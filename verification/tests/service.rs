//! The source pool, the acceptor, the reactor and the life of a connection.

use hord::acceptor::{
    default_workers, goes_on, AcceptAction, AcceptEvent, Acceptor, LiveConnections, RoundRobin,
    Signal, MAX_CONSECUTIVE_ACCEPT_ERRORS, MAX_DRAIN_PER_WAKEUP,
};
use hord::cm::{
    check_disconnect, expect_event, on_listen_event, setup_steps, CmEvent, Lifecycle, ListenStep,
    Role, SetupStep, Shutdown, UnexpectedEvent,
};
use hord::pool::{Acquire, SourceLease, SourcePool};
use hord::reactor::{pump_step, PumpStep, ReactorAction, ReactorEvent, ReactorState};
use hord::verbs::{
    cq_entries, remote_writable, CmParams, Completion, Opcode, RegisteredBuffer,
    ACCESS_LOCAL_WRITE, ACCESS_REMOTE_WRITE,
};

/// Leases a buffer, registering one under the next number where that is needed.
fn lease(pool: &mut SourcePool<u32>, len: usize, next: &mut u32) -> SourceLease<u32> {
    match pool.acquire(len) {
        Acquire::Reuse(buf) => pool.reused(buf),
        Acquire::Grow { size } => {
            assert_eq!(size, pool.buf_size());
            *next += 1;
            pool.grown(*next)
        }
        Acquire::OneOff { size } => {
            assert_eq!(size, len.max(1));
            *next += 1;
            pool.fell_back(*next)
        }
    }
}

#[test]
fn sequential_responses_share_one_registration() {
    let mut pool = SourcePool::new(4, 1024);
    let mut next = 0;
    for _ in 0..5 {
        let l = lease(&mut pool, 1000, &mut next);
        assert_eq!(*l.buffer(), 1);
        assert_eq!(pool.release(l), None);
    }
    assert_eq!(pool.fallbacks(), 0);
    assert_eq!(pool.registered(), 1);
    assert_eq!(pool.available(), 1);
}

#[test]
fn oversized_objects_fall_back() {
    let mut pool = SourcePool::new(4, 1024);
    let mut next = 0;
    for k in 1..=3 {
        let l = lease(&mut pool, 5000, &mut next);
        assert_eq!(pool.release(l), Some(k));
    }
    assert_eq!(pool.registered(), 0);
    assert_eq!(pool.fallbacks(), 3);
    assert_eq!(pool.available(), 0);
}

#[test]
fn an_exhausted_pool_falls_back() {
    let mut pool = SourcePool::new(2, 0);
    assert_eq!(pool.buf_size(), 1);
    let mut next = 0;
    let a = lease(&mut pool, 1, &mut next);
    let b = lease(&mut pool, 0, &mut next);
    let c = lease(&mut pool, 1, &mut next);
    assert_eq!((pool.registered(), pool.fallbacks(), pool.available()), (2, 1, 0));
    assert_eq!(pool.release(c), Some(3));
    assert_eq!(pool.release(a), None);
    assert_eq!(pool.release(b), None);
    assert_eq!(pool.acquire(1), Acquire::Reuse(2));
}

#[test]
fn acceptor_gives_up_only_after_a_run_of_failures() {
    let mut a = Acceptor::new();
    for _ in 0..MAX_CONSECUTIVE_ACCEPT_ERRORS - 1 {
        a.on_wakeup();
        assert_eq!(a.on_attempt(AcceptEvent::Failed), AcceptAction::Backoff);
        // Neither an empty queue nor a rejected peer clears the run.
        assert_eq!(a.on_attempt(AcceptEvent::SetupFailed), AcceptAction::Again);
        assert_eq!(a.on_attempt(AcceptEvent::Empty), AcceptAction::Park);
    }
    let mut healthy = a;
    assert_eq!(healthy.on_attempt(AcceptEvent::Accepted), AcceptAction::Again);
    assert_eq!(healthy.consecutive_errors, 0);
    assert_eq!(healthy.on_attempt(AcceptEvent::Failed), AcceptAction::Backoff);
    assert_eq!(a.on_attempt(AcceptEvent::Failed), AcceptAction::Stop);
    let mut gone = Acceptor::new();
    assert_eq!(gone.on_attempt(AcceptEvent::DeviceRemoved), AcceptAction::Stop);
}

#[test]
fn acceptor_yields_to_other_events() {
    let mut a = Acceptor::new();
    for _ in 0..MAX_DRAIN_PER_WAKEUP - 1 {
        assert_eq!(a.on_attempt(AcceptEvent::Accepted), AcceptAction::Again);
    }
    let mut b = a;
    assert_eq!(a.on_attempt(AcceptEvent::Accepted), AcceptAction::Yield);
    assert_eq!(b.on_attempt(AcceptEvent::SetupFailed), AcceptAction::Yield);
    a.on_wakeup();
    assert_eq!(a.on_attempt(AcceptEvent::Accepted), AcceptAction::Again);
}

#[test]
fn acceptor_signals() {
    assert!(goes_on(Signal::Readable));
    assert!(goes_on(Signal::Shutdown { requested: false }));
    assert!(!goes_on(Signal::Shutdown { requested: true }));
    assert!(!goes_on(Signal::ShutdownGone));
    assert!(!goes_on(Signal::Cancelled));
    assert_eq!(default_workers(None), 1);
    assert_eq!(default_workers(Some(0)), 1);
    assert_eq!(default_workers(Some(8)), 8);
}

#[test]
fn connections_go_round() {
    let mut r = RoundRobin::new(3);
    assert_eq!(r.candidate(0), Some(0));
    r.delivered(0);
    // The next one is refused by worker 1 and taken by worker 2.
    assert_eq!(r.candidate(0), Some(1));
    assert_eq!(r.candidate(1), Some(2));
    assert_eq!(r.candidate(2), Some(0));
    assert_eq!(r.candidate(3), None);
    r.delivered(1);
    assert_eq!(r.candidate(0), Some(0));
    let one = RoundRobin::new(0);
    assert_eq!((one.candidate(0), one.candidate(1)), (Some(0), None));
}

#[test]
fn unfinished_connections_are_torn_down() {
    let mut live = LiveConnections::new();
    for id in 1..=4 {
        live.started(id);
    }
    live.finished(2);
    live.finished(4);
    assert_eq!(live.to_tear_down(true), vec![1, 3]);
    assert!(live.to_tear_down(false).is_empty());
}

#[test]
fn reactor_arms_before_it_parks() {
    let (s, a) = ReactorState::start();
    assert_eq!(a, ReactorAction::Drain);
    assert_eq!(s.step(ReactorEvent::Drained { n: 2 }).1, ReactorAction::Ready);
    let (s, a) = s.step(ReactorEvent::Drained { n: 0 });
    assert_eq!(a, ReactorAction::CheckCm);
    assert_eq!(s.step(ReactorEvent::Disconnected { gone: true }).1, ReactorAction::Ready);
    let (s, a) = s.step(ReactorEvent::Disconnected { gone: false });
    assert_eq!(a, ReactorAction::Arm);
    let (s, a) = s.step(ReactorEvent::Armed);
    assert_eq!(a, ReactorAction::Drain);
    assert_eq!(s.step(ReactorEvent::Drained { n: 1 }).1, ReactorAction::Ready);
    let (s, a) = s.step(ReactorEvent::Drained { n: 0 });
    assert_eq!(a, ReactorAction::Wait);
    assert_eq!(s.step(ReactorEvent::NotReady).1, ReactorAction::Pending);
    let (s, a) = s.step(ReactorEvent::Readable);
    assert_eq!(a, ReactorAction::ConsumeAndArm);
    let (s, a) = s.step(ReactorEvent::Armed);
    assert_eq!(a, ReactorAction::Drain);
    assert_eq!(s.step(ReactorEvent::Drained { n: 0 }).1, ReactorAction::Wait);
}

#[test]
fn driving_task_stops_with_its_connection() {
    assert_eq!(pump_step(false, false), PumpStep { close: false, stop: false });
    assert_eq!(pump_step(false, true), PumpStep { close: false, stop: true });
    assert_eq!(pump_step(true, false), PumpStep { close: true, stop: true });
}

#[test]
fn connection_manager_events() {
    assert_eq!(on_listen_event(CmEvent::ConnectRequest), ListenStep::SetUp);
    assert_eq!(on_listen_event(CmEvent::DeviceRemoval), ListenStep::DeviceRemoved);
    assert_eq!(on_listen_event(CmEvent::Other(15)), ListenStep::Ignore);
    assert!(check_disconnect(Some(CmEvent::Disconnected)));
    assert!(check_disconnect(Some(CmEvent::DeviceRemoval)));
    assert!(check_disconnect(Some(CmEvent::ConnectError)));
    assert!(!check_disconnect(Some(CmEvent::Established)));
    assert!(!check_disconnect(None));
    assert_eq!(expect_event(CmEvent::Established, CmEvent::Established), Ok(()));
    assert_eq!(
        expect_event(CmEvent::Established, CmEvent::ConnectError),
        Err(UnexpectedEvent { want: CmEvent::Established, got: CmEvent::ConnectError })
    );
}

#[test]
fn receives_are_posted_before_traffic() {
    for role in [Role::Client, Role::Server] {
        let steps = setup_steps(role);
        let at = |s: SetupStep| steps.iter().position(|&x| x == s);
        let posted = at(SetupStep::PostReceives).unwrap();
        assert!(at(SetupStep::ToInit).unwrap() < posted);
        assert!(posted < at(SetupStep::ToReadyToReceive).unwrap());
        for s in [SetupStep::Connect, SetupStep::Accept] {
            assert!(at(s).map_or(true, |i| posted < i));
        }
    }
}

#[test]
fn teardown_happens_once() {
    let mut l = Lifecycle::new();
    assert!(l.disconnect());
    assert!(!l.disconnect());
    assert_eq!(l.shutdown(), Shutdown { disconnect: false, destroy: true });
    assert_eq!(l.shutdown(), Shutdown { disconnect: false, destroy: false });
    assert!(!l.live);
    assert_eq!(Lifecycle::new().shutdown(), Shutdown { disconnect: true, destroy: true });
}

#[test]
fn completions_and_registrations() {
    let c = Completion::from_wc(5, 10, 129, 0, 77);
    assert_eq!((c.opcode, c.imm_data), (Opcode::RecvRdmaWithImm, 77));
    assert!(c.is_success());
    let c = Completion::from_wc(5, 10, 128, 4, 77);
    assert_eq!((c.opcode, c.imm_data), (Opcode::Recv, 0));
    assert!(!c.is_success());
    assert_eq!(Opcode::from_raw(0), Opcode::Send);
    assert_eq!(Opcode::from_raw(1), Opcode::RdmaWrite);
    assert_eq!(Opcode::from_raw(3), Opcode::Other(3));
    assert!(remote_writable(ACCESS_LOCAL_WRITE | ACCESS_REMOTE_WRITE));
    assert!(!remote_writable(ACCESS_LOCAL_WRITE));
    assert_eq!(cq_entries(18, 43), 77);
    let d = CmParams::default();
    assert_eq!((d.retry_count, d.rnr_retry_count, d.resolve_timeout()), (7, 7, 2000));
    assert_eq!(CmParams { resolve_timeout_ms: -1, ..d }.resolve_timeout(), 0);
    let b = RegisteredBuffer { addr: 0, length: 8, local_key: 1, remote_key: 2 };
    assert!(b.in_bounds(3, 5) && !b.in_bounds(4, 5) && !b.in_bounds(usize::MAX, 2));
    assert!(!b.is_empty());
    assert_eq!((b.len(), b.lkey(), b.rkey()), (8, 1, 2));
}
