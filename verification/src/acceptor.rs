//! The decisions of a listener: when to go on accepting, which worker gets a
//! connection, and which connections must be torn down before they are abandoned.

use vstd::prelude::*;

verus! {

/// Consecutive accept failures after which the acceptor gives up.
pub const MAX_CONSECUTIVE_ACCEPT_ERRORS: u32 = 50;

/// Connection requests that are handled before other events are looked at again.
pub const MAX_DRAIN_PER_WAKEUP: u32 = 64;

/// Connections that may wait for one worker.
pub const WORKER_CHANNEL_CAP: usize = 32;

/// Milliseconds to wait after a failed accept.
pub const ACCEPT_ERROR_BACKOFF_MS: u64 = 100;

/// Seconds that in-flight connections have to finish at shutdown.
pub const DEFAULT_GRACE_SECS: u64 = 30;

/// What one attempt to accept gave.
#[derive(Debug, Clone, Copy, PartialEq, Eq, Structural)]
pub enum AcceptEvent {
    /// A connection.
    Accepted,
    /// Nothing is queued.
    Empty,
    /// The device is gone for good.
    DeviceRemoved,
    /// One peer's setup failed; the listener is not to blame.
    SetupFailed,
    /// The attempt failed.
    Failed,
}

/// What to do after an attempt.
#[derive(Debug, Clone, Copy, PartialEq, Eq, Structural)]
pub enum AcceptAction {
    /// Attempt again at once.
    Again,
    /// Wait until the channel is readable again.
    Park,
    /// Wait a moment, then go on.
    Backoff,
    /// Look at other events, then go on without waiting.
    Yield,
    /// Stop accepting.
    Stop,
}

/// The acceptor's counters.
#[derive(Debug, Clone, Copy, PartialEq, Eq, Structural)]
pub struct Acceptor {
    /// Failures since the last accepted connection.
    pub consecutive_errors: u32,
    /// Requests handled since the channel became readable.
    pub handled: u32,
}

impl Acceptor {
    /// Whether the acceptor is still running.
    pub open spec fn running(self) -> bool {
        &&& self.consecutive_errors < MAX_CONSECUTIVE_ACCEPT_ERRORS
        &&& self.handled < MAX_DRAIN_PER_WAKEUP
    }

    /// The failures that count after an attempt: only an accepted connection shows
    /// that the listener is healthy, so only it clears them.
    pub open spec fn errors_after(self, event: AcceptEvent) -> u32 {
        match event {
            AcceptEvent::Accepted => 0,
            AcceptEvent::Failed => (self.consecutive_errors + 1) as u32,
            _ => self.consecutive_errors,
        }
    }

    /// The requests that count after an attempt: accepted and rejected ones.
    pub open spec fn handled_after(self, event: AcceptEvent) -> u32 {
        match event {
            AcceptEvent::Accepted | AcceptEvent::SetupFailed => (self.handled + 1) as u32,
            _ => self.handled,
        }
    }

    /// What to do after an attempt.
    pub open spec fn action_after(self, event: AcceptEvent) -> AcceptAction {
        let errors = self.errors_after(event);
        let at_cap = self.handled_after(event) >= MAX_DRAIN_PER_WAKEUP;
        match event {
            AcceptEvent::DeviceRemoved => AcceptAction::Stop,
            AcceptEvent::Empty => AcceptAction::Park,
            AcceptEvent::Accepted => if at_cap {
                AcceptAction::Yield
            } else {
                AcceptAction::Again
            },
            AcceptEvent::SetupFailed => if !at_cap {
                AcceptAction::Again
            } else if errors > 0 {
                AcceptAction::Backoff
            } else {
                AcceptAction::Yield
            },
            AcceptEvent::Failed => if errors >= MAX_CONSECUTIVE_ACCEPT_ERRORS {
                AcceptAction::Stop
            } else {
                AcceptAction::Backoff
            },
        }
    }

    /// An acceptor that has not attempted anything.
    pub fn new() -> (r: Self)
        ensures
            r == (Acceptor { consecutive_errors: 0, handled: 0 }),
            r.running(),
    {
        Acceptor { consecutive_errors: 0, handled: 0 }
    }

    /// The channel became readable.
    pub fn on_wakeup(&mut self)
        ensures
            *final(self) == (Acceptor { handled: 0, ..*old(self) }),
    {
        self.handled = 0;
    }

    /// Takes what an attempt gave and decides what to do. An accepted connection is
    /// handed to a worker besides.
    pub fn on_attempt(&mut self, event: AcceptEvent) -> (r: AcceptAction)
        requires
            old(self).running(),
        ensures
            r == old(self).action_after(event),
            final(self).consecutive_errors == old(self).errors_after(event),
            final(self).handled == old(self).handled_after(event),
            r == AcceptAction::Again ==> final(self).running(),
            r != AcceptAction::Stop ==> final(self).consecutive_errors
                < MAX_CONSECUTIVE_ACCEPT_ERRORS,
    {
        match event {
            AcceptEvent::Accepted => {
                self.consecutive_errors = 0;
                self.handled = self.handled + 1;
                if self.handled >= MAX_DRAIN_PER_WAKEUP {
                    AcceptAction::Yield
                } else {
                    AcceptAction::Again
                }
            },
            AcceptEvent::Empty => AcceptAction::Park,
            AcceptEvent::DeviceRemoved => AcceptAction::Stop,
            AcceptEvent::SetupFailed => {
                self.handled = self.handled + 1;
                if self.handled < MAX_DRAIN_PER_WAKEUP {
                    AcceptAction::Again
                } else if self.consecutive_errors > 0 {
                    AcceptAction::Backoff
                } else {
                    AcceptAction::Yield
                }
            },
            AcceptEvent::Failed => {
                self.consecutive_errors = self.consecutive_errors + 1;
                if self.consecutive_errors >= MAX_CONSECUTIVE_ACCEPT_ERRORS {
                    AcceptAction::Stop
                } else {
                    AcceptAction::Backoff
                }
            },
        }
    }
}

/// A signal that reaches the acceptor while it waits.
#[derive(Debug, Clone, Copy, PartialEq, Eq, Structural)]
pub enum Signal {
    /// The shutdown flag was written.
    Shutdown {
        /// Its value.
        requested: bool,
    },
    /// Nobody can write the shutdown flag any more.
    ShutdownGone,
    /// The server was cancelled.
    Cancelled,
    /// The channel is readable.
    Readable,
}

/// Whether the acceptor goes on after a signal: it stops when shutdown is
/// requested, can no longer be requested, or the server was cancelled; a flag that
/// was written back to false changes nothing.
pub fn goes_on(signal: Signal) -> (r: bool)
    ensures
        r == (signal == Signal::Readable || signal == (Signal::Shutdown { requested: false })),
{
    match signal {
        Signal::Shutdown { requested } => !requested,
        Signal::ShutdownGone => false,
        Signal::Cancelled => false,
        Signal::Readable => true,
    }
}

/// The failures since the last accepted connection.
pub open spec fn failures_since_accept(events: Seq<AcceptEvent>) -> int
    decreases events.len(),
{
    if events.len() == 0 {
        0
    } else {
        match events.last() {
            AcceptEvent::Accepted => 0,
            AcceptEvent::Failed => failures_since_accept(events.drop_last()) + 1,
            _ => failures_since_accept(events.drop_last()),
        }
    }
}

/// The failures that an acceptor counts over a history of attempts.
pub open spec fn counted(events: Seq<AcceptEvent>) -> u32
    decreases events.len(),
{
    if events.len() == 0 {
        0
    } else {
        (Acceptor { consecutive_errors: counted(events.drop_last()), handled: 0 }).errors_after(
            events.last(),
        )
    }
}

/// An acceptor gives up on failures exactly when the limit of them has come since
/// the last accepted connection; peers whose setup failed and an empty queue
/// neither count nor clear the count.
pub proof fn law_gives_up_after_error_run(events: Seq<AcceptEvent>, handled: u32)
    requires
        events.len() > 0,
        events.last() == AcceptEvent::Failed,
        forall|k: int|
            0 <= k < events.len() ==> failures_since_accept(#[trigger] events.take(k))
                < MAX_CONSECUTIVE_ACCEPT_ERRORS,
    ensures
        counted(events) == failures_since_accept(events),
        (Acceptor { consecutive_errors: counted(events.drop_last()), handled }).action_after(
            AcceptEvent::Failed,
        ) == AcceptAction::Stop <==> failures_since_accept(events) == MAX_CONSECUTIVE_ACCEPT_ERRORS,
{
    let init = events.drop_last();
    assert(events.take(events.len() - 1) =~= init);
    assert forall|k: int| 0 <= k <= init.len() implies failures_since_accept(
        #[trigger] init.take(k),
    ) < MAX_CONSECUTIVE_ACCEPT_ERRORS by {
        assert(init.take(k) =~= events.take(k));
    }
    lemma_counted(init);
}

proof fn lemma_counted(events: Seq<AcceptEvent>)
    requires
        forall|k: int|
            0 <= k <= events.len() ==> failures_since_accept(#[trigger] events.take(k))
                < MAX_CONSECUTIVE_ACCEPT_ERRORS,
    ensures
        counted(events) == failures_since_accept(events),
        0 <= failures_since_accept(events) < MAX_CONSECUTIVE_ACCEPT_ERRORS,
    decreases events.len(),
{
    assert(events.take(events.len() as int) =~= events);
    if events.len() > 0 {
        let init = events.drop_last();
        assert forall|k: int| 0 <= k <= init.len() implies failures_since_accept(
            #[trigger] init.take(k),
        ) < MAX_CONSECUTIVE_ACCEPT_ERRORS by {
            assert(init.take(k) =~= events.take(k));
        }
        lemma_counted(init);
    }
}

/// Hands connections to workers in turn.
#[derive(Debug, Clone, Copy, PartialEq, Eq, Structural)]
pub struct RoundRobin {
    /// The worker that is asked first.
    pub next: usize,
    /// The number of workers.
    pub workers: usize,
}

impl RoundRobin {
    /// There is a worker, and the next one exists.
    pub open spec fn inv(self) -> bool {
        self.next < self.workers
    }

    /// The worker that is asked after `tried` others refused.
    pub open spec fn candidate_spec(self, tried: int) -> int {
        (self.next + tried) % self.workers as int
    }

    /// The worker to ask after `tried` others refused, if one is left.
    pub open spec fn asked(self, tried: usize) -> Option<usize> {
        if tried < self.workers {
            Some(self.candidate_spec(tried as int) as usize)
        } else {
            None
        }
    }

    /// The worker whose turn it is once one took a connection that `tried` others had
    /// refused.
    pub open spec fn next_after(self, tried: int) -> int {
        self.candidate_spec(tried + 1)
    }

    /// A rotation over at least one worker, starting with the first.
    pub fn new(workers: usize) -> (r: Self)
        ensures
            r.next == 0,
            r.workers == (if workers < 1 {
                1
            } else {
                workers
            }),
            r.inv(),
    {
        RoundRobin {
            next: 0,
            workers: if workers < 1 {
                1
            } else {
                workers
            },
        }
    }

    /// The worker to ask after `tried` others refused, or `None` once every worker
    /// has refused and the connection is dropped.
    pub fn candidate(&self, tried: usize) -> (r: Option<usize>)
        requires
            self.inv(),
        ensures
            r == self.asked(tried),
            r matches Some(w) ==> w < self.workers,
    {
        if tried >= self.workers {
            return None;
        }
        let left: usize = self.workers - self.next;
        proof {
            lemma_wrap(self.next as int, tried as int, self.workers as int);
        }
        if tried < left {
            Some(self.next + tried)
        } else {
            Some(tried - left)
        }
    }

    /// A worker took the connection after `tried` others had refused it; the next
    /// connection goes to the one behind it.
    pub fn delivered(&mut self, tried: usize)
        requires
            old(self).inv(),
            tried < old(self).workers,
        ensures
            final(self).inv(),
            final(self).workers == old(self).workers,
            final(self).next == old(self).next_after(tried as int),
    {
        let left: usize = self.workers - self.next;
        proof {
            lemma_wrap(self.next as int, tried + 1, self.workers as int);
        }
        if tried + 1 < left {
            self.next = self.next + tried + 1;
        } else {
            self.next = tried + 1 - left;
        }
    }
}

proof fn lemma_wrap(next: int, k: int, n: int)
    requires
        0 <= next < n,
        0 <= k <= n,
    ensures
        k < n - next ==> (next + k) % n == next + k,
        k >= n - next ==> (next + k) % n == next + k - n,
{
    if k < n - next {
        assert((next + k) % n == next + k) by (nonlinear_arith)
            requires
                0 <= next + k < n,
        ;
    } else {
        assert((next + k) % n == next + k - n) by (nonlinear_arith)
            requires
                n <= next + k < 2 * n,
        ;
    }
}

/// A connection is offered to every worker once before it is dropped.
pub proof fn law_every_worker_is_asked_once(r: RoundRobin, i: int, j: int, w: int)
    requires
        r.inv(),
        0 <= i < j < r.workers,
        0 <= w < r.workers,
    ensures
        r.candidate_spec(i) != r.candidate_spec(j),
        exists|t: int| 0 <= t < r.workers && #[trigger] r.candidate_spec(t) == w,
{
    let n = r.workers as int;
    lemma_wrap(r.next as int, i, n);
    lemma_wrap(r.next as int, j, n);
    let t = if w >= r.next {
        w - r.next
    } else {
        w + n - r.next
    };
    lemma_wrap(r.next as int, t, n);
    assert(r.candidate_spec(t) == w);
}

/// When every worker refused, the rotation stands where it stood.
pub proof fn law_full_round_returns(r: RoundRobin)
    requires
        r.inv(),
    ensures
        r.candidate_spec(r.workers as int) == r.next,
{
    lemma_wrap(r.next as int, r.workers as int, r.workers as int);
}

/// The connections that a worker is serving, by task.
#[derive(Debug)]
pub struct LiveConnections {
    ids: Vec<u64>,
}

impl View for LiveConnections {
    type V = Seq<u64>;

    closed spec fn view(&self) -> Seq<u64> {
        self.ids@
    }
}

/// `ids` without `id`.
pub open spec fn without(ids: Seq<u64>, id: u64) -> Seq<u64>
    decreases ids.len(),
{
    if ids.len() == 0 {
        seq![]
    } else if ids.last() == id {
        without(ids.drop_last(), id)
    } else {
        without(ids.drop_last(), id).push(ids.last())
    }
}

impl LiveConnections {
    /// None.
    pub fn new() -> (r: Self)
        ensures
            r@ == Seq::<u64>::empty(),
    {
        LiveConnections { ids: Vec::new() }
    }

    /// A connection's task was started.
    pub fn started(&mut self, id: u64)
        ensures
            final(self)@ == old(self)@.push(id),
    {
        self.ids.push(id);
    }

    /// A connection's task ended; it needs no tearing down any more.
    pub fn finished(&mut self, id: u64)
        ensures
            final(self)@ == without(old(self)@, id),
    {
        let mut kept: Vec<u64> = Vec::new();
        let mut i: usize = 0;
        assert(self.ids@.take(0) =~= seq![]);
        while i < self.ids.len()
            invariant
                i <= self.ids@.len(),
                self.ids@ == old(self)@,
                kept@ == without(self.ids@.take(i as int), id),
            decreases self.ids@.len() - i,
        {
            assert(self.ids@.take(i + 1).drop_last() =~= self.ids@.take(i as int));
            let x: u64 = self.ids[i];
            if x != id {
                kept.push(x);
            }
            i = i + 1;
        }
        assert(self.ids@.take(self.ids@.len() as int) =~= self.ids@);
        self.ids = kept;
    }

    /// The connections that must be torn down before their tasks are abandoned,
    /// when the grace period `expired`; none if all tasks ended in time.
    pub fn to_tear_down(&self, expired: bool) -> (r: Vec<u64>)
        ensures
            r@ == (if expired {
                self@
            } else {
                Seq::<u64>::empty()
            }),
    {
        let mut ids: Vec<u64> = Vec::new();
        if expired {
            ids.extend_from_slice(self.ids.as_slice());
            assert(ids@ =~= self@);
        }
        ids
    }
}

/// Whatever was started and has not finished is torn down when the grace period
/// expires, and nothing else.
pub proof fn law_unfinished_are_torn_down(ids: Seq<u64>, id: u64, other: u64)
    ensures
        !without(ids, id).contains(id),
        other != id ==> (without(ids, id).contains(other) <==> ids.contains(other)),
        ids.push(id).contains(id),
    decreases ids.len(),
{
    assert(ids.push(id)[ids.len() as int] == id);
    if ids.len() > 0 {
        let init = ids.drop_last();
        law_unfinished_are_torn_down(init, id, other);
        let last = ids.last();
        let w = without(init, id);
        assert forall|x: u64| #[trigger] ids.contains(x) <==> init.contains(x) || x == last by {
            if ids.contains(x) {
                let i = choose|i: int| 0 <= i < ids.len() && ids[i] == x;
                if i < init.len() {
                    assert(init[i] == x);
                }
            }
            if init.contains(x) {
                let i = choose|i: int| 0 <= i < init.len() && init[i] == x;
                assert(ids[i] == x);
            }
            assert(ids[ids.len() - 1] == last);
        }
        assert forall|x: u64| #[trigger] w.push(last).contains(x) <==> w.contains(x) || x == last by {
            let p = w.push(last);
            if p.contains(x) {
                let i = choose|i: int| 0 <= i < p.len() && p[i] == x;
                if i < w.len() {
                    assert(w[i] == x);
                }
            }
            if w.contains(x) {
                let i = choose|i: int| 0 <= i < w.len() && w[i] == x;
                assert(p[i] == x);
            }
            assert(p[w.len() as int] == last);
        }
    }
}

/// The number of workers to use.
pub open spec fn workers_for(parallelism: Option<usize>) -> usize {
    match parallelism {
        Some(n) => if n < 1 {
            1
        } else {
            n
        },
        None => 1,
    }
}

/// The number of workers to use: the parallelism that the host reports, at least
/// one.
pub fn default_workers(parallelism: Option<usize>) -> (r: usize)
    ensures
        r == workers_for(parallelism),
{
    match parallelism {
        Some(n) => if n < 1 {
            1
        } else {
            n
        },
        None => 1,
    }
}

/// What an acceptor does after an attempt. It stops for good only if the device is
/// gone or the fiftieth failure in a row came, parks only if nothing is queued, and
/// waits a moment after every other failure. Requests are handled at once until
/// sixty-four of them have been since the channel became readable; then other events
/// are looked at, after a moment if a failure is pending and a peer was rejected.
pub proof fn law_acceptor_reacts(a: Acceptor, event: AcceptEvent)
    requires
        a.consecutive_errors < 50,
        a.handled < 64,
    ensures
        ({
            let action = a.action_after(event);
            let request = event == AcceptEvent::Accepted || event == AcceptEvent::SetupFailed;
            &&& action == AcceptAction::Stop <==> event == AcceptEvent::DeviceRemoved || (event
                == AcceptEvent::Failed && a.consecutive_errors == 49)
            &&& action == AcceptAction::Park <==> event == AcceptEvent::Empty
            &&& event == AcceptEvent::Failed && a.consecutive_errors < 49 ==> action
                == AcceptAction::Backoff
            &&& action == AcceptAction::Again <==> request && a.handled < 63
            &&& event == AcceptEvent::Accepted && a.handled == 63 ==> action
                == AcceptAction::Yield
            &&& event == AcceptEvent::SetupFailed && a.handled == 63 ==> (action
                == AcceptAction::Backoff <==> a.consecutive_errors > 0) && (action
                == AcceptAction::Yield <==> a.consecutive_errors == 0)
            &&& a.handled_after(event) == a.handled + (if request {
                1int
            } else {
                0
            })
            &&& event == AcceptEvent::Accepted ==> a.errors_after(event) == 0
            &&& event == AcceptEvent::Failed ==> a.errors_after(event) == a.consecutive_errors + 1
            &&& event != AcceptEvent::Accepted && event != AcceptEvent::Failed
                ==> a.errors_after(event) == a.consecutive_errors
        }),
{
}

/// Workers are asked in order: the first is the one whose turn it is, and behind each
/// comes its successor, the first worker behind the last.
pub proof fn law_workers_are_asked_in_order(r: RoundRobin, tried: int)
    requires
        r.inv(),
        0 <= tried < r.workers,
    ensures
        r.candidate_spec(0) == r.next,
        0 <= r.candidate_spec(tried) < r.workers,
        r.candidate_spec(tried) + 1 < r.workers ==> r.candidate_spec(tried + 1)
            == r.candidate_spec(tried) + 1,
        r.candidate_spec(tried) + 1 == r.workers ==> r.candidate_spec(tried + 1) == 0,
{
    let n = r.workers as int;
    lemma_wrap(r.next as int, 0, n);
    lemma_wrap(r.next as int, tried, n);
    lemma_wrap(r.next as int, tried + 1, n);
}

/// Connections go round: once a worker took one, it is its successor's turn, and with
/// every worker willing each gets one before any gets two.
pub proof fn law_turns_go_round(r: RoundRobin, tried: int)
    requires
        r.inv(),
        0 <= tried < r.workers,
    ensures
        0 <= r.next_after(tried) < r.workers,
        r.candidate_spec(tried) + 1 < r.workers ==> r.next_after(tried) == r.candidate_spec(tried)
            + 1,
        r.candidate_spec(tried) + 1 == r.workers ==> r.next_after(tried) == 0,
        r.workers > 1 ==> r.next_after(tried) != r.candidate_spec(tried),
{
    law_workers_are_asked_in_order(r, tried);
}

/// An acceptor that was told to try again may do so, and one that was woken up may
/// unless its failures made it stop: below fifty failures in a row, and below
/// sixty-four requests since it was woken up, it runs.
pub proof fn law_acceptor_runs_below_its_limits(a: Acceptor, event: AcceptEvent)
    ensures
        a.running() <==> a.consecutive_errors <= 49 && a.handled <= 63,
        a.running() && event != AcceptEvent::DeviceRemoved ==> {
            let after = Acceptor {
                consecutive_errors: a.errors_after(event),
                handled: a.handled_after(event),
            };
            &&& a.action_after(event) == AcceptAction::Again ==> after.running()
            &&& (Acceptor { handled: 0, ..after }).running() <==> a.action_after(event)
                != AcceptAction::Stop
        },
{
}

/// There is always a worker: one for each core that is reported, and one where none is.
pub proof fn law_there_is_a_worker(parallelism: Option<usize>)
    ensures
        workers_for(parallelism) >= 1,
        parallelism matches Some(n) ==> (n >= 1 ==> workers_for(parallelism) == n),
        parallelism is None || parallelism == Some(0usize) ==> workers_for(parallelism) == 1,
{
}

/// A connection is dropped only behind the last worker: as many are asked as there are,
/// each of them exists, and none is asked twice.
pub proof fn law_asking_ends_behind_the_last_worker(r: RoundRobin, a: usize, b: usize)
    requires
        r.inv(),
        a < b,
    ensures
        r.asked(a) is Some <==> a < r.workers,
        r.asked(a) matches Some(w) ==> w < r.workers,
        r.asked(a) matches Some(v) ==> (r.asked(b) matches Some(w) ==> v != w),
{
    if a < r.workers {
        lemma_wrap(r.next as int, a as int, r.workers as int);
    }
    if b < r.workers {
        lemma_wrap(r.next as int, b as int, r.workers as int);
    }
}

} // verus!
