//! What the connection manager's events mean, and the order in which a connection
//! is brought up and torn down.
//!
//! A connection is set up in two phases, so that receives are posted before the
//! queue pair can carry traffic: until then a peer's first message would find no
//! buffer.

use vstd::prelude::*;

verus! {

/// Connection requests that may wait at a listener.
pub const LISTEN_BACKLOG: i32 = 128;

/// An event of the connection manager.
#[derive(Debug, Clone, Copy, PartialEq, Eq, Structural)]
pub enum CmEvent {
    /// A peer asks for a connection.
    ConnectRequest,
    /// The peer's address is resolved.
    AddressResolved,
    /// The route to the peer is resolved.
    RouteResolved,
    /// The peer accepted.
    ConnectResponse,
    /// The connection is established.
    Established,
    /// The peer disconnected.
    Disconnected,
    /// The device is gone.
    DeviceRemoval,
    /// Connecting failed.
    ConnectError,
    /// Anything else, by its raw code.
    Other(u32),
}

/// What a listener does about an event.
#[derive(Debug, Clone, Copy, PartialEq, Eq, Structural)]
pub enum ListenStep {
    /// Set up the connection.
    SetUp,
    /// Stop: no further event will come.
    DeviceRemoved,
    /// Acknowledge the event and wait for the next.
    Ignore,
}

/// Decides what a listener does about an event: connection requests are taken,
/// the loss of the device is final, and stray events mean nothing.
pub fn on_listen_event(event: CmEvent) -> (r: ListenStep)
    ensures
        r == (match event {
            CmEvent::ConnectRequest => ListenStep::SetUp,
            CmEvent::DeviceRemoval => ListenStep::DeviceRemoved,
            _ => ListenStep::Ignore,
        }),
{
    match event {
        CmEvent::ConnectRequest => ListenStep::SetUp,
        CmEvent::DeviceRemoval => ListenStep::DeviceRemoved,
        _ => ListenStep::Ignore,
    }
}

/// Whether an event says that the peer is gone.
pub open spec fn is_teardown(event: CmEvent) -> bool {
    event == CmEvent::Disconnected || event == CmEvent::DeviceRemoval || event
        == CmEvent::ConnectError
}

/// Whether the peer is gone, by the event that is pending on an established
/// connection, if any.
pub fn check_disconnect(pending: Option<CmEvent>) -> (r: bool)
    ensures
        r == (pending matches Some(event) && is_teardown(event)),
{
    match pending {
        Some(CmEvent::Disconnected) => true,
        Some(CmEvent::DeviceRemoval) => true,
        Some(CmEvent::ConnectError) => true,
        _ => false,
    }
}

/// The wrong event came during setup.
#[derive(Debug, Clone, Copy, PartialEq, Eq, Structural)]
pub struct UnexpectedEvent {
    /// The event that was due.
    pub want: CmEvent,
    /// The event that came.
    pub got: CmEvent,
}

/// Checks the event that came during setup.
pub fn expect_event(want: CmEvent, got: CmEvent) -> (r: Result<(), UnexpectedEvent>)
    ensures
        r == (if got == want {
            Ok::<(), UnexpectedEvent>(())
        } else {
            Err(UnexpectedEvent { want, got })
        }),
{
    if got == want {
        Ok(())
    } else {
        Err(UnexpectedEvent { want, got })
    }
}

/// Which end of a connection this is.
#[derive(Debug, Clone, Copy, PartialEq, Eq, Structural)]
pub enum Role {
    /// It accepts.
    Server,
    /// It connects.
    Client,
}

/// One step of bringing a connection up.
#[derive(Debug, Clone, Copy, PartialEq, Eq, Structural)]
pub enum SetupStep {
    /// Resolve the peer's address.
    ResolveAddr,
    /// Resolve the route to the peer.
    ResolveRoute,
    /// Give the connection an event channel of its own.
    MigrateChannel,
    /// Create the protection domain, the completion queue and the queue pair.
    BuildEndpoint,
    /// Bring the queue pair to its initial state, open to remote writes.
    ToInit,
    /// Register the buffers and post the receives.
    PostReceives,
    /// Bring the queue pair to where it can receive.
    ToReadyToReceive,
    /// Bring the queue pair to where it can send.
    ToReadyToSend,
    /// Ask the peer for the connection.
    Connect,
    /// Accept the peer's request.
    Accept,
    /// Report the connection as established.
    Establish,
    /// Wait for this event.
    Await(CmEvent),
}

/// The steps that bring a connection up, in order.
pub open spec fn setup(role: Role) -> Seq<SetupStep> {
    match role {
        Role::Client => seq![
            SetupStep::ResolveAddr,
            SetupStep::Await(CmEvent::AddressResolved),
            SetupStep::ResolveRoute,
            SetupStep::Await(CmEvent::RouteResolved),
            SetupStep::BuildEndpoint,
            SetupStep::ToInit,
            SetupStep::PostReceives,
            SetupStep::Connect,
            SetupStep::Await(CmEvent::ConnectResponse),
            SetupStep::ToReadyToReceive,
            SetupStep::ToReadyToSend,
            SetupStep::Establish,
        ],
        Role::Server => seq![
            SetupStep::MigrateChannel,
            SetupStep::BuildEndpoint,
            SetupStep::ToInit,
            SetupStep::PostReceives,
            SetupStep::ToReadyToReceive,
            SetupStep::ToReadyToSend,
            SetupStep::Accept,
            SetupStep::Await(CmEvent::Established),
        ],
    }
}

/// The steps that bring a connection up, in order.
pub fn setup_steps(role: Role) -> (r: Vec<SetupStep>)
    ensures
        r@ == setup(role),
{
    let mut steps: Vec<SetupStep> = Vec::new();
    match role {
        Role::Client => {
            steps.push(SetupStep::ResolveAddr);
            steps.push(SetupStep::Await(CmEvent::AddressResolved));
            steps.push(SetupStep::ResolveRoute);
            steps.push(SetupStep::Await(CmEvent::RouteResolved));
            steps.push(SetupStep::BuildEndpoint);
            steps.push(SetupStep::ToInit);
            steps.push(SetupStep::PostReceives);
            steps.push(SetupStep::Connect);
            steps.push(SetupStep::Await(CmEvent::ConnectResponse));
            steps.push(SetupStep::ToReadyToReceive);
            steps.push(SetupStep::ToReadyToSend);
            steps.push(SetupStep::Establish);
        },
        Role::Server => {
            steps.push(SetupStep::MigrateChannel);
            steps.push(SetupStep::BuildEndpoint);
            steps.push(SetupStep::ToInit);
            steps.push(SetupStep::PostReceives);
            steps.push(SetupStep::ToReadyToReceive);
            steps.push(SetupStep::ToReadyToSend);
            steps.push(SetupStep::Accept);
            steps.push(SetupStep::Await(CmEvent::Established));
        },
    }
    assert(steps@ =~= setup(role));
    steps
}

/// The steps after which traffic can reach this end.
pub open spec fn opens_traffic(step: SetupStep) -> bool {
    step == SetupStep::ToReadyToReceive || step == SetupStep::Connect || step == SetupStep::Accept
}

/// At either end the receives are posted before anything that lets traffic in, and
/// after the queue pair exists.
pub proof fn law_receives_are_posted_first(role: Role, i: int, j: int)
    requires
        0 <= i < setup(role).len(),
        0 <= j < setup(role).len(),
        setup(role)[i] == SetupStep::PostReceives,
    ensures
        opens_traffic(setup(role)[j]) ==> i < j,
        setup(role)[j] == SetupStep::BuildEndpoint || setup(role)[j] == SetupStep::ToInit ==> j < i,
        setup(role)[j] == SetupStep::PostReceives ==> i == j,
{
}

/// Whether a connection still has its queue pair, and whether its peer was told
/// that it ends.
#[derive(Debug, Clone, Copy, PartialEq, Eq, Structural)]
pub struct Lifecycle {
    /// The peer was told.
    pub disconnected: bool,
    /// The queue pair exists.
    pub live: bool,
}

/// What a shutdown has to do.
#[derive(Debug, Clone, Copy, PartialEq, Eq, Structural)]
pub struct Shutdown {
    /// Tell the peer.
    pub disconnect: bool,
    /// Destroy the queue pair.
    pub destroy: bool,
}

impl Lifecycle {
    /// A connection that was just made.
    pub fn new() -> (r: Self)
        ensures
            r == (Lifecycle { disconnected: false, live: true }),
    {
        Lifecycle { disconnected: false, live: true }
    }

    /// Begins a graceful disconnect. Returns whether the peer has to be told, which
    /// is at most once.
    pub fn disconnect(&mut self) -> (r: bool)
        ensures
            r == !old(self).disconnected,
            *final(self) == (Lifecycle { disconnected: true, ..*old(self) }),
    {
        let first = !self.disconnected;
        self.disconnected = true;
        first
    }

    /// Stops the NIC for this connection. Once the queue pair is destroyed no
    /// further work request can be posted, and registered memory may be released.
    pub fn shutdown(&mut self) -> (r: Shutdown)
        ensures
            r == (Shutdown { disconnect: !old(self).disconnected, destroy: old(self).live }),
            *final(self) == (Lifecycle { disconnected: true, live: false }),
    {
        let first = self.disconnect();
        let destroy = self.live;
        self.live = false;
        Shutdown { disconnect: first, destroy }
    }
}

/// An operation on a connection's life.
#[derive(Debug, Clone, Copy, PartialEq, Eq, Structural)]
pub enum LifeOp {
    /// [`Lifecycle::disconnect`].
    Disconnect,
    /// [`Lifecycle::shutdown`].
    Shutdown,
}

/// The state after operations on a new connection.
pub open spec fn life_after(ops: Seq<LifeOp>) -> Lifecycle
    decreases ops.len(),
{
    if ops.len() == 0 {
        Lifecycle { disconnected: false, live: true }
    } else {
        match ops.last() {
            LifeOp::Disconnect => Lifecycle { disconnected: true, ..life_after(ops.drop_last()) },
            LifeOp::Shutdown => Lifecycle { disconnected: true, live: false },
        }
    }
}

/// How often operations on a new connection tell the peer.
pub open spec fn times_told(ops: Seq<LifeOp>) -> int
    decreases ops.len(),
{
    if ops.len() == 0 {
        0
    } else if life_after(ops.drop_last()).disconnected {
        times_told(ops.drop_last())
    } else {
        times_told(ops.drop_last()) + 1
    }
}

/// How often operations on a new connection destroy its queue pair.
pub open spec fn times_destroyed(ops: Seq<LifeOp>) -> int
    decreases ops.len(),
{
    if ops.len() == 0 {
        0
    } else if ops.last() == LifeOp::Shutdown && life_after(ops.drop_last()).live {
        times_destroyed(ops.drop_last()) + 1
    } else {
        times_destroyed(ops.drop_last())
    }
}

/// However often and in whatever order a connection is disconnected and shut down,
/// its peer is told once and its queue pair destroyed at most once.
pub proof fn law_teardown_is_idempotent(ops: Seq<LifeOp>)
    ensures
        times_told(ops) == (if ops.len() > 0 {
            1int
        } else {
            0
        }),
        life_after(ops).disconnected == (ops.len() > 0),
        times_destroyed(ops) == (if life_after(ops).live {
            0int
        } else {
            1
        }),
        !life_after(ops).live <==> ops.contains(LifeOp::Shutdown),
    decreases ops.len(),
{
    if ops.len() > 0 {
        let init = ops.drop_last();
        law_teardown_is_idempotent(init);
        assert(ops[ops.len() - 1] == ops.last());
        if init.contains(LifeOp::Shutdown) {
            let i = choose|i: int| 0 <= i < init.len() && init[i] == LifeOp::Shutdown;
            assert(ops[i] == LifeOp::Shutdown);
        }
        if ops.contains(LifeOp::Shutdown) && ops.last() != LifeOp::Shutdown {
            let i = choose|i: int| 0 <= i < ops.len() && ops[i] == LifeOp::Shutdown;
            assert(init[i] == LifeOp::Shutdown);
        }
    }
}

/// The order of setup: an end that connects resolves the address, then the route,
/// before it builds its endpoint, and asks for the connection before it waits for the
/// answer; one that accepts takes the connection to a channel of its own first. A
/// queue pair is built, initialised, made ready to receive and then to send, and only
/// then is the connection accepted or reported as established.
pub proof fn law_setup_is_in_order(role: Role, i: int, j: int)
    requires
        0 <= i < setup(role).len(),
        0 <= j < setup(role).len(),
    ensures
        ({
            let (x, y) = (setup(role)[i], setup(role)[j]);
            &&& x == SetupStep::ResolveAddr && y == SetupStep::ResolveRoute ==> i < j
            &&& x == SetupStep::ResolveRoute && y == SetupStep::BuildEndpoint ==> i < j
            &&& x == SetupStep::MigrateChannel && y == SetupStep::BuildEndpoint ==> i < j
            &&& x == SetupStep::BuildEndpoint && y == SetupStep::ToInit ==> i < j
            &&& x == SetupStep::ToInit && y == SetupStep::PostReceives ==> i < j
            &&& x == SetupStep::ToReadyToReceive && y == SetupStep::ToReadyToSend ==> i < j
            &&& x == SetupStep::ToReadyToSend && (y == SetupStep::Accept || y
                == SetupStep::Establish) ==> i < j
            &&& x == y ==> i == j
        }),
{
}

/// Each wait of setup follows directly the step that brings the event about, except
/// that the one for the peer's answer follows the request.
pub proof fn law_setup_waits_for_its_own_events(role: Role, i: int)
    requires
        0 <= i < setup(role).len(),
    ensures
        setup(role)[i] matches SetupStep::Await(event) ==> i > 0 && (setup(role)[i - 1] == (
        if event == CmEvent::AddressResolved {
            SetupStep::ResolveAddr
        } else if event == CmEvent::RouteResolved {
            SetupStep::ResolveRoute
        } else if event == CmEvent::ConnectResponse {
            SetupStep::Connect
        } else {
            SetupStep::Accept
        })),
{
}

/// Both ends do everything that a connection needs: the client resolves and connects,
/// the server migrates and accepts, and both build an endpoint, post receives and
/// bring the queue pair up.
pub proof fn law_setup_is_complete()
    ensures
        setup(Role::Client).contains(SetupStep::ResolveAddr),
        setup(Role::Client).contains(SetupStep::ResolveRoute),
        setup(Role::Client).contains(SetupStep::Connect),
        setup(Role::Client).contains(SetupStep::Await(CmEvent::ConnectResponse)),
        setup(Role::Client).contains(SetupStep::Establish),
        setup(Role::Server).contains(SetupStep::MigrateChannel),
        setup(Role::Server).contains(SetupStep::Accept),
        setup(Role::Server).contains(SetupStep::Await(CmEvent::Established)),
        forall|role: Role|
            {
                let steps = #[trigger] setup(role);
                &&& steps.contains(SetupStep::BuildEndpoint)
                &&& steps.contains(SetupStep::ToInit)
                &&& steps.contains(SetupStep::PostReceives)
                &&& steps.contains(SetupStep::ToReadyToReceive)
                &&& steps.contains(SetupStep::ToReadyToSend)
            },
{
    let (c, s) = (setup(Role::Client), setup(Role::Server));
    assert(c[0] == SetupStep::ResolveAddr && c[2] == SetupStep::ResolveRoute);
    assert(c[4] == SetupStep::BuildEndpoint && c[5] == SetupStep::ToInit);
    assert(c[6] == SetupStep::PostReceives && c[7] == SetupStep::Connect);
    assert(c[8] == SetupStep::Await(CmEvent::ConnectResponse));
    assert(c[9] == SetupStep::ToReadyToReceive && c[10] == SetupStep::ToReadyToSend);
    assert(c[11] == SetupStep::Establish);
    assert(s[0] == SetupStep::MigrateChannel && s[1] == SetupStep::BuildEndpoint);
    assert(s[2] == SetupStep::ToInit && s[3] == SetupStep::PostReceives);
    assert(s[4] == SetupStep::ToReadyToReceive && s[5] == SetupStep::ToReadyToSend);
    assert(s[6] == SetupStep::Accept && s[7] == SetupStep::Await(CmEvent::Established));
    assert forall|role: Role|
        {
            let steps = #[trigger] setup(role);
            &&& steps.contains(SetupStep::BuildEndpoint)
            &&& steps.contains(SetupStep::ToInit)
            &&& steps.contains(SetupStep::PostReceives)
            &&& steps.contains(SetupStep::ToReadyToReceive)
            &&& steps.contains(SetupStep::ToReadyToSend)
        } by {
        match role {
            Role::Client => {},
            Role::Server => {},
        }
    }
}

/// Only the events that end a connection say that the peer is gone; those of setup
/// and unknown ones do not.
pub proof fn law_setup_events_are_no_teardown(event: CmEvent)
    requires
        event is ConnectRequest || event is AddressResolved || event is RouteResolved
            || event is ConnectResponse || event is Established || event is Other,
    ensures
        !is_teardown(event),
        is_teardown(CmEvent::Disconnected),
        is_teardown(CmEvent::DeviceRemoval),
        is_teardown(CmEvent::ConnectError),
{
}

} // verus!
