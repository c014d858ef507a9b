//! The worker node: its session with the control plane, and the telemetry it
//! computes.

use vstd::prelude::*;

use crate::model::cooperative::ExponentialBackoff;
use crate::model::node::{
    Heartbeat, HeartbeatView, NodeId, NodeMessage, NodeMessageView, NodeStatus, Timestamp,
};
use crate::model::resources::ResourceSpec;

verus! {

/// The first retry delay, in nanoseconds.
pub const INITIAL_BACKOFF: u128 = 500_000_000;

/// The longest retry delay, in nanoseconds.
pub const MAX_BACKOFF: u128 = 10_000_000_000;

/// Transport protocols.
#[derive(Debug, Clone, Copy, PartialEq, Eq, Structural)]
pub enum Protocol {
    /// Length-prefixed binary frames over TCP.
    Tcp,
    /// gRPC.
    Grpc,
}

/// What the agent is waiting for.
#[derive(Debug, Clone, Copy, PartialEq, Eq, Structural)]
pub enum Phase {
    /// A connection attempt.
    Connecting,
    /// The delivery of the registration.
    Registering,
    /// Something to do within the session.
    Serving,
    /// The delivery of a message.
    Forwarding,
    /// The delivery of the deregistration.
    Leaving,
    /// The end of a pause between connection attempts.
    Waiting,
    /// Nothing more.
    Stopped,
}

/// What happens to the agent.
#[derive(Debug)]
pub enum Event {
    /// The connection was established.
    Connected,
    /// The connection could not be established.
    ConnectFailed {
        /// The current retry delay, scaled by the growth factor, in nanoseconds.
        scaled: u128,
    },
    /// The message was delivered.
    Delivered,
    /// The message could not be delivered.
    Undelivered,
    /// A message is to be forwarded to the control plane.
    Outgoing(NodeMessage),
    /// There will be no more messages to forward.
    Drained,
    /// The pause is over.
    Rested,
    /// The node is asked to shut down.
    Shutdown,
}

/// What the agent is to do.
#[derive(Debug)]
pub enum Action {
    /// Connect to the control plane.
    Connect,
    /// Send a message and report the delivery.
    Send(NodeMessage),
    /// Wait for a message to forward or a shutdown.
    Serve,
    /// End the session and connect anew.
    Reconnect,
    /// Pause before the next connection attempt.
    Sleep {
        /// How long, in nanoseconds.
        nanos: u128,
    },
    /// End the session, if there is one, and stop.
    Exit,
}

/// An event, as the specification sees it.
#[verifier::ext_equal]
pub enum EventView {
    Connected,
    ConnectFailed { scaled: u128 },
    Delivered,
    Undelivered,
    Outgoing(NodeMessageView),
    Drained,
    Rested,
    Shutdown,
}

/// An action, as the specification sees it.
#[verifier::ext_equal]
pub enum ActionView {
    Connect,
    Send(NodeMessageView),
    Serve,
    Reconnect,
    Sleep { nanos: u128 },
    Exit,
}

impl View for Event {
    type V = EventView;

    open spec fn view(&self) -> EventView {
        match *self {
            Event::Connected => EventView::Connected,
            Event::ConnectFailed { scaled } => EventView::ConnectFailed { scaled },
            Event::Delivered => EventView::Delivered,
            Event::Undelivered => EventView::Undelivered,
            Event::Outgoing(m) => EventView::Outgoing(m@),
            Event::Drained => EventView::Drained,
            Event::Rested => EventView::Rested,
            Event::Shutdown => EventView::Shutdown,
        }
    }
}

impl View for Action {
    type V = ActionView;

    open spec fn view(&self) -> ActionView {
        match *self {
            Action::Connect => ActionView::Connect,
            Action::Send(m) => ActionView::Send(m@),
            Action::Serve => ActionView::Serve,
            Action::Reconnect => ActionView::Reconnect,
            Action::Sleep { nanos } => ActionView::Sleep { nanos },
            Action::Exit => ActionView::Exit,
        }
    }
}

/// The agent, as the specification sees it.
#[verifier::ext_equal]
pub struct AgentView {
    pub node_id: Seq<char>,
    pub addr: Seq<char>,
    pub resources: ResourceSpec,
    pub protocol: Protocol,
    pub phase: Phase,
    pub backoff: ExponentialBackoff,
    pub messages_sent: u64,
}

/// The events that can happen in a phase.
pub open spec fn expects(phase: Phase, event: EventView) -> bool {
    match phase {
        Phase::Connecting => event is Connected || event is ConnectFailed || event is Shutdown,
        Phase::Registering | Phase::Forwarding | Phase::Leaving => event is Delivered
            || event is Undelivered,
        Phase::Serving => event is Outgoing || event is Drained || event is Shutdown,
        Phase::Waiting => event is Rested || event is Shutdown,
        Phase::Stopped => false,
    }
}

/// One more message sent.
pub open spec fn counted(n: u64) -> u64 {
    if n == u64::MAX {
        0
    } else {
        (n + 1) as u64
    }
}

/// The agent after an event, and what it does about it.
pub open spec fn react(a: AgentView, event: EventView) -> (AgentView, ActionView) {
    match (a.phase, event) {
        // A connection starts with a registration.
        (Phase::Connecting, EventView::Connected) => (
            AgentView {
                phase: Phase::Registering,
                backoff: ExponentialBackoff { current: 500_000_000, ..a.backoff },
                ..a
            },
            ActionView::Send(
                NodeMessageView::Register {
                    id: a.node_id,
                    addr: a.addr,
                    resources: a.resources,
                },
            ),
        ),
        // A failed attempt is repeated after a pause.
        (Phase::Connecting, EventView::ConnectFailed { scaled }) => (
            AgentView {
                phase: Phase::Waiting,
                backoff: ExponentialBackoff {
                    current: if scaled < a.backoff.max {
                        scaled
                    } else {
                        a.backoff.max
                    },
                    ..a.backoff
                },
                ..a
            },
            ActionView::Sleep { nanos: a.backoff.current },
        ),
        (Phase::Waiting, EventView::Rested) => (
            AgentView { phase: Phase::Connecting, ..a },
            ActionView::Connect,
        ),
        // A session starts once the registration has been delivered.
        (Phase::Registering, EventView::Delivered) => (
            AgentView {
                phase: Phase::Serving,
                messages_sent: counted(a.messages_sent),
                ..a
            },
            ActionView::Serve,
        ),
        (Phase::Registering, EventView::Undelivered) => (
            AgentView { phase: Phase::Connecting, ..a },
            ActionView::Connect,
        ),
        // Messages are forwarded one at a time.
        (Phase::Serving, EventView::Outgoing(m)) => (
            AgentView { phase: Phase::Forwarding, ..a },
            ActionView::Send(m),
        ),
        (Phase::Forwarding, EventView::Delivered) => (
            AgentView {
                phase: Phase::Serving,
                messages_sent: counted(a.messages_sent),
                ..a
            },
            ActionView::Serve,
        ),
        // A session that breaks is replaced by a new one.
        (Phase::Forwarding, EventView::Undelivered) => (
            AgentView { phase: Phase::Connecting, ..a },
            ActionView::Reconnect,
        ),
        (Phase::Serving, EventView::Drained) => (
            AgentView { phase: Phase::Connecting, ..a },
            ActionView::Reconnect,
        ),
        // A session ends with a deregistration, whether it arrives or not.
        (Phase::Serving, EventView::Shutdown) => (
            AgentView { phase: Phase::Leaving, ..a },
            ActionView::Send(NodeMessageView::Deregister { id: a.node_id }),
        ),
        (Phase::Leaving, EventView::Delivered) => (
            AgentView {
                phase: Phase::Stopped,
                messages_sent: counted(a.messages_sent),
                ..a
            },
            ActionView::Exit,
        ),
        // Over gRPC the attempt is counted.
        (Phase::Leaving, EventView::Undelivered) => (
            AgentView {
                phase: Phase::Stopped,
                messages_sent: if a.protocol == Protocol::Grpc {
                    counted(a.messages_sent)
                } else {
                    a.messages_sent
                },
                ..a
            },
            ActionView::Exit,
        ),
        // A shutdown outside a session takes effect at once.
        _ => (AgentView { phase: Phase::Stopped, ..a }, ActionView::Exit),
    }
}

/// An agent that is about to connect for the first time.
pub open spec fn fresh(a: AgentView) -> bool {
    a.phase == Phase::Connecting && a.messages_sent == 0 && a.backoff == (ExponentialBackoff {
        current: 500_000_000,
        max: 10_000_000_000,
    })
}

/// The agent after a run of events.
pub open spec fn after_run(a: AgentView, events: Seq<EventView>) -> AgentView
    decreases events.len(),
{
    if events.len() == 0 {
        a
    } else {
        react(after_run(a, events.drop_last()), events.last()).0
    }
}

/// Every event of a run is one that can happen where it does.
pub open spec fn possible(a: AgentView, events: Seq<EventView>) -> bool
    decreases events.len(),
{
    events.len() > 0 ==> possible(a, events.drop_last()) && expects(
        after_run(a, events.drop_last()).phase,
        events.last(),
    )
}

/// The events since the last connection was established.
pub open spec fn session(events: Seq<EventView>) -> Seq<EventView>
    decreases events.len(),
{
    if events.len() == 0 || events.last() is Connected {
        Seq::empty()
    } else {
        session(events.drop_last()).push(events.last())
    }
}

/// An agent stops only because it is asked to shut down.
pub proof fn stops_only_on_shutdown(a: AgentView, events: Seq<EventView>)
    requires
        fresh(a),
        possible(a, events),
        after_run(a, events).phase == Phase::Stopped || after_run(a, events).phase
            == Phase::Leaving,
    ensures
        events.contains(EventView::Shutdown),
    decreases events.len(),
{
    let before = events.drop_last();
    let n = events.len() - 1;
    assert(events[n] == events.last());
    if events.last() is Shutdown {
        assert(events[n] == EventView::Shutdown);
    } else {
        stops_only_on_shutdown(a, before);
        let i = choose|i: int| 0 <= i < before.len() && before[i] == EventView::Shutdown;
        assert(events[i] == EventView::Shutdown);
    }
}

/// Within a session nothing is forwarded, and no deregistration sent, before the
/// registration has been delivered over the same connection.
pub proof fn sessions_start_with_registration(a: AgentView, events: Seq<EventView>)
    requires
        fresh(a),
        possible(a, events),
    ensures
        after_run(a, events).phase == Phase::Registering ==> session(events) == Seq::<
            EventView,
        >::empty(),
        (after_run(a, events).phase == Phase::Serving || after_run(a, events).phase
            == Phase::Forwarding || after_run(a, events).phase == Phase::Leaving) ==> session(
            events,
        ).len() > 0 && session(events)[0] == EventView::Delivered,
    decreases events.len(),
{
    if events.len() > 0 {
        sessions_start_with_registration(a, events.drop_last());
    }
}

/// No pause between connection attempts is longer than the longest retry delay,
/// and the first one after a success is the shortest.
pub proof fn pauses_are_bounded(a: AgentView, events: Seq<EventView>)
    requires
        fresh(a),
        possible(a, events),
    ensures
        after_run(a, events).backoff.max == 10_000_000_000,
        after_run(a, events).backoff.current <= 10_000_000_000,
        events.len() > 0 && events.last() is Connected ==> after_run(a, events).backoff.current
            == 500_000_000,
        events.len() > 0 ==> (react(after_run(a, events.drop_last()), events.last()).1 matches
            ActionView::Sleep { nanos } ==> nanos <= 10_000_000_000),
    decreases events.len(),
{
    if events.len() > 0 {
        pauses_are_bounded(a, events.drop_last());
    }
}

/// A worker node's side of the protocol.
#[derive(Debug)]
pub struct Agent {
    /// ID of the node.
    pub node_id: NodeId,
    /// Address of the node's services.
    pub addr: String,
    /// Advertised resources.
    pub resources: ResourceSpec,
    /// Transport in use.
    pub protocol: Protocol,
    /// What the agent is waiting for.
    pub phase: Phase,
    /// Retry delays.
    pub backoff: ExponentialBackoff,
    /// How many messages were sent.
    pub messages_sent: u64,
}

impl View for Agent {
    type V = AgentView;

    open spec fn view(&self) -> AgentView {
        AgentView {
            node_id: self.node_id@,
            addr: self.addr@,
            resources: self.resources,
            protocol: self.protocol,
            phase: self.phase,
            backoff: self.backoff,
            messages_sent: self.messages_sent,
        }
    }
}

impl Agent {
    /// An agent that is about to connect.
    pub fn new(
        node_id: NodeId,
        addr: String,
        resources: ResourceSpec,
        protocol: Protocol,
    ) -> (a: Self)
        ensures
            fresh(a@),
            a.node_id == node_id,
            a.addr == addr,
            a.resources == resources,
            a.protocol == protocol,
    {
        Agent {
            node_id,
            addr,
            resources,
            protocol,
            phase: Phase::Connecting,
            backoff: ExponentialBackoff::new(INITIAL_BACKOFF, MAX_BACKOFF),
            messages_sent: 0,
        }
    }

    /// Go on to a phase, after one more message sent.
    fn sent(&mut self, phase: Phase)
        ensures
            final(self)@ == (AgentView {
                phase,
                messages_sent: counted(old(self).messages_sent),
                ..old(self)@
            }),
    {
        self.messages_sent = if self.messages_sent == u64::MAX {
            0
        } else {
            self.messages_sent + 1
        };
        self.phase = phase;
    }

    /// Take in an event and decide what to do about it.
    pub fn handle(&mut self, event: Event) -> (action: Action)
        requires
            expects(old(self).phase, event@),
        ensures
            final(self)@ == react(old(self)@, event@).0,
            action@ == react(old(self)@, event@).1,
    {
        match (self.phase, event) {
            (Phase::Connecting, Event::Connected) => {
                self.backoff.reset(INITIAL_BACKOFF);
                self.phase = Phase::Registering;
                Action::Send(
                    NodeMessage::Register {
                        id: self.node_id.clone(),
                        addr: self.addr.clone(),
                        resources: self.resources,
                    },
                )
            },
            (Phase::Connecting, Event::ConnectFailed { scaled }) => {
                let nanos: u128 = self.backoff.next_backoff(scaled);
                self.phase = Phase::Waiting;
                Action::Sleep { nanos }
            },
            (Phase::Waiting, Event::Rested) => {
                self.phase = Phase::Connecting;
                Action::Connect
            },
            (Phase::Registering, Event::Delivered) => {
                self.sent(Phase::Serving);
                Action::Serve
            },
            (Phase::Registering, Event::Undelivered) => {
                self.phase = Phase::Connecting;
                Action::Connect
            },
            (Phase::Serving, Event::Outgoing(message)) => {
                self.phase = Phase::Forwarding;
                Action::Send(message)
            },
            (Phase::Forwarding, Event::Delivered) => {
                self.sent(Phase::Serving);
                Action::Serve
            },
            (Phase::Forwarding, Event::Undelivered) => {
                self.phase = Phase::Connecting;
                Action::Reconnect
            },
            (Phase::Serving, Event::Drained) => {
                self.phase = Phase::Connecting;
                Action::Reconnect
            },
            (Phase::Serving, Event::Shutdown) => {
                self.phase = Phase::Leaving;
                Action::Send(NodeMessage::Deregister { id: self.node_id.clone() })
            },
            (Phase::Leaving, Event::Delivered) => {
                self.sent(Phase::Stopped);
                Action::Exit
            },
            (Phase::Leaving, Event::Undelivered) => {
                if self.protocol == Protocol::Grpc {
                    self.sent(Phase::Stopped);
                } else {
                    self.phase = Phase::Stopped;
                }
                Action::Exit
            },
            _ => {
                self.phase = Phase::Stopped;
                Action::Exit
            },
        }
    }

    /// The heartbeat of a ready node.
    pub fn heartbeat(&self, now: Timestamp) -> (hb: Heartbeat)
        ensures
            hb@ == (HeartbeatView {
                node_id: self.node_id@,
                status: NodeStatus::Ready,
                resources: self.resources,
                timestamp: now,
            }),
    {
        Heartbeat {
            node_id: self.node_id.clone(),
            status: NodeStatus::Ready,
            resources: self.resources,
            timestamp: now,
        }
    }
}

// ---------------------------------------------------------------------------
// Telemetry
// ---------------------------------------------------------------------------

/// The number of stages of a calculation.
pub const STAGES: usize = 5;

/// The number of terms of a stage.
pub const TERMS: usize = 1_000_000;

/// The sum of the numbers below `n`.
pub open spec fn triangle(n: int) -> int {
    n * (n - 1) / 2
}

/// The result after a number of stages: stage `s` adds `s * i * input` for every
/// `i` below the number of terms, and the sum wraps around.
pub open spec fn calculated(stages: int, input: int) -> int {
    (triangle(stages) * triangle(1_000_000) * input) % 0x1_0000_0000_0000_0000
}

/// A calculation in stages, so that other tasks get their turn between them.
#[derive(Debug, Clone, Copy, PartialEq, Eq, Structural)]
pub struct Calculation {
    /// The input.
    pub input: usize,
    /// The stages that have been done.
    pub stage: usize,
    /// The sum so far.
    pub sum: u64,
}

proof fn next_term(stage: int, i: int, input: int, sum: int, before: int)
    requires
        0 <= i,
        0 <= stage,
        0 <= input,
        sum == (before + stage * triangle(i) * input) % 0x1_0000_0000_0000_0000,
    ensures
        (sum + stage * i * input) % 0x1_0000_0000_0000_0000 == (before + stage * triangle(i + 1)
            * input) % 0x1_0000_0000_0000_0000,
{
    let m = 0x1_0000_0000_0000_0000int;
    let x = before + stage * triangle(i) * input;
    let y = stage * i * input;
    vstd::arithmetic::div_mod::lemma_add_mod_noop(x, y, m);
    vstd::arithmetic::div_mod::lemma_add_mod_noop(x % m, y, m);
    vstd::arithmetic::div_mod::lemma_mod_twice(x, m);
    assert(triangle(i + 1) == triangle(i) + i) by (nonlinear_arith)
        requires
            0 <= i,
            triangle(i + 1) == (i + 1) * i / 2,
            triangle(i) == i * (i - 1) / 2,
    {
        assert((i + 1) * i == i * (i - 1) + 2 * i);
    }
    let t = triangle(i);
    assert(stage * (t + i) * input == stage * t * input + stage * i * input) by (nonlinear_arith);
}

impl Calculation {
    /// The calculation stands where its stages bring it.
    pub open spec fn wf(self) -> bool {
        &&& self.stage <= 5
        &&& self.sum == calculated(self.stage as int, self.input as int)
    }

    /// Start a calculation.
    pub fn new(input: usize) -> (c: Self)
        ensures
            c.wf(),
            c.input == input,
            c.stage == 0,
    {
        proof {
            assert(triangle(0) * triangle(1_000_000) * input == 0) by (nonlinear_arith)
                requires
                    triangle(0) == 0,
            ;
        }
        Calculation { input, stage: 0, sum: 0 }
    }

    /// Whether all stages are done.
    pub fn is_done(&self) -> (b: bool)
        ensures
            b == (self.stage >= 5),
    {
        self.stage >= STAGES
    }

    /// Do the next stage. The products must fit a machine word.
    pub fn advance(&mut self)
        requires
            old(self).wf(),
            old(self).stage < 5,
            4 * 999_999 * old(self).input <= usize::MAX,
        ensures
            final(self).wf(),
            final(self).input == old(self).input,
            final(self).stage == old(self).stage + 1,
            final(self).sum == calculated(old(self).stage + 1, old(self).input as int),
    {
        let input: usize = self.input;
        let stage: usize = self.stage;
        let before: u64 = self.sum;
        let mut sum: u64 = before;
        let mut i: usize = 0;
        proof {
            let m = 0x1_0000_0000_0000_0000int;
            assert(stage * triangle(0) * input == 0) by (nonlinear_arith)
                requires
                    triangle(0) == 0,
            ;
            vstd::arithmetic::div_mod::lemma_small_mod(before as nat, m as nat);
        }
        while i < TERMS
            invariant
                i <= 1_000_000,
                stage < 5,
                4 * 999_999 * input <= usize::MAX,
                sum == (before + stage * triangle(i as int) * input) % 0x1_0000_0000_0000_0000,
            decreases 1_000_000 - i,
        {
            assert(0 <= stage * i <= 4 * 999_999 && 0 <= stage * i * input <= 4 * 999_999 * input)
                by (nonlinear_arith)
                requires
                    0 <= stage <= 4,
                    0 <= i <= 999_999,
                    0 <= input,
            ;
            let term: u64 = (stage * i * input) as u64;
            proof {
                next_term(stage as int, i as int, input as int, sum as int, before as int);
            }
            sum = sum.wrapping_add(term);
            i += 1;
        }
        proof {
            let m = 0x1_0000_0000_0000_0000int;
            let all = triangle(1_000_000);
            let x = triangle(stage as int) * all * input;
            let y = stage * all * input;
            vstd::arithmetic::div_mod::lemma_add_mod_noop(x, y, m);
            vstd::arithmetic::div_mod::lemma_add_mod_noop(x % m, y, m);
            vstd::arithmetic::div_mod::lemma_mod_twice(x, m);
            assert(triangle(stage + 1) == triangle(stage as int) + stage) by (nonlinear_arith)
                requires
                    0 <= stage,
                    triangle(stage + 1) == (stage + 1) * stage / 2,
                    triangle(stage as int) == stage * (stage - 1) / 2,
            {
                assert((stage + 1) * stage == stage * (stage - 1) + 2 * stage);
            }
            let t = triangle(stage as int);
            assert((t + stage) * all * input == t * all * input + stage * all * input)
                by (nonlinear_arith);
        }
        self.stage = stage + 1;
        self.sum = sum;
    }
}

/// What a whole calculation amounts to.
pub proof fn calculation_result(c: Calculation)
    requires
        c.wf(),
        c.stage == 5,
    ensures
        c.sum == (4_999_995_000_000 * c.input) % 0x1_0000_0000_0000_0000,
{
    assert(triangle(5) == 10);
    assert(triangle(1_000_000) == 499_999_500_000);
}

/// Who the agent is stays, whatever happens: its ID, its address, its resources, its
/// transport and its longest delay.
pub proof fn agents_keep_their_identity(a: AgentView, event: EventView)
    ensures
        ({
            let b = react(a, event).0;
            &&& b.node_id == a.node_id
            &&& b.addr == a.addr
            &&& b.resources == a.resources
            &&& b.protocol == a.protocol
            &&& b.backoff.max == a.backoff.max
        }),
{
}

/// Once connected, the agent registers: it sends its own ID, address and resources, and
/// only when that has been delivered is there a session.
pub proof fn connections_begin_with_the_own_registration(a: AgentView)
    requires
        a.phase == Phase::Connecting,
    ensures
        ({
            let (b, action) = react(a, EventView::Connected);
            &&& action is Send
            &&& action->Send_0 is Register
            &&& action->Send_0->Register_id == a.node_id
            &&& action->Send_0->addr == a.addr
            &&& action->Send_0->resources == a.resources
            &&& b.phase == Phase::Registering
            &&& b.messages_sent == a.messages_sent
            &&& b.backoff.current == 500_000_000
            &&& react(b, EventView::Delivered).0.phase == Phase::Serving
            &&& react(b, EventView::Delivered).1 is Serve
            &&& react(b, EventView::Undelivered).0.phase == Phase::Connecting
            &&& react(b, EventView::Undelivered).1 is Connect
        }),
{
}

/// After a failed attempt the agent pauses for the current delay, and then tries again; the
/// delay after that is the scaled one, or the longest where that is shorter.
pub proof fn failed_attempts_are_repeated(a: AgentView, scaled: u128)
    requires
        a.phase == Phase::Connecting,
    ensures
        ({
            let (b, action) = react(a, EventView::ConnectFailed { scaled });
            &&& action == (ActionView::Sleep { nanos: a.backoff.current })
            &&& b.phase == Phase::Waiting
            &&& b.messages_sent == a.messages_sent
            &&& scaled <= a.backoff.max ==> b.backoff.current == scaled
            &&& scaled > a.backoff.max ==> b.backoff.current == a.backoff.max
            &&& react(b, EventView::Rested).0.phase == Phase::Connecting
            &&& react(b, EventView::Rested).1 is Connect
            &&& react(b, EventView::Rested).0.backoff == b.backoff
        }),
{
}

/// In a session a message is forwarded as it is, and counts once it has been delivered;
/// then the session goes on. If it could not be delivered, or there is nothing more to
/// forward, the agent connects anew.
pub proof fn messages_are_forwarded_as_they_are(a: AgentView, m: NodeMessageView)
    requires
        a.phase == Phase::Serving,
        a.messages_sent < u64::MAX,
    ensures
        ({
            let (b, action) = react(a, EventView::Outgoing(m));
            &&& action == ActionView::Send(m)
            &&& b.phase == Phase::Forwarding
            &&& b.messages_sent == a.messages_sent
            &&& react(b, EventView::Delivered).0.messages_sent == a.messages_sent + 1
            &&& react(b, EventView::Delivered).0.phase == Phase::Serving
            &&& react(b, EventView::Delivered).1 is Serve
            &&& react(b, EventView::Undelivered).0.messages_sent == a.messages_sent
            &&& react(b, EventView::Undelivered).0.phase == Phase::Connecting
            &&& react(b, EventView::Undelivered).1 is Reconnect
            &&& react(a, EventView::Drained).0.phase == Phase::Connecting
            &&& react(a, EventView::Drained).1 is Reconnect
        }),
{
}

/// Asked to shut down in a session, the agent deregisters under its own ID and then stops,
/// whether that arrived or not; outside a session it stops at once.
pub proof fn shutdowns_deregister_first(a: AgentView, arrived: bool)
    ensures
        a.phase == Phase::Serving ==> {
            let (b, action) = react(a, EventView::Shutdown);
            let end = if arrived {
                EventView::Delivered
            } else {
                EventView::Undelivered
            };
            &&& action is Send
            &&& action->Send_0 == (NodeMessageView::Deregister { id: a.node_id })
            &&& b.phase == Phase::Leaving
            &&& react(b, end).0.phase == Phase::Stopped
            &&& react(b, end).1 is Exit
        },
        a.phase == Phase::Connecting || a.phase == Phase::Waiting ==> react(
            a,
            EventView::Shutdown,
        ).0.phase == Phase::Stopped && react(a, EventView::Shutdown).1 is Exit,
{
}

/// How many deliveries a run reports.
pub open spec fn deliveries(events: Seq<EventView>) -> nat
    decreases events.len(),
{
    if events.len() == 0 {
        0
    } else {
        deliveries(events.drop_last()) + if events.last() is Delivered {
            1nat
        } else {
            0
        }
    }
}

/// Over TCP the agent has sent as many messages as were reported delivered.
pub proof fn deliveries_are_counted(a: AgentView, events: Seq<EventView>)
    requires
        fresh(a),
        a.protocol == Protocol::Tcp,
        possible(a, events),
        deliveries(events) < u64::MAX,
    ensures
        after_run(a, events).messages_sent == deliveries(events),
        after_run(a, events).protocol == Protocol::Tcp,
    decreases events.len(),
{
    if events.len() > 0 {
        deliveries_are_counted(a, events.drop_last());
    }
}

/// Each stage adds its number times every term times the input, and the sum wraps around;
/// nothing has been added before the first.
pub proof fn stages_add_up(stage: int, input: int)
    requires
        0 <= stage,
        0 <= input,
    ensures
        calculated(0, input) == 0,
        calculated(stage + 1, input) == (calculated(stage, input) + stage * 499_999_500_000 * input)
            % 0x1_0000_0000_0000_0000,
{
    let m = 0x1_0000_0000_0000_0000int;
    let all = triangle(1_000_000);
    assert(all == 499_999_500_000);
    let t = triangle(stage);
    assert(triangle(stage + 1) == t + stage) by (nonlinear_arith)
        requires
            0 <= stage,
            triangle(stage + 1) == (stage + 1) * stage / 2,
            t == stage * (stage - 1) / 2,
    {
        assert((stage + 1) * stage == stage * (stage - 1) + 2 * stage);
    }
    let x = t * all * input;
    let y = stage * all * input;
    assert((t + stage) * all * input == t * all * input + stage * all * input) by (nonlinear_arith);
    vstd::arithmetic::div_mod::lemma_add_mod_noop(x, y, m);
    vstd::arithmetic::div_mod::lemma_add_mod_noop(x % m, y, m);
    vstd::arithmetic::div_mod::lemma_mod_twice(x, m);
    assert(triangle(0) * all * input == 0) by (nonlinear_arith)
        requires
            triangle(0) == 0,
    ;
}

/// Nothing that can happen to an agent takes it by surprise: a connection attempt succeeds
/// or fails, a message is delivered or not, a session brings messages or ends, a pause ends,
/// and a shutdown may be asked for whenever the agent is not waiting for a delivery.
pub proof fn whatever_can_happen_is_expected(scaled: u128, m: NodeMessageView)
    ensures
        expects(Phase::Connecting, EventView::Connected),
        expects(Phase::Connecting, EventView::ConnectFailed { scaled }),
        expects(Phase::Connecting, EventView::Shutdown),
        expects(Phase::Registering, EventView::Delivered),
        expects(Phase::Registering, EventView::Undelivered),
        expects(Phase::Forwarding, EventView::Delivered),
        expects(Phase::Forwarding, EventView::Undelivered),
        expects(Phase::Leaving, EventView::Delivered),
        expects(Phase::Leaving, EventView::Undelivered),
        expects(Phase::Serving, EventView::Outgoing(m)),
        expects(Phase::Serving, EventView::Drained),
        expects(Phase::Serving, EventView::Shutdown),
        expects(Phase::Waiting, EventView::Rested),
        expects(Phase::Waiting, EventView::Shutdown),
{
}

/// What an agent sends of itself is its own: a new agent starts with what it was given, and
/// its heartbeats carry its ID and its resources, ready, at the time they are made.
pub proof fn agents_speak_for_themselves(
    id: NodeId,
    addr: String,
    resources: ResourceSpec,
    protocol: Protocol,
    a: Agent,
    now: Timestamp,
    hb: Heartbeat,
)
    requires
        call_ensures(Agent::new, (id, addr, resources, protocol), a),
        call_ensures(Agent::heartbeat, (&a, now), hb),
    ensures
        a.phase == Phase::Connecting,
        a.messages_sent == 0,
        a.addr@ == addr@,
        a.protocol == protocol,
        a.backoff.current == 500_000_000,
        a.backoff.max == 10_000_000_000,
        hb.node_id@ == id@,
        hb.resources == resources,
        hb.status == NodeStatus::Ready,
        hb.timestamp == now,
{
    assert(hb@.status == hb.status);
}

/// An agent that gets its connection registers with its own ID, address and resources; one
/// that is asked to shut down in a session deregisters its own ID; and in a session it
/// forwards what it is given.
pub proof fn agents_act_on_what_happens(m: NodeMessage)
    ensures
        forall|a: &mut Agent, action: Action| #[trigger]
            call_ensures(Agent::handle, (a, Event::Connected), action) && a.phase
                == Phase::Connecting ==> {
                &&& action is Send
                &&& action->Send_0@ == (NodeMessageView::Register {
                    id: a.node_id@,
                    addr: a.addr@,
                    resources: a.resources,
                })
                &&& final(a).phase == Phase::Registering
            },
        forall|a: &mut Agent, action: Action| #[trigger]
            call_ensures(Agent::handle, (a, Event::Shutdown), action) && a.phase == Phase::Serving
                ==> action is Send && action->Send_0@ == (NodeMessageView::Deregister {
                id: a.node_id@,
            }),
        forall|a: &mut Agent, action: Action| #[trigger]
            call_ensures(Agent::handle, (a, Event::Outgoing(m)), action) && a.phase
                == Phase::Serving ==> action is Send && action->Send_0@ == m@,
{
    assert forall|a: &mut Agent, action: Action| #[trigger]
        call_ensures(Agent::handle, (a, Event::Connected), action) && a.phase
            == Phase::Connecting implies {
        &&& action is Send
        &&& action->Send_0@ == (NodeMessageView::Register {
            id: a.node_id@,
            addr: a.addr@,
            resources: a.resources,
        })
        &&& final(a).phase == Phase::Registering
    } by {
        assert(final(a)@.phase == Phase::Registering);
        assert(action@ is Send);
    }
    assert forall|a: &mut Agent, action: Action| #[trigger]
        call_ensures(Agent::handle, (a, Event::Shutdown), action) && a.phase
            == Phase::Serving implies action is Send && action->Send_0@ == (
    NodeMessageView::Deregister { id: a.node_id@ }) by {
        assert(action@ is Send);
    }
    assert forall|a: &mut Agent, action: Action| #[trigger]
        call_ensures(Agent::handle, (a, Event::Outgoing(m)), action) && a.phase
            == Phase::Serving implies action is Send && action->Send_0@ == m@ by {
        assert(action@ is Send);
    }
}

} // verus!
