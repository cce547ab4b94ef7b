//! The runtime coordinator: the single owner of the connection. It alone reads
//! frames off the socket and writes batches onto it; workers only exchange
//! plain messages with it. The coordinator here is the decision core of that
//! event loop: the unverified shell waits for readiness, performs each
//! returned action — broadcasting to inboxes, or one combined write — and
//! hands the next event back.
//!
//! Lifecycle: after the handshake the coordinator runs; on the disconnect
//! signal it drains, sending nothing further, until every worker has been
//! joined; then it is stopped, and the run ends successfully. Any failed
//! hand-off to a worker aborts the run instead.
//!
//! Send policy: each worker's batch is sent as soon as the worker hands it
//! over — lower latency, at the cost of one write per batch. The one
//! exception is startup: the initial batches are collected by
//! [`InitCollector`] and go out as one combined write, closed by the
//! initialization-complete marker.
use vstd::prelude::*;

use crate::agents::AgentError;
use crate::dispatch::route_spec;
use crate::dispatch::Dispatcher;
use crate::dispatch::Routed;
use crate::dispatch::RoutedV;
use crate::messages::cmsgs_view;
use crate::messages::imsgs_view;
use crate::messages::CoreMessage;
use crate::messages::CoreMessageV;
use crate::messages::InterfaceMessage;
use crate::messages::InterfaceMessageV;

verus! {

/// Where the coordinator stands in its lifecycle.
#[derive(Clone, Copy, PartialEq, Eq, Structural, Debug)]
pub enum Phase {
    /// Steady state: dispatching incoming messages and sending worker output.
    Running,
    /// The disconnect signal was seen: nothing is dispatched or sent any more;
    /// the coordinator only waits for workers to exit.
    Draining,
    /// Every worker has been joined; the run is over.
    Stopped,
}

/// One thing the shell tells the coordinator.
#[derive(PartialEq, Eq, Debug)]
pub enum Event {
    /// A frame was read and decoded while running.
    Incoming(CoreMessage),
    /// A worker handed over its pending outgoing batch.
    WorkerBatch(Vec<InterfaceMessage>),
    /// A message could not be delivered to some worker's inbox, or a worker's
    /// hand-off failed: the worker is gone.
    DeliveryFailed,
    /// A worker thread was joined while draining.
    WorkerJoined,
}

/// Mathematical value of an [`Event`].
pub enum EventV {
    Incoming(CoreMessageV),
    WorkerBatch(Seq<InterfaceMessageV>),
    DeliveryFailed,
    WorkerJoined,
}

impl View for Event {
    type V = EventV;

    open spec fn view(&self) -> EventV {
        match self {
            Event::Incoming(m) => EventV::Incoming(m@),
            Event::WorkerBatch(b) => EventV::WorkerBatch(imsgs_view(b@)),
            Event::DeliveryFailed => EventV::DeliveryFailed,
            Event::WorkerJoined => EventV::WorkerJoined,
        }
    }
}

/// What the shell must do next.
#[derive(PartialEq, Eq, Debug)]
pub enum Action {
    /// Nothing; wait for the next event.
    Wait,
    /// Broadcast these messages, in order, to every worker's inbox.
    Deliver(Vec<CoreMessage>),
    /// Encode this batch as consecutive frames and write them as one write.
    Send(Vec<InterfaceMessage>),
}

/// Mathematical value of an [`Action`].
pub enum ActionV {
    Wait,
    Deliver(Seq<CoreMessageV>),
    Send(Seq<InterfaceMessageV>),
}

impl View for Action {
    type V = ActionV;

    open spec fn view(&self) -> ActionV {
        match self {
            Action::Wait => ActionV::Wait,
            Action::Deliver(v) => ActionV::Deliver(cmsgs_view(v@)),
            Action::Send(b) => ActionV::Send(imsgs_view(b@)),
        }
    }
}

/// A step's outcome: an action for the shell, or an aborted run.
pub enum StepOutcomeV {
    Act(ActionV),
    Abort,
}

/// Mathematical value of a [`Coordinator`].
pub struct CoordinatorV {
    pub phase: Phase,
    pub held_prediction: Option<Seq<u8>>,
    pub worker_count: int,
    pub joined: int,
}

/// The coordinator's decision function: one event in, the next state and one
/// outcome out.
pub open spec fn step_spec(c: CoordinatorV, e: EventV) -> (CoordinatorV, StepOutcomeV) {
    match c.phase {
        Phase::Stopped => (c, StepOutcomeV::Act(ActionV::Wait)),
        Phase::Draining => match e {
            EventV::WorkerJoined => {
                let joined = if c.joined < c.worker_count {
                    c.joined + 1
                } else {
                    c.joined
                };
                if joined >= c.worker_count {
                    (
                        CoordinatorV { phase: Phase::Stopped, joined, ..c },
                        StepOutcomeV::Act(ActionV::Wait),
                    )
                } else {
                    (CoordinatorV { joined, ..c }, StepOutcomeV::Act(ActionV::Wait))
                }
            },
            _ => (c, StepOutcomeV::Act(ActionV::Wait)),
        },
        Phase::Running => match e {
            EventV::Incoming(m) => {
                let (held, routed) = route_spec(c.held_prediction, m);
                match routed {
                    RoutedV::Deliver(v) => (
                        CoordinatorV { held_prediction: held, ..c },
                        StepOutcomeV::Act(ActionV::Deliver(v)),
                    ),
                    RoutedV::Shutdown(v) => (
                        CoordinatorV {
                            phase: if c.joined >= c.worker_count {
                                Phase::Stopped
                            } else {
                                Phase::Draining
                            },
                            held_prediction: held,
                            ..c
                        },
                        StepOutcomeV::Act(ActionV::Deliver(v)),
                    ),
                    RoutedV::Violation => (
                        CoordinatorV { phase: Phase::Stopped, ..c },
                        StepOutcomeV::Abort,
                    ),
                }
            },
            EventV::WorkerBatch(b) => {
                if b.len() == 0 {
                    (c, StepOutcomeV::Act(ActionV::Wait))
                } else {
                    (c, StepOutcomeV::Act(ActionV::Send(b)))
                }
            },
            EventV::DeliveryFailed => (
                CoordinatorV { phase: Phase::Stopped, ..c },
                StepOutcomeV::Abort,
            ),
            EventV::WorkerJoined => (
                CoordinatorV { phase: Phase::Stopped, ..c },
                StepOutcomeV::Abort,
            ),
        },
    }
}

/// The decision core of the event loop.
pub struct Coordinator {
    phase: Phase,
    dispatcher: Dispatcher,
    worker_count: usize,
    joined: usize,
}

impl View for Coordinator {
    type V = CoordinatorV;

    closed spec fn view(&self) -> CoordinatorV {
        CoordinatorV {
            phase: self.phase,
            held_prediction: self.dispatcher@.held_prediction,
            worker_count: self.worker_count as int,
            joined: self.joined as int,
        }
    }
}

impl Coordinator {
    /// A running coordinator over `worker_count` spawned workers.
    pub fn new(worker_count: usize) -> (r: Self)
        ensures
            r@.phase is Running,
            r@.held_prediction is None,
            r@.worker_count == worker_count,
            r@.joined == 0,
    {
        Coordinator { phase: Phase::Running, dispatcher: Dispatcher::new(), worker_count, joined: 0 }
    }

    /// Takes one event and decides, exactly as [`step_spec`] says. An `Err` is
    /// the aborted run: a worker is gone, or the server broke the protocol by
    /// sending a handshake-only message after the handshake, which makes the
    /// worker set unusable the same way.
    pub fn step(&mut self, event: Event) -> (r: Result<Action, AgentError>)
        ensures
            final(self)@ == step_spec(old(self)@, event@).0,
            match r {
                Ok(a) => step_spec(old(self)@, event@).1 == StepOutcomeV::Act(a@),
                Err(e) => step_spec(old(self)@, event@).1 == StepOutcomeV::Abort && e
                    is AgentPanic,
            },
    {
        match self.phase {
            Phase::Stopped => Ok(Action::Wait),
            Phase::Draining => match event {
                Event::WorkerJoined => {
                    if self.joined < self.worker_count {
                        self.joined = self.joined + 1;
                    }
                    if self.joined >= self.worker_count {
                        self.phase = Phase::Stopped;
                    }
                    Ok(Action::Wait)
                },
                _ => Ok(Action::Wait),
            },
            Phase::Running => match event {
                Event::Incoming(m) => {
                    let routed = self.dispatcher.route(m);
                    match routed {
                        Routed::Deliver(v) => Ok(Action::Deliver(v)),
                        Routed::Shutdown(v) => {
                            if self.joined >= self.worker_count {
                                self.phase = Phase::Stopped;
                            } else {
                                self.phase = Phase::Draining;
                            }
                            Ok(Action::Deliver(v))
                        },
                        Routed::Violation => {
                            self.phase = Phase::Stopped;
                            Err(AgentError::AgentPanic)
                        },
                    }
                },
                Event::WorkerBatch(b) => {
                    if b.len() == 0 {
                        Ok(Action::Wait)
                    } else {
                        Ok(Action::Send(b))
                    }
                },
                Event::DeliveryFailed => {
                    self.phase = Phase::Stopped;
                    Err(AgentError::AgentPanic)
                },
                Event::WorkerJoined => {
                    self.phase = Phase::Stopped;
                    Err(AgentError::AgentPanic)
                },
            },
        }
    }

    /// Whether the run is over: every worker joined after a clean disconnect.
    pub fn finished(&self) -> (r: bool)
        ensures
            r == (self@.phase is Stopped),
    {
        match self.phase {
            Phase::Stopped => true,
            _ => false,
        }
    }

    /// Whether the coordinator is draining: the shell stops reading the socket
    /// and only joins workers.
    pub fn draining(&self) -> (r: bool)
        ensures
            r == (self@.phase is Draining),
    {
        match self.phase {
            Phase::Draining => true,
            _ => false,
        }
    }
}

/// The coordinator after a whole sequence of events, outcomes ignored.
pub open spec fn steps_spec(c: CoordinatorV, events: Seq<EventV>) -> CoordinatorV
    decreases events.len(),
{
    if events.len() == 0 {
        c
    } else {
        steps_spec(step_spec(c, events[0]).0, events.drop_first())
    }
}

/// Disconnect shutdown, first half: once the disconnect signal has been seen,
/// no event whatsoever makes the coordinator send again, and it never returns
/// to the running phase.
pub proof fn lemma_no_send_after_disconnect(c: CoordinatorV, e: EventV)
    requires
        c.phase is Draining || c.phase is Stopped,
    ensures
        !(step_spec(c, e).1 matches StepOutcomeV::Act(a) && a is Send),
        step_spec(c, e).0.phase is Draining || step_spec(c, e).0.phase is Stopped,
{
}

/// Disconnect shutdown, second half: a draining coordinator is stopped — and
/// the run returns success — exactly when the last worker has joined; every
/// join moves it one worker closer.
pub proof fn lemma_drain_stops_after_joins(c: CoordinatorV, events: Seq<EventV>)
    requires
        c.phase is Draining,
        0 <= c.joined < c.worker_count,
        events.len() == c.worker_count - c.joined,
        forall|i: int| 0 <= i < events.len() ==> (#[trigger] events[i]) is WorkerJoined,
    ensures
        steps_spec(c, events).phase is Stopped,
    decreases events.len(),
{
    assert(events[0] is WorkerJoined);
    let c1 = step_spec(c, events[0]).0;
    if c1.phase is Stopped {
        lemma_steps_stay_stopped(c1, events.drop_first());
    } else {
        lemma_drain_stops_after_joins(c1, events.drop_first());
    }
}

/// A stopped coordinator stays stopped.
pub proof fn lemma_steps_stay_stopped(c: CoordinatorV, events: Seq<EventV>)
    requires
        c.phase is Stopped,
    ensures
        steps_spec(c, events).phase is Stopped,
    decreases events.len(),
{
    if events.len() > 0 {
        lemma_steps_stay_stopped(step_spec(c, events[0]).0, events.drop_first());
    }
}

/// Collects each worker's initial outgoing batch during the handshake; once
/// every worker has reported, the combined batch, closed by the
/// initialization-complete marker, goes out as one write.
pub struct InitCollector {
    worker_count: usize,
    collected: usize,
    buffer: Vec<InterfaceMessage>,
}

/// Mathematical value of an [`InitCollector`].
pub struct InitCollectorV {
    pub worker_count: int,
    pub collected: int,
    pub buffer: Seq<InterfaceMessageV>,
}

impl View for InitCollector {
    type V = InitCollectorV;

    closed spec fn view(&self) -> InitCollectorV {
        InitCollectorV {
            worker_count: self.worker_count as int,
            collected: self.collected as int,
            buffer: imsgs_view(self.buffer@),
        }
    }
}

impl InitCollector {
    /// Awaits the initial batches of `worker_count` workers.
    pub fn new(worker_count: usize) -> (r: Self)
        ensures
            r@.worker_count == worker_count,
            r@.collected == 0,
            r@.buffer == Seq::<InterfaceMessageV>::empty(),
    {
        let r = InitCollector { worker_count, collected: 0, buffer: Vec::new() };
        proof {
            assert(r@.buffer =~= Seq::<InterfaceMessageV>::empty());
        }
        r
    }

    /// Takes one worker's initial batch; answers whether all have reported.
    pub fn add_batch(&mut self, batch: Vec<InterfaceMessage>) -> (done: bool)
        requires
            old(self)@.collected < old(self)@.worker_count,
        ensures
            final(self)@.worker_count == old(self)@.worker_count,
            final(self)@.collected == old(self)@.collected + 1,
            final(self)@.buffer == old(self)@.buffer + imsgs_view(batch@),
            done == (final(self)@.collected == final(self)@.worker_count),
    {
        let ghost oldbuf = self@.buffer;
        let ghost batchv = imsgs_view(batch@);
        let mut incoming = batch;
        self.buffer.append(&mut incoming);
        self.collected = self.collected + 1;
        proof {
            assert(self@.buffer =~= oldbuf + batchv);
        }
        self.collected == self.worker_count
    }

    /// Hands out the combined initial output of every worker, in arrival
    /// order, closed by the initialization-complete marker.
    pub fn finish(self) -> (r: Vec<InterfaceMessage>)
        requires
            self@.collected == self@.worker_count,
        ensures
            imsgs_view(r@) == self@.buffer.push(InterfaceMessageV::InitComplete),
    {
        let ghost bufv = self@.buffer;
        let mut out = self.buffer;
        out.push(InterfaceMessage::InitComplete);
        proof {
            assert(imsgs_view(out@) =~= bufv.push(InterfaceMessageV::InitComplete));
        }
        out
    }
}

} // verus!