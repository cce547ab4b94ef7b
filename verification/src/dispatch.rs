//! The incoming dispatcher: routes each decoded server message to the workers
//! by kind. Everything broadcastable is delivered to every worker in arrival
//! order, with one exception: a ball prediction is held until the next
//! per-tick state message and delivered immediately before it, so a worker
//! that reacts to both sees the prediction of the same simulation frame. A
//! newer prediction supersedes a held one. A handshake-only message after the
//! handshake is a protocol violation; the disconnect signal is delivered and
//! ends dispatching.
use vstd::prelude::*;

use crate::messages::cmsgs_view;
use crate::messages::is_handshake_kind;
use crate::messages::BallPrediction;
use crate::messages::CoreMessage;
use crate::messages::CoreMessageV;
use crate::messages::GamePacket;
use vstd::pervasive::VecAdditionalExecFns;

verus! {

/// Routing state: at most one held ball prediction.
pub struct Dispatcher {
    held_prediction: Option<BallPrediction>,
}

/// Mathematical value of a [`Dispatcher`].
pub struct DispatcherV {
    pub held_prediction: Option<Seq<u8>>,
}

impl View for Dispatcher {
    type V = DispatcherV;

    closed spec fn view(&self) -> DispatcherV {
        DispatcherV {
            held_prediction: match self.held_prediction {
                Some(ref p) => Some(p@),
                None => None,
            },
        }
    }
}

/// What routing one message asks of the coordinator.
#[derive(PartialEq, Eq, Debug)]
pub enum Routed {
    /// Broadcast these messages, in order, to every worker's inbox.
    Deliver(Vec<CoreMessage>),
    /// Broadcast these messages, then stop dispatching: the disconnect signal
    /// was received.
    Shutdown(Vec<CoreMessage>),
    /// A handshake-only message arrived after the handshake.
    Violation,
}

/// Mathematical value of a [`Routed`].
pub enum RoutedV {
    Deliver(Seq<CoreMessageV>),
    Shutdown(Seq<CoreMessageV>),
    Violation,
}

impl View for Routed {
    type V = RoutedV;

    open spec fn view(&self) -> RoutedV {
        match self {
            Routed::Deliver(v) => RoutedV::Deliver(cmsgs_view(v@)),
            Routed::Shutdown(v) => RoutedV::Shutdown(cmsgs_view(v@)),
            Routed::Violation => RoutedV::Violation,
        }
    }
}

/// The routing policy, by incoming message kind.
pub open spec fn route_spec(held: Option<Seq<u8>>, m: CoreMessageV) -> (Option<Seq<u8>>, RoutedV) {
    match m {
        CoreMessageV::DisconnectSignal => (None::<Seq<u8>>, RoutedV::Shutdown(seq![m])),
        CoreMessageV::MatchComm(_) => (held, RoutedV::Deliver(seq![m])),
        CoreMessageV::RenderingStatus(_) => (held, RoutedV::Deliver(seq![m])),
        CoreMessageV::PingRequest => (held, RoutedV::Deliver(seq![m])),
        CoreMessageV::PingResponse => (held, RoutedV::Deliver(seq![m])),
        CoreMessageV::BallPrediction(d) => (Some(d), RoutedV::Deliver(Seq::empty())),
        CoreMessageV::GamePacket(_) => (
            None::<Seq<u8>>,
            RoutedV::Deliver(
                match held {
                    Some(p) => seq![CoreMessageV::BallPrediction(p), m],
                    None => seq![m],
                },
            ),
        ),
        _ => (held, RoutedV::Violation),
    }
}

impl Dispatcher {
    /// A dispatcher holding no prediction.
    pub fn new() -> (r: Self)
        ensures
            r@.held_prediction is None,
    {
        Dispatcher { held_prediction: None }
    }

    /// Routes one incoming message per the policy in [`route_spec`].
    pub fn route(&mut self, msg: CoreMessage) -> (r: Routed)
        ensures
            (final(self)@.held_prediction, r@) == route_spec(old(self)@.held_prediction, msg@),
    {
        match msg {
            CoreMessage::DisconnectSignal => {
                self.held_prediction = None;
                let mut v: Vec<CoreMessage> = Vec::new();
                v.push(CoreMessage::DisconnectSignal);
                proof {
                    assert(cmsgs_view(v@) =~= seq![CoreMessageV::DisconnectSignal]);
                }
                Routed::Shutdown(v)
            },
            CoreMessage::MatchComm(x) => {
                let mut v: Vec<CoreMessage> = Vec::new();
                let ghost mv = CoreMessage::MatchComm(x)@;
                v.push(CoreMessage::MatchComm(x));
                proof {
                    assert(cmsgs_view(v@) =~= seq![mv]);
                }
                Routed::Deliver(v)
            },
            CoreMessage::RenderingStatus(x) => {
                let mut v: Vec<CoreMessage> = Vec::new();
                let ghost mv = CoreMessage::RenderingStatus(x)@;
                v.push(CoreMessage::RenderingStatus(x));
                proof {
                    assert(cmsgs_view(v@) =~= seq![mv]);
                }
                Routed::Deliver(v)
            },
            CoreMessage::PingRequest => {
                let mut v: Vec<CoreMessage> = Vec::new();
                v.push(CoreMessage::PingRequest);
                proof {
                    assert(cmsgs_view(v@) =~= seq![CoreMessageV::PingRequest]);
                }
                Routed::Deliver(v)
            },
            CoreMessage::PingResponse => {
                let mut v: Vec<CoreMessage> = Vec::new();
                v.push(CoreMessage::PingResponse);
                proof {
                    assert(cmsgs_view(v@) =~= seq![CoreMessageV::PingResponse]);
                }
                Routed::Deliver(v)
            },
            CoreMessage::BallPrediction(p) => {
                self.held_prediction = Some(p);
                let v: Vec<CoreMessage> = Vec::new();
                proof {
                    assert(cmsgs_view(v@) =~= Seq::<CoreMessageV>::empty());
                }
                Routed::Deliver(v)
            },
            CoreMessage::GamePacket(x) => {
                let mut held: Option<BallPrediction> = None;
                core::mem::swap(&mut held, &mut self.held_prediction);
                let mut v: Vec<CoreMessage> = Vec::new();
                let ghost heldv = match held {
                    Some(ref p) => Some(p@),
                    None => None::<Seq<u8>>,
                };
                match held {
                    Some(p) => {
                        v.push(CoreMessage::BallPrediction(p));
                    },
                    None => {},
                }
                let ghost mv = CoreMessage::GamePacket(x)@;
                v.push(CoreMessage::GamePacket(x));
                proof {
                    match heldv {
                        Some(pd) => {
                            assert(cmsgs_view(v@) =~= seq![CoreMessageV::BallPrediction(pd), mv]);
                        },
                        None => {
                            assert(cmsgs_view(v@) =~= seq![mv]);
                        },
                    }
                }
                Routed::Deliver(v)
            },
            _ => Routed::Violation,
        }
    }
}

/// Appends the same messages, in the same order, to every worker's inbox: two
/// workers never observe their shared broadcast messages in different relative
/// orders.
#[verifier::loop_isolation(false)]
pub fn fan_out(inboxes: &mut Vec<Vec<CoreMessage>>, msgs: &Vec<CoreMessage>)
    ensures
        final(inboxes)@.len() == old(inboxes)@.len(),
        forall|w: int|
            0 <= w < old(inboxes)@.len() ==> cmsgs_view(#[trigger] final(inboxes)@[w]@)
                == cmsgs_view(old(inboxes)@[w]@) + cmsgs_view(msgs@),
{
    let mut w: usize = 0;
    while w < inboxes.len()
        invariant
            w <= inboxes@.len(),
            inboxes@.len() == old(inboxes)@.len(),
            forall|j: int|
                0 <= j < w ==> cmsgs_view(#[trigger] inboxes@[j]@) == cmsgs_view(
                    old(inboxes)@[j]@,
                ) + cmsgs_view(msgs@),
            forall|j: int| w <= j < inboxes@.len() ==> inboxes@[j] == old(inboxes)@[j],
        decreases inboxes@.len() - w,
    {
        let mut inner: Vec<CoreMessage> = Vec::new();
        inboxes.set_and_swap(w, &mut inner);
        let ghost base = cmsgs_view(inner@);
        let mut i: usize = 0;
        proof {
            assert(cmsgs_view(msgs@).take(0) =~= Seq::<CoreMessageV>::empty());
            assert(base + cmsgs_view(msgs@).take(0) =~= base);
        }
        while i < msgs.len()
            invariant
                i <= msgs@.len(),
                cmsgs_view(inner@) == base + cmsgs_view(msgs@).take(i as int),
                inboxes@.len() == old(inboxes)@.len(),
                w < inboxes@.len(),
                forall|j: int|
                    0 <= j < w ==> cmsgs_view(#[trigger] inboxes@[j]@) == cmsgs_view(
                        old(inboxes)@[j]@,
                    ) + cmsgs_view(msgs@),
                forall|j: int| w < j < inboxes@.len() ==> inboxes@[j] == old(inboxes)@[j],
            decreases msgs@.len() - i,
        {
            let m = msgs[i].clone();
            proof {
                assert(m@ == msgs@[i as int]@);
            }
            let ghost before = cmsgs_view(inner@);
            inner.push(m);
            proof {
                assert(cmsgs_view(inner@) =~= before.push(msgs@[i as int]@));
                assert(cmsgs_view(msgs@).take(i as int + 1) =~= cmsgs_view(msgs@).take(
                    i as int,
                ).push(msgs@[i as int]@));
                assert(cmsgs_view(inner@) =~= base + cmsgs_view(msgs@).take(i as int + 1));
            }
            i = i + 1;
        }
        proof {
            assert(cmsgs_view(msgs@).take(msgs@.len() as int) =~= cmsgs_view(msgs@));
        }
        inboxes.set_and_swap(w, &mut inner);
        w = w + 1;
    }
}

/// The concatenated deliveries of routing a whole sequence, first to last.
pub open spec fn route_all_spec(held: Option<Seq<u8>>, msgs: Seq<CoreMessageV>) -> (
    Option<Seq<u8>>,
    Seq<CoreMessageV>,
)
    decreases msgs.len(),
{
    if msgs.len() == 0 {
        (held, Seq::empty())
    } else {
        let (h1, r1) = route_spec(held, msgs[0]);
        let delivered = match r1 {
            RoutedV::Deliver(v) => v,
            RoutedV::Shutdown(v) => v,
            RoutedV::Violation => Seq::empty(),
        };
        let (h2, rest) = route_all_spec(h1, msgs.drop_first());
        (h2, delivered + rest)
    }
}

/// Fan-out ordering: a sequence without ball predictions and without
/// handshake-only messages is delivered exactly as received, in order.
pub proof fn lemma_fanout_order_preserved(msgs: Seq<CoreMessageV>)
    requires
        forall|i: int|
            0 <= i < msgs.len() ==> !((#[trigger] msgs[i]) is BallPrediction) && !is_handshake_kind(
                msgs[i],
            ),
    ensures
        route_all_spec(None, msgs).1 == msgs,
    decreases msgs.len(),
{
    if msgs.len() == 0 {
        assert(route_all_spec(None, msgs).1 =~= msgs);
    } else {
        let (h1, r1) = route_spec(None, msgs[0]);
        assert(h1 is None);
        lemma_fanout_order_preserved(msgs.drop_first());
        assert(seq![msgs[0]] + msgs.drop_first() =~= msgs);
        assert(route_all_spec(None, msgs).1 =~= msgs);
    }
}

/// The messages of a sequence that are not ball predictions, in order.
pub open spec fn non_prediction(msgs: Seq<CoreMessageV>) -> Seq<CoreMessageV> {
    msgs.filter(|m: CoreMessageV| !(m is BallPrediction))
}

/// Ordering despite re-ordered predictions: however ball predictions
/// interleave a post-handshake sequence, every other message is delivered in
/// exactly the order it was received.
pub proof fn lemma_order_preserved_despite_predictions(
    held: Option<Seq<u8>>,
    msgs: Seq<CoreMessageV>,
)
    requires
        forall|i: int| 0 <= i < msgs.len() ==> !is_handshake_kind(#[trigger] msgs[i]),
    ensures
        non_prediction(route_all_spec(held, msgs).1) == non_prediction(msgs),
    decreases msgs.len(),
{
    reveal_with_fuel(Seq::filter, 3);
    let pred = |m: CoreMessageV| !(m is BallPrediction);
    if msgs.len() == 0 {
        assert(route_all_spec(held, msgs).1 =~= Seq::<CoreMessageV>::empty());
    } else {
        let m0 = msgs[0];
        let (h1, r1) = route_spec(held, m0);
        let d0 = match r1 {
            RoutedV::Deliver(v) => v,
            RoutedV::Shutdown(v) => v,
            RoutedV::Violation => Seq::<CoreMessageV>::empty(),
        };
        let rest = route_all_spec(h1, msgs.drop_first()).1;
        lemma_order_preserved_despite_predictions(h1, msgs.drop_first());
        Seq::<CoreMessageV>::filter_distributes_over_add(d0, rest, pred);
        Seq::<CoreMessageV>::filter_distributes_over_add(
            seq![m0],
            msgs.drop_first(),
            pred,
        );
        assert(seq![m0] + msgs.drop_first() =~= msgs);
        // the head's delivery holds the same non-prediction messages as the
        // head itself, whichever kind it is
        assert(seq![m0].drop_last() =~= Seq::<CoreMessageV>::empty());
        match m0 {
            CoreMessageV::BallPrediction(_) => {
                assert(d0.filter(pred) =~= seq![m0].filter(pred));
            },
            CoreMessageV::GamePacket(_) => {
                match held {
                    Some(p) => {
                        assert(d0 =~= seq![CoreMessageV::BallPrediction(p), m0]);
                        assert(d0.drop_last() =~= seq![CoreMessageV::BallPrediction(p)]);
                        assert(d0.filter(pred) =~= seq![m0].filter(pred));
                    },
                    None => {
                        assert(d0 =~= seq![m0]);
                    },
                }
            },
            _ => {
                assert(d0 =~= seq![m0]);
            },
        }
        assert(non_prediction(route_all_spec(held, msgs).1) =~= non_prediction(msgs));
    }
}

/// Ball-prediction pairing: a prediction is delivered to every worker
/// immediately before the tick message that consumes it, whatever was held
/// before the prediction arrived.
pub proof fn lemma_prediction_paired(held: Option<Seq<u8>>, p: Seq<u8>, t: Seq<u8>)
    ensures
        ({
            let (h1, r1) = route_spec(held, CoreMessageV::BallPrediction(p));
            let (h2, r2) = route_spec(h1, CoreMessageV::GamePacket(t));
            &&& r1 == RoutedV::Deliver(Seq::<CoreMessageV>::empty())
            &&& r2 == RoutedV::Deliver(
                seq![CoreMessageV::BallPrediction(p), CoreMessageV::GamePacket(t)],
            )
            &&& h2 is None
        }),
{
}

/// Last prediction wins: a prediction superseded before any tick consumes it
/// is never delivered; only the newer one is paired with the tick.
pub proof fn lemma_prediction_superseded(held: Option<Seq<u8>>, p: Seq<u8>, q: Seq<u8>, t: Seq<u8>)
    ensures
        ({
            let (h1, r1) = route_spec(held, CoreMessageV::BallPrediction(p));
            let (h2, r2) = route_spec(h1, CoreMessageV::BallPrediction(q));
            let (h3, r3) = route_spec(h2, CoreMessageV::GamePacket(t));
            &&& r1 == RoutedV::Deliver(Seq::<CoreMessageV>::empty())
            &&& r2 == RoutedV::Deliver(Seq::<CoreMessageV>::empty())
            &&& r3 == RoutedV::Deliver(
                seq![CoreMessageV::BallPrediction(q), CoreMessageV::GamePacket(t)],
            )
            &&& h3 is None
        }),
{
}

/// The hivemind variant's per-drain state: while the socket is drained without
/// blocking, the latest prediction and the latest tick are held; comms are
/// handed on at once; at the end of the drain the held prediction is delivered
/// immediately before the held tick.
pub struct TickCoalescer {
    held_prediction: Option<BallPrediction>,
    held_tick: Option<GamePacket>,
}

/// Mathematical value of a [`TickCoalescer`].
pub struct CoalescerV {
    pub held_prediction: Option<Seq<u8>>,
    pub held_tick: Option<Seq<u8>>,
}

impl View for TickCoalescer {
    type V = CoalescerV;

    closed spec fn view(&self) -> CoalescerV {
        CoalescerV {
            held_prediction: match self.held_prediction {
                Some(ref p) => Some(p@),
                None => None,
            },
            held_tick: match self.held_tick {
                Some(ref t) => Some(t@),
                None => None,
            },
        }
    }
}

/// What absorbing one drained message does to the coalescer: predictions and
/// ticks are held, last one wins; everything else passes through.
pub open spec fn absorb_spec(c: CoalescerV, m: CoreMessageV) -> CoalescerV {
    match m {
        CoreMessageV::BallPrediction(d) => CoalescerV { held_prediction: Some(d), ..c },
        CoreMessageV::GamePacket(d) => CoalescerV { held_tick: Some(d), ..c },
        _ => c,
    }
}

/// The messages a flush delivers: nothing without a tick; else the held
/// prediction, if any, immediately before the tick.
pub open spec fn flush_spec(c: CoalescerV) -> Seq<CoreMessageV> {
    match c.held_tick {
        None => Seq::empty(),
        Some(t) => match c.held_prediction {
            Some(p) => seq![
                CoreMessageV::BallPrediction(p),
                CoreMessageV::GamePacket(t),
            ],
            None => seq![CoreMessageV::GamePacket(t)],
        },
    }
}

impl TickCoalescer {
    /// A coalescer holding nothing.
    pub fn new() -> (r: Self)
        ensures
            r@.held_prediction is None,
            r@.held_tick is None,
    {
        TickCoalescer { held_prediction: None, held_tick: None }
    }

    /// Absorbs one drained message; returns it back unless it was held.
    pub fn absorb(&mut self, msg: CoreMessage) -> (r: Option<CoreMessage>)
        ensures
            final(self)@ == absorb_spec(old(self)@, msg@),
            match r {
                Some(m) => m@ == msg@ && !(msg@ is BallPrediction) && !(msg@ is GamePacket),
                None => msg@ is BallPrediction || msg@ is GamePacket,
            },
    {
        match msg {
            CoreMessage::BallPrediction(p) => {
                self.held_prediction = Some(p);
                None
            },
            CoreMessage::GamePacket(t) => {
                self.held_tick = Some(t);
                None
            },
            other => Some(other),
        }
    }

    /// Delivers the held prediction, if any, immediately before the held tick,
    /// and clears both. Without a tick nothing is delivered and a held
    /// prediction stays for the next cycle.
    pub fn flush(&mut self) -> (r: Vec<CoreMessage>)
        ensures
            cmsgs_view(r@) == flush_spec(old(self)@),
            old(self)@.held_tick is Some ==> final(self)@.held_prediction is None,
            old(self)@.held_tick is None ==> final(self)@ == old(self)@,
            final(self)@.held_tick is None,
    {
        let mut tick: Option<GamePacket> = None;
        core::mem::swap(&mut tick, &mut self.held_tick);
        let mut out: Vec<CoreMessage> = Vec::new();
        match tick {
            None => {
                proof {
                    assert(cmsgs_view(out@) =~= flush_spec(old(self)@));
                }
                out
            },
            Some(t) => {
                let mut pred: Option<BallPrediction> = None;
                core::mem::swap(&mut pred, &mut self.held_prediction);
                let ghost predv = match pred {
                    Some(ref p) => Some(p@),
                    None => None::<Seq<u8>>,
                };
                let ghost tv = t@;
                match pred {
                    Some(p) => {
                        out.push(CoreMessage::BallPrediction(p));
                    },
                    None => {},
                }
                out.push(CoreMessage::GamePacket(t));
                proof {
                    match predv {
                        Some(pd) => {
                            assert(cmsgs_view(out@) =~= seq![
                                CoreMessageV::BallPrediction(pd),
                                CoreMessageV::GamePacket(tv),
                            ]);
                        },
                        None => {
                            assert(cmsgs_view(out@) =~= seq![CoreMessageV::GamePacket(tv)]);
                        },
                    }
                }
                out
            },
        }
    }
}

} // verus!