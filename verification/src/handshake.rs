//! The startup handshake: after the client sends its connection settings, the
//! server sends, in any order and interleaved with other traffic, the
//! controllable assignment, the match configuration and the field info. The
//! collector watches the incoming stream, keeps the most recent value of each
//! of the three, and is complete once all three have been seen.
use vstd::prelude::*;

use crate::messages::cmsgs_view;
use crate::messages::ControllableTeamInfo;
use crate::messages::ControllableTeamInfoV;
use crate::messages::CoreMessage;
use crate::messages::CoreMessageV;
use crate::messages::FieldInfo;
use crate::messages::MatchConfiguration;

verus! {

/// The triad of startup messages, complete.
pub struct StartingInfo {
    pub controllable_team_info: ControllableTeamInfo,
    pub match_configuration: MatchConfiguration,
    pub field_info: FieldInfo,
}

/// Collects the startup triad from the incoming stream.
pub struct StartingInfoCollector {
    controllable_team_info: Option<ControllableTeamInfo>,
    match_configuration: Option<MatchConfiguration>,
    field_info: Option<FieldInfo>,
}

/// Mathematical value of a [`StartingInfoCollector`].
pub struct CollectorV {
    pub controllable_team_info: Option<ControllableTeamInfoV>,
    pub match_configuration: Option<Seq<u8>>,
    pub field_info: Option<Seq<u8>>,
}

impl View for StartingInfoCollector {
    type V = CollectorV;

    closed spec fn view(&self) -> CollectorV {
        CollectorV {
            controllable_team_info: match self.controllable_team_info {
                Some(ref c) => Some(c@),
                None => None,
            },
            match_configuration: match self.match_configuration {
                Some(ref m) => Some(m@),
                None => None,
            },
            field_info: match self.field_info {
                Some(ref f) => Some(f@),
                None => None,
            },
        }
    }
}

/// A collector that has seen nothing.
pub open spec fn empty_collector() -> CollectorV {
    CollectorV { controllable_team_info: None, match_configuration: None, field_info: None }
}

/// One observation: a startup-kind message replaces its slot (last one wins);
/// every other message is discarded.
pub open spec fn observe_spec(c: CollectorV, m: CoreMessageV) -> CollectorV {
    match m {
        CoreMessageV::ControllableTeamInfo(x) => CollectorV {
            controllable_team_info: Some(x),
            ..c
        },
        CoreMessageV::MatchConfiguration(d) => CollectorV { match_configuration: Some(d), ..c },
        CoreMessageV::FieldInfo(d) => CollectorV { field_info: Some(d), ..c },
        _ => c,
    }
}

/// All three startup messages have been seen.
pub open spec fn collector_complete(c: CollectorV) -> bool {
    c.controllable_team_info is Some && c.match_configuration is Some && c.field_info is Some
}

/// The collector after observing a whole sequence, first to last.
pub open spec fn observe_all_spec(c: CollectorV, msgs: Seq<CoreMessageV>) -> CollectorV
    decreases msgs.len(),
{
    if msgs.len() == 0 {
        c
    } else {
        observe_all_spec(observe_spec(c, msgs[0]), msgs.drop_first())
    }
}

/// Observing one more message is one more observation step.
pub proof fn lemma_observe_all_snoc(c: CollectorV, msgs: Seq<CoreMessageV>, m: CoreMessageV)
    ensures
        observe_all_spec(c, msgs.push(m)) == observe_spec(observe_all_spec(c, msgs), m),
    decreases msgs.len(),
{
    if msgs.len() == 0 {
        assert(msgs.push(m).drop_first() =~= Seq::<CoreMessageV>::empty());
        assert(msgs.push(m)[0] == m);
        assert(observe_all_spec(c, msgs.push(m)) == observe_all_spec(
            observe_spec(c, m),
            Seq::<CoreMessageV>::empty(),
        ));
        assert(observe_all_spec(observe_spec(c, m), Seq::<CoreMessageV>::empty()) == observe_spec(
            c,
            m,
        ));
        assert(observe_all_spec(c, msgs) == c);
    } else {
        assert(msgs.push(m).drop_first() =~= msgs.drop_first().push(m));
        assert(msgs.push(m)[0] == msgs[0]);
        lemma_observe_all_snoc(observe_spec(c, msgs[0]), msgs.drop_first(), m);
    }
}

/// The value of the last assignment message in the sequence, if any.
pub open spec fn last_cti(msgs: Seq<CoreMessageV>) -> Option<ControllableTeamInfoV>
    decreases msgs.len(),
{
    if msgs.len() == 0 {
        None
    } else {
        match msgs.last() {
            CoreMessageV::ControllableTeamInfo(x) => Some(x),
            _ => last_cti(msgs.drop_last()),
        }
    }
}

/// The payload of the last match-configuration message, if any.
pub open spec fn last_match_configuration(msgs: Seq<CoreMessageV>) -> Option<Seq<u8>>
    decreases msgs.len(),
{
    if msgs.len() == 0 {
        None
    } else {
        match msgs.last() {
            CoreMessageV::MatchConfiguration(d) => Some(d),
            _ => last_match_configuration(msgs.drop_last()),
        }
    }
}

/// The payload of the last field-info message, if any.
pub open spec fn last_field_info(msgs: Seq<CoreMessageV>) -> Option<Seq<u8>>
    decreases msgs.len(),
{
    if msgs.len() == 0 {
        None
    } else {
        match msgs.last() {
            CoreMessageV::FieldInfo(d) => Some(d),
            _ => last_field_info(msgs.drop_last()),
        }
    }
}

/// After observing a sequence, each slot holds exactly the value of the last
/// startup message of its kind, and is untouched where none appeared: last one
/// wins, duplicates and unrelated traffic notwithstanding.
pub proof fn lemma_collector_slots(c: CollectorV, msgs: Seq<CoreMessageV>)
    ensures
        observe_all_spec(c, msgs).controllable_team_info == (match last_cti(msgs) {
            Some(x) => Some(x),
            None => c.controllable_team_info,
        }),
        observe_all_spec(c, msgs).match_configuration == (match last_match_configuration(msgs) {
            Some(d) => Some(d),
            None => c.match_configuration,
        }),
        observe_all_spec(c, msgs).field_info == (match last_field_info(msgs) {
            Some(d) => Some(d),
            None => c.field_info,
        }),
    decreases msgs.len(),
{
    if msgs.len() > 0 {
        lemma_collector_slots(c, msgs.drop_last());
        assert(msgs.drop_last().push(msgs.last()) =~= msgs);
        lemma_observe_all_snoc(c, msgs.drop_last(), msgs.last());
    }
}

/// A kind's last value exists exactly when a message of that kind appears.
pub proof fn lemma_last_of_kind_exists(msgs: Seq<CoreMessageV>)
    ensures
        last_cti(msgs) is Some <==> exists|i: int|
            0 <= i < msgs.len() && (#[trigger] msgs[i]) is ControllableTeamInfo,
        last_match_configuration(msgs) is Some <==> exists|i: int|
            0 <= i < msgs.len() && (#[trigger] msgs[i]) is MatchConfiguration,
        last_field_info(msgs) is Some <==> exists|i: int|
            0 <= i < msgs.len() && (#[trigger] msgs[i]) is FieldInfo,
    decreases msgs.len(),
{
    if msgs.len() > 0 {
        lemma_last_of_kind_exists(msgs.drop_last());
        assert(msgs.drop_last() =~= msgs.subrange(0, msgs.len() - 1));
        if last_cti(msgs) is Some {
            if msgs.last() is ControllableTeamInfo {
                assert(msgs[msgs.len() - 1] is ControllableTeamInfo);
            } else {
                let i = choose|i: int|
                    0 <= i < msgs.drop_last().len() && (#[trigger] msgs.drop_last()[i])
                        is ControllableTeamInfo;
                assert(msgs[i] is ControllableTeamInfo);
            }
        }
        if last_match_configuration(msgs) is Some {
            if msgs.last() is MatchConfiguration {
                assert(msgs[msgs.len() - 1] is MatchConfiguration);
            } else {
                let i = choose|i: int|
                    0 <= i < msgs.drop_last().len() && (#[trigger] msgs.drop_last()[i])
                        is MatchConfiguration;
                assert(msgs[i] is MatchConfiguration);
            }
        }
        if last_field_info(msgs) is Some {
            if msgs.last() is FieldInfo {
                assert(msgs[msgs.len() - 1] is FieldInfo);
            } else {
                let i = choose|i: int|
                    0 <= i < msgs.drop_last().len() && (#[trigger] msgs.drop_last()[i])
                        is FieldInfo;
                assert(msgs[i] is FieldInfo);
            }
        }
        if exists|i: int| 0 <= i < msgs.len() && (#[trigger] msgs[i]) is ControllableTeamInfo {
            let i = choose|i: int|
                0 <= i < msgs.len() && (#[trigger] msgs[i]) is ControllableTeamInfo;
            if i < msgs.len() - 1 {
                assert(msgs.drop_last()[i] is ControllableTeamInfo);
            }
        }
        if exists|i: int| 0 <= i < msgs.len() && (#[trigger] msgs[i]) is MatchConfiguration {
            let i = choose|i: int|
                0 <= i < msgs.len() && (#[trigger] msgs[i]) is MatchConfiguration;
            if i < msgs.len() - 1 {
                assert(msgs.drop_last()[i] is MatchConfiguration);
            }
        }
        if exists|i: int| 0 <= i < msgs.len() && (#[trigger] msgs[i]) is FieldInfo {
            let i = choose|i: int| 0 <= i < msgs.len() && (#[trigger] msgs[i]) is FieldInfo;
            if i < msgs.len() - 1 {
                assert(msgs.drop_last()[i] is FieldInfo);
            }
        }
    }
}

/// Handshake completeness: starting from nothing, the collector is complete
/// after a sequence exactly when all three startup kinds appear in it, however
/// they are interleaved with unrelated messages; and each collected value is
/// the last seen of its kind.
pub proof fn lemma_handshake_completeness(msgs: Seq<CoreMessageV>)
    ensures
        collector_complete(observe_all_spec(empty_collector(), msgs)) <==> ((exists|i: int|
            0 <= i < msgs.len() && (#[trigger] msgs[i]) is ControllableTeamInfo) && (exists|i: int|
            0 <= i < msgs.len() && (#[trigger] msgs[i]) is MatchConfiguration) && (exists|i: int|
            0 <= i < msgs.len() && (#[trigger] msgs[i]) is FieldInfo)),
        observe_all_spec(empty_collector(), msgs).controllable_team_info == last_cti(msgs),
        observe_all_spec(empty_collector(), msgs).match_configuration
            == last_match_configuration(msgs),
        observe_all_spec(empty_collector(), msgs).field_info == last_field_info(msgs),
{
    lemma_collector_slots(empty_collector(), msgs);
    lemma_last_of_kind_exists(msgs);
}

impl StartingInfoCollector {
    /// A collector that has seen nothing.
    pub fn new() -> (r: Self)
        ensures
            r@ == empty_collector(),
    {
        StartingInfoCollector {
            controllable_team_info: None,
            match_configuration: None,
            field_info: None,
        }
    }

    /// Observes one incoming message: keeps the most recent value of each
    /// startup kind and discards everything else.
    pub fn observe(&mut self, msg: CoreMessage)
        ensures
            final(self)@ == observe_spec(old(self)@, msg@),
    {
        match msg {
            CoreMessage::ControllableTeamInfo(x) => {
                self.controllable_team_info = Some(x);
            },
            CoreMessage::MatchConfiguration(d) => {
                self.match_configuration = Some(d);
            },
            CoreMessage::FieldInfo(d) => {
                self.field_info = Some(d);
            },
            _ => {},
        }
    }

    /// Whether all three startup messages have been seen.
    pub fn complete(&self) -> (r: bool)
        ensures
            r == collector_complete(self@),
    {
        self.controllable_team_info.is_some() && self.match_configuration.is_some()
            && self.field_info.is_some()
    }

    /// Hands out the collected triad.
    pub fn take_starting_info(self) -> (r: StartingInfo)
        requires
            collector_complete(self@),
        ensures
            Some(r.controllable_team_info@) == self@.controllable_team_info,
            Some(r.match_configuration@) == self@.match_configuration,
            Some(r.field_info@) == self@.field_info,
    {
        let controllable_team_info = match self.controllable_team_info {
            Some(c) => c,
            None => {
                proof {
                    assert(false);
                }
                unreached()
            },
        };
        let match_configuration = match self.match_configuration {
            Some(m) => m,
            None => {
                proof {
                    assert(false);
                }
                unreached()
            },
        };
        let field_info = match self.field_info {
            Some(f) => f,
            None => {
                proof {
                    assert(false);
                }
                unreached()
            },
        };
        StartingInfo { controllable_team_info, match_configuration, field_info }
    }
}

/// Runs the collector over a recorded stream, exactly as the blocking
/// handshake loop does over the live one: observes messages first to last and
/// stops at the first point where the triad is complete. Returns the collected
/// triad and how many messages were consumed, or nothing if the stream ends
/// before all three kinds have appeared.
#[verifier::loop_isolation(false)]
pub fn collect_starting_info(msgs: &Vec<CoreMessage>) -> (r: Option<(StartingInfo, usize)>)
    ensures
        match r {
            Some((info, used)) => {
                &&& used <= msgs@.len()
                &&& collector_complete(
                    observe_all_spec(empty_collector(), cmsgs_view(msgs@).take(used as int)),
                )
                &&& !collector_complete(
                    observe_all_spec(
                        empty_collector(),
                        cmsgs_view(msgs@).take(used as int - 1),
                    ),
                )
                &&& Some(info.controllable_team_info@) == observe_all_spec(
                    empty_collector(),
                    cmsgs_view(msgs@).take(used as int),
                ).controllable_team_info
                &&& Some(info.match_configuration@) == observe_all_spec(
                    empty_collector(),
                    cmsgs_view(msgs@).take(used as int),
                ).match_configuration
                &&& Some(info.field_info@) == observe_all_spec(
                    empty_collector(),
                    cmsgs_view(msgs@).take(used as int),
                ).field_info
            },
            None => !collector_complete(observe_all_spec(empty_collector(), cmsgs_view(msgs@))),
        },
{
    let ghost views = cmsgs_view(msgs@);
    let mut collector = StartingInfoCollector::new();
    let mut k: usize = 0;
    proof {
        assert(views.take(0) =~= Seq::<CoreMessageV>::empty());
    }
    while k < msgs.len()
        invariant
            k <= msgs@.len(),
            collector@ == observe_all_spec(empty_collector(), views.take(k as int)),
            !collector_complete(collector@),
        decreases msgs@.len() - k,
    {
        let msg = msgs[k].clone();
        proof {
            assert(views[k as int] == msgs@[k as int]@);
        }
        collector.observe(msg);
        proof {
            lemma_observe_all_snoc(empty_collector(), views.take(k as int), views[k as int]);
            assert(views.take(k as int).push(views[k as int]) =~= views.take(k as int + 1));
        }
        k = k + 1;
        if collector.complete() {
            let info = collector.take_starting_info();
            return Some((info, k));
        }
    }
    proof {
        assert(views.take(views.len() as int) =~= views);
    }
    None
}

} // verus!