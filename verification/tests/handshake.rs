//! Handshake completeness: the collector returns only once all three startup
//! kinds have been seen, keeps the last-seen value of each, and ignores
//! everything else.
use rlbot::handshake::collect_starting_info;
use rlbot::handshake::StartingInfoCollector;
use rlbot::messages::BallPrediction;
use rlbot::messages::ControllableInfo;
use rlbot::messages::ControllableTeamInfo;
use rlbot::messages::CoreMessage;
use rlbot::messages::FieldInfo;
use rlbot::messages::GamePacket;
use rlbot::messages::MatchComm;
use rlbot::messages::MatchConfiguration;

fn cti(team: u32, n: u32) -> CoreMessage {
    let mut controllables = Vec::new();
    let mut i = 0u32;
    while i < n {
        controllables.push(ControllableInfo { index: i, identifier: 1000 + i });
        i += 1;
    }
    CoreMessage::ControllableTeamInfo(ControllableTeamInfo { team, controllables })
}

#[test]
fn triad_scrambled_among_unrelated_messages() {
    // five unrelated messages interleaved among the triad, in arbitrary order
    let msgs = vec![
        CoreMessage::GamePacket(GamePacket { data: vec![1] }),
        CoreMessage::MatchConfiguration(MatchConfiguration { data: vec![10] }),
        CoreMessage::MatchComm(MatchComm { data: vec![2] }),
        CoreMessage::BallPrediction(BallPrediction { data: vec![3] }),
        cti(1, 2),
        CoreMessage::PingRequest,
        CoreMessage::GamePacket(GamePacket { data: vec![4] }),
        CoreMessage::FieldInfo(FieldInfo { data: vec![20] }),
        CoreMessage::GamePacket(GamePacket { data: vec![5] }),
    ];
    let (info, used) = collect_starting_info(&msgs).unwrap();
    // complete exactly at the field-info message, not earlier, not later
    assert_eq!(used, 8);
    assert_eq!(info.controllable_team_info.team, 1);
    assert_eq!(info.controllable_team_info.controllables.len(), 2);
    assert_eq!(info.match_configuration.data, vec![10]);
    assert_eq!(info.field_info.data, vec![20]);
}

#[test]
fn duplicates_keep_the_last_seen_value() {
    let msgs = vec![
        CoreMessage::MatchConfiguration(MatchConfiguration { data: vec![1] }),
        cti(0, 1),
        CoreMessage::MatchConfiguration(MatchConfiguration { data: vec![2] }),
        cti(0, 3),
        CoreMessage::FieldInfo(FieldInfo { data: vec![9] }),
    ];
    let (info, used) = collect_starting_info(&msgs).unwrap();
    assert_eq!(used, 5);
    assert_eq!(info.match_configuration.data, vec![2]);
    assert_eq!(info.controllable_team_info.controllables.len(), 3);
    assert_eq!(info.field_info.data, vec![9]);
}

#[test]
fn incomplete_stream_returns_nothing() {
    let msgs = vec![
        cti(0, 1),
        CoreMessage::MatchConfiguration(MatchConfiguration { data: vec![1] }),
        CoreMessage::GamePacket(GamePacket { data: vec![1] }),
    ];
    assert!(collect_starting_info(&msgs).is_none());
    assert!(collect_starting_info(&Vec::new()).is_none());
}

#[test]
fn collector_reports_completion_incrementally() {
    let mut c = StartingInfoCollector::new();
    assert!(!c.complete());
    c.observe(CoreMessage::GamePacket(GamePacket { data: vec![] }));
    assert!(!c.complete());
    c.observe(cti(1, 1));
    assert!(!c.complete());
    c.observe(CoreMessage::FieldInfo(FieldInfo { data: vec![5] }));
    assert!(!c.complete());
    c.observe(CoreMessage::MatchConfiguration(MatchConfiguration { data: vec![6] }));
    assert!(c.complete());
    let info = c.take_starting_info();
    assert_eq!(info.field_info.data, vec![5]);
    assert_eq!(info.match_configuration.data, vec![6]);
}
