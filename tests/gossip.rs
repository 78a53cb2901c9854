use sharded_gossip::arc::StorageArc;
use sharded_gossip::bloom::{decode_bloom_filter, encode_bloom_filter, HEADER_LEN};
use sharded_gossip::connection::{check_response, task_step, CommandKind, Dispatch, TaskState, TransportError};
use sharded_gossip::diff::{check_ops_boom, timed_outcome, EncodedTimedBloomFilter, TimeWindow};
use sharded_gossip::error::GossipError;
use sharded_gossip::key::{agent_key, op_key, MetaOpKey};
use sharded_gossip::round::{partition_windows, round_step, RoundEvent, RoundState};
use sharded_gossip::snapshot::{
    build_agent_filter, build_ops_filter, create_agent_bloom, create_ops_bloom, AgentEntry,
};
use sharded_gossip::wire::WireMessage;

fn hash(n: u8) -> Vec<u8> {
    vec![n; 32]
}

fn agent(n: u8, signed_at_ms: u64, start: u32, end: u32) -> AgentEntry {
    AgentEntry {
        agent: vec![n; 36],
        signed_at_ms,
        storage_arc: StorageArc::new(start, end),
    }
}

fn header_bits(bytes: &[u8]) -> u64 {
    let mut b = [0u8; 8];
    b.copy_from_slice(&bytes[0..8]);
    u64::from_le_bytes(b)
}

#[test]
fn arc_wrapping_contains() {
    let arc = StorageArc::new(u32::MAX - 10, 10);
    assert!(arc.contains(u32::MAX - 10));
    assert!(arc.contains(u32::MAX));
    assert!(arc.contains(0));
    assert!(arc.contains(10));
    assert!(!arc.contains(11));
    assert!(!arc.contains(u32::MAX - 11));
    assert!(!arc.contains(1000));
}

#[test]
fn arc_plain_is_half_open() {
    let arc = StorageArc::new(100, 200);
    assert!(arc.contains(100));
    assert!(arc.contains(199));
    assert!(!arc.contains(200));
    assert!(!arc.contains(99));
    assert!(!StorageArc::new(5, 5).contains(5));
}

#[test]
fn arc_overlaps() {
    let a = StorageArc::new(100, 200);
    assert!(a.overlaps(&StorageArc::new(150, 300)));
    assert!(a.overlaps(&StorageArc::new(0, 101)));
    assert!(!a.overlaps(&StorageArc::new(200, 300)));
    assert!(!a.overlaps(&StorageArc::new(0, 100)));
    assert!(a.overlaps(&StorageArc::new(u32::MAX, 150)));
    assert!(!a.overlaps(&StorageArc::new(50, 50)));
    assert!(StorageArc::new(u32::MAX - 1, 0).overlaps(&StorageArc::new(u32::MAX, 3)));
}

#[test]
fn agent_key_bytes_layout() {
    let k = agent_key(&vec![7, 8], 0x0102030405060708);
    assert_eq!(k, vec![0, 7, 8, 1, 2, 3, 4, 5, 6, 7, 8]);
    let m = MetaOpKey::Agent(vec![7, 8], 0x0102030405060708);
    assert_eq!(m.hash_input(), k);
}

#[test]
fn op_key_bytes_layout() {
    assert_eq!(op_key(&vec![9, 9, 9]), vec![1, 9, 9, 9]);
    assert_eq!(MetaOpKey::Op(vec![3]).hash_input(), vec![1, 3]);
    assert_ne!(
        MetaOpKey::Op(vec![7, 8, 0, 0, 0, 0, 0, 0, 0, 1]).hash_input(),
        MetaOpKey::Agent(vec![7, 8], 1).hash_input()
    );
}

#[test]
fn agent_snapshot_empty_gives_no_filter() {
    assert!(create_agent_bloom(&vec![], None).is_none());
    let agents = vec![agent(1, 10, 0, 100), agent(2, 20, 50, 150)];
    let far = StorageArc::new(1000, 2000);
    assert!(create_agent_bloom(&agents, Some(&far)).is_none());
}

#[test]
fn agent_snapshot_holds_selected_agents() {
    let agents = vec![agent(1, 10, 0, 100), agent(2, 20, 500, 600)];
    let near = StorageArc::new(50, 60);
    let enc = build_agent_filter(&agents, Some(&near), 64).unwrap();
    let f = decode_bloom_filter(&enc).unwrap();
    assert!(f.check(&agent_key(&vec![1; 36], 10)));
    assert!(!f.check(&agent_key(&vec![2; 36], 20)));
    assert_eq!(header_bits(&enc), 8 * 8);
    let all = create_agent_bloom(&agents, None).unwrap();
    assert_eq!(header_bits(&all), 8 * 5);
}

#[test]
fn ops_snapshot_empty_still_encodes() {
    let enc = create_ops_bloom(&vec![]);
    assert_eq!(enc.len(), HEADER_LEN + 2);
    assert_eq!(header_bits(&enc), 16);
    assert!(decode_bloom_filter(&enc).is_ok());
}

#[test]
fn no_false_negatives_after_round_trip() {
    let ops: Vec<Vec<u8>> = (0..50u8).map(hash).collect();
    let enc = create_ops_bloom(&ops);
    let f = decode_bloom_filter(&enc).unwrap();
    for h in &ops {
        assert!(f.check(&op_key(h)));
    }
}

#[test]
fn round_trip_is_stable() {
    let ops: Vec<Vec<u8>> = (0..20u8).map(hash).collect();
    let enc = create_ops_bloom(&ops);
    let f1 = decode_bloom_filter(&enc).unwrap();
    let enc2 = encode_bloom_filter(&f1);
    assert_eq!(enc, enc2);
    let f2 = decode_bloom_filter(&enc2).unwrap();
    for n in 0..200u8 {
        let k = op_key(&hash(n));
        assert_eq!(f1.check(&k), f2.check(&k));
    }
}

#[test]
fn decode_rejects_malformed_filters() {
    assert_eq!(decode_bloom_filter(&[0u8; 10]).unwrap_err(), GossipError::DecodeFailure);
    let mut zero_bits = vec![0u8; HEADER_LEN + 4];
    zero_bits[8] = 3;
    assert_eq!(decode_bloom_filter(&zero_bits).unwrap_err(), GossipError::DecodeFailure);
    let mut too_many = vec![0u8; HEADER_LEN + 1];
    too_many[0] = 9;
    assert_eq!(decode_bloom_filter(&too_many).unwrap_err(), GossipError::DecodeFailure);
    too_many[0] = 8;
    assert!(decode_bloom_filter(&too_many).is_ok());
}

#[test]
fn diff_have_hashes_scenario() {
    let local = vec![(10i64, hash(10)), (20i64, hash(20)), (30i64, hash(30))];
    let remote = build_ops_filter(&vec![hash(10), hash(30)], 64);
    let outcome = EncodedTimedBloomFilter::HaveHashes {
        filter: remote,
        time_window: TimeWindow::new(0, 99),
    };
    assert_eq!(check_ops_boom(&local, &outcome).unwrap(), vec![hash(20)]);
}

#[test]
fn diff_no_overlap_is_empty() {
    let local = vec![(1i64, hash(1)), (2i64, hash(2))];
    assert!(check_ops_boom(&local, &EncodedTimedBloomFilter::NoOverlap).unwrap().is_empty());
}

#[test]
fn diff_missing_all_hashes_scenario() {
    let local = vec![(5i64, hash(5)), (40i64, hash(40)), (60i64, hash(60))];
    let outcome = EncodedTimedBloomFilter::MissingAllHashes {
        time_window: TimeWindow::new(0, 49),
    };
    assert_eq!(check_ops_boom(&local, &outcome).unwrap(), vec![hash(5), hash(40)]);
}

#[test]
fn diff_window_bounds_are_inclusive() {
    let local = vec![(0i64, hash(0)), (50i64, hash(50)), (51i64, hash(51))];
    let outcome = EncodedTimedBloomFilter::MissingAllHashes {
        time_window: TimeWindow::new(0, 50),
    };
    assert_eq!(check_ops_boom(&local, &outcome).unwrap(), vec![hash(0), hash(50)]);
}

#[test]
fn diff_bad_filter_is_decode_failure() {
    let outcome = EncodedTimedBloomFilter::HaveHashes {
        filter: vec![1, 2, 3],
        time_window: TimeWindow::new(0, 10),
    };
    assert_eq!(check_ops_boom(&vec![(1i64, hash(1))], &outcome).unwrap_err(), GossipError::DecodeFailure);
}

#[test]
fn diff_is_idempotent() {
    let local: Vec<(i64, Vec<u8>)> = (0..30u8).map(|n| (n as i64 * 10, hash(n))).collect();
    let remote = create_ops_bloom(&(0..30u8).step_by(2).map(hash).collect());
    let outcome = EncodedTimedBloomFilter::HaveHashes {
        filter: remote,
        time_window: TimeWindow::new(50, 250),
    };
    let first = check_ops_boom(&local, &outcome).unwrap();
    let second = check_ops_boom(&local, &outcome).unwrap();
    assert_eq!(first, second);
    for h in &first {
        assert!(h[0] % 2 == 1 && h[0] >= 5 && h[0] <= 25);
    }
}

#[test]
fn wire_envelope() {
    let m = WireMessage::call_remote(vec![1, 2, 3]);
    let bytes = m.encode();
    assert_eq!(bytes, vec![0, 1, 2, 3]);
    match WireMessage::decode(bytes).unwrap() {
        WireMessage::CallRemote { data } => assert_eq!(data, vec![1, 2, 3]),
    }
    assert_eq!(WireMessage::decode(vec![]).unwrap_err(), GossipError::DecodeFailure);
    assert_eq!(WireMessage::decode(vec![7, 1]).unwrap_err(), GossipError::DecodeFailure);
}

#[test]
fn connection_responses_and_shutdown() {
    assert!(check_response(CommandKind::GetRemoteUrl, CommandKind::GetRemoteUrl).is_ok());
    assert_eq!(
        check_response(CommandKind::Custom, CommandKind::Shutdown),
        Err(TransportError::InvalidResponseType)
    );
    let (s, d) = task_step(TaskState::Running, CommandKind::OutgoingRequest);
    assert_eq!((s, d), (TaskState::Running, Dispatch::Handle(CommandKind::OutgoingRequest)));
    let (s, d) = task_step(s, CommandKind::Shutdown);
    assert_eq!((s, d), (TaskState::Stopped, Dispatch::Handle(CommandKind::Shutdown)));
    assert_eq!(task_step(s, CommandKind::Custom), (TaskState::Stopped, Dispatch::Refuse));
}

#[test]
fn round_phases() {
    let mut s = RoundState::Idle;
    let order = [
        RoundState::ArcsExchanged,
        RoundState::WindowSelected,
        RoundState::FilterExchanged,
        RoundState::OutcomeResolved,
        RoundState::PushPull,
        RoundState::Idle,
    ];
    for want in order {
        s = round_step(s, RoundEvent::Completed);
        assert_eq!(s, want);
    }
    assert_eq!(round_step(RoundState::FilterExchanged, RoundEvent::Failed), RoundState::Idle);
    assert_eq!(round_step(RoundState::PushPull, RoundEvent::Cancelled), RoundState::Idle);
}

#[test]
fn windows_partition_range() {
    let ws = partition_windows(0, 99, 40);
    assert_eq!(ws, vec![TimeWindow::new(0, 39), TimeWindow::new(40, 79), TimeWindow::new(80, 99)]);
    assert_eq!(partition_windows(5, 5, 1), vec![TimeWindow::new(5, 5)]);
    let big = partition_windows(i64::MIN, i64::MAX, i64::MAX);
    assert_eq!(big.len(), 3);
    assert_eq!(big[2].end, i64::MAX);
}

#[test]
fn outcome_for_disjoint_windows_is_no_overlap() {
    let ops = vec![(5i64, hash(5))];
    let r = timed_outcome(&ops, TimeWindow::new(0, 10), TimeWindow::new(11, 20), 10);
    assert!(matches!(r, EncodedTimedBloomFilter::NoOverlap));
}

#[test]
fn outcome_with_nothing_in_window_is_missing_all() {
    let ops = vec![(5i64, hash(5)), (30i64, hash(30))];
    let r = timed_outcome(&ops, TimeWindow::new(0, 20), TimeWindow::new(10, 40), 10);
    match r {
        EncodedTimedBloomFilter::MissingAllHashes { time_window } => {
            assert_eq!(time_window, TimeWindow::new(10, 20))
        }
        _ => panic!("expected MissingAllHashes"),
    }
}

#[test]
fn outcome_then_resolution_finds_what_remote_lacks() {
    let remote_ops = vec![(10i64, hash(10)), (30i64, hash(30)), (500i64, hash(50))];
    let outcome = timed_outcome(&remote_ops, TimeWindow::new(0, 100), TimeWindow::new(0, 1000), 64);
    match &outcome {
        EncodedTimedBloomFilter::HaveHashes { time_window, .. } => {
            assert_eq!(*time_window, TimeWindow::new(0, 100))
        }
        _ => panic!("expected HaveHashes"),
    }
    let local = vec![(10i64, hash(10)), (20i64, hash(20)), (30i64, hash(30)), (200i64, hash(200))];
    assert_eq!(check_ops_boom(&local, &outcome).unwrap(), vec![hash(20)]);
}

#[test]
fn empty_ops_filter_reports_every_op_missing() {
    let enc = create_ops_bloom(&vec![]);
    let f = decode_bloom_filter(&enc).unwrap();
    for n in 0..100u8 {
        assert!(!f.check(&op_key(&hash(n))));
    }
    let local = vec![(1i64, hash(1)), (2i64, hash(2)), (300i64, hash(3))];
    let outcome = EncodedTimedBloomFilter::HaveHashes {
        filter: enc,
        time_window: TimeWindow::new(0, 100),
    };
    assert_eq!(check_ops_boom(&local, &outcome).unwrap(), vec![hash(1), hash(2)]);
}
