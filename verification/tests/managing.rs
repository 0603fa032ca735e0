use lightorrent::api::{parse_hashes, AppState};
use lightorrent::engine::{AddError, AddOutcome, Engine, EngineError, RatioCheck, StatsOutcome};
use lightorrent::hex::{hex_decode, hex_encode, HexError};
use lightorrent::ip::Ip;
use lightorrent::meta::{tracker_urls, AddPlan, FileList, PlanError, TorrentMeta, V1Layout};
use lightorrent::resume::{
    new_record, plan_readd, readd_from_bytes, restore_torrent, resume_state, source_candidates,
    start_torrent, torrent_file_name, ReaddError,
};
use lightorrent::store::{
    mark_completed, modify, record_stats, row_key, stats_changed, FileMeta, Ratio, RecordEdit,
    StoreError, TorrentRecord,
};
use lightorrent::torrent::{EngineAlert, Progress, Rate, StatsSample};

const SECOND: u64 = 1_000_000_000;

/// The info hash of the torrent for `testfile.txt`.
const HASH: &str = "f3ed73a469b2d6600c6e76e9228ca7c50a60be23";

fn bencode_str(val: &[u8]) -> Vec<u8> {
    let mut out = format!("{}:", val.len()).into_bytes();
    out.extend_from_slice(val);
    out
}

/// A `.torrent` file for one file.
fn torrent_file(name: &[u8], length: usize, pieces: &[u8], private: bool, tiers: &[&[&[u8]]]) -> Vec<u8> {
    let mut info = vec![b'd'];
    info.extend(bencode_str(b"length"));
    info.extend(format!("i{length}e").as_bytes());
    info.extend(bencode_str(b"name"));
    info.extend(bencode_str(name));
    info.extend(bencode_str(b"piece length"));
    info.extend(b"i16384e");
    info.extend(bencode_str(b"pieces"));
    info.extend(bencode_str(pieces));
    if private {
        info.extend(bencode_str(b"private"));
        info.extend(b"i1e");
    }
    info.push(b'e');

    let mut torrent = vec![b'd'];
    torrent.extend(bencode_str(b"announce"));
    torrent.extend(bencode_str(b"http://tracker.invalid:6969"));
    if !tiers.is_empty() {
        torrent.extend(bencode_str(b"announce-list"));
        torrent.push(b'l');
        for tier in tiers {
            torrent.push(b'l');
            for url in *tier {
                torrent.extend(bencode_str(url));
            }
            torrent.push(b'e');
        }
        torrent.push(b'e');
    }
    torrent.extend(bencode_str(b"info"));
    torrent.extend(info);
    torrent.push(b'e');
    torrent
}

/// The SHA-1 digest of `hello torrent`.
fn digest() -> Vec<u8> {
    vec![
        0x10, 0x55, 0xfb, 0x5c, 0x4d, 0xfb, 0xba, 0x7d, 0x7c, 0xc7, 0xa1, 0x41, 0x7b, 0x96, 0x53,
        0x2a, 0x53, 0x9b, 0x36, 0xb8,
    ]
}

fn test_torrent() -> Vec<u8> {
    torrent_file(b"testfile.txt", 13, &digest(), false, &[])
}

fn multi_file_torrent() -> Vec<u8> {
    let mut t = b"d4:infod5:filesld6:lengthi5e4:pathl1:aeee4:name1:m12:piece lengthi16384e6:pieces20:".to_vec();
    t.extend([0u8; 20]);
    t.extend(b"ee");
    t
}

fn plan_for(bytes: &[u8]) -> AddPlan {
    match Engine::new().add_torrent_bytes(bytes) {
        Ok(AddOutcome::New(plan)) => plan,
        _ => panic!("the torrent should be new"),
    }
}

/// An engine that manages a torrent with the given number of pieces under handle 7.
fn engine_with(pieces: usize) -> (Engine, String) {
    let mut bytes = Vec::new();
    for i in 0..pieces {
        bytes.extend([i as u8; 20]);
    }
    let plan = plan_for(&torrent_file(b"file", pieces * 16384, &bytes, false, &[]));
    let mut engine = Engine::new();
    engine.insert(start_torrent(&plan, 7, "/dl", false, None, 0));
    (engine, plan.hash_hex)
}

fn record(hash: &str) -> TorrentRecord {
    TorrentRecord {
        info_hash_hex: hash.to_string(),
        source: "<test>".to_string(),
        save_path: "/tmp/test".to_string(),
        ratio_target: Ratio { bits: 0.0f64.to_bits() },
        added_at: 1000,
        user_paused: false,
        completed_at: None,
        category: String::new(),
        total_uploaded: 0,
        total_downloaded: 0,
        piece_bitfield: Vec::new(),
        file_mtime: None,
        file_size: None,
    }
}

#[test]
fn torrent_files_are_read_and_planned() {
    let plan = plan_for(&test_torrent());
    assert_eq!(plan.hash_hex, HASH);
    assert_eq!(hex_encode(&plan.info_hash), HASH);
    assert_eq!(plan.name, "testfile.txt");
    assert_eq!(plan.total_length, 13);
    assert_eq!(plan.piece_count, 1);
    assert_eq!(plan.piece_length, 16384);
    assert_eq!(plan.piece_hashes, digest());
    assert!(!plan.private);
    assert_eq!(plan.trackers, vec!["http://tracker.invalid:6969"]);
}

#[test]
fn names_and_trackers_are_cleaned() {
    let tiers: &[&[&[u8]]] = &[
        &[b"http://tracker.invalid:6969", b"udp://b"],
        &[b"http://c", b"udp://b", b"\xff\xfe"],
    ];
    let bytes = torrent_file(b"../../etc/passwd", 40000, &[7u8; 60], true, tiers);
    let plan = plan_for(&bytes);
    assert_eq!(plan.hash_hex, "72bd08d4ee0ed26b6f40292ba48bbc75f4a9c0fc");
    assert_eq!(plan.name, "____etc_passwd");
    assert_eq!(plan.piece_count, 3);
    assert!(plan.private);
    assert_eq!(
        plan.trackers,
        vec!["http://tracker.invalid:6969", "udp://b", "http://c"]
    );
}

#[test]
fn names_that_are_not_utf8_get_replacement_characters() {
    let plan = plan_for(&torrent_file(b"a\xffb", 13, &digest(), false, &[]));
    assert_eq!(plan.name, "a\u{fffd}b");
    let plan = plan_for(&torrent_file("caf\u{e9}".as_bytes(), 13, &digest(), false, &[]));
    assert_eq!(plan.name, "caf\u{e9}");
}

#[test]
fn torrents_that_cannot_be_managed_are_refused() {
    let engine = Engine::new();
    assert!(matches!(engine.add_torrent_bytes(b"nonsense"), Err(AddError::Parse(_))));
    assert!(matches!(
        engine.add_torrent_bytes(&multi_file_torrent()),
        Err(AddError::Plan(PlanError::MultiFile))
    ));
    let v2_only = TorrentMeta {
        v1_hash: None,
        name: b"x".to_vec(),
        piece_length: 16384,
        private: false,
        v1: None,
        announce: None,
        announce_list: None,
    };
    assert!(matches!(engine.decide_add(&v2_only), Err(PlanError::NotV1)));
    assert!(tracker_urls(&v2_only).is_empty());
    assert!(matches!(plan_readd(&[0u8; 20], &v2_only), Err(ReaddError::NotV1)));
    let no_layout = TorrentMeta { v1_hash: Some([1u8; 20]), ..v2_only };
    assert!(matches!(engine.decide_add(&no_layout), Err(PlanError::NotV1)));
    assert!(matches!(plan_readd(&[1u8; 20], &no_layout), Err(ReaddError::NotV1)));
}

#[test]
fn piece_count_is_that_of_the_digests() {
    let meta = TorrentMeta {
        v1_hash: Some([9u8; 20]),
        name: b"x".to_vec(),
        piece_length: 4,
        private: true,
        v1: Some(V1Layout { pieces: vec![1u8; 59], files: FileList::Single(10) }),
        announce: None,
        announce_list: Some(vec![vec![b"u".to_vec(), b"u".to_vec()]]),
    };
    match Engine::new().decide_add(&meta) {
        Ok(AddOutcome::New(plan)) => {
            assert_eq!(plan.piece_count, 2);
            assert_eq!(plan.trackers, vec!["u"]);
            assert_eq!(plan.total_length, 10);
        }
        _ => panic!("the torrent should be new"),
    }
}

#[test]
fn adding_twice_is_reported() {
    let mut engine = Engine::new();
    let plan = plan_for(&test_torrent());
    engine.insert(start_torrent(&plan, 1, "/dl", false, None, 0));
    match engine.add_torrent_bytes(&test_torrent()) {
        Ok(AddOutcome::AlreadyManaged(h)) => assert_eq!(h, HASH),
        _ => panic!("the torrent should be managed already"),
    }
    assert!(engine.knows_id(1));
    assert!(!engine.knows_id(2));
    // Once deleted, it can be added again.
    assert_eq!(engine.delete_torrent(HASH), Ok((1, plan.info_hash)));
    assert!(!engine.knows_id(1));
    assert!(matches!(engine.add_torrent_bytes(&test_torrent()), Ok(AddOutcome::New(_))));
}

#[test]
fn torrents_pause_and_resume() {
    let (mut engine, hash) = engine_with(2);
    assert!(!engine.snapshot(&hash).unwrap().paused);
    assert_eq!(engine.pause_torrent(&hash), Ok(7));
    assert!(engine.snapshot(&hash).unwrap().paused);
    assert_eq!(engine.apply_alerts(&[EngineAlert::Error { torrent: 7 }]), Ok(()));
    assert!(engine.snapshot(&hash).unwrap().has_error);
    assert_eq!(engine.resume_torrent(&hash), Ok(7));
    let snap = engine.snapshot(&hash).unwrap();
    assert!(!snap.paused && !snap.has_error);
}

#[test]
fn unknown_torrents_are_reported() {
    let (mut engine, _) = engine_with(1);
    let other = "0000000000000000000000000000000000000000";
    assert_eq!(engine.pause_torrent(other), Err(EngineError::NotFound));
    assert_eq!(engine.resume_torrent(other), Err(EngineError::NotFound));
    assert_eq!(engine.delete_torrent(other), Err(EngineError::NotFound));
    assert_eq!(engine.pause_torrent("abc"), Err(EngineError::BadHash(HexError::Length(3))));
    assert!(engine.snapshot(other).is_none());
    assert!(engine.snapshot("badhash").is_none());
    assert!(matches!(engine.get_files(other), Err(EngineError::NotFound)));
    assert_eq!(engine.snapshot_all().len(), 1);
}

#[test]
fn capital_letters_find_a_torrent_too() {
    let (engine, hash) = engine_with(1);
    assert!(engine.snapshot(&hash.to_uppercase()).is_some());
}

#[test]
fn files_show_name_size_and_progress() {
    let (mut engine, hash) = engine_with(4);
    let _ = engine.apply_alerts(&[EngineAlert::PieceCompleted { torrent: 7, piece: 2 }]);
    let file = engine.get_files(&hash).ok().unwrap();
    assert_eq!(file.name, "file");
    assert_eq!(file.size, 4 * 16384);
    assert_eq!(file.progress, Progress { have: 1, count: 4 });
}

#[test]
fn alerts_change_only_their_torrent() {
    let (mut engine, hash) = engine_with(10);
    let batch = vec![
        EngineAlert::PieceCompleted { torrent: 7, piece: 0 },
        EngineAlert::PieceCompleted { torrent: 7, piece: 9 },
        EngineAlert::PeerConnected { torrent: 7 },
        EngineAlert::PeerConnected { torrent: 7 },
        EngineAlert::PeerDisconnected { torrent: 7 },
        EngineAlert::PieceCompleted { torrent: 8, piece: 1 },
        EngineAlert::TorrentComplete { torrent: 8 },
        EngineAlert::Other,
    ];
    let outcome = engine.handle_batch(&batch).ok().unwrap();
    assert!(outcome.completed.is_empty());
    assert!(!outcome.needs_reconciliation);
    assert!(!outcome.has_stats_update);
    let snap = engine.snapshot(&hash).unwrap();
    assert_eq!(snap.progress, Progress { have: 2, count: 10 });
    assert_eq!(snap.progress_bytes, 2 * 16384);
    assert_eq!(snap.peer_count, 1);
    assert!(!snap.completed);
    assert_eq!(engine.stats_records()[0].bitfield, vec![0x80, 0x40]);
}

#[test]
fn a_batch_keeps_piece_counts_and_bitfields_together() {
    let (mut engine, hash) = engine_with(9);
    let batch = [
        EngineAlert::PieceCompleted { torrent: 7, piece: 8 },
        EngineAlert::Error { torrent: 7 },
        EngineAlert::StatsUpdate,
        EngineAlert::PieceCompleted { torrent: 99, piece: 0 },
        EngineAlert::PieceCompleted { torrent: 7, piece: 0 },
        EngineAlert::TorrentComplete { torrent: 7 },
        EngineAlert::PeerDisconnected { torrent: 7 },
    ];
    assert_eq!(engine.apply_alerts(&batch), Ok(()));
    assert_eq!(engine.stats_records()[0].bitfield, vec![0x80, 0x80]);
    assert_eq!(engine.apply_alerts(&[EngineAlert::PieceCompleted { torrent: 7, piece: 3 }]), Ok(()));
    assert_eq!(engine.stats_records()[0].bitfield, vec![0x90, 0x80]);
    let snap = engine.snapshot(&hash).unwrap();
    assert_eq!(snap.progress, Progress { have: 3, count: 9 });
    assert!(snap.completed && snap.has_error);
    assert_eq!(snap.peer_count, 0);
}

#[test]
fn a_batch_tells_what_else_is_to_be_done() {
    let (mut engine, hash) = engine_with(1);
    let batch = [
        EngineAlert::StatsUpdate,
        EngineAlert::TorrentComplete { torrent: 7 },
        EngineAlert::Dropped,
    ];
    let outcome = engine.handle_batch(&batch).ok().unwrap();
    assert_eq!(outcome.completed, vec![hex_decode(&hash).unwrap()]);
    assert!(outcome.needs_reconciliation);
    assert!(outcome.has_stats_update);
    assert!(engine.snapshot(&hash).unwrap().completed);
}

#[test]
fn peers_never_go_below_none() {
    let (mut engine, hash) = engine_with(1);
    let _ = engine.apply_alerts(&[EngineAlert::PeerDisconnected { torrent: 7 }]);
    assert_eq!(engine.snapshot(&hash).unwrap().peer_count, 0);
}

#[test]
fn a_counter_that_would_overflow_stops_the_batch() {
    let (mut engine, hash) = engine_with(1);
    engine.reconcile_peers(&[(hex_decode(&hash).unwrap(), usize::MAX), ([0u8; 20], 3)]);
    let batch = [
        EngineAlert::Error { torrent: 7 },
        EngineAlert::PeerConnected { torrent: 7 },
        EngineAlert::TorrentComplete { torrent: 7 },
    ];
    assert_eq!(engine.apply_alerts(&batch), Err(1));
    let snap = engine.snapshot(&hash).unwrap();
    assert!(snap.has_error);
    assert!(!snap.completed);
    assert_eq!(snap.peer_count, usize::MAX);
}

#[test]
fn samples_give_speeds_totals_and_a_ratio() {
    let (mut engine, hash) = engine_with(1);
    let key = hex_decode(&hash).unwrap();
    let sample = StatsSample { downloaded: 500, uploaded: 300, peer_count: Some(4) };
    match engine.apply_stats(&key, &sample, 2 * SECOND) {
        StatsOutcome::Applied(stats, check) => {
            assert_eq!(stats.hash, key);
            assert_eq!(stats.cum_up, 300);
            assert_eq!(stats.cum_dl, 500);
            assert_eq!(stats.save_path, "/dl");
            assert_eq!(stats.name, "file");
            assert_eq!(check, Some(RatioCheck { uploaded: 300, size: 16384 }));
        }
        _ => panic!("the sample should be applied"),
    }
    let snap = engine.snapshot(&hash).unwrap();
    assert_eq!(snap.dl_speed, Rate { bytes: 500, nanos: 2 * SECOND });
    assert_eq!(snap.up_speed, Rate { bytes: 300, nanos: 2 * SECOND });
    assert_eq!(snap.peer_count, 4);

    // A tenth of a second later is too soon for a new speed, but the totals move.
    let sample = StatsSample { downloaded: 600, uploaded: 300, peer_count: None };
    let _ = engine.apply_stats(&key, &sample, 2 * SECOND + 100_000_000);
    let snap = engine.snapshot(&hash).unwrap();
    assert_eq!(snap.dl_speed, Rate { bytes: 500, nanos: 2 * SECOND });
    assert_eq!(snap.downloaded, 600);
    assert_eq!(snap.peer_count, 4);

    // One nanosecond more is not. A total that went down counts as no movement.
    let sample = StatsSample { downloaded: 650, uploaded: 100, peer_count: None };
    let _ = engine.apply_stats(&key, &sample, 2 * SECOND + 100_000_001);
    let snap = engine.snapshot(&hash).unwrap();
    assert_eq!(snap.dl_speed, Rate { bytes: 150, nanos: 100_000_001 });
    assert_eq!(snap.up_speed, Rate { bytes: 0, nanos: 100_000_001 });
}

#[test]
fn samples_are_applied_together() {
    let one = plan_for(&test_torrent());
    let two = plan_for(&torrent_file(b"testfile2.txt", 15, &[0u8; 20], false, &[]));
    let mut engine = Engine::new();
    engine.insert(start_torrent(&one, 1, "/dl", false, None, 0));
    engine.insert(start_torrent(&two, 2, "/dl", true, None, 0));
    let sample = |uploaded: u64| StatsSample { downloaded: 0, uploaded, peer_count: None };
    let list = engine
        .apply_samples(
            &[
                (one.info_hash, sample(26)),
                ([0u8; 20], sample(1)),
                (two.info_hash, sample(30)),
            ],
            SECOND,
        )
        .ok()
        .unwrap();
    assert_eq!(list.len(), 2);
    assert_eq!(list[0].stats.hash, one.info_hash);
    assert_eq!(list[0].check, Some(RatioCheck { uploaded: 26, size: 13 }));
    assert_eq!(list[1].stats.cum_up, 30);
    assert_eq!(list[1].check, None);

    assert_eq!(engine.pause_reached(&[one.info_hash, [0u8; 20]]), vec![1]);
    assert!(engine.snapshot(HASH).unwrap().paused);
    assert!(engine.pause_reached(&[]).is_empty());
}

#[test]
fn a_total_that_would_overflow_stops_the_samples() {
    let plan = plan_for(&test_torrent());
    let mut engine = Engine::new();
    let mut old = record(HASH);
    old.total_downloaded = 1;
    engine.insert(start_torrent(&plan, 1, "/dl", false, Some(&old), 0));
    let good = StatsSample { downloaded: 5, uploaded: 5, peer_count: None };
    let bad = StatsSample { downloaded: u64::MAX, uploaded: 5, peer_count: None };
    let result = engine.apply_samples(&[(plan.info_hash, good), (plan.info_hash, bad)], SECOND);
    assert_eq!(result.err(), Some(1));
    assert_eq!(engine.snapshot(HASH).unwrap().downloaded, 6);
}

#[test]
fn paused_torrents_have_no_ratio_to_check() {
    let (mut engine, hash) = engine_with(1);
    let key = hex_decode(&hash).unwrap();
    assert_eq!(engine.pause_for_ratio(&key), Some(7));
    assert_eq!(engine.pause_for_ratio(&[0u8; 20]), None);
    assert!(engine.snapshot(&hash).unwrap().paused);
    let sample = StatsSample { downloaded: 0, uploaded: 1 << 40, peer_count: None };
    assert!(matches!(
        engine.apply_stats(&key, &sample, SECOND),
        StatsOutcome::Applied(_, None)
    ));
    assert!(matches!(
        engine.apply_stats(&[0u8; 20], &sample, SECOND),
        StatsOutcome::Unknown
    ));
}

#[test]
fn totals_that_do_not_fit_are_refused() {
    let plan = plan_for(&test_torrent());
    let mut engine = Engine::new();
    let mut old = record(HASH);
    old.total_uploaded = u64::MAX - 5;
    engine.insert(start_torrent(&plan, 1, "/dl", false, Some(&old), 0));
    let sample = StatsSample { downloaded: 0, uploaded: 6, peer_count: None };
    assert!(matches!(
        engine.apply_stats(&plan.info_hash, &sample, SECOND),
        StatsOutcome::Overflow
    ));
    let sample = StatsSample { downloaded: 0, uploaded: 5, peer_count: None };
    assert!(matches!(
        engine.apply_stats(&plan.info_hash, &sample, SECOND),
        StatsOutcome::Applied(_, _)
    ));
    assert_eq!(engine.snapshot(HASH).unwrap().uploaded, u64::MAX);
}

#[test]
fn speeds_expire_after_three_seconds() {
    let (mut engine, hash) = engine_with(1);
    let key = hex_decode(&hash).unwrap();
    let sample = StatsSample { downloaded: 10, uploaded: 20, peer_count: None };
    let _ = engine.apply_stats(&key, &sample, SECOND);
    engine.expire_speeds(4 * SECOND);
    assert_eq!(engine.snapshot(&hash).unwrap().up_speed.bytes, 20);
    engine.expire_speeds(4 * SECOND + 1);
    let snap = engine.snapshot(&hash).unwrap();
    assert_eq!(snap.up_speed, Rate::zero());
    assert_eq!(snap.dl_speed, Rate::zero());
    assert_eq!(snap.uploaded, 20);
}

#[test]
fn progress_bytes_never_exceed_the_size() {
    let plan = plan_for(&test_torrent());
    let mut engine = Engine::new();
    engine.insert(start_torrent(&plan, 1, "/dl", true, None, 0));
    let _ = engine.apply_alerts(&[EngineAlert::PieceCompleted { torrent: 1, piece: 0 }]);
    let snap = engine.snapshot(HASH).unwrap();
    assert_eq!(snap.progress_bytes, 13);
    assert_eq!(snap.total_bytes, 13);
    assert_eq!(snap.hash, HASH);
    assert!(snap.paused);
}

#[test]
fn every_torrent_is_listed_once() {
    let one = plan_for(&test_torrent());
    let two = plan_for(&torrent_file(b"testfile2.txt", 15, &[0u8; 20], false, &[]));
    let mut engine = Engine::new();
    engine.insert(start_torrent(&one, 1, "/dl", false, None, 0));
    engine.insert(start_torrent(&two, 2, "/dl", false, None, 0));
    let mut ids = engine.torrent_ids();
    ids.sort();
    assert_eq!(ids, vec![(1, one.info_hash), (2, two.info_hash)]);
    let mut hashes = engine.torrent_hashes();
    hashes.sort();
    let mut expected = vec![one.hash_hex.clone(), two.hash_hex.clone()];
    expected.sort();
    assert_eq!(hashes, expected);
    assert_eq!(engine.stats_records().len(), 2);
    let mut all = parse_hashes(&engine, "all");
    all.sort();
    assert_eq!(all, expected);
    assert_eq!(
        parse_hashes(&engine, &format!("abc|{}||{}|{}", one.hash_hex, two.hash_hex, "ALL")),
        vec![one.hash_hex.clone(), two.hash_hex.clone()]
    );
    assert!(parse_hashes(&engine, "").is_empty());
}

#[test]
fn requests_about_one_torrent_are_checked() {
    let (engine, hash) = engine_with(1);
    let mut state = AppState::new("/dl".to_string());
    let _ = state.accept_login(Ip::V4(1), "s".to_string(), 0);
    let c = Some("SID=s");
    let other = "0000000000000000000000000000000000000000";
    assert!(matches!(state.find_snapshot(&engine, c, 0, None), Err(400)));
    assert!(matches!(state.find_files(&engine, c, 0, None), Err(400)));
    for bad in ["badhash", "zzzz", "../../etc/passwd", "XXXXXXXXXXXXXXXXXXXXXXXXXXXXXXXXXXXXXXXX"] {
        assert!(matches!(state.find_snapshot(&engine, c, 0, Some(bad)), Err(400)));
        assert!(matches!(state.find_files(&engine, c, 0, Some(bad)), Err(400)));
    }
    assert!(matches!(state.find_snapshot(&engine, c, 0, Some(other)), Err(404)));
    assert!(matches!(state.find_files(&engine, c, 0, Some(other)), Err(404)));
    assert_eq!(state.find_snapshot(&engine, c, 0, Some(&hash)).ok().unwrap().hash, hash);
    assert_eq!(state.find_files(&engine, c, 0, Some(&hash)).ok().unwrap().name, "file");
    assert_eq!(state.select_torrents(&engine, c, 0, "all"), Ok(vec![hash]));
}

#[test]
fn records_are_edited_one_field_at_a_time() {
    let rec = record(HASH);
    let rec = modify(Some(rec), RecordEdit::RatioTarget(Ratio { bits: 2.5f64.to_bits() })).ok().unwrap();
    assert_eq!(f64::from_bits(rec.ratio_target.bits), 2.5);
    let rec = modify(Some(rec), RecordEdit::UserPaused(true)).ok().unwrap();
    assert!(rec.user_paused);
    let rec = modify(Some(rec), RecordEdit::Category("radarr".to_string())).ok().unwrap();
    assert_eq!(rec.category, "radarr");
    assert_eq!(f64::from_bits(rec.ratio_target.bits), 2.5);
    assert!(rec.user_paused);
    assert_eq!(rec.source, "<test>");
}

#[test]
fn records_that_are_missing_cannot_be_edited() {
    assert!(matches!(
        modify(None, RecordEdit::RatioTarget(Ratio { bits: 1.0f64.to_bits() })),
        Err(StoreError::NotFound)
    ));
    assert!(matches!(modify(None, RecordEdit::UserPaused(true)), Err(StoreError::NotFound)));
    assert!(matches!(
        modify(None, RecordEdit::Category("movies".to_string())),
        Err(StoreError::NotFound)
    ));
    assert_eq!(row_key(&[3u8; 20]), Ok([3u8; 20]));
    assert_eq!(row_key(&[3u8; 19]), Err(StoreError::KeyLength));
}

#[test]
fn ratios_are_positive_as_floating_point_numbers_are() {
    for x in [2.0f64, 0.001, f64::MIN_POSITIVE, 5e-324, f64::INFINITY, f64::MAX] {
        assert!(Ratio { bits: x.to_bits() }.is_positive());
    }
    for x in [0.0f64, -0.0, -1.0, f64::NAN, f64::NEG_INFINITY] {
        assert!(!Ratio { bits: x.to_bits() }.is_positive());
    }
}

#[test]
fn only_positive_targets_are_limits() {
    let mut rec = record(HASH);
    assert_eq!(rec.ratio_limit(), None);
    rec.ratio_target = Ratio { bits: (-1.0f64).to_bits() };
    assert_eq!(rec.ratio_limit(), None);
    rec.ratio_target = Ratio { bits: 2.0f64.to_bits() };
    assert_eq!(rec.ratio_limit(), Some(Ratio { bits: 2.0f64.to_bits() }));
}

#[test]
fn the_same_sample_twice_changes_nothing_more() {
    let (mut engine, hash) = engine_with(1);
    let key = hex_decode(&hash).unwrap();
    let sample = StatsSample { downloaded: 10, uploaded: 20, peer_count: Some(1) };
    let _ = engine.apply_stats(&key, &sample, SECOND);
    let first = engine.snapshot(&hash).unwrap();
    let _ = engine.apply_stats(&key, &sample, SECOND);
    let second = engine.snapshot(&hash).unwrap();
    assert_eq!(first.up_speed, second.up_speed);
    assert_eq!(first.dl_speed, second.dl_speed);
    assert_eq!((first.uploaded, first.downloaded), (second.uploaded, second.downloaded));
}

#[test]
fn the_first_completion_time_stays() {
    let rec = mark_completed(record(HASH), 2000).unwrap();
    assert_eq!(rec.completed_at, Some(2000));
    assert!(mark_completed(rec, 3000).is_none());
}

#[test]
fn figures_are_written_when_they_change() {
    let (mut engine, hash) = engine_with(9);
    let key = hex_decode(&hash).unwrap();
    let _ = engine.apply_alerts(&[EngineAlert::PieceCompleted { torrent: 7, piece: 8 }]);
    let sample = StatsSample { downloaded: 11, uploaded: 22, peer_count: None };
    let _ = engine.apply_stats(&key, &sample, SECOND);
    let stats = engine.stats_records().remove(0);
    let rec = record(&hash);
    assert!(stats_changed(&rec, &stats));
    let file = Some(FileMeta { mtime: Some(1_700_000_000), size: 13 });
    let rec = record_stats(rec, &stats, file);
    assert_eq!(rec.total_uploaded, 22);
    assert_eq!(rec.total_downloaded, 11);
    assert_eq!(rec.piece_bitfield, vec![0x00, 0x80]);
    assert_eq!(rec.file_mtime, Some(1_700_000_000));
    assert_eq!(rec.file_size, Some(13));
    assert!(!stats_changed(&rec, &stats));
    // Without a file, what is known of it stays.
    let rec = record_stats(rec, &stats, None);
    assert_eq!(rec.file_size, Some(13));
}

#[test]
fn writing_figures_never_lowers_a_total() {
    let (engine, hash) = engine_with(1);
    let stats = engine.stats_records().remove(0);
    let mut rec = record(&hash);
    rec.total_uploaded = 12_345;
    rec.piece_bitfield = stats.bitfield.clone();
    assert!(!stats_changed(&rec, &stats), "a smaller total is no change");
    rec.piece_bitfield = Vec::new();
    assert!(stats_changed(&rec, &stats));
    let rec = record_stats(rec, &stats, None);
    assert_eq!(rec.total_uploaded, 12_345);
    assert_eq!(rec.total_downloaded, 0);
    assert_eq!(rec.piece_bitfield, vec![0x00]);
}

#[test]
fn partial_torrents_resume_where_they_left_off() {
    let (mut engine, hash) = engine_with(10);
    let key = hex_decode(&hash).unwrap();
    let _ = engine.apply_alerts(&[
        EngineAlert::PieceCompleted { torrent: 7, piece: 1 },
        EngineAlert::PieceCompleted { torrent: 7, piece: 9 },
    ]);
    let sample = StatsSample { downloaded: 70, uploaded: 50, peer_count: None };
    let _ = engine.apply_stats(&key, &sample, SECOND);
    let file = FileMeta { mtime: Some(1_700_000_000), size: 163_840 };
    let mut first = record(&hash);
    first.user_paused = true;
    let rec = record_stats(first, &engine.stats_records().remove(0), Some(file));

    let pieces = resume_state(&rec, 10, Some(file));
    assert_eq!(pieces.pieces_have, 2);
    assert_eq!(pieces.bitfield, vec![0x40, 0x40]);
    assert_eq!(
        pieces.initial_have,
        vec![false, true, false, false, false, false, false, false, false, true]
    );
    assert!(!pieces.completed);

    let mut bytes = Vec::new();
    for i in 0..10u8 {
        bytes.extend([i; 20]);
    }
    let data = torrent_file(b"file", 10 * 16384, &bytes, false, &[]);
    let plan = readd_from_bytes(&key, &data).ok().unwrap();
    let mut again = Engine::new();
    again.insert(restore_torrent(&plan, 1, &rec, pieces, 5));
    let snap = again.snapshot(&hash).unwrap();
    assert_eq!(snap.uploaded, 50);
    assert_eq!(snap.downloaded, 70);
    assert_eq!(snap.progress, Progress { have: 2, count: 10 });
    assert!(snap.paused);
}

#[test]
fn a_changed_file_is_downloaded_again() {
    let mut rec = record(HASH);
    rec.piece_bitfield = vec![0x80];
    rec.file_mtime = Some(1_700_000_000);
    rec.file_size = Some(13);
    let same = FileMeta { mtime: Some(1_700_000_000), size: 13 };
    assert_eq!(resume_state(&rec, 1, Some(same)).pieces_have, 1);
    for file in [
        None,
        Some(FileMeta { mtime: Some(1_700_000_001), size: 13 }),
        Some(FileMeta { mtime: Some(1_700_000_000), size: 14 }),
        Some(FileMeta { mtime: None, size: 13 }),
    ] {
        let pieces = resume_state(&rec, 1, file);
        assert_eq!(pieces.pieces_have, 0);
        assert_eq!(pieces.bitfield, vec![0x00]);
        assert!(pieces.initial_have.is_empty());
    }
    // A bitfield of the wrong size is of no use.
    assert_eq!(resume_state(&rec, 9, Some(same)).pieces_have, 0);
    // A time that cannot be told counts as the epoch.
    rec.file_mtime = Some(0);
    assert_eq!(
        resume_state(&rec, 1, Some(FileMeta { mtime: None, size: 13 })).pieces_have,
        1
    );
}

#[test]
fn complete_torrents_resume_complete() {
    let mut rec = record(HASH);
    rec.completed_at = Some(1000);
    let pieces = resume_state(&rec, 9, None);
    assert!(pieces.completed);
    assert_eq!(pieces.pieces_have, 9);
    assert_eq!(pieces.initial_have, vec![true; 9]);
    assert_eq!(pieces.bitfield, vec![0xff, 0x80]);
}

#[test]
fn paused_torrents_are_taken_up_paused() {
    let plan = plan_for(&test_torrent());
    for paused in [true, false] {
        let rec = modify(Some(record(HASH)), RecordEdit::UserPaused(paused)).unwrap();
        let pieces = resume_state(&rec, plan.piece_count, None);
        let again = restore_torrent(&plan, 7, &rec, pieces, 0);
        assert_eq!(again.paused, paused);
        assert!(!again.completed);
    }
    let rec = mark_completed(record(HASH), 99).unwrap();
    let pieces = resume_state(&rec, plan.piece_count, None);
    let again = restore_torrent(&plan, 7, &rec, pieces, 0);
    assert!(again.completed);
    assert_eq!(again.pieces_have, plan.piece_count);
}

#[test]
fn a_torrent_alone_can_be_deleted_and_added_again() {
    let (mut engine, hash) = engine_with(1);
    assert_eq!(engine.delete_torrent(&hash).unwrap().1, hex_decode(&hash).unwrap());
    assert!(engine.snapshot(&hash).is_none());
    assert!(engine.torrent_hashes().is_empty());
    assert!(matches!(engine.add_torrent_bytes(&test_torrent()), Ok(AddOutcome::New(_))));
}

#[test]
fn only_the_right_torrent_is_taken_up_again() {
    let key = hex_decode(HASH).unwrap();
    assert!(readd_from_bytes(&key, &test_torrent()).is_ok());
    match readd_from_bytes(&[0u8; 20], &test_torrent()) {
        Err(ReaddError::HashMismatch(actual)) => assert_eq!(actual, HASH),
        _ => panic!("the hash should not match"),
    }
    assert!(matches!(readd_from_bytes(&key, b"x"), Err(ReaddError::Parse(_))));
    let multi = hex_decode("bd55f556def3f2c56754e26423e0ccd0d69a8122").unwrap();
    assert!(matches!(
        readd_from_bytes(&multi, &multi_file_torrent()),
        Err(ReaddError::MultiFile)
    ));
}

#[test]
fn new_records_carry_over_old_totals() {
    let plan = plan_for(&test_torrent());
    let rec = new_record(&plan, "/s/x.torrent", "/dl", "tv", true, None, 1234);
    assert_eq!(rec.info_hash_hex, HASH);
    assert_eq!(rec.source, "/s/x.torrent");
    assert_eq!(rec.save_path, "/dl");
    assert_eq!(rec.category, "tv");
    assert_eq!(rec.added_at, 1234);
    assert!(rec.user_paused);
    assert_eq!(f64::from_bits(rec.ratio_target.bits), 0.0);
    assert_eq!(rec.completed_at, None);
    assert_eq!((rec.total_uploaded, rec.total_downloaded), (0, 0));
    let mut old = record(HASH);
    old.total_uploaded = 5;
    old.total_downloaded = 6;
    let rec = new_record(&plan, "", "", "", false, Some(&old), 1);
    assert_eq!((rec.total_uploaded, rec.total_downloaded), (5, 6));
    let t = start_torrent(&plan, 3, "/dl", false, Some(&old), 9);
    assert_eq!((t.persisted_uploaded, t.persisted_downloaded), (5, 6));
}

#[test]
fn torrent_data_is_looked_for_in_order() {
    assert_eq!(
        torrent_file_name(&hex_decode(HASH).unwrap()),
        format!("{HASH}.torrent")
    );
    let mut rec = record(HASH);
    rec.source = "/old/x.torrent".to_string();
    let kept = format!("./s/{HASH}.torrent");
    assert_eq!(source_candidates("./s", &rec), vec![kept.clone(), "/old/x.torrent".to_string()]);
    for source in ["http://x/y", "magnet:?xt=1", "<test>"] {
        rec.source = source.to_string();
        assert_eq!(source_candidates("./s", &rec), vec![kept.clone()]);
    }
}
