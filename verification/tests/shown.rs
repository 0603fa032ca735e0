use lightorrent::add::{
    append_chunk, check_fetch_head, check_fetch_size, AddForm, FetchError, MAX_TORRENT_BYTES,
    MULTIPART_FIELD_MAX_BYTES,
};
use lightorrent::config::{parse_port, Config, ConfigError, ConfigFile, EnvOverrides};
use lightorrent::ip::Ip;
use lightorrent::store::{modify, Ratio, RecordEdit, TorrentRecord};
use lightorrent::torrent::{Progress, Rate, TorrentSnapshot};
use lightorrent::version_string;
use lightorrent::views::{
    amount_left, filter_entries, map_state, torrent_entry, torrent_list, torrent_properties,
    transfer_totals, TransferItem, TransferTotals,
};

fn rate(bytes_per_second: f64) -> Rate {
    Rate { bytes: bytes_per_second as u64, nanos: 1_000_000_000 }
}

fn make_snap(
    completed: bool,
    paused: bool,
    has_error: bool,
    dl_speed: f64,
    up_speed: f64,
) -> TorrentSnapshot {
    TorrentSnapshot {
        info_hash: [0; 20],
        hash: String::new(),
        name: String::new(),
        total_bytes: 100,
        piece_length: 262144,
        progress: Progress { have: 0, count: 1 },
        progress_bytes: 0,
        uploaded: 0,
        downloaded: 0,
        dl_speed: rate(dl_speed),
        up_speed: rate(up_speed),
        peer_count: 0,
        completed,
        paused,
        has_error,
    }
}

fn make_record() -> TorrentRecord {
    TorrentRecord {
        info_hash_hex: String::new(),
        source: String::new(),
        save_path: String::new(),
        ratio_target: Ratio { bits: 2.0f64.to_bits() },
        added_at: 1000,
        user_paused: false,
        completed_at: Some(2000),
        category: "sonarr".to_string(),
        total_uploaded: 0,
        total_downloaded: 0,
        piece_bitfield: Vec::new(),
        file_mtime: None,
        file_size: None,
    }
}

#[test]
fn test_map_state_all_branches() {
    let cases: Vec<(bool, bool, bool, f64, f64, &str)> = vec![
        // completed, paused, error, dl, up, expected
        (false, true, true, 0.0, 0.0, "pausedDL"), // paused takes priority over error
        (false, false, true, 0.0, 0.0, "error"),
        (true, true, false, 0.0, 0.0, "pausedUP"),
        (false, true, false, 0.0, 0.0, "pausedDL"),
        (true, false, false, 0.0, 5.0, "uploading"),
        (true, false, false, 0.0, 0.0, "stalledUP"),
        (false, false, false, 5.0, 0.0, "downloading"),
        (false, false, false, 0.0, 0.0, "stalledDL"),
    ];

    for (completed, paused, has_error, dl_speed, up_speed, expected) in &cases {
        let snap = make_snap(*completed, *paused, *has_error, *dl_speed, *up_speed);
        let result = map_state(&snap);
        assert_eq!(
            result, *expected,
            "map_state(completed={}, paused={}, error={}, dl={}, up={}) = {:?}, expected {:?}",
            completed, paused, has_error, dl_speed, up_speed, result, expected
        );
    }
}

#[test]
fn entries_show_figures_and_record() {
    let mut snap = make_snap(true, false, false, 0.0, 5.0);
    snap.hash = "ab".to_string();
    snap.name = "film".to_string();
    snap.progress_bytes = 60;
    snap.uploaded = 7;
    snap.downloaded = 8;
    snap.peer_count = 3;
    let rec = make_record();
    let e = torrent_entry(&snap, Some(&rec), 42, 2010, "/dl");
    assert_eq!(e.hash, "ab");
    assert_eq!(e.name, "film");
    assert_eq!(e.size, 100);
    assert_eq!(e.amount_left, 40);
    assert_eq!(amount_left(&snap), 40);
    assert_eq!(e.state, "uploading");
    assert_eq!(e.save_path, "/dl");
    assert_eq!(e.content_path, "/dl/film");
    assert_eq!((e.uploaded, e.downloaded), (7, 8));
    assert_eq!(e.added_on, 1000);
    assert_eq!(e.completion_on, 2000);
    assert_eq!(e.category, "sonarr");
    assert_eq!((e.num_seeds, e.num_leechs), (0, 3));
    assert_eq!(e.eta, 42);
    assert_eq!(e.ratio_limit, Some(Ratio { bits: 2.0f64.to_bits() }));
    assert_eq!(e.seeding_time, 10);
    assert_eq!(e.last_activity, 2010);
    assert!(!e.stopped);
}

#[test]
fn entries_without_a_record_show_defaults() {
    let mut snap = make_snap(false, true, false, 0.0, 0.0);
    snap.peer_count = 3;
    let e = torrent_entry(&snap, None, 0, 500, "/dl");
    assert_eq!(e.added_on, 0);
    assert_eq!(e.completion_on, 0);
    assert_eq!(e.seeding_time, 0);
    assert_eq!(e.category, "");
    assert_eq!(e.ratio_limit, None);
    assert_eq!((e.num_seeds, e.num_leechs), (3, 0));
    assert!(e.stopped);
    // A complete torrent that is not on record as complete is taken to be so just now.
    let snap = make_snap(true, false, false, 0.0, 0.0);
    let e = torrent_entry(&snap, None, 0, 500, "/dl");
    assert_eq!(e.completion_on, 500);
    assert_eq!(e.seeding_time, 0);
}

#[test]
fn entries_show_what_was_set() {
    let snap = make_snap(false, false, false, 0.0, 0.0);
    let ratio = Ratio { bits: 1.5f64.to_bits() };
    let rec = modify(Some(make_record()), RecordEdit::RatioTarget(ratio)).unwrap();
    let entry = torrent_entry(&snap, Some(&rec), 0, 5000, "/dl");
    assert_eq!(entry.ratio_limit, Some(ratio));

    let none = Ratio { bits: (-1.0f64).to_bits() };
    let rec = modify(Some(rec), RecordEdit::RatioTarget(none)).unwrap();
    let rec = modify(Some(rec), RecordEdit::Category("radarr".to_string())).unwrap();
    let entry = torrent_entry(&snap, Some(&rec), 0, 5000, "/dl");
    assert_eq!(entry.ratio_limit, None);
    assert_eq!(entry.category, "radarr");
}

#[test]
fn categories_filter_the_list() {
    let list = || {
        let snap = make_snap(false, false, false, 0.0, 0.0);
        let mut one = make_record();
        let mut two = make_record();
        one.category = "sonarr".to_string();
        two.category = "radarr".to_string();
        vec![
            torrent_entry(&snap, Some(&one), 1, 0, "/dl"),
            torrent_entry(&snap, Some(&two), 2, 0, "/dl"),
            torrent_entry(&snap, Some(&one), 3, 0, "/dl"),
        ]
    };
    let etas = |category: Option<&str>| -> Vec<i64> {
        filter_entries(list(), category).iter().map(|e| e.eta).collect()
    };
    assert_eq!(etas(None), vec![1, 2, 3]);
    assert_eq!(etas(Some("")), vec![1, 2, 3]);
    assert_eq!(etas(Some("sonarr")), vec![1, 3]);
    assert_eq!(etas(Some("radarr")), vec![2]);
    assert_eq!(etas(Some("other")), Vec::<i64>::new());
}

#[test]
fn the_list_shows_each_torrent_with_its_record() {
    let mut snaps = Vec::new();
    for n in 0..3u8 {
        let mut snap = make_snap(false, false, false, 0.0, 0.0);
        snap.hash = format!("{n}");
        snaps.push(snap);
    }
    let mut other = make_record();
    other.category = "radarr".to_string();
    let records = vec![Some(make_record()), None, Some(other)];
    let hashes = |category: Option<&str>| -> Vec<(String, i64, String)> {
        torrent_list(&snaps, &records, &[10, 20, 30], 5000, "/dl", category)
            .into_iter()
            .map(|e| (e.hash, e.eta, e.category))
            .collect()
    };
    let first = ("0".to_string(), 10, "sonarr".to_string());
    let second = ("1".to_string(), 20, String::new());
    let third = ("2".to_string(), 30, "radarr".to_string());
    assert_eq!(hashes(None), vec![first.clone(), second, third.clone()]);
    assert_eq!(hashes(Some("sonarr")), vec![first]);
    assert_eq!(hashes(Some("radarr")), vec![third]);
}

#[test]
fn properties_show_dates() {
    let snap = make_snap(true, false, false, 5.0, 0.0);
    let rec = make_record();
    let p = torrent_properties(&snap, Some(&rec), 2010, "/dl");
    assert_eq!(p.save_path, "/dl");
    assert_eq!(p.piece_size, 262144);
    assert_eq!(p.addition_date, 1000);
    assert_eq!(p.time_elapsed, 1010);
    assert_eq!(p.completion_date, 2000);
    assert_eq!(p.seeding_time, 10);
    assert_eq!(p.dl_speed, rate(5.0));
    let p = torrent_properties(&snap, None, 2010, "/dl");
    assert_eq!(p.addition_date, 0);
    assert_eq!(p.time_elapsed, 0);
    assert_eq!(p.completion_date, -1);
    assert_eq!(p.seeding_time, 0);
    // A clock that has gone back gives no negative times.
    let p = torrent_properties(&snap, Some(&rec), 900, "/dl");
    assert_eq!(p.time_elapsed, 0);
}

#[test]
fn transfer_figures_add_up() {
    assert_eq!(
        transfer_totals(&[]),
        Some(TransferTotals {
            dl_info_speed: 0,
            up_info_speed: 0,
            dl_info_data: 0,
            up_info_data: 0
        })
    );
    let item = TransferItem { dl_speed: 1, up_speed: 2, downloaded: 3, uploaded: 4 };
    assert_eq!(
        transfer_totals(&[item, item]),
        Some(TransferTotals {
            dl_info_speed: 2,
            up_info_speed: 4,
            dl_info_data: 6,
            up_info_data: 8
        })
    );
    let fast = TransferItem { dl_speed: i64::MAX, ..item };
    assert_eq!(transfer_totals(&[item, fast]), None);
    let full = TransferItem { uploaded: u64::MAX, ..item };
    assert_eq!(transfer_totals(&[full, item]), None);
}

#[test]
fn forms_are_put_together_field_by_field() {
    let mut form = AddForm::new();
    form.take_field("urls", b"http://a/x\r\n\n  https://b/y  \n".to_vec());
    form.take_field("urls", b"\xff".to_vec());
    form.take_field("urls", b"http://c".to_vec());
    form.take_field("torrents", Vec::new());
    form.take_field("torrents", vec![1, 2, 3]);
    form.take_field("savepath", b"tv".to_vec());
    form.take_field("category", "s\u{e9}rie".as_bytes().to_vec());
    form.take_field("category", b"\xff".to_vec());
    form.take_field("paused", b"false".to_vec());
    form.take_field("unknown", b"true".to_vec());
    assert_eq!(form.urls, vec!["http://a/x", "https://b/y", "http://c"]);
    assert_eq!(form.torrents, vec![vec![1u8, 2, 3]]);
    assert_eq!(form.savepath, Some("tv".to_string()));
    assert_eq!(form.category, "s\u{e9}rie");
    assert!(!form.paused);
    form.take_field("stopped", b"true".to_vec());
    assert!(form.paused);
    form.take_field("paused", b"false".to_vec());
    assert!(form.paused);
    assert_eq!(form.effective_save_path("/dl"), "tv");
    // An empty path stands for the default.
    form.take_field("savepath", Vec::new());
    assert_eq!(form.savepath, Some(String::new()));
    assert_eq!(form.effective_save_path("/data/downloads"), "/data/downloads");
    assert_eq!(AddForm::new().effective_save_path("/dl"), "/dl");
}

#[test]
fn forms_are_checked_before_anything_is_done() {
    let mut form = AddForm::new();
    assert_eq!(form.judge("/dl", &vec![]), Ok(()));
    let read = |text: &str| match text {
        "8.8.8.8" => Some(Ip::V4(0x0808_0808)),
        "10.0.0.1" => Some(Ip::V4(0x0a00_0001)),
        _ => None,
    };
    assert_eq!(form.check("/dl", &read), Ok(()));
    form.take_field("urls", b"http://8.8.8.8/a\nhttp://10.0.0.1/b".to_vec());
    let public = Some(Ip::V4(0x0808_0808));
    let private = Some(Ip::V4(0x0a00_0001));
    assert_eq!(form.judge("/dl", &vec![public, public]), Ok(()));
    assert_eq!(form.judge("/dl", &vec![public, private]), Err((400, "Invalid URL.")));
    assert_eq!(form.check("/dl", &read), Err((400, "Invalid URL.")));
    form.take_field("savepath", b"/etc".to_vec());
    assert_eq!(form.judge("/dl", &vec![public, private]), Err((400, "Invalid savepath.")));
    assert_eq!(form.check("/dl", &read), Err((400, "Invalid savepath.")));
    form.take_field("savepath", b"/dl/tv".to_vec());
    assert_eq!(form.judge("/dl", &vec![public, public]), Ok(()));
    let mut public_only = AddForm::new();
    public_only.take_field("urls", b"http://8.8.8.8/a\nhttp://example.com/b".to_vec());
    assert_eq!(public_only.check("/dl", &read), Ok(()));
}

#[test]
fn fields_are_capped() {
    let mut field = vec![0u8; MULTIPART_FIELD_MAX_BYTES - 2];
    assert!(append_chunk(&mut field, &[1]));
    assert!(append_chunk(&mut field, &[2]));
    assert!(append_chunk(&mut field, &[]));
    assert!(!append_chunk(&mut field, &[3]));
    assert_eq!(field.len(), 32 * 1024 * 1024);
    assert_eq!(field[field.len() - 2..], [1, 2]);
    let mut other = Vec::new();
    assert!(!append_chunk(&mut other, &vec![0u8; 40 * 1024 * 1024]));
    assert!(other.is_empty());
}

#[test]
fn fetched_files_are_checked() {
    assert_eq!(check_fetch_head(200, None), Ok(()));
    assert_eq!(check_fetch_head(299, Some(MAX_TORRENT_BYTES)), Ok(()));
    assert_eq!(check_fetch_head(404, Some(1)), Err(FetchError::Status(404)));
    assert_eq!(check_fetch_head(302, None), Err(FetchError::Status(302)));
    assert_eq!(check_fetch_head(199, None), Err(FetchError::Status(199)));
    assert_eq!(
        check_fetch_head(200, Some(MAX_TORRENT_BYTES + 1)),
        Err(FetchError::TooLarge(MAX_TORRENT_BYTES + 1))
    );
    assert_eq!(check_fetch_size(33_554_432), Ok(()));
    assert_eq!(check_fetch_size(33_554_433), Err(FetchError::TooLarge(33_554_433)));
}

fn minimal_file() -> ConfigFile {
    ConfigFile {
        download_dir: "/tmp/test_dl".to_string(),
        listen_port: None,
        persistence_dir: None,
        torrents: None,
        api_bind_address: None,
        api_port: None,
        api_username: None,
        api_password: None,
        state_db_path: None,
    }
}

fn no_env() -> EnvOverrides {
    EnvOverrides {
        download_dir: None,
        listen_port: None,
        persistence_dir: None,
        api_bind_address: None,
        api_port: None,
        api_username: None,
        api_password: None,
        api_password_hash: None,
        state_db_path: None,
    }
}

#[test]
fn settings_have_defaults() {
    let cfg = Config::load(minimal_file(), no_env()).unwrap();
    assert_eq!(cfg.download_dir, "/tmp/test_dl");
    assert_eq!(cfg.listen_port, 8080);
    assert_eq!(cfg.persistence_dir, "./data/session");
    assert_eq!(cfg.api_bind_address, "0.0.0.0");
    assert_eq!(cfg.api_port, 8181);
    assert_eq!(cfg.api_username, "admin");
    assert_eq!(cfg.api_password, "adminadmin");
    assert_eq!(cfg.state_db_path, "./data/state.redb");
    assert_eq!(cfg.torrents, None);
}

#[test]
fn variables_override_the_file() {
    let file = ConfigFile {
        listen_port: Some(9999),
        torrents: Some(vec!["a.torrent".to_string()]),
        ..minimal_file()
    };
    let env = EnvOverrides {
        download_dir: Some("/tmp/env_dl".to_string()),
        listen_port: Some("7777".to_string()),
        persistence_dir: Some("/tmp/env_persist".to_string()),
        api_username: Some("myuser".to_string()),
        api_password: Some("mypass".to_string()),
        state_db_path: Some("/tmp/custom.redb".to_string()),
        ..no_env()
    };
    let cfg = Config::load(file, env).unwrap();
    assert_eq!(cfg.download_dir, "/tmp/env_dl");
    assert_eq!(cfg.listen_port, 7777);
    assert_eq!(cfg.persistence_dir, "/tmp/env_persist");
    assert_eq!(cfg.api_username, "myuser");
    assert_eq!(cfg.api_password, "mypass");
    assert_eq!(cfg.state_db_path, "/tmp/custom.redb");
    assert_eq!(cfg.torrents, Some(vec!["a.torrent".to_string()]));

    let env = EnvOverrides {
        api_password: Some("plain".to_string()),
        api_password_hash: Some("$argon2id$x".to_string()),
        api_bind_address: Some("127.0.0.1".to_string()),
        api_port: Some("1".to_string()),
        ..no_env()
    };
    let cfg = Config::load(minimal_file(), env).unwrap();
    assert_eq!(cfg.api_password, "$argon2id$x");
    assert_eq!(cfg.api_bind_address, "127.0.0.1");
    assert_eq!(cfg.api_port, 1);
}

#[test]
fn ports_that_are_no_numbers_are_refused() {
    let env = EnvOverrides { listen_port: Some("notanumber".to_string()), ..no_env() };
    assert_eq!(Config::load(minimal_file(), env).err(), Some(ConfigError::ListenPort));
    let env = EnvOverrides { api_port: Some("65536".to_string()), ..no_env() };
    assert_eq!(Config::load(minimal_file(), env).err(), Some(ConfigError::ApiPort));
    let env = EnvOverrides {
        listen_port: Some(String::new()),
        api_port: Some(String::new()),
        ..no_env()
    };
    assert_eq!(Config::load(minimal_file(), env).err(), Some(ConfigError::ListenPort));
}

#[test]
fn ports_are_read_as_the_standard_library_reads_them() {
    for t in [
        "0", "80", "+80", "00080", "65535", "65536", "", "+", "-0", "-1", " 80", "8 0", "++1",
        "99999999999999999999", "\u{664}", "0000000000000000000000001",
    ] {
        assert_eq!(parse_port(t), t.parse::<u16>().ok(), "{t:?}");
    }
}

#[test]
fn the_version_names_release_and_commit() {
    assert_eq!(version_string("2026.4.1", "abc123"), "2026.4.1+abc123");
}
