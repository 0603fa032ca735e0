use lightorrent::api::{
    choose_client_ip, forwarded_candidate, is_true, resolve_client_ip, trusted_proxies, AppState,
    Credentials, Reply,
};
use lightorrent::engine::Engine;
use lightorrent::ip::{is_forbidden_ip, Ip};
use lightorrent::limiter::LoginLimiter;
use lightorrent::password::{
    hash_password, hash_password_with_salt, password_on_line, prepare_password_hash,
    verify_password, PasswordError,
};
use lightorrent::path::validate_save_path;
use lightorrent::session::extract_sid;
use lightorrent::url::{add_url_host, judge_add_url, read_host, validate_add_url};

const SECOND: u64 = 1_000_000_000;
const DAY: u64 = 86_400 * SECOND;

fn ip(a: u32, b: u32, c: u32, d: u32) -> Ip {
    Ip::V4(((a * 256 + b) * 256 + c) * 256 + d)
}

/// Reads the addresses that the tests write.
fn read_ip(text: &str) -> Option<Ip> {
    match text {
        "127.0.0.1" => Some(ip(127, 0, 0, 1)),
        "10.0.0.1" => Some(ip(10, 0, 0, 1)),
        "10.0.0.5" => Some(ip(10, 0, 0, 5)),
        "192.168.1.1" => Some(ip(192, 168, 1, 1)),
        "169.254.169.254" => Some(ip(169, 254, 169, 254)),
        "8.8.8.8" => Some(ip(8, 8, 8, 8)),
        "::1" => Some(Ip::V6(1)),
        _ => None,
    }
}

fn credentials() -> Credentials {
    Credentials {
        username: "admin".to_string(),
        password_hash: match hash_password_with_salt("adminadmin", "c29tZXNhbHRzb21lc2FsdA") {
            Ok(h) => h,
            Err(_) => panic!("hashing failed"),
        },
    }
}

/// The part of the cookie that a browser sends back.
fn cookie_of(reply: &Reply) -> String {
    let cookie = reply.set_cookie.as_ref().unwrap();
    cookie.split(';').next().unwrap().to_string()
}

#[test]
fn cookies_are_searched_for_the_session_id() {
    assert_eq!(extract_sid(None), None);
    assert_eq!(extract_sid(Some("")), None);
    assert_eq!(extract_sid(Some("SID=abc")), Some("abc".to_string()));
    assert_eq!(extract_sid(Some("a=b; SID=abc ; c=d")), Some("abc".to_string()));
    assert_eq!(extract_sid(Some("SID=one; SID=two")), Some("one".to_string()));
    assert_eq!(extract_sid(Some("XSID=abc")), None);
    assert_eq!(extract_sid(Some("sid=abc")), None);
    assert_eq!(extract_sid(Some("SID=")), Some(String::new()));
    assert_eq!(extract_sid(Some("\u{3000}SID=x\u{2003}")), Some("x".to_string()));
}

#[test]
fn login_hands_out_a_cookie_that_lets_in() {
    let mut state = AppState::new("/dl".to_string());
    let cred = credentials();
    let reply = state.login(&cred, ip(127, 0, 0, 1), "admin", "adminadmin", SECOND);
    assert_eq!(reply.status, 200);
    assert_eq!(reply.body, "Ok.");
    let full = reply.set_cookie.clone().unwrap();
    assert!(full.starts_with("SID="));
    assert!(full.ends_with("; HttpOnly; SameSite=Strict; Path=/"));
    let cookie = cookie_of(&reply);
    assert_eq!(cookie.len(), 4 + 36);
    assert_eq!(&cookie[4 + 14..4 + 15], "4");
    assert_eq!(state.app_version(Some(&cookie), 2 * SECOND), Ok("v5.0.0"));
    assert_eq!(state.webapi_version(Some(&cookie), 3 * SECOND), Ok("2.10.4"));
    assert_eq!(state.require_auth(Some(&cookie), 3 * SECOND), Ok(()));
}

#[test]
fn wrong_name_or_password_is_refused_without_a_cookie() {
    let mut state = AppState::new("/dl".to_string());
    let cred = credentials();
    for (name, word) in [("admin", "wrongpassword"), ("root", "adminadmin"), ("", "")] {
        let reply = state.login(&cred, ip(127, 0, 0, 1), name, word, SECOND);
        assert_eq!(reply.status, 401);
        assert_eq!(reply.body, "Fails.");
        assert!(reply.set_cookie.is_none());
    }
}

#[test]
fn requests_without_a_session_are_refused() {
    let mut state = AppState::new("/dl".to_string());
    let engine = Engine::new();
    assert_eq!(state.app_version(None, 0), Err(403));
    assert_eq!(state.webapi_version(Some("SID=nope"), 0), Err(403));
    assert_eq!(state.require_auth(Some("SID="), 0), Err(403));
    assert!(state.select_torrents(&engine, None, 0, "all") == Err(403));
    assert!(matches!(state.find_snapshot(&engine, None, 0, Some("abc")), Err(403)));
    assert!(matches!(state.find_files(&engine, None, 0, None), Err(403)));
    assert!(state.torrents_categories(None, 0) == Err(403));
    assert_eq!(
        state.create_category(None, 0, "c".to_string(), "p".to_string()),
        Err(403)
    );
}

#[test]
fn sessions_coexist_and_end_one_by_one() {
    let mut state = AppState::new("/dl".to_string());
    let cred = credentials();
    let one = cookie_of(&state.login(&cred, ip(127, 0, 0, 1), "admin", "adminadmin", 0));
    let two = cookie_of(&state.login(&cred, ip(127, 0, 0, 1), "admin", "adminadmin", 0));
    assert_ne!(one, two, "two logins should produce different SIDs");
    assert_eq!(state.require_auth(Some(&one), SECOND), Ok(()));
    assert_eq!(state.require_auth(Some(&two), SECOND), Ok(()));

    let reply = state.logout(Some(&one));
    assert_eq!(reply.status, 200);
    assert_eq!(reply.body, "Ok.");
    assert_eq!(
        reply.set_cookie.unwrap(),
        "SID=; HttpOnly; SameSite=Strict; Path=/; Max-Age=0"
    );
    assert_eq!(state.require_auth(Some(&one), SECOND), Err(403));
    assert_eq!(state.require_auth(Some(&two), SECOND), Ok(()));

    // A logout without a session changes nothing.
    let reply = state.logout(None);
    assert_eq!(reply.status, 200);
    assert_eq!(state.require_auth(Some(&two), SECOND), Ok(()));
}

#[test]
fn sessions_expire_after_a_day_without_use() {
    let mut state = AppState::new("/dl".to_string());
    let _ = state.accept_login(ip(1, 2, 3, 4), "s1".to_string(), 10);
    assert_eq!(state.require_auth(Some("SID=s1"), 10 + DAY - 1), Ok(()));
    // The use a moment ago has renewed the session.
    assert_eq!(state.require_auth(Some("SID=s1"), 10 + DAY), Ok(()));
    assert_eq!(state.require_auth(Some("SID=s1"), 10 + 2 * DAY), Err(403));
    // It stays expired even if the clock seems to go back.
    assert_eq!(state.require_auth(Some("SID=s1"), 10 + DAY), Err(403));
}

#[test]
fn expired_sessions_are_reaped_by_other_requests() {
    let mut state = AppState::new("/dl".to_string());
    let _ = state.accept_login(ip(1, 2, 3, 4), "old".to_string(), 0);
    let _ = state.accept_login(ip(1, 2, 3, 4), "new".to_string(), DAY);
    assert_eq!(state.require_auth(Some("SID=new"), DAY), Ok(()));
    assert_eq!(state.require_auth(Some("SID=old"), 5), Err(403));
}

#[test]
fn the_eleventh_attempt_is_rate_limited() {
    let mut state = AppState::new("/dl".to_string());
    let cred = credentials();
    let here = ip(127, 0, 0, 1);
    for _ in 0..10 {
        assert!(state.check_login(here, SECOND).is_none());
        assert_eq!(state.finish_login(here, false, SECOND).status, 401);
    }
    let reply = state.login(&cred, here, "admin", "adminadmin", 2 * SECOND);
    assert_eq!(reply.status, 429, "expected rate-limited after 10 failures");
    assert_eq!(reply.body, "Too many login attempts.");
    assert!(reply.set_cookie.is_none());
    // Another address is not affected, and the limit ends after a minute.
    assert!(state.check_login(ip(127, 0, 0, 2), 2 * SECOND).is_none());
    assert!(state.check_login(here, SECOND + 60 * SECOND).is_none());
}

#[test]
fn a_login_forgets_earlier_failures() {
    let mut state = AppState::new("/dl".to_string());
    let here = ip(10, 0, 0, 1);
    for _ in 0..9 {
        assert!(state.check_login(here, 0).is_none());
        let _ = state.finish_login(here, false, 0);
    }
    assert_eq!(state.finish_login(here, true, 0).status, 200);
    for _ in 0..10 {
        assert!(state.check_login(here, 1).is_none());
        let _ = state.finish_login(here, false, 1);
    }
    assert!(state.check_login(here, 1).is_some());
}

#[test]
fn failures_count_for_a_minute() {
    let mut limiter = LoginLimiter::new();
    let here = ip(10, 0, 0, 1);
    for _ in 0..9 {
        limiter.record_login_failure(here, 0);
    }
    limiter.record_login_failure(here, 60 * SECOND);
    assert!(!limiter.is_rate_limited(here, 60 * SECOND));
    for _ in 0..9 {
        limiter.record_login_failure(here, 61 * SECOND);
    }
    assert!(limiter.is_rate_limited(here, 61 * SECOND));
    limiter.clear_login_attempts(here);
    assert!(!limiter.is_rate_limited(here, 61 * SECOND));
}

#[test]
fn the_window_of_the_limit_slides() {
    let mut limiter = LoginLimiter::new();
    let here = ip(10, 0, 0, 1);
    limiter.record_login_failure(here, 0);
    for _ in 0..9 {
        limiter.record_login_failure(here, 50 * SECOND);
    }
    assert!(limiter.is_rate_limited(here, 59 * SECOND));
    // The first failure no longer counts.
    assert!(!limiter.is_rate_limited(here, 60 * SECOND));
    limiter.record_login_failure(here, 61 * SECOND);
    assert!(limiter.is_rate_limited(here, 62 * SECOND));
    assert!(limiter.is_rate_limited(here, 109 * SECOND));
    assert!(!limiter.is_rate_limited(here, 110 * SECOND));
}

#[test]
fn a_full_limiter_drops_the_oldest_half() {
    let mut limiter = LoginLimiter::new();
    // 4095 addresses with ten failures each, one nanosecond apart, and one more address.
    for n in 0..4095u32 {
        for _ in 0..10 {
            limiter.record_login_failure(Ip::V4(n), n as u64);
        }
    }
    limiter.record_login_failure(Ip::V6(9), 4500);
    assert!(limiter.is_rate_limited(Ip::V4(0), 5000));
    limiter.record_login_failure(Ip::V6(1), 5000);
    // The 2048 whose latest failures are the oldest are gone, the others stay.
    assert!(!limiter.is_rate_limited(Ip::V4(0), 5000));
    assert!(!limiter.is_rate_limited(Ip::V4(2047), 5000));
    assert!(limiter.is_rate_limited(Ip::V4(2048), 5000));
    assert!(limiter.is_rate_limited(Ip::V4(4094), 5000));
}

#[test]
fn a_full_limiter_drops_what_has_passed_first() {
    let mut limiter = LoginLimiter::new();
    for n in 0..4095u32 {
        limiter.record_login_failure(Ip::V4(n), 0);
    }
    for _ in 0..10 {
        limiter.record_login_failure(Ip::V4(5000), 59 * SECOND);
    }
    // No failure but those of 5000 still counts.
    limiter.record_login_failure(Ip::V4(6000), 61 * SECOND);
    assert!(limiter.is_rate_limited(Ip::V4(5000), 61 * SECOND));
    assert!(!limiter.is_rate_limited(Ip::V4(6000), 61 * SECOND));
}

#[test]
fn hashes_verify_only_their_password() {
    let phc = match hash_password("correct horse") {
        Ok(h) => h,
        Err(_) => panic!("hashing failed"),
    };
    assert!(phc.starts_with("$argon2id$v=19$m=19456,t=2,p=1$"));
    assert!(verify_password(&phc, "correct horse"));
    assert!(!verify_password(&phc, "battery staple"));
    assert!(!verify_password("not a hash", "correct horse"));
    assert!(!verify_password("", ""));
    // Two hashes of a password have different salts.
    let again = match hash_password("correct horse") {
        Ok(h) => h,
        Err(_) => panic!("hashing failed"),
    };
    assert_ne!(phc, again);
}

#[test]
fn the_same_salt_gives_the_same_hash() {
    let salt = "c29tZXNhbHRzb21lc2FsdA";
    let one = hash_password_with_salt("pw", salt).ok().unwrap();
    let two = hash_password_with_salt("pw", salt).ok().unwrap();
    assert_eq!(one, two);
    assert!(one.contains(salt));
    assert!(matches!(hash_password_with_salt("pw", "!"), Err(PasswordError::Hash(_))));
}

#[test]
fn hashes_with_impossible_settings_accept_nothing() {
    let phc = hash_password_with_salt("pw", "c29tZXNhbHRzb21lc2FsdA").ok().unwrap();
    assert!(verify_password(&phc, "pw"));
    for lanes in ["16777216", "99999999", "536870912", "4294967295", "99999999999"] {
        let changed = phc.replace("p=1", &format!("p={lanes}"));
        assert!(!verify_password(&changed, "pw"), "p={lanes}");
        // It can still be read, so it is kept when it is configured.
        assert_eq!(prepare_password_hash(&changed).ok().unwrap(), changed);
    }
}

#[test]
fn salts_write_sixteen_bytes() {
    assert!(hash_password_with_salt("pw", "AAAAAAAAAAAAAAAAAAAAAQ").is_ok());
    assert!(hash_password_with_salt("pw", "AAAAAAAAAAAAAAAAAAAAAB").is_err());
    for _ in 0..8 {
        let phc = hash_password("pw").ok().unwrap();
        let salt = phc.split('$').nth(4).unwrap();
        assert_eq!(salt.len(), 22);
        assert!(salt.ends_with(['A', 'Q', 'g', 'w']), "salt {salt}");
    }
}

#[test]
fn configured_hashes_are_kept_and_plain_text_is_hashed() {
    let phc = hash_password("secret").ok().unwrap();
    assert_eq!(prepare_password_hash(&phc).ok().unwrap(), phc);
    let made = prepare_password_hash("secret").ok().unwrap();
    assert_ne!(made, "secret");
    assert!(verify_password(&made, "secret"));
    assert!(matches!(
        prepare_password_hash("$argon2id$$$$$$"),
        Err(PasswordError::InvalidPhc(_))
    ));
}

#[test]
fn passwords_are_read_from_a_line() {
    assert_eq!(password_on_line("secret\n"), Some("secret".to_string()));
    assert_eq!(password_on_line("secret\r\n"), Some("secret".to_string()));
    assert_eq!(password_on_line(" a b \n\r\n"), Some(" a b ".to_string()));
    assert_eq!(password_on_line("\n"), None);
    assert_eq!(password_on_line(""), None);
}

#[test]
fn public_addresses_are_allowed_and_others_are_not() {
    for bad in [
        ip(127, 0, 0, 1),
        ip(10, 0, 0, 5),
        ip(172, 16, 0, 0),
        ip(172, 31, 255, 255),
        ip(192, 168, 1, 1),
        ip(169, 254, 169, 254),
        ip(255, 255, 255, 255),
        ip(0, 0, 0, 0),
        ip(224, 0, 0, 1),
        ip(239, 255, 255, 255),
        ip(192, 0, 2, 7),
        ip(198, 51, 100, 7),
        ip(203, 0, 113, 7),
        ip(100, 64, 0, 0),
        ip(100, 127, 255, 255),
        Ip::V6(0),
        Ip::V6(1),
        Ip::V6(0xff02 << 112),
        Ip::V6(0xfe80 << 112),
        Ip::V6(0xfebf << 112),
        Ip::V6(0xfd12 << 112),
    ] {
        assert!(is_forbidden_ip(&bad), "{bad:?}");
    }
    for good in [
        ip(8, 8, 8, 8),
        ip(11, 0, 0, 0),
        ip(172, 15, 255, 255),
        ip(172, 32, 0, 0),
        ip(192, 167, 255, 255),
        ip(100, 63, 255, 255),
        ip(100, 128, 0, 0),
        ip(0, 0, 0, 1),
        ip(240, 0, 0, 1),
        Ip::V6(0x2001 << 112),
        Ip::V6(0xfec0 << 112),
        Ip::V6(2),
    ] {
        assert!(!is_forbidden_ip(&good), "{good:?}");
    }
}

#[test]
fn forbidden_urls_are_refused() {
    let forbidden = [
        ("http://127.0.0.1/x.torrent", Some(ip(127, 0, 0, 1))),
        ("http://10.0.0.5/x.torrent", Some(ip(10, 0, 0, 5))),
        ("http://192.168.1.1/x.torrent", Some(ip(192, 168, 1, 1))),
        ("http://169.254.169.254/latest/meta-data", Some(ip(169, 254, 169, 254))),
        ("http://[::1]:8080/x.torrent", Some(Ip::V6(1))),
    ];
    for (url, literal) in forbidden {
        assert_eq!(read_host(url, &read_ip), literal);
        let refused = Err("URL host resolves to a forbidden IP range");
        assert_eq!(judge_add_url(url, literal), refused);
        assert_eq!(validate_add_url(url, &read_ip), refused);
    }
    for url in [
        "http://localhost/x.torrent",
        "http://LOCALHOST:8080/x",
        "https://a.b.localhost?q",
        "http://metadata.google.internal/",
        "http://metadata#f",
    ] {
        assert_eq!(validate_add_url(url, &read_ip), Err("URL host is forbidden"));
    }
    for url in ["file:///etc/passwd", "ftp://example.com/x.torrent", "http:/x", ""] {
        assert_eq!(
            validate_add_url(url, &read_ip),
            Err("only http, https, and magnet URLs are accepted")
        );
    }
    for url in [
        "magnet:?xt=urn:btih:0000000000000000000000000000000000000000&dn=test",
        "MAGNET:?xt=x",
    ] {
        assert_eq!(validate_add_url(url, &read_ip), Err("magnet links not yet supported"));
    }
    for url in ["http://", "http:///x", "http://:80/x", "https://?q"] {
        assert_eq!(validate_add_url(url, &read_ip), Err("URL missing host"));
    }
    let long = format!("http://example.com/{}", "a".repeat(4096));
    assert_eq!(validate_add_url(&long, &read_ip), Err("URL too long"));
}

#[test]
fn public_urls_are_accepted() {
    assert_eq!(validate_add_url("http://example.com/x.torrent", &read_ip), Ok(()));
    assert_eq!(validate_add_url("HTTPS://Example.COM", &read_ip), Ok(()));
    assert_eq!(judge_add_url("http://8.8.8.8:80/x", Some(ip(8, 8, 8, 8))), Ok(()));
    assert_eq!(validate_add_url("http://notlocalhost/", &read_ip), Ok(()));
    let exact = format!("http://e/{}", "a".repeat(4096 - 9));
    assert_eq!(exact.len(), 4096);
    assert_eq!(validate_add_url(&exact, &read_ip), Ok(()));
}

#[test]
fn hosts_are_found_in_urls() {
    assert_eq!(add_url_host("http://example.com:8080/a:b"), Ok("example.com".to_string()));
    assert_eq!(add_url_host("https://Example.com?x#y"), Ok("Example.com".to_string()));
    assert_eq!(add_url_host("http://[::1]:80/"), Ok("::1".to_string()));
    assert_eq!(add_url_host("http://[::1]/"), Ok("::1".to_string()));
    assert_eq!(add_url_host("http://[::1/"), Ok("[::1".to_string()));
    assert_eq!(add_url_host("http://::1/"), Ok(":".to_string()));
    assert_eq!(add_url_host("http://u:p@h"), Ok("h".to_string()));
    assert_eq!(add_url_host("http://u@10.0.0.1:80/x@y"), Ok("10.0.0.1".to_string()));
    assert_eq!(add_url_host("HTTPS://u:p@[::1]:80?q"), Ok("::1".to_string()));
    assert_eq!(add_url_host("https://u@v@name:1#f"), Ok("name".to_string()));
    // The host behind a user name is the one that is judged.
    assert_eq!(
        validate_add_url("http://8.8.8.8@127.0.0.1/", &read_ip),
        Err("URL host resolves to a forbidden IP range")
    );
    assert_eq!(read_host("ftp://10.0.0.1/", &read_ip), None);
    assert_eq!(add_url_host("http://[]/"), Err("URL missing host"));
    assert_eq!(add_url_host("http://u@/"), Err("URL missing host"));
}

#[test]
fn save_paths_must_stay_under_the_download_directory() {
    for sp in ["../etc", "../../etc/passwd", "/etc/passwd", "a/../b", "/dl/../x", ".."] {
        assert!(!validate_save_path(sp, "/dl"), "savePath={sp} should be rejected");
    }
    for sp in ["", "tv", "./tv", "a/b/", "/dl", "/dl/", "/dl/tv", "//dl//tv", "/./dl/x", "...", "a..b"] {
        assert!(validate_save_path(sp, "/dl"), "savePath={sp} should be accepted");
    }
    assert!(!validate_save_path("/dlx", "/dl"));
    assert!(!validate_save_path("/x", ""));
    assert!(!validate_save_path("/dl/x", "dl"));
    assert!(validate_save_path("/anything", "/"));
    assert!(validate_save_path("x", ""));
}

#[test]
fn forwarded_addresses_count_only_behind_trusted_proxies() {
    let proxy = ip(10, 0, 0, 1);
    let client = ip(8, 8, 8, 8);
    let trusted = vec![ip(10, 0, 0, 9), proxy];
    let stranger = ip(1, 1, 1, 1);
    assert_eq!(choose_client_ip(&trusted, proxy, Some(client)), client);
    assert_eq!(choose_client_ip(&trusted, proxy, None), proxy);
    assert_eq!(choose_client_ip(&trusted, stranger, Some(client)), stranger);
    let resolve = |peer: Ip, header: Option<&str>| resolve_client_ip(&trusted, peer, header, &read_ip);
    assert_eq!(resolve(proxy, Some("8.8.8.8")), client);
    assert_eq!(resolve(proxy, Some(" 8.8.8.8 , 10.0.0.5")), client);
    assert_eq!(resolve(proxy, Some("unknown, 8.8.8.8")), proxy);
    assert_eq!(resolve(proxy, Some("")), proxy);
    assert_eq!(resolve(proxy, None), proxy);
    assert_eq!(resolve(stranger, Some("8.8.8.8")), stranger);
    assert_eq!(resolve_client_ip(&Vec::new(), proxy, Some("8.8.8.8"), &read_ip), proxy);
    assert_eq!(forwarded_candidate(" 8.8.8.8 , 10.0.0.1"), "8.8.8.8");
    assert_eq!(forwarded_candidate("8.8.8.8"), "8.8.8.8");
    assert_eq!(forwarded_candidate(""), "");
    assert_eq!(
        trusted_proxies("10.0.0.1, ::1 ,x,", &read_ip),
        vec![ip(10, 0, 0, 1), Ip::V6(1)]
    );
    assert_eq!(trusted_proxies("", &read_ip), vec![]);
}

#[test]
fn categories_are_created_and_listed() {
    let mut state = AppState::new("/dl".to_string());
    let _ = state.accept_login(ip(1, 2, 3, 4), "s".to_string(), 0);
    let c = Some("SID=s");
    assert_eq!(state.torrents_categories(c, 0), Ok(vec![]));
    assert_eq!(
        state.create_category(c, 0, "tv-sonarr".to_string(), "tv".to_string()),
        Ok(())
    );
    assert_eq!(
        state.torrents_categories(c, 0),
        Ok(vec![("tv-sonarr".to_string(), "tv".to_string())])
    );
    for sp in ["../etc", "../../etc/passwd", "/etc/passwd"] {
        assert_eq!(
            state.create_category(c, 0, "evil".to_string(), sp.to_string()),
            Err(400),
            "savePath={sp} should be rejected"
        );
    }
    assert_eq!(state.create_category(c, 0, String::new(), "../x".to_string()), Ok(()));
    assert_eq!(
        state.create_category(c, 0, "tv-sonarr".to_string(), "/dl/tv".to_string()),
        Ok(())
    );
    assert_eq!(
        state.torrents_categories(c, 0),
        Ok(vec![("tv-sonarr".to_string(), "/dl/tv".to_string())])
    );
}

#[test]
fn categories_survive_a_restart() {
    let mut state = AppState::new("/dl".to_string());
    let _ = state.accept_login(ip(1, 2, 3, 4), "s".to_string(), 0);
    let c = Some("SID=s");
    let _ = state.create_category(c, 0, "tv-sonarr".to_string(), "tv".to_string());
    let _ = state.create_category(c, 0, "radarr".to_string(), String::new());
    let stored = state.torrents_categories(c, 0).unwrap();

    let mut again = AppState::new("/dl".to_string());
    let _ = again.accept_login(ip(1, 2, 3, 4), "t".to_string(), 0);
    for (name, save_path) in stored.iter().rev() {
        again.restore_category(name.clone(), save_path.clone());
    }
    let mut listed = again.torrents_categories(Some("SID=t"), 0).unwrap();
    listed.sort();
    assert_eq!(
        listed,
        vec![
            ("radarr".to_string(), String::new()),
            ("tv-sonarr".to_string(), "tv".to_string())
        ]
    );
}

#[test]
fn flags_are_true_only_as_the_word() {
    assert!(is_true(Some("true")));
    assert!(!is_true(Some("True")));
    assert!(!is_true(Some("")));
    assert!(!is_true(None));
}
