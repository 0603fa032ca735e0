//! The web API's rules: who is let in, and what a request is answered.
use vstd::prelude::*;
use vstd::string::StringSliceAdditionalSpecFns;
use crate::engine::{Engine, FileEntry};
use crate::hex;
use crate::ip::Ip;
use crate::limiter;
use crate::limiter::LoginLimiter;
use crate::password;
use crate::path;
use crate::session;
use crate::session::{SessionMeta, Sessions, FORBIDDEN};
use crate::table::Table;
use crate::text;
use crate::torrent::TorrentSnapshot;

verus! {

/// The status of a request that makes no sense.
pub const BAD_REQUEST: u16 = 400;

/// The status of a request about something that does not exist.
pub const NOT_FOUND: u16 = 404;

/// What the login and logout requests are answered.
pub struct Reply {
    pub status: u16,
    /// The value of the `Set-Cookie` header, if there is one.
    pub set_cookie: Option<String>,
    pub body: &'static str,
}

/// The contents of a `Reply`.
#[verifier::ext_equal]
pub struct ReplyView {
    pub status: u16,
    pub set_cookie: Option<Seq<char>>,
    pub body: Seq<char>,
}

impl View for Reply {
    type V = ReplyView;

    open spec fn view(&self) -> ReplyView {
        ReplyView {
            status: self.status,
            set_cookie: match self.set_cookie {
                Some(c) => Some(c@),
                None => None,
            },
            body: self.body@,
        }
    }
}

/// The answer to a client that has failed to log in too often.
pub open spec fn too_many() -> ReplyView {
    ReplyView { status: 429, set_cookie: None, body: "Too many login attempts."@ }
}

/// The answer to a login with the wrong name or password.
pub open spec fn login_fails() -> ReplyView {
    ReplyView { status: 401, set_cookie: None, body: "Fails."@ }
}

/// The cookie that hands out a session id.
pub open spec fn sid_cookie(sid: Seq<char>) -> Seq<char> {
    "SID="@ + sid + "; HttpOnly; SameSite=Strict; Path=/"@
}

/// The answer to a login, which hands out a session id.
pub open spec fn welcome(sid: Seq<char>) -> ReplyView {
    ReplyView { status: 200, set_cookie: Some(sid_cookie(sid)), body: "Ok."@ }
}

/// The answer to a logout, which takes the session id back.
pub open spec fn farewell() -> ReplyView {
    ReplyView {
        status: 200,
        set_cookie: Some("SID=; HttpOnly; SameSite=Strict; Path=/; Max-Age=0"@),
        body: "Ok."@,
    }
}

/// A random UUID in its usual form: 32 lower-case hexadecimal digits in five groups.
pub open spec fn is_sid(s: Seq<char>) -> bool {
    &&& s.len() == 36
    &&& forall|i: int|
        0 <= i < 36 ==> if i == 8 || i == 13 || i == 18 || i == 23 {
            #[trigger] s[i] == '-'
        } else {
            hex::is_lower_hex(s[i])
        }
    &&& s[14] == '4'
    &&& s[19] == '8' || s[19] == '9' || s[19] == 'a' || s[19] == 'b'
}

/// `uuid::Uuid::new_v4`, written as text: a random UUID of version 4 in its usual form.
#[verifier::external_body]
fn fresh_sid() -> (r: String)
    ensures
        is_sid(r@),
{
    uuid::Uuid::new_v4().to_string()
}

/// The name and the password hash that a login is held against.
pub struct Credentials {
    pub username: String,
    pub password_hash: String,
}

impl Credentials {
    /// A login with this name and password is accepted.
    pub open spec fn accepts(&self, username: Seq<char>, password: Seq<u8>) -> bool {
        username == self.username@ && password::accepts(self.password_hash@, password)
    }

    /// Whether a login with this name and password is accepted.
    pub fn matches(&self, username: &str, password: &str) -> (r: bool)
        ensures
            r == self.accepts(username@, password.spec_bytes()),
    {
        let user_ok = text::same_str(username, &self.username);
        let pass_ok = password::verify_password(&self.password_hash, password);
        user_ok && pass_ok
    }
}

/// What the web API keeps: sessions, failed logins and categories.
pub struct AppState {
    sessions: Sessions,
    attempts: LoginLimiter,
    categories: Table<String, String>,
    download_dir: String,
}

/// The contents of an `AppState`.
#[verifier::ext_equal]
pub struct AppView {
    pub sessions: Map<Seq<char>, SessionMeta>,
    pub attempts: Map<Ip, Seq<u64>>,
    pub categories: Map<Seq<char>, Seq<char>>,
    pub download_dir: Seq<char>,
}

/// A request with this cookie header is let in.
pub open spec fn lets_in(v: AppView, cookie: Option<&str>, now: u64) -> bool {
    session::lets_in(v.sessions, session::request_sid(session::text_of(cookie)), now)
}

/// The contents after a request with this cookie header has been let in or refused.
pub open spec fn gated(v: AppView, cookie: Option<&str>, now: u64) -> AppView {
    AppView {
        sessions: session::after_request(
            v.sessions,
            session::request_sid(session::text_of(cookie)),
            now,
        ),
        ..v
    }
}

/// The contents after a login that handed out a session id.
pub open spec fn logged_in(v: AppView, ip: Ip, sid: Seq<char>, now: u64) -> AppView {
    AppView {
        sessions: session::after_start(v.sessions, sid, now),
        attempts: v.attempts.remove(ip),
        ..v
    }
}

/// `after` is what a failed login makes of `before`.
pub open spec fn login_failed(before: AppView, after: AppView, ip: Ip, now: u64) -> bool {
    &&& limiter::records_failure(before.attempts, after.attempts, ip, now)
    &&& after == (AppView { attempts: after.attempts, ..before })
}

/// The info hashes among the first `n` pieces.
pub open spec fn valid_pieces(pieces: Seq<Seq<char>>, n: int) -> Seq<Seq<char>>
    decreases n,
{
    if n <= 0 {
        Seq::empty()
    } else {
        let before = valid_pieces(pieces, n - 1);
        if hex::is_infohash(pieces[n - 1]) {
            before.push(pieces[n - 1])
        } else {
            before
        }
    }
}

/// The info hashes in a list separated by bars.
pub open spec fn listed_hashes(list: Seq<char>) -> Seq<Seq<char>> {
    let pieces = text::split(list, '|');
    valid_pieces(pieces, pieces.len() as int)
}

/// The selected torrents: all of them, or those in the list.
pub open spec fn selects(
    v: crate::engine::EngineView,
    list: Seq<char>,
    chosen: Seq<Seq<char>>,
) -> bool {
    if list == "all"@ {
        exists|all: Seq<Seq<u8>>| #[trigger]
            crate::engine::lists_torrents(all, v.torrents) && chosen == crate::engine::encodings(
                all,
            )
    } else {
        chosen == listed_hashes(list)
    }
}

/// The torrents that a request names: all of them, or those in a list separated by bars. What is
/// not an info hash is passed over.
pub fn parse_hashes(engine: &Engine, list: &str) -> (r: Vec<String>)
    requires
        engine.wf(),
    ensures
        selects(engine@, list@, text::strings(r@)),
{
    if text::same_str(list, "all") {
        return engine.torrent_hashes();
    }
    let pieces = text::split_at_char(&text::chars_of(list), '|');
    let ghost all = text::split(list@, '|');
    let mut out: Vec<String> = Vec::new();
    let mut i: usize = 0;
    while i < pieces.len()
        invariant
            i <= pieces@.len(),
            text::texts(pieces@) == all,
            text::strings(out@) == valid_pieces(all, i as int),
        decreases pieces@.len() - i,
    {
        let piece = text::string_of(&pieces[i]);
        if hex::is_valid_infohash_v1(&piece) {
            out.push(piece);
        }
        i += 1;
    }
    out
}

/// The status for a request about the torrent named `hash`, if it cannot be answered.
pub open spec fn hash_problem(v: crate::engine::EngineView, hash: Option<Seq<char>>) -> Option<u16> {
    match hash {
        None => Some(BAD_REQUEST),
        Some(h) => if !hex::is_infohash(h) {
            Some(BAD_REQUEST)
        } else if crate::engine::find(v, h) is Err {
            Some(NOT_FOUND)
        } else {
            None
        },
    }
}

/// Whether a form's flag is set.
pub fn is_true(flag: Option<&str>) -> (r: bool)
    ensures
        r == (session::text_of(flag) == Some("true"@)),
{
    match flag {
        Some(f) => text::same_str(f, "true"),
        None => false,
    }
}

impl AppState {
    /// No session id, address or category is kept twice.
    pub closed spec fn wf(&self) -> bool {
        self.sessions.wf() && self.attempts.wf() && self.categories.wf()
    }

    /// What is kept.
    pub closed spec fn view(&self) -> AppView {
        AppView {
            sessions: self.sessions@,
            attempts: self.attempts@,
            categories: self.categories@,
            download_dir: self.download_dir@,
        }
    }

    /// What is kept of failed logins never grows past its bounds.
    pub proof fn attempts_stay_bounded(&self)
        requires
            self.wf(),
        ensures
            limiter::bounded(self@.attempts),
    {
        self.attempts.stays_bounded();
    }

    /// Nobody is logged in and there are no categories.
    pub fn new(download_dir: String) -> (r: AppState)
        ensures
            r.wf(),
            r@ == (AppView {
                sessions: Map::empty(),
                attempts: Map::empty(),
                categories: Map::empty(),
                download_dir: download_dir@,
            }),
    {
        AppState {
            sessions: Sessions::new(),
            attempts: LoginLimiter::new(),
            categories: Table::new(),
            download_dir,
        }
    }

    /// Lets a request in if its cookie names a session in use.
    pub fn require_auth(&mut self, cookie: Option<&str>, now: u64) -> (r: Result<(), u16>)
        requires
            old(self).wf(),
        ensures
            final(self).wf(),
            final(self)@ == gated(old(self)@, cookie, now),
            r == (if lets_in(old(self)@, cookie, now) {
                Ok::<(), u16>(())
            } else {
                Err::<(), u16>(FORBIDDEN)
            }),
    {
        self.sessions.require_auth(cookie, now)
    }

    /// Answers a client that has failed to log in too often; lets others try.
    pub fn check_login(&self, ip: Ip, now: u64) -> (r: Option<Reply>)
        requires
            self.wf(),
        ensures
            match r {
                Some(reply) => limiter::is_limited(self@.attempts, ip, now) && reply@
                    == too_many(),
                None => !limiter::is_limited(self@.attempts, ip, now),
            },
    {
        if self.attempts.is_rate_limited(ip, now) {
            Some(Reply { status: 429, set_cookie: None, body: "Too many login attempts." })
        } else {
            None
        }
    }

    /// Opens a session under a given id for a client that has logged in.
    pub fn accept_login(&mut self, ip: Ip, sid: String, now: u64) -> (r: Reply)
        requires
            old(self).wf(),
        ensures
            final(self).wf(),
            final(self)@ == logged_in(old(self)@, ip, sid@, now),
            r@ == welcome(sid@),
    {
        let cookie = String::from_str("SID=").concat(&sid).concat(
            "; HttpOnly; SameSite=Strict; Path=/",
        );
        self.sessions.start(sid, now);
        self.attempts.clear_login_attempts(ip);
        Reply { status: 200, set_cookie: Some(cookie), body: "Ok." }
    }

    /// Ends a login attempt: opens a session under a new id, or counts a failure.
    pub fn finish_login(&mut self, ip: Ip, accepted: bool, now: u64) -> (r: Reply)
        requires
            old(self).wf(),
        ensures
            final(self).wf(),
            accepted ==> exists|sid: Seq<char>| #[trigger]
                is_sid(sid) && r@ == welcome(sid) && final(self)@ == logged_in(
                    old(self)@,
                    ip,
                    sid,
                    now,
                ),
            !accepted ==> r@ == login_fails() && login_failed(old(self)@, final(self)@, ip, now),
    {
        if accepted {
            let sid = fresh_sid();
            self.accept_login(ip, sid, now)
        } else {
            self.attempts.record_login_failure(ip, now);
            Reply { status: 401, set_cookie: None, body: "Fails." }
        }
    }

    /// A login attempt from beginning to end.
    pub fn login(
        &mut self,
        credentials: &Credentials,
        ip: Ip,
        username: &str,
        password: &str,
        now: u64,
    ) -> (r: Reply)
        requires
            old(self).wf(),
        ensures
            final(self).wf(),
            if limiter::is_limited(old(self)@.attempts, ip, now) {
                r@ == too_many() && final(self)@ == old(self)@
            } else if credentials.accepts(username@, password.spec_bytes()) {
                exists|sid: Seq<char>| #[trigger]
                    is_sid(sid) && r@ == welcome(sid) && final(self)@ == logged_in(
                        old(self)@,
                        ip,
                        sid,
                        now,
                    )
            } else {
                r@ == login_fails() && login_failed(old(self)@, final(self)@, ip, now)
            },
    {
        if let Some(reply) = self.check_login(ip, now) {
            return reply;
        }
        let accepted = credentials.matches(username, password);
        self.finish_login(ip, accepted, now)
    }

    /// Ends the session that a request's cookie names.
    pub fn logout(&mut self, cookie: Option<&str>) -> (r: Reply)
        requires
            old(self).wf(),
        ensures
            final(self).wf(),
            r@ == farewell(),
            final(self)@ == (AppView {
                sessions: session::after_logout(
                    old(self)@.sessions,
                    session::request_sid(session::text_of(cookie)),
                ),
                ..old(self)@
            }),
    {
        self.sessions.end(cookie);
        Reply {
            status: 200,
            set_cookie: Some(
                String::from_str("SID=; HttpOnly; SameSite=Strict; Path=/; Max-Age=0"),
            ),
            body: "Ok.",
        }
    }

    /// The qBittorrent version that clients are told.
    pub fn app_version(&mut self, cookie: Option<&str>, now: u64) -> (r: Result<&'static str, u16>)
        requires
            old(self).wf(),
        ensures
            final(self).wf(),
            final(self)@ == gated(old(self)@, cookie, now),
            match r {
                Ok(v) => lets_in(old(self)@, cookie, now) && v@ == "v5.0.0"@,
                Err(e) => !lets_in(old(self)@, cookie, now) && e == FORBIDDEN,
            },
    {
        match self.require_auth(cookie, now) {
            Ok(()) => Ok("v5.0.0"),
            Err(e) => Err(e),
        }
    }

    /// The version of the qBittorrent web API that clients are told.
    pub fn webapi_version(&mut self, cookie: Option<&str>, now: u64) -> (r: Result<
        &'static str,
        u16,
    >)
        requires
            old(self).wf(),
        ensures
            final(self).wf(),
            final(self)@ == gated(old(self)@, cookie, now),
            match r {
                Ok(v) => lets_in(old(self)@, cookie, now) && v@ == "2.10.4"@,
                Err(e) => !lets_in(old(self)@, cookie, now) && e == FORBIDDEN,
            },
    {
        match self.require_auth(cookie, now) {
            Ok(()) => Ok("2.10.4"),
            Err(e) => Err(e),
        }
    }

    /// The torrents that a request to change some names.
    pub fn select_torrents(
        &mut self,
        engine: &Engine,
        cookie: Option<&str>,
        now: u64,
        list: &str,
    ) -> (r: Result<Vec<String>, u16>)
        requires
            old(self).wf(),
            engine.wf(),
        ensures
            final(self).wf(),
            final(self)@ == gated(old(self)@, cookie, now),
            match r {
                Ok(chosen) => lets_in(old(self)@, cookie, now) && selects(
                    engine@,
                    list@,
                    text::strings(chosen@),
                ),
                Err(e) => !lets_in(old(self)@, cookie, now) && e == FORBIDDEN,
            },
    {
        match self.require_auth(cookie, now) {
            Ok(()) => Ok(parse_hashes(engine, list)),
            Err(e) => Err(e),
        }
    }

    /// The figures of the torrent that a request names.
    pub fn find_snapshot(
        &mut self,
        engine: &Engine,
        cookie: Option<&str>,
        now: u64,
        hash: Option<&str>,
    ) -> (r: Result<TorrentSnapshot, u16>)
        requires
            old(self).wf(),
            engine.wf(),
        ensures
            final(self).wf(),
            final(self)@ == gated(old(self)@, cookie, now),
            if !lets_in(old(self)@, cookie, now) {
                r == Err::<TorrentSnapshot, u16>(FORBIDDEN)
            } else {
                match hash_problem(engine@, session::text_of(hash)) {
                    Some(status) => r == Err::<TorrentSnapshot, u16>(status),
                    None => {
                        let h = crate::engine::find(engine@, hash->0@)->Ok_0;
                        r matches Ok(s) && s@ == crate::torrent::snapshot_of(engine@.torrents[h])
                    },
                }
            },
    {
        if let Err(e) = self.require_auth(cookie, now) {
            return Err(e);
        }
        let h = match hash {
            Some(h) => h,
            None => {
                return Err(BAD_REQUEST);
            },
        };
        if !hex::is_valid_infohash_v1(h) {
            return Err(BAD_REQUEST);
        }
        match engine.snapshot(h) {
            Some(s) => Ok(s),
            None => Err(NOT_FOUND),
        }
    }

    /// The files of the torrent that a request names.
    pub fn find_files(
        &mut self,
        engine: &Engine,
        cookie: Option<&str>,
        now: u64,
        hash: Option<&str>,
    ) -> (r: Result<FileEntry, u16>)
        requires
            old(self).wf(),
            engine.wf(),
        ensures
            final(self).wf(),
            final(self)@ == gated(old(self)@, cookie, now),
            if !lets_in(old(self)@, cookie, now) {
                r == Err::<FileEntry, u16>(FORBIDDEN)
            } else {
                match hash_problem(engine@, session::text_of(hash)) {
                    Some(status) => r == Err::<FileEntry, u16>(status),
                    None => {
                        let t = engine@.torrents[crate::engine::find(engine@, hash->0@)->Ok_0];
                        r matches Ok(f) && f.name@ == t.name && f.size == t.total_length
                            && f.progress.have == t.pieces_have && f.progress.count
                            == t.piece_count
                    },
                }
            },
    {
        if let Err(e) = self.require_auth(cookie, now) {
            return Err(e);
        }
        let h = match hash {
            Some(h) => h,
            None => {
                return Err(BAD_REQUEST);
            },
        };
        if !hex::is_valid_infohash_v1(h) {
            return Err(BAD_REQUEST);
        }
        match engine.get_files(h) {
            Ok(f) => Ok(f),
            Err(_) => Err(NOT_FOUND),
        }
    }

    /// Creates a category, or changes where its torrents are saved. One without a name is passed
    /// over, and one whose path is not allowed is refused.
    pub fn create_category(
        &mut self,
        cookie: Option<&str>,
        now: u64,
        category: String,
        save_path: String,
    ) -> (r: Result<(), u16>)
        requires
            old(self).wf(),
        ensures
            final(self).wf(),
            ({
                let v = gated(old(self)@, cookie, now);
                if !lets_in(old(self)@, cookie, now) {
                    r == Err::<(), u16>(FORBIDDEN) && final(self)@ == v
                } else if category@.len() == 0 {
                    r == Ok::<(), u16>(()) && final(self)@ == v
                } else if !path::is_allowed(save_path@, v.download_dir) {
                    r == Err::<(), u16>(BAD_REQUEST) && final(self)@ == v
                } else {
                    r == Ok::<(), u16>(()) && final(self)@ == (AppView {
                        categories: v.categories.insert(category@, save_path@),
                        ..v
                    })
                }
            }),
    {
        if let Err(e) = self.require_auth(cookie, now) {
            return Err(e);
        }
        if text::chars_of(&category).len() == 0 {
            return Ok(());
        }
        if !path::validate_save_path(&save_path, &self.download_dir) {
            return Err(BAD_REQUEST);
        }
        self.categories.insert(category, save_path);
        Ok(())
    }

    /// Takes up a category that was stored before a restart.
    pub fn restore_category(&mut self, name: String, save_path: String)
        requires
            old(self).wf(),
        ensures
            final(self).wf(),
            final(self)@ == (AppView {
                categories: old(self)@.categories.insert(name@, save_path@),
                ..old(self)@
            }),
    {
        self.categories.insert(name, save_path);
    }

    /// The categories and where their torrents are saved.
    pub fn torrents_categories(&mut self, cookie: Option<&str>, now: u64) -> (r: Result<
        Vec<(String, String)>,
        u16,
    >)
        requires
            old(self).wf(),
        ensures
            final(self).wf(),
            final(self)@ == gated(old(self)@, cookie, now),
            match r {
                Ok(list) => lets_in(old(self)@, cookie, now) && lists_categories(
                    list@,
                    old(self)@.categories,
                ),
                Err(e) => !lets_in(old(self)@, cookie, now) && e == FORBIDDEN,
            },
    {
        if let Err(e) = self.require_auth(cookie, now) {
            return Err(e);
        }
        let mut out: Vec<(String, String)> = Vec::new();
        let mut i: usize = 0;
        while i < self.categories.len()
            invariant
                self.wf(),
                i <= self.categories.rows().len(),
                out@.len() == i,
                forall|j: int|
                    0 <= j < i ==> (#[trigger] out@[j]).0@ == self.categories.rows()[j].0@
                        && out@[j].1@ == self.categories.rows()[j].1@,
            decreases self.categories.rows().len() - i,
        {
            let (name, save_path) = self.categories.row(i);
            out.push((name.clone(), save_path.clone()));
            i += 1;
        }
        proof {
            lemma_lists_categories(self.categories.rows(), out@);
        }
        Ok(out)
    }
}

/// The list holds each category once, with its path, and nothing else.
pub open spec fn lists_categories(
    list: Seq<(String, String)>,
    m: Map<Seq<char>, Seq<char>>,
) -> bool {
    &&& forall|i: int, j: int|
        0 <= i < list.len() && 0 <= j < list.len() && (#[trigger] list[i]).0@ == (
        #[trigger] list[j]).0@ ==> i == j
    &&& forall|i: int|
        0 <= i < list.len() ==> m.contains_key((#[trigger] list[i]).0@) && m[list[i].0@]
            == list[i].1@
    &&& forall|k: Seq<char>| #[trigger]
        m.contains_key(k) ==> exists|i: int| 0 <= i < list.len() && (#[trigger] list[i]).0@ == k
}

proof fn lemma_lists_categories(rows: Seq<(String, String)>, list: Seq<(String, String)>)
    requires
        crate::table::keys_distinct(rows),
        list.len() == rows.len(),
        forall|j: int|
            0 <= j < list.len() ==> (#[trigger] list[j]).0@ == rows[j].0@ && list[j].1@
                == rows[j].1@,
    ensures
        lists_categories(list, crate::table::entries_map(rows)),
{
    let m = crate::table::entries_map(rows);
    assert forall|k: Seq<char>| #[trigger] m.contains_key(k) implies exists|i: int|
        0 <= i < list.len() && (#[trigger] list[i]).0@ == k by {
        let i = crate::table::entry_of(rows, k);
        assert(list[i].0@ == k);
    }
}

/// The address of a client: that of its connection, or the one that a trusted proxy forwards it
/// for, if that can be read.
pub fn choose_client_ip(trusted: &Vec<Ip>, peer: Ip, forwarded: Option<Ip>) -> (r: Ip)
    ensures
        r == client_ip(trusted@, peer, forwarded),
{
    let mut i: usize = 0;
    while i < trusted.len()
        invariant
            i <= trusted@.len(),
            forall|j: int| 0 <= j < i ==> #[trigger] trusted@[j] != peer,
        decreases trusted@.len() - i,
    {
        if trusted[i] == peer {
            return match forwarded {
                Some(ip) => ip,
                None => peer,
            };
        }
        i += 1;
    }
    peer
}

/// The address of a client with a connection from `peer`, which may be forwarded.
pub open spec fn client_ip(trusted: Seq<Ip>, peer: Ip, forwarded: Option<Ip>) -> Ip {
    match forwarded {
        Some(ip) => if trusted.contains(peer) {
            ip
        } else {
            peer
        },
        None => peer,
    }
}

/// The text in which a forwarding header names the client: what comes before the first comma.
pub open spec fn forwarded_text(header: Seq<char>) -> Seq<char> {
    text::trim(text::split(header, ',')[0])
}

/// `r` is the address of a client whose forwarding header names it by a text that the reader was
/// asked about.
pub open spec fn is_forwarded_ip<F: Fn(&str) -> Option<Ip>>(
    read: F,
    trusted: Seq<Ip>,
    peer: Ip,
    named: Seq<char>,
    r: Ip,
) -> bool {
    exists|forwarded: Option<Ip>| #[trigger]
        crate::ip::reads(read, named, forwarded) && r == client_ip(trusted, peer, forwarded)
}

/// The address of a client: that of its connection, or the one that the forwarding header of a
/// trusted proxy names first, if that can be read. `read` tells the address that a text stands for.
pub fn resolve_client_ip<F: Fn(&str) -> Option<Ip>>(
    trusted: &Vec<Ip>,
    peer: Ip,
    header: Option<&str>,
    read: &F,
) -> (r: Ip)
    requires
        crate::ip::is_reader(*read),
    ensures
        match header {
            Some(h) => is_forwarded_ip(*read, trusted@, peer, forwarded_text(h@), r),
            None => r == peer,
        },
        !trusted@.contains(peer) ==> r == peer,
{
    match header {
        Some(h) => {
            let candidate = forwarded_candidate(h);
            let forwarded = read(&candidate);
            assert(crate::ip::reads(*read, forwarded_text(h@), forwarded));
            choose_client_ip(trusted, peer, forwarded)
        },
        None => peer,
    }
}

/// The text in which a forwarding header names the client.
pub fn forwarded_candidate(header: &str) -> (r: String)
    ensures
        r@ == forwarded_text(header@),
{
    let pieces = text::split_at_char(&text::chars_of(header), ',');
    proof {
        text::split_is_never_empty(header@, ',');
    }
    text::string_of(&text::trimmed(&pieces[0]))
}

/// The texts in which a list names the trusted proxies, separated by commas.
pub open spec fn proxy_texts(list: Seq<char>) -> Seq<Seq<char>> {
    text::split(list, ',').map_values(|p: Seq<char>| text::trim(p))
}

/// The addresses among the first `n` answers of a reader.
pub open spec fn found(answers: Seq<Option<Ip>>, n: int) -> Seq<Ip>
    decreases n,
{
    if n <= 0 {
        Seq::empty()
    } else {
        match answers[n - 1] {
            Some(ip) => found(answers, n - 1).push(ip),
            None => found(answers, n - 1),
        }
    }
}

/// The answers are what the reader gives for the texts.
pub open spec fn answers_texts<F: Fn(&str) -> Option<Ip>>(
    read: F,
    texts: Seq<Seq<char>>,
    answers: Seq<Option<Ip>>,
) -> bool {
    &&& answers.len() == texts.len()
    &&& forall|i: int|
        0 <= i < texts.len() ==> crate::ip::reads(read, #[trigger] texts[i], answers[i])
}

/// The trusted proxies that a list names, separated by commas; what cannot be read is passed over.
/// `read` tells the address that a text stands for.
pub fn trusted_proxies<F: Fn(&str) -> Option<Ip>>(list: &str, read: &F) -> (r: Vec<Ip>)
    requires
        crate::ip::is_reader(*read),
    ensures
        exists|answers: Seq<Option<Ip>>| #[trigger]
            answers_texts(*read, proxy_texts(list@), answers) && r@ == found(
                answers,
                answers.len() as int,
            ),
{
    let pieces = text::split_at_char(&text::chars_of(list), ',');
    let ghost texts = proxy_texts(list@);
    let ghost mut answers: Seq<Option<Ip>> = Seq::empty();
    let mut out: Vec<Ip> = Vec::new();
    let mut i: usize = 0;
    assert(text::texts(pieces@) == text::split(list@, ','));
    while i < pieces.len()
        invariant
            i <= pieces@.len(),
            texts == text::texts(pieces@).map_values(|p: Seq<char>| text::trim(p)),
            crate::ip::is_reader(*read),
            answers_texts(*read, texts.take(i as int), answers),
            out@ == found(answers, i as int),
        decreases pieces@.len() - i,
    {
        let candidate = text::string_of(&text::trimmed(&pieces[i]));
        assert(candidate@ == texts[i as int]);
        let answer = read(&candidate);
        proof {
            lemma_found_before(answers, answer, i as int);
            answers = answers.push(answer);
        }
        if let Some(ip) = answer {
            out.push(ip);
        }
        i += 1;
    }
    assert(texts.take(texts.len() as int) =~= texts);
    out
}

proof fn lemma_found_before(answers: Seq<Option<Ip>>, answer: Option<Ip>, n: int)
    requires
        n <= answers.len(),
    ensures
        found(answers.push(answer), n) == found(answers, n),
    decreases n,
{
    if n > 0 {
        lemma_found_before(answers, answer, n - 1);
    }
}

/// The cookie that a login hands out lets the client in: what the client sends back is the part
/// before the first semicolon, it names the session that was opened, and the session is let in
/// until it has gone unused for the idle limit.
pub proof fn login_cookie_lets_in(v: AppView, ip: Ip, sid: Seq<char>, begun: u64, now: u64)
    requires
        is_sid(sid),
    ensures
        text::split(sid_cookie(sid), ';')[0] == "SID="@ + sid,
        session::cookie_sid("SID="@ + sid) == Some(sid),
        session::lets_in(logged_in(v, ip, sid, begun).sessions, Some(sid), now)
            <==> session::since(now, begun) < session::SESSION_IDLE_TTL,
{
    let own = "SID="@ + sid;
    let rest = "; HttpOnly; SameSite=Strict; Path=/"@;
    reveal_strlit("SID=");
    reveal_strlit("; HttpOnly; SameSite=Strict; Path=/");
    text::split_begins_with(own, rest, ';');
    session::cookie_reads_back(sid);
}

/// The states that an API goes through while an address fails to log in at the given moments.
pub open spec fn failed_logins(states: Seq<AppView>, ip: Ip, times: Seq<u64>) -> bool {
    &&& states.len() == times.len() + 1
    &&& forall|i: int|
        0 <= i < times.len() ==> login_failed(#[trigger] states[i], states[i + 1], ip, times[i])
}

proof fn lemma_failed_logins(states: Seq<AppView>, ip: Ip, times: Seq<u64>, n: int)
    requires
        failed_logins(states, ip, times),
        0 <= n <= times.len(),
        states[0].attempts.dom().finite(),
        states[0].attempts.dom().insert(ip).len() < limiter::LOGIN_ATTEMPTS_MAX,
    ensures
        states[n].attempts == limiter::after_failed_logins(states[0].attempts, ip, times.take(n)),
        states[n].attempts.dom().subset_of(states[0].attempts.dom().insert(ip)),
    decreases n,
{
    let m = states[0].attempts;
    if n > 0 {
        lemma_failed_logins(states, ip, times, n - 1);
        let before = states[n - 1];
        vstd::set_lib::lemma_len_subset(before.attempts.dom(), m.dom().insert(ip));
        limiter::failure_is_only_counted_below_cap(
            before.attempts,
            states[n].attempts,
            ip,
            times[n - 1],
        );
        assert(times.take(n).drop_last() =~= times.take(n - 1));
    }
}

/// An address is answered that it has tried too often exactly as long as ten of its failed logins
/// lie within the last minute, as long as there is room to remember its failures.
pub proof fn repeated_failures_are_answered(
    states: Seq<AppView>,
    ip: Ip,
    times: Seq<u64>,
    now: u64,
)
    requires
        failed_logins(states, ip, times),
        limiter::bounded(states[0].attempts),
        limiter::in_order(limiter::attempts_of(states[0].attempts, ip) + times),
        states[0].attempts.dom().insert(ip).len() < limiter::LOGIN_ATTEMPTS_MAX,
    ensures
        limiter::is_limited(states.last().attempts, ip, now) <==> limiter::recent(
            limiter::attempts_of(states[0].attempts, ip) + times,
            now,
        ) >= limiter::LOGIN_MAX_FAILURES,
{
    lemma_failed_logins(states, ip, times, times.len() as int);
    assert(times.take(times.len() as int) =~= times);
    limiter::repeated_failures_limit(states[0].attempts, ip, times, now);
}

/// The cookie that a logout hands out names no session that a login could have opened.
pub proof fn logout_cookie_names_no_session()
    ensures
        text::split(farewell().set_cookie->0, ';')[0] == "SID="@,
        session::cookie_sid("SID="@) == Some(Seq::<char>::empty()),
        !is_sid(Seq::<char>::empty()),
{
    let c = "SID=; HttpOnly; SameSite=Strict; Path=/; Max-Age=0"@;
    reveal_strlit("SID=");
    reveal_strlit("SID=; HttpOnly; SameSite=Strict; Path=/; Max-Age=0");
    let rest = c.skip(4);
    assert(c =~= "SID="@ + rest);
    text::split_begins_with("SID="@, rest, ';');
    session::cookie_reads_back(Seq::<char>::empty());
}

/// A category that was created or taken up again is listed with its path, and those that were there
/// before stay.
pub proof fn created_category_is_listed(
    m: Map<Seq<char>, Seq<char>>,
    category: Seq<char>,
    save_path: Seq<char>,
    list: Seq<(String, String)>,
    other: Seq<char>,
)
    requires
        lists_categories(list, m.insert(category, save_path)),
    ensures
        exists|i: int|
            0 <= i < list.len() && (#[trigger] list[i]).0@ == category && list[i].1@ == save_path,
        other != category && m.contains_key(other) ==> exists|i: int|
            0 <= i < list.len() && (#[trigger] list[i]).0@ == other && list[i].1@ == m[other],
{
    let after = m.insert(category, save_path);
    assert(after.contains_key(category));
    if other != category && m.contains_key(other) {
        assert(after.contains_key(other));
    }
}

/// The categories after the first `n` of a list have been taken up.
pub open spec fn after_restores(
    m: Map<Seq<char>, Seq<char>>,
    list: Seq<(String, String)>,
    n: int,
) -> Map<Seq<char>, Seq<char>>
    decreases n,
{
    if n <= 0 {
        m
    } else {
        after_restores(m, list, n - 1).insert(list[n - 1].0@, list[n - 1].1@)
    }
}

/// Categories survive a restart: taking up those that were listed, in whatever order, gives the
/// categories that were there.
pub proof fn categories_survive_restart(m: Map<Seq<char>, Seq<char>>, list: Seq<(String, String)>)
    requires
        lists_categories(list, m),
    ensures
        after_restores(Map::empty(), list, list.len() as int) == m,
{
    let n = list.len() as int;
    let after = after_restores(Map::empty(), list, n);
    lemma_after_restores(list, n);
    assert forall|k: Seq<char>| #[trigger] m.contains_key(k) implies after.contains_key(k)
        && after[k] == m[k] by {
        let i = choose|i: int| 0 <= i < list.len() && (#[trigger] list[i]).0@ == k;
        assert(after.contains_key(list[i].0@));
    }
    assert forall|k: Seq<char>| #[trigger] after.contains_key(k) implies m.contains_key(k) by {
        let i = choose|i: int| 0 <= i < n && (#[trigger] list[i]).0@ == k;
        assert(m.contains_key(list[i].0@));
    }
    assert(after =~= m);
}

proof fn lemma_after_restores(list: Seq<(String, String)>, n: int)
    requires
        0 <= n <= list.len(),
        forall|i: int, j: int|
            0 <= i < list.len() && 0 <= j < list.len() && (#[trigger] list[i]).0@ == (
            #[trigger] list[j]).0@ ==> i == j,
    ensures
        forall|i: int|
            0 <= i < n ==> after_restores(Map::empty(), list, n).contains_key(
                (#[trigger] list[i]).0@,
            ) && after_restores(Map::empty(), list, n)[list[i].0@] == list[i].1@,
        forall|k: Seq<char>| #[trigger]
            after_restores(Map::empty(), list, n).contains_key(k) ==> exists|i: int|
                0 <= i < n && (#[trigger] list[i]).0@ == k,
    decreases n,
{
    if n > 0 {
        lemma_after_restores(list, n - 1);
        let before = after_restores(Map::empty(), list, n - 1);
        let after = after_restores(Map::empty(), list, n);
        assert forall|k: Seq<char>| #[trigger] after.contains_key(k) implies exists|i: int|
            0 <= i < n && (#[trigger] list[i]).0@ == k by {
            if before.contains_key(k) {
                let i = choose|i: int| 0 <= i < n - 1 && (#[trigger] list[i]).0@ == k;
                assert(list[i].0@ == k);
            } else {
                assert(list[n - 1].0@ == k);
            }
        }
    }
}

/// A text that lists one info hash selects it.
pub proof fn one_hash_selects_itself(hash: Seq<u8>)
    requires
        hash.len() == 20,
    ensures
        listed_hashes(hex::encoded(hash)) == seq![hex::encoded(hash)],
{
    let e = hex::encoded(hash);
    hex::encoded_is_infohash(hash);
    text::split_without_separator(e, '|');
    assert(valid_pieces(seq![e], 0) =~= Seq::<Seq<char>>::empty());
}

/// What logins and logouts are answered: their status, what they say, and the cookie, which only a
/// login that is accepted fills with a session id.
pub proof fn logins_are_answered_by_status(sid: Seq<char>)
    ensures
        welcome(sid).status == 200,
        welcome(sid).body == "Ok."@,
        welcome(sid).set_cookie == Some("SID="@ + sid + "; HttpOnly; SameSite=Strict; Path=/"@),
        login_fails().status == 401,
        login_fails().body == "Fails."@,
        login_fails().set_cookie is None,
        too_many().status == 429,
        too_many().body == "Too many login attempts."@,
        too_many().set_cookie is None,
        farewell().status == 200,
        farewell().body == "Ok."@,
        farewell().set_cookie == Some("SID=; HttpOnly; SameSite=Strict; Path=/; Max-Age=0"@),
        BAD_REQUEST == 400,
        NOT_FOUND == 404,
{
}

/// Only a login under the right name is accepted, and under that name exactly with a password that
/// the hash accepts.
pub proof fn logins_need_name_and_password(
    credentials: Credentials,
    username: Seq<char>,
    password: Seq<u8>,
)
    ensures
        username != credentials.username@ ==> !credentials.accepts(username, password),
        credentials.accepts(credentials.username@, password) <==> password::accepts(
            credentials.password_hash@,
            password,
        ),
{
}

/// A request is let in by the session that its cookie names, and by nothing else.
pub proof fn requests_are_let_in_by_session(v: AppView, cookie: &str, now: u64)
    ensures
        !lets_in(v, None, now),
        lets_in(v, Some(cookie), now) <==> session::cookie_sid(cookie@) is Some
            && v.sessions.contains_key(session::cookie_sid(cookie@)->0) && now
            - v.sessions[session::cookie_sid(cookie@)->0].last_used < 24 * 60 * 60 * 1_000_000_000,
{
}

/// A login that is accepted opens its session and forgets the failures of its own address; one that
/// fails changes nothing but failures; a request that is let in or refused changes nothing but
/// sessions.
pub proof fn logins_leave_the_rest(
    v: AppView,
    after: AppView,
    cookie: Option<&str>,
    ip: Ip,
    other: Ip,
    sid: Seq<char>,
    now: u64,
)
    ensures
        ({
            let opened = logged_in(v, ip, sid, now);
            &&& opened.sessions.contains_key(sid) && opened.sessions[sid].last_used == now
            &&& opened.sessions.remove(sid) == v.sessions.remove(sid)
            &&& !opened.attempts.contains_key(ip)
            &&& other != ip ==> opened.attempts.contains_key(other) == v.attempts.contains_key(
                other,
            )
            &&& other != ip && v.attempts.contains_key(other) ==> opened.attempts[other]
                == v.attempts[other]
            &&& opened.categories == v.categories && opened.download_dir == v.download_dir
        }),
        login_failed(v, after, ip, now) ==> {
            &&& after.sessions == v.sessions
            &&& after.categories == v.categories && after.download_dir == v.download_dir
            &&& after.attempts.contains_key(ip) && limiter::latest(after.attempts[ip]) == now
            &&& other != ip && after.attempts.contains_key(other) ==> v.attempts.contains_key(other)
                && after.attempts[other] == v.attempts[other]
        },
        ({
            let gone = gated(v, cookie, now);
            &&& gone.attempts == v.attempts
            &&& gone.categories == v.categories && gone.download_dir == v.download_dir
        }),
{
    let opened = logged_in(v, ip, sid, now);
    assert(opened.sessions.remove(sid) =~= v.sessions.remove(sid));
    if login_failed(v, after, ip, now) {
        let kept = choose|kept: Map<Ip, Seq<u64>>| #[trigger]
            limiter::makes_room(v.attempts, kept, now) && after.attempts == limiter::with_failure(
                kept,
                ip,
                now,
            );
        limiter::room_is_made_from_the_oldest(v.attempts, kept, now, other, ip);
        let times = limiter::attempts_of(kept, ip).push(now);
        assert(limiter::last_failures(times).last() == now);
    }
}

proof fn lemma_pieces_join(a: Seq<Seq<char>>, b: Seq<Seq<char>>, n: int)
    requires
        0 <= n <= b.len(),
    ensures
        valid_pieces(a + b, a.len() + n) == valid_pieces(a, a.len() as int) + valid_pieces(b, n),
    decreases n,
{
    let head = valid_pieces(a, a.len() as int);
    if n > 0 {
        lemma_pieces_join(a, b, n - 1);
        assert((a + b)[a.len() + n - 1] == b[n - 1]);
        let tail = valid_pieces(b, n - 1);
        assert((head + tail).push(b[n - 1]) =~= head + tail.push(b[n - 1]));
    } else {
        lemma_pieces_before(a, b, a.len() as int);
        assert(head + valid_pieces(b, 0) =~= head);
    }
}

proof fn lemma_pieces_before(a: Seq<Seq<char>>, b: Seq<Seq<char>>, n: int)
    requires
        0 <= n <= a.len(),
    ensures
        valid_pieces(a + b, n) == valid_pieces(a, n),
    decreases n,
{
    if n > 0 {
        lemma_pieces_before(a, b, n - 1);
        assert((a + b)[n - 1] == a[n - 1]);
    }
}

/// A list of hashes is read part by part: two lists with a bar between them give the hashes of the
/// one and then those of the other, and a part without bars gives itself if it is an info hash, and
/// nothing if not.
pub proof fn hash_lists_are_read_part_by_part(a: Seq<char>, b: Seq<char>, one: Seq<char>)
    requires
        !one.contains('|'),
    ensures
        listed_hashes(a.push('|') + b) == listed_hashes(a) + listed_hashes(b),
        hex::is_infohash(one) ==> listed_hashes(one) == seq![one],
        !hex::is_infohash(one) ==> listed_hashes(one).len() == 0,
{
    let pa = text::split(a, '|');
    let pb = text::split(b, '|');
    text::split_joins(a, b, '|');
    lemma_pieces_join(pa, pb, pb.len() as int);
    text::split_without_separator(one, '|');
    assert(valid_pieces(seq![one], 0) =~= Seq::<Seq<char>>::empty());
    assert(valid_pieces(seq![one], 1) =~= if hex::is_infohash(one) {
        seq![one]
    } else {
        Seq::empty()
    });
}

/// The word `all` selects every managed torrent, each once and no other; any other text selects what
/// it lists.
pub proof fn all_selects_every_torrent(
    v: crate::engine::EngineView,
    list: Seq<char>,
    chosen: Seq<Seq<char>>,
    h: Seq<u8>,
)
    requires
        selects(v, list, chosen),
        crate::engine::consistent(v),
        h.len() == 20,
    ensures
        list == "all"@ ==> (chosen.contains(hex::encoded(h)) <==> v.torrents.contains_key(h)),
        list == "all"@ ==> chosen.no_duplicates(),
        list != "all"@ ==> chosen == listed_hashes(list),
{
    if list == "all"@ {
        let all = choose|all: Seq<Seq<u8>>| #[trigger]
            crate::engine::lists_torrents(all, v.torrents) && chosen == crate::engine::encodings(
                all,
            );
        hex::decode_undoes_encode(h);
        assert forall|i: int| 0 <= i < all.len() implies (#[trigger] all[i]).len() == 20 by {
            assert(all.contains(all[i]));
        }
        if chosen.contains(hex::encoded(h)) {
            let i = choose|i: int| 0 <= i < chosen.len() && chosen[i] == hex::encoded(h);
            hex::decode_undoes_encode(all[i]);
            assert(all[i] == h);
            assert(all.contains(h));
        }
        if v.torrents.contains_key(h) {
            assert(all.contains(h));
            let i = choose|i: int| 0 <= i < all.len() && all[i] == h;
            assert(chosen[i] == hex::encoded(h));
        }
        assert forall|i: int, j: int| 0 <= i < chosen.len() && 0 <= j < chosen.len() && i
            != j implies chosen[i] != chosen[j] by {
            hex::decode_undoes_encode(all[i]);
            hex::decode_undoes_encode(all[j]);
            assert(all[i] != all[j]);
        }
    }
}

/// A request that names no torrent, or not by 40 small hexadecimal digits, makes no sense; one that
/// names a torrent that is not managed finds nothing; any other can be answered.
pub proof fn hashes_are_answered_by_status(
    v: crate::engine::EngineView,
    hash: Seq<u8>,
    t: Seq<char>,
)
    requires
        hash.len() == 20,
    ensures
        hash_problem(v, None) == Some(400u16),
        !hex::is_infohash(t) ==> hash_problem(v, Some(t)) == Some(400u16),
        !v.torrents.contains_key(hash) ==> hash_problem(v, Some(hex::encoded(hash))) == Some(404u16),
        v.torrents.contains_key(hash) ==> hash_problem(v, Some(hex::encoded(hash))) is None,
{
    hex::encoded_is_infohash(hash);
    hex::decode_undoes_encode(hash);
}

/// Only a trusted proxy is believed: a client has the address that one forwards it for, and without
/// one, or if none can be read, the address of its connection.
pub proof fn only_trusted_proxies_are_believed(
    trusted: Seq<Ip>,
    peer: Ip,
    ip: Ip,
    forwarded: Option<Ip>,
)
    ensures
        trusted.contains(peer) ==> client_ip(trusted, peer, Some(ip)) == ip,
        !trusted.contains(peer) ==> client_ip(trusted, peer, forwarded) == peer,
        client_ip(trusted, peer, None) == peer,
{
}

/// A client has the address that follows from what its header reads as, if the reader gives one
/// answer only.
pub proof fn forwarded_address_is_the_reading<F: Fn(&str) -> Option<Ip>>(
    read: F,
    trusted: Seq<Ip>,
    peer: Ip,
    named: Seq<char>,
    answer: Option<Ip>,
    r: Ip,
)
    requires
        crate::ip::reads(read, named, answer),
        forall|a: Option<Ip>, b: Option<Ip>| #[trigger]
            crate::ip::reads(read, named, a) && #[trigger] crate::ip::reads(read, named, b) ==> a
                == b,
    ensures
        is_forwarded_ip(read, trusted, peer, named, r) <==> r == client_ip(trusted, peer, answer),
{
}

/// A forwarding header names the client before its first comma, without the white space around it.
pub proof fn headers_name_the_client_first(first: Seq<char>, rest: Seq<char>)
    requires
        !first.contains(','),
    ensures
        forwarded_text(first) == text::trim(first),
        forwarded_text(first.push(',') + rest) == text::trim(first),
{
    text::split_joins(first, rest, ',');
    text::split_without_separator(first, ',');
    assert((text::split(first, ',') + text::split(rest, ','))[0] == first);
}

/// A list of proxies is read part by part, each without the white space around it.
pub proof fn proxy_lists_are_read_part_by_part(a: Seq<char>, b: Seq<char>, one: Seq<char>)
    requires
        !one.contains(','),
    ensures
        proxy_texts(a.push(',') + b) == proxy_texts(a) + proxy_texts(b),
        proxy_texts(one) == seq![text::trim(one)],
{
    text::split_joins(a, b, ',');
    text::split_without_separator(one, ',');
    assert(proxy_texts(a.push(',') + b) =~= proxy_texts(a) + proxy_texts(b));
    assert(proxy_texts(one) =~= seq![text::trim(one)]);
}

/// The addresses found are the answers that are one, in order.
pub proof fn found_addresses_keep_their_order(answers: Seq<Option<Ip>>, n: int, ip: Ip)
    requires
        0 <= n <= answers.len(),
    ensures
        found(answers, n).contains(ip) <==> exists|i: int|
            0 <= i < n && #[trigger] answers[i] == Some(ip),
        n < answers.len() && answers[n] is None ==> found(answers, n + 1) == found(answers, n),
        n < answers.len() && answers[n] is Some ==> found(answers, n + 1) == found(answers, n)
            + seq![answers[n]->0],
    decreases n,
{
    if n > 0 {
        found_addresses_keep_their_order(answers, n - 1, ip);
        let before = found(answers, n - 1);
        let after = found(answers, n);
        if before.contains(ip) {
            let k = choose|k: int| 0 <= k < before.len() && before[k] == ip;
            assert(after[k] == ip);
        }
        if answers[n - 1] == Some(ip) {
            assert(after[after.len() - 1] == ip);
        }
    }
    if n < answers.len() && answers[n] is Some {
        assert(found(answers, n + 1) =~= found(answers, n) + seq![answers[n]->0]);
    }
}

/// A session id has hyphens at its ninth, fourteenth, nineteenth and twenty-fourth places and nowhere
/// else, and small hexadecimal digits at all others; the digits after the second and third hyphens
/// tell the version and the variant.
pub proof fn sids_are_five_groups(s: Seq<char>)
    ensures
        is_sid(s) <==> {
            &&& s.len() == 8 + 1 + 4 + 1 + 4 + 1 + 4 + 1 + 12
            &&& forall|i: int|
                0 <= i < s.len() ==> (#[trigger] s[i] == '-' || 0x30 <= s[i] as int <= 0x39 || 0x61
                    <= s[i] as int <= 0x66)
            &&& forall|i: int|
                0 <= i < s.len() ==> (#[trigger] s[i] == '-' <==> i == 8 || i == 13 || i == 18 || i
                    == 23)
            &&& s[14] == '4'
            &&& s[19] == '8' || s[19] == '9' || s[19] == 'a' || s[19] == 'b'
        },
{
}

/// A request that names a session, let in or refused, forgets the sessions that have gone unused for
/// a day, and renews the one that it names if that is not among them; a request that names none
/// changes nothing.
pub proof fn requests_renew_their_session(v: AppView, cookie: &str, k: Seq<char>, now: u64)
    ensures
        gated(v, None, now) == v,
        session::cookie_sid(cookie@) is None ==> gated(v, Some(cookie), now) == v,
        session::cookie_sid(cookie@) matches Some(sid) ==> {
            let after = gated(v, Some(cookie), now).sessions;
            &&& after.contains_key(k) <==> v.sessions.contains_key(k) && now
                - v.sessions[k].last_used < 24 * 60 * 60 * 1_000_000_000
            &&& after.contains_key(k) ==> after[k].created == v.sessions[k].created
            &&& after.contains_key(k) && k != sid ==> after[k] == v.sessions[k]
            &&& after.contains_key(sid) ==> after[sid].last_used == now
        },
{
}

/// A reader that gives one answer only for each text of a list gives one list of answers, with one
/// for each text at its place.
pub proof fn texts_are_answered_in_place<F: Fn(&str) -> Option<Ip>>(
    read: F,
    texts: Seq<Seq<char>>,
    answers: Seq<Option<Ip>>,
    expected: Seq<Option<Ip>>,
)
    requires
        expected.len() == texts.len(),
        forall|i: int|
            0 <= i < texts.len() ==> crate::ip::reads(read, #[trigger] texts[i], expected[i]),
        forall|t: Seq<char>, a: Option<Ip>, b: Option<Ip>| #[trigger]
            crate::ip::reads(read, t, a) && #[trigger] crate::ip::reads(read, t, b) ==> a == b,
    ensures
        answers_texts(read, texts, answers) <==> answers == expected,
{
    if answers_texts(read, texts, answers) {
        assert forall|i: int| 0 <= i < texts.len() implies answers[i] == expected[i] by {
            assert(crate::ip::reads(read, texts[i], answers[i]));
        }
        assert(answers =~= expected);
    }
}

} // verus!
