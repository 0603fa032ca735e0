//! Login sessions, known to the browser by a cookie.
use vstd::prelude::*;
use crate::table::Table;
use crate::text;

verus! {

/// How long a session may go unused, in nanoseconds: one day.
pub const SESSION_IDLE_TTL: u64 = 86_400_000_000_000;

/// The status of a refused request.
pub const FORBIDDEN: u16 = 403;

/// When a session began and when it was last used, in nanoseconds.
#[derive(Clone, Copy, Debug, PartialEq, Eq, Structural)]
pub struct SessionMeta {
    pub created: u64,
    pub last_used: u64,
}

impl View for SessionMeta {
    type V = SessionMeta;

    open spec fn view(&self) -> SessionMeta {
        *self
    }
}

/// How long before `now` the moment `earlier` was; nothing if it was not before.
pub open spec fn since(now: u64, earlier: u64) -> int {
    if now >= earlier {
        now - earlier
    } else {
        0
    }
}

/// The value after `SID=` in the first of the pieces that begins so.
pub open spec fn first_sid(pieces: Seq<Seq<char>>) -> Option<Seq<char>>
    decreases pieces.len(),
{
    if pieces.len() == 0 {
        None
    } else if "SID="@.is_prefix_of(text::trim(pieces[0])) {
        Some(text::trim(pieces[0]).skip(4))
    } else {
        first_sid(pieces.skip(1))
    }
}

/// The session id in a cookie header.
pub open spec fn cookie_sid(cookie: Seq<char>) -> Option<Seq<char>> {
    first_sid(text::split(cookie, ';'))
}

/// The session id in the cookie header of a request, which may have none.
pub open spec fn request_sid(cookie: Option<Seq<char>>) -> Option<Seq<char>> {
    match cookie {
        Some(c) => cookie_sid(c),
        None => None,
    }
}

/// The characters of an optional string.
pub open spec fn text_of(s: Option<&str>) -> Option<Seq<char>> {
    match s {
        Some(t) => Some(t@),
        None => None,
    }
}

/// The session has been used within the idle limit.
pub open spec fn is_live(meta: SessionMeta, now: u64) -> bool {
    since(now, meta.last_used) < SESSION_IDLE_TTL
}

/// The sessions that have been used within the idle limit.
pub open spec fn live(m: Map<Seq<char>, SessionMeta>, now: u64) -> Map<Seq<char>, SessionMeta> {
    Map::new(|k: Seq<char>| m.contains_key(k) && is_live(m[k], now), |k: Seq<char>| m[k])
}

/// A request with session id `sid` is let in at the moment `now`.
pub open spec fn lets_in(m: Map<Seq<char>, SessionMeta>, sid: Option<Seq<char>>, now: u64) -> bool {
    sid matches Some(s) && m.contains_key(s) && is_live(m[s], now)
}

/// The sessions after a request with session id `sid` at the moment `now`.
pub open spec fn after_request(
    m: Map<Seq<char>, SessionMeta>,
    sid: Option<Seq<char>>,
    now: u64,
) -> Map<Seq<char>, SessionMeta> {
    match sid {
        None => m,
        Some(s) => if lets_in(m, sid, now) {
            live(m, now).insert(s, SessionMeta { created: m[s].created, last_used: now })
        } else {
            live(m, now)
        },
    }
}

/// The sessions after one with id `sid` has begun.
pub open spec fn after_start(m: Map<Seq<char>, SessionMeta>, sid: Seq<char>, now: u64) -> Map<
    Seq<char>,
    SessionMeta,
> {
    m.insert(sid, SessionMeta { created: now, last_used: now })
}

/// The sessions after a logout by a request with session id `sid`.
pub open spec fn after_logout(m: Map<Seq<char>, SessionMeta>, sid: Option<Seq<char>>) -> Map<
    Seq<char>,
    SessionMeta,
> {
    match sid {
        Some(s) => m.remove(s),
        None => m,
    }
}

/// The session id in the cookie header of a request.
pub fn extract_sid(cookie: Option<&str>) -> (r: Option<String>)
    ensures
        match r {
            Some(s) => request_sid(text_of(cookie)) == Some(s@),
            None => request_sid(text_of(cookie)) is None,
        },
{
    let c = match cookie {
        Some(c) => c,
        None => {
            return None;
        },
    };
    let key = text::chars_of("SID=");
    proof {
        reveal_strlit("SID=");
    }
    let pieces = text::split_at_char(&text::chars_of(c), ';');
    let ghost all = text::split(c@, ';');
    assert(all.skip(0) == all);
    let mut i: usize = 0;
    while i < pieces.len()
        invariant
            i <= pieces@.len(),
            text::texts(pieces@) == all,
            all == text::split(c@, ';'),
            cookie == Some(c),
            key@ == "SID="@,
            key@.len() == 4,
            first_sid(all.skip(i as int)) == first_sid(all),
        decreases pieces@.len() - i,
    {
        let piece = text::trimmed(&pieces[i]);
        assert(all.skip(i as int).skip(1) == all.skip(i + 1));
        if text::starts_with(&piece, &key) {
            let value = text::part(&piece, 4, piece.len());
            return Some(text::string_of(&value));
        }
        i += 1;
    }
    None
}

/// How long before `now` the moment `earlier` was.
pub fn elapsed(now: u64, earlier: u64) -> (r: u64)
    ensures
        r == since(now, earlier),
{
    if now >= earlier {
        now - earlier
    } else {
        0
    }
}

/// The sessions that are open.
pub struct Sessions {
    table: Table<String, SessionMeta>,
}

impl Sessions {
    /// No session id occurs twice.
    pub closed spec fn wf(&self) -> bool {
        self.table.wf()
    }

    /// The sessions by their id.
    pub closed spec fn view(&self) -> Map<Seq<char>, SessionMeta> {
        self.table@
    }

    /// No session is open.
    pub fn new() -> (r: Self)
        ensures
            r.wf(),
            r@ == Map::<Seq<char>, SessionMeta>::empty(),
    {
        Sessions { table: Table::new() }
    }

    /// Forgets the sessions that have gone unused too long.
    fn reap(&mut self, now: u64)
        requires
            old(self).wf(),
        ensures
            final(self).wf(),
            final(self)@ == live(old(self)@, now),
    {
        let ghost all = self.table@;
        let mut kept: Table<String, SessionMeta> = Table::new();
        while self.table.len() > 0
            invariant
                self.table.wf(),
                kept.wf(),
                forall|k: Seq<char>| #[trigger]
                    self.table@.contains_key(k) ==> all.contains_key(k) && all[k] == self.table@[k],
                forall|k: Seq<char>| #[trigger]
                    kept@.contains_key(k) <==> all.contains_key(k) && !self.table@.contains_key(k)
                        && is_live(all[k], now),
                forall|k: Seq<char>| #[trigger] kept@.contains_key(k) ==> kept@[k] == all[k],
            decreases self.table.rows().len(),
        {
            if let Some((sid, meta)) = self.table.pop() {
                if elapsed(now, meta.last_used) < SESSION_IDLE_TTL {
                    kept.insert(sid, meta);
                }
            }
        }
        self.table = kept;
    }

    /// Lets a request in if its cookie names a session in use, which counts as a use of it; on
    /// the way, sessions that have gone unused too long are forgotten.
    pub fn require_auth(&mut self, cookie: Option<&str>, now: u64) -> (r: Result<(), u16>)
        requires
            old(self).wf(),
        ensures
            final(self).wf(),
            final(self)@ == after_request(old(self)@, request_sid(text_of(cookie)), now),
            r == (if lets_in(old(self)@, request_sid(text_of(cookie)), now) {
                Ok::<(), u16>(())
            } else {
                Err::<(), u16>(FORBIDDEN)
            }),
    {
        let sid = match extract_sid(cookie) {
            Some(s) => s,
            None => {
                return Err(FORBIDDEN);
            },
        };
        self.reap(now);
        match self.table.get_mut(&sid) {
            Some(meta) => {
                meta.last_used = now;
                Ok(())
            },
            None => Err(FORBIDDEN),
        }
    }

    /// Opens a session.
    pub fn start(&mut self, sid: String, now: u64)
        requires
            old(self).wf(),
        ensures
            final(self).wf(),
            final(self)@ == after_start(old(self)@, sid@, now),
    {
        self.table.insert(sid, SessionMeta { created: now, last_used: now });
    }

    /// Ends the session that a request's cookie names.
    pub fn end(&mut self, cookie: Option<&str>)
        requires
            old(self).wf(),
        ensures
            final(self).wf(),
            final(self)@ == after_logout(old(self)@, request_sid(text_of(cookie))),
    {
        if let Some(sid) = extract_sid(cookie) {
            let _ = self.table.remove(&sid);
        }
    }
}

/// The session id in a cookie that holds nothing else is read back as it was written.
pub proof fn cookie_reads_back(sid: Seq<char>)
    requires
        !sid.contains(';'),
        sid.len() > 0 ==> !text::is_whitespace(sid.last()),
    ensures
        cookie_sid("SID="@ + sid) == Some(sid),
{
    reveal_strlit("SID=");
    let c = "SID="@ + sid;
    text::split_without_separator(c, ';');
}

/// A session just opened lets its requests in until it has gone unused for the idle limit.
pub proof fn started_session_is_let_in(
    m: Map<Seq<char>, SessionMeta>,
    sid: Seq<char>,
    begun: u64,
    now: u64,
)
    ensures
        lets_in(after_start(m, sid, begun), Some(sid), now) <==> since(now, begun)
            < SESSION_IDLE_TTL,
{
}

/// A request that is let in renews its session's idle time and leaves the same answer for it.
pub proof fn use_renews_session(
    m: Map<Seq<char>, SessionMeta>,
    sid: Seq<char>,
    now: u64,
    later: u64,
)
    requires
        lets_in(m, Some(sid), now),
    ensures
        lets_in(after_request(m, Some(sid), now), Some(sid), later) <==> since(later, now)
            < SESSION_IDLE_TTL,
{
}

/// Opening a session changes nothing for the others.
pub proof fn sessions_coexist(
    m: Map<Seq<char>, SessionMeta>,
    sid: Seq<char>,
    other: Seq<char>,
    begun: u64,
    now: u64,
)
    requires
        sid != other,
    ensures
        lets_in(after_start(m, sid, begun), Some(other), now) == lets_in(m, Some(other), now),
{
}

/// After a logout the session's requests are refused and those of the others are answered as
/// before.
pub proof fn logout_ends_only_that_session(
    m: Map<Seq<char>, SessionMeta>,
    sid: Seq<char>,
    other: Seq<char>,
    now: u64,
)
    requires
        sid != other,
    ensures
        !lets_in(after_logout(m, Some(sid)), Some(sid), now),
        lets_in(after_logout(m, Some(sid)), Some(other), now) == lets_in(m, Some(other), now),
{
}

/// A session that has expired stays expired: no later request with its id is let in.
pub proof fn expired_session_stays_expired(
    m: Map<Seq<char>, SessionMeta>,
    sid: Seq<char>,
    now: u64,
    later: u64,
)
    requires
        !lets_in(m, Some(sid), now),
    ensures
        !lets_in(after_request(m, Some(sid), now), Some(sid), later),
{
}

/// A request of one session does not change whether another, still in use, is let in.
pub proof fn requests_leave_other_sessions(
    m: Map<Seq<char>, SessionMeta>,
    sid: Option<Seq<char>>,
    other: Seq<char>,
    now: u64,
    later: u64,
)
    requires
        now <= later,
        sid != Some(other),
    ensures
        lets_in(after_request(m, sid, now), Some(other), later) == lets_in(m, Some(other), later),
{
}

/// The session id of a cookie header is what follows `SID=` in the first of its parts, separated by
/// semicolons and with white space around them, that begins so; without such a part there is none.
pub proof fn first_sid_part_wins(cookie: Seq<char>, i: int)
    requires
        0 <= i < text::split(cookie, ';').len(),
        forall|j: int|
            0 <= j < i ==> !"SID="@.is_prefix_of(text::trim(#[trigger] text::split(cookie, ';')[j])),
    ensures
        "SID="@.is_prefix_of(text::trim(text::split(cookie, ';')[i])) ==> (cookie_sid(
            cookie,
        ) matches Some(sid) && text::trim(text::split(cookie, ';')[i]) == "SID="@ + sid),
        i == text::split(cookie, ';').len() - 1 && !"SID="@.is_prefix_of(
            text::trim(text::split(cookie, ';')[i]),
        ) ==> cookie_sid(cookie) is None,
{
    reveal_strlit("SID=");
    let pieces = text::split(cookie, ';');
    lemma_first_sid(pieces, i);
    let part = text::trim(pieces[i]);
    assert(pieces.skip(i)[0] == pieces[i]);
    if "SID="@.is_prefix_of(part) {
        assert(part =~= "SID="@ + part.skip(4));
    } else if i == pieces.len() - 1 {
        assert(pieces.skip(i).skip(1).len() == 0);
        assert(first_sid(pieces.skip(i).skip(1)) is None);
    }
}

proof fn lemma_first_sid(pieces: Seq<Seq<char>>, i: int)
    requires
        0 <= i < pieces.len(),
        forall|j: int| 0 <= j < i ==> !"SID="@.is_prefix_of(text::trim(#[trigger] pieces[j])),
    ensures
        first_sid(pieces) == first_sid(pieces.skip(i)),
    decreases i,
{
    if i > 0 {
        lemma_first_sid(pieces, i - 1);
        assert(pieces.skip(i - 1)[0] == pieces[i - 1]);
        assert(pieces.skip(i - 1).skip(1) =~= pieces.skip(i));
    } else {
        assert(pieces.skip(0) =~= pieces);
    }
}

/// A request is let in exactly if it names a session that is open and was last used less than a day
/// ago.
pub proof fn only_sessions_in_use_are_let_in(
    m: Map<Seq<char>, SessionMeta>,
    sid: Seq<char>,
    now: u64,
)
    ensures
        !lets_in(m, None, now),
        request_sid(None) is None,
        !m.contains_key(sid) ==> !lets_in(m, Some(sid), now),
        m.contains_key(sid) ==> (lets_in(m, Some(sid), now) <==> now - m[sid].last_used
            < 86_400_000_000_000),
{
}

/// A request forgets the sessions that have gone unused for a day, renews its own if it is let in,
/// and leaves all others as they are; a request without a session id changes nothing.
pub proof fn requests_forget_idle_sessions(
    m: Map<Seq<char>, SessionMeta>,
    sid: Seq<char>,
    k: Seq<char>,
    now: u64,
)
    ensures
        after_request(m, None, now) == m,
        ({
            let after = after_request(m, Some(sid), now);
            &&& after.contains_key(k) <==> m.contains_key(k) && now - m[k].last_used
                < 86_400_000_000_000
            &&& after.contains_key(k) ==> after[k].created == m[k].created
            &&& after.contains_key(k) && k != sid ==> after[k] == m[k]
            &&& after.contains_key(sid) ==> after[sid].last_used == now
        }),
{
}

/// A session that begins is kept from that moment on under its id, and no other changes; a logout
/// takes away the session that it names, and no other.
pub proof fn start_and_logout_touch_one_session(
    m: Map<Seq<char>, SessionMeta>,
    sid: Seq<char>,
    k: Seq<char>,
    now: u64,
)
    ensures
        after_start(m, sid, now).contains_key(sid),
        after_start(m, sid, now)[sid].created == now,
        after_start(m, sid, now)[sid].last_used == now,
        k != sid ==> after_start(m, sid, now).contains_key(k) == m.contains_key(k),
        k != sid && m.contains_key(k) ==> after_start(m, sid, now)[k] == m[k],
        !after_logout(m, Some(sid)).contains_key(sid),
        k != sid ==> after_logout(m, Some(sid)).contains_key(k) == m.contains_key(k),
        k != sid && m.contains_key(k) ==> after_logout(m, Some(sid))[k] == m[k],
        after_logout(m, None) == m,
{
}

/// The time since a moment is the difference, and nothing for a moment still to come.
pub proof fn time_passes_forward(now: u64, earlier: u64)
    ensures
        now >= earlier ==> earlier + since(now, earlier) == now,
        now < earlier ==> since(now, earlier) == 0,
{
}

/// The session id of a request is that of its cookie header, if it has one.
pub proof fn requests_name_sessions_by_cookie(cookie: &str)
    ensures
        request_sid(text_of(Some(cookie))) == cookie_sid(cookie@),
        request_sid(text_of(None)) is None,
        FORBIDDEN == 403,
        SESSION_IDLE_TTL == 24 * 60 * 60 * 1_000_000_000,
{
}

} // verus!
