//! A limit on failed logins for each client address.
use vstd::prelude::*;
use crate::ip::Ip;
use crate::session::elapsed;
use crate::table::Table;

verus! {

/// How long a failure counts, in nanoseconds: one minute.
pub const LOGIN_WINDOW: u64 = 60_000_000_000;

/// How many failures that count block further attempts.
pub const LOGIN_MAX_FAILURES: usize = 10;

/// How many addresses are kept before some are dropped.
pub const LOGIN_ATTEMPTS_MAX: usize = 4096;

/// The failures of one address.
#[derive(Debug)]
pub struct LoginAttempts {
    /// The moments of the last failures, the latest one last. There are never more of them than
    /// block an attempt.
    pub failures: Vec<u64>,
}

impl View for LoginAttempts {
    type V = Seq<u64>;

    open spec fn view(&self) -> Seq<u64> {
        self.failures@
    }
}

/// A failure at the moment `t` still counts.
pub open spec fn counts(t: u64, now: u64) -> bool {
    crate::session::since(now, t) < LOGIN_WINDOW
}

/// How many of these failures still count.
pub open spec fn recent(times: Seq<u64>, now: u64) -> int
    decreases times.len(),
{
    if times.len() == 0 {
        0
    } else {
        recent(times.drop_last(), now) + (if counts(times.last(), now) {
            1int
        } else {
            0int
        })
    }
}

/// The failures that are kept of an address; none of one that is not kept.
pub open spec fn attempts_of(m: Map<Ip, Seq<u64>>, ip: Ip) -> Seq<u64> {
    if m.contains_key(ip) {
        m[ip]
    } else {
        Seq::empty()
    }
}

/// The address has used up its failures of the last minute.
pub open spec fn is_limited(m: Map<Ip, Seq<u64>>, ip: Ip, now: u64) -> bool {
    recent(attempts_of(m, ip), now) >= LOGIN_MAX_FAILURES
}

/// The last of these failures, as many as block an attempt.
pub open spec fn last_failures(times: Seq<u64>) -> Seq<u64> {
    if times.len() <= LOGIN_MAX_FAILURES {
        times
    } else {
        times.skip(times.len() - LOGIN_MAX_FAILURES)
    }
}

/// What is kept after one more failure of an address.
pub open spec fn with_failure(m: Map<Ip, Seq<u64>>, ip: Ip, now: u64) -> Map<Ip, Seq<u64>> {
    m.insert(ip, last_failures(attempts_of(m, ip).push(now)))
}

/// The addresses with a failure that still counts.
pub open spec fn current(m: Map<Ip, Seq<u64>>, now: u64) -> Map<Ip, Seq<u64>> {
    Map::new(|k: Ip| m.contains_key(k) && recent(m[k], now) > 0, |k: Ip| m[k])
}

/// The moment of the latest failure; no failure comes before any.
pub open spec fn latest(times: Seq<u64>) -> int {
    if times.len() > 0 {
        times.last() as int
    } else {
        -1
    }
}

/// `kept` holds entries of `m`, and none of those left out has failed later than one kept.
pub open spec fn drops_oldest(m: Map<Ip, Seq<u64>>, kept: Map<Ip, Seq<u64>>) -> bool {
    &&& kept.submap_of(m)
    &&& forall|gone: Ip, stays: Ip|
        #![trigger m.contains_key(gone), kept.contains_key(stays)]
        m.contains_key(gone) && !kept.contains_key(gone) && kept.contains_key(stays) ==> latest(
            m[gone],
        ) <= latest(m[stays])
}

/// `kept` is what making room leaves of `m`. Below the cap nothing is dropped. At the cap the
/// addresses without a failure that still counts are dropped, and if that is not enough, those
/// whose latest failure is the oldest, until half the cap is left.
pub open spec fn makes_room(m: Map<Ip, Seq<u64>>, kept: Map<Ip, Seq<u64>>, now: u64) -> bool {
    if m.dom().len() < LOGIN_ATTEMPTS_MAX {
        kept == m
    } else if current(m, now).dom().len() < LOGIN_ATTEMPTS_MAX {
        kept == current(m, now)
    } else {
        &&& drops_oldest(current(m, now), kept)
        &&& kept.dom().len() == LOGIN_ATTEMPTS_MAX / 2
    }
}

/// `after` is what recording a failure of an address makes of `m`.
pub open spec fn records_failure(
    m: Map<Ip, Seq<u64>>,
    after: Map<Ip, Seq<u64>>,
    ip: Ip,
    now: u64,
) -> bool {
    exists|kept: Map<Ip, Seq<u64>>| #[trigger]
        makes_room(m, kept, now) && after == with_failure(kept, ip, now)
}

/// There are at most so many addresses as the cap, and of each no more failures than block an
/// attempt.
pub open spec fn bounded(m: Map<Ip, Seq<u64>>) -> bool {
    &&& m.dom().finite()
    &&& m.dom().len() <= LOGIN_ATTEMPTS_MAX
    &&& forall|ip: Ip| #[trigger] m.contains_key(ip) ==> m[ip].len() <= LOGIN_MAX_FAILURES
}

/// The failed logins of each address.
pub struct LoginLimiter {
    table: Table<Ip, LoginAttempts>,
}

fn count_recent(times: &[u64], now: u64) -> (r: usize)
    ensures
        r == recent(times@, now),
{
    let mut n: usize = 0;
    let mut i: usize = 0;
    while i < times.len()
        invariant
            i <= times@.len(),
            n <= i,
            n == recent(times@.take(i as int), now),
        decreases times@.len() - i,
    {
        assert(times@.take(i + 1).drop_last() == times@.take(i as int));
        if elapsed(now, times[i]) < LOGIN_WINDOW {
            n += 1;
        }
        i += 1;
    }
    assert(times@.take(times@.len() as int) == times@);
    n
}

fn no_later(a: &LoginAttempts, b: &LoginAttempts) -> (r: bool)
    ensures
        r == (latest(a@) <= latest(b@)),
{
    let (x, y) = (a.failures.len(), b.failures.len());
    if x == 0 {
        return true;
    }
    y > 0 && a.failures[x - 1] <= b.failures[y - 1]
}

impl LoginLimiter {
    /// No address occurs twice, and what is kept is bounded.
    pub closed spec fn wf(&self) -> bool {
        self.table.wf() && bounded(self@)
    }

    /// The last failures of each address.
    pub closed spec fn view(&self) -> Map<Ip, Seq<u64>> {
        self.table@
    }

    /// What is kept never grows past its bounds.
    pub proof fn stays_bounded(&self)
        requires
            self.wf(),
        ensures
            bounded(self@),
    {
    }

    /// Nothing has been recorded.
    pub fn new() -> (r: Self)
        ensures
            r.wf(),
            r@ == Map::<Ip, Seq<u64>>::empty(),
    {
        LoginLimiter { table: Table::new() }
    }

    /// Whether an address has used up its failures of the last minute.
    pub fn is_rate_limited(&self, ip: Ip, now: u64) -> (r: bool)
        requires
            self.wf(),
        ensures
            r == is_limited(self@, ip, now),
    {
        match self.table.get(&ip) {
            Some(a) => count_recent(&a.failures, now) >= LOGIN_MAX_FAILURES,
            None => false,
        }
    }

    fn drop_passed(&mut self, now: u64)
        requires
            old(self).wf(),
        ensures
            final(self).wf(),
            final(self)@ == current(old(self)@, now),
    {
        let ghost all = self.table@;
        let mut kept: Table<Ip, LoginAttempts> = Table::new();
        while self.table.len() > 0
            invariant
                self.table.wf(),
                kept.wf(),
                forall|k: Ip| #[trigger]
                    self.table@.contains_key(k) ==> all.contains_key(k) && all[k] == self.table@[k],
                forall|k: Ip| #[trigger]
                    kept@.contains_key(k) <==> all.contains_key(k) && !self.table@.contains_key(k)
                        && recent(all[k], now) > 0,
                forall|k: Ip| #[trigger] kept@.contains_key(k) ==> kept@[k] == all[k],
            decreases self.table.rows().len(),
        {
            if let Some((ip, a)) = self.table.pop() {
                if count_recent(&a.failures, now) > 0 {
                    kept.insert(ip, a);
                }
            }
        }
        self.table = kept;
        proof {
            lemma_fewer_stay_bounded(all, self@);
        }
    }

    /// The address whose latest failure is the oldest.
    fn oldest(&self) -> (r: Ip)
        requires
            self.wf(),
            self@.dom().len() > 0,
        ensures
            self@.contains_key(r),
            forall|k: Ip| #[trigger] self@.contains_key(k) ==> latest(self@[r]) <= latest(self@[k]),
    {
        proof {
            crate::table::lemma_len(self.table.rows());
        }
        let mut best: usize = 0;
        let mut i: usize = 1;
        while i < self.table.len()
            invariant
                self.wf(),
                best < i <= self.table.rows().len(),
                forall|j: int|
                    0 <= j < i ==> latest(self.table.rows()[best as int].1@) <= latest(
                        (#[trigger] self.table.rows()[j]).1@,
                    ),
            decreases self.table.rows().len() - i,
        {
            let (_, of_best) = self.table.row(best);
            let (_, a) = self.table.row(i);
            if !no_later(of_best, a) {
                best = i;
            }
            i += 1;
        }
        let (ip, _) = self.table.row(best);
        *ip
    }

    fn make_room(&mut self, now: u64)
        requires
            old(self).wf(),
        ensures
            final(self).wf(),
            makes_room(old(self)@, final(self)@, now),
            final(self)@.dom().len() < LOGIN_ATTEMPTS_MAX,
    {
        proof {
            crate::table::lemma_len(self.table.rows());
        }
        if self.table.len() < LOGIN_ATTEMPTS_MAX {
            return;
        }
        self.drop_passed(now);
        proof {
            crate::table::lemma_len(self.table.rows());
        }
        if self.table.len() < LOGIN_ATTEMPTS_MAX {
            return;
        }
        let ghost all = self@;
        while self.table.len() > LOGIN_ATTEMPTS_MAX / 2
            invariant
                self.wf(),
                drops_oldest(all, self@),
                self.table.rows().len() >= LOGIN_ATTEMPTS_MAX / 2,
            decreases self.table.rows().len(),
        {
            proof {
                crate::table::lemma_len(self.table.rows());
            }
            let ghost before = self@;
            let ip = self.oldest();
            let _ = self.table.remove(&ip);
            proof {
                lemma_drop_oldest(all, before, ip);
                lemma_fewer_stay_bounded(before, self@);
            }
        }
        proof {
            crate::table::lemma_len(self.table.rows());
        }
    }

    /// Counts a failed login of an address, making room first if too many are kept.
    pub fn record_login_failure(&mut self, ip: Ip, now: u64)
        requires
            old(self).wf(),
        ensures
            final(self).wf(),
            records_failure(old(self)@, final(self)@, ip, now),
            final(self)@.dom().finite(),
            final(self)@.dom().len() <= LOGIN_ATTEMPTS_MAX,
    {
        self.make_room(now);
        let mut failures = match self.table.get(&ip) {
            Some(a) => vstd::slice::slice_to_vec(a.failures.as_slice()),
            None => Vec::new(),
        };
        failures.push(now);
        if failures.len() > LOGIN_MAX_FAILURES {
            let _ = failures.remove(0);
        }
        self.table.insert(ip, LoginAttempts { failures });
    }

    /// Forgets the failures of an address.
    pub fn clear_login_attempts(&mut self, ip: Ip)
        requires
            old(self).wf(),
        ensures
            final(self).wf(),
            final(self)@ == old(self)@.remove(ip),
    {
        let ghost before = self@;
        let _ = self.table.remove(&ip);
        proof {
            lemma_fewer_stay_bounded(before, self@);
        }
    }
}

proof fn lemma_fewer_stay_bounded(m: Map<Ip, Seq<u64>>, kept: Map<Ip, Seq<u64>>)
    requires
        bounded(m),
        forall|k: Ip| #[trigger] kept.contains_key(k) ==> m.contains_key(k) && kept[k] == m[k],
    ensures
        bounded(kept),
{
    assert(kept.dom().subset_of(m.dom()));
    vstd::set_lib::lemma_len_subset(kept.dom(), m.dom());
}

proof fn lemma_drop_oldest(m: Map<Ip, Seq<u64>>, before: Map<Ip, Seq<u64>>, ip: Ip)
    requires
        drops_oldest(m, before),
        before.contains_key(ip),
        forall|k: Ip| #[trigger] before.contains_key(k) ==> latest(before[ip]) <= latest(before[k]),
    ensures
        drops_oldest(m, before.remove(ip)),
{
    let after = before.remove(ip);
    assert(forall|k: Ip| #[trigger]
        after.contains_key(k) ==> m.contains_key(k) && after[k] == m[k]);
}

/// What is kept after failed logins of one address at the given moments, with room for it.
pub open spec fn after_failed_logins(m: Map<Ip, Seq<u64>>, ip: Ip, times: Seq<u64>) -> Map<
    Ip,
    Seq<u64>,
>
    decreases times.len(),
{
    if times.len() == 0 {
        m
    } else {
        with_failure(after_failed_logins(m, ip, times.drop_last()), ip, times.last())
    }
}

/// No moment comes before an earlier one in the list.
pub open spec fn in_order(times: Seq<u64>) -> bool {
    forall|i: int, j: int| 0 <= i <= j < times.len() ==> times[i] <= times[j]
}

/// An address is limited exactly as long as ten of its failed logins lie within the last minute,
/// whenever they came and however many there were before them.
pub proof fn repeated_failures_limit(
    m: Map<Ip, Seq<u64>>,
    ip: Ip,
    times: Seq<u64>,
    now: u64,
)
    requires
        attempts_of(m, ip).len() <= LOGIN_MAX_FAILURES,
        in_order(attempts_of(m, ip) + times),
    ensures
        is_limited(after_failed_logins(m, ip, times), ip, now) <==> recent(
            attempts_of(m, ip) + times,
            now,
        ) >= LOGIN_MAX_FAILURES,
{
    let all = attempts_of(m, ip) + times;
    lemma_failures_kept(m, ip, times);
    lemma_recent_are_last(all, now, LOGIN_MAX_FAILURES as int);
    lemma_recent_are_last(last_failures(all), now, LOGIN_MAX_FAILURES as int);
}

proof fn lemma_failures_kept(m: Map<Ip, Seq<u64>>, ip: Ip, times: Seq<u64>)
    requires
        attempts_of(m, ip).len() <= LOGIN_MAX_FAILURES,
    ensures
        attempts_of(after_failed_logins(m, ip, times), ip) == last_failures(
            attempts_of(m, ip) + times,
        ),
    decreases times.len(),
{
    let old_ones = attempts_of(m, ip);
    if times.len() == 0 {
        assert(old_ones + times =~= old_ones);
    } else {
        let before = times.drop_last();
        lemma_failures_kept(m, ip, before);
        assert(old_ones + times =~= (old_ones + before).push(times.last()));
        assert(last_failures(last_failures(old_ones + before).push(times.last()))
            =~= last_failures((old_ones + before).push(times.last())));
    }
}

/// Of moments in order, `k` count exactly if the `k`-th from the end does.
proof fn lemma_recent_are_last(times: Seq<u64>, now: u64, k: int)
    requires
        in_order(times),
        0 <= k,
    ensures
        recent(times, now) >= 0,
        k > 0 ==> (recent(times, now) >= k <==> times.len() >= k && counts(
            times[times.len() - k],
            now,
        )),
    decreases times.len(),
{
    if times.len() > 0 {
        let before = times.drop_last();
        lemma_recent_are_last(before, now, if k > 0 {
            k - 1
        } else {
            0
        });
        if !counts(times.last(), now) {
            lemma_none_recent(times, now);
        }
    }
}

proof fn lemma_none_recent(times: Seq<u64>, now: u64)
    requires
        in_order(times),
        times.len() > 0 ==> !counts(times.last(), now),
    ensures
        recent(times, now) == 0,
    decreases times.len(),
{
    if times.len() > 0 {
        lemma_none_recent(times.drop_last(), now);
    }
}

/// Failed logins of one address leave what is kept of every other as it was.
pub proof fn failures_of_one_address_leave_others(
    m: Map<Ip, Seq<u64>>,
    ip: Ip,
    times: Seq<u64>,
    other: Ip,
)
    requires
        ip != other,
    ensures
        attempts_of(after_failed_logins(m, ip, times), other) == attempts_of(m, other),
    decreases times.len(),
{
    if times.len() > 0 {
        failures_of_one_address_leave_others(m, ip, times.drop_last(), other);
    }
}

/// Below the cap, recording a failure only counts it.
pub proof fn failure_is_only_counted_below_cap(
    m: Map<Ip, Seq<u64>>,
    after: Map<Ip, Seq<u64>>,
    ip: Ip,
    now: u64,
)
    requires
        m.dom().len() < LOGIN_ATTEMPTS_MAX,
        records_failure(m, after, ip, now),
    ensures
        after == with_failure(m, ip, now),
{
}

/// An address whose latest failure was a minute ago or longer, or whose failures were forgotten, is
/// not limited.
pub proof fn limit_ends(m: Map<Ip, Seq<u64>>, ip: Ip, now: u64)
    requires
        in_order(attempts_of(m, ip)),
    ensures
        attempts_of(m, ip).len() > 0 && !counts(attempts_of(m, ip).last(), now) ==> !is_limited(
            m,
            ip,
            now,
        ),
        !is_limited(m.remove(ip), ip, now),
{
    if attempts_of(m, ip).len() > 0 && !counts(attempts_of(m, ip).last(), now) {
        lemma_none_recent(attempts_of(m, ip), now);
    }
}

/// A failed login never leaves more addresses than the cap, whatever was kept before.
pub proof fn failed_login_keeps_cap(
    m: Map<Ip, Seq<u64>>,
    after: Map<Ip, Seq<u64>>,
    ip: Ip,
    now: u64,
)
    requires
        m.dom().finite(),
        records_failure(m, after, ip, now),
    ensures
        after.dom().finite(),
        after.dom().len() <= LOGIN_ATTEMPTS_MAX,
{
    let kept = choose|kept: Map<Ip, Seq<u64>>| #[trigger]
        makes_room(m, kept, now) && after == with_failure(kept, ip, now);
    assert forall|k: Ip| kept.dom().contains(k) implies #[trigger] m.dom().contains(k) by {
        if m.dom().len() >= LOGIN_ATTEMPTS_MAX {
            assert(current(m, now).dom().contains(k));
        }
    }
    vstd::set_lib::lemma_len_subset(kept.dom(), m.dom());
}

/// Each failure counts for a minute from its moment, and failures count one by one.
pub proof fn failures_count_for_a_minute(a: Seq<u64>, b: Seq<u64>, t: u64, now: u64)
    ensures
        recent(a + b, now) == recent(a, now) + recent(b, now),
        now - t < 60_000_000_000 ==> recent(seq![t], now) == 1,
        now - t >= 60_000_000_000 ==> recent(seq![t], now) == 0,
    decreases b.len(),
{
    if b.len() == 0 {
        assert(a + b =~= a);
    } else {
        failures_count_for_a_minute(a, b.drop_last(), t, now);
        assert((a + b).drop_last() =~= a + b.drop_last());
    }
    assert(seq![t].drop_last().len() == 0);
    assert(recent(seq![t].drop_last(), now) == 0);
}

/// An address is limited exactly if it is known with ten failures that count.
pub proof fn ten_failures_limit(m: Map<Ip, Seq<u64>>, ip: Ip, now: u64)
    ensures
        !m.contains_key(ip) ==> !is_limited(m, ip, now),
        m.contains_key(ip) ==> (is_limited(m, ip, now) <==> recent(m[ip], now) >= 10),
{
}

/// A failure is kept as the last one of its address, after those that were there. Once there are
/// ten, the first one makes place for it. No other address changes.
pub proof fn failures_are_kept_last(m: Map<Ip, Seq<u64>>, ip: Ip, other: Ip, now: u64)
    requires
        attempts_of(m, ip).len() <= 10,
    ensures
        ({
            let before = attempts_of(m, ip);
            let after = with_failure(m, ip, now);
            &&& after.contains_key(ip)
            &&& before.len() < 10 ==> after[ip] == before + seq![now]
            &&& before.len() == 10 ==> after[ip] == before.skip(1) + seq![now]
            &&& latest(after[ip]) == now
            &&& other != ip ==> after.contains_key(other) == m.contains_key(other)
            &&& other != ip && m.contains_key(other) ==> after[other] == m[other]
        }),
        m.contains_key(other) ==> attempts_of(m, other) == m[other],
        !m.contains_key(other) ==> attempts_of(m, other).len() == 0,
{
    let before = attempts_of(m, ip);
    assert(before.push(now) =~= before + seq![now]);
    if before.len() == 10 {
        assert(before.push(now).skip(1) =~= before.skip(1) + seq![now]);
    }
}

/// Making room takes whole addresses away and changes none. Below 4096 addresses none goes. Then
/// those without a failure that counts go, and all of them. If fewer than 4096 are left then, no
/// other goes; if not, 2048 stay, and none of those that go failed later than one that stays.
pub proof fn room_is_made_from_the_oldest(
    m: Map<Ip, Seq<u64>>,
    kept: Map<Ip, Seq<u64>>,
    now: u64,
    k: Ip,
    j: Ip,
)
    requires
        makes_room(m, kept, now),
    ensures
        ({
            let counting = Set::new(|ip: Ip| m.contains_key(ip) && recent(m[ip], now) > 0);
            &&& kept.contains_key(k) ==> m.contains_key(k) && kept[k] == m[k]
            &&& m.dom().len() < 4096 ==> kept.contains_key(k) == m.contains_key(k)
            &&& m.dom().len() >= 4096 && kept.contains_key(k) ==> recent(m[k], now) > 0
            &&& m.dom().len() >= 4096 && counting.len() < 4096 && m.contains_key(k) && recent(
                m[k],
                now,
            ) > 0 ==> kept.contains_key(k)
            &&& m.dom().len() >= 4096 && counting.len() >= 4096 ==> kept.dom().len() == 2048
            &&& m.dom().len() >= 4096 && m.contains_key(k) && recent(m[k], now) > 0
                && !kept.contains_key(k) && kept.contains_key(j) ==> latest(m[k]) <= latest(m[j])
        }),
{
    let counting = Set::new(|ip: Ip| m.contains_key(ip) && recent(m[ip], now) > 0);
    assert(current(m, now).dom() =~= counting);
    if m.dom().len() >= 4096 && counting.len() >= 4096 {
        assert(current(m, now).contains_key(k) == counting.contains(k));
        assert(current(m, now).contains_key(j) == counting.contains(j));
        assert(kept.dom().subset_of(current(m, now).dom()));
        if kept.contains_key(k) {
            assert(kept.dom().contains(k));
            assert(current(m, now).dom().contains(k));
        }
        if kept.contains_key(j) {
            assert(kept.dom().contains(j));
            assert(current(m, now).dom().contains(j));
        }
    }
}

/// The latest failure is the last one that was added.
pub proof fn latest_failure_is_the_last(times: Seq<u64>, t: u64)
    ensures
        latest(times.push(t)) == t,
        latest(Seq::empty()) < 0,
{
}

} // verus!
