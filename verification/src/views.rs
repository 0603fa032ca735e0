//! What the web API shows of torrents.
use vstd::prelude::*;
use crate::engine::EngineView;
use crate::hex;
use crate::store::{EditView, Ratio, RecordView, TorrentRecord};
use crate::text;
use crate::torrent::{minus, Progress, Rate, SnapshotView, TorrentSnapshot};

verus! {

/// The name of a torrent's state.
pub open spec fn state_name(s: SnapshotView) -> Seq<char> {
    if s.paused {
        if s.completed {
            "pausedUP"@
        } else {
            "pausedDL"@
        }
    } else if s.has_error {
        "error"@
    } else if s.completed {
        if s.up_speed.bytes > 0 {
            "uploading"@
        } else {
            "stalledUP"@
        }
    } else {
        if s.dl_speed.bytes > 0 {
            "downloading"@
        } else {
            "stalledDL"@
        }
    }
}

/// The name of a torrent's state.
pub fn map_state(snap: &TorrentSnapshot) -> (r: &'static str)
    ensures
        r@ == state_name(snap@),
{
    if snap.paused {
        return if snap.completed {
            "pausedUP"
        } else {
            "pausedDL"
        };
    }
    if snap.has_error {
        return "error";
    }
    if snap.completed {
        if snap.up_speed.is_moving() {
            "uploading"
        } else {
            "stalledUP"
        }
    } else if snap.dl_speed.is_moving() {
        "downloading"
    } else {
        "stalledDL"
    }
}

/// How many bytes are still missing.
pub fn amount_left(snap: &TorrentSnapshot) -> (r: u64)
    ensures
        r == crate::torrent::more_than(snap@.total_bytes, snap@.progress_bytes),
{
    minus(snap.total_bytes, snap.progress_bytes)
}

/// How long ago a moment was, in seconds; nothing for a moment that is not known.
pub open spec fn age(now: u64, moment: u64) -> i64 {
    if moment > 0 {
        crate::torrent::more_than(now, moment) as i64
    } else {
        0
    }
}

fn age_of(now: u64, moment: u64) -> (r: i64)
    ensures
        r == age(now, moment),
{
    if moment > 0 {
        minus(now, moment) as i64
    } else {
        0
    }
}

/// What the list of torrents shows of one.
pub struct TorrentEntry {
    pub hash: String,
    pub name: String,
    pub size: u64,
    pub amount_left: u64,
    pub progress: Progress,
    pub dlspeed: Rate,
    pub upspeed: Rate,
    pub state: &'static str,
    pub save_path: String,
    pub content_path: String,
    pub uploaded: u64,
    pub downloaded: u64,
    pub added_on: u64,
    pub completion_on: u64,
    pub category: String,
    pub num_seeds: i64,
    pub num_leechs: i64,
    pub eta: i64,
    /// The limit on the ratio, if one is set.
    pub ratio_limit: Option<Ratio>,
    pub seeding_time: i64,
    pub last_activity: u64,
    pub stopped: bool,
}

/// The contents of a `TorrentEntry`.
#[verifier::ext_equal]
pub struct EntryView {
    pub hash: Seq<char>,
    pub name: Seq<char>,
    pub size: u64,
    pub amount_left: u64,
    pub progress: Progress,
    pub dlspeed: Rate,
    pub upspeed: Rate,
    pub state: Seq<char>,
    pub save_path: Seq<char>,
    pub content_path: Seq<char>,
    pub uploaded: u64,
    pub downloaded: u64,
    pub added_on: u64,
    pub completion_on: u64,
    pub category: Seq<char>,
    pub num_seeds: i64,
    pub num_leechs: i64,
    pub eta: i64,
    pub ratio_limit: Option<Ratio>,
    pub seeding_time: i64,
    pub last_activity: u64,
    pub stopped: bool,
}

impl View for TorrentEntry {
    type V = EntryView;

    open spec fn view(&self) -> EntryView {
        EntryView {
            hash: self.hash@,
            name: self.name@,
            size: self.size,
            amount_left: self.amount_left,
            progress: self.progress,
            dlspeed: self.dlspeed,
            upspeed: self.upspeed,
            state: self.state@,
            save_path: self.save_path@,
            content_path: self.content_path@,
            uploaded: self.uploaded,
            downloaded: self.downloaded,
            added_on: self.added_on,
            completion_on: self.completion_on,
            category: self.category@,
            num_seeds: self.num_seeds,
            num_leechs: self.num_leechs,
            eta: self.eta,
            ratio_limit: self.ratio_limit,
            seeding_time: self.seeding_time,
            last_activity: self.last_activity,
            stopped: self.stopped,
        }
    }
}

/// When a torrent was completed: as its record says, or just now if it is complete and its record
/// does not say yet, or 0.
pub open spec fn completion_time(s: SnapshotView, rec: Option<RecordView>, now: u64) -> u64 {
    match rec {
        Some(r) if r.completed_at is Some => r.completed_at->0,
        _ => if s.completed {
            now
        } else {
            0
        },
    }
}

/// When a torrent was added, or 0 if there is no record of it.
pub open spec fn addition_time(rec: Option<RecordView>) -> u64 {
    match rec {
        Some(r) => r.added_at,
        None => 0,
    }
}

/// The category of a torrent, which is empty if there is no record of it.
pub open spec fn category_of(rec: Option<RecordView>) -> Seq<char> {
    match rec {
        Some(r) => r.category,
        None => Seq::empty(),
    }
}

/// The limit on the ratio, if one is set.
pub open spec fn limit_of(rec: Option<RecordView>) -> Option<Ratio> {
    match rec {
        Some(r) => crate::store::limit_in(r),
        None => None,
    }
}

/// What the list of torrents shows of one, at the moment `now` in seconds since the epoch.
pub open spec fn entry_of(
    s: SnapshotView,
    rec: Option<RecordView>,
    eta: i64,
    now: u64,
    download_dir: Seq<char>,
) -> EntryView {
    EntryView {
        hash: s.hash,
        name: s.name,
        size: s.total_bytes,
        amount_left: crate::torrent::more_than(s.total_bytes, s.progress_bytes),
        progress: s.progress,
        dlspeed: s.dl_speed,
        upspeed: s.up_speed,
        state: state_name(s),
        save_path: download_dir,
        content_path: download_dir + "/"@ + s.name,
        uploaded: s.uploaded,
        downloaded: s.downloaded,
        added_on: addition_time(rec),
        completion_on: completion_time(s, rec, now),
        category: category_of(rec),
        num_seeds: if s.completed {
            0
        } else {
            s.peer_count as i64
        },
        num_leechs: if s.completed {
            s.peer_count as i64
        } else {
            0
        },
        eta,
        ratio_limit: limit_of(rec),
        seeding_time: age(now, completion_time(s, rec, now)),
        last_activity: now,
        stopped: s.paused,
    }
}

/// Makes what the list of torrents shows of one.
pub fn torrent_entry(
    snap: &TorrentSnapshot,
    record: Option<&TorrentRecord>,
    eta: i64,
    now: u64,
    download_dir: &str,
) -> (r: TorrentEntry)
    ensures
        r@ == entry_of(snap@, crate::store::record_view(record), eta, now, download_dir@),
{
    let completed_at: Option<u64> = match record {
        Some(rec) => rec.completed_at,
        None => None,
    };
    let completion_on: u64 = match completed_at {
        Some(t) => t,
        None => if snap.completed {
            now
        } else {
            0
        },
    };
    let (added_on, category, ratio_limit) = match record {
        Some(rec) => (rec.added_at, rec.category.clone(), rec.ratio_limit()),
        None => (0, String::new(), None),
    };
    let peers: i64 = snap.peer_count as i64;
    TorrentEntry {
        hash: snap.hash.clone(),
        name: snap.name.clone(),
        size: snap.total_bytes,
        amount_left: amount_left(snap),
        progress: snap.progress,
        dlspeed: snap.dl_speed,
        upspeed: snap.up_speed,
        state: map_state(snap),
        save_path: String::from_str(download_dir),
        content_path: String::from_str(download_dir).concat("/").concat(&snap.name),
        uploaded: snap.uploaded,
        downloaded: snap.downloaded,
        added_on,
        completion_on,
        category,
        num_seeds: if snap.completed {
            0
        } else {
            peers
        },
        num_leechs: if snap.completed {
            peers
        } else {
            0
        },
        eta,
        ratio_limit,
        seeding_time: age_of(now, completion_on),
        last_activity: now,
        stopped: snap.paused,
    }
}

/// The contents of the entries.
pub open spec fn entry_views(v: Seq<TorrentEntry>) -> Seq<EntryView> {
    v.map_values(|e: TorrentEntry| e@)
}

/// The first `n` entries that are in a category, in their order.
pub open spec fn in_category(entries: Seq<EntryView>, category: Seq<char>, n: int) -> Seq<EntryView>
    decreases n,
{
    if n <= 0 {
        Seq::empty()
    } else {
        let before = in_category(entries, category, n - 1);
        if entries[n - 1].category == category {
            before.push(entries[n - 1])
        } else {
            before
        }
    }
}

/// The entries that a request for a category shows; no category, or an empty one, shows all.
pub open spec fn shown(entries: Seq<EntryView>, category: Option<Seq<char>>) -> Seq<EntryView> {
    match category {
        Some(c) => if c.len() > 0 {
            in_category(entries, c, entries.len() as int)
        } else {
            entries
        },
        None => entries,
    }
}

/// Keeps the entries that a request for a category shows.
pub fn filter_entries(entries: Vec<TorrentEntry>, category: Option<&str>) -> (r: Vec<TorrentEntry>)
    ensures
        entry_views(r@) == shown(entry_views(entries@), crate::session::text_of(category)),
{
    let wanted = match category {
        Some(c) => c,
        None => {
            return entries;
        },
    };
    if text::chars_of(wanted).len() == 0 {
        return entries;
    }
    let ghost all = entry_views(entries@);
    let ghost count = entries@.len();
    let mut rest = entries;
    let mut out: Vec<TorrentEntry> = Vec::new();
    let ghost mut done: int = 0;
    while rest.len() > 0
        invariant
            0 <= done <= count,
            all.len() == count,
            rest@.len() == count - done,
            entry_views(rest@) == all.skip(done),
            entry_views(out@) == in_category(all, wanted@, done),
        decreases rest@.len(),
    {
        let ghost before_rest = rest@;
        let e = rest.remove(0);
        assert(entry_views(before_rest)[0] == e@);
        assert(entry_views(rest@) =~= all.skip(done + 1)) by {
            assert forall|i: int| 0 <= i < rest@.len() implies entry_views(rest@)[i] == all.skip(
                done + 1,
            )[i] by {
                assert(entry_views(before_rest)[i + 1] == all.skip(done)[i + 1]);
            }
        }
        if text::same_str(&e.category, wanted) {
            out.push(e);
        }
        proof {
            done = done + 1;
        }
    }
    out
}

/// The contents of the snapshots.
pub open spec fn snapshot_views(v: Seq<TorrentSnapshot>) -> Seq<SnapshotView> {
    v.map_values(|s: TorrentSnapshot| s@)
}

/// The contents of the records.
pub open spec fn record_views(v: Seq<Option<TorrentRecord>>) -> Seq<Option<RecordView>> {
    v.map_values(
        |r: Option<TorrentRecord>|
            match r {
                Some(rec) => Some(rec@),
                None => None,
            },
    )
}

/// What the list of torrents shows of all of them.
pub open spec fn entries_of(
    snaps: Seq<SnapshotView>,
    records: Seq<Option<RecordView>>,
    etas: Seq<i64>,
    now: u64,
    download_dir: Seq<char>,
) -> Seq<EntryView> {
    Seq::new(snaps.len(), |i: int| entry_of(snaps[i], records[i], etas[i], now, download_dir))
}

/// Makes the list of torrents that a request for a category shows. Each torrent has its record, if
/// there is one, and its remaining seconds at the same position.
pub fn torrent_list(
    snaps: &[TorrentSnapshot],
    records: &[Option<TorrentRecord>],
    etas: &[i64],
    now: u64,
    download_dir: &str,
    category: Option<&str>,
) -> (r: Vec<TorrentEntry>)
    requires
        records@.len() == snaps@.len(),
        etas@.len() == snaps@.len(),
    ensures
        entry_views(r@) == shown(
            entries_of(
                snapshot_views(snaps@),
                record_views(records@),
                etas@,
                now,
                download_dir@,
            ),
            crate::session::text_of(category),
        ),
{
    let ghost all = entries_of(
        snapshot_views(snaps@),
        record_views(records@),
        etas@,
        now,
        download_dir@,
    );
    let mut entries: Vec<TorrentEntry> = Vec::new();
    let mut i: usize = 0;
    while i < snaps.len()
        invariant
            i <= snaps@.len(),
            records@.len() == snaps@.len(),
            etas@.len() == snaps@.len(),
            all == entries_of(
                snapshot_views(snaps@),
                record_views(records@),
                etas@,
                now,
                download_dir@,
            ),
            entry_views(entries@) == all.take(i as int),
        decreases snaps@.len() - i,
    {
        let entry = torrent_entry(&snaps[i], records[i].as_ref(), etas[i], now, download_dir);
        assert(entry@ == all[i as int]);
        let ghost before = entry_views(entries@);
        entries.push(entry);
        assert(entry_views(entries@) =~= before.push(all[i as int]));
        i += 1;
    }
    assert(all.take(all.len() as int) =~= all);
    filter_entries(entries, category)
}

/// What is shown of a single torrent.
pub struct TorrentProperties {
    pub save_path: String,
    pub piece_size: u64,
    pub total_uploaded: u64,
    pub total_downloaded: u64,
    pub time_elapsed: i64,
    pub seeding_time: i64,
    pub nb_connections: usize,
    /// The size that the total uploaded is held against for the share ratio.
    pub total_bytes: u64,
    pub addition_date: u64,
    pub completion_date: i64,
    pub created_by: String,
    pub dl_speed: Rate,
    pub up_speed: Rate,
}

/// The contents of a `TorrentProperties`.
#[verifier::ext_equal]
pub struct PropertiesView {
    pub save_path: Seq<char>,
    pub piece_size: u64,
    pub total_uploaded: u64,
    pub total_downloaded: u64,
    pub time_elapsed: i64,
    pub seeding_time: i64,
    pub nb_connections: usize,
    pub total_bytes: u64,
    pub addition_date: u64,
    pub completion_date: i64,
    pub created_by: Seq<char>,
    pub dl_speed: Rate,
    pub up_speed: Rate,
}

impl View for TorrentProperties {
    type V = PropertiesView;

    open spec fn view(&self) -> PropertiesView {
        PropertiesView {
            save_path: self.save_path@,
            piece_size: self.piece_size,
            total_uploaded: self.total_uploaded,
            total_downloaded: self.total_downloaded,
            time_elapsed: self.time_elapsed,
            seeding_time: self.seeding_time,
            nb_connections: self.nb_connections,
            total_bytes: self.total_bytes,
            addition_date: self.addition_date,
            completion_date: self.completion_date,
            created_by: self.created_by@,
            dl_speed: self.dl_speed,
            up_speed: self.up_speed,
        }
    }
}

/// When a torrent was completed as its record says, or 0.
pub open spec fn recorded_completion(rec: Option<RecordView>) -> u64 {
    match rec {
        Some(r) if r.completed_at is Some => r.completed_at->0,
        _ => 0,
    }
}

/// What is shown of a single torrent, at the moment `now` in seconds since the epoch.
pub open spec fn properties_of(
    s: SnapshotView,
    rec: Option<RecordView>,
    now: u64,
    download_dir: Seq<char>,
) -> PropertiesView {
    PropertiesView {
        save_path: download_dir,
        piece_size: s.piece_length,
        total_uploaded: s.uploaded,
        total_downloaded: s.downloaded,
        time_elapsed: age(now, addition_time(rec)),
        seeding_time: age(now, recorded_completion(rec)),
        nb_connections: s.peer_count,
        total_bytes: s.total_bytes,
        addition_date: addition_time(rec),
        completion_date: if recorded_completion(rec) > 0 {
            recorded_completion(rec) as i64
        } else {
            (-1) as i64
        },
        created_by: s.name,
        dl_speed: s.dl_speed,
        up_speed: s.up_speed,
    }
}

/// Makes what is shown of a single torrent.
pub fn torrent_properties(
    snap: &TorrentSnapshot,
    record: Option<&TorrentRecord>,
    now: u64,
    download_dir: &str,
) -> (r: TorrentProperties)
    ensures
        r@ == properties_of(snap@, crate::store::record_view(record), now, download_dir@),
{
    let (added_at, completed) = match record {
        Some(rec) => (rec.added_at, rec.completed_at),
        None => (0, None),
    };
    let completed_at: u64 = match completed {
        Some(t) => t,
        None => 0,
    };
    TorrentProperties {
        save_path: String::from_str(download_dir),
        piece_size: snap.piece_length,
        total_uploaded: snap.uploaded,
        total_downloaded: snap.downloaded,
        time_elapsed: age_of(now, added_at),
        seeding_time: age_of(now, completed_at),
        nb_connections: snap.peer_count,
        total_bytes: snap.total_bytes,
        addition_date: added_at,
        completion_date: if completed_at > 0 {
            completed_at as i64
        } else {
            -1
        },
        created_by: snap.name.clone(),
        dl_speed: snap.dl_speed,
        up_speed: snap.up_speed,
    }
}

/// The transfer figures of one torrent, its speeds in whole bytes a second.
#[derive(Clone, Copy, Debug, PartialEq, Eq, Structural)]
pub struct TransferItem {
    pub dl_speed: i64,
    pub up_speed: i64,
    pub downloaded: u64,
    pub uploaded: u64,
}

/// The transfer figures of all torrents together.
#[derive(Clone, Copy, Debug, PartialEq, Eq, Structural)]
pub struct TransferTotals {
    pub dl_info_speed: i64,
    pub up_info_speed: i64,
    pub dl_info_data: u64,
    pub up_info_data: u64,
}

/// Sums of transfer figures.
pub struct TransferSums {
    pub dl_speed: int,
    pub up_speed: int,
    pub downloaded: int,
    pub uploaded: int,
}

/// The sums over the first `n` torrents.
pub open spec fn sums(items: Seq<TransferItem>, n: int) -> TransferSums
    decreases n,
{
    if n <= 0 {
        TransferSums { dl_speed: 0, up_speed: 0, downloaded: 0, uploaded: 0 }
    } else {
        let before = sums(items, n - 1);
        let item = items[n - 1];
        TransferSums {
            dl_speed: before.dl_speed + item.dl_speed,
            up_speed: before.up_speed + item.up_speed,
            downloaded: before.downloaded + item.downloaded,
            uploaded: before.uploaded + item.uploaded,
        }
    }
}

/// The sums fit their counters.
pub open spec fn sums_fit(s: TransferSums) -> bool {
    &&& i64::MIN <= s.dl_speed <= i64::MAX
    &&& i64::MIN <= s.up_speed <= i64::MAX
    &&& 0 <= s.downloaded <= u64::MAX
    &&& 0 <= s.uploaded <= u64::MAX
}

/// The sums over every first few torrents fit their counters.
pub open spec fn all_sums_fit(items: Seq<TransferItem>) -> bool {
    forall|k: int| 0 <= k <= items.len() ==> sums_fit(#[trigger] sums(items, k))
}

/// Adds up the transfer figures of all torrents; none if a sum does not fit its counter on the
/// way.
pub fn transfer_totals(items: &[TransferItem]) -> (r: Option<TransferTotals>)
    ensures
        match r {
            Some(t) => {
                let s = sums(items@, items@.len() as int);
                &&& all_sums_fit(items@)
                &&& t.dl_info_speed == s.dl_speed
                &&& t.up_info_speed == s.up_speed
                &&& t.dl_info_data == s.downloaded
                &&& t.up_info_data == s.uploaded
            },
            None => !all_sums_fit(items@),
        },
{
    let mut t = TransferTotals {
        dl_info_speed: 0,
        up_info_speed: 0,
        dl_info_data: 0,
        up_info_data: 0,
    };
    let mut i: usize = 0;
    while i < items.len()
        invariant
            i <= items@.len(),
            forall|k: int| 0 <= k <= i ==> sums_fit(#[trigger] sums(items@, k)),
            t.dl_info_speed == sums(items@, i as int).dl_speed,
            t.up_info_speed == sums(items@, i as int).up_speed,
            t.dl_info_data == sums(items@, i as int).downloaded,
            t.up_info_data == sums(items@, i as int).uploaded,
        decreases items@.len() - i,
    {
        let item = items[i];
        assert(all_sums_fit(items@) ==> sums_fit(sums(items@, i + 1)));
        let dl = match t.dl_info_speed.checked_add(item.dl_speed) {
            Some(n) => n,
            None => {
                return None;
            },
        };
        let up = match t.up_info_speed.checked_add(item.up_speed) {
            Some(n) => n,
            None => {
                return None;
            },
        };
        let downloaded = match t.dl_info_data.checked_add(item.downloaded) {
            Some(n) => n,
            None => {
                return None;
            },
        };
        let uploaded = match t.up_info_data.checked_add(item.uploaded) {
            Some(n) => n,
            None => {
                return None;
            },
        };
        t =
        TransferTotals {
            dl_info_speed: dl,
            up_info_speed: up,
            dl_info_data: downloaded,
            up_info_data: uploaded,
        };
        i += 1;
    }
    Some(t)
}

/// The state of a torrent is shown as paused exactly when it is paused.
pub proof fn paused_state_shows(s: SnapshotView)
    ensures
        s.paused <==> "paused"@.is_prefix_of(state_name(s)),
{
    reveal_strlit("paused");
    reveal_strlit("pausedUP");
    reveal_strlit("pausedDL");
    reveal_strlit("error");
    reveal_strlit("uploading");
    reveal_strlit("stalledUP");
    reveal_strlit("downloading");
    reveal_strlit("stalledDL");
    if !s.paused && "paused"@.is_prefix_of(state_name(s)) {
        assert(state_name(s).subrange(0, 6)[0] == 'p');
    }
}

/// Whatever a category shows is in that category and is one of the torrents; and every torrent in
/// the category is shown.
pub proof fn category_shows_its_torrents(entries: Seq<EntryView>, category: Seq<char>, e: EntryView)
    requires
        category.len() > 0,
    ensures
        shown(entries, Some(category)).contains(e) <==> entries.contains(e) && e.category
            == category,
{
    lemma_in_category(entries, category, entries.len() as int, e);
    assert(entries.take(entries.len() as int) =~= entries);
}

proof fn lemma_in_category(entries: Seq<EntryView>, category: Seq<char>, n: int, e: EntryView)
    requires
        0 <= n <= entries.len(),
    ensures
        in_category(entries, category, n).contains(e) <==> entries.take(n).contains(e) && e.category
            == category,
    decreases n,
{
    if n > 0 {
        lemma_in_category(entries, category, n - 1, e);
        let before = in_category(entries, category, n - 1);
        let after = in_category(entries, category, n);
        let part = entries.take(n);
        if after.contains(e) {
            let k = choose|k: int| 0 <= k < after.len() && after[k] == e;
            if k == before.len() {
                assert(part[n - 1] == e);
            }
        }
        if part.contains(e) && e.category == category {
            let j = choose|j: int| 0 <= j < part.len() && part[j] == e;
            if j < n - 1 {
                let k = choose|k: int| 0 <= k < before.len() && before[k] == e;
                assert(after[k] == e);
            } else {
                assert(after.last() == e);
            }
        }
    }
}

/// The list without a category shows each managed torrent once, and nothing else.
pub proof fn list_shows_each_torrent_once(
    v: EngineView,
    snaps: Seq<SnapshotView>,
    records: Seq<Option<RecordView>>,
    etas: Seq<i64>,
    now: u64,
    download_dir: Seq<char>,
    h: Seq<u8>,
)
    requires
        crate::engine::consistent(v),
        crate::engine::lists_torrents(snaps.map_values(|s: SnapshotView| s.info_hash), v.torrents),
        forall|i: int|
            0 <= i < snaps.len() ==> #[trigger] snaps[i] == crate::torrent::snapshot_of(
                v.torrents[snaps[i].info_hash],
            ),
        h.len() == 20,
    ensures
        ({
            let list = shown(entries_of(snaps, records, etas, now, download_dir), None);
            let hashes = list.map_values(|e: EntryView| e.hash);
            &&& hashes.no_duplicates()
            &&& hashes.contains(hex::encoded(h)) <==> v.torrents.contains_key(h)
        }),
{
    let list = shown(entries_of(snaps, records, etas, now, download_dir), None);
    let hashes = list.map_values(|e: EntryView| e.hash);
    let keys = snaps.map_values(|s: SnapshotView| s.info_hash);
    assert forall|i: int| 0 <= i < snaps.len() implies #[trigger] hashes[i] == hex::encoded(keys[i])
        && keys[i].len() == 20 by {
        assert(keys.contains(keys[i]));
        assert(snaps[i] == crate::torrent::snapshot_of(v.torrents[snaps[i].info_hash]));
    }
    assert forall|i: int, j: int|
        0 <= i < hashes.len() && 0 <= j < hashes.len() && i != j implies hashes[i] != hashes[j] by {
        assert(hashes[i] == hex::encoded(keys[i]) && hashes[j] == hex::encoded(keys[j]));
        hex::decode_undoes_encode(keys[i]);
        hex::decode_undoes_encode(keys[j]);
    }
    if v.torrents.contains_key(h) {
        assert(keys.contains(h));
        let i = choose|i: int| 0 <= i < keys.len() && keys[i] == h;
        assert(hashes[i] == hex::encoded(h));
    }
    if hashes.contains(hex::encoded(h)) {
        let i = choose|i: int| 0 <= i < hashes.len() && hashes[i] == hex::encoded(h);
        hex::decode_undoes_encode(keys[i]);
        hex::decode_undoes_encode(h);
        assert(keys.contains(keys[i]));
    }
}

/// A category or a ratio limit that is set for a torrent is what the list shows of it; a limit that
/// is not greater than zero is shown as none.
pub proof fn edits_show(
    s: SnapshotView,
    rec: RecordView,
    ratio: Ratio,
    category: Seq<char>,
    eta: i64,
    now: u64,
    download_dir: Seq<char>,
)
    ensures
        ({
            let kept = crate::store::edited(rec, EditView::RatioTarget(ratio));
            entry_of(s, Some(kept), eta, now, download_dir).ratio_limit == (
            if crate::store::is_positive_ratio(ratio) {
                Some(ratio)
            } else {
                None
            })
        }),
        ({
            let kept = crate::store::edited(rec, EditView::Category(category));
            entry_of(s, Some(kept), eta, now, download_dir).category == category
        }),
{
}

/// A torrent that is not complete, and has no completion time on record, has neither a completion
/// time nor a seeding time.
pub proof fn incomplete_torrents_do_not_seed(
    s: SnapshotView,
    rec: Option<RecordView>,
    eta: i64,
    now: u64,
    download_dir: Seq<char>,
)
    requires
        !s.completed,
        recorded_completion(rec) == 0,
    ensures
        entry_of(s, rec, eta, now, download_dir).completion_on == 0,
        entry_of(s, rec, eta, now, download_dir).seeding_time == 0,
        properties_of(s, rec, now, download_dir).completion_date == -1,
        properties_of(s, rec, now, download_dir).seeding_time == 0,
{
}

/// A torrent that is neither paused nor in error is shown as uploading or stalled on the way up
/// exactly if it is complete, and as downloading or stalled on the way down exactly if it is not.
/// Only the speed of that way decides between moving and stalled. Paused comes before an error,
/// and tells whether the torrent is complete.
pub proof fn states_tell_the_way(s: SnapshotView)
    ensures
        ({
            let name = state_name(s);
            let running = !s.paused && !s.has_error;
            &&& running ==> {
                &&& name == "uploading"@ <==> s.completed && s.up_speed.bytes > 0
                &&& name == "stalledUP"@ <==> s.completed && s.up_speed.bytes == 0
                &&& name == "downloading"@ <==> !s.completed && s.dl_speed.bytes > 0
                &&& name == "stalledDL"@ <==> !s.completed && s.dl_speed.bytes == 0
            }
            &&& name == "error"@ <==> s.has_error && !s.paused
            &&& name == "pausedUP"@ <==> s.paused && s.completed
            &&& name == "pausedDL"@ <==> s.paused && !s.completed
        }),
{
    reveal_strlit("pausedUP");
    reveal_strlit("pausedDL");
    reveal_strlit("error");
    reveal_strlit("uploading");
    reveal_strlit("stalledUP");
    reveal_strlit("downloading");
    reveal_strlit("stalledDL");
    assert("pausedUP"@[6] == 'U' && "pausedDL"@[6] == 'D' && "pausedUP"@[0] == 'p'
        && "pausedDL"@[0] == 'p');
    assert("stalledUP"@[7] == 'U' && "stalledDL"@[7] == 'D' && "stalledUP"@[0] == 's'
        && "stalledDL"@[0] == 's');
    assert("uploading"@[0] == 'u' && "downloading"@[0] == 'd' && "error"@[0] == 'e');
}

/// The list shows of a torrent its own figures, what is left of it, its peers on the side that
/// fits its completion, and what its record says, or nothing where there is no record.
pub proof fn entries_show_figures_and_record(
    s: SnapshotView,
    rec: Option<RecordView>,
    eta: i64,
    now: u64,
    download_dir: Seq<char>,
)
    requires
        s.peer_count <= i64::MAX,
    ensures
        ({
            let e = entry_of(s, rec, eta, now, download_dir);
            &&& e.hash == s.hash && e.name == s.name && e.size == s.total_bytes
            &&& s.progress_bytes <= s.total_bytes ==> e.amount_left + s.progress_bytes
                == s.total_bytes
            &&& s.progress_bytes > s.total_bytes ==> e.amount_left == 0
            &&& e.progress == s.progress && e.dlspeed == s.dl_speed && e.upspeed == s.up_speed
            &&& e.state == state_name(s)
            &&& e.save_path == download_dir && e.content_path == download_dir + "/"@ + s.name
            &&& e.uploaded == s.uploaded && e.downloaded == s.downloaded
            &&& e.num_seeds + e.num_leechs == s.peer_count
            &&& s.completed ==> e.num_seeds == 0
            &&& !s.completed ==> e.num_leechs == 0
            &&& e.eta == eta && e.last_activity == now && e.stopped == s.paused
            &&& rec matches Some(r) ==> e.added_on == r.added_at && e.category == r.category
                && e.ratio_limit == crate::store::limit_in(r)
            &&& rec is None ==> e.added_on == 0 && e.category.len() == 0 && e.ratio_limit is None
        }),
{
}

/// The completion time that the list shows is the one on record; without one it is this moment for
/// a complete torrent and 0 for another. The seeding time is the time since, and 0 without a
/// completion time.
pub proof fn completion_is_shown_from_the_record(
    s: SnapshotView,
    rec: Option<RecordView>,
    eta: i64,
    now: u64,
    download_dir: Seq<char>,
)
    requires
        now <= i64::MAX,
    ensures
        ({
            let e = entry_of(s, rec, eta, now, download_dir);
            let on_record = rec is Some && rec->0.completed_at is Some;
            &&& on_record ==> e.completion_on == rec->0.completed_at->0
            &&& !on_record && s.completed ==> e.completion_on == now
            &&& !on_record && !s.completed ==> e.completion_on == 0
            &&& e.completion_on == 0 || e.completion_on >= now ==> e.seeding_time == 0
            &&& 0 < e.completion_on < now ==> e.completion_on + e.seeding_time == now
        }),
{
}

/// What is shown of a single torrent are its own figures and the dates on record: without a
/// completion on record, none and no seeding time; without a record, no time since it was added.
pub proof fn properties_show_figures_and_dates(
    s: SnapshotView,
    rec: Option<RecordView>,
    now: u64,
    download_dir: Seq<char>,
)
    requires
        now <= i64::MAX,
    ensures
        ({
            let p = properties_of(s, rec, now, download_dir);
            let added = if rec is Some {
                rec->0.added_at
            } else {
                0
            };
            let completed = if rec is Some && rec->0.completed_at is Some {
                rec->0.completed_at->0
            } else {
                0
            };
            &&& p.save_path == download_dir && p.created_by == s.name
            &&& p.piece_size == s.piece_length && p.total_bytes == s.total_bytes
            &&& p.total_uploaded == s.uploaded && p.total_downloaded == s.downloaded
            &&& p.nb_connections == s.peer_count
            &&& p.dl_speed == s.dl_speed && p.up_speed == s.up_speed
            &&& p.addition_date == added
            &&& 0 < added <= now ==> added + p.time_elapsed == now
            &&& added == 0 || added > now ==> p.time_elapsed == 0
            &&& 0 < completed <= now ==> completed + p.seeding_time == now && p.completion_date
                == completed
            &&& completed == 0 ==> p.seeding_time == 0 && p.completion_date == -1
            &&& completed > now ==> p.seeding_time == 0
            &&& 0 < completed <= i64::MAX ==> p.completion_date == completed
        }),
{
}

/// The entries that are shown keep their order: those of two lists, one after the other, are those
/// of the one and then those of the other; one entry is shown exactly if no category is asked for
/// or it is in that category.
pub proof fn shown_entries_keep_their_order(
    a: Seq<EntryView>,
    b: Seq<EntryView>,
    e: EntryView,
    category: Option<Seq<char>>,
)
    ensures
        shown(a + b, category) == shown(a, category) + shown(b, category),
        category is None || category->0.len() == 0 || e.category == category->0 ==> shown(
            seq![e],
            category,
        ) == seq![e],
        category is Some && category->0.len() > 0 && e.category != category->0 ==> shown(
            seq![e],
            category,
        ).len() == 0,
{
    if category is Some && category->0.len() > 0 {
        let c = category->0;
        lemma_in_category_joins(a, b, c, b.len() as int);
        assert((a + b).len() == a.len() + b.len());
        let one = seq![e];
        assert(in_category(one, c, 0) =~= Seq::<EntryView>::empty());
        assert(in_category(one, c, 1) == in_category(one, c, one.len() as int));
    }
}

proof fn lemma_in_category_joins(a: Seq<EntryView>, b: Seq<EntryView>, c: Seq<char>, n: int)
    requires
        0 <= n <= b.len(),
    ensures
        in_category(a + b, c, a.len() + n) == in_category(a, c, a.len() as int) + in_category(
            b,
            c,
            n,
        ),
    decreases n,
{
    let head = in_category(a, c, a.len() as int);
    if n > 0 {
        lemma_in_category_joins(a, b, c, n - 1);
        assert((a + b)[a.len() + n - 1] == b[n - 1]);
        let tail = in_category(b, c, n - 1);
        assert((head + tail).push(b[n - 1]) =~= head + tail.push(b[n - 1]));
    } else {
        lemma_in_category_prefix(a, b, c, a.len() as int);
        assert(head + in_category(b, c, 0) =~= head);
    }
}

proof fn lemma_in_category_prefix(a: Seq<EntryView>, b: Seq<EntryView>, c: Seq<char>, n: int)
    requires
        0 <= n <= a.len(),
    ensures
        in_category(a + b, c, n) == in_category(a, c, n),
    decreases n,
{
    if n > 0 {
        lemma_in_category_prefix(a, b, c, n - 1);
        assert((a + b)[n - 1] == a[n - 1]);
    }
}

/// The entry at each position of the list is that of the torrent, the record and the estimate at
/// this position.
pub proof fn list_keeps_positions(
    snaps: Seq<SnapshotView>,
    records: Seq<Option<RecordView>>,
    etas: Seq<i64>,
    now: u64,
    download_dir: Seq<char>,
    i: int,
)
    requires
        0 <= i < snaps.len(),
    ensures
        entries_of(snaps, records, etas, now, download_dir).len() == snaps.len(),
        entries_of(snaps, records, etas, now, download_dir)[i] == entry_of(
            snaps[i],
            records[i],
            etas[i],
            now,
            download_dir,
        ),
{
}

/// The transfer figures of two groups of torrents together are the sums of those of each; those of
/// one torrent are its own, and those of none are zero.
pub proof fn transfer_figures_add_up(
    a: Seq<TransferItem>,
    b: Seq<TransferItem>,
    item: TransferItem,
)
    ensures
        ({
            let x = sums(a, a.len() as int);
            let y = sums(b, b.len() as int);
            let z = sums(a + b, (a + b).len() as int);
            &&& z.dl_speed == x.dl_speed + y.dl_speed && z.up_speed == x.up_speed + y.up_speed
            &&& z.downloaded == x.downloaded + y.downloaded && z.uploaded == x.uploaded
                + y.uploaded
        }),
        ({
            let o = sums(seq![item], 1);
            &&& o.dl_speed == item.dl_speed && o.up_speed == item.up_speed
            &&& o.downloaded == item.downloaded && o.uploaded == item.uploaded
        }),
        ({
            let o = sums(Seq::empty(), 0);
            o.dl_speed == 0 && o.up_speed == 0 && o.downloaded == 0 && o.uploaded == 0
        }),
{
    lemma_sums_join(a, b, b.len() as int);
    assert(sums(seq![item], 0) == sums(Seq::empty(), 0));
}

proof fn lemma_sums_join(a: Seq<TransferItem>, b: Seq<TransferItem>, n: int)
    requires
        0 <= n <= b.len(),
    ensures
        ({
            let x = sums(a, a.len() as int);
            let y = sums(b, n);
            let z = sums(a + b, a.len() + n);
            &&& z.dl_speed == x.dl_speed + y.dl_speed && z.up_speed == x.up_speed + y.up_speed
            &&& z.downloaded == x.downloaded + y.downloaded && z.uploaded == x.uploaded
                + y.uploaded
        }),
    decreases n,
{
    if n > 0 {
        lemma_sums_join(a, b, n - 1);
        assert((a + b)[a.len() + n - 1] == b[n - 1]);
    } else {
        lemma_sums_prefix(a, b, a.len() as int);
    }
}

proof fn lemma_sums_prefix(a: Seq<TransferItem>, b: Seq<TransferItem>, n: int)
    requires
        0 <= n <= a.len(),
    ensures
        sums(a + b, n) == sums(a, n),
    decreases n,
{
    if n > 0 {
        lemma_sums_prefix(a, b, n - 1);
        assert((a + b)[n - 1] == a[n - 1]);
    }
}

/// One torrent more is added up exactly if those before it are, and each of the four sums with it
/// fits: the speeds as signed numbers of 64 bits, the bytes as unsigned ones.
pub proof fn sums_are_given_while_they_fit(items: Seq<TransferItem>, item: TransferItem)
    ensures
        all_sums_fit(Seq::empty()),
        ({
            let before = sums(items, items.len() as int);
            all_sums_fit(items.push(item)) <==> {
                &&& all_sums_fit(items)
                &&& -0x8000_0000_0000_0000 <= before.dl_speed + item.dl_speed
                    < 0x8000_0000_0000_0000
                &&& -0x8000_0000_0000_0000 <= before.up_speed + item.up_speed
                    < 0x8000_0000_0000_0000
                &&& before.downloaded + item.downloaded < 0x1_0000_0000_0000_0000
                &&& before.uploaded + item.uploaded < 0x1_0000_0000_0000_0000
            }
        }),
{
    let n = items.len() as int;
    let more = items.push(item);
    let none = Seq::<TransferItem>::empty();
    assert forall|k: int| 0 <= k <= none.len() implies sums_fit(#[trigger] sums(none, k)) by {}
    assert forall|k: int| 0 <= k <= n implies sums(items, k) == sums(more, k) by {
        lemma_sums_before(items, item, k);
    }
    lemma_sums_positive(items, n);
    let after = sums(more, n + 1);
    assert(more[n] == item);
    assert(after.dl_speed == sums(items, n).dl_speed + item.dl_speed);
    if all_sums_fit(more) {
        assert forall|k: int| 0 <= k <= n implies sums_fit(#[trigger] sums(items, k)) by {
            assert(sums_fit(sums(more, k)));
        }
        assert(sums_fit(sums(more, n + 1)));
    }
    if all_sums_fit(items) && sums_fit(after) {
        assert forall|k: int| 0 <= k <= n + 1 implies sums_fit(#[trigger] sums(more, k)) by {
            if k <= n {
                assert(sums_fit(sums(items, k)));
            }
        }
    }
}

proof fn lemma_sums_before(items: Seq<TransferItem>, item: TransferItem, n: int)
    requires
        n <= items.len(),
    ensures
        sums(items.push(item), n) == sums(items, n),
    decreases n,
{
    if n > 0 {
        lemma_sums_before(items, item, n - 1);
        assert(items.push(item)[n - 1] == items[n - 1]);
    }
}

proof fn lemma_sums_positive(items: Seq<TransferItem>, n: int)
    ensures
        sums(items, n).downloaded >= 0,
        sums(items, n).uploaded >= 0,
    decreases n,
{
    if n > 0 {
        lemma_sums_positive(items, n - 1);
    }
}

/// Snapshots, records and entries are read at their places, and a record that is missing as none.
pub proof fn lists_are_read_in_place(
    snaps: Seq<TorrentSnapshot>,
    records: Seq<Option<TorrentRecord>>,
    entries: Seq<TorrentEntry>,
    i: int,
)
    ensures
        snapshot_views(snaps).len() == snaps.len(),
        0 <= i < snaps.len() ==> snapshot_views(snaps)[i] == snaps[i]@,
        record_views(records).len() == records.len(),
        0 <= i < records.len() && records[i] is None ==> record_views(records)[i] is None,
        0 <= i < records.len() && records[i] is Some ==> record_views(records)[i] == Some(
            records[i]->0@,
        ),
        entry_views(entries).len() == entries.len(),
        0 <= i < entries.len() ==> entry_views(entries)[i] == entries[i]@,
{
}

} // verus!
