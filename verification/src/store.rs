//! What is kept of each torrent across restarts, and the changes made to it.
use vstd::prelude::*;

verus! {

/// A ratio, as the bits of its IEEE 754 double-precision form.
#[derive(Clone, Copy, Debug, PartialEq, Eq, Structural)]
pub struct Ratio {
    pub bits: u64,
}

/// The bits of a number greater than zero: no sign bit, not zero and not a NaN.
pub open spec fn is_positive_ratio(r: Ratio) -> bool {
    0 < r.bits <= 0x7ff0_0000_0000_0000
}

impl Ratio {
    /// Whether the ratio is greater than zero.
    pub fn is_positive(&self) -> (r: bool)
        ensures
            r == is_positive_ratio(*self),
    {
        0 < self.bits && self.bits <= 0x7ff0_0000_0000_0000
    }
}

/// What is kept of a torrent.
#[derive(Debug)]
pub struct TorrentRecord {
    pub info_hash_hex: String,
    pub source: String,
    pub save_path: String,
    pub ratio_target: Ratio,
    pub added_at: u64,
    pub user_paused: bool,
    pub completed_at: Option<u64>,
    pub category: String,
    pub total_uploaded: u64,
    pub total_downloaded: u64,
    pub piece_bitfield: Vec<u8>,
    pub file_mtime: Option<u64>,
    pub file_size: Option<u64>,
}

/// The contents of a `TorrentRecord`.
#[verifier::ext_equal]
pub struct RecordView {
    pub info_hash_hex: Seq<char>,
    pub source: Seq<char>,
    pub save_path: Seq<char>,
    pub ratio_target: Ratio,
    pub added_at: u64,
    pub user_paused: bool,
    pub completed_at: Option<u64>,
    pub category: Seq<char>,
    pub total_uploaded: u64,
    pub total_downloaded: u64,
    pub piece_bitfield: Seq<u8>,
    pub file_mtime: Option<u64>,
    pub file_size: Option<u64>,
}

impl View for TorrentRecord {
    type V = RecordView;

    open spec fn view(&self) -> RecordView {
        RecordView {
            info_hash_hex: self.info_hash_hex@,
            source: self.source@,
            save_path: self.save_path@,
            ratio_target: self.ratio_target,
            added_at: self.added_at,
            user_paused: self.user_paused,
            completed_at: self.completed_at,
            category: self.category@,
            total_uploaded: self.total_uploaded,
            total_downloaded: self.total_downloaded,
            piece_bitfield: self.piece_bitfield@,
            file_mtime: self.file_mtime,
            file_size: self.file_size,
        }
    }
}

/// The limit on a torrent's ratio, if one is set.
pub open spec fn limit_in(rec: RecordView) -> Option<Ratio> {
    if is_positive_ratio(rec.ratio_target) {
        Some(rec.ratio_target)
    } else {
        None
    }
}

impl TorrentRecord {
    /// The limit on the torrent's ratio, if one is set.
    pub fn ratio_limit(&self) -> (r: Option<Ratio>)
        ensures
            r == limit_in(self@),
    {
        if self.ratio_target.is_positive() {
            Some(self.ratio_target)
        } else {
            None
        }
    }
}

/// The contents of an optional record.
pub open spec fn record_view(r: Option<&TorrentRecord>) -> Option<RecordView> {
    match r {
        Some(rec) => Some(rec@),
        None => None,
    }
}

/// A change to one field of a record.
pub enum RecordEdit {
    RatioTarget(Ratio),
    UserPaused(bool),
    Category(String),
}

/// What a `RecordEdit` changes.
#[verifier::ext_equal]
pub enum EditView {
    RatioTarget(Ratio),
    UserPaused(bool),
    Category(Seq<char>),
}

impl View for RecordEdit {
    type V = EditView;

    open spec fn view(&self) -> EditView {
        match self {
            RecordEdit::RatioTarget(r) => EditView::RatioTarget(*r),
            RecordEdit::UserPaused(p) => EditView::UserPaused(*p),
            RecordEdit::Category(c) => EditView::Category(c@),
        }
    }
}

/// Why a stored row could not be used.
#[derive(Clone, Copy, Debug, PartialEq, Eq, Structural)]
pub enum StoreError {
    /// There is no record for the info hash.
    NotFound,
    /// The row's key is not 20 bytes long.
    KeyLength,
}

/// The record after an edit.
pub open spec fn edited(rec: RecordView, edit: EditView) -> RecordView {
    match edit {
        EditView::RatioTarget(r) => RecordView { ratio_target: r, ..rec },
        EditView::UserPaused(p) => RecordView { user_paused: p, ..rec },
        EditView::Category(c) => RecordView { category: c, ..rec },
    }
}

/// Applies an edit to the record that is stored, if there is one.
pub fn modify(existing: Option<TorrentRecord>, edit: RecordEdit) -> (r: Result<
    TorrentRecord,
    StoreError,
>)
    ensures
        match existing {
            Some(rec) => r matches Ok(after) && after@ == edited(rec@, edit@),
            None => r == Err::<TorrentRecord, StoreError>(StoreError::NotFound),
        },
{
    let mut rec = match existing {
        Some(rec) => rec,
        None => {
            return Err(StoreError::NotFound);
        },
    };
    match edit {
        RecordEdit::RatioTarget(ratio) => {
            rec.ratio_target = ratio;
        },
        RecordEdit::UserPaused(paused) => {
            rec.user_paused = paused;
        },
        RecordEdit::Category(category) => {
            rec.category = category;
        },
    }
    Ok(rec)
}

/// The info hash that a row's key holds.
pub fn row_key(key: &[u8]) -> (r: Result<[u8; 20], StoreError>)
    ensures
        match r {
            Ok(h) => h@ == key@,
            Err(e) => key@.len() != 20 && e == StoreError::KeyLength,
        },
{
    if key.len() != 20 {
        return Err(StoreError::KeyLength);
    }
    let mut out: [u8; 20] = [0u8; 20];
    let mut i: usize = 0;
    while i < 20
        invariant
            i <= 20,
            key@.len() == 20,
            forall|j: int| 0 <= j < i ==> #[trigger] out@[j] == key@[j],
        decreases 20 - i,
    {
        out[i] = key[i];
        i += 1;
    }
    Ok(out)
}

/// The record marked as complete at `now`, unless it was already.
pub open spec fn completed(rec: RecordView, now: u64) -> RecordView {
    if rec.completed_at is None {
        RecordView { completed_at: Some(now), ..rec }
    } else {
        rec
    }
}

/// Marks a record as complete; gives the record to store if that changes it.
pub fn mark_completed(rec: TorrentRecord, now: u64) -> (r: Option<TorrentRecord>)
    ensures
        match r {
            Some(after) => rec@.completed_at is None && after@ == completed(rec@, now),
            None => rec@.completed_at is Some,
        },
{
    if rec.completed_at.is_some() {
        return None;
    }
    let mut rec = rec;
    rec.completed_at = Some(now);
    Some(rec)
}

/// What the file system says of a torrent's file.
#[derive(Clone, Copy, Debug, PartialEq, Eq, Structural)]
pub struct FileMeta {
    /// The time of the last change, in seconds since the epoch.
    pub mtime: Option<u64>,
    /// The size in bytes.
    pub size: u64,
}

/// The figures of a live torrent that are written to its record.
pub struct StatsRecord {
    pub hash: [u8; 20],
    pub cum_up: u64,
    pub cum_dl: u64,
    pub bitfield: Vec<u8>,
    pub save_path: String,
    pub name: String,
}

/// The contents of a `StatsRecord`.
#[verifier::ext_equal]
pub struct StatsView {
    pub hash: Seq<u8>,
    pub cum_up: u64,
    pub cum_dl: u64,
    pub bitfield: Seq<u8>,
    pub save_path: Seq<char>,
    pub name: Seq<char>,
}

impl View for StatsRecord {
    type V = StatsView;

    open spec fn view(&self) -> StatsView {
        StatsView {
            hash: self.hash@,
            cum_up: self.cum_up,
            cum_dl: self.cum_dl,
            bitfield: self.bitfield@,
            save_path: self.save_path@,
            name: self.name@,
        }
    }
}

/// The record with what the file system says of the file, if it says anything.
pub open spec fn with_file(rec: RecordView, file: Option<FileMeta>) -> RecordView {
    match file {
        Some(f) => RecordView { file_mtime: f.mtime, file_size: Some(f.size), ..rec },
        None => rec,
    }
}

/// The figures would change the record: a total is larger, or the bitfield is another.
pub open spec fn differs(rec: RecordView, stats: StatsView) -> bool {
    rec.total_uploaded < stats.cum_up || rec.total_downloaded < stats.cum_dl || rec.piece_bitfield
        != stats.bitfield
}

/// The larger of two numbers.
pub open spec fn larger(a: u64, b: u64) -> u64 {
    if a >= b {
        a
    } else {
        b
    }
}

/// The record with the current figures; a total that is already larger stays.
pub open spec fn with_stats(rec: RecordView, stats: StatsView, file: Option<FileMeta>) -> RecordView {
    with_file(
        RecordView {
            total_uploaded: larger(rec.total_uploaded, stats.cum_up),
            total_downloaded: larger(rec.total_downloaded, stats.cum_dl),
            piece_bitfield: stats.bitfield,
            ..rec
        },
        file,
    )
}

fn same_bytes(a: &[u8], b: &[u8]) -> (r: bool)
    ensures
        r == (a@ == b@),
{
    if a.len() != b.len() {
        return false;
    }
    let mut i: usize = 0;
    while i < a.len()
        invariant
            i <= a@.len(),
            a@.len() == b@.len(),
            forall|j: int| 0 <= j < i ==> a@[j] == b@[j],
        decreases a@.len() - i,
    {
        if a[i] != b[i] {
            return false;
        }
        i += 1;
    }
    assert(a@ =~= b@);
    true
}

/// Whether the figures would change the record.
pub fn stats_changed(rec: &TorrentRecord, stats: &StatsRecord) -> (r: bool)
    ensures
        r == differs(rec@, stats@),
{
    rec.total_uploaded < stats.cum_up || rec.total_downloaded < stats.cum_dl || !same_bytes(
        &rec.piece_bitfield,
        &stats.bitfield,
    )
}

fn set_file(rec: &mut TorrentRecord, file: Option<FileMeta>)
    ensures
        final(rec)@ == with_file(old(rec)@, file),
{
    if let Some(f) = file {
        rec.file_mtime = f.mtime;
        rec.file_size = Some(f.size);
    }
}

/// Writes the current figures to a record, never lowering a total.
pub fn record_stats(rec: TorrentRecord, stats: &StatsRecord, file: Option<FileMeta>) -> (r:
    TorrentRecord)
    ensures
        r@ == with_stats(rec@, stats@, file),
{
    let mut rec = rec;
    if rec.total_uploaded < stats.cum_up {
        rec.total_uploaded = stats.cum_up;
    }
    if rec.total_downloaded < stats.cum_dl {
        rec.total_downloaded = stats.cum_dl;
    }
    rec.piece_bitfield = vstd::slice::slice_to_vec(stats.bitfield.as_slice());
    set_file(&mut rec, file);
    rec
}

/// The field that an edit names reads back as it was set, and every other field is left alone.
pub proof fn edit_reads_back(rec: RecordView, edit: EditView)
    ensures
        match edit {
            EditView::RatioTarget(r) => edited(rec, edit).ratio_target == r,
            EditView::UserPaused(p) => edited(rec, edit).user_paused == p,
            EditView::Category(c) => edited(rec, edit).category == c,
        },
        edit !is RatioTarget ==> edited(rec, edit).ratio_target == rec.ratio_target,
        edit !is UserPaused ==> edited(rec, edit).user_paused == rec.user_paused,
        edit !is Category ==> edited(rec, edit).category == rec.category,
        (RecordView {
            ratio_target: rec.ratio_target,
            user_paused: rec.user_paused,
            category: rec.category,
            ..edited(rec, edit)
        }) == rec,
{
}

/// The first completion time stays, however often a record is marked.
pub proof fn first_completion_stays(rec: RecordView, first: u64, second: u64)
    ensures
        completed(completed(rec, first), second) == completed(rec, first),
        completed(rec, first).completed_at is Some,
{
}

/// Writing figures, while running or at shutdown, never lowers a total, and records at least what
/// the torrent has done.
pub proof fn totals_never_regress(rec: RecordView, stats: StatsView, file: Option<FileMeta>)
    ensures
        with_stats(rec, stats, file).total_uploaded >= rec.total_uploaded,
        with_stats(rec, stats, file).total_downloaded >= rec.total_downloaded,
        with_stats(rec, stats, file).total_uploaded >= stats.cum_up,
        with_stats(rec, stats, file).total_downloaded >= stats.cum_dl,
{
}

/// Once written, the same figures are no longer a change; figures that are no change leave the
/// totals and the bitfield as they are; and writing figures touches nothing but these and what is
/// known of the file.
pub proof fn written_stats_are_settled(rec: RecordView, stats: StatsView, file: Option<FileMeta>)
    ensures
        !differs(with_stats(rec, stats, file), stats),
        !differs(rec, stats) <==> with_stats(rec, stats, None) == rec,
        (RecordView {
            total_uploaded: rec.total_uploaded,
            total_downloaded: rec.total_downloaded,
            piece_bitfield: rec.piece_bitfield,
            file_mtime: rec.file_mtime,
            file_size: rec.file_size,
            ..with_stats(rec, stats, file)
        }) == rec,
{
}

/// Written totals are the larger of what is on record and what the torrent has, the bitfield is the
/// torrent's, and the file's time and size are those of the file system, if it says anything.
pub proof fn written_stats_are_the_larger(rec: RecordView, stats: StatsView, file: Option<FileMeta>)
    ensures
        ({
            let r = with_stats(rec, stats, file);
            &&& r.total_uploaded == rec.total_uploaded || r.total_uploaded == stats.cum_up
            &&& r.total_downloaded == rec.total_downloaded || r.total_downloaded == stats.cum_dl
            &&& r.total_uploaded >= rec.total_uploaded && r.total_uploaded >= stats.cum_up
            &&& r.total_downloaded >= rec.total_downloaded && r.total_downloaded >= stats.cum_dl
            &&& r.piece_bitfield == stats.bitfield
            &&& file matches Some(f) ==> r.file_mtime == f.mtime && r.file_size == Some(f.size)
            &&& file is None ==> r.file_mtime == rec.file_mtime && r.file_size == rec.file_size
        }),
{
}

/// The figures would change a record exactly if they have moved more than it says, or have other
/// pieces.
pub proof fn figures_differ_by_more(rec: RecordView, stats: StatsView)
    ensures
        differs(rec, stats) <==> stats.cum_up > rec.total_uploaded || stats.cum_dl
            > rec.total_downloaded || stats.bitfield != rec.piece_bitfield,
{
}

/// Marking a record complete sets the completion time if there was none, and nothing else.
pub proof fn completion_sets_only_the_time(rec: RecordView, now: u64)
    ensures
        rec.completed_at is None ==> completed(rec, now).completed_at == Some(now),
        rec.completed_at is Some ==> completed(rec, now) == rec,
        (RecordView { completed_at: rec.completed_at, ..completed(rec, now) }) == rec,
{
}

/// A ratio is a limit exactly if it is a number greater than zero: not one with a minus sign, not
/// zero, and not one that is no number.
pub proof fn limits_are_positive_numbers(rec: RecordView)
    ensures
        ({
            let bits = rec.ratio_target.bits;
            let minus = bits >= 0x8000_0000_0000_0000;
            let no_number = (bits / 0x10_0000_0000_0000) % 0x800 == 0x7ff && bits
                % 0x10_0000_0000_0000 != 0;
            &&& minus || bits == 0 || no_number ==> limit_in(rec) is None
            &&& !minus && bits != 0 && !no_number ==> limit_in(rec) == Some(rec.ratio_target)
        }),
{
}

/// A record that is there is read as it is, and none as none.
pub proof fn records_are_read_as_they_are(rec: &TorrentRecord)
    ensures
        record_view(Some(rec)) == Some(rec@),
        record_view(None) is None,
{
}

} // verus!
