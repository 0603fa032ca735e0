//! Starting to manage a torrent, and taking one up again after a restart.
use vstd::prelude::*;
use crate::bitfield;
use crate::hex;
use crate::meta::{AddPlan, MetaView, PlanError, PlanView, TorrentMeta};
use crate::store::{EditView, FileMeta, Ratio, RecordView, TorrentRecord};
use crate::table::TableKey;
use crate::text;
use crate::torrent::{LiveTorrent, Rate, TorrentView};

verus! {

/// Which pieces are taken as present when a torrent is taken up again.
pub struct ResumeState {
    /// One value for each piece, or none at all if no piece is known to be present.
    pub initial_have: Vec<bool>,
    pub pieces_have: u32,
    pub bitfield: Vec<u8>,
    pub completed: bool,
}

/// The contents of a `ResumeState`.
#[verifier::ext_equal]
pub struct ResumeView {
    pub initial_have: Seq<bool>,
    pub pieces_have: u32,
    pub bitfield: Seq<u8>,
    pub completed: bool,
}

impl View for ResumeState {
    type V = ResumeView;

    open spec fn view(&self) -> ResumeView {
        ResumeView {
            initial_have: self.initial_have@,
            pieces_have: self.pieces_have,
            bitfield: self.bitfield@,
            completed: self.completed,
        }
    }
}

/// The file is as it was when the record was written.
pub open spec fn file_unchanged(
    rec: RecordView,
    file: Option<FileMeta>,
) -> bool {
    match (rec.file_mtime, rec.file_size, file) {
        (Some(mtime), Some(size), Some(f)) => {
            &&& size == f.size
            &&& mtime == match f.mtime {
                Some(m) => m,
                None => 0,
            }
        },
        _ => false,
    }
}

/// The record has a bitfield of the right size for the pieces.
pub open spec fn has_bitfield(rec: RecordView, piece_count: u32) -> bool {
    rec.piece_bitfield.len() > 0 && rec.piece_bitfield.len() == bitfield::bytes_for(
        piece_count as int,
    )
}

/// No pieces.
pub open spec fn nothing_yet(piece_count: u32) -> ResumeView {
    ResumeView {
        initial_have: Seq::empty(),
        pieces_have: 0,
        bitfield: bitfield::zeros(bitfield::bytes_for(piece_count as int) as nat),
        completed: false,
    }
}

/// Which pieces are taken as present: all of a complete torrent, those in the record's bitfield if
/// the file has not changed since, and otherwise none.
pub open spec fn resume_of(
    rec: RecordView,
    piece_count: u32,
    file: Option<FileMeta>,
) -> ResumeView {
    if rec.completed_at is Some {
        ResumeView {
            initial_have: Seq::new(piece_count as nat, |i: int| true),
            pieces_have: piece_count,
            bitfield: bitfield::full_field(piece_count as int),
            completed: true,
        }
    } else if has_bitfield(rec, piece_count) && file_unchanged(rec, file) {
        ResumeView {
            initial_have: bitfield::haves(rec.piece_bitfield, piece_count as nat),
            pieces_have: bitfield::count(rec.piece_bitfield, piece_count as int) as u32,
            bitfield: rec.piece_bitfield,
            completed: false,
        }
    } else {
        nothing_yet(piece_count)
    }
}

fn is_unchanged(rec: &TorrentRecord, file: Option<FileMeta>) -> (r: bool)
    ensures
        r == file_unchanged(rec@, file),
{
    match (rec.file_mtime, rec.file_size, file) {
        (Some(mtime), Some(size), Some(f)) => {
            let current = match f.mtime {
                Some(m) => m,
                None => 0,
            };
            current == mtime && f.size == size
        },
        _ => false,
    }
}

/// Decides which pieces are taken as present.
pub fn resume_state(rec: &TorrentRecord, piece_count: u32, file: Option<FileMeta>) -> (r:
    ResumeState)
    ensures
        r@ == resume_of(rec@, piece_count, file),
{
    if rec.completed_at.is_some() {
        let mut have: Vec<bool> = Vec::new();
        let mut i: u32 = 0;
        while i < piece_count
            invariant
                i <= piece_count,
                have@ == Seq::new(i as nat, |j: int| true),
            decreases piece_count - i,
        {
            have.push(true);
            i += 1;
        }
        return ResumeState {
            initial_have: have,
            pieces_have: piece_count,
            bitfield: bitfield::full_bitfield(piece_count),
            completed: true,
        };
    }
    let blank = bitfield::new_bitfield(piece_count);
    if rec.piece_bitfield.len() > 0 && rec.piece_bitfield.len() == blank.len() && is_unchanged(
        rec,
        file,
    ) {
        return ResumeState {
            initial_have: bitfield::bitfield_to_initial_have(&rec.piece_bitfield, piece_count),
            pieces_have: bitfield::popcount(&rec.piece_bitfield, piece_count),
            bitfield: vstd::slice::slice_to_vec(rec.piece_bitfield.as_slice()),
            completed: false,
        };
    }
    ResumeState { initial_have: Vec::new(), pieces_have: 0, bitfield: blank, completed: false }
}

/// Why a torrent is not taken up again.
pub enum ReaddError {
    /// The `.torrent` file cannot be read.
    Parse(magpie_bt::ParseError),
    /// It has no version 1 part.
    NotV1,
    /// It describes another torrent, which has this info hash.
    HashMismatch(String),
    /// It holds more than one file.
    MultiFile,
}

/// What taking up a torrent again comes to.
#[verifier::ext_equal]
pub enum ReaddView {
    Parse,
    NotV1,
    HashMismatch(Seq<char>),
    MultiFile,
}

impl View for ReaddError {
    type V = ReaddView;

    open spec fn view(&self) -> ReaddView {
        match self {
            ReaddError::Parse(_) => ReaddView::Parse,
            ReaddError::NotV1 => ReaddView::NotV1,
            ReaddError::HashMismatch(h) => ReaddView::HashMismatch(h@),
            ReaddError::MultiFile => ReaddView::MultiFile,
        }
    }
}

/// The plan for taking up the torrent with the given info hash again, or why it is not.
pub open spec fn readd_result(info_hash: Seq<u8>, meta: MetaView) -> Result<
    PlanView,
    ReaddView,
> {
    match meta.v1_hash {
        None => Err(ReaddView::NotV1),
        Some(actual) => if actual != info_hash {
            Err(ReaddView::HashMismatch(hex::encoded(actual)))
        } else {
            match crate::meta::plan_result(meta) {
                Ok(plan) => Ok(plan),
                Err(PlanError::NotV1) => Err(ReaddView::NotV1),
                Err(PlanError::MultiFile) => Err(ReaddView::MultiFile),
            }
        },
    }
}

/// Plans to take up the torrent with the given info hash again, from what its `.torrent` file
/// says.
pub fn plan_readd(info_hash: &[u8; 20], meta: &TorrentMeta) -> (r: Result<AddPlan, ReaddError>)
    ensures
        match r {
            Ok(plan) => readd_result(info_hash@, meta@) == Ok::<PlanView, ReaddView>(
                plan@,
            ),
            Err(e) => readd_result(info_hash@, meta@) == Err::<PlanView, ReaddView>(
                e@,
            ),
        },
{
    let actual = match &meta.v1_hash {
        Some(h) => h,
        None => {
            return Err(ReaddError::NotV1);
        },
    };
    if !actual.same_key(info_hash) {
        return Err(ReaddError::HashMismatch(hex::hex_encode(actual)));
    }
    match crate::meta::plan(meta) {
        Ok(plan) => Ok(plan),
        Err(PlanError::NotV1) => Err(ReaddError::NotV1),
        Err(PlanError::MultiFile) => Err(ReaddError::MultiFile),
    }
}

/// Plans to take up the torrent with the given info hash again, from its `.torrent` file.
pub fn readd_from_bytes(info_hash: &[u8; 20], bytes: &[u8]) -> (r: Result<AddPlan, ReaddError>)
    ensures
        match crate::meta::parsed_metainfo(bytes@) {
            None => r matches Err(ReaddError::Parse(_)),
            Some(meta) => match r {
                Ok(plan) => readd_result(info_hash@, meta) == Ok::<
                    PlanView,
                    ReaddView,
                >(plan@),
                Err(e) => readd_result(info_hash@, meta) == Err::<
                    PlanView,
                    ReaddView,
                >(e@),
            },
        },
{
    match crate::meta::parse_metainfo(bytes) {
        Ok(meta) => plan_readd(info_hash, &meta),
        Err(e) => Err(ReaddError::Parse(e)),
    }
}

/// What was uploaded in earlier sessions.
pub open spec fn uploaded_before(existing: Option<RecordView>) -> u64 {
    match existing {
        Some(rec) => rec.total_uploaded,
        None => 0,
    }
}

/// What was downloaded in earlier sessions.
pub open spec fn downloaded_before(existing: Option<RecordView>) -> u64 {
    match existing {
        Some(rec) => rec.total_downloaded,
        None => 0,
    }
}

/// A torrent with the given pieces, before anything has been moved in this session.
pub open spec fn at_rest(
    plan: PlanView,
    torrent_id: u64,
    save_path: Seq<char>,
    paused: bool,
    pieces: ResumeView,
    uploaded: u64,
    downloaded: u64,
    now: u64,
) -> TorrentView {
    TorrentView {
        torrent_id,
        info_hash: plan.info_hash,
        name: plan.name,
        save_path,
        total_length: plan.total_length,
        piece_count: plan.piece_count,
        piece_length: plan.piece_length,
        pieces_have: pieces.pieces_have,
        piece_bitfield: pieces.bitfield,
        uploaded: 0,
        downloaded_wire: 0,
        dl_speed: crate::torrent::still(),
        up_speed: crate::torrent::still(),
        peer_count: 0,
        completed: pieces.completed,
        paused,
        has_error: false,
        persisted_uploaded: uploaded,
        persisted_downloaded: downloaded,
        prev_downloaded: 0,
        prev_uploaded: 0,
        prev_stats_time: now,
    }
}

/// A torrent that is added anew; totals of a record that is left of it are carried over.
pub open spec fn started(
    plan: PlanView,
    torrent_id: u64,
    save_path: Seq<char>,
    paused: bool,
    existing: Option<RecordView>,
    now: u64,
) -> TorrentView {
    at_rest(
        plan,
        torrent_id,
        save_path,
        paused,
        nothing_yet(plan.piece_count),
        uploaded_before(existing),
        downloaded_before(existing),
        now,
    )
}

/// A torrent that is taken up again.
pub open spec fn restored(
    plan: PlanView,
    torrent_id: u64,
    rec: RecordView,
    pieces: ResumeView,
    now: u64,
) -> TorrentView {
    at_rest(
        plan,
        torrent_id,
        rec.save_path,
        rec.user_paused,
        pieces,
        rec.total_uploaded,
        rec.total_downloaded,
        now,
    )
}

fn make_at_rest(
    plan: &AddPlan,
    torrent_id: u64,
    save_path: &str,
    paused: bool,
    pieces: ResumeState,
    uploaded: u64,
    downloaded: u64,
    now: u64,
) -> (r: LiveTorrent)
    ensures
        r@ == at_rest(
            plan@,
            torrent_id,
            save_path@,
            paused,
            pieces@,
            uploaded,
            downloaded,
            now,
        ),
{
    LiveTorrent {
        torrent_id,
        info_hash: plan.info_hash,
        name: plan.name.clone(),
        save_path: String::from_str(save_path),
        total_length: plan.total_length,
        piece_count: plan.piece_count,
        piece_length: plan.piece_length,
        pieces_have: pieces.pieces_have,
        piece_bitfield: pieces.bitfield,
        uploaded: 0,
        downloaded_wire: 0,
        dl_speed: Rate::zero(),
        up_speed: Rate::zero(),
        peer_count: 0,
        completed: pieces.completed,
        paused,
        has_error: false,
        persisted_uploaded: uploaded,
        persisted_downloaded: downloaded,
        prev_downloaded: 0,
        prev_uploaded: 0,
        prev_stats_time: now,
    }
}

/// Makes the torrent that a plan is about, added anew.
pub fn start_torrent(
    plan: &AddPlan,
    torrent_id: u64,
    save_path: &str,
    paused: bool,
    existing: Option<&TorrentRecord>,
    now: u64,
) -> (r: LiveTorrent)
    ensures
        r@ == started(
            plan@,
            torrent_id,
            save_path@,
            paused,
            crate::store::record_view(existing),
            now,
        ),
{
    let (uploaded, downloaded) = match existing {
        Some(rec) => (rec.total_uploaded, rec.total_downloaded),
        None => (0, 0),
    };
    let pieces = ResumeState {
        initial_have: Vec::new(),
        pieces_have: 0,
        bitfield: bitfield::new_bitfield(plan.piece_count),
        completed: false,
    };
    make_at_rest(plan, torrent_id, save_path, paused, pieces, uploaded, downloaded, now)
}

/// Makes the torrent that a plan is about, taken up again from its record.
pub fn restore_torrent(
    plan: &AddPlan,
    torrent_id: u64,
    rec: &TorrentRecord,
    pieces: ResumeState,
    now: u64,
) -> (r: LiveTorrent)
    ensures
        r@ == restored(plan@, torrent_id, rec@, pieces@, now),
{
    make_at_rest(
        plan,
        torrent_id,
        &rec.save_path,
        rec.user_paused,
        pieces,
        rec.total_uploaded,
        rec.total_downloaded,
        now,
    )
}

/// The record of a torrent that is added anew.
pub open spec fn first_record(
    plan: PlanView,
    source: Seq<char>,
    save_path: Seq<char>,
    category: Seq<char>,
    paused: bool,
    existing: Option<RecordView>,
    added_at: u64,
) -> RecordView {
    RecordView {
        info_hash_hex: plan.hash_hex,
        source,
        save_path,
        ratio_target: Ratio { bits: 0 },
        added_at,
        user_paused: paused,
        completed_at: None,
        category,
        total_uploaded: uploaded_before(existing),
        total_downloaded: downloaded_before(existing),
        piece_bitfield: Seq::empty(),
        file_mtime: None,
        file_size: None,
    }
}

/// Makes the record of a torrent that is added anew.
pub fn new_record(
    plan: &AddPlan,
    source: &str,
    save_path: &str,
    category: &str,
    paused: bool,
    existing: Option<&TorrentRecord>,
    added_at: u64,
) -> (r: TorrentRecord)
    ensures
        r@ == first_record(
            plan@,
            source@,
            save_path@,
            category@,
            paused,
            crate::store::record_view(existing),
            added_at,
        ),
{
    let (uploaded, downloaded) = match existing {
        Some(rec) => (rec.total_uploaded, rec.total_downloaded),
        None => (0, 0),
    };
    TorrentRecord {
        info_hash_hex: plan.hash_hex.clone(),
        source: String::from_str(source),
        save_path: String::from_str(save_path),
        ratio_target: Ratio { bits: 0 },
        added_at,
        user_paused: paused,
        completed_at: None,
        category: String::from_str(category),
        total_uploaded: uploaded,
        total_downloaded: downloaded,
        piece_bitfield: Vec::new(),
        file_mtime: None,
        file_size: None,
    }
}

/// The name under which a torrent's `.torrent` file is kept.
pub fn torrent_file_name(info_hash: &[u8; 20]) -> (r: String)
    ensures
        r@ == hex::encoded(info_hash@) + ".torrent"@,
{
    hex::hex_encode(info_hash).concat(".torrent")
}

/// The text names a file, not a place on the network or a remark.
pub open spec fn names_file(source: Seq<char>) -> bool {
    !"http"@.is_prefix_of(source) && !"magnet"@.is_prefix_of(source) && !"<"@.is_prefix_of(source)
}

/// The files in which a torrent's `.torrent` data is looked for, in that order.
pub open spec fn candidates(persistence_dir: Seq<char>, rec: RecordView) -> Seq<
    Seq<char>,
> {
    let kept = persistence_dir + "/"@ + rec.info_hash_hex + ".torrent"@;
    if names_file(rec.source) {
        seq![kept, rec.source]
    } else {
        seq![kept]
    }
}

/// The files in which a torrent's `.torrent` data is looked for, in that order.
pub fn source_candidates(persistence_dir: &str, rec: &TorrentRecord) -> (r: Vec<String>)
    ensures
        text::strings(r@) == candidates(persistence_dir@, rec@),
{
    let kept = String::from_str(persistence_dir).concat("/").concat(&rec.info_hash_hex).concat(
        ".torrent",
    );
    let mut out: Vec<String> = Vec::new();
    out.push(kept);
    let source = text::chars_of(&rec.source);
    if !text::starts_with(&source, &text::chars_of("http")) && !text::starts_with(
        &source,
        &text::chars_of("magnet"),
    ) && !text::starts_with(&source, &text::chars_of("<")) {
        out.push(rec.source.clone());
    }
    out
}

/// A partly downloaded torrent whose figures were written to its record, and whose file has not
/// changed since, is taken up again with the very pieces that it had.
pub proof fn fast_resume_keeps_pieces(
    t: TorrentView,
    rec: RecordView,
    file: FileMeta,
)
    requires
        rec.completed_at is None,
        file.mtime is Some,
        crate::torrent::counts_pieces(t),
    ensures
        resume_of(
            crate::store::with_stats(rec, crate::torrent::stats_of(t), Some(file)),
            t.piece_count,
            Some(file),
        ) == (ResumeView {
            initial_have: bitfield::haves(t.piece_bitfield, t.piece_count as nat),
            pieces_have: t.pieces_have,
            bitfield: t.piece_bitfield,
            completed: false,
        }),
{
}

/// If the file has changed, no piece of an incomplete torrent is taken as present.
pub proof fn changed_file_is_not_trusted(
    rec: RecordView,
    piece_count: u32,
    file: Option<FileMeta>,
)
    requires
        rec.completed_at is None,
        !file_unchanged(rec, file),
    ensures
        resume_of(rec, piece_count, file) == nothing_yet(piece_count),
        forall|p: int| !#[trigger] bitfield::bit(resume_of(rec, piece_count, file).bitfield, p),
{
    bitfield::zero_field_is_clear(bitfield::bytes_for(piece_count as int) as nat);
}

/// However a torrent is taken up, its piece count is that of its bitfield.
pub proof fn resumed_pieces_are_counted(
    plan: PlanView,
    torrent_id: u64,
    rec: RecordView,
    file: Option<FileMeta>,
    now: u64,
)
    ensures
        crate::torrent::counts_pieces(
            restored(plan, torrent_id, rec, resume_of(rec, plan.piece_count, file), now),
        ),
        crate::torrent::counts_pieces(
            started(plan, torrent_id, rec.save_path, rec.user_paused, Some(rec), now),
        ),
{
    let n = plan.piece_count;
    bitfield::full_field_is_full(n as nat);
    bitfield::zero_field_is_clear(bitfield::bytes_for(n as int) as nat);
    bitfield::clear_field_counts_none(
        bitfield::zeros(bitfield::bytes_for(n as int) as nat),
        n as int,
    );
    bitfield::count_counts_haves(rec.piece_bitfield, n as nat);
}

/// A restart carries over what the torrent has moved, or what its record says if that is more;
/// and it carries over whether it was paused, whether it was complete, and where it is saved.
pub proof fn restart_keeps_figures(
    t: TorrentView,
    plan: PlanView,
    torrent_id: u64,
    rec: RecordView,
    written: Option<FileMeta>,
    found: Option<FileMeta>,
    now: u64,
)
    requires
        crate::torrent::totals_fit(t),
    ensures
        ({
            let kept = crate::store::with_stats(rec, crate::torrent::stats_of(t), written);
            let again = restored(
                plan,
                torrent_id,
                kept,
                resume_of(kept, plan.piece_count, found),
                now,
            );
            &&& crate::torrent::totals_fit(again)
            &&& crate::torrent::snapshot_of(again).uploaded == crate::store::larger(
                rec.total_uploaded,
                crate::torrent::snapshot_of(t).uploaded,
            )
            &&& crate::torrent::snapshot_of(again).downloaded == crate::store::larger(
                rec.total_downloaded,
                crate::torrent::snapshot_of(t).downloaded,
            )
            &&& again.paused == rec.user_paused
            &&& again.completed == (rec.completed_at is Some)
            &&& again.save_path == rec.save_path
        }),
{
}

/// A torrent that was paused or resumed is taken up again in that state, and one that was marked
/// complete is taken up again as complete, with all of its pieces.
pub proof fn marks_survive_restart(
    plan: PlanView,
    torrent_id: u64,
    rec: RecordView,
    paused: bool,
    completed_at: u64,
    file: Option<FileMeta>,
    now: u64,
)
    ensures
        ({
            let kept = crate::store::edited(rec, EditView::UserPaused(paused));
            let pieces = resume_of(kept, plan.piece_count, file);
            restored(plan, torrent_id, kept, pieces, now).paused == paused
        }),
        ({
            let kept = crate::store::completed(rec, completed_at);
            let pieces = resume_of(kept, plan.piece_count, file);
            let again = restored(plan, torrent_id, kept, pieces, now);
            again.completed && again.pieces_have == plan.piece_count
        }),
{
}

/// A torrent whose record has a completion time is taken up with every piece, whatever the file
/// system says of its file: one value for each piece, all of them true, every piece counted, and
/// exactly the bits of the pieces set.
pub proof fn complete_torrents_have_every_piece(
    rec: RecordView,
    piece_count: u32,
    file: Option<FileMeta>,
)
    requires
        rec.completed_at is Some,
    ensures
        ({
            let r = resume_of(rec, piece_count, file);
            &&& r.completed
            &&& r.pieces_have == piece_count
            &&& r.initial_have.len() == piece_count
            &&& forall|i: int| 0 <= i < piece_count ==> #[trigger] r.initial_have[i]
            &&& 8 * r.bitfield.len() >= piece_count && 8 * r.bitfield.len() < piece_count + 8
            &&& forall|p: int| #[trigger] bitfield::bit(r.bitfield, p) <==> 0 <= p < piece_count
        }),
{
    bitfield::full_field_is_full(piece_count as nat);
}

/// However a torrent is taken up, what the download engine is told agrees with the bitfield and
/// the count: there is a value for each piece that equals the piece's bit, or, if no piece is
/// there, perhaps no value at all; and only a torrent with a completion time is complete.
pub proof fn present_pieces_agree(rec: RecordView, piece_count: u32, file: Option<FileMeta>)
    ensures
        ({
            let r = resume_of(rec, piece_count, file);
            &&& r.pieces_have > 0 ==> r.initial_have.len() == piece_count
            &&& r.initial_have.len() == piece_count || r.initial_have.len() == 0
            &&& forall|i: int|
                0 <= i < r.initial_have.len() ==> #[trigger] r.initial_have[i] == bitfield::bit(
                    r.bitfield,
                    i,
                )
            &&& r.initial_have.len() == 0 ==> forall|p: int| !#[trigger]
                bitfield::bit(r.bitfield, p)
            &&& r.pieces_have == bitfield::count(r.bitfield, piece_count as int)
            &&& 8 * r.bitfield.len() >= piece_count && 8 * r.bitfield.len() < piece_count + 8
            &&& r.completed <==> rec.completed_at is Some
        }),
{
    let n = piece_count as nat;
    let clear = bitfield::zeros(bitfield::bytes_for(n as int) as nat);
    bitfield::full_field_is_full(n);
    bitfield::zero_field_is_clear(bitfield::bytes_for(n as int) as nat);
    bitfield::clear_field_counts_none(clear, n as int);
    bitfield::count_counts_haves(rec.piece_bitfield, n);
}

/// The bitfield of an incomplete torrent's record is taken over exactly if it has a byte for every
/// eight pieces, at least one, and the file has the size and the time of change on record, where a
/// time that cannot be told counts as 0. Otherwise no piece is taken as present.
pub proof fn recorded_pieces_need_the_same_file(
    rec: RecordView,
    piece_count: u32,
    file: Option<FileMeta>,
)
    requires
        rec.completed_at is None,
    ensures
        ({
            let r = resume_of(rec, piece_count, file);
            let size = rec.piece_bitfield.len();
            let same = file matches Some(f) && rec.file_size == Some(f.size) && (rec.file_mtime
                == f.mtime && f.mtime is Some || rec.file_mtime == Some(0u64) && f.mtime is None);
            let fits = size > 0 && 8 * size >= piece_count && 8 * size < piece_count + 8;
            &&& same && fits ==> r.bitfield == rec.piece_bitfield
            &&& !(same && fits) ==> r.pieces_have == 0 && r.initial_have.len() == 0 && forall|p: int|
                !#[trigger] bitfield::bit(r.bitfield, p)
        }),
{
    bitfield::zero_field_is_clear(bitfield::bytes_for(piece_count as int) as nat);
}

/// A torrent that is added anew has nothing yet: no piece, nothing moved in this session, no speed,
/// no peer, no error. It is what its plan says, where and as paused as asked, with the totals of a
/// record that is left of it.
pub proof fn new_torrents_have_nothing_yet(
    plan: PlanView,
    torrent_id: u64,
    save_path: Seq<char>,
    paused: bool,
    existing: Option<RecordView>,
    now: u64,
)
    ensures
        ({
            let t = started(plan, torrent_id, save_path, paused, existing, now);
            &&& is_of_plan(t, plan, torrent_id, now)
            &&& t.save_path == save_path && t.paused == paused
            &&& t.pieces_have == 0 && !t.completed
            &&& 8 * t.piece_bitfield.len() >= plan.piece_count && 8 * t.piece_bitfield.len()
                < plan.piece_count + 8
            &&& forall|p: int| !#[trigger] bitfield::bit(t.piece_bitfield, p)
            &&& existing matches Some(rec) ==> t.persisted_uploaded == rec.total_uploaded
                && t.persisted_downloaded == rec.total_downloaded
            &&& existing is None ==> t.persisted_uploaded == 0 && t.persisted_downloaded == 0
        }),
{
    bitfield::zero_field_is_clear(bitfield::bytes_for(plan.piece_count as int) as nat);
}

/// The torrent is the one of the plan, and nothing has been moved in this session.
pub open spec fn is_of_plan(t: TorrentView, plan: PlanView, torrent_id: u64, now: u64) -> bool {
    &&& t.torrent_id == torrent_id && t.info_hash == plan.info_hash && t.name == plan.name
    &&& t.total_length == plan.total_length && t.piece_count == plan.piece_count
        && t.piece_length == plan.piece_length
    &&& t.uploaded == 0 && t.downloaded_wire == 0 && t.prev_uploaded == 0 && t.prev_downloaded == 0
    &&& t.dl_speed.bytes == 0 && t.up_speed.bytes == 0 && t.dl_speed.nanos > 0 && t.up_speed.nanos
        > 0
    &&& t.peer_count == 0 && !t.has_error && t.prev_stats_time == now
}

/// A torrent that is taken up again is what its plan says, has the pieces that it is given, and has
/// the path, the paused flag and the totals of its record.
pub proof fn restored_torrents_follow_their_record(
    plan: PlanView,
    torrent_id: u64,
    rec: RecordView,
    pieces: ResumeView,
    now: u64,
)
    ensures
        ({
            let t = restored(plan, torrent_id, rec, pieces, now);
            &&& is_of_plan(t, plan, torrent_id, now)
            &&& t.save_path == rec.save_path && t.paused == rec.user_paused
            &&& t.pieces_have == pieces.pieces_have && t.piece_bitfield == pieces.bitfield
                && t.completed == pieces.completed
            &&& t.persisted_uploaded == rec.total_uploaded && t.persisted_downloaded
                == rec.total_downloaded
        }),
{
}

/// The first record of a torrent says where it came from and where it is saved, its category and
/// whether it is paused, and when it was added; it has no limit, no completion time and nothing of
/// the file, and the totals of a record that is left of it.
pub proof fn first_record_says_what_was_asked(
    plan: PlanView,
    source: Seq<char>,
    save_path: Seq<char>,
    category: Seq<char>,
    paused: bool,
    existing: Option<RecordView>,
    added_at: u64,
)
    ensures
        ({
            let r = first_record(plan, source, save_path, category, paused, existing, added_at);
            &&& r.info_hash_hex == plan.hash_hex && r.source == source && r.save_path == save_path
            &&& r.category == category && r.user_paused == paused && r.added_at == added_at
            &&& crate::store::limit_in(r) is None && r.ratio_target.bits == 0
            &&& r.completed_at is None && r.piece_bitfield.len() == 0
            &&& r.file_mtime is None && r.file_size is None
            &&& existing matches Some(rec) ==> r.total_uploaded == rec.total_uploaded
                && r.total_downloaded == rec.total_downloaded
            &&& existing is None ==> r.total_uploaded == 0 && r.total_downloaded == 0
        }),
{
}

/// A torrent's data is looked for in the file named after its info hash, and then in the file that
/// its record names, unless the record names a place on the network or a remark.
pub proof fn data_is_looked_for_by_hash_first(dir: Seq<char>, rec: RecordView)
    ensures
        ({
            let list = candidates(dir, rec);
            let named = "http"@.is_prefix_of(rec.source) || "magnet"@.is_prefix_of(rec.source)
                || "<"@.is_prefix_of(rec.source);
            &&& list[0] == dir + "/"@ + rec.info_hash_hex + ".torrent"@
            &&& named ==> list.len() == 1
            &&& !named ==> list.len() == 2 && list[1] == rec.source
        }),
{
}

/// A `.torrent` file is used to take a torrent up again exactly if it is a single-file version 1
/// torrent with that info hash; otherwise the reason says which of these fails first.
pub proof fn only_the_same_torrent_is_taken_up(info_hash: Seq<u8>, meta: MetaView)
    ensures
        match readd_result(info_hash, meta) {
            Ok(plan) => meta.v1_hash == Some(info_hash) && plan.info_hash == info_hash
                && crate::meta::plan_result(meta) == Ok::<PlanView, PlanError>(plan),
            Err(ReaddView::NotV1) => meta.v1_hash is None || (meta.v1_hash == Some(info_hash)
                && meta.v1 is None),
            Err(ReaddView::HashMismatch(text)) => meta.v1_hash matches Some(h) && h != info_hash
                && text == hex::encoded(h),
            Err(ReaddView::MultiFile) => meta.v1_hash == Some(info_hash) && meta.v1 is Some
                && meta.v1->0.files == crate::meta::FileList::Multi,
            Err(ReaddView::Parse) => false,
        },
        meta.v1_hash == Some(info_hash) && meta.v1 is Some && !(meta.v1->0.files
            == crate::meta::FileList::Multi) ==> readd_result(info_hash, meta) is Ok,
{
}

} // verus!
