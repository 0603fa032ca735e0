//! The torrents being managed.
use vstd::prelude::*;
use crate::bitfield;
use crate::hex;
use crate::meta::{AddPlan, MetaView, PlanError, PlanView, TorrentMeta};
use crate::resume;
use crate::store::{RecordView, StatsRecord, StatsView};
use crate::table::Table;
use crate::text;
use crate::torrent;
use crate::torrent::{
    EngineAlert, LiveTorrent, Progress, StatsSample, TorrentSnapshot, TorrentView,
};

verus! {

/// The torrents being managed, found by info hash and by handle.
pub struct Engine {
    by_hash: Table<[u8; 20], LiveTorrent>,
    id_to_hash: Table<u64, [u8; 20]>,
}

/// The contents of an `Engine`.
#[verifier::ext_equal]
pub struct EngineView {
    pub torrents: Map<Seq<u8>, TorrentView>,
    pub ids: Map<u64, Seq<u8>>,
}

/// Each torrent is kept under its own info hash, its handle leads to it, and its totals fit.
pub open spec fn consistent(v: EngineView) -> bool {
    forall|h: Seq<u8>| #[trigger]
        v.torrents.contains_key(h) ==> {
            let t = v.torrents[h];
            &&& h.len() == 20
            &&& t.info_hash == h
            &&& v.ids.contains_key(t.torrent_id)
            &&& v.ids[t.torrent_id] == h
            &&& torrent::totals_fit(t)
        }
}

/// The torrent that a handle leads to.
pub open spec fn known(v: EngineView, id: u64) -> Option<Seq<u8>> {
    if v.ids.contains_key(id) && v.torrents.contains_key(v.ids[id]) {
        Some(v.ids[id])
    } else {
        None
    }
}

/// The contents with one torrent changed.
pub open spec fn with_torrent(v: EngineView, h: Seq<u8>, t: TorrentView) -> EngineView {
    EngineView { torrents: v.torrents.insert(h, t), ..v }
}

/// The contents with a torrent paused.
pub open spec fn paused(v: EngineView, h: Seq<u8>) -> EngineView {
    with_torrent(v, h, TorrentView { paused: true, ..v.torrents[h] })
}

/// The contents with a torrent resumed, which clears its error.
pub open spec fn resumed(v: EngineView, h: Seq<u8>) -> EngineView {
    with_torrent(v, h, TorrentView { paused: false, has_error: false, ..v.torrents[h] })
}

/// The known torrent that an alert is about.
pub open spec fn alert_target(v: EngineView, alert: EngineAlert) -> Option<Seq<u8>> {
    match torrent::alert_torrent(alert) {
        Some(id) => known(v, id),
        None => None,
    }
}

/// The counter that an alert raises can be raised.
pub open spec fn takes_alert(v: EngineView, alert: EngineAlert) -> bool {
    alert_target(v, alert) matches Some(h) ==> torrent::alert_fits(v.torrents[h], alert)
}

/// The contents after an alert; one about an unknown torrent changes nothing.
pub open spec fn after_alert(v: EngineView, alert: EngineAlert) -> EngineView {
    match alert_target(v, alert) {
        Some(h) => with_torrent(v, h, torrent::alerted(v.torrents[h], alert)),
        None => v,
    }
}

/// The contents after the first `n` alerts.
pub open spec fn after_alerts(v: EngineView, batch: Seq<EngineAlert>, n: int) -> EngineView
    decreases n,
{
    if n <= 0 {
        v
    } else {
        after_alert(after_alerts(v, batch, n - 1), batch[n - 1])
    }
}

/// The first `n` alerts can be taken one after the other.
pub open spec fn takes_alerts(v: EngineView, batch: Seq<EngineAlert>, n: int) -> bool {
    forall|i: int| 0 <= i < n ==> takes_alert(#[trigger] after_alerts(v, batch, i), batch[i])
}

/// What a batch of alerts asks for besides changing the torrents.
pub struct BatchOutcome {
    /// The torrents reported complete.
    pub completed: Vec<[u8; 20]>,
    /// Alerts were lost, so the peer counts have to be asked for.
    pub needs_reconciliation: bool,
    /// New statistics can be asked for.
    pub has_stats_update: bool,
}

/// The info hashes of the torrents that the first `n` alerts report complete.
pub open spec fn completions(ids: Map<u64, Seq<u8>>, batch: Seq<EngineAlert>, n: int) -> Seq<
    Seq<u8>,
>
    decreases n,
{
    if n <= 0 {
        Seq::empty()
    } else {
        let before = completions(ids, batch, n - 1);
        match batch[n - 1] {
            EngineAlert::TorrentComplete { torrent } => if ids.contains_key(torrent) {
                before.push(ids[torrent])
            } else {
                before
            },
            _ => before,
        }
    }
}

/// The info hashes of a list.
pub open spec fn hashes(v: Seq<[u8; 20]>) -> Seq<Seq<u8>> {
    v.map_values(|h: [u8; 20]| h@)
}

/// The list holds each of the torrents once and nothing else.
pub open spec fn lists_torrents(list: Seq<Seq<u8>>, m: Map<Seq<u8>, TorrentView>) -> bool {
    list.no_duplicates() && forall|h: Seq<u8>| #[trigger] list.contains(h) <==> m.contains_key(h)
}

/// Why a request about a torrent failed.
#[derive(Clone, Copy, Debug, PartialEq, Eq, Structural)]
pub enum EngineError {
    /// The text is not an info hash.
    BadHash(hex::HexError),
    /// No torrent with that info hash is managed.
    NotFound,
}

/// The managed torrent that a text names, or why there is none.
pub open spec fn find(v: EngineView, hash: Seq<char>) -> Result<Seq<u8>, EngineError> {
    match hex::decode_result(vstd::utf8::encode_utf8(hash)) {
        Err(e) => Err(EngineError::BadHash(e)),
        Ok(h) => if v.torrents.contains_key(h) {
            Ok(h)
        } else {
            Err(EngineError::NotFound)
        },
    }
}

/// What adding a torrent comes to.
pub enum AddOutcome {
    /// The torrent is managed already; this is its info hash.
    AlreadyManaged(String),
    /// The torrent is new and can be managed as planned.
    New(AddPlan),
}

/// Why a torrent cannot be added.
pub enum AddError {
    /// The `.torrent` file cannot be read.
    Parse(magpie_bt::ParseError),
    /// The torrent cannot be managed.
    Plan(PlanError),
}

/// What adding a torrent comes to.
#[verifier::ext_equal]
pub enum AddView {
    AlreadyManaged(Seq<char>),
    New(PlanView),
}

impl View for AddOutcome {
    type V = AddView;

    open spec fn view(&self) -> AddView {
        match self {
            AddOutcome::AlreadyManaged(h) => AddView::AlreadyManaged(h@),
            AddOutcome::New(plan) => AddView::New(plan@),
        }
    }
}

/// What adding a torrent comes to, given what its `.torrent` file says.
pub open spec fn admission(v: EngineView, meta: MetaView) -> Result<AddView, PlanError> {
    match meta.v1_hash {
        None => Err(PlanError::NotV1),
        Some(h) => if v.torrents.contains_key(h) {
            Ok(AddView::AlreadyManaged(hex::encoded(h)))
        } else {
            match crate::meta::plan_result(meta) {
                Ok(plan) => Ok(AddView::New(plan)),
                Err(e) => Err(e),
            }
        },
    }
}

/// The contents with one torrent more.
pub open spec fn with_new(v: EngineView, t: TorrentView) -> EngineView {
    EngineView {
        torrents: v.torrents.insert(t.info_hash, t),
        ids: v.ids.insert(t.torrent_id, t.info_hash),
    }
}

/// The contents with one torrent less.
pub open spec fn without(v: EngineView, h: Seq<u8>) -> EngineView {
    EngineView {
        torrents: v.torrents.remove(h),
        ids: v.ids.remove(v.torrents[h].torrent_id),
    }
}

/// What a statistics sample comes to.
pub enum StatsOutcome {
    /// The torrent is not managed.
    Unknown,
    /// A total would no longer fit its counter.
    Overflow,
    /// The figures to write to the torrent's record, and the total uploaded and the size whose
    /// ratio is held against the torrent's limit, if it is.
    Applied(StatsRecord, Option<RatioCheck>),
}

/// What a ratio is computed from.
#[derive(Clone, Copy, Debug, PartialEq, Eq, Structural)]
pub struct RatioCheck {
    pub uploaded: u64,
    pub size: u64,
}

/// What the ratio of a torrent is computed from, if it is held against a limit.
pub open spec fn ratio_check(t: TorrentView) -> Option<RatioCheck> {
    if torrent::watches_ratio(t) {
        Some(RatioCheck { uploaded: torrent::stats_of(t).cum_up, size: t.total_length })
    } else {
        None
    }
}

/// The figures of a torrent after a statistics sample.
pub struct Applied {
    /// What is written to the torrent's record.
    pub stats: StatsRecord,
    /// What the torrent's ratio is computed from, if it is held against a limit.
    pub check: Option<RatioCheck>,
}

/// The contents of an `Applied`.
#[verifier::ext_equal]
pub struct AppliedView {
    pub stats: StatsView,
    pub check: Option<RatioCheck>,
}

impl View for Applied {
    type V = AppliedView;

    open spec fn view(&self) -> AppliedView {
        AppliedView { stats: self.stats@, check: self.check }
    }
}

/// The contents of the figures.
pub open spec fn applied_views(v: Seq<Applied>) -> Seq<AppliedView> {
    v.map_values(|a: Applied| a@)
}

/// The contents after a statistics sample; one of an unknown torrent changes nothing.
pub open spec fn after_sample(
    v: EngineView,
    sample: ([u8; 20], StatsSample),
    now: u64,
) -> EngineView {
    if v.torrents.contains_key(sample.0@) {
        with_torrent(v, sample.0@, torrent::sampled(v.torrents[sample.0@], sample.1, now))
    } else {
        v
    }
}

/// The totals after a statistics sample fit their counters.
pub open spec fn takes_sample(v: EngineView, sample: ([u8; 20], StatsSample), now: u64) -> bool {
    v.torrents.contains_key(sample.0@) ==> torrent::totals_fit(
        torrent::sampled(v.torrents[sample.0@], sample.1, now),
    )
}

/// The contents after the first `n` statistics samples.
pub open spec fn after_samples(
    v: EngineView,
    samples: Seq<([u8; 20], StatsSample)>,
    now: u64,
    n: int,
) -> EngineView
    decreases n,
{
    if n <= 0 {
        v
    } else {
        after_sample(after_samples(v, samples, now, n - 1), samples[n - 1], now)
    }
}

/// The first `n` statistics samples can be taken one after the other.
pub open spec fn takes_samples(
    v: EngineView,
    samples: Seq<([u8; 20], StatsSample)>,
    now: u64,
    n: int,
) -> bool {
    forall|i: int|
        0 <= i < n ==> takes_sample(#[trigger] after_samples(v, samples, now, i), samples[i], now)
}

/// The figures that the first `n` statistics samples give, one for each managed torrent.
pub open spec fn figures(
    v: EngineView,
    samples: Seq<([u8; 20], StatsSample)>,
    now: u64,
    n: int,
) -> Seq<AppliedView>
    decreases n,
{
    if n <= 0 {
        Seq::empty()
    } else {
        let before = figures(v, samples, now, n - 1);
        let h = samples[n - 1].0@;
        if after_samples(v, samples, now, n - 1).torrents.contains_key(h) {
            let t = after_samples(v, samples, now, n).torrents[h];
            before.push(AppliedView { stats: torrent::stats_of(t), check: ratio_check(t) })
        } else {
            before
        }
    }
}

/// The contents with the first `n` torrents of a list paused.
pub open spec fn with_paused(v: EngineView, list: Seq<[u8; 20]>, n: int) -> EngineView
    decreases n,
{
    if n <= 0 {
        v
    } else {
        let before = with_paused(v, list, n - 1);
        if before.torrents.contains_key(list[n - 1]@) {
            paused(before, list[n - 1]@)
        } else {
            before
        }
    }
}

/// The handles of the managed torrents among the first `n` of a list.
pub open spec fn handles_of(v: EngineView, list: Seq<[u8; 20]>, n: int) -> Seq<u64>
    decreases n,
{
    if n <= 0 {
        Seq::empty()
    } else {
        let before = handles_of(v, list, n - 1);
        if v.torrents.contains_key(list[n - 1]@) {
            before.push(v.torrents[list[n - 1]@].torrent_id)
        } else {
            before
        }
    }
}

/// The contents with the peer counts of the first `n` entries taken over.
pub open spec fn with_peers(v: EngineView, counts: Seq<([u8; 20], usize)>, n: int) -> EngineView
    decreases n,
{
    if n <= 0 {
        v
    } else {
        let before = with_peers(v, counts, n - 1);
        let (h, peers) = counts[n - 1];
        if before.torrents.contains_key(h@) {
            with_torrent(
                before,
                h@,
                TorrentView { peer_count: peers, ..before.torrents[h@] },
            )
        } else {
            before
        }
    }
}

/// A file of a torrent.
pub struct FileEntry {
    pub name: String,
    pub size: u64,
    pub progress: Progress,
}

impl Engine {
    /// The torrents are consistent and no hash or handle is kept twice.
    pub closed spec fn wf(&self) -> bool {
        self.by_hash.wf() && self.id_to_hash.wf() && consistent(self@)
    }

    /// The torrents by info hash, and the info hashes by handle.
    pub closed spec fn view(&self) -> EngineView {
        EngineView { torrents: self.by_hash@, ids: self.id_to_hash@ }
    }

    /// No torrent is managed.
    pub fn new() -> (r: Engine)
        ensures
            r.wf(),
            r@ == (EngineView { torrents: Map::empty(), ids: Map::empty() }),
    {
        Engine { by_hash: Table::new(), id_to_hash: Table::new() }
    }

    fn find_hash(&self, hash: &str) -> (r: Result<[u8; 20], EngineError>)
        requires
            self.wf(),
        ensures
            match r {
                Ok(h) => find(self@, hash@) == Ok::<Seq<u8>, EngineError>(h@),
                Err(e) => find(self@, hash@) == Err::<Seq<u8>, EngineError>(e),
            },
    {
        match hex::hex_decode(hash) {
            Ok(h) => if self.by_hash.contains_key(&h) {
                Ok(h)
            } else {
                Err(EngineError::NotFound)
            },
            Err(e) => Err(EngineError::BadHash(e)),
        }
    }

    /// Decides whether a torrent can be added, from what its `.torrent` file says.
    pub fn decide_add(&self, meta: &TorrentMeta) -> (r: Result<AddOutcome, PlanError>)
        requires
            self.wf(),
        ensures
            match r {
                Ok(outcome) => admission(self@, meta@) == Ok::<AddView, PlanError>(outcome@),
                Err(e) => admission(self@, meta@) == Err::<AddView, PlanError>(e),
            },
    {
        match &meta.v1_hash {
            None => Err(PlanError::NotV1),
            Some(h) => if self.by_hash.contains_key(h) {
                Ok(AddOutcome::AlreadyManaged(hex::hex_encode(h)))
            } else {
                match crate::meta::plan(meta) {
                    Ok(plan) => Ok(AddOutcome::New(plan)),
                    Err(e) => Err(e),
                }
            },
        }
    }

    /// Decides whether a torrent can be added, from its `.torrent` file.
    pub fn add_torrent_bytes(&self, bytes: &[u8]) -> (r: Result<AddOutcome, AddError>)
        requires
            self.wf(),
        ensures
            match crate::meta::parsed_metainfo(bytes@) {
                None => r matches Err(AddError::Parse(_)),
                Some(meta) => match admission(self@, meta) {
                    Ok(outcome) => r matches Ok(o) && o@ == outcome,
                    Err(e) => r matches Err(AddError::Plan(p)) && p == e,
                },
            },
    {
        match crate::meta::parse_metainfo(bytes) {
            Ok(meta) => match self.decide_add(&meta) {
                Ok(outcome) => Ok(outcome),
                Err(e) => Err(AddError::Plan(e)),
            },
            Err(e) => Err(AddError::Parse(e)),
        }
    }

    /// Takes a torrent under management, under a handle not in use.
    pub fn insert(&mut self, t: LiveTorrent)
        requires
            old(self).wf(),
            torrent::totals_fit(t@),
            !old(self)@.ids.contains_key(t@.torrent_id),
        ensures
            final(self).wf(),
            final(self)@ == with_new(old(self)@, t@),
    {
        let id = t.torrent_id;
        let hash = t.info_hash;
        proof {
            lemma_with_new(self@, t@);
        }
        self.by_hash.insert(hash, t);
        self.id_to_hash.insert(id, hash);
    }

    /// Whether a handle is in use.
    pub fn knows_id(&self, id: u64) -> (r: bool)
        requires
            self.wf(),
        ensures
            r == self@.ids.contains_key(id),
    {
        self.id_to_hash.contains_key(&id)
    }

    /// Pauses a torrent; gives its handle.
    pub fn pause_torrent(&mut self, hash: &str) -> (r: Result<u64, EngineError>)
        requires
            old(self).wf(),
        ensures
            final(self).wf(),
            match find(old(self)@, hash@) {
                Ok(h) => {
                    &&& r == Ok::<u64, EngineError>(old(self)@.torrents[h].torrent_id)
                    &&& final(self)@ == paused(old(self)@, h)
                },
                Err(e) => r == Err::<u64, EngineError>(e) && final(self)@ == old(self)@,
            },
    {
        let h = match self.find_hash(hash) {
            Ok(h) => h,
            Err(e) => {
                return Err(e);
            },
        };
        match self.by_hash.get_mut(&h) {
            Some(t) => {
                t.paused = true;
                Ok(t.torrent_id)
            },
            None => Err(EngineError::NotFound),
        }
    }

    /// Resumes a torrent and clears its error; gives its handle.
    pub fn resume_torrent(&mut self, hash: &str) -> (r: Result<u64, EngineError>)
        requires
            old(self).wf(),
        ensures
            final(self).wf(),
            match find(old(self)@, hash@) {
                Ok(h) => {
                    &&& r == Ok::<u64, EngineError>(old(self)@.torrents[h].torrent_id)
                    &&& final(self)@ == resumed(old(self)@, h)
                },
                Err(e) => r == Err::<u64, EngineError>(e) && final(self)@ == old(self)@,
            },
    {
        let h = match self.find_hash(hash) {
            Ok(h) => h,
            Err(e) => {
                return Err(e);
            },
        };
        match self.by_hash.get_mut(&h) {
            Some(t) => {
                t.paused = false;
                t.has_error = false;
                Ok(t.torrent_id)
            },
            None => Err(EngineError::NotFound),
        }
    }

    /// Stops managing a torrent; gives its handle and info hash.
    pub fn delete_torrent(&mut self, hash: &str) -> (r: Result<(u64, [u8; 20]), EngineError>)
        requires
            old(self).wf(),
        ensures
            final(self).wf(),
            match find(old(self)@, hash@) {
                Ok(h) => {
                    &&& r matches Ok((id, bytes)) && id == old(self)@.torrents[h].torrent_id
                        && bytes@ == h
                    &&& final(self)@ == without(old(self)@, h)
                },
                Err(e) => r == Err::<(u64, [u8; 20]), EngineError>(e) && final(self)@
                    == old(self)@,
            },
    {
        let h = match self.find_hash(hash) {
            Ok(h) => h,
            Err(e) => {
                return Err(e);
            },
        };
        match self.by_hash.remove(&h) {
            Some(t) => {
                let _ = self.id_to_hash.remove(&t.torrent_id);
                Ok((t.torrent_id, h))
            },
            None => Err(EngineError::NotFound),
        }
    }

    /// Reads the figures of a torrent.
    pub fn snapshot(&self, hash: &str) -> (r: Option<TorrentSnapshot>)
        requires
            self.wf(),
        ensures
            match find(self@, hash@) {
                Ok(h) => r matches Some(s) && s@ == torrent::snapshot_of(self@.torrents[h]),
                Err(_) => r is None,
            },
    {
        let h = match self.find_hash(hash) {
            Ok(h) => h,
            Err(_) => {
                return None;
            },
        };
        match self.by_hash.get(&h) {
            Some(t) => Some(t.to_snapshot()),
            None => None,
        }
    }

    /// The files of a torrent; there is always one.
    pub fn get_files(&self, hash: &str) -> (r: Result<FileEntry, EngineError>)
        requires
            self.wf(),
        ensures
            match find(self@, hash@) {
                Ok(h) => {
                    let t = self@.torrents[h];
                    r matches Ok(f) && f.name@ == t.name && f.size == t.total_length && f.progress
                        == (Progress { have: t.pieces_have, count: t.piece_count })
                },
                Err(e) => r == Err::<FileEntry, EngineError>(e),
            },
    {
        let h = match self.find_hash(hash) {
            Ok(h) => h,
            Err(e) => {
                return Err(e);
            },
        };
        match self.by_hash.get(&h) {
            Some(t) => Ok(
                FileEntry {
                    name: t.name.clone(),
                    size: t.total_length,
                    progress: Progress { have: t.pieces_have, count: t.piece_count },
                },
            ),
            None => Err(EngineError::NotFound),
        }
    }
}

impl Engine {
    /// Takes note of a batch of alerts in their order. It stops at the first one that would
    /// overflow a counter and gives its position.
    pub fn apply_alerts(&mut self, batch: &[EngineAlert]) -> (r: Result<(), usize>)
        requires
            old(self).wf(),
        ensures
            final(self).wf(),
            match r {
                Ok(()) => {
                    &&& takes_alerts(old(self)@, batch@, batch@.len() as int)
                    &&& final(self)@ == after_alerts(old(self)@, batch@, batch@.len() as int)
                },
                Err(i) => {
                    &&& i < batch@.len()
                    &&& takes_alerts(old(self)@, batch@, i as int)
                    &&& !takes_alert(after_alerts(old(self)@, batch@, i as int), batch@[i as int])
                    &&& final(self)@ == after_alerts(old(self)@, batch@, i as int)
                },
            },
    {
        let mut i: usize = 0;
        while i < batch.len()
            invariant
                i <= batch@.len(),
                self.wf(),
                self@ == after_alerts(old(self)@, batch@, i as int),
                takes_alerts(old(self)@, batch@, i as int),
            decreases batch@.len() - i,
        {
            if !self.apply_alert(&batch[i]) {
                return Err(i);
            }
            i += 1;
        }
        Ok(())
    }

    fn apply_alert(&mut self, alert: &EngineAlert) -> (r: bool)
        requires
            old(self).wf(),
        ensures
            final(self).wf(),
            r == takes_alert(old(self)@, *alert),
            r ==> final(self)@ == after_alert(old(self)@, *alert),
            !r ==> final(self)@ == old(self)@,
    {
        let id: u64 = match alert {
            EngineAlert::PieceCompleted { torrent, .. } => *torrent,
            EngineAlert::TorrentComplete { torrent } => *torrent,
            EngineAlert::PeerConnected { torrent } => *torrent,
            EngineAlert::PeerDisconnected { torrent } => *torrent,
            EngineAlert::Error { torrent } => *torrent,
            _ => {
                return true;
            },
        };
        let h = match self.id_to_hash.get(&id) {
            Some(h) => *h,
            None => {
                return true;
            },
        };
        match self.by_hash.get_mut(&h) {
            Some(t) => {
                proof {
                    torrent::alerts_keep_identity(t@, *alert);
                }
                t.apply_alert(alert)
            },
            None => true,
        }
    }

    /// What a batch of alerts asks for besides changing the torrents.
    pub fn scan_batch(&self, batch: &[EngineAlert]) -> (r: BatchOutcome)
        requires
            self.wf(),
        ensures
            hashes(r.completed@) == completions(self@.ids, batch@, batch@.len() as int),
            r.needs_reconciliation == batch@.contains(EngineAlert::Dropped),
            r.has_stats_update == batch@.contains(EngineAlert::StatsUpdate),
    {
        let mut completed: Vec<[u8; 20]> = Vec::new();
        let mut dropped = false;
        let mut stats = false;
        let mut i: usize = 0;
        while i < batch.len()
            invariant
                i <= batch@.len(),
                self.wf(),
                hashes(completed@) == completions(self@.ids, batch@, i as int),
                dropped == exists|j: int|
                    0 <= j < i && #[trigger] batch@[j] == EngineAlert::Dropped,
                stats == exists|j: int|
                    0 <= j < i && #[trigger] batch@[j] == EngineAlert::StatsUpdate,
            decreases batch@.len() - i,
        {
            match &batch[i] {
                EngineAlert::TorrentComplete { torrent } => {
                    if let Some(h) = self.id_to_hash.get(torrent) {
                        completed.push(*h);
                    }
                },
                EngineAlert::Dropped => {
                    dropped = true;
                },
                EngineAlert::StatsUpdate => {
                    stats = true;
                },
                _ => {},
            }
            i += 1;
        }
        BatchOutcome { completed, needs_reconciliation: dropped, has_stats_update: stats }
    }

    /// Takes note of a batch of alerts, and finds what else it asks for.
    pub fn handle_batch(&mut self, batch: &[EngineAlert]) -> (r: Result<BatchOutcome, usize>)
        requires
            old(self).wf(),
        ensures
            final(self).wf(),
            match r {
                Ok(outcome) => {
                    &&& takes_alerts(old(self)@, batch@, batch@.len() as int)
                    &&& final(self)@ == after_alerts(old(self)@, batch@, batch@.len() as int)
                    &&& hashes(outcome.completed@) == completions(
                        old(self)@.ids,
                        batch@,
                        batch@.len() as int,
                    )
                    &&& outcome.needs_reconciliation == batch@.contains(EngineAlert::Dropped)
                    &&& outcome.has_stats_update == batch@.contains(EngineAlert::StatsUpdate)
                },
                Err(i) => {
                    &&& i < batch@.len()
                    &&& takes_alerts(old(self)@, batch@, i as int)
                    &&& !takes_alert(after_alerts(old(self)@, batch@, i as int), batch@[i as int])
                    &&& final(self)@ == after_alerts(old(self)@, batch@, i as int)
                },
            },
    {
        match self.apply_alerts(batch) {
            Ok(()) => {
                proof {
                    lemma_alerts_keep_ids(old(self)@, batch@, batch@.len() as int);
                }
                Ok(self.scan_batch(batch))
            },
            Err(i) => Err(i),
        }
    }

    /// The handle and info hash of every torrent.
    pub fn torrent_ids(&self) -> (r: Vec<(u64, [u8; 20])>)
        requires
            self.wf(),
        ensures
            lists_torrents(
                r@.map_values(|e: (u64, [u8; 20])| e.1@),
                self@.torrents,
            ),
            forall|i: int|
                0 <= i < r@.len() ==> (#[trigger] r@[i]).0 == self@.torrents[r@[i].1@].torrent_id,
    {
        let mut out: Vec<(u64, [u8; 20])> = Vec::new();
        let mut i: usize = 0;
        while i < self.by_hash.len()
            invariant
                self.wf(),
                i <= self.by_hash.rows().len(),
                out@.len() == i,
                forall|j: int|
                    0 <= j < i ==> (#[trigger] out@[j]).1@ == self.by_hash.rows()[j].0@
                        && out@[j].0 == self@.torrents[out@[j].1@].torrent_id,
            decreases self.by_hash.rows().len() - i,
        {
            let (h, t) = self.by_hash.row(i);
            out.push((t.torrent_id, *h));
            i += 1;
        }
        proof {
            lemma_lists(self.by_hash.rows(), out@.map_values(|e: (u64, [u8; 20])| e.1@));
        }
        out
    }

    /// Reads the figures of every torrent.
    pub fn snapshot_all(&self) -> (r: Vec<TorrentSnapshot>)
        requires
            self.wf(),
        ensures
            lists_torrents(
                r@.map_values(|s: TorrentSnapshot| s@.info_hash),
                self@.torrents,
            ),
            forall|i: int|
                0 <= i < r@.len() ==> (#[trigger] r@[i])@ == torrent::snapshot_of(
                    self@.torrents[r@[i]@.info_hash],
                ),
    {
        let mut out: Vec<TorrentSnapshot> = Vec::new();
        let mut i: usize = 0;
        while i < self.by_hash.len()
            invariant
                self.wf(),
                i <= self.by_hash.rows().len(),
                out@.len() == i,
                forall|j: int|
                    0 <= j < i ==> (#[trigger] out@[j])@.info_hash == self.by_hash.rows()[j].0@
                        && out@[j]@ == torrent::snapshot_of(self@.torrents[out@[j]@.info_hash]),
            decreases self.by_hash.rows().len() - i,
        {
            let (h, t) = self.by_hash.row(i);
            assert(self@.torrents.contains_key(h@));
            out.push(t.to_snapshot());
            i += 1;
        }
        proof {
            lemma_lists(
                self.by_hash.rows(),
                out@.map_values(|s: TorrentSnapshot| s@.info_hash),
            );
        }
        out
    }

    /// The info hash of every torrent, as text.
    pub fn torrent_hashes(&self) -> (r: Vec<String>)
        requires
            self.wf(),
        ensures
            exists|list: Seq<Seq<u8>>| #[trigger]
                lists_torrents(list, self@.torrents) && text::strings(r@) == encodings(list),
    {
        let mut out: Vec<String> = Vec::new();
        let ghost mut list: Seq<Seq<u8>> = Seq::empty();
        let mut i: usize = 0;
        while i < self.by_hash.len()
            invariant
                self.wf(),
                i <= self.by_hash.rows().len(),
                out@.len() == i,
                list.len() == i,
                forall|j: int| 0 <= j < i ==> #[trigger] list[j] == self.by_hash.rows()[j].0@,
                forall|j: int| 0 <= j < i ==> (#[trigger] out@[j])@ == hex::encoded(list[j]),
            decreases self.by_hash.rows().len() - i,
        {
            let (h, _) = self.by_hash.row(i);
            out.push(hex::hex_encode(h));
            proof {
                list = list.push(h@);
            }
            i += 1;
        }
        proof {
            lemma_lists(self.by_hash.rows(), list);
            assert(lists_torrents(list, self@.torrents));
        }
        out
    }

    /// Reads the figures of every torrent that are written to its record.
    pub fn stats_records(&self) -> (r: Vec<StatsRecord>)
        requires
            self.wf(),
        ensures
            lists_torrents(
                r@.map_values(|s: StatsRecord| s@.hash),
                self@.torrents,
            ),
            forall|i: int|
                0 <= i < r@.len() ==> (#[trigger] r@[i])@ == torrent::stats_of(
                    self@.torrents[r@[i]@.hash],
                ),
    {
        let mut out: Vec<StatsRecord> = Vec::new();
        let mut i: usize = 0;
        while i < self.by_hash.len()
            invariant
                self.wf(),
                i <= self.by_hash.rows().len(),
                out@.len() == i,
                forall|j: int|
                    0 <= j < i ==> (#[trigger] out@[j])@.hash == self.by_hash.rows()[j].0@
                        && out@[j]@ == torrent::stats_of(self@.torrents[out@[j]@.hash]),
            decreases self.by_hash.rows().len() - i,
        {
            let (h, t) = self.by_hash.row(i);
            assert(self@.torrents.contains_key(h@));
            out.push(t.to_stats());
            i += 1;
        }
        proof {
            lemma_lists(self.by_hash.rows(), out@.map_values(|s: StatsRecord| s@.hash));
        }
        out
    }

    /// Takes note of a statistics sample of a torrent.
    pub fn apply_stats(&mut self, hash: &[u8; 20], sample: &StatsSample, now: u64) -> (r:
        StatsOutcome)
        requires
            old(self).wf(),
        ensures
            final(self).wf(),
            if !old(self)@.torrents.contains_key(hash@) {
                r is Unknown && final(self)@ == old(self)@
            } else {
                let t = torrent::sampled(old(self)@.torrents[hash@], *sample, now);
                if torrent::totals_fit(t) {
                    &&& r matches StatsOutcome::Applied(stats, check) && stats@
                        == torrent::stats_of(t) && check == ratio_check(t)
                    &&& final(self)@ == with_torrent(old(self)@, hash@, t)
                } else {
                    r is Overflow && final(self)@ == old(self)@
                }
            },
    {
        match self.by_hash.get_mut(hash) {
            None => StatsOutcome::Unknown,
            Some(t) => {
                if !t.apply_sample(sample, now) {
                    return StatsOutcome::Overflow;
                }
                let stats = t.to_stats();
                let check = if t.is_ratio_watched() {
                    Some(RatioCheck { uploaded: stats.cum_up, size: t.total_length })
                } else {
                    None
                };
                StatsOutcome::Applied(stats, check)
            },
        }
    }

    /// Takes note of the statistics samples of several torrents in their order; samples of torrents
    /// no longer managed are passed over. It stops at the first one that would overflow a total
    /// and gives its position.
    pub fn apply_samples(&mut self, samples: &[([u8; 20], StatsSample)], now: u64) -> (r: Result<
        Vec<Applied>,
        usize,
    >)
        requires
            old(self).wf(),
        ensures
            final(self).wf(),
            match r {
                Ok(list) => {
                    &&& takes_samples(old(self)@, samples@, now, samples@.len() as int)
                    &&& final(self)@ == after_samples(
                        old(self)@,
                        samples@,
                        now,
                        samples@.len() as int,
                    )
                    &&& applied_views(list@) == figures(
                        old(self)@,
                        samples@,
                        now,
                        samples@.len() as int,
                    )
                },
                Err(i) => {
                    &&& i < samples@.len()
                    &&& takes_samples(old(self)@, samples@, now, i as int)
                    &&& !takes_sample(
                        after_samples(old(self)@, samples@, now, i as int),
                        samples@[i as int],
                        now,
                    )
                    &&& final(self)@ == after_samples(old(self)@, samples@, now, i as int)
                },
            },
    {
        let mut out: Vec<Applied> = Vec::new();
        let mut i: usize = 0;
        while i < samples.len()
            invariant
                i <= samples@.len(),
                self.wf(),
                self@ == after_samples(old(self)@, samples@, now, i as int),
                takes_samples(old(self)@, samples@, now, i as int),
                applied_views(out@) == figures(old(self)@, samples@, now, i as int),
            decreases samples@.len() - i,
        {
            match self.apply_stats(&samples[i].0, &samples[i].1, now) {
                StatsOutcome::Unknown => {},
                StatsOutcome::Overflow => {
                    return Err(i);
                },
                StatsOutcome::Applied(stats, check) => {
                    let applied = Applied { stats, check };
                    out.push(applied);
                },
            }
            i += 1;
        }
        Ok(out)
    }

    /// Pauses the torrents that have reached their ratio; gives their handles.
    pub fn pause_reached(&mut self, list: &[[u8; 20]]) -> (r: Vec<u64>)
        requires
            old(self).wf(),
        ensures
            final(self).wf(),
            final(self)@ == with_paused(old(self)@, list@, list@.len() as int),
            r@ == handles_of(old(self)@, list@, list@.len() as int),
    {
        let mut out: Vec<u64> = Vec::new();
        let mut i: usize = 0;
        while i < list.len()
            invariant
                i <= list@.len(),
                self.wf(),
                self@ == with_paused(old(self)@, list@, i as int),
                out@ == handles_of(old(self)@, list@, i as int),
            decreases list@.len() - i,
        {
            proof {
                lemma_with_paused(old(self)@, list@, i as int, list@[i as int]@);
            }
            if let Some(handle) = self.pause_for_ratio(&list[i]) {
                out.push(handle);
            }
            i += 1;
        }
        out
    }

    /// Pauses a torrent that has reached its ratio; gives its handle.
    pub fn pause_for_ratio(&mut self, hash: &[u8; 20]) -> (r: Option<u64>)
        requires
            old(self).wf(),
        ensures
            final(self).wf(),
            if old(self)@.torrents.contains_key(hash@) {
                &&& r == Some(old(self)@.torrents[hash@].torrent_id)
                &&& final(self)@ == paused(old(self)@, hash@)
            } else {
                r is None && final(self)@ == old(self)@
            },
    {
        proof {
            if self@.torrents.contains_key(hash@) {
                lemma_same_torrent(self@, hash@, paused(self@, hash@).torrents[hash@]);
            }
        }
        match self.by_hash.get_mut(hash) {
            Some(t) => {
                t.paused = true;
                Some(t.torrent_id)
            },
            None => None,
        }
    }

    fn set_peers(&mut self, hash: &[u8; 20], peers: usize)
        requires
            old(self).wf(),
        ensures
            final(self).wf(),
            final(self)@ == (if old(self)@.torrents.contains_key(hash@) {
                with_torrent(
                    old(self)@,
                    hash@,
                    TorrentView { peer_count: peers, ..old(self)@.torrents[hash@] },
                )
            } else {
                old(self)@
            }),
    {
        if let Some(t) = self.by_hash.get_mut(hash) {
            t.peer_count = peers;
        }
    }

    /// Takes over peer counts that were asked for; torrents no longer managed are passed over.
    pub fn reconcile_peers(&mut self, counts: &[([u8; 20], usize)])
        requires
            old(self).wf(),
        ensures
            final(self).wf(),
            final(self)@ == with_peers(old(self)@, counts@, counts@.len() as int),
    {
        let mut i: usize = 0;
        while i < counts.len()
            invariant
                i <= counts@.len(),
                self.wf(),
                self@ == with_peers(old(self)@, counts@, i as int),
            decreases counts@.len() - i,
        {
            self.set_peers(&counts[i].0, counts[i].1);
            i += 1;
        }
    }

    /// Forgets the speeds that no longer hold.
    pub fn expire_speeds(&mut self, now: u64)
        requires
            old(self).wf(),
        ensures
            final(self).wf(),
            final(self)@ == (EngineView {
                torrents: old(self)@.torrents.map_values(
                    |t: TorrentView| torrent::without_stale_speeds(t, now),
                ),
                ids: old(self)@.ids,
            }),
    {
        let ghost all = self.by_hash@;
        let ghost goal = all.map_values(|t: TorrentView| torrent::without_stale_speeds(t, now));
        let mut kept: Table<[u8; 20], LiveTorrent> = Table::new();
        while self.by_hash.len() > 0
            invariant
                self.by_hash.wf(),
                self.id_to_hash == old(self).id_to_hash,
                kept.wf(),
                goal == all.map_values(|t: TorrentView| torrent::without_stale_speeds(t, now)),
                forall|k: Seq<u8>| #[trigger]
                    self.by_hash@.contains_key(k) ==> all.contains_key(k) && all[k]
                        == self.by_hash@[k],
                forall|k: Seq<u8>| #[trigger]
                    kept@.contains_key(k) <==> all.contains_key(k) && !self.by_hash@.contains_key(
                        k,
                    ),
                forall|k: Seq<u8>| #[trigger] kept@.contains_key(k) ==> kept@[k] == goal[k],
            decreases self.by_hash.rows().len(),
        {
            if let Some((h, t)) = self.by_hash.pop() {
                let mut t = t;
                t.expire_speeds(now);
                kept.insert(h, t);
            }
        }
        self.by_hash = kept;
        assert(consistent(self@)) by {
            assert forall|h: Seq<u8>| #[trigger] self@.torrents.contains_key(h) implies {
                let t = self@.torrents[h];
                &&& h.len() == 20
                &&& t.info_hash == h
                &&& self@.ids.contains_key(t.torrent_id)
                &&& self@.ids[t.torrent_id] == h
                &&& torrent::totals_fit(t)
            } by {
                assert(old(self)@.torrents.contains_key(h));
            }
        }
    }
}

/// The info hashes as text.
pub open spec fn encodings(list: Seq<Seq<u8>>) -> Seq<Seq<char>> {
    list.map_values(|h: Seq<u8>| hex::encoded(h))
}

proof fn lemma_lists(rows: Seq<([u8; 20], LiveTorrent)>, list: Seq<Seq<u8>>)
    requires
        crate::table::keys_distinct(rows),
        list.len() == rows.len(),
        forall|i: int| 0 <= i < list.len() ==> #[trigger] list[i] == rows[i].0@,
    ensures
        lists_torrents(list, crate::table::entries_map(rows)),
{
    let m = crate::table::entries_map(rows);
    assert forall|h: Seq<u8>| #[trigger] list.contains(h) <==> m.contains_key(h) by {
        if list.contains(h) {
            let i = choose|i: int| 0 <= i < list.len() && list[i] == h;
            crate::table::lemma_row(rows, i);
        }
        if m.contains_key(h) {
            let i = crate::table::entry_of(rows, h);
            assert(list[i] == h);
        }
    }
}

proof fn lemma_with_paused(v: EngineView, list: Seq<[u8; 20]>, n: int, h: Seq<u8>)
    ensures
        with_paused(v, list, n).torrents.contains_key(h) == v.torrents.contains_key(h),
        v.torrents.contains_key(h) ==> with_paused(v, list, n).torrents[h].torrent_id
            == v.torrents[h].torrent_id,
    decreases n,
{
    if n > 0 {
        lemma_with_paused(v, list, n - 1, h);
        lemma_with_paused(v, list, n - 1, list[n - 1]@);
    }
}

proof fn lemma_alerts_keep_ids(v: EngineView, batch: Seq<EngineAlert>, n: int)
    ensures
        after_alerts(v, batch, n).ids == v.ids,
    decreases n,
{
    if n > 0 {
        lemma_alerts_keep_ids(v, batch, n - 1);
    }
}

proof fn lemma_with_new(v: EngineView, t: TorrentView)
    requires
        consistent(v),
        torrent::totals_fit(t),
        t.info_hash.len() == 20,
        !v.ids.contains_key(t.torrent_id),
    ensures
        consistent(with_new(v, t)),
{
}

/// Every managed torrent is found by the text that its info hash is written as, and by its handle.
pub proof fn managed_torrents_are_found(v: EngineView, h: Seq<u8>)
    requires
        consistent(v),
        v.torrents.contains_key(h),
    ensures
        find(v, hex::encoded(h)) == Ok::<Seq<u8>, EngineError>(h),
        known(v, v.torrents[h].torrent_id) == Some(h),
{
    hex::decode_undoes_encode(h);
}

/// A batch of alerts neither adds nor removes torrents, and leaves what each of them is, what it
/// has moved, and whether it is paused; it never makes a complete torrent incomplete.
pub proof fn alerts_keep_torrents(v: EngineView, batch: Seq<EngineAlert>, n: int, h: Seq<u8>)
    requires
        v.torrents.contains_key(h),
    ensures
        after_alerts(v, batch, n).ids == v.ids,
        after_alerts(v, batch, n).torrents.dom() == v.torrents.dom(),
        ({
            let t = v.torrents[h];
            let u = after_alerts(v, batch, n).torrents[h];
            &&& (TorrentView {
                pieces_have: t.pieces_have,
                piece_bitfield: t.piece_bitfield,
                peer_count: t.peer_count,
                completed: t.completed,
                has_error: t.has_error,
                ..u
            }) == t
            &&& t.completed ==> u.completed
            &&& t.has_error ==> u.has_error
        }),
    decreases n,
{
    if n > 0 {
        alerts_keep_torrents(v, batch, n - 1, h);
        let before = after_alerts(v, batch, n - 1);
        let alert = batch[n - 1];
        if let Some(target) = alert_target(before, alert) {
            torrent::alerts_keep_identity(before.torrents[target], alert);
        }
    }
}

/// A torrent that no alert of a batch is about stays as it was.
pub proof fn alerts_leave_other_torrents(
    v: EngineView,
    batch: Seq<EngineAlert>,
    n: int,
    h: Seq<u8>,
)
    requires
        v.torrents.contains_key(h),
        forall|i: int| 0 <= i < n ==> alert_target(v, #[trigger] batch[i]) != Some(h),
    ensures
        after_alerts(v, batch, n).torrents[h] == v.torrents[h],
    decreases n,
{
    if n > 0 {
        alerts_leave_other_torrents(v, batch, n - 1, h);
        alerts_keep_torrents(v, batch, n - 1, h);
    }
}

/// An alert that is about no torrent, or about one that is not managed, changes nothing.
pub proof fn alerts_about_nothing_change_nothing(v: EngineView, alert: EngineAlert)
    requires
        alert_target(v, alert) is None,
    ensures
        takes_alert(v, alert),
        after_alert(v, alert) == v,
{
}

/// The managed torrent and the piece that an alert reports complete.
pub open spec fn reported_piece(v: EngineView, alert: EngineAlert) -> Option<(Seq<u8>, u32)> {
    match alert {
        EngineAlert::PieceCompleted { torrent, piece } => match known(v, torrent) {
            Some(h) => Some((h, piece)),
            None => None,
        },
        _ => None,
    }
}

/// The first `n` alerts report no piece of a torrent twice, and only pieces that the torrent has
/// and that were not there yet.
pub open spec fn reports_new_pieces(v: EngineView, batch: Seq<EngineAlert>, n: int) -> bool {
    &&& forall|i: int|
        0 <= i < n ==> (reported_piece(v, #[trigger] batch[i]) matches Some((h, piece)) ==> piece
            < v.torrents[h].piece_count && !bitfield::bit(
            v.torrents[h].piece_bitfield,
            piece as int,
        ))
    &&& forall|i: int, j: int|
        0 <= i < j < n && reported_piece(v, #[trigger] batch[i]) is Some ==> reported_piece(
            v,
            batch[i],
        ) != reported_piece(v, #[trigger] batch[j])
}

/// A batch of alerts that reports each piece once keeps the piece count of a torrent that of its
/// bitfield; and no batch clears a bit that was set, or makes a torrent incomplete or free of its
/// error again.
pub proof fn batches_count_pieces(v: EngineView, batch: Seq<EngineAlert>, n: int, h: Seq<u8>)
    requires
        v.torrents.contains_key(h),
    ensures
        ({
            let t = v.torrents[h];
            let u = after_alerts(v, batch, n).torrents[h];
            &&& torrent::counts_pieces(t) && reports_new_pieces(v, batch, n)
                ==> torrent::counts_pieces(u) && u.pieces_have <= u.piece_count
            &&& forall|p: int| #[trigger]
                bitfield::bit(t.piece_bitfield, p) ==> bitfield::bit(u.piece_bitfield, p)
            &&& t.completed ==> u.completed
            &&& t.has_error ==> u.has_error
        }),
    decreases n,
{
    alerts_keep_torrents(v, batch, n, h);
    bitfield::count_counts_haves(v.torrents[h].piece_bitfield, v.torrents[h].piece_count as nat);
    if n > 0 {
        batches_count_pieces(v, batch, n - 1, h);
        alerts_keep_torrents(v, batch, n - 1, h);
        let before = after_alerts(v, batch, n - 1).torrents[h];
        let alert = batch[n - 1];
        torrent::alerts_keep_identity(before, alert);
        if torrent::counts_pieces(v.torrents[h]) && reports_new_pieces(v, batch, n) {
            if let EngineAlert::PieceCompleted { torrent, piece } = alert {
                if known(v, torrent) == Some(h) {
                    lemma_unreported_piece_stays(v, batch, n - 1, h, piece);
                    torrent::piece_count_follows_bitfield(before, torrent, piece);
                }
            }
        }
    }
}

proof fn lemma_unreported_piece_stays(
    v: EngineView,
    batch: Seq<EngineAlert>,
    n: int,
    h: Seq<u8>,
    piece: u32,
)
    requires
        v.torrents.contains_key(h),
        forall|i: int|
            0 <= i < n ==> reported_piece(v, #[trigger] batch[i]) != Some((h, piece)),
    ensures
        bitfield::bit(after_alerts(v, batch, n).torrents[h].piece_bitfield, piece as int)
            == bitfield::bit(v.torrents[h].piece_bitfield, piece as int),
    decreases n,
{
    if n > 0 {
        lemma_unreported_piece_stays(v, batch, n - 1, h, piece);
        alerts_keep_torrents(v, batch, n - 1, h);
        let before = after_alerts(v, batch, n - 1).torrents[h];
        if let EngineAlert::PieceCompleted { torrent, piece: other } = batch[n - 1] {
            bitfield::set_bit_sets_only_that_bit(before.piece_bitfield, other as int);
            assert(reported_piece(v, batch[n - 1]) != Some((h, piece)));
        }
    }
}

/// Statistics samples neither add nor remove torrents, and leave what each of them is, which
/// pieces it has, whether it is paused, and what it carried over from earlier sessions.
pub proof fn samples_keep_torrents(
    v: EngineView,
    samples: Seq<([u8; 20], StatsSample)>,
    now: u64,
    n: int,
    h: Seq<u8>,
)
    requires
        v.torrents.contains_key(h),
    ensures
        after_samples(v, samples, now, n).ids == v.ids,
        after_samples(v, samples, now, n).torrents.dom() == v.torrents.dom(),
        ({
            let t = v.torrents[h];
            (TorrentView {
                uploaded: t.uploaded,
                downloaded_wire: t.downloaded_wire,
                dl_speed: t.dl_speed,
                up_speed: t.up_speed,
                peer_count: t.peer_count,
                prev_downloaded: t.prev_downloaded,
                prev_uploaded: t.prev_uploaded,
                prev_stats_time: t.prev_stats_time,
                ..after_samples(v, samples, now, n).torrents[h]
            }) == t
        }),
    decreases n,
{
    if n > 0 {
        samples_keep_torrents(v, samples, now, n - 1, h);
    }
}

/// A torrent that a batch reports complete is complete after it, and is among those that the batch
/// is found to complete.
pub proof fn reported_torrents_are_complete(
    v: EngineView,
    batch: Seq<EngineAlert>,
    i: int,
    n: int,
    h: Seq<u8>,
)
    requires
        consistent(v),
        v.torrents.contains_key(h),
        0 <= i < n,
        batch[i] == (EngineAlert::TorrentComplete { torrent: v.torrents[h].torrent_id }),
    ensures
        after_alerts(v, batch, n).torrents[h].completed,
        completions(v.ids, batch, n).contains(h),
    decreases n,
{
    alerts_keep_torrents(v, batch, n - 1, h);
    let before = after_alerts(v, batch, n - 1);
    let found = completions(v.ids, batch, n - 1);
    if i == n - 1 {
        assert(completions(v.ids, batch, n).last() == h);
    } else {
        reported_torrents_are_complete(v, batch, i, n - 1, h);
        let alert = batch[n - 1];
        if let Some(target) = alert_target(before, alert) {
            torrent::alerts_keep_identity(before.torrents[target], alert);
        }
        let k = choose|k: int| 0 <= k < found.len() && found[k] == h;
        assert(completions(v.ids, batch, n)[k] == h);
    }
}

/// A torrent that a batch is found to complete was reported complete by one of its alerts.
pub proof fn completed_torrents_were_reported(
    ids: Map<u64, Seq<u8>>,
    batch: Seq<EngineAlert>,
    n: int,
    h: Seq<u8>,
)
    requires
        completions(ids, batch, n).contains(h),
    ensures
        exists|i: int|
            0 <= i < n && (#[trigger] batch[i] matches EngineAlert::TorrentComplete { torrent }
                && ids.contains_key(torrent) && ids[torrent] == h),
    decreases n,
{
    if n > 0 {
        let before = completions(ids, batch, n - 1);
        let found = completions(ids, batch, n);
        let k = choose|k: int| 0 <= k < found.len() && found[k] == h;
        if k < before.len() {
            assert(before[k] == h);
            completed_torrents_were_reported(ids, batch, n - 1, h);
        } else {
            let alert = batch[n - 1];
            assert(alert matches EngineAlert::TorrentComplete { torrent } && ids.contains_key(
                torrent,
            ) && ids[torrent] == h);
        }
    }
}

/// Pausing and then resuming a torrent leaves it as resuming it would; neither touches any other
/// torrent, and both leave it under management.
pub proof fn resume_undoes_pause(v: EngineView, h: Seq<u8>, other: Seq<u8>)
    requires
        consistent(v),
        v.torrents.contains_key(h),
    ensures
        paused(v, h).torrents[h].paused,
        !resumed(v, h).torrents[h].paused && !resumed(v, h).torrents[h].has_error,
        resumed(paused(v, h), h) == resumed(v, h),
        paused(v, h).torrents.dom() == v.torrents.dom(),
        resumed(v, h).torrents.dom() == v.torrents.dom(),
        other != h ==> paused(v, h).torrents[other] == v.torrents[other],
        other != h ==> resumed(v, h).torrents[other] == v.torrents[other],
        consistent(paused(v, h)),
        consistent(resumed(v, h)),
{
    lemma_same_torrent(v, h, paused(v, h).torrents[h]);
    lemma_same_torrent(v, h, resumed(v, h).torrents[h]);
}

proof fn lemma_same_torrent(v: EngineView, h: Seq<u8>, t: TorrentView)
    requires
        consistent(v),
        v.torrents.contains_key(h),
        t.info_hash == h,
        t.torrent_id == v.torrents[h].torrent_id,
        torrent::totals_fit(t),
    ensures
        consistent(with_torrent(v, h, t)),
{
}

/// A torrent that is paused, by the user or for its ratio, or that has an error, is not held
/// against its ratio limit.
pub proof fn paused_torrents_are_not_checked(t: TorrentView)
    requires
        t.paused || t.has_error,
    ensures
        ratio_check(t) is None,
{
}

/// A deleted torrent is no longer found, neither by its info hash nor by its handle; the others
/// stay, and the deleted one can be added again.
pub proof fn delete_removes_only_that_torrent(
    v: EngineView,
    h: Seq<u8>,
    other: Seq<u8>,
    meta: MetaView,
)
    requires
        consistent(v),
        v.torrents.contains_key(h),
    ensures
        find(without(v, h), hex::encoded(h)) == Err::<Seq<u8>, EngineError>(EngineError::NotFound),
        known(without(v, h), v.torrents[h].torrent_id) is None,
        other != h && v.torrents.contains_key(other) ==> {
            &&& without(v, h).torrents.contains_key(other)
            &&& without(v, h).torrents[other] == v.torrents[other]
            &&& known(without(v, h), v.torrents[other].torrent_id) == Some(other)
        },
        meta.v1_hash == Some(h) && crate::meta::plan_result(meta) is Ok ==> admission(
            without(v, h),
            meta,
        ) == Ok::<AddView, PlanError>(AddView::New(crate::meta::plan_result(meta)->Ok_0)),
        consistent(without(v, h)),
{
    hex::decode_undoes_encode(h);
}

/// Adding a torrent that was just added changes nothing: it is reported as managed already.
pub proof fn adding_twice_is_once(
    v: EngineView,
    meta: MetaView,
    torrent_id: u64,
    save_path: Seq<char>,
    is_paused: bool,
    existing: Option<RecordView>,
    now: u64,
)
    requires
        crate::meta::plan_result(meta) is Ok,
    ensures
        ({
            let plan = crate::meta::plan_result(meta)->Ok_0;
            let t = resume::started(plan, torrent_id, save_path, is_paused, existing, now);
            admission(with_new(v, t), meta) == Ok::<AddView, PlanError>(
                AddView::AlreadyManaged(plan.hash_hex),
            )
        }),
{
}

/// A torrent that is neither paused nor in error and has a size is held against its ratio limit
/// with its total uploaded over all sessions and its size, whatever else is known of it; with
/// every sample that is taken of it, these are the figures after the sample.
pub proof fn running_torrents_are_checked(
    t: TorrentView,
    v: EngineView,
    sample: ([u8; 20], StatsSample),
    now: u64,
)
    ensures
        !t.paused && !t.has_error && t.total_length > 0 && torrent::totals_fit(t) ==> {
            &&& ratio_check(t) matches Some(c) && c.size == t.total_length && c.uploaded
                == t.persisted_uploaded + t.uploaded
        },
        t.paused || t.has_error || t.total_length == 0 ==> ratio_check(t) is None,
        ({
            let h = sample.0@;
            let before = v.torrents[h];
            let given = figures(v, seq![sample], now, 1);
            &&& v.torrents.contains_key(h) && takes_sample(v, sample, now) ==> {
                &&& given.len() == 1
                &&& given[0].stats.hash == before.info_hash
                &&& given[0].stats.cum_up == before.persisted_uploaded + sample.1.uploaded
                &&& given[0].stats.cum_dl == before.persisted_downloaded + sample.1.downloaded
                &&& given[0].stats.bitfield == before.piece_bitfield
                &&& given[0].stats.save_path == before.save_path && given[0].stats.name
                    == before.name
                &&& !before.paused && !before.has_error && before.total_length > 0
                    ==> given[0].check == Some(
                    RatioCheck {
                        uploaded: given[0].stats.cum_up,
                        size: before.total_length,
                    },
                )
                &&& before.paused || before.has_error || before.total_length == 0
                    ==> given[0].check is None
            }
            &&& !v.torrents.contains_key(h) ==> given.len() == 0
        }),
{
    let samples = seq![sample];
    assert(after_samples(v, samples, now, 0) == v);
    assert(after_samples(v, samples, now, 1) == after_sample(v, sample, now));
    assert(figures(v, samples, now, 0) =~= Seq::<AppliedView>::empty());
}

/// Pausing a torrent changes nothing of it but the paused flag; resuming changes nothing of it but
/// that it is no longer paused and has no error. Neither touches the handles or any other torrent.
pub proof fn pause_and_resume_change_only_flags(v: EngineView, h: Seq<u8>)
    requires
        v.torrents.contains_key(h),
    ensures
        ({
            let t = v.torrents[h];
            let p = paused(v, h).torrents[h];
            let r = resumed(v, h).torrents[h];
            &&& p.paused && (TorrentView { paused: t.paused, ..p }) == t
            &&& !r.paused && !r.has_error
            &&& (TorrentView { paused: t.paused, has_error: t.has_error, ..r }) == t
        }),
        paused(v, h).ids == v.ids && resumed(v, h).ids == v.ids,
        paused(v, h).torrents.remove(h) == v.torrents.remove(h),
        resumed(v, h).torrents.remove(h) == v.torrents.remove(h),
        paused(v, h).torrents.contains_key(h) && resumed(v, h).torrents.contains_key(h),
{
    assert(paused(v, h).torrents.remove(h) =~= v.torrents.remove(h));
    assert(resumed(v, h).torrents.remove(h) =~= v.torrents.remove(h));
}

/// A text of 40 hexadecimal digits names a torrent by the hash that it writes: that torrent is
/// found if it is managed, and if not it is said to be missing. Any other text is said not to be
/// an info hash.
pub proof fn texts_name_torrents_by_hash(v: EngineView, text: Seq<char>)
    ensures
        match hex::decode_result(vstd::utf8::encode_utf8(text)) {
            Ok(h) => {
                &&& v.torrents.contains_key(h) ==> find(v, text) == Ok::<Seq<u8>, EngineError>(h)
                &&& !v.torrents.contains_key(h) ==> find(v, text) == Err::<Seq<u8>, EngineError>(
                    EngineError::NotFound,
                )
            },
            Err(e) => find(v, text) == Err::<Seq<u8>, EngineError>(EngineError::BadHash(e)),
        },
{
}

/// A handle leads to a torrent only if it is kept for its info hash and the torrent is managed.
pub proof fn handles_lead_to_managed_torrents(v: EngineView, id: u64)
    ensures
        known(v, id) matches Some(h) ==> v.ids.contains_key(id) && v.ids[id] == h
            && v.torrents.contains_key(h),
        v.ids.contains_key(id) && v.torrents.contains_key(v.ids[id]) ==> known(v, id) == Some(
            v.ids[id],
        ),
{
}

/// A torrent without a version 1 hash is refused; one that is managed already is reported by its
/// info hash, whatever else its file says; any other is planned, or refused for the reason that the
/// plan gives.
pub proof fn adding_is_decided_by_hash_first(v: EngineView, meta: MetaView)
    ensures
        meta.v1_hash is None ==> admission(v, meta) == Err::<AddView, PlanError>(PlanError::NotV1),
        meta.v1_hash matches Some(h) ==> (v.torrents.contains_key(h) ==> admission(v, meta) == Ok::<
            AddView,
            PlanError,
        >(AddView::AlreadyManaged(hex::encoded(h)))),
        meta.v1_hash matches Some(h) ==> (!v.torrents.contains_key(h) ==> match (
            admission(v, meta),
            crate::meta::plan_result(meta),
        ) {
            (Ok(AddView::New(p)), Ok(q)) => p == q,
            (Err(e), Err(f)) => e == f,
            _ => false,
        }),
{
}

/// Taking a torrent under management keeps it under its info hash and its handle, as it is, and
/// leaves all others.
pub proof fn insert_adds_only_that_torrent(v: EngineView, t: TorrentView, other: Seq<u8>, id: u64)
    ensures
        with_new(v, t).torrents.contains_key(t.info_hash),
        with_new(v, t).torrents[t.info_hash] == t,
        known(with_new(v, t), t.torrent_id) == Some(t.info_hash),
        other != t.info_hash ==> with_new(v, t).torrents.contains_key(other)
            == v.torrents.contains_key(other) && with_new(v, t).torrents[other]
            == v.torrents[other],
        id != t.torrent_id ==> with_new(v, t).ids.contains_key(id) == v.ids.contains_key(id)
            && with_new(v, t).ids[id] == v.ids[id],
{
}

/// An alert about a managed torrent is taken note of by that torrent, and leaves the handles and
/// all other torrents; it is refused only if a counter of the torrent is full.
pub proof fn alerts_reach_their_torrent(v: EngineView, alert: EngineAlert, h: Seq<u8>)
    requires
        consistent(v),
        v.torrents.contains_key(h),
        torrent::alert_torrent(alert) == Some(v.torrents[h].torrent_id),
    ensures
        takes_alert(v, alert) <==> torrent::alert_fits(v.torrents[h], alert),
        after_alert(v, alert).torrents.contains_key(h),
        after_alert(v, alert).torrents[h] == torrent::alerted(v.torrents[h], alert),
        after_alert(v, alert).torrents.remove(h) == v.torrents.remove(h),
        after_alert(v, alert).ids == v.ids,
{
    assert(after_alert(v, alert).torrents.remove(h) =~= v.torrents.remove(h));
}

/// Every alert about a torrent carries that torrent's handle, and no other alert is about one.
pub proof fn alerts_carry_their_handle(alert: EngineAlert)
    ensures
        match alert {
            EngineAlert::PieceCompleted { torrent, .. } => torrent::alert_torrent(alert) == Some(
                torrent,
            ),
            EngineAlert::TorrentComplete { torrent } => torrent::alert_torrent(alert) == Some(
                torrent,
            ),
            EngineAlert::PeerConnected { torrent } => torrent::alert_torrent(alert) == Some(torrent),
            EngineAlert::PeerDisconnected { torrent } => torrent::alert_torrent(alert) == Some(
                torrent,
            ),
            EngineAlert::Error { torrent } => torrent::alert_torrent(alert) == Some(torrent),
            EngineAlert::StatsUpdate => torrent::alert_torrent(alert) is None,
            EngineAlert::Dropped => torrent::alert_torrent(alert) is None,
            EngineAlert::Other => torrent::alert_torrent(alert) is None,
        },
{
}

/// A batch does what its alerts do one after the other: one alert what it does, and two batches
/// together what the one does and then the other. So with the torrents that they report complete.
pub proof fn batches_are_applied_in_order(
    v: EngineView,
    a: Seq<EngineAlert>,
    b: Seq<EngineAlert>,
    alert: EngineAlert,
)
    ensures
        after_alerts(v, Seq::empty(), 0) == v,
        after_alerts(v, seq![alert], 1) == after_alert(v, alert),
        after_alerts(v, a + b, (a + b).len() as int) == after_alerts(
            after_alerts(v, a, a.len() as int),
            b,
            b.len() as int,
        ),
        completions(v.ids, a + b, (a + b).len() as int) == completions(v.ids, a, a.len() as int)
            + completions(v.ids, b, b.len() as int),
        match alert {
            EngineAlert::TorrentComplete { torrent } if v.ids.contains_key(torrent) => completions(
                v.ids,
                seq![alert],
                1,
            ) == seq![v.ids[torrent]],
            _ => completions(v.ids, seq![alert], 1).len() == 0,
        },
{
    assert(after_alerts(v, seq![alert], 0) == v);
    assert(completions(v.ids, seq![alert], 0).len() == 0);
    if let EngineAlert::TorrentComplete { torrent } = alert {
        if v.ids.contains_key(torrent) {
            assert(completions(v.ids, seq![alert], 1) =~= seq![v.ids[torrent]]);
        }
    }
    lemma_alerts_join(v, a, b, b.len() as int);
    lemma_completions_join(v.ids, a, b, b.len() as int);
}

proof fn lemma_alerts_join(v: EngineView, a: Seq<EngineAlert>, b: Seq<EngineAlert>, n: int)
    requires
        0 <= n <= b.len(),
    ensures
        after_alerts(v, a + b, a.len() + n) == after_alerts(
            after_alerts(v, a, a.len() as int),
            b,
            n,
        ),
    decreases n,
{
    if n > 0 {
        lemma_alerts_join(v, a, b, n - 1);
        assert((a + b)[a.len() + n - 1] == b[n - 1]);
    } else {
        lemma_alerts_prefix(v, a, b, a.len() as int);
    }
}

proof fn lemma_alerts_prefix(v: EngineView, a: Seq<EngineAlert>, b: Seq<EngineAlert>, n: int)
    requires
        0 <= n <= a.len(),
    ensures
        after_alerts(v, a + b, n) == after_alerts(v, a, n),
    decreases n,
{
    if n > 0 {
        lemma_alerts_prefix(v, a, b, n - 1);
        assert((a + b)[n - 1] == a[n - 1]);
    }
}

proof fn lemma_completions_join(
    ids: Map<u64, Seq<u8>>,
    a: Seq<EngineAlert>,
    b: Seq<EngineAlert>,
    n: int,
)
    requires
        0 <= n <= b.len(),
    ensures
        completions(ids, a + b, a.len() + n) == completions(ids, a, a.len() as int) + completions(
            ids,
            b,
            n,
        ),
    decreases n,
{
    let head = completions(ids, a, a.len() as int);
    if n > 0 {
        lemma_completions_join(ids, a, b, n - 1);
        assert((a + b)[a.len() + n - 1] == b[n - 1]);
        let tail = completions(ids, b, n - 1);
        if let EngineAlert::TorrentComplete { torrent } = b[n - 1] {
            assert((head + tail).push(ids[torrent]) =~= head + tail.push(ids[torrent]));
        }
    } else {
        lemma_completions_prefix(ids, a, b, a.len() as int);
        assert(head + completions(ids, b, 0) =~= head);
    }
}

proof fn lemma_completions_prefix(
    ids: Map<u64, Seq<u8>>,
    a: Seq<EngineAlert>,
    b: Seq<EngineAlert>,
    n: int,
)
    requires
        0 <= n <= a.len(),
    ensures
        completions(ids, a + b, n) == completions(ids, a, n),
    decreases n,
{
    if n > 0 {
        lemma_completions_prefix(ids, a, b, n - 1);
        assert((a + b)[n - 1] == a[n - 1]);
    }
}

/// A sample of a managed torrent is taken note of by that torrent, one of another torrent by none;
/// the handles and the other torrents stay. It is refused only if a total would not fit.
pub proof fn samples_reach_their_torrent(
    v: EngineView,
    sample: ([u8; 20], StatsSample),
    now: u64,
)
    ensures
        ({
            let h = sample.0@;
            let t = v.torrents[h];
            let u = after_sample(v, sample, now);
            &&& v.torrents.contains_key(h) ==> {
                &&& takes_sample(v, sample, now) <==> t.persisted_uploaded + sample.1.uploaded
                    <= u64::MAX && t.persisted_downloaded + sample.1.downloaded <= u64::MAX
                &&& u.torrents.contains_key(h)
                &&& u.torrents[h] == torrent::sampled(t, sample.1, now)
                &&& u.torrents.remove(h) == v.torrents.remove(h)
                &&& u.ids == v.ids
            }
            &&& !v.torrents.contains_key(h) ==> u == v && takes_sample(v, sample, now)
        }),
{
    assert(after_sample(v, sample, now).torrents.remove(sample.0@) =~= v.torrents.remove(
        sample.0@,
    ));
}

/// Samples are taken one after the other: two groups together do what the one does and then the
/// other, and give the figures of the one and then those of the other.
pub proof fn samples_are_taken_in_order(
    v: EngineView,
    a: Seq<([u8; 20], StatsSample)>,
    b: Seq<([u8; 20], StatsSample)>,
    now: u64,
    n: int,
)
    requires
        0 <= n <= b.len(),
    ensures
        ({
            let mid = after_samples(v, a, now, a.len() as int);
            &&& after_samples(v, a + b, now, a.len() + n) == after_samples(mid, b, now, n)
            &&& figures(v, a + b, now, a.len() + n) == figures(v, a, now, a.len() as int)
                + figures(mid, b, now, n)
        }),
        after_samples(v, a, now, 0) == v,
        figures(v, a, now, 0).len() == 0,
    decreases n,
{
    let mid = after_samples(v, a, now, a.len() as int);
    let head = figures(v, a, now, a.len() as int);
    if n > 0 {
        samples_are_taken_in_order(v, a, b, now, n - 1);
        assert((a + b)[a.len() + n - 1] == b[n - 1]);
        let tail = figures(mid, b, now, n - 1);
        let t = after_samples(mid, b, now, n).torrents[b[n - 1].0@];
        let last = AppliedView { stats: torrent::stats_of(t), check: ratio_check(t) };
        assert((head + tail).push(last) =~= head + tail.push(last));
    } else {
        lemma_samples_prefix(v, a, b, now, a.len() as int);
        assert(head + figures(mid, b, now, 0) =~= head);
    }
}

proof fn lemma_samples_prefix(
    v: EngineView,
    a: Seq<([u8; 20], StatsSample)>,
    b: Seq<([u8; 20], StatsSample)>,
    now: u64,
    n: int,
)
    requires
        0 <= n <= a.len(),
    ensures
        after_samples(v, a + b, now, n) == after_samples(v, a, now, n),
        figures(v, a + b, now, n) == figures(v, a, now, n),
    decreases n,
{
    if n > 0 {
        lemma_samples_prefix(v, a, b, now, n - 1);
        assert((a + b)[n - 1] == a[n - 1]);
    }
}

/// The torrents of a list that has reached its ratio are paused, and nothing else of them or of
/// any other torrent changes; each managed one of them gives its handle, in the order of the list.
pub proof fn reached_torrents_are_paused(v: EngineView, list: Seq<[u8; 20]>, n: int, h: Seq<u8>)
    requires
        0 <= n <= list.len(),
    ensures
        ({
            let u = with_paused(v, list, n);
            let listed = exists|i: int| 0 <= i < n && (#[trigger] list[i])@ == h;
            &&& u.ids == v.ids && u.torrents.dom() == v.torrents.dom()
            &&& v.torrents.contains_key(h) && listed ==> u.torrents[h].paused
            &&& v.torrents.contains_key(h) && !listed ==> u.torrents[h] == v.torrents[h]
            &&& v.torrents.contains_key(h) ==> (TorrentView {
                paused: v.torrents[h].paused,
                ..u.torrents[h]
            }) == v.torrents[h]
        }),
        handles_of(v, list, 0).len() == 0,
        n > 0 && v.torrents.contains_key(list[n - 1]@) ==> handles_of(v, list, n) == handles_of(
            v,
            list,
            n - 1,
        ).push(v.torrents[list[n - 1]@].torrent_id),
        n > 0 && !v.torrents.contains_key(list[n - 1]@) ==> handles_of(v, list, n) == handles_of(
            v,
            list,
            n - 1,
        ),
    decreases n,
{
    if n > 0 {
        reached_torrents_are_paused(v, list, n - 1, h);
        let before = with_paused(v, list, n - 1);
        let u = with_paused(v, list, n);
        assert(u.torrents.dom() =~= v.torrents.dom());
        if list[n - 1]@ != h {
            assert((exists|i: int| 0 <= i < n && (#[trigger] list[i])@ == h) ==> exists|i: int|
                0 <= i < n - 1 && (#[trigger] list[i])@ == h);
        }
        if exists|i: int| 0 <= i < n - 1 && (#[trigger] list[i])@ == h {
            let i = choose|i: int| 0 <= i < n - 1 && (#[trigger] list[i])@ == h;
            assert(0 <= i < n && list[i]@ == h);
            assert(before.torrents.contains_key(h) ==> before.torrents[h].paused);
        }
    }
}

/// Peer counts that were asked for are taken over: a torrent has the last count that is given for
/// it, and its own if none is; nothing else changes.
pub proof fn peer_counts_are_taken_over(
    v: EngineView,
    counts: Seq<([u8; 20], usize)>,
    n: int,
    h: Seq<u8>,
)
    requires
        0 <= n <= counts.len(),
    ensures
        ({
            let u = with_peers(v, counts, n);
            &&& u.ids == v.ids && u.torrents.dom() == v.torrents.dom()
            &&& v.torrents.contains_key(h) ==> (TorrentView {
                peer_count: v.torrents[h].peer_count,
                ..u.torrents[h]
            }) == v.torrents[h]
            &&& v.torrents.contains_key(h) && n > 0 && counts[n - 1].0@ == h
                ==> u.torrents[h].peer_count == counts[n - 1].1
            &&& v.torrents.contains_key(h) && n > 0 && counts[n - 1].0@ != h
                ==> u.torrents[h].peer_count == with_peers(
                v,
                counts,
                n - 1,
            ).torrents[h].peer_count
            &&& n == 0 ==> u == v
        }),
    decreases n,
{
    if n > 0 {
        peer_counts_are_taken_over(v, counts, n - 1, h);
        assert(with_peers(v, counts, n).torrents.dom() =~= v.torrents.dom());
    }
}

/// A batch is taken exactly if each of its alerts is, after those before it; and so with samples.
pub proof fn batches_are_taken_one_by_one(
    v: EngineView,
    batch: Seq<EngineAlert>,
    samples: Seq<([u8; 20], StatsSample)>,
    now: u64,
    n: int,
)
    requires
        0 <= n,
    ensures
        takes_alerts(v, batch, 0),
        takes_alerts(v, batch, n + 1) <==> takes_alerts(v, batch, n) && takes_alert(
            after_alerts(v, batch, n),
            batch[n],
        ),
        takes_samples(v, samples, now, 0),
        takes_samples(v, samples, now, n + 1) <==> takes_samples(v, samples, now, n)
            && takes_sample(after_samples(v, samples, now, n), samples[n], now),
{
    if takes_alerts(v, batch, n + 1) {
        assert(takes_alert(after_alerts(v, batch, n), batch[n]));
    }
    if takes_samples(v, samples, now, n + 1) {
        assert(takes_sample(after_samples(v, samples, now, n), samples[n], now));
    }
}

/// Deleting a torrent forgets its handle and its info hash, and no other.
pub proof fn delete_forgets_its_handle(v: EngineView, h: Seq<u8>, id: u64, other: Seq<u8>)
    ensures
        ({
            let u = without(v, h);
            &&& !u.torrents.contains_key(h)
            &&& !u.ids.contains_key(v.torrents[h].torrent_id)
            &&& id != v.torrents[h].torrent_id ==> u.ids.contains_key(id) == v.ids.contains_key(id)
            &&& id != v.torrents[h].torrent_id && v.ids.contains_key(id) ==> u.ids[id] == v.ids[id]
            &&& other != h ==> u.torrents.contains_key(other) == v.torrents.contains_key(other)
            &&& other != h && v.torrents.contains_key(other) ==> u.torrents[other]
                == v.torrents[other]
        }),
{
}

/// Hashes and figures are read at their places.
pub proof fn lists_are_read_in_place(
    list: Seq<[u8; 20]>,
    found: Seq<Seq<u8>>,
    applied: Seq<Applied>,
    i: int,
)
    ensures
        hashes(list).len() == list.len(),
        0 <= i < list.len() ==> hashes(list)[i] == list[i]@,
        encodings(found).len() == found.len(),
        0 <= i < found.len() ==> encodings(found)[i] == hex::encoded(found[i]),
        applied_views(applied).len() == applied.len(),
        0 <= i < applied.len() ==> applied_views(applied)[i].stats == applied[i].stats@
            && applied_views(applied)[i].check == applied[i].check,
{
}

} // verus!
