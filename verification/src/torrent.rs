//! A torrent being managed: its figures, and how alerts and statistics change them.
use vstd::prelude::*;
use crate::bitfield;
use crate::hex;
use crate::session::elapsed;
use crate::store::{StatsRecord, StatsView};

verus! {

/// How long after the last one a statistics sample gives a new speed, in nanoseconds.
pub const SAMPLE_MIN: u64 = 100_000_000;

/// How long after the last sample a speed no longer holds, in nanoseconds.
pub const SPEED_STALE: u64 = 3_000_000_000;

/// A speed: so many bytes in so many nanoseconds.
#[derive(Clone, Copy, Debug, PartialEq, Eq, Structural)]
pub struct Rate {
    pub bytes: u64,
    pub nanos: u64,
}

/// No bytes in a second.
pub open spec fn still() -> Rate {
    Rate { bytes: 0, nanos: 1_000_000_000 }
}

impl Rate {
    /// No bytes in a second.
    pub fn zero() -> (r: Rate)
        ensures
            r == still(),
    {
        Rate { bytes: 0, nanos: 1_000_000_000 }
    }

    /// Whether anything moves.
    pub fn is_moving(&self) -> (r: bool)
        ensures
            r == (self.bytes > 0),
    {
        self.bytes > 0
    }
}

/// How many pieces of how many are there.
#[derive(Clone, Copy, Debug, PartialEq, Eq, Structural)]
pub struct Progress {
    pub have: u32,
    pub count: u32,
}

/// A torrent being managed.
pub struct LiveTorrent {
    pub torrent_id: u64,
    pub info_hash: [u8; 20],
    pub name: String,
    pub save_path: String,
    pub total_length: u64,
    pub piece_count: u32,
    pub piece_length: u64,
    pub pieces_have: u32,
    pub piece_bitfield: Vec<u8>,
    pub uploaded: u64,
    pub downloaded_wire: u64,
    pub dl_speed: Rate,
    pub up_speed: Rate,
    pub peer_count: usize,
    pub completed: bool,
    pub paused: bool,
    pub has_error: bool,
    pub persisted_uploaded: u64,
    pub persisted_downloaded: u64,
    pub prev_downloaded: u64,
    pub prev_uploaded: u64,
    /// When the speeds were last taken, in nanoseconds.
    pub prev_stats_time: u64,
}

/// The contents of a `LiveTorrent`.
#[verifier::ext_equal]
pub struct TorrentView {
    pub torrent_id: u64,
    pub info_hash: Seq<u8>,
    pub name: Seq<char>,
    pub save_path: Seq<char>,
    pub total_length: u64,
    pub piece_count: u32,
    pub piece_length: u64,
    pub pieces_have: u32,
    pub piece_bitfield: Seq<u8>,
    pub uploaded: u64,
    pub downloaded_wire: u64,
    pub dl_speed: Rate,
    pub up_speed: Rate,
    pub peer_count: usize,
    pub completed: bool,
    pub paused: bool,
    pub has_error: bool,
    pub persisted_uploaded: u64,
    pub persisted_downloaded: u64,
    pub prev_downloaded: u64,
    pub prev_uploaded: u64,
    pub prev_stats_time: u64,
}

impl View for LiveTorrent {
    type V = TorrentView;

    open spec fn view(&self) -> TorrentView {
        TorrentView {
            torrent_id: self.torrent_id,
            info_hash: self.info_hash@,
            name: self.name@,
            save_path: self.save_path@,
            total_length: self.total_length,
            piece_count: self.piece_count,
            piece_length: self.piece_length,
            pieces_have: self.pieces_have,
            piece_bitfield: self.piece_bitfield@,
            uploaded: self.uploaded,
            downloaded_wire: self.downloaded_wire,
            dl_speed: self.dl_speed,
            up_speed: self.up_speed,
            peer_count: self.peer_count,
            completed: self.completed,
            paused: self.paused,
            has_error: self.has_error,
            persisted_uploaded: self.persisted_uploaded,
            persisted_downloaded: self.persisted_downloaded,
            prev_downloaded: self.prev_downloaded,
            prev_uploaded: self.prev_uploaded,
            prev_stats_time: self.prev_stats_time,
        }
    }
}

/// The totals over all sessions fit their counters.
pub open spec fn totals_fit(t: TorrentView) -> bool {
    &&& t.persisted_uploaded + t.uploaded <= u64::MAX
    &&& t.persisted_downloaded + t.downloaded_wire <= u64::MAX
}

/// How many bytes are there: whole pieces, but never more than the torrent holds.
pub open spec fn progress_bytes(t: TorrentView) -> int {
    let whole = t.pieces_have * t.piece_length;
    if whole <= t.total_length {
        whole
    } else {
        t.total_length as int
    }
}

/// A reading of a torrent's figures.
pub struct TorrentSnapshot {
    pub info_hash: [u8; 20],
    pub hash: String,
    pub name: String,
    pub total_bytes: u64,
    pub piece_length: u64,
    pub progress: Progress,
    pub progress_bytes: u64,
    pub uploaded: u64,
    pub downloaded: u64,
    pub dl_speed: Rate,
    pub up_speed: Rate,
    pub peer_count: usize,
    pub completed: bool,
    pub paused: bool,
    pub has_error: bool,
}

/// The contents of a `TorrentSnapshot`.
#[verifier::ext_equal]
pub struct SnapshotView {
    pub info_hash: Seq<u8>,
    pub hash: Seq<char>,
    pub name: Seq<char>,
    pub total_bytes: u64,
    pub piece_length: u64,
    pub progress: Progress,
    pub progress_bytes: u64,
    pub uploaded: u64,
    pub downloaded: u64,
    pub dl_speed: Rate,
    pub up_speed: Rate,
    pub peer_count: usize,
    pub completed: bool,
    pub paused: bool,
    pub has_error: bool,
}

impl View for TorrentSnapshot {
    type V = SnapshotView;

    open spec fn view(&self) -> SnapshotView {
        SnapshotView {
            info_hash: self.info_hash@,
            hash: self.hash@,
            name: self.name@,
            total_bytes: self.total_bytes,
            piece_length: self.piece_length,
            progress: self.progress,
            progress_bytes: self.progress_bytes,
            uploaded: self.uploaded,
            downloaded: self.downloaded,
            dl_speed: self.dl_speed,
            up_speed: self.up_speed,
            peer_count: self.peer_count,
            completed: self.completed,
            paused: self.paused,
            has_error: self.has_error,
        }
    }
}

/// The reading of a torrent's figures.
pub open spec fn snapshot_of(t: TorrentView) -> SnapshotView {
    SnapshotView {
        info_hash: t.info_hash,
        hash: hex::encoded(t.info_hash),
        name: t.name,
        total_bytes: t.total_length,
        piece_length: t.piece_length,
        progress: Progress { have: t.pieces_have, count: t.piece_count },
        progress_bytes: progress_bytes(t) as u64,
        uploaded: (t.persisted_uploaded + t.uploaded) as u64,
        downloaded: (t.persisted_downloaded + t.downloaded_wire) as u64,
        dl_speed: t.dl_speed,
        up_speed: t.up_speed,
        peer_count: t.peer_count,
        completed: t.completed,
        paused: t.paused,
        has_error: t.has_error,
    }
}

/// The figures of a torrent that are written to its record.
pub open spec fn stats_of(t: TorrentView) -> StatsView {
    StatsView {
        hash: t.info_hash,
        cum_up: (t.persisted_uploaded + t.uploaded) as u64,
        cum_dl: (t.persisted_downloaded + t.downloaded_wire) as u64,
        bitfield: t.piece_bitfield,
        save_path: t.save_path,
        name: t.name,
    }
}

/// What happened in the download engine. The torrent is named by its handle.
#[derive(Clone, Copy, Debug, PartialEq, Eq, Structural)]
pub enum EngineAlert {
    PieceCompleted { torrent: u64, piece: u32 },
    TorrentComplete { torrent: u64 },
    PeerConnected { torrent: u64 },
    PeerDisconnected { torrent: u64 },
    Error { torrent: u64 },
    /// New statistics can be asked for.
    StatsUpdate,
    /// Alerts were lost.
    Dropped,
    /// Anything else.
    Other,
}

/// The torrent that an alert is about.
pub open spec fn alert_torrent(alert: EngineAlert) -> Option<u64> {
    match alert {
        EngineAlert::PieceCompleted { torrent, .. } => Some(torrent),
        EngineAlert::TorrentComplete { torrent } => Some(torrent),
        EngineAlert::PeerConnected { torrent } => Some(torrent),
        EngineAlert::PeerDisconnected { torrent } => Some(torrent),
        EngineAlert::Error { torrent } => Some(torrent),
        _ => None,
    }
}

/// The counter that an alert raises can be raised.
pub open spec fn alert_fits(t: TorrentView, alert: EngineAlert) -> bool {
    match alert {
        EngineAlert::PieceCompleted { .. } => t.pieces_have < u32::MAX,
        EngineAlert::PeerConnected { .. } => t.peer_count < usize::MAX,
        _ => true,
    }
}

/// The torrent after an alert about it.
pub open spec fn alerted(t: TorrentView, alert: EngineAlert) -> TorrentView {
    match alert {
        EngineAlert::PieceCompleted { piece, .. } => TorrentView {
            pieces_have: (t.pieces_have + 1) as u32,
            piece_bitfield: bitfield::with_bit(t.piece_bitfield, piece as int),
            ..t
        },
        EngineAlert::TorrentComplete { .. } => TorrentView { completed: true, ..t },
        EngineAlert::PeerConnected { .. } => TorrentView {
            peer_count: (t.peer_count + 1) as usize,
            ..t
        },
        EngineAlert::PeerDisconnected { .. } => TorrentView {
            peer_count: if t.peer_count > 0 {
                (t.peer_count - 1) as usize
            } else {
                0
            },
            ..t
        },
        EngineAlert::Error { .. } => TorrentView { has_error: true, ..t },
        _ => t,
    }
}

/// The statistics of one torrent in this session.
#[derive(Clone, Copy, Debug, PartialEq, Eq, Structural)]
pub struct StatsSample {
    pub downloaded: u64,
    pub uploaded: u64,
    /// How many peers are connected, where that is known.
    pub peer_count: Option<usize>,
}

/// How much more `a` is than `b`; nothing if it is not more.
pub open spec fn more_than(a: u64, b: u64) -> u64 {
    if a >= b {
        (a - b) as u64
    } else {
        0
    }
}

/// The torrent with its speeds taken anew, unless the last time is too recent.
pub open spec fn with_speeds(t: TorrentView, sample: StatsSample, now: u64) -> TorrentView {
    let gap = crate::session::since(now, t.prev_stats_time);
    if gap > SAMPLE_MIN {
        TorrentView {
            dl_speed: Rate {
                bytes: more_than(sample.downloaded, t.prev_downloaded),
                nanos: gap as u64,
            },
            up_speed: Rate {
                bytes: more_than(sample.uploaded, t.prev_uploaded),
                nanos: gap as u64,
            },
            prev_downloaded: sample.downloaded,
            prev_uploaded: sample.uploaded,
            prev_stats_time: now,
            ..t
        }
    } else {
        t
    }
}

/// The torrent after a statistics sample.
pub open spec fn sampled(t: TorrentView, sample: StatsSample, now: u64) -> TorrentView {
    TorrentView {
        downloaded_wire: sample.downloaded,
        uploaded: sample.uploaded,
        peer_count: match sample.peer_count {
            Some(n) => n,
            None => t.peer_count,
        },
        ..with_speeds(t, sample, now)
    }
}

/// The ratio of this torrent is held against its limit.
pub open spec fn watches_ratio(t: TorrentView) -> bool {
    !t.paused && !t.has_error && t.total_length > 0
}

/// The torrent once its speeds no longer hold.
pub open spec fn without_stale_speeds(t: TorrentView, now: u64) -> TorrentView {
    if crate::session::since(now, t.prev_stats_time) > SPEED_STALE {
        TorrentView { dl_speed: still(), up_speed: still(), ..t }
    } else {
        t
    }
}

/// How much more `a` is than `b`; nothing if it is not more.
pub fn minus(a: u64, b: u64) -> (r: u64)
    ensures
        r == more_than(a, b),
{
    if a >= b {
        a - b
    } else {
        0
    }
}

impl LiveTorrent {
    /// Reads the torrent's figures.
    pub fn to_snapshot(&self) -> (r: TorrentSnapshot)
        requires
            totals_fit(self@),
        ensures
            r@ == snapshot_of(self@),
    {
        proof {
            assert(self.pieces_have * self.piece_length <= u32::MAX * u64::MAX) by (nonlinear_arith)
                requires
                    0 <= self.pieces_have <= u32::MAX,
                    0 <= self.piece_length <= u64::MAX,
            ;
        }
        let whole: u128 = self.pieces_have as u128 * self.piece_length as u128;
        let there: u64 = if whole <= self.total_length as u128 {
            whole as u64
        } else {
            self.total_length
        };
        TorrentSnapshot {
            info_hash: self.info_hash,
            hash: hex::hex_encode(&self.info_hash),
            name: self.name.clone(),
            total_bytes: self.total_length,
            piece_length: self.piece_length,
            progress: Progress { have: self.pieces_have, count: self.piece_count },
            progress_bytes: there,
            uploaded: self.persisted_uploaded + self.uploaded,
            downloaded: self.persisted_downloaded + self.downloaded_wire,
            dl_speed: self.dl_speed,
            up_speed: self.up_speed,
            peer_count: self.peer_count,
            completed: self.completed,
            paused: self.paused,
            has_error: self.has_error,
        }
    }

    /// Reads the figures that are written to the torrent's record.
    pub fn to_stats(&self) -> (r: StatsRecord)
        requires
            totals_fit(self@),
        ensures
            r@ == stats_of(self@),
    {
        StatsRecord {
            hash: self.info_hash,
            cum_up: self.persisted_uploaded + self.uploaded,
            cum_dl: self.persisted_downloaded + self.downloaded_wire,
            bitfield: vstd::slice::slice_to_vec(self.piece_bitfield.as_slice()),
            save_path: self.save_path.clone(),
            name: self.name.clone(),
        }
    }

    /// Takes note of an alert about this torrent; refuses it if a counter would overflow.
    pub fn apply_alert(&mut self, alert: &EngineAlert) -> (r: bool)
        ensures
            r == alert_fits(old(self)@, *alert),
            r ==> final(self)@ == alerted(old(self)@, *alert),
            !r ==> final(self)@ == old(self)@,
    {
        match alert {
            EngineAlert::PieceCompleted { piece, .. } => {
                if self.pieces_have == u32::MAX {
                    return false;
                }
                self.pieces_have = self.pieces_have + 1;
                bitfield::set_bit(&mut self.piece_bitfield, *piece);
            },
            EngineAlert::TorrentComplete { .. } => {
                self.completed = true;
            },
            EngineAlert::PeerConnected { .. } => {
                if self.peer_count == usize::MAX {
                    return false;
                }
                self.peer_count = self.peer_count + 1;
            },
            EngineAlert::PeerDisconnected { .. } => {
                if self.peer_count > 0 {
                    self.peer_count = self.peer_count - 1;
                }
            },
            EngineAlert::Error { .. } => {
                self.has_error = true;
            },
            _ => {},
        }
        true
    }

    /// Takes note of a statistics sample; refuses it if a total would overflow.
    pub fn apply_sample(&mut self, sample: &StatsSample, now: u64) -> (r: bool)
        ensures
            r == totals_fit(sampled(old(self)@, *sample, now)),
            r ==> final(self)@ == sampled(old(self)@, *sample, now),
            !r ==> final(self)@ == old(self)@,
    {
        if sample.uploaded > u64::MAX - self.persisted_uploaded || sample.downloaded > u64::MAX
            - self.persisted_downloaded {
            return false;
        }
        let gap = elapsed(now, self.prev_stats_time);
        if gap > SAMPLE_MIN {
            self.dl_speed =
            Rate { bytes: minus(sample.downloaded, self.prev_downloaded), nanos: gap };
            self.up_speed = Rate { bytes: minus(sample.uploaded, self.prev_uploaded), nanos: gap };
            self.prev_downloaded = sample.downloaded;
            self.prev_uploaded = sample.uploaded;
            self.prev_stats_time = now;
        }
        self.downloaded_wire = sample.downloaded;
        self.uploaded = sample.uploaded;
        if let Some(n) = sample.peer_count {
            self.peer_count = n;
        }
        true
    }

    /// Whether the torrent's ratio is held against its limit.
    pub fn is_ratio_watched(&self) -> (r: bool)
        ensures
            r == watches_ratio(self@),
    {
        !self.paused && !self.has_error && self.total_length > 0
    }

    /// Forgets speeds that no longer hold.
    pub fn expire_speeds(&mut self, now: u64)
        ensures
            final(self)@ == without_stale_speeds(old(self)@, now),
    {
        if elapsed(now, self.prev_stats_time) > SPEED_STALE {
            self.dl_speed = Rate::zero();
            self.up_speed = Rate::zero();
        }
    }
}

/// No alert changes what a torrent is or what it has moved, and none makes a complete torrent
/// incomplete or clears its error.
pub proof fn alerts_keep_identity(t: TorrentView, alert: EngineAlert)
    ensures
        (TorrentView {
            pieces_have: t.pieces_have,
            piece_bitfield: t.piece_bitfield,
            peer_count: t.peer_count,
            completed: t.completed,
            has_error: t.has_error,
            ..alerted(t, alert)
        }) == t,
        alerted(t, alert).piece_bitfield.len() == t.piece_bitfield.len(),
        t.completed ==> alerted(t, alert).completed,
        t.has_error ==> alerted(t, alert).has_error,
        forall|p: int| #[trigger]
            bitfield::bit(t.piece_bitfield, p) ==> bitfield::bit(
                alerted(t, alert).piece_bitfield,
                p,
            ),
{
    if let EngineAlert::PieceCompleted { piece, .. } = alert {
        bitfield::set_bit_sets_only_that_bit(t.piece_bitfield, piece as int);
    }
}

/// The piece count is that of the bits set in the bitfield, which has room for every piece.
pub open spec fn counts_pieces(t: TorrentView) -> bool {
    &&& t.piece_bitfield.len() == bitfield::bytes_for(t.piece_count as int)
    &&& t.pieces_have == bitfield::count(t.piece_bitfield, t.piece_count as int)
}

/// As long as each piece is reported once, the piece count stays that of the bitfield, and the
/// torrent never claims more pieces than it has.
pub proof fn piece_count_follows_bitfield(t: TorrentView, torrent: u64, piece: u32)
    requires
        counts_pieces(t),
        piece < t.piece_count,
        !bitfield::bit(t.piece_bitfield, piece as int),
    ensures
        alert_fits(t, EngineAlert::PieceCompleted { torrent, piece }),
        counts_pieces(alerted(t, EngineAlert::PieceCompleted { torrent, piece })),
        alerted(t, EngineAlert::PieceCompleted { torrent, piece }).pieces_have <= t.piece_count,
{
    let after = bitfield::with_bit(t.piece_bitfield, piece as int);
    bitfield::set_bit_counts_once(t.piece_bitfield, piece as int, t.piece_count as int);
    bitfield::set_bit_sets_only_that_bit(t.piece_bitfield, piece as int);
    bitfield::count_counts_haves(t.piece_bitfield, t.piece_count as nat);
    bitfield::count_counts_haves(after, t.piece_count as nat);
}

/// A peer that connects and disconnects leaves the torrent as it was, and so does a peer that
/// disconnects where none is counted.
pub proof fn disconnect_undoes_connect(t: TorrentView, torrent: u64)
    ensures
        alert_fits(t, EngineAlert::PeerConnected { torrent }) ==> alerted(
            alerted(t, EngineAlert::PeerConnected { torrent }),
            EngineAlert::PeerDisconnected { torrent },
        ) == t,
        t.peer_count == 0 ==> alerted(t, EngineAlert::PeerDisconnected { torrent }) == t,
{
}

/// Repeating a sample at the same moment changes nothing, and no sample touches what was carried
/// over from earlier sessions.
pub proof fn samples_settle(t: TorrentView, sample: StatsSample, now: u64)
    ensures
        sampled(sampled(t, sample, now), sample, now) == sampled(t, sample, now),
        sampled(t, sample, now).persisted_uploaded == t.persisted_uploaded,
        sampled(t, sample, now).persisted_downloaded == t.persisted_downloaded,
        sampled(t, sample, now).piece_bitfield == t.piece_bitfield,
{
}

/// The bytes that are there are never more than the torrent holds.
pub proof fn progress_stays_within_torrent(t: TorrentView)
    ensures
        0 <= progress_bytes(t) <= t.total_length,
        snapshot_of(t).progress_bytes <= snapshot_of(t).total_bytes,
{
}

/// Each alert about a torrent changes just what it reports: a piece is one more piece, whose bit
/// is set and no other; a completion completes; a peer is counted up or, while there is one, down;
/// an error is kept; and all other alerts change nothing.
pub proof fn alerts_change_what_they_report(t: TorrentView, torrent: u64, piece: u32)
    ensures
        ({
            let u = alerted(t, EngineAlert::PieceCompleted { torrent, piece });
            &&& alert_fits(t, EngineAlert::PieceCompleted { torrent, piece }) <==> t.pieces_have
                < u32::MAX
            &&& t.pieces_have < u32::MAX ==> u.pieces_have == t.pieces_have + 1
            &&& u.piece_bitfield.len() == t.piece_bitfield.len()
            &&& forall|p: int| #[trigger]
                bitfield::bit(u.piece_bitfield, p) <==> bitfield::bit(t.piece_bitfield, p) || (p
                    == piece && piece < 8 * t.piece_bitfield.len())
            &&& (TorrentView {
                pieces_have: t.pieces_have,
                piece_bitfield: t.piece_bitfield,
                ..u
            }) == t
        }),
        ({
            let u = alerted(t, EngineAlert::TorrentComplete { torrent });
            &&& u.completed
            &&& (TorrentView { completed: t.completed, ..u }) == t
            &&& alert_fits(t, EngineAlert::TorrentComplete { torrent })
        }),
        ({
            let u = alerted(t, EngineAlert::PeerConnected { torrent });
            &&& alert_fits(t, EngineAlert::PeerConnected { torrent }) <==> t.peer_count
                < usize::MAX
            &&& t.peer_count < usize::MAX ==> u.peer_count == t.peer_count + 1
            &&& (TorrentView { peer_count: t.peer_count, ..u }) == t
        }),
        ({
            let u = alerted(t, EngineAlert::PeerDisconnected { torrent });
            &&& t.peer_count > 0 ==> u.peer_count + 1 == t.peer_count
            &&& t.peer_count == 0 ==> u.peer_count == 0
            &&& (TorrentView { peer_count: t.peer_count, ..u }) == t
            &&& alert_fits(t, EngineAlert::PeerDisconnected { torrent })
        }),
        ({
            let u = alerted(t, EngineAlert::Error { torrent });
            &&& u.has_error
            &&& (TorrentView { has_error: t.has_error, ..u }) == t
            &&& alert_fits(t, EngineAlert::Error { torrent })
        }),
        alerted(t, EngineAlert::StatsUpdate) == t && alert_fits(t, EngineAlert::StatsUpdate),
        alerted(t, EngineAlert::Dropped) == t && alert_fits(t, EngineAlert::Dropped),
        alerted(t, EngineAlert::Other) == t && alert_fits(t, EngineAlert::Other),
{
    bitfield::set_bit_sets_only_that_bit(t.piece_bitfield, piece as int);
}

/// A reading shows what the torrent is, its totals over all sessions, the bytes of its whole pieces
/// as far as they fit the torrent, and its speeds, peers and flags as they are.
pub proof fn snapshots_show_the_figures(t: TorrentView)
    requires
        totals_fit(t),
    ensures
        ({
            let s = snapshot_of(t);
            &&& s.info_hash == t.info_hash && s.hash == hex::encoded(t.info_hash)
            &&& s.name == t.name
            &&& s.total_bytes == t.total_length && s.piece_length == t.piece_length
            &&& s.progress.have == t.pieces_have && s.progress.count == t.piece_count
            &&& t.pieces_have * t.piece_length <= t.total_length ==> s.progress_bytes
                == t.pieces_have * t.piece_length
            &&& t.pieces_have * t.piece_length > t.total_length ==> s.progress_bytes
                == t.total_length
            &&& s.uploaded - t.uploaded == t.persisted_uploaded
            &&& s.downloaded - t.downloaded_wire == t.persisted_downloaded
            &&& s.dl_speed == t.dl_speed && s.up_speed == t.up_speed
            &&& s.peer_count == t.peer_count
            &&& s.completed == t.completed && s.paused == t.paused && s.has_error == t.has_error
        }),
{
    assert(0 <= t.pieces_have * t.piece_length) by (nonlinear_arith)
        requires
            0 <= t.pieces_have,
            0 <= t.piece_length,
    ;
}

/// What is written to a torrent's record are its totals over all sessions, its bitfield, and where
/// its file is.
pub proof fn written_figures_are_the_totals(t: TorrentView)
    requires
        totals_fit(t),
    ensures
        stats_of(t).hash == t.info_hash,
        stats_of(t).cum_up - t.uploaded == t.persisted_uploaded,
        stats_of(t).cum_dl - t.downloaded_wire == t.persisted_downloaded,
        stats_of(t).bitfield == t.piece_bitfield,
        stats_of(t).save_path == t.save_path && stats_of(t).name == t.name,
        stats_of(t).cum_up == snapshot_of(t).uploaded,
        stats_of(t).cum_dl == snapshot_of(t).downloaded,
{
}

/// A sample sets what was moved in this session and the peers, where it knows them. More than a
/// tenth of a second after the last one it also sets the speeds, to what was moved since and the
/// time that it took; before that the speeds stay. Nothing else changes.
pub proof fn samples_set_totals_and_speeds(t: TorrentView, sample: StatsSample, now: u64)
    ensures
        ({
            let u = sampled(t, sample, now);
            let taken = now - t.prev_stats_time > 100_000_000;
            &&& u.uploaded == sample.uploaded && u.downloaded_wire == sample.downloaded
            &&& sample.peer_count matches Some(n) ==> u.peer_count == n
            &&& sample.peer_count is None ==> u.peer_count == t.peer_count
            &&& taken ==> {
                &&& u.prev_stats_time == now
                &&& u.prev_downloaded == sample.downloaded && u.prev_uploaded == sample.uploaded
                &&& u.dl_speed.nanos == now - t.prev_stats_time
                &&& u.up_speed.nanos == now - t.prev_stats_time
                &&& sample.downloaded >= t.prev_downloaded ==> t.prev_downloaded
                    + u.dl_speed.bytes == sample.downloaded
                &&& sample.downloaded < t.prev_downloaded ==> u.dl_speed.bytes == 0
                &&& sample.uploaded >= t.prev_uploaded ==> t.prev_uploaded + u.up_speed.bytes
                    == sample.uploaded
                &&& sample.uploaded < t.prev_uploaded ==> u.up_speed.bytes == 0
            }
            &&& !taken ==> {
                &&& u.prev_stats_time == t.prev_stats_time
                &&& u.prev_downloaded == t.prev_downloaded && u.prev_uploaded == t.prev_uploaded
                &&& u.dl_speed == t.dl_speed && u.up_speed == t.up_speed
            }
            &&& (TorrentView {
                uploaded: t.uploaded,
                downloaded_wire: t.downloaded_wire,
                peer_count: t.peer_count,
                dl_speed: t.dl_speed,
                up_speed: t.up_speed,
                prev_downloaded: t.prev_downloaded,
                prev_uploaded: t.prev_uploaded,
                prev_stats_time: t.prev_stats_time,
                ..u
            }) == t
        }),
{
}

/// Speeds stand for three seconds after they were taken and are zero from then on; nothing else of
/// a torrent changes with time.
pub proof fn speeds_stand_for_three_seconds(t: TorrentView, now: u64)
    ensures
        ({
            let u = without_stale_speeds(t, now);
            &&& now - t.prev_stats_time <= 3_000_000_000 ==> u == t
            &&& now - t.prev_stats_time > 3_000_000_000 ==> u.dl_speed.bytes == 0
                && u.up_speed.bytes == 0 && u.dl_speed.nanos > 0 && u.up_speed.nanos > 0
            &&& (TorrentView { dl_speed: t.dl_speed, up_speed: t.up_speed, ..u }) == t
        }),
{
}

/// The totals fit exactly if both sums do.
pub proof fn totals_fit_as_sums(t: TorrentView)
    ensures
        totals_fit(t) <==> t.persisted_uploaded + t.uploaded <= u64::MAX && t.persisted_downloaded
            + t.downloaded_wire <= u64::MAX,
{
}

/// A torrent that stands still moves no bytes in a second, and a sample gives the bytes that were
/// moved since the last one, if there are more of them.
pub proof fn stillness_is_no_bytes_in_a_second(a: u64, b: u64)
    ensures
        still().bytes == 0,
        still().nanos == 1_000_000_000,
        a >= b ==> more_than(a, b) + b == a,
        a < b ==> more_than(a, b) == 0,
{
}

} // verus!
