//! What a `.torrent` file says, and what is needed of it to manage the torrent.
use vstd::prelude::*;
use magpie_bt_metainfo::FileListV1;
use crate::hex;
use crate::names;
use crate::text;

verus! {

/// The error type of `magpie_bt::parse`.
#[verifier::external_type_specification]
#[verifier::external_body]
pub struct ExParseError(magpie_bt::ParseError);

/// The files of a version 1 torrent.
#[derive(Clone, Copy, Debug, PartialEq, Eq, Structural)]
pub enum FileList {
    /// One file of this length.
    Single(u64),
    /// Several files.
    Multi,
}

/// The version 1 part of a torrent's description.
pub struct V1Layout {
    /// The SHA-1 digests of the pieces, 20 bytes each.
    pub pieces: Vec<u8>,
    pub files: FileList,
}

/// What a `.torrent` file says.
pub struct TorrentMeta {
    pub v1_hash: Option<[u8; 20]>,
    pub name: Vec<u8>,
    pub piece_length: u64,
    pub private: bool,
    pub v1: Option<V1Layout>,
    pub announce: Option<Vec<u8>>,
    pub announce_list: Option<Vec<Vec<Vec<u8>>>>,
}

/// The contents of a `V1Layout`.
#[verifier::ext_equal]
pub struct LayoutView {
    pub pieces: Seq<u8>,
    pub files: FileList,
}

/// The contents of a `TorrentMeta`.
#[verifier::ext_equal]
pub struct MetaView {
    pub v1_hash: Option<Seq<u8>>,
    pub name: Seq<u8>,
    pub piece_length: u64,
    pub private: bool,
    pub v1: Option<LayoutView>,
    pub announce: Option<Seq<u8>>,
    pub announce_list: Option<Seq<Seq<Seq<u8>>>>,
}

/// The byte strings of a list.
pub open spec fn byte_strings(v: Seq<Vec<u8>>) -> Seq<Seq<u8>> {
    v.map_values(|b: Vec<u8>| b@)
}

/// The byte strings of a list of lists.
pub open spec fn byte_tiers(v: Seq<Vec<Vec<u8>>>) -> Seq<Seq<Seq<u8>>> {
    v.map_values(|t: Vec<Vec<u8>>| byte_strings(t@))
}

impl View for V1Layout {
    type V = LayoutView;

    open spec fn view(&self) -> LayoutView {
        LayoutView { pieces: self.pieces@, files: self.files }
    }
}

impl View for TorrentMeta {
    type V = MetaView;

    open spec fn view(&self) -> MetaView {
        MetaView {
            v1_hash: match self.v1_hash {
                Some(h) => Some(h@),
                None => None,
            },
            name: self.name@,
            piece_length: self.piece_length,
            private: self.private,
            v1: match self.v1 {
                Some(v) => Some(v@),
                None => None,
            },
            announce: match self.announce {
                Some(a) => Some(a@),
                None => None,
            },
            announce_list: match self.announce_list {
                Some(l) => Some(byte_tiers(l@)),
                None => None,
            },
        }
    }
}

/// What `magpie_bt::parse` reads in the bytes of a `.torrent` file.
pub uninterp spec fn parsed_metainfo(bytes: Seq<u8>) -> Option<MetaView>;

/// `magpie_bt::parse`: reads a `.torrent` file. What it reads depends on the bytes alone.
#[verifier::external_body]
pub(crate) fn parse_metainfo(bytes: &[u8]) -> (r: Result<TorrentMeta, magpie_bt::ParseError>)
    ensures
        match r {
            Ok(m) => parsed_metainfo(bytes@) == Some(m@),
            Err(_) => parsed_metainfo(bytes@) is None,
        },
{
    let m = magpie_bt::parse(bytes)?;
    let files = |f| match f {
        FileListV1::Single { length } => FileList::Single(length),
        FileListV1::Multi { .. } => FileList::Multi,
    };
    Ok(TorrentMeta {
        v1_hash: m.info_hash.v1().copied(),
        name: m.info.name.to_vec(),
        piece_length: m.info.piece_length,
        private: m.info.private,
        v1: m.info.v1.map(|v| V1Layout { pieces: v.pieces.to_vec(), files: files(v.files) }),
        announce: m.announce.map(|a| a.to_vec()),
        announce_list: m.announce_list.map(|l| l.iter().map(|t| t.iter().map(|u| u.to_vec()).collect()).collect()),
    })
}

/// The URLs with one more, unless it is not UTF-8 or is there already.
pub open spec fn with_url(urls: Seq<Seq<char>>, entry: Seq<u8>) -> Seq<Seq<char>> {
    if vstd::utf8::valid_utf8(entry) && !urls.contains(vstd::utf8::decode_utf8(entry)) {
        urls.push(vstd::utf8::decode_utf8(entry))
    } else {
        urls
    }
}

/// The URLs with the first `n` of a tier added one by one.
pub open spec fn with_tier(urls: Seq<Seq<char>>, tier: Seq<Seq<u8>>, n: int) -> Seq<Seq<char>>
    decreases n,
{
    if n <= 0 {
        urls
    } else {
        with_url(with_tier(urls, tier, n - 1), tier[n - 1])
    }
}

/// The URLs with those of the first `n` tiers added one by one.
pub open spec fn with_tiers(
    urls: Seq<Seq<char>>,
    tiers: Seq<Seq<Seq<u8>>>,
    n: int,
) -> Seq<Seq<char>>
    decreases n,
{
    if n <= 0 {
        urls
    } else {
        with_tier(with_tiers(urls, tiers, n - 1), tiers[n - 1], tiers[n - 1].len() as int)
    }
}

/// The main tracker's URL.
pub open spec fn main_tracker(meta: MetaView) -> Seq<Seq<char>> {
    match meta.announce {
        Some(a) => with_url(Seq::empty(), a),
        None => Seq::empty(),
    }
}

/// The tracker URLs, the main one first and each of them once.
pub open spec fn trackers(meta: MetaView) -> Seq<Seq<char>> {
    match meta.announce_list {
        Some(tiers) => with_tiers(main_tracker(meta), tiers, tiers.len() as int),
        None => main_tracker(meta),
    }
}

fn holds(urls: &Vec<String>, url: &String) -> (r: bool)
    ensures
        r == text::strings(urls@).contains(url@),
{
    let mut i: usize = 0;
    while i < urls.len()
        invariant
            i <= urls@.len(),
            forall|j: int| 0 <= j < i ==> #[trigger] text::strings(urls@)[j] != url@,
        decreases urls@.len() - i,
    {
        assert(text::strings(urls@)[i as int] == urls@[i as int]@);
        if urls[i] == *url {
            return true;
        }
        i += 1;
    }
    false
}

fn push_url(urls: &mut Vec<String>, entry: &[u8])
    ensures
        text::strings(final(urls)@) == with_url(text::strings(old(urls)@), entry@),
{
    if let Some(url) = text::text_from_utf8(entry) {
        if !holds(urls, &url) {
            urls.push(url);
        }
    }
}

/// The tracker URLs of a torrent.
pub fn tracker_urls(meta: &TorrentMeta) -> (r: Vec<String>)
    ensures
        text::strings(r@) == trackers(meta@),
{
    let mut urls: Vec<String> = Vec::new();
    if let Some(a) = &meta.announce {
        push_url(&mut urls, a);
    }
    if let Some(tiers) = &meta.announce_list {
        let ghost all = byte_tiers(tiers@);
        let ghost main = main_tracker(meta@);
        let mut i: usize = 0;
        while i < tiers.len()
            invariant
                i <= tiers@.len(),
                all == byte_tiers(tiers@),
                text::strings(urls@) == with_tiers(main, all, i as int),
            decreases tiers@.len() - i,
        {
            let tier = &tiers[i];
            let ghost so_far = with_tiers(main, all, i as int);
            let mut j: usize = 0;
            while j < tier.len()
                invariant
                    j <= tier@.len(),
                    text::strings(urls@) == with_tier(so_far, byte_strings(tier@), j as int),
                decreases tier@.len() - j,
            {
                push_url(&mut urls, &tier[j]);
                j += 1;
            }
            i += 1;
        }
    }
    urls
}

/// Everything that is needed to start managing a torrent.
pub struct AddPlan {
    pub info_hash: [u8; 20],
    pub hash_hex: String,
    pub name: String,
    pub total_length: u64,
    pub piece_count: u32,
    pub piece_length: u64,
    pub piece_hashes: Vec<u8>,
    pub private: bool,
    pub trackers: Vec<String>,
}

/// The contents of an `AddPlan`.
#[verifier::ext_equal]
pub struct PlanView {
    pub info_hash: Seq<u8>,
    pub hash_hex: Seq<char>,
    pub name: Seq<char>,
    pub total_length: u64,
    pub piece_count: u32,
    pub piece_length: u64,
    pub piece_hashes: Seq<u8>,
    pub private: bool,
    pub trackers: Seq<Seq<char>>,
}

impl View for AddPlan {
    type V = PlanView;

    open spec fn view(&self) -> PlanView {
        PlanView {
            info_hash: self.info_hash@,
            hash_hex: self.hash_hex@,
            name: self.name@,
            total_length: self.total_length,
            piece_count: self.piece_count,
            piece_length: self.piece_length,
            piece_hashes: self.piece_hashes@,
            private: self.private,
            trackers: text::strings(self.trackers@),
        }
    }
}

/// The plan for a single-file version 1 torrent.
pub open spec fn plan_of(meta: MetaView, hash: Seq<u8>, layout: LayoutView, length: u64) -> PlanView {
    PlanView {
        info_hash: hash,
        hash_hex: hex::encoded(hash),
        name: names::sanitized(text::lossy_text(meta.name)),
        total_length: length,
        piece_count: (layout.pieces.len() / 20) as u32,
        piece_length: meta.piece_length,
        piece_hashes: layout.pieces,
        private: meta.private,
        trackers: trackers(meta),
    }
}

/// Why a torrent cannot be managed.
#[derive(Clone, Copy, Debug, PartialEq, Eq, Structural)]
pub enum PlanError {
    /// It has no version 1 part.
    NotV1,
    /// It holds more than one file.
    MultiFile,
}

/// The plan for managing a torrent, or why it cannot be managed.
pub open spec fn plan_result(meta: MetaView) -> Result<PlanView, PlanError> {
    match (meta.v1_hash, meta.v1) {
        (Some(hash), Some(layout)) => match layout.files {
            FileList::Single(length) => Ok(plan_of(meta, hash, layout, length)),
            FileList::Multi => Err(PlanError::MultiFile),
        },
        _ => Err(PlanError::NotV1),
    }
}

/// Plans the management of a torrent.
pub fn plan(meta: &TorrentMeta) -> (r: Result<AddPlan, PlanError>)
    ensures
        match r {
            Ok(p) => plan_result(meta@) == Ok::<PlanView, PlanError>(p@),
            Err(e) => plan_result(meta@) == Err::<PlanView, PlanError>(e),
        },
{
    let (hash, layout) = match (&meta.v1_hash, &meta.v1) {
        (Some(hash), Some(layout)) => (hash, layout),
        _ => {
            return Err(PlanError::NotV1);
        },
    };
    let length = match layout.files {
        FileList::Single(length) => length,
        FileList::Multi => {
            return Err(PlanError::MultiFile);
        },
    };
    Ok(
        AddPlan {
            info_hash: *hash,
            hash_hex: hex::hex_encode(hash),
            name: names::sanitize_name(&text::text_lossy(&meta.name)),
            total_length: length,
            piece_count: (layout.pieces.len() / 20) as u32,
            piece_length: meta.piece_length,
            piece_hashes: vstd::slice::slice_to_vec(layout.pieces.as_slice()),
            private: meta.private,
            trackers: tracker_urls(meta),
        },
    )
}

proof fn lemma_with_tier(urls: Seq<Seq<char>>, tier: Seq<Seq<u8>>, n: int)
    requires
        urls.no_duplicates(),
    ensures
        with_tier(urls, tier, n).no_duplicates(),
        urls.is_prefix_of(with_tier(urls, tier, n)),
    decreases n,
{
    if n > 0 {
        lemma_with_tier(urls, tier, n - 1);
        lemma_with_url(with_tier(urls, tier, n - 1), tier[n - 1]);
    }
}

proof fn lemma_with_url(urls: Seq<Seq<char>>, entry: Seq<u8>)
    requires
        urls.no_duplicates(),
    ensures
        with_url(urls, entry).no_duplicates(),
        urls.is_prefix_of(with_url(urls, entry)),
{
}

proof fn lemma_with_tiers(urls: Seq<Seq<char>>, tiers: Seq<Seq<Seq<u8>>>, n: int)
    requires
        urls.no_duplicates(),
    ensures
        with_tiers(urls, tiers, n).no_duplicates(),
        urls.is_prefix_of(with_tiers(urls, tiers, n)),
    decreases n,
{
    if n > 0 {
        lemma_with_tiers(urls, tiers, n - 1);
        let before = with_tiers(urls, tiers, n - 1);
        lemma_with_tier(before, tiers[n - 1], tiers[n - 1].len() as int);
    }
}

/// No tracker is listed twice, and the main tracker, where there is one, comes first.
pub proof fn trackers_are_distinct(meta: MetaView)
    ensures
        trackers(meta).no_duplicates(),
        main_tracker(meta).is_prefix_of(trackers(meta)),
{
    let main = main_tracker(meta);
    if let Some(a) = meta.announce {
        lemma_with_url(Seq::empty(), a);
    }
    if let Some(tiers) = meta.announce_list {
        lemma_with_tiers(main, tiers, tiers.len() as int);
    }
}

/// A torrent that is managed is a single file, known by its version 1 hash, under a name that
/// stays inside its directory.
pub proof fn planned_torrents_are_plain(meta: MetaView)
    requires
        plan_result(meta) is Ok,
    ensures
        meta.v1_hash == Some(plan_result(meta)->Ok_0.info_hash),
        meta.v1 matches Some(layout) && layout.files == FileList::Single(
            plan_result(meta)->Ok_0.total_length,
        ),
        names::is_plain_name(plan_result(meta)->Ok_0.name),
{
    names::sanitized_is_plain(text::lossy_text(meta.name));
}

/// The file names the tracker: as the main one, or in one of its tiers.
pub open spec fn names_tracker(meta: MetaView, entry: Seq<u8>) -> bool {
    ||| meta.announce == Some(entry)
    ||| meta.announce_list is Some && exists|i: int, j: int|
        0 <= i < meta.announce_list->0.len() && 0 <= j < meta.announce_list->0[i].len()
            && #[trigger] meta.announce_list->0[i][j] == entry
}

proof fn lemma_tier_members(urls: Seq<Seq<char>>, tier: Seq<Seq<u8>>, n: int, url: Seq<char>)
    requires
        0 <= n <= tier.len(),
    ensures
        with_tier(urls, tier, n).contains(url) <==> urls.contains(url) || exists|j: int|
            0 <= j < n && vstd::utf8::valid_utf8(#[trigger] tier[j]) && vstd::utf8::decode_utf8(
                tier[j],
            ) == url,
    decreases n,
{
    if n > 0 {
        lemma_tier_members(urls, tier, n - 1, url);
        lemma_url_members(with_tier(urls, tier, n - 1), tier[n - 1], url);
        if with_tier(urls, tier, n).contains(url) && !urls.contains(url) {
            if with_tier(urls, tier, n - 1).contains(url) {
                let j = choose|j: int|
                    0 <= j < n - 1 && vstd::utf8::valid_utf8(#[trigger] tier[j])
                        && vstd::utf8::decode_utf8(tier[j]) == url;
                assert(vstd::utf8::valid_utf8(tier[j]));
            } else {
                assert(vstd::utf8::valid_utf8(tier[n - 1]));
            }
        }
    }
}

proof fn lemma_url_members(urls: Seq<Seq<char>>, entry: Seq<u8>, url: Seq<char>)
    ensures
        with_url(urls, entry).contains(url) <==> urls.contains(url) || (vstd::utf8::valid_utf8(
            entry,
        ) && vstd::utf8::decode_utf8(entry) == url),
{
    let after = with_url(urls, entry);
    if urls.contains(url) {
        let k = choose|k: int| 0 <= k < urls.len() && urls[k] == url;
        assert(after[k] == url);
    }
    if vstd::utf8::valid_utf8(entry) && vstd::utf8::decode_utf8(entry) == url && !urls.contains(
        url,
    ) {
        assert(after[urls.len() as int] == url);
    }
}

proof fn lemma_tiers_members(
    urls: Seq<Seq<char>>,
    tiers: Seq<Seq<Seq<u8>>>,
    n: int,
    url: Seq<char>,
)
    requires
        0 <= n <= tiers.len(),
    ensures
        with_tiers(urls, tiers, n).contains(url) <==> urls.contains(url) || exists|i: int, j: int|
            0 <= i < n && 0 <= j < tiers[i].len() && vstd::utf8::valid_utf8(#[trigger] tiers[i][j])
                && vstd::utf8::decode_utf8(tiers[i][j]) == url,
    decreases n,
{
    if n > 0 {
        lemma_tiers_members(urls, tiers, n - 1, url);
        let before = with_tiers(urls, tiers, n - 1);
        lemma_tier_members(before, tiers[n - 1], tiers[n - 1].len() as int, url);
        if with_tiers(urls, tiers, n).contains(url) && !urls.contains(url) {
            if before.contains(url) {
                let (i, j) = choose|i: int, j: int|
                    0 <= i < n - 1 && 0 <= j < tiers[i].len() && vstd::utf8::valid_utf8(
                        #[trigger] tiers[i][j],
                    ) && vstd::utf8::decode_utf8(tiers[i][j]) == url;
                assert(vstd::utf8::valid_utf8(tiers[i][j]));
            } else {
                let j = choose|j: int|
                    0 <= j < tiers[n - 1].len() && vstd::utf8::valid_utf8(
                        #[trigger] tiers[n - 1][j],
                    ) && vstd::utf8::decode_utf8(tiers[n - 1][j]) == url;
                assert(vstd::utf8::valid_utf8(tiers[n - 1][j]));
            }
        }
        if exists|i: int, j: int|
            0 <= i < n && 0 <= j < tiers[i].len() && vstd::utf8::valid_utf8(#[trigger] tiers[i][j])
                && vstd::utf8::decode_utf8(tiers[i][j]) == url {
            let (i, j) = choose|i: int, j: int|
                0 <= i < n && 0 <= j < tiers[i].len() && vstd::utf8::valid_utf8(
                    #[trigger] tiers[i][j],
                ) && vstd::utf8::decode_utf8(tiers[i][j]) == url;
            assert(vstd::utf8::valid_utf8(tiers[i][j]));
        }
    }
}

/// The trackers of a torrent are exactly those that its file names in UTF-8, as the main one or in
/// any tier.
pub proof fn trackers_are_those_named(meta: MetaView, url: Seq<char>)
    ensures
        trackers(meta).contains(url) <==> exists|entry: Seq<u8>| #[trigger]
            names_tracker(meta, entry) && vstd::utf8::valid_utf8(entry) && vstd::utf8::decode_utf8(
                entry,
            ) == url,
{
    let main = main_tracker(meta);
    let none = Seq::<Seq<char>>::empty();
    assert(!none.contains(url));
    if let Some(a) = meta.announce {
        lemma_url_members(none, a, url);
        assert(names_tracker(meta, a));
    }
    if let Some(tiers) = meta.announce_list {
        lemma_tiers_members(main, tiers, tiers.len() as int, url);
        if trackers(meta).contains(url) && !main.contains(url) {
            let (i, j) = choose|i: int, j: int|
                0 <= i < tiers.len() && 0 <= j < tiers[i].len() && vstd::utf8::valid_utf8(
                    #[trigger] tiers[i][j],
                ) && vstd::utf8::decode_utf8(tiers[i][j]) == url;
            assert(names_tracker(meta, tiers[i][j]));
        }
    }
    if exists|entry: Seq<u8>| #[trigger]
        names_tracker(meta, entry) && vstd::utf8::valid_utf8(entry) && vstd::utf8::decode_utf8(
            entry,
        ) == url {
        let entry = choose|entry: Seq<u8>| #[trigger]
            names_tracker(meta, entry) && vstd::utf8::valid_utf8(entry) && vstd::utf8::decode_utf8(
                entry,
            ) == url;
        if meta.announce != Some(entry) {
            let tiers = meta.announce_list->0;
            let (i, j) = choose|i: int, j: int|
                0 <= i < tiers.len() && 0 <= j < tiers[i].len() && #[trigger] tiers[i][j] == entry;
            assert(vstd::utf8::valid_utf8(tiers[i][j]));
        }
    }
}

proof fn lemma_tiers_agree(
    urls: Seq<Seq<char>>,
    a: Seq<Seq<Seq<u8>>>,
    b: Seq<Seq<Seq<u8>>>,
    n: int,
)
    requires
        n <= a.len(),
        n <= b.len(),
        forall|i: int| 0 <= i < n ==> #[trigger] a[i] == b[i],
    ensures
        with_tiers(urls, a, n) == with_tiers(urls, b, n),
    decreases n,
{
    if n > 0 {
        lemma_tiers_agree(urls, a, b, n - 1);
        assert(a[n - 1] == b[n - 1]);
    }
}

proof fn lemma_tier_grows(urls: Seq<Seq<char>>, t: Seq<Seq<u8>>, u: Seq<Seq<u8>>, n: int)
    requires
        0 <= n <= t.len() + u.len(),
    ensures
        n <= t.len() ==> with_tier(urls, t + u, n) == with_tier(urls, t, n),
        n >= t.len() ==> with_tier(urls, t, t.len() as int).is_prefix_of(
            with_tier(urls, t + u, n),
        ),
    decreases n,
{
    if n > 0 {
        lemma_tier_grows(urls, t, u, n - 1);
        if n <= t.len() {
            assert((t + u)[n - 1] == t[n - 1]);
        }
    }
}

/// Trackers come in the order of the tiers, and within a tier in its order: naming more after them
/// leaves those that are there where they are.
pub proof fn later_trackers_come_after(
    meta: MetaView,
    tiers: Seq<Seq<Seq<u8>>>,
    tier: Seq<Seq<u8>>,
    more: Seq<Seq<u8>>,
)
    ensures
        ({
            let first = MetaView { announce_list: Some(tiers), ..meta };
            let second = MetaView { announce_list: Some(tiers.push(tier)), ..meta };
            let third = MetaView { announce_list: Some(tiers.push(tier + more)), ..meta };
            &&& trackers(first).is_prefix_of(trackers(second))
            &&& trackers(second).is_prefix_of(trackers(third))
        }),
{
    let main = main_tracker(meta);
    let n = tiers.len() as int;
    let before = with_tiers(main, tiers, n);
    assert(main_tracker(MetaView { announce_list: Some(tiers), ..meta }) == main);
    assert(main_tracker(MetaView { announce_list: Some(tiers.push(tier)), ..meta }) == main);
    assert(main_tracker(MetaView { announce_list: Some(tiers.push(tier + more)), ..meta }) == main);
    lemma_tiers_agree(main, tiers, tiers.push(tier), n);
    lemma_tiers_agree(main, tiers, tiers.push(tier + more), n);
    lemma_tier_grows(before, Seq::empty(), tier, tier.len() as int);
    assert(Seq::<Seq<u8>>::empty() + tier =~= tier);
    assert(with_tier(before, Seq::<Seq<u8>>::empty(), 0) == before);
    lemma_tier_grows(before, tier, more, (tier + more).len() as int);
}

/// A plan holds what the file says of the torrent. One without a version 1 part is refused as such,
/// whatever else it holds, and one of several files for that.
pub proof fn plans_hold_what_the_file_says(meta: MetaView)
    ensures
        plan_result(meta) == Err::<PlanView, PlanError>(PlanError::NotV1) <==> meta.v1_hash is None
            || meta.v1 is None,
        plan_result(meta) == Err::<PlanView, PlanError>(PlanError::MultiFile) <==> meta.v1_hash
            is Some && meta.v1 is Some && meta.v1->0.files is Multi,
        plan_result(meta) matches Ok(p) ==> {
            &&& meta.v1_hash == Some(p.info_hash)
            &&& p.hash_hex == hex::encoded(p.info_hash)
            &&& p.name == names::sanitized(text::lossy_text(meta.name))
            &&& meta.v1->0.files == FileList::Single(p.total_length)
            &&& p.piece_length == meta.piece_length
            &&& p.private == meta.private
            &&& p.piece_hashes == meta.v1->0.pieces
            &&& p.trackers == trackers(meta)
        },
{
}

/// There is one piece for each 20 bytes of digests; what is left over counts for none.
pub proof fn pieces_are_counted_by_digest(meta: MetaView)
    requires
        meta.v1 is Some,
        meta.v1->0.pieces.len() / 20 <= u32::MAX,
    ensures
        plan_result(meta) matches Ok(p) ==> 20 * p.piece_count <= meta.v1->0.pieces.len() < 20
            * p.piece_count + 20,
{
}

/// Tiers and the trackers in them are read at their places.
pub proof fn tiers_are_read_in_place(tiers: Seq<Vec<Vec<u8>>>, i: int, j: int)
    ensures
        byte_tiers(tiers).len() == tiers.len(),
        0 <= i < tiers.len() ==> byte_tiers(tiers)[i].len() == tiers[i]@.len(),
        0 <= i < tiers.len() && 0 <= j < tiers[i]@.len() ==> byte_tiers(tiers)[i][j]
            == tiers[i]@[j]@,
{
}

} // verus!
