//! Where a torrent's content may be saved.
use vstd::prelude::*;
use crate::text;

verus! {

/// A component of a path written with `/`.
#[verifier::ext_equal]
pub enum Step {
    /// The root directory, before an absolute path.
    Root,
    /// A dot at the beginning of a relative path.
    Here,
    /// Two dots.
    Up,
    /// A name.
    Name(Seq<char>),
}

/// Whether a path begins at the root.
pub open spec fn is_absolute(path: Seq<char>) -> bool {
    path.len() > 0 && path[0] == '/'
}

/// The component that the piece at position `i` between slashes stands for. Empty pieces stand
/// for none, and neither does a dot but at the beginning of a relative path.
pub open spec fn step_of(piece: Seq<char>, i: int) -> Option<Step> {
    if piece.len() == 0 {
        None
    } else if piece == seq!['.'] {
        if i == 0 {
            Some(Step::Here)
        } else {
            None
        }
    } else if piece == seq!['.', '.'] {
        Some(Step::Up)
    } else {
        Some(Step::Name(piece))
    }
}

/// The components that the first `n` pieces stand for.
pub open spec fn steps_of(pieces: Seq<Seq<char>>, n: int) -> Seq<Step>
    decreases n,
{
    if n <= 0 {
        Seq::empty()
    } else {
        let before = steps_of(pieces, n - 1);
        match step_of(pieces[n - 1], n - 1) {
            Some(step) => before.push(step),
            None => before,
        }
    }
}

/// The components of a path.
pub open spec fn steps(path: Seq<char>) -> Seq<Step> {
    let pieces = text::split(path, '/');
    let named = steps_of(pieces, pieces.len() as int);
    if is_absolute(path) {
        seq![Step::Root] + named
    } else {
        named
    }
}

/// Some component climbs to the parent directory.
pub open spec fn climbs(path: Seq<char>) -> bool {
    steps(path).contains(Step::Up)
}

/// The path is empty, or never climbs and, if absolute, lies under the download directory.
pub open spec fn is_allowed(save_path: Seq<char>, download_dir: Seq<char>) -> bool {
    save_path.len() == 0 || (!climbs(save_path) && (is_absolute(save_path) ==> download_dir.len()
        > 0 && steps(download_dir).is_prefix_of(steps(save_path))))
}

/// A component of a path, as the code handles it.
enum Part {
    Root,
    Here,
    Up,
    Name(Vec<char>),
}

impl View for Part {
    type V = Step;

    closed spec fn view(&self) -> Step {
        match self {
            Part::Root => Step::Root,
            Part::Here => Step::Here,
            Part::Up => Step::Up,
            Part::Name(n) => Step::Name(n@),
        }
    }
}

spec fn part_steps(parts: Seq<Part>) -> Seq<Step> {
    parts.map_values(|p: Part| p@)
}

fn same_part(a: &Part, b: &Part) -> (r: bool)
    ensures
        r == (a@ == b@),
{
    match (a, b) {
        (Part::Root, Part::Root) => true,
        (Part::Here, Part::Here) => true,
        (Part::Up, Part::Up) => true,
        (Part::Name(x), Part::Name(y)) => text::same(x, y),
        _ => false,
    }
}

fn parts(path: &str) -> (r: Vec<Part>)
    ensures
        part_steps(r@) == steps(path@),
{
    let chars = text::chars_of(path);
    let pieces = text::split_at_char(&chars, '/');
    let ghost all = text::split(path@, '/');
    let mut out: Vec<Part> = Vec::new();
    let ghost lead: Seq<Step> = if is_absolute(path@) {
        seq![Step::Root]
    } else {
        Seq::empty()
    };
    if chars.len() > 0 && chars[0] == '/' {
        out.push(Part::Root);
    }
    let dot: Vec<char> = vec!['.'];
    let dots: Vec<char> = vec!['.', '.'];
    let mut i: usize = 0;
    while i < pieces.len()
        invariant
            i <= pieces@.len(),
            text::texts(pieces@) == all,
            dot@ == seq!['.'],
            dots@ == seq!['.', '.'],
            part_steps(out@) == lead + steps_of(all, i as int),
        decreases pieces@.len() - i,
    {
        let ghost before = part_steps(out@);
        let piece = &pieces[i];
        if text::same(piece, &dot) {
            if i == 0 {
                out.push(Part::Here);
            }
        } else if text::same(piece, &dots) {
            out.push(Part::Up);
            assert(part_steps(out@) =~= before.push(Step::Up));
        } else if piece.len() > 0 {
            let name = vstd::slice::slice_to_vec(piece.as_slice());
            out.push(Part::Name(name));
            assert(part_steps(out@) =~= before.push(Step::Name(name@)));
        }
        i += 1;
    }
    out
}

/// Whether content may be saved under `save_path`. The empty path stands for the download
/// directory itself.
pub fn validate_save_path(save_path: &str, download_dir: &str) -> (r: bool)
    ensures
        r == is_allowed(save_path@, download_dir@),
{
    let chars = text::chars_of(save_path);
    if chars.len() == 0 {
        return true;
    }
    let p = parts(save_path);
    let mut i: usize = 0;
    while i < p.len()
        invariant
            i <= p@.len(),
            part_steps(p@) == steps(save_path@),
            chars@ == save_path@,
            chars@.len() > 0,
            forall|j: int| 0 <= j < i ==> #[trigger] steps(save_path@)[j] != Step::Up,
        decreases p@.len() - i,
    {
        assert(p@[i as int]@ == steps(save_path@)[i as int]);
        if same_part(&p[i], &Part::Up) {
            return false;
        }
        i += 1;
    }
    if chars[0] == '/' {
        if text::chars_of(download_dir).len() == 0 {
            return false;
        }
        let d = parts(download_dir);
        if p.len() < d.len() {
            return false;
        }
        let mut j: usize = 0;
        while j < d.len()
            invariant
                j <= d@.len() <= p@.len(),
                part_steps(p@) == steps(save_path@),
                part_steps(d@) == steps(download_dir@),
                chars@ == save_path@,
                chars@.len() > 0,
                is_absolute(save_path@),
                forall|k: int|
                    0 <= k < j ==> #[trigger] steps(download_dir@)[k] == steps(save_path@)[k],
            decreases d@.len() - j,
        {
            assert(d@[j as int]@ == steps(download_dir@)[j as int]);
            if !same_part(&d[j], &p[j]) {
                return false;
            }
            j += 1;
        }
    }
    true
}

/// An allowed path never climbs to a parent directory.
pub proof fn allowed_paths_never_climb(save_path: Seq<char>, download_dir: Seq<char>)
    requires
        is_allowed(save_path, download_dir),
    ensures
        !climbs(save_path),
{
    if save_path.len() == 0 {
        let pieces = text::split(save_path, '/');
        assert(steps_of(pieces, 1) == steps_of(pieces, 0));
    }
}

/// An allowed absolute path has the components of the download directory as its first ones.
pub proof fn allowed_absolute_paths_stay_under_download_dir(
    save_path: Seq<char>,
    download_dir: Seq<char>,
)
    requires
        is_allowed(save_path, download_dir),
        is_absolute(save_path),
    ensures
        download_dir.len() > 0,
        steps(download_dir).is_prefix_of(steps(save_path)),
{
}

/// The piece between slashes is a name or two dots.
pub open spec fn is_kept(piece: Seq<char>) -> bool {
    piece.len() > 0 && piece != seq!['.']
}

/// The names between slashes, and two dots where they stand for one.
pub open spec fn kept_pieces(path: Seq<char>) -> Seq<Seq<char>> {
    text::split(path, '/').filter(|p: Seq<char>| is_kept(p))
}

spec fn kept_step(piece: Seq<char>) -> Step {
    if piece == seq!['.', '.'] {
        Step::Up
    } else {
        Step::Name(piece)
    }
}

proof fn lemma_kept_steps(pieces: Seq<Seq<char>>, n: int)
    requires
        0 <= n <= pieces.len(),
        pieces.len() > 0 ==> pieces[0].len() == 0,
    ensures
        steps_of(pieces, n) == pieces.take(n).filter(|p: Seq<char>| is_kept(p)).map_values(
            |p: Seq<char>| kept_step(p),
        ),
    decreases n,
{
    reveal(Seq::filter);
    let f = |p: Seq<char>| is_kept(p);
    let g = |p: Seq<char>| kept_step(p);
    if n > 0 {
        lemma_kept_steps(pieces, n - 1);
        let t = pieces.take(n);
        assert(t.drop_last() =~= pieces.take(n - 1));
        assert(t.last() == pieces[n - 1]);
        let before = pieces.take(n - 1).filter(f);
        if is_kept(pieces[n - 1]) {
            assert(t.filter(f) == before.push(pieces[n - 1]));
            assert(before.push(pieces[n - 1]).map_values(g) =~= before.map_values(g).push(
                g(pieces[n - 1]),
            ));
        } else {
            assert(t.filter(f) == before);
        }
    } else {
        assert(pieces.take(0).filter(f).map_values(g) =~= Seq::empty());
    }
}

proof fn lemma_absolute_steps(path: Seq<char>)
    requires
        is_absolute(path),
    ensures
        steps(path) == seq![Step::Root] + kept_pieces(path).map_values(
            |p: Seq<char>| kept_step(p),
        ),
{
    let pieces = text::split(path, '/');
    lemma_first_piece(path);
    lemma_kept_steps(pieces, pieces.len() as int);
    assert(pieces.take(pieces.len() as int) =~= pieces);
}

proof fn lemma_first_piece(path: Seq<char>)
    ensures
        text::split(path, '/').len() > 0,
        is_absolute(path) ==> text::split(path, '/')[0].len() == 0,
        path.len() > 0 && !is_absolute(path) ==> text::split(path, '/')[0].len() > 0,
{
    let e = Seq::<char>::empty();
    if is_absolute(path) {
        text::split_joins(e, path.skip(1), '/');
        assert(e.push('/') + path.skip(1) =~= path);
    }
    text::split_is_never_empty(path, '/');
    if path.len() > 0 && !is_absolute(path) {
        lemma_first_piece_begins(path);
    }
}

proof fn lemma_first_piece_begins(path: Seq<char>)
    requires
        path.len() > 0,
        path[0] != '/',
    ensures
        text::split(path, '/')[0].len() > 0,
    decreases path.len(),
{
    let before = text::split(path.drop_last(), '/');
    text::split_is_never_empty(path.drop_last(), '/');
    if path.len() > 1 {
        lemma_first_piece_begins(path.drop_last());
    } else {
        assert(path.drop_last().len() == 0);
        assert(before.len() == 1);
        assert(path.last() == path[0]);
    }
}

proof fn lemma_climbs(pieces: Seq<Seq<char>>, n: int)
    requires
        0 <= n <= pieces.len(),
    ensures
        steps_of(pieces, n).contains(Step::Up) <==> exists|i: int|
            0 <= i < n && #[trigger] pieces[i] == seq!['.', '.'],
    decreases n,
{
    if n > 0 {
        lemma_climbs(pieces, n - 1);
        let before = steps_of(pieces, n - 1);
        let after = steps_of(pieces, n);
        if before.contains(Step::Up) {
            let k = choose|k: int| 0 <= k < before.len() && before[k] == Step::Up;
            assert(after[k] == Step::Up);
        }
        if pieces[n - 1] == seq!['.', '.'] {
            assert(pieces[n - 1].len() == 2);
            assert(seq!['.'].len() == 1);
            assert(after[after.len() - 1] == Step::Up);
        }
    }
}

/// A path climbs exactly if two dots stand between two of its slashes, or before the first or after
/// the last.
pub proof fn paths_climb_by_two_dots(path: Seq<char>)
    ensures
        climbs(path) <==> text::split(path, '/').contains(seq!['.', '.']),
{
    let pieces = text::split(path, '/');
    let n = pieces.len() as int;
    lemma_climbs(pieces, n);
    let named = steps_of(pieces, n);
    if is_absolute(path) {
        let all = seq![Step::Root] + named;
        if named.contains(Step::Up) {
            let k = choose|k: int| 0 <= k < named.len() && named[k] == Step::Up;
            assert(all[k + 1] == Step::Up);
        }
        if all.contains(Step::Up) {
            let k = choose|k: int| 0 <= k < all.len() && all[k] == Step::Up;
            assert(named[k - 1] == Step::Up);
        }
    }
}

/// A relative path is allowed exactly if it does not climb. An absolute one must also have the names
/// of the download directory, which is absolute too, before all others; empty names and single dots
/// do not count.
pub proof fn paths_are_allowed_by_names(save_path: Seq<char>, download_dir: Seq<char>)
    ensures
        save_path.len() == 0 ==> is_allowed(save_path, download_dir),
        save_path.len() > 0 && save_path[0] != '/' ==> (is_allowed(save_path, download_dir)
            <==> !text::split(save_path, '/').contains(seq!['.', '.'])),
        save_path.len() > 0 && save_path[0] == '/' ==> (is_allowed(save_path, download_dir)
            <==> !text::split(save_path, '/').contains(seq!['.', '.']) && download_dir.len() > 0
            && download_dir[0] == '/' && kept_pieces(download_dir).is_prefix_of(
            kept_pieces(save_path),
        )),
{
    paths_climb_by_two_dots(save_path);
    if is_absolute(save_path) && download_dir.len() > 0 {
        let s = steps(save_path);
        let d = steps(download_dir);
        lemma_absolute_steps(save_path);
        if is_absolute(download_dir) {
            lemma_absolute_steps(download_dir);
            let sk = kept_pieces(save_path);
            let dk = kept_pieces(download_dir);
            assert(s.len() == sk.len() + 1);
            assert(d.len() == dk.len() + 1);
            assert forall|k: int| 0 <= k < dk.len() && k < sk.len() implies (#[trigger] dk[k]
                == sk[k]) == (d[k + 1] == s[k + 1]) by {
                assert(d[k + 1] == kept_step(dk[k]));
                assert(s[k + 1] == kept_step(sk[k]));
            }
            if d.is_prefix_of(s) {
                assert forall|k: int| 0 <= k < dk.len() implies dk[k] == sk[k] by {
                    assert(d[k + 1] == s[k + 1]);
                }
                assert(dk =~= sk.subrange(0, dk.len() as int));
            }
            if dk.is_prefix_of(sk) {
                assert forall|k: int| 0 <= k < d.len() implies d[k] == s[k] by {
                    if k > 0 {
                        assert(dk[k - 1] == sk[k - 1]);
                    }
                }
                assert(d =~= s.subrange(0, d.len() as int));
            }
        } else {
            lemma_first_piece(download_dir);
            let pieces = text::split(download_dir, '/');
            lemma_first_step(pieces, pieces.len() as int);
            assert(s[0] == Step::Root);
        }
    }
}

proof fn lemma_first_step(pieces: Seq<Seq<char>>, n: int)
    requires
        1 <= n <= pieces.len(),
        pieces[0].len() > 0,
    ensures
        steps_of(pieces, n).len() > 0,
        steps_of(pieces, n)[0] != Step::Root,
    decreases n,
{
    if n > 1 {
        lemma_first_step(pieces, n - 1);
    } else {
        assert(steps_of(pieces, 0).len() == 0);
    }
}

} // verus!
