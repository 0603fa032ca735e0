//! File names made from the names that torrents carry.
use vstd::prelude::*;
use crate::text;

verus! {

/// A character that separates path components or ends a C string.
pub open spec fn is_separator(c: char) -> bool {
    c == '/' || c == '\\' || c == '\0'
}

/// `s` with each separator replaced by an underscore.
pub open spec fn mask_separators(s: Seq<char>) -> Seq<char> {
    s.map_values(
        |c: char|
            if is_separator(c) {
                '_'
            } else {
                c
            },
    )
}

/// `s` with each pair of dots, taken from the left, replaced by an underscore.
pub open spec fn fold_dots(s: Seq<char>) -> Seq<char>
    decreases s.len(),
{
    if s.len() == 0 {
        s
    } else if s.len() >= 2 && s[0] == '.' && s[1] == '.' {
        seq!['_'] + fold_dots(s.skip(2))
    } else {
        seq![s[0]] + fold_dots(s.skip(1))
    }
}

/// `s` without its leading dots.
pub open spec fn strip_dots(s: Seq<char>) -> Seq<char>
    decreases s.len(),
{
    if s.len() > 0 && s[0] == '.' {
        strip_dots(s.skip(1))
    } else {
        s
    }
}

/// The file name for a torrent called `s`.
pub open spec fn sanitized(s: Seq<char>) -> Seq<char> {
    let t = strip_dots(fold_dots(mask_separators(s)));
    if t.len() == 0 {
        "unnamed"@
    } else {
        t
    }
}

/// A name that stays inside the directory it is joined to.
pub open spec fn is_plain_name(s: Seq<char>) -> bool {
    &&& s.len() > 0
    &&& s[0] != '.'
    &&& forall|i: int| 0 <= i < s.len() ==> !is_separator(#[trigger] s[i])
    &&& no_double_dot(s)
}

/// No two dots stand next to each other.
pub open spec fn no_double_dot(s: Seq<char>) -> bool {
    forall|i: int, j: int|
        0 <= i && j == i + 1 && j < s.len() ==> !(#[trigger] s[i] == '.' && #[trigger] s[j] == '.')
}

/// Turns a torrent's name into a file name that cannot leave its directory.
pub fn sanitize_name(name: &str) -> (r: String)
    ensures
        r@ == sanitized(name@),
        is_plain_name(r@),
{
    proof {
        sanitized_is_plain(name@);
    }
    let raw = text::chars_of(name);
    let masked = masked(&raw);
    let folded = folded(&masked);
    let mut from: usize = 0;
    assert(folded@.skip(0) == folded@);
    while from < folded.len() && folded[from] == '.'
        invariant
            from <= folded@.len(),
            strip_dots(folded@.skip(from as int)) == strip_dots(folded@),
        decreases folded@.len() - from,
    {
        assert(folded@.skip(from as int).skip(1) == folded@.skip(from + 1));
        from += 1;
    }
    if from == folded.len() {
        return String::from_str("unnamed");
    }
    let kept = text::part(&folded, from, folded.len());
    text::string_of(&kept)
}

fn masked(s: &[char]) -> (r: Vec<char>)
    ensures
        r@ == mask_separators(s@),
{
    let mut out: Vec<char> = Vec::new();
    let mut i: usize = 0;
    while i < s.len()
        invariant
            i <= s@.len(),
            out@ == mask_separators(s@).take(i as int),
        decreases s@.len() - i,
    {
        let c = s[i];
        if c == '/' || c == '\\' || c == '\0' {
            out.push('_');
        } else {
            out.push(c);
        }
        i += 1;
    }
    out
}

fn folded(s: &[char]) -> (r: Vec<char>)
    ensures
        r@ == fold_dots(s@),
{
    let mut out: Vec<char> = Vec::new();
    let mut i: usize = 0;
    assert(s@.skip(0) == s@);
    while i < s.len()
        invariant
            i <= s@.len(),
            out@ + fold_dots(s@.skip(i as int)) == fold_dots(s@),
        decreases s@.len() - i,
    {
        let ghost rest = s@.skip(i as int);
        if s[i] == '.' && s.len() - i >= 2 && s[i + 1] == '.' {
            assert(rest.skip(2) == s@.skip(i + 2));
            out.push('_');
            i += 2;
        } else {
            assert(rest.skip(1) == s@.skip(i + 1));
            out.push(s[i]);
            i += 1;
        }
    }
    out
}

proof fn lemma_fold_dots(s: Seq<char>)
    requires
        forall|i: int| 0 <= i < s.len() ==> !is_separator(#[trigger] s[i]),
    ensures
        no_double_dot(fold_dots(s)),
        forall|i: int| 0 <= i < fold_dots(s).len() ==> !is_separator(#[trigger] fold_dots(s)[i]),
        fold_dots(s).len() > 0 && fold_dots(s)[0] == '.' ==> s.len() > 0 && s[0] == '.' && (s.len()
            < 2 || s[1] != '.'),
    decreases s.len(),
{
    if s.len() > 0 {
        let n: int = if s.len() >= 2 && s[0] == '.' && s[1] == '.' {
            2
        } else {
            1
        };
        lemma_fold_dots(s.skip(n));
    }
}

proof fn lemma_strip_dots(s: Seq<char>)
    requires
        forall|i: int| 0 <= i < s.len() ==> !is_separator(#[trigger] s[i]),
        no_double_dot(s),
    ensures
        strip_dots(s).len() > 0 ==> is_plain_name(strip_dots(s)),
    decreases s.len(),
{
    if s.len() > 0 && s[0] == '.' {
        lemma_strip_dots(s.skip(1));
    }
}

proof fn lemma_fold_dots_keeps(s: Seq<char>)
    requires
        no_double_dot(s),
    ensures
        fold_dots(s) == s,
    decreases s.len(),
{
    if s.len() > 0 {
        lemma_fold_dots_keeps(s.skip(1));
    }
}

/// A sanitized name is not empty, holds no separator and no double dot, and does not begin with
/// a dot.
pub proof fn sanitized_is_plain(s: Seq<char>)
    ensures
        is_plain_name(sanitized(s)),
{
    let m = mask_separators(s);
    lemma_fold_dots(m);
    lemma_strip_dots(fold_dots(m));
    reveal_strlit("unnamed");
}

/// A name that is already plain is kept as it is.
pub proof fn plain_names_are_kept(s: Seq<char>)
    requires
        is_plain_name(s),
    ensures
        sanitized(s) == s,
{
    assert(mask_separators(s) =~= s);
    lemma_fold_dots_keeps(s);
}

/// Sanitizing a name a second time changes nothing.
pub proof fn sanitizing_twice_is_once(s: Seq<char>)
    ensures
        sanitized(sanitized(s)) == sanitized(s),
{
    sanitized_is_plain(s);
    plain_names_are_kept(sanitized(s));
}

proof fn lemma_fold_joins(a: Seq<char>, b: Seq<char>)
    requires
        a.len() == 0 || a.last() != '.',
    ensures
        fold_dots(a + b) == fold_dots(a) + fold_dots(b),
    decreases a.len(),
{
    let s = a + b;
    if a.len() == 0 {
        assert(s =~= b);
        assert(fold_dots(a) + fold_dots(b) =~= fold_dots(b));
    } else {
        let n: int = if a.len() >= 2 && a[0] == '.' && a[1] == '.' {
            2
        } else {
            1
        };
        if a.len() == 1 {
            assert(a[0] == a.last());
        }
        lemma_fold_joins(a.skip(n), b);
        assert(s.skip(n) =~= a.skip(n) + b);
        assert(fold_dots(s) =~= fold_dots(a) + fold_dots(b));
    }
}

/// A name without two dots in a row or a dot at its beginning keeps its length and its characters,
/// but for slashes, backslashes and zeros, each of which becomes an underscore.
pub proof fn separators_become_underscores(s: Seq<char>)
    requires
        s.len() > 0,
        s[0] != '.',
        no_double_dot(s),
    ensures
        sanitized(s).len() == s.len(),
        forall|i: int|
            0 <= i < s.len() ==> #[trigger] sanitized(s)[i] == if s[i] == '/' || s[i] == '\\' || s[i]
                == '\0' {
                '_'
            } else {
                s[i]
            },
{
    let m = mask_separators(s);
    assert(no_double_dot(m)) by {
        assert forall|i: int, j: int| 0 <= i && j == i + 1 && j < m.len() implies !(#[trigger] m[i]
            == '.' && #[trigger] m[j] == '.') by {
            assert(!(s[i] == '.' && s[j] == '.'));
        }
    }
    lemma_fold_dots_keeps(m);
}

/// Two dots in a row count as one underscore, the pairs being taken from the left: so do those that
/// follow no dot.
pub proof fn dot_pairs_become_underscores(a: Seq<char>, b: Seq<char>)
    requires
        a.len() == 0 || a.last() != '.',
    ensures
        sanitized(a + seq!['.', '.'] + b) == sanitized(a + seq!['_'] + b),
{
    let ma = mask_separators(a);
    let mb = mask_separators(b);
    assert(mask_separators(a + seq!['.', '.'] + b) =~= ma + (seq!['.', '.'] + mb));
    assert(mask_separators(a + seq!['_'] + b) =~= ma + (seq!['_'] + mb));
    lemma_fold_joins(ma, seq!['.', '.'] + mb);
    lemma_fold_joins(ma, seq!['_'] + mb);
    assert((seq!['.', '.'] + mb).skip(2) =~= mb);
    assert((seq!['_'] + mb).skip(1) =~= mb);
}

/// A single dot at the beginning is dropped, and of nothing the name is `unnamed`.
pub proof fn leading_dots_are_dropped(s: Seq<char>)
    requires
        s.len() < 1 || s[0] != '.',
    ensures
        sanitized(seq!['.'] + s) == sanitized(s),
        sanitized(Seq::empty()) == "unnamed"@,
{
    let d = seq!['.'] + s;
    let m = mask_separators(s);
    assert(mask_separators(d) =~= seq!['.'] + m);
    assert((seq!['.'] + m).skip(1) =~= m);
    let folded = fold_dots(seq!['.'] + m);
    assert(folded =~= seq!['.'] + fold_dots(m));
    assert(folded.skip(1) =~= fold_dots(m));
    assert(mask_separators(Seq::<char>::empty()) =~= Seq::empty());
}

} // verus!
