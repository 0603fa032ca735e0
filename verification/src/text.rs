//! Text as a sequence of characters: splitting, trimming, case folding and comparison.
use vstd::prelude::*;

verus! {

/// `String::push`: appends the given character to the end of the string.
pub assume_specification[ String::push ](s: &mut String, c: char)
    ensures
        final(s)@ == old(s)@.push(c),
;

/// The pieces of `s` between occurrences of `sep`; there is always at least one piece.
pub open spec fn split(s: Seq<char>, sep: char) -> Seq<Seq<char>>
    decreases s.len(),
{
    if s.len() == 0 {
        seq![Seq::empty()]
    } else {
        let before = split(s.drop_last(), sep);
        if s.last() == sep {
            before.push(Seq::empty())
        } else {
            before.drop_last().push(before.last().push(s.last()))
        }
    }
}

/// The characters with the Unicode `White_Space` property.
pub open spec fn is_whitespace(c: char) -> bool {
    ||| '\u{9}' <= c <= '\u{d}'
    ||| c == '\u{20}'
    ||| c == '\u{85}'
    ||| c == '\u{a0}'
    ||| c == '\u{1680}'
    ||| '\u{2000}' <= c <= '\u{200a}'
    ||| c == '\u{2028}'
    ||| c == '\u{2029}'
    ||| c == '\u{202f}'
    ||| c == '\u{205f}'
    ||| c == '\u{3000}'
}

/// `s` without its leading white space.
pub open spec fn trim_start(s: Seq<char>) -> Seq<char>
    decreases s.len(),
{
    if s.len() > 0 && is_whitespace(s[0]) {
        trim_start(s.drop_first())
    } else {
        s
    }
}

/// `s` without its trailing white space.
pub open spec fn trim_end(s: Seq<char>) -> Seq<char>
    decreases s.len(),
{
    if s.len() > 0 && is_whitespace(s.last()) {
        trim_end(s.drop_last())
    } else {
        s
    }
}

/// `s` without white space at either end.
pub open spec fn trim(s: Seq<char>) -> Seq<char> {
    trim_end(trim_start(s))
}

/// `c` with an ASCII capital letter replaced by its small letter.
pub open spec fn ascii_lower_char(c: char) -> char {
    if 'A' <= c <= 'Z' {
        (c as u32 + 32) as char
    } else {
        c
    }
}

/// `s` with the ASCII capital letters replaced by small letters.
pub open spec fn ascii_lower(s: Seq<char>) -> Seq<char> {
    s.map_values(|c: char| ascii_lower_char(c))
}

/// The characters held by each vector.
pub open spec fn texts(v: Seq<Vec<char>>) -> Seq<Seq<char>> {
    v.map_values(|t: Vec<char>| t@)
}

/// The characters of each string.
pub open spec fn strings(v: Seq<String>) -> Seq<Seq<char>> {
    v.map_values(|t: String| t@)
}

/// The text that `String::from_utf8_lossy` makes of bytes.
pub uninterp spec fn lossy_text(bytes: Seq<u8>) -> Seq<char>;

/// `String::from_utf8_lossy`: the text that UTF-8 bytes stand for. Bytes that are not UTF-8 give a
/// text too, with replacement characters; which one depends on the bytes alone.
#[verifier::external_body]
pub(crate) fn text_lossy(bytes: &[u8]) -> (r: String)
    ensures
        r@ == lossy_text(bytes@),
        vstd::utf8::valid_utf8(bytes@) ==> r@ == vstd::utf8::decode_utf8(bytes@),
{
    String::from_utf8_lossy(bytes).into_owned()
}

/// `std::str::from_utf8`: the text that the bytes stand for, if they are UTF-8.
#[verifier::external_body]
pub(crate) fn text_from_utf8(bytes: &[u8]) -> (r: Option<String>)
    ensures
        match r {
            Some(s) => vstd::utf8::valid_utf8(bytes@) && s@ == vstd::utf8::decode_utf8(bytes@),
            None => !vstd::utf8::valid_utf8(bytes@),
        },
{
    std::str::from_utf8(bytes).ok().map(|s| s.to_owned())
}

/// The characters of a string.
pub fn chars_of(s: &str) -> (r: Vec<char>)
    ensures
        r@ == s@,
{
    let mut out: Vec<char> = Vec::new();
    for c in it: s.chars()
        invariant
            it.seq() == s@,
            out@ == s@.take(it.index() as int),
    {
        out.push(c);
    }
    out
}

/// The string made of the given characters.
pub fn string_of(chars: &[char]) -> (r: String)
    ensures
        r@ == chars@,
{
    let mut out = String::new();
    let mut i: usize = 0;
    while i < chars.len()
        invariant
            i <= chars@.len(),
            out@ == chars@.take(i as int),
        decreases chars@.len() - i,
    {
        out.push(chars[i]);
        i += 1;
    }
    out
}

/// Whether two texts are equal.
pub fn same(a: &[char], b: &[char]) -> (r: bool)
    ensures
        r == (a@ == b@),
{
    assert(a@.subrange(0, a@.len() as int) == a@);
    a.len() == b.len() && starts_with(a, b)
}

/// Whether two strings are equal.
pub fn same_str(a: &str, b: &str) -> (r: bool)
    ensures
        r == (a@ == b@),
{
    same(&chars_of(a), &chars_of(b))
}

/// Whether `s` begins with `prefix`.
pub fn starts_with(s: &[char], prefix: &[char]) -> (r: bool)
    ensures
        r == prefix@.is_prefix_of(s@),
{
    if s.len() < prefix.len() {
        return false;
    }
    let mut i: usize = 0;
    while i < prefix.len()
        invariant
            i <= prefix@.len() <= s@.len(),
            forall|j: int| 0 <= j < i ==> s@[j] == prefix@[j],
        decreases prefix@.len() - i,
    {
        if s[i] != prefix[i] {
            return false;
        }
        i += 1;
    }
    true
}

/// Whether `s` ends with `suffix`.
pub fn ends_with(s: &[char], suffix: &[char]) -> (r: bool)
    ensures
        r == suffix@.is_suffix_of(s@),
{
    if s.len() < suffix.len() {
        return false;
    }
    let tail = vstd::slice::slice_subrange(s, s.len() - suffix.len(), s.len());
    same(suffix, tail)
}

/// A copy of the characters from `from` up to, not including, `to`.
pub fn part(s: &[char], from: usize, to: usize) -> (r: Vec<char>)
    requires
        from <= to <= s@.len(),
    ensures
        r@ == s@.subrange(from as int, to as int),
{
    vstd::slice::slice_to_vec(vstd::slice::slice_subrange(s, from, to))
}

/// Splits `s` at every `sep`.
pub fn split_at_char(s: &[char], sep: char) -> (r: Vec<Vec<char>>)
    ensures
        texts(r@) == split(s@, sep),
{
    let mut done: Vec<Vec<char>> = Vec::new();
    let mut piece: Vec<char> = Vec::new();
    let mut i: usize = 0;
    while i < s.len()
        invariant
            i <= s@.len(),
            texts(done@).push(piece@) == split(s@.take(i as int), sep),
        decreases s@.len() - i,
    {
        let c = s[i];
        let ghost before = s@.take(i as int);
        let ghost next = s@.take(i + 1);
        assert(next.drop_last() == before);
        if c == sep {
            done.push(piece);
            piece = Vec::new();
        } else {
            piece.push(c);
        }
        i += 1;
    }
    assert(s@.take(s@.len() as int) == s@);
    done.push(piece);
    done
}

/// Whether `c` has the Unicode `White_Space` property.
pub fn char_is_whitespace(c: char) -> (r: bool)
    ensures
        r == is_whitespace(c),
{
    ('\u{9}' <= c && c <= '\u{d}') || c == '\u{20}' || c == '\u{85}' || c == '\u{a0}' || c
        == '\u{1680}' || ('\u{2000}' <= c && c <= '\u{200a}') || c == '\u{2028}' || c == '\u{2029}'
        || c == '\u{202f}' || c == '\u{205f}' || c == '\u{3000}'
}

/// `s` without white space at either end.
pub fn trimmed(s: &[char]) -> (r: Vec<char>)
    ensures
        r@ == trim(s@),
{
    let mut from: usize = 0;
    assert(s@.skip(0) == s@);
    while from < s.len() && char_is_whitespace(s[from])
        invariant
            from <= s@.len(),
            trim_start(s@.skip(from as int)) == trim_start(s@),
        decreases s@.len() - from,
    {
        assert(s@.skip(from as int).drop_first() == s@.skip(from + 1));
        from += 1;
    }
    let mut to: usize = s.len();
    while from < to && char_is_whitespace(s[to - 1])
        invariant
            from <= to <= s@.len(),
            trim_end(s@.subrange(from as int, to as int)) == trim(s@),
        decreases to - from,
    {
        assert(s@.subrange(from as int, to as int).drop_last() == s@.subrange(
            from as int,
            to - 1,
        ));
        to -= 1;
    }
    part(s, from, to)
}

/// `s` with the ASCII capital letters replaced by small letters.
pub fn lowered(s: &[char]) -> (r: Vec<char>)
    ensures
        r@ == ascii_lower(s@),
{
    let mut out: Vec<char> = Vec::new();
    let mut i: usize = 0;
    while i < s.len()
        invariant
            i <= s@.len(),
            out@.len() == i,
            forall|j: int| 0 <= j < i ==> out@[j] == ascii_lower_char(s@[j]),
        decreases s@.len() - i,
    {
        let c = s[i];
        if 'A' <= c && c <= 'Z' {
            let b: u8 = c as u8;
            out.push((b + 32) as char);
        } else {
            out.push(c);
        }
        i += 1;
    }
    out
}

/// There is always at least one piece.
pub proof fn split_is_never_empty(s: Seq<char>, sep: char)
    ensures
        split(s, sep).len() >= 1,
    decreases s.len(),
{
    if s.len() > 0 {
        split_is_never_empty(s.drop_last(), sep);
    }
}

/// What comes before the first separator is the first piece.
pub proof fn split_begins_with(a: Seq<char>, rest: Seq<char>, sep: char)
    requires
        forall|i: int| 0 <= i < a.len() ==> a[i] != sep,
        rest.len() > 0,
        rest[0] == sep,
    ensures
        split(a + rest, sep).len() >= 2,
        split(a + rest, sep)[0] == a,
    decreases rest.len(),
{
    let s = a + rest;
    if rest.len() == 1 {
        split_without_separator(a, sep);
        assert(s.drop_last() =~= a);
    } else {
        split_begins_with(a, rest.drop_last(), sep);
        assert(s.drop_last() =~= a + rest.drop_last());
    }
}

/// A text in which the separator does not occur is its own only piece.
pub proof fn split_without_separator(s: Seq<char>, sep: char)
    requires
        forall|i: int| 0 <= i < s.len() ==> s[i] != sep,
    ensures
        split(s, sep) == seq![s],
    decreases s.len(),
{
    if s.len() > 0 {
        split_without_separator(s.drop_last(), sep);
        assert(s.drop_last().push(s.last()) == s);
    } else {
        assert(s =~= Seq::<char>::empty());
    }
}

/// Splitting two texts with a separator between them gives the pieces of the one and then those of
/// the other.
pub proof fn split_joins(a: Seq<char>, b: Seq<char>, sep: char)
    ensures
        split(a.push(sep) + b, sep) == split(a, sep) + split(b, sep),
    decreases b.len(),
{
    let s = a.push(sep) + b;
    split_is_never_empty(b, sep);
    if b.len() == 0 {
        assert(s.drop_last() =~= a);
        assert(split(a, sep).push(Seq::empty()) =~= split(a, sep) + split(b, sep));
    } else {
        split_joins(a, b.drop_last(), sep);
        split_is_never_empty(b.drop_last(), sep);
        assert(s.drop_last() =~= a.push(sep) + b.drop_last());
        let head = split(a, sep);
        let tail = split(b.drop_last(), sep);
        if b.last() == sep {
            assert((head + tail).push(Seq::empty()) =~= head + tail.push(Seq::empty()));
        } else {
            assert((head + tail).last() == tail.last());
            assert((head + tail).drop_last().push(tail.last().push(b.last())) =~= head
                + tail.drop_last().push(tail.last().push(b.last())));
        }
    }
}

/// No piece holds the separator.
pub proof fn pieces_hold_no_separator(s: Seq<char>, sep: char)
    ensures
        forall|i: int| 0 <= i < split(s, sep).len() ==> !(#[trigger] split(s, sep)[i]).contains(sep),
    decreases s.len(),
{
    if s.len() > 0 {
        pieces_hold_no_separator(s.drop_last(), sep);
        split_is_never_empty(s.drop_last(), sep);
        let before = split(s.drop_last(), sep);
        let after = split(s, sep);
        assert forall|i: int| 0 <= i < after.len() implies !(#[trigger] after[i]).contains(sep) by {
            if s.last() != sep && i == before.len() - 1 {
                let piece = before.last().push(s.last());
                assert(after[i] == piece);
                if piece.contains(sep) {
                    let k = choose|k: int| 0 <= k < piece.len() && piece[k] == sep;
                    assert(before.last()[k] == sep);
                    assert(before[i].contains(sep));
                }
            } else if i < before.len() {
                assert(after[i] == before[i]);
            }
        }
    }
}

/// `t` is what is left of `s` once all white space at its ends is gone.
pub open spec fn is_core(s: Seq<char>, t: Seq<char>, from: int) -> bool {
    &&& 0 <= from && from + t.len() <= s.len()
    &&& t == s.subrange(from, from + t.len())
    &&& forall|k: int| 0 <= k < from ==> is_whitespace(#[trigger] s[k])
    &&& forall|k: int| from + t.len() <= k < s.len() ==> is_whitespace(#[trigger] s[k])
}

/// Trimming takes white space from both ends, all of it, and nothing else.
pub proof fn trim_takes_only_white_space(s: Seq<char>)
    ensures
        trim(s).len() > 0 ==> !is_whitespace(trim(s)[0]) && !is_whitespace(trim(s).last()),
        exists|from: int| #[trigger] is_core(s, trim(s), from),
{
    let from = lemma_trim_start(s);
    let mid = trim_start(s);
    lemma_trim_end(mid);
    let t = trim(s);
    assert(t =~= s.subrange(from, from + t.len()));
    assert forall|k: int| from + t.len() <= k < s.len() implies is_whitespace(#[trigger] s[k]) by {
        assert(mid[k - from] == s[k]);
    }
    assert(is_core(s, t, from));
}

proof fn lemma_trim_start(s: Seq<char>) -> (from: int)
    ensures
        0 <= from <= s.len(),
        trim_start(s) == s.skip(from),
        forall|k: int| 0 <= k < from ==> is_whitespace(#[trigger] s[k]),
        trim_start(s).len() > 0 ==> !is_whitespace(trim_start(s)[0]),
    decreases s.len(),
{
    if s.len() > 0 && is_whitespace(s[0]) {
        let n = lemma_trim_start(s.drop_first());
        assert(s.drop_first().skip(n) =~= s.skip(n + 1));
        assert forall|k: int| 0 <= k < n + 1 implies is_whitespace(#[trigger] s[k]) by {
            if k > 0 {
                assert(s.drop_first()[k - 1] == s[k]);
            }
        }
        n + 1
    } else {
        assert(s.skip(0) =~= s);
        0
    }
}

proof fn lemma_trim_end(s: Seq<char>)
    ensures
        trim_end(s).len() <= s.len(),
        trim_end(s) == s.take(trim_end(s).len() as int),
        forall|k: int| trim_end(s).len() <= k < s.len() ==> is_whitespace(#[trigger] s[k]),
        trim_end(s).len() > 0 ==> !is_whitespace(trim_end(s).last()),
    decreases s.len(),
{
    if s.len() > 0 && is_whitespace(s.last()) {
        lemma_trim_end(s.drop_last());
        let t = trim_end(s);
        assert(s.drop_last().take(t.len() as int) =~= s.take(t.len() as int));
        assert forall|k: int| t.len() <= k < s.len() implies is_whitespace(#[trigger] s[k]) by {
            if k < s.len() - 1 {
                assert(s.drop_last()[k] == s[k]);
            }
        }
    } else {
        assert(s.take(s.len() as int) =~= s);
    }
}

/// Lowering changes the 26 ASCII capitals to the letters 32 places on, and no other character.
pub proof fn lowering_changes_only_capitals(s: Seq<char>, i: int)
    requires
        0 <= i < s.len(),
    ensures
        ascii_lower(s).len() == s.len(),
        65 <= s[i] as u32 <= 90 ==> ascii_lower(s)[i] as u32 == s[i] as u32 + 32,
        !(65 <= s[i] as u32 <= 90) ==> ascii_lower(s)[i] == s[i],
{
}

/// White space are the characters with these 25 code points.
pub proof fn white_space_by_code_point(c: char)
    ensures
        ({
            let n = c as u32;
            is_whitespace(c) <==> 9 <= n <= 13 || n == 32 || n == 133 || n == 160 || n == 5760
                || 8192 <= n <= 8202 || n == 8232 || n == 8233 || n == 8239 || n == 8287
                || n == 12288
        }),
{
}

/// The contents of a list stand at the places of its texts.
pub proof fn lists_are_read_in_place(v: Seq<String>, w: Seq<Vec<char>>, i: int)
    ensures
        strings(v).len() == v.len(),
        0 <= i < v.len() ==> strings(v)[i] == v[i]@,
        texts(w).len() == w.len(),
        0 <= i < w.len() ==> texts(w)[i] == w[i]@,
{
}

} // verus!
