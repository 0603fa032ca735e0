//! Piece bitfields, most significant bit first.
use vstd::prelude::*;

verus! {

/// How many bytes hold `n` bits.
pub open spec fn bytes_for(n: int) -> int {
    (n + 7) / 8
}

/// The bit of a byte at a place counted from the most significant bit.
pub open spec fn byte_bit(b: u8, place: u8) -> bool {
    b & (0x80u8 >> place) != 0
}

/// Whether the bit of `piece` is set; bits past the end of the field are clear.
pub open spec fn bit(field: Seq<u8>, piece: int) -> bool {
    0 <= piece && piece / 8 < field.len() && byte_bit(field[piece / 8], (piece % 8) as u8)
}

/// How many of the first `n` bits are set.
pub open spec fn count(field: Seq<u8>, n: int) -> int
    decreases n,
{
    if n <= 0 {
        0
    } else {
        count(field, n - 1) + (if bit(field, n - 1) {
            1int
        } else {
            0int
        })
    }
}

/// The field after setting the bit of `piece`; nothing changes if it lies past the end.
pub open spec fn with_bit(field: Seq<u8>, piece: int) -> Seq<u8> {
    if 0 <= piece && piece / 8 < field.len() {
        field.update(piece / 8, field[piece / 8] | (0x80u8 >> ((piece % 8) as u8)))
    } else {
        field
    }
}

/// The first `n` bits as booleans.
pub open spec fn haves(field: Seq<u8>, n: nat) -> Seq<bool> {
    Seq::new(n, |i: int| bit(field, i))
}

/// `len` zero bytes.
pub open spec fn zeros(len: nat) -> Seq<u8> {
    Seq::new(len, |i: int| 0u8)
}

/// The field after setting the bits of the first `n` pieces.
pub open spec fn filled(field: Seq<u8>, n: int) -> Seq<u8>
    decreases n,
{
    if n <= 0 {
        field
    } else {
        with_bit(filled(field, n - 1), n - 1)
    }
}

/// The field for `n` pieces with the bit of each of them set.
pub open spec fn full_field(n: int) -> Seq<u8> {
    filled(zeros(bytes_for(n) as nat), n)
}

/// A field for `piece_count` pieces with every bit clear.
pub fn new_bitfield(piece_count: u32) -> (r: Vec<u8>)
    ensures
        r@ == zeros(bytes_for(piece_count as int) as nat),
{
    let full: u32 = piece_count / 8;
    let size: u32 = if piece_count % 8 == 0 {
        full
    } else {
        full + 1
    };
    let mut out: Vec<u8> = Vec::new();
    let mut i: u32 = 0;
    while i < size
        invariant
            i <= size,
            out@ == zeros(i as nat),
        decreases size - i,
    {
        out.push(0);
        i += 1;
    }
    out
}

/// Sets the bit of `piece`; a piece past the end of the field is ignored.
pub fn set_bit(bitfield: &mut [u8], piece: u32)
    ensures
        final(bitfield)@ == with_bit(old(bitfield)@, piece as int),
{
    let idx = piece / 8;
    let place: u8 = (piece % 8) as u8;
    if (idx as usize) < bitfield.len() {
        let b = bitfield[idx as usize];
        bitfield[idx as usize] = b | (0x80u8 >> place);
    }
}

/// Whether the bit of `piece` is set; a piece past the end of the field is not.
pub fn get_bit(bitfield: &[u8], piece: u32) -> (r: bool)
    ensures
        r == bit(bitfield@, piece as int),
{
    let idx = piece / 8;
    let place: u8 = (piece % 8) as u8;
    (idx as usize) < bitfield.len() && (bitfield[idx as usize] & (0x80u8 >> place)) != 0
}

/// The bits of the first `piece_count` pieces.
pub fn bitfield_to_initial_have(bitfield: &[u8], piece_count: u32) -> (r: Vec<bool>)
    ensures
        r@ == haves(bitfield@, piece_count as nat),
{
    let mut out: Vec<bool> = Vec::new();
    let mut i: u32 = 0;
    while i < piece_count
        invariant
            i <= piece_count,
            out@ == haves(bitfield@, i as nat),
        decreases piece_count - i,
    {
        out.push(get_bit(bitfield, i));
        i += 1;
    }
    out
}

/// How many of the first `piece_count` bits are set.
pub fn popcount(bitfield: &[u8], piece_count: u32) -> (r: u32)
    ensures
        r == count(bitfield@, piece_count as int),
        r <= piece_count,
{
    let mut n: u32 = 0;
    let mut i: u32 = 0;
    while i < piece_count
        invariant
            i <= piece_count,
            n <= i,
            n == count(bitfield@, i as int),
        decreases piece_count - i,
    {
        if get_bit(bitfield, i) {
            n += 1;
        }
        i += 1;
    }
    n
}

/// A field for `piece_count` pieces with the bit of each of them set.
pub fn full_bitfield(piece_count: u32) -> (r: Vec<u8>)
    ensures
        r@ == full_field(piece_count as int),
{
    let mut out = new_bitfield(piece_count);
    let ghost clear = out@;
    let mut i: u32 = 0;
    while i < piece_count
        invariant
            i <= piece_count,
            out@ == filled(clear, i as int),
        decreases piece_count - i,
    {
        set_bit(&mut out, i);
        i += 1;
    }
    out
}

proof fn lemma_byte_bits(b: u8, p: u8, q: u8)
    requires
        p < 8,
        q < 8,
    ensures
        byte_bit(b | (0x80u8 >> p), q) == (p == q || byte_bit(b, q)),
{
    assert(((b | (0x80u8 >> p)) & (0x80u8 >> q) != 0) == (p == q || b & (0x80u8 >> q) != 0))
        by (bit_vector)
        requires
            p < 8,
            q < 8,
    ;
}

/// Setting a piece's bit within the field makes that bit read as set and leaves every other bit
/// and the field's length as they were.
pub proof fn set_bit_sets_only_that_bit(field: Seq<u8>, piece: int)
    requires
        0 <= piece,
    ensures
        with_bit(field, piece).len() == field.len(),
        piece / 8 < field.len() ==> bit(with_bit(field, piece), piece),
        forall|p: int| p != piece ==> #[trigger] bit(with_bit(field, piece), p) == bit(field, p),
{
    let after = with_bit(field, piece);
    if piece / 8 < field.len() {
        lemma_byte_bits(field[piece / 8], (piece % 8) as u8, (piece % 8) as u8);
        assert forall|p: int| p != piece implies #[trigger] bit(after, p) == bit(field, p) by {
            if 0 <= p && p / 8 == piece / 8 {
                lemma_byte_bits(field[piece / 8], (piece % 8) as u8, (p % 8) as u8);
            }
        }
    }
}

/// A field of zero bytes has no bit set.
pub proof fn zero_field_is_clear(len: nat)
    ensures
        forall|p: int| !#[trigger] bit(zeros(len), p),
{
    assert forall|place: u8| !#[trigger] byte_bit(0u8, place) by {
        assert(0u8 & (0x80u8 >> place) == 0) by (bit_vector);
    }
}

/// The count is that of the true values among the pieces a field reports as present, and never
/// more than the number of pieces.
pub proof fn count_counts_haves(field: Seq<u8>, n: nat)
    ensures
        count(field, n as int) == haves(field, n).to_multiset().count(true),
        0 <= count(field, n as int) <= n,
    decreases n,
{
    broadcast use vstd::seq_lib::group_to_multiset_ensures;

    if n > 0 {
        count_counts_haves(field, (n - 1) as nat);
        assert(haves(field, n) =~= haves(field, (n - 1) as nat).push(bit(field, n - 1)));
    }
}

/// Fields that agree on their first `n` bits have the same count.
proof fn lemma_count_agrees(a: Seq<u8>, b: Seq<u8>, n: int)
    requires
        forall|p: int| 0 <= p < n ==> #[trigger] bit(a, p) == bit(b, p),
    ensures
        count(a, n) == count(b, n),
    decreases n,
{
    if n > 0 {
        lemma_count_agrees(a, b, n - 1);
    }
}

/// Setting a piece's bit raises the count by one if the bit was clear, and leaves it if not.
pub proof fn set_bit_counts_once(field: Seq<u8>, piece: int, n: int)
    requires
        0 <= piece < n,
        piece / 8 < field.len(),
    ensures
        count(with_bit(field, piece), n) == count(field, n) + (if bit(field, piece) {
            0int
        } else {
            1int
        }),
    decreases n,
{
    set_bit_sets_only_that_bit(field, piece);
    if piece == n - 1 {
        lemma_count_agrees(with_bit(field, piece), field, n - 1);
    } else {
        set_bit_counts_once(field, piece, n - 1);
    }
}

/// A field with the bit of each of `n` pieces set counts `n`, and reports every piece as present.
pub proof fn full_field_counts_all(field: Seq<u8>, n: nat)
    requires
        forall|p: int| 0 <= p < n ==> #[trigger] bit(field, p),
    ensures
        count(field, n as int) == n,
        forall|i: int| 0 <= i < n ==> #[trigger] haves(field, n)[i],
    decreases n,
{
    if n > 0 {
        full_field_counts_all(field, (n - 1) as nat);
    }
}

proof fn lemma_filled(field: Seq<u8>, n: int)
    requires
        0 <= n <= 8 * field.len(),
        forall|p: int| !#[trigger] bit(field, p),
    ensures
        filled(field, n).len() == field.len(),
        forall|p: int| #[trigger] bit(filled(field, n), p) == (0 <= p < n),
    decreases n,
{
    if n > 0 {
        lemma_filled(field, n - 1);
        set_bit_sets_only_that_bit(filled(field, n - 1), n - 1);
    }
}

/// The full field for `n` pieces has exactly their bits set, and counts `n`.
pub proof fn full_field_is_full(n: nat)
    ensures
        full_field(n as int).len() == bytes_for(n as int),
        forall|p: int| #[trigger] bit(full_field(n as int), p) == (0 <= p < n),
        count(full_field(n as int), n as int) == n,
{
    zero_field_is_clear(bytes_for(n as int) as nat);
    lemma_filled(zeros(bytes_for(n as int) as nat), n as int);
    full_field_counts_all(full_field(n as int), n);
}

/// A field with no bit set counts zero.
pub proof fn clear_field_counts_none(field: Seq<u8>, n: int)
    requires
        forall|p: int| 0 <= p < n ==> !#[trigger] bit(field, p),
    ensures
        count(field, n) == 0,
    decreases n,
{
    if n > 0 {
        clear_field_counts_none(field, n - 1);
    }
}

/// The bits of a byte have the weights of its binary notation, the first one the highest.
pub proof fn bits_weigh_by_place(b: u8)
    ensures
        b == (if bit(seq![b], 0) { 128int } else { 0 }) + (if bit(seq![b], 1) { 64int } else { 0 })
            + (if bit(seq![b], 2) { 32int } else { 0 }) + (if bit(seq![b], 3) { 16int } else { 0 })
            + (if bit(seq![b], 4) { 8int } else { 0 }) + (if bit(seq![b], 5) { 4int } else { 0 })
            + (if bit(seq![b], 6) { 2int } else { 0 }) + (if bit(seq![b], 7) { 1int } else { 0 }),
{
    assert(b == (if b & (0x80u8 >> 0u8) != 0 { 128u8 } else { 0 }) + (if b & (0x80u8 >> 1u8) != 0 {
        64u8
    } else { 0 }) + (if b & (0x80u8 >> 2u8) != 0 { 32u8 } else { 0 }) + (if b & (0x80u8 >> 3u8)
        != 0 { 16u8 } else { 0 }) + (if b & (0x80u8 >> 4u8) != 0 { 8u8 } else { 0 }) + (if b & (
    0x80u8 >> 5u8) != 0 { 4u8 } else { 0 }) + (if b & (0x80u8 >> 6u8) != 0 { 2u8 } else { 0 }) + (
    if b & (0x80u8 >> 7u8) != 0 { 1u8 } else { 0 })) by (bit_vector);
}

/// Each byte of a field holds the bits of eight pieces, the bytes in the order of the pieces, and
/// past the last byte no bit is set.
pub proof fn bytes_hold_eight_pieces(a: Seq<u8>, b: Seq<u8>, p: int)
    requires
        0 <= p,
    ensures
        p < 8 * a.len() ==> bit(a + b, p) == bit(a, p),
        bit(a + b, 8 * a.len() + p) == bit(b, p),
        p >= 8 * a.len() ==> !bit(a, p),
{
    assert((8 * a.len() + p) / 8 == a.len() + p / 8);
    assert((8 * a.len() + p) % 8 == p % 8);
}

/// The pieces reported as present are those whose bits are set, in order; a new field has a byte for
/// each eight pieces and one for what is left over.
pub proof fn haves_follow_the_bits(field: Seq<u8>, n: nat, i: int)
    ensures
        haves(field, n).len() == n,
        0 <= i < n ==> haves(field, n)[i] == bit(field, i),
        n <= 8 * bytes_for(n as int) < n + 8,
{
}

} // verus!
