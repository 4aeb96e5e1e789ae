//! Whole numbers as bytes, in both orders.
use vstd::prelude::*;

verus! {

/// `256` to the power `n`: how many numbers fit in `n` bytes.
pub open spec fn byte_room(n: nat) -> nat
    decreases n,
{
    if n == 0 {
        1
    } else {
        256 * byte_room((n - 1) as nat)
    }
}

/// The `n` low bytes of `x`, the least significant first.
pub open spec fn le_bytes(x: nat, n: nat) -> Seq<u8>
    decreases n,
{
    if n == 0 {
        Seq::empty()
    } else {
        seq![(x % 256) as u8] + le_bytes(x / 256, (n - 1) as nat)
    }
}

/// The number that `s` stands for, the least significant byte first.
pub open spec fn le_value(s: Seq<u8>) -> nat
    decreases s.len(),
{
    if s.len() == 0 {
        0
    } else {
        s[0] as nat + 256 * le_value(s.drop_first())
    }
}

/// The `n` low bytes of `x`, the most significant first.
pub open spec fn be_bytes(x: nat, n: nat) -> Seq<u8>
    decreases n,
{
    if n == 0 {
        Seq::empty()
    } else {
        be_bytes(x / 256, (n - 1) as nat).push((x % 256) as u8)
    }
}

/// The number that `s` stands for, the most significant byte first.
pub open spec fn be_value(s: Seq<u8>) -> nat
    decreases s.len(),
{
    if s.len() == 0 {
        0
    } else {
        be_value(s.drop_last()) * 256 + s.last() as nat
    }
}

/// `n` bytes are `n` bytes.
pub proof fn lemma_le_bytes_len(x: nat, n: nat)
    ensures
        le_bytes(x, n).len() == n,
    decreases n,
{
    if n > 0 {
        lemma_le_bytes_len(x / 256, (n - 1) as nat);
    }
}

/// `n` bytes are `n` bytes.
pub proof fn lemma_be_bytes_len(x: nat, n: nat)
    ensures
        be_bytes(x, n).len() == n,
    decreases n,
{
    if n > 0 {
        lemma_be_bytes_len(x / 256, (n - 1) as nat);
    }
}

/// A number that fits in `n` bytes is read back from them.
pub proof fn lemma_le_round_trip(x: nat, n: nat)
    requires
        x < byte_room(n),
    ensures
        le_value(le_bytes(x, n)) == x,
    decreases n,
{
    if n > 0 {
        let rest = le_bytes(x / 256, (n - 1) as nat);
        lemma_le_round_trip(x / 256, (n - 1) as nat);
        assert(le_bytes(x, n).drop_first() =~= rest);
    }
}

/// A number that fits in `n` bytes is read back from them.
pub proof fn lemma_be_round_trip(x: nat, n: nat)
    requires
        x < byte_room(n),
    ensures
        be_value(be_bytes(x, n)) == x,
    decreases n,
{
    if n > 0 {
        lemma_be_round_trip(x / 256, (n - 1) as nat);
        assert(be_bytes(x, n).drop_last() =~= be_bytes(x / 256, (n - 1) as nat));
    }
}

/// What bytes stand for fits in that many bytes, and writes the same bytes.
pub proof fn lemma_le_value(s: Seq<u8>)
    ensures
        le_value(s) < byte_room(s.len()),
        le_bytes(le_value(s), s.len()) == s,
    decreases s.len(),
{
    if s.len() > 0 {
        let rest = s.drop_first();
        lemma_le_value(rest);
        let x = le_value(s);
        assert(x % 256 == s[0] as nat);
        assert(x / 256 == le_value(rest));
        assert(le_bytes(x, s.len()) =~= s);
    }
}

/// The sizes that are used.
pub proof fn lemma_byte_rooms()
    ensures
        byte_room(1) == 0x100,
        byte_room(2) == 0x1_0000,
        byte_room(4) == 0x1_0000_0000,
        byte_room(8) == 0x1_0000_0000_0000_0000,
{
    reveal_with_fuel(byte_room, 9);
}

/// Adds the `n` low bytes of `x`, the least significant first.
pub fn put_le(out: &mut Vec<u8>, x: u64, n: u8)
    requires
        n <= 8,
    ensures
        final(out)@ == old(out)@ + le_bytes(x as nat, n as nat),
{
    let mut left: u64 = x;
    let mut done: u8 = 0;
    assert(out@ + le_bytes(x as nat, n as nat) =~= old(out)@ + le_bytes(x as nat, n as nat));
    while done < n
        invariant
            done <= n,
            out@ + le_bytes(left as nat, (n - done) as nat) == old(out)@ + le_bytes(
                x as nat,
                n as nat,
            ),
        decreases n - done,
    {
        let ghost before = out@;
        out.push((left % 256) as u8);
        proof {
            let tail = le_bytes((left / 256) as nat, (n - done - 1) as nat);
            assert(before + (seq![(left % 256) as u8] + tail) =~= out@ + tail);
        }
        left = left / 256;
        done += 1;
    }
    assert(out@ + Seq::<u8>::empty() =~= out@);
}

/// Adds the four bytes of `x`, the least significant first.
pub fn put_u32_le(out: &mut Vec<u8>, x: u32)
    ensures
        final(out)@ == old(out)@ + le_bytes(x as nat, 4),
{
    put_le(out, x as u64, 4);
}

/// Adds the eight bytes of `x`, the least significant first.
pub fn put_u64_le(out: &mut Vec<u8>, x: u64)
    ensures
        final(out)@ == old(out)@ + le_bytes(x as nat, 8),
{
    put_le(out, x, 8);
}

/// Adds the two bytes of `x`, the most significant first.
pub fn put_u16_be(out: &mut Vec<u8>, x: u16)
    ensures
        final(out)@ == old(out)@ + be_bytes(x as nat, 2),
{
    out.push((x / 256) as u8);
    out.push((x % 256) as u8);
    proof {
        reveal_with_fuel(be_bytes, 3);
        assert((x / 256) % 256 == x / 256);
        assert(out@ =~= old(out)@ + be_bytes(x as nat, 2));
    }
}

/// Adds the four bytes of `x`, the most significant first.
pub fn put_u32_be(out: &mut Vec<u8>, x: u32)
    ensures
        final(out)@ == old(out)@ + be_bytes(x as nat, 4),
{
    put_u16_be(out, (x / 0x1_0000) as u16);
    put_u16_be(out, (x % 0x1_0000) as u16);
    proof {
        reveal_with_fuel(be_bytes, 5);
        let low = (x % 0x1_0000) as nat;
        let high = (x / 0x1_0000) as nat;
        assert(low % 256 == x as nat % 256);
        assert((low / 256) % 256 == (x as nat / 256) % 256);
        assert(x as nat / 256 / 256 == high);
        assert(be_bytes(x as nat, 4) =~= be_bytes(high, 2) + be_bytes(low, 2));
    }
}

/// The number in `buf[at..at + n]`, the least significant byte first.
pub fn get_le(buf: &[u8], at: usize, n: usize) -> (x: u64)
    requires
        n <= 8,
        at + n <= buf@.len(),
    ensures
        x == le_value(buf@.subrange(at as int, at + n)),
{
    let mut x: u64 = 0;
    let end: usize = buf.len();
    let mut left: usize = n;
    proof {
        lemma_byte_rooms();
        assert(buf@.subrange(at + n, at + n) =~= Seq::<u8>::empty());
    }
    while left > 0
        invariant
            left <= n <= 8,
            at + n <= end == buf@.len(),
            x == le_value(buf@.subrange(at + left, at + n)),
        decreases left,
    {
        let ghost tail = buf@.subrange(at + left, at + n);
        let ghost whole = buf@.subrange(at + left - 1, at + n);
        proof {
            lemma_le_value(tail);
            lemma_le_value(whole);
            reveal_with_fuel(byte_room, 9);
            assert(whole.drop_first() =~= tail);
            assert(whole[0] == buf@[at + left - 1]);
        }
        x = x * 256 + buf[at + left - 1] as u64;
        left -= 1;
    }
    x
}

/// The number in the four bytes at `at`, the least significant first.
pub fn get_u32_le(buf: &[u8], at: usize) -> (x: u32)
    requires
        at + 4 <= buf@.len(),
    ensures
        x == le_value(buf@.subrange(at as int, at + 4)),
{
    proof {
        lemma_le_value(buf@.subrange(at as int, at + 4));
        lemma_byte_rooms();
    }
    get_le(buf, at, 4) as u32
}

/// The number in the eight bytes at `at`, the least significant first.
pub fn get_u64_le(buf: &[u8], at: usize) -> (x: u64)
    requires
        at + 8 <= buf@.len(),
    ensures
        x == le_value(buf@.subrange(at as int, at + 8)),
{
    get_le(buf, at, 8)
}

/// The number in the two bytes at `at`, the most significant first.
pub fn get_u16_be(buf: &[u8], at: usize) -> (x: u16)
    requires
        at + 2 <= buf@.len(),
    ensures
        x == be_value(buf@.subrange(at as int, at + 2)),
{
    proof {
        let s = buf@.subrange(at as int, at + 2);
        reveal_with_fuel(be_value, 3);
        assert(s.drop_last().last() == buf@[at as int]);
        assert(s.last() == buf@[at + 1]);
        assert(s.drop_last().drop_last() =~= Seq::<u8>::empty());
    }
    buf[at] as u16 * 256 + buf[at + 1] as u16
}

/// The number in the four bytes at `at`, the most significant first.
pub fn get_u32_be(buf: &[u8], at: usize) -> (x: u32)
    requires
        at + 4 <= buf@.len(),
    ensures
        x == be_value(buf@.subrange(at as int, at + 4)),
{
    proof {
        let s = buf@.subrange(at as int, at + 4);
        reveal_with_fuel(be_value, 5);
        let s3 = s.drop_last();
        let s2 = s3.drop_last();
        let s1 = s2.drop_last();
        assert(s.last() == buf@[at + 3]);
        assert(s3.last() == buf@[at + 2]);
        assert(s2.last() == buf@[at + 1]);
        assert(s1.last() == buf@[at as int]);
        assert(s1.drop_last() =~= Seq::<u8>::empty());
    }
    ((buf[at] as u32 * 256 + buf[at + 1] as u32) * 256 + buf[at + 2] as u32) * 256 + buf[at
        + 3] as u32
}

/// Adds `piece` to the end of `out`.
pub fn put_bytes(out: &mut Vec<u8>, piece: &[u8])
    ensures
        final(out)@ == old(out)@ + piece@,
{
    out.extend_from_slice(piece);
    assert(out@ =~= old(out)@ + piece@);
}

/// A copy of `buf[from..to]`.
pub fn copy_range(buf: &[u8], from: usize, to: usize) -> (piece: Vec<u8>)
    requires
        from <= to <= buf@.len(),
    ensures
        piece@ == buf@.subrange(from as int, to as int),
{
    let mut piece: Vec<u8> = Vec::new();
    put_bytes(&mut piece, &buf[from..to]);
    assert(piece@ =~= buf@.subrange(from as int, to as int));
    piece
}

/// Whether two runs of bytes are the same.
pub fn same_bytes(a: &[u8], b: &[u8]) -> (same: bool)
    ensures
        same == (a@ == b@),
{
    if a.len() != b.len() {
        return false;
    }
    let mut i: usize = 0;
    while i < a.len()
        invariant
            a@.len() == b@.len(),
            i <= a@.len(),
            forall|j: int| 0 <= j < i ==> a@[j] == b@[j],
        decreases a@.len() - i,
    {
        if a[i] != b[i] {
            return false;
        }
        i += 1;
    }
    assert(a@ =~= b@);
    true
}

/// Numbers of two and of four bytes, byte by byte.
pub proof fn bytes_of_small_numbers(x: nat)
    ensures
        x < 0x1_0000 ==> be_bytes(x, 2) == seq![(x / 0x100) as u8, (x % 0x100) as u8],
        x < 0x1_0000 ==> le_bytes(x, 2) == seq![(x % 0x100) as u8, (x / 0x100) as u8],
        x < 0x1_0000_0000 ==> be_bytes(x, 4) == seq![
            (x / 0x100_0000) as u8,
            (x / 0x1_0000 % 0x100) as u8,
            (x / 0x100 % 0x100) as u8,
            (x % 0x100) as u8,
        ],
        x < 0x1_0000_0000 ==> le_bytes(x, 4) == seq![
            (x % 0x100) as u8,
            (x / 0x100 % 0x100) as u8,
            (x / 0x1_0000 % 0x100) as u8,
            (x / 0x100_0000) as u8,
        ],
{
    reveal_with_fuel(be_bytes, 5);
    reveal_with_fuel(le_bytes, 5);
    assert(x / 0x100 / 0x100 == x / 0x1_0000);
    assert(x / 0x1_0000 / 0x100 == x / 0x100_0000);
    if x < 0x1_0000 {
        assert(be_bytes(x, 2) =~= seq![(x / 0x100) as u8, (x % 0x100) as u8]);
        assert(le_bytes(x, 2) =~= seq![(x % 0x100) as u8, (x / 0x100) as u8]);
    }
    if x < 0x1_0000_0000 {
        assert(be_bytes(x, 4) =~= seq![
            (x / 0x100_0000) as u8,
            (x / 0x1_0000 % 0x100) as u8,
            (x / 0x100 % 0x100) as u8,
            (x % 0x100) as u8,
        ]);
        assert(le_bytes(x, 4) =~= seq![
            (x % 0x100) as u8,
            (x / 0x100 % 0x100) as u8,
            (x / 0x1_0000 % 0x100) as u8,
            (x / 0x100_0000) as u8,
        ]);
    }
}

/// The number that four bytes stand for, in either order.
pub proof fn values_of_four_bytes(a: u8, b: u8, c: u8, d: u8)
    ensures
        be_value(seq![a, b]) == 0x100 * a + b,
        le_value(seq![a, b]) == a + 0x100 * b,
        be_value(seq![a, b, c, d]) == 0x100_0000 * a + 0x1_0000 * b + 0x100 * c + d,
        le_value(seq![a, b, c, d]) == a + 0x100 * b + 0x1_0000 * c + 0x100_0000 * d,
{
    reveal_with_fuel(be_value, 5);
    reveal_with_fuel(le_value, 5);
    assert(seq![a, b, c, d].drop_last() =~= seq![a, b, c]);
    assert(seq![a, b, c].drop_last() =~= seq![a, b]);
    assert(seq![a, b].drop_last() =~= seq![a]);
    assert(seq![a].drop_last() =~= Seq::<u8>::empty());
    assert(seq![a, b, c, d].drop_first() =~= seq![b, c, d]);
    assert(seq![b, c, d].drop_first() =~= seq![c, d]);
    assert(seq![c, d].drop_first() =~= seq![d]);
    assert(seq![d].drop_first() =~= Seq::<u8>::empty());
    assert(seq![a, b].drop_first() =~= seq![b]);
    assert(seq![b].drop_first() =~= Seq::<u8>::empty());
}

/// Byte `i` of a number is worth two hundred and fifty-six times as much as the
/// one before it, counted from the first in the one order and from the last in the
/// other.
pub proof fn every_byte_has_its_worth(x: nat, n: nat, i: nat)
    requires
        i < n,
    ensures
        le_bytes(x, n)[i as int] == (x / byte_room(i)) % 256,
        be_bytes(x, n)[n - 1 - i] == (x / byte_room(i)) % 256,
    decreases n,
{
    lemma_le_bytes_len(x, n);
    lemma_be_bytes_len(x, n);
    let (less, fewer) = (x / 256, (n - 1) as nat);
    lemma_le_bytes_len(less, fewer);
    lemma_be_bytes_len(less, fewer);
    if i == 0 {
        assert(byte_room(0) == 1);
        assert(x / 1 == x);
    } else {
        every_byte_has_its_worth(less, fewer, (i - 1) as nat);
        lemma_byte_room_positive((i - 1) as nat);
        let room = byte_room((i - 1) as nat);
        assert(byte_room(i) == 256 * room);
        vstd::arithmetic::div_mod::lemma_div_denominator(x as int, 256, room as int);
        assert(le_bytes(x, n)[i as int] == le_bytes(less, fewer)[i - 1]);
        assert(be_bytes(x, n)[n - 1 - i] == be_bytes(less, fewer)[fewer - 1 - (i - 1)]);
    }
}

proof fn lemma_byte_room_positive(n: nat)
    ensures
        byte_room(n) > 0,
    decreases n,
{
    if n > 0 {
        lemma_byte_room_positive((n - 1) as nat);
    }
}

} // verus!
