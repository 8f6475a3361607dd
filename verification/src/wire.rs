//! Little-endian numbers: rows of bytes and the values they stand for.

use vstd::prelude::*;

verus! {

/// The value of a row of bytes, the least significant byte first.
pub open spec fn le_value(bytes: Seq<u8>) -> nat
    decreases bytes.len(),
{
    if bytes.len() == 0 {
        0
    } else {
        bytes[0] as nat + 256 * le_value(bytes.skip(1))
    }
}

/// The last `n` base-256 digits of a value, the least significant one first.
pub open spec fn le_bytes(v: nat, n: nat) -> Seq<u8>
    decreases n,
{
    if n == 0 {
        Seq::empty()
    } else {
        seq![(v % 256) as u8] + le_bytes(v / 256, (n - 1) as nat)
    }
}

/// How many values `n` bytes can tell apart.
pub open spec fn byte_capacity(n: nat) -> nat
    decreases n,
{
    if n == 0 {
        1
    } else {
        256 * byte_capacity((n - 1) as nat)
    }
}

/// The two bytes of a 16-bit value in the other order.
pub open spec fn swapped(v: u16) -> u16 {
    ((v % 256) * 256 + v / 256) as u16
}

/// The two bytes of a 16-bit value in the other order.
pub fn swap_bytes(v: u16) -> (r: u16)
    ensures
        r == swapped(v),
{
    (v % 256) * 256 + v / 256
}

/// As many bytes as the row is long tell its value apart from every other row's.
pub proof fn lemma_le_value_bound(bytes: Seq<u8>)
    ensures
        le_value(bytes) < byte_capacity(bytes.len()),
    decreases bytes.len(),
{
    if bytes.len() > 0 {
        lemma_le_value_bound(bytes.skip(1));
    }
}

/// Eight bytes hold exactly the 64-bit values.
pub proof fn lemma_eight_bytes()
    ensures
        byte_capacity(8) == 0x1_0000_0000_0000_0000,
{
    reveal_with_fuel(byte_capacity, 9);
}

/// The digits of a value are as many as were asked for.
pub proof fn lemma_le_bytes_len(v: nat, n: nat)
    ensures
        le_bytes(v, n).len() == n,
    decreases n,
{
    if n > 0 {
        lemma_le_bytes_len(v / 256, (n - 1) as nat);
    }
}

/// Taking a row of bytes for a number and writing the number out again gives the row back.
pub proof fn law_bytes_read_back(bytes: Seq<u8>)
    ensures
        le_bytes(le_value(bytes), bytes.len()) == bytes,
    decreases bytes.len(),
{
    if bytes.len() == 0 {
        assert(le_bytes(le_value(bytes), 0) =~= bytes);
    } else {
        let rest = bytes.skip(1);
        law_bytes_read_back(rest);
        let v = le_value(bytes);
        assert(v % 256 == bytes[0] as nat && v / 256 == le_value(rest)) by (nonlinear_arith)
            requires
                v == bytes[0] as nat + 256 * le_value(rest),
                bytes[0] < 256,
        ;
        assert(le_bytes(v, bytes.len()) =~= bytes);
    }
}

/// Writing a number out in `n` bytes and reading it again gives the number back, where `n`
/// bytes can hold it.
pub proof fn law_value_reads_back(v: nat, n: nat)
    requires
        v < byte_capacity(n),
    ensures
        le_value(le_bytes(v, n)) == v,
    decreases n,
{
    if n > 0 {
        law_value_reads_back(v / 256, (n - 1) as nat);
        assert(le_bytes(v, n).skip(1) =~= le_bytes(v / 256, (n - 1) as nat));
    }
}

/// Swapping the bytes twice changes nothing.
pub proof fn law_swap_undoes_itself(v: u16)
    ensures
        swapped(swapped(v)) == v,
{
}

/// A swapped value sent in little-endian order is the value in big-endian order.
pub proof fn law_swapped_is_big_endian(v: u16)
    ensures
        le_bytes(swapped(v) as nat, 2) == seq![(v / 256) as u8, (v % 256) as u8],
{
    reveal_with_fuel(le_bytes, 3);
    assert(le_bytes(swapped(v) as nat, 2) =~= seq![(v / 256) as u8, (v % 256) as u8]);
}

/// The value of the eight bytes that begin at `at`.
pub fn read_word(bytes: &[u8], at: usize) -> (word: u64)
    requires
        at + 8 <= bytes@.len(),
    ensures
        word as nat == le_value(bytes@.subrange(at as int, at + 8)),
{
    let mut word: u64 = 0;
    let mut left: usize = 8;
    while left > 0
        invariant
            left <= 8,
            at + 8 <= bytes.len(),
            word as nat == le_value(bytes@.subrange(at + left, at + 8)),
        decreases left,
    {
        left -= 1;
        let ghost longer = bytes@.subrange(at + left, at + 8);
        proof {
            assert(longer.skip(1) =~= bytes@.subrange(at + left + 1, at + 8));
            lemma_le_value_bound(longer);
            lemma_capacity_grows(longer.len(), 8);
            lemma_eight_bytes();
        }
        word = word * 256 + bytes[at + left] as u64;
    }
    word
}

/// More bytes hold more values.
proof fn lemma_capacity_grows(n: nat, m: nat)
    requires
        n <= m,
    ensures
        byte_capacity(n) <= byte_capacity(m),
    decreases m,
{
    if n < m {
        lemma_capacity_grows(n, (m - 1) as nat);
    }
}

/// Appends the eight bytes of a word.
pub fn push_word(out: &mut Vec<u8>, word: u64)
    ensures
        final(out)@ == old(out)@ + le_bytes(word as nat, 8),
{
    let mut rest: u64 = word;
    let mut left: usize = 8;
    proof {
        assert(out@ + le_bytes(word as nat, 8) == old(out)@ + le_bytes(word as nat, 8));
    }
    while left > 0
        invariant
            left <= 8,
            out@ + le_bytes(rest as nat, left as nat) == old(out)@ + le_bytes(word as nat, 8),
        decreases left,
    {
        let ghost before = out@;
        out.push((rest % 256) as u8);
        assert(before + le_bytes(rest as nat, left as nat) =~= out@ + le_bytes(
            (rest / 256) as nat,
            (left - 1) as nat,
        ));
        rest = rest / 256;
        left -= 1;
    }
    assert(out@ + le_bytes(rest as nat, 0) =~= out@);
}

} // verus!
