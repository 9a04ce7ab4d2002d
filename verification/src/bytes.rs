//! Little-endian byte strings in normal form: without zero bytes at the end.
use vstd::prelude::*;

verus! {

/// The number that a byte string holds, least significant byte first.
pub open spec fn le_value(bytes: Seq<u8>) -> nat
    decreases bytes.len(),
{
    if bytes.len() == 0 {
        0
    } else {
        bytes[0] as nat + 256 * le_value(bytes.drop_first())
    }
}

/// The shortest byte string that holds a number.
pub open spec fn le_bytes(n: nat) -> Seq<u8>
    decreases n,
{
    if n == 0 {
        Seq::empty()
    } else {
        seq![(n % 256) as u8] + le_bytes(n / 256)
    }
}

/// A byte string without the zero bytes at its end.
pub open spec fn trimmed(bytes: Seq<u8>) -> Seq<u8>
    decreases bytes.len(),
{
    if bytes.len() > 0 && bytes.last() == 0 {
        trimmed(bytes.drop_last())
    } else {
        bytes
    }
}

/// How many numbers fit in a byte string of the given length.
pub open spec fn pow256(len: nat) -> nat
    decreases len,
{
    if len == 0 {
        1
    } else {
        256 * pow256((len - 1) as nat)
    }
}

/// Eight bytes hold exactly the numbers of a `u64`.
pub proof fn lemma_pow256_u64()
    ensures
        pow256(1) == 256,
        pow256(8) == u64::MAX + 1,
{
    reveal_with_fuel(pow256, 9);
}

pub proof fn lemma_pow256_monotonic(a: nat, b: nat)
    requires
        a <= b,
    ensures
        pow256(a) <= pow256(b),
    decreases b,
{
    if a < b {
        lemma_pow256_monotonic(a, (b - 1) as nat);
    }
}

/// A byte string of a given length holds a number below the power of 256 with that exponent.
pub proof fn lemma_le_value_bound(bytes: Seq<u8>)
    ensures
        le_value(bytes) < pow256(bytes.len()),
    decreases bytes.len(),
{
    if bytes.len() > 0 {
        lemma_le_value_bound(bytes.drop_first());
    }
}

/// Writing a number and reading it back gives the number.
pub proof fn lemma_le_value_of_le_bytes(n: nat)
    ensures
        le_value(le_bytes(n)) == n,
    decreases n,
{
    if n > 0 {
        lemma_le_value_of_le_bytes(n / 256);
        assert(le_bytes(n).drop_first() =~= le_bytes(n / 256));
    }
}

/// A number below the power of 256 with exponent `len` is written in at most `len` bytes.
pub proof fn lemma_le_bytes_len(n: nat, len: nat)
    requires
        n < pow256(len),
    ensures
        le_bytes(n).len() <= len,
    decreases len,
{
    if n > 0 {
        lemma_le_bytes_len(n / 256, (len - 1) as nat);
    }
}

/// Whether a byte string has no zero byte at its end.
pub open spec fn is_normal(bytes: Seq<u8>) -> bool {
    bytes.len() > 0 ==> bytes.last() != 0
}

/// A written number is in normal form.
pub proof fn lemma_le_bytes_normal(n: nat)
    ensures
        is_normal(le_bytes(n)),
        n > 0 ==> le_bytes(n).len() > 0,
    decreases n,
{
    if n > 0 {
        lemma_le_bytes_normal(n / 256);
        if n / 256 == 0 {
            assert(le_bytes(n) =~= seq![(n % 256) as u8]);
        } else {
            assert(le_bytes(n).last() == le_bytes(n / 256).last());
        }
    }
}

/// A trimmed byte string is in normal form, and holds the same number as before.
pub proof fn lemma_trimmed_normal(bytes: Seq<u8>)
    ensures
        is_normal(trimmed(bytes)),
        le_value(trimmed(bytes)) == le_value(bytes),
    decreases bytes.len(),
{
    if bytes.len() > 0 && bytes.last() == 0 {
        lemma_trimmed_normal(bytes.drop_last());
        lemma_le_value_zero_end(bytes);
    }
}

/// A zero byte at the end adds nothing to the number.
proof fn lemma_le_value_zero_end(bytes: Seq<u8>)
    requires
        bytes.len() > 0,
        bytes.last() == 0,
    ensures
        le_value(bytes.drop_last()) == le_value(bytes),
    decreases bytes.len(),
{
    if bytes.len() > 1 {
        lemma_le_value_zero_end(bytes.drop_first());
        assert(bytes.drop_first().drop_last() =~= bytes.drop_last().drop_first());
    } else {
        reveal_with_fuel(le_value, 2);
    }
}

/// Reads a byte string of at most eight bytes, least significant byte first.
pub fn read_le(bytes: &Vec<u8>) -> (n: u64)
    requires
        bytes@.len() <= 8,
    ensures
        n == le_value(bytes@),
{
    let mut n: u64 = 0;
    let mut i: usize = bytes.len();
    proof {
        lemma_pow256_u64();
        assert(bytes@.skip(i as int) =~= Seq::empty());
    }
    while i > 0
        invariant
            i <= bytes@.len() <= 8,
            n == le_value(bytes@.skip(i as int)),
        decreases i,
    {
        proof {
            let rest = bytes@.skip(i as int);
            assert(bytes@.skip(i - 1).drop_first() =~= rest);
            lemma_le_value_bound(rest);
            lemma_pow256_monotonic(rest.len(), 7);
            lemma_pow256_u64();
        }
        i -= 1;
        n = n * 256 + bytes[i] as u64;
    }
    assert(bytes@.skip(0) =~= bytes@);
    n
}

/// Writes a number in as few bytes as possible, least significant byte first.
pub fn write_le(n: u64) -> (bytes: Vec<u8>)
    ensures
        bytes@ == le_bytes(n as nat),
{
    let mut bytes: Vec<u8> = Vec::new();
    let mut rest: u64 = n;
    assert(bytes@ + le_bytes(rest as nat) =~= le_bytes(n as nat));
    while rest > 0
        invariant
            bytes@ + le_bytes(rest as nat) == le_bytes(n as nat),
        decreases rest,
    {
        let ghost before = bytes@;
        let ghost number = rest as nat;
        bytes.push((rest % 256) as u8);
        rest = rest / 256;
        assert(bytes@ + le_bytes(rest as nat) =~= before + le_bytes(number));
    }
    assert(bytes@ + le_bytes(0) =~= bytes@);
    bytes
}

/// Copies a digest without the zero bytes at its end.
pub fn trim(digest: &[u8; 32]) -> (bytes: Vec<u8>)
    ensures
        bytes@ == trimmed(digest@),
{
    let mut len: usize = 32;
    assert(digest@.take(32) =~= digest@);
    while len > 0 && digest[len - 1] == 0
        invariant
            len <= 32,
            trimmed(digest@.take(len as int)) == trimmed(digest@),
        decreases len,
    {
        assert(digest@.take(len as int).drop_last() =~= digest@.take(len - 1));
        len -= 1;
    }
    let mut bytes: Vec<u8> = Vec::new();
    let mut i: usize = 0;
    while i < len
        invariant
            i <= len <= 32,
            bytes@ == digest@.take(i as int),
        decreases len - i,
    {
        bytes.push(digest[i]);
        i += 1;
        assert(bytes@ =~= digest@.take(i as int));
    }
    bytes
}

} // verus!
