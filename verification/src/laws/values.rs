//! What numbers, digests and error texts are made of, byte by byte and character by character.
use vstd::arithmetic::power::pow;
use vstd::prelude::*;
use crate::bytes::{le_bytes, le_value, pow256, read_le, trim, trimmed, write_le};
use crate::text::{decimal, join, write_decimal};
use crate::value::{decoded, digest_value, number_value};
use crate::value::{AlignedValue, Alignment, AlignmentAtom, AlignmentSegment};
use crate::value::{InvalidBuiltinDecode, SegmentView, ValueView};

verus! {

/// The powers that bound byte strings are the powers of 256.
pub proof fn law_pow256_is_a_power(len: nat)
    ensures
        pow256(len) == pow(256, len),
    decreases len,
{
    reveal(pow);
    if len > 0 {
        law_pow256_is_a_power((len - 1) as nat);
    }
}

/// Byte strings hold numbers to the base 256, least significant byte first: a single byte holds
/// itself, and bytes that come later count for as many powers of 256 more as there are bytes
/// before them.
pub proof fn law_bytes_count_to_the_base_256(byte: u8, low: Seq<u8>, high: Seq<u8>)
    ensures
        le_value(Seq::empty()) == 0,
        le_value(seq![byte]) == byte,
        le_value(low + high) == le_value(low) + pow(256, low.len()) * le_value(high),
{
    lemma_short_bytes(byte);
    lemma_bytes_join(low, high);
}

proof fn lemma_short_bytes(byte: u8)
    ensures
        le_value(Seq::empty()) == 0,
        le_value(seq![byte]) == byte,
{
    assert(seq![byte].drop_first() =~= Seq::empty());
    assert(le_value(Seq::<u8>::empty()) == 0);
}

proof fn lemma_bytes_join(low: Seq<u8>, high: Seq<u8>)
    ensures
        le_value(low + high) == le_value(low) + pow(256, low.len()) * le_value(high),
    decreases low.len(),
{
    let v = le_value(high) as int;
    if low.len() == 0 {
        assert(low + high =~= high);
        vstd::arithmetic::power::lemma_pow0(256);
        assert(1 * v == v);
    } else {
        let tail = low.drop_first();
        let p = pow(256, tail.len());
        lemma_bytes_join(tail, high);
        assert((low + high).drop_first() =~= tail + high);
        assert((low + high)[0] == low[0]);
        vstd::arithmetic::power::lemma_pow1(256);
        vstd::arithmetic::power::lemma_pow_adds(256, 1, tail.len());
        assert(pow(256, low.len()) == 256 * p);
        assert(256 * (le_value(tail) + p * v) == 256 * le_value(tail) + (256 * p) * v)
            by (nonlinear_arith);
        assert(le_value(low) == low[0] as nat + 256 * le_value(tail));
        assert(le_value(low + high) == low[0] as nat + 256 * le_value(tail + high));
    }
}

/// Of the byte strings without a zero byte at the end, no two hold the same number.
pub proof fn law_normal_bytes_are_unique(a: Seq<u8>, b: Seq<u8>)
    requires
        a.len() > 0 ==> a.last() != 0,
        b.len() > 0 ==> b.last() != 0,
        le_value(a) == le_value(b),
    ensures
        a == b,
    decreases a.len() + b.len(),
{
    if a.len() == 0 || b.len() == 0 {
        if a.len() > 0 {
            lemma_positive(a);
        }
        if b.len() > 0 {
            lemma_positive(b);
        }
        assert(a =~= b);
    } else {
        let ta = a.drop_first();
        let tb = b.drop_first();
        assert(a[0] == b[0] && le_value(ta) == le_value(tb));
        assert(ta.len() > 0 ==> ta.last() == a.last());
        assert(tb.len() > 0 ==> tb.last() == b.last());
        law_normal_bytes_are_unique(ta, tb);
        assert(a =~= seq![a[0]] + ta);
        assert(b =~= seq![b[0]] + tb);
    }
}

/// A byte string that ends in another byte than zero holds a positive number.
proof fn lemma_positive(s: Seq<u8>)
    requires
        s.len() > 0,
        s.last() != 0,
    ensures
        le_value(s) > 0,
    decreases s.len(),
{
    if s.len() > 1 {
        assert(s.drop_first().last() == s.last());
        lemma_positive(s.drop_first());
    }
}

/// Trimming keeps the front of a byte string, drops zero bytes only, and leaves none at the end.
pub proof fn law_trimming_drops_zeros_at_the_end(s: Seq<u8>)
    ensures
        trimmed(s).len() <= s.len(),
        trimmed(s) == s.take(trimmed(s).len() as int),
        forall|i: int| trimmed(s).len() <= i < s.len() ==> #[trigger] s[i] == 0,
        trimmed(s).len() > 0 ==> trimmed(s).last() != 0,
    decreases s.len(),
{
    if s.len() > 0 && s.last() == 0 {
        let front = s.drop_last();
        law_trimming_drops_zeros_at_the_end(front);
        assert(s.take(trimmed(s).len() as int) =~= front.take(trimmed(s).len() as int));
        assert forall|i: int| trimmed(s).len() <= i < s.len() implies #[trigger] s[i] == 0 by {
            if i < front.len() {
                assert(front[i] == 0);
            }
        }
    } else {
        assert(s.take(s.len() as int) =~= s);
    }
}

/// Writing a number gives bytes that hold it, without a zero byte at the end, and reading gives
/// the number that the bytes hold.
pub proof fn law_numbers_are_written_and_read(n: u64, written: Vec<u8>, bytes: Vec<u8>, read: u64)
    requires
        call_ensures(write_le, (n,), written),
        call_ensures(read_le, (&bytes,), read),
    ensures
        le_value(written@) == n,
        written@.len() > 0 ==> written@.last() != 0,
        written@.len() <= 8,
        read == le_value(bytes@),
        written@ == bytes@ ==> read == n,
{
    crate::bytes::lemma_le_value_of_le_bytes(n as nat);
    crate::bytes::lemma_le_bytes_normal(n as nat);
    crate::bytes::lemma_pow256_u64();
    crate::bytes::lemma_le_bytes_len(n as nat, 8);
}

/// A digest is written without the zero bytes at its end, and with nothing else left out.
pub proof fn law_digests_are_trimmed(digest: [u8; 32], written: Vec<u8>)
    requires
        call_ensures(trim, (&digest,), written),
    ensures
        written@.len() <= 32,
        forall|i: int| 0 <= i < written@.len() ==> #[trigger] written@[i] == digest@[i],
        forall|i: int| written@.len() <= i < 32 ==> #[trigger] digest@[i] == 0,
        written@.len() > 0 ==> written@.last() != 0,
{
    law_trimming_drops_zeros_at_the_end(digest@);
}

/// What a value reads as: a single atom of at most `width` bytes reads as the number that its
/// bytes hold, and nothing else reads as a number.
pub proof fn law_single_short_atoms_are_numbers(atoms: Seq<Seq<u8>>, alignment: Seq<SegmentView>, width: nat)
    ensures
        ({
            let value = ValueView { atoms, alignment };
            &&& atoms.len() == 1 && atoms[0].len() <= width ==> decoded(value, width) == Some(
                le_value(atoms[0]),
            )
            &&& atoms.len() != 1 ==> decoded(value, width) is None
            &&& atoms.len() == 1 && atoms[0].len() > width ==> decoded(value, width) is None
        }),
{
}

/// A value is read as a `u8` where it is one atom of at most one byte: that byte, or zero where
/// there is none. Every other value is refused by name.
pub proof fn law_reading_a_u8(value: AlignedValue, r: Result<u8, InvalidBuiltinDecode>)
    requires
        call_ensures(AlignedValue::to_u8, (&value,), r),
    ensures
        value.value@.len() == 1 && value.value@[0]@.len() == 0 ==> r == Ok::<
            u8,
            InvalidBuiltinDecode,
        >(0),
        value.value@.len() == 1 && value.value@[0]@.len() == 1 ==> r == Ok::<
            u8,
            InvalidBuiltinDecode,
        >(value.value@[0]@[0]),
        value.value@.len() != 1 || value.value@[0]@.len() > 1 ==> r == Err::<u8, _>(
            InvalidBuiltinDecode("u8"),
        ),
{
    reveal_with_fuel(le_value, 2);
    if value.value@.len() == 1 {
        assert(value@.atoms[0] == value.value@[0]@);
    }
}

/// A value is read as a `u64` where it is one atom of at most eight bytes: the number that the
/// bytes hold. Every other value is refused by name.
pub proof fn law_reading_a_u64(value: AlignedValue, r: Result<u64, InvalidBuiltinDecode>)
    requires
        call_ensures(AlignedValue::to_u64, (&value,), r),
    ensures
        value.value@.len() == 1 && value.value@[0]@.len() <= 8 ==> r is Ok && r->Ok_0 == le_value(
            value.value@[0]@,
        ),
        value.value@.len() != 1 || value.value@[0]@.len() > 8 ==> r == Err::<u64, _>(
            InvalidBuiltinDecode("u64"),
        ),
{
    if value.value@.len() == 1 {
        assert(value@.atoms[0] == value.value@[0]@);
    }
}

/// Whether a value is one atom, aligned as exactly one byte string of at most `width` bytes.
pub open spec fn is_one_byte_string(value: AlignedValue, width: u32) -> bool {
    &&& value.value@.len() == 1
    &&& value.alignment.segments@.len() == 1
    &&& value.alignment.segments@[0] == AlignmentSegment::Atom(AlignmentAtom::Bytes(width))
}

/// The same, over the mathematical content of a value.
proof fn lemma_one_byte_string(value: AlignedValue, atom: Seq<u8>, width: u32)
    requires
        value@.atoms == seq![atom],
        value@.alignment == seq![SegmentView::Atom(AlignmentAtom::Bytes(width))],
    ensures
        is_one_byte_string(value, width),
        value.value@[0]@ == atom,
{
    assert(value@.atoms.len() == 1);
    assert(value@.atoms[0] == value.value@[0]@);
    law_alignments_are_their_segments(value.alignment, value.alignment);
    assert(value@.alignment.len() == 1);
    assert(value@.alignment[0] == value.alignment.segments@[0]@);
    law_segments_are_atoms_or_choices(
        value.alignment.segments@[0],
        AlignmentSegment::Atom(AlignmentAtom::Bytes(width)),
    );
}

/// A `u8` makes one atom that holds it, without zero bytes at the end, aligned to one byte.
pub proof fn law_u8_values(n: u8, value: AlignedValue)
    requires
        call_ensures(<AlignedValue as From<u8>>::from, (n,), value),
    ensures
        is_one_byte_string(value, 1),
        n == 0 ==> value.value@[0]@ == Seq::<u8>::empty(),
        n != 0 ==> value.value@[0]@ == seq![n],
{
    reveal_with_fuel(le_bytes, 3);
    lemma_one_byte_string(value, le_bytes(n as nat), 1);
    if n != 0 {
        assert(le_bytes(n as nat) =~= seq![n]);
    }
}

/// A `u64` makes one atom that holds it, without zero bytes at the end, aligned to eight bytes.
pub proof fn law_u64_values(n: u64, value: AlignedValue)
    requires
        call_ensures(<AlignedValue as From<u64>>::from, (n,), value),
    ensures
        is_one_byte_string(value, 8),
        le_value(value.value@[0]@) == n,
        value.value@[0]@.len() <= 8,
        value.value@[0]@.len() > 0 ==> value.value@[0]@.last() != 0,
{
    lemma_one_byte_string(value, le_bytes(n as nat), 8);
    crate::bytes::lemma_le_value_of_le_bytes(n as nat);
    crate::bytes::lemma_le_bytes_normal(n as nat);
    crate::bytes::lemma_pow256_u64();
    crate::bytes::lemma_le_bytes_len(n as nat, 8);
}

/// Numbers that are made into values read back, a `u8` also as a `u64`, and a `u64` as a `u8`
/// exactly where it fits.
pub proof fn law_numbers_read_back(
    n: u8,
    narrow: AlignedValue,
    m: u64,
    wide: AlignedValue,
    narrow_u8: Result<u8, InvalidBuiltinDecode>,
    narrow_u64: Result<u64, InvalidBuiltinDecode>,
    wide_u8: Result<u8, InvalidBuiltinDecode>,
    wide_u64: Result<u64, InvalidBuiltinDecode>,
)
    requires
        call_ensures(<AlignedValue as From<u8>>::from, (n,), narrow),
        call_ensures(<AlignedValue as From<u64>>::from, (m,), wide),
        call_ensures(AlignedValue::to_u8, (&narrow,), narrow_u8),
        call_ensures(AlignedValue::to_u64, (&narrow,), narrow_u64),
        call_ensures(AlignedValue::to_u8, (&wide,), wide_u8),
        call_ensures(AlignedValue::to_u64, (&wide,), wide_u64),
    ensures
        narrow_u8 == Ok::<u8, InvalidBuiltinDecode>(n),
        narrow_u64 == Ok::<u64, InvalidBuiltinDecode>(n as u64),
        wide_u64 == Ok::<u64, InvalidBuiltinDecode>(m),
        m < 256 ==> wide_u8 == Ok::<u8, InvalidBuiltinDecode>(m as u8),
        m >= 256 ==> wide_u8 == Err::<u8, _>(InvalidBuiltinDecode("u8")),
{
    crate::bytes::lemma_pow256_u64();
    super::law_number_keys_read_back(n as nat, 1, 1);
    super::law_number_keys_read_back(n as nat, 1, 8);
    super::law_number_keys_read_back(m as nat, 8, 1);
    super::law_number_keys_read_back(m as nat, 8, 8);
}

/// A digest makes one atom, the digest without the zero bytes at its end, aligned as exactly one
/// byte string of 32 bytes, which the atom fits.
pub proof fn law_digest_values(digest: [u8; 32], value: AlignedValue)
    requires
        call_ensures(AlignedValue::from_digest, (&digest,), value),
    ensures
        is_one_byte_string(value, 32),
        value.value@[0]@.len() <= 32,
        forall|i: int|
            0 <= i < value.value@[0]@.len() ==> #[trigger] value.value@[0]@[i] == digest@[i],
        forall|i: int| value.value@[0]@.len() <= i < 32 ==> #[trigger] digest@[i] == 0,
        value.value@[0]@.len() > 0 ==> value.value@[0]@.last() != 0,
{
    lemma_one_byte_string(value, trimmed(digest@), 32);
    law_trimming_drops_zeros_at_the_end(digest@);
}

/// Different digests make different values.
pub proof fn law_digest_values_differ(a: Seq<u8>, b: Seq<u8>)
    requires
        a.len() == b.len(),
        a != b,
    ensures
        digest_value(a) != digest_value(b),
{
    law_trimming_drops_zeros_at_the_end(a);
    law_trimming_drops_zeros_at_the_end(b);
    if digest_value(a) == digest_value(b) {
        assert(digest_value(a).atoms[0] == digest_value(b).atoms[0]);
        let t = trimmed(a);
        assert(t == trimmed(b));
        assert forall|i: int| 0 <= i < a.len() implies a[i] == b[i] by {
            if i < t.len() {
                assert(t[i] == a[i]);
                assert(t[i] == b[i]);
            }
        }
        assert(a =~= b);
    }
}

/// The value of a number and the value of a digest, in their parts: one atom each, and one
/// segment of alignment each.
pub proof fn law_values_have_one_atom_and_one_segment(n: nat, width: u32, digest: Seq<u8>)
    requires
        digest.len() == 32,
    ensures
        number_value(n, width).atoms.len() == 1,
        le_value(number_value(n, width).atoms[0]) == n,
        number_value(n, width).atoms[0].len() > 0 ==> number_value(n, width).atoms[0].last() != 0,
        number_value(n, width).alignment == seq![SegmentView::Atom(AlignmentAtom::Bytes(width))],
        digest_value(digest).atoms.len() == 1,
        digest_value(digest).atoms[0].len() <= 32,
        digest_value(digest).atoms[0] == digest.take(digest_value(digest).atoms[0].len() as int),
        forall|i: int|
            digest_value(digest).atoms[0].len() <= i < 32 ==> #[trigger] digest[i] == 0,
        digest_value(digest).atoms[0].len() > 0 ==> digest_value(digest).atoms[0].last() != 0,
        digest_value(digest).alignment == seq![SegmentView::Atom(AlignmentAtom::Bytes(32))],
{
    crate::bytes::lemma_le_value_of_le_bytes(n);
    crate::bytes::lemma_le_bytes_normal(n);
    law_trimming_drops_zeros_at_the_end(digest);
}

/// Two segments are alike where they are the same atom, or choices between as many alignments
/// that are alike place by place.
pub proof fn law_segments_are_atoms_or_choices(a: AlignmentSegment, b: AlignmentSegment)
    ensures
        a@ == b@ <==> (match (a, b) {
            (AlignmentSegment::Atom(x), AlignmentSegment::Atom(y)) => x == y,
            (AlignmentSegment::Choice(x), AlignmentSegment::Choice(y)) => {
                &&& x@.len() == y@.len()
                &&& forall|i: int| 0 <= i < x@.len() ==> (#[trigger] x@[i])@ == y@[i]@
            },
            _ => false,
        }),
{
    reveal_with_fuel(<AlignmentSegment as View>::view, 2);
    match (a, b) {
        (AlignmentSegment::Choice(x), AlignmentSegment::Choice(y)) => {
            let va = a@->Choice_0;
            let vb = b@->Choice_0;
            assert(va.len() == x@.len() && vb.len() == y@.len());
            assert(forall|i: int| 0 <= i < x@.len() ==> va[i] == (#[trigger] x@[i])@);
            assert(forall|i: int| 0 <= i < y@.len() ==> vb[i] == (#[trigger] y@[i])@);
            if x@.len() == y@.len() && (forall|i: int|
                0 <= i < x@.len() ==> (#[trigger] x@[i])@ == y@[i]@) {
                assert forall|i: int| 0 <= i < va.len() implies va[i] == vb[i] by {
                    assert(x@[i]@ == y@[i]@);
                }
                assert(va =~= vb);
            }
            if a@ == b@ {
                assert forall|i: int| 0 <= i < x@.len() implies (#[trigger] x@[i])@ == y@[i]@ by {
                    assert(va[i] == vb[i]);
                    assert(vb[i] == y@[i]@);
                }
            }
        },
        _ => {},
    }
}

/// Two alignments are alike where they have as many segments, and these are alike place by
/// place.
pub proof fn law_alignments_are_their_segments(a: Alignment, b: Alignment)
    ensures
        a@.len() == a.segments@.len(),
        forall|i: int| 0 <= i < a@.len() ==> #[trigger] a@[i] == a.segments@[i]@,
        a@ == b@ <==> {
            &&& a.segments@.len() == b.segments@.len()
            &&& forall|i: int|
                0 <= i < a.segments@.len() ==> (#[trigger] a.segments@[i])@ == b.segments@[i]@
        },
{
    reveal_with_fuel(<Alignment as View>::view, 2);
    assert(forall|i: int| 0 <= i < a@.len() ==> #[trigger] a@[i] == a.segments@[i]@);
    assert(forall|i: int| 0 <= i < b@.len() ==> #[trigger] b@[i] == b.segments@[i]@);
    if a.segments@.len() == b.segments@.len() && (forall|i: int|
        0 <= i < a.segments@.len() ==> (#[trigger] a.segments@[i])@ == b.segments@[i]@) {
        assert forall|i: int| 0 <= i < a@.len() implies a@[i] == b@[i] by {
            assert(a.segments@[i]@ == b.segments@[i]@);
        }
        assert(a@ =~= b@);
    }
    if a@ == b@ {
        assert forall|i: int| 0 <= i < a.segments@.len() implies (#[trigger] a.segments@[i])@
            == b.segments@[i]@ by {
            assert(a@[i] == b@[i]);
        }
    }
}

/// Two values are alike where they have as many atoms, byte for byte the same, and alignments
/// that are alike.
pub proof fn law_values_are_their_atoms_and_alignment(a: AlignedValue, b: AlignedValue)
    ensures
        a@.atoms.len() == a.value@.len(),
        forall|i: int| 0 <= i < a@.atoms.len() ==> #[trigger] a@.atoms[i] == a.value@[i]@,
        a@.alignment == a.alignment@,
        a@ == b@ <==> {
            &&& a.value@.len() == b.value@.len()
            &&& forall|i: int| 0 <= i < a.value@.len() ==> (#[trigger] a.value@[i])@ == b.value@[i]@
            &&& a.alignment@ == b.alignment@
        },
{
    if a.value@.len() == b.value@.len() && (forall|i: int|
        0 <= i < a.value@.len() ==> (#[trigger] a.value@[i])@ == b.value@[i]@) {
        assert forall|i: int| 0 <= i < a@.atoms.len() implies a@.atoms[i] == b@.atoms[i] by {
            assert(a.value@[i]@ == b.value@[i]@);
        }
        assert(a@.atoms =~= b@.atoms);
    }
    if a@ == b@ {
        assert(a@.atoms.len() == b@.atoms.len());
        assert forall|i: int| 0 <= i < a.value@.len() implies (#[trigger] a.value@[i])@
            == b.value@[i]@ by {
            assert(a@.atoms[i] == a.value@[i]@);
            assert(b@.atoms[i] == b.value@[i]@);
        }
    }
}

/// The comparison of values, alignments and segments tells exactly whether they are alike, and a
/// copy is alike.
pub proof fn law_comparison_and_copies(
    a: AlignedValue,
    b: AlignedValue,
    values: bool,
    alignments: bool,
    segment: AlignmentSegment,
    other: AlignmentSegment,
    segments: bool,
    copy: AlignedValue,
)
    requires
        call_ensures(AlignedValue::same, (&a, &b), values),
        call_ensures(Alignment::same, (&a.alignment, &b.alignment), alignments),
        call_ensures(AlignmentSegment::same, (&segment, &other), segments),
        call_ensures(<AlignedValue as Clone>::clone, (&a,), copy),
    ensures
        alignments <==> a.alignment@ == b.alignment@,
        segments <==> segment@ == other@,
        values <==> {
            &&& a.value@.len() == b.value@.len()
            &&& forall|i: int| 0 <= i < a.value@.len() ==> (#[trigger] a.value@[i])@ == b.value@[i]@
            &&& alignments
        },
        copy@ == a@,
{
    law_values_are_their_atoms_and_alignment(a, b);
}

/// The number that a text of decimal digits stands for.
pub open spec fn digits_value(digits: Seq<char>) -> int
    decreases digits.len(),
{
    if digits.len() == 0 {
        0
    } else {
        digits_value(digits.drop_last()) * 10 + (digits.last() as int - '0' as int)
    }
}

/// The digits of the decimal notation are the ten characters from '0' on.
proof fn lemma_digit(d: nat)
    requires
        d < 10,
    ensures
        crate::text::digit(d) as int == '0' as int + d,
{
    reveal_strlit("0123456789");
}

/// Decimal notation is made of digits, stands for the number, and has no needless zero in front.
pub proof fn law_decimal_notation(n: nat)
    ensures
        decimal(n).len() > 0,
        forall|i: int| 0 <= i < decimal(n).len() ==> '0' <= #[trigger] decimal(n)[i] <= '9',
        digits_value(decimal(n)) == n,
        decimal(n).len() > 1 ==> decimal(n)[0] != '0',
        n > 0 ==> decimal(n)[0] != '0',
    decreases n,
{
    reveal_with_fuel(digits_value, 2);
    if n < 10 {
        lemma_digit(n);
        assert(decimal(n).drop_last() =~= Seq::empty());
    } else {
        law_decimal_notation(n / 10);
        lemma_digit(n % 10);
        assert(decimal(n).drop_last() =~= decimal(n / 10));
        assert forall|i: int| 0 <= i < decimal(n).len() implies '0' <= #[trigger] decimal(n)[i]
            <= '9' by {
            if i < decimal(n / 10).len() {
                assert(decimal(n)[i] == decimal(n / 10)[i]);
            }
        }
        assert(decimal(n)[0] == decimal(n / 10)[0]);
    }
}

/// A number is written as digits that stand for it, without a needless zero in front, and joining
/// puts one text after the other.
pub proof fn law_texts_are_put_together(n: u64, digits: String, head: &str, tail: &str, both: String)
    requires
        call_ensures(write_decimal, (n,), digits),
        call_ensures(join, (head, tail), both),
    ensures
        digits@.len() > 0,
        forall|i: int| 0 <= i < digits@.len() ==> '0' <= #[trigger] digits@[i] <= '9',
        digits_value(digits@) == n,
        digits@.len() > 1 ==> digits@[0] != '0',
        both@.len() == head@.len() + tail@.len(),
        both@.take(head@.len() as int) == head@,
        both@.skip(head@.len() as int) == tail@,
{
    law_decimal_notation(n as nat);
    assert(both@.take(head@.len() as int) =~= head@);
    assert(both@.skip(head@.len() as int) =~= tail@);
}

/// The text of a refused reading names the type between two fixed pieces.
pub proof fn law_decode_error_names_the_type(e: InvalidBuiltinDecode, text: String)
    requires
        call_ensures(InvalidBuiltinDecode::to_string, (&e,), text),
    ensures
        text@ == "failed to decode for built-in type "@ + e.0@ + " after successful typecheck"@,
        e.text() == text@,
{
}

} // verus!
