//! Aligned values: what cells hold, and what the levels of a state tree are keyed by.
use vstd::prelude::*;
use vstd::string::StringExecFns;
use crate::bytes::{read_le, trim, write_le};
use crate::text::join;

verus! {

/// How one atom of a value is laid out.
#[derive(Clone, Copy, Debug, PartialEq, Eq, Structural)]
pub enum AlignmentAtom {
    /// A digest of data of any size.
    Compress,
    /// A byte string of at most the given length.
    Bytes(u32),
    /// An element of the proof system's scalar field.
    Field,
}

/// One segment of an alignment: a single atom, or a choice between alignments.
#[derive(Debug)]
pub enum AlignmentSegment {
    Atom(AlignmentAtom),
    Choice(Vec<Alignment>),
}

/// The layout of a value, segment by segment.
#[derive(Debug)]
pub struct Alignment {
    pub segments: Vec<AlignmentSegment>,
}

/// The mathematical content of an [`AlignmentSegment`].
pub enum SegmentView {
    Atom(AlignmentAtom),
    Choice(Seq<Seq<SegmentView>>),
}

impl View for AlignmentSegment {
    type V = SegmentView;

    open spec fn view(&self) -> SegmentView
        decreases self,
    {
        match self {
            AlignmentSegment::Atom(a) => SegmentView::Atom(*a),
            AlignmentSegment::Choice(options) => SegmentView::Choice(
                Seq::new(
                    options@.len(),
                    |i: int|
                        if 0 <= i < options@.len() {
                            options@[i].view()
                        } else {
                            Seq::empty()
                        },
                ),
            ),
        }
    }
}

impl View for Alignment {
    type V = Seq<SegmentView>;

    open spec fn view(&self) -> Seq<SegmentView>
        decreases self,
    {
        Seq::new(
            self.segments@.len(),
            |i: int|
                if 0 <= i < self.segments@.len() {
                    self.segments@[i].view()
                } else {
                    arbitrary()
                },
        )
    }
}

impl AlignmentSegment {
    /// Whether two segments are the same.
    pub fn same(&self, other: &AlignmentSegment) -> (r: bool)
        ensures
            r == (self@ == other@),
        decreases self,
    {
        match (self, other) {
            (AlignmentSegment::Atom(a), AlignmentSegment::Atom(b)) => *a == *b,
            (AlignmentSegment::Choice(a), AlignmentSegment::Choice(b)) => {
                reveal_with_fuel(<AlignmentSegment as View>::view, 2);
                let ghost va = self@->Choice_0;
                let ghost vb = other@->Choice_0;
                if a.len() != b.len() {
                    assert(va.len() != vb.len());
                    return false;
                }
                let mut i: usize = 0;
                while i < a.len()
                    invariant
                        i <= a.len(),
                        a.len() == b.len(),
                        self == AlignmentSegment::Choice(*a),
                        va.len() == a.len(),
                        vb.len() == b.len(),
                        self@ == SegmentView::Choice(va),
                        other@ == SegmentView::Choice(vb),
                        forall|j: int| 0 <= j < a.len() ==> va[j] == #[trigger] a@[j]@,
                        forall|j: int| 0 <= j < b.len() ==> vb[j] == #[trigger] b@[j]@,
                        forall|j: int| 0 <= j < i ==> va[j] == vb[j],
                    decreases a.len() - i,
                {
                    if !a[i].same(&b[i]) {
                        assert(va[i as int] != vb[i as int]);
                        return false;
                    }
                    i += 1;
                }
                assert(va =~= vb);
                true
            },
            _ => false,
        }
    }
}

impl Alignment {
    /// Whether two alignments are the same.
    pub fn same(&self, other: &Alignment) -> (r: bool)
        ensures
            r == (self@ == other@),
        decreases self,
    {
        if self.segments.len() != other.segments.len() {
            assert(self@.len() != other@.len());
            return false;
        }
        let mut i: usize = 0;
        while i < self.segments.len()
            invariant
                i <= self.segments.len(),
                self.segments.len() == other.segments.len(),
                forall|j: int| 0 <= j < i ==> self@[j] == other@[j],
            decreases self.segments.len() - i,
        {
            if !self.segments[i].same(&other.segments[i]) {
                assert(self@[i as int] != other@[i as int]);
                return false;
            }
            i += 1;
        }
        assert(self@ =~= other@);
        true
    }
}

impl AlignmentSegment {
    /// A copy.
    fn copy(&self) -> (r: AlignmentSegment)
        ensures
            r@ == self@,
        decreases self,
    {
        reveal_with_fuel(<AlignmentSegment as View>::view, 2);
        match self {
            AlignmentSegment::Atom(a) => AlignmentSegment::Atom(*a),
            AlignmentSegment::Choice(options) => {
                let copies = Alignment::copy_all(options);
                let r = AlignmentSegment::Choice(copies);
                let ghost before = self@->Choice_0;
                let ghost after = r@->Choice_0;
                assert(after.len() == before.len());
                assert forall|j: int| 0 <= j < before.len() implies after[j] == before[j] by {
                    assert(copies@[j]@ == options@[j]@);
                }
                assert(after =~= before);
                r
            },
        }
    }
}

impl Alignment {
    /// A copy of each of a list of alignments.
    fn copy_all(options: &Vec<Alignment>) -> (r: Vec<Alignment>)
        ensures
            r@.len() == options@.len(),
            forall|j: int| 0 <= j < r@.len() ==> #[trigger] r@[j]@ == options@[j]@,
        decreases options,
    {
        let mut copies: Vec<Alignment> = Vec::new();
        let mut i: usize = 0;
        while i < options.len()
            invariant
                i <= options.len(),
                copies@.len() == i,
                forall|j: int| 0 <= j < i ==> #[trigger] copies@[j]@ == options@[j]@,
            decreases options.len() - i,
        {
            copies.push(options[i].copy());
            i += 1;
        }
        copies
    }

    /// A copy.
    fn copy(&self) -> (r: Alignment)
        ensures
            r@ == self@,
        decreases self,
    {
        reveal_with_fuel(<Alignment as View>::view, 2);
        let mut segments: Vec<AlignmentSegment> = Vec::new();
        let mut i: usize = 0;
        while i < self.segments.len()
            invariant
                i <= self.segments.len(),
                segments@.len() == i,
                forall|j: int| 0 <= j < i ==> #[trigger] segments@[j]@ == self.segments@[j]@,
            decreases self.segments.len() - i,
        {
            segments.push(self.segments[i].copy());
            i += 1;
        }
        let r = Alignment { segments };
        assert(r@.len() == self@.len());
        assert forall|j: int| 0 <= j < self@.len() implies r@[j] == self@[j] by {
            assert(r.segments@[j]@ == self.segments@[j]@);
            assert(self@[j] == self.segments@[j]@);
            assert(r@[j] == r.segments@[j]@);
        }
        assert(r@ =~= self@);
        r
    }
}

impl Clone for AlignmentSegment {
    fn clone(&self) -> (r: AlignmentSegment)
        ensures
            r@ == self@,
    {
        self.copy()
    }
}

impl Clone for Alignment {
    fn clone(&self) -> (r: Alignment)
        ensures
            r@ == self@,
    {
        self.copy()
    }
}

/// A value together with its alignment: what a cell stores, and what a map is keyed by.
#[derive(Debug)]
pub struct AlignedValue {
    /// The atoms of the value, each a byte string.
    pub value: Vec<Vec<u8>>,
    /// The layout of those atoms.
    pub alignment: Alignment,
}

/// The mathematical content of an [`AlignedValue`].
#[verifier::ext_equal]
pub struct ValueView {
    pub atoms: Seq<Seq<u8>>,
    pub alignment: Seq<SegmentView>,
}

impl View for AlignedValue {
    type V = ValueView;

    open spec fn view(&self) -> ValueView {
        ValueView {
            atoms: Seq::new(self.value@.len(), |i: int| self.value@[i]@),
            alignment: self.alignment@,
        }
    }
}

impl AlignedValue {
    /// Whether two values agree in their atoms and in their alignment.
    pub fn same(&self, other: &AlignedValue) -> (r: bool)
        ensures
            r == (self@ == other@),
    {
        if self.value.len() != other.value.len() {
            assert(self@.atoms.len() != other@.atoms.len());
            return false;
        }
        let mut i: usize = 0;
        while i < self.value.len()
            invariant
                i <= self.value.len(),
                self.value.len() == other.value.len(),
                forall|j: int| 0 <= j < i ==> self@.atoms[j] == other@.atoms[j],
            decreases self.value.len() - i,
        {
            let ghost at = i as int;
            if self.value[i] == other.value[i] {
                assert(self@.atoms[at] =~= other@.atoms[at]);
            } else {
                assert(self@.atoms[at] != other@.atoms[at]);
                return false;
            }
            i += 1;
        }
        assert(self@.atoms =~= other@.atoms);
        self.alignment.same(&other.alignment)
    }
}

impl Clone for AlignedValue {
    fn clone(&self) -> (r: AlignedValue)
        ensures
            r@ == self@,
    {
        let mut value: Vec<Vec<u8>> = Vec::new();
        let mut i: usize = 0;
        while i < self.value.len()
            invariant
                i <= self.value.len(),
                value@.len() == i,
                forall|j: int| 0 <= j < i ==> #[trigger] value@[j]@ == self.value@[j]@,
            decreases self.value.len() - i,
        {
            let atom = self.value[i].clone();
            assert(atom@ =~= self.value@[i as int]@);
            value.push(atom);
            i += 1;
        }
        let r = AlignedValue { value, alignment: self.alignment.clone() };
        assert(r@.atoms =~= self@.atoms);
        r
    }
}

/// The key could not be read as the named built-in type.
///
/// The names, "u8" and "u64", and the text of the error are the library's own definitions. They
/// stand for the error that the ledger reports where a value is not of a built-in type.
#[derive(Clone, Copy, Debug, PartialEq, Eq)]
pub struct InvalidBuiltinDecode(pub &'static str);

impl InvalidBuiltinDecode {
    /// The text of an error.
    pub open spec fn text(self) -> Seq<char> {
        "failed to decode for built-in type "@ + self.0@ + " after successful typecheck"@
    }

    /// The text of the error.
    pub fn to_string(&self) -> (r: String)
        ensures
            r@ == self.text(),
    {
        let mut r = join("failed to decode for built-in type ", self.0);
        r.append(" after successful typecheck");
        r
    }
}

/// The number that a value holds, where it is a single atom of at most `width` bytes.
///
/// This reading is the library's own definition. It stands for the ledger's conversion of a
/// value to an unsigned integer type of `width` bytes.
pub open spec fn decoded(value: ValueView, width: nat) -> Option<nat> {
    if value.atoms.len() == 1 && value.atoms[0].len() <= width {
        Some(crate::bytes::le_value(value.atoms[0]))
    } else {
        None
    }
}

/// The value that holds a number, aligned to `width` bytes.
///
/// This form is the library's own definition. It stands for the ledger's conversion of an
/// unsigned integer to a value.
pub open spec fn number_value(n: nat, width: u32) -> ValueView {
    ValueView {
        atoms: seq![crate::bytes::le_bytes(n)],
        alignment: seq![SegmentView::Atom(AlignmentAtom::Bytes(width))],
    }
}

/// The value that holds a digest.
///
/// This form is the library's own definition. It stands for the ledger's conversion of a leaf's
/// hash to a value.
pub open spec fn digest_value(digest: Seq<u8>) -> ValueView {
    ValueView {
        atoms: seq![crate::bytes::trimmed(digest)],
        alignment: seq![SegmentView::Atom(AlignmentAtom::Bytes(32))],
    }
}

impl AlignedValue {
    /// A value of one atom, aligned to `width` bytes.
    fn of_atom(atom: Vec<u8>, width: u32) -> (r: AlignedValue)
        ensures
            r@.atoms == seq![atom@],
            r@.alignment == seq![SegmentView::Atom(AlignmentAtom::Bytes(width))],
    {
        let segments: Vec<AlignmentSegment> = vec![
            AlignmentSegment::Atom(AlignmentAtom::Bytes(width)),
        ];
        let r = AlignedValue { value: vec![atom], alignment: Alignment { segments } };
        assert(r@.atoms =~= seq![atom@]);
        assert(r.alignment@ =~= seq![SegmentView::Atom(AlignmentAtom::Bytes(width))]);
        r
    }

    /// The value that holds a digest of 32 bytes.
    pub fn from_digest(digest: &[u8; 32]) -> (r: AlignedValue)
        ensures
            r@ == digest_value(digest@),
    {
        AlignedValue::of_atom(trim(digest), 32)
    }

    /// Reads the value as a `u8`: a single atom of at most one byte.
    pub fn to_u8(&self) -> (r: Result<u8, InvalidBuiltinDecode>)
        ensures
            match decoded(self@, 1) {
                Some(n) => r matches Ok(v) && v == n,
                None => r == Err::<u8, _>(InvalidBuiltinDecode("u8")),
            },
    {
        if self.value.len() == 1 && self.value[0].len() <= 1 {
            proof {
                crate::bytes::lemma_le_value_bound(self@.atoms[0]);
                crate::bytes::lemma_pow256_monotonic(self@.atoms[0].len(), 1);
                crate::bytes::lemma_pow256_u64();
            }
            Ok(read_le(&self.value[0]) as u8)
        } else {
            Err(InvalidBuiltinDecode("u8"))
        }
    }

    /// Reads the value as a `u64`: a single atom of at most eight bytes.
    pub fn to_u64(&self) -> (r: Result<u64, InvalidBuiltinDecode>)
        ensures
            match decoded(self@, 8) {
                Some(n) => r matches Ok(v) && v == n,
                None => r == Err::<u64, _>(InvalidBuiltinDecode("u64")),
            },
    {
        if self.value.len() == 1 && self.value[0].len() <= 8 {
            Ok(read_le(&self.value[0]))
        } else {
            Err(InvalidBuiltinDecode("u64"))
        }
    }
}

// A value is known by its view, so `from` states its result in its own postcondition.
impl vstd::std_specs::convert::FromSpecImpl<u8> for AlignedValue {
    open spec fn obeys_from_spec() -> bool {
        false
    }

    open spec fn from_spec(n: u8) -> AlignedValue {
        arbitrary()
    }
}

impl From<u8> for AlignedValue {
    /// The value that holds a `u8`.
    fn from(n: u8) -> (r: AlignedValue)
        ensures
            r@ == number_value(n as nat, 1),
    {
        AlignedValue::of_atom(write_le(n as u64), 1)
    }
}

// A value is known by its view, so `from` states its result in its own postcondition.
impl vstd::std_specs::convert::FromSpecImpl<u64> for AlignedValue {
    open spec fn obeys_from_spec() -> bool {
        false
    }

    open spec fn from_spec(n: u64) -> AlignedValue {
        arbitrary()
    }
}

impl From<u64> for AlignedValue {
    /// The value that holds a `u64`.
    fn from(n: u64) -> (r: AlignedValue)
        ensures
            r@ == number_value(n as nat, 8),
    {
        AlignedValue::of_atom(write_le(n), 8)
    }
}

} // verus!
