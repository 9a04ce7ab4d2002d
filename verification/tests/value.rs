use onchain_state::value::{
    AlignedValue, Alignment, AlignmentAtom, AlignmentSegment, InvalidBuiltinDecode,
};

fn alignment(segments: Vec<AlignmentSegment>) -> Alignment {
    Alignment { segments }
}

#[test]
fn numbers_are_stored_in_normal_form() {
    assert_eq!(AlignedValue::from(0u64).value, vec![Vec::<u8>::new()]);
    assert_eq!(AlignedValue::from(0u8).value, vec![Vec::<u8>::new()]);
    assert_eq!(AlignedValue::from(999u64).value, vec![vec![231, 3]]);
    assert_eq!(AlignedValue::from(u64::MAX).value, vec![vec![255u8; 8]]);
}

#[test]
fn numbers_read_back() {
    for n in [0u64, 1, 255, 256, 65_535, 1 << 40, u64::MAX] {
        assert_eq!(AlignedValue::from(n).to_u64(), Ok(n));
    }
    assert_eq!(AlignedValue::from(255u64).to_u8(), Ok(255));
    assert_eq!(AlignedValue::from(256u64).to_u8(), Err(InvalidBuiltinDecode("u8")));
    assert_eq!(AlignedValue::from(7u8).to_u64(), Ok(7));
}

#[test]
fn only_single_atoms_are_numbers() {
    let two = AlignedValue {
        value: vec![vec![1], vec![2]],
        alignment: alignment(vec![
            AlignmentSegment::Atom(AlignmentAtom::Bytes(1)),
            AlignmentSegment::Atom(AlignmentAtom::Bytes(1)),
        ]),
    };
    assert_eq!(two.to_u8(), Err(InvalidBuiltinDecode("u8")));
    assert_eq!(two.to_u64(), Err(InvalidBuiltinDecode("u64")));
    let none = AlignedValue { value: vec![], alignment: alignment(vec![]) };
    assert_eq!(none.to_u64(), Err(InvalidBuiltinDecode("u64")));
}

#[test]
fn digests_lose_zero_bytes_at_the_end_only() {
    let mut digest = [0u8; 32];
    digest[2] = 8;
    assert_eq!(AlignedValue::from_digest(&digest).value, vec![vec![0, 0, 8]]);
    assert_eq!(AlignedValue::from_digest(&[0u8; 32]).value, vec![Vec::<u8>::new()]);
    assert_eq!(AlignedValue::from_digest(&[1u8; 32]).value, vec![vec![1u8; 32]]);
}

#[test]
fn values_are_the_same_in_atoms_and_alignment() {
    let a = AlignedValue::from(5u64);
    assert!(a.same(&AlignedValue::from(5u64)));
    assert!(!a.same(&AlignedValue::from(6u64)));
    assert!(!a.same(&AlignedValue::from(5u8)));
    assert!(a.same(&a.clone()));
}

#[test]
fn alignments_with_choices() {
    let make = |last: AlignmentAtom| {
        alignment(vec![
            AlignmentSegment::Atom(AlignmentAtom::Field),
            AlignmentSegment::Choice(vec![
                alignment(vec![]),
                alignment(vec![
                    AlignmentSegment::Atom(AlignmentAtom::Compress),
                    AlignmentSegment::Atom(last),
                ]),
            ]),
        ])
    };
    let a = make(AlignmentAtom::Bytes(3));
    assert!(a.same(&make(AlignmentAtom::Bytes(3))));
    assert!(a.same(&a.clone()));
    assert!(!a.same(&make(AlignmentAtom::Bytes(4))));
    assert!(!a.same(&make(AlignmentAtom::Field)));
    assert!(!a.same(&alignment(vec![])));
}

#[test]
fn decode_error_text() {
    assert_eq!(
        InvalidBuiltinDecode("u64").to_string(),
        "failed to decode for built-in type u64 after successful typecheck"
    );
}
