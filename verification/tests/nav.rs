use onchain_state::nav::{idx, idx_path, IdxError};
use onchain_state::state::{MerkleTree, StateMap, StateValue};
use onchain_state::value::{AlignedValue, InvalidBuiltinDecode};
use std::sync::Arc;

fn make_cell(val: u64) -> StateValue {
    StateValue::from(val)
}

fn array(nodes: Vec<StateValue>) -> StateValue {
    StateValue::Array(Arc::new(nodes))
}

fn mapping(map: StateMap) -> StateValue {
    StateValue::Mapping(Arc::new(map))
}

fn tree(tree: MerkleTree) -> StateValue {
    StateValue::BoundedMerkleTree(Arc::new(tree))
}

fn cell_atom(node: &StateValue) -> Vec<u8> {
    match node {
        StateValue::Cell(value) => {
            assert_eq!(value.value.len(), 1);
            value.value[0].clone()
        }
        _ => panic!("not a cell"),
    }
}

#[test]
fn nav_idx_array() {
    let arr = array(vec![make_cell(42), make_cell(100)]);
    let key: AlignedValue = 1u8.into();
    let result = idx(&arr, &key).unwrap().unwrap();
    assert!(matches!(result, StateValue::Cell(_)));
    assert_eq!(cell_atom(&result), vec![100]);
}

#[test]
fn nav_idx_array_out_of_bounds() {
    let arr = array(vec![make_cell(1)]);
    let key: AlignedValue = 5u8.into();
    assert_eq!(idx(&arr, &key).err(), Some(IdxError::IndexOutOfBounds(5)));
}

#[test]
fn idx_array_invalid_key() {
    let arr = array(vec![make_cell(1)]);
    // Multi-byte value that can't convert to u8
    let key: AlignedValue = 999u64.into();
    assert!(matches!(idx(&arr, &key), Err(IdxError::Decode(_))));
    assert_eq!(idx(&arr, &key).err(), Some(IdxError::Decode(InvalidBuiltinDecode("u8"))));
}

#[test]
fn nav_idx_map_found() {
    let map_key: AlignedValue = 42u64.into();
    let mut map = StateMap::default();
    map = map.insert(map_key.clone(), make_cell(999));
    let sv = mapping(map);
    assert!(idx(&sv, &map_key).unwrap().is_some());
}

#[test]
fn nav_idx_map_not_found() {
    let map = StateMap::default();
    let sv = mapping(map);
    let key: AlignedValue = 1u64.into();
    assert!(idx(&sv, &key).unwrap().is_none());
}

#[test]
fn idx_unsupported_cell() {
    let cell = make_cell(1);
    let key: AlignedValue = 0u8.into();
    assert_eq!(idx(&cell, &key).err(), Some(IdxError::UnsupportedVariant));
}

#[test]
fn idx_unsupported_null() {
    let null = StateValue::Null;
    let key: AlignedValue = 0u8.into();
    assert_eq!(idx(&null, &key).err(), Some(IdxError::UnsupportedVariant));
}

#[test]
fn idx_path_empty() {
    let root = make_cell(42);
    let result = idx_path(&root, &[]).unwrap().unwrap();
    assert!(matches!(result, StateValue::Cell(_)));
    assert_eq!(cell_atom(&result), vec![42]);
}

#[test]
fn nav_idx_path_through_array_and_map() {
    let map_key: AlignedValue = 7u64.into();
    let mut map = StateMap::default();
    map = map.insert(map_key.clone(), make_cell(42));
    let root = array(vec![mapping(map)]);

    let index_key: AlignedValue = 0u8.into();
    let result = idx_path(&root, &[index_key, map_key]).unwrap().unwrap();
    assert!(matches!(result, StateValue::Cell(_)));
    assert_eq!(cell_atom(&result), vec![42]);
}

#[test]
fn nav_idx_path_stops_on_not_found() {
    let map = StateMap::default();
    let root = array(vec![mapping(map)]);

    let index_key: AlignedValue = 0u8.into();
    let missing_key: AlignedValue = 999u64.into();
    assert!(idx_path(&root, &[index_key, missing_key]).unwrap().is_none());
}

#[test]
fn missing_key_hides_the_rest_of_the_path() {
    let root = mapping(StateMap::default());
    let keys: Vec<AlignedValue> = vec![3u64.into(), 4u64.into(), 5u64.into()];
    assert!(idx_path(&root, &keys).unwrap().is_none());
}

#[test]
fn paths_compose() {
    let leaf_key: AlignedValue = 9u64.into();
    let inner = mapping(StateMap::default().insert(leaf_key.clone(), make_cell(300)));
    let root = array(vec![StateValue::Null, inner]);
    let index: AlignedValue = 1u8.into();

    let whole = idx_path(&root, &[index.clone(), leaf_key.clone()]).unwrap().unwrap();
    let middle = idx_path(&root, &[index]).unwrap().unwrap();
    let end = idx_path(&middle, &[leaf_key]).unwrap().unwrap();
    assert_eq!(cell_atom(&whole), vec![44, 1]);
    assert_eq!(cell_atom(&end), vec![44, 1]);
}

#[test]
fn path_beyond_a_leaf_is_unsupported() {
    let root = array(vec![make_cell(1)]);
    let keys: Vec<AlignedValue> = vec![0u8.into(), 0u8.into(), 0u8.into()];
    assert_eq!(idx_path(&root, &keys).err(), Some(IdxError::UnsupportedVariant));
}

#[test]
fn array_index_at_the_edges() {
    let arr = array(vec![make_cell(10), make_cell(11), make_cell(12)]);
    let first: AlignedValue = 0u64.into();
    let last: AlignedValue = 2u64.into();
    let beyond: AlignedValue = 3u64.into();
    let widest: AlignedValue = 255u64.into();
    let too_wide: AlignedValue = 256u64.into();
    assert_eq!(cell_atom(&idx(&arr, &first).unwrap().unwrap()), vec![10]);
    assert_eq!(cell_atom(&idx(&arr, &last).unwrap().unwrap()), vec![12]);
    assert_eq!(idx(&arr, &beyond).err(), Some(IdxError::IndexOutOfBounds(3)));
    assert_eq!(idx(&arr, &widest).err(), Some(IdxError::IndexOutOfBounds(255)));
    assert_eq!(idx(&arr, &too_wide).err(), Some(IdxError::Decode(InvalidBuiltinDecode("u8"))));
}

#[test]
fn map_replaces_and_keeps_other_keys() {
    let a: AlignedValue = 1u64.into();
    let b: AlignedValue = 2u64.into();
    let map = StateMap::default()
        .insert(a.clone(), make_cell(10))
        .insert(b.clone(), make_cell(20))
        .insert(a.clone(), make_cell(30));
    let sv = mapping(map);
    assert_eq!(cell_atom(&idx(&sv, &a).unwrap().unwrap()), vec![30]);
    assert_eq!(cell_atom(&idx(&sv, &b).unwrap().unwrap()), vec![20]);
}

#[test]
fn map_keys_of_other_alignment_are_other_keys() {
    let wide: AlignedValue = 7u64.into();
    let narrow: AlignedValue = 7u8.into();
    let sv = mapping(StateMap::default().insert(wide, make_cell(1)));
    assert!(idx(&sv, &narrow).unwrap().is_none());
}

#[test]
fn tree_reads_leaf_as_cell() {
    let mut digest = [0u8; 32];
    digest[0] = 5;
    digest[3] = 9;
    let sv = tree(MerkleTree::blank(4).update(3, digest));
    let key: AlignedValue = 3u64.into();
    let result = idx(&sv, &key).unwrap().unwrap();
    assert_eq!(cell_atom(&result), vec![5, 0, 0, 9]);

    let cell_key: AlignedValue = 0u8.into();
    assert_eq!(idx(&result, &cell_key).err(), Some(IdxError::UnsupportedVariant));
}

#[test]
fn tree_keeps_other_positions() {
    let sv = tree(
        MerkleTree::blank(4).update(3, [1u8; 32]).update(15, [2u8; 32]).update(3, [3u8; 32]),
    );
    let three: AlignedValue = 3u64.into();
    let fifteen: AlignedValue = 15u64.into();
    assert_eq!(cell_atom(&idx(&sv, &three).unwrap().unwrap()), vec![3u8; 32]);
    assert_eq!(cell_atom(&idx(&sv, &fifteen).unwrap().unwrap()), vec![2u8; 32]);
}

#[test]
fn tree_positions() {
    let sv = tree(MerkleTree::blank(4).update(3, [1u8; 32]));
    let empty: AlignedValue = 15u64.into();
    let outside: AlignedValue = 16u64.into();
    assert!(idx(&sv, &empty).unwrap().is_none());
    assert_eq!(idx(&sv, &outside).err(), Some(IdxError::MissingKey));
}

#[test]
fn tree_invalid_key() {
    let sv = tree(MerkleTree::blank(4));
    let digest = AlignedValue::from_digest(&[7u8; 32]);
    assert_eq!(idx(&sv, &digest).err(), Some(IdxError::Decode(InvalidBuiltinDecode("u64"))));
}

#[test]
fn tree_of_the_greatest_height() {
    let sv = tree(MerkleTree::blank(63).update((1 << 63) - 1, [4u8; 32]));
    let last: AlignedValue = ((1u64 << 63) - 1).into();
    let outside: AlignedValue = (1u64 << 63).into();
    assert_eq!(cell_atom(&idx(&sv, &last).unwrap().unwrap()), vec![4u8; 32]);
    assert_eq!(idx(&sv, &outside).err(), Some(IdxError::MissingKey));
}

#[test]
fn error_texts() {
    assert_eq!(IdxError::IndexOutOfBounds(0).to_string(), "index 0 out of bounds");
    assert_eq!(IdxError::IndexOutOfBounds(42).to_string(), "index 42 out of bounds");
    assert_eq!(IdxError::IndexOutOfBounds(255).to_string(), "index 255 out of bounds");
    assert_eq!(IdxError::MissingKey.to_string(), "key not found");
    assert_eq!(
        IdxError::UnsupportedVariant.to_string(),
        "unsupported variant: only array, map, and merkle tree can be indexed"
    );
    assert_eq!(
        IdxError::Decode(InvalidBuiltinDecode("u8")).to_string(),
        InvalidBuiltinDecode("u8").to_string()
    );
}

#[test]
fn cloned_nodes_share_their_data() {
    let nodes = Arc::new(vec![make_cell(1), make_cell(2)]);
    let arr = StateValue::Array(nodes.clone());
    match arr.clone() {
        StateValue::Array(copy) => assert!(Arc::ptr_eq(&copy, &nodes)),
        _ => panic!("not an array"),
    }
}
