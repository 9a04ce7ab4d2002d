use onchain_state::query::{
    idx, idx_path, query_state, resolve, IdxError, Resolution, StateQuery, StateQueryResult,
};
use onchain_state::state::{MerkleTree, StateMap, StateValue};
use onchain_state::value::{
    AlignedValue, Alignment, AlignmentAtom, AlignmentSegment,
};
use std::sync::Arc;

fn make_cell(val: u64) -> StateValue {
    StateValue::from(val)
}

fn array(nodes: Vec<StateValue>) -> StateValue {
    StateValue::Array(Arc::new(nodes))
}

fn mapping(map: StateMap) -> StateValue {
    StateValue::Mapping(Arc::new(map))
}

fn width(value: &AlignedValue) -> u32 {
    match value.alignment.segments[0] {
        AlignmentSegment::Atom(AlignmentAtom::Bytes(width)) => width,
        _ => panic!("not a byte string"),
    }
}

// A key on the wire: the width of its alignment, then the bytes of its atom.
fn serialize_key(val: impl Into<AlignedValue>) -> Vec<u8> {
    let av: AlignedValue = val.into();
    let mut bytes = vec![width(&av) as u8];
    bytes.extend(&av.value[0]);
    bytes
}

fn deserialize_key(bytes: &[u8]) -> Result<AlignedValue, String> {
    if bytes.is_empty() {
        return Err("unexpected end of input".to_string());
    }
    let segments = vec![AlignmentSegment::Atom(AlignmentAtom::Bytes(bytes[0] as u32))];
    Ok(AlignedValue { value: vec![bytes[1..].to_vec()], alignment: Alignment { segments } })
}

// A leaf on the wire: a tag, then the bytes of a cell's atom.
fn serialize_leaf(node: &StateValue) -> Result<Vec<u8>, String> {
    match node {
        StateValue::Null => Ok(vec![0]),
        StateValue::Cell(value) => {
            let mut bytes = vec![1];
            bytes.extend(&value.value[0]);
            Ok(bytes)
        }
        _ => panic!("a collection was serialized"),
    }
}

fn run(root: &StateValue, queries: &[StateQuery]) -> Vec<StateQueryResult> {
    query_state(root, queries, deserialize_key, serialize_leaf)
}

#[test]
fn query_idx_array() {
    let arr = array(vec![make_cell(42), make_cell(100)]);
    let key: AlignedValue = 1u8.into();
    let result = idx(&arr, &key).unwrap().unwrap();
    assert!(matches!(result, StateValue::Cell(_)));
}

#[test]
fn query_idx_array_out_of_bounds() {
    let arr = array(vec![make_cell(1)]);
    let key: AlignedValue = 5u8.into();
    assert!(matches!(idx(&arr, &key), Err(IdxError::IndexOutOfBounds(5))));
}

#[test]
fn query_idx_map_found() {
    let map_key: AlignedValue = 42u64.into();
    let mut map = StateMap::default();
    map = map.insert(map_key.clone(), make_cell(999));
    let sv = mapping(map);
    let result = idx(&sv, &map_key).unwrap();
    assert!(result.is_some());
}

#[test]
fn query_idx_map_not_found() {
    let map = StateMap::default();
    let sv = mapping(map);
    let key: AlignedValue = 1u64.into();
    assert!(idx(&sv, &key).unwrap().is_none());
}

#[test]
fn idx_unsupported_variant() {
    let cell = make_cell(1);
    let key: AlignedValue = 0u8.into();
    assert!(matches!(idx(&cell, &key), Err(IdxError::UnsupportedVariant)));
}

#[test]
fn query_idx_path_through_array_and_map() {
    let map_key: AlignedValue = 7u64.into();
    let mut map = StateMap::default();
    map = map.insert(map_key.clone(), make_cell(42));
    let root = array(vec![mapping(map)]);

    let index_key: AlignedValue = 0u8.into();
    let result = idx_path(&root, &[index_key, map_key]).unwrap().unwrap();
    assert!(matches!(result, StateValue::Cell(_)));
}

#[test]
fn query_idx_path_stops_on_not_found() {
    let map = StateMap::default();
    let root = array(vec![mapping(map)]);

    let index_key: AlignedValue = 0u8.into();
    let missing_key: AlignedValue = 999u64.into();
    assert!(idx_path(&root, &[index_key, missing_key]).unwrap().is_none());
}

#[test]
fn query_cell() {
    let root = array(vec![make_cell(42)]);
    let results = run(&root, &[StateQuery { path: vec![serialize_key(0u8)] }]);
    assert!(results[0].value.is_some());
    assert!(results[0].error.is_none());
    assert_eq!(results[0].value, Some(vec![1, 42]));
}

#[test]
fn query_map_entry() {
    let map_key: AlignedValue = 42u64.into();
    let mut map = StateMap::default();
    map = map.insert(map_key, make_cell(999));
    let root = array(vec![mapping(map)]);
    let results = run(
        &root,
        &[StateQuery { path: vec![serialize_key(0u8), serialize_key(42u64)] }],
    );
    assert!(results[0].value.is_some());
    assert_eq!(results[0].value, Some(vec![1, 231, 3]));
}

#[test]
fn query_map_not_found() {
    let map = StateMap::default();
    let root = array(vec![mapping(map)]);
    let results = run(
        &root,
        &[StateQuery { path: vec![serialize_key(0u8), serialize_key(999u64)] }],
    );
    assert!(results[0].value.is_none());
    assert!(results[0].error.is_none());
}

#[test]
fn query_stops_at_collection() {
    let map = StateMap::default();
    let root = array(vec![mapping(map)]);
    // Path stops at the Map without going deeper
    let results = run(&root, &[StateQuery { path: vec![serialize_key(0u8)] }]);
    assert!(results[0].error.as_ref().unwrap().contains("collection"));
}

#[test]
fn query_batch() {
    let map_key: AlignedValue = 1u64.into();
    let mut map = StateMap::default();
    map = map.insert(map_key, make_cell(10));
    let root = array(vec![mapping(map), make_cell(42)]);
    let results = run(
        &root,
        &[
            StateQuery { path: vec![serialize_key(1u8)] },
            StateQuery { path: vec![serialize_key(0u8), serialize_key(1u64)] },
        ],
    );
    assert_eq!(results.len(), 2);
    assert!(results[0].value.is_some());
    assert!(results[1].value.is_some());
    assert_eq!(results[0].value, Some(vec![1, 42]));
    assert_eq!(results[1].value, Some(vec![1, 10]));
}

#[test]
fn query_echoes_query() {
    let root = array(vec![make_cell(42)]);
    let path = vec![serialize_key(0u8)];
    let results = run(&root, &[StateQuery { path: path.clone() }]);
    assert_eq!(results[0].query.path, path);
}

#[test]
fn query_without_queries() {
    assert!(run(&StateValue::Null, &[]).is_empty());
}

#[test]
fn query_null_root() {
    let results = run(&StateValue::Null, &[StateQuery { path: vec![] }]);
    assert_eq!(results[0].value, Some(vec![0]));
    assert!(results[0].error.is_none());
}

#[test]
fn query_ends_at_array_or_tree() {
    let text = "path resolves to a collection; provide a deeper path";
    let leaf_tree = StateValue::BoundedMerkleTree(Arc::new(MerkleTree::blank(2)));
    for root in [array(vec![make_cell(1)]), leaf_tree, mapping(StateMap::default())] {
        let results = run(&root, &[StateQuery { path: vec![] }]);
        assert!(results[0].value.is_none());
        assert_eq!(results[0].error.as_deref(), Some(text));
    }
}

#[test]
fn query_reports_first_bad_key() {
    let root = array(vec![make_cell(42)]);
    let query = StateQuery { path: vec![serialize_key(9u8), vec![], serialize_key(0u8)] };
    let results = run(&root, &[query.clone()]);
    assert_eq!(results[0].error.as_deref(), Some("bad key: unexpected end of input"));
    assert!(results[0].value.is_none());
    assert_eq!(results[0].query.path, query.path);
}

#[test]
fn query_reports_serialization_error() {
    let root = make_cell(42);
    let results = query_state(
        &root,
        &[StateQuery { path: vec![] }],
        deserialize_key,
        |_node: &StateValue| Err("disk full".to_string()),
    );
    assert!(results[0].value.is_none());
    assert_eq!(results[0].error.as_deref(), Some("serialize: disk full"));
}

#[test]
fn query_reports_navigation_errors() {
    let tree = StateValue::BoundedMerkleTree(Arc::new(MerkleTree::blank(2)));
    let root = array(vec![make_cell(42), tree]);
    let wide = serialize_key(999u64);
    let digest = {
        let mut bytes = vec![32];
        bytes.extend([7u8; 32]);
        bytes
    };
    let results = run(
        &root,
        &[
            StateQuery { path: vec![serialize_key(5u8)] },
            StateQuery { path: vec![wide] },
            StateQuery { path: vec![serialize_key(1u8), digest] },
            StateQuery { path: vec![serialize_key(1u8), serialize_key(4u64)] },
            StateQuery { path: vec![serialize_key(0u8), serialize_key(0u8)] },
        ],
    );
    let errors: Vec<&str> = results.iter().map(|r| r.error.as_deref().unwrap()).collect();
    assert_eq!(
        errors,
        vec![
            "index 5 out of bounds",
            "invalid key: cannot convert key to array index",
            "invalid key: cannot convert key to tree position",
            "key not found",
            "unsupported variant: only array, map, and merkle tree can be indexed",
        ]
    );
}

#[test]
fn query_tree_leaf() {
    let tree = MerkleTree::blank(2).update(1, [6u8; 32]);
    let root = StateValue::BoundedMerkleTree(Arc::new(tree));
    let results = run(
        &root,
        &[
            StateQuery { path: vec![serialize_key(1u64)] },
            StateQuery { path: vec![serialize_key(2u64)] },
        ],
    );
    let mut expected = vec![1];
    expected.extend([6u8; 32]);
    assert_eq!(results[0].value, Some(expected));
    assert!(results[1].value.is_none());
    assert!(results[1].error.is_none());
}

#[test]
fn resolve_tells_the_outcomes_apart() {
    let key: AlignedValue = 3u64.into();
    let other: AlignedValue = 4u64.into();
    let root = mapping(StateMap::default().insert(key.clone(), make_cell(5)));
    assert!(matches!(resolve(&root, &[key]), Resolution::Leaf(StateValue::Cell(_))));
    assert!(matches!(resolve(&root, &[other]), Resolution::Absent));
    assert!(matches!(resolve(&root, &[]), Resolution::Failed(_)));
}

#[test]
fn query_error_texts() {
    assert_eq!(IdxError::IndexOutOfBounds(107).to_string(), "index 107 out of bounds");
    assert_eq!(IdxError::InvalidKey("x".to_string()).to_string(), "invalid key: x");
    assert_eq!(IdxError::MissingKey.to_string(), "key not found");
    assert_eq!(
        IdxError::UnsupportedVariant.clone().to_string(),
        "unsupported variant: only array, map, and merkle tree can be indexed"
    );
}

#[test]
fn results_can_be_cloned() {
    let root = array(vec![make_cell(42)]);
    let results = run(&root, &[StateQuery { path: vec![serialize_key(0u8)] }]);
    let copy = results[0].clone();
    assert_eq!(copy.query.path, results[0].query.path);
    assert_eq!(copy.value, results[0].value);
    assert_eq!(copy.error, results[0].error);
}

#[test]
fn batches_join() {
    let key: AlignedValue = 2u64.into();
    let root = array(vec![
        make_cell(7),
        mapping(StateMap::default().insert(key, make_cell(8))),
    ]);
    let first = vec![
        StateQuery { path: vec![vec![]] },
        StateQuery { path: vec![serialize_key(0u8)] },
        StateQuery { path: vec![serialize_key(1u8)] },
    ];
    let second = vec![
        StateQuery { path: vec![serialize_key(9u8)] },
        StateQuery { path: vec![serialize_key(1u8), serialize_key(2u64)] },
        StateQuery { path: vec![serialize_key(0u8)] },
    ];
    let whole: Vec<StateQuery> = first.iter().chain(second.iter()).cloned().collect();

    let fields = |r: &StateQueryResult| (r.query.path.clone(), r.value.clone(), r.error.clone());
    let mut parts: Vec<_> = run(&root, &first).iter().map(fields).collect();
    parts.extend(run(&root, &second).iter().map(fields));
    let joined: Vec<_> = run(&root, &whole).iter().map(fields).collect();
    assert_eq!(joined, parts);
    assert_eq!(joined[1].1, Some(vec![1, 7]));
    assert_eq!(joined[4].1, Some(vec![1, 8]));
    assert_eq!(joined[1], joined[5]);
}
