//! Where keys lead, node by node.
use std::sync::Arc;
use vstd::arithmetic::power::pow;
use vstd::prelude::*;
use crate::bytes::le_value;
use crate::nav;
use crate::nav::key_views;
use crate::query;
use crate::query::IdxErrorView;
use crate::state::{MerkleTree, StateMap, StateValue, StateView, TreeView};
use crate::value::{AlignedValue, InvalidBuiltinDecode, ValueView};
use super::values::{digits_value, is_one_byte_string};

verus! {

/// Two nodes are alike where they are of one kind and hold alike things: cells alike values,
/// arrays as many nodes that are alike place by place, maps and trees the same content.
pub proof fn law_nodes_are_their_content(a: StateValue, b: StateValue)
    ensures
        a@ is Null <==> a is Null,
        a@ is Cell <==> a is Cell,
        a@ is Mapping <==> a is Mapping,
        a@ is Array <==> a is Array,
        a@ is BoundedMerkleTree <==> a is BoundedMerkleTree,
        a@ == b@ <==> (match (a, b) {
            (StateValue::Null, StateValue::Null) => true,
            (StateValue::Cell(x), StateValue::Cell(y)) => (*x)@ == (*y)@,
            (StateValue::Mapping(x), StateValue::Mapping(y)) => (*x)@ == (*y)@,
            (StateValue::Array(x), StateValue::Array(y)) => {
                &&& (*x)@.len() == (*y)@.len()
                &&& forall|i: int| 0 <= i < (*x)@.len() ==> (#[trigger] (*x)@[i])@ == (*y)@[i]@
            },
            (StateValue::BoundedMerkleTree(x), StateValue::BoundedMerkleTree(y)) => {
                (*x)@.height == (*y)@.height && (*x)@.leaves == (*y)@.leaves
            },
            _ => false,
        }),
{
    reveal_with_fuel(<StateValue as View>::view, 2);
    match (a, b) {
        (StateValue::Array(x), StateValue::Array(y)) => {
            let va = a@->Array_0;
            let vb = b@->Array_0;
            assert(va.len() == (*x)@.len() && vb.len() == (*y)@.len());
            assert(forall|i: int| 0 <= i < (*x)@.len() ==> va[i] == (#[trigger] (*x)@[i])@);
            assert(forall|i: int| 0 <= i < (*y)@.len() ==> vb[i] == (#[trigger] (*y)@[i])@);
            if (*x)@.len() == (*y)@.len() && (forall|i: int|
                0 <= i < (*x)@.len() ==> (#[trigger] (*x)@[i])@ == (*y)@[i]@) {
                assert forall|i: int| 0 <= i < va.len() implies va[i] == vb[i] by {
                    assert((*x)@[i]@ == (*y)@[i]@);
                }
                assert(va =~= vb);
            }
            if a@ == b@ {
                assert forall|i: int| 0 <= i < (*x)@.len() implies (#[trigger] (*x)@[i])@
                    == (*y)@[i]@ by {
                    assert(va[i] == vb[i]);
                    assert(vb[i] == (*y)@[i]@);
                }
            }
        },
        _ => {},
    }
}

/// What the parts of a node are in its content.
pub proof fn law_content_of_a_node(node: StateValue)
    ensures
        node matches StateValue::Cell(value) ==> node@ == StateView::Cell((*value)@),
        node matches StateValue::Mapping(map) ==> node@ == StateView::Mapping((*map)@),
        node matches StateValue::BoundedMerkleTree(tree) ==> node@ == StateView::BoundedMerkleTree(
            (*tree)@,
        ),
        node matches StateValue::Array(nodes) ==> {
            &&& node@->Array_0.len() == (*nodes)@.len()
            &&& forall|i: int|
                0 <= i < (*nodes)@.len() ==> node@->Array_0[i] == (#[trigger] (*nodes)@[i])@
        },
{
    reveal_with_fuel(<StateValue as View>::view, 2);
}

/// A handle on a node leads to the same node, and a cell made of a number holds that number.
pub proof fn law_handles_and_number_cells(
    node: StateValue,
    handle: StateValue,
    n: u64,
    cell: StateValue,
    value: AlignedValue,
)
    requires
        call_ensures(<StateValue as Clone>::clone, (&node,), handle),
        call_ensures(<StateValue as From<u64>>::from, (n,), cell),
        call_ensures(<AlignedValue as From<u64>>::from, (n,), value),
    ensures
        handle == node,
        cell matches StateValue::Cell(held) && (*held)@ == value@,
{
    law_nodes_are_their_content(cell, cell);
    law_content_of_a_node(cell);
}

/// A map without entries has no key; a map gives back what was stored last under a key, and every
/// other key leads where it led before.
pub proof fn law_map_operations(
    empty: StateMap,
    before: StateMap,
    key: AlignedValue,
    node: StateValue,
    after: StateMap,
    asked: AlignedValue,
    in_empty: Option<&StateValue>,
    in_before: Option<&StateValue>,
    in_after: Option<&StateValue>,
)
    requires
        call_ensures(<StateMap as Default>::default, (), empty),
        call_ensures(StateMap::insert, (before, key, node), after),
        call_ensures(StateMap::get, (&empty, &asked), in_empty),
        call_ensures(StateMap::get, (&before, &asked), in_before),
        call_ensures(StateMap::get, (&after, &asked), in_after),
    ensures
        in_empty is None,
        asked@ == key@ ==> in_after is Some && in_after->Some_0@ == node@,
        asked@ != key@ ==> (in_after is Some <==> in_before is Some),
        asked@ != key@ && in_before is Some ==> in_after->Some_0@ == in_before->Some_0@,
{
}

/// A lookup in a map tells exactly whether the key is there, and gives the node under it.
pub proof fn law_map_lookup(map: StateMap, key: AlignedValue, r: Option<&StateValue>)
    requires
        call_ensures(StateMap::get, (&map, &key), r),
    ensures
        r is Some <==> map@.contains_key(key@),
        r is Some ==> r->Some_0@ == map@[key@],
{
}

/// A blank tree has its height and no leaf; a tree gives back the digest that was stored last at a
/// position, every other position holds what it held before, and the height stays.
pub proof fn law_tree_operations(
    height: u8,
    blank: MerkleTree,
    before: MerkleTree,
    position: u64,
    digest: [u8; 32],
    after: MerkleTree,
    asked: u64,
    blank_height: u8,
    before_height: u8,
    after_height: u8,
    in_blank: Option<&[u8; 32]>,
    in_before: Option<&[u8; 32]>,
    in_after: Option<&[u8; 32]>,
)
    requires
        call_ensures(MerkleTree::blank, (height,), blank),
        call_ensures(MerkleTree::update, (before, position, digest), after),
        call_ensures(MerkleTree::height, (&blank,), blank_height),
        call_ensures(MerkleTree::height, (&before,), before_height),
        call_ensures(MerkleTree::height, (&after,), after_height),
        call_ensures(MerkleTree::index, (&blank, asked), in_blank),
        call_ensures(MerkleTree::index, (&before, asked), in_before),
        call_ensures(MerkleTree::index, (&after, asked), in_after),
    ensures
        blank_height == height,
        after_height == before_height,
        in_blank is None,
        asked == position ==> in_after is Some && in_after->Some_0@ == digest@,
        asked != position ==> (in_after is Some <==> in_before is Some),
        asked != position && in_before is Some ==> in_after->Some_0@ == in_before->Some_0@,
{
}

/// From an array, a key of one empty atom leads to the first node, a key of one atom of one byte
/// to the node at that place, a place that the array does not have is named in the error, and
/// every other key is no index.
pub proof fn law_steps_from_an_array(nodes: Seq<StateView>, key: ValueView)
    ensures
        ({
            let r = nav::step(StateView::Array(nodes), key);
            let index = if key.atoms[0].len() == 0 {
                0u8
            } else {
                key.atoms[0][0]
            };
            &&& key.atoms.len() != 1 || key.atoms[0].len() > 1 ==> r == Err::<
                Option<StateView>,
                _,
            >(nav::IdxError::Decode(InvalidBuiltinDecode("u8")))
            &&& key.atoms.len() == 1 && key.atoms[0].len() <= 1 && index < nodes.len() ==> r == Ok::<
                _,
                nav::IdxError,
            >(Some(nodes[index as int]))
            &&& key.atoms.len() == 1 && key.atoms[0].len() <= 1 && index >= nodes.len() ==> r
                == Err::<Option<StateView>, _>(nav::IdxError::IndexOutOfBounds(index))
        }),
{
    reveal_with_fuel(le_value, 2);
}

/// From a map, a key that is in it leads to the node under it, and a key that is not in it leads
/// to nothing, whatever the key is.
pub proof fn law_steps_from_a_map(map: Map<ValueView, StateView>, key: ValueView)
    ensures
        map.contains_key(key) ==> nav::step(StateView::Mapping(map), key) == Ok::<
            _,
            nav::IdxError,
        >(Some(map[key])),
        !map.contains_key(key) ==> nav::step(StateView::Mapping(map), key) == Ok::<
            _,
            nav::IdxError,
        >(None::<StateView>),
{
}

/// From a Merkle tree, a key of one atom of at most eight bytes is a position: outside the range
/// of the tree it is an error, without a leaf it leads to nothing, and with a leaf it leads to a
/// cell of one atom, the leaf's digest without the zero bytes at its end, aligned as one byte
/// string of 32 bytes. Every other key is no position.
pub proof fn law_steps_from_a_tree(tree: TreeView, key: ValueView)
    ensures
        ({
            let r = nav::step(StateView::BoundedMerkleTree(tree), key);
            let readable = key.atoms.len() == 1 && key.atoms[0].len() <= 8;
            let position = le_value(key.atoms[0]);
            let inside = position < pow(2, tree.height);
            &&& !readable ==> r == Err::<Option<StateView>, _>(
                nav::IdxError::Decode(InvalidBuiltinDecode("u64")),
            )
            &&& readable && !inside ==> r == Err::<Option<StateView>, _>(nav::IdxError::MissingKey)
            &&& readable && inside && !tree.leaves.contains_key(position as u64) ==> r == Ok::<
                _,
                nav::IdxError,
            >(None::<StateView>)
            &&& readable && inside && tree.leaves.contains_key(position as u64) ==> {
                let digest = tree.leaves[position as u64];
                &&& r is Ok && r->Ok_0 is Some && r->Ok_0->Some_0 is Cell
                &&& leads_to_digest(r->Ok_0->Some_0->Cell_0, digest)
            }
        }),
{
    vstd::arithmetic::power2::lemma_pow2(tree.height);
    if tree.leaves.contains_key(le_value(key.atoms[0]) as u64) {
        super::values::law_trimming_drops_zeros_at_the_end(
            tree.leaves[le_value(key.atoms[0]) as u64],
        );
    }
}

/// Whether a value is a digest as a cell holds it: one atom, the digest without the zero bytes at
/// its end, aligned as exactly one byte string of 32 bytes.
pub open spec fn leads_to_digest(value: ValueView, digest: Seq<u8>) -> bool {
    &&& value.atoms.len() == 1
    &&& value.atoms[0].len() <= digest.len()
    &&& value.atoms[0] == digest.take(value.atoms[0].len() as int)
    &&& forall|i: int| value.atoms[0].len() <= i < digest.len() ==> #[trigger] digest[i] == 0
    &&& value.atoms[0].len() > 0 ==> value.atoms[0].last() != 0
    &&& value.alignment == seq![
        crate::value::SegmentView::Atom(crate::value::AlignmentAtom::Bytes(32)),
    ]
}

/// From a cell and from null no key leads on.
pub proof fn law_steps_from_a_leaf(value: ValueView, key: ValueView)
    ensures
        nav::step(StateView::Cell(value), key) == Err::<Option<StateView>, _>(
            nav::IdxError::UnsupportedVariant,
        ),
        nav::step(StateView::Null, key) == Err::<Option<StateView>, _>(
            nav::IdxError::UnsupportedVariant,
        ),
{
}

/// `idx` leads from a node where the key leads from its content: to a node with that content, to
/// nothing, or to that error.
pub proof fn law_idx_takes_the_step(
    sv: StateValue,
    key: AlignedValue,
    r: Result<Option<StateValue>, nav::IdxError>,
)
    requires
        call_ensures(nav::idx, (&sv, &key), r),
    ensures
        match r {
            Ok(Some(node)) => nav::step(sv@, key@) == Ok::<_, nav::IdxError>(Some(node@)),
            Ok(None) => nav::step(sv@, key@) == Ok::<_, nav::IdxError>(None::<StateView>),
            Err(e) => nav::step(sv@, key@) == Err::<Option<StateView>, _>(e),
        },
{
}

/// `idx` on a map finds what `get` finds: a missing key leads to nothing, and a present one to
/// the node under it.
pub proof fn law_idx_on_a_map(
    map: Arc<StateMap>,
    key: AlignedValue,
    found: Option<&StateValue>,
    r: Result<Option<StateValue>, nav::IdxError>,
)
    requires
        call_ensures(StateMap::get, (&*map, &key), found),
        call_ensures(nav::idx, (&StateValue::Mapping(map), &key), r),
    ensures
        found is None ==> r == Ok::<_, nav::IdxError>(None::<StateValue>),
        found is Some ==> r is Ok && r->Ok_0 is Some && r->Ok_0->Some_0@ == found->Some_0@,
{
    law_content_of_a_node(StateValue::Mapping(map));
    law_steps_from_a_map((*map)@, key@);
}

/// `idx` on an array reads the key as a `u8` and leads to the node at that place.
pub proof fn law_idx_on_an_array(
    nodes: Arc<Vec<StateValue>>,
    key: AlignedValue,
    index: Result<u8, InvalidBuiltinDecode>,
    r: Result<Option<StateValue>, nav::IdxError>,
)
    requires
        call_ensures(AlignedValue::to_u8, (&key,), index),
        call_ensures(nav::idx, (&StateValue::Array(nodes), &key), r),
    ensures
        match index {
            Ok(i) => {
                &&& i < (*nodes)@.len() ==> r is Ok && r->Ok_0 is Some && r->Ok_0->Some_0@
                    == (*nodes)@[i as int]@
                &&& i >= (*nodes)@.len() ==> r == Err::<Option<StateValue>, _>(
                    nav::IdxError::IndexOutOfBounds(i),
                )
            },
            Err(e) => r == Err::<Option<StateValue>, _>(nav::IdxError::Decode(e)),
        },
{
    let node = StateValue::Array(nodes);
    law_content_of_a_node(node);
    law_nodes_are_their_content(node, node);
    assert(node@ == StateView::Array(node@->Array_0));
    match index {
        Ok(i) => {
            if i < (*nodes)@.len() {
                assert(node@->Array_0[i as int] == (*nodes)@[i as int]@);
            }
        },
        Err(_) => {},
    }
}

/// The value that a cell holds.
spec fn held_by(cell: Arc<AlignedValue>) -> AlignedValue {
    *cell
}

/// `idx` on a Merkle tree reads the key as a `u64` and leads to the leaf at that position: outside
/// the range of the tree it is an error, without a leaf it leads to nothing, and with a leaf it
/// leads to a cell with the value that the leaf's digest makes.
pub proof fn law_idx_on_a_tree(
    tree: Arc<MerkleTree>,
    key: AlignedValue,
    position: Result<u64, InvalidBuiltinDecode>,
    height: u8,
    leaf: Option<&[u8; 32]>,
    held: AlignedValue,
    r: Result<Option<StateValue>, nav::IdxError>,
)
    requires
        call_ensures(AlignedValue::to_u64, (&key,), position),
        call_ensures(MerkleTree::height, (&*tree,), height),
        position is Ok ==> call_ensures(MerkleTree::index, (&*tree, position->Ok_0), leaf),
        leaf is Some ==> call_ensures(AlignedValue::from_digest, (leaf->Some_0,), held),
        call_ensures(nav::idx, (&StateValue::BoundedMerkleTree(tree), &key), r),
    ensures
        match position {
            Ok(p) => {
                &&& p >= pow(2, height as nat) ==> r == Err::<Option<StateValue>, _>(
                    nav::IdxError::MissingKey,
                )
                &&& p < pow(2, height as nat) && leaf is None ==> r == Ok::<_, nav::IdxError>(
                    None::<StateValue>,
                )
                &&& p < pow(2, height as nat) && leaf is Some ==> {
                    &&& r is Ok && r->Ok_0 is Some
                    &&& r->Ok_0->Some_0 matches StateValue::Cell(cell) && (*cell)@ == held@
                        && is_one_byte_string(*cell, 32)
                }
            },
            Err(e) => r == Err::<Option<StateValue>, _>(nav::IdxError::Decode(e)),
        },
{
    let node = StateValue::BoundedMerkleTree(tree);
    law_content_of_a_node(node);
    vstd::arithmetic::power2::lemma_pow2(height as nat);
    if r is Ok && r->Ok_0 is Some {
        law_nodes_are_their_content(r->Ok_0->Some_0, r->Ok_0->Some_0);
        law_content_of_a_node(r->Ok_0->Some_0);
        match r->Ok_0->Some_0 {
            StateValue::Cell(cell) => {
                if leaf is Some {
                    let value = held_by(cell);
                    super::values::law_digest_values(*leaf->Some_0, held);
                    super::values::law_values_are_their_atoms_and_alignment(value, held);
                    super::values::law_alignments_are_their_segments(
                        value.alignment,
                        held.alignment,
                    );
                    if value@ == held@ {
                        super::values::law_segments_are_atoms_or_choices(
                            value.alignment.segments@[0],
                            held.alignment.segments@[0],
                        );
                    }
                }
            },
            _ => {},
        }
    }
}

/// `idx` on a cell and on null is refused, whatever the key.
pub proof fn law_idx_on_a_leaf(
    sv: StateValue,
    key: AlignedValue,
    r: Result<Option<StateValue>, nav::IdxError>,
)
    requires
        sv is Cell || sv is Null,
        call_ensures(nav::idx, (&sv, &key), r),
    ensures
        r == Err::<Option<StateValue>, _>(nav::IdxError::UnsupportedVariant),
{
    law_nodes_are_their_content(sv, sv);
}

/// Whether nodes follow each other along a path: the first key leads from the first node to the
/// second, and so on to the last.
pub open spec fn is_trail(trail: Seq<StateView>, node: StateView, keys: Seq<ValueView>) -> bool {
    &&& trail.len() == keys.len() + 1
    &&& trail[0] == node
    &&& forall|i: int|
        0 <= i < keys.len() ==> nav::step(#[trigger] trail[i], keys[i]) == Ok::<_, nav::IdxError>(
            Some(trail[i + 1]),
        )
}

/// Where a path leads is where its keys lead one after the other, along all of it. It reaches a
/// node where every key leads on, and that node is where the last key leads; it stops at the
/// first key that leads to nothing or to an error, with what that key leads to.
pub proof fn law_paths_follow_a_trail(node: StateView, keys: Seq<ValueView>) -> (trail: Seq<StateView>)
    ensures
        match nav::walk(node, keys) {
            Ok(Some(end)) => is_trail(trail, node, keys) && end == trail.last(),
            Ok(None) => {
                let n = trail.len() - 1;
                &&& 0 <= n < keys.len()
                &&& is_trail(trail, node, keys.take(n))
                &&& nav::step(trail[n], keys[n]) == Ok::<_, nav::IdxError>(None::<StateView>)
            },
            Err(e) => {
                let n = trail.len() - 1;
                &&& 0 <= n < keys.len()
                &&& is_trail(trail, node, keys.take(n))
                &&& nav::step(trail[n], keys[n]) == Err::<Option<StateView>, _>(e)
            },
        },
    decreases keys.len(),
{
    if keys.len() == 0 {
        seq![node]
    } else {
        match nav::step(node, keys[0]) {
            Ok(Some(next)) => {
                let rest_keys = keys.drop_first();
                let rest = law_paths_follow_a_trail(next, rest_keys);
                let trail = seq![node] + rest;
                let n = trail.len() - 1;
                let used = if nav::walk(node, keys) is Ok && nav::walk(node, keys)->Ok_0 is Some {
                    keys
                } else {
                    keys.take(n)
                };
                assert forall|i: int| 0 <= i < used.len() implies nav::step(
                    #[trigger] trail[i],
                    used[i],
                ) == Ok::<_, nav::IdxError>(Some(trail[i + 1])) by {
                    if i > 0 {
                        assert(trail[i] == rest[i - 1]);
                        assert(trail[i + 1] == rest[i]);
                        assert(used[i] == rest_keys[i - 1]);
                        assert(rest_keys.take(n - 1).len() == n - 1);
                        if used.len() == n && n <= keys.len() {
                            if i - 1 < n - 1 {
                                assert(rest_keys.take(n - 1)[i - 1] == rest_keys[i - 1]);
                            }
                        }
                    } else {
                        assert(rest[0] == next);
                    }
                }
                trail
            },
            _ => {
                assert(keys.take(0) =~= Seq::empty());
                seq![node]
            },
        }
    }
}

/// What a path leads to is all that a trail allows: from the nodes along a path its end can be
/// told, and where the next key leads to nothing or to an error, so does every longer path.
pub proof fn law_trails_lead_to_the_end(
    node: StateView,
    keys: Seq<ValueView>,
    trail: Seq<StateView>,
    rest: Seq<ValueView>,
)
    requires
        is_trail(trail, node, keys),
    ensures
        nav::walk(node, keys) == Ok::<_, nav::IdxError>(Some(trail.last())),
        rest.len() > 0 && nav::step(trail.last(), rest[0]) is Err ==> nav::walk(node, keys + rest)
            == nav::step(trail.last(), rest[0]),
        rest.len() > 0 && nav::step(trail.last(), rest[0]) == Ok::<_, nav::IdxError>(
            None::<StateView>,
        ) ==> nav::walk(node, keys + rest) == nav::step(trail.last(), rest[0]),
    decreases keys.len(),
{
    if keys.len() == 0 {
        assert(keys + rest =~= rest);
    } else {
        assert(nav::step(trail[0], keys[0]) == Ok::<_, nav::IdxError>(Some(trail[1])));
        let tail = trail.drop_first();
        let tail_keys = keys.drop_first();
        assert forall|i: int| 0 <= i < tail_keys.len() implies nav::step(
            #[trigger] tail[i],
            tail_keys[i],
        ) == Ok::<_, nav::IdxError>(Some(tail[i + 1])) by {
            assert(tail[i] == trail[i + 1]);
        }
        law_trails_lead_to_the_end(trail[1], tail_keys, tail, rest);
        assert(tail.last() == trail.last());
        assert((keys + rest).drop_first() =~= tail_keys + rest);
    }
}

/// The content of a list of keys is that of each key, place by place.
pub proof fn law_key_lists(keys: Seq<AlignedValue>)
    ensures
        key_views(keys).len() == keys.len(),
        forall|i: int| 0 <= i < keys.len() ==> key_views(keys)[i] == (#[trigger] keys[i])@,
{
}

/// `idx_path` leads where the path leads: along all keys to a node with that content, to nothing,
/// or to that error.
pub proof fn law_idx_path_takes_the_path(
    sv: StateValue,
    keys: &[AlignedValue],
    r: Result<Option<StateValue>, nav::IdxError>,
)
    requires
        call_ensures(nav::idx_path, (&sv, keys), r),
    ensures
        match r {
            Ok(Some(node)) => nav::walk(sv@, key_views(keys@)) == Ok::<_, nav::IdxError>(
                Some(node@),
            ),
            Ok(None) => nav::walk(sv@, key_views(keys@)) == Ok::<_, nav::IdxError>(
                None::<StateView>,
            ),
            Err(e) => nav::walk(sv@, key_views(keys@)) == Err::<Option<StateView>, _>(e),
        },
{
}

/// Taking the first key with `idx` and the others with `idx_path` leads where the whole path
/// leads; the empty path leads to the node itself.
pub proof fn law_idx_path_is_idx_key_by_key(
    sv: StateValue,
    keys: &[AlignedValue],
    whole: Result<Option<StateValue>, nav::IdxError>,
    first: Result<Option<StateValue>, nav::IdxError>,
    rest: &[AlignedValue],
    end: Result<Option<StateValue>, nav::IdxError>,
)
    requires
        call_ensures(nav::idx_path, (&sv, keys), whole),
        keys@.len() > 0 ==> call_ensures(nav::idx, (&sv, &keys@[0]), first),
        keys@.len() > 0 ==> rest@ == keys@.drop_first(),
        first is Ok && first->Ok_0 is Some ==> call_ensures(
            nav::idx_path,
            (&first->Ok_0->Some_0, rest),
            end,
        ),
    ensures
        keys@.len() == 0 ==> whole is Ok && whole->Ok_0 is Some && whole->Ok_0->Some_0@ == sv@,
        keys@.len() > 0 ==> (match first {
            Ok(Some(_)) => match end {
                Ok(Some(node)) => whole is Ok && whole->Ok_0 is Some && whole->Ok_0->Some_0@
                    == node@,
                Ok(None) => whole == Ok::<_, nav::IdxError>(None::<StateValue>),
                Err(e) => whole == Err::<Option<StateValue>, _>(e),
            },
            Ok(None) => whole == Ok::<_, nav::IdxError>(None::<StateValue>),
            Err(e) => whole == Err::<Option<StateValue>, _>(e),
        }),
{
    if keys@.len() > 0 {
        assert(key_views(keys@).drop_first() =~= key_views(keys@.drop_first()));
        assert(key_views(keys@)[0] == keys@[0]@);
    }
}

/// Whether the result of a query's navigation is the result of navigation, with the error as
/// queries report it.
pub open spec fn agrees(
    a: Result<Option<StateValue>, nav::IdxError>,
    b: Result<Option<StateValue>, query::IdxError>,
) -> bool {
    match (a, b) {
        (Ok(Some(x)), Ok(Some(y))) => x@ == y@,
        (Ok(None), Ok(None)) => true,
        (
            Err(nav::IdxError::IndexOutOfBounds(i)),
            Err(query::IdxError::IndexOutOfBounds(j)),
        ) => i == j,
        (Err(nav::IdxError::Decode(e)), Err(query::IdxError::InvalidKey(msg))) => {
            if e == InvalidBuiltinDecode("u8") {
                msg@ == "cannot convert key to array index"@
            } else {
                msg@ == "cannot convert key to tree position"@
            }
        },
        (Err(nav::IdxError::MissingKey), Err(query::IdxError::MissingKey)) => true,
        (
            Err(nav::IdxError::UnsupportedVariant),
            Err(query::IdxError::UnsupportedVariant),
        ) => true,
        _ => false,
    }
}

/// The two ways to take a key, and the two ways to take a path, lead to the same nodes, and fail
/// alike.
pub proof fn law_calls_agree(
    sv: StateValue,
    key: AlignedValue,
    nav_step: Result<Option<StateValue>, nav::IdxError>,
    query_step: Result<Option<StateValue>, query::IdxError>,
    keys: &[AlignedValue],
    nav_path: Result<Option<StateValue>, nav::IdxError>,
    query_path: Result<Option<StateValue>, query::IdxError>,
)
    requires
        call_ensures(nav::idx, (&sv, &key), nav_step),
        call_ensures(query::idx, (&sv, &key), query_step),
        call_ensures(nav::idx_path, (&sv, keys), nav_path),
        call_ensures(query::idx_path, (&sv, keys), query_path),
    ensures
        agrees(nav_step, query_step),
        agrees(nav_path, query_path),
{
    super::law_short_paths(sv@, key@);
    super::law_navigations_agree(sv@, seq![key@]);
    super::law_navigations_agree(sv@, key_views(keys@));
    assert(InvalidBuiltinDecode("u8") != InvalidBuiltinDecode("u64")) by {
        reveal_strlit("u8");
        reveal_strlit("u64");
        assert("u8"@.len() != "u64"@.len());
    }
}

/// The text of a navigation error: an index out of bounds is named in decimal digits, a refused
/// reading has its own text, and the other two have a fixed one.
pub proof fn law_navigation_error_texts(
    e: nav::IdxError,
    text: String,
    cause: InvalidBuiltinDecode,
    cause_text: String,
)
    requires
        call_ensures(nav::IdxError::to_string, (&e,), text),
        call_ensures(InvalidBuiltinDecode::to_string, (&cause,), cause_text),
    ensures
        match e {
            nav::IdxError::IndexOutOfBounds(i) => is_index_text(text@, i),
            nav::IdxError::Decode(d) => d == cause ==> text@ == cause_text@,
            nav::IdxError::MissingKey => text@ == "key not found"@,
            nav::IdxError::UnsupportedVariant => text@
                == "unsupported variant: only array, map, and merkle tree can be indexed"@,
        },
{
    if let nav::IdxError::IndexOutOfBounds(i) = e {
        lemma_index_text(text@, i);
    }
}

/// Whether a text names an index that is out of bounds, in decimal digits that stand for it and
/// without a needless zero in front.
pub open spec fn is_index_text(text: Seq<char>, i: u8) -> bool {
    exists|digits: Seq<char>|
        {
            &&& text == "index "@ + digits + " out of bounds"@
            &&& #[trigger] digits_value(digits) == i
            &&& digits.len() > 0
            &&& forall|j: int| 0 <= j < digits.len() ==> '0' <= #[trigger] digits[j] <= '9'
            &&& digits.len() > 1 ==> digits[0] != '0'
        }
}

proof fn lemma_index_text(text: Seq<char>, i: u8)
    requires
        text == "index "@ + crate::text::decimal(i as nat) + " out of bounds"@,
    ensures
        is_index_text(text, i),
{
    super::values::law_decimal_notation(i as nat);
    let digits = crate::text::decimal(i as nat);
    assert(digits_value(digits) == i);
}

/// The text of an error that a query reports: that of navigation for the errors they share, and
/// the message behind a fixed piece for a key that cannot be converted.
pub proof fn law_query_error_texts(
    e: query::IdxError,
    text: String,
    copy: query::IdxError,
)
    requires
        call_ensures(query::IdxError::to_string, (&e,), text),
        call_ensures(<query::IdxError as Clone>::clone, (&e,), copy),
    ensures
        copy == e,
        e@.text() == text@,
        match e {
            query::IdxError::IndexOutOfBounds(i) => is_index_text(text@, i),
            query::IdxError::InvalidKey(msg) => text@ == "invalid key: "@ + msg@,
            query::IdxError::MissingKey => text@ == "key not found"@,
            query::IdxError::UnsupportedVariant => text@
                == "unsupported variant: only array, map, and merkle tree can be indexed"@,
        },
{
    if let query::IdxError::IndexOutOfBounds(i) = e {
        lemma_index_text(text@, i);
    }
}

/// The content of an error that a query reports is the error itself, with its message.
pub proof fn law_query_errors_are_their_content(e: query::IdxError)
    ensures
        match e {
            query::IdxError::IndexOutOfBounds(i) => e@ == IdxErrorView::IndexOutOfBounds(i),
            query::IdxError::InvalidKey(msg) => e@ == IdxErrorView::InvalidKey(msg@),
            query::IdxError::MissingKey => e@ is MissingKey,
            query::IdxError::UnsupportedVariant => e@ is UnsupportedVariant,
        },
{
}

/// Every node and every key, and every path, can be asked for: navigation has no precondition.
pub proof fn law_navigation_is_total(sv: StateValue, key: AlignedValue, keys: &[AlignedValue])
    ensures
        call_requires(nav::idx, (&sv, &key)),
        call_requires(nav::idx_path, (&sv, keys)),
        call_requires(query::idx, (&sv, &key)),
        call_requires(query::idx_path, (&sv, keys)),
        call_requires(query::resolve, (&sv, keys)),
{
}

} // verus!
