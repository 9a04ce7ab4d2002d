//! The nodes of a contract's state tree.
use std::collections::BTreeMap;
use std::sync::Arc;
use vstd::arithmetic::power2::pow2;
use vstd::prelude::*;
use crate::value::{AlignedValue, ValueView};

verus! {

/// A node of the state tree. Nodes are shared: cloning one copies a pointer.
#[derive(Debug)]
pub enum StateValue {
    Null,
    Cell(Arc<AlignedValue>),
    Mapping(Arc<StateMap>),
    Array(Arc<Vec<StateValue>>),
    BoundedMerkleTree(Arc<MerkleTree>),
}

/// A map from keys to nodes, with at most one node for each key.
#[derive(Debug)]
pub struct StateMap {
    entries: Vec<(AlignedValue, StateValue)>,
}

/// A Merkle tree with `2^height` positions, of which some hold a leaf digest.
#[derive(Debug)]
pub struct MerkleTree {
    height: u8,
    leaves: BTreeMap<u64, [u8; 32]>,
}

/// The mathematical content of a [`MerkleTree`].
#[verifier::ext_equal]
pub struct TreeView {
    pub height: nat,
    pub leaves: Map<u64, Seq<u8>>,
}

/// The mathematical content of a [`StateValue`].
pub enum StateView {
    Null,
    Cell(ValueView),
    Mapping(Map<ValueView, StateView>),
    Array(Seq<StateView>),
    BoundedMerkleTree(TreeView),
}

impl View for StateValue {
    type V = StateView;

    open spec fn view(&self) -> StateView
        decreases self,
    {
        match self {
            StateValue::Null => StateView::Null,
            StateValue::Cell(value) => StateView::Cell((**value)@),
            StateValue::Mapping(map) => StateView::Mapping((**map).view()),
            StateValue::Array(nodes) => StateView::Array(
                Seq::new(
                    nodes@.len(),
                    |i: int|
                        if 0 <= i < nodes@.len() {
                            nodes@[i].view()
                        } else {
                            StateView::Null
                        },
                ),
            ),
            StateValue::BoundedMerkleTree(tree) => StateView::BoundedMerkleTree((**tree)@),
        }
    }
}

impl View for StateMap {
    type V = Map<ValueView, StateView>;

    closed spec fn view(&self) -> Map<ValueView, StateView>
        decreases self,
    {
        entries_view(self.entries@)
    }
}

impl View for MerkleTree {
    type V = TreeView;

    closed spec fn view(&self) -> TreeView {
        TreeView {
            height: self.height as nat,
            leaves: self.leaves@.map_values(|digest: [u8; 32]| digest@),
        }
    }
}

/// The map that a list of entries stands for.
spec fn entries_view(entries: Seq<(AlignedValue, StateValue)>) -> Map<ValueView, StateView>
    decreases entries,
{
    if entries.len() == 0 {
        Map::empty()
    } else {
        entries_view(entries.drop_last()).insert(entries.last().0@, entries.last().1.view())
    }
}

/// Whether no key occurs twice in a list of entries.
spec fn distinct_keys(entries: Seq<(AlignedValue, StateValue)>) -> bool {
    forall|i: int, j: int|
        0 <= i < j < entries.len() ==> #[trigger] entries[i].0@ != #[trigger] entries[j].0@
}

/// Whether `entries[i]` is the entry of `key`.
spec fn entry_at(entries: Seq<(AlignedValue, StateValue)>, key: ValueView, i: int) -> bool {
    0 <= i < entries.len() && entries[i].0@ == key
}

/// Where no key occurs twice, the map holds exactly the listed entries.
proof fn lemma_entries_view(entries: Seq<(AlignedValue, StateValue)>)
    requires
        distinct_keys(entries),
    ensures
        forall|key: ValueView| #[trigger]
            entries_view(entries).contains_key(key) <==> exists|i: int| entry_at(entries, key, i),
        forall|key: ValueView, i: int| #[trigger]
            entry_at(entries, key, i) ==> entries_view(entries).contains_key(key)
                && entries_view(entries)[key] == entries[i].1@,
    decreases entries.len(),
{
    reveal_with_fuel(entries_view, 2);
    if entries.len() > 0 {
        let front = entries.drop_last();
        let last = entries.len() - 1;
        assert(distinct_keys(front)) by {
            assert forall|i: int, j: int| 0 <= i < j < front.len() implies #[trigger] front[i].0@
                != #[trigger] front[j].0@ by {
                assert(entries[i].0@ != entries[j].0@);
            }
        }
        lemma_entries_view(front);
        assert forall|key: ValueView| #[trigger]
            entries_view(entries).contains_key(key) <==> exists|i: int|
                entry_at(entries, key, i) by {
            if entries_view(entries).contains_key(key) {
                if key == entries[last].0@ {
                    assert(entry_at(entries, key, last));
                } else {
                    assert(entries_view(front).contains_key(key));
                    let i = choose|i: int| entry_at(front, key, i);
                    assert(entry_at(entries, key, i));
                }
            }
            if exists|i: int| entry_at(entries, key, i) {
                let i = choose|i: int| entry_at(entries, key, i);
                if i < last {
                    assert(entry_at(front, key, i));
                    assert(entries_view(front).contains_key(key));
                }
            }
        }
        assert forall|key: ValueView, i: int| #[trigger]
            entry_at(entries, key, i) implies entries_view(entries).contains_key(key)
            && entries_view(entries)[key] == entries[i].1@ by {
            if i < last {
                assert(entry_at(front, key, i));
                assert(entries[i].0@ != entries[last].0@);
            }
        }
    }
}

/// Makes another pointer to a shared node, by a call of `Arc::clone`: the new pointer leads to
/// the same data as the old one.
#[verifier::external_body]
fn share<T>(pointer: &Arc<T>) -> (r: Arc<T>)
    ensures
        r == *pointer,
{
    Arc::clone(pointer)
}

impl Clone for StateValue {
    /// Another handle on the same node.
    fn clone(&self) -> (r: StateValue)
        ensures
            r == *self,
    {
        match self {
            StateValue::Null => StateValue::Null,
            StateValue::Cell(value) => StateValue::Cell(share(value)),
            StateValue::Mapping(map) => StateValue::Mapping(share(map)),
            StateValue::Array(nodes) => StateValue::Array(share(nodes)),
            StateValue::BoundedMerkleTree(tree) => StateValue::BoundedMerkleTree(share(tree)),
        }
    }
}

// A node is known by its view, so `from` states its result in its own postcondition.
impl vstd::std_specs::convert::FromSpecImpl<u64> for StateValue {
    open spec fn obeys_from_spec() -> bool {
        false
    }

    open spec fn from_spec(n: u64) -> StateValue {
        arbitrary()
    }
}

impl From<u64> for StateValue {
    /// A cell that holds a `u64`.
    fn from(n: u64) -> (r: StateValue)
        ensures
            r@ == StateView::Cell(crate::value::number_value(n as nat, 8)),
    {
        StateValue::Cell(Arc::new(AlignedValue::from(n)))
    }
}

impl StateMap {
    #[verifier::type_invariant]
    spec fn inv(self) -> bool {
        distinct_keys(self.entries@)
    }

    /// The position of a key's entry, where it has one.
    fn find(&self, key: &AlignedValue) -> (r: Option<usize>)
        ensures
            match r {
                Some(i) => entry_at(self.entries@, key@, i as int),
                None => forall|i: int| !entry_at(self.entries@, key@, i),
            },
    {
        let mut i: usize = 0;
        while i < self.entries.len()
            invariant
                i <= self.entries.len(),
                forall|j: int| 0 <= j < i ==> !entry_at(self.entries@, key@, j),
            decreases self.entries.len() - i,
        {
            if self.entries[i].0.same(key) {
                return Some(i);
            }
            i += 1;
        }
        None
    }

    /// The node that is stored under a key.
    pub fn get(&self, key: &AlignedValue) -> (r: Option<&StateValue>)
        ensures
            match r {
                Some(node) => self@.contains_key(key@) && node@ == self@[key@],
                None => !self@.contains_key(key@),
            },
    {
        proof {
            use_type_invariant(self);
            reveal_with_fuel(<StateMap as View>::view, 2);
            lemma_entries_view(self.entries@);
        }
        match self.find(key) {
            Some(i) => Some(&self.entries[i].1),
            None => {
                assert(!entries_view(self.entries@).contains_key(key@));
                None
            },
        }
    }

    /// The map with a node stored under a key, in place of the one that was there.
    pub fn insert(self, key: AlignedValue, node: StateValue) -> (r: StateMap)
        ensures
            r@ == self@.insert(key@, node@),
    {
        proof {
            use_type_invariant(&self);
            reveal_with_fuel(<StateMap as View>::view, 2);
            lemma_entries_view(self.entries@);
        }
        let found = self.find(&key);
        let mut entries = self.entries;
        let ghost before = entries@;
        match found {
            Some(i) => {
                entries.set(i, (key, node));
                assert(distinct_keys(entries@)) by {
                    assert forall|a: int, b: int| 0 <= a < b < entries@.len() implies #[trigger]
                    entries@[a].0@ != #[trigger] entries@[b].0@ by {
                        assert(before[a].0@ != before[b].0@);
                    }
                }
                proof {
                    lemma_entries_view(entries@);
                    assert forall|k: ValueView| #[trigger]
                        entries_view(entries@).contains_key(k) == entries_view(before).insert(
                            key@,
                            node@,
                        ).contains_key(k) by {
                        assert forall|j: int| #[trigger]
                            entry_at(entries@, k, j) == entry_at(before, k, j) by {}
                        if entries_view(before).contains_key(k) {
                            let j = choose|j: int| entry_at(before, k, j);
                            assert(entry_at(entries@, k, j));
                        }
                        assert(entry_at(entries@, key@, i as int));
                    }
                    assert forall|k: ValueView| #[trigger]
                        entries_view(entries@).contains_key(k) implies entries_view(entries@)[k]
                        == entries_view(before).insert(key@, node@)[k] by {
                        let j = choose|j: int| entry_at(entries@, k, j);
                        assert(entry_at(before, k, j));
                        assert(j == i <==> k == key@);
                    }
                }
            },
            None => {
                entries.push((key, node));
                assert(distinct_keys(entries@)) by {
                    assert forall|a: int, b: int| 0 <= a < b < entries@.len() implies #[trigger]
                    entries@[a].0@ != #[trigger] entries@[b].0@ by {
                        if b < before.len() {
                            assert(before[a].0@ != before[b].0@);
                        } else {
                            assert(!entry_at(before, key@, a));
                        }
                    }
                }
                assert(entries@.drop_last() =~= before);
            },
        }
        assert(entries_view(entries@) =~= entries_view(before).insert(key@, node@));
        StateMap { entries }
    }
}

impl Default for StateMap {
    /// The map without entries.
    fn default() -> (r: StateMap)
        ensures
            r@ == Map::<ValueView, StateView>::empty(),
    {
        StateMap { entries: Vec::new() }
    }
}

impl MerkleTree {
    #[verifier::type_invariant]
    spec fn inv(self) -> bool {
        &&& self.height < 64
        &&& forall|position: u64| #[trigger]
            self.leaves@.contains_key(position) ==> position < pow2(self.height as nat)
    }

    /// A tree without leaves. The number of its positions has to fit in a `u64`.
    pub fn blank(height: u8) -> (r: MerkleTree)
        requires
            height < 64,
        ensures
            r@ == (TreeView { height: height as nat, leaves: Map::empty() }),
    {
        let r = MerkleTree { height, leaves: BTreeMap::new() };
        assert(r@.leaves =~= Map::empty());
        r
    }

    /// The height of the tree.
    pub fn height(&self) -> (r: u8)
        ensures
            r == self@.height,
            r < 64,
    {
        proof {
            use_type_invariant(self);
        }
        self.height
    }

    /// The digest of the leaf at a position, where there is one.
    pub fn index(&self, position: u64) -> (r: Option<&[u8; 32]>)
        ensures
            match r {
                Some(digest) => self@.leaves.contains_key(position) && digest@
                    == self@.leaves[position],
                None => !self@.leaves.contains_key(position),
            },
    {
        broadcast use vstd::std_specs::btree::group_btree_axioms;
        self.leaves.get(&position)
    }

    /// The tree with a leaf at a position, in place of the one that was there.
    pub fn update(self, position: u64, digest: [u8; 32]) -> (r: MerkleTree)
        requires
            position < pow2(self@.height),
        ensures
            r@.height == self@.height,
            r@.leaves == self@.leaves.insert(position, digest@),
    {
        broadcast use vstd::std_specs::btree::group_btree_axioms;
        proof {
            use_type_invariant(&self);
        }
        let height = self.height;
        let mut leaves = self.leaves;
        leaves.insert(position, digest);
        let r = MerkleTree { height, leaves };
        assert(r@.leaves =~= self@.leaves.insert(position, digest@));
        r
    }
}

} // verus!
