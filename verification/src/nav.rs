//! Navigation of a state tree by keys.
//!
//! Each key is interpreted by the node that it is applied to: as an array index, a map key, or a
//! Merkle tree position.
use std::sync::Arc;
use vstd::arithmetic::power2::pow2;
use vstd::prelude::*;
use vstd::string::StringExecFns;
use crate::state::{StateValue, StateView};
use crate::text::{join, write_decimal};
use crate::value::{AlignedValue, InvalidBuiltinDecode, ValueView};

verus! {

/// Error from [`idx`] and [`idx_path`].
#[derive(Clone, Copy, Debug, PartialEq)]
pub enum IdxError {
    /// The array index is valid but exceeds the array length.
    IndexOutOfBounds(u8),
    /// The key could not be converted to the type that the node asks for.
    Decode(InvalidBuiltinDecode),
    /// The Merkle tree position is outside the tree's range.
    MissingKey,
    /// The node cannot be indexed: it is a cell or null.
    UnsupportedVariant,
}

impl IdxError {
    /// The text of an error.
    pub open spec fn text(self) -> Seq<char> {
        match self {
            IdxError::IndexOutOfBounds(i) => "index "@ + crate::text::decimal(i as nat)
                + " out of bounds"@,
            IdxError::Decode(e) => e.text(),
            IdxError::MissingKey => "key not found"@,
            IdxError::UnsupportedVariant =>
                "unsupported variant: only array, map, and merkle tree can be indexed"@,
        }
    }

    /// The text of the error.
    pub fn to_string(&self) -> (r: String)
        ensures
            r@ == self.text(),
    {
        match self {
            IdxError::IndexOutOfBounds(i) => {
                let mut r = join("index ", write_decimal(*i as u64).as_str());
                r.append(" out of bounds");
                r
            },
            IdxError::Decode(e) => e.to_string(),
            IdxError::MissingKey => String::from_str("key not found"),
            IdxError::UnsupportedVariant => String::from_str(
                "unsupported variant: only array, map, and merkle tree can be indexed",
            ),
        }
    }
}

/// Where one key leads from a node.
///
/// - From an array, the key is a `u8` index, which has to be within the array.
/// - From a map, the key is looked up as it is.
/// - From a Merkle tree, the key is a `u64` position, which has to be within the tree's range;
///   it leads to a cell with the digest of the leaf at that position.
/// - From a cell or null, no key leads anywhere.
///
/// A map key or tree position that is not filled leads to nothing, which is no error.
pub open spec fn step(node: StateView, key: ValueView) -> Result<Option<StateView>, IdxError> {
    match node {
        StateView::Array(nodes) => match crate::value::decoded(key, 1) {
            Some(i) => if i < nodes.len() {
                Ok(Some(nodes[i as int]))
            } else {
                Err(IdxError::IndexOutOfBounds(i as u8))
            },
            None => Err(IdxError::Decode(InvalidBuiltinDecode("u8"))),
        },
        StateView::Mapping(map) => if map.contains_key(key) {
            Ok(Some(map[key]))
        } else {
            Ok(None)
        },
        StateView::BoundedMerkleTree(tree) => match crate::value::decoded(key, 8) {
            Some(position) => if position >= pow2(tree.height) {
                Err(IdxError::MissingKey)
            } else if tree.leaves.contains_key(position as u64) {
                Ok(
                    Some(
                        StateView::Cell(
                            crate::value::digest_value(tree.leaves[position as u64]),
                        ),
                    ),
                )
            } else {
                Ok(None)
            },
            None => Err(IdxError::Decode(InvalidBuiltinDecode("u64"))),
        },
        StateView::Cell(_) | StateView::Null => Err(IdxError::UnsupportedVariant),
    }
}

/// Where a path of keys leads from a node: each key is applied where the keys before it led, up
/// to the first that leads to nothing or to an error.
pub open spec fn walk(node: StateView, keys: Seq<ValueView>) -> Result<Option<StateView>, IdxError>
    decreases keys.len(),
{
    if keys.len() == 0 {
        Ok(Some(node))
    } else {
        match step(node, keys[0]) {
            Ok(Some(next)) => walk(next, keys.drop_first()),
            Ok(None) => Ok(None),
            Err(e) => Err(e),
        }
    }
}

/// The views of a list of keys.
pub open spec fn key_views(keys: Seq<AlignedValue>) -> Seq<ValueView> {
    keys.map_values(|key: AlignedValue| key@)
}

/// A result of navigation, with the node that was reached seen through its view.
pub open spec fn reached<E>(r: Result<Option<StateValue>, E>) -> Result<Option<StateView>, E> {
    match r {
        Ok(Some(node)) => Ok(Some(node@)),
        Ok(None) => Ok(None),
        Err(e) => Err(e),
    }
}

/// Navigates one level into a node.
pub fn idx(sv: &StateValue, key: &AlignedValue) -> (r: Result<Option<StateValue>, IdxError>)
    ensures
        reached(r) == step(sv@, key@),
{
    reveal_with_fuel(<StateValue as View>::view, 2);
    match sv {
        StateValue::Array(nodes) => match key.to_u8() {
            Ok(index) => if (index as usize) < nodes.len() {
                Ok(Some(nodes[index as usize].clone()))
            } else {
                Err(IdxError::IndexOutOfBounds(index))
            },
            Err(e) => Err(IdxError::Decode(e)),
        },
        StateValue::Mapping(map) => match map.get(key) {
            Some(node) => Ok(Some(node.clone())),
            None => Ok(None),
        },
        StateValue::BoundedMerkleTree(tree) => match key.to_u64() {
            Ok(position) => {
                let height = tree.height();
                proof {
                    vstd::bits::lemma_u64_pow2_no_overflow(height as nat);
                    vstd::bits::lemma_u64_shl_is_mul(1, height as u64);
                }
                if position >= (1u64 << (height as u64)) {
                    return Err(IdxError::MissingKey);
                }
                match tree.index(position) {
                    Some(digest) => Ok(
                        Some(StateValue::Cell(Arc::new(AlignedValue::from_digest(digest)))),
                    ),
                    None => Ok(None),
                }
            },
            Err(e) => Err(IdxError::Decode(e)),
        },
        StateValue::Cell(_) | StateValue::Null => Err(IdxError::UnsupportedVariant),
    }
}

/// Navigates a full path of keys. Stops early where a key is not found.
pub fn idx_path(sv: &StateValue, keys: &[AlignedValue]) -> (r: Result<
    Option<StateValue>,
    IdxError,
>)
    ensures
        reached(r) == walk(sv@, key_views(keys@)),
{
    let mut current = sv.clone();
    let mut i: usize = 0;
    assert(key_views(keys@).skip(0) =~= key_views(keys@));
    while i < keys.len()
        invariant
            i <= keys.len(),
            walk(current@, key_views(keys@).skip(i as int)) == walk(sv@, key_views(keys@)),
        decreases keys.len() - i,
    {
        let ghost rest = key_views(keys@).skip(i as int);
        assert(rest[0] == keys@[i as int]@);
        assert(rest.drop_first() =~= key_views(keys@).skip(i + 1));
        match idx(&current, &keys[i]) {
            Ok(Some(next)) => {
                current = next;
            },
            Ok(None) => {
                return Ok(None);
            },
            Err(e) => {
                return Err(e);
            },
        }
        i += 1;
    }
    Ok(Some(current))
}

} // verus!
