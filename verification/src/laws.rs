//! What holds of navigation and of queries as a whole.
pub mod answers;
pub mod steps;
pub mod values;

use vstd::arithmetic::power2::pow2;
use vstd::prelude::*;
use crate::nav;
use crate::nav::key_views;
use crate::query;
use crate::query::{answers, answers_all, decode_gives, decodes_to, encode_gives, failed, fails_at};
use crate::query::{found, resolution, settles};
use crate::query::{AnswerView, IdxErrorView, StateQuery, StateQueryResult};
use crate::state::{StateValue, StateView, TreeView};
use crate::value::{decoded, number_value, AlignedValue, InvalidBuiltinDecode, ValueView};

verus! {

/// A key made of a number reads back as that number at every width that the number fits, and at
/// no smaller one.
pub proof fn law_number_keys_read_back(n: nat, alignment: u32, width: nat)
    ensures
        decoded(number_value(n, alignment), width) == (if n < crate::bytes::pow256(width) {
            Some(n)
        } else {
            None
        }),
{
    let atom = crate::bytes::le_bytes(n);
    crate::bytes::lemma_le_value_of_le_bytes(n);
    if n < crate::bytes::pow256(width) {
        crate::bytes::lemma_le_bytes_len(n, width);
    } else {
        crate::bytes::lemma_le_value_bound(atom);
        if atom.len() <= width {
            crate::bytes::lemma_pow256_monotonic(atom.len(), width);
        }
    }
}

/// Different numbers make different keys.
pub proof fn law_number_keys_differ(a: nat, b: nat, alignment: u32)
    requires
        a != b,
    ensures
        number_value(a, alignment) != number_value(b, alignment),
{
    crate::bytes::lemma_le_value_of_le_bytes(a);
    crate::bytes::lemma_le_value_of_le_bytes(b);
    assert(number_value(a, alignment).atoms[0] != number_value(b, alignment).atoms[0]);
}

/// The atoms of numbers and of digests are in normal form, and a digest's atom holds the same
/// number as the digest.
pub proof fn law_atoms_are_in_normal_form(n: nat, alignment: u32, digest: Seq<u8>)
    ensures
        crate::bytes::is_normal(number_value(n, alignment).atoms[0]),
        crate::bytes::is_normal(crate::value::digest_value(digest).atoms[0]),
        crate::bytes::le_value(crate::value::digest_value(digest).atoms[0])
            == crate::bytes::le_value(digest),
{
    crate::bytes::lemma_le_bytes_normal(n);
    crate::bytes::lemma_trimmed_normal(digest);
}

/// A number that fits in a byte leads from an array to the node at that place, and to an error
/// where the array has no such place. A greater number is no array index.
pub proof fn law_array_reads_by_index(nodes: Seq<StateView>, n: nat, alignment: u32)
    ensures
        n < 256 && n < nodes.len() ==> nav::step(
            StateView::Array(nodes),
            number_value(n, alignment),
        ) == Ok::<_, nav::IdxError>(Some(nodes[n as int])),
        n < 256 && n >= nodes.len() ==> nav::step(
            StateView::Array(nodes),
            number_value(n, alignment),
        ) == Err::<Option<StateView>, _>(nav::IdxError::IndexOutOfBounds(n as u8)),
        n >= 256 ==> nav::step(StateView::Array(nodes), number_value(n, alignment)) == Err::<
            Option<StateView>,
            _,
        >(nav::IdxError::Decode(InvalidBuiltinDecode("u8"))),
{
    crate::bytes::lemma_pow256_u64();
    law_number_keys_read_back(n, alignment, 1);
}

/// A map gives back what was stored last under a key, and storing under one key leaves what the
/// other keys lead to as it was.
pub proof fn law_map_reads_what_was_inserted(
    map: Map<ValueView, StateView>,
    key: ValueView,
    node: StateView,
    other: ValueView,
)
    ensures
        nav::step(StateView::Mapping(map.insert(key, node)), key) == Ok::<_, nav::IdxError>(
            Some(node),
        ),
        other != key ==> nav::step(StateView::Mapping(map.insert(key, node)), other) == nav::step(
            StateView::Mapping(map),
            other,
        ),
{
}

/// From a map every key leads to a node or to nothing, never to an error.
pub proof fn law_map_lookup_never_fails(map: Map<ValueView, StateView>, key: ValueView)
    ensures
        nav::step(StateView::Mapping(map), key) is Ok,
{
}

/// A Merkle tree gives back, as a cell, the digest that was stored last at a position, and
/// storing at one position leaves what the other positions lead to as it was.
pub proof fn law_tree_reads_what_was_stored(
    tree: TreeView,
    position: u64,
    digest: Seq<u8>,
    other: u64,
    alignment: u32,
)
    requires
        position < pow2(tree.height),
    ensures
        ({
            let after = TreeView {
                height: tree.height,
                leaves: tree.leaves.insert(position, digest),
            };
            &&& nav::step(
                StateView::BoundedMerkleTree(after),
                number_value(position as nat, alignment),
            ) == Ok::<_, nav::IdxError>(
                Some(StateView::Cell(crate::value::digest_value(digest))),
            )
            &&& other != position ==> nav::step(
                StateView::BoundedMerkleTree(after),
                number_value(other as nat, alignment),
            ) == nav::step(
                StateView::BoundedMerkleTree(tree),
                number_value(other as nat, alignment),
            )
        }),
{
    crate::bytes::lemma_pow256_u64();
    law_number_keys_read_back(position as nat, alignment, 8);
    law_number_keys_read_back(other as nat, alignment, 8);
}

/// A position outside a Merkle tree's range is an error, and an empty position within it leads
/// to nothing.
pub proof fn law_tree_positions_are_bounded(tree: TreeView, position: u64, alignment: u32)
    ensures
        position >= pow2(tree.height) ==> nav::step(
            StateView::BoundedMerkleTree(tree),
            number_value(position as nat, alignment),
        ) == Err::<Option<StateView>, _>(nav::IdxError::MissingKey),
        position < pow2(tree.height) && !tree.leaves.contains_key(position) ==> nav::step(
            StateView::BoundedMerkleTree(tree),
            number_value(position as nat, alignment),
        ) == Ok::<_, nav::IdxError>(None::<StateView>),
{
    crate::bytes::lemma_pow256_u64();
    law_number_keys_read_back(position as nat, alignment, 8);
}

/// No path leads on from a cell or from null.
pub proof fn law_leaves_are_dead_ends(node: StateView, keys: Seq<ValueView>)
    requires
        node is Cell || node is Null,
        keys.len() > 0,
    ensures
        nav::walk(node, keys) == Err::<Option<StateView>, _>(nav::IdxError::UnsupportedVariant),
        query::walk(node, keys) == Err::<Option<StateView>, _>(IdxErrorView::UnsupportedVariant),
{
}

/// The empty path leads to the node itself, and a path of one key leads where that key leads.
pub proof fn law_short_paths(node: StateView, key: ValueView)
    ensures
        nav::walk(node, Seq::empty()) == Ok::<_, nav::IdxError>(Some(node)),
        nav::walk(node, seq![key]) == nav::step(node, key),
        query::walk(node, Seq::empty()) == Ok::<_, IdxErrorView>(Some(node)),
        query::walk(node, seq![key]) == query::step(node, key),
{
    assert(seq![key].drop_first() =~= Seq::empty());
    reveal_with_fuel(nav::walk, 2);
    reveal_with_fuel(query::walk, 2);
}

/// A path leads where its second part leads from where its first part leads. Where the first
/// part leads to nothing or to an error, so does the whole path, whatever comes after.
pub proof fn law_paths_compose(node: StateView, first: Seq<ValueView>, second: Seq<ValueView>)
    ensures
        nav::walk(node, first + second) == (match nav::walk(node, first) {
            Ok(Some(next)) => nav::walk(next, second),
            Ok(None) => Ok(None),
            Err(e) => Err(e),
        }),
        query::walk(node, first + second) == (match query::walk(node, first) {
            Ok(Some(next)) => query::walk(next, second),
            Ok(None) => Ok(None),
            Err(e) => Err(e),
        }),
    decreases first.len(),
{
    if first.len() == 0 {
        assert(first + second =~= second);
    } else {
        assert((first + second).drop_first() =~= first.drop_first() + second);
        if let Ok(Some(next)) = nav::step(node, first[0]) {
            law_paths_compose(next, first.drop_first(), second);
        }
    }
}

/// Whether a query reports a navigation error by its own error of the same kind.
pub open spec fn same_kind(e: nav::IdxError, reported: IdxErrorView) -> bool {
    match e {
        nav::IdxError::IndexOutOfBounds(i) => reported == IdxErrorView::IndexOutOfBounds(i),
        nav::IdxError::Decode(cause) => reported == IdxErrorView::InvalidKey(
            if cause == InvalidBuiltinDecode("u8") {
                "cannot convert key to array index"@
            } else {
                "cannot convert key to tree position"@
            },
        ),
        nav::IdxError::MissingKey => reported == IdxErrorView::MissingKey,
        nav::IdxError::UnsupportedVariant => reported == IdxErrorView::UnsupportedVariant,
    }
}

/// The two navigations agree: they reach the same nodes, and fail on the same paths with errors
/// of the same kind.
pub proof fn law_navigations_agree(node: StateView, keys: Seq<ValueView>)
    ensures
        match nav::walk(node, keys) {
            Ok(next) => query::walk(node, keys) == Ok::<_, IdxErrorView>(next),
            Err(e) => query::walk(node, keys) matches Err(reported) && same_kind(e, reported),
        },
    decreases keys.len(),
{
    if keys.len() > 0 {
        assert(InvalidBuiltinDecode("u8") != InvalidBuiltinDecode("u64")) by {
            reveal_strlit("u8");
            reveal_strlit("u64");
            assert("u8"@.len() != "u64"@.len());
        }
        if let Ok(Some(next)) = nav::step(node, keys[0]) {
            law_navigations_agree(next, keys.drop_first());
        }
    }
}

/// Every answer echoes the path that was asked for.
pub proof fn law_answers_echo_the_path<
    D: Fn(&[u8]) -> Result<AlignedValue, String>,
    E: Fn(&StateValue) -> Result<Vec<u8>, String>,
>(root: StateView, decode: D, encode: E, path: Seq<Seq<u8>>, answer: AnswerView)
    requires
        answers(root, decode, encode, path, answer),
    ensures
        answer.path == path,
{
}

/// No answer carries both a value and an error.
pub proof fn law_answers_carry_value_or_error<
    D: Fn(&[u8]) -> Result<AlignedValue, String>,
    E: Fn(&StateValue) -> Result<Vec<u8>, String>,
>(root: StateView, decode: D, encode: E, path: Seq<Seq<u8>>, answer: AnswerView)
    requires
        answers(root, decode, encode, path, answer),
    ensures
        answer.value is None || answer.error is None,
{
}

/// Only leaves are handed out: an answer that carries a value carries the serialization of a
/// cell or of null, to which the keys of its path lead.
pub proof fn law_only_leaves_are_returned<
    D: Fn(&[u8]) -> Result<AlignedValue, String>,
    E: Fn(&StateValue) -> Result<Vec<u8>, String>,
>(root: StateView, decode: D, encode: E, path: Seq<Seq<u8>>, answer: AnswerView)
    requires
        answers(root, decode, encode, path, answer),
        answer.value is Some,
    ensures
        exists|keys: Seq<AlignedValue>, node: StateView, bytes: Vec<u8>|
            #![trigger decodes_to(decode, path, keys), encode_gives(encode, node, Ok(bytes))]
            {
                &&& decodes_to(decode, path, keys)
                &&& query::walk(root, key_views(keys)) == Ok::<_, IdxErrorView>(Some(node))
                &&& node is Cell || node is Null
                &&& encode_gives(encode, node, Ok(bytes))
                &&& answer.value == Some(bytes@)
            },
{
    let keys = choose|keys: Seq<AlignedValue>| #[trigger]
        decodes_to(decode, path, keys) && settles(
            encode,
            path,
            resolution(root, key_views(keys)),
            answer,
        );
    let node = query::walk(root, key_views(keys))->Ok_0->Some_0;
    let bytes = choose|bytes: Vec<u8>| #[trigger]
        encode_gives(encode, node, Ok(bytes)) && answer == found(path, Some(bytes@));
    assert(decodes_to(decode, path, keys) && encode_gives(encode, node, Ok(bytes)));
}

/// Whether two results of deserialization are the same key or the same error.
pub open spec fn same_key(a: Result<AlignedValue, String>, b: Result<AlignedValue, String>) -> bool {
    match (a, b) {
        (Ok(x), Ok(y)) => x@ == y@,
        (Err(x), Err(y)) => x@ == y@,
        _ => false,
    }
}

/// Whether two results of serialization are the same bytes or the same error.
pub open spec fn same_bytes(a: Result<Vec<u8>, String>, b: Result<Vec<u8>, String>) -> bool {
    match (a, b) {
        (Ok(x), Ok(y)) => x@ == y@,
        (Err(x), Err(y)) => x@ == y@,
        _ => false,
    }
}

/// Whether `decode` has one result for each byte string.
pub open spec fn decodes_one_way<D: Fn(&[u8]) -> Result<AlignedValue, String>>(decode: D) -> bool {
    forall|bytes: Seq<u8>, a: Result<AlignedValue, String>, b: Result<AlignedValue, String>|
        #[trigger] decode_gives(decode, bytes, a) && #[trigger] decode_gives(decode, bytes, b)
            ==> same_key(a, b)
}

/// Whether `encode` has one result for each node.
pub open spec fn encodes_one_way<E: Fn(&StateValue) -> Result<Vec<u8>, String>>(encode: E) -> bool {
    forall|node: StateView, a: Result<Vec<u8>, String>, b: Result<Vec<u8>, String>|
        #[trigger] encode_gives(encode, node, a) && #[trigger] encode_gives(encode, node, b)
            ==> same_bytes(a, b)
}

/// A path that can be turned into keys cannot also fail at one of its elements.
proof fn lemma_decoding_does_not_fail<D: Fn(&[u8]) -> Result<AlignedValue, String>>(
    decode: D,
    path: Seq<Seq<u8>>,
    keys: Seq<AlignedValue>,
    i: int,
    e: Seq<char>,
)
    requires
        decodes_one_way(decode),
        decodes_to(decode, path, keys),
    ensures
        !fails_at(decode, path, i, e),
{
    if fails_at(decode, path, i, e) {
        let msg = choose|msg: String| msg@ == e && #[trigger]
            decode_gives(decode, path[i], Err(msg));
        assert(decode_gives(decode, path[i], Ok(keys[i])));
        assert(same_key(Ok(keys[i]), Err(msg)));
    }
}

/// A path fails at one element only, with one error.
proof fn lemma_one_failure<D: Fn(&[u8]) -> Result<AlignedValue, String>>(
    decode: D,
    path: Seq<Seq<u8>>,
    i: int,
    e: Seq<char>,
    j: int,
    f: Seq<char>,
)
    requires
        decodes_one_way(decode),
        fails_at(decode, path, i, e),
        fails_at(decode, path, j, f),
        i <= j,
    ensures
        i == j,
        e == f,
{
    let msg = choose|msg: String| msg@ == e && #[trigger] decode_gives(decode, path[i], Err(msg));
    if i < j {
        let keys = choose|keys: Seq<AlignedValue>| #[trigger]
            decodes_to(decode, path.take(j), keys);
        assert(path.take(j)[i] == path[i]);
        assert(decode_gives(decode, path[i], Ok(keys[i])));
        assert(same_key(Ok(keys[i]), Err(msg)));
    } else {
        let other = choose|msg: String| msg@ == f && #[trigger]
            decode_gives(decode, path[j], Err(msg));
        assert(same_key(Err(msg), Err(other)));
    }
}

/// A path is turned into one list of keys only.
proof fn lemma_one_decoding<D: Fn(&[u8]) -> Result<AlignedValue, String>>(
    decode: D,
    path: Seq<Seq<u8>>,
    a: Seq<AlignedValue>,
    b: Seq<AlignedValue>,
)
    requires
        decodes_one_way(decode),
        decodes_to(decode, path, a),
        decodes_to(decode, path, b),
    ensures
        key_views(a) == key_views(b),
{
    assert forall|i: int| 0 <= i < path.len() implies #[trigger] a[i]@ == b[i]@ by {
        assert(decode_gives(decode, path[i], Ok(a[i])));
        assert(decode_gives(decode, path[i], Ok(b[i])));
        assert(same_key(Ok(a[i]), Ok(b[i])));
    }
    assert(key_views(a) =~= key_views(b));
}

/// Where deserialization and serialization have one result for each input, a query has one
/// answer: it depends on the root, on the path, and on nothing else.
pub proof fn law_answers_are_determined<
    D: Fn(&[u8]) -> Result<AlignedValue, String>,
    E: Fn(&StateValue) -> Result<Vec<u8>, String>,
>(root: StateView, decode: D, encode: E, path: Seq<Seq<u8>>, a: AnswerView, b: AnswerView)
    requires
        decodes_one_way(decode),
        encodes_one_way(encode),
        answers(root, decode, encode, path, a),
        answers(root, decode, encode, path, b),
    ensures
        a == b,
{
    if exists|keys: Seq<AlignedValue>| #[trigger] decodes_to(decode, path, keys) {
        let keys = choose|keys: Seq<AlignedValue>| #[trigger] decodes_to(decode, path, keys);
        law_answers_follow_the_keys(root, decode, encode, path, keys, a);
        law_answers_follow_the_keys(root, decode, encode, path, keys, b);
        if let query::ResolutionView::Leaf(node) = resolution(root, key_views(keys)) {
            assert forall|x: Result<Vec<u8>, String>, y: Result<Vec<u8>, String>|
                #[trigger] encode_gives(encode, node, x) && #[trigger] encode_gives(
                    encode,
                    node,
                    y,
                ) implies same_bytes(x, y) by {}
        }
    } else {
        let (i, e) = choose|i: int, e: Seq<char>| #[trigger]
            fails_at(decode, path, i, e) && a == failed(path, "bad key: "@ + e);
        let (j, f) = choose|j: int, f: Seq<char>| #[trigger]
            fails_at(decode, path, j, f) && b == failed(path, "bad key: "@ + f);
        if i <= j {
            lemma_one_failure(decode, path, i, e, j, f);
        } else {
            lemma_one_failure(decode, path, j, f, i, e);
        }
    }
}

/// Where every element of a path deserializes, the answer is settled by what the keys resolve
/// to, and no key is reported as bad.
pub proof fn law_answers_follow_the_keys<
    D: Fn(&[u8]) -> Result<AlignedValue, String>,
    E: Fn(&StateValue) -> Result<Vec<u8>, String>,
>(
    root: StateView,
    decode: D,
    encode: E,
    path: Seq<Seq<u8>>,
    keys: Seq<AlignedValue>,
    answer: AnswerView,
)
    requires
        decodes_one_way(decode),
        decodes_to(decode, path, keys),
        answers(root, decode, encode, path, answer),
    ensures
        settles(encode, path, resolution(root, key_views(keys)), answer),
{
    assert forall|i: int, e: Seq<char>| !#[trigger] fails_at(decode, path, i, e) by {
        lemma_decoding_does_not_fail(decode, path, keys, i, e);
    }
    let used = choose|used: Seq<AlignedValue>| #[trigger]
        decodes_to(decode, path, used) && settles(
            encode,
            path,
            resolution(root, key_views(used)),
            answer,
        );
    lemma_one_decoding(decode, path, keys, used);
}

/// A path whose keys lead to an array, a map or a Merkle tree is answered with an error that asks
/// for a deeper path, and carries no value. That no collection is handed to `encode` either is
/// what the precondition of [`query::query_state`] says: `encode` need accept leaves only.
pub proof fn law_collections_are_not_returned<
    D: Fn(&[u8]) -> Result<AlignedValue, String>,
    E: Fn(&StateValue) -> Result<Vec<u8>, String>,
>(
    root: StateView,
    decode: D,
    encode: E,
    path: Seq<Seq<u8>>,
    keys: Seq<AlignedValue>,
    node: StateView,
    answer: AnswerView,
)
    requires
        decodes_one_way(decode),
        decodes_to(decode, path, keys),
        query::walk(root, key_views(keys)) == Ok::<_, IdxErrorView>(Some(node)),
        node is Array || node is Mapping || node is BoundedMerkleTree,
        answers(root, decode, encode, path, answer),
    ensures
        answer.path == path,
        answer.value is None,
        answer.error == Some("path resolves to a collection; provide a deeper path"@),
{
    law_answers_follow_the_keys(root, decode, encode, path, keys, answer);
}

/// A path with a key that is not there is answered with neither a value nor an error.
pub proof fn law_missing_keys_are_no_error<
    D: Fn(&[u8]) -> Result<AlignedValue, String>,
    E: Fn(&StateValue) -> Result<Vec<u8>, String>,
>(
    root: StateView,
    decode: D,
    encode: E,
    path: Seq<Seq<u8>>,
    keys: Seq<AlignedValue>,
    answer: AnswerView,
)
    requires
        decodes_one_way(decode),
        decodes_to(decode, path, keys),
        query::walk(root, key_views(keys)) == Ok::<_, IdxErrorView>(None::<StateView>),
        answers(root, decode, encode, path, answer),
    ensures
        answer.path == path,
        answer.value is None,
        answer.error is None,
{
    law_answers_follow_the_keys(root, decode, encode, path, keys, answer);
}

/// A path with an element that does not deserialize is answered with the error of the first such
/// element, whatever comes after it.
pub proof fn law_first_bad_key_is_reported<
    D: Fn(&[u8]) -> Result<AlignedValue, String>,
    E: Fn(&StateValue) -> Result<Vec<u8>, String>,
>(
    root: StateView,
    decode: D,
    encode: E,
    path: Seq<Seq<u8>>,
    i: int,
    e: Seq<char>,
    answer: AnswerView,
)
    requires
        decodes_one_way(decode),
        fails_at(decode, path, i, e),
        answers(root, decode, encode, path, answer),
    ensures
        answer.path == path,
        answer.value is None,
        answer.error == Some("bad key: "@ + e),
{
    assert forall|keys: Seq<AlignedValue>| !#[trigger] decodes_to(decode, path, keys) by {
        if decodes_to(decode, path, keys) {
            lemma_decoding_does_not_fail(decode, path, keys, i, e);
        }
    }
    let (j, f) = choose|j: int, f: Seq<char>| #[trigger]
        fails_at(decode, path, j, f) && answer == failed(path, "bad key: "@ + f);
    if i <= j {
        lemma_one_failure(decode, path, i, e, j, f);
    } else {
        lemma_one_failure(decode, path, j, f, i, e);
    }
}

/// The views of a list of results.
pub open spec fn result_views(results: Seq<StateQueryResult>) -> Seq<AnswerView> {
    results.map_values(|result: StateQueryResult| result@)
}

/// Where deserialization and serialization have one result for each input, a result depends on
/// the root and on its own query only: the same path is answered alike in every batch, at every
/// place, whatever the other queries are and however they end.
pub proof fn law_results_depend_on_their_own_query<
    D: Fn(&[u8]) -> Result<AlignedValue, String>,
    E: Fn(&StateValue) -> Result<Vec<u8>, String>,
>(
    root: StateView,
    decode: D,
    encode: E,
    qs: Seq<StateQuery>,
    qs_results: Seq<StateQueryResult>,
    i: int,
    rs: Seq<StateQuery>,
    rs_results: Seq<StateQueryResult>,
    j: int,
)
    requires
        decodes_one_way(decode),
        encodes_one_way(encode),
        answers_all(root, decode, encode, qs, qs_results),
        answers_all(root, decode, encode, rs, rs_results),
        0 <= i < qs.len(),
        0 <= j < rs.len(),
        qs[i]@ == rs[j]@,
    ensures
        qs_results[i]@ == rs_results[j]@,
{
    law_answers_are_determined(
        root,
        decode,
        encode,
        qs[i]@,
        qs_results[i]@,
        rs_results[j]@,
    );
}

/// A batch answers as its parts do, joined. The results of two batches, one after the other, are
/// right for the joined batch; and where deserialization and serialization have one result for
/// each input, they are its only results.
pub proof fn law_batches_join<
    D: Fn(&[u8]) -> Result<AlignedValue, String>,
    E: Fn(&StateValue) -> Result<Vec<u8>, String>,
>(
    root: StateView,
    decode: D,
    encode: E,
    qs: Seq<StateQuery>,
    rs: Seq<StateQuery>,
    qs_results: Seq<StateQueryResult>,
    rs_results: Seq<StateQueryResult>,
    joined: Seq<StateQueryResult>,
)
    requires
        answers_all(root, decode, encode, qs, qs_results),
        answers_all(root, decode, encode, rs, rs_results),
        answers_all(root, decode, encode, qs + rs, joined),
    ensures
        answers_all(root, decode, encode, qs + rs, qs_results + rs_results),
        decodes_one_way(decode) && encodes_one_way(encode) ==> result_views(joined)
            == result_views(qs_results) + result_views(rs_results),
{
    let parts = qs_results + rs_results;
    assert forall|i: int| 0 <= i < (qs + rs).len() implies answers(
        root,
        decode,
        encode,
        (qs + rs)[i]@,
        (#[trigger] parts[i])@,
    ) by {
        if i < qs.len() {
            assert(parts[i] == qs_results[i]);
        } else {
            assert(parts[i] == rs_results[i - qs.len()]);
        }
    }
    if decodes_one_way(decode) && encodes_one_way(encode) {
        assert forall|i: int| 0 <= i < joined.len() implies #[trigger] joined[i]@
            == parts[i]@ by {
            law_results_depend_on_their_own_query(
                root,
                decode,
                encode,
                qs + rs,
                joined,
                i,
                qs + rs,
                parts,
                i,
            );
        }
        assert(result_views(joined) =~= result_views(qs_results) + result_views(rs_results));
    }
}

} // verus!
