//! What queries are answered with, from the bytes of a path to the bytes of an answer.
use vstd::prelude::*;
use crate::nav::key_views;
use crate::query;
use crate::query::{answer_query, decode_path, query_state, resolve, serialize_sv};
use crate::query::{answers, answers_all, decode_gives, decodes_to, encode_gives, fails_at};
use crate::query::{resolution, AnswerView, IdxErrorView, Resolution, ResolutionView};
use crate::query::{StateQuery, StateQueryResult};
use crate::state::{StateValue, StateView};
use crate::value::{AlignedValue, ValueView};
use super::{decodes_one_way, encodes_one_way};

verus! {

/// Whether a call of `decode` on these bytes may return `r`.
pub open spec fn decode_returns<D: Fn(&[u8]) -> Result<AlignedValue, String>>(
    decode: D,
    bytes: Seq<u8>,
    r: Result<AlignedValue, String>,
) -> bool {
    exists|slice: &[u8]| slice@ == bytes && #[trigger] call_ensures(decode, (slice,), r)
}

/// Whether a call of `decode` on these bytes may return a key.
pub open spec fn decode_accepts<D: Fn(&[u8]) -> Result<AlignedValue, String>>(
    decode: D,
    bytes: Seq<u8>,
) -> bool {
    exists|key: AlignedValue| #[trigger] decode_returns(decode, bytes, Ok(key))
}

/// Whether a call of `decode` on these bytes may return an error with this text.
pub open spec fn decode_refuses<D: Fn(&[u8]) -> Result<AlignedValue, String>>(
    decode: D,
    bytes: Seq<u8>,
    e: Seq<char>,
) -> bool {
    exists|msg: String| msg@ == e && #[trigger] decode_returns(decode, bytes, Err(msg))
}

/// Whether a call of `encode` on a node with this content may return `r`.
pub open spec fn encode_returns<E: Fn(&StateValue) -> Result<Vec<u8>, String>>(
    encode: E,
    node: StateView,
    r: Result<Vec<u8>, String>,
) -> bool {
    exists|sv: &StateValue| sv@ == node && #[trigger] call_ensures(encode, (sv,), r)
}

/// Whether there is one key for each element of a path, at the same place, and calls of `decode`
/// on the elements may return these keys.
pub open spec fn keys_of_path<D: Fn(&[u8]) -> Result<AlignedValue, String>>(
    decode: D,
    path: Seq<Vec<u8>>,
    keys: Seq<AlignedValue>,
) -> bool {
    &&& keys.len() == path.len()
    &&& forall|i: int|
        0 <= i < path.len() ==> #[trigger] decode_returns(decode, path[i]@, Ok(keys[i]))
}

/// A query's content is its path, element by element and byte by byte, and a copy has the same.
pub proof fn law_queries_are_their_paths(a: StateQuery, b: StateQuery, copy: StateQuery)
    requires
        call_ensures(<StateQuery as Clone>::clone, (&a,), copy),
    ensures
        a@.len() == a.path@.len(),
        forall|i: int| 0 <= i < a.path@.len() ==> a@[i] == (#[trigger] a.path@[i])@,
        a@ == b@ <==> {
            &&& a.path@.len() == b.path@.len()
            &&& forall|i: int| 0 <= i < a.path@.len() ==> (#[trigger] a.path@[i])@ == b.path@[i]@
        },
        copy@ == a@,
{
    lemma_query_content(a, b);
}

proof fn lemma_query_content(a: StateQuery, b: StateQuery)
    ensures
        a@.len() == a.path@.len(),
        forall|i: int| 0 <= i < a.path@.len() ==> a@[i] == (#[trigger] a.path@[i])@,
        a@ == b@ <==> {
            &&& a.path@.len() == b.path@.len()
            &&& forall|i: int| 0 <= i < a.path@.len() ==> (#[trigger] a.path@[i])@ == b.path@[i]@
        },
{
    if a.path@.len() == b.path@.len() && (forall|i: int|
        0 <= i < a.path@.len() ==> (#[trigger] a.path@[i])@ == b.path@[i]@) {
        assert forall|i: int| 0 <= i < a@.len() implies a@[i] == b@[i] by {
            assert(a.path@[i]@ == b.path@[i]@);
        }
        assert(a@ =~= b@);
    }
    if a@ == b@ {
        assert(a@.len() == b@.len());
        assert forall|i: int| 0 <= i < a.path@.len() implies (#[trigger] a.path@[i])@
            == b.path@[i]@ by {
            assert(a@[i] == a.path@[i]@);
            assert(b@[i] == b.path@[i]@);
        }
    }
}

/// A result's content is its query's path, the bytes of its value and the text of its error, and a
/// copy has the same.
pub proof fn law_results_are_their_fields(r: StateQueryResult, copy: StateQueryResult)
    requires
        call_ensures(<StateQueryResult as Clone>::clone, (&r,), copy),
    ensures
        r@.path == r.query@,
        r@.value is Some <==> r.value is Some,
        r.value is Some ==> r@.value->Some_0 == r.value->Some_0@,
        r@.error is Some <==> r.error is Some,
        r.error is Some ==> r@.error->Some_0 == r.error->Some_0@,
        copy.query@ == r.query@,
        copy.value is Some <==> r.value is Some,
        r.value is Some ==> copy.value->Some_0@ == r.value->Some_0@,
        copy.error is Some <==> r.error is Some,
        r.error is Some ==> copy.error->Some_0@ == r.error->Some_0@,
{
    assert(copy@.path == r@.path && copy@.value == r@.value && copy@.error == r@.error);
}

/// What is said of `decode` and `encode` in contracts is said of their calls: on the bytes of a
/// path's element, and on a node of the content that is reached.
pub proof fn law_decoder_and_encoder_are_called<
    D: Fn(&[u8]) -> Result<AlignedValue, String>,
    E: Fn(&StateValue) -> Result<Vec<u8>, String>,
>(
    decode: D,
    bytes: Seq<u8>,
    key: Result<AlignedValue, String>,
    encode: E,
    node: StateView,
    out: Result<Vec<u8>, String>,
)
    ensures
        decode_gives(decode, bytes, key) <==> decode_returns(decode, bytes, key),
        encode_gives(encode, node, out) <==> encode_returns(encode, node, out),
{
}

/// The keys of a path are as many as its elements, and the key at each place is what `decode` may
/// return for the element at the same place. No key is dropped, added or moved.
pub proof fn law_keys_match_the_path<D: Fn(&[u8]) -> Result<AlignedValue, String>>(
    decode: D,
    query: StateQuery,
    keys: Seq<AlignedValue>,
)
    ensures
        decodes_to(decode, query@, keys) <==> keys_of_path(decode, query.path@, keys),
{
    lemma_query_content(query, query);
    if decodes_to(decode, query@, keys) {
        assert forall|i: int| 0 <= i < query.path@.len() implies #[trigger] decode_returns(
            decode,
            query.path@[i]@,
            Ok(keys[i]),
        ) by {
            assert(decode_gives(decode, query@[i], Ok(keys[i])));
        }
    }
    if keys_of_path(decode, query.path@, keys) {
        assert forall|i: int| 0 <= i < query@.len() implies decode_gives(
            decode,
            #[trigger] query@[i],
            Ok(keys[i]),
        ) by {
            assert(decode_returns(decode, query.path@[i]@, Ok(keys[i])));
        }
    }
}

/// A path fails at the element for which `decode` may return the error, where it may return keys
/// for all elements before.
pub proof fn law_failing_paths<D: Fn(&[u8]) -> Result<AlignedValue, String>>(
    decode: D,
    path: Seq<Seq<u8>>,
    i: int,
    e: Seq<char>,
)
    requires
        0 <= i < path.len(),
    ensures
        fails_at(decode, path, i, e) <==> {
            &&& decode_refuses(decode, path[i], e)
            &&& forall|j: int| 0 <= j < i ==> #[trigger] decode_accepts(decode, path[j])
        },
{
    if fails_at(decode, path, i, e) {
        let keys = choose|keys: Seq<AlignedValue>| #[trigger] decodes_to(decode, path.take(i), keys);
        assert forall|j: int| 0 <= j < i implies #[trigger] decode_accepts(decode, path[j]) by {
            assert(path.take(i)[j] == path[j]);
            assert(decode_gives(decode, path.take(i)[j], Ok(keys[j])));
            assert(decode_returns(decode, path[j], Ok(keys[j])));
        }
        let msg = choose|msg: String| msg@ == e && #[trigger] decode_gives(decode, path[i], Err(msg));
        assert(decode_returns(decode, path[i], Err(msg)));
    }
    if decode_refuses(decode, path[i], e) && (forall|j: int|
        0 <= j < i ==> #[trigger] decode_accepts(decode, path[j])) {
        let keys = Seq::new(
            i as nat,
            |j: int| choose|key: AlignedValue| #[trigger] decode_returns(decode, path[j], Ok(key)),
        );
        assert forall|j: int| 0 <= j < i implies decode_gives(
            decode,
            #[trigger] path.take(i)[j],
            Ok(keys[j]),
        ) by {
            assert(path.take(i)[j] == path[j]);
            assert(decode_accepts(decode, path[j]));
            assert(decode_returns(decode, path[j], Ok(keys[j])));
        }
        assert(decodes_to(decode, path.take(i), keys));
        let msg = choose|msg: String| msg@ == e && #[trigger]
            decode_returns(decode, path[i], Err(msg));
        assert(decode_gives(decode, path[i], Err(msg)));
    }
}

/// `decode_path` gives one key for each element of the path, at the same place, as `decode`
/// returned it; or the error that `decode` returned for an element, behind a fixed piece of text,
/// where it returned keys for all elements before.
pub proof fn law_decode_path_decodes_every_element<D: Fn(&[u8]) -> Result<AlignedValue, String>>(
    query: StateQuery,
    decode: D,
    r: Result<Vec<AlignedValue>, String>,
)
    requires
        call_ensures(decode_path::<D>, (&query, &decode), r),
    ensures
        r is Ok ==> keys_of_path(decode, query.path@, r->Ok_0@),
        r is Err ==> exists|i: int, e: Seq<char>|
            {
                &&& 0 <= i < query.path@.len()
                &&& #[trigger] decode_refuses(decode, query.path@[i]@, e)
                &&& r->Err_0@ == "bad key: "@ + e
                &&& forall|j: int|
                    0 <= j < i ==> #[trigger] decode_accepts(decode, query.path@[j]@)
            },
{
    lemma_query_content(query, query);
    match r {
        Ok(keys) => {
            law_keys_match_the_path(decode, query, keys@);
        },
        Err(text) => {
            let (i, e) = choose|i: int, e: Seq<char>| #[trigger]
                fails_at(decode, query@, i, e) && text@ == "bad key: "@ + e;
            law_failing_paths(decode, query@, i, e);
            assert(query@[i] == query.path@[i]@);
            assert(decode_refuses(decode, query.path@[i]@, e));
            assert forall|j: int| 0 <= j < i implies #[trigger] decode_accepts(
                decode,
                query.path@[j]@,
            ) by {
                assert(query@[j] == query.path@[j]@);
                assert(decode_accepts(decode, query@[j]));
            }
        },
    }
}

/// `serialize_sv` gives the bytes that `encode` returned for the node, or the error that it
/// returned, behind a fixed piece of text.
pub proof fn law_serialize_sv_hands_on_the_result<E: Fn(&StateValue) -> Result<Vec<u8>, String>>(
    sv: StateValue,
    encode: E,
    r: Result<Vec<u8>, String>,
)
    requires
        call_ensures(serialize_sv::<E>, (&sv, &encode), r),
    ensures
        r is Ok ==> call_ensures(encode, (&sv,), r),
        r is Err ==> exists|e: String| #[trigger]
            call_ensures(encode, (&sv,), Err(e)) && r->Err_0@ == "serialize: "@ + e@,
{
}

/// What a path resolves to, at every depth: a cell or null that it leads to, nothing where it
/// leads to nothing, and an error where it leads to a collection or to an error.
pub proof fn law_resolution_of_a_path(root: StateView, keys: Seq<ValueView>)
    ensures
        match query::walk(root, keys) {
            Ok(Some(node)) => {
                &&& node is Cell || node is Null ==> resolution(root, keys) == ResolutionView::Leaf(
                    node,
                )
                &&& node is Array || node is Mapping || node is BoundedMerkleTree ==> resolution(
                    root,
                    keys,
                ) == ResolutionView::Failed(
                    "path resolves to a collection; provide a deeper path"@,
                )
            },
            Ok(None) => resolution(root, keys) is Absent,
            Err(e) => resolution(root, keys) == ResolutionView::Failed(e.text()),
        },
{
}

/// `resolve` hands out the cell or null that `idx_path` reaches, and turns every other outcome of
/// `idx_path` into absence or the text of an error.
pub proof fn law_resolve_follows_idx_path(
    root: StateValue,
    keys: &[AlignedValue],
    reached: Result<Option<StateValue>, query::IdxError>,
    text: String,
    r: Resolution,
)
    requires
        call_ensures(query::idx_path, (&root, keys), reached),
        reached is Err ==> call_ensures(query::IdxError::to_string, (&reached->Err_0,), text),
        call_ensures(resolve, (&root, keys), r),
    ensures
        match reached {
            Ok(Some(node)) => {
                &&& node is Cell || node is Null ==> r is Leaf && r->Leaf_0@ == node@
                &&& node is Array || node is Mapping || node is BoundedMerkleTree ==> r is Failed
                    && r->Failed_0@ == "path resolves to a collection; provide a deeper path"@
            },
            Ok(None) => r is Absent,
            Err(_) => r is Failed && r->Failed_0@ == text@,
        },
{
    law_resolution_of_a_path(root@, key_views(keys@));
    if reached is Ok && reached->Ok_0 is Some {
        super::steps::law_nodes_are_their_content(reached->Ok_0->Some_0, reached->Ok_0->Some_0);
    }
}

/// A list of results is right where it has one result for each query, and each is right for the
/// query at its place.
pub proof fn law_batches_are_answered_query_by_query<
    D: Fn(&[u8]) -> Result<AlignedValue, String>,
    E: Fn(&StateValue) -> Result<Vec<u8>, String>,
>(
    root: StateView,
    decode: D,
    encode: E,
    queries: Seq<StateQuery>,
    results: Seq<StateQueryResult>,
)
    ensures
        answers_all(root, decode, encode, queries, results) <==> {
            &&& results.len() == queries.len()
            &&& forall|i: int|
                0 <= i < queries.len() ==> answers(
                    root,
                    decode,
                    encode,
                    queries[i]@,
                    (#[trigger] results[i])@,
                )
        },
{
}

/// Where the keys of a path lead to a cell or null, at every depth and whatever it holds, the
/// answer carries exactly the bytes that `encode` returns for it and no error, or no value and the
/// error that `encode` returns for it.
pub proof fn law_leaves_are_answered<
    D: Fn(&[u8]) -> Result<AlignedValue, String>,
    E: Fn(&StateValue) -> Result<Vec<u8>, String>,
>(
    root: StateValue,
    query: StateQuery,
    decode: D,
    encode: E,
    keys: Seq<AlignedValue>,
    node: StateView,
    out: Result<Vec<u8>, String>,
    r: StateQueryResult,
)
    requires
        decodes_one_way(decode),
        encodes_one_way(encode),
        keys_of_path(decode, query.path@, keys),
        query::walk(root@, key_views(keys)) == Ok::<_, IdxErrorView>(Some(node)),
        node is Cell || node is Null,
        encode_returns(encode, node, out),
        call_ensures(answer_query::<D, E>, (&root, &query, &decode, &encode), r),
    ensures
        r.query@ == query@,
        match out {
            Ok(bytes) => {
                &&& r.value is Some && r.value->Some_0@ == bytes@
                &&& r.error is None
            },
            Err(e) => {
                &&& r.value is None
                &&& r.error is Some && r.error->Some_0@ == "serialize: "@ + e@
            },
        },
{
    law_keys_match_the_path(decode, query, keys);
    super::law_answers_follow_the_keys(root@, decode, encode, query@, keys, r@);
    law_resolution_of_a_path(root@, key_views(keys));
    assert(encode_gives(encode, node, out));
    if exists|bytes: Vec<u8>| #[trigger]
        encode_gives(encode, node, Ok(bytes)) && r@ == query::found(query@, Some(bytes@)) {
        let bytes = choose|bytes: Vec<u8>| #[trigger]
            encode_gives(encode, node, Ok(bytes)) && r@ == query::found(query@, Some(bytes@));
        assert(super::same_bytes(out, Ok(bytes)));
    } else {
        let e = choose|e: String| #[trigger]
            encode_gives(encode, node, Err(e)) && r@ == query::failed(
                query@,
                "serialize: "@ + e@,
            );
        assert(super::same_bytes(out, Err(e)));
    }
}

/// Where the keys of a path lead to a cell or null, there is a result that `encode` may return for
/// it with which the path is answered, though `encode` may have several.
pub proof fn law_leaves_are_answered_by_some_call<
    D: Fn(&[u8]) -> Result<AlignedValue, String>,
    E: Fn(&StateValue) -> Result<Vec<u8>, String>,
>(
    root: StateView,
    decode: D,
    encode: E,
    query: StateQuery,
    keys: Seq<AlignedValue>,
    node: StateView,
    answer: AnswerView,
) -> (out: Result<Vec<u8>, String>)
    requires
        decodes_one_way(decode),
        keys_of_path(decode, query.path@, keys),
        query::walk(root, key_views(keys)) == Ok::<_, IdxErrorView>(Some(node)),
        node is Cell || node is Null,
        answers(root, decode, encode, query@, answer),
    ensures
        encode_returns(encode, node, out),
        answer.path == query@,
        match out {
            Ok(bytes) => answer.value == Some(bytes@) && answer.error is None,
            Err(e) => answer.value is None && answer.error == Some("serialize: "@ + e@),
        },
{
    law_keys_match_the_path(decode, query, keys);
    super::law_answers_follow_the_keys(root, decode, encode, query@, keys, answer);
    law_resolution_of_a_path(root, key_views(keys));
    if exists|bytes: Vec<u8>| #[trigger]
        encode_gives(encode, node, Ok(bytes)) && answer == query::found(query@, Some(bytes@)) {
        let bytes = choose|bytes: Vec<u8>| #[trigger]
            encode_gives(encode, node, Ok(bytes)) && answer == query::found(query@, Some(bytes@));
        Ok(bytes)
    } else {
        let e = choose|e: String| #[trigger]
            encode_gives(encode, node, Err(e)) && answer == query::failed(
                query@,
                "serialize: "@ + e@,
            );
        Err(e)
    }
}

/// Where the keys of a path lead to anything but a leaf, the answer carries no value: none and no
/// error where they lead to nothing, the request for a deeper path where they lead to a
/// collection, and the text of the error where they lead to one.
pub proof fn law_other_outcomes_are_answered<
    D: Fn(&[u8]) -> Result<AlignedValue, String>,
    E: Fn(&StateValue) -> Result<Vec<u8>, String>,
>(
    root: StateValue,
    query: StateQuery,
    decode: D,
    encode: E,
    keys: Seq<AlignedValue>,
    r: StateQueryResult,
)
    requires
        decodes_one_way(decode),
        keys_of_path(decode, query.path@, keys),
        call_ensures(answer_query::<D, E>, (&root, &query, &decode, &encode), r),
    ensures
        r.query@ == query@,
        match query::walk(root@, key_views(keys)) {
            Ok(Some(node)) => node is Array || node is Mapping || node is BoundedMerkleTree ==> {
                &&& r.value is None
                &&& r.error is Some && r.error->Some_0@
                    == "path resolves to a collection; provide a deeper path"@
            },
            Ok(None) => r.value is None && r.error is None,
            Err(e) => r.value is None && r.error is Some && r.error->Some_0@ == e.text(),
        },
{
    law_keys_match_the_path(decode, query, keys);
    super::law_answers_follow_the_keys(root@, decode, encode, query@, keys, r@);
    law_resolution_of_a_path(root@, key_views(keys));
    super::law_answers_echo_the_path(root@, decode, encode, query@, r@);
}

/// Where an element of a path does not deserialize, and all elements before it do, the answer
/// carries no value and the error that `decode` returns for that element.
pub proof fn law_bad_keys_are_answered<
    D: Fn(&[u8]) -> Result<AlignedValue, String>,
    E: Fn(&StateValue) -> Result<Vec<u8>, String>,
>(
    root: StateValue,
    query: StateQuery,
    decode: D,
    encode: E,
    i: int,
    msg: String,
    r: StateQueryResult,
)
    requires
        decodes_one_way(decode),
        0 <= i < query.path@.len(),
        decode_returns(decode, query.path@[i]@, Err(msg)),
        forall|j: int| 0 <= j < i ==> #[trigger] decode_accepts(decode, query.path@[j]@),
        call_ensures(answer_query::<D, E>, (&root, &query, &decode, &encode), r),
    ensures
        r.query@ == query@,
        r.value is None,
        r.error is Some && r.error->Some_0@ == "bad key: "@ + msg@,
{
    lemma_query_content(query, query);
    assert forall|j: int| 0 <= j < i implies #[trigger] decode_accepts(decode, query@[j]) by {
        assert(query@[j] == query.path@[j]@);
        assert(decode_accepts(decode, query.path@[j]@));
    }
    assert(query@[i] == query.path@[i]@);
    assert(decode_refuses(decode, query@[i], msg@));
    law_failing_paths(decode, query@, i, msg@);
    super::law_first_bad_key_is_reported(root@, decode, encode, query@, i, msg@, r@);
}

/// A batch has one result for each query, in order: the result at a place echoes the query at
/// that place, never carries both a value and an error, and is what the query gets on its own.
pub proof fn law_query_state_answers_each_query<
    D: Fn(&[u8]) -> Result<AlignedValue, String>,
    E: Fn(&StateValue) -> Result<Vec<u8>, String>,
>(
    root: StateValue,
    queries: &[StateQuery],
    decode: D,
    encode: E,
    results: Vec<StateQueryResult>,
    i: int,
    alone: StateQueryResult,
)
    requires
        call_ensures(query_state::<D, E>, (&root, queries, decode, encode), results),
        0 <= i < queries@.len(),
        call_ensures(answer_query::<D, E>, (&root, &queries@[i], &decode, &encode), alone),
    ensures
        results@.len() == queries@.len(),
        results@[i].query@ == queries@[i]@,
        results@[i].value is None || results@[i].error is None,
        decodes_one_way(decode) && encodes_one_way(encode) ==> {
            &&& results@[i].value is Some <==> alone.value is Some
            &&& alone.value is Some ==> results@[i].value->Some_0@ == alone.value->Some_0@
            &&& results@[i].error is Some <==> alone.error is Some
            &&& alone.error is Some ==> results@[i].error->Some_0@ == alone.error->Some_0@
        },
{
    assert(answers(root@, decode, encode, queries@[i]@, results@[i]@));
    if decodes_one_way(decode) && encodes_one_way(encode) {
        super::law_answers_are_determined(
            root@,
            decode,
            encode,
            queries@[i]@,
            results@[i]@,
            alone@,
        );
        assert(results@[i]@.value == alone@.value && results@[i]@.error == alone@.error);
    }
}

/// Every root and every batch can be asked for, with every `decode` that accepts all bytes and
/// every `encode` that accepts cells and null.
pub proof fn law_queries_are_total<
    D: Fn(&[u8]) -> Result<AlignedValue, String>,
    E: Fn(&StateValue) -> Result<Vec<u8>, String>,
>(root: StateValue, queries: &[StateQuery], query: StateQuery, decode: D, encode: E)
    requires
        forall|slice: &[u8]| call_requires(decode, (slice,)),
        forall|sv: &StateValue|
            (sv@ is Cell || sv@ is Null) ==> #[trigger] call_requires(encode, (sv,)),
    ensures
        call_requires(query_state::<D, E>, (&root, queries, decode, encode)),
        call_requires(answer_query::<D, E>, (&root, &query, &decode, &encode)),
        call_requires(decode_path::<D>, (&query, &decode)),
{
}

} // verus!
