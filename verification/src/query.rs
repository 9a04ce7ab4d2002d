//! Targeted queries into a contract's state tree.
use vstd::prelude::*;
use vstd::string::StringExecFns;
use crate::nav;
use crate::nav::key_views;
use crate::state::{StateValue, StateView};
use crate::text::{join, write_decimal};
use crate::value::{AlignedValue, ValueView};

verus! {

/// Error from [`idx`] and [`idx_path`].
#[derive(Debug)]
pub enum IdxError {
    /// The array index is valid but exceeds the array length.
    IndexOutOfBounds(u8),
    /// The key could not be converted to the type that the node asks for.
    InvalidKey(String),
    /// The Merkle tree position is outside the tree's range.
    MissingKey,
    /// The node cannot be indexed: it is a cell or null.
    UnsupportedVariant,
}

/// The mathematical content of an [`IdxError`].
pub enum IdxErrorView {
    IndexOutOfBounds(u8),
    InvalidKey(Seq<char>),
    MissingKey,
    UnsupportedVariant,
}

impl View for IdxError {
    type V = IdxErrorView;

    open spec fn view(&self) -> IdxErrorView {
        match self {
            IdxError::IndexOutOfBounds(i) => IdxErrorView::IndexOutOfBounds(*i),
            IdxError::InvalidKey(msg) => IdxErrorView::InvalidKey(msg@),
            IdxError::MissingKey => IdxErrorView::MissingKey,
            IdxError::UnsupportedVariant => IdxErrorView::UnsupportedVariant,
        }
    }
}

impl IdxErrorView {
    /// The text of an error.
    pub open spec fn text(self) -> Seq<char> {
        match self {
            IdxErrorView::IndexOutOfBounds(i) => "index "@ + crate::text::decimal(i as nat)
                + " out of bounds"@,
            IdxErrorView::InvalidKey(msg) => "invalid key: "@ + msg,
            IdxErrorView::MissingKey => "key not found"@,
            IdxErrorView::UnsupportedVariant =>
                "unsupported variant: only array, map, and merkle tree can be indexed"@,
        }
    }
}

impl Clone for IdxError {
    fn clone(&self) -> (r: IdxError)
        ensures
            r == *self,
    {
        match self {
            IdxError::IndexOutOfBounds(i) => IdxError::IndexOutOfBounds(*i),
            IdxError::InvalidKey(msg) => IdxError::InvalidKey(msg.clone()),
            IdxError::MissingKey => IdxError::MissingKey,
            IdxError::UnsupportedVariant => IdxError::UnsupportedVariant,
        }
    }
}

impl IdxError {
    /// The text of the error.
    pub fn to_string(&self) -> (r: String)
        ensures
            r@ == self@.text(),
    {
        match self {
            IdxError::IndexOutOfBounds(i) => {
                let mut r = join("index ", write_decimal(*i as u64).as_str());
                r.append(" out of bounds");
                r
            },
            IdxError::InvalidKey(msg) => join("invalid key: ", msg.as_str()),
            IdxError::MissingKey => String::from_str("key not found"),
            IdxError::UnsupportedVariant => String::from_str(
                "unsupported variant: only array, map, and merkle tree can be indexed",
            ),
        }
    }
}

/// The error that a query reports for a navigation error at a node.
pub open spec fn reported(node: StateView, e: nav::IdxError) -> IdxErrorView {
    match e {
        nav::IdxError::IndexOutOfBounds(i) => IdxErrorView::IndexOutOfBounds(i),
        nav::IdxError::Decode(_) => if node is Array {
            IdxErrorView::InvalidKey("cannot convert key to array index"@)
        } else {
            IdxErrorView::InvalidKey("cannot convert key to tree position"@)
        },
        nav::IdxError::MissingKey => IdxErrorView::MissingKey,
        nav::IdxError::UnsupportedVariant => IdxErrorView::UnsupportedVariant,
    }
}

/// Where one key leads from a node: as in [`nav::step`], with errors as queries report them.
pub open spec fn step(node: StateView, key: ValueView) -> Result<Option<StateView>, IdxErrorView> {
    match nav::step(node, key) {
        Ok(next) => Ok(next),
        Err(e) => Err(reported(node, e)),
    }
}

/// Where a path of keys leads from a node: each key is applied where the keys before it led, up
/// to the first that leads to nothing or to an error.
pub open spec fn walk(node: StateView, keys: Seq<ValueView>) -> Result<
    Option<StateView>,
    IdxErrorView,
>
    decreases keys.len(),
{
    if keys.len() == 0 {
        Ok(Some(node))
    } else {
        match step(node, keys[0]) {
            Ok(Some(next)) => walk(next, keys.drop_first()),
            Ok(None) => Ok(None),
            Err(e) => Err(e),
        }
    }
}

/// A result of navigation, seen through views.
pub open spec fn reached(r: Result<Option<StateValue>, IdxError>) -> Result<
    Option<StateView>,
    IdxErrorView,
> {
    match r {
        Ok(Some(node)) => Ok(Some(node@)),
        Ok(None) => Ok(None),
        Err(e) => Err(e@),
    }
}

/// Navigates one level into a node.
pub fn idx(sv: &StateValue, key: &AlignedValue) -> (r: Result<Option<StateValue>, IdxError>)
    ensures
        reached(r) == step(sv@, key@),
{
    reveal_with_fuel(<StateValue as View>::view, 2);
    match nav::idx(sv, key) {
        Ok(next) => Ok(next),
        Err(nav::IdxError::IndexOutOfBounds(i)) => Err(IdxError::IndexOutOfBounds(i)),
        Err(nav::IdxError::Decode(_)) => match sv {
            StateValue::Array(_) => Err(
                IdxError::InvalidKey(String::from_str("cannot convert key to array index")),
            ),
            _ => Err(IdxError::InvalidKey(String::from_str("cannot convert key to tree position"))),
        },
        Err(nav::IdxError::MissingKey) => Err(IdxError::MissingKey),
        Err(nav::IdxError::UnsupportedVariant) => Err(IdxError::UnsupportedVariant),
    }
}

/// Navigates a full path of keys. Stops early where a key is not found.
pub fn idx_path(sv: &StateValue, keys: &[AlignedValue]) -> (r: Result<
    Option<StateValue>,
    IdxError,
>)
    ensures
        reached(r) == walk(sv@, key_views(keys@)),
{
    let mut current = sv.clone();
    let mut i: usize = 0;
    assert(key_views(keys@).skip(0) =~= key_views(keys@));
    while i < keys.len()
        invariant
            i <= keys.len(),
            walk(current@, key_views(keys@).skip(i as int)) == walk(sv@, key_views(keys@)),
        decreases keys.len() - i,
    {
        let ghost rest = key_views(keys@).skip(i as int);
        assert(rest[0] == keys@[i as int]@);
        assert(rest.drop_first() =~= key_views(keys@).skip(i + 1));
        match idx(&current, &keys[i]) {
            Ok(Some(next)) => {
                current = next;
            },
            Ok(None) => {
                return Ok(None);
            },
            Err(e) => {
                return Err(e);
            },
        }
        i += 1;
    }
    Ok(Some(current))
}

/// A query: a path of serialized keys through the state tree.
#[derive(Debug)]
pub struct StateQuery {
    /// Each element is a serialized [`AlignedValue`], interpreted as array index, map key, or
    /// Merkle tree position by the node at its level.
    pub path: Vec<Vec<u8>>,
}

impl View for StateQuery {
    type V = Seq<Seq<u8>>;

    open spec fn view(&self) -> Seq<Seq<u8>> {
        self.path@.map_values(|bytes: Vec<u8>| bytes@)
    }
}

impl Clone for StateQuery {
    fn clone(&self) -> (r: StateQuery)
        ensures
            r@ == self@,
    {
        let mut path: Vec<Vec<u8>> = Vec::new();
        let mut i: usize = 0;
        while i < self.path.len()
            invariant
                i <= self.path.len(),
                path@.len() == i,
                forall|j: int| 0 <= j < i ==> #[trigger] path@[j]@ == self.path@[j]@,
            decreases self.path.len() - i,
        {
            let bytes = self.path[i].clone();
            assert(bytes@ =~= self.path@[i as int]@);
            path.push(bytes);
            i += 1;
        }
        let r = StateQuery { path };
        assert(r@ =~= self@);
        r
    }
}

/// Result of a single state query.
#[derive(Debug)]
pub struct StateQueryResult {
    pub query: StateQuery,
    /// The serialized value. `None` if not found.
    pub value: Option<Vec<u8>>,
    /// The error message. `None` if successful.
    pub error: Option<String>,
}

/// The mathematical content of a [`StateQueryResult`].
#[verifier::ext_equal]
pub struct AnswerView {
    pub path: Seq<Seq<u8>>,
    pub value: Option<Seq<u8>>,
    pub error: Option<Seq<char>>,
}

impl View for StateQueryResult {
    type V = AnswerView;

    open spec fn view(&self) -> AnswerView {
        AnswerView {
            path: self.query@,
            value: match self.value {
                Some(bytes) => Some(bytes@),
                None => None,
            },
            error: match self.error {
                Some(msg) => Some(msg@),
                None => None,
            },
        }
    }
}

impl Clone for StateQueryResult {
    fn clone(&self) -> (r: StateQueryResult)
        ensures
            r@ == self@,
    {
        let value: Option<Vec<u8>> = match &self.value {
            Some(bytes) => {
                let copy = bytes.clone();
                assert(copy@ =~= bytes@);
                Some(copy)
            },
            None => None,
        };
        let error: Option<String> = match &self.error {
            Some(msg) => Some(msg.clone()),
            None => None,
        };
        StateQueryResult { query: self.query.clone(), value, error }
    }
}

/// What the keys of a query lead to.
#[derive(Debug)]
pub enum Resolution {
    /// A leaf, whose serialization answers the query.
    Leaf(StateValue),
    /// Nothing: a key on the path is not there.
    Absent,
    /// An error, by its text.
    Failed(String),
}

/// The mathematical content of a [`Resolution`].
pub enum ResolutionView {
    Leaf(StateView),
    Absent,
    Failed(Seq<char>),
}

impl View for Resolution {
    type V = ResolutionView;

    open spec fn view(&self) -> ResolutionView {
        match self {
            Resolution::Leaf(node) => ResolutionView::Leaf(node@),
            Resolution::Absent => ResolutionView::Absent,
            Resolution::Failed(msg) => ResolutionView::Failed(msg@),
        }
    }
}

/// Whether a node holds a single value, and no other nodes.
pub open spec fn is_leaf(node: StateView) -> bool {
    node is Cell || node is Null
}

/// What a path of keys resolves to. Only leaves are handed out: a path that ends at a collection
/// is an error.
pub open spec fn resolution(root: StateView, keys: Seq<ValueView>) -> ResolutionView {
    match walk(root, keys) {
        Ok(Some(node)) => if is_leaf(node) {
            ResolutionView::Leaf(node)
        } else {
            ResolutionView::Failed("path resolves to a collection; provide a deeper path"@)
        },
        Ok(None) => ResolutionView::Absent,
        Err(e) => ResolutionView::Failed(e.text()),
    }
}

/// Follows the keys of a query to a leaf.
pub fn resolve(root: &StateValue, keys: &[AlignedValue]) -> (r: Resolution)
    ensures
        r@ == resolution(root@, key_views(keys@)),
{
    match idx_path(root, keys) {
        Ok(Some(node)) => {
            reveal_with_fuel(<StateValue as View>::view, 2);
            match node {
                StateValue::Cell(_) | StateValue::Null => Resolution::Leaf(node),
                _ => Resolution::Failed(
                    String::from_str("path resolves to a collection; provide a deeper path"),
                ),
            }
        },
        Ok(None) => Resolution::Absent,
        Err(e) => Resolution::Failed(e.to_string()),
    }
}

/// Whether `decode` may return `r` for a byte string.
pub open spec fn decode_gives<D: Fn(&[u8]) -> Result<AlignedValue, String>>(
    decode: D,
    bytes: Seq<u8>,
    r: Result<AlignedValue, String>,
) -> bool {
    exists|slice: &[u8]| slice@ == bytes && #[trigger] call_ensures(decode, (slice,), r)
}

/// Whether `decode` may turn every element of a path into the key at the same place.
pub open spec fn decodes_to<D: Fn(&[u8]) -> Result<AlignedValue, String>>(
    decode: D,
    path: Seq<Seq<u8>>,
    keys: Seq<AlignedValue>,
) -> bool {
    &&& keys.len() == path.len()
    &&& forall|i: int|
        0 <= i < path.len() ==> decode_gives(decode, #[trigger] path[i], Ok(keys[i]))
}

/// Whether `decode` may turn the path up to `i` into keys and fail at `i` with error `e`.
pub open spec fn fails_at<D: Fn(&[u8]) -> Result<AlignedValue, String>>(
    decode: D,
    path: Seq<Seq<u8>>,
    i: int,
    e: Seq<char>,
) -> bool {
    &&& 0 <= i < path.len()
    &&& exists|keys: Seq<AlignedValue>| #[trigger] decodes_to(decode, path.take(i), keys)
    &&& exists|msg: String| msg@ == e && #[trigger] decode_gives(decode, path[i], Err(msg))
}

/// Deserializes the keys of a path, up to the first that fails.
pub fn decode_path<D: Fn(&[u8]) -> Result<AlignedValue, String>>(
    query: &StateQuery,
    decode: &D,
) -> (r: Result<Vec<AlignedValue>, String>)
    requires
        forall|slice: &[u8]| call_requires(*decode, (slice,)),
    ensures
        match r {
            Ok(keys) => decodes_to(*decode, query@, keys@),
            Err(msg) => exists|i: int, e: Seq<char>| #[trigger]
                fails_at(*decode, query@, i, e) && msg@ == "bad key: "@ + e,
        },
{
    let mut keys: Vec<AlignedValue> = Vec::new();
    let mut i: usize = 0;
    while i < query.path.len()
        invariant
            forall|slice: &[u8]| call_requires(*decode, (slice,)),
            i <= query.path.len(),
            decodes_to(*decode, query@.take(i as int), keys@),
        decreases query.path.len() - i,
    {
        let bytes = query.path[i].as_slice();
        let ghost before = keys@;
        match decode(bytes) {
            Ok(key) => {
                assert(decode_gives(*decode, query@[i as int], Ok(key)));
                keys.push(key);
                assert(decodes_to(*decode, query@.take(i + 1), keys@)) by {
                    assert forall|j: int| 0 <= j < i + 1 implies decode_gives(
                        *decode,
                        #[trigger] query@.take(i + 1)[j],
                        Ok(keys@[j]),
                    ) by {
                        if j < i {
                            assert(query@.take(i as int)[j] == query@.take(i + 1)[j]);
                        }
                    }
                }
            },
            Err(e) => {
                assert(decode_gives(*decode, query@[i as int], Err(e)));
                assert(fails_at(*decode, query@, i as int, e@));
                return Err(join("bad key: ", e.as_str()));
            },
        }
        i += 1;
    }
    assert(query@.take(i as int) =~= query@);
    Ok(keys)
}

/// Whether `encode` may return `r` for a node.
pub open spec fn encode_gives<E: Fn(&StateValue) -> Result<Vec<u8>, String>>(
    encode: E,
    node: StateView,
    r: Result<Vec<u8>, String>,
) -> bool {
    exists|sv: &StateValue| sv@ == node && #[trigger] call_ensures(encode, (sv,), r)
}

/// Serializes a node.
pub fn serialize_sv<E: Fn(&StateValue) -> Result<Vec<u8>, String>>(
    sv: &StateValue,
    encode: &E,
) -> (r: Result<Vec<u8>, String>)
    requires
        call_requires(*encode, (sv,)),
    ensures
        match r {
            Ok(bytes) => call_ensures(*encode, (sv,), Ok(bytes)),
            Err(msg) => exists|e: String| #[trigger]
                call_ensures(*encode, (sv,), Err(e)) && msg@ == "serialize: "@ + e@,
        },
{
    match encode(sv) {
        Ok(bytes) => Ok(bytes),
        Err(e) => Err(join("serialize: ", e.as_str())),
    }
}

/// The answer that carries a value, or none where nothing was found.
pub open spec fn found(path: Seq<Seq<u8>>, value: Option<Seq<u8>>) -> AnswerView {
    AnswerView { path, value, error: None }
}

/// The answer that carries an error.
pub open spec fn failed(path: Seq<Seq<u8>>, msg: Seq<char>) -> AnswerView {
    AnswerView { path, value: None, error: Some(msg) }
}

/// Whether an answer to a path is right, given what its keys resolve to.
pub open spec fn settles<E: Fn(&StateValue) -> Result<Vec<u8>, String>>(
    encode: E,
    path: Seq<Seq<u8>>,
    resolved: ResolutionView,
    answer: AnswerView,
) -> bool {
    match resolved {
        ResolutionView::Leaf(node) => {
            ||| exists|bytes: Vec<u8>| #[trigger]
                encode_gives(encode, node, Ok(bytes)) && answer == found(path, Some(bytes@))
            ||| exists|e: String| #[trigger]
                encode_gives(encode, node, Err(e)) && answer == failed(path, "serialize: "@ + e@)
        },
        ResolutionView::Absent => answer == found(path, None),
        ResolutionView::Failed(msg) => answer == failed(path, msg),
    }
}

/// Whether an answer to a path is right: it reports the first key that cannot be deserialized,
/// or else what the keys resolve to.
pub open spec fn answers<
    D: Fn(&[u8]) -> Result<AlignedValue, String>,
    E: Fn(&StateValue) -> Result<Vec<u8>, String>,
>(root: StateView, decode: D, encode: E, path: Seq<Seq<u8>>, answer: AnswerView) -> bool {
    ||| exists|i: int, e: Seq<char>| #[trigger]
        fails_at(decode, path, i, e) && answer == failed(path, "bad key: "@ + e)
    ||| exists|keys: Seq<AlignedValue>| #[trigger]
        decodes_to(decode, path, keys) && settles(
            encode,
            path,
            resolution(root, key_views(keys)),
            answer,
        )
}

/// Whether a list of results is right for a list of queries: one result for each query, in the
/// same order, each the right answer to its own path.
pub open spec fn answers_all<
    D: Fn(&[u8]) -> Result<AlignedValue, String>,
    E: Fn(&StateValue) -> Result<Vec<u8>, String>,
>(
    root: StateView,
    decode: D,
    encode: E,
    queries: Seq<StateQuery>,
    results: Seq<StateQueryResult>,
) -> bool {
    &&& results.len() == queries.len()
    &&& forall|i: int|
        0 <= i < queries.len() ==> answers(
            root,
            decode,
            encode,
            queries[i]@,
            (#[trigger] results[i])@,
        )
}

/// Resolves one query against a contract's root node. Only a leaf is ever handed to `encode`.
pub fn answer_query<
    D: Fn(&[u8]) -> Result<AlignedValue, String>,
    E: Fn(&StateValue) -> Result<Vec<u8>, String>,
>(root: &StateValue, query: &StateQuery, decode: &D, encode: &E) -> (r: StateQueryResult)
    requires
        forall|slice: &[u8]| call_requires(*decode, (slice,)),
        forall|sv: &StateValue| is_leaf(sv@) ==> #[trigger] call_requires(*encode, (sv,)),
    ensures
        answers(root@, *decode, *encode, query@, r@),
{
    let keys = match decode_path(query, decode) {
        Ok(keys) => keys,
        Err(msg) => {
            return StateQueryResult { query: query.clone(), value: None, error: Some(msg) };
        },
    };
    match resolve(root, keys.as_slice()) {
        Resolution::Leaf(node) => match serialize_sv(&node, encode) {
            Ok(bytes) => {
                assert(encode_gives(*encode, node@, Ok(bytes)));
                StateQueryResult { query: query.clone(), value: Some(bytes), error: None }
            },
            Err(msg) => {
                proof {
                    let e = choose|e: String| #[trigger]
                        call_ensures(*encode, (&node,), Err(e)) && msg@ == "serialize: "@ + e@;
                    assert(encode_gives(*encode, node@, Err(e)));
                }
                StateQueryResult { query: query.clone(), value: None, error: Some(msg) }
            },
        },
        Resolution::Absent => StateQueryResult { query: query.clone(), value: None, error: None },
        Resolution::Failed(msg) => StateQueryResult {
            query: query.clone(),
            value: None,
            error: Some(msg),
        },
    }
}

/// Resolves a list of queries against a contract's root node.
///
/// Each element of a query's path is turned into a key by `decode`, the keys are followed with
/// [`idx_path`], and the leaf that they lead to is serialized by `encode`. A path that ends at a
/// collection is an error: only cells and null are serialized, and `encode` need not accept
/// anything else.
pub fn query_state<
    D: Fn(&[u8]) -> Result<AlignedValue, String>,
    E: Fn(&StateValue) -> Result<Vec<u8>, String>,
>(root: &StateValue, queries: &[StateQuery], decode: D, encode: E) -> (r: Vec<StateQueryResult>)
    requires
        forall|slice: &[u8]| call_requires(decode, (slice,)),
        forall|sv: &StateValue| is_leaf(sv@) ==> #[trigger] call_requires(encode, (sv,)),
    ensures
        answers_all(root@, decode, encode, queries@, r@),
        forall|i: int|
            0 <= i < queries@.len() ==> {
                &&& (#[trigger] r@[i]).query@ == queries@[i]@
                &&& r@[i].value is None || r@[i].error is None
            },
{
    let mut results: Vec<StateQueryResult> = Vec::new();
    let mut i: usize = 0;
    while i < queries.len()
        invariant
            forall|slice: &[u8]| call_requires(decode, (slice,)),
            forall|sv: &StateValue| is_leaf(sv@) ==> #[trigger] call_requires(encode, (sv,)),
            i <= queries.len(),
            results@.len() == i,
            forall|j: int|
                0 <= j < i ==> answers(
                    root@,
                    decode,
                    encode,
                    queries@[j]@,
                    (#[trigger] results@[j])@,
                ),
        decreases queries.len() - i,
    {
        results.push(answer_query(root, &queries[i], &decode, &encode));
        i += 1;
    }
    results
}

} // verus!
