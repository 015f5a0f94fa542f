//! Graph labels and identifiers for records: arbitrary public names are
//! hex-encoded behind a prefix so that they are safe graph tokens.

use vstd::prelude::*;
use vstd::string::StringSliceAdditionalSpecFns;
use vstd::utf8::*;

use crate::hex::{decode, encode, hex_bytes, hex_round_trip, hex_text};
use crate::text::{string_from_utf8, strip_prefix};

verus! {

broadcast use vstd::utf8::group_utf8_lib;

/// Label of every record node.
pub const RECORD_LABEL: &'static str = "Record";

/// Prefix of a record node's collection label.
pub const COLLECTION_LABEL_PREFIX: &'static str = "Collection_";

/// Prefix of a relationship edge type.
pub const RELATIONSHIP_TYPE_PREFIX: &'static str = "Relationship_";

/// A graph token: the prefix, then the hex digits of the value's UTF-8 bytes.
pub open spec fn token_chars(prefix: Seq<char>, value: Seq<char>) -> Seq<char> {
    prefix + hex_text(encode_utf8(value))
}

/// The value a graph token stands for: its text after the prefix, read as
/// hex digits of UTF-8 bytes.
pub open spec fn token_value(prefix: Seq<char>, token: Seq<char>) -> Option<Seq<char>> {
    if !prefix.is_prefix_of(token) {
        None
    } else {
        match hex_bytes(encode_utf8(token.skip(prefix.len() as int))) {
            Some(bytes) => if valid_utf8(bytes) {
                Some(decode_utf8(bytes))
            } else {
                None
            },
            None => None,
        }
    }
}

/// Encodes arbitrary public values as graph-safe identifiers.
pub fn graph_token(prefix: &str, value: &str) -> (token: String)
    ensures
        token@ == token_chars(prefix@, value@),
{
    let mut token = prefix.to_owned();
    let digits = encode(value.as_bytes());
    token.append(digits.as_str());
    token
}

/// Decodes graph-safe identifiers back into public values.
pub fn graph_value(prefix: &str, token: &str) -> (value: Option<String>)
    ensures
        match value {
            Some(v) => token_value(prefix@, token@) == Some(v@),
            None => token_value(prefix@, token@) is None,
        },
{
    let rest = strip_prefix(token, prefix)?;
    let bytes = decode(rest)?;
    string_from_utf8(bytes)
}

/// A value survives a trip through a graph token.
pub proof fn graph_token_round_trip(prefix: Seq<char>, value: Seq<char>)
    ensures
        token_value(prefix, token_chars(prefix, value)) == Some(value),
{
    let token = token_chars(prefix, value);
    assert(prefix.is_prefix_of(token));
    assert(token.skip(prefix.len() as int) =~= hex_text(encode_utf8(value)));
    hex_round_trip(encode_utf8(value));
}

/// Graph labels of a record in a collection.
pub open spec fn record_label_chars(collection: Seq<char>) -> Seq<Seq<char>> {
    seq![RECORD_LABEL@, token_chars(COLLECTION_LABEL_PREFIX@, collection)]
}

pub open spec fn label_views(labels: Seq<String>) -> Seq<Seq<char>> {
    labels.map_values(|label: String| label@)
}

/// Builds graph labels for a record collection.
pub fn record_labels(collection: &str) -> (labels: Vec<String>)
    ensures
        label_views(labels@) == record_label_chars(collection@),
{
    let mut labels: Vec<String> = Vec::new();
    labels.push(RECORD_LABEL.to_owned());
    labels.push(graph_token(COLLECTION_LABEL_PREFIX, collection));
    assert(label_views(labels@) =~= record_label_chars(collection@));
    labels
}

/// Borrows graph labels as string slices.
pub fn label_refs(labels: &Vec<String>) -> (refs: Vec<&str>)
    ensures
        refs@.len() == labels@.len(),
        forall|i: int| 0 <= i < labels@.len() ==> #[trigger] refs@[i]@ == labels@[i]@,
{
    let mut refs: Vec<&str> = Vec::new();
    let mut i: usize = 0;
    while i < labels.len()
        invariant
            i <= labels@.len(),
            refs@.len() == i,
            forall|k: int| 0 <= k < i ==> #[trigger] refs@[k]@ == labels@[k]@,
        decreases labels@.len() - i,
    {
        refs.push(labels[i].as_str());
        i = i + 1;
    }
    refs
}

/// Label sets that agree up to order: as many labels, each of the left ones
/// among the right ones.
pub open spec fn labels_agree(left: Seq<Seq<char>>, right: Seq<Seq<char>>) -> bool {
    left.len() == right.len() && forall|i: int| 0 <= i < left.len() ==> right.contains(#[trigger] left[i])
}

/// Checks graph label identity without depending on label order.
pub fn labels_match(left: &Vec<String>, right: &Vec<String>) -> (matched: bool)
    ensures
        matched == labels_agree(label_views(left@), label_views(right@)),
{
    if left.len() != right.len() {
        return false;
    }
    let mut i: usize = 0;
    while i < left.len()
        invariant
            i <= left@.len(),
            left@.len() == right@.len(),
            forall|k: int| 0 <= k < i ==> label_views(right@).contains(#[trigger] label_views(left@)[k]),
        decreases left@.len() - i,
    {
        let mut found = false;
        let mut j: usize = 0;
        while j < right.len()
            invariant
                j <= right@.len(),
                i < left@.len(),
                found ==> label_views(right@).contains(label_views(left@)[i as int]),
                !found ==> forall|k: int| 0 <= k < j ==> right@[k]@ != left@[i as int]@,
            decreases right@.len() - j,
        {
            if right[j] == left[i] {
                assert(label_views(right@)[j as int] == label_views(left@)[i as int]);
                found = true;
            }
            j = j + 1;
        }
        if !found {
            proof {
                if label_views(right@).contains(label_views(left@)[i as int]) {
                    let k = choose|k: int| 0 <= k < right@.len() && label_views(right@)[k] == label_views(left@)[i as int];
                    assert(right@[k]@ == left@[i as int]@);
                }
            }
            return false;
        }
        i = i + 1;
    }
    true
}

/// The value of the first label that decodes as a collection label.
pub open spec fn first_collection(labels: Seq<Seq<char>>) -> Option<Seq<char>>
    decreases labels.len(),
{
    if labels.len() == 0 {
        None
    } else {
        match token_value(COLLECTION_LABEL_PREFIX@, labels[0]) {
            Some(value) => Some(value),
            None => first_collection(labels.drop_first()),
        }
    }
}

/// Returns the public collection label.
pub fn collection_from_labels(labels: &Vec<String>) -> (collection: Option<String>)
    ensures
        match collection {
            Some(c) => first_collection(label_views(labels@)) == Some(c@),
            None => first_collection(label_views(labels@)) is None,
        },
{
    let mut i: usize = 0;
    assert(label_views(labels@).skip(0) =~= label_views(labels@));
    while i < labels.len()
        invariant
            i <= labels@.len(),
            first_collection(label_views(labels@)) == first_collection(label_views(labels@).skip(i as int)),
        decreases labels@.len() - i,
    {
        let ghost rest = label_views(labels@).skip(i as int);
        assert(rest[0] == labels@[i as int]@);
        assert(rest.drop_first() =~= label_views(labels@).skip(i + 1));
        if let Some(value) = graph_value(COLLECTION_LABEL_PREFIX, labels[i].as_str()) {
            return Some(value);
        }
        i = i + 1;
    }
    None
}

/// The public predicate behind a relationship edge type; a type that does
/// not decode is returned as it is.
pub open spec fn predicate_chars(predicate: Seq<char>) -> Seq<char> {
    match token_value(RELATIONSHIP_TYPE_PREFIX@, predicate) {
        Some(value) => value,
        None => predicate,
    }
}

/// Returns the public relationship predicate.
pub fn relationship_predicate(predicate: &str) -> (public: String)
    ensures
        public@ == predicate_chars(predicate@),
{
    match graph_value(RELATIONSHIP_TYPE_PREFIX, predicate) {
        Some(value) => value,
        None => predicate.to_owned(),
    }
}

/// A record's labels give its collection back.
pub proof fn record_labels_name_collection(collection: Seq<char>)
    ensures
        first_collection(record_label_chars(collection)) == Some(collection),
{
    reveal_strlit("Record");
    reveal_strlit("Collection_");
    let labels = record_label_chars(collection);
    assert(RECORD_LABEL@.len() == 6);
    assert(COLLECTION_LABEL_PREFIX@.len() == 11);
    assert(!COLLECTION_LABEL_PREFIX@.is_prefix_of(RECORD_LABEL@));
    assert(token_value(COLLECTION_LABEL_PREFIX@, labels[0]) is None);
    let tail = labels.drop_first();
    assert(tail =~= seq![token_chars(COLLECTION_LABEL_PREFIX@, collection)]);
    graph_token_round_trip(COLLECTION_LABEL_PREFIX@, collection);
    assert(token_value(COLLECTION_LABEL_PREFIX@, tail[0]) == Some(collection));
    assert(first_collection(tail) == Some(collection));
}

/// A relationship predicate survives its edge type.
pub proof fn relationship_predicate_round_trip(predicate: Seq<char>)
    ensures
        predicate_chars(token_chars(RELATIONSHIP_TYPE_PREFIX@, predicate)) == predicate,
{
    graph_token_round_trip(RELATIONSHIP_TYPE_PREFIX@, predicate);
}

} // verus!
