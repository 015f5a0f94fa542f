//! Search request parameters of the knowledge service: the query text, the
//! collections to search and the result limit, as they arrive in a request.

use vstd::prelude::*;

use crate::index::types::{IndexSearchQuery, DEFAULT_SEARCH_LIMIT};
use crate::metadata::MetadataFilter;
use crate::text::{decimal, decimal_chars, lemma_utf8_len_at_least_chars, push_char, trim, trim_chars};

verus! {

/// The largest result count one search may ask for.
pub const MAX_SEARCH_LIMIT: usize = 100;

/// The comma-separated fields of a text, in order (one field when there is
/// no comma).
pub open spec fn comma_fields(s: Seq<char>) -> Seq<Seq<char>>
    decreases s.len(),
{
    if s.len() == 0 {
        seq![Seq::empty()]
    } else {
        let before = comma_fields(s.drop_last());
        if s.last() == ',' {
            before.push(Seq::empty())
        } else {
            before.update(before.len() - 1, before.last().push(s.last()))
        }
    }
}

/// Whether a trimmed field names something.
pub open spec fn named(field: Seq<char>) -> bool {
    field.len() > 0
}

/// The collection names in a comma-separated list: each field trimmed, the
/// empty ones left out.
pub open spec fn collection_names(s: Seq<char>) -> Seq<Seq<char>> {
    comma_fields(s).map_values(|field: Seq<char>| trim_chars(field)).filter(|field: Seq<char>| named(field))
}

/// The names kept from a run of fields.
pub open spec fn kept_names(fields: Seq<Seq<char>>) -> Seq<Seq<char>> {
    fields.map_values(|field: Seq<char>| trim_chars(field)).filter(|field: Seq<char>| named(field))
}

proof fn lemma_kept_names_push(fields: Seq<Seq<char>>, field: Seq<char>)
    ensures
        kept_names(fields.push(field)) == (if named(trim_chars(field)) {
            kept_names(fields).push(trim_chars(field))
        } else {
            kept_names(fields)
        }),
{
    let mapped = fields.map_values(|f: Seq<char>| trim_chars(f));
    assert(fields.push(field).map_values(|f: Seq<char>| trim_chars(f)) =~= mapped.push(
        trim_chars(field),
    ));
    mapped.lemma_filter_push(trim_chars(field), |f: Seq<char>| named(f));
}

/// Splits a comma-separated collection list into trimmed, non-empty names.
pub fn parse_collections(collections: Option<String>) -> (names: Vec<String>)
    ensures
        match collections {
            None => names@.len() == 0,
            Some(list) => names@.map_values(|name: String| name@) == collection_names(list@),
        },
{
    let list = match collections {
        None => {
            return Vec::new();
        },
        Some(list) => list,
    };
    let mut names: Vec<String> = Vec::new();
    let mut current = String::new();
    let bytes = list.as_str().as_bytes().len();
    proof {
        lemma_utf8_len_at_least_chars(list@);
    }
    let ghost mut done: Seq<Seq<char>> = Seq::empty();
    for c in it: list.as_str().chars()
        invariant
            it.seq() == list@,
            comma_fields(list@.take(it.index() as int)) == done.push(current@),
            names@.map_values(|name: String| name@) == kept_names(done),
    {
        let ghost prefix = list@.take(it.index() as int);
        proof {
            assert(list@.take(it.index() + 1).drop_last() =~= prefix);
            assert(list@.take(it.index() + 1).last() == c);
        }
        if c == ',' {
            let trimmed = trim(current.as_str());
            proof {
                lemma_kept_names_push(done, current@);
            }
            if !trimmed.is_empty() {
                names.push(trimmed.to_owned());
                assert(names@.map_values(|name: String| name@) =~= kept_names(done).push(
                    trimmed@,
                ));
            }
            proof {
                done = done.push(current@);
            }
            current = String::new();
            assert(comma_fields(list@.take(it.index() + 1)) =~= done.push(current@));
        } else {
            push_char(&mut current, c);
            assert(comma_fields(list@.take(it.index() + 1)) =~= done.push(current@));
        }
    }
    proof {
        assert(list@.take(list@.len() as int) =~= list@);
        lemma_kept_names_push(done, current@);
    }
    let trimmed = trim(current.as_str());
    if !trimmed.is_empty() {
        names.push(trimmed.to_owned());
        assert(names@.map_values(|name: String| name@) =~= kept_names(done).push(trimmed@));
    }
    names
}

/// The limit a search request resolves to: the requested one, else the
/// default.
pub open spec fn resolved_limit(limit: Option<usize>) -> usize {
    match limit {
        Some(l) => l,
        None => DEFAULT_SEARCH_LIMIT,
    }
}

/// The error for a limit out of range.
pub open spec fn limit_message() -> Seq<char> {
    "limit must be between 1 and "@ + decimal_chars(MAX_SEARCH_LIMIT as nat)
}

/// Returns a bounded search limit: the requested one or the default, when
/// it lies between 1 and the maximum.
pub fn search_limit(limit: Option<usize>) -> (bounded: Result<usize, String>)
    ensures
        bounded is Ok <==> 1 <= resolved_limit(limit) <= MAX_SEARCH_LIMIT,
        bounded matches Ok(l) ==> l == resolved_limit(limit),
        bounded matches Err(message) ==> message@ == limit_message(),
{
    let limit = match limit {
        Some(l) => l,
        None => DEFAULT_SEARCH_LIMIT,
    };
    if 1 <= limit && limit <= MAX_SEARCH_LIMIT {
        return Ok(limit);
    }
    let mut message = "limit must be between 1 and ".to_owned();
    message.append(decimal(MAX_SEARCH_LIMIT).as_str());
    Err(message)
}

/// The query text of a search request: trimmed, and required to be
/// non-empty.
pub fn search_text(query: &str) -> (text: Result<String, String>)
    ensures
        text is Ok <==> trim_chars(query@).len() > 0,
        text matches Ok(t) ==> t@ == trim_chars(query@),
        text matches Err(message) ==> message@ == "q must not be empty"@,
{
    let trimmed = trim(query);
    if trimmed.is_empty() {
        return Err("q must not be empty".to_owned());
    }
    Ok(trimmed.to_owned())
}

/// Whether decoding the filter failed.
pub open spec fn filter_failed(filter: Option<Result<MetadataFilter, String>>) -> bool {
    filter matches Some(Err(_))
}

/// Query parameters of a search request. The metadata filter arrives as
/// JSON text; its decoding is handed to `into_index_query` as a result.
#[derive(Clone, Debug)]
pub struct SearchQuery {
    /// Query text.
    pub q: String,
    /// Comma-separated collections to search.
    pub collections: Option<String>,
    /// Maximum result count.
    pub limit: Option<usize>,
}

impl SearchQuery {
    /// Converts request parameters into an index search query. The checks
    /// come in order: the query text, then the decoded filter (its error is
    /// passed on), then the limit.
    pub fn into_index_query(self, filter: Option<Result<MetadataFilter, String>>) -> (query: Result<
        IndexSearchQuery,
        String,
    >)
        ensures
            query is Ok <==> trim_chars(self.q@).len() > 0 && !filter_failed(filter) && 1
                <= resolved_limit(self.limit) <= MAX_SEARCH_LIMIT,
            query matches Err(message) ==> message@ == (if trim_chars(self.q@).len() == 0 {
                "q must not be empty"@
            } else {
                match filter {
                    Some(Err(m)) => m@,
                    _ => limit_message(),
                }
            }),
            query matches Ok(q) ==> {
                &&& q.text@ == trim_chars(self.q@)
                &&& match self.collections {
                    None => q.collections@.len() == 0,
                    Some(list) => q.collections@.map_values(|name: String| name@) == collection_names(
                        list@,
                    ),
                }
                &&& q.filter == match filter {
                    Some(Ok(f)) => Some(f),
                    _ => None::<MetadataFilter>,
                }
                &&& q.limit == resolved_limit(self.limit)
            },
    {
        let text = match search_text(self.q.as_str()) {
            Ok(text) => text,
            Err(message) => {
                return Err(message);
            },
        };
        let filter = match filter {
            None => None,
            Some(Ok(f)) => Some(f),
            Some(Err(message)) => {
                return Err(message);
            },
        };
        let limit = match search_limit(self.limit) {
            Ok(limit) => limit,
            Err(message) => {
                return Err(message);
            },
        };
        Ok(IndexSearchQuery { text, collections: parse_collections(self.collections), filter, limit })
    }
}

} // verus!
