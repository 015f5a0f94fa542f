use akuna_core::hex::{decode, encode};
use akuna_core::index::{MetadataFilter, MetadataValue};
use akuna_core::knowledge::{parse_collections, search_limit, search_text, SearchQuery};

#[test]
fn collections_split_and_trim() {
    assert_eq!(
        parse_collections(Some(" docs, ,notes ,,".to_string())),
        vec!["docs".to_string(), "notes".to_string()]
    );
    assert!(parse_collections(None).is_empty());
    assert!(parse_collections(Some(String::new())).is_empty());
    assert_eq!(parse_collections(Some("one".to_string())), vec!["one".to_string()]);
}

#[test]
fn search_limits_are_bounded() {
    assert_eq!(search_limit(None), Ok(10));
    assert_eq!(search_limit(Some(100)), Ok(100));
    assert_eq!(search_limit(Some(0)), Err("limit must be between 1 and 100".to_string()));
    assert_eq!(search_limit(Some(101)), Err("limit must be between 1 and 100".to_string()));
}

#[test]
fn search_text_must_not_be_blank() {
    assert_eq!(search_text("  volcano  "), Ok("volcano".to_string()));
    assert_eq!(search_text(" \t"), Err("q must not be empty".to_string()));
}

#[test]
fn hex_round_trips() {
    assert_eq!(encode(&[0x00, 0xab, 0x10]), "00ab10");
    assert_eq!(decode("00ab10"), Some(vec![0x00, 0xab, 0x10]));
    assert_eq!(decode("abc"), None);
    assert_eq!(decode("zz"), None);
    assert_eq!(decode("AbF0"), Some(vec![0xab, 0xf0]));
    assert_eq!(decode("0G"), None);
    let bytes: Vec<u8> = (0..=255).collect();
    assert_eq!(decode(&encode(&bytes)), Some(bytes));
}

#[test]
fn hex_decoding_ignores_ascii_case_and_fails_on_odd_or_foreign_text() {
    assert_eq!(decode("ABF0"), decode("abf0"));
    assert_eq!(decode("DeadBEEF"), Some(vec![0xde, 0xad, 0xbe, 0xef]));
    assert_eq!(decode(""), Some(Vec::new()));
    assert_eq!(decode("a"), None);
    assert_eq!(decode("a g0"), None);
    assert_eq!(decode("0x"), None);
}

fn search_query(q: &str, collections: Option<&str>, limit: Option<usize>) -> SearchQuery {
    SearchQuery { q: q.to_string(), collections: collections.map(str::to_string), limit }
}

#[test]
fn search_query_converts_parameters() {
    let filter = MetadataFilter::Equals {
        key: "color".to_string(),
        value: MetadataValue::Text("red".to_string()),
    };
    let Ok(query) = search_query("  volcano ", Some("docs, notes"), Some(5))
        .into_index_query(Some(Ok(filter)))
    else {
        panic!("query refused");
    };
    assert_eq!(query.text, "volcano");
    assert_eq!(query.collections, vec!["docs".to_string(), "notes".to_string()]);
    assert!(matches!(query.filter, Some(MetadataFilter::Equals { ref key, .. }) if key == "color"));
    assert_eq!(query.limit, 5);

    let Ok(plain) = search_query("test", None, None).into_index_query(None) else {
        panic!("query refused");
    };
    assert!(plain.collections.is_empty());
    assert!(plain.filter.is_none());
    assert_eq!(plain.limit, 10);
}

#[test]
fn search_query_bad_requests_in_order() {
    let error = |q: &str, limit: Option<usize>, filter: Option<Result<MetadataFilter, String>>| {
        search_query(q, None, limit).into_index_query(filter).err()
    };
    assert_eq!(error(" ", Some(0), Some(Err("bad filter".to_string()))).as_deref(), Some("q must not be empty"));
    assert_eq!(error("test", Some(0), Some(Err("bad filter".to_string()))).as_deref(), Some("bad filter"));
    assert_eq!(error("test", Some(0), None).as_deref(), Some("limit must be between 1 and 100"));
    assert_eq!(error("test", Some(101), None).as_deref(), Some("limit must be between 1 and 100"));
    assert_eq!(error("test", Some(100), None), None);
}
