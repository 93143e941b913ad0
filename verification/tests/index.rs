//! Flattening and searching.

use png_metadata_gui::index::{
    flatten, leaf_matches, parse_payload, row_matches, subtree_matches, ChunkPayload, MetaRow,
};
use png_metadata_gui::json::{parse_json, Json};
use png_metadata_gui::lenient::replace_nonfinite_tokens;

#[test]
fn flattens_nested_json_with_leaf_keys() {
    let payload = parse_payload(r#"{"31": {"inputs": {"seed": 42, "text": ["160", 0]}}}"#);
    let rows = flatten("prompt", &payload);
    let paths: Vec<&str> = rows.iter().map(|r| r.path.as_str()).collect();
    assert_eq!(
        paths,
        [
            "prompt.31.inputs.seed",
            "prompt.31.inputs.text.0",
            "prompt.31.inputs.text.1"
        ]
    );
    assert_eq!(rows[0].key, "seed");
    assert_eq!(rows[0].value, "42");
    assert!(rows[0].is_direct);
    assert_eq!(rows[1].key, "text"); // array element keeps nearest named key
    assert!(!rows[1].is_direct); // …but is not a direct match for pins
}

#[test]
fn flattens_key_value_tokens() {
    let payload = parse_payload("seed=42 denoise=0.35 sampler=euler");
    let rows = flatten("catr_ab_summary", &payload);
    assert_eq!(rows.len(), 3);
    assert_eq!(rows[0].path, "catr_ab_summary.seed");
    assert_eq!(rows[0].value, "42");
    assert_eq!(rows[2].key, "sampler");
}

#[test]
fn parses_python_style_nan_json() {
    let payload =
        parse_payload(r#"{"118": {"is_changed": NaN, "title": "NaN keeper \" NaN"}, "b": -Infinity}"#);
    let rows = flatten("prompt", &payload);
    assert_eq!(rows.len(), 3);
    assert_eq!(rows[0].path, "prompt.118.is_changed");
    assert_eq!(rows[0].value, "null");
    assert_eq!(rows[1].value, "NaN keeper \" NaN"); // strings untouched
    assert_eq!(rows[2].value, "null");
}

#[test]
fn nan_sanitizer_preserves_non_ascii_text() {
    let payload = parse_payload(r#"{"a": NaN, "p": "café 日本 — ✓"}"#);
    let rows = flatten("prompt", &payload);
    assert_eq!(rows.len(), 2);
    assert_eq!(rows[0].value, "null");
    assert_eq!(rows[1].value, "café 日本 — ✓");
}

#[test]
fn bare_query_matches_key_or_value_but_not_path_prefix() {
    let payload = parse_payload(
        r#"{"6": {"inputs": {"value": "a cat"}, "_meta": {"title": "Positive Prompt"}}}"#,
    );
    let rows = flatten("prompt", &payload);
    // "prompt" prefixes every path, but only the title *value* contains it.
    let hits: Vec<&MetaRow> = rows.iter().filter(|r| row_matches(r, "prompt")).collect();
    assert_eq!(hits.len(), 1);
    assert_eq!(hits[0].path, "prompt.6._meta.title");
    // Bare queries match keys; dotted queries match paths.
    assert!(rows.iter().any(|r| row_matches(r, "value")));
    assert!(rows.iter().any(|r| row_matches(r, "prompt.6.inputs.value")));
    assert!(!rows.iter().any(|r| row_matches(r, "prompt.7")));
}

#[test]
fn subtree_matches_prunes_non_matching_branches() {
    let payload = parse_payload(
        r#"{"6": {"inputs": {"value": "a cat"}}, "7": {"inputs": {"seed": 42}}}"#,
    );
    let ChunkPayload::Json(root) = &payload else {
        panic!("expected JSON payload");
    };
    let six = root.get("6").expect("node 6");
    let seven = root.get("7").expect("node 7");
    assert!(subtree_matches("prompt.6", "6", six, "cat"));
    assert!(!subtree_matches("prompt.7", "7", seven, "cat"));
    assert!(subtree_matches("prompt.7", "7", seven, "seed"));
    assert!(subtree_matches("prompt.7", "7", seven, "prompt.7.inputs.seed"));
}

#[test]
fn free_text_becomes_single_row() {
    let payload = parse_payload("a photo of a cat, masterpiece");
    let rows = flatten("parameters", &payload);
    assert_eq!(rows.len(), 1);
    assert_eq!(rows[0].key, "parameters");
}

#[test]
fn mixed_text_keeps_pairs_and_full_text() {
    let payload = parse_payload("a prompt with <lora:x=y> inside");
    let rows = flatten("parameters", &payload);
    assert_eq!(rows.len(), 2);
    assert_eq!(rows[0].path, "parameters.<lora:x");
    assert_eq!(rows[0].value, "y>");
    assert_eq!(rows[1].path, "parameters");
    // The free-text words stay searchable instead of being dropped.
    assert!(rows.iter().any(|row| row_matches(row, "prompt")));
    assert!(rows.iter().any(|row| row_matches(row, "inside")));
}

#[test]
fn a_pair_may_have_an_empty_value_but_not_an_empty_key() {
    let rows = flatten("k", &parse_payload("a= =b c=d=e"));
    let listed: Vec<(&str, &str)> =
        rows.iter().map(|r| (r.key.as_str(), r.value.as_str())).collect();
    assert_eq!(listed, [("a", ""), ("c", "d=e"), ("k", "a= =b c=d=e")]);
}

#[test]
fn an_empty_text_becomes_one_row() {
    let rows = flatten("k", &parse_payload(""));
    assert_eq!(rows.len(), 1);
    assert_eq!((rows[0].path.as_str(), rows[0].value.as_str()), ("k", ""));
}

#[test]
fn a_bare_json_value_is_plain_text() {
    assert!(matches!(parse_payload("42"), ChunkPayload::Plain(text) if text == "42"));
    assert!(matches!(parse_payload("\"x\""), ChunkPayload::Plain(_)));
    assert!(matches!(parse_payload("NaN"), ChunkPayload::Plain(text) if text == "NaN"));
    assert!(matches!(parse_payload("{broken"), ChunkPayload::Plain(_)));
    assert!(matches!(parse_payload("[]"), ChunkPayload::Json(Json::List(items)) if items.is_empty()));
}

#[test]
fn every_kind_of_leaf_shows_as_json_writes_it() {
    let payload = parse_payload(
        r#"{"n": null, "t": true, "f": false, "i": -7, "x": 1.50, "e": 1e3, "s": "a\"b"}"#,
    );
    let rows = flatten("k", &payload);
    let values: Vec<&str> = rows.iter().map(|r| r.value.as_str()).collect();
    assert_eq!(values, ["null", "true", "false", "-7", "1.5", "1000.0", "a\"b"]);
}

#[test]
fn objects_keep_document_order() {
    let rows = flatten("k", &parse_payload(r#"{"z": 1, "a": 2, "m": 3}"#));
    let keys: Vec<&str> = rows.iter().map(|r| r.key.as_str()).collect();
    assert_eq!(keys, ["z", "a", "m"]);
}

#[test]
fn a_list_of_objects_names_its_leaves_by_their_own_keys() {
    let rows = flatten("k", &parse_payload(r#"[{"a": 1}, [2]]"#));
    assert_eq!(rows[0].path, "k.0.a");
    assert_eq!(rows[0].key, "a");
    assert!(rows[0].is_direct);
    assert_eq!(rows[1].path, "k.1.0");
    assert_eq!(rows[1].key, "k");
    assert!(!rows[1].is_direct);
}

#[test]
fn tokens_are_replaced_in_value_position_only() {
    assert_eq!(
        replace_nonfinite_tokens(r#"{"a": [NaN, -Infinity, Infinity]}"#).as_deref(),
        Some(r#"{"a": [null, null, null]}"#)
    );
    // A key position, a string and a token run into other letters.
    assert_eq!(replace_nonfinite_tokens("{NaN: 1}"), None);
    assert_eq!(replace_nonfinite_tokens(r#"{"NaN": "Infinity"}"#), None);
    assert_eq!(replace_nonfinite_tokens("[NaNo]").as_deref(), Some("[nullo]"));
    assert_eq!(replace_nonfinite_tokens("  NaN").as_deref(), Some("  null"));
    assert_eq!(replace_nonfinite_tokens(""), None);
}

#[test]
fn replacing_twice_changes_nothing_more() {
    for text in ["[NaN,NaN]", "NaN NaN", "{\"a\":\t-Infinity , \"b\\\"\":NaN}", "[Infinity"] {
        let once = replace_nonfinite_tokens(text).expect("a token to replace");
        assert_eq!(replace_nonfinite_tokens(&once), None, "{text} gave {once}");
    }
}

#[test]
fn a_document_and_its_parts_can_be_read() {
    let json = parse_json(r#"{"a": {"b": [1, "x"]}}"#).expect("valid JSON");
    let Some(Json::List(items)) = json.get("a").and_then(|a| a.get("b")) else {
        panic!("expected a list");
    };
    assert_eq!(items.len(), 2);
    assert_eq!(items[0].leaf(), "1");
    assert_eq!(items[1].leaf(), "x");
    assert!(json.get("b").is_none());
    assert!(items[0].get("b").is_none());
    assert!(parse_json("{]").is_none());
}

#[test]
fn search_ignores_case_through_the_lowercase_copies() {
    let row = MetaRow::new(
        "Prompt.Seed".to_string(),
        "Seed".to_string(),
        "Größe".to_string(),
        true,
    );
    assert_eq!(row.path_lc, "prompt.seed");
    assert_eq!(row.value_lc, "größe");
    assert!(row_matches(&row, "see"));
    assert!(row_matches(&row, "größe"));
    assert!(row_matches(&row, "t.s"));
    assert!(!row_matches(&row, "prompt"));
    assert!(row_matches(&row, ""));
    assert_eq!(row.sort_key, None);
    assert_eq!(row.with_sort_key(-3).sort_key, Some(-3));
    assert!(leaf_matches("P.Q", "Key", "VALUE", "value"));
    assert!(!leaf_matches("P.Q", "Key", "VALUE", "p"));
    assert!(leaf_matches("P.Q", "Key", "VALUE", "p.q"));
}
