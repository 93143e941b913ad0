//! The metadata tree.

use png_metadata_gui::chunks::TextChunk;
use png_metadata_gui::index::{flatten, parse_payload, row_matches};
use png_metadata_gui::json::{parse_json, Json};
use png_metadata_gui::model::{FileMeta, FilePath, ImageEntry};
use png_metadata_gui::tree::{
    chunk_matches, header_open_override, json_tree, jump_opens, key_entry, leaf_hover, metadata_tree, path_entry,
    pin_hint, title_entry, SectionBody, TreeNode, TreeNote,
};

/// The tree as indented lines.
fn lines(nodes: &[TreeNode], depth: usize, out: &mut Vec<String>) {
    for node in nodes {
        let indent = "  ".repeat(depth);
        match node {
            TreeNode::Branch(_, header, children) => {
                out.push(format!("{indent}{header}"));
                lines(children, depth + 1, out);
            }
            TreeNode::Leaf(leaf) => out.push(format!("{indent}{} = {}", leaf.key, leaf.value)),
        }
    }
}

fn shown(text: &str, query: &str) -> Vec<String> {
    let json: Json = parse_json(text).expect("valid JSON");
    let mut out = Vec::new();
    lines(&json_tree("k", "k", &json, query, true), 0, &mut out);
    out
}

fn entry(chunks: &[(&str, &str)]) -> ImageEntry {
    ImageEntry::from_parts(
        FilePath {
            text: "a.png".to_string(),
            file_name: "a.png".to_string(),
            name_bytes: b"a.png".to_vec(),
            extension: Some("png".to_string()),
        },
        FileMeta { size: 2048, created: None, modified: None, width: 8, height: 8 },
        chunks
            .iter()
            .map(|(keyword, text)| TextChunk {
                keyword: keyword.to_string(),
                text: text.to_string(),
            })
            .collect(),
    )
}

#[test]
fn a_document_nests_under_headers_that_count() {
    assert_eq!(
        shown(r#"{"a": {"b": 1, "c": [true, {"d": null}]}, "e": "x"}"#, ""),
        [
            "a  {2}",
            "  b = 1",
            "  c  [2]",
            "    c[0] = true",
            "    c[1]  {1}",
            "      d = null",
            "e = x",
        ]
    );
    assert_eq!(shown("[1]", ""), ["k  [1]", "  k[0] = 1"]);
}

#[test]
fn a_query_prunes_what_does_not_answer() {
    assert_eq!(
        shown(r#"{"a": {"b": 1, "c": ["cat", 2]}, "e": "x"}"#, "cat"),
        ["a  {1}", "  c  [1]", "    c[0] = cat"]
    );
    assert!(shown(r#"{"a": 1}"#, "nowhere").is_empty());
}

#[test]
fn a_list_in_a_list_answers_by_the_key_of_its_rows() {
    let text = r#"{"k": [["cat", 2], ["dog"]]}"#;
    assert_eq!(shown(text, "cat"), ["k  [1]", "  k[0]  [1]", "    k[0][0] = cat"]);
    assert_eq!(shown(text, "k.1.0"), ["k  [1]", "  k[1]  [1]", "    k[1][0] = dog"]);
    // The inner list is shown as `k[1]`, but its rows have the key `k`.
    assert_eq!(
        shown(r#"{"k": [["x"], ["a1", "b"]]}"#, "1"),
        ["k  [1]", "  k[1]  [1]", "    k[1][0] = a1"]
    );
}

#[test]
fn elements_of_a_list_are_no_direct_leaves() {
    let json = parse_json(r#"{"a": [1], "b": 2}"#).expect("valid JSON");
    let nodes = json_tree("k", "k", &json, "", true);
    let TreeNode::Branch(path, _, children) = &nodes[0] else {
        panic!("a list is a branch");
    };
    assert_eq!(path, "k.a");
    assert!(matches!(&children[0], TreeNode::Leaf(leaf) if !leaf.direct && leaf.path == "k.a.0"));
    assert!(matches!(&nodes[1], TreeNode::Leaf(leaf) if leaf.direct && leaf.path == "k.b"));
}

/// Path, value and directness of every leaf.
fn leaves(nodes: &[TreeNode], out: &mut Vec<(String, String, bool)>) {
    for node in nodes {
        match node {
            TreeNode::Branch(_, _, children) => leaves(children, out),
            TreeNode::Leaf(leaf) => out.push((leaf.path.clone(), leaf.value.clone(), leaf.direct)),
        }
    }
}

#[test]
fn the_tree_shows_the_rows_that_the_search_finds() {
    let text = r#"{"k": [["x1"], ["a1", "b"]], "a]": 1, "m": {"1": [], "n": {"o": "1"}}, "p": [[[1]]]}"#;
    let rows = flatten("k", &parse_payload(text));
    let json = parse_json(text).expect("valid JSON");
    for query in ["", "1", "a", "k", "]", "k.1", "m.n", "[1]", "p.0.0", "nowhere"] {
        let found: Vec<(String, String, bool)> = rows
            .iter()
            .filter(|row| query.is_empty() || row_matches(row, query))
            .map(|row| (row.path.clone(), row.value.clone(), row.is_direct))
            .collect();
        let mut seen = Vec::new();
        leaves(&json_tree("k", "k", &json, query, true), &mut seen);
        assert_eq!(seen, found, "searched for {query:?}");
    }
}

#[test]
fn a_key_that_ends_in_a_bracket_is_a_direct_leaf() {
    let json = parse_json(r#"{"a]": 1, "b[0]": [2]}"#).expect("valid JSON");
    let mut seen = Vec::new();
    leaves(&json_tree("k", "k", &json, "", true), &mut seen);
    assert_eq!(
        seen,
        [
            ("k.a]".to_string(), "1".to_string(), true),
            ("k.b[0].0".to_string(), "2".to_string(), false),
        ]
    );
}

#[test]
fn each_chunk_answers_for_itself() {
    let entry = entry(&[("Comment", "a cat"), ("Comment", "a dog"), ("note", r#"{"Comment": 1}"#)]);
    assert!(chunk_matches(&entry.chunks[0], "cat"));
    assert!(!chunk_matches(&entry.chunks[1], "cat"));
    assert!(chunk_matches(&entry.chunks[2], "comment"));
    let view = metadata_tree(&entry, "dog", &None);
    let shown: Vec<usize> = view.sections.iter().map(|section| section.chunk).collect();
    assert_eq!(shown, [1]);
    // A keyword that answers shows its section whole.
    let view = metadata_tree(&entry, "note", &None);
    let shown: Vec<(usize, &str)> =
        view.sections.iter().map(|section| (section.chunk, section.query.as_str())).collect();
    assert_eq!(shown, [(2, "")]);
}

#[test]
fn a_chunk_named_file_adds_no_file_rows() {
    let entry = entry(&[("file", r#"{"size": 1, "name": "x"}"#), ("file.size", "12")]);
    let view = metadata_tree(&entry, "", &None);
    let keys: Vec<&str> = view.file_rows.iter().map(|row| row.key.as_str()).collect();
    assert_eq!(keys, ["size", "width", "height", "dimensions"]);
    assert_eq!(view.sections.len(), 2);
}

#[test]
fn the_tree_of_an_image_has_file_rows_and_a_section_for_each_chunk() {
    let entry = entry(&[("prompt", r#"{"a": 1}"#), ("parameters", "a cat")]);
    let view = metadata_tree(&entry, "", &None);
    assert_eq!(view.file_rows.len(), 4);
    assert_eq!(view.note, None);
    let titles: Vec<&str> = view.sections.iter().map(|section| section.title.as_str()).collect();
    assert_eq!(titles, ["prompt  (8 B)", "parameters  (5 B)"]);
    assert!(matches!(&view.sections[0].body, SectionBody::Json(nodes) if nodes.len() == 1));
    assert!(matches!(&view.sections[1].body, SectionBody::Plain(text) if text == "a cat"));
    assert!(!view.sections[0].scroll);
}

#[test]
fn a_search_leaves_the_sections_that_answer() {
    let entry = entry(&[("prompt", r#"{"a": 1}"#), ("parameters", "a cat")]);
    let view = metadata_tree(&entry, "cat", &None);
    assert_eq!(view.sections.len(), 1);
    assert_eq!(view.sections[0].chunk, 1);
    assert!(view.file_rows.is_empty());
    let view = metadata_tree(&entry, "nowhere", &None);
    assert_eq!(view.note, Some(TreeNote::NoMatches));
}

#[test]
fn an_image_without_chunks_says_so() {
    let entry = entry(&[]);
    assert_eq!(metadata_tree(&entry, "", &None).note, Some(TreeNote::NoTextChunks));
}

#[test]
fn a_jump_opens_what_leads_to_its_target_and_what_it_holds() {
    assert!(jump_opens("a.b", "a.b"));
    assert!(jump_opens("a", "a.b.c"));
    assert!(jump_opens("a.b.c", "a.b"));
    assert!(!jump_opens("a.bc", "a.b"));
    assert!(!jump_opens("x", "a.b"));
    let jump = Some("a.b".to_string());
    assert_eq!(header_open_override("a", &jump, Some(false)), Some(true));
    assert_eq!(header_open_override("x", &jump, Some(false)), Some(false));
    assert_eq!(header_open_override("x", &None, None), None);
}

#[test]
fn menu_entries_say_what_they_do() {
    assert_eq!(key_entry(false, "cfg"), "Pin key 'cfg'  (all locations)");
    assert_eq!(key_entry(true, "cfg"), "Unpin key 'cfg'");
    assert_eq!(title_entry(false, "T"), "Pin node title 'T'  (all workflows)");
    assert_eq!(path_entry(true), "Unpin this exact path");
    assert_eq!(path_entry(false), "Pin exact path  (this location only)");
    assert_ne!(pin_hint(true, true), pin_hint(false, true));
    assert_ne!(pin_hint(false, false), pin_hint(false, true));
    assert_eq!(leaf_hover("a.b", "v"), "a.b\n\nv\n\n(click to copy)");
}
