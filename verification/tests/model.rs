//! Entries, file rows and pins on rows.

use png_metadata_gui::chunks::{PngHeader, TextChunk};
use png_metadata_gui::clock::Stamp;
use png_metadata_gui::index::{flatten, parse_payload, MetaRow};
use png_metadata_gui::model::{
    build_file_rows, describes_file, human_size, FileMeta, FilePath, ImageEntry, PinMode,
};

fn path(name: &str) -> FilePath {
    FilePath {
        text: name.to_string(),
        file_name: name.to_string(),
        name_bytes: name.as_bytes().to_vec(),
        extension: Some("png".to_string()),
    }
}

fn entry_with_rows(rows: Vec<MetaRow>) -> ImageEntry {
    ImageEntry {
        path: path("test.png"),
        file_name: "test.png".to_string(),
        file_name_lc: "test.png".to_string(),
        file_size: 0,
        width: 0,
        height: 0,
        chunks: Vec::new(),
        rows,
    }
}

#[test]
fn key_pin_skips_link_array_elements() {
    let payload = parse_payload(
        r#"{"93": {"inputs": {"steps": ["123", 0]}}, "170": {"inputs": {"steps": 9}}}"#,
    );
    let entry = entry_with_rows(flatten("prompt", &payload));
    let matches = entry.rows_for_pin("steps");
    assert_eq!(matches.len(), 1);
    assert_eq!(matches[0].value, "9");
}

#[test]
fn path_pin_matches_exact_location_only() {
    let payload = parse_payload(
        r#"{"109": {"inputs": {"cfg": 1.0}}, "183": {"inputs": {"cfg": 4.5}}}"#,
    );
    let entry = entry_with_rows(flatten("prompt", &payload));
    assert_eq!(entry.rows_for_pin("cfg").len(), 2);
    let exact = entry.rows_for_pin("prompt.183.inputs.cfg");
    assert_eq!(exact.len(), 1);
    assert_eq!(exact[0].value, "4.5");
}

#[test]
fn file_rows_carry_sort_keys() {
    let rows = build_file_rows(2_097_152, 768, 1024, None, None);
    let size_row = rows.iter().find(|r| r.path == "file.size").expect("size row");
    assert_eq!(size_row.value, "2.0 MB");
    assert_eq!(size_row.sort_key, Some(2_097_152));
    let dims_row = rows
        .iter()
        .find(|r| r.path == "file.dimensions")
        .expect("dimensions row");
    assert_eq!(dims_row.value, "768×1024");
}

#[test]
fn known_moments_become_rows() {
    let stamp = |text: &str, epoch: i64| Some(Stamp { text: text.to_string(), epoch });
    let rows = build_file_rows(1, 2, 3, stamp("then", -5), stamp("now", 7));
    let listed: Vec<(&str, &str, Option<i128>)> =
        rows.iter().map(|r| (r.path.as_str(), r.value.as_str(), r.sort_key)).collect();
    assert_eq!(
        listed,
        [
            ("file.size", "1 B", Some(1)),
            ("file.width", "2", Some(2)),
            ("file.height", "3", Some(3)),
            ("file.dimensions", "2×3", Some(6)),
            ("file.created", "then", Some(-5)),
            ("file.modified", "now", Some(7)),
        ]
    );
    assert!(rows.iter().all(|r| r.is_direct));
}

#[test]
fn sort_keys_are_the_nearest_doubles() {
    for size in [0, 1, (1 << 53) + 1, u64::MAX, 9_007_199_254_740_995] {
        let rows = build_file_rows(size, 0, 0, None, None);
        assert_eq!(rows[0].sort_key, Some(size as f64 as i128), "size {size}");
    }
    let rows = build_file_rows(0, u32::MAX, u32::MAX - 2, None, None);
    let product = f64::from(u32::MAX) * f64::from(u32::MAX - 2);
    assert_eq!(rows[3].sort_key, Some(product as i128));
    for epoch in [i64::MIN, -(1 << 60) - 1, i64::MAX] {
        let rows = build_file_rows(0, 0, 0, Some(Stamp { text: String::new(), epoch }), None);
        assert_eq!(rows[4].sort_key, Some(epoch as f64 as i128), "epoch {epoch}");
    }
}

/// The size as doubles format it.
fn size_in_doubles(bytes: u64) -> String {
    let b = bytes as f64;
    if b >= 1024.0 * 1024.0 {
        format!("{:.1} MB", b / (1024.0 * 1024.0))
    } else if b >= 1024.0 {
        format!("{:.0} KB", b / 1024.0)
    } else {
        format!("{bytes} B")
    }
}

#[test]
fn sizes_read_as_people_read_them() {
    assert_eq!(human_size(0), "0 B");
    assert_eq!(human_size(1023), "1023 B");
    assert_eq!(human_size(1024), "1 KB");
    assert_eq!(human_size(1536), "2 KB"); // a tie goes to the even digit
    assert_eq!(human_size(2560), "2 KB");
    assert_eq!(human_size(1_048_575), "1024 KB");
    assert_eq!(human_size(1_048_576), "1.0 MB");
    assert_eq!(human_size(8_493_466), "8.1 MB");
}

#[test]
fn sizes_are_what_doubles_format() {
    let mut size: u64 = 1;
    for step in 0..4000u64 {
        for near in [size.saturating_sub(1), size, size.saturating_add(step)] {
            assert_eq!(human_size(near), size_in_doubles(near), "{near} bytes");
        }
        size = size.wrapping_mul(6_364_136_223_846_793_005).wrapping_add(1_442_695_040_888_963_407)
            >> (step % 50);
    }
    for tenth in 0..200u64 {
        // Halfway between two tenths of a megabyte, and its neighbours.
        let tie = 1_048_576 + tenth * 52_428;
        for bytes in [tie, tie + 1, tie + 52_429, 1024 * tenth + 512] {
            assert_eq!(human_size(bytes), size_in_doubles(bytes), "{bytes} bytes");
        }
    }
    assert_eq!(human_size(u64::MAX), size_in_doubles(u64::MAX));
}

/// A titled prompt node, a titled node whose input is a link, and a bare one.
fn titled() -> ImageEntry {
    let text = r#"{"6": {"inputs": {"value": "a cat", "n": 3}, "_meta": {"title": "Positive Prompt"}},
        "8": {"inputs": {"value": ["6", 0]}, "_meta": {"title": "Negative Prompt"}},
        "9": {"inputs": {"cfg": 4.5}}}"#;
    ImageEntry::from_parts(
        path("Test.png"),
        FileMeta { size: 5, created: None, modified: None, width: 8, height: 9 },
        vec![TextChunk { keyword: "prompt".to_string(), text: text.to_string() }],
    )
}

fn values(entry: &ImageEntry, pattern: &str, mode: PinMode, use_titles: bool) -> Vec<String> {
    entry
        .rows_for_mode(pattern, mode, use_titles)
        .iter()
        .map(|row| row.value.clone())
        .collect()
}

#[test]
fn an_entry_holds_file_rows_then_chunk_rows() {
    let entry = titled();
    assert_eq!(entry.file_name, "Test.png");
    assert_eq!(entry.file_name_lc, "test.png");
    assert_eq!((entry.width, entry.height, entry.file_size), (8, 9, 5));
    assert_eq!(entry.chunks.len(), 1);
    assert!(entry.chunks[0].byte_len > 100);
    assert_eq!(entry.rows[0].path, "file.size");
    assert_eq!(entry.rows[4].path, "prompt.6.inputs.value");
    let file: Vec<&str> = entry.file_rows().iter().map(|row| row.key.as_str()).collect();
    assert_eq!(file, ["size", "width", "height", "dimensions"]);
}

#[test]
fn file_rows_are_those_of_the_file_alone() {
    let entry = ImageEntry::from_parts(
        path("a.png"),
        FileMeta { size: 3, created: None, modified: None, width: 1, height: 2 },
        vec![
            TextChunk { keyword: "file".to_string(), text: r#"{"size": "big"}"#.to_string() },
            TextChunk { keyword: "file.size".to_string(), text: "huge".to_string() },
        ],
    );
    let file: Vec<&str> = entry.file_rows().iter().map(|row| row.value.as_str()).collect();
    assert_eq!(file, ["3 B", "1", "2", "1×2"]);
    let described: Vec<bool> = entry.rows.iter().map(|row| describes_file(row)).collect();
    assert_eq!(described, [true, true, true, true, false, false]);
}

#[test]
fn a_leaf_has_a_title_only_where_a_title_pin_can_match() {
    let entry = titled();
    let at = "prompt.6.inputs.value";
    assert_eq!(entry.leaf_title(at, true, true).as_deref(), Some("positive prompt"));
    assert_eq!(entry.leaf_title(at, false, true), None);
    assert_eq!(entry.leaf_title(at, true, false), None);
    assert_eq!(entry.leaf_title("prompt.9.inputs.cfg", true, true), None);
}

#[test]
fn a_chunk_is_as_long_as_its_text_in_bytes() {
    let entry = ImageEntry::from_parts(
        path("a.png"),
        FileMeta { size: 0, created: None, modified: None, width: 0, height: 0 },
        vec![TextChunk { keyword: "k".to_string(), text: "日本é".to_string() }],
    );
    assert_eq!(entry.chunks[0].byte_len, "日本é".len());
}

#[test]
fn a_title_pin_shows_the_direct_inputs_of_the_nodes_it_names() {
    let entry = titled();
    assert_eq!(values(&entry, "positive", PinMode::Title, true), ["a cat", "3"]);
    // The negative prompt's only input is a link, whose elements are no values.
    assert_eq!(values(&entry, "prompt", PinMode::Title, true), ["a cat", "3"]);
    assert!(values(&entry, "", PinMode::Title, true).is_empty());
    assert!(values(&entry, "missing", PinMode::Title, true).is_empty());
}

#[test]
fn a_title_pin_keeps_working_where_node_ids_differ() {
    let image = |node: &str| {
        let text = format!(
            r#"{{"{node}": {{"inputs": {{"value": "a cat"}}, "_meta": {{"title": "Positive Prompt"}}}}}}"#
        );
        ImageEntry::from_parts(
            path("a.png"),
            FileMeta { size: 0, created: None, modified: None, width: 1, height: 1 },
            vec![TextChunk { keyword: "prompt".to_string(), text }],
        )
    };
    for node in ["6", "160", "x:7"] {
        assert_eq!(values(&image(node), "Positive Prompt", PinMode::Title, true), ["a cat"]);
    }
}

#[test]
fn titles_count_only_where_they_are_in_use() {
    let entry = titled();
    assert!(values(&entry, "positive", PinMode::Title, false).is_empty());
    assert_eq!(values(&entry, "cfg", PinMode::Auto, false), ["4.5"]);
    assert!(values(&entry, "positive", PinMode::Auto, false).is_empty());
}

#[test]
fn a_typed_pin_finds_keys_and_titles_in_document_order() {
    let entry = titled();
    assert_eq!(values(&entry, "CFG", PinMode::Auto, true), ["4.5"]);
    assert_eq!(values(&entry, "Positive Prompt", PinMode::Auto, true), ["a cat", "3"]);
    assert_eq!(values(&entry, "prompt.9.inputs.CFG", PinMode::Auto, true), ["4.5"]);
    assert_eq!(values(&entry, "title", PinMode::Key, true), ["Positive Prompt", "Negative Prompt"]);
}

#[test]
fn a_node_title_is_found_from_the_paths_of_its_rows() {
    let entry = titled();
    assert_eq!(
        entry.node_title_lc("prompt.6.inputs.value").as_deref(),
        Some("positive prompt")
    );
    assert_eq!(entry.node_title_lc("prompt.6._meta.title"), None);
    assert_eq!(
        entry.node_title_for("prompt.6._meta.title").as_deref(),
        Some("Positive Prompt")
    );
    assert_eq!(entry.node_title_for("prompt.9.inputs.cfg"), None);
    assert_eq!(entry.node_title_for("prompt.61.inputs.cfg"), None);
}

#[test]
fn loading_keeps_the_header_or_its_error() {
    let header = PngHeader { width: 3, height: 4, text_chunks: Vec::new() };
    let entry = ImageEntry::load(path("a.png"), 10, None, None, Ok(header));
    assert!(matches!(entry, Ok(entry) if entry.width == 3 && entry.rows.len() == 4));
    let failed = ImageEntry::load(path("a.png"), 10, None, None, Err("not a PNG file".to_string()));
    assert!(matches!(failed, Err(reason) if reason == "not a PNG file"));
}

#[test]
fn pins_default_to_keys() {
    assert_eq!(PinMode::default(), PinMode::Key);
}
