//! Short texts.

use png_metadata_gui::index::MetaRow;
use png_metadata_gui::labels::{
    cell_tooltip, chip_hint, count_line, dump, facts_line, layout_id, left_out, loading_line,
    pending_line, scan_line, sort_arrow, unreadable_line,
};
use png_metadata_gui::model::{FileMeta, FilePath, ImageEntry};
use png_metadata_gui::pins::Pin;
use png_metadata_gui::table::SortColumn;
use png_metadata_gui::viewer::ScanState;

fn row(path: &str, value: &str) -> MetaRow {
    MetaRow::new(path.to_string(), path.to_string(), value.to_string(), true)
}

#[test]
fn status_lines_read_as_sentences() {
    assert_eq!(facts_line(640, 480, 2048), "640×480  ·  2 KB");
    assert_eq!(count_line(3, 12), "3 of 12 images");
    assert_eq!(pending_line(2), "decoding 2 thumbnails…");
    assert_eq!(unreadable_line(1), "1 unreadable");
    let listing = ScanState { generation: 1, done: 0, total: None };
    assert_eq!(scan_line(&listing), "listing folder…");
    assert_eq!(loading_line(&listing), "Reading folder…");
    let reading = ScanState { generation: 1, done: 4, total: Some(9) };
    assert_eq!(scan_line(&reading), "reading metadata 4 / 9…");
    assert_eq!(loading_line(&reading), "Reading metadata… 4 / 9");
}

#[test]
fn the_arrow_stands_behind_the_sorted_column_only() {
    assert_eq!(sort_arrow(Some((SortColumn::Name, true)), SortColumn::Name), " ▲");
    assert_eq!(sort_arrow(Some((SortColumn::Name, false)), SortColumn::Name), " ▼");
    assert_eq!(sort_arrow(Some((SortColumn::Pin(1), true)), SortColumn::Pin(2)), "");
    assert_eq!(sort_arrow(None, SortColumn::Name), "");
}

#[test]
fn a_cell_lists_its_matches_and_counts_what_it_leaves_out() {
    let (one, two) = (row("a.cfg", "1"), row("b.cfg", "2\n3"));
    assert_eq!(cell_tooltip(&vec![&one, &two]), "1. a.cfg = 1\n2. b.cfg = 2 3");
    assert_eq!(cell_tooltip(&Vec::new()), "");
    assert_eq!(left_out(3), None);
    assert_eq!(left_out(5).as_deref(), Some("+2"));
}

#[test]
fn a_layout_changes_with_its_pins() {
    let pins = vec![Pin::key("Seed"), Pin::key("cfg")];
    assert_eq!(layout_id(&pins), "1pin:seed\u{1f}0pin:cfg");
    assert_eq!(layout_id(&Vec::new()), "");
    assert!(chip_hint(&pins[1]).starts_with("cfg  (key)\n\n"));
}

#[test]
fn a_dump_lists_every_row() {
    let entry = ImageEntry::from_parts(
        FilePath {
            text: "d/a.png".to_string(),
            file_name: "a.png".to_string(),
            name_bytes: b"a.png".to_vec(),
            extension: None,
        },
        FileMeta { size: 7, created: None, modified: None, width: 2, height: 3 },
        Vec::new(),
    );
    assert_eq!(
        dump(&entry),
        [
            "=== a.png (2x3, 7 bytes) ===",
            "file.size = 7 B",
            "file.width = 2",
            "file.height = 3",
            "file.dimensions = 2×3",
        ]
    );
}
