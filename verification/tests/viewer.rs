//! The viewer as a whole.

use png_metadata_gui::chunks::TextChunk;
use png_metadata_gui::lightbox::MAX_LIGHTBOXES;
use png_metadata_gui::model::{FileMeta, FilePath, ImageEntry};
use png_metadata_gui::pins::{default_pins, Pin};
use png_metadata_gui::scan::{ScanEvent, ScanUpdate};
use png_metadata_gui::table::{Reading, SortColumn};
use png_metadata_gui::viewer::{
    open_dropped, open_target, startup_target, Dropped, FindResult, LightboxPlan, OpenPlan,
    Settings, Viewer,
};

fn path(name: &str) -> FilePath {
    FilePath {
        text: name.to_string(),
        file_name: name.to_string(),
        name_bytes: name.as_bytes().to_vec(),
        extension: name.rsplit_once('.').map(|(_, extension)| extension.to_string()),
    }
}

fn image(name: &str, text: &str) -> ImageEntry {
    ImageEntry::from_parts(
        path(name),
        FileMeta { size: 4, created: None, modified: None, width: 10, height: 20 },
        vec![TextChunk { keyword: "prompt".to_string(), text: text.to_string() }],
    )
}

fn update(generation: u64, event: ScanEvent) -> ScanUpdate {
    ScanUpdate { generation, event }
}

fn reading(text: &str) -> Option<Reading> {
    text.parse::<i32>().ok().map(|n| Reading::Value(i128::from(n)))
}

fn refresh(viewer: &mut Viewer) {
    let readings = viewer
        .texts_to_read()
        .iter()
        .map(|text| text.as_deref().and_then(reading))
        .collect();
    viewer.refresh(&readings);
}

/// A viewer with three scanned images.
fn viewer() -> Viewer {
    let mut viewer = Viewer::new(default_pins(), Settings::default());
    viewer.open_folder("images".to_string(), 1);
    viewer.receive(update(1, ScanEvent::Started { total: 3 }));
    for (name, text) in [
        ("b.png", "seed=10"),
        ("a.png", "seed=9"),
        ("c.png", r#"{"6": {"inputs": {"value": "a cat"}, "_meta": {"title": "Positive Prompt"}}}"#),
    ] {
        viewer.receive(update(1, ScanEvent::Entry(Box::new(image(name, text)))));
    }
    viewer
}

fn shown(viewer: &Viewer) -> Vec<&str> {
    viewer.visible.iter().map(|at| viewer.images[*at].file_name.as_str()).collect()
}

#[test]
fn a_scan_fills_the_list_and_counts() {
    let mut viewer = viewer();
    let state = viewer.scanning.as_ref().expect("a running scan");
    assert_eq!((state.done, state.total), (3, Some(3)));
    viewer.receive(update(1, ScanEvent::Error("x.png: broken".to_string())));
    assert_eq!(viewer.load_errors, ["x.png: broken"]);
    viewer.receive(update(1, ScanEvent::Done));
    assert!(viewer.scanning.is_none());
    assert_eq!(viewer.images.len(), 3);
    assert_eq!(viewer.settings.last_folder.as_deref(), Some("images"));
}

#[test]
fn updates_of_an_earlier_scan_are_dropped() {
    let mut viewer = viewer();
    viewer.open_files(2);
    assert!(viewer.images.is_empty());
    assert!(viewer.folder.is_none());
    viewer.receive(update(1, ScanEvent::Entry(Box::new(image("late.png", "x")))));
    assert!(viewer.images.is_empty());
    viewer.receive(update(2, ScanEvent::Entry(Box::new(image("new.png", "x")))));
    assert_eq!(viewer.images.len(), 1);
}

#[test]
fn refreshing_filters_sorts_and_selects() {
    let mut viewer = viewer();
    viewer.search = "  SEED ".to_string();
    assert_eq!(viewer.query(), "seed");
    refresh(&mut viewer);
    assert_eq!(shown(&viewer), ["b.png", "a.png"]);
    let selected = viewer.controls.selected.expect("a selection");
    assert!(viewer.visible.contains(&selected));
    viewer.search = String::new();
    viewer.controls.sort = Some((SortColumn::Pin(0), true));
    refresh(&mut viewer);
    assert_eq!(shown(&viewer), ["a.png", "b.png", "c.png"]);
    let paths: Vec<&str> =
        viewer.visible_paths.iter().map(|path| path.file_name.as_str()).collect();
    assert_eq!(paths, ["a.png", "b.png", "c.png"]);
}

#[test]
fn finding_walks_the_matches_in_turn() {
    let mut viewer = viewer();
    assert!(matches!(viewer.find(2, "  "), FindResult::Nothing));
    let FindResult::Jump(first) = viewer.find(2, "Prompt.6") else {
        panic!("a match");
    };
    let FindResult::Jump(second) = viewer.find(2, "prompt.6") else {
        panic!("a match");
    };
    let FindResult::Jump(third) = viewer.find(2, "prompt.6") else {
        panic!("a match");
    };
    // A hit on a title jumps to the node that carries it.
    assert_eq!((first.as_str(), second.as_str()), ("prompt.6.inputs.value", "prompt.6"));
    assert_eq!(first, third);
    let FindResult::NoMatch(note) = viewer.find(2, " dog ") else {
        panic!("no match");
    };
    assert_eq!(note, "No match for 'dog'");
}

#[test]
fn a_window_opens_on_a_listed_image_and_not_past_the_cap() {
    let mut viewer = viewer();
    viewer.controls.pins = vec![Pin::key("seed")];
    refresh(&mut viewer);
    let LightboxPlan::Open(detail, nav) = viewer.open_lightbox(1, 0) else {
        panic!("a window opens");
    };
    assert_eq!(detail.file_name, "a.png");
    assert_eq!(detail.source_size, [10, 20]);
    assert_eq!(detail.strip.len(), 1);
    assert_eq!(detail.strip[0].value, "9");
    assert_eq!(nav.cursor, 1);
    assert!(matches!(viewer.open_lightbox(9, 0), LightboxPlan::Nothing));
    assert!(matches!(viewer.open_lightbox(1, MAX_LIGHTBOXES), LightboxPlan::Refused));
    assert_eq!(viewer.controls.flash.as_deref(), Some("6 lightbox windows already open"));
    let unknown = viewer.lightbox_detail_for_path(&path("gone.png"));
    assert_eq!((unknown.file_name.as_str(), unknown.source_size), ("gone.png", [0, 0]));
}

#[test]
fn a_drop_opens_its_first_folder_or_its_images() {
    let dropped = |name: &str, is_dir: bool| Dropped { path: path(name), is_dir };
    let plan = open_dropped(vec![dropped("a.png", false), dropped("dir", true)]);
    assert!(matches!(plan, OpenPlan::Folder(folder) if folder.text == "dir"));
    let plan = open_dropped(vec![dropped("a.png", false), dropped("b.txt", false)]);
    assert!(matches!(plan, OpenPlan::Files(files) if files.len() == 1));
    // A single file is opened whatever it is called.
    assert!(matches!(open_dropped(vec![dropped("b.txt", false)]), OpenPlan::Files(_)));
    let texts = || vec![dropped("b.txt", false), dropped("c.txt", false)];
    assert!(matches!(open_dropped(texts()), OpenPlan::Nothing));
    assert!(matches!(open_dropped(Vec::new()), OpenPlan::Nothing));
    let mut viewer = viewer();
    assert!(matches!(viewer.drop_paths(texts()), OpenPlan::Nothing));
    assert_eq!(viewer.controls.flash.as_deref(), Some("No PNG files in drop"));
}

#[test]
fn a_start_opens_what_was_given_or_the_last_folder() {
    let dropped = |name: &str, is_dir: bool| Dropped { path: path(name), is_dir };
    assert!(matches!(open_target(dropped("d", true)), OpenPlan::Folder(_)));
    assert!(matches!(open_target(dropped("a.png", false)), OpenPlan::Files(_)));
    let plan = startup_target(Some(dropped("a.png", false)), Some(dropped("d", true)));
    assert!(matches!(plan, Some(OpenPlan::Files(_))));
    let plan = startup_target(None, Some(dropped("d", true)));
    assert!(matches!(plan, Some(OpenPlan::Folder(_))));
    assert!(startup_target(None, Some(dropped("gone", false))).is_none());
    assert!(startup_target(None, None).is_none());
}
