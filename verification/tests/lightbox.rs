//! Lightbox windows.

use png_metadata_gui::full::FullOutcome;
use png_metadata_gui::lightbox::{
    arrow_step, build_strip, can_open, position_text, step_cursor, EscapeAction, LightboxDetail,
    LightboxNav, LightboxShared, LoadStatus, PanelContent, ViewCommand, MAX_LIGHTBOXES,
    MAX_STRIP_CHARS, MAX_STRIP_ITEMS,
};
use png_metadata_gui::model::FilePath;
use std::sync::Arc;

/// One (pin, match) pair as the flattener hands it over.
fn candidate(label: &str, copies: bool, value: &str) -> (String, bool, String) {
    (label.to_string(), copies, value.to_string())
}

fn path(name: &str) -> FilePath {
    FilePath {
        text: name.to_string(),
        file_name: name.to_string(),
        name_bytes: name.as_bytes().to_vec(),
        extension: Some("png".to_string()),
    }
}

fn detail(name: &str) -> LightboxDetail {
    LightboxDetail {
        path: path(name),
        file_name: name.to_string(),
        source_size: [640, 480],
        file_size: 9,
        strip: Vec::new(),
    }
}

/// A window on the second of three images.
fn window(texture: Option<u8>) -> LightboxShared<u8, i32> {
    let paths = Arc::new(vec![path("a.png"), path("b.png"), path("c.png")]);
    LightboxShared::open(detail("b.png"), LightboxNav { paths, cursor: 1 }, texture)
}

#[test]
fn the_cap_admits_up_to_the_limit_and_no_further() {
    assert!(can_open(0, MAX_LIGHTBOXES));
    assert!(can_open(MAX_LIGHTBOXES - 1, MAX_LIGHTBOXES));
    assert!(!can_open(MAX_LIGHTBOXES, MAX_LIGHTBOXES));
    assert!(!can_open(MAX_LIGHTBOXES + 1, MAX_LIGHTBOXES));
}

#[test]
fn stepping_stops_at_both_ends_instead_of_wrapping() {
    assert_eq!(step_cursor(0, 5, -1), None);
    assert_eq!(step_cursor(4, 5, 1), None);
    assert_eq!(step_cursor(0, 5, 1), Some(1));
    assert_eq!(step_cursor(4, 5, -1), Some(3));
    assert_eq!(step_cursor(2, 5, 1), Some(3));
}

#[test]
fn an_empty_list_has_nowhere_to_step() {
    // A window opened before the first scan finished has no list yet, and
    // `len - 1` would underflow.
    assert_eq!(step_cursor(0, 0, 1), None);
    assert_eq!(step_cursor(0, 0, -1), None);
    assert_eq!(step_cursor(9, 0, 0), None);
}

#[test]
fn a_cursor_past_the_end_clamps_back_into_range() {
    // The parent clamps with a zero step before indexing the list.
    assert_eq!(step_cursor(99, 5, 0), Some(4));
    assert_eq!(step_cursor(99, 5, -1), Some(3));
    assert_eq!(step_cursor(99, 5, 1), None);
}

#[test]
fn the_strip_holds_its_order_and_drops_the_copy_disabled_values() {
    let candidates = [
        candidate("Positive Prompt", true, "a cat"),
        candidate("cfg", false, "4.5"),
        candidate("seed", true, "12"),
    ];
    let strip = build_strip(&candidates, MAX_STRIP_ITEMS, MAX_STRIP_CHARS);
    let listed: Vec<(&str, &str)> = strip
        .iter()
        .map(|item| (item.label.as_str(), item.value.as_str()))
        .collect();
    assert_eq!(listed, vec![("Positive Prompt", "a cat"), ("seed", "12")]);
}

#[test]
fn one_pin_matching_twice_lists_both_values_under_one_label() {
    // A repeated key (generation vs upscale cfg) reaches the bar as two
    // entries sharing a label, so neither may collapse into the other.
    let candidates = [candidate("cfg", true, "4.5"), candidate("cfg", true, "1.0")];
    let strip = build_strip(&candidates, MAX_STRIP_ITEMS, MAX_STRIP_CHARS);
    assert_eq!(strip.len(), 2);
    assert_eq!(strip[0].value, "4.5");
    assert_eq!(strip[1].value, "1.0");
}

#[test]
fn the_item_cap_bounds_the_flattened_list() {
    let candidates: Vec<(String, bool, String)> = (0..10)
        .map(|i| candidate("seed", true, &i.to_string()))
        .collect();
    assert_eq!(build_strip(&candidates, 3, MAX_STRIP_CHARS).len(), 3);
    assert!(build_strip(&candidates, 0, MAX_STRIP_CHARS).is_empty());
}

#[test]
fn the_shown_form_is_one_capped_line_and_the_value_stays_whole() {
    let value = format!("line one\nline two {}", "x".repeat(500));
    let strip = build_strip(&[candidate("Positive Prompt", true, &value)], 8, 40);
    let item = strip.first().expect("the copy-enabled candidate");
    assert!(!item.shown.contains('\n'), "shown was {}", item.shown);
    // The cap plus the ellipsis `single_line` adds when it truncates.
    assert!(item.shown.chars().count() <= 41, "shown was {}", item.shown);
    // The clipboard gets the whole prompt, not the excerpt on screen.
    assert_eq!(item.value, value);
}

#[test]
fn steps_of_any_length_stop_or_land_inside() {
    assert_eq!(step_cursor(3, 10, 6), Some(9));
    assert_eq!(step_cursor(3, 10, 7), None);
    assert_eq!(step_cursor(3, 10, -3), Some(0));
    assert_eq!(step_cursor(3, 10, isize::MAX), None);
    assert_eq!(step_cursor(3, 10, isize::MIN), None);
    assert_eq!(step_cursor(usize::MAX, usize::MAX, 1), None);
}

#[test]
fn a_window_opens_loading_on_its_thumbnail() {
    let state = window(Some(5));
    assert!(matches!(state.status, LoadStatus::Loading));
    assert_eq!(state.texture, Some(5));
    assert!(state.fit_mode);
    assert!(matches!(state.content(), PanelContent::Scene));
    assert_eq!(state.scene_size(), Some([640, 480]));
    assert!(matches!(window(None).content(), PanelContent::Loading));
}

#[test]
fn a_result_for_another_file_is_not_taken() {
    let mut state = window(None);
    assert!(!state.receive("other.png", FullOutcome::Ready(9, [64, 48])));
    assert!(matches!(state.status, LoadStatus::Loading));
    assert!(state.receive("b.png", FullOutcome::Ready(9, [64, 48])));
    assert_eq!(state.texture, Some(9));
    assert_eq!(state.decoded_size, [64, 48]);
    assert!(matches!(state.status, LoadStatus::Ready));
}

#[test]
fn a_refusal_and_a_failure_are_shown() {
    let mut state = window(None);
    assert!(state.receive("b.png", FullOutcome::Refused("too large".to_string())));
    assert!(matches!(state.content(), PanelContent::Message(text) if text == "too large"));
    let mut state = window(None);
    assert!(state.receive("b.png", FullOutcome::Failed("broken".to_string())));
    assert!(matches!(state.content(), PanelContent::Message(text) if text == "broken"));
    let mut state = window(None);
    assert!(!state.receive("b.png", FullOutcome::Superseded));
    assert!(matches!(state.status, LoadStatus::Loading));
}

#[test]
fn a_step_is_asked_for_once_and_taken_once() {
    let mut state = window(None);
    assert!(state.request_step(1));
    assert_eq!(state.take_step(), Some(2));
    assert_eq!(state.take_step(), None);
    state.navigate(detail("c.png"), 2);
    assert_eq!(state.nav.cursor, 2);
    assert_eq!(state.detail.file_name, "c.png");
    assert!(!state.request_step(1));
    assert_eq!(state.take_step(), None);
}

#[test]
fn escape_leaves_full_screen_before_it_closes() {
    let mut state = window(None);
    assert_eq!(state.escape(true, true), EscapeAction::LeaveFullscreen);
    assert!(!state.close_requested);
    assert_eq!(state.escape(true, false), EscapeAction::Close);
    assert!(state.close_requested);
}

#[test]
fn a_view_that_is_not_held_is_fitted() {
    let mut state = window(Some(1));
    assert!(matches!(state.take_command(None, true), Some(ViewCommand::Fit)));
    assert!(matches!(state.take_command(Some(3), true), Some(ViewCommand::ZoomBy(3))));
    assert!(!state.fit_mode);
    assert!(state.take_command(None, true).is_none());
    state.pending_view = Some(ViewCommand::Native);
    assert!(matches!(state.take_command(Some(3), true), Some(ViewCommand::Native)));
    assert!(matches!(state.take_command(None, false), Some(ViewCommand::Fit)));
    assert!(state.fit_mode);
}

#[test]
fn escape_does_nothing_inside_the_main_window() {
    let mut state = window(None);
    assert_eq!(state.escape(false, false), EscapeAction::Nothing);
    assert!(!state.close_requested);
}

#[test]
fn a_window_without_a_header_is_drawn_as_it_was_decoded() {
    let mut state = window(None);
    state.detail.source_size = [0, 480];
    assert_eq!(state.scene_size(), None);
    assert!(state.receive("b.png", FullOutcome::Ready(1, [64, 48])));
    assert_eq!(state.scene_size(), Some([64, 48]));
    state.texture = None;
    assert!(matches!(state.content(), PanelContent::NoPixels));
}

#[test]
fn positions_count_from_one() {
    assert_eq!(position_text(0, 5).as_deref(), Some("1 / 5"));
    assert_eq!(position_text(4, 5).as_deref(), Some("5 / 5"));
    assert_eq!(position_text(9, 5).as_deref(), Some("5 / 5"));
    assert_eq!(position_text(0, 0), None);
    assert_eq!(arrow_step(true, true), 1);
    assert_eq!(arrow_step(true, false), 1);
    assert_eq!(arrow_step(false, true), -1);
    assert_eq!(arrow_step(false, false), 0);
}
