//! Actions on selection, sorting and pins.

use png_metadata_gui::controls::{find_position, Controls, UiActions};
use png_metadata_gui::pins::{default_pins, Pin};
use png_metadata_gui::table::SortColumn;

fn controls() -> Controls {
    Controls {
        selected: None,
        sort: None,
        pins: vec![Pin::key("a"), Pin::key("b"), Pin::key("c")],
        rename: None,
        needs_refresh: false,
        flash: None,
        pending_copy: None,
        force_tree_expanded: None,
        settings_open: false,
    }
}

fn patterns(controls: &Controls) -> Vec<&str> {
    controls.pins.iter().map(|pin| pin.pattern.as_str()).collect()
}

#[test]
fn three_clicks_on_a_column_sort_up_down_and_not_at_all() {
    let mut controls = controls();
    let click = || UiActions { sort: Some(SortColumn::Pin(1)), ..UiActions::default() };
    controls.apply_actions(click());
    assert_eq!(controls.sort, Some((SortColumn::Pin(1), true)));
    assert!(controls.needs_refresh);
    controls.apply_actions(click());
    assert_eq!(controls.sort, Some((SortColumn::Pin(1), false)));
    controls.apply_actions(click());
    assert_eq!(controls.sort, None);
}

#[test]
fn no_action_changes_nothing_at_all() {
    let mut controls = controls();
    controls.selected = Some(4);
    controls.sort = Some((SortColumn::Name, false));
    controls.apply_actions(UiActions::default());
    assert_eq!(controls.selected, Some(4));
    assert_eq!(controls.sort, Some((SortColumn::Name, false)));
    assert!(!controls.needs_refresh);
    assert_eq!(patterns(&controls), ["a", "b", "c"]);
}

#[test]
fn a_pin_moves_within_the_list_and_back() {
    let mut controls = controls();
    controls.apply_actions(UiActions { move_pin: Some((0, 1)), ..UiActions::default() });
    assert_eq!(patterns(&controls), ["b", "a", "c"]);
    controls.apply_actions(UiActions { move_pin: Some((1, -1)), ..UiActions::default() });
    assert_eq!(patterns(&controls), ["a", "b", "c"]);
    controls.apply_actions(UiActions { move_pin: Some((0, -1)), ..UiActions::default() });
    controls.apply_actions(UiActions { move_pin: Some((2, 1)), ..UiActions::default() });
    assert_eq!(patterns(&controls), ["a", "b", "c"]);
}

#[test]
fn a_change_of_the_pins_drops_a_sort_by_position() {
    let mut controls = controls();
    controls.sort = Some((SortColumn::Pin(2), true));
    controls.apply_actions(UiActions { unpin: Some(0), ..UiActions::default() });
    assert_eq!(patterns(&controls), ["b", "c"]);
    assert_eq!(controls.sort, None);
    controls.apply_actions(UiActions { unpin: Some(9), ..UiActions::default() });
    assert_eq!(patterns(&controls), ["b", "c"]);
    controls.apply_actions(UiActions { toggle_pin: Some(Pin::key("B")), ..UiActions::default() });
    assert_eq!(patterns(&controls), ["c"]);
}

#[test]
fn a_rename_starts_from_the_label_and_an_empty_one_takes_it_off() {
    let mut controls = controls();
    controls.apply_actions(UiActions { start_rename: Some(1), ..UiActions::default() });
    let rename = controls.rename.as_ref().expect("a rename");
    assert_eq!((rename.pin_index, rename.draft.as_str()), (1, ""));
    let named = UiActions { apply_rename: Some((1, "  Big B ".to_string())), ..UiActions::default() };
    controls.apply_actions(named);
    assert_eq!(controls.pins[1].label.as_deref(), Some("Big B"));
    assert!(controls.rename.is_none());
    controls.apply_actions(UiActions { start_rename: Some(1), ..UiActions::default() });
    assert_eq!(controls.rename.as_ref().map(|rename| rename.draft.as_str()), Some("Big B"));
    let cleared = UiActions { apply_rename: Some((1, "  ".to_string())), ..UiActions::default() };
    controls.apply_actions(cleared);
    assert_eq!(controls.pins[1].label, None);
    controls.apply_actions(UiActions { start_rename: Some(0), ..UiActions::default() });
    controls.apply_actions(UiActions { cancel_rename: true, ..UiActions::default() });
    assert!(controls.rename.is_none());
}

#[test]
fn a_copy_waits_for_the_clipboard_and_is_announced() {
    let mut controls = controls();
    let copy = Some(("seed".to_string(), "42".to_string()));
    controls.apply_actions(UiActions { copy, ..UiActions::default() });
    assert_eq!(controls.flash.as_deref(), Some("Copied seed"));
    assert_eq!(controls.take_pending_copy().as_deref(), Some("42"));
    assert_eq!(controls.take_pending_copy(), None);
}

#[test]
fn toggles_and_overrides_apply_once() {
    let mut controls = controls();
    controls.apply_actions(UiActions {
        set_tree_expanded: Some(false),
        toggle_settings: true,
        set_pin_copy: Some((2, true)),
        select: Some(7),
        ..UiActions::default()
    });
    assert_eq!(controls.take_tree_override(), Some(false));
    assert_eq!(controls.take_tree_override(), None);
    assert!(controls.settings_open);
    assert_eq!(controls.pins[2].copy, Some(true));
    assert_eq!(controls.selected, Some(7));
}

#[test]
fn the_selection_moves_along_the_visible_rows() {
    let mut controls = controls();
    controls.pins = default_pins();
    let visible = vec![5, 2, 9];
    controls.move_selection(&visible, 1);
    assert_eq!(controls.selected, Some(5));
    controls.move_selection(&visible, 1);
    assert_eq!(controls.selected, Some(2));
    controls.move_selection(&visible, 10);
    assert_eq!(controls.selected, Some(2));
    controls.move_selection(&visible, 1);
    assert_eq!(controls.selected, Some(9));
    controls.move_selection(&visible, -1);
    assert_eq!(controls.selected, Some(2));
    controls.move_selection(&Vec::new(), 1);
    assert_eq!(controls.selected, Some(2));
    assert_eq!(find_position(&visible, 9), 2);
    assert_eq!(find_position(&visible, 1), 3);
}
