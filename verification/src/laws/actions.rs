//! What the user does, and what it comes to.

use vstd::prelude::*;

use crate::controls::{self, ControlsModel, UiActions};
use crate::laws::texts;
use crate::lightbox::{self, LightboxDetail};
use crate::lists;
use crate::model::{self, ImageEntry, PathModel};
use crate::pins::{self, Pin, PinModel};
use crate::scan::{self, ScanEvent, ScanUpdate};
use crate::table::{self, SortColumn};
use crate::text;
use crate::viewer::{self, OpenPlan, Viewer};

verus! {

/// Whether nothing was asked for.
pub open spec fn quiet(actions: UiActions) -> bool {
    &&& actions.select is None
    &&& actions.sort is None
    &&& actions.toggle_pin is None
    &&& actions.move_pin is None
    &&& actions.unpin is None
    &&& actions.start_rename is None
    &&& actions.apply_rename is None
    &&& !actions.cancel_rename
    &&& actions.set_pin_copy is None
    &&& actions.copy is None
    &&& actions.set_tree_expanded is None
    &&& !actions.toggle_settings
}

/// A frame in which nothing is asked for changes nothing, and selecting an image
/// changes the selection alone.
pub proof fn selecting_changes_the_selection_alone(
    state: ControlsModel,
    none: UiActions,
    at: usize,
)
    requires
        quiet(none),
    ensures
        controls::applied(state, none) == state,
        controls::applied(state, (UiActions { select: Some(at), ..none })) == (ControlsModel {
            selected: Some(at),
            ..state
        }),
{
}

/// Three clicks on a column that is not sorted by: ascending, descending, and
/// back to the order of the files.
pub proof fn a_column_is_clicked_three_times(
    state: ControlsModel,
    none: UiActions,
    column: SortColumn,
)
    requires
        quiet(none),
        state.sort matches Some(sort) ==> sort.0 != column,
    ensures
        ({
            let click = UiActions { sort: Some(column), ..none };
            let once = controls::applied(state, click);
            let twice = controls::applied(once, click);
            let thrice = controls::applied(twice, click);
            &&& once == ControlsModel { sort: Some((column, true)), needs_refresh: true, ..state }
            &&& twice == ControlsModel {
                sort: Some((column, false)),
                needs_refresh: true,
                ..state
            }
            &&& thrice == ControlsModel { sort: None, needs_refresh: true, ..state }
        }),
{
}

/// Whether a state has other pins than another, is not renaming and not sorted
/// any more, and is to be shown anew, but is the same in all else.
pub open spec fn repinned(before: ControlsModel, after: ControlsModel) -> bool {
    &&& after.sort is None
    &&& after.rename is None
    &&& after.needs_refresh
    &&& after.selected == before.selected
    &&& after.flash == before.flash
    &&& after.pending_copy == before.pending_copy
    &&& after.force_tree_expanded == before.force_tree_expanded
    &&& after.settings_open == before.settings_open
}

/// A click on a value toggles its pin.
pub proof fn toggling_changes_the_pins(state: ControlsModel, none: UiActions, pin: Pin)
    requires
        quiet(none),
    ensures
        ({
            let after = controls::applied(state, (UiActions { toggle_pin: Some(pin), ..none }));
            &&& repinned(state, after)
            &&& after.pins == pins::toggled(state.pins, pin@)
        }),
{
}

/// Moving a pin exchanges it with the one that stands where it goes; where it
/// would leave the row nothing happens.
pub proof fn a_moved_pin_changes_places(
    state: ControlsModel,
    none: UiActions,
    at: usize,
    delta: isize,
    i: int,
)
    requires
        quiet(none),
        at < state.pins.len(),
        0 <= i < state.pins.len(),
    ensures
        ({
            let after = controls::applied(
                state,
                (UiActions { move_pin: Some((at, delta)), ..none }),
            );
            let target = at + delta;
            if 0 <= target < state.pins.len() {
                &&& repinned(state, after)
                &&& after.pins.len() == state.pins.len()
                &&& after.pins[target] == state.pins[at as int]
                &&& after.pins[at as int] == state.pins[target]
                &&& i != at && i != target ==> after.pins[i] == state.pins[i]
            } else {
                after == state
            }
        }),
{
}

/// Unpinning takes one pin out and closes the gap.
pub proof fn unpinning_takes_one_out(state: ControlsModel, none: UiActions, at: usize)
    requires
        quiet(none),
    ensures
        ({
            let after = controls::applied(state, (UiActions { unpin: Some(at), ..none }));
            if at < state.pins.len() {
                &&& repinned(state, after)
                &&& after.pins == state.pins.take(at as int) + state.pins.skip(at as int + 1)
            } else {
                after == state
            }
        }),
{
    if at < state.pins.len() {
        assert(state.pins.remove(at as int) =~= state.pins.take(at as int) + state.pins.skip(
            at as int + 1,
        ));
    }
}

/// A rename starts from the label that the pin has, ends with the label that was
/// typed, without the white space around it, and leaves all else as it is. No
/// label is left where nothing was typed.
pub proof fn a_pin_is_renamed(state: ControlsModel, none: UiActions, at: usize, typed: String)
    requires
        quiet(none),
        at < state.pins.len(),
    ensures
        ({
            let started = controls::applied(
                state,
                (UiActions { start_rename: Some(at), ..none }),
            );
            &&& started.rename is Some
            &&& started.rename->Some_0.pin_index == at
            &&& started.rename->Some_0.needs_focus
            &&& state.pins[at as int].label matches Some(label) ==> started.rename->Some_0.draft
                == label
            &&& state.pins[at as int].label is None ==> started.rename->Some_0.draft
                == Seq::<char>::empty()
            &&& started == ControlsModel { rename: started.rename, ..state }
        }),
        ({
            let ended = controls::applied(
                state,
                (UiActions { apply_rename: Some((at, typed)), ..none }),
            );
            let label = text::trimmed(typed@);
            &&& ended.pins.len() == state.pins.len()
            &&& label.len() > 0 ==> ended.pins[at as int].label == Some(label)
            &&& label.len() == 0 ==> ended.pins[at as int].label is None
            &&& ended.pins[at as int].pattern == state.pins[at as int].pattern
            &&& ended.pins[at as int].copy == state.pins[at as int].copy
            &&& ended.pins[at as int].mode == state.pins[at as int].mode
            &&& forall|i: int|
                0 <= i < state.pins.len() && i != at ==> #[trigger] ended.pins[i] == state.pins[i]
            &&& ended == ControlsModel { rename: None, pins: ended.pins, ..state }
        }),
        controls::applied(state, (UiActions { cancel_rename: true, ..none })) == (ControlsModel {
            rename: None,
            ..state
        }),
{
}

/// Showing or hiding a pin's copy button changes that alone.
pub proof fn a_copy_button_is_shown_or_hidden(
    state: ControlsModel,
    none: UiActions,
    at: usize,
    enabled: bool,
)
    requires
        quiet(none),
        at < state.pins.len(),
    ensures
        ({
            let after = controls::applied(
                state,
                (UiActions { set_pin_copy: Some((at, enabled)), ..none }),
            );
            &&& after == ControlsModel { pins: after.pins, ..state }
            &&& after.pins.len() == state.pins.len()
            &&& after.pins[at as int] == PinModel { copy: Some(enabled), ..state.pins[at as int] }
            &&& forall|i: int|
                0 <= i < state.pins.len() && i != at ==> #[trigger] after.pins[i] == state.pins[i]
        }),
{
}

/// A pin that is not there is neither renamed nor changed.
pub proof fn a_missing_pin_is_left_alone(
    state: ControlsModel,
    none: UiActions,
    at: usize,
    enabled: bool,
    typed: String,
)
    requires
        quiet(none),
        at >= state.pins.len(),
    ensures
        controls::applied(state, (UiActions { start_rename: Some(at), ..none })) == state,
        controls::applied(state, (UiActions { set_pin_copy: Some((at, enabled)), ..none }))
            == state,
        controls::applied(state, (UiActions { apply_rename: Some((at, typed)), ..none })) == (
        ControlsModel { rename: None, ..state }),
{
}

/// Copying puts the content on the clipboard and says what was copied; opening
/// the tree or the settings changes that alone.
pub proof fn copying_says_what_was_copied(
    state: ControlsModel,
    none: UiActions,
    label: String,
    content: String,
    expanded: bool,
)
    requires
        quiet(none),
    ensures
        controls::applied(state, (UiActions { copy: Some((label, content)), ..none })) == (
        ControlsModel {
            flash: Some("Copied "@ + label@),
            pending_copy: Some(content@),
            ..state
        }),
        controls::applied(state, (UiActions { set_tree_expanded: Some(expanded), ..none })) == (
        ControlsModel { force_tree_expanded: Some(expanded), ..state }),
        controls::applied(state, (UiActions { toggle_settings: true, ..none })) == (
        ControlsModel { settings_open: !state.settings_open, ..state }),
{
}

/// What is asked for in one frame is done one after the other: selecting,
/// sorting, pinning, moving, unpinning, renaming, copying, and the rest.
pub proof fn actions_are_done_in_turn(state: ControlsModel, none: UiActions, all: UiActions)
    requires
        quiet(none),
    ensures
        ({
            let a = controls::applied(state, (UiActions { select: all.select, ..none }));
            let b = controls::applied(a, (UiActions { sort: all.sort, ..none }));
            let c = controls::applied(b, (UiActions { toggle_pin: all.toggle_pin, ..none }));
            let d = controls::applied(c, (UiActions { move_pin: all.move_pin, ..none }));
            let e = controls::applied(d, (UiActions { unpin: all.unpin, ..none }));
            let f = controls::applied(e, (UiActions { start_rename: all.start_rename, ..none }));
            let g = controls::applied(f, (UiActions { apply_rename: all.apply_rename, ..none }));
            let h = controls::applied(g, (UiActions { cancel_rename: all.cancel_rename, ..none }));
            let i = controls::applied(h, (UiActions { set_pin_copy: all.set_pin_copy, ..none }));
            let j = controls::applied(i, (UiActions { copy: all.copy, ..none }));
            let k = controls::applied(
                j,
                (UiActions { set_tree_expanded: all.set_tree_expanded, ..none }),
            );
            controls::applied(k, (UiActions { toggle_settings: all.toggle_settings, ..none }))
                == controls::applied(state, all)
        }),
{
}

proof fn a_place_is_the_first(list: Seq<usize>, item: usize)
    ensures
        0 <= controls::place_of(list, item) <= list.len(),
        controls::place_of(list, item) < list.len() ==> list[controls::place_of(list, item)]
            == item,
        forall|i: int| 0 <= i < controls::place_of(list, item) ==> #[trigger] list[i] != item,
    decreases list.len(),
{
    if list.len() > 0 && list[0] != item {
        let rest = list.drop_first();
        a_place_is_the_first(rest, item);
        assert forall|i: int| 0 <= i < controls::place_of(list, item) implies #[trigger] list[i]
            != item by {
            if i > 0 {
                assert(rest[i - 1] == list[i]);
            }
        }
    }
}

/// The selection moves by as many places as it is told, from the first place of
/// the selected image, and stays where that leads out of the list or where the
/// image is not shown. Where nothing is selected, the first image is.
pub proof fn the_selection_moves_by_places(list: Seq<usize>, at: int, delta: int)
    requires
        0 <= at < list.len(),
        forall|i: int| 0 <= i < at ==> #[trigger] list[i] != list[at],
    ensures
        0 <= at + delta < list.len() ==> controls::moved_selection(Some(list[at]), list, delta)
            == Some(list[at + delta]),
        !(0 <= at + delta < list.len()) ==> controls::moved_selection(Some(list[at]), list, delta)
            == Some(list[at]),
        controls::moved_selection(None, list, delta) == Some(list[0]),
{
    let place = controls::place_of(list, list[at]);
    a_place_is_the_first(list, list[at]);
    if place > at {
        assert(list[at] != list[at]);
    }
    if place < at {
        assert(list[place] != list[at]);
    }
}

/// A selected image that is not shown stays selected, and in an empty list
/// nothing becomes selected.
pub proof fn a_hidden_selection_stays(list: Seq<usize>, item: usize, delta: int)
    requires
        !list.contains(item),
    ensures
        controls::moved_selection(Some(item), list, delta) == Some(item),
        controls::moved_selection(None, Seq::empty(), delta) is None,
{
    a_place_is_the_first(list, item);
    if controls::place_of(list, item) < list.len() {
        assert(list.contains(list[controls::place_of(list, item)]));
    }
}

/// A search keeps the selection where it is still shown; else the first image
/// that is shown becomes selected.
pub proof fn the_selection_falls_to_the_first(selected: Option<usize>, visible: Seq<usize>)
    ensures
        selected matches Some(at) ==> (visible.contains(at) ==> viewer::kept_selection(
            selected,
            visible,
        ) == selected),
        !(selected matches Some(at) && visible.contains(at)) && visible.len() > 0
            ==> viewer::kept_selection(selected, visible) == Some(visible[0]),
        visible.len() == 0 ==> viewer::kept_selection(selected, visible) is None,
{
}

// ---------------------------------------------------------------------------
// Opening
// ---------------------------------------------------------------------------

/// Whether a path ends in `.png`, in capitals or not.
pub open spec fn ends_in_png(path: PathModel) -> bool {
    path.extension matches Some(ext) && {
        &&& ext.len() == 3
        &&& (ext[0] == 'p' || ext[0] == 'P')
        &&& (ext[1] == 'n' || ext[1] == 'N')
        &&& (ext[2] == 'g' || ext[2] == 'G')
    }
}

/// A file is an image where it ends in `.png`.
pub proof fn images_end_in_png(path: PathModel)
    ensures
        scan::is_png(path) == ends_in_png(path),
{
    reveal_strlit("png");
    let small = text::ascii_lowered("png"@);
    texts::ascii_capitals_become_small("png"@, 0);
    texts::ascii_capitals_become_small("png"@, 1);
    texts::ascii_capitals_become_small("png"@, 2);
    if let Some(ext) = path.extension {
        let low = text::ascii_lowered(ext);
        if ext.len() == 3 {
            texts::ascii_capitals_become_small(ext, 0);
            texts::ascii_capitals_become_small(ext, 1);
            texts::ascii_capitals_become_small(ext, 2);
            assert(low[0] == small[0] <==> ext[0] == 'p' || ext[0] == 'P');
            assert(low[1] == small[1] <==> ext[1] == 'n' || ext[1] == 'N');
            assert(low[2] == small[2] <==> ext[2] == 'g' || ext[2] == 'G');
            if ends_in_png(path) {
                assert(low =~= small);
            }
        } else {
            assert(low.len() == ext.len());
        }
    }
}

/// A single dropped path is opened whatever it is, as a folder where it is one.
pub proof fn a_single_path_is_opened(plan: OpenPlan, path: PathModel, is_dir: bool)
    requires
        viewer::opens_drop(plan, seq![(path, is_dir)]),
    ensures
        is_dir ==> plan is Folder && plan->Folder_0@ == path,
        !is_dir ==> plan is Files && model::path_models(plan->Files_0@) == seq![path],
{
}

/// Of several dropped paths the first folder is opened; without a folder all the
/// images, in the order of the drop; without either nothing.
pub proof fn of_many_paths_the_first_folder_is_opened(
    plan: OpenPlan,
    dropped: Seq<(PathModel, bool)>,
    at: int,
)
    requires
        dropped.len() != 1,
        viewer::opens_drop(plan, dropped),
    ensures
        0 <= at < dropped.len() && dropped[at].1 && (forall|i: int|
            0 <= i < at ==> !(#[trigger] dropped[i]).1) ==> plan is Folder && plan->Folder_0@
            == dropped[at].0,
        (forall|i: int| 0 <= i < dropped.len() ==> !(#[trigger] dropped[i]).1) ==> {
            let images = dropped.filter(|item: (PathModel, bool)| ends_in_png(item.0));
            &&& images.len() == 0 ==> plan is Nothing
            &&& images.len() > 0 ==> plan is Files && model::path_models(plan->Files_0@)
                == images.map_values(|item: (PathModel, bool)| item.0)
        },
{
    let passes = |item: (PathModel, bool)| viewer::openable(item);
    let is_folder = |item: (PathModel, bool)| item.1;
    let is_image = |item: (PathModel, bool)| ends_in_png(item.0);
    let kept = lists::picked(dropped, passes);
    let folders = lists::picked(kept, is_folder);
    lists::picked_keeps_what_passes(dropped, passes);
    lists::picked_keeps_what_passes(kept, is_folder);
    if 0 <= at < dropped.len() && dropped[at].1 && (forall|i: int|
        0 <= i < at ==> !(#[trigger] dropped[i]).1) {
        folders_first(dropped, at);
        assert(passes(dropped[at]));
        assert(kept.contains(dropped[at]));
    }
    if forall|i: int| 0 <= i < dropped.len() ==> !(#[trigger] dropped[i]).1 {
        assert forall|i: int| 0 <= i < dropped.len() implies passes(#[trigger] dropped[i])
            == is_image(dropped[i]) by {
            images_end_in_png(dropped[i].0);
        }
        lists::picked_agrees(dropped, passes, is_image);
        texts::picking_is_filtering(dropped, is_image);
        if folders.len() > 0 {
            assert(is_folder(folders[0]));
            assert(kept.contains(folders[0]));
            assert(dropped.contains(folders[0]));
        }
    }
}

proof fn folders_first(dropped: Seq<(PathModel, bool)>, at: int)
    requires
        0 <= at < dropped.len(),
        dropped[at].1,
        forall|i: int| 0 <= i < at ==> !(#[trigger] dropped[i]).1,
    ensures
        ({
            let kept = lists::picked(dropped, |item: (PathModel, bool)| viewer::openable(item));
            let folders = lists::picked(kept, |item: (PathModel, bool)| item.1);
            folders.len() > 0 && folders[0] == dropped[at]
        }),
    decreases dropped.len(),
{
    let passes = |item: (PathModel, bool)| viewer::openable(item);
    let is_folder = |item: (PathModel, bool)| item.1;
    let fewer = dropped.drop_last();
    let before = lists::picked(fewer, passes);
    let kept = lists::picked(dropped, passes);
    if at < fewer.len() {
        assert forall|i: int| 0 <= i < at implies !(#[trigger] fewer[i]).1 by {
            assert(fewer[i] == dropped[i]);
        }
        assert(fewer[at] == dropped[at]);
        folders_first(fewer, at);
        if passes(dropped.last()) {
            assert(kept =~= before.push(dropped.last()));
            assert(kept.drop_last() =~= before);
        }
    } else {
        lists::picked_keeps_what_passes(fewer, passes);
        lists::picked_keeps_what_passes(before, is_folder);
        let folders = lists::picked(before, is_folder);
        if folders.len() > 0 {
            assert(is_folder(folders[0]) && before.contains(folders[0]));
            assert(fewer.contains(folders[0]));
            let i = choose|i: int| 0 <= i < fewer.len() && fewer[i] == folders[0];
            assert(dropped[i] == fewer[i]);
        }
        assert(passes(dropped.last()));
        assert(kept =~= before.push(dropped.last()));
        assert(kept.drop_last() =~= before);
    }
}

// ---------------------------------------------------------------------------
// Scanning
// ---------------------------------------------------------------------------

/// Whether the table and what is searched for are as they were.
pub open spec fn table_untouched(before: Viewer, after: Viewer) -> bool {
    &&& after.settings == before.settings
    &&& after.folder == before.folder
    &&& after.search == before.search
    &&& after.visible == before.visible
    &&& after.visible_paths == before.visible_paths
    &&& after.matches == before.matches
    &&& after.find_last_query == before.find_last_query
    &&& after.find_index == before.find_index
}

/// What a scan tells arrives: each image at the end of the list, each error at
/// the end of the errors, the count of both in the progress. Nothing of it
/// touches the table.
pub proof fn what_a_scan_tells_arrives(before: Viewer, update: ScanUpdate, after: Viewer)
    requires
        viewer::received(before, update, after),
        before.scanning is Some,
        before.scanning->Some_0.generation == update.generation,
    ensures
        table_untouched(before, after),
        update.event matches ScanEvent::Started { total } ==> {
            &&& after.scanning is Some
            &&& after.scanning->Some_0.total == Some(total)
            &&& after.scanning->Some_0.done == before.scanning->Some_0.done
            &&& after.scanning->Some_0.generation == update.generation
            &&& after.images == before.images
            &&& after.load_errors == before.load_errors
            &&& after.controls == before.controls
        },
        update.event matches ScanEvent::Entry(entry) ==> {
            &&& after.scanning is Some
            &&& after.scanning->Some_0.total == before.scanning->Some_0.total
            &&& before.scanning->Some_0.done < usize::MAX ==> after.scanning->Some_0.done
                == before.scanning->Some_0.done + 1
            &&& after.scanning->Some_0.generation == update.generation
            &&& after.images@ == before.images@ + seq![*entry]
            &&& after.load_errors == before.load_errors
            &&& after.controls@ == (ControlsModel { needs_refresh: true, ..before.controls@ })
        },
        update.event matches ScanEvent::Error(message) ==> {
            &&& after.scanning is Some
            &&& after.scanning->Some_0.total == before.scanning->Some_0.total
            &&& before.scanning->Some_0.done < usize::MAX ==> after.scanning->Some_0.done
                == before.scanning->Some_0.done + 1
            &&& after.scanning->Some_0.generation == update.generation
            &&& after.load_errors@ == before.load_errors@ + seq![message]
            &&& after.images == before.images
            &&& after.controls == before.controls
        },
        update.event is Done ==> {
            &&& after.scanning is None
            &&& after.images == before.images
            &&& after.load_errors == before.load_errors
            &&& after.controls == before.controls
        },
{
    if let ScanEvent::Entry(entry) = update.event {
        assert(before.images@.push(*entry) =~= before.images@ + seq![*entry]);
    }
    if let ScanEvent::Error(message) = update.event {
        assert(before.load_errors@.push(message) =~= before.load_errors@ + seq![message]);
    }
}

/// What an earlier scan still tells is dropped.
pub proof fn a_superseded_scan_is_not_heard(before: Viewer, update: ScanUpdate, after: Viewer)
    requires
        viewer::received(before, update, after),
        before.scanning is None || before.scanning->Some_0.generation != update.generation,
    ensures
        after == before,
{
}

/// Finding touches nothing but what it remembers.
pub proof fn finding_touches_nothing_else(before: Viewer, after: Viewer)
    requires
        viewer::same_view_but_find(before, after),
    ensures
        after.controls == before.controls,
        after.settings == before.settings,
        after.images == before.images,
        after.load_errors == before.load_errors,
        after.folder == before.folder,
        after.search == before.search,
        after.visible == before.visible,
        after.visible_paths == before.visible_paths,
        after.matches == before.matches,
        after.scanning == before.scanning,
{
}

// ---------------------------------------------------------------------------
// What is shown
// ---------------------------------------------------------------------------

/// The paths that a window walks are those of the shown images, in their order.
pub proof fn windows_walk_what_is_shown(images: Seq<ImageEntry>, list: Seq<usize>, i: int)
    requires
        0 <= i < list.len(),
    ensures
        viewer::paths_at(images, list).len() == list.len(),
        viewer::paths_at(images, list)[i] == images[list[i] as int].path@,
{
}

/// Without a sorted column the table shows what the search keeps, as it is
/// listed; with one, that in the order of the column.
pub proof fn the_table_shows_what_is_kept(
    visible: Seq<usize>,
    images: Seq<ImageEntry>,
    query: Seq<char>,
    column: SortColumn,
    ascending: bool,
    pins: Seq<PinModel>,
    use_titles: bool,
    readings: Seq<Option<table::Reading>>,
)
    ensures
        viewer::shown(visible, images, query, None, pins, use_titles, readings) <==> visible
            == table::kept_positions(images, query),
        viewer::shown(
            visible,
            images,
            query,
            Some((column, ascending)),
            pins,
            use_titles,
            readings,
        ) <==> table::sorted_by_column(
            visible,
            table::kept_positions(images, query),
            images,
            column,
            ascending,
            pins,
            use_titles,
            readings,
        ),
{
}

/// What is read as a number is the value of the first row that the sorted pin
/// selects; without a sorted pin nothing is.
pub proof fn the_first_match_is_read(
    wanted: Option<Seq<char>>,
    entry: ImageEntry,
    at: usize,
    ascending: bool,
    pins: Seq<PinModel>,
    use_titles: bool,
)
    ensures
        ({
            let sort = Some((SortColumn::Pin(at), ascending));
            let named = Some((SortColumn::Name, ascending));
            &&& viewer::wants_reading(wanted, entry, None, pins, use_titles) <==> wanted is None
            &&& viewer::wants_reading(wanted, entry, named, pins, use_titles) <==> wanted is None
            &&& at >= pins.len() ==> (viewer::wants_reading(wanted, entry, sort, pins, use_titles)
                <==> wanted is None)
            &&& at < pins.len() ==> {
                let first = table::first_match(entry, pins[at as int], use_titles);
                viewer::wants_reading(wanted, entry, sort, pins, use_titles) <==> match wanted {
                    Some(value) => first is Some && first->Some_0.value@ == value,
                    None => first is None,
                }
            }
        }),
{
}

proof fn an_image_is_looked_for(images: Seq<ImageEntry>, path: Seq<char>, from: int)
    requires
        0 <= from <= images.len(),
    ensures
        from <= viewer::image_at(images, path, from) <= images.len(),
        viewer::image_at(images, path, from) < images.len() ==> images[viewer::image_at(
            images,
            path,
            from,
        )].path@.text == path,
        forall|i: int|
            from <= i < viewer::image_at(images, path, from) ==> (#[trigger] images[i]).path@.text
                != path,
    decreases images.len() - from,
{
    if from < images.len() && images[from].path@.text != path {
        an_image_is_looked_for(images, path, from + 1);
    }
}

/// A path leads to the first image that has it, or past the end where none has.
pub proof fn a_path_leads_to_its_first_image(images: Seq<ImageEntry>, path: Seq<char>)
    ensures
        ({
            let at = viewer::image_at(images, path, 0);
            &&& 0 <= at <= images.len()
            &&& at < images.len() ==> images[at].path@.text == path
            &&& forall|i: int| 0 <= i < at ==> (#[trigger] images[i]).path@.text != path
        }),
{
    an_image_is_looked_for(images, path, 0);
}

/// A window shows the image's own name, dimensions and size, and a strip of at
/// most eight values of at most four hundred characters. Of a file that is not
/// listed any more it shows the name alone.
pub proof fn a_window_shows_its_image(
    detail: LightboxDetail,
    entry: ImageEntry,
    pins: Seq<PinModel>,
    use_titles: bool,
    path: PathModel,
)
    ensures
        viewer::details(detail, entry, pins, use_titles) ==> {
            &&& detail.path@ == entry.path@
            &&& detail.file_name@ == entry.file_name@
            &&& detail.source_size@.len() == 2
            &&& detail.source_size@[0] == entry.width
            &&& detail.source_size@[1] == entry.height
            &&& detail.file_size == entry.file_size
            &&& lightbox::strip_models(detail.strip@) == lightbox::strip_of(
                pins::all_candidates(entry.rows@, pins, use_titles),
                8,
                400,
            )
        },
        viewer::only_names(detail, path) ==> {
            &&& detail.path@ == path
            &&& detail.file_name@ == path.file_name
            &&& detail.source_size@.len() == 2
            &&& detail.source_size@[0] == 0
            &&& detail.source_size@[1] == 0
            &&& detail.file_size == 0
            &&& detail.strip@.len() == 0
        },
{
}

} // verus!
