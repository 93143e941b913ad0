//! What the user's actions do to selection, sorting and pins.
//!
//! Actions are collected while a frame is drawn and applied afterwards, in a
//! fixed order.

use vstd::prelude::*;

use crate::pins::{self, toggle_pin, Pin, PinModel};
use crate::table::SortColumn;
use crate::text::{self, trim};

verus! {

/// In-progress pin label edit, shown as an extra toolbar row.
pub struct PinRename {
    pub pin_index: usize,
    pub draft: String,
    /// Focus the text box on the first frame it appears.
    pub needs_focus: bool,
}

/// The state that actions change.
pub struct Controls {
    pub selected: Option<usize>,
    pub sort: Option<(SortColumn, bool)>,
    pub pins: Vec<Pin>,
    pub rename: Option<PinRename>,
    /// Whether the table has to be filtered and sorted again.
    pub needs_refresh: bool,
    /// A note for the status line.
    pub flash: Option<String>,
    /// A text for the clipboard.
    pub pending_copy: Option<String>,
    /// One-frame override forcing every tree section open or closed.
    pub force_tree_expanded: Option<bool>,
    pub settings_open: bool,
}

/// A [`PinRename`] as a mathematical value.
pub ghost struct RenameModel {
    pub pin_index: usize,
    pub draft: Seq<char>,
    pub needs_focus: bool,
}

/// [`Controls`] as a mathematical value.
pub ghost struct ControlsModel {
    pub selected: Option<usize>,
    pub sort: Option<(SortColumn, bool)>,
    pub pins: Seq<PinModel>,
    pub rename: Option<RenameModel>,
    pub needs_refresh: bool,
    pub flash: Option<Seq<char>>,
    pub pending_copy: Option<Seq<char>>,
    pub force_tree_expanded: Option<bool>,
    pub settings_open: bool,
}

impl View for PinRename {
    type V = RenameModel;

    open spec fn view(&self) -> RenameModel {
        RenameModel {
            pin_index: self.pin_index,
            draft: self.draft@,
            needs_focus: self.needs_focus,
        }
    }
}

impl View for Controls {
    type V = ControlsModel;

    open spec fn view(&self) -> ControlsModel {
        ControlsModel {
            selected: self.selected,
            sort: self.sort,
            pins: pins::pin_models(self.pins@),
            rename: match self.rename {
                Some(rename) => Some(rename@),
                None => None,
            },
            needs_refresh: self.needs_refresh,
            flash: text::text_option(self.flash),
            pending_copy: text::text_option(self.pending_copy),
            force_tree_expanded: self.force_tree_expanded,
            settings_open: self.settings_open,
        }
    }
}

/// What the user asked for during a frame.
pub struct UiActions {
    pub select: Option<usize>,
    pub sort: Option<SortColumn>,
    pub toggle_pin: Option<Pin>,
    /// Which pin moves, and how far.
    pub move_pin: Option<(usize, isize)>,
    pub unpin: Option<usize>,
    pub start_rename: Option<usize>,
    pub apply_rename: Option<(usize, String)>,
    pub cancel_rename: bool,
    /// Which pin's copy button is shown or hidden.
    pub set_pin_copy: Option<(usize, bool)>,
    /// Label and content of a copy.
    pub copy: Option<(String, String)>,
    pub set_tree_expanded: Option<bool>,
    pub toggle_settings: bool,
}

impl Default for UiActions {
    fn default() -> (actions: UiActions)
        ensures
            actions.select is None,
            actions.sort is None,
            actions.toggle_pin is None,
            actions.move_pin is None,
            actions.unpin is None,
            actions.start_rename is None,
            actions.apply_rename is None,
            !actions.cancel_rename,
            actions.set_pin_copy is None,
            actions.copy is None,
            actions.set_tree_expanded is None,
            !actions.toggle_settings,
    {
        UiActions {
            select: None,
            sort: None,
            toggle_pin: None,
            move_pin: None,
            unpin: None,
            start_rename: None,
            apply_rename: None,
            cancel_rename: false,
            set_pin_copy: None,
            copy: None,
            set_tree_expanded: None,
            toggle_settings: false,
        }
    }
}

// ---------------------------------------------------------------------------
// What each action does
// ---------------------------------------------------------------------------

/// A click on a column: ascending first, then descending, then unsorted.
pub open spec fn sort_cycled(
    sort: Option<(SortColumn, bool)>,
    column: SortColumn,
) -> Option<(SortColumn, bool)> {
    match sort {
        Some((current, ascending)) => if current == column {
            if ascending {
                Some((column, false))
            } else {
                None
            }
        } else {
            Some((column, true))
        },
        None => Some((column, true)),
    }
}

/// The state with other pins: a rename under way and the sorting, which go by
/// position, are dropped.
pub open spec fn with_pins(state: ControlsModel, pins: Seq<PinModel>) -> ControlsModel {
    ControlsModel { pins, rename: None, sort: None, needs_refresh: true, ..state }
}

/// Selecting an image.
pub open spec fn after_select(state: ControlsModel, select: Option<usize>) -> ControlsModel {
    match select {
        Some(at) => ControlsModel { selected: Some(at), ..state },
        None => state,
    }
}

/// Sorting by a column.
pub open spec fn after_sort(state: ControlsModel, sort: Option<SortColumn>) -> ControlsModel {
    match sort {
        Some(column) => ControlsModel {
            sort: sort_cycled(state.sort, column),
            needs_refresh: true,
            ..state
        },
        None => state,
    }
}

/// Toggling a pin.
pub open spec fn after_toggle(state: ControlsModel, pin: Option<PinModel>) -> ControlsModel {
    match pin {
        Some(pin) => with_pins(state, pins::toggled(state.pins, pin)),
        None => state,
    }
}

/// Two items of a list exchanged.
pub open spec fn swapped<T>(list: Seq<T>, a: int, b: int) -> Seq<T> {
    list.update(a, list[b]).update(b, list[a])
}

/// Moving a pin, where there is a place to move it to.
pub open spec fn after_move(state: ControlsModel, moved: Option<(usize, isize)>) -> ControlsModel {
    match moved {
        Some((at, delta)) => {
            let target = at + delta;
            if 0 <= target < state.pins.len() {
                with_pins(state, swapped(state.pins, at as int, target))
            } else {
                state
            }
        },
        None => state,
    }
}

/// Removing a pin.
pub open spec fn after_unpin(state: ControlsModel, unpin: Option<usize>) -> ControlsModel {
    match unpin {
        Some(at) => if at < state.pins.len() {
            with_pins(state, state.pins.remove(at as int))
        } else {
            state
        },
        None => state,
    }
}

/// Starting to rename a pin: the draft is its label.
pub open spec fn after_start_rename(state: ControlsModel, start: Option<usize>) -> ControlsModel {
    match start {
        Some(at) => if at < state.pins.len() {
            ControlsModel {
                rename: Some(
                    RenameModel {
                        pin_index: at,
                        draft: match state.pins[at as int].label {
                            Some(label) => label,
                            None => Seq::empty(),
                        },
                        needs_focus: true,
                    },
                ),
                ..state
            }
        } else {
            state
        },
        None => state,
    }
}

/// Renaming a pin: an empty label takes the label away.
pub open spec fn after_rename(
    state: ControlsModel,
    renamed: Option<(usize, Seq<char>)>,
) -> ControlsModel {
    match renamed {
        Some((at, label)) => {
            let trimmed = text::trimmed(label);
            let pins = if at < state.pins.len() {
                state.pins.update(
                    at as int,
                    PinModel {
                        label: if trimmed.len() == 0 {
                            None
                        } else {
                            Some(trimmed)
                        },
                        ..state.pins[at as int]
                    },
                )
            } else {
                state.pins
            };
            ControlsModel { pins, rename: None, ..state }
        },
        None => state,
    }
}

/// Giving a rename up.
pub open spec fn after_cancel(state: ControlsModel, cancelled: bool) -> ControlsModel {
    if cancelled {
        ControlsModel { rename: None, ..state }
    } else {
        state
    }
}

/// Showing or hiding a pin's copy button.
pub open spec fn after_pin_copy(state: ControlsModel, set: Option<(usize, bool)>) -> ControlsModel {
    match set {
        Some((at, enabled)) => if at < state.pins.len() {
            ControlsModel {
                pins: state.pins.update(
                    at as int,
                    PinModel { copy: Some(enabled), ..state.pins[at as int] },
                ),
                ..state
            }
        } else {
            state
        },
        None => state,
    }
}

/// Copying a value.
pub open spec fn after_copy(
    state: ControlsModel,
    copy: Option<(Seq<char>, Seq<char>)>,
) -> ControlsModel {
    match copy {
        Some((label, content)) => ControlsModel {
            flash: Some("Copied "@ + label),
            pending_copy: Some(content),
            ..state
        },
        None => state,
    }
}

/// Opening or closing the whole tree.
pub open spec fn after_expand(state: ControlsModel, expanded: Option<bool>) -> ControlsModel {
    match expanded {
        Some(expanded) => ControlsModel { force_tree_expanded: Some(expanded), ..state },
        None => state,
    }
}

/// Opening or closing the settings.
pub open spec fn after_settings(state: ControlsModel, toggled: bool) -> ControlsModel {
    if toggled {
        ControlsModel { settings_open: !state.settings_open, ..state }
    } else {
        state
    }
}

/// A label and a text as mathematical values.
pub open spec fn text_pair(pair: Option<(String, String)>) -> Option<(Seq<char>, Seq<char>)> {
    match pair {
        Some((a, b)) => Some((a@, b@)),
        None => None,
    }
}

/// A pin and a label as mathematical values.
pub open spec fn index_and_text(pair: Option<(usize, String)>) -> Option<(usize, Seq<char>)> {
    match pair {
        Some((at, label)) => Some((at, label@)),
        None => None,
    }
}

/// A pin as a mathematical value, where there is one.
pub open spec fn pin_option(pin: Option<Pin>) -> Option<PinModel> {
    match pin {
        Some(pin) => Some(pin@),
        None => None,
    }
}

/// The state when moving a pin is due.
pub open spec fn before_move(state: ControlsModel, actions: UiActions) -> ControlsModel {
    let a = after_select(state, actions.select);
    let b = after_sort(a, actions.sort);
    after_toggle(b, pin_option(actions.toggle_pin))
}

/// What all actions of a frame do, one after the other.
pub open spec fn applied(state: ControlsModel, actions: UiActions) -> ControlsModel {
    let d = after_move(before_move(state, actions), actions.move_pin);
    let e = after_unpin(d, actions.unpin);
    let f = after_start_rename(e, actions.start_rename);
    let g = after_rename(f, index_and_text(actions.apply_rename));
    let h = after_cancel(g, actions.cancel_rename);
    let i = after_pin_copy(h, actions.set_pin_copy);
    let j = after_copy(i, text_pair(actions.copy));
    let k = after_expand(j, actions.set_tree_expanded);
    after_settings(k, actions.toggle_settings)
}

/// The actions that change which pins there are, and in which order.
struct PinActions {
    toggle_pin: Option<Pin>,
    move_pin: Option<(usize, isize)>,
    unpin: Option<usize>,
}

impl Controls {
    fn pins_changed(&mut self)
        ensures
            final(self)@ == with_pins(old(self)@, old(self)@.pins),
    {
        self.rename = None;
        self.sort = None;
        self.needs_refresh = true;
    }

    fn sort_by(&mut self, column: SortColumn)
        ensures
            final(self)@ == after_sort(old(self)@, Some(column)),
    {
        self.sort = match self.sort {
            Some((current, ascending)) => if current == column {
                if ascending {
                    Some((column, false))
                } else {
                    None
                }
            } else {
                Some((column, true))
            },
            None => Some((column, true)),
        };
        self.needs_refresh = true;
    }

    fn toggle(&mut self, pin: Pin)
        ensures
            final(self)@ == after_toggle(old(self)@, Some(pin@)),
    {
        toggle_pin(&mut self.pins, pin);
        self.pins_changed();
    }

    fn move_pin(&mut self, at: usize, delta: isize)
        requires
            0 <= at + delta < old(self)@.pins.len() ==> at < old(self)@.pins.len(),
        ensures
            final(self)@ == after_move(old(self)@, Some((at, delta))),
    {
        let target: i128 = at as i128 + delta as i128;
        if target >= 0 && target < self.pins.len() as i128 {
            let ghost before = self.pins@;
            let target = target as usize;
            let moved = self.pins[at].copied();
            let other = self.pins[target].copied();
            self.pins.set(at, other);
            self.pins.set(target, moved);
            assert(pins::pin_models(self.pins@) =~= swapped(
                pins::pin_models(before),
                at as int,
                target as int,
            ));
            self.pins_changed();
        }
    }

    fn unpin(&mut self, at: usize)
        ensures
            final(self)@ == after_unpin(old(self)@, Some(at)),
    {
        if at < self.pins.len() {
            let ghost before = self.pins@;
            let _ = self.pins.remove(at);
            assert(pins::pin_models(self.pins@) =~= pins::pin_models(before).remove(at as int));
            self.pins_changed();
        }
    }

    fn start_rename(&mut self, at: usize)
        ensures
            final(self)@ == after_start_rename(old(self)@, Some(at)),
    {
        if at < self.pins.len() {
            let draft = match &self.pins[at].label {
                Some(label) => label.clone(),
                None => String::new(),
            };
            assert(pins::pin_models(self.pins@)[at as int] == self.pins@[at as int]@);
            assert(self.pins@[at as int].label is None ==> draft@ =~= Seq::empty());
            self.rename = Some(PinRename { pin_index: at, draft, needs_focus: true });
        }
    }

    fn apply_rename(&mut self, at: usize, label: &str)
        ensures
            final(self)@ == after_rename(old(self)@, Some((at, label@))),
    {
        if at < self.pins.len() {
            let ghost before = self.pins@;
            let trimmed = trim(label);
            let label = if trimmed.as_str().is_empty() {
                None
            } else {
                Some(trimmed)
            };
            let pin = Pin {
                pattern: self.pins[at].pattern.clone(),
                label,
                mode: self.pins[at].mode,
                copy: self.pins[at].copy,
            };
            self.pins.set(at, pin);
            assert(pins::pin_models(self.pins@) =~= pins::pin_models(before).update(
                at as int,
                pin@,
            ));
        }
        self.rename = None;
    }

    fn set_pin_copy(&mut self, at: usize, enabled: bool)
        ensures
            final(self)@ == after_pin_copy(old(self)@, Some((at, enabled))),
    {
        if at < self.pins.len() {
            let ghost before = self.pins@;
            let mut pin = self.pins[at].copied();
            pin.copy = Some(enabled);
            self.pins.set(at, pin);
            assert(pins::pin_models(self.pins@) =~= pins::pin_models(before).update(
                at as int,
                pin@,
            ));
        }
    }

    fn select(&mut self, select: Option<usize>)
        ensures
            final(self)@ == after_select(old(self)@, select),
    {
        if let Some(at) = select {
            self.selected = Some(at);
        }
    }

    fn rearrange(&mut self, actions: PinActions)
        requires
            actions.move_pin matches Some((at, delta)) ==> {
                let pins = after_toggle(old(self)@, pin_option(actions.toggle_pin)).pins;
                0 <= at + delta < pins.len() ==> at < pins.len()
            },
        ensures
            final(self)@ == after_unpin(
                after_move(
                    after_toggle(old(self)@, pin_option(actions.toggle_pin)),
                    actions.move_pin,
                ),
                actions.unpin,
            ),
    {
        if let Some(pin) = actions.toggle_pin {
            self.toggle(pin);
        }
        if let Some((at, delta)) = actions.move_pin {
            self.move_pin(at, delta);
        }
        if let Some(at) = actions.unpin {
            self.unpin(at);
        }
    }

    fn edit_label(
        &mut self,
        start: Option<usize>,
        renamed: Option<(usize, String)>,
        cancelled: bool,
    )
        ensures
            final(self)@ == after_cancel(
                after_rename(after_start_rename(old(self)@, start), index_and_text(renamed)),
                cancelled,
            ),
    {
        if let Some(at) = start {
            self.start_rename(at);
        }
        if let Some((at, label)) = renamed {
            self.apply_rename(at, label.as_str());
        }
        if cancelled {
            self.rename = None;
        }
    }

    fn copy(&mut self, set: Option<(usize, bool)>, copy: Option<(String, String)>)
        ensures
            final(self)@ == after_copy(after_pin_copy(old(self)@, set), text_pair(copy)),
    {
        if let Some((at, enabled)) = set {
            self.set_pin_copy(at, enabled);
        }
        if let Some((label, content)) = copy {
            self.flash = Some(text::concat("Copied ", label.as_str()));
            self.pending_copy = Some(content);
        }
    }

    fn unfold(&mut self, expanded: Option<bool>, settings: bool)
        ensures
            final(self)@ == after_settings(after_expand(old(self)@, expanded), settings),
    {
        if let Some(expanded) = expanded {
            self.force_tree_expanded = Some(expanded);
        }
        if settings {
            self.settings_open = !self.settings_open;
        }
    }

    /// Applies a frame's actions, in order. A pin to be moved has to be one of
    /// the pins there are by then.
    pub fn apply_actions(&mut self, actions: UiActions)
        requires
            actions.move_pin matches Some((at, delta)) ==> {
                let pins = before_move(old(self)@, actions).pins;
                0 <= at + delta < pins.len() ==> at < pins.len()
            },
        ensures
            final(self)@ == applied(old(self)@, actions),
    {
        self.select(actions.select);
        if let Some(column) = actions.sort {
            self.sort_by(column);
        }
        self.rearrange(
            PinActions {
                toggle_pin: actions.toggle_pin,
                move_pin: actions.move_pin,
                unpin: actions.unpin,
            },
        );
        self.edit_label(actions.start_rename, actions.apply_rename, actions.cancel_rename);
        self.copy(actions.set_pin_copy, actions.copy);
        self.unfold(actions.set_tree_expanded, actions.toggle_settings);
    }

    /// Takes the text that is to go to the clipboard.
    pub fn take_pending_copy(&mut self) -> (content: Option<String>)
        ensures
            text::text_option(content) == old(self)@.pending_copy,
            final(self)@ == (ControlsModel { pending_copy: None, ..old(self)@ }),
    {
        self.pending_copy.take()
    }

    /// Takes the tree override, which lasts for one frame.
    pub fn take_tree_override(&mut self) -> (expanded: Option<bool>)
        ensures
            expanded == old(self)@.force_tree_expanded,
            final(self)@ == (ControlsModel { force_tree_expanded: None, ..old(self)@ }),
    {
        self.force_tree_expanded.take()
    }

    /// Moves the selection through the shown images. Without a selection the
    /// first one is selected; at either end, or where the selection is not
    /// shown, nothing happens.
    pub fn move_selection(&mut self, visible: &Vec<usize>, delta: isize)
        ensures
            final(self)@ == (ControlsModel {
                selected: moved_selection(old(self)@.selected, visible@, delta as int),
                ..old(self)@
            }),
    {
        let selected = match self.selected {
            Some(selected) => selected,
            None => {
                self.selected = if visible.len() > 0 {
                    Some(visible[0])
                } else {
                    None
                };
                return;
            },
        };
        let at = find_position(visible, selected);
        if at == visible.len() {
            return;
        }
        let target: i128 = at as i128 + delta as i128;
        if target >= 0 && target < visible.len() as i128 {
            self.selected = Some(visible[target as usize]);
        }
    }
}

/// The first place of an item, or the length where it is missing.
pub open spec fn place_of(list: Seq<usize>, item: usize) -> int
    decreases list.len(),
{
    if list.len() == 0 || list[0] == item {
        0
    } else {
        1 + place_of(list.drop_first(), item)
    }
}

/// The selection after moving by `delta`.
pub open spec fn moved_selection(selected: Option<usize>, visible: Seq<usize>, delta: int) -> Option<
    usize,
> {
    match selected {
        None => if visible.len() > 0 {
            Some(visible[0])
        } else {
            None
        },
        Some(item) => {
            let at = place_of(visible, item);
            let target = at + delta;
            if at < visible.len() && 0 <= target < visible.len() {
                Some(visible[target])
            } else {
                Some(item)
            }
        },
    }
}

/// Computes [`place_of`].
pub fn find_position(list: &Vec<usize>, item: usize) -> (at: usize)
    ensures
        at == place_of(list@, item),
        at <= list@.len(),
        at < list@.len() ==> list@[at as int] == item,
        at == list@.len() <==> !list@.contains(item),
{
    let mut at: usize = 0;
    assert(list@.skip(0) =~= list@);
    while at < list.len()
        invariant
            at <= list@.len(),
            place_of(list@, item) == at + place_of(list@.skip(at as int), item),
            forall|k: int| 0 <= k < at ==> #[trigger] list@[k] != item,
        decreases list@.len() - at,
    {
        if list[at] == item {
            return at;
        }
        assert(list@.skip(at as int).drop_first() =~= list@.skip(at + 1));
        at = at + 1;
    }
    at
}

// ---------------------------------------------------------------------------
// Laws
// ---------------------------------------------------------------------------

/// A frame without actions changes nothing.
pub proof fn no_action_changes_nothing(state: ControlsModel, actions: UiActions)
    requires
        actions.select is None,
        actions.sort is None,
        actions.toggle_pin is None,
        actions.move_pin is None,
        actions.unpin is None,
        actions.start_rename is None,
        actions.apply_rename is None,
        !actions.cancel_rename,
        actions.set_pin_copy is None,
        actions.copy is None,
        actions.set_tree_expanded is None,
        !actions.toggle_settings,
    ensures
        applied(state, actions) == state,
{
}

/// Three clicks on one column bring back the unsorted table.
pub proof fn three_clicks_unsort(column: SortColumn)
    ensures
        sort_cycled(sort_cycled(sort_cycled(None, column), column), column) is None,
{
}

/// Moving a pin there and back restores the pins.
pub proof fn a_pin_moves_back(state: ControlsModel, at: usize, delta: isize, back: isize)
    requires
        at < state.pins.len(),
        0 <= at + delta < state.pins.len() <= usize::MAX,
        back == -delta,
    ensures
        after_move(
            after_move(state, Some((at, delta))),
            Some(((at + delta) as usize, back)),
        ).pins == state.pins,
{
    let target = at + delta;
    let once = swapped(state.pins, at as int, target);
    assert(swapped(once, target, at as int) =~= state.pins);
}

/// A position-based rename or sorting never outlives a change of the pins'
/// positions: whenever their number or order changes, both are dropped.
pub proof fn a_change_of_pins_drops_sort_and_rename(state: ControlsModel, actions: UiActions)
    requires
        actions.apply_rename is None,
        actions.set_pin_copy is None,
        actions.start_rename is None,
        applied(state, actions).pins != state.pins,
    ensures
        applied(state, actions).sort is None,
        applied(state, actions).rename is None,
        applied(state, actions).needs_refresh,
{
}

} // verus!
