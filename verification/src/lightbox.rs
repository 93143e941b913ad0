//! Lightbox windows: one image shown in its own window.
//!
//! Each window carries a frozen copy of the filtered image list it opened on,
//! so arrow keys walk that list. A later search or re-sort builds a new list
//! and leaves open windows alone.
//!
//! What depends on the screen (rectangles, zoom factors, textures) is carried
//! through as it is; the decisions about it are made here.

use vstd::prelude::*;

use crate::full::FullOutcome;
use crate::lists;
use crate::model::FilePath;
use crate::text::{self, same_text, single_line};
use std::sync::Arc;

verus! {

/// Upper bound on lightboxes open at once. These are windows rather than
/// textures, and each one holds a full-resolution decode, so the ceiling is
/// deliberately low.
pub const MAX_LIGHTBOXES: usize = 6;

/// Values one strip lists. A workflow can match a pin many times, and the bar
/// is a summary rather than the metadata panel.
pub const MAX_STRIP_ITEMS: usize = 8;

/// Characters one strip value lays out. The copy button always carries the
/// complete value.
pub const MAX_STRIP_CHARS: usize = 400;

/// Serial number of one lightbox window, unique for the process lifetime.
#[derive(Clone, Copy, Debug, PartialEq, Eq, Structural, Hash)]
pub struct LightboxId(pub u64);

/// One value on a window's bottom strip. `shown` is the single-line truncated
/// form the bar lays out, and `value` is the whole text, because the clipboard
/// must get the complete prompt rather than the excerpt on screen.
#[derive(Debug)]
pub struct StripItem {
    pub label: String,
    pub shown: String,
    pub value: String,
}

/// A [`StripItem`] as a mathematical value.
pub ghost struct StripModel {
    pub label: Seq<char>,
    pub shown: Seq<char>,
    pub value: Seq<char>,
}

impl View for StripItem {
    type V = StripModel;

    open spec fn view(&self) -> StripModel {
        StripModel { label: self.label@, shown: self.shown@, value: self.value@ }
    }
}

/// Strip items as mathematical values.
pub open spec fn strip_models(strip: Seq<StripItem>) -> Seq<StripModel> {
    strip.map_values(|item: StripItem| item@)
}

/// What one lightbox window shows about its file.
pub struct LightboxDetail {
    pub path: FilePath,
    pub file_name: String,
    pub source_size: [u32; 2],
    pub file_size: u64,
    /// The copy-enabled pin values this file carries, in pin-then-document
    /// order.
    pub strip: Vec<StripItem>,
}

/// The image list one window walks, and where it sits in it. The list is a
/// snapshot handed over at open time, so two windows can hold two different
/// filters.
pub struct LightboxNav {
    pub paths: Arc<Vec<FilePath>>,
    pub cursor: usize,
}

/// How far this window's full-resolution decode got. The three terminal states
/// are what stop a window loading forever.
#[derive(Debug)]
pub enum LoadStatus {
    Loading,
    Ready,
    Refused(String),
    Failed(String),
}

/// A view change the window has been asked for. `ZoomBy` counts steps, and may
/// take a fraction of one because a trackpad reports a fraction of a notch.
#[derive(Debug)]
pub enum ViewCommand<Z> {
    Fit,
    Native,
    ZoomBy(Z),
}

// ---------------------------------------------------------------------------
// Opening, stepping, the strip
// ---------------------------------------------------------------------------

/// Whether another lightbox may open.
pub fn can_open(open: usize, max: usize) -> (yes: bool)
    ensures
        yes == (open < max),
{
    open < max
}

/// The list position `delta` steps from `cursor`, a cursor past the end being
/// taken for the last position. Nothing where the list is empty, where the step
/// leaves it, or where the position is more than a signed number can hold.
pub open spec fn stepped_cursor(cursor: int, len: int, delta: int) -> Option<int> {
    let current = if cursor < len {
        cursor
    } else {
        len - 1
    };
    let target = current + delta;
    if len > 0 && current <= isize::MAX && 0 <= target < len && target <= isize::MAX {
        Some(target)
    } else {
        None
    }
}

/// The list position `delta` steps from `cursor`. The ends stop rather than
/// wrap, and `None` says there is nowhere to go, so the caller can skip a
/// decode it does not need. A cursor past the end clamps back into range
/// first, which makes a zero step the clamp on its own.
pub fn step_cursor(cursor: usize, len: usize, delta: isize) -> (target: Option<usize>)
    ensures
        stepped_cursor(cursor as int, len as int, delta as int) == (match target {
            Some(target) => Some(target as int),
            None => None,
        }),
{
    if len == 0 {
        return None;
    }
    let current: usize = if cursor < len {
        cursor
    } else {
        len - 1
    };
    if current > isize::MAX as usize {
        return None;
    }
    let target: isize = match (current as isize).checked_add(delta) {
        Some(target) => target,
        None => {
            return None;
        },
    };
    if target < 0 || target as usize >= len {
        return None;
    }
    Some(target as usize)
}

/// One (pin, match) pair: label, copy flag, value.
pub type Candidate = (String, bool, String);

/// A candidate as a mathematical value.
pub open spec fn candidate_model(candidate: Candidate) -> (Seq<char>, bool, Seq<char>) {
    (candidate.0@, candidate.1, candidate.2@)
}

/// Candidates as mathematical values.
pub open spec fn candidate_models(candidates: Seq<Candidate>) -> Seq<(Seq<char>, bool, Seq<char>)> {
    candidates.map_values(|candidate: Candidate| candidate_model(candidate))
}

/// The strip item of a candidate.
pub open spec fn strip_item(candidate: (Seq<char>, bool, Seq<char>), max_chars: nat) -> StripModel {
    StripModel {
        label: candidate.0,
        shown: text::one_line(candidate.2, max_chars),
        value: candidate.2,
    }
}

/// The strip of an image: its copy-enabled candidates in order, at most
/// `max_items` of them.
pub open spec fn strip_of(
    candidates: Seq<(Seq<char>, bool, Seq<char>)>,
    max_items: nat,
    max_chars: nat,
) -> Seq<StripModel> {
    let copied = lists::picked(candidates, |c: (Seq<char>, bool, Seq<char>)| c.1);
    let shown = if copied.len() <= max_items {
        copied
    } else {
        copied.take(max_items as int)
    };
    shown.map_values(|c: (Seq<char>, bool, Seq<char>)| strip_item(c, max_chars))
}

/// The strip rows for one image. `candidates` holds one entry per (pin, match)
/// pair in pin-then-document order, each carrying its pin's copy flag. The cap
/// counts flattened items, because that count is what bounds the bar's height.
pub fn build_strip(candidates: &[Candidate], max_items: usize, max_chars: usize) -> (strip: Vec<
    StripItem,
>)
    ensures
        strip_models(strip@) == strip_of(
            candidate_models(candidates@),
            max_items as nat,
            max_chars as nat,
        ),
{
    let ghost all = candidate_models(candidates@);
    let ghost passes = |c: (Seq<char>, bool, Seq<char>)| c.1;
    let ghost made = |c: (Seq<char>, bool, Seq<char>)| strip_item(c, max_chars as nat);
    let mut strip: Vec<StripItem> = Vec::new();
    let mut i: usize = 0;
    assert(all.take(0) =~= Seq::empty());
    assert(strip_models(strip@) =~= lists::picked(all.take(0), passes).map_values(made));
    while i < candidates.len() && strip.len() < max_items
        invariant
            i <= candidates@.len(),
            strip@.len() <= max_items,
            all == candidate_models(candidates@),
            passes == |c: (Seq<char>, bool, Seq<char>)| c.1,
            made == |c: (Seq<char>, bool, Seq<char>)| strip_item(c, max_chars as nat),
            strip_models(strip@) == lists::picked(all.take(i as int), passes).map_values(made),
        decreases candidates@.len() - i,
    {
        let candidate = &candidates[i];
        let ghost before = lists::picked(all.take(i as int), passes);
        proof {
            assert(all[i as int] == candidate_model(candidates@[i as int]));
            lists::picked_step(all, passes, i as int);
        }
        if candidate.1 {
            let ghost earlier = strip@;
            let item = StripItem {
                label: candidate.0.clone(),
                shown: single_line(candidate.2.as_str(), max_chars),
                value: candidate.2.clone(),
            };
            strip.push(item);
            assert(strip_models(strip@) =~= strip_models(earlier).push(item@));
            assert(before.push(all[i as int]).map_values(made) =~= before.map_values(made).push(
                made(all[i as int]),
            ));
        }
        i = i + 1;
    }
    proof {
        let copied = lists::picked(all, passes);
        let part = lists::picked(all.take(i as int), passes);
        assert(part.map_values(made).len() == strip@.len());
        if i == candidates@.len() {
            assert(all.take(i as int) =~= all);
            assert(copied.take(copied.len() as int) =~= copied);
        } else {
            picked_prefix(all, passes, i as int);
        }
        assert(strip_models(strip@) =~= strip_of(all, max_items as nat, max_chars as nat));
    }
    strip
}

/// What is kept of the head of a list is the head of what is kept.
proof fn picked_prefix<A>(list: Seq<A>, passes: spec_fn(A) -> bool, count: int)
    requires
        0 <= count <= list.len(),
    ensures
        lists::picked(list.take(count), passes).is_prefix_of(lists::picked(list, passes)),
    decreases list.len() - count,
{
    if count == list.len() {
        assert(list.take(count) =~= list);
    } else {
        lists::picked_step(list, passes, count);
        picked_prefix(list, passes, count + 1);
    }
}

/// The strip never lists a value whose pin does not copy, and never more than
/// the cap; what it copies is always the whole value.
pub proof fn the_strip_is_capped_and_copied(
    candidates: Seq<(Seq<char>, bool, Seq<char>)>,
    max_items: nat,
    max_chars: nat,
    i: int,
)
    requires
        0 <= i < strip_of(candidates, max_items, max_chars).len(),
    ensures
        strip_of(candidates, max_items, max_chars).len() <= max_items,
        exists|k: int|
            0 <= k < candidates.len() && (#[trigger] candidates[k]).1 && strip_of(
                candidates,
                max_items,
                max_chars,
            )[i] == strip_item(candidates[k], max_chars),
{
    let passes = |c: (Seq<char>, bool, Seq<char>)| c.1;
    let copied = lists::picked(candidates, passes);
    lists::picked_keeps_what_passes(candidates, passes);
    assert(passes(copied[i]) && candidates.contains(copied[i]));
    let k = choose|k: int| 0 <= k < candidates.len() && candidates[k] == copied[i];
    assert(candidates[k].1);
}

/// A step stays in the list, a zero step is the clamp, and a step taken is
/// undone by the opposite one.
pub proof fn steps_stay_in_the_list(cursor: int, len: int, delta: int)
    requires
        0 <= cursor,
        0 < len <= isize::MAX,
    ensures
        stepped_cursor(cursor, len, delta) matches Some(target) ==> 0 <= target < len,
        stepped_cursor(cursor, len, 0) == Some(if cursor < len {
            cursor
        } else {
            len - 1
        }),
        cursor < len ==> (stepped_cursor(cursor, len, delta) matches Some(target) ==> stepped_cursor(
            target,
            len,
            -delta,
        ) == Some(cursor)),
{
}

// ---------------------------------------------------------------------------
// One window
// ---------------------------------------------------------------------------

/// State that the application and one lightbox window both touch. `T` stands
/// for an uploaded texture, `Z` for an amount of zoom.
pub struct LightboxShared<T, Z> {
    pub texture: Option<T>,
    pub detail: LightboxDetail,
    pub status: LoadStatus,
    /// Size the texture was decoded at, which may be below the source size.
    pub decoded_size: [u32; 2],
    /// A view change a bar button asked for. Only the image panel can resolve
    /// one, because the panel size is what turns a command into a rectangle.
    pub pending_view: Option<ViewCommand<Z>>,
    /// Whether the view follows the window size. A resize refits while this
    /// holds, and any pan, zoom, or native-size action drops it.
    pub fit_mode: bool,
    pub nav: LightboxNav,
    /// A list position this window's keys or buttons asked for.
    pub nav_request: Option<usize>,
    pub close_requested: bool,
}

/// What pressing Escape does.
#[derive(Clone, Copy, PartialEq, Eq, Structural, Debug)]
pub enum EscapeAction {
    Nothing,
    LeaveFullscreen,
    Close,
}

/// What the image panel shows.
pub enum PanelContent {
    /// Why there is no image.
    Message(String),
    Scene,
    Loading,
    NoPixels,
}

/// Whether `after` is `before` with a fresh image to wait for: nothing decoded,
/// and a view that starts from a fit.
pub open spec fn starts_loading<T, Z>(state: LightboxShared<T, Z>) -> bool {
    &&& state.status is Loading
    &&& state.decoded_size@[0] == 0
    &&& state.decoded_size@[1] == 0
    &&& state.fit_mode
}

impl<T, Z> LightboxShared<T, Z> {
    /// A window just opened. A thumbnail, where there is one, stands in until
    /// the decode lands.
    pub fn open(detail: LightboxDetail, nav: LightboxNav, texture: Option<T>) -> (state:
        LightboxShared<T, Z>)
        ensures
            starts_loading(state),
            state.detail == detail,
            state.nav == nav,
            state.texture == texture,
            state.pending_view is None,
            state.nav_request is None,
            !state.close_requested,
    {
        LightboxShared {
            texture,
            detail,
            status: LoadStatus::Loading,
            decoded_size: [0, 0],
            pending_view: None,
            fit_mode: true,
            nav,
            nav_request: None,
            close_requested: false,
        }
    }

    /// Moves the window onto another image of its list: new detail, no texture,
    /// and a fit once the decode is there. Dropping the old texture is what
    /// shows the window loading rather than the image it left.
    pub fn navigate(&mut self, detail: LightboxDetail, cursor: usize)
        ensures
            starts_loading(*final(self)),
            final(self).detail == detail,
            final(self).nav.cursor == cursor,
            final(self).nav.paths == old(self).nav.paths,
            final(self).texture is None,
            final(self).pending_view is Some,
            final(self).pending_view->Some_0 is Fit,
            final(self).nav_request == old(self).nav_request,
            final(self).close_requested == old(self).close_requested,
    {
        self.detail = detail;
        self.nav.cursor = cursor;
        self.texture = None;
        self.decoded_size = [0, 0];
        self.status = LoadStatus::Loading;
        self.pending_view = Some(ViewCommand::Fit);
        self.fit_mode = true;
    }

    /// Takes the result of a decode of `path`. One for a path that the window no
    /// longer shows, or one that was superseded, changes nothing. A texture
    /// replaces what stood in for it and starts over from a fit; a refusal or a
    /// failure only sets the status. True when the window changed.
    pub fn receive(&mut self, path: &str, outcome: FullOutcome<T>) -> (changed: bool)
        ensures
            changed == (old(self).detail.path@.text == path@ && !(outcome is Superseded)),
            !changed ==> *final(self) == *old(self),
            changed ==> {
                &&& final(self).detail == old(self).detail
                &&& final(self).nav == old(self).nav
                &&& final(self).nav_request == old(self).nav_request
                &&& final(self).close_requested == old(self).close_requested
                &&& match outcome {
                    FullOutcome::Ready(texture, size) => {
                        &&& final(self).texture == Some(texture)
                        &&& final(self).decoded_size == size
                        &&& final(self).status is Ready
                        &&& final(self).fit_mode
                        &&& final(self).pending_view is Some
                        &&& final(self).pending_view->Some_0 is Fit
                    },
                    FullOutcome::Refused(message) => {
                        &&& final(self).status == LoadStatus::Refused(message)
                        &&& final(self).texture == old(self).texture
                        &&& final(self).decoded_size == old(self).decoded_size
                        &&& final(self).fit_mode == old(self).fit_mode
                        &&& final(self).pending_view == old(self).pending_view
                    },
                    FullOutcome::Failed(message) => {
                        &&& final(self).status == LoadStatus::Failed(message)
                        &&& final(self).texture == old(self).texture
                        &&& final(self).decoded_size == old(self).decoded_size
                        &&& final(self).fit_mode == old(self).fit_mode
                        &&& final(self).pending_view == old(self).pending_view
                    },
                    FullOutcome::Superseded => true,
                }
            },
    {
        if !same_text(self.detail.path.text.as_str(), path) {
            return false;
        }
        match outcome {
            FullOutcome::Superseded => false,
            FullOutcome::Ready(texture, size) => {
                self.texture = Some(texture);
                self.decoded_size = size;
                self.pending_view = Some(ViewCommand::Fit);
                self.fit_mode = true;
                self.status = LoadStatus::Ready;
                true
            },
            FullOutcome::Refused(message) => {
                self.status = LoadStatus::Refused(message);
                true
            },
            FullOutcome::Failed(message) => {
                self.status = LoadStatus::Failed(message);
                true
            },
        }
    }

    /// Asks to move `delta` steps through the list. Where there is nowhere to
    /// go, nothing is asked for. True when the application has to be told.
    pub fn request_step(&mut self, delta: isize) -> (asked: bool)
        ensures
            ({
                let target = stepped_cursor(
                    old(self).nav.cursor as int,
                    old(self).nav.paths@.len() as int,
                    delta as int,
                );
                &&& asked == (target is Some)
                &&& target matches Some(at) ==> final(self).nav_request == Some(at as usize)
                &&& target is None ==> final(self).nav_request == old(self).nav_request
            }),
            final(self).nav == old(self).nav,
            final(self).detail == old(self).detail,
            final(self).texture == old(self).texture,
            final(self).status == old(self).status,
            final(self).decoded_size == old(self).decoded_size,
            final(self).pending_view == old(self).pending_view,
            final(self).fit_mode == old(self).fit_mode,
            final(self).close_requested == old(self).close_requested,
    {
        match step_cursor(self.nav.cursor, self.nav.paths.len(), delta) {
            Some(target) => {
                self.nav_request = Some(target);
                true
            },
            None => false,
        }
    }

    /// Takes the list position that was asked for, clamped into the list, which
    /// leaves nothing asked for.
    pub fn take_step(&mut self) -> (cursor: Option<usize>)
        ensures
            final(self).nav_request is None,
            final(self).nav == old(self).nav,
            final(self).detail == old(self).detail,
            final(self).texture == old(self).texture,
            final(self).status == old(self).status,
            final(self).decoded_size == old(self).decoded_size,
            final(self).pending_view == old(self).pending_view,
            final(self).fit_mode == old(self).fit_mode,
            final(self).close_requested == old(self).close_requested,
            match old(self).nav_request {
                Some(asked) => match cursor {
                    Some(cursor) => cursor < old(self).nav.paths@.len() && stepped_cursor(
                        asked as int,
                        old(self).nav.paths@.len() as int,
                        0,
                    ) == Some(cursor as int),
                    None => stepped_cursor(
                        asked as int,
                        old(self).nav.paths@.len() as int,
                        0,
                    ) is None,
                },
                None => cursor is None,
            },
    {
        match self.nav_request.take() {
            Some(asked) => step_cursor(asked, self.nav.paths.len(), 0),
            None => None,
        }
    }

    /// What pressing Escape does: leave fullscreen first, then close. Inside the
    /// main window it does nothing, as a command there would act on the main
    /// window itself.
    pub fn escape(&mut self, native: bool, fullscreen: bool) -> (action: EscapeAction)
        ensures
            action == (if !native {
                EscapeAction::Nothing
            } else if fullscreen {
                EscapeAction::LeaveFullscreen
            } else {
                EscapeAction::Close
            }),
            final(self).close_requested == (old(self).close_requested || action
                == EscapeAction::Close),
            final(self).nav == old(self).nav,
            final(self).nav_request == old(self).nav_request,
            final(self).detail == old(self).detail,
            final(self).texture == old(self).texture,
            final(self).status == old(self).status,
            final(self).decoded_size == old(self).decoded_size,
            final(self).pending_view == old(self).pending_view,
            final(self).fit_mode == old(self).fit_mode,
    {
        if !native {
            return EscapeAction::Nothing;
        }
        if fullscreen {
            return EscapeAction::LeaveFullscreen;
        }
        self.close_requested = true;
        EscapeAction::Close
    }

    /// What the image panel shows. A refusal covers the image even when a
    /// stand-in thumbnail is there.
    pub fn content(&self) -> (content: PanelContent)
        ensures
            match self.status {
                LoadStatus::Refused(message) => content is Message && content->Message_0@
                    == message@,
                LoadStatus::Failed(message) => content is Message && content->Message_0@
                    == message@,
                LoadStatus::Loading => if self.texture is Some {
                    content is Scene
                } else {
                    content is Loading
                },
                LoadStatus::Ready => if self.texture is Some {
                    content is Scene
                } else {
                    content is NoPixels
                },
            },
    {
        match &self.status {
            LoadStatus::Refused(message) => PanelContent::Message(message.clone()),
            LoadStatus::Failed(message) => PanelContent::Message(message.clone()),
            LoadStatus::Loading => if self.texture.is_some() {
                PanelContent::Scene
            } else {
                PanelContent::Loading
            },
            LoadStatus::Ready => if self.texture.is_some() {
                PanelContent::Scene
            } else {
                PanelContent::NoPixels
            },
        }
    }

    /// The view change this frame resolves: a bar button outranks the wheel, and
    /// both outrank the standing refit. A view that cannot be kept is refitted.
    /// The view follows the window size from here on exactly when the change is
    /// a fit; without one it stays as it was.
    pub fn take_command(&mut self, wheel: Option<Z>, view_held: bool) -> (command: Option<
        ViewCommand<Z>,
    >)
        ensures
            final(self).pending_view is None,
            match old(self).pending_view {
                Some(pending) => command == Some(pending),
                None => match wheel {
                    Some(steps) => command == Some(ViewCommand::ZoomBy(steps)),
                    None => if old(self).fit_mode || !view_held {
                        command is Some && command->Some_0 is Fit
                    } else {
                        command is None
                    },
                },
            },
            final(self).fit_mode == (match command {
                Some(command) => command is Fit,
                None => old(self).fit_mode,
            }),
            final(self).nav == old(self).nav,
            final(self).nav_request == old(self).nav_request,
            final(self).detail == old(self).detail,
            final(self).texture == old(self).texture,
            final(self).status == old(self).status,
            final(self).decoded_size == old(self).decoded_size,
            final(self).close_requested == old(self).close_requested,
    {
        let command = match self.pending_view.take() {
            Some(pending) => Some(pending),
            None => match wheel {
                Some(steps) => Some(ViewCommand::ZoomBy(steps)),
                None => if self.fit_mode || !view_held {
                    Some(ViewCommand::Fit)
                } else {
                    None
                },
            },
        };
        if let Some(command) = &command {
            self.fit_mode = match command {
                ViewCommand::Fit => true,
                _ => false,
            };
        }
        command
    }

    /// The size the scene is drawn in. The file's header is the truth; the
    /// decode stands in for a file whose header never reached the entry. Nothing
    /// where neither is known.
    pub fn scene_size(&self) -> (size: Option<[u32; 2]>)
        ensures
            size == (if self.detail.source_size@[0] > 0 && self.detail.source_size@[1] > 0 {
                Some(self.detail.source_size)
            } else if self.decoded_size@[0] > 0 && self.decoded_size@[1] > 0 {
                Some(self.decoded_size)
            } else {
                None
            }),
    {
        if self.detail.source_size[0] > 0 && self.detail.source_size[1] > 0 {
            Some(self.detail.source_size)
        } else if self.decoded_size[0] > 0 && self.decoded_size[1] > 0 {
            Some(self.decoded_size)
        } else {
            None
        }
    }
}

/// The steps that the arrow keys ask for: forward for right or down, back for
/// left or up, and forward where both are pressed.
pub fn arrow_step(forward: bool, back: bool) -> (delta: isize)
    ensures
        delta == (if forward {
            1int
        } else if back {
            -1int
        } else {
            0int
        }),
{
    if forward {
        1
    } else if back {
        -1
    } else {
        0
    }
}

/// The list position as the bar shows it.
pub fn position_text(cursor: usize, len: usize) -> (shown: Option<String>)
    ensures
        match shown {
            Some(shown) => len > 0 && shown@ == text::decimal(
                if cursor < len {
                    cursor as nat + 1
                } else {
                    len as nat
                },
            ) + " / "@ + text::decimal(len as nat),
            None => len == 0,
        },
{
    if len == 0 {
        return None;
    }
    let place: usize = if cursor < len {
        cursor + 1
    } else {
        len
    };
    let mut shown = text::decimal_text(place as u64);
    shown.append(" / ");
    text::push_decimal(&mut shown, len as u64);
    Some(shown)
}

} // verus!
