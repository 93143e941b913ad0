//! The viewer: the listed images, the scan that fills them, and what of them
//! is shown.

use vstd::prelude::*;

use crate::controls::{self, find_position, Controls, ControlsModel};
use crate::index::{self, row_matches, MetaRow};
use crate::lightbox::{self, build_strip, LightboxDetail, LightboxNav};
use crate::lists;
use crate::model::{self, FilePath, ImageEntry, PathModel};
use crate::pins::{self, strip_candidates};
use crate::scan::{self, has_png_extension, ScanEvent, ScanUpdate};
use crate::sorting;
use crate::table::{self, filter_images, sort_visible, MatchInfo, Reading, SortColumn};
use crate::text::{self, lowercase, same_text, trim};
use crate::tree;
use std::sync::Arc;

verus! {

/// Progress of the scan currently streaming into the table. `total` is `None`
/// until the folder is listed.
pub struct ScanState {
    pub generation: u64,
    pub done: usize,
    pub total: Option<usize>,
}

/// User-configurable options.
pub struct Settings {
    /// Title pins match a node's title and show its inputs; pinning a titled
    /// value from the tree pins its title instead of its path. Inert for files
    /// without that structure.
    pub comfyui_titles: bool,
    /// The folder to reopen at launch when no path was given. Updated on every
    /// folder open.
    pub last_folder: Option<String>,
}

impl Default for Settings {
    fn default() -> (settings: Settings)
        ensures
            settings.comfyui_titles,
            settings.last_folder is None,
    {
        Settings { comfyui_titles: true, last_folder: None }
    }
}

/// The listed images and what is shown of them.
pub struct Viewer {
    pub controls: Controls,
    pub settings: Settings,
    pub images: Vec<ImageEntry>,
    pub load_errors: Vec<String>,
    pub folder: Option<String>,
    pub search: String,
    /// The images that the search keeps, in the order of the table.
    pub visible: Vec<usize>,
    /// `visible` as paths. Every lightbox is handed this list, and a refresh
    /// replaces it rather than editing it, so an open window keeps the list it
    /// opened on.
    pub visible_paths: Arc<Vec<FilePath>>,
    /// What the search found in each image.
    pub matches: Vec<Option<MatchInfo>>,
    pub scanning: Option<ScanState>,
    /// The last find query and how often it has been asked.
    pub find_last_query: String,
    pub find_index: usize,
}

// ---------------------------------------------------------------------------
// Opening
// ---------------------------------------------------------------------------

/// A path that was dropped on the window.
pub struct Dropped {
    pub path: FilePath,
    pub is_dir: bool,
}

/// What a drop opens.
pub enum OpenPlan {
    Folder(FilePath),
    Files(Vec<FilePath>),
    /// Nothing in the drop can be opened: the current folder stays.
    Nothing,
}

/// A dropped path as a mathematical value.
pub open spec fn dropped_models(dropped: Seq<Dropped>) -> Seq<(PathModel, bool)> {
    dropped.map_values(|item: Dropped| (item.path@, item.is_dir))
}

/// Whether a dropped path can be opened: a folder or a PNG file.
pub open spec fn openable(item: (PathModel, bool)) -> bool {
    item.1 || scan::is_png(item.0)
}

/// Whether a plan opens this path: as a folder where it is one, else as the one
/// file.
pub open spec fn opens_target(plan: OpenPlan, target: (PathModel, bool)) -> bool {
    if target.1 {
        plan matches OpenPlan::Folder(folder) && folder@ == target.0
    } else {
        plan matches OpenPlan::Files(files) && model::path_models(files@) == seq![target.0]
    }
}

/// Whether a plan is the one for a drop: a single path is opened whatever it
/// is; of several, the first folder, else all PNG files, else nothing.
pub open spec fn opens_drop(plan: OpenPlan, dropped: Seq<(PathModel, bool)>) -> bool {
    let kept = lists::picked(dropped, |item: (PathModel, bool)| openable(item));
    let folders = lists::picked(kept, |item: (PathModel, bool)| item.1);
    if dropped.len() == 1 {
        opens_target(plan, dropped[0])
    } else if kept.len() == 0 {
        plan is Nothing
    } else if folders.len() > 0 {
        plan matches OpenPlan::Folder(folder) && folder@ == folders[0].0
    } else {
        plan matches OpenPlan::Files(files) && model::path_models(files@) == kept.map_values(
            |item: (PathModel, bool)| item.0,
        )
    }
}

/// Decides what one path opens.
pub fn open_target(target: Dropped) -> (plan: OpenPlan)
    ensures
        opens_target(plan, (target.path@, target.is_dir)),
{
    if target.is_dir {
        return OpenPlan::Folder(target.path);
    }
    let mut files: Vec<FilePath> = Vec::new();
    files.push(target.path);
    assert(model::path_models(files@) =~= seq![target.path@]);
    OpenPlan::Files(files)
}

/// What to open at launch: a path that was given, else the last folder, as long
/// as it is still one.
pub fn startup_target(given: Option<Dropped>, last_folder: Option<Dropped>) -> (plan: Option<
    OpenPlan,
>)
    ensures
        match (given, last_folder) {
            (Some(given), _) => plan is Some && opens_target(
                plan->Some_0,
                (given.path@, given.is_dir),
            ),
            (None, Some(last)) => if last.is_dir {
                plan is Some && opens_target(plan->Some_0, (last.path@, true))
            } else {
                plan is None
            },
            (None, None) => plan is None,
        },
{
    match (given, last_folder) {
        (Some(given), _) => Some(open_target(given)),
        (None, Some(last)) => if last.is_dir {
            Some(open_target(last))
        } else {
            None
        },
        (None, None) => None,
    }
}

/// Decides what a drop opens.
pub fn open_dropped(dropped: Vec<Dropped>) -> (plan: OpenPlan)
    ensures
        opens_drop(plan, dropped_models(dropped@)),
{
    let ghost all = dropped_models(dropped@);
    let mut dropped = dropped;
    if dropped.len() == 1 {
        let only = dropped.remove(0);
        assert(all[0] == (only.path@, only.is_dir));
        return open_target(only);
    }
    let ghost items = dropped@;
    let ghost passes = |item: (PathModel, bool)| openable(item);
    let ghost is_folder = |item: (PathModel, bool)| item.1;
    let ghost just_path = |item: (PathModel, bool)| item.0;
    let mut kept: Vec<FilePath> = Vec::new();
    let mut folder: Option<FilePath> = None;
    assert(all.take(0) =~= Seq::empty());
    assert(lists::picked(all.take(0), passes) =~= Seq::empty());
    assert(model::path_models(kept@) =~= lists::picked(all.take(0), passes).map_values(just_path));
    for item in it: dropped
        invariant
            it.seq() == items,
            all == dropped_models(items),
            passes == |item: (PathModel, bool)| openable(item),
            is_folder == |item: (PathModel, bool)| item.1,
            just_path == |item: (PathModel, bool)| item.0,
            ({
                let so_far = lists::picked(all.take(it.index() as int), passes);
                let folders = lists::picked(so_far, is_folder);
                &&& model::path_models(kept@) == so_far.map_values(just_path)
                &&& folder is Some == (folders.len() > 0)
                &&& folder matches Some(dir) ==> dir@ == folders[0].0
            }),
    {
        let ghost i = it.index() as int;
        let ghost so_far = lists::picked(all.take(i), passes);
        let ghost before = kept@;
        proof {
            assert(all[i] == (item.path@, item.is_dir));
            lists::picked_step(all, passes, i);
        }
        if item.is_dir || has_png_extension(&item.path) {
            proof {
                let more = so_far.push(all[i]);
                assert(more.drop_last() =~= so_far);
                assert(more.map_values(just_path) =~= so_far.map_values(just_path).push(
                    all[i].0,
                ));
            }
            if item.is_dir && folder.is_none() {
                folder = Some(item.path.copy());
            }
            kept.push(item.path);
            assert(model::path_models(kept@) =~= model::path_models(before).push(item.path@));
        }
    }
    assert(all.take(items.len() as int) =~= all);
    if kept.len() == 0 {
        assert(lists::picked(all, passes).map_values(just_path).len() == 0);
        return OpenPlan::Nothing;
    }
    assert(lists::picked(all, passes).map_values(just_path).len() > 0);
    match folder {
        Some(dir) => OpenPlan::Folder(dir),
        None => OpenPlan::Files(kept),
    }
}

// ---------------------------------------------------------------------------
// Scanning
// ---------------------------------------------------------------------------

/// A count with one more.
pub open spec fn bumped(count: usize) -> usize {
    if count < usize::MAX {
        (count + 1) as usize
    } else {
        count
    }
}

/// Whether all of a viewer but the images, errors, scan and controls is as
/// before.
pub open spec fn same_view(before: Viewer, after: Viewer) -> bool {
    &&& after.settings == before.settings
    &&& after.folder == before.folder
    &&& same_table(before, after)
}

/// Whether what is searched for and what the table shows of it are as before.
pub open spec fn same_table(before: Viewer, after: Viewer) -> bool {
    &&& after.search == before.search
    &&& after.visible == before.visible
    &&& after.visible_paths == before.visible_paths
    &&& after.matches == before.matches
    &&& after.find_last_query == before.find_last_query
    &&& after.find_index == before.find_index
}

/// Whether an update belongs to the scan under way.
pub open spec fn is_current(scanning: Option<ScanState>, update: ScanUpdate) -> bool {
    scanning matches Some(state) && state.generation == update.generation
}

/// What taking an update does: nothing where it is of a superseded scan.
pub open spec fn received(before: Viewer, update: ScanUpdate, after: Viewer) -> bool {
    if !is_current(before.scanning, update) {
        after == before
    } else {
        let state = before.scanning->Some_0;
        &&& same_view(before, after)
        &&& match update.event {
            ScanEvent::Started { total } => {
                &&& after.scanning == Some(ScanState { total: Some(total), ..state })
                &&& after.images == before.images
                &&& after.load_errors == before.load_errors
                &&& after.controls == before.controls
            },
            ScanEvent::Entry(entry) => {
                &&& after.scanning == Some(ScanState { done: bumped(state.done), ..state })
                &&& after.images@ == before.images@.push(*entry)
                &&& after.load_errors == before.load_errors
                &&& after.controls@ == (ControlsModel { needs_refresh: true, ..before.controls@ })
            },
            ScanEvent::Error(message) => {
                &&& after.scanning == Some(ScanState { done: bumped(state.done), ..state })
                &&& after.images == before.images
                &&& after.load_errors@ == before.load_errors@.push(message)
                &&& after.controls == before.controls
            },
            ScanEvent::Done => {
                &&& after.scanning is None
                &&& after.images == before.images
                &&& after.load_errors == before.load_errors
                &&& after.controls == before.controls
            },
        }
    }
}

impl Viewer {
    pub fn new(pins: Vec<pins::Pin>, settings: Settings) -> (viewer: Viewer)
        ensures
            viewer.settings == settings,
            viewer.images@.len() == 0,
            viewer.load_errors@.len() == 0,
            viewer.folder is None,
            viewer.search@.len() == 0,
            viewer.visible@.len() == 0,
            viewer.visible_paths@.len() == 0,
            viewer.matches@.len() == 0,
            viewer.scanning is None,
            viewer.find_last_query@.len() == 0,
            viewer.find_index == 0,
            viewer.controls@ == (ControlsModel {
                selected: None,
                sort: None,
                pins: pins::pin_models(pins@),
                rename: None,
                needs_refresh: false,
                flash: None,
                pending_copy: None,
                force_tree_expanded: None,
                settings_open: false,
            }),
    {
        let controls = Controls {
            selected: None,
            sort: None,
            pins,
            rename: None,
            needs_refresh: false,
            flash: None,
            pending_copy: None,
            force_tree_expanded: None,
            settings_open: false,
        };
        Viewer {
            controls,
            settings,
            images: Vec::new(),
            load_errors: Vec::new(),
            folder: None,
            search: String::new(),
            visible: Vec::new(),
            visible_paths: Arc::new(Vec::new()),
            matches: Vec::new(),
            scanning: None,
            find_last_query: String::new(),
            find_index: 0,
        }
    }

    /// Clears the current view for a scan of this generation; entries stream in
    /// through [`Viewer::receive`].
    fn begin_scan(&mut self, generation: u64)
        ensures
            same_view(*old(self), *final(self)),
            final(self).images@.len() == 0,
            final(self).load_errors@.len() == 0,
            final(self).scanning == Some(ScanState { generation, done: 0, total: None }),
            final(self).controls@ == (ControlsModel {
                selected: None,
                needs_refresh: true,
                ..old(self).controls@
            }),
    {
        self.images = Vec::new();
        self.load_errors = Vec::new();
        self.controls.selected = None;
        self.controls.needs_refresh = true;
        self.scanning = Some(ScanState { generation, done: 0, total: None });
    }

    /// Opens a folder: it is what the table shows from now on, and what the next
    /// launch reopens.
    pub fn open_folder(&mut self, folder: String, generation: u64)
        ensures
            final(self).folder == Some(folder),
            text::text_option(final(self).settings.last_folder) == Some(folder@),
            final(self).settings.comfyui_titles == old(self).settings.comfyui_titles,
            same_table(*old(self), *final(self)),
            final(self).images@.len() == 0,
            final(self).load_errors@.len() == 0,
            final(self).scanning == Some(ScanState { generation, done: 0, total: None }),
            final(self).controls@ == (ControlsModel {
                selected: None,
                needs_refresh: true,
                ..old(self).controls@
            }),
    {
        self.settings.last_folder = Some(folder.clone());
        self.folder = Some(folder);
        self.begin_scan(generation);
    }

    /// Opens a list of files, which belongs to no folder.
    pub fn open_files(&mut self, generation: u64)
        ensures
            final(self).folder is None,
            final(self).settings == old(self).settings,
            same_table(*old(self), *final(self)),
            final(self).images@.len() == 0,
            final(self).load_errors@.len() == 0,
            final(self).scanning == Some(ScanState { generation, done: 0, total: None }),
            final(self).controls@ == (ControlsModel {
                selected: None,
                needs_refresh: true,
                ..old(self).controls@
            }),
    {
        self.folder = None;
        self.begin_scan(generation);
    }

    /// Decides what a drop opens. With nothing to open, a note says so and the
    /// view stays.
    pub fn drop_paths(&mut self, dropped: Vec<Dropped>) -> (plan: OpenPlan)
        ensures
            opens_drop(plan, dropped_models(dropped@)),
            same_view(*old(self), *final(self)),
            final(self).images == old(self).images,
            final(self).load_errors == old(self).load_errors,
            final(self).scanning == old(self).scanning,
            final(self).controls@ == (if plan is Nothing {
                ControlsModel { flash: Some("No PNG files in drop"@), ..old(self).controls@ }
            } else {
                old(self).controls@
            }),
    {
        let plan = open_dropped(dropped);
        if let OpenPlan::Nothing = plan {
            self.controls.flash = Some("No PNG files in drop".to_owned());
        }
        plan
    }

    /// Takes one update of a scan. One of a superseded scan is dropped.
    pub fn receive(&mut self, update: ScanUpdate)
        ensures
            received(*old(self), update, *final(self)),
    {
        let (generation, done, total): (u64, usize, Option<usize>) = match &self.scanning {
            Some(state) => (state.generation, state.done, state.total),
            None => {
                return;
            },
        };
        if update.generation != generation {
            return;
        }
        let next = done.saturating_add(1);
        match update.event {
            ScanEvent::Started { total } => {
                self.scanning = Some(ScanState { generation, done, total: Some(total) });
            },
            ScanEvent::Entry(entry) => {
                self.scanning = Some(ScanState { generation, done: next, total });
                self.images.push(*entry);
                self.controls.needs_refresh = true;
            },
            ScanEvent::Error(message) => {
                self.scanning = Some(ScanState { generation, done: next, total });
                self.load_errors.push(message);
            },
            ScanEvent::Done => {
                self.scanning = None;
            },
        }
    }
}

// ---------------------------------------------------------------------------
// Filtering and sorting
// ---------------------------------------------------------------------------

/// The query that a search text asks.
pub open spec fn query_of(search: Seq<char>) -> Seq<char> {
    text::lowered(text::trimmed(search))
}

/// The paths of images at positions.
pub open spec fn paths_at(images: Seq<ImageEntry>, list: Seq<usize>) -> Seq<PathModel> {
    list.map_values(|at: usize| images[at as int].path@)
}

/// The selection once `visible` is shown: kept where it is shown, else the first
/// shown image.
pub open spec fn kept_selection(selected: Option<usize>, visible: Seq<usize>) -> Option<usize> {
    match selected {
        Some(at) => if visible.contains(at) {
            Some(at)
        } else if visible.len() > 0 {
            Some(visible[0])
        } else {
            None
        },
        None => if visible.len() > 0 {
            Some(visible[0])
        } else {
            None
        },
    }
}

/// Whether `visible` is what a search shows of the images: those it keeps, in
/// the order of the sorted column.
pub open spec fn shown(
    visible: Seq<usize>,
    images: Seq<ImageEntry>,
    query: Seq<char>,
    sort: Option<(SortColumn, bool)>,
    pins: Seq<pins::PinModel>,
    use_titles: bool,
    readings: Seq<Option<Reading>>,
) -> bool {
    let kept = table::kept_positions(images, query);
    match sort {
        Some((column, ascending)) => table::sorted_by_column(
            visible,
            kept,
            images,
            column,
            ascending,
            pins,
            use_titles,
            readings,
        ),
        None => visible == kept,
    }
}

proof fn kept_positions_are_in_range(images: Seq<ImageEntry>, query: Seq<char>)
    requires
        images.len() <= usize::MAX,
    ensures
        table::in_range(table::kept_positions(images, query), images.len()),
{
    let all = table::positions(images.len());
    let passes = |at: usize| table::kept(images[at as int], query);
    let kept = table::kept_positions(images, query);
    lists::picked_keeps_what_passes(all, passes);
    assert forall|i: int| 0 <= i < kept.len() implies #[trigger] kept[i] < images.len() by {
        assert(all.contains(kept[i]));
        let k = choose|k: int| 0 <= k < all.len() && all[k] == kept[i];
        assert(all[k] == k);
    }
}

/// What is shown is always in range.
proof fn shown_is_in_range(
    visible: Seq<usize>,
    images: Seq<ImageEntry>,
    query: Seq<char>,
    sort: Option<(SortColumn, bool)>,
    pins: Seq<pins::PinModel>,
    use_titles: bool,
    readings: Seq<Option<Reading>>,
)
    requires
        images.len() <= usize::MAX,
        shown(visible, images, query, sort, pins, use_titles, readings),
    ensures
        table::in_range(visible, images.len()),
{
    kept_positions_are_in_range(images, query);
    let kept = table::kept_positions(images, query);
    if visible != kept {
        let (column, ascending) = sort->Some_0;
        let rank = match column {
            SortColumn::Name => table::images_by_name(images, ascending),
            SortColumn::Pin(at) => table::images_by_pin(
                images,
                pins[at as int],
                use_titles,
                readings,
                ascending,
            ),
        };
        assert(table::stably_sorted(visible, kept, rank));
        let at = choose|at: Seq<usize>| #[trigger]
            sorting::rearranged(visible, kept, at) && (table::orders(kept, rank)
                ==> table::sorted_from(visible, kept, at, rank));
        assert forall|i: int| 0 <= i < visible.len() implies #[trigger] visible[i]
            < images.len() by {
            assert(at[i] < kept.len());
            assert(visible[i] == kept[at[i] as int]);
        }
    }
}

/// The texts that have to be read as numbers before the table can be sorted:
/// for each image the value of its first match of the sorted pin.
pub open spec fn wants_reading(
    wanted: Option<Seq<char>>,
    entry: ImageEntry,
    sort: Option<(SortColumn, bool)>,
    pins: Seq<pins::PinModel>,
    use_titles: bool,
) -> bool {
    match sort {
        Some((SortColumn::Pin(at), _)) => if at < pins.len() {
            wanted == (match table::first_match(entry, pins[at as int], use_titles) {
                Some(row) => Some(row.value@),
                None => None,
            })
        } else {
            wanted is None
        },
        _ => wanted is None,
    }
}

impl Viewer {
    /// For each image the text that has to be read as a number before
    /// [`Viewer::refresh`].
    pub fn texts_to_read(&self) -> (wanted: Vec<Option<String>>)
        ensures
            wanted@.len() == self.images@.len(),
            forall|i: int|
                0 <= i < self.images@.len() ==> wants_reading(
                    text::text_option(#[trigger] wanted@[i]),
                    self.images@[i],
                    self.controls.sort,
                    pins::pin_models(self.controls.pins@),
                    self.settings.comfyui_titles,
                ),
    {
        let mut wanted: Vec<Option<String>> = Vec::new();
        let pin_at: Option<usize> = match self.controls.sort {
            Some((SortColumn::Pin(at), _)) => if at < self.controls.pins.len() {
                Some(at)
            } else {
                None
            },
            _ => None,
        };
        for i in 0..self.images.len()
            invariant
                pin_at == (match self.controls.sort {
                    Some((SortColumn::Pin(at), _)) => if at < self.controls.pins@.len() {
                        Some(at)
                    } else {
                        None
                    },
                    _ => None,
                }),
                wanted@.len() == i,
                forall|k: int|
                    0 <= k < i ==> wants_reading(
                        text::text_option(#[trigger] wanted@[k]),
                        self.images@[k],
                        self.controls.sort,
                        pins::pin_models(self.controls.pins@),
                        self.settings.comfyui_titles,
                    ),
        {
            let text = match pin_at {
                Some(at) => {
                    assert(pins::pin_models(self.controls.pins@)[at as int]
                        == self.controls.pins@[at as int]@);
                    match table::first_match_of(
                        &self.images[i],
                        &self.controls.pins[at],
                        self.settings.comfyui_titles,
                    ) {
                        Some(row) => Some(row.value.clone()),
                        None => None,
                    }
                },
                None => None,
            };
            wanted.push(text);
        }
        wanted
    }

    fn paths_of_visible(&self) -> (paths: Vec<FilePath>)
        requires
            table::in_range(self.visible@, self.images@.len()),
        ensures
            model::path_models(paths@) == paths_at(self.images@, self.visible@),
    {
        let mut paths: Vec<FilePath> = Vec::new();
        for i in 0..self.visible.len()
            invariant
                table::in_range(self.visible@, self.images@.len()),
                paths@.len() == i,
                forall|k: int|
                    0 <= k < i ==> (#[trigger] paths@[k])@ == self.images@[self.visible@[k]
                        as int].path@,
        {
            assert(self.visible@[i as int] < self.images@.len());
            paths.push(self.images[self.visible[i]].path.copy());
        }
        assert(model::path_models(paths@) =~= paths_at(self.images@, self.visible@));
        paths
    }

    /// The query that the search text asks.
    pub fn query(&self) -> (query: String)
        ensures
            query@ == query_of(self.search@),
    {
        lowercase(trim(self.search.as_str()).as_str())
    }

    /// Filters and sorts the table again, and keeps the selection on a shown
    /// image. `readings` says of each image how the text that
    /// [`Viewer::texts_to_read`] gave for it reads as a number.
    pub fn refresh(&mut self, readings: &Vec<Option<Reading>>)
        requires
            readings@.len() == old(self).images@.len(),
        ensures
            shown(
                final(self).visible@,
                old(self).images@,
                query_of(old(self).search@),
                old(self).controls.sort,
                pins::pin_models(old(self).controls.pins@),
                old(self).settings.comfyui_titles,
                readings@,
            ),
            table::in_range(final(self).visible@, final(self).images@.len()),
            model::path_models(final(self).visible_paths@) == paths_at(
                old(self).images@,
                final(self).visible@,
            ),
            final(self).matches@.len() == old(self).images@.len(),
            forall|i: int|
                0 <= i < old(self).images@.len() ==> table::column_says(
                    #[trigger] final(self).matches@[i],
                    old(self).images@[i],
                    query_of(old(self).search@),
                ),
            final(self).controls@ == (ControlsModel {
                selected: kept_selection(old(self).controls.selected, final(self).visible@),
                needs_refresh: false,
                ..old(self).controls@
            }),
            final(self).images == old(self).images,
            final(self).settings == old(self).settings,
            final(self).search == old(self).search,
            final(self).folder == old(self).folder,
            final(self).load_errors == old(self).load_errors,
            final(self).scanning == old(self).scanning,
            final(self).find_last_query == old(self).find_last_query,
            final(self).find_index == old(self).find_index,
    {
        self.controls.needs_refresh = false;
        let count = self.images.len();
        let query = self.query();
        let (visible, matches) = filter_images(&self.images, query.as_str());
        proof {
            assert(count == self.images@.len());
            kept_positions_are_in_range(self.images@, query@);
        }
        self.matches = matches;
        self.visible = match self.controls.sort {
            Some((column, ascending)) => sort_visible(
                &self.images,
                visible,
                column,
                ascending,
                &self.controls.pins,
                self.settings.comfyui_titles,
                readings,
            ),
            None => visible,
        };
        proof {
            shown_is_in_range(
                self.visible@,
                self.images@,
                query@,
                self.controls.sort,
                pins::pin_models(self.controls.pins@),
                self.settings.comfyui_titles,
                readings@,
            );
        }
        self.visible_paths = Arc::new(self.paths_of_visible());
        let selection_visible = match self.controls.selected {
            Some(at) => find_position(&self.visible, at) < self.visible.len(),
            None => false,
        };
        if !selection_visible {
            self.controls.selected = if self.visible.len() > 0 {
                Some(self.visible[0])
            } else {
                None
            };
        }
    }
}

// ---------------------------------------------------------------------------
// Finding a field
// ---------------------------------------------------------------------------

/// What a find request leads to.
pub enum FindResult {
    /// There was nothing to look for.
    Nothing,
    /// No field matches; this note says so.
    NoMatch(String),
    /// The tree opens and scrolls to this path.
    Jump(String),
}

/// The path that a match at `path` jumps to: a match inside a node's `_meta`
/// (usually its title) leads to the whole node.
pub open spec fn jump_target(path: Seq<char>) -> Seq<char> {
    match text::run_place(path, "._meta."@, 0) {
        Some(at) => path.take(at),
        None => path,
    }
}

fn jump_target_of(path: &str) -> (target: String)
    ensures
        target@ == jump_target(path@),
{
    let chars = text::characters(path);
    let needle = text::characters("._meta.");
    match text::find_run(&chars, &needle) {
        Some(at) => {
            assert(path@.subrange(0, at as int) =~= path@.take(at as int));
            text::text_between(&chars, 0, at)
        },
        None => path.to_owned(),
    }
}

/// The rows of an image that answer a query.
pub open spec fn answering(rows: Seq<MetaRow>, query: Seq<char>) -> Seq<MetaRow> {
    lists::picked(rows, |row: MetaRow| index::row_answers(row, query))
}

fn answering_paths<'a>(entry: &'a ImageEntry, query: &str) -> (found: Vec<&'a MetaRow>)
    ensures
        model::pointed_at(found@) == answering(entry.rows@, query@),
{
    let ghost passes = |row: MetaRow| index::row_answers(row, query@);
    let mut found: Vec<&MetaRow> = Vec::new();
    assert(model::pointed_at(found@) =~= lists::picked(entry.rows@.take(0), passes));
    for i in 0..entry.rows.len()
        invariant
            passes == |row: MetaRow| index::row_answers(row, query@),
            model::pointed_at(found@) == lists::picked(entry.rows@.take(i as int), passes),
    {
        let ghost before = found@;
        let row = &entry.rows[i];
        if row_matches(row, query) {
            found.push(row);
            assert(model::pointed_at(found@) =~= model::pointed_at(before).push(*row));
        }
        proof {
            lists::picked_step(entry.rows@, passes, i as int);
        }
    }
    assert(entry.rows@.take(entry.rows@.len() as int) =~= entry.rows@);
    found
}

/// A count with one more, starting over past the largest.
pub open spec fn next_index(index: usize) -> usize {
    if index < usize::MAX {
        (index + 1) as usize
    } else {
        0
    }
}

impl Viewer {
    /// Looks for a field of an image: the first one that answers, and on asking
    /// again the next one, in turn. Another query starts over.
    pub fn find(&mut self, image: usize, find_text: &str) -> (result: FindResult)
        requires
            image < old(self).images@.len(),
        ensures
            same_view_but_find(*old(self), *final(self)),
            ({
                let query = query_of(find_text@);
                let index = if old(self).find_last_query@ == query {
                    old(self).find_index
                } else {
                    0
                };
                let found = answering(old(self).images@[image as int].rows@, query);
                if query.len() == 0 {
                    &&& result is Nothing
                    &&& final(self).find_last_query == old(self).find_last_query
                    &&& final(self).find_index == old(self).find_index
                } else if found.len() == 0 {
                    &&& result is NoMatch
                    &&& result->NoMatch_0@ == "No match for '"@ + text::trimmed(find_text@) + "'"@
                    &&& final(self).find_last_query@ == query
                    &&& final(self).find_index == index
                } else {
                    &&& result is Jump
                    &&& result->Jump_0@ == jump_target(
                        found[index as int % found.len() as int].path@,
                    )
                    &&& final(self).find_last_query@ == query
                    &&& final(self).find_index == next_index(index)
                }
            }),
    {
        let trimmed = trim(find_text);
        let query = lowercase(trimmed.as_str());
        if query.as_str().is_empty() {
            return FindResult::Nothing;
        }
        if !same_text(query.as_str(), self.find_last_query.as_str()) {
            self.find_last_query = query.clone();
            self.find_index = 0;
        }
        let index = self.find_index;
        let found = answering_paths(&self.images[image], query.as_str());
        let ghost rows = answering(self.images@[image as int].rows@, query@);
        if found.len() == 0 {
            let mut note = "No match for '".to_owned();
            note.append(trimmed.as_str());
            note.append("'");
            return FindResult::NoMatch(note);
        }
        let at = index % found.len();
        assert(rows[at as int] == *found@[at as int]);
        let target = jump_target_of(found[at].path.as_str());
        self.find_index = if index < usize::MAX {
            index + 1
        } else {
            0
        };
        FindResult::Jump(target)
    }
}

/// Whether all of a viewer but what finding remembers is as before.
pub open spec fn same_view_but_find(before: Viewer, after: Viewer) -> bool {
    &&& after.controls == before.controls
    &&& after.settings == before.settings
    &&& after.images == before.images
    &&& after.load_errors == before.load_errors
    &&& after.folder == before.folder
    &&& after.search == before.search
    &&& after.visible == before.visible
    &&& after.visible_paths == before.visible_paths
    &&& after.matches == before.matches
    &&& after.scanning == before.scanning
}

// ---------------------------------------------------------------------------
// Lightbox windows
// ---------------------------------------------------------------------------

/// Whether a detail is that of a listed image, strip included.
pub open spec fn details(
    detail: LightboxDetail,
    entry: ImageEntry,
    pins: Seq<pins::PinModel>,
    use_titles: bool,
) -> bool {
    &&& detail.path@ == entry.path@
    &&& detail.file_name@ == entry.file_name@
    &&& detail.source_size@ == seq![entry.width, entry.height]
    &&& detail.file_size == entry.file_size
    &&& lightbox::strip_models(detail.strip@) == lightbox::strip_of(
        pins::all_candidates(entry.rows@, pins, use_titles),
        lightbox::MAX_STRIP_ITEMS as nat,
        lightbox::MAX_STRIP_CHARS as nat,
    )
}

/// Whether a detail is that of a file that is not listed any more: its name is
/// all that is known.
pub open spec fn only_names(detail: LightboxDetail, path: PathModel) -> bool {
    &&& detail.path@ == path
    &&& detail.file_name@ == path.file_name
    &&& detail.source_size@ == seq![0u32, 0u32]
    &&& detail.file_size == 0
    &&& detail.strip@.len() == 0
}

/// The first image with this path, or the number of images.
pub open spec fn image_at(images: Seq<ImageEntry>, path: Seq<char>, from: int) -> int
    decreases images.len() - from,
{
    if from >= images.len() {
        images.len() as int
    } else if images[from].path@.text == path {
        from
    } else {
        image_at(images, path, from + 1)
    }
}

/// What opening a lightbox comes to.
pub enum LightboxPlan {
    /// Too many are open: a note says so.
    Refused,
    /// There is no such image.
    Nothing,
    /// A window with this to show and this list to walk.
    Open(LightboxDetail, LightboxNav),
}

impl Viewer {
    fn lightbox_detail(&self, entry: &ImageEntry) -> (detail: LightboxDetail)
        ensures
            details(
                detail,
                *entry,
                pins::pin_models(self.controls.pins@),
                self.settings.comfyui_titles,
            ),
    {
        let candidates = strip_candidates(
            entry,
            &self.controls.pins,
            self.settings.comfyui_titles,
        );
        let strip = build_strip(
            candidates.as_slice(),
            lightbox::MAX_STRIP_ITEMS,
            lightbox::MAX_STRIP_CHARS,
        );
        let source_size: [u32; 2] = [entry.width, entry.height];
        assert(source_size@ =~= seq![entry.width, entry.height]);
        LightboxDetail {
            path: entry.path.copy(),
            file_name: entry.file_name.clone(),
            source_size,
            file_size: entry.file_size,
            strip,
        }
    }

    /// What a window shows about a path it navigated to. A frozen list outlives
    /// the scan that produced it, and the file itself still displays, so a path
    /// that is no longer listed falls back to its name.
    pub fn lightbox_detail_for_path(&self, path: &FilePath) -> (detail: LightboxDetail)
        ensures
            ({
                let at = image_at(self.images@, path@.text, 0);
                if at < self.images@.len() {
                    details(
                        detail,
                        self.images@[at],
                        pins::pin_models(self.controls.pins@),
                        self.settings.comfyui_titles,
                    )
                } else {
                    only_names(detail, path@)
                }
            }),
    {
        let mut at: usize = 0;
        while at < self.images.len()
            invariant
                at <= self.images@.len(),
                image_at(self.images@, path@.text, 0) == image_at(
                    self.images@,
                    path@.text,
                    at as int,
                ),
            decreases self.images@.len() - at,
        {
            if same_text(self.images[at].path.text.as_str(), path.text.as_str()) {
                return self.lightbox_detail(&self.images[at]);
            }
            at = at + 1;
        }
        let source_size: [u32; 2] = [0, 0];
        assert(source_size@ =~= seq![0u32, 0u32]);
        LightboxDetail {
            path: path.copy(),
            file_name: path.file_name.clone(),
            source_size,
            file_size: 0,
            strip: Vec::new(),
        }
    }

    /// Decides about opening a lightbox on an image while `open` are open. The
    /// window gets the shown list as it stands now, so a later search or re-sort
    /// cannot move it, and starts where the image stands in it.
    pub fn open_lightbox(&mut self, image: usize, open: usize) -> (plan: LightboxPlan)
        ensures
            same_view(*old(self), *final(self)),
            final(self).images == old(self).images,
            final(self).load_errors == old(self).load_errors,
            final(self).scanning == old(self).scanning,
            if open >= lightbox::MAX_LIGHTBOXES {
                &&& plan is Refused
                &&& final(self).controls@ == (ControlsModel {
                    flash: Some(
                        text::decimal(lightbox::MAX_LIGHTBOXES as nat)
                            + " lightbox windows already open"@,
                    ),
                    ..old(self).controls@
                })
            } else {
                &&& final(self).controls == old(self).controls
                &&& if image < old(self).images@.len() {
                    &&& plan is Open
                    &&& details(
                        plan->Open_0,
                        old(self).images@[image as int],
                        pins::pin_models(old(self).controls.pins@),
                        old(self).settings.comfyui_titles,
                    )
                    &&& plan->Open_1.paths == old(self).visible_paths
                    &&& plan->Open_1.cursor == (if old(self).visible@.contains(image) {
                        controls::place_of(old(self).visible@, image)
                    } else {
                        0
                    })
                } else {
                    plan is Nothing
                }
            },
    {
        if !lightbox::can_open(open, lightbox::MAX_LIGHTBOXES) {
            let mut note = text::decimal_text(lightbox::MAX_LIGHTBOXES as u64);
            note.append(" lightbox windows already open");
            self.controls.flash = Some(note);
            return LightboxPlan::Refused;
        }
        if image >= self.images.len() {
            return LightboxPlan::Nothing;
        }
        let detail = self.lightbox_detail(&self.images[image]);
        let at = find_position(&self.visible, image);
        let cursor: usize = if at < self.visible.len() {
            at
        } else {
            0
        };
        let nav = LightboxNav { paths: Arc::clone(&self.visible_paths), cursor };
        LightboxPlan::Open(detail, nav)
    }
}

// ---------------------------------------------------------------------------
// Laws
// ---------------------------------------------------------------------------

/// Progress counts what arrived: while a scan runs, as many files are done as
/// there are images and errors.
pub proof fn progress_counts_what_arrived(before: Viewer, update: ScanUpdate, after: Viewer)
    requires
        received(before, update, after),
        before.scanning matches Some(state) ==> state.done == before.images@.len()
            + before.load_errors@.len(),
        before.images@.len() + before.load_errors@.len() < usize::MAX,
    ensures
        after.scanning matches Some(state) ==> state.done == after.images@.len()
            + after.load_errors@.len(),
{
}

/// An update of a superseded scan changes nothing, and neither does one after
/// the end.
pub proof fn stale_updates_are_dropped(before: Viewer, update: ScanUpdate, after: Viewer)
    requires
        received(before, update, after),
        before.scanning matches Some(state) ==> state.generation != update.generation,
    ensures
        after == before,
{
}

proof fn a_run_stands_where_it_is_found(text: Seq<char>, needle: Seq<char>, from: int)
    requires
        0 <= from,
    ensures
        text::run_place(text, needle, from) matches Some(at) ==> from <= at && at + needle.len()
            <= text.len() && text.subrange(at, at + needle.len()) == needle,
    decreases text.len() + 1 - from,
{
    if from + needle.len() <= text.len() && text.subrange(from, from + needle.len()) != needle {
        a_run_stands_where_it_is_found(text, needle, from + 1);
    }
}

/// A find opens the way to its match: every header that the match stands in
/// opens, and so does everything in the node that is jumped to.
pub proof fn a_find_opens_the_way_to_its_match(path: Seq<char>, header: Seq<char>)
    requires
        tree::below(path, header) || tree::below(header, jump_target(path)),
    ensures
        tree::opened_by(header, jump_target(path)),
{
    let target = jump_target(path);
    reveal_strlit("._meta.");
    a_run_stands_where_it_is_found(path, "._meta."@, 0);
    if tree::below(path, header) && target != path {
        let at = text::run_place(path, "._meta."@, 0)->Some_0;
        let k = header.len() as int;
        assert(path[at] == path.subrange(at, at + 7)[0]);
        assert(path[at] == '.');
        assert(header.push('.')[k] == path[k]);
        assert(forall|i: int| 0 <= i < k ==> header[i] == header.push('.')[i]);
        if k == at {
            assert(header =~= target);
        } else if k < at {
            assert(header.push('.').is_prefix_of(target));
        } else {
            assert(target.push('.').is_prefix_of(header));
        }
    }
}

/// The find index after a number of finds.
pub open spec fn index_after(index: usize, finds: nat) -> usize
    decreases finds,
{
    if finds == 0 {
        index
    } else {
        next_index(index_after(index, (finds - 1) as nat))
    }
}

/// Finding again walks the matches in turn: after as many finds as there are
/// matches the first one comes again, and none came twice before that. The turn
/// in which the index starts over past the largest number is left out.
pub proof fn matches_come_in_turn(index: usize, count: nat, finds: nat)
    requires
        0 < finds <= count,
        index + finds <= usize::MAX,
    ensures
        index_after(index, finds) as int % count as int == index as int % count as int
            <==> finds == count,
    decreases finds,
{
    index_counts_up(index, finds);
    let (n, c, f) = (index as int, count as int, finds as int);
    assert((n + f) % c == n % c <==> f == c) by (nonlinear_arith)
        requires
            0 < f <= c,
            0 <= n,
    {
        let (q, r) = (n / c, n % c);
        assert(n == c * q + r && 0 <= r < c);
        if f == c {
            assert(n + f == c * (q + 1) + r);
            vstd::arithmetic::div_mod::lemma_fundamental_div_mod_converse(n + f, c, q + 1, r);
        } else if r + f < c {
            vstd::arithmetic::div_mod::lemma_fundamental_div_mod_converse(n + f, c, q, r + f);
        } else {
            assert(n + f == c * (q + 1) + (r + f - c));
            vstd::arithmetic::div_mod::lemma_fundamental_div_mod_converse(
                n + f,
                c,
                q + 1,
                r + f - c,
            );
        }
    }
}

proof fn index_counts_up(index: usize, finds: nat)
    requires
        index + finds <= usize::MAX,
    ensures
        index_after(index, finds) == index + finds,
    decreases finds,
{
    if finds > 0 {
        index_counts_up(index, (finds - 1) as nat);
    }
}

/// After a refresh the selection is a shown image, unless nothing is shown, and
/// a selection that is still shown stays.
pub proof fn the_selection_is_shown(selected: Option<usize>, visible: Seq<usize>)
    ensures
        kept_selection(selected, visible) matches Some(at) ==> visible.contains(at),
        kept_selection(selected, visible) is None <==> visible.len() == 0,
        selected matches Some(at) && visible.contains(at) ==> kept_selection(selected, visible)
            == selected,
{
    if visible.len() > 0 {
        assert(visible.contains(visible[0]));
    }
    if let Some(at) = selected {
        if visible.contains(at) {
            assert(visible.len() > 0);
        }
    }
}

} // verus!
