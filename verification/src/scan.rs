//! Folder scanning: which files there are, which of them the cache still
//! answers for, which have to be read, and what is reported of each.
//!
//! [`Scan`] makes the decisions; whoever runs it lists the folder, asks for
//! file facts, reads headers, stores the cache and passes the reports on.
//!
//! Cancellation is generational: starting a new scan bumps a counter; a report
//! that nobody takes any more ends the superseded scan, which then skips its
//! cache write. The receiver drops any report whose generation is stale.

use vstd::prelude::*;

use crate::cache::{self, epoch_seconds, CachedFile, FolderCache};
use crate::chunks::{self, PngHeader};
use crate::clock::{self, format_timestamp, Stamp};
use crate::lists;
use crate::model::{self, FileMeta, FilePath, ImageEntry, PathModel};
use crate::sorting::{self, sorted_positions, SortOrder};
use crate::text::{self, rank_bytes, same_ignoring_ascii_case, Rank};
use std::time::SystemTime;

verus! {

/// What to scan: a folder (listed and cached) or an explicit file list (never
/// cached, the files may span arbitrary folders).
pub enum ScanTarget {
    Folder(String),
    Files(Vec<FilePath>),
}

/// One event in a scan's stream of reports. Every listed file produces exactly
/// one `Entry` or `Error`, so progress is received over total.
pub enum ScanEvent {
    /// Listing finished; this many files will be processed.
    Started { total: usize },
    Entry(Box<ImageEntry>),
    Error(String),
    Done,
}

/// A [`ScanEvent`] tagged with the generation of the scan that produced it.
pub struct ScanUpdate {
    pub generation: u64,
    pub event: ScanEvent,
}

/// What a file's metadata says. Where it could not be read, the size is zero
/// and the times are unknown.
pub struct FileFacts {
    pub size: u64,
    pub created: Option<Stamp>,
    pub modified: Option<Stamp>,
    pub modified_epoch: Option<i64>,
}

/// Whether the calendar has a date for a time, where the time is known.
pub open spec fn dated(time: Option<SystemTime>) -> bool {
    time matches Some(time) ==> clock::has_date(clock::instant_nanos(time))
}

/// Whether a stamp is one of a time, both being known or neither.
pub open spec fn stamped(stamp: Option<Stamp>, time: Option<SystemTime>) -> bool {
    match (stamp, time) {
        (Some(stamp), Some(time)) => clock::stamps(stamp, clock::instant_nanos(time)),
        (None, None) => true,
        _ => false,
    }
}

impl FileFacts {
    /// The facts that a file's size and times give. Nothing where a time has no
    /// date.
    pub fn of_file(size: u64, created: Option<SystemTime>, modified: Option<SystemTime>) -> (facts:
        Option<FileFacts>)
        ensures
            match facts {
                Some(facts) => {
                    &&& dated(created)
                    &&& dated(modified)
                    &&& facts.size == size
                    &&& stamped(facts.created, created)
                    &&& stamped(facts.modified, modified)
                    &&& facts.modified_epoch == (match modified {
                        Some(time) => Some(
                            cache::truncated_seconds(clock::instant_nanos(time)) as i64,
                        ),
                        None => None,
                    })
                },
                None => !dated(created) || !dated(modified),
            },
    {
        let created_stamp = match created {
            Some(time) => match format_timestamp(time) {
                Some(stamp) => Some(stamp),
                None => {
                    return None;
                },
            },
            None => None,
        };
        let (modified_stamp, modified_epoch) = match modified {
            Some(time) => match format_timestamp(time) {
                Some(stamp) => (Some(stamp), Some(epoch_seconds(time))),
                None => {
                    return None;
                },
            },
            None => (None, None),
        };
        Some(
            FileFacts { size, created: created_stamp, modified: modified_stamp, modified_epoch },
        )
    }
}

// ---------------------------------------------------------------------------
// Listing
// ---------------------------------------------------------------------------

/// Whether a path has the extension `png`, in any case.
pub open spec fn is_png(path: PathModel) -> bool {
    match path.extension {
        Some(extension) => text::ascii_lowered(extension) == text::ascii_lowered("png"@),
        None => false,
    }
}

/// Computes [`is_png`].
pub fn has_png_extension(path: &FilePath) -> (yes: bool)
    ensures
        yes == is_png(path@),
{
    match &path.extension {
        Some(extension) => same_ignoring_ascii_case(extension.as_str(), "png"),
        None => false,
    }
}

/// The order of paths by file name.
struct NameOrder<'a> {
    paths: &'a Vec<FilePath>,
}

impl<'a> SortOrder for NameOrder<'a> {
    closed spec fn covers(&self, count: int) -> bool {
        count == self.paths@.len()
    }

    closed spec fn rank(&self, a: int, b: int) -> Rank {
        text::byte_rank(self.paths@[a].name_bytes@, self.paths@[b].name_bytes@)
    }

    fn compare(&self, a: usize, b: usize, count: usize) -> (rank: Rank) {
        rank_bytes(&self.paths[a].name_bytes, &self.paths[b].name_bytes)
    }
}

proof fn names_are_ordered(order: &NameOrder, count: int)
    requires
        order.covers(count),
    ensures
        sorting::total_preorder(order, count),
{
    assert forall|a: int, b: int| 0 <= a < count && 0 <= b < count implies #[trigger] order.rank(
        b,
        a,
    ) == order.rank(a, b).flipped() by {
        text::byte_rank_is_antisymmetric(
            order.paths@[a].name_bytes@,
            order.paths@[b].name_bytes@,
        );
    }
    assert forall|a: int, b: int, c: int|
        0 <= a < count && 0 <= b < count && 0 <= c < count && #[trigger] order.rank(a, b)
            != Rank::After && #[trigger] order.rank(b, c) != Rank::After implies order.rank(a, c)
        != Rank::After by {
        text::byte_rank_is_transitive(
            order.paths@[a].name_bytes@,
            order.paths@[b].name_bytes@,
            order.paths@[c].name_bytes@,
        );
    }
}

/// Whether paths stand in the order of their file names, as the system has
/// them: byte by byte.
pub open spec fn by_name(paths: Seq<PathModel>) -> bool {
    forall|i: int, j: int|
        0 <= i < j < paths.len() ==> text::byte_rank(
            #[trigger] paths[i].name_bytes,
            #[trigger] paths[j].name_bytes,
        ) != Rank::After
}

/// Whether `listed` is the `.png` files among `found`, in the order of their
/// names.
pub open spec fn png_listing(found: Seq<PathModel>, listed: Seq<PathModel>) -> bool {
    let pngs = lists::picked(found, |path: PathModel| is_png(path));
    &&& exists|at: Seq<usize>| #[trigger] sorting::rearranged(listed, pngs, at)
    &&& by_name(listed)
}

fn keep_pngs(found: Vec<FilePath>) -> (kept: Vec<FilePath>)
    ensures
        model::path_models(kept@) == lists::picked(
            model::path_models(found@),
            |path: PathModel| is_png(path),
        ),
{
    let ghost passes = |path: PathModel| is_png(path);
    let ghost all = model::path_models(found@);
    let ghost items = found@;
    let mut kept: Vec<FilePath> = Vec::new();
    assert(model::path_models(kept@) =~= lists::picked(all.take(0), passes));
    for path in it: found
        invariant
            it.seq() == items,
            all == model::path_models(items),
            passes == |path: PathModel| is_png(path),
            model::path_models(kept@) == lists::picked(all.take(it.index() as int), passes),
    {
        let ghost before = kept@;
        proof {
            assert(all[it.index() as int] == path@);
            lists::picked_step(all, passes, it.index() as int);
        }
        if has_png_extension(&path) {
            kept.push(path);
            assert(model::path_models(kept@) =~= model::path_models(before).push(path@));
        }
    }
    assert(all.take(items.len() as int) =~= all);
    kept
}

/// All `.png` files among the entries of a folder, sorted by name: the table's
/// stable initial order.
pub fn list_pngs(found: Vec<FilePath>) -> (listed: Vec<FilePath>)
    ensures
        png_listing(model::path_models(found@), model::path_models(listed@)),
{
    let kept = keep_pngs(found);
    let ghost pngs = model::path_models(kept@);
    let order = NameOrder { paths: &kept };
    let at = sorted_positions(&order, kept.len());
    let mut listed: Vec<FilePath> = Vec::new();
    for i in 0..at.len()
        invariant
            pngs == model::path_models(kept@),
            sorting::arranges(at@, 0, kept@.len() as int),
            listed@.len() == i,
            forall|k: int| 0 <= k < i ==> (#[trigger] listed@[k])@ == pngs[at@[k] as int],
    {
        assert(at@[i as int] < kept@.len());
        listed.push(kept[at[i]].copy());
    }
    proof {
        let names = model::path_models(listed@);
        names_are_ordered(&order, kept@.len() as int);
        assert(names =~= Seq::new(at@.len(), |i: int| pngs[at@[i] as int]));
        assert(sorting::rearranged(names, pngs, at@));
        assert forall|i: int, j: int| 0 <= i < j < names.len() implies text::byte_rank(
            #[trigger] names[i].name_bytes,
            #[trigger] names[j].name_bytes,
        ) != Rank::After by {
            assert(sorting::precedes(&order, at@[i] as int, at@[j] as int));
        }
    }
    listed
}

// ---------------------------------------------------------------------------
// One file
// ---------------------------------------------------------------------------

/// What the scan knows of an image once its header or its record is there.
pub open spec fn meta_of(facts: FileFacts, width: u32, height: u32) -> FileMeta {
    FileMeta {
        size: facts.size,
        created: facts.created,
        modified: facts.modified,
        width,
        height,
    }
}

/// The record that the cache still answers with for a file, if any.
pub open spec fn cached_record(old: Option<FolderCache>, name: Seq<char>, facts: FileFacts) -> Option<
    cache::FileModel,
> {
    match old {
        Some(old) => if old@.files.contains_key(name) && cache::unchanged(
            old@.files[name],
            facts.size,
            facts.modified_epoch,
        ) {
            Some(old@.files[name])
        } else {
            None
        },
        None => None,
    }
}

/// The cache under construction with one more record, where there is one.
pub open spec fn recorded(
    before: Option<FolderCache>,
    after: Option<FolderCache>,
    name: Seq<char>,
    file: cache::FileModel,
) -> bool {
    match (before, after) {
        (Some(before), Some(after)) => after.valid() && after@ == (cache::CacheModel {
            files: before@.files.insert(name, file),
            ..before@
        }),
        (None, None) => true,
        _ => false,
    }
}

/// The record of a file whose header was read.
pub open spec fn fresh_record(facts: FileFacts, header: chunks::HeaderModel) -> cache::FileModel {
    cache::FileModel {
        size: facts.size,
        modified_epoch: facts.modified_epoch,
        width: header.width,
        height: header.height,
        chunks: header.chunks,
    }
}

/// Whether an event reports an image made of these parts.
pub open spec fn reports_entry(
    event: ScanEvent,
    path: PathModel,
    meta: FileMeta,
    chunks: Seq<(Seq<char>, Seq<char>)>,
) -> bool {
    event matches ScanEvent::Entry(entry) && entry.made_of(path, meta, chunks)
}

/// Whether an event reports an error with this message.
pub open spec fn reports_error(event: ScanEvent, message: Seq<char>) -> bool {
    event matches ScanEvent::Error(text) && text@ == message
}

/// A message about something at a path.
pub open spec fn about(path: Seq<char>, complaint: Seq<char>) -> Seq<char> {
    path + ": "@ + complaint
}

fn complain(path: &str, complaint: &str) -> (message: String)
    ensures
        message@ == about(path@, complaint@),
{
    let mut message = path.to_owned();
    message.append(": ");
    message.append(complaint);
    message
}

/// What became of a file once its facts were known.
enum FileStep {
    /// The cache answered: report this.
    Report(ScanEvent),
    /// The header has to be read.
    Read(FileFacts),
}

/// Asks the cache about a file. On a hit the record goes into the fresh cache
/// and the file is not opened.
fn ask_cache(
    path: &FilePath,
    facts: FileFacts,
    old_cache: &Option<FolderCache>,
    fresh: &mut Option<FolderCache>,
) -> (step: FileStep)
    requires
        old_cache matches Some(cache) ==> cache.valid(),
        *old(fresh) matches Some(cache) ==> cache.valid(),
    ensures
        match cached_record(*old_cache, path@.file_name, facts) {
            Some(record) => step is Report && reports_entry(
                step->Report_0,
                path@,
                meta_of(facts, record.width, record.height),
                record.chunks,
            ) && recorded(*old(fresh), *final(fresh), path@.file_name, record),
            None => step == FileStep::Read(facts) && *final(fresh) == *old(fresh),
        },
{
    let hit = match old_cache {
        Some(cache) => cache.lookup(path.file_name.as_str(), facts.size, facts.modified_epoch),
        None => None,
    };
    match hit {
        Some(cached) => {
            let meta = FileMeta {
                size: facts.size,
                created: facts.created,
                modified: facts.modified,
                width: cached.width,
                height: cached.height,
            };
            if let Some(cache) = fresh {
                cache.record(path.file_name.clone(), cached.copy());
            }
            let entry = ImageEntry::from_parts(path.copy(), meta, cached.text_chunks());
            FileStep::Report(ScanEvent::Entry(Box::new(entry)))
        },
        None => FileStep::Read(facts),
    }
}

/// What is reported of a file whose header was read, or could not be. A header
/// that was read goes into the fresh cache.
fn take_header(
    path: &FilePath,
    facts: FileFacts,
    header: Result<PngHeader, String>,
    fresh: &mut Option<FolderCache>,
) -> (event: ScanEvent)
    requires
        *old(fresh) matches Some(cache) ==> cache.valid(),
    ensures
        match header {
            Ok(header) => reports_entry(
                event,
                path@,
                meta_of(facts, header.width, header.height),
                header@.chunks,
            ) && recorded(
                *old(fresh),
                *final(fresh),
                path@.file_name,
                fresh_record(facts, header@),
            ),
            Err(reason) => reports_error(event, about(path@.text, reason@)) && *final(fresh)
                == *old(fresh),
        },
{
    match header {
        Ok(header) => {
            if let Some(cache) = fresh {
                let record = CachedFile::of_header(facts.size, facts.modified_epoch, &header);
                cache.record(path.file_name.clone(), record);
            }
            let meta = FileMeta {
                size: facts.size,
                created: facts.created,
                modified: facts.modified,
                width: header.width,
                height: header.height,
            };
            let entry = ImageEntry::from_parts(path.copy(), meta, header.text_chunks);
            ScanEvent::Entry(Box::new(entry))
        },
        Err(reason) => ScanEvent::Error(complain(path.text.as_str(), reason.as_str())),
    }
}

// ---------------------------------------------------------------------------
// A whole scan
// ---------------------------------------------------------------------------

/// What a scan waits for.
pub enum Stage {
    /// The entries of the folder.
    List,
    /// The folder's cache.
    Load,
    /// Whether the start was taken.
    Begin,
    /// The facts of the file at hand.
    Stat,
    /// The header of the file at hand, whose facts these are.
    Read(FileFacts),
    /// Whether the report of a file was taken.
    Report,
    /// How the cache write went.
    Save,
    /// Whether the last word before the end was taken.
    Close,
    /// Whether the end was taken.
    End,
    /// Nothing more.
    Over,
}

/// A scan under way.
pub struct Scan {
    pub stage: Stage,
    /// The folder that is scanned, unless it is a list of files.
    pub folder: Option<String>,
    /// Whether a folder's cache is read and written.
    pub use_cache: bool,
    pub files: Vec<FilePath>,
    /// How many of the files have been reported.
    pub next: usize,
    pub old_cache: Option<FolderCache>,
    pub fresh_cache: Option<FolderCache>,
    /// Whether some file had to be read, or tried.
    pub any_miss: bool,
}

/// What to do next.
pub enum ScanAction {
    /// List this folder.
    List(String),
    /// Load this folder's cache.
    Load(String),
    /// Report this.
    Emit(ScanEvent),
    /// Ask for the facts of this file.
    Stat(FilePath),
    /// Read the header of this file.
    Read(FilePath),
    /// Store this cache.
    Save(FolderCache),
    /// Stop.
    Stop,
}

/// What became of the last action.
pub enum ScanInput {
    Listed(Result<Vec<FilePath>, String>),
    Loaded(FolderCache),
    /// Whether anybody still takes the reports of this scan.
    Emitted(bool),
    Facts(FileFacts),
    Header(Result<PngHeader, String>),
    Saved(Result<(), String>),
}

impl Scan {
    /// Whether the scan can go on from here.
    pub open spec fn valid(self) -> bool {
        &&& self.next <= self.files@.len()
        &&& (self.stage is Stat || self.stage is Read) ==> self.next < self.files@.len()
        &&& (self.stage is List || self.stage is Load) ==> self.folder is Some
        &&& self.old_cache matches Some(cache) ==> cache.valid()
        &&& self.fresh_cache matches Some(cache) ==> cache.valid()
    }

    /// Whether the input answers what the scan asked for.
    pub open spec fn answered_by(self, input: ScanInput) -> bool {
        match input {
            ScanInput::Listed(_) => self.stage is List,
            ScanInput::Loaded(cache) => self.stage is Load && cache.valid(),
            ScanInput::Emitted(_) => self.stage is Begin || self.stage is Report
                || self.stage is Close || self.stage is End,
            ScanInput::Facts(_) => self.stage is Stat,
            ScanInput::Header(_) => self.stage is Read,
            ScanInput::Saved(_) => self.stage is Save,
        }
    }

    /// The scan is as `before`, but for its stage.
    pub open spec fn moved_on(self, before: Scan) -> bool {
        &&& self.folder == before.folder
        &&& self.use_cache == before.use_cache
        &&& self.files == before.files
        &&& self.next == before.next
        &&& self.old_cache == before.old_cache
        &&& self.fresh_cache == before.fresh_cache
        &&& self.any_miss == before.any_miss
    }

    /// Whether what was learned is worth storing: some file had to be read, or
    /// files vanished since the cached set was recorded.
    pub open spec fn worth_storing(self) -> bool {
        match (self.fresh_cache, self.old_cache) {
            (Some(fresh), Some(old)) => self.any_miss || old@.files.dom().len()
                != fresh@.files.dom().len(),
            _ => false,
        }
    }
}

/// Announcing how many files there are.
pub open spec fn begins(after: Scan, action: ScanAction) -> bool {
    &&& after.stage is Begin
    &&& action == ScanAction::Emit(ScanEvent::Started { total: after.files@.len() as usize })
}

/// Going on to the next file, or to the end when there is none.
pub open spec fn goes_on(before: Scan, after: Scan, action: ScanAction) -> bool {
    if before.next < before.files@.len() {
        &&& after.moved_on(before)
        &&& after.stage is Stat
        &&& action is Stat
        &&& action->Stat_0@ == before.files@[before.next as int]@
    } else if before.worth_storing() {
        &&& after.stage is Save
        &&& action == ScanAction::Save(before.fresh_cache->Some_0)
        &&& after.next == before.next
        &&& after.files == before.files
    } else {
        ends(before, after, action)
    }
}

/// Reporting the end.
pub open spec fn ends(before: Scan, after: Scan, action: ScanAction) -> bool {
    &&& after.moved_on(before)
    &&& after.stage is End
    &&& action == ScanAction::Emit(ScanEvent::Done)
}

/// Stopping for good.
pub open spec fn stops(before: Scan, after: Scan, action: ScanAction) -> bool {
    &&& after.moved_on(before)
    &&& after.stage is Over
    &&& action is Stop
}

/// One file was reported: the next one is due.
pub open spec fn one_further(before: Scan, after: Scan) -> bool {
    &&& after.stage is Report
    &&& after.next == before.next + 1
    &&& after.files == before.files
    &&& after.folder == before.folder
    &&& after.use_cache == before.use_cache
    &&& after.old_cache == before.old_cache
}

/// What a scan does with the entries of its folder: its `.png` files by name
/// are the files to scan, and a fresh cache is begun.
pub open spec fn listed(
    before: Scan,
    found: Seq<PathModel>,
    after: Scan,
    action: ScanAction,
) -> bool {
    let folder = before.folder->Some_0;
    &&& png_listing(found, model::path_models(after.files@))
    &&& after.next == 0
    &&& !after.any_miss
    &&& after.folder == before.folder
    &&& after.use_cache == before.use_cache
    &&& after.old_cache is None
    &&& after.fresh_cache matches Some(fresh) && fresh@ == cache::empty_cache(folder@)
    &&& if before.use_cache {
        after.stage is Load && action is Load && action->Load_0@ == folder@
    } else {
        begins(after, action)
    }
}

/// What a scan does with the facts of a file: where the cache answers, the file
/// is reported from there and not opened; else its header is asked for.
pub open spec fn knows_facts(
    before: Scan,
    facts: FileFacts,
    after: Scan,
    action: ScanAction,
) -> bool {
    let path = before.files@[before.next as int]@;
    match cached_record(before.old_cache, path.file_name, facts) {
        Some(record) => {
            &&& one_further(before, after)
            &&& after.any_miss == before.any_miss
            &&& recorded(before.fresh_cache, after.fresh_cache, path.file_name, record)
            &&& action is Emit
            &&& reports_entry(
                action->Emit_0,
                path,
                meta_of(facts, record.width, record.height),
                record.chunks,
            )
        },
        None => {
            &&& after.stage == Stage::Read(facts)
            &&& after.any_miss
            &&& after.next == before.next
            &&& after.files == before.files
            &&& after.folder == before.folder
            &&& after.use_cache == before.use_cache
            &&& after.old_cache == before.old_cache
            &&& after.fresh_cache == before.fresh_cache
            &&& action is Read
            &&& action->Read_0@ == path
        },
    }
}

/// What a scan does with a header: an image to report and a record to keep, or
/// an error to report.
pub open spec fn knows_header(
    before: Scan,
    facts: FileFacts,
    header: Result<PngHeader, String>,
    after: Scan,
    action: ScanAction,
) -> bool {
    let path = before.files@[before.next as int]@;
    &&& one_further(before, after)
    &&& after.any_miss == before.any_miss
    &&& action is Emit
    &&& match header {
        Ok(header) => {
            &&& reports_entry(
                action->Emit_0,
                path,
                meta_of(facts, header.width, header.height),
                header@.chunks,
            )
            &&& recorded(
                before.fresh_cache,
                after.fresh_cache,
                path.file_name,
                fresh_record(facts, header@),
            )
        },
        Err(reason) => {
            &&& reports_error(action->Emit_0, about(path.text, reason@))
            &&& after.fresh_cache == before.fresh_cache
        },
    }
}

/// What a scan does next on an input.
pub open spec fn stepped(before: Scan, input: ScanInput, after: Scan, action: ScanAction) -> bool {
    match input {
        ScanInput::Listed(Ok(found)) => listed(
            before,
            model::path_models(found@),
            after,
            action,
        ),
        ScanInput::Listed(Err(reason)) => {
            &&& after.moved_on(before)
            &&& after.stage is Close
            &&& action is Emit
            &&& reports_error(action->Emit_0, about(before.folder->Some_0@, reason@))
        },
        ScanInput::Loaded(cache) => {
            &&& after.old_cache == Some(cache)
            &&& after.fresh_cache == before.fresh_cache
            &&& after.files == before.files
            &&& after.next == before.next
            &&& after.any_miss == before.any_miss
            &&& after.folder == before.folder
            &&& after.use_cache == before.use_cache
            &&& begins(after, action)
        },
        ScanInput::Emitted(alive) => match before.stage {
            Stage::Begin | Stage::Report => if alive {
                goes_on(before, after, action)
            } else {
                stops(before, after, action)
            },
            Stage::Close => ends(before, after, action),
            _ => stops(before, after, action),
        },
        ScanInput::Facts(facts) => knows_facts(before, facts, after, action),
        ScanInput::Header(header) => knows_header(
            before,
            before.stage->Read_0,
            header,
            after,
            action,
        ),
        ScanInput::Saved(Ok(_)) => ends(before, after, action),
        ScanInput::Saved(Err(reason)) => {
            &&& after.moved_on(before)
            &&& after.stage is Close
            &&& action is Emit
            &&& reports_error(action->Emit_0, "metadata cache write failed: "@ + reason@)
        },
    }
}

/// How a scan starts: a folder is listed, a list of files is taken as it is.
pub open spec fn started(
    target: ScanTarget,
    use_cache: bool,
    scan: Scan,
    action: ScanAction,
) -> bool {
    &&& scan.valid()
    &&& scan.next == 0
    &&& !scan.any_miss
    &&& scan.old_cache is None
    &&& scan.fresh_cache is None
    &&& match target {
        ScanTarget::Folder(folder) => {
            &&& scan.folder == Some(folder)
            &&& scan.use_cache == use_cache
            &&& scan.files@.len() == 0
            &&& scan.stage is List
            &&& action is List
            &&& action->List_0@ == folder@
        },
        ScanTarget::Files(files) => {
            &&& scan.folder is None
            &&& !scan.use_cache
            &&& scan.files == files
            &&& begins(scan, action)
        },
    }
}

impl Scan {
    /// Starts a scan. A folder is listed first; a list of files is taken as it
    /// is, and no cache is involved.
    pub fn start(target: ScanTarget, use_cache: bool) -> (begun: (Scan, ScanAction))
        ensures
            started(target, use_cache, begun.0, begun.1),
    {
        match target {
            ScanTarget::Folder(folder) => {
                let action = ScanAction::List(folder.clone());
                let scan = Scan {
                    stage: Stage::List,
                    folder: Some(folder),
                    use_cache,
                    files: Vec::new(),
                    next: 0,
                    old_cache: None,
                    fresh_cache: None,
                    any_miss: false,
                };
                (scan, action)
            },
            ScanTarget::Files(files) => {
                let action = ScanAction::Emit(ScanEvent::Started { total: files.len() });
                let scan = Scan {
                    stage: Stage::Begin,
                    folder: None,
                    use_cache: false,
                    files,
                    next: 0,
                    old_cache: None,
                    fresh_cache: None,
                    any_miss: false,
                };
                (scan, action)
            },
        }
    }

    fn at(self, stage: Stage) -> (scan: Scan)
        ensures
            scan.moved_on(self),
            scan.stage == stage,
    {
        let mut scan = self;
        scan.stage = stage;
        scan
    }

    fn end(self) -> (step: (Scan, ScanAction))
        requires
            self.valid(),
        ensures
            ends(self, step.0, step.1),
            step.0.valid(),
    {
        (self.at(Stage::End), ScanAction::Emit(ScanEvent::Done))
    }

    fn stop(self) -> (step: (Scan, ScanAction))
        requires
            self.valid(),
        ensures
            stops(self, step.0, step.1),
            step.0.valid(),
    {
        (self.at(Stage::Over), ScanAction::Stop)
    }

    fn go_on(self) -> (step: (Scan, ScanAction))
        requires
            self.valid(),
        ensures
            goes_on(self, step.0, step.1),
            step.0.valid(),
    {
        if self.next < self.files.len() {
            let path = self.files[self.next].copy();
            return (self.at(Stage::Stat), ScanAction::Stat(path));
        }
        let mut scan = self;
        let worth_storing = match (&scan.fresh_cache, &scan.old_cache) {
            (Some(fresh), Some(old)) => scan.any_miss || old.files.len() != fresh.files.len(),
            _ => false,
        };
        if worth_storing {
            if let Some(fresh) = scan.fresh_cache.take() {
                scan.stage = Stage::Save;
                return (scan, ScanAction::Save(fresh));
            }
        }
        scan.end()
    }

    fn list(self, outcome: Result<Vec<FilePath>, String>) -> (step: (Scan, ScanAction))
        requires
            self.valid(),
            self.stage is List,
        ensures
            stepped(self, ScanInput::Listed(outcome), step.0, step.1),
            step.0.valid(),
    {
        let mut scan = self;
        let folder = match &scan.folder {
            Some(folder) => folder.clone(),
            None => String::new(),
        };
        match outcome {
            Ok(found) => {
                scan.files = list_pngs(found);
                scan.next = 0;
                scan.any_miss = false;
                scan.old_cache = None;
                scan.fresh_cache = Some(FolderCache::empty(folder.as_str()));
                if scan.use_cache {
                    scan.stage = Stage::Load;
                    (scan, ScanAction::Load(folder))
                } else {
                    scan.stage = Stage::Begin;
                    let total = scan.files.len();
                    (scan, ScanAction::Emit(ScanEvent::Started { total }))
                }
            },
            Err(reason) => {
                let message = complain(folder.as_str(), reason.as_str());
                (scan.at(Stage::Close), ScanAction::Emit(ScanEvent::Error(message)))
            },
        }
    }

    fn stat(self, facts: FileFacts) -> (step: (Scan, ScanAction))
        requires
            self.valid(),
            self.stage is Stat,
        ensures
            knows_facts(self, facts, step.0, step.1),
            step.0.valid(),
    {
        let mut scan = self;
        let count = scan.files.len();
        assert(scan.next < count);
        let path = scan.files[scan.next].copy();
        match ask_cache(&path, facts, &scan.old_cache, &mut scan.fresh_cache) {
            FileStep::Report(event) => {
                scan.next = scan.next + 1;
                scan.stage = Stage::Report;
                (scan, ScanAction::Emit(event))
            },
            FileStep::Read(facts) => {
                scan.any_miss = true;
                scan.stage = Stage::Read(facts);
                (scan, ScanAction::Read(path))
            },
        }
    }

    fn read(self, facts: FileFacts, header: Result<PngHeader, String>) -> (step: (
        Scan,
        ScanAction,
    ))
        requires
            self.valid(),
            self.next < self.files@.len(),
        ensures
            knows_header(self, facts, header, step.0, step.1),
            step.0.valid(),
    {
        let mut scan = self;
        let count = scan.files.len();
        assert(scan.next < count);
        let path = scan.files[scan.next].copy();
        let event = take_header(&path, facts, header, &mut scan.fresh_cache);
        scan.next = scan.next + 1;
        scan.stage = Stage::Report;
        (scan, ScanAction::Emit(event))
    }

    /// Takes the answer to the last action and says what to do next.
    pub fn step(self, input: ScanInput) -> (step: (Scan, ScanAction))
        requires
            self.valid(),
            self.answered_by(input),
        ensures
            stepped(self, input, step.0, step.1),
            step.0.valid(),
    {
        match input {
            ScanInput::Listed(outcome) => self.list(outcome),
            ScanInput::Loaded(cache) => {
                let mut scan = self;
                scan.old_cache = Some(cache);
                scan.stage = Stage::Begin;
                let total = scan.files.len();
                (scan, ScanAction::Emit(ScanEvent::Started { total }))
            },
            ScanInput::Emitted(alive) => match &self.stage {
                Stage::Begin | Stage::Report => if alive {
                    self.go_on()
                } else {
                    self.stop()
                },
                Stage::Close => self.end(),
                _ => self.stop(),
            },
            ScanInput::Facts(facts) => self.stat(facts),
            ScanInput::Header(header) => {
                let mut scan = self;
                let mut stage = Stage::Over;
                std::mem::swap(&mut stage, &mut scan.stage);
                match stage {
                    Stage::Read(facts) => scan.read(facts, header),
                    _ => scan.stop(),
                }
            },
            ScanInput::Saved(outcome) => match outcome {
                Ok(_) => self.end(),
                Err(reason) => {
                    let message = text::concat("metadata cache write failed: ", reason.as_str());
                    (self.at(Stage::Close), ScanAction::Emit(ScanEvent::Error(message)))
                },
            },
        }
    }
}

// ---------------------------------------------------------------------------
// Laws
// ---------------------------------------------------------------------------

/// Whether an action reports a file.
pub open spec fn reports_a_file(action: ScanAction) -> bool {
    action matches ScanAction::Emit(event) && (event is Entry || event is Error)
}

/// Step by step, every listed file produces exactly one entry or error: a step
/// that moves on by one file reports it, a step that does not reports none, save
/// the two complaints that close a scan, and the end comes when no file is left.
pub proof fn each_file_is_reported_once(
    before: Scan,
    input: ScanInput,
    after: Scan,
    action: ScanAction,
)
    requires
        before.valid(),
        before.answered_by(input),
        stepped(before, input, after, action),
    ensures
        input is Facts || input is Header || input is Emitted || input is Saved ==> after.files
            == before.files,
        after.stage is Report ==> after.next == before.next + 1 && reports_a_file(action),
        !(after.stage is Report) && !(input is Listed) ==> after.next == before.next,
        reports_a_file(action) ==> after.stage is Report || after.stage is Close,
        (before.stage is Begin || before.stage is Report) && (after.stage is Save
            || after.stage is End) ==> before.next == before.files@.len(),
{
}

/// One step of a scan: the answer that it got, and what it did next.
pub ghost struct Turn {
    pub before: Scan,
    pub input: ScanInput,
    pub after: Scan,
    pub action: ScanAction,
}

/// Where a scan stands after its steps.
pub open spec fn standing(scan: Scan, turns: Seq<Turn>) -> Scan {
    if turns.len() == 0 {
        scan
    } else {
        turns.last().after
    }
}

/// Whether these are the steps of a scan from its start on.
pub open spec fn is_run(scan: Scan, turns: Seq<Turn>) -> bool {
    forall|i: int|
        0 <= i < turns.len() ==> {
            let turn = #[trigger] turns[i];
            &&& turn.before == standing(scan, turns.take(i))
            &&& turn.before.valid()
            &&& turn.before.answered_by(turn.input)
            &&& stepped(turn.before, turn.input, turn.after, turn.action)
            &&& turn.after.valid()
        }
}

/// What an action reports.
pub open spec fn emitted(action: ScanAction) -> Seq<ScanEvent> {
    match action {
        ScanAction::Emit(event) => seq![event],
        _ => Seq::empty(),
    }
}

/// Everything that a scan reported, in order.
pub open spec fn told(first: ScanAction, turns: Seq<Turn>) -> Seq<ScanEvent>
    decreases turns.len(),
{
    if turns.len() == 0 {
        emitted(first)
    } else {
        told(first, turns.drop_last()) + emitted(turns.last().action)
    }
}

/// Whether an event is the report of a file: its image, or an error that names
/// it.
pub open spec fn is_report_of(event: ScanEvent, path: PathModel) -> bool {
    match event {
        ScanEvent::Entry(entry) => entry.path@ == path,
        ScanEvent::Error(message) => exists|reason: Seq<char>|
            message@ == #[trigger] about(path.text, reason),
        _ => false,
    }
}

/// Whether events are the start of a scan and one report for each of the first
/// `count` files, in their order.
pub open spec fn reports_of(files: Seq<PathModel>, count: int, events: Seq<ScanEvent>) -> bool {
    &&& events.len() == count + 1
    &&& events[0] == (ScanEvent::Started { total: files.len() as usize })
    &&& forall|i: int|
        1 <= i <= count ==> is_report_of(#[trigger] events[i], files[i - 1])
}

/// Whether an answer says that a folder could not be listed.
pub open spec fn fails_to_list(input: ScanInput) -> bool {
    input matches ScanInput::Listed(outcome) && outcome is Err
}

/// Whether an answer says that a cache could not be stored.
pub open spec fn fails_to_store(input: ScanInput) -> bool {
    input matches ScanInput::Saved(outcome) && outcome is Err
}

/// Whether a folder could not be listed.
pub open spec fn listing_failed(turns: Seq<Turn>) -> bool {
    turns.len() > 0 && fails_to_list(turns[0].input)
}

/// Whether the cache could not be stored.
pub open spec fn storing_failed(turns: Seq<Turn>) -> bool {
    exists|i: int| 0 <= i < turns.len() && fails_to_store((#[trigger] turns[i]).input)
}

/// Whether a cache was handed over to be stored.
pub open spec fn stored(turns: Seq<Turn>) -> bool {
    exists|i: int| 0 <= i < turns.len() && (#[trigger] turns[i]).action is Save
}

/// Whether nobody took a report of the scan's files any more.
pub open spec fn refused(turn: Turn) -> bool {
    turn.input == ScanInput::Emitted(false) && (turn.before.stage is Begin
        || turn.before.stage is Report)
}

/// Which files a scan is of: the list that it was given, or the `.png` files of
/// its folder by name.
pub open spec fn scans_these(target: ScanTarget, turns: Seq<Turn>, files: Seq<PathModel>) -> bool {
    match target {
        ScanTarget::Files(list) => files == model::path_models(list@),
        ScanTarget::Folder(_) => if turns.len() == 0 || listing_failed(turns) {
            files.len() == 0
        } else {
            turns[0].input matches ScanInput::Listed(outcome) && outcome matches Ok(found)
                && png_listing(model::path_models(found@), files)
        },
    }
}

/// Whether events are all that a scan of these files has to report: its start,
/// one report for each file, a complaint where the cache could not be stored,
/// and the end. Of a folder that could not be listed, only that and the end.
pub open spec fn whole_story(
    turns: Seq<Turn>,
    files: Seq<PathModel>,
    events: Seq<ScanEvent>,
) -> bool {
    let rest = events.drop_last();
    &&& events.len() > 1
    &&& events.last() is Done
    &&& if listing_failed(turns) {
        rest.len() == 1 && rest[0] is Error
    } else if storing_failed(turns) {
        rest.last() is Error && reports_of(files, files.len() as int, rest.drop_last())
    } else {
        reports_of(files, files.len() as int, rest)
    }
}

/// What a scan has reported, by where it stands.
spec fn story_so_far(
    target: ScanTarget,
    turns: Seq<Turn>,
    scan: Scan,
    events: Seq<ScanEvent>,
) -> bool {
    let files = model::path_models(scan.files@);
    &&& scans_these(target, turns, files)
    &&& match scan.stage {
        Stage::List => turns.len() == 0 && events.len() == 0 && target is Folder,
        Stage::Load => events.len() == 0 && scan.next == 0,
        Stage::Close => if listing_failed(turns) {
            events.len() == 1 && events[0] is Error
        } else {
            &&& storing_failed(turns)
            &&& events.len() > 1
            &&& events.last() is Error
            &&& reports_of(files, files.len() as int, events.drop_last())
        },
        Stage::End => whole_story(turns, files, events),
        Stage::Over => whole_story(turns, files, events) || (turns.len() > 0 && refused(
            turns.last(),
        ) && reports_of(files, scan.next as int, events)),
        _ => reports_of(files, scan.next as int, events),
    }
    &&& !(scan.stage is Close) && !(scan.stage is End) && !(scan.stage is Over) ==> !listing_failed(
        turns,
    ) && !storing_failed(turns)
    &&& scan.stage is List || scan.stage is Load || scan.stage is Begin || scan.stage is Stat
        || scan.stage is Read || scan.stage is Report ==> !stored(turns)
    &&& target is Folder && !(scan.stage is List) ==> turns.len() > 0
    &&& scan.stage is Begin ==> scan.next == 0
    &&& scan.stage is Save ==> scan.next == files.len()
}

proof fn storing_fails_in_some_turn(turns: Seq<Turn>)
    requires
        turns.len() > 0,
    ensures
        storing_failed(turns) == (storing_failed(turns.drop_last()) || fails_to_store(
            turns.last().input,
        )),
{
    let before = turns.drop_last();
    if storing_failed(before) {
        let i = choose|i: int|
            0 <= i < before.len() && fails_to_store((#[trigger] before[i]).input);
        assert(turns[i] == before[i]);
    }
    if storing_failed(turns) {
        let i = choose|i: int|
            0 <= i < turns.len() && fails_to_store((#[trigger] turns[i]).input);
        if i < before.len() {
            assert(before[i] == turns[i]);
        }
    }
    if fails_to_store(turns.last().input) {
        assert(turns[turns.len() - 1] == turns.last());
    }
}

proof fn storing_is_some_turn(turns: Seq<Turn>)
    requires
        turns.len() > 0,
    ensures
        stored(turns) == (stored(turns.drop_last()) || turns.last().action is Save),
{
    let before = turns.drop_last();
    if stored(before) {
        let i = choose|i: int| 0 <= i < before.len() && (#[trigger] before[i]).action is Save;
        assert(turns[i] == before[i]);
    }
    if stored(turns) {
        let i = choose|i: int| 0 <= i < turns.len() && (#[trigger] turns[i]).action is Save;
        if i < before.len() {
            assert(before[i] == turns[i]);
        }
    }
    if turns.last().action is Save {
        assert(turns[turns.len() - 1] == turns.last());
    }
}

proof fn one_more_report(
    files: Seq<PathModel>,
    count: int,
    events: Seq<ScanEvent>,
    event: ScanEvent,
)
    requires
        0 <= count < files.len(),
        reports_of(files, count, events),
        is_report_of(event, files[count]),
    ensures
        reports_of(files, count + 1, events.push(event)),
{
}

proof fn a_step_carries_the_story_on(target: ScanTarget, turns: Seq<Turn>, events: Seq<ScanEvent>)
    requires
        turns.len() > 0,
        ({
            let turn = turns.last();
            &&& turn.before.valid()
            &&& turn.before.answered_by(turn.input)
            &&& stepped(turn.before, turn.input, turn.after, turn.action)
            &&& story_so_far(target, turns.drop_last(), turn.before, events)
        }),
    ensures
        story_so_far(
            target,
            turns,
            turns.last().after,
            events + emitted(turns.last().action),
        ),
{
    let turn = turns.last();
    let earlier = turns.drop_last();
    let now = events + emitted(turn.action);
    let files = model::path_models(turn.after.files@);
    storing_fails_in_some_turn(turns);
    storing_is_some_turn(turns);
    if earlier.len() > 0 {
        assert(turns[0] == earlier[0]);
    } else {
        assert(turns[0] == turn);
    }
    assert(events + Seq::<ScanEvent>::empty() =~= events);
    if let ScanAction::Emit(event) = turn.action {
        assert(now =~= events.push(event));
        assert(now.drop_last() =~= events);
    }
    match turn.input {
        ScanInput::Facts(_) | ScanInput::Header(_) => {
            if turn.after.stage is Report {
                let path = files[turn.before.next as int];
                assert(path == turn.before.files@[turn.before.next as int]@);
                let event = turn.action->Emit_0;
                if let ScanInput::Header(Err(reason)) = turn.input {
                    assert(event->Error_0@ == about(path.text, reason@));
                }
                one_more_report(files, turn.before.next as int, events, event);
            }
        },
        _ => {},
    }
}

proof fn a_run_begins_with_a_run(scan: Scan, turns: Seq<Turn>)
    requires
        is_run(scan, turns),
        turns.len() > 0,
    ensures
        is_run(scan, turns.drop_last()),
{
    let earlier = turns.drop_last();
    assert forall|i: int| 0 <= i < earlier.len() implies {
        let turn = #[trigger] earlier[i];
        &&& turn.before == standing(scan, earlier.take(i))
        &&& turn.before.valid()
        &&& turn.before.answered_by(turn.input)
        &&& stepped(turn.before, turn.input, turn.after, turn.action)
        &&& turn.after.valid()
    } by {
        assert(turns[i] == earlier[i]);
        assert(turns.take(i) =~= earlier.take(i));
    }
}

proof fn the_story_of_a_run(
    target: ScanTarget,
    use_cache: bool,
    scan: Scan,
    first: ScanAction,
    turns: Seq<Turn>,
)
    requires
        started(target, use_cache, scan, first),
        is_run(scan, turns),
    ensures
        story_so_far(target, turns, standing(scan, turns), told(first, turns)),
    decreases turns.len(),
{
    if turns.len() > 0 {
        let earlier = turns.drop_last();
        a_run_begins_with_a_run(scan, turns);
        the_story_of_a_run(target, use_cache, scan, first, earlier);
        assert(turns.take(turns.len() - 1) =~= earlier);
        assert(turns[turns.len() - 1] == turns.last());
        a_step_carries_the_story_on(target, turns, told(first, earlier));
    }
}

/// A scan that ran to its end, whose reports were taken, has announced how many
/// files there are, reported each of them exactly once and in their order, and
/// reported the end last. In between comes only the complaint about a cache
/// that could not be stored. A folder that could not be listed gets a complaint
/// and the end.
pub proof fn a_finished_scan_has_told_the_whole_story(
    target: ScanTarget,
    use_cache: bool,
    scan: Scan,
    first: ScanAction,
    turns: Seq<Turn>,
)
    requires
        started(target, use_cache, scan, first),
        is_run(scan, turns),
        standing(scan, turns).stage is Over,
        forall|i: int| 0 <= i < turns.len() ==> !refused(#[trigger] turns[i]),
    ensures
        ({
            let files = model::path_models(standing(scan, turns).files@);
            scans_these(target, turns, files) && whole_story(turns, files, told(first, turns))
        }),
{
    the_story_of_a_run(target, use_cache, scan, first, turns);
    if turns.len() > 0 {
        assert(turns[turns.len() - 1] == turns.last());
    }
}

/// A scan under way has announced how many files there are and reported those
/// that it is done with, each exactly once and in their order.
pub proof fn a_scan_under_way_reports_in_order(
    target: ScanTarget,
    use_cache: bool,
    scan: Scan,
    first: ScanAction,
    turns: Seq<Turn>,
)
    requires
        started(target, use_cache, scan, first),
        is_run(scan, turns),
        ({
            let stage = standing(scan, turns).stage;
            stage is Begin || stage is Stat || stage is Read || stage is Report || stage is Save
        }),
    ensures
        ({
            let now = standing(scan, turns);
            let files = model::path_models(now.files@);
            scans_these(target, turns, files) && reports_of(
                files,
                now.next as int,
                told(first, turns),
            )
        }),
{
    the_story_of_a_run(target, use_cache, scan, first, turns);
}

/// After a refused report nothing more comes: what was reported by then is the
/// start and the files so far, no cache was stored, the scan stops, and no
/// further step is possible.
pub proof fn nothing_follows_a_refusal(
    target: ScanTarget,
    use_cache: bool,
    scan: Scan,
    first: ScanAction,
    turns: Seq<Turn>,
    more: Turn,
)
    requires
        started(target, use_cache, scan, first),
        is_run(scan, turns),
        turns.len() > 0,
        refused(turns.last()),
    ensures
        ({
            let now = standing(scan, turns);
            &&& turns.last().action is Stop
            &&& !stored(turns)
            &&& told(first, turns) == told(first, turns.drop_last())
            &&& reports_of(model::path_models(now.files@), now.next as int, told(first, turns))
            &&& !is_run(scan, turns.push(more))
        }),
{
    let earlier = turns.drop_last();
    the_story_of_a_run(target, use_cache, scan, first, turns);
    assert(turns[turns.len() - 1] == turns.last());
    assert(told(first, turns) =~= told(first, earlier));
    a_run_begins_with_a_run(scan, turns);
    the_story_of_a_run(target, use_cache, scan, first, earlier);
    storing_is_some_turn(turns);
    assert(turns.take(turns.len() - 1) =~= earlier);
    let longer = turns.push(more);
    if is_run(scan, longer) {
        assert(longer[turns.len() as int] == more);
        assert(longer.take(turns.len() as int) =~= turns);
        assert(more.before.answered_by(more.input));
    }
}

/// A scan whose report nobody took stops at once: it stores no cache and
/// reports nothing more.
pub proof fn a_superseded_scan_stops(before: Scan, after: Scan, action: ScanAction)
    requires
        before.valid(),
        before.stage is Begin || before.stage is Report,
        stepped(before, ScanInput::Emitted(false), after, action),
    ensures
        action is Stop,
        after.stage is Over,
{
}

/// A cache is stored only at the end of a scan that read one before and learned
/// something, and what is stored is the fresh one.
pub proof fn a_cache_is_stored_only_when_it_changed(
    before: Scan,
    input: ScanInput,
    after: Scan,
    action: ScanAction,
)
    requires
        before.valid(),
        before.answered_by(input),
        stepped(before, input, after, action),
        action is Save,
    ensures
        before.next == before.files@.len(),
        before.worth_storing(),
        before.fresh_cache == Some(action->Save_0),
{
}

/// Whether a scan keeps clear of caches, as that of a list of files does.
pub open spec fn without_cache(scan: Scan) -> bool {
    scan.folder is None && scan.old_cache is None && scan.fresh_cache is None
}

proof fn a_step_keeps_clear_of_caches(
    before: Scan,
    input: ScanInput,
    after: Scan,
    action: ScanAction,
)
    requires
        before.valid(),
        before.answered_by(input),
        stepped(before, input, after, action),
        without_cache(before),
    ensures
        without_cache(after),
        !(action is Load) && !(action is Save),
{
}

proof fn the_last_step_keeps_clear_of_caches(scan: Scan, turns: Seq<Turn>)
    requires
        is_run(scan, turns),
        turns.len() > 0,
        without_cache(standing(scan, turns.drop_last())),
    ensures
        without_cache(turns.last().after),
        !(turns.last().action is Load) && !(turns.last().action is Save),
{
    assert(turns.take(turns.len() - 1) =~= turns.drop_last());
    let turn = turns[turns.len() - 1];
    a_step_keeps_clear_of_caches(turn.before, turn.input, turn.after, turn.action);
}

/// Whether some step of a scan has to do with a cache.
pub open spec fn handles_cache(turns: Seq<Turn>) -> bool {
    exists|i: int|
        0 <= i < turns.len() && ((#[trigger] turns[i]).action is Load || turns[i].action is Save)
}

/// A scan of a list of files neither loads nor stores a cache, from its start
/// on.
#[verifier::spinoff_prover]
pub proof fn a_list_of_files_is_never_cached(
    target: ScanTarget,
    use_cache: bool,
    scan: Scan,
    first: ScanAction,
    turns: Seq<Turn>,
)
    requires
        target is Files,
        started(target, use_cache, scan, first),
        is_run(scan, turns),
    ensures
        without_cache(standing(scan, turns)),
        !(first is Load) && !(first is Save),
        !handles_cache(turns),
        forall|i: int|
            0 <= i < turns.len() ==> !((#[trigger] turns[i]).action is Load) && !(turns[i].action
                is Save),
    decreases turns.len(),
{
    if turns.len() > 0 {
        let earlier = turns.drop_last();
        a_run_begins_with_a_run(scan, turns);
        a_list_of_files_is_never_cached(target, use_cache, scan, first, earlier);
        the_last_step_keeps_clear_of_caches(scan, turns);
        one_more_turn_handles_no_cache(turns);
    }
}

proof fn one_more_turn_handles_no_cache(turns: Seq<Turn>)
    requires
        turns.len() > 0,
        !handles_cache(turns.drop_last()),
        !(turns.last().action is Load) && !(turns.last().action is Save),
    ensures
        !handles_cache(turns),
{
    if handles_cache(turns) {
        let i = choose|i: int|
            0 <= i < turns.len() && ((#[trigger] turns[i]).action is Load || turns[i].action
                is Save);
        if i < turns.len() - 1 {
            assert(turns.drop_last()[i] == turns[i]);
        }
    }
}

/// A file that is as its record says is not opened: the scan reports it from
/// the cache and never asks for its header.
pub proof fn an_unchanged_file_is_not_opened(
    before: Scan,
    facts: FileFacts,
    after: Scan,
    action: ScanAction,
)
    requires
        before.valid(),
        before.stage is Stat,
        stepped(before, ScanInput::Facts(facts), after, action),
        cached_record(
            before.old_cache,
            before.files@[before.next as int]@.file_name,
            facts,
        ) is Some,
    ensures
        !(action is Read),
        after.any_miss == before.any_miss,
        after.next == before.next + 1,
{
}

} // verus!
