//! Scans, caches and times.

use vstd::prelude::*;

use crate::cache::{self, CacheModel, FileModel, SaveStep};
use crate::chunks::PngHeader;
use crate::clock::{self, Distance, Stamp};
use crate::index;
use crate::json::{self, JsonTree};
use crate::laws::actions;
use crate::laws::order;
use crate::laws::texts;
use crate::lists;
use crate::model::{self, ChunkModel, FileMeta, FilePath, ImageEntry, PathModel};
use crate::scan::{
    self, FileFacts, Scan, ScanAction, ScanEvent, ScanInput, ScanTarget, Stage,
};
use crate::sorting;
use crate::table::{self, Reading};
use crate::text::{self, Rank};
use std::hash::DefaultHasher;
use std::time::SystemTime;
use vstd::std_specs::hash::DefaultHasherAdditionalSpecFns;

verus! {

// ---------------------------------------------------------------------------
// Listing
// ---------------------------------------------------------------------------

/// A folder's files are its entries that end in `.png`, each as often as it is
/// there, and their names never fall, byte by byte.
pub proof fn a_listing_has_the_images_by_name(
    found: Seq<PathModel>,
    files: Seq<PathModel>,
    i: int,
    j: int,
)
    requires
        scan::png_listing(found, files),
    ensures
        files.to_multiset() == found.filter(
            |path: PathModel| actions::ends_in_png(path),
        ).to_multiset(),
        0 <= i < j < files.len() ==> text::byte_rank(files[i].name_bytes, files[j].name_bytes)
            != Rank::After,
{
    let one = |path: PathModel| scan::is_png(path);
    let other = |path: PathModel| actions::ends_in_png(path);
    let pngs = lists::picked(found, one);
    let at = choose|at: Seq<usize>| #[trigger] sorting::rearranged(files, pngs, at);
    order::sorting_keeps_the_list(files, pngs, at);
    assert forall|k: int| 0 <= k < found.len() implies one(#[trigger] found[k]) == other(
        found[k],
    ) by {
        actions::images_end_in_png(found[k]);
    }
    lists::picked_agrees(found, one, other);
    texts::picking_is_filtering(found, other);
}

// ---------------------------------------------------------------------------
// One file
// ---------------------------------------------------------------------------

/// An entry has the name, the size and the dimensions of its file, and a chunk
/// for each of its texts: the keyword, the bytes of the text, and what the text
/// is.
pub proof fn an_entry_is_that_of_its_file(
    entry: ImageEntry,
    path: PathModel,
    meta: FileMeta,
    chunks: Seq<(Seq<char>, Seq<char>)>,
    i: int,
)
    requires
        entry.made_of(path, meta, chunks),
    ensures
        entry.path@ == path,
        entry.file_name@ == path.file_name,
        entry.file_name_lc@ == text::lowered(path.file_name),
        entry.file_size == meta.size,
        entry.width == meta.width,
        entry.height == meta.height,
        entry.chunks@.len() == chunks.len(),
        0 <= i < chunks.len() ==> entry.chunks@[i]@ == (ChunkModel {
            keyword: chunks[i].0,
            byte_len: vstd::utf8::encode_utf8(chunks[i].1).len(),
            payload: index::payload_of(chunks[i].1),
        }),
        entry.rows@.len() == model::rows_of_image(meta, chunks).len(),
        0 <= i < entry.rows@.len() ==> {
            &&& entry.rows@[i]@ == model::rows_of_image(meta, chunks)[i]
            &&& entry.rows@[i].key_lc@ == text::lowered(entry.rows@[i].key@)
            &&& entry.rows@[i].value_lc@ == text::lowered(entry.rows@[i].value@)
            &&& entry.rows@[i].path_lc@ == text::lowered(entry.rows@[i].path@)
        },
{
    let parsed = chunks.map_values(|chunk: (Seq<char>, Seq<char>)| model::parsed_chunk(chunk));
    let models = model::chunk_models(entry.chunks@);
    assert(models.len() == entry.chunks@.len());
    if 0 <= i < chunks.len() {
        assert(models[i] == parsed[i]);
    }
    let rows = index::row_models(entry.rows@);
    assert(rows.len() == entry.rows@.len());
    if 0 <= i < entry.rows@.len() {
        assert(rows[i] == entry.rows@[i]@);
        assert(entry.rows@[i].valid());
    }
}

/// Whether a cache has a record of this name for a file of this size and this
/// known time.
pub open spec fn still_good(files: Map<Seq<char>, FileModel>, name: Seq<char>, facts: FileFacts) -> bool {
    &&& files.contains_key(name)
    &&& files[name].size == facts.size
    &&& facts.modified_epoch is Some
    &&& files[name].modified_epoch == facts.modified_epoch
}

/// A file that did not change since its record was made is reported from the
/// record, and the record is kept. Every other file is opened.
pub proof fn an_unchanged_file_is_not_opened(
    before: Scan,
    facts: FileFacts,
    after: Scan,
    action: ScanAction,
)
    requires
        before.next < before.files@.len(),
        scan::stepped(before, ScanInput::Facts(facts), after, action),
    ensures
        ({
            let path = before.files@[before.next as int]@;
            let known = before.old_cache is Some && still_good(
                before.old_cache->Some_0@.files,
                path.file_name,
                facts,
            );
            if known {
                let record = before.old_cache->Some_0@.files[path.file_name];
                &&& after.next == before.next + 1
                &&& after.any_miss == before.any_miss
                &&& action is Emit
                &&& action->Emit_0 is Entry
                &&& action->Emit_0->Entry_0.made_of(
                    path,
                    FileMeta {
                        size: facts.size,
                        created: facts.created,
                        modified: facts.modified,
                        width: record.width,
                        height: record.height,
                    },
                    record.chunks,
                )
                &&& before.fresh_cache is Some ==> after.fresh_cache is Some
                    && after.fresh_cache->Some_0@ == (CacheModel {
                    files: before.fresh_cache->Some_0@.files.insert(path.file_name, record),
                    ..before.fresh_cache->Some_0@
                })
                &&& before.fresh_cache is None ==> after.fresh_cache is None
            } else {
                &&& action is Read
                &&& action->Read_0@ == path
                &&& after.stage == Stage::Read(facts)
                &&& after.next == before.next
                &&& after.any_miss
                &&& after.fresh_cache == before.fresh_cache
            }
        }),
        after.files == before.files,
        after.folder == before.folder,
        after.use_cache == before.use_cache,
        after.old_cache == before.old_cache,
{
}

/// A file whose header was read is reported with the dimensions and the texts of
/// the header, and is recorded with them. One that could not be read is reported
/// by its path and the reason, and is not recorded.
pub proof fn an_opened_file_is_reported(
    before: Scan,
    facts: FileFacts,
    header: Result<PngHeader, String>,
    after: Scan,
    action: ScanAction,
)
    requires
        before.next < before.files@.len(),
        before.stage == Stage::Read(facts),
        scan::stepped(before, ScanInput::Header(header), after, action),
    ensures
        after.next == before.next + 1,
        after.files == before.files,
        after.any_miss == before.any_miss,
        after.old_cache == before.old_cache,
        action is Emit,
        header matches Ok(header) ==> {
            let path = before.files@[before.next as int]@;
            let record = FileModel {
                size: facts.size,
                modified_epoch: facts.modified_epoch,
                width: header.width,
                height: header.height,
                chunks: header@.chunks,
            };
            &&& action->Emit_0 is Entry
            &&& action->Emit_0->Entry_0.made_of(
                path,
                FileMeta {
                    size: facts.size,
                    created: facts.created,
                    modified: facts.modified,
                    width: header.width,
                    height: header.height,
                },
                header@.chunks,
            )
            &&& before.fresh_cache is Some ==> after.fresh_cache is Some
                && after.fresh_cache->Some_0@ == (CacheModel {
                files: before.fresh_cache->Some_0@.files.insert(path.file_name, record),
                ..before.fresh_cache->Some_0@
            })
        },
        header matches Err(reason) ==> {
            &&& action->Emit_0 is Error
            &&& action->Emit_0->Error_0@ == before.files@[before.next as int]@.text + ": "@
                + reason@
            &&& after.fresh_cache == before.fresh_cache
        },
{
}

// ---------------------------------------------------------------------------
// A whole scan
// ---------------------------------------------------------------------------

/// A scan of a folder begins by listing it; one of files takes them as they are,
/// and has no cache.
pub proof fn how_a_scan_begins(
    target: ScanTarget,
    use_cache: bool,
    scan: Scan,
    action: ScanAction,
)
    requires
        scan::started(target, use_cache, scan, action),
    ensures
        scan.next == 0,
        !scan.any_miss,
        scan.old_cache is None,
        scan.fresh_cache is None,
        target matches ScanTarget::Folder(folder) ==> {
            &&& action is List
            &&& action->List_0@ == folder@
            &&& scan.folder == Some(folder)
            &&& scan.use_cache == use_cache
        },
        target matches ScanTarget::Files(files) ==> {
            &&& action == ScanAction::Emit(ScanEvent::Started { total: files@.len() as usize })
            &&& scan.files == files
            &&& scan.folder is None
            &&& !scan.use_cache
        },
{
}

/// A listed folder: its cache is loaded where caches are used; else, and once it
/// is loaded, the number of files is announced. The new cache begins empty. A
/// folder that cannot be listed is reported by its path and the reason.
pub proof fn what_follows_a_listing(
    before: Scan,
    found: Vec<FilePath>,
    reason: String,
    stored: cache::FolderCache,
    after: Scan,
    action: ScanAction,
)
    requires
        before.folder is Some,
    ensures
        scan::stepped(before, ScanInput::Listed(Ok(found)), after, action) ==> {
            &&& scan::png_listing(model::path_models(found@), model::path_models(after.files@))
            &&& after.next == 0
            &&& !after.any_miss
            &&& after.old_cache is None
            &&& after.fresh_cache is Some
            &&& after.fresh_cache->Some_0@.version == 1
            &&& after.fresh_cache->Some_0@.folder == before.folder->Some_0@
            &&& after.fresh_cache->Some_0@.files == Map::<Seq<char>, FileModel>::empty()
            &&& before.use_cache ==> action is Load && action->Load_0@ == before.folder->Some_0@
            &&& !before.use_cache ==> action == ScanAction::Emit(
                ScanEvent::Started { total: after.files@.len() as usize },
            )
        },
        scan::stepped(before, ScanInput::Listed(Err(reason)), after, action) ==> {
            &&& action is Emit
            &&& action->Emit_0 is Error
            &&& action->Emit_0->Error_0@ == before.folder->Some_0@ + ": "@ + reason@
            &&& after.stage is Close
        },
        scan::stepped(before, ScanInput::Loaded(stored), after, action) ==> {
            &&& action == ScanAction::Emit(
                ScanEvent::Started { total: after.files@.len() as usize },
            )
            &&& after.old_cache == Some(stored)
            &&& after.files == before.files
            &&& after.fresh_cache == before.fresh_cache
            &&& after.next == before.next
            &&& after.any_miss == before.any_miss
        },
{
}

/// While somebody listens, the next file follows each report. After the last
/// one, the cache is stored where it was loaded and either some file was opened
/// or the number of files changed; then the end is told. Where nobody listens
/// any more, the scan stops.
pub proof fn what_follows_a_report(
    before: Scan,
    alive: bool,
    reason: String,
    after: Scan,
    action: ScanAction,
)
    requires
        before.stage is Begin || before.stage is Report,
    ensures
        scan::stepped(before, ScanInput::Emitted(alive), after, action) ==> {
            &&& after.files == before.files
            &&& after.next == before.next
            &&& !alive ==> action is Stop
            &&& alive && before.next < before.files@.len() ==> action is Stat && action->Stat_0@
                == before.files@[before.next as int]@
            &&& alive && before.next >= before.files@.len() ==> {
                let changed = before.fresh_cache is Some && before.old_cache is Some && (
                before.any_miss || before.fresh_cache->Some_0@.files.dom().len()
                    != before.old_cache->Some_0@.files.dom().len());
                &&& changed ==> action == ScanAction::Save(before.fresh_cache->Some_0)
                &&& !changed ==> action == ScanAction::Emit(ScanEvent::Done)
            }
        },
        scan::stepped(before, ScanInput::Saved(Ok(())), after, action) ==> action
            == ScanAction::Emit(ScanEvent::Done),
        scan::stepped(before, ScanInput::Saved(Err(reason)), after, action) ==> {
            &&& action is Emit
            &&& action->Emit_0 is Error
            &&& action->Emit_0->Error_0@ == "metadata cache write failed: "@ + reason@
            &&& after.stage is Close
        },
{
}

// ---------------------------------------------------------------------------
// Caches
// ---------------------------------------------------------------------------

/// A stored cache is taken where it is of the present version and of this very
/// folder; else the folder has an empty one.
pub proof fn only_a_fitting_cache_is_taken(stored: CacheModel, folder: Seq<char>)
    ensures
        stored.version == 1 && stored.folder == folder ==> cache::loaded(Some(stored), folder)
            == stored,
        stored.version != 1 || stored.folder != folder ==> cache::loaded(Some(stored), folder) == (
        CacheModel { version: 1, folder, files: Map::empty() }),
        cache::loaded(None, folder) == (CacheModel { version: 1, folder, files: Map::empty() }),
{
}

/// A record is good for a file with the same size and the same known time.
pub proof fn a_record_goes_by_size_and_time(file: FileModel, size: u64, time: i64)
    ensures
        cache::unchanged(file, size, Some(time)) <==> file.size == size && file.modified_epoch
            == Some(time),
        !cache::unchanged(file, size, None),
{
}

/// What a hexadecimal digit is worth.
pub open spec fn digit_worth(c: char) -> int {
    if '0' <= c && c <= '9' {
        c as int - '0' as int
    } else {
        c as int - 'a' as int + 10
    }
}

/// What hexadecimal digits are worth, the most significant first.
pub open spec fn hex_worth(digits: Seq<char>) -> int
    decreases digits.len(),
{
    if digits.len() == 0 {
        0
    } else {
        16 * hex_worth(digits.drop_last()) + digit_worth(digits.last())
    }
}

/// One more than the largest number that has this many hexadecimal digits.
pub open spec fn hex_limit(count: nat) -> int
    decreases count,
{
    if count == 0 {
        1
    } else {
        16 * hex_limit((count - 1) as nat)
    }
}

/// A number is written in as many digits as are asked for, from `0` to `9` and
/// `a` to `f`, and the digits are worth the number.
pub proof fn hex_digits_are_worth_their_number(n: int, count: nat)
    requires
        0 <= n < hex_limit(count),
    ensures
        cache::hex(n, count).len() == count,
        hex_worth(cache::hex(n, count)) == n,
        forall|i: int|
            0 <= i < count ==> {
                let c = #[trigger] cache::hex(n, count)[i];
                ('0' <= c && c <= '9') || ('a' <= c && c <= 'f')
            },
    decreases count,
{
    if count > 0 {
        hex_digits_are_worth_their_number(n / 16, (count - 1) as nat);
        let digits = cache::hex(n, count);
        assert(digits.drop_last() =~= cache::hex(n / 16, (count - 1) as nat));
        assert forall|i: int| 0 <= i < count implies {
            let c = #[trigger] digits[i];
            ('0' <= c && c <= '9') || ('a' <= c && c <= 'f')
        } by {
            if i < count - 1 {
                assert(digits[i] == cache::hex(n / 16, (count - 1) as nat)[i]);
            }
        }
    }
}

/// A folder's cache is named by the sixteen digits of the hash of its path in
/// lower case, so folders that differ only in case share it.
pub proof fn a_cache_is_named_by_its_folder(folder: Seq<char>, other: Seq<char>) -> (digits: Seq<
    char,
>)
    ensures
        cache::cache_file_name(folder) == "folder-"@ + digits + ".json.gz"@,
        digits.len() == 16,
        hex_worth(digits) == DefaultHasher::spec_finish(cache::fed(text::lowered(folder))),
        text::lowered(folder) == text::lowered(other) ==> cache::cache_file_name(folder)
            == cache::cache_file_name(other),
{
    let hash = cache::hash_of(text::lowered(folder)) as int;
    reveal_with_fuel(hex_limit, 17);
    hex_digits_are_worth_their_number(hash, 16);
    cache::hex(hash, 16)
}

/// A name stands below a directory behind one separator.
pub proof fn a_name_stands_behind_one_separator(dir: Seq<char>, separator: char, name: Seq<char>)
    ensures
        dir.len() > 0 && dir[dir.len() - 1] != separator ==> cache::below(dir, separator, name)
            == dir + seq![separator] + name,
        cache::below(dir.push(separator), separator, name) == dir + seq![separator] + name,
        cache::below(Seq::empty(), separator, name) == name,
{
    assert(dir.push(separator) =~= dir + seq![separator]);
    assert(Seq::<char>::empty() + name =~= name);
}

/// Before a cache replaces the old one it is written beside it, with the process
/// in place of the last extension.
pub proof fn a_cache_is_first_written_beside(stem: Seq<char>, extension: Seq<char>, process: nat)
    requires
        !extension.contains('.'),
    ensures
        cache::sibling(stem + seq!['.'] + extension, process) == stem + ".tmp-"@ + text::decimal(
            process,
        ),
        cache::sibling(extension, process) == extension + ".tmp-"@ + text::decimal(process),
{
    let path = stem + seq!['.'] + extension;
    texts::the_last_place_has_none_behind(stem, '.', extension);
    assert(path =~= stem.push('.') + extension);
    assert(path.take(stem.len() as int) =~= stem);
}

/// Saving takes six steps, one after the other, and a failure is told with the
/// step at which it came.
pub proof fn saving_takes_six_steps()
    ensures
        cache::save_step_after(SaveStep::CreateDir) == Some(SaveStep::CreateFile),
        cache::save_step_after(SaveStep::CreateFile) == Some(SaveStep::Encode),
        cache::save_step_after(SaveStep::Encode) == Some(SaveStep::Finish),
        cache::save_step_after(SaveStep::Finish) == Some(SaveStep::Flush),
        cache::save_step_after(SaveStep::Flush) == Some(SaveStep::Replace),
        cache::save_step_after(SaveStep::Replace) is None,
        cache::save_complaint(SaveStep::CreateDir) == "create cache dir failed: "@,
        cache::save_complaint(SaveStep::CreateFile) == "create cache file failed: "@,
        cache::save_complaint(SaveStep::Encode) == "encode cache failed: "@,
        cache::save_complaint(SaveStep::Finish) == "finish cache failed: "@,
        cache::save_complaint(SaveStep::Flush) == "flush cache failed: "@,
        cache::save_complaint(SaveStep::Replace) == "replace cache failed: "@,
{
}

// ---------------------------------------------------------------------------
// Times
// ---------------------------------------------------------------------------

/// A moment is as far from the epoch as its seconds and nanoseconds say, on the
/// side that it says.
pub proof fn a_distance_counts_nanoseconds(distance: Distance)
    ensures
        !distance.before ==> distance.nanos_from_epoch() == distance.secs * 1_000_000_000
            + distance.nanos,
        distance.before ==> distance.nanos_from_epoch() == -(distance.secs * 1_000_000_000
            + distance.nanos),
{
}

/// A stamp has the last whole second that is not after its moment, and the cache
/// counts whole seconds towards the epoch on either side of it.
pub proof fn seconds_are_rounded(stamp: Stamp, nanos: int)
    ensures
        clock::stamps(stamp, nanos) ==> stamp.epoch * 1_000_000_000 <= nanos < (stamp.epoch + 1)
            * 1_000_000_000,
        clock::has_date(nanos) <==> -8_334_601_228_800 * 1_000_000_000 <= nanos
            < 8_210_266_876_800 * 1_000_000_000,
        nanos >= 0 ==> {
            let seconds = cache::truncated_seconds(nanos);
            seconds >= 0 && seconds * 1_000_000_000 <= nanos < (seconds + 1) * 1_000_000_000
        },
        cache::truncated_seconds(-nanos) == -cache::truncated_seconds(nanos),
{
}

/// A file's times are dated where they are known and the calendar has a date for
/// them, and a stamp belongs to a time that is known.
pub proof fn known_times_are_stamped(stamp: Stamp, time: SystemTime)
    ensures
        scan::dated(Some(time)) <==> clock::has_date(clock::instant_nanos(time)),
        scan::dated(None),
        scan::stamped(Some(stamp), Some(time)) <==> clock::stamps(stamp, clock::instant_nanos(time)),
        scan::stamped(None, None),
        !scan::stamped(Some(stamp), None),
        !scan::stamped(None, Some(time)),
{
}

/// The text of a stamp is one that some time zone has for the moment: its second
/// and the nanoseconds within.
pub proof fn a_stamp_shows_its_moment(stamp: Stamp, second: int, nanos: int)
    requires
        0 <= nanos < 1_000_000_000,
        clock::stamps(stamp, second * 1_000_000_000 + nanos),
    ensures
        stamp.epoch == second,
        clock::shown_in_some_zone(second, nanos, stamp.text@),
{
}

// ---------------------------------------------------------------------------
// Numbers and documents
// ---------------------------------------------------------------------------

/// A double's bits read as they stand up to those of the infinite one, the sign
/// turns them round, and beyond they are no number.
pub proof fn bits_read_as_they_stand(bits: u64)
    requires
        bits < 0x8000_0000_0000_0000,
    ensures
        bits <= 0x7ff0_0000_0000_0000 ==> table::bits_read(bits) == Reading::Value(bits as i128),
        bits <= 0x7ff0_0000_0000_0000 ==> table::bits_read(
            (bits + 0x8000_0000_0000_0000) as u64,
        ) == Reading::Value((-bits) as i128),
        bits > 0x7ff0_0000_0000_0000 ==> table::bits_read(bits) is NotANumber,
        bits > 0x7ff0_0000_0000_0000 ==> table::bits_read(
            (bits + 0x8000_0000_0000_0000) as u64,
        ) is NotANumber,
{
}

/// An entry of an object is found at the first place of its key.
pub proof fn an_entry_is_found_at_its_first_place(
    entries: Seq<(Seq<char>, JsonTree)>,
    key: Seq<char>,
    from: int,
)
    requires
        0 <= from <= entries.len(),
    ensures
        from <= json::entry_at(entries, key, from) <= entries.len(),
        json::entry_at(entries, key, from) < entries.len() ==> entries[json::entry_at(
            entries,
            key,
            from,
        )].0 == key,
        forall|i: int|
            from <= i < json::entry_at(entries, key, from) ==> (#[trigger] entries[i]).0 != key,
    decreases entries.len() - from,
{
    if from < entries.len() && entries[from].0 != key {
        an_entry_is_found_at_its_first_place(entries, key, from + 1);
    }
}

} // verus!
