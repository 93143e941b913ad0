//! Per-folder metadata cache: lets a folder scan skip re-reading PNG headers
//! for files whose name, size and modification time are unchanged since last
//! time.
//!
//! One gzip-compressed file per folder, named by a hash of the folder path. A
//! cache stores exactly what [`crate::model::ImageEntry::from_parts`] needs:
//! file facts plus the raw text chunks, so a hit rebuilds an entry without
//! touching the PNG.

use vstd::prelude::*;

use crate::chunks::{self, TextChunk};
use crate::clock::{self, distance_from_epoch};
use crate::text::{self, lowercase, same_text};
use std::hash::{DefaultHasher, Hash, Hasher};
use std::io::{Read, Write};
use std::time::SystemTime;
use vstd::hash_map::StringHashMap;
use vstd::std_specs::hash::DefaultHasherAdditionalSpecFns;

verus! {

/// Bump whenever the schema, or anything upstream that shapes the cached data,
/// changes incompatibly. Old caches are discarded, never migrated.
pub const CACHE_VERSION: u32 = 1;

/// A raw text chunk, exactly as decoded from the PNG.
#[derive(Debug)]
pub struct CachedChunk {
    pub keyword: String,
    pub text: String,
}

impl View for CachedChunk {
    type V = (Seq<char>, Seq<char>);

    open spec fn view(&self) -> (Seq<char>, Seq<char>) {
        (self.keyword@, self.text@)
    }
}

/// Cached chunks as mathematical values.
pub open spec fn cached_texts(chunks: Seq<CachedChunk>) -> Seq<(Seq<char>, Seq<char>)> {
    chunks.map_values(|chunk: CachedChunk| chunk@)
}

/// One PNG's cached facts. `size` and `modified_epoch` are the change detector:
/// same name, same size, same time, and the text chunks are taken as current.
#[derive(Debug)]
pub struct CachedFile {
    pub size: u64,
    pub modified_epoch: Option<i64>,
    pub width: u32,
    pub height: u32,
    pub chunks: Vec<CachedChunk>,
}

/// A [`CachedFile`] as a mathematical value.
pub ghost struct FileModel {
    pub size: u64,
    pub modified_epoch: Option<i64>,
    pub width: u32,
    pub height: u32,
    pub chunks: Seq<(Seq<char>, Seq<char>)>,
}

impl View for CachedFile {
    type V = FileModel;

    open spec fn view(&self) -> FileModel {
        FileModel {
            size: self.size,
            modified_epoch: self.modified_epoch,
            width: self.width,
            height: self.height,
            chunks: cached_texts(self.chunks@),
        }
    }
}

impl CachedFile {
    /// A copy of the record.
    pub fn copy(&self) -> (file: CachedFile)
        ensures
            file@ == self@,
    {
        let mut copies: Vec<CachedChunk> = Vec::new();
        assert(cached_texts(copies@) =~= cached_texts(self.chunks@).take(0));
        for i in 0..self.chunks.len()
            invariant
                cached_texts(copies@) == cached_texts(self.chunks@).take(i as int),
        {
            let ghost before = copies@;
            let chunk = &self.chunks[i];
            let copy = CachedChunk { keyword: chunk.keyword.clone(), text: chunk.text.clone() };
            copies.push(copy);
            assert(cached_texts(copies@) =~= cached_texts(before).push(chunk@));
            assert(cached_texts(self.chunks@).take(i + 1) =~= cached_texts(self.chunks@).take(
                i as int,
            ).push(chunk@));
        }
        assert(cached_texts(self.chunks@).take(self.chunks@.len() as int) =~= cached_texts(
            self.chunks@,
        ));
        CachedFile {
            size: self.size,
            modified_epoch: self.modified_epoch,
            width: self.width,
            height: self.height,
            chunks: copies,
        }
    }

    /// The record of a file just read.
    pub fn of_header(size: u64, modified_epoch: Option<i64>, header: &chunks::PngHeader) -> (file:
        CachedFile)
        ensures
            file@ == (FileModel {
                size,
                modified_epoch,
                width: header.width,
                height: header.height,
                chunks: header@.chunks,
            }),
    {
        let mut copies: Vec<CachedChunk> = Vec::new();
        let ghost all = chunks::chunk_texts(header.text_chunks@);
        assert(cached_texts(copies@) =~= all.take(0));
        for i in 0..header.text_chunks.len()
            invariant
                all == chunks::chunk_texts(header.text_chunks@),
                cached_texts(copies@) == all.take(i as int),
        {
            let ghost before = copies@;
            let chunk = &header.text_chunks[i];
            let copy = CachedChunk { keyword: chunk.keyword.clone(), text: chunk.text.clone() };
            copies.push(copy);
            assert(cached_texts(copies@) =~= cached_texts(before).push(chunk@));
            assert(all.take(i + 1) =~= all.take(i as int).push(chunk@));
        }
        assert(all.take(header.text_chunks@.len() as int) =~= all);
        CachedFile {
            size,
            modified_epoch,
            width: header.width,
            height: header.height,
            chunks: copies,
        }
    }

    /// The text chunks of the record.
    pub fn text_chunks(&self) -> (copies: Vec<TextChunk>)
        ensures
            chunks::chunk_texts(copies@) == self@.chunks,
    {
        let mut copies: Vec<TextChunk> = Vec::new();
        let ghost all = cached_texts(self.chunks@);
        assert(chunks::chunk_texts(copies@) =~= all.take(0));
        for i in 0..self.chunks.len()
            invariant
                all == cached_texts(self.chunks@),
                chunks::chunk_texts(copies@) == all.take(i as int),
        {
            let ghost before = copies@;
            let chunk = &self.chunks[i];
            let copy = TextChunk { keyword: chunk.keyword.clone(), text: chunk.text.clone() };
            copies.push(copy);
            assert(chunks::chunk_texts(copies@) =~= chunks::chunk_texts(before).push(chunk@));
            assert(all.take(i + 1) =~= all.take(i as int).push(chunk@));
        }
        assert(all.take(self.chunks@.len() as int) =~= all);
        copies
    }
}

// ---------------------------------------------------------------------------
// Records by file name
// ---------------------------------------------------------------------------

/// Cached records by file name, which also keeps the order in which the names
/// first came.
pub struct FileTable {
    entries: Vec<(String, CachedFile)>,
    places: StringHashMap<usize>,
}

impl View for FileTable {
    type V = Map<Seq<char>, FileModel>;

    closed spec fn view(&self) -> Map<Seq<char>, FileModel> {
        Map::new(
            |name: Seq<char>| self.places@.contains_key(name),
            |name: Seq<char>| self.entries@[self.places@[name] as int].1@,
        )
    }
}

impl FileTable {
    /// Whether names and places agree: each name has its own place.
    pub closed spec fn valid(self) -> bool {
        &&& forall|name: Seq<char>| #[trigger]
            self.places@.contains_key(name) ==> self.places@[name] < self.entries@.len()
                && self.entries@[self.places@[name] as int].0@ == name
        &&& forall|i: int|
            0 <= i < self.entries@.len() ==> self.places@.contains_key(
                (#[trigger] self.entries@[i]).0@,
            ) && self.places@[self.entries@[i].0@] == i
    }

    /// The names in the order in which they first came.
    pub closed spec fn names(self) -> Seq<Seq<char>> {
        self.entries@.map_values(|entry: (String, CachedFile)| entry.0@)
    }

    pub fn new() -> (table: FileTable)
        ensures
            table.valid(),
            table@ == Map::<Seq<char>, FileModel>::empty(),
            table.names() == Seq::<Seq<char>>::empty(),
    {
        let table = FileTable { entries: Vec::new(), places: StringHashMap::new() };
        assert(table@ =~= Map::empty());
        assert(table.names() =~= Seq::empty());
        table
    }

    /// Records a file under its name, in place of an earlier record.
    pub fn insert(&mut self, name: String, file: CachedFile)
        requires
            old(self).valid(),
        ensures
            final(self).valid(),
            final(self)@ == old(self)@.insert(name@, file@),
            final(self).names() == (if old(self)@.contains_key(name@) {
                old(self).names()
            } else {
                old(self).names().push(name@)
            }),
    {
        let known = match self.places.get(name.as_str()) {
            Some(at) => Some(*at),
            None => None,
        };
        let ghost wanted = name@;
        match known {
            Some(at) => {
                self.entries.set(at, (name, file));
                assert forall|i: int| 0 <= i < self.entries@.len() implies self.entries@[i].0@ == (
                #[trigger] old(self).entries@[i]).0@ by {}
                assert forall|i: int| 0 <= i < self.entries@.len() implies self.places@.contains_key(
                    (#[trigger] self.entries@[i]).0@,
                ) && self.places@[self.entries@[i].0@] == i by {
                    assert(old(self).entries@[i].0@ == self.entries@[i].0@);
                }
                assert(self.names() =~= old(self).names());
            },
            None => {
                let at = self.entries.len();
                self.places.insert(name.clone(), at);
                self.entries.push((name, file));
                assert forall|i: int| 0 <= i < self.entries@.len() implies self.places@.contains_key(
                    (#[trigger] self.entries@[i]).0@,
                ) && self.places@[self.entries@[i].0@] == i by {
                    if i < at {
                        assert(old(self).entries@[i].0@ == self.entries@[i].0@);
                    }
                }
                assert(self.names() =~= old(self).names().push(wanted));
            },
        }
        assert(self@ =~= old(self)@.insert(wanted, file@));
    }

    /// The record under a name.
    pub fn get(&self, name: &str) -> (file: Option<&CachedFile>)
        requires
            self.valid(),
        ensures
            match file {
                Some(file) => self@.contains_key(name@) && file@ == self@[name@],
                None => !self@.contains_key(name@),
            },
    {
        match self.places.get(name) {
            Some(at) => Some(&self.entries[*at].1),
            None => None,
        }
    }

    pub fn contains_key(&self, name: &str) -> (found: bool)
        ensures
            found == self@.contains_key(name@),
    {
        self.places.contains_key(name)
    }

    /// How many names there are.
    pub fn len(&self) -> (count: usize)
        ensures
            count == self@.dom().len(),
    {
        assert(self@.dom() =~= self.places@.dom());
        self.places.len()
    }

    pub fn is_empty(&self) -> (empty: bool)
        ensures
            empty == (self@.dom().len() == 0),
    {
        self.len() == 0
    }

    /// The records with their names, in the order in which the names came.
    pub fn entries(&self) -> (entries: &Vec<(String, CachedFile)>)
        requires
            self.valid(),
        ensures
            entries@.map_values(|entry: (String, CachedFile)| entry.0@) == self.names(),
            forall|i: int|
                0 <= i < entries@.len() ==> self@.contains_key((#[trigger] entries@[i]).0@)
                    && entries@[i].1@ == self@[entries@[i].0@],
    {
        &self.entries
    }
}

// ---------------------------------------------------------------------------
// A folder's cache
// ---------------------------------------------------------------------------

/// Everything cached for one folder.
pub struct FolderCache {
    pub version: u32,
    /// The folder this cache describes: guards against path-hash collisions.
    pub folder: String,
    /// Keyed by file name; the folder prefix is implied.
    pub files: FileTable,
}

/// A [`FolderCache`] as a mathematical value.
pub ghost struct CacheModel {
    pub version: u32,
    pub folder: Seq<char>,
    pub files: Map<Seq<char>, FileModel>,
}

impl View for FolderCache {
    type V = CacheModel;

    open spec fn view(&self) -> CacheModel {
        CacheModel { version: self.version, folder: self.folder@, files: self.files@ }
    }
}

/// A cache with no files.
pub open spec fn empty_cache(folder: Seq<char>) -> CacheModel {
    CacheModel { version: CACHE_VERSION, folder, files: Map::empty() }
}

/// A cache as it was found stored: everything in it may be wrong.
pub struct StoredCache {
    pub version: u32,
    pub folder: String,
    pub files: FileTable,
}

/// The cache of a folder, given what was found stored for it: the stored one
/// where version and folder fit, else an empty one.
pub open spec fn loaded(stored: Option<CacheModel>, folder: Seq<char>) -> CacheModel {
    match stored {
        Some(cache) => if cache.version == CACHE_VERSION && cache.folder == folder {
            cache
        } else {
            empty_cache(folder)
        },
        None => empty_cache(folder),
    }
}

/// Whether a record is still good for a file of this size and time. An unknown
/// time never is: it cannot be checked.
pub open spec fn unchanged(file: FileModel, size: u64, modified_epoch: Option<i64>) -> bool {
    modified_epoch is Some && file.modified_epoch == modified_epoch && file.size == size
}

impl FolderCache {
    /// Whether the table of files is sound.
    pub open spec fn valid(self) -> bool {
        self.files.valid()
    }

    pub fn empty(folder: &str) -> (cache: FolderCache)
        ensures
            cache.valid(),
            cache@ == empty_cache(folder@),
    {
        FolderCache { version: CACHE_VERSION, folder: folder.to_owned(), files: FileTable::new() }
    }

    /// The cache for `folder`, from what was found stored, if anything could be
    /// read. A missing, corrupt, version-mismatched, or hash-collided cache all
    /// just mean "scan everything fresh".
    /// Folders are compared as texts, so whoever reads the stored cache settles
    /// two spellings of one path before.
    pub fn load(stored: Option<StoredCache>, folder: &str) -> (cache: FolderCache)
        requires
            stored matches Some(stored) ==> stored.files.valid(),
        ensures
            cache.valid(),
            cache@ == loaded(
                match stored {
                    Some(stored) => Some(
                        CacheModel {
                            version: stored.version,
                            folder: stored.folder@,
                            files: stored.files@,
                        },
                    ),
                    None => None,
                },
                folder@,
            ),
    {
        if let Some(stored) = stored {
            if stored.version == CACHE_VERSION && same_text(stored.folder.as_str(), folder) {
                return FolderCache {
                    version: stored.version,
                    folder: stored.folder,
                    files: stored.files,
                };
            }
        }
        FolderCache::empty(folder)
    }

    /// Records a file.
    pub fn record(&mut self, name: String, file: CachedFile)
        requires
            old(self).valid(),
        ensures
            final(self).valid(),
            final(self)@ == (CacheModel {
                files: old(self)@.files.insert(name@, file@),
                ..old(self)@
            }),
    {
        self.files.insert(name, file);
    }

    /// The cached record for `file_name`, but only when the change detector
    /// still matches. An unknown modification time never hits.
    pub fn lookup(&self, file_name: &str, size: u64, modified_epoch: Option<i64>) -> (hit: Option<
        &CachedFile,
    >)
        requires
            self.valid(),
        ensures
            match hit {
                Some(file) => self@.files.contains_key(file_name@) && file@
                    == self@.files[file_name@] && unchanged(file@, size, modified_epoch),
                None => !self@.files.contains_key(file_name@) || !unchanged(
                    self@.files[file_name@],
                    size,
                    modified_epoch,
                ),
            },
    {
        let cached = match self.files.get(file_name) {
            Some(cached) => cached,
            None => {
                return None;
            },
        };
        let valid = match (cached.modified_epoch, modified_epoch) {
            (Some(then), Some(now)) => then == now && cached.size == size,
            _ => false,
        };
        if valid {
            Some(cached)
        } else {
            None
        }
    }
}

// ---------------------------------------------------------------------------
// Where a cache is stored
// ---------------------------------------------------------------------------

/// What hashing a text feeds to a hasher.
pub uninterp spec fn fed(text: Seq<char>) -> Seq<Seq<u8>>;

/// Calls `Hash::hash` on a text: it writes to the hasher what depends on the
/// text alone. What that is is only named.
#[verifier::external_body]
fn feed(hasher: &mut DefaultHasher, text: &str)
    ensures
        final(hasher)@ == old(hasher)@ + fed(text@),
{
    text.hash(hasher)
}

/// The hash of a text.
pub open spec fn hash_of(text: Seq<char>) -> u64 {
    DefaultHasher::spec_finish(fed(text))
}

/// A hexadecimal digit in lower case.
pub open spec fn hex_digit(d: int) -> char {
    if d < 10 {
        (48 + d) as char
    } else {
        (87 + d) as char
    }
}

/// The last `count` hexadecimal digits of a number, leading zeros kept.
pub open spec fn hex(n: int, count: nat) -> Seq<char>
    decreases count,
{
    if count == 0 {
        Seq::empty()
    } else {
        hex(n / 16, (count - 1) as nat).push(hex_digit(n % 16))
    }
}

fn push_hex(text: &mut String, n: u64, count: u32)
    ensures
        final(text)@ == old(text)@ + hex(n as int, count as nat),
    decreases count,
{
    if count > 0 {
        push_hex(text, n / 16, count - 1);
        let d: u8 = (n % 16) as u8;
        text.push(
            if d < 10 {
                (48u8 + d) as char
            } else {
                (87u8 + d) as char
            },
        );
    }
}

/// The file name of a folder's cache: Windows paths are case-insensitive, so
/// the hash is that of the path in lower case.
pub open spec fn cache_file_name(folder: Seq<char>) -> Seq<char> {
    "folder-"@ + hex(hash_of(text::lowered(folder)) as int, 16) + ".json.gz"@
}

/// A name below a directory.
pub open spec fn below(dir: Seq<char>, separator: char, name: Seq<char>) -> Seq<char> {
    if dir.len() == 0 || dir.last() == separator {
        dir + name
    } else {
        dir.push(separator) + name
    }
}

fn file_name_for_hash(hash: u64) -> (name: String)
    ensures
        name@ == "folder-"@ + hex(hash as int, 16) + ".json.gz"@,
{
    let mut name = "folder-".to_owned();
    push_hex(&mut name, hash, 16);
    name.append(".json.gz");
    name
}

/// Stable cache file path for a folder below a directory, given the hash of the
/// folder's path in lower case.
pub fn path_for_hash(cache_dir: &str, separator: char, hash: u64) -> (path: String)
    ensures
        path@ == below(
            cache_dir@,
            separator,
            "folder-"@ + hex(hash as int, 16) + ".json.gz"@,
        ),
{
    let name = file_name_for_hash(hash);
    let chars = text::characters(cache_dir);
    let mut path = cache_dir.to_owned();
    if chars.len() > 0 && chars[chars.len() - 1] != separator {
        path.push(separator);
    }
    path.append(name.as_str());
    path
}

/// Stable cache file path for a folder.
pub fn cache_file_path(cache_dir: &str, separator: char, folder: &str) -> (path: String)
    ensures
        path@ == below(cache_dir@, separator, cache_file_name(folder@)),
{
    let mut hasher = DefaultHasher::new();
    feed(&mut hasher, lowercase(folder).as_str());
    assert(Seq::<Seq<u8>>::empty() + fed(text::lowered(folder@)) =~= fed(text::lowered(folder@)));
    path_for_hash(cache_dir, separator, hasher.finish())
}

/// A moment as whole seconds from the epoch, truncated towards it.
pub open spec fn truncated_seconds(nanos: int) -> int {
    if nanos < 0 {
        -((-nanos) / (clock::NANOS_PER_SECOND as int))
    } else {
        nanos / (clock::NANOS_PER_SECOND as int)
    }
}

/// `SystemTime` to Unix seconds, the cache's stored time representation.
/// Whole-second truncation is deliberate: the comparison happens between two
/// values that both passed through this function, so precision loss cancels.
/// A moment further off than the number can hold wraps around.
pub fn epoch_seconds(time: SystemTime) -> (secs: i64)
    ensures
        secs == truncated_seconds(clock::instant_nanos(time)) as i64,
        i64::MIN <= truncated_seconds(clock::instant_nanos(time)) <= i64::MAX ==> secs
            == truncated_seconds(clock::instant_nanos(time)),
{
    let distance = distance_from_epoch(time);
    let secs: i128 = if distance.before {
        -(distance.secs as i128)
    } else {
        distance.secs as i128
    };
    assert(secs == truncated_seconds(clock::instant_nanos(time)));
    #[verifier::truncate]
    (secs as i64)
}

// ---------------------------------------------------------------------------
// Storing
// ---------------------------------------------------------------------------

/// What gzip makes of some bytes at its fastest setting.
pub uninterp spec fn gzipped(data: Seq<u8>) -> Seq<u8>;

/// What gzipped bytes unpack to, where they are whole and sound.
pub uninterp spec fn gunzipped(data: Seq<u8>) -> Option<Seq<u8>>;

/// Calls `flate2::write::GzEncoder` at `Compression::fast()` on a vector, which
/// takes every write. What comes out is only named, as a function of what went
/// in, beside the one promise of the format: it unpacks to what was packed.
#[verifier::external_body]
fn gzip(data: &[u8]) -> (packed: Vec<u8>)
    ensures
        packed@ == gzipped(data@),
        gunzipped(packed@) == Some(data@),
{
    let mut encoder = flate2::write::GzEncoder::new(Vec::new(), flate2::Compression::fast());
    encoder.write_all(data).expect("a vector takes every write");
    encoder.finish().expect("a vector takes every write")
}

/// Calls `flate2::read::GzDecoder` and reads it to its end. What the bytes
/// unpack to is only named, as a function of the bytes.
#[verifier::external_body]
fn gunzip(data: &[u8]) -> (unpacked: Option<Vec<u8>>)
    ensures
        gunzipped(data@) == (match unpacked {
            Some(bytes) => Some(bytes@),
            None => None,
        }),
{
    let mut out = Vec::new();
    flate2::read::GzDecoder::new(data).read_to_end(&mut out).ok()?;
    Some(out)
}

/// The bytes that a cache file holds for a cache written as JSON. Reading them
/// with [`unpack_cache`] gives the JSON back.
pub fn pack_cache(json: &[u8]) -> (stored: Vec<u8>)
    ensures
        stored@ == gzipped(json@),
        gunzipped(stored@) == Some(json@),
{
    gzip(json)
}

/// The JSON in the bytes of a cache file. Nothing where they are damaged.
pub fn unpack_cache(stored: &[u8]) -> (json: Option<Vec<u8>>)
    ensures
        gunzipped(stored@) == (match json {
            Some(bytes) => Some(bytes@),
            None => None,
        }),
{
    gunzip(stored)
}

/// The steps in which a cache is stored. It is written to a sibling file first
/// and then renamed over the target, so a crash cannot leave a torn cache.
#[derive(Clone, Copy, PartialEq, Eq, Structural, Debug)]
pub enum SaveStep {
    CreateDir,
    CreateFile,
    Encode,
    Finish,
    Flush,
    Replace,
}

/// What follows a step.
pub enum SaveAction {
    Next(SaveStep),
    Saved,
    Failed(String),
}

/// What a failure of a step is reported as, before its cause.
pub open spec fn save_complaint(step: SaveStep) -> Seq<char> {
    match step {
        SaveStep::CreateDir => "create cache dir failed: "@,
        SaveStep::CreateFile => "create cache file failed: "@,
        SaveStep::Encode => "encode cache failed: "@,
        SaveStep::Finish => "finish cache failed: "@,
        SaveStep::Flush => "flush cache failed: "@,
        SaveStep::Replace => "replace cache failed: "@,
    }
}

/// The step after a step that went well.
pub open spec fn save_step_after(step: SaveStep) -> Option<SaveStep> {
    match step {
        SaveStep::CreateDir => Some(SaveStep::CreateFile),
        SaveStep::CreateFile => Some(SaveStep::Encode),
        SaveStep::Encode => Some(SaveStep::Finish),
        SaveStep::Finish => Some(SaveStep::Flush),
        SaveStep::Flush => Some(SaveStep::Replace),
        SaveStep::Replace => None,
    }
}

impl FolderCache {
    /// Takes how a step went and says what follows: the next step, the end, or the
    /// message of the failure.
    pub fn save(step: SaveStep, outcome: Result<(), String>) -> (action: SaveAction)
        ensures
            match outcome {
                Ok(_) => match save_step_after(step) {
                    Some(next) => action == SaveAction::Next(next),
                    None => action is Saved,
                },
                Err(cause) => action is Failed && action->Failed_0@ == save_complaint(step) + cause@,
            },
    {
        match outcome {
            Ok(_) => match step {
                SaveStep::CreateDir => SaveAction::Next(SaveStep::CreateFile),
                SaveStep::CreateFile => SaveAction::Next(SaveStep::Encode),
                SaveStep::Encode => SaveAction::Next(SaveStep::Finish),
                SaveStep::Finish => SaveAction::Next(SaveStep::Flush),
                SaveStep::Flush => SaveAction::Next(SaveStep::Replace),
                SaveStep::Replace => SaveAction::Saved,
            },
            Err(cause) => {
                let complaint = match step {
                    SaveStep::CreateDir => "create cache dir failed: ",
                    SaveStep::CreateFile => "create cache file failed: ",
                    SaveStep::Encode => "encode cache failed: ",
                    SaveStep::Finish => "finish cache failed: ",
                    SaveStep::Flush => "flush cache failed: ",
                    SaveStep::Replace => "replace cache failed: ",
                };
                SaveAction::Failed(text::concat(complaint, cause.as_str()))
            },
        }
    }
}

/// The file that a cache is written to before it replaces the target: the
/// target's path with its last extension replaced. The process id keeps two
/// instances that save the same folder's cache from writing over each other.
pub open spec fn sibling(path: Seq<char>, process: nat) -> Seq<char> {
    let dot = text::last_place(path, '.');
    if dot < 0 {
        path + ".tmp-"@ + text::decimal(process)
    } else {
        path.take(dot) + ".tmp-"@ + text::decimal(process)
    }
}

/// The file that a cache is written to before it replaces the target.
pub fn temp_path(path: &str, process: u32) -> (temp: String)
    ensures
        temp@ == sibling(path@, process as nat),
{
    let chars = text::characters(path);
    let mut temp = match text::find_last(&chars, '.') {
        Some(dot) => {
            assert(path@.subrange(0, dot as int) =~= path@.take(dot as int));
            text::text_between(&chars, 0, dot)
        },
        None => path.to_owned(),
    };
    temp.append(".tmp-");
    text::push_decimal(&mut temp, process as u64);
    temp
}

// ---------------------------------------------------------------------------
// Laws
// ---------------------------------------------------------------------------

/// A cache stored for a folder and loaded for that folder is the same cache.
pub proof fn a_stored_cache_loads_back(cache: CacheModel)
    requires
        cache.version == CACHE_VERSION,
    ensures
        loaded(Some(cache), cache.folder) == cache,
{
}

/// A folder's cache with these records, the later ones in place of earlier ones
/// of the same name.
pub open spec fn filled(folder: Seq<char>, records: Seq<(Seq<char>, FileModel)>) -> CacheModel
    decreases records.len(),
{
    if records.len() == 0 {
        empty_cache(folder)
    } else {
        let before = filled(folder, records.drop_last());
        CacheModel {
            files: before.files.insert(records.last().0, records.last().1),
            ..before
        }
    }
}

proof fn a_filled_cache_keeps_its_folder(folder: Seq<char>, records: Seq<(Seq<char>, FileModel)>)
    ensures
        filled(folder, records).version == CACHE_VERSION,
        filled(folder, records).folder == folder,
    decreases records.len(),
{
    if records.len() > 0 {
        a_filled_cache_keeps_its_folder(folder, records.drop_last());
    }
}

/// What the bytes of a cache file hold, where they unpack and can be read.
pub open spec fn read_back(
    stored: Seq<u8>,
    read: spec_fn(Seq<u8>) -> Option<CacheModel>,
) -> Option<CacheModel> {
    match gunzipped(stored) {
        Some(json) => read(json),
        None => None,
    }
}

/// The cache that a folder gets from a disk, whose files are given by path.
pub open spec fn cache_on_disk(
    disk: Map<Seq<char>, Seq<u8>>,
    dir: Seq<char>,
    separator: char,
    folder: Seq<char>,
    read: spec_fn(Seq<u8>) -> Option<CacheModel>,
) -> CacheModel {
    let path = below(dir, separator, cache_file_name(folder));
    let found = if disk.contains_key(path) {
        read_back(disk[path], read)
    } else {
        None
    };
    loaded(found, folder)
}

/// A cache makes its round trip through the disk: begun empty, filled with any
/// records, written, packed and stored under its folder's name, it is the same
/// cache when it is loaded for that folder. For any other folder that had
/// nothing stored, or whose name leads to the same file, it is not read: that
/// folder gets an empty cache. `json` is what the cache was written as, which
/// `read` reads back, and `stored` is what [`pack_cache`] made of it.
pub proof fn a_cache_comes_back_from_the_disk(
    disk: Map<Seq<char>, Seq<u8>>,
    dir: Seq<char>,
    separator: char,
    folder: Seq<char>,
    records: Seq<(Seq<char>, FileModel)>,
    json: Seq<u8>,
    read: spec_fn(Seq<u8>) -> Option<CacheModel>,
    stored: Seq<u8>,
    other: Seq<char>,
)
    requires
        read(json) == Some(filled(folder, records)),
        gunzipped(stored) == Some(json),
    ensures
        ({
            let path = below(dir, separator, cache_file_name(folder));
            let other_path = below(dir, separator, cache_file_name(other));
            let after = disk.insert(path, stored);
            &&& cache_on_disk(after, dir, separator, folder, read) == filled(folder, records)
            &&& other != folder && (other_path == path || !disk.contains_key(other_path))
                ==> cache_on_disk(after, dir, separator, other, read) == empty_cache(other)
        }),
{
    a_filled_cache_keeps_its_folder(folder, records);
}

/// A cache of another folder or another version is never read: the folder
/// starts with an empty cache, as it does where nothing could be read.
pub proof fn a_foreign_cache_is_discarded(stored: Option<CacheModel>, folder: Seq<char>)
    requires
        stored matches Some(cache) ==> cache.folder != folder || cache.version != CACHE_VERSION,
    ensures
        loaded(stored, folder) == empty_cache(folder),
{
}

/// Whatever was stored, the cache that a folder gets is of this version and of
/// that folder.
pub proof fn a_loaded_cache_fits(stored: Option<CacheModel>, folder: Seq<char>)
    ensures
        loaded(stored, folder).version == CACHE_VERSION,
        loaded(stored, folder).folder == folder,
{
}

/// A record is found again for the file it was made of, as long as the file's
/// size and modification time stay, and never once either of them changes.
pub proof fn a_record_serves_until_the_file_changes(
    files: Map<Seq<char>, FileModel>,
    name: Seq<char>,
    file: FileModel,
    size: u64,
    modified_epoch: Option<i64>,
)
    requires
        file.modified_epoch is Some,
    ensures
        files.insert(name, file).contains_key(name),
        unchanged(files.insert(name, file)[name], size, modified_epoch) == (size == file.size
            && modified_epoch == file.modified_epoch),
{
}

/// A record without a modification time serves no file, and a file without one
/// is served by no record.
pub proof fn an_unknown_time_never_hits(file: FileModel, size: u64, modified_epoch: Option<i64>)
    requires
        file.modified_epoch is None || modified_epoch is None,
    ensures
        !unchanged(file, size, modified_epoch),
{
}

/// Two spellings of a folder that differ in case share one cache file.
pub proof fn cache_files_ignore_case(one: Seq<char>, other: Seq<char>)
    requires
        text::lowered(one) == text::lowered(other),
    ensures
        cache_file_name(one) == cache_file_name(other),
{
}

} // verus!
