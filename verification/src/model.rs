//! Per-image data: PNG header info plus parsed chunks and flattened rows.
//!
//! File metadata (size, dimensions, created/modified dates) is synthesized
//! into `file.*` rows so it pins, searches, and sorts exactly like text chunks.

use vstd::prelude::*;

use crate::chunks::{self, TextChunk};
use crate::clock::Stamp;
use crate::index::{self, flatten, parse_payload, ChunkPayload, MetaRow, PayloadModel, RowModel};
use crate::lists;
use crate::rounding::{self, round_half_even, to_double};
use crate::text::{self, has_char, lowercase, push_decimal, same_text, starts_with};

verus! {

/// A file's path as plain texts: the whole path, its last segment, and what
/// follows the last dot of that segment.
pub struct FilePath {
    pub text: String,
    pub file_name: String,
    /// The last segment as the system has it: of a name that is not Unicode,
    /// `file_name` cannot hold everything.
    pub name_bytes: Vec<u8>,
    pub extension: Option<String>,
}

/// A [`FilePath`] as a mathematical value.
pub ghost struct PathModel {
    pub text: Seq<char>,
    pub file_name: Seq<char>,
    pub name_bytes: Seq<u8>,
    pub extension: Option<Seq<char>>,
}

impl View for FilePath {
    type V = PathModel;

    open spec fn view(&self) -> PathModel {
        PathModel {
            text: self.text@,
            file_name: self.file_name@,
            name_bytes: self.name_bytes@,
            extension: text::text_option(self.extension),
        }
    }
}

impl FilePath {
    /// A copy of the path.
    pub fn copy(&self) -> (path: FilePath)
        ensures
            path@ == self@,
    {
        FilePath {
            text: self.text.clone(),
            file_name: self.file_name.clone(),
            name_bytes: self.name_bytes.clone(),
            extension: text::clone_option(&self.extension),
        }
    }
}

/// Paths as mathematical values.
pub open spec fn path_models(paths: Seq<FilePath>) -> Seq<PathModel> {
    paths.map_values(|path: FilePath| path@)
}

/// A text chunk, parsed.
pub struct ParsedChunk {
    pub keyword: String,
    /// Bytes of the chunk's text in UTF-8.
    pub byte_len: usize,
    pub payload: ChunkPayload,
}

/// A [`ParsedChunk`] as a mathematical value.
pub ghost struct ChunkModel {
    pub keyword: Seq<char>,
    pub byte_len: nat,
    pub payload: PayloadModel,
}

impl View for ParsedChunk {
    type V = ChunkModel;

    open spec fn view(&self) -> ChunkModel {
        ChunkModel {
            keyword: self.keyword@,
            byte_len: self.byte_len as nat,
            payload: self.payload@,
        }
    }
}

/// Parsed chunks as mathematical values.
pub open spec fn chunk_models(chunks: Seq<ParsedChunk>) -> Seq<ChunkModel> {
    chunks.map_values(|chunk: ParsedChunk| chunk@)
}

/// What a text chunk is once parsed.
pub open spec fn parsed_chunk(chunk: (Seq<char>, Seq<char>)) -> ChunkModel {
    ChunkModel {
        keyword: chunk.0,
        byte_len: vstd::utf8::encode_utf8(chunk.1).len(),
        payload: index::payload_of(chunk.1),
    }
}

/// Facts about a file that do not come from its chunks.
pub struct FileMeta {
    pub size: u64,
    pub created: Option<Stamp>,
    pub modified: Option<Stamp>,
    pub width: u32,
    pub height: u32,
}

/// One listed image.
pub struct ImageEntry {
    pub path: FilePath,
    pub file_name: String,
    pub file_name_lc: String,
    pub file_size: u64,
    pub width: u32,
    pub height: u32,
    pub chunks: Vec<ParsedChunk>,
    pub rows: Vec<MetaRow>,
}

// ---------------------------------------------------------------------------
// Sizes
// ---------------------------------------------------------------------------

/// A file size as it is shown: megabytes with one decimal, kilobytes without,
/// or bytes. The count is first taken to the nearest double, as the division
/// is one of doubles, and ties of the shown digits go to the even one.
pub open spec fn shown_size(bytes: nat) -> Seq<char> {
    let b = rounding::nearest_double(bytes);
    if b >= 0x10_0000 {
        let tenths = rounding::half_even(10 * b, 0x10_0000);
        text::decimal(tenths / 10) + seq!['.', text::digit(tenths % 10)] + " MB"@
    } else if b >= 1024 {
        text::decimal(rounding::half_even(b, 1024)) + " KB"@
    } else {
        text::decimal(bytes) + " B"@
    }
}

/// A file size as it is shown.
pub fn human_size(bytes: u64) -> (shown: String)
    ensures
        shown@ == shown_size(bytes as nat),
{
    proof {
        rounding::nearest_double_is_near(bytes as nat);
    }
    let b: u128 = to_double(bytes as u128);
    let mut shown = String::new();
    if b >= 0x10_0000 {
        let tenths: u128 = round_half_even(10 * b, 0x10_0000);
        assert(tenths <= 10 * b / 0x10_0000 + 1);
        push_decimal(&mut shown, (tenths / 10) as u64);
        shown.push('.');
        push_decimal(&mut shown, (tenths % 10) as u64);
        shown.append(" MB");
        assert(text::decimal((tenths % 10) as nat) == seq![text::digit((tenths % 10) as nat)]);
        assert(shown@ =~= shown_size(bytes as nat));
    } else if b >= 1024 {
        let kilobytes: u128 = round_half_even(b, 1024);
        push_decimal(&mut shown, kilobytes as u64);
        shown.append(" KB");
        assert(shown@ =~= shown_size(bytes as nat));
    } else {
        push_decimal(&mut shown, bytes);
        shown.append(" B");
        assert(shown@ =~= shown_size(bytes as nat));
    }
    shown
}

// ---------------------------------------------------------------------------
// File rows
// ---------------------------------------------------------------------------

/// A row of file metadata.
pub open spec fn file_row(key: Seq<char>, value: Seq<char>, sort_key: int) -> RowModel {
    RowModel {
        path: text::dotted("file"@, key),
        key,
        value,
        is_direct: true,
        sort_key: Some(sort_key),
    }
}

/// The integer nearest to `n` that a double can hold.
pub open spec fn as_double(n: int) -> int {
    if n < 0 {
        -(rounding::nearest_double((-n) as nat) as int)
    } else {
        rounding::nearest_double(n as nat) as int
    }
}

/// The row of a moment, where it is known.
pub open spec fn stamp_rows(key: Seq<char>, stamp: Option<Stamp>) -> Seq<RowModel> {
    match stamp {
        Some(stamp) => seq![file_row(key, stamp.text@, as_double(stamp.epoch as int))],
        None => Seq::empty(),
    }
}

/// The `file.*` rows of a file: size, width, height and dimensions, then the
/// moments that are known. Sort keys are doubles, so they are rounded to those.
pub open spec fn file_rows_of(
    size: u64,
    width: u32,
    height: u32,
    created: Option<Stamp>,
    modified: Option<Stamp>,
) -> Seq<RowModel> {
    seq![
        file_row("size"@, shown_size(size as nat), as_double(size as int)),
        file_row("width"@, text::decimal(width as nat), width as int),
        file_row("height"@, text::decimal(height as nat), height as int),
        file_row(
            "dimensions"@,
            text::decimal(width as nat).push('×') + text::decimal(height as nat),
            as_double(width * height),
        ),
    ] + stamp_rows("created"@, created) + stamp_rows("modified"@, modified)
}

fn to_signed_double(n: i64) -> (double: i128)
    ensures
        double == as_double(n as int),
{
    let wide: i128 = n as i128;
    proof {
        rounding::nearest_double_is_near(if n < 0 {
            (-n) as nat
        } else {
            n as nat
        });
    }
    if n < 0 {
        -(to_double((-wide) as u128) as i128)
    } else {
        to_double(wide as u128) as i128
    }
}

fn new_file_row(key: &str, value: String, sort_key: i128) -> (row: MetaRow)
    ensures
        row@ == file_row(key@, value@, sort_key as int),
        row.valid(),
{
    let path = text::join_path("file", key);
    MetaRow::new(path, key.to_owned(), value, true).with_sort_key(sort_key)
}

/// Builds the `file.*` rows of a file.
pub fn build_file_rows(
    size: u64,
    width: u32,
    height: u32,
    created: Option<Stamp>,
    modified: Option<Stamp>,
) -> (rows: Vec<MetaRow>)
    ensures
        index::row_models(rows@) == file_rows_of(size, width, height, created, modified),
        index::all_valid(rows@),
{
    let mut rows: Vec<MetaRow> = Vec::new();
    proof {
        rounding::nearest_double_is_near(size as nat);
        assert(width * height <= 0xffff_ffff * 0xffff_ffff) by (nonlinear_arith)
            requires
                width <= 0xffff_ffff,
                height <= 0xffff_ffff,
        ;
        rounding::nearest_double_is_near((width * height) as nat);
    }
    rows.push(new_file_row("size", human_size(size), to_double(size as u128) as i128));
    rows.push(new_file_row("width", text::decimal_text(width as u64), width as i128));
    rows.push(new_file_row("height", text::decimal_text(height as u64), height as i128));
    let mut dimensions = text::decimal_text(width as u64);
    dimensions.push('×');
    push_decimal(&mut dimensions, height as u64);
    let pixels: u128 = to_double(width as u128 * height as u128);
    rows.push(new_file_row("dimensions", dimensions, pixels as i128));
    let ghost four = index::row_models(rows@);
    let ghost created_rows = stamp_rows("created"@, created);
    let ghost modified_rows = stamp_rows("modified"@, modified);
    if let Some(stamp) = created {
        rows.push(new_file_row("created", stamp.text, to_signed_double(stamp.epoch)));
    }
    assert(index::row_models(rows@) =~= four + created_rows);
    let ghost five = index::row_models(rows@);
    if let Some(stamp) = modified {
        rows.push(new_file_row("modified", stamp.text, to_signed_double(stamp.epoch)));
    }
    assert(index::row_models(rows@) =~= five + modified_rows);
    assert(four =~= file_rows_of(size, width, height, created, modified).take(4));
    rows
}

// ---------------------------------------------------------------------------
// Entries
// ---------------------------------------------------------------------------

/// The rows of text chunks, chunk after chunk.
pub open spec fn rows_of_chunks(chunks: Seq<(Seq<char>, Seq<char>)>) -> Seq<RowModel>
    decreases chunks.len(),
{
    if chunks.len() == 0 {
        Seq::empty()
    } else {
        rows_of_chunks(chunks.drop_last()) + index::flat_rows(
            chunks.last().0,
            index::payload_of(chunks.last().1),
        )
    }
}

/// All rows of an image: those of the file, then those of its chunks.
pub open spec fn rows_of_image(meta: FileMeta, chunks: Seq<(Seq<char>, Seq<char>)>) -> Seq<
    RowModel,
> {
    file_rows_of(meta.size, meta.width, meta.height, meta.created, meta.modified)
        + rows_of_chunks(chunks)
}

impl ImageEntry {
    /// Whether the lowercase copies belong to the texts.
    pub open spec fn valid(self) -> bool {
        &&& self.file_name_lc@ == text::lowered(self.file_name@)
        &&& index::all_valid(self.rows@)
    }

    /// Whether this is the entry of a file with these facts and text chunks.
    pub open spec fn made_of(
        self,
        path: PathModel,
        meta: FileMeta,
        chunks: Seq<(Seq<char>, Seq<char>)>,
    ) -> bool {
        &&& self.path@ == path
        &&& self.file_name@ == path.file_name
        &&& self.file_size == meta.size
        &&& self.width == meta.width
        &&& self.height == meta.height
        &&& chunk_models(self.chunks@) == chunks.map_values(
            |chunk: (Seq<char>, Seq<char>)| parsed_chunk(chunk),
        )
        &&& index::row_models(self.rows@) == rows_of_image(meta, chunks)
        &&& self.valid()
    }

    /// The entry of a file with these facts and text chunks.
    pub fn from_parts(path: FilePath, meta: FileMeta, text_chunks: Vec<TextChunk>) -> (entry:
        ImageEntry)
        ensures
            entry.made_of(path@, meta, chunks::chunk_texts(text_chunks@)),
    {
        let ghost facts = meta;
        let mut rows = build_file_rows(
            meta.size,
            meta.width,
            meta.height,
            meta.created,
            meta.modified,
        );
        let ghost first = index::row_models(rows@);
        let ghost texts = chunks::chunk_texts(text_chunks@);
        let ghost all = text_chunks@;
        let mut parsed: Vec<ParsedChunk> = Vec::new();
        assert(texts.take(0) =~= Seq::empty());
        assert(first + rows_of_chunks(texts.take(0)) =~= first);
        for chunk in it: text_chunks
            invariant
                it.seq() == all,
                texts == chunks::chunk_texts(all),
                index::all_valid(rows@),
                index::row_models(rows@) == first + rows_of_chunks(texts.take(it.index() as int)),
                parsed@.len() == it.index(),
                forall|i: int|
                    0 <= i < parsed@.len() ==> (#[trigger] parsed@[i])@ == parsed_chunk(texts[i]),
        {
            let ghost i = it.index() as int;
            let ghost before = rows@;
            assert(texts[i] == chunk@);
            let payload = parse_payload(chunk.text.as_str());
            let mut more = flatten(chunk.keyword.as_str(), &payload);
            let ghost added = more@;
            rows.append(&mut more);
            proof {
                assert(texts.take(i + 1).drop_last() =~= texts.take(i));
                assert(texts.take(i + 1).last() == texts[i]);
                assert(rows@ == before + added);
                assert(index::row_models(rows@) =~= index::row_models(before) + index::row_models(
                    added,
                ));
                assert(first + (rows_of_chunks(texts.take(i)) + index::row_models(added)) =~= first
                    + rows_of_chunks(texts.take(i)) + index::row_models(added));
            }
            let byte_len = chunk.text.as_str().as_bytes().len();
            parsed.push(ParsedChunk { keyword: chunk.keyword, byte_len, payload });
        }
        assert(texts.take(all.len() as int) =~= texts);
        assert(chunk_models(parsed@) =~= texts.map_values(
            |chunk: (Seq<char>, Seq<char>)| parsed_chunk(chunk),
        ));
        let file_name = path.file_name.clone();
        let file_name_lc = lowercase(file_name.as_str());
        ImageEntry {
            path,
            file_name,
            file_name_lc,
            file_size: meta.size,
            width: meta.width,
            height: meta.height,
            chunks: parsed,
            rows,
        }
    }

    /// The entry of a file, from what its metadata and its header gave. A file
    /// whose header cannot be read has none.
    pub fn load(
        path: FilePath,
        size: u64,
        created: Option<Stamp>,
        modified: Option<Stamp>,
        header: Result<chunks::PngHeader, String>,
    ) -> (entry: Result<ImageEntry, String>)
        ensures
            match header {
                Ok(header) => entry is Ok && entry->Ok_0.made_of(
                    path@,
                    FileMeta {
                        size,
                        created,
                        modified,
                        width: header.width,
                        height: header.height,
                    },
                    header@.chunks,
                ),
                Err(reason) => entry is Err && entry->Err_0@ == reason@,
            },
    {
        match header {
            Ok(header) => {
                let meta = FileMeta {
                    size,
                    created,
                    modified,
                    width: header.width,
                    height: header.height,
                };
                Ok(ImageEntry::from_parts(path, meta, header.text_chunks))
            },
            Err(reason) => Err(reason),
        }
    }
}

// ---------------------------------------------------------------------------
// Pins
// ---------------------------------------------------------------------------

/// Rows by reference, as the rows themselves.
pub open spec fn pointed_at(rows: Seq<&MetaRow>) -> Seq<MetaRow> {
    rows.map_values(|row: &MetaRow| *row)
}

/// Whether a row answers a plain pin. A pin containing `.` names one exact
/// path; a bare pin names every direct leaf with that key. Case makes no
/// difference.
pub open spec fn pin_hit(row: MetaRow, pin: Seq<char>) -> bool {
    if pin.contains('.') {
        row.path_lc@ == text::lowered(pin)
    } else {
        row.is_direct && text::lowered(row.key@) == text::lowered(pin)
    }
}

/// Whether a row describes the file rather than a chunk. A chunk may be named
/// `file` too, but its rows have no sort key.
pub open spec fn is_file_row(row: MetaRow) -> bool {
    "file."@.is_prefix_of(row.path@) && row.sort_key is Some
}

/// Computes [`is_file_row`].
pub fn describes_file(row: &MetaRow) -> (yes: bool)
    ensures
        yes == is_file_row(*row),
{
    row.sort_key.is_some() && starts_with(row.path.as_str(), "file.")
}

proof fn file_rows_describe_the_file(meta: FileMeta, i: int)
    requires
        ({
            let rows = file_rows_of(
                meta.size,
                meta.width,
                meta.height,
                meta.created,
                meta.modified,
            );
            0 <= i < rows.len()
        }),
    ensures
        ({
            let rows = file_rows_of(
                meta.size,
                meta.width,
                meta.height,
                meta.created,
                meta.modified,
            );
            "file."@.is_prefix_of(rows[i].path) && rows[i].sort_key is Some
        }),
{
    reveal_strlit("file");
    reveal_strlit("file.");
    let rows = file_rows_of(meta.size, meta.width, meta.height, meta.created, meta.modified);
    assert(rows[i].path == text::dotted("file"@, rows[i].key));
    assert("file."@ =~= "file"@.push('.'));
}

proof fn chunk_rows_have_no_sort_key(chunks: Seq<(Seq<char>, Seq<char>)>, i: int)
    requires
        0 <= i < rows_of_chunks(chunks).len(),
    ensures
        rows_of_chunks(chunks)[i].sort_key is None,
    decreases chunks.len(),
{
    let before = rows_of_chunks(chunks.drop_last());
    if i < before.len() {
        chunk_rows_have_no_sort_key(chunks.drop_last(), i);
    } else {
        index::rows_stand_under_their_keyword(
            chunks.last().0,
            index::payload_of(chunks.last().1),
            i - before.len(),
        );
    }
}

/// The file rows of an image are those made from its file's metadata, whatever
/// its chunks are named and hold.
pub proof fn file_rows_are_those_of_the_file(
    entry: ImageEntry,
    path: PathModel,
    meta: FileMeta,
    chunks: Seq<(Seq<char>, Seq<char>)>,
)
    requires
        entry.made_of(path, meta, chunks),
    ensures
        index::row_models(lists::picked(entry.rows@, |row: MetaRow| is_file_row(row)))
            == file_rows_of(meta.size, meta.width, meta.height, meta.created, meta.modified),
{
    let passes = |row: MetaRow| is_file_row(row);
    let of_file = file_rows_of(meta.size, meta.width, meta.height, meta.created, meta.modified);
    let rows = entry.rows@;
    let models = index::row_models(rows);
    let n = of_file.len() as int;
    let (first, rest) = (rows.take(n), rows.skip(n));
    assert(models == of_file + rows_of_chunks(chunks));
    assert(models.len() == rows.len());
    assert(rows =~= first + rest);
    lists::picked_adds_up(first, rest, passes);
    assert forall|i: int| 0 <= i < first.len() implies passes(#[trigger] first[i]) by {
        assert(models[i] == of_file[i]);
        assert(models[i] == rows[i]@);
        file_rows_describe_the_file(meta, i);
    }
    lists::picked_everything(first, passes);
    assert forall|i: int| 0 <= i < rest.len() implies !passes(#[trigger] rest[i]) by {
        assert(models[n + i] == rows_of_chunks(chunks)[i]);
        assert(models[n + i] == rows[n + i]@);
        chunk_rows_have_no_sort_key(chunks, i);
    }
    lists::picked_nothing(rest, passes);
    assert(first + Seq::<MetaRow>::empty() =~= first);
    assert(index::row_models(first) =~= of_file) by {
        assert forall|i: int| 0 <= i < n implies index::row_models(first)[i] == of_file[i] by {
            assert(models[i] == of_file[i]);
        }
    }
}

impl ImageEntry {
    /// Rows matching a pin. A pin containing `.` is an exact-path pin and
    /// matches only that location; a bare pin matches every direct leaf with
    /// that key name, across all chunks and metadata styles.
    pub fn rows_for_pin(&self, pin: &str) -> (found: Vec<&MetaRow>)
        ensures
            pointed_at(found@) == lists::picked(self.rows@, |row: MetaRow| pin_hit(row, pin@)),
    {
        let pin_lc = lowercase(pin);
        let by_path = has_char(pin, '.');
        let ghost passes = |row: MetaRow| pin_hit(row, pin@);
        let mut found: Vec<&MetaRow> = Vec::new();
        assert(pointed_at(found@) =~= lists::picked(self.rows@.take(0), passes));
        for i in 0..self.rows.len()
            invariant
                passes == |row: MetaRow| pin_hit(row, pin@),
                pin_lc@ == text::lowered(pin@),
                by_path == pin@.contains('.'),
                pointed_at(found@) == lists::picked(self.rows@.take(i as int), passes),
        {
            let row = &self.rows[i];
            let hit = if by_path {
                same_text(row.path_lc.as_str(), pin_lc.as_str())
            } else {
                row.is_direct && same_text(lowercase(row.key.as_str()).as_str(), pin_lc.as_str())
            };
            let ghost before = found@;
            if hit {
                found.push(row);
                assert(pointed_at(found@) =~= pointed_at(before).push(*row));
            }
            proof {
                lists::picked_step(self.rows@, passes, i as int);
            }
        }
        assert(self.rows@.take(self.rows@.len() as int) =~= self.rows@);
        found
    }

    /// Rows synthesized from file metadata, for the tree view's File section.
    pub fn file_rows(&self) -> (found: Vec<&MetaRow>)
        ensures
            pointed_at(found@) == lists::picked(self.rows@, |row: MetaRow| is_file_row(row)),
            forall|path: PathModel, meta: FileMeta, chunks: Seq<(Seq<char>, Seq<char>)>| #[trigger]
                self.made_of(path, meta, chunks) ==> index::row_models(pointed_at(found@))
                    == file_rows_of(
                    meta.size,
                    meta.width,
                    meta.height,
                    meta.created,
                    meta.modified,
                ),
    {
        let ghost passes = |row: MetaRow| is_file_row(row);
        let mut found: Vec<&MetaRow> = Vec::new();
        assert(pointed_at(found@) =~= lists::picked(self.rows@.take(0), passes));
        for i in 0..self.rows.len()
            invariant
                passes == |row: MetaRow| is_file_row(row),
                pointed_at(found@) == lists::picked(self.rows@.take(i as int), passes),
        {
            let row = &self.rows[i];
            let ghost before = found@;
            if describes_file(row) {
                found.push(row);
                assert(pointed_at(found@) =~= pointed_at(before).push(*row));
            }
            proof {
                lists::picked_step(self.rows@, passes, i as int);
            }
        }
        assert(self.rows@.take(self.rows@.len() as int) =~= self.rows@);
        proof {
            assert forall|path: PathModel, meta: FileMeta, chunks: Seq<(Seq<char>, Seq<char>)>|
                #[trigger] self.made_of(path, meta, chunks) implies index::row_models(
                pointed_at(found@),
            ) == file_rows_of(
                meta.size,
                meta.width,
                meta.height,
                meta.created,
                meta.modified,
            ) by {
                file_rows_are_those_of_the_file(*self, path, meta, chunks);
            }
        }
        found
    }
}

/// How a pin's pattern selects rows.
#[derive(Clone, Copy, PartialEq, Eq, Structural, Debug)]
pub enum PinMode {
    /// A key name, or an exact path where the pattern holds a `.`.
    Key,
    /// A key name or part of a node title, or an exact path.
    Auto,
    /// Part of a node title.
    Title,
}

impl Default for PinMode {
    fn default() -> (mode: PinMode)
        ensures
            mode == PinMode::Key,
    {
        PinMode::Key
    }
}

/// The node that a path names the title of: what stands before `._meta.title`.
pub open spec fn titled_node(path: Seq<char>) -> Option<Seq<char>> {
    if "._meta.title"@.is_suffix_of(path) {
        Some(path.take(path.len() - "._meta.title"@.len()))
    } else {
        None
    }
}

/// Whether a row holds the title of the node that `path` stands in, `between`
/// being what joins the two.
pub open spec fn titles(row: MetaRow, path: Seq<char>, between: Seq<char>) -> bool {
    match titled_node(row.path@) {
        Some(node) => (node + between).is_prefix_of(path),
        None => false,
    }
}

/// The first row from `from` on that holds the title of the node that `path`
/// stands in, or the number of rows where none does.
pub open spec fn title_row(
    rows: Seq<MetaRow>,
    path: Seq<char>,
    between: Seq<char>,
    from: int,
) -> int
    decreases rows.len() - from,
{
    if from >= rows.len() {
        rows.len() as int
    } else if titles(rows[from], path, between) {
        from
    } else {
        title_row(rows, path, between, from + 1)
    }
}

/// Whether a row is a direct input of a node whose title holds the pattern.
pub open spec fn title_hit(rows: Seq<MetaRow>, row: MetaRow, pattern: Seq<char>) -> bool {
    let at = title_row(rows, row.path@, ".inputs."@, 0);
    row.is_direct && pattern.len() > 0 && at < rows.len() && text::occurs_in(
        text::lowered(pattern),
        rows[at].value_lc@,
    )
}

/// Whether a row answers a pin, given all rows of its image.
pub open spec fn mode_hit(
    rows: Seq<MetaRow>,
    row: MetaRow,
    pattern: Seq<char>,
    mode: PinMode,
    use_titles: bool,
) -> bool {
    match mode {
        PinMode::Title => use_titles && title_hit(rows, row, pattern),
        PinMode::Key => pin_hit(row, pattern),
        PinMode::Auto => pin_hit(row, pattern) || (!pattern.contains('.') && use_titles
            && title_hit(rows, row, pattern)),
    }
}

/// Where the paths of a titled node's rows start, and which row holds the title.
struct NodeTitle {
    prefix: String,
    row: usize,
}

fn ends_with_title(chars: &Vec<char>) -> (node: Option<String>)
    ensures
        titled_node(chars@) == text::text_option(node),
{
    let suffix = text::characters("._meta.title");
    if chars.len() < suffix.len() {
        return None;
    }
    let start = chars.len() - suffix.len();
    for i in 0..suffix.len()
        invariant
            suffix@ == "._meta.title"@,
            start + suffix@.len() == chars.len(),
            forall|j: int| 0 <= j < i ==> #[trigger] suffix@[j] == chars@[start + j],
    {
        if suffix[i] != chars[start + i] {
            assert(!"._meta.title"@.is_suffix_of(chars@)) by {
                if "._meta.title"@.is_suffix_of(chars@) {
                    assert(suffix@[i as int] == chars@.subrange(
                        start as int,
                        chars@.len() as int,
                    )[i as int]);
                }
            }
            return None;
        }
    }
    assert(chars@.subrange(start as int, chars@.len() as int) =~= suffix@);
    let node = text::text_between(chars, 0, start);
    assert(chars@.subrange(0, start as int) =~= chars@.take(start as int));
    Some(node)
}

/// Whether `nodes` lists every titled node of the rows, in document order, with
/// `between` behind its path.
spec fn lists_titles(nodes: Seq<NodeTitle>, rows: Seq<MetaRow>, between: Seq<char>) -> bool {
    &&& forall|i: int|
        0 <= i < nodes.len() ==> (#[trigger] nodes[i]).row < rows.len() && titled_node(
            rows[nodes[i].row as int].path@,
        ) is Some && nodes[i].prefix@ == titled_node(rows[nodes[i].row as int].path@)->Some_0
            + between
    &&& forall|i: int, j: int| 0 <= i < j < nodes.len() ==> nodes[i].row < nodes[j].row
    &&& forall|r: int|
        0 <= r < rows.len() && titled_node((#[trigger] rows[r]).path@) is Some ==> exists|i: int|
            0 <= i < nodes.len() && (#[trigger] nodes[i]).row == r
}

proof fn one_more_row(
    nodes: Seq<NodeTitle>,
    rows: Seq<MetaRow>,
    between: Seq<char>,
    at: int,
    more: Seq<NodeTitle>,
)
    requires
        0 <= at < rows.len() <= usize::MAX,
        lists_titles(nodes, rows.take(at), between),
        match titled_node(rows[at].path@) {
            Some(node) => more.len() == nodes.len() + 1 && more.drop_last() == nodes
                && more.last().row == at && more.last().prefix@ == node + between,
            None => more == nodes,
        },
    ensures
        lists_titles(more, rows.take(at + 1), between),
{
    let fewer = rows.take(at);
    let rows = rows.take(at + 1);
    assert forall|i: int| 0 <= i < nodes.len() implies more[i] == #[trigger] nodes[i] by {
        if titled_node(rows[at].path@) is Some {
            assert(more.drop_last()[i] == nodes[i]);
        }
    }
    assert forall|i: int| 0 <= i < more.len() implies (#[trigger] more[i]).row < rows.len()
        && titled_node(rows[more[i].row as int].path@) is Some && more[i].prefix@ == titled_node(
        rows[more[i].row as int].path@,
    )->Some_0 + between by {
        if i < nodes.len() {
            assert(more[i] == nodes[i]);
            assert(fewer[nodes[i].row as int] == rows[nodes[i].row as int]);
        }
    }
    assert forall|i: int, j: int| 0 <= i < j < more.len() implies more[i].row < more[j].row by {
        assert(more[i] == nodes[i]);
        if j < nodes.len() {
            assert(more[j] == nodes[j]);
        }
    }
    assert forall|r: int|
        0 <= r < rows.len() && titled_node((#[trigger] rows[r]).path@) is Some implies exists|
        i: int,
    | 0 <= i < more.len() && (#[trigger] more[i]).row == r by {
        if r < at {
            assert(fewer[r] == rows[r]);
            let i = choose|i: int| 0 <= i < nodes.len() && (#[trigger] nodes[i]).row == r;
            assert(more[i].row == r);
        } else {
            assert(more[more.len() - 1].row == r);
        }
    }
}

impl ImageEntry {
    fn node_titles(&self, between: &str) -> (nodes: Vec<NodeTitle>)
        ensures
            lists_titles(nodes@, self.rows@, between@),
    {
        let mut nodes: Vec<NodeTitle> = Vec::new();
        for r in 0..self.rows.len()
            invariant
                lists_titles(nodes@, self.rows@.take(r as int), between@),
        {
            let chars = text::characters(self.rows[r].path.as_str());
            let ghost before = nodes@;
            if let Some(node) = ends_with_title(&chars) {
                let prefix = text::concat(node.as_str(), between);
                nodes.push(NodeTitle { prefix, row: r });
                assert(nodes@.drop_last() =~= before);
            }
            proof {
                one_more_row(before, self.rows@, between@, r as int, nodes@);
            }
        }
        assert(self.rows@.take(self.rows@.len() as int) =~= self.rows@);
        nodes
    }

    fn title_of(&self, nodes: &Vec<NodeTitle>, path: &str, Ghost(between): Ghost<Seq<char>>) -> (at:
        Option<usize>)
        requires
            lists_titles(nodes@, self.rows@, between),
        ensures
            match at {
                Some(at) => at == title_row(self.rows@, path@, between, 0) && at
                    < self.rows@.len(),
                None => title_row(self.rows@, path@, between, 0) == self.rows@.len(),
            },
    {
        for i in 0..nodes.len()
            invariant
                lists_titles(nodes@, self.rows@, between),
                forall|j: int| 0 <= j < i ==> !(#[trigger] nodes@[j]).prefix@.is_prefix_of(path@),
        {
            if starts_with(path, nodes[i].prefix.as_str()) {
                let at = nodes[i].row;
                proof {
                    assert forall|r: int| 0 <= r < at implies !titles(
                        #[trigger] self.rows@[r],
                        path@,
                        between,
                    ) by {
                        if titles(self.rows@[r], path@, between) {
                            let j = choose|j: int|
                                0 <= j < nodes@.len() && (#[trigger] nodes@[j]).row == r;
                            assert(j < i) by {
                                if j > i {
                                    assert(nodes@[i as int].row < nodes@[j].row);
                                }
                            }
                            assert(!nodes@[j].prefix@.is_prefix_of(path@));
                        }
                    }
                    assert(titles(self.rows@[at as int], path@, between));
                    first_title(self.rows@, path@, between, at as int, 0);
                }
                return Some(at);
            }
        }
        proof {
            assert forall|r: int| 0 <= r < self.rows@.len() implies !titles(
                #[trigger] self.rows@[r],
                path@,
                between,
            ) by {
                if titles(self.rows@[r], path@, between) {
                    let j = choose|j: int|
                        0 <= j < nodes@.len() && (#[trigger] nodes@[j]).row == r;
                    assert(!nodes@[j].prefix@.is_prefix_of(path@));
                }
            }
            first_title(self.rows@, path@, between, self.rows@.len() as int, 0);
        }
        None
    }

    /// The lowercase title of the node that a row at `path` is an input of.
    pub fn node_title_lc(&self, path: &str) -> (title: Option<String>)
        ensures
            ({
                let at = title_row(self.rows@, path@, ".inputs."@, 0);
                match title {
                    Some(title) => at < self.rows@.len() && title@ == self.rows@[at].value_lc@,
                    None => at == self.rows@.len(),
                }
            }),
    {
        let nodes = self.node_titles(".inputs.");
        match self.title_of(&nodes, path, Ghost(".inputs."@)) {
            Some(at) => Some(self.rows[at].value_lc.clone()),
            None => None,
        }
    }

    /// The lowercase title by which a title pin can select the leaf at `path`:
    /// none where titles are switched off, or where the leaf is not direct.
    pub fn leaf_title(&self, path: &str, use_titles: bool, direct: bool) -> (title: Option<String>)
        ensures
            ({
                let at = title_row(self.rows@, path@, ".inputs."@, 0);
                match title {
                    Some(title) => use_titles && direct && at < self.rows@.len() && title@
                        == self.rows@[at].value_lc@,
                    None => !use_titles || !direct || at == self.rows@.len(),
                }
            }),
    {
        if use_titles && direct {
            self.node_title_lc(path)
        } else {
            None
        }
    }

    /// The title of the node that a row at `path` belongs to.
    pub fn node_title_for(&self, path: &str) -> (title: Option<String>)
        ensures
            ({
                let at = title_row(self.rows@, path@, "."@, 0);
                match title {
                    Some(title) => at < self.rows@.len() && title@ == self.rows@[at].value@,
                    None => at == self.rows@.len(),
                }
            }),
    {
        let nodes = self.node_titles(".");
        match self.title_of(&nodes, path, Ghost("."@)) {
            Some(at) => Some(self.rows[at].value.clone()),
            None => None,
        }
    }

    /// Rows matching a pin, in document order: a key pin's direct leaves, an
    /// exact path, or the inputs of every node whose title holds the pattern.
    /// Titles count only where `use_titles` says so.
    pub fn rows_for_mode(&self, pattern: &str, mode: PinMode, use_titles: bool) -> (found: Vec<
        &MetaRow,
    >)
        ensures
            pointed_at(found@) == lists::picked(
                self.rows@,
                |row: MetaRow| mode_hit(self.rows@, row, pattern@, mode, use_titles),
            ),
    {
        let pattern_lc = lowercase(pattern);
        let by_path = has_char(pattern, '.');
        let by_title = use_titles && !pattern.is_empty() && match mode {
            PinMode::Key => false,
            PinMode::Auto => !by_path,
            PinMode::Title => true,
        };
        let nodes = if by_title {
            self.node_titles(".inputs.")
        } else {
            Vec::new()
        };
        let ghost passes = |row: MetaRow| mode_hit(self.rows@, row, pattern@, mode, use_titles);
        let mut found: Vec<&MetaRow> = Vec::new();
        assert(pointed_at(found@) =~= lists::picked(self.rows@.take(0), passes));
        for i in 0..self.rows.len()
            invariant
                passes == |row: MetaRow| mode_hit(self.rows@, row, pattern@, mode, use_titles),
                pattern_lc@ == text::lowered(pattern@),
                by_path == pattern@.contains('.'),
                by_title == (use_titles && pattern@.len() > 0 && match mode {
                    PinMode::Key => false,
                    PinMode::Auto => !by_path,
                    PinMode::Title => true,
                }),
                by_title ==> lists_titles(nodes@, self.rows@, ".inputs."@),
                pointed_at(found@) == lists::picked(self.rows@.take(i as int), passes),
        {
            let row = &self.rows[i];
            let named = match mode {
                PinMode::Title => false,
                _ => if by_path {
                    same_text(row.path_lc.as_str(), pattern_lc.as_str())
                } else {
                    row.is_direct && same_text(
                        lowercase(row.key.as_str()).as_str(),
                        pattern_lc.as_str(),
                    )
                },
            };
            let titled = if !named && by_title && row.is_direct {
                match self.title_of(&nodes, row.path.as_str(), Ghost(".inputs."@)) {
                    Some(at) => text::contains_text(
                        self.rows[at].value_lc.as_str(),
                        pattern_lc.as_str(),
                    ),
                    None => false,
                }
            } else {
                false
            };
            let ghost before = found@;
            assert((named || titled) == passes(*row));
            if named || titled {
                found.push(row);
                assert(pointed_at(found@) =~= pointed_at(before).push(*row));
            }
            proof {
                lists::picked_step(self.rows@, passes, i as int);
            }
        }
        assert(self.rows@.take(self.rows@.len() as int) =~= self.rows@);
        found
    }
}

proof fn first_title(
    rows: Seq<MetaRow>,
    path: Seq<char>,
    between: Seq<char>,
    at: int,
    from: int,
)
    requires
        0 <= from <= at <= rows.len(),
        forall|r: int| from <= r < at ==> !titles(#[trigger] rows[r], path, between),
        at < rows.len() ==> titles(rows[at], path, between),
    ensures
        title_row(rows, path, between, from) == at,
    decreases at - from,
{
    if from < at {
        first_title(rows, path, between, at, from + 1);
    }
}

// ---------------------------------------------------------------------------
// Laws
// ---------------------------------------------------------------------------

/// A key pin selects the same rows whichever way it is asked for, and whether
/// titles are in use or not.
pub proof fn key_mode_is_the_plain_pin(
    rows: Seq<MetaRow>,
    row: MetaRow,
    pattern: Seq<char>,
    use_titles: bool,
)
    ensures
        mode_hit(rows, row, pattern, PinMode::Key, use_titles) == pin_hit(row, pattern),
{
}

/// Where titles are not in use, a title pin selects nothing and a typed pin is
/// a key pin.
pub proof fn titles_are_gated(rows: Seq<MetaRow>, row: MetaRow, pattern: Seq<char>)
    ensures
        !mode_hit(rows, row, pattern, PinMode::Title, false),
        mode_hit(rows, row, pattern, PinMode::Auto, false) == mode_hit(
            rows,
            row,
            pattern,
            PinMode::Key,
            false,
        ),
{
}

/// A title pin goes by the titles of nodes and not by their ids: of two rows
/// whose nodes share a title, in one image or in two, it selects both or neither.
pub proof fn a_title_pin_ignores_node_ids(
    rows: Seq<MetaRow>,
    row: MetaRow,
    other_rows: Seq<MetaRow>,
    other: MetaRow,
    pattern: Seq<char>,
    use_titles: bool,
)
    requires
        row.is_direct == other.is_direct,
        ({
            let at = title_row(rows, row.path@, ".inputs."@, 0);
            let other_at = title_row(other_rows, other.path@, ".inputs."@, 0);
            &&& at < rows.len()
            &&& other_at < other_rows.len()
            &&& rows[at].value_lc@ == other_rows[other_at].value_lc@
        }),
    ensures
        mode_hit(rows, row, pattern, PinMode::Title, use_titles) == mode_hit(
            other_rows,
            other,
            pattern,
            PinMode::Title,
            use_titles,
        ),
{
}

/// A typed pin selects what a key pin or a title pin with that pattern selects,
/// unless the pattern is an exact path, which no title pin stands in for.
pub proof fn a_typed_pin_is_key_or_title(
    rows: Seq<MetaRow>,
    row: MetaRow,
    pattern: Seq<char>,
    use_titles: bool,
)
    requires
        !pattern.contains('.'),
    ensures
        mode_hit(rows, row, pattern, PinMode::Auto, use_titles) == (mode_hit(
            rows,
            row,
            pattern,
            PinMode::Key,
            use_titles,
        ) || mode_hit(rows, row, pattern, PinMode::Title, use_titles)),
{
}

/// A bare pin never selects the element of a list, such as the node id of a
/// link.
pub proof fn bare_pins_skip_list_elements(
    rows: Seq<MetaRow>,
    row: MetaRow,
    pattern: Seq<char>,
    mode: PinMode,
    use_titles: bool,
)
    requires
        !row.is_direct,
        !pattern.contains('.'),
    ensures
        !mode_hit(rows, row, pattern, mode, use_titles),
{
}

/// Matching takes no notice of case: two spellings of one pin select the same
/// rows of any image.
pub proof fn pins_ignore_case(row: MetaRow, one: Seq<char>, other: Seq<char>)
    requires
        text::lowered(one) == text::lowered(other),
        one.contains('.') == other.contains('.'),
    ensures
        pin_hit(row, one) == pin_hit(row, other),
{
}

} // verus!
