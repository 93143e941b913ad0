//! Minimal PNG reader: the dimensions and the text chunks (`tEXt`, `zTXt`,
//! `iTXt`) of a file, without its pixels. Other chunks are skipped by seeking,
//! so a file of many megabytes costs a few kilobytes of reading.
//!
//! [`HeaderReader`] decides what to read next and what the bytes mean; whoever
//! holds the file performs the reads and seeks. [`read_png_header`] runs it
//! over bytes already in memory.

use vstd::prelude::*;

use crate::text::{self, push_decimal};
use flate2::read::ZlibDecoder;
use std::io::Read;

verus! {

pub const MAX_TEXT_CHUNK_LEN: u32 = 67_108_864;

/// One decoded text chunk.
pub struct TextChunk {
    pub keyword: String,
    pub text: String,
}

impl View for TextChunk {
    type V = (Seq<char>, Seq<char>);

    open spec fn view(&self) -> (Seq<char>, Seq<char>) {
        (self.keyword@, self.text@)
    }
}

/// The keyword and text of each of a list of text chunks.
pub open spec fn chunk_texts(chunks: Seq<TextChunk>) -> Seq<(Seq<char>, Seq<char>)> {
    chunks.map_values(|chunk: TextChunk| chunk@)
}

/// What a file's header says: its dimensions and its text chunks in file order.
pub struct PngHeader {
    pub width: u32,
    pub height: u32,
    pub text_chunks: Vec<TextChunk>,
}

/// A [`PngHeader`] as a mathematical value.
pub ghost struct HeaderModel {
    pub width: u32,
    pub height: u32,
    pub chunks: Seq<(Seq<char>, Seq<char>)>,
}

impl View for PngHeader {
    type V = HeaderModel;

    open spec fn view(&self) -> HeaderModel {
        HeaderModel {
            width: self.width,
            height: self.height,
            chunks: chunk_texts(self.text_chunks@),
        }
    }
}

/// A header or the reason why there is none, as mathematical values.
pub open spec fn header_result(result: Result<PngHeader, String>) -> Result<
    HeaderModel,
    Seq<char>,
> {
    match result {
        Ok(header) => Ok(header@),
        Err(reason) => Err(reason@),
    }
}

/// The three kinds of text chunk.
#[derive(Clone, Copy, PartialEq, Eq, Structural)]
pub enum TextKind {
    /// `tEXt`: keyword, a zero byte, text.
    Plain,
    /// `zTXt`: keyword, a zero byte, the compression method, zlib data.
    Compressed,
    /// `iTXt`: keyword, a zero byte, compression flag and method, language, a
    /// zero byte, translated keyword, a zero byte, text.
    International,
}

// ---------------------------------------------------------------------------
// Text inside a chunk
// ---------------------------------------------------------------------------

/// The index of the first zero byte, or the length where there is none.
pub open spec fn first_zero(data: Seq<u8>) -> int
    decreases data.len(),
{
    if data.len() == 0 {
        0
    } else if data[0] == 0 {
        0
    } else {
        1 + first_zero(data.skip(1))
    }
}

/// Each byte read as the character of that code: Latin-1.
pub open spec fn latin1(bytes: Seq<u8>) -> Seq<char> {
    Seq::new(bytes.len(), |i: int| bytes[i] as char)
}

/// The text in some bytes: UTF-8 where they are that, else Latin-1.
pub open spec fn decoded(bytes: Seq<u8>) -> Seq<char> {
    if vstd::utf8::valid_utf8(bytes) {
        vstd::utf8::decode_utf8(bytes)
    } else {
        latin1(bytes)
    }
}

/// Calls `std::str::from_utf8`: the text where the bytes are valid UTF-8, and
/// nothing where they are not.
#[verifier::external_body]
fn utf8_text(bytes: &[u8]) -> (text: Option<String>)
    ensures
        match text {
            Some(text) => vstd::utf8::valid_utf8(bytes@) && text@ == vstd::utf8::decode_utf8(
                bytes@,
            ),
            None => !vstd::utf8::valid_utf8(bytes@),
        },
{
    std::str::from_utf8(bytes).ok().map(str::to_string)
}

/// UTF-8 first (what generators actually write), Latin-1 as the fallback (what
/// the format prescribes for `tEXt`).
pub fn decode_text(bytes: &[u8]) -> (text: String)
    ensures
        text@ == decoded(bytes@),
{
    if let Some(text) = utf8_text(bytes) {
        return text;
    }
    let mut out = String::new();
    let mut at: usize = 0;
    while at < bytes.len()
        invariant
            at <= bytes@.len(),
            out@ == latin1(bytes@.take(at as int)),
        decreases bytes@.len() - at,
    {
        out.push(bytes[at] as char);
        at = at + 1;
        assert(out@ =~= latin1(bytes@.take(at as int)));
    }
    assert(bytes@.take(at as int) =~= bytes@);
    out
}

/// Text that was written as UTF-8 is read back as it was.
pub proof fn utf8_text_is_read_back(text: Seq<char>)
    ensures
        decoded(vstd::utf8::encode_utf8(text)) == text,
{
    vstd::utf8::encode_utf8_valid_utf8(text);
    vstd::utf8::encode_utf8_decode_utf8(text);
}

/// What zlib data unpacks to, where it is whole and sound.
pub uninterp spec fn inflated(data: Seq<u8>) -> Option<Seq<u8>>;

/// Calls `flate2::read::ZlibDecoder` and reads it to its end. What the bytes
/// unpack to is only named, as a function of the bytes.
#[verifier::external_body]
fn inflate(data: &[u8]) -> (unpacked: Option<Vec<u8>>)
    ensures
        inflated(data@) == (match unpacked {
            Some(bytes) => Some(bytes@),
            None => None,
        }),
{
    let mut out = Vec::new();
    ZlibDecoder::new(data).read_to_end(&mut out).ok()?;
    Some(out)
}

fn find_zero(data: &[u8], from: usize) -> (at: usize)
    requires
        from <= data@.len(),
    ensures
        at == from + first_zero(data@.skip(from as int)),
        from <= at <= data@.len(),
        at < data@.len() ==> data@[at as int] == 0,
{
    let mut at = from;
    while at < data.len()
        invariant
            from <= at <= data@.len(),
            first_zero(data@.skip(from as int)) == at - from + first_zero(data@.skip(at as int)),
        decreases data@.len() - at,
    {
        assert(data@.skip(at as int)[0] == data@[at as int]);
        if data[at] == 0 {
            return at;
        }
        assert(data@.skip(at as int).skip(1) =~= data@.skip(at + 1));
        at = at + 1;
    }
    at
}

/// The parts of a text chunk before decompression.
pub struct TextParts {
    pub keyword: String,
    pub body: Vec<u8>,
    pub compressed: bool,
}

/// [`TextParts`] as a mathematical value.
pub ghost struct PartsModel {
    pub keyword: Seq<char>,
    pub body: Seq<u8>,
    pub compressed: bool,
}

impl View for TextParts {
    type V = PartsModel;

    open spec fn view(&self) -> PartsModel {
        PartsModel { keyword: self.keyword@, body: self.body@, compressed: self.compressed }
    }
}

/// Where the body of a chunk's data starts and whether it is compressed, given
/// where the keyword ends. Nothing where a separator is missing.
pub open spec fn body_start(kind: TextKind, data: Seq<u8>, keyword_end: int) -> Option<
    (int, bool),
> {
    match kind {
        TextKind::Plain => Some((keyword_end + 1, false)),
        TextKind::Compressed => if keyword_end + 2 <= data.len() {
            Some((keyword_end + 2, true))
        } else {
            None
        },
        TextKind::International => {
            let language = keyword_end + 3;
            let language_end = language + first_zero(data.skip(language));
            let title = language_end + 1;
            let title_end = title + first_zero(data.skip(title));
            if language <= data.len() && language_end < data.len() && title_end < data.len() {
                Some((title_end + 1, data[keyword_end + 1] == 1))
            } else {
                None
            }
        },
    }
}

/// The keyword and body of a text chunk's data, where it is well formed.
pub open spec fn parts_of(kind: TextKind, data: Seq<u8>) -> Option<PartsModel> {
    let end = first_zero(data);
    if end >= data.len() {
        None
    } else {
        match body_start(kind, data, end) {
            Some((start, compressed)) => Some(
                PartsModel { keyword: decoded(data.take(end)), body: data.skip(start), compressed },
            ),
            None => None,
        }
    }
}

/// Splits a text chunk's data into keyword and body. Nothing where a separator
/// or a field is missing.
pub fn split_text_chunk(kind: TextKind, data: &[u8]) -> (parts: Option<TextParts>)
    ensures
        parts_of(kind, data@) == (match parts {
            Some(parts) => Some(parts@),
            None => None,
        }),
{
    let end = find_zero(data, 0);
    assert(data@.skip(0) =~= data@);
    if end == data.len() {
        return None;
    }
    let (start, compressed): (usize, bool) = match kind {
        TextKind::Plain => (end + 1, false),
        TextKind::Compressed => {
            if data.len() - end < 2 {
                return None;
            }
            (end + 2, true)
        },
        TextKind::International => {
            if data.len() - end < 3 {
                return None;
            }
            let language_end = find_zero(data, end + 3);
            if language_end == data.len() {
                return None;
            }
            let title_end = find_zero(data, language_end + 1);
            if title_end == data.len() {
                return None;
            }
            (title_end + 1, data[end + 1] == 1)
        },
    };
    let keyword = decode_text(vstd::slice::slice_subrange(data, 0, end));
    let body = vstd::slice::slice_to_vec(vstd::slice::slice_subrange(data, start, data.len()));
    assert(data@.subrange(0, end as int) =~= data@.take(end as int));
    assert(data@.subrange(start as int, data@.len() as int) =~= data@.skip(start as int));
    Some(TextParts { keyword, body, compressed })
}

/// The chunk that the parts stand for, where `unpacked` is what the body
/// unpacks to. Nothing where the body is compressed and does not unpack.
pub open spec fn chunk_of(parts: PartsModel, unpacked: Option<Seq<u8>>) -> Option<
    (Seq<char>, Seq<char>),
> {
    if !parts.compressed {
        Some((parts.keyword, decoded(parts.body)))
    } else {
        match unpacked {
            Some(bytes) => Some((parts.keyword, decoded(bytes))),
            None => None,
        }
    }
}

/// Finishes a text chunk from its parts and from what its body unpacks to
/// (which only a compressed body looks at).
pub fn finish_text_chunk(parts: TextParts, unpacked: Option<Vec<u8>>) -> (chunk: Option<TextChunk>)
    ensures
        chunk_of(
            parts@,
            match unpacked {
                Some(bytes) => Some(bytes@),
                None => None,
            },
        ) == (match chunk {
            Some(chunk) => Some(chunk@),
            None => None,
        }),
{
    if !parts.compressed {
        let text = decode_text(parts.body.as_slice());
        return Some(TextChunk { keyword: parts.keyword, text });
    }
    match unpacked {
        Some(bytes) => {
            let text = decode_text(bytes.as_slice());
            Some(TextChunk { keyword: parts.keyword, text })
        },
        None => None,
    }
}

/// The text chunk in a chunk's data, where there is one.
pub open spec fn text_chunk(kind: TextKind, data: Seq<u8>) -> Option<(Seq<char>, Seq<char>)> {
    match parts_of(kind, data) {
        Some(parts) => chunk_of(parts, inflated(parts.body)),
        None => None,
    }
}

/// The text chunk in a chunk's data. A malformed one gives nothing.
pub fn parse_text_chunk(kind: TextKind, data: &[u8]) -> (chunk: Option<TextChunk>)
    ensures
        text_chunk(kind, data@) == (match chunk {
            Some(chunk) => Some(chunk@),
            None => None,
        }),
{
    match split_text_chunk(kind, data) {
        Some(parts) => {
            let unpacked = if parts.compressed {
                inflate(parts.body.as_slice())
            } else {
                None
            };
            finish_text_chunk(parts, unpacked)
        },
        None => None,
    }
}

/// The bytes of a text chunk's data, as a writer lays them out.
pub open spec fn framed(
    kind: TextKind,
    keyword: Seq<u8>,
    flag: u8,
    method: u8,
    language: Seq<u8>,
    title: Seq<u8>,
    body: Seq<u8>,
) -> Seq<u8> {
    match kind {
        TextKind::Plain => keyword + (seq![0u8] + body),
        TextKind::Compressed => keyword + (seq![0u8, method] + body),
        TextKind::International => keyword + (seq![0u8, flag, method] + (language + (seq![0u8] + (
        title + (seq![0u8] + body))))),
    }
}

/// The first zero byte behind a part without one is the one that ends it.
pub proof fn first_zero_ends_a_part(part: Seq<u8>, rest: Seq<u8>)
    requires
        !part.contains(0),
        rest.len() > 0,
        rest[0] == 0,
    ensures
        first_zero(part + rest) == part.len(),
    decreases part.len(),
{
    let all = part + rest;
    if part.len() == 0 {
        assert(all =~= rest);
    } else {
        assert(part[0] != 0) by {
            assert(part.contains(part[0]));
        }
        let inner = part.skip(1);
        assert(!inner.contains(0)) by {
            if inner.contains(0) {
                let i = choose|i: int| 0 <= i < inner.len() && inner[i] == 0;
                assert(part[i + 1] == 0);
            }
        }
        first_zero_ends_a_part(inner, rest);
        assert(all.skip(1) =~= inner + rest);
    }
}

/// A text chunk gives back what was written into it: the keyword, the body, and
/// whether the body is compressed. Keyword, language and translated keyword hold
/// no zero byte, since one ends them.
pub proof fn a_text_chunk_gives_back_its_parts(
    kind: TextKind,
    keyword: Seq<u8>,
    flag: u8,
    method: u8,
    language: Seq<u8>,
    title: Seq<u8>,
    body: Seq<u8>,
)
    requires
        !keyword.contains(0),
        kind == TextKind::International ==> !language.contains(0) && !title.contains(0),
    ensures
        parts_of(kind, framed(kind, keyword, flag, method, language, title, body)) == Some(
            PartsModel {
                keyword: decoded(keyword),
                body,
                compressed: match kind {
                    TextKind::Plain => false,
                    TextKind::Compressed => true,
                    TextKind::International => flag == 1,
                },
            },
        ),
{
    let data = framed(kind, keyword, flag, method, language, title, body);
    let end = keyword.len() as int;
    match kind {
        TextKind::Plain => {
            first_zero_ends_a_part(keyword, seq![0u8] + body);
            assert(data.skip(end + 1) =~= body);
        },
        TextKind::Compressed => {
            first_zero_ends_a_part(keyword, seq![0u8, method] + body);
            assert(data.skip(end + 2) =~= body);
        },
        TextKind::International => {
            let after_title = seq![0u8] + body;
            let after_language = seq![0u8] + (title + after_title);
            let after_keyword = seq![0u8, flag, method] + (language + after_language);
            first_zero_ends_a_part(keyword, after_keyword);
            assert(data.skip(end + 3) =~= language + after_language);
            first_zero_ends_a_part(language, after_language);
            assert(data.skip(end + 3 + language.len() + 1) =~= title + after_title);
            first_zero_ends_a_part(title, after_title);
            assert(data.skip(end + 3 + language.len() + 1 + title.len() + 1) =~= body);
            assert(data[end + 1] == flag);
        },
    }
    assert(data.take(end) =~= keyword);
}

// ---------------------------------------------------------------------------
// The reader
// ---------------------------------------------------------------------------

/// The eight bytes that every PNG file starts with.
pub open spec fn signature() -> Seq<u8> {
    seq![0x89u8, 0x50, 0x4e, 0x47, 0x0d, 0x0a, 0x1a, 0x0a]
}

/// The number that four bytes give, most significant first.
pub open spec fn be32(bytes: Seq<u8>, at: int) -> int {
    bytes[at] * 0x100_0000 + bytes[at + 1] * 0x1_0000 + bytes[at + 2] * 0x100 + bytes[at + 3]
}

fn read_be32(bytes: &[u8], at: usize) -> (n: u32)
    requires
        at + 4 <= bytes@.len(),
    ensures
        n == be32(bytes@, at as int),
{
    bytes[at] as u32 * 0x100_0000 + bytes[at + 1] as u32 * 0x1_0000 + bytes[at + 2] as u32 * 0x100
        + bytes[at + 3] as u32
}

/// What a chunk's four type letters say to do with it.
#[derive(Clone, Copy, PartialEq, Eq, Structural)]
pub enum ChunkKind {
    /// `IHDR`.
    Dimensions,
    Text(TextKind),
    /// `IEND`.
    End,
    Other,
}

/// The kind of chunk that four letters name.
pub open spec fn chunk_kind(letters: Seq<u8>) -> ChunkKind {
    if letters == seq![0x49u8, 0x48, 0x44, 0x52] {
        ChunkKind::Dimensions
    } else if letters == seq![0x74u8, 0x45, 0x58, 0x74] {
        ChunkKind::Text(TextKind::Plain)
    } else if letters == seq![0x7au8, 0x54, 0x58, 0x74] {
        ChunkKind::Text(TextKind::Compressed)
    } else if letters == seq![0x69u8, 0x54, 0x58, 0x74] {
        ChunkKind::Text(TextKind::International)
    } else if letters == seq![0x49u8, 0x45, 0x4e, 0x44] {
        ChunkKind::End
    } else {
        ChunkKind::Other
    }
}

fn kind_of_chunk(head: &[u8]) -> (kind: ChunkKind)
    requires
        head@.len() == 8,
    ensures
        kind == chunk_kind(head@.skip(4)),
{
    let (a, b, c, d): (u8, u8, u8, u8) = (head[4], head[5], head[6], head[7]);
    let ghost letters = head@.skip(4);
    assert(letters =~= seq![a, b, c, d]);
    assert(forall|w: u8, x: u8, y: u8, z: u8|
        (letters == #[trigger] seq![w, x, y, z]) <==> (a == w && b == x && c == y && d == z)) by {
        assert forall|w: u8, x: u8, y: u8, z: u8| letters == #[trigger] seq![w, x, y, z] implies (a
            == w && b == x && c == y && d == z) by {
            let other = seq![w, x, y, z];
            assert(letters[0] == other[0] && letters[1] == other[1] && letters[2] == other[2]
                && letters[3] == other[3]);
        }
    }
    if a == 0x49 && b == 0x48 && c == 0x44 && d == 0x52 {
        ChunkKind::Dimensions
    } else if a == 0x74 && b == 0x45 && c == 0x58 && d == 0x74 {
        ChunkKind::Text(TextKind::Plain)
    } else if a == 0x7a && b == 0x54 && c == 0x58 && d == 0x74 {
        ChunkKind::Text(TextKind::Compressed)
    } else if a == 0x69 && b == 0x54 && c == 0x58 && d == 0x74 {
        ChunkKind::Text(TextKind::International)
    } else if a == 0x49 && b == 0x45 && c == 0x4e && d == 0x44 {
        ChunkKind::End
    } else {
        ChunkKind::Other
    }
}

fn is_signature(bytes: &[u8]) -> (yes: bool)
    requires
        bytes@.len() == 8,
    ensures
        yes == (bytes@ == signature()),
{
    let yes = bytes[0] == 0x89 && bytes[1] == 0x50 && bytes[2] == 0x4e && bytes[3] == 0x47
        && bytes[4] == 0x0d && bytes[5] == 0x0a && bytes[6] == 0x1a && bytes[7] == 0x0a;
    proof {
        let wanted = signature();
        if yes {
            assert(bytes@ =~= wanted);
        } else if bytes@ == wanted {
            assert(bytes@[0] == wanted[0] && bytes@[1] == wanted[1] && bytes@[2] == wanted[2]
                && bytes@[3] == wanted[3] && bytes@[4] == wanted[4] && bytes@[5] == wanted[5]
                && bytes@[6] == wanted[6] && bytes@[7] == wanted[7]);
        }
    }
    yes
}

/// What the reader waits for.
#[derive(Clone, Copy, PartialEq, Eq, Structural)]
pub enum Stage {
    /// The file's first eight bytes.
    Signature,
    /// A chunk's length and type: eight bytes.
    ChunkHead,
    /// The data of an `IHDR` chunk of this length.
    Dimensions(u32),
    /// The data of a text chunk of this kind and length.
    Text(TextKind, u32),
    /// The end of a seek.
    Seek,
}

/// Reads a file's header one answer at a time.
pub struct HeaderReader {
    stage: Stage,
    header: PngHeader,
}

/// A [`HeaderReader`] as a mathematical value.
pub ghost struct ReaderModel {
    pub stage: Stage,
    pub header: HeaderModel,
}

impl View for HeaderReader {
    type V = ReaderModel;

    closed spec fn view(&self) -> ReaderModel {
        ReaderModel { stage: self.stage, header: self.header@ }
    }
}

/// What became of the last request.
pub enum ReadEvent {
    /// The bytes asked for, all of them.
    Bytes(Vec<u8>),
    /// The seek went through.
    Moved,
    /// The read or the seek failed, for this reason.
    Failed(String),
}

/// What to do next.
pub enum HeaderStep {
    /// Read this many bytes.
    Read(u32, HeaderReader),
    /// Seek this far forward.
    Skip(u64, HeaderReader),
    Done(Result<PngHeader, String>),
}

/// A [`HeaderStep`] as a mathematical value.
pub ghost enum StepModel {
    Read(int, ReaderModel),
    Skip(int, ReaderModel),
    Done(Result<HeaderModel, Seq<char>>),
}

impl View for HeaderStep {
    type V = StepModel;

    open spec fn view(&self) -> StepModel {
        match self {
            HeaderStep::Read(count, reader) => StepModel::Read(*count as int, reader@),
            HeaderStep::Skip(count, reader) => StepModel::Skip(*count as int, reader@),
            HeaderStep::Done(result) => StepModel::Done(header_result(*result)),
        }
    }
}

impl ReaderModel {
    /// How many bytes the stage waits for, where it waits for bytes.
    pub open spec fn awaited(self) -> Option<int> {
        match self.stage {
            Stage::Signature => Some(8),
            Stage::ChunkHead => Some(8),
            Stage::Dimensions(length) => Some(length as int),
            Stage::Text(_, length) => Some(length as int),
            Stage::Seek => None,
        }
    }

    /// Whether the stage is one that a reader can be in: an `IHDR` chunk has
    /// room for the two dimensions.
    pub open spec fn valid(self) -> bool {
        self.stage matches Stage::Dimensions(length) ==> length >= 8
    }

    /// Whether the event answers what the reader asked for: a failure always
    /// does, bytes where bytes were asked for and in that number, the end of a
    /// seek where a seek was.
    pub open spec fn answered_by(self, event: ReadEvent) -> bool {
        match event {
            ReadEvent::Bytes(bytes) => self.awaited() == Some(bytes@.len() as int),
            ReadEvent::Moved => self.awaited() is None,
            ReadEvent::Failed(_) => true,
        }
    }

    /// The reader at another stage.
    pub open spec fn at(self, stage: Stage) -> ReaderModel {
        ReaderModel { stage, header: self.header }
    }
}

/// What follows a chunk's head: its data, a seek past it, or the end.
pub open spec fn after_head(state: ReaderModel, head: Seq<u8>) -> StepModel {
    let length = be32(head, 0);
    match chunk_kind(head.skip(4)) {
        ChunkKind::Dimensions => if length < 8 {
            StepModel::Done(Err("malformed IHDR"@))
        } else {
            StepModel::Read(length, state.at(Stage::Dimensions(length as u32)))
        },
        ChunkKind::Text(kind) => if length > MAX_TEXT_CHUNK_LEN {
            StepModel::Done(
                Err("text chunk too large: "@ + text::decimal(length as nat) + " bytes"@),
            )
        } else {
            StepModel::Read(length, state.at(Stage::Text(kind, length as u32)))
        },
        ChunkKind::End => StepModel::Done(Ok(state.header)),
        ChunkKind::Other => StepModel::Skip(length + 4, state.at(Stage::Seek)),
    }
}

/// The header with the dimensions that an `IHDR` chunk's data gives.
pub open spec fn with_dimensions(header: HeaderModel, data: Seq<u8>) -> HeaderModel {
    HeaderModel {
        width: be32(data, 0) as u32,
        height: be32(data, 4) as u32,
        chunks: header.chunks,
    }
}

/// The header with the text chunk in some data added, where there is one.
pub open spec fn with_text(header: HeaderModel, kind: TextKind, data: Seq<u8>) -> HeaderModel {
    match text_chunk(kind, data) {
        Some(chunk) => HeaderModel { chunks: header.chunks.push(chunk), ..header },
        None => header,
    }
}

/// What the reader does with the bytes it waited for.
pub open spec fn after_bytes(state: ReaderModel, bytes: Seq<u8>) -> StepModel {
    match state.stage {
        Stage::Signature => if bytes == signature() {
            StepModel::Read(8, state.at(Stage::ChunkHead))
        } else {
            StepModel::Done(Err("not a PNG file"@))
        },
        Stage::ChunkHead => after_head(state, bytes),
        Stage::Dimensions(_) => StepModel::Skip(
            4,
            ReaderModel { stage: Stage::Seek, header: with_dimensions(state.header, bytes) },
        ),
        Stage::Text(kind, _) => StepModel::Skip(
            4,
            ReaderModel { stage: Stage::Seek, header: with_text(state.header, kind, bytes) },
        ),
        Stage::Seek => arbitrary(),
    }
}

/// What the reader does when a request fails. A file that ends where a chunk
/// would start is taken as it is, with what was read so far.
pub open spec fn after_failure(state: ReaderModel, cause: Seq<char>) -> StepModel {
    match state.stage {
        Stage::Signature => StepModel::Done(Err("read failed: "@ + cause)),
        Stage::ChunkHead => StepModel::Done(Ok(state.header)),
        Stage::Dimensions(_) => StepModel::Done(Err("bad IHDR: "@ + cause)),
        Stage::Text(_, _) => StepModel::Done(Err("bad text chunk: "@ + cause)),
        Stage::Seek => StepModel::Done(Err("seek failed: "@ + cause)),
    }
}

/// What the reader does next on an event.
pub open spec fn stepped(state: ReaderModel, event: ReadEvent) -> StepModel {
    match event {
        ReadEvent::Bytes(bytes) => after_bytes(state, bytes@),
        ReadEvent::Moved => StepModel::Read(8, state.at(Stage::ChunkHead)),
        ReadEvent::Failed(cause) => after_failure(state, cause@),
    }
}

/// A header with nothing read yet.
pub open spec fn no_header() -> HeaderModel {
    HeaderModel { width: 0, height: 0, chunks: Seq::empty() }
}

impl HeaderReader {
    /// A reader of a file from its start, and its first request.
    pub fn start() -> (step: HeaderStep)
        ensures
            step@ == StepModel::Read(
                8,
                ReaderModel { stage: Stage::Signature, header: no_header() },
            ),
    {
        let header = PngHeader { width: 0, height: 0, text_chunks: Vec::new() };
        assert(chunk_texts(header.text_chunks@) =~= Seq::empty());
        HeaderStep::Read(8, HeaderReader { stage: Stage::Signature, header })
    }

    fn ask(self, count: u32, stage: Stage) -> (step: HeaderStep)
        ensures
            step@ == StepModel::Read(count as int, self@.at(stage)),
    {
        HeaderStep::Read(count, HeaderReader { stage, header: self.header })
    }

    fn seek(self, count: u64) -> (step: HeaderStep)
        ensures
            step@ == StepModel::Skip(count as int, self@.at(Stage::Seek)),
    {
        HeaderStep::Skip(count, HeaderReader { stage: Stage::Seek, header: self.header })
    }

    fn head_read(self, head: &[u8]) -> (step: HeaderStep)
        requires
            head@.len() == 8,
        ensures
            step@ == after_head(self@, head@),
    {
        let length = read_be32(head, 0);
        match kind_of_chunk(head) {
            ChunkKind::Dimensions => {
                if length < 8 {
                    HeaderStep::Done(Err("malformed IHDR".to_owned()))
                } else {
                    self.ask(length, Stage::Dimensions(length))
                }
            },
            ChunkKind::Text(kind) => {
                if length > MAX_TEXT_CHUNK_LEN {
                    let mut reason = "text chunk too large: ".to_owned();
                    push_decimal(&mut reason, length as u64);
                    reason.append(" bytes");
                    HeaderStep::Done(Err(reason))
                } else {
                    self.ask(length, Stage::Text(kind, length))
                }
            },
            ChunkKind::End => HeaderStep::Done(Ok(self.header)),
            ChunkKind::Other => self.seek(length as u64 + 4),
        }
    }

    fn bytes_read(self, bytes: Vec<u8>) -> (step: HeaderStep)
        requires
            self@.valid(),
            self@.awaited() == Some(bytes@.len() as int),
        ensures
            step@ == after_bytes(self@, bytes@),
    {
        match self.stage {
            Stage::Signature => {
                if is_signature(bytes.as_slice()) {
                    self.ask(8, Stage::ChunkHead)
                } else {
                    HeaderStep::Done(Err("not a PNG file".to_owned()))
                }
            },
            Stage::ChunkHead => self.head_read(bytes.as_slice()),
            Stage::Dimensions(_) => {
                let header = PngHeader {
                    width: read_be32(bytes.as_slice(), 0),
                    height: read_be32(bytes.as_slice(), 4),
                    text_chunks: self.header.text_chunks,
                };
                HeaderStep::Skip(4, HeaderReader { stage: Stage::Seek, header })
            },
            Stage::Text(kind, _) => {
                let ghost before = self.header.text_chunks@;
                let mut header = self.header;
                if let Some(chunk) = parse_text_chunk(kind, bytes.as_slice()) {
                    header.text_chunks.push(chunk);
                    assert(chunk_texts(header.text_chunks@) =~= chunk_texts(before).push(chunk@));
                }
                HeaderStep::Skip(4, HeaderReader { stage: Stage::Seek, header })
            },
            Stage::Seek => HeaderStep::Done(Ok(self.header)),
        }
    }

    fn failed(self, cause: String) -> (step: HeaderStep)
        ensures
            step@ == after_failure(self@, cause@),
    {
        match self.stage {
            Stage::Signature => HeaderStep::Done(
                Err(text::concat("read failed: ", cause.as_str())),
            ),
            Stage::ChunkHead => HeaderStep::Done(Ok(self.header)),
            Stage::Dimensions(_) => HeaderStep::Done(
                Err(text::concat("bad IHDR: ", cause.as_str())),
            ),
            Stage::Text(_, _) => HeaderStep::Done(
                Err(text::concat("bad text chunk: ", cause.as_str())),
            ),
            Stage::Seek => HeaderStep::Done(Err(text::concat("seek failed: ", cause.as_str()))),
        }
    }

    /// Takes the answer to the last request and says what to do next.
    pub fn step(self, event: ReadEvent) -> (step: HeaderStep)
        requires
            self@.valid(),
            self@.answered_by(event),
        ensures
            step@ == stepped(self@, event),
    {
        match event {
            ReadEvent::Bytes(bytes) => self.bytes_read(bytes),
            ReadEvent::Moved => self.ask(8, Stage::ChunkHead),
            ReadEvent::Failed(cause) => self.failed(cause),
        }
    }
}

/// Every step keeps the reader valid, so the next event can be answered too.
pub proof fn a_step_leaves_a_valid_reader(state: ReaderModel, event: ReadEvent)
    requires
        state.valid(),
        state.answered_by(event),
    ensures
        match stepped(state, event) {
            StepModel::Read(count, next) => next.valid() && next.awaited() == Some(count),
            StepModel::Skip(_, next) => next.valid() && next.awaited() is None,
            StepModel::Done(_) => true,
        },
{
    if let ReadEvent::Bytes(bytes) = event {
        if state.stage == Stage::ChunkHead {
            assert(0 <= be32(bytes@, 0) <= u32::MAX);
        }
    }
}

// ---------------------------------------------------------------------------
// A whole file
// ---------------------------------------------------------------------------

/// What a read that runs past the end of the file fails with.
pub open spec fn short_read() -> Seq<char> {
    "failed to fill whole buffer"@
}

/// The header that results when `so_far` was read and a chunk may start at
/// `at`.
pub open spec fn chunks_from(file: Seq<u8>, at: int, so_far: HeaderModel) -> Result<
    HeaderModel,
    Seq<char>,
>
    decreases
            if at < file.len() {
                file.len() - at
            } else {
                0
            },
{
    if at < 0 || at + 8 > file.len() {
        Ok(so_far)
    } else {
        let length = be32(file, at);
        let data = at + 8;
        let next = data + length + 4;
        match chunk_kind(file.subrange(at + 4, at + 8)) {
            ChunkKind::Dimensions => if length < 8 {
                Err("malformed IHDR"@)
            } else if data + length > file.len() {
                Err("bad IHDR: "@ + short_read())
            } else {
                chunks_from(
                    file,
                    next,
                    with_dimensions(so_far, file.subrange(data, data + length)),
                )
            },
            ChunkKind::Text(kind) => if length > MAX_TEXT_CHUNK_LEN {
                Err("text chunk too large: "@ + text::decimal(length as nat) + " bytes"@)
            } else if data + length > file.len() {
                Err("bad text chunk: "@ + short_read())
            } else {
                chunks_from(
                    file,
                    next,
                    with_text(so_far, kind, file.subrange(data, data + length)),
                )
            },
            ChunkKind::End => Ok(so_far),
            ChunkKind::Other => chunks_from(file, next, so_far),
        }
    }
}

/// The header of a file, or why it has none.
pub open spec fn header_of(file: Seq<u8>) -> Result<HeaderModel, Seq<char>> {
    if file.len() < 8 {
        Err("read failed: "@ + short_read())
    } else if file.take(8) != signature() {
        Err("not a PNG file"@)
    } else {
        chunks_from(file, 8, no_header())
    }
}

/// What a reader in this state makes of the file from `at` on.
spec fn rest_of(state: ReaderModel, file: Seq<u8>, at: int) -> Result<HeaderModel, Seq<char>> {
    match state.stage {
        Stage::Signature => header_of(file),
        Stage::ChunkHead => chunks_from(file, at, state.header),
        Stage::Dimensions(length) => if at + length > file.len() {
            Err("bad IHDR: "@ + short_read())
        } else {
            chunks_from(
                file,
                at + length + 4,
                with_dimensions(state.header, file.subrange(at, at + length)),
            )
        },
        Stage::Text(kind, length) => if at + length > file.len() {
            Err("bad text chunk: "@ + short_read())
        } else {
            chunks_from(
                file,
                at + length + 4,
                with_text(state.header, kind, file.subrange(at, at + length)),
            )
        },
        Stage::Seek => chunks_from(file, at, state.header),
    }
}

/// How much is left to do: bytes ahead, then how far the chunk at hand is.
spec fn work_left(state: ReaderModel, file: Seq<u8>, at: int) -> int {
    let ahead = if at < file.len() {
        file.len() - at
    } else {
        0
    };
    2 * ahead + match state.stage {
        Stage::Dimensions(_) => 3int,
        Stage::Text(_, _) => 3int,
        Stage::Seek => 2int,
        _ => 1int,
    }
}

/// Whether a step taken at `at` leads to the file's header, with less than
/// `bound` left to do.
spec fn on_track(step: StepModel, file: Seq<u8>, at: int, bound: int) -> bool {
    match step {
        StepModel::Read(count, state) => {
            &&& state.valid()
            &&& state.awaited() == Some(count)
            &&& 0 <= count <= u32::MAX
            &&& 0 <= at <= file.len() + 0x2_0000_0000
            &&& state.stage == Stage::Signature ==> at == 0 && state.header == no_header()
            &&& rest_of(state, file, at) == header_of(file)
            &&& work_left(state, file, at) < bound
        },
        StepModel::Skip(count, state) => {
            &&& state.stage == Stage::Seek
            &&& 0 <= count <= 0x1_0000_0003
            &&& 0 <= at <= file.len()
            &&& rest_of(state, file, at + count) == header_of(file)
            &&& work_left(state, file, at + count) < bound
        },
        StepModel::Done(result) => result == header_of(file),
    }
}

/// A chunk's head keeps the reader on track.
proof fn a_head_keeps_on_track(state: ReaderModel, file: Seq<u8>, at: int, bound: int)
    requires
        on_track(StepModel::Read(8, state), file, at, bound),
        state.stage == Stage::ChunkHead,
        at + 8 <= file.len(),
    ensures
        on_track(
            after_head(state, file.subrange(at, at + 8)),
            file,
            at + 8,
            work_left(state, file, at),
        ),
{
    let head = file.subrange(at, at + 8);
    assert(head.skip(4) =~= file.subrange(at + 4, at + 8));
    assert(be32(head, 0) == be32(file, at));
    let length = be32(file, at);
    assert(0 <= length <= u32::MAX);
    let kind = chunk_kind(head.skip(4));
    assert(header_of(file) == chunks_from(file, at, state.header));
    match kind {
        ChunkKind::Dimensions => {
            if length >= 8 {
                let next = state.at(Stage::Dimensions(length as u32));
                assert(rest_of(next, file, at + 8) == header_of(file));
            }
        },
        ChunkKind::Text(kind) => {
            if length <= MAX_TEXT_CHUNK_LEN {
                let next = state.at(Stage::Text(kind, length as u32));
                assert(rest_of(next, file, at + 8) == header_of(file));
            }
        },
        ChunkKind::End => {},
        ChunkKind::Other => {
            let next = state.at(Stage::Seek);
            assert(rest_of(next, file, at + 8 + (length + 4)) == header_of(file));
        },
    }
}

/// A read that the file can serve keeps the reader on track.
proof fn bytes_keep_on_track(state: ReaderModel, file: Seq<u8>, at: int, count: int, bound: int)
    requires
        on_track(StepModel::Read(count, state), file, at, bound),
        at + count <= file.len(),
    ensures
        on_track(
            after_bytes(state, file.subrange(at, at + count)),
            file,
            at + count,
            work_left(state, file, at),
        ),
{
    let bytes = file.subrange(at, at + count);
    match state.stage {
        Stage::Signature => {
            assert(bytes =~= file.take(8));
        },
        Stage::ChunkHead => {
            a_head_keeps_on_track(state, file, at, bound);
        },
        _ => {},
    }
}

/// A read past the end keeps the reader on track.
proof fn a_short_read_keeps_on_track(
    state: ReaderModel,
    file: Seq<u8>,
    at: int,
    count: int,
    bound: int,
)
    requires
        on_track(StepModel::Read(count, state), file, at, bound),
        at + count > file.len(),
    ensures
        on_track(
            after_failure(state, short_read()),
            file,
            at,
            work_left(state, file, at),
        ),
{
}

/// Takes what a reader asked for out of bytes in memory.
fn answer(file: &[u8], at: u128, count: u32) -> (event: ReadEvent)
    requires
        at <= file@.len() + 0x2_0000_0000,
    ensures
        match event {
            ReadEvent::Bytes(bytes) => at + count <= file@.len() && bytes@ == file@.subrange(
                at as int,
                at + count,
            ),
            ReadEvent::Moved => false,
            ReadEvent::Failed(cause) => at + count > file@.len() && cause@ == short_read(),
        },
{
    let len = file.len();
    if at + count as u128 > len as u128 {
        ReadEvent::Failed("failed to fill whole buffer".to_owned())
    } else {
        let part = vstd::slice::slice_subrange(file, at as usize, at as usize + count as usize);
        ReadEvent::Bytes(vstd::slice::slice_to_vec(part))
    }
}

/// Reads the header of a PNG file whose bytes are in memory.
pub fn read_png_header(file: &[u8]) -> (result: Result<PngHeader, String>)
    ensures
        header_result(result) == header_of(file@),
{
    let len = file.len();
    let mut at: u128 = 0;
    let mut step = HeaderReader::start();
    let ghost mut bound: int = 2 * len + 2;
    loop
        invariant
            on_track(step@, file@, at as int, bound),
            file@.len() == len,
        decreases bound,
    {
        match step {
            HeaderStep::Read(count, reader) => {
                let ghost state = reader@;
                let event = answer(file, at, count);
                let served = match &event {
                    ReadEvent::Bytes(_) => count,
                    _ => 0,
                };
                proof {
                    if served == count && at + count <= len {
                        bytes_keep_on_track(state, file@, at as int, count as int, bound);
                    } else {
                        a_short_read_keeps_on_track(state, file@, at as int, count as int, bound);
                    }
                    bound = work_left(state, file@, at as int);
                }
                step = reader.step(event);
                at = at + served as u128;
            },
            HeaderStep::Skip(count, reader) => {
                proof {
                    bound = work_left(reader@, file@, at + count);
                }
                step = reader.step(ReadEvent::Moved);
                at = at + count as u128;
            },
            HeaderStep::Done(result) => {
                return result;
            },
        }
    }
}

// ---------------------------------------------------------------------------
// What a file laid out chunk by chunk gives back
// ---------------------------------------------------------------------------

/// A chunk as it stands in a file: type letters, data, checksum.
pub ghost struct RawChunk {
    pub letters: Seq<u8>,
    pub data: Seq<u8>,
    pub checksum: Seq<u8>,
}

/// Four bytes for a number, most significant first.
pub open spec fn be32_bytes(n: int) -> Seq<u8> {
    seq![
        (n / 0x100_0000) as u8,
        (n / 0x1_0000 % 0x100) as u8,
        (n / 0x100 % 0x100) as u8,
        (n % 0x100) as u8,
    ]
}

impl RawChunk {
    /// Whether the chunk is one that a reader takes and reads on after.
    pub open spec fn readable(self) -> bool {
        &&& self.letters.len() == 4
        &&& self.checksum.len() == 4
        &&& self.data.len() <= u32::MAX
        &&& match chunk_kind(self.letters) {
            ChunkKind::Dimensions => self.data.len() >= 8,
            ChunkKind::Text(_) => self.data.len() <= MAX_TEXT_CHUNK_LEN,
            ChunkKind::End => false,
            ChunkKind::Other => true,
        }
    }

    /// The chunk's bytes: length, letters, data, checksum.
    pub open spec fn bytes(self) -> Seq<u8> {
        be32_bytes(self.data.len() as int) + self.letters + self.data + self.checksum
    }

    /// What the chunk adds to a header.
    pub open spec fn added_to(self, header: HeaderModel) -> HeaderModel {
        match chunk_kind(self.letters) {
            ChunkKind::Dimensions => with_dimensions(header, self.data),
            ChunkKind::Text(kind) => with_text(header, kind, self.data),
            _ => header,
        }
    }
}

/// The bytes of chunks one after the other.
pub open spec fn laid_out(chunks: Seq<RawChunk>) -> Seq<u8>
    decreases chunks.len(),
{
    if chunks.len() == 0 {
        Seq::empty()
    } else {
        chunks[0].bytes() + laid_out(chunks.skip(1))
    }
}

/// What chunks add to a header, one after the other.
pub open spec fn all_added(chunks: Seq<RawChunk>, header: HeaderModel) -> HeaderModel
    decreases chunks.len(),
{
    if chunks.len() == 0 {
        header
    } else {
        all_added(chunks.skip(1), chunks[0].added_to(header))
    }
}

/// Whether nothing more is read from here: the file ends inside the next
/// chunk's head, or that chunk is `IEND`.
pub open spec fn ends_here(tail: Seq<u8>) -> bool {
    tail.len() < 8 || chunk_kind(tail.subrange(4, 8)) == ChunkKind::End
}

proof fn be32_bytes_read_back(n: int)
    requires
        0 <= n <= u32::MAX,
    ensures
        be32(be32_bytes(n), 0) == n,
{
    assert(n == n / 0x100_0000 * 0x100_0000 + n / 0x1_0000 % 0x100 * 0x1_0000 + n / 0x100 % 0x100
        * 0x100 + n % 0x100);
}

/// A chunk's bytes hold its length, its letters and its data.
pub proof fn parts_of_a_chunk(file: Seq<u8>, at: int, chunk: RawChunk)
    requires
        chunk.readable(),
        0 <= at,
        at + 12 + chunk.data.len() <= file.len(),
        file.subrange(at, at + 12 + chunk.data.len()) == chunk.bytes(),
    ensures
        be32(file, at) == chunk.data.len(),
        file.subrange(at + 4, at + 8) == chunk.letters,
        file.subrange(at + 8, at + 8 + chunk.data.len()) == chunk.data,
{
    let bytes = chunk.bytes();
    let length = chunk.data.len() as int;
    let head = be32_bytes(length);
    be32_bytes_read_back(length);
    assert(forall|i: int| 0 <= i < 12 + length ==> file[at + i] == #[trigger] bytes[i]);
    assert(bytes.take(4) =~= head);
    assert(bytes[0] == head[0] && bytes[1] == head[1] && bytes[2] == head[2] && bytes[3]
        == head[3]);
    assert(bytes.subrange(4, 8) =~= chunk.letters);
    assert(bytes.subrange(8, 8 + length) =~= chunk.data);
    assert(file.subrange(at + 4, at + 8) =~= bytes.subrange(4, 8));
    assert(file.subrange(at + 8, at + 8 + length) =~= bytes.subrange(8, 8 + length));
}

/// A readable chunk is read, and reading goes on behind it.
pub proof fn a_chunk_is_read(file: Seq<u8>, at: int, chunk: RawChunk, so_far: HeaderModel)
    requires
        chunk.readable(),
        0 <= at,
        at + 12 + chunk.data.len() <= file.len(),
        file.subrange(at, at + 12 + chunk.data.len()) == chunk.bytes(),
    ensures
        chunks_from(file, at, so_far) == chunks_from(
            file,
            at + 12 + chunk.data.len(),
            chunk.added_to(so_far),
        ),
{
    parts_of_a_chunk(file, at, chunk);
}

proof fn chunks_read_back(
    file: Seq<u8>,
    at: int,
    chunks: Seq<RawChunk>,
    tail: Seq<u8>,
    so_far: HeaderModel,
)
    requires
        forall|i: int| 0 <= i < chunks.len() ==> (#[trigger] chunks[i]).readable(),
        ends_here(tail),
        0 <= at <= file.len(),
        file.skip(at) == laid_out(chunks) + tail,
    ensures
        chunks_from(file, at, so_far) == Ok::<HeaderModel, Seq<char>>(all_added(chunks, so_far)),
    decreases chunks.len(),
{
    if chunks.len() == 0 {
        assert(file.skip(at) =~= tail);
        if tail.len() >= 8 {
            assert(file.subrange(at + 4, at + 8) =~= tail.subrange(4, 8));
        }
    } else {
        let chunk = chunks[0];
        let rest = chunks.skip(1);
        let size = 12 + chunk.data.len() as int;
        assert(chunk.readable());
        assert(chunk.bytes().len() == size);
        let ahead = laid_out(chunks) + tail;
        assert(ahead == chunk.bytes() + laid_out(rest) + tail);
        assert(file.subrange(at, at + size) =~= ahead.take(size));
        assert(ahead.take(size) =~= chunk.bytes());
        assert(file.skip(at + size) =~= ahead.skip(size));
        assert(ahead.skip(size) =~= laid_out(rest) + tail);
        a_chunk_is_read(file, at, chunk, so_far);
        assert forall|i: int| 0 <= i < rest.len() implies (#[trigger] rest[i]).readable() by {
            assert(rest[i] == chunks[i + 1]);
        }
        chunks_read_back(file, at + size, rest, tail, chunk.added_to(so_far));
    }
}

/// A file made of the signature and readable chunks gives back what the chunks
/// hold, in file order: the dimensions of its last `IHDR`, and every text chunk
/// that can be decoded. Other chunks leave no trace. What follows makes no
/// difference where nothing more is read: an `IEND` chunk and anything after
/// it, or a file cut off before the next chunk's head is complete.
pub proof fn a_file_gives_back_its_chunks(chunks: Seq<RawChunk>, tail: Seq<u8>)
    requires
        forall|i: int| 0 <= i < chunks.len() ==> (#[trigger] chunks[i]).readable(),
        ends_here(tail),
    ensures
        header_of(signature() + laid_out(chunks) + tail) == Ok::<HeaderModel, Seq<char>>(
            all_added(chunks, no_header()),
        ),
{
    let file = signature() + laid_out(chunks) + tail;
    assert(file.take(8) =~= signature());
    assert(file.skip(8) =~= laid_out(chunks) + tail);
    chunks_read_back(file, 8, chunks, tail, no_header());
}

} // verus!
