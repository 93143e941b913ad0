//! PNG files, in terms of their bytes.

use vstd::prelude::*;

use crate::chunks::{
    self, HeaderModel, RawChunk, ReadEvent, ReaderModel, Stage, StepModel, TextKind,
};
use crate::text;

verus! {

/// The first eight bytes of a PNG file.
pub open spec fn png_bytes() -> Seq<u8> {
    seq![137u8, 80, 78, 71, 13, 10, 26, 10]
}

/// The letters of a chunk type.
pub open spec fn ihdr() -> Seq<u8> {
    seq![73u8, 72, 68, 82]
}

/// The letters of a chunk type.
pub open spec fn iend() -> Seq<u8> {
    seq![73u8, 69, 78, 68]
}

/// The letters of a chunk type.
pub open spec fn plain_text() -> Seq<u8> {
    seq![116u8, 69, 88, 116]
}

/// The letters of a chunk type.
pub open spec fn packed_text() -> Seq<u8> {
    seq![122u8, 84, 88, 116]
}

/// The letters of a chunk type.
pub open spec fn international_text() -> Seq<u8> {
    seq![105u8, 84, 88, 116]
}

/// A number written in four bytes, most significant first.
pub open spec fn four_bytes(n: int) -> Seq<u8> {
    seq![
        (n / 16_777_216) as u8,
        (n / 65_536 % 256) as u8,
        (n / 256 % 256) as u8,
        (n % 256) as u8,
    ]
}

/// The number that four bytes write, most significant first.
pub open spec fn written(a: u8, b: u8, c: u8, d: u8) -> int {
    a * 16_777_216 + b * 65_536 + c * 256 + d
}

/// A chunk written out: length, letters, data, checksum.
pub open spec fn chunk_bytes(letters: Seq<u8>, data: Seq<u8>, checksum: Seq<u8>) -> Seq<u8> {
    four_bytes(data.len() as int) + letters + data + checksum
}

proof fn letters_differ()
    ensures
        ihdr() != iend(),
        ihdr() != plain_text(),
        ihdr() != packed_text(),
        ihdr() != international_text(),
        iend() != plain_text(),
        iend() != packed_text(),
        iend() != international_text(),
        plain_text() != packed_text(),
        plain_text() != international_text(),
        packed_text() != international_text(),
{
    assert(ihdr()[1] != iend()[1]);
    assert(ihdr()[0] != plain_text()[0]);
    assert(ihdr()[0] != packed_text()[0]);
    assert(ihdr()[0] != international_text()[0]);
    assert(iend()[0] != plain_text()[0]);
    assert(iend()[0] != packed_text()[0]);
    assert(iend()[0] != international_text()[0]);
    assert(plain_text()[0] != packed_text()[0]);
    assert(plain_text()[0] != international_text()[0]);
    assert(packed_text()[0] != international_text()[0]);
}

/// Which chunks a reader takes and reads on behind: an `IHDR` with room for both
/// dimensions, a text chunk of at most 64 MiB, and any other chunk but `IEND`.
pub proof fn which_chunks_are_read(chunk: RawChunk)
    ensures
        chunk.readable() <==> {
            &&& chunk.letters.len() == 4
            &&& chunk.checksum.len() == 4
            &&& chunk.data.len() < 4_294_967_296
            &&& chunk.letters != iend()
            &&& chunk.letters == ihdr() ==> chunk.data.len() >= 8
            &&& chunk.letters == plain_text() || chunk.letters == packed_text() || chunk.letters
                == international_text() ==> chunk.data.len() <= 67_108_864
        },
        chunk.bytes() == chunk_bytes(chunk.letters, chunk.data, chunk.checksum),
{
    letters_differ();
}

/// Where reading ends: fewer than eight bytes are left, or an `IEND` follows.
pub proof fn where_reading_ends(tail: Seq<u8>)
    ensures
        chunks::ends_here(tail) <==> tail.len() < 8 || tail.subrange(4, 8) == iend(),
{
    letters_differ();
}

/// Chunks are laid out one behind the other, and each adds to what the ones
/// before it gave.
pub proof fn chunks_add_up_in_order(chunks: Seq<RawChunk>, last: RawChunk, header: HeaderModel)
    ensures
        chunks::laid_out(Seq::empty()) == Seq::<u8>::empty(),
        chunks::laid_out(chunks.push(last)) == chunks::laid_out(chunks) + chunk_bytes(
            last.letters,
            last.data,
            last.checksum,
        ),
        chunks::all_added(Seq::empty(), header) == header,
        chunks::all_added(chunks.push(last), header) == last.added_to(
            chunks::all_added(chunks, header),
        ),
    decreases chunks.len(),
{
    let more = chunks.push(last);
    if chunks.len() == 0 {
        assert(more.skip(1) =~= Seq::empty());
        assert(chunks::laid_out(more.skip(1)) == Seq::<u8>::empty());
        assert(last.bytes() + Seq::<u8>::empty() =~= Seq::<u8>::empty() + last.bytes());
        assert(chunks =~= Seq::empty());
        assert(more[0] == last);
        assert(chunks::all_added(more.skip(1), last.added_to(header)) == last.added_to(header));
    } else {
        let first = chunks[0];
        assert(more[0] == first);
        assert(more.skip(1) =~= chunks.skip(1).push(last));
        chunks_add_up_in_order(chunks.skip(1), last, first.added_to(header));
        assert(first.bytes() + (chunks::laid_out(chunks.skip(1)) + last.bytes()) =~= first.bytes()
            + chunks::laid_out(chunks.skip(1)) + last.bytes());
    }
}

/// An `IHDR` sets width and height to the two numbers that its data starts with
/// and leaves the texts alone.
pub proof fn an_ihdr_sets_the_dimensions(chunk: RawChunk, header: HeaderModel)
    requires
        chunk.letters == ihdr(),
        chunk.data.len() >= 8,
    ensures
        ({
            let d = chunk.data;
            let after = chunk.added_to(header);
            &&& after.width == written(d[0], d[1], d[2], d[3])
            &&& after.height == written(d[4], d[5], d[6], d[7])
            &&& after.chunks == header.chunks
        }),
{
}

/// The text that bytes are read as: UTF-8 where they are that, else one
/// character for each byte.
pub open spec fn reads_as(bytes: Seq<u8>, text: Seq<char>) -> bool {
    if vstd::utf8::valid_utf8(bytes) {
        text == vstd::utf8::decode_utf8(bytes)
    } else {
        text.len() == bytes.len() && forall|i: int|
            0 <= i < bytes.len() ==> #[trigger] text[i] as int == bytes[i] as int
    }
}

/// Bytes are read as UTF-8 where they are that, else as Latin-1.
pub proof fn bytes_are_read_as_text(bytes: Seq<u8>)
    ensures
        reads_as(bytes, chunks::decoded(bytes)),
{
}

/// Whether a header is another one with one more text behind the others.
pub open spec fn with_one_more(
    after: HeaderModel,
    before: HeaderModel,
    keyword: Seq<u8>,
    body: Seq<u8>,
) -> bool {
    &&& after.width == before.width
    &&& after.height == before.height
    &&& after.chunks.len() == before.chunks.len() + 1
    &&& after.chunks.take(before.chunks.len() as int) == before.chunks
    &&& reads_as(keyword, after.chunks.last().0)
    &&& reads_as(body, after.chunks.last().1)
}

/// A `tEXt` chunk adds its keyword and everything behind the zero byte that ends
/// the keyword.
pub proof fn a_plain_text_is_added(
    chunk: RawChunk,
    header: HeaderModel,
    keyword: Seq<u8>,
    body: Seq<u8>,
)
    requires
        chunk.letters == plain_text(),
        !keyword.contains(0),
        chunk.data == keyword + seq![0u8] + body,
    ensures
        with_one_more(chunk.added_to(header), header, keyword, body),
{
    letters_differ();
    assert(chunk.data =~= chunks::framed(
        TextKind::Plain,
        keyword,
        0,
        0,
        Seq::empty(),
        Seq::empty(),
        body,
    ));
    chunks::a_text_chunk_gives_back_its_parts(
        TextKind::Plain,
        keyword,
        0,
        0,
        Seq::empty(),
        Seq::empty(),
        body,
    );
    let after = chunk.added_to(header);
    assert(after.chunks.take(header.chunks.len() as int) =~= header.chunks);
}

/// A `zTXt` chunk adds its keyword and what its zlib data unpacks to; where that
/// is damaged it adds nothing.
pub proof fn a_packed_text_is_added(
    chunk: RawChunk,
    header: HeaderModel,
    keyword: Seq<u8>,
    method: u8,
    packed: Seq<u8>,
)
    requires
        chunk.letters == packed_text(),
        !keyword.contains(0),
        chunk.data == keyword + seq![0u8, method] + packed,
    ensures
        match chunks::inflated(packed) {
            Some(body) => with_one_more(chunk.added_to(header), header, keyword, body),
            None => chunk.added_to(header) == header,
        },
{
    letters_differ();
    assert(chunk.data =~= chunks::framed(
        TextKind::Compressed,
        keyword,
        0,
        method,
        Seq::empty(),
        Seq::empty(),
        packed,
    ));
    chunks::a_text_chunk_gives_back_its_parts(
        TextKind::Compressed,
        keyword,
        0,
        method,
        Seq::empty(),
        Seq::empty(),
        packed,
    );
    let after = chunk.added_to(header);
    if chunks::inflated(packed) is Some {
        assert(after.chunks.take(header.chunks.len() as int) =~= header.chunks);
    }
}

/// An `iTXt` chunk adds its keyword and its text, unpacked where the flag is 1,
/// whatever its language and translated keyword are.
pub proof fn an_international_text_is_added(
    chunk: RawChunk,
    header: HeaderModel,
    keyword: Seq<u8>,
    flag: u8,
    method: u8,
    language: Seq<u8>,
    title: Seq<u8>,
    body: Seq<u8>,
)
    requires
        chunk.letters == international_text(),
        !keyword.contains(0),
        !language.contains(0),
        !title.contains(0),
        chunk.data == keyword + seq![0u8, flag, method] + language + seq![0u8] + title + seq![0u8]
            + body,
    ensures
        flag != 1 ==> with_one_more(chunk.added_to(header), header, keyword, body),
        flag == 1 ==> match chunks::inflated(body) {
            Some(text) => with_one_more(chunk.added_to(header), header, keyword, text),
            None => chunk.added_to(header) == header,
        },
{
    letters_differ();
    assert(chunk.data =~= chunks::framed(
        TextKind::International,
        keyword,
        flag,
        method,
        language,
        title,
        body,
    ));
    chunks::a_text_chunk_gives_back_its_parts(
        TextKind::International,
        keyword,
        flag,
        method,
        language,
        title,
        body,
    );
    let after = chunk.added_to(header);
    if flag != 1 || chunks::inflated(body) is Some {
        assert(after.chunks.take(header.chunks.len() as int) =~= header.chunks);
    }
}

proof fn no_zero_anywhere(data: Seq<u8>)
    requires
        !data.contains(0),
    ensures
        chunks::first_zero(data) == data.len(),
    decreases data.len(),
{
    if data.len() > 0 {
        assert(data.contains(data[0]));
        let rest = data.skip(1);
        assert(!rest.contains(0)) by {
            if rest.contains(0) {
                let i = choose|i: int| 0 <= i < rest.len() && rest[i] == 0;
                assert(data[i + 1] == 0);
            }
        }
        no_zero_anywhere(rest);
    }
}

/// A text chunk whose keyword is not ended by a zero byte adds nothing, and
/// neither does a chunk of any other type.
pub proof fn nothing_else_is_added(chunk: RawChunk, header: HeaderModel)
    requires
        chunk.letters != ihdr(),
        chunk.letters == plain_text() || chunk.letters == packed_text() || chunk.letters
            == international_text() ==> !chunk.data.contains(0),
    ensures
        chunk.added_to(header) == header,
{
    letters_differ();
    if !chunk.data.contains(0) {
        no_zero_anywhere(chunk.data);
    }
}

proof fn four_bytes_are_read_back(n: int)
    requires
        0 <= n < 4_294_967_296,
    ensures
        ({
            let b = four_bytes(n);
            written(b[0], b[1], b[2], b[3]) == n
        }),
{
    assert(n == n / 16_777_216 * 16_777_216 + n / 65_536 % 256 * 65_536 + n / 256 % 256 * 256 + n
        % 256);
}

proof fn two_numbers_are_read_back(width: int, height: int, more: Seq<u8>)
    requires
        0 <= width < 4_294_967_296,
        0 <= height < 4_294_967_296,
    ensures
        ({
            let data = four_bytes(width) + four_bytes(height) + more;
            &&& data.len() == 8 + more.len()
            &&& written(data[0], data[1], data[2], data[3]) == width
            &&& written(data[4], data[5], data[6], data[7]) == height
        }),
{
    four_bytes_are_read_back(width);
    four_bytes_are_read_back(height);
    let data = four_bytes(width) + four_bytes(height) + more;
    let (w, h) = (four_bytes(width), four_bytes(height));
    assert(data[0] == w[0] && data[1] == w[1] && data[2] == w[2] && data[3] == w[3]);
    assert(data[4] == h[0] && data[5] == h[1] && data[6] == h[2] && data[7] == h[3]);
}

proof fn a_file_of_one_chunk(chunk: RawChunk, tail: Seq<u8>)
    requires
        chunk.readable(),
        tail.len() < 8 || tail.subrange(4, 8) == iend(),
    ensures
        chunks::header_of(
            png_bytes() + chunk_bytes(chunk.letters, chunk.data, chunk.checksum) + tail,
        ) == Ok::<HeaderModel, Seq<char>>(chunk.added_to(chunks::no_header())),
{
    let list = seq![chunk];
    where_reading_ends(tail);
    chunks_add_up_in_order(Seq::empty(), chunk, chunks::no_header());
    let bytes = chunk_bytes(chunk.letters, chunk.data, chunk.checksum);
    assert(Seq::<RawChunk>::empty().push(chunk) =~= list);
    assert(Seq::<u8>::empty() + bytes =~= bytes);
    assert(chunks::signature() =~= png_bytes());
    chunks::a_file_gives_back_its_chunks(list, tail);
}

/// The dimensions of a file are those that its `IHDR` says: width first, then
/// height, whatever else the chunk holds and whatever follows where reading
/// ends.
pub proof fn a_file_has_the_dimensions_it_says(
    width: u32,
    height: u32,
    more: Seq<u8>,
    checksum: Seq<u8>,
    tail: Seq<u8>,
)
    requires
        more.len() < 4_294_967_288,
        checksum.len() == 4,
        tail.len() < 8 || tail.subrange(4, 8) == iend(),
    ensures
        ({
            let data = four_bytes(width as int) + four_bytes(height as int) + more;
            let file = png_bytes() + chunk_bytes(ihdr(), data, checksum) + tail;
            &&& chunks::header_of(file) is Ok
            &&& chunks::header_of(file)->Ok_0.width == width
            &&& chunks::header_of(file)->Ok_0.height == height
            &&& chunks::header_of(file)->Ok_0.chunks.len() == 0
        }),
{
    let data = four_bytes(width as int) + four_bytes(height as int) + more;
    let chunk = RawChunk { letters: ihdr(), data, checksum };
    two_numbers_are_read_back(width as int, height as int, more);
    letters_differ();
    which_chunks_are_read(chunk);
    a_file_of_one_chunk(chunk, tail);
    an_ihdr_sets_the_dimensions(chunk, chunks::no_header());
}

/// A file is a PNG file only by its first eight bytes.
pub proof fn other_files_are_refused(file: Seq<u8>)
    ensures
        file.len() < 8 ==> chunks::header_of(file) == Err::<HeaderModel, Seq<char>>(
            "read failed: "@ + "failed to fill whole buffer"@,
        ),
        file.len() >= 8 && file.subrange(0, 8) != png_bytes() ==> chunks::header_of(file) == Err::<
            HeaderModel,
            Seq<char>,
        >("not a PNG file"@),
{
    assert(chunks::signature() =~= png_bytes());
    if file.len() >= 8 {
        assert(file.subrange(0, 8) =~= file.take(8));
    }
}

proof fn read_up_to(
    file: Seq<u8>,
    at: int,
    list: Seq<RawChunk>,
    tail: Seq<u8>,
    so_far: HeaderModel,
)
    requires
        forall|i: int| 0 <= i < list.len() ==> (#[trigger] list[i]).readable(),
        0 <= at <= file.len(),
        file.skip(at) == chunks::laid_out(list) + tail,
    ensures
        chunks::chunks_from(file, at, so_far) == chunks::chunks_from(
            file,
            file.len() - tail.len(),
            chunks::all_added(list, so_far),
        ),
    decreases list.len(),
{
    if list.len() == 0 {
        assert(file.skip(at) =~= tail);
    } else {
        let chunk = list[0];
        let rest = list.skip(1);
        let size = 12 + chunk.data.len() as int;
        assert(chunk.readable());
        assert(chunk.bytes().len() == size);
        let ahead = chunks::laid_out(list) + tail;
        assert(ahead == chunk.bytes() + chunks::laid_out(rest) + tail);
        assert(file.subrange(at, at + size) =~= ahead.take(size));
        assert(ahead.take(size) =~= chunk.bytes());
        assert(file.skip(at + size) =~= ahead.skip(size));
        assert(ahead.skip(size) =~= chunks::laid_out(rest) + tail);
        chunks::a_chunk_is_read(file, at, chunk, so_far);
        assert forall|i: int| 0 <= i < rest.len() implies (#[trigger] rest[i]).readable() by {
            assert(rest[i] == list[i + 1]);
        }
        read_up_to(file, at + size, rest, tail, chunk.added_to(so_far));
    }
}

proof fn a_broken_chunk_ends_the_reading(file: Seq<u8>, tail: Seq<u8>, so_far: HeaderModel)
    requires
        8 <= tail.len() <= file.len(),
        file.skip(file.len() - tail.len()) == tail,
    ensures
        ({
            let found = chunks::chunks_from(file, file.len() - tail.len(), so_far);
            let length = written(tail[0], tail[1], tail[2], tail[3]);
            let letters = tail.subrange(4, 8);
            let is_text = letters == plain_text() || letters == packed_text() || letters
                == international_text();
            &&& letters == ihdr() && length < 8 ==> found == Err::<HeaderModel, Seq<char>>(
                "malformed IHDR"@,
            )
            &&& letters == ihdr() && length >= 8 && 8 + length > tail.len() ==> found == Err::<
                HeaderModel,
                Seq<char>,
            >("bad IHDR: "@ + "failed to fill whole buffer"@)
            &&& is_text && length > 67_108_864 ==> found == Err::<HeaderModel, Seq<char>>(
                "text chunk too large: "@ + text::decimal(length as nat) + " bytes"@,
            )
            &&& is_text && length <= 67_108_864 && 8 + length > tail.len() ==> found == Err::<
                HeaderModel,
                Seq<char>,
            >("bad text chunk: "@ + "failed to fill whole buffer"@)
        }),
{
    letters_differ();
    let at = file.len() - tail.len();
    assert(file.skip(at)[0] == file[at] && file.skip(at)[1] == file[at + 1] && file.skip(at)[2]
        == file[at + 2] && file.skip(at)[3] == file[at + 3]);
    assert(file.subrange(at + 4, at + 8) =~= file.skip(at).subrange(4, 8));
}

/// What ends a file badly: an `IHDR` too short for the dimensions, a text chunk
/// over 64 MiB, and either of them cut off.
pub proof fn a_broken_chunk_refuses_the_file(list: Seq<RawChunk>, tail: Seq<u8>)
    requires
        forall|i: int| 0 <= i < list.len() ==> (#[trigger] list[i]).readable(),
        tail.len() >= 8,
    ensures
        ({
            let found = chunks::header_of(png_bytes() + chunks::laid_out(list) + tail);
            let length = written(tail[0], tail[1], tail[2], tail[3]);
            let letters = tail.subrange(4, 8);
            let is_text = letters == plain_text() || letters == packed_text() || letters
                == international_text();
            &&& letters == ihdr() && length < 8 ==> found == Err::<HeaderModel, Seq<char>>(
                "malformed IHDR"@,
            )
            &&& letters == ihdr() && length >= 8 && 8 + length > tail.len() ==> found == Err::<
                HeaderModel,
                Seq<char>,
            >("bad IHDR: "@ + "failed to fill whole buffer"@)
            &&& is_text && length > 67_108_864 ==> found == Err::<HeaderModel, Seq<char>>(
                "text chunk too large: "@ + text::decimal(length as nat) + " bytes"@,
            )
            &&& is_text && length <= 67_108_864 && 8 + length > tail.len() ==> found == Err::<
                HeaderModel,
                Seq<char>,
            >("bad text chunk: "@ + "failed to fill whole buffer"@)
        }),
{
    let file = png_bytes() + chunks::laid_out(list) + tail;
    assert(chunks::signature() =~= png_bytes());
    assert(file.take(8) =~= png_bytes());
    assert(file.skip(8) =~= chunks::laid_out(list) + tail);
    read_up_to(file, 8, list, tail, chunks::no_header());
    assert(file.skip(file.len() - tail.len()) =~= tail);
    a_broken_chunk_ends_the_reading(
        file,
        tail,
        chunks::all_added(list, chunks::no_header()),
    );
    assert(chunks::header_of(file) == chunks::chunks_from(file, 8, chunks::no_header()));
}

/// A reader whose request fails says at what: at the start, in a chunk it needs,
/// or on its way past one. Where a chunk would have started, the file ends.
pub proof fn a_failed_request_is_named(state: ReaderModel, cause: Seq<char>)
    ensures
        match state.stage {
            Stage::Signature => chunks::after_failure(state, cause) == StepModel::Done(
                Err("read failed: "@ + cause),
            ),
            Stage::ChunkHead => chunks::after_failure(state, cause) == StepModel::Done(
                Ok(state.header),
            ),
            Stage::Dimensions(_) => chunks::after_failure(state, cause) == StepModel::Done(
                Err("bad IHDR: "@ + cause),
            ),
            Stage::Text(_, _) => chunks::after_failure(state, cause) == StepModel::Done(
                Err("bad text chunk: "@ + cause),
            ),
            Stage::Seek => chunks::after_failure(state, cause) == StepModel::Done(
                Err("seek failed: "@ + cause),
            ),
        },
{
}

/// The head of a chunk says what the reader asks for next: the data of an `IHDR`
/// or of a text chunk, or to go past any other chunk and its checksum. Too short
/// an `IHDR` and too long a text chunk end the reading, and so does an `IEND`.
pub proof fn a_head_says_what_follows(state: ReaderModel, n: int, letters: Seq<u8>, head: Vec<u8>)
    requires
        state.stage is ChunkHead,
        0 <= n < 0x1_0000_0000,
        letters.len() == 4,
        head@ == four_bytes(n) + letters,
    ensures
        ({
            let step = chunks::stepped(state, ReadEvent::Bytes(head));
            let header = state.header;
            let read = |stage: Stage| StepModel::Read(n, ReaderModel { stage, header });
            let too_long = StepModel::Done(
                Err("text chunk too large: "@ + text::decimal(n as nat) + " bytes"@),
            );
            &&& letters == ihdr() && n >= 8 ==> step == read(Stage::Dimensions(n as u32))
            &&& letters == ihdr() && n < 8 ==> step == StepModel::Done(Err("malformed IHDR"@))
            &&& letters == plain_text() && n <= 67_108_864 ==> step == read(
                Stage::Text(TextKind::Plain, n as u32),
            )
            &&& letters == packed_text() && n <= 67_108_864 ==> step == read(
                Stage::Text(TextKind::Compressed, n as u32),
            )
            &&& letters == international_text() && n <= 67_108_864 ==> step == read(
                Stage::Text(TextKind::International, n as u32),
            )
            &&& (letters == plain_text() || letters == packed_text() || letters
                == international_text()) && n > 67_108_864 ==> step == too_long
            &&& letters == iend() ==> step == StepModel::Done(Ok(header))
            &&& letters != ihdr() && letters != plain_text() && letters != packed_text() && letters
                != international_text() && letters != iend() ==> step == StepModel::Skip(
                n + 4,
                ReaderModel { stage: Stage::Seek, header },
            )
        }),
{
    letters_differ();
    let bytes = head@;
    assert(bytes.skip(4) =~= letters);
    assert(bytes[0] == (n / 16_777_216) as u8);
    assert(bytes[1] == (n / 65_536 % 256) as u8);
    assert(bytes[2] == (n / 256 % 256) as u8);
    assert(bytes[3] == (n % 256) as u8);
    assert(chunks::be32(bytes, 0) == n);
}

/// The reader starts with the signature, goes on from chunk to chunk, and passes
/// over the checksum behind the data that it read.
pub proof fn what_else_the_reader_asks_for(state: ReaderModel, bytes: Vec<u8>)
    ensures
        state.stage is Signature && bytes@ == png_bytes() ==> chunks::stepped(
            state,
            ReadEvent::Bytes(bytes),
        ) == StepModel::Read(8, (ReaderModel { stage: Stage::ChunkHead, ..state })),
        state.stage is Signature && bytes@ != png_bytes() ==> chunks::stepped(
            state,
            ReadEvent::Bytes(bytes),
        ) == StepModel::Done(Err("not a PNG file"@)),
        chunks::stepped(state, ReadEvent::Moved) == StepModel::Read(
            8,
            (ReaderModel { stage: Stage::ChunkHead, ..state }),
        ),
        state.stage is Dimensions ==> chunks::stepped(state, ReadEvent::Bytes(bytes))
            == StepModel::Skip(
            4,
            ReaderModel {
                stage: Stage::Seek,
                header: HeaderModel {
                    width: written(bytes@[0], bytes@[1], bytes@[2], bytes@[3]) as u32,
                    height: written(bytes@[4], bytes@[5], bytes@[6], bytes@[7]) as u32,
                    chunks: state.header.chunks,
                },
            },
        ),
{
    assert(chunks::signature() =~= png_bytes());
}

} // verus!
