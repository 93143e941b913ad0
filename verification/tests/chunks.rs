//! Reading PNG headers.

use flate2::write::ZlibEncoder;
use flate2::Compression;
use png_metadata_gui::chunks::{
    decode_text, finish_text_chunk, parse_text_chunk, read_png_header, split_text_chunk,
    HeaderReader, HeaderStep, PngHeader, ReadEvent, TextKind, TextParts,
};
use std::io::Write;

const SIGNATURE: [u8; 8] = [0x89, b'P', b'N', b'G', 0x0D, 0x0A, 0x1A, 0x0A];

fn push_chunk(out: &mut Vec<u8>, kind: &[u8; 4], data: &[u8]) {
    out.extend_from_slice(&(data.len() as u32).to_be_bytes());
    out.extend_from_slice(kind);
    out.extend_from_slice(data);
    out.extend_from_slice(&[1, 2, 3, 4]);
}

fn dimensions(width: u32, height: u32) -> Vec<u8> {
    let mut data = Vec::new();
    data.extend_from_slice(&width.to_be_bytes());
    data.extend_from_slice(&height.to_be_bytes());
    data.extend_from_slice(&[8, 2, 0, 0, 0]);
    data
}

fn zlib(text: &[u8]) -> Vec<u8> {
    let mut encoder = ZlibEncoder::new(Vec::new(), Compression::default());
    encoder.write_all(text).expect("a vector takes every write");
    encoder.finish().expect("a vector takes every write")
}

fn texts(header: &PngHeader) -> Vec<(&str, &str)> {
    header
        .text_chunks
        .iter()
        .map(|chunk| (chunk.keyword.as_str(), chunk.text.as_str()))
        .collect()
}

/// One of each text chunk among chunks that are skipped.
fn sample() -> Vec<u8> {
    let mut file = SIGNATURE.to_vec();
    push_chunk(&mut file, b"IHDR", &dimensions(640, 480));
    push_chunk(&mut file, b"gAMA", &[0, 0, 1, 2]);
    push_chunk(&mut file, b"tEXt", b"plain\0some text");
    let mut packed = b"packed\0\0".to_vec();
    packed.extend_from_slice(&zlib(b"unpacked text"));
    push_chunk(&mut file, b"zTXt", &packed);
    push_chunk(&mut file, b"IDAT", &[9; 100]);
    let mut world = b"world\0\x01\0en\0title\0".to_vec();
    world.extend_from_slice(&zlib("日本".as_bytes()));
    push_chunk(&mut file, b"iTXt", &world);
    push_chunk(&mut file, b"iTXt", "open\0\0\0\0\0caf\u{e9}".as_bytes());
    push_chunk(&mut file, b"IEND", &[]);
    file
}

#[test]
fn a_header_holds_dimensions_and_texts_in_file_order() {
    let header = read_png_header(&sample()).expect("a readable header");
    assert_eq!((header.width, header.height), (640, 480));
    assert_eq!(
        texts(&header),
        [
            ("plain", "some text"),
            ("packed", "unpacked text"),
            ("world", "日本"),
            ("open", "café"),
        ]
    );
}

#[test]
fn what_follows_the_end_chunk_is_not_read() {
    let mut file = sample();
    push_chunk(&mut file, b"tEXt", b"late\0text");
    assert_eq!(read_png_header(&file).expect("a readable header").text_chunks.len(), 4);
}

#[test]
fn a_cut_off_file_keeps_what_was_read() {
    let mut file = SIGNATURE.to_vec();
    push_chunk(&mut file, b"IHDR", &dimensions(5, 6));
    push_chunk(&mut file, b"tEXt", b"k\0v");
    let whole = file.len();
    for extra in 0..8 {
        file.truncate(whole);
        file.extend_from_slice(&[0, 0, 0, 9, b't', b'E', b'X'][..extra.min(7)]);
        let header = read_png_header(&file).expect("a truncated file is taken as it is");
        assert_eq!(texts(&header), [("k", "v")]);
    }
    // Only the checksum is missing: the seek past it is no read.
    file.truncate(whole - 4);
    assert_eq!(texts(&read_png_header(&file).expect("readable")), [("k", "v")]);
    assert_eq!(read_png_header(&SIGNATURE).expect("readable").width, 0);
}

#[test]
fn a_bad_file_says_what_is_wrong() {
    let reason = |file: &[u8]| read_png_header(file).err().expect("an error");
    assert_eq!(reason(b""), "read failed: failed to fill whole buffer");
    assert_eq!(reason(b"not a png at all"), "not a PNG file");

    let mut short = SIGNATURE.to_vec();
    push_chunk(&mut short, b"IHDR", &[0; 7]);
    assert_eq!(reason(&short), "malformed IHDR");

    let mut cut = SIGNATURE.to_vec();
    push_chunk(&mut cut, b"IHDR", &dimensions(1, 1));
    cut.truncate(20);
    assert_eq!(reason(&cut), "bad IHDR: failed to fill whole buffer");

    let mut text = SIGNATURE.to_vec();
    text.extend_from_slice(&[0, 0, 0, 5]);
    text.extend_from_slice(b"tEXtk\0");
    assert_eq!(reason(&text), "bad text chunk: failed to fill whole buffer");

    let mut large = SIGNATURE.to_vec();
    large.extend_from_slice(&67_108_865u32.to_be_bytes());
    large.extend_from_slice(b"zTXt");
    assert_eq!(reason(&large), "text chunk too large: 67108865 bytes");
}

#[test]
fn a_failing_seek_is_reported() {
    let HeaderStep::Read(8, reader) = HeaderReader::start() else {
        panic!("a reader starts with the signature");
    };
    let HeaderStep::Read(8, reader) = reader.step(ReadEvent::Bytes(SIGNATURE.to_vec())) else {
        panic!("a chunk's head follows");
    };
    let head = [0, 0, 0, 100, b'I', b'D', b'A', b'T'];
    let HeaderStep::Skip(104, reader) = reader.step(ReadEvent::Bytes(head.to_vec())) else {
        panic!("pixels are skipped with their checksum");
    };
    let HeaderStep::Done(Err(reason)) = reader.step(ReadEvent::Failed("disk gone".to_string()))
    else {
        panic!("a failing seek ends the read");
    };
    assert_eq!(reason, "seek failed: disk gone");
}

#[test]
fn a_malformed_text_chunk_is_left_out() {
    assert!(parse_text_chunk(TextKind::Plain, b"no separator").is_none());
    assert!(parse_text_chunk(TextKind::Compressed, b"k\0").is_none());
    assert!(parse_text_chunk(TextKind::Compressed, b"k\0\0not zlib").is_none());
    assert!(parse_text_chunk(TextKind::International, b"k\0\0").is_none());
    assert!(parse_text_chunk(TextKind::International, b"k\0\0\0en").is_none());
    assert!(parse_text_chunk(TextKind::International, b"k\0\0\0en\0title").is_none());
    assert!(parse_text_chunk(TextKind::International, b"k\0\x01\0\0\0not zlib").is_none());
    let open = parse_text_chunk(TextKind::International, b"k\0\x02\0\0\0text").expect("a chunk");
    assert_eq!(open.text, "text"); // only the flag 1 means compressed
}

#[test]
fn parts_and_their_unpacked_body_make_a_chunk() {
    let parts = split_text_chunk(TextKind::Compressed, b"k\0\0xyz").expect("well formed");
    assert_eq!((parts.keyword.as_str(), parts.body.as_slice(), parts.compressed), ("k", &b"xyz"[..], true));
    let chunk = finish_text_chunk(parts, Some(b"unpacked".to_vec())).expect("a chunk");
    assert_eq!(chunk.text, "unpacked");
    let damaged = TextParts { keyword: "k".to_string(), body: vec![1], compressed: true };
    assert!(finish_text_chunk(damaged, None).is_none());
    let plain = TextParts { keyword: "k".to_string(), body: b"as is".to_vec(), compressed: false };
    assert_eq!(finish_text_chunk(plain, None).expect("a chunk").text, "as is");
}

#[test]
fn text_is_utf8_first_and_latin1_otherwise() {
    assert_eq!(decode_text("日本 ✓".as_bytes()), "日本 ✓");
    assert_eq!(decode_text(&[b'c', b'a', b'f', 0xe9]), "café");
    assert_eq!(decode_text(&[0xff, 0x80]), "\u{ff}\u{80}");
    assert_eq!(decode_text(b""), "");
}

#[test]
fn a_written_text_chunk_is_read_back() {
    let mut international = "clé\0\x01\x07en\0Schlüssel\0".as_bytes().to_vec();
    international.extend_from_slice(&[7, 0, 8]);
    let parts = split_text_chunk(TextKind::International, &international).expect("well formed");
    assert_eq!((parts.keyword.as_str(), parts.compressed), ("clé", true));
    assert_eq!(parts.body, [7, 0, 8]);
    let plain = split_text_chunk(TextKind::Plain, b"k\0a\0b").expect("well formed");
    assert_eq!((plain.body.as_slice(), plain.compressed), (&b"a\0b"[..], false));
    let empty = split_text_chunk(TextKind::Compressed, b"\0\x09").expect("well formed");
    assert_eq!((empty.keyword.as_str(), empty.body.len()), ("", 0));
}
