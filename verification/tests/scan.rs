//! Scans, driven over files that are held in memory.

use png_metadata_gui::cache::{CachedFile, FolderCache, StoredCache};
use png_metadata_gui::chunks::read_png_header;
use png_metadata_gui::model::{FilePath, ImageEntry};
use png_metadata_gui::scan::{
    has_png_extension, list_pngs, FileFacts, Scan, ScanAction, ScanEvent, ScanInput, ScanTarget,
};

fn push_chunk(out: &mut Vec<u8>, chunk_type: &[u8; 4], payload: &[u8]) {
    out.extend_from_slice(&(payload.len() as u32).to_be_bytes());
    out.extend_from_slice(chunk_type);
    out.extend_from_slice(payload);
    let mut crc = flate2::Crc::new();
    crc.update(chunk_type);
    crc.update(payload);
    out.extend_from_slice(&crc.sum().to_be_bytes());
}

/// Minimal valid-enough PNG: signature + IHDR + one tEXt + IEND, with
/// correct lengths and CRCs. No pixel data — the scanner never decodes.
fn test_png(keyword: &str, text: &str, width: u32, height: u32) -> Vec<u8> {
    let mut data = Vec::new();
    data.extend_from_slice(&[0x89, b'P', b'N', b'G', 0x0D, 0x0A, 0x1A, 0x0A]);
    let mut ihdr = Vec::new();
    ihdr.extend_from_slice(&width.to_be_bytes());
    ihdr.extend_from_slice(&height.to_be_bytes());
    ihdr.extend_from_slice(&[8, 2, 0, 0, 0]);
    push_chunk(&mut data, b"IHDR", &ihdr);
    let mut text_data = keyword.as_bytes().to_vec();
    text_data.push(0);
    text_data.extend_from_slice(text.as_bytes());
    push_chunk(&mut data, b"tEXt", &text_data);
    push_chunk(&mut data, b"IEND", &[]);
    data
}

fn file_path(name: &str) -> FilePath {
    FilePath {
        text: format!("images/{name}"),
        file_name: name.to_string(),
        name_bytes: name.as_bytes().to_vec(),
        extension: name.rsplit_once('.').map(|(_, extension)| extension.to_string()),
    }
}

/// A folder and its stored cache.
struct Disk {
    files: Vec<(String, Vec<u8>, i64)>,
    stored: Option<StoredCache>,
    saves: usize,
    opened: Vec<String>,
}

impl Disk {
    fn new() -> Disk {
        Disk { files: Vec::new(), stored: None, saves: 0, opened: Vec::new() }
    }

    fn write(&mut self, name: &str, content: Vec<u8>, modified: i64) {
        self.remove(name);
        self.files.push((name.to_string(), content, modified));
    }

    fn remove(&mut self, name: &str) {
        self.files.retain(|file| file.0 != name);
    }

    fn find(&self, path: &FilePath) -> Option<&(String, Vec<u8>, i64)> {
        self.files.iter().find(|file| file.0 == path.file_name)
    }

    /// Takes the stored cache out and puts it back, so the next scan sees it too.
    fn load(&mut self, folder: &str) -> FolderCache {
        let cache = FolderCache::load(self.stored.take(), folder);
        self.stored = Some(stored_copy(&cache));
        cache
    }

    /// Runs a scan to its end: entries, errors, and the other events by name.
    fn run(&mut self, target: ScanTarget, use_cache: bool) -> Outcome {
        let mut outcome =
            Outcome { entries: Vec::new(), errors: Vec::new(), events: Vec::new() };
        self.opened.clear();
        let (mut scan, mut action) = Scan::start(target, use_cache);
        loop {
            let input = match action {
                ScanAction::List(folder) => {
                    assert_eq!(folder, "images");
                    let found = self.files.iter().map(|file| file_path(&file.0)).collect();
                    ScanInput::Listed(Ok(found))
                }
                ScanAction::Load(folder) => ScanInput::Loaded(self.load(&folder)),
                ScanAction::Emit(event) => {
                    match event {
                        ScanEvent::Started { total } => outcome.events.push(format!("of {total}")),
                        ScanEvent::Entry(entry) => outcome.entries.push(*entry),
                        ScanEvent::Error(error) => outcome.errors.push(error),
                        ScanEvent::Done => outcome.events.push("done".to_string()),
                    }
                    ScanInput::Emitted(true)
                }
                ScanAction::Stat(path) => ScanInput::Facts(match self.find(&path) {
                    Some((_, content, modified)) => FileFacts {
                        size: content.len() as u64,
                        created: None,
                        modified: None,
                        modified_epoch: Some(*modified),
                    },
                    None => FileFacts { size: 0, created: None, modified: None, modified_epoch: None },
                }),
                ScanAction::Read(path) => {
                    self.opened.push(path.file_name.clone());
                    ScanInput::Header(match self.find(&path) {
                        Some((_, content, _)) => read_png_header(content),
                        None => Err("open failed: no such file".to_string()),
                    })
                }
                ScanAction::Save(cache) => {
                    self.saves += 1;
                    self.stored = Some(stored_copy(&cache));
                    ScanInput::Saved(Ok(()))
                }
                ScanAction::Stop => return outcome,
            };
            (scan, action) = scan.step(input);
        }
    }
}

struct Outcome {
    entries: Vec<ImageEntry>,
    errors: Vec<String>,
    events: Vec<String>,
}

fn stored_copy(cache: &FolderCache) -> StoredCache {
    let mut copy = FolderCache::empty(&cache.folder);
    for (name, file) in cache.files.entries() {
        copy.record(name.clone(), file.copy());
    }
    StoredCache { version: cache.version, folder: copy.folder, files: copy.files }
}

fn row_value<'a>(entry: &'a ImageEntry, path: &str) -> &'a str {
    entry
        .rows
        .iter()
        .find(|row| row.path == path)
        .map(|row| row.value.as_str())
        .unwrap_or("<missing>")
}

fn folder() -> ScanTarget {
    ScanTarget::Folder("images".to_string())
}

#[test]
fn folder_scan_caches_and_invalidates_per_file() {
    let mut disk = Disk::new();
    disk.write("a.png", test_png("params", "seed=1", 64, 32), 10);
    disk.write("b.png", test_png("params", "seed=2", 64, 32), 10);

    // Cold scan: reads both files, writes the cache.
    let found = disk.run(folder(), true);
    assert!(found.errors.is_empty(), "{:?}", found.errors);
    assert_eq!(found.entries.len(), 2);
    assert_eq!(row_value(&found.entries[0], "params.seed"), "1");
    assert_eq!(found.entries[0].width, 64);
    assert_eq!(disk.opened, ["a.png", "b.png"]);

    // Tamper with the cached chunk text. If the second scan really skips
    // the disk read, the tampered text is what shows up.
    let cache = disk.load("images");
    assert_eq!(cache.files.len(), 2);
    let mut tampered = FolderCache::empty("images");
    for (name, file) in cache.files.entries() {
        let mut file: CachedFile = file.copy();
        if name == "a.png" {
            file.chunks[0].text = "seed=99".to_string();
        }
        tampered.record(name.clone(), file);
    }
    disk.stored = Some(stored_copy(&tampered));

    let found = disk.run(folder(), true);
    assert_eq!(row_value(&found.entries[0], "params.seed"), "99"); // cache hit
    assert_eq!(row_value(&found.entries[1], "params.seed"), "2");
    assert!(disk.opened.is_empty());

    // Rewriting a.png changes size + mtime → miss → disk truth returns,
    // and the rewritten cache loses the tampered text.
    disk.write("a.png", test_png("params", "seed=333", 64, 32), 11);
    let found = disk.run(folder(), true);
    assert_eq!(row_value(&found.entries[0], "params.seed"), "333");
    let cache = disk.load("images");
    assert_eq!(
        cache.files.get("a.png").expect("a.png").chunks[0].text,
        "seed=333"
    );

    // Deleting b.png shrinks both the scan result and the saved cache.
    disk.remove("b.png");
    let found = disk.run(folder(), true);
    assert_eq!(found.entries.len(), 1);
    let cache = disk.load("images");
    assert_eq!(cache.files.len(), 1);
    assert!(cache.files.contains_key("a.png"));
}

#[test]
fn file_list_scan_skips_cache_and_reports_bad_files() {
    let mut disk = Disk::new();
    disk.write("good.png", test_png("params", "seed=7", 16, 16), 1);
    disk.write("bad.png", b"not a png at all".to_vec(), 1);

    let target = ScanTarget::Files(vec![file_path("good.png"), file_path("bad.png")]);
    let found = disk.run(target, false);
    assert_eq!(found.entries.len(), 1);
    assert_eq!(found.errors.len(), 1);
    assert!(found.errors[0].contains("bad.png"));
    assert_eq!(found.errors[0], "images/bad.png: not a PNG file");
    assert_eq!(disk.saves, 0);
}

#[test]
fn a_list_of_files_is_never_cached_even_when_caching_is_on() {
    let mut disk = Disk::new();
    disk.write("good.png", test_png("params", "seed=7", 16, 16), 1);
    let found = disk.run(ScanTarget::Files(vec![file_path("good.png")]), true);
    assert_eq!(found.entries.len(), 1);
    assert_eq!(found.events, ["of 1", "done"]);
    assert_eq!(disk.saves, 0);
}

#[test]
fn an_unchanged_folder_is_not_saved_again() {
    let mut disk = Disk::new();
    disk.write("a.png", test_png("params", "seed=1", 64, 32), 10);
    let _ = disk.run(folder(), true);
    assert_eq!(disk.saves, 1);
    let again = disk.run(folder(), true);
    assert_eq!(disk.saves, 1);
    assert_eq!(again.events, ["of 1", "done"]);
}

#[test]
fn a_file_that_could_not_be_read_is_reported_once_and_not_recorded() {
    let mut disk = Disk::new();
    disk.write("a.png", b"junk junk junk".to_vec(), 10);
    disk.write("b.png", test_png("params", "seed=2", 64, 32), 10);
    let found = disk.run(folder(), true);
    assert_eq!((found.entries.len(), found.errors.len()), (1, 1));
    assert!(!disk.load("images").files.contains_key("a.png"));
}

#[test]
fn a_folder_that_cannot_be_listed_ends_the_scan() {
    let (scan, action) = Scan::start(folder(), true);
    assert!(matches!(action, ScanAction::List(_)));
    let (scan, action) = scan.step(ScanInput::Listed(Err("gone".to_string())));
    let ScanAction::Emit(ScanEvent::Error(error)) = action else {
        panic!("the failure is reported");
    };
    assert!(error.contains("gone"), "{error}");
    let (scan, action) = scan.step(ScanInput::Emitted(true));
    assert!(matches!(action, ScanAction::Emit(ScanEvent::Done)));
    let (_, action) = scan.step(ScanInput::Emitted(true));
    assert!(matches!(action, ScanAction::Stop));
}

#[test]
fn a_scan_whose_receiver_is_gone_stops() {
    let (scan, _) = Scan::start(ScanTarget::Files(vec![file_path("a.png")]), false);
    let (_, action) = scan.step(ScanInput::Emitted(false));
    assert!(matches!(action, ScanAction::Stop));
}

#[test]
fn only_png_files_are_listed_in_the_order_of_their_names() {
    assert!(has_png_extension(&file_path("a.PNG")));
    assert!(!has_png_extension(&file_path("a.jpg")));
    assert!(!has_png_extension(&file_path("png")));
    let found = ["b.png", "notes.txt", "a.PNG", "B.png", "c.png.bak"];
    let listed = list_pngs(found.iter().map(|name| file_path(name)).collect());
    let names: Vec<&str> = listed.iter().map(|path| path.file_name.as_str()).collect();
    assert_eq!(names, ["B.png", "a.PNG", "b.png"]);
}

#[test]
fn names_are_ordered_by_the_bytes_that_the_system_has() {
    let raw = |bytes: &[u8]| FilePath {
        text: format!("images/{}", String::from_utf8_lossy(bytes)),
        file_name: String::from_utf8_lossy(bytes).into_owned(),
        name_bytes: bytes.to_vec(),
        extension: Some("png".to_string()),
    };
    // What cannot be read of the first two shows as U+FFFD, which ranks after
    // the third one's character, but their bytes rank before and after its.
    let names: [&[u8]; 4] = [b"a\xff.png", b"a\x80.png", "a\u{e9}.png".as_bytes(), b"a.png"];
    let listed = list_pngs(names.iter().map(|name| raw(name)).collect());
    let ordered: Vec<&[u8]> = listed.iter().map(|path| path.name_bytes.as_slice()).collect();
    assert_eq!(ordered, [names[3], names[1], names[2], names[0]]);
}

/// Runs a scan of two files, of which the second cannot be read. The answers say
/// which reports are taken; what comes after them is taken too.
fn story(answers: &[bool], saved: Result<(), String>) -> Vec<String> {
    let mut told = Vec::new();
    let (mut scan, mut action) = Scan::start(folder(), true);
    loop {
        let input = match action {
            ScanAction::List(_) => {
                ScanInput::Listed(Ok(vec![file_path("b.png"), file_path("a.png")]))
            }
            ScanAction::Load(folder) => ScanInput::Loaded(FolderCache::empty(&folder)),
            ScanAction::Emit(event) => {
                told.push(match event {
                    ScanEvent::Started { total } => format!("start {total}"),
                    ScanEvent::Entry(entry) => entry.file_name,
                    ScanEvent::Error(error) => error,
                    ScanEvent::Done => "done".to_string(),
                });
                ScanInput::Emitted(*answers.get(told.len() - 1).unwrap_or(&true))
            }
            ScanAction::Stat(_) => ScanInput::Facts(FileFacts {
                size: 1,
                created: None,
                modified: None,
                modified_epoch: Some(1),
            }),
            ScanAction::Read(path) => ScanInput::Header(if path.file_name == "a.png" {
                read_png_header(&test_png("k", "v", 1, 1))
            } else {
                Err("torn".to_string())
            }),
            ScanAction::Save(_) => ScanInput::Saved(saved.clone()),
            ScanAction::Stop => return told,
        };
        (scan, action) = scan.step(input);
    }
}

#[test]
fn a_scan_tells_of_each_file_once_in_order_and_ends() {
    assert_eq!(story(&[], Ok(())), ["start 2", "a.png", "images/b.png: torn", "done"]);
    assert_eq!(
        story(&[], Err("full".to_string())),
        [
            "start 2",
            "a.png",
            "images/b.png: torn",
            "metadata cache write failed: full",
            "done",
        ]
    );
}

#[test]
fn a_scan_tells_nothing_after_a_refusal() {
    assert_eq!(story(&[false], Ok(())), ["start 2"]);
    assert_eq!(story(&[true, false], Ok(())), ["start 2", "a.png"]);
    assert_eq!(story(&[true, true, false], Ok(())), ["start 2", "a.png", "images/b.png: torn"]);
}
