//! The metadata cache.

use png_metadata_gui::cache::{
    cache_file_path, epoch_seconds, pack_cache, path_for_hash, temp_path, unpack_cache,
    CachedChunk, CachedFile, FileTable, FolderCache, SaveAction, SaveStep, StoredCache,
    CACHE_VERSION,
};
use png_metadata_gui::chunks::{PngHeader, TextChunk};
use std::collections::hash_map::DefaultHasher;
use std::hash::{Hash, Hasher};
use std::time::{Duration, UNIX_EPOCH};

fn sample_file() -> CachedFile {
    CachedFile {
        size: 1234,
        modified_epoch: Some(1_700_000_000),
        width: 512,
        height: 768,
        chunks: vec![CachedChunk {
            keyword: "prompt".to_string(),
            text: r#"{"160": {"inputs": {"value": "café 日本"}}}"#.to_string(),
        }],
    }
}

#[test]
fn lookup_validates_size_and_mtime() {
    let folder = r"C:\images\test";
    let mut cache = FolderCache::empty(folder);
    cache.files.insert("a.png".to_string(), sample_file());

    assert!(cache.lookup("a.png", 1234, Some(1_700_000_000)).is_some());
    assert!(cache.lookup("a.png", 1235, Some(1_700_000_000)).is_none()); // size changed
    assert!(cache.lookup("a.png", 1234, Some(1_700_000_001)).is_none()); // mtime changed
    assert!(cache.lookup("a.png", 1234, None).is_none()); // unverifiable
    assert!(cache.lookup("b.png", 1234, Some(1_700_000_000)).is_none()); // unknown file
}

#[test]
fn epoch_seconds_handles_both_sides_of_the_epoch() {
    assert_eq!(epoch_seconds(UNIX_EPOCH + Duration::from_secs(5)), 5);
    assert_eq!(epoch_seconds(UNIX_EPOCH - Duration::from_secs(5)), -5);
    assert_eq!(epoch_seconds(UNIX_EPOCH), 0);
}

#[test]
fn epoch_seconds_drop_the_fraction_on_both_sides() {
    assert_eq!(epoch_seconds(UNIX_EPOCH + Duration::from_millis(5_900)), 5);
    assert_eq!(epoch_seconds(UNIX_EPOCH - Duration::from_millis(5_900)), -5);
}

#[test]
fn a_cache_round_trips_as_a_stored_value() {
    let folder = r"C:\images\test";
    let mut cache = FolderCache::empty(folder);
    cache.record("a.png".to_string(), sample_file());
    let stored = StoredCache {
        version: cache.version,
        folder: cache.folder.clone(),
        files: cache.files,
    };
    let loaded = FolderCache::load(Some(stored), folder);
    assert_eq!(loaded.files.len(), 1);
    let file = loaded.files.get("a.png").expect("cached file");
    assert_eq!(file.chunks[0].text, r#"{"160": {"inputs": {"value": "café 日本"}}}"#);
}

/// A cache as JSON, built by hand.
fn written(cache: &FolderCache) -> Vec<u8> {
    let mut files = serde_json::Map::new();
    for (name, file) in cache.files.entries() {
        let mut record = serde_json::Map::new();
        let chunks: Vec<serde_json::Value> = file
            .chunks
            .iter()
            .map(|chunk| vec![chunk.keyword.as_str(), chunk.text.as_str()].into())
            .collect();
        _ = record.insert("size".to_string(), file.size.into());
        _ = record.insert("modified".to_string(), file.modified_epoch.into());
        _ = record.insert("sides".to_string(), vec![file.width, file.height].into());
        _ = record.insert("chunks".to_string(), chunks.into());
        _ = files.insert(name.clone(), record.into());
    }
    let mut all = serde_json::Map::new();
    _ = all.insert("version".to_string(), cache.version.into());
    _ = all.insert("folder".to_string(), cache.folder.as_str().into());
    _ = all.insert("files".to_string(), files.into());
    serde_json::to_vec(&serde_json::Value::Object(all)).expect("a value is always written")
}

/// The cache that JSON holds.
fn read(json: &[u8]) -> Option<StoredCache> {
    let all: serde_json::Value = serde_json::from_slice(json).ok()?;
    let mut files = FileTable::new();
    for (name, record) in all["files"].as_object()? {
        let text = |value: &serde_json::Value| value.as_str().unwrap_or("").to_string();
        let chunks = record["chunks"].as_array()?.iter();
        files.insert(
            name.clone(),
            CachedFile {
                size: record["size"].as_u64()?,
                modified_epoch: record["modified"].as_i64(),
                width: record["sides"][0].as_u64()? as u32,
                height: record["sides"][1].as_u64()? as u32,
                chunks: chunks
                    .map(|pair| CachedChunk { keyword: text(&pair[0]), text: text(&pair[1]) })
                    .collect(),
            },
        );
    }
    Some(StoredCache {
        version: all["version"].as_u64()? as u32,
        folder: all["folder"].as_str()?.to_string(),
        files,
    })
}

#[test]
fn a_cache_written_packed_unpacked_and_read_is_the_same() {
    let folder = r"C:\images\test";
    let mut cache = FolderCache::empty(folder);
    cache.record("a.png".to_string(), sample_file());
    let mut undated = sample_file();
    undated.modified_epoch = None;
    undated.size = u64::MAX;
    cache.record("b.png".to_string(), undated);
    let stored = pack_cache(&written(&cache));

    let back = |folder: &str| {
        let json = unpack_cache(&stored).expect("what was packed unpacks");
        FolderCache::load(read(&json), folder)
    };
    let own = back(folder);
    assert_eq!(written(&own), written(&cache));
    assert_eq!(own.files.len(), 2);
    assert!(own.lookup("a.png", 1234, Some(1_700_000_000)).is_some());
    let other = back(r"C:\images\other");
    assert!(other.files.is_empty());
    assert_eq!(other.folder, r"C:\images\other");
}

#[test]
fn a_foreign_or_missing_cache_is_an_empty_one() {
    let stored = |version: u32, folder: &str| {
        let mut files = FileTable::new();
        files.insert("a.png".to_string(), sample_file());
        Some(StoredCache { version, folder: folder.to_string(), files })
    };
    let folder = r"C:\images\test";
    assert_eq!(FolderCache::load(stored(CACHE_VERSION, folder), folder).files.len(), 1);
    // A different folder must not read this cache, even at the same place.
    assert!(FolderCache::load(stored(CACHE_VERSION, folder), r"C:\images\other").files.is_empty());
    assert!(FolderCache::load(stored(CACHE_VERSION + 1, folder), folder).files.is_empty());
    let fresh = FolderCache::load(None, folder);
    assert!(fresh.files.is_empty());
    assert_eq!((fresh.version, fresh.folder.as_str()), (CACHE_VERSION, folder));
}

#[test]
fn packed_bytes_unpack_to_themselves() {
    let json = br#"{"version":1,"folder":"x","files":{}}"#;
    let packed = pack_cache(json);
    assert_ne!(packed, json);
    assert_eq!(packed[..2], [0x1f, 0x8b]);
    assert_eq!(unpack_cache(&packed).as_deref(), Some(&json[..]));
    let long: Vec<u8> = (0..200_000u32).map(|i| (i % 251) as u8).collect();
    assert_eq!(unpack_cache(&pack_cache(&long)), Some(long));
    assert_eq!(unpack_cache(&pack_cache(b"")), Some(Vec::new()));
}

#[test]
fn damaged_bytes_do_not_unpack() {
    assert_eq!(unpack_cache(b"not gzip"), None);
    assert_eq!(unpack_cache(b""), None);
    let mut packed = pack_cache(b"some text that is long enough to be cut");
    packed.truncate(packed.len() - 9);
    assert_eq!(unpack_cache(&packed), None);
}

#[test]
fn a_cache_file_is_named_by_the_hash_of_its_folder() {
    let mut hasher = DefaultHasher::new();
    "/data/images".hash(&mut hasher);
    let expected = format!("/cache/folder-{:016x}.json.gz", hasher.finish());
    assert_eq!(cache_file_path("/cache", '/', "/data/images"), expected);
    assert_eq!(cache_file_path("/cache", '/', "/DATA/Images"), expected);
    assert_ne!(cache_file_path("/cache", '/', "/data/other"), expected);
    assert_eq!(path_for_hash("c", '\\', 0xab), r"c\folder-00000000000000ab.json.gz");
    assert_eq!(path_for_hash("c/", '/', u64::MAX), "c/folder-ffffffffffffffff.json.gz");
}

#[test]
fn the_last_record_of_a_name_counts_and_order_is_kept() {
    let mut table = FileTable::new();
    assert!(table.is_empty());
    table.insert("b.png".to_string(), sample_file());
    table.insert("a.png".to_string(), sample_file());
    let mut newer = sample_file();
    newer.size = 9;
    table.insert("b.png".to_string(), newer);
    assert_eq!(table.len(), 2);
    assert!(table.contains_key("b.png") && !table.contains_key("c.png"));
    assert_eq!(table.get("b.png").map(|file| file.size), Some(9));
    let names: Vec<&str> = table.entries().iter().map(|(name, _)| name.as_str()).collect();
    assert_eq!(names, ["b.png", "a.png"]);
}

#[test]
fn a_header_is_recorded_whole() {
    let header = PngHeader {
        width: 3,
        height: 4,
        text_chunks: vec![TextChunk { keyword: "k".to_string(), text: "v".to_string() }],
    };
    let file = CachedFile::of_header(7, None, &header);
    assert_eq!((file.size, file.modified_epoch, file.width, file.height), (7, None, 3, 4));
    let chunks = file.copy().text_chunks();
    assert_eq!(chunks.len(), 1);
    assert_eq!((chunks[0].keyword.as_str(), chunks[0].text.as_str()), ("k", "v"));
}

#[test]
fn saving_goes_step_by_step_and_names_the_step_that_failed() {
    let mut step = SaveStep::CreateDir;
    let mut steps = vec![step];
    while let SaveAction::Next(next) = FolderCache::save(step, Ok(())) {
        steps.push(next);
        step = next;
    }
    assert_eq!(
        steps,
        [
            SaveStep::CreateDir,
            SaveStep::CreateFile,
            SaveStep::Encode,
            SaveStep::Finish,
            SaveStep::Flush,
            SaveStep::Replace,
        ]
    );
    let reasons: Vec<String> = steps
        .iter()
        .map(|step| match FolderCache::save(*step, Err("why".to_string())) {
            SaveAction::Failed(reason) => reason,
            _ => panic!("a failing step ends the save"),
        })
        .collect();
    assert_eq!(
        reasons,
        [
            "create cache dir failed: why",
            "create cache file failed: why",
            "encode cache failed: why",
            "finish cache failed: why",
            "flush cache failed: why",
            "replace cache failed: why",
        ]
    );
}

#[test]
fn a_temporary_file_stands_beside_the_real_one() {
    assert_eq!(temp_path("/c/folder-1.json.gz", 42), "/c/folder-1.json.tmp-42");
}
