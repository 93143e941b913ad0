//! The icon file.

use png_metadata_gui::icon::{build_icon, sizes};

fn word(bytes: &[u8], at: usize) -> u32 {
    u32::from_le_bytes([bytes[at], bytes[at + 1], bytes[at + 2], bytes[at + 3]])
}

#[test]
fn an_icon_holds_a_directory_and_its_images() {
    let images = vec![(16, vec![1, 2, 3]), (256, vec![9; 5])];
    let file = build_icon(&images);
    assert_eq!(file[..6], [0, 0, 1, 0, 2, 0]);
    assert_eq!(file.len(), 6 + 2 * 16 + 3 + 5);
    assert_eq!(file[6..14], [16, 16, 0, 0, 1, 0, 32, 0]);
    // A side of 256 is written as zero.
    assert_eq!(file[22..30], [0, 0, 0, 0, 1, 0, 32, 0]);
    assert_eq!((word(&file, 14), word(&file, 18)), (3, 38));
    assert_eq!((word(&file, 30), word(&file, 34)), (5, 41));
    assert_eq!(file[38..41], [1, 2, 3]);
    assert_eq!(file[41..], [9; 5]);
}

#[test]
fn an_icon_may_be_empty() {
    assert_eq!(build_icon(&Vec::new()), [0, 0, 1, 0, 0, 0]);
    assert!(sizes().contains(&256));
}
