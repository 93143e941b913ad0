//! Filtering and sorting.

use png_metadata_gui::chunks::TextChunk;
use png_metadata_gui::model::{FileMeta, FilePath, ImageEntry};
use png_metadata_gui::pins::Pin;
use png_metadata_gui::table::{
    compare_pin_matches, compare_rows, compare_values, filter_images, first_match_of, match_image,
    match_text, reading_of_bits, sort_visible, Reading, SortColumn,
};
use png_metadata_gui::text::Rank;

fn image(name: &str, size: u64, text: &str) -> ImageEntry {
    ImageEntry::from_parts(
        FilePath {
            text: name.to_string(),
            file_name: name.to_string(),
            name_bytes: name.as_bytes().to_vec(),
            extension: Some("png".to_string()),
        },
        FileMeta { size, created: None, modified: None, width: 1, height: 1 },
        vec![TextChunk { keyword: "params".to_string(), text: text.to_string() }],
    )
}

fn images() -> Vec<ImageEntry> {
    vec![
        image("b.png", 3000, "seed=10 model=x"),
        image("a.png", 20, "seed=9 model=Y"),
        image("C.png", 100, "steps=3"),
    ]
}

/// Numbers below a million, as whole values.
fn reading(value: &str) -> Option<Reading> {
    value.parse::<i32>().ok().map(|n| Reading::Value(i128::from(n)))
}

fn sorted(column: SortColumn, ascending: bool) -> Vec<String> {
    let images = images();
    let pins = vec![Pin::key("seed"), Pin::key("size")];
    let readings = images
        .iter()
        .map(|entry| first_match_of(entry, &pins[0], false).and_then(|row| reading(&row.value)))
        .collect();
    sort_visible(&images, vec![0, 1, 2], column, ascending, &pins, false, &readings)
        .into_iter()
        .map(|at| images[at].file_name.clone())
        .collect()
}

#[test]
fn a_search_keeps_what_answers_it() {
    let images = images();
    let (visible, matches) = filter_images(&images, "seed");
    assert_eq!(visible, [0, 1]);
    assert!(matches[2].is_none());
    let (visible, matches) = filter_images(&images, "");
    assert_eq!(visible, [0, 1, 2]);
    assert!(matches.iter().all(Option::is_none));
    assert!(filter_images(&images, "nowhere").0.is_empty());
}

#[test]
fn the_match_column_shows_the_first_match_and_counts_the_rest() {
    let entry = image("seed.png", 5, "seed=10 model=seedling");
    let info = match_image(&entry, "seed").expect("a match");
    assert_eq!((info.first.as_str(), info.count), ("name = seed.png", 3));
    assert_eq!(match_text(&info), "name = seed.png  (+2)");
    let info = match_image(&entry, "model").expect("a match");
    assert_eq!(match_text(&info), "model = seedling");
    assert!(match_image(&entry, "steps").is_none());
}

#[test]
fn names_sort_without_case() {
    assert_eq!(sorted(SortColumn::Name, true), ["a.png", "b.png", "C.png"]);
    assert_eq!(sorted(SortColumn::Name, false), ["C.png", "b.png", "a.png"]);
}

#[test]
fn numbers_sort_as_numbers_and_missing_values_last() {
    assert_eq!(sorted(SortColumn::Pin(0), true), ["a.png", "b.png", "C.png"]);
    assert_eq!(sorted(SortColumn::Pin(0), false), ["C.png", "b.png", "a.png"]);
}

#[test]
fn sort_keys_outrank_the_shown_values() {
    // "20 B", "100 B" and "3 KB" as texts would stand otherwise.
    assert_eq!(sorted(SortColumn::Pin(1), true), ["a.png", "C.png", "b.png"]);
}

#[test]
fn equal_values_keep_their_order() {
    let images = vec![image("z.png", 1, "k=1"), image("y.png", 1, "k=1"), image("x.png", 1, "k=1")];
    let pins = vec![Pin::key("k")];
    let readings = vec![Some(Reading::Value(1)); 3];
    for ascending in [true, false] {
        let order =
            sort_visible(&images, vec![2, 0, 1], SortColumn::Pin(0), ascending, &pins, false, &readings);
        assert_eq!(order, [2, 0, 1]);
    }
}

#[test]
fn values_compare_as_numbers_only_where_both_are() {
    let ten = Some(Reading::Value(10));
    let nine = Some(Reading::Value(9));
    assert_eq!(compare_values("10", "9", ten, nine), Rank::After);
    assert_eq!(compare_values("10", "x", ten, None), Rank::Before);
    assert_eq!(compare_values("9", "10", None, None), Rank::After);
    assert_eq!(compare_values("NaN", "9", Some(Reading::NotANumber), nine), Rank::Same);
    let entry = image("a.png", 1, "a=1 b=2");
    let a = first_match_of(&entry, &Pin::key("a"), false).expect("a row");
    let b = first_match_of(&entry, &Pin::key("b"), false).expect("a row");
    assert_eq!(compare_rows(a, b, None, None), Rank::Before);
    assert_eq!(compare_pin_matches(Some(a), None, None, None), Rank::Before);
    assert_eq!(compare_pin_matches(None, Some(a), None, None), Rank::After);
    assert_eq!(compare_pin_matches(None, None, None, None), Rank::Same);
}

#[test]
fn readings_order_as_floating_point_numbers_compare() {
    let numbers = [
        f64::NEG_INFINITY,
        f64::MIN,
        -1.5,
        -f64::MIN_POSITIVE,
        -5e-324,
        -0.0,
        0.0,
        5e-324,
        f64::MIN_POSITIVE,
        0.1,
        1.0,
        1.0000000000000002,
        1e300,
        f64::MAX,
        f64::INFINITY,
    ];
    for a in numbers {
        for b in numbers {
            let (Reading::Value(x), Reading::Value(y)) =
                (reading_of_bits(a.to_bits()), reading_of_bits(b.to_bits()))
            else {
                panic!("a number");
            };
            assert_eq!(x.partial_cmp(&y), a.partial_cmp(&b), "{a} and {b}");
        }
    }
    assert_eq!(reading_of_bits(f64::NAN.to_bits()), Reading::NotANumber);
    assert_eq!(reading_of_bits((-f64::NAN).to_bits()), Reading::NotANumber);
    assert_eq!(reading_of_bits(2.0f64.to_bits()), Reading::Value(0x4000_0000_0000_0000));
}
