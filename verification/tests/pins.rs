//! Pins.

use png_metadata_gui::chunks::TextChunk;
use png_metadata_gui::lightbox::{build_strip, MAX_STRIP_CHARS, MAX_STRIP_ITEMS};
use png_metadata_gui::model::{FileMeta, FilePath, ImageEntry, PinMode};
use png_metadata_gui::pins::{
    copies_when_lowered, default_copy_enabled, default_pins, leaf_click, leaf_pins, menu_path_pin, mode_note,
    pin_column_key, pin_copies, pin_label, pin_tag, pins_from_patterns, stored_pins,
    strip_candidates, toggle_pin, typed_pin, LeafPins, Pin, NAME_COLUMN_KEY,
};

#[test]
fn a_pin_named_name_cannot_claim_the_name_column_width() {
    // Both keys share one map, so the namespaces are what keep a pin
    // pattern from overwriting a fixed column's width.
    assert_ne!(pin_column_key(&Pin::key("name")), NAME_COLUMN_KEY);
}

#[test]
fn a_pin_column_width_key_ignores_pattern_case() {
    // Pin matching is case-insensitive, so two spellings of one pin must
    // not end up with two different saved widths.
    assert_eq!(pin_column_key(&Pin::key("CFG")), pin_column_key(&Pin::key("cfg")));
}

#[test]
fn copy_defaults_on_for_prompt_and_seed_labels() {
    assert!(default_copy_enabled("seed"));
    assert!(default_copy_enabled("noise_seed"));
    assert!(default_copy_enabled("Positive Prompt"));
    assert!(default_copy_enabled("PROMPT"));
}

#[test]
fn copy_defaults_off_for_every_other_label() {
    assert!(!default_copy_enabled("steps"));
    assert!(!default_copy_enabled("cfg"));
    assert!(!default_copy_enabled("sampler_name"));
    // The rule reads the displayed label, so an exact path inside the
    // `prompt` chunk shows only its final segment and stays off.
    assert!(!default_copy_enabled("⌖ text"));
}

#[test]
fn the_copy_default_reads_the_name_in_lower_case() {
    assert!(copies_when_lowered("noise_seed"));
    assert!(copies_when_lowered("positive prompt"));
    assert!(!copies_when_lowered("SEED"));
    assert!(!copies_when_lowered("steps"));
    assert!(!copies_when_lowered(""));
}

#[test]
fn a_typed_pin_is_what_was_typed_without_the_space_around_it() {
    let pin = typed_pin("  Positive Prompt\t").expect("something was typed");
    assert_eq!(pin.pattern, "Positive Prompt");
    assert_eq!(pin.mode, PinMode::Auto);
    assert_eq!((pin.label, pin.copy), (None, None));
    assert!(typed_pin("").is_none());
    assert!(typed_pin(" \t\u{3000}").is_none());
}

#[test]
fn an_explicit_copy_choice_beats_the_default() {
    let mut prompt_pin = Pin::key("prompt");
    let mut cfg_pin = Pin::key("cfg");
    assert!(pin_copies(&prompt_pin));
    assert!(!pin_copies(&cfg_pin));
    prompt_pin.copy = Some(false);
    cfg_pin.copy = Some(true);
    assert!(!pin_copies(&prompt_pin));
    assert!(pin_copies(&cfg_pin));
}

#[test]
fn only_the_seed_default_pins_copy() {
    let pins = default_pins();
    let copying: Vec<&str> = pins
        .iter()
        .filter(|pin| pin_copies(pin))
        .map(|pin| pin.pattern.as_str())
        .collect();
    assert_eq!(copying, vec!["seed", "noise_seed"]);
}

/// One ComfyUI-shaped image: a titled prompt node plus two `cfg` values.
/// Built through the public construction path, so `file.*` rows are
/// present here exactly as they are at runtime.
fn comfy_entry() -> ImageEntry {
    let text = r#"{"6": {"inputs": {"value": "a cat"}, "_meta": {"title": "Positive Prompt"}},
             "9": {"inputs": {"cfg": 4.5}}, "12": {"inputs": {"cfg": 1.0}}}"#;
    ImageEntry::from_parts(
        FilePath {
            text: "test.png".to_string(),
            file_name: "test.png".to_string(),
            name_bytes: b"test.png".to_vec(),
            extension: Some("png".to_string()),
        },
        FileMeta {
            size: 0,
            created: None,
            modified: None,
            width: 8,
            height: 8,
        },
        vec![TextChunk {
            keyword: "prompt".to_string(),
            text: text.to_string(),
        }],
    )
}

/// The three pins the strip has to tell apart: copy-enabled with one
/// match, copy-disabled with two, and copy-enabled with none.
fn strip_pins() -> Vec<Pin> {
    vec![
        Pin::title("Positive Prompt".to_string()),
        Pin::key("cfg"),
        Pin::key("seed"),
    ]
}

#[test]
fn a_candidate_is_one_pin_match_pair_in_pin_then_document_order() {
    let entry = comfy_entry();
    let candidates = strip_candidates(&entry, &strip_pins(), true);
    let listed: Vec<(&str, bool, &str)> = candidates
        .iter()
        .map(|(label, copies, value)| (label.as_str(), *copies, value.as_str()))
        .collect();
    assert_eq!(
        listed,
        vec![
            ("Positive Prompt", true, "a cat"),
            ("cfg", false, "4.5"),
            ("cfg", false, "1.0"),
        ]
    );
}

#[test]
fn only_the_copy_enabled_pins_reach_the_strip() {
    // The bar never shows a bare label with nothing after it, so a pin
    // with no match contributes nothing either.
    let entry = comfy_entry();
    let candidates = strip_candidates(&entry, &strip_pins(), true);
    let strip = build_strip(&candidates, MAX_STRIP_ITEMS, MAX_STRIP_CHARS);
    let listed: Vec<(&str, &str)> = strip
        .iter()
        .map(|item| (item.label.as_str(), item.value.as_str()))
        .collect();
    assert_eq!(listed, vec![("Positive Prompt", "a cat")]);
}

#[test]
fn turning_a_pins_copy_button_off_takes_it_off_the_strip() {
    let entry = comfy_entry();
    let mut pins = vec![Pin::title("Positive Prompt".to_string())];
    assert_eq!(strip_candidates(&entry, &pins, true).len(), 1);
    let strip_on = build_strip(
        &strip_candidates(&entry, &pins, true),
        MAX_STRIP_ITEMS,
        MAX_STRIP_CHARS,
    );
    assert_eq!(strip_on.len(), 1);

    pins[0].copy = Some(false);
    let strip_off = build_strip(
        &strip_candidates(&entry, &pins, true),
        MAX_STRIP_ITEMS,
        MAX_STRIP_CHARS,
    );
    assert!(strip_off.is_empty());
}

#[test]
fn a_pin_is_named_by_its_label_its_key_or_its_last_segment() {
    assert_eq!(pin_label(&Pin::key("cfg")), "cfg");
    assert_eq!(pin_label(&Pin::key("prompt.6.inputs.text")), "⌖ text");
    let mut named = Pin::key("prompt.6.inputs.text");
    named.label = Some("Text".to_string());
    assert_eq!(pin_label(&named), "Text");
    assert_eq!(pin_label(&named.copied()), "Text");
    let stored = pins_from_patterns(&vec!["a".to_string(), "b.c".to_string()]);
    assert_eq!(stored.len(), 2);
    assert_eq!(pin_label(&stored[1]), "⌖ c");
}

#[test]
fn the_kind_of_a_pin_is_told_from_mode_and_pattern() {
    assert_eq!(mode_note(&Pin::key("cfg")), "key");
    assert_eq!(mode_note(&Pin::key("a.b")), "exact path");
    assert_eq!(mode_note(&Pin::auto("cfg")), "key or node title");
    assert_eq!(mode_note(&Pin::auto("a.b")), "exact path");
    assert_eq!(mode_note(&Pin::title("T.x".to_string())), "ComfyUI node title");
    assert_eq!(pin_tag(&Pin::key("cfg")), None);
    assert_eq!(pin_tag(&Pin::key("a.b")), Some("exact path"));
    assert_eq!(pin_tag(&Pin::title("T".to_string())), Some("node title"));
}

#[test]
fn toggling_a_pin_twice_leaves_the_pins_as_they_were() {
    let mut pins = default_pins();
    let count = pins.len();
    toggle_pin(&mut pins, Pin::key("Sampler"));
    assert_eq!(pins.len(), count + 1);
    assert_eq!(pins[count].pattern, "Sampler");
    toggle_pin(&mut pins, Pin::auto("SAMPLER"));
    assert_eq!(pins.len(), count);
    toggle_pin(&mut pins, Pin::key("SEED"));
    assert_eq!(pins[0].pattern, "noise_seed");
}

#[test]
fn a_leaf_knows_how_it_is_pinned() {
    let pins = vec![
        Pin::key("CFG"),
        Pin::key("prompt.6.inputs.value"),
        Pin::title("Positive".to_string()),
    ];
    let title = Some("positive prompt".to_string());
    let found = leaf_pins(&pins, "prompt.6.inputs.value", "value", true, &title);
    assert_eq!(found, LeafPins { by_key: false, by_path: true, by_title: true });
    let found = leaf_pins(&pins, "prompt.9.inputs.cfg", "cfg", true, &None);
    assert_eq!(found, LeafPins { by_key: true, by_path: false, by_title: false });
    let indirect = leaf_pins(&pins, "prompt.9.inputs.cfg.0", "cfg", false, &None);
    assert!(!indirect.any());
    assert!(found.any());
}

#[test]
fn clicking_a_leaf_pins_what_will_be_found_again() {
    let title = || Some("Positive Prompt".to_string());
    let taken_back = leaf_click("p.6.inputs.value", "value", true, true, true, title());
    assert_eq!((taken_back.pattern.as_str(), taken_back.label), ("p.6.inputs.value", None));
    let titled = leaf_click("p.6.inputs.value", "value", true, false, true, title());
    assert_eq!(titled.mode, PinMode::Title);
    assert_eq!(titled.pattern, "Positive Prompt");
    let keyed = leaf_click("p.6.class_type", "class_type", true, false, false, title());
    assert_eq!((keyed.mode, keyed.pattern.as_str()), (PinMode::Key, "class_type"));
    let element = leaf_click("p.6.inputs.x.0", "x[0]", false, false, false, title());
    assert_eq!(element.pattern, "p.6.inputs.x.0");
    assert_eq!(element.label.as_deref(), Some("Positive Prompt"));
    assert_eq!(menu_path_pin("p", true, title()).label, None);
    assert_eq!(menu_path_pin("p", false, title()).label.as_deref(), Some("Positive Prompt"));
}

#[test]
fn stored_pins_outrank_stored_patterns_and_both_the_defaults() {
    let patterns = || Some(vec!["x".to_string(), "y.z".to_string()]);
    let named = stored_pins(Some(vec![Pin::title("T".to_string())]), patterns());
    assert_eq!(named.len(), 1);
    assert_eq!(named[0].mode, PinMode::Title);
    let migrated = stored_pins(None, patterns());
    assert_eq!(migrated.len(), 2);
    assert_eq!((migrated[1].pattern.as_str(), migrated[1].mode), ("y.z", PinMode::Key));
    assert_eq!(stored_pins(None, None).len(), default_pins().len());
    assert!(stored_pins(Some(Vec::new()), patterns()).is_empty());
}
