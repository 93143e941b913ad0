//! Pins: the columns of the table, what they are called, what they select, and
//! what pinning a value from the tree does.

use vstd::prelude::*;

use crate::index::MetaRow;
use crate::lightbox::{self, Candidate};
use crate::lists;
use crate::model::{self, ImageEntry, PinMode};
use crate::text::{self, contains_text, has_char, lowercase, same_ignoring_ascii_case};

verus! {

/// A pinned table column. `pattern` and `mode` select rows; `label`, when set,
/// replaces the derived name in chips, table headers, and the pinned list.
pub struct Pin {
    pub pattern: String,
    pub label: Option<String>,
    pub mode: PinMode,
    /// Copy button in table cells. `None` means the user never chose, so
    /// [`default_copy_enabled`] decides.
    pub copy: Option<bool>,
}

/// A [`Pin`] as a mathematical value.
pub ghost struct PinModel {
    pub pattern: Seq<char>,
    pub label: Option<Seq<char>>,
    pub mode: PinMode,
    pub copy: Option<bool>,
}

impl View for Pin {
    type V = PinModel;

    open spec fn view(&self) -> PinModel {
        PinModel {
            pattern: self.pattern@,
            label: text::text_option(self.label),
            mode: self.mode,
            copy: self.copy,
        }
    }
}

/// Pins as mathematical values.
pub open spec fn pin_models(pins: Seq<Pin>) -> Seq<PinModel> {
    pins.map_values(|pin: Pin| pin@)
}

/// A key pin.
pub open spec fn key_pin(pattern: Seq<char>) -> PinModel {
    PinModel { pattern, label: None, mode: PinMode::Key, copy: None }
}

/// A title pin.
pub open spec fn title_pin(title: Seq<char>) -> PinModel {
    PinModel { pattern: title, label: Some(title), mode: PinMode::Title, copy: None }
}

impl Pin {
    pub fn key(pattern: &str) -> (pin: Pin)
        ensures
            pin@ == key_pin(pattern@),
    {
        Pin { pattern: pattern.to_owned(), label: None, mode: PinMode::Key, copy: None }
    }

    /// Typed pins: the user may have entered a key or a node title.
    pub fn auto(pattern: &str) -> (pin: Pin)
        ensures
            pin@ == (PinModel {
                pattern: pattern@,
                label: None,
                mode: PinMode::Auto,
                copy: None,
            }),
    {
        Pin { pattern: pattern.to_owned(), label: None, mode: PinMode::Auto, copy: None }
    }

    pub fn title(title: String) -> (pin: Pin)
        ensures
            pin@ == title_pin(title@),
    {
        Pin { pattern: title.clone(), label: Some(title), mode: PinMode::Title, copy: None }
    }

    /// A copy of the pin.
    pub fn copied(&self) -> (pin: Pin)
        ensures
            pin@ == self@,
    {
        Pin {
            pattern: self.pattern.clone(),
            label: text::clone_option(&self.label),
            mode: self.mode,
            copy: self.copy,
        }
    }
}

/// The pin that a typed text asks for: none where only white space was typed.
pub fn typed_pin(typed: &str) -> (pin: Option<Pin>)
    ensures
        match pin {
            Some(pin) => text::trimmed(typed@).len() > 0 && pin@ == (PinModel {
                pattern: text::trimmed(typed@),
                label: None,
                mode: PinMode::Auto,
                copy: None,
            }),
            None => text::trimmed(typed@).len() == 0,
        },
{
    let pattern = text::trim(typed);
    if pattern.as_str().is_empty() {
        None
    } else {
        Some(Pin::auto(pattern.as_str()))
    }
}

/// The pins of a first start.
pub open spec fn default_patterns() -> Seq<Seq<char>> {
    seq![
        "seed"@,
        "noise_seed"@,
        "steps"@,
        "cfg"@,
        "denoise"@,
        "sampler_name"@,
        "scheduler"@,
        "created"@,
        "modified"@,
    ]
}

/// The pins of a first start.
pub fn default_pins() -> (pins: Vec<Pin>)
    ensures
        pin_models(pins@) == default_patterns().map_values(|pattern: Seq<char>| key_pin(pattern)),
{
    let mut pins: Vec<Pin> = Vec::new();
    pins.push(Pin::key("seed"));
    pins.push(Pin::key("noise_seed"));
    pins.push(Pin::key("steps"));
    pins.push(Pin::key("cfg"));
    pins.push(Pin::key("denoise"));
    pins.push(Pin::key("sampler_name"));
    pins.push(Pin::key("scheduler"));
    pins.push(Pin::key("created"));
    pins.push(Pin::key("modified"));
    assert(pin_models(pins@) =~= default_patterns().map_values(
        |pattern: Seq<char>| key_pin(pattern),
    ));
    pins
}

/// Pins from stored patterns that had no labels yet.
pub fn pins_from_patterns(patterns: &Vec<String>) -> (pins: Vec<Pin>)
    ensures
        pin_models(pins@) == text::texts(patterns@).map_values(
            |pattern: Seq<char>| key_pin(pattern),
        ),
{
    let ghost made = |pattern: Seq<char>| key_pin(pattern);
    let mut pins: Vec<Pin> = Vec::new();
    for i in 0..patterns.len()
        invariant
            made == |pattern: Seq<char>| key_pin(pattern),
            pin_models(pins@) == text::texts(patterns@).take(i as int).map_values(made),
    {
        let ghost before = pins@;
        let pin = Pin::key(patterns[i].as_str());
        pins.push(pin);
        assert(pin_models(pins@) =~= pin_models(before).push(pin@));
        assert(text::texts(patterns@).take(i + 1).map_values(made) =~= text::texts(patterns@).take(
            i as int,
        ).map_values(made).push(made(patterns@[i as int]@)));
    }
    assert(text::texts(patterns@).take(patterns@.len() as int) =~= text::texts(patterns@));
    pins
}

/// The pins of a start: those that were stored, else those whose patterns were
/// stored before pins had labels, else the default ones.
pub fn stored_pins(stored: Option<Vec<Pin>>, patterns: Option<Vec<String>>) -> (pins: Vec<Pin>)
    ensures
        pin_models(pins@) == (match (stored, patterns) {
            (Some(stored), _) => pin_models(stored@),
            (None, Some(patterns)) => text::texts(patterns@).map_values(
                |pattern: Seq<char>| key_pin(pattern),
            ),
            (None, None) => default_patterns().map_values(|pattern: Seq<char>| key_pin(pattern)),
        }),
{
    match (stored, patterns) {
        (Some(stored), _) => stored,
        (None, Some(patterns)) => pins_from_patterns(&patterns),
        (None, None) => default_pins(),
    }
}

// ---------------------------------------------------------------------------
// Names
// ---------------------------------------------------------------------------

/// How a pin is shown: its label where it has one, else its key, else a marker
/// and the last segment of its path.
pub open spec fn label_of(pin: PinModel) -> Seq<char> {
    match pin.label {
        Some(label) => label,
        None => {
            let dot = text::last_place(pin.pattern, '.');
            if dot < 0 {
                pin.pattern
            } else {
                "⌖ "@ + pin.pattern.skip(dot + 1)
            }
        },
    }
}

/// Display form of a pin: an explicit label wins; otherwise bare keys show
/// as-is and exact-path pins show a location marker plus the final segment
/// (full pattern in tooltips).
pub fn pin_label(pin: &Pin) -> (label: String)
    ensures
        label@ == label_of(pin@),
{
    if let Some(label) = &pin.label {
        return label.clone();
    }
    let chars = text::characters(pin.pattern.as_str());
    let count = chars.len();
    match text::find_last(&chars, '.') {
        Some(dot) => {
            let last = text::text_between(&chars, dot + 1, count);
            assert(pin.pattern@.subrange(dot + 1, pin.pattern@.len() as int) =~= pin.pattern@.skip(
                dot + 1,
            ));
            text::concat("⌖ ", last.as_str())
        },
        None => pin.pattern.clone(),
    }
}

/// Whether a pin copies by default, by its name in lower case.
pub open spec fn names_a_prompt_or_seed(lowered: Seq<char>) -> bool {
    text::occurs_in("prompt"@, lowered) || text::occurs_in("seed"@, lowered)
}

/// Computes [`names_a_prompt_or_seed`].
pub fn copies_when_lowered(lowered: &str) -> (enabled: bool)
    ensures
        enabled == names_a_prompt_or_seed(lowered@),
{
    contains_text(lowered, "prompt") || contains_text(lowered, "seed")
}

/// Whether a pin of this name copies by default.
pub open spec fn copies_by_default(label: Seq<char>) -> bool {
    names_a_prompt_or_seed(text::lowered(label))
}

/// Copy-button default for a pin the user never toggled. Prompts and seeds are
/// the values people copy out of a workflow. The rule reads the displayed name,
/// so a renamed or exact-path pin follows what its column shows.
pub fn default_copy_enabled(display_label: &str) -> (enabled: bool)
    ensures
        enabled == copies_by_default(display_label@),
        text::all_ascii(display_label@) ==> enabled == names_a_prompt_or_seed(
            text::ascii_lowered(display_label@),
        ),
{
    copies_when_lowered(lowercase(display_label).as_str())
}

/// Whether a pin's values are copied.
pub open spec fn copies(pin: PinModel) -> bool {
    match pin.copy {
        Some(choice) => choice,
        None => copies_by_default(label_of(pin)),
    }
}

/// Whether this pin's table cells show a copy button. An explicit choice wins
/// over the default in both directions.
pub fn pin_copies(pin: &Pin) -> (yes: bool)
    ensures
        yes == copies(pin@),
{
    match pin.copy {
        Some(choice) => choice,
        None => default_copy_enabled(pin_label(pin).as_str()),
    }
}

/// Storage key for the Name column's width. The `col:` and `pin:` namespaces
/// keep a pin whose pattern is literally "name" from claiming this entry.
pub const NAME_COLUMN_KEY: &'static str = "col:name";

/// The storage key of a pin column's width.
pub open spec fn column_key(pattern: Seq<char>) -> Seq<char> {
    "pin:"@ + text::lowered(pattern)
}

/// Storage key for a pin column's width. Keyed by pattern, not position, so a
/// width follows its pin through a reorder.
pub fn pin_column_key(pin: &Pin) -> (key: String)
    ensures
        key@ == column_key(pin@.pattern),
        text::all_ascii(pin@.pattern) ==> key@ == "pin:"@ + text::ascii_lowered(pin@.pattern),
{
    text::concat("pin:", lowercase(pin.pattern.as_str()).as_str())
}

/// No pin can claim the width of the name column.
pub proof fn no_pin_claims_the_name_column(pattern: Seq<char>)
    ensures
        column_key(pattern) != NAME_COLUMN_KEY@,
{
    reveal_strlit("col:name");
    reveal_strlit("pin:");
    assert(column_key(pattern)[0] == 'p');
}

/// Two spellings of one pattern that differ in case share one width.
pub proof fn column_keys_ignore_case(one: Seq<char>, other: Seq<char>)
    requires
        text::lowered(one) == text::lowered(other),
    ensures
        column_key(one) == column_key(other),
{
}

/// What kind of pin it is, as a chip's tooltip says.
pub open spec fn note_of(pin: PinModel) -> Seq<char> {
    match pin.mode {
        PinMode::Title => "ComfyUI node title"@,
        PinMode::Key => if pin.pattern.contains('.') {
            "exact path"@
        } else {
            "key"@
        },
        PinMode::Auto => if pin.pattern.contains('.') {
            "exact path"@
        } else {
            "key or node title"@
        },
    }
}

/// Computes [`note_of`].
pub fn mode_note(pin: &Pin) -> (note: &'static str)
    ensures
        note@ == note_of(pin@),
{
    match pin.mode {
        PinMode::Title => "ComfyUI node title",
        PinMode::Key => if has_char(pin.pattern.as_str(), '.') {
            "exact path"
        } else {
            "key"
        },
        PinMode::Auto => if has_char(pin.pattern.as_str(), '.') {
            "exact path"
        } else {
            "key or node title"
        },
    }
}

/// The tag behind a pin's name in the pinned list.
pub fn pin_tag(pin: &Pin) -> (tag: Option<&'static str>)
    ensures
        match tag {
            Some(tag) => tag@ == (if pin.mode == PinMode::Title {
                "node title"@
            } else {
                "exact path"@
            }) && (pin.mode == PinMode::Title || pin.pattern@.contains('.')),
            None => pin.mode != PinMode::Title && !pin.pattern@.contains('.'),
        },
{
    match pin.mode {
        PinMode::Title => Some("node title"),
        _ => if has_char(pin.pattern.as_str(), '.') {
            Some("exact path")
        } else {
            None
        },
    }
}

// ---------------------------------------------------------------------------
// The strip's candidates
// ---------------------------------------------------------------------------

/// The candidates of one pin: its label, whether it copies, and the value of
/// each row it selects.
pub open spec fn pin_candidates(rows: Seq<MetaRow>, pin: PinModel, use_titles: bool) -> Seq<
    (Seq<char>, bool, Seq<char>),
> {
    lists::picked(
        rows,
        |row: MetaRow|
            model::mode_hit(rows, row, pin.pattern, pin.mode, use_titles),
    ).map_values(
        |row: MetaRow| (label_of(pin), copies(pin), row.value@),
    )
}

/// The candidates of several pins, pin after pin.
pub open spec fn all_candidates(
    rows: Seq<MetaRow>,
    pins: Seq<PinModel>,
    use_titles: bool,
) -> Seq<(Seq<char>, bool, Seq<char>)>
    decreases pins.len(),
{
    if pins.len() == 0 {
        Seq::empty()
    } else {
        all_candidates(rows, pins.drop_last(), use_titles) + pin_candidates(
            rows,
            pins.last(),
            use_titles,
        )
    }
}

/// The lightbox strip's input: one entry per (pin, match) pair in
/// pin-then-document order, each carrying its pin's copy flag.
/// [`lightbox::build_strip`] is what drops the copy-disabled ones, so the flag
/// travels with the value rather than being filtered here.
pub fn strip_candidates(entry: &ImageEntry, pins: &Vec<Pin>, use_titles: bool) -> (candidates: Vec<
    Candidate,
>)
    ensures
        lightbox::candidate_models(candidates@) == all_candidates(
            entry.rows@,
            pin_models(pins@),
            use_titles,
        ),
{
    let ghost all = pin_models(pins@);
    let mut candidates: Vec<Candidate> = Vec::new();
    assert(all.take(0) =~= Seq::empty());
    assert(lightbox::candidate_models(candidates@) =~= Seq::empty());
    for i in 0..pins.len()
        invariant
            all == pin_models(pins@),
            lightbox::candidate_models(candidates@) == all_candidates(
                entry.rows@,
                all.take(i as int),
                use_titles,
            ),
    {
        let pin = &pins[i];
        let label = pin_label(pin);
        let copying = pin_copies(pin);
        let found = entry.rows_for_mode(pin.pattern.as_str(), pin.mode, use_titles);
        let ghost rows = model::pointed_at(found@);
        let ghost before = lightbox::candidate_models(candidates@);
        let ghost made = |row: MetaRow|
            (label_of(pin@), copies(pin@), row.value@);
        assert(before + rows.take(0).map_values(made) =~= before);
        for k in 0..found.len()
            invariant
                label@ == label_of(pin@),
                copying == copies(pin@),
                rows == model::pointed_at(found@),
                made == |row: MetaRow| (label_of(pin@), copies(pin@), row.value@),
                lightbox::candidate_models(candidates@) == before + rows.take(
                    k as int,
                ).map_values(made),
        {
            let ghost earlier = candidates@;
            let candidate = (label.clone(), copying, found[k].value.clone());
            candidates.push(candidate);
            assert(lightbox::candidate_models(candidates@) =~= lightbox::candidate_models(
                earlier,
            ).push(lightbox::candidate_model(candidate)));
            assert(rows.take(k + 1).map_values(made) =~= rows.take(k as int).map_values(made).push(
                made(rows[k as int]),
            ));
            assert(before + rows.take(k + 1).map_values(made) =~= (before + rows.take(
                k as int,
            ).map_values(made)).push(made(rows[k as int])));
        }
        proof {
            assert(rows.take(found@.len() as int) =~= rows);
            assert(all.take(i + 1).drop_last() =~= all.take(i as int));
            assert(all.take(i + 1).last() == pin@);
            assert(rows.map_values(made) =~= pin_candidates(entry.rows@, pin@, use_titles));
        }
    }
    assert(all.take(pins@.len() as int) =~= all);
    candidates
}

// ---------------------------------------------------------------------------
// Pinning from the tree
// ---------------------------------------------------------------------------

/// Whether two texts are equal but for the case of ASCII letters.
pub open spec fn same_but_case(a: Seq<char>, b: Seq<char>) -> bool {
    text::ascii_lowered(a) == text::ascii_lowered(b)
}

/// Whether a key or typed pin names this key.
pub open spec fn pins_key(pin: PinModel, key: Seq<char>) -> bool {
    pin.mode != PinMode::Title && same_but_case(pin.pattern, key)
}

/// Whether a pin's pattern is this path.
pub open spec fn pins_path(pin: PinModel, path: Seq<char>) -> bool {
    same_but_case(pin.pattern, path)
}

/// Whether a title or typed pin stands in this title, which is in lower case.
pub open spec fn pins_title(pin: PinModel, title_lc: Seq<char>) -> bool {
    (pin.mode == PinMode::Title || (pin.mode == PinMode::Auto && !pin.pattern.contains('.')))
        && pin.pattern.len() > 0 && text::occurs_in(text::lowered(pin.pattern), title_lc)
}

/// In which ways a leaf of the tree is pinned.
#[derive(Clone, Copy, PartialEq, Eq, Structural, Debug)]
pub struct LeafPins {
    pub by_key: bool,
    pub by_path: bool,
    pub by_title: bool,
}

impl LeafPins {
    /// Whether the leaf is pinned at all.
    pub fn any(self) -> (pinned: bool)
        ensures
            pinned == (self.by_key || self.by_path || self.by_title),
    {
        self.by_key || self.by_path || self.by_title
    }
}

/// In which ways a leaf is pinned. Keys count for direct leaves only; titles
/// count where the leaf's node has one that a title pin could find.
pub fn leaf_pins(
    pins: &Vec<Pin>,
    path: &str,
    key: &str,
    direct: bool,
    title_lc: &Option<String>,
) -> (found: LeafPins)
    ensures
        found.by_key == (direct && exists|i: int|
            0 <= i < pins@.len() && pins_key((#[trigger] pins@[i])@, key@)),
        found.by_path == exists|i: int|
            0 <= i < pins@.len() && pins_path((#[trigger] pins@[i])@, path@),
        found.by_title == (title_lc matches Some(title) && exists|i: int|
            0 <= i < pins@.len() && pins_title((#[trigger] pins@[i])@, title@)),
{
    let mut by_key = false;
    let mut by_path = false;
    let mut by_title = false;
    for i in 0..pins.len()
        invariant
            by_key == (direct && exists|k: int|
                0 <= k < i && pins_key((#[trigger] pins@[k])@, key@)),
            by_path == exists|k: int| 0 <= k < i && pins_path((#[trigger] pins@[k])@, path@),
            by_title == (title_lc matches Some(title) && exists|k: int|
                0 <= k < i && pins_title((#[trigger] pins@[k])@, title@)),
    {
        let pin = &pins[i];
        let keyed = match pin.mode {
            PinMode::Title => false,
            _ => same_ignoring_ascii_case(pin.pattern.as_str(), key),
        };
        let located = same_ignoring_ascii_case(pin.pattern.as_str(), path);
        let titled = match title_lc {
            Some(title) => {
                let matchable = match pin.mode {
                    PinMode::Title => true,
                    PinMode::Auto => !has_char(pin.pattern.as_str(), '.'),
                    PinMode::Key => false,
                };
                matchable && !pin.pattern.as_str().is_empty() && contains_text(
                    title.as_str(),
                    lowercase(pin.pattern.as_str()).as_str(),
                )
            },
            None => false,
        };
        assert(keyed == pins_key(pins@[i as int]@, key@));
        assert(located == pins_path(pins@[i as int]@, path@));
        assert(title_lc matches Some(title) ==> titled == pins_title(pins@[i as int]@, title@));
        by_key = by_key || (direct && keyed);
        by_path = by_path || located;
        by_title = by_title || titled;
    }
    LeafPins { by_key, by_path, by_title }
}

/// An exact-path pin.
pub open spec fn path_pin(path: Seq<char>, label: Option<Seq<char>>) -> PinModel {
    PinModel { pattern: path, label, mode: PinMode::Key, copy: None }
}

/// The pin that clicking a leaf's pin toggles. An exact-path pin is taken back
/// first. A title pin only ever finds inputs of nodes, so one is made only where
/// the leaf is such an input; any other direct leaf gets a key pin, and an
/// element of a list an exact-path pin that carries the node's title.
pub open spec fn clicked_pin(
    path: Seq<char>,
    key: Seq<char>,
    direct: bool,
    by_path: bool,
    is_titled_input: bool,
    node_title: Option<Seq<char>>,
) -> PinModel {
    if by_path {
        path_pin(path, None)
    } else if direct {
        match node_title {
            Some(title) => if is_titled_input {
                title_pin(title)
            } else {
                key_pin(key)
            },
            None => key_pin(key),
        }
    } else {
        path_pin(path, node_title)
    }
}

/// The pin that clicking a leaf's pin toggles.
pub fn leaf_click(
    path: &str,
    key: &str,
    direct: bool,
    by_path: bool,
    is_titled_input: bool,
    node_title: Option<String>,
) -> (pin: Pin)
    ensures
        pin@ == clicked_pin(
            path@,
            key@,
            direct,
            by_path,
            is_titled_input,
            text::text_option(node_title),
        ),
{
    if by_path {
        return path_pin_of(path, None);
    }
    if direct {
        return match node_title {
            Some(title) => if is_titled_input {
                Pin::title(title)
            } else {
                Pin::key(key)
            },
            None => Pin::key(key),
        };
    }
    path_pin_of(path, node_title)
}

/// An exact-path pin.
pub fn path_pin_of(path: &str, label: Option<String>) -> (pin: Pin)
    ensures
        pin@ == path_pin(path@, text::text_option(label)),
{
    Pin { pattern: path.to_owned(), label, mode: PinMode::Key, copy: None }
}

/// The pin that the menu's exact-path entry toggles: a new one carries the
/// node's title as its label.
pub fn menu_path_pin(path: &str, by_path: bool, node_title: Option<String>) -> (pin: Pin)
    ensures
        pin@ == path_pin(
            path@,
            if by_path {
                None
            } else {
                text::text_option(node_title)
            },
        ),
{
    if by_path {
        path_pin_of(path, None)
    } else {
        path_pin_of(path, node_title)
    }
}

/// The first pin with this pattern, in any case, or the number of pins.
pub open spec fn place_of_pattern(pins: Seq<PinModel>, pattern: Seq<char>) -> int
    decreases pins.len(),
{
    if pins.len() == 0 || same_but_case(pins[0].pattern, pattern) {
        0
    } else {
        1 + place_of_pattern(pins.drop_first(), pattern)
    }
}

/// The pins with one toggled: gone where its pattern was pinned, in any case,
/// else added at the end.
pub open spec fn toggled(pins: Seq<PinModel>, pin: PinModel) -> Seq<PinModel> {
    let at = place_of_pattern(pins, pin.pattern);
    if at < pins.len() {
        pins.remove(at)
    } else {
        pins.push(pin)
    }
}

fn find_pattern(pins: &Vec<Pin>, pattern: &str) -> (at: usize)
    ensures
        at == place_of_pattern(pin_models(pins@), pattern@),
        at <= pins@.len(),
{
    let ghost all = pin_models(pins@);
    let mut at: usize = 0;
    assert(all.skip(0) =~= all);
    while at < pins.len()
        invariant
            at <= pins@.len(),
            all == pin_models(pins@),
            place_of_pattern(all, pattern@) == at + place_of_pattern(
                all.skip(at as int),
                pattern@,
            ),
        decreases pins@.len() - at,
    {
        assert(all.skip(at as int)[0] == pins@[at as int]@);
        if same_ignoring_ascii_case(pins[at].pattern.as_str(), pattern) {
            return at;
        }
        assert(all.skip(at as int).drop_first() =~= all.skip(at + 1));
        at = at + 1;
    }
    at
}

/// Toggles a pin.
pub fn toggle_pin(pins: &mut Vec<Pin>, pin: Pin)
    ensures
        pin_models(final(pins)@) == toggled(pin_models(old(pins)@), pin@),
{
    let ghost before = pins@;
    let at = find_pattern(pins, pin.pattern.as_str());
    if at < pins.len() {
        let _ = pins.remove(at);
        assert(pin_models(pins@) =~= pin_models(before).remove(at as int));
    } else {
        pins.push(pin);
        assert(pin_models(pins@) =~= pin_models(before).push(pin@));
    }
}

/// Toggling a pin that was not pinned and toggling it again, in any spelling,
/// leaves the pins as they were.
pub proof fn toggling_twice_changes_nothing(pins: Seq<PinModel>, one: PinModel, other: PinModel)
    requires
        place_of_pattern(pins, one.pattern) == pins.len(),
        same_but_case(one.pattern, other.pattern),
    ensures
        toggled(toggled(pins, one), other) == pins,
{
    let more = pins.push(one);
    assert(toggled(pins, one) == more);
    missing_then_last(pins, one, other.pattern);
    assert(more.remove(pins.len() as int) =~= pins);
}

proof fn missing_then_last(pins: Seq<PinModel>, one: PinModel, pattern: Seq<char>)
    requires
        place_of_pattern(pins, one.pattern) == pins.len(),
        same_but_case(one.pattern, pattern),
    ensures
        place_of_pattern(pins.push(one), pattern) == pins.len(),
    decreases pins.len(),
{
    let more = pins.push(one);
    if pins.len() > 0 {
        assert(!same_but_case(pins[0].pattern, one.pattern));
        assert(more[0] == pins[0]);
        assert(more.drop_first() =~= pins.drop_first().push(one));
        missing_then_last(pins.drop_first(), one, pattern);
    } else {
        assert(more[0] == one);
    }
}

} // verus!
