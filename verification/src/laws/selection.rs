//! Pins: which rows they select, how they are called, and what pinning does.

use vstd::prelude::*;

use crate::index::MetaRow;
use crate::laws::texts;
use crate::lightbox;
use crate::lists;
use crate::model::{self, PinMode};
use crate::pins::{self, PinModel};
use crate::text;

verus! {

/// A key pin selects the direct rows of its name, in any case, and no row of
/// another name, however alike.
pub proof fn a_key_pin_selects_by_the_whole_name(
    rows: Seq<MetaRow>,
    row: MetaRow,
    pattern: Seq<char>,
    use_titles: bool,
)
    requires
        !pattern.contains('.'),
    ensures
        text::lowered(row.key@) != text::lowered(pattern) ==> !model::mode_hit(
            rows,
            row,
            pattern,
            PinMode::Key,
            use_titles,
        ) && !model::pin_hit(row, pattern),
        row.is_direct && text::lowered(row.key@) == text::lowered(pattern) ==> model::mode_hit(
            rows,
            row,
            pattern,
            PinMode::Key,
            use_titles,
        ) && model::mode_hit(rows, row, pattern, PinMode::Auto, use_titles) && model::pin_hit(
            row,
            pattern,
        ),
        !row.is_direct ==> !model::mode_hit(rows, row, pattern, PinMode::Key, use_titles)
            && !model::pin_hit(row, pattern),
{
}

/// A key pin finds, in the order of the document, every row that it selects and
/// no other: where it finds a row, the row is direct and has the pin's name.
pub proof fn a_key_pin_finds_its_rows(rows: Seq<MetaRow>, pattern: Seq<char>, use_titles: bool)
    requires
        !pattern.contains('.'),
    ensures
        lists::picked(
            rows,
            |row: MetaRow| model::mode_hit(rows, row, pattern, PinMode::Key, use_titles),
        ) == rows.filter(
            |row: MetaRow| row.is_direct && text::lowered(row.key@) == text::lowered(pattern),
        ),
        lists::picked(rows, |row: MetaRow| model::pin_hit(row, pattern)) == rows.filter(
            |row: MetaRow| row.is_direct && text::lowered(row.key@) == text::lowered(pattern),
        ),
{
    let named = |row: MetaRow| row.is_direct && text::lowered(row.key@) == text::lowered(pattern);
    let one = |row: MetaRow| model::mode_hit(rows, row, pattern, PinMode::Key, use_titles);
    let other = |row: MetaRow| model::pin_hit(row, pattern);
    lists::picked_agrees(rows, one, named);
    lists::picked_agrees(rows, other, named);
    texts::picking_is_filtering(rows, named);
}

/// A pin with a dot selects by the whole path, in any case, and no row at
/// another path, whether titles are in use or not.
pub proof fn a_path_pin_selects_by_the_whole_path(
    rows: Seq<MetaRow>,
    row: MetaRow,
    pattern: Seq<char>,
    use_titles: bool,
)
    requires
        pattern.contains('.'),
        row.valid(),
    ensures
        model::mode_hit(rows, row, pattern, PinMode::Key, use_titles) <==> text::lowered(row.path@)
            == text::lowered(pattern),
        model::mode_hit(rows, row, pattern, PinMode::Auto, use_titles) <==> text::lowered(
            row.path@,
        ) == text::lowered(pattern),
        model::pin_hit(row, pattern) <==> text::lowered(row.path@) == text::lowered(pattern),
{
}

/// Whether a row holds the title of a node that a path stands in, the node's
/// path and the rest of the path being joined by `between`.
pub open spec fn holds_title(
    row: MetaRow,
    node: Seq<char>,
    path: Seq<char>,
    between: Seq<char>,
) -> bool {
    row.path@ == node + "._meta.title"@ && (node + between).is_prefix_of(path)
}

proof fn a_title_row_names_its_node(row: MetaRow, node: Seq<char>)
    ensures
        model::titled_node(row.path@) == Some(node) <==> row.path@ == node + "._meta.title"@,
{
    let suffix = "._meta.title"@;
    let path = row.path@;
    if path == node + suffix {
        assert(path.subrange(path.len() - suffix.len(), path.len() as int) =~= suffix);
        assert(path.take(path.len() - suffix.len()) =~= node);
    }
    if model::titled_node(path) == Some(node) {
        assert(suffix.is_suffix_of(path));
        assert(path =~= node + suffix);
    }
}

/// The title of the node that a path stands in is held by the first row that
/// holds one; where there is none, no row does.
pub proof fn the_title_is_the_first_one(rows: Seq<MetaRow>, path: Seq<char>, between: Seq<char>)
    ensures
        ({
            let at = model::title_row(rows, path, between, 0);
            &&& 0 <= at <= rows.len()
            &&& at < rows.len() ==> exists|node: Seq<char>|
                #[trigger] holds_title(rows[at], node, path, between)
            &&& forall|r: int, node: Seq<char>|
                0 <= r < at ==> !#[trigger] holds_title(rows[r], node, path, between)
        }),
{
    title_from(rows, path, between, 0);
}

proof fn title_from(rows: Seq<MetaRow>, path: Seq<char>, between: Seq<char>, from: int)
    requires
        0 <= from <= rows.len(),
    ensures
        ({
            let at = model::title_row(rows, path, between, from);
            &&& from <= at <= rows.len()
            &&& at < rows.len() ==> exists|node: Seq<char>|
                #[trigger] holds_title(rows[at], node, path, between)
            &&& forall|r: int, node: Seq<char>|
                from <= r < at ==> !#[trigger] holds_title(rows[r], node, path, between)
        }),
    decreases rows.len() - from,
{
    if from < rows.len() {
        assert forall|node: Seq<char>| #[trigger]
            holds_title(rows[from], node, path, between) implies model::titles(
            rows[from],
            path,
            between,
        ) by {
            a_title_row_names_its_node(rows[from], node);
        }
        if model::titles(rows[from], path, between) {
            let node = model::titled_node(rows[from].path@)->Some_0;
            a_title_row_names_its_node(rows[from], node);
            assert(holds_title(rows[from], node, path, between));
        } else {
            title_from(rows, path, between, from + 1);
        }
    }
}

/// What a title pin selects is a direct input of a node whose title, the first
/// one given for it, holds the pattern. It selects nothing where titles are not
/// in use, and nothing for an empty pattern.
pub proof fn a_title_pin_selects_inputs_of_titled_nodes(
    rows: Seq<MetaRow>,
    row: MetaRow,
    pattern: Seq<char>,
    use_titles: bool,
) -> (found: (int, Seq<char>))
    requires
        model::mode_hit(rows, row, pattern, PinMode::Title, use_titles),
    ensures
        use_titles,
        row.is_direct,
        pattern.len() > 0,
        0 <= found.0 < rows.len(),
        holds_title(rows[found.0], found.1, row.path@, ".inputs."@),
        text::occurs_in(text::lowered(pattern), rows[found.0].value_lc@),
        forall|r: int, node: Seq<char>|
            0 <= r < found.0 ==> !#[trigger] holds_title(rows[r], node, row.path@, ".inputs."@),
{
    the_title_is_the_first_one(rows, row.path@, ".inputs."@);
    let at = model::title_row(rows, row.path@, ".inputs."@, 0);
    let node = choose|node: Seq<char>| #[trigger]
        holds_title(rows[at], node, row.path@, ".inputs."@);
    (at, node)
}

/// Every direct input of a node whose title holds the pattern is selected by a
/// title pin, and by a typed pin without a dot, where titles are in use.
pub proof fn inputs_of_titled_nodes_are_selected(
    rows: Seq<MetaRow>,
    row: MetaRow,
    pattern: Seq<char>,
    at: int,
    node: Seq<char>,
)
    requires
        row.is_direct,
        pattern.len() > 0,
        0 <= at < rows.len(),
        holds_title(rows[at], node, row.path@, ".inputs."@),
        text::occurs_in(text::lowered(pattern), rows[at].value_lc@),
        forall|r: int, other: Seq<char>|
            0 <= r < at ==> !#[trigger] holds_title(rows[r], other, row.path@, ".inputs."@),
    ensures
        model::mode_hit(rows, row, pattern, PinMode::Title, true),
        !pattern.contains('.') ==> model::mode_hit(rows, row, pattern, PinMode::Auto, true),
{
    the_title_is_the_first_one(rows, row.path@, ".inputs."@);
    let first = model::title_row(rows, row.path@, ".inputs."@, 0);
    if first < rows.len() {
        let other = choose|other: Seq<char>| #[trigger]
            holds_title(rows[first], other, row.path@, ".inputs."@);
        assert(!(first < at));
    }
    assert(!(at < first));
}

// ---------------------------------------------------------------------------
// Names
// ---------------------------------------------------------------------------

/// A pin is called by its label, else by its name, else by a marker and the last
/// segment of its path.
pub proof fn a_pin_is_called_by_its_label_name_or_last_segment(
    pin: PinModel,
    before: Seq<char>,
    segment: Seq<char>,
)
    requires
        !segment.contains('.'),
    ensures
        pin.label matches Some(label) ==> pins::label_of(pin) == label,
        pin.label is None && pin.pattern == segment ==> pins::label_of(pin) == segment,
        pin.label is None && pin.pattern == before + seq!['.'] + segment ==> pins::label_of(pin)
            == "⌖ "@ + segment,
{
    texts::the_last_place_has_none_behind(before, '.', segment);
    let whole = before + seq!['.'] + segment;
    assert(before.push('.') + segment =~= whole);
    assert(whole.skip(before.len() as int + 1) =~= segment);
}

/// A pin's values are copied as was chosen; without a choice where the pin's name
/// in lower case holds `prompt` or `seed`, and nowhere else.
pub proof fn prompts_and_seeds_are_copied(pin: PinModel)
    ensures
        pin.copy matches Some(choice) ==> pins::copies(pin) == choice,
        pin.copy is None ==> (pins::copies(pin) <==> text::occurs_in(
            "prompt"@,
            text::lowered(pins::label_of(pin)),
        ) || text::occurs_in("seed"@, text::lowered(pins::label_of(pin)))),
{
}

/// The pins of a first start.
pub proof fn a_first_start_has_these_pins()
    ensures
        pins::default_patterns().len() == 9,
        pins::default_patterns()[0] == "seed"@,
        pins::default_patterns()[1] == "noise_seed"@,
        pins::default_patterns()[2] == "steps"@,
        pins::default_patterns()[3] == "cfg"@,
        pins::default_patterns()[4] == "denoise"@,
        pins::default_patterns()[5] == "sampler_name"@,
        pins::default_patterns()[6] == "scheduler"@,
        pins::default_patterns()[7] == "created"@,
        pins::default_patterns()[8] == "modified"@,
{
}

/// The width of a pin's column is kept under the pin's pattern in lower case.
pub proof fn a_column_width_is_kept_by_pattern(pattern: Seq<char>)
    ensures
        pins::column_key(pattern) == "pin:"@ + text::lowered(pattern),
{
}

/// What a pin's chip says of it depends on its mode and on whether it is a path.
pub proof fn a_chip_says_what_the_pin_is(pin: PinModel)
    ensures
        pin.mode == PinMode::Title ==> pins::note_of(pin) == "ComfyUI node title"@,
        pin.mode != PinMode::Title && pin.pattern.contains('.') ==> pins::note_of(pin)
            == "exact path"@,
        pin.mode == PinMode::Key && !pin.pattern.contains('.') ==> pins::note_of(pin) == "key"@,
        pin.mode == PinMode::Auto && !pin.pattern.contains('.') ==> pins::note_of(pin)
            == "key or node title"@,
{
}

// ---------------------------------------------------------------------------
// The strip
// ---------------------------------------------------------------------------

/// The candidates of the strip are the values that each pin selects, pin after
/// pin and within a pin in the order of the document, under the pin's name.
pub proof fn candidates_come_pin_by_pin(
    rows: Seq<MetaRow>,
    earlier: Seq<PinModel>,
    pin: PinModel,
    use_titles: bool,
)
    ensures
        pins::all_candidates(rows, Seq::empty(), use_titles).len() == 0,
        ({
            let found = rows.filter(
                |row: MetaRow| model::mode_hit(rows, row, pin.pattern, pin.mode, use_titles),
            );
            let before = pins::all_candidates(rows, earlier, use_titles);
            let all = pins::all_candidates(rows, earlier.push(pin), use_titles);
            &&& all.len() == before.len() + found.len()
            &&& forall|i: int| 0 <= i < before.len() ==> #[trigger] all[i] == before[i]
            &&& forall|i: int|
                before.len() <= i < all.len() ==> #[trigger] all[i] == (
                    pins::label_of(pin),
                    pins::copies(pin),
                    found[i - before.len()].value@,
                )
        }),
{
    let passes = |row: MetaRow| model::mode_hit(rows, row, pin.pattern, pin.mode, use_titles);
    texts::picking_is_filtering(rows, passes);
    assert(earlier.push(pin).drop_last() =~= earlier);
    assert(earlier.push(pin).last() == pin);
}

/// The strip shows the first copied candidates, as many as may be, each with its
/// name, its whole value for the clipboard and a short form on one line.
pub proof fn the_strip_shows_the_first_copied_values(
    candidates: Seq<(Seq<char>, bool, Seq<char>)>,
    max_items: nat,
    max_chars: nat,
)
    ensures
        ({
            let copied = candidates.filter(|c: (Seq<char>, bool, Seq<char>)| c.1);
            let strip = lightbox::strip_of(candidates, max_items, max_chars);
            &&& strip.len() <= max_items
            &&& strip.len() <= copied.len()
            &&& strip.len() == max_items || strip.len() == copied.len()
            &&& forall|i: int|
                0 <= i < strip.len() ==> {
                    let item = #[trigger] strip[i];
                    &&& item.label == copied[i].0
                    &&& item.value == copied[i].2
                    &&& item.shown == text::one_line(copied[i].2, max_chars)
                }
        }),
{
    let passes = |c: (Seq<char>, bool, Seq<char>)| c.1;
    texts::picking_is_filtering(candidates, passes);
}

// ---------------------------------------------------------------------------
// Pinning
// ---------------------------------------------------------------------------

/// Whether two texts are the same but for the case of ASCII letters.
pub open spec fn alike(a: Seq<char>, b: Seq<char>) -> bool {
    a.len() == b.len() && forall|i: int|
        0 <= i < a.len() ==> text::ascii_lower(#[trigger] a[i]) == text::ascii_lower(b[i])
}

proof fn alike_is_same_but_case(a: Seq<char>, b: Seq<char>)
    ensures
        pins::same_but_case(a, b) <==> alike(a, b),
{
    let (x, y) = (text::ascii_lowered(a), text::ascii_lowered(b));
    if alike(a, b) {
        assert forall|i: int| 0 <= i < x.len() implies x[i] == y[i] by {
            assert(text::ascii_lower(a[i]) == text::ascii_lower(b[i]));
        }
        assert(x =~= y);
    }
    if x == y {
        assert(a.len() == x.len() && b.len() == y.len());
        assert forall|i: int| 0 <= i < a.len() implies text::ascii_lower(#[trigger] a[i])
            == text::ascii_lower(b[i]) by {
            assert(x[i] == y[i]);
        }
    }
}

proof fn place_is_the_first(list: Seq<PinModel>, pattern: Seq<char>)
    ensures
        ({
            let at = pins::place_of_pattern(list, pattern);
            &&& 0 <= at <= list.len()
            &&& at < list.len() ==> alike(list[at].pattern, pattern)
            &&& forall|i: int| 0 <= i < at ==> !alike((#[trigger] list[i]).pattern, pattern)
        }),
    decreases list.len(),
{
    if list.len() > 0 {
        alike_is_same_but_case(list[0].pattern, pattern);
        if !pins::same_but_case(list[0].pattern, pattern) {
            let rest = list.drop_first();
            place_is_the_first(rest, pattern);
            let at = pins::place_of_pattern(list, pattern);
            assert forall|i: int| 0 <= i < at implies !alike(
                (#[trigger] list[i]).pattern,
                pattern,
            ) by {
                if i > 0 {
                    assert(rest[i - 1] == list[i]);
                }
            }
        }
    }
}

/// Toggling a pin takes the first pin of that pattern away, in any case, and
/// keeps the others in their order; where there is none, the pin goes to the end.
pub proof fn toggling_removes_or_appends(list: Seq<PinModel>, pin: PinModel, at: int)
    ensures
        0 <= at < list.len() && alike(list[at].pattern, pin.pattern) && (forall|i: int|
            0 <= i < at ==> !alike((#[trigger] list[i]).pattern, pin.pattern))
            ==> pins::toggled(list, pin) == list.take(at) + list.skip(at + 1),
        (forall|i: int| 0 <= i < list.len() ==> !alike((#[trigger] list[i]).pattern, pin.pattern))
            ==> pins::toggled(list, pin) == list + seq![pin],
{
    place_is_the_first(list, pin.pattern);
    let place = pins::place_of_pattern(list, pin.pattern);
    if 0 <= at < list.len() && alike(list[at].pattern, pin.pattern) && (forall|i: int|
        0 <= i < at ==> !alike((#[trigger] list[i]).pattern, pin.pattern)) {
        assert(place == at) by {
            if place < at {
                assert(!alike(list[place].pattern, pin.pattern));
            }
            if at < place {
                assert(!alike(list[at].pattern, pin.pattern));
            }
        }
        assert(list.remove(at) =~= list.take(at) + list.skip(at + 1));
    }
    if forall|i: int| 0 <= i < list.len() ==> !alike((#[trigger] list[i]).pattern, pin.pattern) {
        assert(place == list.len());
        assert(list.push(pin) =~= list + seq![pin]);
    }
}

/// How a pin marks a leaf: by key unless it is a title pin, by path whatever it
/// is, and by title where it goes by titles and stands in this one.
pub proof fn how_a_pin_marks_a_leaf(
    pin: PinModel,
    key: Seq<char>,
    path: Seq<char>,
    title_lc: Seq<char>,
)
    ensures
        pins::pins_key(pin, key) <==> pin.mode != PinMode::Title && alike(pin.pattern, key),
        pins::pins_path(pin, path) <==> alike(pin.pattern, path),
        pin.mode == PinMode::Key ==> !pins::pins_title(pin, title_lc),
        pin.pattern.len() == 0 ==> !pins::pins_title(pin, title_lc),
        pin.mode == PinMode::Auto && pin.pattern.contains('.') ==> !pins::pins_title(
            pin,
            title_lc,
        ),
        pin.pattern.len() > 0 && (pin.mode == PinMode::Title || (pin.mode == PinMode::Auto
            && !pin.pattern.contains('.'))) ==> (pins::pins_title(pin, title_lc)
            <==> text::occurs_in(text::lowered(pin.pattern), title_lc)),
{
    alike_is_same_but_case(pin.pattern, key);
    alike_is_same_but_case(pin.pattern, path);
}

/// What clicking a leaf's pin toggles: its exact path where that is pinned, or
/// where the leaf is the element of a list; the title of its node where the leaf
/// is a titled input; its key otherwise. A new pin has no copy choice.
pub proof fn a_click_pins_title_key_or_path(
    path: Seq<char>,
    key: Seq<char>,
    direct: bool,
    by_path: bool,
    titled: bool,
    title: Option<Seq<char>>,
)
    ensures
        ({
            let pin = pins::clicked_pin(path, key, direct, by_path, titled, title);
            &&& pin.copy is None
            &&& by_path ==> pin.pattern == path && pin.label is None && pin.mode == PinMode::Key
            &&& !by_path && !direct ==> pin.pattern == path && pin.label == title && pin.mode
                == PinMode::Key
            &&& !by_path && direct && titled && title is Some ==> pin.pattern == title->Some_0
                && pin.label == title && pin.mode == PinMode::Title
            &&& !by_path && direct && !(titled && title is Some) ==> pin.pattern == key
                && pin.label is None && pin.mode == PinMode::Key
        }),
{
}

} // verus!
