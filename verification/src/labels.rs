//! Short texts of the interface.

use vstd::prelude::*;

use crate::index::MetaRow;
use crate::model::{self, human_size, ImageEntry};
use crate::pins::{self, mode_note, pin_column_key, pin_copies, Pin, PinModel};
use crate::table::SortColumn;
use crate::text::{self, push_decimal, single_line};
use crate::viewer::ScanState;

verus! {

/// Dimensions and size of an image.
pub fn facts_line(width: u32, height: u32, size: u64) -> (line: String)
    ensures
        line@ == text::decimal(width as nat) + "×"@ + text::decimal(height as nat) + "  ·  "@
            + model::shown_size(size as nat),
{
    let mut line = text::decimal_text(width as u64);
    line.append("×");
    push_decimal(&mut line, height as u64);
    line.append("  ·  ");
    line.append(human_size(size).as_str());
    line
}

/// How many of the images are shown.
pub fn count_line(shown: usize, all: usize) -> (line: String)
    ensures
        line@ == text::decimal(shown as nat) + " of "@ + text::decimal(all as nat) + " images"@,
{
    let mut line = text::decimal_text(shown as u64);
    line.append(" of ");
    push_decimal(&mut line, all as u64);
    line.append(" images");
    line
}

/// How far a scan is, for the status line.
pub fn scan_line(state: &ScanState) -> (line: String)
    ensures
        line@ == (match state.total {
            Some(total) => "reading metadata "@ + text::decimal(state.done as nat) + " / "@
                + text::decimal(total as nat) + "…"@,
            None => "listing folder…"@,
        }),
{
    match state.total {
        Some(total) => {
            let mut line = "reading metadata ".to_owned();
            push_decimal(&mut line, state.done as u64);
            line.append(" / ");
            push_decimal(&mut line, total as u64);
            line.append("…");
            line
        },
        None => "listing folder…".to_owned(),
    }
}

/// How far a scan is, while nothing has arrived yet.
pub fn loading_line(state: &ScanState) -> (line: String)
    ensures
        line@ == (match state.total {
            Some(total) => "Reading metadata… "@ + text::decimal(state.done as nat) + " / "@
                + text::decimal(total as nat),
            None => "Reading folder…"@,
        }),
{
    match state.total {
        Some(total) => {
            let mut line = "Reading metadata… ".to_owned();
            push_decimal(&mut line, state.done as u64);
            line.append(" / ");
            push_decimal(&mut line, total as u64);
            line
        },
        None => "Reading folder…".to_owned(),
    }
}

/// How many thumbnails are being decoded.
pub fn pending_line(count: usize) -> (line: String)
    ensures
        line@ == "decoding "@ + text::decimal(count as nat) + " thumbnails…"@,
{
    let mut line = "decoding ".to_owned();
    push_decimal(&mut line, count as u64);
    line.append(" thumbnails…");
    line
}

/// How many files could not be read.
pub fn unreadable_line(count: usize) -> (line: String)
    ensures
        line@ == text::decimal(count as nat) + " unreadable"@,
{
    let mut line = text::decimal_text(count as u64);
    line.append(" unreadable");
    line
}

/// The arrow behind the name of a sorted column.
pub fn sort_arrow(current: Option<(SortColumn, bool)>, column: SortColumn) -> (arrow: &'static str)
    ensures
        arrow@ == (if current == Some((column, true)) {
            " ▲"@
        } else if current == Some((column, false)) {
            " ▼"@
        } else {
            ""@
        }),
{
    match current {
        Some((active, ascending)) => if active == column {
            if ascending {
                " ▲"
            } else {
                " ▼"
            }
        } else {
            ""
        },
        None => "",
    }
}

/// The tooltip of a pin's chip.
pub fn chip_hint(pin: &Pin) -> (hint: String)
    ensures
        hint@ == pin.pattern@ + "  ("@ + pins::note_of(pin@)
            + ")\n\nColumn in the table, in this order.\nRight-click to rename, reorder, or unpin."@,
{
    let mut hint = pin.pattern.clone();
    hint.append("  (");
    hint.append(mode_note(pin));
    hint.append(
        ")\n\nColumn in the table, in this order.\nRight-click to rename, reorder, or unpin.",
    );
    hint
}

/// What heads the dump of an image.
pub open spec fn dump_head(entry: ImageEntry) -> Seq<char> {
    "=== "@ + entry.file_name@ + " ("@ + text::decimal(entry.width as nat) + "x"@ + text::decimal(
        entry.height as nat,
    ) + ", "@ + text::decimal(entry.file_size as nat) + " bytes) ==="@
}

/// The dump of an image: a head, then every row with its path and value.
pub fn dump(entry: &ImageEntry) -> (lines: Vec<String>)
    ensures
        text::texts(lines@) == seq![dump_head(*entry)] + entry.rows@.map_values(
            |row: MetaRow| row.path@ + " = "@ + row.value@,
        ),
{
    let ghost line_of = |row: MetaRow| row.path@ + " = "@ + row.value@;
    let mut head = "=== ".to_owned();
    head.append(entry.file_name.as_str());
    head.append(" (");
    push_decimal(&mut head, entry.width as u64);
    head.append("x");
    push_decimal(&mut head, entry.height as u64);
    head.append(", ");
    push_decimal(&mut head, entry.file_size);
    head.append(" bytes) ===");
    let mut lines: Vec<String> = Vec::new();
    lines.push(head);
    assert(text::texts(lines@) =~= seq![dump_head(*entry)] + entry.rows@.take(0).map_values(
        line_of,
    ));
    for i in 0..entry.rows.len()
        invariant
            line_of == |row: MetaRow| row.path@ + " = "@ + row.value@,
            text::texts(lines@) == seq![dump_head(*entry)] + entry.rows@.take(
                i as int,
            ).map_values(line_of),
    {
        let ghost before = text::texts(lines@);
        let row = &entry.rows[i];
        let mut line = row.path.clone();
        line.append(" = ");
        line.append(row.value.as_str());
        lines.push(line);
        assert(text::texts(lines@) =~= before.push(line_of(*row)));
        assert(entry.rows@.take(i + 1).map_values(line_of) =~= entry.rows@.take(
            i as int,
        ).map_values(line_of).push(line_of(*row)));
    }
    assert(entry.rows@.take(entry.rows@.len() as int) =~= entry.rows@);
    assert(text::texts(lines@) =~= seq![dump_head(*entry)] + entry.rows@.map_values(line_of));
    lines
}

// ---------------------------------------------------------------------------
// Table cells
// ---------------------------------------------------------------------------

/// Matches that one table cell shows.
pub const MAX_CELL_MATCHES: usize = 3;

/// Characters of a value that a cell's tooltip shows.
pub const TOOLTIP_VALUE_CHARS: usize = 200;

/// One line of a cell's tooltip.
pub open spec fn tooltip_line(at: int, row: MetaRow) -> Seq<char> {
    text::decimal((at + 1) as nat) + ". "@ + row.path@ + " = "@ + text::one_line(
        row.value@,
        TOOLTIP_VALUE_CHARS as nat,
    )
}

/// The lines of a cell's tooltip, one for each match.
pub open spec fn tooltip_lines(rows: Seq<MetaRow>) -> Seq<char>
    decreases rows.len(),
{
    if rows.len() == 0 {
        Seq::empty()
    } else if rows.len() == 1 {
        tooltip_line(0, rows[0])
    } else {
        tooltip_lines(rows.drop_last()) + "\n"@ + tooltip_line(rows.len() - 1, rows.last())
    }
}

/// A cell's tooltip: every match with its number, path and value.
pub fn cell_tooltip(matches: &Vec<&MetaRow>) -> (tooltip: String)
    ensures
        tooltip@ == tooltip_lines(model::pointed_at(matches@)),
{
    let ghost rows = model::pointed_at(matches@);
    let mut tooltip = String::new();
    assert(rows.take(0) =~= Seq::empty());
    assert(tooltip@ =~= Seq::empty());
    for i in 0..matches.len()
        invariant
            rows == model::pointed_at(matches@),
            tooltip@ == tooltip_lines(rows.take(i as int)),
    {
        let row = matches[i];
        if i > 0 {
            tooltip.append("\n");
        }
        let ghost before = tooltip@;
        let value = single_line(row.value.as_str(), TOOLTIP_VALUE_CHARS);
        let number = i + 1;
        push_decimal(&mut tooltip, number as u64);
        tooltip.append(". ");
        tooltip.append(row.path.as_str());
        tooltip.append(" = ");
        tooltip.append(value.as_str());
        proof {
            assert(rows[i as int] == *row);
            assert(rows.take(i + 1).drop_last() =~= rows.take(i as int));
            assert(rows.take(i + 1).last() == *row);
            assert(tooltip@ =~= before + tooltip_line(i as int, *row));
            if i == 0 {
                assert(tooltip@ =~= tooltip_line(0, *row));
            } else {
                assert(tooltip@ =~= tooltip_lines(rows.take(i as int)) + "\n"@ + tooltip_line(
                    i as int,
                    *row,
                ));
            }
        }
    }
    assert(rows.take(matches@.len() as int) =~= rows);
    tooltip
}

/// How many matches a cell leaves out, where it leaves any out.
pub fn left_out(matches: usize) -> (mark: Option<String>)
    ensures
        match mark {
            Some(mark) => matches > MAX_CELL_MATCHES && mark@ == "+"@ + text::decimal(
                (matches - MAX_CELL_MATCHES) as nat,
            ),
            None => matches <= MAX_CELL_MATCHES,
        },
{
    if matches <= MAX_CELL_MATCHES {
        return None;
    }
    let mut mark = "+".to_owned();
    push_decimal(&mut mark, (matches - MAX_CELL_MATCHES) as u64);
    Some(mark)
}

/// What a pin adds to the id of the table's layout.
pub open spec fn layout_part(pin: PinModel) -> Seq<char> {
    seq![
        if pins::copies(pin) {
            '1'
        } else {
            '0'
        },
    ] + pins::column_key(pin.pattern)
}

/// The id of the table's layout for some pins.
pub open spec fn layout_of(pins: Seq<PinModel>) -> Seq<char>
    decreases pins.len(),
{
    if pins.len() == 0 {
        Seq::empty()
    } else if pins.len() == 1 {
        layout_part(pins[0])
    } else {
        layout_of(pins.drop_last()).push('\u{1f}') + layout_part(pins.last())
    }
}

/// The id of the table's layout, which changes with the set of pins and their
/// copy buttons, so that stored widths are taken up afresh when it does.
pub fn layout_id(pins: &Vec<Pin>) -> (id: String)
    ensures
        id@ == layout_of(pins::pin_models(pins@)),
{
    let ghost all = pins::pin_models(pins@);
    let mut id = String::new();
    assert(all.take(0) =~= Seq::empty());
    assert(id@ =~= Seq::empty());
    for i in 0..pins.len()
        invariant
            all == pins::pin_models(pins@),
            id@ == layout_of(all.take(i as int)),
    {
        let pin = &pins[i];
        if i > 0 {
            id.push('\u{1f}');
        }
        let ghost before = id@;
        id.push(
            if pin_copies(pin) {
                '1'
            } else {
                '0'
            },
        );
        id.append(pin_column_key(pin).as_str());
        proof {
            assert(all[i as int] == pin@);
            assert(all.take(i + 1).drop_last() =~= all.take(i as int));
            assert(all.take(i + 1).last() == pin@);
            assert(id@ =~= before + layout_part(pin@));
            if i == 0 {
                assert(id@ =~= layout_part(pin@));
            } else {
                assert(id@ =~= layout_of(all.take(i as int)).push('\u{1f}') + layout_part(pin@));
            }
        }
    }
    assert(all.take(pins@.len() as int) =~= all);
    id
}

} // verus!
