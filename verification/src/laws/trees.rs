//! The metadata tree and the texts around it.

use vstd::prelude::*;

use crate::index::{self, MetaRow, PayloadModel};
use crate::json::{self, JsonTree};
use crate::labels;
use crate::laws::texts;
use crate::model::{self, ChunkModel, ImageEntry};
use crate::pins::{self, PinModel};
use crate::text;
use crate::tree::{self, BodyModel, NodeModel, SectionModel};

verus! {

/// A jump opens the header that it leads to, the headers on the way there, and
/// those below, but none whose path merely begins alike.
pub proof fn a_jump_opens_what_is_on_its_way(outer: Seq<char>, segment: Seq<char>, header: Seq<char>)
    ensures
        tree::opened_by(outer, outer),
        tree::opened_by(outer, outer + seq!['.'] + segment),
        tree::opened_by(outer + seq!['.'] + segment, outer),
        tree::opened_by(header, outer) ==> {
            ||| header == outer
            ||| header.len() > outer.len() && header.take(outer.len() as int) == outer
                && header[outer.len() as int] == '.'
            ||| outer.len() > header.len() && outer.take(header.len() as int) == header
                && outer[header.len() as int] == '.'
        },
{
    let inner = outer + seq!['.'] + segment;
    assert(inner.take(outer.len() as int + 1) =~= outer.push('.'));
    assert(outer.push('.').is_prefix_of(inner));
    if outer.push('.').is_prefix_of(header) {
        assert forall|i: int| 0 <= i < outer.len() implies header[i] == outer[i] by {
            assert(outer.push('.')[i] == header[i]);
        }
        assert(outer.push('.')[outer.len() as int] == header[outer.len() as int]);
        assert(header.take(outer.len() as int) =~= outer);
    }
    if header.push('.').is_prefix_of(outer) {
        assert forall|i: int| 0 <= i < header.len() implies outer[i] == header[i] by {
            assert(header.push('.')[i] == outer[i]);
        }
        assert(header.push('.')[header.len() as int] == outer[header.len() as int]);
        assert(outer.take(header.len() as int) =~= header);
    }
}

/// A part is shown where nothing is searched for, and else where one of the rows
/// that it flattens to answers.
pub proof fn a_part_is_shown_where_a_row_answers(
    path: Seq<char>,
    key: Seq<char>,
    value: JsonTree,
    query: Seq<char>,
)
    ensures
        tree::part_shown(path, key, value, query) <==> {
            let rows = index::json_rows(path, key, value, true);
            query.len() == 0 || exists|i: int|
                0 <= i < rows.len() && index::leaf_hit(
                    (#[trigger] rows[i]).path,
                    rows[i].key,
                    rows[i].value,
                    query,
                )
        },
{
    let rows = index::json_rows(path, key, value, true);
    if exists|i: int|
        0 <= i < rows.len() && index::leaf_hit(
            (#[trigger] rows[i]).path,
            rows[i].key,
            rows[i].value,
            query,
        ) {
        let i = choose|i: int|
            0 <= i < rows.len() && index::leaf_hit(
                (#[trigger] rows[i]).path,
                rows[i].key,
                rows[i].value,
                query,
            );
        assert(index::row_hit(rows[i], query));
    }
}

/// A value is one leaf: its path, the key that it is shown with, and the value.
pub proof fn a_value_is_a_leaf(
    path: Seq<char>,
    shown_key: Seq<char>,
    key: Seq<char>,
    value: JsonTree,
    query: Seq<char>,
    outermost: bool,
    direct: bool,
)
    requires
        !(value is Object),
        !(value is List),
    ensures
        tree::shown_nodes(path, shown_key, key, value, query, outermost, direct) == seq![
            NodeModel::Leaf(path, shown_key, json::leaf_text(value), direct),
        ],
{
}

/// An object inside a document is a branch with its key and the number of its
/// shown parts in braces.
pub proof fn an_object_is_a_branch(
    path: Seq<char>,
    shown_key: Seq<char>,
    key: Seq<char>,
    entries: Seq<(Seq<char>, JsonTree)>,
    query: Seq<char>,
    direct: bool,
)
    ensures
        ({
            let value = JsonTree::Object(entries);
            let parts = tree::shown_nodes(path, shown_key, key, value, query, true, direct);
            tree::shown_nodes(path, shown_key, key, value, query, false, direct) == seq![
                NodeModel::Branch(
                    path,
                    shown_key + "  {"@ + text::decimal(parts.len()) + "}"@,
                    parts,
                ),
            ]
        }),
{
}

/// An object shows its entries one after the other, each below its path and with
/// its own key, and leaves out those that do not answer.
pub proof fn an_object_shows_its_entries(
    path: Seq<char>,
    shown_key: Seq<char>,
    key: Seq<char>,
    entries: Seq<(Seq<char>, JsonTree)>,
    name: Seq<char>,
    value: JsonTree,
    query: Seq<char>,
    direct: bool,
)
    ensures
        tree::shown_nodes(
            path,
            shown_key,
            key,
            JsonTree::Object(Seq::empty()),
            query,
            true,
            direct,
        ) == Seq::<NodeModel>::empty(),
        ({
            let child = path + seq!['.'] + name;
            let before = tree::shown_nodes(
                path,
                shown_key,
                key,
                JsonTree::Object(entries),
                query,
                true,
                direct,
            );
            tree::shown_nodes(
                path,
                shown_key,
                key,
                JsonTree::Object(entries.push((name, value))),
                query,
                true,
                direct,
            ) == if tree::part_shown(child, name, value, query) {
                before + tree::shown_nodes(child, name, name, value, query, false, true)
            } else {
                before
            }
        }),
{
    let more = entries.push((name, value));
    texts::segments_are_joined_by_a_dot(path, name);
    fewer_entries(path, entries, more, query, entries.len());
    assert(more[entries.len() as int] == (name, value));
    reveal_with_fuel(tree::shown_nodes, 2);
    reveal_with_fuel(tree::shown_entries, 2);
    let before = tree::shown_entries(path, more, query, entries.len());
    assert(tree::shown_entries(path, more, query, more.len()) == if tree::part_shown(
        text::dotted(path, name),
        name,
        value,
        query,
    ) {
        before + tree::shown_nodes(
            text::dotted(path, name),
            name,
            name,
            value,
            query,
            false,
            true,
        )
    } else {
        before
    });
}

proof fn fewer_entries(
    path: Seq<char>,
    few: Seq<(Seq<char>, JsonTree)>,
    many: Seq<(Seq<char>, JsonTree)>,
    query: Seq<char>,
    count: nat,
)
    requires
        count <= few.len() <= many.len(),
        forall|i: int| 0 <= i < few.len() ==> few[i] == #[trigger] many[i],
    ensures
        tree::shown_entries(path, few, query, count) == tree::shown_entries(
            path,
            many,
            query,
            count,
        ),
    decreases count,
{
    if count > 0 {
        fewer_entries(path, few, many, query, (count - 1) as nat);
        assert(few[count - 1] == many[count - 1]);
    }
}

/// A list is a branch with its key and the number of its shown elements in
/// brackets. It shows its elements one after the other, each below its path and
/// with its place in brackets behind the key, and leaves out those that do not
/// answer. No key pin selects an element.
pub proof fn a_list_shows_its_elements(
    path: Seq<char>,
    shown_key: Seq<char>,
    key: Seq<char>,
    items: Seq<JsonTree>,
    value: JsonTree,
    query: Seq<char>,
    outermost: bool,
    direct: bool,
) -> (parts: (Seq<NodeModel>, Seq<NodeModel>))
    ensures
        tree::shown_nodes(path, shown_key, key, JsonTree::List(items), query, outermost, direct)
            == seq![
            NodeModel::Branch(
                path,
                shown_key + "  ["@ + text::decimal(parts.0.len()) + "]"@,
                parts.0,
            ),
        ],
        tree::shown_nodes(
            path,
            shown_key,
            key,
            JsonTree::List(items.push(value)),
            query,
            outermost,
            direct,
        ) == seq![
            NodeModel::Branch(
                path,
                shown_key + "  ["@ + text::decimal(parts.1.len()) + "]"@,
                parts.1,
            ),
        ],
        items.len() == 0 ==> parts.0.len() == 0,
        ({
            let place = text::decimal(items.len());
            let child = path + seq!['.'] + place;
            parts.1 == if tree::part_shown(child, key, value, query) {
                parts.0 + tree::shown_nodes(
                    child,
                    shown_key + seq!['['] + place + seq![']'],
                    key,
                    value,
                    query,
                    false,
                    false,
                )
            } else {
                parts.0
            }
        }),
{
    let more = items.push(value);
    let place = text::decimal(items.len());
    texts::segments_are_joined_by_a_dot(path, place);
    fewer_items(path, shown_key, key, items, more, query, items.len());
    assert(more[items.len() as int] == value);
    assert(tree::element_key(shown_key, items.len()) =~= shown_key + seq!['['] + place
        + seq![']']);
    reveal_with_fuel(tree::shown_nodes, 2);
    reveal_with_fuel(tree::shown_items, 2);
    let before = tree::shown_items(path, shown_key, key, more, query, items.len());
    let after = tree::shown_items(path, shown_key, key, more, query, more.len());
    assert(after == if tree::part_shown(text::dotted(path, place), key, value, query) {
        before + tree::shown_nodes(
            text::dotted(path, place),
            tree::element_key(shown_key, items.len()),
            key,
            value,
            query,
            false,
            false,
        )
    } else {
        before
    });
    (tree::shown_items(path, shown_key, key, items, query, items.len()), after)
}

proof fn fewer_items(
    path: Seq<char>,
    shown_key: Seq<char>,
    key: Seq<char>,
    few: Seq<JsonTree>,
    many: Seq<JsonTree>,
    query: Seq<char>,
    count: nat,
)
    requires
        count <= few.len() <= many.len(),
        forall|i: int| 0 <= i < few.len() ==> few[i] == #[trigger] many[i],
    ensures
        tree::shown_items(path, shown_key, key, few, query, count) == tree::shown_items(
            path,
            shown_key,
            key,
            many,
            query,
            count,
        ),
    decreases count,
{
    if count > 0 {
        fewer_items(path, shown_key, key, few, many, query, (count - 1) as nat);
        assert(few[count - 1] == many[count - 1]);
    }
}

/// A chunk has a section where nothing is searched for, where its keyword
/// answers, or where one of its rows does.
pub proof fn which_chunks_have_a_section(chunk: ChunkModel, query: Seq<char>)
    ensures
        tree::section_shown(chunk, query) <==> {
            let rows = index::flat_rows(chunk.keyword, chunk.payload);
            ||| query.len() == 0
            ||| text::occurs_in(query, text::lowered(chunk.keyword))
            ||| exists|i: int|
                0 <= i < rows.len() && index::leaf_hit(
                    (#[trigger] rows[i]).path,
                    rows[i].key,
                    rows[i].value,
                    query,
                )
        },
{
    let rows = index::flat_rows(chunk.keyword, chunk.payload);
    if exists|i: int|
        0 <= i < rows.len() && index::leaf_hit(
            (#[trigger] rows[i]).path,
            rows[i].key,
            rows[i].value,
            query,
        ) {
        let i = choose|i: int|
            0 <= i < rows.len() && index::leaf_hit(
                (#[trigger] rows[i]).path,
                rows[i].key,
                rows[i].value,
                query,
            );
        assert(index::row_hit(rows[i], query));
    }
}

/// The section of a chunk: its keyword and size as the title, and its document
/// or its text. Where the keyword answers the search, or nothing is searched
/// for, all of it is shown.
pub proof fn a_section_is_that_of_its_chunk(
    at: int,
    chunk: ChunkModel,
    query: Seq<char>,
    jump: Option<Seq<char>>,
)
    ensures
        ({
            let section = tree::section_of(at, chunk, query, jump);
            let whole = text::occurs_in(query, text::lowered(chunk.keyword));
            &&& section.chunk == at
            &&& section.title == chunk.keyword + "  ("@ + model::shown_size(chunk.byte_len)
                + ")"@
            &&& whole ==> section.query == Seq::<char>::empty()
            &&& !whole ==> section.query == query
            &&& chunk.payload matches PayloadModel::Plain(body) ==> section.body
                == BodyModel::Plain(body)
            &&& chunk.payload matches PayloadModel::Json(value) ==> section.body
                == BodyModel::Json(
                tree::shown_nodes(
                    chunk.keyword,
                    chunk.keyword,
                    chunk.keyword,
                    value,
                    section.query,
                    true,
                    true,
                ),
            )
        }),
{
    if query.len() == 0 {
        assert(query =~= Seq::empty());
    }
}

/// A jump scrolls to the header of the chunk that it names, and to that of a
/// plain chunk wherever in it the jump leads, but inside of a document it goes
/// on to the row.
pub proof fn a_jump_scrolls_to_the_chunk(chunk: ChunkModel, segment: Seq<char>)
    ensures
        tree::scrolls_to(chunk, Some(chunk.keyword)),
        tree::scrolls_to(chunk, Some(chunk.keyword + seq!['.'] + segment)) <==> chunk.payload is Plain,
        !tree::scrolls_to(chunk, None),
{
    let inner = chunk.keyword + seq!['.'] + segment;
    a_jump_opens_what_is_on_its_way(chunk.keyword, segment, inner);
    assert(inner.len() != chunk.keyword.len());
}

/// The sections come chunk by chunk.
pub proof fn sections_come_chunk_by_chunk(
    chunks: Seq<ChunkModel>,
    last: ChunkModel,
    query: Seq<char>,
    jump: Option<Seq<char>>,
)
    ensures
        tree::sections_of(Seq::empty(), query, jump, 0) == Seq::<SectionModel>::empty(),
        ({
            let more = chunks.push(last);
            let before = tree::sections_of(chunks, query, jump, chunks.len());
            tree::sections_of(more, query, jump, more.len()) == if tree::section_shown(
                last,
                query,
            ) {
                before + seq![tree::section_of(chunks.len() as int, last, query, jump)]
            } else {
                before
            }
        }),
{
    let more = chunks.push(last);
    fewer_chunks(chunks, more, query, jump, chunks.len());
    let before = tree::sections_of(chunks, query, jump, chunks.len());
    let section = tree::section_of(chunks.len() as int, last, query, jump);
    assert(more[chunks.len() as int] == last);
    assert(before.push(section) =~= before + seq![section]);
}

proof fn fewer_chunks(
    few: Seq<ChunkModel>,
    many: Seq<ChunkModel>,
    query: Seq<char>,
    jump: Option<Seq<char>>,
    count: nat,
)
    requires
        count <= few.len() <= many.len(),
        forall|i: int| 0 <= i < few.len() ==> few[i] == #[trigger] many[i],
    ensures
        tree::sections_of(few, query, jump, count) == tree::sections_of(many, query, jump, count),
    decreases count,
{
    if count > 0 {
        fewer_chunks(few, many, query, jump, (count - 1) as nat);
        assert(few[count - 1] == many[count - 1]);
    }
}

/// The tree shows what is known of the file: the rows below `file` that have a
/// sort key, all of them or those that answer.
pub proof fn what_is_known_of_the_file_is_shown(row: MetaRow, query: Seq<char>)
    ensures
        tree::file_row_shown(row, query) <==> {
            &&& row.sort_key is Some
            &&& seq!['f', 'i', 'l', 'e', '.'].is_prefix_of(row.path@)
            &&& query.len() == 0 || index::row_answers(row, query)
        },
{
    reveal_strlit("file.");
    assert("file."@ =~= seq!['f', 'i', 'l', 'e', '.']);
}

/// A menu entry names what it pins or unpins, and pinning says how far it goes.
pub proof fn a_menu_entry_names_its_pin(
    unpin: Seq<char>,
    pin: Seq<char>,
    name: Seq<char>,
    note: Seq<char>,
)
    ensures
        tree::pin_entry(true, unpin, pin, name, note) == unpin + name + "'"@,
        tree::pin_entry(false, unpin, pin, name, note) == pin + name + "'"@ + note,
{
}

// ---------------------------------------------------------------------------
// Labels
// ---------------------------------------------------------------------------

/// A dump is headed by the name, the dimensions and the size of the file.
pub proof fn a_dump_is_headed_by_the_file(entry: ImageEntry)
    ensures
        labels::dump_head(entry) == "=== "@ + entry.file_name@ + " ("@ + text::decimal(
            entry.width as nat,
        ) + "x"@ + text::decimal(entry.height as nat) + ", "@ + text::decimal(
            entry.file_size as nat,
        ) + " bytes) ==="@,
{
}

/// A cell's tooltip has one line for each match, numbered from one, with the
/// path and the first two hundred characters of the value.
pub proof fn a_tooltip_numbers_the_matches(rows: Seq<MetaRow>, last: MetaRow)
    ensures
        ({
            let line = text::decimal(rows.len() + 1) + ". "@ + last.path@ + " = "@
                + text::one_line(last.value@, 200);
            labels::tooltip_lines(rows.push(last)) == if rows.len() == 0 {
                line
            } else {
                labels::tooltip_lines(rows) + "\n"@ + line
            }
        }),
        labels::tooltip_lines(Seq::empty()) == Seq::<char>::empty(),
{
    let more = rows.push(last);
    assert(more.drop_last() =~= rows);
    assert(more.last() == last);
}

/// The id of a layout tells each pin's column and copy button, in order, with a
/// separator between them.
pub proof fn a_layout_tells_the_pins(pins: Seq<PinModel>, last: PinModel)
    ensures
        ({
            let part = seq![
                if pins::copies(last) {
                    '1'
                } else {
                    '0'
                },
            ] + pins::column_key(last.pattern);
            labels::layout_of(pins.push(last)) == if pins.len() == 0 {
                part
            } else {
                labels::layout_of(pins) + seq!['\u{1f}'] + part
            }
        }),
        labels::layout_of(Seq::empty()) == Seq::<char>::empty(),
{
    let more = pins.push(last);
    assert(more.drop_last() =~= pins);
    assert(more.last() == last);
    if pins.len() > 0 {
        assert(labels::layout_of(pins).push('\u{1f}') =~= labels::layout_of(pins)
            + seq!['\u{1f}']);
    }
}

} // verus!
