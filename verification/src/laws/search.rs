//! Searching: which images and rows answer, and what is shown of them.

use vstd::prelude::*;

use crate::index::{self, MetaRow, RowModel};
use crate::laws::rows;
use crate::laws::texts;
use crate::lists;
use crate::model::{self, FileMeta, ImageEntry, PathModel};
use crate::table;
use crate::text;
use crate::viewer;

verus! {

/// Whether a row answers a query in lower case: by its key or its value, or by
/// its path where the query has a dot.
pub open spec fn answers(row: MetaRow, query: Seq<char>) -> bool {
    if query.contains('.') {
        text::occurs_in(query, row.path_lc@)
    } else {
        text::occurs_in(query, row.key_lc@) || text::occurs_in(query, row.value_lc@)
    }
}

/// Every row can be searched alike, whatever it sorts by and wherever it comes
/// from: a query without a dot finds it by its key and by its value, one with a
/// dot by its path.
pub proof fn every_row_can_be_searched(row: MetaRow, query: Seq<char>)
    requires
        row.valid(),
    ensures
        !query.contains('.') && text::occurs_in(query, text::lowered(row.key@))
            ==> index::row_answers(row, query) && index::row_hit(row@, query),
        !query.contains('.') && text::occurs_in(query, text::lowered(row.value@))
            ==> index::row_answers(row, query) && index::row_hit(row@, query),
        query.contains('.') && text::occurs_in(query, text::lowered(row.path@))
            ==> index::row_answers(row, query) && index::row_hit(row@, query),
        !answers(row, query) ==> !index::row_answers(row, query) && !index::row_hit(row@, query),
{
}

/// What is found in a value is found whether it is a row already or still a leaf
/// of a document.
pub proof fn leaves_are_searched_as_rows_are(row: RowModel, query: Seq<char>)
    ensures
        index::row_hit(row, query) == index::leaf_hit(row.path, row.key, row.value, query),
        index::any_hit(seq![row], query) == index::row_hit(row, query),
{
    let one = seq![row];
    if index::row_hit(row, query) {
        assert(index::row_hit(one[0], query));
    }
}

/// Where a value holds the query, so that what comes before and behind it makes
/// up the rest, the row that shows it is found.
pub proof fn a_query_finds_what_holds_it(
    row: MetaRow,
    before: Seq<char>,
    query: Seq<char>,
    after: Seq<char>,
)
    requires
        row.valid(),
    ensures
        !query.contains('.') && text::lowered(row.value@) == before + query + after
            ==> index::row_answers(row, query),
        !query.contains('.') && text::lowered(row.key@) == before + query + after
            ==> index::row_answers(row, query),
        query.contains('.') && text::lowered(row.path@) == before + query + after
            ==> index::row_answers(row, query),
{
    texts::what_stands_inside_occurs(before, query, after);
}

proof fn some_row_answers(list: Seq<MetaRow>, query: Seq<char>)
    ensures
        table::hits(list, query) > 0 <==> exists|i: int|
            0 <= i < list.len() && answers(#[trigger] list[i], query),
        lists::picked(list, |row: MetaRow| index::row_answers(row, query)) == list.filter(
            |row: MetaRow| answers(row, query),
        ),
{
    let one = |row: MetaRow| index::row_answers(row, query);
    let other = |row: MetaRow| answers(row, query);
    lists::picked_agrees(list, one, other);
    texts::picking_is_filtering(list, other);
    lists::picked_keeps_what_passes(list, other);
    let found = lists::picked(list, other);
    if found.len() > 0 {
        assert(other(found[0]) && list.contains(found[0]));
        let i = choose|i: int| 0 <= i < list.len() && list[i] == found[0];
        assert(answers(list[i], query));
    }
    if exists|i: int| 0 <= i < list.len() && answers(#[trigger] list[i], query) {
        let i = choose|i: int| 0 <= i < list.len() && answers(#[trigger] list[i], query);
        assert(other(list[i]));
        assert(found.contains(list[i]));
    }
}

/// A search keeps an image exactly where there is nothing to search for, where
/// its name answers, or where one of its rows does, be it of a chunk or of the
/// file.
pub proof fn a_search_keeps_what_answers(entry: ImageEntry, query: Seq<char>)
    ensures
        table::kept(entry, query) <==> {
            ||| query.len() == 0
            ||| text::occurs_in(query, entry.file_name_lc@)
            ||| exists|i: int|
                0 <= i < entry.rows@.len() && answers(#[trigger] entry.rows@[i], query)
        },
{
    some_row_answers(entry.rows@, query);
}

proof fn positions_count_up(list: Seq<usize>, passes: spec_fn(usize) -> bool)
    requires
        forall|i: int, j: int| 0 <= i < j < list.len() ==> list[i] < list[j],
    ensures
        ({
            let found = lists::picked(list, passes);
            forall|i: int, j: int| 0 <= i < j < found.len() ==> found[i] < found[j]
        }),
    decreases list.len(),
{
    if list.len() > 0 {
        let fewer = list.drop_last();
        positions_count_up(fewer, passes);
        lists::picked_keeps_what_passes(fewer, passes);
        let before = lists::picked(fewer, passes);
        assert forall|i: int| 0 <= i < before.len() implies #[trigger] before[i]
            < list.last() by {
            assert(fewer.contains(before[i]));
            let k = choose|k: int| 0 <= k < fewer.len() && fewer[k] == before[i];
            assert(list[k] < list[list.len() - 1]);
        }
    }
}

/// The images that a search keeps stand in the table in the order in which they
/// are listed, each once, and no other stands there.
pub proof fn kept_images_stay_in_order(images: Seq<ImageEntry>, query: Seq<char>, at: usize)
    requires
        images.len() <= usize::MAX,
    ensures
        ({
            let found = table::kept_positions(images, query);
            &&& found.contains(at) <==> at < images.len() && table::kept(images[at as int], query)
            &&& forall|i: int, j: int| 0 <= i < j < found.len() ==> found[i] < found[j]
        }),
{
    let all = table::positions(images.len());
    let passes = |at: usize| table::kept(images[at as int], query);
    positions_count_up(all, passes);
    lists::picked_keeps_what_passes(all, passes);
    let found = table::kept_positions(images, query);
    if found.contains(at) {
        let i = choose|i: int| 0 <= i < found.len() && found[i] == at;
        assert(passes(found[i]) && all.contains(found[i]));
        let k = choose|k: int| 0 <= k < all.len() && all[k] == at;
    }
    if at < images.len() && table::kept(images[at as int], query) {
        assert(all[at as int] == at);
        assert(passes(all[at as int]));
    }
}

/// Width, height, size and dates of an image can be searched: the image is kept
/// by the lower case of what any row about its file shows, as long as that has
/// no dot.
pub proof fn a_file_is_found_by_what_is_known_of_it(
    images: Seq<ImageEntry>,
    at: usize,
    path: PathModel,
    meta: FileMeta,
    chunks: Seq<(Seq<char>, Seq<char>)>,
    shown: Seq<char>,
)
    requires
        images.len() <= usize::MAX,
        at < images.len(),
        images[at as int].made_of(path, meta, chunks),
        !text::lowered(shown).contains('.'),
        shown == text::decimal(meta.width as nat) || shown == text::decimal(meta.height as nat)
            || shown == model::shown_size(meta.size as nat) || shown == text::decimal(
            meta.width as nat,
        ) + seq!['×'] + text::decimal(meta.height as nat) || (meta.created matches Some(stamp)
            && shown == stamp.text@) || (meta.modified matches Some(stamp) && shown
            == stamp.text@),
    ensures
        table::kept_positions(images, text::lowered(shown)).contains(at),
{
    let entry = images[at as int];
    let query = text::lowered(shown);
    let of_file = model::file_rows_of(
        meta.size,
        meta.width,
        meta.height,
        meta.created,
        meta.modified,
    );
    rows::file_rows_say_what_the_file_is(meta);
    let made = if meta.created is Some {
        1int
    } else {
        0int
    };
    let r = if shown == model::shown_size(meta.size as nat) {
        0int
    } else if shown == text::decimal(meta.width as nat) {
        1
    } else if shown == text::decimal(meta.height as nat) {
        2
    } else if shown == text::decimal(meta.width as nat) + seq!['×'] + text::decimal(
        meta.height as nat,
    ) {
        3
    } else if meta.created is Some && shown == meta.created->Some_0.text@ {
        4
    } else {
        4 + made
    };
    assert(of_file[r].value == shown);
    let models = index::row_models(entry.rows@);
    assert(models == of_file + model::rows_of_chunks(chunks));
    assert(models.len() == entry.rows@.len());
    assert(0 <= r < of_file.len());
    assert(models[r] == of_file[r]);
    assert(models[r] == entry.rows@[r]@);
    assert(entry.rows@[r].valid());
    assert(entry.rows@[r].value_lc@ == query);
    texts::what_stands_inside_occurs(Seq::empty(), query, Seq::empty());
    assert(Seq::<char>::empty() + query + Seq::<char>::empty() =~= query);
    assert(answers(entry.rows@[r], query));
    a_search_keeps_what_answers(entry, query);
    kept_images_stay_in_order(images, query, at);
}

/// The match column counts the name and every row that answers, and shows the
/// name where that answers, else the first such row with its key and the head of
/// its value.
pub proof fn the_match_column_counts_and_shows_the_first(entry: ImageEntry, query: Seq<char>)
    ensures
        ({
            let found = entry.rows@.filter(|row: MetaRow| answers(row, query));
            let named = text::occurs_in(query, entry.file_name_lc@);
            &&& table::image_hits(entry, query) == found.len() + if named {
                1int
            } else {
                0int
            }
            &&& named ==> table::first_hit(entry, query) == "name = "@ + entry.file_name@
            &&& !named && found.len() > 0 ==> table::first_hit(entry, query) == found[0].key@
                + " = "@ + text::one_line(found[0].value@, 200)
        }),
{
    some_row_answers(entry.rows@, query);
}

/// A search text asks for what it holds without the white space around it, in
/// lower case.
pub proof fn a_search_text_is_trimmed_and_lowered(
    before: Seq<char>,
    text: Seq<char>,
    after: Seq<char>,
)
    requires
        texts::blank(before),
        texts::blank(after),
        text.len() > 0 ==> !text::is_white(text[0]) && !text::is_white(text.last()),
    ensures
        viewer::query_of(before + text + after) == text::lowered(text),
{
    texts::padding_is_trimmed_away(before, text, after);
}

/// Finding a field walks the rows that answer, in their order.
pub proof fn a_find_walks_the_answering_rows(list: Seq<MetaRow>, query: Seq<char>)
    ensures
        viewer::answering(list, query) == list.filter(|row: MetaRow| answers(row, query)),
{
    some_row_answers(list, query);
}

/// A match inside of a node's `_meta` leads to the node, that is to what stands
/// before the first `._meta.` of its path; any other match leads to its own path.
pub proof fn a_find_leads_to_the_node(path: Seq<char>, at: int)
    ensures
        0 <= at && at + 7 <= path.len() && path.subrange(at, at + 7) == "._meta."@ && (forall|k: int|
            0 <= k < at ==> #[trigger] path.subrange(k, k + 7) != "._meta."@)
            ==> viewer::jump_target(path) == path.take(at),
        (forall|k: int|
            0 <= k && k + 7 <= path.len() ==> #[trigger] path.subrange(k, k + 7) != "._meta."@)
            ==> viewer::jump_target(path) == path,
{
    reveal_strlit("._meta.");
    let needle = "._meta."@;
    assert(needle.len() == 7);
    texts::a_run_is_found_where_it_first_stands(path, needle, 0);
    if let Some(found) = text::run_place(path, needle, 0) {
        assert(path.subrange(found, found + 7) == needle);
        if 0 <= at && at + 7 <= path.len() && path.subrange(at, at + 7) == needle && (forall|k: int|
            0 <= k < at ==> #[trigger] path.subrange(k, k + 7) != needle) {
            assert(found == at) by {
                if found < at {
                    assert(path.subrange(found, found + 7) != needle);
                }
                if at < found {
                    assert(path.subrange(at, at + needle.len()) != needle);
                }
            }
        }
    } else if 0 <= at && at + 7 <= path.len() && path.subrange(at, at + 7) == needle {
        assert(path.subrange(at, at + needle.len()) != needle);
    }
}

/// Asking again moves on by one, and past the largest number starts over.
pub proof fn finding_again_moves_on(index: usize)
    ensures
        index < usize::MAX ==> viewer::next_index(index) == index + 1,
        index == usize::MAX ==> viewer::next_index(index) == 0,
{
}

/// The match column says nothing where nothing is searched for or nothing
/// answers; else it says how often the image answers, and what comes first.
pub proof fn the_match_column_says_what_answers(
    info: table::MatchInfo,
    entry: ImageEntry,
    query: Seq<char>,
)
    ensures
        table::column_says(Some(info), entry, query) ==> {
            &&& query.len() > 0
            &&& table::image_hits(entry, query) > 0
            &&& table::image_hits(entry, query) <= usize::MAX ==> info.count
                == table::image_hits(entry, query)
            &&& info.first@ == table::first_hit(entry, query)
        },
        table::column_says(None, entry, query) <==> query.len() == 0 || table::image_hits(
            entry,
            query,
        ) == 0,
{
}

} // verus!
