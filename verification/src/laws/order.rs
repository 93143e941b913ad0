//! The order of the table, in terms of what its images hold.

use vstd::prelude::*;

use crate::index::MetaRow;
use crate::laws::texts;
use crate::model::{self, ImageEntry};
use crate::pins::PinModel;
use crate::sorting;
use crate::table::{self, Reading, SortColumn, SortKind};
use crate::text::{self, Rank};

verus! {

/// The first match of a pin is the first row of the image that the pin selects.
pub proof fn the_first_match_comes_first(entry: ImageEntry, pin: PinModel, use_titles: bool)
    ensures
        ({
            let found = entry.rows@.filter(
                |row: MetaRow|
                    model::mode_hit(entry.rows@, row, pin.pattern, pin.mode, use_titles),
            );
            table::first_match(entry, pin, use_titles) == if found.len() > 0 {
                Some(found[0])
            } else {
                None::<MetaRow>
            }
        }),
{
    texts::picking_is_filtering(
        entry.rows@,
        |row: MetaRow| model::mode_hit(entry.rows@, row, pin.pattern, pin.mode, use_titles),
    );
}

/// Rows with sort keys rank by these as numbers, and rank the same only where
/// the keys are equal. Other rows rank by their values: as numbers where both
/// are such, else as texts.
pub proof fn rows_rank_by_key_number_or_text(
    a: MetaRow,
    b: MetaRow,
    a_reads: Option<Reading>,
    b_reads: Option<Reading>,
)
    ensures
        ({
            let rank = table::row_rank(a, b, a_reads, b_reads);
            &&& a.sort_key is Some && b.sort_key is Some ==> {
                &&& rank == Rank::Before <==> a.sort_key->Some_0 < b.sort_key->Some_0
                &&& rank == Rank::Same <==> a.sort_key->Some_0 == b.sort_key->Some_0
                &&& rank == Rank::After <==> a.sort_key->Some_0 > b.sort_key->Some_0
            }
            &&& a.sort_key is None || b.sort_key is None ==> match (a_reads, b_reads) {
                (Some(Reading::Value(x)), Some(Reading::Value(y))) => {
                    &&& rank == Rank::Before <==> x < y
                    &&& rank == Rank::Same <==> x == y
                    &&& rank == Rank::After <==> x > y
                },
                (Some(_), Some(_)) => rank == Rank::Same,
                _ => rank == text::text_rank(a.value@, b.value@),
            }
        }),
{
}

/// What is rearranged holds the same items as before, each as often.
pub proof fn sorting_keeps_the_list<T>(after: Seq<T>, before: Seq<T>, at: Seq<usize>)
    requires
        sorting::rearranged(after, before, at),
    ensures
        after.to_multiset() == before.to_multiset(),
        after.len() == before.len(),
    decreases before.len(),
{
    after.to_multiset_ensures();
    before.to_multiset_ensures();
    if before.len() == 0 {
        assert(after =~= before);
    } else {
        // The last item of `before` stands somewhere in `after`.
        let last = (before.len() - 1) as usize;
        the_last_position_is_there(at, before.len() as int);
        let k = choose|k: int| 0 <= k < at.len() && at[k] == before.len() - 1;
        let fewer = before.drop_last();
        let less_at = at.remove(k);
        let less = after.remove(k);
        assert(sorting::arranges(less_at, 0, fewer.len() as int)) by {
            assert forall|i: int, j: int|
                0 <= i < less_at.len() && 0 <= j < less_at.len() && i != j implies less_at[i]
                != less_at[j] by {
                let x = if i < k {
                    i
                } else {
                    i + 1
                };
                let y = if j < k {
                    j
                } else {
                    j + 1
                };
                assert(at[x] == less_at[i] && at[y] == less_at[j]);
            }
            assert forall|i: int| 0 <= i < less_at.len() implies 0 <= #[trigger] less_at[i]
                < fewer.len() by {
                let x = if i < k {
                    i
                } else {
                    i + 1
                };
                assert(at[x] == less_at[i]);
                assert(at[x] != at[k]);
            }
        }
        assert(less =~= Seq::new(less_at.len(), |i: int| fewer[less_at[i] as int]));
        sorting_keeps_the_list(less, fewer, less_at);
        assert(after[k] == before.last());
        assert(before =~= fewer.push(before.last()));
        vstd::seq_lib::to_multiset_remove(after, k);
        fewer.to_multiset_ensures();
        assert(before.to_multiset() =~= fewer.to_multiset().insert(before.last()));
        assert(after.to_multiset() =~= less.to_multiset().insert(after[k]));
    }
}

proof fn the_last_position_is_there(at: Seq<usize>, count: int)
    requires
        count > 0,
        sorting::arranges(at, 0, count),
    ensures
        exists|k: int| 0 <= k < at.len() && #[trigger] at[k] == count - 1,
{
    if forall|k: int| 0 <= k < at.len() ==> #[trigger] at[k] != count - 1 {
        let as_ints = at.map_values(|n: usize| n as int);
        let room = vstd::set_lib::set_int_range(0, count - 1);
        vstd::set_lib::lemma_int_range(0, count - 1);
        assert(as_ints.no_duplicates()) by {
            assert forall|i: int, j: int|
                0 <= i < as_ints.len() && 0 <= j < as_ints.len() && i != j implies as_ints[i]
                != as_ints[j] by {
                assert(at[i] != at[j]);
            }
        }
        as_ints.unique_seq_to_set();
        assert(as_ints.to_set().subset_of(room)) by {
            assert forall|x: int| as_ints.to_set().contains(x) implies room.contains(x) by {
                let i = choose|i: int| 0 <= i < as_ints.len() && as_ints[i] == x;
                assert(0 <= at[i] < count);
                assert(at[i] != count - 1);
            }
        }
        vstd::set_lib::lemma_len_subset(as_ints.to_set(), room);
        assert(false);
    }
}

/// Sorting only rearranges: the table holds the same images before and after,
/// each as often.
pub proof fn sorting_loses_no_image(
    after: Seq<usize>,
    before: Seq<usize>,
    images: Seq<ImageEntry>,
    column: SortColumn,
    ascending: bool,
    pins: Seq<PinModel>,
    use_titles: bool,
    readings: Seq<Option<Reading>>,
)
    requires
        table::sorted_by_column(
            after,
            before,
            images,
            column,
            ascending,
            pins,
            use_titles,
            readings,
        ),
    ensures
        after.to_multiset() == before.to_multiset(),
{
    if after != before {
        let rank = match column {
            SortColumn::Name => table::images_by_name(images, ascending),
            SortColumn::Pin(at) => table::images_by_pin(
                images,
                pins[at as int],
                use_titles,
                readings,
                ascending,
            ),
        };
        assert(table::stably_sorted(after, before, rank));
        let at = choose|at: Seq<usize>| #[trigger]
            sorting::rearranged(after, before, at) && (table::orders(before, rank)
                ==> table::sorted_from(after, before, at, rank));
        sorting_keeps_the_list(after, before, at);
    }
}

/// Sorted by name, the lowercase names never fall in ascending order and never
/// rise in descending order.
pub proof fn names_never_fall(
    after: Seq<usize>,
    before: Seq<usize>,
    images: Seq<ImageEntry>,
    ascending: bool,
    pins: Seq<PinModel>,
    use_titles: bool,
    readings: Seq<Option<Reading>>,
    i: int,
    j: int,
)
    requires
        table::sorted_by_column(
            after,
            before,
            images,
            SortColumn::Name,
            ascending,
            pins,
            use_titles,
            readings,
        ),
        0 <= i < j < after.len(),
    ensures
        ({
            let a = images[after[i] as int].file_name_lc@;
            let b = images[after[j] as int].file_name_lc@;
            &&& ascending ==> text::text_rank(a, b) != Rank::After
            &&& !ascending ==> text::text_rank(a, b) != Rank::Before
        }),
{
    let rank = table::images_by_name(images, ascending);
    table::names_order(images, before, ascending);
    let at = choose|at: Seq<usize>| #[trigger]
        sorting::rearranged(after, before, at) && (table::orders(before, rank)
            ==> table::sorted_from(after, before, at, rank));
    assert(rank(after[i], after[j]) != Rank::After);
}

/// The first match of a pin in an image of the table.
pub open spec fn match_at(
    images: Seq<ImageEntry>,
    list: Seq<usize>,
    pin: PinModel,
    use_titles: bool,
    i: int,
) -> Option<MetaRow> {
    table::first_match(images[list[i] as int], pin, use_titles)
}

proof fn pin_ranks_hold(
    after: Seq<usize>,
    before: Seq<usize>,
    images: Seq<ImageEntry>,
    pin: PinModel,
    use_titles: bool,
    readings: Seq<Option<Reading>>,
    ascending: bool,
    kind: SortKind,
    i: int,
    j: int,
)
    requires
        table::stably_sorted(
            after,
            before,
            table::images_by_pin(images, pin, use_titles, readings, ascending),
        ),
        forall|k: int|
            0 <= k < before.len() ==> (match_at(images, before, pin, use_titles, k) matches Some(
                row,
            ) ==> table::is_of_kind(row, readings[#[trigger] before[k] as int], kind)),
        0 <= i < j < after.len(),
    ensures
        table::images_by_pin(images, pin, use_titles, readings, ascending)(after[i], after[j])
            != Rank::After,
        match_at(images, after, pin, use_titles, i) matches Some(row) ==> table::is_of_kind(
            row,
            readings[after[i] as int],
            kind,
        ),
        match_at(images, after, pin, use_titles, j) matches Some(row) ==> table::is_of_kind(
            row,
            readings[after[j] as int],
            kind,
        ),
{
    let rank = table::images_by_pin(images, pin, use_titles, readings, ascending);
    assert forall|k: int| 0 <= k < before.len() implies (table::first_match(
        images[#[trigger] before[k] as int],
        pin,
        use_titles,
    ) matches Some(row) ==> table::is_of_kind(row, readings[before[k] as int], kind)) by {
        assert(match_at(images, before, pin, use_titles, k) == table::first_match(
            images[before[k] as int],
            pin,
            use_titles,
        ));
    }
    table::a_uniform_column_orders(images, before, pin, use_titles, readings, ascending, kind);
    let at = choose|at: Seq<usize>| #[trigger]
        sorting::rearranged(after, before, at) && (table::orders(before, rank)
            ==> table::sorted_from(after, before, at, rank));
    assert(rank(after[i], after[j]) != Rank::After);
    assert(after[i] == before[at[i] as int] && after[j] == before[at[j] as int]);
    assert(match_at(images, after, pin, use_titles, i) == match_at(
        images,
        before,
        pin,
        use_titles,
        at[i] as int,
    ));
    assert(match_at(images, after, pin, use_titles, j) == match_at(
        images,
        before,
        pin,
        use_titles,
        at[j] as int,
    ));
}

/// Sorted by a pin whose first matches all have sort keys, such as sizes and
/// dates, these never fall in ascending order and never rise in descending
/// order.
pub proof fn sort_keys_never_fall(
    after: Seq<usize>,
    before: Seq<usize>,
    images: Seq<ImageEntry>,
    column: usize,
    ascending: bool,
    pins: Seq<PinModel>,
    use_titles: bool,
    readings: Seq<Option<Reading>>,
    i: int,
    j: int,
)
    requires
        column < pins.len(),
        table::sorted_by_column(
            after,
            before,
            images,
            SortColumn::Pin(column),
            ascending,
            pins,
            use_titles,
            readings,
        ),
        forall|k: int|
            0 <= k < before.len() ==> {
                let found = #[trigger] match_at(images, before, pins[column as int], use_titles, k);
                found is Some && found->Some_0.sort_key is Some
            },
        0 <= i < j < after.len(),
    ensures
        ({
            let a = match_at(images, after, pins[column as int], use_titles, i);
            let b = match_at(images, after, pins[column as int], use_titles, j);
            &&& a is Some && a->Some_0.sort_key is Some
            &&& b is Some && b->Some_0.sort_key is Some
            &&& ascending ==> a->Some_0.sort_key->Some_0 <= b->Some_0.sort_key->Some_0
            &&& !ascending ==> a->Some_0.sort_key->Some_0 >= b->Some_0.sort_key->Some_0
        }),
{
    let pin = pins[column as int];
    assert forall|k: int| 0 <= k < before.len() implies (match_at(
        images,
        before,
        pin,
        use_titles,
        k,
    ) matches Some(row) ==> table::is_of_kind(
        row,
        readings[#[trigger] before[k] as int],
        SortKind::SortKey,
    )) by {
        assert(match_at(images, before, pin, use_titles, k) is Some);
    }
    pin_ranks_hold(
        after,
        before,
        images,
        pin,
        use_titles,
        readings,
        ascending,
        SortKind::SortKey,
        i,
        j,
    );
    let rank = table::images_by_pin(images, pin, use_titles, readings, ascending);
    let at = choose|at: Seq<usize>| #[trigger]
        sorting::rearranged(after, before, at) && (table::orders(before, rank)
            ==> table::sorted_from(after, before, at, rank));
    assert(after[i] == before[at[i] as int] && after[j] == before[at[j] as int]);
    assert(match_at(images, before, pin, use_titles, at[i] as int) is Some);
    assert(match_at(images, before, pin, use_titles, at[j] as int) is Some);
    let a = match_at(images, after, pin, use_titles, i)->Some_0;
    let b = match_at(images, after, pin, use_titles, j)->Some_0;
    rows_rank_by_key_number_or_text(
        a,
        b,
        readings[after[i] as int],
        readings[after[j] as int],
    );
}

/// Sorted by a pin whose first matches, where there are any, are numbers without
/// sort keys, these never fall in ascending order and never rise in descending
/// order; images without a match come last in ascending order and first in
/// descending order.
pub proof fn numbers_never_fall(
    after: Seq<usize>,
    before: Seq<usize>,
    images: Seq<ImageEntry>,
    column: usize,
    ascending: bool,
    pins: Seq<PinModel>,
    use_titles: bool,
    readings: Seq<Option<Reading>>,
    i: int,
    j: int,
)
    requires
        column < pins.len(),
        table::sorted_by_column(
            after,
            before,
            images,
            SortColumn::Pin(column),
            ascending,
            pins,
            use_titles,
            readings,
        ),
        forall|k: int|
            0 <= k < before.len() ==> (#[trigger] match_at(
                images,
                before,
                pins[column as int],
                use_titles,
                k,
            ) matches Some(row) ==> row.sort_key is None && readings[before[k] as int] is Some
                && readings[before[k] as int]->Some_0 is Value),
        0 <= i < j < after.len(),
    ensures
        ({
            let a = match_at(images, after, pins[column as int], use_titles, i);
            let b = match_at(images, after, pins[column as int], use_titles, j);
            let x = readings[after[i] as int]->Some_0->Value_0;
            let y = readings[after[j] as int]->Some_0->Value_0;
            &&& a is Some && b is Some && ascending ==> x <= y
            &&& a is Some && b is Some && !ascending ==> x >= y
            &&& ascending && b is Some ==> a is Some
            &&& !ascending && a is Some ==> b is Some
        }),
{
    let pin = pins[column as int];
    assert forall|k: int| 0 <= k < before.len() implies (match_at(
        images,
        before,
        pin,
        use_titles,
        k,
    ) matches Some(row) ==> table::is_of_kind(
        row,
        readings[#[trigger] before[k] as int],
        SortKind::Number,
    )) by {
        let found = match_at(images, before, pin, use_titles, k);
    }
    pin_ranks_hold(
        after,
        before,
        images,
        pin,
        use_titles,
        readings,
        ascending,
        SortKind::Number,
        i,
        j,
    );
    let a = match_at(images, after, pin, use_titles, i);
    let b = match_at(images, after, pin, use_titles, j);
    if a is Some && b is Some {
        rows_rank_by_key_number_or_text(
            a->Some_0,
            b->Some_0,
            readings[after[i] as int],
            readings[after[j] as int],
        );
    }
}

/// Sorted by a pin whose first matches, where there are any, are texts that are
/// no numbers, these never fall in ascending order and never rise in descending
/// order.
pub proof fn values_never_fall(
    after: Seq<usize>,
    before: Seq<usize>,
    images: Seq<ImageEntry>,
    column: usize,
    ascending: bool,
    pins: Seq<PinModel>,
    use_titles: bool,
    readings: Seq<Option<Reading>>,
    i: int,
    j: int,
)
    requires
        column < pins.len(),
        table::sorted_by_column(
            after,
            before,
            images,
            SortColumn::Pin(column),
            ascending,
            pins,
            use_titles,
            readings,
        ),
        forall|k: int|
            0 <= k < before.len() ==> (#[trigger] match_at(
                images,
                before,
                pins[column as int],
                use_titles,
                k,
            ) matches Some(row) ==> row.sort_key is None && readings[before[k] as int] is None),
        0 <= i < j < after.len(),
    ensures
        ({
            let a = match_at(images, after, pins[column as int], use_titles, i);
            let b = match_at(images, after, pins[column as int], use_titles, j);
            let rank = text::text_rank(a->Some_0.value@, b->Some_0.value@);
            &&& a is Some && b is Some && ascending ==> rank != Rank::After
            &&& a is Some && b is Some && !ascending ==> rank != Rank::Before
            &&& ascending && b is Some ==> a is Some
            &&& !ascending && a is Some ==> b is Some
        }),
{
    let pin = pins[column as int];
    assert forall|k: int| 0 <= k < before.len() implies (match_at(
        images,
        before,
        pin,
        use_titles,
        k,
    ) matches Some(row) ==> table::is_of_kind(
        row,
        readings[#[trigger] before[k] as int],
        SortKind::Text,
    )) by {
        let found = match_at(images, before, pin, use_titles, k);
    }
    pin_ranks_hold(
        after,
        before,
        images,
        pin,
        use_titles,
        readings,
        ascending,
        SortKind::Text,
        i,
        j,
    );
}

/// Images that rank the same keep the order in which they stood: where names
/// have all the same lower case, or where no image has a match, nothing moves.
pub proof fn ties_stay_as_they_were(
    after: Seq<usize>,
    before: Seq<usize>,
    rank: spec_fn(usize, usize) -> Rank,
)
    requires
        table::stably_sorted(after, before, rank),
        forall|i: int, j: int|
            0 <= i < before.len() && 0 <= j < before.len() ==> #[trigger] rank(
                before[i],
                before[j],
            ) == Rank::Same,
    ensures
        after == before,
{
    assert(table::orders(before, rank));
    let at = choose|at: Seq<usize>| #[trigger]
        sorting::rearranged(after, before, at) && (table::orders(before, rank)
            ==> table::sorted_from(after, before, at, rank));
    assert forall|i: int, j: int| 0 <= i < j < at.len() implies at[i] < at[j] by {
        assert(after[i] == before[at[i] as int] && after[j] == before[at[j] as int]);
        assert(rank(after[i], after[j]) == Rank::Same);
    }
    counting_up_is_the_identity(at, before.len() as int);
    assert(after =~= before);
}

proof fn counting_up_is_the_identity(at: Seq<usize>, count: int)
    requires
        sorting::arranges(at, 0, count),
        forall|i: int, j: int| 0 <= i < j < at.len() ==> at[i] < at[j],
    ensures
        forall|i: int| 0 <= i < at.len() ==> #[trigger] at[i] == i,
{
    assert forall|i: int| 0 <= i < at.len() implies #[trigger] at[i] == i by {
        at_least(at, i);
        at_most(at, count, i);
    }
}

proof fn at_least(at: Seq<usize>, i: int)
    requires
        forall|i: int, j: int| 0 <= i < j < at.len() ==> at[i] < at[j],
        0 <= i < at.len(),
    ensures
        at[i] >= i,
    decreases i,
{
    if i > 0 {
        at_least(at, i - 1);
        assert(at[i - 1] < at[i]);
    }
}

proof fn at_most(at: Seq<usize>, count: int, i: int)
    requires
        sorting::arranges(at, 0, count),
        forall|i: int, j: int| 0 <= i < j < at.len() ==> at[i] < at[j],
        0 <= i < at.len(),
    ensures
        at[i] <= i,
    decreases at.len() - i,
{
    if i < at.len() - 1 {
        at_most(at, count, i + 1);
        assert(at[i] < at[i + 1]);
    }
}

/// A column of a pin that is gone leaves the table as it is.
pub proof fn a_missing_pin_sorts_nothing(
    after: Seq<usize>,
    before: Seq<usize>,
    images: Seq<ImageEntry>,
    column: usize,
    ascending: bool,
    pins: Seq<PinModel>,
    use_titles: bool,
    readings: Seq<Option<Reading>>,
)
    requires
        column >= pins.len(),
        table::sorted_by_column(
            after,
            before,
            images,
            SortColumn::Pin(column),
            ascending,
            pins,
            use_titles,
            readings,
        ),
    ensures
        after == before,
{
}

} // verus!
