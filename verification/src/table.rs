//! The table: which images a search keeps, in which order they stand, and what
//! the match column says of them.

use vstd::arithmetic::power2;
use vstd::prelude::*;

use crate::index::{self, row_matches, MetaRow};
use crate::lists;
use crate::model::{self, ImageEntry};
use crate::pins::{self, Pin, PinModel};
use crate::sorting::{self, sorted_positions, SortOrder};
use crate::text::{self, contains_text, rank_texts, single_line, Rank};

verus! {

// ---------------------------------------------------------------------------
// Search
// ---------------------------------------------------------------------------

/// What a search found in one image.
pub struct MatchInfo {
    pub first: String,
    pub count: usize,
}

/// Characters of a matched value that the match column shows.
pub const MATCH_CHARS: usize = 200;

/// How many of some rows answer a query.
pub open spec fn hits(rows: Seq<MetaRow>, query: Seq<char>) -> nat {
    lists::picked(rows, |row: MetaRow| index::row_answers(row, query)).len()
}

/// Whether the name of an image answers a query.
pub open spec fn name_hit(entry: ImageEntry, query: Seq<char>) -> bool {
    text::occurs_in(query, entry.file_name_lc@)
}

/// How often an image answers a query: by its name and by its rows.
pub open spec fn image_hits(entry: ImageEntry, query: Seq<char>) -> nat {
    hits(entry.rows@, query) + if name_hit(entry, query) {
        1nat
    } else {
        0nat
    }
}

/// What the match column shows first: the name, or the first row that answers.
pub open spec fn first_hit(entry: ImageEntry, query: Seq<char>) -> Seq<char> {
    if name_hit(entry, query) {
        "name = "@ + entry.file_name@
    } else {
        let row = lists::picked(
            entry.rows@,
            |row: MetaRow| index::row_answers(row, query),
        )[0];
        row.key@ + " = "@ + text::one_line(row.value@, MATCH_CHARS as nat)
    }
}

/// A count, as far as a machine word can hold it.
pub open spec fn counted(hits: nat) -> int {
    if hits <= usize::MAX {
        hits as int
    } else {
        usize::MAX as int
    }
}

/// What a query in lower case finds in an image: nothing, or how often it is
/// answered and what comes first.
pub fn match_image(entry: &ImageEntry, query: &str) -> (found: Option<MatchInfo>)
    ensures
        match found {
            Some(info) => {
                &&& image_hits(*entry, query@) > 0
                &&& info.count == counted(image_hits(*entry, query@))
                &&& info.first@ == first_hit(*entry, query@)
            },
            None => image_hits(*entry, query@) == 0,
        },
{
    let ghost passes = |row: MetaRow| index::row_answers(row, query@);
    let named = contains_text(entry.file_name_lc.as_str(), query);
    let mut first: Option<String> = None;
    let mut count: usize = 0;
    if named {
        first = Some(text::concat("name = ", entry.file_name.as_str()));
        count = 1;
    }
    let ghost offset: nat = if named {
        1
    } else {
        0
    };
    assert(entry.rows@.take(0) =~= Seq::empty());
    for i in 0..entry.rows.len()
        invariant
            passes == |row: MetaRow| index::row_answers(row, query@),
            named == name_hit(*entry, query@),
            offset == (if named {
                1nat
            } else {
                0nat
            }),
            count == counted(lists::picked(entry.rows@.take(i as int), passes).len() + offset),
            first is Some == (lists::picked(entry.rows@.take(i as int), passes).len() + offset
                > 0),
            first matches Some(shown) ==> shown@ == (if named {
                "name = "@ + entry.file_name@
            } else {
                let row = lists::picked(entry.rows@.take(i as int), passes)[0];
                row.key@ + " = "@ + text::one_line(row.value@, MATCH_CHARS as nat)
            }),
    {
        let row = &entry.rows[i];
        proof {
            lists::picked_step(entry.rows@, passes, i as int);
        }
        if row_matches(row, query) {
            if first.is_none() {
                let mut shown = row.key.clone();
                shown.append(" = ");
                shown.append(single_line(row.value.as_str(), MATCH_CHARS).as_str());
                assert(shown@ =~= row.key@ + " = "@ + text::one_line(
                    row.value@,
                    MATCH_CHARS as nat,
                ));
                first = Some(shown);
            }
            count = count.saturating_add(1);
        }
    }
    assert(entry.rows@.take(entry.rows@.len() as int) =~= entry.rows@);
    match first {
        Some(first) => Some(MatchInfo { first, count }),
        None => None,
    }
}

/// What the match column shows: the first match, and how many more there are.
pub fn match_text(info: &MatchInfo) -> (shown: String)
    ensures
        shown@ == (if info.count > 1 {
            info.first@ + "  (+"@ + text::decimal((info.count - 1) as nat) + ")"@
        } else {
            info.first@
        }),
{
    if info.count <= 1 {
        return info.first.clone();
    }
    let mut shown = info.first.clone();
    shown.append("  (+");
    text::push_decimal(&mut shown, (info.count - 1) as u64);
    shown.append(")");
    shown
}

/// Whether a search keeps an image. An empty query keeps them all.
pub open spec fn kept(entry: ImageEntry, query: Seq<char>) -> bool {
    query.len() == 0 || image_hits(entry, query) > 0
}

/// The positions from zero up to `count`.
pub open spec fn positions(count: nat) -> Seq<usize> {
    Seq::new(count, |i: int| i as usize)
}

/// The positions of the images that a search keeps, in their order.
pub open spec fn kept_positions(images: Seq<ImageEntry>, query: Seq<char>) -> Seq<usize> {
    lists::picked(positions(images.len()), |at: usize| kept(images[at as int], query))
}

/// What the match column knows of an image: nothing without a query.
pub open spec fn column_says(info: Option<MatchInfo>, entry: ImageEntry, query: Seq<char>) -> bool {
    match info {
        Some(info) => {
            &&& query.len() > 0
            &&& image_hits(entry, query) > 0
            &&& info.count == counted(image_hits(entry, query))
            &&& info.first@ == first_hit(entry, query)
        },
        None => query.len() == 0 || image_hits(entry, query) == 0,
    }
}

/// Filters the images by a query in lower case: the positions of those it
/// keeps, and for each image what the match column says.
pub fn filter_images(images: &Vec<ImageEntry>, query: &str) -> (found: (
    Vec<usize>,
    Vec<Option<MatchInfo>>,
))
    ensures
        found.0@ == kept_positions(images@, query@),
        found.1@.len() == images@.len(),
        forall|i: int|
            0 <= i < images@.len() ==> column_says(#[trigger] found.1@[i], images@[i], query@),
{
    let ghost all = positions(images@.len());
    let ghost passes = |at: usize| kept(images@[at as int], query@);
    let mut visible: Vec<usize> = Vec::new();
    let mut matches: Vec<Option<MatchInfo>> = Vec::new();
    let searching = !query.is_empty();
    assert(all.take(0) =~= Seq::empty());
    for i in 0..images.len()
        invariant
            all == positions(images@.len()),
            passes == |at: usize| kept(images@[at as int], query@),
            searching == (query@.len() > 0),
            visible@ == lists::picked(all.take(i as int), passes),
            matches@.len() == i,
            forall|k: int|
                0 <= k < i ==> column_says(#[trigger] matches@[k], images@[k], query@),
    {
        proof {
            assert(all[i as int] == i);
            lists::picked_step(all, passes, i as int);
        }
        let found = if searching {
            match_image(&images[i], query)
        } else {
            None
        };
        if !searching || found.is_some() {
            visible.push(i);
        }
        matches.push(found);
    }
    assert(all.take(images@.len() as int) =~= all);
    (visible, matches)
}

// ---------------------------------------------------------------------------
// Sorting
// ---------------------------------------------------------------------------

/// A column to sort by.
#[derive(Clone, Copy, PartialEq, Eq, Structural, Debug)]
pub enum SortColumn {
    Name,
    Pin(usize),
}

/// How a value reads as a number: its place in the order of numbers, or not a
/// number.
#[derive(Clone, Copy, PartialEq, Eq, Structural, Debug)]
pub enum Reading {
    NotANumber,
    Value(i128),
}

/// The bit of a double that holds its sign.
pub const SIGN_BIT: u64 = 0x8000_0000_0000_0000;

/// The bits of the infinite double.
pub const INFINITE_BITS: u64 = 0x7ff0_0000_0000_0000;

/// One more than the largest fraction that a double's bits hold.
pub const FRACTION_LIMIT: u64 = 0x0010_0000_0000_0000;

/// The bits of a double without its sign.
pub open spec fn magnitude(bits: u64) -> int {
    if bits >= SIGN_BIT {
        bits - SIGN_BIT
    } else {
        bits as int
    }
}

/// How the double with these bits reads: the bits without the sign grow with the
/// number, past those of the infinite one they are none, and the sign turns them
/// round.
pub open spec fn bits_read(bits: u64) -> Reading {
    if magnitude(bits) > INFINITE_BITS {
        Reading::NotANumber
    } else if bits >= SIGN_BIT {
        Reading::Value((-magnitude(bits)) as i128)
    } else {
        Reading::Value(magnitude(bits) as i128)
    }
}

/// Computes [`bits_read`].
pub fn reading_of_bits(bits: u64) -> (reading: Reading)
    ensures
        reading == bits_read(bits),
{
    let negative = bits >= SIGN_BIT;
    let size: u64 = if negative {
        bits - SIGN_BIT
    } else {
        bits
    };
    if size > INFINITE_BITS {
        return Reading::NotANumber;
    }
    if negative {
        Reading::Value(-(size as i128))
    } else {
        Reading::Value(size as i128)
    }
}

/// The size of the double whose bits without the sign are these, counted in the
/// smallest positive double. The infinite one counts as the next after the
/// largest.
pub open spec fn double_size(magnitude: int) -> int {
    let exponent = magnitude / FRACTION_LIMIT as int;
    let fraction = magnitude % FRACTION_LIMIT as int;
    if exponent == 0 {
        fraction
    } else {
        (FRACTION_LIMIT + fraction) * power2::pow2((exponent - 1) as nat)
    }
}

/// The double with these bits, counted in the smallest positive double.
pub open spec fn double_value(bits: u64) -> int {
    if bits >= SIGN_BIT {
        -double_size(magnitude(bits))
    } else {
        double_size(magnitude(bits))
    }
}

proof fn larger_bits_are_larger_doubles(a: int, b: int)
    requires
        0 <= a < b,
    ensures
        0 <= double_size(a) < double_size(b),
{
    let limit = FRACTION_LIMIT as int;
    let (low, high) = (a / limit, b / limit);
    let (x, y) = (a % limit, b % limit);
    assert(a == limit * low + x && b == limit * high + y);
    assert(0 <= low <= high);
    if low == high {
        assert(x < y);
        if low > 0 {
            let unit = power2::pow2((low - 1) as nat) as int;
            power2::lemma_pow2_pos((low - 1) as nat);
            assert(0 <= (limit + x) * unit < (limit + y) * unit) by (nonlinear_arith)
                requires
                    0 <= x < y,
                    limit > 0,
                    unit > 0,
            ;
        }
    } else {
        let unit = power2::pow2((high - 1) as nat) as int;
        let step = power2::pow2(low as nat) as int;
        power2::lemma_pow2_pos((high - 1) as nat);
        power2::lemma_pow2_pos(low as nat);
        if low < high - 1 {
            power2::lemma_pow2_strictly_increases(low as nat, (high - 1) as nat);
        }
        assert((limit + y) * unit >= limit * step) by (nonlinear_arith)
            requires
                y >= 0,
                limit > 0,
                unit >= step > 0,
        ;
        if low == 0 {
            power2::lemma2_to64();
            assert(step == 1);
        } else {
            let half = power2::pow2((low - 1) as nat) as int;
            power2::lemma_pow2_unfold(low as nat);
            power2::lemma_pow2_pos((low - 1) as nat);
            assert(0 <= (limit + x) * half < limit * step) by (nonlinear_arith)
                requires
                    0 <= x < limit,
                    step == 2 * half,
                    half > 0,
            ;
        }
    }
}

/// Readings order as the doubles do that they stand for, the two zeros being one.
pub proof fn readings_order_as_doubles_do(a: u64, b: u64)
    requires
        bits_read(a) is Value,
        bits_read(b) is Value,
    ensures
        bits_read(a)->Value_0 <= bits_read(b)->Value_0 <==> double_value(a) <= double_value(b),
{
    let (x, y) = (magnitude(a), magnitude(b));
    if x < y {
        larger_bits_are_larger_doubles(x, y);
    }
    if y < x {
        larger_bits_are_larger_doubles(y, x);
    }
    if 0 < x {
        larger_bits_are_larger_doubles(0, x);
    }
    if 0 < y {
        larger_bits_are_larger_doubles(0, y);
    }
    assert(double_size(0) == 0);
}

/// Numeric comparison when both values read as numbers, text order otherwise.
/// A reading that is not a number ranks the same as any other.
pub open spec fn value_rank(
    a: Seq<char>,
    b: Seq<char>,
    a_reads: Option<Reading>,
    b_reads: Option<Reading>,
) -> Rank {
    match (a_reads, b_reads) {
        (Some(Reading::Value(x)), Some(Reading::Value(y))) => text::number_rank(
            x as int,
            y as int,
        ),
        (Some(_), Some(_)) => Rank::Same,
        _ => text::text_rank(a, b),
    }
}

/// Computes [`value_rank`].
pub fn compare_values(a: &str, b: &str, a_reads: Option<Reading>, b_reads: Option<Reading>) -> (rank:
    Rank)
    ensures
        rank == value_rank(a@, b@, a_reads, b_reads),
{
    match (a_reads, b_reads) {
        (Some(Reading::Value(x)), Some(Reading::Value(y))) => rank_numbers(x, y),
        (Some(_), Some(_)) => Rank::Same,
        _ => rank_texts(a, b),
    }
}

fn rank_numbers(x: i128, y: i128) -> (rank: Rank)
    ensures
        rank == text::number_rank(x as int, y as int),
{
    if x < y {
        Rank::Before
    } else if x == y {
        Rank::Same
    } else {
        Rank::After
    }
}

/// Rows compare by their sort keys where both have one, else by their values.
pub open spec fn row_rank(
    a: MetaRow,
    b: MetaRow,
    a_reads: Option<Reading>,
    b_reads: Option<Reading>,
) -> Rank {
    match (a.sort_key, b.sort_key) {
        (Some(x), Some(y)) => text::number_rank(x as int, y as int),
        _ => value_rank(a.value@, b.value@, a_reads, b_reads),
    }
}

/// Computes [`row_rank`].
pub fn compare_rows(a: &MetaRow, b: &MetaRow, a_reads: Option<Reading>, b_reads: Option<Reading>) -> (rank:
    Rank)
    ensures
        rank == row_rank(*a, *b, a_reads, b_reads),
{
    match (a.sort_key, b.sort_key) {
        (Some(x), Some(y)) => rank_numbers(x, y),
        _ => compare_values(a.value.as_str(), b.value.as_str(), a_reads, b_reads),
    }
}

/// Entries compare by their first match; those without one come last.
pub open spec fn match_rank(
    a: Option<MetaRow>,
    b: Option<MetaRow>,
    a_reads: Option<Reading>,
    b_reads: Option<Reading>,
) -> Rank {
    match (a, b) {
        (Some(x), Some(y)) => row_rank(x, y, a_reads, b_reads),
        (Some(_), None) => Rank::Before,
        (None, Some(_)) => Rank::After,
        (None, None) => Rank::Same,
    }
}

/// Orders two entries by their first match for the sorted pin column; entries
/// with no match sort last (before the ascending/descending flip).
pub fn compare_pin_matches(
    a: Option<&MetaRow>,
    b: Option<&MetaRow>,
    a_reads: Option<Reading>,
    b_reads: Option<Reading>,
) -> (rank: Rank)
    ensures
        rank == match_rank(
            match a {
                Some(row) => Some(*row),
                None => None,
            },
            match b {
                Some(row) => Some(*row),
                None => None,
            },
            a_reads,
            b_reads,
        ),
{
    match (a, b) {
        (Some(x), Some(y)) => compare_rows(x, y, a_reads, b_reads),
        (Some(_), None) => Rank::Before,
        (None, Some(_)) => Rank::After,
        (None, None) => Rank::Same,
    }
}

/// A rank, or its opposite for descending order.
pub open spec fn directed(rank: Rank, ascending: bool) -> Rank {
    if ascending {
        rank
    } else {
        rank.flipped()
    }
}

/// The first row of an image that a pin selects.
pub open spec fn first_match(entry: ImageEntry, pin: PinModel, use_titles: bool) -> Option<MetaRow> {
    let found = lists::picked(
        entry.rows@,
        |row: MetaRow| model::mode_hit(entry.rows@, row, pin.pattern, pin.mode, use_titles),
    );
    if found.len() > 0 {
        Some(found[0])
    } else {
        None
    }
}

/// The order of the positions of a list of images by name.
pub struct NameOrder<'a> {
    pub images: &'a Vec<ImageEntry>,
    pub list: &'a Vec<usize>,
    pub ascending: bool,
}

impl<'a> SortOrder for NameOrder<'a> {
    open spec fn covers(&self, count: int) -> bool {
        &&& count == self.list@.len()
        &&& forall|i: int| 0 <= i < count ==> #[trigger] self.list@[i] < self.images@.len()
    }

    open spec fn rank(&self, a: int, b: int) -> Rank {
        directed(
            text::text_rank(
                self.images@[self.list@[a] as int].file_name_lc@,
                self.images@[self.list@[b] as int].file_name_lc@,
            ),
            self.ascending,
        )
    }

    fn compare(&self, a: usize, b: usize, count: usize) -> (rank: Rank) {
        assert(self.list@[a as int] < self.images@.len());
        assert(self.list@[b as int] < self.images@.len());
        let rank = rank_texts(
            self.images[self.list[a]].file_name_lc.as_str(),
            self.images[self.list[b]].file_name_lc.as_str(),
        );
        if self.ascending {
            rank
        } else {
            rank.flip()
        }
    }
}

/// The order of the positions of a list of images by the first match of a pin.
/// Each entry is decorated with its match once, instead of searching both
/// entries inside every comparison.
pub struct PinOrder<'a> {
    /// The first match of each position.
    pub matches: Vec<Option<&'a MetaRow>>,
    /// How the value of each position reads as a number.
    pub readings: Vec<Option<Reading>>,
    pub ascending: bool,
}

impl<'a> SortOrder for PinOrder<'a> {
    open spec fn covers(&self, count: int) -> bool {
        count == self.matches@.len() && count == self.readings@.len()
    }

    open spec fn rank(&self, a: int, b: int) -> Rank {
        directed(
            match_rank(
                match self.matches@[a] {
                    Some(row) => Some(*row),
                    None => None,
                },
                match self.matches@[b] {
                    Some(row) => Some(*row),
                    None => None,
                },
                self.readings@[a],
                self.readings@[b],
            ),
            self.ascending,
        )
    }

    fn compare(&self, a: usize, b: usize, count: usize) -> (rank: Rank) {
        let rank = compare_pin_matches(
            self.matches[a],
            self.matches[b],
            self.readings[a],
            self.readings[b],
        );
        if self.ascending {
            rank
        } else {
            rank.flip()
        }
    }
}

/// How two images rank by name.
pub open spec fn images_by_name(images: Seq<ImageEntry>, ascending: bool) -> spec_fn(
    usize,
    usize,
) -> Rank {
    |a: usize, b: usize|
        directed(
            text::text_rank(
                images[a as int].file_name_lc@,
                images[b as int].file_name_lc@,
            ),
            ascending,
        )
}

/// How two images rank by the first match of a pin.
pub open spec fn images_by_pin(
    images: Seq<ImageEntry>,
    pin: PinModel,
    use_titles: bool,
    readings: Seq<Option<Reading>>,
    ascending: bool,
) -> spec_fn(usize, usize) -> Rank {
    |a: usize, b: usize|
        directed(
            match_rank(
                first_match(images[a as int], pin, use_titles),
                first_match(images[b as int], pin, use_titles),
                readings[a as int],
                readings[b as int],
            ),
            ascending,
        )
}

/// Whether a rank orders the items of a list: two items rank oppositely seen
/// from each other, and not coming after carries over.
pub open spec fn orders(list: Seq<usize>, rank: spec_fn(usize, usize) -> Rank) -> bool {
    &&& forall|i: int, j: int|
        0 <= i < list.len() && 0 <= j < list.len() ==> #[trigger] rank(list[j], list[i]) == rank(
            list[i],
            list[j],
        ).flipped()
    &&& forall|i: int, j: int, k: int|
        0 <= i < list.len() && 0 <= j < list.len() && 0 <= k < list.len() && #[trigger] rank(
            list[i],
            list[j],
        ) != Rank::After && #[trigger] rank(list[j], list[k]) != Rank::After ==> rank(
            list[i],
            list[k],
        ) != Rank::After
}

/// Whether `after` is `before` in the order of a rank, items that rank the same
/// keeping theirs. `at` says where each item came from.
pub open spec fn sorted_from(
    after: Seq<usize>,
    before: Seq<usize>,
    at: Seq<usize>,
    rank: spec_fn(usize, usize) -> Rank,
) -> bool {
    forall|i: int, j: int|
        0 <= i < j < after.len() ==> (#[trigger] rank(after[i], after[j]) == Rank::Before || (rank(
            after[i],
            after[j],
        ) == Rank::Same && at[i] < at[j]))
}

/// Whether `after` is `before` stably sorted by a rank. Whatever the rank,
/// `after` holds what `before` does; it is in order where the rank is an order.
pub open spec fn stably_sorted(
    after: Seq<usize>,
    before: Seq<usize>,
    rank: spec_fn(usize, usize) -> Rank,
) -> bool {
    exists|at: Seq<usize>|
        #![trigger sorting::rearranged(after, before, at)]
        sorting::rearranged(after, before, at) && (orders(before, rank) ==> sorted_from(
            after,
            before,
            at,
            rank,
        ))
}

/// Names always order.
pub proof fn names_order(images: Seq<ImageEntry>, list: Seq<usize>, ascending: bool)
    ensures
        orders(list, images_by_name(images, ascending)),
{
    let rank = images_by_name(images, ascending);
    assert forall|i: int, j: int| 0 <= i < list.len() && 0 <= j < list.len() implies #[trigger] rank(
        list[j],
        list[i],
    ) == rank(list[i], list[j]).flipped() by {
        text::text_rank_is_antisymmetric(
            images[list[i] as int].file_name_lc@,
            images[list[j] as int].file_name_lc@,
        );
    }
    assert forall|i: int, j: int, k: int|
        0 <= i < list.len() && 0 <= j < list.len() && 0 <= k < list.len() && #[trigger] rank(
            list[i],
            list[j],
        ) != Rank::After && #[trigger] rank(list[j], list[k]) != Rank::After implies rank(
        list[i],
        list[k],
    ) != Rank::After by {
        let a = images[list[i] as int].file_name_lc@;
        let b = images[list[j] as int].file_name_lc@;
        let c = images[list[k] as int].file_name_lc@;
        if ascending {
            text::text_rank_is_transitive(a, b, c);
        } else {
            text::text_rank_is_antisymmetric(a, b);
            text::text_rank_is_antisymmetric(b, c);
            text::text_rank_is_antisymmetric(a, c);
            text::text_rank_is_transitive(c, b, a);
        }
    }
}

proof fn positions_follow_items<O: SortOrder>(
    order: &O,
    list: Seq<usize>,
    rank: spec_fn(usize, usize) -> Rank,
)
    requires
        forall|a: int, b: int|
            0 <= a < list.len() && 0 <= b < list.len() ==> #[trigger] order.rank(a, b) == rank(
                list[a],
                list[b],
            ),
        orders(list, rank),
    ensures
        sorting::total_preorder(order, list.len() as int),
{
    let count = list.len() as int;
    assert forall|a: int, b: int| 0 <= a < count && 0 <= b < count implies #[trigger] order.rank(
        b,
        a,
    ) == order.rank(a, b).flipped() by {
        assert(rank(list[b], list[a]) == rank(list[a], list[b]).flipped());
    }
    assert forall|a: int, b: int, c: int|
        0 <= a < count && 0 <= b < count && 0 <= c < count && #[trigger] order.rank(a, b)
            != Rank::After && #[trigger] order.rank(b, c) != Rank::After implies order.rank(a, c)
        != Rank::After by {
        assert(rank(list[a], list[b]) != Rank::After && rank(list[b], list[c]) != Rank::After);
    }
}

fn sort_list<O: SortOrder>(
    order: &O,
    list: &Vec<usize>,
    Ghost(rank): Ghost<spec_fn(usize, usize) -> Rank>,
) -> (sorted: Vec<usize>)
    requires
        order.covers(list@.len() as int),
        forall|a: int, b: int|
            0 <= a < list@.len() && 0 <= b < list@.len() ==> #[trigger] order.rank(a, b) == rank(
                list@[a],
                list@[b],
            ),
    ensures
        stably_sorted(sorted@, list@, rank),
{
    let at = sorted_positions(order, list.len());
    let mut sorted: Vec<usize> = Vec::new();
    for i in 0..at.len()
        invariant
            sorting::arranges(at@, 0, list@.len() as int),
            sorted@.len() == i,
            forall|k: int| 0 <= k < i ==> #[trigger] sorted@[k] == list@[at@[k] as int],
    {
        assert(at@[i as int] < list@.len());
        sorted.push(list[at[i]]);
    }
    proof {
        assert(sorted@ =~= Seq::new(at@.len(), |i: int| list@[at@[i] as int]));
        assert(sorting::rearranged(sorted@, list@, at@));
        if orders(list@, rank) {
            positions_follow_items(order, list@, rank);
            assert forall|i: int, j: int| 0 <= i < j < sorted@.len() implies (#[trigger] rank(
                sorted@[i],
                sorted@[j],
            ) == Rank::Before || (rank(sorted@[i], sorted@[j]) == Rank::Same && at@[i]
                < at@[j])) by {
                assert(sorting::precedes(order, at@[i] as int, at@[j] as int));
                assert(order.rank(at@[i] as int, at@[j] as int) == rank(
                    list@[at@[i] as int],
                    list@[at@[j] as int],
                ));
            }
        }
    }
    sorted
}

/// Whether positions all name an image.
pub open spec fn in_range(list: Seq<usize>, count: nat) -> bool {
    forall|i: int| 0 <= i < list.len() ==> #[trigger] list[i] < count
}

/// What sorting by a column makes of a list of images. A column of a pin that
/// is gone leaves the list alone.
pub open spec fn sorted_by_column(
    after: Seq<usize>,
    before: Seq<usize>,
    images: Seq<ImageEntry>,
    column: SortColumn,
    ascending: bool,
    pins: Seq<PinModel>,
    use_titles: bool,
    readings: Seq<Option<Reading>>,
) -> bool {
    match column {
        SortColumn::Name => stably_sorted(after, before, images_by_name(images, ascending)),
        SortColumn::Pin(at) => if at < pins.len() {
            stably_sorted(
                after,
                before,
                images_by_pin(images, pins[at as int], use_titles, readings, ascending),
            )
        } else {
            after == before
        },
    }
}

/// The first row of an image that a pin selects.
pub fn first_match_of<'a>(entry: &'a ImageEntry, pin: &Pin, use_titles: bool) -> (found: Option<
    &'a MetaRow,
>)
    ensures
        first_match(*entry, pin@, use_titles) == (match found {
            Some(row) => Some(*row),
            None => None,
        }),
{
    let rows = entry.rows_for_mode(pin.pattern.as_str(), pin.mode, use_titles);
    let ghost all = model::pointed_at(rows@);
    if rows.len() > 0 {
        assert(all[0] == *rows@[0]);
        Some(rows[0])
    } else {
        None
    }
}

/// Sorts a list of images by a column. `readings` says of each image how the
/// value of its first match reads as a number.
pub fn sort_visible(
    images: &Vec<ImageEntry>,
    visible: Vec<usize>,
    column: SortColumn,
    ascending: bool,
    pins: &Vec<Pin>,
    use_titles: bool,
    readings: &Vec<Option<Reading>>,
) -> (sorted: Vec<usize>)
    requires
        in_range(visible@, images@.len()),
        readings@.len() == images@.len(),
    ensures
        sorted_by_column(
            sorted@,
            visible@,
            images@,
            column,
            ascending,
            pins::pin_models(pins@),
            use_titles,
            readings@,
        ),
{
    match column {
        SortColumn::Name => {
            let order = NameOrder { images, list: &visible, ascending };
            sort_list(&order, &visible, Ghost(images_by_name(images@, ascending)))
        },
        SortColumn::Pin(at) => {
            if at >= pins.len() {
                return visible;
            }
            let pin = &pins[at];
            assert(pins::pin_models(pins@)[at as int] == pin@);
            let mut order = PinOrder { matches: Vec::new(), readings: Vec::new(), ascending };
            for i in 0..visible.len()
                invariant
                    in_range(visible@, images@.len()),
                    readings@.len() == images@.len(),
                    order.ascending == ascending,
                    order.matches@.len() == i,
                    order.readings@.len() == i,
                    forall|k: int|
                        0 <= k < i ==> first_match(
                            images@[visible@[k] as int],
                            pin@,
                            use_titles,
                        ) == (match #[trigger] order.matches@[k] {
                            Some(row) => Some(*row),
                            None => None,
                        }),
                    forall|k: int|
                        0 <= k < i ==> #[trigger] order.readings@[k]
                            == readings@[visible@[k] as int],
            {
                assert(visible@[i as int] < images@.len());
                let idx = visible[i];
                order.matches.push(first_match_of(&images[idx], pin, use_titles));
                order.readings.push(readings[idx]);
            }
            sort_list(
                &order,
                &visible,
                Ghost(images_by_pin(images@, pin@, use_titles, readings@, ascending)),
            )
        },
    }
}

/// By what a row sorts among others of its kind.
#[derive(Clone, Copy, PartialEq, Eq, Structural, Debug)]
pub enum SortKind {
    SortKey,
    Number,
    Text,
}

/// Whether a row with this reading sorts by what `kind` says.
pub open spec fn is_of_kind(row: MetaRow, reads: Option<Reading>, kind: SortKind) -> bool {
    match kind {
        SortKind::SortKey => row.sort_key is Some,
        SortKind::Number => row.sort_key is None && reads is Some && reads->Some_0 is Value,
        SortKind::Text => row.sort_key is None && reads is None,
    }
}

/// A pin column whose values are all of one kind (all with sort keys, all
/// numbers, or all texts that are no numbers) orders its images, so sorting by
/// it puts them in order.
pub proof fn a_uniform_column_orders(
    images: Seq<ImageEntry>,
    list: Seq<usize>,
    pin: PinModel,
    use_titles: bool,
    readings: Seq<Option<Reading>>,
    ascending: bool,
    kind: SortKind,
)
    requires
        forall|i: int|
            0 <= i < list.len() ==> (first_match(
                images[#[trigger] list[i] as int],
                pin,
                use_titles,
            ) matches Some(row) ==> is_of_kind(row, readings[list[i] as int], kind)),
    ensures
        orders(list, images_by_pin(images, pin, use_titles, readings, ascending)),
{
    let rank = images_by_pin(images, pin, use_titles, readings, ascending);
    assert forall|i: int, j: int| 0 <= i < list.len() && 0 <= j < list.len() implies #[trigger] rank(
        list[j],
        list[i],
    ) == rank(list[i], list[j]).flipped() by {
        let a = first_match(images[list[i] as int], pin, use_titles);
        let b = first_match(images[list[j] as int], pin, use_titles);
        if a is Some && b is Some {
            text::text_rank_is_antisymmetric(a->Some_0.value@, b->Some_0.value@);
        }
    }
    assert forall|i: int, j: int, k: int|
        0 <= i < list.len() && 0 <= j < list.len() && 0 <= k < list.len() && #[trigger] rank(
            list[i],
            list[j],
        ) != Rank::After && #[trigger] rank(list[j], list[k]) != Rank::After implies rank(
        list[i],
        list[k],
    ) != Rank::After by {
        let a = first_match(images[list[i] as int], pin, use_titles);
        let b = first_match(images[list[j] as int], pin, use_titles);
        let c = first_match(images[list[k] as int], pin, use_titles);
        if a is Some && b is Some && c is Some && kind == SortKind::Text {
            let x = a->Some_0.value@;
            let y = b->Some_0.value@;
            let z = c->Some_0.value@;
            text::text_rank_is_antisymmetric(x, y);
            text::text_rank_is_antisymmetric(y, z);
            text::text_rank_is_antisymmetric(x, z);
            if ascending {
                text::text_rank_is_transitive(x, y, z);
            } else {
                text::text_rank_is_transitive(z, y, x);
            }
        }
    }
}

/// Images without a match come last in ascending order.
pub proof fn unmatched_images_come_last(
    row: MetaRow,
    reads: Option<Reading>,
    other: Option<Reading>,
)
    ensures
        directed(match_rank(Some(row), None, reads, other), true) == Rank::Before,
        directed(match_rank(None, Some(row), other, reads), true) == Rank::After,
{
}

} // verus!
