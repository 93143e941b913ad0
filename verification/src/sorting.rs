//! A stable sort of positions.

use vstd::prelude::*;

use crate::text::Rank;

verus! {

/// An order of the positions of a list.
pub trait SortOrder {
    /// Whether the order can be asked about the first `count` positions.
    spec fn covers(&self, count: int) -> bool;

    /// How one position stands to another.
    spec fn rank(&self, a: int, b: int) -> Rank;

    /// Computes [`SortOrder::rank`].
    fn compare(&self, a: usize, b: usize, count: usize) -> (rank: Rank)
        requires
            self.covers(count as int),
            a < count,
            b < count,
        ensures
            rank == self.rank(a as int, b as int),
    ;
}

/// Whether the order is one: two positions rank oppositely seen from each
/// other, and not coming after carries over.
pub open spec fn total_preorder<O: SortOrder>(order: &O, count: int) -> bool {
    &&& forall|a: int, b: int|
        0 <= a < count && 0 <= b < count ==> #[trigger] order.rank(b, a) == order.rank(
            a,
            b,
        ).flipped()
    &&& forall|a: int, b: int, c: int|
        0 <= a < count && 0 <= b < count && 0 <= c < count && #[trigger] order.rank(a, b)
            != Rank::After && #[trigger] order.rank(b, c) != Rank::After ==> order.rank(a, c)
            != Rank::After
}

/// Whether a position belongs before another: by the order, or, where that
/// makes no difference, by coming first.
pub open spec fn precedes<O: SortOrder>(order: &O, a: int, b: int) -> bool {
    order.rank(a, b) == Rank::Before || (order.rank(a, b) == Rank::Same && a < b)
}

/// Whether positions stand in order.
pub open spec fn in_order<O: SortOrder>(order: &O, list: Seq<usize>) -> bool {
    forall|i: int, j: int|
        0 <= i < j < list.len() ==> precedes(
            order,
            #[trigger] list[i] as int,
            #[trigger] list[j] as int,
        )
}

/// Whether a list holds each position from `from` up to `to` once.
pub open spec fn arranges(list: Seq<usize>, from: int, to: int) -> bool {
    &&& list.len() == to - from
    &&& list.no_duplicates()
    &&& forall|i: int| 0 <= i < list.len() ==> from <= #[trigger] list[i] < to
}

/// Whether `list` holds the items of `items` at the positions `at`.
pub open spec fn rearranged<T>(list: Seq<T>, items: Seq<T>, at: Seq<usize>) -> bool {
    &&& arranges(at, 0, items.len() as int)
    &&& list == Seq::new(at.len(), |i: int| items[at[i] as int])
}

proof fn precedes_carries_over<O: SortOrder>(order: &O, count: int, a: int, b: int, c: int)
    requires
        total_preorder(order, count),
        0 <= a < count,
        0 <= b < count,
        0 <= c < count,
        precedes(order, a, b),
        precedes(order, b, c),
    ensures
        precedes(order, a, c),
{
    assert(order.rank(a, c) != Rank::After);
    if order.rank(a, c) == Rank::Same {
        assert(order.rank(c, a) == Rank::Same);
        // c is not after a and a is not after b, so c is not after b.
        assert(order.rank(c, b) != Rank::After);
        assert(order.rank(b, c) == order.rank(c, b).flipped());
        assert(order.rank(b, c) == Rank::Same);
        // b is not after c and c is not after a, so b is not after a.
        assert(order.rank(b, a) != Rank::After);
        assert(order.rank(a, b) == order.rank(b, a).flipped());
        assert(order.rank(a, b) == Rank::Same);
    }
}

/// What a merge has done when it took `i` of the left and `j` of the right.
spec fn merging<O: SortOrder>(
    order: &O,
    count: int,
    left: Seq<usize>,
    right: Seq<usize>,
    from: int,
    middle: int,
    to: int,
    out: Seq<usize>,
    i: int,
    j: int,
) -> bool {
    &&& 0 <= from <= middle <= to <= count
    &&& arranges(left, from, middle)
    &&& arranges(right, middle, to)
    &&& 0 <= i <= left.len()
    &&& 0 <= j <= right.len()
    &&& out.len() == i + j
    &&& out.no_duplicates()
    &&& forall|k: int|
        0 <= k < out.len() ==> from <= #[trigger] out[k] < to && (if out[k] < middle {
            left.take(i).contains(out[k])
        } else {
            right.take(j).contains(out[k])
        })
    &&& total_preorder(order, count) && in_order(order, left) && in_order(order, right) ==> {
        &&& in_order(order, out)
        &&& forall|k: int, p: int|
            0 <= k < out.len() && i <= p < left.len() ==> precedes(
                order,
                #[trigger] out[k] as int,
                #[trigger] left[p] as int,
            )
        &&& forall|k: int, q: int|
            0 <= k < out.len() && j <= q < right.len() ==> precedes(
                order,
                #[trigger] out[k] as int,
                #[trigger] right[q] as int,
            )
    }
}

proof fn took_left<O: SortOrder>(
    order: &O,
    count: int,
    left: Seq<usize>,
    right: Seq<usize>,
    from: int,
    middle: int,
    to: int,
    out: Seq<usize>,
    i: int,
    j: int,
)
    requires
        merging(order, count, left, right, from, middle, to, out, i, j),
        i < left.len(),
        j < right.len() ==> order.rank(right[j] as int, left[i] as int) != Rank::Before,
    ensures
        merging(order, count, left, right, from, middle, to, out.push(left[i]), i + 1, j),
{
    let more = out.push(left[i]);
    let x = left[i];
    assert(left.take(i + 1) =~= left.take(i).push(x));
    assert forall|k: int| 0 <= k < more.len() implies from <= #[trigger] more[k] < to && (if more[k]
        < middle {
        left.take(i + 1).contains(more[k])
    } else {
        right.take(j).contains(more[k])
    }) by {
        if k < out.len() {
            assert(more[k] == out[k]);
            if out[k] < middle {
                let p = choose|p: int| 0 <= p < left.take(i).len() && left.take(i)[p] == out[k];
                assert(left.take(i + 1)[p] == out[k]);
            }
        } else {
            assert(left.take(i + 1)[i] == x);
        }
    }
    assert forall|k: int| 0 <= k < out.len() implies #[trigger] out[k] != x by {
        if out[k] == x {
            let p = choose|p: int| 0 <= p < left.take(i).len() && left.take(i)[p] == out[k];
            assert(left[p] == left[i]);
        }
    }
    assert(more.no_duplicates());
    if total_preorder(order, count) && in_order(order, left) && in_order(order, right) {
        assert forall|k: int, p: int| 0 <= k < more.len() && i + 1 <= p < left.len() implies precedes(
            order,
            #[trigger] more[k] as int,
            #[trigger] left[p] as int,
        ) by {
            if k < out.len() {
                assert(more[k] == out[k]);
            }
        }
        assert forall|k: int, q: int| 0 <= k < more.len() && j <= q < right.len() implies precedes(
            order,
            #[trigger] more[k] as int,
            #[trigger] right[q] as int,
        ) by {
            if k < out.len() {
                assert(more[k] == out[k]);
            } else {
                assert(order.rank(right[j] as int, x as int) == order.rank(
                    x as int,
                    right[j] as int,
                ).flipped());
                assert(precedes(order, x as int, right[j] as int));
                if q > j {
                    precedes_carries_over(
                        order,
                        count,
                        x as int,
                        right[j] as int,
                        right[q] as int,
                    );
                }
            }
        }
        assert forall|a: int, b: int| 0 <= a < b < more.len() implies precedes(
            order,
            #[trigger] more[a] as int,
            #[trigger] more[b] as int,
        ) by {
            assert(more[a] == out[a]);
            if b < out.len() {
                assert(more[b] == out[b]);
            } else {
                assert(precedes(order, out[a] as int, left[i] as int));
            }
        }
    }
}

proof fn took_right<O: SortOrder>(
    order: &O,
    count: int,
    left: Seq<usize>,
    right: Seq<usize>,
    from: int,
    middle: int,
    to: int,
    out: Seq<usize>,
    i: int,
    j: int,
)
    requires
        merging(order, count, left, right, from, middle, to, out, i, j),
        j < right.len(),
        i < left.len() ==> order.rank(right[j] as int, left[i] as int) == Rank::Before,
    ensures
        merging(order, count, left, right, from, middle, to, out.push(right[j]), i, j + 1),
{
    let more = out.push(right[j]);
    let x = right[j];
    assert(right.take(j + 1) =~= right.take(j).push(x));
    assert forall|k: int| 0 <= k < more.len() implies from <= #[trigger] more[k] < to && (if more[k]
        < middle {
        left.take(i).contains(more[k])
    } else {
        right.take(j + 1).contains(more[k])
    }) by {
        if k < out.len() {
            assert(more[k] == out[k]);
            if out[k] >= middle {
                let q = choose|q: int| 0 <= q < right.take(j).len() && right.take(j)[q] == out[k];
                assert(right.take(j + 1)[q] == out[k]);
            }
        } else {
            assert(right.take(j + 1)[j] == x);
        }
    }
    assert forall|k: int| 0 <= k < out.len() implies #[trigger] out[k] != x by {
        if out[k] == x {
            let q = choose|q: int| 0 <= q < right.take(j).len() && right.take(j)[q] == out[k];
            assert(right[q] == right[j]);
        }
    }
    assert(more.no_duplicates());
    if total_preorder(order, count) && in_order(order, left) && in_order(order, right) {
        assert forall|k: int, p: int| 0 <= k < more.len() && i <= p < left.len() implies precedes(
            order,
            #[trigger] more[k] as int,
            #[trigger] left[p] as int,
        ) by {
            if k < out.len() {
                assert(more[k] == out[k]);
            } else {
                assert(precedes(order, x as int, left[i] as int));
                if p > i {
                    precedes_carries_over(
                        order,
                        count,
                        x as int,
                        left[i] as int,
                        left[p] as int,
                    );
                }
            }
        }
        assert forall|k: int, q: int| 0 <= k < more.len() && j + 1 <= q < right.len() implies precedes(
            order,
            #[trigger] more[k] as int,
            #[trigger] right[q] as int,
        ) by {
            if k < out.len() {
                assert(more[k] == out[k]);
            }
        }
        assert forall|a: int, b: int| 0 <= a < b < more.len() implies precedes(
            order,
            #[trigger] more[a] as int,
            #[trigger] more[b] as int,
        ) by {
            assert(more[a] == out[a]);
            if b < out.len() {
                assert(more[b] == out[b]);
            } else {
                assert(precedes(order, out[a] as int, right[j] as int));
            }
        }
    }
}

fn merge<O: SortOrder>(
    order: &O,
    count: usize,
    left: Vec<usize>,
    right: Vec<usize>,
    from: usize,
    middle: usize,
    to: usize,
) -> (out: Vec<usize>)
    requires
        order.covers(count as int),
        from <= middle <= to <= count,
        arranges(left@, from as int, middle as int),
        arranges(right@, middle as int, to as int),
    ensures
        arranges(out@, from as int, to as int),
        total_preorder(order, count as int) && in_order(order, left@) && in_order(order, right@)
            ==> in_order(order, out@),
{
    let mut out: Vec<usize> = Vec::new();
    let mut i: usize = 0;
    let mut j: usize = 0;
    while i < left.len() || j < right.len()
        invariant
            order.covers(count as int),
            merging(
                order,
                count as int,
                left@,
                right@,
                from as int,
                middle as int,
                to as int,
                out@,
                i as int,
                j as int,
            ),
        decreases left.len() - i + (right.len() - j),
    {
        let take_right = if i == left.len() {
            true
        } else if j == right.len() {
            false
        } else {
            assert(from <= left@[i as int] < to && middle <= right@[j as int] < to);
            match order.compare(right[j], left[i], count) {
                Rank::Before => true,
                _ => false,
            }
        };
        if take_right {
            proof {
                took_right(
                    order,
                    count as int,
                    left@,
                    right@,
                    from as int,
                    middle as int,
                    to as int,
                    out@,
                    i as int,
                    j as int,
                );
            }
            out.push(right[j]);
            j = j + 1;
        } else {
            proof {
                took_left(
                    order,
                    count as int,
                    left@,
                    right@,
                    from as int,
                    middle as int,
                    to as int,
                    out@,
                    i as int,
                    j as int,
                );
            }
            out.push(left[i]);
            i = i + 1;
        }
    }
    out
}

fn sort_range<O: SortOrder>(order: &O, count: usize, from: usize, to: usize) -> (out: Vec<usize>)
    requires
        order.covers(count as int),
        from <= to <= count,
    ensures
        arranges(out@, from as int, to as int),
        total_preorder(order, count as int) ==> in_order(order, out@),
    decreases to - from,
{
    if to - from == 0 {
        return Vec::new();
    }
    if to - from == 1 {
        let mut out: Vec<usize> = Vec::new();
        out.push(from);
        return out;
    }
    let middle = from + (to - from) / 2;
    let left = sort_range(order, count, from, middle);
    let right = sort_range(order, count, middle, to);
    merge(order, count, left, right, from, middle, to)
}

/// The positions of a list, sorted: each position once. Where the order is a
/// total preorder they stand in that order, and positions that rank the same
/// keep theirs.
pub fn sorted_positions<O: SortOrder>(order: &O, count: usize) -> (out: Vec<usize>)
    requires
        order.covers(count as int),
    ensures
        arranges(out@, 0, count as int),
        total_preorder(order, count as int) ==> in_order(order, out@),
{
    sort_range(order, count, 0, count)
}

} // verus!
