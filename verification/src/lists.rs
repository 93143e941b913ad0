//! Lists: what a filter keeps.

use vstd::prelude::*;

verus! {

/// The items of a list that pass a test, in their order.
pub open spec fn picked<T>(list: Seq<T>, passes: spec_fn(T) -> bool) -> Seq<T>
    decreases list.len(),
{
    if list.len() == 0 {
        Seq::empty()
    } else {
        let before = picked(list.drop_last(), passes);
        if passes(list.last()) {
            before.push(list.last())
        } else {
            before
        }
    }
}

/// One more item: kept at the end where it passes.
pub proof fn picked_step<T>(list: Seq<T>, passes: spec_fn(T) -> bool, i: int)
    requires
        0 <= i < list.len(),
    ensures
        picked(list.take(i + 1), passes) == (if passes(list[i]) {
            picked(list.take(i), passes).push(list[i])
        } else {
            picked(list.take(i), passes)
        }),
{
    assert(list.take(i + 1).drop_last() =~= list.take(i));
    assert(list.take(i + 1).last() == list[i]);
}

/// A filter keeps exactly what passes, and never more than there was.
pub proof fn picked_keeps_what_passes<T>(list: Seq<T>, passes: spec_fn(T) -> bool)
    ensures
        picked(list, passes).len() <= list.len(),
        forall|i: int|
            0 <= i < picked(list, passes).len() ==> passes(#[trigger] picked(list, passes)[i])
                && list.contains(picked(list, passes)[i]),
        forall|i: int|
            0 <= i < list.len() && passes(#[trigger] list[i]) ==> picked(list, passes).contains(
                list[i],
            ),
    decreases list.len(),
{
    if list.len() > 0 {
        let rest = list.drop_last();
        let before = picked(rest, passes);
        let all = picked(list, passes);
        picked_keeps_what_passes(rest, passes);
        assert forall|i: int| 0 <= i < all.len() implies passes(#[trigger] all[i])
            && list.contains(all[i]) by {
            if i < before.len() {
                assert(all[i] == before[i]);
                assert(rest.contains(before[i]));
                let j = choose|j: int| 0 <= j < rest.len() && rest[j] == before[i];
                assert(list[j] == all[i]);
            } else {
                assert(list[list.len() - 1] == all[i]);
            }
        }
        assert forall|i: int| 0 <= i < list.len() && passes(#[trigger] list[i]) implies all.contains(
            list[i],
        ) by {
            if i < rest.len() {
                assert(rest[i] == list[i]);
                assert(before.contains(rest[i]));
                let j = choose|j: int| 0 <= j < before.len() && before[j] == rest[i];
                assert(all[j] == list[i]);
            } else {
                assert(all[all.len() - 1] == list[i]);
            }
        }
    }
}

/// Two tests that agree on every item of a list keep the same items.
pub proof fn picked_agrees<T>(list: Seq<T>, one: spec_fn(T) -> bool, other: spec_fn(T) -> bool)
    requires
        forall|i: int| 0 <= i < list.len() ==> one(#[trigger] list[i]) == other(list[i]),
    ensures
        picked(list, one) == picked(list, other),
    decreases list.len(),
{
    if list.len() > 0 {
        assert forall|i: int| 0 <= i < list.drop_last().len() implies one(
            #[trigger] list.drop_last()[i],
        ) == other(list.drop_last()[i]) by {
            assert(list.drop_last()[i] == list[i]);
        }
        picked_agrees(list.drop_last(), one, other);
        assert(one(list[list.len() - 1]) == other(list[list.len() - 1]));
    }
}

/// Filtering two lists one after the other is filtering both.
pub proof fn picked_adds_up<T>(a: Seq<T>, b: Seq<T>, passes: spec_fn(T) -> bool)
    ensures
        picked(a + b, passes) == picked(a, passes) + picked(b, passes),
    decreases b.len(),
{
    if b.len() == 0 {
        assert(a + b =~= a);
        assert(picked(a, passes) + picked(b, passes) =~= picked(a, passes));
    } else {
        let both = a + b;
        assert(both.drop_last() =~= a + b.drop_last());
        assert(both.last() == b.last());
        picked_adds_up(a, b.drop_last(), passes);
        assert(picked(both, passes) =~= picked(a, passes) + picked(b, passes));
    }
}

/// A list of which everything passes stays as it is.
pub proof fn picked_everything<T>(list: Seq<T>, passes: spec_fn(T) -> bool)
    requires
        forall|i: int| 0 <= i < list.len() ==> passes(#[trigger] list[i]),
    ensures
        picked(list, passes) == list,
    decreases list.len(),
{
    if list.len() > 0 {
        assert forall|i: int| 0 <= i < list.drop_last().len() implies passes(
            #[trigger] list.drop_last()[i],
        ) by {
            assert(list.drop_last()[i] == list[i]);
        }
        picked_everything(list.drop_last(), passes);
        assert(passes(list[list.len() - 1]));
        assert(list.drop_last().push(list.last()) =~= list);
    }
}

/// A list of which nothing passes leaves nothing.
pub proof fn picked_nothing<T>(list: Seq<T>, passes: spec_fn(T) -> bool)
    requires
        forall|i: int| 0 <= i < list.len() ==> !passes(#[trigger] list[i]),
    ensures
        picked(list, passes) == Seq::<T>::empty(),
    decreases list.len(),
{
    if list.len() > 0 {
        assert forall|i: int| 0 <= i < list.drop_last().len() implies !passes(
            #[trigger] list.drop_last()[i],
        ) by {
            assert(list.drop_last()[i] == list[i]);
        }
        picked_nothing(list.drop_last(), passes);
        assert(!passes(list[list.len() - 1]));
    }
}

} // verus!
