//! Images on the screen: decode sizes, thumbnails and windows.

use vstd::prelude::*;

use crate::full::{self, DecodeAction, PoolModel};
use crate::laws::texts;
use crate::lightbox::{self, LightboxShared};
use crate::lists;
use crate::text;
use crate::thumbs;

verus! {

/// Where the pixel budget leaves room, an image over the side limit is decoded
/// with its long side on the limit and its short side in the same ratio, rounded
/// down but never to nothing, whichever side is the long one.
pub proof fn an_image_over_the_limit_is_fitted(
    width: nat,
    height: nat,
    max_side: nat,
    max_pixels: nat,
)
    requires
        width >= 1,
        height >= 1,
        max_side >= 1,
        width > max_side || height > max_side,
        max_side * max_side <= max_pixels,
    ensures
        ({
            let size = full::fitted(width, height, max_side, max_pixels);
            let (long, short) = if width >= height {
                (width, height)
            } else {
                (height, width)
            };
            let ratio = short * max_side / long;
            let other = if ratio >= 1 {
                ratio
            } else {
                1
            };
            size == if width >= height {
                (max_side, other)
            } else {
                (other, max_side)
            }
        }),
{
    let (long, short) = if width >= height {
        (width, height)
    } else {
        (height, width)
    };
    let ratio = short * max_side / long;
    assert(ratio <= max_side) by (nonlinear_arith)
        requires
            ratio == short * max_side / long,
            short <= long,
            long >= 1,
    ;
    let other = if ratio >= 1 {
        ratio
    } else {
        1
    };
    assert(other * max_side <= max_side * max_side) by (nonlinear_arith)
        requires
            other <= max_side,
    ;
    assert(max_side * other == other * max_side) by (nonlinear_arith);
}

/// An image with an empty side is left as it is, and so is one within all limits.
pub proof fn a_fitting_image_is_left_as_it_is(
    width: nat,
    height: nat,
    max_side: nat,
    max_pixels: nat,
)
    requires
        width == 0 || height == 0 || (width <= max_side && height <= max_side && width * height
            <= max_pixels),
    ensures
        full::fitted(width, height, max_side, max_pixels) == (width, height),
{
}

/// An image of more than a hundred million pixels is refused, with its size, and
/// any other is decoded.
pub proof fn huge_images_are_refused(width: nat, height: nat, action: DecodeAction)
    requires
        full::sized_step((width, height), action),
    ensures
        width * height <= 100_000_000 ==> action is Decode,
        width * height > 100_000_000 ==> action is Refuse && action->Refuse_0@ == "This image is "@
            + text::decimal(width) + "×"@ + text::decimal(height)
            + " pixels. The viewer refuses anything above "@ + text::decimal(100)
            + " megapixels."@,
{
}

/// A window waits for the request that it made last, and every request has a
/// number of its own.
pub proof fn a_window_waits_for_its_last_request(pool: PoolModel, id: u64, other: u64, number: u64)
    requires
        pool.made < u64::MAX,
    ensures
        ({
            let after = pool.after_request(id);
            &&& after.made == pool.made + 1
            &&& after.waits_for(id, number) <==> number == pool.made
            &&& other != id ==> (after.waits_for(other, number) <==> pool.waits_for(other, number))
        }),
        !pool.after_forget(id).waits_for(id, number),
        pool.after_forget(id).made == pool.made,
        other != id ==> (pool.after_forget(id).waits_for(other, number) <==> pool.waits_for(
            other,
            number,
        )),
{
}

// ---------------------------------------------------------------------------
// Thumbnails
// ---------------------------------------------------------------------------

/// Where a path first stands in a list.
pub open spec fn first_at(list: Seq<Seq<char>>, path: Seq<char>, at: int) -> bool {
    &&& 0 <= at < list.len()
    &&& list[at] == path
    &&& forall|i: int| 0 <= i < at ==> #[trigger] list[i] != path
}

spec fn stands(list: Seq<Seq<char>>, path: Seq<char>) -> bool {
    exists|at: int| first_at(list, path, at)
}

proof fn drawn_in_order(drawn: Seq<Seq<char>>, live: Set<Seq<char>>)
    ensures
        ({
            let last = thumbs::drawn_once(drawn, live);
            &&& forall|i: int|
                0 <= i < last.len() ==> stands(drawn, #[trigger] last[i])
            &&& forall|i: int, j: int, a: int, b: int|
                0 <= i < j < last.len() && #[trigger] first_at(drawn, last[i], a)
                    && #[trigger] first_at(drawn, last[j], b) ==> a < b
        }),
    decreases drawn.len(),
{
    if drawn.len() > 0 {
        let fewer = drawn.drop_last();
        let before = thumbs::drawn_once(fewer, live);
        let last = thumbs::drawn_once(drawn, live);
        drawn_in_order(fewer, live);
        thumbs::drawn_once_is_what_was_drawn(fewer, live);
        assert forall|path: Seq<char>, at: int| #[trigger]
            first_at(fewer, path, at) implies first_at(drawn, path, at) by {
            assert forall|i: int| 0 <= i < at implies #[trigger] drawn[i] != path by {
                assert(fewer[i] != path);
            }
        }
        assert forall|i: int| 0 <= i < last.len() implies stands(drawn, #[trigger] last[i]) by {
            if i < before.len() {
                assert(stands(fewer, before[i]));
                let at = choose|at: int| #[trigger] first_at(fewer, before[i], at);
                assert(first_at(drawn, last[i], at));
            } else {
                let path = drawn.last();
                assert(!fewer.contains(path)) by {
                    if fewer.contains(path) {
                        assert(live.contains(path));
                        assert(before.contains(path));
                    }
                }
                assert forall|k: int| 0 <= k < drawn.len() - 1 implies #[trigger] drawn[k]
                    != path by {
                    assert(fewer[k] == drawn[k]);
                    assert(fewer.contains(fewer[k]));
                }
                assert(first_at(drawn, last[i], drawn.len() - 1));
            }
        }
        assert forall|i: int, j: int, a: int, b: int|
            0 <= i < j < last.len() && #[trigger] first_at(drawn, last[i], a)
                && #[trigger] first_at(drawn, last[j], b) implies a < b by {
            assert(stands(fewer, before[i]));
            let x = choose|x: int| #[trigger] first_at(fewer, before[i], x);
            assert(first_at(drawn, last[i], x));
            assert(a == x) by {
                if a < x {
                    assert(drawn[a] != last[i]);
                }
                if x < a {
                    assert(drawn[x] != last[i]);
                }
            }
            if j < before.len() {
                assert(stands(fewer, before[j]));
                let y = choose|y: int| #[trigger] first_at(fewer, before[j], y);
                assert(first_at(drawn, last[j], y));
                assert(b == y) by {
                    if b < y {
                        assert(drawn[b] != last[j]);
                    }
                    if y < b {
                        assert(drawn[y] != last[j]);
                    }
                }
            } else {
                let path = drawn.last();
                assert(last[j] == path);
                if b < drawn.len() - 1 {
                    assert(fewer[b] == path);
                    assert(fewer.contains(path));
                    assert(live.contains(path));
                    assert(before.contains(path));
                }
            }
        }
    }
}

/// Drawing moves the drawn thumbnails to the end, in the order in which they were
/// first drawn, and leaves the others in front, in their order.
pub proof fn drawing_moves_to_the_end(
    order: Seq<Seq<char>>,
    live: Set<Seq<char>>,
    drawn: Seq<Seq<char>>,
) -> (last: Seq<Seq<char>>)
    ensures
        thumbs::touched(order, live, drawn) == order.filter(
            |path: Seq<char>| !(drawn.contains(path) && live.contains(path)),
        ) + last,
        last.no_duplicates(),
        forall|path: Seq<char>|
            last.contains(path) <==> #[trigger] drawn.contains(path) && live.contains(path),
        forall|i: int, j: int, a: int, b: int|
            0 <= i < j < last.len() && #[trigger] first_at(drawn, last[i], a)
                && #[trigger] first_at(drawn, last[j], b) ==> a < b,
{
    let last = thumbs::drawn_once(drawn, live);
    let one = |path: Seq<char>| !last.contains(path);
    let other = |path: Seq<char>| !(drawn.contains(path) && live.contains(path));
    thumbs::drawn_once_is_what_was_drawn(drawn, live);
    drawn_in_order(drawn, live);
    assert forall|i: int| 0 <= i < order.len() implies one(#[trigger] order[i]) == other(
        order[i],
    ) by {
        assert(last.contains(order[i]) <==> drawn.contains(order[i]) && live.contains(order[i]));
    }
    lists::picked_agrees(order, one, other);
    texts::picking_is_filtering(order, other);
    last
}

/// Eviction takes exactly what is over the cap.
pub proof fn eviction_takes_what_is_too_many(count: nat, cap: nat)
    ensures
        count <= cap ==> thumbs::surplus(count, cap) == 0,
        count > cap ==> thumbs::surplus(count, cap) + cap == count,
{
}

// ---------------------------------------------------------------------------
// Walking a window's list
// ---------------------------------------------------------------------------

/// A step goes where it says as long as that is in the list; past either end it
/// goes nowhere. A place past the end counts as the last one.
pub proof fn a_step_goes_where_it_says(cursor: int, len: int, delta: int)
    requires
        0 <= cursor,
        0 <= len <= isize::MAX,
    ensures
        cursor < len && 0 <= cursor + delta < len ==> lightbox::stepped_cursor(cursor, len, delta)
            == Some(cursor + delta),
        cursor < len && !(0 <= cursor + delta < len) ==> lightbox::stepped_cursor(
            cursor,
            len,
            delta,
        ) is None,
        cursor >= len && len > 0 ==> lightbox::stepped_cursor(cursor, len, delta)
            == lightbox::stepped_cursor(len - 1, len, delta),
        len == 0 ==> lightbox::stepped_cursor(cursor, len, delta) is None,
{
}

/// A window that waits for an image has nothing decoded and starts from a fit.
pub proof fn a_waiting_window_starts_from_a_fit<T, Z>(state: LightboxShared<T, Z>)
    ensures
        lightbox::starts_loading(state) <==> {
            &&& state.status is Loading
            &&& state.decoded_size@[0] == 0
            &&& state.decoded_size@[1] == 0
            &&& state.fit_mode
        },
{
}

/// The limits: six windows, eight values of four hundred characters in a strip,
/// thumbnails of 512 pixels a side, as many of them kept, and textures of at
/// most 8192 pixels a side and 24 million in all.
pub proof fn the_limits_are_these()
    ensures
        lightbox::MAX_LIGHTBOXES == 6,
        lightbox::MAX_STRIP_ITEMS == 8,
        lightbox::MAX_STRIP_CHARS == 400,
        thumbs::THUMB_MAX_DIM == 512,
        thumbs::MAX_TEXTURES == 512,
        full::TEXTURE_SIDE_GUARD == 8192,
        full::MAX_LIGHTBOX_PIXELS == 24_000_000,
        full::MAX_SOURCE_PIXELS == 100_000_000,
{
}

} // verus!
