//! Full-resolution decoding for lightbox windows: how large, for whom, and
//! whether at all.
//!
//! Two clamps sit between a file and the GPU. [`decode_size`] shrinks an image
//! to a size the driver accepts, and [`source_too_large`] refuses a file
//! outright before the decoder allocates it.

use crate::rounding::{self, floor_of_scaled, root_of_quotient, to_double, Fraction};
use crate::text;
use std::collections::HashMap;
use vstd::prelude::*;

verus! {

/// Hard ceiling on either side of an uploaded texture. An oversized upload
/// panics inside the renderer, so the guard lives here instead.
pub const TEXTURE_SIDE_GUARD: u32 = 8192;

/// Pixel budget for one lightbox texture. RGBA8 costs four bytes a pixel, so
/// this is roughly 96 MB a window.
pub const MAX_LIGHTBOX_PIXELS: u64 = 24_000_000;

/// Source size past which a file is refused instead of decoded. A decoder
/// materializes the whole image before any clamp can shrink it.
pub const MAX_SOURCE_PIXELS: u64 = 100_000_000;

/// Whether an image is too large to decode at all.
pub fn source_too_large(src: [u32; 2], max_pixels: u64) -> (refused: bool)
    ensures
        refused == (src@[0] * src@[1] > max_pixels),
{
    pixel_count(src) > max_pixels
}

fn pixel_count(src: [u32; 2]) -> (pixels: u64)
    ensures
        pixels == src@[0] * src@[1],
        pixels < 0xffff_ffff_ffff_ffff,
{
    let width: u64 = src[0] as u64;
    let height: u64 = src[1] as u64;
    assert(0 <= width * height <= 0xffff_ffff * 0xffff_ffff) by (nonlinear_arith)
        requires
            0 <= width <= 0xffff_ffff,
            0 <= height <= 0xffff_ffff,
    ;
    width * height
}

/// An axis scaled by `numerator / denominator`, whole pixels, at least one.
pub open spec fn shrunk(value: nat, numerator: nat, denominator: nat) -> nat {
    let scaled = value * numerator / denominator;
    if scaled < 1 {
        1
    } else {
        scaled
    }
}

/// A size fitted under a side limit: the long axis lands on the limit exactly,
/// the short one keeps the ratio, rounded down.
pub open spec fn side_fitted(width: nat, height: nat, max_side: nat) -> (nat, nat) {
    let limit = if max_side < 1 {
        1
    } else {
        max_side
    };
    if width <= limit && height <= limit {
        (width, height)
    } else if width >= height {
        (limit, shrunk(height, limit, width))
    } else {
        (shrunk(width, limit, height), limit)
    }
}

/// The factor that brings `pixels` down to `max_pixels`, as a double.
pub open spec fn pixel_scale(max_pixels: nat, pixels: nat) -> (nat, nat) {
    rounding::quotient_root(rounding::nearest_double(max_pixels), rounding::nearest_double(pixels))
}

/// An axis times a scale, rounded down, at least one and never enlarged.
pub open spec fn axis_scaled(value: nat, scale: (nat, nat)) -> nat {
    let scaled = rounding::scaled_floor(value, scale.0, scale.1);
    if scaled < 1 {
        1
    } else if scaled > value {
        value
    } else {
        scaled
    }
}

/// A size brought under a pixel budget by cutting: both axes give up a pixel at
/// a time, and where one is down to a single pixel the other is cut to the
/// budget. No budget takes away the last pixel.
pub open spec fn cut_to(width: nat, height: nat, max_pixels: nat) -> (nat, nat)
    decreases width,
{
    let budget = if max_pixels < 1 {
        1
    } else {
        max_pixels
    };
    if width * height <= budget {
        (width, height)
    } else if width <= 1 {
        (width, budget)
    } else if height <= 1 {
        (budget, height)
    } else {
        cut_to((width - 1) as nat, (height - 1) as nat, max_pixels)
    }
}

/// A size fitted under a pixel budget. Both axes take the factor
/// `sqrt(max_pixels / pixels)`, computed in doubles, and round down. What is
/// still over the budget then, because an axis may not go below one pixel or
/// because a double was rounded up, is cut.
pub open spec fn pixel_fitted(width: nat, height: nat, max_pixels: nat) -> (nat, nat) {
    if width * height <= max_pixels {
        (width, height)
    } else {
        let scale = pixel_scale(max_pixels, width * height);
        cut_to(axis_scaled(width, scale), axis_scaled(height, scale), max_pixels)
    }
}

/// The size to decode an image at.
pub open spec fn fitted(width: nat, height: nat, max_side: nat, max_pixels: nat) -> (nat, nat) {
    if width == 0 || height == 0 {
        (width, height)
    } else {
        let side = side_fitted(width, height, max_side);
        pixel_fitted(side.0, side.1, max_pixels)
    }
}

/// A pair of sides as two numbers.
pub open spec fn sides(size: [u32; 2]) -> (nat, nat) {
    (size@[0] as nat, size@[1] as nat)
}

/// The size to decode `src` at: within `max_side` on each axis and within
/// `max_pixels` in total, aspect preserved, never enlarged, each axis at least
/// one pixel.
pub fn decode_size(src: [u32; 2], max_side: u32, max_pixels: u64) -> (size: [u32; 2])
    ensures
        sides(size) == fitted(
            src@[0] as nat,
            src@[1] as nat,
            max_side as nat,
            max_pixels as nat,
        ),
        src@[0] >= 1 && src@[1] >= 1 && max_pixels >= 1 ==> size@[0] * size@[1] <= max_pixels,
{
    if src[0] == 0 || src[1] == 0 {
        return src;
    }
    proof {
        if max_pixels >= 1 {
            the_pixel_budget_binds(
                src@[0] as nat,
                src@[1] as nat,
                max_side as nat,
                max_pixels as nat,
            );
        }
    }
    fit_to_pixels(fit_to_side(src, max_side), max_pixels)
}

fn fit_to_side(src: [u32; 2], max_side: u32) -> (size: [u32; 2])
    requires
        src@[0] >= 1,
        src@[1] >= 1,
    ensures
        sides(size) == side_fitted(src@[0] as nat, src@[1] as nat, max_side as nat),
        size@[0] >= 1,
        size@[1] >= 1,
{
    let width = src[0];
    let height = src[1];
    let limit: u32 = if max_side < 1 {
        1
    } else {
        max_side
    };
    if width <= limit && height <= limit {
        return src;
    }
    if width >= height {
        [limit, shrink(height, limit, width)]
    } else {
        [shrink(width, limit, height), limit]
    }
}

fn shrink(value: u32, numerator: u32, denominator: u32) -> (scaled: u32)
    requires
        value <= denominator,
        denominator >= 1,
    ensures
        scaled == shrunk(value as nat, numerator as nat, denominator as nat),
        scaled >= 1,
{
    assert(0 <= value * numerator <= 0xffff_ffff * 0xffff_ffff) by (nonlinear_arith)
        requires
            0 <= value <= 0xffff_ffff,
            0 <= numerator <= 0xffff_ffff,
    ;
    let scaled: u64 = value as u64 * numerator as u64 / denominator as u64;
    assert(scaled <= numerator) by (nonlinear_arith)
        requires
            scaled == (value * numerator) / (denominator as int),
            value <= denominator,
            denominator >= 1,
    ;
    if scaled < 1 {
        1
    } else {
        scaled as u32
    }
}

fn fit_to_pixels(src: [u32; 2], max_pixels: u64) -> (size: [u32; 2])
    requires
        src@[0] >= 1,
        src@[1] >= 1,
    ensures
        sides(size) == pixel_fitted(src@[0] as nat, src@[1] as nat, max_pixels as nat),
{
    let pixels = pixel_count(src);
    if pixels <= max_pixels {
        return src;
    }
    proof {
        rounding::nearest_double_is_monotone(max_pixels as nat, pixels as nat);
        rounding::nearest_double_is_near(pixels as nat);
    }
    let scale = root_of_quotient(to_double(max_pixels as u128), to_double(pixels as u128));
    cut_to_pixels([scale_axis(src[0], &scale), scale_axis(src[1], &scale)], max_pixels)
}

fn cut_to_pixels(src: [u32; 2], max_pixels: u64) -> (size: [u32; 2])
    requires
        src@[0] >= 1,
        src@[1] >= 1,
    ensures
        sides(size) == cut_to(src@[0] as nat, src@[1] as nat, max_pixels as nat),
{
    let budget: u64 = if max_pixels < 1 {
        1
    } else {
        max_pixels
    };
    let mut width: u32 = src[0];
    let mut height: u32 = src[1];
    while pixel_count([width, height]) > budget && width > 1 && height > 1
        invariant
            width >= 1,
            height >= 1,
            budget == (if max_pixels < 1 {
                1
            } else {
                max_pixels
            }),
            cut_to(src@[0] as nat, src@[1] as nat, max_pixels as nat) == cut_to(
                width as nat,
                height as nat,
                max_pixels as nat,
            ),
        decreases width,
    {
        width = width - 1;
        height = height - 1;
    }
    if pixel_count([width, height]) <= budget {
        [width, height]
    } else if width <= 1 {
        assert(1 * height == height);
        [width, budget as u32]
    } else {
        assert(width * 1 == width);
        [budget as u32, height]
    }
}

fn scale_axis(value: u32, scale: &Fraction) -> (scaled: u32)
    requires
        value >= 1,
        scale.mantissa <= 0x40_0000_0000_0000,
        scale.halvings <= 100,
    ensures
        scaled == axis_scaled(value as nat, (scale.mantissa as nat, scale.halvings as nat)),
        scaled >= 1,
{
    let floor = floor_of_scaled(value, scale);
    if floor < 1 {
        1
    } else if floor > value as u128 {
        value
    } else {
        floor as u32
    }
}

/// No size ever comes out larger than the image, and none over the side limit
/// or below one pixel on an axis: an oversized or empty texture is never
/// uploaded.
pub proof fn decode_size_stays_in_bounds(
    width: nat,
    height: nat,
    max_side: nat,
    max_pixels: nat,
)
    requires
        width >= 1,
        height >= 1,
    ensures
        ({
            let size = fitted(width, height, max_side, max_pixels);
            &&& 1 <= size.0 <= width
            &&& 1 <= size.1 <= height
            &&& max_side >= 1 ==> size.0 <= max_side && size.1 <= max_side
            &&& max_side == 0 ==> size.0 == 1 && size.1 == 1
        }),
{
    let limit: nat = if max_side < 1 {
        1
    } else {
        max_side
    };
    let side = side_fitted(width, height, max_side);
    if width > limit || height > limit {
        let long = if width >= height {
            width
        } else {
            height
        };
        let short = if width >= height {
            height
        } else {
            width
        };
        assert(short * limit / long <= limit) by (nonlinear_arith)
            requires
                short <= long,
                long >= 1,
        ;
        assert(short * limit / long <= short) by (nonlinear_arith)
            requires
                limit <= long,
                long >= 1,
        ;
    }
    assert(1 <= side.0 <= width && 1 <= side.1 <= height);
    if side.0 * side.1 > max_pixels {
        let scale = pixel_scale(max_pixels, side.0 * side.1);
        a_cut_stays_in_bounds(
            axis_scaled(side.0, scale),
            axis_scaled(side.1, scale),
            max_pixels,
        );
    }
}

/// An image already inside both limits is decoded as it is.
pub proof fn decode_size_keeps_a_fitting_image(
    width: nat,
    height: nat,
    max_side: nat,
    max_pixels: nat,
)
    requires
        width <= max_side,
        height <= max_side,
        width * height <= max_pixels,
    ensures
        fitted(width, height, max_side, max_pixels) == (width, height),
{
}

proof fn the_ratio_is_rounded_down(short: nat, long: nat, limit: nat)
    requires
        long >= 1,
    ensures
        ({
            let scaled = shrunk(short, limit, long);
            &&& scaled * long <= short * limit || scaled == 1
            &&& short * limit < (scaled + 1) * long
        }),
{
    let exact = short * limit;
    vstd::arithmetic::div_mod::lemma_fundamental_div_mod(exact as int, long as int);
    assert((exact / long) * long <= exact < (exact / long + 1) * long) by (nonlinear_arith)
        requires
            exact == long * (exact / long) + exact % long,
            0 <= exact % long < long,
    ;
    if exact / long < 1 {
        assert((0 + 1) * long <= (1 + 1) * long) by (nonlinear_arith);
    }
}

/// Where only the side limit binds, the long side lands on it exactly and the
/// short side is the ratio rounded down, so the aspect holds to less than a
/// pixel, whichever way the image lies.
pub proof fn the_long_side_lands_on_the_limit(width: nat, height: nat, max_side: nat)
    requires
        width >= 1,
        height >= 1,
        max_side >= 1,
        width > max_side || height > max_side,
    ensures
        ({
            let size = side_fitted(width, height, max_side);
            if width >= height {
                &&& size.0 == max_side
                &&& size.1 * width <= height * max_side || size.1 == 1
                &&& height * max_side < (size.1 + 1) * width
            } else {
                &&& size.1 == max_side
                &&& size.0 * height <= width * max_side || size.0 == 1
                &&& width * max_side < (size.0 + 1) * height
            }
        }),
{
    if width >= height {
        the_ratio_is_rounded_down(height, width, max_side);
    } else {
        the_ratio_is_rounded_down(width, height, max_side);
    }
}

proof fn a_transposed_cut(width: nat, height: nat, max_pixels: nat)
    requires
        width >= 1,
        height >= 1,
    ensures
        cut_to(height, width, max_pixels) == (
            cut_to(width, height, max_pixels).1,
            cut_to(width, height, max_pixels).0,
        ),
    decreases width,
{
    assert(width * height == height * width) by (nonlinear_arith);
    assert(1 * width == width && 1 * height == height);
    if width > 1 && height > 1 {
        a_transposed_cut((width - 1) as nat, (height - 1) as nat, max_pixels);
    }
}

/// Transposing the image transposes the size that it is decoded at, so a square
/// stays a square.
pub proof fn transposing_transposes(width: nat, height: nat, max_side: nat, max_pixels: nat)
    ensures
        fitted(height, width, max_side, max_pixels) == (
            fitted(width, height, max_side, max_pixels).1,
            fitted(width, height, max_side, max_pixels).0,
        ),
        width == height ==> fitted(width, height, max_side, max_pixels).0 == fitted(
            width,
            height,
            max_side,
            max_pixels,
        ).1,
{
    if width >= 1 && height >= 1 {
        let limit: nat = if max_side < 1 {
            1
        } else {
            max_side
        };
        if width == height {
            assert(width * limit / width == limit) by (nonlinear_arith)
                requires
                    width >= 1,
            ;
        }
        let side = side_fitted(width, height, max_side);
        assert(side_fitted(height, width, max_side) == (side.1, side.0));
        assert(side.0 * side.1 == side.1 * side.0) by (nonlinear_arith);
        if side.0 * side.1 > max_pixels {
            let scale = pixel_scale(max_pixels, side.0 * side.1);
            assert(side.0 >= 1 && side.1 >= 1);
            a_transposed_cut(
                axis_scaled(side.0, scale),
                axis_scaled(side.1, scale),
                max_pixels,
            );
        }
    }
}

proof fn a_cut_stays_in_bounds(width: nat, height: nat, max_pixels: nat)
    requires
        width >= 1,
        height >= 1,
    ensures
        ({
            let size = cut_to(width, height, max_pixels);
            &&& 1 <= size.0 <= width
            &&& 1 <= size.1 <= height
            &&& max_pixels >= 1 ==> size.0 * size.1 <= max_pixels
        }),
    decreases width,
{
    let size = cut_to(width, height, max_pixels);
    assert(1 * height == height && width * 1 == width);
    assert(1 * size.1 == size.1 && size.0 * 1 == size.0);
    if width > 1 && height > 1 {
        a_cut_stays_in_bounds((width - 1) as nat, (height - 1) as nat, max_pixels);
    }
}

/// The pixel budget binds: the decoded size never holds more than `max_pixels`,
/// whatever the shape of the image.
pub proof fn the_pixel_budget_binds(
    width: nat,
    height: nat,
    max_side: nat,
    max_pixels: nat,
)
    requires
        width >= 1,
        height >= 1,
        max_pixels >= 1,
    ensures
        ({
            let size = fitted(width, height, max_side, max_pixels);
            size.0 * size.1 <= max_pixels
        }),
{
    let side = side_fitted(width, height, max_side);
    if side.0 * side.1 > max_pixels {
        let scale = pixel_scale(max_pixels, side.0 * side.1);
        assert(side.0 >= 1 && side.1 >= 1) by (nonlinear_arith)
            requires
                side.0 * side.1 > max_pixels,
        ;
        a_cut_stays_in_bounds(
            axis_scaled(side.0, scale),
            axis_scaled(side.1, scale),
            max_pixels,
        );
    }
}

/// Nothing is cut where both scaled axes have a pixel of their own: they keep
/// the image's aspect and meet the budget as they are. Budgets so large that the
/// rounding of doubles outweighs a pixel are left out.
pub proof fn scaled_axes_need_no_cut(
    width: nat,
    height: nat,
    max_side: nat,
    max_pixels: nat,
)
    requires
        width >= 1,
        height >= 1,
        1 <= max_pixels <= 1_500_000_000_000_000,
        ({
            let side = side_fitted(width, height, max_side);
            let scale = pixel_scale(max_pixels, side.0 * side.1);
            &&& side.0 * side.1 > max_pixels
            &&& rounding::scaled_floor(side.0, scale.0, scale.1) >= 1
            &&& rounding::scaled_floor(side.1, scale.0, scale.1) >= 1
        }),
    ensures
        ({
            let side = side_fitted(width, height, max_side);
            let scale = pixel_scale(max_pixels, side.0 * side.1);
            fitted(width, height, max_side, max_pixels) == (
                axis_scaled(side.0, scale),
                axis_scaled(side.1, scale),
            )
        }),
{
    decode_size_stays_in_bounds(width, height, max_side, max_pixels);
    let side = side_fitted(width, height, max_side);
    rounding::scaled_axes_stay_within(side.0, side.1, max_pixels);
    let scale = pixel_scale(max_pixels, side.0 * side.1);
    let x = rounding::scaled_floor(side.0, scale.0, scale.1);
    let y = rounding::scaled_floor(side.1, scale.0, scale.1);
    let a = axis_scaled(side.0, scale);
    let b = axis_scaled(side.1, scale);
    assert(a * b <= x * y) by (nonlinear_arith)
        requires
            a <= x,
            b <= y,
    ;
}

/// The largest texture side to decode to: what the driver accepts, held under
/// the guard.
pub fn texture_side_limit(driver_side: usize) -> (side: u32)
    ensures
        side == (if driver_side < TEXTURE_SIDE_GUARD {
            driver_side as int
        } else {
            TEXTURE_SIDE_GUARD as int
        }),
{
    if driver_side < TEXTURE_SIDE_GUARD as usize {
        driver_side as u32
    } else {
        TEXTURE_SIDE_GUARD
    }
}

// ---- one decode ----

/// What happened to a decode so far.
pub enum DecodeEvent {
    /// The request was taken from the queue.
    Start,
    /// The header was read for the image's size, or could not be.
    Header(Result<[u32; 2], String>),
    /// The image was decoded to this size, or could not be.
    Decoded(Result<[u32; 2], String>),
}

/// What a decode does next.
pub enum DecodeAction {
    ReadHeader,
    Decode,
    /// Hand the pixels over as they are.
    Keep,
    /// Resample to this size, then hand over.
    Resize([u32; 2]),
    Refuse(String),
    Fail(String),
}

/// Why an image of this size is refused.
pub open spec fn refusal(src: (nat, nat)) -> Seq<char> {
    "This image is "@ + text::decimal(src.0) + "×"@ + text::decimal(src.1)
        + " pixels. The viewer refuses anything above "@ + text::decimal(
        MAX_SOURCE_PIXELS as nat / 1_000_000,
    ) + " megapixels."@
}

/// The step of a decode that knows the size of its source.
pub open spec fn sized_step(src: (nat, nat), action: DecodeAction) -> bool {
    if src.0 * src.1 > MAX_SOURCE_PIXELS {
        action matches DecodeAction::Refuse(message) && message@ == refusal(src)
    } else {
        action is Decode
    }
}

/// The next step of a decode. The source size comes from the caller's header
/// data; where that is missing the file's own header is read first. An image
/// over the refusal cap is refused before anything decodes it, and one already
/// inside both limits is not resampled.
pub fn decode_full(source_size: [u32; 2], max_side: u32, event: DecodeEvent) -> (action:
    DecodeAction)
    ensures
        match event {
            DecodeEvent::Start => if source_size@[0] > 0 && source_size@[1] > 0 {
                sized_step(sides(source_size), action)
            } else {
                action is ReadHeader
            },
            DecodeEvent::Header(Ok(size)) => sized_step(sides(size), action),
            DecodeEvent::Header(Err(cause)) => {
                &&& action matches DecodeAction::Fail(message)
                &&& message@ == "The image header could not be read. "@ + cause@
            },
            DecodeEvent::Decoded(Ok(size)) => {
                let target = fitted(
                    size@[0] as nat,
                    size@[1] as nat,
                    max_side as nat,
                    MAX_LIGHTBOX_PIXELS as nat,
                );
                if target == sides(size) {
                    action is Keep
                } else {
                    action matches DecodeAction::Resize(to) && sides(to) == target
                }
            },
            DecodeEvent::Decoded(Err(cause)) => {
                &&& action matches DecodeAction::Fail(message)
                &&& message@ == "The image could not be decoded. "@ + cause@
            },
        },
{
    match event {
        DecodeEvent::Start => {
            if source_size[0] > 0 && source_size[1] > 0 {
                after_size(source_size)
            } else {
                DecodeAction::ReadHeader
            }
        },
        DecodeEvent::Header(Ok(size)) => after_size(size),
        DecodeEvent::Header(Err(cause)) => DecodeAction::Fail(
            text::concat("The image header could not be read. ", cause.as_str()),
        ),
        DecodeEvent::Decoded(Ok(size)) => {
            let target = decode_size(size, max_side, MAX_LIGHTBOX_PIXELS);
            if target[0] == size[0] && target[1] == size[1] {
                DecodeAction::Keep
            } else {
                DecodeAction::Resize(target)
            }
        },
        DecodeEvent::Decoded(Err(cause)) => DecodeAction::Fail(
            text::concat("The image could not be decoded. ", cause.as_str()),
        ),
    }
}

fn after_size(src: [u32; 2]) -> (action: DecodeAction)
    ensures
        sized_step(sides(src), action),
{
    if !source_too_large(src, MAX_SOURCE_PIXELS) {
        return DecodeAction::Decode;
    }
    let mut message = "This image is ".to_owned();
    text::push_decimal(&mut message, src[0] as u64);
    message.append("×");
    text::push_decimal(&mut message, src[1] as u64);
    message.append(" pixels. The viewer refuses anything above ");
    text::push_decimal(&mut message, MAX_SOURCE_PIXELS / 1_000_000);
    message.append(" megapixels.");
    DecodeAction::Refuse(message)
}

// ---- which window wants what ----

/// How a full-resolution decode ended.
pub enum FullOutcome<T> {
    /// The texture and the size it was decoded at.
    Ready(T, [u32; 2]),
    Refused(String),
    Failed(String),
    /// A later request for the window replaced this one.
    Superseded,
}

/// The request each open window currently waits for, by number. A burst of
/// requests for one window decodes only the last.
pub struct FullPool {
    wanted: HashMap<u64, u64>,
    made: u64,
}

/// A [`FullPool`] as a mathematical value.
pub ghost struct PoolModel {
    /// The number of the last request of each window.
    pub wanted: Map<u64, u64>,
    /// How many requests were made in all.
    pub made: u64,
}

impl View for FullPool {
    type V = PoolModel;

    closed spec fn view(&self) -> PoolModel {
        PoolModel { wanted: self.wanted@, made: self.made }
    }
}

impl PoolModel {
    /// The pool after one more request, which takes the next number.
    pub open spec fn after_request(self, id: u64) -> PoolModel {
        PoolModel { wanted: self.wanted.insert(id, self.made), made: (self.made + 1) as u64 }
    }

    /// The pool after a window was closed.
    pub open spec fn after_forget(self, id: u64) -> PoolModel {
        PoolModel { wanted: self.wanted.remove(id), made: self.made }
    }

    /// Whether a window waits for the request with this number.
    pub open spec fn waits_for(self, id: u64, number: u64) -> bool {
        self.wanted.contains_key(id) && self.wanted[id] == number
    }
}

impl FullPool {
    pub fn new() -> (pool: Self)
        ensures
            pool@.wanted == Map::<u64, u64>::empty(),
            pool@.made == 0,
    {
        FullPool { wanted: HashMap::new(), made: 0 }
    }

    /// Whether numbers are left for a request.
    pub fn can_request(&self) -> (yes: bool)
        ensures
            yes == (self@.made < u64::MAX),
    {
        self.made < u64::MAX
    }

    /// Numbers what a window asks for, replacing whatever it asked for before.
    /// A second request is a navigation step, so it is never dropped.
    pub fn request(&mut self, id: u64) -> (number: u64)
        requires
            old(self)@.made < u64::MAX,
        ensures
            number == old(self)@.made,
            final(self)@ == old(self)@.after_request(id),
    {
        let number = self.made;
        self.wanted.insert(id, number);
        self.made = number + 1;
        number
    }

    /// Forgets a closed window.
    pub fn forget(&mut self, id: u64)
        ensures
            final(self)@ == old(self)@.after_forget(id),
    {
        self.wanted.remove(&id);
    }

    /// Whether a window still waits for the request with this number. One that
    /// does not gets the answer that it was superseded.
    pub fn still_wants(&self, id: u64, number: u64) -> (wants: bool)
        ensures
            wants == self@.waits_for(id, number),
    {
        match self.wanted.get(&id) {
            Some(wanted) => *wanted == number,
            None => false,
        }
    }
}

/// After a request a window waits for that one alone, so the later of two
/// requests supersedes the earlier, whatever they ask for. No other window is
/// touched by either.
pub proof fn a_later_request_supersedes(pool: PoolModel, id: u64, other: u64, number: u64)
    requires
        pool.made < u64::MAX - 1,
        other != id,
    ensures
        ({
            let first = pool.made;
            let second = pool.after_request(id).made;
            let after = pool.after_request(id).after_request(id);
            &&& pool.after_request(id).waits_for(id, number) == (number == first)
            &&& first < second
            &&& after.waits_for(id, second)
            &&& !after.waits_for(id, first)
            &&& after.waits_for(other, number) == pool.waits_for(other, number)
        }),
{
}

/// A closed window waits for nothing, and closing it touches no other.
pub proof fn a_closed_window_waits_for_nothing(pool: PoolModel, id: u64, other: u64, number: u64)
    requires
        other != id,
    ensures
        !pool.after_forget(id).waits_for(id, number),
        pool.after_forget(id).waits_for(other, number) == pool.waits_for(other, number),
{
}

} // verus!
