//! The pixel schedule and the quantisation of colours.
//!
//! The renderer visits the pixels row by row from the top row down, and
//! within a row from left to right. A finished colour channel is clamped to
//! the unit interval and cut into 256 steps.

use vstd::prelude::*;
use itertools::Itertools;
use crate::base::Color;
use crate::scalar::Scalar;

verus! {

/// The bit pattern of the largest channel value that is kept as it is: 999
/// thousandths.
pub const CHANNEL_MAX_BITS: u64 = 0x3fef_f7ce_d916_872b;

/// Two to the power of 52: the weight of the exponent field in a bit
/// pattern, and the hidden bit of a mantissa.
pub const MANTISSA_UNIT: u64 = 0x10_0000_0000_0000;

/// The exponent field of one 256th.
pub const EXPONENT_OF_STEP: u64 = 1015;

/// The pixel that is rendered at position `k` of the schedule of an image of
/// `width` columns and `rows` rows, as row and column. Row `rows - 1` is the
/// top row and comes first.
pub open spec fn pixel_at(width: int, rows: int, k: int) -> (u32, u32) {
    ((rows - 1 - k / width) as u32, (k % width) as u32)
}

/// Calls `Itertools::cartesian_product` on the two lists and collects the
/// pairs. Every item of the first list is paired with every item of the
/// second; the pairs of one first item stand together, in the order of the
/// second list, and these groups stand in the order of the first list.
#[verifier::external_body]
fn cartesian_product(first: Vec<u32>, second: Vec<u32>) -> (out: Vec<(u32, u32)>)
    requires
        first@.len() * second@.len() <= usize::MAX,
    ensures
        out@.len() == first@.len() * second@.len(),
        forall|k: int|
            0 <= k < out@.len() ==> #[trigger] out@[k] == (
                first@[k / (second@.len() as int)],
                second@[k % (second@.len() as int)],
            ),
{
    first.into_iter().cartesian_product(second.into_iter()).collect()
}

/// The pixels of an image in the order in which they are rendered, each as
/// row and column: the rows from `rows - 1` down to zero, and in each row
/// the columns from zero up.
pub fn pixel_order(width: u32, rows: u32) -> (out: Vec<(u32, u32)>)
    requires
        width * rows <= usize::MAX,
    ensures
        out@.len() == width * rows,
        forall|k: int| 0 <= k < out@.len() ==> #[trigger] out@[k] == pixel_at(width as int, rows as int, k),
{
    let mut js: Vec<u32> = Vec::new();
    let mut j: u32 = rows;
    while j > 0
        invariant
            j <= rows,
            js@.len() == rows - j,
            forall|i: int| 0 <= i < js@.len() ==> #[trigger] js@[i] == rows - 1 - i,
        decreases j,
    {
        j -= 1;
        js.push(j);
    }
    let mut is: Vec<u32> = Vec::new();
    let mut i: u32 = 0;
    while i < width
        invariant
            i <= width,
            is@.len() == i,
            forall|c: int| 0 <= c < is@.len() ==> #[trigger] is@[c] == c,
        decreases width - i,
    {
        is.push(i);
        i += 1;
    }
    assert(js@.len() == rows && is@.len() == width);
    assert(js@.len() * is@.len() == rows * width) by (nonlinear_arith)
        requires
            js@.len() == rows,
            is@.len() == width,
    ;
    assert(rows * width == width * rows) by (nonlinear_arith);
    let ghost rows_list = js@;
    let ghost columns = is@;
    let out = cartesian_product(js, is);
    proof {
        assert forall|k: int| 0 <= k < out@.len() implies #[trigger] out@[k] == pixel_at(
            width as int,
            rows as int,
            k,
        ) by {
            lemma_position(width as int, rows as int, k);
            assert(out@[k] == (rows_list[k / (width as int)], columns[k % (width as int)]));
        }
    }
    out
}

/// A position of the schedule splits into a row and a column of the image.
proof fn lemma_position(width: int, rows: int, k: int)
    requires
        0 <= k < rows * width,
        0 <= width,
        0 <= rows,
    ensures
        width > 0,
        0 <= k / width < rows,
        0 <= k % width < width,
        k == (k / width) * width + k % width,
{
    assert(width > 0) by (nonlinear_arith)
        requires
            0 <= k < rows * width,
            0 <= width,
            0 <= rows,
    ;
    assert(0 <= k / width < rows && 0 <= k % width < width && k == (k / width) * width + k % width)
        by (nonlinear_arith)
        requires
            0 <= k < rows * width,
            width > 0,
    ;
}

/// Every pixel of the image stands in the schedule, at the position that
/// its row and column give.
pub proof fn lemma_every_pixel_is_scheduled(width: int, rows: int, row: int, column: int)
    requires
        0 <= row < rows <= u32::MAX,
        0 <= column < width <= u32::MAX,
    ensures
        0 <= (rows - 1 - row) * width + column < rows * width,
        pixel_at(width, rows, (rows - 1 - row) * width + column) == (row as u32, column as u32),
{
    let k = (rows - 1 - row) * width + column;
    assert(0 <= k < rows * width && k / width == rows - 1 - row && k % width == column)
        by (nonlinear_arith)
        requires
            k == (rows - 1 - row) * width + column,
            0 <= row < rows,
            0 <= column < width,
    ;
}

/// The divisor that cuts a mantissa down to a step count, for a channel
/// value with exponent field `exponent`.
pub open spec fn step_divisor(exponent: int) -> int {
    if exponent == 1015 {
        0x10_0000_0000_0000
    } else if exponent == 1016 {
        0x8_0000_0000_0000
    } else if exponent == 1017 {
        0x4_0000_0000_0000
    } else if exponent == 1018 {
        0x2_0000_0000_0000
    } else if exponent == 1019 {
        0x1_0000_0000_0000
    } else if exponent == 1020 {
        0x8000_0000_0000
    } else if exponent == 1021 {
        0x4000_0000_0000
    } else {
        0x2000_0000_0000
    }
}

/// The step of a channel value: the value is clamped to the interval from
/// zero to `CHANNEL_MAX_BITS`, multiplied by 256 and rounded down. A NaN
/// gives step zero.
///
/// A value of at least one 256th and below one has an exponent field from
/// 1015 to 1022; its mantissa with the hidden bit, divided by the divisor of
/// that exponent, is its 256-fold rounded down.
pub open spec fn channel_step(c: Scalar) -> int {
    let top = Scalar { bits: CHANNEL_MAX_BITS };
    let clamped = if c.lt_spec(Scalar { bits: 0 }) {
        Scalar { bits: 0 }
    } else if top.lt_spec(c) {
        top
    } else {
        c
    };
    let exponent = clamped.bits / MANTISSA_UNIT;
    if clamped.nan() || clamped.negative() || exponent < EXPONENT_OF_STEP {
        0
    } else {
        (MANTISSA_UNIT + clamped.bits % MANTISSA_UNIT) / step_divisor(exponent as int)
    }
}

/// The byte of one colour channel.
pub fn channel_byte(c: Scalar) -> (b: u8)
    ensures
        b == channel_step(c),
{
    let top = Scalar::from_bits(CHANNEL_MAX_BITS);
    let clamped = if c.lt(Scalar::zero()) {
        Scalar::zero()
    } else if top.lt(c) {
        top
    } else {
        c
    };
    if clamped.is_nan() || clamped.is_negative() {
        return 0;
    }
    let exponent: u64 = clamped.bits / MANTISSA_UNIT;
    if exponent < EXPONENT_OF_STEP {
        return 0;
    }
    assert(clamped.bits <= CHANNEL_MAX_BITS);
    assert(exponent <= 1022);
    let mantissa: u64 = MANTISSA_UNIT + clamped.bits % MANTISSA_UNIT;
    let divisor: u64 = if exponent == 1015 {
        0x10_0000_0000_0000
    } else if exponent == 1016 {
        0x8_0000_0000_0000
    } else if exponent == 1017 {
        0x4_0000_0000_0000
    } else if exponent == 1018 {
        0x2_0000_0000_0000
    } else if exponent == 1019 {
        0x1_0000_0000_0000
    } else if exponent == 1020 {
        0x8000_0000_0000
    } else if exponent == 1021 {
        0x4000_0000_0000
    } else {
        0x2000_0000_0000
    };
    let step: u64 = mantissa / divisor;
    assert(step <= 255);
    step as u8
}

/// The bytes of an image: for every colour its red, green and blue byte.
pub fn pixel_bytes(colors: &Vec<Color>) -> (out: Vec<u8>)
    requires
        3 * colors@.len() <= usize::MAX,
    ensures
        out@.len() == 3 * colors@.len(),
        forall|i: int|
            0 <= i < colors@.len() ==> {
                &&& out@[3 * i] == channel_step((#[trigger] colors@[i]).x)
                &&& out@[3 * i + 1] == channel_step(colors@[i].y)
                &&& out@[3 * i + 2] == channel_step(colors@[i].z)
            },
{
    let mut out: Vec<u8> = Vec::new();
    let mut i: usize = 0;
    while i < colors.len()
        invariant
            i <= colors@.len(),
            out@.len() == 3 * i,
            forall|j: int|
                0 <= j < i ==> {
                    &&& out@[3 * j] == channel_step((#[trigger] colors@[j]).x)
                    &&& out@[3 * j + 1] == channel_step(colors@[j].y)
                    &&& out@[3 * j + 2] == channel_step(colors@[j].z)
                },
        decreases colors@.len() - i,
    {
        out.push(channel_byte(colors[i].x));
        out.push(channel_byte(colors[i].y));
        out.push(channel_byte(colors[i].z));
        i += 1;
    }
    out
}

/// The rank of the value `k` 256ths, for `k` from 0 to 256.
pub open spec fn rank_of_step(k: int) -> int {
    if k <= 0 {
        0
    } else if k < 2 {
        1015 * 0x10_0000_0000_0000 + (k - 1) * 0x10_0000_0000_0000
    } else if k < 4 {
        1016 * 0x10_0000_0000_0000 + (k - 2) * 0x8_0000_0000_0000
    } else if k < 8 {
        1017 * 0x10_0000_0000_0000 + (k - 4) * 0x4_0000_0000_0000
    } else if k < 16 {
        1018 * 0x10_0000_0000_0000 + (k - 8) * 0x2_0000_0000_0000
    } else if k < 32 {
        1019 * 0x10_0000_0000_0000 + (k - 16) * 0x1_0000_0000_0000
    } else if k < 64 {
        1020 * 0x10_0000_0000_0000 + (k - 32) * 0x8000_0000_0000
    } else if k < 128 {
        1021 * 0x10_0000_0000_0000 + (k - 64) * 0x4000_0000_0000
    } else if k < 256 {
        1022 * 0x10_0000_0000_0000 + (k - 128) * 0x2000_0000_0000
    } else {
        1023 * 0x10_0000_0000_0000int
    }
}

/// The step of a channel value is its 256-fold rounded down, held between
/// zero and 255: the step is `k` exactly when the value is at least `k`
/// 256ths and below `k + 1` 256ths, where everything below one 256th has
/// step zero and everything from 255 256ths on has step 255.
pub proof fn lemma_channel_step_is_floor(c: Scalar, k: int)
    requires
        !c.nan(),
        0 <= k <= 255,
    ensures
        channel_step(c) == k <==> (k == 0 || rank_of_step(k) <= c.rank()) && (k == 255 || c.rank()
            < rank_of_step(k + 1)),
{
    let unit = 0x10_0000_0000_0000int;
    let top = Scalar { bits: CHANNEL_MAX_BITS };
    if c.lt_spec(Scalar { bits: 0 }) {
        assert(channel_step(c) == 0);
    } else if top.lt_spec(c) {
        assert(channel_step(c) == 255);
        assert(rank_of_step(255) == 1022 * unit + 127 * 0x2000_0000_0000);
    } else if c.negative() {
        assert(c.rank() == 0);
    } else {
        let e = c.bits as int / unit;
        let frac = c.bits as int % unit;
        assert(c.bits == e * unit + frac);
        assert(c.rank() == c.bits);
        if e < 1015 {
            assert(channel_step(c) == 0);
        } else {
            assert(e <= 1022);
            let d = step_divisor(e);
            let step = (unit + frac) / d;
            assert(channel_step(c) == step);
            lemma_step_bounds(e, frac, k);
        }
    }
}

/// For a mantissa under a given exponent, the quotient by the divisor of the
/// exponent is `k` exactly when the pattern lies between those of `k` and
/// `k + 1` 256ths.
proof fn lemma_step_bounds(e: int, frac: int, k: int)
    requires
        1015 <= e <= 1022,
        0 <= frac < 0x10_0000_0000_0000,
        e * 0x10_0000_0000_0000 + frac <= CHANNEL_MAX_BITS,
        0 <= k <= 255,
    ensures
        0 <= (0x10_0000_0000_0000 + frac) / step_divisor(e) <= 255,
        (0x10_0000_0000_0000 + frac) / step_divisor(e) == k <==> (k == 0 || rank_of_step(k) <= e
            * 0x10_0000_0000_0000 + frac) && (k == 255 || e * 0x10_0000_0000_0000 + frac < rank_of_step(
            k + 1,
        )),
{
    let unit = 0x10_0000_0000_0000int;
    let d = step_divisor(e);
    let m = unit + frac;
    let q = m / d;
    assert(q * d <= m < (q + 1) * d) by (nonlinear_arith)
        requires
            q == m / d,
            d > 0,
            m >= 0,
    ;
    if e == 1015 {
        assert(q == 1);
    } else if e == 1016 {
        assert(2 <= q < 4);
    } else if e == 1017 {
        assert(4 <= q < 8);
    } else if e == 1018 {
        assert(8 <= q < 16);
    } else if e == 1019 {
        assert(16 <= q < 32);
    } else if e == 1020 {
        assert(32 <= q < 64);
    } else if e == 1021 {
        assert(64 <= q < 128);
    } else {
        assert(128 <= q < 256);
    }
}

/// A channel value that is a number below zero has step zero, one that is a
/// number above the largest kept value has the last step, and no step lies
/// outside a byte.
pub proof fn lemma_channel_step_range(c: Scalar)
    ensures
        0 <= channel_step(c) <= 255,
        c.lt_spec(Scalar { bits: 0 }) ==> channel_step(c) == 0,
        (Scalar { bits: CHANNEL_MAX_BITS }).lt_spec(c) ==> channel_step(c) == 255,
{
    let unit = 0x10_0000_0000_0000int;
    let top = Scalar { bits: CHANNEL_MAX_BITS };
    assert(CHANNEL_MAX_BITS as int / unit == 1022);
    assert(CHANNEL_MAX_BITS as int % unit == 0xf_f7ce_d916_872b);
    assert((unit + 0xf_f7ce_d916_872b) / 0x2000_0000_0000 == 255);
    if c.lt_spec(Scalar { bits: 0 }) {
    } else if top.lt_spec(c) {
        assert(channel_step(c) == 255);
    } else if c.nan() || c.negative() {
    } else {
        let e = c.bits as int / unit;
        let frac = c.bits as int % unit;
        if e >= 1015 {
            assert(c.bits == e * unit + frac);
            lemma_step_bounds(e, frac, 0);
        }
    }
}

/// The least parameter at which a ray can hit anything, so that a scattered
/// ray does not hit the surface it leaves: the bit pattern of one thousandth.
pub const SELF_HIT_BITS: u64 = 0x3f50_624d_d2f1_a9fc;

/// The least parameter at which a ray can hit anything.
pub fn self_hit_limit() -> (s: Scalar)
    ensures
        s.bits == SELF_HIT_BITS,
{
    Scalar::from_bits(SELF_HIT_BITS)
}

/// What the colour of a ray is made of.
#[derive(Clone, Copy, Debug, PartialEq, Eq, Structural)]
pub enum Shading {
    /// The ray has used up its bounces: black.
    Black,
    /// The ray hit nothing: the colour of the background.
    Background,
    /// The ray was absorbed: what the surface emits.
    Emitted,
    /// The ray goes on: what the surface emits, plus the tint times the
    /// colour of the scattered ray, which has `depth` bounces left.
    Scattered { depth: i32 },
}

/// The shading of a ray with `depth` bounces left, which hit something or
/// not (`hit`) and was scattered there or not (`scattered`).
pub open spec fn shading_spec(depth: i32, hit: bool, scattered: bool) -> Shading {
    if depth <= 0 {
        Shading::Black
    } else if !hit {
        Shading::Background
    } else if !scattered {
        Shading::Emitted
    } else {
        Shading::Scattered { depth: (depth - 1) as i32 }
    }
}

/// Decides what the colour of a ray is made of.
pub fn ray_color(depth: i32, hit: bool, scattered: bool) -> (shading: Shading)
    ensures
        shading == shading_spec(depth, hit, scattered),
{
    if depth <= 0 {
        Shading::Black
    } else if !hit {
        Shading::Background
    } else if !scattered {
        Shading::Emitted
    } else {
        Shading::Scattered { depth: depth - 1 }
    }
}

/// A ray that goes on has fewer bounces left than before and at least none,
/// so no ray is followed through more bounces than it started with.
pub proof fn lemma_bounces_run_out(depth: i32, hit: bool, scattered: bool)
    ensures
        shading_spec(depth, hit, scattered) matches Shading::Scattered { depth: left } ==> 0 <= left
            < depth,
{
}

} // verus!
