//! Thumbnails of decoded images, and the half-block cells drawn from them.

use crate::images::rounding;
use crate::images::rounding::{round_fraction, round_integer};
use vstd::arithmetic::div_mod::lemma_fundamental_div_mod_converse;
use vstd::prelude::*;

verus! {

/// Upper bound on a preview's width in pixels.
pub const MAX_PREVIEW_COLS: u32 = 160;

/// Upper bound on a preview's height in pixels.
pub const MAX_PREVIEW_ROWS: u32 = 192;

/// A small RGBA thumbnail of a decoded image, straight alpha, top row first.
#[derive(Clone, Debug, PartialEq)]
pub struct Preview {
    pub width: u32,
    pub height: u32,
    pub rgba: Vec<u8>,
}

/// What a [`Preview`] holds.
pub struct PreviewView {
    pub width: int,
    pub height: int,
    pub rgba: Seq<u8>,
}

impl View for Preview {
    type V = PreviewView;

    open spec fn view(&self) -> PreviewView {
        PreviewView { width: self.width as int, height: self.height as int, rgba: self.rgba@ }
    }
}

impl Preview {
    /// The pixels fill the declared size.
    pub open spec fn wf(&self) -> bool {
        self.rgba@.len() >= self.width * self.height * 4
    }
}

/// The factor, as a fraction, by which a side of `side` pixels shrinks into
/// `limit` pixels: the single-precision quotient of the two.
pub open spec fn fit(limit: nat, side: nat) -> (nat, nat) {
    rounding::rounded_small(limit, rounding::rounded_integer(side))
}

/// The smaller of two fractions.
pub open spec fn smaller(x: (nat, nat), y: (nat, nat)) -> (nat, nat) {
    if x.0 * y.1 <= y.0 * x.1 {
        x
    } else {
        y
    }
}

/// The factor by which an image shrinks: the more constrained axis decides,
/// and nothing grows.
pub open spec fn shrink_factor(w: nat, h: nat) -> (nat, nat) {
    smaller(
        smaller(fit(MAX_PREVIEW_COLS as nat, w), fit(MAX_PREVIEW_ROWS as nat, h)),
        (1, 1),
    )
}

/// A side after shrinking by `factor`, at least one pixel and at most `limit`.
pub open spec fn shrunk(side: nat, factor: (nat, nat), limit: nat) -> nat {
    let product = rounding::rounded_small(
        rounding::rounded_integer(side) * factor.0,
        factor.1,
    );
    let nearest = rounding::half_up(product.0, product.1);
    if nearest < 1 {
        1
    } else if nearest > limit {
        limit
    } else {
        nearest
    }
}

/// Width and height of the preview of a `w` by `h` image.
pub open spec fn preview_size(w: nat, h: nat) -> (nat, nat) {
    let factor = shrink_factor(w, h);
    (shrunk(w, factor, MAX_PREVIEW_COLS as nat), shrunk(h, factor, MAX_PREVIEW_ROWS as nat))
}

/// A fraction no larger than one that keeps `side` under `limit` does so too.
proof fn smaller_factor_fits(side: nat, limit: nat, bound: (nat, nat), factor: (nat, nat))
    requires
        side * bound.0 <= limit * bound.1,
        factor.0 * bound.1 <= bound.0 * factor.1,
        bound.1 > 0,
    ensures
        side * factor.0 <= limit * factor.1,
{
    let (a, b) = bound;
    let (c, d) = factor;
    let sc = side * c;
    let ld = limit * d;
    assert(sc * b == side * (c * b)) by (nonlinear_arith)
        requires
            sc == side * c,
    ;
    assert(side * (c * b) <= side * (a * d)) by (nonlinear_arith)
        requires
            c * b <= a * d,
            side >= 0,
    ;
    assert(side * (a * d) == (side * a) * d) by (nonlinear_arith);
    assert((side * a) * d <= (limit * b) * d) by (nonlinear_arith)
        requires
            side * a <= limit * b,
            d >= 0,
    ;
    assert((limit * b) * d == ld * b) by (nonlinear_arith)
        requires
            ld == limit * d,
    ;
    assert(sc <= ld) by (nonlinear_arith)
        requires
            sc * b <= ld * b,
            b > 0,
    ;
}

/// One side of the preview.
fn shrink_side(side: u64, factor: (u128, u128), limit: u32) -> (out: u32)
    requires
        0 < side <= 0x2_0000_0000,
        0 < factor.0 <= 0x100_0000,
        0 < factor.1 <= 0x200_0000_0000_0000,
        side * factor.0 <= 2 * (0xff * factor.1),
        limit > 0,
    ensures
        ({
            let product = rounding::rounded_small(
                (side as nat) * (factor.0 as nat),
                factor.1 as nat,
            );
            let nearest = rounding::half_up(product.0, product.1);
            out == if nearest < 1 {
                1
            } else if nearest > limit {
                limit as nat
            } else {
                nearest
            }
        }),
{
    proof {
        assert(0 < side * factor.0 <= 0x2_0000_0000 * 0x100_0000) by (nonlinear_arith)
            requires
                0 < side <= 0x2_0000_0000,
                0 < factor.0 <= 0x100_0000,
        ;
    }
    let product: (u128, u128) = round_fraction(side as u128 * factor.0, factor.1);
    let nearest: u128 = (2 * product.0 + product.1) / (2 * product.1);
    if nearest < 1 {
        1
    } else if nearest > limit as u128 {
        limit
    } else {
        nearest as u32
    }
}

/// Width and height of the preview of a non-empty image.
pub fn preview_dimensions(w: u32, h: u32) -> (size: (u32, u32))
    requires
        w > 0,
        h > 0,
    ensures
        (size.0 as nat, size.1 as nat) == preview_size(w as nat, h as nat),
        1 <= size.0 <= MAX_PREVIEW_COLS,
        1 <= size.1 <= MAX_PREVIEW_ROWS,
{
    let fw: u64 = round_integer(w);
    let fh: u64 = round_integer(h);
    let sx: (u128, u128) = round_fraction(MAX_PREVIEW_COLS as u128, fw as u128);
    let sy: (u128, u128) = round_fraction(MAX_PREVIEW_ROWS as u128, fh as u128);
    proof {
        assert(sx.0 * sy.1 <= 0x100_0000 * 0x200_0000_0000_0000) by (nonlinear_arith)
            requires
                sx.0 <= 0x100_0000,
                sy.1 <= 0x200_0000_0000_0000,
        ;
        assert(sy.0 * sx.1 <= 0x100_0000 * 0x200_0000_0000_0000) by (nonlinear_arith)
            requires
                sy.0 <= 0x100_0000,
                sx.1 <= 0x200_0000_0000_0000,
        ;
    }
    let tighter: (u128, u128) = if sx.0 * sy.1 <= sy.0 * sx.1 {
        sx
    } else {
        sy
    };
    let factor: (u128, u128) = if tighter.0 <= tighter.1 {
        tighter
    } else {
        (1, 1)
    };
    proof {
        let x = (sx.0 as nat, sx.1 as nat);
        let y = (sy.0 as nat, sy.1 as nat);
        let f = (factor.0 as nat, factor.1 as nat);
        assert(f.0 * x.1 <= x.0 * f.1) by (nonlinear_arith)
            requires
                x.0 * y.1 <= y.0 * x.1 ==> (f == x || (f == (1nat, 1nat) && x.0 > x.1)),
                x.0 * y.1 > y.0 * x.1 ==> (f == y || (f == (1nat, 1nat) && y.0 > y.1)),
                x.1 > 0,
                y.1 > 0,
        ;
        assert(f.0 * y.1 <= y.0 * f.1) by (nonlinear_arith)
            requires
                x.0 * y.1 <= y.0 * x.1 ==> (f == x || (f == (1nat, 1nat) && x.0 > x.1)),
                x.0 * y.1 > y.0 * x.1 ==> (f == y || (f == (1nat, 1nat) && y.0 > y.1)),
                x.1 > 0,
                y.1 > 0,
        ;
        assert(fw * x.0 <= 320 * x.1) by (nonlinear_arith)
            requires
                x.0 * fw <= 2 * (160 * x.1),
        ;
        assert(fh * y.0 <= 384 * y.1) by (nonlinear_arith)
            requires
                y.0 * fh <= 2 * (192 * y.1),
        ;
        smaller_factor_fits(fw as nat, 320, x, f);
        smaller_factor_fits(fh as nat, 384, y, f);
    }
    (shrink_side(fw, factor, MAX_PREVIEW_COLS), shrink_side(fh, factor, MAX_PREVIEW_ROWS))
}


/// A side that fits its limit has a factor of at least one.
proof fn fitting_side(limit: nat, side: nat)
    requires
        0 < side <= limit,
        limit <= 0xffff,
    ensures
        fit(limit, side).0 >= fit(limit, side).1,
        fit(limit, side).1 > 0,
{
    rounding::rounding_keeps_lower_bound(limit, side, 1);
    rounding::rounded_has_denominator(limit, side);
}

/// A side does not change when the factor is one.
proof fn factor_one_keeps_side(side: nat, factor: (nat, nat), limit: nat)
    requires
        0 < side <= limit,
        limit <= 0xffff,
        factor.0 == factor.1,
        factor.1 > 0,
    ensures
        shrunk(side, factor, limit) == side,
{
    rounding::rounding_keeps_integers(side, factor.1);
    let product = rounding::rounded_small(side * factor.0, factor.1);
    rounding::half_up_of_integer(side, product.1);
}

/// An image that fits the budget keeps its size.
pub proof fn fitting_image_keeps_its_size(w: nat, h: nat)
    requires
        0 < w <= MAX_PREVIEW_COLS,
        0 < h <= MAX_PREVIEW_ROWS,
    ensures
        preview_size(w, h) == (w, h),
{
    fitting_side(MAX_PREVIEW_COLS as nat, w);
    fitting_side(MAX_PREVIEW_ROWS as nat, h);
    let factor = shrink_factor(w, h);
    assert(factor.0 == factor.1);
    factor_one_keeps_side(w, factor, MAX_PREVIEW_COLS as nat);
    factor_one_keeps_side(h, factor, MAX_PREVIEW_ROWS as nat);
}

/// The factor of a side is near the quotient that it stands for.
proof fn fit_is_near(limit: nat, side: nat)
    requires
        limit > 0,
        side > 0,
    ensures
        rounding::near(fit(limit, side), (limit, side), 3),
        fit(limit, side).0 > 0,
        fit(limit, side).1 > 0,
{
    let w = rounding::rounded_integer(side);
    rounding::rounding_integer_is_near(side);
    rounding::near_inverts((w, 1), (side, 1), 1);
    rounding::near_scales((1, w), (1, side), (limit, 1), 1);
    assert((1 * limit, w * 1) == (limit, w));
    assert((1 * limit, side * 1) == (limit, side));
    rounding::rounding_is_near(limit, w);
    rounding::near_chains(fit(limit, side), (limit, w), (limit, side), 1, 1);
}

/// A side that was shrunk by the factor of another one is near their proportion.
proof fn product_is_near(side: nat, full: nat, limit: nat)
    requires
        limit > 0,
        side > 0,
        full > 0,
    ensures
        ({
            let factor = fit(limit, full);
            let product = rounding::rounded_small(
                rounding::rounded_integer(side) * factor.0,
                factor.1,
            );
            &&& rounding::near(product, (limit * side, full), 7)
            &&& product.0 > 0
            &&& product.1 > 0
        }),
{
    let (a, b) = fit(limit, full);
    let s = rounding::rounded_integer(side);
    fit_is_near(limit, full);
    rounding::rounding_integer_is_near(side);
    assert(s * a > 0 && side * a > 0) by (nonlinear_arith)
        requires
            s > 0,
            a > 0,
            side > 0,
    ;
    rounding::rounding_is_near(s * a, b);
    rounding::near_scales((s, 1), (side, 1), (a, b), 1);
    assert((s * a, 1 * b) == (s * a, b));
    assert((side * a, 1 * b) == (side * a, b));
    rounding::near_scales((a, b), (limit, full), (side, 1), 3);
    assert(a * side == side * a) by (nonlinear_arith);
    assert((a * side, b * 1) == (side * a, b));
    assert((limit * side, full * 1) == (limit * side, full));
    let product = rounding::rounded_small(s * a, b);
    rounding::near_chains(product, (s * a, b), (side * a, b), 1, 1);
    rounding::near_chains(product, (side * a, b), (limit * side, full), 3, 3);
}

/// The nearest integer to a value near a fraction is near it too.
proof fn nearest_is_near(x: (nat, nat), y: (nat, nat))
    requires
        rounding::near(x, y, 7),
        x.1 > 0,
        y.1 > 0,
        y.0 <= 400 * y.1,
    ensures
        ({
            let n = rounding::half_up(x.0, x.1);
            &&& 100 * (n * y.1) <= 100 * y.0 + 51 * y.1
            &&& 100 * y.0 <= 100 * (n * y.1) + 51 * y.1
        }),
{
    let (p, q) = x;
    let (a, b) = y;
    let n = rounding::half_up(p, q);
    let r = (2 * p + q) % (2 * q);
    vstd::arithmetic::div_mod::lemma_fundamental_div_mod((2 * p + q) as int, (2 * q) as int);
    assert(2 * p + q == (2 * q) * n + r);
    let pb = p * b;
    let aq = a * q;
    let z = q * b;
    let nz = n * z;
    let rb = r * b;
    assert(2 * pb + z == 2 * nz + rb) by (nonlinear_arith)
        requires
            2 * p + q == (2 * q) * n + r,
            pb == p * b,
            z == q * b,
            nz == n * z,
            rb == r * b,
    ;
    assert(0 <= rb < 2 * z) by (nonlinear_arith)
        requires
            0 <= r < 2 * q,
            b > 0,
            z == q * b,
            rb == r * b,
    ;
    assert(aq <= 400 * z) by (nonlinear_arith)
        requires
            a <= 400 * b,
            aq == a * q,
            z == q * b,
    ;
    assert(pb * 1_000_000 <= aq * 1_000_007);
    assert(aq * 1_000_000 <= pb * 1_000_007);
    assert(100 * nz <= 100 * aq + 51 * z && 100 * aq <= 100 * nz + 51 * z) by (nonlinear_arith)
        requires
            2 * pb + z == 2 * nz + rb,
            0 <= rb < 2 * z,
            aq <= 400 * z,
            pb * 1_000_000 <= aq * 1_000_007,
            aq * 1_000_000 <= pb * 1_000_007,
    ;
    let nb = n * b;
    assert(nz == nb * q) by (nonlinear_arith)
        requires
            nz == n * z,
            z == q * b,
            nb == n * b,
    ;
    assert(100 * nb <= 100 * a + 51 * b) by (nonlinear_arith)
        requires
            100 * (nb * q) <= 100 * (a * q) + 51 * (q * b),
            q > 0,
    ;
    assert(100 * a <= 100 * nb + 51 * b) by (nonlinear_arith)
        requires
            100 * (a * q) <= 100 * (nb * q) + 51 * (q * b),
            q > 0,
    ;
}

/// Whether a side of `side` pixels became `n` pixels, as one of `full` pixels
/// became `limit`: within 51 hundredths of a pixel of the exact proportion, or the
/// one pixel that there always is.
pub open spec fn in_proportion(n: nat, side: nat, limit: nat, full: nat) -> bool {
    ||| 100 * (n * full) <= 100 * (limit * side) + 51 * full && 100 * (limit * side) <= 100 * (n
        * full) + 51 * full
    ||| n == 1 && 100 * (limit * side) <= 51 * full
}

/// What the factor of one side makes of both, where it is below one and no larger
/// than that of the other side.
proof fn deciding_side(full: nat, limit: nat, side: nat, side_limit: nat)
    requires
        full > 0,
        side > 0,
        100 <= limit <= 200,
        100 <= side_limit <= 200,
        fit(limit, full).0 < fit(limit, full).1,
        fit(limit, full).0 * fit(side_limit, side).1 <= fit(side_limit, side).0 * fit(
            limit,
            full,
        ).1,
    ensures
        shrunk(full, fit(limit, full), limit) == limit,
        limit <= full,
        shrunk(side, fit(limit, full), side_limit) <= side,
        in_proportion(shrunk(side, fit(limit, full), side_limit), side, limit, full),
{
    let f = fit(limit, full);
    let g = fit(side_limit, side);
    fit_is_near(limit, full);
    fit_is_near(side_limit, side);
    // The side itself comes out at its limit, and was no smaller.
    assert(limit <= full) by (nonlinear_arith)
        requires
            limit * f.1 * 1_000_000 <= f.0 * full * 1_000_003,
            f.0 < f.1,
            full > 0,
            limit <= 200,
    ;
    product_is_near(full, full, limit);
    let own = rounding::rounded_small(rounding::rounded_integer(full) * f.0, f.1);
    assert(limit * full <= 400 * full) by (nonlinear_arith)
        requires
            limit <= 200,
    ;
    nearest_is_near(own, (limit * full, full));
    let m = rounding::half_up(own.0, own.1);
    assert(m == limit) by (nonlinear_arith)
        requires
            100 * (m * full) <= 100 * (limit * full) + 51 * full,
            100 * (limit * full) <= 100 * (m * full) + 51 * full,
            full > 0,
    ;
    // The other side follows in proportion and stays within its limit.
    assert(rounding::at_most(f, g, 0)) by {
        assert(f.0 * g.1 * 1_000_000 <= g.0 * f.1 * (1_000_000 + 0)) by (nonlinear_arith)
            requires
                f.0 * g.1 <= g.0 * f.1,
        ;
    }
    rounding::at_most_chains((limit, full), f, g, 3, 0);
    rounding::at_most_chains((limit, full), g, (side_limit, side), 4, 3);
    let ls = limit * side;
    assert(ls * 1_000_000 <= side_limit * full * 1_000_008);
    let lf = side_limit * full;
    assert(lf <= 200 * full) by (nonlinear_arith)
        requires
            lf == side_limit * full,
            side_limit <= 200,
    ;
    product_is_near(side, full, limit);
    let other = rounding::rounded_small(rounding::rounded_integer(side) * f.0, f.1);
    nearest_is_near(other, (ls, full));
    let n = rounding::half_up(other.0, other.1);
    assert(n <= side_limit) by (nonlinear_arith)
        requires
            100 * (n * full) <= 100 * ls + 51 * full,
            ls * 1_000_000 <= lf * 1_000_008,
            lf == side_limit * full,
            lf <= 200 * full,
            full > 0,
    ;
    assert(ls <= side * full) by (nonlinear_arith)
        requires
            ls == limit * side,
            limit <= full,
    ;
    assert(n <= side) by (nonlinear_arith)
        requires
            100 * (n * full) <= 100 * ls + 51 * full,
            ls <= side * full,
            full > 0,
    ;
    if n < 1 {
        assert(n * full == 0) by (nonlinear_arith)
            requires
                n == 0,
        ;
    }
}

/// A side over its limit has a factor below one.
proof fn side_over_limit(limit: nat, side: nat)
    requires
        100 <= limit <= 200,
        side > limit,
    ensures
        fit(limit, side).0 < fit(limit, side).1,
{
    fit_is_near(limit, side);
    let f = fit(limit, side);
    assert(f.0 < f.1) by (nonlinear_arith)
        requires
            f.0 * side * 1_000_000 <= limit * f.1 * 1_000_003,
            side >= limit + 1,
            100 <= limit <= 200,
            f.1 > 0,
    ;
}

/// An image that does not fit the budget fills one side of it, grows on none, and
/// keeps its aspect ratio.
pub proof fn large_image_fills_one_side_in_proportion(w: nat, h: nat)
    requires
        w > 0,
        h > 0,
        w > MAX_PREVIEW_COLS || h > MAX_PREVIEW_ROWS,
    ensures
        ({
            let (dw, dh) = preview_size(w, h);
            &&& dw <= w
            &&& dh <= h
            &&& {
                ||| dw == MAX_PREVIEW_COLS && in_proportion(dh, h, dw, w)
                ||| dh == MAX_PREVIEW_ROWS && in_proportion(dw, w, dh, h)
            }
        }),
{
    let x = fit(MAX_PREVIEW_COLS as nat, w);
    let y = fit(MAX_PREVIEW_ROWS as nat, h);
    let z = smaller(x, y);
    fit_is_near(MAX_PREVIEW_COLS as nat, w);
    fit_is_near(MAX_PREVIEW_ROWS as nat, h);
    if w > MAX_PREVIEW_COLS {
        side_over_limit(MAX_PREVIEW_COLS as nat, w);
    } else {
        side_over_limit(MAX_PREVIEW_ROWS as nat, h);
    }
    assert(z.0 < z.1) by (nonlinear_arith)
        requires
            x.0 < x.1 || y.0 < y.1,
            x.0 * y.1 <= y.0 * x.1 ==> z == x,
            x.0 * y.1 > y.0 * x.1 ==> z == y,
            x.1 > 0,
            y.1 > 0,
    ;
    assert(shrink_factor(w, h) == z);
    if x.0 * y.1 <= y.0 * x.1 {
        deciding_side(w, MAX_PREVIEW_COLS as nat, h, MAX_PREVIEW_ROWS as nat);
    } else {
        deciding_side(h, MAX_PREVIEW_ROWS as nat, w, MAX_PREVIEW_COLS as nat);
    }
}

/// First source index that destination index `d` of `dst` covers, out of `src`.
pub open spec fn span_start(d: int, dst: int, src: int) -> int {
    d * src / dst
}

/// One past the last source index that destination index `d` covers: at least
/// one index, and none past the source's end.
pub open spec fn span_end(d: int, dst: int, src: int) -> int {
    let next = (d + 1) * src / dst;
    let first = span_start(d, dst, src);
    let end = if next < first + 1 {
        first + 1
    } else {
        next
    };
    if end > src {
        src
    } else {
        end
    }
}

/// Sum of one channel over columns `x0..x1` of row `y`.
pub open spec fn row_sum(rgba: Seq<u8>, w: int, y: int, x0: int, x1: int, channel: int) -> int
    decreases x1 - x0,
{
    if x1 <= x0 {
        0
    } else {
        row_sum(rgba, w, y, x0, x1 - 1, channel) + rgba[(y * w + (x1 - 1)) * 4 + channel]
    }
}

/// Sum of one channel over the box of rows `y0..y1` and columns `x0..x1`.
pub open spec fn box_sum(
    rgba: Seq<u8>,
    w: int,
    y0: int,
    y1: int,
    x0: int,
    x1: int,
    channel: int,
) -> int
    decreases y1 - y0,
{
    if y1 <= y0 {
        0
    } else {
        box_sum(rgba, w, y0, y1 - 1, x0, x1, channel) + row_sum(rgba, w, y1 - 1, x0, x1, channel)
    }
}

/// Byte `i` of the preview: the average of its channel over the box of source
/// pixels that the preview pixel covers.
pub open spec fn preview_byte(rgba: Seq<u8>, w: int, h: int, dw: int, dh: int, i: int) -> u8 {
    let dy = (i / 4) / dw;
    let dx = (i / 4) % dw;
    let (y0, y1) = (span_start(dy, dh, h), span_end(dy, dh, h));
    let (x0, x1) = (span_start(dx, dw, w), span_end(dx, dw, w));
    (box_sum(rgba, w, y0, y1, x0, x1, i % 4) / ((y1 - y0) * (x1 - x0))) as u8
}

/// The preview of an image: `None` when it is empty or its buffer is shorter
/// than its declared size.
pub open spec fn preview_of(rgba: Seq<u8>, w: int, h: int) -> Option<PreviewView> {
    if w == 0 || h == 0 || rgba.len() < w * h * 4 {
        None
    } else {
        let (dw, dh) = preview_size(w as nat, h as nat);
        Some(
            PreviewView {
                width: dw as int,
                height: dh as int,
                rgba: Seq::new(
                    dw * dh * 4,
                    |i: int| preview_byte(rgba, w, h, dw as int, dh as int, i),
                ),
            },
        )
    }
}

/// A span is not empty and stays inside the source.
proof fn span_in_source(d: int, dst: int, src: int)
    requires
        0 <= d < dst,
        src > 0,
    ensures
        0 <= span_start(d, dst, src) < span_end(d, dst, src) <= src,
{
    let q = d * src / dst;
    assert(0 <= q < src) by (nonlinear_arith)
        requires
            q == d * src / dst,
            0 <= d < dst,
            src > 0,
    ;
}

/// The source indices that one destination index covers.
fn span(d: u32, dst: u32, src: u32) -> (range: (u32, u32))
    requires
        d < dst,
        src > 0,
    ensures
        range.0 == span_start(d as int, dst as int, src as int),
        range.1 == span_end(d as int, dst as int, src as int),
        range.0 < range.1 <= src,
{
    proof {
        span_in_source(d as int, dst as int, src as int);
        assert(0 <= d * src && (d + 1) * src <= 0xffff_ffff * 0xffff_ffff) by (nonlinear_arith)
            requires
                0 <= d < 0xffff_ffff,
                0 <= src <= 0xffff_ffff,
        ;
        assert(d * src <= (d + 1) * src) by (nonlinear_arith)
            requires
                src >= 0,
        ;
    }
    let first: u64 = d as u64 * src as u64 / dst as u64;
    let next: u64 = (d as u64 + 1) * src as u64 / dst as u64;
    let end: u64 = if next < first + 1 {
        first + 1
    } else {
        next
    };
    let end: u64 = if end > src as u64 {
        src as u64
    } else {
        end
    };
    (first as u32, end as u32)
}

/// The sum of a row of bytes stays between zero and 255 for each of them.
proof fn row_sum_in_range(rgba: Seq<u8>, w: int, y: int, x0: int, x1: int, channel: int)
    requires
        x0 <= x1,
    ensures
        0 <= row_sum(rgba, w, y, x0, x1, channel) <= 255 * (x1 - x0),
    decreases x1 - x0,
{
    if x0 < x1 {
        row_sum_in_range(rgba, w, y, x0, x1 - 1, channel);
    }
}

fn row_total(rgba: &[u8], w: u32, y: u32, x0: u32, x1: u32, channel: usize) -> (sum: u64)
    requires
        x0 <= x1 <= w,
        channel < 4,
        (y + 1) * w * 4 <= rgba@.len(),
    ensures
        sum == row_sum(rgba@, w as int, y as int, x0 as int, x1 as int, channel as int),
        sum <= 255 * (x1 - x0),
{
    let width: usize = w as usize;
    let row: usize = y as usize;
    let len: usize = rgba.len();
    let mut sum: u64 = 0;
    let mut x: u32 = x0;
    while x < x1
        invariant
            x0 <= x <= x1 <= w,
            channel < 4,
            width == w,
            row == y,
            len == rgba@.len(),
            (y + 1) * w * 4 <= len,
            sum == row_sum(rgba@, w as int, y as int, x0 as int, x as int, channel as int),
            sum <= 255 * (x - x0),
        decreases x1 - x,
    {
        proof {
            assert((y + 1) * w == y * w + w) by (nonlinear_arith);
            assert(0 <= y * w) by (nonlinear_arith)
                requires
                    0 <= y,
                    0 <= w,
            ;
            assert(row * width == y * w);
        }
        let i: usize = (row * width + x as usize) * 4 + channel;
        sum = sum + rgba[i] as u64;
        x = x + 1;
    }
    sum
}

/// The average of one channel over a box of pixels.
fn box_average(
    rgba: &[u8],
    w: u32,
    h: u32,
    rows: (u32, u32),
    cols: (u32, u32),
    channel: usize,
) -> (avg: u8)
    requires
        rows.0 < rows.1 <= h,
        cols.0 < cols.1 <= w,
        channel < 4,
        w * h * 4 <= rgba@.len(),
    ensures
        avg == box_sum(
            rgba@,
            w as int,
            rows.0 as int,
            rows.1 as int,
            cols.0 as int,
            cols.1 as int,
            channel as int,
        ) / ((rows.1 - rows.0) * (cols.1 - cols.0)),
{
    let n_rows: u128 = (rows.1 - rows.0) as u128;
    let n_cols: u128 = (cols.1 - cols.0) as u128;
    let mut sum: u128 = 0;
    let mut y: u32 = rows.0;
    while y < rows.1
        invariant
            rows.0 <= y <= rows.1 <= h,
            cols.0 < cols.1 <= w,
            channel < 4,
            w * h * 4 <= rgba@.len(),
            n_cols == cols.1 - cols.0,
            sum == box_sum(
                rgba@,
                w as int,
                rows.0 as int,
                y as int,
                cols.0 as int,
                cols.1 as int,
                channel as int,
            ),
            sum <= 255 * ((y - rows.0) * n_cols),
        decreases rows.1 - y,
    {
        proof {
            assert((y + 1) * w * 4 <= w * h * 4) by (nonlinear_arith)
                requires
                    0 <= y < h,
                    0 <= w,
            ;
            let k = y - rows.0;
            assert((k + 1) * n_cols == k * n_cols + n_cols) by (nonlinear_arith);
            assert(0 <= k * n_cols <= 0xffff_ffff * 0xffff_ffff) by (nonlinear_arith)
                requires
                    0 <= k <= 0xffff_ffff,
                    0 <= n_cols <= 0xffff_ffff,
            ;
        }
        sum = sum + row_total(rgba, w, y, cols.0, cols.1, channel) as u128;
        y = y + 1;
    }
    proof {
        assert(0 < n_rows * n_cols <= 0xffff_ffff * 0xffff_ffff) by (nonlinear_arith)
            requires
                0 < n_rows <= 0xffff_ffff,
                0 < n_cols <= 0xffff_ffff,
        ;
    }
    let n: u128 = n_rows * n_cols;
    assert(sum / n <= 255) by (nonlinear_arith)
        requires
            sum <= 255 * n,
            n > 0,
    ;
    (sum / n) as u8
}

/// Downsamples an image of `w` by `h` RGBA pixels to a preview that fits the
/// half-block budget, by averaging the pixels behind each preview pixel.
/// Returns `None` for an empty image and for a buffer shorter than declared.
pub fn build_preview(rgba: &[u8], w: u32, h: u32) -> (preview: Option<Preview>)
    ensures
        match preview {
            Some(p) => preview_of(rgba@, w as int, h as int) == Some(p@) && p.rgba@.len() == p.width
                * p.height * 4,
            None => preview_of(rgba@, w as int, h as int) is None,
        },
{
    proof {
        assert(0 <= w * h <= 0xffff_ffff * 0xffff_ffff) by (nonlinear_arith)
            requires
                0 <= w <= 0xffff_ffff,
                0 <= h <= 0xffff_ffff,
        ;
    }
    let declared: u128 = w as u128 * h as u128 * 4;
    if w == 0 || h == 0 || (rgba.len() as u128) < declared {
        return None;
    }
    let (dw, dh): (u32, u32) = preview_dimensions(w, h);
    let mut out: Vec<u8> = Vec::new();
    let mut dy: u32 = 0;
    while dy < dh
        invariant
            0 <= dy <= dh,
            1 <= dw <= MAX_PREVIEW_COLS,
            1 <= dh <= MAX_PREVIEW_ROWS,
            w > 0,
            h > 0,
            w * h * 4 <= rgba@.len(),
            out@.len() == dy * dw * 4,
            forall|i: int|
                0 <= i < out@.len() ==> #[trigger] out@[i] == preview_byte(
                    rgba@,
                    w as int,
                    h as int,
                    dw as int,
                    dh as int,
                    i,
                ),
        decreases dh - dy,
    {
        let rows: (u32, u32) = span(dy, dh, h);
        let mut dx: u32 = 0;
        while dx < dw
            invariant
                0 <= dx <= dw,
                dy < dh,
                1 <= dw <= MAX_PREVIEW_COLS,
                1 <= dh <= MAX_PREVIEW_ROWS,
                w > 0,
                h > 0,
                w * h * 4 <= rgba@.len(),
                rows.0 == span_start(dy as int, dh as int, h as int),
                rows.1 == span_end(dy as int, dh as int, h as int),
                rows.0 < rows.1 <= h,
                out@.len() == (dy * dw + dx) * 4,
                forall|i: int|
                    0 <= i < out@.len() ==> #[trigger] out@[i] == preview_byte(
                        rgba@,
                        w as int,
                        h as int,
                        dw as int,
                        dh as int,
                        i,
                    ),
            decreases dw - dx,
        {
            let cols: (u32, u32) = span(dx, dw, w);
            let ghost p = dy * dw + dx;
            let mut channel: usize = 0;
            while channel < 4
                invariant
                    channel <= 4,
                    dx < dw,
                    dw > 0,
                    p == dy * dw + dx,
                    w * h * 4 <= rgba@.len(),
                    rows.0 == span_start(dy as int, dh as int, h as int),
                    rows.1 == span_end(dy as int, dh as int, h as int),
                    cols.0 == span_start(dx as int, dw as int, w as int),
                    cols.1 == span_end(dx as int, dw as int, w as int),
                    rows.0 < rows.1 <= h,
                    cols.0 < cols.1 <= w,
                    out@.len() == p * 4 + channel,
                    forall|i: int|
                        0 <= i < out@.len() ==> #[trigger] out@[i] == preview_byte(
                            rgba@,
                            w as int,
                            h as int,
                            dw as int,
                            dh as int,
                            i,
                        ),
                decreases 4 - channel,
            {
                proof {
                    lemma_fundamental_div_mod_converse(p * 4 + channel, 4, p, channel as int);
                    lemma_fundamental_div_mod_converse(p, dw as int, dy as int, dx as int);
                }
                out.push(box_average(rgba, w, h, rows, cols, channel));
                channel = channel + 1;
            }
            dx = dx + 1;
        }
        assert((dy + 1) * dw == dy * dw + dw) by (nonlinear_arith);
        dy = dy + 1;
    }
    proof {
        assert(dh * dw == dw * dh) by (nonlinear_arith);
        let want = preview_of(rgba@, w as int, h as int);
        assert(want->0.rgba.len() == dw * dh * 4);
        assert(out@ =~= want->0.rgba);
    }
    Some(Preview { width: dw, height: dh, rgba: out })
}

/// One pixel: sRGB channels and straight alpha.
#[derive(Copy, Clone, Debug, PartialEq, Eq, Structural)]
pub struct Rgba {
    pub r: u8,
    pub g: u8,
    pub b: u8,
    pub a: u8,
}

/// One half-block glyph cell, at an offset from the placement's anchor. The
/// glyph fills the upper half of the cell with `fg` and leaves the lower half
/// in `bg`, so a cell shows two preview pixels on top of each other.
#[derive(Copy, Clone, Debug, PartialEq, Eq, Structural)]
pub struct HalfblockCell {
    pub row_offset: u16,
    pub col_offset: u16,
    pub fg: Rgba,
    pub bg: Rgba,
}

/// The upper half block, which half-block cells are drawn with.
pub const HALFBLOCK_CHAR: char = '\u{2580}';

/// The nearest of `size` preview pixels for step `step` out of `steps`.
pub open spec fn nearest_pixel(step: int, steps: int, size: int) -> int {
    let p = step * size / steps;
    if p < size - 1 {
        p
    } else {
        size - 1
    }
}

/// The pixel in column `x` and row `y` of a preview.
pub open spec fn pixel_at(preview: PreviewView, x: int, y: int) -> Rgba {
    let i = (y * preview.width + x) * 4;
    Rgba {
        r: preview.rgba[i],
        g: preview.rgba[i + 1],
        b: preview.rgba[i + 2],
        a: preview.rgba[i + 3],
    }
}

/// The cell in row `row` and column `col` of a grid of `rows` by `cols` cells.
/// Each row of cells stands for two rows of pixels.
pub open spec fn halfblock_cell(
    preview: PreviewView,
    rows: int,
    cols: int,
    row: int,
    col: int,
) -> HalfblockCell {
    let x = nearest_pixel(col, cols, preview.width);
    HalfblockCell {
        row_offset: row as u16,
        col_offset: col as u16,
        fg: pixel_at(preview, x, nearest_pixel(2 * row, 2 * rows, preview.height)),
        bg: pixel_at(preview, x, nearest_pixel(2 * row + 1, 2 * rows, preview.height)),
    }
}

/// The nearest preview pixel for a step.
fn nearest(step: u32, steps: u32, size: u32) -> (p: u32)
    requires
        steps > 0,
        size > 0,
    ensures
        p == nearest_pixel(step as int, steps as int, size as int),
        p < size,
{
    proof {
        assert(0 <= step * size <= 0xffff_ffff * 0xffff_ffff) by (nonlinear_arith)
            requires
                0 <= step <= 0xffff_ffff,
                0 <= size <= 0xffff_ffff,
        ;
        assert(0 <= step * size / steps as int) by (nonlinear_arith)
            requires
                0 <= step * size,
                steps > 0,
        ;
    }
    let p: u64 = step as u64 * size as u64 / steps as u64;
    if p < (size - 1) as u64 {
        p as u32
    } else {
        size - 1
    }
}

fn pixel(preview: &Preview, x: u32, y: u32) -> (out: Rgba)
    requires
        preview.wf(),
        x < preview.width,
        y < preview.height,
    ensures
        out == pixel_at(preview@, x as int, y as int),
{
    let w: usize = preview.width as usize;
    let row: usize = y as usize;
    let len: usize = preview.rgba.len();
    proof {
        assert(0 <= row * w && (row * w + x) * 4 + 4 <= w * preview.height * 4)
            by (nonlinear_arith)
            requires
                0 <= row < preview.height,
                0 <= x < w,
        ;
    }
    let i: usize = (row * w + x as usize) * 4;
    Rgba {
        r: preview.rgba[i],
        g: preview.rgba[i + 1],
        b: preview.rgba[i + 2],
        a: preview.rgba[i + 3],
    }
}

/// Rasterizes a preview into `rows` by `cols` half-block cells, row by row.
/// Where there are more cells than pixels, the nearest pixel is taken. An
/// empty preview has no cells.
pub fn halfblock_cells(preview: &Preview, rows: u16, cols: u16) -> (cells: Vec<HalfblockCell>)
    requires
        preview.wf(),
    ensures
        preview.width == 0 || preview.height == 0 ==> cells@.len() == 0,
        preview.width > 0 && preview.height > 0 ==> cells@ == Seq::new(
            (rows * cols) as nat,
            |k: int|
                halfblock_cell(preview@, rows as int, cols as int, k / cols as int, k % cols as int),
        ),
{
    let mut out: Vec<HalfblockCell> = Vec::new();
    if preview.width == 0 || preview.height == 0 || rows == 0 || cols == 0 {
        proof {
            assert(rows == 0 || cols == 0 ==> rows * cols == 0) by (nonlinear_arith);
            assert(out@ =~= Seq::<HalfblockCell>::empty());
        }
        return out;
    }
    let mut row: u16 = 0;
    while row < rows
        invariant
            row <= rows,
            rows > 0,
            cols > 0,
            preview.wf(),
            preview.width > 0,
            preview.height > 0,
            out@.len() == row * cols,
            forall|k: int|
                0 <= k < out@.len() ==> #[trigger] out@[k] == halfblock_cell(
                    preview@,
                    rows as int,
                    cols as int,
                    k / cols as int,
                    k % cols as int,
                ),
        decreases rows - row,
    {
        let top: u32 = nearest(2 * row as u32, 2 * rows as u32, preview.height);
        let bottom: u32 = nearest(2 * row as u32 + 1, 2 * rows as u32, preview.height);
        let mut col: u16 = 0;
        while col < cols
            invariant
                row < rows,
                col <= cols,
                rows > 0,
                cols > 0,
                preview.wf(),
                preview.width > 0,
                preview.height > 0,
                top < preview.height,
                bottom < preview.height,
                top == nearest_pixel(2 * row, 2 * rows, preview.height as int),
                bottom == nearest_pixel(2 * row + 1, 2 * rows, preview.height as int),
                out@.len() == row * cols + col,
                forall|k: int|
                    0 <= k < out@.len() ==> #[trigger] out@[k] == halfblock_cell(
                        preview@,
                        rows as int,
                        cols as int,
                        k / cols as int,
                        k % cols as int,
                    ),
            decreases cols - col,
        {
            let x: u32 = nearest(col as u32, cols as u32, preview.width);
            proof {
                lemma_fundamental_div_mod_converse(
                    row * cols + col,
                    cols as int,
                    row as int,
                    col as int,
                );
            }
            out.push(
                HalfblockCell {
                    row_offset: row,
                    col_offset: col,
                    fg: pixel(preview, x, top),
                    bg: pixel(preview, x, bottom),
                },
            );
            col = col + 1;
        }
        assert((row + 1) * cols == row * cols + cols) by (nonlinear_arith);
        row = row + 1;
    }
    out
}

/// A preview that was built can be drawn: its pixels fill its size, and it is
/// at least one pixel and no larger than the half-block budget.
pub proof fn built_preview_is_drawable(rgba: Seq<u8>, w: int, h: int)
    requires
        w >= 0,
        h >= 0,
    ensures
        match preview_of(rgba, w, h) {
            Some(p) => 1 <= p.width <= MAX_PREVIEW_COLS && 1 <= p.height <= MAX_PREVIEW_ROWS
                && p.rgba.len() == p.width * p.height * 4,
            None => true,
        },
{
}

/// The sum over a box of one pixel is that pixel's byte, and two boxes side by
/// side, or one above the other, sum up to the box of both.
pub proof fn box_sums_add_up(
    rgba: Seq<u8>,
    w: int,
    y0: int,
    y: int,
    y1: int,
    x0: int,
    x: int,
    x1: int,
    channel: int,
)
    requires
        y0 <= y <= y1,
        x0 <= x <= x1,
    ensures
        box_sum(rgba, w, y, y + 1, x, x + 1, channel) == rgba[4 * (y * w + x) + channel],
        box_sum(rgba, w, y0, y1, x0, x1, channel) == box_sum(rgba, w, y0, y, x0, x1, channel)
            + box_sum(rgba, w, y, y1, x0, x1, channel),
        box_sum(rgba, w, y0, y1, x0, x1, channel) == box_sum(rgba, w, y0, y1, x0, x, channel)
            + box_sum(rgba, w, y0, y1, x, x1, channel),
{
    assert(row_sum(rgba, w, y, x, x, channel) == 0);
    assert(row_sum(rgba, w, y, x, x + 1, channel) == rgba[(y * w + x) * 4 + channel]);
    assert(box_sum(rgba, w, y, y, x, x + 1, channel) == 0);
    assert((y * w + x) * 4 == 4 * (y * w + x));
    box_splits_by_rows(rgba, w, y0, y, y1, x0, x1, channel);
    box_splits_by_columns(rgba, w, y0, y1, x0, x, x1, channel);
}

proof fn row_splits(rgba: Seq<u8>, w: int, y: int, x0: int, x: int, x1: int, channel: int)
    requires
        x0 <= x <= x1,
    ensures
        row_sum(rgba, w, y, x0, x1, channel) == row_sum(rgba, w, y, x0, x, channel) + row_sum(
            rgba,
            w,
            y,
            x,
            x1,
            channel,
        ),
    decreases x1 - x,
{
    if x < x1 {
        row_splits(rgba, w, y, x0, x, x1 - 1, channel);
    }
}

proof fn box_splits_by_rows(
    rgba: Seq<u8>,
    w: int,
    y0: int,
    y: int,
    y1: int,
    x0: int,
    x1: int,
    channel: int,
)
    requires
        y0 <= y <= y1,
    ensures
        box_sum(rgba, w, y0, y1, x0, x1, channel) == box_sum(rgba, w, y0, y, x0, x1, channel)
            + box_sum(rgba, w, y, y1, x0, x1, channel),
    decreases y1 - y,
{
    if y < y1 {
        box_splits_by_rows(rgba, w, y0, y, y1 - 1, x0, x1, channel);
    }
}

proof fn box_splits_by_columns(
    rgba: Seq<u8>,
    w: int,
    y0: int,
    y1: int,
    x0: int,
    x: int,
    x1: int,
    channel: int,
)
    requires
        x0 <= x <= x1,
    ensures
        box_sum(rgba, w, y0, y1, x0, x1, channel) == box_sum(rgba, w, y0, y1, x0, x, channel)
            + box_sum(rgba, w, y0, y1, x, x1, channel),
    decreases y1 - y0,
{
    if y0 < y1 {
        box_splits_by_columns(rgba, w, y0, y1 - 1, x0, x, x1, channel);
        row_splits(rgba, w, y1 - 1, x0, x, x1, channel);
    }
}

/// The sum over a box of bytes within bounds.
proof fn box_sum_is_bounded(
    rgba: Seq<u8>,
    w: int,
    y0: int,
    y1: int,
    x0: int,
    x1: int,
    channel: int,
    lo: int,
    hi: int,
)
    requires
        y0 <= y1,
        x0 <= x1,
        forall|y: int, x: int|
            y0 <= y < y1 && x0 <= x < x1 ==> lo <= #[trigger] rgba[4 * (y * w + x) + channel] <= hi,
    ensures
        lo * ((y1 - y0) * (x1 - x0)) <= box_sum(rgba, w, y0, y1, x0, x1, channel) <= hi * ((y1
            - y0) * (x1 - x0)),
    decreases y1 - y0,
{
    let n = x1 - x0;
    if y0 < y1 {
        box_sum_is_bounded(rgba, w, y0, y1 - 1, x0, x1, channel, lo, hi);
        row_sum_is_bounded(rgba, w, y1 - 1, x0, x1, channel, lo, hi);
        let m = y1 - 1 - y0;
        assert(lo * ((m + 1) * n) == lo * (m * n) + lo * n && hi * ((m + 1) * n) == hi * (m * n)
            + hi * n) by (nonlinear_arith);
    } else {
        assert(lo * (0 * n) == 0 && hi * (0 * n) == 0) by (nonlinear_arith);
    }
}

proof fn row_sum_is_bounded(
    rgba: Seq<u8>,
    w: int,
    y: int,
    x0: int,
    x1: int,
    channel: int,
    lo: int,
    hi: int,
)
    requires
        x0 <= x1,
        forall|x: int| x0 <= x < x1 ==> lo <= #[trigger] rgba[4 * (y * w + x) + channel] <= hi,
    ensures
        lo * (x1 - x0) <= row_sum(rgba, w, y, x0, x1, channel) <= hi * (x1 - x0),
    decreases x1 - x0,
{
    let n = x1 - x0;
    if x0 < x1 {
        row_sum_is_bounded(rgba, w, y, x0, x1 - 1, channel, lo, hi);
        assert(lo <= rgba[4 * (y * w + (x1 - 1)) + channel] <= hi);
        assert(4 * (y * w + (x1 - 1)) == (y * w + (x1 - 1)) * 4);
        assert(lo * n == lo * (n - 1) + lo && hi * n == hi * (n - 1) + hi) by (nonlinear_arith);
    } else {
        assert(lo * 0 == 0 && hi * 0 == 0);
    }
}

/// A preview pixel is the average of the pixels that lie behind it, channel by
/// channel and rounded down: column `dx` of `dw` stands for the source columns from
/// `dx w / dw` to `(dx + 1) w / dw`, but at least one, and rows likewise. So it lies
/// between the least and the largest of them.
pub proof fn preview_pixel_is_the_average_behind_it(
    rgba: &[u8],
    w: u32,
    h: u32,
    preview: Option<Preview>,
    size: (u32, u32),
    dx: int,
    dy: int,
    channel: int,
    lo: int,
    hi: int,
)
    requires
        call_ensures(build_preview, (rgba, w, h), preview),
        call_ensures(preview_dimensions, (w, h), size),
        w > 0,
        h > 0,
        rgba@.len() >= 4 * (w * h),
        0 <= dx < size.0,
        0 <= dy < size.1,
        0 <= channel < 4,
    ensures
        preview is Some,
        preview->0.width == size.0,
        preview->0.height == size.1,
        preview->0.rgba@.len() == 4 * (size.0 * size.1),
        ({
            let x0 = dx * w / size.0 as int;
            let y0 = dy * h / size.1 as int;
            let x2 = (dx + 1) * w / size.0 as int;
            let y2 = (dy + 1) * h / size.1 as int;
            let x1 = if x2 <= x0 {
                x0 + 1
            } else {
                x2
            };
            let y1 = if y2 <= y0 {
                y0 + 1
            } else {
                y2
            };
            let byte = preview->0.rgba@[4 * (dy * size.0 + dx) + channel] as int;
            let n = (y1 - y0) * (x1 - x0);
            let sum = box_sum(rgba@, w as int, y0, y1, x0, x1, channel);
            &&& 0 <= x0 < x1 <= w
            &&& 0 <= y0 < y1 <= h
            &&& byte * n <= sum < (byte + 1) * n
            &&& (forall|y: int, x: int|
                y0 <= y < y1 && x0 <= x < x1 ==> lo <= #[trigger] rgba@[4 * (y * w + x) + channel]
                    <= hi) ==> lo <= byte <= hi
        }),
{
    let (dw, dh) = (size.0 as int, size.1 as int);
    assert(w * h * 4 == 4 * (w * h));
    let view = preview_of(rgba@, w as int, h as int)->0;
    let p = preview->0;
    assert(view == p@);
    let at = dy * dw + dx;
    let i = 4 * at + channel;
    assert(0 <= at < dw * dh) by (nonlinear_arith)
        requires
            at == dy * dw + dx,
            0 <= dy < dh,
            0 <= dx < dw,
    ;
    lemma_fundamental_div_mod_converse(i, 4, at, channel);
    lemma_fundamental_div_mod_converse(at, dw, dy, dx);
    span_in_source(dx, dw, w as int);
    span_in_source(dy, dh, h as int);
    let (x0, x1) = (span_start(dx, dw, w as int), span_end(dx, dw, w as int));
    let (y0, y1) = (span_start(dy, dh, h as int), span_end(dy, dh, h as int));
    assert((dx + 1) * w / dw <= w && (dy + 1) * h / dh <= h) by (nonlinear_arith)
        requires
            0 <= dx < dw,
            0 <= dy < dh,
            w >= 0,
            h >= 0,
    ;
    assert((dx + 1) * w == dx * w + w && (dy + 1) * h == dy * h + h) by (nonlinear_arith);
    let n = (y1 - y0) * (x1 - x0);
    assert(n > 0) by (nonlinear_arith)
        requires
            n == (y1 - y0) * (x1 - x0),
            y1 > y0,
            x1 > x0,
    ;
    let sum = box_sum(rgba@, w as int, y0, y1, x0, x1, channel);
    let byte = p.rgba@[i] as int;
    box_sum_is_bounded(rgba@, w as int, y0, y1, x0, x1, channel, 0, 255);
    let q = sum / n;
    vstd::arithmetic::div_mod::lemma_fundamental_div_mod(sum, n);
    assert(0 <= q <= 255) by (nonlinear_arith)
        requires
            q == sum / n,
            0 <= sum <= 255 * n,
            n > 0,
    ;
    assert(byte == q);
    assert(byte * n <= sum < (byte + 1) * n) by (nonlinear_arith)
        requires
            sum == n * byte + sum % n,
            0 <= sum % n < n,
    ;
    if forall|y: int, x: int|
        y0 <= y < y1 && x0 <= x < x1 ==> lo <= #[trigger] rgba@[4 * (y * w + x) + channel] <= hi {
        box_sum_is_bounded(rgba@, w as int, y0, y1, x0, x1, channel, lo, hi);
        assert(lo <= byte <= hi) by (nonlinear_arith)
            requires
                lo * n <= sum <= hi * n,
                byte * n <= sum < (byte + 1) * n,
                n > 0,
        ;
    }
}

/// A picture that fits the budget is its own preview.
pub proof fn fitting_picture_is_its_own_preview(
    rgba: &[u8],
    w: u32,
    h: u32,
    preview: Option<Preview>,
    size: (u32, u32),
)
    requires
        call_ensures(build_preview, (rgba, w, h), preview),
        call_ensures(preview_dimensions, (w, h), size),
        0 < w <= 160,
        0 < h <= 192,
        rgba@.len() == 4 * (w * h),
    ensures
        size == (w, h),
        preview is Some,
        preview->0.width == w,
        preview->0.height == h,
        preview->0.rgba@ == rgba@,
{
    fitting_image_keeps_its_size(w as nat, h as nat);
    assert(w * h * 4 == 4 * (w * h));
    let p = preview->0;
    assert forall|i: int| 0 <= i < p.rgba@.len() implies p.rgba@[i] == rgba@[i] by {
        let at = i / 4;
        let c = i % 4;
        let dy = at / w as int;
        let dx = at % w as int;
        vstd::arithmetic::div_mod::lemma_fundamental_div_mod(at, w as int);
        assert(0 <= at < w * h);
        assert(0 <= dy < h) by (nonlinear_arith)
            requires
                at == w * dy + dx,
                0 <= dx < w,
                0 <= at < w * h,
                w > 0,
        ;
        assert(dy * w + dx == at) by (nonlinear_arith)
            requires
                at == w * dy + dx,
        ;
        let b = rgba@[i] as int;
        assert(dx * w / w as int == dx && (dx + 1) * w / w as int == dx + 1 && dy * h / h as int
            == dy && (dy + 1) * h / h as int == dy + 1) by {
            vstd::arithmetic::div_mod::lemma_div_by_multiple(dx, w as int);
            vstd::arithmetic::div_mod::lemma_div_by_multiple(dx + 1, w as int);
            vstd::arithmetic::div_mod::lemma_div_by_multiple(dy, h as int);
            vstd::arithmetic::div_mod::lemma_div_by_multiple(dy + 1, h as int);
        }
        assert forall|y: int, x: int| dy <= y < dy + 1 && dx <= x < dx + 1 implies b
            <= #[trigger] rgba@[4 * (y * w + x) + c] <= b by {
            assert(4 * (y * w + x) + c == i);
        }
        preview_pixel_is_the_average_behind_it(rgba, w, h, preview, size, dx, dy, c, b, b);
        assert(p.rgba@[4 * (dy * w + dx) + c] == b);
    }
    assert(p.rgba@.len() == rgba@.len());
    assert(p.rgba@ =~= rgba@);
}

/// There is no preview of an empty picture or of one that is too short.
pub proof fn broken_picture_has_no_preview(
    rgba: &[u8],
    w: u32,
    h: u32,
    preview: Option<Preview>,
)
    requires
        call_ensures(build_preview, (rgba, w, h), preview),
    ensures
        w == 0 || h == 0 || rgba@.len() < 4 * (w * h) <==> preview is None,
{
    assert(w * h * 4 == 4 * (w * h));
}

/// There is one cell for each row and column, row by row. Its upper half shows a
/// pixel of the preview and its lower half one in the same column that lies half a
/// cell below: column `col` of `cols` is that of the pixel whose share of the width
/// it lies in, and the halves are those of the height.
pub proof fn cells_show_the_pixels_behind_their_halves(
    preview: &Preview,
    rows: u16,
    cols: u16,
    cells: Vec<HalfblockCell>,
    row: int,
    col: int,
)
    requires
        call_ensures(halfblock_cells, (preview, rows, cols), cells),
        preview.wf(),
        preview.width > 0,
        preview.height > 0,
        0 <= row < rows,
        0 <= col < cols,
    ensures
        cells@.len() == rows * cols,
        0 <= row * cols + col < cells@.len(),
        ({
            let (w, h) = (preview.width as int, preview.height as int);
            let cell = cells@[row * cols + col];
            let x = col * w / cols as int;
            let top = 2 * row * h / (2 * rows);
            let bottom = (2 * row + 1) * h / (2 * rows);
            let (p, q) = (4 * (top * w + x), 4 * (bottom * w + x));
            &&& 0 <= x < w && 0 <= top <= bottom < h
            &&& cell.row_offset == row && cell.col_offset == col
            &&& cell.fg == (Rgba {
                r: preview.rgba@[p],
                g: preview.rgba@[p + 1],
                b: preview.rgba@[p + 2],
                a: preview.rgba@[p + 3],
            })
            &&& cell.bg == (Rgba {
                r: preview.rgba@[q],
                g: preview.rgba@[q + 1],
                b: preview.rgba@[q + 2],
                a: preview.rgba@[q + 3],
            })
        }),
{
    let (w, h) = (preview.width as int, preview.height as int);
    let k = row * cols + col;
    assert(0 <= k < rows * cols) by (nonlinear_arith)
        requires
            k == row * cols + col,
            0 <= row < rows,
            0 <= col < cols,
    ;
    lemma_fundamental_div_mod_converse(k, cols as int, row, col);
    let x = col * w / cols as int;
    let top = 2 * row * h / (2 * rows);
    let bottom = (2 * row + 1) * h / (2 * rows);
    share_is_inside(col, cols as int, w);
    share_is_inside(2 * row, 2 * rows, h);
    share_is_inside(2 * row + 1, 2 * rows, h);
    assert(2 * row * h <= (2 * row + 1) * h) by (nonlinear_arith)
        requires
            h > 0,
    ;
    vstd::arithmetic::div_mod::lemma_div_is_ordered(2 * row * h, (2 * row + 1) * h, 2 * rows);
    assert((top * w + x) * 4 == 4 * (top * w + x) && (bottom * w + x) * 4 == 4 * (bottom * w + x));
}

proof fn share_is_inside(step: int, steps: int, size: int)
    requires
        0 <= step < steps,
        size > 0,
    ensures
        0 <= step * size / steps < size,
        nearest_pixel(step, steps, size) == step * size / steps,
{
    let q = step * size / steps;
    assert(0 <= q < size) by (nonlinear_arith)
        requires
            q == step * size / steps,
            0 <= step < steps,
            size > 0,
    ;
}

/// An empty preview has no cells.
pub proof fn empty_preview_has_no_cells(
    preview: &Preview,
    rows: u16,
    cols: u16,
    cells: Vec<HalfblockCell>,
)
    requires
        call_ensures(halfblock_cells, (preview, rows, cols), cells),
        preview.width == 0 || preview.height == 0 || rows == 0 || cols == 0,
    ensures
        cells@.len() == 0,
{
    assert(rows == 0 || cols == 0 ==> rows * cols == 0) by (nonlinear_arith);
}

/// A picture of up to 160 by 192 pixels is previewed at its size. A larger one is
/// 160 pixels wide or 192 high, is nowhere larger than the picture, and its other
/// side is the picture's in proportion, to the nearest pixel or a hundredth more,
/// and one pixel at least.
pub proof fn preview_fits_its_budget(w: u32, h: u32, size: (u32, u32))
    requires
        call_ensures(preview_dimensions, (w, h), size),
        w > 0,
        h > 0,
    ensures
        1 <= size.0 <= 160 && 1 <= size.1 <= 192,
        w <= 160 && h <= 192 ==> size == (w, h),
        w > 160 || h > 192 ==> {
            let (dw, dh) = (size.0 as int, size.1 as int);
            let across = 100 * (dh * w) - 100 * (160 * h);
            let down = 100 * (dw * h) - 100 * (192 * w);
            &&& dw <= w && dh <= h
            &&& {
                ||| dw == 160 && -51 * w <= across && (across <= 51 * w || (dh == 1 && 100 * (160
                    * h) <= 51 * w))
                ||| dh == 192 && -51 * h <= down && (down <= 51 * h || (dw == 1 && 100 * (192 * w)
                    <= 51 * h))
            }
        },
{
    if w <= 160 && h <= 192 {
        fitting_image_keeps_its_size(w as nat, h as nat);
    } else {
        large_image_fills_one_side_in_proportion(w as nat, h as nat);
        let (dw, dh) = (size.0 as int, size.1 as int);
        if dh == 1 {
            assert(dh * w == w) by (nonlinear_arith)
                requires
                    dh == 1,
            ;
        }
        if dw == 1 {
            assert(dw * h == h) by (nonlinear_arith)
                requires
                    dw == 1,
            ;
        }
    }
}

} // verus!
