//! Laying the pixels of one animation frame over another.

use vstd::arithmetic::div_mod::lemma_fundamental_div_mod_converse;
use vstd::prelude::*;

verus! {

/// One channel of a source over a destination, with straight alpha `sa` and
/// rounding half up.
pub open spec fn over(s: int, d: int, sa: int) -> int {
    (s * sa + d * (255 - sa) + 127) / 255
}

/// Where the source pixel for row `row` and column `col` of the destination
/// starts, if the source placed at `(dx, dy)` covers that pixel.
pub open spec fn source_offset(
    dst_w: int,
    dst_h: int,
    src_w: int,
    src_h: int,
    dx: int,
    dy: int,
    row: int,
    col: int,
) -> Option<int> {
    if row < dst_h && dy <= row < dy + src_h && dx <= col < dx + src_w {
        Some(((row - dy) * src_w + (col - dx)) * 4)
    } else {
        None
    }
}

/// Byte `i` of the composition. Pixels that the source covers are the source
/// over the destination; every other byte is the destination's own.
pub open spec fn composed_byte(
    dst: Seq<u8>,
    dst_w: int,
    dst_h: int,
    src: Seq<u8>,
    src_w: int,
    src_h: int,
    dx: int,
    dy: int,
    i: int,
) -> u8 {
    let row = (i / 4) / dst_w;
    let col = (i / 4) % dst_w;
    let channel = i % 4;
    if dst_w == 0 {
        dst[i]
    } else {
        match source_offset(dst_w, dst_h, src_w, src_h, dx, dy, row, col) {
            Some(s) => {
                // Alpha itself composes as if the source channel were opaque.
                let value = if channel == 3 {
                    255
                } else {
                    src[s + channel] as int
                };
                over(value, dst[i] as int, src[s + 3] as int) as u8
            },
            None => dst[i],
        }
    }
}

/// The source laid over a copy of the destination at `(dx, dy)`, clipped at
/// the destination's edges. A source shorter than its declared size leaves the
/// destination as it is.
pub open spec fn composed(
    dst: Seq<u8>,
    dst_w: int,
    dst_h: int,
    src: Seq<u8>,
    src_w: int,
    src_h: int,
    dx: int,
    dy: int,
) -> Seq<u8> {
    if src.len() < src_w * src_h * 4 {
        dst
    } else {
        Seq::new(
            dst.len(),
            |i: int| composed_byte(dst, dst_w, dst_h, src, src_w, src_h, dx, dy, i),
        )
    }
}

/// Source-over of two channel bytes.
fn over_byte(s: u8, d: u8, sa: u8) -> (out: u8)
    ensures
        out == over(s as int, d as int, sa as int),
{
    let s: u32 = s as u32;
    let d: u32 = d as u32;
    let a: u32 = sa as u32;
    proof {
        assert(s * a <= 255 * a) by (nonlinear_arith)
            requires
                s <= 255,
        ;
        assert(d * (255 - a) <= 255 * (255 - a)) by (nonlinear_arith)
            requires
                d <= 255,
                a <= 255,
        ;
        assert(0 <= s * a) by (nonlinear_arith);
        assert(0 <= d * (255 - a)) by (nonlinear_arith)
            requires
                a <= 255,
        ;
    }
    ((s * a + d * (255 - a) + 127) / 255) as u8
}

/// Alpha-blends `src` (`src_w` by `src_h` RGBA pixels) onto a copy of `dst`
/// (`dst_w` by `dst_h`) with its top left corner at `(dx, dy)`.
pub fn composite_rgba(
    dst: &[u8],
    dst_w: u32,
    dst_h: u32,
    src: &[u8],
    src_w: u32,
    src_h: u32,
    dx: u32,
    dy: u32,
) -> (out: Vec<u8>)
    ensures
        out@ == composed(
            dst@,
            dst_w as int,
            dst_h as int,
            src@,
            src_w as int,
            src_h as int,
            dx as int,
            dy as int,
        ),
{
    proof {
        assert(0 <= src_w * src_h <= 0xffff_ffff * 0xffff_ffff) by (nonlinear_arith)
            requires
                0 <= src_w <= 0xffff_ffff,
                0 <= src_h <= 0xffff_ffff,
        ;
    }
    let declared: u128 = (src_w as u128) * (src_h as u128) * 4;
    let short = (src.len() as u128) < declared;
    let mut out: Vec<u8> = Vec::with_capacity(dst.len());
    // `i` is the byte, `(row, col)` its pixel and `channel` its place there.
    let mut i: usize = 0;
    let mut row: usize = 0;
    let mut col: usize = 0;
    let mut channel: usize = 0;
    while i < dst.len()
        invariant
            i <= dst@.len(),
            out@.len() == i,
            short == (src@.len() < src_w * src_h * 4),
            src@.len() <= usize::MAX,
            channel < 4,
            dst_w > 0 ==> col < dst_w,
            dst_w > 0 ==> i == (row * dst_w + col) * 4 + channel,
            dst_w == 0 ==> row == 0 && col == 0 && channel == 0,
            forall|k: int|
                0 <= k < i ==> #[trigger] out@[k] == composed(
                    dst@,
                    dst_w as int,
                    dst_h as int,
                    src@,
                    src_w as int,
                    src_h as int,
                    dx as int,
                    dy as int,
                )[k],
        decreases dst@.len() - i,
    {
        let mut byte: u8 = dst[i];
        if !short && dst_w > 0 {
            proof {
                lemma_fundamental_div_mod_converse(
                    i as int,
                    4,
                    row * dst_w + col,
                    channel as int,
                );
                lemma_fundamental_div_mod_converse(
                    row * dst_w + col,
                    dst_w as int,
                    row as int,
                    col as int,
                );
            }
            let r: u64 = row as u64;
            let c: u64 = col as u64;
            if r < dst_h as u64 && r >= dy as u64 && r < dy as u64 + src_h as u64 && c >= dx as u64
                && c < dx as u64 + src_w as u64 {
                let sr: usize = row - dy as usize;
                let sc: usize = col - dx as usize;
                let sw: usize = src_w as usize;
                proof {
                    assert(0 <= sr * sw && (sr * sw + sc) * 4 + 4 <= sw * src_h * 4)
                        by (nonlinear_arith)
                        requires
                            0 <= sr < src_h,
                            0 <= sc < sw,
                    ;
                }
                let s: usize = (sr * sw + sc) * 4;
                let value: u8 = if channel == 3 {
                    255
                } else {
                    src[s + channel]
                };
                byte = over_byte(value, byte, src[s + 3]);
            }
        }
        out.push(byte);
        proof {
            assert(i + 1 == (row * dst_w + col) * 4 + channel + 1 || dst_w == 0);
            assert(row * dst_w + dst_w == (row + 1) * dst_w) by (nonlinear_arith);
            assert(row <= row * dst_w || dst_w == 0) by (nonlinear_arith)
                requires
                    dst_w >= 0,
                    row >= 0,
            ;
        }
        i = i + 1;
        if dst_w > 0 {
            if channel < 3 {
                channel = channel + 1;
            } else {
                channel = 0;
                if col + 1 < dst_w as usize {
                    col = col + 1;
                } else {
                    col = 0;
                    row = row + 1;
                }
            }
        }
    }
    assert(out@ =~= composed(
        dst@,
        dst_w as int,
        dst_h as int,
        src@,
        src_w as int,
        src_h as int,
        dx as int,
        dy as int,
    ));
    out
}

/// An opaque source pixel replaces the destination's, and a fully transparent
/// one leaves it as it is.
pub proof fn over_extremes(s: u8, d: u8)
    ensures
        over(s as int, d as int, 255) == s,
        over(s as int, d as int, 0) == d,
{
    assert(s * 0 == 0 && d * (255 - 0) == 255 * d);
    assert(s * 255 == 255 * s && d * (255 - 255) == 0);
}

/// Source-over of bytes is a byte again.
pub proof fn over_in_range(s: u8, d: u8, sa: u8)
    ensures
        0 <= over(s as int, d as int, sa as int) <= 255,
{
    assert(0 <= s * sa <= 255 * sa) by (nonlinear_arith)
        requires
            0 <= s <= 255,
            0 <= sa,
    ;
    assert(0 <= d * (255 - sa) <= 255 * (255 - sa)) by (nonlinear_arith)
        requires
            0 <= d <= 255,
            sa <= 255,
    ;
}

/// Composing never changes the size of the destination.
pub proof fn composing_keeps_size(
    dst: Seq<u8>,
    dst_w: int,
    dst_h: int,
    src: Seq<u8>,
    src_w: int,
    src_h: int,
    dx: int,
    dy: int,
)
    ensures
        composed(dst, dst_w, dst_h, src, src_w, src_h, dx, dy).len() == dst.len(),
{
}

/// A pixel of the destination that the source covers is the source's pixel over
/// its own: the pixel `(sx, sy)` of the source lands `sx` to the right and `sy`
/// below `(dx, dy)`. A colour is mixed by the source's alpha, rounded to the
/// nearest; alpha adds to what is there. So an opaque pixel comes out as it is,
/// and a fully transparent one leaves the destination's.
pub proof fn covered_pixel_is_source_over_destination(
    dst: &[u8],
    dst_w: u32,
    dst_h: u32,
    src: &[u8],
    src_w: u32,
    src_h: u32,
    dx: u32,
    dy: u32,
    out: Vec<u8>,
    sx: int,
    sy: int,
)
    requires
        call_ensures(composite_rgba, (dst, dst_w, dst_h, src, src_w, src_h, dx, dy), out),
        src@.len() >= 4 * (src_w * src_h),
        dst@.len() == 4 * (dst_w * dst_h),
        0 <= sx < src_w,
        0 <= sy < src_h,
        dx + sx < dst_w,
        dy + sy < dst_h,
    ensures
        ({
            let d = 4 * ((dy + sy) * dst_w + (dx + sx));
            let s = 4 * (sy * src_w + sx);
            let alpha = src@[s + 3] as int;
            &&& out@.len() == dst@.len()
            &&& 0 <= d && d + 4 <= out@.len()
            &&& 0 <= s && s + 4 <= src@.len()
            &&& forall|c: int|
                0 <= c < 3 ==> #[trigger] out@[d + c] == (src@[s + c] * alpha + dst@[d + c] * (255
                    - alpha) + 127) / 255
            &&& out@[d + 3] == (255 * alpha + dst@[d + 3] * (255 - alpha) + 127) / 255
            &&& alpha == 255 ==> forall|c: int|
                0 <= c < 4 ==> #[trigger] out@[d + c] == src@[s + c]
            &&& alpha == 0 ==> forall|c: int| 0 <= c < 4 ==> #[trigger] out@[d + c] == dst@[d + c]
        }),
{
    let (row, col) = (dy + sy, dx + sx);
    let p = row * dst_w + col;
    let q = sy * src_w + sx;
    assert(0 <= p < dst_w * dst_h) by (nonlinear_arith)
        requires
            p == row * dst_w + col,
            0 <= row < dst_h,
            0 <= col < dst_w,
    ;
    assert(0 <= q < src_w * src_h) by (nonlinear_arith)
        requires
            q == sy * src_w + sx,
            0 <= sy < src_h,
            0 <= sx < src_w,
    ;
    let d = 4 * p;
    let s = 4 * q;
    assert forall|c: int| 0 <= c < 4 implies #[trigger] out@[d + c] == composed_byte(
        dst@,
        dst_w as int,
        dst_h as int,
        src@,
        src_w as int,
        src_h as int,
        dx as int,
        dy as int,
        d + c,
    ) by {}
    assert forall|c: int| 0 <= c < 4 implies #[trigger] out@[d + c] == over(
        if c == 3 {
            255
        } else {
            src@[s + c] as int
        },
        dst@[d + c] as int,
        src@[s + 3] as int,
    ) by {
        lemma_fundamental_div_mod_converse(d + c, 4, p, c);
        lemma_fundamental_div_mod_converse(p, dst_w as int, row, col);
        over_in_range(255, dst@[d + c], src@[s + 3]);
        over_in_range(src@[s + c], dst@[d + c], src@[s + 3]);
        assert(source_offset(
            dst_w as int,
            dst_h as int,
            src_w as int,
            src_h as int,
            dx as int,
            dy as int,
            row,
            col,
        ) == Some(s));
    }
    assert forall|c: int| 0 <= c < 4 implies over(src@[s + c] as int, dst@[d + c] as int, 255)
        == src@[s + c] && over(src@[s + c] as int, dst@[d + c] as int, 0) == #[trigger] dst@[d + c]
        && over(255, dst@[d + c] as int, 0) == dst@[d + c] by {
        over_extremes(src@[s + c], dst@[d + c]);
        over_extremes(255, dst@[d + c]);
    }
}

/// A pixel of the destination that the source does not cover stays as it is, and
/// so does all of it where the source is shorter than its declared size.
pub proof fn uncovered_pixel_stays(
    dst: &[u8],
    dst_w: u32,
    dst_h: u32,
    src: &[u8],
    src_w: u32,
    src_h: u32,
    dx: u32,
    dy: u32,
    out: Vec<u8>,
    row: int,
    col: int,
    c: int,
)
    requires
        call_ensures(composite_rgba, (dst, dst_w, dst_h, src, src_w, src_h, dx, dy), out),
        dst@.len() == 4 * (dst_w * dst_h),
        0 <= row < dst_h,
        0 <= col < dst_w,
        0 <= c < 4,
        src@.len() < 4 * (src_w * src_h) || row < dy || row >= dy + src_h || col < dx || col >= dx
            + src_w,
    ensures
        ({
            let d = 4 * (row * dst_w + col) + c;
            0 <= d < dst@.len() && out@.len() == dst@.len() && out@[d] == dst@[d]
        }),
{
    let p = row * dst_w + col;
    assert(0 <= p < dst_w * dst_h) by (nonlinear_arith)
        requires
            p == row * dst_w + col,
            0 <= row < dst_h,
            0 <= col < dst_w,
    ;
    lemma_fundamental_div_mod_converse(4 * p + c, 4, p, c);
    lemma_fundamental_div_mod_converse(p, dst_w as int, row, col);
}

/// An opaque source of the destination's size at its corner comes out as it is.
pub proof fn opaque_picture_replaces_all(
    dst: &[u8],
    w: u32,
    h: u32,
    src: &[u8],
    out: Vec<u8>,
)
    requires
        call_ensures(composite_rgba, (dst, w, h, src, w, h, 0, 0), out),
        src@.len() == 4 * (w * h),
        dst@.len() == 4 * (w * h),
        forall|p: int| 0 <= p < w * h ==> #[trigger] src@[4 * p + 3] == 255,
    ensures
        out@ == src@,
{
    assert forall|i: int| 0 <= i < out@.len() implies out@[i] == src@[i] by {
        let p = i / 4;
        let c = i % 4;
        let row = p / w as int;
        let col = p % w as int;
        assert(0 <= p < w * h);
        assert(w > 0) by (nonlinear_arith)
            requires
                0 <= p < w * h,
        ;
        vstd::arithmetic::div_mod::lemma_fundamental_div_mod(p, w as int);
        assert(0 <= row < h) by (nonlinear_arith)
            requires
                p == w * row + col,
                0 <= col < w,
                0 <= p < w * h,
                w > 0,
        ;
        assert(row * w + col == p) by (nonlinear_arith)
            requires
                p == w * row + col,
        ;
        assert(src@[4 * p + 3] == 255);
        covered_pixel_is_source_over_destination(dst, w, h, src, w, h, 0, 0, out, col, row);
        assert(out@[4 * p + c] == src@[4 * p + c]);
    }
    assert(out@ =~= src@);
}

} // verus!
