//! Alpha-blended rendering of one rectangle onto a buffer.
use vstd::prelude::*;
use vstd::arithmetic::div_mod::lemma_fundamental_div_mod_converse;
use crate::buffer::{PixelBuffer, Raster};

verus! {

/// Blend weights are given in thousandths: `ALPHA_SCALE` is fully opaque.
pub const ALPHA_SCALE: u32 = 1000;

/// An axis-aligned rectangle given by two opposite corners, in any order,
/// and a fill intensity.
#[derive(Clone, Copy, Debug, PartialEq, Eq, Structural)]
pub struct Shape {
    pub x1: i32,
    pub y1: i32,
    pub x2: i32,
    pub y2: i32,
    pub color: i32,
}

pub open spec fn min_int(a: int, b: int) -> int {
    if a <= b { a } else { b }
}

pub open spec fn max_int(a: int, b: int) -> int {
    if a <= b { b } else { a }
}

pub open spec fn clamp_int(v: int, lo: int, hi: int) -> int {
    if v < lo { lo } else if v > hi { hi } else { v }
}

/// Whether the rectangle of `s`, corners included, holds the point `(x, y)`.
pub open spec fn covers(s: Shape, x: int, y: int) -> bool {
    &&& min_int(s.x1 as int, s.x2 as int) <= x <= max_int(s.x1 as int, s.x2 as int)
    &&& min_int(s.y1 as int, s.y2 as int) <= y <= max_int(s.y1 as int, s.y2 as int)
}

/// The blended intensity `color * alpha + old * (1 - alpha)`, with `alpha`
/// in thousandths, rounded down and saturated to the range of a sample.
pub open spec fn blend_value(old: int, color: int, alpha: int) -> int {
    clamp_int(
        (color * alpha + old * (ALPHA_SCALE - alpha)) / (ALPHA_SCALE as int),
        0,
        255,
    )
}

/// `base` with the rectangle of `s` blended in. A pixel changes only if it
/// lies in the rectangle clamped to the canvas; whatever lies outside the
/// canvas is dropped.
pub open spec fn rendered(s: Shape, base: Raster, alpha: int) -> Raster {
    Raster {
        width: base.width,
        height: base.height,
        samples: Seq::new(
            base.samples.len(),
            |i: int|
                if covers(s, base.col(i), base.row(i)) {
                    blend_value(base.samples[i] as int, s.color as int, alpha) as u8
                } else {
                    base.samples[i]
                },
        ),
    }
}

/// With full weight, every covered pixel takes the shape's intensity and
/// every other pixel keeps its value.
pub proof fn lemma_opaque_draw(s: Shape, base: Raster)
    requires
        0 <= s.color <= 255,
    ensures
        rendered(s, base, ALPHA_SCALE as int).samples.len() == base.samples.len(),
        forall|i: int|
            0 <= i < base.samples.len() ==> #[trigger] rendered(s, base, ALPHA_SCALE as int).samples[i] == if covers(
                s,
                base.col(i),
                base.row(i),
            ) {
                s.color as u8
            } else {
                base.samples[i]
            },
{
    assert forall|i: int| 0 <= i < base.samples.len() implies #[trigger] rendered(
        s,
        base,
        ALPHA_SCALE as int,
    ).samples[i] == if covers(s, base.col(i), base.row(i)) {
        s.color as u8
    } else {
        base.samples[i]
    } by {
        let old = base.samples[i] as int;
        assert(s.color * 1000 + old * 0 == s.color * 1000);
        assert((s.color * 1000) / 1000 == s.color as int) by (nonlinear_arith);
    }
}

/// With zero weight, drawing leaves every pixel as it was.
pub proof fn lemma_transparent_draw(s: Shape, base: Raster)
    ensures
        rendered(s, base, 0) == base,
{
    assert forall|i: int| 0 <= i < base.samples.len() implies #[trigger] rendered(s, base, 0).samples[i]
        == base.samples[i] by {
        let old = base.samples[i] as int;
        assert((s.color * 0 + old * 1000) / 1000 == old) by (nonlinear_arith);
    }
    assert(rendered(s, base, 0).samples =~= base.samples);
}

/// Drawing changes only pixels of the rectangle clamped to the canvas; a
/// rectangle that lies wholly off the canvas changes nothing.
pub proof fn lemma_draw_stays_on_canvas(s: Shape, base: Raster, alpha: int)
    requires
        base.wf(),
    ensures
        rendered(s, base, alpha).samples.len() == base.samples.len(),
        forall|i: int|
            0 <= i < base.samples.len() && #[trigger] rendered(s, base, alpha).samples[i] != base.samples[i]
                ==> {
                &&& covers(s, base.col(i), base.row(i))
                &&& 0 <= base.col(i) < base.width
                &&& 0 <= base.row(i) < base.height
            },
        (max_int(s.x1 as int, s.x2 as int) < 0 || min_int(s.x1 as int, s.x2 as int) >= base.width || max_int(
            s.y1 as int,
            s.y2 as int,
        ) < 0 || min_int(s.y1 as int, s.y2 as int) >= base.height) ==> rendered(s, base, alpha) == base,
{
    assert forall|i: int| 0 <= i < base.samples.len() implies 0 <= base.col(i) < base.width && 0 <= base.row(
        i,
    ) < base.height && #[trigger] base.samples[i] == base.samples[i] by {
        let w = base.width as int;
        let h = base.height as int;
        assert(w > 0) by (nonlinear_arith)
            requires
                0 <= i < w * h,
                h >= 0,
        ;
        assert(0 <= i % w < w && 0 <= i / w < h) by (nonlinear_arith)
            requires
                0 <= i < w * h,
                w > 0,
        ;
    }
    if max_int(s.x1 as int, s.x2 as int) < 0 || min_int(s.x1 as int, s.x2 as int) >= base.width || max_int(
        s.y1 as int,
        s.y2 as int,
    ) < 0 || min_int(s.y1 as int, s.y2 as int) >= base.height {
        assert(rendered(s, base, alpha).samples =~= base.samples);
    }
}

/// Rendering is a function of the shape, the base and the weight alone: two
/// renderings of one shape onto one base agree.
pub proof fn lemma_render_is_pure(s: Shape, base: Raster, alpha: int, r1: Raster, r2: Raster)
    requires
        r1 == rendered(s, base, alpha),
        r2 == rendered(s, base, alpha),
    ensures
        r1 == r2,
{
}

/// Drawing an opaque shape over its own rendering changes nothing more.
pub proof fn lemma_opaque_redraw(s: Shape, base: Raster)
    requires
        0 <= s.color <= 255,
    ensures
        rendered(s, rendered(s, base, ALPHA_SCALE as int), ALPHA_SCALE as int) == rendered(
            s,
            base,
            ALPHA_SCALE as int,
        ),
{
    let once = rendered(s, base, ALPHA_SCALE as int);
    lemma_opaque_draw(s, base);
    lemma_opaque_draw(s, once);
    assert(rendered(s, once, ALPHA_SCALE as int).samples =~= once.samples);
}

/// Blends `color` over `old` with weight `alpha` (in thousandths).
pub fn blend(old: u8, color: i32, alpha: u32) -> (v: u8)
    requires
        alpha <= ALPHA_SCALE,
    ensures
        v as int == blend_value(old as int, color as int, alpha as int),
{
    proof {
        assert(-2147483648 * 1000 <= color * alpha <= 2147483647 * 1000) by (nonlinear_arith)
            requires
                alpha <= 1000,
        ;
        assert(0 <= old * (1000 - alpha) <= 255 * 1000) by (nonlinear_arith)
            requires
                alpha <= 1000,
        ;
    }
    let num: i64 = color as i64 * alpha as i64 + old as i64 * (ALPHA_SCALE - alpha) as i64;
    if num < 0 {
        proof {
            assert(num / 1000 < 0) by (nonlinear_arith)
                requires
                    num < 0,
            ;
        }
        0
    } else {
        let q: i64 = num / (ALPHA_SCALE as i64);
        if q > 255 {
            255
        } else {
            q as u8
        }
    }
}

/// Renders `shape` onto a copy of `base` with blend weight `alpha`.
pub fn draw(shape: Shape, base: &PixelBuffer, alpha: u32) -> (r: PixelBuffer)
    requires
        base.wf(),
        alpha <= ALPHA_SCALE,
    ensures
        r.wf(),
        r@ == rendered(shape, base@, alpha as int),
{
    let width: u32 = base.width();
    let height: u32 = base.height();
    let src = base.samples();
    let min_x: i64 = if shape.x1 <= shape.x2 { shape.x1 as i64 } else { shape.x2 as i64 };
    let max_x: i64 = if shape.x1 <= shape.x2 { shape.x2 as i64 } else { shape.x1 as i64 };
    let min_y: i64 = if shape.y1 <= shape.y2 { shape.y1 as i64 } else { shape.y2 as i64 };
    let max_y: i64 = if shape.y1 <= shape.y2 { shape.y2 as i64 } else { shape.y1 as i64 };
    let ghost expected = rendered(shape, base@, alpha as int);
    let mut out: Vec<u8> = Vec::with_capacity(src.len());
    let mut y: u32 = 0;
    while y < height
        invariant
            base.wf(),
            src@ == base@.samples,
            width == base@.width,
            height == base@.height,
            y <= height,
            out@.len() == y * width,
            src@.len() == width * height,
            expected == rendered(shape, base@, alpha as int),
            alpha <= ALPHA_SCALE,
            forall|j: int| 0 <= j < out@.len() ==> #[trigger] out@[j] == expected.samples[j],
            min_x == min_int(shape.x1 as int, shape.x2 as int),
            max_x == max_int(shape.x1 as int, shape.x2 as int),
            min_y == min_int(shape.y1 as int, shape.y2 as int),
            max_y == max_int(shape.y1 as int, shape.y2 as int),
        decreases height - y,
    {
        let mut x: u32 = 0;
        let in_rows: bool = min_y <= y as i64 && y as i64 <= max_y;
        proof {
            assert(y * width + width <= width * height) by (nonlinear_arith)
                requires
                    y < height,
            ;
            assert((y + 1) * width == y * width + width) by (nonlinear_arith);
        }
        while x < width
            invariant
                base.wf(),
                src@ == base@.samples,
                width == base@.width,
                height == base@.height,
                y < height,
                x <= width,
                out@.len() == y * width + x,
                y * width + width <= width * height,
                src@.len() == width * height,
                expected == rendered(shape, base@, alpha as int),
                alpha <= ALPHA_SCALE,
                forall|j: int| 0 <= j < out@.len() ==> #[trigger] out@[j] == expected.samples[j],
                in_rows == (min_y <= y && y <= max_y),
                min_x == min_int(shape.x1 as int, shape.x2 as int),
                max_x == max_int(shape.x1 as int, shape.x2 as int),
                min_y == min_int(shape.y1 as int, shape.y2 as int),
                max_y == max_int(shape.y1 as int, shape.y2 as int),
            decreases width - x,
        {
            let i: usize = out.len();
            proof {
                lemma_fundamental_div_mod_converse(i as int, width as int, y as int, x as int);
            }
            assert(i < src@.len());
            assert(expected.samples[i as int] == if covers(shape, x as int, y as int) {
                blend_value(src@[i as int] as int, shape.color as int, alpha as int) as u8
            } else {
                src@[i as int]
            });
            let old: u8 = src[i];
            if in_rows && min_x <= x as i64 && x as i64 <= max_x {
                out.push(blend(old, shape.color, alpha));
            } else {
                out.push(old);
            }
            x = x + 1;
        }
        y = y + 1;
    }
    assert(out@.len() == src@.len()) by {
        assert(height * width == width * height) by (nonlinear_arith);
    }
    let r = base.with_samples(out);
    assert(r@.samples =~= expected.samples);
    r
}

} // verus!
