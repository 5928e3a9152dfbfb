//! Places shapes one after another, keeping each only if it does not raise
//! the error of the canvas.
use vstd::prelude::*;
use rand::Rng;
use rand::rngs::StdRng;
use crate::buffer::{mean_of, ApproxError, PixelBuffer, Raster};
use crate::raster::{draw, rendered, Shape};
use crate::score::{squared_error, sse};
use crate::search::{optimize, search, SearchConfig};

verus! {

#[verifier::external_type_specification]
#[verifier::external_body]
pub struct ExStdRng(StdRng);

/// Relies on rand's `Rng::gen_range` over an exclusive range: it returns a
/// value in `[low, high)`, and panics on an empty range, which `requires`
/// leaves out.
#[verifier::external_body]
fn random_in_range(rng: &mut StdRng, low: i32, high: i32) -> (r: i32)
    requires
        low < high,
    ensures
        low <= r < high,
{
    rng.gen_range(low..high)
}

/// Whether both corners of `s` lie on a `width` by `height` canvas and its
/// intensity is a valid sample.
pub open spec fn shape_on_canvas(s: Shape, width: int, height: int) -> bool {
    &&& 0 <= s.x1 < width
    &&& 0 <= s.x2 < width
    &&& 0 <= s.y1 < height
    &&& 0 <= s.y2 < height
    &&& 0 <= s.color <= 255
}

/// A random starting shape with both corners on the canvas.
pub fn random_shape(rng: &mut StdRng, width: u32, height: u32) -> (s: Shape)
    requires
        width >= 1,
        height >= 1,
    ensures
        shape_on_canvas(s, width as int, height as int),
{
    let w: i32 = if width > i32::MAX as u32 { i32::MAX } else { width as i32 };
    let h: i32 = if height > i32::MAX as u32 { i32::MAX } else { height as i32 };
    let x1 = random_in_range(rng, 0, w);
    let y1 = random_in_range(rng, 0, h);
    let x2 = random_in_range(rng, 0, w);
    let y2 = random_in_range(rng, 0, h);
    let color = random_in_range(rng, 0, 256);
    Shape { x1, y1, x2, y2, color }
}

/// The canvas after one placement from `start`: the optimized shape rendered
/// onto `canvas` if that does not raise the error, else `canvas` itself.
pub open spec fn placed(canvas: Raster, target: Raster, c: SearchConfig, start: Shape) -> Raster {
    let best = search(canvas, target, c, start, c.initial_steps@, c.round_cap as int, 0).0;
    let candidate = rendered(best, canvas, c.alpha as int);
    if sse(candidate.samples, target.samples) <= sse(canvas.samples, target.samples) {
        candidate
    } else {
        canvas
    }
}

/// Optimizes a shape from `start` and composites it onto a copy of
/// `canvas` when that does not raise the error against `target`.
pub fn add_best_shape(canvas: &PixelBuffer, target: &PixelBuffer, start: Shape, c: &SearchConfig) -> (r: Result<
    PixelBuffer,
    ApproxError,
>)
    requires
        canvas.wf(),
        target.wf(),
        c.wf(),
    ensures
        canvas@.same_dims(target@) <==> r is Ok,
        r matches Err(e) ==> e == ApproxError::DimensionMismatch,
        r matches Ok(b) ==> {
            &&& b.wf()
            &&& b@ == placed(canvas@, target@, *c, start)
            &&& sse(b@.samples, target@.samples) <= sse(canvas@.samples, target@.samples)
        },
{
    let best = match optimize(canvas, target, start, c) {
        Ok(o) => o.shape,
        Err(e) => return Err(e),
    };
    let candidate = draw(best, canvas, c.alpha);
    let after = squared_error(&candidate, target);
    let before = squared_error(canvas, target);
    match (after, before) {
        (Ok(a), Ok(b)) => {
            if a <= b {
                Ok(candidate)
            } else {
                Ok(canvas.duplicate())
            }
        },
        _ => Err(ApproxError::DimensionMismatch),
    }
}

/// The mathematical content of an [`Approximation`].
pub ghost struct ApproxState {
    pub target: Raster,
    pub canvas: Raster,
    pub config: SearchConfig,
    pub remaining: nat,
}

/// A run that approximates a target by placing up to a fixed number of
/// shapes, one per call of `advance`.
pub struct Approximation {
    target: PixelBuffer,
    canvas: PixelBuffer,
    config: SearchConfig,
    remaining: u32,
}

impl View for Approximation {
    type V = ApproxState;

    closed spec fn view(&self) -> ApproxState {
        ApproxState {
            target: self.target@,
            canvas: self.canvas@,
            config: self.config,
            remaining: self.remaining as nat,
        }
    }
}

impl Approximation {
    pub closed spec fn wf(&self) -> bool {
        &&& self.target.wf()
        &&& self.canvas.wf()
        &&& self.canvas@.same_dims(self.target@)
        &&& self.config.wf()
    }

    /// Starts a run of `shape_count` placements on a canvas filled with the
    /// mean intensity of `target`.
    pub fn new(target: PixelBuffer, shape_count: u32, config: SearchConfig) -> (r: Approximation)
        requires
            target.wf(),
            config.wf(),
        ensures
            r.wf(),
            r@.target == target@,
            r@.canvas.same_dims(target@),
            r@.canvas.samples == Seq::new(
                target@.samples.len(),
                |i: int| mean_of(target@.samples) as u8,
            ),
            r@.config == config,
            r@.remaining == shape_count,
    {
        let canvas = target.average_background();
        Approximation { target, canvas, config, remaining: shape_count }
    }

    /// The current canvas.
    pub fn canvas(&self) -> (c: &PixelBuffer)
        ensures
            c@ == self@.canvas,
    {
        &self.canvas
    }

    /// The target being approximated.
    pub fn target(&self) -> (t: &PixelBuffer)
        ensures
            t@ == self@.target,
    {
        &self.target
    }

    /// Number of placements still to make.
    pub fn remaining(&self) -> (n: u32)
        ensures
            n == self@.remaining,
    {
        self.remaining
    }

    /// Makes one placement from `start`, unless none is left. Returns
    /// whether a placement was made.
    pub fn advance_from(&mut self, start: Shape) -> (advanced: bool)
        requires
            old(self).wf(),
        ensures
            final(self).wf(),
            advanced == (old(self)@.remaining > 0),
            final(self)@.target == old(self)@.target,
            final(self)@.config == old(self)@.config,
            !advanced ==> final(self)@ == old(self)@,
            advanced ==> final(self)@.remaining == old(self)@.remaining - 1,
            advanced ==> final(self)@.canvas == placed(
                old(self)@.canvas,
                old(self)@.target,
                old(self)@.config,
                start,
            ),
            sse(final(self)@.canvas.samples, final(self)@.target.samples) <= sse(
                old(self)@.canvas.samples,
                old(self)@.target.samples,
            ),
    {
        if self.remaining == 0 {
            return false;
        }
        match add_best_shape(&self.canvas, &self.target, start, &self.config) {
            Ok(next) => {
                self.canvas = next;
            },
            Err(_) => {},
        }
        self.remaining = self.remaining - 1;
        true
    }

    /// Makes one placement from a random shape drawn from `rng`, unless
    /// none is left. On an empty target the placement changes nothing.
    pub fn advance(&mut self, rng: &mut StdRng) -> (advanced: bool)
        requires
            old(self).wf(),
        ensures
            final(self).wf(),
            advanced == (old(self)@.remaining > 0),
            final(self)@.target == old(self)@.target,
            final(self)@.config == old(self)@.config,
            !advanced ==> final(self)@ == old(self)@,
            advanced ==> final(self)@.remaining == old(self)@.remaining - 1,
            advanced ==> exists|start: Shape|
                {
                    &&& old(self)@.target.samples.len() > 0 ==> shape_on_canvas(
                        start,
                        old(self)@.target.width as int,
                        old(self)@.target.height as int,
                    )
                    &&& final(self)@.canvas == #[trigger] placed(
                        old(self)@.canvas,
                        old(self)@.target,
                        old(self)@.config,
                        start,
                    )
                },
            sse(final(self)@.canvas.samples, final(self)@.target.samples) <= sse(
                old(self)@.canvas.samples,
                old(self)@.target.samples,
            ),
    {
        let width = self.target.width();
        let height = self.target.height();
        let start = if width >= 1 && height >= 1 {
            random_shape(rng, width, height)
        } else {
            Shape { x1: 0, y1: 0, x2: 0, y2: 0, color: 0 }
        };
        proof {
            if self@.target.samples.len() > 0 {
                assert(self@.target.width * self@.target.height > 0);
                assert(width >= 1 && height >= 1) by (nonlinear_arith)
                    requires
                        width * height > 0,
                        width >= 0,
                        height >= 0,
                ;
            }
        }
        self.advance_from(start)
    }
}

} // verus!
