//! Grayscale pixel buffers: row-major samples with their dimensions.
use vstd::prelude::*;

verus! {

/// Errors that the library reports to its callers.
#[derive(Debug, Clone, Copy, PartialEq, Eq, Structural)]
pub enum ApproxError {
    /// Two buffers that must have the same width and height do not.
    DimensionMismatch,
    /// The number of samples given is not `width * height`.
    SampleCountMismatch,
}

/// The mathematical content of a [`PixelBuffer`].
pub ghost struct Raster {
    pub width: nat,
    pub height: nat,
    pub samples: Seq<u8>,
}

impl Raster {
    /// Samples and dimensions agree.
    pub open spec fn wf(self) -> bool {
        self.samples.len() == self.width * self.height
    }

    pub open spec fn same_dims(self, other: Raster) -> bool {
        self.width == other.width && self.height == other.height
    }

    /// Column of the sample at flat index `i`.
    pub open spec fn col(self, i: int) -> int {
        i % (self.width as int)
    }

    /// Row of the sample at flat index `i`.
    pub open spec fn row(self, i: int) -> int {
        i / (self.width as int)
    }
}

/// Gray level of an RGB pixel: the sum of each channel divided by three,
/// each division truncating.
pub open spec fn gray_of(r: u8, g: u8, b: u8) -> int {
    r as int / 3 + g as int / 3 + b as int / 3
}

/// Sum of the first `n` samples.
pub open spec fn sum_prefix(s: Seq<u8>, n: int) -> int
    decreases n,
{
    if n <= 0 {
        0
    } else {
        sum_prefix(s, n - 1) + s[n - 1] as int
    }
}

/// Arithmetic mean of the samples, truncated; zero when there are none.
pub open spec fn mean_of(s: Seq<u8>) -> int {
    if s.len() == 0 {
        0
    } else {
        sum_prefix(s, s.len() as int) / (s.len() as int)
    }
}

pub proof fn lemma_sum_prefix_bounds(s: Seq<u8>, n: int)
    requires
        0 <= n <= s.len(),
    ensures
        0 <= sum_prefix(s, n) <= 255 * n,
    decreases n,
{
    if n > 0 {
        lemma_sum_prefix_bounds(s, n - 1);
    }
}

/// A grayscale raster: `width * height` 8-bit samples in row-major order.
pub struct PixelBuffer {
    width: u32,
    height: u32,
    samples: Vec<u8>,
}

impl View for PixelBuffer {
    type V = Raster;

    closed spec fn view(&self) -> Raster {
        Raster { width: self.width as nat, height: self.height as nat, samples: self.samples@ }
    }
}

/// Gray level of one RGB pixel.
pub fn gray_level(r: u8, g: u8, b: u8) -> (v: u8)
    ensures
        v as int == gray_of(r, g, b),
{
    r / 3 + g / 3 + b / 3
}

impl PixelBuffer {
    pub open spec fn wf(&self) -> bool {
        self@.wf()
    }

    /// Wraps `samples` as a `width` by `height` buffer.
    pub fn new(width: u32, height: u32, samples: Vec<u8>) -> (r: Result<PixelBuffer, ApproxError>)
        ensures
            samples@.len() == width as int * height as int <==> r is Ok,
            r matches Ok(b) ==> b.wf() && b@ == (Raster {
                width: width as nat,
                height: height as nat,
                samples: samples@,
            }),
            r matches Err(e) ==> e == ApproxError::SampleCountMismatch,
    {
        let len = samples.len();
        match (width as usize).checked_mul(height as usize) {
            Some(n) => {
                if len == n {
                    Ok(PixelBuffer { width, height, samples })
                } else {
                    Err(ApproxError::SampleCountMismatch)
                }
            },
            None => Err(ApproxError::SampleCountMismatch),
        }
    }

    /// A buffer whose every sample is `value`.
    pub fn filled(width: u32, height: u32, value: u8) -> (r: PixelBuffer)
        requires
            width as int * height as int <= usize::MAX,
        ensures
            r.wf(),
            r@.width == width,
            r@.height == height,
            r@.samples == Seq::new((width * height) as nat, |i: int| value),
    {
        let n: usize = (width as usize) * (height as usize);
        let mut samples: Vec<u8> = Vec::with_capacity(n);
        let mut i: usize = 0;
        while i < n
            invariant
                i <= n,
                samples@.len() == i,
                forall|j: int| 0 <= j < i ==> samples@[j] == value,
            decreases n - i,
        {
            samples.push(value);
            i = i + 1;
        }
        let r = PixelBuffer { width, height, samples };
        assert(r@.samples =~= Seq::new((width * height) as nat, |i: int| value));
        r
    }

    /// Converts RGB pixels, row-major, to a grayscale buffer.
    pub fn from_rgb(width: u32, height: u32, pixels: &Vec<[u8; 3]>) -> (r: Result<PixelBuffer, ApproxError>)
        ensures
            pixels@.len() == width as int * height as int <==> r is Ok,
            r matches Ok(b) ==> {
                &&& b.wf()
                &&& b@.width == width
                &&& b@.height == height
                &&& b@.samples.len() == pixels@.len()
                &&& forall|i: int|
                    0 <= i < pixels@.len() ==> #[trigger] b@.samples[i] as int == gray_of(
                        pixels@[i][0],
                        pixels@[i][1],
                        pixels@[i][2],
                    )
            },
            r matches Err(e) ==> e == ApproxError::SampleCountMismatch,
    {
        let mut samples: Vec<u8> = Vec::with_capacity(pixels.len());
        let mut i: usize = 0;
        while i < pixels.len()
            invariant
                i <= pixels@.len(),
                samples@.len() == i,
                forall|j: int|
                    0 <= j < i ==> #[trigger] samples@[j] as int == gray_of(
                        pixels@[j][0],
                        pixels@[j][1],
                        pixels@[j][2],
                    ),
            decreases pixels@.len() - i,
        {
            let p = pixels[i];
            samples.push(gray_level(p[0], p[1], p[2]));
            i = i + 1;
        }
        PixelBuffer::new(width, height, samples)
    }

    /// A buffer of the same dimensions holding `samples`.
    pub(crate) fn with_samples(&self, samples: Vec<u8>) -> (r: PixelBuffer)
        requires
            samples@.len() == self@.samples.len(),
        ensures
            r@ == (Raster { width: self@.width, height: self@.height, samples: samples@ }),
    {
        PixelBuffer { width: self.width, height: self.height, samples }
    }

    /// A copy of this buffer.
    pub fn duplicate(&self) -> (r: PixelBuffer)
        ensures
            r@ == self@,
    {
        PixelBuffer { width: self.width, height: self.height, samples: self.samples.clone() }
    }

    pub fn width(&self) -> (w: u32)
        ensures
            w == self@.width,
    {
        self.width
    }

    pub fn height(&self) -> (h: u32)
        ensures
            h == self@.height,
    {
        self.height
    }

    /// The samples, row-major.
    pub fn samples(&self) -> (s: &Vec<u8>)
        ensures
            s@ == self@.samples,
    {
        &self.samples
    }

    /// The sample at column `x` of row `y`.
    pub fn get(&self, x: u32, y: u32) -> (v: u8)
        requires
            self.wf(),
            x < self@.width,
            y < self@.height,
        ensures
            v == self@.samples[y * self@.width + x],
    {
        let _n: usize = self.samples.len();
        proof {
            assert(y * self@.width + x < self@.width * self@.height) by (nonlinear_arith)
                requires
                    x < self@.width,
                    y < self@.height,
            ;
        }
        let i: usize = (y as usize) * (self.width as usize) + (x as usize);
        self.samples[i]
    }

    /// Arithmetic mean of the samples, truncated; zero for an empty buffer.
    pub fn mean_intensity(&self) -> (m: u8)
        ensures
            m as int == mean_of(self@.samples),
    {
        let n: usize = self.samples.len();
        let mut sum: u128 = 0;
        let mut i: usize = 0;
        while i < n
            invariant
                n == self@.samples.len(),
                i <= n,
                sum == sum_prefix(self@.samples, i as int),
            decreases n - i,
        {
            proof {
                lemma_sum_prefix_bounds(self@.samples, i as int);
            }
            sum = sum + self.samples[i] as u128;
            i = i + 1;
        }
        if n == 0 {
            0
        } else {
            proof {
                lemma_sum_prefix_bounds(self@.samples, n as int);
                assert(sum / (n as u128) <= 255) by (nonlinear_arith)
                    requires
                        sum <= 255 * n,
                        n > 0,
                ;
            }
            (sum / (n as u128)) as u8
        }
    }

    /// A buffer of the same dimensions filled with this buffer's mean
    /// intensity: the starting canvas of an approximation.
    pub fn average_background(&self) -> (r: PixelBuffer)
        requires
            self.wf(),
        ensures
            r.wf(),
            r@.same_dims(self@),
            r@.samples == Seq::new(self@.samples.len(), |i: int| mean_of(self@.samples) as u8),
    {
        let m = self.mean_intensity();
        let _n: usize = self.samples.len();
        PixelBuffer::filled(self.width, self.height, m)
    }
}

} // verus!
