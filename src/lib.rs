//! Approximates a grayscale image by compositing flat-coloured rectangles,
//! each one placed by an adaptive compass search that lowers the squared
//! error against the target.

pub mod buffer;
pub mod raster;
pub mod score;
pub mod search;
pub mod driver;

pub use buffer::{gray_level, ApproxError, PixelBuffer, Raster};
pub use raster::{blend, draw, Shape, ALPHA_SCALE};
pub use score::squared_error;
pub use search::{optimize, search_round, tune_parameter, Optimized, SearchConfig, StopRule};
pub use driver::{add_best_shape, random_shape, Approximation};
