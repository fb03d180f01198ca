//! FFT-based cross-correlation of one-dimensional signals.
//!
//! The crate orchestrates zero-padding, forward and inverse spectral
//! transforms supplied by the caller, conjugate spectrum multiplication and
//! windowed extraction of the time-domain result. Wrap-around indexing in
//! the extraction loop is performed with a branch-free fast divider whose
//! quotients and remainders are proved equal to native division.

mod cross_correlate;
mod error;
mod fast_divider;
mod fft;
mod mode;
mod pad;

pub use cross_correlate::{CorrelationEngine, CrossCorrelate, FftExecutor, SpectrumMultiplier};
pub use error::CrossCorrelateError;
pub use fast_divider::{DividerU32, DividerU64, DividerUsize};
pub use fft::{
    fft_next_good_size, is_five_smooth, is_power_of, is_radix_power,
    lemma_radix_power_is_five_smooth,
};
pub use mode::CrossCorrelationMode;
pub use pad::pad_signal;
