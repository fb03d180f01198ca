use vstd::prelude::*;

verus! {

/// Failures reported while building a correlation engine or running a
/// correlation. All of them are recoverable values; the verified paths of
/// this crate never panic.
#[derive(Clone, Debug)]
pub enum CrossCorrelateError {
    /// The forward and inverse transform executors report different lengths.
    FftSizesDoNotMatch(usize, usize),
    /// A failure propagated from the caller-supplied transform executor.
    FftError(String),
    /// An allocation of the given number of elements could not be satisfied.
    OutOfMemory(usize),
    /// The executors' transform length does not match the length the input
    /// buffers require.
    FftAndBuffersSizeDoNotMatch(usize, usize),
    /// The caller-supplied output buffer does not have the expected length.
    OutputSizeDoNotMatch(usize, usize),
    /// An input or output buffer was empty.
    BuffersMustNotHaveZeroSize,
}

impl CrossCorrelateError {
    /// A human-readable description of the error. For a propagated transform
    /// failure this is the transform's own message, passed through verbatim.
    pub fn message(&self) -> (r: String)
        ensures
            *self matches CrossCorrelateError::FftError(z) ==> r == z,
    {
        match self {
            CrossCorrelateError::FftError(z) => z.clone(),
            CrossCorrelateError::FftSizesDoNotMatch(s0, s1) => fmt_fft_sizes_do_not_match(*s0, *s1),
            CrossCorrelateError::OutOfMemory(capacity) => fmt_out_of_memory(*capacity),
            CrossCorrelateError::FftAndBuffersSizeDoNotMatch(s0, s1) => {
                fmt_fft_and_buffers_size_do_not_match(*s0, *s1)
            },
            CrossCorrelateError::OutputSizeDoNotMatch(s0, s1) => {
                fmt_output_size_do_not_match(*s0, *s1)
            },
            CrossCorrelateError::BuffersMustNotHaveZeroSize => fmt_zero_size(),
        }
    }
}

/// Relies on std's format macro to render the message text.
#[verifier::external_body]
fn fmt_fft_sizes_do_not_match(s0: usize, s1: usize) -> String {
    format!("Forward fft size {s0} doesn't match inverse fft size {s1}")
}

/// Relies on std's format macro to render the message text.
#[verifier::external_body]
fn fmt_out_of_memory(capacity: usize) -> String {
    format!("There is no enough memory to allocate {capacity} bytes")
}

/// Relies on std's format macro to render the message text.
#[verifier::external_body]
fn fmt_fft_and_buffers_size_do_not_match(s0: usize, s1: usize) -> String {
    format!("Fft size {s0} and buffer size {s1} doesn't match")
}

/// Relies on std's format macro to render the message text.
#[verifier::external_body]
fn fmt_output_size_do_not_match(s0: usize, s1: usize) -> String {
    format!("Output size should be {s0} but it was {s1}")
}

/// Relies on std's format macro to render the message text.
#[verifier::external_body]
fn fmt_zero_size() -> String {
    format!("Buffers must have zero size")
}

} // verus!
