use vstd::prelude::*;

use vstd::arithmetic::div_mod::lemma_mod_division_less_than_divisor;

use crate::error::CrossCorrelateError;
use crate::fast_divider::DividerUsize;
use crate::mode::CrossCorrelationMode;
use crate::pad::{pad_signal, try_filled_vec};

verus! {

/// Trait representing an in-place transform executor for the sample type
/// `C`, supplied by the caller of this crate (typically a wrapper around a
/// planned FFT). An executor is planned for one fixed transform length and
/// must keep the buffer length unchanged; whether the transform itself
/// succeeds is the executor's own affair and is reported through its result.
pub trait FftExecutor<C> {
    /// The fixed transform length this executor was planned for.
    spec fn spec_length(&self) -> usize;

    /// Transform `in_out` in place, or report a transform-specific failure.
    /// The buffer's length cannot change through a slice, which is all the
    /// following clause states.
    fn process(&self, in_out: &mut [C]) -> (r: Result<(), CrossCorrelateError>)
        ensures
            final(in_out)@.len() == old(in_out)@.len(),
    ;

    /// The length of the transform this executor can process.
    fn length(&self) -> (r: usize)
        ensures
            r == self.spec_length(),
    ;
}

/// Strategy for the conjugate multiply step of the correlation theorem:
/// an implementation must replace `buffer[i]` by
/// `buffer[i] * conjugate(other[i]) / len` for every index below `len`,
/// reading no further than `len` elements of either argument and leaving
/// `other` untouched. The arithmetic itself runs on sample types this crate
/// treats as opaque, so only the shape of the operation is stated here: the
/// buffer keeps its length. One implementation is chosen per engine, at
/// construction time.
pub trait SpectrumMultiplier<C> {
    /// Multiply `buffer` element-wise by the conjugate of `other`,
    /// normalizing by `len`, in place. The buffer's length cannot change
    /// through a slice, which is all the following clause states.
    fn mul_spectrum(&self, buffer: &mut [C], other: &[C], len: usize)
        ensures
            final(buffer)@.len() == old(buffer)@.len(),
    ;
}

/// Trait for computing cross-correlation between two sequences of samples
/// of type `V`.
pub trait CrossCorrelate<V: Copy> {
    /// The correlation mode the implementation was built with.
    spec fn spec_mode(&self) -> CrossCorrelationMode;

    /// The transform length of the forward executor.
    spec fn spec_forward_length(&self) -> usize;

    /// The transform length of the inverse executor.
    spec fn spec_inverse_length(&self) -> usize;

    /// Compute the cross-correlation of `buffer` with `other` into the
    /// pre-allocated `output`.
    ///
    /// Validation comes first and is exhaustive: empty buffers, executors of
    /// unequal lengths, a transform length other than the one the input
    /// lengths require, and an output of the wrong length are each rejected
    /// with their own error, in that order, before anything is written.
    /// After validation the call can fail only through allocation or through
    /// the executors, and an output that is not written to completion is not
    /// written at all.
    fn correlate(&self, output: &mut [V], buffer: &[V], other: &[V]) -> (r: Result<
        (),
        CrossCorrelateError,
    >)
        requires
            3 * (buffer@.len() + other@.len()) <= usize::MAX,
        ensures
            final(output)@.len() == old(output)@.len(),
            r matches Err(_) ==> final(output)@ == old(output)@,
            ({
                let blen = buffer@.len() as int;
                let olen = other@.len() as int;
                let outlen = old(output)@.len() as int;
                let fwd = self.spec_forward_length() as int;
                let inv = self.spec_inverse_length() as int;
                let need = self.spec_mode().transform_size(blen, olen);
                let want = self.spec_mode().output_size(blen, olen);
                if blen == 0 || olen == 0 || outlen == 0 {
                    r == Err::<(), CrossCorrelateError>(
                        CrossCorrelateError::BuffersMustNotHaveZeroSize,
                    )
                } else if fwd != inv {
                    r == Err::<(), CrossCorrelateError>(
                        CrossCorrelateError::FftSizesDoNotMatch(
                            self.spec_forward_length(),
                            self.spec_inverse_length(),
                        ),
                    )
                } else if need != fwd {
                    r == Err::<(), CrossCorrelateError>(
                        CrossCorrelateError::FftAndBuffersSizeDoNotMatch(
                            self.spec_forward_length(),
                            need as usize,
                        ),
                    )
                } else if outlen != want {
                    r == Err::<(), CrossCorrelateError>(
                        CrossCorrelateError::OutputSizeDoNotMatch(want as usize, outlen as usize),
                    )
                } else {
                    // Past validation the call can still fail, through
                    // allocation or through an executor; those outcomes are
                    // the environment's and are not pinned here.
                    true
                }
            }),
    ;

    /// Compute the cross-correlation of `buffer` with `other` into a newly
    /// allocated, correctly sized output.
    ///
    /// The output length of a successful call is exactly the mode's output
    /// size for the two input lengths, and success further implies that the
    /// two executors agree on a transform length equal to the one the input
    /// lengths require.
    fn correlate_managed(&self, buffer: &[V], other: &[V]) -> (r: Result<
        Vec<V>,
        CrossCorrelateError,
    >)
        requires
            3 * (buffer@.len() + other@.len()) <= usize::MAX,
        ensures
            ({
                let blen = buffer@.len() as int;
                let olen = other@.len() as int;
                let fwd = self.spec_forward_length() as int;
                let inv = self.spec_inverse_length() as int;
                let need = self.spec_mode().transform_size(blen, olen);
                let want = self.spec_mode().output_size(blen, olen);
                &&& (blen == 0 || olen == 0) ==> r == Err::<Vec<V>, CrossCorrelateError>(
                    CrossCorrelateError::BuffersMustNotHaveZeroSize,
                )
                &&& r matches Ok(v) ==> {
                    &&& v@.len() == want
                    &&& blen >= 1
                    &&& olen >= 1
                    &&& fwd == inv
                    &&& need == fwd
                }
                &&& (blen >= 1 && olen >= 1 && fwd != inv) ==> (r == Err::<
                    Vec<V>,
                    CrossCorrelateError,
                >(CrossCorrelateError::OutOfMemory(want as usize)) || r == Err::<
                    Vec<V>,
                    CrossCorrelateError,
                >(
                    CrossCorrelateError::FftSizesDoNotMatch(
                        self.spec_forward_length(),
                        self.spec_inverse_length(),
                    ),
                ))
                &&& (blen >= 1 && olen >= 1 && fwd == inv && need != fwd) ==> (r == Err::<
                    Vec<V>,
                    CrossCorrelateError,
                >(CrossCorrelateError::OutOfMemory(want as usize)) || r == Err::<
                    Vec<V>,
                    CrossCorrelateError,
                >(
                    CrossCorrelateError::FftAndBuffersSizeDoNotMatch(
                        self.spec_forward_length(),
                        need as usize,
                    ),
                ))
            }),
    ;
}

/// Copy the circular window of `padded` that starts at `start + offset`
/// into `output`, using the fast divider for the wrap-around indexing.
fn extract_window<C: Copy>(
    output: &mut [C],
    padded: &[C],
    start: usize,
    offset: usize,
    fft_size: usize,
)
    requires
        2 <= fft_size,
        padded@.len() == fft_size,
        start + old(output)@.len() + offset <= usize::MAX,
    ensures
        final(output)@.len() == old(output)@.len(),
        forall|i: int|
            0 <= i < final(output)@.len() ==> final(output)@[i] == padded@[(start + i + offset) % (
            fft_size as int)],
{
    let divider = DividerUsize::new(fft_size);
    let len = output.len();
    let mut i: usize = 0;
    while i < len
        invariant
            divider.wf(),
            divider.spec_divisor() == fft_size,
            2 <= fft_size,
            padded@.len() == fft_size,
            output@.len() == len,
            i <= len,
            start + len + offset <= usize::MAX,
            forall|j: int|
                0 <= j < i ==> output@[j] == padded@[(start + j + offset) % (fft_size as int)],
        decreases len - i,
    {
        let idx = divider.modulo(start + i + offset);
        proof {
            lemma_mod_division_less_than_divisor((start + i + offset) as int, fft_size as int);
        }
        output[i] = padded[idx];
        i = i + 1;
    }
}

/// A reusable cross-correlation engine bound to one correlation mode, one
/// pair of forward/inverse transform executors of equal length, and one
/// spectrum-multiply strategy. The engine holds no per-call mutable state:
/// every buffer a call works on is allocated inside that call.
pub struct CorrelationEngine<C: Copy, F: FftExecutor<C>, I: FftExecutor<C>, M: SpectrumMultiplier<
    C,
>> {
    mode: CrossCorrelationMode,
    fft_forward: F,
    fft_inverse: I,
    multiplier: M,
    zero: C,
}

impl<C: Copy, F: FftExecutor<C>, I: FftExecutor<C>, M: SpectrumMultiplier<C>> CorrelationEngine<
    C,
    F,
    I,
    M,
> {
    /// Build an engine from a mode, two executors and a multiply strategy,
    /// together with the zero sample used for padding. Construction fails
    /// with a size-mismatch error naming both lengths, and only then, when
    /// the executors disagree on their transform length; no buffer is
    /// touched before that check.
    pub fn new(
        mode: CrossCorrelationMode,
        fft_forward: F,
        fft_inverse: I,
        multiplier: M,
        zero: C,
    ) -> (r: Result<Self, CrossCorrelateError>)
        ensures
            match r {
                Ok(engine) => {
                    &&& engine.spec_mode() == mode
                    &&& engine.spec_forward_length() == fft_forward.spec_length()
                    &&& engine.spec_inverse_length() == fft_inverse.spec_length()
                    &&& fft_forward.spec_length() == fft_inverse.spec_length()
                    &&& engine.spec_zero() == zero
                },
                Err(e) => {
                    &&& e == CrossCorrelateError::FftSizesDoNotMatch(
                        fft_forward.spec_length(),
                        fft_inverse.spec_length(),
                    )
                    &&& fft_forward.spec_length() != fft_inverse.spec_length()
                },
            },
    {
        if fft_forward.length() != fft_inverse.length() {
            return Err(
                CrossCorrelateError::FftSizesDoNotMatch(fft_forward.length(), fft_inverse.length()),
            );
        }
        Ok(CorrelationEngine { mode, fft_forward, fft_inverse, multiplier, zero })
    }

    /// The sample used to pad input signals up to the transform length.
    pub closed spec fn spec_zero(self) -> C {
        self.zero
    }
}

impl<C: Copy, F: FftExecutor<C>, I: FftExecutor<C>, M: SpectrumMultiplier<C>> CrossCorrelate<
    C,
> for CorrelationEngine<C, F, I, M> {
    closed spec fn spec_mode(&self) -> CrossCorrelationMode {
        self.mode
    }

    closed spec fn spec_forward_length(&self) -> usize {
        self.fft_forward.spec_length()
    }

    closed spec fn spec_inverse_length(&self) -> usize {
        self.fft_inverse.spec_length()
    }

    fn correlate(&self, output: &mut [C], buffer: &[C], other: &[C]) -> (r: Result<
        (),
        CrossCorrelateError,
    >) {
        if buffer.is_empty() || other.is_empty() || output.len() == 0 {
            return Err(CrossCorrelateError::BuffersMustNotHaveZeroSize);
        }
        if self.fft_forward.length() != self.fft_inverse.length() {
            return Err(
                CrossCorrelateError::FftSizesDoNotMatch(
                    self.fft_forward.length(),
                    self.fft_inverse.length(),
                ),
            );
        }
        let data_length = self.mode.get_size(buffer.len(), other.len());
        let fft_size = self.mode.fft_size(buffer.len(), other.len());

        if fft_size != self.fft_forward.length() {
            return Err(
                CrossCorrelateError::FftAndBuffersSizeDoNotMatch(
                    self.fft_forward.length(),
                    fft_size,
                ),
            );
        }

        if output.len() != data_length {
            return Err(CrossCorrelateError::OutputSizeDoNotMatch(data_length, output.len()));
        }

        let mut padded_src = pad_signal(buffer, fft_size, self.zero)?;
        let mut padded_other = pad_signal(other, fft_size, self.zero)?;
        self.fft_forward.process(padded_src.as_mut_slice())?;
        self.fft_forward.process(padded_other.as_mut_slice())?;
        self.multiplier.mul_spectrum(padded_src.as_mut_slice(), padded_other.as_slice(), fft_size);
        self.fft_inverse.process(padded_src.as_mut_slice())?;

        let lag = other.len() - 1;
        let offset = fft_size - lag;
        let start = match self.mode {
            CrossCorrelationMode::Full => 0,
            CrossCorrelationMode::Valid => other.len() - 1,
            CrossCorrelationMode::Same => (other.len() - 1) / 2,
        };
        if fft_size == 1 {
            // Degenerate transform: every output sample is the sole sample
            // of the product spectrum; no divider is built for divisor 1.
            let value = padded_src[0];
            let len = output.len();
            let mut i: usize = 0;
            while i < len
                invariant
                    output@.len() == len,
                    i <= len,
                decreases len - i,
            {
                output[i] = value;
                i = i + 1;
            }
        } else {
            extract_window(output, padded_src.as_slice(), start, offset, fft_size);
        }

        Ok(())
    }

    fn correlate_managed(&self, buffer: &[C], other: &[C]) -> (r: Result<
        Vec<C>,
        CrossCorrelateError,
    >) {
        if buffer.is_empty() || other.is_empty() {
            return Err(CrossCorrelateError::BuffersMustNotHaveZeroSize);
        }
        let data_length = self.mode.get_size(buffer.len(), other.len());
        let mut output = try_filled_vec(data_length, self.zero)?;
        match self.correlate(output.as_mut_slice(), buffer, other) {
            Ok(()) => Ok(output),
            Err(e) => Err(e),
        }
    }
}

} // verus!
