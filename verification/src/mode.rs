use vstd::prelude::*;

verus! {

/// Specifies the output size for cross-correlation operations.
///
/// The mode determines how much of the cross-correlation result is returned
/// relative to the input sequences.
#[derive(Debug, Copy, Clone, Ord, PartialOrd, Eq, PartialEq, Hash, Default)]
pub enum CrossCorrelationMode {
    /// Only fully overlapping elements are returned
    Valid,
    /// Output has the same length as the largest input
    Same,
    /// Full cross-correlation (default)
    #[default]
    Full,
}

impl CrossCorrelationMode {
    /// The output length of a correlation in this mode, as a function of the
    /// two input lengths.
    pub open spec fn output_size(self, buffer_len: int, other_len: int) -> int {
        match self {
            CrossCorrelationMode::Valid => if buffer_len >= other_len {
                buffer_len - other_len + 1
            } else {
                other_len - buffer_len + 1
            },
            CrossCorrelationMode::Same => if buffer_len >= other_len {
                buffer_len
            } else {
                other_len
            },
            CrossCorrelationMode::Full => buffer_len + other_len - 1,
        }
    }

    /// The minimum transform length a correlation of these input lengths
    /// needs, independent of the mode.
    pub open spec fn transform_size(self, buffer_len: int, other_len: int) -> int {
        buffer_len + other_len - 1
    }

    /// Compute the output length for a cross-correlation operation.
    ///
    /// The length of the correlation result depends on the chosen
    /// [`CrossCorrelationMode`] and the lengths of the input sequences.
    pub fn get_size(self, buffer_len: usize, other_len: usize) -> (r: usize)
        requires
            self is Full ==> 1 <= buffer_len + other_len <= usize::MAX,
            self is Valid ==> self.output_size(buffer_len as int, other_len as int) <= usize::MAX,
        ensures
            r == self.output_size(buffer_len as int, other_len as int),
    {
        match self {
            CrossCorrelationMode::Valid => {
                if buffer_len >= other_len {
                    buffer_len - other_len + 1
                } else {
                    other_len - buffer_len + 1
                }
            },
            CrossCorrelationMode::Same => {
                if buffer_len >= other_len {
                    buffer_len
                } else {
                    other_len
                }
            },
            CrossCorrelationMode::Full => buffer_len + other_len - 1,
        }
    }

    /// Compute the FFT size required for cross-correlation.
    ///
    /// This is the minimum transform length for the two input lengths;
    /// callers round it up to an efficient length with
    /// [`crate::fft_next_good_size`] before planning their transforms.
    #[inline]
    pub fn fft_size(self, buffer_len: usize, other_len: usize) -> (r: usize)
        requires
            1 <= buffer_len + other_len <= usize::MAX,
        ensures
            r == self.transform_size(buffer_len as int, other_len as int),
    {
        buffer_len + other_len - 1
    }
}

} // verus!
