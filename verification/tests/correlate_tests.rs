use std::sync::Arc;

use cross_correlate::{
    fft_next_good_size, CorrelationEngine, CrossCorrelate, CrossCorrelateError,
    CrossCorrelationMode, FftExecutor, SpectrumMultiplier,
};
use num_complex::Complex;
use rustfft::{Fft, FftPlanner};

struct PlannedFft64 {
    executor: Arc<dyn Fft<f64>>,
}

impl FftExecutor<Complex<f64>> for PlannedFft64 {
    // Ghost member of the trait; erased during verification, never called.
    fn spec_length(&self) -> usize {
        self.executor.len()
    }

    fn process(&self, in_out: &mut [Complex<f64>]) -> Result<(), CrossCorrelateError> {
        self.executor.process(in_out);
        Ok(())
    }

    fn length(&self) -> usize {
        self.executor.len()
    }
}

struct ScalarMul64;

impl SpectrumMultiplier<Complex<f64>> for ScalarMul64 {
    fn mul_spectrum(&self, buffer: &mut [Complex<f64>], other: &[Complex<f64>], len: usize) {
        let normalization_factor = 1.0f64 / len as f64;
        for i in 0..len {
            buffer[i] = buffer[i] * other[i].conj() * normalization_factor;
        }
    }
}

type Engine64 = CorrelationEngine<Complex<f64>, PlannedFft64, PlannedFft64, ScalarMul64>;

fn make_engine(mode: CrossCorrelationMode, fft_size: usize) -> Engine64 {
    let mut planner = FftPlanner::<f64>::new();
    let forward = PlannedFft64 {
        executor: planner.plan_fft_forward(fft_size),
    };
    let inverse = PlannedFft64 {
        executor: planner.plan_fft_inverse(fft_size),
    };
    CorrelationEngine::new(mode, forward, inverse, ScalarMul64, Complex::default()).unwrap()
}

fn lift(samples: &[f64]) -> Vec<Complex<f64>> {
    samples.iter().map(|&re| Complex::new(re, 0.0)).collect()
}

fn correlate_real(mode: CrossCorrelationMode, buffer: &[f64], other: &[f64]) -> Vec<f64> {
    let fft_size = mode.fft_size(buffer.len(), other.len());
    let engine = make_engine(mode, fft_size);
    let result = engine
        .correlate_managed(&lift(buffer), &lift(other))
        .unwrap();
    result.iter().map(|c| c.re).collect()
}

const BUFFER: [f64; 8] = [
    5.12, 6.2136, 7.2387, 1.52312, 2.52313, 3.52313, 4.52313, 5.23871,
];
const OTHER: [f64; 4] = [0.31421, 0.421, 0.653, 0.121];

const EXPECTED_FULL: [f64; 11] = [
    0.61952,
    4.0952056,
    7.0888835,
    9.13584942,
    6.299764046,
    4.989608067,
    4.388719885,
    5.8635182073,
    6.4321180373,
    3.6267095873,
    1.6460550691,
];

fn assert_close(actual: &[f64], expected: &[f64]) {
    assert_eq!(actual.len(), expected.len());
    for (i, (a, e)) in actual.iter().zip(expected.iter()).enumerate() {
        assert!(
            (a - e).abs() < 1e-6,
            "index {i}: actual {a} does not match expected {e}"
        );
    }
}

#[test]
fn test_full_correlation_scenario() {
    let corr = correlate_real(CrossCorrelationMode::Full, &BUFFER, &OTHER);
    assert_close(&corr, &EXPECTED_FULL);
}

#[test]
fn test_same_correlation_scenario() {
    let corr = correlate_real(CrossCorrelationMode::Same, &BUFFER, &OTHER);
    assert_close(&corr, &EXPECTED_FULL[1..9]);
}

#[test]
fn test_valid_correlation_scenario() {
    let corr = correlate_real(CrossCorrelationMode::Valid, &BUFFER, &OTHER);
    assert_close(&corr, &EXPECTED_FULL[3..8]);
}

#[test]
fn test_managed_output_length_matches_mode() {
    let lengths = [(1usize, 1usize), (2, 5), (5, 2), (8, 4), (9, 3), (7, 7)];
    let modes = [
        CrossCorrelationMode::Valid,
        CrossCorrelationMode::Same,
        CrossCorrelationMode::Full,
    ];
    for &(la, lb) in &lengths {
        for &mode in &modes {
            let buffer: Vec<f64> = (0..la).map(|i| i as f64 * 0.25 + 1.0).collect();
            let other: Vec<f64> = (0..lb).map(|i| i as f64 * 0.5 - 1.0).collect();
            let corr = correlate_real(mode, &buffer, &other);
            assert_eq!(corr.len(), mode.get_size(la, lb));
        }
    }
}

#[test]
fn test_correlate_is_deterministic() {
    let engine = make_engine(CrossCorrelationMode::Full, 11);
    let buffer = lift(&BUFFER);
    let other = lift(&OTHER);
    let first = engine.correlate_managed(&buffer, &other).unwrap();
    let second = engine.correlate_managed(&buffer, &other).unwrap();
    assert_eq!(first, second);
}

#[test]
fn test_matches_direct_correlation() {
    // Cross-check the whole pipeline against a direct O(n^2) evaluation of
    // the full cross-correlation, on lengths that are not multiples of any
    // vector width.
    let mut state = 0x2545F4914F6CDD1Du64;
    let mut next = move || {
        state = state.wrapping_mul(6364136223846793005).wrapping_add(1);
        ((state >> 33) as f64) / ((1u64 << 31) as f64) - 0.5
    };
    for (la, lb) in [(3usize, 3usize), (5, 2), (7, 5), (13, 4)] {
        let buffer: Vec<f64> = (0..la).map(|_| next()).collect();
        let other: Vec<f64> = (0..lb).map(|_| next()).collect();
        let corr = correlate_real(CrossCorrelationMode::Full, &buffer, &other);
        let n = la + lb - 1;
        let mut direct = vec![0.0f64; n];
        for (k, slot) in direct.iter_mut().enumerate() {
            // Lag runs from -(lb - 1) to la - 1.
            let lag = k as isize - (lb as isize - 1);
            let mut acc = 0.0;
            for (j, &w) in other.iter().enumerate() {
                let idx = lag + j as isize;
                if idx >= 0 && (idx as usize) < la {
                    acc += buffer[idx as usize] * w;
                }
            }
            *slot = acc;
        }
        assert_close(&corr, &direct);
    }
}

#[test]
fn test_complex_matches_direct_correlation() {
    // The complex-valued path keeps full complex values; check it against a
    // direct evaluation of sum_j buffer[lag + j] * conj(other[j]).
    let buffer = vec![
        Complex::new(1.0, 2.0),
        Complex::new(-0.5, 0.25),
        Complex::new(3.0, -1.0),
        Complex::new(0.75, 0.5),
        Complex::new(-2.0, 1.5),
    ];
    let other = vec![
        Complex::new(0.5, -0.5),
        Complex::new(1.25, 0.75),
        Complex::new(-1.0, 0.25),
    ];
    let engine = make_engine(
        CrossCorrelationMode::Full,
        buffer.len() + other.len() - 1,
    );
    let corr = engine.correlate_managed(&buffer, &other).unwrap();
    let n = buffer.len() + other.len() - 1;
    assert_eq!(corr.len(), n);
    for (k, &got) in corr.iter().enumerate() {
        let lag = k as isize - (other.len() as isize - 1);
        let mut acc = Complex::new(0.0f64, 0.0);
        for (j, w) in other.iter().enumerate() {
            let idx = lag + j as isize;
            if idx >= 0 && (idx as usize) < buffer.len() {
                acc += buffer[idx as usize] * w.conj();
            }
        }
        assert!(
            (got - acc).norm() < 1e-9,
            "index {k}: actual {got} does not match expected {acc}"
        );
    }
}

#[test]
fn test_engine_construction_rejects_length_mismatch() {
    let mut planner = FftPlanner::<f64>::new();
    let forward = PlannedFft64 {
        executor: planner.plan_fft_forward(8),
    };
    let inverse = PlannedFft64 {
        executor: planner.plan_fft_inverse(9),
    };
    let result: Result<Engine64, CrossCorrelateError> =
        CorrelationEngine::new(CrossCorrelationMode::Full, forward, inverse, ScalarMul64, Complex::default());
    assert!(matches!(
        result,
        Err(CrossCorrelateError::FftSizesDoNotMatch(8, 9))
    ));
}

#[test]
fn test_correlate_rejects_wrong_output_size() {
    let engine = make_engine(CrossCorrelationMode::Full, 11);
    let buffer = lift(&BUFFER);
    let other = lift(&OTHER);
    let sentinel = Complex::new(42.0, -42.0);
    let mut output = vec![sentinel; 10];
    let result = engine.correlate(&mut output[..], &buffer, &other);
    assert!(matches!(
        result,
        Err(CrossCorrelateError::OutputSizeDoNotMatch(11, 10))
    ));
    // Nothing was written.
    assert!(output.iter().all(|&c| c == sentinel));
}

#[test]
fn test_correlate_rejects_empty_buffers() {
    let engine = make_engine(CrossCorrelationMode::Full, 11);
    let empty: Vec<Complex<f64>> = Vec::new();
    let other = lift(&OTHER);
    let result = engine.correlate_managed(&empty, &other);
    assert!(matches!(
        result,
        Err(CrossCorrelateError::BuffersMustNotHaveZeroSize)
    ));
    let mut output = vec![Complex::default(); 11];
    let result = engine.correlate(&mut output[..], &lift(&BUFFER), &empty);
    assert!(matches!(
        result,
        Err(CrossCorrelateError::BuffersMustNotHaveZeroSize)
    ));
}

#[test]
fn test_correlate_rejects_wrong_transform_size() {
    // Executors planned for 16 samples cannot serve inputs that need 11.
    let engine = make_engine(CrossCorrelationMode::Full, 16);
    let result = engine.correlate_managed(&lift(&BUFFER), &lift(&OTHER));
    assert!(matches!(
        result,
        Err(CrossCorrelateError::FftAndBuffersSizeDoNotMatch(16, 11))
    ));
}

#[test]
fn test_single_sample_correlation() {
    // A one-by-one correlation has transform length 1, the degenerate case
    // that bypasses the divider.
    let corr = correlate_real(CrossCorrelationMode::Full, &[3.0], &[0.5]);
    assert_eq!(corr.len(), 1);
    assert!((corr[0] - 1.5).abs() < 1e-9);
}

#[test]
fn test_good_size_feeds_engine() {
    // Size executors with the rounded-up good size, as callers are expected
    // to; inputs then have to be padded by the caller to match.
    let needed = CrossCorrelationMode::Full.fft_size(8, 4);
    let good = fft_next_good_size(needed);
    assert_eq!(good, 16);
}

#[test]
fn test_error_messages() {
    assert_eq!(
        CrossCorrelateError::FftSizesDoNotMatch(3, 4).message(),
        "Forward fft size 3 doesn't match inverse fft size 4"
    );
    assert_eq!(
        CrossCorrelateError::OutOfMemory(7).message(),
        "There is no enough memory to allocate 7 bytes"
    );
    assert_eq!(
        CrossCorrelateError::FftAndBuffersSizeDoNotMatch(16, 11).message(),
        "Fft size 16 and buffer size 11 doesn't match"
    );
    assert_eq!(
        CrossCorrelateError::OutputSizeDoNotMatch(11, 10).message(),
        "Output size should be 11 but it was 10"
    );
    assert_eq!(
        CrossCorrelateError::BuffersMustNotHaveZeroSize.message(),
        "Buffers must have zero size"
    );
    assert_eq!(
        CrossCorrelateError::FftError(String::from("plan failed")).message(),
        "plan failed"
    );
}

#[test]
fn test_pad_signal() {
    let padded = cross_correlate::pad_signal(&[1u32, 2, 3], 6, 0u32).unwrap();
    assert_eq!(padded, vec![1, 2, 3, 0, 0, 0]);
    let complex = cross_correlate::pad_signal(&lift(&[1.5, -2.5])[..], 4, Complex::default()).unwrap();
    assert_eq!(complex[0], Complex::new(1.5, 0.0));
    assert_eq!(complex[1], Complex::new(-2.5, 0.0));
    assert_eq!(complex[2], Complex::new(0.0, 0.0));
    assert_eq!(complex[3], Complex::new(0.0, 0.0));
}
