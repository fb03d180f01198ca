use std::hint::black_box;
use std::time::{SystemTime, UNIX_EPOCH};

use cross_correlate::{DividerU32, DividerU64};

struct Rng {
    state: u64,
}

impl Rng {
    fn new(seed: u64) -> Self {
        Self { state: seed }
    }

    fn next_u32(&mut self) -> u32 {
        self.state = self.state.wrapping_mul(6364136223846793005).wrapping_add(1);
        (self.state >> 32) as u32
    }

    fn next_u64(&mut self) -> u64 {
        self.state = self.state.wrapping_mul(6364136223846793005).wrapping_add(1);
        self.state
    }
}

#[test]
fn test_divider_u32_edge_cases() {
    let divisors = [
        2,
        3,
        5,
        7,
        10,
        16,
        31,
        32,
        33,
        63,
        64,
        65,
        127,
        128,
        129,
        255,
        256,
        257,
        1_000,
        10_000,
        65_535,
        100_000,
        1_000_000,
        u32::MAX / 2,
        u32::MAX - 1,
        u32::MAX,
    ];

    let values = [
        0u32,
        1,
        2,
        3,
        4,
        5,
        6,
        7,
        8,
        15,
        16,
        31,
        32,
        63,
        64,
        65,
        127,
        128,
        129,
        255,
        256,
        257,
        1000,
        10_000,
        1_000_000,
        u32::MAX / 3,
        u32::MAX / 2,
        u32::MAX - 1,
        u32::MAX,
    ];

    for &d in &divisors {
        // Skip division by zero (rejected by construction)
        if d == 0 {
            continue;
        }

        let divider = DividerU32::new(d);

        for &x in &values {
            let fast = divider.divide(x);
            let exact = x / d;

            assert_eq!(fast, exact, "Mismatch for x = {x}, divisor = {d}");
        }

        for &x in &values {
            let fast = divider.modulo(x);
            let exact = x % d;

            assert_eq!(fast, exact, "Mismatch for x = {x}, divisor = {d}");
        }

        let now = SystemTime::now().duration_since(UNIX_EPOCH).unwrap();
        let mut rng = Rng::new((now.as_millis() & 0xffff_ffff_ffff_ffff) as u64);
        // Fuzz 1000 random samples
        for _ in 0..1000 {
            let x = rng.next_u32();
            let fast = divider.divide(x);
            let exact = x / d;
            assert_eq!(fast, exact, "Random mismatch for x = {x}, divisor = {d}");
        }

        for _ in 0..1000 {
            let x = rng.next_u32();
            let fast = divider.modulo(x);
            let exact = x % d;
            assert_eq!(fast, exact, "Random mismatch for x = {x}, divisor = {d}");
        }
    }
}

#[test]
fn test_divider_u64_edge_cases() {
    let divisors = [
        2,
        3,
        5,
        7,
        10,
        16,
        31,
        32,
        33,
        63,
        64,
        65,
        127,
        128,
        129,
        255,
        256,
        257,
        1_000,
        10_000,
        65_535,
        100_000,
        1_000_000,
        u64::MAX / 2,
        u64::MAX - 1,
        u64::MAX,
    ];

    let values = [
        0u64,
        1,
        2,
        3,
        4,
        5,
        6,
        7,
        8,
        15,
        16,
        31,
        32,
        63,
        64,
        65,
        127,
        128,
        129,
        255,
        256,
        257,
        1000,
        10_000,
        1_000_000,
        u64::MAX / 3,
        u64::MAX / 2,
        u64::MAX - 1,
        u64::MAX,
    ];

    for &d in &divisors {
        if d == 0 {
            continue;
        }

        let divider = DividerU64::new(d);

        for &x in &values {
            let fast = divider.divide(x);
            let exact = x / d;

            assert_eq!(fast, exact, "Mismatch for x = {x}, divisor = {d}");
        }

        for &x in &values {
            let fast = divider.modulo(x);
            let exact = x % d;

            assert_eq!(fast, exact, "Mismatch for x = {x}, divisor = {d}");
        }

        let now = SystemTime::now().duration_since(UNIX_EPOCH).unwrap();
        let mut rng = Rng::new((now.as_millis() & 0xffff_ffff_ffff_ffff) as u64);

        // Fuzz random samples
        for _ in 0..500 {
            let x = rng.next_u64();
            let fast = divider.divide(x);
            let exact = x / d;
            assert_eq!(fast, exact, "Random mismatch for x = {x}, divisor = {d}");
        }

        for _ in 0..500 {
            let x = rng.next_u64();
            let fast = divider.modulo(x);
            let exact = x % d;
            assert_eq!(fast, exact, "Random mismatch for x = {x}, divisor = {d}");
        }
    }
}

#[test]
fn test() {
    let divisor = DividerU32::new(3);
    assert_eq!(
        black_box(divisor).divide(black_box(3)),
        black_box(3) / black_box(3)
    );
}
