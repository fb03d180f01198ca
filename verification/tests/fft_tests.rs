use cross_correlate::{fft_next_good_size, DividerUsize};

#[test]
fn test_fft_next_good_size() {
    assert_eq!(2, fft_next_good_size(1));
    assert_eq!(3, fft_next_good_size(3));
    assert_eq!(4, fft_next_good_size(4));
    assert_eq!(5, fft_next_good_size(5));
    assert_eq!(8, fft_next_good_size(6));
    assert_eq!(16, fft_next_good_size(12));
    assert_eq!(16, fft_next_good_size(16));
    assert_eq!(25, fft_next_good_size(20));
    assert_eq!(64, fft_next_good_size(37));
    assert_eq!(128, fft_next_good_size(128));
    assert_eq!(1024, fft_next_good_size(914));
}

#[test]
fn test_fft_next_good_size_zero_and_two() {
    assert_eq!(2, fft_next_good_size(0));
    assert_eq!(2, fft_next_good_size(2));
}

#[test]
fn test_fft_next_good_size_prefers_odd_radices() {
    // 3^5 = 243 beats 256 for requests just above 128.
    assert_eq!(243, fft_next_good_size(130));
    // 3^4 = 81 beats both 125 and 128 for requests just above 64.
    assert_eq!(81, fft_next_good_size(65));
    // 3^4 = 81 is itself a good size.
    assert_eq!(81, fft_next_good_size(81));
}

#[test]
fn test_fft_next_good_size_near_overflow() {
    // No power of 2, 3 or 5 at or above these requests fits a usize, so the
    // maximum representable value stands in rather than a wrapped length.
    assert_eq!(usize::MAX, fft_next_good_size(usize::MAX));
    // 5^27 is the largest candidate below the word size and still beats 2^63.
    assert_eq!(
        7_450_580_596_923_828_125,
        fft_next_good_size((1usize << 62) + 1)
    );
}

#[test]
fn test_divider_usize_matches_native() {
    let divisors = [2usize, 3, 4, 5, 7, 11, 16, 100, 12345, usize::MAX];
    let values = [0usize, 1, 2, 3, 10, 11, 12, 1000, usize::MAX / 7, usize::MAX];
    for &d in &divisors {
        let divider = DividerUsize::new(d);
        for &x in &values {
            assert_eq!(divider.divide(x), x / d, "divide x = {x}, d = {d}");
            assert_eq!(divider.modulo(x), x % d, "modulo x = {x}, d = {d}");
        }
    }
}
