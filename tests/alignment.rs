use h2datatype::{Alignment, H2Error};
use std::ops::Range;

#[test]
fn test_none() {
    let tests: Vec<(Range<u64>, Range<u64>)> = vec![
        (0..0, 0..0),
        (0..10, 0..10),
        (1..5, 1..5),
        (2..8, 2..8),
        (10200..100000, 10200..100000),
    ];

    for (value, expected) in tests {
        assert_eq!(expected, Alignment::Unaligned.align(value).unwrap());
    }
}

#[test]
fn test_loose() {
    let tests: Vec<(Range<u64>, u64, Range<u64>)> = vec![
        (0..0, 0, 0..0),
        (0..0, 4, 0..0),
        (0..1, 4, 0..4),
        (0..2, 4, 0..4),
        (1..3, 4, 1..5),
        (3..4, 4, 3..7),
        (5..5, 4, 5..5),
        (1..10, 789, 1..790),
        (4..10200, 10000, 4..20004),
    ];

    for (value, multiple, expected) in tests {
        assert_eq!(expected, Alignment::Loose(multiple).align(value).unwrap());
    }
}

#[test]
fn test_strict() {
    let good_tests: Vec<(Range<u64>, u64, Range<u64>)> = vec![
        (0..0, 0, 0..0),
        (0..1, 4, 0..4),
        (0..2, 4, 0..4),
        (0..3, 4, 0..4),
        (4..4, 4, 4..4),
        (0..5, 4, 0..8),
        (0..10, 789, 0..789),
        (0..10200, 10000, 0..20000),
        (10000..10200, 10000, 10000..20000),
    ];

    for (value, multiple, expected) in good_tests {
        assert_eq!(expected, Alignment::Strict(multiple).align(value).unwrap());
    }

    let bad_tests: Vec<(Range<u64>, u64)> = vec![
        (2..3, 4),
        (1..1, 4),
        (5..100, 4),
        (4..5, 8),
        (3..4, 4),
        (5..5, 4),
        (5..10, 789),
        (9999..10200, 10000),
        (10001..10200, 10000),
    ];

    for (value, multiple) in bad_tests {
        assert!(Alignment::Strict(multiple).align(value).is_err());
    }
}

#[test]
fn alignment_reversed_range_fails() {
    assert_eq!(Err(H2Error::ReversedRange), Alignment::Unaligned.align(5..4));
    assert_eq!(Err(H2Error::ReversedRange), Alignment::Loose(4).align(5..4));
    assert_eq!(Err(H2Error::ReversedRange), Alignment::Strict(4).align(5..4));
}

#[test]
fn alignment_strict_misaligned_error_kind() {
    assert_eq!(Err(H2Error::Misaligned), Alignment::Strict(4).align(2..3));
}

#[test]
fn alignment_overflow_fails() {
    assert_eq!(Err(H2Error::Overflow), Alignment::Loose(8).align((u64::MAX - 2)..u64::MAX));
    assert_eq!(Ok((u64::MAX - 1)..u64::MAX), Alignment::Loose(0).align((u64::MAX - 1)..u64::MAX));
}

#[test]
fn alignment_loose_is_least_multiple() {
    // The padded length is the least multiple of m no shorter than the span.
    for m in 1..20u64 {
        for start in 0..10u64 {
            for len in 0..40u64 {
                let r = Alignment::Loose(m).align(start..start + len).unwrap();
                let k = r.end - start;
                assert_eq!(start, r.start);
                assert!(k >= len);
                assert_eq!(0, k % m);
                assert!(k < len + m);
            }
        }
    }
}

#[test]
fn alignment_strict_matches_loose_when_aligned() {
    for m in 0..12u64 {
        for start in 0..30u64 {
            let s = Alignment::Strict(m).align(start..start + 5);
            if m != 0 && start % m != 0 {
                assert_eq!(Err(H2Error::Misaligned), s);
            } else {
                assert_eq!(Alignment::Loose(m).align(start..start + 5), s);
            }
        }
    }
}

#[test]
fn round_up_values() {
    assert_eq!(0, Alignment::round_up(0, 4));
    assert_eq!(4, Alignment::round_up(1, 4));
    assert_eq!(8, Alignment::round_up(8, 4));
    assert_eq!(7, Alignment::round_up(7, 0));
    assert_eq!(789, Alignment::round_up(10, 789));
}
