use file_browser::range::{parse_range, RangeSpec};

#[test]
fn range_inside_file_is_accepted() {
    assert_eq!(parse_range("bytes=100-199", 1000), Some(RangeSpec { start: 100, end: 199 }));
    assert_eq!(parse_range("bytes=0-0", 1), Some(RangeSpec { start: 0, end: 0 }));
    assert_eq!(parse_range("bytes=7-7", 8), Some(RangeSpec { start: 7, end: 7 }));
}

#[test]
fn last_byte_is_the_largest_end() {
    assert_eq!(parse_range("bytes=900-999", 1000), Some(RangeSpec { start: 900, end: 999 }));
    assert_eq!(parse_range("bytes=900-1000", 1000), None);
    assert_eq!(parse_range("bytes=0-1000", 1000), None);
}

#[test]
fn start_behind_end_is_refused() {
    assert_eq!(parse_range("bytes=10-5", 1000), None);
    assert_eq!(parse_range("bytes=200-199", 1000), None);
}

#[test]
fn every_range_in_a_small_file_round_trips() {
    let size: u64 = 12;
    for start in 0..15u64 {
        for end in 0..15u64 {
            let header = format!("bytes={}-{}", start, end);
            let expected = if start <= end && end < size {
                Some(RangeSpec { start, end })
            } else {
                None
            };
            assert_eq!(parse_range(&header, size), expected);
        }
    }
}

#[test]
fn open_end_runs_to_the_last_byte() {
    assert_eq!(parse_range("bytes=5-", 1000), Some(RangeSpec { start: 5, end: 999 }));
    assert_eq!(parse_range("bytes=999-", 1000), Some(RangeSpec { start: 999, end: 999 }));
    assert_eq!(parse_range("bytes=1000-", 1000), None);
}

#[test]
fn nothing_fits_in_an_empty_file() {
    assert_eq!(parse_range("bytes=0-", 0), None);
    assert_eq!(parse_range("bytes=0-0", 0), None);
}

#[test]
fn other_units_and_forms_are_refused() {
    assert_eq!(parse_range("", 1000), None);
    assert_eq!(parse_range("bytes", 1000), None);
    assert_eq!(parse_range("bytes=", 1000), None);
    assert_eq!(parse_range("bytes=5", 1000), None);
    assert_eq!(parse_range("items=0-5", 1000), None);
    assert_eq!(parse_range("Bytes=0-5", 1000), None);
    assert_eq!(parse_range(" bytes=0-5", 1000), None);
    assert_eq!(parse_range("bytes=-5", 1000), None);
    assert_eq!(parse_range("bytes=-", 1000), None);
}

#[test]
fn several_ranges_are_refused() {
    assert_eq!(parse_range("bytes=0-10,20-30", 1000), None);
    assert_eq!(parse_range("bytes=1-2-3", 1000), None);
    assert_eq!(parse_range("bytes=1--2", 1000), None);
}

#[test]
fn numbers_must_be_plain_digits() {
    assert_eq!(parse_range("bytes=abc-5", 1000), None);
    assert_eq!(parse_range("bytes=5-abc", 1000), None);
    assert_eq!(parse_range("bytes=1 -5", 1000), None);
    assert_eq!(parse_range("bytes=1- 5", 1000), None);
    assert_eq!(parse_range("bytes=0x1-5", 1000), None);
    assert_eq!(parse_range("bytes=1_0-50", 1000), None);
    assert_eq!(parse_range("bytes=1.0-50", 1000), None);
    assert_eq!(parse_range("bytes=\u{ff11}-\u{ff15}", 1000), None);
    assert_eq!(parse_range("bytes=1-5\u{e9}", 1000), None);
}

#[test]
fn a_plus_sign_and_leading_zeros_are_read() {
    assert_eq!(parse_range("bytes=+1-+5", 1000), Some(RangeSpec { start: 1, end: 5 }));
    assert_eq!(parse_range("bytes=007-0010", 1000), Some(RangeSpec { start: 7, end: 10 }));
    assert_eq!(parse_range("bytes=+-5", 1000), None);
    assert_eq!(parse_range("bytes=++1-5", 1000), None);
}

#[test]
fn numbers_use_the_whole_64_bit_range() {
    let huge = u64::MAX;
    assert_eq!(
        parse_range("bytes=0-18446744073709551614", huge),
        Some(RangeSpec { start: 0, end: 18446744073709551614 })
    );
    assert_eq!(
        parse_range("bytes=9223372036854775808-", huge),
        Some(RangeSpec { start: 9223372036854775808, end: huge - 1 })
    );
    assert_eq!(parse_range("bytes=0-18446744073709551615", huge), None);
    assert_eq!(parse_range("bytes=0-18446744073709551616", huge), None);
    assert_eq!(parse_range("bytes=18446744073709551616-", huge), None);
    assert_eq!(parse_range("bytes=0-99999999999999999999999999", huge), None);
}
