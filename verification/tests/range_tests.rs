use fileroot::range::parse_range_header;

#[test]
fn closed_range_is_parsed() {
    assert_eq!(parse_range_header("bytes=0-99", 1000), Some((0, 99)));
}

#[test]
fn open_ended_range_runs_to_the_last_byte() {
    assert_eq!(parse_range_header("bytes=900-", 1000), Some((900, 999)));
}

#[test]
fn end_out_of_bounds_is_rejected() {
    assert_eq!(parse_range_header("bytes=900-1000", 1000), None);
}

#[test]
fn multi_range_is_unsupported() {
    assert_eq!(parse_range_header("bytes=0-99,200-299", 1000), None);
}

#[test]
fn malformed_headers_are_rejected() {
    assert_eq!(parse_range_header("", 1000), None);
    assert_eq!(parse_range_header("bytes=", 1000), None);
    assert_eq!(parse_range_header("bytes=-", 1000), None);
    assert_eq!(parse_range_header("bytes=abc-def", 1000), None);
    assert_eq!(parse_range_header("bits=0-99", 1000), None);
    assert_eq!(parse_range_header("bytes=99", 1000), None);
    assert_eq!(parse_range_header("bytes=5-2", 1000), None);
}

#[test]
fn empty_file_admits_no_range() {
    assert_eq!(parse_range_header("bytes=0-", 0), None);
    assert_eq!(parse_range_header("bytes=0-0", 0), None);
}

#[test]
fn bounds_track_the_file_size_exactly() {
    assert_eq!(parse_range_header("bytes=0-0", 1), Some((0, 0)));
    assert_eq!(parse_range_header("bytes=0-1", 1), None);
    assert_eq!(parse_range_header("bytes=0-", u64::MAX), Some((0, u64::MAX - 1)));
}

#[test]
fn numbers_parse_as_unsigned_decimal() {
    // A leading plus sign is an accepted spelling of a non-negative integer.
    assert_eq!(parse_range_header("bytes=+10-19", 100), Some((10, 19)));
    // Values beyond the integer type are unparsable, not wrapped.
    assert_eq!(parse_range_header("bytes=99999999999999999999-", 100), None);
    assert_eq!(parse_range_header("bytes=18446744073709551615-", 100), None);
    assert_eq!(parse_range_header("bytes=-5", 100), None);
}
