use media_serve::range::{parse_range, plan_content};

#[test]
fn range_first_hundred_bytes() {
    assert_eq!(parse_range("bytes=0-99", 1000), Some((0, 99)));
    let p = plan_content(Some("bytes=0-99"), 1000);
    assert_eq!(p.status, 206);
    assert_eq!(p.start, 0);
    assert_eq!(p.length, 100);
    assert_eq!(p.content_range.as_deref(), Some("bytes 0-99/1000"));
}

#[test]
fn range_suffix_takes_last_bytes() {
    assert_eq!(parse_range("bytes=-500", 1000), Some((500, 999)));
    assert_eq!(parse_range("bytes=-5000", 1000), Some((0, 999)));
}

#[test]
fn range_end_is_clamped() {
    assert_eq!(parse_range("bytes=900-2000", 1000), Some((900, 999)));
    let p = plan_content(Some("bytes=900-2000"), 1000);
    assert_eq!(p.length, 100);
    assert_eq!(p.content_range.as_deref(), Some("bytes 900-999/1000"));
}

#[test]
fn range_open_end_runs_to_end() {
    assert_eq!(parse_range("bytes=500-", 1000), Some((500, 999)));
}

#[test]
fn range_start_past_end_falls_back_to_full() {
    assert_eq!(parse_range("bytes=1000-", 1000), None);
    let p = plan_content(Some("bytes=1000-"), 1000);
    assert_eq!(p.status, 200);
    assert_eq!(p.start, 0);
    assert_eq!(p.length, 1000);
    assert!(p.content_range.is_none());
}

#[test]
fn range_malformed_headers_are_ignored() {
    assert_eq!(parse_range("bytes=abc-10", 1000), None);
    assert_eq!(parse_range("items=0-10", 1000), None);
    assert_eq!(parse_range("bytes=0-10-20", 1000), None);
    assert_eq!(parse_range("bytes=5-2", 1000), None);
    assert_eq!(parse_range("bytes=-", 1000), None);
    assert_eq!(parse_range("bytes", 1000), None);
    assert_eq!(parse_range("bytes=0-99999999999999999999", 1000), None);
}

#[test]
fn range_plus_sign_is_read_like_a_number() {
    assert_eq!(parse_range("bytes=+5-9", 1000), Some((5, 9)));
}

#[test]
fn range_on_empty_file_is_never_honoured() {
    assert_eq!(parse_range("bytes=0-", 0), None);
    assert_eq!(parse_range("bytes=-10", 0), None);
    let p = plan_content(None, 0);
    assert_eq!(p.status, 200);
    assert_eq!(p.length, 0);
}

#[test]
fn range_largest_size() {
    let max = u64::MAX;
    assert_eq!(parse_range("bytes=0-", max), Some((0, max - 1)));
    let p = plan_content(Some("bytes=18446744073709551613-"), max);
    assert_eq!(p.status, 206);
    assert_eq!(p.length, 2);
    assert_eq!(
        p.content_range.as_deref(),
        Some("bytes 18446744073709551613-18446744073709551614/18446744073709551615")
    );
}
