use uvwa::ts_str::{parse_id_list, to_number, to_str};
use uvwa::version::parse_version;

#[test]
fn writes_decimal() {
    assert_eq!(to_str(0), "0");
    assert_eq!(to_str(7), "7");
    assert_eq!(to_str(90530521), "90530521");
    assert_eq!(to_str(u64::MAX), "18446744073709551615");
}

#[test]
fn reads_decimal() {
    assert_eq!(to_number("0"), Some(0));
    assert_eq!(to_number("90530521"), Some(90530521));
    assert_eq!(to_number("+5"), Some(5));
    assert_eq!(to_number("18446744073709551615"), Some(u64::MAX));
    assert_eq!(to_number(""), None);
    assert_eq!(to_number("+"), None);
    assert_eq!(to_number("12a"), None);
    assert_eq!(to_number("-3"), None);
    assert_eq!(to_number("18446744073709551616"), None);
}

#[test]
fn ids_round_trip_exactly() {
    for n in [0u64, 1, 9, 10, 4096, 1u64 << 53, u64::MAX - 1, u64::MAX] {
        assert_eq!(to_number(&to_str(n)), Some(n));
    }
}

#[test]
fn splits_id_lists() {
    assert_eq!(parse_id_list("1,2,3"), vec![1, 2, 3]);
    assert_eq!(parse_id_list("42"), vec![42]);
    assert_eq!(parse_id_list("1,x,3"), vec![1, 3]);
    assert_eq!(parse_id_list(""), Vec::<u64>::new());
    assert_eq!(parse_id_list("1,,2"), vec![1, 2]);
}

#[test]
fn parses_full_version() {
    let (major, minor, patch, pre) = parse_version("1.2.3-beta");
    assert_eq!(major, Some(1));
    assert_eq!(minor, Some(2));
    assert_eq!(patch, Some(3));
    assert_eq!(pre.as_deref(), Some("beta"));
}

#[test]
fn parses_partial_versions() {
    assert_eq!(parse_version("1.2"), (Some(1), Some(2), None, None));
    assert_eq!(parse_version("7"), (Some(7), None, None, None));
    assert_eq!(parse_version(""), (None, None, None, None));
    assert_eq!(parse_version("x.2.z"), (None, Some(2), None, None));
    let (major, minor, patch, pre) = parse_version("2.0.1-rc-1");
    assert_eq!((major, minor, patch), (Some(2), Some(0), Some(1)));
    assert_eq!(pre.as_deref(), Some("rc-1"));
}

#[test]
fn version_pieces_beyond_patch_are_ignored() {
    assert_eq!(parse_version("1.2.3.4"), (Some(1), Some(2), Some(3), None));
}
