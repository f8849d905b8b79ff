use lowest_unique::codec::{bytes_eq, encode_nums, parse_nums, parse_u32, trim_ascii};

#[test]
fn encode_empty_vector() {
    assert_eq!(encode_nums(&vec![]), b"".to_vec());
}

#[test]
fn encode_single_value() {
    assert_eq!(encode_nums(&vec![7]), b"7".to_vec());
}

#[test]
fn encode_multiple_values() {
    assert_eq!(encode_nums(&vec![5, 2, 2]), b"5 2 2".to_vec());
}

#[test]
fn encode_max_value() {
    assert_eq!(encode_nums(&vec![u32::MAX]), b"4294967295".to_vec());
}

#[test]
fn encode_zero_and_multidigit() {
    assert_eq!(encode_nums(&vec![0, 1234, 10]), b"0 1234 10".to_vec());
}

#[test]
fn parse_simple_number() {
    assert_eq!(parse_u32(&b"123".to_vec()), Some(123));
}

#[test]
fn parse_zero() {
    assert_eq!(parse_u32(&b"0".to_vec()), Some(0));
}

#[test]
fn parse_plus_sign() {
    assert_eq!(parse_u32(&b"+7".to_vec()), Some(7));
}

#[test]
fn parse_max_value() {
    assert_eq!(parse_u32(&b"4294967295".to_vec()), Some(u32::MAX));
}

#[test]
fn parse_overflow_is_rejected() {
    assert_eq!(parse_u32(&b"4294967296".to_vec()), None);
    assert_eq!(parse_u32(&b"99999999999999999999".to_vec()), None);
}

#[test]
fn parse_rejects_empty_and_garbage() {
    assert_eq!(parse_u32(&b"".to_vec()), None);
    assert_eq!(parse_u32(&b"abc".to_vec()), None);
    assert_eq!(parse_u32(&b"12a".to_vec()), None);
    assert_eq!(parse_u32(&b"+".to_vec()), None);
    assert_eq!(parse_u32(&b"++1".to_vec()), None);
    assert_eq!(parse_u32(&b"-1".to_vec()), None);
    assert_eq!(parse_u32(&b"1 2".to_vec()), None);
}

#[test]
fn round_trip_multiple_values() {
    let nums = vec![5, 2, 2];
    assert_eq!(parse_nums(&encode_nums(&nums)), Some(nums));
}

#[test]
fn round_trip_empty_vector() {
    let nums: Vec<u32> = vec![];
    assert_eq!(parse_nums(&encode_nums(&nums)), Some(nums));
}

#[test]
fn round_trip_extremes() {
    let nums = vec![0, u32::MAX, 1, u32::MAX];
    assert_eq!(parse_nums(&encode_nums(&nums)), Some(nums));
}

#[test]
fn parse_nums_plain_line() {
    assert_eq!(parse_nums(&b"1 2 3".to_vec()), Some(vec![1, 2, 3]));
}

#[test]
fn parse_nums_rejects_malformed_lines() {
    assert_eq!(parse_nums(&b"1  2".to_vec()), None);
    assert_eq!(parse_nums(&b"1 2 ".to_vec()), None);
    assert_eq!(parse_nums(&b" 1".to_vec()), None);
    assert_eq!(parse_nums(&b"x".to_vec()), None);
    assert_eq!(parse_nums(&b"1 4294967296".to_vec()), None);
}

#[test]
fn trim_strips_both_ends() {
    assert_eq!(trim_ascii(&b"  ready\r\n".to_vec()), b"ready".to_vec());
    assert_eq!(trim_ascii(&b"\t42 \n".to_vec()), b"42".to_vec());
    assert_eq!(trim_ascii(&b"".to_vec()), b"".to_vec());
    assert_eq!(trim_ascii(&b" \n\t".to_vec()), b"".to_vec());
    assert_eq!(trim_ascii(&b"a b".to_vec()), b"a b".to_vec());
}

#[test]
fn bytes_eq_compares_contents() {
    assert!(bytes_eq(&b"ready".to_vec(), &b"ready".to_vec()));
    assert!(!bytes_eq(&b"ready".to_vec(), &b"read".to_vec()));
    assert!(!bytes_eq(&b"ready".to_vec(), &b"reads".to_vec()));
}
