use csvops::bytes::dec_u64;
use csvops::bytes::field_eq;
use csvops::bytes::has_sub;
use csvops::bytes::parse_u64;
use csvops::bytes::split_bytes;
use csvops::bytes::split_lines;
use csvops::codec::shard_name;

#[test]
fn decimal_formatting() {
    assert_eq!(dec_u64(0), b"0".to_vec());
    assert_eq!(dec_u64(7), b"7".to_vec());
    assert_eq!(dec_u64(3000000), b"3000000".to_vec());
    assert_eq!(dec_u64(u64::MAX), b"18446744073709551615".to_vec());
}

#[test]
fn decimal_parsing() {
    assert_eq!(parse_u64(&b"0".to_vec()), Some(0));
    assert_eq!(parse_u64(&b"42".to_vec()), Some(42));
    assert_eq!(parse_u64(&b"18446744073709551615".to_vec()), Some(u64::MAX));
    assert_eq!(parse_u64(&b"18446744073709551616".to_vec()), None);
    assert_eq!(parse_u64(&b"".to_vec()), None);
    assert_eq!(parse_u64(&b"12a".to_vec()), None);
    assert_eq!(parse_u64(&b"-3".to_vec()), None);
}

#[test]
fn substring_search() {
    assert!(has_sub(&b"dark-red".to_vec(), &b"red".to_vec()));
    assert!(has_sub(&b"red".to_vec(), &b"red".to_vec()));
    assert!(has_sub(&b"anything".to_vec(), &b"".to_vec()));
    assert!(!has_sub(&b"blue".to_vec(), &b"red".to_vec()));
    assert!(!has_sub(&b"re".to_vec(), &b"red".to_vec()));
}

#[test]
fn byte_field_equality() {
    assert!(field_eq(&b"abc".to_vec(), &b"abc".to_vec()));
    assert!(!field_eq(&b"abc".to_vec(), &b"abd".to_vec()));
    assert!(!field_eq(&b"abc".to_vec(), &b"ab".to_vec()));
}

#[test]
fn splitting_on_a_separator() {
    assert_eq!(
        split_bytes(&b"a_b_c".to_vec(), b'_'),
        vec![b"a".to_vec(), b"b".to_vec(), b"c".to_vec()]
    );
    assert_eq!(split_bytes(&b"".to_vec(), b'_'), vec![b"".to_vec()]);
    assert_eq!(
        split_bytes(&b"a__b".to_vec(), b'_'),
        vec![b"a".to_vec(), b"".to_vec(), b"b".to_vec()]
    );
    assert_eq!(split_bytes(&b"a_".to_vec(), b'_'), vec![b"a".to_vec(), b"".to_vec()]);
}

#[test]
fn splitting_text_into_lines() {
    assert_eq!(split_lines(&b"x\ny\n".to_vec()), vec![b"x".to_vec(), b"y".to_vec()]);
    assert_eq!(split_lines(&b"x\r\ny".to_vec()), vec![b"x".to_vec(), b"y".to_vec()]);
    assert_eq!(split_lines(&b"".to_vec()), Vec::<Vec<u8>>::new());
    assert_eq!(split_lines(&b"a\n\n".to_vec()), vec![b"a".to_vec(), b"".to_vec()]);
}

#[test]
fn shard_names_carry_the_index() {
    assert_eq!(shard_name(&b"data".to_vec(), 1), b"data_1.csv".to_vec());
    assert_eq!(shard_name(&b"data".to_vec(), 12), b"data_12.csv".to_vec());
}
