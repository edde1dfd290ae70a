use numaflow_core::text::{
    bytes_clone, bytes_eq, bytes_less, push_decimal_i64, push_decimal_u64, utf8_text,
};

#[test]
fn decimal_of_unsigned_numbers() {
    let mut out = String::new();
    push_decimal_u64(&mut out, 0);
    assert_eq!(out, "0");
    push_decimal_u64(&mut out, 907);
    assert_eq!(out, "0907");
    let mut big = String::from("x");
    push_decimal_u64(&mut big, u64::MAX);
    assert_eq!(big, "x18446744073709551615");
}

#[test]
fn decimal_of_signed_numbers() {
    let mut out = String::new();
    push_decimal_i64(&mut out, -1);
    assert_eq!(out, "-1");
    let mut min = String::new();
    push_decimal_i64(&mut min, i64::MIN);
    assert_eq!(min, "-9223372036854775808");
    let mut ten = String::new();
    push_decimal_i64(&mut ten, 10);
    assert_eq!(ten, "10");
}

#[test]
fn byte_strings_compare_byte_by_byte() {
    assert!(bytes_eq(&vec![], &vec![]));
    assert!(bytes_eq(&vec![1, 2], &vec![1, 2]));
    assert!(!bytes_eq(&vec![1, 2], &vec![1, 3]));
    assert!(!bytes_eq(&vec![1, 2], &vec![1]));
    assert!(bytes_less(&vec![], &vec![0]));
    assert!(bytes_less(&vec![1, 2], &vec![1, 3]));
    assert!(bytes_less(&vec![1], &vec![1, 0]));
    assert!(!bytes_less(&vec![1, 0], &vec![1]));
    assert!(!bytes_less(&vec![2], &vec![1, 9]));
    assert!(!bytes_less(&vec![5, 5], &vec![5, 5]));
    assert!(bytes_less(&vec![0x7f], &vec![0x80]));
    assert_eq!(bytes_clone(&vec![9, 8, 7]), vec![9, 8, 7]);
}

#[test]
fn text_of_a_byte_field() {
    assert_eq!(utf8_text(&"héllo".as_bytes().to_vec()), Some("héllo".to_string()));
    assert_eq!(utf8_text(&vec![]), Some(String::new()));
    assert_eq!(utf8_text(&vec![0xff, 0x41]), None);
    assert_eq!(utf8_text(&vec![0xc3]), None);
}
