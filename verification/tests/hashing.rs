use simple_socket::context::hash;
use simple_socket::hashing::js_hash;
use simple_socket::decimal::{decimal, decimal_signed, scale_of};
use simple_socket::message::request_number;

#[test]
fn test_hash() {
    let h = hash("this shit has never failed to piss me off");
    println!("{}", h);
    assert_eq!(h, -1042386380);
}

#[test]
fn hash_of_empty_text_is_zero() {
    assert_eq!(hash(""), 0);
}

#[test]
fn hash_steps_by_thirty_one() {
    assert_eq!(hash("a"), 97);
    assert_eq!(hash("ab"), 97 * 31 + 98);
}

#[test]
fn hash_of_filter_text() {
    assert_eq!(hash("{\"Task\":\"PostUpdate\"}"), 1251552546);
}

#[test]
fn hash_uses_code_points() {
    assert_eq!(hash("😀x"), 3983992);
}

#[test]
fn hash_stays_in_i32_range() {
    let long = "z".repeat(1000);
    let h = hash(&long);
    assert!(h >= i32::MIN as i64 && h <= i32::MAX as i64);
}

#[test]
fn decimal_texts() {
    assert_eq!(decimal(0), "0");
    assert_eq!(decimal(7), "7");
    assert_eq!(decimal(10), "10");
    assert_eq!(decimal(1234567890), "1234567890");
    assert_eq!(decimal(u128::MAX), u128::MAX.to_string());
    assert_eq!(decimal_signed(-5), "-5");
    assert_eq!(decimal_signed(0), "0");
    assert_eq!(decimal_signed(i64::MIN), i64::MIN.to_string());
    assert_eq!(decimal_signed(i64::MAX), i64::MAX.to_string());
}

#[test]
fn digit_scales() {
    assert_eq!(scale_of(0), 10);
    assert_eq!(scale_of(9), 10);
    assert_eq!(scale_of(10), 100);
    assert_eq!(scale_of(999_999_999), 1_000_000_000);
}

#[test]
fn request_numbers_join_code_and_number() {
    assert_eq!(request_number(1, 0), 10);
    assert_eq!(request_number(2, 123), 2123);
    assert_eq!(request_number(1, 999_999_999), 1_999_999_999);
    assert_eq!(request_number(2, 999_999_999), 2_999_999_999);
    assert!(request_number(2, 9) < request_number(2, 10));
}

#[test]
fn js_hash_matches_for_plain_text() {
    assert_eq!(js_hash("this shit has never failed to piss me off"), -1042386380);
    assert_eq!(js_hash("ab"), 3105);
    assert_eq!(js_hash(""), 0);
}

#[test]
fn js_hash_counts_surrogate_pairs() {
    assert_eq!(js_hash("😀x"), 54959989);
    assert_ne!(js_hash("😀x") as i64, hash("😀x"));
}

fn wrapped_join(hs: i64, ht: i64, k: u32) -> i64 {
    (hs as i32).wrapping_mul(31i32.wrapping_pow(k)).wrapping_add(ht as i32) as i64
}

#[test]
fn hash_of_concatenation() {
    assert_eq!(hash("ab"), wrapped_join(hash("a"), hash("b"), 1));
    let s = "this shit has never ";
    let t = "failed to piss me off";
    assert_eq!(hash(&format!("{}{}", s, t)), wrapped_join(hash(s), hash(t), t.chars().count() as u32));
    assert_eq!(hash(&format!("{}{}", s, "")), hash(s));
}
