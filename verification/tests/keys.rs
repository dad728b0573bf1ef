use log_collector::digest::{hex_digest, to_hex};
use log_collector::key::{group_key, is_error_log};
use log_collector::normalize::normalize_bytes;

#[test]
fn digest_of_nothing() {
    assert_eq!(hex_digest(b""), "d41d8cd98f00b204e9800998ecf8427e");
}

#[test]
fn digest_of_abc() {
    assert_eq!(hex_digest(b"abc"), "900150983cd24fb0d6963f7d28e17f72");
}

#[test]
fn hex_is_lower_case_two_digits_per_byte() {
    assert_eq!(to_hex(&[]), "");
    assert_eq!(to_hex(&[0x00, 0x0f, 0xa0, 0xff, 0x5c]), "000fa0ff5c");
}

#[test]
fn addresses_become_the_placeholder() {
    assert_eq!(normalize_bytes(b"crash at 0xDEADBEEF"), b"crash at <addr>".to_vec());
    assert_eq!(normalize_bytes(b"crash at 0x1"), b"crash at <addr>".to_vec());
    assert_eq!(normalize_bytes(b"0xabc and 0xDEF."), b"<addr> and <addr>.".to_vec());
}

#[test]
fn text_without_addresses_is_kept() {
    assert_eq!(normalize_bytes(b""), Vec::<u8>::new());
    assert_eq!(normalize_bytes(b"different crash"), b"different crash".to_vec());
    assert_eq!(normalize_bytes(b"0x"), b"0x".to_vec());
    assert_eq!(normalize_bytes(b"0xg1"), b"0xg1".to_vec());
    assert_eq!(normalize_bytes(b"0X1F"), b"0X1F".to_vec());
    assert_eq!(normalize_bytes(b"10 x 20"), b"10 x 20".to_vec());
}

#[test]
fn an_address_takes_every_digit_that_follows() {
    assert_eq!(normalize_bytes(b"0x12zz"), b"<addr>zz".to_vec());
    assert_eq!(normalize_bytes(b"0x0x1"), b"<addr>x1".to_vec());
    assert_eq!(normalize_bytes(b"00x7f"), b"0<addr>".to_vec());
    assert_eq!(normalize_bytes(b"at 0x7ffe, 0x7fff"), b"at <addr>, <addr>".to_vec());
}

#[test]
fn normalizing_twice_changes_nothing_more() {
    let once = normalize_bytes(b"a 0x12 b 0x0x3 c");
    assert_eq!(normalize_bytes(&once), once);
}

#[test]
fn text_beyond_ascii_is_kept() {
    let message = "崩溃 0xAB 于";
    assert_eq!(normalize_bytes(message.as_bytes()), "崩溃 <addr> 于".as_bytes().to_vec());
}

#[test]
fn same_crash_at_two_addresses_has_one_key() {
    let first = group_key("crash at 0xDEADBEEF", "error");
    let second = group_key("crash at 0x1", "error");
    assert_eq!(first, second);
    assert_ne!(first, group_key("different crash", "error"));
}

#[test]
fn key_is_the_digest_of_normalized_message_hyphen_category() {
    assert_eq!(group_key("crash at 0xDEADBEEF", "error"), "3f6c9783651331d3bd07b7f0cb23aabb");
    assert_eq!(group_key("different crash", "error"), "97bef76dc9bc06fd353efb754eb4a294");
    assert_eq!(group_key("boom", "error_lua"), "b6e4a5a591e4e04e9a05e8ad34b92833");
}

#[test]
fn key_is_not_the_digest_of_the_raw_message() {
    assert_ne!(group_key("crash at 0xDEADBEEF", "error"), "4de4accd35fee194af84c877cef8ea6b");
}

#[test]
fn category_is_part_of_the_key() {
    assert_ne!(group_key("boom", "error"), group_key("boom", "error_lua"));
}

#[test]
fn only_categories_that_begin_with_error_are_grouped() {
    assert!(is_error_log("error"));
    assert!(is_error_log("error_lua"));
    assert!(is_error_log("errors"));
    assert!(!is_error_log(""));
    assert!(!is_error_log("erro"));
    assert!(!is_error_log("warning"));
    assert!(!is_error_log("Error"));
    assert!(!is_error_log("an error"));
}
