use usb_hive::text::{
    chars_of, concat_text, contains_text, find_byte, nonzero_bytes_text, slice_by_bytes,
    split_by_char, string_from_chars,
};

#[test]
fn split_device_class_id() {
    let parts = split_by_char("Disk&Ven_Generic&Prod_Flash_Disk&Rev_8.07", '&');
    assert_eq!(parts, vec!["Disk", "Ven_Generic", "Prod_Flash_Disk", "Rev_8.07"]);
}

#[test]
fn split_keeps_empty_pieces() {
    assert_eq!(split_by_char("", '&'), vec![""]);
    assert_eq!(split_by_char("a&&b&", '&'), vec!["a", "", "b", ""]);
    assert_eq!(split_by_char("no separator", '&'), vec!["no separator"]);
}

#[test]
fn split_multibyte_text() {
    assert_eq!(split_by_char("é#ü#", '#'), vec!["é", "ü", ""]);
}

#[test]
fn contains_finds_substrings() {
    assert!(contains_text("ROOT_HUB30", "ROOT_HUB"));
    assert!(contains_text("\\DosDevices\\E:", "DosDevices"));
    assert!(!contains_text("VID_0951", "ROOT_HUB"));
    assert!(contains_text("abc", ""));
    assert!(!contains_text("ab", "abc"));
}

#[test]
fn slice_by_bytes_ranges() {
    assert_eq!(slice_by_bytes("\\DosDevices\\E:", 11, 14), Some("\\E:".to_string()));
    assert_eq!(slice_by_bytes("abc", 2, 4), None);
    assert_eq!(slice_by_bytes("abc", 2, 1), None);
    // 'é' takes two bytes: index 1 falls inside it.
    assert_eq!(slice_by_bytes("éa", 1, 3), None);
    assert_eq!(slice_by_bytes("éa", 2, 3), Some("a".to_string()));
}

#[test]
fn find_byte_first_occurrence() {
    assert_eq!(find_byte(b"ab{c{", b'{'), Some(2));
    assert_eq!(find_byte(b"abc", b'{'), None);
}

#[test]
fn nonzero_bytes_drop_nul() {
    assert_eq!(nonzero_bytes_text("6\u{0}0\u{0}A\u{0}"), "60A");
    assert_eq!(nonzero_bytes_text(""), "");
}

#[test]
fn char_round_trip() {
    let chars = chars_of("héllo");
    assert_eq!(chars, vec!['h', 'é', 'l', 'l', 'o']);
    assert_eq!(string_from_chars(&chars), "héllo");
    assert_eq!(concat_text("ab", "cd"), "abcd");
}
