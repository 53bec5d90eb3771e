use rarc::archive::RARC;
use rarc::names::{check_dot_name, make_short_name, read_cstring, read_name};

#[test]
fn cstring_stops_at_the_first_zero() {
    let data = b"ab\0cd\0";
    assert_eq!(read_cstring(data, 0), b"ab".to_vec());
    assert_eq!(read_cstring(data, 1), b"b".to_vec());
    assert_eq!(read_cstring(data, 2), Vec::<u8>::new());
    assert_eq!(read_cstring(data, 3), b"cd".to_vec());
}

#[test]
fn cstring_stops_at_the_end() {
    assert_eq!(read_cstring(b"abc", 1), b"bc".to_vec());
    assert_eq!(read_cstring(b"abc", 3), Vec::<u8>::new());
    assert_eq!(read_cstring(b"abc", 4), Vec::<u8>::new());
    assert_eq!(read_cstring(b"abc", u64::MAX), Vec::<u8>::new());
    assert_eq!(read_cstring(b"", 0), Vec::<u8>::new());
}

#[test]
fn names_are_text() {
    assert_eq!(read_name(b"xx\0name\0", 3), "name");
    assert_eq!(read_name("\u{e9}t\u{e9}\0".as_bytes(), 0), "\u{e9}t\u{e9}");
    assert_eq!(read_name(b"\xC3\0", 0), "\u{FFFD}");
}

#[test]
fn short_names_are_upper_case_and_padded() {
    assert_eq!(make_short_name("sub"), *b"SUB ");
    assert_eq!(make_short_name("stage01"), *b"STAG");
    assert_eq!(make_short_name("Data"), *b"DATA");
    assert_eq!(make_short_name(""), *b"    ");
    assert_eq!(make_short_name("a"), *b"A   ");
    assert_eq!(make_short_name("z{`a"), *b"Z{`A");
    assert_eq!(make_short_name("9_x"), *b"9_X ");
}

#[test]
fn short_names_take_bytes_not_characters() {
    assert_eq!(make_short_name("\u{e9}a"), [0xC3, 0xA9, b'A', b' ']);
}

#[test]
fn dot_names() {
    assert!(check_dot_name("."));
    assert!(check_dot_name(".."));
    assert!(!check_dot_name("..."));
    assert!(!check_dot_name(""));
    assert!(!check_dot_name("a"));
    assert!(!check_dot_name(".a"));
    assert!(!check_dot_name("a."));
}

#[test]
fn root_name_is_the_last_component() {
    assert_eq!(RARC::root_name_of("root"), "root");
    assert_eq!(RARC::root_name_of("C:\\data\\root"), "root");
    assert_eq!(RARC::root_name_of("dir\\"), "");
    assert_eq!(RARC::root_name_of("\\x"), "x");
    assert_eq!(RARC::root_name_of(""), "");
    assert_eq!(RARC::root_name_of("a/b"), "b");
    assert_eq!(RARC::root_name_of("data/root"), "root");
    assert_eq!(RARC::root_name_of("/abs/path/to/res"), "res");
    assert_eq!(RARC::root_name_of("dir/"), "");
    assert_eq!(RARC::root_name_of("C:\\game/res"), "res");
    assert_eq!(RARC::root_name_of("mixed/one\\two"), "two");
    assert_eq!(RARC::root_name_of("mixed\\one/two"), "two");
    assert_eq!(RARC::root_name_of("d\u{e9}p\\\u{e9}t\u{e9}"), "\u{e9}t\u{e9}");
    assert_eq!(RARC::root_name_of("\u{e9}\\\\"), "");
    assert_eq!(RARC::root_name_of("a\\b\\c"), "c");
}
