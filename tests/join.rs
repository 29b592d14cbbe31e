use const_str_join::{concated_size, copy_bytes, join_strings};

const A: &'static str = "A";
const B: &'static str = "B";
const C: &'static str = "C";
const ARRAY_OF_STRINGS: [&'static str; 3] = [A, B, C];

#[test]
fn nested() {
    let foo_bytes = const_str_join::joined_array(ARRAY_OF_STRINGS, ":");
    let foo = std::str::from_utf8(&foo_bytes).unwrap();
    let more_parts: [&str; 3] = ["<", foo, ">"];
    let more_bytes = const_str_join::joined_array(more_parts, "");
    let more = std::str::from_utf8(&more_bytes).unwrap();
    assert_eq!(foo, "A:B:C");
    assert_eq!(more, "<A:B:C>");
}

#[test]
fn joined_array() {
    let s = const_str_join::joined_array(ARRAY_OF_STRINGS, "-");
    assert_eq!(&s, b"A-B-C");
}

#[test]
fn size_and_fill_of_three_fragments() {
    let size = concated_size(ARRAY_OF_STRINGS, "-");
    assert_eq!(size, 5);
    let mut buffer = vec![0u8; size];
    let end = join_strings(&ARRAY_OF_STRINGS, Some("-"), &mut buffer);
    assert_eq!(end, 5);
    assert_eq!(&buffer, b"A-B-C");
}

#[test]
fn size_is_sum_plus_separators() {
    let parts = ["ab", "", "cde"];
    let size = concated_size(parts, "--");
    assert_eq!(size, 2 + 0 + 3 + 2 * 2);
    let mut buffer = vec![0u8; size];
    assert_eq!(join_strings(&parts, Some("--"), &mut buffer), 9);
    assert_eq!(&buffer, b"ab----cde");
}

#[test]
fn empty_fragments_still_get_separators() {
    let parts = ["", ""];
    assert_eq!(concated_size(parts, ","), 1);
    assert_eq!(const_str_join::joined_array(parts, ","), b",".to_vec());
    let parts = ["", "", ""];
    assert_eq!(const_str_join::joined_array(parts, "<>"), b"<><>".to_vec());
}

#[test]
fn no_fragments() {
    let parts: [&str; 0] = [];
    assert_eq!(concated_size(parts, ","), 0);
    let mut buffer: Vec<u8> = Vec::new();
    assert_eq!(join_strings(&parts, Some(","), &mut buffer), 0);
    assert_eq!(join_strings(&parts, None, &mut buffer), 0);
    assert!(buffer.is_empty());
    assert!(const_str_join::joined_array(parts, ",").is_empty());
}

#[test]
fn single_fragment_ignores_separator() {
    let parts = ["hello"];
    assert_eq!(concated_size(parts, "XYZ"), 5);
    assert_eq!(const_str_join::joined_array(parts, "XYZ"), b"hello".to_vec());
    let mut buffer = vec![0u8; 5];
    assert_eq!(join_strings(&parts, Some("XYZ"), &mut buffer), 5);
    assert_eq!(&buffer, b"hello");
}

#[test]
fn sizing_twice_gives_the_same_size() {
    let parts = ["one", "two", "three"];
    let first = concated_size(parts, ", ");
    let second = concated_size(parts, ", ");
    assert_eq!(first, second);
    assert_eq!(first, 15);
}

#[test]
fn absent_separator_concatenates() {
    let parts = ["ab", "cd", "e"];
    let size = concated_size(parts, "");
    assert_eq!(size, 5);
    let mut buffer = vec![0u8; size];
    assert_eq!(join_strings(&parts, None, &mut buffer), 5);
    assert_eq!(&buffer, b"abcde");
    let mut other = vec![0u8; size];
    assert_eq!(join_strings(&parts, Some(""), &mut other), 5);
    assert_eq!(other, buffer);
}

#[test]
fn nested_join_with_same_separator_matches_flat_join() {
    let inner_bytes = const_str_join::joined_array(["a", "b"], ",");
    let inner = std::str::from_utf8(&inner_bytes).unwrap();
    let nested = const_str_join::joined_array(["x", inner, "y"], ",");
    let flat = const_str_join::joined_array(["x", "a", "b", "y"], ",");
    assert_eq!(nested, flat);
    assert_eq!(&nested, b"x,a,b,y");
}

#[test]
fn nested_join_without_separator_matches_spelled_out_join() {
    let inner_bytes = const_str_join::joined_array(["p", "q", "r"], "::");
    let inner = std::str::from_utf8(&inner_bytes).unwrap();
    let nested = const_str_join::joined_array(["[", inner, "]"], "");
    let spelled = const_str_join::joined_array(["[", "p", "::", "q", "::", "r", "]"], "");
    assert_eq!(nested, spelled);
    assert_eq!(&nested, b"[p::q::r]");
}

#[test]
fn multibyte_text_stays_valid() {
    let parts = ["\u{e9}", "\u{fc}"];
    let size = concated_size(parts, "\u{2192}");
    assert_eq!(size, 2 + 2 + 3);
    let bytes = const_str_join::joined_array(parts, "\u{2192}");
    assert_eq!(String::from_utf8(bytes).unwrap(), "\u{e9}\u{2192}\u{fc}");
}

#[test]
fn copy_bytes_writes_at_offset() {
    let mut dest = vec![0u8; 6];
    let end = copy_bytes(b"xyz", &mut dest, 2);
    assert_eq!(end, 5);
    assert_eq!(dest, vec![0, 0, b'x', b'y', b'z', 0]);
    let end = copy_bytes(b"w", &mut dest, 5);
    assert_eq!(end, 6);
    assert_eq!(dest, vec![0, 0, b'x', b'y', b'z', b'w']);
}

#[test]
fn copy_bytes_of_nothing_keeps_the_cursor() {
    let mut dest = vec![0u8; 2];
    assert_eq!(copy_bytes(b"", &mut dest, 1), 1);
    assert_eq!(dest, vec![0, 0]);
}
