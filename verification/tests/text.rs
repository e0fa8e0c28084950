use microhop::strmap::StrMap;
use microhop::text::{
    chars_of, concat3, concat_str, eq_ignore_ascii_case_str, find_char_in, is_whitespace,
    lines_of, parse_u64_in, remove_char_str, replace_char_str, split_char_in, split_whitespace_in, str_lt,
    string_from_chars, trim_start_matches_str, trimmed_string,
};

fn pieces(text: &str, r: &[(usize, usize)]) -> Vec<String> {
    let v = chars_of(text);
    r.iter().map(|(a, b)| v[*a..*b].iter().collect()).collect()
}

#[test]
fn string_map_last_insert_wins() {
    let mut m = StrMap::new();
    assert_eq!(m.get(&"a".to_string()), None);
    m.insert("a".to_string(), "1".to_string());
    m.insert("b".to_string(), "2".to_string());
    m.insert("a".to_string(), "3".to_string());
    assert_eq!(m.get(&"a".to_string()), Some(&"3".to_string()));
    assert_eq!(m.get(&"b".to_string()), Some(&"2".to_string()));
    assert_eq!(m.get(&"c".to_string()), None);
}

#[test]
fn whitespace_classes() {
    for c in [' ', '\t', '\n', '\r', '\u{0b}', '\u{0c}', '\u{85}', '\u{a0}', '\u{2003}', '\u{3000}'] {
        assert!(is_whitespace(c));
        assert_eq!(is_whitespace(c), c.is_whitespace());
    }
    for c in ['a', '0', '_', '\u{200b}', '\u{feff}'] {
        assert!(!is_whitespace(c));
        assert_eq!(is_whitespace(c), c.is_whitespace());
    }
}

#[test]
fn building_strings() {
    assert_eq!(concat_str("ab", "cd"), "abcd");
    assert_eq!(concat3("a", "", "c"), "ac");
    assert_eq!(string_from_chars(&chars_of("h\u{e9}llo")), "h\u{e9}llo");
    assert_eq!(replace_char_str("virtio-blk-pci", '-', '_'), "virtio_blk_pci");
    assert_eq!(trimmed_string(&chars_of("\t x y \n")), "x y");
}

#[test]
fn prefix_trimming() {
    assert_eq!(trim_start_matches_str("CONFIG_EXT4_FS", "CONFIG_"), "EXT4_FS");
    assert_eq!(trim_start_matches_str("///a/b", "/"), "a/b");
    assert_eq!(trim_start_matches_str("abab_x", "ab"), "_x");
    assert_eq!(trim_start_matches_str("abc", ""), "abc");
    assert_eq!(trim_start_matches_str("", "x"), "");
}

#[test]
fn ascii_case_comparison() {
    assert!(eq_ignore_ascii_case_str("NVMe", "nvme"));
    assert!(!eq_ignore_ascii_case_str("nvme", "nvm"));
    assert!(!eq_ignore_ascii_case_str("\u{e9}", "\u{c9}"));
}

#[test]
fn ordering_of_strings() {
    assert!(str_lt("/dev/sda", "/dev/sdb"));
    assert!(str_lt("/dev/sd", "/dev/sda"));
    assert!(!str_lt("/dev/sda", "/dev/sda"));
    assert!(!str_lt("b", "a"));
    assert!(str_lt("", "a"));
    for (a, b) in [("x", "y"), ("abc", "ab"), ("\u{e9}", "z"), ("same", "same")] {
        assert_eq!(str_lt(a, b), a < b);
    }
}

#[test]
fn splitting() {
    let t = "  a bb\tccc  ";
    let v = chars_of(t);
    assert_eq!(pieces(t, &split_whitespace_in(&v, 0, v.len())), vec!["a", "bb", "ccc"]);
    let t = "1,,2,";
    let v = chars_of(t);
    assert_eq!(pieces(t, &split_char_in(&v, 0, v.len(), ',')), vec!["1", "", "2", ""]);
    let t = "one\r\ntwo\n\nthree";
    let v = chars_of(t);
    assert_eq!(pieces(t, &lines_of(&v)), vec!["one", "two", "", "three"]);
    let t = "x\n";
    let v = chars_of(t);
    assert_eq!(pieces(t, &lines_of(&v)), vec!["x"]);
    let v = chars_of("");
    assert!(lines_of(&v).is_empty());
}

#[test]
fn finding_and_numbers() {
    let v = chars_of("key=value=x");
    assert_eq!(find_char_in(&v, 0, v.len(), '='), Some(3));
    assert_eq!(find_char_in(&v, 4, v.len(), '='), Some(9));
    assert_eq!(find_char_in(&v, 0, 3, '='), None);
    let v = chars_of("+42 18446744073709551615 18446744073709551616 4x");
    assert_eq!(parse_u64_in(&v, 0, 3), Some(42));
    assert_eq!(parse_u64_in(&v, 4, 24), Some(u64::MAX));
    assert_eq!(parse_u64_in(&v, 25, 45), None);
    assert_eq!(parse_u64_in(&v, 46, 48), None);
    assert_eq!(parse_u64_in(&v, 0, 0), None);
    assert_eq!(parse_u64_in(&v, 0, 1), None);
}

#[test]
fn removing_characters() {
    assert_eq!(remove_char_str("\"6.1.0-arm64\"", '"'), "6.1.0-arm64");
    assert_eq!(remove_char_str("a\"b\"\"c", '"'), "abc");
    assert_eq!(remove_char_str("", '"'), "");
}
