use cloudreve_vfs::scan::{
    contains, find, lines, parse_i32, parse_u16, rfind, rsplit_once, split_once, trim, words,
};
use cloudreve_vfs::text::{
    decimal, join_child, rsplit_once as rsplit_char, same, starts_with, strictly_under,
};

#[test]
fn texts_are_cut_as_the_standard_library_cuts_them() {
    for s in ["", "a", "a b", " a  b ", "x on y on z (1) (2)", "héé on ü\u{3000}ß", "\u{85}q\u{2028}"] {
        assert_eq!(trim(s), s.trim());
        assert_eq!(words(s), s.split_whitespace().collect::<Vec<_>>());
        for p in ["on", " on ", " (", "é", "zz"] {
            let pair = |x: (&str, &str)| (x.0.to_string(), x.1.to_string());
            assert_eq!(split_once(s, p), s.split_once(p).map(pair));
            assert_eq!(rsplit_once(s, p), s.rsplit_once(p).map(pair));
            assert_eq!(contains(s, p), s.contains(p));
            assert_eq!(find(s, p).is_some(), s.contains(p));
            assert_eq!(rfind(s, p).is_some(), s.contains(p));
            assert_eq!(starts_with(s, p), s.starts_with(p));
        }
    }
}

#[test]
fn lines_end_as_the_standard_library_ends_them() {
    for s in ["", "\n", "a", "a\n", "a\r\nb", "a\r\n\r\nb\r", "\r\n", "x\ny\n\nz"] {
        assert_eq!(lines(s), s.lines().collect::<Vec<_>>());
    }
}

#[test]
fn numbers_are_read_as_the_standard_library_reads_them() {
    for s in [
        "", "0", "7", "+7", "-7", "+", "-", "--1", "007", "65535", "65536", "99999999999999999999",
        "2147483647", "2147483648", "-2147483648", "-2147483649", "1a", " 1", "٣",
    ] {
        assert_eq!(parse_u16(s), s.parse::<u16>().ok(), "{s}");
        assert_eq!(parse_i32(s), s.parse::<i32>().ok(), "{s}");
    }
}

#[test]
fn paths_are_joined_and_compared() {
    assert_eq!(join_child("a", "b"), "a/b");
    assert!(strictly_under("/docs/x", "/docs"));
    assert!(!strictly_under("/docs2", "/docs"));
    assert!(!strictly_under("/docs", "/docs"));
    assert!(same("é", "é") && !same("é", "e"));
    assert_eq!(decimal(0), "0");
    assert_eq!(decimal(u64::MAX), "18446744073709551615");
    assert_eq!(rsplit_char("a/b/c", '/'), Some(("a/b".to_string(), "c".to_string())));
    assert_eq!(rsplit_char("abc", '/'), None);
}
