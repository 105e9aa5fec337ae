use server_status::text::{
    parse_u32, parse_u64, parse_u64_or_zero, split_lines, split_whitespace, str_eq, trim,
};

#[test]
fn string_equality() {
    assert!(str_eq("", ""));
    assert!(str_eq("a\u{661}", "a\u{661}"));
    assert!(!str_eq("ab", "abc"));
    assert!(!str_eq("abd", "abc"));
}

#[test]
fn parse_matches_std() {
    for s in [
        "", "0", "007", "+5", "+", "-1", "1_0", " 1", "18446744073709551615",
        "18446744073709551616", "99999999999999999999", "4294967295", "4294967296", "١",
    ] {
        assert_eq!(parse_u64(s), s.parse::<u64>().ok(), "{s:?}");
        assert_eq!(parse_u32(s), s.parse::<u32>().ok(), "{s:?}");
        assert_eq!(parse_u64_or_zero(s), s.parse::<u64>().unwrap_or(0), "{s:?}");
    }
}

#[test]
fn splitting_matches_std() {
    for s in [
        "", "a", " a  b\tc\n", "\u{a0}x\u{3000}y\u{85}", "a\nb\r\nc\r", "\n\n", "x\r\n", "\r",
        "  ", "one\ntwo\n",
    ] {
        let w: Vec<String> = s.split_whitespace().map(|x| x.to_string()).collect();
        assert_eq!(split_whitespace(s), w, "{s:?}");
        let l: Vec<String> = s.lines().map(|x| x.to_string()).collect();
        assert_eq!(split_lines(s), l, "{s:?}");
        assert_eq!(trim(s), s.trim(), "{s:?}");
    }
}
