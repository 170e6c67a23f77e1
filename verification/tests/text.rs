use jiji_hamster_bridge::text::{
    has_prefix, is_before, is_white_space, lines_of, same, split_indent, trimmed,
};

#[test]
fn white_space_is_that_of_char() {
    for u in 0..0x11_0000u32 {
        if let Some(c) = char::from_u32(u) {
            assert_eq!(is_white_space(c), c.is_whitespace(), "{u:x}");
        }
    }
}

#[test]
fn trimming_agrees_with_str() {
    for s in ["", " ", "a", " a", "a ", "\t a b \u{2003}", "\u{3000}é\n"] {
        assert_eq!(trimmed(s), s.trim());
        assert_eq!(split_indent(s).1, s.trim_start());
    }
}

#[test]
fn splitting_agrees_with_str() {
    for s in ["", "\n", "a", "a\n", "\na", "a\nb\n\nc", "é\nü"] {
        let theirs: Vec<&str> = s.split('\n').collect();
        assert_eq!(lines_of(s), theirs);
    }
}

#[test]
fn order_equality_and_prefixes_agree_with_str() {
    let all = ["", "a", "ab", "b", "é", "z", "\u{ffff}", "\u{10000}", "/^a/", "/acme/"];
    for a in all {
        for b in all {
            assert_eq!(is_before(a, b), a < b);
            assert_eq!(same(a, b), a == b);
            assert_eq!(has_prefix(a, b), a.starts_with(b));
        }
    }
}
