use qugui::text::{chars_of, replace_chars, split_lines, string_of, trim_one_newline};

fn replace(s: &str, pat: &str, rep: &str) -> String {
    string_of(&replace_chars(&chars_of(s), &chars_of(pat), &chars_of(rep)))
}

#[test]
fn replace_every_occurrence() {
    assert_eq!(replace("a-$x-$x", "$x", "1"), "a-1-1");
    assert_eq!(replace("aaa", "aa", "b"), "ba");
    assert_eq!(replace("none here", "zz", "y"), "none here");
}

#[test]
fn replace_empty_pattern_matches_std() {
    assert_eq!(replace("ab", "", "x"), "ab".replace("", "x"));
    assert_eq!(replace("", "", "x"), "x");
}

#[test]
fn replace_non_ascii() {
    assert_eq!(replace("größe", "ö", "oe"), "groeße");
}

#[test]
fn lines_like_std() {
    for s in ["a\nb\nc", "a\nb\n", "", "\n", "a\r\nb", "x\r", "a\n\nb\n\n"] {
        let expected: Vec<String> = s.lines().map(|l| l.to_string()).collect();
        assert_eq!(split_lines(s), expected, "input {:?}", s);
    }
}

#[test]
fn trim_removes_one_newline() {
    assert_eq!(trim_one_newline("hello\n"), "hello");
    assert_eq!(trim_one_newline("hello\n\n"), "hello\n");
    assert_eq!(trim_one_newline("hello "), "hello ");
    assert_eq!(trim_one_newline(""), "");
}

#[test]
fn string_round_trip() {
    let cs = chars_of("héllo");
    assert_eq!(cs, vec!['h', 'é', 'l', 'l', 'o']);
    assert_eq!(string_of(&cs), "héllo");
}
