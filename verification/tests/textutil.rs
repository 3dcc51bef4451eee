use hack_assembler::numeral::{parse_u16, u16_to_dec};
use hack_assembler::text::{remove_comments_from_lines, trim_line, str_eq, find_char};

fn lines_of(xs: &[&str]) -> Vec<String> {
    xs.iter().map(|s| s.to_string()).collect()
}

#[test]
fn parse_u16_accepts_plain_numerals() {
    assert_eq!(parse_u16("0"), Some(0));
    assert_eq!(parse_u16("7"), Some(7));
    assert_eq!(parse_u16("007"), Some(7));
    assert_eq!(parse_u16("32767"), Some(32767));
    assert_eq!(parse_u16("65535"), Some(65535));
}

#[test]
fn parse_u16_rejects_everything_else() {
    assert_eq!(parse_u16(""), None);
    assert_eq!(parse_u16("65536"), None);
    assert_eq!(parse_u16("99999"), None);
    assert_eq!(parse_u16("12a"), None);
    assert_eq!(parse_u16("a12"), None);
    assert_eq!(parse_u16("-1"), None);
    assert_eq!(parse_u16(" 1"), None);
}

#[test]
fn render_then_parse_recovers_the_value() {
    for n in [0u16, 1, 9, 10, 16, 255, 256, 32767, 65535] {
        let text = u16_to_dec(n);
        assert_eq!(parse_u16(text.as_str()), Some(n));
    }
    assert_eq!(u16_to_dec(0), "0");
    assert_eq!(u16_to_dec(16), "16");
    assert_eq!(u16_to_dec(65535), "65535");
}

#[test]
fn comment_stripping() {
    let lines = lines_of(&[
        "// a comment-only line is dropped",
        "@1 // a trailing comment is cut and the rest trimmed",
        "@2",
        "   // indented comment openers are cut, leaving a blank line",
    ]);
    let cleaned = remove_comments_from_lines(&lines);
    assert_eq!(cleaned, lines_of(&["@1", "@2", ""]));
}

#[test]
fn trimming() {
    assert_eq!(trim_line("  @1  "), "@1");
    assert_eq!(trim_line("\t D=A \r\n"), "D=A");
    assert_eq!(trim_line("    "), "");
    assert_eq!(trim_line(""), "");
    assert_eq!(trim_line("a b"), "a b");
}

#[test]
fn character_search_and_equality() {
    assert_eq!(find_char("D=A", '='), Some(1));
    assert_eq!(find_char("D=A=B", '='), Some(1));
    assert_eq!(find_char("0;JMP", ';'), Some(1));
    assert_eq!(find_char("DA", '='), None);
    assert!(str_eq("JMP", "JMP"));
    assert!(!str_eq("JMP", "JM"));
    assert!(!str_eq("JMP", "JMQ"));
}
