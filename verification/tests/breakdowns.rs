use unicode_bot::breakdown::{
    format_chars, get_char_names, render_line, render_named_line, Limits,
};
use unicode_bot::digits::{numeral_len, push_numeral, push_padded_numeral};

const NOTICE: &str = "\nYour message has been truncated because it was too big. Try some of the special commands in /help";

fn chars_of(text: &str) -> Vec<char> {
    text.chars().collect()
}

#[test]
fn numerals_in_base_sixteen_and_ten() {
    let mut out = String::new();
    push_numeral(&mut out, 0, 16);
    out.push(' ');
    push_numeral(&mut out, 0x1F933, 16);
    out.push(' ');
    push_numeral(&mut out, 255, 16);
    out.push(' ');
    push_numeral(&mut out, 1234567890, 10);
    out.push(' ');
    push_numeral(&mut out, u64::MAX, 10);
    out.push(' ');
    push_numeral(&mut out, 0xABCDEF, 16);
    assert_eq!(out, "0 1F933 FF 1234567890 18446744073709551615 ABCDEF");
}

#[test]
fn numerals_are_padded_to_the_width() {
    let mut out = String::new();
    push_padded_numeral(&mut out, 0x41, 16, 4);
    out.push(' ');
    push_padded_numeral(&mut out, 0, 16, 4);
    out.push(' ');
    push_padded_numeral(&mut out, 0x1F933, 16, 4);
    out.push(' ');
    push_padded_numeral(&mut out, 7, 10, 0);
    assert_eq!(out, "0041 0000 1F933 7");
    assert_eq!(numeral_len(0, 10), 1);
    assert_eq!(numeral_len(9, 10), 1);
    assert_eq!(numeral_len(10, 10), 2);
    assert_eq!(numeral_len(0xFFFF, 16), 4);
    assert_eq!(numeral_len(u64::MAX, 2), 64);
}

#[test]
fn one_line_per_character() {
    let (line, known) = render_line('A');
    assert_eq!(
        line,
        "`U+0041` [LATIN CAPITAL LETTER A](https://fileformat.info/info/unicode/char/41)\n"
    );
    assert!(known);
    let (line, known) = render_line('\u{10FFFF}');
    assert_eq!(
        line,
        "`U+10FFFF` [UNKNOWN CHARACTER](https://fileformat.info/info/unicode/char/10FFFF)\n"
    );
    assert!(!known);
    let (line, _) = render_line('\n');
    assert_eq!(line, "`U+000A` [LINE FEED (LF)](https://fileformat.info/info/unicode/char/A)\n");
}

#[test]
fn empty_input_gives_empty_text() {
    let result = format_chars(&[], &Limits { max_bytes: 4000, max_entities: 50 });
    assert_eq!(result.text, "");
    assert!(!result.truncated);
    assert!(!result.unresolved);
    assert_eq!(get_char_names(&[]), "");
    let result = format_chars(&[], &Limits { max_bytes: 0, max_entities: 0 });
    assert_eq!(result.text, "");
    assert!(!result.truncated);
}

#[test]
fn two_characters_two_lines() {
    let text = get_char_names(&['A', '🤳']);
    assert_eq!(
        text,
        "`U+0041` [LATIN CAPITAL LETTER A](https://fileformat.info/info/unicode/char/41)\n\
         `U+1F933` [SELFIE](https://fileformat.info/info/unicode/char/1F933)\n"
    );
    assert!(!text.contains("truncated"));
}

#[test]
fn fifty_one_characters_are_cut_after_fifty() {
    let mut chars: Vec<char> = Vec::new();
    for _ in 0..50 {
        chars.push('a');
    }
    chars.push('Z');
    let result = format_chars(&chars, &Limits { max_bytes: 1_000_000, max_entities: 50 });
    let line = "`U+0061` [LATIN SMALL LETTER A](https://fileformat.info/info/unicode/char/61)\n";
    let mut expected = String::new();
    for _ in 0..50 {
        expected.push_str(line);
    }
    expected.push_str(NOTICE);
    assert_eq!(result.text, expected);
    assert!(result.truncated);
    assert!(!result.text.contains("U+005A"));
    assert_eq!(result.text.matches("](https://").count(), 50);
}

#[test]
fn fifty_characters_are_not_cut() {
    let chars: Vec<char> = std::iter::repeat('b').take(50).collect();
    let result = format_chars(&chars, &Limits { max_bytes: 4000, max_entities: 50 });
    assert!(!result.truncated);
    assert_eq!(result.text.matches('\n').count(), 50);
    assert!(!result.text.ends_with(NOTICE));
    assert_eq!(result.text, get_char_names(&chars));
}

#[test]
fn standard_limits_apply_both_caps() {
    // Short lines run into the line cap before they fill the byte budget.
    let chars: Vec<char> = std::iter::repeat('a').take(60).collect();
    let text = get_char_names(&chars);
    assert_eq!(text.matches("](https://").count(), 50);
    assert!(text.ends_with(NOTICE));
    // A longer name fills the byte budget before the fiftieth line.
    let long: Vec<char> = std::iter::repeat('\u{FDFA}').take(60).collect();
    let text = get_char_names(&long);
    let line = render_line('\u{FDFA}').0;
    let fit = (3999 / line.len()).min(50);
    assert!(fit < 50);
    assert_eq!(text.matches("](https://").count(), fit);
    assert_eq!(text.len(), fit * line.len() + NOTICE.len());
}

#[test]
fn byte_budget_is_checked_before_each_line() {
    let line = "`U+0041` [LATIN CAPITAL LETTER A](https://fileformat.info/info/unicode/char/41)\n";
    assert_eq!(line.len(), 80);
    let chars = chars_of("AAA");
    // Two lines are 160 bytes: a budget of 160 is reached by the second line.
    let result = format_chars(&chars, &Limits { max_bytes: 160, max_entities: 50 });
    assert_eq!(result.text, format!("{}{}", line, NOTICE));
    assert!(result.truncated);
    let result = format_chars(&chars, &Limits { max_bytes: 161, max_entities: 50 });
    assert_eq!(result.text, format!("{}{}{}", line, line, NOTICE));
    let result = format_chars(&chars, &Limits { max_bytes: 241, max_entities: 50 });
    assert_eq!(result.text, format!("{}{}{}", line, line, line));
    assert!(!result.truncated);
    let result = format_chars(&chars, &Limits { max_bytes: 0, max_entities: 50 });
    assert_eq!(result.text, NOTICE);
    let result = format_chars(&chars, &Limits { max_bytes: 4000, max_entities: 0 });
    assert_eq!(result.text, NOTICE);
    assert!(result.truncated);
}

#[test]
fn text_stays_within_budget_plus_notice() {
    let chars: Vec<char> = chars_of("The quick brown fox jumps over the lazy dog 🤳🥔");
    for max_bytes in [0usize, 1, 79, 80, 81, 500, 1000, 4000] {
        for max_entities in [0usize, 1, 5, 50] {
            let limits = Limits { max_bytes, max_entities };
            let result = format_chars(&chars, &limits);
            assert!(result.text.len() <= max_bytes + NOTICE.len());
            let lines = result.text.matches("](https://").count();
            assert!(lines <= max_entities);
            assert!(lines <= chars.len());
            assert_eq!(result.truncated, lines < chars.len());
            assert_eq!(result.truncated, result.text.ends_with(NOTICE));
        }
    }
}

#[test]
fn same_input_same_text() {
    let chars = chars_of("héllo wörld, 你好 🤳");
    let limits = Limits { max_bytes: 700, max_entities: 9 };
    let first = format_chars(&chars, &limits);
    let second = format_chars(&chars, &limits);
    assert_eq!(first.text, second.text);
    assert_eq!(first.truncated, second.truncated);
    assert_eq!(first.unresolved, second.unresolved);
    assert_eq!(get_char_names(&chars), get_char_names(&chars));
}

#[test]
fn unresolved_tells_of_rendered_characters_only() {
    let limits = Limits { max_bytes: 4000, max_entities: 2 };
    let result = format_chars(&['A', '\u{10FFFF}', 'B'], &limits);
    assert!(result.unresolved);
    assert!(result.truncated);
    let result = format_chars(&['A', 'B', '\u{10FFFF}'], &limits);
    assert!(!result.unresolved);
    assert!(result.truncated);
    let result = format_chars(&['\u{3401}'], &limits);
    assert!(!result.unresolved);
    assert_eq!(
        result.text,
        "`U+3401` [CJK Ideograph Extension A](https://fileformat.info/info/unicode/char/3401)\n"
    );
}

#[test]
fn a_line_holds_code_name_and_link() {
    assert_eq!(
        render_named_line('\u{1F933}', "SELFIE"),
        "`U+1F933` [SELFIE](https://fileformat.info/info/unicode/char/1F933)\n"
    );
    assert_eq!(
        render_named_line('\0', ""),
        "`U+0000` [](https://fileformat.info/info/unicode/char/0)\n"
    );
    assert_eq!(
        render_named_line('\u{ABCD}', "x y"),
        "`U+ABCD` [x y](https://fileformat.info/info/unicode/char/ABCD)\n"
    );
    assert_eq!(
        render_named_line('\u{10FFFF}', "née"),
        "`U+10FFFF` [née](https://fileformat.info/info/unicode/char/10FFFF)\n"
    );
    assert_eq!(
        render_named_line('\u{F}', "SHIFT IN"),
        "`U+000F` [SHIFT IN](https://fileformat.info/info/unicode/char/F)\n"
    );
}
