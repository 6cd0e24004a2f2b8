use raytracer::text::{chars_of, is_whitespace, parse_index, split_lines, split_words};

fn chars(s: &str) -> Vec<char> {
    s.chars().collect()
}

fn strings(rows: Vec<Vec<char>>) -> Vec<String> {
    rows.into_iter().map(|r| r.into_iter().collect()).collect()
}

#[test]
fn chars_of_a_string_with_wide_characters() {
    assert_eq!(chars_of("v 1\u{e9}\u{3000}\n"), vec!['v', ' ', '1', '\u{e9}', '\u{3000}', '\n']);
    assert_eq!(chars_of(""), Vec::<char>::new());
}

#[test]
fn lines_of_an_empty_text_is_one_empty_line() {
    assert_eq!(strings(split_lines(&chars(""))), vec![String::new()]);
}

#[test]
fn a_trailing_line_feed_ends_in_an_empty_line() {
    assert_eq!(strings(split_lines(&chars("a\nb\n"))), vec!["a", "b", ""]);
    assert_eq!(strings(split_lines(&chars("\n"))), vec!["", ""]);
    assert_eq!(strings(split_lines(&chars("\n\nx"))), vec!["", "", "x"]);
}

#[test]
fn carriage_returns_stay_in_their_line() {
    assert_eq!(strings(split_lines(&chars("a\r\nb"))), vec!["a\r", "b"]);
}

#[test]
fn lines_agree_with_the_standard_split() {
    for text in ["", "x", "\n", "a\nb", "a\n\nb\n", "v 1 2 3\nf 1 2 3\n# end", "\r\n\r\n", "a\u{2028}b\nc"] {
        let expected: Vec<String> = text.split("\n").map(|s| s.to_string()).collect();
        assert_eq!(strings(split_lines(&chars(text))), expected, "text {:?}", text);
    }
}

#[test]
fn lines_joined_by_line_feeds_are_the_text() {
    for text in ["", "x", "\n", "a\nb", "a\n\nb\n", "one\ntwo\nthree"] {
        let joined = strings(split_lines(&chars(text))).join("\n");
        assert_eq!(joined, text);
    }
}

#[test]
fn words_of_a_line() {
    assert_eq!(strings(split_words(&chars("f 1 2 3"))), vec!["f", "1", "2", "3"]);
    assert_eq!(strings(split_words(&chars("  v\t0.5   -1e3 \r"))), vec!["v", "0.5", "-1e3"]);
    assert_eq!(strings(split_words(&chars(""))), Vec::<String>::new());
    assert_eq!(strings(split_words(&chars(" \t \u{a0}"))), Vec::<String>::new());
    assert_eq!(strings(split_words(&chars("x"))), vec!["x"]);
}

#[test]
fn words_agree_with_the_standard_split() {
    for line in ["", " ", "a", " a", "a ", "a b", "a  b", "\ta\u{3000}b\u{2003}c\r", "f 1/2/3 4/5/6", "\u{85}x\u{1680}y\u{205f}", "no-break\u{a0}space", "zero\u{200b}width"] {
        let expected: Vec<String> = line.split_whitespace().map(|s| s.to_string()).collect();
        assert_eq!(strings(split_words(&chars(line))), expected, "line {:?}", line);
    }
}

#[test]
fn white_space_is_what_the_standard_library_calls_so() {
    let mut c = 0u32;
    while c <= 0x10ffff {
        if let Some(ch) = char::from_u32(c) {
            assert_eq!(is_whitespace(ch), ch.is_whitespace(), "U+{:04X}", c);
        }
        c += 1;
    }
}

#[test]
fn index_of_plain_numerals() {
    assert_eq!(parse_index(&chars("0")), Some(0));
    assert_eq!(parse_index(&chars("7")), Some(7));
    assert_eq!(parse_index(&chars("12")), Some(12));
    assert_eq!(parse_index(&chars("0012")), Some(12));
    assert_eq!(parse_index(&chars("+5")), Some(5));
    assert_eq!(parse_index(&chars("968")), Some(968));
}

#[test]
fn index_of_what_is_no_numeral() {
    for word in ["", "+", "-", "-5", "++5", "+-5", "5+", "1/2/3", "1.5", "1e3", "0x10", "12a", "a12", " 1", "1 ", "\u{661}", "\u{ff11}"] {
        assert_eq!(parse_index(&chars(word)), None, "word {:?}", word);
    }
}

#[test]
fn index_at_the_edge_of_the_machine_word() {
    let max = format!("{}", usize::MAX);
    assert_eq!(parse_index(&chars(&max)), Some(usize::MAX));
    let over = format!("{}", (usize::MAX as u128) + 1);
    assert_eq!(parse_index(&chars(&over)), None);
    let far_over = format!("{}0", usize::MAX);
    assert_eq!(parse_index(&chars(&far_over)), None);
    let padded = format!("000{}", usize::MAX);
    assert_eq!(parse_index(&chars(&padded)), Some(usize::MAX));
    assert_eq!(parse_index(&chars("99999999999999999999999999999999999999x")), None);
}

#[test]
fn index_agrees_with_the_standard_parser() {
    let max = format!("{}", usize::MAX);
    let over = format!("{}", (usize::MAX as u128) + 7);
    for word in ["0", "1", "42", "+42", "-42", "", "+", "007", "4294967295", "4294967296", "18446744073709551615", "18446744073709551616", "1_000", "١٢", "12 ", max.as_str(), over.as_str()] {
        assert_eq!(parse_index(&chars(word)), word.parse::<usize>().ok(), "word {:?}", word);
    }
}
