use acervo::text::{
    about, characters, decimal_text, is_white_space, join, replace, same_text, split_trimmed,
    strip_prefix, text_of, trim_range, with_reason, without_repeats,
};

fn strings(values: &[&str]) -> Vec<String> {
    values.iter().map(|value| value.to_string()).collect()
}

#[test]
fn white_space_is_that_of_unicode() {
    for c in '\0'..=char::MAX {
        assert_eq!(is_white_space(c), c.is_whitespace());
    }
}

#[test]
fn texts_are_split_as_lines() {
    for text in [
        "",
        "\n",
        "a",
        "a\nb",
        "a\r\nb\r\n",
        " a \n\n\t b\u{a0}\n",
        "\ra\rb\n",
        "a\n\r\n\r\nb",
        "\u{3000}é \u{2028} ü\n",
    ] {
        let lines: Vec<String> = text
            .lines()
            .map(str::trim)
            .filter(|line| !line.is_empty())
            .map(str::to_owned)
            .collect();
        assert_eq!(split_trimmed(text, &['\n']), lines);
    }
}

#[test]
fn texts_are_split_at_separators() {
    assert_eq!(
        split_trimmed(" *.txt;, a b ,,;*", &[';', ',']),
        ["*.txt", "a b", "*"]
    );
}

#[test]
fn repeats_are_left_out() {
    assert_eq!(
        without_repeats(&strings(&["b", "a", "b", "B", "a"])),
        ["b", "a", "B"]
    );
}

#[test]
fn texts_are_joined_and_replaced() {
    assert_eq!(join(&strings(&["a", "", "c"]), "|"), "a||c");
    assert_eq!(join(&strings(&["a"]), "|"), "a");
    assert_eq!(join(&Vec::new(), "|"), "");
    for (text, from, to) in [
        ("aaa", "aa", "b"),
        ("a\\*b\\*", "\\*", ".*"),
        ("éé", "é", "ee"),
        ("abc", "abcd", "x"),
        ("", "a", "b"),
    ] {
        assert_eq!(replace(text, from, to), text.replace(from, to));
    }
}

#[test]
fn numbers_are_written_in_decimal() {
    for n in [0, 1, 9, 10, 99, 100, 9999, u128::MAX] {
        assert_eq!(decimal_text(n), n.to_string());
    }
}

#[test]
fn pieces_of_text_are_taken() {
    assert!(same_text("é", "é"));
    assert!(!same_text("a", "A"));
    assert_eq!(characters("aé"), ['a', 'é']);
    assert_eq!(text_of(&vec!['a', 'b', 'c'], 1, 3), "bc");
    assert_eq!(trim_range(&vec!['x', ' ', 'b', '\t', 'c'], 1, 4), "b");
    assert_eq!(strip_prefix("abc", "ab").unwrap(), "c");
    assert!(strip_prefix("abc", "b").is_none());
}

#[test]
fn messages_hold_their_reason() {
    assert_eq!(with_reason("Falha: ", "x"), "Falha: x");
    assert_eq!(about("Erro ao ler ", "a.txt", "x"), "Erro ao ler a.txt: x");
}
