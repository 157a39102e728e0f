use boxing_trainer::text::{
    chars_of, decimal_string, folded, is_whitespace_char, range_eq_ignore_ascii_case,
    split_ranges, trim_range,
};

fn fields(line: &str, sep: char) -> Vec<String> {
    let chars = chars_of(line);
    split_ranges(&chars, sep)
        .iter()
        .map(|&(from, to)| chars[from..to].iter().collect())
        .collect()
}

fn trimmed(text: &str) -> String {
    let chars = chars_of(text);
    let (from, to) = trim_range(&chars, 0, chars.len());
    chars[from..to].iter().collect()
}

#[test]
fn chars_of_gives_every_character() {
    assert_eq!(chars_of(""), Vec::<char>::new());
    assert_eq!(chars_of("a;é ☃"), vec!['a', ';', 'é', ' ', '☃']);
}

#[test]
fn whitespace_is_what_the_standard_library_calls_whitespace() {
    for code in 0..=0x11_0000u32 {
        if let Some(c) = char::from_u32(code) {
            assert_eq!(is_whitespace_char(c), c.is_whitespace(), "U+{:04X}", code);
        }
    }
}

#[test]
fn folding_is_ascii_lower_case() {
    for code in 0..=0x11_0000u32 {
        if let Some(c) = char::from_u32(code) {
            assert_eq!(folded(c), c.to_ascii_lowercase() as u32, "U+{:04X}", code);
        }
    }
}

#[test]
fn split_agrees_with_the_standard_library() {
    let lines = [
        "",
        ";",
        ";;",
        "a",
        "a;b",
        "a;;b",
        ";a;b;",
        "1-1-2-step_back-2; Long;  Yes;  No;  No; https://example.com",
        "é;☃;;x ",
    ];
    for line in lines {
        let expected: Vec<String> = line.split(';').map(str::to_owned).collect();
        assert_eq!(fields(line, ';'), expected, "{:?}", line);
    }
    assert_eq!(fields("a\nb\n", '\n'), vec!["a".to_owned(), "b".to_owned(), String::new()]);
}

#[test]
fn trim_agrees_with_the_standard_library() {
    let texts = [
        "",
        " ",
        " \t\r\n",
        "a",
        "  a b  ",
        "\u{a0}x\u{3000}",
        "\u{2003}é ☃\u{85}\u{1680}",
        "\u{200b}x\u{200b}",
        "x\u{180e}",
    ];
    for text in texts {
        assert_eq!(trimmed(text), text.trim(), "{:?}", text);
    }
    let chars = chars_of("ab  cd  ef");
    assert_eq!(trim_range(&chars, 2, 8), (4, 6));
    assert_eq!(trim_range(&chars, 2, 4), (4, 4));
    assert_eq!(trim_range(&chars, 3, 3), (3, 3));
}

#[test]
fn comparison_ignores_ascii_case_only() {
    let chars = chars_of("x LoNg y");
    assert!(range_eq_ignore_ascii_case(&chars, 2, 6, "long"));
    assert!(range_eq_ignore_ascii_case(&chars, 2, 6, "LONG"));
    assert!(!range_eq_ignore_ascii_case(&chars, 2, 5, "long"));
    assert!(!range_eq_ignore_ascii_case(&chars, 2, 6, "lung"));
    assert!(range_eq_ignore_ascii_case(&chars, 3, 3, ""));
    let chars = chars_of("ÉCOLE");
    assert!(range_eq_ignore_ascii_case(&chars, 0, 5, "École"));
    assert!(!range_eq_ignore_ascii_case(&chars, 0, 5, "école"));
    let chars = chars_of("K");
    assert!(!range_eq_ignore_ascii_case(&chars, 0, 1, "\u{212a}"));
}

#[test]
fn decimal_string_writes_numbers_as_the_standard_library_does() {
    for n in [0usize, 1, 9, 10, 11, 99, 100, 101, 120, 1000, 65_535, 4_294_967_295, usize::MAX] {
        assert_eq!(decimal_string(n), n.to_string());
    }
}
