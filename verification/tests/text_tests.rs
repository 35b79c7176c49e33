use gnugo_rs::text::{
    chars_of, digit_of, is_lower, is_space, is_upper, join, lowered, parse_i32, parse_u32,
    parse_u64, parse_usize, push_all, push_decimal, push_str, split_words, string_of, text_is,
    to_upper,
};

fn cs(s: &str) -> Vec<char> {
    s.chars().collect()
}

#[test]
fn chars_and_strings_round_trip() {
    assert_eq!(chars_of("héllo ○"), vec!['h', 'é', 'l', 'l', 'o', ' ', '○']);
    assert_eq!(string_of(&vec!['h', 'é', '○']), "hé○");
    assert_eq!(string_of(&Vec::new()), "");
    assert_eq!(chars_of(""), Vec::<char>::new());
}

#[test]
fn decimal_notation() {
    for &(n, text) in &[(0usize, "0"), (7, "7"), (10, "10"), (19, "19"), (100, "100"), (4071, "4071")]
    {
        let mut out = cs("x");
        push_decimal(&mut out, n);
        assert_eq!(string_of(&out), format!("x{}", text));
    }
    let mut out = Vec::new();
    push_decimal(&mut out, usize::MAX);
    assert_eq!(string_of(&out), format!("{}", usize::MAX));
}

#[test]
fn pushing_text() {
    let mut out = cs("ab");
    push_str(&mut out, "cd");
    push_all(&mut out, &cs("ef"));
    assert_eq!(string_of(&out), "abcdef");
    assert!(text_is(&out, "abcdef"));
    assert!(!text_is(&out, "abcde"));
    assert!(!text_is(&out, "abcdeg"));
    assert!(text_is(&Vec::new(), ""));
}

#[test]
fn digits_and_letters() {
    assert_eq!(digit_of('0'), Some(0));
    assert_eq!(digit_of('9'), Some(9));
    assert_eq!(digit_of('a'), None);
    assert_eq!(digit_of('٣'), None);
    assert!(is_upper('A') && is_upper('Z') && !is_upper('a') && !is_upper('['));
    assert!(is_lower('a') && is_lower('z') && !is_lower('A') && !is_lower('{'));
    assert_eq!(to_upper('d'), 'D');
    assert_eq!(to_upper('D'), 'D');
    assert_eq!(to_upper('1'), '1');
    assert_eq!(to_upper('é'), 'é');
}

#[test]
fn white_space_is_what_unicode_says() {
    for code in 0u32..0x3100 {
        if let Some(c) = char::from_u32(code) {
            assert_eq!(is_space(c), c.is_whitespace(), "U+{:04X}", code);
        }
    }
}

#[test]
fn words_are_runs_without_white_space() {
    let words = split_words(&cs("  play\tblack   D4 \n"));
    let got: Vec<String> = words.iter().map(string_of).collect();
    assert_eq!(got, vec!["play", "black", "D4"]);
    assert!(split_words(&cs("   ")).is_empty());
    assert!(split_words(&cs("")).is_empty());
    let one = split_words(&cs("x"));
    assert_eq!(one.len(), 1);
    assert_eq!(string_of(&one[0]), "x");
}

#[test]
fn joining() {
    assert_eq!(string_of(&join(&vec![cs("a"), cs("bc"), cs("")], ", ")), "a, bc, ");
    assert_eq!(string_of(&join(&vec![cs("only")], "\n")), "only");
    assert_eq!(string_of(&join(&Vec::new(), "\n")), "");
}

#[test]
fn numbers_are_read_as_the_standard_library_reads_them() {
    let cases = [
        "0", "7", "007", "+5", "-5", "+", "-", "", " 1", "1 ", "12a", "4294967295", "4294967296",
        "18446744073709551615", "18446744073709551616", "2147483647", "2147483648", "-2147483648",
        "-2147483649", "+-1", "--1", "1_000", "٣",
    ];
    for text in cases.iter() {
        assert_eq!(parse_u64(&cs(text)), text.parse::<u64>().ok(), "{:?}", text);
        assert_eq!(parse_u32(&cs(text)), text.parse::<u32>().ok(), "{:?}", text);
        assert_eq!(parse_usize(&cs(text)), text.parse::<usize>().ok(), "{:?}", text);
        assert_eq!(parse_i32(&cs(text)), text.parse::<i32>().ok(), "{:?}", text);
    }
}

#[test]
fn lower_case() {
    assert_eq!(string_of(&lowered(&cs("BlAcK"))), "black");
    assert_eq!(string_of(&lowered(&cs("PASS"))), "pass");
    assert_eq!(string_of(&lowered(&cs("ÉA"))), "éa");
    assert_eq!(string_of(&lowered(&cs(""))), "");
}
