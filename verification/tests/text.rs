use jacobi_seidel::text::{chars_of, digit, is_whitespace, parse_usize, trim, write_numeral};

fn chars(s: &str) -> Vec<char> {
    s.chars().collect()
}

fn trimmed(s: &str) -> String {
    let all = chars(s);
    let (start, end) = trim(&all);
    all[start..end].iter().collect()
}

#[test]
fn white_space_is_what_the_standard_library_calls_so() {
    for code in 0..=0x10FFFF_u32 {
        if let Some(c) = char::from_u32(code) {
            assert_eq!(is_whitespace(c), c.is_whitespace(), "U+{:04X}", code);
        }
    }
}

#[test]
fn chars_of_gives_every_character() {
    assert_eq!(chars_of(""), Vec::<char>::new());
    assert_eq!(chars_of("a b"), vec!['a', ' ', 'b']);
    assert_eq!(chars_of("é\u{3000}1"), vec!['é', '\u{3000}', '1']);
}

#[test]
fn trim_drops_white_space_at_both_ends_only() {
    for s in [
        "",
        " ",
        " \t\r\n",
        "abc",
        "  abc",
        "abc  ",
        " a b  c \n",
        "\u{a0}12\u{2003}",
        "\u{3000}",
        "x",
        " x",
        "x ",
    ] {
        assert_eq!(trimmed(s), s.trim(), "{:?}", s);
    }
    assert_eq!(trim(&chars("  ab ")), (2, 4));
    assert_eq!(trim(&chars("   ")), (3, 3));
    assert_eq!(trim(&chars("")), (0, 0));
}

#[test]
fn numerals_are_read_as_the_standard_library_reads_them() {
    let max = usize::MAX.to_string();
    let over = format!("{}0", usize::MAX);
    let next = (usize::MAX as u128 + 1).to_string();
    let zeros = format!("{}7", "0".repeat(60));
    let signed_max = format!("+{}", usize::MAX);
    for s in [
        "0", "7", "42", "+42", "007", "10000", "", "+", "-", "-1", "-0", "++1", "+-1", "1+", "4 2",
        " 42", "42 ", "4.2", "1e3", "0x10", "a", "٣", "１", "1_000", max.as_str(), over.as_str(),
        next.as_str(), zeros.as_str(), signed_max.as_str(),
    ] {
        assert_eq!(parse_usize(&chars(s)), s.parse::<usize>().ok(), "{:?}", s);
    }
    assert_eq!(parse_usize(&chars("42")), Some(42));
    assert_eq!(parse_usize(&chars("+007")), Some(7));
    assert_eq!(parse_usize(&chars(&max)), Some(usize::MAX));
    assert_eq!(parse_usize(&chars(&next)), None);
    assert_eq!(parse_usize(&chars("12a")), None);
}

#[test]
fn digits_are_written_as_characters() {
    let written: String = (0..10).map(digit).collect();
    assert_eq!(written, "0123456789");
}

#[test]
fn numerals_are_written_as_the_standard_library_writes_them() {
    for n in [0_u128, 1, 9, 10, 11, 99, 100, 101, 1_000_000, 18_446_744_073_709_551_615, u128::MAX]
    {
        let written: String = write_numeral(n).iter().collect();
        assert_eq!(written, n.to_string());
    }
}

#[test]
fn a_written_numeral_reads_back() {
    for n in [0_usize, 7, 10, 4_096, 1_000_000, usize::MAX] {
        assert_eq!(parse_usize(&write_numeral(n as u128)), Some(n));
    }
}
