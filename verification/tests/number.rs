use jacobi_seidel::number::is_real;

fn chars(s: &str) -> Vec<char> {
    s.chars().collect()
}

fn agrees(s: &str) {
    assert_eq!(is_real(&chars(s)), s.parse::<f64>().is_ok(), "{:?}", s);
}

#[test]
fn numbers_are_recognised() {
    for s in [
        "0", "7", "42", "+42", "-42", "007", "1.5", "-1.5", "+1.5", "1.", ".5", "-.5", "+.5", "1e5",
        "1E5", "1e+5", "1e-5", "1.5e10", "1.e5", ".5e5", "-0.0", "1e400", "1e-400",
        "123456789012345678901234567890", "0.000000000000000000000000000001", "inf", "-inf",
        "+inf", "INF", "Infinity", "-infinity", "iNfInItY", "nan", "NaN", "-nan", "+NAN",
    ] {
        assert!(is_real(&chars(s)), "{:?}", s);
        agrees(s);
    }
}

#[test]
fn other_text_is_refused() {
    for s in [
        "", "+", "-", ".", "+.", "-.", "e", "e5", "1e", "1e+", "1e-", ".e5", "+e5", "1.5.2", "1..5",
        "1e5.5", "1e5e5", "--1", "+-1", "1-", "1+", " 1", "1 ", "1 2", "1,5", "0x10", "1_000", "1f64",
        "in", "infi", "infinit", "infinityy", "na", "nann", "i", "n", "++inf", "inf1", "1inf", "٣",
        "１", "1e٣", "é", "∞", "1\u{a0}", "1d5", "1D5", "1e 5", "- 1",
    ] {
        assert!(!is_real(&chars(s)), "{:?}", s);
        agrees(s);
    }
}

#[test]
fn short_strings_are_judged_as_the_standard_library_judges_them() {
    let alphabet = [
        '+', '-', '.', 'e', 'E', '0', '7', 'i', 'n', 'f', 'a', 'N', 'I', ' ', 'x',
    ];
    let mut strings = vec![String::new()];
    let mut checked = 0;
    for _ in 0..5 {
        let mut longer = Vec::with_capacity(strings.len() * alphabet.len());
        for s in &strings {
            for c in alphabet {
                let mut t = s.clone();
                t.push(c);
                agrees(&t);
                checked += 1;
                longer.push(t);
            }
        }
        strings = longer;
    }
    agrees("");
    assert_eq!(checked, 15 + 225 + 3_375 + 50_625 + 759_375);
}

#[test]
fn the_long_word_is_judged_in_every_spelling_near_it() {
    for sign in ["", "+", "-"] {
        for word in ["infinity", "INFINITY", "Infinity", "infinitY"] {
            for cut in 0..=word.len() {
                agrees(&format!("{sign}{}", &word[..cut]));
                agrees(&format!("{sign}{}{}", &word[..cut], &word[cut..].to_uppercase()));
                agrees(&format!("{sign}{}x{}", &word[..cut], &word[cut..]));
            }
        }
    }
}
