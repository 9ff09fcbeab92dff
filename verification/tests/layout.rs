use jacobi_seidel::layout::{
    non_number_field, scan, split_fields, split_lines, LayoutError, Span,
};

fn chars(s: &str) -> Vec<char> {
    s.chars().collect()
}

fn piece(text: &[char], span: &Span) -> String {
    text[span.start..span.end].iter().collect()
}

fn lines_of(s: &str) -> Vec<String> {
    let text = chars(s);
    split_lines(&text).iter().map(|span| piece(&text, span)).collect()
}

fn fields_of(s: &str) -> Vec<String> {
    let text = chars(s);
    let whole = Span { start: 0, end: text.len() };
    split_fields(&text, whole).iter().map(|span| piece(&text, span)).collect()
}

fn numbers(s: &str, unknowns: usize) -> Result<Vec<Vec<f64>>, LayoutError> {
    let text = chars(s);
    let grid = scan(&text, unknowns)?;
    Ok(grid
        .iter()
        .map(|row| row.iter().map(|span| piece(&text, span).parse().unwrap()).collect())
        .collect())
}

#[test]
fn lines_are_those_of_a_buffered_reader() {
    for s in [
        "",
        "\n",
        "a",
        "a\n",
        "a\nb",
        "a\nb\n",
        "a\r\nb\r\n",
        "a\r",
        "a\r\n",
        "\r\n",
        "\r",
        "\n\n",
        "a\n\nb",
        "a\r\r\nb",
        "1 2 3\n4 5 6\n",
        "x\n\r\ny\n\r",
    ] {
        let expected: Vec<String> =
            std::io::BufRead::lines(s.as_bytes()).map(|line| line.unwrap()).collect();
        assert_eq!(lines_of(s), expected, "{:?}", s);
    }
}

#[test]
fn line_spans_point_into_the_text() {
    let text = chars("12 3\r\n\n4");
    assert_eq!(
        split_lines(&text),
        vec![
            Span { start: 0, end: 4 },
            Span { start: 6, end: 6 },
            Span { start: 7, end: 8 },
        ]
    );
    assert_eq!(split_lines(&chars("")), Vec::<Span>::new());
}

#[test]
fn fields_are_the_runs_between_white_space() {
    for s in [
        "",
        " ",
        "a",
        "1 2 3",
        "1  2",
        " 1 2",
        "1 2 ",
        "  1 \t 2  ",
        "1\t2",
        "1\u{a0}2\u{3000}3",
        "1\u{a0}\u{2003}\u{3000}2",
        "  ",
        "\r",
        "4.5 -1e3 inf",
        "2 4\r",
    ] {
        let expected: Vec<String> = s.split_whitespace().map(String::from).collect();
        assert_eq!(fields_of(s), expected, "{:?}", s);
    }
    assert_eq!(fields_of("2  4"), vec!["2", "4"]);
    assert_eq!(fields_of(" 2 4"), vec!["2", "4"]);
    assert_eq!(fields_of("2 4 "), vec!["2", "4"]);
    assert_eq!(fields_of("   "), Vec::<String>::new());
}

#[test]
fn fields_stay_inside_their_line() {
    let text = chars("9 9\n1 22 \n9 9");
    let line = Span { start: 4, end: 9 };
    assert_eq!(
        split_fields(&text, line),
        vec![Span { start: 4, end: 5 }, Span { start: 6, end: 8 }]
    );
    assert_eq!(split_fields(&text, Span { start: 2, end: 2 }), Vec::<Span>::new());
    assert_eq!(split_fields(&text, Span { start: 8, end: 10 }), Vec::<Span>::new());
    assert_eq!(
        split_fields(&text, Span { start: 7, end: 12 }),
        vec![Span { start: 7, end: 8 }, Span { start: 10, end: 11 }]
    );
}

#[test]
fn first_field_that_is_no_number_is_found() {
    let text = chars("12 x  -3.5e2");
    let twelve = Span { start: 0, end: 2 };
    let letter = Span { start: 3, end: 4 };
    let empty = Span { start: 5, end: 5 };
    let last = Span { start: 6, end: 12 };
    assert_eq!(non_number_field(&text, &vec![twelve, last]), None);
    assert_eq!(non_number_field(&text, &vec![twelve, letter, empty]), Some(1));
    assert_eq!(non_number_field(&text, &vec![twelve, empty, letter]), Some(1));
    assert_eq!(non_number_field(&text, &vec![empty]), Some(0));
    assert_eq!(non_number_field(&text, &Vec::new()), None);
    assert_eq!(non_number_field(&text, &vec![Span { start: 0, end: 4 }]), Some(0));
}

#[test]
fn a_well_formed_text_lays_out_its_numbers() {
    assert_eq!(
        numbers("4 1 5\n2 3 7\n", 2),
        Ok(vec![vec![4.0, 1.0, 5.0], vec![2.0, 3.0, 7.0]])
    );
    assert_eq!(
        numbers("4 1 5\r\n2\t3\t7", 2),
        Ok(vec![vec![4.0, 1.0, 5.0], vec![2.0, 3.0, 7.0]])
    );
    assert_eq!(numbers("2.0 4.0", 1), Ok(vec![vec![2.0, 4.0]]));
    assert_eq!(numbers("-0.5 1e2\n", 1), Ok(vec![vec![-0.5, 100.0]]));
    assert_eq!(numbers("", 0), Ok(Vec::new()));
    let text = chars("10 2\n");
    assert_eq!(
        scan(&text, 1),
        Ok(vec![vec![Span { start: 0, end: 2 }, Span { start: 3, end: 4 }]])
    );
}

#[test]
fn a_wrong_number_of_lines_is_reported_first() {
    assert_eq!(numbers("4 1 5\n2 3 7\n", 3), Err(LayoutError::RowCount { found: 2 }));
    assert_eq!(numbers("4 1 5\n2 3 7\n", 1), Err(LayoutError::RowCount { found: 2 }));
    assert_eq!(numbers("", 1), Err(LayoutError::RowCount { found: 0 }));
    assert_eq!(numbers("1  2\n", 0), Err(LayoutError::RowCount { found: 1 }));
    assert_eq!(numbers("4 1 5\n2 3 7\n\n", 2), Err(LayoutError::RowCount { found: 3 }));
}

#[test]
fn a_wrong_number_of_fields_names_the_line() {
    assert_eq!(
        numbers("4 1 5\n2 3\n", 2),
        Err(LayoutError::FieldCount { line: 1, found: 2 })
    );
    assert_eq!(
        numbers("4 1 5 6\n2 3\n", 2),
        Err(LayoutError::FieldCount { line: 0, found: 4 })
    );
    assert_eq!(
        numbers("4 1 5\n\n", 2),
        Err(LayoutError::FieldCount { line: 1, found: 0 })
    );
    assert_eq!(
        numbers("1 2 3\n  \n", 2),
        Err(LayoutError::FieldCount { line: 1, found: 0 })
    );
    assert_eq!(numbers("\n", 1), Err(LayoutError::FieldCount { line: 0, found: 0 }));
    assert_eq!(numbers(" \t \n", 1), Err(LayoutError::FieldCount { line: 0, found: 0 }));
    assert_eq!(numbers("2  4  6\n", 1), Err(LayoutError::FieldCount { line: 0, found: 3 }));
    assert_eq!(numbers("\n", 0), Err(LayoutError::RowCount { found: 1 }));
}

#[test]
fn runs_of_white_space_part_numbers_and_make_none() {
    assert_eq!(numbers("2  4", 1), Ok(vec![vec![2.0, 4.0]]));
    assert_eq!(numbers(" 2 4", 1), Ok(vec![vec![2.0, 4.0]]));
    assert_eq!(numbers("2 4 ", 1), Ok(vec![vec![2.0, 4.0]]));
    assert_eq!(numbers("2 4\r", 1), Ok(vec![vec![2.0, 4.0]]));
    assert_eq!(numbers("\t2 \u{a0} 4 \r\n", 1), Ok(vec![vec![2.0, 4.0]]));
    assert_eq!(
        numbers("4 1 5 \n2  3\t\t7\n", 2),
        Ok(vec![vec![4.0, 1.0, 5.0], vec![2.0, 3.0, 7.0]])
    );
    assert_eq!(
        numbers("  4   1   5\r\n  2   3   7\r", 2),
        Ok(vec![vec![4.0, 1.0, 5.0], vec![2.0, 3.0, 7.0]])
    );
    let text = chars("2  4");
    assert_eq!(
        scan(&text, 1),
        Ok(vec![vec![Span { start: 0, end: 1 }, Span { start: 3, end: 4 }]])
    );
}

#[test]
fn a_token_that_is_no_number_names_line_and_field() {
    assert_eq!(
        numbers("4 1 5\n2 x 7\n", 2),
        Err(LayoutError::NotANumber { line: 1, field: 1 })
    );
    assert_eq!(
        numbers("4 1,5 5\n2 x 7\n", 2),
        Err(LayoutError::NotANumber { line: 0, field: 1 })
    );
    assert_eq!(numbers("1e 2\n", 1), Err(LayoutError::NotANumber { line: 0, field: 0 }));
    assert_eq!(numbers("1 0x2\n", 1), Err(LayoutError::NotANumber { line: 0, field: 1 }));
    assert_eq!(numbers("  1   0x2\n", 1), Err(LayoutError::NotANumber { line: 0, field: 1 }));
    assert_eq!(
        numbers("4 1 5\r\n2 3 7é\n", 2),
        Err(LayoutError::NotANumber { line: 1, field: 2 })
    );
    assert_eq!(
        numbers("4 1 5\r\n2 3 7\r\r\n", 2),
        Ok(vec![vec![4.0, 1.0, 5.0], vec![2.0, 3.0, 7.0]])
    );
}

#[test]
fn every_laid_out_field_is_read_as_a_number() {
    let text = "+1.5 -2e-3 .5 7. inf\n-INF NaN 1E+2 0 00.10\n1 2 3 4 5\n6 7 8 9 1e400\n";
    let rows = numbers(text, 4).unwrap();
    assert_eq!(rows[0], vec![1.5, -0.002, 0.5, 7.0, f64::INFINITY]);
    assert_eq!(rows[1][0], f64::NEG_INFINITY);
    assert!(rows[1][1].is_nan());
    assert_eq!(rows[1][2..], [100.0, 0.0, 0.1]);
    assert_eq!(rows[3][4], f64::INFINITY);
}
