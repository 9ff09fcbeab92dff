use jacobi_seidel::dialogue::{read_name, read_number, Dialogue, Plan, Prompt, Source};

fn after(lines: &[&str]) -> Dialogue {
    let mut dialogue = Dialogue::start();
    for line in lines {
        dialogue = dialogue.answer(line);
    }
    dialogue
}

#[test]
fn the_dialogue_starts_with_the_file_name() {
    assert_eq!(Dialogue::start(), Dialogue::AskFileName);
    assert_eq!(Dialogue::start().prompt(), Some(Prompt::FileName));
    assert_eq!(Dialogue::start().plan(), None);
}

#[test]
fn no_file_name_asks_for_dimension_and_trials() {
    let d = after(&["\n"]);
    assert_eq!(d, Dialogue::AskDimension { file_name: String::new() });
    assert_eq!(d.prompt(), Some(Prompt::Dimension));
    let d = d.answer("3\n");
    assert_eq!(d, Dialogue::AskTrialCount { dimension: 3 });
    assert_eq!(d.prompt(), Some(Prompt::TrialCount));
    let d = d.answer(" 100 \n");
    assert_eq!(d.prompt(), None);
    assert_eq!(
        d.plan(),
        Some(Plan { source: Source::Generated, dimension: 3, trials: 100 })
    );
}

#[test]
fn a_named_file_is_solved_once() {
    let d = after(&["  system.txt \r\n", "2\n"]);
    assert_eq!(
        d.clone().plan(),
        Some(Plan { source: Source::File(String::from("system.txt")), dimension: 2, trials: 1 })
    );
    assert_eq!(d.prompt(), None);
}

#[test]
fn a_dimension_that_is_no_number_starts_over() {
    assert_eq!(after(&["\n", "three\n"]), Dialogue::AskFileName);
    assert_eq!(after(&["m.txt\n", "\n"]), Dialogue::AskFileName);
    assert_eq!(after(&["m.txt\n", "-2\n"]), Dialogue::AskFileName);
    assert_eq!(after(&["m.txt\n", "2.0\n"]), Dialogue::AskFileName);
    assert_eq!(
        after(&["m.txt\n", "x\n", "\n", "4\n"]),
        Dialogue::AskTrialCount { dimension: 4 }
    );
}

#[test]
fn a_trial_count_that_is_no_number_starts_over() {
    assert_eq!(after(&["\n", "3\n", "many\n"]), Dialogue::AskFileName);
    assert_eq!(after(&["\n", "3\n", "0\n"]), Dialogue::AskFileName);
    assert_eq!(after(&["\n", "3\n", "\n"]), Dialogue::AskFileName);
    assert_eq!(
        after(&["\n", "3\n", "1 0\n", "\n", "5\n", "+7\n"]).plan(),
        Some(Plan { source: Source::Generated, dimension: 5, trials: 7 })
    );
}

#[test]
fn a_finished_dialogue_stays_finished() {
    let done = after(&["\n", "0\n", "1\n"]);
    let plan = done.clone().plan();
    assert_eq!(plan, Some(Plan { source: Source::Generated, dimension: 0, trials: 1 }));
    let later = done.answer("9\n");
    assert_eq!(later.plan(), plan);
}

#[test]
fn answers_are_read_without_the_white_space_at_their_ends() {
    assert_eq!(read_name(" a b \n"), "a b");
    assert_eq!(read_name("\u{3000}é\t"), "é");
    assert_eq!(read_name(""), "");
    assert_eq!(read_name(" \n"), "");
    assert_eq!(read_number("12\n"), Some(12));
    assert_eq!(read_number("  +12  "), Some(12));
    assert_eq!(read_number("1 2"), None);
    assert_eq!(read_number(""), None);
    assert_eq!(read_number("é1"), None);
}
