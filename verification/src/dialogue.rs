//! The questions asked before a run, and what the answers settle.
//!
//! The dialogue asks for a file name, for the dimension of the system and,
//! where no file was named, for the number of trials. An answer that is no
//! number sends the dialogue back to its first question.
use crate::text::{chars_of, parse_usize, parsed_usize, trim, trimmed};
use vstd::prelude::*;

verus! {

/// A question of the dialogue.
#[derive(Clone, Copy, Debug, PartialEq, Eq, Structural)]
pub enum Prompt {
    /// The name of the file that holds the system; empty to generate one.
    FileName,
    /// The number of unknowns.
    Dimension,
    /// The number of trials.
    TrialCount,
}

/// Where the systems of a run come from.
#[derive(Clone, Debug, PartialEq, Eq)]
pub enum Source {
    /// A fresh random system for every trial.
    Generated,
    /// The system laid out in the file of this name.
    File(String),
}

/// What a finished dialogue has settled.
#[derive(Clone, Debug, PartialEq, Eq)]
pub struct Plan {
    pub source: Source,
    pub dimension: usize,
    pub trials: u64,
}

/// The state of the dialogue: the question that is open and the answers
/// given so far, or the plan once every question is answered.
#[derive(Clone, Debug, PartialEq, Eq)]
pub enum Dialogue {
    AskFileName,
    AskDimension { file_name: String },
    AskTrialCount { dimension: usize },
    Done(Plan),
}

/// A source, with the file name as a sequence of characters.
pub enum SourceView {
    Generated,
    File(Seq<char>),
}

/// A plan, with the file name as a sequence of characters.
pub struct PlanView {
    pub source: SourceView,
    pub dimension: usize,
    pub trials: u64,
}

/// A state of the dialogue, with the file name as a sequence of characters.
pub enum DialogueView {
    AskFileName,
    AskDimension { file_name: Seq<char> },
    AskTrialCount { dimension: usize },
    Done(PlanView),
}

impl View for Source {
    type V = SourceView;

    open spec fn view(&self) -> SourceView {
        match self {
            Source::Generated => SourceView::Generated,
            Source::File(name) => SourceView::File(name@),
        }
    }
}

impl View for Plan {
    type V = PlanView;

    open spec fn view(&self) -> PlanView {
        PlanView { source: self.source@, dimension: self.dimension, trials: self.trials }
    }
}

impl View for Dialogue {
    type V = DialogueView;

    open spec fn view(&self) -> DialogueView {
        match self {
            Dialogue::AskFileName => DialogueView::AskFileName,
            Dialogue::AskDimension { file_name } => DialogueView::AskDimension {
                file_name: file_name@,
            },
            Dialogue::AskTrialCount { dimension } => DialogueView::AskTrialCount {
                dimension: *dimension,
            },
            Dialogue::Done(plan) => DialogueView::Done(plan@),
        }
    }
}

/// The state that follows `state` when the line `line` is the answer.
///
/// White space at the two ends of an answer does not count. An empty file
/// name asks for generated systems. A named file is solved once, so the
/// dialogue ends with the dimension. A dimension or a number of trials that
/// is no number, and a number of trials of zero, start the dialogue over. A
/// finished dialogue stays as it is.
pub open spec fn answered(state: DialogueView, line: Seq<char>) -> DialogueView {
    match state {
        DialogueView::AskFileName => DialogueView::AskDimension { file_name: trimmed(line) },
        DialogueView::AskDimension { file_name } => match parsed_usize(trimmed(line)) {
            None => DialogueView::AskFileName,
            Some(dimension) => if file_name.len() == 0 {
                DialogueView::AskTrialCount { dimension }
            } else {
                DialogueView::Done(
                    PlanView { source: SourceView::File(file_name), dimension, trials: 1 },
                )
            },
        },
        DialogueView::AskTrialCount { dimension } => match parsed_usize(trimmed(line)) {
            None => DialogueView::AskFileName,
            Some(trials) => if trials == 0 {
                DialogueView::AskFileName
            } else {
                DialogueView::Done(
                    PlanView { source: SourceView::Generated, dimension, trials: trials as u64 },
                )
            },
        },
        DialogueView::Done(plan) => DialogueView::Done(plan),
    }
}

/// The question that is open in `state`, if one is.
pub open spec fn open_question(state: DialogueView) -> Option<Prompt> {
    match state {
        DialogueView::AskFileName => Some(Prompt::FileName),
        DialogueView::AskDimension { .. } => Some(Prompt::Dimension),
        DialogueView::AskTrialCount { .. } => Some(Prompt::TrialCount),
        DialogueView::Done(_) => None,
    }
}

/// Reads the number that an answer holds between the white space at its
/// ends.
pub fn read_number(line: &str) -> (n: Option<usize>)
    ensures
        n == parsed_usize(trimmed(line@)),
{
    let chars = chars_of(line);
    let (start, end) = trim(chars.as_slice());
    let inner = vstd::slice::slice_subrange(chars.as_slice(), start, end);
    parse_usize(inner)
}

/// An answer without the white space at its two ends.
pub fn read_name(line: &str) -> (name: String)
    ensures
        name@ == trimmed(line@),
{
    let chars = chars_of(line);
    let (start, end) = trim(chars.as_slice());
    line.substring_char(start, end).to_owned()
}

impl Dialogue {
    /// The dialogue before its first question.
    pub fn start() -> (d: Dialogue)
        ensures
            d@ == DialogueView::AskFileName,
    {
        Dialogue::AskFileName
    }

    /// The question to ask next; `None` once the dialogue is over.
    pub fn prompt(&self) -> (p: Option<Prompt>)
        ensures
            p == open_question(self@),
    {
        match self {
            Dialogue::AskFileName => Some(Prompt::FileName),
            Dialogue::AskDimension { .. } => Some(Prompt::Dimension),
            Dialogue::AskTrialCount { .. } => Some(Prompt::TrialCount),
            Dialogue::Done(_) => None,
        }
    }

    /// Takes the answer to the open question and moves on.
    pub fn answer(self, line: &str) -> (next: Dialogue)
        ensures
            next@ == answered(self@, line@),
    {
        match self {
            Dialogue::AskFileName => Dialogue::AskDimension { file_name: read_name(line) },
            Dialogue::AskDimension { file_name } => match read_number(line) {
                None => Dialogue::AskFileName,
                Some(dimension) => {
                    if file_name.as_str().unicode_len() == 0 {
                        Dialogue::AskTrialCount { dimension }
                    } else {
                        Dialogue::Done(
                            Plan { source: Source::File(file_name), dimension, trials: 1 },
                        )
                    }
                },
            },
            Dialogue::AskTrialCount { dimension } => match read_number(line) {
                None => Dialogue::AskFileName,
                Some(trials) => {
                    if trials == 0 {
                        Dialogue::AskFileName
                    } else {
                        Dialogue::Done(
                            Plan { source: Source::Generated, dimension, trials: trials as u64 },
                        )
                    }
                },
            },
            Dialogue::Done(plan) => Dialogue::Done(plan),
        }
    }

    /// The plan of a finished dialogue; `None` while a question is open.
    pub fn plan(self) -> (p: Option<Plan>)
        ensures
            match self@ {
                DialogueView::Done(plan) => p matches Some(q) && q@ == plan,
                _ => p is None,
            },
    {
        match self {
            Dialogue::Done(plan) => Some(plan),
            _ => None,
        }
    }
}

/// Whether a plan can be run: it asks for at least one trial, and a plan
/// that names a file names it with at least one character and solves its
/// system once.
pub open spec fn is_sound(plan: PlanView) -> bool {
    &&& plan.trials >= 1
    &&& plan.source matches SourceView::File(name) ==> name.len() > 0 && plan.trials == 1
}

/// The state that the dialogue is in after the answers `lines`, given in
/// that order from its start.
pub open spec fn state_after(lines: Seq<Seq<char>>) -> DialogueView
    decreases lines.len(),
{
    if lines.len() == 0 {
        DialogueView::AskFileName
    } else {
        answered(state_after(lines.drop_last()), lines.last())
    }
}

/// Whatever is answered, a dialogue ends only with a plan that can be run.
pub proof fn lemma_dialogue_ends_with_a_sound_plan(lines: Seq<Seq<char>>)
    ensures
        state_after(lines) matches DialogueView::Done(plan) ==> is_sound(plan),
    decreases lines.len(),
{
    if lines.len() > 0 {
        lemma_dialogue_ends_with_a_sound_plan(lines.drop_last());
    }
}

/// An answer that is no number, where a number is asked for, sends the
/// dialogue back to its first question.
pub proof fn lemma_no_number_starts_over(state: DialogueView, line: Seq<char>)
    requires
        open_question(state) == Some(Prompt::Dimension) || open_question(state) == Some(
            Prompt::TrialCount,
        ),
        parsed_usize(trimmed(line)) is None,
    ensures
        answered(state, line) == DialogueView::AskFileName,
{
}

} // verus!
