//! The text format of an augmented matrix: one equation per line, its
//! numbers parted by white space.
//!
//! The layout says where each number stands in the text and that each is
//! written as a number. Turning its characters into a value is left to the
//! caller.
use crate::number::{is_real, writes_real};
use crate::text::{is_white_space, is_whitespace};
use vstd::prelude::*;

verus! {

/// A stretch of text: the characters from `start` up to, not including,
/// `end`.
#[derive(Clone, Copy, Debug, PartialEq, Eq, Structural)]
pub struct Span {
    pub start: usize,
    pub end: usize,
}

/// Why a text does not lay out a system of the given number of equations.
#[derive(Clone, Copy, Debug, PartialEq, Eq, Structural)]
pub enum LayoutError {
    /// The text has `found` lines, not one for each equation.
    RowCount { found: usize },
    /// Line `line` has `found` fields, not one for each unknown and one more
    /// for the right-hand side.
    FieldCount { line: usize, found: usize },
    /// Field `field` of line `line` does not write a number.
    NotANumber { line: usize, field: usize },
}

impl Span {
    /// The bounds of the span as a pair.
    pub open spec fn bounds(self) -> (int, int) {
        (self.start as int, self.end as int)
    }
}

/// The bounds of each span of a row.
pub open spec fn row_bounds(row: Seq<Span>) -> Seq<(int, int)> {
    row.map_values(|s: Span| s.bounds())
}

/// The bounds of each span of a grid, row by row.
pub open spec fn grid_bounds(grid: Seq<Vec<Span>>) -> Seq<Seq<(int, int)>> {
    grid.map_values(|row: Vec<Span>| row_bounds(row@))
}

/// The index of the first line feed at or after `from`; the length of the
/// text where there is none.
pub open spec fn line_feed_at(text: Seq<char>, from: int) -> int
    decreases text.len() - from,
{
    if 0 <= from < text.len() && text[from] != '\n' {
        line_feed_at(text, from + 1)
    } else {
        from
    }
}

/// The end of the line that starts at `from` and runs up to `feed`: a
/// carriage return just before the line feed does not belong to the line. A
/// last line that no line feed ends keeps every character.
pub open spec fn line_end(text: Seq<char>, from: int, feed: int) -> int {
    if from < feed < text.len() && text[feed - 1] == '\r' {
        feed - 1
    } else {
        feed
    }
}

/// The lines of `text` from the index `from` on. A line ends at a line feed
/// or at the end of the text; after a last line feed no further line
/// begins.
pub open spec fn lines_from(text: Seq<char>, from: int) -> Seq<(int, int)>
    decreases text.len() - from,
{
    if 0 <= from < text.len() {
        let feed = line_feed_at(text, from);
        if from <= feed < text.len() {
            seq![(from, line_end(text, from, feed))] + lines_from(text, feed + 1)
        } else {
            seq![(from, text.len() as int)]
        }
    } else {
        Seq::empty()
    }
}

/// The lines of `text`.
pub open spec fn lines_of(text: Seq<char>) -> Seq<(int, int)> {
    lines_from(text, 0)
}

/// The index of the first character from `from` up to `limit` that is not
/// white space; `limit` where there is none.
pub open spec fn field_start(text: Seq<char>, from: int, limit: int) -> int
    decreases limit - from,
{
    if 0 <= from < limit <= text.len() && is_white_space(text[from]) {
        field_start(text, from + 1, limit)
    } else {
        from
    }
}

/// The index of the first white-space character from `from` up to `limit`;
/// `limit` where there is none.
pub open spec fn white_space_at(text: Seq<char>, from: int, limit: int) -> int
    decreases limit - from,
{
    if 0 <= from < limit <= text.len() && !is_white_space(text[from]) {
        white_space_at(text, from + 1, limit)
    } else {
        from
    }
}

/// The fields of the stretch from `from` up to `limit`: its longest runs of
/// characters that are not white space, in order. White space, however much
/// of it, between two fields and at either end of the stretch parts fields
/// and makes none; a stretch of white space alone has no field.
pub open spec fn fields_from(text: Seq<char>, from: int, limit: int) -> Seq<(int, int)>
    decreases limit - from,
{
    let start = field_start(text, from, limit);
    let end = white_space_at(text, start, limit);
    if from <= start < end <= limit {
        seq![(start, end)] + fields_from(text, end, limit)
    } else {
        Seq::empty()
    }
}

/// The fields of every line of `text`.
pub open spec fn grid_of(text: Seq<char>) -> Seq<Seq<(int, int)>> {
    lines_of(text).map_values(|line: (int, int)| fields_from(text, line.0, line.1))
}

/// The index of the first field from `from` on that does not write a
/// number, if there is one.
pub open spec fn first_non_number(text: Seq<char>, fields: Seq<(int, int)>, from: int) -> Option<
    int,
>
    decreases fields.len() - from,
{
    if 0 <= from < fields.len() {
        if writes_real(text.subrange(fields[from].0, fields[from].1)) {
            first_non_number(text, fields, from + 1)
        } else {
            Some(from)
        }
    } else {
        None
    }
}

/// What is wrong with line `line`, whose fields are `fields`, in a system of
/// `unknowns` equations: a wrong number of fields, or else its first field
/// that does not write a number.
pub open spec fn line_fault(
    text: Seq<char>,
    fields: Seq<(int, int)>,
    line: int,
    unknowns: usize,
) -> Option<LayoutError> {
    if fields.len() != unknowns + 1 {
        Some(LayoutError::FieldCount { line: line as usize, found: fields.len() as usize })
    } else {
        match first_non_number(text, fields, 0) {
            Some(field) => Some(
                LayoutError::NotANumber { line: line as usize, field: field as usize },
            ),
            None => None,
        }
    }
}

/// The fault of the first faulty line from `from` on, if any line is faulty.
pub open spec fn first_line_fault(
    text: Seq<char>,
    grid: Seq<Seq<(int, int)>>,
    from: int,
    unknowns: usize,
) -> Option<LayoutError>
    decreases grid.len() - from,
{
    if 0 <= from < grid.len() {
        if line_fault(text, grid[from], from, unknowns) is Some {
            line_fault(text, grid[from], from, unknowns)
        } else {
            first_line_fault(text, grid, from + 1, unknowns)
        }
    } else {
        None
    }
}

/// What keeps `text` from laying out a system of `unknowns` equations: a
/// wrong number of lines, or else the fault of its first faulty line.
/// `None` where the text lays out such a system.
pub open spec fn layout_fault(text: Seq<char>, unknowns: usize) -> Option<LayoutError> {
    if lines_of(text).len() != unknowns {
        Some(LayoutError::RowCount { found: lines_of(text).len() as usize })
    } else {
        first_line_fault(text, grid_of(text), 0, unknowns)
    }
}

/// Whether `grid` lays out a system of `unknowns` equations in `text`: one
/// row for each equation, and in each row one field for each unknown and
/// one more for the right-hand side, every one of them inside the text and
/// writing a number.
pub open spec fn is_layout(grid: Seq<Vec<Span>>, text: Seq<char>, unknowns: usize) -> bool {
    &&& grid.len() == unknowns
    &&& forall|i: int| 0 <= i < grid.len() ==> (#[trigger] grid[i])@.len() == unknowns + 1
    &&& forall|i: int, j: int|
        0 <= i < grid.len() && 0 <= j < grid[i]@.len() ==> {
            &&& (#[trigger] grid[i]@[j]).start <= grid[i]@[j].end <= text.len()
            &&& writes_real(text.subrange(grid[i]@[j].start as int, grid[i]@[j].end as int))
        }
}

/// The lines of `text`, in order.
pub fn split_lines(text: &[char]) -> (lines: Vec<Span>)
    ensures
        row_bounds(lines@) == lines_of(text@),
        lines@.len() <= text@.len(),
        forall|i: int| 0 <= i < lines@.len() ==> (#[trigger] lines@[i]).start <= lines@[i].end
            <= text@.len(),
{
    let mut lines: Vec<Span> = Vec::new();
    let mut from: usize = 0;
    while from < text.len()
        invariant
            from <= text@.len(),
            lines@.len() <= from,
            row_bounds(lines@) + lines_from(text@, from as int) == lines_of(text@),
            forall|i: int| 0 <= i < lines@.len() ==> (#[trigger] lines@[i]).start <= lines@[i].end
                <= text@.len(),
        decreases text@.len() - from,
    {
        let mut feed: usize = from;
        while feed < text.len() && text[feed] != '\n'
            invariant
                from <= feed <= text@.len(),
                line_feed_at(text@, from as int) == line_feed_at(text@, feed as int),
            decreases text@.len() - feed,
        {
            feed += 1;
        }
        let end: usize = if from < feed && feed < text.len() && text[feed - 1] == '\r' {
            feed - 1
        } else {
            feed
        };
        let ghost before = lines@;
        let ghost rest = lines_from(text@, from as int);
        lines.push(Span { start: from, end });
        from = if feed < text.len() {
            feed + 1
        } else {
            feed
        };
        proof {
            assert(row_bounds(lines@) == row_bounds(before) + seq![lines@.last().bounds()]);
            assert(rest == seq![lines@.last().bounds()] + lines_from(text@, from as int));
        }
    }
    proof {
        assert(row_bounds(lines@) + Seq::<(int, int)>::empty() == row_bounds(lines@));
    }
    lines
}

/// The fields of the stretch `line` of `text`, in order: its longest runs
/// of characters that are not white space.
pub fn split_fields(text: &[char], line: Span) -> (fields: Vec<Span>)
    requires
        line.start <= line.end <= text@.len(),
    ensures
        row_bounds(fields@) == fields_from(text@, line.start as int, line.end as int),
        fields@.len() <= line.end - line.start,
        forall|j: int|
            0 <= j < fields@.len() ==> line.start <= (#[trigger] fields@[j]).start < fields@[j].end
                <= line.end,
{
    let mut fields: Vec<Span> = Vec::new();
    let mut from: usize = line.start;
    loop
        invariant_except_break
            line.start <= from <= line.end <= text@.len(),
            fields@.len() <= from - line.start,
            forall|j: int|
                0 <= j < fields@.len() ==> line.start <= (#[trigger] fields@[j]).start
                    < fields@[j].end <= line.end,
            row_bounds(fields@) + fields_from(text@, from as int, line.end as int) == fields_from(
                text@,
                line.start as int,
                line.end as int,
            ),
        ensures
            row_bounds(fields@) == fields_from(text@, line.start as int, line.end as int),
            fields@.len() <= line.end - line.start,
            forall|j: int|
                0 <= j < fields@.len() ==> line.start <= (#[trigger] fields@[j]).start
                    < fields@[j].end <= line.end,
        decreases line.end - from,
    {
        let mut start: usize = from;
        while start < line.end && is_whitespace(text[start])
            invariant
                from <= start <= line.end <= text@.len(),
                field_start(text@, from as int, line.end as int) == field_start(
                    text@,
                    start as int,
                    line.end as int,
                ),
            decreases line.end - start,
        {
            start += 1;
        }
        if start == line.end {
            proof {
                assert(fields_from(text@, from as int, line.end as int) == Seq::<
                    (int, int),
                >::empty());
                assert(row_bounds(fields@) + Seq::<(int, int)>::empty() == row_bounds(fields@));
            }
            break ;
        }
        let mut stop: usize = start + 1;
        while stop < line.end && !is_whitespace(text[stop])
            invariant
                start < stop <= line.end <= text@.len(),
                white_space_at(text@, start as int, line.end as int) == white_space_at(
                    text@,
                    stop as int,
                    line.end as int,
                ),
            decreases line.end - stop,
        {
            stop += 1;
        }
        let ghost before = fields@;
        fields.push(Span { start, end: stop });
        proof {
            assert(row_bounds(fields@) == row_bounds(before) + seq![(start as int, stop as int)]);
            assert(fields_from(text@, from as int, line.end as int) == seq![
                (start as int, stop as int),
            ] + fields_from(text@, stop as int, line.end as int));
        }
        from = stop;
    }
    fields
}

/// The index of the first field of a row that does not write a number, if
/// the row has one.
pub fn non_number_field(text: &[char], fields: &Vec<Span>) -> (r: Option<usize>)
    requires
        forall|k: int|
            0 <= k < fields@.len() ==> (#[trigger] fields@[k]).start <= fields@[k].end
                <= text@.len(),
    ensures
        match first_non_number(text@, row_bounds(fields@), 0) {
            Some(field) => r == Some(field as usize) && 0 <= field < fields@.len(),
            None => r is None,
        },
        r is None ==> forall|k: int|
            0 <= k < fields@.len() ==> writes_real(
                text@.subrange((#[trigger] fields@[k]).start as int, fields@[k].end as int),
            ),
{
    let mut j: usize = 0;
    while j < fields.len()
        invariant
            j <= fields@.len(),
            forall|k: int|
                0 <= k < fields@.len() ==> (#[trigger] fields@[k]).start <= fields@[k].end
                    <= text@.len(),
            forall|k: int|
                0 <= k < j ==> writes_real(
                    text@.subrange((#[trigger] fields@[k]).start as int, fields@[k].end as int),
                ),
            first_non_number(text@, row_bounds(fields@), 0) == first_non_number(
                text@,
                row_bounds(fields@),
                j as int,
            ),
        decreases fields@.len() - j,
    {
        proof {
            assert(row_bounds(fields@)[j as int] == fields@[j as int].bounds());
        }
        let field = vstd::slice::slice_subrange(text, fields[j].start, fields[j].end);
        if !is_real(field) {
            return Some(j);
        }
        j += 1;
    }
    None
}

/// Lays out the augmented matrix of a system of `unknowns` equations:
/// where each number of each equation stands in `text`.
///
/// The text must have one line for each equation, and each line one field
/// for each unknown and one more for the right-hand side, each of them
/// writing a number. White space between the numbers of a line and at its
/// two ends, however much of it, parts the fields and is none itself; a
/// line without a number has no field. The first thing that is wrong comes
/// back as the error.
pub fn scan(text: &[char], unknowns: usize) -> (r: Result<Vec<Vec<Span>>, LayoutError>)
    ensures
        match layout_fault(text@, unknowns) {
            Some(fault) => r == Err::<Vec<Vec<Span>>, LayoutError>(fault),
            None => r matches Ok(grid) && grid_bounds(grid@) == grid_of(text@) && is_layout(
                grid@,
                text@,
                unknowns,
            ),
        },
{
    let lines = split_lines(text);
    if lines.len() != unknowns {
        return Err(LayoutError::RowCount { found: lines.len() });
    }
    let mut grid: Vec<Vec<Span>> = Vec::new();
    let mut i: usize = 0;
    while i < lines.len()
        invariant
            i <= lines@.len(),
            lines@.len() == unknowns,
            row_bounds(lines@) == lines_of(text@),
            forall|k: int| 0 <= k < lines@.len() ==> (#[trigger] lines@[k]).start <= lines@[k].end
                <= text@.len(),
            grid@.len() == i,
            forall|r: int| 0 <= r < grid@.len() ==> (#[trigger] grid@[r])@.len() == unknowns + 1,
            forall|r: int, c: int|
                0 <= r < grid@.len() && 0 <= c < grid@[r]@.len() ==> {
                    &&& (#[trigger] grid@[r]@[c]).start <= grid@[r]@[c].end <= text@.len()
                    &&& writes_real(
                        text@.subrange(grid@[r]@[c].start as int, grid@[r]@[c].end as int),
                    )
                },
            grid_bounds(grid@) == grid_of(text@).take(i as int),
            first_line_fault(text@, grid_of(text@), 0, unknowns) == first_line_fault(
                text@,
                grid_of(text@),
                i as int,
                unknowns,
            ),
        decreases lines@.len() - i,
    {
        let line = lines[i];
        let fields = split_fields(text, line);
        proof {
            assert(row_bounds(lines@)[i as int] == line.bounds());
            assert(grid_of(text@)[i as int] == row_bounds(fields@));
        }
        if unknowns == usize::MAX || fields.len() != unknowns + 1 {
            return Err(LayoutError::FieldCount { line: i, found: fields.len() });
        }
        match non_number_field(text, &fields) {
            Some(field) => {
                return Err(LayoutError::NotANumber { line: i, field });
            },
            None => {},
        }
        let ghost before = grid@;
        grid.push(fields);
        proof {
            assert(grid_bounds(grid@) == grid_bounds(before) + seq![row_bounds(fields@)]);
            assert(grid_of(text@).take(i + 1) == grid_of(text@).take(i as int) + seq![
                grid_of(text@)[i as int],
            ]);
        }
        i += 1;
    }
    proof {
        assert(grid_of(text@).take(i as int) == grid_of(text@));
    }
    Ok(grid)
}

/// Whether no character from `from` up to `to` is white space.
pub open spec fn free_of_white_space(text: Seq<char>, from: int, to: int) -> bool {
    forall|k: int| from <= k < to ==> !is_white_space(#[trigger] text[k])
}

/// Whether no character from `from` up to `to` is a line feed.
pub open spec fn free_of_line_feeds(text: Seq<char>, from: int, to: int) -> bool {
    forall|k: int| from <= k < to ==> (#[trigger] text[k]) != '\n'
}

proof fn lemma_white_space_at(text: Seq<char>, from: int, limit: int)
    requires
        0 <= from <= limit <= text.len(),
    ensures
        from <= white_space_at(text, from, limit) <= limit,
        free_of_white_space(text, from, white_space_at(text, from, limit)),
        white_space_at(text, from, limit) < limit ==> is_white_space(
            text[white_space_at(text, from, limit)],
        ),
    decreases limit - from,
{
    if from < limit && !is_white_space(text[from]) {
        lemma_white_space_at(text, from + 1, limit);
    }
}

proof fn lemma_line_feed_at(text: Seq<char>, from: int)
    requires
        0 <= from <= text.len(),
    ensures
        from <= line_feed_at(text, from) <= text.len(),
        free_of_line_feeds(text, from, line_feed_at(text, from)),
        line_feed_at(text, from) < text.len() ==> text[line_feed_at(text, from)] == '\n',
    decreases text.len() - from,
{
    if from < text.len() && text[from] != '\n' {
        lemma_line_feed_at(text, from + 1);
    }
}

/// Whether every character from `from` up to `to` is white space.
pub open spec fn all_white_space(text: Seq<char>, from: int, to: int) -> bool {
    forall|k: int| from <= k < to ==> is_white_space(#[trigger] text[k])
}

proof fn lemma_field_start(text: Seq<char>, from: int, limit: int)
    requires
        0 <= from <= limit <= text.len(),
    ensures
        from <= field_start(text, from, limit) <= limit,
        all_white_space(text, from, field_start(text, from, limit)),
        field_start(text, from, limit) < limit ==> !is_white_space(
            text[field_start(text, from, limit)],
        ),
    decreases limit - from,
{
    if from < limit && is_white_space(text[from]) {
        lemma_field_start(text, from + 1, limit);
    }
}

/// The fields of a stretch are its longest runs of characters that are not
/// white space. Every field lies inside the stretch, is not empty and holds
/// no white space; the fields come in order and apart from each other; and
/// whatever of the stretch lies outside them, before the first, between two
/// and after the last, is white space. A stretch without a field is white
/// space throughout.
pub proof fn lemma_fields_part_at_white_space(text: Seq<char>, from: int, limit: int)
    requires
        0 <= from <= limit <= text.len(),
    ensures
        ({
            let fields = fields_from(text, from, limit);
            &&& forall|j: int|
                0 <= j < fields.len() ==> from <= (#[trigger] fields[j]).0 < fields[j].1 <= limit
                    && free_of_white_space(text, fields[j].0, fields[j].1)
            &&& forall|j: int|
                0 <= j < fields.len() - 1 ==> (#[trigger] fields[j]).1 < fields[j + 1].0
                    && all_white_space(text, fields[j].1, fields[j + 1].0)
            &&& if fields.len() == 0 {
                all_white_space(text, from, limit)
            } else {
                all_white_space(text, from, fields[0].0) && all_white_space(
                    text,
                    fields.last().1,
                    limit,
                )
            }
        }),
    decreases limit - from,
{
    let fields = fields_from(text, from, limit);
    let start: int = field_start(text, from, limit);
    lemma_field_start(text, from, limit);
    let end: int = white_space_at(text, start, limit);
    lemma_white_space_at(text, start, limit);
    if start < limit {
        assert(start < end);
        let rest = fields_from(text, end, limit);
        lemma_fields_part_at_white_space(text, end, limit);
        assert(fields == seq![(start, end)] + rest);
        assert forall|j: int| 0 <= j < fields.len() implies from <= (#[trigger] fields[j]).0
            < fields[j].1 <= limit && free_of_white_space(text, fields[j].0, fields[j].1) by {
            if j > 0 {
                assert(fields[j] == rest[j - 1]);
            }
        }
        assert forall|j: int| 0 <= j < fields.len() - 1 implies (#[trigger] fields[j]).1
            < fields[j + 1].0 && all_white_space(text, fields[j].1, fields[j + 1].0) by {
            assert(fields[j + 1] == rest[j]);
            if j > 0 {
                assert(fields[j] == rest[j - 1]);
            } else {
                assert(!is_white_space(text[rest[0].0]));
            }
        }
        if rest.len() > 0 {
            assert(fields.last() == rest.last());
        }
    }
}

/// Every line lies inside the text and holds no line feed.
pub proof fn lemma_lines_hold_no_line_feed(text: Seq<char>, from: int)
    requires
        0 <= from,
    ensures
        forall|i: int|
            0 <= i < lines_from(text, from).len() ==> from <= (#[trigger] lines_from(
                text,
                from,
            )[i]).0 <= lines_from(text, from)[i].1 <= text.len() && free_of_line_feeds(
                text,
                lines_from(text, from)[i].0,
                lines_from(text, from)[i].1,
            ),
    decreases text.len() - from,
{
    if from < text.len() {
        let lines = lines_from(text, from);
        let feed: int = line_feed_at(text, from);
        lemma_line_feed_at(text, from);
        if feed < text.len() {
            let rest = lines_from(text, feed + 1);
            lemma_lines_hold_no_line_feed(text, feed + 1);
            assert(lines == seq![(from, line_end(text, from, feed))] + rest);
            assert forall|i: int| 0 <= i < lines.len() implies from <= (#[trigger] lines[i]).0
                <= lines[i].1 <= text.len() && free_of_line_feeds(
                text,
                lines[i].0,
                lines[i].1,
            ) by {
                if i > 0 {
                    assert(lines[i] == rest[i - 1]);
                }
            }
        }
    }
}

} // verus!
