//! A step as the registry sees it, and what a handler is told about the
//! match that selected it.

use vstd::prelude::*;
use vstd::string::StringSliceAdditionalSpecFns;
use vstd::utf8::*;
use crate::step::pattern::{anchored, found_view, name_view, names_view, regex_captures};

verus! {

/// The three kinds of step. Definitions of one kind never match steps of
/// another.
#[derive(Clone, Copy, Debug, PartialEq, Eq, Hash)]
pub enum StepType {
    /// A precondition.
    Given,
    /// An action.
    When,
    /// An expected outcome.
    Then,
}

/// A stretch of a feature file, in byte offsets.
#[derive(Clone, Copy, Debug, PartialEq, Eq, Hash)]
pub struct Span {
    /// The offset of the first byte.
    pub start: usize,
    /// The offset after the last byte.
    pub end: usize,
}

/// A place in a feature file.
#[derive(Clone, Copy, Debug, PartialEq, Eq, Hash)]
pub struct LineCol {
    /// The line, counted from 1.
    pub line: usize,
    /// The column, counted from 1.
    pub col: usize,
}

/// The data table of a step.
#[derive(Debug, PartialEq, Eq, Hash)]
pub struct Table {
    /// The rows, each with its cells.
    pub rows: Vec<Vec<String>>,
    /// Where the table stands in the feature file.
    pub span: Span,
    /// Where the table starts.
    pub position: LineCol,
}

/// One step of a scenario.
#[derive(Debug, PartialEq, Eq, Hash)]
pub struct Step {
    /// The keyword the step was written with.
    pub keyword: String,
    /// The step's kind.
    pub ty: StepType,
    /// The step's text, without the keyword.
    pub value: String,
    /// The doc string of the step, if it has one.
    pub docstring: Option<String>,
    /// The data table of the step, if it has one.
    pub table: Option<Table>,
    /// Where the step stands in the feature file.
    pub span: Span,
    /// Where the step starts.
    pub position: LineCol,
}

/// What a table holds.
pub struct TableView {
    /// The rows, each with the texts of its cells.
    pub rows: Seq<Seq<Seq<char>>>,
    /// Where the table stands in the feature file.
    pub span: Span,
    /// Where the table starts.
    pub position: LineCol,
}

/// What a step holds.
pub struct StepView {
    /// The keyword the step was written with.
    pub keyword: Seq<char>,
    /// The step's kind.
    pub ty: StepType,
    /// The step's text, without the keyword.
    pub value: Seq<char>,
    /// The doc string of the step, if it has one.
    pub docstring: Option<Seq<char>>,
    /// The data table of the step, if it has one.
    pub table: Option<TableView>,
    /// Where the step stands in the feature file.
    pub span: Span,
    /// Where the step starts.
    pub position: LineCol,
}

/// The texts of the cells of a row.
pub open spec fn row_view(row: Vec<String>) -> Seq<Seq<char>> {
    Seq::new(row@.len(), |j: int| row@[j]@)
}

/// The texts of the cells of rows.
pub open spec fn rows_view(rows: Seq<Vec<String>>) -> Seq<Seq<Seq<char>>> {
    Seq::new(rows.len(), |i: int| row_view(rows[i]))
}

impl View for Table {
    type V = TableView;

    open spec fn view(&self) -> TableView {
        TableView { rows: rows_view(self.rows@), span: self.span, position: self.position }
    }
}

impl View for Step {
    type V = StepView;

    open spec fn view(&self) -> StepView {
        StepView {
            keyword: self.keyword@,
            ty: self.ty,
            value: self.value@,
            docstring: match self.docstring {
                Some(text) => Some(text@),
                None => None,
            },
            table: match self.table {
                Some(table) => Some(table@),
                None => None,
            },
            span: self.span,
            position: self.position,
        }
    }
}

/// Copies a row of cells.
fn clone_row(row: &Vec<String>) -> (r: Vec<String>)
    ensures
        row_view(r) == row_view(*row),
{
    let mut copy: Vec<String> = Vec::new();
    let mut j: usize = 0;
    while j < row.len()
        invariant
            j <= row.len(),
            copy@.len() == j,
            forall|k: int| 0 <= k < j ==> copy@[k]@ == row@[k]@,
        decreases row.len() - j,
    {
        copy.push(row[j].clone());
        j += 1;
    }
    proof {
        assert(row_view(copy) =~= row_view(*row));
    }
    copy
}

impl Clone for Table {
    fn clone(&self) -> (r: Self)
        ensures
            r@ == self@,
    {
        let mut rows: Vec<Vec<String>> = Vec::new();
        let mut i: usize = 0;
        while i < self.rows.len()
            invariant
                i <= self.rows.len(),
                rows@.len() == i,
                forall|k: int| 0 <= k < i ==> row_view(rows@[k]) == row_view(self.rows@[k]),
            decreases self.rows.len() - i,
        {
            rows.push(clone_row(&self.rows[i]));
            i += 1;
        }
        proof {
            assert(rows_view(rows@) =~= rows_view(self.rows@));
        }
        Table { rows, span: self.span, position: self.position }
    }
}

impl Clone for Step {
    fn clone(&self) -> (r: Self)
        ensures
            r@ == self@,
    {
        Step {
            keyword: self.keyword.clone(),
            ty: self.ty,
            value: self.value.clone(),
            docstring: match &self.docstring {
                Some(text) => Some(text.clone()),
                None => None,
            },
            table: match &self.table {
                Some(table) => Some(table.clone()),
                None => None,
            },
            span: self.span,
            position: self.position,
        }
    }
}

/// What a handler receives: the step, and for each capture group of the
/// pattern that matched, the group's name and the text it captured.
#[derive(Clone, Debug, PartialEq, Eq)]
pub struct Context {
    /// The step that was matched.
    pub step: Step,
    /// Name and captured text of every group; group 0 is the whole match. A
    /// group that took no part in the match has the empty text.
    pub matches: Vec<(Option<String>, String)>,
}

/// What a search found is the whole of `text`: there is a group 0, and it
/// runs from the first byte to the last.
pub open spec fn is_whole_match(found: Option<Seq<Option<(usize, usize)>>>, text: Seq<char>) -> bool {
    &&& found is Some
    &&& found->0.len() > 0
    &&& found->0[0] matches Some((start, end)) && start == 0 && end == encode_utf8(text).len()
}

/// The step text `text` as a whole satisfies the regular expression
/// `pattern`: the pattern, anchored at the start and at the end of the text,
/// is found in `text`, and what is found is the whole text.
pub open spec fn pattern_matches(pattern: Seq<char>, text: Seq<char>) -> bool {
    is_whole_match(regex_captures(anchored(pattern), text), text)
}

/// The byte offsets `start` and `end` cut a piece of text out of `text`.
pub open spec fn valid_span(text: Seq<char>, start: int, end: int) -> bool {
    let bytes = encode_utf8(text);
    &&& 0 <= start <= end <= bytes.len()
    &&& is_char_boundary(bytes, start)
    &&& is_char_boundary(bytes, end)
}

/// The text that a group captured: the piece of `text` between the group's
/// offsets, or the empty text where the group has no offsets or they cut no
/// text out.
pub open spec fn span_text(text: Seq<char>, span: Option<(usize, usize)>) -> Seq<char> {
    match span {
        Some((start, end)) => if valid_span(text, start as int, end as int) {
            decode_utf8(encode_utf8(text).subrange(start as int, end as int))
        } else {
            Seq::empty()
        },
        None => Seq::empty(),
    }
}

/// The list of matches for group names `names` and group offsets `spans`:
/// pairs of name and captured text, as many as both lists have.
pub open spec fn matches_of(
    names: Seq<Option<Seq<char>>>,
    spans: Seq<Option<(usize, usize)>>,
    text: Seq<char>,
) -> Seq<(Option<Seq<char>>, Seq<char>)> {
    Seq::new(
        if names.len() <= spans.len() {
            names.len()
        } else {
            spans.len()
        },
        |i: int| (names[i], span_text(text, spans[i])),
    )
}

/// The view of a list of matches.
pub open spec fn matches_view(matches: Seq<(Option<String>, String)>) -> Seq<
    (Option<Seq<char>>, Seq<char>),
> {
    Seq::new(matches.len(), |i: int| (name_view(matches[i].0), matches[i].1@))
}

/// `hits` lists the searches among `outcomes` that matched the whole of
/// `text`: their indices, each once, in rising order.
pub open spec fn lists_whole_matches(
    outcomes: Seq<Option<Vec<Option<(usize, usize)>>>>,
    text: Seq<char>,
    hits: Seq<usize>,
) -> bool {
    &&& forall|a: int, b: int| 0 <= a < b < hits.len() ==> hits[a] < hits[b]
    &&& forall|a: int|
        0 <= a < hits.len() ==> (#[trigger] hits[a]) < outcomes.len() && is_whole_match(
            found_view(outcomes[hits[a] as int]),
            text,
        )
    &&& forall|i: int|
        0 <= i < outcomes.len() && is_whole_match(found_view(#[trigger] outcomes[i]), text)
            ==> hits.contains(i as usize)
}

/// Whether the outcome of a search is a match of the whole of `text`.
pub fn whole_match(found: &Option<Vec<Option<(usize, usize)>>>, text: &str) -> (r: bool)
    ensures
        r == is_whole_match(found_view(*found), text@),
{
    match found {
        Some(spans) => {
            if spans.len() == 0 {
                false
            } else {
                match spans[0] {
                    Some((start, end)) => start == 0 && end == text.as_bytes().len(),
                    None => false,
                }
            }
        },
        None => false,
    }
}

/// The searches among `outcomes` that matched the whole of `text`, by their
/// indices, in rising order.
pub fn whole_matches(outcomes: &Vec<Option<Vec<Option<(usize, usize)>>>>, text: &str) -> (hits: Vec<
    usize,
>)
    ensures
        lists_whole_matches(outcomes@, text@, hits@),
{
    let mut hits: Vec<usize> = Vec::new();
    let mut i: usize = 0;
    while i < outcomes.len()
        invariant
            i <= outcomes.len(),
            lists_whole_matches(outcomes@.subrange(0, i as int), text@, hits@),
        decreases outcomes.len() - i,
    {
        let ghost before = hits@;
        let ghost seen = outcomes@.subrange(0, i as int);
        let ghost grown = outcomes@.subrange(0, i + 1);
        let hit = whole_match(&outcomes[i], text);
        if hit {
            hits.push(i);
        }
        proof {
            assert forall|a: int| 0 <= a < before.len() implies before[a] < i && hits@[a]
                == before[a] by {
                assert(before[a] < seen.len());
            }
            assert forall|a: int| 0 <= a < hits@.len() implies (#[trigger] hits@[a]) < grown.len()
                && is_whole_match(found_view(grown[hits@[a] as int]), text@) by {
                if a < before.len() {
                    assert(seen[before[a] as int] == grown[before[a] as int]);
                }
            }
            assert forall|j: int|
                0 <= j < grown.len() && is_whole_match(
                    found_view(#[trigger] grown[j]),
                    text@,
                ) implies hits@.contains(j as usize) by {
                if j < i {
                    assert(seen[j] == grown[j]);
                    assert(before.contains(j as usize));
                    let a = choose|a: int| 0 <= a < before.len() && before[a] == j as usize;
                    assert(hits@[a] == j as usize);
                } else {
                    assert(hits@[before.len() as int] == j as usize);
                }
            }
        }
        i += 1;
    }
    proof {
        assert(outcomes@.subrange(0, outcomes@.len() as int) =~= outcomes@);
    }
    hits
}

/// The text that a group with offsets `span` captured in `text`.
pub fn captured_text(text: &str, span: Option<(usize, usize)>) -> (r: String)
    ensures
        r@ == span_text(text@, span),
{
    match span {
        Some((start, end)) => {
            if start <= end && end <= text.as_bytes().len() && text.is_char_boundary(start)
                && text.is_char_boundary(end) {
                let ghost bytes = encode_utf8(text@);
                proof {
                    encode_utf8_valid_utf8(text@);
                    valid_utf8_split(bytes, end as int);
                    if start < end {
                        is_char_boundary_iff_not_is_continuation_byte(bytes, start as int);
                        is_char_boundary_iff_not_is_continuation_byte(
                            bytes.subrange(0, end as int),
                            start as int,
                        );
                    } else {
                        is_char_boundary_start_end_of_seq(bytes.subrange(0, end as int));
                    }
                }
                let (head, _) = text.split_at(end);
                let (_, piece) = head.split_at(start);
                proof {
                    assert(piece.spec_bytes() =~= bytes.subrange(start as int, end as int));
                    encode_utf8_decode_utf8(piece@);
                }
                piece.to_owned()
            } else {
                String::new()
            }
        },
        None => String::new(),
    }
}

/// Pairs each group's name with the text the group captured in `text`.
pub fn build_matches(names: &Vec<Option<String>>, spans: &Vec<Option<(usize, usize)>>, text: &str)
    -> (matches: Vec<(Option<String>, String)>)
    ensures
        matches_view(matches@) == matches_of(names_view(names@), spans@, text@),
{
    let count = if names.len() <= spans.len() {
        names.len()
    } else {
        spans.len()
    };
    let ghost goal = matches_of(names_view(names@), spans@, text@);
    let mut matches: Vec<(Option<String>, String)> = Vec::new();
    let mut i: usize = 0;
    while i < count
        invariant
            i <= count,
            count <= names.len(),
            count <= spans.len(),
            goal.len() == count,
            goal == matches_of(names_view(names@), spans@, text@),
            matches.len() == i,
            forall|j: int| 0 <= j < i ==> (name_view(matches@[j].0), matches@[j].1@) == goal[j],
        decreases count - i,
    {
        let name = match &names[i] {
            Some(n) => Some(n.clone()),
            None => None,
        };
        let piece = captured_text(text, spans[i]);
        matches.push((name, piece));
        i += 1;
    }
    proof {
        assert(matches_view(matches@) =~= goal);
    }
    matches
}

} // verus!
