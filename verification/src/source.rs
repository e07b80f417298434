//! The marks of the source language, and numbered source lines.

use crate::text::{copy_range, views};
use vstd::prelude::*;

verus! {

/// Opens a macro definition (the open padlock).
pub const MACRO_OPEN: char = '\u{1F513}';

/// Closes a macro definition (the closed padlock).
pub const MACRO_CLOSE: char = '\u{1F512}';

/// Opens the code section (the speech balloon).
pub const CODE_MARK: char = '\u{1F4AC}';

/// Ends a label definition.
pub const LABEL_MARK: char = ':';

/// Stands in a macro body for the argument of the invocation.
pub const PLACEHOLDER: char = '_';

/// Opens a comment, where it stands at the head of a token.
pub const COMMENT_MARK: char = '#';

/// A line of source text with its one-based number in the input.
#[derive(Clone, Debug, PartialEq, Eq)]
pub struct Line {
    pub number: usize,
    pub text: Vec<char>,
}

/// A line as a value: its number and its characters.
pub struct LineView {
    pub number: usize,
    pub text: Seq<char>,
}

impl View for Line {
    type V = LineView;

    open spec fn view(&self) -> LineView {
        LineView { number: self.number, text: self.text@ }
    }
}

/// The views of a vector of lines.
pub open spec fn line_views(code: Seq<Line>) -> Seq<LineView> {
    code.map_values(|l: Line| l@)
}

/// The lines from index `from` on, each with its number: the line at index
/// `i` has the number `i + 1`.
pub open spec fn numbered(lines: Seq<Seq<char>>, from: int) -> Seq<LineView> {
    Seq::new(
        (lines.len() - from) as nat,
        |k: int| LineView { number: (from + k + 1) as usize, text: lines[from + k] },
    )
}

/// The lines that follow the first `from` lines, numbered.
pub fn code_section(lines: &[Vec<char>], from: usize) -> (code: Vec<Line>)
    requires
        from <= lines@.len(),
    ensures
        line_views(code@) == numbered(views(lines@), from as int),
{
    let mut code: Vec<Line> = Vec::new();
    let mut i: usize = from;
    while i < lines.len()
        invariant
            from <= i <= lines@.len(),
            code@.len() == i - from,
            forall|k: int|
                0 <= k < i - from ==> (#[trigger] code@[k])@ == (LineView {
                    number: (from + k + 1) as usize,
                    text: lines@[from + k]@,
                }),
        decreases lines@.len() - i,
    {
        let text = copy_range(lines[i].as_slice(), 0, lines[i].len());
        assert(text@ == lines@[i as int]@);
        code.push(Line { number: i + 1, text });
        i += 1;
    }
    assert(line_views(code@) =~= numbered(views(lines@), from as int));
    code
}

} // verus!
