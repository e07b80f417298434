//! Macro definitions and their expansion.
//!
//! The macro section of a source text holds definitions: a line with the
//! macro-open marker and a name, the lines of the body, and a line with the
//! macro-close marker. The section ends at the code-section marker. In the
//! code section, a line that holds the name of a macro is replaced by the
//! body of that macro, with the second token of the line in the place of
//! every placeholder.

use crate::error::{CompileError, ErrorKind};
use crate::source::{line_views, Line, LineView, CODE_MARK, MACRO_CLOSE, MACRO_OPEN};
use crate::text::{
    contains, contains_text, copy_range, fill, has_char, split_tokens, substitute, tokens_of,
    views,
};
use vstd::prelude::*;

verus! {

/// A macro: its name and the lines of its body.
#[derive(Clone, Debug, PartialEq, Eq)]
pub struct Macro {
    pub name: Vec<char>,
    pub body: Vec<Vec<char>>,
}

/// A macro as a value: its name and the lines of its body.
pub struct MacroView {
    pub name: Seq<char>,
    pub body: Seq<Seq<char>>,
}

impl View for Macro {
    type V = MacroView;

    open spec fn view(&self) -> MacroView {
        MacroView { name: self.name@, body: views(self.body@) }
    }
}

/// The views of a vector of macros.
pub open spec fn macro_views(macros: Seq<Macro>) -> Seq<MacroView> {
    macros.map_values(|m: Macro| m@)
}

/// Whether a line ends a macro body: it holds the macro-close marker, or the
/// code-section marker.
pub open spec fn ends_body(line: Seq<char>) -> bool {
    line.contains(MACRO_CLOSE) || line.contains(CODE_MARK)
}

/// The index of the first line at or after `from` that ends a macro body;
/// the number of lines if there is none.
pub open spec fn body_end(lines: Seq<Seq<char>>, from: int) -> int
    decreases lines.len() - from,
{
    if from < 0 || from >= lines.len() {
        lines.len() as int
    } else if ends_body(lines[from]) {
        from
    } else {
        body_end(lines, from + 1)
    }
}

/// `body_end` is the index of the first line from `from` on that ends a macro
/// body.
pub proof fn lemma_body_end(lines: Seq<Seq<char>>, from: int)
    requires
        0 <= from <= lines.len(),
    ensures
        from <= body_end(lines, from) <= lines.len(),
        forall|k: int| from <= k < body_end(lines, from) ==> !ends_body(#[trigger] lines[k]),
        body_end(lines, from) < lines.len() ==> ends_body(lines[body_end(lines, from)]),
    decreases lines.len() - from,
{
    if from < lines.len() && !ends_body(lines[from]) {
        lemma_body_end(lines, from + 1);
    }
}

/// What the macro section holds when read from line index `from` on: the
/// macros in the order of their definition and the one-based number of the
/// line with the code-section marker.
///
/// A line with the macro-open marker opens a definition. Its second token is
/// the name; the body runs up to the next line with the macro-close marker.
/// The definition is unterminated if the code-section marker or the end of
/// the input comes first. Other lines before the code-section marker are
/// passed over.
pub open spec fn sections(lines: Seq<Seq<char>>, from: int) -> Result<
    (Seq<MacroView>, usize),
    CompileError,
>
    decreases lines.len() - from,
{
    if from < 0 || from >= lines.len() {
        Err(CompileError { kind: ErrorKind::MissingCodeMarker, line: None })
    } else if lines[from].contains(MACRO_OPEN) {
        let toks = tokens_of(lines[from]);
        let end = body_end(lines, from + 1);
        if toks.len() < 2 {
            Err(CompileError::on_line(ErrorKind::MissingMacroName, from + 1))
        } else if end >= lines.len() || !lines[end].contains(MACRO_CLOSE) {
            Err(CompileError::on_line(ErrorKind::UnterminatedMacro, from + 1))
        } else {
            proof {
                lemma_body_end(lines, from + 1);
            }
            with_macro(
                MacroView { name: toks[1], body: lines.subrange(from + 1, end) },
                sections(lines, end + 1),
            )
        }
    } else if lines[from].contains(CODE_MARK) {
        Ok((Seq::empty(), (from + 1) as usize))
    } else {
        sections(lines, from + 1)
    }
}

/// `rest` with the macro `m` put before its macros.
pub open spec fn with_macro(
    m: MacroView,
    rest: Result<(Seq<MacroView>, usize), CompileError>,
) -> Result<(Seq<MacroView>, usize), CompileError> {
    match rest {
        Ok((macros, marker)) => Ok((seq![m] + macros, marker)),
        Err(e) => Err(e),
    }
}

/// `rest` with the macros `found` put before its macros.
pub open spec fn with_macros(
    found: Seq<MacroView>,
    rest: Result<(Seq<MacroView>, usize), CompileError>,
) -> Result<(Seq<MacroView>, usize), CompileError> {
    match rest {
        Ok((macros, marker)) => Ok((found + macros, marker)),
        Err(e) => Err(e),
    }
}

/// Copies the lines `from..to`.
fn copy_lines(lines: &[Vec<char>], from: usize, to: usize) -> (out: Vec<Vec<char>>)
    requires
        from <= to <= lines@.len(),
    ensures
        views(out@) == views(lines@).subrange(from as int, to as int),
{
    let mut out: Vec<Vec<char>> = Vec::new();
    let mut i: usize = from;
    while i < to
        invariant
            from <= i <= to <= lines@.len(),
            out@.len() == i - from,
            forall|k: int| 0 <= k < i - from ==> (#[trigger] out@[k])@ == lines@[from + k]@,
        decreases to - i,
    {
        let line = copy_range(lines[i].as_slice(), 0, lines[i].len());
        assert(line@ == lines@[i as int]@);
        out.push(line);
        i += 1;
    }
    assert(views(out@) =~= views(lines@).subrange(from as int, to as int));
    out
}

/// Reads the macro section of a source text, given as its lines.
///
/// Returns the macros in the order of their definition, and the one-based
/// number of the line that holds the code-section marker.
pub fn parse_macros(lines: &[Vec<char>]) -> (r: Result<(Vec<Macro>, usize), CompileError>)
    ensures
        match r {
            Ok((macros, marker)) => sections(views(lines@), 0) == Ok::<_, CompileError>(
                (macro_views(macros@), marker),
            ),
            Err(e) => sections(views(lines@), 0) == Err::<(Seq<MacroView>, usize), _>(e),
        },
        r matches Ok((_, marker)) ==> 0 < marker <= lines@.len(),
{
    let ghost all = views(lines@);
    let mut macros: Vec<Macro> = Vec::new();
    let mut i: usize = 0;
    assert(with_macros(macro_views(macros@), sections(all, 0)) == sections(all, 0)) by {
        match sections(all, 0) {
            Ok((ms, marker)) => {
                assert(macro_views(macros@) + ms == ms);
            },
            Err(e) => {},
        }
    }
    while i < lines.len()
        invariant
            i <= lines@.len(),
            all == views(lines@),
            sections(all, 0) == with_macros(macro_views(macros@), sections(all, i as int)),
        decreases lines@.len() - i,
    {
        let line = lines[i].as_slice();
        assert(line@ == all[i as int]);
        if has_char(line, MACRO_OPEN) {
            let toks = split_tokens(line);
            if toks.len() < 2 {
                return Err(CompileError::at(ErrorKind::MissingMacroName, i + 1));
            }
            let mut end: usize = i + 1;
            while end < lines.len() && !(has_char(lines[end].as_slice(), MACRO_CLOSE) || has_char(
                lines[end].as_slice(),
                CODE_MARK,
            ))
                invariant
                    i + 1 <= end <= lines@.len(),
                    all == views(lines@),
                    body_end(all, i + 1) == body_end(all, end as int),
                decreases lines@.len() - end,
            {
                assert(lines@[end as int]@ == all[end as int]);
                end += 1;
            }
            assert(end == body_end(all, i + 1)) by {
                if end < lines@.len() {
                    assert(lines@[end as int]@ == all[end as int]);
                }
            }
            if end >= lines.len() || !has_char(lines[end].as_slice(), MACRO_CLOSE) {
                assert(end < lines@.len() ==> lines@[end as int]@ == all[end as int]);
                return Err(CompileError::at(ErrorKind::UnterminatedMacro, i + 1));
            }
            assert(lines@[end as int]@ == all[end as int]);
            let name = copy_range(toks[1].as_slice(), 0, toks[1].len());
            assert(name@ == tokens_of(all[i as int])[1]) by {
                assert(views(toks@)[1] == toks@[1]@);
            }
            let body = copy_lines(lines, i + 1, end);
            let ghost before = macro_views(macros@);
            let m = Macro { name, body };
            proof {
                let rest = sections(all, end + 1);
                assert(sections(all, i as int) == with_macro(m@, rest));
                match rest {
                    Ok((ms, marker)) => {
                        assert(before + (seq![m@] + ms) == before.push(m@) + ms);
                    },
                    Err(e) => {},
                }
            }
            macros.push(m);
            assert(macro_views(macros@) == before.push(m@));
            i = end + 1;
        } else if has_char(line, CODE_MARK) {
            proof {
                assert(macro_views(macros@) + Seq::<MacroView>::empty() == macro_views(macros@));
            }
            return Ok((macros, i + 1));
        } else {
            i += 1;
        }
    }
    Err(CompileError { kind: ErrorKind::MissingCodeMarker, line: None })
}

/// The index of the first macro at or after `from` whose name stands
/// somewhere in `text`.
pub open spec fn first_match(macros: Seq<MacroView>, text: Seq<char>, from: int) -> Option<int>
    decreases macros.len() - from,
{
    if from < 0 || from >= macros.len() {
        None
    } else if contains_text(text, macros[from].name) {
        Some(from)
    } else {
        first_match(macros, text, from + 1)
    }
}

/// The body of `m` with `arg` in the place of every placeholder, each line
/// under the number of the line that invoked the macro.
pub open spec fn expansion(m: MacroView, arg: Seq<char>, number: usize) -> Seq<LineView> {
    m.body.map_values(|b: Seq<char>| LineView { number, text: substitute(b, arg) })
}

/// What one code line expands to. A line that holds no macro name stays as
/// it is. Otherwise the first macro, in the order of definition, whose name
/// the line holds is applied to the second token of the line; what comes out
/// is not expanded again.
pub open spec fn expand_line(macros: Seq<MacroView>, line: LineView) -> Result<
    Seq<LineView>,
    CompileError,
> {
    match first_match(macros, line.text, 0) {
        None => Ok(seq![line]),
        Some(k) => {
            let toks = tokens_of(line.text);
            if toks.len() < 2 {
                Err(CompileError::on_line(ErrorKind::MacroArgumentMissing, line.number as int))
            } else {
                Ok(expansion(macros[k], toks[1], line.number))
            }
        },
    }
}

/// The code section with every line expanded, or the error of the first
/// line that cannot be.
pub open spec fn expand(macros: Seq<MacroView>, code: Seq<LineView>) -> Result<
    Seq<LineView>,
    CompileError,
>
    decreases code.len(),
{
    if code.len() == 0 {
        Ok(Seq::empty())
    } else {
        match expand(macros, code.drop_last()) {
            Err(e) => Err(e),
            Ok(head) => match expand_line(macros, code.last()) {
                Err(e) => Err(e),
                Ok(lines) => Ok(head + lines),
            },
        }
    }
}

/// `first_match` finds the least index of a macro whose name stands in the
/// text, and none only if no name does.
pub proof fn lemma_first_match(macros: Seq<MacroView>, text: Seq<char>, from: int)
    requires
        0 <= from <= macros.len(),
    ensures
        match first_match(macros, text, from) {
            Some(k) => from <= k < macros.len() && contains_text(text, macros[k].name)
                && forall|j: int| from <= j < k ==> !contains_text(text, #[trigger] macros[j].name),
            None => forall|j: int|
                from <= j < macros.len() ==> !contains_text(text, #[trigger] macros[j].name),
        },
    decreases macros.len() - from,
{
    if from < macros.len() && !contains_text(text, macros[from].name) {
        lemma_first_match(macros, text, from + 1);
    }
}

/// Expansion leaves a code section without invocations as it is: where no
/// line holds the name of a macro, every line stays, under its number.
pub proof fn lemma_expand_without_invocations(macros: Seq<MacroView>, code: Seq<LineView>)
    requires
        forall|i: int, k: int|
            0 <= i < code.len() && 0 <= k < macros.len() ==> !contains_text(
                (#[trigger] code[i]).text,
                (#[trigger] macros[k]).name,
            ),
    ensures
        expand(macros, code) == Ok::<_, CompileError>(code),
    decreases code.len(),
{
    if code.len() > 0 {
        let head = code.drop_last();
        assert forall|i: int, k: int| 0 <= i < head.len() && 0 <= k < macros.len() implies
            !contains_text((#[trigger] head[i]).text, (#[trigger] macros[k]).name) by {
            assert(head[i] == code[i]);
        }
        lemma_expand_without_invocations(macros, head);
        lemma_first_match(macros, code.last().text, 0);
        match first_match(macros, code.last().text, 0) {
            Some(k) => {
                assert(contains_text(code[code.len() - 1].text, macros[k].name));
            },
            None => {},
        }
        assert(head + seq![code.last()] == code);
    } else {
        assert(code == Seq::<LineView>::empty());
    }
}

/// Looks for the first macro whose name stands in `text`.
pub fn find_macro(macros: &[Macro], text: &[char]) -> (r: Option<usize>)
    ensures
        match r {
            Some(k) => first_match(macro_views(macros@), text@, 0) == Some(k as int),
            None => first_match(macro_views(macros@), text@, 0) is None,
        },
        r matches Some(k) ==> k < macros@.len(),
{
    let ghost all = macro_views(macros@);
    let mut k: usize = 0;
    while k < macros.len()
        invariant
            k <= macros@.len(),
            all == macro_views(macros@),
            first_match(all, text@, 0) == first_match(all, text@, k as int),
        decreases macros@.len() - k,
    {
        assert(all[k as int].name == macros@[k as int].name@);
        if contains(text, macros[k].name.as_slice()) {
            return Some(k);
        }
        k += 1;
    }
    None
}

/// Expands the macro invocations of a code section.
///
/// Each line that holds the name of a macro gives way to the body of the
/// first such macro, with the second token of the line put for every
/// placeholder. The lines that come out carry the number of the line that
/// they replace.
pub fn insert_macros(code: &[Line], macros: &[Macro]) -> (r: Result<Vec<Line>, CompileError>)
    ensures
        match r {
            Ok(out) => expand(macro_views(macros@), line_views(code@)) == Ok::<_, CompileError>(
                line_views(out@),
            ),
            Err(e) => expand(macro_views(macros@), line_views(code@)) == Err::<Seq<LineView>, _>(
                e,
            ),
        },
{
    let ghost ms = macro_views(macros@);
    let ghost all = line_views(code@);
    let mut out: Vec<Line> = Vec::new();
    let mut i: usize = 0;
    assert(all.take(0) == Seq::<LineView>::empty());
    assert(line_views(out@) == Seq::<LineView>::empty());
    while i < code.len()
        invariant
            i <= code@.len(),
            ms == macro_views(macros@),
            all == line_views(code@),
            expand(ms, all.take(i as int)) == Ok::<_, CompileError>(line_views(out@)),
        decreases code@.len() - i,
    {
        let line = &code[i];
        let ghost done = line_views(out@);
        proof {
            assert(all.take(i + 1).drop_last() == all.take(i as int));
            assert(all.take(i + 1).last() == line@);
        }
        match find_macro(macros, line.text.as_slice()) {
            None => {
                let text = copy_range(line.text.as_slice(), 0, line.text.len());
                assert(text@ == line.text@);
                let copy = Line { number: line.number, text };
                out.push(copy);
                assert(line_views(out@) == done + seq![line@]);
            },
            Some(k) => {
                let toks = split_tokens(line.text.as_slice());
                if toks.len() < 2 {
                    proof {
                        lemma_expand_prefix_error(ms, all, i + 1);
                    }
                    return Err(CompileError::at(ErrorKind::MacroArgumentMissing, line.number));
                }
                let arg = toks[1].as_slice();
                assert(arg@ == tokens_of(line@.text)[1]) by {
                    assert(views(toks@)[1] == toks@[1]@);
                }
                let m = &macros[k];
                assert(ms[k as int] == m@);
                let mut j: usize = 0;
                while j < m.body.len()
                    invariant
                        j <= m.body@.len(),
                        line_views(out@) == done + expansion(m@, arg@, line.number).take(j as int),
                    decreases m.body@.len() - j,
                {
                    let text = fill(m.body[j].as_slice(), arg);
                    let ghost before = line_views(out@);
                    let new = Line { number: line.number, text };
                    assert(new@ == expansion(m@, arg@, line.number)[j as int]) by {
                        assert(views(m.body@)[j as int] == m.body@[j as int]@);
                    }
                    out.push(new);
                    assert(line_views(out@) == before.push(new@));
                    assert(expansion(m@, arg@, line.number).take(j + 1) == expansion(
                        m@,
                        arg@,
                        line.number,
                    ).take(j as int).push(new@));
                    j += 1;
                }
                assert(expansion(m@, arg@, line.number).take(j as int) == expansion(
                    m@,
                    arg@,
                    line.number,
                ));
            },
        }
        i += 1;
    }
    assert(all.take(i as int) == all);
    Ok(out)
}

/// An error in a prefix of the code section is the error of the whole.
pub proof fn lemma_expand_prefix_error(macros: Seq<MacroView>, code: Seq<LineView>, n: int)
    requires
        0 <= n <= code.len(),
        expand(macros, code.take(n)) is Err,
    ensures
        expand(macros, code) == expand(macros, code.take(n)),
    decreases code.len() - n,
{
    if n < code.len() {
        assert(code.take(n + 1).drop_last() == code.take(n));
        lemma_expand_prefix_error(macros, code, n + 1);
    } else {
        assert(code.take(n) == code);
    }
}

} // verus!
