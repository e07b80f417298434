//! Labels and program counters: the first pass over the code section.
//!
//! Program counters number the instructions from one. A label stands for the
//! program counter of the instruction that follows it, so the distance
//! between a jump and a label is a number of instructions.

use crate::error::{CompileError, ErrorKind};
use crate::isa::Opcode;
use crate::source::{line_views, Line, LineView, LABEL_MARK};
use crate::text::{code_tokens, code_tokens_of, read_signed, same_text, signed_literal, views};
use vstd::prelude::*;

verus! {

/// A label with the program counter that it stands for.
#[derive(Clone, Debug, PartialEq, Eq)]
pub struct Label {
    pub name: Vec<char>,
    pub pc: usize,
}

/// A label as a value: its name and its program counter.
pub struct LabelView {
    pub name: Seq<char>,
    pub pc: usize,
}

impl View for Label {
    type V = LabelView;

    open spec fn view(&self) -> LabelView {
        LabelView { name: self.name@, pc: self.pc }
    }
}

/// The views of a vector of labels.
pub open spec fn label_views(labels: Seq<Label>) -> Seq<LabelView> {
    labels.map_values(|l: Label| l@)
}

/// Whether a token ends with the label marker.
pub open spec fn ends_with_mark(tok: Seq<char>) -> bool {
    tok.len() > 0 && tok.last() == LABEL_MARK
}

/// Whether the tokens of a line define a label: the first token ends with
/// the label marker.
pub open spec fn is_label_def(toks: Seq<Seq<char>>) -> bool {
    toks.len() > 0 && ends_with_mark(toks[0])
}

/// Whether the tokens of a line stand for an instruction: there is a token,
/// and the line defines no label.
pub open spec fn is_instruction(toks: Seq<Seq<char>>) -> bool {
    toks.len() > 0 && !ends_with_mark(toks[0])
}

/// A token without its label markers.
pub open spec fn without_marks(tok: Seq<char>) -> Seq<char>
    decreases tok.len(),
{
    if tok.len() == 0 {
        Seq::empty()
    } else if tok.last() == LABEL_MARK {
        without_marks(tok.drop_last())
    } else {
        without_marks(tok.drop_last()).push(tok.last())
    }
}

/// The number of instructions among the first `n` lines.
pub open spec fn emitted(code: Seq<LineView>, n: int) -> nat
    decreases n,
{
    if n <= 0 {
        0
    } else if is_instruction(code_tokens_of(code[n - 1].text)) {
        emitted(code, n - 1) + 1
    } else {
        emitted(code, n - 1)
    }
}

/// The program counter at line index `i`: one more than the number of
/// instructions before that line. It is the program counter of the line
/// itself where the line is an instruction, and else that of the next
/// instruction.
pub open spec fn pc_at(code: Seq<LineView>, i: int) -> nat {
    emitted(code, i) + 1
}

/// The program counter that the last label named `name` in `table` stands
/// for.
pub open spec fn resolve(table: Seq<LabelView>, name: Seq<char>) -> Option<usize>
    decreases table.len(),
{
    if table.len() == 0 {
        None
    } else if table.last().name == name {
        Some(table.last().pc)
    } else {
        resolve(table.drop_last(), name)
    }
}

/// The labels that the first `n` lines define, in the order of their
/// definition, or the error of the first line that defines a label anew.
pub open spec fn labels_of(code: Seq<LineView>, n: int) -> Result<Seq<LabelView>, CompileError>
    decreases n,
{
    if n <= 0 {
        Ok(Seq::empty())
    } else {
        let toks = code_tokens_of(code[n - 1].text);
        match labels_of(code, n - 1) {
            Err(e) => Err(e),
            Ok(table) => if !is_label_def(toks) {
                Ok(table)
            } else if resolve(table, without_marks(toks[0])) is Some {
                Err(CompileError::on_line(ErrorKind::DuplicateLabel, code[n - 1].number as int))
            } else {
                Ok(
                    table.push(
                        LabelView { name: without_marks(toks[0]), pc: pc_at(code, n - 1) as usize },
                    ),
                )
            },
        }
    }
}

/// Whether the tokens of a line stand for a jump.
pub open spec fn is_jump(toks: Seq<Seq<char>>) -> bool {
    is_instruction(toks) && Opcode::of_token(toks[0]) == Some(Opcode::J)
}

/// Whether the target of a jump can be resolved: the operand is there, and
/// is a signed literal or a label of the table.
pub open spec fn target_resolves(toks: Seq<Seq<char>>, table: Seq<LabelView>) -> bool {
    toks.len() >= 2 && (signed_literal(toks[1]) is Some || resolve(table, toks[1]) is Some)
}

/// Nothing, if every jump among the first `n` lines has a target that can
/// be resolved; else the error of the first jump that has none.
pub open spec fn targets_of(code: Seq<LineView>, table: Seq<LabelView>, n: int) -> Result<
    (),
    CompileError,
>
    decreases n,
{
    if n <= 0 {
        Ok(())
    } else {
        let toks = code_tokens_of(code[n - 1].text);
        match targets_of(code, table, n - 1) {
            Err(e) => Err(e),
            Ok(()) => if is_jump(toks) && !target_resolves(toks, table) {
                Err(CompileError::on_line(ErrorKind::UnknownLabel, code[n - 1].number as int))
            } else {
                Ok(())
            },
        }
    }
}

/// The symbol table of a code section: its labels, once no label is defined
/// twice and every jump has a target that can be resolved.
pub open spec fn symbols_of(code: Seq<LineView>) -> Result<Seq<LabelView>, CompileError> {
    match labels_of(code, code.len() as int) {
        Err(e) => Err(e),
        Ok(table) => match targets_of(code, table, code.len() as int) {
            Err(e) => Err(e),
            Ok(()) => Ok(table),
        },
    }
}

/// The number of instructions grows with the number of lines.
pub proof fn lemma_emitted_monotone(code: Seq<LineView>, n: int, m: int)
    requires
        n <= m,
    ensures
        emitted(code, n) <= emitted(code, m),
    decreases m - n,
{
    if n < m {
        lemma_emitted_monotone(code, n, m - 1);
    }
}

/// An error among the first `n` lines is the error of any longer prefix.
pub proof fn lemma_labels_error(code: Seq<LineView>, n: int, m: int)
    requires
        0 <= n <= m,
        labels_of(code, n) is Err,
    ensures
        labels_of(code, m) == labels_of(code, n),
    decreases m - n,
{
    if n < m {
        lemma_labels_error(code, n, m - 1);
    }
}

/// An error among the first `n` lines is the error of any longer prefix.
pub proof fn lemma_targets_error(code: Seq<LineView>, table: Seq<LabelView>, n: int, m: int)
    requires
        0 <= n <= m,
        targets_of(code, table, n) is Err,
    ensures
        targets_of(code, table, m) == targets_of(code, table, n),
    decreases m - n,
{
    if n < m {
        lemma_targets_error(code, table, n, m - 1);
    }
}

/// The tokens of the code line at index `i`.
pub open spec fn tokens_at(code: Seq<LineView>, i: int) -> Seq<Seq<char>> {
    code_tokens_of(code[i].text)
}

/// A name resolves if and only if the table holds a label of that name.
pub proof fn lemma_resolve(table: Seq<LabelView>, name: Seq<char>)
    ensures
        resolve(table, name) is Some <==> exists|k: int|
            0 <= k < table.len() && (#[trigger] table[k]).name == name,
    decreases table.len(),
{
    if table.len() > 0 {
        let head = table.drop_last();
        lemma_resolve(head, name);
        if table.last().name == name {
            assert(table[table.len() - 1].name == name);
        } else if resolve(head, name) is Some {
            let k = choose|k: int| 0 <= k < head.len() && (#[trigger] head[k]).name == name;
            assert(table[k].name == name);
        } else {
            assert forall|k: int| 0 <= k < table.len() implies (#[trigger] table[k]).name
                != name by {
                if k < head.len() {
                    assert(head[k] == table[k]);
                }
            }
        }
    }
}

/// The labels of a symbol table have names of their own: none stands in the
/// table twice.
pub proof fn lemma_labels_unique(code: Seq<LineView>, n: int)
    requires
        labels_of(code, n) is Ok,
    ensures
        forall|a: int, b: int|
            0 <= a < b < labels_of(code, n)->Ok_0.len() ==> (#[trigger] labels_of(
                code,
                n,
            )->Ok_0[a]).name != (#[trigger] labels_of(code, n)->Ok_0[b]).name,
    decreases n,
{
    if n > 0 {
        let table = labels_of(code, n)->Ok_0;
        let before = labels_of(code, n - 1)->Ok_0;
        lemma_labels_unique(code, n - 1);
        let toks = tokens_at(code, n - 1);
        if is_label_def(toks) {
            lemma_resolve(before, without_marks(toks[0]));
            assert forall|a: int, b: int| 0 <= a < b < table.len() implies (#[trigger] table[a]).name
                != (#[trigger] table[b]).name by {
                assert(table[a] == before[a]);
                if b < before.len() {
                    assert(table[b] == before[b]);
                }
            }
        }
    }
}

/// Whether line `i` defines the label `name`.
pub open spec fn defines(code: Seq<LineView>, i: int, name: Seq<char>) -> bool {
    0 <= i < code.len() && is_label_def(tokens_at(code, i)) && without_marks(
        tokens_at(code, i)[0],
    ) == name
}

/// The table holds the names that the lines define, and no others.
pub proof fn lemma_table_holds_defined_names(code: Seq<LineView>, n: int, name: Seq<char>)
    requires
        0 <= n <= code.len(),
        labels_of(code, n) is Ok,
    ensures
        resolve(labels_of(code, n)->Ok_0, name) is Some <==> exists|i: int|
            i < n && #[trigger] defines(code, i, name),
    decreases n,
{
    if n > 0 {
        let table = labels_of(code, n)->Ok_0;
        let before = labels_of(code, n - 1)->Ok_0;
        lemma_table_holds_defined_names(code, n - 1, name);
        if is_label_def(tokens_at(code, n - 1)) {
            assert(table.drop_last() == before);
        }
        if resolve(table, name) is Some {
            if resolve(before, name) is Some {
                let i = choose|i: int| i < n - 1 && #[trigger] defines(code, i, name);
                assert(i < n && defines(code, i, name));
            } else {
                assert(defines(code, n - 1, name));
            }
        }
        if exists|i: int| i < n && #[trigger] defines(code, i, name) {
            let i = choose|i: int| i < n && #[trigger] defines(code, i, name);
            if i < n - 1 {
                assert(defines(code, i, name));
            }
        }
    }
}

/// Lines that stand for no instruction leave the program counter as it is.
pub proof fn lemma_emitted_unchanged(code: Seq<LineView>, i: int, j: int)
    requires
        0 <= i <= j,
        forall|k: int| i <= k < j ==> !is_instruction(#[trigger] tokens_at(code, k)),
    ensures
        emitted(code, j) == emitted(code, i),
    decreases j - i,
{
    if i < j {
        assert(!is_instruction(tokens_at(code, j - 1)));
        lemma_emitted_unchanged(code, i, j - 1);
    }
}

/// In a table without a label defined twice, the name of each label
/// definition resolves to the program counter at its line.
pub proof fn lemma_label_resolves(code: Seq<LineView>, n: int, i: int)
    requires
        0 <= i < n,
        labels_of(code, n) is Ok,
        is_label_def(tokens_at(code, i)),
    ensures
        resolve(labels_of(code, n)->Ok_0, without_marks(tokens_at(code, i)[0])) == Some(
            pc_at(code, i) as usize,
        ),
    decreases n,
{
    let table = labels_of(code, n)->Ok_0;
    let before = labels_of(code, n - 1)->Ok_0;
    let toks = tokens_at(code, n - 1);
    if i < n - 1 {
        lemma_label_resolves(code, n - 1, i);
        if is_label_def(toks) {
            assert(table.drop_last() == before);
        }
    } else {
        assert(table.drop_last() == before);
    }
}

/// A label stands for the program counter of the next instruction: where a
/// label is defined at line `i`, and line `j` is the first instruction after
/// it, the name of the label resolves to the program counter of line `j`,
/// which is the number of instructions up to and with that line.
pub proof fn lemma_label_names_next_instruction(code: Seq<LineView>, i: int, j: int)
    requires
        0 <= i < j < code.len(),
        symbols_of(code) is Ok,
        is_label_def(tokens_at(code, i)),
        is_instruction(tokens_at(code, j)),
        forall|k: int| i < k < j ==> !is_instruction(#[trigger] tokens_at(code, k)),
    ensures
        resolve(symbols_of(code)->Ok_0, without_marks(tokens_at(code, i)[0])) == Some(
            pc_at(code, j) as usize,
        ),
        pc_at(code, j) == emitted(code, j + 1),
{
    lemma_label_resolves(code, code.len() as int, i);
    assert forall|k: int| i <= k < j implies !is_instruction(#[trigger] tokens_at(code, k)) by {}
    lemma_emitted_unchanged(code, i, j);
}

/// Once the symbol table stands, the target of every jump can be resolved.
pub proof fn lemma_jumps_resolve(code: Seq<LineView>, i: int)
    requires
        0 <= i < code.len(),
        symbols_of(code) is Ok,
        is_jump(tokens_at(code, i)),
    ensures
        target_resolves(tokens_at(code, i), symbols_of(code)->Ok_0),
{
    lemma_targets_resolve(code, symbols_of(code)->Ok_0, code.len() as int, i);
}

/// Where the first `n` lines pass, the target of every jump among them can be
/// resolved.
pub proof fn lemma_targets_resolve(code: Seq<LineView>, table: Seq<LabelView>, n: int, i: int)
    requires
        0 <= i < n,
        targets_of(code, table, n) is Ok,
        is_jump(tokens_at(code, i)),
    ensures
        target_resolves(tokens_at(code, i), table),
    decreases n,
{
    if i < n - 1 {
        lemma_targets_resolve(code, table, n - 1, i);
    }
}

/// Whether a token defines a label.
pub fn is_label(tok: &[char]) -> (b: bool)
    ensures
        b == ends_with_mark(tok@),
{
    tok.len() > 0 && tok[tok.len() - 1] == LABEL_MARK
}

/// The name that a label token defines.
pub fn label_name(tok: &[char]) -> (name: Vec<char>)
    ensures
        name@ == without_marks(tok@),
{
    let mut name: Vec<char> = Vec::new();
    let mut i: usize = 0;
    assert(tok@.take(0) == Seq::<char>::empty());
    while i < tok.len()
        invariant
            i <= tok@.len(),
            name@ == without_marks(tok@.take(i as int)),
        decreases tok@.len() - i,
    {
        assert(tok@.take(i + 1).drop_last() == tok@.take(i as int));
        if tok[i] != LABEL_MARK {
            name.push(tok[i]);
        }
        i += 1;
    }
    assert(tok@.take(i as int) == tok@);
    name
}

/// Looks a label up.
pub fn lookup(labels: &[Label], name: &[char]) -> (r: Option<usize>)
    ensures
        r == resolve(label_views(labels@), name@),
{
    let ghost table = label_views(labels@);
    let mut found: Option<usize> = None;
    let mut i: usize = 0;
    assert(table.take(0) == Seq::<LabelView>::empty());
    while i < labels.len()
        invariant
            i <= labels@.len(),
            table == label_views(labels@),
            found == resolve(table.take(i as int), name@),
        decreases labels@.len() - i,
    {
        assert(table.take(i + 1).drop_last() == table.take(i as int));
        assert(table.take(i + 1).last() == labels@[i as int]@);
        if same_text(labels[i].name.as_slice(), name) {
            found = Some(labels[i].pc);
        }
        i += 1;
    }
    assert(table.take(i as int) == table);
    found
}

/// Builds the symbol table of a code section.
///
/// Fails with `DuplicateLabel` on the first line that defines a label anew,
/// and else with `UnknownLabel` on the first jump whose target is neither a
/// signed literal nor a label of the section.
pub fn build_symbols(code: &[Line]) -> (r: Result<Vec<Label>, CompileError>)
    ensures
        match r {
            Ok(labels) => symbols_of(line_views(code@)) == Ok::<_, CompileError>(
                label_views(labels@),
            ),
            Err(e) => symbols_of(line_views(code@)) == Err::<Seq<LabelView>, _>(e),
        },
{
    let ghost all = line_views(code@);
    let mut labels: Vec<Label> = Vec::new();
    let mut count: usize = 0;
    let mut i: usize = 0;
    assert(label_views(labels@) == Seq::<LabelView>::empty());
    while i < code.len()
        invariant
            i <= code@.len(),
            all == line_views(code@),
            count == emitted(all, i as int),
            count <= i,
            labels_of(all, i as int) == Ok::<_, CompileError>(label_views(labels@)),
        decreases code@.len() - i,
    {
        let line = &code[i];
        assert(all[i as int] == line@);
        let toks = code_tokens(line.text.as_slice());
        if toks.len() > 0 {
            assert(views(toks@)[0] == toks@[0]@);
            if is_label(toks[0].as_slice()) {
                let name = label_name(toks[0].as_slice());
                if lookup(labels.as_slice(), name.as_slice()).is_some() {
                    proof {
                        lemma_labels_error(all, i + 1, all.len() as int);
                    }
                    return Err(CompileError::at(ErrorKind::DuplicateLabel, line.number));
                }
                let ghost before = label_views(labels@);
                let label = Label { name, pc: count + 1 };
                labels.push(label);
                assert(label_views(labels@) == before.push(label@));
            } else {
                count += 1;
            }
        }
        i += 1;
    }
    let ghost table = label_views(labels@);
    let mut j: usize = 0;
    while j < code.len()
        invariant
            j <= code@.len(),
            all == line_views(code@),
            table == label_views(labels@),
            labels_of(all, all.len() as int) == Ok::<_, CompileError>(table),
            targets_of(all, table, j as int) == Ok::<(), CompileError>(()),
        decreases code@.len() - j,
    {
        let line = &code[j];
        assert(all[j as int] == line@);
        let toks = code_tokens(line.text.as_slice());
        if toks.len() > 0 {
            assert(views(toks@)[0] == toks@[0]@);
            if !is_label(toks[0].as_slice()) && is_jump_token(toks[0].as_slice()) {
                let resolved = if toks.len() >= 2 {
                    assert(views(toks@)[1] == toks@[1]@);
                    read_signed(toks[1].as_slice(), 0).is_some() || lookup(
                        labels.as_slice(),
                        toks[1].as_slice(),
                    ).is_some()
                } else {
                    false
                };
                if !resolved {
                    proof {
                        lemma_targets_error(all, table, j + 1, all.len() as int);
                    }
                    return Err(CompileError::at(ErrorKind::UnknownLabel, line.number));
                }
            }
        }
        j += 1;
    }
    Ok(labels)
}

/// Whether the leading symbol of a token is the opcode of the jump.
fn is_jump_token(tok: &[char]) -> (b: bool)
    ensures
        b == (Opcode::of_token(tok@) == Some(Opcode::J)),
{
    match Opcode::from_token(tok) {
        Some(Opcode::J) => true,
        _ => false,
    }
}

} // verus!
