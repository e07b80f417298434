//! The assembler: from a source text to the words of the program.
//!
//! The work is done in passes, each over the whole of what the pass before
//! it gave: the macro section is read, the code section is expanded, the
//! symbol table is built, and then the lines are encoded. A jump can so
//! name a label that is defined after it.

use crate::encoder::{encode_line, lemma_line_round_trip, line_word};
use crate::error::CompileError;
use crate::isa::Instruction;
use crate::macros::{expand, insert_macros, parse_macros, sections};
use crate::source::{code_section, line_views, numbered, Line, LineView};
use crate::symbols::{
    build_symbols, emitted, is_instruction, label_views, lemma_emitted_monotone, pc_at,
    symbols_of, tokens_at, Label, LabelView,
};
use crate::text::{code_tokens_of, lines_of, split_lines, to_chars};
use vstd::prelude::*;

verus! {

/// The words of the instructions among the first `n` lines, in the order of
/// the lines, or the error of the first line that cannot be encoded.
pub open spec fn words_of(code: Seq<LineView>, table: Seq<LabelView>, n: int) -> Result<
    Seq<u8>,
    CompileError,
>
    decreases n,
{
    if n <= 0 {
        Ok(Seq::empty())
    } else {
        let line = code[n - 1];
        match words_of(code, table, n - 1) {
            Err(e) => Err(e),
            Ok(words) => match line_word(line, table, pc_at(code, n - 1) as int) {
                Err(e) => Err(e),
                Ok(None) => Ok(words),
                Ok(Some(w)) => Ok(words.push(w)),
            },
        }
    }
}

/// The program that an expanded code section stands for: the symbol table
/// is built from the whole section, and then every line is encoded against
/// it.
pub open spec fn assembled(code: Seq<LineView>) -> Result<Seq<u8>, CompileError> {
    match symbols_of(code) {
        Err(e) => Err(e),
        Ok(table) => words_of(code, table, code.len() as int),
    }
}

/// The program that a source text stands for.
pub open spec fn compiled(source: Seq<char>) -> Result<Seq<u8>, CompileError> {
    let lines = lines_of(source);
    match sections(lines, 0) {
        Err(e) => Err(e),
        Ok((macros, marker)) => match expand(macros, numbered(lines, marker as int)) {
            Err(e) => Err(e),
            Ok(code) => assembled(code),
        },
    }
}

/// What a result says in terms of sequences.
pub open spec fn outcome(r: Result<Vec<u8>, CompileError>) -> Result<Seq<u8>, CompileError> {
    match r {
        Ok(words) => Ok(words@),
        Err(e) => Err(e),
    }
}

/// An error among the first `n` lines is the error of any longer prefix.
pub proof fn lemma_words_error(code: Seq<LineView>, table: Seq<LabelView>, n: int, m: int)
    requires
        0 <= n <= m,
        words_of(code, table, n) is Err,
    ensures
        words_of(code, table, m) == words_of(code, table, n),
    decreases m - n,
{
    if n < m {
        lemma_words_error(code, table, n, m - 1);
    }
}

/// A line gives a word or an error if and only if it stands for an
/// instruction.
pub proof fn lemma_word_iff_instruction(line: LineView, table: Seq<LabelView>, pc: int)
    ensures
        line_word(line, table, pc) == Ok::<Option<u8>, CompileError>(None) <==> !is_instruction(
            code_tokens_of(line.text),
        ),
{
}

/// The words of the first `n` lines are as many as the instructions among
/// them, and the word at index `pc - 1` is the word of the instruction with
/// the program counter `pc`.
pub proof fn lemma_words_in_order(code: Seq<LineView>, table: Seq<LabelView>, n: int)
    requires
        0 <= n <= code.len(),
        words_of(code, table, n) is Ok,
    ensures
        words_of(code, table, n)->Ok_0.len() == emitted(code, n),
        forall|i: int|
            0 <= i < n && is_instruction(#[trigger] tokens_at(code, i)) ==> line_word(
                code[i],
                table,
                pc_at(code, i) as int,
            ) == Ok::<_, CompileError>(Some(words_of(code, table, n)->Ok_0[pc_at(code, i) - 1])),
    decreases n,
{
    if n > 0 {
        lemma_words_in_order(code, table, n - 1);
        let before = words_of(code, table, n - 1)->Ok_0;
        let words = words_of(code, table, n)->Ok_0;
        let last = line_word(code[n - 1], table, pc_at(code, n - 1) as int);
        lemma_word_iff_instruction(code[n - 1], table, pc_at(code, n - 1) as int);
        assert(words == match last {
            Ok(Some(w)) => before.push(w),
            _ => before,
        });
        assert forall|i: int|
            0 <= i < n && is_instruction(#[trigger] tokens_at(code, i)) implies line_word(
            code[i],
            table,
            pc_at(code, i) as int,
        ) == Ok::<_, CompileError>(Some(words[pc_at(code, i) - 1])) by {
            if i < n - 1 {
                lemma_emitted_monotone(code, i + 1, n - 1);
                assert(words[pc_at(code, i) - 1] == before[pc_at(code, i) - 1]);
            }
        }
    }
}

/// A program holds one word for each line that stands for an instruction,
/// in the order of the lines: it has as many words as the code section has
/// instructions, and the word of each instruction stands at the index that
/// is one less than its program counter. Lines without tokens, comments and
/// label definitions give no word.
pub proof fn lemma_one_word_per_instruction(code: Seq<LineView>)
    requires
        assembled(code) is Ok,
    ensures
        assembled(code)->Ok_0.len() == emitted(code, code.len() as int),
        forall|i: int|
            0 <= i < code.len() && is_instruction(#[trigger] tokens_at(code, i)) ==> line_word(
                code[i],
                symbols_of(code)->Ok_0,
                pc_at(code, i) as int,
            ) == Ok::<_, CompileError>(Some(assembled(code)->Ok_0[pc_at(code, i) - 1])),
{
    lemma_words_in_order(code, symbols_of(code)->Ok_0, code.len() as int);
}

/// Every word of the first `n` lines can be decoded.
pub proof fn lemma_words_decode(code: Seq<LineView>, table: Seq<LabelView>, n: int)
    requires
        0 <= n <= code.len(),
        words_of(code, table, n) is Ok,
    ensures
        forall|k: int|
            0 <= k < words_of(code, table, n)->Ok_0.len() ==> Instruction::of_word(
                #[trigger] words_of(code, table, n)->Ok_0[k],
            ) is Some,
    decreases n,
{
    if n > 0 {
        lemma_words_decode(code, table, n - 1);
        let before = words_of(code, table, n - 1)->Ok_0;
        let words = words_of(code, table, n)->Ok_0;
        lemma_line_round_trip(tokens_at(code, n - 1), table, pc_at(code, n - 1) as int);
        assert forall|k: int| 0 <= k < words.len() implies Instruction::of_word(
            #[trigger] words[k],
        ) is Some by {
            if k < before.len() {
                assert(words[k] == before[k]);
            }
        }
    }
}

/// Every word of a program is the word of a valid instruction, and can be
/// decoded to it.
pub proof fn lemma_program_decodes(code: Seq<LineView>)
    requires
        assembled(code) is Ok,
    ensures
        forall|k: int|
            0 <= k < assembled(code)->Ok_0.len() ==> Instruction::of_word(
                #[trigger] assembled(code)->Ok_0[k],
            ) is Some,
{
    lemma_words_decode(code, symbols_of(code)->Ok_0, code.len() as int);
}

/// Assembles an expanded code section.
pub fn assemble(code: &[Line]) -> (r: Result<Vec<u8>, CompileError>)
    ensures
        outcome(r) == assembled(line_views(code@)),
{
    let ghost all = line_views(code@);
    let labels: Vec<Label> = match build_symbols(code) {
        Ok(labels) => labels,
        Err(e) => {
            return Err(e);
        },
    };
    let ghost table = label_views(labels@);
    let mut words: Vec<u8> = Vec::new();
    let mut count: usize = 0;
    let mut i: usize = 0;
    while i < code.len()
        invariant
            i <= code@.len(),
            all == line_views(code@),
            table == label_views(labels@),
            symbols_of(all) == Ok::<_, CompileError>(table),
            count == emitted(all, i as int),
            count <= i,
            words_of(all, table, i as int) == Ok::<_, CompileError>(words@),
        decreases code@.len() - i,
    {
        let line = &code[i];
        assert(all[i as int] == line@);
        match encode_line(line, labels.as_slice(), count + 1) {
            Ok(Some(word)) => {
                words.push(word);
                count += 1;
            },
            Ok(None) => {},
            Err(e) => {
                proof {
                    lemma_words_error(all, table, i + 1, all.len() as int);
                }
                return Err(e);
            },
        }
        i += 1;
    }
    Ok(words)
}

/// Assembles a source text: reads the macro section, expands the code
/// section, and assembles what comes out.
pub fn compile(code: String) -> (r: Result<Vec<u8>, CompileError>)
    ensures
        outcome(r) == compiled(code@),
{
    let source = to_chars(code.as_str());
    let lines = split_lines(source.as_slice());
    let (macros, marker) = match parse_macros(lines.as_slice()) {
        Ok(found) => found,
        Err(e) => {
            return Err(e);
        },
    };
    let section = code_section(lines.as_slice(), marker);
    let expanded = match insert_macros(section.as_slice(), macros.as_slice()) {
        Ok(expanded) => expanded,
        Err(e) => {
            return Err(e);
        },
    };
    assemble(expanded.as_slice())
}

} // verus!
