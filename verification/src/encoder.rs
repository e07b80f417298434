//! The line encoder: from the tokens of a code line to an instruction word.

use crate::error::{CompileError, ErrorKind, Field};
use crate::isa::{
    immediate_operand, jump_operand, register_operand, Format, Instruction, Opcode, Register,
    Syscall, MAX_DISPLACEMENT,
};
use crate::source::{Line, LineView};
use crate::symbols::{is_instruction, is_label, label_views, lookup, resolve, Label, LabelView};
use crate::text::{
    code_tokens, code_tokens_of, read_signed, read_unsigned, signed_literal, unsigned_literal,
    views,
};
use vstd::prelude::*;
use vstd::slice::slice_subrange;

verus! {

/// The register that the operand at index `i` names.
pub open spec fn register_at(ops: Seq<Seq<char>>, i: int) -> Option<Register> {
    if 0 <= i < ops.len() {
        Register::of_token(ops[i])
    } else {
        None
    }
}

/// The immediate that the operand at index `i` holds: an unsigned literal
/// that is at most `max`.
pub open spec fn immediate_at(ops: Seq<Seq<char>>, i: int, max: nat) -> Option<u8> {
    if 0 <= i < ops.len() {
        match unsigned_literal(ops[i]) {
            Some(v) => if v <= max {
                Some(v as u8)
            } else {
                None
            },
            None => None,
        }
    } else {
        None
    }
}

/// The operands of a register instruction: two registers and an immediate
/// of one bit. The first field that cannot be read gives the error.
pub open spec fn register_fields(ops: Seq<Seq<char>>) -> Result<(Register, Register, u8), ErrorKind> {
    match (register_at(ops, 0), register_at(ops, 1), immediate_at(ops, 2, 1)) {
        (None, _, _) => Err(ErrorKind::OperandParseError(Field::FirstRegister)),
        (Some(_), None, _) => Err(ErrorKind::OperandParseError(Field::SecondRegister)),
        (Some(_), Some(_), None) => Err(ErrorKind::OperandParseError(Field::Immediate)),
        (Some(first), Some(second), Some(imm)) => Ok((first, second, imm)),
    }
}

/// The operands of an immediate instruction: a register and an immediate
/// of three bits. The first field that cannot be read gives the error.
pub open spec fn immediate_fields(ops: Seq<Seq<char>>) -> Result<(Register, u8), ErrorKind> {
    match (register_at(ops, 0), immediate_at(ops, 1, 7)) {
        (None, _) => Err(ErrorKind::OperandParseError(Field::FirstRegister)),
        (Some(_), None) => Err(ErrorKind::OperandParseError(Field::Immediate)),
        (Some(reg), Some(imm)) => Ok((reg, imm)),
    }
}

/// The distance that a jump at program counter `pc` covers: the value of
/// its operand where that is a signed literal, and else the program counter
/// of the label that the operand names, less `pc`.
pub open spec fn jump_distance(ops: Seq<Seq<char>>, table: Seq<LabelView>, pc: int) -> Option<
    int,
> {
    if ops.len() == 0 {
        None
    } else {
        match signed_literal(ops[0]) {
            Some(v) => Some(v),
            None => match resolve(table, ops[0]) {
                Some(target) => Some(target - pc),
                None => None,
            },
        }
    }
}

/// The offset of a jump: its distance, which must not exceed fifteen
/// instructions in either direction.
pub open spec fn jump_offset(ops: Seq<Seq<char>>, table: Seq<LabelView>, pc: int) -> Result<
    i8,
    ErrorKind,
> {
    match jump_distance(ops, table, pc) {
        None => Err(ErrorKind::UnknownLabel),
        Some(d) => if -MAX_DISPLACEMENT <= d <= MAX_DISPLACEMENT {
            Ok(d as i8)
        } else {
            Err(ErrorKind::DisplacementOverflow)
        },
    }
}

/// The service that a system call asks for.
pub open spec fn call_service(ops: Seq<Seq<char>>) -> Result<Syscall, ErrorKind> {
    if ops.len() == 0 {
        Err(ErrorKind::UnknownSyscall)
    } else {
        match Syscall::of_token(ops[0]) {
            Some(service) => Ok(service),
            None => Err(ErrorKind::UnknownSyscall),
        }
    }
}

/// The instruction that the tokens of a code line stand for, at program
/// counter `pc`: none for a line without tokens and for a label definition.
pub open spec fn instruction_of(toks: Seq<Seq<char>>, table: Seq<LabelView>, pc: int) -> Result<
    Option<Instruction>,
    ErrorKind,
> {
    if !is_instruction(toks) {
        Ok(None)
    } else {
        let ops = toks.skip(1);
        match Opcode::of_token(toks[0]) {
            None => Err(ErrorKind::UnknownOpcode),
            Some(op) => match op.format() {
                Format::Register => match register_fields(ops) {
                    Ok((first, second, imm)) => Ok(
                        Some(Instruction::Register { op, first, second, imm }),
                    ),
                    Err(e) => Err(e),
                },
                Format::Immediate => match immediate_fields(ops) {
                    Ok((reg, imm)) => Ok(Some(Instruction::Immediate { op, reg, imm })),
                    Err(e) => Err(e),
                },
                Format::Jump => match jump_offset(ops, table, pc) {
                    Ok(offset) => Ok(Some(Instruction::Jump { offset })),
                    Err(e) => Err(e),
                },
                Format::Call => match call_service(ops) {
                    Ok(service) => Ok(Some(Instruction::Call { service })),
                    Err(e) => Err(e),
                },
            },
        }
    }
}

/// The word that a code line is encoded to, if it stands for an
/// instruction.
pub open spec fn word_of(toks: Seq<Seq<char>>, table: Seq<LabelView>, pc: int) -> Result<
    Option<u8>,
    ErrorKind,
> {
    match instruction_of(toks, table, pc) {
        Ok(Some(i)) => Ok(Some(i.word())),
        Ok(None) => Ok(None),
        Err(e) => Err(e),
    }
}

/// What a code line is encoded to: the word of its tokens, or the error
/// that they give, with the number of the line.
pub open spec fn line_word(line: LineView, table: Seq<LabelView>, pc: int) -> Result<
    Option<u8>,
    CompileError,
> {
    match word_of(code_tokens_of(line.text), table, pc) {
        Ok(word) => Ok(word),
        Err(kind) => Err(CompileError::on_line(kind, line.number as int)),
    }
}

/// Every instruction that a line stands for is valid, so its word can be
/// decoded to the same instruction.
pub proof fn lemma_line_round_trip(toks: Seq<Seq<char>>, table: Seq<LabelView>, pc: int)
    ensures
        instruction_of(toks, table, pc) matches Ok(Some(i)) ==> i.valid() && Instruction::of_word(
            i.word(),
        ) == Some(i),
{
}

/// The opcode of an instruction token, in the three highest bits of the
/// word.
pub fn parse_op(word: &[char]) -> (r: Result<u8, ErrorKind>)
    ensures
        r == match Opcode::of_token(word@) {
            Some(op) => Ok::<u8, ErrorKind>((op.code() * 32) as u8),
            None => Err(ErrorKind::UnknownOpcode),
        },
{
    match Opcode::from_token(word) {
        Some(op) => {
            let bits: u8 = op.bits();
            assert(bits << 5 == bits * 32) by (bit_vector)
                requires
                    bits <= 7,
            ;
            Ok(bits << 5)
        },
        None => Err(ErrorKind::UnknownOpcode),
    }
}

/// The two bits of the register that a token names; `field` says which
/// operand the token is, for the error.
pub fn parse_reg(word: &[char], field: Field) -> (r: Result<u8, ErrorKind>)
    ensures
        r == match Register::of_token(word@) {
            Some(reg) => Ok::<u8, ErrorKind>(reg.code()),
            None => Err(ErrorKind::OperandParseError(field)),
        },
{
    match Register::from_token(word) {
        Some(reg) => Ok(reg.bits()),
        None => Err(ErrorKind::OperandParseError(field)),
    }
}

/// The immediate that a token holds, if it is an unsigned literal of at
/// most `max`.
pub fn parse_imm(word: &[char], max: u8) -> (r: Result<u8, ErrorKind>)
    ensures
        r == match unsigned_literal(word@) {
            Some(v) => if v <= max {
                Ok::<u8, ErrorKind>(v as u8)
            } else {
                Err(ErrorKind::OperandParseError(Field::Immediate))
            },
            None => Err(ErrorKind::OperandParseError(Field::Immediate)),
        },
{
    match read_unsigned(word, max) {
        Some(v) => if v <= max as u16 {
            Ok(v as u8)
        } else {
            Err(ErrorKind::OperandParseError(Field::Immediate))
        },
        None => Err(ErrorKind::OperandParseError(Field::Immediate)),
    }
}

/// The operand bits of a register instruction.
pub fn parse_r(operands: &[Vec<char>]) -> (r: Result<u8, ErrorKind>)
    ensures
        r == match register_fields(views(operands@)) {
            Ok((first, second, imm)) => Ok::<u8, ErrorKind>(register_operand(first, second, imm)),
            Err(e) => Err(e),
        },
{
    if operands.len() < 1 {
        return Err(ErrorKind::OperandParseError(Field::FirstRegister));
    }
    assert(views(operands@)[0] == operands@[0]@);
    let reg1: u8 = match parse_reg(operands[0].as_slice(), Field::FirstRegister) {
        Ok(bits) => bits,
        Err(e) => {
            return Err(e);
        },
    };
    if operands.len() < 2 {
        return Err(ErrorKind::OperandParseError(Field::SecondRegister));
    }
    assert(views(operands@)[1] == operands@[1]@);
    let reg2: u8 = match parse_reg(operands[1].as_slice(), Field::SecondRegister) {
        Ok(bits) => bits,
        Err(e) => {
            return Err(e);
        },
    };
    if operands.len() < 3 {
        return Err(ErrorKind::OperandParseError(Field::Immediate));
    }
    assert(views(operands@)[2] == operands@[2]@);
    let imm: u8 = match parse_imm(operands[2].as_slice(), 1) {
        Ok(bits) => bits,
        Err(e) => {
            return Err(e);
        },
    };
    assert((reg1 << 3) + (reg2 << 1) + imm == reg1 * 8 + reg2 * 2 + imm && (reg1 << 3) <= 24 && (
    reg2 << 1) <= 6) by (bit_vector)
        requires
            reg1 <= 3,
            reg2 <= 3,
            imm <= 1,
    ;
    Ok((reg1 << 3) + (reg2 << 1) + imm)
}

/// The operand bits of an immediate instruction.
pub fn parse_i(operands: &[Vec<char>]) -> (r: Result<u8, ErrorKind>)
    ensures
        r == match immediate_fields(views(operands@)) {
            Ok((reg, imm)) => Ok::<u8, ErrorKind>(immediate_operand(reg, imm)),
            Err(e) => Err(e),
        },
{
    if operands.len() < 1 {
        return Err(ErrorKind::OperandParseError(Field::FirstRegister));
    }
    assert(views(operands@)[0] == operands@[0]@);
    let reg1: u8 = match parse_reg(operands[0].as_slice(), Field::FirstRegister) {
        Ok(bits) => bits,
        Err(e) => {
            return Err(e);
        },
    };
    if operands.len() < 2 {
        return Err(ErrorKind::OperandParseError(Field::Immediate));
    }
    assert(views(operands@)[1] == operands@[1]@);
    let imm: u8 = match parse_imm(operands[1].as_slice(), 7) {
        Ok(bits) => bits,
        Err(e) => {
            return Err(e);
        },
    };
    assert((reg1 << 3) + imm == reg1 * 8 + imm && (reg1 << 3) <= 24) by (bit_vector)
        requires
            reg1 <= 3,
            imm <= 7,
    ;
    Ok((reg1 << 3) + imm)
}

/// The operand bits of a jump at program counter `pc`.
///
/// The operand is read as a signed literal; where it is none, it is looked
/// up among the labels, and the jump covers the distance from `pc` to the
/// label.
pub fn parse_jump(operands: &[Vec<char>], labels: &[Label], pc: usize) -> (r: Result<
    u8,
    ErrorKind,
>)
    ensures
        r == match jump_offset(views(operands@), label_views(labels@), pc as int) {
            Ok(offset) => Ok::<u8, ErrorKind>(jump_operand(offset as int)),
            Err(e) => Err(e),
        },
{
    if operands.len() < 1 {
        return Err(ErrorKind::UnknownLabel);
    }
    assert(views(operands@)[0] == operands@[0]@);
    let target = operands[0].as_slice();
    let max: usize = MAX_DISPLACEMENT as usize;
    let (back, distance): (bool, usize) = match read_signed(target, MAX_DISPLACEMENT) {
        Some(v) => if v < 0 {
            (true, (-v) as usize)
        } else {
            (false, v as usize)
        },
        None => match lookup(labels, target) {
            Some(place) => if place < pc {
                (true, pc - place)
            } else {
                (false, place - pc)
            },
            None => {
                return Err(ErrorKind::UnknownLabel);
            },
        },
    };
    if distance > max {
        return Err(ErrorKind::DisplacementOverflow);
    }
    let magnitude: u8 = distance as u8;
    if back {
        Ok(0b10000 + magnitude)
    } else {
        Ok(magnitude)
    }
}

/// The operand bits of a system call.
pub fn parse_call(operands: &[Vec<char>]) -> (r: Result<u8, ErrorKind>)
    ensures
        r == match call_service(views(operands@)) {
            Ok(service) => Ok::<u8, ErrorKind>(service.code()),
            Err(e) => Err(e),
        },
{
    if operands.len() < 1 {
        return Err(ErrorKind::UnknownSyscall);
    }
    assert(views(operands@)[0] == operands@[0]@);
    match Syscall::from_token(operands[0].as_slice()) {
        Some(service) => Ok(service.bits()),
        None => Err(ErrorKind::UnknownSyscall),
    }
}

/// Encodes the tokens of one code line, at program counter `pc`.
///
/// A line without tokens and a label definition give no word. Any other
/// line gives the word of the instruction that it stands for, or the error
/// that keeps it from standing for one.
pub fn parse_line(tokens: &[Vec<char>], labels: &[Label], pc: usize) -> (r: Result<
    Option<u8>,
    ErrorKind,
>)
    ensures
        r == word_of(views(tokens@), label_views(labels@), pc as int),
{
    if tokens.len() == 0 {
        return Ok(None);
    }
    assert(views(tokens@)[0] == tokens@[0]@);
    let word = tokens[0].as_slice();
    if is_label(word) {
        return Ok(None);
    }
    let op_code: u8 = match parse_op(word) {
        Ok(bits) => bits,
        Err(e) => {
            return Err(e);
        },
    };
    let operands = slice_subrange(tokens, 1, tokens.len());
    assert(views(operands@) == views(tokens@).skip(1));
    let operand: u8 = if op_code <= 64 {
        match parse_r(operands) {
            Ok(bits) => bits,
            Err(e) => {
                return Err(e);
            },
        }
    } else if op_code <= 160 {
        match parse_i(operands) {
            Ok(bits) => bits,
            Err(e) => {
                return Err(e);
            },
        }
    } else if op_code == 192 {
        match parse_jump(operands, labels, pc) {
            Ok(bits) => bits,
            Err(e) => {
                return Err(e);
            },
        }
    } else {
        match parse_call(operands) {
            Ok(bits) => bits,
            Err(e) => {
                return Err(e);
            },
        }
    };
    Ok(Some(op_code + operand))
}

/// Encodes one code line, at program counter `pc`.
///
/// The line is split into tokens, up to a trailing comment. A line without
/// tokens and a label definition give no word; an instruction gives its
/// word; anything else gives an error with the number of the line.
pub fn encode_line(line: &Line, labels: &[Label], pc: usize) -> (r: Result<
    Option<u8>,
    CompileError,
>)
    ensures
        r == line_word(line@, label_views(labels@), pc as int),
{
    let tokens = code_tokens(line.text.as_slice());
    match parse_line(tokens.as_slice(), labels, pc) {
        Ok(word) => Ok(word),
        Err(kind) => Err(CompileError::at(kind, line.number)),
    }
}

} // verus!
