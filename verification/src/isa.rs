//! The instruction set: mnemonic symbols, the four instruction formats and
//! the layout of an instruction word.
//!
//! A word holds the opcode in bits 7 to 5 and the operands in bits 4 to 0.
//!
//! | symbol | opcode | bits | format |
//! |---|---|---|---|
//! | 💘 | add | 000 | register |
//! | 💔 | subtract | 001 | register |
//! | 🤔 | branch if equal | 010 | register |
//! | 👆 | add immediate | 011 | immediate |
//! | 👇 | subtract immediate | 100 | immediate |
//! | 👈 | load immediate | 101 | immediate |
//! | ♿ | jump | 110 | jump |
//! | 🤖 | system call | 111 | call |
//!
//! The registers are 🍩 (00), 👀 (01), 🍎 (10) and 🍊 (11); the services are
//! 📢 (print, 00), 📜 (read, 01) and 🔪 (terminate, 10).

use vstd::prelude::*;

verus! {

/// How the five operand bits of a word are laid out.
#[derive(Clone, Copy, Debug, PartialEq, Eq)]
pub enum Format {
    /// Two registers of two bits each, then one immediate bit.
    Register,
    /// One register of two bits, then an immediate of three bits.
    Immediate,
    /// A sign bit, then a magnitude of four bits.
    Jump,
    /// Three unused bits, then a service of two bits.
    Call,
}

/// The eight operations of the machine.
#[derive(Clone, Copy, Debug, PartialEq, Eq)]
pub enum Opcode {
    Add,
    Sub,
    IfEq,
    AddI,
    SubI,
    Li,
    J,
    Syscall,
}

impl Opcode {
    /// The three bits that stand for the opcode.
    pub open spec fn code(self) -> u8 {
        match self {
            Opcode::Add => 0,
            Opcode::Sub => 1,
            Opcode::IfEq => 2,
            Opcode::AddI => 3,
            Opcode::SubI => 4,
            Opcode::Li => 5,
            Opcode::J => 6,
            Opcode::Syscall => 7,
        }
    }

    pub fn bits(self) -> (b: u8)
        ensures
            b == self.code(),
    {
        match self {
            Opcode::Add => 0,
            Opcode::Sub => 1,
            Opcode::IfEq => 2,
            Opcode::AddI => 3,
            Opcode::SubI => 4,
            Opcode::Li => 5,
            Opcode::J => 6,
            Opcode::Syscall => 7,
        }
    }

    /// The opcode with the given three bits.
    pub open spec fn with_code(code: u8) -> Opcode {
        if code == 0 {
            Opcode::Add
        } else if code == 1 {
            Opcode::Sub
        } else if code == 2 {
            Opcode::IfEq
        } else if code == 3 {
            Opcode::AddI
        } else if code == 4 {
            Opcode::SubI
        } else if code == 5 {
            Opcode::Li
        } else if code == 6 {
            Opcode::J
        } else {
            Opcode::Syscall
        }
    }

    pub fn from_bits(code: u8) -> (op: Opcode)
        ensures
            op == Self::with_code(code),
    {
        if code == 0 {
            Opcode::Add
        } else if code == 1 {
            Opcode::Sub
        } else if code == 2 {
            Opcode::IfEq
        } else if code == 3 {
            Opcode::AddI
        } else if code == 4 {
            Opcode::SubI
        } else if code == 5 {
            Opcode::Li
        } else if code == 6 {
            Opcode::J
        } else {
            Opcode::Syscall
        }
    }

    /// The opcode that a mnemonic symbol stands for.
    pub open spec fn of_symbol(c: char) -> Option<Opcode> {
        if c == '\u{1F498}' {
            Some(Opcode::Add)
        } else if c == '\u{1F494}' {
            Some(Opcode::Sub)
        } else if c == '\u{1F914}' {
            Some(Opcode::IfEq)
        } else if c == '\u{1F446}' {
            Some(Opcode::AddI)
        } else if c == '\u{1F447}' {
            Some(Opcode::SubI)
        } else if c == '\u{1F448}' {
            Some(Opcode::Li)
        } else if c == '\u{267F}' {
            Some(Opcode::J)
        } else if c == '\u{1F916}' {
            Some(Opcode::Syscall)
        } else {
            None
        }
    }

    pub fn from_symbol(c: char) -> (op: Option<Opcode>)
        ensures
            op == Self::of_symbol(c),
    {
        if c == '\u{1F498}' {
            Some(Opcode::Add)
        } else if c == '\u{1F494}' {
            Some(Opcode::Sub)
        } else if c == '\u{1F914}' {
            Some(Opcode::IfEq)
        } else if c == '\u{1F446}' {
            Some(Opcode::AddI)
        } else if c == '\u{1F447}' {
            Some(Opcode::SubI)
        } else if c == '\u{1F448}' {
            Some(Opcode::Li)
        } else if c == '\u{267F}' {
            Some(Opcode::J)
        } else if c == '\u{1F916}' {
            Some(Opcode::Syscall)
        } else {
            None
        }
    }

    /// The opcode that the leading symbol of a token stands for.
    pub open spec fn of_token(tok: Seq<char>) -> Option<Opcode> {
        if tok.len() > 0 {
            Self::of_symbol(tok[0])
        } else {
            None
        }
    }

    pub fn from_token(tok: &[char]) -> (op: Option<Opcode>)
        ensures
            op == Self::of_token(tok@),
    {
        if tok.len() > 0 {
            Self::from_symbol(tok[0])
        } else {
            None
        }
    }

    /// The layout of the operands that follow the opcode.
    pub open spec fn format(self) -> Format {
        match self {
            Opcode::Add | Opcode::Sub | Opcode::IfEq => Format::Register,
            Opcode::AddI | Opcode::SubI | Opcode::Li => Format::Immediate,
            Opcode::J => Format::Jump,
            Opcode::Syscall => Format::Call,
        }
    }

    pub fn layout(self) -> (f: Format)
        ensures
            f == self.format(),
    {
        match self {
            Opcode::Add | Opcode::Sub | Opcode::IfEq => Format::Register,
            Opcode::AddI | Opcode::SubI | Opcode::Li => Format::Immediate,
            Opcode::J => Format::Jump,
            Opcode::Syscall => Format::Call,
        }
    }
}

/// The four registers of the machine.
#[derive(Clone, Copy, Debug, PartialEq, Eq)]
pub enum Register {
    R1,
    R2,
    R3,
    R4,
}

impl Register {
    /// The two bits that stand for the register.
    pub open spec fn code(self) -> u8 {
        match self {
            Register::R1 => 0,
            Register::R2 => 1,
            Register::R3 => 2,
            Register::R4 => 3,
        }
    }

    pub fn bits(self) -> (b: u8)
        ensures
            b == self.code(),
    {
        match self {
            Register::R1 => 0,
            Register::R2 => 1,
            Register::R3 => 2,
            Register::R4 => 3,
        }
    }

    /// The register with the given two bits.
    pub open spec fn with_code(code: u8) -> Register {
        if code == 0 {
            Register::R1
        } else if code == 1 {
            Register::R2
        } else if code == 2 {
            Register::R3
        } else {
            Register::R4
        }
    }

    pub fn from_bits(code: u8) -> (r: Register)
        ensures
            r == Self::with_code(code),
    {
        if code == 0 {
            Register::R1
        } else if code == 1 {
            Register::R2
        } else if code == 2 {
            Register::R3
        } else {
            Register::R4
        }
    }

    /// The register that the leading symbol of a token stands for.
    pub open spec fn of_token(tok: Seq<char>) -> Option<Register> {
        if tok.len() > 0 {
            Self::of_symbol(tok[0])
        } else {
            None
        }
    }

    pub fn from_token(tok: &[char]) -> (r: Option<Register>)
        ensures
            r == Self::of_token(tok@),
    {
        if tok.len() > 0 {
            Self::from_symbol(tok[0])
        } else {
            None
        }
    }

    /// The register that a mnemonic symbol stands for.
    pub open spec fn of_symbol(c: char) -> Option<Register> {
        if c == '\u{1F369}' {
            Some(Register::R1)
        } else if c == '\u{1F440}' {
            Some(Register::R2)
        } else if c == '\u{1F34E}' {
            Some(Register::R3)
        } else if c == '\u{1F34A}' {
            Some(Register::R4)
        } else {
            None
        }
    }

    pub fn from_symbol(c: char) -> (r: Option<Register>)
        ensures
            r == Self::of_symbol(c),
    {
        if c == '\u{1F369}' {
            Some(Register::R1)
        } else if c == '\u{1F440}' {
            Some(Register::R2)
        } else if c == '\u{1F34E}' {
            Some(Register::R3)
        } else if c == '\u{1F34A}' {
            Some(Register::R4)
        } else {
            None
        }
    }
}

/// The services that a system call can ask for.
#[derive(Clone, Copy, Debug, PartialEq, Eq)]
pub enum Syscall {
    Print,
    Read,
    Terminate,
}

impl Syscall {
    /// The two bits that stand for the service.
    pub open spec fn code(self) -> u8 {
        match self {
            Syscall::Print => 0,
            Syscall::Read => 1,
            Syscall::Terminate => 2,
        }
    }

    pub fn bits(self) -> (b: u8)
        ensures
            b == self.code(),
    {
        match self {
            Syscall::Print => 0,
            Syscall::Read => 1,
            Syscall::Terminate => 2,
        }
    }

    /// The service with the given two bits, if there is one.
    pub open spec fn with_code(code: u8) -> Option<Syscall> {
        if code == 0 {
            Some(Syscall::Print)
        } else if code == 1 {
            Some(Syscall::Read)
        } else if code == 2 {
            Some(Syscall::Terminate)
        } else {
            None
        }
    }

    pub fn from_bits(code: u8) -> (s: Option<Syscall>)
        ensures
            s == Self::with_code(code),
    {
        if code == 0 {
            Some(Syscall::Print)
        } else if code == 1 {
            Some(Syscall::Read)
        } else if code == 2 {
            Some(Syscall::Terminate)
        } else {
            None
        }
    }

    /// The service that the leading symbol of a token stands for.
    pub open spec fn of_token(tok: Seq<char>) -> Option<Syscall> {
        if tok.len() > 0 {
            Self::of_symbol(tok[0])
        } else {
            None
        }
    }

    pub fn from_token(tok: &[char]) -> (s: Option<Syscall>)
        ensures
            s == Self::of_token(tok@),
    {
        if tok.len() > 0 {
            Self::from_symbol(tok[0])
        } else {
            None
        }
    }

    /// The service that a mnemonic symbol stands for.
    pub open spec fn of_symbol(c: char) -> Option<Syscall> {
        if c == '\u{1F4E2}' {
            Some(Syscall::Print)
        } else if c == '\u{1F4DC}' {
            Some(Syscall::Read)
        } else if c == '\u{1F52A}' {
            Some(Syscall::Terminate)
        } else {
            None
        }
    }

    pub fn from_symbol(c: char) -> (s: Option<Syscall>)
        ensures
            s == Self::of_symbol(c),
    {
        if c == '\u{1F4E2}' {
            Some(Syscall::Print)
        } else if c == '\u{1F4DC}' {
            Some(Syscall::Read)
        } else if c == '\u{1F52A}' {
            Some(Syscall::Terminate)
        } else {
            None
        }
    }
}

/// The largest distance that a jump can cover, in either direction.
pub const MAX_DISPLACEMENT: u8 = 15;

/// The operand bits of a register instruction.
pub open spec fn register_operand(first: Register, second: Register, imm: u8) -> u8 {
    (first.code() * 8 + second.code() * 2 + imm) as u8
}

/// The operand bits of an immediate instruction.
pub open spec fn immediate_operand(reg: Register, imm: u8) -> u8 {
    (reg.code() * 8 + imm) as u8
}

/// The operand bits of a jump, in sign and magnitude: bit 4 is set for a
/// jump backwards, bits 3 to 0 hold the distance.
pub open spec fn jump_operand(offset: int) -> u8 {
    if offset < 0 {
        (16 - offset) as u8
    } else {
        offset as u8
    }
}

/// An instruction: an opcode with the operands that its format asks for.
#[derive(Clone, Copy, Debug, PartialEq, Eq)]
pub enum Instruction {
    Register { op: Opcode, first: Register, second: Register, imm: u8 },
    Immediate { op: Opcode, reg: Register, imm: u8 },
    Jump { offset: i8 },
    Call { service: Syscall },
}

impl Instruction {
    /// The opcode fits the format, and each operand fits its field.
    pub open spec fn valid(self) -> bool {
        match self {
            Instruction::Register { op, first, second, imm } => op.format() == Format::Register
                && imm <= 1,
            Instruction::Immediate { op, reg, imm } => op.format() == Format::Immediate && imm
                <= 7,
            Instruction::Jump { offset } => -MAX_DISPLACEMENT <= offset <= MAX_DISPLACEMENT,
            Instruction::Call { service } => true,
        }
    }

    /// The opcode of the instruction.
    pub open spec fn opcode(self) -> Opcode {
        match self {
            Instruction::Register { op, first, second, imm } => op,
            Instruction::Immediate { op, reg, imm } => op,
            Instruction::Jump { offset } => Opcode::J,
            Instruction::Call { service } => Opcode::Syscall,
        }
    }

    /// The five operand bits.
    pub open spec fn operand(self) -> u8 {
        match self {
            Instruction::Register { op, first, second, imm } => register_operand(
                first,
                second,
                imm,
            ),
            Instruction::Immediate { op, reg, imm } => immediate_operand(reg, imm),
            Instruction::Jump { offset } => jump_operand(offset as int),
            Instruction::Call { service } => service.code(),
        }
    }

    /// The instruction word: the opcode above the operand bits.
    pub open spec fn word(self) -> u8 {
        (self.opcode().code() * 32 + self.operand()) as u8
    }

    /// The instruction that a word stands for. Words of the call format
    /// whose service bits name no service stand for none.
    pub open spec fn of_word(w: u8) -> Option<Instruction> {
        let op = Opcode::with_code(w / 32);
        let low = w % 32;
        match op.format() {
            Format::Register => Some(
                Instruction::Register {
                    op,
                    first: Register::with_code(low / 8),
                    second: Register::with_code(low / 2 % 4),
                    imm: low % 2,
                },
            ),
            Format::Immediate => Some(
                Instruction::Immediate { op, reg: Register::with_code(low / 8), imm: low % 8 },
            ),
            Format::Jump => Some(
                Instruction::Jump {
                    offset: if low >= 16 {
                        (16 - low) as i8
                    } else {
                        low as i8
                    },
                },
            ),
            Format::Call => match Syscall::with_code(low % 4) {
                Some(service) => Some(Instruction::Call { service }),
                None => None,
            },
        }
    }

    /// Whether the opcode fits the format, and each operand its field.
    pub fn is_valid(&self) -> (b: bool)
        ensures
            b == self.valid(),
    {
        match *self {
            Instruction::Register { op, first, second, imm } => match op.layout() {
                Format::Register => imm <= 1,
                _ => false,
            },
            Instruction::Immediate { op, reg, imm } => match op.layout() {
                Format::Immediate => imm <= 7,
                _ => false,
            },
            Instruction::Jump { offset } => -(MAX_DISPLACEMENT as i8) <= offset && offset
                <= MAX_DISPLACEMENT as i8,
            Instruction::Call { service } => true,
        }
    }

    /// The word of the instruction, if the instruction is valid.
    pub fn encode(&self) -> (r: Option<u8>)
        ensures
            r == if self.valid() {
                Some(self.word())
            } else {
                None
            },
    {
        if !self.is_valid() {
            return None;
        }
        match *self {
            Instruction::Register { op, first, second, imm } => {
                let a: u8 = op.bits();
                let b: u8 = first.bits();
                let c: u8 = second.bits();
                assert((a << 5 | b << 3 | c << 1 | imm) == a * 32 + b * 8 + c * 2 + imm) by (bit_vector)
                    requires
                        a <= 7,
                        b <= 3,
                        c <= 3,
                        imm <= 1,
                ;
                Some(a << 5 | b << 3 | c << 1 | imm)
            },
            Instruction::Immediate { op, reg, imm } => {
                let a: u8 = op.bits();
                let b: u8 = reg.bits();
                assert((a << 5 | b << 3 | imm) == a * 32 + b * 8 + imm) by (bit_vector)
                    requires
                        a <= 7,
                        b <= 3,
                        imm <= 7,
                ;
                Some(a << 5 | b << 3 | imm)
            },
            Instruction::Jump { offset } => {
                let a: u8 = Opcode::J.bits();
                let low: u8 = if offset < 0 {
                    (16 - offset) as u8
                } else {
                    offset as u8
                };
                assert((a << 5 | low) == a * 32 + low) by (bit_vector)
                    requires
                        a <= 7,
                        low <= 31,
                ;
                Some(a << 5 | low)
            },
            Instruction::Call { service } => {
                let a: u8 = Opcode::Syscall.bits();
                let low: u8 = service.bits();
                assert((a << 5 | low) == a * 32 + low) by (bit_vector)
                    requires
                        a <= 7,
                        low <= 31,
                ;
                Some(a << 5 | low)
            },
        }
    }

    /// Reads the fields of a word.
    pub fn decode(w: u8) -> (r: Option<Instruction>)
        ensures
            r == Self::of_word(w),
    {
        assert(w >> 5 == w / 32 && w & 31 == w % 32) by (bit_vector);
        let op = Opcode::from_bits(w >> 5);
        let low: u8 = w & 31;
        assert(low >> 3 == low / 8 && (low >> 1) & 3 == low / 2 % 4 && low & 1 == low % 2 && low & 7
            == low % 8 && low & 15 == low % 16 && low & 3 == low % 4) by (bit_vector);
        match op.layout() {
            Format::Register => Some(
                Instruction::Register {
                    op,
                    first: Register::from_bits(low >> 3),
                    second: Register::from_bits((low >> 1) & 3),
                    imm: low & 1,
                },
            ),
            Format::Immediate => Some(
                Instruction::Immediate { op, reg: Register::from_bits(low >> 3), imm: low & 7 },
            ),
            Format::Jump => {
                let distance: i8 = (low & 15) as i8;
                Some(
                    Instruction::Jump {
                        offset: if low >= 16 {
                            -distance
                        } else {
                            distance
                        },
                    },
                )
            },
            Format::Call => match Syscall::from_bits(low & 3) {
                Some(service) => Some(Instruction::Call { service }),
                None => None,
            },
        }
    }
}

/// Decoding the word of a valid instruction gives the instruction back,
/// whatever its format.
pub proof fn lemma_decode_encode(i: Instruction)
    requires
        i.valid(),
    ensures
        Instruction::of_word(i.word()) == Some(i),
{
}

/// The fields of a word can be read off its bits: the opcode from bits 7 to
/// 5, the operands from bits 4 to 0.
pub proof fn lemma_word_layout(i: Instruction)
    requires
        i.valid(),
    ensures
        i.word() >> 5 == i.opcode().code(),
        i.word() & 31 == i.operand(),
{
    let w = i.word();
    assert(w >> 5 == w / 32 && w & 31 == w % 32) by (bit_vector);
}

} // verus!
