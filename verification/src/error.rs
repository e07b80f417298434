//! What can go wrong while assembling, and where.

use crate::text::{decimal_value, is_number};
use vstd::prelude::*;
use vstd::string::StringExecFns;

verus! {

/// The operand field of a register or immediate instruction that could not
/// be read.
#[derive(Clone, Copy, Debug, PartialEq, Eq)]
pub enum Field {
    FirstRegister,
    SecondRegister,
    Immediate,
}

/// The kinds of failure.
#[derive(Clone, Copy, Debug, PartialEq, Eq)]
pub enum ErrorKind {
    /// The input ends without a code-section marker.
    MissingCodeMarker,
    /// A macro-open marker is not followed by a name.
    MissingMacroName,
    /// A macro is still open where the code section begins or the input ends.
    UnterminatedMacro,
    /// A macro is invoked without an argument.
    MacroArgumentMissing,
    /// A label is defined a second time.
    DuplicateLabel,
    /// The leading symbol of an instruction is no opcode.
    UnknownOpcode,
    /// A jump names neither a literal nor a defined label.
    UnknownLabel,
    /// A register or immediate operand is missing, malformed or out of range.
    OperandParseError(Field),
    /// A jump reaches further than fifteen instructions.
    DisplacementOverflow,
    /// The operand of a system call is no known service.
    UnknownSyscall,
}

impl ErrorKind {
    /// The name of the kind, as it stands in messages.
    pub open spec fn name(self) -> Seq<char> {
        match self {
            ErrorKind::MissingCodeMarker => "MissingCodeMarker"@,
            ErrorKind::MissingMacroName => "MissingMacroName"@,
            ErrorKind::UnterminatedMacro => "UnterminatedMacro"@,
            ErrorKind::MacroArgumentMissing => "MacroArgumentMissing"@,
            ErrorKind::DuplicateLabel => "DuplicateLabel"@,
            ErrorKind::UnknownOpcode => "UnknownOpcode"@,
            ErrorKind::UnknownLabel => "UnknownLabel"@,
            ErrorKind::OperandParseError(Field::FirstRegister) => "OperandParseError(FirstRegister)"@,
            ErrorKind::OperandParseError(Field::SecondRegister) => "OperandParseError(SecondRegister)"@,
            ErrorKind::OperandParseError(Field::Immediate) => "OperandParseError(Immediate)"@,
            ErrorKind::DisplacementOverflow => "DisplacementOverflow"@,
            ErrorKind::UnknownSyscall => "UnknownSyscall"@,
        }
    }

    /// The name of the kind.
    pub fn as_str(&self) -> (s: &'static str)
        ensures
            s@ == self.name(),
    {
        match self {
            ErrorKind::MissingCodeMarker => "MissingCodeMarker",
            ErrorKind::MissingMacroName => "MissingMacroName",
            ErrorKind::UnterminatedMacro => "UnterminatedMacro",
            ErrorKind::MacroArgumentMissing => "MacroArgumentMissing",
            ErrorKind::DuplicateLabel => "DuplicateLabel",
            ErrorKind::UnknownOpcode => "UnknownOpcode",
            ErrorKind::UnknownLabel => "UnknownLabel",
            ErrorKind::OperandParseError(Field::FirstRegister) => "OperandParseError(FirstRegister)",
            ErrorKind::OperandParseError(Field::SecondRegister) => "OperandParseError(SecondRegister)",
            ErrorKind::OperandParseError(Field::Immediate) => "OperandParseError(Immediate)",
            ErrorKind::DisplacementOverflow => "DisplacementOverflow",
            ErrorKind::UnknownSyscall => "UnknownSyscall",
        }
    }
}

/// The character of a decimal digit.
pub open spec fn digit_char(d: nat) -> char {
    if d == 0 {
        '0'
    } else if d == 1 {
        '1'
    } else if d == 2 {
        '2'
    } else if d == 3 {
        '3'
    } else if d == 4 {
        '4'
    } else if d == 5 {
        '5'
    } else if d == 6 {
        '6'
    } else if d == 7 {
        '7'
    } else if d == 8 {
        '8'
    } else {
        '9'
    }
}

/// A number written in base ten, without leading zeros.
pub open spec fn decimal(n: nat) -> Seq<char>
    decreases n,
{
    if n < 10 {
        seq![digit_char(n)]
    } else {
        decimal(n / 10).push(digit_char(n % 10))
    }
}

/// What is written is what is read: the digits of a number make a decimal
/// number, and that number has the value that was written.
pub proof fn lemma_decimal_round_trip(n: nat)
    ensures
        is_number(decimal(n)),
        decimal_value(decimal(n)) == n,
    decreases n,
{
    reveal_with_fuel(decimal_value, 2);
    if n < 10 {
        assert(decimal(n).drop_last() == Seq::<char>::empty());
    } else {
        lemma_decimal_round_trip(n / 10);
        let head = decimal(n / 10);
        let all = decimal(n);
        assert(all.drop_last() == head);
        assert forall|i: int| 0 <= i < all.len() implies crate::text::is_digit(
            #[trigger] all[i],
        ) by {
            if i < head.len() {
                assert(all[i] == head[i]);
            }
        }
    }
}

/// The digit `d`, as a string of one character.
fn digit_str(d: usize) -> (s: &'static str)
    requires
        d < 10,
    ensures
        s@ == seq![digit_char(d as nat)],
{
    proof {
        reveal_strlit("0");
        reveal_strlit("1");
        reveal_strlit("2");
        reveal_strlit("3");
        reveal_strlit("4");
        reveal_strlit("5");
        reveal_strlit("6");
        reveal_strlit("7");
        reveal_strlit("8");
        reveal_strlit("9");
    }
    let s = if d == 0 {
        "0"
    } else if d == 1 {
        "1"
    } else if d == 2 {
        "2"
    } else if d == 3 {
        "3"
    } else if d == 4 {
        "4"
    } else if d == 5 {
        "5"
    } else if d == 6 {
        "6"
    } else if d == 7 {
        "7"
    } else if d == 8 {
        "8"
    } else {
        "9"
    };
    assert(s@ =~= seq![digit_char(d as nat)]);
    s
}

/// Appends `n`, written in base ten, to `out`.
pub fn push_decimal(out: &mut String, n: usize)
    ensures
        final(out)@ == old(out)@ + decimal(n as nat),
    decreases n,
{
    let ghost before = out@;
    if n >= 10 {
        push_decimal(out, n / 10);
    }
    out.append(digit_str(n % 10));
    assert(out@ == before + decimal(n as nat));
}

/// A failure, with the one-based number of the source line it was found on.
#[derive(Clone, Copy, Debug, PartialEq, Eq)]
pub struct CompileError {
    pub kind: ErrorKind,
    pub line: Option<usize>,
}

impl CompileError {
    /// The error of kind `kind` on the line with the number `number`.
    pub open spec fn on_line(kind: ErrorKind, number: int) -> CompileError {
        CompileError { kind, line: Some(number as usize) }
    }

    /// The error of kind `kind` on the line with the number `number`.
    pub fn at(kind: ErrorKind, number: usize) -> (e: CompileError)
        ensures
            e == Self::on_line(kind, number as int),
    {
        CompileError { kind, line: Some(number) }
    }

    /// The message of the error: the name of its kind and, where the error
    /// belongs to a line, the words ` at line ` and the number of the line.
    pub open spec fn text(self) -> Seq<char> {
        match self.line {
            Some(n) => self.kind.name() + " at line "@ + decimal(n as nat),
            None => self.kind.name(),
        }
    }

    /// The message of the error, for a reader.
    pub fn message(&self) -> (s: String)
        ensures
            s@ == self.text(),
    {
        let mut out = String::from_str(self.kind.as_str());
        match self.line {
            Some(n) => {
                out.append(" at line ");
                push_decimal(&mut out, n);
            },
            None => {},
        }
        out
    }
}

} // verus!
