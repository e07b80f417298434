use formasm::compiler::{assemble, compile};
use formasm::error::{push_decimal, CompileError, ErrorKind, Field};
use formasm::source::Line;

fn line(number: usize, text: &str) -> Line {
    Line { number, text: text.chars().collect() }
}

fn failure(source: &str) -> CompileError {
    compile(source.to_string()).unwrap_err()
}

#[test]
fn compiles_one_register_instruction() {
    assert_eq!(compile("💬\n💘 🍩 🍊 1\n".to_string()), Ok(vec![0x07]));
}

#[test]
fn compiles_one_instruction_of_each_format() {
    let source = "💬\n💔 👀 🍎 0\n🤔 🍊 🍊 1\n👆 🍩 7\n👇 🍎 2\n👈 🍩 5\n♿ 3\n♿ -3\n🤖 📢\n🤖 📜\n🤖 🔪\n";
    assert_eq!(
        compile(source.to_string()),
        Ok(vec![0x2C, 0x5F, 0x67, 0x92, 0xA5, 0xC3, 0xD3, 0xE0, 0xE1, 0xE2])
    );
}

#[test]
fn empty_code_section_gives_empty_program() {
    assert_eq!(compile("💬".to_string()), Ok(vec![]));
    assert_eq!(compile("💬\n\n   \n# nothing\n".to_string()), Ok(vec![]));
}

#[test]
fn one_word_per_instruction_line_in_source_order() {
    let source = "💬\nstart:\n👈 🍩 5\n# comment\n\nloop:\n👇 🍩 1\n♿ loop\n♿ end\nend:\n🤖 🔪\n";
    assert_eq!(compile(source.to_string()), Ok(vec![0xA5, 0x81, 0xD1, 0xC1, 0xE2]));
}

#[test]
fn trailing_comment_is_ignored() {
    assert_eq!(compile("💬\n👈 🍩 5 # load five\n".to_string()), Ok(vec![0xA5]));
    assert_eq!(compile("💬\n👈 🍩 5 #load five\n".to_string()), Ok(vec![0xA5]));
}

#[test]
fn carriage_returns_are_separators() {
    assert_eq!(compile("💬\r\n👈 🍩 5\r\n🤖 🔪\r\n".to_string()), Ok(vec![0xA5, 0xE2]));
}

#[test]
fn tokens_after_the_operands_are_ignored() {
    assert_eq!(compile("💬\n🤖 🔪 🍩 9\n".to_string()), Ok(vec![0xE2]));
}

#[test]
fn forward_jump_is_resolved() {
    let source = "💬\n♿ end\n🤖 📢\n🤖 📜\nend:\n🤖 🔪\n";
    assert_eq!(compile(source.to_string()), Ok(vec![0xC3, 0xE0, 0xE1, 0xE2]));
}

#[test]
fn backward_jump_is_resolved() {
    let source = "💬\ntop:\n🤖 📢\n🤖 📜\n♿ top\n";
    assert_eq!(compile(source.to_string()), Ok(vec![0xE0, 0xE1, 0xD2]));
}

#[test]
fn jump_to_the_label_before_itself_has_no_distance() {
    assert_eq!(compile("💬\nhere:\n♿ here\n".to_string()), Ok(vec![0xC0]));
}

#[test]
fn labels_take_no_program_counter() {
    let source = "💬\na:\nb:\n🤖 📢\nc:\n♿ a\n♿ c\n";
    assert_eq!(compile(source.to_string()), Ok(vec![0xE0, 0xD1, 0xD1]));
}

#[test]
fn label_at_the_end_stands_past_the_last_instruction() {
    assert_eq!(compile("💬\n♿ end\n🤖 🔪\nend:\n".to_string()), Ok(vec![0xC2, 0xE2]));
}

#[test]
fn displacement_of_plus_fifteen_is_encoded() {
    assert_eq!(compile("💬\n♿ 15\n".to_string()), Ok(vec![0b110_01111]));
    assert_eq!(compile("💬\n♿ +15\n".to_string()), Ok(vec![0b110_01111]));
}

#[test]
fn displacement_of_minus_fifteen_is_encoded() {
    assert_eq!(compile("💬\n♿ -15\n".to_string()), Ok(vec![0b110_11111]));
}

#[test]
fn displacement_of_sixteen_overflows() {
    assert_eq!(
        failure("💬\n♿ 16\n"),
        CompileError { kind: ErrorKind::DisplacementOverflow, line: Some(2) }
    );
    assert_eq!(
        failure("💬\n♿ -16\n"),
        CompileError { kind: ErrorKind::DisplacementOverflow, line: Some(2) }
    );
}

#[test]
fn huge_literal_overflows() {
    assert_eq!(
        failure("💬\n♿ 99999999999999999999999999\n"),
        CompileError { kind: ErrorKind::DisplacementOverflow, line: Some(2) }
    );
    assert_eq!(
        failure("💬\n♿ -99999999999999999999999999\n"),
        CompileError { kind: ErrorKind::DisplacementOverflow, line: Some(2) }
    );
}

#[test]
fn label_fifteen_instructions_ahead_is_reached() {
    let mut source = String::from("💬\n♿ far\n");
    for _ in 0..14 {
        source.push_str("🤖 📢\n");
    }
    source.push_str("far:\n🤖 🔪\n");
    let words = compile(source).unwrap();
    assert_eq!(words.len(), 16);
    assert_eq!(words[0], 0b110_01111);
    assert_eq!(words[15], 0xE2);
}

#[test]
fn label_sixteen_instructions_ahead_overflows() {
    let mut source = String::from("💬\n♿ far\n");
    for _ in 0..15 {
        source.push_str("🤖 📢\n");
    }
    source.push_str("far:\n🤖 🔪\n");
    assert_eq!(
        compile(source),
        Err(CompileError { kind: ErrorKind::DisplacementOverflow, line: Some(2) })
    );
}

#[test]
fn label_fifteen_instructions_back_is_reached() {
    let mut source = String::from("💬\nback:\n");
    for _ in 0..15 {
        source.push_str("🤖 📢\n");
    }
    source.push_str("♿ back\n");
    let words = compile(source).unwrap();
    assert_eq!(words.len(), 16);
    assert_eq!(words[15], 0b110_11111);
}

#[test]
fn label_sixteen_instructions_back_overflows() {
    let mut source = String::from("💬\nback:\n");
    for _ in 0..16 {
        source.push_str("🤖 📢\n");
    }
    source.push_str("♿ back\n");
    assert_eq!(
        compile(source),
        Err(CompileError { kind: ErrorKind::DisplacementOverflow, line: Some(19) })
    );
}

#[test]
fn register_immediate_of_one_bit() {
    assert_eq!(compile("💬\n💘 🍩 🍊 0\n".to_string()), Ok(vec![0x06]));
    assert_eq!(
        failure("💬\n💘 🍩 🍊 3\n"),
        CompileError { kind: ErrorKind::OperandParseError(Field::Immediate), line: Some(2) }
    );
    assert_eq!(
        failure("💬\n💘 🍩 🍊 2\n"),
        CompileError { kind: ErrorKind::OperandParseError(Field::Immediate), line: Some(2) }
    );
}

#[test]
fn immediate_of_three_bits() {
    assert_eq!(compile("💬\n👆 🍊 0\n".to_string()), Ok(vec![0b011_11_000]));
    assert_eq!(compile("💬\n👆 🍊 +7\n".to_string()), Ok(vec![0b011_11_111]));
    assert_eq!(compile("💬\n👆 🍊 007\n".to_string()), Ok(vec![0b011_11_111]));
    assert_eq!(
        failure("💬\n👆 🍊 8\n"),
        CompileError { kind: ErrorKind::OperandParseError(Field::Immediate), line: Some(2) }
    );
    assert_eq!(
        failure("💬\n👆 🍊 256\n"),
        CompileError { kind: ErrorKind::OperandParseError(Field::Immediate), line: Some(2) }
    );
    assert_eq!(
        failure("💬\n👆 🍊 -1\n"),
        CompileError { kind: ErrorKind::OperandParseError(Field::Immediate), line: Some(2) }
    );
    assert_eq!(
        failure("💬\n👆 🍊 x\n"),
        CompileError { kind: ErrorKind::OperandParseError(Field::Immediate), line: Some(2) }
    );
}

#[test]
fn unknown_opcode_on_line_three() {
    let error = failure("💬\n👈 🍩 5\n🚀 🍩 5\n🤖 🔪\n");
    assert_eq!(error, CompileError { kind: ErrorKind::UnknownOpcode, line: Some(3) });
    assert_eq!(error.message(), "UnknownOpcode at line 3");
}

#[test]
fn missing_code_marker() {
    let error = failure("👈 🍩 5\n");
    assert_eq!(error, CompileError { kind: ErrorKind::MissingCodeMarker, line: None });
    assert_eq!(error.message(), "MissingCodeMarker");
    assert_eq!(failure("").kind, ErrorKind::MissingCodeMarker);
}

#[test]
fn missing_macro_name() {
    assert_eq!(
        failure("\n🔓\n👈 🍩 _\n🔒\n💬\n"),
        CompileError { kind: ErrorKind::MissingMacroName, line: Some(2) }
    );
    assert_eq!(
        failure("🔓load\n👈 🍩 _\n🔒\n💬\n"),
        CompileError { kind: ErrorKind::MissingMacroName, line: Some(1) }
    );
}

#[test]
fn unterminated_macro_at_the_end_of_input() {
    assert_eq!(
        failure("🔓 load\n👈 🍩 _\n"),
        CompileError { kind: ErrorKind::UnterminatedMacro, line: Some(1) }
    );
}

#[test]
fn unterminated_macro_at_the_code_section() {
    assert_eq!(
        failure("# macros\n🔓 load\n👈 🍩 _\n💬\nload 5\n🔒\n"),
        CompileError { kind: ErrorKind::UnterminatedMacro, line: Some(2) }
    );
}

#[test]
fn macro_argument_missing() {
    assert_eq!(
        failure("🔓 load\n👈 🍩 _\n🔒\n💬\n🤖 📢\nload\n"),
        CompileError { kind: ErrorKind::MacroArgumentMissing, line: Some(6) }
    );
}

#[test]
fn duplicate_label() {
    assert_eq!(
        failure("💬\nloop:\n🤖 📢\nloop:\n🤖 🔪\n"),
        CompileError { kind: ErrorKind::DuplicateLabel, line: Some(4) }
    );
}

#[test]
fn unknown_label() {
    let error = failure("💬\n🤖 📢\n♿ nowhere\n");
    assert_eq!(error, CompileError { kind: ErrorKind::UnknownLabel, line: Some(3) });
    assert_eq!(error.message(), "UnknownLabel at line 3");
}

#[test]
fn jump_without_operand_names_no_label() {
    assert_eq!(
        failure("💬\n♿\n"),
        CompileError { kind: ErrorKind::UnknownLabel, line: Some(2) }
    );
}

#[test]
fn unknown_syscall() {
    assert_eq!(
        failure("💬\n🤖 🍩\n"),
        CompileError { kind: ErrorKind::UnknownSyscall, line: Some(2) }
    );
    assert_eq!(
        failure("💬\n🤖\n"),
        CompileError { kind: ErrorKind::UnknownSyscall, line: Some(2) }
    );
}

#[test]
fn operand_errors_name_the_first_bad_field() {
    assert_eq!(
        failure("💬\n💘 x y z\n"),
        CompileError { kind: ErrorKind::OperandParseError(Field::FirstRegister), line: Some(2) }
    );
    assert_eq!(
        failure("💬\n💘 🍩 y z\n"),
        CompileError { kind: ErrorKind::OperandParseError(Field::SecondRegister), line: Some(2) }
    );
    assert_eq!(
        failure("💬\n💘 🍩 🍊\n"),
        CompileError { kind: ErrorKind::OperandParseError(Field::Immediate), line: Some(2) }
    );
    assert_eq!(
        failure("💬\n💘\n"),
        CompileError { kind: ErrorKind::OperandParseError(Field::FirstRegister), line: Some(2) }
    );
    assert_eq!(
        failure("💬\n👈 5\n"),
        CompileError { kind: ErrorKind::OperandParseError(Field::FirstRegister), line: Some(2) }
    );
    assert_eq!(
        failure("💬\n👈 🍩\n"),
        CompileError { kind: ErrorKind::OperandParseError(Field::Immediate), line: Some(2) }
    );
}

#[test]
fn symbol_errors_come_before_encoding_errors() {
    assert_eq!(
        failure("💬\n🚀\na:\na:\n"),
        CompileError { kind: ErrorKind::DuplicateLabel, line: Some(4) }
    );
    assert_eq!(
        failure("💬\n🚀\n♿ nowhere\n"),
        CompileError { kind: ErrorKind::UnknownLabel, line: Some(3) }
    );
    assert_eq!(
        failure("💬\n♿ nowhere\na:\na:\n"),
        CompileError { kind: ErrorKind::DuplicateLabel, line: Some(4) }
    );
}

#[test]
fn first_encoding_error_is_reported() {
    assert_eq!(
        failure("💬\n🤖 📢\n🤖 x\n🚀\n"),
        CompileError { kind: ErrorKind::UnknownSyscall, line: Some(3) }
    );
}

#[test]
fn macro_is_expanded_before_encoding() {
    let source = "🔓 load\n👈 🍩 _\n🔒\n💬\nload 5\n🤖 🔪\n";
    assert_eq!(compile(source.to_string()), Ok(vec![0xA5, 0xE2]));
}

#[test]
fn macro_body_of_several_lines() {
    let source = "🔓 twice\n👆 🍩 _\n👆 👀 _\n🔒\n💬\ntwice 3\ntwice 4\n";
    assert_eq!(
        compile(source.to_string()),
        Ok(vec![0b011_00_011, 0b011_01_011, 0b011_00_100, 0b011_01_100])
    );
}

#[test]
fn error_in_a_macro_body_is_reported_on_the_invoking_line() {
    let source = "🔓 load\n👈 🍩 _\n🔒\n💬\n🤖 📢\n\nload 9\n";
    assert_eq!(
        compile(source.to_string()),
        Err(CompileError { kind: ErrorKind::OperandParseError(Field::Immediate), line: Some(7) })
    );
}

#[test]
fn labels_in_macro_bodies_count_as_labels() {
    let source = "🔓 spin\nself_:\n♿ self_\n🔒\n💬\n🤖 📢\nspin 1\n";
    assert_eq!(compile(source.to_string()), Ok(vec![0xE0, 0xC0]));
}

#[test]
fn lines_before_the_code_marker_are_passed_over() {
    let source = "some notes\n👈 🍩 9\n💬 code\n🤖 🔪\n";
    assert_eq!(compile(source.to_string()), Ok(vec![0xE2]));
}

#[test]
fn message_writes_numbers_of_several_digits() {
    let error = CompileError { kind: ErrorKind::DuplicateLabel, line: Some(1024) };
    assert_eq!(error.message(), "DuplicateLabel at line 1024");
    let error = CompileError { kind: ErrorKind::UnknownSyscall, line: Some(0) };
    assert_eq!(error.message(), "UnknownSyscall at line 0");
    let error = CompileError { kind: ErrorKind::MacroArgumentMissing, line: Some(10) };
    assert_eq!(error.message(), "MacroArgumentMissing at line 10");
}

#[test]
fn message_names_every_kind() {
    let kinds = [
        (ErrorKind::MissingCodeMarker, "MissingCodeMarker"),
        (ErrorKind::MissingMacroName, "MissingMacroName"),
        (ErrorKind::UnterminatedMacro, "UnterminatedMacro"),
        (ErrorKind::MacroArgumentMissing, "MacroArgumentMissing"),
        (ErrorKind::DuplicateLabel, "DuplicateLabel"),
        (ErrorKind::UnknownOpcode, "UnknownOpcode"),
        (ErrorKind::UnknownLabel, "UnknownLabel"),
        (ErrorKind::OperandParseError(Field::FirstRegister), "OperandParseError(FirstRegister)"),
        (ErrorKind::OperandParseError(Field::SecondRegister), "OperandParseError(SecondRegister)"),
        (ErrorKind::OperandParseError(Field::Immediate), "OperandParseError(Immediate)"),
        (ErrorKind::DisplacementOverflow, "DisplacementOverflow"),
        (ErrorKind::UnknownSyscall, "UnknownSyscall"),
    ];
    for (kind, name) in kinds {
        assert_eq!(kind.as_str(), name);
        let error = CompileError { kind, line: Some(7) };
        assert_eq!(error.message(), format!("{} at line 7", name));
        let error = CompileError { kind, line: None };
        assert_eq!(error.message(), name);
    }
}

#[test]
fn assemble_takes_expanded_lines() {
    let code = vec![line(4, "top:"), line(4, "👇 🍩 1"), line(9, "♿ top")];
    assert_eq!(assemble(&code), Ok(vec![0x81, 0xD1]));
    let code = vec![line(4, "top:"), line(4, "👇 🍩 9"), line(9, "♿ top")];
    assert_eq!(
        assemble(&code),
        Err(CompileError { kind: ErrorKind::OperandParseError(Field::Immediate), line: Some(4) })
    );
}

#[test]
fn numbers_are_written_in_base_ten() {
    for (n, text) in [(0, "0"), (7, "7"), (10, "10"), (99, "99"), (100, "100"), (90210, "90210")] {
        let mut out = String::from("n=");
        push_decimal(&mut out, n);
        assert_eq!(out, format!("n={}", text));
    }
    let mut out = String::new();
    push_decimal(&mut out, usize::MAX);
    assert_eq!(out, usize::MAX.to_string());
}
