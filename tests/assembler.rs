use dcpu16::assembler::{assemble, rom_text, LineError};
use dcpu16::error::AsmError;
use dcpu16::instruction::{compile_line, get_op, instruction_bytes, instruction_size, new_instruction, Instruction};
use dcpu16::operand::{make_val, remove_brackets, valid_label, value_size, Operand};

fn lines(src: &[&str]) -> Vec<String> {
    src.iter().map(|s| s.to_string()).collect()
}

fn label(name: &str) -> Operand {
    Operand::Label(name.chars().collect())
}

#[test]
fn keywords_and_registers() {
    assert_eq!(make_val("POP"), Ok(Operand::Immediate(0x18)));
    assert_eq!(make_val("PEEK"), Ok(Operand::Immediate(0x19)));
    assert_eq!(make_val("PUSH"), Ok(Operand::Immediate(0x1A)));
    assert_eq!(make_val("SP"), Ok(Operand::Immediate(0x1B)));
    assert_eq!(make_val("PC"), Ok(Operand::Immediate(0x1C)));
    assert_eq!(make_val("O"), Ok(Operand::Immediate(0x1D)));
    assert_eq!(make_val("A"), Ok(Operand::Immediate(0)));
    assert_eq!(make_val("J"), Ok(Operand::Immediate(7)));
    assert_eq!(make_val("[B]"), Ok(Operand::Immediate(0x09)));
}

#[test]
fn memory_operands() {
    assert_eq!(make_val("[A+0x10]"), Ok(Operand::Extended(0x10, 0x10)));
    assert_eq!(make_val("[0x10+J]"), Ok(Operand::Extended(0x17, 0x10)));
    assert_eq!(make_val("[A+B]"), Err(AsmError::ExpectedRegister));
    assert_eq!(make_val("[1+2]"), Err(AsmError::ExpectedRegister));
    assert_eq!(make_val("[A+1+2]"), Err(AsmError::ExpectedRegister));
    assert_eq!(make_val("[0x1000]"), Ok(Operand::Extended(0x1E, 0x1000)));
    assert_eq!(make_val("[5]"), Ok(Operand::Extended(0x1E, 5)));
    assert_eq!(make_val("[zz]"), Err(AsmError::InvalidNumber));
}

#[test]
fn literals_embed_up_to_0x1f() {
    assert_eq!(make_val("0x05"), Ok(Operand::Immediate(0x25)));
    assert_eq!(make_val("31"), Ok(Operand::Immediate(0x3F)));
    assert_eq!(make_val("0x20"), Ok(Operand::Extended(0x1F, 0x20)));
    assert_eq!(make_val("70000"), Err(AsmError::ConstantTooLarge));
}

#[test]
fn labels_and_label_syntax() {
    assert_eq!(make_val("loop"), Ok(label("loop")));
    assert_eq!(make_val("a_b-c$"), Ok(label("a_b-c$")));
    assert_eq!(make_val("1abc"), Err(AsmError::InvalidLabelSyntax));
    assert_eq!(make_val("a.b"), Err(AsmError::InvalidLabelSyntax));
    assert!(valid_label("start"));
    assert!(valid_label("x1"));
    assert!(!valid_label(""));
    assert!(!valid_label("9lives"));
    assert!(!valid_label("a:b"));
    assert_eq!(remove_brackets("[A+1]"), "A+1");
}

#[test]
fn opcode_table() {
    let names = [
        "SET", "ADD", "SUB", "MUL", "DIV", "MOD", "SHL", "SHR", "AND", "BOR", "XOR", "IFE", "IFN", "IFG", "IFB",
    ];
    for (i, n) in names.iter().enumerate() {
        assert_eq!(get_op(n), Ok(i as u16 + 1));
    }
    assert_eq!(get_op("JSR"), Err(AsmError::InvalidOpcode));
    assert_eq!(get_op("set"), Err(AsmError::InvalidOpcode));
}

#[test]
fn compiles_a_line() {
    let i = compile_line("SET A, 0x30").unwrap();
    assert_eq!(i, new_instruction(1, Operand::Immediate(0), Operand::Extended(0x1F, 0x30)));
    assert_eq!(instruction_size(&i), 2);
    assert_eq!(instruction_bytes(&i), vec![0x7c01, 0x0030]);
    let j = compile_line("  ADD [A + 2] ,  B").unwrap();
    assert_eq!(j, Instruction { o: 2, a: Operand::Extended(0x10, 2), b: Operand::Immediate(1) });
    assert_eq!(instruction_size(&j), 2);
    assert_eq!(value_size(&j.a), 1);
    assert_eq!(value_size(&j.b), 0);
}

#[test]
fn compiles_jsr() {
    let i = compile_line("JSR loop").unwrap();
    assert_eq!(i, Instruction { o: 0, a: Operand::Immediate(1), b: label("loop") });
    assert_eq!(instruction_size(&i), 2);
}

#[test]
fn line_errors() {
    assert_eq!(compile_line("SET A,"), Err(AsmError::EmptyArgument));
    assert_eq!(compile_line(""), Err(AsmError::EmptyArgument));
    assert_eq!(compile_line("SET A"), Err(AsmError::WrongArgumentCount));
    assert_eq!(compile_line("SET A, B, C"), Err(AsmError::WrongArgumentCount));
    assert_eq!(compile_line("JSR A, B"), Err(AsmError::WrongArgumentCount));
    assert_eq!(compile_line("FOO A, B"), Err(AsmError::InvalidOpcode));
    assert_eq!(compile_line("SET Q+, B"), Err(AsmError::ExpectedRegister));
}

#[test]
fn embedded_immediate_takes_one_word() {
    assert_eq!(assemble(&lines(&["SET A, 0x05"])), Ok(vec![0x9401]));
    assert_eq!(assemble(&lines(&["SET A, 0x20"])), Ok(vec![0x7c01, 0x0020]));
}

#[test]
fn labels_resolve_to_word_offsets() {
    let words = assemble(&lines(&["loop: SET A, 1", "SET PC, loop"])).unwrap();
    assert_eq!(words, vec![0x8401, 0x7dc1, 0x0000]);
    let forward = assemble(&lines(&["SET PC, end", "SET A, 0x30", "end: SET B, 1"])).unwrap();
    assert_eq!(forward, vec![0x7dc1, 0x0004, 0x7c01, 0x0030, 0x8411]);
    let small = assemble(&lines(&["start:", "SET PC, start"])).unwrap();
    assert_eq!(small, vec![0x7dc1, 0x0000]);
}

#[test]
fn later_label_definition_wins() {
    let words = assemble(&lines(&["x: SET A, 1", "x: SET B, 2", "SET PC, x"])).unwrap();
    assert_eq!(words, vec![0x8401, 0x8811, 0x7dc1, 0x0001]);
}

#[test]
fn comments_and_blank_lines_are_skipped() {
    let words = assemble(&lines(&["; a comment", "", "   ", "  SET A, 1 ; set A"])).unwrap();
    assert_eq!(words, vec![0x8401]);
}

#[test]
fn unknown_mnemonic_reports_its_line() {
    let r = assemble(&lines(&["SET A, 1", "FOO A, B", "SET B, 1"]));
    assert_eq!(r, Err(LineError { line: 2, error: AsmError::InvalidOpcode }));
    assert_eq!(r.unwrap_err().describe(), "Compile error on line 2: invalid opcode");
}

#[test]
fn undefined_label_reports_its_line() {
    let r = assemble(&lines(&["SET A, 1", "", "SET PC, nowhere"]));
    assert_eq!(r, Err(LineError { line: 3, error: AsmError::UndefinedLabel }));
}

#[test]
fn invalid_label_definition() {
    let r = assemble(&lines(&["1x: SET A, 1"]));
    assert_eq!(r, Err(LineError { line: 1, error: AsmError::InvalidLabelSyntax }));
}

#[test]
fn rom_text_block() {
    assert_eq!(rom_text(&vec![0x7c01, 0x0030]), "{{\n  7c01\n  0030\n}}\n");
    assert_eq!(rom_text(&vec![]), "{{\n}}\n");
}
