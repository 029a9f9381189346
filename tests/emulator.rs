use dcpu16::assembler::{assemble, rom_text};
use dcpu16::console::{dump_header, dump_state, emu_message, error};
use dcpu16::cpu::{get_value, new_cpu_state, new_value, next_pc, set_value, step, CpuState, EmuError, Location};
use dcpu16::rom::{load_rom, parse_rom, RomError};

fn machine_with(program: &[&str]) -> CpuState {
    let src: Vec<String> = program.iter().map(|s| s.to_string()).collect();
    let words = assemble(&src).unwrap();
    let mut cpu = new_cpu_state();
    load_rom(&mut cpu, &rom_text(&words)).unwrap();
    cpu
}

#[test]
fn fresh_state_is_zero() {
    let cpu = new_cpu_state();
    assert_eq!(cpu.regs, vec![0; 8]);
    assert_eq!(cpu.mem.len(), 0x10000);
    assert!(cpu.mem.iter().all(|w| *w == 0));
    assert_eq!((cpu.pc, cpu.sp, cpu.o, cpu.cycles, cpu.stop), (0, 0, 0, 0, false));
}

#[test]
fn assemble_load_and_step() {
    let mut cpu = machine_with(&["SET A, 0x30"]);
    assert_eq!(step(&mut cpu), None);
    assert_eq!(cpu.regs[0], 0x30);
    assert_eq!(cpu.pc, 2);
    // one cycle for SET and one for the next-word literal
    assert_eq!(cpu.cycles, 2);
}

#[test]
fn add_sets_overflow() {
    let mut cpu = machine_with(&["ADD A, B"]);
    cpu.regs[0] = 0xFFFF;
    cpu.regs[1] = 0x0002;
    step(&mut cpu);
    assert_eq!(cpu.regs[0], 0x0001);
    assert_eq!(cpu.o, 0x0001);
    assert_eq!(cpu.cycles, 2);
}

#[test]
fn sub_borrows() {
    let mut cpu = machine_with(&["SUB A, B"]);
    cpu.regs[1] = 1;
    step(&mut cpu);
    assert_eq!(cpu.regs[0], 0xFFFF);
    assert_eq!(cpu.o, 0xFFFF);
}

#[test]
fn mul_keeps_high_half() {
    let mut cpu = machine_with(&["MUL A, 0x100"]);
    cpu.regs[0] = 0x100;
    step(&mut cpu);
    assert_eq!(cpu.regs[0], 0);
    assert_eq!(cpu.o, 1);
    assert_eq!(cpu.cycles, 4);
}

#[test]
fn division_by_zero_gives_zero() {
    let mut cpu = machine_with(&["DIV A, B", "MOD C, B"]);
    cpu.regs[0] = 7;
    cpu.regs[2] = 9;
    cpu.o = 5;
    step(&mut cpu);
    assert_eq!(cpu.regs[0], 0);
    assert_eq!(cpu.o, 0);
    cpu.o = 5;
    step(&mut cpu);
    assert_eq!(cpu.regs[2], 0);
    assert_eq!(cpu.o, 5);
    assert_eq!(cpu.cycles, 6);
}

#[test]
fn shifts() {
    let mut cpu = machine_with(&["SHL A, 1", "SHR B, 4", "SHL C, 40"]);
    cpu.regs[0] = 0x8001;
    cpu.regs[1] = 0x0010;
    cpu.regs[2] = 0x1234;
    step(&mut cpu);
    assert_eq!((cpu.regs[0], cpu.o), (0x0002, 0x0001));
    step(&mut cpu);
    assert_eq!((cpu.regs[1], cpu.o), (0x0001, 0x0000));
    step(&mut cpu);
    assert_eq!((cpu.regs[2], cpu.o), (0, 0));
}

#[test]
fn bitwise_ops_leave_overflow() {
    let mut cpu = machine_with(&["AND A, B", "BOR C, B", "XOR X, B"]);
    cpu.regs[0] = 0b1100;
    cpu.regs[1] = 0b1010;
    cpu.regs[2] = 0b0001;
    cpu.regs[3] = 0b1111;
    cpu.o = 9;
    step(&mut cpu);
    step(&mut cpu);
    step(&mut cpu);
    assert_eq!(cpu.regs[0], 0b1000);
    assert_eq!(cpu.regs[2], 0b1011);
    assert_eq!(cpu.regs[3], 0b0101);
    assert_eq!(cpu.o, 9);
    assert_eq!(cpu.cycles, 3);
}

#[test]
fn failed_condition_skips_next_word() {
    let mut cpu = machine_with(&["IFE A, B", "SET C, 5", "SET X, 6"]);
    cpu.regs[0] = 1;
    cpu.regs[1] = 2;
    step(&mut cpu);
    assert_eq!(cpu.pc, 2);
    assert_eq!(cpu.regs[2], 0);
    assert_eq!(cpu.cycles, 2);
    step(&mut cpu);
    assert_eq!(cpu.regs[3], 6);
}

#[test]
fn held_condition_runs_next_instruction() {
    let mut cpu = machine_with(&["IFN A, B", "SET C, 5"]);
    cpu.regs[0] = 1;
    cpu.regs[1] = 2;
    step(&mut cpu);
    assert_eq!(cpu.pc, 1);
    step(&mut cpu);
    assert_eq!(cpu.regs[2], 5);
}

#[test]
fn ifg_and_ifb() {
    let mut cpu = machine_with(&["IFG A, B", "IFB A, B"]);
    cpu.regs[0] = 3;
    cpu.regs[1] = 4;
    step(&mut cpu);
    assert_eq!(cpu.pc, 2);
    step(&mut cpu);
    assert_eq!(cpu.pc, 3);
}

#[test]
fn push_and_pop() {
    let mut cpu = machine_with(&["SET PUSH, 5", "SET A, POP", "SET B, PEEK"]);
    step(&mut cpu);
    assert_eq!(cpu.sp, 0xFFFF);
    assert_eq!(cpu.mem[0xFFFF], 5);
    step(&mut cpu);
    assert_eq!(cpu.regs[0], 5);
    assert_eq!(cpu.sp, 0);
    step(&mut cpu);
    assert_eq!(cpu.regs[1], cpu.mem[0]);
}

#[test]
fn jsr_pushes_return_address() {
    let mut cpu = machine_with(&["JSR sub", "SET A, 1", "sub: SET B, 2"]);
    step(&mut cpu);
    assert_eq!(cpu.sp, 0xFFFF);
    assert_eq!(cpu.mem[0xFFFF], 2);
    assert_eq!(cpu.pc, 3);
    assert_eq!(cpu.cycles, 3);
    step(&mut cpu);
    assert_eq!(cpu.regs[1], 2);
    assert_eq!(cpu.regs[0], 0);
}

#[test]
fn zero_word_halts() {
    let mut cpu = new_cpu_state();
    assert_eq!(step(&mut cpu), None);
    assert!(cpu.stop);
    assert_eq!(cpu.pc, 1);
}

#[test]
fn writing_a_literal_is_reported() {
    let mut cpu = machine_with(&["SET 0x05, A"]);
    cpu.regs[0] = 3;
    assert_eq!(step(&mut cpu), Some(EmuError::WriteToLiteral));
    assert_eq!(cpu.regs[0], 3);
    assert_eq!(cpu.pc, 1);
}

#[test]
fn unknown_non_basic_is_reported() {
    let mut cpu = new_cpu_state();
    cpu.mem[0] = 0x0020;
    assert_eq!(step(&mut cpu), Some(EmuError::InvalidNonBasicSubOpcode));
    assert!(!cpu.stop);
    assert_eq!(cpu.pc, 1);
}

#[test]
fn memory_and_register_operands() {
    let mut cpu = new_cpu_state();
    cpu.mem[0] = 0x1234;
    cpu.regs[2] = 0x10;
    let l = new_value(&mut cpu, 0x12);
    assert_eq!(l, Location::Mem(0x1244));
    assert_eq!(cpu.pc, 1);
    assert_eq!(cpu.cycles, 1);
    assert_eq!(set_value(&mut cpu, l, 7), None);
    assert_eq!(get_value(&cpu, l), 7);
    assert_eq!(new_value(&mut cpu, 0x3F), Location::Literal(0x1F));
    assert_eq!(set_value(&mut cpu, Location::Literal(1), 7), Some(EmuError::WriteToLiteral));
    assert_eq!(next_pc(&mut cpu), 0);
    assert_eq!(cpu.pc, 2);
}

#[test]
fn rom_with_two_words() {
    assert_eq!(parse_rom("{{7c01 0030}}"), Ok(vec![0x7c01, 0x0030]));
    let mut cpu = new_cpu_state();
    assert_eq!(load_rom(&mut cpu, "This sets A\n{{\n  7C01\n  0030\n}}\ntrailing text"), Ok(()));
    assert_eq!(&cpu.mem[0..3], &[0x7c01, 0x0030, 0]);
}

#[test]
fn rom_format_errors() {
    assert_eq!(parse_rom("{{7c01 003}}"), Err(RomError::DigitCount));
    assert_eq!(parse_rom("7c01 0030"), Err(RomError::MissingMarker));
    assert_eq!(parse_rom("{{7c01 0030"), Err(RomError::MissingMarker));
    assert_eq!(parse_rom("}} 7c01 {{"), Err(RomError::MarkersOutOfOrder));
    assert_eq!(parse_rom("{{}}"), Ok(vec![]));
    let mut cpu = new_cpu_state();
    cpu.mem[0] = 9;
    assert_eq!(load_rom(&mut cpu, "{{123}}"), Err(RomError::DigitCount));
    assert_eq!(cpu.mem[0], 9);
}

#[test]
fn rom_larger_than_memory() {
    let text = format!("{{{{{}}}}}", "0001".repeat(0x10001));
    let mut cpu = new_cpu_state();
    assert_eq!(load_rom(&mut cpu, &text), Err(RomError::TooLarge));
}

#[test]
fn status_display() {
    let mut cpu = new_cpu_state();
    cpu.regs[0] = 0x30;
    cpu.pc = 2;
    cpu.cycles = 12;
    assert_eq!(
        dump_state(&cpu),
        "0030  0000  0000  0000  0000  0000  0000  0000  0002  0000  0000   12"
    );
    let header = dump_header();
    assert!(header.starts_with(" A     B"));
    assert_eq!(header.lines().count(), 2);
    assert_eq!(error("invalid rom file"), "rust-dcpu16 emu error: invalid rom file");
    assert_eq!(emu_message(EmuError::WriteToLiteral), "set_val: attempt to set a literal");
}

#[test]
fn rom_text_reads_back() {
    let words: Vec<u16> = vec![0x0000, 0x7c01, 0x0030, 0xabcd, 0xffff, 0x1f00];
    assert_eq!(parse_rom(&rom_text(&words)), Ok(words.clone()));
    assert_eq!(parse_rom(&rom_text(&vec![])), Ok(vec![]));
    assert_eq!(RomError::DigitCount.message(), "invalid rom file, invalid number of bytes");
}
