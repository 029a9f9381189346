//! The text of the emulator's status display and diagnostics.

use vstd::prelude::*;
use crate::cpu::{CpuState, EmuError, Machine};
use crate::numeral::{decimal, decimal_numeral, hex4, word_hex};
use crate::text::text_of;

verus! {

/// The column titles of the status display and the rule under them.
pub open spec fn header_text() -> Seq<char> {
    " A     B     C     X     Y     Z     I     J     PC    SP    O   cycles\n-----------------------------------------------------------------------"@
}

/// The column titles of the status display and the rule under them, as two lines.
pub fn dump_header() -> (r: String)
    ensures
        r@ == header_text(),
{
    String::from_str(
        " A     B     C     X     Y     Z     I     J     PC    SP    O   cycles\n-----------------------------------------------------------------------",
    )
}

/// Words as four hex digits each, two spaces apart.
pub open spec fn hex_columns(ws: Seq<u16>) -> Seq<char>
    decreases ws.len(),
{
    if ws.len() == 0 {
        Seq::empty()
    } else if ws.len() == 1 {
        hex4(ws[0])
    } else {
        hex_columns(ws.drop_last()) + seq![' ', ' '] + hex4(ws.last())
    }
}

/// One line of the status display: the registers, PC, SP and O in hex, then the
/// cycle count in decimal.
pub open spec fn status_text(m: Machine) -> Seq<char> {
    hex_columns(m.regs + seq![m.pc, m.sp, m.o]) + seq![' ', ' ', ' '] + decimal_numeral(m.cycles)
}

/// One line of the status display for the machine.
pub fn dump_state(cpu: &CpuState) -> (r: String)
    requires
        cpu@.wf(),
    ensures
        r@ == status_text(cpu@),
{
    let mut ws: Vec<u16> = Vec::new();
    let mut k: usize = 0;
    while k < 8
        invariant
            k <= 8,
            cpu@.wf(),
            ws@ == cpu.regs@.take(k as int),
        decreases 8 - k,
    {
        ws.push(cpu.regs[k]);
        k = k + 1;
        assert(ws@ =~= cpu.regs@.take(k as int));
    }
    ws.push(cpu.pc);
    ws.push(cpu.sp);
    ws.push(cpu.o);
    assert(ws@ =~= cpu.regs@ + seq![cpu.pc, cpu.sp, cpu.o]);
    let mut out: Vec<char> = Vec::new();
    let mut j: usize = 0;
    assert(ws@.take(0) =~= Seq::<u16>::empty());
    while j < ws.len()
        invariant
            j <= ws@.len(),
            out@ == hex_columns(ws@.take(j as int)),
        decreases ws@.len() - j,
    {
        assert(ws@.take(j + 1).drop_last() =~= ws@.take(j as int));
        if j > 0 {
            out.push(' ');
            out.push(' ');
        }
        let mut digits = word_hex(ws[j]);
        out.append(&mut digits);
        j = j + 1;
        assert(out@ =~= hex_columns(ws@.take(j as int)));
    }
    assert(ws@.take(j as int) =~= ws@);
    out.push(' ');
    out.push(' ');
    out.push(' ');
    let mut count = decimal(cpu.cycles);
    out.append(&mut count);
    text_of(&out)
}

/// A diagnostic line of the emulator: `rust-dcpu16 emu error: ` and the message.
pub fn error(out: &str) -> (r: String)
    ensures
        r@ == "rust-dcpu16 emu error: "@ + out@,
{
    String::from_str("rust-dcpu16 emu error: ").concat(out)
}

/// The human-readable description of an emulator diagnostic.
pub open spec fn emu_message_text(e: EmuError) -> Seq<char> {
    match e {
        EmuError::WriteToLiteral => "set_val: attempt to set a literal"@,
        EmuError::InvalidNonBasicSubOpcode => "invalid non-basic instruction"@,
    }
}

/// The human-readable description of an emulator diagnostic.
pub fn emu_message(e: EmuError) -> (r: &'static str)
    ensures
        r@ == emu_message_text(e),
{
    match e {
        EmuError::WriteToLiteral => "set_val: attempt to set a literal",
        EmuError::InvalidNonBasicSubOpcode => "invalid non-basic instruction",
    }
}

} // verus!
