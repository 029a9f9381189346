//! The emulated machine: its state, operand resolution, and one execution step.

use vstd::prelude::*;

verus! {

/// The size of memory in words.
pub const MEMORY_WORDS: usize = 0x10000;

/// The most cycles that one step adds.
pub const MAX_STEP_CYCLES: u64 = 5;

/// The state of the machine: eight registers (A, B, C, X, Y, Z, I, J), the
/// program counter, stack pointer and overflow register, 64K words of memory, a
/// cycle counter and a halt flag.
pub struct CpuState {
    pub regs: Vec<u16>,
    pub pc: u16,
    pub sp: u16,
    pub o: u16,
    pub mem: Vec<u16>,
    pub cycles: u64,
    pub stop: bool,
}

/// The state of the machine as mathematical values.
pub struct Machine {
    pub regs: Seq<u16>,
    pub pc: u16,
    pub sp: u16,
    pub o: u16,
    pub mem: Seq<u16>,
    pub cycles: nat,
    pub stop: bool,
}

impl View for CpuState {
    type V = Machine;

    open spec fn view(&self) -> Machine {
        Machine {
            regs: self.regs@,
            pc: self.pc,
            sp: self.sp,
            o: self.o,
            mem: self.mem@,
            cycles: self.cycles as nat,
            stop: self.stop,
        }
    }
}

impl Machine {
    /// Eight registers and the whole address space.
    pub open spec fn wf(self) -> bool {
        self.regs.len() == 8 && self.mem.len() == MEMORY_WORDS
    }
}

/// Where an operand reads from and writes to.
#[derive(Clone, Copy, Debug, PartialEq, Eq, Structural)]
pub enum Location {
    /// A value that cannot be written.
    Literal(u16),
    /// A register, by index.
    Reg(u16),
    /// A memory word, by address.
    Mem(u16),
    Sp,
    Pc,
    O,
}

/// A location that the machine has: a register index is below eight.
pub open spec fn location_ok(l: Location) -> bool {
    match l {
        Location::Reg(i) => i < 8,
        _ => true,
    }
}

/// What goes wrong while executing, without stopping the machine.
#[derive(Clone, Copy, Debug, PartialEq, Eq, Structural)]
pub enum EmuError {
    /// An instruction tried to write to a literal operand; nothing was written.
    WriteToLiteral,
    /// A non-basic instruction had a sub-opcode with no meaning; it did nothing.
    InvalidNonBasicSubOpcode,
}

/// A fresh machine: every register and memory word zero, running.
pub open spec fn initial_machine() -> Machine {
    Machine {
        regs: Seq::new(8, |i: int| 0u16),
        pc: 0,
        sp: 0,
        o: 0,
        mem: Seq::new(MEMORY_WORDS as nat, |i: int| 0u16),
        cycles: 0,
        stop: false,
    }
}

/// The word at the program counter, with the counter moved past it.
pub open spec fn fetch(m: Machine) -> (Machine, u16) {
    (Machine { pc: m.pc.wrapping_add(1), ..m }, m.mem[m.pc as int])
}

/// Resolves a six-bit operand field, taking the next word and a cycle where the
/// field asks for one, and moving the stack pointer for push and pop.
pub open spec fn resolve_field(m: Machine, key: u16) -> (Machine, Location) {
    if key < 0x08 {
        (m, Location::Reg(key))
    } else if key < 0x10 {
        (m, Location::Mem(m.regs[key - 0x08]))
    } else if key < 0x18 {
        let (f, w) = fetch(m);
        (Machine { cycles: f.cycles + 1, ..f }, Location::Mem(m.regs[key - 0x10].wrapping_add(w)))
    } else if key == 0x18 {
        (Machine { sp: m.sp.wrapping_add(1), ..m }, Location::Mem(m.sp))
    } else if key == 0x19 {
        (m, Location::Mem(m.sp))
    } else if key == 0x1A {
        (Machine { sp: m.sp.wrapping_sub(1), ..m }, Location::Mem(m.sp.wrapping_sub(1)))
    } else if key == 0x1B {
        (m, Location::Sp)
    } else if key == 0x1C {
        (m, Location::Pc)
    } else if key == 0x1D {
        (m, Location::O)
    } else if key == 0x1E {
        let (f, w) = fetch(m);
        (Machine { cycles: f.cycles + 1, ..f }, Location::Mem(w))
    } else if key == 0x1F {
        let (f, w) = fetch(m);
        (Machine { cycles: f.cycles + 1, ..f }, Location::Literal(w))
    } else {
        (m, Location::Literal((key - 0x20) as u16))
    }
}

/// The value at a location.
pub open spec fn read(m: Machine, l: Location) -> u16 {
    match l {
        Location::Literal(v) => v,
        Location::Reg(i) => m.regs[i as int],
        Location::Mem(a) => m.mem[a as int],
        Location::Sp => m.sp,
        Location::Pc => m.pc,
        Location::O => m.o,
    }
}

/// The machine after writing `v` to a location; a literal is left as it is.
pub open spec fn write(m: Machine, l: Location, v: u16) -> Machine {
    match l {
        Location::Literal(_) => m,
        Location::Reg(i) => Machine { regs: m.regs.update(i as int, v), ..m },
        Location::Mem(a) => Machine { mem: m.mem.update(a as int, v), ..m },
        Location::Sp => Machine { sp: v, ..m },
        Location::Pc => Machine { pc: v, ..m },
        Location::O => Machine { o: v, ..m },
    }
}

/// A new machine state: every register and memory word zero, running.
pub fn new_cpu_state() -> (r: CpuState)
    ensures
        r@ == initial_machine(),
{
    let mut regs: Vec<u16> = Vec::new();
    let mut k: usize = 0;
    while k < 8
        invariant
            k <= 8,
            regs@ == Seq::new(k as nat, |i: int| 0u16),
        decreases 8 - k,
    {
        regs.push(0);
        k = k + 1;
        assert(regs@ =~= Seq::new(k as nat, |i: int| 0u16));
    }
    let mut mem: Vec<u16> = Vec::new();
    k = 0;
    while k < MEMORY_WORDS
        invariant
            k <= MEMORY_WORDS,
            mem@ == Seq::new(k as nat, |i: int| 0u16),
        decreases MEMORY_WORDS - k,
    {
        mem.push(0);
        k = k + 1;
        assert(mem@ =~= Seq::new(k as nat, |i: int| 0u16));
    }
    CpuState { regs, pc: 0, sp: 0, o: 0, mem, cycles: 0, stop: false }
}

/// Reads the word at the program counter and moves the counter past it.
pub fn next_pc(cpu: &mut CpuState) -> (r: u16)
    requires
        old(cpu)@.wf(),
    ensures
        (final(cpu)@, r) == fetch(old(cpu)@),
{
    let val = cpu.mem[cpu.pc as usize];
    cpu.pc = cpu.pc.wrapping_add(1);
    val
}

/// Resolves a six-bit operand field to a location.
pub fn new_value(cpu: &mut CpuState, key: u16) -> (r: Location)
    requires
        old(cpu)@.wf(),
        key < 0x40,
        old(cpu).cycles < u64::MAX,
    ensures
        (final(cpu)@, r) == resolve_field(old(cpu)@, key),
        final(cpu)@.wf(),
        location_ok(r),
{
    if key < 0x08 {
        Location::Reg(key)
    } else if key < 0x10 {
        Location::Mem(cpu.regs[(key - 0x08) as usize])
    } else if key < 0x18 {
        let base = cpu.regs[(key - 0x10) as usize];
        let w = next_pc(cpu);
        cpu.cycles = cpu.cycles + 1;
        Location::Mem(base.wrapping_add(w))
    } else if key == 0x18 {
        let r = Location::Mem(cpu.sp);
        cpu.sp = cpu.sp.wrapping_add(1);
        r
    } else if key == 0x19 {
        Location::Mem(cpu.sp)
    } else if key == 0x1A {
        cpu.sp = cpu.sp.wrapping_sub(1);
        Location::Mem(cpu.sp)
    } else if key == 0x1B {
        Location::Sp
    } else if key == 0x1C {
        Location::Pc
    } else if key == 0x1D {
        Location::O
    } else if key == 0x1E {
        let w = next_pc(cpu);
        cpu.cycles = cpu.cycles + 1;
        Location::Mem(w)
    } else if key == 0x1F {
        let w = next_pc(cpu);
        cpu.cycles = cpu.cycles + 1;
        Location::Literal(w)
    } else {
        Location::Literal(key - 0x20)
    }
}

/// The value at a location.
pub fn get_value(cpu: &CpuState, v: Location) -> (r: u16)
    requires
        cpu@.wf(),
        location_ok(v),
    ensures
        r == read(cpu@, v),
{
    match v {
        Location::Literal(t) => t,
        Location::Reg(t) => cpu.regs[t as usize],
        Location::Mem(t) => cpu.mem[t as usize],
        Location::Sp => cpu.sp,
        Location::Pc => cpu.pc,
        Location::O => cpu.o,
    }
}

/// Writes `v` to a location. A literal cannot be written: the machine is left as
/// it is and `WriteToLiteral` is reported.
pub fn set_value(cpu: &mut CpuState, targ: Location, v: u16) -> (r: Option<EmuError>)
    requires
        old(cpu)@.wf(),
        location_ok(targ),
    ensures
        final(cpu)@ == write(old(cpu)@, targ, v),
        final(cpu)@.wf(),
        r == (if targ is Literal { Some(EmuError::WriteToLiteral) } else { None::<EmuError> }),
{
    match targ {
        Location::Literal(_) => {
            return Some(EmuError::WriteToLiteral);
        },
        Location::Reg(t) => {
            cpu.regs.set(t as usize, v);
        },
        Location::Mem(t) => {
            cpu.mem.set(t as usize, v);
        },
        Location::Sp => {
            cpu.sp = v;
        },
        Location::Pc => {
            cpu.pc = v;
        },
        Location::O => {
            cpu.o = v;
        },
    }
    None
}

/// The basic opcode: bits 0-3 of the instruction word (0 for the non-basic form).
pub open spec fn opcode_field(word: u16) -> u16 {
    word & 0xF
}

/// Operand field A: bits 4-9 of the instruction word.
pub open spec fn a_field(word: u16) -> u16 {
    (word >> 4u16) & 0x3F
}

/// Operand field B: bits 10-15 of the instruction word.
pub open spec fn b_field(word: u16) -> u16 {
    word >> 10u16
}

/// The 32-bit intermediate of a basic operation on `a` and `b`: sums, products and
/// shifts keep their high bits, differences wrap at 32 bits, and division or
/// remainder by zero gives zero.
pub open spec fn wide_result(op: u16, a: u16, b: u16) -> u32 {
    if op == 1 {
        b as u32
    } else if op == 2 {
        (a + b) as u32
    } else if op == 3 {
        if a >= b { (a - b) as u32 } else { (a - b + 0x1_0000_0000) as u32 }
    } else if op == 4 {
        (a * b) as u32
    } else if op == 5 {
        if b == 0 { 0 } else { (a / b) as u32 }
    } else if op == 6 {
        if b == 0 { 0 } else { (a % b) as u32 }
    } else if op == 7 {
        if b < 32 { (a as u32) << (b as u32) } else { 0 }
    } else if op == 8 {
        if b < 32 { (a as u32) >> (b as u32) } else { 0 }
    } else if op == 9 {
        (a & b) as u32
    } else if op == 10 {
        (a | b) as u32
    } else if op == 11 {
        (a ^ b) as u32
    } else {
        0
    }
}

/// Whether the condition of a conditional opcode holds.
pub open spec fn condition(op: u16, a: u16, b: u16) -> bool {
    if op == 12 {
        a == b
    } else if op == 13 {
        a != b
    } else if op == 14 {
        a > b
    } else {
        a & b != 0
    }
}

/// The base cycle cost of a basic opcode.
pub open spec fn base_cycles(op: u16) -> nat {
    if op == 1 || op == 9 || op == 10 || op == 11 {
        1
    } else if op == 4 || op == 5 || op == 6 {
        3
    } else {
        2
    }
}

/// Opcodes whose overflow register takes the high half of the intermediate.
pub open spec fn sets_overflow(op: u16) -> bool {
    op == 2 || op == 3 || op == 4 || op == 5 || op == 7 || op == 8
}

/// One step of the machine: fetch the instruction word, resolve operand A and
/// then B, and perform the instruction. Returns the new state and what went
/// wrong, if anything.
pub open spec fn execute(m: Machine) -> (Machine, Option<EmuError>) {
    let (m1, word) = fetch(m);
    let op = opcode_field(word);
    let (m2, la) = resolve_field(m1, a_field(word));
    let (m3, lb) = resolve_field(m2, b_field(word));
    let a = read(m3, la);
    let b = read(m3, lb);
    if op == 0 {
        let sub = a_field(word);
        if sub == 0 {
            (Machine { stop: true, ..m3 }, None)
        } else if sub == 1 {
            let sp = m3.sp.wrapping_sub(1);
            (
                Machine { sp, mem: m3.mem.update(sp as int, m3.pc), pc: b, cycles: m3.cycles + 2, ..m3 },
                None,
            )
        } else {
            (m3, Some(EmuError::InvalidNonBasicSubOpcode))
        }
    } else {
        let m4 = Machine { cycles: m3.cycles + base_cycles(op), ..m3 };
        let w = wide_result(op, a, b);
        if op >= 12 {
            if condition(op, a, b) {
                (m4, None)
            } else {
                (Machine { pc: m4.pc.wrapping_add(1), ..m4 }, None)
            }
        } else {
            let m5 = if sets_overflow(op) { Machine { o: (w >> 16u32) as u16, ..m4 } } else { m4 };
            (
                write(m5, la, (w & 0xFFFF) as u16),
                if la is Literal { Some(EmuError::WriteToLiteral) } else { None },
            )
        }
    }
}

/// A conditional instruction (`IFE`, `IFN`, `IFG`, `IFB`) on two registers
/// writes nothing and takes two cycles. When its condition holds the program
/// counter moves past the instruction word only; when it fails, past exactly one
/// more word, the next instruction's header, whose effect is not performed.
pub proof fn lemma_conditional_skip(m: Machine)
    requires
        m.wf(),
        opcode_field(m.mem[m.pc as int]) >= 12,
        a_field(m.mem[m.pc as int]) < 8,
        b_field(m.mem[m.pc as int]) < 8,
    ensures
        ({
            let word = m.mem[m.pc as int];
            let a = m.regs[a_field(word) as int];
            let b = m.regs[b_field(word) as int];
            let next = m.pc.wrapping_add(1);
            execute(m) == (
                Machine {
                    pc: if condition(opcode_field(word), a, b) { next } else { next.wrapping_add(1) },
                    cycles: m.cycles + 2,
                    ..m
                },
                None::<EmuError>,
            )
        }),
{
    let word = m.mem[m.pc as int];
    assert(opcode_field(word) < 16) by (bit_vector);
    assert(opcode_field(word) != 0);
}

/// `ADD` on two different registers leaves the sum modulo 0x10000 in the first and
/// the carry (0 or 1) in the overflow register, and takes two cycles.
pub proof fn lemma_add_overflow(m: Machine)
    requires
        m.wf(),
        opcode_field(m.mem[m.pc as int]) == 2,
        a_field(m.mem[m.pc as int]) < 8,
        b_field(m.mem[m.pc as int]) < 8,
    ensures
        ({
            let word = m.mem[m.pc as int];
            let a = m.regs[a_field(word) as int];
            let b = m.regs[b_field(word) as int];
            let sum = a as int + b as int;
            execute(m) == (
                Machine {
                    regs: m.regs.update(a_field(word) as int, (sum % 0x10000) as u16),
                    pc: m.pc.wrapping_add(1),
                    o: (sum / 0x10000) as u16,
                    cycles: m.cycles + 2,
                    ..m
                },
                None::<EmuError>,
            )
        }),
{
    let word = m.mem[m.pc as int];
    let a = m.regs[a_field(word) as int];
    let b = m.regs[b_field(word) as int];
    let w = wide_result(2, a, b);
    assert(w == (a + b) as u32);
    assert((w & 0xFFFF) as u16 == ((a as int + b as int) % 0x10000) as u16 && (w >> 16u32) as u16 == ((a as int + b as int) / 0x10000) as u16) by (bit_vector)
        requires w == (a + b) as u32;
}

/// The 32-bit intermediate of a basic operation.
fn alu(op: u16, a: u16, b: u16) -> (r: u32)
    ensures
        r == wide_result(op, a, b),
{
    let x = a as u32;
    let y = b as u32;
    if op == 1 {
        y
    } else if op == 2 {
        x + y
    } else if op == 3 {
        x.wrapping_sub(y)
    } else if op == 4 {
        assert(x * y <= 0xFFFF * 0xFFFF) by (nonlinear_arith)
            requires x <= 0xFFFF, y <= 0xFFFF;
        x * y
    } else if op == 5 {
        if y == 0 { 0 } else { x / y }
    } else if op == 6 {
        if y == 0 { 0 } else { x % y }
    } else if op == 7 {
        if y < 32 { x << y } else { 0 }
    } else if op == 8 {
        if y < 32 { x >> y } else { 0 }
    } else if op == 9 {
        x & y
    } else if op == 10 {
        x | y
    } else if op == 11 {
        x ^ y
    } else {
        0
    }
}

/// Executes one instruction: the word at the program counter, with its operands.
/// A non-basic instruction with sub-opcode 1 pushes the program counter and jumps
/// to operand B; sub-opcode 0 halts the machine. A conditional whose condition
/// fails skips one word. Returns what went wrong, which never stops the machine.
pub fn step(cpu: &mut CpuState) -> (r: Option<EmuError>)
    requires
        old(cpu)@.wf(),
        old(cpu).cycles <= u64::MAX - MAX_STEP_CYCLES,
    ensures
        final(cpu)@.wf(),
        (final(cpu)@, r) == execute(old(cpu)@),
{
    let word = next_pc(cpu);
    let op = word & 0xF;
    let fa = (word >> 4u16) & 0x3F;
    let fb = word >> 10u16;
    assert(fa < 0x40 && fb < 0x40 && op < 16) by (bit_vector)
        requires fa == (word >> 4u16) & 0x3F, fb == word >> 10u16, op == word & 0xF;
    let av = new_value(cpu, fa);
    let bv = new_value(cpu, fb);
    let a = get_value(cpu, av);
    let b = get_value(cpu, bv);
    if op == 0 {
        if fa == 0 {
            cpu.stop = true;
            None
        } else if fa == 1 {
            cpu.sp = cpu.sp.wrapping_sub(1);
            let pc = cpu.pc;
            cpu.mem.set(cpu.sp as usize, pc);
            cpu.pc = b;
            cpu.cycles = cpu.cycles + 2;
            None
        } else {
            Some(EmuError::InvalidNonBasicSubOpcode)
        }
    } else {
        let cost: u64 = if op == 1 || op == 9 || op == 10 || op == 11 {
            1
        } else if op == 4 || op == 5 || op == 6 {
            3
        } else {
            2
        };
        cpu.cycles = cpu.cycles + cost;
        let w = alu(op, a, b);
        if op >= 12 {
            let holds = if op == 12 {
                a == b
            } else if op == 13 {
                a != b
            } else if op == 14 {
                a > b
            } else {
                a & b != 0
            };
            if !holds {
                cpu.pc = cpu.pc.wrapping_add(1);
            }
            None
        } else {
            if op == 2 || op == 3 || op == 4 || op == 5 || op == 7 || op == 8 {
                cpu.o = (w >> 16u32) as u16;
            }
            set_value(cpu, av, (w & 0xFFFF) as u16)
        }
    }
}

} // verus!
