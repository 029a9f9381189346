//! Instructions: building one from a source line, its size, and its encoding.

use vstd::prelude::*;
use crate::error::AsmError;
use crate::operand::{make_val_chars, operand_of, operand_size, value_size, Operand, OperandView};
use crate::text::{chars_of, skip_space, skip_word, spells, split, split_on, squeeze, squeezed, word_end, ws_end};

verus! {

/// An assembled instruction: a basic opcode (0 for the non-basic form, whose
/// sub-opcode then stands in `a`) and two operands.
#[derive(Debug, PartialEq, Eq)]
pub struct Instruction {
    pub o: u16,
    pub a: Operand,
    pub b: Operand,
}

/// An instruction with its operands viewed.
pub struct InstructionView {
    pub o: u16,
    pub a: OperandView,
    pub b: OperandView,
}

impl View for Instruction {
    type V = InstructionView;

    open spec fn view(&self) -> InstructionView {
        InstructionView { o: self.o, a: self.a@, b: self.b@ }
    }
}

/// The view of a build result.
pub open spec fn instruction_result(r: Result<Instruction, AsmError>) -> Result<InstructionView, AsmError> {
    match r {
        Ok(i) => Ok(i@),
        Err(e) => Err(e),
    }
}

/// How many words an instruction takes.
pub open spec fn size_of(i: InstructionView) -> int {
    1 + operand_size(i.a) + operand_size(i.b)
}

/// No operand of the instruction is a label reference.
pub open spec fn is_resolved(i: InstructionView) -> bool {
    !(i.a is Label) && !(i.b is Label)
}

/// The six-bit code of a resolved operand.
pub open spec fn operand_code(v: OperandView) -> u16 {
    match v {
        OperandView::Immediate(c) => c,
        OperandView::Extended(c, _) => c,
        OperandView::Label(_) => 0,
    }
}

/// The word that a resolved operand adds after the instruction word, if any.
pub open spec fn operand_extra(v: OperandView) -> Seq<u16> {
    match v {
        OperandView::Extended(_, w) => seq![w],
        _ => Seq::empty(),
    }
}

/// The instruction word: opcode in bits 0-3, operand A's code from bit 4, B's from bit 10.
pub open spec fn header_word(i: InstructionView) -> u16 {
    i.o | (operand_code(i.a) << 4u16) | (operand_code(i.b) << 10u16)
}

/// The words of a resolved instruction: the instruction word, then A's extra
/// word if any, then B's.
pub open spec fn encode(i: InstructionView) -> Seq<u16> {
    seq![header_word(i)] + operand_extra(i.a) + operand_extra(i.b)
}

/// Builds an instruction from its parts.
pub fn new_instruction(o: u16, a: Operand, b: Operand) -> (r: Instruction)
    ensures
        r.o == o,
        r.a == a,
        r.b == b,
{
    Instruction { o, a, b }
}

/// How many words an instruction takes: one, plus one for each extended operand.
pub fn instruction_size(i: &Instruction) -> (r: u16)
    ensures
        r == size_of(i@),
{
    value_size(&i.a) + value_size(&i.b) + 1
}

/// The words of a resolved instruction.
pub fn instruction_bytes(i: &Instruction) -> (r: Vec<u16>)
    requires
        is_resolved(i@),
    ensures
        r@ == encode(i@),
{
    let mut first = i.o;
    let mut extra: Vec<u16> = Vec::new();
    match &i.a {
        Operand::Immediate(c) => {
            first = first | (*c << 4u16);
        },
        Operand::Extended(c, w) => {
            first = first | (*c << 4u16);
            extra.push(*w);
        },
        Operand::Label(_) => {},
    }
    match &i.b {
        Operand::Immediate(c) => {
            first = first | (*c << 10u16);
        },
        Operand::Extended(c, w) => {
            first = first | (*c << 10u16);
            extra.push(*w);
        },
        Operand::Label(_) => {},
    }
    let mut r: Vec<u16> = Vec::new();
    r.push(first);
    r.append(&mut extra);
    assert(r@ =~= encode(i@));
    r
}

/// The opcode of a two-operand mnemonic.
pub open spec fn opcode_of(m: Seq<char>) -> Option<u16> {
    if m == "SET"@ {
        Some(1)
    } else if m == "ADD"@ {
        Some(2)
    } else if m == "SUB"@ {
        Some(3)
    } else if m == "MUL"@ {
        Some(4)
    } else if m == "DIV"@ {
        Some(5)
    } else if m == "MOD"@ {
        Some(6)
    } else if m == "SHL"@ {
        Some(7)
    } else if m == "SHR"@ {
        Some(8)
    } else if m == "AND"@ {
        Some(9)
    } else if m == "BOR"@ {
        Some(10)
    } else if m == "XOR"@ {
        Some(11)
    } else if m == "IFE"@ {
        Some(12)
    } else if m == "IFN"@ {
        Some(13)
    } else if m == "IFG"@ {
        Some(14)
    } else if m == "IFB"@ {
        Some(15)
    } else {
        None
    }
}

/// The opcode of a two-operand mnemonic.
pub fn get_op_chars(cmd: &Vec<char>) -> (r: Result<u16, AsmError>)
    ensures
        r == (match opcode_of(cmd@) {
            Some(o) => Ok(o),
            None => Err(AsmError::InvalidOpcode),
        }),
{
    if spells(cmd, "SET") {
        Ok(1)
    } else if spells(cmd, "ADD") {
        Ok(2)
    } else if spells(cmd, "SUB") {
        Ok(3)
    } else if spells(cmd, "MUL") {
        Ok(4)
    } else if spells(cmd, "DIV") {
        Ok(5)
    } else if spells(cmd, "MOD") {
        Ok(6)
    } else if spells(cmd, "SHL") {
        Ok(7)
    } else if spells(cmd, "SHR") {
        Ok(8)
    } else if spells(cmd, "AND") {
        Ok(9)
    } else if spells(cmd, "BOR") {
        Ok(10)
    } else if spells(cmd, "XOR") {
        Ok(11)
    } else if spells(cmd, "IFE") {
        Ok(12)
    } else if spells(cmd, "IFN") {
        Ok(13)
    } else if spells(cmd, "IFG") {
        Ok(14)
    } else if spells(cmd, "IFB") {
        Ok(15)
    } else {
        Err(AsmError::InvalidOpcode)
    }
}

/// The opcode of a two-operand mnemonic: `SET` is 1, through `IFB`, 15.
pub fn get_op(cmd: &str) -> (r: Result<u16, AsmError>)
    ensures
        r == (match opcode_of(cmd@) {
            Some(o) => Ok(o),
            None => Err(AsmError::InvalidOpcode),
        }),
{
    get_op_chars(&chars_of(cmd))
}

/// The first whitespace-separated word of a line.
pub open spec fn mnemonic(line: Seq<char>) -> Seq<char> {
    line.subrange(ws_end(line, 0), word_end(line, ws_end(line, 0)))
}

/// The arguments of a line: the words after the first, joined, split at commas.
pub open spec fn arguments(line: Seq<char>) -> Seq<Seq<char>> {
    split_on(squeezed(line, word_end(line, ws_end(line, 0))), ',')
}

/// What a line of source (without label or comment) assembles to.
pub open spec fn instruction_of(line: Seq<char>) -> Result<InstructionView, AsmError> {
    let args = arguments(line);
    if exists|k: int| 0 <= k < args.len() && (#[trigger] args[k]).len() == 0 {
        Err(AsmError::EmptyArgument)
    } else if mnemonic(line) == "JSR"@ {
        if args.len() != 1 {
            Err(AsmError::WrongArgumentCount)
        } else {
            match operand_of(args[0]) {
                Ok(b) => Ok(InstructionView { o: 0, a: OperandView::Immediate(1), b }),
                Err(e) => Err(e),
            }
        }
    } else if args.len() != 2 {
        Err(AsmError::WrongArgumentCount)
    } else if opcode_of(mnemonic(line)) is None {
        Err(AsmError::InvalidOpcode)
    } else {
        match (operand_of(args[0]), operand_of(args[1])) {
            (Ok(a), Ok(b)) => Ok(InstructionView { o: opcode_of(mnemonic(line))->0, a, b }),
            (Err(e), _) => Err(e),
            (Ok(_), Err(e)) => Err(e),
        }
    }
}

/// Builds the instruction that a line of source stands for.
pub fn compile_line_chars(line: &Vec<char>) -> (r: Result<Instruction, AsmError>)
    ensures
        instruction_result(r) == instruction_of(line@),
{
    let start = skip_space(line, 0);
    let end = skip_word(line, start);
    let cmd = crate::text::slice_of(line, start, end);
    let args = split(&squeeze(line, end), ',');
    let ghost spec_args = arguments(line@);
    let mut k: usize = 0;
    while k < args.len()
        invariant
            k <= args@.len() == spec_args.len(),
            spec_args == arguments(line@),
            forall|j: int| 0 <= j < args@.len() ==> #[trigger] args@[j]@ == spec_args[j],
            forall|j: int| 0 <= j < k ==> (#[trigger] spec_args[j]).len() != 0,
        decreases args@.len() - k,
    {
        if args[k].len() == 0 {
            assert(spec_args[k as int].len() == 0);
            assert(exists|j: int| 0 <= j < spec_args.len() && (#[trigger] spec_args[j]).len() == 0);
            return Err(AsmError::EmptyArgument);
        }
        k = k + 1;
    }
    assert(!exists|j: int| 0 <= j < spec_args.len() && (#[trigger] spec_args[j]).len() == 0);
    if spells(&cmd, "JSR") {
        if args.len() != 1 {
            return Err(AsmError::WrongArgumentCount);
        }
        return match make_val_chars(&args[0]) {
            Ok(b) => Ok(new_instruction(0, Operand::Immediate(1), b)),
            Err(e) => Err(e),
        };
    }
    if args.len() != 2 {
        return Err(AsmError::WrongArgumentCount);
    }
    let op = match get_op_chars(&cmd) {
        Ok(o) => o,
        Err(e) => return Err(e),
    };
    let a = match make_val_chars(&args[0]) {
        Ok(v) => v,
        Err(e) => return Err(e),
    };
    let b = match make_val_chars(&args[1]) {
        Ok(v) => v,
        Err(e) => return Err(e),
    };
    Ok(new_instruction(op, a, b))
}

/// Builds the instruction that a line of source (without label or comment)
/// stands for: the first word is the mnemonic, the rest are joined and split at
/// commas into arguments. `JSR` takes one argument and gives a non-basic
/// instruction with sub-opcode 1; every other mnemonic takes two.
pub fn compile_line(line: &str) -> (r: Result<Instruction, AsmError>)
    ensures
        instruction_result(r) == instruction_of(line@),
{
    compile_line_chars(&chars_of(line))
}

} // verus!
