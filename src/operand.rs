//! Operands of assembler instructions and how a source argument is classified.

use vstd::prelude::*;
use crate::error::AsmError;
use crate::numeral::{
    decimal_numeral, digit_value, digits_of, plain_digit, hex_numeral, lemma_digits_of, lemma_numeral_round_trip,
    numeral, parse_num_chars, parse_reg, reg_index,
};
use crate::text::{chars_of, find_char, split, split_on, spells};

verus! {

/// An instruction argument as the assembler holds it.
#[derive(Debug, PartialEq, Eq)]
pub enum Operand {
    /// A six-bit operand code that needs no extra word.
    Immediate(u16),
    /// An operand code and the word that follows the instruction word.
    Extended(u16, u16),
    /// A reference to a label, replaced by an address before encoding.
    Label(Vec<char>),
}

/// An operand with the label name as a sequence of characters.
pub enum OperandView {
    Immediate(u16),
    Extended(u16, u16),
    Label(Seq<char>),
}

impl View for Operand {
    type V = OperandView;

    open spec fn view(&self) -> OperandView {
        match self {
            Operand::Immediate(c) => OperandView::Immediate(*c),
            Operand::Extended(c, w) => OperandView::Extended(*c, *w),
            Operand::Label(n) => OperandView::Label(n@),
        }
    }
}

/// The view of a classification result.
pub open spec fn operand_result(r: Result<Operand, AsmError>) -> Result<OperandView, AsmError> {
    match r {
        Ok(o) => Ok(o@),
        Err(e) => Err(e),
    }
}

/// How many words an operand adds after the instruction word.
pub open spec fn operand_size(v: OperandView) -> u16 {
    match v {
        OperandView::Immediate(_) => 0,
        OperandView::Extended(_, _) => 1,
        OperandView::Label(_) => 1,
    }
}

/// How many words an operand adds after the instruction word.
pub fn value_size(v: &Operand) -> (r: u16)
    ensures
        r == operand_size(v@),
{
    match v {
        Operand::Immediate(_) => 0,
        Operand::Extended(_, _) => 1,
        Operand::Label(_) => 1,
    }
}

/// What `char::is_alphanumeric` answers for a character.
pub uninterp spec fn alphanumeric(c: char) -> bool;

/// Relies on `char::is_alphanumeric`: the answer depends on the character alone.
#[verifier::external_body]
fn is_alnum(c: char) -> (r: bool)
    ensures
        r == alphanumeric(c),
{
    c.is_alphanumeric()
}

/// A character that may stand in a label name.
pub open spec fn label_char(c: char) -> bool {
    alphanumeric(c) || c == '_' || c == '-' || c == '$'
}

/// A well-formed label name: not empty, not starting with a digit, and made of
/// alphanumerics, `_`, `-` and `$`.
pub open spec fn is_label(s: Seq<char>) -> bool {
    &&& s.len() > 0
    &&& !('0' <= s[0] && s[0] <= '9')
    &&& forall|i: int| 0 <= i < s.len() ==> label_char(#[trigger] s[i])
}

/// The characters of `s` from position `i` on that are not brackets.
pub open spec fn unbracketed(s: Seq<char>, i: int) -> Seq<char>
    decreases s.len() - i,
{
    if i < 0 || i >= s.len() {
        Seq::empty()
    } else if s[i] == '[' || s[i] == ']' {
        unbracketed(s, i + 1)
    } else {
        seq![s[i]] + unbracketed(s, i + 1)
    }
}

/// The code of a keyword operand.
pub open spec fn keyword_code(t: Seq<char>) -> Option<u16> {
    if t == "POP"@ {
        Some(0x18)
    } else if t == "PEEK"@ {
        Some(0x19)
    } else if t == "PUSH"@ {
        Some(0x1A)
    } else if t == "SP"@ {
        Some(0x1B)
    } else if t == "PC"@ {
        Some(0x1C)
    } else if t == "O"@ {
        Some(0x1D)
    } else {
        None
    }
}

/// A one-character register name.
pub open spec fn single_reg(t: Seq<char>) -> Option<u16> {
    if t.len() == 1 {
        reg_index(t[0])
    } else {
        None
    }
}

/// `[register + literal]` or `[literal + register]`, given the two sides of the `+`.
pub open spec fn offset_operand(left: Seq<char>, right: Seq<char>) -> Result<OperandView, AsmError> {
    if single_reg(left) is Some && numeral(right) is Ok {
        Ok(OperandView::Extended((single_reg(left)->0 + 0x10) as u16, numeral(right)->Ok_0))
    } else if single_reg(right) is Some && numeral(left) is Ok {
        Ok(OperandView::Extended((single_reg(right)->0 + 0x10) as u16, numeral(left)->Ok_0))
    } else {
        Err(AsmError::ExpectedRegister)
    }
}

/// What an argument token stands for, by the first rule that applies: a keyword,
/// a register, `[register]`, a register plus offset, `[literal]`, a literal, or a
/// label reference.
pub open spec fn operand_of(t: Seq<char>) -> Result<OperandView, AsmError> {
    if keyword_code(t) is Some {
        Ok(OperandView::Immediate(keyword_code(t)->0))
    } else if single_reg(t) is Some {
        Ok(OperandView::Immediate(single_reg(t)->0))
    } else if t.len() == 3 && t[0] == '[' && t[2] == ']' && reg_index(t[1]) is Some {
        Ok(OperandView::Immediate((reg_index(t[1])->0 + 0x08) as u16))
    } else if t.contains('+') {
        let parts = split_on(unbracketed(t, 0), '+');
        if parts.len() == 2 {
            offset_operand(parts[0], parts[1])
        } else {
            Err(AsmError::ExpectedRegister)
        }
    } else if t.contains('[') {
        match numeral(unbracketed(t, 0)) {
            Ok(n) => Ok(OperandView::Extended(0x1E, n)),
            Err(e) => Err(e),
        }
    } else {
        match numeral(t) {
            Ok(n) => if n <= 0x1F {
                Ok(OperandView::Immediate((0x20 + n) as u16))
            } else {
                Ok(OperandView::Extended(0x1F, n))
            },
            Err(AsmError::ConstantTooLarge) => Err(AsmError::ConstantTooLarge),
            Err(_) => if is_label(t) {
                Ok(OperandView::Label(t))
            } else {
                Err(AsmError::InvalidLabelSyntax)
            },
        }
    }
}

proof fn lemma_digits_are_plain(t: Seq<char>)
    requires
        forall|i: int| 0 <= i < t.len() ==> plain_digit(#[trigger] t[i]),
    ensures
        !t.contains('+'),
        !t.contains('['),
        forall|i: int| 0 <= i < t.len() ==> reg_index(#[trigger] t[i]) is None,
{
    assert forall|i: int| 0 <= i < t.len() implies t[i] != '+' && t[i] != '[' && reg_index(#[trigger] t[i]) is None by {
        assert(plain_digit(t[i]));
    }
}

proof fn lemma_numeral_operand(t: Seq<char>, n: nat)
    requires
        n <= 0xFFFF,
        t.len() >= 1,
        '0' <= t[0] <= '9',
        !t.contains('+'),
        !t.contains('['),
        forall|i: int| 0 <= i < t.len() ==> reg_index(#[trigger] t[i]) is None,
        numeral(t) == Ok::<u16, AsmError>(n as u16),
    ensures
        operand_of(t) == (if n <= 0x1F {
            Ok::<OperandView, AsmError>(OperandView::Immediate((0x20 + n) as u16))
        } else {
            Ok(OperandView::Extended(0x1F, n as u16))
        }),
{
    reveal_strlit("POP");
    reveal_strlit("PEEK");
    reveal_strlit("PUSH");
    reveal_strlit("SP");
    reveal_strlit("PC");
    reveal_strlit("O");
    assert(t != "POP"@ && t != "PEEK"@ && t != "PUSH"@ && t != "SP"@ && t != "PC"@ && t != "O"@) by {
        assert("POP"@[0] == 'P' && "PEEK"@[0] == 'P' && "PUSH"@[0] == 'P');
        assert("SP"@[0] == 'S' && "PC"@[0] == 'P' && "O"@[0] == 'O');
    }
    assert(reg_index(t[0]) is None);
}

/// A numeral of at most 0x1F, hexadecimal or decimal, is an embedded literal and
/// adds no word to its instruction; a larger one up to 0xFFFF is a next-word
/// literal and adds one.
pub proof fn lemma_embedded_literal(n: nat)
    requires
        n <= 0xFFFF,
    ensures
        n <= 0x1F ==> operand_of(hex_numeral(n)) == Ok::<OperandView, AsmError>(
            OperandView::Immediate((0x20 + n) as u16),
        ),
        n <= 0x1F ==> operand_of(decimal_numeral(n)) == Ok::<OperandView, AsmError>(
            OperandView::Immediate((0x20 + n) as u16),
        ),
        n > 0x1F ==> operand_of(hex_numeral(n)) == Ok::<OperandView, AsmError>(
            OperandView::Extended(0x1F, n as u16),
        ),
        n > 0x1F ==> operand_of(decimal_numeral(n)) == Ok::<OperandView, AsmError>(
            OperandView::Extended(0x1F, n as u16),
        ),
        operand_size(OperandView::Immediate((0x20 + n) as u16)) == 0,
        operand_size(OperandView::Extended(0x1F, n as u16)) == 1,
{
    lemma_numeral_round_trip(n, Seq::empty());
    lemma_digits_of(n, 16);
    lemma_digits_of(n, 10);
    let h = hex_numeral(n);
    let d = decimal_numeral(n);
    let hd = digits_of(n, 16);
    assert(h.skip(2) =~= hd);
    lemma_digits_are_plain(hd);
    lemma_digits_are_plain(d);
    assert(digit_value(d[0], 10) is Some);
    assert forall|i: int| 0 <= i < h.len() implies reg_index(#[trigger] h[i]) is None && h[i] != '+' && h[i] != '[' by {
        if i >= 2 {
            assert(h[i] == hd[i - 2]);
        }
    }
    assert(!h.contains('+'));
    assert(!h.contains('['));
    lemma_numeral_operand(h, n);
    lemma_numeral_operand(d, n);
}

/// Whether `v` is a well-formed label name.
pub fn valid_label_chars(v: &Vec<char>) -> (r: bool)
    ensures
        r == is_label(v@),
{
    if v.len() == 0 {
        return false;
    }
    if '0' <= v[0] && v[0] <= '9' {
        return false;
    }
    let mut k: usize = 0;
    while k < v.len()
        invariant
            k <= v@.len(),
            forall|i: int| 0 <= i < k ==> label_char(#[trigger] v@[i]),
        decreases v@.len() - k,
    {
        let c = v[k];
        if !(is_alnum(c) || c == '_' || c == '-' || c == '$') {
            return false;
        }
        k = k + 1;
    }
    true
}

/// Whether `v` is a well-formed label name: not empty, not starting with a digit,
/// and made of alphanumerics, `_`, `-` and `$`.
pub fn valid_label(v: &str) -> (r: bool)
    ensures
        r == is_label(v@),
{
    valid_label_chars(&chars_of(v))
}

/// `v` without its `[` and `]` characters.
pub fn remove_brackets_chars(v: &Vec<char>) -> (r: Vec<char>)
    ensures
        r@ == unbracketed(v@, 0),
{
    let mut r: Vec<char> = Vec::new();
    let mut k: usize = 0;
    while k < v.len()
        invariant
            k <= v@.len(),
            r@ + unbracketed(v@, k as int) == unbracketed(v@, 0),
        decreases v@.len() - k,
    {
        if v[k] != '[' && v[k] != ']' {
            assert(r@.push(v@[k as int]) + unbracketed(v@, k + 1) =~= r@ + unbracketed(v@, k as int));
            r.push(v[k]);
        }
        k = k + 1;
    }
    assert(r@ + unbracketed(v@, k as int) =~= r@);
    r
}

/// `v` without its `[` and `]` characters.
pub fn remove_brackets(v: &str) -> (r: String)
    ensures
        r@ == unbracketed(v@, 0),
{
    crate::text::text_of(&remove_brackets_chars(&chars_of(v)))
}

/// The code of a keyword operand.
fn keyword(t: &Vec<char>) -> (r: Option<u16>)
    ensures
        r == keyword_code(t@),
{
    if spells(t, "POP") {
        Some(0x18)
    } else if spells(t, "PEEK") {
        Some(0x19)
    } else if spells(t, "PUSH") {
        Some(0x1A)
    } else if spells(t, "SP") {
        Some(0x1B)
    } else if spells(t, "PC") {
        Some(0x1C)
    } else if spells(t, "O") {
        Some(0x1D)
    } else {
        None
    }
}

/// A one-character register name.
fn single_register(t: &Vec<char>) -> (r: Option<u16>)
    ensures
        r == single_reg(t@),
        r is Some ==> r->0 < 8,
{
    if t.len() == 1 {
        match parse_reg(t[0]) {
            Ok(i) => Some(i),
            Err(_) => None,
        }
    } else {
        None
    }
}

/// `[register + literal]` or `[literal + register]`, given the two sides of the `+`.
fn offset_value(left: &Vec<char>, right: &Vec<char>) -> (r: Result<Operand, AsmError>)
    ensures
        operand_result(r) == offset_operand(left@, right@),
{
    if let Some(reg) = single_register(left) {
        if let Ok(n) = parse_num_chars(right) {
            return Ok(Operand::Extended(reg + 0x10, n));
        }
    }
    if let Some(reg) = single_register(right) {
        if let Ok(n) = parse_num_chars(left) {
            return Ok(Operand::Extended(reg + 0x10, n));
        }
    }
    Err(AsmError::ExpectedRegister)
}

/// Classifies one argument token.
pub fn make_val_chars(part: &Vec<char>) -> (r: Result<Operand, AsmError>)
    ensures
        operand_result(r) == operand_of(part@),
{
    if let Some(code) = keyword(part) {
        return Ok(Operand::Immediate(code));
    }
    if let Some(reg) = single_register(part) {
        return Ok(Operand::Immediate(reg));
    }
    if part.len() == 3 && part[0] == '[' && part[2] == ']' {
        if let Ok(reg) = parse_reg(part[1]) {
            return Ok(Operand::Immediate(reg + 0x08));
        }
    }
    let plus = find_char(part, '+');
    if plus < part.len() {
        assert(part@.contains('+'));
        let pieces = split(&remove_brackets_chars(part), '+');
        if pieces.len() == 2 {
            return offset_value(&pieces[0], &pieces[1]);
        } else {
            return Err(AsmError::ExpectedRegister);
        }
    }
    assert(!part@.contains('+'));
    let open = find_char(part, '[');
    if open < part.len() {
        assert(part@.contains('['));
        return match parse_num_chars(&remove_brackets_chars(part)) {
            Ok(n) => Ok(Operand::Extended(0x1E, n)),
            Err(e) => Err(e),
        };
    }
    assert(!part@.contains('['));
    match parse_num_chars(part) {
        Ok(n) => if n <= 0x1F {
            Ok(Operand::Immediate(0x20 + n))
        } else {
            Ok(Operand::Extended(0x1F, n))
        },
        Err(AsmError::ConstantTooLarge) => Err(AsmError::ConstantTooLarge),
        Err(_) => if valid_label_chars(part) {
            Ok(Operand::Label(part.clone()))
        } else {
            Err(AsmError::InvalidLabelSyntax)
        },
    }
}

/// Classifies one argument token: a keyword (`POP`, `PEEK`, `PUSH`, `SP`, `PC`,
/// `O`), a register, `[register]`, `[register+literal]` in either order,
/// `[literal]`, a literal (embedded when at most 0x1F), or a label reference.
pub fn make_val(part: &str) -> (r: Result<Operand, AsmError>)
    ensures
        operand_result(r) == operand_of(part@),
{
    make_val_chars(&chars_of(part))
}

} // verus!
