//! The two-pass assembler: source lines to a word stream, and the ROM text block.

use vstd::prelude::*;
use crate::error::{message_text, AsmError};
use crate::instruction::{
    compile_line_chars, encode, instruction_bytes, instruction_of, instruction_size,
    mnemonic, size_of, Instruction, InstructionView,
};
use crate::numeral::{decimal, decimal_numeral, hex4, word_hex};
use crate::operand::{is_label, valid_label_chars, Operand, OperandView};
use crate::text::{chars_of, find_char, index_of, skip_space, skip_word, slice_of, text_of, trim, trimmed, word_end, ws_end};

verus! {

/// An assembly error and the 1-based number of the source line it belongs to.
#[derive(Clone, Copy, Debug, PartialEq, Eq, Structural)]
pub struct LineError {
    pub line: usize,
    pub error: AsmError,
}

impl LineError {
    /// The report of the error: `Compile error on line N: ` and the error's message.
    pub fn describe(&self) -> (r: String)
        ensures
            r@ == "Compile error on line "@ + decimal_numeral(self.line as nat) + ": "@ + message_text(self.error),
    {
        let mut out = chars_of("Compile error on line ");
        let mut digits = decimal(self.line as u64);
        out.append(&mut digits);
        let mut sep = chars_of(": ");
        out.append(&mut sep);
        let mut msg = chars_of(self.error.message());
        out.append(&mut msg);
        text_of(&out)
    }
}

/// The part of a raw line before any `;` comment, without surrounding whitespace.
pub open spec fn code_part(raw: Seq<char>) -> Seq<char> {
    let t = trimmed(raw);
    let c = index_of(t, ';', 0);
    if c < t.len() {
        trimmed(t.take(c))
    } else {
        t
    }
}

/// What one source line holds: possibly a label definition, possibly an instruction.
#[verifier::opaque]
pub open spec fn line_of(raw: Seq<char>) -> Result<(Option<Seq<char>>, Option<InstructionView>), AsmError> {
    let code = code_part(raw);
    let w = mnemonic(code);
    if code.len() == 0 {
        Ok((None, None))
    } else if w.len() > 0 && w.last() == ':' {
        let name = w.drop_last();
        let rest = trimmed(code.skip(word_end(code, ws_end(code, 0))));
        if !is_label(name) {
            Err(AsmError::InvalidLabelSyntax)
        } else if rest.len() == 0 {
            Ok((Some(name), None))
        } else {
            match instruction_of(rest) {
                Ok(i) => Ok((Some(name), Some(i))),
                Err(e) => Err(e),
            }
        }
    } else {
        match instruction_of(code) {
            Ok(i) => Ok((None, Some(i))),
            Err(e) => Err(e),
        }
    }
}

/// The view of what `scan_line` returns.
pub open spec fn scan_result(r: Result<(Option<Vec<char>>, Option<Instruction>), AsmError>) -> Result<
    (Option<Seq<char>>, Option<InstructionView>),
    AsmError,
> {
    match r {
        Ok((l, i)) => Ok(
            (
                match l {
                    Some(n) => Some(n@),
                    None => None,
                },
                match i {
                    Some(x) => Some(x@),
                    None => None,
                },
            ),
        ),
        Err(e) => Err(e),
    }
}

/// Splits one raw source line into its label definition and its instruction.
pub fn scan_line(raw: &Vec<char>) -> (r: Result<(Option<Vec<char>>, Option<Instruction>), AsmError>)
    ensures
        scan_result(r) == line_of(raw@),
{
    reveal(line_of);
    let t = trim(raw);
    let c = find_char(&t, ';');
    let code = if c < t.len() {
        trim(&slice_of(&t, 0, c))
    } else {
        t
    };
    assert(c < t@.len() ==> t@.take(c as int) =~= t@.subrange(0, c as int));
    if code.len() == 0 {
        return Ok((None, None));
    }
    let start = skip_space(&code, 0);
    let end = skip_word(&code, start);
    if end > start && code[end - 1] == ':' {
        let name = slice_of(&code, start, end - 1);
        assert(name@ =~= mnemonic(code@).drop_last());
        if !valid_label_chars(&name) {
            return Err(AsmError::InvalidLabelSyntax);
        }
        let rest = trim(&slice_of(&code, end, code.len()));
        assert(code@.subrange(end as int, code@.len() as int) =~= code@.skip(end as int));
        if rest.len() == 0 {
            return Ok((Some(name), None));
        }
        match compile_line_chars(&rest) {
            Ok(i) => Ok((Some(name), Some(i))),
            Err(e) => Err(e),
        }
    } else {
        match compile_line_chars(&code) {
            Ok(i) => Ok((None, Some(i))),
            Err(e) => Err(e),
        }
    }
}

/// The state after the first pass over some lines: the instructions with the
/// numbers of their lines, the label definitions in order, and the word offset.
pub struct FirstPass {
    pub instrs: Seq<InstructionView>,
    pub lines: Seq<usize>,
    pub labels: Seq<(Seq<char>, u16)>,
    pub offset: u16,
}

/// The first pass over source lines: labels get the running word offset, and
/// the first line that does not assemble ends the pass with its number.
pub open spec fn first_pass(src: Seq<Seq<char>>) -> Result<FirstPass, LineError>
    decreases src.len(),
{
    if src.len() == 0 {
        Ok(FirstPass { instrs: Seq::empty(), lines: Seq::empty(), labels: Seq::empty(), offset: 0 })
    } else {
        match first_pass(src.drop_last()) {
            Err(e) => Err(e),
            Ok(p) => match line_of(src.last()) {
                Err(e) => Err(LineError { line: src.len() as usize, error: e }),
                Ok((label, ins)) => {
                    let labels = match label {
                        Some(n) => p.labels.push((n, p.offset)),
                        None => p.labels,
                    };
                    match ins {
                        None => Ok(FirstPass { instrs: p.instrs, lines: p.lines, labels, offset: p.offset }),
                        Some(i) => Ok(
                            FirstPass {
                                instrs: p.instrs.push(i),
                                lines: p.lines.push(src.len() as usize),
                                labels,
                                offset: ((p.offset + size_of(i)) % 0x10000) as u16,
                            },
                        ),
                    }
                },
            },
        }
    }
}

/// The address of a label: its latest definition wins.
pub open spec fn lookup(labels: Seq<(Seq<char>, u16)>, name: Seq<char>) -> Option<u16>
    decreases labels.len(),
{
    if labels.len() == 0 {
        None
    } else if labels.last().0 == name {
        Some(labels.last().1)
    } else {
        lookup(labels.drop_last(), name)
    }
}

/// An operand with its label replaced by the label's address as a next-word literal.
pub open spec fn resolve(v: OperandView, labels: Seq<(Seq<char>, u16)>) -> Option<OperandView> {
    match v {
        OperandView::Label(n) => match lookup(labels, n) {
            Some(a) => Some(OperandView::Extended(0x1F, a)),
            None => None,
        },
        _ => Some(v),
    }
}

/// The second pass: every instruction resolved and encoded, in order; the first
/// reference to an undefined label ends it.
pub open spec fn second_pass(instrs: Seq<InstructionView>, lines: Seq<usize>, labels: Seq<(Seq<char>, u16)>) -> Result<
    Seq<u16>,
    LineError,
>
    decreases instrs.len(),
{
    if instrs.len() == 0 {
        Ok(Seq::empty())
    } else {
        match second_pass(instrs.drop_last(), lines.drop_last(), labels) {
            Err(e) => Err(e),
            Ok(ws) => {
                let i = instrs.last();
                match (resolve(i.a, labels), resolve(i.b, labels)) {
                    (Some(a), Some(b)) => Ok(ws + encode(InstructionView { o: i.o, a, b })),
                    _ => Err(LineError { line: lines.last(), error: AsmError::UndefinedLabel }),
                }
            },
        }
    }
}

/// What a program assembles to.
pub open spec fn assembly(src: Seq<Seq<char>>) -> Result<Seq<u16>, LineError> {
    match first_pass(src) {
        Err(e) => Err(e),
        Ok(p) => second_pass(p.instrs, p.lines, p.labels),
    }
}

/// The characters of each source line.
pub open spec fn source_view(src: Seq<String>) -> Seq<Seq<char>> {
    src.map_values(|s: String| s@)
}

/// The address of a label: its latest definition wins.
fn find_label(labels: &Vec<(Vec<char>, u16)>, name: &Vec<char>) -> (r: Option<u16>)
    ensures
        r == lookup(labels@.map_values(|e: (Vec<char>, u16)| (e.0@, e.1)), name@),
{
    let ghost table = labels@.map_values(|e: (Vec<char>, u16)| (e.0@, e.1));
    let mut k = labels.len();
    assert(table.take(k as int) =~= table);
    while k > 0
        invariant
            k <= labels@.len(),
            table == labels@.map_values(|e: (Vec<char>, u16)| (e.0@, e.1)),
            lookup(table, name@) == lookup(table.take(k as int), name@),
        decreases k,
    {
        let ghost prefix = table.take(k as int);
        assert(prefix.drop_last() =~= table.take(k - 1));
        if crate::text::same_chars(&labels[k - 1].0, name) {
            return Some(labels[k - 1].1);
        }
        k = k - 1;
    }
    assert(table.take(0) =~= Seq::<(Seq<char>, u16)>::empty());
    None
}

/// An operand with its label replaced by the label's address.
fn resolve_operand(v: &Operand, labels: &Vec<(Vec<char>, u16)>) -> (r: Option<Operand>)
    ensures
        match r {
            Some(x) => resolve(v@, labels@.map_values(|e: (Vec<char>, u16)| (e.0@, e.1))) == Some(x@),
            None => resolve(v@, labels@.map_values(|e: (Vec<char>, u16)| (e.0@, e.1))) is None,
        },
{
    match v {
        Operand::Immediate(c) => Some(Operand::Immediate(*c)),
        Operand::Extended(c, w) => Some(Operand::Extended(*c, *w)),
        Operand::Label(n) => match find_label(labels, n) {
            Some(a) => Some(Operand::Extended(0x1F, a)),
            None => None,
        },
    }
}

proof fn lemma_first_pass_error(src: Seq<Seq<char>>, j: int)
    requires
        0 <= j <= src.len(),
        first_pass(src.take(j)) is Err,
    ensures
        first_pass(src) == first_pass(src.take(j)),
    decreases src.len() - j,
{
    if j < src.len() {
        assert(src.take(j + 1).drop_last() =~= src.take(j));
        lemma_first_pass_error(src, j + 1);
    } else {
        assert(src.take(j) =~= src);
    }
}

proof fn lemma_second_pass_error(
    instrs: Seq<InstructionView>,
    lines: Seq<usize>,
    labels: Seq<(Seq<char>, u16)>,
    j: int,
)
    requires
        0 <= j <= instrs.len(),
        instrs.len() == lines.len(),
        second_pass(instrs.take(j), lines.take(j), labels) is Err,
    ensures
        second_pass(instrs, lines, labels) == second_pass(instrs.take(j), lines.take(j), labels),
    decreases instrs.len() - j,
{
    if j < instrs.len() {
        assert(instrs.take(j + 1).drop_last() =~= instrs.take(j));
        assert(lines.take(j + 1).drop_last() =~= lines.take(j));
        lemma_second_pass_error(instrs, lines, labels, j + 1);
    } else {
        assert(instrs.take(j) =~= instrs);
        assert(lines.take(j) =~= lines);
    }
}

/// The number of words that instructions take, all together.
pub open spec fn total_size(instrs: Seq<InstructionView>) -> int
    decreases instrs.len(),
{
    if instrs.len() == 0 {
        0
    } else {
        total_size(instrs.drop_last()) + size_of(instrs.last())
    }
}

proof fn lemma_first_pass_offset(src: Seq<Seq<char>>)
    requires
        first_pass(src) is Ok,
    ensures
        first_pass(src)->Ok_0.offset == total_size(first_pass(src)->Ok_0.instrs) % 0x10000,
        first_pass(src)->Ok_0.lines.len() == first_pass(src)->Ok_0.instrs.len(),
    decreases src.len(),
{
    if src.len() > 0 {
        lemma_first_pass_offset(src.drop_last());
        let p = first_pass(src.drop_last())->Ok_0;
        let q = first_pass(src)->Ok_0;
        let r = line_of(src.last());
        assert(r is Ok);
        match r->Ok_0.1 {
            None => {
                assert(q.instrs == p.instrs && q.offset == p.offset && q.lines == p.lines);
            },
            Some(i) => {
                assert(q.instrs == p.instrs.push(i));
                assert(q.instrs.drop_last() =~= p.instrs);
                lemma_total_size_nonneg(p.instrs);
                assert(q.offset == ((p.offset + size_of(i)) % 0x10000) as u16);
            },
        }
    }
}

proof fn lemma_total_size_nonneg(instrs: Seq<InstructionView>)
    ensures
        total_size(instrs) >= 0,
    decreases instrs.len(),
{
    if instrs.len() > 0 {
        lemma_total_size_nonneg(instrs.drop_last());
    }
}

proof fn lemma_second_pass_length(instrs: Seq<InstructionView>, lines: Seq<usize>, labels: Seq<(Seq<char>, u16)>)
    requires
        second_pass(instrs, lines, labels) is Ok,
    ensures
        second_pass(instrs, lines, labels)->Ok_0.len() == total_size(instrs),
    decreases instrs.len(),
{
    if instrs.len() > 0 {
        lemma_second_pass_length(instrs.drop_last(), lines.drop_last(), labels);
    }
}

/// The word offset that the first pass counts equals, modulo 0x10000, the number
/// of words that the second pass emits for the same instructions, whatever the
/// label table that resolves them. Over a prefix of the source this is the
/// address at which the next line's words begin: the address a label on that
/// line is given.
pub proof fn lemma_offsets_match_words(src: Seq<Seq<char>>, labels: Seq<(Seq<char>, u16)>)
    requires
        first_pass(src) is Ok,
        second_pass(first_pass(src)->Ok_0.instrs, first_pass(src)->Ok_0.lines, labels) is Ok,
    ensures
        first_pass(src)->Ok_0.offset as int == second_pass(
            first_pass(src)->Ok_0.instrs,
            first_pass(src)->Ok_0.lines,
            labels,
        )->Ok_0.len() % 0x10000,
{
    lemma_first_pass_offset(src);
    let p = first_pass(src)->Ok_0;
    lemma_second_pass_length(p.instrs, p.lines, labels);
}

/// The view of what `assemble` returns.
pub open spec fn words_result(r: Result<Vec<u16>, LineError>) -> Result<Seq<u16>, LineError> {
    match r {
        Ok(w) => Ok(w@),
        Err(e) => Err(e),
    }
}

/// Assembles a program given as its source lines. The first line that does not
/// assemble, or the first instruction that refers to an undefined label, ends
/// the run with that line's number; otherwise the result is every instruction's
/// words, in order, with each label reference replaced by the label's address.
pub fn assemble(source: &Vec<String>) -> (r: Result<Vec<u16>, LineError>)
    ensures
        words_result(r) == assembly(source_view(source@)),
{
    let ghost src = source_view(source@);
    let mut instrs: Vec<Instruction> = Vec::new();
    let mut lines: Vec<usize> = Vec::new();
    let mut labels: Vec<(Vec<char>, u16)> = Vec::new();
    let mut offset: u16 = 0;
    let mut k: usize = 0;
    assert(src.take(0) =~= Seq::<Seq<char>>::empty());
    assert(instrs@.map_values(|i: Instruction| i@) =~= Seq::<InstructionView>::empty());
    assert(labels@.map_values(|e: (Vec<char>, u16)| (e.0@, e.1)) =~= Seq::<(Seq<char>, u16)>::empty());
    while k < source.len()
        invariant
            k <= source@.len() == src.len(),
            src == source_view(source@),
            lines@.len() == instrs@.len(),
            first_pass(src.take(k as int)) == Ok::<FirstPass, LineError>(
                FirstPass {
                    instrs: instrs@.map_values(|i: Instruction| i@),
                    lines: lines@,
                    labels: labels@.map_values(|e: (Vec<char>, u16)| (e.0@, e.1)),
                    offset,
                },
            ),
        decreases source@.len() - k,
    {
        let ghost prefix = src.take(k + 1);
        assert(prefix.drop_last() =~= src.take(k as int));
        assert(prefix.last() == source@[k as int]@);
        let raw = chars_of(source[k].as_str());
        match scan_line(&raw) {
            Err(e) => {
                proof {
                    lemma_first_pass_error(src, k + 1);
                }
                return Err(LineError { line: k + 1, error: e });
            },
            Ok((label, ins)) => {
                if let Some(n) = label {
                    let ghost old_labels = labels@;
                    labels.push((n, offset));
                    assert(labels@.map_values(|e: (Vec<char>, u16)| (e.0@, e.1)) =~= old_labels.map_values(
                        |e: (Vec<char>, u16)| (e.0@, e.1),
                    ).push((n@, offset)));
                }
                if let Some(i) = ins {
                    let size = instruction_size(&i);
                    let ghost old_instrs = instrs@;
                    instrs.push(i);
                    lines.push(k + 1);
                    assert(instrs@.map_values(|i: Instruction| i@) =~= old_instrs.map_values(
                        |i: Instruction| i@,
                    ).push(i@));
                    assert((offset as int + size as int) % 0x10000 == offset.wrapping_add(size) as int);
                    offset = offset.wrapping_add(size);
                }
            },
        }
        k = k + 1;
    }
    assert(src.take(k as int) =~= src);
    let ghost iv = instrs@.map_values(|i: Instruction| i@);
    let ghost table = labels@.map_values(|e: (Vec<char>, u16)| (e.0@, e.1));
    let mut words: Vec<u16> = Vec::new();
    let mut j: usize = 0;
    assert(iv.take(0) =~= Seq::<InstructionView>::empty());
    assert(lines@.take(0) =~= Seq::<usize>::empty());
    while j < instrs.len()
        invariant
            j <= instrs@.len() == lines@.len() == iv.len(),
            iv == instrs@.map_values(|i: Instruction| i@),
            src == source_view(source@),
            table == labels@.map_values(|e: (Vec<char>, u16)| (e.0@, e.1)),
            first_pass(src) == Ok::<FirstPass, LineError>(
                FirstPass { instrs: iv, lines: lines@, labels: table, offset },
            ),
            second_pass(iv.take(j as int), lines@.take(j as int), table) == Ok::<Seq<u16>, LineError>(words@),
        decreases instrs@.len() - j,
    {
        assert(iv.take(j + 1).drop_last() =~= iv.take(j as int));
        assert(lines@.take(j + 1).drop_last() =~= lines@.take(j as int));
        let ins = &instrs[j];
        assert(iv.take(j + 1).last() == ins@);
        assert(lines@.take(j + 1).last() == lines@[j as int]);
        match (resolve_operand(&ins.a, &labels), resolve_operand(&ins.b, &labels)) {
            (Some(a), Some(b)) => {
                let resolved = Instruction { o: ins.o, a, b };
                let mut enc = instruction_bytes(&resolved);
                words.append(&mut enc);
            },
            _ => {
                proof {
                    lemma_second_pass_error(iv, lines@, table, j + 1);
                }
                return Err(LineError { line: lines[j], error: AsmError::UndefinedLabel });
            },
        }
        j = j + 1;
    }
    assert(iv.take(j as int) =~= iv);
    assert(lines@.take(j as int) =~= lines@);
    Ok(words)
}

/// The ROM text of a word stream: `{{`, then each word as four hex digits on a
/// line of its own indented by two spaces, then `}}`.
pub open spec fn rom_block(words: Seq<u16>) -> Seq<char> {
    seq!['{', '{', '\n'] + rom_lines(words) + seq!['}', '}', '\n']
}

/// One indented line of four hex digits per word.
pub open spec fn rom_lines(words: Seq<u16>) -> Seq<char>
    decreases words.len(),
{
    if words.len() == 0 {
        Seq::empty()
    } else {
        rom_lines(words.drop_last()) + seq![' ', ' '] + hex4(words.last()) + seq!['\n']
    }
}

/// The ROM text of a word stream, delimited by `{{` and `}}`, one zero-padded
/// four-digit hex word per line.
pub fn rom_text(words: &Vec<u16>) -> (r: String)
    ensures
        r@ == rom_block(words@),
{
    let mut out: Vec<char> = Vec::new();
    out.push('{');
    out.push('{');
    out.push('\n');
    let ghost head = out@;
    let mut k: usize = 0;
    assert(words@.take(0) =~= Seq::<u16>::empty());
    while k < words.len()
        invariant
            k <= words@.len(),
            head == seq!['{', '{', '\n'],
            out@ == head + rom_lines(words@.take(k as int)),
        decreases words@.len() - k,
    {
        assert(words@.take(k + 1).drop_last() =~= words@.take(k as int));
        out.push(' ');
        out.push(' ');
        let mut digits = word_hex(words[k]);
        out.append(&mut digits);
        out.push('\n');
        assert(out@ =~= head + rom_lines(words@.take(k + 1)));
        k = k + 1;
    }
    assert(words@.take(k as int) =~= words@);
    out.push('}');
    out.push('}');
    out.push('\n');
    assert(out@ =~= rom_block(words@));
    text_of(&out)
}

} // verus!
