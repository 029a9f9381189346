//! ROM text: hex words between `{{` and `}}`, loaded into memory from address 0.

use vstd::prelude::*;
use crate::cpu::{CpuState, Machine, MEMORY_WORDS};
use crate::assembler::{rom_block, rom_lines};
use crate::numeral::{digit_char, digit_of, digit_value, hex4, lemma_digit_char_value};
use crate::text::chars_of;

verus! {

/// Why a ROM text could not be loaded.
#[derive(Clone, Copy, Debug, PartialEq, Eq, Structural)]
pub enum RomError {
    /// `{{` or `}}` does not occur.
    MissingMarker,
    /// The first `{{` comes after the first `}}`.
    MarkersOutOfOrder,
    /// The number of hex digits between the markers is not a multiple of four.
    DigitCount,
    /// There are more words than memory holds.
    TooLarge,
}

/// The human-readable description of a ROM error.
pub open spec fn rom_message_text(e: RomError) -> Seq<char> {
    match e {
        RomError::MissingMarker => "invalid rom file"@,
        RomError::MarkersOutOfOrder => "invalid rom file"@,
        RomError::DigitCount => "invalid rom file, invalid number of bytes"@,
        RomError::TooLarge => "invalid rom file, too many words for memory"@,
    }
}

impl RomError {
    /// A human-readable description of the error.
    pub fn message(&self) -> (r: &'static str)
        ensures
            r@ == rom_message_text(*self),
    {
        match self {
            RomError::MissingMarker => "invalid rom file",
            RomError::MarkersOutOfOrder => "invalid rom file",
            RomError::DigitCount => "invalid rom file, invalid number of bytes",
            RomError::TooLarge => "invalid rom file, too many words for memory",
        }
    }
}

/// The first position at or after `i` where `c` occurs twice in a row, or the length.
pub open spec fn pair_at(s: Seq<char>, c: char, i: int) -> int
    decreases s.len() - i,
{
    if i < 0 || i + 1 >= s.len() {
        s.len() as int
    } else if s[i] == c && s[i + 1] == c {
        i
    } else {
        pair_at(s, c, i + 1)
    }
}

/// The values of the hex digits of `s`, in order; other characters are skipped.
pub open spec fn nibbles(s: Seq<char>) -> Seq<u32>
    decreases s.len(),
{
    if s.len() == 0 {
        Seq::empty()
    } else {
        match digit_value(s.last(), 16) {
            Some(d) => nibbles(s.drop_last()).push(d),
            None => nibbles(s.drop_last()),
        }
    }
}

/// The big-endian word that four digits starting at `4 * i` make.
pub open spec fn word_at(n: Seq<u32>, i: int) -> u16 {
    (n[4 * i] * 0x1000 + n[4 * i + 1] * 0x100 + n[4 * i + 2] * 0x10 + n[4 * i + 3]) as u16
}

/// The words of a ROM text: the hex digits between the first `{{` and the first
/// `}}`, four to a word.
pub open spec fn rom_words(text: Seq<char>) -> Result<Seq<u16>, RomError> {
    let s = pair_at(text, '{', 0);
    let e = pair_at(text, '}', 0);
    if s >= text.len() || e >= text.len() {
        Err(RomError::MissingMarker)
    } else if s > e {
        Err(RomError::MarkersOutOfOrder)
    } else {
        let n = nibbles(text.subrange(s + 2, e));
        if n.len() % 4 != 0 {
            Err(RomError::DigitCount)
        } else {
            Ok(Seq::new(n.len() / 4, |i: int| word_at(n, i)))
        }
    }
}

/// Where `c` first occurs twice in a row, or the length.
fn find_pair(s: &Vec<char>, c: char) -> (r: usize)
    ensures
        r == pair_at(s@, c, 0),
        r <= s@.len(),
        r < s@.len() ==> r + 1 < s@.len() && s@[r as int] == c && s@[r + 1] == c,
{
    let mut k: usize = 0;
    while k < s.len() && s.len() - k > 1
        invariant
            k <= s@.len(),
            pair_at(s@, c, 0) == pair_at(s@, c, k as int),
        decreases s@.len() - k,
    {
        if s[k] == c && s[k + 1] == c {
            return k;
        }
        k = k + 1;
    }
    s.len()
}

/// Every value in `n` is a digit below sixteen.
pub open spec fn small(n: Seq<u32>) -> bool {
    forall|i: int| 0 <= i < n.len() ==> #[trigger] n[i] < 16
}

/// Reads the words of a ROM text: every hex digit between the first `{{` and the
/// first `}}`, four digits to a big-endian word; other characters are ignored.
pub fn parse_rom(text: &str) -> (r: Result<Vec<u16>, RomError>)
    ensures
        match r {
            Ok(w) => rom_words(text@) == Ok::<Seq<u16>, RomError>(w@),
            Err(e) => rom_words(text@) == Err::<Seq<u16>, RomError>(e),
        },
{
    let t = chars_of(text);
    let s = find_pair(&t, '{');
    let e = find_pair(&t, '}');
    if s >= t.len() || e >= t.len() {
        return Err(RomError::MissingMarker);
    }
    if s > e {
        return Err(RomError::MarkersOutOfOrder);
    }
    let start = s + 2;
    let mut n: Vec<u32> = Vec::new();
    let mut k = start;
    assert(t@.subrange(start as int, k as int) =~= Seq::<char>::empty());
    while k < e
        invariant
            start <= k <= e < t@.len(),
            n@ == nibbles(t@.subrange(start as int, k as int)),
            small(n@),
        decreases e - k,
    {
        assert(t@.subrange(start as int, k + 1).drop_last() =~= t@.subrange(start as int, k as int));
        if let Some(d) = digit_of(t[k], 16) {
            n.push(d);
        }
        k = k + 1;
    }
    if n.len() % 4 != 0 {
        return Err(RomError::DigitCount);
    }
    let count = n.len() / 4;
    let mut words: Vec<u16> = Vec::new();
    let mut i: usize = 0;
    while i < count
        invariant
            i <= count == n@.len() / 4,
            small(n@),
            words@.len() == i,
            forall|j: int| 0 <= j < i ==> #[trigger] words@[j] == word_at(n@, j),
        decreases count - i,
    {
        let total = n.len();
        assert(4 * i + 3 < total) by (nonlinear_arith)
            requires i < count, count == total / 4;
        let b = 4 * i;
        assert(n@[b as int] < 16 && n@[b + 1] < 16 && n@[b + 2] < 16 && n@[b + 3] < 16);
        let w = n[b] * 0x1000 + n[b + 1] * 0x100 + n[b + 2] * 0x10 + n[b + 3];
        words.push(w as u16);
        i = i + 1;
    }
    assert(words@ =~= Seq::new(n@.len() / 4, |i: int| word_at(n@, i)));
    Ok(words)
}

/// The machine with `words` written to memory from address 0.
pub open spec fn with_rom(m: Machine, words: Seq<u16>) -> Machine {
    Machine { mem: words + m.mem.skip(words.len() as int), ..m }
}

/// Loads a ROM text into memory from address 0. A text that does not parse, or
/// has more words than memory holds, leaves the machine as it is.
pub fn load_rom(cpu: &mut CpuState, text: &str) -> (r: Result<(), RomError>)
    requires
        old(cpu)@.wf(),
    ensures
        final(cpu)@.wf(),
        match rom_words(text@) {
            Err(e) => r == Err::<(), RomError>(e) && final(cpu)@ == old(cpu)@,
            Ok(w) => if w.len() > MEMORY_WORDS {
                r == Err::<(), RomError>(RomError::TooLarge) && final(cpu)@ == old(cpu)@
            } else {
                r is Ok && final(cpu)@ == with_rom(old(cpu)@, w)
            },
        },
{
    let words = match parse_rom(text) {
        Ok(w) => w,
        Err(e) => return Err(e),
    };
    if words.len() > MEMORY_WORDS {
        return Err(RomError::TooLarge);
    }
    let ghost before = cpu.mem@;
    let mut i: usize = 0;
    while i < words.len()
        invariant
            i <= words@.len() <= MEMORY_WORDS,
            cpu.mem@.len() == MEMORY_WORDS,
            cpu.mem@ == words@.take(i as int) + before.skip(i as int),
            before.len() == MEMORY_WORDS,
            before == old(cpu).mem@,
            cpu@ == (Machine { mem: cpu.mem@, ..old(cpu)@ }),
        decreases words@.len() - i,
    {
        cpu.mem.set(i, words[i]);
        assert(cpu.mem@ =~= words@.take(i + 1) + before.skip(i + 1));
        i = i + 1;
    }
    assert(words@.take(i as int) =~= words@);
    Ok(())
}

/// The four hex digit values of a word, most significant first.
pub open spec fn word_digits(w: u16) -> Seq<u32> {
    seq![(w / 0x1000) as u32, ((w / 0x100) % 16) as u32, ((w / 0x10) % 16) as u32, (w % 16) as u32]
}

/// The hex digit values of words, four per word, in order.
pub open spec fn words_digits(ws: Seq<u16>) -> Seq<u32>
    decreases ws.len(),
{
    if ws.len() == 0 {
        Seq::empty()
    } else {
        words_digits(ws.drop_last()) + word_digits(ws.last())
    }
}

proof fn lemma_nibbles_concat(a: Seq<char>, b: Seq<char>)
    ensures
        nibbles(a + b) == nibbles(a) + nibbles(b),
    decreases b.len(),
{
    if b.len() == 0 {
        assert(a + b =~= a);
        assert(nibbles(a) + nibbles(b) =~= nibbles(a));
    } else {
        assert((a + b).drop_last() =~= a + b.drop_last());
        lemma_nibbles_concat(a, b.drop_last());
        match digit_value(b.last(), 16) {
            Some(d) => assert(nibbles(a + b) =~= nibbles(a) + nibbles(b)),
            None => assert(nibbles(a + b) =~= nibbles(a) + nibbles(b)),
        }
    }
}

proof fn lemma_nibbles_one(c: char)
    ensures
        nibbles(seq![c]) == (match digit_value(c, 16) {
            Some(d) => seq![d],
            None => Seq::<u32>::empty(),
        }),
{
    let s = seq![c];
    assert(s.drop_last() =~= Seq::<char>::empty());
    assert(nibbles(Seq::<char>::empty()) == Seq::<u32>::empty());
    assert(s.last() == c);
    match digit_value(c, 16) {
        Some(d) => assert(nibbles(s) =~= seq![d]),
        None => assert(nibbles(s) =~= Seq::<u32>::empty()),
    }
}

proof fn lemma_nibbles_of_word(w: u16)
    ensures
        nibbles(hex4(w)) == word_digits(w),
{
    let h = hex4(w);
    let ds = word_digits(w);
    assert(w / 0x1000 < 16 && (w / 0x100) % 16 < 16 && (w / 0x10) % 16 < 16 && w % 16 < 16);
    lemma_digit_char_value((w / 0x1000) as nat, 16);
    lemma_digit_char_value(((w / 0x100) % 16) as nat, 16);
    lemma_digit_char_value(((w / 0x10) % 16) as nat, 16);
    lemma_digit_char_value((w % 16) as nat, 16);
    let a = seq![h[0]];
    let b = seq![h[1]];
    let c = seq![h[2]];
    let d = seq![h[3]];
    lemma_nibbles_one(h[0]);
    lemma_nibbles_one(h[1]);
    lemma_nibbles_one(h[2]);
    lemma_nibbles_one(h[3]);
    lemma_nibbles_concat(a, b);
    lemma_nibbles_concat(a + b, c);
    lemma_nibbles_concat(a + b + c, d);
    assert(a + b + c + d =~= h);
    assert(nibbles(h) =~= ds);
}

proof fn lemma_nibbles_of_lines(ws: Seq<u16>)
    ensures
        nibbles(rom_lines(ws)) == words_digits(ws),
        forall|i: int| 0 <= i < rom_lines(ws).len() ==> #[trigger] rom_lines(ws)[i] != '}',
    decreases ws.len(),
{
    if ws.len() > 0 {
        let p = rom_lines(ws.drop_last());
        let h = hex4(ws.last());
        lemma_nibbles_of_lines(ws.drop_last());
        lemma_nibbles_of_word(ws.last());
        lemma_nibbles_concat(p, seq![' ', ' ']);
        lemma_nibbles_concat(p + seq![' ', ' '], h);
        lemma_nibbles_concat(p + seq![' ', ' '] + h, seq!['\n']);
        lemma_nibbles_one(' ');
        lemma_nibbles_one('\n');
        lemma_nibbles_concat(seq![' '], seq![' ']);
        assert(seq![' '] + seq![' '] =~= seq![' ', ' ']);
        assert(nibbles(rom_lines(ws)) =~= words_digits(ws));
        let l = rom_lines(ws);
        assert forall|i: int| 0 <= i < l.len() implies #[trigger] l[i] != '}' by {
            if i < p.len() {
                assert(l[i] == p[i]);
            } else if p.len() + 2 <= i < p.len() + 6 {
                let k = i - p.len() - 2;
                assert(l[i] == h[k]);
                let d: nat = if k == 0 {
                    (ws.last() / 0x1000) as nat
                } else if k == 1 {
                    ((ws.last() / 0x100) % 16) as nat
                } else if k == 2 {
                    ((ws.last() / 0x10) % 16) as nat
                } else {
                    (ws.last() % 16) as nat
                };
                assert(h[k] == digit_char(d));
                lemma_digit_char_value(d, 16);
            }
        }
    }
}

proof fn lemma_words_digits(ws: Seq<u16>)
    ensures
        words_digits(ws).len() == 4 * ws.len(),
        forall|i: int| 0 <= i < ws.len() ==> #[trigger] word_at(words_digits(ws), i) == ws[i],
    decreases ws.len(),
{
    if ws.len() > 0 {
        let p = ws.drop_last();
        lemma_words_digits(p);
        let n = words_digits(ws);
        assert forall|i: int| 0 <= i < ws.len() implies #[trigger] word_at(n, i) == ws[i] by {
            if i < p.len() {
                assert(n[4 * i] == words_digits(p)[4 * i]);
                assert(n[4 * i + 1] == words_digits(p)[4 * i + 1]);
                assert(n[4 * i + 2] == words_digits(p)[4 * i + 2]);
                assert(n[4 * i + 3] == words_digits(p)[4 * i + 3]);
                assert(word_at(words_digits(p), i) == p[i]);
            } else {
                let w = ws.last();
                assert(i == p.len());
                assert(n[4 * i] == (w / 0x1000) as u32);
                assert(n[4 * i + 1] == ((w / 0x100) % 16) as u32);
                assert(n[4 * i + 2] == ((w / 0x10) % 16) as u32);
                assert(n[4 * i + 3] == (w % 16) as u32);
                assert(((w / 0x1000) as u32 * 0x1000 + ((w / 0x100) % 16) as u32 * 0x100 + ((w / 0x10) % 16) as u32 * 0x10
                    + (w % 16) as u32) as u16 == w) by (bit_vector);
            }
        }
    }
}

proof fn lemma_pair_skip(s: Seq<char>, c: char, i: int, e: int)
    requires
        0 <= i <= e,
        e + 1 < s.len(),
        s[e] == c,
        s[e + 1] == c,
        forall|j: int| i <= j < e ==> #[trigger] s[j] != c,
    ensures
        pair_at(s, c, i) == e,
    decreases e - i,
{
    if i < e {
        lemma_pair_skip(s, c, i + 1, e);
    }
}

/// The ROM text of any word stream reads back as exactly that word stream, so
/// assembling a program and loading its ROM puts the assembled words in memory
/// from address 0.
pub proof fn lemma_rom_round_trip(ws: Seq<u16>)
    ensures
        rom_words(rom_block(ws)) == Ok::<Seq<u16>, RomError>(ws),
{
    let l = rom_lines(ws);
    let t = rom_block(ws);
    lemma_nibbles_of_lines(ws);
    lemma_words_digits(ws);
    let e = 3 + l.len() as int;
    assert(t[e] == '}' && t[e + 1] == '}');
    assert forall|j: int| 0 <= j < e implies #[trigger] t[j] != '}' by {
        if 3 <= j {
            assert(t[j] == l[j - 3]);
        }
    }
    lemma_pair_skip(t, '}', 0, e);
    assert(pair_at(t, '{', 0) == 0);
    let mid = t.subrange(2, e);
    assert(mid =~= seq!['\n'] + l);
    lemma_nibbles_concat(seq!['\n'], l);
    lemma_nibbles_one('\n');
    assert(seq!['\n'] + l =~= mid);
    assert(nibbles(mid) =~= words_digits(ws));
    let n = words_digits(ws);
    assert(n.len() % 4 == 0 && n.len() / 4 == ws.len()) by (nonlinear_arith)
        requires n.len() == 4 * ws.len();
    assert(Seq::new(n.len() / 4, |i: int| word_at(n, i)) =~= ws);
}

} // verus!
