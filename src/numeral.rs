//! Numerals (hexadecimal with a `0x` prefix, or decimal) and register names.

use vstd::prelude::*;
use crate::error::AsmError;
use crate::text::chars_of;

verus! {

/// The value of `c` as a digit in base `radix` (10 or 16), if it is one.
pub open spec fn digit_value(c: char, radix: u32) -> Option<u32> {
    if '0' <= c && c <= '9' {
        Some((c as u32 - '0' as u32) as u32)
    } else if radix == 16 && 'a' <= c && c <= 'f' {
        Some((c as u32 - 'a' as u32 + 10) as u32)
    } else if radix == 16 && 'A' <= c && c <= 'F' {
        Some((c as u32 - 'A' as u32 + 10) as u32)
    } else {
        None
    }
}

/// Every character of `s` is a digit in base `radix`.
pub open spec fn all_digits(s: Seq<char>, radix: u32) -> bool {
    forall|i: int| 0 <= i < s.len() ==> (#[trigger] digit_value(s[i], radix)) is Some
}

/// The number that the digits `s` write in base `radix`, most significant first.
pub open spec fn digits_value(s: Seq<char>, radix: u32) -> nat
    decreases s.len(),
{
    if s.len() == 0 {
        0
    } else {
        digits_value(s.drop_last(), radix) * radix as nat + digit_value(s.last(), radix)->0 as nat
    }
}

/// The digits of a token and their base: after a `0x` prefix base 16, else base 10.
pub open spec fn numeral_parts(t: Seq<char>) -> (Seq<char>, u32) {
    if t.len() >= 2 && t[0] == '0' && t[1] == 'x' {
        (t.skip(2), 16)
    } else {
        (t, 10)
    }
}

/// What a token means as a numeral.
pub open spec fn numeral(t: Seq<char>) -> Result<u16, AsmError> {
    let (ds, radix) = numeral_parts(t);
    if ds.len() == 0 || !all_digits(ds, radix) {
        Err(AsmError::InvalidNumber)
    } else if digits_value(ds, radix) > 0xFFFF {
        Err(AsmError::ConstantTooLarge)
    } else {
        Ok(digits_value(ds, radix) as u16)
    }
}

/// The register that a name stands for, by its index in the order A, B, C, X, Y, Z, I, J.
pub open spec fn reg_index(c: char) -> Option<u16> {
    if c == 'A' {
        Some(0)
    } else if c == 'B' {
        Some(1)
    } else if c == 'C' {
        Some(2)
    } else if c == 'X' {
        Some(3)
    } else if c == 'Y' {
        Some(4)
    } else if c == 'Z' {
        Some(5)
    } else if c == 'I' {
        Some(6)
    } else if c == 'J' {
        Some(7)
    } else {
        None
    }
}

/// The register names, in index order.
pub open spec fn register_names() -> Seq<char> {
    seq!['A', 'B', 'C', 'X', 'Y', 'Z', 'I', 'J']
}

/// Each of the eight register names reads as its position in the order
/// A, B, C, X, Y, Z, I, J, and no other character names a register.
pub proof fn lemma_register_order(c: char)
    ensures
        forall|i: int| 0 <= i < 8 ==> reg_index(#[trigger] register_names()[i]) == Some(i as u16),
        !register_names().contains(c) ==> reg_index(c) is None,
{
    let names = register_names();
    assert(names[0] == 'A' && names[1] == 'B' && names[2] == 'C' && names[3] == 'X');
    assert(names[4] == 'Y' && names[5] == 'Z' && names[6] == 'I' && names[7] == 'J');
    if reg_index(c) is Some {
        let k = reg_index(c)->0 as int;
        assert(names[k] == c);
    }
}

/// The lower-case character for a digit below sixteen.
pub open spec fn digit_char(d: nat) -> char {
    seq!['0', '1', '2', '3', '4', '5', '6', '7', '8', '9', 'a', 'b', 'c', 'd', 'e', 'f'][d as int]
}

/// The digits of `n` in base `radix`, most significant first, without leading zeros.
pub open spec fn digits_of(n: nat, radix: nat) -> Seq<char>
    decreases n
    via digits_of_decreases
{
    if radix < 2 || n < radix {
        seq![digit_char(n)]
    } else {
        digits_of(n / radix, radix).push(digit_char(n % radix))
    }
}

#[via_fn]
proof fn digits_of_decreases(n: nat, radix: nat) {
    if !(radix < 2 || n < radix) {
        assert(n / radix < n) by (nonlinear_arith)
            requires
                radix >= 2,
                n >= radix,
        ;
    }
}

/// `n` written in hexadecimal with the `0x` prefix.
pub open spec fn hex_numeral(n: nat) -> Seq<char> {
    seq!['0', 'x'] + digits_of(n, 16)
}

/// `n` written in decimal.
pub open spec fn decimal_numeral(n: nat) -> Seq<char> {
    digits_of(n, 10)
}

/// The value of `c` as a digit in base `radix`, if it is one.
pub fn digit_of(c: char, radix: u32) -> (r: Option<u32>)
    ensures
        r == digit_value(c, radix),
{
    if '0' <= c && c <= '9' {
        Some(c as u32 - '0' as u32)
    } else if radix == 16 && 'a' <= c && c <= 'f' {
        Some(c as u32 - 'a' as u32 + 10)
    } else if radix == 16 && 'A' <= c && c <= 'F' {
        Some(c as u32 - 'A' as u32 + 10)
    } else {
        None
    }
}

/// Reads a token as a numeral: base 16 after a `0x` prefix, base 10 otherwise.
pub fn parse_num_chars(t: &Vec<char>) -> (r: Result<u16, AsmError>)
    ensures
        r == numeral(t@),
{
    let hex = t.len() >= 2 && t[0] == '0' && t[1] == 'x';
    let start: usize = if hex { 2 } else { 0 };
    let radix: u32 = if hex { 16 } else { 10 };
    let ghost ds = numeral_parts(t@).0;
    assert(ds =~= t@.skip(start as int));
    if start == t.len() {
        return Err(AsmError::InvalidNumber);
    }
    let mut acc: u32 = 0;
    let mut big = false;
    let mut k = start;
    while k < t.len()
        invariant
            start <= k <= t@.len(),
            ds == t@.skip(start as int),
            ds == numeral_parts(t@).0,
            radix == numeral_parts(t@).1,
            radix == 10 || radix == 16,
            all_digits(ds.take(k - start), radix),
            big ==> digits_value(ds.take(k - start), radix) > 0xFFFF,
            !big ==> acc == digits_value(ds.take(k - start), radix) && acc <= 0xFFFF,
        decreases t@.len() - k,
    {
        let ghost prev = ds.take(k - start);
        let ghost next = ds.take(k + 1 - start);
        assert(next.drop_last() =~= prev);
        assert(next.last() == t@[k as int]);
        match digit_of(t[k], radix) {
            None => {
                assert(ds[k - start] == t@[k as int]);
                assert(!(digit_value(ds[k - start], radix) is Some));
                assert(!all_digits(ds, radix));
                return Err(AsmError::InvalidNumber);
            },
            Some(d) => {
                assert(all_digits(next, radix)) by {
                    assert forall|i: int| 0 <= i < next.len() implies (#[trigger] digit_value(next[i], radix)) is Some by {
                        if i < prev.len() {
                            assert(next[i] == prev[i]);
                        }
                    }
                }
                let ghost v = digits_value(prev, radix);
                if big {
                    assert(v * radix as nat + d as nat >= v) by (nonlinear_arith)
                        requires radix >= 1;
                } else {
                    assert(acc * radix + d <= 0xFFFF * 16 + 15) by (nonlinear_arith)
                        requires acc <= 0xFFFF, radix <= 16, d < 16;
                    acc = acc * radix + d;
                    if acc > 0xFFFF {
                        big = true;
                    }
                }
            },
        }
        k = k + 1;
    }
    assert(ds.take(k - start) =~= ds);
    if big {
        Err(AsmError::ConstantTooLarge)
    } else {
        Ok(acc as u16)
    }
}

/// Reads a token as a numeral: base 16 after a `0x` prefix, base 10 otherwise.
/// An empty token, or one with a character that is no digit of its base, is an
/// `InvalidNumber`; a value above 0xFFFF is a `ConstantTooLarge`.
pub fn parse_num(p: &str) -> (r: Result<u16, AsmError>)
    ensures
        r == numeral(p@),
{
    parse_num_chars(&chars_of(p))
}

/// The index of the register that `c` names.
pub fn parse_reg(c: char) -> (r: Result<u16, AsmError>)
    ensures
        r == (match reg_index(c) {
            Some(i) => Ok(i),
            None => Err(AsmError::InvalidRegisterName),
        }),
        r is Ok ==> r->Ok_0 < 8,
{
    match c {
        'A' => Ok(0),
        'B' => Ok(1),
        'C' => Ok(2),
        'X' => Ok(3),
        'Y' => Ok(4),
        'Z' => Ok(5),
        'I' => Ok(6),
        'J' => Ok(7),
        _ => Err(AsmError::InvalidRegisterName),
    }
}

/// The lower-case character for a digit below sixteen.
pub fn digit_char_of(d: u32) -> (r: char)
    requires
        d < 16,
    ensures
        r == digit_char(d as nat),
{
    let table: [char; 16] = ['0', '1', '2', '3', '4', '5', '6', '7', '8', '9', 'a', 'b', 'c', 'd', 'e', 'f'];
    assert(table@ =~= seq!['0', '1', '2', '3', '4', '5', '6', '7', '8', '9', 'a', 'b', 'c', 'd', 'e', 'f']);
    table[d as usize]
}

/// `w` as exactly four lower-case hexadecimal digits, zero-padded.
pub open spec fn hex4(w: u16) -> Seq<char> {
    seq![
        digit_char((w / 0x1000) as nat),
        digit_char(((w / 0x100) % 16) as nat),
        digit_char(((w / 0x10) % 16) as nat),
        digit_char((w % 16) as nat),
    ]
}

/// `w` as exactly four lower-case hexadecimal digits, zero-padded.
pub fn word_hex(w: u16) -> (r: Vec<char>)
    ensures
        r@ == hex4(w),
{
    let mut r: Vec<char> = Vec::new();
    r.push(digit_char_of((w / 0x1000) as u32));
    r.push(digit_char_of(((w / 0x100) % 16) as u32));
    r.push(digit_char_of(((w / 0x10) % 16) as u32));
    r.push(digit_char_of((w % 16) as u32));
    assert(r@ =~= hex4(w));
    r
}

/// `n` in decimal, without leading zeros.
pub fn decimal(n: u64) -> (r: Vec<char>)
    ensures
        r@ == decimal_numeral(n as nat),
    decreases n,
{
    if n < 10 {
        let mut r: Vec<char> = Vec::new();
        r.push(digit_char_of(n as u32));
        r
    } else {
        let mut r = decimal(n / 10);
        r.push(digit_char_of((n % 10) as u32));
        r
    }
}

/// A decimal digit or a lower-case hex digit.
pub open spec fn plain_digit(c: char) -> bool {
    ('0' <= c && c <= '9') || ('a' <= c && c <= 'f')
}

/// A rendered digit reads back as its value, and is a plain digit.
pub proof fn lemma_digit_char_value(d: nat, radix: u32)
    requires
        d < radix,
        radix == 10 || radix == 16,
    ensures
        digit_value(digit_char(d), radix) == Some(d as u32),
        plain_digit(digit_char(d)),
{
}

/// The digits of `n` are plain digits of the base, at least one, and read back as `n`.
pub proof fn lemma_digits_of(n: nat, radix: u32)
    requires
        radix == 10 || radix == 16,
    ensures
        digits_of(n, radix as nat).len() >= 1,
        all_digits(digits_of(n, radix as nat), radix),
        digits_value(digits_of(n, radix as nat), radix) == n,
        forall|i: int| 0 <= i < digits_of(n, radix as nat).len() ==> plain_digit(#[trigger] digits_of(n, radix as nat)[i]),
    decreases n,
{
    let s = digits_of(n, radix as nat);
    if n < radix {
        lemma_digit_char_value(n, radix);
        assert(s.drop_last() =~= Seq::<char>::empty());
        assert(digits_value(s.drop_last(), radix) == 0);
        assert(digits_value(s, radix) == 0 * radix as nat + n);
    } else {
        let q = n / radix as nat;
        let m = n % radix as nat;
        assert(q < n && m < radix && q * radix + m == n) by (nonlinear_arith)
            requires radix >= 2, n >= radix, q == n / radix as nat, m == n % radix as nat;
        lemma_digits_of(q, radix);
        lemma_digit_char_value(m, radix);
        let p = digits_of(q, radix as nat);
        assert(s.drop_last() =~= p);
        assert(s.last() == digit_char(m));
        assert(digits_value(s, radix) == q * radix as nat + m);
        assert(all_digits(s, radix)) by {
            assert forall|i: int| 0 <= i < s.len() implies (#[trigger] digit_value(s[i], radix)) is Some by {
                if i < p.len() {
                    assert(s[i] == p[i]);
                }
            }
        }
        assert forall|i: int| 0 <= i < s.len() implies plain_digit(#[trigger] s[i]) by {
            if i < p.len() {
                assert(s[i] == p[i]);
            }
        }
    }
}

/// Writing a number as a numeral and reading it back gives the number, in hexadecimal
/// and in decimal, for every value up to 0xFFFF; above that, reading fails with
/// `ConstantTooLarge`. A token without the `0x` prefix that holds a character other
/// than a decimal digit fails with `InvalidNumber`.
pub proof fn lemma_numeral_round_trip(n: nat, t: Seq<char>)
    ensures
        n <= 0xFFFF ==> numeral(hex_numeral(n)) == Ok::<u16, AsmError>(n as u16),
        n <= 0xFFFF ==> numeral(decimal_numeral(n)) == Ok::<u16, AsmError>(n as u16),
        n > 0xFFFF ==> numeral(hex_numeral(n)) == Err::<u16, AsmError>(AsmError::ConstantTooLarge),
        n > 0xFFFF ==> numeral(decimal_numeral(n)) == Err::<u16, AsmError>(AsmError::ConstantTooLarge),
        numeral_parts(t).1 == 10 && (exists|i: int| 0 <= i < t.len() && !('0' <= #[trigger] t[i] <= '9'))
            ==> numeral(t) == Err::<u16, AsmError>(AsmError::InvalidNumber),
{
    lemma_digits_of(n, 16);
    lemma_digits_of(n, 10);
    let h = hex_numeral(n);
    assert(h.skip(2) =~= digits_of(n, 16));
    let d = decimal_numeral(n);
    if d.len() >= 2 {
        assert(digit_value(d[1], 10) is Some);
    }
    if numeral_parts(t).1 == 10 && (exists|i: int| 0 <= i < t.len() && !('0' <= #[trigger] t[i] <= '9')) {
        let i = choose|i: int| 0 <= i < t.len() && !('0' <= #[trigger] t[i] <= '9');
        assert(!(digit_value(t[i], 10) is Some));
    }
}

} // verus!
