//! Digit classification and number formatting: the spec-level decimal and
//! hexadecimal images of integers, and executable formatters proved to
//! produce exactly those images. Error messages and the state summary are
//! specified with these functions.

use vstd::prelude::*;

verus! {

pub open spec fn is_dec_digit(c: char) -> bool {
    '0' as u32 <= c as u32 && c as u32 <= '9' as u32
}

pub open spec fn dec_digit_val(c: char) -> int {
    c as u32 - '0' as u32
}

pub open spec fn is_hex_digit(c: char) -> bool {
    is_dec_digit(c) || ('a' as u32 <= c as u32 && c as u32 <= 'f' as u32) || ('A' as u32 <= c
        as u32 && c as u32 <= 'F' as u32)
}

pub open spec fn hex_digit_val(c: char) -> int {
    if is_dec_digit(c) {
        dec_digit_val(c)
    } else if 'a' as u32 <= c as u32 && c as u32 <= 'f' as u32 {
        c as u32 - 'a' as u32 + 10
    } else {
        c as u32 - 'A' as u32 + 10
    }
}

pub open spec fn is_digit_in(c: char, base: int) -> bool {
    if base == 16 {
        is_hex_digit(c)
    } else {
        is_dec_digit(c)
    }
}

pub open spec fn digit_val_in(c: char, base: int) -> int {
    if base == 16 {
        hex_digit_val(c)
    } else {
        dec_digit_val(c)
    }
}

pub open spec fn all_digits_in(s: Seq<char>, base: int) -> bool {
    forall|k: int| 0 <= k < s.len() ==> is_digit_in(#[trigger] s[k], base)
}

/// Value of an unsigned digit string, most significant digit first.
pub open spec fn digits_val(s: Seq<char>, base: int) -> int
    decreases s.len(),
{
    if s.len() == 0 {
        0
    } else {
        digits_val(s.drop_last(), base) * base + digit_val_in(s.last(), base)
    }
}

pub proof fn lemma_digits_val_nonneg(s: Seq<char>, base: int)
    requires
        all_digits_in(s, base),
        base == 10 || base == 16,
    ensures
        digits_val(s, base) >= 0,
    decreases s.len(),
{
    if s.len() > 0 {
        assert(all_digits_in(s.drop_last(), base));
        lemma_digits_val_nonneg(s.drop_last(), base);
    }
}

/// Extending a digit string cannot decrease its value.
pub proof fn lemma_digits_val_prefix_le(s: Seq<char>, k: int, base: int)
    requires
        0 <= k <= s.len(),
        all_digits_in(s, base),
        base == 10 || base == 16,
    ensures
        digits_val(s.take(k), base) <= digits_val(s, base),
    decreases s.len() - k,
{
    if k == s.len() {
        assert(s.take(k) =~= s);
    } else {
        assert(s.take(k + 1).drop_last() =~= s.take(k));
        assert(all_digits_in(s.take(k), base));
        lemma_digits_val_nonneg(s.take(k), base);
        assert(digits_val(s.take(k + 1), base) == digits_val(s.take(k), base) * base
            + digit_val_in(s[k], base));
        lemma_digits_val_prefix_le(s, k + 1, base);
    }
}

/// Classify one character as a digit of the given base and give its value.
pub fn digit_val_c(c: char, base: u64) -> (r: Option<u64>)
    requires
        base == 10 || base == 16,
    ensures
        match r {
            Some(v) => is_digit_in(c, base as int) && v == digit_val_in(c, base as int) && v < base,
            None => !is_digit_in(c, base as int),
        },
{
    let u = c as u32;
    if '0' as u32 <= u && u <= '9' as u32 {
        Some((u - '0' as u32) as u64)
    } else if base == 16 && 'a' as u32 <= u && u <= 'f' as u32 {
        Some((u - 'a' as u32 + 10) as u64)
    } else if base == 16 && 'A' as u32 <= u && u <= 'F' as u32 {
        Some((u - 'A' as u32 + 10) as u64)
    } else {
        None
    }
}

/// The digit character for a value below ten.
pub open spec fn dec_digit_char(d: int) -> char {
    if d == 0 {
        '0'
    } else if d == 1 {
        '1'
    } else if d == 2 {
        '2'
    } else if d == 3 {
        '3'
    } else if d == 4 {
        '4'
    } else if d == 5 {
        '5'
    } else if d == 6 {
        '6'
    } else if d == 7 {
        '7'
    } else if d == 8 {
        '8'
    } else {
        '9'
    }
}

/// The digit character for a value below sixteen, upper case.
pub open spec fn hex_digit_char(d: int) -> char {
    if d < 10 {
        dec_digit_char(d)
    } else if d == 10 {
        'A'
    } else if d == 11 {
        'B'
    } else if d == 12 {
        'C'
    } else if d == 13 {
        'D'
    } else if d == 14 {
        'E'
    } else {
        'F'
    }
}

/// Decimal image of a natural number, without leading zeros (`0` is "0").
pub open spec fn dec_nat_chars(n: nat) -> Seq<char>
    decreases n,
{
    if n < 10 {
        seq![dec_digit_char(n as int)]
    } else {
        dec_nat_chars(n / 10).push(dec_digit_char((n % 10) as int))
    }
}

/// Decimal image of an integer, with a sign for negative values.
pub open spec fn dec_int_chars(v: int) -> Seq<char> {
    if v < 0 {
        seq!['-'] + dec_nat_chars((-v) as nat)
    } else {
        dec_nat_chars(v as nat)
    }
}

/// Upper-case hexadecimal image of a natural number, without leading
/// zeros, as `{:X}` formats it.
pub open spec fn hex_nat_chars(n: nat) -> Seq<char>
    decreases n,
{
    if n < 16 {
        seq![hex_digit_char(n as int)]
    } else {
        hex_nat_chars(n / 16).push(hex_digit_char((n % 16) as int))
    }
}

/// Eight-digit upper-case hexadecimal image of a 32-bit word, as `{:08X}`
/// formats it.
pub open spec fn hex8_chars(v: u32) -> Seq<char> {
    Seq::new(8, |i: int| hex_digit_char(((v >> ((7 - i) * 4) as u32) & 0xF) as int))
}

// ───────────────────────── byte-level digit images ──────────────────────

/// The decimal digit bytes of a positive value, most significant first.
pub open spec fn dec_digits_bytes(v: nat) -> Seq<u8>
    decreases v,
{
    if v < 10 {
        seq![(48 + v) as u8]
    } else {
        dec_digits_bytes(v / 10).push((48 + v % 10) as u8)
    }
}

/// The decimal byte image of a 32-bit value (`0` is the single byte
/// `b'0'`).
pub open spec fn dec_bytes(v: u32) -> Seq<u8> {
    dec_digits_bytes(v as nat)
}

pub open spec fn hex_digit_byte(d: int) -> u8 {
    if d < 10 {
        (48 + d) as u8
    } else {
        (55 + d) as u8
    }
}

/// The eight upper-case hexadecimal digit bytes of a 32-bit word.
pub open spec fn hex8_bytes(v: u32) -> Seq<u8> {
    Seq::new(8, |i: int| hex_digit_byte(((v >> ((7 - i) * 4) as u32) & 0xF) as int))
}

// ───────────────────────── byte-level digit parsing ─────────────────────

pub open spec fn is_digit_b(b: u8, base: int) -> bool {
    (48 <= b && b <= 57) || (base == 16 && ((97 <= b && b <= 102) || (65 <= b && b <= 70)))
}

pub open spec fn digit_val_b(b: u8, base: int) -> int {
    if 48 <= b && b <= 57 {
        b - 48
    } else if 97 <= b && b <= 102 {
        b - 87
    } else {
        b - 55
    }
}

pub open spec fn all_digits_b(bs: Seq<u8>, base: int) -> bool {
    forall|k: int| 0 <= k < bs.len() ==> is_digit_b(#[trigger] bs[k], base)
}

/// Value of an unsigned digit byte string, most significant first.
pub open spec fn digits_val_b(bs: Seq<u8>, base: int) -> int
    decreases bs.len(),
{
    if bs.len() == 0 {
        0
    } else {
        digits_val_b(bs.drop_last(), base) * base + digit_val_b(bs.last(), base)
    }
}

pub proof fn lemma_digits_val_b_nonneg(bs: Seq<u8>, base: int)
    requires
        all_digits_b(bs, base),
        base == 10 || base == 16,
    ensures
        digits_val_b(bs, base) >= 0,
    decreases bs.len(),
{
    if bs.len() > 0 {
        assert(all_digits_b(bs.drop_last(), base));
        lemma_digits_val_b_nonneg(bs.drop_last(), base);
    }
}

pub proof fn lemma_digits_val_b_prefix_le(bs: Seq<u8>, k: int, base: int)
    requires
        0 <= k <= bs.len(),
        all_digits_b(bs, base),
        base == 10 || base == 16,
    ensures
        digits_val_b(bs.take(k), base) <= digits_val_b(bs, base),
    decreases bs.len() - k,
{
    if k == bs.len() {
        assert(bs.take(k) =~= bs);
    } else {
        assert(bs.take(k + 1).drop_last() =~= bs.take(k));
        assert(all_digits_b(bs.take(k), base));
        lemma_digits_val_b_nonneg(bs.take(k), base);
        assert(digits_val_b(bs.take(k + 1), base) == digits_val_b(bs.take(k), base) * base
            + digit_val_b(bs[k], base));
        lemma_digits_val_b_prefix_le(bs, k + 1, base);
    }
}

pub open spec fn pow16(n: nat) -> int
    decreases n,
{
    if n == 0 {
        1
    } else {
        16 * pow16((n - 1) as nat)
    }
}

/// A hexadecimal digit string's value is below 16 to its length.
pub proof fn lemma_hex_digits_bound(bs: Seq<u8>)
    requires
        all_digits_b(bs, 16),
    ensures
        0 <= digits_val_b(bs, 16) < pow16(bs.len()),
    decreases bs.len(),
{
    if bs.len() == 0 {
    } else {
        assert(all_digits_b(bs.drop_last(), 16));
        lemma_hex_digits_bound(bs.drop_last());
        assert(digit_val_b(bs.last(), 16) <= 15);
    }
}

/// Classify one byte as a digit of the given base and give its value.
pub fn digit_val_b_c(b: u8, base: u64) -> (r: Option<u64>)
    requires
        base == 10 || base == 16,
    ensures
        match r {
            Some(v) => is_digit_b(b, base as int) && v as int == digit_val_b(b, base as int) && v
                < base,
            None => !is_digit_b(b, base as int),
        },
{
    if 48 <= b && b <= 57 {
        Some((b - 48) as u64)
    } else if base == 16 && 97 <= b && b <= 102 {
        Some((b - 87) as u64)
    } else if base == 16 && 65 <= b && b <= 70 {
        Some((b - 55) as u64)
    } else {
        None
    }
}

fn dec_digit_str(d: u64) -> (r: &'static str)
    requires
        d < 10,
    ensures
        r@ =~= seq![dec_digit_char(d as int)],
{
    if d == 0 {
        proof { reveal_strlit("0"); }
        "0"
    } else if d == 1 {
        proof { reveal_strlit("1"); }
        "1"
    } else if d == 2 {
        proof { reveal_strlit("2"); }
        "2"
    } else if d == 3 {
        proof { reveal_strlit("3"); }
        "3"
    } else if d == 4 {
        proof { reveal_strlit("4"); }
        "4"
    } else if d == 5 {
        proof { reveal_strlit("5"); }
        "5"
    } else if d == 6 {
        proof { reveal_strlit("6"); }
        "6"
    } else if d == 7 {
        proof { reveal_strlit("7"); }
        "7"
    } else if d == 8 {
        proof { reveal_strlit("8"); }
        "8"
    } else {
        proof { reveal_strlit("9"); }
        "9"
    }
}

fn hex_digit_str(d: u64) -> (r: &'static str)
    requires
        d < 16,
    ensures
        r@ =~= seq![hex_digit_char(d as int)],
{
    if d < 10 {
        dec_digit_str(d)
    } else if d == 10 {
        proof { reveal_strlit("A"); }
        "A"
    } else if d == 11 {
        proof { reveal_strlit("B"); }
        "B"
    } else if d == 12 {
        proof { reveal_strlit("C"); }
        "C"
    } else if d == 13 {
        proof { reveal_strlit("D"); }
        "D"
    } else if d == 14 {
        proof { reveal_strlit("E"); }
        "E"
    } else {
        proof { reveal_strlit("F"); }
        "F"
    }
}

/// Decimal rendering of an unsigned value.
pub fn dec_string(n: u64) -> (r: String)
    ensures
        r@ == dec_nat_chars(n as nat),
    decreases n,
{
    if n < 10 {
        let mut r = String::new();
        r.append(dec_digit_str(n));
        proof {
            assert(r@ =~= dec_nat_chars(n as nat));
        }
        r
    } else {
        let mut r = dec_string(n / 10);
        r.append(dec_digit_str(n % 10));
        proof {
            assert(r@ =~= dec_nat_chars(n as nat));
        }
        r
    }
}

/// Upper-case hexadecimal rendering of an unsigned value, no leading zeros.
pub fn hex_string(n: u64) -> (r: String)
    ensures
        r@ == hex_nat_chars(n as nat),
    decreases n,
{
    if n < 16 {
        let mut r = String::new();
        r.append(hex_digit_str(n));
        proof {
            assert(r@ =~= hex_nat_chars(n as nat));
        }
        r
    } else {
        let mut r = hex_string(n / 16);
        r.append(hex_digit_str(n % 16));
        proof {
            assert(r@ =~= hex_nat_chars(n as nat));
        }
        r
    }
}

/// Decimal rendering of a signed value, with a leading `-` when negative.
pub fn dec_i64_string(v: i64) -> (r: String)
    ensures
        r@ == dec_int_chars(v as int),
{
    if v >= 0 {
        dec_string(v as u64)
    } else {
        let mag: u64 = if v == i64::MIN {
            9223372036854775808u64
        } else {
            (-v) as u64
        };
        assert(mag as int == -(v as int));
        let mut r = String::new();
        proof { reveal_strlit("-"); }
        r.append("-");
        let digits = dec_string(mag);
        r.append(digits.as_str());
        proof {
            assert("-"@ =~= seq!['-']);
            assert(r@ =~= dec_int_chars(v as int));
        }
        r
    }
}

/// Eight-digit upper-case hexadecimal rendering of a 32-bit word.
pub fn hex8_string(v: u32) -> (r: String)
    ensures
        r@ == hex8_chars(v),
{
    let mut r = String::new();
    let mut i: usize = 0;
    while i < 8
        invariant
            0 <= i <= 8,
            r@ =~= hex8_chars(v).take(i as int),
        decreases 8 - i,
    {
        let sh: u32 = ((7 - i) * 4) as u32;
        assert(sh < 32);
        let nib: u32 = (v >> sh) & 0xF;
        assert((v >> sh) & 0xFu32 < 16) by (bit_vector);
        r.append(hex_digit_str(nib as u64));
        proof {
            assert(hex8_chars(v).take(i + 1) =~= hex8_chars(v).take(i as int).push(
                hex_digit_char(nib as int),
            ));
        }
        i += 1;
    }
    proof {
        assert(hex8_chars(v).take(8) =~= hex8_chars(v));
    }
    r
}

} // verus!
