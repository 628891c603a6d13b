//! Text formatting for the serial console. The hardware port itself is
//! not modelled: these functions compute the exact byte stream that the
//! transmitter should send, appending to a queue of pending bytes, with
//! the newline-to-carriage-return-line-feed translation serial terminals
//! expect.

use vstd::prelude::*;
use crate::numfmt::dec_bytes;
use crate::numfmt::dec_digits_bytes;
use crate::numfmt::hex8_bytes;
use crate::numfmt::hex_digit_byte;
use vstd::string::StringSliceAdditionalSpecFns;

verus! {

broadcast use vstd::string::group_string_axioms;

/// How one byte goes out on the line: a line feed is preceded by a
/// carriage return.
pub open spec fn crlf_one(b: u8) -> Seq<u8> {
    if b == 10 {
        seq![13u8, 10u8]
    } else {
        seq![b]
    }
}

/// A byte stream with every line feed preceded by a carriage return, as
/// `puts` writes it to a serial terminal.
pub open spec fn crlf_expand(bs: Seq<u8>) -> Seq<u8>
    decreases bs.len(),
{
    if bs.len() == 0 {
        Seq::empty()
    } else {
        crlf_one(bs[0]) + crlf_expand(bs.drop_first())
    }
}

/// Queue a single byte for transmission.
pub fn putc(tx: &mut Vec<u8>, c: u8)
    ensures
        final(tx)@ == old(tx)@.push(c),
{
    tx.push(c);
}

/// Queue a string: its UTF-8 bytes, with `\n` expanded to `\r\n`.
pub fn puts(tx: &mut Vec<u8>, s: &str)
    ensures
        final(tx)@ == old(tx)@ + crlf_expand(s.spec_bytes()),
{
    let bs = s.as_bytes();
    let n = bs.len();
    let mut i: usize = 0;
    while i < n
        invariant
            0 <= i <= n,
            n == bs@.len(),
            bs@ == s.spec_bytes(),
            tx@ == old(tx)@ + crlf_expand(bs@.take(i as int)),
        decreases n - i,
    {
        let b = bs[i];
        if b == 10 {
            tx.push(13);
        }
        tx.push(b);
        proof {
            lemma_crlf_expand_push(bs@.take(i as int), b);
            assert(bs@.take(i + 1) =~= bs@.take(i as int).push(b));
            assert(tx@ =~= old(tx)@ + crlf_expand(bs@.take(i + 1)));
        }
        i += 1;
    }
    proof {
        assert(bs@.take(n as int) =~= bs@);
    }
}

proof fn lemma_crlf_expand_push(bs: Seq<u8>, b: u8)
    ensures
        crlf_expand(bs.push(b)) == crlf_expand(bs) + crlf_one(b),
    decreases bs.len(),
{
    if bs.len() == 0 {
        assert(bs.push(b).len() == 1);
        assert(bs.push(b)[0] == b);
        assert(bs.push(b).drop_first() =~= Seq::<u8>::empty());
        assert(crlf_expand(bs.push(b).drop_first()) == Seq::<u8>::empty());
        assert(crlf_expand(bs) == Seq::<u8>::empty());
        assert(crlf_expand(bs.push(b)) == crlf_one(b) + Seq::<u8>::empty());
        assert(crlf_one(b) + Seq::<u8>::empty() =~= Seq::<u8>::empty() + crlf_one(b));
    } else {
        assert(bs.push(b)[0] == bs[0]);
        assert(bs.push(b).drop_first() =~= bs.drop_first().push(b));
        lemma_crlf_expand_push(bs.drop_first(), b);
        assert(crlf_expand(bs.push(b)) =~= crlf_expand(bs) + crlf_one(b));
    }
}

/// Queue the eight upper-case hexadecimal digits of a 32-bit word.
pub fn put_hex(tx: &mut Vec<u8>, val: u32)
    ensures
        final(tx)@ == old(tx)@ + hex8_bytes(val),
{
    let mut i: usize = 0;
    while i < 8
        invariant
            0 <= i <= 8,
            tx@ == old(tx)@ + hex8_bytes(val).take(i as int),
        decreases 8 - i,
    {
        let sh: u32 = ((7 - i) * 4) as u32;
        let nib: u32 = (val >> sh) & 0xF;
        assert((val >> sh) & 0xFu32 < 16) by (bit_vector);
        let b: u8 = if nib < 10 {
            (48 + nib) as u8
        } else {
            (55 + nib) as u8
        };
        tx.push(b);
        proof {
            assert(hex8_bytes(val).take(i + 1) =~= hex8_bytes(val).take(i as int).push(
                hex_digit_byte(nib as int),
            ));
            assert(tx@ =~= old(tx)@ + hex8_bytes(val).take(i + 1));
        }
        i += 1;
    }
    proof {
        assert(hex8_bytes(val).take(8) =~= hex8_bytes(val));
    }
}

fn push_dec_digits(tx: &mut Vec<u8>, v: u32)
    ensures
        final(tx)@ == old(tx)@ + dec_digits_bytes(v as nat),
    decreases v,
{
    if v < 10 {
        tx.push((48 + v) as u8);
        proof {
            assert(tx@ =~= old(tx)@ + dec_digits_bytes(v as nat));
        }
    } else {
        push_dec_digits(tx, v / 10);
        tx.push((48 + v % 10) as u8);
        proof {
            assert(tx@ =~= old(tx)@ + dec_digits_bytes(v as nat));
        }
    }
}

/// Queue the decimal digits of an unsigned 32-bit value.
pub fn put_dec(tx: &mut Vec<u8>, val: u32)
    ensures
        final(tx)@ == old(tx)@ + dec_bytes(val),
{
    push_dec_digits(tx, val);
}

/// The byte image of a signed decimal value: a `-` and the magnitude
/// when negative.
pub open spec fn i32_bytes(v: i32) -> Seq<u8> {
    if v < 0 {
        seq![45u8] + dec_bytes((-(v as int)) as u32)
    } else {
        dec_bytes(v as u32)
    }
}

/// Queue the decimal digits of a signed 32-bit value.
pub fn put_i32(tx: &mut Vec<u8>, val: i32)
    ensures
        final(tx)@ == old(tx)@ + i32_bytes(val),
{
    if val < 0 {
        putc(tx, 45);
        let mag: u32 = if val == i32::MIN {
            2147483648u32
        } else {
            (-val) as u32
        };
        put_dec(tx, mag);
        proof {
            assert(tx@ =~= old(tx)@ + i32_bytes(val));
        }
    } else {
        put_dec(tx, val as u32);
    }
}

} // verus!
