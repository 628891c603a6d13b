//! The keyboard's set-1 scancode table: the pure mapping from a make
//! code to the character it produces, separated from the port that
//! delivers the codes.

use vstd::prelude::*;

verus! {

/// The character for a make code, if the key produces one.
pub open spec fn scancode_char(scancode: u8) -> Option<char> {
    if scancode == 0x02 {
        Some('1')
    } else if scancode == 0x03 {
        Some('2')
    } else if scancode == 0x04 {
        Some('3')
    } else if scancode == 0x05 {
        Some('4')
    } else if scancode == 0x06 {
        Some('5')
    } else if scancode == 0x07 {
        Some('6')
    } else if scancode == 0x08 {
        Some('7')
    } else if scancode == 0x09 {
        Some('8')
    } else if scancode == 0x0a {
        Some('9')
    } else if scancode == 0x0b {
        Some('0')
    } else if scancode == 0x10 {
        Some('q')
    } else if scancode == 0x11 {
        Some('w')
    } else if scancode == 0x12 {
        Some('e')
    } else if scancode == 0x13 {
        Some('r')
    } else if scancode == 0x14 {
        Some('t')
    } else if scancode == 0x15 {
        Some('y')
    } else if scancode == 0x16 {
        Some('u')
    } else if scancode == 0x17 {
        Some('i')
    } else if scancode == 0x18 {
        Some('o')
    } else if scancode == 0x19 {
        Some('p')
    } else if scancode == 0x1e {
        Some('a')
    } else if scancode == 0x1f {
        Some('s')
    } else if scancode == 0x20 {
        Some('d')
    } else if scancode == 0x21 {
        Some('f')
    } else if scancode == 0x22 {
        Some('g')
    } else if scancode == 0x23 {
        Some('h')
    } else if scancode == 0x24 {
        Some('j')
    } else if scancode == 0x25 {
        Some('k')
    } else if scancode == 0x26 {
        Some('l')
    } else if scancode == 0x2c {
        Some('z')
    } else if scancode == 0x2d {
        Some('x')
    } else if scancode == 0x2e {
        Some('c')
    } else if scancode == 0x2f {
        Some('v')
    } else if scancode == 0x30 {
        Some('b')
    } else if scancode == 0x31 {
        Some('n')
    } else if scancode == 0x32 {
        Some('m')
    } else if scancode == 0x39 {
        Some(' ')
    } else if scancode == 0x1c {
        Some('\n')
    } else if scancode == 0x0e {
        Some('\u{8}')
    } else if scancode == 0x0c {
        Some('-')
    } else if scancode == 0x0d {
        Some('=')
    } else if scancode == 0x27 {
        Some(';')
    } else if scancode == 0x28 {
        Some('\'')
    } else if scancode == 0x33 {
        Some(',')
    } else if scancode == 0x34 {
        Some('.')
    } else if scancode == 0x35 {
        Some('/')
    } else {
        None
    }
}

/// Map a make code to its character; break codes and unmapped keys
/// yield nothing.
pub fn map_scancode(scancode: u8) -> (r: Option<char>)
    ensures
        r == scancode_char(scancode),
{
    let c = match scancode {
        0x02 => '1',
        0x03 => '2',
        0x04 => '3',
        0x05 => '4',
        0x06 => '5',
        0x07 => '6',
        0x08 => '7',
        0x09 => '8',
        0x0a => '9',
        0x0b => '0',
        0x10 => 'q',
        0x11 => 'w',
        0x12 => 'e',
        0x13 => 'r',
        0x14 => 't',
        0x15 => 'y',
        0x16 => 'u',
        0x17 => 'i',
        0x18 => 'o',
        0x19 => 'p',
        0x1e => 'a',
        0x1f => 's',
        0x20 => 'd',
        0x21 => 'f',
        0x22 => 'g',
        0x23 => 'h',
        0x24 => 'j',
        0x25 => 'k',
        0x26 => 'l',
        0x2c => 'z',
        0x2d => 'x',
        0x2e => 'c',
        0x2f => 'v',
        0x30 => 'b',
        0x31 => 'n',
        0x32 => 'm',
        0x39 => ' ',
        0x1c => '\n',
        0x0e => '\u{8}',
        0x0c => '-',
        0x0d => '=',
        0x27 => ';',
        0x28 => '\'',
        0x33 => ',',
        0x34 => '.',
        0x35 => '/',
        _ => {
            return None;
        },
    };
    Some(c)
}

} // verus!
