//! The interactive shell's decisions, separated from the hardware that
//! carries them: command tokenisation and dispatch, the built-in
//! utilities, number parsing, and the per-keystroke line-editing rule.
//! Output is computed as the exact byte stream for the console; a memory
//! probe is returned as a request for the driver to perform.

use vstd::prelude::*;
use crate::numfmt::all_digits_b;
use crate::numfmt::digit_val_b;
use crate::numfmt::digit_val_b_c;
use crate::numfmt::digits_val_b;
use crate::numfmt::hex8_bytes;
use crate::numfmt::is_digit_b;
use crate::numfmt::lemma_digits_val_b_prefix_le;
use crate::numfmt::lemma_hex_digits_bound;
use crate::numfmt::pow16;
use crate::text::find_ws_at;
use crate::text::find_ws_from;
use crate::text::is_ws_c;
use crate::text::lemma_find_ws_le;
use crate::text::lemma_ws_prefix_len;
use crate::text::is_ws;
use crate::text::spec_trim;
use crate::text::trim_str;
use crate::text::ws_prefix_len;
use crate::uart::crlf_expand;
use crate::uart::i32_bytes;
use crate::uart::put_dec;
use crate::uart::put_hex;
use crate::uart::put_i32;
use crate::uart::putc;
use crate::uart::puts;
use vstd::string::StringExecFns;
use vstd::string::StrSliceExecFns;
use vstd::string::StringSliceAdditionalSpecFns;
use vstd::utf8::encode_utf8;

verus! {

broadcast use vstd::string::group_string_axioms;

/// What a piece of text looks like on the serial console: its UTF-8
/// bytes with the carriage-return expansion.
pub open spec fn emit(s: Seq<char>) -> Seq<u8> {
    crlf_expand(encode_utf8(s))
}

// ───────────────────────── tokenisation ─────────────────────────────────

/// The whitespace-separated words of a text, as `split_whitespace`
/// yields them.
pub open spec fn split_ws(s: Seq<char>) -> Seq<Seq<char>>
    decreases s.len(),
    via split_ws_dec
{
    let r = s.skip(ws_prefix_len(s) as int);
    if r.len() == 0 {
        Seq::empty()
    } else {
        let k = find_ws_at(r);
        seq![r.take(k as int)] + split_ws(r.skip(k as int))
    }
}

#[via_fn]
proof fn split_ws_dec(s: Seq<char>) {
    crate::text::lemma_ws_prefix_stop(s);
    let r = s.skip(ws_prefix_len(s) as int);
    if r.len() > 0 {
        lemma_find_ws_le(r);
        assert(r[0] == s[ws_prefix_len(s) as int]);
        assert(!is_ws(r[0]));
        assert(find_ws_at(r) >= 1);
    }
}

/// Collect the whitespace-separated words of a string.
fn tokenize(s: &str) -> (v: Vec<String>)
    ensures
        v.deep_view() == split_ws(s@),
{
    let n = s.unicode_len();
    let mut v: Vec<String> = Vec::new();
    let mut pos: usize = 0;
    let ghost total = split_ws(s@);
    proof {
        assert(v.deep_view() =~= Seq::<Seq<char>>::empty());
        assert(s@.skip(0) =~= s@);
    }
    while pos < n
        invariant
            0 <= pos <= n,
            n == s@.len(),
            total == split_ws(s@),
            v.deep_view() + split_ws(s@.skip(pos as int)) =~= total,
        decreases n - pos,
    {
        let ghost sub = s@.skip(pos as int);
        let mut q: usize = pos;
        while q < n && is_ws_c(s.get_char(q))
            invariant
                pos <= q <= n,
                n == s@.len(),
                forall|j: int| pos <= j < q ==> is_ws(s@[j]),
            decreases n - q,
        {
            q += 1;
        }
        proof {
            assert(forall|j: int| 0 <= j < q - pos ==> is_ws(sub[j]));
            lemma_ws_prefix_len(sub, q - pos);
        }
        if q == n {
            proof {
                assert(sub.skip(ws_prefix_len(sub) as int) =~= s@.skip(q as int));
                assert(s@.skip(n as int).len() == 0);
                assert(split_ws(sub) =~= Seq::<Seq<char>>::empty());
                assert(v.deep_view() =~= total);
            }
            return v;
        }
        let k = find_ws_from(s, q);
        let tok = String::from_str(s.substring_char(q, k));
        let ghost before = v.deep_view();
        v.push(tok);
        proof {
            let r = sub.skip(ws_prefix_len(sub) as int);
            assert(r =~= s@.skip(q as int));
            assert(r.take(find_ws_at(r) as int) =~= s@.subrange(q as int, k as int));
            assert(r.skip(find_ws_at(r) as int) =~= s@.skip(k as int));
            assert(split_ws(sub) =~= seq![tok@] + split_ws(s@.skip(k as int)));
            assert(v.deep_view() =~= before.push(tok@));
            assert(v.deep_view() + split_ws(s@.skip(k as int)) =~= total);
        }
        pos = k;
    }
    proof {
        assert(s@.skip(n as int).len() == 0);
        assert(split_ws(s@.skip(pos as int)) =~= Seq::<Seq<char>>::empty());
        assert(v.deep_view() =~= total);
    }
    v
}

// ───────────────────────── number parsing ───────────────────────────────

/// The semantics of the shell's signed decimal parser: an optional `-`,
/// then decimal digit bytes, with the magnitude within `i32::MAX`.
pub open spec fn spec_parse_i32(bs: Seq<u8>) -> Option<int> {
    if bs.len() == 0 {
        None
    } else {
        let neg = bs[0] == 45;
        let ds = if neg {
            bs.drop_first()
        } else {
            bs
        };
        if ds.len() == 0 || !all_digits_b(ds, 10) {
            None
        } else {
            let v = digits_val_b(ds, 10);
            if v > i32::MAX {
                None
            } else if neg {
                Some(-v)
            } else {
                Some(v)
            }
        }
    }
}

/// Parse a signed decimal integer as the shell does: `-` allowed, any
/// overflow rejected.
pub fn parse_i32(text: &str) -> (r: Option<i32>)
    ensures
        match r {
            Some(v) => spec_parse_i32(text.spec_bytes()) == Some(v as int),
            None => spec_parse_i32(text.spec_bytes()) is None,
        },
{
    let bs = text.as_bytes();
    let n = bs.len();
    if n == 0 {
        return None;
    }
    let neg = bs[0] == 45;
    let start: usize = if neg {
        1
    } else {
        0
    };
    let ghost ds = if neg {
        bs@.drop_first()
    } else {
        bs@
    };
    proof {
        if neg {
            assert(ds =~= bs@.skip(1));
        } else {
            assert(ds =~= bs@.skip(0));
        }
    }
    if start == n {
        return None;
    }
    let mut acc: u64 = 0;
    let mut i: usize = start;
    while i < n
        invariant
            start <= i <= n,
            n == bs@.len(),
            n > 0,
            bs@ == text.spec_bytes(),
            neg == (bs@[0] == 45),
            start == (if neg {
                1int
            } else {
                0int
            }),
            start < n,
            ds == bs@.skip(start as int),
            all_digits_b(ds.take((i - start) as int), 10),
            acc as int == digits_val_b(ds.take((i - start) as int), 10),
            acc <= i32::MAX as u64,
        decreases n - i,
    {
        let b = bs[i];
        proof {
            assert(ds[i - start] == bs@[i as int]);
        }
        match digit_val_b_c(b, 10) {
            None => {
                proof {
                    assert(!is_digit_b(ds[i - start], 10));
                    assert(!all_digits_b(ds, 10));
                }
                return None;
            },
            Some(d) => {
                proof {
                    assert(ds.take(i - start + 1).drop_last() =~= ds.take((i - start) as int));
                    assert(all_digits_b(ds.take(i - start + 1), 10));
                    assert(digits_val_b(ds.take(i - start + 1), 10) == digits_val_b(
                        ds.take((i - start) as int),
                        10,
                    ) * 10 + digit_val_b(ds[i - start], 10));
                }
                let next = acc * 10 + d;
                if next > i32::MAX as u64 {
                    proof {
                        assert(digits_val_b(ds.take(i - start + 1), 10) == next as int);
                        if all_digits_b(ds, 10) {
                            lemma_digits_val_b_prefix_le(ds, i - start + 1, 10);
                            assert(digits_val_b(ds, 10) > i32::MAX);
                        }
                        if neg {
                            assert(bs@.drop_first() =~= bs@.skip(1));
                        } else {
                            assert(bs@.skip(0) =~= bs@);
                        }
                        assert(spec_parse_i32(bs@) is None);
                    }
                    return None;
                }
                acc = next;
                i += 1;
            },
        }
    }
    proof {
        assert(ds.take((n - start) as int) =~= ds);
    }
    if neg {
        Some(-(acc as i32))
    } else {
        Some(acc as i32)
    }
}

/// The semantics of the shell's hexadecimal parser: an optional `0x` or
/// `0X`, then one to eight hexadecimal digit bytes.
pub open spec fn spec_parse_hex(bs: Seq<u8>) -> Option<int> {
    let s = if bs.len() >= 2 && bs[0] == 48 && (bs[1] == 120 || bs[1] == 88) {
        bs.skip(2)
    } else {
        bs
    };
    if s.len() == 0 || s.len() > 8 || !all_digits_b(s, 16) {
        None
    } else {
        Some(digits_val_b(s, 16))
    }
}

/// Parse an unsigned hexadecimal word as the shell does.
pub fn parse_hex(text: &str) -> (r: Option<u32>)
    ensures
        match r {
            Some(v) => spec_parse_hex(text.spec_bytes()) == Some(v as int),
            None => spec_parse_hex(text.spec_bytes()) is None,
        },
{
    let bs = text.as_bytes();
    let n = bs.len();
    let start: usize = if n >= 2 && bs[0] == 48 && (bs[1] == 120 || bs[1] == 88) {
        2
    } else {
        0
    };
    let ghost s = if bs@.len() >= 2 && bs@[0] == 48 && (bs@[1] == 120 || bs@[1] == 88) {
        bs@.skip(2)
    } else {
        bs@
    };
    proof {
        assert(s =~= bs@.skip(start as int));
    }
    if start == n || n - start > 8 {
        return None;
    }
    let mut val: u64 = 0;
    let mut i: usize = start;
    while i < n
        invariant
            start <= i <= n,
            n == bs@.len(),
            n - start <= 8,
            start < n,
            bs@ == text.spec_bytes(),
            (start == 2) == (bs@.len() >= 2 && bs@[0] == 48 && (bs@[1] == 120 || bs@[1] == 88)),
            start == 0 || start == 2,
            s == bs@.skip(start as int),
            all_digits_b(s.take((i - start) as int), 16),
            val as int == digits_val_b(s.take((i - start) as int), 16),
            val < 0x1_0000_0000u64,
        decreases n - i,
    {
        let b = bs[i];
        proof {
            assert(s[i - start] == bs@[i as int]);
        }
        match digit_val_b_c(b, 16) {
            None => {
                proof {
                    assert(!is_digit_b(s[i - start], 16));
                    assert(!all_digits_b(s, 16));
                }
                return None;
            },
            Some(d) => {
                proof {
                    assert(s.take(i - start + 1).drop_last() =~= s.take((i - start) as int));
                    assert(all_digits_b(s.take(i - start + 1), 16));
                    assert(digits_val_b(s.take(i - start + 1), 16) == digits_val_b(
                        s.take((i - start) as int),
                        16,
                    ) * 16 + digit_val_b(s[i - start], 16));
                    lemma_hex_digits_bound(s.take(i - start + 1));
                    assert(s.take(i - start + 1).len() <= 8);
                    lemma_pow16_mono(s.take(i - start + 1).len(), 8);
                    assert(pow16(8) == 0x1_0000_0000) by {
                        reveal_with_fuel(pow16, 9);
                    }
                }
                val = val * 16 + d;
                i += 1;
            },
        }
    }
    proof {
        assert(s.take((n - start) as int) =~= s);
    }
    Some(val as u32)
}

proof fn lemma_pow16_mono(a: nat, b: nat)
    requires
        a <= b,
    ensures
        pow16(a) <= pow16(b),
    decreases b,
{
    if a < b {
        lemma_pow16_mono(a, (b - 1) as nat);
        lemma_pow16_pos((b - 1) as nat);
    }
}

proof fn lemma_pow16_pos(n: nat)
    ensures
        pow16(n) >= 1,
    decreases n,
{
    if n > 0 {
        lemma_pow16_pos((n - 1) as nat);
    }
}

// ───────────────────────── utilities ────────────────────────────────────

/// A memory probe the shell asks its driver to perform.
#[derive(Debug, Clone, Copy, PartialEq, Eq, Structural)]
pub enum MemRequest {
    Read(u32),
    Write(u32, u32),
}

/// What one command produced: console bytes, and possibly a memory
/// probe for the driver.
#[verifier::ext_equal]
pub ghost struct ShellOut {
    pub out: Seq<u8>,
    pub req: Option<MemRequest>,
}

/// The reply handed back to the driver loop.
pub struct ShellReply {
    pub output: Vec<u8>,
    pub request: Option<MemRequest>,
}

pub open spec fn args_rest_bytes(args: Seq<Seq<char>>) -> Seq<u8>
    decreases args.len(),
{
    if args.len() == 0 {
        Seq::empty()
    } else {
        seq![32u8] + emit(args[0]) + args_rest_bytes(args.drop_first())
    }
}

/// `echo`: the arguments joined by single spaces, then a newline.
pub open spec fn echo_out(args: Seq<Seq<char>>) -> Seq<u8> {
    (if args.len() == 0 {
        Seq::empty()
    } else {
        emit(args[0]) + args_rest_bytes(args.drop_first())
    }) + emit("\n"@)
}

proof fn lemma_args_rest_push(args: Seq<Seq<char>>, x: Seq<char>)
    ensures
        args_rest_bytes(args.push(x)) == args_rest_bytes(args) + (seq![32u8] + emit(x)),
    decreases args.len(),
{
    if args.len() == 0 {
        assert(args.push(x)[0] == x);
        assert(args.push(x).drop_first() =~= Seq::<Seq<char>>::empty());
        assert(args_rest_bytes(args.push(x).drop_first()) == Seq::<u8>::empty());
        assert(args_rest_bytes(args.push(x)) =~= args_rest_bytes(args) + (seq![32u8] + emit(x)));
    } else {
        assert(args.push(x)[0] == args[0]);
        assert(args.push(x).drop_first() =~= args.drop_first().push(x));
        lemma_args_rest_push(args.drop_first(), x);
        assert(args_rest_bytes(args.push(x)) =~= args_rest_bytes(args) + (seq![32u8] + emit(x)));
    }
}

/// Print the arguments, space-separated, ending the line.
pub fn util_echo(tx: &mut Vec<u8>, args: &Vec<String>)
    ensures
        final(tx)@ == old(tx)@ + echo_out(args.deep_view()),
{
    let ghost av = args.deep_view();
    let mut i: usize = 0;
    while i < args.len()
        invariant
            0 <= i <= args@.len(),
            av == args.deep_view(),
            tx@ == old(tx)@ + (if i == 0 {
                Seq::<u8>::empty()
            } else {
                emit(av[0]) + args_rest_bytes(av.subrange(1, i as int))
            }),
        decreases args@.len() - i,
    {
        if i > 0 {
            putc(tx, 32);
        }
        puts(tx, args[i].as_str());
        proof {
            if i > 0 {
                assert(av.subrange(1, i + 1) =~= av.subrange(1, i as int).push(av[i as int]));
                lemma_args_rest_push(av.subrange(1, i as int), av[i as int]);
                assert(tx@ =~= old(tx)@ + (emit(av[0]) + args_rest_bytes(av.subrange(1, i + 1))));
            } else {
                assert(av.subrange(1, 1) =~= Seq::<Seq<char>>::empty());
                assert(tx@ =~= old(tx)@ + (emit(av[0]) + args_rest_bytes(av.subrange(1, 1))));
            }
        }
        i += 1;
    }
    puts(tx, "\n");
    proof {
        if av.len() > 0 {
            assert(av.subrange(1, av.len() as int) =~= av.drop_first());
        }
        assert(tx@ =~= old(tx)@ + echo_out(av));
    }
}

/// `sum`: the wrapped sum of two decimal arguments, or a usage line.
pub open spec fn sum_out(args: Seq<Seq<char>>) -> Seq<u8> {
    if args.len() != 2 {
        emit("usage: sum <a> <b>\n"@)
    } else {
        match (spec_parse_i32(encode_utf8(args[0])), spec_parse_i32(encode_utf8(args[1]))) {
            (Some(a), Some(b)) => emit("= "@) + i32_bytes((a as i32).wrapping_add(b as i32))
                + emit("\n"@),
            _ => emit("error: expected integer arguments\n"@),
        }
    }
}

/// Add two integers and print the wrapped sum.
pub fn util_sum(tx: &mut Vec<u8>, args: &Vec<String>)
    ensures
        final(tx)@ == old(tx)@ + sum_out(args.deep_view()),
{
    if args.len() != 2 {
        puts(tx, "usage: sum <a> <b>\n");
        return ;
    }
    let a = parse_i32(args[0].as_str());
    let b = parse_i32(args[1].as_str());
    match (a, b) {
        (Some(x), Some(y)) => {
            puts(tx, "= ");
            put_i32(tx, x.wrapping_add(y));
            puts(tx, "\n");
            proof {
                assert(tx@ =~= old(tx)@ + sum_out(args.deep_view()));
            }
        },
        _ => {
            puts(tx, "error: expected integer arguments\n");
        },
    }
}

/// `about`: the project banner lines.
pub open spec fn about_out() -> Seq<u8> {
    emit("AruviX HobbyOS \u{2014} RV32IM Bare Metal Kernel\n"@) + emit(
        "Part of the AruviX full-vertical computing stack:\n"@,
    ) + emit("  Processor (Verilog) \u{2192} OS \u{2192} C Compiler \u{2192} Assembler \u{2192} JVM\n"@)
        + emit("  All targeting FPGA deployment on PYNQ-Z2\n"@)
}

/// Print the project description.
pub fn util_about(tx: &mut Vec<u8>)
    ensures
        final(tx)@ == old(tx)@ + about_out(),
{
    puts(tx, "AruviX HobbyOS \u{2014} RV32IM Bare Metal Kernel\n");
    puts(tx, "Part of the AruviX full-vertical computing stack:\n");
    puts(tx, "  Processor (Verilog) \u{2192} OS \u{2192} C Compiler \u{2192} Assembler \u{2192} JVM\n");
    puts(tx, "  All targeting FPGA deployment on PYNQ-Z2\n");
    proof {
        assert(tx@ =~= old(tx)@ + about_out());
    }
}

/// The report printed after a memory read is performed by the driver.
pub open spec fn mem_read_report(addr: u32, val: u32) -> Seq<u8> {
    emit("0x"@) + hex8_bytes(addr) + emit(" = 0x"@) + hex8_bytes(val) + emit("\n"@)
}

/// Print the result of a memory read the driver performed.
pub fn report_mem_read(tx: &mut Vec<u8>, addr: u32, val: u32)
    ensures
        final(tx)@ == old(tx)@ + mem_read_report(addr, val),
{
    puts(tx, "0x");
    put_hex(tx, addr);
    puts(tx, " = 0x");
    put_hex(tx, val);
    puts(tx, "\n");
    proof {
        assert(tx@ =~= old(tx)@ + mem_read_report(addr, val));
    }
}

/// `mem`: request a word read at a hexadecimal address.
pub open spec fn mem_out(args: Seq<Seq<char>>) -> ShellOut {
    if args.len() == 0 {
        ShellOut { out: emit("usage: mem <hex_addr>\n"@), req: None }
    } else {
        match spec_parse_hex(encode_utf8(args[0])) {
            Some(addr) => ShellOut { out: Seq::empty(), req: Some(MemRequest::Read(addr as u32)) },
            None => ShellOut { out: emit("error: invalid hex address\n"@), req: None },
        }
    }
}

/// Ask the driver to read a 32-bit word at a hexadecimal address.
pub fn util_mem(tx: &mut Vec<u8>, args: &Vec<String>) -> (r: Option<MemRequest>)
    ensures
        final(tx)@ == old(tx)@ + mem_out(args.deep_view()).out,
        r == mem_out(args.deep_view()).req,
{
    if args.len() == 0 {
        puts(tx, "usage: mem <hex_addr>\n");
        return None;
    }
    match parse_hex(args[0].as_str()) {
        Some(addr) => Some(MemRequest::Read(addr)),
        None => {
            puts(tx, "error: invalid hex address\n");
            None
        },
    }
}

/// `memw`: request a word write, reporting what will be written where.
pub open spec fn memw_out(args: Seq<Seq<char>>) -> ShellOut {
    if args.len() != 2 {
        ShellOut { out: emit("usage: memw <hex_addr> <hex_val>\n"@), req: None }
    } else {
        match (spec_parse_hex(encode_utf8(args[0])), spec_parse_hex(encode_utf8(args[1]))) {
            (Some(addr), Some(val)) => ShellOut {
                out: emit("wrote 0x"@) + hex8_bytes(val as u32) + emit(" to 0x"@) + hex8_bytes(
                    addr as u32,
                ) + emit("\n"@),
                req: Some(MemRequest::Write(addr as u32, val as u32)),
            },
            _ => ShellOut { out: emit("error: invalid hex value\n"@), req: None },
        }
    }
}

/// Ask the driver to write a 32-bit word at a hexadecimal address.
pub fn util_memw(tx: &mut Vec<u8>, args: &Vec<String>) -> (r: Option<MemRequest>)
    ensures
        final(tx)@ == old(tx)@ + memw_out(args.deep_view()).out,
        r == memw_out(args.deep_view()).req,
{
    if args.len() != 2 {
        puts(tx, "usage: memw <hex_addr> <hex_val>\n");
        return None;
    }
    let a = parse_hex(args[0].as_str());
    let v = parse_hex(args[1].as_str());
    match (a, v) {
        (Some(addr), Some(val)) => {
            puts(tx, "wrote 0x");
            put_hex(tx, val);
            puts(tx, " to 0x");
            put_hex(tx, addr);
            puts(tx, "\n");
            proof {
                assert(tx@ =~= old(tx)@ + memw_out(args.deep_view()).out);
            }
            Some(MemRequest::Write(addr, val))
        },
        _ => {
            puts(tx, "error: invalid hex value\n");
            None
        },
    }
}

// ───────────────────────── dispatch ─────────────────────────────────────

/// The help screen.
pub open spec fn help_out() -> Seq<u8> {
    emit("Built-in commands:\n"@) + emit("  help         - show this help\n"@) + emit(
        "  ls           - list utilities\n"@,
    ) + emit("  run <name>   - run a utility\n"@) + emit("  clear        - clear screen\n"@)
        + emit("\nUtilities:\n"@) + emit("  "@) + emit("echo [text] - prints text"@) + emit("\n"@)
        + emit("  "@) + emit("sum a b - adds two integers"@) + emit("\n"@) + emit("  "@) + emit(
        "about - project info"@,
    ) + emit("\n"@) + emit("  "@) + emit("mem <addr> - read 32-bit word at hex address"@) + emit(
        "\n"@,
    ) + emit("  "@) + emit("memw <addr> <val> - write 32-bit word to hex address"@) + emit("\n"@)
}

/// The utility listing.
pub open spec fn ls_out() -> Seq<u8> {
    emit("echo"@) + emit("\n"@) + emit("sum"@) + emit("\n"@) + emit("about"@) + emit("\n"@) + emit(
        "mem"@,
    ) + emit("\n"@) + emit("memw"@) + emit("\n"@)
}

/// Run a utility by name, if one of that name exists.
pub open spec fn util_dispatch(name: Seq<char>, rest: Seq<Seq<char>>) -> Option<ShellOut> {
    if name == "echo"@ {
        Some(ShellOut { out: echo_out(rest), req: None })
    } else if name == "sum"@ {
        Some(ShellOut { out: sum_out(rest), req: None })
    } else if name == "about"@ {
        Some(ShellOut { out: about_out(), req: None })
    } else if name == "mem"@ {
        Some(mem_out(rest))
    } else if name == "memw"@ {
        Some(memw_out(rest))
    } else {
        None
    }
}

/// What one command line produces: console bytes and at most one memory
/// probe. Blank lines produce nothing; at most sixteen arguments are
/// kept.
pub open spec fn spec_handle(line: Seq<char>) -> ShellOut {
    let t = spec_trim(line);
    let parts = split_ws(t);
    if t.len() == 0 || parts.len() == 0 {
        ShellOut { out: Seq::empty(), req: None }
    } else {
        let cmd = parts[0];
        let rest0 = parts.drop_first();
        let args = if rest0.len() > 16 {
            rest0.take(16)
        } else {
            rest0
        };
        if cmd == "help"@ {
            ShellOut { out: help_out(), req: None }
        } else if cmd == "ls"@ {
            ShellOut { out: ls_out(), req: None }
        } else if cmd == "run"@ {
            if args.len() == 0 {
                ShellOut { out: emit("usage: run <utility> [args]\n"@), req: None }
            } else {
                match util_dispatch(args[0], args.drop_first()) {
                    Some(o) => o,
                    None => ShellOut {
                        out: emit("utility not found: "@) + emit(args[0]) + emit("\n"@),
                        req: None,
                    },
                }
            }
        } else if cmd == "clear"@ {
            ShellOut { out: emit("\u{1b}[2J\u{1b}[H"@), req: None }
        } else {
            match util_dispatch(cmd, args) {
                Some(o) => o,
                None => ShellOut {
                    out: emit("unknown command: "@) + emit(cmd) + emit("\n"@),
                    req: None,
                },
            }
        }
    }
}

fn run_utility(out: &mut Vec<u8>, name: &String, rest: &Vec<String>) -> (r: Option<
    Option<MemRequest>,
>)
    ensures
        match r {
            Some(req) => util_dispatch(name@, rest.deep_view()) matches Some(o) && final(out)@
                == old(out)@ + o.out && req == o.req,
            None => util_dispatch(name@, rest.deep_view()) is None && *final(out) == *old(out),
        },
{
    if crate::text::str_eq(name.as_str(), "echo") {
        util_echo(out, rest);
        Some(None)
    } else if crate::text::str_eq(name.as_str(), "sum") {
        util_sum(out, rest);
        Some(None)
    } else if crate::text::str_eq(name.as_str(), "about") {
        util_about(out);
        Some(None)
    } else if crate::text::str_eq(name.as_str(), "mem") {
        let req = util_mem(out, rest);
        Some(req)
    } else if crate::text::str_eq(name.as_str(), "memw") {
        let req = util_memw(out, rest);
        Some(req)
    } else {
        None
    }
}

/// Interpret one command line: compute the console bytes it prints and
/// the memory probe it asks for, if any.
pub fn handle_command(line: &str) -> (r: ShellReply)
    ensures
        r.output@ == spec_handle(line@).out,
        r.request == spec_handle(line@).req,
{
    let mut out: Vec<u8> = Vec::new();
    let trimmed = trim_str(line);
    if trimmed.unicode_len() == 0 {
        return ShellReply { output: out, request: None };
    }
    let parts = tokenize(trimmed);
    if parts.len() == 0 {
        return ShellReply { output: out, request: None };
    }
    let ghost pv = parts.deep_view();
    let mut args: Vec<String> = Vec::new();
    let mut i: usize = 1;
    while i < parts.len() && args.len() < 16
        invariant
            1 <= i <= parts@.len(),
            pv == parts.deep_view(),
            pv.len() == parts@.len(),
            args@.len() == i - 1,
            args@.len() <= 16,
            args.deep_view() =~= pv.subrange(1, i as int),
        decreases parts@.len() - i,
    {
        args.push(parts[i].clone());
        proof {
            assert(args.deep_view() =~= pv.subrange(1, i + 1));
        }
        i += 1;
    }
    proof {
        let rest0 = pv.drop_first();
        let capped = if rest0.len() > 16 {
            rest0.take(16)
        } else {
            rest0
        };
        assert(args.deep_view() =~= capped);
    }
    let cmd = &parts[0];
    if crate::text::str_eq(cmd.as_str(), "help") {
        puts(&mut out, "Built-in commands:\n");
        puts(&mut out, "  help         - show this help\n");
        puts(&mut out, "  ls           - list utilities\n");
        puts(&mut out, "  run <name>   - run a utility\n");
        puts(&mut out, "  clear        - clear screen\n");
        puts(&mut out, "\nUtilities:\n");
        puts(&mut out, "  ");
        puts(&mut out, "echo [text] - prints text");
        puts(&mut out, "\n");
        puts(&mut out, "  ");
        puts(&mut out, "sum a b - adds two integers");
        puts(&mut out, "\n");
        puts(&mut out, "  ");
        puts(&mut out, "about - project info");
        puts(&mut out, "\n");
        puts(&mut out, "  ");
        puts(&mut out, "mem <addr> - read 32-bit word at hex address");
        puts(&mut out, "\n");
        puts(&mut out, "  ");
        puts(&mut out, "memw <addr> <val> - write 32-bit word to hex address");
        puts(&mut out, "\n");
        proof {
            assert(out@ =~= help_out());
        }
        ShellReply { output: out, request: None }
    } else if crate::text::str_eq(cmd.as_str(), "ls") {
        puts(&mut out, "echo");
        puts(&mut out, "\n");
        puts(&mut out, "sum");
        puts(&mut out, "\n");
        puts(&mut out, "about");
        puts(&mut out, "\n");
        puts(&mut out, "mem");
        puts(&mut out, "\n");
        puts(&mut out, "memw");
        puts(&mut out, "\n");
        proof {
            assert(out@ =~= ls_out());
        }
        ShellReply { output: out, request: None }
    } else if crate::text::str_eq(cmd.as_str(), "run") {
        if args.len() == 0 {
            puts(&mut out, "usage: run <utility> [args]\n");
            return ShellReply { output: out, request: None };
        }
        let target = args[0].clone();
        let mut rest: Vec<String> = Vec::new();
        let mut j: usize = 1;
        while j < args.len()
            invariant
                1 <= j <= args@.len(),
                rest@.len() == j - 1,
                forall|k: int| 0 <= k < j - 1 ==> (#[trigger] rest@[k])@ == (args@[k + 1])@,
            decreases args@.len() - j,
        {
            rest.push(args[j].clone());
            j += 1;
        }
        proof {
            assert(rest.deep_view() =~= args.deep_view().drop_first());
        }
        match run_utility(&mut out, &target, &rest) {
            Some(req) => ShellReply { output: out, request: req },
            None => {
                puts(&mut out, "utility not found: ");
                puts(&mut out, target.as_str());
                puts(&mut out, "\n");
                proof {
                    assert(out@ =~= spec_handle(line@).out);
                }
                ShellReply { output: out, request: None }
            },
        }
    } else if crate::text::str_eq(cmd.as_str(), "clear") {
        puts(&mut out, "\u{1b}[2J\u{1b}[H");
        proof {
            assert(out@ =~= spec_handle(line@).out);
        }
        ShellReply { output: out, request: None }
    } else {
        match run_utility(&mut out, cmd, &args) {
            Some(req) => ShellReply { output: out, request: req },
            None => {
                puts(&mut out, "unknown command: ");
                puts(&mut out, cmd.as_str());
                puts(&mut out, "\n");
                proof {
                    assert(out@ =~= spec_handle(line@).out);
                }
                ShellReply { output: out, request: None }
            },
        }
    }
}

// ───────────────────────── line editing ─────────────────────────────────

/// What the reader does with one keystroke.
#[derive(Debug, Clone, Copy, PartialEq, Eq, Structural)]
pub enum LineEdit {
    /// Carriage return or line feed: the line is complete.
    Submit,
    /// Backspace over the last character.
    Erase,
    /// Append this printable byte and echo it.
    Append(u8),
    /// Ignore the byte.
    Ignore,
}

/// The reader's rule for one keystroke, given the current length and
/// the buffer capacity.
pub open spec fn line_edit_rule(len: int, cap: int, c: u8) -> LineEdit {
    if c == 13 || c == 10 {
        LineEdit::Submit
    } else if c == 8 || c == 127 {
        if len > 0 {
            LineEdit::Erase
        } else {
            LineEdit::Ignore
        }
    } else if 0x20 <= c && c <= 0x7E {
        if len < cap - 1 {
            LineEdit::Append(c)
        } else {
            LineEdit::Ignore
        }
    } else {
        LineEdit::Ignore
    }
}

/// Decide what to do with one received byte while reading a line.
pub fn read_line_step(len: usize, cap: usize, c: u8) -> (r: LineEdit)
    ensures
        r == line_edit_rule(len as int, cap as int, c),
{
    if c == 13 || c == 10 {
        LineEdit::Submit
    } else if c == 8 || c == 127 {
        if len > 0 {
            LineEdit::Erase
        } else {
            LineEdit::Ignore
        }
    } else if 0x20 <= c && c <= 0x7E {
        if cap >= 1 && len < cap - 1 {
            LineEdit::Append(c)
        } else {
            LineEdit::Ignore
        }
    } else {
        LineEdit::Ignore
    }
}

// ───────────────────────── screen-shell extras ──────────────────────────

/// The banner the screen shell prints at boot.
pub open spec fn banner_bytes() -> Seq<u8> {
    encode_utf8("AruviX HobbyOS (Rust)\n"@) + encode_utf8("Type 'help' for commands.\n\n"@)
}

/// Queue the boot banner (plain bytes; the screen writer does not need
/// the carriage-return expansion).
pub fn banner(tx: &mut Vec<u8>)
    ensures
        final(tx)@ == old(tx)@ + banner_bytes(),
{
    let b1 = "AruviX HobbyOS (Rust)\n".as_bytes();
    tx.extend_from_slice(b1);
    let b2 = "Type 'help' for commands.\n\n".as_bytes();
    tx.extend_from_slice(b2);
    proof {
        assert(tx@ =~= old(tx)@ + banner_bytes());
    }
}

/// Queue the plain decimal image of a signed value, as the screen shell
/// prints results.
pub fn print_i32(tx: &mut Vec<u8>, value: i32)
    requires
        value != i32::MIN,
    ensures
        final(tx)@ == old(tx)@ + i32_bytes(value),
{
    if value < 0 {
        putc(tx, 45);
        put_dec(tx, (-value) as u32);
        proof {
            assert(tx@ =~= old(tx)@ + i32_bytes(value));
        }
    } else {
        put_dec(tx, value as u32);
    }
}

} // verus!
