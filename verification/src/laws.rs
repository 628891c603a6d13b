//! The machine-wide laws of the emulator, stated over the functional
//! models and proved once and for all: the hardwired zero register, the
//! sticky halt latch, the step counter, the little-endian memory round
//! trip, the flag definitions, and the agreement of compare and
//! subtract.

use vstd::prelude::*;
use crate::interp::spec_cmp;
use crate::interp::spec_step;
use crate::interp::spec_sub_op;
use crate::interp::lemma_dispatch_frame;
use crate::loader::LabelPass;
use crate::loader::LoadAcc;
use crate::loader::label_find;
use crate::loader::spec_clean;
use crate::loader::spec_label_pass;
use crate::loader::spec_load;
use crate::loader::spec_load_line;
use crate::loader::spec_load_lines;
use crate::machine::InstrView;
use crate::text::find_char_at;
use crate::text::lemma_find_char_le;
use crate::text::lemma_trim_len;
use crate::text::spec_trim;
use crate::machine::MView;
use crate::machine::add_flags;
use crate::machine::add_result;
use crate::machine::bit31;
use crate::machine::read_word_spec;
use crate::machine::store_word;
use crate::machine::sub_flags;
use crate::machine::sub_result;
use crate::machine::write_word_spec;

verus! {

/// Register 0 is hardwired: if it reads zero before a step, it reads
/// zero after the step, whether the step succeeded, faulted, or was a
/// no-op on a halted machine.
pub proof fn lemma_r0_hardwired(m: MView)
    requires
        m.regs.len() == 32,
        m.regs[0] == 0,
    ensures
        spec_step(m).post.regs[0] == 0,
        spec_step(m).post.regs.len() == m.regs.len(),
{
    if !m.halted && m.pc < m.insts.len() {
        lemma_dispatch_frame(m, m.insts[m.pc as int]);
    }
}

/// The halt latch is sticky: a halted machine is never un-halted by a
/// step (only a fresh load clears the latch), and a step of a halted
/// machine changes nothing at all.
pub proof fn lemma_halted_monotonic(m: MView)
    ensures
        m.halted ==> spec_step(m).post == m,
        m.halted ==> spec_step(m).err is None,
        m.halted ==> spec_step(m).post.halted,
{
}

/// A whole run ends in one of exactly two ways: the machine halted, or
/// an error was reported (budget exhausted, or a faulted step).
pub proof fn lemma_run_halts_or_fails(m: MView, max: nat)
    ensures
        crate::interp::spec_run(m, max).err is None ==> crate::interp::spec_run(m, max).post.halted,
    decreases crate::interp::run_measure(m, max),
{
    if m.halted {
    } else if m.count >= max {
    } else {
        let s = spec_step(m);
        match s.err {
            Some(_) => {},
            None => {
                crate::interp::lemma_step_count(m);
                lemma_run_halts_or_fails(s.post, max);
            },
        }
    }
}

/// The step counter counts exactly the successful steps: it grows by one
/// on a successful step of a running machine, and not at all on a
/// halted-machine no-op or on a faulted step.
pub proof fn lemma_step_counts_successes(m: MView)
    ensures
        !m.halted && spec_step(m).err is None ==> spec_step(m).post.count == m.count + 1,
        m.halted ==> spec_step(m).post.count == m.count,
        spec_step(m).err is Some ==> spec_step(m).post.count == m.count,
{
    crate::interp::lemma_step_count(m);
}

/// Memory words round-trip: storing a word at an aligned, in-bounds
/// address and reading it back yields the word, through the same checks
/// the machine applies.
pub proof fn lemma_word_round_trip(mem: Seq<u8>, addr: u32, v: u32)
    requires
        addr as int % 4 == 0,
        addr as int + 4 <= mem.len(),
    ensures
        write_word_spec(mem, addr, v) == Ok::<Seq<u8>, crate::machine::ErrView>(
            store_word(mem, addr as int, v),
        ),
        read_word_spec(store_word(mem, addr as int, v), addr) == Ok::<u32, crate::machine::ErrView>(
            v,
        ),
{
    let a = addr as int;
    let m2 = store_word(mem, a, v);
    assert(m2[a] == v as u8);
    assert(m2[a + 1] == (v >> 8u32) as u8);
    assert(m2[a + 2] == (v >> 16u32) as u8);
    assert(m2[a + 3] == (v >> 24u32) as u8);
    assert((v as u8 as u32) | (((v >> 8u32) as u8 as u32) << 8u32) | (((v >> 16u32) as u8 as u32)
        << 16u32) | (((v >> 24u32) as u8 as u32) << 24u32) == v) by (bit_vector);
}

/// A store that fails leaves memory unchanged; this is how the machine's
/// write is specified, recorded here as a law in its own right.
pub proof fn lemma_failed_store_preserves_memory(mem: Seq<u8>, addr: u32, v: u32)
    ensures
        write_word_spec(mem, addr, v) is Err ==> (addr as int % 4 != 0 || addr as int + 4
            > mem.len()),
        addr as int % 4 == 0 && addr as int + 4 <= mem.len() ==> write_word_spec(mem, addr, v)
            is Ok,
{
}

/// The four arithmetic flags are exactly their definitions: zero and
/// negative from the 32-bit result, carry as the unsigned overflow out
/// of addition (or the no-borrow condition of subtraction), and the
/// signed-overflow tests on bit 31.
pub proof fn lemma_arith_flag_definitions(a: u32, b: u32)
    ensures
        add_flags(a, b).zero == (add_result(a, b) == 0),
        add_flags(a, b).negative == bit31(add_result(a, b)),
        add_flags(a, b).carry == (a + b > u32::MAX),
        add_result(a, b) as int == (a + b) % 0x1_0000_0000,
        sub_flags(a, b).zero == (sub_result(a, b) == 0),
        sub_flags(a, b).negative == bit31(sub_result(a, b)),
        sub_flags(a, b).carry == (a >= b),
        sub_result(a, b) as int == (a - b + 0x1_0000_0000) % 0x1_0000_0000,
{
    assert(a.wrapping_add(b) as int == (a + b) % 0x1_0000_0000);
    assert(a.wrapping_sub(b) as int == (a - b + 0x1_0000_0000) % 0x1_0000_0000);
}

/// `CMP a, b` and `SUB t, a, b` produce identical flags: both dispatch
/// to the same subtraction flag image for the same operand tokens.
pub proof fn lemma_cmp_sub_same_flags(m: MView, ivc: crate::machine::InstrView, ivs: crate::machine::InstrView)
    requires
        ivc.args.len() == 2,
        ivs.args.len() == 3,
        ivs.args[1] == ivc.args[0],
        ivs.args[2] == ivc.args[1],
        spec_cmp(m, ivc).err is None,
        spec_sub_op(m, ivs, false).err is None,
    ensures
        spec_cmp(m, ivc).mid.flags == spec_sub_op(m, ivs, false).mid.flags,
{
}

/// What a load produces is a function of the source text alone: loading
/// the same text twice, or into two different machines, yields identical
/// instructions and labels.
pub proof fn lemma_load_idempotent(src: Seq<char>, first: LoadAcc, second: LoadAcc)
    requires
        first == spec_load(src),
        second == spec_load(src),
    ensures
        first.insts == second.insts,
        first.labels == second.labels,
        first.err == second.err,
{
}

// ───────────────── directive and comment invariance ─────────────────────

/// A line the frontend ignores entirely: blank once cleaned, or a
/// directive that binds no label (it starts with `.` and holds no `:`).
pub open spec fn neutral_line(line: Seq<char>) -> bool {
    let c = spec_clean(line);
    c.len() == 0 || (c[0] == '.' && find_char_at(c, ':') == c.len())
}

/// Two instruction lists that decode identically: the same opcodes and
/// operands in the same order (source line numbers may differ).
pub open spec fn same_code(a: Seq<InstrView>, b: Seq<InstrView>) -> bool {
    &&& a.len() == b.len()
    &&& forall|k: int|
        0 <= k < a.len() ==> (#[trigger] a[k]).op == b[k].op && a[k].args == b[k].args
}

/// A neutral line adds no instruction and no label, and never fails.
proof fn lemma_neutral_line(
    line: Seq<char>,
    line_no: nat,
    insts: Seq<InstrView>,
    labels: Seq<(Seq<char>, nat)>,
)
    requires
        neutral_line(line),
    ensures
        spec_load_line(line, line_no, insts, labels) == (LoadAcc { insts, labels, err: None }),
{
    let c = spec_clean(line);
    if c.len() != 0 {
        assert(spec_label_pass(c, line_no, insts.len(), labels) == (LabelPass {
            rest: c,
            labels,
            err: None,
        }));
    }
}

/// The label pass does not depend on the line number, except for the
/// text of a duplicate-label message.
proof fn lemma_label_pass_lineno(
    cur: Seq<char>,
    n1: nat,
    n2: nat,
    ni: nat,
    labels: Seq<(Seq<char>, nat)>,
)
    ensures
        ({
            let p1 = spec_label_pass(cur, n1, ni, labels);
            let p2 = spec_label_pass(cur, n2, ni, labels);
            p1.rest == p2.rest && p1.labels == p2.labels && (p1.err is Some <==> p2.err is Some)
        }),
    decreases cur.len(),
{
    let k = find_char_at(cur, ':');
    if k == cur.len() {
    } else {
        let lbl = spec_trim(cur.take(k as int));
        if lbl.len() == 0 {
        } else if label_find(labels, lbl) is Some {
        } else {
            let rest2 = spec_trim(cur.skip(k + 1 as int));
            if rest2.len() == 0 {
            } else {
                lemma_find_char_le(cur, ':');
                lemma_trim_len(cur.skip(k + 1 as int));
                lemma_label_pass_lineno(rest2, n1, n2, ni, labels.push((lbl, ni)));
            }
        }
    }
}

/// Loading one line depends on the line number only through message
/// text, and on earlier instructions only through how many there are.
proof fn lemma_load_line_cong(
    line: Seq<char>,
    n1: nat,
    n2: nat,
    i1: Seq<InstrView>,
    i2: Seq<InstrView>,
    labels: Seq<(Seq<char>, nat)>,
)
    requires
        same_code(i1, i2),
    ensures
        ({
            let a = spec_load_line(line, n1, i1, labels);
            let b = spec_load_line(line, n2, i2, labels);
            same_code(a.insts, b.insts) && a.labels == b.labels && (a.err is Some <==> b.err
                is Some)
        }),
{
    let c = spec_clean(line);
    if c.len() != 0 {
        lemma_label_pass_lineno(c, n1, n2, i1.len(), labels);
    }
}

/// Loading a list of lines preserves code equality of the accumulators,
/// whatever the starting line numbers.
proof fn lemma_load_lines_cong(
    ls: Seq<Seq<char>>,
    n1: nat,
    n2: nat,
    i1: Seq<InstrView>,
    i2: Seq<InstrView>,
    labels: Seq<(Seq<char>, nat)>,
)
    requires
        same_code(i1, i2),
    ensures
        ({
            let a = spec_load_lines(ls, n1, i1, labels);
            let b = spec_load_lines(ls, n2, i2, labels);
            same_code(a.insts, b.insts) && a.labels == b.labels && (a.err is Some <==> b.err
                is Some)
        }),
    decreases ls.len(),
{
    if ls.len() == 0 {
    } else {
        lemma_load_line_cong(ls[0], n1, n2, i1, i2, labels);
        let a0 = spec_load_line(ls[0], n1, i1, labels);
        let b0 = spec_load_line(ls[0], n2, i2, labels);
        if a0.err is Some {
        } else {
            lemma_load_lines_cong(ls.drop_first(), n1 + 1, n2 + 1, a0.insts, b0.insts, a0.labels);
        }
    }
}

proof fn lemma_insert_neutral(
    pre: Seq<Seq<char>>,
    suf: Seq<Seq<char>>,
    extra: Seq<char>,
    n: nat,
    insts: Seq<InstrView>,
    labels: Seq<(Seq<char>, nat)>,
)
    requires
        neutral_line(extra),
    ensures
        ({
            let a = spec_load_lines(pre + seq![extra] + suf, n, insts, labels);
            let b = spec_load_lines(pre + suf, n, insts, labels);
            same_code(a.insts, b.insts) && a.labels == b.labels && (a.err is Some <==> b.err
                is Some)
        }),
    decreases pre.len(),
{
    let with = pre + seq![extra] + suf;
    let without = pre + suf;
    if pre.len() == 0 {
        assert(with =~= seq![extra] + suf);
        assert(with[0] == extra);
        assert(with.drop_first() =~= suf);
        lemma_neutral_line(extra, n, insts, labels);
        assert(same_code(insts, insts));
        lemma_load_lines_cong(suf, n + 1, n, insts, insts, labels);
        assert(without =~= suf);
    } else {
        assert(with.len() > 0 && without.len() > 0);
        assert(with[0] == pre[0]);
        assert(without[0] == pre[0]);
        assert(same_code(insts, insts));
        let out = spec_load_line(pre[0], n, insts, labels);
        if out.err is Some {
        } else {
            assert(with.drop_first() =~= pre.drop_first() + seq![extra] + suf);
            assert(without.drop_first() =~= pre.drop_first() + suf);
            lemma_insert_neutral(pre.drop_first(), suf, extra, n + 1, out.insts, out.labels);
        }
    }
}

/// Inserting a comment-only line, a blank line, or a label-free
/// directive line anywhere between the lines of a program changes
/// neither the decoded instruction stream (opcodes and operands, in
/// order) nor the label bindings, and cannot introduce or remove a load
/// failure; only the source line numbers carried for diagnostics shift.
pub proof fn lemma_neutral_line_invariance(
    pre: Seq<Seq<char>>,
    suf: Seq<Seq<char>>,
    extra: Seq<char>,
)
    requires
        neutral_line(extra),
    ensures
        ({
            let a = spec_load_lines(pre + seq![extra] + suf, 1, Seq::empty(), Seq::empty());
            let b = spec_load_lines(pre + suf, 1, Seq::empty(), Seq::empty());
            same_code(a.insts, b.insts) && a.labels == b.labels && (a.err is Some <==> b.err
                is Some)
        }),
{
    assert(same_code(Seq::empty(), Seq::empty()));
    lemma_insert_neutral(pre, suf, extra, 1, Seq::empty(), Seq::empty());
}

// ───────────── execution ignores line numbers and raw text ──────────────

/// Two machines that differ at most in the diagnostic fields of their
/// instructions: same memory, registers, flags, control state and
/// labels, and instruction streams that decode identically.
pub open spec fn same_machine_code(a: MView, b: MView) -> bool {
    &&& a.mem == b.mem
    &&& a.regs == b.regs
    &&& a.flags == b.flags
    &&& a.pc == b.pc
    &&& a.halted == b.halted
    &&& a.count == b.count
    &&& a.labels == b.labels
    &&& same_code(a.insts, b.insts)
}

proof fn lemma_operand_addr_cong(a: MView, b: MView, t: Seq<char>)
    requires
        a.regs == b.regs,
        a.labels == b.labels,
    ensures
        crate::interp::spec_operand_addr(a, t) == crate::interp::spec_operand_addr(b, t),
{
}

proof fn lemma_jump_target_cong(a: MView, b: MView, t: Seq<char>)
    requires
        a.labels == b.labels,
    ensures
        crate::interp::spec_jump_target(a, t) == crate::interp::spec_jump_target(b, t),
{
}

/// The shared shape of the per-opcode congruence facts: for operand
/// tokens that agree, the handlers agree on everything but message
/// text.
pub open spec fn cong_ok(
    da: crate::interp::DispatchOut,
    db: crate::interp::DispatchOut,
) -> bool {
    &&& same_machine_code(da.mid, db.mid)
    &&& da.next_pc == db.next_pc
    &&& (da.err is Some <==> db.err is Some)
}

proof fn lemma_loadi_cong(a: MView, b: MView, iva: InstrView, ivb: InstrView)
    requires
        same_machine_code(a, b),
        iva.args == ivb.args,
    ensures
        cong_ok(crate::interp::spec_loadi(a, iva), crate::interp::spec_loadi(b, ivb)),
{
    if iva.args.len() == 2 {
        lemma_operand_addr_cong(a, b, iva.args[1]);
    }
}

proof fn lemma_load_op_cong(a: MView, b: MView, iva: InstrView, ivb: InstrView)
    requires
        same_machine_code(a, b),
        iva.args == ivb.args,
    ensures
        cong_ok(crate::interp::spec_load_op(a, iva), crate::interp::spec_load_op(b, ivb)),
{
    if iva.args.len() == 2 {
        lemma_operand_addr_cong(a, b, iva.args[1]);
    }
}

proof fn lemma_store_cong(a: MView, b: MView, iva: InstrView, ivb: InstrView)
    requires
        same_machine_code(a, b),
        iva.args == ivb.args,
    ensures
        cong_ok(crate::interp::spec_store(a, iva), crate::interp::spec_store(b, ivb)),
{
    if iva.args.len() == 2 {
        lemma_operand_addr_cong(a, b, iva.args[1]);
    }
}

proof fn lemma_add_cong(a: MView, b: MView, iva: InstrView, ivb: InstrView, imm_mode: bool)
    requires
        same_machine_code(a, b),
        iva.args == ivb.args,
    ensures
        cong_ok(
            crate::interp::spec_add_op(a, iva, imm_mode),
            crate::interp::spec_add_op(b, ivb, imm_mode),
        ),
{
    if iva.args.len() == 3 {
        lemma_operand_addr_cong(a, b, iva.args[2]);
    }
}

proof fn lemma_sub_cong(a: MView, b: MView, iva: InstrView, ivb: InstrView, imm_mode: bool)
    requires
        same_machine_code(a, b),
        iva.args == ivb.args,
    ensures
        cong_ok(
            crate::interp::spec_sub_op(a, iva, imm_mode),
            crate::interp::spec_sub_op(b, ivb, imm_mode),
        ),
{
    if iva.args.len() == 3 {
        lemma_operand_addr_cong(a, b, iva.args[2]);
    }
}

proof fn lemma_bitwise_cong(
    a: MView,
    b: MView,
    iva: InstrView,
    ivb: InstrView,
    f: spec_fn(u32, u32) -> u32,
)
    requires
        same_machine_code(a, b),
        iva.args == ivb.args,
    ensures
        cong_ok(
            crate::interp::spec_bitwise(a, iva, f),
            crate::interp::spec_bitwise(b, ivb, f),
        ),
{
}

proof fn lemma_shift_cong(a: MView, b: MView, iva: InstrView, ivb: InstrView, left: bool)
    requires
        same_machine_code(a, b),
        iva.args == ivb.args,
    ensures
        cong_ok(
            crate::interp::spec_shift(a, iva, left),
            crate::interp::spec_shift(b, ivb, left),
        ),
{
    if iva.args.len() == 3 {
        lemma_operand_addr_cong(a, b, iva.args[2]);
    }
}

proof fn lemma_cmp_cong(a: MView, b: MView, iva: InstrView, ivb: InstrView)
    requires
        same_machine_code(a, b),
        iva.args == ivb.args,
    ensures
        cong_ok(crate::interp::spec_cmp(a, iva), crate::interp::spec_cmp(b, ivb)),
{
}

proof fn lemma_branch_cong(a: MView, b: MView, iva: InstrView, ivb: InstrView, taken: bool)
    requires
        same_machine_code(a, b),
        iva.args == ivb.args,
    ensures
        cong_ok(
            crate::interp::spec_branch(a, iva, taken),
            crate::interp::spec_branch(b, ivb, taken),
        ),
{
    if iva.args.len() == 1 {
        lemma_jump_target_cong(a, b, iva.args[0]);
    }
}

proof fn lemma_halt_cong(a: MView, b: MView, iva: InstrView, ivb: InstrView)
    requires
        same_machine_code(a, b),
        iva.args == ivb.args,
    ensures
        cong_ok(crate::interp::spec_halt(a, iva), crate::interp::spec_halt(b, ivb)),
{
}

proof fn lemma_dispatch_cong(a: MView, b: MView, iva: InstrView, ivb: InstrView)
    requires
        same_machine_code(a, b),
        iva.op == ivb.op,
        iva.args == ivb.args,
    ensures
        cong_ok(
            crate::interp::spec_dispatch(a, iva),
            crate::interp::spec_dispatch(b, ivb),
        ),
{
    let op = iva.op;
    if op == "LOADI"@ {
        lemma_loadi_cong(a, b, iva, ivb);
    } else if op == "LOAD"@ {
        lemma_load_op_cong(a, b, iva, ivb);
    } else if op == "STORE"@ {
        lemma_store_cong(a, b, iva, ivb);
    } else if op == "ADD"@ {
        lemma_add_cong(a, b, iva, ivb, false);
    } else if op == "ADDI"@ {
        lemma_add_cong(a, b, iva, ivb, true);
    } else if op == "SUB"@ {
        lemma_sub_cong(a, b, iva, ivb, false);
    } else if op == "SUBI"@ {
        lemma_sub_cong(a, b, iva, ivb, true);
    } else if op == "AND"@ {
        lemma_bitwise_cong(a, b, iva, ivb, |x: u32, y: u32| x & y);
    } else if op == "OR"@ {
        lemma_bitwise_cong(a, b, iva, ivb, |x: u32, y: u32| x | y);
    } else if op == "XOR"@ {
        lemma_bitwise_cong(a, b, iva, ivb, |x: u32, y: u32| x ^ y);
    } else if op == "SHL"@ {
        lemma_shift_cong(a, b, iva, ivb, true);
    } else if op == "SHR"@ {
        lemma_shift_cong(a, b, iva, ivb, false);
    } else if op == "CMP"@ {
        lemma_cmp_cong(a, b, iva, ivb);
    } else if op == "JMP"@ {
        lemma_branch_cong(a, b, iva, ivb, true);
    } else if op == "JZ"@ {
        lemma_branch_cong(a, b, iva, ivb, a.flags.zero);
    } else if op == "JNZ"@ {
        lemma_branch_cong(a, b, iva, ivb, !a.flags.zero);
    } else if op == "JC"@ {
        lemma_branch_cong(a, b, iva, ivb, a.flags.carry);
    } else if op == "JNC"@ {
        lemma_branch_cong(a, b, iva, ivb, !a.flags.carry);
    } else if op == "JLT"@ {
        lemma_branch_cong(a, b, iva, ivb, a.flags.negative);
    } else if op == "JGE"@ {
        lemma_branch_cong(a, b, iva, ivb, !a.flags.negative);
    } else if op == "JLE"@ {
        lemma_branch_cong(a, b, iva, ivb, a.flags.zero || a.flags.negative);
    } else if op == "HALT"@ {
        lemma_halt_cong(a, b, iva, ivb);
    } else {
    }
}

/// A step cares only about the decoded instructions, never about their
/// line numbers or raw text: machines with the same code step to
/// machines with the same code, failing together (only the message text
/// of a failure can differ).
pub proof fn lemma_step_respects_code(a: MView, b: MView)
    requires
        same_machine_code(a, b),
    ensures
        same_machine_code(spec_step(a).post, spec_step(b).post),
        spec_step(a).err is Some <==> spec_step(b).err is Some,
{
    if !a.halted && a.pc < a.insts.len() {
        let iva = a.insts[a.pc as int];
        let ivb = b.insts[b.pc as int];
        lemma_dispatch_cong(a, b, iva, ivb);
    }
}

/// A whole run cares only about the decoded instructions: same code in,
/// same registers, flags, memory and halt state out, with failures
/// arising together.
pub proof fn lemma_run_respects_code(a: MView, b: MView, max: nat)
    requires
        same_machine_code(a, b),
    ensures
        same_machine_code(
            crate::interp::spec_run(a, max).post,
            crate::interp::spec_run(b, max).post,
        ),
        crate::interp::spec_run(a, max).err is Some <==> crate::interp::spec_run(b, max).err
            is Some,
    decreases crate::interp::run_measure(a, max),
{
    if a.halted {
    } else if a.count >= max {
    } else {
        lemma_step_respects_code(a, b);
        let sa = spec_step(a);
        let sb = spec_step(b);
        match sa.err {
            Some(_) => {},
            None => {
                crate::interp::lemma_step_count(a);
                lemma_run_respects_code(sa.post, sb.post, max);
            },
        }
    }
}

} // verus!
