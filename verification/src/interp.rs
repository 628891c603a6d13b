//! The fetch-decode-execute interpreter: operand-as-address resolution,
//! jump targets, per-opcode semantics and the step and run drivers, all
//! against a functional model `spec_step` / `spec_run` over machine views.

use vstd::prelude::*;
use crate::machine::Custom32Emulator;
use crate::machine::EmulatorError;
use crate::machine::ErrView;
use crate::machine::Instruction;
use crate::machine::InstrView;
use crate::machine::MView;
use crate::machine::REGISTER_COUNT;
use crate::machine::add_flags;
use crate::machine::add_result;
use crate::machine::logic_flags;
use crate::machine::obeys;
use crate::machine::read_word_spec;
use crate::machine::run_err;
use crate::machine::shl_result;
use crate::machine::shr_result;
use crate::machine::sub_flags;
use crate::machine::sub_result;
use crate::machine::write_word_spec;
use crate::loader::label_find;
use crate::loader::spec_parse_imm;
use crate::loader::spec_parse_register;
use crate::numfmt::dec_int_chars;
use crate::numfmt::dec_i64_string;
use crate::numfmt::dec_nat_chars;
use crate::numfmt::dec_string;
use crate::text::spec_trim;
use crate::text::to_upper;
use crate::text::trim_str;
use crate::text::upper_seq;
use vstd::string::StringExecFns;
use vstd::string::StrSliceExecFns;
use std::io::Write;

verus! {

/// The low 32 bits of an integer, as unsigned truncation takes them.
pub open spec fn to_u32(v: int) -> u32 {
    (v % 0x1_0000_0000) as u32
}

/// A register write as seen on the register file: writes to register 0
/// are discarded.
pub open spec fn write_reg_spec(regs: Seq<u32>, rd: int, v: u32) -> Seq<u32> {
    if rd != 0 {
        regs.update(rd, v)
    } else {
        regs
    }
}

/// The tri-modal operand rule: a register token yields that register's
/// current value, a known label its instruction index, anything else its
/// immediate value truncated to 32 bits.
pub open spec fn spec_operand_addr(m: MView, token: Seq<char>) -> Result<u32, ErrView> {
    let t = spec_trim(token);
    if upper_seq(t).len() > 0 && upper_seq(t)[0] == 'R' {
        match spec_parse_register(t) {
            Ok(idx) => Ok(m.regs[idx]),
            Err(e) => Err(e),
        }
    } else {
        match label_find(m.labels, t) {
            Some(target) => Ok(to_u32(target as int)),
            None => match spec_parse_imm(t) {
                Ok(v) => Ok(to_u32(v)),
                Err(e) => Err(e),
            },
        }
    }
}

/// The jump-target rule: a known label's index, else a non-negative
/// immediate taken as an instruction index.
pub open spec fn spec_jump_target(m: MView, target: Seq<char>) -> Result<nat, ErrView> {
    match label_find(m.labels, target) {
        Some(pc) => Ok(pc),
        None => match spec_parse_imm(target) {
            Err(e) => Err(e),
            Ok(idx) => if idx < 0 {
                Err(run_err("Negative jump target: "@ + dec_int_chars(idx)))
            } else if idx > usize::MAX as int {
                Ok(usize::MAX as nat)
            } else {
                Ok(idx as nat)
            },
        },
    }
}

/// The diagnostic for an arity mismatch.
pub open spec fn wrong_arity_msg(iv: InstrView, want: nat) -> Seq<char> {
    "Wrong arg count for "@ + iv.op + " at line "@ + dec_nat_chars(iv.line_no) + ": expected "@
        + dec_nat_chars(want) + ", got "@ + dec_nat_chars(iv.args.len())
}

/// The diagnostic for an opcode the interpreter does not know.
pub open spec fn unsupported_msg(iv: InstrView) -> Seq<char> {
    "Unsupported opcode '"@ + iv.op + "' at line "@ + dec_nat_chars(iv.line_no) + ": "@ + iv.raw
}

impl Custom32Emulator {
    /// Resolve an operand that may be a register, a label, or an
    /// immediate, to a 32-bit value.
    pub(crate) fn parse_operand_address(&self, token: &str) -> (r: Result<u32, EmulatorError>)
        requires
            self.registers@.len() == REGISTER_COUNT,
        ensures
            obeys(r, spec_operand_addr(self@, token@)),
    {
        let trimmed = trim_str(token);
        let up = to_upper(trimmed);
        if up.as_str().unicode_len() > 0 && up.as_str().get_char(0) == 'R' {
            match Self::parse_register(trimmed) {
                Ok(idx) => Ok(self.registers[idx]),
                Err(e) => Err(e),
            }
        } else {
            match self.find_label(trimmed) {
                Some(target) => {
                    let w = #[verifier::truncate] (target as u32);
                    proof {
                        assert(target as u32 == to_u32(target as int)) by (bit_vector);
                    }
                    Ok(w)
                },
                None => match Self::parse_imm(trimmed) {
                    Ok(v) => {
                        let w = #[verifier::truncate] (v as u32);
                        proof {
                            assert(v as u32 == to_u32(v as int)) by (bit_vector);
                        }
                        Ok(w)
                    },
                    Err(e) => Err(e),
                },
            }
        }
    }

    /// Set the program counter to a jump target: a label, else a
    /// non-negative immediate instruction index.
    pub(crate) fn jump_to(&mut self, target: &str) -> (r: Result<(), EmulatorError>)
        ensures
            final(self).memory == old(self).memory,
            final(self).registers == old(self).registers,
            final(self).flags == old(self).flags,
            final(self).halted == old(self).halted,
            final(self).instruction_count == old(self).instruction_count,
            final(self).instructions == old(self).instructions,
            final(self).labels == old(self).labels,
            match (r, spec_jump_target(old(self)@, target@)) {
                (Ok(_), Ok(t)) => final(self).pc as nat == t,
                (Err(e), Err(f)) => e@ == f && final(self).pc == old(self).pc,
                _ => false,
            },
    {
        match self.find_label(target) {
            Some(pc) => {
                self.pc = pc;
                return Ok(());
            },
            None => {},
        }
        match Self::parse_imm(target) {
            Err(e) => Err(e),
            Ok(idx) => {
                if idx < 0 {
                    let mut m = String::new();
                    m.append("Negative jump target: ");
                    let digits = dec_i64_string(idx);
                    m.append(digits.as_str());
                    Err(EmulatorError::Exec(m))
                } else {
                    // an index beyond the address width can never fetch;
                    // pin it at the top so the next step reports it
                    let t: usize = if (idx as u64) > (usize::MAX as u64) {
                        usize::MAX
                    } else {
                        idx as usize
                    };
                    self.pc = t;
                    Ok(())
                }
            },
        }
    }

    /// Check an instruction's operand count before anything else runs.
    pub(crate) fn ensure_args(inst: &Instruction, want: usize) -> (r: Result<(), EmulatorError>)
        ensures
            match r {
                Ok(_) => inst@.args.len() == want,
                Err(e) => inst@.args.len() != want && e@ == run_err(wrong_arity_msg(inst@, want as nat)),
            },
    {
        if inst.args.len() != want {
            let mut m = String::new();
            m.append("Wrong arg count for ");
            m.append(inst.op.as_str());
            m.append(" at line ");
            let d1 = dec_string(inst.line_no as u64);
            m.append(d1.as_str());
            m.append(": expected ");
            let d2 = dec_string(want as u64);
            m.append(d2.as_str());
            m.append(", got ");
            let d3 = dec_string(inst.args.len() as u64);
            m.append(d3.as_str());
            proof {
                assert(m@ =~= wrong_arity_msg(inst@, want as nat));
            }
            return Err(EmulatorError::Exec(m));
        }
        Ok(())
    }
}

// ───────────────────────── the dispatch model ──────────────────────────

/// Outcome of dispatching one decoded instruction: the machine with the
/// handler's effect applied (unchanged on error), the following program
/// counter, and the error if one arose.
#[verifier::ext_equal]
pub ghost struct DispatchOut {
    pub mid: MView,
    pub next_pc: nat,
    pub err: Option<ErrView>,
}

pub open spec fn d_err(m: MView, e: ErrView) -> DispatchOut {
    DispatchOut { mid: m, next_pc: (m.pc + 1) as nat, err: Some(e) }
}

pub open spec fn d_ok(mid: MView, next_pc: nat) -> DispatchOut {
    DispatchOut { mid, next_pc, err: None }
}

pub open spec fn spec_loadi(m: MView, iv: InstrView) -> DispatchOut {
    if iv.args.len() != 2 {
        d_err(m, run_err(wrong_arity_msg(iv, 2)))
    } else {
        match spec_parse_register(iv.args[0]) {
            Err(e) => d_err(m, e),
            Ok(rd) => match spec_operand_addr(m, iv.args[1]) {
                Err(e) => d_err(m, e),
                Ok(imm) => d_ok(
                    MView { regs: write_reg_spec(m.regs, rd, imm), flags: logic_flags(imm), ..m },
                    (m.pc + 1) as nat,
                ),
            },
        }
    }
}

pub open spec fn spec_load_op(m: MView, iv: InstrView) -> DispatchOut {
    if iv.args.len() != 2 {
        d_err(m, run_err(wrong_arity_msg(iv, 2)))
    } else {
        match spec_parse_register(iv.args[0]) {
            Err(e) => d_err(m, e),
            Ok(rd) => match spec_operand_addr(m, iv.args[1]) {
                Err(e) => d_err(m, e),
                Ok(addr) => match read_word_spec(m.mem, addr) {
                    Err(e) => d_err(m, e),
                    Ok(val) => d_ok(
                        MView {
                            regs: write_reg_spec(m.regs, rd, val),
                            flags: logic_flags(val),
                            ..m
                        },
                        (m.pc + 1) as nat,
                    ),
                },
            },
        }
    }
}

pub open spec fn spec_store(m: MView, iv: InstrView) -> DispatchOut {
    if iv.args.len() != 2 {
        d_err(m, run_err(wrong_arity_msg(iv, 2)))
    } else {
        match spec_parse_register(iv.args[0]) {
            Err(e) => d_err(m, e),
            Ok(rs) => match spec_operand_addr(m, iv.args[1]) {
                Err(e) => d_err(m, e),
                Ok(addr) => match write_word_spec(m.mem, addr, m.regs[rs]) {
                    Err(e) => d_err(m, e),
                    Ok(mem2) => d_ok(MView { mem: mem2, ..m }, (m.pc + 1) as nat),
                },
            },
        }
    }
}

pub open spec fn spec_add_op(m: MView, iv: InstrView, imm_mode: bool) -> DispatchOut {
    if iv.args.len() != 3 {
        d_err(m, run_err(wrong_arity_msg(iv, 3)))
    } else {
        match spec_parse_register(iv.args[0]) {
            Err(e) => d_err(m, e),
            Ok(rd) => match spec_parse_register(iv.args[1]) {
                Err(e) => d_err(m, e),
                Ok(rs1) => {
                    let bsrc: Result<u32, ErrView> = if imm_mode {
                        spec_operand_addr(m, iv.args[2])
                    } else {
                        match spec_parse_register(iv.args[2]) {
                            Err(e) => Err(e),
                            Ok(rs2) => Ok(m.regs[rs2]),
                        }
                    };
                    match bsrc {
                        Err(e) => d_err(m, e),
                        Ok(b) => {
                            let a = m.regs[rs1];
                            d_ok(
                                MView {
                                    regs: write_reg_spec(m.regs, rd, add_result(a, b)),
                                    flags: add_flags(a, b),
                                    ..m
                                },
                                (m.pc + 1) as nat,
                            )
                        },
                    }
                },
            },
        }
    }
}

pub open spec fn spec_sub_op(m: MView, iv: InstrView, imm_mode: bool) -> DispatchOut {
    if iv.args.len() != 3 {
        d_err(m, run_err(wrong_arity_msg(iv, 3)))
    } else {
        match spec_parse_register(iv.args[0]) {
            Err(e) => d_err(m, e),
            Ok(rd) => match spec_parse_register(iv.args[1]) {
                Err(e) => d_err(m, e),
                Ok(rs1) => {
                    let bsrc: Result<u32, ErrView> = if imm_mode {
                        spec_operand_addr(m, iv.args[2])
                    } else {
                        match spec_parse_register(iv.args[2]) {
                            Err(e) => Err(e),
                            Ok(rs2) => Ok(m.regs[rs2]),
                        }
                    };
                    match bsrc {
                        Err(e) => d_err(m, e),
                        Ok(b) => {
                            let a = m.regs[rs1];
                            d_ok(
                                MView {
                                    regs: write_reg_spec(m.regs, rd, sub_result(a, b)),
                                    flags: sub_flags(a, b),
                                    ..m
                                },
                                (m.pc + 1) as nat,
                            )
                        },
                    }
                },
            },
        }
    }
}

/// The three bitwise operations share everything but the operator.
pub open spec fn spec_bitwise(m: MView, iv: InstrView, result_of: spec_fn(u32, u32) -> u32)
    -> DispatchOut {
    if iv.args.len() != 3 {
        d_err(m, run_err(wrong_arity_msg(iv, 3)))
    } else {
        match spec_parse_register(iv.args[0]) {
            Err(e) => d_err(m, e),
            Ok(rd) => match spec_parse_register(iv.args[1]) {
                Err(e) => d_err(m, e),
                Ok(rs1) => match spec_parse_register(iv.args[2]) {
                    Err(e) => d_err(m, e),
                    Ok(rs2) => {
                        let result = result_of(m.regs[rs1], m.regs[rs2]);
                        d_ok(
                            MView {
                                regs: write_reg_spec(m.regs, rd, result),
                                flags: logic_flags(result),
                                ..m
                            },
                            (m.pc + 1) as nat,
                        )
                    },
                },
            },
        }
    }
}

pub open spec fn spec_shift(m: MView, iv: InstrView, left: bool) -> DispatchOut {
    if iv.args.len() != 3 {
        d_err(m, run_err(wrong_arity_msg(iv, 3)))
    } else {
        match spec_parse_register(iv.args[0]) {
            Err(e) => d_err(m, e),
            Ok(rd) => match spec_parse_register(iv.args[1]) {
                Err(e) => d_err(m, e),
                Ok(rs1) => match spec_operand_addr(m, iv.args[2]) {
                    Err(e) => d_err(m, e),
                    Ok(amt) => {
                        let result = if left {
                            shl_result(m.regs[rs1], amt)
                        } else {
                            shr_result(m.regs[rs1], amt)
                        };
                        d_ok(
                            MView {
                                regs: write_reg_spec(m.regs, rd, result),
                                flags: logic_flags(result),
                                ..m
                            },
                            (m.pc + 1) as nat,
                        )
                    },
                },
            },
        }
    }
}

pub open spec fn spec_cmp(m: MView, iv: InstrView) -> DispatchOut {
    if iv.args.len() != 2 {
        d_err(m, run_err(wrong_arity_msg(iv, 2)))
    } else {
        match spec_parse_register(iv.args[0]) {
            Err(e) => d_err(m, e),
            Ok(rs1) => match spec_parse_register(iv.args[1]) {
                Err(e) => d_err(m, e),
                Ok(rs2) => d_ok(
                    MView { flags: sub_flags(m.regs[rs1], m.regs[rs2]), ..m },
                    (m.pc + 1) as nat,
                ),
            },
        }
    }
}

pub open spec fn spec_branch(m: MView, iv: InstrView, taken: bool) -> DispatchOut {
    if iv.args.len() != 1 {
        d_err(m, run_err(wrong_arity_msg(iv, 1)))
    } else if !taken {
        d_ok(m, (m.pc + 1) as nat)
    } else {
        match spec_jump_target(m, iv.args[0]) {
            Err(e) => d_err(m, e),
            Ok(t) => d_ok(MView { pc: t, ..m }, t),
        }
    }
}

pub open spec fn spec_halt(m: MView, iv: InstrView) -> DispatchOut {
    if iv.args.len() != 0 {
        d_err(m, run_err(wrong_arity_msg(iv, 0)))
    } else {
        d_ok(MView { halted: true, ..m }, (m.pc + 1) as nat)
    }
}

/// Decode a mnemonic and apply its handler; an unknown mnemonic is an
/// execution-time error.
pub open spec fn spec_dispatch(m: MView, iv: InstrView) -> DispatchOut {
    let op = iv.op;
    if op == "LOADI"@ {
        spec_loadi(m, iv)
    } else if op == "LOAD"@ {
        spec_load_op(m, iv)
    } else if op == "STORE"@ {
        spec_store(m, iv)
    } else if op == "ADD"@ {
        spec_add_op(m, iv, false)
    } else if op == "ADDI"@ {
        spec_add_op(m, iv, true)
    } else if op == "SUB"@ {
        spec_sub_op(m, iv, false)
    } else if op == "SUBI"@ {
        spec_sub_op(m, iv, true)
    } else if op == "AND"@ {
        spec_bitwise(m, iv, |a: u32, b: u32| a & b)
    } else if op == "OR"@ {
        spec_bitwise(m, iv, |a: u32, b: u32| a | b)
    } else if op == "XOR"@ {
        spec_bitwise(m, iv, |a: u32, b: u32| a ^ b)
    } else if op == "SHL"@ {
        spec_shift(m, iv, true)
    } else if op == "SHR"@ {
        spec_shift(m, iv, false)
    } else if op == "CMP"@ {
        spec_cmp(m, iv)
    } else if op == "JMP"@ {
        spec_branch(m, iv, true)
    } else if op == "JZ"@ {
        spec_branch(m, iv, m.flags.zero)
    } else if op == "JNZ"@ {
        spec_branch(m, iv, !m.flags.zero)
    } else if op == "JC"@ {
        spec_branch(m, iv, m.flags.carry)
    } else if op == "JNC"@ {
        spec_branch(m, iv, !m.flags.carry)
    } else if op == "JLT"@ {
        spec_branch(m, iv, m.flags.negative)
    } else if op == "JGE"@ {
        spec_branch(m, iv, !m.flags.negative)
    } else if op == "JLE"@ {
        spec_branch(m, iv, m.flags.zero || m.flags.negative)
    } else if op == "HALT"@ {
        spec_halt(m, iv)
    } else {
        d_err(m, run_err(unsupported_msg(iv)))
    }
}

/// A step is retired by storing the next program counter, re-zeroing
/// register 0, and counting the step.
pub open spec fn retire(m: MView, next_pc: nat) -> MView {
    MView { pc: next_pc, regs: m.regs.update(0, 0u32), count: (m.count + 1) as nat, ..m }
}

/// Outcome of one step or of a whole run: the machine afterwards and the
/// error, if any. A failed step leaves the machine unchanged.
#[verifier::ext_equal]
pub ghost struct StepOut {
    pub post: MView,
    pub err: Option<ErrView>,
}

/// One fetch-decode-execute step: a halted machine is left alone, a
/// program counter past the end is an error, otherwise the instruction
/// at the program counter is dispatched and the step retired.
pub open spec fn spec_step(m: MView) -> StepOut {
    if m.halted {
        StepOut { post: m, err: None }
    } else if m.pc >= m.insts.len() {
        StepOut { post: m, err: Some(run_err("PC out of range: "@ + dec_nat_chars(m.pc))) }
    } else {
        let d = spec_dispatch(m, m.insts[m.pc as int]);
        match d.err {
            Some(e) => StepOut { post: m, err: Some(e) },
            None => StepOut { post: retire(d.mid, d.next_pc), err: None },
        }
    }
}


/// Every handler keeps the step counter and the register count, and a
/// failed handler leaves the machine unchanged: the shared shape of the
/// per-opcode frame facts.
pub open spec fn frame_ok(m: MView, d: DispatchOut) -> bool {
    &&& d.mid.count == m.count
    &&& (m.regs.len() == REGISTER_COUNT ==> d.mid.regs.len() == m.regs.len())
    &&& (d.err is Some ==> d.mid == m)
}

proof fn lemma_loadi_frame(m: MView, iv: InstrView)
    ensures
        frame_ok(m, spec_loadi(m, iv)),
{
    if iv.args.len() > 0 {
        crate::loader::lemma_parse_register_range(iv.args[0]);
    }
}

proof fn lemma_load_op_frame(m: MView, iv: InstrView)
    ensures
        frame_ok(m, spec_load_op(m, iv)),
{
    if iv.args.len() > 0 {
        crate::loader::lemma_parse_register_range(iv.args[0]);
    }
}

proof fn lemma_store_frame(m: MView, iv: InstrView)
    ensures
        frame_ok(m, spec_store(m, iv)),
{
}

proof fn lemma_add_frame(m: MView, iv: InstrView, imm_mode: bool)
    ensures
        frame_ok(m, spec_add_op(m, iv, imm_mode)),
{
    if iv.args.len() > 0 {
        crate::loader::lemma_parse_register_range(iv.args[0]);
    }
}

proof fn lemma_sub_frame(m: MView, iv: InstrView, imm_mode: bool)
    ensures
        frame_ok(m, spec_sub_op(m, iv, imm_mode)),
{
    if iv.args.len() > 0 {
        crate::loader::lemma_parse_register_range(iv.args[0]);
    }
}

proof fn lemma_bitwise_frame(m: MView, iv: InstrView, f: spec_fn(u32, u32) -> u32)
    ensures
        frame_ok(m, spec_bitwise(m, iv, f)),
{
    if iv.args.len() > 0 {
        crate::loader::lemma_parse_register_range(iv.args[0]);
    }
}

proof fn lemma_shift_frame(m: MView, iv: InstrView, left: bool)
    ensures
        frame_ok(m, spec_shift(m, iv, left)),
{
    if iv.args.len() > 0 {
        crate::loader::lemma_parse_register_range(iv.args[0]);
    }
}

proof fn lemma_cmp_frame(m: MView, iv: InstrView)
    ensures
        frame_ok(m, spec_cmp(m, iv)),
{
}

proof fn lemma_branch_frame(m: MView, iv: InstrView, taken: bool)
    ensures
        frame_ok(m, spec_branch(m, iv, taken)),
{
}

proof fn lemma_halt_frame(m: MView, iv: InstrView)
    ensures
        frame_ok(m, spec_halt(m, iv)),
{
}

/// Dispatch never touches the step counter, and a failed dispatch leaves
/// the machine unchanged.
#[verifier::rlimit(100)]
#[verifier::spinoff_prover]
pub proof fn lemma_dispatch_frame(m: MView, iv: InstrView)
    ensures
        frame_ok(m, spec_dispatch(m, iv)),
{
    let op = iv.op;
    if op == "LOADI"@ {
        lemma_loadi_frame(m, iv);
    } else if op == "LOAD"@ {
        lemma_load_op_frame(m, iv);
    } else if op == "STORE"@ {
        lemma_store_frame(m, iv);
    } else if op == "ADD"@ {
        lemma_add_frame(m, iv, false);
    } else if op == "ADDI"@ {
        lemma_add_frame(m, iv, true);
    } else if op == "SUB"@ {
        lemma_sub_frame(m, iv, false);
    } else if op == "SUBI"@ {
        lemma_sub_frame(m, iv, true);
    } else if op == "AND"@ {
        lemma_bitwise_frame(m, iv, |a: u32, b: u32| a & b);
    } else if op == "OR"@ {
        lemma_bitwise_frame(m, iv, |a: u32, b: u32| a | b);
    } else if op == "XOR"@ {
        lemma_bitwise_frame(m, iv, |a: u32, b: u32| a ^ b);
    } else if op == "SHL"@ {
        lemma_shift_frame(m, iv, true);
    } else if op == "SHR"@ {
        lemma_shift_frame(m, iv, false);
    } else if op == "CMP"@ {
        lemma_cmp_frame(m, iv);
    } else if op == "JMP"@ {
        lemma_branch_frame(m, iv, true);
    } else if op == "JZ"@ {
        lemma_branch_frame(m, iv, m.flags.zero);
    } else if op == "JNZ"@ {
        lemma_branch_frame(m, iv, !m.flags.zero);
    } else if op == "JC"@ {
        lemma_branch_frame(m, iv, m.flags.carry);
    } else if op == "JNC"@ {
        lemma_branch_frame(m, iv, !m.flags.carry);
    } else if op == "JLT"@ {
        lemma_branch_frame(m, iv, m.flags.negative);
    } else if op == "JGE"@ {
        lemma_branch_frame(m, iv, !m.flags.negative);
    } else if op == "JLE"@ {
        lemma_branch_frame(m, iv, m.flags.zero || m.flags.negative);
    } else if op == "HALT"@ {
        lemma_halt_frame(m, iv);
    } else {
    }
}

/// A successful step of a machine that was not halted counts exactly one
/// more executed instruction.
pub proof fn lemma_step_count(m: MView)
    ensures
        !m.halted && spec_step(m).err is None ==> spec_step(m).post.count == m.count + 1,
        spec_step(m).err is Some ==> spec_step(m).post == m,
{
    if !m.halted && m.pc < m.insts.len() {
        lemma_dispatch_frame(m, m.insts[m.pc as int]);
    }
}

// ───────────────────────── the run model ────────────────────────────────

/// The diagnostic when the step budget runs out without a halt.
pub open spec fn no_halt_msg(max: nat) -> Seq<char> {
    "Execution did not halt after "@ + dec_nat_chars(max) + " steps"@
}

pub open spec fn run_measure(m: MView, max: nat) -> nat {
    if m.count >= max {
        0
    } else {
        (max - m.count) as nat
    }
}

/// Repeated stepping while the machine has not halted and the budget is
/// not exhausted; an exhausted budget without a halt is an error.
pub open spec fn spec_run(m: MView, max: nat) -> StepOut
    decreases run_measure(m, max),
    via spec_run_dec
{
    if m.halted {
        StepOut { post: m, err: None }
    } else if m.count >= max {
        StepOut { post: m, err: Some(run_err(no_halt_msg(max))) }
    } else {
        let s = spec_step(m);
        match s.err {
            Some(e) => StepOut { post: s.post, err: Some(e) },
            None => spec_run(s.post, max),
        }
    }
}

#[via_fn]
proof fn spec_run_dec(m: MView, max: nat) {
    lemma_step_count(m);
}

// ───────────────────────── executable opcode handlers ───────────────────

/// Relies on `std::io::Stdout` to print one trace line per executed
/// instruction; nothing is assumed about the write.
#[verifier::external_body]
fn trace_line(pc: usize, raw: &str) {
    let mut out = std::io::stdout();
    let _ = writeln!(out, "pc={:04} | {}", pc, raw);
}

impl Custom32Emulator {
    fn op_loadi(&mut self, inst: &Instruction) -> (r: Result<usize, EmulatorError>)
        requires
            old(self).registers@.len() == REGISTER_COUNT,
            old(self).pc < usize::MAX,
        ensures
            ({
                let d = spec_loadi(old(self)@, inst@);
                match r {
                    Ok(npc) => d.err is None && final(self)@ == d.mid && npc as nat == d.next_pc,
                    Err(e) => d.err == Some(e@) && final(self)@ == old(self)@,
                }
            }),
            final(self).instruction_count == old(self).instruction_count,
            final(self).instructions == old(self).instructions,
            final(self).labels == old(self).labels,
            final(self).registers@.len() == old(self).registers@.len(),
    {
        match Self::ensure_args(inst, 2) {
            Err(e) => {
                return Err(e);
            },
            Ok(_) => {},
        }
        let rd = match Self::parse_register(inst.args[0].as_str()) {
            Err(e) => {
                return Err(e);
            },
            Ok(v) => v,
        };
        let imm = match self.parse_operand_address(inst.args[1].as_str()) {
            Err(e) => {
                return Err(e);
            },
            Ok(v) => v,
        };
        self.write_reg(rd, imm);
        self.set_logic_flags(imm);
        proof {
            assert(self@ =~= spec_loadi(old(self)@, inst@).mid);
        }
        Ok(self.pc + 1)
    }

    fn op_load(&mut self, inst: &Instruction) -> (r: Result<usize, EmulatorError>)
        requires
            old(self).registers@.len() == REGISTER_COUNT,
            old(self).pc < usize::MAX,
        ensures
            ({
                let d = spec_load_op(old(self)@, inst@);
                match r {
                    Ok(npc) => d.err is None && final(self)@ == d.mid && npc as nat == d.next_pc,
                    Err(e) => d.err == Some(e@) && final(self)@ == old(self)@,
                }
            }),
            final(self).instruction_count == old(self).instruction_count,
            final(self).instructions == old(self).instructions,
            final(self).labels == old(self).labels,
            final(self).registers@.len() == old(self).registers@.len(),
    {
        match Self::ensure_args(inst, 2) {
            Err(e) => {
                return Err(e);
            },
            Ok(_) => {},
        }
        let rd = match Self::parse_register(inst.args[0].as_str()) {
            Err(e) => {
                return Err(e);
            },
            Ok(v) => v,
        };
        let addr = match self.parse_operand_address(inst.args[1].as_str()) {
            Err(e) => {
                return Err(e);
            },
            Ok(v) => v,
        };
        let val = match self.read_word(addr) {
            Err(e) => {
                return Err(e);
            },
            Ok(v) => v,
        };
        self.write_reg(rd, val);
        self.set_logic_flags(val);
        proof {
            assert(self@ =~= spec_load_op(old(self)@, inst@).mid);
        }
        Ok(self.pc + 1)
    }

    fn op_store(&mut self, inst: &Instruction) -> (r: Result<usize, EmulatorError>)
        requires
            old(self).registers@.len() == REGISTER_COUNT,
            old(self).pc < usize::MAX,
        ensures
            ({
                let d = spec_store(old(self)@, inst@);
                match r {
                    Ok(npc) => d.err is None && final(self)@ == d.mid && npc as nat == d.next_pc,
                    Err(e) => d.err == Some(e@) && final(self)@ == old(self)@,
                }
            }),
            final(self).instruction_count == old(self).instruction_count,
            final(self).instructions == old(self).instructions,
            final(self).labels == old(self).labels,
            final(self).registers@.len() == old(self).registers@.len(),
    {
        match Self::ensure_args(inst, 2) {
            Err(e) => {
                return Err(e);
            },
            Ok(_) => {},
        }
        let rs = match Self::parse_register(inst.args[0].as_str()) {
            Err(e) => {
                return Err(e);
            },
            Ok(v) => v,
        };
        let addr = match self.parse_operand_address(inst.args[1].as_str()) {
            Err(e) => {
                return Err(e);
            },
            Ok(v) => v,
        };
        let value = self.registers[rs];
        match self.write_word(addr, value) {
            Err(e) => {
                return Err(e);
            },
            Ok(_) => {},
        }
        proof {
            assert(self@ =~= spec_store(old(self)@, inst@).mid);
        }
        Ok(self.pc + 1)
    }

    fn op_add(&mut self, inst: &Instruction, imm_mode: bool) -> (r: Result<usize, EmulatorError>)
        requires
            old(self).registers@.len() == REGISTER_COUNT,
            old(self).pc < usize::MAX,
        ensures
            ({
                let d = spec_add_op(old(self)@, inst@, imm_mode);
                match r {
                    Ok(npc) => d.err is None && final(self)@ == d.mid && npc as nat == d.next_pc,
                    Err(e) => d.err == Some(e@) && final(self)@ == old(self)@,
                }
            }),
            final(self).instruction_count == old(self).instruction_count,
            final(self).instructions == old(self).instructions,
            final(self).labels == old(self).labels,
            final(self).registers@.len() == old(self).registers@.len(),
    {
        match Self::ensure_args(inst, 3) {
            Err(e) => {
                return Err(e);
            },
            Ok(_) => {},
        }
        let rd = match Self::parse_register(inst.args[0].as_str()) {
            Err(e) => {
                return Err(e);
            },
            Ok(v) => v,
        };
        let rs1 = match Self::parse_register(inst.args[1].as_str()) {
            Err(e) => {
                return Err(e);
            },
            Ok(v) => v,
        };
        let b: u32 = if imm_mode {
            match self.parse_operand_address(inst.args[2].as_str()) {
                Err(e) => {
                    return Err(e);
                },
                Ok(v) => v,
            }
        } else {
            let rs2 = match Self::parse_register(inst.args[2].as_str()) {
                Err(e) => {
                    return Err(e);
                },
                Ok(v) => v,
            };
            self.registers[rs2]
        };
        let a = self.registers[rs1];
        let result = a.wrapping_add(b);
        let carry = (a as u64) + (b as u64) > 0xFFFF_FFFFu64;
        let overflow = (((a ^ result) & (b ^ result)) & 0x8000_0000u32) != 0;
        self.write_reg(rd, result);
        self.set_arith_flags(result, carry, overflow);
        proof {
            assert(self@ =~= spec_add_op(old(self)@, inst@, imm_mode).mid);
        }
        Ok(self.pc + 1)
    }

    fn op_sub(&mut self, inst: &Instruction, imm_mode: bool) -> (r: Result<usize, EmulatorError>)
        requires
            old(self).registers@.len() == REGISTER_COUNT,
            old(self).pc < usize::MAX,
        ensures
            ({
                let d = spec_sub_op(old(self)@, inst@, imm_mode);
                match r {
                    Ok(npc) => d.err is None && final(self)@ == d.mid && npc as nat == d.next_pc,
                    Err(e) => d.err == Some(e@) && final(self)@ == old(self)@,
                }
            }),
            final(self).instruction_count == old(self).instruction_count,
            final(self).instructions == old(self).instructions,
            final(self).labels == old(self).labels,
            final(self).registers@.len() == old(self).registers@.len(),
    {
        match Self::ensure_args(inst, 3) {
            Err(e) => {
                return Err(e);
            },
            Ok(_) => {},
        }
        let rd = match Self::parse_register(inst.args[0].as_str()) {
            Err(e) => {
                return Err(e);
            },
            Ok(v) => v,
        };
        let rs1 = match Self::parse_register(inst.args[1].as_str()) {
            Err(e) => {
                return Err(e);
            },
            Ok(v) => v,
        };
        let b: u32 = if imm_mode {
            match self.parse_operand_address(inst.args[2].as_str()) {
                Err(e) => {
                    return Err(e);
                },
                Ok(v) => v,
            }
        } else {
            let rs2 = match Self::parse_register(inst.args[2].as_str()) {
                Err(e) => {
                    return Err(e);
                },
                Ok(v) => v,
            };
            self.registers[rs2]
        };
        let a = self.registers[rs1];
        let result = a.wrapping_sub(b);
        let carry = a >= b;
        let overflow = (((a ^ b) & (a ^ result)) & 0x8000_0000u32) != 0;
        self.write_reg(rd, result);
        self.set_arith_flags(result, carry, overflow);
        proof {
            assert(self@ =~= spec_sub_op(old(self)@, inst@, imm_mode).mid);
        }
        Ok(self.pc + 1)
    }

    fn op_bitwise(&mut self, inst: &Instruction, which: u8) -> (r: Result<usize, EmulatorError>)
        requires
            old(self).registers@.len() == REGISTER_COUNT,
            old(self).pc < usize::MAX,
            which == 0 || which == 1 || which == 2,
        ensures
            ({
                let d = spec_bitwise(
                    old(self)@,
                    inst@,
                    if which == 0 {
                        |a: u32, b: u32| a & b
                    } else if which == 1 {
                        |a: u32, b: u32| a | b
                    } else {
                        |a: u32, b: u32| a ^ b
                    },
                );
                match r {
                    Ok(npc) => d.err is None && final(self)@ == d.mid && npc as nat == d.next_pc,
                    Err(e) => d.err == Some(e@) && final(self)@ == old(self)@,
                }
            }),
            final(self).instruction_count == old(self).instruction_count,
            final(self).instructions == old(self).instructions,
            final(self).labels == old(self).labels,
            final(self).registers@.len() == old(self).registers@.len(),
    {
        match Self::ensure_args(inst, 3) {
            Err(e) => {
                return Err(e);
            },
            Ok(_) => {},
        }
        let rd = match Self::parse_register(inst.args[0].as_str()) {
            Err(e) => {
                return Err(e);
            },
            Ok(v) => v,
        };
        let rs1 = match Self::parse_register(inst.args[1].as_str()) {
            Err(e) => {
                return Err(e);
            },
            Ok(v) => v,
        };
        let rs2 = match Self::parse_register(inst.args[2].as_str()) {
            Err(e) => {
                return Err(e);
            },
            Ok(v) => v,
        };
        let a = self.registers[rs1];
        let b = self.registers[rs2];
        let result = if which == 0 {
            a & b
        } else if which == 1 {
            a | b
        } else {
            a ^ b
        };
        self.write_reg(rd, result);
        self.set_logic_flags(result);
        proof {
            let f = if which == 0 {
                |a: u32, b: u32| a & b
            } else if which == 1 {
                |a: u32, b: u32| a | b
            } else {
                |a: u32, b: u32| a ^ b
            };
            assert(result == f(a, b));
            assert(self@ =~= spec_bitwise(old(self)@, inst@, f).mid);
        }
        Ok(self.pc + 1)
    }

    fn op_shift(&mut self, inst: &Instruction, left: bool) -> (r: Result<usize, EmulatorError>)
        requires
            old(self).registers@.len() == REGISTER_COUNT,
            old(self).pc < usize::MAX,
        ensures
            ({
                let d = spec_shift(old(self)@, inst@, left);
                match r {
                    Ok(npc) => d.err is None && final(self)@ == d.mid && npc as nat == d.next_pc,
                    Err(e) => d.err == Some(e@) && final(self)@ == old(self)@,
                }
            }),
            final(self).instruction_count == old(self).instruction_count,
            final(self).instructions == old(self).instructions,
            final(self).labels == old(self).labels,
            final(self).registers@.len() == old(self).registers@.len(),
    {
        match Self::ensure_args(inst, 3) {
            Err(e) => {
                return Err(e);
            },
            Ok(_) => {},
        }
        let rd = match Self::parse_register(inst.args[0].as_str()) {
            Err(e) => {
                return Err(e);
            },
            Ok(v) => v,
        };
        let rs1 = match Self::parse_register(inst.args[1].as_str()) {
            Err(e) => {
                return Err(e);
            },
            Ok(v) => v,
        };
        let amt = match self.parse_operand_address(inst.args[2].as_str()) {
            Err(e) => {
                return Err(e);
            },
            Ok(v) => v,
        };
        let sh: u32 = amt & 31;
        assert(amt & 31u32 < 32) by (bit_vector);
        let x = self.registers[rs1];
        let result = if left {
            x << sh
        } else {
            x >> sh
        };
        self.write_reg(rd, result);
        self.set_logic_flags(result);
        proof {
            assert(self@ =~= spec_shift(old(self)@, inst@, left).mid);
        }
        Ok(self.pc + 1)
    }

    fn op_cmp(&mut self, inst: &Instruction) -> (r: Result<usize, EmulatorError>)
        requires
            old(self).registers@.len() == REGISTER_COUNT,
            old(self).pc < usize::MAX,
        ensures
            ({
                let d = spec_cmp(old(self)@, inst@);
                match r {
                    Ok(npc) => d.err is None && final(self)@ == d.mid && npc as nat == d.next_pc,
                    Err(e) => d.err == Some(e@) && final(self)@ == old(self)@,
                }
            }),
            final(self).instruction_count == old(self).instruction_count,
            final(self).instructions == old(self).instructions,
            final(self).labels == old(self).labels,
            final(self).registers@.len() == old(self).registers@.len(),
    {
        match Self::ensure_args(inst, 2) {
            Err(e) => {
                return Err(e);
            },
            Ok(_) => {},
        }
        let rs1 = match Self::parse_register(inst.args[0].as_str()) {
            Err(e) => {
                return Err(e);
            },
            Ok(v) => v,
        };
        let rs2 = match Self::parse_register(inst.args[1].as_str()) {
            Err(e) => {
                return Err(e);
            },
            Ok(v) => v,
        };
        let a = self.registers[rs1];
        let b = self.registers[rs2];
        let result = a.wrapping_sub(b);
        let carry = a >= b;
        let overflow = (((a ^ b) & (a ^ result)) & 0x8000_0000u32) != 0;
        self.set_arith_flags(result, carry, overflow);
        proof {
            assert(self@ =~= spec_cmp(old(self)@, inst@).mid);
        }
        Ok(self.pc + 1)
    }

    fn op_branch(&mut self, inst: &Instruction, taken: bool) -> (r: Result<usize, EmulatorError>)
        requires
            old(self).registers@.len() == REGISTER_COUNT,
            old(self).pc < usize::MAX,
        ensures
            ({
                let d = spec_branch(old(self)@, inst@, taken);
                match r {
                    Ok(npc) => d.err is None && final(self)@ == d.mid && npc as nat == d.next_pc,
                    Err(e) => d.err == Some(e@) && final(self)@ == old(self)@,
                }
            }),
            final(self).instruction_count == old(self).instruction_count,
            final(self).instructions == old(self).instructions,
            final(self).labels == old(self).labels,
            final(self).registers@.len() == old(self).registers@.len(),
    {
        match Self::ensure_args(inst, 1) {
            Err(e) => {
                return Err(e);
            },
            Ok(_) => {},
        }
        if taken {
            match self.jump_to(inst.args[0].as_str()) {
                Err(e) => {
                    return Err(e);
                },
                Ok(_) => {},
            }
            proof {
                assert(self@ =~= spec_branch(old(self)@, inst@, taken).mid);
            }
            Ok(self.pc)
        } else {
            Ok(self.pc + 1)
        }
    }

    fn op_halt(&mut self, inst: &Instruction) -> (r: Result<usize, EmulatorError>)
        requires
            old(self).registers@.len() == REGISTER_COUNT,
            old(self).pc < usize::MAX,
        ensures
            ({
                let d = spec_halt(old(self)@, inst@);
                match r {
                    Ok(npc) => d.err is None && final(self)@ == d.mid && npc as nat == d.next_pc,
                    Err(e) => d.err == Some(e@) && final(self)@ == old(self)@,
                }
            }),
            final(self).instruction_count == old(self).instruction_count,
            final(self).instructions == old(self).instructions,
            final(self).labels == old(self).labels,
            final(self).registers@.len() == old(self).registers@.len(),
    {
        match Self::ensure_args(inst, 0) {
            Err(e) => {
                return Err(e);
            },
            Ok(_) => {},
        }
        self.halted = true;
        proof {
            assert(self@ =~= spec_halt(old(self)@, inst@).mid);
        }
        Ok(self.pc + 1)
    }

    /// One fetch-decode-execute step. A halted machine is left alone; a
    /// faulted step leaves the whole state unchanged; a successful step
    /// retires with `registers[0]` re-zeroed and the step counted.
    pub fn step(&mut self, trace: bool) -> (r: Result<(), EmulatorError>)
        requires
            old(self).wf(),
            old(self).halted || old(self).instruction_count < usize::MAX,
        ensures
            final(self).wf(),
            final(self)@ == spec_step(old(self)@).post,
            match r {
                Ok(_) => spec_step(old(self)@).err is None,
                Err(e) => spec_step(old(self)@).err == Some(e@),
            },
    {
        if self.halted {
            return Ok(());
        }
        if self.pc >= self.instructions.len() {
            let mut m = String::new();
            m.append("PC out of range: ");
            let d = dec_string(self.pc as u64);
            m.append(d.as_str());
            proof {
                assert(m@ =~= "PC out of range: "@ + dec_nat_chars(old(self)@.pc));
            }
            return Err(EmulatorError::Exec(m));
        }
        let inst = self.instructions[self.pc].clone();
        proof {
            assert(inst@ == old(self)@.insts[old(self)@.pc as int]);
        }
        if trace {
            trace_line(self.pc, inst.raw.as_str());
        }
        let res: Result<usize, EmulatorError> = if crate::text::str_eq(inst.op.as_str(), "LOADI") {
            self.op_loadi(&inst)
        } else if crate::text::str_eq(inst.op.as_str(), "LOAD") {
            self.op_load(&inst)
        } else if crate::text::str_eq(inst.op.as_str(), "STORE") {
            self.op_store(&inst)
        } else if crate::text::str_eq(inst.op.as_str(), "ADD") {
            self.op_add(&inst, false)
        } else if crate::text::str_eq(inst.op.as_str(), "ADDI") {
            self.op_add(&inst, true)
        } else if crate::text::str_eq(inst.op.as_str(), "SUB") {
            self.op_sub(&inst, false)
        } else if crate::text::str_eq(inst.op.as_str(), "SUBI") {
            self.op_sub(&inst, true)
        } else if crate::text::str_eq(inst.op.as_str(), "AND") {
            self.op_bitwise(&inst, 0)
        } else if crate::text::str_eq(inst.op.as_str(), "OR") {
            self.op_bitwise(&inst, 1)
        } else if crate::text::str_eq(inst.op.as_str(), "XOR") {
            self.op_bitwise(&inst, 2)
        } else if crate::text::str_eq(inst.op.as_str(), "SHL") {
            self.op_shift(&inst, true)
        } else if crate::text::str_eq(inst.op.as_str(), "SHR") {
            self.op_shift(&inst, false)
        } else if crate::text::str_eq(inst.op.as_str(), "CMP") {
            self.op_cmp(&inst)
        } else if crate::text::str_eq(inst.op.as_str(), "JMP") {
            self.op_branch(&inst, true)
        } else if crate::text::str_eq(inst.op.as_str(), "JZ") {
            let t = self.flags.zero;
            self.op_branch(&inst, t)
        } else if crate::text::str_eq(inst.op.as_str(), "JNZ") {
            let t = !self.flags.zero;
            self.op_branch(&inst, t)
        } else if crate::text::str_eq(inst.op.as_str(), "JC") {
            let t = self.flags.carry;
            self.op_branch(&inst, t)
        } else if crate::text::str_eq(inst.op.as_str(), "JNC") {
            let t = !self.flags.carry;
            self.op_branch(&inst, t)
        } else if crate::text::str_eq(inst.op.as_str(), "JLT") {
            let t = self.flags.negative;
            self.op_branch(&inst, t)
        } else if crate::text::str_eq(inst.op.as_str(), "JGE") {
            let t = !self.flags.negative;
            self.op_branch(&inst, t)
        } else if crate::text::str_eq(inst.op.as_str(), "JLE") {
            let t = self.flags.zero || self.flags.negative;
            self.op_branch(&inst, t)
        } else if crate::text::str_eq(inst.op.as_str(), "HALT") {
            self.op_halt(&inst)
        } else {
            let mut m = String::new();
            m.append("Unsupported opcode '");
            m.append(inst.op.as_str());
            m.append("' at line ");
            let d1 = dec_string(inst.line_no as u64);
            m.append(d1.as_str());
            m.append(": ");
            m.append(inst.raw.as_str());
            proof {
                assert(m@ =~= unsupported_msg(inst@));
            }
            Err(EmulatorError::Exec(m))
        };
        let ghost m0 = old(self)@;
        let ghost iv = m0.insts[m0.pc as int];
        let ghost dd = spec_dispatch(m0, iv);
        match res {
            Err(e) => {
                proof {
                    assert(dd.err == Some(e@));
                    lemma_dispatch_frame(m0, iv);
                    assert(spec_step(m0).err == Some(e@));
                }
                Err(e)
            },
            Ok(npc) => {
                proof {
                    assert(dd.err is None && self@ == dd.mid && npc as nat == dd.next_pc);
                    lemma_dispatch_frame(m0, iv);
                }
                self.pc = npc;
                self.registers[0] = 0;
                self.instruction_count += 1;
                proof {
                    assert(self@ =~= retire(dd.mid, dd.next_pc));
                    assert(spec_step(m0).post == self@);
                }
                Ok(())
            },
        }
    }

    /// Step repeatedly until the machine halts, the budget is exhausted,
    /// or a step fails. A successful return means the machine halted.
    pub fn run(&mut self, max_steps: usize, trace: bool) -> (r: Result<(), EmulatorError>)
        requires
            old(self).wf(),
        ensures
            final(self).wf(),
            final(self)@ == spec_run(old(self)@, max_steps as nat).post,
            match r {
                Ok(_) => spec_run(old(self)@, max_steps as nat).err is None && final(self).halted,
                Err(e) => spec_run(old(self)@, max_steps as nat).err == Some(e@),
            },
    {
        let ghost total = spec_run(old(self)@, max_steps as nat);
        while !self.halted && self.instruction_count < max_steps
            invariant
                self.wf(),
                total == spec_run(old(self)@, max_steps as nat),
                spec_run(self@, max_steps as nat) == total,
            decreases (if self.halted {
                0int
            } else {
                max_steps - self.instruction_count
            }),
        {
            let ghost pre = self@;
            let res = self.step(trace);
            proof {
                lemma_step_count(pre);
            }
            match res {
                Err(e) => {
                    proof {
                        assert(spec_run(pre, max_steps as nat) == StepOut {
                            post: pre,
                            err: Some(e@),
                        });
                    }
                    return Err(e);
                },
                Ok(_) => {},
            }
        }
        if !self.halted {
            let mut m = String::new();
            m.append("Execution did not halt after ");
            let d = dec_string(max_steps as u64);
            m.append(d.as_str());
            m.append(" steps");
            proof {
                assert(m@ =~= no_halt_msg(max_steps as nat));
                assert(spec_run(self@, max_steps as nat) == StepOut {
                    post: self@,
                    err: Some(run_err(no_halt_msg(max_steps as nat))),
                });
            }
            return Err(EmulatorError::Exec(m));
        }
        proof {
            assert(spec_run(self@, max_steps as nat) == StepOut { post: self@, err: None });
        }
        Ok(())
    }
}

} // verus!
