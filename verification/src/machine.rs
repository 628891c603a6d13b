//! The Custom32 machine: register file, flags, byte-addressable memory,
//! the instruction record and the error type, together with the ghost view
//! of a whole machine state and the bit-exact ALU and flag definitions.

use vstd::prelude::*;
use crate::numfmt::hex_nat_chars;
use crate::numfmt::hex_string;

verus! {

pub const REGISTER_COUNT: usize = 32;

/// The four condition codes: carry (no-borrow for subtraction), zero,
/// negative (bit 31 of the last result), and signed overflow.
#[derive(Debug, Clone, Copy, PartialEq, Eq, Structural)]
pub struct Flags {
    pub carry: bool,
    pub zero: bool,
    pub negative: bool,
    pub overflow: bool,
}

pub open spec fn clear_flags() -> Flags {
    Flags { carry: false, zero: false, negative: false, overflow: false }
}

impl Default for Flags {
    fn default() -> (r: Self)
        ensures
            r == clear_flags(),
    {
        Flags { carry: false, zero: false, negative: false, overflow: false }
    }
}

/// One parsed instruction: upper-cased mnemonic, trimmed operand tokens,
/// 1-based source line, and the cleaned source text for tracing.
#[derive(Debug)]
pub struct Instruction {
    pub op: String,
    pub args: Vec<String>,
    pub line_no: usize,
    pub raw: String,
}

pub ghost struct InstrView {
    pub op: Seq<char>,
    pub args: Seq<Seq<char>>,
    pub line_no: nat,
    pub raw: Seq<char>,
}

impl View for Instruction {
    type V = InstrView;

    open spec fn view(&self) -> InstrView {
        InstrView {
            op: self.op@,
            args: self.args.deep_view(),
            line_no: self.line_no as nat,
            raw: self.raw@,
        }
    }
}

impl DeepView for Instruction {
    type V = InstrView;

    open spec fn deep_view(&self) -> InstrView {
        self.view()
    }
}

impl Clone for Instruction {
    fn clone(&self) -> (r: Self)
        ensures
            r@ == self@,
    {
        let mut args: Vec<String> = Vec::new();
        let mut i: usize = 0;
        while i < self.args.len()
            invariant
                0 <= i <= self.args.len(),
                args@.len() == i,
                forall|k: int| 0 <= k < i ==> (#[trigger] args@[k])@ == (self.args@[k])@,
            decreases self.args.len() - i,
        {
            args.push(self.args[i].clone());
            i += 1;
        }
        proof {
            assert(args.deep_view() =~= self.args.deep_view());
        }
        let r = Instruction {
            op: self.op.clone(),
            args,
            line_no: self.line_no,
            raw: self.raw.clone(),
        };
        proof {
            assert(r@ == self@);
        }
        r
    }
}

/// A parse-time or execution-time failure, with a human-readable message.
#[derive(Debug)]
pub enum EmulatorError {
    Parse(String),
    Exec(String),
}

pub ghost struct ErrView {
    /// True for a parse error, false for an execution error.
    pub parse: bool,
    pub msg: Seq<char>,
}

impl View for EmulatorError {
    type V = ErrView;

    open spec fn view(&self) -> ErrView {
        match self {
            EmulatorError::Parse(m) => ErrView { parse: true, msg: m@ },
            EmulatorError::Exec(m) => ErrView { parse: false, msg: m@ },
        }
    }
}

pub open spec fn parse_err(msg: Seq<char>) -> ErrView {
    ErrView { parse: true, msg }
}

pub open spec fn run_err(msg: Seq<char>) -> ErrView {
    ErrView { parse: false, msg }
}

impl EmulatorError {
    /// The message carried by the error.
    pub fn message(&self) -> (r: &String)
        ensures
            r@ == self@.msg,
    {
        match self {
            EmulatorError::Parse(m) => m,
            EmulatorError::Exec(m) => m,
        }
    }
}

/// Relates an executable result to its spec-level counterpart.
pub open spec fn obeys<T>(r: Result<T, EmulatorError>, m: Result<T, ErrView>) -> bool {
    match (r, m) {
        (Ok(v), Ok(w)) => v == w,
        (Err(e), Err(f)) => e@ == f,
        _ => false,
    }
}

/// The whole state of one emulator, as mathematical values.
#[verifier::ext_equal]
pub ghost struct MView {
    pub mem: Seq<u8>,
    pub regs: Seq<u32>,
    pub flags: Flags,
    pub pc: nat,
    pub halted: bool,
    pub count: nat,
    pub insts: Seq<InstrView>,
    pub labels: Seq<(Seq<char>, nat)>,
}

/// The Custom32 emulator: memory, register file (register 0 hardwired to
/// zero between steps), flags, program counter, halt latch, step counter,
/// and the loaded program with its label table.
pub struct Custom32Emulator {
    pub memory: Vec<u8>,
    pub registers: Vec<u32>,
    pub flags: Flags,
    pub pc: usize,
    pub halted: bool,
    pub instruction_count: usize,
    pub instructions: Vec<Instruction>,
    pub labels: Vec<(String, usize)>,
}

impl View for Custom32Emulator {
    type V = MView;

    open spec fn view(&self) -> MView {
        MView {
            mem: self.memory@,
            regs: self.registers@,
            flags: self.flags,
            pc: self.pc as nat,
            halted: self.halted,
            count: self.instruction_count as nat,
            insts: self.instructions.deep_view(),
            labels: Seq::new(
                self.labels@.len(),
                |i: int| (self.labels@[i].0@, self.labels@[i].1 as nat),
            ),
        }
    }
}

impl Custom32Emulator {
    /// Structural soundness of a machine state: 32 registers, register 0
    /// zero between steps, and distinct label names.
    pub open spec fn wf(self) -> bool {
        &&& self.registers@.len() == REGISTER_COUNT
        &&& self.registers@[0] == 0
        &&& forall|i: int, j: int|
            0 <= i < j < self.labels@.len() ==> (#[trigger] self.labels@[i].0)@ != (
            #[trigger] self.labels@[j].0)@
    }

    /// A fresh machine: zeroed memory of the given size, zeroed registers,
    /// clear flags, and no program.
    pub fn new(memory_size: usize) -> (r: Self)
        ensures
            r.wf(),
            r.memory@ == Seq::new(memory_size as nat, |i: int| 0u8),
            r.registers@ == Seq::new(REGISTER_COUNT as nat, |i: int| 0u32),
            r.flags == clear_flags(),
            r.pc == 0,
            r.halted == false,
            r.instruction_count == 0,
            r.instructions@.len() == 0,
            r.labels@.len() == 0,
    {
        Self {
            memory: vec![0u8; memory_size],
            registers: vec![0u32; REGISTER_COUNT],
            flags: Flags { carry: false, zero: false, negative: false, overflow: false },
            pc: 0,
            halted: false,
            instruction_count: 0,
            instructions: Vec::new(),
            labels: Vec::new(),
        }
    }
}

impl Default for Custom32Emulator {
    /// A machine with the default 1 MiB of memory.
    fn default() -> (r: Self)
        ensures
            r.wf(),
            r.memory@ == Seq::new(1048576, |i: int| 0u8),
            r.registers@ == Seq::new(REGISTER_COUNT as nat, |i: int| 0u32),
            r.flags == clear_flags(),
            r.pc == 0,
            r.halted == false,
            r.instruction_count == 0,
            r.instructions@.len() == 0,
            r.labels@.len() == 0,
    {
        Self::new(1024 * 1024)
    }
}

// ───────────────────────── flag and ALU definitions ─────────────────────

/// Bit 31 of a result, the sign position.
pub open spec fn bit31(r: u32) -> bool {
    r & 0x8000_0000u32 != 0
}

/// The flag image of an arithmetic operation (addition, subtraction,
/// compare): carry and overflow as supplied, zero and negative from the
/// result.
pub open spec fn arith_flags(result: u32, carry: bool, overflow: bool) -> Flags {
    Flags { carry, zero: result == 0, negative: bit31(result), overflow }
}

/// The flag image of a logic operation: carry and overflow cleared, zero
/// and negative from the result.
pub open spec fn logic_flags(result: u32) -> Flags {
    Flags { carry: false, zero: result == 0, negative: bit31(result), overflow: false }
}

pub open spec fn add_result(a: u32, b: u32) -> u32 {
    a.wrapping_add(b)
}

/// Carry out of an unsigned 32-bit addition.
pub open spec fn add_carry(a: u32, b: u32) -> bool {
    a + b > u32::MAX
}

/// Signed overflow of an addition: both operands disagree in sign with the
/// result, tested on bit 31 of `(a ^ r) & (b ^ r)`.
pub open spec fn add_overflow(a: u32, b: u32) -> bool {
    bit31((a ^ add_result(a, b)) & (b ^ add_result(a, b)))
}

pub open spec fn sub_result(a: u32, b: u32) -> u32 {
    a.wrapping_sub(b)
}

/// The no-borrow convention: carry set exactly when `a >= b`.
pub open spec fn sub_carry(a: u32, b: u32) -> bool {
    a >= b
}

/// Signed overflow of a subtraction, tested on bit 31 of
/// `(a ^ b) & (a ^ r)`.
pub open spec fn sub_overflow(a: u32, b: u32) -> bool {
    bit31((a ^ b) & (a ^ sub_result(a, b)))
}

/// All four flags after an addition.
pub open spec fn add_flags(a: u32, b: u32) -> Flags {
    arith_flags(add_result(a, b), add_carry(a, b), add_overflow(a, b))
}

/// All four flags after a subtraction or compare.
pub open spec fn sub_flags(a: u32, b: u32) -> Flags {
    arith_flags(sub_result(a, b), sub_carry(a, b), sub_overflow(a, b))
}

/// A shift amount is taken modulo 32.
pub open spec fn shl_result(x: u32, amount: u32) -> u32 {
    x << (amount & 31)
}

pub open spec fn shr_result(x: u32, amount: u32) -> u32 {
    x >> (amount & 31)
}

// ───────────────────────── memory words ─────────────────────────────────

/// The little-endian 32-bit word stored at byte offset `a`.
pub open spec fn word_at(mem: Seq<u8>, a: int) -> u32 {
    (mem[a] as u32) | ((mem[a + 1] as u32) << 8) | ((mem[a + 2] as u32) << 16) | ((mem[a + 3]
        as u32) << 24)
}

/// The memory after storing `v` little-endian at byte offset `a`.
pub open spec fn store_word(mem: Seq<u8>, a: int, v: u32) -> Seq<u8> {
    mem.update(a, v as u8).update(a + 1, (v >> 8) as u8).update(a + 2, (v >> 16) as u8).update(
        a + 3,
        (v >> 24) as u8,
    )
}

/// What `read_word` returns: the aligned in-bounds word, or the exact
/// diagnostic for an unaligned or out-of-range address.
pub open spec fn read_word_spec(mem: Seq<u8>, addr: u32) -> Result<u32, ErrView> {
    if addr as int % 4 != 0 {
        Err(run_err("Unaligned LOAD at 0x"@ + hex_nat_chars(addr as nat)))
    } else if addr as int + 4 > mem.len() {
        Err(run_err("LOAD out of range at 0x"@ + hex_nat_chars(addr as nat)))
    } else {
        Ok(word_at(mem, addr as int))
    }
}

/// What `write_word` does to memory, or the exact diagnostic when it
/// refuses and leaves memory unchanged.
pub open spec fn write_word_spec(mem: Seq<u8>, addr: u32, value: u32) -> Result<Seq<u8>, ErrView> {
    if addr as int % 4 != 0 {
        Err(run_err("Unaligned STORE at 0x"@ + hex_nat_chars(addr as nat)))
    } else if addr as int + 4 > mem.len() {
        Err(run_err("STORE out of range at 0x"@ + hex_nat_chars(addr as nat)))
    } else {
        Ok(store_word(mem, addr as int, value))
    }
}

/// A prefix followed by the variable-width upper-case hexadecimal image of
/// an address.
fn addr_msg(prefix: &str, a: usize) -> (m: String)
    ensures
        m@ == prefix@ + hex_nat_chars(a as nat),
{
    let mut m = String::new();
    m.append(prefix);
    let digits = hex_string(a as u64);
    m.append(digits.as_str());
    m
}

impl Custom32Emulator {
    /// Read the aligned little-endian word at `addr`, without changing any
    /// state.
    pub fn read_word(&self, addr: u32) -> (r: Result<u32, EmulatorError>)
        ensures
            obeys(r, read_word_spec(self.memory@, addr)),
    {
        let a = addr as usize;
        if a % 4 != 0 {
            return Err(EmulatorError::Exec(addr_msg("Unaligned LOAD at 0x", a)));
        }
        if (a as u64) + 4 > self.memory.len() as u64 {
            return Err(EmulatorError::Exec(addr_msg("LOAD out of range at 0x", a)));
        }
        let b0 = self.memory[a];
        let b1 = self.memory[a + 1];
        let b2 = self.memory[a + 2];
        let b3 = self.memory[a + 3];
        Ok((b0 as u32) | ((b1 as u32) << 8u32) | ((b2 as u32) << 16u32) | ((b3 as u32) << 24u32))
    }

    /// Store `value` as an aligned little-endian word at `addr`; on error
    /// the memory is unchanged.
    pub fn write_word(&mut self, addr: u32, value: u32) -> (r: Result<(), EmulatorError>)
        ensures
            match write_word_spec(old(self).memory@, addr, value) {
                Ok(newmem) => r is Ok && final(self).memory@ == newmem,
                Err(e) => r is Err && (r matches Err(a) && a@ == e) && final(self).memory@ == old(
                    self,
                ).memory@,
            },
            final(self).registers == old(self).registers,
            final(self).flags == old(self).flags,
            final(self).pc == old(self).pc,
            final(self).halted == old(self).halted,
            final(self).instruction_count == old(self).instruction_count,
            final(self).instructions == old(self).instructions,
            final(self).labels == old(self).labels,
    {
        let a = addr as usize;
        if a % 4 != 0 {
            return Err(EmulatorError::Exec(addr_msg("Unaligned STORE at 0x", a)));
        }
        if (a as u64) + 4 > self.memory.len() as u64 {
            return Err(EmulatorError::Exec(addr_msg("STORE out of range at 0x", a)));
        }
        self.memory[a] = value as u8;
        self.memory[a + 1] = (value >> 8u32) as u8;
        self.memory[a + 2] = (value >> 16u32) as u8;
        self.memory[a + 3] = (value >> 24u32) as u8;
        Ok(())
    }

    /// Store `value` into register `reg`; writes to register 0 are
    /// discarded.
    pub(crate) fn write_reg(&mut self, reg: usize, value: u32)
        requires
            reg < REGISTER_COUNT,
            old(self).registers@.len() == REGISTER_COUNT,
        ensures
            final(self).registers@ == (if reg != 0 {
                old(self).registers@.update(reg as int, value)
            } else {
                old(self).registers@
            }),
            final(self).memory == old(self).memory,
            final(self).flags == old(self).flags,
            final(self).pc == old(self).pc,
            final(self).halted == old(self).halted,
            final(self).instruction_count == old(self).instruction_count,
            final(self).instructions == old(self).instructions,
            final(self).labels == old(self).labels,
    {
        if reg != 0 {
            self.registers[reg] = value;
        }
    }

    /// Set all four flags from an arithmetic result.
    pub(crate) fn set_arith_flags(&mut self, result: u32, carry: bool, overflow: bool)
        ensures
            final(self).flags == arith_flags(result, carry, overflow),
            final(self).memory == old(self).memory,
            final(self).registers == old(self).registers,
            final(self).pc == old(self).pc,
            final(self).halted == old(self).halted,
            final(self).instruction_count == old(self).instruction_count,
            final(self).instructions == old(self).instructions,
            final(self).labels == old(self).labels,
    {
        self.flags.carry = carry;
        self.flags.overflow = overflow;
        self.flags.zero = result == 0;
        self.flags.negative = (result & 0x8000_0000u32) != 0;
    }

    /// Set the flags from a logic result: carry and overflow cleared.
    pub(crate) fn set_logic_flags(&mut self, result: u32)
        ensures
            final(self).flags == logic_flags(result),
            final(self).memory == old(self).memory,
            final(self).registers == old(self).registers,
            final(self).pc == old(self).pc,
            final(self).halted == old(self).halted,
            final(self).instruction_count == old(self).instruction_count,
            final(self).instructions == old(self).instructions,
            final(self).labels == old(self).labels,
    {
        self.flags.carry = false;
        self.flags.overflow = false;
        self.flags.zero = result == 0;
        self.flags.negative = (result & 0x8000_0000u32) != 0;
    }
}

} // verus!
