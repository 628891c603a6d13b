//! The assembly-text frontend: comment stripping, token parsing for
//! registers and immediates, label binding, and `load_assembly_text`,
//! each against a functional model of the same pass over `Seq<char>`.

use vstd::prelude::*;
use crate::machine::Custom32Emulator;
use crate::machine::EmulatorError;
use crate::machine::ErrView;
use crate::machine::Instruction;
use crate::machine::InstrView;
use crate::machine::REGISTER_COUNT;
use crate::machine::parse_err;
use crate::numfmt::all_digits_in;
use crate::numfmt::dec_nat_chars;
use crate::numfmt::dec_string;
use crate::numfmt::digit_val_c;
use crate::numfmt::digit_val_in;
use crate::numfmt::digits_val;
use crate::numfmt::is_digit_in;
use crate::numfmt::lemma_digits_val_nonneg;
use crate::numfmt::lemma_digits_val_prefix_le;
use crate::text::find_char_at;
use crate::text::find_char_from;
use crate::text::find_ws_at;
use crate::text::find_ws_from;
use crate::text::lemma_find_char_le;
use crate::text::spec_trim;
use crate::text::to_upper;
use crate::text::trim_str;
use crate::text::upper_seq;
use vstd::string::StringExecFns;
use vstd::string::StrSliceExecFns;
use crate::text::lemma_trim_len;

verus! {

// ───────────────────────── digit strings ────────────────────────────────

/// Scan `s[from..]` as an unsigned digit string of the given base;
/// `None` when empty, when a non-digit occurs, or when the value
/// overflows 64 bits.
fn scan_uint(s: &str, from: usize, base: u64) -> (r: Option<u64>)
    requires
        base == 10 || base == 16,
        from <= s@.len(),
    ensures
        ({
            let sub = s@.skip(from as int);
            match r {
                Some(v) => sub.len() > 0 && all_digits_in(sub, base as int) && v as int
                    == digits_val(sub, base as int),
                None => sub.len() == 0 || !all_digits_in(sub, base as int) || digits_val(
                    sub,
                    base as int,
                ) > u64::MAX,
            }
        }),
{
    let ghost sub = s@.skip(from as int);
    let n = s.unicode_len();
    if from == n {
        return None;
    }
    let mut acc: u64 = 0;
    let mut i: usize = from;
    while i < n
        invariant
            from <= i <= n,
            n == s@.len(),
            base == 10 || base == 16,
            sub == s@.skip(from as int),
            all_digits_in(sub.take((i - from) as int), base as int),
            acc as int == digits_val(sub.take((i - from) as int), base as int),
        decreases n - i,
    {
        let c = s.get_char(i);
        proof {
            assert(sub[i - from] == s@[i as int]);
        }
        match digit_val_c(c, base) {
            None => {
                proof {
                    assert(!is_digit_in(sub[i - from], base as int));
                    assert(!all_digits_in(sub, base as int));
                }
                return None;
            },
            Some(d) => {
                proof {
                    assert(sub.take(i - from + 1).drop_last() =~= sub.take((i - from) as int));
                    assert(all_digits_in(sub.take(i - from + 1), base as int));
                    assert(digits_val(sub.take(i - from + 1), base as int) == digits_val(
                        sub.take((i - from) as int),
                        base as int,
                    ) * base + digit_val_in(sub[i - from], base as int));
                }
                let step = acc.checked_mul(base);
                match step {
                    None => {
                        proof {
                            lemma_digits_val_nonneg(sub.take((i - from) as int), base as int);
                            if all_digits_in(sub, base as int) {
                                lemma_digits_val_prefix_le(sub, i - from + 1, base as int);
                            }
                        }
                        return None;
                    },
                    Some(m) => {
                        match m.checked_add(d) {
                            None => {
                                proof {
                                    if all_digits_in(sub, base as int) {
                                        lemma_digits_val_prefix_le(sub, i - from + 1, base as int);
                                    }
                                }
                                return None;
                            },
                            Some(a) => {
                                acc = a;
                            },
                        }
                    },
                }
                i += 1;
            },
        }
    }
    proof {
        assert(sub.take((n - from) as int) =~= sub);
    }
    Some(acc)
}

// ───────────────────────── unsigned and signed parses ───────────────────

/// The semantics of `str::parse::<usize>`: an optional `+`, then decimal
/// digits, in range for `usize`.
pub open spec fn spec_parse_u(s: Seq<char>) -> Option<int> {
    if s.len() == 0 {
        None
    } else {
        let rest = if s[0] == '+' {
            s.drop_first()
        } else {
            s
        };
        if rest.len() == 0 || !all_digits_in(rest, 10) {
            None
        } else if digits_val(rest, 10) > usize::MAX {
            None
        } else {
            Some(digits_val(rest, 10))
        }
    }
}

/// Parse `s[from..]` as `str::parse::<usize>` would.
fn parse_usize_tok(s: &str, from: usize) -> (r: Option<usize>)
    requires
        from <= s@.len(),
    ensures
        match r {
            Some(v) => spec_parse_u(s@.skip(from as int)) == Some(v as int),
            None => spec_parse_u(s@.skip(from as int)) is None,
        },
{
    let ghost sub = s@.skip(from as int);
    let n = s.unicode_len();
    if from == n {
        return None;
    }
    let plus = s.get_char(from) == '+';
    let start = if plus {
        from + 1
    } else {
        from
    };
    proof {
        assert(sub[0] == s@[from as int]);
        if plus {
            assert(s@.skip(start as int) =~= sub.drop_first());
        } else {
            assert(s@.skip(start as int) =~= sub);
        }
    }
    match scan_uint(s, start, 10) {
        None => None,
        Some(v) => {
            if v > usize::MAX as u64 {
                None
            } else {
                Some(v as usize)
            }
        },
    }
}

/// The shared semantics of `str::parse::<i64>` and
/// `i64::from_str_radix`: an optional sign, then digits of the base, with
/// the signed value in range for `i64`.
pub open spec fn spec_parse_i(s: Seq<char>, base: int) -> Option<int> {
    if s.len() == 0 {
        None
    } else {
        let neg = s[0] == '-';
        let rest = if s[0] == '+' || s[0] == '-' {
            s.drop_first()
        } else {
            s
        };
        if rest.len() == 0 || !all_digits_in(rest, base) {
            None
        } else {
            let v = if neg {
                -digits_val(rest, base)
            } else {
                digits_val(rest, base)
            };
            if i64::MIN <= v <= i64::MAX {
                Some(v)
            } else {
                None
            }
        }
    }
}

/// Parse `s[from..]` as a signed 64-bit number of the given base.
fn parse_i64_tok(s: &str, from: usize, base: u64) -> (r: Option<i64>)
    requires
        base == 10 || base == 16,
        from <= s@.len(),
    ensures
        match r {
            Some(v) => spec_parse_i(s@.skip(from as int), base as int) == Some(v as int),
            None => spec_parse_i(s@.skip(from as int), base as int) is None,
        },
{
    let ghost sub = s@.skip(from as int);
    let n = s.unicode_len();
    if from == n {
        return None;
    }
    let c0 = s.get_char(from);
    let neg = c0 == '-';
    let signed = neg || c0 == '+';
    let start = if signed {
        from + 1
    } else {
        from
    };
    proof {
        assert(sub[0] == s@[from as int]);
        if signed {
            assert(s@.skip(start as int) =~= sub.drop_first());
        } else {
            assert(s@.skip(start as int) =~= sub);
        }
    }
    match scan_uint(s, start, base) {
        None => None,
        Some(v) => {
            if neg {
                if v > 9223372036854775808u64 {
                    None
                } else if v == 9223372036854775808u64 {
                    Some(i64::MIN)
                } else {
                    Some(-(v as i64))
                }
            } else {
                if v > i64::MAX as u64 {
                    None
                } else {
                    Some(v as i64)
                }
            }
        },
    }
}

// ───────────────────────── token specs ──────────────────────────────────

/// What the register parser sees: the token trimmed and upper-cased.
pub open spec fn reg_token_norm(token: Seq<char>) -> Seq<char> {
    upper_seq(spec_trim(token))
}

/// What `parse_register` returns for a token: the register index, or the
/// exact diagnostic.
pub open spec fn spec_parse_register(token: Seq<char>) -> Result<int, ErrView> {
    let t = reg_token_norm(token);
    if !(t.len() > 0 && t[0] == 'R') {
        Err(parse_err("Expected register token, got '"@ + t + "'"@))
    } else {
        match spec_parse_u(t.drop_first()) {
            None => Err(parse_err("Invalid register '"@ + t + "'"@)),
            Some(v) => if v >= REGISTER_COUNT {
                Err(parse_err("Register out of range: "@ + t))
            } else {
                Ok(v)
            },
        }
    }
}

/// A successfully parsed register index lies in the register file.
pub proof fn lemma_parse_register_range(token: Seq<char>)
    ensures
        spec_parse_register(token) matches Ok(v) ==> 0 <= v < REGISTER_COUNT,
{
    let t = reg_token_norm(token);
    if t.len() > 0 && t[0] == 'R' {
        let s0 = t.drop_first();
        if s0.len() > 0 {
            let rest = if s0[0] == '+' {
                s0.drop_first()
            } else {
                s0
            };
            if rest.len() > 0 && all_digits_in(rest, 10) {
                lemma_digits_val_nonneg(rest, 10);
            }
        }
    }
}

/// Leading `#` marks stripped from an immediate token.
pub open spec fn strip_hashes(s: Seq<char>) -> Seq<char>
    decreases s.len(),
{
    if s.len() > 0 && s[0] == '#' {
        strip_hashes(s.drop_first())
    } else {
        s
    }
}

proof fn lemma_strip_hashes_at(s: Seq<char>, k: int)
    requires
        0 <= k <= s.len(),
        forall|j: int| 0 <= j < k ==> s[j] == '#',
        k < s.len() ==> s[k] != '#',
    ensures
        strip_hashes(s) == s.skip(k),
    decreases k,
{
    if k == 0 {
        assert(s.skip(0) =~= s);
    } else {
        lemma_strip_hashes_at(s.drop_first(), k - 1);
        assert(s.drop_first().skip(k - 1) =~= s.skip(k));
    }
}

/// The value of an immediate token: trimmed, `#` marks stripped, then
/// decimal, `0x` hexadecimal, or negated `-0x` hexadecimal.
pub open spec fn imm_val(token: Seq<char>) -> Option<int> {
    let t = strip_hashes(spec_trim(token));
    if t.len() >= 2 && t[0] == '0' && t[1] == 'x' {
        spec_parse_i(t.skip(2), 16)
    } else if t.len() >= 3 && t[0] == '-' && t[1] == '0' && t[2] == 'x' {
        match spec_parse_i(t.skip(3), 16) {
            Some(v) => if i64::MIN <= -v && -v <= i64::MAX {
                Some(-v)
            } else {
                None
            },
            None => None,
        }
    } else {
        spec_parse_i(t, 10)
    }
}

/// What `parse_imm` returns: the value, or the exact diagnostic carrying
/// the token as it was given.
pub open spec fn spec_parse_imm(token: Seq<char>) -> Result<int, ErrView> {
    match imm_val(token) {
        Some(v) => Ok(v),
        None => Err(parse_err("Invalid immediate '"@ + token + "'"@)),
    }
}

/// A line with its comment stripped and the remainder trimmed.
pub open spec fn spec_clean(line: Seq<char>) -> Seq<char> {
    spec_trim(line.take(find_char_at(line, ';') as int))
}

impl Custom32Emulator {
    /// Strip the `;` comment from a source line and trim the rest.
    pub fn clean_line(line: &str) -> (r: String)
        ensures
            r@ == spec_clean(line@),
    {
        let k = find_char_from(line, 0, ';');
        proof {
            assert(line@.skip(0) =~= line@);
        }
        let pre = line.substring_char(0, k);
        proof {
            assert(pre@ =~= line@.take(k as int));
        }
        let t = trim_str(pre);
        String::from_str(t)
    }

    /// Parse a register token `R<n>` (case-insensitive), `0 <= n < 32`.
    pub fn parse_register(token: &str) -> (r: Result<usize, EmulatorError>)
        ensures
            match (r, spec_parse_register(token@)) {
                (Ok(v), Ok(w)) => v as int == w && v < REGISTER_COUNT,
                (Err(e), Err(f)) => e@ == f,
                _ => false,
            },
    {
        let trimmed = trim_str(token);
        let t = to_upper(trimmed);
        let n = t.as_str().unicode_len();
        if n == 0 || t.as_str().get_char(0) != 'R' {
            let mut m = String::new();
            m.append("Expected register token, got '");
            m.append(t.as_str());
            m.append("'");
            return Err(EmulatorError::Parse(m));
        }
        proof {
            assert(t@.skip(1) =~= t@.drop_first());
        }
        match parse_usize_tok(t.as_str(), 1) {
            None => {
                let mut m = String::new();
                m.append("Invalid register '");
                m.append(t.as_str());
                m.append("'");
                Err(EmulatorError::Parse(m))
            },
            Some(v) => {
                if v >= REGISTER_COUNT {
                    let mut m = String::new();
                    m.append("Register out of range: ");
                    m.append(t.as_str());
                    Err(EmulatorError::Parse(m))
                } else {
                    Ok(v)
                }
            },
        }
    }

    /// Parse an immediate token: optional `#`, then decimal or `0x`/`-0x`
    /// hexadecimal, as a signed 64-bit value.
    pub fn parse_imm(token: &str) -> (r: Result<i64, EmulatorError>)
        ensures
            match (r, spec_parse_imm(token@)) {
                (Ok(v), Ok(w)) => v as int == w,
                (Err(e), Err(f)) => e@ == f,
                _ => false,
            },
    {
        let tr = trim_str(token);
        let n = tr.unicode_len();
        let mut h: usize = 0;
        while h < n && tr.get_char(h) == '#'
            invariant
                0 <= h <= n,
                n == tr@.len(),
                forall|j: int| 0 <= j < h ==> tr@[j] == '#',
            decreases n - h,
        {
            h += 1;
        }
        proof {
            lemma_strip_hashes_at(tr@, h as int);
        }
        let t = tr.substring_char(h, n);
        proof {
            assert(t@ =~= tr@.skip(h as int));
        }
        let tn = t.unicode_len();
        let out: Option<i64> = if tn >= 2 && t.get_char(0) == '0' && t.get_char(1) == 'x' {
            parse_i64_tok(t, 2, 16)
        } else if tn >= 3 && t.get_char(0) == '-' && t.get_char(1) == '0' && t.get_char(2) == 'x' {
            match parse_i64_tok(t, 3, 16) {
                Some(v) => {
                    if v == i64::MIN {
                        None
                    } else {
                        Some(-v)
                    }
                },
                None => None,
            }
        } else {
            proof {
                assert(t@.skip(0) =~= t@);
            }
            parse_i64_tok(t, 0, 10)
        };
        match out {
            Some(v) => Ok(v),
            None => {
                let mut m = String::new();
                m.append("Invalid immediate '");
                m.append(token);
                m.append("'");
                Err(EmulatorError::Parse(m))
            },
        }
    }
}

// ───────────────────────── the label table ──────────────────────────────

/// First binding of `name` in the label table, if any; bindings are
/// unique after a successful load, so this is the binding.
pub open spec fn label_find(labels: Seq<(Seq<char>, nat)>, name: Seq<char>) -> Option<nat>
    decreases labels.len(),
{
    if labels.len() == 0 {
        None
    } else if labels[0].0 == name {
        Some(labels[0].1)
    } else {
        label_find(labels.drop_first(), name)
    }
}

pub proof fn lemma_label_find_hit(ls: Seq<(Seq<char>, nat)>, name: Seq<char>, i: int)
    requires
        0 <= i < ls.len(),
        forall|k: int| 0 <= k < i ==> (#[trigger] ls[k]).0 != name,
        ls[i].0 == name,
    ensures
        label_find(ls, name) == Some(ls[i].1),
    decreases i,
{
    if i > 0 {
        lemma_label_find_hit(ls.drop_first(), name, i - 1);
    }
}

pub proof fn lemma_label_find_none(ls: Seq<(Seq<char>, nat)>, name: Seq<char>)
    ensures
        label_find(ls, name) is None <==> (forall|k: int|
            0 <= k < ls.len() ==> (#[trigger] ls[k]).0 != name),
    decreases ls.len(),
{
    if ls.len() > 0 {
        lemma_label_find_none(ls.drop_first(), name);
        assert(forall|k: int| 1 <= k < ls.len() ==> ls.drop_first()[k - 1] == #[trigger] ls[k]);
    }
}

// ───────────────────────── line models ──────────────────────────────────

/// The diagnostic for a duplicate label definition.
pub open spec fn dup_label_msg(lbl: Seq<char>, line_no: nat) -> Seq<char> {
    "Duplicate label '"@ + lbl + "' at line "@ + dec_nat_chars(line_no)
}

/// Result of the label pass over one cleaned line: the remaining text,
/// the extended label table, and a duplicate-label error if one arose.
#[verifier::ext_equal]
pub ghost struct LabelPass {
    pub rest: Seq<char>,
    pub labels: Seq<(Seq<char>, nat)>,
    pub err: Option<ErrView>,
}

/// The label pass: split off `name:` prefixes, binding each name to the
/// next instruction index, until no further complete label remains.
pub open spec fn spec_label_pass(
    cur: Seq<char>,
    line_no: nat,
    ninsts: nat,
    labels: Seq<(Seq<char>, nat)>,
) -> LabelPass
    decreases cur.len(),
    via spec_label_pass_dec
{
    let k = find_char_at(cur, ':');
    if k == cur.len() {
        LabelPass { rest: cur, labels, err: None }
    } else {
        let lbl = spec_trim(cur.take(k as int));
        if lbl.len() == 0 {
            LabelPass { rest: cur, labels, err: None }
        } else if label_find(labels, lbl) is Some {
            LabelPass { rest: cur, labels, err: Some(parse_err(dup_label_msg(lbl, line_no))) }
        } else {
            let labels2 = labels.push((lbl, ninsts));
            let rest2 = spec_trim(cur.skip(k + 1 as int));
            if rest2.len() == 0 {
                LabelPass { rest: rest2, labels: labels2, err: None }
            } else {
                spec_label_pass(rest2, line_no, ninsts, labels2)
            }
        }
    }
}

#[via_fn]
proof fn spec_label_pass_dec(
    cur: Seq<char>,
    line_no: nat,
    ninsts: nat,
    labels: Seq<(Seq<char>, nat)>,
) {
    lemma_find_char_le(cur, ':');
    lemma_trim_len(cur.skip(find_char_at(cur, ':') + 1 as int));
}

/// Operand tokens: the text after the mnemonic split at commas, each
/// piece trimmed, empty pieces dropped.
pub open spec fn split_args(s: Seq<char>) -> Seq<Seq<char>>
    decreases s.len(),
    via split_args_dec
{
    let k = find_char_at(s, ',');
    if k == s.len() {
        let a = spec_trim(s);
        if a.len() == 0 {
            Seq::empty()
        } else {
            seq![a]
        }
    } else {
        let a = spec_trim(s.take(k as int));
        let rest = split_args(s.skip(k + 1 as int));
        if a.len() == 0 {
            rest
        } else {
            seq![a] + rest
        }
    }
}

#[via_fn]
proof fn split_args_dec(s: Seq<char>) {
    lemma_find_char_le(s, ',');
}

/// The source split into lines: terminators are `\n`, with a `\r`
/// immediately before a `\n` removed, and no empty final line.
pub open spec fn split_lines(s: Seq<char>) -> Seq<Seq<char>>
    decreases s.len(),
    via split_lines_dec
{
    if s.len() == 0 {
        Seq::empty()
    } else {
        let k = find_char_at(s, '\n');
        if k == s.len() {
            seq![s]
        } else {
            let line = s.take(k as int);
            let line2 = if line.len() > 0 && line.last() == '\r' {
                line.drop_last()
            } else {
                line
            };
            seq![line2] + split_lines(s.skip(k + 1 as int))
        }
    }
}

#[via_fn]
proof fn split_lines_dec(s: Seq<char>) {
    lemma_find_char_le(s, '\n');
}

/// Accumulated result of loading: the instruction list and label table
/// built so far, and the first error if one arose.
#[verifier::ext_equal]
pub ghost struct LoadAcc {
    pub insts: Seq<InstrView>,
    pub labels: Seq<(Seq<char>, nat)>,
    pub err: Option<ErrView>,
}

/// Process one raw source line: clean it, run the label pass, skip blank
/// and directive remainders, otherwise append one instruction.
pub open spec fn spec_load_line(
    line: Seq<char>,
    line_no: nat,
    insts: Seq<InstrView>,
    labels: Seq<(Seq<char>, nat)>,
) -> LoadAcc {
    let cleaned = spec_clean(line);
    if cleaned.len() == 0 {
        LoadAcc { insts, labels, err: None }
    } else {
        let lp = spec_label_pass(cleaned, line_no, insts.len(), labels);
        if lp.err is Some {
            LoadAcc { insts, labels: lp.labels, err: lp.err }
        } else if lp.rest.len() == 0 || lp.rest[0] == '.' {
            LoadAcc { insts, labels: lp.labels, err: None }
        } else {
            let k = find_ws_at(lp.rest);
            let iv = if k < lp.rest.len() {
                InstrView {
                    op: upper_seq(lp.rest.take(k as int)),
                    args: split_args(lp.rest.skip(k + 1 as int)),
                    line_no,
                    raw: cleaned,
                }
            } else {
                InstrView {
                    op: upper_seq(lp.rest),
                    args: Seq::empty(),
                    line_no,
                    raw: cleaned,
                }
            };
            LoadAcc { insts: insts.push(iv), labels: lp.labels, err: None }
        }
    }
}

/// Process the remaining lines, 1-based line numbers continuing at
/// `next_line`, stopping at the first error.
pub open spec fn spec_load_lines(
    ls: Seq<Seq<char>>,
    next_line: nat,
    insts: Seq<InstrView>,
    labels: Seq<(Seq<char>, nat)>,
) -> LoadAcc
    decreases ls.len(),
{
    if ls.len() == 0 {
        LoadAcc { insts, labels, err: None }
    } else {
        let out = spec_load_line(ls[0], next_line, insts, labels);
        if out.err is Some {
            out
        } else {
            spec_load_lines(ls.drop_first(), next_line + 1, out.insts, out.labels)
        }
    }
}

/// The whole frontend: what loading a source text produces — the
/// instruction list, the label table, and the first error if any.
pub open spec fn spec_load(src: Seq<char>) -> LoadAcc {
    spec_load_lines(split_lines(src), 1, Seq::empty(), Seq::empty())
}

impl Custom32Emulator {
    /// Look a name up in the label table.
    pub(crate) fn find_label(&self, name: &str) -> (r: Option<usize>)
        ensures
            match r {
                Some(t) => label_find(self@.labels, name@) == Some(t as nat),
                None => label_find(self@.labels, name@) is None,
            },
    {
        let mut i: usize = 0;
        while i < self.labels.len()
            invariant
                0 <= i <= self.labels@.len(),
                forall|k: int| 0 <= k < i ==> (#[trigger] self@.labels[k]).0 != name@,
            decreases self.labels@.len() - i,
        {
            let pair = &self.labels[i];
            if crate::text::str_eq(pair.0.as_str(), name) {
                proof {
                    lemma_label_find_hit(self@.labels, name@, i as int);
                }
                return Some(pair.1);
            }
            i += 1;
        }
        proof {
            lemma_label_find_none(self@.labels, name@);
        }
        None
    }

    /// Append the operand tokens of `s[from..]` (comma-separated, trimmed,
    /// empties dropped).
    fn collect_args(s: &str, from: usize) -> (v: Vec<String>)
        requires
            from <= s@.len(),
        ensures
            v.deep_view() == split_args(s@.skip(from as int)),
    {
        let n = s.unicode_len();
        let mut v: Vec<String> = Vec::new();
        let mut q: usize = from;
        let ghost total = split_args(s@.skip(from as int));
        proof {
            assert(v.deep_view() =~= Seq::<Seq<char>>::empty());
        }
        loop
            invariant
                from <= q <= n,
                n == s@.len(),
                total == split_args(s@.skip(from as int)),
                v.deep_view() + split_args(s@.skip(q as int)) =~= total,
            decreases n - q,
        {
            let k = find_char_from(s, q, ',');
            let piece = trim_str(s.substring_char(q, k));
            let ghost sub = s@.skip(q as int);
            proof {
                assert(s@.subrange(q as int, k as int) =~= sub.take((k - q) as int));
                if k == n {
                    assert(sub.take((k - q) as int) =~= sub);
                }
            }
            let keep = piece.unicode_len() > 0;
            if keep {
                v.push(String::from_str(piece));
            }
            proof {
                if k < n {
                    assert(sub.skip((k - q) as int + 1) =~= s@.skip(k + 1));
                    if keep {
                        assert(v.deep_view() =~= v.deep_view().drop_last().push(piece@));
                        assert(v.deep_view().drop_last() + (seq![piece@] + split_args(
                            s@.skip(k + 1),
                        )) =~= v.deep_view() + split_args(s@.skip(k + 1)));
                    }
                } else {
                    if keep {
                        assert(v.deep_view() =~= v.deep_view().drop_last().push(piece@));
                        assert(v.deep_view().drop_last() + seq![piece@] =~= v.deep_view());
                        assert(v.deep_view() + Seq::<Seq<char>>::empty() =~= v.deep_view());
                    } else {
                        assert(v.deep_view() + Seq::<Seq<char>>::empty() =~= v.deep_view());
                    }
                }
            }
            if k == n {
                proof {
                    assert(v.deep_view() =~= total);
                }
                return v;
            }
            q = k + 1;
        }
    }

    /// Load one raw source line into the instruction list and label
    /// table.
    #[verifier::rlimit(60)]
    fn load_one_line(&mut self, line: &str, line_no: usize) -> (r: Result<(), EmulatorError>)
        requires
            forall|i: int, j: int|
                0 <= i < j < old(self).labels@.len() ==> (#[trigger] old(self).labels@[i].0)@ != (
                #[trigger] old(self).labels@[j].0)@,
        ensures
            final(self).memory == old(self).memory,
            final(self).registers == old(self).registers,
            final(self).flags == old(self).flags,
            final(self).pc == old(self).pc,
            final(self).halted == old(self).halted,
            final(self).instruction_count == old(self).instruction_count,
            forall|i: int, j: int|
                0 <= i < j < final(self).labels@.len() ==> (#[trigger] final(self).labels@[i].0)@
                    != (#[trigger] final(self).labels@[j].0)@,
            ({
                let out = spec_load_line(
                    line@,
                    line_no as nat,
                    old(self).instructions.deep_view(),
                    old(self)@.labels,
                );
                &&& final(self).instructions.deep_view() == out.insts
                &&& final(self)@.labels == out.labels
                &&& match r {
                    Ok(_) => out.err is None,
                    Err(e) => out.err == Some(e@),
                }
            }),
    {
        let ghost insts0 = self.instructions.deep_view();
        let ghost labels0 = self@.labels;
        let cleaned: String = Self::clean_line(line);
        let cn = cleaned.as_str().unicode_len();
        if cn == 0 {
            return Ok(());
        }
        let ghost ninsts = self.instructions.deep_view().len();
        let ghost pass = spec_label_pass(cleaned@, line_no as nat, ninsts, labels0);
        let mut current: String = cleaned.clone();
        loop
            invariant_except_break
                cleaned@ == spec_clean(line@),
                cleaned@.len() != 0,
                insts0 == old(self).instructions.deep_view(),
                labels0 == old(self)@.labels,
                ninsts == insts0.len(),
                self.memory == old(self).memory,
                self.registers == old(self).registers,
                self.flags == old(self).flags,
                self.pc == old(self).pc,
                self.halted == old(self).halted,
                self.instruction_count == old(self).instruction_count,
                self.instructions == old(self).instructions,
                self.instructions.deep_view() == insts0,
                self.instructions.deep_view().len() == ninsts,
                forall|i: int, j: int|
                    0 <= i < j < self.labels@.len() ==> (#[trigger] self.labels@[i].0)@ != (
                    #[trigger] self.labels@[j].0)@,
                pass == spec_label_pass(cleaned@, line_no as nat, ninsts, labels0),
                spec_label_pass(current@, line_no as nat, ninsts, self@.labels) == pass,
            ensures
                self.memory == old(self).memory,
                self.registers == old(self).registers,
                self.flags == old(self).flags,
                self.pc == old(self).pc,
                self.halted == old(self).halted,
                self.instruction_count == old(self).instruction_count,
                self.instructions == old(self).instructions,
                self.instructions.deep_view() == insts0,
                forall|i: int, j: int|
                    0 <= i < j < self.labels@.len() ==> (#[trigger] self.labels@[i].0)@ != (
                    #[trigger] self.labels@[j].0)@,
                pass.err is None,
                pass.rest == current@,
                pass.labels == self@.labels,
            decreases current@.len(),
        {
            let ghost cur0 = current@;
            let ghost labels_a = self@.labels;
            let cl = current.as_str().unicode_len();
            let k = find_char_from(current.as_str(), 0, ':');
            proof {
                assert(current@.skip(0) =~= current@);
            }
            if k == cl {
                proof {
                    assert(spec_label_pass(cur0, line_no as nat, ninsts, labels_a)
                        == LabelPass { rest: cur0, labels: labels_a, err: None });
                }
                break;
            }
            let lbl = String::from_str(trim_str(current.as_str().substring_char(0, k)));
            proof {
                assert(current@.subrange(0, k as int) =~= current@.take(k as int));
            }
            if lbl.as_str().unicode_len() == 0 {
                proof {
                    assert(spec_label_pass(cur0, line_no as nat, ninsts, labels_a)
                        == LabelPass { rest: cur0, labels: labels_a, err: None });
                }
                break;
            }
            if self.find_label(lbl.as_str()).is_some() {
                let mut m = String::new();
                m.append("Duplicate label '");
                m.append(lbl.as_str());
                m.append("' at line ");
                let digits = dec_string(line_no as u64);
                m.append(digits.as_str());
                proof {
                    assert(m@ =~= dup_label_msg(lbl@, line_no as nat));
                    assert(spec_label_pass(cur0, line_no as nat, ninsts, labels_a)
                        == LabelPass {
                        rest: cur0,
                        labels: labels_a,
                        err: Some(parse_err(dup_label_msg(lbl@, line_no as nat))),
                    });
                    assert(pass.err == Some(parse_err(dup_label_msg(lbl@, line_no as nat))));
                    assert(pass.labels == labels_a);
                    let out = spec_load_line(line@, line_no as nat, insts0, labels0);
                    assert(insts0.len() == ninsts);
                    assert(cleaned@ == spec_clean(line@));
                    assert(cleaned@.len() != 0);
                    assert(spec_label_pass(spec_clean(line@), line_no as nat, insts0.len(), labels0)
                        == pass);
                    assert(out.insts == insts0);
                    assert(out.labels == self@.labels);
                    assert(out.err == Some(parse_err(dup_label_msg(lbl@, line_no as nat))));
                }
                return Err(EmulatorError::Parse(m));
            }
            proof {
                lemma_label_find_none(self@.labels, lbl@);
            }
            let next_index = self.instructions.len();
            self.labels.push((lbl, next_index));
            proof {
                assert(self@.labels =~= labels_a.push((lbl@, ninsts)));
                assert forall|i: int, j: int|
                    0 <= i < j < self.labels@.len() implies (#[trigger] self.labels@[i].0)@ != (
                #[trigger] self.labels@[j].0)@ by {
                    if j == self.labels@.len() - 1 {
                        assert(self@.labels[i].0 == (self.labels@[i].0)@);
                        assert(self@.labels[j].0 == (self.labels@[j].0)@);
                    }
                }
            }
            let rest = String::from_str(trim_str(current.as_str().substring_char(k + 1, cl)));
            proof {
                assert(current@.subrange(k + 1, cl as int) =~= current@.skip(k + 1));
                lemma_trim_len(current@.skip(k + 1));
            }
            if rest.as_str().unicode_len() == 0 {
                current = rest;
                proof {
                    assert(spec_label_pass(cur0, line_no as nat, ninsts, labels_a)
                        == LabelPass { rest: rest@, labels: self@.labels, err: None });
                    assert(spec_label_pass(current@, line_no as nat, ninsts, self@.labels)
                        == LabelPass { rest: current@, labels: self@.labels, err: None });
                }
                break;
            }
            current = rest;
            proof {
                assert(spec_label_pass(cur0, line_no as nat, ninsts, labels_a)
                    == spec_label_pass(current@, line_no as nat, ninsts, self@.labels));
            }
        }
        // the label pass is complete; `pass` describes the outcome
        let cl2 = current.as_str().unicode_len();
        if cl2 == 0 || current.as_str().get_char(0) == '.' {
            return Ok(());
        }
        let k = find_ws_from(current.as_str(), 0);
        proof {
            assert(current@.skip(0) =~= current@);
        }
        let op: String;
        let args: Vec<String>;
        if k < cl2 {
            op = to_upper(current.as_str().substring_char(0, k));
            proof {
                assert(current@.subrange(0, k as int) =~= current@.take(k as int));
            }
            args = Self::collect_args(current.as_str(), k + 1);
        } else {
            op = to_upper(current.as_str());
            args = Vec::new();
            proof {
                assert(args.deep_view() =~= Seq::<Seq<char>>::empty());
            }
        }
        let ghost insts_before = self.instructions.deep_view();
        self.instructions.push(Instruction { op, args, line_no, raw: cleaned });
        proof {
            let out = spec_load_line(line@, line_no as nat, insts0, labels0);
            assert(self.instructions.deep_view() =~= insts_before.push(
                self.instructions@[self.instructions@.len() - 1]@,
            ));
            assert(self.instructions.deep_view() =~= out.insts);
        }
        Ok(())
    }

    /// Parse an assembly source text into the instruction list and label
    /// table, resetting the program counter, halt latch and step counter;
    /// memory, registers and flags are preserved. Fails exactly on a
    /// duplicate label, leaving the lines before it loaded.
    pub fn load_assembly_text(&mut self, source: &str) -> (r: Result<(), EmulatorError>)
        ensures
            final(self).memory == old(self).memory,
            final(self).registers == old(self).registers,
            final(self).flags == old(self).flags,
            final(self).pc == 0,
            final(self).halted == false,
            final(self).instruction_count == 0,
            old(self).wf() ==> final(self).wf(),
            ({
                let out = spec_load(source@);
                &&& final(self).instructions.deep_view() == out.insts
                &&& final(self)@.labels == out.labels
                &&& match r {
                    Ok(_) => out.err is None,
                    Err(e) => out.err == Some(e@),
                }
            }),
    {
        self.instructions.clear();
        self.labels.clear();
        self.pc = 0;
        self.halted = false;
        self.instruction_count = 0;
        let ghost total = spec_load(source@);
        let n = source.unicode_len();
        let mut p: usize = 0;
        let mut line_no: usize = 0;
        proof {
            assert(self.instructions.deep_view() =~= Seq::<InstrView>::empty());
            assert(self@.labels =~= Seq::<(Seq<char>, nat)>::empty());
            assert(source@.skip(0) =~= source@);
        }
        while p < n
            invariant
                0 <= p <= n,
                n == source@.len(),
                line_no <= p,
                self.memory == old(self).memory,
                self.registers == old(self).registers,
                self.flags == old(self).flags,
                self.pc == 0,
                self.halted == false,
                self.instruction_count == 0,
                forall|i: int, j: int|
                    0 <= i < j < self.labels@.len() ==> (#[trigger] self.labels@[i].0)@ != (
                    #[trigger] self.labels@[j].0)@,
                total == spec_load(source@),
                spec_load_lines(
                    split_lines(source@.skip(p as int)),
                    (line_no + 1) as nat,
                    self.instructions.deep_view(),
                    self@.labels,
                ) == total,
            decreases n - p,
        {
            let ghost ln_pre = line_no;
            let ghost insts_pre = self.instructions.deep_view();
            let ghost labels_pre = self@.labels;
            let k = find_char_from(source, p, '\n');
            let has_nl = k < n;
            let line_end = if has_nl && k > p && source.get_char(k - 1) == '\r' {
                k - 1
            } else {
                k
            };
            let line = source.substring_char(p, line_end);
            line_no += 1;
            let ghost suffix = source@.skip(p as int);
            proof {
                // the first element of split_lines(suffix) is this line
                assert(suffix.len() > 0);
                if has_nl {
                    assert(suffix.take((k - p) as int) =~= source@.subrange(p as int, k as int));
                    if k > p && source@[k - 1] == '\r' {
                        assert(suffix.take((k - p) as int).last() == source@[k - 1]);
                        assert(suffix.take((k - p) as int).drop_last() =~= source@.subrange(
                            p as int,
                            k - 1,
                        ));
                    }
                    assert(suffix.skip((k - p) as int + 1) =~= source@.skip(k + 1));
                    assert(split_lines(suffix) =~= seq![line@] + split_lines(source@.skip(k + 1)));
                } else {
                    assert(suffix.take((k - p) as int) =~= suffix);
                    assert(line@ =~= suffix);
                    assert(split_lines(suffix) =~= seq![line@]);
                }
                assert(split_lines(suffix)[0] == line@);
                assert(split_lines(suffix).drop_first() =~= (if has_nl {
                    split_lines(source@.skip(k + 1))
                } else {
                    Seq::<Seq<char>>::empty()
                }));
            }
            let res = self.load_one_line(line, line_no);
            match res {
                Err(e) => {
                    return Err(e);
                },
                Ok(_) => {},
            }
            if !has_nl {
                proof {
                    let lines_suf = split_lines(suffix);
                    assert(lines_suf =~= seq![line@]);
                    assert(lines_suf.drop_first() =~= Seq::<Seq<char>>::empty());
                    let out_line = spec_load_line(line@, line_no as nat, insts_pre, labels_pre);
                    assert(spec_load_lines(lines_suf, (ln_pre + 1) as nat, insts_pre, labels_pre)
                        == total);
                    assert(out_line.err is None);
                    assert(spec_load_lines(
                        lines_suf.drop_first(),
                        (line_no + 1) as nat,
                        out_line.insts,
                        out_line.labels,
                    ) == total);
                    assert(total == LoadAcc {
                        insts: out_line.insts,
                        labels: out_line.labels,
                        err: None,
                    });
                }
                return Ok(());
            }
            p = k + 1;
        }
        proof {
            assert(source@.skip(n as int) =~= Seq::<char>::empty());
            assert(split_lines(Seq::<char>::empty()) =~= Seq::<Seq<char>>::empty());
            assert(source@.skip(p as int) =~= Seq::<char>::empty());
        }
        Ok(())
    }
}

} // verus!
