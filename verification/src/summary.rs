//! The one-line state digest: `halted=.. steps=.. pc=.. flags(..)` and
//! up to twelve nonzero registers, specified character by character.

use vstd::prelude::*;
use crate::machine::Custom32Emulator;
use crate::machine::MView;
use crate::numfmt::dec_nat_chars;
use crate::numfmt::dec_string;
use crate::numfmt::hex8_chars;
use crate::numfmt::hex8_string;
use vstd::string::StringExecFns;

verus! {

pub open spec fn bool_str(b: bool) -> Seq<char> {
    if b {
        "true"@
    } else {
        "false"@
    }
}

pub open spec fn bit_str(b: bool) -> Seq<char> {
    if b {
        "1"@
    } else {
        "0"@
    }
}

/// The nonzero registers among the first `n`, with their indices, in
/// index order.
pub open spec fn nz_upto(regs: Seq<u32>, n: int) -> Seq<(int, u32)>
    decreases n,
{
    if n <= 0 {
        Seq::empty()
    } else if regs[n - 1] != 0 {
        nz_upto(regs, n - 1).push((n - 1, regs[n - 1]))
    } else {
        nz_upto(regs, n - 1)
    }
}

/// One register in the digest: `R<i>=0x<8-digit-hex>`.
pub open spec fn reg_entry(i: int, v: u32) -> Seq<char> {
    "R"@ + dec_nat_chars(i as nat) + "=0x"@ + hex8_chars(v)
}

/// Register entries joined by single spaces.
pub open spec fn joined(ps: Seq<(int, u32)>) -> Seq<char>
    decreases ps.len(),
{
    if ps.len() == 0 {
        Seq::empty()
    } else if ps.len() == 1 {
        reg_entry(ps[0].0, ps[0].1)
    } else {
        reg_entry(ps[0].0, ps[0].1) + " "@ + joined(ps.drop_first())
    }
}

proof fn lemma_joined_push(ps: Seq<(int, u32)>, x: (int, u32))
    ensures
        joined(ps.push(x)) == if ps.len() == 0 {
            reg_entry(x.0, x.1)
        } else {
            joined(ps) + " "@ + reg_entry(x.0, x.1)
        },
    decreases ps.len(),
{
    if ps.len() == 0 {
        assert(ps.push(x)[0] == x);
        assert(joined(ps.push(x)) == reg_entry(x.0, x.1));
    } else {
        assert(ps.push(x).drop_first() =~= ps.drop_first().push(x));
        lemma_joined_push(ps.drop_first(), x);
        if ps.len() == 1 {
            assert(joined(ps.push(x)) =~= joined(ps) + " "@ + reg_entry(x.0, x.1));
        } else {
            assert(joined(ps.push(x)) =~= joined(ps) + " "@ + reg_entry(x.0, x.1));
        }
    }
}

/// The register list in the digest: the first twelve nonzero registers,
/// and an ellipsis when more exist.
pub open spec fn regs_digest(regs: Seq<u32>) -> Seq<char> {
    let ps = nz_upto(regs, regs.len() as int);
    let shown = if ps.len() > 12 {
        ps.take(12)
    } else {
        ps
    };
    joined(shown) + (if ps.len() > 12 {
        " ..."@
    } else {
        Seq::empty()
    })
}

/// The whole one-line digest of a machine state.
pub open spec fn summary_spec(m: MView) -> Seq<char> {
    "halted="@ + bool_str(m.halted) + " steps="@ + dec_nat_chars(m.count) + " pc="@
        + dec_nat_chars(m.pc) + " flags(C="@ + bit_str(m.flags.carry) + " Z="@ + bit_str(
        m.flags.zero,
    ) + " N="@ + bit_str(m.flags.negative) + " V="@ + bit_str(m.flags.overflow) + ") "@
        + regs_digest(m.regs)
}

impl Custom32Emulator {
    /// A one-line human-readable digest of the machine state.
    pub fn summary(&self) -> (r: String)
        ensures
            r@ == summary_spec(self@),
    {
        let n = self.registers.len();
        let mut pairs: Vec<(usize, u32)> = Vec::new();
        let mut i: usize = 0;
        while i < n
            invariant
                0 <= i <= n,
                n == self.registers@.len(),
                pairs@.len() == nz_upto(self.registers@, i as int).len(),
                forall|k: int|
                    0 <= k < pairs@.len() ==> (#[trigger] pairs@[k]).0 as int == nz_upto(
                        self.registers@,
                        i as int,
                    )[k].0 && pairs@[k].1 == nz_upto(self.registers@, i as int)[k].1,
            decreases n - i,
        {
            let v = self.registers[i];
            if v != 0 {
                pairs.push((i, v));
            }
            i += 1;
        }
        let ghost ps = nz_upto(self.registers@, self.registers@.len() as int);
        let shown: usize = if pairs.len() > 12 {
            12
        } else {
            pairs.len()
        };
        let ghost shown_ps = if ps.len() > 12 {
            ps.take(12)
        } else {
            ps
        };
        let mut regs_str = String::new();
        let mut k: usize = 0;
        while k < shown
            invariant
                0 <= k <= shown,
                shown <= pairs@.len(),
                shown == (if ps.len() > 12 {
                    12int
                } else {
                    ps.len() as int
                }),
                ps == nz_upto(self.registers@, self.registers@.len() as int),
                shown_ps == (if ps.len() > 12 {
                    ps.take(12)
                } else {
                    ps
                }),
                pairs@.len() == ps.len(),
                forall|j: int|
                    0 <= j < pairs@.len() ==> (#[trigger] pairs@[j]).0 as int == ps[j].0
                        && pairs@[j].1 == ps[j].1,
                regs_str@ == joined(shown_ps.take(k as int)),
            decreases shown - k,
        {
            let pair = pairs[k];
            if k > 0 {
                regs_str.append(" ");
            }
            regs_str.append("R");
            let d = dec_string(pair.0 as u64);
            regs_str.append(d.as_str());
            regs_str.append("=0x");
            let h = hex8_string(pair.1);
            regs_str.append(h.as_str());
            proof {
                assert(shown_ps.take(k + 1) =~= shown_ps.take(k as int).push(shown_ps[k as int]));
                lemma_joined_push(shown_ps.take(k as int), shown_ps[k as int]);
                assert(shown_ps[k as int].0 == pair.0 as int && shown_ps[k as int].1 == pair.1);
                assert(" "@ =~= seq![' ']) by {
                    reveal_strlit(" ");
                }
                assert(regs_str@ =~= joined(shown_ps.take(k + 1)));
            }
            k += 1;
        }
        if pairs.len() > 12 {
            regs_str.append(" ...");
        }
        proof {
            assert(shown_ps.take(shown as int) =~= shown_ps);
            assert(regs_str@ =~= regs_digest(self.registers@));
        }
        let mut out = String::new();
        out.append("halted=");
        if self.halted {
            out.append("true");
        } else {
            out.append("false");
        }
        out.append(" steps=");
        let d1 = dec_string(self.instruction_count as u64);
        out.append(d1.as_str());
        out.append(" pc=");
        let d2 = dec_string(self.pc as u64);
        out.append(d2.as_str());
        out.append(" flags(C=");
        out.append(if self.flags.carry { "1" } else { "0" });
        out.append(" Z=");
        out.append(if self.flags.zero { "1" } else { "0" });
        out.append(" N=");
        out.append(if self.flags.negative { "1" } else { "0" });
        out.append(" V=");
        out.append(if self.flags.overflow { "1" } else { "0" });
        out.append(") ");
        out.append(regs_str.as_str());
        proof {
            assert(out@ =~= summary_spec(self@));
        }
        out
    }
}

} // verus!
