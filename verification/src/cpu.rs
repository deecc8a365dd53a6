//! The execution cycle: a register file and the application of decoded
//! instructions to it, in program order.
//!
//! All values are unsigned 32-bit; addition and subtraction wrap around
//! modulo 2^32, as registers of a real machine do. An instruction that
//! names a register outside the file is fatal: it is applied to nothing,
//! and a run halts there, reporting the position.

use vstd::prelude::*;

use crate::instr::INSTR;

verus! {

/// How many registers the machine has.
pub const NUM_REGS: usize = 32;

/// The fatal outcome of a run: the instruction at position `pos` named a
/// register outside the file. The registers keep the state reached just
/// before it.
#[derive(Clone, Copy, Debug, PartialEq, Eq, Structural)]
pub struct ExecError {
    pub pos: usize,
    pub instr: INSTR,
}

/// What applying one instruction does to a register file: the updated file,
/// or `None` when the instruction names a register outside it.
pub open spec fn spec_step(regs: Seq<u32>, instr: INSTR) -> Option<Seq<u32>> {
    match instr {
        INSTR::MOV(d, s) => if d < regs.len() && s < regs.len() {
            Some(regs.update(d as int, regs[s as int]))
        } else {
            None
        },
        INSTR::MOVI(d, v) => if d < regs.len() {
            Some(regs.update(d as int, v))
        } else {
            None
        },
        INSTR::ADDI(d, v) => if d < regs.len() {
            Some(regs.update(d as int, regs[d as int].wrapping_add(v)))
        } else {
            None
        },
        INSTR::SUBI(d, v) => if d < regs.len() {
            Some(regs.update(d as int, regs[d as int].wrapping_sub(v)))
        } else {
            None
        },
        INSTR::ADD(d, a, b) => if d < regs.len() {
            Some(regs.update(d as int, a.wrapping_add(b)))
        } else {
            None
        },
        INSTR::SUB(d, a, b) => if d < regs.len() {
            Some(regs.update(d as int, a.wrapping_sub(b)))
        } else {
            None
        },
        INSTR::ADDR(d, s1, s2) => if d < regs.len() && s1 < regs.len() && s2 < regs.len() {
            Some(regs.update(d as int, regs[s1 as int].wrapping_add(regs[s2 as int])))
        } else {
            None
        },
        INSTR::SUBR(d, s1, s2) => if d < regs.len() && s1 < regs.len() && s2 < regs.len() {
            Some(regs.update(d as int, regs[s1 as int].wrapping_sub(regs[s2 as int])))
        } else {
            None
        },
    }
}

/// The register file after the first `n` instructions of `prog`, `None` as
/// soon as one of them fails to apply.
pub open spec fn spec_run_prefix(regs: Seq<u32>, prog: Seq<INSTR>, n: int) -> Option<Seq<u32>>
    recommends
        n <= prog.len(),
    decreases n,
{
    if n <= 0 {
        Some(regs)
    } else {
        match spec_run_prefix(regs, prog, n - 1) {
            Some(cur) => spec_step(cur, prog[n - 1]),
            None => None,
        }
    }
}

/// Once a prefix fails, every longer prefix fails.
proof fn lemma_run_prefix_none(regs: Seq<u32>, prog: Seq<INSTR>, k: int, n: int)
    requires
        0 <= k <= n,
        spec_run_prefix(regs, prog, k) is None,
    ensures
        spec_run_prefix(regs, prog, n) is None,
    decreases n,
{
    if n > k {
        lemma_run_prefix_none(regs, prog, k, n - 1);
    }
}

/// The register machine: a fixed-size file of 32-bit registers, all zero at
/// creation, mutated only by applying instructions.
pub struct CPU {
    regs: Vec<u32>,
}

impl View for CPU {
    type V = Seq<u32>;

    closed spec fn view(&self) -> Seq<u32> {
        self.regs@
    }
}

impl CPU {
    /// A fresh machine: `NUM_REGS` registers, all zero.
    pub fn new() -> (c: CPU)
        ensures
            c@.len() == NUM_REGS,
            forall|i: int| 0 <= i < c@.len() ==> c@[i] == 0,
    {
        let mut regs: Vec<u32> = Vec::new();
        let mut i: usize = 0;
        while i < NUM_REGS
            invariant
                i <= NUM_REGS,
                regs@.len() == i,
                forall|k: int| 0 <= k < i ==> regs@[k] == 0,
            decreases NUM_REGS - i,
        {
            regs.push(0);
            i = i + 1;
        }
        CPU { regs }
    }

    /// How many registers the file holds.
    pub fn num_regs(&self) -> (n: usize)
        ensures
            n == self@.len(),
    {
        self.regs.len()
    }

    /// Read one register.
    pub fn reg(&self, i: usize) -> (v: u32)
        requires
            i < self@.len(),
        ensures
            v == self@[i as int],
    {
        self.regs[i]
    }

    /// Execute and write back one instruction. Returns whether it applied;
    /// an instruction naming a register outside the file changes nothing.
    pub fn apply(&mut self, instr: &INSTR) -> (ok: bool)
        ensures
            match spec_step(old(self)@, *instr) {
                Some(regs) => ok && final(self)@ == regs,
                None => !ok && final(self)@ == old(self)@,
            },
    {
        let len = self.regs.len();
        match *instr {
            INSTR::MOV(d, s) => {
                if (d as usize) < len && (s as usize) < len {
                    let v = self.regs[s as usize];
                    self.regs[d as usize] = v;
                    true
                } else {
                    false
                }
            },
            INSTR::MOVI(d, v) => {
                if (d as usize) < len {
                    self.regs[d as usize] = v;
                    true
                } else {
                    false
                }
            },
            INSTR::ADDI(d, v) => {
                if (d as usize) < len {
                    let cur = self.regs[d as usize];
                    self.regs[d as usize] = cur.wrapping_add(v);
                    true
                } else {
                    false
                }
            },
            INSTR::SUBI(d, v) => {
                if (d as usize) < len {
                    let cur = self.regs[d as usize];
                    self.regs[d as usize] = cur.wrapping_sub(v);
                    true
                } else {
                    false
                }
            },
            INSTR::ADD(d, a, b) => {
                if (d as usize) < len {
                    self.regs[d as usize] = a.wrapping_add(b);
                    true
                } else {
                    false
                }
            },
            INSTR::SUB(d, a, b) => {
                if (d as usize) < len {
                    self.regs[d as usize] = a.wrapping_sub(b);
                    true
                } else {
                    false
                }
            },
            INSTR::ADDR(d, s1, s2) => {
                if (d as usize) < len && (s1 as usize) < len && (s2 as usize) < len {
                    let x = self.regs[s1 as usize];
                    let y = self.regs[s2 as usize];
                    self.regs[d as usize] = x.wrapping_add(y);
                    true
                } else {
                    false
                }
            },
            INSTR::SUBR(d, s1, s2) => {
                if (d as usize) < len && (s1 as usize) < len && (s2 as usize) < len {
                    let x = self.regs[s1 as usize];
                    let y = self.regs[s2 as usize];
                    self.regs[d as usize] = x.wrapping_sub(y);
                    true
                } else {
                    false
                }
            },
        }
    }

    /// The fetch-decode-execute-writeback cycle over an already decoded
    /// program: apply every instruction in order, and halt at the first one
    /// that names a register outside the file, reporting its position. The
    /// registers then hold the state reached just before it.
    pub fn fdew(&mut self, program: &Vec<INSTR>) -> (r: Result<(), ExecError>)
        ensures
            match r {
                Ok(_) => spec_run_prefix(old(self)@, program@, program@.len() as int) == Some(
                    final(self)@,
                ),
                Err(e) => {
                    &&& e.pos < program@.len()
                    &&& e.instr == program@[e.pos as int]
                    &&& spec_run_prefix(old(self)@, program@, e.pos as int) == Some(final(self)@)
                    &&& spec_step(final(self)@, program@[e.pos as int]) is None
                },
            },
            r is Ok <==> spec_run_prefix(old(self)@, program@, program@.len() as int) is Some,
    {
        let ghost orig: Seq<u32> = self@;
        let mut i: usize = 0;
        while i < program.len()
            invariant
                i <= program@.len(),
                orig == old(self)@,
                spec_run_prefix(orig, program@, i as int) == Some(self@),
            decreases program@.len() - i,
        {
            let instr = program[i];
            let ok = self.apply(&instr);
            if !ok {
                proof {
                    assert(spec_run_prefix(orig, program@, i + 1) is None);
                    lemma_run_prefix_none(orig, program@, i + 1, program@.len() as int);
                }
                return Err(ExecError { pos: i, instr });
            }
            i = i + 1;
        }
        Ok(())
    }
}

} // verus!
