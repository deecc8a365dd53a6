//! The typed instruction set of the machine.

use vstd::prelude::*;

verus! {

/// One decoded instruction. Every operand slot is an unsigned 32-bit value;
/// whether a slot names a register or carries an immediate is fixed by the
/// variant (`MOV` reads a register, `MOVI` takes an immediate, and so on),
/// the first slot always being the destination register.
#[allow(non_camel_case_types)]
#[derive(Clone, Copy, Debug, PartialEq, Eq, Structural)]
pub enum INSTR {
    /// Copy the value of register `.1` into register `.0`.
    MOV(u32, u32),
    /// Load the immediate `.1` into register `.0`.
    MOVI(u32, u32),
    /// Add the immediate `.1` to register `.0`.
    ADDI(u32, u32),
    /// Subtract the immediate `.1` from register `.0`.
    SUBI(u32, u32),
    /// Store the sum of the immediates `.1` and `.2` in register `.0`.
    ADD(u32, u32, u32),
    /// Store the difference of the immediates `.1` and `.2` in register `.0`.
    SUB(u32, u32, u32),
    /// Store the sum of registers `.1` and `.2` in register `.0`.
    ADDR(u32, u32, u32),
    /// Store the difference of registers `.1` and `.2` in register `.0`.
    SUBR(u32, u32, u32),
}

} // verus!
