//! A small register-machine library: a verified instruction decoder for a
//! textual assembly language, and the execution cycle that the decoded
//! instructions drive.

pub mod cpu;
pub mod decode;
pub mod instr;
