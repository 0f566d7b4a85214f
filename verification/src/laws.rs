//! What the operations of the library are for, as relations between what goes in and what comes out.

use vstd::prelude::*;

pub mod buffers;
pub mod building;
pub mod circuits;
pub mod launching;
pub mod loading;
pub mod loops;
pub mod memory;
pub mod queues;
pub mod searching;
pub mod sources;
pub mod steps;
pub mod tensors;
pub mod texts;
pub mod wires;

verus! {

/// The cores of a Tensix.
pub enum Riscv {
    Brisc,
    Ncrisc,
    Trisc0,
    Trisc1,
    Trisc2,
}

impl Riscv {
    /// What a core is called in the names of functions.
    pub open spec fn lower(self) -> Seq<char> {
        match self {
            Riscv::Brisc => "brisc"@,
            Riscv::Ncrisc => "ncrisc"@,
            Riscv::Trisc0 => "trisc0"@,
            Riscv::Trisc1 => "trisc1"@,
            Riscv::Trisc2 => "trisc2"@,
        }
    }

    /// What a core is called in the names of statics.
    pub open spec fn upper(self) -> Seq<char> {
        match self {
            Riscv::Brisc => "BRISC"@,
            Riscv::Ncrisc => "NCRISC"@,
            Riscv::Trisc0 => "TRISC0"@,
            Riscv::Trisc1 => "TRISC1"@,
            Riscv::Trisc2 => "TRISC2"@,
        }
    }
}

} // verus!
