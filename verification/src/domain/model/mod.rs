//! Award programs and the records of references and logs.
use vstd::prelude::*;

pub mod activation;
pub mod aprslog;
pub mod common;
pub mod event;
pub mod id;
pub mod locator;
pub mod pota;
pub mod sota;

verus! {

/// An award program, stored as the numbers 0, 1 and 2.
#[derive(PartialEq, Eq, Debug, Clone, Copy, Structural)]
pub enum AwardProgram {
    SOTA,
    POTA,
    WWFF,
}

/// The number that stands for a program: SOTA 0, POTA 1, WWFF 2.
pub open spec fn program_number(p: AwardProgram) -> i32 {
    match p {
        AwardProgram::SOTA => 0,
        AwardProgram::POTA => 1,
        AwardProgram::WWFF => 2,
    }
}

impl AwardProgram {
    /// The number that stands for the program (see `program_number`).
    pub fn as_i32(&self) -> (r: i32)
        ensures
            r == program_number(*self),
    {
        match self {
            AwardProgram::SOTA => 0,
            AwardProgram::POTA => 1,
            AwardProgram::WWFF => 2,
        }
    }

    /// The program that a number 0, 1 or 2 stands for.
    pub fn from_i32(value: i32) -> (r: Self)
        requires
            0 <= value <= 2,
        ensures
            program_number(r) == value,
    {
        if value == 0 {
            AwardProgram::SOTA
        } else if value == 1 {
            AwardProgram::POTA
        } else {
            AwardProgram::WWFF
        }
    }
}

/// Reading a program's number back gives the program.
pub proof fn lemma_program_number_injective(a: AwardProgram, b: AwardProgram)
    ensures
        program_number(a) == program_number(b) <==> a == b,
{
}

} // verus!
