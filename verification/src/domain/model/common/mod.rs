//! The award programs as the shared model names them, and the requests
//! that the reference repositories take.
use vstd::prelude::*;

pub mod event;

verus! {

/// An award program, stored as the numbers 0, 1 and 2.
#[derive(PartialEq, Eq, Debug, Clone, Copy, Structural)]
pub enum AwardProgram {
    SOTA,
    POTA,
    WWFF,
}

/// The number that stands for a program: SOTA 0, POTA 1, WWFF 2.
pub open spec fn program_number(p: AwardProgram) -> i32 {
    match p {
        AwardProgram::SOTA => 0,
        AwardProgram::POTA => 1,
        AwardProgram::WWFF => 2,
    }
}

/// The name of a program: "SOTA", "POTA" or "WWFF".
pub open spec fn program_name(p: AwardProgram) -> Seq<char> {
    match p {
        AwardProgram::SOTA => "SOTA"@,
        AwardProgram::POTA => "POTA"@,
        AwardProgram::WWFF => "WWFF"@,
    }
}

impl AwardProgram {
    /// The number that stands for the program (see `program_number`).
    pub fn as_i32(&self) -> (r: i32)
        ensures
            r == program_number(*self),
    {
        match self {
            AwardProgram::SOTA => 0,
            AwardProgram::POTA => 1,
            AwardProgram::WWFF => 2,
        }
    }

    /// The program that a number 0, 1 or 2 stands for.
    pub fn from_i32(value: i32) -> (r: Self)
        requires
            0 <= value <= 2,
        ensures
            program_number(r) == value,
    {
        if value == 0 {
            AwardProgram::SOTA
        } else if value == 1 {
            AwardProgram::POTA
        } else {
            AwardProgram::WWFF
        }
    }

    /// The name of the program (see `program_name`).
    pub fn name(&self) -> (r: String)
        ensures
            r@ == program_name(*self),
    {
        match self {
            AwardProgram::SOTA => String::from_str("SOTA"),
            AwardProgram::POTA => String::from_str("POTA"),
            AwardProgram::WWFF => String::from_str("WWFF"),
        }
    }
}

} // verus!
