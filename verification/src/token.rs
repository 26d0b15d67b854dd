use vstd::prelude::*;

verus! {

/// One Brainfuck command.
///
/// Runs of the four arithmetic and movement characters (`+ - > <`) are
/// run-length coalesced: the payload counts how many identical consecutive
/// source characters the command stands for, and is always at least 1.
/// The remaining four commands carry no payload; `,` and `.` are one command
/// per occurrence, as are the loop markers `[` and `]`.
#[derive(Debug, PartialEq, Eq, Structural, Copy, Clone)]
pub enum Token {
    Add(usize),
    Sub(usize),
    Right(usize),
    Left(usize),
    Read,
    Write,
    BeginLoop,
    EndLoop,
}

} // verus!
