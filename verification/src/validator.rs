use crate::token::Token;
use vstd::prelude::*;

verus! {

/// How one command changes the nesting depth of a left-to-right scan.
pub open spec fn depth_delta(t: Token) -> int {
    match t {
        Token::BeginLoop => 1,
        Token::EndLoop => -1,
        _ => 0,
    }
}

/// Net nesting depth after scanning the whole sequence: the number of
/// `BeginLoop` commands minus the number of `EndLoop` commands.
pub open spec fn net_depth(toks: Seq<Token>) -> int
    decreases toks.len(),
{
    if toks.len() == 0 {
        0
    } else {
        net_depth(toks.drop_last()) + depth_delta(toks.last())
    }
}

/// The running depth never dips below zero: no prefix closes a loop that
/// was not opened before it.
pub open spec fn prefixes_nonneg(toks: Seq<Token>) -> bool {
    forall|i: int| 0 <= i <= toks.len() ==> net_depth(#[trigger] toks.take(i)) >= 0
}

/// A command sequence is well formed when every prefix depth is nonnegative
/// and the depth returns to exactly zero at the end.
pub open spec fn brackets_ok(toks: Seq<Token>) -> bool {
    prefixes_nonneg(toks) && net_depth(toks) == 0
}

/// The two ways a command sequence can be structurally malformed.
#[derive(Debug, PartialEq, Eq, Structural, Copy, Clone)]
pub enum StructureError {
    /// An `EndLoop` appeared with no open loop left to close: the running
    /// depth would have gone negative.
    UnmatchedCloser,
    /// The scan ended with loops still open: the final depth is positive.
    UnclosedOpener,
}

impl StructureError {
    /// A diagnostic line for this error, for adapters to print.
    pub fn message(&self) -> (s: String)
        ensures
            *self == StructureError::UnmatchedCloser ==> s@ == "unmatched closing loop marker"@,
            *self == StructureError::UnclosedOpener ==> s@ == "unclosed opening loop marker"@,
    {
        match self {
            StructureError::UnmatchedCloser => "unmatched closing loop marker".to_owned(),
            StructureError::UnclosedOpener => "unclosed opening loop marker".to_owned(),
        }
    }
}

/// The net depth of a sequence lies between `-len` and `len`.
proof fn lemma_net_depth_bounds(toks: Seq<Token>)
    ensures
        -toks.len() <= net_depth(toks) <= toks.len(),
    decreases toks.len(),
{
    if toks.len() != 0 {
        lemma_net_depth_bounds(toks.drop_last());
    }
}

/// Scans the commands once, tracking the nesting depth, and reports which of
/// the two malformed-structure conditions holds, if any. The scan stops at
/// the first command that would drive the depth negative.
pub fn check_brackets(tokens: &[Token]) -> (r: Result<(), StructureError>)
    ensures
        r == Ok::<(), StructureError>(()) <==> brackets_ok(tokens@),
        r == Err::<(), StructureError>(StructureError::UnmatchedCloser) <==> !prefixes_nonneg(
            tokens@,
        ),
        r == Err::<(), StructureError>(StructureError::UnclosedOpener) <==> prefixes_nonneg(
            tokens@,
        ) && net_depth(tokens@) != 0,
{
    let n = tokens.len();
    let mut depth: usize = 0;
    let mut i: usize = 0;
    proof {
        assert(tokens@.take(0) =~= Seq::<Token>::empty());
    }
    while i < n
        invariant
            n == tokens@.len(),
            i <= n,
            depth as int == net_depth(tokens@.take(i as int)),
            forall|j: int| 0 <= j <= i ==> net_depth(#[trigger] tokens@.take(j)) >= 0,
        decreases n - i,
    {
        let ghost prefix = tokens@.take(i as int);
        proof {
            assert(tokens@.take(i + 1).drop_last() =~= prefix);
            assert(tokens@.take(i + 1).last() == tokens@[i as int]);
            lemma_net_depth_bounds(prefix);
        }
        match tokens[i] {
            Token::BeginLoop => {
                depth += 1;
            },
            Token::EndLoop => {
                if depth == 0 {
                    proof {
                        assert(net_depth(tokens@.take(i + 1)) < 0);
                    }
                    return Err(StructureError::UnmatchedCloser);
                }
                depth -= 1;
            },
            _ => {},
        }
        i += 1;
    }
    proof {
        assert(tokens@.take(n as int) =~= tokens@);
    }
    if depth == 0 {
        Ok(())
    } else {
        Err(StructureError::UnclosedOpener)
    }
}

/// Decides whether the loop markers of `tokens` are balanced and properly
/// nested: true exactly when every prefix depth stays nonnegative and the
/// final depth is zero.
pub fn validate_brackets(tokens: &[Token]) -> (r: bool)
    ensures
        r == brackets_ok(tokens@),
{
    check_brackets(tokens).is_ok()
}

} // verus!
