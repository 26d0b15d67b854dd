use crate::generator::{generate, generated_c};
use crate::tokenizer::{tokenize, tokens_of};
use crate::validator::{brackets_ok, check_brackets, net_depth, prefixes_nonneg, StructureError};
use vstd::prelude::*;

verus! {

/// The whole pipeline behind one tagged entry point: tokenize, validate,
/// and, only on a well-formed command sequence, generate. A malformed source
/// yields the structural error instead of text, so a caller can never
/// mistake a diagnostic for generated code.
pub fn transpile(code: &str) -> (r: Result<String, StructureError>)
    ensures
        ({
            let toks = tokens_of(code@);
            match r {
                Ok(text) => brackets_ok(toks) && text@ == generated_c(toks),
                Err(StructureError::UnmatchedCloser) => !prefixes_nonneg(toks),
                Err(StructureError::UnclosedOpener) => prefixes_nonneg(toks) && net_depth(toks)
                    != 0,
            }
        }),
{
    let tokens = tokenize(code);
    match check_brackets(tokens.as_slice()) {
        Ok(_) => Ok(generate(tokens.as_slice())),
        Err(e) => Err(e),
    }
}

/// The string-typed adapter over `transpile` that module-boundary callers
/// expect: the generated C text on success, and on a malformed source a
/// sentinel line that begins with `Error:`.
pub fn transpile_brainfuck_to_c(code: &str) -> (r: String)
    ensures
        brackets_ok(tokens_of(code@)) ==> r@ == generated_c(tokens_of(code@)),
        !brackets_ok(tokens_of(code@)) ==> r@ == "Error: Unbalanced brackets in the code"@,
{
    match transpile(code) {
        Ok(text) => text,
        Err(_) => "Error: Unbalanced brackets in the code".to_owned(),
    }
}

} // verus!
