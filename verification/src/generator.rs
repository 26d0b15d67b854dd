use crate::token::Token;
use crate::validator::{net_depth, prefixes_nonneg};
use vstd::prelude::*;
use vstd::string::StringExecFns;

verus! {

/// The decimal digit character for a value below ten.
pub open spec fn dec_digit(d: nat) -> char {
    if d == 0 {
        '0'
    } else if d == 1 {
        '1'
    } else if d == 2 {
        '2'
    } else if d == 3 {
        '3'
    } else if d == 4 {
        '4'
    } else if d == 5 {
        '5'
    } else if d == 6 {
        '6'
    } else if d == 7 {
        '7'
    } else if d == 8 {
        '8'
    } else {
        '9'
    }
}

/// The decimal numeral of `n`, most significant digit first, no leading
/// zeros (a single `'0'` for zero).
pub open spec fn dec_rep(n: nat) -> Seq<char>
    decreases n,
{
    if n < 10 {
        seq![dec_digit(n)]
    } else {
        dec_rep(n / 10).push(dec_digit(n % 10))
    }
}

/// `level` copies of the four-space indentation unit.
pub open spec fn indent_text(level: nat) -> Seq<char>
    decreases level,
{
    if level == 0 {
        Seq::empty()
    } else {
        indent_text((level - 1) as nat) + "    "@
    }
}

/// The fixed program skeleton emitted before any command: the standard I/O
/// header, a 30000-cell zero-initialized tape and a cursor at its start.
pub open spec fn header_text() -> Seq<char> {
    "#include <stdio.h>\n\nint main() {\n    char tape[30000] = {0};\n    char *ptr = tape;\n\n"@
}

/// The fixed program tail: the successful termination of the generated
/// program.
pub open spec fn footer_text() -> Seq<char> {
    "\n    return 0;\n}\n"@
}

/// The runtime upper-bound check emitted after every cursor advance. It is
/// evaluated when the generated program runs, not at transpile time.
pub open spec fn right_guard_text() -> Seq<char> {
    "if (ptr >= tape + sizeof(tape)) { fprintf(stderr, \"Error: Pointer out of bounds\\n\"); return 1; }\n"@
}

/// The runtime lower-bound check emitted after every cursor retreat.
pub open spec fn left_guard_text() -> Seq<char> {
    "if (ptr < tape) { fprintf(stderr, \"Error: Pointer out of bounds\\n\"); return 1; }\n"@
}

/// The C text emitted for one command at the given indentation level.
/// Cell arithmetic relies on the target's native 8-bit wraparound; both
/// movement commands are followed by their bounds check at the same level.
pub open spec fn line_text(t: Token, level: nat) -> Seq<char> {
    match t {
        Token::Add(n) => indent_text(level) + "*ptr += "@ + dec_rep(n as nat) + ";\n"@,
        Token::Sub(n) => indent_text(level) + "*ptr -= "@ + dec_rep(n as nat) + ";\n"@,
        Token::Right(n) => indent_text(level) + "ptr += "@ + dec_rep(n as nat) + ";\n"@
            + indent_text(level) + right_guard_text(),
        Token::Left(n) => indent_text(level) + "ptr -= "@ + dec_rep(n as nat) + ";\n"@
            + indent_text(level) + left_guard_text(),
        Token::Read => indent_text(level) + "*ptr = getchar();\n"@,
        Token::Write => indent_text(level) + "putchar(*ptr);\n"@,
        Token::BeginLoop => indent_text(level) + "while (*ptr) {\n"@,
        Token::EndLoop => indent_text(level) + "}\n"@,
    }
}

/// The level at which a command's text is emitted when the generator's
/// running level is `level`. A closing marker is emitted one level shallower;
/// the floor at the function-body level is a defensive clamp that validated
/// input never reaches (see `lemma_indent_tracks_depth`).
pub open spec fn emit_level(t: Token, level: nat) -> nat {
    match t {
        Token::EndLoop => if level <= 1 {
            1
        } else {
            (level - 1) as nat
        },
        _ => level,
    }
}

/// The generator's running level after a command: one deeper after an
/// opening marker, one shallower (clamped) after a closing one.
pub open spec fn next_level(t: Token, level: nat) -> nat {
    match t {
        Token::BeginLoop => level + 1,
        _ => emit_level(t, level),
    }
}

/// The per-command portion of the generated program, with the running
/// indentation level threaded through the sequence.
pub open spec fn body_text(toks: Seq<Token>, level: nat) -> Seq<char>
    decreases toks.len(),
{
    if toks.len() == 0 {
        Seq::empty()
    } else {
        line_text(toks[0], emit_level(toks[0], level)) + body_text(
            toks.skip(1),
            next_level(toks[0], level),
        )
    }
}

/// The complete generated C program for a command sequence: skeleton header,
/// one emission per command starting at the function-body level, then the
/// terminating return.
pub open spec fn generated_c(toks: Seq<Token>) -> Seq<char> {
    header_text() + body_text(toks, 1) + footer_text()
}

/// The generator's running indentation level just before the command at
/// position `i` is handled, starting from the function-body level 1.
pub open spec fn level_at(toks: Seq<Token>, i: int) -> nat
    decreases i,
{
    if i <= 0 {
        1
    } else {
        next_level(toks[i - 1], level_at(toks, i - 1))
    }
}

proof fn lemma_level_at_aux(toks: Seq<Token>, i: int)
    requires
        0 <= i <= toks.len(),
        prefixes_nonneg(toks),
    ensures
        level_at(toks, i) as int == 1 + net_depth(toks.take(i)),
    decreases i,
{
    if i == 0 {
        assert(toks.take(0) =~= Seq::<Token>::empty());
    } else {
        lemma_level_at_aux(toks, i - 1);
        assert(toks.take(i).drop_last() =~= toks.take(i - 1));
        assert(toks.take(i).last() == toks[i - 1]);
        if toks[i - 1] == Token::EndLoop {
            assert(net_depth(toks.take(i)) >= 0);
        }
    }
}

/// The generated body unrolls one command at a time: the text for the
/// commands from position `i` on starts with the line for the command at
/// `i`, emitted at `emit_level(toks[i], level_at(toks, i))`, followed by the
/// text for the rest. So `level_at` names exactly the levels at which
/// `body_text` emits its lines.
pub proof fn lemma_body_text_at(toks: Seq<Token>, i: int)
    requires
        0 <= i < toks.len(),
    ensures
        body_text(toks.skip(i), level_at(toks, i)) == line_text(
            toks[i],
            emit_level(toks[i], level_at(toks, i)),
        ) + body_text(toks.skip(i + 1), level_at(toks, i + 1)),
{
    assert(toks.skip(i)[0] == toks[i]);
    assert(toks.skip(i).skip(1) =~= toks.skip(i + 1));
    assert(level_at(toks, i + 1) == next_level(toks[i], level_at(toks, i)));
}

/// Nesting depth in the generated text tracks the loop markers exactly, as
/// long as no prefix of the command sequence closes an unopened loop: the
/// running indentation level is always one more than the nesting depth, it
/// increases by exactly one level per `BeginLoop` and decreases by exactly
/// one per `EndLoop`, and it never falls below the function-body level — in
/// particular, the defensive clamp in `emit_level` is never reached.
pub proof fn lemma_indent_tracks_depth(toks: Seq<Token>)
    requires
        prefixes_nonneg(toks),
    ensures
        forall|i: int|
            0 <= i <= toks.len() ==> level_at(toks, i) as int == 1 + net_depth(#[trigger] toks.take(i)),
        forall|i: int|
            0 <= i < toks.len() && toks[i] == Token::BeginLoop ==> level_at(toks, i + 1)
                == level_at(toks, i) + 1,
        forall|i: int|
            0 <= i < toks.len() && #[trigger] toks[i] == Token::EndLoop ==> level_at(toks, i) >= 2
                && level_at(toks, i + 1) == level_at(toks, i) - 1 && emit_level(
                toks[i],
                level_at(toks, i),
            ) == level_at(toks, i) - 1,
        forall|i: int|
            0 <= i < toks.len() ==> emit_level(#[trigger] toks[i], level_at(toks, i)) >= 1,
{
    assert forall|i: int| 0 <= i <= toks.len() implies level_at(toks, i) as int == 1 + net_depth(
        #[trigger] toks.take(i),
    ) by {
        lemma_level_at_aux(toks, i);
    }
    assert forall|i: int| 0 <= i < toks.len() && #[trigger] toks[i] == Token::EndLoop implies
    level_at(toks, i) >= 2 && level_at(toks, i + 1) == level_at(toks, i) - 1 && emit_level(
        toks[i],
        level_at(toks, i),
    ) == level_at(toks, i) - 1 by {
        lemma_level_at_aux(toks, i);
        lemma_level_at_aux(toks, i + 1);
        assert(toks.take(i + 1).drop_last() =~= toks.take(i));
        assert(toks.take(i + 1).last() == toks[i]);
        assert(net_depth(toks.take(i + 1)) >= 0);
    }
    assert forall|i: int| 0 <= i < toks.len() implies emit_level(
        #[trigger] toks[i],
        level_at(toks, i),
    ) >= 1 by {
        lemma_level_at_aux(toks, i);
        assert(net_depth(toks.take(i)) >= 0);
    }
}

/// On an empty command sequence the generated program is the minimal valid
/// one: the fixed skeleton of header and declarations immediately followed
/// by the terminating return, with no per-command statements between them.
pub proof fn lemma_empty_program()
    ensures
        generated_c(Seq::<Token>::empty()) == header_text() + footer_text(),
{
    assert(header_text() + body_text(Seq::<Token>::empty(), 1) + footer_text() =~= header_text()
        + footer_text());
}

/// Appends the single decimal digit `d`.
fn push_digit(out: &mut String, d: usize)
    requires
        d < 10,
    ensures
        final(out)@ == old(out)@ + seq![dec_digit(d as nat)],
{
    if d == 0 {
        proof {
            reveal_strlit("0");
            assert("0"@ =~= seq![dec_digit(d as nat)]);
        }
        out.append("0");
    } else if d == 1 {
        proof {
            reveal_strlit("1");
            assert("1"@ =~= seq![dec_digit(d as nat)]);
        }
        out.append("1");
    } else if d == 2 {
        proof {
            reveal_strlit("2");
            assert("2"@ =~= seq![dec_digit(d as nat)]);
        }
        out.append("2");
    } else if d == 3 {
        proof {
            reveal_strlit("3");
            assert("3"@ =~= seq![dec_digit(d as nat)]);
        }
        out.append("3");
    } else if d == 4 {
        proof {
            reveal_strlit("4");
            assert("4"@ =~= seq![dec_digit(d as nat)]);
        }
        out.append("4");
    } else if d == 5 {
        proof {
            reveal_strlit("5");
            assert("5"@ =~= seq![dec_digit(d as nat)]);
        }
        out.append("5");
    } else if d == 6 {
        proof {
            reveal_strlit("6");
            assert("6"@ =~= seq![dec_digit(d as nat)]);
        }
        out.append("6");
    } else if d == 7 {
        proof {
            reveal_strlit("7");
            assert("7"@ =~= seq![dec_digit(d as nat)]);
        }
        out.append("7");
    } else if d == 8 {
        proof {
            reveal_strlit("8");
            assert("8"@ =~= seq![dec_digit(d as nat)]);
        }
        out.append("8");
    } else {
        proof {
            reveal_strlit("9");
            assert("9"@ =~= seq![dec_digit(d as nat)]);
        }
        out.append("9");
    }
}

/// Appends the decimal numeral of `n`.
fn push_dec(out: &mut String, n: usize)
    ensures
        final(out)@ == old(out)@ + dec_rep(n as nat),
    decreases n,
{
    if n < 10 {
        push_digit(out, n);
    } else {
        push_dec(out, n / 10);
        push_digit(out, n % 10);
        proof {
            assert(dec_rep(n as nat) =~= dec_rep((n / 10) as nat) + seq![
                dec_digit((n % 10) as nat),
            ]);
            assert((old(out)@ + dec_rep((n / 10) as nat)) + seq![dec_digit((n % 10) as nat)] =~= old(
                out,
            )@ + dec_rep(n as nat));
        }
    }
}

/// Appends `level` copies of the indentation unit.
fn push_indent(out: &mut String, level: usize)
    ensures
        final(out)@ == old(out)@ + indent_text(level as nat),
{
    let mut j: usize = 0;
    proof {
        assert(old(out)@ + indent_text(0) =~= old(out)@);
    }
    while j < level
        invariant
            j <= level,
            out@ == old(out)@ + indent_text(j as nat),
        decreases level - j,
    {
        out.append("    ");
        proof {
            assert((old(out)@ + indent_text(j as nat)) + "    "@ =~= old(out)@ + indent_text(
                (j + 1) as nat,
            ));
        }
        j += 1;
    }
}

/// Translates a command sequence into the C source text of a tape machine.
/// The result is pinned down exactly by `generated_c`: the fixed skeleton,
/// one emission per command in order (indented by nesting level, with
/// bounds checks after every cursor move), and the terminating return.
pub fn generate(tokens: &[Token]) -> (out: String)
    ensures
        out@ == generated_c(tokens@),
{
    let mut out =
        "#include <stdio.h>\n\nint main() {\n    char tape[30000] = {0};\n    char *ptr = tape;\n\n".to_owned();
    let n = tokens.len();
    // Nesting depth of the commands seen so far; text is emitted at
    // indentation level depth + 1, the function-body level being 1.
    let mut depth: usize = 0;
    let mut i: usize = 0;
    proof {
        assert(tokens@.skip(0) =~= tokens@);
    }
    while i < n
        invariant
            n == tokens@.len(),
            i <= n,
            depth <= i,
            out@ + body_text(tokens@.skip(i as int), (depth + 1) as nat) == header_text()
                + body_text(tokens@, 1),
        decreases n - i,
    {
        let ghost rest = tokens@.skip(i as int);
        let ghost lvl = (depth + 1) as nat;
        let ghost out0 = out@;
        let t = tokens[i];
        proof {
            assert(rest[0] == t);
            assert(rest.skip(1) =~= tokens@.skip(i + 1));
        }
        match t {
            Token::Add(k) => {
                push_indent(&mut out, depth + 1);
                out.append("*ptr += ");
                push_dec(&mut out, k);
                out.append(";\n");
                proof {
                    assert(out@ =~= out0 + line_text(t, emit_level(t, lvl)));
                }
            },
            Token::Sub(k) => {
                push_indent(&mut out, depth + 1);
                out.append("*ptr -= ");
                push_dec(&mut out, k);
                out.append(";\n");
                proof {
                    assert(out@ =~= out0 + line_text(t, emit_level(t, lvl)));
                }
            },
            Token::Right(k) => {
                push_indent(&mut out, depth + 1);
                out.append("ptr += ");
                push_dec(&mut out, k);
                out.append(";\n");
                push_indent(&mut out, depth + 1);
                out.append(
                    "if (ptr >= tape + sizeof(tape)) { fprintf(stderr, \"Error: Pointer out of bounds\\n\"); return 1; }\n",
                );
                proof {
                    assert(out@ =~= out0 + line_text(t, emit_level(t, lvl)));
                }
            },
            Token::Left(k) => {
                push_indent(&mut out, depth + 1);
                out.append("ptr -= ");
                push_dec(&mut out, k);
                out.append(";\n");
                push_indent(&mut out, depth + 1);
                out.append(
                    "if (ptr < tape) { fprintf(stderr, \"Error: Pointer out of bounds\\n\"); return 1; }\n",
                );
                proof {
                    assert(out@ =~= out0 + line_text(t, emit_level(t, lvl)));
                }
            },
            Token::Read => {
                push_indent(&mut out, depth + 1);
                out.append("*ptr = getchar();\n");
                proof {
                    assert(out@ =~= out0 + line_text(t, emit_level(t, lvl)));
                }
            },
            Token::Write => {
                push_indent(&mut out, depth + 1);
                out.append("putchar(*ptr);\n");
                proof {
                    assert(out@ =~= out0 + line_text(t, emit_level(t, lvl)));
                }
            },
            Token::BeginLoop => {
                push_indent(&mut out, depth + 1);
                out.append("while (*ptr) {\n");
                depth += 1;
                proof {
                    assert(out@ =~= out0 + line_text(t, emit_level(t, lvl)));
                }
            },
            Token::EndLoop => {
                // Defensive clamp at the function-body level; validated
                // input never reaches it (see lemma_indent_tracks_depth).
                depth = if depth > 0 {
                    depth - 1
                } else {
                    0
                };
                push_indent(&mut out, depth + 1);
                out.append("}\n");
                proof {
                    assert(out@ =~= out0 + line_text(t, emit_level(t, lvl)));
                }
            },
        }
        proof {
            assert(body_text(rest, lvl) == line_text(t, emit_level(t, lvl)) + body_text(
                tokens@.skip(i + 1),
                next_level(t, lvl),
            ));
            assert(out@ + body_text(tokens@.skip(i + 1), next_level(t, lvl)) =~= out0 + body_text(
                rest,
                lvl,
            ));
        }
        i += 1;
    }
    proof {
        assert(tokens@.skip(n as int) =~= Seq::<Token>::empty());
        assert(body_text(Seq::<Token>::empty(), (depth + 1) as nat) == Seq::<char>::empty());
        assert(out@ =~= header_text() + body_text(tokens@, 1));
    }
    out.append("\n    return 0;\n}\n");
    proof {
        assert(out@ =~= generated_c(tokens@));
    }
    out
}

} // verus!
