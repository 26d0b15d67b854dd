use crate::token::Token;
use vstd::prelude::*;
use vstd::string::StrSliceExecFns;

verus! {

/// The four characters whose runs are coalesced into one counted command.
pub open spec fn is_run_char(c: char) -> bool {
    c == '+' || c == '-' || c == '>' || c == '<'
}

/// The four characters that always yield exactly one command per occurrence.
pub open spec fn is_plain_char(c: char) -> bool {
    c == ',' || c == '.' || c == '[' || c == ']'
}

/// A character that contributes a command; everything else is a comment.
pub open spec fn is_command_char(c: char) -> bool {
    is_run_char(c) || is_plain_char(c)
}

/// The counted command that a run of `k` copies of `c` collapses into.
pub open spec fn run_token(c: char, k: nat) -> Token {
    if c == '+' {
        Token::Add(k as usize)
    } else if c == '-' {
        Token::Sub(k as usize)
    } else if c == '>' {
        Token::Right(k as usize)
    } else {
        Token::Left(k as usize)
    }
}

/// The command for one occurrence of a non-coalesced command character.
pub open spec fn plain_token(c: char) -> Token {
    if c == ',' {
        Token::Read
    } else if c == '.' {
        Token::Write
    } else if c == '[' {
        Token::BeginLoop
    } else {
        Token::EndLoop
    }
}

/// Length of the longest prefix of `s` consisting only of the character `c`.
pub open spec fn run_len(s: Seq<char>, c: char) -> nat
    decreases s.len(),
{
    if s.len() == 0 || s[0] != c {
        0
    } else {
        1 + run_len(s.skip(1), c)
    }
}

pub proof fn lemma_run_len_le(s: Seq<char>, c: char)
    ensures
        run_len(s, c) <= s.len(),
    decreases s.len(),
{
    if s.len() != 0 && s[0] == c {
        lemma_run_len_le(s.skip(1), c);
    }
}

/// The command sequence that the tokenizer produces from the text `s`:
/// a maximal run of one of `+ - > <` becomes a single counted command,
/// each of `, . [ ]` becomes one command, and every other character is
/// skipped as a comment.
pub open spec fn tokens_of(s: Seq<char>) -> Seq<Token>
    decreases s.len(),
{
    if s.len() == 0 {
        Seq::empty()
    } else {
        let c = s[0];
        if is_run_char(c) {
            proof {
                lemma_run_len_le(s, c);
            }
            seq![run_token(c, run_len(s, c))] + tokens_of(s.skip(run_len(s, c) as int))
        } else if is_plain_char(c) {
            seq![plain_token(c)] + tokens_of(s.skip(1))
        } else {
            tokens_of(s.skip(1))
        }
    }
}

/// The longest all-`c` prefix is exactly `k` when the first `k` characters
/// are `c` and the run stops there (at the end of `s` or at a different
/// character).
proof fn lemma_run_len_exact(s: Seq<char>, c: char, k: int)
    requires
        0 <= k <= s.len(),
        forall|j: int| 0 <= j < k ==> s[j] == c,
        k == s.len() || s[k] != c,
    ensures
        run_len(s, c) == k,
    decreases k,
{
    if k == 0 {
    } else {
        assert(s[0] == c);
        assert(forall|j: int| 0 <= j < k - 1 ==> s.skip(1)[j] == c);
        lemma_run_len_exact(s.skip(1), c, k - 1);
    }
}

/// Number of occurrences of the character `c` in `s`.
pub open spec fn char_count(s: Seq<char>, c: char) -> nat
    decreases s.len(),
{
    if s.len() == 0 {
        0
    } else {
        (if s[0] == c {
            1nat
        } else {
            0nat
        }) + char_count(s.skip(1), c)
    }
}

/// Number of occurrences of the command `t` in `toks`.
pub open spec fn token_count(toks: Seq<Token>, t: Token) -> nat
    decreases toks.len(),
{
    if toks.len() == 0 {
        0
    } else {
        (if toks[0] == t {
            1nat
        } else {
            0nat
        }) + token_count(toks.skip(1), t)
    }
}

/// Every character inside the longest all-`c` prefix is `c`.
proof fn lemma_run_len_prefix(s: Seq<char>, c: char)
    ensures
        forall|j: int| 0 <= j < run_len(s, c) ==> s[j] == c,
    decreases s.len(),
{
    if s.len() != 0 && s[0] == c {
        lemma_run_len_le(s, c);
        lemma_run_len_le(s.skip(1), c);
        lemma_run_len_prefix(s.skip(1), c);
        assert(run_len(s, c) == 1 + run_len(s.skip(1), c));
        assert forall|j: int| 0 <= j < run_len(s, c) implies s[j] == c by {
            if j > 0 {
                assert(0 <= j - 1 < run_len(s.skip(1), c));
                assert(s.skip(1)[j - 1] == s[j]);
            }
        }
    }
}

/// The longest all-`c` prefix ends at the end of `s` or at a character
/// other than `c`.
proof fn lemma_run_len_stop(s: Seq<char>, c: char)
    ensures
        run_len(s, c) == s.len() || s[run_len(s, c) as int] != c,
    decreases s.len(),
{
    lemma_run_len_le(s, c);
    if s.len() != 0 && s[0] == c {
        lemma_run_len_stop(s.skip(1), c);
    }
}

/// Skipping a prefix made of characters other than `target` does not change
/// how often `target` occurs.
proof fn lemma_char_count_skip(s: Seq<char>, k: int, target: char)
    requires
        0 <= k <= s.len(),
        forall|j: int| 0 <= j < k ==> s[j] != target,
    ensures
        char_count(s, target) == char_count(s.skip(k), target),
    decreases k,
{
    if k > 0 {
        assert(forall|j: int| 0 <= j < k - 1 ==> s.skip(1)[j] != target);
        lemma_char_count_skip(s.skip(1), k - 1, target);
        assert(s.skip(1).skip(k - 1) =~= s.skip(k));
    } else {
        assert(s.skip(0) =~= s);
    }
}

/// Prepending one command raises the count of that command by one and
/// leaves every other count unchanged.
proof fn lemma_token_count_cons(x: Token, toks: Seq<Token>, t: Token)
    ensures
        token_count(seq![x] + toks, t) == (if x == t {
            1nat
        } else {
            0nat
        }) + token_count(toks, t),
{
    assert((seq![x] + toks)[0] == x);
    assert((seq![x] + toks).skip(1) =~= toks);
}

/// For every input text, the tokenizer produces exactly one `BeginLoop`
/// command per `[` character and exactly one `EndLoop` command per `]`
/// character.
pub proof fn lemma_loop_marker_counts(s: Seq<char>)
    ensures
        token_count(tokens_of(s), Token::BeginLoop) == char_count(s, '['),
        token_count(tokens_of(s), Token::EndLoop) == char_count(s, ']'),
    decreases s.len(),
{
    if s.len() == 0 {
    } else {
        let c = s[0];
        if is_run_char(c) {
            let k = run_len(s, c) as int;
            lemma_run_len_le(s, c);
            lemma_run_len_prefix(s, c);
            lemma_loop_marker_counts(s.skip(k));
            lemma_char_count_skip(s, k, '[');
            lemma_char_count_skip(s, k, ']');
            lemma_token_count_cons(run_token(c, k as nat), tokens_of(s.skip(k)), Token::BeginLoop);
            lemma_token_count_cons(run_token(c, k as nat), tokens_of(s.skip(k)), Token::EndLoop);
        } else if is_plain_char(c) {
            lemma_loop_marker_counts(s.skip(1));
            lemma_token_count_cons(plain_token(c), tokens_of(s.skip(1)), Token::BeginLoop);
            lemma_token_count_cons(plain_token(c), tokens_of(s.skip(1)), Token::EndLoop);
            assert(char_count(s, '[') == (if c == '[' {
                1nat
            } else {
                0nat
            }) + char_count(s.skip(1), '['));
        } else {
            lemma_loop_marker_counts(s.skip(1));
        }
    }
}

/// Splitting a text at any position that does not fall inside a run of one
/// of `+ - > <` splits its command sequence: tokenizing the two halves
/// separately gives the same commands as tokenizing the whole.
pub proof fn lemma_tokens_split(s: Seq<char>, i: int)
    requires
        0 <= i <= s.len(),
        i == 0 || i == s.len() || !(is_run_char(s[i]) && s[i - 1] == s[i]),
    ensures
        tokens_of(s) == tokens_of(s.take(i)) + tokens_of(s.skip(i)),
    decreases s.len(),
{
    if i == 0 {
        assert(s.take(0) =~= Seq::<char>::empty());
        assert(s.skip(0) =~= s);
        assert(tokens_of(s.take(0)) + tokens_of(s) =~= tokens_of(s));
    } else if i == s.len() {
        assert(s.take(i) =~= s);
        assert(s.skip(i) =~= Seq::<char>::empty());
        assert(tokens_of(s) + tokens_of(s.skip(i)) =~= tokens_of(s));
    } else {
        let c = s[0];
        let pre = s.take(i);
        assert(pre[0] == c);
        if is_run_char(c) {
            let k = run_len(s, c) as int;
            lemma_run_len_le(s, c);
            lemma_run_len_prefix(s, c);
            lemma_run_len_stop(s, c);
            // The split point cannot lie inside the leading run.
            assert(k <= i) by {
                if k > i {
                    assert(s[i] == c && s[i - 1] == c);
                }
            }
            assert(forall|j: int| 0 <= j < k ==> pre[j] == c);
            assert(k == i || pre[k] != c);
            lemma_run_len_exact(pre, c, k);
            if 0 < i - k < s.len() - k {
                assert(s.skip(k)[i - k] == s[i]);
                assert(s.skip(k)[i - k - 1] == s[i - 1]);
            }
            lemma_tokens_split(s.skip(k), i - k);
            assert(pre.skip(k) =~= s.skip(k).take(i - k));
            assert(s.skip(k).skip(i - k) =~= s.skip(i));
            assert(tokens_of(s) == seq![run_token(c, k as nat)] + tokens_of(s.skip(k)));
            assert(tokens_of(pre) == seq![run_token(c, k as nat)] + tokens_of(pre.skip(k)));
            assert(tokens_of(pre) + tokens_of(s.skip(i)) =~= seq![run_token(c, k as nat)] + (
            tokens_of(s.skip(k).take(i - k)) + tokens_of(s.skip(k).skip(i - k))));
        } else if is_plain_char(c) {
            lemma_tokens_split(s.skip(1), i - 1);
            assert(pre.skip(1) =~= s.skip(1).take(i - 1));
            assert(s.skip(1).skip(i - 1) =~= s.skip(i));
            assert(tokens_of(s) == seq![plain_token(c)] + tokens_of(s.skip(1)));
            assert(tokens_of(pre) == seq![plain_token(c)] + tokens_of(pre.skip(1)));
            assert(tokens_of(pre) + tokens_of(s.skip(i)) =~= seq![plain_token(c)] + (tokens_of(
                s.skip(1).take(i - 1),
            ) + tokens_of(s.skip(1).skip(i - 1))));
        } else {
            lemma_tokens_split(s.skip(1), i - 1);
            assert(pre.skip(1) =~= s.skip(1).take(i - 1));
            assert(s.skip(1).skip(i - 1) =~= s.skip(i));
            assert(tokens_of(s) == tokens_of(s.skip(1)));
            assert(tokens_of(pre) == tokens_of(pre.skip(1)));
        }
    }
}

/// A maximal run of `k` identical characters among `+ - > <` — one that
/// neither extends to the left nor to the right — becomes exactly one
/// command carrying the full run length `k`, however large `k` is: the run
/// is never wrapped, truncated or split.
pub proof fn lemma_maximal_run(s: Seq<char>, i: int, k: int)
    requires
        0 <= i,
        1 <= k,
        i + k <= s.len(),
        is_run_char(s[i]),
        forall|j: int| i <= j < i + k ==> s[j] == s[i],
        i == 0 || s[i - 1] != s[i],
        i + k == s.len() || s[i + k] != s[i],
    ensures
        tokens_of(s) == tokens_of(s.take(i)) + seq![run_token(s[i], k as nat)] + tokens_of(
            s.skip(i + k),
        ),
{
    let c = s[i];
    lemma_tokens_split(s, i);
    let mid = s.skip(i);
    assert(mid[0] == c);
    assert(forall|j: int| 0 <= j < k ==> mid[j] == c);
    assert(k == mid.len() || mid[k] != c);
    lemma_run_len_exact(mid, c, k);
    assert(mid.skip(k) =~= s.skip(i + k));
    assert(tokens_of(mid) == seq![run_token(c, k as nat)] + tokens_of(s.skip(i + k)));
    assert(tokens_of(s.take(i)) + (seq![run_token(c, k as nat)] + tokens_of(s.skip(i + k))) =~= (
    tokens_of(s.take(i)) + seq![run_token(c, k as nat)]) + tokens_of(s.skip(i + k)));
}

/// Unrecognized characters contribute zero commands: a text with no command
/// characters at all tokenizes to the empty command sequence.
pub proof fn lemma_comments_only(s: Seq<char>)
    requires
        forall|j: int| 0 <= j < s.len() ==> !is_command_char(s[j]),
    ensures
        tokens_of(s) == Seq::<Token>::empty(),
    decreases s.len(),
{
    if s.len() > 0 {
        assert(!is_command_char(s[0]));
        assert(forall|j: int| 0 <= j < s.skip(1).len() ==> s.skip(1)[j] == s[j + 1]);
        lemma_comments_only(s.skip(1));
    }
}

/// Scans `input` left to right in one pass and returns its command sequence.
/// Never fails: unrecognized characters are skipped, so every text tokenizes.
pub fn tokenize(input: &str) -> (tokens: Vec<Token>)
    ensures
        tokens@ == tokens_of(input@),
{
    let n = input.unicode_len();
    let mut tokens: Vec<Token> = Vec::new();
    let mut i: usize = 0;
    proof {
        assert(input@.skip(0) =~= input@);
    }
    while i < n
        invariant
            n == input@.len(),
            i <= n,
            tokens@ + tokens_of(input@.skip(i as int)) == tokens_of(input@),
        decreases n - i,
    {
        let ghost rest = input@.skip(i as int);
        let c = input.get_char(i);
        if c == '+' || c == '-' || c == '>' || c == '<' {
            let mut count: usize = 1;
            while i + count < n && input.get_char(i + count) == c
                invariant
                    n == input@.len(),
                    i < n,
                    1 <= count,
                    i + count <= n,
                    forall|j: int| i <= j < i + count ==> input@[j] == c,
                decreases n - i - count,
            {
                count += 1;
            }
            let tok = if c == '+' {
                Token::Add(count)
            } else if c == '-' {
                Token::Sub(count)
            } else if c == '>' {
                Token::Right(count)
            } else {
                Token::Left(count)
            };
            proof {
                assert(forall|j: int| 0 <= j < count ==> rest[j] == c);
                lemma_run_len_exact(rest, c, count as int);
                assert(rest.skip(count as int) =~= input@.skip(i + count));
                assert(tok == run_token(c, count as nat));
                assert(tokens_of(rest) == seq![tok] + tokens_of(input@.skip(i + count)));
                assert(tokens@.push(tok) + tokens_of(input@.skip(i + count)) =~= tokens@
                    + tokens_of(rest));
            }
            tokens.push(tok);
            i += count;
        } else if c == ',' || c == '.' || c == '[' || c == ']' {
            let tok = if c == ',' {
                Token::Read
            } else if c == '.' {
                Token::Write
            } else if c == '[' {
                Token::BeginLoop
            } else {
                Token::EndLoop
            };
            proof {
                assert(rest.skip(1) =~= input@.skip(i + 1));
                assert(tok == plain_token(c));
                assert(tokens_of(rest) == seq![tok] + tokens_of(input@.skip(i + 1)));
                assert(tokens@.push(tok) + tokens_of(input@.skip(i + 1)) =~= tokens@
                    + tokens_of(rest));
            }
            tokens.push(tok);
            i += 1;
        } else {
            proof {
                assert(rest.skip(1) =~= input@.skip(i + 1));
                assert(tokens_of(rest) == tokens_of(input@.skip(i + 1)));
            }
            i += 1;
        }
    }
    proof {
        assert(tokens_of(input@.skip(n as int)) =~= Seq::<Token>::empty());
        assert(tokens@ + Seq::<Token>::empty() =~= tokens@);
    }
    tokens
}

} // verus!
