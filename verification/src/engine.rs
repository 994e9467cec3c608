//! The driver: runs every token through the nesting tracker, the
//! operator-spacing engine and the boundary rule, and assembles the output.

use vstd::prelude::*;
use crate::boundary::bounded;
use crate::boundary::lemma_tokens_deep_view;
use crate::boundary::word_space;
use crate::classify::comment;
use crate::classify::is_comment_tok;
use crate::classify::is_string_tok;
use crate::classify::quotations;
use crate::lexer::lemma_lex_total_len;
use crate::lexer::lemma_total_len_add;
use crate::lexer::lemma_total_len_nonneg;
use crate::lexer::lemma_total_len_push;
use crate::lexer::lex;
use crate::lexer::make_vec_string;
use crate::lexer::total_len;
use crate::nesting::brace_sum;
use crate::nesting::lemma_brace_sum_bounds;
use crate::nesting::tab_counting;
use crate::spacing::space_fix;
use crate::spacing::space_token;

verus! {

/// Nesting depth after one token: string literals are skipped, every other
/// token contributes its brace characters.
pub open spec fn token_depth(depth: int, word: Seq<char>) -> int {
    if is_string_tok(word) {
        depth
    } else {
        depth + brace_sum(word)
    }
}

/// The output for one token: a string literal passes through verbatim; a
/// comment gets only the boundary rule; a plain token is rewritten by the
/// operator-spacing engine and then gets the boundary rule. The depth used
/// already reflects the token's own braces.
pub open spec fn token_out(
    word: Seq<char>,
    depth: int,
    tab: int,
    toks: Seq<Seq<char>>,
    index: int,
) -> Seq<char> {
    if is_string_tok(word) {
        word
    } else if is_comment_tok(word) {
        bounded(word, token_depth(depth, word), tab, toks, index)
    } else {
        bounded(space_fix(word), token_depth(depth, word), tab, toks, index)
    }
}

/// Nesting depth after the first `i` tokens, starting from zero.
pub open spec fn run_depth(toks: Seq<Seq<char>>, i: int) -> int
    decreases i,
{
    if i <= 0 {
        0
    } else {
        token_depth(run_depth(toks, i - 1), toks[i - 1])
    }
}

/// Concatenated output of the first `i` tokens.
pub open spec fn run_out(toks: Seq<Seq<char>>, tab: int, i: int) -> Seq<char>
    decreases i,
{
    if i <= 0 {
        Seq::empty()
    } else {
        run_out(toks, tab, i - 1) + token_out(toks[i - 1], run_depth(toks, i - 1), tab, toks, i - 1)
    }
}

/// The whole transform: lex the text, process every token in order, and
/// concatenate the results.
pub open spec fn format_spec(input: Seq<char>, tab: int) -> Seq<char> {
    run_out(lex(input), tab, lex(input).len() as int)
}

/// The running depth is bounded by the characters seen so far.
pub proof fn lemma_run_depth_bound(toks: Seq<Seq<char>>, i: int)
    requires
        0 <= i <= toks.len(),
    ensures
        -total_len(toks.take(i)) <= run_depth(toks, i) <= total_len(toks.take(i)),
    decreases i,
{
    if i > 0 {
        lemma_run_depth_bound(toks, i - 1);
        assert(toks.take(i) =~= toks.take(i - 1).push(toks[i - 1]));
        lemma_total_len_push(toks.take(i - 1), toks[i - 1]);
        lemma_brace_sum_bounds(toks[i - 1]);
    }
}

/// Copies one token.
fn copy_tok(t: &Vec<char>) -> (r: Vec<char>)
    ensures
        r@ == t@,
{
    let mut r: Vec<char> = Vec::new();
    let mut i: usize = 0;
    while i < t.len()
        invariant
            0 <= i <= t@.len(),
            r@ == t@.take(i as int),
        decreases t@.len() - i,
    {
        r.push(t[i]);
        proof {
            assert(t@.take(i as int + 1) =~= t@.take(i as int).push(t@[i as int]));
        }
        i = i + 1;
    }
    proof {
        assert(t@.take(t@.len() as int) =~= t@);
    }
    r
}

/// Appends one token to the output.
fn append_tok(out: &mut Vec<char>, t: &Vec<char>)
    ensures
        final(out)@ == old(out)@ + t@,
{
    let mut i: usize = 0;
    while i < t.len()
        invariant
            0 <= i <= t@.len(),
            out@ == old(out)@ + t@.take(i as int),
        decreases t@.len() - i,
    {
        out.push(t[i]);
        proof {
            let ghost prev = old(out)@ + t@.take(i as int);
            assert(old(out)@ + t@.take(i as int + 1) =~= prev.push(t@[i as int]));
        }
        i = i + 1;
    }
    proof {
        assert(old(out)@ + t@.take(t@.len() as int) =~= old(out)@ + t@);
    }
}

/// Rewrites a text: tokens are separated by single spaces, operator runs in
/// plain tokens are spaced, and each line is indented by the brace-nesting
/// depth times `tab_width`.
pub fn format(file: Vec<char>, tab_width: u8) -> (r: Vec<char>)
    requires
        file@.len() <= i64::MAX,
        file@.len() * (tab_width as int) <= i64::MAX,
    ensures
        r@ == format_spec(file@, tab_width as int),
{
    let ghost inp = file@;
    let ghost flen = file@.len() as int;
    let vec = make_vec_string(file);
    let ghost toks = lex(inp);
    proof {
        lemma_tokens_deep_view(&vec);
        lemma_lex_total_len(inp);
    }
    let n = vec.len();
    let mut out: Vec<char> = Vec::new();
    let mut tab_count: i64 = 0;
    let mut index: usize = 0;
    while index < n
        invariant
            0 <= index <= n,
            n == toks.len(),
            vec.deep_view() == toks,
            vec@.len() == toks.len(),
            forall|j: int| 0 <= j < toks.len() ==> vec@[j]@ == toks[j],
            total_len(toks) <= flen,
            flen <= i64::MAX,
            flen * (tab_width as int) <= i64::MAX,
            flen >= 0,
            tab_count == run_depth(toks, index as int),
            out@ == run_out(toks, tab_width as int, index as int),
        decreases n - index,
    {
        let ghost ii = index as int;
        let ghost word0 = toks[ii];
        proof {
            lemma_run_depth_bound(toks, ii);
            lemma_run_depth_bound(toks, ii + 1);
            assert(toks.take(ii + 1) =~= toks.take(ii).push(toks[ii]));
            lemma_total_len_push(toks.take(ii), toks[ii]);
            assert(toks =~= toks.take(ii + 1) + toks.skip(ii + 1));
            lemma_total_len_add(toks.take(ii + 1), toks.skip(ii + 1));
            lemma_total_len_nonneg(toks.skip(ii + 1));
            lemma_total_len_nonneg(toks.take(ii));
        }
        if quotations(&vec, index) {
            append_tok(&mut out, &vec[index]);
        } else {
            let word = copy_tok(&vec[index]);
            tab_count = tab_counting(tab_count, &word);
            proof {
                assert(tab_count == run_depth(toks, ii + 1));
                assert(tab_count <= flen && -flen <= tab_count);
                assert(tab_count * (tab_width as int) <= flen * (tab_width as int))
                    by (nonlinear_arith)
                    requires
                        tab_count <= flen,
                        tab_width as int >= 0,
                ;
            }
            let is_c = comment(&vec, index);
            let word1 = if is_c {
                word
            } else {
                space_token(word)
            };
            let word2 = word_space(word1, tab_count, tab_width, &vec, index);
            proof {
                assert(word2@ == token_out(word0, run_depth(toks, ii), tab_width as int, toks, ii));
            }
            append_tok(&mut out, &word2);
        }
        index = index + 1;
    }
    out
}

} // verus!
