//! Laws of the transform: content preservation, string and comment
//! passthrough, and nesting balance.

use vstd::prelude::*;
use crate::boundary::bounded;
use crate::boundary::spaces;
use crate::chars::kept_char;
use crate::chars::lemma_strip_add;
use crate::chars::lemma_strip_single;
use crate::chars::strip_ws;
use crate::classify::is_comment_tok;
use crate::classify::is_string_tok;
use crate::engine::format_spec;
use crate::engine::run_depth;
use crate::engine::run_out;
use crate::engine::token_out;
use crate::lexer::concat_toks;
use crate::lexer::lemma_concat_push;
use crate::lexer::lemma_lex_strip;
use crate::lexer::lex;
use crate::nesting::brace_delta;
use crate::nesting::brace_sum;
use crate::spacing::find_match;
use crate::spacing::first_pattern;
use crate::spacing::has_match;
use crate::spacing::lemma_find_match_props;
use crate::spacing::lemma_spacing_step_terminates;
use crate::spacing::pair_count;
use crate::spacing::space_fix;
use crate::spacing::step;

verus! {

/// A run of spaces strips to nothing.
proof fn lemma_strip_spaces(n: int)
    ensures
        strip_ws(spaces(n)) == Seq::<char>::empty(),
    decreases n,
{
    if n <= 0 {
        assert(spaces(n) =~= Seq::<char>::empty());
    } else {
        lemma_strip_spaces(n - 1);
        assert(spaces(n).drop_last() =~= spaces(n - 1));
        assert(spaces(n).last() == ' ');
    }
}

/// Inserting a space character does not change the stripped content.
proof fn lemma_strip_insert(t: Seq<char>, j: int)
    requires
        0 <= j <= t.len(),
    ensures
        strip_ws(t.insert(j, ' ')) == strip_ws(t),
{
    let a = t.take(j);
    let b = t.skip(j);
    let m = seq![' '];
    assert(t =~= a + b);
    assert(t.insert(j, ' ') =~= (a + m) + b);
    lemma_strip_add(a, b);
    lemma_strip_add(a, m);
    lemma_strip_add(a + m, b);
    lemma_strip_single(' ');
    assert(strip_ws(a) + Seq::<char>::empty() =~= strip_ws(a));
}

/// The operator-spacing engine only inserts spaces: the stripped content of
/// a token is unchanged by the whole fixpoint.
proof fn lemma_strip_space_fix(t: Seq<char>)
    ensures
        strip_ws(space_fix(t)) == strip_ws(t),
    decreases pair_count(t),
{
    if has_match(t) {
        lemma_spacing_step_terminates(t);
        let k = first_pattern(t);
        let i = find_match(t, k, 0);
        lemma_find_match_props(t, k, 0);
        if k == 0 {
            lemma_strip_insert(t, i + 2);
        } else if k == 1 {
            lemma_strip_insert(t, i + 3);
            lemma_strip_insert(t.insert(i + 3, ' '), i + 1);
        } else if k == 2 {
            lemma_strip_insert(t, i + 2);
        } else if k == 3 {
            lemma_strip_insert(t, i + 2);
            lemma_strip_insert(t.insert(i + 2, ' '), i + 1);
        } else {
            lemma_strip_insert(t, i + 1);
        }
        lemma_strip_space_fix(step(t));
    }
}

/// The boundary rule only appends spaces: stripped content is unchanged.
proof fn lemma_strip_bounded(
    word: Seq<char>,
    tab_count: int,
    tab_spacing: int,
    toks: Seq<Seq<char>>,
    index: int,
)
    ensures
        strip_ws(bounded(word, tab_count, tab_spacing, toks, index)) == strip_ws(word),
{
    let r = bounded(word, tab_count, tab_spacing, toks, index);
    if word.len() == 0 {
    } else if word.last() == '\n' {
        let w = crate::boundary::indent_width(tab_count, tab_spacing, toks, index);
        lemma_strip_add(word, spaces(w));
        lemma_strip_spaces(w);
        assert(strip_ws(word) + Seq::<char>::empty() =~= strip_ws(word));
    } else if word.last() != ' ' && !crate::boundary::next_is_string(toks, index) {
        lemma_strip_add(word, seq![' ']);
        lemma_strip_single(' ');
        assert(strip_ws(word) + Seq::<char>::empty() =~= strip_ws(word));
    }
}

/// Processing one token preserves its stripped content.
proof fn lemma_strip_token_out(
    word: Seq<char>,
    depth: int,
    tab: int,
    toks: Seq<Seq<char>>,
    index: int,
)
    ensures
        strip_ws(token_out(word, depth, tab, toks, index)) == strip_ws(word),
{
    if is_string_tok(word) {
    } else if is_comment_tok(word) {
        lemma_strip_bounded(word, crate::engine::token_depth(depth, word), tab, toks, index);
    } else {
        lemma_strip_space_fix(word);
        lemma_strip_bounded(
            space_fix(word),
            crate::engine::token_depth(depth, word),
            tab,
            toks,
            index,
        );
    }
}

/// The assembled output of the first `i` tokens strips to the stripped
/// concatenation of those tokens.
proof fn lemma_strip_run_out(toks: Seq<Seq<char>>, tab: int, i: int)
    requires
        0 <= i <= toks.len(),
    ensures
        strip_ws(run_out(toks, tab, i)) == strip_ws(concat_toks(toks.take(i))),
    decreases i,
{
    if i <= 0 {
        assert(toks.take(0) =~= Seq::<Seq<char>>::empty());
    } else {
        lemma_strip_run_out(toks, tab, i - 1);
        let prev = run_out(toks, tab, i - 1);
        let piece = token_out(toks[i - 1], run_depth(toks, i - 1), tab, toks, i - 1);
        lemma_strip_add(prev, piece);
        lemma_strip_token_out(toks[i - 1], run_depth(toks, i - 1), tab, toks, i - 1);
        assert(toks.take(i) =~= toks.take(i - 1).push(toks[i - 1]));
        lemma_concat_push(toks.take(i - 1), toks[i - 1]);
        lemma_strip_add(concat_toks(toks.take(i - 1)), toks[i - 1]);
    }
}

/// Content preservation: removing all space and line-break characters from
/// the transformed output yields the same character sequence as removing
/// them from the input. The transform inserts only space characters and
/// never adds, removes, or reorders other characters.
pub proof fn lemma_content_preservation(input: Seq<char>, tab: int)
    ensures
        strip_ws(format_spec(input, tab)) == strip_ws(input),
{
    let toks = lex(input);
    lemma_strip_run_out(toks, tab, toks.len() as int);
    assert(toks.take(toks.len() as int) =~= toks);
    lemma_lex_strip(input);
}

/// String passthrough: a token whose first character is a quote mark is
/// emitted verbatim, spacing and indentation untouched.
pub proof fn lemma_string_passthrough(
    word: Seq<char>,
    depth: int,
    tab: int,
    toks: Seq<Seq<char>>,
    index: int,
)
    requires
        is_string_tok(word),
    ensures
        token_out(word, depth, tab, toks, index) == word,
{
}

/// Comment passthrough: the text of a line or block comment is never
/// touched by the operator-spacing engine; the emitted token starts with the
/// comment verbatim and is followed only by appended space characters.
pub proof fn lemma_comment_passthrough(
    word: Seq<char>,
    depth: int,
    tab: int,
    toks: Seq<Seq<char>>,
    index: int,
)
    requires
        is_comment_tok(word),
    ensures
        token_out(word, depth, tab, toks, index).take(word.len() as int) == word,
        forall|i: int|
            word.len() <= i < token_out(word, depth, tab, toks, index).len()
                ==> token_out(word, depth, tab, toks, index)[i] == ' ',
{
    let r = token_out(word, depth, tab, toks, index);
    assert(r == bounded(word, crate::engine::token_depth(depth, word), tab, toks, index));
    assert(r.take(word.len() as int) =~= word);
}

/// A plain token (neither string literal nor comment) is rewritten by the
/// operator-spacing engine before the boundary rule is applied.
pub proof fn lemma_plain_token_spaced(
    word: Seq<char>,
    depth: int,
    tab: int,
    toks: Seq<Seq<char>>,
    index: int,
)
    requires
        crate::classify::is_plain_tok(word),
    ensures
        token_out(word, depth, tab, toks, index) == bounded(
            space_fix(word),
            crate::engine::token_depth(depth, word),
            tab,
            toks,
            index,
        ),
{
}

/// The brace sum adds over concatenation.
proof fn lemma_brace_sum_add(a: Seq<char>, b: Seq<char>)
    ensures
        brace_sum(a + b) == brace_sum(a) + brace_sum(b),
    decreases b.len(),
{
    if b.len() == 0 {
        assert(a + b =~= a);
    } else {
        lemma_brace_sum_add(a, b.drop_last());
        assert((a + b).drop_last() =~= a + b.drop_last());
        assert((a + b).last() == b.last());
    }
}

/// Spaces and line breaks carry no braces: stripping preserves the brace sum.
proof fn lemma_brace_sum_strip(s: Seq<char>)
    ensures
        brace_sum(strip_ws(s)) == brace_sum(s),
    decreases s.len(),
{
    if s.len() > 0 {
        lemma_brace_sum_strip(s.drop_last());
        if kept_char(s.last()) {
            assert(strip_ws(s.drop_last()).push(s.last()).drop_last() =~= strip_ws(s.drop_last()));
        } else {
            assert(brace_delta(s.last()) == 0);
        }
    }
}

/// Over tokens that are not string literals, the running depth is the brace
/// sum of their concatenation.
proof fn lemma_run_depth_concat(toks: Seq<Seq<char>>, i: int)
    requires
        0 <= i <= toks.len(),
        forall|j: int| 0 <= j < i ==> !is_string_tok(#[trigger] toks[j]),
    ensures
        run_depth(toks, i) == brace_sum(concat_toks(toks.take(i))),
    decreases i,
{
    if i <= 0 {
        assert(toks.take(0) =~= Seq::<Seq<char>>::empty());
    } else {
        lemma_run_depth_concat(toks, i - 1);
        assert(toks.take(i) =~= toks.take(i - 1).push(toks[i - 1]));
        lemma_concat_push(toks.take(i - 1), toks[i - 1]);
        lemma_brace_sum_add(concat_toks(toks.take(i - 1)), toks[i - 1]);
    }
}

/// Nesting balance: for a text whose opening and closing brace counts are
/// equal and whose braces all stand outside string literals, the nesting
/// counter returns to zero after the full scan.
pub proof fn lemma_nesting_balance(input: Seq<char>)
    requires
        brace_sum(input) == 0,
        forall|j: int| 0 <= j < lex(input).len() ==> !is_string_tok(#[trigger] lex(input)[j]),
    ensures
        run_depth(lex(input), lex(input).len() as int) == 0,
{
    let toks = lex(input);
    lemma_run_depth_concat(toks, toks.len() as int);
    assert(toks.take(toks.len() as int) =~= toks);
    lemma_lex_strip(input);
    lemma_brace_sum_strip(concat_toks(toks));
    lemma_brace_sum_strip(input);
}

} // verus!
