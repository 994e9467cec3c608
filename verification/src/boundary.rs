//! Boundary and indentation rules: one separating space between tokens, or
//! an indentation run after a token that ends a line.

use vstd::prelude::*;
use crate::classify::is_string_tok;

verus! {

/// `n` space characters (none when `n` is not positive).
pub open spec fn spaces(n: int) -> Seq<char> {
    Seq::new(
        if n > 0 {
            n as nat
        } else {
            0nat
        },
        |i: int| ' ',
    )
}

/// Whether the token after `index` opens with a closing brace.
pub open spec fn next_closes(toks: Seq<Seq<char>>, index: int) -> bool {
    index + 1 < toks.len() && toks[index + 1].len() > 0 && toks[index + 1][0] == '}'
}

/// Whether the token after `index` is a string-literal token.
pub open spec fn next_is_string(toks: Seq<Seq<char>>, index: int) -> bool {
    index + 1 < toks.len() && is_string_tok(toks[index + 1])
}

/// Width of the indentation run after the token at `index`: the nesting
/// depth times the tab width, with the depth reduced by one when the next
/// token opens with a closing brace.
pub open spec fn indent_width(
    tab_count: int,
    tab_spacing: int,
    toks: Seq<Seq<char>>,
    index: int,
) -> int {
    if next_closes(toks, index) {
        (tab_count - 1) * tab_spacing
    } else {
        tab_count * tab_spacing
    }
}

/// A token that ends a line, followed by its indentation run.
pub open spec fn indented(
    tab_count: int,
    tab_spacing: int,
    word: Seq<char>,
    toks: Seq<Seq<char>>,
    index: int,
) -> Seq<char> {
    word + spaces(indent_width(tab_count, tab_spacing, toks, index))
}

/// The boundary rule for the token at `index`: an indentation run after a
/// line break, one separating space after other content, no space before a
/// string-literal token, and an empty token left empty.
pub open spec fn bounded(
    word: Seq<char>,
    tab_count: int,
    tab_spacing: int,
    toks: Seq<Seq<char>>,
    index: int,
) -> Seq<char> {
    if word.len() == 0 {
        word
    } else if word.last() == '\n' {
        indented(tab_count, tab_spacing, word, toks, index)
    } else if word.last() != ' ' && !next_is_string(toks, index) {
        word + seq![' ']
    } else {
        word
    }
}

/// The view of a token list, token by token.
pub proof fn lemma_tokens_deep_view(vec: &Vec<Vec<char>>)
    ensures
        vec.deep_view().len() == vec@.len(),
        forall|i: int| 0 <= i < vec@.len() ==> vec.deep_view()[i] == vec@[i]@,
{
    assert forall|i: int| 0 <= i < vec@.len() implies vec.deep_view()[i] == vec@[i]@ by {
        assert(vec@[i].deep_view() =~= vec@[i]@);
    }
}

/// Appends the indentation run for the current nesting depth to a token that
/// ends a line.
pub fn tab_indent(
    tab_count: i64,
    tab_spacing: u8,
    word: Vec<char>,
    vec: &Vec<Vec<char>>,
    index: usize,
) -> (r: Vec<char>)
    requires
        index < vec@.len(),
        tab_count > i64::MIN,
        tab_count * (tab_spacing as int) <= i64::MAX,
    ensures
        r@ == indented(tab_count as int, tab_spacing as int, word@, vec.deep_view(), index as int),
{
    proof {
        lemma_tokens_deep_view(vec);
    }
    let mut w = word;
    let vlen = vec.len();
    let next_close = index + 1 < vlen && vec[index + 1].len() > 0 && vec[index + 1][0] == '}';
    let d: i64 = if next_close {
        tab_count - 1
    } else {
        tab_count
    };
    let ghost width = indent_width(
        tab_count as int,
        tab_spacing as int,
        vec.deep_view(),
        index as int,
    );
    proof {
        assert(width == d * (tab_spacing as int));
    }
    if d <= 0 || tab_spacing == 0 {
        proof {
            assert(d * (tab_spacing as int) <= 0) by (nonlinear_arith)
                requires
                    d <= 0 || tab_spacing as int == 0,
                    tab_spacing as int >= 0,
            ;
            assert(w@ =~= w@ + spaces(width));
        }
        return w;
    }
    proof {
        assert(d * (tab_spacing as int) <= tab_count * (tab_spacing as int) && d * (
        tab_spacing as int) >= 0) by (nonlinear_arith)
            requires
                0 < d <= tab_count,
                tab_spacing as int >= 0,
        ;
    }
    let n: i64 = d * (tab_spacing as i64);
    let mut j: i64 = 0;
    while j < n
        invariant
            0 <= j <= n,
            n == d * (tab_spacing as int),
            w@ == word@ + spaces(j as int),
        decreases n - j,
    {
        w.push(' ');
        proof {
            assert(word@ + spaces(j as int + 1) =~= (word@ + spaces(j as int)).push(' '));
        }
        j = j + 1;
    }
    proof {
        assert(w@ == word@ + spaces(width));
    }
    w
}

/// Applies the boundary rule to the token at `index`: indentation after a
/// final line break, otherwise one separating space unless the next token is
/// a string literal.
pub fn word_space(
    word: Vec<char>,
    tab_count: i64,
    tab_spacing: u8,
    vec: &Vec<Vec<char>>,
    index: usize,
) -> (r: Vec<char>)
    requires
        index < vec@.len(),
        tab_count > i64::MIN,
        tab_count * (tab_spacing as int) <= i64::MAX,
    ensures
        r@ == bounded(word@, tab_count as int, tab_spacing as int, vec.deep_view(), index as int),
{
    proof {
        lemma_tokens_deep_view(vec);
    }
    if word.len() == 0 {
        return word;
    }
    let last = word[word.len() - 1];
    if last == '\n' {
        tab_indent(tab_count, tab_spacing, word, vec, index)
    } else if last != ' ' {
        let vlen = vec.len();
        let next_string = index + 1 < vlen && vec[index + 1].len() > 0 && vec[index + 1][0] == '"';
        if next_string {
            word
        } else {
            let mut w = word;
            let ghost w0 = w@;
            w.push(' ');
            proof {
                assert(w@ =~= w0 + seq![' ']);
            }
            w
        }
    } else {
        word
    }
}

} // verus!
