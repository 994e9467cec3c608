//! The lexer: splits raw text into an ordered sequence of tokens.
//!
//! String literals and comments are kept whole. Outside them, a space ends
//! the current token and is discarded, while a line break ends the token and
//! is kept as its final character. The final partial token (possibly empty)
//! is always emitted.

use vstd::prelude::*;

verus! {

/// The lexer's running state: finished tokens, the token being accumulated,
/// and which special region (string literal, line comment, block comment)
/// the scan is inside.
pub ghost struct LexState {
    pub done: Seq<Seq<char>>,
    pub temp: Seq<char>,
    pub in_quote: bool,
    pub in_line: bool,
    pub in_block: bool,
}

/// The state before any character has been read.
pub open spec fn lex_init() -> LexState {
    LexState {
        done: Seq::empty(),
        temp: Seq::empty(),
        in_quote: false,
        in_line: false,
        in_block: false,
    }
}

/// One step of the lexer on character `c`; `next_slash` and `next_star` say
/// whether the following character is `/` or `*` (both false at the end of
/// the input).
pub open spec fn lex_step(st: LexState, c: char, next_slash: bool, next_star: bool) -> LexState {
    if c == '"' && !st.in_line && !st.in_block {
        if !st.in_quote {
            LexState {
                done: st.done.push(st.temp),
                temp: seq!['"'],
                in_quote: true,
                in_line: st.in_line,
                in_block: st.in_block,
            }
        } else {
            LexState {
                done: st.done.push(st.temp.push('"')),
                temp: Seq::empty(),
                in_quote: false,
                in_line: st.in_line,
                in_block: st.in_block,
            }
        }
    } else if c == '/' && next_slash && !st.in_quote && !st.in_block && !st.in_line {
        LexState {
            done: if st.temp.len() > 0 {
                st.done.push(st.temp)
            } else {
                st.done
            },
            temp: seq!['/'],
            in_quote: st.in_quote,
            in_line: true,
            in_block: st.in_block,
        }
    } else if c == '/' && next_star && !st.in_quote && !st.in_line && !st.in_block {
        LexState {
            done: if st.temp.len() > 0 {
                st.done.push(st.temp)
            } else {
                st.done
            },
            temp: seq!['/'],
            in_quote: st.in_quote,
            in_line: st.in_line,
            in_block: true,
        }
    } else if c == '/' && st.in_block && st.temp.len() > 0 && st.temp.last() == '*' {
        LexState {
            done: st.done.push(st.temp.push('/')),
            temp: Seq::empty(),
            in_quote: st.in_quote,
            in_line: st.in_line,
            in_block: false,
        }
    } else if !st.in_quote && !st.in_block && !st.in_line {
        if c == ' ' && st.temp.len() > 0 {
            LexState {
                done: st.done.push(st.temp),
                temp: Seq::empty(),
                in_quote: st.in_quote,
                in_line: st.in_line,
                in_block: st.in_block,
            }
        } else if c == '\n' {
            LexState {
                done: st.done.push(st.temp.push('\n')),
                temp: Seq::empty(),
                in_quote: st.in_quote,
                in_line: st.in_line,
                in_block: st.in_block,
            }
        } else if c == ' ' {
            st
        } else {
            LexState {
                done: st.done,
                temp: st.temp.push(c),
                in_quote: st.in_quote,
                in_line: st.in_line,
                in_block: st.in_block,
            }
        }
    } else {
        if c == '\n' && st.in_line {
            LexState {
                done: st.done.push(st.temp.push('\n')),
                temp: Seq::empty(),
                in_quote: st.in_quote,
                in_line: false,
                in_block: st.in_block,
            }
        } else {
            LexState {
                done: st.done,
                temp: st.temp.push(c),
                in_quote: st.in_quote,
                in_line: st.in_line,
                in_block: st.in_block,
            }
        }
    }
}

/// The lexer's state after reading the first `i` characters of `input`.
pub open spec fn lex_state_at(input: Seq<char>, i: int) -> LexState
    decreases i,
{
    if i <= 0 {
        lex_init()
    } else {
        lex_step(
            lex_state_at(input, i - 1),
            input[i - 1],
            i < input.len() && input[i] == '/',
            i < input.len() && input[i] == '*',
        )
    }
}

/// The token sequence of `input`: every token finished during the scan, and
/// the final partial token (possibly empty).
pub open spec fn lex(input: Seq<char>) -> Seq<Seq<char>> {
    let st = lex_state_at(input, input.len() as int);
    st.done.push(st.temp)
}

/// Total number of characters over a sequence of tokens.
pub open spec fn total_len(toks: Seq<Seq<char>>) -> int
    decreases toks.len(),
{
    if toks.len() == 0 {
        0
    } else {
        total_len(toks.drop_last()) + toks.last().len()
    }
}

/// Appending one token adds its length to the total.
pub proof fn lemma_total_len_push(toks: Seq<Seq<char>>, t: Seq<char>)
    ensures
        total_len(toks.push(t)) == total_len(toks) + t.len(),
{
    assert(toks.push(t).drop_last() =~= toks);
    assert(toks.push(t).last() == t);
}

/// A total length is never negative.
pub proof fn lemma_total_len_nonneg(toks: Seq<Seq<char>>)
    ensures
        total_len(toks) >= 0,
    decreases toks.len(),
{
    if toks.len() > 0 {
        lemma_total_len_nonneg(toks.drop_last());
    }
}

/// Total lengths add over concatenation.
pub proof fn lemma_total_len_add(a: Seq<Seq<char>>, b: Seq<Seq<char>>)
    ensures
        total_len(a + b) == total_len(a) + total_len(b),
    decreases b.len(),
{
    if b.len() == 0 {
        assert(a + b =~= a);
    } else {
        lemma_total_len_add(a, b.drop_last());
        assert((a + b).drop_last() =~= a + b.drop_last());
    }
}

/// After `i` characters, the lexer holds at most `i` characters across its
/// finished tokens and its partial token.
proof fn lemma_lex_state_size(input: Seq<char>, i: int)
    requires
        0 <= i <= input.len(),
    ensures
        total_len(lex_state_at(input, i).done) + lex_state_at(input, i).temp.len() <= i,
    decreases i,
{
    if i > 0 {
        lemma_lex_state_size(input, i - 1);
        let st = lex_state_at(input, i - 1);
        lemma_total_len_push(st.done, st.temp);
        lemma_total_len_push(st.done, st.temp.push('"'));
        lemma_total_len_push(st.done, st.temp.push('/'));
        lemma_total_len_push(st.done, st.temp.push('\n'));
    }
}

/// The tokens of a text hold no more characters than the text itself.
pub proof fn lemma_lex_total_len(input: Seq<char>)
    ensures
        total_len(lex(input)) <= input.len(),
{
    lemma_lex_state_size(input, input.len() as int);
    let st = lex_state_at(input, input.len() as int);
    lemma_total_len_push(st.done, st.temp);
}

/// Concatenation of a sequence of tokens, in order.
pub open spec fn concat_toks(toks: Seq<Seq<char>>) -> Seq<char>
    decreases toks.len(),
{
    if toks.len() == 0 {
        Seq::empty()
    } else {
        concat_toks(toks.drop_last()) + toks.last()
    }
}

/// Appending a token appends its characters to the concatenation.
pub proof fn lemma_concat_push(toks: Seq<Seq<char>>, t: Seq<char>)
    ensures
        concat_toks(toks.push(t)) == concat_toks(toks) + t,
{
    assert(toks.push(t).drop_last() =~= toks);
    assert(toks.push(t).last() == t);
}

/// While scanning, the characters held by the lexer are the characters read
/// so far, up to discarded boundary spaces.
proof fn lemma_lex_state_strip(input: Seq<char>, i: int)
    requires
        0 <= i <= input.len(),
    ensures
        crate::chars::strip_ws(
            concat_toks(lex_state_at(input, i).done) + lex_state_at(input, i).temp,
        ) == crate::chars::strip_ws(input.take(i)),
    decreases i,
{
    if i <= 0 {
        let empty = Seq::<char>::empty();
        assert(input.take(0) =~= empty);
        assert(concat_toks(lex_state_at(input, 0).done) + lex_state_at(input, 0).temp =~= empty);
    } else {
        lemma_lex_state_strip(input, i - 1);
        let st = lex_state_at(input, i - 1);
        let st2 = lex_state_at(input, i);
        let c = input[i - 1];
        let content = concat_toks(st.done) + st.temp;
        let content2 = concat_toks(st2.done) + st2.temp;
        lemma_concat_push(st.done, st.temp);
        lemma_concat_push(st.done, st.temp.push('"'));
        lemma_concat_push(st.done, st.temp.push('/'));
        lemma_concat_push(st.done, st.temp.push('\n'));
        crate::chars::lemma_strip_push(content, c);
        crate::chars::lemma_strip_push(input.take(i - 1), c);
        assert(input.take(i) =~= input.take(i - 1).push(c));
        if c == ' ' && !st.in_quote && !st.in_block && !st.in_line {
            assert(content2 =~= content);
        } else {
            assert(content2 =~= content.push(c));
        }
    }
}

/// Content preservation of the lexer: concatenating all tokens gives back
/// the input, up to discarded boundary spaces.
pub proof fn lemma_lex_strip(input: Seq<char>)
    ensures
        crate::chars::strip_ws(concat_toks(lex(input))) == crate::chars::strip_ws(input),
{
    lemma_lex_state_strip(input, input.len() as int);
    let st = lex_state_at(input, input.len() as int);
    lemma_concat_push(st.done, st.temp);
    assert(input.take(input.len() as int) =~= input);
}

/// Splits a text into its tokens, as `lex` describes.
pub fn make_vec_string(file: Vec<char>) -> (r: Vec<Vec<char>>)
    ensures
        r.deep_view() == lex(file@),
{
    let n = file.len();
    let mut done: Vec<Vec<char>> = Vec::new();
    let mut temp: Vec<char> = Vec::new();
    let mut in_quote = false;
    let mut in_line = false;
    let mut in_block = false;
    let mut i: usize = 0;
    while i < n
        invariant
            0 <= i <= n,
            n == file@.len(),
            done@.len() == lex_state_at(file@, i as int).done.len(),
            forall|j: int|
                0 <= j < done@.len() ==> done@[j]@ == lex_state_at(file@, i as int).done[j],
            temp@ == lex_state_at(file@, i as int).temp,
            in_quote == lex_state_at(file@, i as int).in_quote,
            in_line == lex_state_at(file@, i as int).in_line,
            in_block == lex_state_at(file@, i as int).in_block,
        decreases n - i,
    {
        let ghost st_i = lex_state_at(file@, i as int);
        let ghost st_n = lex_state_at(file@, i as int + 1);
        let c = file[i];
        let next_slash = i + 1 < n && file[i + 1] == '/';
        let next_star = i + 1 < n && file[i + 1] == '*';
        proof {
            assert(st_n == lex_step(st_i, file@[i as int], next_slash, next_star));
        }
        if c == '"' && !in_line && !in_block {
            if !in_quote {
                done.push(temp);
                temp = Vec::new();
                temp.push('"');
                in_quote = true;
                proof {
                    assert(temp@ =~= seq!['"']);
                }
            } else {
                temp.push('"');
                done.push(temp);
                temp = Vec::new();
                in_quote = false;
            }
        } else if c == '/' && next_slash && !in_quote && !in_block && !in_line {
            if temp.len() > 0 {
                done.push(temp);
                temp = Vec::new();
            }
            temp.push('/');
            in_line = true;
            proof {
                assert(temp@ =~= seq!['/']);
            }
        } else if c == '/' && next_star && !in_quote && !in_line && !in_block {
            if temp.len() > 0 {
                done.push(temp);
                temp = Vec::new();
            }
            temp.push('/');
            in_block = true;
            proof {
                assert(temp@ =~= seq!['/']);
            }
        } else if c == '/' && in_block && temp.len() > 0 && temp[temp.len() - 1] == '*' {
            temp.push('/');
            done.push(temp);
            temp = Vec::new();
            in_block = false;
        } else if !in_quote && !in_block && !in_line {
            if c == ' ' && temp.len() > 0 {
                done.push(temp);
                temp = Vec::new();
            } else if c == '\n' {
                temp.push('\n');
                done.push(temp);
                temp = Vec::new();
            } else if c != ' ' {
                temp.push(c);
            }
        } else {
            if c == '\n' && in_line {
                temp.push('\n');
                done.push(temp);
                temp = Vec::new();
                in_line = false;
            } else {
                temp.push(c);
            }
        }
        i = i + 1;
    }
    done.push(temp);
    proof {
        crate::boundary::lemma_tokens_deep_view(&done);
        assert(done.deep_view() =~= lex(file@));
    }
    done
}

} // verus!
