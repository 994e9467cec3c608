//! Character classes used by the token rewriting rules.

use vstd::prelude::*;

verus! {

/// Whitespace characters: space, tab, line feed, vertical tab, form feed,
/// carriage return.
pub open spec fn is_space_char(c: char) -> bool {
    c == ' ' || c == '\t' || c == '\n' || c == '\u{b}' || c == '\u{c}' || c == '\r'
}

/// ASCII punctuation characters.
pub open spec fn is_punct_char(c: char) -> bool {
    ('!' <= c && c <= '/') || (':' <= c && c <= '@') || ('[' <= c && c <= '`') || ('{' <= c
        && c <= '~')
}

/// A character that carries content: neither whitespace nor punctuation.
pub open spec fn is_word_char(c: char) -> bool {
    !is_space_char(c) && !is_punct_char(c)
}

/// A character that survives stripping: not a space and not a line break.
pub open spec fn kept_char(c: char) -> bool {
    c != ' ' && c != '\n'
}

/// `s` with every space and line-break character removed.
pub open spec fn strip_ws(s: Seq<char>) -> Seq<char>
    decreases s.len(),
{
    if s.len() == 0 {
        Seq::empty()
    } else if kept_char(s.last()) {
        strip_ws(s.drop_last()).push(s.last())
    } else {
        strip_ws(s.drop_last())
    }
}

/// Stripping one appended character keeps it exactly when it is neither a
/// space nor a line break.
pub proof fn lemma_strip_push(s: Seq<char>, c: char)
    ensures
        strip_ws(s.push(c)) == if kept_char(c) {
            strip_ws(s).push(c)
        } else {
            strip_ws(s)
        },
{
    assert(s.push(c).drop_last() =~= s);
}

/// Stripping distributes over concatenation.
pub proof fn lemma_strip_add(a: Seq<char>, b: Seq<char>)
    ensures
        strip_ws(a + b) == strip_ws(a) + strip_ws(b),
    decreases b.len(),
{
    if b.len() == 0 {
        assert(a + b =~= a);
        assert(strip_ws(a) + strip_ws(b) =~= strip_ws(a));
    } else {
        lemma_strip_add(a, b.drop_last());
        assert((a + b).drop_last() =~= a + b.drop_last());
        assert((a + b).last() == b.last());
        if kept_char(b.last()) {
            assert(strip_ws(a) + strip_ws(b.drop_last()).push(b.last()) =~= (strip_ws(a)
                + strip_ws(b.drop_last())).push(b.last()));
        }
    }
}

/// A single stripped character.
pub proof fn lemma_strip_single(c: char)
    ensures
        strip_ws(seq![c]) == if kept_char(c) {
            seq![c]
        } else {
            Seq::<char>::empty()
        },
{
    assert(strip_ws(Seq::<char>::empty()) =~= Seq::<char>::empty());
    assert(seq![c].drop_last() =~= Seq::<char>::empty());
    if kept_char(c) {
        assert(strip_ws(Seq::<char>::empty()).push(c) =~= seq![c]);
    }
}

/// Executable test for `is_space_char`.
pub fn space_char(c: char) -> (r: bool)
    ensures
        r == is_space_char(c),
{
    c == ' ' || c == '\t' || c == '\n' || c == '\u{b}' || c == '\u{c}' || c == '\r'
}

/// Executable test for `is_punct_char`.
pub fn punct_char(c: char) -> (r: bool)
    ensures
        r == is_punct_char(c),
{
    ('!' <= c && c <= '/') || (':' <= c && c <= '@') || ('[' <= c && c <= '`') || ('{' <= c
        && c <= '~')
}

/// Executable test for `is_word_char`.
pub fn word_char(c: char) -> (r: bool)
    ensures
        r == is_word_char(c),
{
    !space_char(c) && !punct_char(c)
}

} // verus!
