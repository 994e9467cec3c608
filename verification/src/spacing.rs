//! Operator-spacing engine for plain tokens.
//!
//! Five patterns are tried in a fixed priority order; the first pattern that
//! matches anywhere in the token is rewritten at its leftmost match by
//! inserting single space characters, and the token is retested until no
//! pattern matches.

use vstd::prelude::*;
use crate::chars::is_space_char;
use crate::chars::is_word_char;
use crate::chars::word_char;

verus! {

/// Characters that may precede `=` in a two-character operator.
pub open spec fn op_eq_char(c: char) -> bool {
    c == '=' || c == '+' || c == '-' || c == '>' || c == '<' || c == '!'
}

/// Single-character operators that are spaced when flanked by content.
pub open spec fn op_single_char(c: char) -> bool {
    c == '=' || c == '+' || c == '-'
}

/// Sign characters that form increment/decrement-style runs.
pub open spec fn op_sign_char(c: char) -> bool {
    c == '+' || c == '-'
}

/// Whether pattern `k` (0 through 4, in priority order) matches token `t` at
/// position `i`:
/// 0. a two-sign run followed by a word character;
/// 1. a word character, a two-character operator ending in `=`, a word character;
/// 2. a two-character operator ending in `=`, then a word character;
/// 3. a word character, a single-character operator, a word character;
/// 4. a single-character operator followed by a word character.
pub open spec fn match_at(t: Seq<char>, k: int, i: int) -> bool {
    if k == 0 {
        &&& 0 <= i
        &&& i + 2 < t.len()
        &&& op_sign_char(t[i])
        &&& op_sign_char(t[i + 1])
        &&& is_word_char(t[i + 2])
    } else if k == 1 {
        &&& 0 <= i
        &&& i + 3 < t.len()
        &&& is_word_char(t[i])
        &&& op_eq_char(t[i + 1])
        &&& t[i + 2] == '='
        &&& is_word_char(t[i + 3])
    } else if k == 2 {
        &&& 0 <= i
        &&& i + 2 < t.len()
        &&& op_eq_char(t[i])
        &&& t[i + 1] == '='
        &&& is_word_char(t[i + 2])
    } else if k == 3 {
        &&& 0 <= i
        &&& i + 2 < t.len()
        &&& is_word_char(t[i])
        &&& op_single_char(t[i + 1])
        &&& is_word_char(t[i + 2])
    } else if k == 4 {
        &&& 0 <= i
        &&& i + 1 < t.len()
        &&& op_single_char(t[i])
        &&& is_word_char(t[i + 1])
    } else {
        false
    }
}

/// Position of the leftmost match of pattern `k` at or after `i`, or the
/// token's length if there is none.
pub open spec fn find_match(t: Seq<char>, k: int, i: int) -> int
    decreases t.len() - i,
{
    if i >= t.len() {
        t.len() as int
    } else if match_at(t, k, i) {
        i
    } else {
        find_match(t, k, i + 1)
    }
}

/// Whether pattern `k` matches anywhere in `t`.
pub open spec fn pattern_found(t: Seq<char>, k: int) -> bool {
    find_match(t, k, 0) < t.len()
}

/// Index of the first pattern in priority order that matches `t`, or 5 if
/// none does.
pub open spec fn first_pattern(t: Seq<char>) -> int {
    if pattern_found(t, 0) {
        0
    } else if pattern_found(t, 1) {
        1
    } else if pattern_found(t, 2) {
        2
    } else if pattern_found(t, 3) {
        3
    } else if pattern_found(t, 4) {
        4
    } else {
        5
    }
}

/// The rewrite of pattern `k` matched at `i`: one space after a run or
/// operator, and for the flanked patterns one space on each side.
pub open spec fn rewrite_at(t: Seq<char>, k: int, i: int) -> Seq<char> {
    if k == 0 {
        t.insert(i + 2, ' ')
    } else if k == 1 {
        t.insert(i + 3, ' ').insert(i + 1, ' ')
    } else if k == 2 {
        t.insert(i + 2, ' ')
    } else if k == 3 {
        t.insert(i + 2, ' ').insert(i + 1, ' ')
    } else {
        t.insert(i + 1, ' ')
    }
}

/// Whether any pattern matches `t`.
pub open spec fn has_match(t: Seq<char>) -> bool {
    first_pattern(t) != 5
}

/// One iteration of the engine: the first matching pattern, rewritten at its
/// leftmost match; `t` itself when no pattern matches.
pub open spec fn step(t: Seq<char>) -> Seq<char> {
    let k = first_pattern(t);
    if k == 5 {
        t
    } else {
        rewrite_at(t, k, find_match(t, k, 0))
    }
}

/// Number of positions where two adjacent characters are both non-space.
pub open spec fn pair_count(t: Seq<char>) -> nat
    decreases t.len(),
{
    if t.len() < 2 {
        0
    } else {
        pair_count(t.drop_last()) + (if !is_space_char(t[t.len() - 2]) && !is_space_char(
            t.last(),
        ) {
            1nat
        } else {
            0nat
        })
    }
}

/// The adjacent non-space pair crossing the boundary between `a` and `b`, if
/// both are non-empty and the characters facing each other are non-space.
pub open spec fn pair_boundary(a: Seq<char>, b: Seq<char>) -> nat {
    if a.len() > 0 && b.len() > 0 && !is_space_char(a.last()) && !is_space_char(b[0]) {
        1nat
    } else {
        0nat
    }
}

/// Adjacent non-space pairs of a concatenation: those of each part, plus the
/// pair at the boundary.
pub proof fn lemma_pair_count_add(a: Seq<char>, b: Seq<char>)
    ensures
        pair_count(a + b) == pair_count(a) + pair_count(b) + pair_boundary(a, b),
    decreases b.len(),
{
    if b.len() == 0 {
        assert(a + b =~= a);
    } else if b.len() == 1 {
        if a.len() == 0 {
            assert(a + b =~= b);
        } else {
            assert((a + b).drop_last() =~= a);
            assert((a + b).last() == b[0]);
            assert((a + b)[a.len() as int - 1] == a.last());
        }
    } else {
        lemma_pair_count_add(a, b.drop_last());
        assert((a + b).drop_last() =~= a + b.drop_last());
        assert((a + b).last() == b.last());
        assert((a + b)[(a + b).len() - 2] == b[b.len() - 2]);
        assert((a + b.drop_last())[0] == if a.len() > 0 {
            a[0]
        } else {
            b[0]
        });
    }
}

/// Inserting a space between two adjacent non-space characters removes
/// exactly one adjacent non-space pair.
pub proof fn lemma_insert_space_pair_count(t: Seq<char>, j: int)
    requires
        1 <= j < t.len(),
        !is_space_char(t[j - 1]),
        !is_space_char(t[j]),
    ensures
        pair_count(t.insert(j, ' ')) + 1 == pair_count(t),
{
    let a = t.take(j);
    let b = t.skip(j);
    let m = seq![' '];
    assert(t =~= a + b);
    lemma_pair_count_add(a, b);
    assert(a.last() == t[j - 1]);
    assert(b[0] == t[j]);
    assert(t.insert(j, ' ') =~= (a + m) + b);
    lemma_pair_count_add(a, m);
    lemma_pair_count_add(a + m, b);
    assert((a + m).last() == ' ');
}

/// A token of length `n` has at most `n` adjacent non-space pairs.
pub proof fn lemma_pair_count_le_len(t: Seq<char>)
    ensures
        pair_count(t) <= t.len(),
    decreases t.len(),
{
    if t.len() >= 2 {
        lemma_pair_count_le_len(t.drop_last());
    }
}

/// The leftmost match at or after `i` is a match, lies at or after `i`, and
/// nothing before it matches.
pub proof fn lemma_find_match_props(t: Seq<char>, k: int, i: int)
    requires
        0 <= i <= t.len(),
    ensures
        i <= find_match(t, k, i) <= t.len(),
        find_match(t, k, i) < t.len() ==> match_at(t, k, find_match(t, k, i)),
        forall|j: int| i <= j < find_match(t, k, i) ==> !match_at(t, k, j),
    decreases t.len() - i,
{
    if i < t.len() && !match_at(t, k, i) {
        lemma_find_match_props(t, k, i + 1);
    }
}

/// Searching from the start agrees with searching from `i` when nothing
/// before `i` matches.
pub proof fn lemma_find_match_from(t: Seq<char>, k: int, i: int)
    requires
        0 <= i <= t.len(),
        forall|j: int| 0 <= j < i ==> !match_at(t, k, j),
    ensures
        find_match(t, k, 0) == find_match(t, k, i),
    decreases i,
{
    if i > 0 {
        lemma_find_match_from(t, k, i - 1);
        assert(find_match(t, k, i - 1) == find_match(t, k, i));
    }
}

/// Fixpoint termination: every successful rewrite strictly shrinks the count
/// of adjacent non-space pairs, which never exceeds the token's length, so
/// the engine reaches a fixpoint within that many iterations.
pub proof fn lemma_spacing_step_terminates(t: Seq<char>)
    requires
        has_match(t),
    ensures
        pair_count(step(t)) < pair_count(t),
        pair_count(t) <= t.len(),
{
    lemma_pair_count_le_len(t);
    let k = first_pattern(t);
    let i = find_match(t, k, 0);
    lemma_find_match_props(t, k, 0);
    assert(match_at(t, k, i));
    if k == 0 {
        lemma_insert_space_pair_count(t, i + 2);
    } else if k == 1 {
        lemma_insert_space_pair_count(t, i + 3);
        let u = t.insert(i + 3, ' ');
        assert(u[i] == t[i]);
        assert(u[i + 1] == t[i + 1]);
        lemma_insert_space_pair_count(u, i + 1);
    } else if k == 2 {
        lemma_insert_space_pair_count(t, i + 2);
    } else if k == 3 {
        lemma_insert_space_pair_count(t, i + 2);
        let u = t.insert(i + 2, ' ');
        assert(u[i] == t[i]);
        assert(u[i + 1] == t[i + 1]);
        lemma_insert_space_pair_count(u, i + 1);
    } else {
        lemma_insert_space_pair_count(t, i + 1);
    }
}

/// The operator-spacing fixpoint: `step` applied until no pattern matches.
pub open spec fn space_fix(t: Seq<char>) -> Seq<char>
    decreases pair_count(t),
    via space_fix_decreases
{
    if has_match(t) {
        space_fix(step(t))
    } else {
        t
    }
}

#[via_fn]
proof fn space_fix_decreases(t: Seq<char>) {
    if has_match(t) {
        lemma_spacing_step_terminates(t);
    }
}

/// Executable test for `op_eq_char`.
fn op_eq(c: char) -> (r: bool)
    ensures
        r == op_eq_char(c),
{
    c == '=' || c == '+' || c == '-' || c == '>' || c == '<' || c == '!'
}

/// Executable test for `op_single_char`.
fn op_single(c: char) -> (r: bool)
    ensures
        r == op_single_char(c),
{
    c == '=' || c == '+' || c == '-'
}

/// Executable test for `op_sign_char`.
fn op_sign(c: char) -> (r: bool)
    ensures
        r == op_sign_char(c),
{
    c == '+' || c == '-'
}

/// Whether pattern `k` matches `t` at position `i`.
fn match_at_exec(t: &Vec<char>, k: usize, i: usize) -> (r: bool)
    requires
        k <= 4,
    ensures
        r == match_at(t@, k as int, i as int),
{
    let n = t.len();
    if k == 0 {
        n >= 3 && i <= n - 3 && op_sign(t[i]) && op_sign(t[i + 1]) && word_char(t[i + 2])
    } else if k == 1 {
        n >= 4 && i <= n - 4 && word_char(t[i]) && op_eq(t[i + 1]) && t[i + 2] == '=' && word_char(
            t[i + 3],
        )
    } else if k == 2 {
        n >= 3 && i <= n - 3 && op_eq(t[i]) && t[i + 1] == '=' && word_char(t[i + 2])
    } else if k == 3 {
        n >= 3 && i <= n - 3 && word_char(t[i]) && op_single(t[i + 1]) && word_char(t[i + 2])
    } else {
        n >= 2 && i <= n - 2 && op_single(t[i]) && word_char(t[i + 1])
    }
}

/// Leftmost match of pattern `k` in `t`, or `t.len()` if none.
pub fn find_match_exec(t: &Vec<char>, k: usize) -> (r: usize)
    requires
        k <= 4,
    ensures
        r as int == find_match(t@, k as int, 0),
        r <= t@.len(),
        r < t@.len() ==> match_at(t@, k as int, r as int),
{
    let n = t.len();
    let mut i: usize = 0;
    while i < n
        invariant
            0 <= i <= n,
            n == t@.len(),
            k <= 4,
            forall|j: int| 0 <= j < i ==> !match_at(t@, k as int, j),
        decreases n - i,
    {
        if match_at_exec(t, k, i) {
            proof {
                lemma_find_match_from(t@, k as int, i as int);
                assert(find_match(t@, k as int, i as int) == i);
            }
            return i;
        }
        i = i + 1;
    }
    proof {
        lemma_find_match_from(t@, k as int, n as int);
        assert(find_match(t@, k as int, n as int) == n);
    }
    n
}

/// Index of the first pattern in priority order that matches `t`, or 5.
pub fn first_pattern_exec(t: &Vec<char>) -> (r: usize)
    ensures
        r as int == first_pattern(t@),
        r <= 5,
{
    let n = t.len();
    if find_match_exec(t, 0) < n {
        0
    } else if find_match_exec(t, 1) < n {
        1
    } else if find_match_exec(t, 2) < n {
        2
    } else if find_match_exec(t, 3) < n {
        3
    } else if find_match_exec(t, 4) < n {
        4
    } else {
        5
    }
}

/// Applies the rewrite of pattern `pattern` at its leftmost match in `input`;
/// returns the token unchanged when the pattern does not match (or is not one
/// of the five).
pub fn math_spaces(pattern: usize, input: Vec<char>) -> (r: Vec<char>)
    ensures
        pattern > 4 ==> r@ == input@,
        pattern <= 4 && !pattern_found(input@, pattern as int) ==> r@ == input@,
        pattern <= 4 && pattern_found(input@, pattern as int) ==> r@ == rewrite_at(
            input@,
            pattern as int,
            find_match(input@, pattern as int, 0),
        ),
{
    let mut word = input;
    if pattern > 4 {
        return word;
    }
    let m = find_match_exec(&word, pattern);
    if m == word.len() {
        return word;
    }
    if pattern == 0 {
        word.insert(m + 2, ' ');
    } else if pattern == 1 {
        word.insert(m + 3, ' ');
        word.insert(m + 1, ' ');
    } else if pattern == 2 {
        word.insert(m + 2, ' ');
    } else if pattern == 3 {
        word.insert(m + 2, ' ');
        word.insert(m + 1, ' ');
    } else {
        word.insert(m + 1, ' ');
    }
    word
}

/// Rewrites a plain token to its operator-spacing fixpoint: the first
/// matching pattern is applied at its leftmost match, repeatedly, until no
/// pattern matches.
pub fn space_token(word: Vec<char>) -> (r: Vec<char>)
    ensures
        r@ == space_fix(word@),
{
    let ghost orig = word@;
    let mut w = word;
    let mut k = first_pattern_exec(&w);
    while k <= 4
        invariant
            k as int == first_pattern(w@),
            space_fix(w@) == space_fix(orig),
        decreases pair_count(w@),
    {
        let ghost before = w@;
        w = math_spaces(k, w);
        proof {
            assert(w@ == step(before));
            assert(space_fix(before) == space_fix(w@));
            lemma_spacing_step_terminates(before);
        }
        k = first_pattern_exec(&w);
    }
    proof {
        assert(space_fix(w@) == w@);
    }
    w
}

} // verus!
