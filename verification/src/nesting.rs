//! Brace-nesting tracker: one signed counter, stepped per character.

use vstd::prelude::*;

verus! {

/// Contribution of one character to the nesting depth.
pub open spec fn brace_delta(c: char) -> int {
    if c == '{' {
        1
    } else if c == '}' {
        -1
    } else {
        0
    }
}

/// Sum of the brace contributions of a character sequence.
pub open spec fn brace_sum(s: Seq<char>) -> int
    decreases s.len(),
{
    if s.len() == 0 {
        0
    } else {
        brace_sum(s.drop_last()) + brace_delta(s.last())
    }
}

/// The brace sum of a sequence is bounded by its length.
pub proof fn lemma_brace_sum_bounds(s: Seq<char>)
    ensures
        -(s.len() as int) <= brace_sum(s) <= s.len() as int,
    decreases s.len(),
{
    if s.len() > 0 {
        lemma_brace_sum_bounds(s.drop_last());
    }
}

/// Updates the nesting depth with the braces of one token: one increment per
/// `{` and one decrement per `}`, in character order.
pub fn tab_counting(tab_count: i64, input: &Vec<char>) -> (r: i64)
    requires
        tab_count + input@.len() <= i64::MAX,
        tab_count - input@.len() >= i64::MIN,
    ensures
        r == tab_count + brace_sum(input@),
{
    let mut r: i64 = tab_count;
    let mut i: usize = 0;
    while i < input.len()
        invariant
            0 <= i <= input@.len(),
            r == tab_count + brace_sum(input@.take(i as int)),
            tab_count + input@.len() <= i64::MAX,
            tab_count - input@.len() >= i64::MIN,
        decreases input@.len() - i,
    {
        let c = input[i];
        proof {
            assert(input@.take(i as int + 1).drop_last() =~= input@.take(i as int));
            assert(input@.take(i as int + 1).last() == input@[i as int]);
            lemma_brace_sum_bounds(input@.take(i as int + 1));
        }
        if c == '{' {
            r = r + 1;
        } else if c == '}' {
            r = r - 1;
        }
        i = i + 1;
    }
    proof {
        assert(input@.take(input@.len() as int) =~= input@);
    }
    r
}

} // verus!
