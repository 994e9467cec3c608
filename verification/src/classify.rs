//! Token classification by leading characters.

use vstd::prelude::*;

verus! {

/// A string-literal token starts with a quote mark.
pub open spec fn is_string_tok(t: Seq<char>) -> bool {
    t.len() > 0 && t[0] == '"'
}

/// A comment token starts with `//` (line comment) or `/*` (block comment).
pub open spec fn is_comment_tok(t: Seq<char>) -> bool {
    t.len() >= 2 && t[0] == '/' && (t[1] == '/' || t[1] == '*')
}

/// A plain token is neither a string literal nor a comment.
pub open spec fn is_plain_tok(t: Seq<char>) -> bool {
    !is_string_tok(t) && !is_comment_tok(t)
}

/// Whether the token at `index` is a string-literal token.
pub fn quotations(vec: &Vec<Vec<char>>, index: usize) -> (r: bool)
    requires
        index < vec@.len(),
    ensures
        r == is_string_tok(vec@[index as int]@),
{
    let t = &vec[index];
    t.len() > 0 && t[0] == '"'
}

/// Whether the token at `index` is a line- or block-comment token.
pub fn comment(vec: &Vec<Vec<char>>, index: usize) -> (r: bool)
    requires
        index < vec@.len(),
    ensures
        r == is_comment_tok(vec@[index as int]@),
{
    let t = &vec[index];
    t.len() >= 2 && t[0] == '/' && (t[1] == '/' || t[1] == '*')
}

} // verus!
