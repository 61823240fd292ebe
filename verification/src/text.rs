//! The plain text of a token sequence.

use vstd::prelude::*;
use crate::token::{Token, TokenView};

verus! {

/// The strings of `parts`, one after the other.
pub open spec fn concatenated(parts: Seq<Seq<char>>) -> Seq<char>
    decreases parts.len(),
{
    if parts.len() == 0 {
        Seq::empty()
    } else {
        concatenated(parts.drop_last()) + parts.last()
    }
}

/// The content of the text tokens of `tokens`, in order.
pub open spec fn texts(tokens: Seq<TokenView>) -> Seq<Seq<char>>
    decreases tokens.len(),
{
    if tokens.len() == 0 {
        Seq::empty()
    } else if let TokenView::Text(text) = tokens.last() {
        texts(tokens.drop_last()).push(text)
    } else {
        texts(tokens.drop_last())
    }
}

/// The plain text of `tokens`: the content of its text tokens, one after the
/// other, and nothing of any other token.
pub open spec fn plain_text(tokens: Seq<TokenView>) -> Seq<char> {
    concatenated(texts(tokens))
}

/// Calls `Itertools::join` with an empty separator on the strings of
/// `parts`. The contract claims that the result is the strings one after the
/// other.
#[verifier::external_body]
fn join_all(parts: &Vec<String>) -> (r: String)
    ensures
        r@ == concatenated(parts.deep_view()),
{
    itertools::Itertools::join(&mut parts.iter(), "")
}

/// The plain text of `tokens`.
pub fn to_plain_text(tokens: &Vec<Token>) -> (r: String)
    ensures
        r@ == plain_text(tokens.deep_view()),
{
    let mut parts: Vec<String> = Vec::new();
    let mut i: usize = 0;
    assert(parts.deep_view() =~= Seq::empty());
    while i < tokens.len()
        invariant
            i <= tokens.len(),
            parts.deep_view() == texts(tokens.deep_view().take(i as int)),
        decreases tokens.len() - i,
    {
        let ghost before = parts.deep_view();
        proof {
            let all = tokens.deep_view();
            assert(all.take(i + 1).drop_last() == all.take(i as int));
            assert(all.take(i + 1).last() == tokens[i as int]@);
        }
        match &tokens[i] {
            Token::Text(text) => {
                parts.push(text.clone());
                assert(parts.deep_view() =~= before.push(text@));
            },
            _ => {},
        }
        i = i + 1;
    }
    assert(tokens.deep_view().take(i as int) == tokens.deep_view());
    join_all(&parts)
}

} // verus!
