//! Skipping over trivia.

use crate::lexis::token::Token;
use crate::lexis::token::TokenKind;
use vstd::prelude::*;
use vstd::slice::slice_subrange;

verus! {

/// Data structure which optimizes skipping over code comments and other "trivia" that can
/// be normally skipped by the parser, and are only useful when resolving certain specific
/// cases.
///
/// More precisely, this accelerates skipping over comments and other whitespace tokens
/// that do not affect the AST.
#[derive(Debug, Clone, PartialEq, Eq)]
pub struct TokenSkipList {
    pub tokens: Vec<Token>,
    pub code: Vec<usize>,
}

/// Whether tokens of `kind` are code, that is, neither a line break nor a comment.
pub open spec fn is_code(kind: TokenKind) -> bool {
    kind != TokenKind::Newline && kind != TokenKind::Comment
}

/// The positions of the code tokens among `tokens`, in ascending order.
pub open spec fn code_positions(tokens: Seq<Token>) -> Seq<usize>
    decreases tokens.len(),
{
    if tokens.len() == 0 {
        Seq::empty()
    } else if is_code(tokens.last().kind) {
        code_positions(tokens.drop_last()).push((tokens.len() - 1) as usize)
    } else {
        code_positions(tokens.drop_last())
    }
}

/// The positions of code tokens are positions of `tokens`, ascend strictly, and leave
/// out no code token.
pub proof fn lemma_code_positions(tokens: Seq<Token>)
    requires
        tokens.len() <= usize::MAX,
    ensures
        code_positions(tokens).len() <= tokens.len(),
        forall|k: int|
            0 <= k < code_positions(tokens).len() ==> (#[trigger] code_positions(tokens)[k])
                < tokens.len() && is_code(tokens[code_positions(tokens)[k] as int].kind),
        forall|k: int, l: int|
            0 <= k < l < code_positions(tokens).len() ==> code_positions(tokens)[k]
                < code_positions(tokens)[l],
        forall|i: int|
            0 <= i < tokens.len() && is_code(#[trigger] tokens[i].kind) ==> code_positions(
                tokens,
            ).contains(i as usize),
    decreases tokens.len(),
{
    if tokens.len() > 0 {
        let front = tokens.drop_last();
        lemma_code_positions(front);
        let last = (tokens.len() - 1) as usize;
        let positions = code_positions(tokens);
        assert forall|i: int| 0 <= i < tokens.len() && is_code(
            #[trigger] tokens[i].kind,
        ) implies positions.contains(i as usize) by {
            if i < tokens.len() - 1 {
                assert(front[i] == tokens[i]);
                assert(code_positions(front).contains(i as usize));
                let k = choose|k: int|
                    0 <= k < code_positions(front).len() && code_positions(front)[k] == i as usize;
                assert(positions[k] == i as usize);
            } else {
                assert(positions[positions.len() - 1] == last);
            }
        }
        assert forall|k: int| 0 <= k < positions.len() implies (#[trigger] positions[k])
            < tokens.len() && is_code(tokens[positions[k] as int].kind) by {
            if k < code_positions(front).len() {
                assert(positions[k] == code_positions(front)[k]);
                assert(code_positions(front)[k] < front.len());
                assert(front[positions[k] as int] == tokens[positions[k] as int]);
            } else {
                assert(is_code(tokens.last().kind));
                assert(positions[k] == last);
            }
        }
        assert forall|k: int, l: int| 0 <= k < l < positions.len() implies positions[k]
            < positions[l] by {
            assert(positions[k] == code_positions(front)[k]);
            assert(code_positions(front)[k] < front.len());
            if l < code_positions(front).len() {
                assert(positions[l] == code_positions(front)[l]);
            } else {
                assert(positions[l] == last);
            }
        }
    }
}

impl TokenSkipList {
    /// Whether `code` lists the positions of the code tokens of `tokens`. Lists made by
    /// [`new`](Self::new) are of this shape.
    pub open spec fn wf(&self) -> bool {
        self.code@ == code_positions(self.tokens@)
    }

    /// Construct a new token skip list out of the given tokens.
    pub fn new(tokens: Vec<Token>) -> (list: Self)
        ensures
            list.tokens == tokens,
            list.wf(),
    {
        let mut code: Vec<usize> = Vec::new();
        let mut index: usize = 0;
        assert(tokens@.subrange(0, 0) =~= Seq::empty());
        while index < tokens.len()
            invariant
                index <= tokens@.len(),
                code@ == code_positions(tokens@.subrange(0, index as int)),
            decreases tokens@.len() - index,
        {
            assert(tokens@.subrange(0, index + 1).drop_last() =~= tokens@.subrange(
                0,
                index as int,
            ));
            if Self::is_code_token(tokens[index].kind) {
                code.push(index);
            }
            index += 1;
        }
        assert(tokens@.subrange(0, tokens@.len() as int) =~= tokens@);
        TokenSkipList { code, tokens }
    }

    fn is_code_token(kind: TokenKind) -> (code: bool)
        ensures
            code == is_code(kind),
    {
        match kind {
            TokenKind::Newline => false,
            TokenKind::Comment => false,
            _ => true,
        }
    }

    /// Returns the code token at the given index.
    pub fn get(&self, position: usize) -> (token: Option<&Token>)
        ensures
            match token {
                Some(token) => {
                    &&& position < self.code@.len()
                    &&& self.code@[position as int] < self.tokens@.len()
                    &&& *token == self.tokens@[self.code@[position as int] as int]
                },
                None => position >= self.code@.len() || self.code@[position as int]
                    >= self.tokens@.len(),
            },
    {
        if position < self.code.len() {
            let index = self.code[position];
            if index < self.tokens.len() {
                Some(&self.tokens[index])
            } else {
                None
            }
        } else {
            None
        }
    }

    /// Returns a pair of slices containing leading and trailing trivia of the token at
    /// the given index.
    ///
    /// Note that most tokens will have the right array empty. This is because the
    /// trailing trivia of token `n` could also be considered the leading trivia of token
    /// `n + 1`. We don't want this API to return the same tokens twice for more easy
    /// traversal: only the last code token has trailing trivia.
    pub fn trivia(&self, position: usize) -> (trivia: (&[Token], &[Token]))
        requires
            self.wf(),
            position < self.code@.len(),
        ensures
            trivia.0@ == self.tokens@.subrange(
                self.leading_start(position as int),
                self.code@[position as int] as int,
            ),
            trivia.1@ == (if position > 0 && position == self.code@.len() - 1 {
                self.tokens@.subrange(
                    self.code@[position as int] + 1,
                    self.tokens@.len() as int,
                )
            } else {
                Seq::empty()
            }),
    {
        let tokens = self.tokens.as_slice();
        let count = tokens.len();
        proof {
            lemma_code_positions(self.tokens@);
        }
        let pivot = self.code[position];
        if position == 0 {
            return (slice_subrange(tokens, 0, pivot), slice_subrange(tokens, 0, 0));
        }
        let previous_pivot = self.code[position - 1];
        assert(self.code@[position - 1] < self.code@[position as int]);
        assert(self.code@[position as int] < self.tokens@.len());
        if position == self.code.len() - 1 {
            (
                slice_subrange(tokens, previous_pivot + 1, pivot),
                slice_subrange(tokens, pivot + 1, tokens.len()),
            )
        } else {
            (slice_subrange(tokens, previous_pivot + 1, pivot), slice_subrange(tokens, 0, 0))
        }
    }

    /// Where the leading trivia of the code token at `position` start: behind the code
    /// token before it, or at the very first token.
    pub open spec fn leading_start(&self, position: int) -> int {
        if position == 0 {
            0
        } else {
            self.code@[position - 1] + 1
        }
    }

    /// Returns the list of trivia occurring before the current code token (not including
    /// the token itself).
    pub fn before(&self, position: usize) -> (trivia: &[Token])
        requires
            self.wf(),
        ensures
            trivia@ == (if position < self.code@.len() {
                self.tokens@.subrange(
                    self.leading_start(position as int),
                    self.code@[position as int] as int,
                )
            } else {
                Seq::empty()
            }),
    {
        let tokens = self.tokens.as_slice();
        let count = tokens.len();
        proof {
            lemma_code_positions(self.tokens@);
        }
        if position >= self.code.len() {
            return slice_subrange(tokens, 0, 0);
        }
        let pivot = self.code[position];
        if position == 0 {
            slice_subrange(tokens, 0, pivot)
        } else {
            let previous_pivot = self.code[position - 1];
            assert(self.code@[position - 1] < self.code@[position as int]);
            slice_subrange(tokens, previous_pivot + 1, pivot)
        }
    }
}

} // verus!
