//! Tokens, the lexical units of a line.

use crate::types::{Number, NumberView, Operator};
use vstd::prelude::*;

verus! {

/// A lexical unit.
#[derive(Debug, PartialEq)]
pub enum Token {
    /// A numeric literal.
    Value(Number),
    /// The name of a variable.
    Identifier(String),
    /// An arithmetic operator.
    Operator(Operator),
    /// The `=` of an assignment.
    Assignment,
    /// A parenthesised sequence of tokens, which counts as one operand.
    Group(Vec<Token>),
}

/// The mathematical model of a [`Token`].
pub enum TokenView {
    Value(NumberView),
    Identifier(Seq<char>),
    Operator(Operator),
    Assignment,
    Group(Seq<TokenView>),
}

/// The models of a sequence of tokens, one for one.
pub open spec fn views(tokens: Seq<Token>) -> Seq<TokenView> {
    Seq::new(tokens.len(), |i: int| tokens[i]@)
}

impl Token {
    pub open spec fn view(&self) -> TokenView
        decreases self,
    {
        match self {
            Token::Value(number) => TokenView::Value(number@),
            Token::Identifier(name) => TokenView::Identifier(name@),
            Token::Operator(op) => TokenView::Operator(*op),
            Token::Assignment => TokenView::Assignment,
            Token::Group(tokens) => TokenView::Group(
                Seq::new(
                    tokens.len() as nat,
                    |i: int|
                        if 0 <= i < tokens.len() {
                            tokens[i].view()
                        } else {
                            TokenView::Assignment
                        },
                ),
            ),
        }
    }

    /// The model of a group is the group of its tokens' models.
    pub proof fn lemma_group_view(tokens: Vec<Token>)
        ensures
            Token::Group(tokens)@ == TokenView::Group(views(tokens@)),
    {
        assert(Token::Group(tokens)@->Group_0 =~= views(tokens@));
    }

    /// The operator that the token holds, if it holds one.
    pub fn to_operator(&self) -> (op: Option<Operator>)
        ensures
            op == operator_in(self@),
    {
        match self {
            Token::Operator(op) => Some(*op),
            _ => None,
        }
    }
}

/// The operator that a token holds, if it holds one.
pub open spec fn operator_in(token: TokenView) -> Option<Operator> {
    match token {
        TokenView::Operator(op) => Some(op),
        _ => None,
    }
}

impl Clone for Token {
    fn clone(&self) -> (copy: Self)
        ensures
            copy@ == self@,
        decreases self,
    {
        match self {
            Token::Value(number) => Token::Value(number.clone()),
            Token::Identifier(name) => Token::Identifier(name.clone()),
            Token::Operator(op) => Token::Operator(*op),
            Token::Assignment => Token::Assignment,
            Token::Group(tokens) => {
                let copies = clone_tokens(tokens);
                proof {
                    Token::lemma_group_view(*tokens);
                    Token::lemma_group_view(copies);
                }
                Token::Group(copies)
            },
        }
    }
}

/// A copy of the tokens.
pub fn clone_tokens(tokens: &Vec<Token>) -> (copies: Vec<Token>)
    ensures
        views(copies@) == views(tokens@),
    decreases tokens,
{
    let mut copies: Vec<Token> = Vec::new();
    let mut i: usize = 0;
    while i < tokens.len()
        invariant
            i <= tokens.len(),
            copies.len() == i,
            forall|k: int| 0 <= k < i ==> copies[k]@ == tokens[k]@,
        decreases tokens.len() - i,
    {
        let copy = tokens[i].clone();
        copies.push(copy);
        i += 1;
    }
    assert(views(copies@) =~= views(tokens@));
    copies
}

/// Appends a token.
pub fn push_token(tokens: &mut Vec<Token>, token: Token)
    ensures
        final(tokens)@ == old(tokens)@.push(token),
        views(final(tokens)@) == views(old(tokens)@).push(token@),
{
    tokens.push(token);
    assert(views(tokens@) =~= views(old(tokens)@).push(token@));
}

} // verus!
