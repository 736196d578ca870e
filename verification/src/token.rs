//! The tokens of the two lexers.
use vstd::prelude::*;

verus! {

/// A segment of a template's source: raw text, or one expression together with the
/// whitespace that surrounds it.
#[derive(Debug)]
pub enum Token {
    TokSimpleExp(String),
    TokNoEscapeExp(String),
    TokCommentExp(String),
    TokPartialExp(String),
    TokBlockExp(String, bool),
    TokBlockElseCond(String),
    TokBlockEndExp(String),
    TokRaw(String),
}

/// The flavours of expression that the template lexer tells apart.
#[derive(Clone, Copy, Debug, PartialEq, Eq, Structural)]
pub enum TokenKind {
    Simple,
    NoEscape,
    Comment,
    Partial,
    /// A block opening; the flag is set for the inverse form.
    Block(bool),
    Else,
    End,
}

/// The view of a token.
pub ghost enum TokenView {
    /// An expression of the given kind with its whole text.
    Exp(TokenKind, Seq<char>),
    Raw(Seq<char>),
}

impl View for Token {
    type V = TokenView;

    open spec fn view(&self) -> TokenView {
        match *self {
            Token::TokSimpleExp(s) => TokenView::Exp(TokenKind::Simple, s@),
            Token::TokNoEscapeExp(s) => TokenView::Exp(TokenKind::NoEscape, s@),
            Token::TokCommentExp(s) => TokenView::Exp(TokenKind::Comment, s@),
            Token::TokPartialExp(s) => TokenView::Exp(TokenKind::Partial, s@),
            Token::TokBlockExp(s, inverse) => TokenView::Exp(TokenKind::Block(inverse), s@),
            Token::TokBlockElseCond(s) => TokenView::Exp(TokenKind::Else, s@),
            Token::TokBlockEndExp(s) => TokenView::Exp(TokenKind::End, s@),
            Token::TokRaw(s) => TokenView::Raw(s@),
        }
    }
}

impl Token {
    /// The token of flavour `kind` that carries `text`.
    pub fn expression(kind: TokenKind, text: String) -> (t: Token)
        ensures
            t@ == TokenView::Exp(kind, text@),
    {
        match kind {
            TokenKind::Simple => Token::TokSimpleExp(text),
            TokenKind::NoEscape => Token::TokNoEscapeExp(text),
            TokenKind::Comment => Token::TokCommentExp(text),
            TokenKind::Partial => Token::TokPartialExp(text),
            TokenKind::Block(inverse) => Token::TokBlockExp(text, inverse),
            TokenKind::Else => Token::TokBlockElseCond(text),
            TokenKind::End => Token::TokBlockEndExp(text),
        }
    }
}

/// A token of an expression's interior.
#[derive(Debug)]
pub enum HBToken {
    TokPathEntry(String),
    TokNoWhiteSpaceBefore,
    TokNoWhiteSpaceAfter,
    TokStringParam(String),
    TokParamStart,
    TokParamSep,
    TokOption(String),
    TokLeadingWhiteSpace(String),
    TokTrailingWhiteSpace(String),
}

/// The view of a token of an expression.
pub ghost enum HBTokenView {
    PathEntry(Seq<char>),
    NoWhiteSpaceBefore,
    NoWhiteSpaceAfter,
    StringParam(Seq<char>),
    ParamStart,
    ParamSep,
    Option(Seq<char>),
    LeadingWhiteSpace(Seq<char>),
    TrailingWhiteSpace(Seq<char>),
}

impl View for HBToken {
    type V = HBTokenView;

    open spec fn view(&self) -> HBTokenView {
        match *self {
            HBToken::TokPathEntry(s) => HBTokenView::PathEntry(s@),
            HBToken::TokNoWhiteSpaceBefore => HBTokenView::NoWhiteSpaceBefore,
            HBToken::TokNoWhiteSpaceAfter => HBTokenView::NoWhiteSpaceAfter,
            HBToken::TokStringParam(s) => HBTokenView::StringParam(s@),
            HBToken::TokParamStart => HBTokenView::ParamStart,
            HBToken::TokParamSep => HBTokenView::ParamSep,
            HBToken::TokOption(s) => HBTokenView::Option(s@),
            HBToken::TokLeadingWhiteSpace(s) => HBTokenView::LeadingWhiteSpace(s@),
            HBToken::TokTrailingWhiteSpace(s) => HBTokenView::TrailingWhiteSpace(s@),
        }
    }
}

/// The views of a run of tokens.
pub open spec fn token_views(tokens: Seq<Token>) -> Seq<TokenView> {
    Seq::new(tokens.len(), |i: int| tokens[i]@)
}

/// The views of a run of expression tokens.
pub open spec fn hb_token_views(tokens: Seq<HBToken>) -> Seq<HBTokenView> {
    Seq::new(tokens.len(), |i: int| tokens[i]@)
}

} // verus!
