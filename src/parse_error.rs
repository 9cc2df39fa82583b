use vstd::prelude::*;

use crate::ast::{Path, Type};
use crate::lexer::TokenKind;
use crate::location::{Loc, Span};

verus! {

/// A token and where it stands.
#[derive(Debug, PartialEq, Clone)]
pub struct Token {
    pub kind: TokenKind,
    pub span: Span,
    pub file_id: usize,
}

/// What a parse error can suggest to the user.
#[derive(Debug, PartialEq, Clone)]
pub enum UnexpectedTokenContext {
    SuggestEnumVariantItems { open_paren: Token, close_paren: Token },
}

/// An error of the parser.
#[derive(Debug)]
pub enum Error {
    Eof,
    LexerError(usize, Span),
    UnexpectedToken { got: Token, expected: Vec<&'static str>, context: Option<UnexpectedTokenContext> },
    UnmatchedPair { friend: Token, expected: TokenKind, got: Token },
    ExpectedExpression { got: Token },
    ExpectedBlock { for_what: String, got: Token, loc: Span },
    ExpectedItem { got: Token },
    /// Like `UnexpectedToken`, from the argument list parser, which adds the tokens
    /// that could have ended the list.
    UnexpectedEndOfArgList { got: Token, expected: Vec<TokenKind> },
    ExpectedType(Token),
    ExpectedArgumentList(Loc<Path>),
    MissingTupleIndex { hash_loc: Span },
    ExpectedPipelineDepth { got: Token },
    ExpectedRegisterCount { got: Token },
    ExpectedOffset { got: Token },
    ExpectedExpressionOrStage { got: Token },
    EmptyDeclStatement { at: Span },
    RegInFunction { at: Span, fn_keyword: Span },
    InstInFunction { at: Span, fn_keyword: Span },
    PipelineRefInFunction { at: Span, fn_keyword: Span },
    PipelineRefInEntity { at: Span, entity_keyword: Span },
    InternalExpectedItemContext { at: Span },
    InternalOverwritingItemContext { at: Span, prev: Span },
    ExpectedArraySize { array: Span, inner: Loc<Type> },
    StageOutsidePipeline(Span),
    DisallowedAttributes { attributes: Span, item_start: Loc<TokenKind> },
}

impl Error {
    /// Replaces an unexpected-token error by the error that `f` makes of its token;
    /// leaves any other error as it is.
    pub fn specify_unexpected_token<F: Fn(Token) -> Error>(self, f: F) -> (r: Error)
        requires
            forall|t: Token| f.requires((t,)),
        ensures
            match self {
                Error::UnexpectedToken { got, .. } => f.ensures((got,), r),
                other => r == other,
            },
    {
        match self {
            Error::UnexpectedToken { got, .. } => f(got),
            other => other,
        }
    }
}

/// The error of a comma separated list, which the caller turns into an `Error`.
#[derive(Debug)]
pub enum CommaSeparatedError {
    Inner(Error),
    UnexpectedToken { got: Token, end_token: TokenKind },
}

/// The views of a list of expected token descriptions.
pub open spec fn expected_views(v: Seq<&'static str>) -> Seq<Seq<char>> {
    v.map_values(|s: &'static str| s@)
}

impl CommaSeparatedError {
    /// The error, where an unexpected token also could have been a comma or the token
    /// that ends the list, besides `extra`.
    pub fn extra_expected(self, extra: Vec<&'static str>) -> (r: Error)
        ensures
            match self {
                CommaSeparatedError::Inner(inner) => r == inner,
                CommaSeparatedError::UnexpectedToken { got, end_token } => r is UnexpectedToken
                    && r->UnexpectedToken_got == got
                    && r->UnexpectedToken_context is None
                    && expected_views(r->UnexpectedToken_expected@)
                        == expected_views(extra@) + seq![","@, end_token.spec_as_str()],
            },
    {
        match self {
            CommaSeparatedError::Inner(inner) => inner,
            CommaSeparatedError::UnexpectedToken { got, end_token } => {
                let mut extra = extra;
                let ghost start = extra@;
                extra.push(",");
                extra.push(end_token.as_str());
                assert(expected_views(extra@) =~= expected_views(start) + seq![","@, end_token.spec_as_str()]);
                Error::UnexpectedToken { got, expected: extra, context: None }
            },
        }
    }

    /// The error, where an unexpected token could have been a comma or the token that
    /// ends the list.
    pub fn no_context(self) -> (r: Error)
        ensures
            match self {
                CommaSeparatedError::Inner(inner) => r == inner,
                CommaSeparatedError::UnexpectedToken { got, end_token } => r is UnexpectedToken
                    && r->UnexpectedToken_got == got
                    && r->UnexpectedToken_context is None
                    && expected_views(r->UnexpectedToken_expected@) == seq![","@, end_token.spec_as_str()],
            },
    {
        let r = self.extra_expected(Vec::new());
        proof {
            if self is UnexpectedToken {
                assert(expected_views(Seq::<&'static str>::empty()) + seq![","@, self->UnexpectedToken_end_token.spec_as_str()]
                    =~= seq![","@, self->UnexpectedToken_end_token.spec_as_str()]);
            }
        }
        r
    }
}

/// Turns the error of a comma separated list into an `Error`.
pub trait CSErrorTransformations<T>: Sized {
    fn extra_expected(self, extra: Vec<&'static str>) -> Result<T, Error>;

    fn no_context(self) -> Result<T, Error>;
}

impl<T> CSErrorTransformations<T> for Result<T, CommaSeparatedError> {
    fn extra_expected(self, extra: Vec<&'static str>) -> Result<T, Error> {
        match self {
            Ok(v) => Ok(v),
            Err(e) => Err(e.extra_expected(extra)),
        }
    }

    fn no_context(self) -> Result<T, Error> {
        match self {
            Ok(v) => Ok(v),
            Err(e) => Err(e.no_context()),
        }
    }
}

} // verus!
