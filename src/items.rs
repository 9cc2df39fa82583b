use vstd::prelude::*;

use crate::lexer::{Lexer, TokenKind};

verus! {

/// Why a program was not accepted by the item checker.
#[derive(Debug, PartialEq, Clone)]
pub enum BuildError {
    /// A character sequence that is no token, at this token index.
    Lexer(usize),
    /// A token that the grammar does not allow there, at this token index.
    Syntax(usize),
    /// The program nests deeper than the checker follows.
    TooDeep,
    /// A path that names nothing in scope.
    Unresolved(Vec<String>),
}

/// What a declared name denotes.
#[derive(Clone, Copy, Debug, PartialEq, Eq, Structural)]
pub enum ItemKind {
    Unit,
    Type,
    Variant,
    Module,
}

/// A type as written: a path with its arguments.
#[derive(Debug)]
pub struct TypeRef {
    pub path: Vec<String>,
    pub args: Vec<TypeArg>,
}

#[derive(Debug)]
pub enum TypeArg {
    Integer(u128),
    Type(TypeRef),
}

/// An expression as written, as far as name resolution looks at it.
#[derive(Debug)]
pub enum Expr {
    Integer(u128),
    Bool(bool),
    Path(Vec<String>),
    Call(Vec<String>, Vec<Expr>),
    Instance(Vec<String>, Vec<Expr>),
    Field(Box<Expr>, String),
    Method(Box<Expr>, String, Vec<Expr>),
    Binary(Box<Expr>, Box<Expr>),
    Block(Vec<(String, Option<TypeRef>, Expr)>, Option<Box<Expr>>),
}

/// An item as written.
#[derive(Debug)]
pub enum Item {
    Module(String, Vec<Item>),
    Use(Vec<String>, String),
    Unit { name: String, params: Vec<(String, Option<TypeRef>)>, output: Option<TypeRef>, body: Expr },
    Struct(String, Vec<(String, TypeRef)>),
    Enum(String, Vec<(String, Vec<(String, TypeRef)>)>),
    Impl(String, Vec<Item>),
}

/// Reads all tokens of a source, or the index of the first that is not one.
pub fn tokenize(source: &str) -> (r: Result<Vec<TokenKind>, BuildError>)
    ensures
        r is Ok ==> forall|i: int| 0 <= i < r->Ok_0@.len() ==> !(#[trigger] r->Ok_0@[i] is Error),
{
    let mut lex = TokenKind::lexer(source);
    let mut out: Vec<TokenKind> = Vec::new();
    loop
        invariant
            lex.pos <= lex.chars@.len(),
            forall|i: int| 0 <= i < out@.len() ==> !(#[trigger] out@[i] is Error),
        decreases lex.chars@.len() - lex.pos,
    {
        let ghost before = lex.pos;
        match lex.next() {
            None => {
                return Ok(out);
            },
            Some(TokenKind::Error) => {
                return Err(BuildError::Lexer(out.len()));
            },
            Some(t) => {
                out.push(t);
            },
        }
    }
}

/// Punctuation that the item grammar uses.
#[derive(Clone, Copy, Debug, PartialEq, Eq, Structural)]
pub enum Punct {
    OpenParen,
    CloseParen,
    OpenBrace,
    CloseBrace,
    Semi,
    Colon,
    Comma,
    Lt,
    Gt,
    PathSeparator,
    SlimArrow,
    Dot,
    Assignment,
}

pub open spec fn is_punct(t: TokenKind, p: Punct) -> bool {
    match (t, p) {
        (TokenKind::OpenParen, Punct::OpenParen) => true,
        (TokenKind::CloseParen, Punct::CloseParen) => true,
        (TokenKind::OpenBrace, Punct::OpenBrace) => true,
        (TokenKind::CloseBrace, Punct::CloseBrace) => true,
        (TokenKind::Semi, Punct::Semi) => true,
        (TokenKind::Colon, Punct::Colon) => true,
        (TokenKind::Comma, Punct::Comma) => true,
        (TokenKind::Lt, Punct::Lt) => true,
        (TokenKind::Gt, Punct::Gt) => true,
        (TokenKind::PathSeparator, Punct::PathSeparator) => true,
        (TokenKind::SlimArrow, Punct::SlimArrow) => true,
        (TokenKind::Dot, Punct::Dot) => true,
        (TokenKind::Assignment, Punct::Assignment) => true,
        _ => false,
    }
}

fn punct_matches(t: &TokenKind, p: Punct) -> (r: bool)
    ensures
        r == is_punct(*t, p),
{
    match (t, p) {
        (TokenKind::OpenParen, Punct::OpenParen) => true,
        (TokenKind::CloseParen, Punct::CloseParen) => true,
        (TokenKind::OpenBrace, Punct::OpenBrace) => true,
        (TokenKind::CloseBrace, Punct::CloseBrace) => true,
        (TokenKind::Semi, Punct::Semi) => true,
        (TokenKind::Colon, Punct::Colon) => true,
        (TokenKind::Comma, Punct::Comma) => true,
        (TokenKind::Lt, Punct::Lt) => true,
        (TokenKind::Gt, Punct::Gt) => true,
        (TokenKind::PathSeparator, Punct::PathSeparator) => true,
        (TokenKind::SlimArrow, Punct::SlimArrow) => true,
        (TokenKind::Dot, Punct::Dot) => true,
        (TokenKind::Assignment, Punct::Assignment) => true,
        _ => false,
    }
}

/// Whether a string spells `w`.
fn word_is(s: &String, w: &str) -> (r: bool)
    ensures
        r == (s@ == w@),
{
    *s == w.to_owned()
}

/// A recursive descent parser over a token list.
#[derive(Debug)]
pub struct Parser {
    pub tokens: Vec<TokenKind>,
    pub pos: usize,
}

impl Parser {
    pub open spec fn moved_on(&self, old: &Parser) -> bool {
        &&& self.tokens@ == old.tokens@
        &&& old.pos <= self.pos <= self.tokens@.len()
    }

    fn at_punct(&self, p: Punct) -> (r: bool)
        requires
            self.pos <= self.tokens@.len(),
        ensures
            r == (self.pos < self.tokens@.len() && is_punct(self.tokens@[self.pos as int], p)),
    {
        self.pos < self.tokens.len() && punct_matches(&self.tokens[self.pos], p)
    }

    /// Whether the current token is the identifier `w`.
    fn at_word(&self, w: &str) -> (r: bool)
        requires
            self.pos <= self.tokens@.len(),
        ensures
            r ==> self.pos < self.tokens@.len(),
    {
        if self.pos < self.tokens.len() {
            match &self.tokens[self.pos] {
                TokenKind::Identifier(s) => word_is(s, w),
                _ => false,
            }
        } else {
            false
        }
    }

    fn advance(&mut self)
        requires
            old(self).pos < old(self).tokens@.len(),
        ensures
            final(self).tokens@ == old(self).tokens@,
            final(self).pos == old(self).pos + 1,
    {
        let n = self.tokens.len();
        assert(self.pos < n);
        self.pos = self.pos + 1;
    }

    fn expect_punct(&mut self, p: Punct) -> (r: Result<(), BuildError>)
        requires
            old(self).pos <= old(self).tokens@.len(),
        ensures
            final(self).moved_on(old(self)),
            r is Ok ==> final(self).pos == old(self).pos + 1,
    {
        if self.at_punct(p) {
            self.advance();
            Ok(())
        } else {
            Err(BuildError::Syntax(self.pos))
        }
    }

    fn eat_punct(&mut self, p: Punct) -> (r: bool)
        requires
            old(self).pos <= old(self).tokens@.len(),
        ensures
            final(self).moved_on(old(self)),
            r ==> final(self).pos == old(self).pos + 1,
            !r ==> final(self).pos == old(self).pos,
    {
        if self.at_punct(p) {
            self.advance();
            true
        } else {
            false
        }
    }

    fn expect_ident(&mut self) -> (r: Result<String, BuildError>)
        requires
            old(self).pos <= old(self).tokens@.len(),
        ensures
            final(self).moved_on(old(self)),
            r is Ok ==> final(self).pos == old(self).pos + 1,
    {
        if self.pos < self.tokens.len() {
            match &self.tokens[self.pos] {
                TokenKind::Identifier(s) => {
                    let name = s.clone();
                    self.advance();
                    Ok(name)
                },
                _ => Err(BuildError::Syntax(self.pos)),
            }
        } else {
            Err(BuildError::Syntax(self.pos))
        }
    }

    fn expect_integer(&mut self) -> (r: Result<u128, BuildError>)
        requires
            old(self).pos <= old(self).tokens@.len(),
        ensures
            final(self).moved_on(old(self)),
    {
        if self.pos < self.tokens.len() {
            match &self.tokens[self.pos] {
                TokenKind::Integer(v) => {
                    let v = *v;
                    self.advance();
                    Ok(v)
                },
                _ => Err(BuildError::Syntax(self.pos)),
            }
        } else {
            Err(BuildError::Syntax(self.pos))
        }
    }

    /// `a::b::c`
    fn parse_path(&mut self) -> (r: Result<Vec<String>, BuildError>)
        requires
            old(self).pos <= old(self).tokens@.len(),
        ensures
            final(self).moved_on(old(self)),
            r is Ok ==> final(self).pos > old(self).pos && r->Ok_0@.len() > 0,
    {
        let mut path: Vec<String> = Vec::new();
        let first = self.expect_ident()?;
        path.push(first);
        let ghost start = old(self).pos;
        while self.at_punct(Punct::PathSeparator)
            invariant
                self.tokens@ == old(self).tokens@,
                start < self.pos <= self.tokens@.len(),
                start == old(self).pos,
                path@.len() > 0,
            decreases self.tokens@.len() - self.pos,
        {
            self.advance();
            let next = self.expect_ident()?;
            path.push(next);
        }
        Ok(path)
    }

    /// A type: a path with optional `<...>` arguments, each an integer or a type.
    fn parse_type(&mut self, depth: usize) -> (r: Result<TypeRef, BuildError>)
        requires
            old(self).pos <= old(self).tokens@.len(),
        ensures
            final(self).moved_on(old(self)),
        decreases depth,
    {
        let path = self.parse_path()?;
        let mut args: Vec<TypeArg> = Vec::new();
        if self.eat_punct(Punct::Lt) {
            if depth == 0 {
                return Err(BuildError::TooDeep);
            }
            loop
                invariant
                    self.tokens@ == old(self).tokens@,
                    old(self).pos <= self.pos <= self.tokens@.len(),
                    depth > 0,
                decreases self.tokens@.len() - self.pos,
            {
                let before = self.pos;
                let is_int = self.pos < self.tokens.len() && self.tokens[self.pos].is_integer();
                if is_int {
                    let v = self.expect_integer()?;
                    args.push(TypeArg::Integer(v));
                } else {
                    let t = self.parse_type(depth - 1)?;
                    args.push(TypeArg::Type(t));
                }
                if self.eat_punct(Punct::Comma) {
                    if self.pos <= before {
                        return Err(BuildError::Syntax(self.pos));
                    }
                    continue;
                }
                self.expect_punct(Punct::Gt)?;
                break;
            }
        }
        Ok(TypeRef { path, args })
    }

    /// A comma separated list of expressions up to a closing parenthesis, which it eats.
    fn parse_args(&mut self, depth: usize) -> (r: Result<Vec<Expr>, BuildError>)
        requires
            old(self).pos <= old(self).tokens@.len(),
        ensures
            final(self).moved_on(old(self)),
        decreases depth, 0int,
    {
        let mut args: Vec<Expr> = Vec::new();
        if self.eat_punct(Punct::CloseParen) {
            return Ok(args);
        }
        if depth == 0 {
            return Err(BuildError::TooDeep);
        }
        loop
            invariant
                self.tokens@ == old(self).tokens@,
                old(self).pos <= self.pos <= self.tokens@.len(),
                depth > 0,
            decreases self.tokens@.len() - self.pos,
        {
            let before = self.pos;
            let e = self.parse_expr(depth - 1)?;
            args.push(e);
            if self.eat_punct(Punct::Comma) {
                if self.eat_punct(Punct::CloseParen) {
                    return Ok(args);
                }
                if self.pos <= before {
                    return Err(BuildError::Syntax(self.pos));
                }
                continue;
            }
            self.expect_punct(Punct::CloseParen)?;
            return Ok(args);
        }
    }

    /// A literal, path, call, instance or block, then field accesses and method calls.
    fn parse_primary(&mut self, depth: usize) -> (r: Result<Expr, BuildError>)
        requires
            old(self).pos <= old(self).tokens@.len(),
        ensures
            final(self).moved_on(old(self)),
        decreases depth, 1int,
    {
        if depth == 0 {
            return Err(BuildError::TooDeep);
        }
        if self.pos >= self.tokens.len() {
            return Err(BuildError::Syntax(self.pos));
        }
        let mut e = match &self.tokens[self.pos] {
            TokenKind::Integer(v) => {
                let v = *v;
                self.advance();
                Expr::Integer(v)
            },
            TokenKind::True => {
                self.advance();
                Expr::Bool(true)
            },
            TokenKind::False => {
                self.advance();
                Expr::Bool(false)
            },
            TokenKind::Instance => {
                self.advance();
                let path = self.parse_path()?;
                self.expect_punct(Punct::OpenParen)?;
                let args = self.parse_args(depth - 1)?;
                Expr::Instance(path, args)
            },
            TokenKind::OpenBrace => self.parse_block(depth - 1)?,
            TokenKind::OpenParen => {
                self.advance();
                let inner = self.parse_expr(depth - 1)?;
                self.expect_punct(Punct::CloseParen)?;
                inner
            },
            TokenKind::Identifier(_) => {
                let path = self.parse_path()?;
                if self.eat_punct(Punct::OpenParen) {
                    let args = self.parse_args(depth - 1)?;
                    Expr::Call(path, args)
                } else {
                    Expr::Path(path)
                }
            },
            _ => {
                return Err(BuildError::Syntax(self.pos));
            },
        };
        while self.at_punct(Punct::Dot)
            invariant
                self.tokens@ == old(self).tokens@,
                old(self).pos <= self.pos <= self.tokens@.len(),
                depth > 0,
            decreases self.tokens@.len() - self.pos,
        {
            self.advance();
            let field = self.expect_ident()?;
            if self.eat_punct(Punct::OpenParen) {
                let args = self.parse_args(depth - 1)?;
                e = Expr::Method(Box::new(e), field, args);
            } else {
                e = Expr::Field(Box::new(e), field);
            }
        }
        Ok(e)
    }

    /// A primary expression, possibly followed by a binary operator and another
    /// expression.
    fn parse_expr(&mut self, depth: usize) -> (r: Result<Expr, BuildError>)
        requires
            old(self).pos <= old(self).tokens@.len(),
        ensures
            final(self).moved_on(old(self)),
        decreases depth, 2int,
    {
        let lhs = self.parse_primary(depth)?;
        let is_operator = self.pos < self.tokens.len() && match &self.tokens[self.pos] {
            TokenKind::Plus | TokenKind::Minus | TokenKind::Asterisk | TokenKind::Equals | TokenKind::Lt
            | TokenKind::Gt | TokenKind::LeftShift | TokenKind::RightShift | TokenKind::LogicalAnd
            | TokenKind::LogicalOr | TokenKind::BitwiseAnd | TokenKind::BitwiseOr => true,
            _ => false,
        };
        if is_operator {
            if depth == 0 {
                return Err(BuildError::TooDeep);
            }
            self.advance();
            let rhs = self.parse_expr(depth - 1)?;
            Ok(Expr::Binary(Box::new(lhs), Box::new(rhs)))
        } else {
            Ok(lhs)
        }
    }

    /// `{ let name (: type)? = expr; ... result? }`
    fn parse_block(&mut self, depth: usize) -> (r: Result<Expr, BuildError>)
        requires
            old(self).pos <= old(self).tokens@.len(),
        ensures
            final(self).moved_on(old(self)),
        decreases depth, 3int,
    {
        self.expect_punct(Punct::OpenBrace)?;
        if depth == 0 {
            return Err(BuildError::TooDeep);
        }
        let mut bindings: Vec<(String, Option<TypeRef>, Expr)> = Vec::new();
        loop
            invariant
                self.tokens@ == old(self).tokens@,
                old(self).pos <= self.pos <= self.tokens@.len(),
                depth > 0,
            decreases self.tokens@.len() - self.pos,
        {
            if self.pos < self.tokens.len() && matches!(self.tokens[self.pos], TokenKind::Let) {
                self.advance();
                let name = self.expect_ident()?;
                let ty = if self.eat_punct(Punct::Colon) {
                    Some(self.parse_type(depth - 1)?)
                } else {
                    None
                };
                self.expect_punct(Punct::Assignment)?;
                let value = self.parse_expr(depth - 1)?;
                self.expect_punct(Punct::Semi)?;
                bindings.push((name, ty, value));
            } else {
                break;
            }
        }
        if self.eat_punct(Punct::CloseBrace) {
            return Ok(Expr::Block(bindings, None));
        }
        let result = self.parse_expr(depth - 1)?;
        self.expect_punct(Punct::CloseBrace)?;
        Ok(Expr::Block(bindings, Some(Box::new(result))))
    }

    /// `(name: type, self, ...)`
    fn parse_params(&mut self, depth: usize) -> (r: Result<Vec<(String, Option<TypeRef>)>, BuildError>)
        requires
            old(self).pos <= old(self).tokens@.len(),
        ensures
            final(self).moved_on(old(self)),
    {
        self.expect_punct(Punct::OpenParen)?;
        let mut params: Vec<(String, Option<TypeRef>)> = Vec::new();
        loop
            invariant
                self.tokens@ == old(self).tokens@,
                old(self).pos <= self.pos <= self.tokens@.len(),
            decreases self.tokens@.len() - self.pos,
        {
            if self.eat_punct(Punct::CloseParen) {
                return Ok(params);
            }
            let name = self.expect_ident()?;
            let ty = if self.eat_punct(Punct::Colon) {
                Some(self.parse_type(depth)?)
            } else {
                None
            };
            params.push((name, ty));
            if !self.eat_punct(Punct::Comma) {
                self.expect_punct(Punct::CloseParen)?;
                return Ok(params);
            }
        }
    }

    /// `{name: type, ...}`
    fn parse_fields(&mut self, depth: usize) -> (r: Result<Vec<(String, TypeRef)>, BuildError>)
        requires
            old(self).pos <= old(self).tokens@.len(),
        ensures
            final(self).moved_on(old(self)),
    {
        self.expect_punct(Punct::OpenBrace)?;
        let mut fields: Vec<(String, TypeRef)> = Vec::new();
        loop
            invariant
                self.tokens@ == old(self).tokens@,
                old(self).pos <= self.pos <= self.tokens@.len(),
            decreases self.tokens@.len() - self.pos,
        {
            if self.eat_punct(Punct::CloseBrace) {
                return Ok(fields);
            }
            let name = self.expect_ident()?;
            self.expect_punct(Punct::Colon)?;
            let ty = self.parse_type(depth)?;
            fields.push((name, ty));
            if !self.eat_punct(Punct::Comma) {
                self.expect_punct(Punct::CloseBrace)?;
                return Ok(fields);
            }
        }
    }

    /// `{Variant, Variant{name: type}, ...}`
    fn parse_variants(&mut self, depth: usize) -> (r: Result<Vec<(String, Vec<(String, TypeRef)>)>, BuildError>)
        requires
            old(self).pos <= old(self).tokens@.len(),
        ensures
            final(self).moved_on(old(self)),
    {
        self.expect_punct(Punct::OpenBrace)?;
        let mut variants: Vec<(String, Vec<(String, TypeRef)>)> = Vec::new();
        loop
            invariant
                self.tokens@ == old(self).tokens@,
                old(self).pos <= self.pos <= self.tokens@.len(),
            decreases self.tokens@.len() - self.pos,
        {
            if self.eat_punct(Punct::CloseBrace) {
                return Ok(variants);
            }
            let name = self.expect_ident()?;
            let fields = if self.at_punct(Punct::OpenBrace) {
                self.parse_fields(depth)?
            } else {
                Vec::new()
            };
            variants.push((name, fields));
            if !self.eat_punct(Punct::Comma) {
                self.expect_punct(Punct::CloseBrace)?;
                return Ok(variants);
            }
        }
    }

    /// The rest of an entity, function or pipeline after its keyword (and depth):
    /// `name(params) -> type { body }`.
    fn parse_unit(&mut self, depth: usize) -> (r: Result<Item, BuildError>)
        requires
            old(self).pos <= old(self).tokens@.len(),
        ensures
            final(self).moved_on(old(self)),
    {
        let name = self.expect_ident()?;
        let params = self.parse_params(depth)?;
        let output = if self.eat_punct(Punct::SlimArrow) {
            Some(self.parse_type(depth)?)
        } else {
            None
        };
        let body = self.parse_block(depth)?;
        Ok(Item::Unit { name, params, output, body })
    }

    /// Items up to the end of the tokens, or up to a closing brace where `nested`.
    fn parse_items(&mut self, depth: usize, nested: bool) -> (r: Result<Vec<Item>, BuildError>)
        requires
            old(self).pos <= old(self).tokens@.len(),
        ensures
            final(self).moved_on(old(self)),
        decreases depth,
    {
        let mut items: Vec<Item> = Vec::new();
        loop
            invariant
                self.tokens@ == old(self).tokens@,
                old(self).pos <= self.pos <= self.tokens@.len(),
            decreases self.tokens@.len() - self.pos,
        {
            if self.pos >= self.tokens.len() {
                if nested {
                    return Err(BuildError::Syntax(self.pos));
                }
                return Ok(items);
            }
            if nested && self.at_punct(Punct::CloseBrace) {
                return Ok(items);
            }
            let start = self.pos;
            let item = match &self.tokens[self.pos] {
                TokenKind::Entity | TokenKind::Function => {
                    self.advance();
                    self.parse_unit(depth)?
                },
                TokenKind::Pipeline => {
                    self.advance();
                    self.expect_punct(Punct::OpenParen)?;
                    self.expect_integer()?;
                    self.expect_punct(Punct::CloseParen)?;
                    self.parse_unit(depth)?
                },
                TokenKind::Enum => {
                    self.advance();
                    let name = self.expect_ident()?;
                    let variants = self.parse_variants(depth)?;
                    Item::Enum(name, variants)
                },
                TokenKind::Identifier(_) => {
                    if self.at_word("mod") {
                        self.advance();
                        let name = self.expect_ident()?;
                        self.expect_punct(Punct::OpenBrace)?;
                        if depth == 0 {
                            return Err(BuildError::TooDeep);
                        }
                        let inner = self.parse_items(depth - 1, true)?;
                        self.expect_punct(Punct::CloseBrace)?;
                        Item::Module(name, inner)
                    } else if self.at_word("use") {
                        self.advance();
                        let path = self.parse_path()?;
                        let alias = if self.at_word("as") {
                            self.advance();
                            self.expect_ident()?
                        } else {
                            path[path.len() - 1].clone()
                        };
                        self.expect_punct(Punct::Semi)?;
                        Item::Use(path, alias)
                    } else if self.at_word("struct") {
                        self.advance();
                        let name = self.expect_ident()?;
                        let fields = self.parse_fields(depth)?;
                        Item::Struct(name, fields)
                    } else if self.at_word("impl") {
                        self.advance();
                        let target = self.expect_ident()?;
                        self.expect_punct(Punct::OpenBrace)?;
                        if depth == 0 {
                            return Err(BuildError::TooDeep);
                        }
                        let inner = self.parse_items(depth - 1, true)?;
                        self.expect_punct(Punct::CloseBrace)?;
                        Item::Impl(target, inner)
                    } else {
                        return Err(BuildError::Syntax(self.pos));
                    }
                },
                _ => {
                    return Err(BuildError::Syntax(self.pos));
                },
            };
            if self.pos <= start {
                return Err(BuildError::Syntax(self.pos));
            }
            items.push(item);
        }
    }
}

/// The names a program declares, with their full paths, and its `use` declarations:
/// the module each stands in, the name it introduces there and the path it names.
#[derive(Debug)]
pub struct Scope {
    pub decls: Vec<(Vec<String>, ItemKind)>,
    pub uses: Vec<(Vec<String>, String, Vec<String>)>,
}

/// The text of each segment of a path.
pub open spec fn segments(p: Seq<String>) -> Seq<Seq<char>> {
    p.map_values(|s: String| s@)
}

fn same_path(a: &Vec<String>, b: &Vec<String>) -> (r: bool)
    ensures
        r == (segments(a@) == segments(b@)),
{
    proof {
        if segments(a@) == segments(b@) {
            assert(segments(a@).len() == a@.len());
        }
    }
    if a.len() != b.len() {
        return false;
    }
    let mut i: usize = 0;
    while i < a.len()
        invariant
            0 <= i <= a@.len(),
            a@.len() == b@.len(),
            forall|j: int| 0 <= j < i ==> (#[trigger] a@[j])@ == b@[j]@,
        decreases a@.len() - i,
    {
        if a[i] != b[i] {
            assert(segments(a@)[i as int] != segments(b@)[i as int]);
            return false;
        }
        i += 1;
    }
    assert(segments(a@) =~= segments(b@));
    true
}

fn copy_path(p: &Vec<String>, n: usize) -> (r: Vec<String>)
    requires
        n <= p@.len(),
    ensures
        segments(r@) == segments(p@.subrange(0, n as int)),
{
    let mut r: Vec<String> = Vec::new();
    let mut i: usize = 0;
    while i < n
        invariant
            0 <= i <= n <= p@.len(),
            segments(r@) == segments(p@.subrange(0, i as int)),
        decreases n - i,
    {
        let ghost before = r@;
        let seg = p[i].clone();
        assert(seg@ == p@[i as int]@);
        r.push(seg);
        assert(segments(r@) =~= segments(before).push(p@[i as int]@));
        assert(segments(p@.subrange(0, i + 1)) =~= segments(p@.subrange(0, i as int)).push(p@[i as int]@));
        i += 1;
    }
    r
}

/// `a` followed by the segments of `b` from `from` on.
fn joined(a: &Vec<String>, b: &Vec<String>, from: usize) -> (r: Vec<String>)
    requires
        from <= b@.len(),
    ensures
        segments(r@) == segments(a@) + segments(b@.subrange(from as int, b@.len() as int)),
{
    let mut r = copy_path(a, a.len());
    assert(a@.subrange(0, a@.len() as int) =~= a@);
    let mut i: usize = from;
    while i < b.len()
        invariant
            from <= i <= b@.len(),
            segments(r@) == segments(a@) + segments(b@.subrange(from as int, i as int)),
        decreases b@.len() - i,
    {
        let ghost before = r@;
        let seg = b[i].clone();
        assert(seg@ == b@[i as int]@);
        r.push(seg);
        assert(segments(r@) =~= segments(before).push(b@[i as int]@));
        assert(segments(b@.subrange(from as int, i + 1)) =~= segments(b@.subrange(from as int, i as int)).push(b@[i as int]@));
        assert(segments(r@) =~= segments(a@) + segments(b@.subrange(from as int, i + 1)));
        i += 1;
    }
    r
}

/// Whether `prefix` followed by `last` begins `path`.
fn starts_with(path: &Vec<String>, prefix: &Vec<String>, last: &String) -> (r: bool)
    ensures
        r ==> path@.len() > prefix@.len(),
{
    if path.len() <= prefix.len() {
        return false;
    }
    let mut i: usize = 0;
    while i < prefix.len()
        invariant
            0 <= i <= prefix@.len(),
            prefix@.len() < path@.len(),
        decreases prefix@.len() - i,
    {
        if path[i] != prefix[i] {
            return false;
        }
        i += 1;
    }
    path[prefix.len()] == *last
}

impl Scope {
    /// Whether a path with these segments is declared.
    pub open spec fn declares(&self, path: Seq<Seq<char>>) -> bool {
        exists|i: int| 0 <= i < self.decls@.len() && segments(#[trigger] self.decls@[i].0@) == path
    }

    fn declared(&self, path: &Vec<String>) -> (r: bool)
        ensures
            r == self.declares(segments(path@)),
    {
        let mut i: usize = 0;
        while i < self.decls.len()
            invariant
                0 <= i <= self.decls@.len(),
                forall|j: int| 0 <= j < i ==> segments(#[trigger] self.decls@[j].0@) != segments(path@),
            decreases self.decls@.len() - i,
        {
            if same_path(&self.decls[i].0, path) {
                return true;
            }
            i += 1;
        }
        false
    }

    /// Whether `path`, written in module `module`, names something: relative to the
    /// module or to one of its ancestors, directly or through `use` declarations, which
    /// it follows at most `fuel` deep. A path declared relative to the module or an
    /// ancestor always resolves.
    pub fn resolves(&self, module: &Vec<String>, path: &Vec<String>, fuel: usize) -> (r: bool)
        ensures
            (exists|k: int| 0 <= k <= module@.len()
                && self.declares(#[trigger] segments(module@.subrange(0, k)) + segments(path@))) ==> r,
        decreases fuel,
    {
        let mut k: usize = module.len();
        loop
            invariant
                k <= module@.len(),
                forall|k2: int| k < k2 <= module@.len()
                    ==> !self.declares(#[trigger] segments(module@.subrange(0, k2)) + segments(path@)),
            decreases k,
        {
            let base = copy_path(module, k);
            let candidate = joined(&base, path, 0);
            assert(path@.subrange(0, path@.len() as int) =~= path@);
            if self.declared(&candidate) {
                return true;
            }
            if fuel > 0 {
                let mut u: usize = 0;
                while u < self.uses.len()
                    invariant
                        0 <= u <= self.uses@.len(),
                        fuel > 0,
                    decreases self.uses@.len() - u,
                {
                    let (umod, alias, target) = &self.uses[u];
                    if starts_with(&candidate, umod, alias) {
                        let clen = candidate.len();
                        let ulen = umod.len();
                        assert(ulen < clen);
                        let rest = joined(target, &candidate, ulen + 1);
                        if self.resolves(umod, &rest, fuel - 1) {
                            return true;
                        }
                    }
                    u += 1;
                }
            }
            if k == 0 {
                assert forall|k2: int| 0 <= k2 <= module@.len()
                    implies !self.declares(#[trigger] segments(module@.subrange(0, k2)) + segments(path@)) by {
                }
                return false;
            }
            k = k - 1;
        }
    }
}

/// Records the declarations and `use` declarations of `items`, standing in `module`.
fn collect(items: &Vec<Item>, module: &Vec<String>, scope: &mut Scope)
    decreases items@, 1int,
{
    let mut i: usize = 0;
    while i < items.len()
        invariant
            0 <= i <= items@.len(),
        decreases items@.len() - i,
    {
        match &items[i] {
            Item::Module(name, inner) => {
                let mut path = copy_path(module, module.len());
                path.push(name.clone());
                scope.decls.push((copy_path(&path, path.len()), ItemKind::Module));
                proof { assert(decreases_to!(items@ => items@[i as int]->Module_1)); }
                collect(inner, &path, scope);
            },
            Item::Use(target, alias) => {
                scope.uses.push((copy_path(module, module.len()), alias.clone(), copy_path(target, target.len())));
            },
            Item::Unit { name, .. } => {
                let mut path = copy_path(module, module.len());
                path.push(name.clone());
                scope.decls.push((path, ItemKind::Unit));
            },
            Item::Struct(name, _) => {
                let mut path = copy_path(module, module.len());
                path.push(name.clone());
                scope.decls.push((path, ItemKind::Type));
            },
            Item::Enum(name, variants) => {
                let mut path = copy_path(module, module.len());
                path.push(name.clone());
                let mut v: usize = 0;
                while v < variants.len()
                    invariant
                        0 <= v <= variants@.len(),
                    decreases variants@.len() - v,
                {
                    let mut vpath = copy_path(&path, path.len());
                    vpath.push(variants[v].0.clone());
                    scope.decls.push((vpath, ItemKind::Variant));
                    v += 1;
                }
                scope.decls.push((path, ItemKind::Type));
            },
            Item::Impl(_, _) => {},
        }
        i += 1;
    }
}

fn is_builtin_type(name: &String) -> bool {
    word_is(name, "int") || word_is(name, "uint") || word_is(name, "bool") || word_is(name, "clock")
        || word_is(name, "bit") || word_is(name, "memory") || word_is(name, "inout")
}

/// Checks that a type names a built-in or declared type, as do its arguments.
fn check_type(scope: &Scope, module: &Vec<String>, t: &TypeRef) -> (r: Result<(), BuildError>)
    decreases *t,
{
    let builtin = t.path.len() == 1 && is_builtin_type(&t.path[0]);
    if !builtin && !scope.resolves(module, &t.path, scope.uses.len()) {
        return Err(BuildError::Unresolved(copy_path(&t.path, t.path.len())));
    }
    let mut i: usize = 0;
    while i < t.args.len()
        invariant
            0 <= i <= t.args@.len(),
        decreases t.args@.len() - i,
    {
        match &t.args[i] {
            TypeArg::Integer(_) => {},
            TypeArg::Type(inner) => {
                proof { assert(decreases_to!(*t => t.args@[i as int]->Type_0)); }
                check_type(scope, module, inner)?;
            },
        }
        i += 1;
    }
    Ok(())
}

fn contains_name(names: &Vec<String>, name: &String) -> bool {
    let mut i: usize = 0;
    while i < names.len()
        invariant
            0 <= i <= names@.len(),
        decreases names@.len() - i,
    {
        if names[i] == *name {
            return true;
        }
        i += 1;
    }
    false
}

/// Checks that every name an expression uses is a local variable or resolves.
fn check_expr(scope: &Scope, module: &Vec<String>, locals: &Vec<String>, e: &Expr) -> (r: Result<(), BuildError>)
    decreases *e, 0int,
{
    match e {
        Expr::Integer(_) => Ok(()),
        Expr::Bool(_) => Ok(()),
        Expr::Path(p) => {
            if p.len() == 1 && contains_name(locals, &p[0]) {
                Ok(())
            } else if scope.resolves(module, p, scope.uses.len()) {
                Ok(())
            } else {
                Err(BuildError::Unresolved(copy_path(p, p.len())))
            }
        },
        Expr::Call(p, args) | Expr::Instance(p, args) => {
            if !scope.resolves(module, p, scope.uses.len()) {
                return Err(BuildError::Unresolved(copy_path(p, p.len())));
            }
            check_exprs(scope, module, locals, args)
        },
        Expr::Field(inner, _) => check_expr(scope, module, locals, inner),
        Expr::Method(inner, _, args) => {
            check_expr(scope, module, locals, inner)?;
            check_exprs(scope, module, locals, args)
        },
        Expr::Binary(l, r) => {
            check_expr(scope, module, locals, l)?;
            check_expr(scope, module, locals, r)
        },
        Expr::Block(bindings, result) => {
            let mut scope_locals = copy_path(locals, locals.len());
            let mut i: usize = 0;
            while i < bindings.len()
                invariant
                    0 <= i <= bindings@.len(),
                    *e == Expr::Block(*bindings, *result),
                decreases bindings@.len() - i,
            {
                let (name, ty, value) = &bindings[i];
                match ty {
                    Some(t) => check_type(scope, module, t)?,
                    None => {},
                }
                proof {
                    assert(decreases_to!(*e => e->Block_0));
                    assert(decreases_to!(e->Block_0 => e->Block_0@));
                    assert(decreases_to!(e->Block_0@ => e->Block_0@[i as int]));
                    assert(decreases_to!(e->Block_0@[i as int] => e->Block_0@[i as int].2));
                }
                check_expr(scope, module, &scope_locals, value)?;
                scope_locals.push(name.clone());
                i += 1;
            }
            match result {
                Some(r) => check_expr(scope, module, &scope_locals, r),
                None => Ok(()),
            }
        },
    }
}

fn check_exprs(scope: &Scope, module: &Vec<String>, locals: &Vec<String>, es: &Vec<Expr>) -> (r: Result<(), BuildError>)
    decreases es@, 1int,
{
    let mut i: usize = 0;
    while i < es.len()
        invariant
            0 <= i <= es@.len(),
        decreases es@.len() - i,
    {
        proof { assert(decreases_to!(es@ => es@[i as int])); }
        check_expr(scope, module, locals, &es[i])?;
        i += 1;
    }
    Ok(())
}

/// Checks the names used by `items`, standing in `module`.
fn check_items(scope: &Scope, module: &Vec<String>, items: &Vec<Item>) -> (r: Result<(), BuildError>)
    decreases items@, 1int,
{
    let mut i: usize = 0;
    while i < items.len()
        invariant
            0 <= i <= items@.len(),
        decreases items@.len() - i,
    {
        match &items[i] {
            Item::Module(name, inner) => {
                let mut path = copy_path(module, module.len());
                path.push(name.clone());
                proof { assert(decreases_to!(items@ => items@[i as int]->Module_1)); }
                check_items(scope, &path, inner)?;
            },
            Item::Use(target, _) => {
                if !scope.resolves(module, target, scope.uses.len()) {
                    return Err(BuildError::Unresolved(copy_path(target, target.len())));
                }
            },
            Item::Unit { params, output, body, .. } => {
                let mut locals: Vec<String> = Vec::new();
                let mut p: usize = 0;
                while p < params.len()
                    invariant
                        0 <= p <= params@.len(),
                    decreases params@.len() - p,
                {
                    match &params[p].1 {
                        Some(t) => check_type(scope, module, t)?,
                        None => {},
                    }
                    locals.push(params[p].0.clone());
                    p += 1;
                }
                match output {
                    Some(t) => check_type(scope, module, t)?,
                    None => {},
                }
                check_expr(scope, module, &locals, body)?;
            },
            Item::Struct(_, fields) => {
                let mut f: usize = 0;
                while f < fields.len()
                    invariant
                        0 <= f <= fields@.len(),
                    decreases fields@.len() - f,
                {
                    check_type(scope, module, &fields[f].1)?;
                    f += 1;
                }
            },
            Item::Enum(_, variants) => {
                let mut v: usize = 0;
                while v < variants.len()
                    invariant
                        0 <= v <= variants@.len(),
                    decreases variants@.len() - v,
                {
                    let mut f: usize = 0;
                    while f < variants[v].1.len()
                        invariant
                            0 <= f <= variants@[v as int].1@.len(),
                            v < variants@.len(),
                        decreases variants@[v as int].1@.len() - f,
                    {
                        check_type(scope, module, &variants[v].1[f].1)?;
                        f += 1;
                    }
                    v += 1;
                }
            },
            Item::Impl(target, inner) => {
                let mut target_path: Vec<String> = Vec::new();
                target_path.push(target.clone());
                if !scope.resolves(module, &target_path, scope.uses.len()) {
                    return Err(BuildError::Unresolved(target_path));
                }
                proof { assert(decreases_to!(items@ => items@[i as int]->Impl_1)); }
                check_items(scope, module, inner)?;
            },
        }
        i += 1;
    }
    Ok(())
}

/// How deep the checker follows nested items, types and expressions.
pub const MAX_DEPTH: usize = 64;

/// Reads the items of a program and checks that every name they use resolves: through
/// modules, `use` declarations (also renaming and chained ones), types, enum variants
/// and local variables. Method calls are accepted whatever their receiver.
pub fn build_items(code: &str) -> (r: Result<Vec<Item>, BuildError>) {
    let tokens = tokenize(code)?;
    let mut parser = Parser { tokens, pos: 0 };
    let items = parser.parse_items(MAX_DEPTH, false)?;
    let mut scope = Scope { decls: Vec::new(), uses: Vec::new() };
    let root: Vec<String> = Vec::new();
    collect(&items, &root, &mut scope);
    check_items(&scope, &root, &items)?;
    Ok(items)
}

} // verus!
