use vstd::prelude::*;
use vstd::std_specs::iter::IteratorSpec;

use crate::text::push_char;

verus! {

broadcast use vstd::string::axiom_spec_iter, vstd::string::next_postcondition;

/// The kinds of tokens of the language.
#[derive(Debug, PartialEq, Clone)]
pub enum TokenKind {
    Identifier(String),
    Integer(u128),
    True,
    False,
    Reg,
    Let,
    Decl,
    Instance,
    Reset,
    If,
    Else,
    Match,
    Pipeline,
    Stage,
    Entity,
    Trait,
    Function,
    Enum,
    Plus,
    Minus,
    Asterisk,
    Slash,
    Equals,
    Lt,
    Gt,
    RightShift,
    LeftShift,
    LogicalOr,
    LogicalAnd,
    BitwiseAnd,
    BitwiseOr,
    Not,
    Assignment,
    OpenParen,
    CloseParen,
    OpenBrace,
    CloseBrace,
    OpenBracket,
    CloseBracket,
    FatArrow,
    SlimArrow,
    Comma,
    Dot,
    Semi,
    Colon,
    PathSeparator,
    Hash,
    Dollar,
    /// Whitespace, which the lexer skips.
    Whitespace,
    /// A line comment, which the lexer skips.
    Comment,
    /// A character that starts no token, or an integer literal out of range.
    Error,
}

impl TokenKind {
    pub open spec fn spec_as_str(&self) -> Seq<char> {
        match self {
            TokenKind::Identifier(_) => "identifier"@,
            TokenKind::Integer(_) => "integer"@,
            TokenKind::True => "true"@,
            TokenKind::False => "false"@,
            TokenKind::Let => "let"@,
            TokenKind::Reg => "reg"@,
            TokenKind::Decl => "decl"@,
            TokenKind::Entity => "entity"@,
            TokenKind::Pipeline => "pipeline"@,
            TokenKind::Stage => "stage"@,
            TokenKind::Instance => "inst"@,
            TokenKind::Reset => "reset"@,
            TokenKind::If => "if"@,
            TokenKind::Else => "else"@,
            TokenKind::Match => "match"@,
            TokenKind::Trait => "trait"@,
            TokenKind::Function => "fn"@,
            TokenKind::Enum => "enum"@,
            TokenKind::Assignment => "="@,
            TokenKind::Plus => "+"@,
            TokenKind::Minus => "-"@,
            TokenKind::Asterisk => "*"@,
            TokenKind::Slash => "/"@,
            TokenKind::Equals => "=="@,
            TokenKind::Lt => "<"@,
            TokenKind::Gt => ">"@,
            TokenKind::LeftShift => "<<"@,
            TokenKind::RightShift => ">>"@,
            TokenKind::LogicalOr => "||"@,
            TokenKind::LogicalAnd => "&&"@,
            TokenKind::BitwiseAnd => "&"@,
            TokenKind::BitwiseOr => "|"@,
            TokenKind::Not => "!"@,
            TokenKind::OpenParen => "("@,
            TokenKind::CloseParen => ")"@,
            TokenKind::OpenBrace => "{"@,
            TokenKind::CloseBrace => "}"@,
            TokenKind::OpenBracket => "["@,
            TokenKind::CloseBracket => "]"@,
            TokenKind::FatArrow => "=>"@,
            TokenKind::SlimArrow => "->"@,
            TokenKind::Semi => ";"@,
            TokenKind::Colon => ":"@,
            TokenKind::Comma => ","@,
            TokenKind::Dot => "."@,
            TokenKind::PathSeparator => "::"@,
            TokenKind::Hash => "#"@,
            TokenKind::Dollar => "$"@,
            TokenKind::Whitespace => "whitespace"@,
            TokenKind::Comment => "comment"@,
            TokenKind::Error => "error"@,
        }
    }

    /// A short description of the token kind, for messages.
    pub fn as_str(&self) -> (r: &'static str)
        ensures
            r@ == self.spec_as_str(),
    {
        match self {
            TokenKind::Identifier(_) => "identifier",
            TokenKind::Integer(_) => "integer",
            TokenKind::True => "true",
            TokenKind::False => "false",
            TokenKind::Let => "let",
            TokenKind::Reg => "reg",
            TokenKind::Decl => "decl",
            TokenKind::Entity => "entity",
            TokenKind::Pipeline => "pipeline",
            TokenKind::Stage => "stage",
            TokenKind::Instance => "inst",
            TokenKind::Reset => "reset",
            TokenKind::If => "if",
            TokenKind::Else => "else",
            TokenKind::Match => "match",
            TokenKind::Trait => "trait",
            TokenKind::Function => "fn",
            TokenKind::Enum => "enum",
            TokenKind::Assignment => "=",
            TokenKind::Plus => "+",
            TokenKind::Minus => "-",
            TokenKind::Asterisk => "*",
            TokenKind::Slash => "/",
            TokenKind::Equals => "==",
            TokenKind::Lt => "<",
            TokenKind::Gt => ">",
            TokenKind::LeftShift => "<<",
            TokenKind::RightShift => ">>",
            TokenKind::LogicalOr => "||",
            TokenKind::LogicalAnd => "&&",
            TokenKind::BitwiseAnd => "&",
            TokenKind::BitwiseOr => "|",
            TokenKind::Not => "!",
            TokenKind::OpenParen => "(",
            TokenKind::CloseParen => ")",
            TokenKind::OpenBrace => "{",
            TokenKind::CloseBrace => "}",
            TokenKind::OpenBracket => "[",
            TokenKind::CloseBracket => "]",
            TokenKind::FatArrow => "=>",
            TokenKind::SlimArrow => "->",
            TokenKind::Semi => ";",
            TokenKind::Colon => ":",
            TokenKind::Comma => ",",
            TokenKind::Dot => ".",
            TokenKind::PathSeparator => "::",
            TokenKind::Hash => "#",
            TokenKind::Dollar => "$",
            TokenKind::Whitespace => "whitespace",
            TokenKind::Comment => "comment",
            TokenKind::Error => "error",
        }
    }

    pub fn is_identifier(&self) -> (r: bool)
        ensures
            r == (*self is Identifier),
    {
        matches!(self, TokenKind::Identifier(_))
    }

    pub fn is_integer(&self) -> (r: bool)
        ensures
            r == (*self is Integer),
    {
        matches!(self, TokenKind::Integer(_))
    }

    /// A lexer over `source`.
    pub fn lexer(source: &str) -> (r: Lexer)
        ensures
            r.chars@ == source@,
            r.pos == 0,
    {
        Lexer { chars: chars_of(source), pos: 0 }
    }
}

/// The characters of a string, in order.
pub fn chars_of(source: &str) -> (r: Vec<char>)
    ensures
        r@ == source@,
{
    let mut it = source.chars();
    let mut out: Vec<char> = Vec::new();
    loop
        invariant
            it.remaining() == source@.subrange(out@.len() as int, source@.len() as int),
            out@ == source@.subrange(0, out@.len() as int),
            out@.len() <= source@.len(),
        ensures
            out@ == source@,
        decreases source@.len() - out@.len(),
    {
        let ghost before = it;
        match it.next() {
            Some(c) => {
                out.push(c);
                assert(out@ =~= source@.subrange(0, out@.len() as int));
            },
            None => {
                assert(before.remaining().len() == 0);
                assert(out@ =~= source@);
                break;
            },
        }
    }
    out
}

pub open spec fn is_whitespace(c: char) -> bool {
    c == ' ' || c == '\t' || c == '\n' || c == '\r'
}

pub open spec fn is_digit(c: char) -> bool {
    '0' <= c && c <= '9'
}

pub open spec fn is_ident_start(c: char) -> bool {
    ('a' <= c && c <= 'z') || ('A' <= c && c <= 'Z') || c == '_'
}

pub open spec fn is_ident_continue(c: char) -> bool {
    is_ident_start(c) || is_digit(c)
}

/// The position of the first newline at or after `i`, if any.
pub open spec fn newline_from(chars: Seq<char>, i: int) -> Option<int>
    decreases chars.len() - i,
{
    if i < 0 || i >= chars.len() {
        None
    } else if chars[i] == '\n' {
        Some(i)
    } else {
        newline_from(chars, i + 1)
    }
}

/// The position of the first character at or after `i` that is neither whitespace nor
/// part of a line comment. A line comment runs from `//` through the next newline; `//`
/// without a newline after it is no comment.
pub open spec fn skip_trivia(chars: Seq<char>, i: int) -> int
    decreases chars.len() - i,
{
    if i < 0 || i >= chars.len() {
        i
    } else if is_whitespace(chars[i]) {
        skip_trivia(chars, i + 1)
    } else if chars[i] == '/' && i + 1 < chars.len() && chars[i + 1] == '/' {
        match newline_from(chars, i + 2) {
            Some(nl) => if i < nl < chars.len() { skip_trivia(chars, nl + 1) } else { i },
            None => i,
        }
    } else {
        i
    }
}

/// The end of the longest run, from `i` on, of characters that satisfy `p`.
pub open spec fn run_end(chars: Seq<char>, i: int, idents: bool) -> int
    decreases chars.len() - i,
{
    if i < 0 || i >= chars.len() {
        i
    } else if (idents && is_ident_continue(chars[i])) || (!idents && (is_digit(chars[i]) || chars[i] == '_')) {
        run_end(chars, i + 1, idents)
    } else {
        i
    }
}

/// The end of an identifier whose body ends at `j`: it may carry one of the suffixes
/// `?`, `!`, `?!` and `⁈`.
pub open spec fn with_suffix(chars: Seq<char>, j: int) -> int {
    if j < chars.len() && chars[j] == '?' {
        if j + 1 < chars.len() && chars[j + 1] == '!' { j + 2 } else { j + 1 }
    } else if j < chars.len() && (chars[j] == '!' || chars[j] == '\u{2048}') {
        j + 1
    } else {
        j
    }
}

/// The keyword that a word is, if it is one.
pub open spec fn keyword_of(s: Seq<char>) -> Option<TokenKind> {
    if s == seq!['t', 'r', 'u', 'e'] {
        Some(TokenKind::True)
    } else if s == seq!['f', 'a', 'l', 's', 'e'] {
        Some(TokenKind::False)
    } else if s == seq!['r', 'e', 'g'] {
        Some(TokenKind::Reg)
    } else if s == seq!['l', 'e', 't'] {
        Some(TokenKind::Let)
    } else if s == seq!['d', 'e', 'c', 'l'] {
        Some(TokenKind::Decl)
    } else if s == seq!['i', 'n', 's', 't'] {
        Some(TokenKind::Instance)
    } else if s == seq!['r', 'e', 's', 'e', 't'] {
        Some(TokenKind::Reset)
    } else if s == seq!['i', 'f'] {
        Some(TokenKind::If)
    } else if s == seq!['e', 'l', 's', 'e'] {
        Some(TokenKind::Else)
    } else if s == seq!['m', 'a', 't', 'c', 'h'] {
        Some(TokenKind::Match)
    } else if s == seq!['p', 'i', 'p', 'e', 'l', 'i', 'n', 'e'] {
        Some(TokenKind::Pipeline)
    } else if s == seq!['s', 't', 'a', 'g', 'e'] {
        Some(TokenKind::Stage)
    } else if s == seq!['e', 'n', 't', 'i', 't', 'y'] {
        Some(TokenKind::Entity)
    } else if s == seq!['t', 'r', 'a', 'i', 't'] {
        Some(TokenKind::Trait)
    } else if s == seq!['f', 'n'] {
        Some(TokenKind::Function)
    } else if s == seq!['e', 'n', 'u', 'm'] {
        Some(TokenKind::Enum)
    } else {
        None
    }
}

/// The value of the digits in `lo..hi`, ignoring underscores, in the given radix; none
/// where a digit is out of the radix or the value does not fit 128 bits.
pub open spec fn digits_value(chars: Seq<char>, lo: int, hi: int, radix: u128) -> Option<u128>
    decreases hi - lo,
{
    if hi <= lo {
        Some(0)
    } else {
        match digits_value(chars, lo, hi - 1, radix) {
            None => None,
            Some(v) => {
                let c = chars[hi - 1];
                if c == '_' {
                    Some(v)
                } else {
                    let d = (c as u32 - '0' as u32) as int;
                    if d >= radix || v * radix + d > u128::MAX {
                        None
                    } else {
                        Some((v * radix + d) as u128)
                    }
                }
            },
        }
    }
}

/// What an integer literal at `i` reads: its end and its value, if it has one. `0x` and
/// `0b` prefixes select radix 16 and 2 where a digit follows them.
pub open spec fn integer_at(chars: Seq<char>, i: int) -> (int, Option<u128>) {
    if chars[i] == '0' && i + 2 < chars.len() && (chars[i + 1] == 'x' || chars[i + 1] == 'b')
        && is_digit(chars[i + 2]) {
        let end = run_end(chars, i + 2, false);
        (end, digits_value(chars, i + 2, end, if chars[i + 1] == 'x' { 16 } else { 2 }))
    } else {
        let end = run_end(chars, i, false);
        (end, digits_value(chars, i, end, 10))
    }
}

/// The longest operator or punctuation token at `i`, with its end.
pub open spec fn symbol_at(chars: Seq<char>, i: int) -> (TokenKind, int) {
    let c = chars[i];
    let next = if chars.len() - i > 1 { chars[i + 1] } else { ' ' };
    if c == '=' && next == '=' {
        (TokenKind::Equals, i + 2)
    } else if c == '=' && next == '>' {
        (TokenKind::FatArrow, i + 2)
    } else if c == '<' && next == '<' {
        (TokenKind::LeftShift, i + 2)
    } else if c == '>' && next == '>' {
        (TokenKind::RightShift, i + 2)
    } else if c == '|' && next == '|' {
        (TokenKind::LogicalOr, i + 2)
    } else if c == '&' && next == '&' {
        (TokenKind::LogicalAnd, i + 2)
    } else if c == '-' && next == '>' {
        (TokenKind::SlimArrow, i + 2)
    } else if c == ':' && next == ':' {
        (TokenKind::PathSeparator, i + 2)
    } else {
        (if c == '=' {
            TokenKind::Assignment
        } else if c == '<' {
            TokenKind::Lt
        } else if c == '>' {
            TokenKind::Gt
        } else if c == '|' {
            TokenKind::BitwiseOr
        } else if c == '&' {
            TokenKind::BitwiseAnd
        } else if c == '-' {
            TokenKind::Minus
        } else if c == ':' {
            TokenKind::Colon
        } else if c == '+' {
            TokenKind::Plus
        } else if c == '*' {
            TokenKind::Asterisk
        } else if c == '/' {
            TokenKind::Slash
        } else if c == '!' {
            TokenKind::Not
        } else if c == '(' {
            TokenKind::OpenParen
        } else if c == ')' {
            TokenKind::CloseParen
        } else if c == '{' {
            TokenKind::OpenBrace
        } else if c == '}' {
            TokenKind::CloseBrace
        } else if c == '[' {
            TokenKind::OpenBracket
        } else if c == ']' {
            TokenKind::CloseBracket
        } else if c == ',' {
            TokenKind::Comma
        } else if c == '.' {
            TokenKind::Dot
        } else if c == ';' {
            TokenKind::Semi
        } else if c == '#' {
            TokenKind::Hash
        } else if c == '$' {
            TokenKind::Dollar
        } else {
            TokenKind::Error
        }, i + 1)
    }
}

/// A lexer: the characters of a source and how far it has read them.
#[derive(Debug)]
pub struct Lexer {
    pub chars: Vec<char>,
    pub pos: usize,
}

/// Whether `chars[lo..hi]` spells `word`.
fn same_chars(chars: &Vec<char>, lo: usize, hi: usize, word: &Vec<char>) -> (r: bool)
    requires
        lo <= hi <= chars@.len(),
    ensures
        r == (chars@.subrange(lo as int, hi as int) == word@),
{
    if hi - lo != word.len() {
        assert(chars@.subrange(lo as int, hi as int).len() != word@.len());
        return false;
    }
    let mut k: usize = 0;
    while k < word.len()
        invariant
            0 <= k <= word@.len(),
            hi - lo == word@.len(),
            lo <= hi <= chars@.len(),
            forall|m: int| 0 <= m < k ==> chars@[lo + m] == word@[m],
        decreases word@.len() - k,
    {
        if chars[lo + k] != word[k] {
            assert(chars@.subrange(lo as int, hi as int)[k as int] != word@[k as int]);
            return false;
        }
        k += 1;
    }
    assert(chars@.subrange(lo as int, hi as int) =~= word@);
    true
}

fn newline_pos(chars: &Vec<char>, i: usize) -> (r: Option<usize>)
    ensures
        match newline_from(chars@, i as int) {
            Some(nl) => r == Some(nl as usize) && i <= nl < chars@.len(),
            None => r is None,
        },
    decreases chars@.len() - i,
{
    if i >= chars.len() {
        None
    } else if chars[i] == '\n' {
        Some(i)
    } else {
        newline_pos(chars, i + 1)
    }
}

fn skip(chars: &Vec<char>, i: usize) -> (r: usize)
    requires
        i <= chars@.len(),
    ensures
        r as int == skip_trivia(chars@, i as int),
        i <= r <= chars@.len(),
    decreases chars@.len() - i,
{
    if i >= chars.len() {
        i
    } else if chars[i] == ' ' || chars[i] == '\t' || chars[i] == '\n' || chars[i] == '\r' {
        skip(chars, i + 1)
    } else if chars[i] == '/' && i + 1 < chars.len() && chars[i + 1] == '/' {
        match newline_pos(chars, i + 2) {
            Some(nl) => skip(chars, nl + 1),
            None => i,
        }
    } else {
        i
    }
}

fn run(chars: &Vec<char>, i: usize, idents: bool) -> (r: usize)
    requires
        i <= chars@.len(),
    ensures
        r as int == run_end(chars@, i as int, idents),
        i <= r <= chars@.len(),
    decreases chars@.len() - i,
{
    if i >= chars.len() {
        return i;
    }
    let c = chars[i];
    let member = if idents {
        ('a' <= c && c <= 'z') || ('A' <= c && c <= 'Z') || c == '_' || ('0' <= c && c <= '9')
    } else {
        ('0' <= c && c <= '9') || c == '_'
    };
    if member {
        run(chars, i + 1, idents)
    } else {
        i
    }
}

fn suffix(chars: &Vec<char>, j: usize) -> (r: usize)
    requires
        j <= chars@.len(),
    ensures
        r as int == with_suffix(chars@, j as int),
        j <= r <= chars@.len(),
{
    if j < chars.len() && chars[j] == '?' {
        if j + 1 < chars.len() && chars[j + 1] == '!' { j + 2 } else { j + 1 }
    } else if j < chars.len() && (chars[j] == '!' || chars[j] == '\u{2048}') {
        j + 1
    } else {
        j
    }
}

fn parse_digits(chars: &Vec<char>, lo: usize, hi: usize, radix: u128) -> (r: Option<u128>)
    requires
        lo <= hi <= chars@.len(),
        forall|m: int| lo <= m < hi ==> is_digit(chars@[m]) || chars@[m] == '_',
        2 <= radix <= 16,
    ensures
        r == digits_value(chars@, lo as int, hi as int, radix),
{
    let mut v: u128 = 0;
    let mut k: usize = lo;
    while k < hi
        invariant
            lo <= k <= hi <= chars@.len(),
            2 <= radix <= 16,
            forall|m: int| lo <= m < hi ==> is_digit(chars@[m]) || chars@[m] == '_',
            digits_value(chars@, lo as int, k as int, radix) == Some(v),
        decreases hi - k,
    {
        let c = chars[k];
        if c != '_' {
            let d = (c as u32 - '0' as u32) as u128;
            if d >= radix {
                assert(digits_value(chars@, lo as int, k + 1, radix) is None);
                proof { lemma_none_stays(chars@, lo as int, k + 1, hi as int, radix); }
                return None;
            }
            match v.checked_mul(radix) {
                Some(m) => match m.checked_add(d) {
                    Some(n) => { v = n; },
                    None => {
                        proof { lemma_none_stays(chars@, lo as int, k + 1, hi as int, radix); }
                        return None;
                    },
                },
                None => {
                    assert(v * radix + d > u128::MAX) by (nonlinear_arith)
                        requires v * radix > u128::MAX, d >= 0;
                    proof { lemma_none_stays(chars@, lo as int, k + 1, hi as int, radix); }
                    return None;
                },
            }
        }
        k += 1;
    }
    Some(v)
}

proof fn lemma_none_stays(chars: Seq<char>, lo: int, k: int, hi: int, radix: u128)
    requires
        lo <= k <= hi,
        digits_value(chars, lo, k, radix) is None,
    ensures
        digits_value(chars, lo, hi, radix) is None,
    decreases hi - k,
{
    if k < hi {
        lemma_none_stays(chars, lo, k + 1, hi, radix);
    }
}

fn integer(chars: &Vec<char>, i: usize) -> (r: (usize, Option<u128>))
    requires
        i < chars@.len(),
        is_digit(chars@[i as int]),
    ensures
        (r.0 as int, r.1) == integer_at(chars@, i as int),
        i < r.0 <= chars@.len(),
{
    if chars[i] == '0' && chars.len() - i > 2 && (chars[i + 1] == 'x' || chars[i + 1] == 'b')
        && '0' <= chars[i + 2] && chars[i + 2] <= '9' {
        let end = run(chars, i + 2, false);
        proof {
            lemma_run_members(chars@, i + 2, false);
            lemma_run_members(chars@, i + 3, false);
        }
        let radix: u128 = if chars[i + 1] == 'x' { 16 } else { 2 };
        (end, parse_digits(chars, i + 2, end, radix))
    } else {
        let end = run(chars, i, false);
        proof {
            lemma_run_members(chars@, i as int, false);
            lemma_run_members(chars@, i + 1, false);
        }
        (end, parse_digits(chars, i, end, 10))
    }
}

proof fn lemma_run_members(chars: Seq<char>, i: int, idents: bool)
    requires
        0 <= i <= chars.len(),
    ensures
        forall|m: int| i <= m < run_end(chars, i, idents) ==>
            (idents && is_ident_continue(#[trigger] chars[m])) || (!idents && (is_digit(chars[m]) || chars[m] == '_')),
        i <= run_end(chars, i, idents) <= chars.len(),
    decreases chars.len() - i,
{
    if i < chars.len() && ((idents && is_ident_continue(chars[i])) || (!idents && (is_digit(chars[i]) || chars[i] == '_'))) {
        lemma_run_members(chars, i + 1, idents);
    }
}

fn symbol(chars: &Vec<char>, i: usize) -> (r: (TokenKind, usize))
    requires
        i < chars@.len(),
    ensures
        (r.0, r.1 as int) == symbol_at(chars@, i as int),
{
    let c = chars[i];
    let next = if chars.len() - i > 1 { chars[i + 1] } else { ' ' };
    if c == '=' && next == '=' {
        (TokenKind::Equals, i + 2)
    } else if c == '=' && next == '>' {
        (TokenKind::FatArrow, i + 2)
    } else if c == '<' && next == '<' {
        (TokenKind::LeftShift, i + 2)
    } else if c == '>' && next == '>' {
        (TokenKind::RightShift, i + 2)
    } else if c == '|' && next == '|' {
        (TokenKind::LogicalOr, i + 2)
    } else if c == '&' && next == '&' {
        (TokenKind::LogicalAnd, i + 2)
    } else if c == '-' && next == '>' {
        (TokenKind::SlimArrow, i + 2)
    } else if c == ':' && next == ':' {
        (TokenKind::PathSeparator, i + 2)
    } else {
        (if c == '=' {
            TokenKind::Assignment
        } else if c == '<' {
            TokenKind::Lt
        } else if c == '>' {
            TokenKind::Gt
        } else if c == '|' {
            TokenKind::BitwiseOr
        } else if c == '&' {
            TokenKind::BitwiseAnd
        } else if c == '-' {
            TokenKind::Minus
        } else if c == ':' {
            TokenKind::Colon
        } else if c == '+' {
            TokenKind::Plus
        } else if c == '*' {
            TokenKind::Asterisk
        } else if c == '/' {
            TokenKind::Slash
        } else if c == '!' {
            TokenKind::Not
        } else if c == '(' {
            TokenKind::OpenParen
        } else if c == ')' {
            TokenKind::CloseParen
        } else if c == '{' {
            TokenKind::OpenBrace
        } else if c == '}' {
            TokenKind::CloseBrace
        } else if c == '[' {
            TokenKind::OpenBracket
        } else if c == ']' {
            TokenKind::CloseBracket
        } else if c == ',' {
            TokenKind::Comma
        } else if c == '.' {
            TokenKind::Dot
        } else if c == ';' {
            TokenKind::Semi
        } else if c == '#' {
            TokenKind::Hash
        } else if c == '$' {
            TokenKind::Dollar
        } else {
            TokenKind::Error
        }, i + 1)
    }
}

/// Whether `r` is the token that starts at `p`, and `end` where it ends: an identifier
/// or keyword, an integer literal (an error where it has no value), or the longest
/// operator or punctuation token.
pub open spec fn token_at(chars: Seq<char>, p: int, r: TokenKind, end: int) -> bool {
    if is_ident_start(chars[p]) {
        let e = with_suffix(chars, run_end(chars, p, true));
        &&& end == e
        &&& match keyword_of(chars.subrange(p, e)) {
            Some(k) => r == k,
            None => r is Identifier && r->Identifier_0@ == chars.subrange(p, e),
        }
    } else if is_digit(chars[p]) {
        let (e, v) = integer_at(chars, p);
        &&& end == e
        &&& r == match v {
            Some(n) => TokenKind::Integer(n),
            None => TokenKind::Error,
        }
    } else {
        (r, end) == symbol_at(chars, p)
    }
}

impl Lexer {
    /// The next token, skipping whitespace and comments; `None` at the end of the source.
    pub fn next(&mut self) -> (r: Option<TokenKind>)
        requires
            old(self).pos <= old(self).chars@.len(),
        ensures
            final(self).chars@ == old(self).chars@,
            final(self).pos <= final(self).chars@.len(),
            r is Some ==> final(self).pos > old(self).pos,
            ({
                let p = skip_trivia(old(self).chars@, old(self).pos as int);
                if p >= old(self).chars@.len() {
                    r is None && final(self).pos == old(self).chars@.len()
                } else {
                    r is Some && token_at(old(self).chars@, p, r->Some_0, final(self).pos as int)
                }
            }),
    {
        let p = skip(&self.chars, self.pos);
        if p >= self.chars.len() {
            self.pos = self.chars.len();
            return None;
        }
        let c = self.chars[p];
        if ('a' <= c && c <= 'z') || ('A' <= c && c <= 'Z') || c == '_' {
            let body_end = run(&self.chars, p, true);
            proof { lemma_run_members(self.chars@, p + 1, true); }
            let end = suffix(&self.chars, body_end);
            self.pos = end;
            match keyword(&self.chars, p, end) {
                Some(k) => Some(k),
                None => {
                    let mut s = String::new();
                    let mut k: usize = p;
                    while k < end
                        invariant
                            p <= k <= end <= self.chars@.len(),
                            s@ == self.chars@.subrange(p as int, k as int),
                        decreases end - k,
                    {
                        push_char(&mut s, self.chars[k]);
                        assert(s@ =~= self.chars@.subrange(p as int, k + 1));
                        k += 1;
                    }
                    Some(TokenKind::Identifier(s))
                },
            }
        } else if '0' <= c && c <= '9' {
            let (end, value) = integer(&self.chars, p);
            self.pos = end;
            match value {
                Some(n) => Some(TokenKind::Integer(n)),
                None => Some(TokenKind::Error),
            }
        } else {
            let (kind, end) = symbol(&self.chars, p);
            self.pos = end;
            Some(kind)
        }
    }
}

fn keyword(chars: &Vec<char>, lo: usize, hi: usize) -> (r: Option<TokenKind>)
    requires
        lo <= hi <= chars@.len(),
    ensures
        r == keyword_of(chars@.subrange(lo as int, hi as int)),
{
    if same_chars(chars, lo, hi, &vec!['t', 'r', 'u', 'e']) {
        return Some(TokenKind::True);
    }
    if same_chars(chars, lo, hi, &vec!['f', 'a', 'l', 's', 'e']) {
        return Some(TokenKind::False);
    }
    if same_chars(chars, lo, hi, &vec!['r', 'e', 'g']) {
        return Some(TokenKind::Reg);
    }
    if same_chars(chars, lo, hi, &vec!['l', 'e', 't']) {
        return Some(TokenKind::Let);
    }
    if same_chars(chars, lo, hi, &vec!['d', 'e', 'c', 'l']) {
        return Some(TokenKind::Decl);
    }
    if same_chars(chars, lo, hi, &vec!['i', 'n', 's', 't']) {
        return Some(TokenKind::Instance);
    }
    if same_chars(chars, lo, hi, &vec!['r', 'e', 's', 'e', 't']) {
        return Some(TokenKind::Reset);
    }
    if same_chars(chars, lo, hi, &vec!['i', 'f']) {
        return Some(TokenKind::If);
    }
    if same_chars(chars, lo, hi, &vec!['e', 'l', 's', 'e']) {
        return Some(TokenKind::Else);
    }
    if same_chars(chars, lo, hi, &vec!['m', 'a', 't', 'c', 'h']) {
        return Some(TokenKind::Match);
    }
    if same_chars(chars, lo, hi, &vec!['p', 'i', 'p', 'e', 'l', 'i', 'n', 'e']) {
        return Some(TokenKind::Pipeline);
    }
    if same_chars(chars, lo, hi, &vec!['s', 't', 'a', 'g', 'e']) {
        return Some(TokenKind::Stage);
    }
    if same_chars(chars, lo, hi, &vec!['e', 'n', 't', 'i', 't', 'y']) {
        return Some(TokenKind::Entity);
    }
    if same_chars(chars, lo, hi, &vec!['t', 'r', 'a', 'i', 't']) {
        return Some(TokenKind::Trait);
    }
    if same_chars(chars, lo, hi, &vec!['f', 'n']) {
        return Some(TokenKind::Function);
    }
    if same_chars(chars, lo, hi, &vec!['e', 'n', 'u', 'm']) {
        return Some(TokenKind::Enum);
    }
    None
}

} // verus!
