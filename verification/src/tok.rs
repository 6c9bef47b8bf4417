//! The token model: a closed tagged union of lexical categories, the closed
//! enumerations of operators and keywords, and the classification functions
//! that map maximal-munch candidate strings to them.

use vstd::prelude::*;

use crate::chars::{builtin_type_text, keyword_text};

verus! {

#[derive(Clone, Copy, PartialEq, Eq, Structural, Debug)]
pub enum Operator {
    Power,
    Shr,
    Shl,
    Star,
    Div,
    Mod,
    BXor,
    BOr,
    Add,
    Inc,
    Sub,
    Dec,
    Lt,
    Gt,
    Le,
    Ge,
    Eq,
    Ne,
    And,
    Xor,
    Or,
    Assign,
    AShl,
    AShr,
    AMul,
    ADiv,
    ABAnd,
    ABOr,
    ABXor,
    AAdd,
    ASub,
    Not,
    Amp,
    ThinArrow,
    ThickArrow,
    Optional,
    MemberAccess,
}

#[derive(Clone, Copy, PartialEq, Eq, Structural, Debug)]
pub enum Keyword {
    If,
    Else,
    While,
    For,
    Return,
    Type,
    Static,
    OneOf,
    When,
    In,
    Nil,
    False,
    True,
}

#[derive(Clone, Copy, PartialEq, Eq, Structural, Debug)]
pub enum Whitespace {
    Newline,
}

#[derive(Debug, PartialEq)]
pub enum Token {
    Signed(i64),
    Unsigned(u64),
    Float(String),
    String(String),
    Identifier(String),
    TypeIdent(String),
    Operator(Operator),
    Keyword(Keyword),
    SingleLineComment(String),
    MultiLineComment(String),
    Whitespace(Whitespace),
    NOP,
    Comma,
    Semicolon,
    Colon,
    OpenCurly,
    CloseCurly,
    OpenParen,
    CloseParen,
    OpenSquare,
    CloseSquare,
}

/// The mathematical value of a `Token`: text payloads as character sequences.
pub enum TokenV {
    Signed(i64),
    Unsigned(u64),
    Float(Seq<char>),
    Str(Seq<char>),
    Identifier(Seq<char>),
    TypeIdent(Seq<char>),
    Operator(Operator),
    Keyword(Keyword),
    SingleLineComment(Seq<char>),
    MultiLineComment(Seq<char>),
    Whitespace(Whitespace),
    NOP,
    Comma,
    Semicolon,
    Colon,
    OpenCurly,
    CloseCurly,
    OpenParen,
    CloseParen,
    OpenSquare,
    CloseSquare,
}

impl View for Token {
    type V = TokenV;

    open spec fn view(&self) -> TokenV {
        match self {
            Token::Signed(x) => TokenV::Signed(*x),
            Token::Unsigned(x) => TokenV::Unsigned(*x),
            Token::Float(s) => TokenV::Float(s@),
            Token::String(s) => TokenV::Str(s@),
            Token::Identifier(s) => TokenV::Identifier(s@),
            Token::TypeIdent(s) => TokenV::TypeIdent(s@),
            Token::Operator(op) => TokenV::Operator(*op),
            Token::Keyword(kw) => TokenV::Keyword(*kw),
            Token::SingleLineComment(s) => TokenV::SingleLineComment(s@),
            Token::MultiLineComment(s) => TokenV::MultiLineComment(s@),
            Token::Whitespace(w) => TokenV::Whitespace(*w),
            Token::NOP => TokenV::NOP,
            Token::Comma => TokenV::Comma,
            Token::Semicolon => TokenV::Semicolon,
            Token::Colon => TokenV::Colon,
            Token::OpenCurly => TokenV::OpenCurly,
            Token::CloseCurly => TokenV::CloseCurly,
            Token::OpenParen => TokenV::OpenParen,
            Token::CloseParen => TokenV::CloseParen,
            Token::OpenSquare => TokenV::OpenSquare,
            Token::CloseSquare => TokenV::CloseSquare,
        }
    }
}

impl Clone for Token {
    fn clone(&self) -> (r: Token)
        ensures
            r == *self,
    {
        match self {
            Token::Signed(x) => Token::Signed(*x),
            Token::Unsigned(x) => Token::Unsigned(*x),
            Token::Float(s) => Token::Float(s.clone()),
            Token::String(s) => Token::String(s.clone()),
            Token::Identifier(s) => Token::Identifier(s.clone()),
            Token::TypeIdent(s) => Token::TypeIdent(s.clone()),
            Token::Operator(op) => Token::Operator(*op),
            Token::Keyword(kw) => Token::Keyword(*kw),
            Token::SingleLineComment(s) => Token::SingleLineComment(s.clone()),
            Token::MultiLineComment(s) => Token::MultiLineComment(s.clone()),
            Token::Whitespace(w) => Token::Whitespace(*w),
            Token::NOP => Token::NOP,
            Token::Comma => Token::Comma,
            Token::Semicolon => Token::Semicolon,
            Token::Colon => Token::Colon,
            Token::OpenCurly => Token::OpenCurly,
            Token::CloseCurly => Token::CloseCurly,
            Token::OpenParen => Token::OpenParen,
            Token::CloseParen => Token::CloseParen,
            Token::OpenSquare => Token::OpenSquare,
            Token::CloseSquare => Token::CloseSquare,
        }
    }
}

impl Token {
    /// The operator carried by an operator token. The caller must know the
    /// token is one; a non-operator token is excluded by precondition.
    pub fn expect_operator(self) -> (r: Operator)
        requires
            self is Operator,
        ensures
            self == Token::Operator(r),
    {
        match self {
            Token::Operator(op) => op,
            _ => unreached(),
        }
    }

    /// The keyword carried by a keyword token. The caller must know the
    /// token is one; a non-keyword token is excluded by precondition.
    pub fn expect_keyword(self) -> (r: Keyword)
        requires
            self is Keyword,
        ensures
            self == Token::Keyword(r),
    {
        match self {
            Token::Keyword(kw) => kw,
            _ => unreached(),
        }
    }
}

/// The operator named by a maximal-munch candidate, if the candidate is one
/// of the valid spellings.
pub open spec fn operator_of(s: Seq<char>) -> Option<Operator> {
    if s == "`"@ {
        Some(Operator::Power)
    } else if s == ">>"@ {
        Some(Operator::Shr)
    } else if s == "<<"@ {
        Some(Operator::Shl)
    } else if s == "*"@ {
        Some(Operator::Star)
    } else if s == "/"@ {
        Some(Operator::Div)
    } else if s == "%"@ {
        Some(Operator::Mod)
    } else if s == "^"@ {
        Some(Operator::BXor)
    } else if s == "|"@ {
        Some(Operator::BOr)
    } else if s == "+"@ {
        Some(Operator::Add)
    } else if s == "++"@ {
        Some(Operator::Inc)
    } else if s == "-"@ {
        Some(Operator::Sub)
    } else if s == "--"@ {
        Some(Operator::Dec)
    } else if s == "<"@ {
        Some(Operator::Lt)
    } else if s == ">"@ {
        Some(Operator::Gt)
    } else if s == "<="@ {
        Some(Operator::Le)
    } else if s == ">="@ {
        Some(Operator::Ge)
    } else if s == "=="@ {
        Some(Operator::Eq)
    } else if s == "!="@ {
        Some(Operator::Ne)
    } else if s == "&&"@ {
        Some(Operator::And)
    } else if s == "^^"@ {
        Some(Operator::Xor)
    } else if s == "||"@ {
        Some(Operator::Or)
    } else if s == "="@ {
        Some(Operator::Assign)
    } else if s == "<<="@ {
        Some(Operator::AShl)
    } else if s == ">>="@ {
        Some(Operator::AShr)
    } else if s == "*="@ {
        Some(Operator::AMul)
    } else if s == "/="@ {
        Some(Operator::ADiv)
    } else if s == "&="@ {
        Some(Operator::ABAnd)
    } else if s == "|="@ {
        Some(Operator::ABOr)
    } else if s == "^="@ {
        Some(Operator::ABXor)
    } else if s == "+="@ {
        Some(Operator::AAdd)
    } else if s == "-="@ {
        Some(Operator::ASub)
    } else if s == "!"@ {
        Some(Operator::Not)
    } else if s == "&"@ {
        Some(Operator::Amp)
    } else if s == "->"@ {
        Some(Operator::ThinArrow)
    } else if s == "=>"@ {
        Some(Operator::ThickArrow)
    } else if s == "?"@ {
        Some(Operator::Optional)
    } else if s == "."@ {
        Some(Operator::MemberAccess)
    } else {
        None
    }
}

impl Operator {
    /// Classification of a candidate string against the operator whitelist.
    pub fn from_text(s: &String) -> (r: Option<Operator>)
        ensures
            r == operator_of(s@),
    {
        let t = s.as_str();
        if crate::chars::str_eq(t, "`") {
            Some(Operator::Power)
        } else if crate::chars::str_eq(t, ">>") {
            Some(Operator::Shr)
        } else if crate::chars::str_eq(t, "<<") {
            Some(Operator::Shl)
        } else if crate::chars::str_eq(t, "*") {
            Some(Operator::Star)
        } else if crate::chars::str_eq(t, "/") {
            Some(Operator::Div)
        } else if crate::chars::str_eq(t, "%") {
            Some(Operator::Mod)
        } else if crate::chars::str_eq(t, "^") {
            Some(Operator::BXor)
        } else if crate::chars::str_eq(t, "|") {
            Some(Operator::BOr)
        } else if crate::chars::str_eq(t, "+") {
            Some(Operator::Add)
        } else if crate::chars::str_eq(t, "++") {
            Some(Operator::Inc)
        } else if crate::chars::str_eq(t, "-") {
            Some(Operator::Sub)
        } else if crate::chars::str_eq(t, "--") {
            Some(Operator::Dec)
        } else if crate::chars::str_eq(t, "<") {
            Some(Operator::Lt)
        } else if crate::chars::str_eq(t, ">") {
            Some(Operator::Gt)
        } else if crate::chars::str_eq(t, "<=") {
            Some(Operator::Le)
        } else if crate::chars::str_eq(t, ">=") {
            Some(Operator::Ge)
        } else if crate::chars::str_eq(t, "==") {
            Some(Operator::Eq)
        } else if crate::chars::str_eq(t, "!=") {
            Some(Operator::Ne)
        } else if crate::chars::str_eq(t, "&&") {
            Some(Operator::And)
        } else if crate::chars::str_eq(t, "^^") {
            Some(Operator::Xor)
        } else if crate::chars::str_eq(t, "||") {
            Some(Operator::Or)
        } else if crate::chars::str_eq(t, "=") {
            Some(Operator::Assign)
        } else if crate::chars::str_eq(t, "<<=") {
            Some(Operator::AShl)
        } else if crate::chars::str_eq(t, ">>=") {
            Some(Operator::AShr)
        } else if crate::chars::str_eq(t, "*=") {
            Some(Operator::AMul)
        } else if crate::chars::str_eq(t, "/=") {
            Some(Operator::ADiv)
        } else if crate::chars::str_eq(t, "&=") {
            Some(Operator::ABAnd)
        } else if crate::chars::str_eq(t, "|=") {
            Some(Operator::ABOr)
        } else if crate::chars::str_eq(t, "^=") {
            Some(Operator::ABXor)
        } else if crate::chars::str_eq(t, "+=") {
            Some(Operator::AAdd)
        } else if crate::chars::str_eq(t, "-=") {
            Some(Operator::ASub)
        } else if crate::chars::str_eq(t, "!") {
            Some(Operator::Not)
        } else if crate::chars::str_eq(t, "&") {
            Some(Operator::Amp)
        } else if crate::chars::str_eq(t, "->") {
            Some(Operator::ThinArrow)
        } else if crate::chars::str_eq(t, "=>") {
            Some(Operator::ThickArrow)
        } else if crate::chars::str_eq(t, "?") {
            Some(Operator::Optional)
        } else if crate::chars::str_eq(t, ".") {
            Some(Operator::MemberAccess)
        } else {
            None
        }
    }
}

/// The keyword named by an identifier candidate, if it is a reserved word.
pub open spec fn keyword_of(s: Seq<char>) -> Option<Keyword> {
    if s == "if"@ {
        Some(Keyword::If)
    } else if s == "else"@ {
        Some(Keyword::Else)
    } else if s == "while"@ {
        Some(Keyword::While)
    } else if s == "for"@ {
        Some(Keyword::For)
    } else if s == "return"@ {
        Some(Keyword::Return)
    } else if s == "type"@ {
        Some(Keyword::Type)
    } else if s == "static"@ {
        Some(Keyword::Static)
    } else if s == "oneof"@ {
        Some(Keyword::OneOf)
    } else if s == "when"@ {
        Some(Keyword::When)
    } else if s == "in"@ {
        Some(Keyword::In)
    } else if s == "nil"@ {
        Some(Keyword::Nil)
    } else if s == "false"@ {
        Some(Keyword::False)
    } else if s == "true"@ {
        Some(Keyword::True)
    } else {
        None
    }
}

/// A reserved word is exactly a candidate the keyword classification accepts.
pub proof fn lemma_keyword_of_text(s: Seq<char>)
    ensures
        keyword_of(s) is Some <==> keyword_text(s),
{
}

impl Keyword {
    /// Classification of an identifier candidate against the reserved words.
    pub fn from_text(s: &String) -> (r: Option<Keyword>)
        ensures
            r == keyword_of(s@),
    {
        let t = s.as_str();
        if crate::chars::str_eq(t, "if") {
            Some(Keyword::If)
        } else if crate::chars::str_eq(t, "else") {
            Some(Keyword::Else)
        } else if crate::chars::str_eq(t, "while") {
            Some(Keyword::While)
        } else if crate::chars::str_eq(t, "for") {
            Some(Keyword::For)
        } else if crate::chars::str_eq(t, "return") {
            Some(Keyword::Return)
        } else if crate::chars::str_eq(t, "type") {
            Some(Keyword::Type)
        } else if crate::chars::str_eq(t, "static") {
            Some(Keyword::Static)
        } else if crate::chars::str_eq(t, "oneof") {
            Some(Keyword::OneOf)
        } else if crate::chars::str_eq(t, "when") {
            Some(Keyword::When)
        } else if crate::chars::str_eq(t, "in") {
            Some(Keyword::In)
        } else if crate::chars::str_eq(t, "nil") {
            Some(Keyword::Nil)
        } else if crate::chars::str_eq(t, "false") {
            Some(Keyword::False)
        } else if crate::chars::str_eq(t, "true") {
            Some(Keyword::True)
        } else {
            None
        }
    }
}

/// The punctuation token for a punctuation character.
pub open spec fn punct_of(c: char) -> Option<TokenV> {
    if c == ',' {
        Some(TokenV::Comma)
    } else if c == ';' {
        Some(TokenV::Semicolon)
    } else if c == ':' {
        Some(TokenV::Colon)
    } else if c == '{' {
        Some(TokenV::OpenCurly)
    } else if c == '}' {
        Some(TokenV::CloseCurly)
    } else if c == '(' {
        Some(TokenV::OpenParen)
    } else if c == ')' {
        Some(TokenV::CloseParen)
    } else if c == '[' {
        Some(TokenV::OpenSquare)
    } else if c == ']' {
        Some(TokenV::CloseSquare)
    } else {
        None
    }
}

/// A punctuation character always classifies to a punctuation token.
pub proof fn lemma_punct_total(c: char)
    ensures
        crate::chars::punctuation(c) <==> punct_of(c) is Some,
{
}

} // verus!
