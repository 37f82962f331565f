use vstd::prelude::*;

verus! {

/// A lexical token of a sluice program.
#[derive(Debug, PartialEq, Clone)]
pub enum Token {
    // Variants that take an argument
    Identifier(String),
    Value(u32),
    // Keywords: input, output, const, persistent, transient, snippet, and, or, not, bit,
    // packet, global, if, else, static
    Input,
    Output,
    Const,
    Persistent,
    Transient,
    Snippet,
    BooleanAnd,
    BooleanOr,
    BooleanNot,
    Bit,
    Static,
    // Separators
    Colon,
    SemiColon,
    Comma,
    Arrow,
    // Grouping operators
    ParenLeft,
    ParenRight,
    BraceLeft,
    BraceRight,
    SquareLeft,
    SquareRight,
    // Binary arithmetic operators + conditional operator
    Plus,
    Minus,
    Mul,
    Div,
    Modulo,
    Cond,
    // Comparison operators
    Equal,
    NotEqual,
    LTEQOp,
    GTEQOp,
    LessThan,
    GreaterThan,
    // Assignment
    Assign,
    // Network model
    Packet,
    Field,
    Global,
    If,
    Else,
    // Dot operator
    Dot,
    // Device annotation marker `@`
    Annotation,
}

/// The mathematical value of a token: identifiers are held as character sequences.
pub enum SpecToken {
    Identifier(Seq<char>),
    Value(u32),
    Input,
    Output,
    Const,
    Persistent,
    Transient,
    Snippet,
    BooleanAnd,
    BooleanOr,
    BooleanNot,
    Bit,
    Static,
    Colon,
    SemiColon,
    Comma,
    Arrow,
    ParenLeft,
    ParenRight,
    BraceLeft,
    BraceRight,
    SquareLeft,
    SquareRight,
    Plus,
    Minus,
    Mul,
    Div,
    Modulo,
    Cond,
    Equal,
    NotEqual,
    LTEQOp,
    GTEQOp,
    LessThan,
    GreaterThan,
    Assign,
    Packet,
    Field,
    Global,
    If,
    Else,
    Dot,
    Annotation,
}

impl View for Token {
    type V = SpecToken;

    open spec fn view(&self) -> SpecToken {
        match self {
            Token::Identifier(s) => SpecToken::Identifier(s@),
            Token::Value(v) => SpecToken::Value(*v),
            Token::Input => SpecToken::Input,
            Token::Output => SpecToken::Output,
            Token::Const => SpecToken::Const,
            Token::Persistent => SpecToken::Persistent,
            Token::Transient => SpecToken::Transient,
            Token::Snippet => SpecToken::Snippet,
            Token::BooleanAnd => SpecToken::BooleanAnd,
            Token::BooleanOr => SpecToken::BooleanOr,
            Token::BooleanNot => SpecToken::BooleanNot,
            Token::Bit => SpecToken::Bit,
            Token::Static => SpecToken::Static,
            Token::Colon => SpecToken::Colon,
            Token::SemiColon => SpecToken::SemiColon,
            Token::Comma => SpecToken::Comma,
            Token::Arrow => SpecToken::Arrow,
            Token::ParenLeft => SpecToken::ParenLeft,
            Token::ParenRight => SpecToken::ParenRight,
            Token::BraceLeft => SpecToken::BraceLeft,
            Token::BraceRight => SpecToken::BraceRight,
            Token::SquareLeft => SpecToken::SquareLeft,
            Token::SquareRight => SpecToken::SquareRight,
            Token::Plus => SpecToken::Plus,
            Token::Minus => SpecToken::Minus,
            Token::Mul => SpecToken::Mul,
            Token::Div => SpecToken::Div,
            Token::Modulo => SpecToken::Modulo,
            Token::Cond => SpecToken::Cond,
            Token::Equal => SpecToken::Equal,
            Token::NotEqual => SpecToken::NotEqual,
            Token::LTEQOp => SpecToken::LTEQOp,
            Token::GTEQOp => SpecToken::GTEQOp,
            Token::LessThan => SpecToken::LessThan,
            Token::GreaterThan => SpecToken::GreaterThan,
            Token::Assign => SpecToken::Assign,
            Token::Packet => SpecToken::Packet,
            Token::Field => SpecToken::Field,
            Token::Global => SpecToken::Global,
            Token::If => SpecToken::If,
            Token::Else => SpecToken::Else,
            Token::Dot => SpecToken::Dot,
            Token::Annotation => SpecToken::Annotation,
        }
    }
}

/// The view of a sequence of tokens.
pub open spec fn tokens_view(ts: Seq<Token>) -> Seq<SpecToken> {
    ts.map_values(|t: Token| t@)
}

pub proof fn lemma_tokens_view_push(ts: Seq<Token>, t: Token)
    ensures tokens_view(ts.push(t)) == tokens_view(ts).push(t@),
{
    assert(tokens_view(ts.push(t)) =~= tokens_view(ts).push(t@));
}

/// Whether two tokens are the same token.
pub fn token_eq(a: &Token, b: &Token) -> (r: bool)
    ensures r == (a@ == b@),
{
    match (a, b) {
            (Token::Identifier(x), Token::Identifier(y)) => *x == *y,
            (Token::Value(x), Token::Value(y)) => *x == *y,
            (Token::Input, Token::Input) => true,
            (Token::Output, Token::Output) => true,
            (Token::Const, Token::Const) => true,
            (Token::Persistent, Token::Persistent) => true,
            (Token::Transient, Token::Transient) => true,
            (Token::Snippet, Token::Snippet) => true,
            (Token::BooleanAnd, Token::BooleanAnd) => true,
            (Token::BooleanOr, Token::BooleanOr) => true,
            (Token::BooleanNot, Token::BooleanNot) => true,
            (Token::Bit, Token::Bit) => true,
            (Token::Static, Token::Static) => true,
            (Token::Colon, Token::Colon) => true,
            (Token::SemiColon, Token::SemiColon) => true,
            (Token::Comma, Token::Comma) => true,
            (Token::Arrow, Token::Arrow) => true,
            (Token::ParenLeft, Token::ParenLeft) => true,
            (Token::ParenRight, Token::ParenRight) => true,
            (Token::BraceLeft, Token::BraceLeft) => true,
            (Token::BraceRight, Token::BraceRight) => true,
            (Token::SquareLeft, Token::SquareLeft) => true,
            (Token::SquareRight, Token::SquareRight) => true,
            (Token::Plus, Token::Plus) => true,
            (Token::Minus, Token::Minus) => true,
            (Token::Mul, Token::Mul) => true,
            (Token::Div, Token::Div) => true,
            (Token::Modulo, Token::Modulo) => true,
            (Token::Cond, Token::Cond) => true,
            (Token::Equal, Token::Equal) => true,
            (Token::NotEqual, Token::NotEqual) => true,
            (Token::LTEQOp, Token::LTEQOp) => true,
            (Token::GTEQOp, Token::GTEQOp) => true,
            (Token::LessThan, Token::LessThan) => true,
            (Token::GreaterThan, Token::GreaterThan) => true,
            (Token::Assign, Token::Assign) => true,
            (Token::Packet, Token::Packet) => true,
            (Token::Field, Token::Field) => true,
            (Token::Global, Token::Global) => true,
            (Token::If, Token::If) => true,
            (Token::Else, Token::Else) => true,
            (Token::Dot, Token::Dot) => true,
            (Token::Annotation, Token::Annotation) => true,
            _ => false,
    }
}

} // verus!
