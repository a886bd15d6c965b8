//! Lexical units of the expression language and the operator precedence table.
use vstd::prelude::*;
use vstd::std_specs::cmp::PartialEqSpecImpl;

verus! {

#[derive(Copy, Clone, Eq, PartialEq, Debug, Structural)]
pub enum UnaryOperatorType {
    Negative,
    Not,
    Invert,
}

#[derive(Copy, Clone, Eq, PartialEq, Debug, Structural)]
pub enum BinaryOperatorType {
    Add,
    Sub,
    Mul,
    Div,
    Mod,
    Exp,
    Fdiv,
    And,
    Or,
    Xor,
    Shl,
    Shr,
    Less,
    LessEq,
    More,
    MoreEq,
    Equal,
    NotEqual,
}

impl BinaryOperatorType {
    /// The precedence of the operator; a higher one binds tighter.
    pub open spec fn precedence(self) -> nat {
        match self {
            BinaryOperatorType::Or => 0,
            BinaryOperatorType::Xor => 1,
            BinaryOperatorType::And => 2,
            BinaryOperatorType::Less
            | BinaryOperatorType::LessEq
            | BinaryOperatorType::More
            | BinaryOperatorType::MoreEq
            | BinaryOperatorType::Equal
            | BinaryOperatorType::NotEqual => 3,
            BinaryOperatorType::Shl | BinaryOperatorType::Shr => 4,
            BinaryOperatorType::Add | BinaryOperatorType::Sub => 5,
            BinaryOperatorType::Mul
            | BinaryOperatorType::Div
            | BinaryOperatorType::Mod
            | BinaryOperatorType::Fdiv => 6,
            BinaryOperatorType::Exp => 7,
        }
    }

    pub fn order(self) -> (order: u32)
        ensures
            order == self.precedence(),
    {
        match self {
            BinaryOperatorType::Add => 5,
            BinaryOperatorType::Sub => 5,
            BinaryOperatorType::Mul => 6,
            BinaryOperatorType::Div => 6,
            BinaryOperatorType::Mod => 6,
            BinaryOperatorType::Exp => 7,
            BinaryOperatorType::Fdiv => 6,
            BinaryOperatorType::And => 2,
            BinaryOperatorType::Or => 0,
            BinaryOperatorType::Xor => 1,
            BinaryOperatorType::Shl => 4,
            BinaryOperatorType::Shr => 4,
            BinaryOperatorType::Less => 3,
            BinaryOperatorType::LessEq => 3,
            BinaryOperatorType::More => 3,
            BinaryOperatorType::MoreEq => 3,
            BinaryOperatorType::Equal => 3,
            BinaryOperatorType::NotEqual => 3,
        }
    }
}

/// The states of the tokenizer.
#[derive(Copy, Clone, Eq, PartialEq, Debug, Structural)]
pub enum TokenizerState {
    Default,
    Number,
    Identifier,
    BinaryOperator,
}

#[derive(Copy, Clone, Eq, PartialEq, Debug, Structural)]
pub enum NumberBaseType {
    Decimal,
    Binary,
    Octal,
    Hex,
}

impl NumberBaseType {
    pub open spec fn radix(self) -> int {
        match self {
            NumberBaseType::Decimal => 10,
            NumberBaseType::Binary => 2,
            NumberBaseType::Octal => 8,
            NumberBaseType::Hex => 16,
        }
    }

    /// Whether `c` is a digit of this base; hexadecimal takes both cases of `a` to `f`.
    pub open spec fn has_digit(self, c: char) -> bool {
        match self {
            NumberBaseType::Decimal => '0' <= c <= '9',
            NumberBaseType::Binary => c == '0' || c == '1',
            NumberBaseType::Octal => '0' <= c <= '7',
            NumberBaseType::Hex => '0' <= c <= '9' || 'a' <= c <= 'f' || 'A' <= c <= 'F',
        }
    }

    pub fn is_char_valid(self, c: char) -> (valid: bool)
        ensures
            valid == self.has_digit(c),
    {
        match self {
            NumberBaseType::Decimal => { c >= '0' && c <= '9' },
            NumberBaseType::Binary => { c == '0' || c == '1' },
            NumberBaseType::Octal => { c >= '0' && c <= '7' },
            NumberBaseType::Hex => {
                (c >= '0' && c <= '9') || (c >= 'a' && c <= 'f') || (c >= 'A' && c <= 'F')
            },
        }
    }
}

/// The variant of a token, without its payload.
#[derive(Copy, Clone, Eq, PartialEq, Debug, Structural)]
pub enum TokenKind {
    Invalid,
    Integer,
    Float,
    Identifier,
    UnaryOperator,
    BinaryOperator,
    Assignment,
    OpenParen,
    CloseParen,
}

/// One lexical unit.
///
/// A `Float` token carries the text of its literal: decimal digits around one
/// point, with at least one digit. Turning that text into a binary64 number is
/// left to the caller (see `FloatRequest::Parse`).
#[derive(Debug)]
pub enum Token {
    Invalid,
    Integer(i64),
    Float(String),
    Identifier(String),
    UnaryOperator(UnaryOperatorType),
    BinaryOperator(BinaryOperatorType),
    Assignment,
    OpenParen,
    CloseParen,
}

/// What a token is in contracts: the same variants, with texts as sequences of characters.
pub ghost enum TokenView {
    Invalid,
    Integer(i64),
    Float(Seq<char>),
    Identifier(Seq<char>),
    UnaryOperator(UnaryOperatorType),
    BinaryOperator(BinaryOperatorType),
    Assignment,
    OpenParen,
    CloseParen,
}

impl TokenView {
    pub open spec fn kind(self) -> TokenKind {
        match self {
            TokenView::Invalid => TokenKind::Invalid,
            TokenView::Integer(_) => TokenKind::Integer,
            TokenView::Float(_) => TokenKind::Float,
            TokenView::Identifier(_) => TokenKind::Identifier,
            TokenView::UnaryOperator(_) => TokenKind::UnaryOperator,
            TokenView::BinaryOperator(_) => TokenKind::BinaryOperator,
            TokenView::Assignment => TokenKind::Assignment,
            TokenView::OpenParen => TokenKind::OpenParen,
            TokenView::CloseParen => TokenKind::CloseParen,
        }
    }

    pub open spec fn is_binary_operator(self) -> bool {
        self is BinaryOperator
    }
}

impl View for Token {
    type V = TokenView;

    open spec fn view(&self) -> TokenView {
        match self {
            Token::Invalid => TokenView::Invalid,
            Token::Integer(value) => TokenView::Integer(*value),
            Token::Float(text) => TokenView::Float(text@),
            Token::Identifier(name) => TokenView::Identifier(name@),
            Token::UnaryOperator(op) => TokenView::UnaryOperator(*op),
            Token::BinaryOperator(op) => TokenView::BinaryOperator(*op),
            Token::Assignment => TokenView::Assignment,
            Token::OpenParen => TokenView::OpenParen,
            Token::CloseParen => TokenView::CloseParen,
        }
    }
}

/// The views of a sequence of tokens, in order.
pub open spec fn views(tokens: Seq<Token>) -> Seq<TokenView> {
    tokens.map_values(|t: Token| t@)
}

pub proof fn lemma_views_push(tokens: Seq<Token>, token: Token)
    ensures
        views(tokens.push(token)) == views(tokens).push(token@),
{
    assert(views(tokens.push(token)) =~= views(tokens).push(token@));
}

impl Clone for Token {
    fn clone(&self) -> (copy: Self)
        ensures
            copy@ == self@,
    {
        match self {
            Token::Invalid => Token::Invalid,
            Token::Integer(i) => Token::Integer(*i),
            Token::Float(f) => Token::Float(f.clone()),
            Token::Identifier(id) => Token::Identifier(id.clone()),
            Token::UnaryOperator(u) => Token::UnaryOperator(*u),
            Token::BinaryOperator(b) => Token::BinaryOperator(*b),
            Token::Assignment => Token::Assignment,
            Token::OpenParen => Token::OpenParen,
            Token::CloseParen => Token::CloseParen,
        }
    }
}

/// Two tokens are equal when they are of the same variant, whatever they carry.
impl PartialEq for Token {
    fn eq(&self, other: &Self) -> (equal: bool) {
        match self {
            Token::Invalid => {
                match other {
                    Token::Invalid => true,
                    _ => false,
                }
            },
            Token::Integer(_) => {
                match other {
                    Token::Integer(_) => true,
                    _ => false,
                }
            },
            Token::Float(_) => {
                match other {
                    Token::Float(_) => true,
                    _ => false,
                }
            },
            Token::Identifier(_) => {
                match other {
                    Token::Identifier(_) => true,
                    _ => false,
                }
            },
            Token::UnaryOperator(_) => {
                match other {
                    Token::UnaryOperator(_) => true,
                    _ => false,
                }
            },
            Token::BinaryOperator(_) => {
                match other {
                    Token::BinaryOperator(_) => true,
                    _ => false,
                }
            },
            Token::Assignment => {
                match other {
                    Token::Assignment => true,
                    _ => false,
                }
            },
            Token::OpenParen => {
                match other {
                    Token::OpenParen => true,
                    _ => false,
                }
            },
            Token::CloseParen => {
                match other {
                    Token::CloseParen => true,
                    _ => false,
                }
            },
        }
    }
}

impl PartialEqSpecImpl for Token {
    open spec fn obeys_eq_spec() -> bool {
        true
    }

    open spec fn eq_spec(&self, other: &Token) -> bool {
        self@.kind() == other@.kind()
    }
}

impl Eq for Token {

}

impl Token {
    pub fn kind(&self) -> (kind: TokenKind)
        ensures
            kind == self@.kind(),
    {
        match self {
            Token::Invalid => TokenKind::Invalid,
            Token::Integer(_) => TokenKind::Integer,
            Token::Float(_) => TokenKind::Float,
            Token::Identifier(_) => TokenKind::Identifier,
            Token::UnaryOperator(_) => TokenKind::UnaryOperator,
            Token::BinaryOperator(_) => TokenKind::BinaryOperator,
            Token::Assignment => TokenKind::Assignment,
            Token::OpenParen => TokenKind::OpenParen,
            Token::CloseParen => TokenKind::CloseParen,
        }
    }

    pub fn is_operator(&self) -> (b: bool)
        ensures
            b == (self@ is UnaryOperator || self@ is BinaryOperator),
    {
        match self {
            Token::UnaryOperator(_) => true,
            Token::BinaryOperator(_) => true,
            _ => false,
        }
    }

    pub fn is_unary_operator(&self) -> (b: bool)
        ensures
            b == (self@ is UnaryOperator),
    {
        match self {
            Token::UnaryOperator(_) => true,
            _ => false,
        }
    }

    pub fn is_binary_operator(&self) -> (b: bool)
        ensures
            b == (self@ is BinaryOperator),
    {
        match self {
            Token::BinaryOperator(_) => true,
            _ => false,
        }
    }

    pub fn is_value(&self) -> (b: bool)
        ensures
            b == (self@ is Integer || self@ is Float || self@ is Identifier),
    {
        match self {
            Token::Integer(_) | Token::Float(_) | Token::Identifier(_) => true,
            _ => false,
        }
    }

    pub fn is_identifier(&self) -> (b: bool)
        ensures
            b == (self@ is Identifier),
    {
        match self {
            Token::Identifier(_) => true,
            _ => false,
        }
    }
}

} // verus!
