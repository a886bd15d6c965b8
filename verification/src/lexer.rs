//! The tokenizer: a state machine that reads the source one character at a time.
use crate::chars::{
    char_is_alphanumeric, char_is_letter, char_is_number, char_is_operator, char_is_space,
    char_is_terminator, is_alphanumeric, is_ascii_digit, is_letter, is_number_char,
    is_operator_char, is_space, is_terminator, lowercase_of, string_of, AsLowerCase,
};
use crate::number::{integer_of, parse_integer};
use crate::token::{
    lemma_views_push, views, BinaryOperatorType, NumberBaseType, Token, TokenView,
    TokenizerState, UnaryOperatorType,
};
use vstd::string::StrSliceExecFns;
use vstd::prelude::*;

verus! {

/// Why a source text could not be tokenized.
#[derive(Debug)]
pub enum LexError {
    /// A character that cannot start or continue any token; a `!` at the very
    /// end of the source is reported this way too.
    UnexpectedCharacter(char),
    /// A numeric literal with a second point or with a character that is no
    /// digit of its base. Carries the literal as far as it was read, ending with
    /// the offending character.
    InvalidLiteral(String),
    /// A character that starts no operator.
    InvalidOperator(char),
    /// A numeric literal without digits, or with a value out of range. Carries
    /// the text of the literal.
    NumberParse(String),
}

pub ghost enum LexErrorView {
    UnexpectedCharacter(char),
    InvalidLiteral(Seq<char>),
    InvalidOperator(char),
    NumberParse(Seq<char>),
}

impl View for LexError {
    type V = LexErrorView;

    open spec fn view(&self) -> LexErrorView {
        match self {
            LexError::UnexpectedCharacter(c) => LexErrorView::UnexpectedCharacter(*c),
            LexError::InvalidLiteral(text) => LexErrorView::InvalidLiteral(text@),
            LexError::InvalidOperator(c) => LexErrorView::InvalidOperator(*c),
            LexError::NumberParse(text) => LexErrorView::NumberParse(text@),
        }
    }
}

/// The token of a numeric literal with the text `text`, if it denotes a number.
/// A decimal text with a point needs a digit too; its value is not computed
/// here. Any other text is an integer literal of its base.
pub open spec fn literal_of(text: Seq<char>, base: NumberBaseType, seen_point: bool) -> Option<
    TokenView,
> {
    if base == NumberBaseType::Decimal && seen_point {
        if holds_digit(text) {
            Some(TokenView::Float(text))
        } else {
            None
        }
    } else {
        match integer_of(text, base) {
            Some(value) => Some(TokenView::Integer(value)),
            None => None,
        }
    }
}

/// Whether one of the characters of `text` is a decimal digit.
pub open spec fn holds_digit(text: Seq<char>) -> bool {
    exists|i: int| 0 <= i < text.len() && is_ascii_digit(#[trigger] text[i])
}

/// The operator that starts at `pos`, with the number of characters that it
/// takes. Where two operators start alike, the character after decides. A
/// single `=` is the assignment token.
pub open spec fn operator_at(src: Seq<char>, pos: int) -> Option<(TokenView, int)> {
    let c = src[pos];
    let d = if pos + 1 < src.len() {
        Some(src[pos + 1])
    } else {
        None
    };
    if c == '+' {
        Some((TokenView::BinaryOperator(BinaryOperatorType::Add), 1))
    } else if c == '-' {
        Some((TokenView::BinaryOperator(BinaryOperatorType::Sub), 1))
    } else if c == '%' {
        Some((TokenView::BinaryOperator(BinaryOperatorType::Mod), 1))
    } else if c == '&' {
        Some((TokenView::BinaryOperator(BinaryOperatorType::And), 1))
    } else if c == '|' {
        Some((TokenView::BinaryOperator(BinaryOperatorType::Or), 1))
    } else if c == '^' {
        Some((TokenView::BinaryOperator(BinaryOperatorType::Xor), 1))
    } else if c == '*' {
        if d == Some('*') {
            Some((TokenView::BinaryOperator(BinaryOperatorType::Exp), 2))
        } else {
            Some((TokenView::BinaryOperator(BinaryOperatorType::Mul), 1))
        }
    } else if c == '/' {
        if d == Some('/') {
            Some((TokenView::BinaryOperator(BinaryOperatorType::Fdiv), 2))
        } else {
            Some((TokenView::BinaryOperator(BinaryOperatorType::Div), 1))
        }
    } else if c == '<' {
        if d == Some('<') {
            Some((TokenView::BinaryOperator(BinaryOperatorType::Shl), 2))
        } else if d == Some('=') {
            Some((TokenView::BinaryOperator(BinaryOperatorType::LessEq), 2))
        } else {
            Some((TokenView::BinaryOperator(BinaryOperatorType::Less), 1))
        }
    } else if c == '>' {
        if d == Some('>') {
            Some((TokenView::BinaryOperator(BinaryOperatorType::Shr), 2))
        } else if d == Some('=') {
            Some((TokenView::BinaryOperator(BinaryOperatorType::MoreEq), 2))
        } else {
            Some((TokenView::BinaryOperator(BinaryOperatorType::More), 1))
        }
    } else if c == '=' {
        if d == Some('=') {
            Some((TokenView::BinaryOperator(BinaryOperatorType::Equal), 2))
        } else {
            Some((TokenView::Assignment, 1))
        }
    } else {
        None
    }
}

/// The tokenizer between two characters: its state, the position of the next
/// character, the tokens produced so far, and the scratch of the literal or
/// identifier being read.
pub ghost struct Scanner {
    pub state: TokenizerState,
    pub pos: int,
    pub tokens: Seq<TokenView>,
    pub text: Seq<char>,
    pub base: NumberBaseType,
    pub seen_point: bool,
}

/// What one step of the tokenizer leads to.
pub ghost enum Step {
    Next(Scanner),
    Done(Seq<TokenView>),
    Fail(LexErrorView),
}

impl Scanner {
    /// The tokenizer before the first character.
    pub open spec fn start() -> Scanner {
        Scanner {
            state: TokenizerState::Default,
            pos: 0,
            tokens: Seq::empty(),
            text: Seq::empty(),
            base: NumberBaseType::Decimal,
            seen_point: false,
        }
    }

    /// Back to the default state at `pos`, with one more token.
    pub open spec fn emit(self, token: TokenView, pos: int) -> Scanner {
        Scanner { state: TokenizerState::Default, pos, tokens: self.tokens.push(token), ..self }
    }

    /// Into the number state at `pos`, with the scratch holding `text`.
    pub open spec fn number(self, base: NumberBaseType, text: Seq<char>, pos: int) -> Scanner {
        Scanner { state: TokenizerState::Number, pos, text, base, seen_point: false, ..self }
    }

    /// A `-` is a sign when no token precedes it or when the token before it is
    /// no binary operator; else it is the operator of subtraction.
    pub open spec fn minus_is_unary(self) -> bool {
        self.tokens.len() == 0 || !self.tokens.last().is_binary_operator()
    }

    /// The step taken in the default state on the character `c` at `pos`.
    pub open spec fn step_default(self, src: Seq<char>) -> Step {
        let c = src[self.pos];
        let pos = self.pos;
        if is_space(c) {
            Step::Next(Scanner { pos: pos + 1, ..self })
        } else if is_letter(c) || c == '_' {
            Step::Next(
                Scanner { state: TokenizerState::Identifier, pos: pos + 1, text: seq![c], ..self },
            )
        } else if is_number_char(c) {
            if c == '0' {
                if pos + 1 >= src.len() {
                    Step::Done(self.tokens.push(TokenView::Integer(0)))
                } else {
                    let d = lowercase_of(src[pos + 1]);
                    if d == 'x' {
                        Step::Next(self.number(NumberBaseType::Hex, Seq::empty(), pos + 2))
                    } else if d == 'b' {
                        Step::Next(self.number(NumberBaseType::Binary, Seq::empty(), pos + 2))
                    } else if d == 'o' {
                        Step::Next(self.number(NumberBaseType::Octal, Seq::empty(), pos + 2))
                    } else if is_number_char(d) {
                        Step::Next(self.number(NumberBaseType::Octal, Seq::empty(), pos + 1))
                    } else {
                        Step::Next(self.number(NumberBaseType::Decimal, Seq::empty(), pos + 1))
                    }
                }
            } else if is_ascii_digit(c) {
                Step::Next(self.number(NumberBaseType::Decimal, seq![c], pos + 1))
            } else {
                Step::Fail(LexErrorView::InvalidLiteral(seq![c]))
            }
        } else if c == '-' && !self.minus_is_unary() {
            Step::Next(Scanner { state: TokenizerState::BinaryOperator, ..self })
        } else if c == '!' {
            if pos + 1 >= src.len() {
                Step::Fail(LexErrorView::UnexpectedCharacter(c))
            } else if src[pos + 1] == '=' {
                Step::Next(
                    self.emit(TokenView::BinaryOperator(BinaryOperatorType::NotEqual), pos + 2),
                )
            } else {
                Step::Next(self.emit(TokenView::UnaryOperator(UnaryOperatorType::Not), pos + 1))
            }
        } else if c == '-' {
            Step::Next(self.emit(TokenView::UnaryOperator(UnaryOperatorType::Negative), pos + 1))
        } else if c == '~' {
            Step::Next(self.emit(TokenView::UnaryOperator(UnaryOperatorType::Invert), pos + 1))
        } else if is_operator_char(c) {
            Step::Next(Scanner { state: TokenizerState::BinaryOperator, ..self })
        } else if c == '(' {
            Step::Next(self.emit(TokenView::OpenParen, pos + 1))
        } else if c == ')' {
            Step::Next(self.emit(TokenView::CloseParen, pos + 1))
        } else {
            Step::Fail(LexErrorView::UnexpectedCharacter(c))
        }
    }

    /// The end of a numeric literal: its token is produced, and the character
    /// at `pos`, if there is one, is left to the default state.
    pub open spec fn finish_number(self) -> Step {
        match literal_of(self.text, self.base, self.seen_point) {
            Some(token) => Step::Next(self.emit(token, self.pos)),
            None => Step::Fail(LexErrorView::NumberParse(self.text)),
        }
    }

    /// The step taken inside a numeric literal on the character at `pos`.
    pub open spec fn step_number(self, src: Seq<char>) -> Step {
        let c = src[self.pos];
        if c == '_' {
            Step::Next(Scanner { pos: self.pos + 1, ..self })
        } else if self.base == NumberBaseType::Decimal && c == '.' {
            if self.seen_point {
                Step::Fail(LexErrorView::InvalidLiteral(self.text.push(c)))
            } else {
                Step::Next(
                    Scanner { pos: self.pos + 1, text: self.text.push(c), seen_point: true, ..self },
                )
            }
        } else if self.base.has_digit(c) {
            Step::Next(Scanner { pos: self.pos + 1, text: self.text.push(c), ..self })
        } else if is_terminator(c) {
            self.finish_number()
        } else {
            Step::Fail(LexErrorView::InvalidLiteral(self.text.push(c)))
        }
    }

    /// The step taken inside an identifier on the character at `pos`.
    pub open spec fn step_identifier(self, src: Seq<char>) -> Step {
        let c = src[self.pos];
        if is_terminator(c) {
            Step::Next(self.emit(TokenView::Identifier(self.text), self.pos))
        } else if is_alphanumeric(c) || c == '_' {
            Step::Next(Scanner { pos: self.pos + 1, text: self.text.push(c), ..self })
        } else {
            Step::Fail(LexErrorView::UnexpectedCharacter(c))
        }
    }

    /// The step taken on the first character of an operator.
    pub open spec fn step_operator(self, src: Seq<char>) -> Step {
        match operator_at(src, self.pos) {
            Some((token, taken)) => Step::Next(self.emit(token, self.pos + taken)),
            None => Step::Fail(LexErrorView::InvalidOperator(src[self.pos])),
        }
    }

    /// One step of the tokenizer. At the end of the source a literal or an
    /// identifier in the scratch is completed, and the tokens are handed out.
    pub open spec fn step(self, src: Seq<char>) -> Step {
        if 0 <= self.pos < src.len() {
            match self.state {
                TokenizerState::Default => self.step_default(src),
                TokenizerState::Number => self.step_number(src),
                TokenizerState::Identifier => self.step_identifier(src),
                TokenizerState::BinaryOperator => self.step_operator(src),
            }
        } else {
            match self.state {
                TokenizerState::Number => self.finish_number(),
                TokenizerState::Identifier => Step::Next(
                    self.emit(TokenView::Identifier(self.text), self.pos),
                ),
                _ => Step::Done(self.tokens),
            }
        }
    }

    /// A bound on the steps that are left: a step either moves on in the
    /// source or goes to a state nearer to doing so.
    pub open spec fn fuel(self, src: Seq<char>) -> int {
        (if self.pos <= src.len() {
            3 * (src.len() - self.pos)
        } else {
            0
        }) + match self.state {
            TokenizerState::Number | TokenizerState::Identifier => 2int,
            TokenizerState::Default => 1int,
            TokenizerState::BinaryOperator => 0int,
        }
    }

    /// Steps until the tokens are handed out or an error stops the tokenizer.
    pub open spec fn run(self, src: Seq<char>) -> Result<Seq<TokenView>, LexErrorView>
        decreases self.fuel(src),
    {
        match self.step(src) {
            Step::Next(next) => next.run(src),
            Step::Done(tokens) => Ok(tokens),
            Step::Fail(error) => Err(error),
        }
    }
}

/// The tokens of a source text, or the first lexical error in it.
pub open spec fn tokens_of(src: Seq<char>) -> Result<Seq<TokenView>, LexErrorView> {
    Scanner::start().run(src)
}

/// Every step from a position inside the source, or at its end, brings the
/// tokenizer nearer to the end.
pub proof fn lemma_step_progress(sc: Scanner, src: Seq<char>)
    requires
        0 <= sc.pos <= src.len(),
    ensures
        sc.step(src) matches Step::Next(next) ==> next.fuel(src) < sc.fuel(src) && sc.pos
            <= next.pos <= src.len(),
{
}

/// The tokenizer as the loop below holds it between two steps.
pub open spec fn scanner_at(
    state: TokenizerState,
    pos: usize,
    tokens: Seq<Token>,
    text: Seq<char>,
    base: NumberBaseType,
    seen_point: bool,
) -> Scanner {
    Scanner { state, pos: pos as int, tokens: views(tokens), text, base, seen_point }
}

fn contains_digit(text: &Vec<char>) -> (found: bool)
    ensures
        found == holds_digit(text@),
{
    let mut i: usize = 0;
    while i < text.len()
        invariant
            0 <= i <= text.len(),
            forall|j: int| 0 <= j < i ==> !is_ascii_digit(#[trigger] text@[j]),
        decreases text.len() - i,
    {
        let c = text[i];
        if '0' <= c && c <= '9' {
            return true;
        }
        i += 1;
    }
    false
}

/// Makes the token of the numeric literal whose text is in `text`.
fn read_literal(text: &Vec<char>, base: NumberBaseType, seen_point: bool) -> (token: Option<Token>)
    ensures
        match token {
            Some(t) => literal_of(text@, base, seen_point) == Some(t@),
            None => literal_of(text@, base, seen_point) is None,
        },
{
    let decimal = match base {
        NumberBaseType::Decimal => true,
        _ => false,
    };
    if decimal && seen_point {
        if contains_digit(text) {
            Some(Token::Float(string_of(text)))
        } else {
            None
        }
    } else {
        match parse_integer(text, base) {
            Some(value) => Some(Token::Integer(value)),
            None => None,
        }
    }
}

/// Reads the operator that starts at `pos`.
fn read_operator(source: &str, len: usize, pos: usize) -> (found: Option<(Token, usize)>)
    requires
        len == source@.len(),
        pos < len,
    ensures
        match found {
            Some((token, taken)) => operator_at(source@, pos as int) == Some((token@, taken as int))
                && 1 <= taken <= 2 && pos + taken <= len,
            None => operator_at(source@, pos as int) is None,
        },
{
    let c = source.get_char(pos);
    let d = if pos + 1 < len {
        Some(source.get_char(pos + 1))
    } else {
        None
    };
    let ghost next: Option<char> = if pos + 1 < len {
        Some(source@[pos + 1])
    } else {
        None
    };
    assert(d == next);
    match c {
        '+' => Some((Token::BinaryOperator(BinaryOperatorType::Add), 1)),
        '-' => Some((Token::BinaryOperator(BinaryOperatorType::Sub), 1)),
        '%' => Some((Token::BinaryOperator(BinaryOperatorType::Mod), 1)),
        '&' => Some((Token::BinaryOperator(BinaryOperatorType::And), 1)),
        '|' => Some((Token::BinaryOperator(BinaryOperatorType::Or), 1)),
        '^' => Some((Token::BinaryOperator(BinaryOperatorType::Xor), 1)),
        '*' => match d {
            Some('*') => Some((Token::BinaryOperator(BinaryOperatorType::Exp), 2)),
            _ => Some((Token::BinaryOperator(BinaryOperatorType::Mul), 1)),
        },
        '/' => match d {
            Some('/') => Some((Token::BinaryOperator(BinaryOperatorType::Fdiv), 2)),
            _ => Some((Token::BinaryOperator(BinaryOperatorType::Div), 1)),
        },
        '<' => match d {
            Some('<') => Some((Token::BinaryOperator(BinaryOperatorType::Shl), 2)),
            Some('=') => Some((Token::BinaryOperator(BinaryOperatorType::LessEq), 2)),
            _ => Some((Token::BinaryOperator(BinaryOperatorType::Less), 1)),
        },
        '>' => match d {
            Some('>') => Some((Token::BinaryOperator(BinaryOperatorType::Shr), 2)),
            Some('=') => Some((Token::BinaryOperator(BinaryOperatorType::MoreEq), 2)),
            _ => Some((Token::BinaryOperator(BinaryOperatorType::More), 1)),
        },
        '=' => match d {
            Some('=') => Some((Token::BinaryOperator(BinaryOperatorType::Equal), 2)),
            _ => Some((Token::Assignment, 1)),
        },
        _ => None,
    }
}

impl Token {
    /// Splits a source text into its tokens, or reports the first lexical error.
    pub fn tokenize(src: String) -> (result: Result<Vec<Token>, LexError>)
        ensures
            match result {
                Ok(tokens) => tokens_of(src@) == Ok::<Seq<TokenView>, LexErrorView>(
                    views(tokens@),
                ),
                Err(error) => tokens_of(src@) == Err::<Seq<TokenView>, LexErrorView>(error@),
            },
    {
        let source = src.as_str();
        let len = source.unicode_len();
        let mut tokens: Vec<Token> = Vec::new();
        let mut i: usize = 0;
        let mut text: Vec<char> = Vec::new();
        let mut seen_point = false;
        let mut base = NumberBaseType::Decimal;
        let mut state = TokenizerState::Default;
        assert(views(tokens@) =~= Seq::<TokenView>::empty());
        loop
            invariant
                source@ == src@,
                len == src@.len(),
                i <= len,
                tokens_of(src@) == scanner_at(state, i, tokens@, text@, base, seen_point).run(
                    src@,
                ),
            decreases scanner_at(state, i, tokens@, text@, base, seen_point).fuel(src@),
        {
            let ghost sc = scanner_at(state, i, tokens@, text@, base, seen_point);
            if i >= len {
                match state {
                    TokenizerState::Number => {
                        match read_literal(&text, base, seen_point) {
                            Some(token) => {
                                proof {
                                    lemma_views_push(tokens@, token);
                                }
                                tokens.push(token);
                                state = TokenizerState::Default;
                            },
                            None => {
                                return Err(LexError::NumberParse(string_of(&text)));
                            },
                        }
                    },
                    TokenizerState::Identifier => {
                        let token = Token::Identifier(string_of(&text));
                        proof {
                            lemma_views_push(tokens@, token);
                        }
                        tokens.push(token);
                        state = TokenizerState::Default;
                    },
                    _ => {
                        return Ok(tokens);
                    },
                }
            } else {
                let c = source.get_char(i);
                match state {
                    TokenizerState::Default => {
                        if char_is_space(c) {
                            i += 1;
                        } else if char_is_letter(c) || c == '_' {
                            text = Vec::new();
                            text.push(c);
                            assert(text@ =~= seq![c]);
                            state = TokenizerState::Identifier;
                            i += 1;
                        } else if char_is_number(c) {
                            if c == '0' {
                                if i + 1 >= len {
                                    let token = Token::Integer(0);
                                    proof {
                                        lemma_views_push(tokens@, token);
                                    }
                                    tokens.push(token);
                                    return Ok(tokens);
                                }
                                let d = source.get_char(i + 1).as_lowercase();
                                text = Vec::new();
                                seen_point = false;
                                state = TokenizerState::Number;
                                if d == 'x' {
                                    base = NumberBaseType::Hex;
                                    i += 2;
                                } else if d == 'b' {
                                    base = NumberBaseType::Binary;
                                    i += 2;
                                } else if d == 'o' {
                                    base = NumberBaseType::Octal;
                                    i += 2;
                                } else if char_is_number(d) {
                                    base = NumberBaseType::Octal;
                                    i += 1;
                                } else {
                                    base = NumberBaseType::Decimal;
                                    i += 1;
                                }
                                assert(text@ =~= Seq::<char>::empty());
                            } else if '0' <= c && c <= '9' {
                                text = Vec::new();
                                text.push(c);
                                assert(text@ =~= seq![c]);
                                seen_point = false;
                                base = NumberBaseType::Decimal;
                                state = TokenizerState::Number;
                                i += 1;
                            } else {
                                let mut literal: Vec<char> = Vec::new();
                                literal.push(c);
                                assert(literal@ =~= seq![c]);
                                return Err(LexError::InvalidLiteral(string_of(&literal)));
                            }
                        } else if c == '-' && tokens.len() > 0 && tokens[tokens.len()
                            - 1].is_binary_operator() {
                            state = TokenizerState::BinaryOperator;
                        } else if c == '!' {
                            if i + 1 >= len {
                                return Err(LexError::UnexpectedCharacter(c));
                            }
                            let token = if source.get_char(i + 1) == '=' {
                                i += 2;
                                Token::BinaryOperator(BinaryOperatorType::NotEqual)
                            } else {
                                i += 1;
                                Token::UnaryOperator(UnaryOperatorType::Not)
                            };
                            proof {
                                lemma_views_push(tokens@, token);
                            }
                            tokens.push(token);
                        } else if c == '-' || c == '~' {
                            let token = if c == '-' {
                                Token::UnaryOperator(UnaryOperatorType::Negative)
                            } else {
                                Token::UnaryOperator(UnaryOperatorType::Invert)
                            };
                            proof {
                                lemma_views_push(tokens@, token);
                            }
                            tokens.push(token);
                            i += 1;
                        } else if char_is_operator(c) {
                            state = TokenizerState::BinaryOperator;
                        } else if c == '(' || c == ')' {
                            let token = if c == '(' {
                                Token::OpenParen
                            } else {
                                Token::CloseParen
                            };
                            proof {
                                lemma_views_push(tokens@, token);
                            }
                            tokens.push(token);
                            i += 1;
                        } else {
                            return Err(LexError::UnexpectedCharacter(c));
                        }
                    },
                    TokenizerState::Number => {
                        let decimal = match base {
                            NumberBaseType::Decimal => true,
                            _ => false,
                        };
                        if c == '_' {
                            i += 1;
                        } else if decimal && c == '.' {
                            text.push(c);
                            if seen_point {
                                return Err(LexError::InvalidLiteral(string_of(&text)));
                            }
                            seen_point = true;
                            i += 1;
                        } else if base.is_char_valid(c) {
                            text.push(c);
                            i += 1;
                        } else if char_is_terminator(c) {
                            match read_literal(&text, base, seen_point) {
                                Some(token) => {
                                    proof {
                                        lemma_views_push(tokens@, token);
                                    }
                                    tokens.push(token);
                                    state = TokenizerState::Default;
                                },
                                None => {
                                    return Err(LexError::NumberParse(string_of(&text)));
                                },
                            }
                        } else {
                            text.push(c);
                            return Err(LexError::InvalidLiteral(string_of(&text)));
                        }
                    },
                    TokenizerState::Identifier => {
                        if char_is_terminator(c) {
                            let token = Token::Identifier(string_of(&text));
                            proof {
                                lemma_views_push(tokens@, token);
                            }
                            tokens.push(token);
                            state = TokenizerState::Default;
                        } else if char_is_alphanumeric(c) || c == '_' {
                            text.push(c);
                            i += 1;
                        } else {
                            return Err(LexError::UnexpectedCharacter(c));
                        }
                    },
                    TokenizerState::BinaryOperator => {
                        match read_operator(source, len, i) {
                            Some((token, taken)) => {
                                proof {
                                    lemma_views_push(tokens@, token);
                                }
                                tokens.push(token);
                                state = TokenizerState::Default;
                                i += taken;
                            },
                            None => {
                                return Err(LexError::InvalidOperator(c));
                            },
                        }
                    },
                }
            }
        }
    }
}

} // verus!
