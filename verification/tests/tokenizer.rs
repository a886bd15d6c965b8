use exprcalc::chars::{AsLowerCase, AsUpperCase};
use exprcalc::lexer::LexError;
use exprcalc::token::{
    BinaryOperatorType, NumberBaseType, Token, TokenKind, UnaryOperatorType,
};

fn lex(src: &str) -> Vec<Token> {
    Token::tokenize(src.to_string()).unwrap()
}

fn lex_error(src: &str) -> LexError {
    Token::tokenize(src.to_string()).unwrap_err()
}

fn binary(token: &Token) -> BinaryOperatorType {
    match token {
        Token::BinaryOperator(op) => *op,
        other => panic!("no binary operator: {:?}", other),
    }
}

#[test]
fn decimal_literals() {
    for n in [0i64, 1, 7, 9, 10, 42, 1234567890, i64::MAX] {
        let tokens = lex(&n.to_string());
        assert_eq!(tokens.len(), 1);
        assert!(matches!(tokens[0], Token::Integer(v) if v == n));
    }
}

#[test]
fn multi_digit_literal_is_one_token() {
    let tokens = lex("123");
    assert_eq!(tokens.len(), 1);
    assert!(matches!(tokens[0], Token::Integer(123)));
}

#[test]
fn prefixed_literals() {
    assert!(matches!(lex("0x1A")[0], Token::Integer(26)));
    assert!(matches!(lex("0b101")[0], Token::Integer(5)));
    assert!(matches!(lex("0o17")[0], Token::Integer(15)));
    assert!(matches!(lex("0X1a")[0], Token::Integer(26)));
    assert!(matches!(lex("0B11")[0], Token::Integer(3)));
    assert!(matches!(lex("0O7")[0], Token::Integer(7)));
    assert!(matches!(lex("0xff")[0], Token::Integer(255)));
}

#[test]
fn leading_zero_selects_octal() {
    assert!(matches!(lex("010")[0], Token::Integer(8)));
    assert!(matches!(lex("007")[0], Token::Integer(7)));
    assert!(matches!(lex_error("08"), LexError::InvalidLiteral(text) if text == "8"));
}

#[test]
fn zero_alone_is_zero() {
    let tokens = lex("0");
    assert_eq!(tokens.len(), 1);
    assert!(matches!(tokens[0], Token::Integer(0)));
}

#[test]
fn zero_before_a_terminator_has_no_digits() {
    assert!(matches!(lex_error("0 + 1"), LexError::NumberParse(text) if text.is_empty()));
    assert!(matches!(lex_error("0)"), LexError::NumberParse(text) if text.is_empty()));
    assert!(matches!(lex_error("0x"), LexError::NumberParse(text) if text.is_empty()));
}

#[test]
fn non_decimal_literals_take_all_64_bits() {
    assert!(matches!(lex("0xFFFFFFFFFFFFFFFF")[0], Token::Integer(-1)));
    assert!(matches!(lex("0x8000000000000000")[0], Token::Integer(i64::MIN)));
    assert!(matches!(lex("0x7FFFFFFFFFFFFFFF")[0], Token::Integer(i64::MAX)));
    assert!(matches!(lex("0o1777777777777777777777")[0], Token::Integer(-1)));
    assert!(matches!(
        lex_error("0x10000000000000000"),
        LexError::NumberParse(text) if text == "10000000000000000"
    ));
}

#[test]
fn decimal_overflow_is_an_error() {
    assert!(matches!(
        lex_error("9223372036854775808"),
        LexError::NumberParse(text) if text == "9223372036854775808"
    ));
    assert!(matches!(lex_error("99999999999999999999999"), LexError::NumberParse(_)));
}

#[test]
fn underscores_separate_digits() {
    assert!(matches!(lex("1_000_000")[0], Token::Integer(1000000)));
    assert!(matches!(lex("0xFF_FF")[0], Token::Integer(65535)));
    assert!(matches!(lex("1__2_")[0], Token::Integer(12)));
}

#[test]
fn float_literals_carry_their_text() {
    let tokens = lex("3.14");
    assert_eq!(tokens.len(), 1);
    assert!(matches!(&tokens[0], Token::Float(text) if text == "3.14"));
    assert!(matches!(&lex("5.")[0], Token::Float(text) if text == "5."));
    assert!(matches!(&lex("0.5")[0], Token::Float(text) if text == ".5"));
    assert!(matches!(&lex("1_0.2_5")[0], Token::Float(text) if text == "10.25"));
}

#[test]
fn second_point_is_an_error() {
    assert!(matches!(lex_error("1.2.3"), LexError::InvalidLiteral(text) if text == "1.2."));
}

#[test]
fn point_without_digits_is_an_error() {
    assert!(matches!(lex_error("0."), LexError::NumberParse(text) if text == "."));
}

#[test]
fn point_in_another_base_is_an_error() {
    assert!(matches!(lex_error("0x1.5"), LexError::InvalidLiteral(text) if text == "1."));
}

#[test]
fn invalid_digit_is_an_error() {
    assert!(matches!(lex_error("12a"), LexError::InvalidLiteral(text) if text == "12a"));
    assert!(matches!(lex_error("0b102"), LexError::InvalidLiteral(text) if text == "102"));
    assert!(matches!(lex_error("0o78"), LexError::InvalidLiteral(text) if text == "78"));
    assert!(matches!(lex_error("0xfg"), LexError::InvalidLiteral(text) if text == "fg"));
}

#[test]
fn identifiers() {
    let tokens = lex("foo _bar x1 a_b");
    assert_eq!(tokens.len(), 4);
    assert!(matches!(&tokens[0], Token::Identifier(name) if name == "foo"));
    assert!(matches!(&tokens[1], Token::Identifier(name) if name == "_bar"));
    assert!(matches!(&tokens[2], Token::Identifier(name) if name == "x1"));
    assert!(matches!(&tokens[3], Token::Identifier(name) if name == "a_b"));
}

#[test]
fn identifier_at_the_end_is_complete() {
    let tokens = lex("x");
    assert_eq!(tokens.len(), 1);
    assert!(matches!(&tokens[0], Token::Identifier(name) if name == "x"));
    let tokens = lex("1+ab");
    assert_eq!(tokens.len(), 3);
    assert!(matches!(&tokens[2], Token::Identifier(name) if name == "ab"));
}

#[test]
fn identifier_with_a_bad_character() {
    assert!(matches!(lex_error("ab#"), LexError::UnexpectedCharacter('#')));
    assert!(matches!(lex_error("ab.c"), LexError::UnexpectedCharacter('.')));
}

#[test]
fn letters_beyond_ascii_make_identifiers() {
    let tokens = lex("\u{e9}t\u{e9}");
    assert_eq!(tokens.len(), 1);
    assert!(matches!(&tokens[0], Token::Identifier(name) if name == "\u{e9}t\u{e9}"));
}

#[test]
fn white_space_beyond_ascii_is_skipped() {
    let tokens = lex("1\u{a0}+\u{2003}2");
    assert_eq!(tokens.len(), 3);
    assert!(matches!(tokens[0], Token::Integer(1)));
    assert!(matches!(tokens[2], Token::Integer(2)));
    assert!(lex(" \t\r\n\u{3000}").is_empty());
}

#[test]
fn numeric_characters_beyond_ascii_start_no_literal() {
    assert!(matches!(lex_error("\u{663}"), LexError::InvalidLiteral(text) if text == "\u{663}"));
    assert!(matches!(lex_error("1+\u{bd}"), LexError::InvalidLiteral(text) if text == "\u{bd}"));
    assert!(matches!(lex_error("0\u{663}"), LexError::InvalidLiteral(text) if text == "\u{663}"));
}

#[test]
fn numeric_characters_beyond_ascii_continue_identifiers() {
    let tokens = lex("x\u{663}");
    assert_eq!(tokens.len(), 1);
    assert!(matches!(&tokens[0], Token::Identifier(name) if name == "x\u{663}"));
    let tokens = lex("x\u{bd}+");
    assert_eq!(tokens.len(), 2);
    assert!(matches!(&tokens[0], Token::Identifier(name) if name == "x\u{bd}"));
}

#[test]
fn unexpected_character() {
    assert!(matches!(lex_error("#"), LexError::UnexpectedCharacter('#')));
    assert!(matches!(lex_error("1 $ 2"), LexError::UnexpectedCharacter('$')));
    assert!(matches!(lex_error("\u{20ac}"), LexError::UnexpectedCharacter('\u{20ac}')));
}

#[test]
fn single_character_operators() {
    let tokens = lex("+ % & | ^");
    let expected = [
        BinaryOperatorType::Add,
        BinaryOperatorType::Mod,
        BinaryOperatorType::And,
        BinaryOperatorType::Or,
        BinaryOperatorType::Xor,
    ];
    assert_eq!(tokens.len(), expected.len());
    for (token, op) in tokens.iter().zip(expected.iter()) {
        assert_eq!(binary(token), *op);
    }
}

#[test]
fn two_character_operators() {
    let tokens = lex("* ** / // < << <= > >> >= == !=");
    let expected = [
        BinaryOperatorType::Mul,
        BinaryOperatorType::Exp,
        BinaryOperatorType::Div,
        BinaryOperatorType::Fdiv,
        BinaryOperatorType::Less,
        BinaryOperatorType::Shl,
        BinaryOperatorType::LessEq,
        BinaryOperatorType::More,
        BinaryOperatorType::Shr,
        BinaryOperatorType::MoreEq,
        BinaryOperatorType::Equal,
        BinaryOperatorType::NotEqual,
    ];
    assert_eq!(tokens.len(), expected.len());
    for (token, op) in tokens.iter().zip(expected.iter()) {
        assert_eq!(binary(token), *op);
    }
}

#[test]
fn operators_at_the_end_of_the_source() {
    assert_eq!(binary(&lex("1 *")[1]), BinaryOperatorType::Mul);
    assert_eq!(binary(&lex("1 /")[1]), BinaryOperatorType::Div);
    assert_eq!(binary(&lex("1 <")[1]), BinaryOperatorType::Less);
    assert_eq!(binary(&lex("1 >")[1]), BinaryOperatorType::More);
    assert!(matches!(lex("x =")[1], Token::Assignment));
}

#[test]
fn three_stars_are_a_power_and_a_product() {
    let tokens = lex("2***3");
    assert_eq!(tokens.len(), 4);
    assert_eq!(binary(&tokens[1]), BinaryOperatorType::Exp);
    assert_eq!(binary(&tokens[2]), BinaryOperatorType::Mul);
}

#[test]
fn single_equals_is_the_assignment() {
    let tokens = lex("x = 1");
    assert_eq!(tokens.len(), 3);
    assert!(matches!(tokens[1], Token::Assignment));
}

#[test]
fn parentheses() {
    let tokens = lex("(1)");
    assert_eq!(tokens.len(), 3);
    assert!(matches!(tokens[0], Token::OpenParen));
    assert!(matches!(tokens[1], Token::Integer(1)));
    assert!(matches!(tokens[2], Token::CloseParen));
}

#[test]
fn minus_at_the_start_is_a_sign() {
    let tokens = lex("-7");
    assert_eq!(tokens.len(), 2);
    assert!(matches!(tokens[0], Token::UnaryOperator(UnaryOperatorType::Negative)));
    assert!(matches!(tokens[1], Token::Integer(7)));
}

#[test]
fn minus_after_a_token_that_is_no_binary_operator_is_a_sign() {
    let tokens = lex("5 - 3");
    assert_eq!(tokens.len(), 3);
    assert!(matches!(tokens[1], Token::UnaryOperator(UnaryOperatorType::Negative)));
    let tokens = lex("(-3");
    assert!(matches!(tokens[1], Token::UnaryOperator(UnaryOperatorType::Negative)));
    let tokens = lex("!-3");
    assert!(matches!(tokens[1], Token::UnaryOperator(UnaryOperatorType::Negative)));
}

#[test]
fn minus_after_a_binary_operator_is_a_subtraction() {
    let tokens = lex("2 * - 3");
    assert_eq!(tokens.len(), 4);
    assert_eq!(binary(&tokens[1]), BinaryOperatorType::Mul);
    assert_eq!(binary(&tokens[2]), BinaryOperatorType::Sub);
    let tokens = lex("1 != -2");
    assert_eq!(binary(&tokens[1]), BinaryOperatorType::NotEqual);
    assert_eq!(binary(&tokens[2]), BinaryOperatorType::Sub);
}

#[test]
fn exclamation_mark_looks_ahead() {
    let tokens = lex("!x");
    assert!(matches!(tokens[0], Token::UnaryOperator(UnaryOperatorType::Not)));
    assert!(matches!(&tokens[1], Token::Identifier(name) if name == "x"));
    let tokens = lex("1 != 2");
    assert_eq!(tokens.len(), 3);
    assert_eq!(binary(&tokens[1]), BinaryOperatorType::NotEqual);
    let tokens = lex("!!1");
    assert_eq!(tokens.len(), 3);
    assert!(matches!(tokens[1], Token::UnaryOperator(UnaryOperatorType::Not)));
}

#[test]
fn exclamation_mark_at_the_end_is_an_error() {
    assert!(matches!(lex_error("1 !"), LexError::UnexpectedCharacter('!')));
}

#[test]
fn tilde_is_always_unary() {
    let tokens = lex("1 ~ 2");
    assert!(matches!(tokens[1], Token::UnaryOperator(UnaryOperatorType::Invert)));
}

#[test]
fn literal_ends_at_operator_and_parenthesis() {
    let tokens = lex("(12+3)*4");
    assert_eq!(tokens.len(), 7);
    assert!(matches!(tokens[1], Token::Integer(12)));
    assert_eq!(binary(&tokens[2]), BinaryOperatorType::Add);
    assert!(matches!(tokens[3], Token::Integer(3)));
    assert!(matches!(tokens[4], Token::CloseParen));
    assert_eq!(binary(&tokens[5]), BinaryOperatorType::Mul);
    assert!(matches!(tokens[6], Token::Integer(4)));
}

#[test]
fn empty_source_has_no_tokens() {
    assert!(lex("").is_empty());
    assert!(lex("   ").is_empty());
}

#[test]
fn precedence_table() {
    assert_eq!(BinaryOperatorType::Or.order(), 0);
    assert_eq!(BinaryOperatorType::Xor.order(), 1);
    assert_eq!(BinaryOperatorType::And.order(), 2);
    for op in [
        BinaryOperatorType::Less,
        BinaryOperatorType::LessEq,
        BinaryOperatorType::More,
        BinaryOperatorType::MoreEq,
        BinaryOperatorType::Equal,
        BinaryOperatorType::NotEqual,
    ] {
        assert_eq!(op.order(), 3);
    }
    assert_eq!(BinaryOperatorType::Shl.order(), 4);
    assert_eq!(BinaryOperatorType::Shr.order(), 4);
    assert_eq!(BinaryOperatorType::Add.order(), 5);
    assert_eq!(BinaryOperatorType::Sub.order(), 5);
    assert_eq!(BinaryOperatorType::Mul.order(), 6);
    assert_eq!(BinaryOperatorType::Div.order(), 6);
    assert_eq!(BinaryOperatorType::Mod.order(), 6);
    assert_eq!(BinaryOperatorType::Fdiv.order(), 6);
    assert_eq!(BinaryOperatorType::Exp.order(), 7);
}

#[test]
fn digits_of_each_base() {
    assert!(NumberBaseType::Decimal.is_char_valid('9'));
    assert!(!NumberBaseType::Decimal.is_char_valid('a'));
    assert!(NumberBaseType::Binary.is_char_valid('1'));
    assert!(!NumberBaseType::Binary.is_char_valid('2'));
    assert!(NumberBaseType::Octal.is_char_valid('7'));
    assert!(!NumberBaseType::Octal.is_char_valid('8'));
    assert!(NumberBaseType::Hex.is_char_valid('f'));
    assert!(NumberBaseType::Hex.is_char_valid('F'));
    assert!(NumberBaseType::Hex.is_char_valid('0'));
    assert!(!NumberBaseType::Hex.is_char_valid('g'));
    assert!(!NumberBaseType::Hex.is_char_valid('\u{ff21}'));
}

#[test]
fn token_equality_looks_at_the_variant_only() {
    assert!(Token::Integer(1) == Token::Integer(2));
    assert!(Token::Identifier("a".to_string()) == Token::Identifier("b".to_string()));
    assert!(Token::Float("1.5".to_string()) == Token::Float("2.5".to_string()));
    assert!(
        Token::BinaryOperator(BinaryOperatorType::Add)
            == Token::BinaryOperator(BinaryOperatorType::Mul)
    );
    assert!(
        Token::UnaryOperator(UnaryOperatorType::Not)
            == Token::UnaryOperator(UnaryOperatorType::Invert)
    );
    assert!(Token::Invalid == Token::Invalid);
    assert!(Token::Assignment == Token::Assignment);
    assert!(Token::OpenParen == Token::OpenParen);
    assert!(Token::CloseParen == Token::CloseParen);
    assert!(Token::Integer(1) != Token::Float("1.0".to_string()));
    assert!(Token::OpenParen != Token::CloseParen);
    assert!(
        Token::UnaryOperator(UnaryOperatorType::Negative)
            != Token::BinaryOperator(BinaryOperatorType::Sub)
    );
    assert!(Token::Invalid != Token::Assignment);
}

#[test]
fn token_predicates() {
    let int = Token::Integer(1);
    let float = Token::Float("1.5".to_string());
    let name = Token::Identifier("x".to_string());
    let unary = Token::UnaryOperator(UnaryOperatorType::Negative);
    let binary = Token::BinaryOperator(BinaryOperatorType::Add);
    assert!(int.is_value() && float.is_value() && name.is_value());
    assert!(!unary.is_value() && !Token::OpenParen.is_value());
    assert!(unary.is_operator() && binary.is_operator());
    assert!(!int.is_operator() && !Token::Assignment.is_operator());
    assert!(unary.is_unary_operator() && !binary.is_unary_operator());
    assert!(binary.is_binary_operator() && !unary.is_binary_operator());
    assert!(name.is_identifier() && !int.is_identifier());
    assert_eq!(int.kind(), TokenKind::Integer);
    assert_eq!(Token::CloseParen.kind(), TokenKind::CloseParen);
}

#[test]
fn token_clone_keeps_the_payload() {
    let name = Token::Identifier("abc".to_string());
    assert!(matches!(name.clone(), Token::Identifier(text) if text == "abc"));
    assert!(matches!(Token::Integer(7).clone(), Token::Integer(7)));
    assert!(matches!(Token::Float("1.5".to_string()).clone(), Token::Float(text) if text == "1.5"));
}

#[test]
fn case_mapping() {
    assert_eq!('A'.as_lowercase(), 'a');
    assert_eq!('Z'.as_lowercase(), 'z');
    assert_eq!('a'.as_lowercase(), 'a');
    assert_eq!('1'.as_lowercase(), '1');
    assert_eq!('\u{c9}'.as_lowercase(), '\u{e9}');
    assert_eq!('a'.as_uppercase(), 'A');
    assert_eq!('z'.as_uppercase(), 'Z');
    assert_eq!('Q'.as_uppercase(), 'Q');
    assert_eq!('~'.as_uppercase(), '~');
    assert_eq!('\u{e9}'.as_uppercase(), '\u{c9}');
    assert_eq!('\u{df}'.as_uppercase(), 'S');
}
