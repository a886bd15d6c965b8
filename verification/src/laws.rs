//! Laws that hold of the tokenizer, the reorderer and the evaluator together.
use crate::calculator::calculated;
use crate::chars::{
    is_alphanumeric, is_ascii_digit, is_letter, is_operator_char, is_space, is_terminator,
};
use crate::eval::{effect, evaluated, Effect, Machine, ProgressView};
use crate::lexer::{lemma_step_progress, tokens_of, LexErrorView, Scanner, Step};
use crate::number::{all_digits, digit_value, digits_value, integer_of, reinterpret, unsigned_of};
use crate::render::{
    bits_of, digit_char, digits_of, integer_text, lemma_quotient_smaller, prefix_of,
};
use crate::reorder::{drained, placed, release_tighter, reordered, yard_after, Yard};
use crate::token::{
    BinaryOperatorType, NumberBaseType, TokenView, TokenizerState, UnaryOperatorType,
};
use crate::value::{ComputationView, Value};
use vstd::prelude::*;

verus! {

/// The tokenizer inside a literal of digits: from `start` on, `src` holds
/// only digits of `base`, and those before `pos` are in the scratch. It reads
/// on to the end and produces the integer that the digits denote, or fails
/// where they denote none.
pub proof fn lemma_reads_digits(
    src: Seq<char>,
    start: int,
    pos: int,
    base: NumberBaseType,
    tokens: Seq<TokenView>,
)
    requires
        0 <= start <= pos <= src.len(),
        all_digits(src.skip(start), base),
    ensures
        (Scanner {
            state: TokenizerState::Number,
            pos,
            tokens,
            text: src.subrange(start, pos),
            base,
            seen_point: false,
        }).run(src) == (match integer_of(src.skip(start), base) {
            Some(value) => Ok::<Seq<TokenView>, LexErrorView>(
                tokens.push(TokenView::Integer(value)),
            ),
            None => Err::<Seq<TokenView>, LexErrorView>(
                LexErrorView::NumberParse(src.skip(start)),
            ),
        }),
    decreases src.len() - pos,
{
    let sc = Scanner {
        state: TokenizerState::Number,
        pos,
        tokens,
        text: src.subrange(start, pos),
        base,
        seen_point: false,
    };
    if pos == src.len() {
        assert(src.subrange(start, pos) =~= src.skip(start));
        match integer_of(src.skip(start), base) {
            Some(value) => {
                let next = sc.emit(TokenView::Integer(value), pos);
                assert(sc.step(src) == Step::Next(next));
                assert(next.step(src) == Step::Done(next.tokens));
                assert(next.run(src) == Ok::<Seq<TokenView>, LexErrorView>(next.tokens));
            },
            None => {
                assert(sc.step(src) == Step::Fail(LexErrorView::NumberParse(sc.text)));
            },
        }
    } else {
        let c = src[pos];
        assert(src.skip(start)[pos - start] == c);
        assert(base.has_digit(c));
        let next = Scanner { pos: pos + 1, text: sc.text.push(c), ..sc };
        assert(sc.step(src) == Step::Next(next));
        assert(sc.text.push(c) =~= src.subrange(start, pos + 1));
        lemma_reads_digits(src, start, pos + 1, base, tokens);
    }
}

/// The tokenizer in its default state before a text of decimal digits that
/// does not start with a zero and runs to the end of the source.
proof fn lemma_reads_decimal(src: Seq<char>, start: int, tokens: Seq<TokenView>)
    requires
        0 <= start < src.len(),
        all_digits(src.skip(start), NumberBaseType::Decimal),
        src[start] != '0',
    ensures
        (Scanner { state: TokenizerState::Default, pos: start, tokens, ..Scanner::start() }).run(
            src,
        ) == (match integer_of(src.skip(start), NumberBaseType::Decimal) {
            Some(value) => Ok::<Seq<TokenView>, LexErrorView>(
                tokens.push(TokenView::Integer(value)),
            ),
            None => Err::<Seq<TokenView>, LexErrorView>(
                LexErrorView::NumberParse(src.skip(start)),
            ),
        }),
{
    let sc = Scanner { state: TokenizerState::Default, pos: start, tokens, ..Scanner::start() };
    let c = src[start];
    assert(src.skip(start)[0] == c);
    assert(is_ascii_digit(c));
    let next = sc.number(NumberBaseType::Decimal, seq![c], start + 1);
    assert(sc.step(src) == Step::Next(next));
    assert(seq![c] =~= src.subrange(start, start + 1));
    lemma_reads_digits(src, start, start + 1, NumberBaseType::Decimal, tokens);
}

/// The evaluation of one integer literal is its value.
proof fn lemma_literal_evaluates(value: i64, variables: Map<Seq<char>, Value>)
    ensures
        evaluated(reordered(seq![TokenView::Integer(value)]), variables) == ProgressView::Finished(
            Ok(Value::Integer(value)),
        ),
{
    let token = TokenView::Integer(value);
    let tokens = seq![token];
    let empty = Yard { stack: Seq::empty(), output: Seq::empty() };
    assert(tokens.drop_last() =~= Seq::<TokenView>::empty());
    assert(yard_after(tokens.drop_last()) == empty);
    assert(yard_after(tokens) == placed(empty, token));
    assert(Seq::<TokenView>::empty().push(token) =~= tokens);
    assert(reordered(tokens) == tokens);
    let machine = Machine::start(tokens);
    let after = Machine { pending: tokens.drop_first(), stack: seq![Value::Integer(value)] };
    assert(Seq::<Value>::empty().push(Value::Integer(value)) =~= seq![Value::Integer(value)]);
    assert(effect(machine.stack, tokens.first(), variables) == Effect::Stack(after.stack));
    assert(machine.run(variables) == after.run(variables));
    assert(after.pending.len() == 0);
}

/// A text of decimal digits that is the literal of an integer `n` is
/// tokenized to the one token of that integer, and evaluates to `n`.
///
/// The text must not start with a zero, unless it is the one digit `0`: a text
/// with a leading zero is read in base eight. The law holds of such a text
/// too where its other digits are octal ones and mean the same number in both
/// bases.
pub proof fn law_decimal_literal(text: Seq<char>, variables: Map<Seq<char>, Value>)
    requires
        text.len() > 0,
        all_digits(text, NumberBaseType::Decimal),
        digits_value(text, 10) <= i64::MAX,
        text.len() == 1 || text[0] != '0' || (all_digits(text.skip(1), NumberBaseType::Octal)
            && digits_value(text.skip(1), 8) == digits_value(text, 10)),
    ensures
        tokens_of(text) == Ok::<Seq<TokenView>, LexErrorView>(
            seq![TokenView::Integer(digits_value(text, 10) as i64)],
        ),
        calculated(text, variables) == Ok::<ProgressView, LexErrorView>(
            ProgressView::Finished(Ok(Value::Integer(digits_value(text, 10) as i64))),
        ),
{
    let n = digits_value(text, 10) as i64;
    let sc = Scanner::start();
    let c = text[0];
    assert(is_ascii_digit(c));
    assert(Seq::<TokenView>::empty().push(TokenView::Integer(n)) =~= seq![TokenView::Integer(n)]);
    crate::number::lemma_value_nonnegative(text, NumberBaseType::Decimal);
    if c != '0' {
        assert(text.skip(0) =~= text);
        lemma_reads_decimal(text, 0, Seq::empty());
    } else if text.len() == 1 {
        assert(text.drop_last() =~= Seq::<char>::empty());
        assert(digits_value(text.drop_last(), 10) == 0);
        assert(digits_value(text, 10) == 0);
        assert(sc.step(text) == Step::Done(sc.tokens.push(TokenView::Integer(0))));
    } else {
        let d = text[1];
        assert(text.skip(1)[0] == d);
        assert(NumberBaseType::Octal.has_digit(d));
        let next = sc.number(NumberBaseType::Octal, Seq::empty(), 1);
        assert(sc.step(text) == Step::Next(next));
        assert(text.subrange(1, 1) =~= Seq::<char>::empty());
        lemma_reads_digits(text, 1, 1, NumberBaseType::Octal, Seq::empty());
        crate::number::lemma_value_nonnegative(text.skip(1), NumberBaseType::Octal);
    }
    lemma_literal_evaluates(n, variables);
}

/// The digits that `digits_of` writes are digits of the base, do not start
/// with a zero unless the number is zero, and denote the number.
pub proof fn lemma_digits_denote(value: nat, base: NumberBaseType)
    ensures
        digits_of(value, base.radix()).len() > 0,
        all_digits(digits_of(value, base.radix()), base),
        digits_value(digits_of(value, base.radix()), base.radix()) == value,
        value > 0 ==> digits_of(value, base.radix())[0] != '0',
    decreases value,
{
    let radix = base.radix();
    let digits = digits_of(value, radix);
    if value < radix {
        let c = digit_char(value as int);
        assert(digits =~= seq![c]);
        assert(digits.drop_last() =~= Seq::<char>::empty());
        assert(digits_value(digits.drop_last(), radix) == 0);
        assert(digit_value(c) == value);
    } else {
        let rest = (value as int / radix) as nat;
        let c = digit_char(value as int % radix);
        lemma_quotient_smaller(value as int, radix);
        lemma_digits_denote(rest, base);
        let head = digits_of(rest, radix);
        assert(digits == head.push(c));
        assert(digits.drop_last() =~= head);
        assert(0 <= value as int % radix < radix);
        assert(digit_value(c) == value as int % radix);
        assert(base.has_digit(c));
        assert(value as int == radix * (value as int / radix) + value as int % radix) by {
            vstd::arithmetic::div_mod::lemma_fundamental_div_mod(value as int, radix);
        }
        assert(digits_value(head, radix) * radix == radix * (value as int / radix))
            by (nonlinear_arith)
            requires
                digits_value(head, radix) == value as int / radix,
        ;
        assert(rest > 0) by (nonlinear_arith)
            requires
                value >= radix,
                radix >= 2,
                rest == value as int / radix,
        ;
        assert(digits[0] == head[0]);
    }
}

/// A literal with the prefix of base two, eight or sixteen is read as the
/// integer whose 64 bits its digits write.
proof fn lemma_prefixed_reads_back(i: i64, base: NumberBaseType)
    requires
        base != NumberBaseType::Decimal,
    ensures
        tokens_of(integer_text(i, base)) == Ok::<Seq<TokenView>, LexErrorView>(
            seq![TokenView::Integer(i)],
        ),
{
    let src = integer_text(i, base);
    let sc = Scanner::start();
    assert(Seq::<TokenView>::empty().push(TokenView::Integer(i)) =~= seq![TokenView::Integer(i)]);
    let digits = digits_of(bits_of(i), base.radix());
    lemma_digits_denote(bits_of(i), base);
    assert(src.skip(2) =~= digits);
    assert(src[0] == '0');
    assert(src[1] == prefix_of(base)[1]);
    let next = sc.number(base, Seq::empty(), 2);
    assert(sc.step(src) == Step::Next(next));
    assert(src.subrange(2, 2) =~= Seq::<char>::empty());
    lemma_reads_digits(src, 2, 2, base, Seq::empty());
    assert(unsigned_of(digits, base) == Some(bits_of(i) as u64));
    assert(reinterpret(bits_of(i) as u64) == i);
}

/// A minus sign before the digits of a positive number is tokenized to the
/// sign and the number.
proof fn lemma_signed_tokens(m: i64)
    requires
        m > 0,
    ensures
        tokens_of(seq!['-'] + digits_of(m as nat, 10)) == Ok::<Seq<TokenView>, LexErrorView>(
            seq![
                TokenView::UnaryOperator(UnaryOperatorType::Negative),
                TokenView::Integer(m),
            ],
        ),
{
    let src = seq!['-'] + digits_of(m as nat, 10);
    let sc = Scanner::start();
    let digits = digits_of(m as nat, 10);
    lemma_digits_denote(m as nat, NumberBaseType::Decimal);
    assert(src.skip(1) =~= digits);
    assert(src[0] == '-');
    assert(src[1] == digits[0]);
    let sign = TokenView::UnaryOperator(UnaryOperatorType::Negative);
    let number = TokenView::Integer(m);
    let next = sc.emit(sign, 1);
    assert(sc.step(src) == Step::Next(next));
    assert(next == Scanner {
        state: TokenizerState::Default,
        pos: 1,
        tokens: next.tokens,
        ..Scanner::start()
    });
    lemma_reads_decimal(src, 1, next.tokens);
    assert(next.tokens.push(number) =~= seq![sign, number]);
}

/// A sign before a number is reordered behind it.
proof fn lemma_sign_reorders(m: i64)
    ensures
        reordered(
            seq![
                TokenView::UnaryOperator(UnaryOperatorType::Negative),
                TokenView::Integer(m),
            ],
        ) == seq![TokenView::Integer(m), TokenView::UnaryOperator(UnaryOperatorType::Negative)],
{
    let sign = TokenView::UnaryOperator(UnaryOperatorType::Negative);
    let number = TokenView::Integer(m);
    let tokens = seq![sign, number];
    let empty = Yard { stack: Seq::empty(), output: Seq::empty() };
    let first = seq![sign];
    assert(first.drop_last() =~= Seq::<TokenView>::empty());
    assert(tokens.drop_last() =~= first);
    assert(yard_after(first.drop_last()) == empty);
    assert(yard_after(first) == placed(empty, sign));
    let waiting = Yard { stack: seq![sign], output: seq![number] };
    assert(Seq::<TokenView>::empty().push(sign) =~= seq![sign]);
    assert(Seq::<TokenView>::empty().push(number) =~= seq![number]);
    assert(yard_after(tokens) == waiting);
    let ordered = seq![number, sign];
    let emptied = Yard { stack: waiting.stack.drop_last(), output: ordered };
    assert(waiting.output.push(waiting.stack.last()) =~= ordered);
    assert(waiting.stack.drop_last() =~= Seq::<TokenView>::empty());
    assert(drained(waiting) == drained(emptied));
}

/// A number followed by a sign evaluates to the number negated.
proof fn lemma_negated_evaluates(m: i64, variables: Map<Seq<char>, Value>)
    requires
        m > 0,
    ensures
        evaluated(
            seq![TokenView::Integer(m), TokenView::UnaryOperator(UnaryOperatorType::Negative)],
            variables,
        ) == ProgressView::Finished(Ok(Value::Integer((-m) as i64))),
{
    let sign = TokenView::UnaryOperator(UnaryOperatorType::Negative);
    let number = TokenView::Integer(m);
    let ordered = seq![number, sign];
    let i = (-m) as i64;
    let machine = Machine::start(ordered);
    let pushed = Machine { pending: ordered.drop_first(), stack: seq![Value::Integer(m)] };
    assert(Seq::<Value>::empty().push(Value::Integer(m)) =~= pushed.stack);
    assert(effect(machine.stack, ordered.first(), variables) == Effect::Stack(pushed.stack));
    assert(machine.run(variables) == pushed.run(variables));
    let negated = Machine { pending: pushed.pending.drop_first(), stack: seq![Value::Integer(i)] };
    assert(pushed.pending.first() == sign);
    assert(pushed.stack.drop_last().push(Value::Integer(i)) =~= negated.stack);
    assert(effect(pushed.stack, sign, variables) == Effect::Stack(negated.stack));
    assert(pushed.run(variables) == negated.run(variables));
    assert(negated.pending.len() == 0);
}

/// An integer written in one of the bases is read back as the same integer.
///
/// In base two, eight and sixteen this holds of every integer. In base ten a
/// negative integer is written with a minus sign, which the tokenizer reads as
/// a token of its own; the evaluation then gives the integer back, but for the
/// least one, whose magnitude is no integer literal.
pub proof fn law_rendered_integer_reads_back(
    i: i64,
    base: NumberBaseType,
    variables: Map<Seq<char>, Value>,
)
    ensures
        base != NumberBaseType::Decimal || i >= 0 ==> tokens_of(integer_text(i, base)) == Ok::<
            Seq<TokenView>,
            LexErrorView,
        >(seq![TokenView::Integer(i)]),
        base != NumberBaseType::Decimal || i > i64::MIN ==> calculated(
            integer_text(i, base),
            variables,
        ) == Ok::<ProgressView, LexErrorView>(ProgressView::Finished(Ok(Value::Integer(i)))),
{
    let src = integer_text(i, base);
    if base != NumberBaseType::Decimal {
        lemma_prefixed_reads_back(i, base);
        lemma_literal_evaluates(i, variables);
    } else if i >= 0 {
        let digits = digits_of(i as nat, 10);
        lemma_digits_denote(i as nat, base);
        if i == 0 {
            assert(digits =~= seq!['0']);
        }
        law_decimal_literal(src, variables);
    } else if i > i64::MIN {
        let m = (-i) as i64;
        lemma_signed_tokens(m);
        lemma_sign_reorders(m);
        lemma_negated_evaluates(m, variables);
    }
}

/// An undefined operand makes the result of `+ - * / %` and of raising to a
/// power undefined, on whichever side it stands and whatever the other
/// operand is.
pub proof fn law_undefined_absorbs(other: Value)
    ensures
        Value::Undefined.sum(other) == ComputationView::Ready(Value::Undefined),
        other.sum(Value::Undefined) == ComputationView::Ready(Value::Undefined),
        Value::Undefined.difference(other) == ComputationView::Ready(Value::Undefined),
        other.difference(Value::Undefined) == ComputationView::Ready(Value::Undefined),
        Value::Undefined.product(other) == ComputationView::Ready(Value::Undefined),
        other.product(Value::Undefined) == ComputationView::Ready(Value::Undefined),
        Value::Undefined.quotient(other) == ComputationView::Ready(Value::Undefined),
        other.quotient(Value::Undefined) == ComputationView::Ready(Value::Undefined),
        Value::Undefined.remainder(other) == ComputationView::Ready(Value::Undefined),
        other.remainder(Value::Undefined) == ComputationView::Ready(Value::Undefined),
        Value::Undefined.power(other) == ComputationView::Ready(Value::Undefined),
        other.power(Value::Undefined) == ComputationView::Ready(Value::Undefined),
        Value::Undefined.negation() == Value::Undefined,
        Value::Undefined.floored() == Value::Undefined,
{
}

/// Whether the tokenizer, where it is about to read an operator, stands
/// before a character that operators are written with.
pub open spec fn before_operator(sc: Scanner, src: Seq<char>) -> bool {
    0 <= sc.pos <= src.len() && (sc.state == TokenizerState::BinaryOperator ==> sc.pos
        < src.len() && is_operator_char(src[sc.pos]))
}

proof fn lemma_operator_is_found(sc: Scanner, src: Seq<char>)
    requires
        before_operator(sc, src),
    ensures
        !(sc.run(src) matches Err(LexErrorView::InvalidOperator(_))),
    decreases sc.fuel(src),
{
    match sc.step(src) {
        Step::Next(next) => {
            lemma_step_progress(sc, src);
            assert(before_operator(next, src));
            lemma_operator_is_found(next, src);
        },
        _ => {},
    }
}

/// The tokenizer starts to read an operator only before a character that
/// operators are written with, so no source text has an invalid operator for
/// its lexical error.
pub proof fn law_operators_are_found(src: Seq<char>)
    ensures
        !(tokens_of(src) matches Err(LexErrorView::InvalidOperator(_))),
{
    lemma_operator_is_found(Scanner::start(), src);
}

/// Whether `c` can stand inside an identifier: a letter, a numeric character
/// or an underscore that ends no token.
pub open spec fn continues_name(c: char) -> bool {
    (is_alphanumeric(c) || c == '_') && !is_terminator(c)
}

/// The tokenizer inside an identifier that runs to the end of the source.
proof fn lemma_reads_name(src: Seq<char>, start: int, pos: int, tokens: Seq<TokenView>)
    requires
        0 <= start <= pos <= src.len(),
        forall|i: int| pos <= i < src.len() ==> continues_name(#[trigger] src[i]),
    ensures
        (Scanner {
            state: TokenizerState::Identifier,
            pos,
            tokens,
            text: src.subrange(start, pos),
            ..Scanner::start()
        }).run(src) == Ok::<Seq<TokenView>, LexErrorView>(
            tokens.push(TokenView::Identifier(src.skip(start))),
        ),
    decreases src.len() - pos,
{
    let sc = Scanner {
        state: TokenizerState::Identifier,
        pos,
        tokens,
        text: src.subrange(start, pos),
        ..Scanner::start()
    };
    if pos == src.len() {
        assert(src.subrange(start, pos) =~= src.skip(start));
        let next = sc.emit(TokenView::Identifier(sc.text), pos);
        assert(sc.step(src) == Step::Next(next));
        assert(next.step(src) == Step::Done(next.tokens));
        assert(next.run(src) == Ok::<Seq<TokenView>, LexErrorView>(next.tokens));
    } else {
        let c = src[pos];
        assert(continues_name(c));
        let next = Scanner { pos: pos + 1, text: sc.text.push(c), ..sc };
        assert(sc.step(src) == Step::Next(next));
        assert(sc.text.push(c) =~= src.subrange(start, pos + 1));
        lemma_reads_name(src, start, pos + 1, tokens);
    }
}

/// A text that starts with a letter or an underscore and goes on with
/// letters, numeric characters and underscores is tokenized to the one
/// identifier of that name.
pub proof fn law_name_is_one_identifier(name: Seq<char>)
    requires
        name.len() > 0,
        is_letter(name[0]) || name[0] == '_',
        !is_space(name[0]),
        forall|i: int| 1 <= i < name.len() ==> continues_name(#[trigger] name[i]),
    ensures
        tokens_of(name) == Ok::<Seq<TokenView>, LexErrorView>(
            seq![TokenView::Identifier(name)],
        ),
{
    let sc = Scanner::start();
    let c = name[0];
    let next = Scanner { state: TokenizerState::Identifier, pos: 1, text: seq![c], ..sc };
    assert(sc.step(name) == Step::Next(next));
    assert(seq![c] =~= name.subrange(0, 1));
    lemma_reads_name(name, 0, 1, Seq::empty());
    assert(name.skip(0) =~= name);
    assert(Seq::<TokenView>::empty().push(TokenView::Identifier(name)) =~= seq![
        TokenView::Identifier(name),
    ]);
}

/// Whether the token is a literal or an identifier.
pub open spec fn is_operand(token: TokenView) -> bool {
    token is Integer || token is Float || token is Identifier
}

proof fn lemma_operands_go_out(tokens: Seq<TokenView>)
    requires
        forall|i: int| 0 <= i < tokens.len() ==> is_operand(#[trigger] tokens[i]),
    ensures
        yard_after(tokens) == (Yard { stack: Seq::empty(), output: tokens }),
    decreases tokens.len(),
{
    if tokens.len() == 0 {
        assert(tokens =~= Seq::<TokenView>::empty());
    } else {
        let before = tokens.drop_last();
        assert forall|i: int| 0 <= i < before.len() implies is_operand(#[trigger] before[i]) by {
            assert(before[i] == tokens[i]);
        }
        lemma_operands_go_out(before);
        assert(is_operand(tokens[tokens.len() - 1]));
        assert(before.push(tokens.last()) =~= tokens);
    }
}

/// Literals and identifiers keep their places: a sequence of them is in
/// evaluation order as it stands.
pub proof fn law_operands_keep_their_places(tokens: Seq<TokenView>)
    requires
        forall|i: int| 0 <= i < tokens.len() ==> is_operand(#[trigger] tokens[i]),
    ensures
        reordered(tokens) == tokens,
{
    lemma_operands_go_out(tokens);
}

/// A binary operator between two operands goes behind them.
pub proof fn law_operator_follows_its_operands(
    left: TokenView,
    op: BinaryOperatorType,
    right: TokenView,
)
    requires
        is_operand(left),
        is_operand(right),
    ensures
        reordered(seq![left, TokenView::BinaryOperator(op), right]) == seq![
            left,
            right,
            TokenView::BinaryOperator(op),
        ],
{
    let operator = TokenView::BinaryOperator(op);
    let tokens = seq![left, operator, right];
    let one = seq![left];
    let two = seq![left, operator];
    assert(tokens.drop_last() =~= two);
    assert(two.drop_last() =~= one);
    lemma_operands_go_out(one);
    let empty = Seq::<TokenView>::empty();
    let first = Yard { stack: empty, output: one };
    assert(yard_after(one) == first);
    assert(release_tighter(first, op) == first);
    let second = Yard { stack: seq![operator], output: one };
    assert(empty.push(operator) =~= second.stack);
    assert(yard_after(two) == second);
    let third = Yard { stack: seq![operator], output: seq![left, right] };
    assert(one.push(right) =~= third.output);
    assert(yard_after(tokens) == third);
    let last = Yard { stack: third.stack.drop_last(), output: seq![left, right, operator] };
    assert(third.output.push(third.stack.last()) =~= last.output);
    assert(third.stack.drop_last() =~= empty);
    assert(drained(third) == drained(last));
}

} // verus!
