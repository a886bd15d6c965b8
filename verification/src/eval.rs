//! The evaluator: a stack machine that runs over tokens in evaluation order.
//!
//! The machine does all integer work itself. Where an operation needs
//! floating-point arithmetic it stops and hands out a `FloatRequest`; the
//! caller computes the answer and resumes the machine with it.
use crate::binary64::{bits_is_zero, floor, floor_of, is_zero};
use crate::collections::{Queue, Stack};
use crate::token::{
    views, BinaryOperatorType, Token, TokenKind, TokenView, UnaryOperatorType,
};
use crate::value::{
    Computation, ComputationView, FloatOperand, FloatRequest, FloatRequestView, Value,
};
use vstd::hash_map::StringHashMap;
use vstd::pervasive::unreached;
use vstd::prelude::*;

verus! {

/// Why an evaluation failed.
#[derive(Debug)]
pub enum EvalError {
    /// An identifier without a binding; carries its name.
    UndefinedVariable(String),
    /// A binary operator met fewer than two values.
    InsufficientOperands(BinaryOperatorType),
    /// `~` was applied to a value that is no integer.
    NonIntegerInvert,
    /// A bitwise operator met a floating-point operand.
    FloatBitwise(BinaryOperatorType),
    /// An integer division by zero, or one whose quotient is out of range.
    DivisionFailure(BinaryOperatorType),
    /// An open parenthesis that was never closed.
    UnmatchedOpenParen,
    /// A closing parenthesis with no matching open parenthesis.
    UnmatchedCloseParen,
    /// A token that is no part of an expression.
    UnexpectedToken(TokenKind),
    /// The tokens left no value behind.
    NoValue,
}

pub ghost enum EvalErrorView {
    UndefinedVariable(Seq<char>),
    InsufficientOperands(BinaryOperatorType),
    NonIntegerInvert,
    FloatBitwise(BinaryOperatorType),
    DivisionFailure(BinaryOperatorType),
    UnmatchedOpenParen,
    UnmatchedCloseParen,
    UnexpectedToken(TokenKind),
    NoValue,
}

impl View for EvalError {
    type V = EvalErrorView;

    open spec fn view(&self) -> EvalErrorView {
        match self {
            EvalError::UndefinedVariable(name) => EvalErrorView::UndefinedVariable(name@),
            EvalError::InsufficientOperands(op) => EvalErrorView::InsufficientOperands(*op),
            EvalError::NonIntegerInvert => EvalErrorView::NonIntegerInvert,
            EvalError::FloatBitwise(op) => EvalErrorView::FloatBitwise(*op),
            EvalError::DivisionFailure(op) => EvalErrorView::DivisionFailure(*op),
            EvalError::UnmatchedOpenParen => EvalErrorView::UnmatchedOpenParen,
            EvalError::UnmatchedCloseParen => EvalErrorView::UnmatchedCloseParen,
            EvalError::UnexpectedToken(kind) => EvalErrorView::UnexpectedToken(*kind),
            EvalError::NoValue => EvalErrorView::NoValue,
        }
    }
}

/// The variables: a mapping from names to values, which evaluation only reads.
pub struct Bindings {
    map: StringHashMap<Value>,
}

impl View for Bindings {
    type V = Map<Seq<char>, Value>;

    closed spec fn view(&self) -> Map<Seq<char>, Value> {
        self.map@
    }
}

impl Bindings {
    pub fn new() -> (bindings: Self)
        ensures
            bindings@ == Map::<Seq<char>, Value>::empty(),
    {
        Bindings { map: StringHashMap::new() }
    }

    /// Binds `name` to `value`, in place of any value that it was bound to.
    pub fn set(&mut self, name: &String, value: Value)
        ensures
            final(self)@ == old(self)@.insert(name@, value),
    {
        self.map.insert(name.clone(), value);
    }

    pub fn get(&self, name: &str) -> (value: Option<Value>)
        ensures
            value == (if self@.contains_key(name@) {
                Some(self@[name@])
            } else {
                None
            }),
    {
        match self.map.get(name) {
            Some(value) => Some(*value),
            None => None,
        }
    }
}

/// What an operator makes of its operands: a value, floating-point work
/// (whose answer is floored where the flag is set), or an error.
pub ghost enum AppliedView {
    Value(Value),
    Ask(FloatRequestView, bool),
    Fail(EvalErrorView),
}

/// The value `1` where `truth` holds, and `0` where it does not.
pub open spec fn truth_value(truth: bool) -> Value {
    Value::Integer(
        if truth {
            1
        } else {
            0
        },
    )
}

pub open spec fn of_computation(computation: ComputationView, floor: bool) -> AppliedView {
    match computation {
        ComputationView::Ready(value) => AppliedView::Value(
            if floor {
                value.floored()
            } else {
                value
            },
        ),
        ComputationView::Deferred(request) => AppliedView::Ask(request, floor),
    }
}

pub open spec fn of_bitwise(outcome: Result<Value, FloatOperand>) -> AppliedView {
    match outcome {
        Ok(value) => AppliedView::Value(value),
        Err(FloatOperand(op)) => AppliedView::Fail(EvalErrorView::FloatBitwise(op)),
    }
}

/// A unary operator applied to a value. `!` gives `1` for a value that is
/// zero as a binary64 number, and `0` for any other; `~` takes an integer only.
pub open spec fn unary_applied(op: UnaryOperatorType, value: Value) -> AppliedView {
    match op {
        UnaryOperatorType::Negative => AppliedView::Value(value.negation()),
        UnaryOperatorType::Not => AppliedView::Value(truth_value(is_zero(value.float_bits()))),
        UnaryOperatorType::Invert => match value {
            Value::Integer(i) => AppliedView::Value(Value::Integer(!i)),
            _ => AppliedView::Fail(EvalErrorView::NonIntegerInvert),
        },
    }
}

/// A binary operator applied to a left and a right value. The quotient of
/// `//` is floored. A comparison gives `1` where it holds and `0` where it
/// does not. The operators `< <= > >=` go by the three classes of the order:
/// a pair that is neither below nor level, one with an undefined value or a
/// NaN too, counts as greater, so that `>` and `>=` hold of it.
pub open spec fn binary_applied(op: BinaryOperatorType, left: Value, right: Value) -> AppliedView {
    match op {
        BinaryOperatorType::Add => of_computation(left.sum(right), false),
        BinaryOperatorType::Sub => of_computation(left.difference(right), false),
        BinaryOperatorType::Mul => of_computation(left.product(right), false),
        BinaryOperatorType::Div => if left.divisible_by(right) {
            of_computation(left.quotient(right), false)
        } else {
            AppliedView::Fail(EvalErrorView::DivisionFailure(op))
        },
        BinaryOperatorType::Mod => if left.divisible_by(right) {
            of_computation(left.remainder(right), false)
        } else {
            AppliedView::Fail(EvalErrorView::DivisionFailure(op))
        },
        BinaryOperatorType::Exp => of_computation(left.power(right), false),
        BinaryOperatorType::Fdiv => if left.divisible_by(right) {
            of_computation(left.quotient(right), true)
        } else {
            AppliedView::Fail(EvalErrorView::DivisionFailure(op))
        },
        BinaryOperatorType::And => of_bitwise(left.conjunction(right)),
        BinaryOperatorType::Or => of_bitwise(left.disjunction(right)),
        BinaryOperatorType::Xor => of_bitwise(left.exclusive(right)),
        BinaryOperatorType::Shl => of_bitwise(left.shifted_left(right)),
        BinaryOperatorType::Shr => of_bitwise(left.shifted_right(right)),
        BinaryOperatorType::Less => AppliedView::Value(truth_value(left.below(right))),
        BinaryOperatorType::LessEq => AppliedView::Value(
            truth_value(left.below(right) || left.level_with(right)),
        ),
        BinaryOperatorType::More => AppliedView::Value(
            truth_value(!left.below(right) && !left.level_with(right)),
        ),
        BinaryOperatorType::MoreEq => AppliedView::Value(truth_value(!left.below(right))),
        BinaryOperatorType::Equal => AppliedView::Value(truth_value(left.same_as(right))),
        BinaryOperatorType::NotEqual => AppliedView::Value(truth_value(!left.same_as(right))),
    }
}

/// The machine between two tokens: the tokens still to come and the stack of
/// results, its top last.
pub ghost struct Machine {
    pub pending: Seq<TokenView>,
    pub stack: Seq<Value>,
}

/// A machine that waits for the answer to a request; `floor` says that the
/// answer is to be floored.
pub ghost struct SuspensionView {
    pub machine: Machine,
    pub request: FloatRequestView,
    pub floor: bool,
}

pub ghost enum ProgressView {
    Finished(Result<Value, EvalErrorView>),
    Suspended(SuspensionView),
}

/// What one token does to the stack.
pub ghost enum Effect {
    Stack(Seq<Value>),
    Ask(Seq<Value>, FloatRequestView, bool),
    Fail(EvalErrorView),
}

/// The stack without the operands of an operator, under what the operator made of them.
pub open spec fn effect_of(rest: Seq<Value>, applied: AppliedView) -> Effect {
    match applied {
        AppliedView::Value(value) => Effect::Stack(rest.push(value)),
        AppliedView::Ask(request, floor) => Effect::Ask(rest, request, floor),
        AppliedView::Fail(error) => Effect::Fail(error),
    }
}

/// The effect of one token. An integer literal is pushed; a floating-point
/// literal is handed out to be read; an identifier pushes the value it is
/// bound to. A unary operator replaces the top of the stack, and does nothing
/// to an empty stack. A binary operator takes the top as its right operand and
/// the value under it as its left one. Any other token is an error.
pub open spec fn effect(stack: Seq<Value>, token: TokenView, bindings: Map<Seq<char>, Value>)
    -> Effect {
    match token {
        TokenView::Integer(i) => Effect::Stack(stack.push(Value::Integer(i))),
        TokenView::Float(text) => Effect::Ask(stack, FloatRequestView::Parse(text), false),
        TokenView::Identifier(name) => if bindings.contains_key(name) {
            Effect::Stack(stack.push(bindings[name]))
        } else {
            Effect::Fail(EvalErrorView::UndefinedVariable(name))
        },
        TokenView::UnaryOperator(op) => if stack.len() == 0 {
            Effect::Stack(stack)
        } else {
            effect_of(stack.drop_last(), unary_applied(op, stack.last()))
        },
        TokenView::BinaryOperator(op) => if stack.len() < 2 {
            Effect::Fail(EvalErrorView::InsufficientOperands(op))
        } else {
            effect_of(
                stack.drop_last().drop_last(),
                binary_applied(op, stack[stack.len() - 2], stack.last()),
            )
        },
        TokenView::OpenParen => Effect::Fail(EvalErrorView::UnmatchedOpenParen),
        TokenView::CloseParen => Effect::Fail(EvalErrorView::UnmatchedCloseParen),
        TokenView::Invalid | TokenView::Assignment => Effect::Fail(
            EvalErrorView::UnexpectedToken(token.kind()),
        ),
    }
}

impl Machine {
    /// Runs the machine until the tokens are used up, an error stops it, or
    /// it needs floating-point work. At the end the top of the stack is the
    /// result.
    pub open spec fn run(self, bindings: Map<Seq<char>, Value>) -> ProgressView
        decreases self.pending.len(),
    {
        if self.pending.len() == 0 {
            ProgressView::Finished(
                if self.stack.len() > 0 {
                    Ok(self.stack.last())
                } else {
                    Err(EvalErrorView::NoValue)
                },
            )
        } else {
            let rest = self.pending.drop_first();
            match effect(self.stack, self.pending.first(), bindings) {
                Effect::Stack(stack) => (Machine { pending: rest, stack }).run(bindings),
                Effect::Ask(stack, request, floor) => ProgressView::Suspended(
                    SuspensionView { machine: Machine { pending: rest, stack }, request, floor },
                ),
                Effect::Fail(error) => ProgressView::Finished(Err(error)),
            }
        }
    }

    /// The machine at the start of an evaluation.
    pub open spec fn start(ordered: Seq<TokenView>) -> Machine {
        Machine { pending: ordered, stack: Seq::empty() }
    }
}

impl SuspensionView {
    /// The value that an answer stands for.
    pub open spec fn answer_value(self, answer: u64) -> Value {
        if self.floor {
            Value::Integer(floor_of(answer))
        } else {
            Value::Float(answer)
        }
    }

    /// The machine goes on with the value of the answer on its stack.
    pub open spec fn resumed(self, answer: u64, bindings: Map<Seq<char>, Value>) -> ProgressView {
        (Machine {
            pending: self.machine.pending,
            stack: self.machine.stack.push(self.answer_value(answer)),
        }).run(bindings)
    }
}

/// The result of evaluating tokens in evaluation order, as far as it can be
/// had without floating-point work.
pub open spec fn evaluated(ordered: Seq<TokenView>, bindings: Map<Seq<char>, Value>)
    -> ProgressView {
    Machine::start(ordered).run(bindings)
}

/// What an operator makes of its operands.
#[derive(Debug)]
pub enum Applied {
    Value(Value),
    Ask(FloatRequest, bool),
    Fail(EvalError),
}

impl View for Applied {
    type V = AppliedView;

    open spec fn view(&self) -> AppliedView {
        match self {
            Applied::Value(value) => AppliedView::Value(*value),
            Applied::Ask(request, floor) => AppliedView::Ask(request@, *floor),
            Applied::Fail(error) => AppliedView::Fail(error@),
        }
    }
}

fn truth(holds: bool) -> (value: Value)
    ensures
        value == truth_value(holds),
{
    Value::Integer(
        if holds {
            1
        } else {
            0
        },
    )
}

fn from_computation(computation: Computation, floor: bool) -> (applied: Applied)
    ensures
        applied@ == of_computation(computation@, floor),
{
    match computation {
        Computation::Ready(value) => Applied::Value(
            if floor {
                value.floor()
            } else {
                value
            },
        ),
        Computation::Deferred(request) => Applied::Ask(request, floor),
    }
}

fn from_bitwise(outcome: Result<Value, FloatOperand>) -> (applied: Applied)
    ensures
        applied@ == of_bitwise(outcome),
{
    match outcome {
        Ok(value) => Applied::Value(value),
        Err(FloatOperand(op)) => Applied::Fail(EvalError::FloatBitwise(op)),
    }
}

/// Applies a unary operator to a value.
pub fn apply_unary(op: UnaryOperatorType, value: Value) -> (applied: Applied)
    ensures
        applied@ == unary_applied(op, value),
{
    match op {
        UnaryOperatorType::Negative => Applied::Value(value.neg()),
        UnaryOperatorType::Not => Applied::Value(truth(bits_is_zero(value.as_float()))),
        UnaryOperatorType::Invert => {
            match value {
                Value::Integer(i) => Applied::Value(Value::Integer(!i)),
                _ => Applied::Fail(EvalError::NonIntegerInvert),
            }
        },
    }
}

/// Applies a binary operator to a left and a right value.
pub fn apply_binary(op: BinaryOperatorType, left: Value, right: Value) -> (applied: Applied)
    ensures
        applied@ == binary_applied(op, left, right),
{
    match op {
        BinaryOperatorType::Add => from_computation(left.add(right), false),
        BinaryOperatorType::Sub => from_computation(left.sub(right), false),
        BinaryOperatorType::Mul => from_computation(left.mul(right), false),
        BinaryOperatorType::Div => {
            if left.can_divide_by(&right) {
                from_computation(left.div(right), false)
            } else {
                Applied::Fail(EvalError::DivisionFailure(op))
            }
        },
        BinaryOperatorType::Mod => {
            if left.can_divide_by(&right) {
                from_computation(left.rem(right), false)
            } else {
                Applied::Fail(EvalError::DivisionFailure(op))
            }
        },
        BinaryOperatorType::Exp => from_computation(left.pow(right), false),
        BinaryOperatorType::Fdiv => {
            if left.can_divide_by(&right) {
                from_computation(left.div(right), true)
            } else {
                Applied::Fail(EvalError::DivisionFailure(op))
            }
        },
        BinaryOperatorType::And => from_bitwise(left.bitand(right)),
        BinaryOperatorType::Or => from_bitwise(left.bitor(right)),
        BinaryOperatorType::Xor => from_bitwise(left.bitxor(right)),
        BinaryOperatorType::Shl => from_bitwise(left.shl(right)),
        BinaryOperatorType::Shr => from_bitwise(left.shr(right)),
        BinaryOperatorType::Less => Applied::Value(truth(left.is_below(&right))),
        BinaryOperatorType::LessEq => Applied::Value(
            truth(left.is_below(&right) || left.is_level_with(&right)),
        ),
        BinaryOperatorType::More => Applied::Value(
            truth(!left.is_below(&right) && !left.is_level_with(&right)),
        ),
        BinaryOperatorType::MoreEq => Applied::Value(truth(!left.is_below(&right))),
        BinaryOperatorType::Equal => Applied::Value(truth(left == right)),
        BinaryOperatorType::NotEqual => Applied::Value(truth(!(left == right))),
    }
}

/// The stack machine.
#[derive(Debug)]
pub struct Evaluator {
    pending: Queue<Token>,
    results: Stack<Value>,
}

impl View for Evaluator {
    type V = Machine;

    closed spec fn view(&self) -> Machine {
        Machine { pending: views(self.pending@), stack: self.results@ }
    }
}

/// A machine that has stopped for floating-point work.
#[derive(Debug)]
pub struct Suspension {
    machine: Evaluator,
    request: FloatRequest,
    floor: bool,
}

impl View for Suspension {
    type V = SuspensionView;

    closed spec fn view(&self) -> SuspensionView {
        SuspensionView { machine: self.machine@, request: self.request@, floor: self.floor }
    }
}

/// How far an evaluation has come.
#[derive(Debug)]
pub enum Progress {
    /// It has ended, with a value or an error.
    Finished(Result<Value, EvalError>),
    /// It waits for the answer to a request.
    Suspended(Suspension),
}

impl View for Progress {
    type V = ProgressView;

    open spec fn view(&self) -> ProgressView {
        match self {
            Progress::Finished(Ok(value)) => ProgressView::Finished(Ok(*value)),
            Progress::Finished(Err(error)) => ProgressView::Finished(Err(error@)),
            Progress::Suspended(suspension) => ProgressView::Suspended(suspension@),
        }
    }
}

proof fn lemma_views_first(tokens: Seq<Token>)
    requires
        tokens.len() > 0,
    ensures
        views(tokens.drop_first()) == views(tokens).drop_first(),
        views(tokens).first() == tokens.first()@,
{
    assert(views(tokens.drop_first()) =~= views(tokens).drop_first());
}

impl Evaluator {
    /// A machine with an empty stack before the first of the tokens.
    pub fn new(ordered: Queue<Token>) -> (machine: Self)
        ensures
            machine@ == Machine::start(views(ordered@)),
    {
        Evaluator { pending: ordered, results: Stack::new() }
    }

    /// Runs the machine as far as it gets without floating-point work.
    pub fn run(self, bindings: &Bindings) -> (progress: Progress)
        ensures
            progress@ == self@.run(bindings@),
    {
        let mut machine = self;
        loop
            invariant
                machine@.run(bindings@) == self@.run(bindings@),
            decreases machine@.pending.len(),
        {
            let ghost here = machine@;
            proof {
                if machine.pending@.len() > 0 {
                    lemma_views_first(machine.pending@);
                }
            }
            let token = match machine.pending.dequeue() {
                Some(token) => token,
                None => {
                    return Progress::Finished(
                        match machine.results.pop() {
                            Some(value) => Ok(value),
                            None => Err(EvalError::NoValue),
                        },
                    );
                },
            };
            let applied = match token {
                Token::Integer(i) => Applied::Value(Value::Integer(i)),
                Token::Float(text) => Applied::Ask(FloatRequest::Parse(text), false),
                Token::Identifier(name) => {
                    match bindings.get(name.as_str()) {
                        Some(value) => Applied::Value(value),
                        None => Applied::Fail(EvalError::UndefinedVariable(name)),
                    }
                },
                Token::UnaryOperator(op) => {
                    match machine.results.pop() {
                        Some(value) => apply_unary(op, value),
                        None => {
                            continue ;
                        },
                    }
                },
                Token::BinaryOperator(op) => {
                    if machine.results.len() < 2 {
                        return Progress::Finished(Err(EvalError::InsufficientOperands(op)));
                    }
                    let right = machine.results.pop();
                    let left = machine.results.pop();
                    match (left, right) {
                        (Some(l), Some(r)) => apply_binary(op, l, r),
                        _ => unreached(),
                    }
                },
                Token::OpenParen => Applied::Fail(EvalError::UnmatchedOpenParen),
                Token::CloseParen => Applied::Fail(EvalError::UnmatchedCloseParen),
                Token::Invalid => Applied::Fail(EvalError::UnexpectedToken(TokenKind::Invalid)),
                Token::Assignment => Applied::Fail(
                    EvalError::UnexpectedToken(TokenKind::Assignment),
                ),
            };
            assert(effect(here.stack, here.pending.first(), bindings@) == effect_of(
                machine@.stack,
                applied@,
            ));
            match applied {
                Applied::Value(value) => {
                    machine.results.push(value);
                },
                Applied::Ask(request, floor) => {
                    return Progress::Suspended(Suspension { machine, request, floor });
                },
                Applied::Fail(error) => {
                    return Progress::Finished(Err(error));
                },
            }
        }
    }
}

impl Suspension {
    /// The work that the machine waits for.
    pub fn request(&self) -> (request: &FloatRequest)
        ensures
            request@ == self@.request,
    {
        &self.request
    }

    /// Hands the machine the answer to its request, and runs it on.
    pub fn resume(self, answer: u64, bindings: &Bindings) -> (progress: Progress)
        ensures
            progress@ == self@.resumed(answer, bindings@),
    {
        let mut machine = self.machine;
        let value = if self.floor {
            Value::Integer(floor(answer))
        } else {
            Value::Float(answer)
        };
        machine.results.push(value);
        machine.run(bindings)
    }
}

/// Evaluates tokens in evaluation order against the bindings.
pub fn evaluate(ordered: Queue<Token>, bindings: &Bindings) -> (progress: Progress)
    ensures
        progress@ == evaluated(views(ordered@), bindings@),
{
    Evaluator::new(ordered).run(bindings)
}

} // verus!
