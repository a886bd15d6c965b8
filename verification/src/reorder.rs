//! The reorderer: the tokens of an expression, as written, are brought into
//! the order in which a stack evaluates them.
use crate::collections::{Queue, Stack};
use crate::token::{lemma_views_push, views, BinaryOperatorType, Token, TokenView};
use vstd::pervasive::unreached;
use vstd::prelude::*;

verus! {

/// The two places that tokens wait in: the stack of operators and open
/// parentheses, its top last, and the output.
pub ghost struct Yard {
    pub stack: Seq<TokenView>,
    pub output: Seq<TokenView>,
}

/// Moves operators from the top of the stack to the output for as long as the
/// top is a binary operator that binds strictly tighter than `op`.
pub open spec fn release_tighter(yard: Yard, op: BinaryOperatorType) -> Yard
    decreases yard.stack.len(),
{
    if yard.stack.len() > 0 && binds_tighter(yard.stack.last(), op) {
        release_tighter(
            Yard { stack: yard.stack.drop_last(), output: yard.output.push(yard.stack.last()) },
            op,
        )
    } else {
        yard
    }
}

/// Whether `top` is a binary operator of a precedence strictly above that of `op`.
pub open spec fn binds_tighter(top: TokenView, op: BinaryOperatorType) -> bool {
    match top {
        TokenView::BinaryOperator(other) => other.precedence() > op.precedence(),
        _ => false,
    }
}

/// Moves the stack to the output, top first, down to the nearest open
/// parenthesis, which is dropped. Where the stack holds none, the closing
/// parenthesis itself goes to the output, where evaluation will find it.
pub open spec fn release_group(yard: Yard) -> Yard
    decreases yard.stack.len(),
{
    if yard.stack.len() == 0 {
        Yard { stack: yard.stack, output: yard.output.push(TokenView::CloseParen) }
    } else if yard.stack.last() is OpenParen {
        Yard { stack: yard.stack.drop_last(), output: yard.output }
    } else {
        release_group(
            Yard { stack: yard.stack.drop_last(), output: yard.output.push(yard.stack.last()) },
        )
    }
}

/// The output after what is left on the stack has been moved to it, top first.
pub open spec fn drained(yard: Yard) -> Seq<TokenView>
    decreases yard.stack.len(),
{
    if yard.stack.len() == 0 {
        yard.output
    } else {
        drained(
            Yard { stack: yard.stack.drop_last(), output: yard.output.push(yard.stack.last()) },
        )
    }
}

/// What one token does to the yard. A literal or an identifier goes to the
/// output. A unary operator and an open parenthesis go on the stack. A binary
/// operator first releases the operators that bind tighter than it, then goes
/// on the stack. A closing parenthesis releases its group. Any other token
/// goes to the output, where evaluation will find it.
pub open spec fn placed(yard: Yard, token: TokenView) -> Yard {
    match token {
        TokenView::UnaryOperator(_) | TokenView::OpenParen => Yard {
            stack: yard.stack.push(token),
            output: yard.output,
        },
        TokenView::BinaryOperator(op) => {
            let released = release_tighter(yard, op);
            Yard { stack: released.stack.push(token), output: released.output }
        },
        TokenView::CloseParen => release_group(yard),
        _ => Yard { stack: yard.stack, output: yard.output.push(token) },
    }
}

/// The yard after each of `tokens` has been placed, in order.
pub open spec fn yard_after(tokens: Seq<TokenView>) -> Yard
    decreases tokens.len(),
{
    if tokens.len() == 0 {
        Yard { stack: Seq::empty(), output: Seq::empty() }
    } else {
        placed(yard_after(tokens.drop_last()), tokens.last())
    }
}

/// The tokens in evaluation order.
pub open spec fn reordered(tokens: Seq<TokenView>) -> Seq<TokenView> {
    drained(yard_after(tokens))
}

/// The yard that a stack and a queue of tokens stand for.
pub open spec fn yard_of(stack: Stack<Token>, output: Queue<Token>) -> Yard {
    Yard { stack: views(stack@), output: views(output@) }
}

proof fn lemma_views_drop_last(tokens: Seq<Token>)
    requires
        tokens.len() > 0,
    ensures
        views(tokens.drop_last()) == views(tokens).drop_last(),
        views(tokens).last() == tokens.last()@,
{
    assert(views(tokens.drop_last()) =~= views(tokens).drop_last());
}

/// Moves the top of the stack to the output.
fn release_top(operators: &mut Stack<Token>, output: &mut Queue<Token>)
    requires
        old(operators)@.len() > 0,
    ensures
        yard_of(*final(operators), *final(output)) == (Yard {
            stack: yard_of(*old(operators), *old(output)).stack.drop_last(),
            output: yard_of(*old(operators), *old(output)).output.push(
                yard_of(*old(operators), *old(output)).stack.last(),
            ),
        }),
{
    proof {
        lemma_views_drop_last(operators@);
    }
    match operators.pop() {
        Some(top) => {
            proof {
                lemma_views_push(output@, top);
            }
            output.enqueue(top);
        },
        None => unreached(),
    }
}

/// Brings the tokens of an expression into evaluation order.
pub fn reorder(tokens: Vec<Token>) -> (ordered: Queue<Token>)
    ensures
        views(ordered@) == reordered(views(tokens@)),
{
    let ghost all = views(tokens@);
    let mut input: Queue<Token> = Queue::from_vec(tokens);
    let mut operators: Stack<Token> = Stack::new();
    let mut output: Queue<Token> = Queue::new();
    let ghost mut done: int = 0;
    proof {
        assert(views(operators@) =~= Seq::<TokenView>::empty());
        assert(views(output@) =~= Seq::<TokenView>::empty());
        assert(all.take(0) =~= Seq::<TokenView>::empty());
    }
    loop
        invariant
            0 <= done <= all.len(),
            views(input@) == all.skip(done),
            yard_of(operators, output) == yard_after(all.take(done)),
        ensures
            yard_of(operators, output) == yard_after(all),
        decreases all.len() - done,
    {
        let ghost before = yard_of(operators, output);
        proof {
            assert(views(input@).len() == input@.len());
            assert(all.skip(done).len() == all.len() - done);
            if input@.len() > 0 {
                assert(all.take(done + 1).drop_last() =~= all.take(done));
                assert(all.take(done + 1).last() == all[done]);
                assert(views(input@)[0] == all[done]);
                assert forall|j: int| 0 <= j < input@.len() - 1 implies views(
                    input@.drop_first(),
                )[j] == all.skip(done + 1)[j] by {
                    assert(views(input@)[j + 1] == all.skip(done)[j + 1]);
                }
                assert(views(input@.drop_first()) =~= all.skip(done + 1));
            } else {
                assert(all.take(done) =~= all);
            }
        }
        match input.dequeue() {
            None => {
                break ;
            },
            Some(token) => {
                match token {
                    Token::UnaryOperator(_) | Token::OpenParen => {
                        proof {
                            lemma_views_push(operators@, token);
                        }
                        operators.push(token);
                    },
                    Token::BinaryOperator(op) => {
                        loop
                            invariant_except_break
                                release_tighter(yard_of(operators, output), op) == release_tighter(
                                    before,
                                    op,
                                ),
                            ensures
                                yard_of(operators, output) == release_tighter(before, op),
                            decreases operators@.len(),
                        {
                            proof {
                                if operators@.len() > 0 {
                                    lemma_views_drop_last(operators@);
                                }
                            }
                            let tighter = match operators.peek() {
                                Some(Token::BinaryOperator(other)) => other.order() > op.order(),
                                _ => false,
                            };
                            if !tighter {
                                break ;
                            }
                            release_top(&mut operators, &mut output);
                        }
                        proof {
                            lemma_views_push(operators@, token);
                        }
                        operators.push(token);
                    },
                    Token::CloseParen => {
                        loop
                            invariant_except_break
                                release_group(yard_of(operators, output)) == release_group(before),
                            ensures
                                yard_of(operators, output) == release_group(before),
                            decreases operators@.len(),
                        {
                            let ghost here = yard_of(operators, output);
                            proof {
                                if operators@.len() > 0 {
                                    lemma_views_drop_last(operators@);
                                }
                            }
                            match operators.pop() {
                                None => {
                                    proof {
                                        lemma_views_push(output@, Token::CloseParen);
                                        assert(here.stack.len() == 0);
                                    }
                                    output.enqueue(Token::CloseParen);
                                    assert(yard_of(operators, output) == release_group(here));
                                    break ;
                                },
                                Some(Token::OpenParen) => {
                                    assert(here.stack.last() is OpenParen);
                                    assert(yard_of(operators, output) == release_group(here));
                                    break ;
                                },
                                Some(top) => {
                                    proof {
                                        lemma_views_push(output@, top);
                                    }
                                    output.enqueue(top);
                                },
                            }
                        }
                    },
                    _ => {
                        proof {
                            lemma_views_push(output@, token);
                        }
                        output.enqueue(token);
                    },
                }
                proof {
                    done = done + 1;
                }
            },
        }
    }
    while !operators.is_empty()
        invariant
            drained(yard_of(operators, output)) == reordered(all),
        decreases operators@.len(),
    {
        release_top(&mut operators, &mut output);
    }
    output
}

} // verus!
