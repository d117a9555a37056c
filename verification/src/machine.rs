//! The evaluator: what each instruction does to the stack.

use vstd::prelude::*;
use crate::words::{ArithWord, Error, Exec, ForthResult, Item, StackWord, Value};

verus! {

/// The 32-bit two's complement value that `x` wraps to.
pub open spec fn wrap(x: int) -> Value {
    let m = (x + 0x8000_0000) % 0x1_0000_0000;
    (m - 0x8000_0000) as Value
}

/// The quotient of `b` by `a`, rounded toward zero; `a` is not zero.
pub open spec fn quotient(b: int, a: int) -> int {
    if (b >= 0) == (a > 0) {
        (if b >= 0 { b } else { -b }) / (if a > 0 { a } else { -a })
    } else {
        -((if b >= 0 { b } else { -b }) / (if a > 0 { a } else { -a }))
    }
}

/// What an arithmetic word makes of `a`, the top of the stack, and `b`, the
/// value below it.
pub open spec fn arith(o: ArithWord, a: Value, b: Value) -> Result<Value, Error> {
    match o {
        ArithWord::Add => Ok(wrap(b + a)),
        ArithWord::Sub => Ok(wrap(b - a)),
        ArithWord::Mul => Ok(wrap(b * a)),
        ArithWord::Div => if a == 0 {
            Err(Error::DivisionByZero)
        } else {
            Ok(wrap(quotient(b as int, a as int)))
        },
    }
}

/// A stack together with the verdict of what was run on it.
pub struct Run {
    pub stack: Seq<Value>,
    pub result: ForthResult,
}

/// What a stack word does to stack `s` (its top is the last element).
pub open spec fn shuffle(c: StackWord, s: Seq<Value>) -> Run {
    let n = s.len() as int;
    match c {
        StackWord::Dup => if n >= 1 {
            Run { stack: s.push(s[n - 1]), result: Ok(()) }
        } else {
            Run { stack: s, result: Err(Error::StackUnderflow) }
        },
        StackWord::Drop => if n >= 1 {
            Run { stack: s.take(n - 1), result: Ok(()) }
        } else {
            Run { stack: s, result: Err(Error::StackUnderflow) }
        },
        StackWord::Swap => if n >= 2 {
            Run { stack: s.take(n - 2).push(s[n - 1]).push(s[n - 2]), result: Ok(()) }
        } else {
            Run { stack: Seq::empty(), result: Err(Error::StackUnderflow) }
        },
        StackWord::Over => if n >= 2 {
            Run { stack: s.push(s[n - 2]), result: Ok(()) }
        } else {
            Run { stack: s, result: Err(Error::StackUnderflow) }
        },
    }
}

/// What an arithmetic word does to stack `s`: both operands leave the stack
/// before anything is checked, so a failure does not bring them back.
pub open spec fn compute(o: ArithWord, s: Seq<Value>) -> Run {
    let n = s.len() as int;
    if n >= 2 {
        match arith(o, s[n - 1], s[n - 2]) {
            Ok(v) => Run { stack: s.take(n - 2).push(v), result: Ok(()) },
            Err(e) => Run { stack: s.take(n - 2), result: Err(e) },
        }
    } else {
        Run { stack: Seq::empty(), result: Err(Error::StackUnderflow) }
    }
}

/// What one item does to stack `s`. A definition mark does nothing.
pub open spec fn step(i: Item, s: Seq<Value>) -> Run {
    match i {
        Item::Exec(Exec::Arith(o)) => compute(o, s),
        Item::Exec(Exec::Stack(c)) => shuffle(c, s),
        Item::Exec(Exec::Value(v)) => Run { stack: s.push(v), result: Ok(()) },
        Item::Symbol(_) => Run { stack: s, result: Ok(()) },
    }
}

/// What running `items` in order does to stack `s`: the first item that
/// fails ends the run, and the stack stays as that item left it.
pub open spec fn execute(items: Seq<Item>, s: Seq<Value>) -> Run
    decreases items.len(),
{
    if items.len() == 0 {
        Run { stack: s, result: Ok(()) }
    } else {
        let first = step(items[0], s);
        if first.result is Err {
            first
        } else {
            execute(items.drop_first(), first.stack)
        }
    }
}

/// Applies an arithmetic word to `a`, the former top of the stack, and `b`,
/// the value that lay below it.
pub fn eval_oper(a: Value, b: Value, o: ArithWord) -> (r: Result<Value, Error>)
    ensures
        r == arith(o, a, b),
{
    match o {
        ArithWord::Add => Ok(b.wrapping_add(a)),
        ArithWord::Sub => Ok(b.wrapping_sub(a)),
        ArithWord::Mul => Ok(b.wrapping_mul(a)),
        ArithWord::Div => {
            if a == 0 {
                Err(Error::DivisionByZero)
            } else {
                match b.checked_div(a) {
                    Some(q) => Ok(q),
                    None => Ok(i32::MIN),
                }
            }
        },
    }
}

/// Applies a stack word to `stack`.
pub fn eval_command(stack: &mut Vec<Value>, c: StackWord) -> (r: ForthResult)
    ensures
        final(stack)@ == shuffle(c, old(stack)@).stack,
        r == shuffle(c, old(stack)@).result,
{
    let len = stack.len();
    match c {
        StackWord::Dup => {
            if len < 1 {
                return Err(Error::StackUnderflow);
            }
            let a = stack[len - 1];
            stack.push(a);
        },
        StackWord::Drop => {
            match stack.pop() {
                Some(_) => (),
                None => {
                    return Err(Error::StackUnderflow);
                },
            }
            assert(stack@ == old(stack)@.take(len - 1));
        },
        StackWord::Swap => {
            let (a, b) = match (stack.pop(), stack.pop()) {
                (Some(a), Some(b)) => (a, b),
                (_, _) => {
                    assert(stack@ == Seq::<Value>::empty());
                    return Err(Error::StackUnderflow);
                },
            };
            assert(stack@ == old(stack)@.take(len - 2));
            stack.push(a);
            stack.push(b);
        },
        StackWord::Over => {
            if len < 2 {
                return Err(Error::StackUnderflow);
            }
            let a = stack[len - 2];
            stack.push(a);
        },
    }
    Ok(())
}

/// Carries out one item on `stack`.
pub fn eval_item(stack: &mut Vec<Value>, i: Item) -> (r: ForthResult)
    ensures
        final(stack)@ == step(i, old(stack)@).stack,
        r == step(i, old(stack)@).result,
{
    match i {
        Item::Exec(Exec::Arith(o)) => {
            let ghost n = stack@.len() as int;
            let (a, b) = match (stack.pop(), stack.pop()) {
                (Some(a), Some(b)) => (a, b),
                (_, _) => {
                    assert(stack@ == Seq::<Value>::empty());
                    return Err(Error::StackUnderflow);
                },
            };
            assert(stack@ == old(stack)@.take(n - 2));
            match eval_oper(a, b, o) {
                Ok(v) => {
                    stack.push(v);
                    Ok(())
                },
                Err(e) => Err(e),
            }
        },
        Item::Exec(Exec::Stack(c)) => eval_command(stack, c),
        Item::Exec(Exec::Value(v)) => {
            stack.push(v);
            Ok(())
        },
        Item::Symbol(_) => Ok(()),
    }
}

/// Runs `items` in order on `stack` and stops at the first one that fails.
pub fn eval_items(stack: &mut Vec<Value>, items: &Vec<Item>) -> (r: ForthResult)
    ensures
        final(stack)@ == execute(items@, old(stack)@).stack,
        r == execute(items@, old(stack)@).result,
{
    let mut k: usize = 0;
    assert(items@.skip(0) == items@);
    while k < items.len()
        invariant
            k <= items.len(),
            execute(items@, old(stack)@) == execute(items@.skip(k as int), stack@),
        decreases items.len() - k,
    {
        let ghost rest = items@.skip(k as int);
        assert(rest.drop_first() == items@.skip(k + 1));
        match eval_item(stack, items[k]) {
            Ok(()) => (),
            Err(e) => {
                return Err(e);
            },
        }
        k += 1;
    }
    Ok(())
}

/// Running one list of items after another is running the two as one
/// list: the second is reached where the first succeeds, on the stack that
/// the first left.
pub proof fn execute_in_two_parts(a: Seq<Item>, b: Seq<Item>, s: Seq<Value>)
    ensures
        execute(a + b, s) == if execute(a, s).result is Err {
            execute(a, s)
        } else {
            execute(b, execute(a, s).stack)
        },
    decreases a.len(),
{
    if a.len() == 0 {
        assert(a + b == b);
    } else {
        assert((a + b)[0] == a[0]);
        assert((a + b).drop_first() == a.drop_first() + b);
        if step(a[0], s).result is Ok {
            execute_in_two_parts(a.drop_first(), b, step(a[0], s).stack);
        }
    }
}

/// An item that fails puts nothing on the stack: what it leaves is a
/// beginning of the stack that it found.
pub proof fn failing_step_adds_nothing(i: Item, s: Seq<Value>)
    requires
        step(i, s).result is Err,
    ensures
        step(i, s).stack.len() <= s.len(),
        step(i, s).stack == s.take(step(i, s).stack.len() as int),
{
}

} // verus!
