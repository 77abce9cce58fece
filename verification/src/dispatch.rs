//! The function registry and dispatcher.
//!
//! A call is looked up by exact name in a fixed, closed table of
//! functions (`add` and `dup`); the function validates the stack
//! non-destructively, then mutates it.  On any failure the stack is
//! left exactly as it was: popped operands are never dropped.

use crate::errors::ErrorKind;
use crate::operand::{Operand, OperandModel, stack_view};
use crate::scalar::add_bits;
use crate::scalar::float_add;
use vstd::prelude::*;

verus! {

/// The registry key of the addition function.
pub open spec fn add_name() -> Seq<char> {
    seq!['a', 'd', 'd']
}

/// The registry key of the duplication function.
pub open spec fn dup_name() -> Seq<char> {
    seq!['d', 'u', 'p']
}

fn is_add_name(name: &Vec<char>) -> (r: bool)
    ensures
        r <==> name@ == add_name(),
{
    let r = name.len() == 3 && name[0] == 'a' && name[1] == 'd' && name[2] == 'd';
    proof {
        if r {
            assert(name@ =~= add_name());
        }
    }
    r
}

fn is_dup_name(name: &Vec<char>) -> (r: bool)
    ensures
        r <==> name@ == dup_name(),
{
    let r = name.len() == 3 && name[0] == 'd' && name[1] == 'u' && name[2] == 'p';
    proof {
        if r {
            assert(name@ =~= dup_name());
        }
    }
    r
}

/// What `add` makes of a stack: pop two scalars, push their sum.  The
/// first popped operand is the left summand.
pub open spec fn add_model(stack: Seq<OperandModel>) -> Result<Seq<OperandModel>, ErrorKind> {
    if stack.len() < 2 {
        Err(ErrorKind::StackUnderflow)
    } else {
        let a = stack[stack.len() - 1];
        let b = stack[stack.len() - 2];
        if a is Num && b is Num {
            Ok(stack.take(stack.len() - 2).push(OperandModel::Num(add_bits(a->Num_0, b->Num_0))))
        } else {
            Err(ErrorKind::TypeMismatch)
        }
    }
}

/// What `dup` makes of a stack: push a copy of the top operand.
pub open spec fn dup_model(stack: Seq<OperandModel>) -> Result<Seq<OperandModel>, ErrorKind> {
    if stack.len() == 0 {
        Err(ErrorKind::StackUnderflow)
    } else {
        Ok(stack.push(stack.last()))
    }
}

/// What dispatching a named call makes of a stack: the effect of the
/// named function, or `UnknownFunction` (stack untouched) for a name
/// outside the registry.
pub open spec fn dispatch_model(name: Seq<char>, stack: Seq<OperandModel>) -> Result<
    Seq<OperandModel>,
    ErrorKind,
> {
    if name == add_name() {
        add_model(stack)
    } else if name == dup_name() {
        dup_model(stack)
    } else {
        Err(ErrorKind::UnknownFunction)
    }
}

/// The `add` function: takes no arguments (any passed are ignored),
/// validates the two top operands non-destructively, then replaces
/// them by their sum.
fn apply_add(args: &Vec<Vec<char>>, stack: &mut Vec<Operand>) -> (r: Result<(), ErrorKind>)
    ensures
        r is Ok <==> add_model(stack_view(old(stack)@)) is Ok,
        r is Ok ==> stack_view(final(stack)@) == add_model(stack_view(old(stack)@))->Ok_0,
        r is Err ==> r->Err_0 == add_model(stack_view(old(stack)@))->Err_0 && *final(stack)
            == *old(stack),
{
    let n = stack.len();
    if n < 2 {
        return Err(ErrorKind::StackUnderflow);
    }
    let a_bits = match &stack[n - 1] {
        Operand::Number(x) => Some(*x),
        Operand::Matrix(_) => None,
    };
    let b_bits = match &stack[n - 2] {
        Operand::Number(x) => Some(*x),
        Operand::Matrix(_) => None,
    };
    match (a_bits, b_bits) {
        (Some(x), Some(y)) => {
            let ghost old_view = stack_view(stack@);
            stack.truncate(n - 2);
            proof {
                assert(stack_view(stack@) =~= old_view.take(n - 2));
            }
            let sum = float_add(x, y);
            stack.push(Operand::Number(sum));
            proof {
                assert(stack_view(final(stack)@) =~= old_view.take(n - 2).push(
                    OperandModel::Num(add_bits(x, y)),
                ));
            }
            Ok(())
        },
        _ => Err(ErrorKind::TypeMismatch),
    }
}

/// The `dup` function: takes no arguments (any passed are ignored),
/// reads the top operand without removing it and pushes a deep copy.
fn apply_dup(args: &Vec<Vec<char>>, stack: &mut Vec<Operand>) -> (r: Result<(), ErrorKind>)
    ensures
        r is Ok <==> dup_model(stack_view(old(stack)@)) is Ok,
        r is Ok ==> stack_view(final(stack)@) == dup_model(stack_view(old(stack)@))->Ok_0,
        r is Err ==> r->Err_0 == dup_model(stack_view(old(stack)@))->Err_0 && *final(stack)
            == *old(stack),
{
    let n = stack.len();
    if n == 0 {
        return Err(ErrorKind::StackUnderflow);
    }
    let top = stack[n - 1].duplicate();
    stack.push(top);
    proof {
        assert(stack_view(final(stack)@) =~= stack_view(old(stack)@).push(
            stack_view(old(stack)@).last(),
        ));
    }
    Ok(())
}

/// Looks `name` up in the registry and applies the function to the
/// stack.  The arguments are passed through to the function verbatim;
/// the two built-in functions take none and ignore them.  On every
/// failure the stack is left exactly as it was.
pub fn dispatch(name: &Vec<char>, args: &Vec<Vec<char>>, stack: &mut Vec<Operand>) -> (r: Result<
    (),
    ErrorKind,
>)
    ensures
        r is Ok <==> dispatch_model(name@, stack_view(old(stack)@)) is Ok,
        r is Ok ==> stack_view(final(stack)@) == dispatch_model(
            name@,
            stack_view(old(stack)@),
        )->Ok_0,
        r is Err ==> r->Err_0 == dispatch_model(name@, stack_view(old(stack)@))->Err_0
            && *final(stack) == *old(stack),
{
    if is_add_name(name) {
        apply_add(args, stack)
    } else if is_dup_name(name) {
        apply_dup(args, stack)
    } else {
        Err(ErrorKind::UnknownFunction)
    }
}

/// Law: a successful dispatch of a stack of well-formed operands
/// leaves only well-formed operands, so the session invariant
/// survives every registered function.
pub proof fn lemma_dispatch_wf(name: Seq<char>, stack: Seq<OperandModel>)
    requires
        forall|i: int| 0 <= i < stack.len() ==> (#[trigger] stack[i]).wf(),
        dispatch_model(name, stack) is Ok,
    ensures
        forall|i: int|
            0 <= i < dispatch_model(name, stack)->Ok_0.len() ==> (#[trigger] dispatch_model(
                name,
                stack,
            )->Ok_0[i]).wf(),
{
    let out = dispatch_model(name, stack)->Ok_0;
    if name == add_name() {
        assert forall|i: int| 0 <= i < out.len() implies (#[trigger] out[i]).wf() by {
            if i < stack.len() - 2 {
                assert(stack[i].wf());
            }
        }
    } else {
        assert forall|i: int| 0 <= i < out.len() implies (#[trigger] out[i]).wf() by {
            if i < stack.len() {
                assert(stack[i].wf());
            } else {
                assert(out[i] == stack[stack.len() - 1]);
            }
        }
    }
}

/// Law: pushing two scalars and dispatching `add` removes both and
/// leaves, on top of what was below them, exactly one scalar: the sum
/// of the second-pushed (first-popped) and first-pushed operands.
pub proof fn lemma_add_combines_pushed(s: Seq<OperandModel>, a: u64, b: u64)
    ensures
        dispatch_model(add_name(), s.push(OperandModel::Num(a)).push(OperandModel::Num(b)))
            == Ok::<Seq<OperandModel>, ErrorKind>(s.push(OperandModel::Num(add_bits(b, a)))),
{
    let grown = s.push(OperandModel::Num(a)).push(OperandModel::Num(b));
    assert(grown.take(grown.len() - 2) =~= s);
}

/// Law: `add` on a stack with fewer than two operands reports a stack
/// underflow (and the dispatcher then leaves the stack unchanged).
pub proof fn lemma_add_underflow(s: Seq<OperandModel>)
    requires
        s.len() < 2,
    ensures
        dispatch_model(add_name(), s) == Err::<Seq<OperandModel>, ErrorKind>(
            ErrorKind::StackUnderflow,
        ),
{
}

/// Law: `add` with a matrix as either of the two top operands reports
/// a type mismatch (and the dispatcher then leaves the stack
/// unchanged).
pub proof fn lemma_add_type_mismatch(s: Seq<OperandModel>)
    requires
        s.len() >= 2,
        s[s.len() - 1] is Mat || s[s.len() - 2] is Mat,
    ensures
        dispatch_model(add_name(), s) == Err::<Seq<OperandModel>, ErrorKind>(
            ErrorKind::TypeMismatch,
        ),
{
}

/// Law: `dup` on a non-empty stack appends a value equal to the top
/// operand, leaving everything below in place; the copy is deep, so
/// the two stack slots share no storage.
pub proof fn lemma_dup_duplicates(s: Seq<OperandModel>)
    requires
        s.len() >= 1,
    ensures
        dispatch_model(dup_name(), s) == Ok::<Seq<OperandModel>, ErrorKind>(s.push(s.last())),
{
    assert(dup_name() != add_name());
}

} // verus!
