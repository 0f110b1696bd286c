//! The linked, tail-first-built representation of one tokenized expression,
//! and the combination step that evaluates value tokens against recorded
//! operators strictly left to right.

use vstd::prelude::*;

use crate::operators::Op;
use crate::operators::apply;
use crate::operators::apply_op_spec;
use crate::value::EvalError;
use crate::value::Value;
use crate::value::ValueView;
use crate::value::res_view;

verus! {

/// The models of a sequence of runtime values.
pub open spec fn views_of(s: Seq<Value>) -> Seq<ValueView> {
    s.map_values(|v: Value| v@)
}

/// The operator that combines the value token at `j` with its successor in
/// a chain of `n` value tokens: the recorded operator at `j`, or the
/// trailing no-op for the final token (a trailing recorded operator with no
/// token after it combines nothing and is dropped).
pub open spec fn op_for(n: int, ops: Seq<Op>, j: int) -> Op {
    if 0 <= j && j + 1 < n && j < ops.len() {
        ops[j]
    } else {
        Op::Noop
    }
}

/// Left-to-right evaluation: `acc` holds the value tokens before `j`
/// already combined; each step folds the token at `j` in with the operator
/// standing between it and its predecessor.
pub open spec fn fold_tail(acc: ValueView, vals: Seq<ValueView>, ops: Seq<Op>, j: int) -> Result<
    ValueView,
    EvalError,
>
    decreases vals.len() - j,
{
    if j < 1 || j >= vals.len() {
        Ok(acc)
    } else {
        match apply_op_spec(op_for(vals.len() as int, ops, j - 1), acc, vals[j]) {
            Ok(a2) => fold_tail(a2, vals, ops, j + 1),
            Err(e) => Err(e),
        }
    }
}

/// What the resolved value tokens and recorded operators of one expression
/// evaluate to. With no operator, the expression must be exactly one value
/// token; several tokens without an operator, or no token at all, are a
/// `SyntaxError`. Otherwise the tokens fold strictly left to right with no
/// precedence.
pub open spec fn combine_spec(vals: Seq<ValueView>, ops: Seq<Op>) -> Result<ValueView, EvalError> {
    if ops.len() == 0 {
        if vals.len() == 1 {
            Ok(vals[0])
        } else {
            Err(EvalError::SyntaxError)
        }
    } else if vals.len() == 0 {
        Err(EvalError::SyntaxError)
    } else {
        fold_tail(vals[0], vals, ops, 1)
    }
}

/// One node of a tokenized expression: a value, the operator combining it
/// with its successor, and the ownership link to that successor. The final
/// node carries the no-op operator and has no successor.
pub struct SubExpression {
    pub value: Value,
    pub op: Op,
    pub next: Option<Box<SubExpression>>,
}

/// Left-to-right evaluation along the links: a node with no successor
/// yields the accumulator; otherwise the node's operator folds the
/// successor's value into the accumulator and evaluation continues with the
/// successor's own operator.
pub open spec fn walk_spec(acc: ValueView, op: Op, next: Option<Box<SubExpression>>) -> Result<
    ValueView,
    EvalError,
>
    decreases next,
{
    match next {
        None => Ok(acc),
        Some(n) => match apply_op_spec(op, acc, n.value@) {
            Ok(a2) => walk_spec(a2, n.op, n.next),
            Err(e) => Err(e),
        },
    }
}

/// The chain a head node stands for, as (value model, operator) pairs in
/// head-to-tail order.
pub open spec fn chain_of(vals: Seq<ValueView>, ops: Seq<Op>, i: int) -> Seq<(ValueView, Op)> {
    Seq::new((vals.len() - i) as nat, |k: int| (vals[i + k], op_for(vals.len() as int, ops, i + k)))
}

impl SubExpression {
    /// The (value model, operator) pairs of this chain, head first.
    pub open spec fn chain_view(self) -> Seq<(ValueView, Op)>
        decreases self,
    {
        match self.next {
            None => seq![(self.value@, self.op)],
            Some(n) => seq![(self.value@, self.op)] + n.chain_view(),
        }
    }

    /// What evaluating from this head node yields.
    pub open spec fn eval_view(self) -> Result<ValueView, EvalError> {
        walk_spec(self.value@, self.op, self.next)
    }

    /// Evaluates the chain from this head node, strictly left to right.
    pub fn evaluate(&self) -> (r: Result<Value, EvalError>)
        ensures
            res_view(r) == self.eval_view(),
    {
        SubExpression::walk(self.value.clone(), self.op, &self.next)
    }

    fn walk(acc: Value, op: Op, next: &Option<Box<SubExpression>>) -> (r: Result<
        Value,
        EvalError,
    >)
        ensures
            res_view(r) == walk_spec(acc@, op, *next),
        decreases *next,
    {
        match next {
            None => Ok(acc),
            Some(n) => match apply(op, &acc, &n.value) {
                Ok(a2) => SubExpression::walk(a2, n.op, &n.next),
                Err(e) => Err(e),
            },
        }
    }
}

/// Builds the chain for the value tokens from `start` on: each node holds
/// the operator combining it with its successor, the final node the no-op.
fn build_chain(values: &Vec<Value>, ops: &Vec<Op>, start: usize) -> (r: Option<
    Box<SubExpression>,
>)
    ensures
        (r is Some) == (start < values@.len()),
        r is Some ==> r.unwrap().chain_view() == chain_of(views_of(values@), ops@, start as int),
    decreases values@.len() - start,
{
    if start >= values.len() {
        return None;
    }
    let rest = build_chain(values, ops, start + 1);
    let op = if start + 1 < values.len() && start < ops.len() {
        ops[start]
    } else {
        Op::Noop
    };
    let node = SubExpression { value: values[start].clone(), op, next: rest };
    proof {
        assert(node.chain_view() =~= chain_of(views_of(values@), ops@, start as int));
    }
    Some(Box::new(node))
}

/// How a chain evaluates: walking the links folds exactly as `fold_tail`
/// folds over the value tokens and recorded operators.
proof fn lemma_walk_fold(
    acc: ValueView,
    op: Op,
    next: Option<Box<SubExpression>>,
    vals: Seq<ValueView>,
    ops: Seq<Op>,
    i: int,
)
    requires
        1 <= i <= vals.len(),
        op == op_for(vals.len() as int, ops, i - 1),
        match next {
            None => i == vals.len(),
            Some(n) => i < vals.len() && n.chain_view() == chain_of(vals, ops, i),
        },
    ensures
        walk_spec(acc, op, next) == fold_tail(acc, vals, ops, i),
    decreases vals.len() - i,
{
    match next {
        None => {},
        Some(n) => {
            assert(n.chain_view()[0] == (vals[i], op_for(vals.len() as int, ops, i)));
            assert(n.value@ == vals[i]);
            assert(n.op == op_for(vals.len() as int, ops, i));
            match apply_op_spec(op, acc, n.value@) {
                Ok(a2) => {
                    match n.next {
                        None => {
                            assert(n.chain_view().len() == 1);
                            assert(chain_of(vals, ops, i).len() == vals.len() - i);
                        },
                        Some(m) => {
                            assert(n.chain_view().len() == 1 + m.chain_view().len());
                            assert(m.chain_view() =~= n.chain_view().drop_first());
                            assert(m.chain_view() =~= chain_of(vals, ops, i + 1));
                        },
                    }
                    lemma_walk_fold(a2, n.op, n.next, vals, ops, i + 1);
                },
                Err(_) => {},
            }
        },
    }
}

/// Assembles resolved value tokens and recorded operators into a chain and
/// evaluates it. With no recorded operator the expression must be exactly
/// one token; otherwise the chain folds strictly left to right.
pub fn evaluate_token_chain(values: &Vec<Value>, ops: &Vec<Op>) -> (r: Result<Value, EvalError>)
    ensures
        res_view(r) == combine_spec(views_of(values@), ops@),
{
    if ops.len() == 0 {
        if values.len() == 1 {
            let v = &values[0];
            return Ok(v.clone());
        }
        return Err(EvalError::SyntaxError);
    }
    if values.len() == 0 {
        return Err(EvalError::SyntaxError);
    }
    let chain = build_chain(values, ops, 0);
    match chain {
        Some(c) => {
            proof {
                let vals = views_of(values@);
                assert(c.chain_view()[0] == (vals[0], op_for(vals.len() as int, ops@, 0)));
                assert(c.value@ == vals[0]);
                assert(c.op == op_for(vals.len() as int, ops@, 0));
                match &c.next {
                    None => {
                        assert(c.chain_view().len() == 1);
                        assert(chain_of(vals, ops@, 0).len() == vals.len());
                    },
                    Some(m) => {
                        assert(c.chain_view().len() == 1 + m.chain_view().len());
                        assert(m.chain_view() =~= c.chain_view().drop_first());
                        assert(m.chain_view() =~= chain_of(vals, ops@, 1));
                    },
                }
                lemma_walk_fold(c.value@, c.op, c.next, vals, ops@, 1);
            }
            c.evaluate()
        },
        None => {
            proof {
                assert(false);
            }
            Err(EvalError::SyntaxError)
        },
    }
}

} // verus!
