//! The expression tokenizer and evaluator: one pass over a whitespace-free
//! infix string, resolving value tokens against the context, then one
//! left-to-right fold over the resulting chain.

use vstd::prelude::*;

use crate::context::VmContext;
use crate::operators::Op;
use crate::operators::char_op;
use crate::sub_expression::combine_spec;
use crate::sub_expression::evaluate_token_chain;
use crate::sub_expression::op_for;
use crate::sub_expression::views_of;
use crate::value::EvalError;
use crate::value::Value;
use crate::value::ValueView;
use crate::value::parse_literal;
use crate::value::res_view;

verus! {

/// Resolution of one value token: the current value of the binding it
/// names, or, unbound, the literal it spells.
pub open spec fn resolve_spec(t: Seq<char>, m: Map<Seq<char>, ValueView>) -> Result<
    ValueView,
    EvalError,
> {
    if m.contains_key(t) {
        Ok(m[t])
    } else {
        parse_literal(t)
    }
}

/// The single scan pass over an expression: `buf` is the open token, `vals`
/// the value tokens resolved so far, `ops` the operators recorded so far.
/// A known operator character closes the open token — resolving it at once,
/// even when it is empty — and records the operator; at the end of input a
/// non-empty open token closes as the final value token. The first failed
/// resolution aborts the scan.
pub open spec fn scan(
    s: Seq<char>,
    buf: Seq<char>,
    vals: Seq<ValueView>,
    ops: Seq<Op>,
    m: Map<Seq<char>, ValueView>,
) -> Result<(Seq<ValueView>, Seq<Op>), EvalError>
    decreases s.len(),
{
    if s.len() == 0 {
        if buf.len() > 0 {
            match resolve_spec(buf, m) {
                Ok(v) => Ok((vals.push(v), ops)),
                Err(e) => Err(e),
            }
        } else {
            Ok((vals, ops))
        }
    } else {
        match char_op(s[0]) {
            Some(op) => match resolve_spec(buf, m) {
                Ok(v) => scan(s.drop_first(), Seq::empty(), vals.push(v), ops.push(op), m),
                Err(e) => Err(e),
            },
            None => scan(s.drop_first(), buf.push(s[0]), vals, ops, m),
        }
    }
}

/// What evaluating an expression string yields against the current values
/// of the context's bindings.
pub open spec fn eval_expr_spec(s: Seq<char>, m: Map<Seq<char>, ValueView>) -> Result<
    ValueView,
    EvalError,
> {
    match scan(s, Seq::empty(), Seq::empty(), Seq::empty(), m) {
        Ok((vals, ops)) => combine_spec(vals, ops),
        Err(e) => Err(e),
    }
}

/// No character of the sequence discovers a table operator.
pub open spec fn op_free(s: Seq<char>) -> bool {
    forall|i: int| 0 <= i < s.len() ==> (#[trigger] char_op(s[i])) is None
}

/// Scanning past an operator-free stretch only grows the open token.
proof fn lemma_scan_op_free_prefix(
    a: Seq<char>,
    rest: Seq<char>,
    buf: Seq<char>,
    vals: Seq<ValueView>,
    ops: Seq<Op>,
    m: Map<Seq<char>, ValueView>,
)
    requires
        op_free(a),
    ensures
        scan(a + rest, buf, vals, ops, m) == scan(rest, buf + a, vals, ops, m),
    decreases a.len(),
{
    if a.len() == 0 {
        assert(a + rest =~= rest);
        assert(buf + a =~= buf);
    } else {
        let s = a + rest;
        assert(s[0] == a[0]);
        assert(char_op(s[0]) is None);
        assert(s.drop_first() =~= a.drop_first() + rest);
        assert forall|i: int| 0 <= i < a.drop_first().len() implies (#[trigger] char_op(
            a.drop_first()[i],
        )) is None by {
            assert(a.drop_first()[i] == a[i + 1]);
        }
        lemma_scan_op_free_prefix(a.drop_first(), rest, buf.push(a[0]), vals, ops, m);
        assert(buf.push(a[0]) + a.drop_first() =~= buf + a);
    }
}

/// An expression that is one operator-free token evaluates to what that
/// token resolves to.
proof fn lemma_eval_one_token(s: Seq<char>, m: Map<Seq<char>, ValueView>)
    requires
        s.len() > 0,
        op_free(s),
    ensures
        eval_expr_spec(s, m) == resolve_spec(s, m),
{
    lemma_scan_op_free_prefix(s, Seq::empty(), Seq::empty(), Seq::empty(), Seq::empty(), m);
    assert(s + Seq::<char>::empty() =~= s);
    assert(Seq::<char>::empty() + s =~= s);
}

/// A single-literal expression with no operator characters evaluates to the
/// parsed literal, unchanged.
pub proof fn lemma_eval_single_literal(s: Seq<char>, m: Map<Seq<char>, ValueView>)
    requires
        s.len() > 0,
        op_free(s),
        !m.contains_key(s),
    ensures
        eval_expr_spec(s, m) == parse_literal(s),
{
    lemma_eval_one_token(s, m);
}

/// A bound name with no operator characters resolves to its current value
/// in the context at evaluation time.
pub proof fn lemma_eval_bound_name(s: Seq<char>, m: Map<Seq<char>, ValueView>)
    requires
        s.len() > 0,
        op_free(s),
        m.contains_key(s),
    ensures
        eval_expr_spec(s, m) == Ok::<ValueView, EvalError>(m[s]),
{
    lemma_eval_one_token(s, m);
}

/// After the context's single mutation gate rebinds a name, an expression
/// that is exactly that name evaluates to the new value — never a stale
/// snapshot.
pub proof fn lemma_eval_after_set(s: Seq<char>, m: Map<Seq<char>, ValueView>, v: ValueView)
    requires
        s.len() > 0,
        op_free(s),
    ensures
        eval_expr_spec(s, m.insert(s, v)) == Ok::<ValueView, EvalError>(v),
{
    lemma_eval_bound_name(s, m.insert(s, v));
}

/// A two-token expression around one discovered operator evaluates to the
/// direct application of that operator to the two resolved tokens.
pub proof fn lemma_eval_binary(
    a: Seq<char>,
    c: char,
    b: Seq<char>,
    op: Op,
    m: Map<Seq<char>, ValueView>,
)
    requires
        a.len() > 0,
        b.len() > 0,
        op_free(a),
        op_free(b),
        char_op(c) == Some(op),
    ensures
        eval_expr_spec(a + seq![c] + b, m) == (match resolve_spec(a, m) {
            Ok(va) => match resolve_spec(b, m) {
                Ok(vb) => crate::operators::apply_op_spec(op, va, vb),
                Err(e) => Err(e),
            },
            Err(e) => Err(e),
        }),
{
    let s = a + seq![c] + b;
    assert(s =~= a + (seq![c] + b));
    lemma_scan_op_free_prefix(a, seq![c] + b, Seq::empty(), Seq::empty(), Seq::empty(), m);
    assert(Seq::<char>::empty() + a =~= a);
    let t = seq![c] + b;
    assert(t[0] == c);
    assert(t.drop_first() =~= b);
    match resolve_spec(a, m) {
        Ok(va) => {
            lemma_scan_op_free_prefix(
                b,
                Seq::empty(),
                Seq::empty(),
                Seq::empty().push(va),
                Seq::empty().push(op),
                m,
            );
            assert(b + Seq::<char>::empty() =~= b);
            assert(Seq::<char>::empty() + b =~= b);
            match resolve_spec(b, m) {
                Ok(vb) => {
                    let vals = Seq::empty().push(va).push(vb);
                    let ops = Seq::empty().push(op);
                    assert(scan(s, Seq::empty(), Seq::empty(), Seq::empty(), m)
                        == Ok::<_, EvalError>((vals, ops)));
                    assert(op_for(vals.len() as int, ops, 0) == op);
                    match crate::operators::apply_op_spec(op, va, vb) {
                        Ok(x) => {
                            assert(crate::sub_expression::fold_tail(x, vals, ops, 2)
                                == Ok::<_, EvalError>(x));
                        },
                        Err(_) => {},
                    }
                    assert(eval_expr_spec(s, m) == crate::operators::apply_op_spec(op, va, vb));
                },
                Err(_) => {},
            }
        },
        Err(_) => {},
    }
}

/// A three-token chain evaluates strictly left to right, with no
/// precedence: the first operator applies first, and its result is the
/// left operand of the second.
pub proof fn lemma_eval_chain_left_to_right(
    a: Seq<char>,
    c: char,
    b: Seq<char>,
    d: char,
    e: Seq<char>,
    op1: Op,
    op2: Op,
    m: Map<Seq<char>, ValueView>,
)
    requires
        a.len() > 0,
        b.len() > 0,
        e.len() > 0,
        op_free(a),
        op_free(b),
        op_free(e),
        char_op(c) == Some(op1),
        char_op(d) == Some(op2),
    ensures
        eval_expr_spec(a + seq![c] + b + seq![d] + e, m) == (match resolve_spec(a, m) {
            Ok(va) => match resolve_spec(b, m) {
                Ok(vb) => match resolve_spec(e, m) {
                    Ok(ve) => match crate::operators::apply_op_spec(op1, va, vb) {
                        Ok(x) => crate::operators::apply_op_spec(op2, x, ve),
                        Err(er) => Err(er),
                    },
                    Err(er) => Err(er),
                },
                Err(er) => Err(er),
            },
            Err(er) => Err(er),
        }),
{
    let s = a + seq![c] + b + seq![d] + e;
    assert(s =~= a + (seq![c] + (b + (seq![d] + e))));
    lemma_scan_op_free_prefix(
        a,
        seq![c] + (b + (seq![d] + e)),
        Seq::empty(),
        Seq::empty(),
        Seq::empty(),
        m,
    );
    assert(a + (seq![c] + (b + (seq![d] + e))) =~= s);
    assert(Seq::<char>::empty() + a =~= a);
    let t1 = seq![c] + (b + (seq![d] + e));
    assert(t1[0] == c);
    assert(t1.drop_first() =~= b + (seq![d] + e));
    match resolve_spec(a, m) {
        Ok(va) => {
            let vals1 = Seq::empty().push(va);
            let ops1 = Seq::empty().push(op1);
            lemma_scan_op_free_prefix(b, seq![d] + e, Seq::empty(), vals1, ops1, m);
            assert(Seq::<char>::empty() + b =~= b);
            let t2 = seq![d] + e;
            assert(t2[0] == d);
            assert(t2.drop_first() =~= e);
            match resolve_spec(b, m) {
                Ok(vb) => {
                    let vals2 = vals1.push(vb);
                    let ops2 = ops1.push(op2);
                    lemma_scan_op_free_prefix(e, Seq::empty(), Seq::empty(), vals2, ops2, m);
                    assert(e + Seq::<char>::empty() =~= e);
                    assert(Seq::<char>::empty() + e =~= e);
                    match resolve_spec(e, m) {
                        Ok(ve) => {
                            let vals = vals2.push(ve);
                            assert(scan(s, Seq::empty(), Seq::empty(), Seq::empty(), m)
                                == Ok::<_, EvalError>((vals, ops2)));
                            assert(vals[0] == va && vals[1] == vb && vals[2] == ve);
                            assert(op_for(vals.len() as int, ops2, 0) == op1);
                            assert(op_for(vals.len() as int, ops2, 1) == op2);
                            match crate::operators::apply_op_spec(op1, va, vb) {
                                Ok(x) => {
                                    match crate::operators::apply_op_spec(op2, x, ve) {
                                        Ok(y) => {
                                            assert(crate::sub_expression::fold_tail(
                                                y,
                                                vals,
                                                ops2,
                                                3,
                                            ) == Ok::<_, EvalError>(y));
                                            assert(crate::sub_expression::fold_tail(
                                                x,
                                                vals,
                                                ops2,
                                                2,
                                            ) == Ok::<_, EvalError>(y));
                                        },
                                        Err(er) => {
                                            assert(crate::sub_expression::fold_tail(
                                                x,
                                                vals,
                                                ops2,
                                                2,
                                            ) == Err::<ValueView, EvalError>(er));
                                        },
                                    }
                                    assert(crate::sub_expression::fold_tail(va, vals, ops2, 1)
                                        == crate::sub_expression::fold_tail(x, vals, ops2, 2));
                                },
                                Err(er) => {
                                    assert(crate::sub_expression::fold_tail(va, vals, ops2, 1)
                                        == Err::<ValueView, EvalError>(er));
                                },
                            }
                        },
                        Err(_) => {},
                    }
                },
                Err(_) => {},
            }
        },
        Err(_) => {},
    }
}

/// The empty expression fails with a `SyntaxError`: there is no start node.
pub proof fn lemma_eval_empty(m: Map<Seq<char>, ValueView>)
    ensures
        eval_expr_spec(Seq::empty(), m) == Err::<ValueView, EvalError>(EvalError::SyntaxError),
{
}

proof fn lemma_scan_op_count(
    s: Seq<char>,
    buf: Seq<char>,
    vals: Seq<ValueView>,
    ops: Seq<Op>,
    m: Map<Seq<char>, ValueView>,
)
    ensures
        match scan(s, buf, vals, ops, m) {
            Ok(r) => r.1.len() >= ops.len() && (r.1.len() == ops.len() ==> r.0.len() <= vals.len()
                + 1),
            Err(_) => true,
        },
    decreases s.len(),
{
    if s.len() > 0 {
        match char_op(s[0]) {
            Some(op) => match resolve_spec(buf, m) {
                Ok(v) => {
                    lemma_scan_op_count(s.drop_first(), Seq::empty(), vals.push(v), ops.push(op), m)
                },
                Err(_) => {},
            },
            None => lemma_scan_op_count(s.drop_first(), buf.push(s[0]), vals, ops, m),
        }
    }
}

/// The scan of a whole expression records an operator for every token past
/// the first: a successful scan with zero recorded operators carries at
/// most one value token, so the multi-token `SyntaxError` of
/// `combine_spec` can only be reached through the combination step itself.
pub proof fn lemma_no_ops_single_token(
    s: Seq<char>,
    m: Map<Seq<char>, ValueView>,
    vals: Seq<ValueView>,
    ops: Seq<Op>,
)
    requires
        scan(s, Seq::empty(), Seq::empty(), Seq::empty(), m) == Ok::<_, EvalError>((vals, ops)),
        ops.len() == 0,
    ensures
        vals.len() <= 1,
{
    lemma_scan_op_count(s, Seq::empty(), Seq::empty(), Seq::empty(), m);
}

/// One expression to evaluate against one context; single-use over its
/// input string.
pub struct Expression<'a> {
    expr_string: String,
    context: &'a VmContext,
}

impl<'a> Expression<'a> {
    /// The characters of the expression string.
    pub closed spec fn text(self) -> Seq<char> {
        self.expr_string@
    }

    /// The context the expression resolves bindings against.
    pub closed spec fn ctx(self) -> VmContext {
        *self.context
    }

    pub fn from_str(expr: &str, context: &'a VmContext) -> (r: Expression<'a>)
        ensures
            r.text() == expr@,
            r.ctx() == *context,
    {
        Expression { expr_string: expr.to_owned(), context }
    }

    /// The table operator this character discovers, if any.
    pub fn is_char_operator(ch: char) -> (r: Option<Op>)
        ensures
            r == char_op(ch),
    {
        if ch == '+' {
            Some(Op::Add)
        } else if ch == '-' {
            Some(Op::Sub)
        } else if ch == '*' {
            Some(Op::Mul)
        } else if ch == '<' {
            Some(Op::Less)
        } else if ch == '>' {
            Some(Op::Greater)
        } else if ch == '=' {
            Some(Op::Equal)
        } else if ch == '&' {
            Some(Op::And)
        } else if ch == '|' {
            Some(Op::Or)
        } else {
            None
        }
    }

    fn get_value_from_expr_token(&self, expr_token: &str) -> (r: Result<Value, EvalError>)
        requires
            self.ctx().wf(),
        ensures
            res_view(r) == resolve_spec(expr_token@, self.ctx().var_vals()),
    {
        proof {
            assert(self.ctx().var_vals().contains_key(expr_token@) == self.ctx(
            ).vars_map().contains_key(expr_token@));
            if self.ctx().vars_map().contains_key(expr_token@) {
                assert(self.ctx().var_vals()[expr_token@] == self.ctx(
                ).vars_map()[expr_token@].val_view());
            }
        }
        let var = self.context.get_var(expr_token);
        let value = match var {
            Some(x) => x.get_value(),
            None => {
                return Value::from_string(expr_token);
            },
        };
        Ok(value)
    }

    /// NOTE: Expects no spacing in input
    fn parse_expr(self) -> (r: Result<Value, EvalError>)
        requires
            self.ctx().wf(),
        ensures
            res_view(r) == eval_expr_spec(self.text(), self.ctx().var_vals()),
    {
        let ghost m = self.ctx().var_vals();
        let expression_str: &str = self.expr_string.as_str();
        let n = expression_str.unicode_len();
        let mut token_values: Vec<Value> = Vec::new();
        let mut ops: Vec<Op> = Vec::new();
        let mut tok_start: usize = 0;
        let mut i: usize = 0;
        proof {
            assert(self.text().subrange(0, n as int) =~= self.text());
            assert(self.text().subrange(0, 0) =~= Seq::<char>::empty());
            assert(views_of(token_values@) =~= Seq::<ValueView>::empty());
        }
        while i < n
            invariant
                self.ctx().wf(),
                m == self.ctx().var_vals(),
                expression_str@ == self.text(),
                n == self.text().len(),
                i <= n,
                tok_start <= i,
                scan(self.text(), Seq::empty(), Seq::empty(), Seq::empty(), m) == scan(
                    self.text().subrange(i as int, n as int),
                    self.text().subrange(tok_start as int, i as int),
                    views_of(token_values@),
                    ops@,
                    m,
                ),
            decreases n - i,
        {
            let ghost rem = self.text().subrange(i as int, n as int);
            let ghost buf = self.text().subrange(tok_start as int, i as int);
            let c = expression_str.get_char(i);
            proof {
                assert(rem[0] == c);
                assert(rem.drop_first() =~= self.text().subrange(i as int + 1, n as int));
            }
            match Self::is_char_operator(c) {
                Some(op) => {
                    let token = expression_str.substring_char(tok_start, i);
                    let value = match self.get_value_from_expr_token(token) {
                        Ok(v) => v,
                        Err(e) => {
                            return Err(e);
                        },
                    };
                    let ghost old_vals = views_of(token_values@);
                    token_values.push(value);
                    ops.push(op);
                    proof {
                        assert(views_of(token_values@) =~= old_vals.push(value@));
                        assert(self.text().subrange(i as int + 1, i as int + 1)
                            =~= Seq::<char>::empty());
                    }
                    tok_start = i + 1;
                },
                None => {
                    proof {
                        assert(buf.push(c) =~= self.text().subrange(
                            tok_start as int,
                            i as int + 1,
                        ));
                    }
                },
            }
            i += 1;
        }
        proof {
            assert(self.text().subrange(n as int, n as int) =~= Seq::<char>::empty());
        }
        if tok_start < n {
            let token = expression_str.substring_char(tok_start, n);
            let value = match self.get_value_from_expr_token(token) {
                Ok(v) => v,
                Err(e) => {
                    return Err(e);
                },
            };
            let ghost old_vals = views_of(token_values@);
            token_values.push(value);
            proof {
                assert(views_of(token_values@) =~= old_vals.push(value@));
            }
        }
        evaluate_token_chain(&token_values, &ops)
    }

    /// Evaluates the expression against the context's current bindings:
    /// one resulting value, or the first failure of the scan, of literal
    /// parsing, or of an operator application.
    pub fn evaluate(self) -> (r: Result<Value, EvalError>)
        requires
            self.ctx().wf(),
        ensures
            res_view(r) == eval_expr_spec(self.text(), self.ctx().var_vals()),
    {
        self.parse_expr()
    }
}

} // verus!
