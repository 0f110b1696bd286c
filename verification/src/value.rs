//! The runtime value model: a tagged value, its mathematical view, and the
//! literal grammar that turns an unbound token into a value.

use vstd::prelude::*;

verus! {

/// The recoverable failures of the evaluation core.
#[derive(Clone, Copy, Debug, PartialEq, Eq, Structural)]
pub enum EvalError {
    /// A token neither names a binding nor matches the literal grammar.
    ParseError,
    /// An operator was applied to an unsupported pair of operands.
    TypeError,
    /// The target of a mutation is not bound in the context.
    NameError,
    /// The expression is empty, or holds several tokens and no operator.
    SyntaxError,
}

/// The mathematical model of a [`Value`]: text is a sequence of characters.
pub enum ValueView {
    Null,
    Num(i64),
    Str(Seq<char>),
    Bool(bool),
}

/// A runtime value. Immutable once built; cloned on read.
#[derive(Debug, PartialEq)]
pub enum Value {
    Null,
    Num(i64),
    Str(String),
    Bool(bool),
}

impl View for Value {
    type V = ValueView;

    open spec fn view(&self) -> ValueView {
        match self {
            Value::Null => ValueView::Null,
            Value::Num(n) => ValueView::Num(*n),
            Value::Str(s) => ValueView::Str(s@),
            Value::Bool(b) => ValueView::Bool(*b),
        }
    }
}

impl Clone for Value {
    fn clone(&self) -> (r: Value)
        ensures
            r == *self,
    {
        match self {
            Value::Null => Value::Null,
            Value::Num(n) => Value::Num(*n),
            Value::Str(s) => Value::Str(s.clone()),
            Value::Bool(b) => Value::Bool(*b),
        }
    }
}

/// The model of a fallible computation over values.
pub open spec fn res_view(r: Result<Value, EvalError>) -> Result<ValueView, EvalError> {
    match r {
        Ok(v) => Ok(v@),
        Err(e) => Err(e),
    }
}

/// A decimal digit.
pub open spec fn is_digit(c: char) -> bool {
    48 <= c as u32 && c as u32 <= 57
}

/// The numeric value of one decimal digit.
pub open spec fn digit_val(c: char) -> int {
    c as u32 - 48
}

pub open spec fn all_digits(s: Seq<char>) -> bool {
    forall|i: int| 0 <= i < s.len() ==> is_digit(#[trigger] s[i])
}

/// The number a sequence of decimal digits denotes, most significant first.
pub open spec fn digits_val(s: Seq<char>) -> int
    decreases s.len(),
{
    if s.len() == 0 {
        0
    } else {
        digits_val(s.drop_last()) * 10 + digit_val(s.last())
    }
}

pub open spec fn true_lit() -> Seq<char> {
    seq!['t', 'r', 'u', 'e']
}

pub open spec fn false_lit() -> Seq<char> {
    seq!['f', 'a', 'l', 's', 'e']
}

pub open spec fn none_lit() -> Seq<char> {
    seq!['n', 'o', 'n', 'e']
}

/// A string literal: the token is enclosed in double quotes.
pub open spec fn is_quoted(s: Seq<char>) -> bool {
    s.len() >= 2 && s[0] == '"' && s[s.len() - 1] == '"'
}

/// The literal grammar: keywords, then unsigned decimal numbers, then quoted
/// strings. A decimal number past `i64::MAX` is not a literal. Everything
/// else is a parse failure.
pub open spec fn parse_literal(s: Seq<char>) -> Result<ValueView, EvalError> {
    if s == true_lit() {
        Ok(ValueView::Bool(true))
    } else if s == false_lit() {
        Ok(ValueView::Bool(false))
    } else if s == none_lit() {
        Ok(ValueView::Null)
    } else if s.len() > 0 && all_digits(s) {
        if digits_val(s) <= i64::MAX {
            Ok(ValueView::Num(digits_val(s) as i64))
        } else {
            Err(EvalError::ParseError)
        }
    } else if is_quoted(s) {
        Ok(ValueView::Str(s.subrange(1, s.len() - 1)))
    } else {
        Err(EvalError::ParseError)
    }
}

proof fn lemma_digits_val_nonneg(s: Seq<char>)
    requires
        all_digits(s),
    ensures
        digits_val(s) >= 0,
    decreases s.len(),
{
    if s.len() > 0 {
        assert(all_digits(s.drop_last()));
        lemma_digits_val_nonneg(s.drop_last());
    }
}

/// Appending digits never shrinks the denoted number.
proof fn lemma_digits_val_prefix(s: Seq<char>, i: int)
    requires
        all_digits(s),
        0 <= i <= s.len(),
    ensures
        digits_val(s) >= digits_val(s.subrange(0, i)),
    decreases s.len() - i,
{
    if i < s.len() {
        let t = s.subrange(0, i + 1);
        assert(all_digits(t));
        assert(t.drop_last() =~= s.subrange(0, i));
        lemma_digits_val_nonneg(t.drop_last());
        assert(digits_val(t) == digits_val(s.subrange(0, i)) * 10 + digit_val(t.last()));
        assert(digits_val(t) >= digits_val(s.subrange(0, i))) by (nonlinear_arith)
            requires
                digits_val(t) == digits_val(s.subrange(0, i)) * 10 + digit_val(t.last()),
                digits_val(s.subrange(0, i)) >= 0,
                digit_val(t.last()) >= 0,
        ;
        lemma_digits_val_prefix(s, i + 1);
    } else {
        assert(s.subrange(0, i) =~= s);
    }
}

impl Value {
    /// Parses a literal from a token that did not resolve to a binding.
    pub fn from_string(token: &str) -> (r: Result<Value, EvalError>)
        ensures
            res_view(r) == parse_literal(token@),
    {
        let n = token.unicode_len();
        if Self::matches_keyword(token, 't', 'r', 'u', 'e') {
            proof {
                assert(token@ =~= true_lit());
            }
            return Ok(Value::Bool(true));
        }
        if Self::matches_false(token) {
            proof {
                assert(token@ =~= false_lit());
            }
            return Ok(Value::Bool(false));
        }
        if Self::matches_keyword(token, 'n', 'o', 'n', 'e') {
            proof {
                assert(token@ =~= none_lit());
            }
            return Ok(Value::Null);
        }
        proof {
            assert(token@ != true_lit() && token@ != false_lit() && token@ != none_lit());
        }
        if n > 0 && Self::all_chars_digits(token) {
            return match Self::parse_number(token) {
                Some(v) => Ok(Value::Num(v)),
                None => Err(EvalError::ParseError),
            };
        }
        proof {
            assert(!(token@.len() > 0 && all_digits(token@)));
        }
        if n >= 2 && token.get_char(0) == '"' && token.get_char(n - 1) == '"' {
            let inner = token.substring_char(1, n - 1);
            return Ok(Value::Str(inner.to_owned()));
        }
        Err(EvalError::ParseError)
    }

    /// True when the token is exactly the four given characters.
    fn matches_keyword(token: &str, c0: char, c1: char, c2: char, c3: char) -> (r: bool)
        ensures
            r == (token@ =~= seq![c0, c1, c2, c3]),
    {
        let n = token.unicode_len();
        if n != 4 {
            return false;
        }
        token.get_char(0) == c0 && token.get_char(1) == c1 && token.get_char(2) == c2
            && token.get_char(3) == c3
    }

    fn matches_false(token: &str) -> (r: bool)
        ensures
            r == (token@ =~= false_lit()),
    {
        let n = token.unicode_len();
        if n != 5 {
            return false;
        }
        token.get_char(0) == 'f' && token.get_char(1) == 'a' && token.get_char(2) == 'l'
            && token.get_char(3) == 's' && token.get_char(4) == 'e'
    }

    fn all_chars_digits(token: &str) -> (r: bool)
        ensures
            r == all_digits(token@),
    {
        let n = token.unicode_len();
        let mut i: usize = 0;
        while i < n
            invariant
                i <= n,
                n == token@.len(),
                forall|j: int| 0 <= j < i ==> is_digit(#[trigger] token@[j]),
            decreases n - i,
        {
            let c = token.get_char(i);
            let cv = c as u32;
            if !(48 <= cv && cv <= 57) {
                return false;
            }
            i += 1;
        }
        true
    }

    /// The number an all-digit token denotes, or `None` past `i64::MAX`.
    fn parse_number(token: &str) -> (r: Option<i64>)
        requires
            token@.len() > 0,
            all_digits(token@),
        ensures
            match r {
                Some(v) => digits_val(token@) <= i64::MAX && v == digits_val(token@),
                None => digits_val(token@) > i64::MAX,
            },
    {
        let n = token.unicode_len();
        let mut acc: i64 = 0;
        let mut i: usize = 0;
        while i < n
            invariant
                i <= n,
                n == token@.len(),
                all_digits(token@),
                acc == digits_val(token@.subrange(0, i as int)),
                acc >= 0,
            decreases n - i,
        {
            let c = token.get_char(i);
            let d = (c as u32 - 48) as i64;
            let shifted = match acc.checked_mul(10) {
                Some(s) => s,
                None => {
                    proof {
                        overflow_means_past_max(token@, i as int, acc as int, d as int);
                    }
                    return None;
                },
            };
            let next = match shifted.checked_add(d) {
                Some(s) => s,
                None => {
                    proof {
                        overflow_means_past_max(token@, i as int, acc as int, d as int);
                    }
                    return None;
                },
            };
            proof {
                assert(token@.subrange(0, i + 1).drop_last() =~= token@.subrange(0, i as int));
            }
            acc = next;
            i += 1;
        }
        proof {
            assert(token@.subrange(0, n as int) =~= token@);
        }
        Some(acc)
    }
}

/// When one more digit pushes the accumulator past `i64::MAX`, the whole
/// token denotes a number past `i64::MAX`.
proof fn overflow_means_past_max(s: Seq<char>, i: int, acc: int, d: int)
    requires
        all_digits(s),
        0 <= i < s.len(),
        acc == digits_val(s.subrange(0, i)),
        d == digit_val(s[i]),
        acc * 10 + d > i64::MAX,
    ensures
        digits_val(s) > i64::MAX,
{
    let t = s.subrange(0, i + 1);
    assert(t.drop_last() =~= s.subrange(0, i));
    assert(digits_val(t) == acc * 10 + d);
    lemma_digits_val_prefix(s, i + 1);
}

} // verus!
