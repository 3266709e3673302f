//! The expression evaluator and its runtime value model. Expressions
//! evaluate post-order and purely, against a read-only environment; the
//! dynamic type rules of every operator are given by [`spec_eval`].

use vstd::prelude::*;

use crate::error::ErrorMsgView;
use crate::error::ErrorState;
use crate::error::ErrorStateView;
use crate::error::ErrorView;
use crate::exec::Environment;
use crate::expr::BinOp;
use crate::expr::Expr;
use crate::expr::ExprData;
use crate::expr::ExprDataView;
use crate::expr::ExprView;
use crate::expr::UnaryOp;
use crate::number::add_bits;
use crate::number::div_bits;
use crate::number::mul_bits;
use crate::number::neg_bits;
use crate::number::num_add;
use crate::number::num_div;
use crate::number::num_eq;
use crate::number::num_eq_bits;
use crate::number::num_le;
use crate::number::num_le_bits;
use crate::number::num_lt;
use crate::number::num_lt_bits;
use crate::number::num_mul;
use crate::number::num_neg;
use crate::number::num_render;
use crate::number::num_sub;
use crate::number::render_bits;
use crate::number::sub_bits;

verus! {

/// A runtime value: a binary32 number (held as its bit pattern), a
/// string, a boolean, or nil.
#[derive(Debug)]
pub enum Value {
    Number(u32),
    String(String),
    Boolean(bool),
    Nil,
}

/// Mathematical model of a [`Value`].
pub enum ValueView {
    Number(u32),
    String(Seq<char>),
    Boolean(bool),
    Nil,
}

impl View for Value {
    type V = ValueView;

    open spec fn view(&self) -> ValueView {
        match self {
            Value::Number(n) => ValueView::Number(*n),
            Value::String(s) => ValueView::String(s@),
            Value::Boolean(b) => ValueView::Boolean(*b),
            Value::Nil => ValueView::Nil,
        }
    }
}

impl Clone for Value {
    /// Clones the value, preserving its model.
    fn clone(&self) -> (r: Self)
        ensures
            r@ == self@,
    {
        match self {
            Value::Number(n) => Value::Number(*n),
            Value::String(s) => Value::String(s.clone()),
            Value::Boolean(b) => Value::Boolean(*b),
            Value::Nil => Value::Nil,
        }
    }
}

/// Equality of two runtime values: structural within a variant — with
/// the number format's own equality on numbers — and always false
/// across variants, never an error.
pub open spec fn value_eq_view(a: ValueView, b: ValueView) -> bool {
    match (a, b) {
        (ValueView::Number(x), ValueView::Number(y)) => num_eq_bits(x, y),
        (ValueView::String(x), ValueView::String(y)) => x == y,
        (ValueView::Boolean(x), ValueView::Boolean(y)) => x == y,
        (ValueView::Nil, ValueView::Nil) => true,
        _ => false,
    }
}

/// Decides [`value_eq_view`].
pub fn value_eq(a: &Value, b: &Value) -> (r: bool)
    ensures
        r == value_eq_view(a@, b@),
{
    match (a, b) {
        (Value::Number(x), Value::Number(y)) => num_eq(*x, *y),
        (Value::String(x), Value::String(y)) => x.eq(y),
        (Value::Boolean(x), Value::Boolean(y)) => *x == *y,
        (Value::Nil, Value::Nil) => true,
        _ => false,
    }
}

impl PartialEq for Value {
    /// Equality as the language defines it: structural within a
    /// variant, false across variants.
    fn eq(&self, other: &Self) -> (r: bool) {
        value_eq(self, other)
    }
}

impl vstd::std_specs::cmp::PartialEqSpecImpl for Value {
    open spec fn obeys_eq_spec() -> bool {
        true
    }

    open spec fn eq_spec(&self, other: &Value) -> bool {
        value_eq_view(self@, other@)
    }
}

/// The printed form of a value: a number in its decimal rendering, a
/// string as its raw contents with no quoting, `true`/`false` for the
/// booleans, and `nil`.
pub open spec fn value_render_view(v: ValueView) -> Seq<char> {
    match v {
        ValueView::Number(n) => render_bits(n),
        ValueView::String(s) => s,
        ValueView::Boolean(b) => if b {
            "true"@
        } else {
            "false"@
        },
        ValueView::Nil => "nil"@,
    }
}

impl Value {
    /// The value's printed form.
    pub fn render(&self) -> (r: String)
        ensures
            r@ == value_render_view(self@),
    {
        match self {
            Value::Number(n) => num_render(*n),
            Value::String(s) => s.clone(),
            Value::Boolean(b) => {
                if *b {
                    String::from_str("true")
                } else {
                    String::from_str("false")
                }
            },
            Value::Nil => String::from_str("nil"),
        }
    }
}

/// A runtime diagnostic at a line.
pub open spec fn runtime_err(msg: Seq<char>, line: u32) -> ErrorView {
    ErrorView { err: ErrorMsgView::Runtime(msg), line }
}

/// What a binary operator yields on two evaluated operands:
///
/// - equality and inequality apply [`value_eq_view`] to any operands;
/// - the four orderings compare numbers only;
/// - addition adds two numbers or concatenates two strings, with no
///   coercion between them;
/// - subtraction, division and multiplication work on numbers only,
///   division by zero following the number format (an infinity or NaN,
///   not an error).
pub open spec fn spec_apply_binop(op: BinOp, a: ValueView, b: ValueView, line: u32) -> Result<
    ValueView,
    ErrorView,
> {
    match op {
        BinOp::Eq => Ok(ValueView::Boolean(value_eq_view(a, b))),
        BinOp::Neq => Ok(ValueView::Boolean(!value_eq_view(a, b))),
        BinOp::Gt => match (a, b) {
            (ValueView::Number(x), ValueView::Number(y)) => Ok(
                ValueView::Boolean(num_lt_bits(y, x)),
            ),
            _ => Err(runtime_err("can only compare numbers"@, line)),
        },
        BinOp::GtEq => match (a, b) {
            (ValueView::Number(x), ValueView::Number(y)) => Ok(
                ValueView::Boolean(num_le_bits(y, x)),
            ),
            _ => Err(runtime_err("can only compare numbers"@, line)),
        },
        BinOp::Lt => match (a, b) {
            (ValueView::Number(x), ValueView::Number(y)) => Ok(
                ValueView::Boolean(num_lt_bits(x, y)),
            ),
            _ => Err(runtime_err("can only compare numbers"@, line)),
        },
        BinOp::LtEq => match (a, b) {
            (ValueView::Number(x), ValueView::Number(y)) => Ok(
                ValueView::Boolean(num_le_bits(x, y)),
            ),
            _ => Err(runtime_err("can only compare numbers"@, line)),
        },
        BinOp::Add => match (a, b) {
            (ValueView::Number(x), ValueView::Number(y)) => Ok(ValueView::Number(add_bits(x, y))),
            (ValueView::String(x), ValueView::String(y)) => Ok(ValueView::String(x + y)),
            _ => Err(runtime_err("can only add numbers or strings"@, line)),
        },
        BinOp::Sub => match (a, b) {
            (ValueView::Number(x), ValueView::Number(y)) => Ok(ValueView::Number(sub_bits(x, y))),
            _ => Err(runtime_err("can only subtract numbers"@, line)),
        },
        BinOp::Div => match (a, b) {
            (ValueView::Number(x), ValueView::Number(y)) => Ok(ValueView::Number(div_bits(x, y))),
            _ => Err(runtime_err("can only divide numbers"@, line)),
        },
        BinOp::Mult => match (a, b) {
            (ValueView::Number(x), ValueView::Number(y)) => Ok(ValueView::Number(mul_bits(x, y))),
            _ => Err(runtime_err("can only multiply numbers"@, line)),
        },
    }
}

/// What a unary operator yields on an evaluated operand: negation works
/// on numbers only, inversion on booleans only.
pub open spec fn spec_apply_unary(op: UnaryOp, v: ValueView, line: u32) -> Result<
    ValueView,
    ErrorView,
> {
    match op {
        UnaryOp::Negative => match v {
            ValueView::Number(n) => Ok(ValueView::Number(neg_bits(n))),
            _ => Err(runtime_err("- can only be applied to numbers"@, line)),
        },
        UnaryOp::Inverse => match v {
            ValueView::Boolean(b) => Ok(ValueView::Boolean(!b)),
            _ => Err(runtime_err("! can only be applied to booleans"@, line)),
        },
    }
}

/// What evaluating an expression against an environment yields: the
/// value, or the first runtime error in post-order. Literals evaluate
/// to themselves; an identifier is looked up in the environment, an
/// unbound name being a runtime error; operators follow
/// [`spec_apply_binop`] and [`spec_apply_unary`]. Every error carries
/// the line of the expression node it arose at.
pub open spec fn spec_eval(e: ExprView, env: Map<Seq<char>, ValueView>) -> Result<
    ValueView,
    ErrorView,
>
    decreases e,
{
    match e.data {
        ExprDataView::Binary(op, l, r) => match spec_eval(*l, env) {
            Err(er) => Err(er),
            Ok(lv) => match spec_eval(*r, env) {
                Err(er) => Err(er),
                Ok(rv) => spec_apply_binop(op, lv, rv, e.line),
            },
        },
        ExprDataView::Unary(op, inner) => match spec_eval(*inner, env) {
            Err(er) => Err(er),
            Ok(v) => spec_apply_unary(op, v, e.line),
        },
        ExprDataView::NumberLiteral(n) => Ok(ValueView::Number(n)),
        ExprDataView::Identifier(s) => if env.contains_key(s) {
            Ok(env[s])
        } else {
            Err(runtime_err("undefined variable"@, e.line))
        },
        ExprDataView::StringLiteral(s) => Ok(ValueView::String(s)),
        ExprDataView::True => Ok(ValueView::Boolean(true)),
        ExprDataView::False => Ok(ValueView::Boolean(false)),
        ExprDataView::Nil => Ok(ValueView::Nil),
    }
}

impl Expr {
    /// Evaluates the expression against the environment, yielding
    /// exactly [`spec_eval`] of its model.
    pub fn eval(&self, env: &Environment) -> (r: Result<Value, ErrorState>)
        ensures
            ({
                let s = spec_eval(self@, env@);
                match r {
                    Ok(v) => s == Ok::<ValueView, ErrorView>(v@),
                    Err(st) => s matches Err(ev) && st@ == ErrorStateView::RuntimeErr(ev),
                }
            }),
        decreases *self,
    {
        self.data.eval(self.line, env)
    }
}

impl ExprData {
    /// Evaluates an expression variant whose node sits at `line`.
    pub fn eval(&self, line: u32, env: &Environment) -> (r: Result<Value, ErrorState>)
        ensures
            ({
                let s = spec_eval(ExprView { data: self@, line }, env@);
                match r {
                    Ok(v) => s == Ok::<ValueView, ErrorView>(v@),
                    Err(st) => s matches Err(ev) && st@ == ErrorStateView::RuntimeErr(ev),
                }
            }),
        decreases *self,
    {
        match self {
            Self::Binary(op, left_expr, right_expr) => {
                let left_val = left_expr.eval(env)?;
                let right_val = right_expr.eval(env)?;
                match op {
                    BinOp::Eq => Ok(Value::Boolean(value_eq(&left_val, &right_val))),
                    BinOp::Neq => Ok(Value::Boolean(!value_eq(&left_val, &right_val))),
                    BinOp::Gt => {
                        if let (Value::Number(a), Value::Number(b)) = (&left_val, &right_val) {
                            Ok(Value::Boolean(num_lt(*b, *a)))
                        } else {
                            Err(ErrorState::runtime_error(
                                String::from_str("can only compare numbers"),
                                line,
                            ))
                        }
                    },
                    BinOp::GtEq => {
                        if let (Value::Number(a), Value::Number(b)) = (&left_val, &right_val) {
                            Ok(Value::Boolean(num_le(*b, *a)))
                        } else {
                            Err(ErrorState::runtime_error(
                                String::from_str("can only compare numbers"),
                                line,
                            ))
                        }
                    },
                    BinOp::Lt => {
                        if let (Value::Number(a), Value::Number(b)) = (&left_val, &right_val) {
                            Ok(Value::Boolean(num_lt(*a, *b)))
                        } else {
                            Err(ErrorState::runtime_error(
                                String::from_str("can only compare numbers"),
                                line,
                            ))
                        }
                    },
                    BinOp::LtEq => {
                        if let (Value::Number(a), Value::Number(b)) = (&left_val, &right_val) {
                            Ok(Value::Boolean(num_le(*a, *b)))
                        } else {
                            Err(ErrorState::runtime_error(
                                String::from_str("can only compare numbers"),
                                line,
                            ))
                        }
                    },
                    BinOp::Add => {
                        if let (Value::Number(a), Value::Number(b)) = (&left_val, &right_val) {
                            Ok(Value::Number(num_add(*a, *b)))
                        } else if let (Value::String(a), Value::String(b)) = (
                            left_val,
                            right_val,
                        ) {
                            Ok(Value::String(a.concat(b.as_str())))
                        } else {
                            Err(ErrorState::runtime_error(
                                String::from_str("can only add numbers or strings"),
                                line,
                            ))
                        }
                    },
                    BinOp::Sub => {
                        if let (Value::Number(a), Value::Number(b)) = (&left_val, &right_val) {
                            Ok(Value::Number(num_sub(*a, *b)))
                        } else {
                            Err(ErrorState::runtime_error(
                                String::from_str("can only subtract numbers"),
                                line,
                            ))
                        }
                    },
                    BinOp::Div => {
                        if let (Value::Number(a), Value::Number(b)) = (&left_val, &right_val) {
                            Ok(Value::Number(num_div(*a, *b)))
                        } else {
                            Err(ErrorState::runtime_error(
                                String::from_str("can only divide numbers"),
                                line,
                            ))
                        }
                    },
                    BinOp::Mult => {
                        if let (Value::Number(a), Value::Number(b)) = (&left_val, &right_val) {
                            Ok(Value::Number(num_mul(*a, *b)))
                        } else {
                            Err(ErrorState::runtime_error(
                                String::from_str("can only multiply numbers"),
                                line,
                            ))
                        }
                    },
                }
            },
            Self::Unary(op, e) => {
                let val = e.eval(env)?;
                match op {
                    UnaryOp::Negative => {
                        if let Value::Number(n) = val {
                            Ok(Value::Number(num_neg(n)))
                        } else {
                            Err(ErrorState::runtime_error(
                                String::from_str("- can only be applied to numbers"),
                                line,
                            ))
                        }
                    },
                    UnaryOp::Inverse => {
                        if let Value::Boolean(b) = val {
                            Ok(Value::Boolean(!b))
                        } else {
                            Err(ErrorState::runtime_error(
                                String::from_str("! can only be applied to booleans"),
                                line,
                            ))
                        }
                    },
                }
            },
            Self::Identifier(s) => match env.get(s) {
                Some(v) => Ok(v),
                None => Err(ErrorState::runtime_error(
                    String::from_str("undefined variable"),
                    line,
                )),
            },
            Self::StringLiteral(s) => Ok(Value::String(s.clone())),
            Self::NumberLiteral(n) => Ok(Value::Number(*n)),
            Self::True => Ok(Value::Boolean(true)),
            Self::False => Ok(Value::Boolean(false)),
            Self::Nil => Ok(Value::Nil),
        }
    }
}

} // verus!
