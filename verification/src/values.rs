//! Runtime values: nil, booleans, numbers, strings, and callables, together
//! with truthiness, structural equality, operator application, and display.

use std::rc::Rc;

use vstd::prelude::*;

use crate::ast::Stmt;
use crate::numbers::{reduced_fits, spec_reduce, LoxNum};
use crate::text::{append_int, push_char};
use crate::tokens::{Token, TokenType, TokenTypeV};

verus! {

/// Relies on Rc::clone: the clone is the same value.
#[verifier::external_body]
pub fn rc_clone<T>(rc: &Rc<T>) -> (r: Rc<T>)
    ensures
        r == *rc,
{
    Rc::clone(rc)
}

/// A callable value: a user-defined function carrying its parameter list,
/// its body, and the scope it was declared in (its closure), or the one
/// native builtin.
#[derive(Debug)]
pub enum LoxCallable {
    Function { params: Rc<Vec<Token>>, body: Rc<Stmt>, captured: usize },
    Clock,
}

/// A callable as a value. Two callables are never equal to each other.
#[derive(Debug)]
pub struct LoxCallableWrapper {
    pub inner: LoxCallable,
}

/// A runtime value.
#[derive(Debug)]
pub enum Object {
    Nil,
    Boolean(bool),
    Number(LoxNum),
    String(String),
    Callable(LoxCallableWrapper),
}

/// A runtime error: the line of the offending token and a message.
#[derive(Debug, PartialEq)]
pub struct LoxRuntimeError {
    pub line: i32,
    pub message: String,
}

/// The mathematical view of a runtime error.
pub struct RteV {
    pub line: int,
    pub message: Seq<char>,
}

impl View for LoxRuntimeError {
    type V = RteV;

    open spec fn view(&self) -> RteV {
        RteV { line: self.line as int, message: self.message@ }
    }
}

/// The mathematical view of a user-defined function value.
pub struct FunV {
    pub params: Seq<Token>,
    pub body: Stmt,
    pub captured: int,
}

/// The mathematical view of a runtime value.
pub enum ObjectV {
    Nil,
    Boolean(bool),
    Num(LoxNum),
    Str(Seq<char>),
    Fun(FunV),
    Clock,
}

impl View for LoxCallableWrapper {
    type V = ObjectV;

    open spec fn view(&self) -> ObjectV {
        match self.inner {
            LoxCallable::Function { params, body, captured } => ObjectV::Fun(
                FunV { params: params@, body: *body, captured: captured as int },
            ),
            LoxCallable::Clock => ObjectV::Clock,
        }
    }
}

impl View for Object {
    type V = ObjectV;

    open spec fn view(&self) -> ObjectV {
        match self {
            Object::Nil => ObjectV::Nil,
            Object::Boolean(b) => ObjectV::Boolean(*b),
            Object::Number(n) => ObjectV::Num(*n),
            Object::String(s) => ObjectV::Str(s@),
            Object::Callable(c) => c@,
        }
    }
}

impl Clone for LoxCallableWrapper {
    /// The clone is the same value (the function is shared, not copied).
    fn clone(&self) -> (r: Self)
        ensures
            r@ == self@,
    {
        match &self.inner {
            LoxCallable::Function { params, body, captured } => LoxCallableWrapper {
                inner: LoxCallable::Function {
                    params: rc_clone(params),
                    body: rc_clone(body),
                    captured: *captured,
                },
            },
            LoxCallable::Clock => LoxCallableWrapper { inner: LoxCallable::Clock },
        }
    }
}

impl Clone for Object {
    /// The clone denotes the same value.
    fn clone(&self) -> (r: Self)
        ensures
            r@ == self@,
    {
        match self {
            Object::Nil => Object::Nil,
            Object::Boolean(b) => Object::Boolean(*b),
            Object::Number(n) => Object::Number(*n),
            Object::String(s) => Object::String(s.clone()),
            Object::Callable(c) => Object::Callable(c.clone()),
        }
    }
}

/// Truthiness: nil and false are falsy; every other value, including the
/// number zero and the empty string, is truthy.
pub open spec fn spec_truthy(o: ObjectV) -> bool {
    match o {
        ObjectV::Nil => false,
        ObjectV::Boolean(b) => b,
        _ => true,
    }
}

/// Decides truthiness.
pub fn truthy(o: &Object) -> (r: bool)
    ensures
        r == spec_truthy(o@),
{
    match o {
        Object::Nil => false,
        Object::Boolean(b) => *b,
        _ => true,
    }
}

/// Structural value equality: nil equals nil, booleans and strings compare
/// structurally, numbers compare as rationals, and a callable equals
/// nothing, not even itself.
pub open spec fn spec_obj_eq(a: ObjectV, b: ObjectV) -> bool {
    match (a, b) {
        (ObjectV::Nil, ObjectV::Nil) => true,
        (ObjectV::Boolean(x), ObjectV::Boolean(y)) => x == y,
        (ObjectV::Num(x), ObjectV::Num(y)) => x.same_value(y),
        (ObjectV::Str(x), ObjectV::Str(y)) => x == y,
        _ => false,
    }
}

/// Decides value equality.
pub fn obj_eq(a: &Object, b: &Object) -> (r: bool)
    ensures
        r == spec_obj_eq(a@, b@),
{
    match (a, b) {
        (Object::Nil, Object::Nil) => true,
        (Object::Boolean(x), Object::Boolean(y)) => *x == *y,
        (Object::Number(x), Object::Number(y)) => x.eq_value(*y),
        (Object::String(x), Object::String(y)) => *x == *y,
        _ => false,
    }
}

/// The display form of a value: booleans as `true`/`false`, numbers in
/// decimal, strings as their raw contents, nil as `nil`, and callables as
/// an opaque placeholder.
pub open spec fn spec_obj_display(o: ObjectV) -> Seq<char> {
    match o {
        ObjectV::Nil => "nil"@,
        ObjectV::Boolean(b) => if b {
            "true"@
        } else {
            "false"@
        },
        ObjectV::Num(n) => n.render(),
        ObjectV::Str(s) => s,
        ObjectV::Fun(_) => "...calable..."@,
        ObjectV::Clock => "...calable..."@,
    }
}

/// Whether a numeric value is well-formed: a positive denominator.
pub open spec fn obj_num_wf(o: ObjectV) -> bool {
    match o {
        ObjectV::Num(n) => n.wf(),
        _ => true,
    }
}

/// Whether a value is well-formed: numbers have a positive denominator,
/// and a function value's closure points at one of the `nscopes` scopes,
/// its parameters are identifier tokens, and its body is well-formed.
pub open spec fn obj_wf(o: ObjectV, nscopes: int) -> bool {
    match o {
        ObjectV::Num(n) => n.wf(),
        ObjectV::Fun(f) => {
            &&& 0 <= f.captured < nscopes
            &&& crate::ast::params_wf(f.params)
            &&& f.body.wf()
        },
        _ => true,
    }
}

impl Object {
    /// Renders the value for output.
    pub fn to_display_string(&self) -> (s: String)
        requires
            obj_num_wf(self@),
        ensures
            s@ == spec_obj_display(self@),
    {
        match self {
            Object::Nil => String::from_str("nil"),
            Object::Boolean(b) => {
                if *b {
                    String::from_str("true")
                } else {
                    String::from_str("false")
                }
            },
            Object::Number(n) => n.to_display(),
            Object::String(s) => s.clone(),
            Object::Callable(_) => String::from_str("...calable..."),
        }
    }
}

/// The error reported when an arithmetic result no longer fits the numeric
/// domain.
pub open spec fn overflow_message() -> Seq<char> {
    "Numeric overflow"@
}

/// What a binary operator yields on two evaluated operands, per the
/// operator table: `+` concatenates strings or adds numbers; `-`, `*`, `/`
/// and the comparisons require numbers; `==` and `!=` use structural value
/// equality and never fail. Type mismatches, division by zero, and numeric
/// overflow are runtime errors carrying `line`.
pub open spec fn spec_apply_binary(op: TokenTypeV, l: ObjectV, r: ObjectV, line: int) -> Result<
    ObjectV,
    RteV,
> {
    match (l, op, r) {
        (ObjectV::Str(a), TokenTypeV::PLUS, ObjectV::Str(b)) => Ok(ObjectV::Str(a + b)),
        (ObjectV::Num(a), TokenTypeV::PLUS, ObjectV::Num(b)) => {
            let n = a.num * b.den + b.num * a.den;
            let d = a.den * b.den;
            if reduced_fits(n, d) {
                Ok(ObjectV::Num(spec_reduce(n, d)))
            } else {
                Err(RteV { line, message: overflow_message() })
            }
        },
        (ObjectV::Num(a), TokenTypeV::MINUS, ObjectV::Num(b)) => {
            let n = a.num * b.den - b.num * a.den;
            let d = a.den * b.den;
            if reduced_fits(n, d) {
                Ok(ObjectV::Num(spec_reduce(n, d)))
            } else {
                Err(RteV { line, message: overflow_message() })
            }
        },
        (ObjectV::Num(a), TokenTypeV::STAR, ObjectV::Num(b)) => {
            let n = a.num * b.num;
            let d = a.den * b.den;
            if reduced_fits(n, d) {
                Ok(ObjectV::Num(spec_reduce(n, d)))
            } else {
                Err(RteV { line, message: overflow_message() })
            }
        },
        (ObjectV::Num(a), TokenTypeV::SLASH, ObjectV::Num(b)) => {
            if b.num == 0 {
                Err(RteV { line, message: "Division by zero"@ })
            } else {
                let n = if b.num > 0 {
                    a.num * b.den
                } else {
                    -(a.num * b.den)
                };
                let d = if b.num > 0 {
                    a.den * b.num
                } else {
                    -(a.den * b.num)
                };
                if reduced_fits(n, d) {
                    Ok(ObjectV::Num(spec_reduce(n, d)))
                } else {
                    Err(RteV { line, message: overflow_message() })
                }
            }
        },
        (ObjectV::Num(a), TokenTypeV::LESS, ObjectV::Num(b)) => Ok(
            ObjectV::Boolean(a.num * b.den < b.num * a.den),
        ),
        (ObjectV::Num(a), TokenTypeV::LESS_EQUAL, ObjectV::Num(b)) => Ok(
            ObjectV::Boolean(a.num * b.den <= b.num * a.den),
        ),
        (ObjectV::Num(a), TokenTypeV::GREATER, ObjectV::Num(b)) => Ok(
            ObjectV::Boolean(a.num * b.den > b.num * a.den),
        ),
        (ObjectV::Num(a), TokenTypeV::GREATER_EQUAL, ObjectV::Num(b)) => Ok(
            ObjectV::Boolean(a.num * b.den >= b.num * a.den),
        ),
        (a, TokenTypeV::EQUAL_EQUAL, b) => Ok(ObjectV::Boolean(spec_obj_eq(a, b))),
        (a, TokenTypeV::BANG_EQUAL, b) => Ok(ObjectV::Boolean(!spec_obj_eq(a, b))),
        _ => Err(RteV { line, message: "Bad binary expr"@ }),
    }
}

/// What a unary operator yields: `-` negates a number, `!` negates
/// truthiness of any value; `-` on a non-number is a runtime error.
pub open spec fn spec_apply_unary(op: TokenTypeV, v: ObjectV, line: int) -> Result<
    ObjectV,
    RteV,
> {
    match (op, v) {
        (TokenTypeV::MINUS, ObjectV::Num(a)) => {
            if reduced_fits(-a.num, a.den as int) {
                Ok(ObjectV::Num(spec_reduce(-a.num, a.den as int)))
            } else {
                Err(RteV { line, message: overflow_message() })
            }
        },
        (TokenTypeV::BANG, o) => Ok(ObjectV::Boolean(!spec_truthy(o))),
        _ => Err(RteV { line, message: ""@ }),
    }
}

/// Applies a binary operator to two evaluated operands.
pub fn apply_binary(op: &Token, l: Object, r: Object) -> (res: Result<Object, LoxRuntimeError>)
    requires
        obj_num_wf(l@),
        obj_num_wf(r@),
    ensures
        match (res, spec_apply_binary(op@.token_type, l@, r@, op@.line)) {
            (Ok(o), Ok(ov)) => o@ == ov && (obj_num_wf(l@) ==> obj_num_wf(o@)),
            (Err(e), Err(ev)) => e@ == ev,
            _ => false,
        },
{
    match (l, &op.token_type, r) {
        (Object::String(a), TokenType::PLUS, Object::String(b)) => Ok(
            Object::String(a.concat(b.as_str())),
        ),
        (Object::Number(a), TokenType::PLUS, Object::Number(b)) => {
            match a.checked_add(b) {
                Some(n) => Ok(Object::Number(n)),
                None => Err(
                    LoxRuntimeError {
                        line: op.line,
                        message: String::from_str("Numeric overflow"),
                    },
                ),
            }
        },
        (Object::Number(a), TokenType::MINUS, Object::Number(b)) => {
            match a.checked_sub(b) {
                Some(n) => Ok(Object::Number(n)),
                None => Err(
                    LoxRuntimeError {
                        line: op.line,
                        message: String::from_str("Numeric overflow"),
                    },
                ),
            }
        },
        (Object::Number(a), TokenType::STAR, Object::Number(b)) => {
            match a.checked_mul(b) {
                Some(n) => Ok(Object::Number(n)),
                None => Err(
                    LoxRuntimeError {
                        line: op.line,
                        message: String::from_str("Numeric overflow"),
                    },
                ),
            }
        },
        (Object::Number(a), TokenType::SLASH, Object::Number(b)) => {
            if b.num == 0 {
                Err(
                    LoxRuntimeError {
                        line: op.line,
                        message: String::from_str("Division by zero"),
                    },
                )
            } else {
                match a.checked_div(b) {
                    Some(n) => Ok(Object::Number(n)),
                    None => Err(
                        LoxRuntimeError {
                            line: op.line,
                            message: String::from_str("Numeric overflow"),
                        },
                    ),
                }
            }
        },
        (Object::Number(a), TokenType::LESS, Object::Number(b)) => Ok(
            Object::Boolean(a.lt_value(b)),
        ),
        (Object::Number(a), TokenType::LESS_EQUAL, Object::Number(b)) => Ok(
            Object::Boolean(a.le_value(b)),
        ),
        (Object::Number(a), TokenType::GREATER, Object::Number(b)) => Ok(
            Object::Boolean(b.lt_value(a)),
        ),
        (Object::Number(a), TokenType::GREATER_EQUAL, Object::Number(b)) => Ok(
            Object::Boolean(b.le_value(a)),
        ),
        (a, TokenType::EQUAL_EQUAL, b) => Ok(Object::Boolean(obj_eq(&a, &b))),
        (a, TokenType::BANG_EQUAL, b) => Ok(Object::Boolean(!obj_eq(&a, &b))),
        (_, _, _) => Err(
            LoxRuntimeError { line: op.line, message: String::from_str("Bad binary expr") },
        ),
    }
}

/// Applies a unary operator to an evaluated operand.
pub fn apply_unary(op: &Token, v: Object) -> (res: Result<Object, LoxRuntimeError>)
    requires
        obj_num_wf(v@),
    ensures
        match (res, spec_apply_unary(op@.token_type, v@, op@.line)) {
            (Ok(o), Ok(ov)) => o@ == ov && obj_num_wf(o@),
            (Err(e), Err(ev)) => e@ == ev,
            _ => false,
        },
{
    match (&op.token_type, v) {
        (TokenType::MINUS, Object::Number(a)) => {
            match a.checked_neg() {
                Some(n) => Ok(Object::Number(n)),
                None => Err(
                    LoxRuntimeError {
                        line: op.line,
                        message: String::from_str("Numeric overflow"),
                    },
                ),
            }
        },
        (TokenType::BANG, o) => Ok(Object::Boolean(!truthy(&o))),
        (_, _) => Err(LoxRuntimeError { line: op.line, message: String::from_str("") }),
    }
}

impl LoxRuntimeError {
    /// Renders the error in the form `message.` followed by `[line N]` on
    /// the next line.
    pub fn to_display_string(&self) -> (s: String)
        ensures
            s@ == self.message@ + ".\n[line "@ + crate::text::spec_int_digits(self.line as int)
                + "]"@,
    {
        let mut s = self.message.clone();
        s.append(".\n[line ");
        append_int(&mut s, self.line as i64);
        s.append("]");
        s
    }
}

} // verus!
