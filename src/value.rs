use vstd::prelude::*;

verus! {

/// The four arithmetic operators of the language.
#[derive(Clone, Copy, Debug, PartialEq, Eq, Structural)]
pub enum ArithOp {
    Add,
    Sub,
    Mul,
    Div,
}

/// A number of the language. Numbers are IEEE-754 double-precision values;
/// this type holds how a number was obtained (a decimal numeral, or a
/// negation or arithmetic operation on numbers) rather than its bits, so that
/// the host's floating-point unit, which alone decides those bits, evaluates
/// it when its value is needed. No decision of the evaluator depends on the
/// value of a number.
#[derive(Debug)]
pub enum Number {
    Decimal(String),
    Negate(Box<Number>),
    Arith(ArithOp, Box<Number>, Box<Number>),
}

/// The mathematical model of a `Number`.
pub enum Num {
    Decimal(Seq<char>),
    Negate(Box<Num>),
    Arith(ArithOp, Box<Num>, Box<Num>),
}

impl View for Number {
    type V = Num;

    open spec fn view(&self) -> Num
        decreases self,
    {
        match self {
            Number::Decimal(s) => Num::Decimal(s@),
            Number::Negate(n) => Num::Negate(Box::new((**n).view())),
            Number::Arith(op, a, b) => Num::Arith(*op, Box::new((**a).view()), Box::new((**b).view())),
        }
    }
}

impl Number {
    /// A copy with the same model.
    pub fn duplicate(&self) -> (r: Number)
        ensures
            r@ == self@,
        decreases self,
    {
        match self {
            Number::Decimal(s) => Number::Decimal(s.clone()),
            Number::Negate(n) => Number::Negate(Box::new(n.duplicate())),
            Number::Arith(op, a, b) => Number::Arith(*op, Box::new(a.duplicate()), Box::new(b.duplicate())),
        }
    }
}

/// A runtime value.
#[derive(Debug)]
pub enum Value {
    Number(Number),
    String(String),
    Boolean(bool),
    Nil,
}

/// The mathematical model of a `Value`.
pub enum Val {
    Number(Num),
    Str(Seq<char>),
    Boolean(bool),
    Nil,
}

impl View for Value {
    type V = Val;

    open spec fn view(&self) -> Val {
        match self {
            Value::Number(n) => Val::Number(n@),
            Value::String(s) => Val::Str(s@),
            Value::Boolean(b) => Val::Boolean(*b),
            Value::Nil => Val::Nil,
        }
    }
}

pub open spec fn values_view(vs: Seq<Value>) -> Seq<Val> {
    vs.map_values(|v: Value| v@)
}

impl Value {
    /// A copy with the same model.
    pub fn duplicate(&self) -> (r: Value)
        ensures
            r@ == self@,
    {
        match self {
            Value::Number(n) => Value::Number(n.duplicate()),
            Value::String(s) => Value::String(s.clone()),
            Value::Boolean(b) => Value::Boolean(*b),
            Value::Nil => Value::Nil,
        }
    }
}

} // verus!
