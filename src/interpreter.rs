use vstd::prelude::*;
use crate::ast::{Expr, Stmt, value_string, value_text};
use crate::text::chars_of;
use crate::environment::{Environment, Scopes, lookup};
use crate::error::RuntimeError;
use crate::token::{Token, TokenType};
use crate::value::{ArithOp, Num, Number, Val, Value, values_view};
use vstd::string::StringExecFns;

verus! {

broadcast use vstd::std_specs::vec::group_vec_axioms;

/// The arithmetic operator an operator's lexeme spells.
pub open spec fn arith_op(lexeme: Seq<char>) -> Option<ArithOp> {
    if lexeme == seq!['+'] {
        Some(ArithOp::Add)
    } else if lexeme == seq!['-'] {
        Some(ArithOp::Sub)
    } else if lexeme == seq!['*'] {
        Some(ArithOp::Mul)
    } else if lexeme == seq!['/'] {
        Some(ArithOp::Div)
    } else {
        None
    }
}

/// A runtime error in the model: its message and its line.
pub type Fault = (Seq<char>, nat);

pub open spec fn operands_message(a: Val, b: Val) -> Seq<char> {
    "Operands must be numbers, got '"@ + value_text(a) + "' and '"@ + value_text(b) + "'"@
}

pub open spec fn operand_message(v: Val) -> Seq<char> {
    "Operand must be a number, got '"@ + value_text(v) + "'"@
}

pub open spec fn binary_operator_message(lexeme: Seq<char>) -> Seq<char> {
    "Invalid binary operator '"@ + lexeme + "'"@
}

pub open spec fn unary_operator_message(lexeme: Seq<char>) -> Seq<char> {
    "Invalid unary operator '"@ + lexeme + "'"@
}

pub open spec fn undefined_message(name: Seq<char>) -> Seq<char> {
    "Undefined variable '"@ + name + "'"@
}

/// The value of `e` in `scopes`, or the runtime error that stops it.
/// Operands are evaluated left before right, and the first error is the
/// result. Arithmetic needs two numbers and an operator spelled `+`, `-`,
/// `*` or `/`; negation needs a number and an operator spelled `-`. Each
/// error is reported at the operator's (or the variable's) line.
pub open spec fn eval(e: Expr, scopes: Scopes) -> Result<Val, Fault>
    decreases e,
{
    match e {
        Expr::Literal { value } => Ok(value@),
        Expr::Grouping(inner) => eval(*inner, scopes),
        Expr::Variable { name } => match lookup(scopes, name.lexeme@) {
            Some(v) => Ok(v),
            None => Err((undefined_message(name.lexeme@), name.line as nat)),
        },
        Expr::Unary { operator, right } => match eval(*right, scopes) {
            Err(f) => Err(f),
            Ok(v) => match v {
                Val::Number(n) => if operator.lexeme@ == seq!['-'] {
                    Ok(Val::Number(Num::Negate(Box::new(n))))
                } else {
                    Err((unary_operator_message(operator.lexeme@), operator.line as nat))
                },
                _ => Err((operand_message(v), operator.line as nat)),
            },
        },
        Expr::Binary { left, operator, right } => match eval(*left, scopes) {
            Err(f) => Err(f),
            Ok(a) => match eval(*right, scopes) {
                Err(f) => Err(f),
                Ok(b) => match (a, b) {
                    (Val::Number(x), Val::Number(y)) => match arith_op(operator.lexeme@) {
                        Some(op) => Ok(Val::Number(Num::Arith(op, Box::new(x), Box::new(y)))),
                        None => Err(
                            (binary_operator_message(operator.lexeme@), operator.line as nat),
                        ),
                    },
                    _ => Err((operands_message(a, b), operator.line as nat)),
                },
            },
        },
    }
}

pub open spec fn fault_of(e: RuntimeError) -> Fault {
    (e.message@, e.line as nat)
}

pub open spec fn eval_view(r: Result<Value, RuntimeError>) -> Result<Val, Fault> {
    match r {
        Ok(v) => Ok(v@),
        Err(e) => Err(fault_of(e)),
    }
}

/// Arithmetic on two numbers never fails, division by zero included: the
/// value is the IEEE-754 operation of the operator on the two operands.
pub proof fn lemma_arithmetic_on_numbers(
    left: Expr,
    operator: Token,
    right: Expr,
    scopes: Scopes,
    x: Num,
    y: Num,
)
    requires
        eval(left, scopes) == Ok::<Val, Fault>(Val::Number(x)),
        eval(right, scopes) == Ok::<Val, Fault>(Val::Number(y)),
        arith_op(operator.lexeme@) is Some,
    ensures
        eval(Expr::Binary { left: Box::new(left), operator, right: Box::new(right) }, scopes) == Ok::<
            Val,
            Fault,
        >(Val::Number(Num::Arith(arith_op(operator.lexeme@)->0, Box::new(x), Box::new(y)))),
{
}

fn arith_op_of(lexeme: &String) -> (r: Option<ArithOp>)
    ensures
        r == arith_op(lexeme@),
{
    let cs = chars_of(lexeme.as_str());
    if cs.len() != 1 {
        return None;
    }
    let c = cs[0];
    assert(cs@ =~= seq![c]);
    if c == '+' {
        Some(ArithOp::Add)
    } else if c == '-' {
        Some(ArithOp::Sub)
    } else if c == '*' {
        Some(ArithOp::Mul)
    } else if c == '/' {
        Some(ArithOp::Div)
    } else {
        None
    }
}

fn is_minus(lexeme: &String) -> (r: bool)
    ensures
        r == (lexeme@ == seq!['-']),
{
    let cs = chars_of(lexeme.as_str());
    if cs.len() == 1 && cs[0] == '-' {
        assert(cs@ =~= seq!['-']);
        true
    } else {
        false
    }
}

/// `prefix`, then `middle` in quotes: `prefix'middle'`.
fn quoting(prefix: &str, middle: &String) -> (r: String)
    ensures
        r@ == prefix@ + middle@ + "'"@,
{
    let mut s = String::from_str(prefix);
    s.append(middle.as_str());
    s.append("'");
    s
}

fn operands_text(a: &Value, b: &Value) -> (r: String)
    ensures
        r@ == operands_message(a@, b@),
{
    let mut s = String::from_str("Operands must be numbers, got '");
    s.append(value_string(a).as_str());
    s.append("' and '");
    s.append(value_string(b).as_str());
    s.append("'");
    s
}

impl Expr {
    /// Evaluates the expression against `env`.
    pub fn evaluate(&self, env: &Environment) -> (r: Result<Value, RuntimeError>)
        ensures
            eval_view(r) == eval(*self, env.scopes()),
        decreases self,
    {
        match self {
            Expr::Binary { left, operator, right } => {
                let a = left.evaluate(env)?;
                let b = right.evaluate(env)?;
                match (a, b) {
                    (Value::Number(x), Value::Number(y)) => match arith_op_of(&operator.lexeme) {
                        Some(op) => Ok(Value::Number(Number::Arith(op, Box::new(x), Box::new(y)))),
                        None => Err(
                            RuntimeError::new(
                                quoting("Invalid binary operator '", &operator.lexeme),
                                operator.line,
                            ),
                        ),
                    },
                    (a, b) => Err(RuntimeError::new(operands_text(&a, &b), operator.line)),
                }
            },
            Expr::Unary { operator, right } => {
                let v = right.evaluate(env)?;
                match v {
                    Value::Number(n) => {
                        if is_minus(&operator.lexeme) {
                            Ok(Value::Number(Number::Negate(Box::new(n))))
                        } else {
                            Err(
                                RuntimeError::new(
                                    quoting("Invalid unary operator '", &operator.lexeme),
                                    operator.line,
                                ),
                            )
                        }
                    },
                    v => Err(
                        RuntimeError::new(
                            quoting("Operand must be a number, got '", &value_string(&v)),
                            operator.line,
                        ),
                    ),
                }
            },
            Expr::Literal { value } => Ok(value.duplicate()),
            Expr::Grouping(inner) => inner.evaluate(env),
            Expr::Variable { name } => match env.get(&name.lexeme) {
                Some(v) => Ok(v.duplicate()),
                None => Err(
                    RuntimeError::new(quoting("Undefined variable '", &name.lexeme), name.line),
                ),
            },
        }
    }
}

/// What running statements does: the scopes afterwards, the values
/// printed, and the runtime error (message and line) that stopped them, if any.
pub struct Outcome {
    pub scopes: Scopes,
    pub output: Seq<Val>,
    pub error: Option<Fault>,
}

pub open spec fn define_in(scopes: Scopes, name: Seq<char>, v: Val) -> Scopes {
    scopes.update(0, scopes[0].insert(name, v))
}

/// Runs one statement.
pub open spec fn exec(s: Stmt, scopes: Scopes) -> Outcome
    decreases s,
{
    match s {
        Stmt::Expression(e) => match eval(e, scopes) {
            Ok(_) => Outcome { scopes, output: seq![], error: None },
            Err(f) => Outcome { scopes, output: seq![], error: Some(f) },
        },
        Stmt::Print(e) => match eval(e, scopes) {
            Ok(v) => Outcome { scopes, output: seq![v], error: None },
            Err(f) => Outcome { scopes, output: seq![], error: Some(f) },
        },
        Stmt::Var(name, init) => {
            let v = match init {
                Some(e) => eval(e, scopes),
                None => Ok(Val::Nil),
            };
            match v {
                Ok(v) => Outcome { scopes: define_in(scopes, name@, v), output: seq![], error: None },
                Err(f) => Outcome { scopes, output: seq![], error: Some(f) },
            }
        },
        Stmt::Block(body) => {
            let o = exec_all(body@, seq![Map::empty()] + scopes);
            Outcome { scopes: o.scopes.drop_first(), output: o.output, error: o.error }
        },
    }
}

/// Runs statements in order, stopping at the first runtime error.
pub open spec fn exec_all(ss: Seq<Stmt>, scopes: Scopes) -> Outcome
    decreases ss,
{
    if ss.len() == 0 {
        Outcome { scopes, output: seq![], error: None }
    } else {
        let o = exec(ss[0], scopes);
        if o.error is Some {
            o
        } else {
            let rest = exec_all(ss.drop_first(), o.scopes);
            Outcome { scopes: rest.scopes, output: o.output + rest.output, error: rest.error }
        }
    }
}

proof fn lemma_exec_all_step(ss: Seq<Stmt>, i: int, scopes: Scopes)
    requires
        0 <= i < ss.len(),
    ensures
        ss.skip(i)[0] == ss[i],
        ss.skip(i).drop_first() == ss.skip(i + 1),
        exec_all(ss.skip(i), scopes) == ({
            let o = exec(ss[i], scopes);
            if o.error is Some {
                o
            } else {
                let rest = exec_all(ss.skip(i + 1), o.scopes);
                Outcome { scopes: rest.scopes, output: o.output + rest.output, error: rest.error }
            }
        }),
{
    assert(ss.skip(i).drop_first() =~= ss.skip(i + 1));
}

impl Stmt {
    /// Runs the statement against `env`, appending printed values to `out`.
    /// A block runs in a new scope inside `env`, which it leaves afterwards,
    /// also when one of its statements fails.
    pub fn execute(&self, env: &mut Environment, out: &mut Vec<Value>) -> (r: Result<(), RuntimeError>)
        ensures
            ({
                let o = exec(*self, old(env).scopes());
                &&& final(env).scopes() == o.scopes
                &&& values_view(final(out)@) == values_view(old(out)@) + o.output
                &&& r is Err <==> o.error is Some
                &&& r matches Err(e) ==> o.error == Some(fault_of(e))
            }),
        decreases self, 1nat,
    {
        proof {
            old(env).lemma_scopes_nonempty();
        }
        match self {
            Stmt::Expression(e) => {
                e.evaluate(env)?;
                assert(values_view(out@) =~= values_view(old(out)@) + seq![]);
            },
            Stmt::Print(e) => {
                let v = e.evaluate(env)?;
                out.push(v);
                assert(values_view(out@) =~= values_view(old(out)@) + seq![v@]);
            },
            Stmt::Var(name, init) => {
                let v = match init {
                    Some(e) => e.evaluate(env)?,
                    None => Value::Nil,
                };
                env.define(name.clone(), v);
                assert(values_view(out@) =~= values_view(old(out)@) + seq![]);
            },
            Stmt::Block(body) => {
                let mut parent = Environment::new();
                core::mem::swap(&mut parent, env);
                *env = Environment::with_enclosing(parent);
                let r = execute_all(body, env, out);
                proof {
                    lemma_exec_all_scopes(body@, seq![Map::empty()] + old(env).scopes());
                }
                env.pop_scope();
                r?;
            },
        }
        Ok(())
    }
}

/// Running a statement changes only the innermost scope: there are as many
/// scopes afterwards, and the enclosing ones are as they were.
pub proof fn lemma_exec_scopes(s: Stmt, scopes: Scopes)
    requires
        scopes.len() >= 1,
    ensures
        exec(s, scopes).scopes.len() == scopes.len(),
        exec(s, scopes).scopes.drop_first() == scopes.drop_first(),
    decreases s, 1nat,
{
    match s {
        Stmt::Block(body) => {
            let inner = seq![Map::empty()] + scopes;
            lemma_exec_all_scopes(body@, inner);
            assert(inner.drop_first() =~= scopes);
        },
        Stmt::Var(name, init) => {
            let o = exec(s, scopes);
            assert(o.scopes.drop_first() =~= scopes.drop_first());
        },
        _ => {},
    }
}

pub proof fn lemma_exec_all_scopes(ss: Seq<Stmt>, scopes: Scopes)
    requires
        scopes.len() >= 1,
    ensures
        exec_all(ss, scopes).scopes.len() == scopes.len(),
        exec_all(ss, scopes).scopes.drop_first() == scopes.drop_first(),
    decreases ss, 0nat,
{
    if ss.len() > 0 {
        lemma_exec_scopes(ss[0], scopes);
        let o = exec(ss[0], scopes);
        if o.error is None {
            lemma_exec_all_scopes(ss.drop_first(), o.scopes);
        }
    }
}

/// A block leaves the scopes around it as they were: its declarations,
/// which shadow outer ones of the same name, end with it.
pub proof fn lemma_block_restores_scopes(body: Vec<Stmt>, scopes: Scopes)
    requires
        scopes.len() >= 1,
    ensures
        exec(Stmt::Block(body), scopes).scopes == scopes,
{
    let inner = seq![Map::empty()] + scopes;
    lemma_exec_all_scopes(body@, inner);
    assert(inner.drop_first() =~= scopes);
}

/// Runs `stmts` in order against `env`, stopping at the first runtime
/// error; printed values are appended to `out`.
pub fn execute_all(stmts: &Vec<Stmt>, env: &mut Environment, out: &mut Vec<Value>) -> (r: Result<
    (),
    RuntimeError,
>)
    ensures
        final(env).scopes() == exec_all(stmts@, old(env).scopes()).scopes,
        values_view(final(out)@) == values_view(old(out)@) + exec_all(stmts@, old(env).scopes()).output,
        r is Err <==> exec_all(stmts@, old(env).scopes()).error is Some,
        r matches Err(e) ==> exec_all(stmts@, old(env).scopes()).error == Some(fault_of(e)),
    decreases stmts, 0nat,
{
    let ghost s0 = env.scopes();
    let ghost o0 = exec_all(stmts@, s0);
    let mut i: usize = 0;
    assert(stmts@.skip(0) =~= stmts@);
    assert(values_view(out@) =~= values_view(old(out)@) + seq![]);
    while i < stmts.len()
        invariant
            0 <= i <= stmts@.len(),
            o0 == exec_all(stmts@, s0),
            s0 == old(env).scopes(),
            ({
                let rest = exec_all(stmts@.skip(i as int), env.scopes());
                &&& o0.scopes == rest.scopes
                &&& o0.error == rest.error
                &&& values_view(old(out)@) + o0.output == values_view(out@) + rest.output
            }),
        decreases stmts@.len() - i,
    {
        proof {
            lemma_exec_all_step(stmts@, i as int, env.scopes());
        }
        let ghost before = values_view(out@);
        let ghost sc = env.scopes();
        let r = stmts[i].execute(env, out);
        match r {
            Err(e) => {
                proof {
                    let o = exec(stmts@[i as int], sc);
                    assert(exec_all(stmts@.skip(i as int), sc) == o);
                    assert(values_view(old(out)@) + o0.output == values_view(out@)) by {
                        assert(values_view(out@) == before + o.output);
                        assert(values_view(old(out)@) + o0.output == before + o.output);
                    }
                }
                return Err(e);
            },
            Ok(()) => {},
        }
        proof {
            let o = exec(stmts@[i as int], sc);
            let rest = exec_all(stmts@.skip(i + 1), o.scopes);
            assert(values_view(out@) + rest.output =~= before + (o.output + rest.output));
        }
        i = i + 1;
    }
    proof {
        assert(stmts@.skip(i as int) =~= Seq::<Stmt>::empty());
        assert(values_view(out@) + seq![] =~= values_view(out@));
    }
    Ok(())
}

} // verus!
