use vstd::prelude::*;
use crate::lexer::{is_ascii_digit, is_digit};
use crate::text::{chars_of, push_all, push_char, string_of};
use crate::token::Token;
use crate::value::{ArithOp, Num, Number, Val, Value};
use vstd::string::StringExecFns;

verus! {

/// An expression tree; each node owns its children.
#[derive(Debug)]
pub enum Expr {
    Binary { left: Box<Expr>, operator: Token, right: Box<Expr> },
    Unary { operator: Token, right: Box<Expr> },
    Literal { value: Value },
    Grouping(Box<Expr>),
    Variable { name: Token },
}

/// A statement.
#[derive(Debug)]
pub enum Stmt {
    Expression(Expr),
    Print(Expr),
    Var(String, Option<Expr>),
    Block(Vec<Stmt>),
}

/// `parts`, each preceded by a space.
pub open spec fn spaced(parts: Seq<Seq<char>>) -> Seq<char>
    decreases parts.len(),
{
    if parts.len() == 0 {
        seq![]
    } else {
        spaced(parts.drop_last()) + seq![' '] + parts.last()
    }
}

/// `(name part part ...)`.
pub open spec fn paren(name: Seq<char>, parts: Seq<Seq<char>>) -> Seq<char> {
    seq!['('] + name + spaced(parts) + seq![')']
}

pub open spec fn op_text(op: ArithOp) -> Seq<char> {
    match op {
        ArithOp::Add => seq!['+'],
        ArithOp::Sub => seq!['-'],
        ArithOp::Mul => seq!['*'],
        ArithOp::Div => seq!['/'],
    }
}

/// A numeral without the zeros that do not change its value: leading zeros
/// before another digit, trailing zeros of a fraction, and a `.` that no
/// digit follows. This is the literal's canonical decimal text, not how the
/// double it denotes would be formatted (the two differ for numerals with
/// more significant digits than a double holds).
pub open spec fn canonical_numeral(s: Seq<char>) -> Seq<char> {
    trim_fraction(skip_leading_zeros(s))
}

pub open spec fn skip_leading_zeros(s: Seq<char>) -> Seq<char>
    decreases s.len(),
{
    if s.len() > 1 && s[0] == '0' && is_digit(s[1]) {
        skip_leading_zeros(s.drop_first())
    } else {
        s
    }
}

pub open spec fn trim_fraction(s: Seq<char>) -> Seq<char>
    decreases s.len(),
{
    if s.len() > 0 && s.contains('.') && s.last() == '0' {
        trim_fraction(s.drop_last())
    } else if s.len() > 0 && s.last() == '.' {
        s.drop_last()
    } else {
        s
    }
}

/// The text of a number: a numeral as its canonical decimal text, a computed
/// number as the operations that compute it, in prefix form. Neither is the
/// formatting of the double's value, which only floating point can produce.
pub open spec fn num_text(n: Num) -> Seq<char>
    decreases n,
{
    match n {
        Num::Decimal(s) => canonical_numeral(s),
        Num::Negate(a) => paren(seq!['-'], seq![num_text(*a)]),
        Num::Arith(op, a, b) => paren(op_text(op), seq![num_text(*a), num_text(*b)]),
    }
}

pub open spec fn value_text(v: Val) -> Seq<char> {
    match v {
        Val::Number(n) => num_text(n),
        Val::Str(s) => s,
        Val::Boolean(b) => if b {
            seq!['t', 'r', 'u', 'e']
        } else {
            seq!['f', 'a', 'l', 's', 'e']
        },
        Val::Nil => seq!['n', 'i', 'l'],
    }
}

/// The prefix form of an expression tree.
pub open spec fn show(e: Expr) -> Seq<char>
    decreases e,
{
    match e {
        Expr::Binary { left, operator, right } => paren(
            operator.lexeme@,
            seq![show(*left), show(*right)],
        ),
        Expr::Unary { operator, right } => paren(operator.lexeme@, seq![show(*right)]),
        Expr::Literal { value } => value_text(value@),
        Expr::Grouping(inner) => paren(seq!['g', 'r', 'o', 'u', 'p'], seq![show(*inner)]),
        Expr::Variable { name } => name.lexeme@,
    }
}

pub open spec fn strings_view(v: Seq<String>) -> Seq<Seq<char>> {
    v.map_values(|s: String| s@)
}

/// `(name part part ...)`.
fn parenthesize(name: &String, parts: &Vec<String>) -> (r: String)
    ensures
        r@ == paren(name@, strings_view(parts@)),
{
    let mut r = String::new();
    push_char(&mut r, '(');
    push_all(&mut r, name);
    let ghost head = r@;
    let mut i: usize = 0;
    while i < parts.len()
        invariant
            0 <= i <= parts@.len(),
            r@ == head + spaced(strings_view(parts@.subrange(0, i as int))),
        decreases parts@.len() - i,
    {
        push_char(&mut r, ' ');
        push_all(&mut r, &parts[i]);
        proof {
            let done = strings_view(parts@.subrange(0, i + 1));
            assert(done.drop_last() =~= strings_view(parts@.subrange(0, i as int)));
            assert(r@ =~= head + spaced(done));
        }
        i = i + 1;
    }
    push_char(&mut r, ')');
    proof {
        assert(parts@.subrange(0, parts@.len() as int) =~= parts@);
        assert(r@ =~= paren(name@, strings_view(parts@)));
    }
    r
}

fn single(c: char) -> (r: String)
    ensures
        r@ == seq![c],
{
    let mut r = String::new();
    push_char(&mut r, c);
    assert(r@ =~= seq![c]);
    r
}

/// The canonical form of a numeral.
fn canonical_text(s: &String) -> (r: String)
    ensures
        r@ == canonical_numeral(s@),
{
    let cs = chars_of(s.as_str());
    let n = cs.len();
    let mut a: usize = 0;
    assert(cs@.subrange(0, n as int) =~= s@);
    while n > 1 && a < n - 1 && cs[a] == '0' && is_ascii_digit(cs[a + 1])
        invariant
            cs@ == s@,
            n == cs@.len(),
            a <= n,
            skip_leading_zeros(s@) == skip_leading_zeros(cs@.subrange(a as int, n as int)),
        decreases n - a,
    {
        assert(cs@.subrange(a as int, n as int).drop_first() =~= cs@.subrange(a + 1, n as int));
        a = a + 1;
    }
    let ghost t = cs@.subrange(a as int, n as int);
    let mut dot = false;
    let mut i = a;
    while i < n
        invariant
            a <= i <= n == cs@.len(),
            dot == cs@.subrange(a as int, i as int).contains('.'),
        decreases n - i,
    {
        if cs[i] == '.' {
            dot = true;
        }
        proof {
            let u = cs@.subrange(a as int, i + 1);
            assert(u =~= cs@.subrange(a as int, i as int).push(cs@[i as int]));
            if cs@.subrange(a as int, i as int).contains('.') {
                let j = choose|j: int| 0 <= j < i - a && cs@.subrange(a as int, i as int)[j] == '.';
                assert(u[j] == '.');
            }
            if cs@[i as int] == '.' {
                assert(u[i - a] == '.');
            }
            if u.contains('.') {
                let j = choose|j: int| 0 <= j < u.len() && u[j] == '.';
                if j < i - a {
                    assert(cs@.subrange(a as int, i as int)[j] == '.');
                }
            }
        }
        i = i + 1;
    }
    assert(cs@.subrange(a as int, n as int) == t);
    let mut b = n;
    while b > a && dot && cs[b - 1] == '0'
        invariant
            a <= b <= n == cs@.len(),
            dot == cs@.subrange(a as int, b as int).contains('.'),
            trim_fraction(t) == trim_fraction(cs@.subrange(a as int, b as int)),
        decreases b,
    {
        proof {
            let u = cs@.subrange(a as int, b as int);
            let v = cs@.subrange(a as int, b - 1);
            assert(u.drop_last() =~= v);
            if u.contains('.') {
                let j = choose|j: int| 0 <= j < u.len() && u[j] == '.';
                assert(j < u.len() - 1);
                assert(v[j] == '.');
            }
            if v.contains('.') {
                let j = choose|j: int| 0 <= j < v.len() && v[j] == '.';
                assert(u[j] == '.');
            }
        }
        b = b - 1;
    }
    proof {
        let u = cs@.subrange(a as int, b as int);
        if b > a && u.last() == '.' {
            assert(u.drop_last() =~= cs@.subrange(a as int, b - 1));
        }
    }
    if b > a && cs[b - 1] == '.' {
        b = b - 1;
    }
    string_of(&cs, a, b)
}

fn number_text(n: &Number) -> (r: String)
    ensures
        r@ == num_text(n@),
    decreases n,
{
    match n {
        Number::Decimal(s) => canonical_text(s),
        Number::Negate(a) => {
            let parts = vec![number_text(a)];
            let r = parenthesize(&single('-'), &parts);
            assert(strings_view(parts@) =~= seq![num_text(a@)]);
            r
        },
        Number::Arith(op, a, b) => {
            let name = match op {
                ArithOp::Add => single('+'),
                ArithOp::Sub => single('-'),
                ArithOp::Mul => single('*'),
                ArithOp::Div => single('/'),
            };
            let parts = vec![number_text(a), number_text(b)];
            let r = parenthesize(&name, &parts);
            assert(strings_view(parts@) =~= seq![num_text(a@), num_text(b@)]);
            r
        },
    }
}

/// The text of a value: numbers as `num_text` gives them (numerals in
/// canonical decimal, computed numbers in prefix form), strings verbatim,
/// `true`, `false` and `nil`.
pub fn value_string(v: &Value) -> (r: String)
    ensures
        r@ == value_text(v@),
{
    match v {
        Value::Number(n) => number_text(n),
        Value::String(s) => s.clone(),
        Value::Boolean(b) => {
            if *b {
                proof {
                    reveal_strlit("true");
                }
                String::from_str("true")
            } else {
                proof {
                    reveal_strlit("false");
                }
                String::from_str("false")
            }
        },
        Value::Nil => {
            proof {
                reveal_strlit("nil");
            }
            String::from_str("nil")
        },
    }
}

impl Expr {
    /// The tree in prefix form: `(op left right)`, `(op right)`,
    /// `(group inner)`, literals by their text and variables by name.
    pub fn print(&self) -> (r: String)
        ensures
            r@ == show(*self),
        decreases self,
    {
        match self {
            Expr::Binary { left, operator, right } => {
                let parts = vec![left.print(), right.print()];
                let r = parenthesize(&operator.lexeme, &parts);
                assert(strings_view(parts@) =~= seq![show(**left), show(**right)]);
                r
            },
            Expr::Unary { operator, right } => {
                let parts = vec![right.print()];
                let r = parenthesize(&operator.lexeme, &parts);
                assert(strings_view(parts@) =~= seq![show(**right)]);
                r
            },
            Expr::Literal { value } => value_string(value),
            Expr::Grouping(inner) => {
                let parts = vec![inner.print()];
                proof {
                    reveal_strlit("group");
                }
                let r = parenthesize(&String::from_str("group"), &parts);
                assert(strings_view(parts@) =~= seq![show(**inner)]);
                r
            },
            Expr::Variable { name } => name.lexeme.clone(),
        }
    }
}

} // verus!
