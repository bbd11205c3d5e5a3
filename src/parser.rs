use vstd::prelude::*;
use crate::ast::{Expr, Stmt};
use crate::error::ParserError;
use crate::token::{Tok, Token, TokenType, kind_name, tokens_view};
use crate::value::{Num, Number, Val, Value};
use vstd::string::StringExecFns;

verus! {

/// The text a token contributes to a tree: the payload of a number or
/// string literal (its lexeme when it has none), the name of an identifier,
/// nothing for the other kinds, whose kind says everything.
pub open spec fn payload(t: Tok) -> Seq<char> {
    if t.kind == TokenType::Number || t.kind == TokenType::String {
        match t.literal {
            Some(s) => s,
            None => t.lexeme,
        }
    } else if t.kind == TokenType::Identifier {
        t.lexeme
    } else {
        seq![]
    }
}

/// What a tree records of a token: its kind, its payload, and, for the
/// tokens a tree keeps whole (operators and variable names), the token.
pub type Key = (TokenType, Seq<char>, Option<Tok>);

/// The key of a token that a tree keeps whole.
pub open spec fn whole(t: Tok) -> Key {
    (t.kind, payload(t), Some(t))
}

pub open spec fn mark(kind: TokenType) -> Key {
    (kind, seq![], None)
}

/// Kinds of token that a tree keeps whole where they stand in an
/// expression: operators and identifiers.
pub open spec fn kept(kind: TokenType) -> bool {
    binary_level(kind) > 0 || kind == TokenType::Bang || kind == TokenType::Identifier
}

/// The key of the token at `i`. The name after `var` is an identifier that a
/// declaration records by its text alone.
pub open spec fn key_at(ts: Seq<Tok>, i: int) -> Key {
    let t = ts[i];
    if kept(t.kind) && !(t.kind == TokenType::Identifier && i > 0 && ts[i - 1].kind
        == TokenType::Var) {
        whole(t)
    } else {
        (t.kind, payload(t), None)
    }
}

/// The keys of `ts[a..b]`.
pub open spec fn tok_keys(ts: Seq<Tok>, a: int, b: int) -> Seq<Key> {
    Seq::new((b - a) as nat, |j: int| key_at(ts, a + j))
}

pub open spec fn keys(ts: Seq<Token>, a: int, b: int) -> Seq<Key> {
    tok_keys(tokens_view(ts), a, b)
}

/// The tokens a literal value is written with.
pub open spec fn literal_key(v: Val) -> Key {
    match v {
        Val::Number(Num::Decimal(s)) => (TokenType::Number, s, None),
        Val::Number(_) => mark(TokenType::Number),
        Val::Str(s) => (TokenType::String, s, None),
        Val::Boolean(b) => if b {
            mark(TokenType::True)
        } else {
            mark(TokenType::False)
        },
        Val::Nil => mark(TokenType::Nil),
    }
}

/// The token keys an expression tree is written with, in order.
pub open spec fn expr_keys(e: Expr) -> Seq<Key>
    decreases e,
{
    match e {
        Expr::Binary { left, operator, right } => expr_keys(*left) + seq![whole(operator@)]
            + expr_keys(*right),
        Expr::Unary { operator, right } => seq![whole(operator@)] + expr_keys(*right),
        Expr::Literal { value } => seq![literal_key(value@)],
        Expr::Grouping(inner) => seq![mark(TokenType::LeftParen)] + expr_keys(*inner) + seq![
            mark(TokenType::RightParen),
        ],
        Expr::Variable { name } => seq![whole(name@)],
    }
}

/// How tightly a binary operator binds: equality 1, comparison 2, term 3,
/// factor 4; 0 for a token that is no binary operator.
pub open spec fn binary_level(kind: TokenType) -> nat {
    match kind {
        TokenType::BangEqual | TokenType::EqualEqual => 1,
        TokenType::Greater | TokenType::GreaterEqual | TokenType::Less | TokenType::LessEqual => 2,
        TokenType::Minus | TokenType::Plus => 3,
        TokenType::Slash | TokenType::Star => 4,
        _ => 0,
    }
}

/// The grammar level of a tree's root: its operator's level for a binary
/// node, 5 for a unary one, 6 for a primary.
pub open spec fn level(e: Expr) -> nat {
    match e {
        Expr::Binary { operator, .. } => binary_level(operator.token_type),
        Expr::Unary { .. } => 5,
        _ => 6,
    }
}

/// The tree is one the grammar derives: binary levels left-associate and
/// bind tighter the deeper they stand, unary operators are `!` or `-`, and
/// leaves are literals of the grammar or identifiers.
pub open spec fn wf_expr(e: Expr) -> bool
    decreases e,
{
    match e {
        Expr::Binary { left, operator, right } => {
            &&& binary_level(operator.token_type) > 0
            &&& level(*left) >= binary_level(operator.token_type)
            &&& level(*right) > binary_level(operator.token_type)
            &&& wf_expr(*left)
            &&& wf_expr(*right)
        },
        Expr::Unary { operator, right } => {
            &&& (operator.token_type == TokenType::Bang || operator.token_type == TokenType::Minus)
            &&& level(*right) >= 5
            &&& wf_expr(*right)
        },
        Expr::Literal { value } => match value@ {
            Val::Number(n) => n is Decimal,
            _ => true,
        },
        Expr::Grouping(inner) => wf_expr(*inner),
        Expr::Variable { name } => name.token_type == TokenType::Identifier,
    }
}

/// The token keys a statement is written with.
pub open spec fn stmt_keys(s: Stmt) -> Seq<Key> {
    match s {
        Stmt::Expression(e) => expr_keys(e) + seq![mark(TokenType::Semicolon)],
        Stmt::Print(e) => seq![mark(TokenType::Print)] + expr_keys(e) + seq![
            mark(TokenType::Semicolon),
        ],
        Stmt::Var(name, None) => seq![
            mark(TokenType::Var),
            (TokenType::Identifier, name@, None),
            mark(TokenType::Semicolon),
        ],
        Stmt::Var(name, Some(e)) => seq![
            mark(TokenType::Var),
            (TokenType::Identifier, name@, None),
            mark(TokenType::Equal),
        ] + expr_keys(e) + seq![mark(TokenType::Semicolon)],
        Stmt::Block(_) => seq![],
    }
}

/// The statement is one the grammar derives (blocks are not).
pub open spec fn wf_stmt(s: Stmt) -> bool {
    match s {
        Stmt::Expression(e) => wf_expr(e),
        Stmt::Print(e) => wf_expr(e),
        Stmt::Var(_, None) => true,
        Stmt::Var(_, Some(e)) => wf_expr(e),
        Stmt::Block(_) => false,
    }
}

pub open spec fn stmts_keys(ss: Seq<Stmt>) -> Seq<Key>
    decreases ss.len(),
{
    if ss.len() == 0 {
        seq![]
    } else {
        stmts_keys(ss.drop_last()) + stmt_keys(ss.last())
    }
}

/// A token sequence as the lexer hands it over: it ends with the
/// end-of-input token, the only one of its kind.
pub open spec fn well_ended(ts: Seq<Token>) -> bool {
    &&& ts.len() > 0
    &&& ts.last().token_type == TokenType::EOF
    &&& forall|i: int| 0 <= i < ts.len() - 1 ==> #[trigger] ts[i].token_type != TokenType::EOF
}

pub proof fn lemma_keys_split(ts: Seq<Token>, a: int, b: int, c: int)
    requires
        0 <= a <= b <= c <= ts.len(),
    ensures
        keys(ts, a, c) == keys(ts, a, b) + keys(ts, b, c),
{
    assert(keys(ts, a, c) =~= keys(ts, a, b) + keys(ts, b, c));
}

pub proof fn lemma_keys_one(ts: Seq<Token>, a: int)
    requires
        0 <= a < ts.len(),
    ensures
        keys(ts, a, a + 1) == seq![key_at(tokens_view(ts), a)],
        tokens_view(ts)[a] == ts[a]@,
        a > 0 ==> tokens_view(ts)[a - 1] == ts[a - 1]@,
{
    assert(keys(ts, a, a + 1) =~= seq![key_at(tokens_view(ts), a)]);
}

/// The kind of the token at `i`; past either end, the end of input.
pub open spec fn kind_at(ks: Seq<TokenType>, i: int) -> TokenType {
    if 0 <= i < ks.len() {
        ks[i]
    } else {
        TokenType::EOF
    }
}

pub open spec fn kinds(ts: Seq<Token>) -> Seq<TokenType> {
    ts.map_values(|t: Token| t.token_type)
}

/// Where parsing stops on a syntax error, and the error's message.
pub type Stop = (int, Seq<char>);

/// The message for a token that cannot start what is expected.
pub open spec fn unexpected_message(kind: TokenType) -> Seq<char> {
    "Unexpected token "@ + kind_name(kind)
}

/// `message`, then the kind of token found instead.
pub open spec fn found_message(message: Seq<char>, kind: TokenType) -> Seq<char> {
    message + ", found "@ + kind_name(kind)
}

pub open spec fn unexpected(ks: Seq<TokenType>, pos: int) -> Result<int, Stop> {
    Err((pos, unexpected_message(kind_at(ks, pos))))
}

/// Where an expression of grammar level `lvl` (1 equality, 2 comparison,
/// 3 term, 4 factor, 5 unary, 6 primary) that starts at `pos` ends, or where
/// and why parsing one fails. Binary levels take the longest run of
/// operands joined by their operators.
pub open spec fn accepts_expr(ks: Seq<TokenType>, pos: int, lvl: nat) -> Result<int, Stop>
    decreases ks.len() - pos, 7 - lvl, 1nat,
{
    if pos < 0 || pos >= ks.len() || lvl < 1 || lvl > 6 {
        unexpected(ks, pos)
    } else if lvl <= 4 {
        match accepts_expr(ks, pos, lvl + 1) {
            Ok(p) => if pos < p <= ks.len() {
                accepts_operands(ks, p, lvl)
            } else {
                unexpected(ks, p)
            },
            Err(stop) => Err(stop),
        }
    } else if lvl == 5 {
        if ks[pos] == TokenType::Bang || ks[pos] == TokenType::Minus {
            accepts_expr(ks, pos + 1, 5)
        } else {
            accepts_expr(ks, pos, 6)
        }
    } else {
        let k = ks[pos];
        if k == TokenType::False || k == TokenType::True || k == TokenType::Nil || k
            == TokenType::Number || k == TokenType::String || k == TokenType::Identifier {
            Ok(pos + 1)
        } else if k == TokenType::LeftParen {
            match accepts_expr(ks, pos + 1, 1) {
                Ok(p) => if kind_at(ks, p) == TokenType::RightParen {
                    Ok(p + 1)
                } else {
                    Err((p, found_message("Expect ')' after expression."@, kind_at(ks, p))))
                },
                Err(stop) => Err(stop),
            }
        } else {
            unexpected(ks, pos)
        }
    }
}

/// After an operand of binary level `lvl` that ends at `p`: where the run
/// of further `operator operand` pairs of that level ends.
pub open spec fn accepts_operands(ks: Seq<TokenType>, p: int, lvl: nat) -> Result<int, Stop>
    decreases ks.len() - p, 7 - lvl, 0nat,
{
    if 0 <= p < ks.len() && 1 <= lvl <= 4 && binary_level(ks[p]) == lvl {
        match accepts_expr(ks, p + 1, lvl + 1) {
            Ok(q) => if p < q <= ks.len() {
                accepts_operands(ks, q, lvl)
            } else {
                unexpected(ks, q)
            },
            Err(stop) => Err(stop),
        }
    } else {
        Ok(p)
    }
}

/// Where `;` closes what ends at `p`; `message` when it does not.
pub open spec fn then_semicolon(ks: Seq<TokenType>, p: Result<int, Stop>, message: Seq<char>) -> Result<
    int,
    Stop,
> {
    match p {
        Ok(p) => if kind_at(ks, p) == TokenType::Semicolon {
            Ok(p + 1)
        } else {
            Err((p, found_message(message, kind_at(ks, p))))
        },
        Err(stop) => Err(stop),
    }
}

/// Where the declaration that starts at `pos` ends, or where and why
/// parsing it fails.
pub open spec fn accepts_declaration(ks: Seq<TokenType>, pos: int) -> Result<int, Stop> {
    if kind_at(ks, pos) == TokenType::Var {
        if kind_at(ks, pos + 1) != TokenType::Identifier {
            Err((pos + 1, found_message("Expect variable name."@, kind_at(ks, pos + 1))))
        } else if kind_at(ks, pos + 2) == TokenType::Equal {
            then_semicolon(
                ks,
                accepts_expr(ks, pos + 3, 1),
                "Expect ';' after variable declaration."@,
            )
        } else {
            then_semicolon(ks, Ok(pos + 2), "Expect ';' after variable declaration."@)
        }
    } else if kind_at(ks, pos) == TokenType::Print {
        then_semicolon(ks, accepts_expr(ks, pos + 1, 1), "Expect ';' after value."@)
    } else {
        then_semicolon(ks, accepts_expr(ks, pos, 1), "Expect ';' after value."@)
    }
}

/// Where the declarations that start at `pos` reach the end of input, or
/// where and why the first failing one fails.
pub open spec fn accepts_program(ks: Seq<TokenType>, pos: int) -> Result<int, Stop>
    decreases ks.len() - pos,
{
    if kind_at(ks, pos) == TokenType::EOF {
        Ok(pos)
    } else if pos < 0 || pos >= ks.len() {
        unexpected(ks, pos)
    } else {
        match accepts_declaration(ks, pos) {
            Ok(p) => if p > pos {
                accepts_program(ks, p)
            } else {
                unexpected(ks, p)
            },
            Err(stop) => Err(stop),
        }
    }
}

pub open spec fn expr_result(
    ts: Seq<Token>,
    from: int,
    to: int,
    r: Result<Expr, ParserError>,
    min_level: nat,
) -> bool {
    match r {
        Ok(e) => wf_expr(e) && level(e) >= min_level && expr_keys(e) == keys(ts, from, to),
        Err(err) => 0 <= to < ts.len() && err.line == ts[to].line,
    }
}

/// What parsing an expression of level `lvl` at `from` owes when it stops
/// at `to`: success exactly when the grammar accepts such an expression
/// there, stopping where the grammar says, with a tree that is written with
/// the tokens consumed; on failure, the place and message the grammar gives,
/// with the line of the token where parsing stopped.
pub open spec fn expr_outcome(
    ts: Seq<Token>,
    from: int,
    to: int,
    r: Result<Expr, ParserError>,
    lvl: nat,
) -> bool {
    &&& expr_result(ts, from, to, r, lvl)
    &&& (r is Ok) == (accepts_expr(kinds(ts), from, lvl) is Ok)
    &&& r is Ok ==> from < to && to == accepts_expr(kinds(ts), from, lvl)->Ok_0
    &&& r matches Err(e) ==> accepts_expr(kinds(ts), from, lvl) == Err::<int, Stop>((to, e.message@))
}

pub open spec fn stmt_result(ts: Seq<Token>, from: int, to: int, r: Result<Stmt, ParserError>) -> bool {
    match r {
        Ok(s) => wf_stmt(s) && stmt_keys(s) == keys(ts, from, to),
        Err(err) => 0 <= to < ts.len() && err.line == ts[to].line,
    }
}

/// A recursive-descent parser over a token sequence.
pub struct Parser<'a> {
    pub tokens: &'a Vec<Token>,
    current: usize,
}

impl<'a> Parser<'a> {
    /// The tokens being parsed.
    pub closed spec fn toks(&self) -> Seq<Token> {
        self.tokens@
    }

    /// The index of the next token to parse.
    pub closed spec fn pos(&self) -> int {
        self.current as int
    }

    /// The token before the next one is not `var`: an identifier here is
    /// not a declared name.
    pub closed spec fn not_after_var(&self) -> bool {
        self.current == 0 || self.tokens@[self.current - 1].token_type != TokenType::Var
    }

    pub closed spec fn wf(&self) -> bool {
        &&& self.tokens@.len() > 0
        &&& self.tokens@.last().token_type == TokenType::EOF
        &&& self.current < self.tokens@.len()
    }

    /// A parser at the first of `tokens`, which must end with the
    /// end-of-input token.
    pub fn new(tokens: &'a Vec<Token>) -> (r: Self)
        requires
            tokens@.len() > 0,
            tokens@.last().token_type == TokenType::EOF,
        ensures
            r.not_after_var(),
            r.wf(),
            r.toks() == tokens@,
            r.pos() == 0,
    {
        Self { tokens, current: 0 }
    }

    /// Parses declarations up to the end-of-input token. On success the
    /// statements are written with exactly the tokens consumed, each derived
    /// by the grammar; parsing stops at the first error.
    pub fn parse(&mut self) -> (r: Result<Vec<Stmt>, ParserError>)
        requires
            old(self).not_after_var(),
            old(self).wf(),
        ensures
            (r is Ok) == (accepts_program(kinds(old(self).toks()), old(self).pos()) is Ok),
            r matches Err(e) ==> accepts_program(kinds(old(self).toks()), old(self).pos()) == Err::<
                int,
                Stop,
            >((final(self).pos(), e.message@)),
            final(self).wf(),
            final(self).toks() == old(self).toks(),
            old(self).pos() <= final(self).pos(),
            final(self).pos() < final(self).toks().len(),
            match r {
                Ok(v) => {
                    &&& final(self).toks()[final(self).pos()].token_type == TokenType::EOF
                    &&& stmts_keys(v@) == keys(old(self).toks(), old(self).pos(), final(self).pos())
                    &&& forall|i: int| 0 <= i < v@.len() ==> wf_stmt(#[trigger] v@[i])
                },
                Err(e) => e.line == old(self).toks()[final(self).pos()].line,
            },
    {
        let ghost start = self.current as int;
        let mut statements: Vec<Stmt> = Vec::new();
        while !self.is_at_end()
            invariant
                self.not_after_var(),
                self.wf(),
                self.toks() == old(self).toks(),
                start == old(self).current,
                start <= self.current,
                accepts_program(kinds(self.tokens@), start) == accepts_program(
                    kinds(self.tokens@),
                    self.current as int,
                ),
                stmts_keys(statements@) == keys(self.tokens@, start, self.current as int),
                forall|i: int| 0 <= i < statements@.len() ==> wf_stmt(#[trigger] statements@[i]),
            decreases self.tokens@.len() - self.current,
        {
            let ghost mid = self.current as int;
            let ghost before = statements@;
            let s = self.declaration()?;
            proof {
                lemma_keys_split(self.tokens@, start, mid, self.current as int);
            }
            statements.push(s);
            proof {
                assert(statements@.drop_last() =~= before);
            }
        }
        Ok(statements)
    }

    /// Parses one declaration: `var` IDENT (`=` expression)? `;`, or a statement.
    pub fn declaration(&mut self) -> (r: Result<Stmt, ParserError>)
        requires
            old(self).not_after_var(),
            old(self).wf(),
        ensures
            r is Ok ==> final(self).not_after_var(),
            ({
                let end = accepts_declaration(kinds(old(self).toks()), old(self).pos());
                &&& (r is Ok) == (end is Ok)
                &&& r is Ok ==> final(self).pos() == end->Ok_0
                &&& r matches Err(e) ==> end == Err::<int, Stop>((final(self).pos(), e.message@))
            }),
            old(self).pos() <= final(self).pos(),
            final(self).wf(),
            final(self).toks() == old(self).toks(),
            old(self).pos() < final(self).pos() || r is Err,
            stmt_result(old(self).toks(), old(self).pos(), final(self).pos(), r),
    {
        let ghost start = self.current as int;
        if self.match_token(&[TokenType::Var]) {
            let r = self.var_declaration();
            proof {
                if r is Ok {
                    lemma_keys_split(self.tokens@, start, start + 1, self.current as int);
                    lemma_keys_one(self.tokens@, start);
                    assert(stmt_keys(r->Ok_0) =~= keys(self.tokens@, start, self.current as int));
                }
            }
            r
        } else {
            self.statement()
        }
    }

    fn var_declaration(&mut self) -> (r: Result<Stmt, ParserError>)
        requires
            old(self).current >= 1,
            old(self).tokens@[old(self).current - 1].token_type == TokenType::Var,
            old(self).wf(),
        ensures
            r is Ok ==> final(self).not_after_var(),
            ({
                let end = accepts_declaration(kinds(old(self).tokens@), old(self).current - 1);
                &&& (r is Ok) == (end is Ok)
                &&& r is Ok ==> final(self).current == end->Ok_0
                &&& r matches Err(e) ==> end == Err::<int, Stop>((final(self).current as int, e.message@))
            }),
            old(self).current <= final(self).current,
            final(self).wf(),
            final(self).tokens == old(self).tokens,
            old(self).current < final(self).current || r is Err,
            match r {
                Ok(s) => s is Var && wf_stmt(s) && stmt_keys(s).drop_first() == keys(
                    old(self).tokens@,
                    old(self).current as int,
                    final(self).current as int,
                ) && stmt_keys(s)[0] == mark(TokenType::Var),
                Err(err) => err.line == old(self).tokens@[final(self).current as int].line,
            },
    {
        let ghost start = self.current as int;
        let name = self.consume(TokenType::Identifier, "Expect variable name.")?;
        let ghost after_name = self.current as int;
        let initializer = if self.match_token(&[TokenType::Equal]) {
            Some(self.expression()?)
        } else {
            None
        };
        let ghost before_semi = self.current as int;
        self.consume(TokenType::Semicolon, "Expect ';' after variable declaration.")?;
        let ts = Ghost(self.tokens@);
        proof {
            let ts = ts@;
            lemma_keys_one(ts, start);
            lemma_keys_one(ts, before_semi);
            lemma_keys_split(ts, start, after_name, before_semi);
            lemma_keys_split(ts, start, before_semi, before_semi + 1);
            if initializer is Some {
                lemma_keys_one(ts, after_name);
                lemma_keys_split(ts, after_name, after_name + 1, before_semi);
            } else {
                assert(keys(ts, after_name, before_semi) =~= seq![]);
            }
        }
        let s = Stmt::Var(name.lexeme, initializer);
        proof {
            assert(stmt_keys(s).drop_first() =~= keys(ts@, start, self.current as int));
        }
        Ok(s)
    }

    fn statement(&mut self) -> (r: Result<Stmt, ParserError>)
        requires
            old(self).not_after_var(),
            old(self).tokens@[old(self).current as int].token_type != TokenType::Var,
            old(self).wf(),
        ensures
            r is Ok ==> final(self).not_after_var(),
            ({
                let end = accepts_declaration(kinds(old(self).tokens@), old(self).current as int);
                &&& (r is Ok) == (end is Ok)
                &&& r is Ok ==> final(self).current == end->Ok_0
                &&& r matches Err(e) ==> end == Err::<int, Stop>((final(self).current as int, e.message@))
            }),
            old(self).current <= final(self).current,
            final(self).wf(),
            final(self).tokens == old(self).tokens,
            old(self).current < final(self).current || r is Err,
            stmt_result(old(self).tokens@, old(self).current as int, final(self).current as int, r),
    {
        let ghost start = self.current as int;
        if self.match_token(&[TokenType::Print]) {
            let r = self.print_statement();
            proof {
                if r is Ok {
                    lemma_keys_split(self.tokens@, start, start + 1, self.current as int);
                    lemma_keys_one(self.tokens@, start);
                    assert(stmt_keys(r->Ok_0) =~= keys(self.tokens@, start, self.current as int));
                }
            }
            r
        } else {
            self.expression_statement()
        }
    }

    fn print_statement(&mut self) -> (r: Result<Stmt, ParserError>)
        requires
            old(self).current >= 1,
            old(self).tokens@[old(self).current - 1].token_type == TokenType::Print,
            old(self).wf(),
        ensures
            r is Ok ==> final(self).not_after_var(),
            ({
                let end = accepts_declaration(kinds(old(self).tokens@), old(self).current - 1);
                &&& (r is Ok) == (end is Ok)
                &&& r is Ok ==> final(self).current == end->Ok_0
                &&& r matches Err(e) ==> end == Err::<int, Stop>((final(self).current as int, e.message@))
            }),
            old(self).current <= final(self).current,
            final(self).wf(),
            final(self).tokens == old(self).tokens,
            old(self).current < final(self).current || r is Err,
            match r {
                Ok(s) => s is Print && wf_stmt(s) && stmt_keys(s).drop_first() == keys(
                    old(self).tokens@,
                    old(self).current as int,
                    final(self).current as int,
                ) && stmt_keys(s)[0] == mark(TokenType::Print),
                Err(err) => err.line == old(self).tokens@[final(self).current as int].line,
            },
    {
        let ghost start = self.current as int;
        let value = self.expression()?;
        let ghost mid = self.current as int;
        self.consume(TokenType::Semicolon, "Expect ';' after value.")?;
        proof {
            lemma_keys_one(self.tokens@, mid);
            lemma_keys_split(self.tokens@, start, mid, mid + 1);
        }
        let s = Stmt::Print(value);
        assert(stmt_keys(s).drop_first() =~= keys(self.tokens@, start, self.current as int));
        Ok(s)
    }

    fn expression_statement(&mut self) -> (r: Result<Stmt, ParserError>)
        requires
            old(self).not_after_var(),
            old(self).wf(),
        ensures
            r is Ok ==> final(self).not_after_var(),
            ({
                let ks = kinds(old(self).tokens@);
                let end = then_semicolon(
                    ks,
                    accepts_expr(ks, old(self).current as int, 1),
                    "Expect ';' after value."@,
                );
                &&& (r is Ok) == (end is Ok)
                &&& r is Ok ==> final(self).current == end->Ok_0
                &&& r matches Err(e) ==> end == Err::<int, Stop>((final(self).current as int, e.message@))
            }),
            old(self).current <= final(self).current,
            final(self).wf(),
            final(self).tokens == old(self).tokens,
            old(self).current < final(self).current || r is Err,
            stmt_result(old(self).tokens@, old(self).current as int, final(self).current as int, r),
    {
        let ghost start = self.current as int;
        let value = self.expression()?;
        let ghost mid = self.current as int;
        self.consume(TokenType::Semicolon, "Expect ';' after value.")?;
        proof {
            lemma_keys_one(self.tokens@, mid);
            lemma_keys_split(self.tokens@, start, mid, mid + 1);
        }
        Ok(Stmt::Expression(value))
    }

    fn expression(&mut self) -> (r: Result<Expr, ParserError>)
        requires
            old(self).not_after_var(),
            old(self).wf(),
        ensures
            final(self).wf(),
            final(self).tokens == old(self).tokens,
            old(self).current <= final(self).current,
            expr_outcome(old(self).tokens@, old(self).current as int, final(self).current as int, r, 1),
        decreases old(self).tokens@.len() - old(self).current, 6nat,
    {
        self.equality()
    }

    fn equality(&mut self) -> (r: Result<Expr, ParserError>)
        requires
            old(self).not_after_var(),
            old(self).wf(),
        ensures
            final(self).wf(),
            final(self).tokens == old(self).tokens,
            old(self).current <= final(self).current,
            expr_outcome(old(self).tokens@, old(self).current as int, final(self).current as int, r, 1),
        decreases old(self).tokens@.len() - old(self).current, 5nat,
    {
        let ghost start = self.current as int;
        let mut expr = self.comparison()?;
        loop
            invariant
                self.wf(),
                self.tokens == old(self).tokens,
                start == old(self).current,
                start <= self.current,
                wf_expr(expr),
                level(expr) >= 1,
                start < self.current,
                accepts_expr(kinds(self.tokens@), start, 1) == accepts_operands(
                    kinds(self.tokens@),
                    self.current as int,
                    1,
                ),
                expr_keys(expr) == keys(self.tokens@, start, self.current as int),
            ensures
                accepts_operands(kinds(self.tokens@), self.current as int, 1) == Ok::<int, Stop>(self.current as int),
            decreases self.tokens@.len() - self.current,
        {
            let ghost at = self.current as int;
            if !self.match_token(&[TokenType::BangEqual, TokenType::EqualEqual]) {
                proof {
                    let k = self.tokens@[at].token_type;
                    assert(kinds(self.tokens@)[at] == k);
                    assert(binary_level(k) != 1);
                }
                break;
            }
            let operator = self.previous().duplicate();
            let ghost mid = self.current as int;
            let right = self.comparison()?;
            proof {
                let ts = self.tokens@;
                lemma_keys_split(ts, start, mid - 1, mid);
                lemma_keys_one(ts, mid - 1);
                lemma_keys_split(ts, start, mid, self.current as int);
            }
            expr = Expr::Binary { left: Box::new(expr), operator, right: Box::new(right) };
        }
        Ok(expr)
    }

    fn comparison(&mut self) -> (r: Result<Expr, ParserError>)
        requires
            old(self).not_after_var(),
            old(self).wf(),
        ensures
            final(self).wf(),
            final(self).tokens == old(self).tokens,
            old(self).current <= final(self).current,
            expr_outcome(old(self).tokens@, old(self).current as int, final(self).current as int, r, 2),
        decreases old(self).tokens@.len() - old(self).current, 4nat,
    {
        let ghost start = self.current as int;
        let mut expr = self.term()?;
        loop
            invariant
                self.wf(),
                self.tokens == old(self).tokens,
                start == old(self).current,
                start <= self.current,
                wf_expr(expr),
                level(expr) >= 2,
                start < self.current,
                accepts_expr(kinds(self.tokens@), start, 2) == accepts_operands(
                    kinds(self.tokens@),
                    self.current as int,
                    2,
                ),
                expr_keys(expr) == keys(self.tokens@, start, self.current as int),
            ensures
                accepts_operands(kinds(self.tokens@), self.current as int, 2) == Ok::<int, Stop>(self.current as int),
            decreases self.tokens@.len() - self.current,
        {
            let ghost at = self.current as int;
            if !self.match_token(
                &[TokenType::Greater, TokenType::GreaterEqual, TokenType::Less, TokenType::LessEqual],
            ) {
                proof {
                    let k = self.tokens@[at].token_type;
                    assert(kinds(self.tokens@)[at] == k);
                    assert(binary_level(k) != 2);
                }
                break;
            }
            let operator = self.previous().duplicate();
            let ghost mid = self.current as int;
            let right = self.term()?;
            proof {
                let ts = self.tokens@;
                lemma_keys_split(ts, start, mid - 1, mid);
                lemma_keys_one(ts, mid - 1);
                lemma_keys_split(ts, start, mid, self.current as int);
            }
            expr = Expr::Binary { left: Box::new(expr), operator, right: Box::new(right) };
        }
        Ok(expr)
    }

    fn term(&mut self) -> (r: Result<Expr, ParserError>)
        requires
            old(self).not_after_var(),
            old(self).wf(),
        ensures
            final(self).wf(),
            final(self).tokens == old(self).tokens,
            old(self).current <= final(self).current,
            expr_outcome(old(self).tokens@, old(self).current as int, final(self).current as int, r, 3),
        decreases old(self).tokens@.len() - old(self).current, 3nat,
    {
        let ghost start = self.current as int;
        let mut expr = self.factor()?;
        loop
            invariant
                self.wf(),
                self.tokens == old(self).tokens,
                start == old(self).current,
                start <= self.current,
                wf_expr(expr),
                level(expr) >= 3,
                start < self.current,
                accepts_expr(kinds(self.tokens@), start, 3) == accepts_operands(
                    kinds(self.tokens@),
                    self.current as int,
                    3,
                ),
                expr_keys(expr) == keys(self.tokens@, start, self.current as int),
            ensures
                accepts_operands(kinds(self.tokens@), self.current as int, 3) == Ok::<int, Stop>(self.current as int),
            decreases self.tokens@.len() - self.current,
        {
            let ghost at = self.current as int;
            if !self.match_token(&[TokenType::Minus, TokenType::Plus]) {
                proof {
                    let k = self.tokens@[at].token_type;
                    assert(kinds(self.tokens@)[at] == k);
                    assert(binary_level(k) != 3);
                }
                break;
            }
            let operator = self.previous().duplicate();
            let ghost mid = self.current as int;
            let right = self.factor()?;
            proof {
                let ts = self.tokens@;
                lemma_keys_split(ts, start, mid - 1, mid);
                lemma_keys_one(ts, mid - 1);
                lemma_keys_split(ts, start, mid, self.current as int);
            }
            expr = Expr::Binary { left: Box::new(expr), operator, right: Box::new(right) };
        }
        Ok(expr)
    }

    fn factor(&mut self) -> (r: Result<Expr, ParserError>)
        requires
            old(self).not_after_var(),
            old(self).wf(),
        ensures
            final(self).wf(),
            final(self).tokens == old(self).tokens,
            old(self).current <= final(self).current,
            expr_outcome(old(self).tokens@, old(self).current as int, final(self).current as int, r, 4),
        decreases old(self).tokens@.len() - old(self).current, 2nat,
    {
        let ghost start = self.current as int;
        let mut expr = self.unary()?;
        loop
            invariant
                self.wf(),
                self.tokens == old(self).tokens,
                start == old(self).current,
                start <= self.current,
                wf_expr(expr),
                level(expr) >= 4,
                start < self.current,
                accepts_expr(kinds(self.tokens@), start, 4) == accepts_operands(
                    kinds(self.tokens@),
                    self.current as int,
                    4,
                ),
                expr_keys(expr) == keys(self.tokens@, start, self.current as int),
            ensures
                accepts_operands(kinds(self.tokens@), self.current as int, 4) == Ok::<int, Stop>(self.current as int),
            decreases self.tokens@.len() - self.current,
        {
            let ghost at = self.current as int;
            if !self.match_token(&[TokenType::Slash, TokenType::Star]) {
                proof {
                    let k = self.tokens@[at].token_type;
                    assert(kinds(self.tokens@)[at] == k);
                    assert(binary_level(k) != 4);
                }
                break;
            }
            let operator = self.previous().duplicate();
            let ghost mid = self.current as int;
            let right = self.unary()?;
            proof {
                let ts = self.tokens@;
                lemma_keys_split(ts, start, mid - 1, mid);
                lemma_keys_one(ts, mid - 1);
                lemma_keys_split(ts, start, mid, self.current as int);
            }
            expr = Expr::Binary { left: Box::new(expr), operator, right: Box::new(right) };
        }
        Ok(expr)
    }

    fn unary(&mut self) -> (r: Result<Expr, ParserError>)
        requires
            old(self).not_after_var(),
            old(self).wf(),
        ensures
            final(self).wf(),
            final(self).tokens == old(self).tokens,
            old(self).current <= final(self).current,
            expr_outcome(old(self).tokens@, old(self).current as int, final(self).current as int, r, 5),
        decreases old(self).tokens@.len() - old(self).current, 1nat,
    {
        let ghost start = self.current as int;
        if self.match_token(&[TokenType::Bang, TokenType::Minus]) {
            let operator = self.previous().duplicate();
            let right = self.unary()?;
            proof {
                lemma_keys_one(self.tokens@, start);
                lemma_keys_split(self.tokens@, start, start + 1, self.current as int);
            }
            Ok(Expr::Unary { operator, right: Box::new(right) })
        } else {
            self.primary()
        }
    }

    fn primary(&mut self) -> (r: Result<Expr, ParserError>)
        requires
            old(self).not_after_var(),
            old(self).wf(),
        ensures
            r is Err && old(self).tokens@[old(self).current as int].token_type != TokenType::LeftParen
                ==> final(self).current == old(self).current && r->Err_0.message@
                == unexpected_message(old(self).tokens@[old(self).current as int].token_type),
            final(self).wf(),
            final(self).tokens == old(self).tokens,
            old(self).current <= final(self).current,
            expr_outcome(old(self).tokens@, old(self).current as int, final(self).current as int, r, 6),
        decreases old(self).tokens@.len() - old(self).current, 0nat,
    {
        let ghost start = self.current as int;
        proof {
            lemma_keys_one(self.tokens@, start);
        }
        match self.peek().token_type {
            TokenType::False => {
                self.advance();
                Ok(Expr::Literal { value: Value::Boolean(false) })
            },
            TokenType::True => {
                self.advance();
                Ok(Expr::Literal { value: Value::Boolean(true) })
            },
            TokenType::Nil => {
                self.advance();
                Ok(Expr::Literal { value: Value::Nil })
            },
            TokenType::Number => {
                let token = self.advance();
                let text = match token.literal {
                    Some(s) => s,
                    None => token.lexeme,
                };
                Ok(Expr::Literal { value: Value::Number(Number::Decimal(text)) })
            },
            TokenType::String => {
                let token = self.advance();
                let text = match token.literal {
                    Some(s) => s,
                    None => token.lexeme,
                };
                Ok(Expr::Literal { value: Value::String(text) })
            },
            TokenType::Identifier => {
                let token = self.advance();
                Ok(Expr::Variable { name: token })
            },
            TokenType::LeftParen => {
                self.advance();
                let expr = self.expression()?;
                let ghost mid = self.current as int;
                self.consume(TokenType::RightParen, "Expect ')' after expression.")?;
                proof {
                    let ts = self.tokens@;
                    lemma_keys_one(ts, mid);
                    lemma_keys_split(ts, start, start + 1, mid);
                    lemma_keys_split(ts, start, mid, mid + 1);
                }
                Ok(Expr::Grouping(Box::new(expr)))
            },
            _ => {
                let found = self.peek();
                let mut message = String::from_str("Unexpected token ");
                message.append(found.token_type.name().as_str());
                Err(ParserError::new(message, found.line))
            },
        }
    }

    /// Consumes the next token when it is of `kind`; fails with `message`
    /// at the next token's line otherwise.
    fn consume(&mut self, kind: TokenType, message: &str) -> (r: Result<Token, ParserError>)
        requires
            old(self).wf(),
        ensures
            (r is Ok) == (old(self).tokens@[old(self).current as int].token_type == kind && kind
                != TokenType::EOF),
            final(self).wf(),
            final(self).tokens == old(self).tokens,
            match r {
                Ok(t) => {
                    &&& old(self).tokens@[old(self).current as int].token_type == kind
                    &&& kind != TokenType::EOF
                    &&& final(self).current == old(self).current + 1
                    &&& t@ == old(self).tokens@[old(self).current as int]@
                },
                Err(err) => {
                    &&& final(self).current == old(self).current
                    &&& err.line == old(self).tokens@[old(self).current as int].line
                    &&& err.message@ == found_message(
                        message@,
                        old(self).tokens@[old(self).current as int].token_type,
                    )
                },
            },
    {
        if self.check(kind) {
            Ok(self.advance())
        } else {
            let found = self.peek();
            let mut text = String::from_str(message);
            text.append(", found ");
            text.append(found.token_type.name().as_str());
            Err(ParserError::new(text, found.line))
        }
    }

    /// Skips tokens up to the next statement boundary: just past a `;`, or
    /// before a keyword that starts a statement, or at the end of input.
    /// Error recovery that collects several errors would call this; `parse`
    /// stops at the first error and does not.
    pub fn synchronize(&mut self)
        requires
            old(self).wf(),
        ensures
            final(self).wf(),
            final(self).toks() == old(self).toks(),
            old(self).pos() <= final(self).pos(),
            final(self).toks()[final(self).pos()].token_type == TokenType::EOF || (old(
                self,
            ).pos() < final(self).pos() && (final(self).toks()[final(self).pos() - 1].token_type
                == TokenType::Semicolon || starts_statement(
                final(self).toks()[final(self).pos()].token_type,
            ))),
            forall|j: int|
                old(self).pos() < j < final(self).pos() ==> #[trigger] final(self).toks()[j
                    - 1].token_type != TokenType::Semicolon && !starts_statement(
                    final(self).toks()[j].token_type,
                ) && final(self).toks()[j].token_type != TokenType::EOF,
    {
        if self.is_at_end() {
            return;
        }
        self.advance();
        while !self.is_at_end()
            invariant
                self.wf(),
                self.tokens == old(self).tokens,
                old(self).current < self.current,
                forall|j: int|
                    old(self).current < j < self.current ==> #[trigger] self.tokens@[j
                        - 1].token_type != TokenType::Semicolon && !starts_statement(
                        self.tokens@[j].token_type,
                    ) && self.tokens@[j].token_type != TokenType::EOF,
            decreases self.tokens@.len() - self.current,
        {
            if self.previous().token_type == TokenType::Semicolon {
                return;
            }
            match self.peek().token_type {
                TokenType::Class | TokenType::Fun | TokenType::Var | TokenType::For | TokenType::If
                | TokenType::While | TokenType::Print | TokenType::Return => {
                    return;
                },
                _ => {},
            }
            self.advance();
        }
    }

    /// Consumes the next token when its kind is one of `types`.
    fn match_token(&mut self, types: &[TokenType]) -> (r: bool)
        requires
            old(self).wf(),
        ensures
            final(self).wf(),
            final(self).tokens == old(self).tokens,
            r == (old(self).tokens@[old(self).current as int].token_type != TokenType::EOF
                && types@.contains(old(self).tokens@[old(self).current as int].token_type)),
            final(self).current == old(self).current + if r {
                1int
            } else {
                0int
            },
    {
        let mut i: usize = 0;
        while i < types.len()
            invariant
                0 <= i <= types@.len(),
                *self == *old(self),
                self.wf(),
                forall|j: int| 0 <= j < i ==> !self.check_spec(#[trigger] types@[j]),
            decreases types@.len() - i,
        {
            if self.check(types[i]) {
                self.advance();
                return true;
            }
            i = i + 1;
        }
        proof {
            if old(self).tokens@[old(self).current as int].token_type != TokenType::EOF
                && types@.contains(old(self).tokens@[old(self).current as int].token_type) {
                let k = old(self).tokens@[old(self).current as int].token_type;
                let j = choose|j: int| 0 <= j < types@.len() && types@[j] == k;
                assert(!self.check_spec(types@[j]));
            }
        }
        false
    }

    closed spec fn check_spec(&self, kind: TokenType) -> bool {
        self.tokens@[self.current as int].token_type != TokenType::EOF
            && self.tokens@[self.current as int].token_type == kind
    }

    fn check(&self, kind: TokenType) -> (r: bool)
        requires
            self.wf(),
        ensures
            r == self.check_spec(kind),
    {
        if self.is_at_end() {
            return false;
        }
        self.peek().token_type == kind
    }

    /// Consumes the next token, which is not the end-of-input token.
    fn advance(&mut self) -> (r: Token)
        requires
            old(self).wf(),
            old(self).tokens@[old(self).current as int].token_type != TokenType::EOF,
        ensures
            final(self).wf(),
            final(self).tokens == old(self).tokens,
            final(self).current == old(self).current + 1,
            r@ == old(self).tokens@[old(self).current as int]@,
    {
        if self.current < self.tokens.len() {
            self.current = self.current + 1;
        }
        self.previous().duplicate()
    }

    fn is_at_end(&self) -> (r: bool)
        requires
            self.wf(),
        ensures
            r == (self.tokens@[self.current as int].token_type == TokenType::EOF),
    {
        self.peek().token_type == TokenType::EOF
    }

    fn peek(&self) -> (r: &Token)
        requires
            self.wf(),
        ensures
            *r == self.tokens@[self.current as int],
    {
        &self.tokens[self.current]
    }

    fn previous(&self) -> (r: &Token)
        requires
            0 < self.current <= self.tokens@.len(),
        ensures
            *r == self.tokens@[self.current - 1],
    {
        &self.tokens[self.current - 1]
    }
}

/// Kinds of token that begin a statement.
pub open spec fn starts_statement(kind: TokenType) -> bool {
    kind == TokenType::Class || kind == TokenType::Fun || kind == TokenType::Var || kind
        == TokenType::For || kind == TokenType::If || kind == TokenType::While || kind
        == TokenType::Print || kind == TokenType::Return
}

} // verus!
