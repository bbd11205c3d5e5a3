use vstd::prelude::*;
use crate::ast::Stmt;
use crate::environment::Environment;
use crate::error::InterpreterError;
use crate::interpreter::{execute_all, exec_all, fault_of};
use crate::lexer::{Lexer, ends_with_one_eof, lemma_scan_from_one_eof, scan};
use crate::parser::{Parser, accepts_program, keys, kinds, stmts_keys, tok_keys, wf_stmt};
use crate::token::{Tok, TokenType, tokens_view};
use crate::value::{Value, values_view};

verus! {

/// `ss` is what the grammar derives from the tokens `ts`: each statement is
/// one the grammar derives, and together they are written with exactly the
/// tokens before the end of input.
pub open spec fn parses_as(ss: Seq<Stmt>, ts: Seq<Tok>) -> bool {
    &&& forall|i: int| 0 <= i < ss.len() ==> wf_stmt(#[trigger] ss[i])
    &&& stmts_keys(ss) == tok_keys(ts, 0, ts.len() - 1)
}

/// The kinds of a sequence of tokens.
pub open spec fn tok_kinds(ts: Seq<Tok>) -> Seq<TokenType> {
    ts.map_values(|t: Tok| t.kind)
}

/// Runs a source text: scans it, parses it, and executes the statements
/// against a fresh global environment, appending each printed value to
/// `out`. The first error of any kind ends the run.
pub fn run(source: &str, out: &mut Vec<Value>) -> (r: Result<(), InterpreterError>)
    requires
        source@.len() < usize::MAX,
    ensures
        (r matches Err(InterpreterError::LexerError(_))) == (scan(source@) is Err),
        scan(source@) matches Err(e) ==> r == Err::<(), InterpreterError>(
            InterpreterError::LexerError(e),
        ) && final(out)@ == old(out)@,
        r matches Err(InterpreterError::ParserError(_)) ==> final(out)@ == old(out)@,
        (r matches Err(InterpreterError::ParserError(_))) == (scan(source@) is Ok && accepts_program(
            tok_kinds(scan(source@)->Ok_0),
            0,
        ) is Err),
        r matches Err(InterpreterError::ParserError(e)) ==> scan(source@) is Ok && ({
            let ts = scan(source@)->Ok_0;
            let stop = accepts_program(tok_kinds(ts), 0)->Err_0;
            &&& 0 <= stop.0 < ts.len()
            &&& e.line == ts[stop.0].line
            &&& e.message@ == stop.1
        }),
        (r is Ok || r matches Err(InterpreterError::RuntimeError(_))) ==> scan(source@) is Ok
            && exists|ss: Seq<Stmt>|
            {
                let o = exec_all(ss, seq![Map::empty()]);
                &&& #[trigger] parses_as(ss, scan(source@)->Ok_0)
                &&& values_view(final(out)@) == values_view(old(out)@) + o.output
                &&& (r is Ok <==> o.error is None)
                &&& r matches Err(InterpreterError::RuntimeError(e)) ==> o.error == Some(fault_of(e))
            },
{
    let mut lexer = Lexer::new(source);
    let tokens = match lexer.scan_tokens() {
        Ok(t) => t,
        Err(e) => {
            return Err(InterpreterError::LexerError(e));
        },
    };
    proof {
        lemma_scan_from_one_eof(source@, 0, 1);
        let tv = tokens_view(tokens@);
        assert(ends_with_one_eof(tv));
        assert(tokens@.last()@ == tv.last());
    }
    proof {
        assert(kinds(tokens@) =~= tok_kinds(tokens_view(tokens@)));
    }
    let mut parser = Parser::new(&tokens);
    let statements = match parser.parse() {
        Ok(s) => s,
        Err(e) => {
            proof {
                let p = parser.pos();
                assert(tokens_view(tokens@)[p] == tokens@[p]@);
            }
            return Err(InterpreterError::ParserError(e));
        },
    };
    proof {
        let tv = tokens_view(tokens@);
        let p = parser.pos();
        assert(tv[p] == tokens@[p]@);
        assert(tv[p].kind == TokenType::EOF);
        assert(p == tokens@.len() - 1);
    }
    let mut env = Environment::new();
    let result = execute_all(&statements, &mut env, out);
    proof {
        assert(parses_as(statements@, scan(source@)->Ok_0));
    }
    match result {
        Ok(()) => Ok(()),
        Err(e) => Err(InterpreterError::RuntimeError(e)),
    }
}

} // verus!
