use ylox::ast::{Expr, Stmt};
use ylox::environment::Environment;
use ylox::error::{InterpreterError, LexerError};
use ylox::interpreter::execute_all;
use ylox::lexer::Lexer;
use ylox::parser::Parser;
use ylox::pipeline::run;
use ylox::token::{Token, TokenType};
use ylox::value::{ArithOp, Number, Value};

fn number_value(n: &Number) -> f64 {
    match n {
        Number::Decimal(s) => s.parse().unwrap(),
        Number::Negate(a) => -number_value(a),
        Number::Arith(op, a, b) => {
            let (x, y) = (number_value(a), number_value(b));
            match op {
                ArithOp::Add => x + y,
                ArithOp::Sub => x - y,
                ArithOp::Mul => x * y,
                ArithOp::Div => x / y,
            }
        }
    }
}

fn render(v: &Value) -> String {
    match v {
        Value::Number(n) => format!("{}", number_value(n)),
        other => ylox::ast::value_string(other),
    }
}

fn run_lines(source: &str) -> (Vec<String>, Result<(), InterpreterError>) {
    let mut out = Vec::new();
    let r = run(source, &mut out);
    (out.iter().map(render).collect(), r)
}

fn scan(source: &str) -> Result<Vec<Token>, LexerError> {
    Lexer::new(source).scan_tokens()
}

fn tok(kind: TokenType, lexeme: &str, line: usize) -> Token {
    Token::new(kind, lexeme.to_string(), None, line)
}

fn num(text: &str) -> Expr {
    Expr::Literal { value: Value::Number(Number::Decimal(text.to_string())) }
}

fn var(name: &str) -> Expr {
    Expr::Variable { name: tok(TokenType::Identifier, name, 1) }
}

#[test]
fn numeral_payload_is_its_text() {
    for text in ["0", "7", "123", "3.14", "007.500"] {
        let tokens = scan(text).unwrap();
        assert_eq!(tokens.len(), 2);
        assert_eq!(tokens[0].token_type, TokenType::Number);
        assert_eq!(tokens[0].literal.as_deref(), Some(text));
        assert_eq!(tokens[0].lexeme, text);
    }
}

#[test]
fn dot_without_digits_is_not_part_of_a_number() {
    let tokens = scan("1.").unwrap();
    let kinds: Vec<TokenType> = tokens.iter().map(|t| t.token_type).collect();
    assert_eq!(kinds, vec![TokenType::Number, TokenType::Dot, TokenType::EOF]);
    assert_eq!(tokens[0].lexeme, "1");
}

#[test]
fn tokens_end_with_exactly_one_eof() {
    for source in ["", "var x = 1;", "print (1 + 2) * 3; // done", "\n\n  \t", "a != b <= c"] {
        let tokens = scan(source).unwrap();
        assert_eq!(tokens.last().unwrap().token_type, TokenType::EOF);
        let eofs = tokens.iter().filter(|t| t.token_type == TokenType::EOF).count();
        assert_eq!(eofs, 1);
    }
}

#[test]
fn two_char_operators_and_comments() {
    let tokens = scan("! != = == < <= > >= / // ignored\n;").unwrap();
    let kinds: Vec<TokenType> = tokens.iter().map(|t| t.token_type).collect();
    assert_eq!(
        kinds,
        vec![
            TokenType::Bang,
            TokenType::BangEqual,
            TokenType::Equal,
            TokenType::EqualEqual,
            TokenType::Less,
            TokenType::LessEqual,
            TokenType::Greater,
            TokenType::GreaterEqual,
            TokenType::Slash,
            TokenType::Semicolon,
            TokenType::EOF,
        ]
    );
    assert_eq!(tokens[9].line, 2);
}

#[test]
fn keywords_and_identifiers() {
    let tokens = scan("var print nil true false and or while x1 héllo").unwrap();
    let kinds: Vec<TokenType> = tokens.iter().map(|t| t.token_type).collect();
    assert_eq!(
        kinds,
        vec![
            TokenType::Var,
            TokenType::Print,
            TokenType::Nil,
            TokenType::True,
            TokenType::False,
            TokenType::And,
            TokenType::Or,
            TokenType::While,
            TokenType::Identifier,
            TokenType::Identifier,
            TokenType::EOF,
        ]
    );
    assert_eq!(tokens[8].lexeme, "x1");
    assert_eq!(tokens[9].lexeme, "héllo");
}

#[test]
fn string_literal_payload_and_lines() {
    let tokens = scan("\"ab\ncd\" x").unwrap();
    assert_eq!(tokens[0].token_type, TokenType::String);
    assert_eq!(tokens[0].literal.as_deref(), Some("ab\ncd"));
    assert_eq!(tokens[0].lexeme, "\"ab\ncd\"");
    assert_eq!(tokens[0].line, 1);
    assert_eq!(tokens[1].line, 2);
}

#[test]
fn unterminated_string_reports_start_line() {
    assert_eq!(scan("\"abc").unwrap_err(), LexerError::UnterminatedString { line: 1 });
    assert_eq!(scan("1;\n\"abc\ndef\n").unwrap_err(), LexerError::UnterminatedString { line: 2 });
}

#[test]
fn unexpected_character_is_reported() {
    assert_eq!(
        scan("var a = 1;\n@").unwrap_err(),
        LexerError::UnexpectedCharacter { line: 2, character: '@' }
    );
    assert!(matches!(run_lines("print 1 # 2;").1, Err(InterpreterError::LexerError(_))));
}

#[test]
fn factor_binds_tighter_than_term() {
    let tokens = scan("1 + 2 * 3;").unwrap();
    let mut parser = Parser::new(&tokens);
    let statements = parser.parse().unwrap();
    assert_eq!(statements.len(), 1);
    match &statements[0] {
        Stmt::Expression(e) => assert_eq!(e.print(), "(+ 1 (* 2 3))"),
        _ => panic!("expected an expression statement"),
    }
    let (lines, r) = run_lines("print 1 + 2 * 3;");
    assert!(r.is_ok());
    assert_eq!(lines, vec!["7"]);
}

#[test]
fn binary_levels_left_associate() {
    let tokens = scan("1 - 2 - 3 == 4 < 5;").unwrap();
    let statements = Parser::new(&tokens).parse().unwrap();
    match &statements[0] {
        Stmt::Expression(e) => assert_eq!(e.print(), "(== (- (- 1 2) 3) (< 4 5))"),
        _ => panic!("expected an expression statement"),
    }
    let tokens = scan("-!x;").unwrap();
    let statements = Parser::new(&tokens).parse().unwrap();
    match &statements[0] {
        Stmt::Expression(e) => assert_eq!(e.print(), "(- (! x))"),
        _ => panic!("expected an expression statement"),
    }
}

#[test]
fn block_scoping_shadows_and_restores() {
    let program = vec![
        Stmt::Var("x".to_string(), Some(num("1"))),
        Stmt::Block(vec![Stmt::Var("x".to_string(), Some(num("2"))), Stmt::Print(var("x"))]),
        Stmt::Print(var("x")),
    ];
    let mut env = Environment::new();
    let mut out = Vec::new();
    assert!(execute_all(&program, &mut env, &mut out).is_ok());
    let lines: Vec<String> = out.iter().map(render).collect();
    assert_eq!(lines, vec!["2", "1"]);
}

#[test]
fn inner_scope_sees_outer_bindings() {
    let program = vec![
        Stmt::Var("y".to_string(), Some(num("5"))),
        Stmt::Block(vec![Stmt::Block(vec![Stmt::Print(var("y"))])]),
    ];
    let mut env = Environment::new();
    let mut out = Vec::new();
    assert!(execute_all(&program, &mut env, &mut out).is_ok());
    assert_eq!(out.iter().map(render).collect::<Vec<_>>(), vec!["5"]);
}

#[test]
fn redeclaration_overwrites() {
    let (lines, r) = run_lines("var a = 1; var a = 2; print a; var b; print b;");
    assert!(r.is_ok());
    assert_eq!(lines, vec!["2", "nil"]);
}

#[test]
fn environment_define_and_get() {
    let mut env = Environment::new();
    assert!(env.get(&"a".to_string()).is_none());
    env.define("a".to_string(), Value::Boolean(true));
    let mut inner = Environment::with_enclosing(env);
    assert!(matches!(inner.get(&"a".to_string()), Some(Value::Boolean(true))));
    inner.define("a".to_string(), Value::Nil);
    assert!(matches!(inner.get(&"a".to_string()), Some(Value::Nil)));
    inner.pop_scope();
    assert!(matches!(inner.get(&"a".to_string()), Some(Value::Boolean(true))));
}

#[test]
fn string_operands_are_a_runtime_error() {
    let (lines, r) = run_lines("\"a\" + \"b\";");
    assert!(lines.is_empty());
    match r {
        Err(InterpreterError::RuntimeError(e)) => assert_eq!(e.line, 1),
        other => panic!("expected a runtime error, got {:?}", other),
    }
}

#[test]
fn runtime_errors_stop_the_run() {
    let (lines, r) = run_lines("print 1;\nprint -true;\nprint 2;");
    assert_eq!(lines, vec!["1"]);
    match r {
        Err(InterpreterError::RuntimeError(e)) => assert_eq!(e.line, 2),
        other => panic!("expected a runtime error, got {:?}", other),
    }
    assert!(matches!(run_lines("print 1 < 2;").1, Err(InterpreterError::RuntimeError(_))));
    assert!(matches!(run_lines("print !1;").1, Err(InterpreterError::RuntimeError(_))));
    assert!(matches!(run_lines("print nope;").1, Err(InterpreterError::RuntimeError(_))));
}

#[test]
fn arithmetic_follows_ieee_doubles() {
    let (lines, r) = run_lines("print 1 + 2; print 5 - 7.5; print 2 * 3; print 7 / 2; print 1 / 0; print -(1) / 0; print 0 / 0; print 0.1 + 0.2;");
    assert!(r.is_ok());
    assert_eq!(lines, vec!["3", "-2.5", "6", "3.5", "inf", "-inf", "NaN", "0.30000000000000004"]);
    let mut out = Vec::new();
    assert!(run("print 1 / 0;", &mut out).is_ok());
    match &out[0] {
        Value::Number(n) => assert_eq!(number_value(n), f64::INFINITY),
        _ => panic!("expected a number"),
    }
}

#[test]
fn printed_text_of_values() {
    let (lines, r) = run_lines("print \"hi there\"; print true; print false; print nil; print (3);");
    assert!(r.is_ok());
    assert_eq!(lines, vec!["hi there", "true", "false", "nil", "3"]);
}

#[test]
fn pretty_printer_round_trip() {
    let plus = tok(TokenType::Plus, "+", 1);
    let star = tok(TokenType::Star, "*", 1);
    let sum = Expr::Binary { left: Box::new(num("1")), operator: plus, right: Box::new(num("2")) };
    let e = Expr::Binary {
        left: Box::new(Expr::Grouping(Box::new(sum))),
        operator: star,
        right: Box::new(num("3")),
    };
    assert_eq!(e.print(), "(* (group (+ 1 2)) 3)");
    let tokens = scan("(1 + 2) * 3;").unwrap();
    let statements = Parser::new(&tokens).parse().unwrap();
    match &statements[0] {
        Stmt::Expression(e) => assert_eq!(e.print(), "(* (group (+ 1 2)) 3)"),
        _ => panic!("expected an expression statement"),
    }
    let neg = Expr::Unary { operator: tok(TokenType::Minus, "-", 1), right: Box::new(Expr::Literal { value: Value::String("s".to_string()) }) };
    assert_eq!(neg.print(), "(- s)");
}

#[test]
fn parser_errors_carry_the_line() {
    let tokens = scan("print 1\n").unwrap();
    let err = Parser::new(&tokens).parse().unwrap_err();
    assert_eq!(err.line, 2);
    let tokens = scan("var = 1;").unwrap();
    assert_eq!(Parser::new(&tokens).parse().unwrap_err().line, 1);
    let tokens = scan("(1 + 2;").unwrap();
    assert!(Parser::new(&tokens).parse().is_err());
    let tokens = scan("\n\n;").unwrap();
    assert_eq!(Parser::new(&tokens).parse().unwrap_err().line, 3);
    assert!(matches!(run_lines("print 1 +;").1, Err(InterpreterError::ParserError(_))));
}

#[test]
fn declaration_parses_one_statement() {
    let tokens = scan("var a = 1 + 2; print a;").unwrap();
    let mut parser = Parser::new(&tokens);
    match parser.declaration().unwrap() {
        Stmt::Var(name, Some(e)) => {
            assert_eq!(name, "a");
            assert_eq!(e.print(), "(+ 1 2)");
        }
        _ => panic!("expected a declaration"),
    }
    assert!(matches!(parser.declaration().unwrap(), Stmt::Print(_)));
}

#[test]
fn synchronize_skips_to_statement_boundary() {
    let tokens = scan("1 2 3; print 4;").unwrap();
    let mut parser = Parser::new(&tokens);
    parser.synchronize();
    assert!(matches!(parser.declaration().unwrap(), Stmt::Print(_)));
    let tokens = scan("1 2 var x;").unwrap();
    let mut parser = Parser::new(&tokens);
    parser.synchronize();
    assert!(matches!(parser.declaration().unwrap(), Stmt::Var(_, None)));
}

#[test]
fn errors_keep_message_and_line() {
    let p = ylox::error::ParserError::new("m".to_string(), 4);
    assert_eq!((p.message.as_str(), p.line), ("m", 4));
    let r = ylox::error::RuntimeError::new("n".to_string(), 5);
    assert_eq!((r.message.as_str(), r.line), ("n", 5));
}

#[test]
fn printer_shows_numerals_in_canonical_form() {
    let tokens = scan("1.0 + 007.50 * 100 - 0.0 / 10.25;").unwrap();
    let statements = Parser::new(&tokens).parse().unwrap();
    match &statements[0] {
        Stmt::Expression(e) => assert_eq!(e.print(), "(- (+ 1 (* 7.5 100)) (/ 0 10.25))"),
        _ => panic!("expected an expression statement"),
    }
}

#[test]
fn printed_values_of_operations() {
    let mut out = Vec::new();
    assert!(run("var a = 2; print -a * (a + 1.5);", &mut out).is_ok());
    assert_eq!(ylox::ast::value_string(&out[0]), "(* (- 2) (+ 2 1.5))");
    assert_eq!(render(&out[0]), "-7");
}

#[test]
fn lexer_error_messages() {
    assert_eq!(
        LexerError::UnexpectedCharacter { line: 12, character: '#' }.message(),
        "Unexpected character '#' at line 12"
    );
    assert_eq!(LexerError::UnterminatedString { line: 7 }.message(), "Unterminated string at line 7");
    assert_eq!(ylox::error::decimal_text(0), "0");
    assert_eq!(ylox::error::decimal_text(1205), "1205");
}

fn eval_binary(kind: TokenType, lexeme: &str, a: Expr, b: Expr) -> Result<Value, ylox::error::RuntimeError> {
    let e = Expr::Binary { left: Box::new(a), operator: tok(kind, lexeme, 3), right: Box::new(b) };
    e.evaluate(&Environment::new())
}

#[test]
fn operator_chosen_by_lexeme() {
    let r = eval_binary(TokenType::Identifier, "+", num("1"), num("2")).unwrap();
    assert_eq!(render(&r), "3");
    let err = eval_binary(TokenType::Plus, "%", num("1"), num("2")).unwrap_err();
    assert_eq!((err.message.as_str(), err.line), ("Invalid binary operator '%'", 3));
    let neg = Expr::Unary { operator: tok(TokenType::Minus, "!", 4), right: Box::new(num("1")) };
    let err = neg.evaluate(&Environment::new()).unwrap_err();
    assert_eq!((err.message.as_str(), err.line), ("Invalid unary operator '!'", 4));
}

#[test]
fn runtime_error_messages_name_operands() {
    let s = |t: &str| Expr::Literal { value: Value::String(t.to_string()) };
    let err = eval_binary(TokenType::Plus, "+", s("a"), s("b")).unwrap_err();
    assert_eq!((err.message.as_str(), err.line), ("Operands must be numbers, got 'a' and 'b'", 3));
    let (_, r) = run_lines("print -nil;");
    match r {
        Err(InterpreterError::RuntimeError(e)) => assert_eq!(e.message, "Operand must be a number, got 'nil'"),
        other => panic!("expected a runtime error, got {:?}", other),
    }
    let (_, r) = run_lines("\n{}");
    match r {
        Err(InterpreterError::ParserError(e)) => assert_eq!((e.message.as_str(), e.line), ("Unexpected token LeftBrace", 2)),
        other => panic!("expected a parser error, got {:?}", other),
    }
    let (_, r) = run_lines("print 1;\nprint y;");
    match r {
        Err(InterpreterError::RuntimeError(e)) => {
            assert_eq!((e.message.as_str(), e.line), ("Undefined variable 'y'", 2))
        }
        other => panic!("expected a runtime error, got {:?}", other),
    }
}

#[test]
fn parser_error_messages() {
    let cases = [
        ("print 1", "Expect ';' after value., found EOF", 1),
        ("(1;", "Expect ')' after expression., found Semicolon", 1),
        ("var 1;", "Expect variable name., found Number", 1),
        ("var a = 1\nprint a;", "Expect ';' after variable declaration., found Print", 2),
        ("1 + ;", "Unexpected token Semicolon", 1),
    ];
    for (source, message, line) in cases {
        let tokens = scan(source).unwrap();
        let err = Parser::new(&tokens).parse().unwrap_err();
        assert_eq!((err.message.as_str(), err.line), (message, line), "{}", source);
    }
}

#[test]
fn parse_keeps_operator_tokens() {
    let tokens = scan("1\n+\n2;").unwrap();
    let statements = Parser::new(&tokens).parse().unwrap();
    match &statements[0] {
        Stmt::Expression(Expr::Binary { operator, .. }) => {
            assert_eq!((operator.token_type, operator.lexeme.as_str(), operator.line), (TokenType::Plus, "+", 2))
        }
        _ => panic!("expected a binary expression"),
    }
}

#[test]
fn synchronize_stops_at_first_boundary() {
    let tokens = scan("1 ; 2 ; print 3;").unwrap();
    let mut parser = Parser::new(&tokens);
    parser.synchronize();
    assert!(matches!(parser.declaration().unwrap(), Stmt::Expression(_)));
}

#[test]
fn token_kind_names() {
    assert_eq!(TokenType::LeftParen.name(), "LeftParen");
    assert_eq!(TokenType::EOF.name(), "EOF");
    assert_eq!(TokenType::GreaterEqual.name(), "GreaterEqual");
}
