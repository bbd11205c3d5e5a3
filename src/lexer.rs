use vstd::prelude::*;
pub use crate::error::LexerError;
use crate::text::{chars_of, string_of};
use crate::token::{Tok, Token, TokenType, opt_string_view, tokens_view};

verus! {

pub open spec fn is_digit(c: char) -> bool {
    '0' <= c && c <= '9'
}

/// What `char::is_alphabetic` answers for a character.
pub uninterp spec fn alphabetic(c: char) -> bool;

/// What `char::is_alphanumeric` answers for a character.
pub uninterp spec fn alphanumeric(c: char) -> bool;

/// Relies on char::is_alphabetic: Unicode's Alphabetic property.
#[verifier::external_body]
fn is_alphabetic(c: char) -> (r: bool)
    ensures
        r == alphabetic(c),
{
    c.is_alphabetic()
}

/// Relies on char::is_alphanumeric: Unicode's Alphabetic or Numeric property.
#[verifier::external_body]
fn is_alphanumeric(c: char) -> (r: bool)
    ensures
        r == alphanumeric(c),
{
    c.is_alphanumeric()
}

pub(crate) fn is_ascii_digit(c: char) -> (r: bool)
    ensures
        r == is_digit(c),
{
    '0' <= c && c <= '9'
}

/// The kinds of character run the scanner consumes greedily.
#[derive(Clone, Copy)]
pub enum Run {
    Digits,
    Word,
    Comment,
    Quoted,
}

pub open spec fn in_run(kind: Run, c: char) -> bool {
    match kind {
        Run::Digits => is_digit(c),
        Run::Word => alphanumeric(c),
        Run::Comment => c != '\n',
        Run::Quoted => c != '"',
    }
}

/// The end of the maximal run of `kind` characters that starts at `j`.
pub open spec fn run_end(src: Seq<char>, j: int, kind: Run) -> int
    decreases src.len() - j,
{
    if 0 <= j < src.len() && in_run(kind, src[j]) {
        run_end(src, j + 1, kind)
    } else {
        j
    }
}

pub proof fn lemma_run_end(src: Seq<char>, j: int, kind: Run)
    requires
        0 <= j <= src.len(),
    ensures
        j <= run_end(src, j, kind) <= src.len(),
        forall|k: int| j <= k < run_end(src, j, kind) ==> in_run(kind, #[trigger] src[k]),
        run_end(src, j, kind) < src.len() ==> !in_run(kind, src[run_end(src, j, kind)]),
    decreases src.len() - j,
{
    if j < src.len() && in_run(kind, src[j]) {
        lemma_run_end(src, j + 1, kind);
    }
}

/// The end of a numeral that starts with a digit at `pos`: digits, then
/// optionally a `.` followed by at least one more digit and the rest of them.
pub open spec fn number_end(src: Seq<char>, pos: int) -> int {
    let d = run_end(src, pos, Run::Digits);
    if d + 1 < src.len() && src[d] == '.' && is_digit(src[d + 1]) {
        run_end(src, d + 1, Run::Digits)
    } else {
        d
    }
}

/// The number of newline characters in `s`.
pub open spec fn newlines(s: Seq<char>) -> nat
    decreases s.len(),
{
    if s.len() == 0 {
        0
    } else {
        newlines(s.drop_last()) + if s.last() == '\n' {
            1nat
        } else {
            0nat
        }
    }
}

pub open spec fn single_char_kind(c: char) -> Option<TokenType> {
    if c == '(' {
        Some(TokenType::LeftParen)
    } else if c == ')' {
        Some(TokenType::RightParen)
    } else if c == '{' {
        Some(TokenType::LeftBrace)
    } else if c == '}' {
        Some(TokenType::RightBrace)
    } else if c == ',' {
        Some(TokenType::Comma)
    } else if c == '.' {
        Some(TokenType::Dot)
    } else if c == '-' {
        Some(TokenType::Minus)
    } else if c == '+' {
        Some(TokenType::Plus)
    } else if c == ';' {
        Some(TokenType::Semicolon)
    } else if c == '*' {
        Some(TokenType::Star)
    } else {
        None
    }
}

/// For `!`, `=`, `<` and `>`: the kind alone and the kind when `=` follows.
pub open spec fn operator_kinds(c: char) -> Option<(TokenType, TokenType)> {
    if c == '!' {
        Some((TokenType::Bang, TokenType::BangEqual))
    } else if c == '=' {
        Some((TokenType::Equal, TokenType::EqualEqual))
    } else if c == '<' {
        Some((TokenType::Less, TokenType::LessEqual))
    } else if c == '>' {
        Some((TokenType::Greater, TokenType::GreaterEqual))
    } else {
        None
    }
}

/// The kind of a word: its keyword, or `Identifier`.
pub open spec fn word_kind(w: Seq<char>) -> TokenType {
    if w == seq!['a', 'n', 'd'] {
        TokenType::And
    } else if w == seq!['c', 'l', 'a', 's', 's'] {
        TokenType::Class
    } else if w == seq!['e', 'l', 's', 'e'] {
        TokenType::Else
    } else if w == seq!['f', 'a', 'l', 's', 'e'] {
        TokenType::False
    } else if w == seq!['f', 'o', 'r'] {
        TokenType::For
    } else if w == seq!['f', 'u', 'n'] {
        TokenType::Fun
    } else if w == seq!['i', 'f'] {
        TokenType::If
    } else if w == seq!['n', 'i', 'l'] {
        TokenType::Nil
    } else if w == seq!['o', 'r'] {
        TokenType::Or
    } else if w == seq!['p', 'r', 'i', 'n', 't'] {
        TokenType::Print
    } else if w == seq!['r', 'e', 't', 'u', 'r', 'n'] {
        TokenType::Return
    } else if w == seq!['s', 'u', 'p', 'e', 'r'] {
        TokenType::Super
    } else if w == seq!['t', 'h', 'i', 's'] {
        TokenType::This
    } else if w == seq!['t', 'r', 'u', 'e'] {
        TokenType::True
    } else if w == seq!['v', 'a', 'r'] {
        TokenType::Var
    } else if w == seq!['w', 'h', 'i', 'l', 'e'] {
        TokenType::While
    } else {
        TokenType::Identifier
    }
}

pub open spec fn tok(kind: TokenType, lexeme: Seq<char>, literal: Option<Seq<char>>, line: nat) -> Tok {
    Tok { kind, lexeme, literal, line }
}

/// `prefix` followed by what `rest` scanned, or the error of `rest`.
pub open spec fn scan_all(prefix: Seq<Tok>, rest: Result<Seq<Tok>, LexerError>) -> Result<
    Seq<Tok>,
    LexerError,
> {
    match rest {
        Ok(ts) => Ok(prefix + ts),
        Err(e) => Err(e),
    }
}

/// The tokens of `src[pos..]` when scanning starts there on line `line`,
/// ending with the end-of-input token; or the first error.
pub open spec fn scan_from(src: Seq<char>, pos: int, line: nat) -> Result<Seq<Tok>, LexerError>
    decreases src.len() - pos,
    via scan_from_decreases
{
    if pos < 0 || pos >= src.len() {
        Ok(seq![tok(TokenType::EOF, seq![], None, line)])
    } else {
        let c = src[pos];
        let followed_by_eq = pos + 1 < src.len() && src[pos + 1] == '=';
        if single_char_kind(c) is Some {
            scan_all(
                seq![tok(single_char_kind(c)->0, src.subrange(pos, pos + 1), None, line)],
                scan_from(src, pos + 1, line),
            )
        } else if operator_kinds(c) is Some {
            let (short, long) = operator_kinds(c)->0;
            if followed_by_eq {
                scan_all(
                    seq![tok(long, src.subrange(pos, pos + 2), None, line)],
                    scan_from(src, pos + 2, line),
                )
            } else {
                scan_all(
                    seq![tok(short, src.subrange(pos, pos + 1), None, line)],
                    scan_from(src, pos + 1, line),
                )
            }
        } else if c == '/' {
            if pos + 1 < src.len() && src[pos + 1] == '/' {
                scan_from(src, run_end(src, pos + 2, Run::Comment), line)
            } else {
                scan_all(
                    seq![tok(TokenType::Slash, src.subrange(pos, pos + 1), None, line)],
                    scan_from(src, pos + 1, line),
                )
            }
        } else if c == ' ' || c == '\r' || c == '\t' {
            scan_from(src, pos + 1, line)
        } else if c == '\n' {
            scan_from(src, pos + 1, line + 1)
        } else if c == '"' {
            let q = run_end(src, pos + 1, Run::Quoted);
            if q >= src.len() {
                Err(LexerError::UnterminatedString { line: line as usize })
            } else {
                let body = src.subrange(pos + 1, q);
                scan_all(
                    seq![tok(TokenType::String, src.subrange(pos, q + 1), Some(body), line)],
                    scan_from(src, q + 1, line as nat + newlines(body)),
                )
            }
        } else if is_digit(c) {
            let e = number_end(src, pos);
            let text = src.subrange(pos, e);
            scan_all(seq![tok(TokenType::Number, text, Some(text), line)], scan_from(src, e, line))
        } else if alphabetic(c) {
            let e = run_end(src, pos + 1, Run::Word);
            let text = src.subrange(pos, e);
            scan_all(seq![tok(word_kind(text), text, None, line)], scan_from(src, e, line))
        } else {
            Err(LexerError::UnexpectedCharacter { line: line as usize, character: c })
        }
    }
}

#[via_fn]
proof fn scan_from_decreases(src: Seq<char>, pos: int, line: nat) {
    if 0 <= pos < src.len() {
        lemma_scan_steps(src, pos);
    }
}

/// Bounds on where each lexeme that starts at `pos` ends.
proof fn lemma_scan_steps(src: Seq<char>, pos: int)
    requires
        0 <= pos < src.len(),
    ensures
        pos + 2 <= src.len() ==> pos + 2 <= run_end(src, pos + 2, Run::Comment) <= src.len(),
        pos + 1 <= run_end(src, pos + 1, Run::Quoted) <= src.len(),
        pos + 1 <= run_end(src, pos + 1, Run::Word) <= src.len(),
        is_digit(src[pos]) ==> pos < number_end(src, pos) <= src.len(),
{
    if pos + 2 <= src.len() {
        lemma_run_end(src, pos + 2, Run::Comment);
    }
    lemma_run_end(src, pos + 1, Run::Quoted);
    lemma_run_end(src, pos + 1, Run::Word);
    lemma_run_end(src, pos, Run::Digits);
    let d = run_end(src, pos, Run::Digits);
    if d + 1 < src.len() {
        lemma_run_end(src, d + 1, Run::Digits);
    }
}

/// The tokens of a whole source text, or the first error.
pub open spec fn scan(src: Seq<char>) -> Result<Seq<Tok>, LexerError> {
    scan_from(src, 0, 1)
}

pub open spec fn lex_view(r: Result<Vec<Token>, LexerError>) -> Result<Seq<Tok>, LexerError> {
    match r {
        Ok(ts) => Ok(tokens_view(ts@)),
        Err(e) => Err(e),
    }
}


fn single_kind(c: char) -> (r: Option<TokenType>)
    ensures
        r == single_char_kind(c),
{
    if c == '(' {
        Some(TokenType::LeftParen)
    } else if c == ')' {
        Some(TokenType::RightParen)
    } else if c == '{' {
        Some(TokenType::LeftBrace)
    } else if c == '}' {
        Some(TokenType::RightBrace)
    } else if c == ',' {
        Some(TokenType::Comma)
    } else if c == '.' {
        Some(TokenType::Dot)
    } else if c == '-' {
        Some(TokenType::Minus)
    } else if c == '+' {
        Some(TokenType::Plus)
    } else if c == ';' {
        Some(TokenType::Semicolon)
    } else if c == '*' {
        Some(TokenType::Star)
    } else {
        None
    }
}

fn operator_kind_pair(c: char) -> (r: Option<(TokenType, TokenType)>)
    ensures
        r == operator_kinds(c),
{
    if c == '!' {
        Some((TokenType::Bang, TokenType::BangEqual))
    } else if c == '=' {
        Some((TokenType::Equal, TokenType::EqualEqual))
    } else if c == '<' {
        Some((TokenType::Less, TokenType::LessEqual))
    } else if c == '>' {
        Some((TokenType::Greater, TokenType::GreaterEqual))
    } else {
        None
    }
}

fn continues_run(kind: Run, c: char) -> (r: bool)
    ensures
        r == in_run(kind, c),
{
    match kind {
        Run::Digits => is_ascii_digit(c),
        Run::Word => is_alphanumeric(c),
        Run::Comment => c != '\n',
        Run::Quoted => c != '"',
    }
}

/// The keyword spelled by `w`, or `Identifier`.
fn keyword_kind(w: &Vec<char>) -> (r: TokenType)
    ensures
        r == word_kind(w@),
{
    if w.len() == 3 && w[0] == 'a' && w[1] == 'n' && w[2] == 'd' {
        assert(w@ =~= seq!['a', 'n', 'd']);
        TokenType::And
    } else if w.len() == 5 && w[0] == 'c' && w[1] == 'l' && w[2] == 'a' && w[3] == 's' && w[4] == 's' {
        assert(w@ =~= seq!['c', 'l', 'a', 's', 's']);
        TokenType::Class
    } else if w.len() == 4 && w[0] == 'e' && w[1] == 'l' && w[2] == 's' && w[3] == 'e' {
        assert(w@ =~= seq!['e', 'l', 's', 'e']);
        TokenType::Else
    } else if w.len() == 5 && w[0] == 'f' && w[1] == 'a' && w[2] == 'l' && w[3] == 's' && w[4] == 'e' {
        assert(w@ =~= seq!['f', 'a', 'l', 's', 'e']);
        TokenType::False
    } else if w.len() == 3 && w[0] == 'f' && w[1] == 'o' && w[2] == 'r' {
        assert(w@ =~= seq!['f', 'o', 'r']);
        TokenType::For
    } else if w.len() == 3 && w[0] == 'f' && w[1] == 'u' && w[2] == 'n' {
        assert(w@ =~= seq!['f', 'u', 'n']);
        TokenType::Fun
    } else if w.len() == 2 && w[0] == 'i' && w[1] == 'f' {
        assert(w@ =~= seq!['i', 'f']);
        TokenType::If
    } else if w.len() == 3 && w[0] == 'n' && w[1] == 'i' && w[2] == 'l' {
        assert(w@ =~= seq!['n', 'i', 'l']);
        TokenType::Nil
    } else if w.len() == 2 && w[0] == 'o' && w[1] == 'r' {
        assert(w@ =~= seq!['o', 'r']);
        TokenType::Or
    } else if w.len() == 5 && w[0] == 'p' && w[1] == 'r' && w[2] == 'i' && w[3] == 'n' && w[4] == 't' {
        assert(w@ =~= seq!['p', 'r', 'i', 'n', 't']);
        TokenType::Print
    } else if w.len() == 6 && w[0] == 'r' && w[1] == 'e' && w[2] == 't' && w[3] == 'u' && w[4] == 'r' && w[5] == 'n' {
        assert(w@ =~= seq!['r', 'e', 't', 'u', 'r', 'n']);
        TokenType::Return
    } else if w.len() == 5 && w[0] == 's' && w[1] == 'u' && w[2] == 'p' && w[3] == 'e' && w[4] == 'r' {
        assert(w@ =~= seq!['s', 'u', 'p', 'e', 'r']);
        TokenType::Super
    } else if w.len() == 4 && w[0] == 't' && w[1] == 'h' && w[2] == 'i' && w[3] == 's' {
        assert(w@ =~= seq!['t', 'h', 'i', 's']);
        TokenType::This
    } else if w.len() == 4 && w[0] == 't' && w[1] == 'r' && w[2] == 'u' && w[3] == 'e' {
        assert(w@ =~= seq!['t', 'r', 'u', 'e']);
        TokenType::True
    } else if w.len() == 3 && w[0] == 'v' && w[1] == 'a' && w[2] == 'r' {
        assert(w@ =~= seq!['v', 'a', 'r']);
        TokenType::Var
    } else if w.len() == 5 && w[0] == 'w' && w[1] == 'h' && w[2] == 'i' && w[3] == 'l' && w[4] == 'e' {
        assert(w@ =~= seq!['w', 'h', 'i', 'l', 'e']);
        TokenType::While
    } else {
        TokenType::Identifier
    }
}

pub proof fn lemma_scan_all_push(p: Seq<Tok>, t: Tok, rest: Result<Seq<Tok>, LexerError>)
    ensures
        scan_all(p.push(t), rest) == scan_all(p, scan_all(seq![t], rest)),
{
    if let Ok(ts) = rest {
        assert(p.push(t) + ts =~= p + (seq![t] + ts));
    }
}

pub proof fn lemma_newlines_push(s: Seq<char>, c: char)
    ensures
        newlines(s.push(c)) == newlines(s) + if c == '\n' {
            1nat
        } else {
            0nat
        },
{
    assert(s.push(c).drop_last() =~= s);
}

/// The tokens of a scanned text, when scanning succeeds, end with the
/// end-of-input token, which has an empty lexeme and no payload, and no
/// other token is one.
pub open spec fn ends_with_one_eof(ts: Seq<Tok>) -> bool {
    &&& ts.len() > 0
    &&& ts.last().kind == TokenType::EOF
    &&& ts.last().lexeme == Seq::<char>::empty()
    &&& ts.last().literal is None
    &&& forall|i: int| 0 <= i < ts.len() - 1 ==> #[trigger] ts[i].kind != TokenType::EOF
}

proof fn lemma_prepend_keeps_one_eof(t: Tok, rest: Result<Seq<Tok>, LexerError>)
    requires
        t.kind != TokenType::EOF,
        rest matches Ok(ts) ==> ends_with_one_eof(ts),
    ensures
        scan_all(seq![t], rest) matches Ok(ts) ==> ends_with_one_eof(ts),
{
    if let Ok(ts) = rest {
        let all = seq![t] + ts;
        assert forall|i: int| 0 <= i < all.len() - 1 implies #[trigger] all[i].kind != TokenType::EOF by {
            if i > 0 {
                assert(all[i] == ts[i - 1]);
            }
        }
        assert(all.last() == ts.last());
    }
}

/// Scanning from any position, when it succeeds, yields a sequence that
/// ends with the end-of-input token, the only one of its kind.
pub proof fn lemma_scan_from_one_eof(src: Seq<char>, pos: int, line: nat)
    ensures
        scan_from(src, pos, line) matches Ok(ts) ==> ends_with_one_eof(ts),
    decreases src.len() - pos,
{
    if 0 <= pos < src.len() {
        lemma_scan_steps(src, pos);
        let c = src[pos];
        if single_char_kind(c) is Some {
            lemma_scan_from_one_eof(src, pos + 1, line);
            lemma_prepend_keeps_one_eof(
                tok(single_char_kind(c)->0, src.subrange(pos, pos + 1), None, line),
                scan_from(src, pos + 1, line),
            );
        } else if operator_kinds(c) is Some {
            let (short, long) = operator_kinds(c)->0;
            if pos + 1 < src.len() && src[pos + 1] == '=' {
                lemma_scan_from_one_eof(src, pos + 2, line);
                lemma_prepend_keeps_one_eof(
                    tok(long, src.subrange(pos, pos + 2), None, line),
                    scan_from(src, pos + 2, line),
                );
            } else {
                lemma_scan_from_one_eof(src, pos + 1, line);
                lemma_prepend_keeps_one_eof(
                    tok(short, src.subrange(pos, pos + 1), None, line),
                    scan_from(src, pos + 1, line),
                );
            }
        } else if c == '/' {
            if pos + 1 < src.len() && src[pos + 1] == '/' {
                lemma_scan_from_one_eof(src, run_end(src, pos + 2, Run::Comment), line);
            } else {
                lemma_scan_from_one_eof(src, pos + 1, line);
                lemma_prepend_keeps_one_eof(
                    tok(TokenType::Slash, src.subrange(pos, pos + 1), None, line),
                    scan_from(src, pos + 1, line),
                );
            }
        } else if c == ' ' || c == '\r' || c == '\t' {
            lemma_scan_from_one_eof(src, pos + 1, line);
        } else if c == '\n' {
            lemma_scan_from_one_eof(src, pos + 1, line + 1);
        } else if c == '"' {
            let q = run_end(src, pos + 1, Run::Quoted);
            if q < src.len() {
                let body = src.subrange(pos + 1, q);
                lemma_scan_from_one_eof(src, q + 1, line + newlines(body));
                lemma_prepend_keeps_one_eof(
                    tok(TokenType::String, src.subrange(pos, q + 1), Some(body), line),
                    scan_from(src, q + 1, line + newlines(body)),
                );
            }
        } else if is_digit(c) {
            let e = number_end(src, pos);
            let text = src.subrange(pos, e);
            lemma_scan_from_one_eof(src, e, line);
            lemma_prepend_keeps_one_eof(
                tok(TokenType::Number, text, Some(text), line),
                scan_from(src, e, line),
            );
        } else if alphabetic(c) {
            let e = run_end(src, pos + 1, Run::Word);
            let text = src.subrange(pos, e);
            lemma_scan_from_one_eof(src, e, line);
            lemma_prepend_keeps_one_eof(tok(word_kind(text), text, None, line), scan_from(src, e, line));
        }
    }
}

/// Every character of `s` is an ASCII digit, and there is at least one.
pub open spec fn all_digits(s: Seq<char>) -> bool {
    &&& s.len() > 0
    &&& forall|i: int| 0 <= i < s.len() ==> is_digit(#[trigger] s[i])
}

/// `s` is a numeral of the language: a digit run, optionally followed by
/// a `.` and a second digit run.
pub open spec fn is_numeral(s: Seq<char>) -> bool {
    ||| all_digits(s)
    ||| exists|k: int|
        0 < k < s.len() && #[trigger] s[k] == '.' && all_digits(s.subrange(0, k)) && all_digits(
            s.subrange(k + 1, s.len() as int),
        )
}

proof fn lemma_run_end_exact(src: Seq<char>, j: int, e: int, kind: Run)
    requires
        0 <= j <= e <= src.len(),
        forall|k: int| j <= k < e ==> in_run(kind, #[trigger] src[k]),
        e < src.len() ==> !in_run(kind, src[e]),
    ensures
        run_end(src, j, kind) == e,
    decreases e - j,
{
    if j < e {
        lemma_run_end_exact(src, j + 1, e, kind);
    }
}

/// Scanning a numeral yields one number token whose lexeme and payload are
/// the numeral itself, then the end-of-input token.
pub proof fn lemma_numeral_round_trip(s: Seq<char>)
    requires
        is_numeral(s),
    ensures
        scan(s) == Ok::<Seq<Tok>, LexerError>(
            seq![tok(TokenType::Number, s, Some(s), 1), tok(TokenType::EOF, seq![], None, 1)],
        ),
{
    if all_digits(s) {
        lemma_run_end_exact(s, 0, s.len() as int, Run::Digits);
    } else {
        let k = choose|k: int|
            0 < k < s.len() && #[trigger] s[k] == '.' && all_digits(s.subrange(0, k)) && all_digits(
                s.subrange(k + 1, s.len() as int),
            );
        assert forall|i: int| 0 <= i < k implies is_digit(#[trigger] s[i]) by {
            assert(s[i] == s.subrange(0, k)[i]);
        }
        assert forall|i: int| k + 1 <= i < s.len() implies is_digit(#[trigger] s[i]) by {
            assert(s[i] == s.subrange(k + 1, s.len() as int)[i - k - 1]);
        }
        assert(is_digit(s[k + 1])) by {
            assert(s[k + 1] == s.subrange(k + 1, s.len() as int)[0]);
        }
        lemma_run_end_exact(s, 0, k, Run::Digits);
        lemma_run_end_exact(s, k + 1, s.len() as int, Run::Digits);
    }
    assert(is_digit(s[0])) by {
        if !all_digits(s) {
            let k = choose|k: int|
                0 < k < s.len() && #[trigger] s[k] == '.' && all_digits(s.subrange(0, k))
                    && all_digits(s.subrange(k + 1, s.len() as int));
            assert(s[0] == s.subrange(0, k)[0]);
        }
    }
    assert(number_end(s, 0) == s.len());
    assert(s.subrange(0, s.len() as int) =~= s);
    assert(scan_from(s, s.len() as int, 1) == Ok::<Seq<Tok>, LexerError>(
        seq![tok(TokenType::EOF, seq![], None, 1)],
    ));
    assert(seq![tok(TokenType::Number, s, Some(s), 1)] + seq![tok(TokenType::EOF, seq![], None, 1)]
        =~= seq![tok(TokenType::Number, s, Some(s), 1), tok(TokenType::EOF, seq![], None, 1)]);
}

/// A string literal that no quote closes fails the scan with
/// `UnterminatedString`, reported at the line where the literal began.
pub proof fn lemma_unterminated_string(src: Seq<char>, pos: int, line: nat)
    requires
        0 <= pos < src.len(),
        src[pos] == '"',
        forall|k: int| pos < k < src.len() ==> #[trigger] src[k] != '"',
        line <= usize::MAX,
    ensures
        scan_from(src, pos, line) == Err::<Seq<Tok>, LexerError>(
            LexerError::UnterminatedString { line: line as usize },
        ),
{
    lemma_run_end_exact(src, pos + 1, src.len() as int, Run::Quoted);
}

/// Converts source text into tokens, one lexeme at a time.
pub struct Lexer {
    source: Vec<char>,
    tokens: Vec<Token>,
    start: usize,
    current: usize,
    line: usize,
}

impl Lexer {
    /// The characters being scanned.
    pub closed spec fn src(&self) -> Seq<char> {
        self.source@
    }

    /// Where scanning goes on.
    pub closed spec fn pos(&self) -> int {
        self.current as int
    }

    /// The line scanning has reached.
    pub closed spec fn cur_line(&self) -> nat {
        self.line as nat
    }

    /// The tokens produced so far.
    pub closed spec fn produced(&self) -> Seq<Tok> {
        tokens_view(self.tokens@)
    }

    pub closed spec fn wf(&self) -> bool {
        &&& self.current <= self.source@.len() < usize::MAX
        &&& 1 <= self.line <= self.current + 1
    }

    pub fn new(source: &str) -> (r: Self)
        requires
            source@.len() < usize::MAX,
        ensures
            r.wf(),
            r.src() == source@,
            r.pos() == 0,
            r.cur_line() == 1,
            r.produced() == Seq::<Tok>::empty(),
            r.pending() == scan(source@),
    {
        let r = Self { source: chars_of(source), tokens: Vec::new(), start: 0, current: 0, line: 1 };
        assert(r.produced() =~= Seq::<Tok>::empty());
        proof {
            if let Ok(ts) = scan(source@) {
                assert(Seq::<Tok>::empty() + ts =~= ts);
            }
        }
        r
    }

    /// What scanning the rest yields after the tokens produced so far.
    pub open spec fn pending(&self) -> Result<Seq<Tok>, LexerError> {
        scan_all(self.produced(), scan_from(self.src(), self.pos(), self.cur_line()))
    }

    /// Scans the rest of the source; on success the tokens end with the
    /// end-of-input token, which is the only one of its kind.
    pub fn scan_tokens(&mut self) -> (r: Result<Vec<Token>, LexerError>)
        requires
            old(self).wf(),
        ensures
            lex_view(r) == old(self).pending(),
    {
        while !self.is_at_end()
            invariant
                self.wf(),
                self.source@ == old(self).source@,
                self.pending() == old(self).pending(),
            decreases self.source@.len() - self.current,
        {
            self.start = self.current;
            match self.scan_token() {
                Ok(()) => {},
                Err(e) => {
                    return Err(e);
                },
            }
        }
        let line = self.line;
        self.tokens.push(Token::new(TokenType::EOF, String::new(), None, line));
        let mut out: Vec<Token> = Vec::new();
        core::mem::swap(&mut out, &mut self.tokens);
        proof {
            let t = tok(TokenType::EOF, seq![], None, line as nat);
            assert(tokens_view(out@) =~= old(self).pending()->Ok_0.drop_last().push(t)) by {
                assert(tokens_view(out@) =~= tokens_view(out@.drop_last()).push(t));
            }
            assert(old(self).pending()->Ok_0 =~= old(self).pending()->Ok_0.drop_last().push(t));
        }
        Ok(out)
    }

    fn scan_token(&mut self) -> (r: Result<(), LexerError>)
        requires
            old(self).wf(),
            old(self).current < old(self).source@.len(),
            old(self).start == old(self).current,
        ensures
            final(self).wf(),
            final(self).source@ == old(self).source@,
            r is Ok ==> final(self).current > old(self).current,
            r is Ok ==> final(self).pending() == old(self).pending(),
            r matches Err(e) ==> old(self).pending() == Err::<Seq<Tok>, LexerError>(e),
            r is Err ==> final(self).produced() == old(self).produced(),
            r is Ok ==> final(self).produced() == old(self).produced() || (final(self).produced().len()
                == old(self).produced().len() + 1 && final(self).produced().drop_last() == old(
                self,
            ).produced()),
    {
        let ghost src = self.source@;
        let ghost p0 = self.produced();
        let ghost pos = self.current as int;
        let line = self.line;
        let c = self.advance();
        if let Some(kind) = single_kind(c) {
            self.add_token(kind, None, line);
        } else if let Some((short, long)) = operator_kind_pair(c) {
            self.check_match('=', long, short, line);
        } else if c == '/' {
            if self.match_char('/') {
                self.skip_run(Run::Comment);
            } else {
                self.add_token(TokenType::Slash, None, line);
            }
        } else if c == ' ' || c == '\r' || c == '\t' {
        } else if c == '\n' {
            self.line = self.line + 1;
        } else if c == '"' {
            let r = self.string(line);
            proof {
                let q = run_end(src, pos + 1, Run::Quoted);
                lemma_run_end(src, pos + 1, Run::Quoted);
                if q < src.len() {
                    let body = src.subrange(pos + 1, q);
                    assert(scan_from(src, pos, line as nat) == scan_all(
                        seq![tok(TokenType::String, src.subrange(pos, q + 1), Some(body), line as nat)],
                        scan_from(src, q + 1, line as nat + newlines(body)),
                    ));
                }
                if r is Ok {
                    lemma_scan_all_push(
                        p0,
                        self.produced().last(),
                        scan_from(src, self.current as int, self.line as nat),
                    );
                }
            }
            return r;
        } else if is_ascii_digit(c) {
            self.number(line);
        } else if is_alphabetic(c) {
            self.identifier(line);
        } else {
            return Err(LexerError::UnexpectedCharacter { line, character: c });
        }
        proof {
            if self.produced().len() > p0.len() {
                lemma_scan_all_push(
                    p0,
                    self.produced().last(),
                    scan_from(src, self.current as int, self.line as nat),
                );
            }
        }
        Ok(())
    }

    /// Consumes the word that starts at `start` and emits it as a keyword
    /// or an identifier.
    fn identifier(&mut self, line: usize)
        requires
            old(self).wf(),
            old(self).start + 1 == old(self).current,
            old(self).line == line,
            alphabetic(old(self).source@[old(self).start as int]),
        ensures
            final(self).wf(),
            final(self).source@ == old(self).source@,
            final(self).line == line,
            final(self).current == run_end(old(self).source@, old(self).current as int, Run::Word),
            final(self).current >= old(self).current,
            final(self).produced() == old(self).produced().push(
                tok(
                    word_kind(old(self).source@.subrange(old(self).start as int, final(self).current as int)),
                    old(self).source@.subrange(old(self).start as int, final(self).current as int),
                    None,
                    line as nat,
                ),
            ),
    {
        self.skip_run(Run::Word);
        let text = self.source_chars(self.start, self.current);
        let kind = keyword_kind(&text);
        self.add_token(kind, None, line);
    }

    /// Consumes the numeral that starts at `start`.
    fn number(&mut self, line: usize)
        requires
            old(self).wf(),
            old(self).start + 1 == old(self).current,
            old(self).line == line,
            is_digit(old(self).source@[old(self).start as int]),
        ensures
            final(self).wf(),
            final(self).source@ == old(self).source@,
            final(self).line == line,
            final(self).current == number_end(old(self).source@, old(self).start as int),
            final(self).current >= old(self).current,
            final(self).produced() == old(self).produced().push(
                tok(
                    TokenType::Number,
                    old(self).source@.subrange(old(self).start as int, final(self).current as int),
                    Some(old(self).source@.subrange(old(self).start as int, final(self).current as int)),
                    line as nat,
                ),
            ),
    {
        let ghost src = self.source@;
        assert(run_end(src, self.start as int, Run::Digits) == run_end(
            src,
            self.current as int,
            Run::Digits,
        ));
        self.skip_run(Run::Digits);
        let d = self.current;
        if self.peek() == Some('.') && d + 1 < self.source.len() && is_ascii_digit(self.source[d + 1]) {
            self.current = d + 1;
            self.skip_run(Run::Digits);
        }
        let literal = string_of(&self.source, self.start, self.current);
        self.add_token(TokenType::Number, Some(literal), line);
    }

    /// Consumes a string literal whose opening quote is at `start`; its
    /// token records `line`, the line where it began.
    fn string(&mut self, line: usize) -> (r: Result<(), LexerError>)
        requires
            old(self).wf(),
            old(self).start + 1 == old(self).current,
            old(self).line == line,
            old(self).source@[old(self).start as int] == '"',
        ensures
            final(self).wf(),
            final(self).source@ == old(self).source@,
            ({
                let src = old(self).source@;
                let q = run_end(src, old(self).current as int, Run::Quoted);
                let body = src.subrange(old(self).current as int, q);
                if q >= src.len() {
                    &&& r == Err::<(), LexerError>(LexerError::UnterminatedString { line })
                    &&& final(self).tokens@ == old(self).tokens@
                } else {
                    &&& r is Ok
                    &&& final(self).current == q + 1
                    &&& final(self).line == line + newlines(body)
                    &&& final(self).produced() == old(self).produced().push(
                        tok(TokenType::String, src.subrange(old(self).start as int, q + 1), Some(body), line as nat),
                    )
                }
            }),
    {
        let ghost src = self.source@;
        let ghost from = self.current as int;
        while self.current < self.source.len() && self.source[self.current] != '"'
            invariant
                self.wf(),
                self.source@ == src,
                self.start + 1 == from <= self.current,
                self.tokens@ == old(self).tokens@,
                run_end(src, self.current as int, Run::Quoted) == run_end(src, from, Run::Quoted),
                self.line == line + newlines(src.subrange(from, self.current as int)),
            decreases self.source@.len() - self.current,
        {
            proof {
                lemma_newlines_push(src.subrange(from, self.current as int), src[self.current as int]);
                let seen = src.subrange(from, self.current as int);
                assert(src.subrange(from, self.current + 1) =~= seen.push(src[self.current as int]));
            }
            if self.source[self.current] == '\n' {
                self.line = self.line + 1;
            }
            self.current = self.current + 1;
        }
        if self.current >= self.source.len() {
            return Err(LexerError::UnterminatedString { line });
        }
        let literal = string_of(&self.source, self.start + 1, self.current);
        self.current = self.current + 1;
        self.add_token(TokenType::String, Some(literal), line);
        Ok(())
    }

    /// Advances over the maximal run of `kind` characters.
    fn skip_run(&mut self, kind: Run)
        requires
            old(self).wf(),
        ensures
            final(self).wf(),
            final(self).source@ == old(self).source@,
            final(self).tokens@ == old(self).tokens@,
            final(self).start == old(self).start,
            final(self).line == old(self).line,
            old(self).current <= final(self).current,
            final(self).current == run_end(old(self).source@, old(self).current as int, kind),
    {
        while self.current < self.source.len() && continues_run(kind, self.source[self.current])
            invariant
                self.wf(),
                self.source@ == old(self).source@,
                self.tokens@ == old(self).tokens@,
                self.start == old(self).start,
                self.line == old(self).line,
                old(self).current <= self.current,
                run_end(self.source@, self.current as int, kind) == run_end(
                    old(self).source@,
                    old(self).current as int,
                    kind,
                ),
            decreases self.source@.len() - self.current,
        {
            self.current = self.current + 1;
        }
    }

    fn source_chars(&self, from: usize, to: usize) -> (r: Vec<char>)
        requires
            from <= to <= self.source@.len(),
        ensures
            r@ == self.source@.subrange(from as int, to as int),
    {
        let mut r: Vec<char> = Vec::new();
        let mut i = from;
        while i < to
            invariant
                from <= i <= to <= self.source@.len(),
                r@ == self.source@.subrange(from as int, i as int),
            decreases to - i,
        {
            r.push(self.source[i]);
            i = i + 1;
            assert(r@ =~= self.source@.subrange(from as int, i as int));
        }
        r
    }

    fn is_at_end(&self) -> (r: bool)
        ensures
            r == (self.current >= self.source@.len()),
    {
        self.current >= self.source.len()
    }

    fn advance(&mut self) -> (c: char)
        requires
            old(self).wf(),
            old(self).current < old(self).source@.len(),
        ensures
            final(self).wf(),
            c == old(self).source@[old(self).current as int],
            final(self).current == old(self).current + 1,
            final(self).source@ == old(self).source@,
            final(self).tokens@ == old(self).tokens@,
            final(self).start == old(self).start,
            final(self).line == old(self).line,
    {
        let c = self.source[self.current];
        self.current = self.current + 1;
        c
    }

    /// The next character, if any, without consuming it.
    fn peek(&self) -> (r: Option<char>)
        ensures
            r == if self.current < self.source@.len() {
                Some(self.source@[self.current as int])
            } else {
                None::<char>
            },
    {
        if self.current < self.source.len() {
            Some(self.source[self.current])
        } else {
            None
        }
    }

    /// Emits `on_match` when `expected` follows, consuming it, and
    /// `otherwise` when it does not.
    fn check_match(&mut self, expected: char, on_match: TokenType, otherwise: TokenType, line: usize)
        requires
            old(self).wf(),
            old(self).start < old(self).current,
        ensures
            final(self).wf(),
            final(self).source@ == old(self).source@,
            final(self).start == old(self).start,
            final(self).line == old(self).line,
            ({
                let matched = old(self).current < old(self).source@.len() && old(self).source@[old(
                    self,
                ).current as int] == expected;
                &&& final(self).current == old(self).current + if matched {
                    1int
                } else {
                    0int
                }
                &&& final(self).produced() == old(self).produced().push(
                    tok(
                        if matched {
                            on_match
                        } else {
                            otherwise
                        },
                        old(self).source@.subrange(old(self).start as int, final(self).current as int),
                        None,
                        line as nat,
                    ),
                )
            }),
    {
        let kind = if self.match_char(expected) {
            on_match
        } else {
            otherwise
        };
        self.add_token(kind, None, line);
    }

    /// Consumes the next character when it is `expected`.
    fn match_char(&mut self, expected: char) -> (r: bool)
        requires
            old(self).wf(),
        ensures
            final(self).wf(),
            r == (old(self).current < old(self).source@.len() && old(self).source@[old(
                self,
            ).current as int] == expected),
            final(self).current == old(self).current + if r {
                1int
            } else {
                0int
            },
            final(self).source@ == old(self).source@,
            final(self).tokens@ == old(self).tokens@,
            final(self).start == old(self).start,
            final(self).line == old(self).line,
    {
        if self.current < self.source.len() && self.source[self.current] == expected {
            self.current = self.current + 1;
            true
        } else {
            false
        }
    }

    /// Emits the lexeme `source[start..current]` as a token of `kind`.
    fn add_token(&mut self, kind: TokenType, literal: Option<String>, line: usize)
        requires
            old(self).start <= old(self).current <= old(self).source@.len(),
        ensures
            final(self).source@ == old(self).source@,
            final(self).start == old(self).start,
            final(self).current == old(self).current,
            final(self).line == old(self).line,
            final(self).produced() == old(self).produced().push(
                tok(
                    kind,
                    old(self).source@.subrange(old(self).start as int, old(self).current as int),
                    opt_string_view(literal),
                    line as nat,
                ),
            ),
    {
        let text = string_of(&self.source, self.start, self.current);
        let t = Token::new(kind, text, literal, line);
        self.tokens.push(t);
        assert(self.produced() =~= old(self).produced().push(t@));
    }
}

} // verus!
