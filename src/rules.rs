use crate::charclass::{alphabetic, alphanumeric, is_digit};
use crate::scanner::{indent_end, indent_width, lemma_indent_bounds, lemma_skip_end_bounds, position_at, skip_end};
use crate::token::{Position, TokenType, TokenView};
use vstd::prelude::*;

verus! {

/// The ways in which source text can be lexically ill-formed.
pub enum LexFault {
    /// A line is dedented to a width that no enclosing block was opened at.
    Indentation,
    /// The text ends inside a string literal.
    UnterminatedString,
    /// A character that starts no token.
    UnrecognizedCharacter,
}

/// The message carried by a diagnostic for each fault.
pub open spec fn fault_message(f: LexFault) -> Seq<char> {
    match f {
        LexFault::Indentation => "inconsistent indentation"@,
        LexFault::UnterminatedString => "unterminated string"@,
        LexFault::UnrecognizedCharacter => "unrecognized character"@,
    }
}

/// Index just past the run of decimal digits that starts at `i`.
pub open spec fn digits_end(s: Seq<char>, i: int) -> int
    decreases s.len() - i,
{
    if 0 <= i < s.len() && is_digit(s[i]) {
        digits_end(s, i + 1)
    } else {
        i
    }
}

/// Index just past a number literal starting at `i`: an integer part, then a
/// fraction only where the point is directly followed by a digit.
pub open spec fn number_end(s: Seq<char>, i: int) -> int {
    let e = digits_end(s, i);
    if e + 1 < s.len() && s[e] == '.' && is_digit(s[e + 1]) {
        digits_end(s, e + 1)
    } else {
        e
    }
}

pub open spec fn is_ident_char(c: char) -> bool {
    alphanumeric(c) || c == '_'
}

/// Index just past the run of identifier characters that starts at `i`.
pub open spec fn ident_end(s: Seq<char>, i: int) -> int
    decreases s.len() - i,
{
    if 0 <= i < s.len() && is_ident_char(s[i]) {
        ident_end(s, i + 1)
    } else {
        i
    }
}

/// Index of the quote `q` that closes a string literal whose body starts at
/// `i`, or the end of the text; a backslash always takes the next character with it.
pub open spec fn string_end(s: Seq<char>, i: int, q: char) -> int
    decreases s.len() - i,
{
    if i < 0 || i >= s.len() || s[i] == q {
        i
    } else if s[i] == '\\' && i + 1 < s.len() {
        string_end(s, i + 2, q)
    } else {
        string_end(s, i + 1, q)
    }
}

/// The kind of a word: its keyword, or `Identifier`.
pub open spec fn keyword_kind(w: Seq<char>) -> TokenType {
    if w == "let"@ {
        TokenType::Let
    } else if w == "const"@ {
        TokenType::Const
    } else if w == "fn"@ {
        TokenType::Fn
    } else if w == "if"@ {
        TokenType::If
    } else if w == "else"@ {
        TokenType::Else
    } else if w == "for"@ {
        TokenType::For
    } else if w == "while"@ {
        TokenType::While
    } else if w == "return"@ {
        TokenType::Return
    } else if w == "true"@ {
        TokenType::True
    } else if w == "false"@ {
        TokenType::False
    } else if w == "null"@ {
        TokenType::Null
    } else if w == "import"@ {
        TokenType::Import
    } else if w == "export"@ {
        TokenType::Export
    } else if w == "from"@ {
        TokenType::From
    } else if w == "class"@ {
        TokenType::Class
    } else if w == "interface"@ {
        TokenType::Interface
    } else if w == "implements"@ {
        TokenType::Implements
    } else if w == "try"@ {
        TokenType::Try
    } else if w == "catch"@ {
        TokenType::Catch
    } else if w == "finally"@ {
        TokenType::Finally
    } else if w == "throw"@ {
        TokenType::Throw
    } else if w == "break"@ {
        TokenType::Break
    } else if w == "continue"@ {
        TokenType::Continue
    } else if w == "in"@ {
        TokenType::In
    } else if w == "is"@ {
        TokenType::Is
    } else if w == "as"@ {
        TokenType::As
    } else if w == "type"@ {
        TokenType::Type
    } else if w == "enum"@ {
        TokenType::Enum
    } else if w == "constructor"@ {
        TokenType::Constructor
    } else if w == "this"@ {
        TokenType::This
    } else if w == "super"@ {
        TokenType::Super
    } else if w == "match"@ {
        TokenType::Match
    } else if w == "case"@ {
        TokenType::Case
    } else if w == "default"@ {
        TokenType::Default
    } else if w == "new"@ {
        TokenType::New
    } else {
        TokenType::Identifier
    }
}

/// A token of `kind` spanning `s[i..e]`, paired with the index where scanning resumes.
pub open spec fn spanned(s: Seq<char>, i: int, kind: TokenType, e: int) -> Result<
    (TokenView, int),
    (LexFault, Position),
> {
    Ok((TokenView { kind, lexeme: s.subrange(i, e), position: position_at(s, i) }, e))
}

/// An operator that is `one` alone and `two` when directly followed by `=`.
pub open spec fn with_equal(s: Seq<char>, i: int, one: TokenType, two: TokenType) -> Result<
    (TokenView, int),
    (LexFault, Position),
> {
    if i + 1 < s.len() && s[i + 1] == '=' {
        spanned(s, i, two, i + 2)
    } else {
        spanned(s, i, one, i + 1)
    }
}

/// The single token that starts at the significant character `s[i]`, with the
/// index just past it, or the fault found there.
pub open spec fn scan_at(s: Seq<char>, i: int) -> Result<(TokenView, int), (LexFault, Position)> {
    let c = s[i];
    match c {
        '+' => spanned(s, i, TokenType::Plus, i + 1),
        '-' => spanned(s, i, TokenType::Minus, i + 1),
        '*' => spanned(s, i, TokenType::Star, i + 1),
        '/' => spanned(s, i, TokenType::Slash, i + 1),
        '%' => spanned(s, i, TokenType::Percent, i + 1),
        '(' => spanned(s, i, TokenType::LeftParen, i + 1),
        ')' => spanned(s, i, TokenType::RightParen, i + 1),
        '{' => spanned(s, i, TokenType::LeftBrace, i + 1),
        '}' => spanned(s, i, TokenType::RightBrace, i + 1),
        '[' => spanned(s, i, TokenType::LeftBracket, i + 1),
        ']' => spanned(s, i, TokenType::RightBracket, i + 1),
        ',' => spanned(s, i, TokenType::Comma, i + 1),
        '.' => spanned(s, i, TokenType::Dot, i + 1),
        ':' => spanned(s, i, TokenType::Colon, i + 1),
        '=' => with_equal(s, i, TokenType::Equal, TokenType::EqualEqual),
        '!' => with_equal(s, i, TokenType::Bang, TokenType::BangEqual),
        '<' => with_equal(s, i, TokenType::Less, TokenType::LessEqual),
        '>' => with_equal(s, i, TokenType::Greater, TokenType::GreaterEqual),
        _ => if c == '"' || c == '\'' {
            let e = string_end(s, i + 1, c);
            if e >= s.len() {
                Err((LexFault::UnterminatedString, position_at(s, i)))
            } else {
                Ok(
                    (
                        TokenView {
                            kind: TokenType::StringLiteral,
                            lexeme: s.subrange(i + 1, e),
                            position: position_at(s, i),
                        },
                        e + 1,
                    ),
                )
            }
        } else if is_digit(c) {
            spanned(s, i, TokenType::NumberLiteral, number_end(s, i))
        } else if alphabetic(c) || c == '_' {
            let e = ident_end(s, i + 1);
            spanned(s, i, keyword_kind(s.subrange(i, e)), e)
        } else {
            Err((LexFault::UnrecognizedCharacter, position_at(s, i)))
        },
    }
}

/// The tokenizer's state: the cursor, the stack of open indentation widths,
/// the tokens computed but not yet delivered, and whether a line is starting.
pub struct LexState {
    pub pos: int,
    pub stack: Seq<usize>,
    pub pending: Seq<TokenView>,
    pub at_line_start: bool,
}

pub open spec fn initial_state() -> LexState {
    LexState { pos: 0, stack: seq![0usize], pending: Seq::empty(), at_line_start: true }
}

/// A token with no text.
pub open spec fn marker(kind: TokenType, p: Position) -> TokenView {
    TokenView { kind, lexeme: Seq::empty(), position: p }
}

pub open spec fn dedents(n: nat, p: Position) -> Seq<TokenView> {
    Seq::new(n, |_k: int| marker(TokenType::Dedent, p))
}

pub open spec fn spaces(n: nat) -> Seq<char> {
    Seq::new(n, |_k: int| ' ')
}

pub proof fn lemma_dedents_push(n: nat, p: Position)
    ensures
        dedents(n + 1, p) == dedents(n, p).push(marker(TokenType::Dedent, p)),
{
    assert(dedents(n + 1, p) =~= dedents(n, p).push(marker(TokenType::Dedent, p)));
}

/// What is left of an indentation stack once every width above `w` is closed.
pub open spec fn pop_above(stack: Seq<usize>, w: int) -> Seq<usize>
    decreases stack.len(),
{
    if stack.len() > 0 && stack.last() > w {
        pop_above(stack.drop_last(), w)
    } else {
        stack
    }
}

/// The rest of a line, from a state with nothing pending: blanks and comments
/// are passed over, then the end of the text closes every open block before
/// `Eof`, a newline ends the line, and anything else is one scanned token.
pub open spec fn rest_of_line(s: Seq<char>, st: LexState) -> Result<
    (LexState, TokenView),
    (LexFault, Position),
> {
    let p = skip_end(s, st.pos);
    let here = position_at(s, p);
    if p >= s.len() {
        if st.stack.len() > 1 {
            Ok(
                (
                    LexState {
                        pos: p,
                        stack: st.stack.subrange(0, 1),
                        pending: dedents((st.stack.len() - 2) as nat, here).push(
                            marker(TokenType::Eof, here),
                        ),
                        ..st
                    },
                    marker(TokenType::Dedent, here),
                ),
            )
        } else {
            Ok((LexState { pos: p, ..st }, marker(TokenType::Eof, here)))
        }
    } else if s[p] == '\n' {
        Ok((LexState { pos: p + 1, at_line_start: true, ..st }, marker(TokenType::Newline, here)))
    } else {
        match scan_at(s, p) {
            Ok((t, e)) => Ok((LexState { pos: e, ..st }, t)),
            Err(f) => Err(f),
        }
    }
}

/// The start of a line: its indentation is measured against the innermost open
/// block, which opens a block (`Indent`), closes blocks (`Dedent`s, queued after
/// the first) or, when equal, goes on with the rest of the line.
pub open spec fn line_start(s: Seq<char>, st: LexState) -> Result<
    (LexState, TokenView),
    (LexFault, Position),
> {
    let j = indent_end(s, st.pos);
    let w = indent_width(s, st.pos);
    let top = st.stack.last();
    let here = position_at(s, j);
    let st1 = LexState { pos: j, at_line_start: false, ..st };
    if w > top {
        Ok(
            (
                LexState { stack: st.stack.push(w as usize), ..st1 },
                TokenView { kind: TokenType::Indent, lexeme: spaces(w as nat), position: here },
            ),
        )
    } else if w < top {
        let kept = pop_above(st.stack, w);
        if kept.len() == 0 || kept.last() != w {
            Err((LexFault::Indentation, here))
        } else {
            Ok(
                (
                    LexState {
                        stack: kept,
                        pending: dedents((st.stack.len() - kept.len() - 1) as nat, here),
                        ..st1
                    },
                    marker(TokenType::Dedent, here),
                ),
            )
        }
    } else {
        rest_of_line(s, st1)
    }
}

/// One request for a token: the oldest pending token if there is one, else
/// the line-start procedure at a line start, else the rest of the line.
pub open spec fn lex_step(s: Seq<char>, st: LexState) -> Result<
    (LexState, TokenView),
    (LexFault, Position),
> {
    if st.pending.len() > 0 {
        Ok((LexState { pending: st.pending.drop_first(), ..st }, st.pending[0]))
    } else if st.at_line_start {
        line_start(s, st)
    } else {
        rest_of_line(s, st)
    }
}

} // verus!

verus! {

/// Every pending token is a `Dedent`, but for a last `Eof` queued once every block is closed.
pub open spec fn pending_ok(st: LexState) -> bool {
    forall|k: int|
        0 <= k < st.pending.len() ==> (#[trigger] st.pending[k]).kind is Dedent || (
        st.pending[k].kind is Eof && k == st.pending.len() - 1 && st.stack.len() == 1)
}

/// The states that the tokenizer passes through on any text.
pub open spec fn valid_state(s: Seq<char>, st: LexState) -> bool {
    &&& 0 <= st.pos <= s.len()
    &&& st.stack.len() >= 1
    &&& st.stack[0] == 0
    &&& pending_ok(st)
}

pub proof fn lemma_pop_above_keeps_base(stack: Seq<usize>, w: int)
    requires
        stack.len() >= 1,
        stack[0] == 0,
        w >= 0,
    ensures
        pop_above(stack, w).len() >= 1,
        pop_above(stack, w)[0] == 0,
        pop_above(stack, w) == stack.subrange(0, pop_above(stack, w).len() as int),
        pop_above(stack, w).last() <= w,
        pop_above(stack, w).len() < stack.len() <==> stack.last() > w,
    decreases stack.len(),
{
    if stack.len() > 0 && stack.last() > w {
        lemma_pop_above_keeps_base(stack.drop_last(), w);
        let kept = pop_above(stack.drop_last(), w);
        assert(kept =~= stack.subrange(0, kept.len() as int));
    } else {
        assert(stack =~= stack.subrange(0, stack.len() as int));
    }
}

pub proof fn lemma_digits_end_bounds(s: Seq<char>, i: int)
    requires
        0 <= i <= s.len(),
    ensures
        i <= digits_end(s, i) <= s.len(),
    decreases s.len() - i,
{
    if i < s.len() && is_digit(s[i]) {
        lemma_digits_end_bounds(s, i + 1);
    }
}

pub proof fn lemma_ident_end_bounds(s: Seq<char>, i: int)
    requires
        0 <= i <= s.len(),
    ensures
        i <= ident_end(s, i) <= s.len(),
    decreases s.len() - i,
{
    if i < s.len() && is_ident_char(s[i]) {
        lemma_ident_end_bounds(s, i + 1);
    }
}

pub proof fn lemma_string_end_bounds(s: Seq<char>, i: int, q: char)
    requires
        0 <= i <= s.len(),
    ensures
        i <= string_end(s, i, q) <= s.len(),
    decreases s.len() - i,
{
    if i < s.len() && s[i] != q {
        if s[i] == '\\' && i + 1 < s.len() {
            lemma_string_end_bounds(s, i + 2, q);
        } else {
            lemma_string_end_bounds(s, i + 1, q);
        }
    }
}

/// A scanned token is never structural, and scanning moves forward within the text.
pub proof fn lemma_scan_at_bounds(s: Seq<char>, i: int)
    requires
        0 <= i < s.len(),
    ensures
        scan_at(s, i) matches Ok((t, e)) ==> i < e <= s.len() && !t.kind.is_structural(),
{
    lemma_digits_end_bounds(s, i);
    lemma_digits_end_bounds(s, i + 1);
    let d = digits_end(s, i);
    if d + 1 < s.len() {
        lemma_digits_end_bounds(s, d + 1);
    }
    lemma_ident_end_bounds(s, i + 1);
    lemma_string_end_bounds(s, i + 1, s[i]);
}

pub proof fn lemma_rest_of_line_valid(s: Seq<char>, st: LexState)
    requires
        valid_state(s, st),
        st.pending.len() == 0,
    ensures
        rest_of_line(s, st) matches Ok((st2, t)) ==> valid_state(s, st2),
{
    lemma_skip_end_bounds(s, st.pos);
    let p = skip_end(s, st.pos);
    if p < s.len() && s[p] != '\n' {
        lemma_scan_at_bounds(s, p);
    }
}

pub proof fn lemma_line_start_valid(s: Seq<char>, st: LexState)
    requires
        valid_state(s, st),
        st.pending.len() == 0,
    ensures
        line_start(s, st) matches Ok((st2, t)) ==> valid_state(s, st2),
{
    lemma_indent_bounds(s, st.pos);
    lemma_pop_above_keeps_base(st.stack, indent_width(s, st.pos));
    let st1 = LexState { pos: indent_end(s, st.pos), at_line_start: false, ..st };
    lemma_rest_of_line_valid(s, st1);
}

pub proof fn lemma_pending_pop(s: Seq<char>, st: LexState)
    requires
        valid_state(s, st),
        st.pending.len() > 0,
    ensures
        lex_step(s, st) matches Ok((st2, t)) && valid_state(s, st2),
{
    let st2 = LexState { pending: st.pending.drop_first(), ..st };
    assert forall|k: int| 0 <= k < st2.pending.len() implies (#[trigger] st2.pending[k]).kind is Dedent
        || (st2.pending[k].kind is Eof && k == st2.pending.len() - 1 && st2.stack.len() == 1) by {
        assert(st2.pending[k] == st.pending[k + 1]);
    }
}

} // verus!

verus! {

/// A bound on the work left: each delivered token other than `Eof` lowers it.
pub open spec fn measure(s: Seq<char>, st: LexState) -> nat {
    (2 * (s.len() - st.pos) + 2 * st.stack.len() + st.pending.len() + if st.at_line_start {
        1int
    } else {
        0int
    }) as nat
}

pub proof fn lemma_rest_of_line_progress(s: Seq<char>, st: LexState)
    requires
        valid_state(s, st),
        st.pending.len() == 0,
    ensures
        rest_of_line(s, st) matches Ok((st2, t)) ==> valid_state(s, st2) && (t.kind is Eof
            || measure(s, st2) < measure(s, st)),
{
    lemma_rest_of_line_valid(s, st);
    lemma_skip_end_bounds(s, st.pos);
    let p = skip_end(s, st.pos);
    if p < s.len() && s[p] != '\n' {
        lemma_scan_at_bounds(s, p);
    }
}

pub proof fn lemma_step_progress(s: Seq<char>, st: LexState)
    requires
        valid_state(s, st),
    ensures
        lex_step(s, st) matches Ok((st2, t)) ==> valid_state(s, st2) && (t.kind is Eof
            || measure(s, st2) < measure(s, st)),
{
    if st.pending.len() > 0 {
        lemma_pending_pop(s, st);
    } else if st.at_line_start {
        lemma_line_start_valid(s, st);
        lemma_indent_bounds(s, st.pos);
        lemma_pop_above_keeps_base(st.stack, indent_width(s, st.pos));
        let st1 = LexState { pos: indent_end(s, st.pos), at_line_start: false, ..st };
        lemma_rest_of_line_progress(s, st1);
    } else {
        lemma_rest_of_line_progress(s, st);
    }
}

/// The whole token stream from state `st`: every token delivered up to and
/// including the first `Eof`, or the first fault met on the way.
pub open spec fn lex_all(s: Seq<char>, st: LexState) -> Result<
    Seq<TokenView>,
    (LexFault, Position),
>
    decreases measure(s, st),
    when valid_state(s, st)
    via lex_all_decreases
{
    match lex_step(s, st) {
        Err(f) => Err(f),
        Ok((st2, t)) => if t.kind is Eof {
            Ok(seq![t])
        } else {
            match lex_all(s, st2) {
                Ok(rest) => Ok(seq![t] + rest),
                Err(f) => Err(f),
            }
        },
    }
}

#[via_fn]
proof fn lex_all_decreases(s: Seq<char>, st: LexState) {
    lemma_step_progress(s, st);
}

/// `r` with `pre` put in front of its tokens.
pub open spec fn prefixed(pre: Seq<TokenView>, r: Result<Seq<TokenView>, (LexFault, Position)>) -> Result<
    Seq<TokenView>,
    (LexFault, Position),
> {
    match r {
        Ok(ts) => Ok(pre + ts),
        Err(f) => Err(f),
    }
}

} // verus!
