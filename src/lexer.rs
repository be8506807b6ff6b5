use crate::charclass::{is_alphabetic, is_alphanumeric, is_decimal_digit, is_digit};
use crate::error::{Error, ErrorKind};
use crate::rules::{
    dedents, digits_end, fault_message, ident_end, initial_state, keyword_kind,
    lemma_dedents_push, lemma_line_start_valid, lemma_pending_pop, lemma_pop_above_keeps_base,
    lemma_rest_of_line_valid, lemma_step_progress, lex_all, lex_step, line_start, marker, measure,
    number_end, pop_above, prefixed, rest_of_line, scan_at, spaces, spanned, string_end,
    valid_state, LexFault, LexState,
};
use crate::scanner::{lemma_indent_bounds, lemma_skip_end_bounds, position_at, Scanner};
use crate::token::{Position, Token, TokenType, TokenView};
use vstd::prelude::*;

verus! {

/// The views of a sequence of tokens.
pub open spec fn views(v: Seq<Token>) -> Seq<TokenView> {
    v.map_values(|t: Token| t@)
}

/// `e` is the diagnostic for fault `fp.0` at position `fp.1`.
pub open spec fn reports(e: Error, fp: (LexFault, Position)) -> bool {
    &&& e.kind == ErrorKind::SyntaxError
    &&& e.message@ == fault_message(fp.0)
    &&& e.position == Some(fp.1)
}

pub proof fn lemma_views_push(v: Seq<Token>, t: Token)
    ensures
        views(v.push(t)) == views(v).push(t@),
{
    assert(views(v.push(t)) =~= views(v).push(t@));
}

/// The diagnostic for a lexical fault.
pub fn syntax_error(fault: LexFault, position: Position) -> (e: Error)
    ensures
        reports(e, (fault, position)),
{
    let message = match fault {
        LexFault::Indentation => String::from_str("inconsistent indentation"),
        LexFault::UnterminatedString => String::from_str("unterminated string"),
        LexFault::UnrecognizedCharacter => String::from_str("unrecognized character"),
    };
    Error::new(ErrorKind::SyntaxError, message, position)
}

/// A string of `n` spaces.
fn spaces_text(n: usize) -> (r: String)
    ensures
        r@ == spaces(n as nat),
{
    let mut r = String::new();
    let mut i: usize = 0;
    while i < n
        invariant
            i <= n,
            r@ == spaces(i as nat),
        decreases n - i,
    {
        proof {
            reveal_strlit(" ");
        }
        r.append(" ");
        i = i + 1;
        assert(r@ =~= spaces(i as nat));
    }
    r
}

/// A token with no text.
fn marker_token(kind: TokenType, position: Position) -> (t: Token)
    ensures
        t@ == marker(kind, position),
{
    proof {
        reveal_strlit("");
        assert(""@ =~= Seq::<char>::empty());
    }
    Token::new(kind, "", position)
}

/// Turns source text into a stream of tokens, with `Indent`, `Dedent`,
/// `Newline` and `Eof` synthesised from the layout.
pub struct Lexer<'a> {
    scanner: Scanner<'a>,
    indent_stack: Vec<usize>,
    tokens_buffer: Vec<Token>,
    at_line_start: bool,
}

impl<'a> Lexer<'a> {
    /// The source text.
    pub closed spec fn text(&self) -> Seq<char> {
        self.scanner@.text
    }

    /// The tokenizer state, mathematically.
    pub closed spec fn state(&self) -> LexState {
        LexState {
            pos: self.scanner@.current,
            stack: self.indent_stack@,
            pending: views(self.tokens_buffer@),
            at_line_start: self.at_line_start,
        }
    }

    pub closed spec fn wf(&self) -> bool {
        &&& self.scanner.wf()
        &&& valid_state(self.text(), self.state())
    }

    pub fn new(source: &'a str) -> (r: Self)
        requires
            source@.len() <= usize::MAX / 4,
        ensures
            r.wf(),
            r.text() == source@,
            r.state() == initial_state(),
    {
        let r = Self {
            scanner: Scanner::new(source),
            indent_stack: vec![0],
            tokens_buffer: Vec::new(),
            at_line_start: true,
        };
        assert(r.state().stack =~= seq![0usize]);
        assert(r.state().pending =~= Seq::<TokenView>::empty());
        r
    }

    /// Every token up to and including `Eof`, or the first diagnostic.
    pub fn tokenize(&mut self) -> (r: Result<Vec<Token>, Error>)
        requires
            old(self).wf(),
        ensures
            final(self).wf(),
            final(self).text() == old(self).text(),
            match lex_all(old(self).text(), old(self).state()) {
                Ok(ts) => r matches Ok(v) && views(v@) == ts,
                Err(fp) => r matches Err(e) && reports(e, fp),
            },
    {
        let ghost s = self.text();
        let ghost st0 = self.state();
        let mut tokens: Vec<Token> = Vec::new();
        assert(prefixed(views(tokens@), lex_all(s, st0)) =~= lex_all(s, st0)) by {
            assert(views(tokens@) =~= Seq::<TokenView>::empty());
            if let Ok(ts) = lex_all(s, st0) {
                assert(Seq::<TokenView>::empty() + ts =~= ts);
            }
        }
        loop
            invariant_except_break
                lex_all(s, st0) == prefixed(views(tokens@), lex_all(s, self.state())),
            invariant
                self.wf(),
                self.text() == s,
                s == old(self).text(),
                st0 == old(self).state(),
            ensures
                self.wf(),
                self.text() == s,
                lex_all(s, st0) == Ok::<Seq<TokenView>, (LexFault, Position)>(views(tokens@)),
            decreases measure(s, self.state()),
        {
            let ghost before = self.state();
            let ghost pre = views(tokens@);
            proof {
                lemma_step_progress(s, before);
            }
            match self.next_token() {
                Ok(token) => {
                    let is_eof = token.token_type == TokenType::Eof;
                    proof {
                        lemma_views_push(tokens@, token);
                        let t = token@;
                        assert(pre + seq![t] =~= pre.push(t));
                        if let Ok(rest) = lex_all(s, self.state()) {
                            assert(pre + (seq![t] + rest) =~= pre.push(t) + rest);
                        }
                    }
                    tokens.push(token);
                    if is_eof {
                        break;
                    }
                },
                Err(e) => {
                    return Err(e);
                },
            }
        }
        Ok(tokens)
    }

    /// The next token: what one step of `lex_step` delivers, or the diagnostic
    /// for the fault it finds.
    pub fn next_token(&mut self) -> (r: Result<Token, Error>)
        requires
            old(self).wf(),
        ensures
            final(self).wf(),
            final(self).text() == old(self).text(),
            match lex_step(old(self).text(), old(self).state()) {
                Ok((st, t)) => r matches Ok(tok) && tok@ == t && final(self).state() == st,
                Err(fp) => r matches Err(e) && reports(e, fp),
            },
    {
        if self.tokens_buffer.len() > 0 {
            let t = self.tokens_buffer.remove(0);
            proof {
                let old_pending = views(old(self).tokens_buffer@);
                assert(views(self.tokens_buffer@) =~= old_pending.drop_first());
                lemma_pending_pop(old(self).text(), old(self).state());
            }
            return Ok(t);
        }
        if self.at_line_start {
            return self.handle_indentation();
        }
        self.rest_of_line()
    }

    /// The line-start procedure.
    fn handle_indentation(&mut self) -> (r: Result<Token, Error>)
        requires
            old(self).wf(),
            old(self).state().pending.len() == 0,
            old(self).state().at_line_start,
        ensures
            final(self).wf(),
            final(self).text() == old(self).text(),
            match line_start(old(self).text(), old(self).state()) {
                Ok((st, t)) => r matches Ok(tok) && tok@ == t && final(self).state() == st,
                Err(fp) => r matches Err(e) && reports(e, fp),
            },
    {
        let ghost s = self.text();
        let ghost st0 = self.state();
        self.at_line_start = false;
        let w = self.scanner.calculate_indent();
        let here = self.scanner.position();
        let top = self.indent_stack[self.indent_stack.len() - 1];
        proof {
            lemma_indent_bounds(s, st0.pos);
        }
        if w > top {
            self.indent_stack.push(w);
            let lexeme = spaces_text(w);
            let t = Token::new(TokenType::Indent, lexeme.as_str(), here);
            proof {
                lemma_line_start_valid(s, st0);
            }
            return Ok(t);
        } else if w < top {
            let ghost full = self.indent_stack@;
            let ghost sc = self.scanner@;
            proof {
                lemma_pop_above_keeps_base(full, w as int);
            }
            let mut popped: usize = 0;
            while self.indent_stack.len() > 0 && self.indent_stack[self.indent_stack.len() - 1] > w
                invariant
                    self.scanner.wf(),
                    self.scanner@ == sc,
                    self.tokens_buffer@.len() == 0,
                    !self.at_line_start,
                    pop_above(self.indent_stack@, w as int) == pop_above(full, w as int),
                    popped + self.indent_stack@.len() == full.len(),
                    full.len() <= usize::MAX,
                    self.indent_stack@ == full.subrange(0, self.indent_stack@.len() as int),
                decreases self.indent_stack.len(),
            {
                self.indent_stack.pop();
                popped = popped + 1;
            }
            assert(pop_above(full, w as int) == self.indent_stack@);
            if self.indent_stack.len() == 0 || self.indent_stack[self.indent_stack.len() - 1] != w {
                return Err(syntax_error(LexFault::Indentation, here));
            }
            let mut i: usize = 1;
            while i < popped
                invariant
                    self.scanner.wf(),
                    self.scanner@ == sc,
                    self.indent_stack@ == pop_above(full, w as int),
                    !self.at_line_start,
                    1 <= i <= popped,
                    views(self.tokens_buffer@) == dedents((i - 1) as nat, here),
                decreases popped - i,
            {
                let d = marker_token(TokenType::Dedent, here);
                proof {
                    lemma_views_push(self.tokens_buffer@, d);
                    lemma_dedents_push((i - 1) as nat, here);
                }
                self.tokens_buffer.push(d);
                i = i + 1;
            }
            proof {
                lemma_line_start_valid(s, st0);
            }
            return Ok(marker_token(TokenType::Dedent, here));
        }
        proof {
            lemma_line_start_valid(s, st0);
        }
        self.rest_of_line()
    }

    /// Passes over blanks and comments, then ends the text, ends the line or
    /// scans one token.
    fn rest_of_line(&mut self) -> (r: Result<Token, Error>)
        requires
            old(self).wf(),
            old(self).state().pending.len() == 0,
            !old(self).state().at_line_start,
        ensures
            final(self).wf(),
            final(self).text() == old(self).text(),
            match rest_of_line(old(self).text(), old(self).state()) {
                Ok((st, t)) => r matches Ok(tok) && tok@ == t && final(self).state() == st,
                Err(fp) => r matches Err(e) && reports(e, fp),
            },
    {
        let ghost s = self.text();
        let ghost st0 = self.state();
        proof {
            lemma_skip_end_bounds(s, st0.pos);
            lemma_rest_of_line_valid(s, st0);
        }
        self.scanner.skip_whitespace_and_comments();
        let here = self.scanner.position();
        if self.scanner.is_at_end() {
            if self.indent_stack.len() > 1 {
                let open = self.indent_stack.len() - 1;
                self.indent_stack.truncate(1);
                let ghost sc = self.scanner@;
                let ghost kept = self.indent_stack@;
                let mut i: usize = 1;
                while i < open
                    invariant
                        self.scanner.wf(),
                        self.scanner@ == sc,
                        self.indent_stack@ == kept,
                        !self.at_line_start,
                        1 <= i <= open,
                        views(self.tokens_buffer@) == dedents((i - 1) as nat, here),
                    decreases open - i,
                {
                    let d = marker_token(TokenType::Dedent, here);
                    proof {
                        lemma_views_push(self.tokens_buffer@, d);
                        lemma_dedents_push((i - 1) as nat, here);
                    }
                    self.tokens_buffer.push(d);
                    i = i + 1;
                }
                let eof = marker_token(TokenType::Eof, here);
                proof {
                    lemma_views_push(self.tokens_buffer@, eof);
                }
                self.tokens_buffer.push(eof);
                assert(views(self.tokens_buffer@) =~= dedents((open - 1) as nat, here).push(
                    marker(TokenType::Eof, here),
                ));
                return Ok(marker_token(TokenType::Dedent, here));
            }
            return Ok(marker_token(TokenType::Eof, here));
        }
        if self.scanner.peek() == '\n' {
            self.scanner.advance();
            self.at_line_start = true;
            return Ok(marker_token(TokenType::Newline, here));
        }
        let r = self.scan_token();
        proof {
            self.scanner.lemma_view_bounds();
        }
        r
    }

    /// Scans the one token that starts at the cursor.
    fn scan_token(&mut self) -> (r: Result<Token, Error>)
        requires
            old(self).wf(),
            old(self).scanner@.start == old(self).scanner@.current,
            old(self).scanner@.current < old(self).text().len(),
            old(self).state().pending.len() == 0,
        ensures
            final(self).scanner.wf(),
            final(self).text() == old(self).text(),
            final(self).indent_stack@ == old(self).indent_stack@,
            final(self).tokens_buffer@ == old(self).tokens_buffer@,
            final(self).at_line_start == old(self).at_line_start,
            match scan_at(old(self).text(), old(self).scanner@.current) {
                Ok((t, e)) => r matches Ok(tok) && tok@ == t && final(self).scanner@.current == e,
                Err(fp) => r matches Err(e) && reports(e, fp),
            },
    {
        let c = self.scanner.advance();
        match c {
            '+' => Ok(self.scanner.make_token(TokenType::Plus)),
            '-' => Ok(self.scanner.make_token(TokenType::Minus)),
            '*' => Ok(self.scanner.make_token(TokenType::Star)),
            '/' => Ok(self.scanner.make_token(TokenType::Slash)),
            '%' => Ok(self.scanner.make_token(TokenType::Percent)),
            '(' => Ok(self.scanner.make_token(TokenType::LeftParen)),
            ')' => Ok(self.scanner.make_token(TokenType::RightParen)),
            '{' => Ok(self.scanner.make_token(TokenType::LeftBrace)),
            '}' => Ok(self.scanner.make_token(TokenType::RightBrace)),
            '[' => Ok(self.scanner.make_token(TokenType::LeftBracket)),
            ']' => Ok(self.scanner.make_token(TokenType::RightBracket)),
            ',' => Ok(self.scanner.make_token(TokenType::Comma)),
            '.' => Ok(self.scanner.make_token(TokenType::Dot)),
            ':' => Ok(self.scanner.make_token(TokenType::Colon)),
            '=' => if self.scanner.match_char('=') {
                Ok(self.scanner.make_token(TokenType::EqualEqual))
            } else {
                Ok(self.scanner.make_token(TokenType::Equal))
            },
            '!' => if self.scanner.match_char('=') {
                Ok(self.scanner.make_token(TokenType::BangEqual))
            } else {
                Ok(self.scanner.make_token(TokenType::Bang))
            },
            '<' => if self.scanner.match_char('=') {
                Ok(self.scanner.make_token(TokenType::LessEqual))
            } else {
                Ok(self.scanner.make_token(TokenType::Less))
            },
            '>' => if self.scanner.match_char('=') {
                Ok(self.scanner.make_token(TokenType::GreaterEqual))
            } else {
                Ok(self.scanner.make_token(TokenType::Greater))
            },
            _ => if c == '"' || c == '\'' {
                self.string()
            } else if is_decimal_digit(c) {
                self.number()
            } else if is_alphabetic(c) || c == '_' {
                self.identifier_or_keyword()
            } else {
                Err(syntax_error(LexFault::UnrecognizedCharacter, self.scanner.lexeme_position()))
            },
        }
    }

    /// Scans a string literal whose opening quote was just consumed.
    fn string(&mut self) -> (r: Result<Token, Error>)
        requires
            old(self).scanner.wf(),
            old(self).scanner@.start + 1 == old(self).scanner@.current,
            old(self).scanner@.current <= old(self).text().len(),
            old(self).text()[old(self).scanner@.start] == '"' || old(self).text()[old(
                self,
            ).scanner@.start] == '\'',
        ensures
            final(self).scanner.wf(),
            final(self).text() == old(self).text(),
            final(self).indent_stack@ == old(self).indent_stack@,
            final(self).tokens_buffer@ == old(self).tokens_buffer@,
            final(self).at_line_start == old(self).at_line_start,
            ({
                let s = old(self).text();
                let i = old(self).scanner@.start;
                let e = string_end(s, i + 1, s[i]);
                if e >= s.len() {
                    r matches Err(err) && reports(err, (LexFault::UnterminatedString, position_at(s, i)))
                } else {
                    r matches Ok(tok) && tok@ == (TokenView {
                        kind: TokenType::StringLiteral,
                        lexeme: s.subrange(i + 1, e),
                        position: position_at(s, i),
                    }) && final(self).scanner@.current == e + 1
                }
            }),
    {
        proof {
            self.scanner.lemma_view_bounds();
        }
        let ghost s = self.text();
        let ghost i = self.scanner@.start;
        let quote = self.scanner.previous();
        let start_pos = self.scanner.lexeme_position();
        while !self.scanner.is_at_end() && self.scanner.peek() != quote
            invariant
                self.scanner.wf(),
                self.text() == s,
                0 <= i,
                self.scanner@.start == i,
                self.indent_stack@ == old(self).indent_stack@,
                self.tokens_buffer@ == old(self).tokens_buffer@,
                self.at_line_start == old(self).at_line_start,
                quote == s[i],
                quote == '"' || quote == '\'',
                i + 1 <= self.scanner@.current <= s.len(),
                string_end(s, self.scanner@.current, quote) == string_end(s, i + 1, quote),
            decreases s.len() - self.scanner@.current,
        {
            if self.scanner.peek() == '\\' {
                self.scanner.advance();
                self.scanner.advance();
            } else {
                self.scanner.advance();
            }
        }
        if self.scanner.is_at_end() {
            return Err(syntax_error(LexFault::UnterminatedString, start_pos));
        }
        self.scanner.advance();
        let content = self.scanner.lexeme_inner();
        Ok(Token::new(TokenType::StringLiteral, content, start_pos))
    }

    /// The kind of the current lexeme: its keyword, or `Identifier`.
    fn keyword_or_identifier_kind(&self) -> (k: TokenType)
        requires
            self.scanner.wf(),
        ensures
            k == keyword_kind(self.text().subrange(self.scanner@.start, self.scanner@.current)),
    {
        let sc = &self.scanner;
        if sc.lexeme_is("let") {
            TokenType::Let
        } else if sc.lexeme_is("const") {
            TokenType::Const
        } else if sc.lexeme_is("fn") {
            TokenType::Fn
        } else if sc.lexeme_is("if") {
            TokenType::If
        } else if sc.lexeme_is("else") {
            TokenType::Else
        } else if sc.lexeme_is("for") {
            TokenType::For
        } else if sc.lexeme_is("while") {
            TokenType::While
        } else if sc.lexeme_is("return") {
            TokenType::Return
        } else if sc.lexeme_is("true") {
            TokenType::True
        } else if sc.lexeme_is("false") {
            TokenType::False
        } else if sc.lexeme_is("null") {
            TokenType::Null
        } else if sc.lexeme_is("import") {
            TokenType::Import
        } else if sc.lexeme_is("export") {
            TokenType::Export
        } else if sc.lexeme_is("from") {
            TokenType::From
        } else if sc.lexeme_is("class") {
            TokenType::Class
        } else if sc.lexeme_is("interface") {
            TokenType::Interface
        } else if sc.lexeme_is("implements") {
            TokenType::Implements
        } else if sc.lexeme_is("try") {
            TokenType::Try
        } else if sc.lexeme_is("catch") {
            TokenType::Catch
        } else if sc.lexeme_is("finally") {
            TokenType::Finally
        } else if sc.lexeme_is("throw") {
            TokenType::Throw
        } else if sc.lexeme_is("break") {
            TokenType::Break
        } else if sc.lexeme_is("continue") {
            TokenType::Continue
        } else if sc.lexeme_is("in") {
            TokenType::In
        } else if sc.lexeme_is("is") {
            TokenType::Is
        } else if sc.lexeme_is("as") {
            TokenType::As
        } else if sc.lexeme_is("type") {
            TokenType::Type
        } else if sc.lexeme_is("enum") {
            TokenType::Enum
        } else if sc.lexeme_is("constructor") {
            TokenType::Constructor
        } else if sc.lexeme_is("this") {
            TokenType::This
        } else if sc.lexeme_is("super") {
            TokenType::Super
        } else if sc.lexeme_is("match") {
            TokenType::Match
        } else if sc.lexeme_is("case") {
            TokenType::Case
        } else if sc.lexeme_is("default") {
            TokenType::Default
        } else if sc.lexeme_is("new") {
            TokenType::New
        } else {
            TokenType::Identifier
        }
    }

    /// Scans an identifier or keyword whose first character was just consumed.
    fn identifier_or_keyword(&mut self) -> (r: Result<Token, Error>)
        requires
            old(self).scanner.wf(),
            old(self).scanner@.start + 1 == old(self).scanner@.current,
            old(self).scanner@.current <= old(self).text().len(),
        ensures
            final(self).scanner.wf(),
            final(self).text() == old(self).text(),
            final(self).indent_stack@ == old(self).indent_stack@,
            final(self).tokens_buffer@ == old(self).tokens_buffer@,
            final(self).at_line_start == old(self).at_line_start,
            ({
                let s = old(self).text();
                let i = old(self).scanner@.start;
                let e = ident_end(s, i + 1);
                r matches Ok(tok) && spanned(s, i, keyword_kind(s.subrange(i, e)), e) == Ok::<
                    (TokenView, int),
                    (LexFault, Position),
                >((tok@, final(self).scanner@.current))
            }),
    {
        proof {
            self.scanner.lemma_view_bounds();
        }
        let ghost s = self.text();
        let ghost i = self.scanner@.start;
        while !self.scanner.is_at_end() && (is_alphanumeric(self.scanner.peek())
            || self.scanner.peek() == '_')
            invariant
                self.scanner.wf(),
                self.text() == s,
                0 <= i,
                self.scanner@.start == i,
                self.indent_stack@ == old(self).indent_stack@,
                self.tokens_buffer@ == old(self).tokens_buffer@,
                self.at_line_start == old(self).at_line_start,
                i + 1 <= self.scanner@.current <= s.len(),
                ident_end(s, self.scanner@.current) == ident_end(s, i + 1),
            decreases s.len() - self.scanner@.current,
        {
            self.scanner.advance();
        }
        let kind = self.keyword_or_identifier_kind();
        Ok(self.scanner.make_token(kind))
    }

    /// Scans a number literal whose first digit was just consumed.
    fn number(&mut self) -> (r: Result<Token, Error>)
        requires
            old(self).scanner.wf(),
            old(self).scanner@.start + 1 == old(self).scanner@.current,
            old(self).scanner@.current <= old(self).text().len(),
            is_digit(old(self).text()[old(self).scanner@.start]),
        ensures
            final(self).scanner.wf(),
            final(self).text() == old(self).text(),
            final(self).indent_stack@ == old(self).indent_stack@,
            final(self).tokens_buffer@ == old(self).tokens_buffer@,
            final(self).at_line_start == old(self).at_line_start,
            ({
                let s = old(self).text();
                let i = old(self).scanner@.start;
                r matches Ok(tok) && spanned(s, i, TokenType::NumberLiteral, number_end(s, i)) == Ok::<
                    (TokenView, int),
                    (LexFault, Position),
                >((tok@, final(self).scanner@.current))
            }),
    {
        proof {
            self.scanner.lemma_view_bounds();
        }
        let ghost s = self.text();
        let ghost i = self.scanner@.start;
        while !self.scanner.is_at_end() && is_decimal_digit(self.scanner.peek())
            invariant
                self.scanner.wf(),
                self.text() == s,
                0 <= i,
                self.scanner@.start == i,
                self.indent_stack@ == old(self).indent_stack@,
                self.tokens_buffer@ == old(self).tokens_buffer@,
                self.at_line_start == old(self).at_line_start,
                i + 1 <= self.scanner@.current <= s.len(),
                digits_end(s, self.scanner@.current) == digits_end(s, i),
            decreases s.len() - self.scanner@.current,
        {
            self.scanner.advance();
        }
        if !self.scanner.is_at_end() && self.scanner.peek() == '.' && !self.scanner.is_at_end_plus(1)
            && is_decimal_digit(self.scanner.peek_next()) {
            self.scanner.advance();
            while !self.scanner.is_at_end() && is_decimal_digit(self.scanner.peek())
                invariant
                    self.scanner.wf(),
                    self.text() == s,
                    0 <= i,
                    self.scanner@.start == i,
                    self.indent_stack@ == old(self).indent_stack@,
                    self.tokens_buffer@ == old(self).tokens_buffer@,
                    self.at_line_start == old(self).at_line_start,
                    i + 1 <= self.scanner@.current <= s.len(),
                    digits_end(s, self.scanner@.current) == digits_end(s, digits_end(s, i) + 1),
                decreases s.len() - self.scanner@.current,
            {
                self.scanner.advance();
            }
        }
        Ok(self.scanner.make_token(TokenType::NumberLiteral))
    }
}

} // verus!
