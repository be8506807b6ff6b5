use crate::token::{Position, Token, TokenType, TokenView};
use vstd::prelude::*;

verus! {

/// The character at index `i`, or the end marker `'\0'` past either end.
pub open spec fn char_at(s: Seq<char>, i: int) -> char {
    if 0 <= i < s.len() {
        s[i]
    } else {
        '\0'
    }
}

/// 1-based line of the character at index `i`: one more than the newlines before it.
pub open spec fn line_at(s: Seq<char>, i: int) -> int
    decreases i,
{
    if i <= 0 {
        1
    } else if s[i - 1] == '\n' {
        line_at(s, i - 1) + 1
    } else {
        line_at(s, i - 1)
    }
}

/// 1-based column of the character at index `i`: one more than the characters
/// between it and the last newline before it.
pub open spec fn col_at(s: Seq<char>, i: int) -> int
    decreases i,
{
    if i <= 0 {
        1
    } else if s[i - 1] == '\n' {
        1
    } else {
        col_at(s, i - 1) + 1
    }
}

/// The location of index `i` of `s`.
pub open spec fn position_at(s: Seq<char>, i: int) -> Position {
    Position { line: line_at(s, i) as usize, column: col_at(s, i) as usize }
}

/// Index of the first newline at or after `i`, or the end of the text.
pub open spec fn line_comment_end(s: Seq<char>, i: int) -> int
    decreases s.len() - i,
{
    if i < 0 || i >= s.len() || s[i] == '\n' {
        i
    } else {
        line_comment_end(s, i + 1)
    }
}

/// Where a block comment ends when scanning resumes at `i` with `depth` comments open:
/// `/*` opens one more, `*/` closes one, and the end of the text closes them all.
pub open spec fn block_comment_end(s: Seq<char>, i: int, depth: nat) -> int
    decreases s.len() - i,
{
    if depth == 0 || i < 0 || i >= s.len() {
        i
    } else if s[i] == '/' && i + 1 < s.len() && s[i + 1] == '*' {
        block_comment_end(s, i + 2, depth + 1)
    } else if s[i] == '*' && i + 1 < s.len() && s[i + 1] == '/' {
        block_comment_end(s, i + 2, (depth - 1) as nat)
    } else {
        block_comment_end(s, i + 1, depth)
    }
}

pub open spec fn is_blank(c: char) -> bool {
    c == ' ' || c == '\r' || c == '\t'
}

pub open spec fn starts_line_comment(s: Seq<char>, i: int) -> bool {
    0 <= i && i + 1 < s.len() && s[i] == '/' && s[i + 1] == '/'
}

pub open spec fn starts_block_comment(s: Seq<char>, i: int) -> bool {
    0 <= i && i + 1 < s.len() && s[i] == '/' && s[i + 1] == '*'
}

/// Index of the first significant character at or after `i`: blanks other than
/// newline, line comments and (nested) block comments are passed over.
pub open spec fn skip_end(s: Seq<char>, i: int) -> int
    decreases s.len() - i,
{
    if i < 0 || i >= s.len() {
        i
    } else if is_blank(s[i]) {
        skip_end(s, i + 1)
    } else if starts_line_comment(s, i) {
        proof {
            lemma_line_comment_end_ge(s, i + 1);
        }
        skip_end(s, line_comment_end(s, i + 1))
    } else if starts_block_comment(s, i) {
        proof {
            lemma_block_comment_end_ge(s, i + 2, 1);
        }
        skip_end(s, block_comment_end(s, i + 2, 1))
    } else {
        i
    }
}

/// Index just past the run of spaces and tabs that starts at `i`.
pub open spec fn indent_end(s: Seq<char>, i: int) -> int
    decreases s.len() - i,
{
    if 0 <= i < s.len() && (s[i] == ' ' || s[i] == '\t') {
        indent_end(s, i + 1)
    } else {
        i
    }
}

/// Width of the run of spaces and tabs that starts at `i`: a space counts one, a tab four.
pub open spec fn indent_width(s: Seq<char>, i: int) -> int
    decreases s.len() - i,
{
    if 0 <= i < s.len() && s[i] == ' ' {
        1 + indent_width(s, i + 1)
    } else if 0 <= i < s.len() && s[i] == '\t' {
        4 + indent_width(s, i + 1)
    } else {
        0
    }
}

pub proof fn lemma_line_comment_end_ge(s: Seq<char>, i: int)
    ensures
        line_comment_end(s, i) >= i,
        0 <= i <= s.len() ==> line_comment_end(s, i) <= s.len(),
    decreases s.len() - i,
{
    if !(i < 0 || i >= s.len() || s[i] == '\n') {
        lemma_line_comment_end_ge(s, i + 1);
    }
}

pub proof fn lemma_block_comment_end_ge(s: Seq<char>, i: int, depth: nat)
    ensures
        block_comment_end(s, i, depth) >= i,
        0 <= i <= s.len() ==> block_comment_end(s, i, depth) <= s.len(),
    decreases s.len() - i,
{
    if depth == 0 || i < 0 || i >= s.len() {
    } else if s[i] == '/' && i + 1 < s.len() && s[i + 1] == '*' {
        lemma_block_comment_end_ge(s, i + 2, depth + 1);
    } else if s[i] == '*' && i + 1 < s.len() && s[i + 1] == '/' {
        lemma_block_comment_end_ge(s, i + 2, (depth - 1) as nat);
    } else {
        lemma_block_comment_end_ge(s, i + 1, depth);
    }
}

pub proof fn lemma_skip_end_bounds(s: Seq<char>, i: int)
    requires
        0 <= i <= s.len(),
    ensures
        i <= skip_end(s, i) <= s.len(),
    decreases s.len() - i,
{
    if i >= s.len() {
    } else if is_blank(s[i]) {
        lemma_skip_end_bounds(s, i + 1);
    } else if starts_line_comment(s, i) {
        lemma_line_comment_end_ge(s, i + 1);
        lemma_skip_end_bounds(s, line_comment_end(s, i + 1));
    } else if starts_block_comment(s, i) {
        lemma_block_comment_end_ge(s, i + 2, 1);
        lemma_skip_end_bounds(s, block_comment_end(s, i + 2, 1));
    }
}

pub proof fn lemma_indent_bounds(s: Seq<char>, i: int)
    requires
        0 <= i <= s.len(),
    ensures
        i <= indent_end(s, i) <= s.len(),
        0 <= indent_width(s, i) <= 4 * (indent_end(s, i) - i),
        indent_end(s, i) == i <==> indent_width(s, i) == 0,
    decreases s.len() - i,
{
    if i < s.len() && (s[i] == ' ' || s[i] == '\t') {
        lemma_indent_bounds(s, i + 1);
    }
}

pub proof fn lemma_position_bounds(s: Seq<char>, i: int)
    requires
        0 <= i,
    ensures
        1 <= line_at(s, i) <= i + 1,
        1 <= col_at(s, i) <= i + 1,
    decreases i,
{
    if i > 0 {
        lemma_position_bounds(s, i - 1);
    }
}

/// The scanner's state, mathematically: the text, where the current lexeme
/// starts, and the cursor.
pub struct ScannerView {
    pub text: Seq<char>,
    pub start: int,
    pub current: int,
}

/// A character cursor over source text with 1-based line/column bookkeeping.
pub struct Scanner<'a> {
    source: &'a str,
    chars: Vec<char>,
    start: usize,
    current: usize,
    line: usize,
    column: usize,
    start_line: usize,
    start_column: usize,
}

impl<'a> View for Scanner<'a> {
    type V = ScannerView;

    closed spec fn view(&self) -> ScannerView {
        ScannerView { text: self.chars@, start: self.start as int, current: self.current as int }
    }
}

impl<'a> Scanner<'a> {
    pub closed spec fn wf(&self) -> bool {
        &&& self.chars@ == self.source@
        &&& self.chars@.len() <= usize::MAX / 4
        &&& self.start <= self.current <= self.chars@.len()
        &&& self.line == line_at(self.chars@, self.current as int)
        &&& self.column == col_at(self.chars@, self.current as int)
        &&& self.start_line == line_at(self.chars@, self.start as int)
        &&& self.start_column == col_at(self.chars@, self.start as int)
    }

    /// What well-formedness says of the view.
    pub proof fn lemma_view_bounds(&self)
        requires
            self.wf(),
        ensures
            0 <= self@.start <= self@.current <= self@.text.len() <= usize::MAX / 4,
    {
    }

    pub fn new(source: &'a str) -> (r: Self)
        requires
            source@.len() <= usize::MAX / 4,
        ensures
            r.wf(),
            r@.text == source@,
            r@.start == 0,
            r@.current == 0,
    {
        let mut chars: Vec<char> = Vec::new();
        let n = source.unicode_len();
        let mut i: usize = 0;
        while i < n
            invariant
                n == source@.len(),
                i <= n,
                chars@ == source@.subrange(0, i as int),
            decreases n - i,
        {
            chars.push(source.get_char(i));
            i = i + 1;
        }
        assert(chars@ == source@);
        Self { source, chars, start: 0, current: 0, line: 1, column: 1, start_line: 1, start_column: 1 }
    }

    /// Location of the cursor.
    pub fn position(&self) -> (r: Position)
        requires
            self.wf(),
        ensures
            r == position_at(self@.text, self@.current),
    {
        Position::new(self.line, self.column)
    }

    /// Location of the first character of the current lexeme.
    pub fn lexeme_position(&self) -> (r: Position)
        requires
            self.wf(),
        ensures
            r == position_at(self@.text, self@.start),
    {
        Position::new(self.start_line, self.start_column)
    }

    pub fn is_at_end(&self) -> (r: bool)
        requires
            self.wf(),
        ensures
            r == (self@.current >= self@.text.len()),
    {
        self.current >= self.chars.len()
    }

    /// Whether fewer than `n + 1` characters remain.
    pub fn is_at_end_plus(&self, n: usize) -> (r: bool)
        requires
            self.wf(),
        ensures
            r == (self@.current + n >= self@.text.len()),
    {
        n >= self.chars.len() - self.current
    }

    /// Consumes the current character and returns it, keeping line and column
    /// up to date; at the end of the text returns `'\0'` and changes nothing.
    pub fn advance(&mut self) -> (c: char)
        requires
            old(self).wf(),
        ensures
            final(self).wf(),
            c == char_at(old(self)@.text, old(self)@.current),
            final(self)@.text == old(self)@.text,
            final(self)@.start == old(self)@.start,
            final(self)@.current == if old(self)@.current < old(self)@.text.len() {
                old(self)@.current + 1
            } else {
                old(self)@.current
            },
    {
        if self.current >= self.chars.len() {
            return '\0';
        }
        let c = self.chars[self.current];
        proof {
            lemma_position_bounds(self.chars@, self.current as int);
        }
        self.current = self.current + 1;
        if c == '\n' {
            self.line = self.line + 1;
            self.column = 1;
        } else {
            self.column = self.column + 1;
        }
        c
    }

    /// The current character, or `'\0'` at the end.
    pub fn peek(&self) -> (c: char)
        requires
            self.wf(),
        ensures
            c == char_at(self@.text, self@.current),
    {
        if self.current < self.chars.len() {
            self.chars[self.current]
        } else {
            '\0'
        }
    }

    /// The character after the current one, or `'\0'` past the end.
    pub fn peek_next(&self) -> (c: char)
        requires
            self.wf(),
        ensures
            c == char_at(self@.text, self@.current + 1),
    {
        if self.current < self.chars.len() && 1 < self.chars.len() - self.current {
            self.chars[self.current + 1]
        } else {
            '\0'
        }
    }

    /// The character just consumed, or `'\0'` before the first.
    pub fn previous(&self) -> (c: char)
        requires
            self.wf(),
        ensures
            c == char_at(self@.text, self@.current - 1),
    {
        if self.current > 0 {
            self.chars[self.current - 1]
        } else {
            '\0'
        }
    }

    /// Consumes the current character exactly when it is `expected`.
    pub fn match_char(&mut self, expected: char) -> (r: bool)
        requires
            old(self).wf(),
        ensures
            final(self).wf(),
            r == (old(self)@.current < old(self)@.text.len() && old(self)@.text[old(self)@.current]
                == expected),
            final(self)@.text == old(self)@.text,
            final(self)@.start == old(self)@.start,
            final(self)@.current == if r {
                old(self)@.current + 1
            } else {
                old(self)@.current
            },
    {
        if self.is_at_end() || self.peek() != expected {
            false
        } else {
            self.advance();
            true
        }
    }

    /// The text from the lexeme start to the cursor.
    pub fn current_lexeme(&self) -> (r: &'a str)
        requires
            self.wf(),
        ensures
            r@ == self@.text.subrange(self@.start, self@.current),
    {
        self.source.substring_char(self.start, self.current)
    }

    /// The current lexeme without its first and last characters.
    pub fn lexeme_inner(&self) -> (r: &'a str)
        requires
            self.wf(),
            self@.current - self@.start >= 2,
        ensures
            r@ == self@.text.subrange(self@.start + 1, self@.current - 1),
    {
        self.source.substring_char(self.start + 1, self.current - 1)
    }

    /// Whether the current lexeme is exactly `word`.
    pub fn lexeme_is(&self, word: &str) -> (r: bool)
        requires
            self.wf(),
        ensures
            r == (self@.text.subrange(self@.start, self@.current) == word@),
    {
        let n = word.unicode_len();
        if n != self.current - self.start {
            proof {
                assert(self@.text.subrange(self@.start, self@.current).len() != word@.len());
            }
            return false;
        }
        let mut k: usize = 0;
        while k < n
            invariant
                self.wf(),
                n == word@.len(),
                n == self.current - self.start,
                k <= n,
                forall|j: int| 0 <= j < k ==> self.chars@[self.start + j] == word@[j],
            decreases n - k,
        {
            if self.chars[self.start + k] != word.get_char(k) {
                proof {
                    assert(self@.text.subrange(self@.start, self@.current)[k as int] != word@[k as int]);
                }
                return false;
            }
            k = k + 1;
        }
        assert(self@.text.subrange(self@.start, self@.current) =~= word@);
        true
    }

    /// A token of `token_type` spanning the current lexeme, positioned at its start.
    pub fn make_token(&self, token_type: TokenType) -> (r: Token)
        requires
            self.wf(),
        ensures
            r@ == (TokenView {
                kind: token_type,
                lexeme: self@.text.subrange(self@.start, self@.current),
                position: position_at(self@.text, self@.start),
            }),
    {
        Token::new(token_type, self.current_lexeme(), self.lexeme_position())
    }

    /// Starts the next lexeme at the cursor.
    pub fn mark_lexeme_start(&mut self)
        requires
            old(self).wf(),
        ensures
            final(self).wf(),
            final(self)@ == (ScannerView { start: old(self)@.current, ..old(self)@ }),
    {
        self.start = self.current;
        self.start_line = self.line;
        self.start_column = self.column;
    }

    /// Passes over blanks other than newline, line comments and nested block
    /// comments, then starts the next lexeme at the cursor.
    pub fn skip_whitespace_and_comments(&mut self)
        requires
            old(self).wf(),
        ensures
            final(self).wf(),
            final(self)@.text == old(self)@.text,
            final(self)@.current == skip_end(old(self)@.text, old(self)@.current),
            final(self)@.start == final(self)@.current,
    {
        let ghost s = self@.text;
        let ghost target = skip_end(s, self@.current);
        loop
            invariant
                self.wf(),
                self@.text == s,
                skip_end(s, self@.current) == target,
            ensures
                self.wf(),
                self@.text == s,
                self@.current == target,
            decreases s.len() - self@.current,
        {
            if self.is_at_end() {
                break;
            }
            let c = self.peek();
            if c == ' ' || c == '\r' || c == '\t' {
                self.advance();
            } else if c == '/' && !self.is_at_end_plus(1) && self.peek_next() == '/' {
                let ghost i0 = self@.current;
                self.advance();
                while !self.is_at_end() && self.peek() != '\n'
                    invariant
                        self.wf(),
                        self@.text == s,
                        i0 < self@.current,
                        skip_end(s, line_comment_end(s, self@.current)) == target,
                    decreases s.len() - self@.current,
                {
                    self.advance();
                }
            } else if c == '/' && !self.is_at_end_plus(1) && self.peek_next() == '*' {
                let ghost i0 = self@.current;
                self.advance();
                self.advance();
                let mut nesting: usize = 1;
                while !self.is_at_end() && nesting > 0
                    invariant
                        self.wf(),
                        self@.text == s,
                        i0 < self@.current,
                        nesting <= self@.current,
                        skip_end(s, block_comment_end(s, self@.current, nesting as nat)) == target,
                    decreases s.len() - self@.current,
                {
                    if self.peek() == '/' && !self.is_at_end_plus(1) && self.peek_next() == '*' {
                        self.advance();
                        self.advance();
                        nesting = nesting + 1;
                    } else if self.peek() == '*' && !self.is_at_end_plus(1) && self.peek_next()
                        == '/' {
                        self.advance();
                        self.advance();
                        nesting = nesting - 1;
                    } else {
                        self.advance();
                    }
                }
            } else {
                break;
            }
        }
        self.mark_lexeme_start();
    }

    /// Consumes the spaces and tabs at the cursor and returns their width (a
    /// space counts one, a tab four), then starts the next lexeme at the cursor.
    pub fn calculate_indent(&mut self) -> (r: usize)
        requires
            old(self).wf(),
        ensures
            final(self).wf(),
            final(self)@.text == old(self)@.text,
            final(self)@.current == indent_end(old(self)@.text, old(self)@.current),
            final(self)@.start == final(self)@.current,
            r == indent_width(old(self)@.text, old(self)@.current),
    {
        let ghost s = self@.text;
        let ghost i0 = self@.current;
        let mut indent: usize = 0;
        while !self.is_at_end() && (self.peek() == ' ' || self.peek() == '\t')
            invariant
                self.wf(),
                self@.text == s,
                0 <= i0 <= self@.current,
                indent <= 4 * (self@.current - i0),
                indent + indent_width(s, self@.current) == indent_width(s, i0),
                indent_end(s, self@.current) == indent_end(s, i0),
            decreases s.len() - self@.current,
        {
            assert(4 * (self@.current + 1) <= usize::MAX) by {
                assert(self@.current + 1 <= usize::MAX / 4);
            }
            assert(indent + 4 <= usize::MAX);
            if self.peek() == ' ' {
                indent = indent + 1;
            } else {
                indent = indent + 4;
            }
            self.advance();
        }
        self.mark_lexeme_start();
        indent
    }
}

} // verus!
