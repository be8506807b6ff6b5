use crate::charclass::is_digit;
use crate::rules::{
    digits_end, ident_end, initial_state, is_ident_char, lemma_digits_end_bounds,
    lemma_ident_end_bounds, lemma_pop_above_keeps_base, lemma_scan_at_bounds, lemma_step_progress,
    lex_all, lex_step, measure, number_end, pop_above, rest_of_line, scan_at, spanned, valid_state,
    LexFault, LexState,
};
use crate::scanner::{
    indent_width, is_blank, lemma_block_comment_end_ge, lemma_line_comment_end_ge, line_comment_end,
    block_comment_end, skip_end, starts_block_comment, starts_line_comment,
};
use crate::token::{Position, TokenType, TokenView};
use vstd::prelude::*;

verus! {

/// How many tokens of `ts` are of kind `k`.
pub open spec fn count_kind(ts: Seq<TokenView>, k: TokenType) -> nat
    decreases ts.len(),
{
    if ts.len() == 0 {
        0
    } else {
        count_kind(ts.drop_last(), k) + if ts.last().kind == k {
            1nat
        } else {
            0nat
        }
    }
}

proof fn lemma_count_append(a: Seq<TokenView>, b: Seq<TokenView>, k: TokenType)
    ensures
        count_kind(a + b, k) == count_kind(a, k) + count_kind(b, k),
    decreases b.len(),
{
    if b.len() == 0 {
        assert(a + b =~= a);
    } else {
        lemma_count_append(a, b.drop_last(), k);
        assert((a + b).drop_last() =~= a + b.drop_last());
    }
}

proof fn lemma_count_dedents(n: nat, p: crate::token::Position, k: TokenType)
    ensures
        count_kind(crate::rules::dedents(n, p), k) == if k == TokenType::Dedent {
            n
        } else {
            0
        },
    decreases n,
{
    if n > 0 {
        lemma_count_dedents((n - 1) as nat, p, k);
        assert(crate::rules::dedents(n, p).drop_last() =~= crate::rules::dedents((n - 1) as nat, p));
    }
}

proof fn lemma_count_single(t: TokenView, k: TokenType)
    ensures
        count_kind(seq![t], k) == if t.kind == k {
            1nat
        } else {
            0nat
        },
{
    assert(seq![t].drop_last() =~= Seq::<TokenView>::empty());
    assert(count_kind(Seq::<TokenView>::empty(), k) == 0);
}

proof fn lemma_count_drop_first(ts: Seq<TokenView>, k: TokenType)
    requires
        ts.len() > 0,
    ensures
        count_kind(ts, k) == count_kind(ts.drop_first(), k) + if ts[0].kind == k {
            1nat
        } else {
            0nat
        },
{
    assert(ts =~= seq![ts[0]] + ts.drop_first());
    lemma_count_append(seq![ts[0]], ts.drop_first(), k);
    lemma_count_single(ts[0], k);
}

/// The dedents still owed from a state: one per open block above the base and
/// one per queued `Dedent`.
pub open spec fn owed_dedents(st: LexState) -> int {
    st.stack.len() - 1 + count_kind(st.pending, TokenType::Dedent)
}

proof fn lemma_balance_from(s: Seq<char>, st: LexState)
    requires
        valid_state(s, st),
    ensures
        lex_all(s, st) matches Ok(ts) ==> count_kind(ts, TokenType::Dedent) == count_kind(
            ts,
            TokenType::Indent,
        ) + owed_dedents(st),
    decreases measure(s, st),
{
    lemma_step_progress(s, st);
    if let Ok((st2, t)) = lex_step(s, st) {
        lemma_count_single(t, TokenType::Dedent);
        lemma_count_single(t, TokenType::Indent);
        assert(count_kind(Seq::<TokenView>::empty(), TokenType::Dedent) == 0);
        if st.pending.len() > 0 {
            lemma_count_drop_first(st.pending, TokenType::Dedent);
            assert(st2.pending == st.pending.drop_first());
            if t.kind is Eof {
                assert(st.pending.len() == 1);
                assert(st.pending.drop_first() =~= Seq::<TokenView>::empty());
            } else {
                assert(t.kind is Dedent);
            }
        } else {
            lemma_owed_step(s, st);
        }
        if !(t.kind is Eof) {
            lemma_balance_from(s, st2);
            if let Ok(rest) = lex_all(s, st2) {
                lemma_count_append(seq![t], rest, TokenType::Dedent);
                lemma_count_append(seq![t], rest, TokenType::Indent);
            }
        }
    }
}

proof fn lemma_owed_rest_of_line(s: Seq<char>, st: LexState)
    requires
        valid_state(s, st),
        st.pending.len() == 0,
    ensures
        rest_of_line(s, st) matches Ok((st2, t)) ==> (t.kind is Eof ==> st.stack.len() == 1) && !(
        t.kind is Indent) && (t.kind is Dedent ==> owed_dedents(st2) == owed_dedents(st) - 1) && (!(
        t.kind is Dedent) ==> owed_dedents(st2) == owed_dedents(st)),
{
    crate::scanner::lemma_skip_end_bounds(s, st.pos);
    let p = skip_end(s, st.pos);
    assert(count_kind(Seq::<TokenView>::empty(), TokenType::Dedent) == 0);
    if p >= s.len() {
        if st.stack.len() > 1 {
            let here = crate::scanner::position_at(s, p);
            let d = crate::rules::dedents((st.stack.len() - 2) as nat, here);
            let eof = crate::rules::marker(TokenType::Eof, here);
            lemma_count_dedents((st.stack.len() - 2) as nat, here, TokenType::Dedent);
            lemma_count_append(d, seq![eof], TokenType::Dedent);
            lemma_count_single(eof, TokenType::Dedent);
            assert(d.push(eof) == d + seq![eof]);
        }
    } else if s[p] != '\n' {
        lemma_scan_at_bounds(s, p);
    }
}

proof fn lemma_owed_step(s: Seq<char>, st: LexState)
    requires
        valid_state(s, st),
        st.pending.len() == 0,
    ensures
        lex_step(s, st) matches Ok((st2, t)) ==> (t.kind is Eof ==> st.stack.len() == 1) && (
        t.kind is Indent ==> owed_dedents(st2) == owed_dedents(st) + 1) && (t.kind is Dedent
            ==> owed_dedents(st2) == owed_dedents(st) - 1) && (!(t.kind is Indent) && !(
        t.kind is Dedent) ==> owed_dedents(st2) == owed_dedents(st)),
{
    assert(count_kind(Seq::<TokenView>::empty(), TokenType::Dedent) == 0);
    if st.at_line_start {
        let j = crate::scanner::indent_end(s, st.pos);
        let w = indent_width(s, st.pos);
        let here = crate::scanner::position_at(s, j);
        crate::scanner::lemma_indent_bounds(s, st.pos);
        lemma_pop_above_keeps_base(st.stack, w);
        let kept = pop_above(st.stack, w);
        if w < st.stack.last() {
            lemma_count_dedents((st.stack.len() - kept.len() - 1) as nat, here, TokenType::Dedent);
        }
        let st1 = LexState { pos: j, at_line_start: false, ..st };
        lemma_owed_rest_of_line(s, st1);
    } else {
        lemma_owed_rest_of_line(s, st);
    }
}

/// Over the whole stream from a fresh tokenizer, as many `Dedent` tokens are
/// delivered as `Indent` tokens: every block opened is closed by `Eof`.
pub proof fn indents_and_dedents_balance(s: Seq<char>)
    ensures
        lex_all(s, initial_state()) matches Ok(ts) ==> count_kind(ts, TokenType::Dedent)
            == count_kind(ts, TokenType::Indent),
{
    lemma_balance_from(s, initial_state());
    assert(count_kind(Seq::<TokenView>::empty(), TokenType::Dedent) == 0);
}

proof fn lemma_eof_last_from(s: Seq<char>, st: LexState)
    requires
        valid_state(s, st),
    ensures
        lex_all(s, st) matches Ok(ts) ==> ts.len() >= 1 && ts.last().kind is Eof && forall|k: int|
            0 <= k < ts.len() - 1 ==> !(#[trigger] ts[k].kind is Eof),
    decreases measure(s, st),
{
    lemma_step_progress(s, st);
    if let Ok((st2, t)) = lex_step(s, st) {
        if !(t.kind is Eof) {
            lemma_eof_last_from(s, st2);
            if let Ok(rest) = lex_all(s, st2) {
                let ts = seq![t] + rest;
                assert forall|k: int| 0 <= k < ts.len() - 1 implies !(#[trigger] ts[k].kind is Eof) by {
                    if k > 0 {
                        assert(ts[k] == rest[k - 1]);
                    }
                }
                assert(ts.last() == rest.last());
            }
        }
    }
}

/// A successful token stream ends with `Eof`, and holds no other `Eof`.
pub proof fn eof_ends_stream(s: Seq<char>)
    ensures
        lex_all(s, initial_state()) matches Ok(ts) ==> ts.len() >= 1 && ts.last().kind is Eof
            && forall|k: int| 0 <= k < ts.len() - 1 ==> !(#[trigger] ts[k].kind is Eof),
{
    lemma_eof_last_from(s, initial_state());
}

/// At a line start, indentation below the innermost open block to a width that
/// no open block has fails with an indentation fault, never silently.
pub proof fn dedent_to_unopened_width_fails(s: Seq<char>, st: LexState)
    requires
        valid_state(s, st),
        st.pending.len() == 0,
        st.at_line_start,
        indent_width(s, st.pos) < st.stack.last(),
        !st.stack.contains(indent_width(s, st.pos) as usize),
    ensures
        lex_step(s, st) matches Err((f, _p)) && f is Indentation,
{
    let w = indent_width(s, st.pos);
    crate::scanner::lemma_indent_bounds(s, st.pos);
    lemma_pop_above_keeps_base(st.stack, w);
    let kept = pop_above(st.stack, w);
    if kept.len() > 0 && kept.last() == w {
        assert(st.stack[kept.len() - 1] == kept.last());
    }
}

/// Where `=`, `!`, `<` or `>` is directly followed by `=`, the two characters
/// are one operator token.
pub proof fn two_char_operator_preferred(s: Seq<char>, i: int)
    requires
        0 <= i,
        i + 1 < s.len(),
        s[i] == '=' || s[i] == '!' || s[i] == '<' || s[i] == '>',
        s[i + 1] == '=',
    ensures
        scan_at(s, i) matches Ok((t, e)) && e == i + 2 && t.lexeme == s.subrange(i, i + 2) && (
        s[i] == '=' ==> t.kind is EqualEqual) && (s[i] == '!' ==> t.kind is BangEqual) && (s[i]
            == '<' ==> t.kind is LessEqual) && (s[i] == '>' ==> t.kind is GreaterEqual),
{
}

/// A number directly followed by a `.` that no digit follows is a number token
/// that stops before the point, and the point is a `Dot` token of its own.
pub proof fn number_then_separate_dot(s: Seq<char>, i: int)
    requires
        0 <= i < s.len(),
        is_digit(s[i]),
        digits_end(s, i) < s.len(),
        s[digits_end(s, i)] == '.',
        !(digits_end(s, i) + 1 < s.len() && is_digit(s[digits_end(s, i) + 1])),
    ensures
        scan_at(s, i) == spanned(s, i, TokenType::NumberLiteral, digits_end(s, i)),
        scan_at(s, digits_end(s, i)) == spanned(s, digits_end(s, i), TokenType::Dot, digits_end(s, i) + 1),
{
}

proof fn lemma_digits_end_sub(s: Seq<char>, a: int, b: int, j: int)
    requires
        0 <= a <= j <= b <= s.len(),
        digits_end(s, j) <= b,
    ensures
        digits_end(s.subrange(a, b), j - a) == digits_end(s, j) - a,
    decreases b - j,
{
    lemma_digits_end_bounds(s, j);
    if j < b && is_digit(s[j]) {
        lemma_digits_end_sub(s, a, b, j + 1);
    }
}

proof fn lemma_ident_end_sub(s: Seq<char>, a: int, b: int, j: int)
    requires
        0 <= a <= j <= b <= s.len(),
        ident_end(s, j) <= b,
    ensures
        ident_end(s.subrange(a, b), j - a) == ident_end(s, j) - a,
    decreases b - j,
{
    lemma_ident_end_bounds(s, j);
    if j < b && is_ident_char(s[j]) {
        lemma_ident_end_sub(s, a, b, j + 1);
    }
}

/// Scanning the lexeme of a scanned token on its own, from its first
/// character, gives back one token of the same kind over the whole lexeme.
/// String literals are left out: their lexeme drops the quotes.
pub proof fn rescanning_lexeme_keeps_kind(s: Seq<char>, i: int)
    requires
        0 <= i < s.len(),
        scan_at(s, i) matches Ok((t, _e)) && !(t.kind is StringLiteral),
    ensures
        scan_at(s, i) matches Ok((t, _e)) && scan_at(t.lexeme, 0) matches Ok((t2, e2)) && t2.kind
            == t.kind && t2.lexeme == t.lexeme && e2 == t.lexeme.len(),
{
    lemma_scan_at_bounds(s, i);
    let (t, e) = scan_at(s, i)->Ok_0;
    let w = s.subrange(i, e);
    assert(t.lexeme == w);
    assert(w[0] == s[i]);
    let c = s[i];
    if is_digit(c) {
        let d = digits_end(s, i);
        lemma_digits_end_bounds(s, i);
        lemma_digits_end_bounds(s, i + 1);
        if d + 1 < s.len() && s[d] == '.' && is_digit(s[d + 1]) {
            lemma_digits_end_bounds(s, d + 1);
            lemma_digits_end_bounds(s, d + 2);
            lemma_digits_end_sub(s, i, e, i);
            lemma_digits_end_sub(s, i, e, d + 1);
            assert(w[d - i] == s[d]);
            assert(w[d + 1 - i] == s[d + 1]);
        } else {
            lemma_digits_end_sub(s, i, e, i);
        }
        assert(w.subrange(0, number_end(w, 0)) =~= w);
    } else if c == '=' || c == '!' || c == '<' || c == '>' {
        if i + 1 < s.len() && s[i + 1] == '=' {
            assert(w[1] == s[i + 1]);
        }
        assert(w.subrange(0, w.len() as int) =~= w);
    } else if c == '"' || c == '\'' {
    } else {
        lemma_ident_end_bounds(s, i + 1);
        if ident_end(s, i + 1) <= e {
            lemma_ident_end_sub(s, i, e, i + 1);
        }
        assert(w.subrange(0, w.len() as int) =~= w);
    }
}

} // verus!

verus! {

/// Index `p` holds a character where the scanner starts a token: inside the
/// text, not blank, not a newline and not the start of a comment.
pub open spec fn significant(s: Seq<char>, p: int) -> bool {
    &&& 0 <= p < s.len()
    &&& !is_blank(s[p])
    &&& s[p] != '\n'
    &&& !starts_line_comment(s, p)
    &&& !starts_block_comment(s, p)
}

/// Scanning `s` at `p` yields the token `t`.
pub open spec fn yields(s: Seq<char>, p: int, t: TokenView) -> bool {
    scan_at(s, p) is Ok && scan_at(s, p)->Ok_0.0 == t
}

/// `t` is what scanning `s` yields at some significant index.
pub open spec fn scanned_in(s: Seq<char>, t: TokenView) -> bool {
    exists|p: int| significant(s, p) && #[trigger] yields(s, p, t)
}

/// Lexing the lexeme of `t` alone gives one token of the same kind and text, then `Eof`.
pub open spec fn relexes_alone(t: TokenView) -> bool {
    lex_all(t.lexeme, initial_state()) matches Ok(us) && us.len() == 2 && us[0].kind == t.kind
        && us[0].lexeme == t.lexeme && us[1].kind is Eof
}

proof fn lemma_skip_end_significant(s: Seq<char>, i: int)
    requires
        0 <= i <= s.len(),
    ensures
        skip_end(s, i) < s.len() ==> !is_blank(s[skip_end(s, i)]) && !starts_line_comment(
            s,
            skip_end(s, i),
        ) && !starts_block_comment(s, skip_end(s, i)),
    decreases s.len() - i,
{
    if i >= s.len() {
    } else if is_blank(s[i]) {
        lemma_skip_end_significant(s, i + 1);
    } else if starts_line_comment(s, i) {
        lemma_line_comment_end_ge(s, i + 1);
        lemma_skip_end_significant(s, line_comment_end(s, i + 1));
    } else if starts_block_comment(s, i) {
        lemma_block_comment_end_ge(s, i + 2, 1);
        lemma_skip_end_significant(s, block_comment_end(s, i + 2, 1));
    }
}

proof fn lemma_rest_of_line_scanned(s: Seq<char>, st: LexState)
    requires
        valid_state(s, st),
    ensures
        rest_of_line(s, st) matches Ok((_st2, t)) ==> (!t.kind.is_structural() ==> scanned_in(s, t)),
{
    crate::scanner::lemma_skip_end_bounds(s, st.pos);
    lemma_skip_end_significant(s, st.pos);
    let p = skip_end(s, st.pos);
    if p < s.len() && s[p] != '\n' {
        assert(significant(s, p));
        if let Ok((u, _e)) = scan_at(s, p) {
            assert(yields(s, p, u));
        }
    }
}

proof fn lemma_step_scanned(s: Seq<char>, st: LexState)
    requires
        valid_state(s, st),
    ensures
        lex_step(s, st) matches Ok((_st2, t)) ==> (!t.kind.is_structural() ==> scanned_in(s, t)),
{
    if st.pending.len() > 0 {
        assert(st.pending[0].kind is Dedent || st.pending[0].kind is Eof);
    } else if st.at_line_start {
        crate::scanner::lemma_indent_bounds(s, st.pos);
        let st1 = LexState { pos: crate::scanner::indent_end(s, st.pos), at_line_start: false, ..st };
        lemma_rest_of_line_scanned(s, st1);
    } else {
        lemma_rest_of_line_scanned(s, st);
    }
}

proof fn lemma_stream_scanned(s: Seq<char>, st: LexState)
    requires
        valid_state(s, st),
    ensures
        lex_all(s, st) matches Ok(ts) ==> forall|k: int|
            0 <= k < ts.len() && !(#[trigger] ts[k]).kind.is_structural() ==> scanned_in(s, ts[k]),
    decreases measure(s, st),
{
    lemma_step_progress(s, st);
    lemma_step_scanned(s, st);
    if let Ok((st2, t)) = lex_step(s, st) {
        if !(t.kind is Eof) {
            lemma_stream_scanned(s, st2);
            if let Ok(rest) = lex_all(s, st2) {
                let ts = seq![t] + rest;
                assert forall|k: int|
                    0 <= k < ts.len() && !(#[trigger] ts[k]).kind.is_structural() implies scanned_in(
                    s,
                    ts[k],
                ) by {
                    if k > 0 {
                        assert(ts[k] == rest[k - 1]);
                    }
                }
            }
        }
    }
}

proof fn lemma_relex_at(s: Seq<char>, p: int)
    requires
        significant(s, p),
        scan_at(s, p) matches Ok((t, _e)) && !(t.kind is StringLiteral),
    ensures
        scan_at(s, p) matches Ok((t, _e)) && relexes_alone(t),
{
    lemma_scan_at_bounds(s, p);
    rescanning_lexeme_keeps_kind(s, p);
    let (t, e) = scan_at(s, p)->Ok_0;
    let w = t.lexeme;
    assert(w == s.subrange(p, e));
    assert(w[0] == s[p]);
    if w.len() > 1 {
        assert(w[1] == s[p + 1]);
    }
    let (t2, e2) = scan_at(w, 0)->Ok_0;
    let init = initial_state();
    assert(crate::scanner::indent_width(w, 0) == 0);
    assert(crate::scanner::indent_end(w, 0) == 0);
    assert(skip_end(w, 0) == 0);
    let st2 = LexState { pos: w.len() as int, at_line_start: false, ..init };
    assert(lex_step(w, init) == Ok::<(LexState, TokenView), (LexFault, Position)>((st2, t2)));
    let here = crate::scanner::position_at(w, w.len() as int);
    let eof = crate::rules::marker(TokenType::Eof, here);
    assert(lex_step(w, st2) == Ok::<(LexState, TokenView), (LexFault, Position)>((st2, eof)));
    assert(lex_all(w, st2) == Ok::<Seq<TokenView>, (LexFault, Position)>(seq![eof]));
    assert(lex_all(w, init) == Ok::<Seq<TokenView>, (LexFault, Position)>(seq![t2] + seq![eof]));
}

/// In a successful stream, every token scanned from the text other than a
/// string literal lexes, on its own, to one token of the same kind and text,
/// then `Eof`. String literals are left out: their lexeme drops the quotes.
pub proof fn rescanning_stream_keeps_kinds(s: Seq<char>)
    ensures
        lex_all(s, initial_state()) matches Ok(ts) ==> forall|k: int|
            0 <= k < ts.len() && !(#[trigger] ts[k]).kind.is_structural() && !(
            ts[k].kind is StringLiteral) ==> relexes_alone(ts[k]),
{
    lemma_stream_scanned(s, initial_state());
    if let Ok(ts) = lex_all(s, initial_state()) {
        assert forall|k: int|
            0 <= k < ts.len() && !(#[trigger] ts[k]).kind.is_structural() && !(
            ts[k].kind is StringLiteral) implies relexes_alone(ts[k]) by {
            assert(scanned_in(s, ts[k]));
            let p = choose|p: int| significant(s, p) && #[trigger] yields(s, p, ts[k]);
            lemma_relex_at(s, p);
        }
    }
}

} // verus!
