//! The forward-only token scanner and the scanner-driven signature
//! extractor: a minimal token set over the source text, from which each
//! function's name, parameter list and docstring span are read in one pass,
//! without building a syntax tree.

use vstd::prelude::*;
use vstd::string::StrSliceExecFns;

use crate::ast_parsing::{FunctionInfo, FunctionLocation};
use crate::parsing::{lemma_params_view_push, opt_str_view, params_view};
use crate::text::{
    find_sub_from, is_space, is_space_char, lemma_find_from_spec, occurs_at, spec_find_from,
    spec_trim,
};

verus! {

/// The token classes of the scanner. Runs of identifier-like characters
/// (letters, digits, quotes, `_`, `|`, `*`) form `Text`; the exact word
/// `def` forms `DefStart`; whitespace and `#` comments separate tokens.
#[derive(Debug, PartialEq, Eq, Clone, Copy, Structural)]
pub enum Token {
    DefStart,
    ParOpen,
    ParClose,
    BraceOpen,
    BraceClose,
    BracketOpen,
    BracketClose,
    Comma,
    Colon,
    Equals,
    Text,
}

/// A character that may stand inside a `Text` token.
pub open spec fn is_text_char(c: char) -> bool {
    (97 <= c as u32 && c as u32 <= 122) || (65 <= c as u32 && c as u32 <= 90) || (48 <= c as u32
        && c as u32 <= 57) || c == '\'' || c == '"' || c == '_' || c == '|' || c == '*'
}

/// Runtime test for `is_text_char`.
pub fn is_text(c: char) -> (r: bool)
    ensures
        r == is_text_char(c),
{
    let u = c as u32;
    (97 <= u && u <= 122) || (65 <= u && u <= 90) || (48 <= u && u <= 57) || c == '\'' || c == '"'
        || c == '_' || c == '|' || c == '*'
}

/// Position of the next token start at or after `i`: whitespace is skipped,
/// and a `#` comment is skipped through its line break (a comment the file
/// ends in without a line break is not trivia).
pub open spec fn spec_skip_trivia(s: Seq<char>, i: int) -> int
    decreases s.len() - i,
    via spec_skip_trivia_dec
{
    if 0 <= i < s.len() && is_space_char(s[i]) {
        spec_skip_trivia(s, i + 1)
    } else if 0 <= i < s.len() && s[i] == '#' {
        match spec_find_from(s, ("\n")@, i) {
            Some(j) => spec_skip_trivia(s, j + 1),
            None => i,
        }
    } else {
        i
    }
}

#[via_fn]
proof fn spec_skip_trivia_dec(s: Seq<char>, i: int) {
    if 0 <= i < s.len() && !is_space_char(s[i]) && s[i] == '#' {
        reveal_strlit("\n");
        lemma_find_from_spec(s, ("\n")@, i);
    }
}

/// `spec_skip_trivia` stays within `[i, s.len()]`.
pub proof fn lemma_skip_trivia_bounds(s: Seq<char>, i: int)
    requires
        0 <= i <= s.len(),
    ensures
        i <= spec_skip_trivia(s, i) <= s.len(),
    decreases s.len() - i,
{
    if i < s.len() && is_space_char(s[i]) {
        lemma_skip_trivia_bounds(s, i + 1);
    } else if i < s.len() && s[i] == '#' {
        reveal_strlit("\n");
        lemma_find_from_spec(s, ("\n")@, i);
        match spec_find_from(s, ("\n")@, i) {
            Some(j) => {
                lemma_skip_trivia_bounds(s, j + 1);
            },
            None => {},
        }
    }
}

/// End of the run of text characters starting at `i`.
pub open spec fn spec_text_run_end(s: Seq<char>, i: int) -> int
    decreases s.len() - i,
{
    if 0 <= i < s.len() && is_text_char(s[i]) {
        spec_text_run_end(s, i + 1)
    } else {
        i
    }
}

/// `spec_text_run_end` stays within `[i, s.len()]`.
pub proof fn lemma_text_run_bounds(s: Seq<char>, i: int)
    requires
        0 <= i <= s.len(),
    ensures
        i <= spec_text_run_end(s, i) <= s.len(),
    decreases s.len() - i,
{
    if i < s.len() && is_text_char(s[i]) {
        lemma_text_run_bounds(s, i + 1);
    }
}

/// The token starting at the non-trivia position `p`, and its end: a
/// bracket, separator or `=` alone; a run of text characters, which is
/// `DefStart` when it spells `def` and `Text` otherwise; anything else is a
/// one-character scan error.
pub open spec fn spec_token_at(s: Seq<char>, p: int) -> (Result<Token, ()>, int) {
    let c = s[p];
    if c == '(' {
        (Ok(Token::ParOpen), p + 1)
    } else if c == ')' {
        (Ok(Token::ParClose), p + 1)
    } else if c == '{' {
        (Ok(Token::BraceOpen), p + 1)
    } else if c == '}' {
        (Ok(Token::BraceClose), p + 1)
    } else if c == '[' {
        (Ok(Token::BracketOpen), p + 1)
    } else if c == ']' {
        (Ok(Token::BracketClose), p + 1)
    } else if c == ',' {
        (Ok(Token::Comma), p + 1)
    } else if c == ':' {
        (Ok(Token::Colon), p + 1)
    } else if c == '=' {
        (Ok(Token::Equals), p + 1)
    } else if is_text_char(c) {
        let e = spec_text_run_end(s, p);
        if s.subrange(p, e) == ("def")@ {
            (Ok(Token::DefStart), e)
        } else {
            (Ok(Token::Text), e)
        }
    } else {
        (Err(()), p + 1)
    }
}

/// The next token of `s` at or after `i`: its class and span, or `None` when
/// only trivia remains.
pub open spec fn spec_next_token(s: Seq<char>, i: int) -> Option<(Result<Token, ()>, int, int)> {
    let a = spec_skip_trivia(s, i);
    if a >= s.len() {
        None
    } else {
        let (t, e) = spec_token_at(s, a);
        Some((t, a, e))
    }
}

/// A token's span lies strictly beyond its read position.
pub proof fn lemma_next_token_bounds(s: Seq<char>, i: int)
    requires
        0 <= i <= s.len(),
    ensures
        match spec_next_token(s, i) {
            Some((t, a, e)) => i <= a < e <= s.len(),
            None => true,
        },
{
    lemma_skip_trivia_bounds(s, i);
    let a = spec_skip_trivia(s, i);
    if a < s.len() {
        lemma_text_run_bounds(s, a);
        if is_text_char(s[a]) {
            assert(spec_text_run_end(s, a) == spec_text_run_end(s, a + 1));
            lemma_text_run_bounds(s, a + 1);
        }
    }
}

/// A forward-only scanner over a source buffer, dealing out tokens and the
/// span of the token it last dealt.
pub struct Lexer<'a> {
    pub src: &'a str,
    pub len: usize,
    pub pos: usize,
    pub start: usize,
    pub end: usize,
}

impl<'a> Lexer<'a> {
    /// The scanner's bookkeeping invariant.
    pub open spec fn wf(&self) -> bool {
        self.len == self.src@.len() && self.start <= self.end <= self.pos <= self.len
    }

    /// A fresh scanner at the start of `source`.
    pub fn new(source: &'a str) -> (r: Lexer<'a>)
        ensures
            r.wf(),
            r.src == source,
            r.pos == 0,
    {
        let len = source.unicode_len();
        Lexer { src: source, len, pos: 0, start: 0, end: 0 }
    }

    /// The source buffer the scanner reads.
    pub fn source(&self) -> (r: &'a str)
        ensures
            r == self.src,
    {
        self.src
    }

    /// The text of the token last dealt.
    pub fn slice(&self) -> (r: &'a str)
        requires
            self.wf(),
        ensures
            r@ == self.src@.subrange(self.start as int, self.end as int),
    {
        self.src.substring_char(self.start, self.end)
    }

    /// Deals the next token, as `spec_next_token` names it, recording its
    /// span; at the end of input the span becomes empty at the buffer's end.
    pub fn next(&mut self) -> (r: Option<Result<Token, ()>>)
        requires
            old(self).wf(),
        ensures
            final(self).wf(),
            final(self).src == old(self).src,
            final(self).len == old(self).len,
            match spec_next_token(old(self).src@, old(self).pos as int) {
                None => r is None && final(self).pos == old(self).len && final(self).start == old(
                    self,
                ).len && final(self).end == old(self).len,
                Some((t, a, e)) => r == Some(t) && final(self).start == a && final(self).end == e
                    && final(self).pos == e,
            },
    {
        proof {
            reveal_strlit("\n");
        }
        let src = self.src;
        let len = self.len;
        let ghost p0 = self.pos as int;
        let mut p = self.pos;
        loop
            invariant_except_break
                len == src@.len(),
                p <= len,
                0 <= p0 <= len,
                spec_skip_trivia(src@, p0) == spec_skip_trivia(src@, p as int),
            ensures
                len == src@.len(),
                p <= len,
                p == spec_skip_trivia(src@, p0),
            decreases len - p,
        {
            proof {
                reveal_strlit("\n");
            }
            if p >= len {
                assert(spec_skip_trivia(src@, p as int) == p);
                break;
            }
            let c = src.get_char(p);
            if is_space(c) {
                p += 1;
            } else if c == '#' {
                match find_sub_from(src, "\n", p) {
                    Some(j) => {
                        p = j + 1;
                    },
                    None => {
                        assert(spec_skip_trivia(src@, p as int) == p);
                        break;
                    },
                }
            } else {
                assert(spec_skip_trivia(src@, p as int) == p);
                break;
            }
        }
        if p >= len {
            self.pos = len;
            self.start = len;
            self.end = len;
            return None;
        }
        let c = src.get_char(p);
        let (tok, e): (Result<Token, ()>, usize) = if c == '(' {
            (Ok(Token::ParOpen), p + 1)
        } else if c == ')' {
            (Ok(Token::ParClose), p + 1)
        } else if c == '{' {
            (Ok(Token::BraceOpen), p + 1)
        } else if c == '}' {
            (Ok(Token::BraceClose), p + 1)
        } else if c == '[' {
            (Ok(Token::BracketOpen), p + 1)
        } else if c == ']' {
            (Ok(Token::BracketClose), p + 1)
        } else if c == ',' {
            (Ok(Token::Comma), p + 1)
        } else if c == ':' {
            (Ok(Token::Colon), p + 1)
        } else if c == '=' {
            (Ok(Token::Equals), p + 1)
        } else if is_text(c) {
            let mut e = p;
            while e < len && is_text(src.get_char(e))
                invariant
                    len == src@.len(),
                    p <= e <= len,
                    spec_text_run_end(src@, p as int) == spec_text_run_end(src@, e as int),
                decreases len - e,
            {
                e += 1;
            }
            assert(e == spec_text_run_end(src@, p as int));
            let isdef = e - p == 3 && src.get_char(p) == 'd' && src.get_char(p + 1) == 'e'
                && src.get_char(p + 2) == 'f';
            proof {
                reveal_strlit("def");
                if isdef {
                    assert(src@.subrange(p as int, e as int) =~= ("def")@);
                } else {
                    if src@.subrange(p as int, e as int) == ("def")@ {
                        assert(src@.subrange(p as int, e as int).len() == 3);
                        assert(src@.subrange(p as int, e as int)[0] == src@[p as int]);
                        assert(src@.subrange(p as int, e as int)[1] == src@[p as int + 1]);
                        assert(src@.subrange(p as int, e as int)[2] == src@[p as int + 2]);
                        assert(false);
                    }
                }
            }
            (
                if isdef {
                    Ok(Token::DefStart)
                } else {
                    Ok(Token::Text)
                },
                e,
            )
        } else {
            (Err(()), p + 1)
        };
        self.start = p;
        self.end = e;
        self.pos = e;
        Some(tok)
    }
}

/// What ended a possibly-nested content run.
#[derive(Debug, PartialEq, Eq, Clone, Copy, Structural)]
pub enum FinishedOn {
    Comma,
    Equals,
    ParClose,
}

/// What the nested-content scan returns, reading tokens from `pos` with the
/// content having started at `start` and the given open-bracket counts: the
/// trimmed content span, the separator that ended it, and the position after
/// that separator. A `,` or `=` counts only at depth zero; a `)` at paren
/// depth minus one ends the whole parameter list. A scan error or the end of
/// input yields `None`.
pub open spec fn spec_extract_content(
    s: Seq<char>,
    start: int,
    pos: int,
    np: int,
    nb: int,
    nk: int,
) -> Option<(Seq<char>, FinishedOn, int)>
    decreases s.len() - pos,
    via spec_extract_content_dec
{
    if pos < 0 || pos > s.len() {
        None
    } else {
        match spec_next_token(s, pos) {
            None => None,
            Some((t, a, e)) => match t {
                Err(_) => None,
                Ok(tok) => match tok {
                    Token::ParOpen => spec_extract_content(s, start, e, np + 1, nb, nk),
                    Token::ParClose => if np - 1 == -1 && nb == 0 && nk == 0 {
                        Some((spec_trim(s.subrange(start, a)), FinishedOn::ParClose, e))
                    } else {
                        spec_extract_content(s, start, e, np - 1, nb, nk)
                    },
                    Token::BraceOpen => spec_extract_content(s, start, e, np, nb + 1, nk),
                    Token::BraceClose => spec_extract_content(s, start, e, np, nb - 1, nk),
                    Token::BracketOpen => spec_extract_content(s, start, e, np, nb, nk + 1),
                    Token::BracketClose => spec_extract_content(s, start, e, np, nb, nk - 1),
                    Token::Equals => if np == 0 && nb == 0 && nk == 0 {
                        Some((spec_trim(s.subrange(start, a)), FinishedOn::Equals, e))
                    } else {
                        spec_extract_content(s, start, e, np, nb, nk)
                    },
                    Token::Comma => if np == 0 && nb == 0 && nk == 0 {
                        Some((spec_trim(s.subrange(start, a)), FinishedOn::Comma, e))
                    } else {
                        spec_extract_content(s, start, e, np, nb, nk)
                    },
                    _ => spec_extract_content(s, start, e, np, nb, nk),
                },
            },
        }
    }
}

#[via_fn]
proof fn spec_extract_content_dec(s: Seq<char>, start: int, pos: int, np: int, nb: int, nk: int) {
    if 0 <= pos <= s.len() {
        lemma_next_token_bounds(s, pos);
    }
}

/// A successful nested-content scan ends strictly beyond where it began.
pub proof fn lemma_extract_content_advances(
    s: Seq<char>,
    start: int,
    pos: int,
    np: int,
    nb: int,
    nk: int,
)
    ensures
        match spec_extract_content(s, start, pos, np, nb, nk) {
            Some((c, f, e2)) => pos < e2 <= s.len(),
            None => true,
        },
    decreases s.len() - pos,
{
    if 0 <= pos <= s.len() {
        lemma_next_token_bounds(s, pos);
        match spec_next_token(s, pos) {
            None => {},
            Some((t, a, e)) => {
                if t is Ok {
                    lemma_extract_content_advances(s, start, e, np + 1, nb, nk);
                    lemma_extract_content_advances(s, start, e, np - 1, nb, nk);
                    lemma_extract_content_advances(s, start, e, np, nb + 1, nk);
                    lemma_extract_content_advances(s, start, e, np, nb - 1, nk);
                    lemma_extract_content_advances(s, start, e, np, nb, nk + 1);
                    lemma_extract_content_advances(s, start, e, np, nb, nk - 1);
                    lemma_extract_content_advances(s, start, e, np, nb, nk);
                }
            },
        }
    }
}

/// Scans a possibly-nested content run (a type annotation or a default
/// value), as `spec_extract_content` gives it from the span of the token the
/// scanner last dealt. Returns `None` on a scan error or when the input ends
/// before a separator at the right depth.
pub fn extract_possibly_parenthesized_content<'a>(lexer: &mut Lexer<'a>) -> (r: Option<
    (&'a str, FinishedOn),
>)
    requires
        old(lexer).wf(),
    ensures
        final(lexer).wf(),
        final(lexer).src == old(lexer).src,
        final(lexer).len == old(lexer).len,
        match spec_extract_content(
            old(lexer).src@,
            old(lexer).start as int,
            old(lexer).pos as int,
            0,
            0,
            0,
        ) {
            None => r is None,
            Some((content, fin, e2)) => match r {
                Some(p) => p.0@ == content && p.1 == fin && final(lexer).pos as int == e2,
                None => false,
            },
        },
{
    let src = lexer.source();
    let start0 = lexer.start;
    let ghost s = lexer.src@;
    let mut np: i128 = 0;
    let mut nb: i128 = 0;
    let mut nk: i128 = 0;
    loop
        invariant
            lexer.wf(),
            lexer.src == old(lexer).src,
            lexer.len == old(lexer).len,
            s == lexer.src@,
            src == lexer.src,
            start0 == old(lexer).start,
            start0 <= lexer.pos,
            -(lexer.pos as int) <= np <= lexer.pos as int,
            -(lexer.pos as int) <= nb <= lexer.pos as int,
            -(lexer.pos as int) <= nk <= lexer.pos as int,
            spec_extract_content(
                s,
                old(lexer).start as int,
                old(lexer).pos as int,
                0,
                0,
                0,
            ) == spec_extract_content(
                s,
                start0 as int,
                lexer.pos as int,
                np as int,
                nb as int,
                nk as int,
            ),
        decreases lexer.len - lexer.pos,
    {
        proof {
            lemma_next_token_bounds(s, lexer.pos as int);
        }
        let t = lexer.next();
        match t {
            Some(Ok(tok)) => {
                match tok {
                    Token::ParOpen => {
                        np += 1;
                    },
                    Token::ParClose => {
                        np -= 1;
                        if np == -1 && nb == 0 && nk == 0 {
                            let a = lexer.start;
                            let content = crate::text::trim_slice(src.substring_char(start0, a));
                            return Some((content, FinishedOn::ParClose));
                        }
                    },
                    Token::BraceOpen => {
                        nb += 1;
                    },
                    Token::BraceClose => {
                        nb -= 1;
                    },
                    Token::BracketOpen => {
                        nk += 1;
                    },
                    Token::BracketClose => {
                        nk -= 1;
                    },
                    Token::Equals => {
                        if np == 0 && nb == 0 && nk == 0 {
                            let a = lexer.start;
                            let content = crate::text::trim_slice(src.substring_char(start0, a));
                            return Some((content, FinishedOn::Equals));
                        }
                    },
                    Token::Comma => {
                        if np == 0 && nb == 0 && nk == 0 {
                            let a = lexer.start;
                            let content = crate::text::trim_slice(src.substring_char(start0, a));
                            return Some((content, FinishedOn::Comma));
                        }
                    },
                    _ => {},
                }
            },
            _ => {
                return None;
            },
        }
    }
}

/// A pending token under examination: its class and span, or `None` at the
/// end of input. Phases of the signature scan pass these along.
pub open spec fn spec_cur_wf(s: Seq<char>, cur: Option<(Result<Token, ()>, int, int)>) -> bool {
    match cur {
        None => true,
        Some((t, a, e)) => 0 <= a < e <= s.len(),
    }
}

/// The read position a pending token stands for: its end, or the buffer's
/// end when input is exhausted.
pub open spec fn spec_cpos(s: Seq<char>, cur: Option<(Result<Token, ()>, int, int)>) -> int {
    match cur {
        None => s.len() as int,
        Some((t, a, e)) => e,
    }
}

/// Measure for recursion over pending tokens.
pub open spec fn spec_cur_measure(s: Seq<char>, cur: Option<(Result<Token, ()>, int, int)>) -> int {
    match cur {
        None => 0,
        Some((t, a, e)) => s.len() - e + 1,
    }
}

/// Whether a scanned parameter name is kept: the receiver `self` is always
/// dropped, and a `*`-led name is dropped when variadic parameters are
/// skipped.
pub open spec fn spec_keep_param(name: Seq<char>, skip_variadic: bool) -> bool {
    name != ("self")@ && !(skip_variadic && name.len() > 0 && name[0] == '*')
}

/// The zero-or-one-element parameter list a scanned name contributes.
pub open spec fn spec_param_entry(
    name: Seq<char>,
    typ: Option<Seq<char>>,
    skip_variadic: bool,
) -> Seq<(Seq<char>, Option<Seq<char>>)> {
    if spec_keep_param(name, skip_variadic) {
        seq![(name, typ)]
    } else {
        Seq::empty()
    }
}

/// The span the scanner records after dealing one token from `pos`: that
/// token's start and end, or the buffer's end twice at the end of input.
pub open spec fn spec_consume_one(s: Seq<char>, pos: int) -> (int, int) {
    match spec_next_token(s, pos) {
        None => (s.len() as int, s.len() as int),
        Some((t, a, e)) => (a, e),
    }
}

/// The parameter-list scan from the pending token `cur`: the parameters it
/// collects and the pending token it leaves for the phase after it. Each
/// `name`, `name: type` or `name = default` entry is read as the scanner
/// does it, a type with a default discarding the default run; the receiver
/// and, on request, variadic names are dropped. `None` is a scan error.
pub open spec fn spec_params_phase(
    s: Seq<char>,
    cur: Option<(Result<Token, ()>, int, int)>,
    skip_variadic: bool,
) -> Option<
    (Seq<(Seq<char>, Option<Seq<char>>)>, Option<(Result<Token, ()>, int, int)>),
>
    decreases spec_cur_measure(s, cur),
    via spec_params_phase_dec
{
    if !spec_cur_wf(s, cur) {
        None
    } else {
        match cur {
            Some((Ok(Token::Text), a, e)) => {
                let name = s.subrange(a, e);
                match spec_next_token(s, e) {
                    Some((Ok(Token::Colon), a1, e1)) => {
                        let pre = spec_consume_one(s, e1);
                        match spec_extract_content(s, pre.0, pre.1, 0, 0, 0) {
                            None => None,
                            Some((typ, fin, e2)) => {
                                let entry = spec_param_entry(name, Some(typ), skip_variadic);
                                if fin == FinishedOn::Equals {
                                    let pre2 = spec_consume_one(s, e2);
                                    match spec_extract_content(s, pre2.0, pre2.1, 0, 0, 0) {
                                        None => None,
                                        Some((dflt, fin2, e3)) => {
                                            if fin2 == FinishedOn::ParClose {
                                                Some((entry, spec_next_token(s, e3)))
                                            } else {
                                                match spec_params_phase(
                                                    s,
                                                    spec_next_token(s, e3),
                                                    skip_variadic,
                                                ) {
                                                    None => None,
                                                    Some((ps, pend)) => Some((entry + ps, pend)),
                                                }
                                            }
                                        },
                                    }
                                } else if fin == FinishedOn::ParClose {
                                    Some((entry, spec_next_token(s, e2)))
                                } else {
                                    match spec_params_phase(s, spec_next_token(s, e2), skip_variadic) {
                                        None => None,
                                        Some((ps, pend)) => Some((entry + ps, pend)),
                                    }
                                }
                            },
                        }
                    },
                    Some((Ok(Token::Equals), a1, e1)) => {
                        let pre = spec_consume_one(s, e1);
                        match spec_extract_content(s, pre.0, pre.1, 0, 0, 0) {
                            None => None,
                            Some((dflt, fin, e2)) => {
                                let entry = spec_param_entry(name, None, skip_variadic);
                                if fin == FinishedOn::ParClose {
                                    Some((entry, spec_next_token(s, e2)))
                                } else {
                                    match spec_params_phase(s, spec_next_token(s, e2), skip_variadic) {
                                        None => None,
                                        Some((ps, pend)) => Some((entry + ps, pend)),
                                    }
                                }
                            },
                        }
                    },
                    nxt => {
                        let entry = spec_param_entry(name, None, skip_variadic);
                        let epos = match nxt {
                            None => s.len() as int,
                            Some((t1, a1, e1)) => e1,
                        };
                        match spec_params_phase(s, spec_next_token(s, epos), skip_variadic) {
                            None => None,
                            Some((ps, pend)) => Some((entry + ps, pend)),
                        }
                    },
                }
            },
            _ => Some((Seq::empty(), cur)),
        }
    }
}

#[via_fn]
proof fn spec_params_phase_dec(
    s: Seq<char>,
    cur: Option<(Result<Token, ()>, int, int)>,
    skip_variadic: bool,
) {
    if spec_cur_wf(s, cur) {
        match cur {
            Some((t, a, e)) => {
                lemma_next_token_bounds(s, e);
                match spec_next_token(s, e) {
                    Some((t1, a1, e1)) => {
                        lemma_next_token_bounds(s, e1);
                        let pre = spec_consume_one(s, e1);
                        lemma_extract_content_advances(s, pre.0, pre.1, 0, 0, 0);
                        match spec_extract_content(s, pre.0, pre.1, 0, 0, 0) {
                            Some((typ, fin, e2)) => {
                                lemma_next_token_bounds(s, e2);
                                let pre2 = spec_consume_one(s, e2);
                                lemma_extract_content_advances(s, pre2.0, pre2.1, 0, 0, 0);
                                match spec_extract_content(s, pre2.0, pre2.1, 0, 0, 0) {
                                    Some((dflt, fin2, e3)) => {
                                        lemma_next_token_bounds(s, e3);
                                    },
                                    None => {},
                                }
                            },
                            None => {},
                        }
                    },
                    None => {},
                }
            },
            None => {},
        }
    }
}

/// A successful parameter-list scan leaves a well-formed pending token at or
/// beyond where it began.
#[verifier::rlimit(60)]
pub proof fn lemma_params_phase_props(
    s: Seq<char>,
    cur: Option<(Result<Token, ()>, int, int)>,
    skip_variadic: bool,
)
    requires
        spec_cur_wf(s, cur),
    ensures
        match spec_params_phase(s, cur, skip_variadic) {
            Some((ps, pend)) => spec_cur_wf(s, pend) && spec_cpos(s, cur) <= spec_cpos(s, pend)
                <= s.len(),
            None => true,
        },
    decreases spec_cur_measure(s, cur),
{
    match cur {
        Some((t, a, e)) => {
            lemma_next_token_bounds(s, e);
            match spec_next_token(s, e) {
                Some((t1, a1, e1)) => {
                    lemma_next_token_bounds(s, e1);
                    lemma_params_phase_props(s, spec_next_token(s, e1), skip_variadic);
                    let pre = spec_consume_one(s, e1);
                    lemma_extract_content_advances(s, pre.0, pre.1, 0, 0, 0);
                    match spec_extract_content(s, pre.0, pre.1, 0, 0, 0) {
                        Some((typ, fin, e2)) => {
                            lemma_next_token_bounds(s, e2);
                            lemma_params_phase_props(s, spec_next_token(s, e2), skip_variadic);
                            let pre2 = spec_consume_one(s, e2);
                            lemma_extract_content_advances(s, pre2.0, pre2.1, 0, 0, 0);
                            match spec_extract_content(s, pre2.0, pre2.1, 0, 0, 0) {
                                Some((dflt, fin2, e3)) => {
                                    lemma_next_token_bounds(s, e3);
                                    lemma_params_phase_props(s, spec_next_token(s, e3), skip_variadic);
                                },
                                None => {},
                            }
                        },
                        None => {},
                    }
                },
                None => {
                    lemma_params_phase_props(s, spec_next_token(s, s.len() as int), skip_variadic);
                },
            }
        },
        None => {},
    }
}

/// The pending tokens from `cur` to the next `:` token, which closes a
/// definition header; `None` when input ends first.
pub open spec fn spec_to_colon(s: Seq<char>, cur: Option<(Result<Token, ()>, int, int)>) -> Option<
    (Result<Token, ()>, int, int),
>
    decreases spec_cur_measure(s, cur),
    via spec_to_colon_dec
{
    if !spec_cur_wf(s, cur) {
        None
    } else {
        match cur {
            None => None,
            Some((t, a, e)) => if t == Ok::<Token, ()>(Token::Colon) {
                cur
            } else {
                spec_to_colon(s, spec_next_token(s, e))
            },
        }
    }
}

#[via_fn]
proof fn spec_to_colon_dec(s: Seq<char>, cur: Option<(Result<Token, ()>, int, int)>) {
    if spec_cur_wf(s, cur) {
        match cur {
            Some((t, a, e)) => {
                lemma_next_token_bounds(s, e);
            },
            None => {},
        }
    }
}

/// The colon search leaves a well-formed pending token at or beyond where it
/// began.
pub proof fn lemma_to_colon_props(s: Seq<char>, cur: Option<(Result<Token, ()>, int, int)>)
    requires
        spec_cur_wf(s, cur),
    ensures
        spec_cur_wf(s, spec_to_colon(s, cur)),
        spec_cpos(s, cur) <= spec_cpos(s, spec_to_colon(s, cur)) <= s.len(),
    decreases spec_cur_measure(s, cur),
{
    match cur {
        Some((t, a, e)) => {
            lemma_next_token_bounds(s, e);
            if t != Ok::<Token, ()>(Token::Colon) {
                lemma_to_colon_props(s, spec_next_token(s, e));
            }
        },
        None => {},
    }
}

/// The docstring span a `Text` token with span `[a, e)` opens, if any: when
/// its text begins with a triple-quote delimiter, the raw source is searched
/// from `a + 3` for the same delimiter, and the span runs through that
/// closing delimiter; an unterminated literal yields no docstring.
pub open spec fn spec_doc_at(s: Seq<char>, a: int, e: int) -> Option<(int, int)> {
    let q3 = ("\"\"\"")@;
    let a3 = ("'''")@;
    if e - a >= 3 && occurs_at(s, q3, a) {
        match spec_find_from(s, q3, a + 3) {
            Some(j) => Some((a, j + 3)),
            None => None,
        }
    } else if e - a >= 3 && occurs_at(s, a3, a) {
        match spec_find_from(s, a3, a + 3) {
            Some(j) => Some((a, j + 3)),
            None => None,
        }
    } else {
        None
    }
}

/// The docstring search from the pending token `cur`: at the first `Text`
/// token it yields that token's docstring span, if any, and the position
/// after the token; `None` when input ends first, in which case the scan
/// found no function to report.
pub open spec fn spec_doc_phase(s: Seq<char>, cur: Option<(Result<Token, ()>, int, int)>) -> Option<
    (Option<(int, int)>, int),
>
    decreases spec_cur_measure(s, cur),
    via spec_doc_phase_dec
{
    if !spec_cur_wf(s, cur) {
        None
    } else {
        match cur {
            None => None,
            Some((t, a, e)) => if t == Ok::<Token, ()>(Token::Text) {
                Some((spec_doc_at(s, a, e), e))
            } else {
                spec_doc_phase(s, spec_next_token(s, e))
            },
        }
    }
}

#[via_fn]
proof fn spec_doc_phase_dec(s: Seq<char>, cur: Option<(Result<Token, ()>, int, int)>) {
    if spec_cur_wf(s, cur) {
        match cur {
            Some((t, a, e)) => {
                lemma_next_token_bounds(s, e);
            },
            None => {},
        }
    }
}

/// The docstring search reports a position at or beyond where it began.
pub proof fn lemma_doc_phase_props(s: Seq<char>, cur: Option<(Result<Token, ()>, int, int)>)
    requires
        spec_cur_wf(s, cur),
    ensures
        match spec_doc_phase(s, cur) {
            Some((doc, resume)) => spec_cpos(s, cur) <= resume <= s.len() && cur is Some,
            None => true,
        },
    decreases spec_cur_measure(s, cur),
{
    match cur {
        Some((t, a, e)) => {
            lemma_next_token_bounds(s, e);
            if t != Ok::<Token, ()>(Token::Text) {
                lemma_doc_phase_props(s, spec_next_token(s, e));
            }
        },
        None => {},
    }
}

/// What the scan yields once a `def` keyword was consumed at position `pos`:
/// the next token's text is the function's name, the token after it (the
/// opening parenthesis) is skipped, the parameter list is scanned, the
/// header's closing `:` is sought, and the docstring is read off the first
/// `Text` token after it. The result carries the name, the parameters, the
/// docstring span and the position the scan resumes at.
pub open spec fn spec_def_body(s: Seq<char>, pos: int, skip_variadic: bool) -> Option<
    (Seq<char>, Seq<(Seq<char>, Option<Seq<char>>)>, Option<(int, int)>, int),
> {
    match spec_next_token(s, pos) {
        None => None,
        Some((t1, a1, e1)) => {
            let name = s.subrange(a1, e1);
            match spec_next_token(s, e1) {
                None => None,
                Some((t2, a2, e2)) => match spec_params_phase(
                    s,
                    spec_next_token(s, e2),
                    skip_variadic,
                ) {
                    None => None,
                    Some((ps, pend)) => match spec_doc_phase(s, spec_to_colon(s, pend)) {
                        None => None,
                        Some((doc, resume)) => Some((name, ps, doc, resume)),
                    },
                },
            }
        },
    }
}

/// What `get_next_function_info` returns when the scan starts at `i`: the
/// next function introduced by a `def` token, or `None` when none is found
/// before the input ends or a scan error cuts the scan short.
pub open spec fn spec_next_function(s: Seq<char>, i: int, skip_variadic: bool) -> Option<
    (Seq<char>, Seq<(Seq<char>, Option<Seq<char>>)>, Option<(int, int)>, int),
>
    decreases s.len() - i + 1,
    via spec_next_function_dec
{
    if i < 0 || i > s.len() {
        None
    } else {
        match spec_next_token(s, i) {
            None => None,
            Some((t, a, e)) => if t == Ok::<Token, ()>(Token::DefStart) {
                spec_def_body(s, e, skip_variadic)
            } else {
                spec_next_function(s, e, skip_variadic)
            },
        }
    }
}

#[via_fn]
proof fn spec_next_function_dec(s: Seq<char>, i: int, skip_variadic: bool) {
    if 0 <= i <= s.len() {
        lemma_next_token_bounds(s, i);
    }
}

/// The view of a docstring span within the source.
pub open spec fn spec_span_view(s: Seq<char>, sp: Option<(int, int)>) -> Option<Seq<char>> {
    match sp {
        Some((a, b)) => Some(s.subrange(a, b)),
        None => None,
    }
}

/// A found function's resume position lies strictly beyond where the scan
/// started.
pub proof fn lemma_next_function_props(s: Seq<char>, i: int, skip_variadic: bool)
    requires
        0 <= i <= s.len(),
    ensures
        match spec_next_function(s, i, skip_variadic) {
            Some((nm, ps, doc, resume)) => i < resume <= s.len(),
            None => true,
        },
    decreases s.len() - i + 1,
{
    lemma_next_token_bounds(s, i);
    match spec_next_token(s, i) {
        Some((t, a, e)) => {
            if t == Ok::<Token, ()>(Token::DefStart) {
                lemma_next_token_bounds(s, e);
                match spec_next_token(s, e) {
                    Some((t1, a1, e1)) => {
                        lemma_next_token_bounds(s, e1);
                        match spec_next_token(s, e1) {
                            Some((t2, a2, e2)) => {
                                lemma_next_token_bounds(s, e2);
                                let c0 = spec_next_token(s, e2);
                                lemma_params_phase_props(s, c0, skip_variadic);
                                match spec_params_phase(s, c0, skip_variadic) {
                                    Some((ps, pend)) => {
                                        lemma_to_colon_props(s, pend);
                                        lemma_doc_phase_props(s, spec_to_colon(s, pend));
                                    },
                                    None => {},
                                }
                            },
                            None => {},
                        }
                    },
                    None => {},
                }
            } else {
                lemma_next_function_props(s, e, skip_variadic);
            }
        },
        None => {},
    }
}

/// Every parameter the scan keeps passed the filter: never the receiver
/// `self`, and never a `*`-led name when variadic parameters are skipped.
#[verifier::rlimit(60)]
pub proof fn lemma_params_phase_filters(
    s: Seq<char>,
    cur: Option<(Result<Token, ()>, int, int)>,
    skip_variadic: bool,
)
    requires
        spec_cur_wf(s, cur),
    ensures
        match spec_params_phase(s, cur, skip_variadic) {
            Some(pp) => forall|i: int|
                0 <= i < pp.0.len() ==> spec_keep_param((#[trigger] pp.0[i]).0, skip_variadic),
            None => true,
        },
    decreases spec_cur_measure(s, cur),
{
    match cur {
        Some((t, a, e)) => {
            lemma_next_token_bounds(s, e);
            match spec_next_token(s, e) {
                Some((t1, a1, e1)) => {
                    lemma_next_token_bounds(s, e1);
                    lemma_params_phase_filters(s, spec_next_token(s, e1), skip_variadic);
                    let pre = spec_consume_one(s, e1);
                    lemma_extract_content_advances(s, pre.0, pre.1, 0, 0, 0);
                    match spec_extract_content(s, pre.0, pre.1, 0, 0, 0) {
                        Some((typ, fin, e2)) => {
                            lemma_next_token_bounds(s, e2);
                            lemma_params_phase_filters(s, spec_next_token(s, e2), skip_variadic);
                            let pre2 = spec_consume_one(s, e2);
                            lemma_extract_content_advances(s, pre2.0, pre2.1, 0, 0, 0);
                            match spec_extract_content(s, pre2.0, pre2.1, 0, 0, 0) {
                                Some((dflt, fin2, e3)) => {
                                    lemma_next_token_bounds(s, e3);
                                    lemma_params_phase_filters(
                                        s,
                                        spec_next_token(s, e3),
                                        skip_variadic,
                                    );
                                },
                                None => {},
                            }
                        },
                        None => {},
                    }
                },
                None => {
                    lemma_params_phase_filters(s, spec_next_token(s, s.len() as int), skip_variadic);
                },
            }
        },
        None => {},
    }
}

/// Every parameter `spec_next_function` reports passed the filter: the
/// receiver `self` is excluded, and with variadic skipping on so is every
/// `*`-led name.
pub proof fn lemma_next_function_filters(s: Seq<char>, i: int, skip_variadic: bool)
    requires
        0 <= i <= s.len(),
    ensures
        match spec_next_function(s, i, skip_variadic) {
            Some((nm, ps, doc, resume)) => forall|j: int|
                0 <= j < ps.len() ==> spec_keep_param((#[trigger] ps[j]).0, skip_variadic),
            None => true,
        },
    decreases s.len() - i + 1,
{
    lemma_next_token_bounds(s, i);
    match spec_next_token(s, i) {
        Some((t, a, e)) => {
            if t == Ok::<Token, ()>(Token::DefStart) {
                lemma_next_token_bounds(s, e);
                match spec_next_token(s, e) {
                    Some((t1, a1, e1)) => {
                        lemma_next_token_bounds(s, e1);
                        match spec_next_token(s, e1) {
                            Some((t2, a2, e2)) => {
                                lemma_next_token_bounds(s, e2);
                                lemma_params_phase_filters(
                                    s,
                                    spec_next_token(s, e2),
                                    skip_variadic,
                                );
                            },
                            None => {},
                        }
                    },
                    None => {},
                }
            } else {
                lemma_next_function_filters(s, e, skip_variadic);
            }
        },
        None => {},
    }
}

/// The scanner state agrees with a pending token: `current` is the token
/// just dealt with its span recorded, or input was exhausted.
pub open spec fn spec_cur_match<'a>(
    lx: Lexer<'a>,
    current: Option<Result<Token, ()>>,
    cur: Option<(Result<Token, ()>, int, int)>,
) -> bool {
    match cur {
        None => current is None && lx.pos == lx.len && lx.start == lx.len && lx.end == lx.len,
        Some((t, a, e)) => current == Some(t) && lx.start as int == a && lx.end as int == e
            && lx.pos as int == e,
    }
}

/// Scans forward for the next `def` and reads that function's name,
/// parameter list and docstring span, as `spec_next_function` gives them.
/// The parameter list is written into the reusable `params` buffer, which
/// the returned record borrows. Returns `None`, with the buffer left empty,
/// when no further function is found or a scan error cuts the scan short.
#[verifier::rlimit(100)]
pub fn get_next_function_info<'a, 'b>(
    lexer: &mut Lexer<'a>,
    params: &'b mut Vec<(&'a str, Option<&'a str>)>,
    skip_args_and_kwargs: bool,
) -> (r: Option<FunctionInfo<'a, 'b>>)
    requires
        old(lexer).wf(),
    ensures
        final(lexer).wf(),
        final(lexer).src == old(lexer).src,
        final(lexer).len == old(lexer).len,
        match spec_next_function(old(lexer).src@, old(lexer).pos as int, skip_args_and_kwargs) {
            None => r is None && final(params)@.len() == 0,
            Some((nm, ps, doc, resume)) => match r {
                Some(info) => params_view(final(params)@) == ps && info.params@ == final(params)@
                    && opt_str_view(info.docstring) == spec_span_view(old(lexer).src@, doc) && (
                match info.function_name {
                    FunctionLocation::Name(x) => x@ == nm,
                    _ => false,
                }) && final(lexer).pos as int == resume,
                None => false,
            },
        },
{
    params.clear();
    let ghost s = old(lexer).src@;
    let src = lexer.source();
    loop
        invariant
            lexer.wf(),
            lexer.src == old(lexer).src,
            lexer.len == old(lexer).len,
            s == lexer.src@,
            src == lexer.src,
            params@.len() == 0,
            spec_next_function(s, old(lexer).pos as int, skip_args_and_kwargs)
                == spec_next_function(s, lexer.pos as int, skip_args_and_kwargs),
        decreases lexer.len - lexer.pos,
    {
        let ghost p_before = lexer.pos as int;
        proof {
            lemma_next_token_bounds(s, p_before);
        }
        let t = lexer.next();
        if (match t {
            None => true,
            _ => false,
        }) {
            assert(spec_next_function(s, p_before, skip_args_and_kwargs) is None);
            return None;
        }
        if (match t {
            Some(Ok(Token::DefStart)) => true,
            _ => false,
        }) {
            // `def` found: read the name, skip the parenthesis, and scan.
            let ghost p_def = lexer.pos as int;
            let ghost ntk = spec_next_token(s, p_def);
            proof {
                lemma_next_token_bounds(s, p_def);
                assert(spec_next_function(s, p_before, skip_args_and_kwargs) == spec_def_body(
                    s,
                    p_def,
                    skip_args_and_kwargs,
                ));
            }
            lexer.next();
            let name_slice = lexer.slice();
            let ghost gname0 = match ntk {
                Some((t1, a1, e1)) => s.subrange(a1, e1),
                None => Seq::<char>::empty(),
            };
            let ghost q1 = lexer.pos as int;
            let ghost ptk = spec_next_token(s, q1);
            proof {
                lemma_next_token_bounds(s, q1);
            }
            lexer.next();
            let ghost q2 = lexer.pos as int;
            proof {
                lemma_next_token_bounds(s, q2);
            }
            let mut current = lexer.next();
            let ghost mut gcur = spec_next_token(s, q2);
            let ghost c0 = gcur;
            proof {
                assert(spec_cur_match(*lexer, current, gcur));
                assert(spec_cur_wf(s, gcur));
                if ntk is None {
                    assert(c0 is None);
                    assert(spec_def_body(s, p_def, skip_args_and_kwargs) is None);
                }
                if ntk is Some && ptk is None {
                    assert(c0 is None);
                    assert(spec_def_body(s, p_def, skip_args_and_kwargs) is None);
                }
                assert(spec_def_body(s, p_def, skip_args_and_kwargs) == (
                match spec_params_phase(s, c0, skip_args_and_kwargs) {
                    None => None,
                    Some(pp) => match spec_doc_phase(s, spec_to_colon(s, pp.1)) {
                        None => None,
                        Some(dr) => Some((gname0, pp.0, dr.0, dr.1)),
                    },
                }));
            }
            // the parameter list
            loop
                invariant_except_break
                    spec_cur_match(*lexer, current, gcur),
                    match spec_params_phase(s, gcur, skip_args_and_kwargs) {
                        None => spec_params_phase(s, c0, skip_args_and_kwargs) is None,
                        Some(pp) => spec_params_phase(s, c0, skip_args_and_kwargs) == Some(
                            (params_view(params@) + pp.0, pp.1),
                        ),
                    },
                invariant
                    lexer.wf(),
                    lexer.src == old(lexer).src,
                    lexer.len == old(lexer).len,
                    s == lexer.src@,
                    src == lexer.src,
                    spec_cur_wf(s, gcur),
                    spec_next_function(s, old(lexer).pos as int, skip_args_and_kwargs)
                        == spec_def_body(s, p_def, skip_args_and_kwargs),
                    spec_def_body(s, p_def, skip_args_and_kwargs) == (
                    match spec_params_phase(s, c0, skip_args_and_kwargs) {
                        None => None,
                        Some(pp) => match spec_doc_phase(s, spec_to_colon(s, pp.1)) {
                            None => None,
                            Some(dr) => Some((gname0, pp.0, dr.0, dr.1)),
                        },
                    }),
                    spec_def_body(s, p_def, skip_args_and_kwargs) is Some ==> gname0
                        == name_slice@,
                ensures
                    lexer.wf(),
                    lexer.src == old(lexer).src,
                    lexer.len == old(lexer).len,
                    s == lexer.src@,
                    src == lexer.src,
                    spec_cur_match(*lexer, current, gcur),
                    spec_cur_wf(s, gcur),
                    spec_params_phase(s, c0, skip_args_and_kwargs) == Some(
                        (params_view(params@), gcur),
                    ),
                decreases spec_cur_measure(s, gcur),
            {
                let is_text_tok = match current {
                    Some(Ok(Token::Text)) => true,
                    _ => false,
                };
                if !is_text_tok {
                    proof {
                        assert(spec_params_phase(s, gcur, skip_args_and_kwargs) == Some((
                            Seq::<(Seq<char>, Option<Seq<char>>)>::empty(),
                            gcur,
                        )));
                        assert(params_view(params@) + Seq::<
                            (Seq<char>, Option<Seq<char>>),
                        >::empty() =~= params_view(params@));
                    }
                    break;
                }
                let ghost gprev = gcur;
                let param_name = lexer.slice();
                let ghost gname = param_name@;
                let ghost e_cur = lexer.pos as int;
                proof {
                    lemma_next_token_bounds(s, e_cur);
                }
                let nxt = lexer.next();
                let ghost gnxt = spec_next_token(s, e_cur);
                let keep = {
                    let nlen = param_name.unicode_len();
                    !crate::text::str_eq(param_name, "self") && !(skip_args_and_kwargs && nlen > 0
                        && param_name.get_char(0) == '*')
                };
                proof {
                    reveal_strlit("self");
                }
                assert(keep == spec_keep_param(gname, skip_args_and_kwargs));
                let is_colon = match nxt {
                    Some(Ok(Token::Colon)) => true,
                    _ => false,
                };
                let is_equals = match nxt {
                    Some(Ok(Token::Equals)) => true,
                    _ => false,
                };
                if is_colon {
                    let ghost e1 = lexer.pos as int;
                    proof {
                        lemma_next_token_bounds(s, e1);
                    }
                    lexer.next();
                    let ghost pre = spec_consume_one(s, e1);
                    let er = extract_possibly_parenthesized_content(lexer);
                    let ghost ex = spec_extract_content(s, pre.0, pre.1, 0, 0, 0);
                    proof {
                        lemma_extract_content_advances(s, pre.0, pre.1, 0, 0, 0);
                    }
                    match er {
                        None => {
                            proof {
                                assert(ex is None);
                                assert(spec_params_phase(s, gprev, skip_args_and_kwargs) is None);
                            }
                            params.clear();
                            return None;
                        },
                        Some(ty_fin) => {
                            let typ = ty_fin.0;
                            let fin = ty_fin.1;
                            let ghost pv0 = params_view(params@);
                            if keep {
                                proof {
                                    lemma_params_view_push(params@, (param_name, Some(typ)));
                                }
                                params.push((param_name, Some(typ)));
                            }
                            let ghost entry = spec_param_entry(
                                gname,
                                Some(typ@),
                                skip_args_and_kwargs,
                            );
                            proof {
                                assert(params_view(params@) =~= pv0 + entry);
                            }
                            let ghost eafter = lexer.pos as int;
                            let is_fin_equals = match fin {
                                FinishedOn::Equals => true,
                                _ => false,
                            };
                            let is_fin_close = match fin {
                                FinishedOn::ParClose => true,
                                _ => false,
                            };
                            if is_fin_equals {
                                let ghost e2d = lexer.pos as int;
                                proof {
                                    lemma_next_token_bounds(s, e2d);
                                }
                                lexer.next();
                                let ghost pre2 = spec_consume_one(s, e2d);
                                let er2 = extract_possibly_parenthesized_content(lexer);
                                let ghost ex2 = spec_extract_content(s, pre2.0, pre2.1, 0, 0, 0);
                                proof {
                                    lemma_extract_content_advances(s, pre2.0, pre2.1, 0, 0, 0);
                                }
                                match er2 {
                                    None => {
                                        proof {
                                            assert(ex2 is None);
                                            assert(spec_params_phase(
                                                s,
                                                gprev,
                                                skip_args_and_kwargs,
                                            ) is None);
                                        }
                                        params.clear();
                                        return None;
                                    },
                                    Some(d_fin2) => {
                                        let ghost e3 = lexer.pos as int;
                                        let is_fin2_close = match d_fin2.1 {
                                            FinishedOn::ParClose => true,
                                            _ => false,
                                        };
                                        proof {
                                            lemma_next_token_bounds(s, e3);
                                        }
                                        current = lexer.next();
                                        proof {
                                            gcur = spec_next_token(s, e3);
                                        }
                                        if is_fin2_close {
                                            proof {
                                                assert(spec_params_phase(
                                                    s,
                                                    gprev,
                                                    skip_args_and_kwargs,
                                                ) == Some((entry, gcur)));
                                                assert(pv0 + (entry
                                                    + Seq::<(Seq<char>, Option<Seq<char>>)>::empty())
                                                    =~= params_view(params@));
                                                assert(spec_params_phase(
                                                    s,
                                                    c0,
                                                    skip_args_and_kwargs,
                                                ) == Some((params_view(params@), gcur)));
                                            }
                                            break;
                                        } else {
                                            proof {
                                                match spec_params_phase(
                                                    s,
                                                    gcur,
                                                    skip_args_and_kwargs,
                                                ) {
                                                    None => {
                                                        assert(spec_params_phase(
                                                            s,
                                                            gprev,
                                                            skip_args_and_kwargs,
                                                        ) is None);
                                                    },
                                                    Some(pp) => {
                                                        assert(spec_params_phase(
                                                            s,
                                                            gprev,
                                                            skip_args_and_kwargs,
                                                        ) == Some((entry + pp.0, pp.1)));
                                                        assert(pv0 + (entry + pp.0) =~= (pv0
                                                            + entry) + pp.0);
                                                    },
                                                }
                                            }
                                        }
                                    },
                                }
                            } else if is_fin_close {
                                proof {
                                    lemma_next_token_bounds(s, eafter);
                                }
                                current = lexer.next();
                                proof {
                                    gcur = spec_next_token(s, eafter);
                                    assert(spec_params_phase(s, gprev, skip_args_and_kwargs)
                                        == Some((entry, gcur)));
                                    assert(pv0 + (entry + Seq::<
                                        (Seq<char>, Option<Seq<char>>),
                                    >::empty()) =~= params_view(params@));
                                    assert(spec_params_phase(s, c0, skip_args_and_kwargs) == Some(
                                        (params_view(params@), gcur),
                                    ));
                                }
                                break;
                            } else {
                                proof {
                                    lemma_next_token_bounds(s, eafter);
                                }
                                current = lexer.next();
                                proof {
                                    gcur = spec_next_token(s, eafter);
                                    match spec_params_phase(s, gcur, skip_args_and_kwargs) {
                                        None => {
                                            assert(spec_params_phase(
                                                s,
                                                gprev,
                                                skip_args_and_kwargs,
                                            ) is None);
                                        },
                                        Some(pp) => {
                                            assert(spec_params_phase(
                                                s,
                                                gprev,
                                                skip_args_and_kwargs,
                                            ) == Some((entry + pp.0, pp.1)));
                                            assert(pv0 + (entry + pp.0) =~= (pv0 + entry) + pp.0);
                                        },
                                    }
                                }
                            }
                        },
                    }
                } else if is_equals {
                    let ghost e1 = lexer.pos as int;
                    proof {
                        lemma_next_token_bounds(s, e1);
                    }
                    lexer.next();
                    let ghost pre = spec_consume_one(s, e1);
                    let er = extract_possibly_parenthesized_content(lexer);
                    let ghost ex = spec_extract_content(s, pre.0, pre.1, 0, 0, 0);
                    proof {
                        lemma_extract_content_advances(s, pre.0, pre.1, 0, 0, 0);
                    }
                    match er {
                        None => {
                            proof {
                                assert(ex is None);
                                assert(spec_params_phase(s, gprev, skip_args_and_kwargs) is None);
                            }
                            params.clear();
                            return None;
                        },
                        Some(d_fin) => {
                            let ghost pv0 = params_view(params@);
                            if keep {
                                proof {
                                    lemma_params_view_push(params@, (param_name, None));
                                }
                                params.push((param_name, None));
                            }
                            let ghost entry = spec_param_entry(gname, None, skip_args_and_kwargs);
                            proof {
                                assert(params_view(params@) =~= pv0 + entry);
                            }
                            let ghost eafter = lexer.pos as int;
                            let is_fin_close = match d_fin.1 {
                                FinishedOn::ParClose => true,
                                _ => false,
                            };
                            proof {
                                lemma_next_token_bounds(s, eafter);
                            }
                            current = lexer.next();
                            proof {
                                gcur = spec_next_token(s, eafter);
                            }
                            if is_fin_close {
                                proof {
                                    assert(spec_params_phase(s, gprev, skip_args_and_kwargs)
                                        == Some((entry, gcur)));
                                    assert(pv0 + (entry + Seq::<
                                        (Seq<char>, Option<Seq<char>>),
                                    >::empty()) =~= params_view(params@));
                                    assert(spec_params_phase(s, c0, skip_args_and_kwargs) == Some(
                                        (params_view(params@), gcur),
                                    ));
                                }
                                break;
                            } else {
                                proof {
                                    match spec_params_phase(s, gcur, skip_args_and_kwargs) {
                                        None => {
                                            assert(spec_params_phase(
                                                s,
                                                gprev,
                                                skip_args_and_kwargs,
                                            ) is None);
                                        },
                                        Some(pp) => {
                                            assert(spec_params_phase(
                                                s,
                                                gprev,
                                                skip_args_and_kwargs,
                                            ) == Some((entry + pp.0, pp.1)));
                                            assert(pv0 + (entry + pp.0) =~= (pv0 + entry) + pp.0);
                                        },
                                    }
                                }
                            }
                        },
                    }
                } else {
                    // a bare name: keep it and read on
                    let ghost pv0 = params_view(params@);
                    if keep {
                        proof {
                            lemma_params_view_push(params@, (param_name, None));
                        }
                        params.push((param_name, None));
                    }
                    let ghost entry = spec_param_entry(gname, None, skip_args_and_kwargs);
                    proof {
                        assert(params_view(params@) =~= pv0 + entry);
                    }
                    let ghost epos = lexer.pos as int;
                    proof {
                        lemma_next_token_bounds(s, epos);
                        assert(epos == (match gnxt {
                            None => s.len() as int,
                            Some((t1x, a1x, e1x)) => e1x,
                        }));
                    }
                    current = lexer.next();
                    proof {
                        gcur = spec_next_token(s, epos);
                        match spec_params_phase(s, gcur, skip_args_and_kwargs) {
                            None => {
                                assert(spec_params_phase(s, gprev, skip_args_and_kwargs) is None);
                            },
                            Some(pp) => {
                                assert(spec_params_phase(s, gprev, skip_args_and_kwargs) == Some(
                                    (entry + pp.0, pp.1),
                                ));
                                assert(pv0 + (entry + pp.0) =~= (pv0 + entry) + pp.0);
                            },
                        }
                    }
                }
            }
            // seek the colon that closes the definition header
            loop
                invariant_except_break
                    spec_cur_match(*lexer, current, gcur),
                invariant
                    lexer.wf(),
                    lexer.src == old(lexer).src,
                    lexer.len == old(lexer).len,
                    s == lexer.src@,
                    src == lexer.src,
                    spec_cur_wf(s, gcur),
                    spec_next_function(s, old(lexer).pos as int, skip_args_and_kwargs)
                        == spec_def_body(s, p_def, skip_args_and_kwargs),
                    spec_def_body(s, p_def, skip_args_and_kwargs) == (
                    match spec_doc_phase(s, spec_to_colon(s, gcur)) {
                        None => None,
                        Some(dr) => Some((gname0, params_view(params@), dr.0, dr.1)),
                    }),
                    spec_def_body(s, p_def, skip_args_and_kwargs) is Some ==> gname0
                        == name_slice@,
                ensures
                    lexer.wf(),
                    lexer.src == old(lexer).src,
                    lexer.len == old(lexer).len,
                    s == lexer.src@,
                    src == lexer.src,
                    spec_cur_match(*lexer, current, gcur),
                    spec_cur_wf(s, gcur),
                    spec_def_body(s, p_def, skip_args_and_kwargs) == (
                    match spec_doc_phase(s, gcur) {
                        None => None,
                        Some(dr) => Some((gname0, params_view(params@), dr.0, dr.1)),
                    }),
                decreases spec_cur_measure(s, gcur),
            {
                let at_end = match current {
                    None => true,
                    _ => false,
                };
                if at_end {
                    proof {
                        assert(spec_to_colon(s, gcur) == gcur);
                    }
                    break;
                }
                let is_colon_tok = match current {
                    Some(Ok(Token::Colon)) => true,
                    _ => false,
                };
                if is_colon_tok {
                    proof {
                        assert(spec_to_colon(s, gcur) == gcur);
                    }
                    break;
                }
                let ghost epos = lexer.pos as int;
                proof {
                    lemma_next_token_bounds(s, epos);
                    assert(spec_to_colon(s, gcur) == spec_to_colon(s, spec_next_token(s, epos)));
                }
                current = lexer.next();
                proof {
                    gcur = spec_next_token(s, epos);
                }
            }
            // the docstring: the first text token after the header
            loop
                invariant_except_break
                    true,
                invariant
                    lexer.wf(),
                    lexer.src == old(lexer).src,
                    lexer.len == old(lexer).len,
                    s == lexer.src@,
                    src == lexer.src,
                    spec_cur_match(*lexer, current, gcur),
                    spec_cur_wf(s, gcur),
                    spec_next_function(s, old(lexer).pos as int, skip_args_and_kwargs)
                        == spec_def_body(s, p_def, skip_args_and_kwargs),
                    spec_def_body(s, p_def, skip_args_and_kwargs) == (
                    match spec_doc_phase(s, gcur) {
                        None => None,
                        Some(dr) => Some((gname0, params_view(params@), dr.0, dr.1)),
                    }),
                    spec_def_body(s, p_def, skip_args_and_kwargs) is Some ==> gname0
                        == name_slice@,
                decreases spec_cur_measure(s, gcur),
            {
                let at_end = match current {
                    None => true,
                    _ => false,
                };
                if at_end {
                    proof {
                        assert(spec_doc_phase(s, gcur) is None);
                    }
                    params.clear();
                    return None;
                }
                let is_text_tok = match current {
                    Some(Ok(Token::Text)) => true,
                    _ => false,
                };
                if is_text_tok {
                    let dstart = lexer.start;
                    let dend = lexer.end;
                    let dslice = lexer.slice();
                    let ghost ga = dstart as int;
                    let ghost ge = dend as int;
                    proof {
                        reveal_strlit("\"\"\"");
                        reveal_strlit("'''");
                    }
                    let docstring: Option<&'a str> = if crate::text::starts_with_sub(
                        dslice,
                        "\"\"\"",
                    ) {
                        proof {
                            assert(s.subrange(ga, ge).subrange(0, 3) =~= s.subrange(ga, ga + 3));
                        }
                        match find_sub_from(src, "\"\"\"", dstart + 3) {
                            Some(j) => Some(src.substring_char(dstart, j + 3)),
                            None => None,
                        }
                    } else if crate::text::starts_with_sub(dslice, "'''") {
                        proof {
                            assert(s.subrange(ga, ge).subrange(0, 3) =~= s.subrange(ga, ga + 3));
                        }
                        match find_sub_from(src, "'''", dstart + 3) {
                            Some(j) => Some(src.substring_char(dstart, j + 3)),
                            None => None,
                        }
                    } else {
                        proof {
                            if ge - ga >= 3 && occurs_at(s, ("\"\"\"")@, ga) {
                                assert(s.subrange(ga, ge).subrange(0, 3) =~= s.subrange(
                                    ga,
                                    ga + 3,
                                ));
                            }
                            if ge - ga >= 3 && occurs_at(s, ("'''")@, ga) {
                                assert(s.subrange(ga, ge).subrange(0, 3) =~= s.subrange(
                                    ga,
                                    ga + 3,
                                ));
                            }
                        }
                        None
                    };
                    proof {
                        assert(opt_str_view(docstring) == spec_span_view(s, spec_doc_at(s, ga, ge)));
                        assert(spec_doc_phase(s, gcur) == Some((spec_doc_at(s, ga, ge), ge)));
                    }
                    let info_params = params.as_slice();
                    return Some(
                        FunctionInfo {
                            params: info_params,
                            docstring,
                            function_name: FunctionLocation::Name(name_slice),
                        },
                    );
                }
                let ghost epos = lexer.pos as int;
                proof {
                    lemma_next_token_bounds(s, epos);
                    assert(spec_doc_phase(s, gcur) == spec_doc_phase(s, spec_next_token(s, epos)));
                }
                current = lexer.next();
                proof {
                    gcur = spec_next_token(s, epos);
                }
            }
        }
        proof {
            assert(spec_next_function(s, p_before, skip_args_and_kwargs) == spec_next_function(
                s,
                lexer.pos as int,
                skip_args_and_kwargs,
            ));
        }
    }
}

/// The functions the scan reads off a file from `i` on: each one's name,
/// parameter list and docstring span, in scan order; the list ends at the
/// end of input or at a scan error.
pub open spec fn spec_lex_file_sigs(s: Seq<char>, i: int, skip_variadic: bool) -> Seq<
    (Seq<char>, Seq<(Seq<char>, Option<Seq<char>>)>, Option<(int, int)>),
>
    decreases s.len() - i + 1,
    via spec_lex_file_sigs_dec
{
    if i < 0 || i > s.len() {
        Seq::empty()
    } else {
        match spec_next_function(s, i, skip_variadic) {
            None => Seq::empty(),
            Some((nm, ps, doc, resume)) => seq![(nm, ps, doc)] + spec_lex_file_sigs(
                s,
                resume,
                skip_variadic,
            ),
        }
    }
}

#[via_fn]
proof fn spec_lex_file_sigs_dec(s: Seq<char>, i: int, skip_variadic: bool) {
    if 0 <= i <= s.len() {
        lemma_next_function_props(s, i, skip_variadic);
    }
}

impl Token {
    /// A fresh scanner over `source`, dealing these tokens.
    pub fn lexer<'a>(source: &'a str) -> (r: Lexer<'a>)
        ensures
            r.wf(),
            r.src == source,
            r.pos == 0,
    {
        Lexer::new(source)
    }
}

} // verus!
