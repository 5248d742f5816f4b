//! The docstring section parsers: given a docstring's text, extract the
//! ordered parameter list its `Args:` (Google convention) or `Parameters`
//! (NumPy convention) section declares, and the docstring literal extractor.
//!
//! Each parser's result is pinned to a specification model that walks the
//! section line by line, so the returned list is exactly the section's
//! entries in line order.

use vstd::prelude::*;
use vstd::string::StrSliceExecFns;

use crate::text::{
    all_blank_below, ends_with_sub, find_header_sub, find_sub, find_sub_from, is_space,
    is_space_char, occurs_at, skip_ws_from, spec_at_line_head, spec_find, spec_find_from,
    spec_find_header, spec_skip_ws, spec_trim, starts_with_sub, trim_slice,
};

verus! {

/// The view of an optional borrowed string.
pub open spec fn opt_str_view(t: Option<&str>) -> Option<Seq<char>> {
    match t {
        Some(x) => Some(x@),
        None => None,
    }
}

/// The view of a parameter list: each name and optional type as a character
/// sequence.
pub open spec fn params_view(ps: Seq<(&str, Option<&str>)>) -> Seq<(Seq<char>, Option<Seq<char>>)> {
    Seq::new(ps.len(), |i: int| (ps[i].0@, opt_str_view(ps[i].1)))
}

pub proof fn lemma_params_view_push(ps: Seq<(&str, Option<&str>)>, p: (&str, Option<&str>))
    ensures
        params_view(ps.push(p)) =~= params_view(ps).push((p.0@, opt_str_view(p.1))),
{
}

/// `s` truncated at the first occurrence of `pat`, if there is one.
pub open spec fn spec_cut(s: Seq<char>, pat: Seq<char>) -> Seq<char> {
    match spec_find(s, pat) {
        Some(c) => s.subrange(0, c),
        None => s,
    }
}

/// `s` truncated at the first occurrence of `pat` that stands at a line
/// head, if there is one: a section header ends the section only where it
/// stands as its own line, its indentation aside.
pub open spec fn spec_cut_header(s: Seq<char>, pat: Seq<char>) -> Seq<char> {
    match spec_find_header(s, pat) {
        Some(c) => s.subrange(0, c),
        None => s,
    }
}

/// Index of the first line break of `s` (`s.len()` when there is none).
pub open spec fn spec_line_end(s: Seq<char>) -> int {
    match spec_find(s, ("\n")@) {
        Some(i) => i,
        None => s.len() as int,
    }
}

/// The first line of `s`, without the line break and without a carriage
/// return directly before it.
pub open spec fn spec_line(s: Seq<char>) -> Seq<char> {
    let raw = s.subrange(0, spec_line_end(s));
    if spec_line_end(s) < s.len() && raw.len() > 0 && raw.last() == '\r' {
        raw.drop_last()
    } else {
        raw
    }
}

/// What follows the first line of `s`.
pub open spec fn spec_rest_lines(s: Seq<char>) -> Seq<char> {
    if spec_line_end(s) < s.len() {
        s.subrange(spec_line_end(s) + 1, s.len() as int)
    } else {
        Seq::empty()
    }
}

/// The first line break splits off at least one character.
pub proof fn lemma_rest_lines_shorter(s: Seq<char>)
    requires
        s.len() > 0,
    ensures
        spec_rest_lines(s).len() < s.len(),
        spec_line(s).len() < s.len() || spec_line_end(s) == s.len(),
{
    lemma_find_from_nonneg(s, ("\n")@, 0);
}

proof fn lemma_find_from_nonneg(s: Seq<char>, pat: Seq<char>, i: int)
    requires
        0 <= i,
    ensures
        match spec_find_from(s, pat, i) {
            Some(j) => i <= j && j + pat.len() <= s.len(),
            None => true,
        },
    decreases s.len() - i + 1,
{
    if i + pat.len() > s.len() {
    } else if occurs_at(s, pat, i) {
    } else {
        lemma_find_from_nonneg(s, pat, i + 1);
    }
}

/// A line opens a new entry at indentation `ind`: blank up to column `ind`
/// and a non-blank character there.
pub open spec fn spec_is_entry_line(line: Seq<char>, ind: int) -> bool {
    ind < line.len() && !is_space_char(line[ind]) && (forall|j: int|
        0 <= j < ind ==> is_space_char(line[j]))
}

/// A type text with one leading `(` and one trailing `)` removed.
pub open spec fn spec_strip_paren(t: Seq<char>) -> Seq<char> {
    let t1 = if t.len() > 0 && t[0] == '(' {
        t.drop_first()
    } else {
        t
    };
    if t1.len() > 0 && t1.last() == ')' {
        t1.drop_last()
    } else {
        t1
    }
}

/// A type text with one trailing `, optional` marker removed.
pub open spec fn spec_strip_optional(t: Seq<char>) -> Seq<char> {
    let pat = (", optional")@;
    if t.len() >= pat.len() && occurs_at(t, pat, t.len() - pat.len()) {
        t.subrange(0, t.len() - pat.len())
    } else {
        t
    }
}

/// The documented parameter a Google-convention section line declares, if any:
/// the text before the first colon is the name, and after a space the type,
/// with parentheses and an `, optional` marker stripped.
pub open spec fn spec_google_entry(line: Seq<char>, ind: int, skip_variadic: bool) -> Option<
    (Seq<char>, Option<Seq<char>>),
> {
    if !spec_is_entry_line(line, ind) {
        None
    } else {
        match spec_find(line, (":")@) {
            None => None,
            Some(ci) => {
                let argtok = spec_trim(line.subrange(0, ci));
                if skip_variadic && argtok.len() > 0 && argtok[0] == '*' {
                    None
                } else {
                    match spec_find(argtok, (" ")@) {
                        None => Some((argtok, None)),
                        Some(si) => Some(
                            (
                                argtok.subrange(0, si),
                                Some(
                                    spec_strip_optional(
                                        spec_strip_paren(
                                            argtok.subrange(si + 1, argtok.len() as int),
                                        ),
                                    ),
                                ),
                            ),
                        ),
                    }
                }
            },
        }
    }
}

/// The entries of a Google-convention section, line by line.
pub open spec fn spec_google_entries(s: Seq<char>, ind: int, skip_variadic: bool) -> Seq<
    (Seq<char>, Option<Seq<char>>),
>
    decreases s.len(),
    via spec_google_entries_dec
{
    if s.len() == 0 {
        Seq::empty()
    } else {
        let rest = spec_google_entries(spec_rest_lines(s), ind, skip_variadic);
        match spec_google_entry(spec_line(s), ind, skip_variadic) {
            Some(p) => seq![p] + rest,
            None => rest,
        }
    }
}

#[via_fn]
proof fn spec_google_entries_dec(s: Seq<char>, ind: int, skip_variadic: bool) {
    if s.len() > 0 {
        lemma_rest_lines_shorter(s);
    }
}

/// What `parse_google_docstring` returns: the entries of the text after the
/// first `Args:` header, truncated at the first `Yields:`, `Returns:` or
/// `Raises:` header standing as its own line (and at the first blank line
/// when asked to), at the indentation of the section's first line.
pub open spec fn spec_google(text: Seq<char>, break_on_empty_line: bool, skip_variadic: bool)
    -> Option<Seq<(Seq<char>, Option<Seq<char>>)>> {
    match spec_find(text, ("Args:\n")@) {
        None => None,
        Some(i) => {
            let a0 = text.subrange(i + ("Args:\n")@.len(), text.len() as int);
            let a1 = spec_cut_header(a0, ("Yields:\n")@);
            let a2 = spec_cut_header(a1, ("Returns:\n")@);
            let a3 = spec_cut_header(a2, ("Raises:\n")@);
            let a = if break_on_empty_line {
                spec_cut(a3, ("\n\n")@)
            } else {
                a3
            };
            if a.len() == 0 {
                None
            } else {
                Some(spec_google_entries(a, spec_skip_ws(spec_line(a), 0), skip_variadic))
            }
        },
    }
}

/// `s` truncated at the first occurrence of `pat`, as `spec_cut` gives it.
fn cut_at<'a>(s: &'a str, pat: &str) -> (r: &'a str)
    requires
        pat@.len() >= 1,
    ensures
        r@ == spec_cut(s@, pat@),
{
    match find_sub(s, pat) {
        Some(c) => s.substring_char(0, c),
        None => s,
    }
}

/// `s` truncated at the first line-head occurrence of `pat`, as
/// `spec_cut_header` gives it.
fn cut_header_at<'a>(s: &'a str, pat: &str) -> (r: &'a str)
    requires
        pat@.len() >= 1,
    ensures
        r@ == spec_cut_header(s@, pat@),
{
    match find_header_sub(s, pat) {
        Some(c) => s.substring_char(0, c),
        None => s,
    }
}

/// The first line of `s` and what follows it, as `spec_line` and
/// `spec_rest_lines` give them.
fn split_line<'a>(s: &'a str, slen: usize) -> (r: (&'a str, &'a str))
    requires
        slen == s@.len(),
    ensures
        r.0@ == spec_line(s@),
        r.1@ == spec_rest_lines(s@),
{
    proof {
        reveal_strlit("\n");
    }
    let le = match find_sub_from(s, "\n", 0) {
        Some(x) => x,
        None => slen,
    };
    assert(le == spec_line_end(s@));
    let rawline = s.substring_char(0, le);
    if le < slen {
        let line = if le > 0 && rawline.get_char(le - 1) == '\r' {
            let l = s.substring_char(0, le - 1);
            assert(l@ =~= rawline@.drop_last());
            l
        } else {
            rawline
        };
        let rest = s.substring_char(le + 1, slen);
        (line, rest)
    } else {
        assert(spec_rest_lines(s@) =~= Seq::<char>::empty());
        let rest = s.substring_char(slen, slen);
        assert(rest@ =~= Seq::<char>::empty());
        (rawline, rest)
    }
}

/// The documented parameter a Google-convention section line declares, as
/// `spec_google_entry` gives it.
fn google_entry<'a>(line: &'a str, ind: usize, skip_variadic: bool) -> (r: Option<
    (&'a str, Option<&'a str>),
>)
    ensures
        match (r, spec_google_entry(line@, ind as int, skip_variadic)) {
            (Some(p), Some(sp)) => p.0@ == sp.0 && opt_str_view(p.1) == sp.1,
            (None, None) => true,
            _ => false,
        },
{
    proof {
        reveal_strlit(":");
        reveal_strlit(" ");
    }
    let llen = line.unicode_len();
    if !(ind < llen && !is_space(line.get_char(ind)) && all_blank_below(line, ind)) {
        assert(!spec_is_entry_line(line@, ind as int));
        return None;
    }
    let ci = match find_sub(line, ":") {
        None => {
            return None;
        },
        Some(c) => c,
    };
    let argtok = trim_slice(line.substring_char(0, ci));
    let alen = argtok.unicode_len();
    if skip_variadic && alen > 0 && argtok.get_char(0) == '*' {
        return None;
    }
    match find_sub(argtok, " ") {
        None => Some((argtok, None)),
        Some(si) => {
            let name = argtok.substring_char(0, si);
            let mut typ = argtok.substring_char(si + 1, alen);
            let mut tlen = alen - (si + 1);
            if tlen > 0 && typ.get_char(0) == '(' {
                let t = typ.substring_char(1, tlen);
                assert(t@ =~= typ@.drop_first());
                typ = t;
                tlen -= 1;
            }
            if tlen > 0 && typ.get_char(tlen - 1) == ')' {
                let t = typ.substring_char(0, tlen - 1);
                assert(t@ =~= typ@.drop_last());
                typ = t;
                tlen -= 1;
            }
            let plen = ", optional".unicode_len();
            if ends_with_sub(typ, ", optional") {
                typ = typ.substring_char(0, tlen - plen);
            }
            Some((name, Some(typ)))
        },
    }
}

/// Parses a Google-convention docstring into the named parameters of its
/// `Args:` section with their optional types, in the section's line order,
/// or `None` when the text has no such section.
///
/// With `break_on_empty_line` the section ends at the first blank line; with
/// `skip_args_and_kwargs` entries whose name starts with `*` are left out.
pub fn parse_google_docstring<'a>(
    text: &'a str,
    break_on_empty_line: bool,
    skip_args_and_kwargs: bool,
) -> (r: Option<Vec<(&'a str, Option<&'a str>)>>)
    ensures
        match (r, spec_google(text@, break_on_empty_line, skip_args_and_kwargs)) {
            (Some(v), Some(ps)) => params_view(v@) == ps,
            (None, None) => true,
            _ => false,
        },
{
    proof {
        reveal_strlit("Args:\n");
        reveal_strlit("Yields:\n");
        reveal_strlit("Returns:\n");
        reveal_strlit("Raises:\n");
        reveal_strlit("\n\n");
    }
    let tlen = text.unicode_len();
    let i = match find_sub(text, "Args:\n") {
        None => {
            return None;
        },
        Some(i) => i,
    };
    let mut args: &'a str = text.substring_char(i + 6, tlen);
    args = cut_header_at(args, "Yields:\n");
    args = cut_header_at(args, "Returns:\n");
    args = cut_header_at(args, "Raises:\n");
    if break_on_empty_line {
        args = cut_at(args, "\n\n");
    }
    let alen = args.unicode_len();
    if alen == 0 {
        return None;
    }
    let ghost whole = args@;
    let (first, _) = split_line(args, alen);
    let ind = skip_ws_from(first, 0);
    let ghost gind = ind as int;
    let ghost gskip = skip_args_and_kwargs;
    let mut params: Vec<(&'a str, Option<&'a str>)> = Vec::new();
    let mut cur: &'a str = args;
    let mut clen = alen;
    while clen > 0
        invariant
            clen == cur@.len(),
            gind == ind as int,
            gskip == skip_args_and_kwargs,
            params_view(params@) + spec_google_entries(cur@, gind, gskip) == spec_google_entries(
                whole,
                gind,
                gskip,
            ),
        decreases clen,
    {
        let (line, rest) = split_line(cur, clen);
        let entry = google_entry(line, ind, skip_args_and_kwargs);
        proof {
            lemma_rest_lines_shorter(cur@);
        }
        match entry {
            Some(p) => {
                proof {
                    lemma_params_view_push(params@, p);
                }
                let ghost pv = (p.0@, opt_str_view(p.1));
                params.push(p);
                proof {
                    match spec_google_entry(spec_line(cur@), gind, gskip) {
                        Some(sp) => {
                            assert(sp.0 == pv.0 && sp.1 == pv.1);
                            assert(sp == pv);
                        },
                        None => {
                            assert(false);
                        },
                    }
                    assert(spec_google_entries(cur@, gind, gskip) == seq![pv]
                        + spec_google_entries(spec_rest_lines(cur@), gind, gskip));
                    assert(params_view(params@) + spec_google_entries(rest@, gind, gskip)
                        =~= params_view(params@.drop_last()) + spec_google_entries(
                        cur@,
                        gind,
                        gskip,
                    ));
                }
            },
            None => {
                proof {
                    assert(spec_google_entry(spec_line(cur@), gind, gskip) is None);
                    assert(spec_google_entries(cur@, gind, gskip) == spec_google_entries(
                        spec_rest_lines(cur@),
                        gind,
                        gskip,
                    ));
                }
            },
        }
        cur = rest;
        clen = cur.unicode_len();
    }
    proof {
        assert(spec_google_entries(cur@, gind, gskip) =~= Seq::<
            (Seq<char>, Option<Seq<char>>),
        >::empty());
        assert(params_view(params@) + spec_google_entries(cur@, gind, gskip) =~= params_view(
            params@,
        ));
        assert(spec_line(whole) == first@);
    }
    Some(params)
}

/// A quote character; the NumPy parser ignores lines holding only quotes.
pub open spec fn is_quote_char(c: char) -> bool {
    c == '\'' || c == '"'
}

/// Every character of `t` is a quote (vacuously true of an empty `t`).
pub open spec fn spec_quotes_only(t: Seq<char>) -> bool {
    forall|j: int| 0 <= j < t.len() ==> is_quote_char(t[j])
}

fn quotes_only(s: &str) -> (r: bool)
    ensures
        r == spec_quotes_only(s@),
{
    let slen = s.unicode_len();
    let mut j: usize = 0;
    while j < slen
        invariant
            slen == s@.len(),
            j <= slen,
            forall|t: int| 0 <= t < j ==> is_quote_char(s@[t]),
        decreases slen - j,
    {
        let c = s.get_char(j);
        if !(c == '\'' || c == '"') {
            assert(!is_quote_char(s@[j as int]));
            return false;
        }
        j += 1;
    }
    true
}

/// The documented parameter a NumPy-convention section line declares, if any:
/// either `name: type` split at the first colon, both sides trimmed, or a
/// bare trimmed name without a type.
pub open spec fn spec_numpy_entry(line: Seq<char>, ind: int, skip_variadic: bool) -> Option<
    (Seq<char>, Option<Seq<char>>),
> {
    if !spec_is_entry_line(line, ind) {
        None
    } else if spec_quotes_only(spec_trim(line)) {
        None
    } else {
        match spec_find(line, (":")@) {
            None => {
                let t = spec_trim(line);
                if skip_variadic && t.len() > 0 && t[0] == '*' {
                    None
                } else {
                    Some((t, None))
                }
            },
            Some(ci) => {
                let nm = spec_trim(line.subrange(0, ci));
                if skip_variadic && nm.len() > 0 && nm[0] == '*' {
                    None
                } else {
                    Some((nm, Some(spec_trim(line.subrange(ci + 1, line.len() as int)))))
                }
            },
        }
    }
}

/// The entries of a NumPy-convention section, line by line.
pub open spec fn spec_numpy_entries(s: Seq<char>, ind: int, skip_variadic: bool) -> Seq<
    (Seq<char>, Option<Seq<char>>),
>
    decreases s.len(),
    via spec_numpy_entries_dec
{
    if s.len() == 0 {
        Seq::empty()
    } else {
        let rest = spec_numpy_entries(spec_rest_lines(s), ind, skip_variadic);
        match spec_numpy_entry(spec_line(s), ind, skip_variadic) {
            Some(p) => seq![p] + rest,
            None => rest,
        }
    }
}

#[via_fn]
proof fn spec_numpy_entries_dec(s: Seq<char>, ind: int, skip_variadic: bool) {
    if s.len() > 0 {
        lemma_rest_lines_shorter(s);
    }
}

/// What `parse_numpy_docstring` returns: the entries of the lines after the
/// underline that follows the first `Parameters` header, truncated at a
/// `Returns` header standing as its own line (and at the first blank line
/// when asked to), at the indentation of the first line after the underline.
pub open spec fn spec_numpy(text: Seq<char>, break_on_empty_line: bool, skip_variadic: bool)
    -> Option<Seq<(Seq<char>, Option<Seq<char>>)>> {
    match spec_find(text, ("Parameters\n")@) {
        None => None,
        Some(i) => {
            let a0 = text.subrange(i + ("Parameters\n")@.len(), text.len() as int);
            let a1 = spec_cut_header(a0, ("Returns\n")@);
            let a = if break_on_empty_line {
                spec_cut(a1, ("\n\n")@)
            } else {
                a1
            };
            if spec_line_end(a) + 1 >= a.len() {
                None
            } else {
                let body = spec_rest_lines(a);
                Some(spec_numpy_entries(body, spec_skip_ws(spec_line(body), 0), skip_variadic))
            }
        },
    }
}

/// The documented parameter a NumPy-convention section line declares, as
/// `spec_numpy_entry` gives it.
fn numpy_entry<'a>(line: &'a str, ind: usize, skip_variadic: bool) -> (r: Option<
    (&'a str, Option<&'a str>),
>)
    ensures
        match (r, spec_numpy_entry(line@, ind as int, skip_variadic)) {
            (Some(p), Some(sp)) => p.0@ == sp.0 && opt_str_view(p.1) == sp.1,
            (None, None) => true,
            _ => false,
        },
{
    proof {
        reveal_strlit(":");
    }
    let llen = line.unicode_len();
    if !(ind < llen && !is_space(line.get_char(ind)) && all_blank_below(line, ind)) {
        assert(!spec_is_entry_line(line@, ind as int));
        return None;
    }
    let trimmed = trim_slice(line);
    if quotes_only(trimmed) {
        return None;
    }
    match find_sub(line, ":") {
        None => {
            let tlen = trimmed.unicode_len();
            if skip_variadic && tlen > 0 && trimmed.get_char(0) == '*' {
                None
            } else {
                Some((trimmed, None))
            }
        },
        Some(ci) => {
            let nm = trim_slice(line.substring_char(0, ci));
            let nlen = nm.unicode_len();
            if skip_variadic && nlen > 0 && nm.get_char(0) == '*' {
                None
            } else {
                Some((nm, Some(trim_slice(line.substring_char(ci + 1, llen)))))
            }
        },
    }
}

/// Parses a NumPy-convention docstring into the named parameters of its
/// `Parameters` section with their optional types, in the section's line
/// order, or `None` when the text has no such section.
///
/// With `break_on_empty_line` the section ends at the first blank line; with
/// `skip_args_and_kwargs` entries whose name starts with `*` are left out.
pub fn parse_numpy_docstring<'a>(
    text: &'a str,
    break_on_empty_line: bool,
    skip_args_and_kwargs: bool,
) -> (r: Option<Vec<(&'a str, Option<&'a str>)>>)
    ensures
        match (r, spec_numpy(text@, break_on_empty_line, skip_args_and_kwargs)) {
            (Some(v), Some(ps)) => params_view(v@) == ps,
            (None, None) => true,
            _ => false,
        },
{
    proof {
        reveal_strlit("Parameters\n");
        reveal_strlit("Returns\n");
        reveal_strlit("\n\n");
        reveal_strlit("\n");
    }
    let tlen = text.unicode_len();
    let i = match find_sub(text, "Parameters\n") {
        None => {
            return None;
        },
        Some(i) => i,
    };
    let mut args: &'a str = text.substring_char(i + 11, tlen);
    args = cut_header_at(args, "Returns\n");
    if break_on_empty_line {
        args = cut_at(args, "\n\n");
    }
    let alen = args.unicode_len();
    let le = match find_sub_from(args, "\n", 0) {
        Some(x) => x,
        None => alen,
    };
    assert(le == spec_line_end(args@));
    if le >= alen {
        return None;
    }
    if le + 1 >= alen {
        return None;
    }
    let body: &'a str = args.substring_char(le + 1, alen);
    assert(body@ == spec_rest_lines(args@));
    let blen = alen - (le + 1);
    let (first, _) = split_line(body, blen);
    let ind = skip_ws_from(first, 0);
    let ghost whole = body@;
    let ghost gind = ind as int;
    let ghost gskip = skip_args_and_kwargs;
    let mut params: Vec<(&'a str, Option<&'a str>)> = Vec::new();
    let mut cur: &'a str = body;
    let mut clen = blen;
    while clen > 0
        invariant
            clen == cur@.len(),
            gind == ind as int,
            gskip == skip_args_and_kwargs,
            params_view(params@) + spec_numpy_entries(cur@, gind, gskip) == spec_numpy_entries(
                whole,
                gind,
                gskip,
            ),
        decreases clen,
    {
        let (line, rest) = split_line(cur, clen);
        let entry = numpy_entry(line, ind, skip_args_and_kwargs);
        proof {
            lemma_rest_lines_shorter(cur@);
        }
        match entry {
            Some(p) => {
                proof {
                    lemma_params_view_push(params@, p);
                }
                let ghost pv = (p.0@, opt_str_view(p.1));
                params.push(p);
                proof {
                    match spec_numpy_entry(spec_line(cur@), gind, gskip) {
                        Some(sp) => {
                            assert(sp.0 == pv.0 && sp.1 == pv.1);
                            assert(sp == pv);
                        },
                        None => {
                            assert(false);
                        },
                    }
                    assert(spec_numpy_entries(cur@, gind, gskip) == seq![pv]
                        + spec_numpy_entries(spec_rest_lines(cur@), gind, gskip));
                    assert(params_view(params@) + spec_numpy_entries(rest@, gind, gskip)
                        =~= params_view(params@.drop_last()) + spec_numpy_entries(
                        cur@,
                        gind,
                        gskip,
                    ));
                }
            },
            None => {
                proof {
                    assert(spec_numpy_entry(spec_line(cur@), gind, gskip) is None);
                    assert(spec_numpy_entries(cur@, gind, gskip) == spec_numpy_entries(
                        spec_rest_lines(cur@),
                        gind,
                        gskip,
                    ));
                }
            },
        }
        cur = rest;
        clen = cur.unicode_len();
    }
    proof {
        assert(spec_numpy_entries(cur@, gind, gskip) =~= Seq::<
            (Seq<char>, Option<Seq<char>>),
        >::empty());
        assert(params_view(params@) + spec_numpy_entries(cur@, gind, gskip) =~= params_view(
            params@,
        ));
        assert(spec_line(whole) == first@);
    }
    Some(params)
}

proof fn lemma_google_entry_skip_variadic(line: Seq<char>, ind: int)
    ensures
        match spec_google_entry(line, ind, true) {
            Some(p) => p.0.len() == 0 || p.0[0] != '*',
            None => true,
        },
{
    reveal_strlit(":");
    reveal_strlit(" ");
    if spec_is_entry_line(line, ind) {
        match spec_find(line, (":")@) {
            Some(ci) => {
                let argtok = spec_trim(line.subrange(0, ci));
                crate::text::lemma_trim_props(line.subrange(0, ci));
                if !(argtok.len() > 0 && argtok[0] == '*') {
                    crate::text::lemma_find_from_spec(argtok, (" ")@, 0);
                    match spec_find(argtok, (" ")@) {
                        Some(si) => {
                            assert(argtok.subrange(si, si + 1) == (" ")@);
                            assert(argtok[si] == ' ') by {
                                assert(argtok.subrange(si, si + 1)[0] == argtok[si]);
                            }
                            assert(si != 0);
                        },
                        None => {},
                    }
                }
            },
            None => {},
        }
    }
}

/// With variadic skipping on, no entry of a Google-convention section keeps
/// a `*`-led name.
pub proof fn lemma_google_entries_skip_variadic(s: Seq<char>, ind: int)
    ensures
        forall|i: int|
            0 <= i < spec_google_entries(s, ind, true).len() ==> ((#[trigger] spec_google_entries(
                s,
                ind,
                true,
            )[i]).0.len() == 0 || spec_google_entries(s, ind, true)[i].0[0] != '*'),
    decreases s.len(),
{
    if s.len() > 0 {
        lemma_rest_lines_shorter(s);
        lemma_google_entries_skip_variadic(spec_rest_lines(s), ind);
        lemma_google_entry_skip_variadic(spec_line(s), ind);
        let es = spec_google_entries(s, ind, true);
        let rest = spec_google_entries(spec_rest_lines(s), ind, true);
        assert forall|i: int| 0 <= i < es.len() implies ((#[trigger] es[i]).0.len() == 0
            || es[i].0[0] != '*') by {
            match spec_google_entry(spec_line(s), ind, true) {
                Some(p) => {
                    if i > 0 {
                        assert(es[i] == rest[i - 1]);
                    }
                },
                None => {
                    assert(es[i] == rest[i]);
                },
            }
        }
    }
}

proof fn lemma_numpy_entry_skip_variadic(line: Seq<char>, ind: int)
    ensures
        match spec_numpy_entry(line, ind, true) {
            Some(p) => p.0.len() == 0 || p.0[0] != '*',
            None => true,
        },
{
}

/// With variadic skipping on, no entry of a NumPy-convention section keeps
/// a `*`-led name.
pub proof fn lemma_numpy_entries_skip_variadic(s: Seq<char>, ind: int)
    ensures
        forall|i: int|
            0 <= i < spec_numpy_entries(s, ind, true).len() ==> ((#[trigger] spec_numpy_entries(
                s,
                ind,
                true,
            )[i]).0.len() == 0 || spec_numpy_entries(s, ind, true)[i].0[0] != '*'),
    decreases s.len(),
{
    if s.len() > 0 {
        lemma_rest_lines_shorter(s);
        lemma_numpy_entries_skip_variadic(spec_rest_lines(s), ind);
        lemma_numpy_entry_skip_variadic(spec_line(s), ind);
        let es = spec_numpy_entries(s, ind, true);
        let rest = spec_numpy_entries(spec_rest_lines(s), ind, true);
        assert forall|i: int| 0 <= i < es.len() implies ((#[trigger] es[i]).0.len() == 0
            || es[i].0[0] != '*') by {
            match spec_numpy_entry(spec_line(s), ind, true) {
                Some(p) => {
                    if i > 0 {
                        assert(es[i] == rest[i - 1]);
                    }
                },
                None => {
                    assert(es[i] == rest[i]);
                },
            }
        }
    }
}

/// A documented parameter rendered as a Google-convention section line:
/// four spaces, the name, the type parenthesised after one space when there
/// is one, a colon, a line break.
pub open spec fn spec_google_doc_line(p: (Seq<char>, Option<Seq<char>>)) -> Seq<char> {
    match p.1 {
        Some(t) => ("    ")@ + p.0 + (" (")@ + t + ("):\n")@,
        None => ("    ")@ + p.0 + (":\n")@,
    }
}

/// A Google-convention section body rendered from a parameter list, one
/// line per parameter.
pub open spec fn spec_google_doc_body(ps: Seq<(Seq<char>, Option<Seq<char>>)>) -> Seq<char>
    decreases ps.len(),
{
    if ps.len() == 0 {
        Seq::empty()
    } else {
        spec_google_doc_line(ps[0]) + spec_google_doc_body(ps.drop_first())
    }
}

/// A Google-convention docstring generated from a signature: the `Args:`
/// header and one line per parameter.
pub open spec fn spec_google_doc_of(ps: Seq<(Seq<char>, Option<Seq<char>>)>) -> Seq<char> {
    ("Args:\n")@ + spec_google_doc_body(ps)
}

/// A parameter name the round trip holds for: non-empty, free of blanks and
/// colons, not variadic-led.
pub open spec fn spec_plain_name(n: Seq<char>) -> bool {
    n.len() > 0 && n[0] != '*' && (forall|j: int|
        0 <= j < n.len() ==> !is_space_char(n[j]) && n[j] != ':')
}

/// A type text the round trip holds for: free of colons and line breaks,
/// with no blank edge and no trailing `, optional` marker.
pub open spec fn spec_plain_type(t: Seq<char>) -> bool {
    (forall|j: int| 0 <= j < t.len() ==> (t[j] != ':' && t[j] != '\n')) && (t.len() > 0
        ==> !is_space_char(t[0]) && !is_space_char(t.last())) && !(t.len() >= (", optional")@.len()
        && occurs_at(t, (", optional")@, t.len() - (", optional")@.len()))
}

/// Every entry of the list is fit for the round trip.
pub open spec fn spec_plain_params(ps: Seq<(Seq<char>, Option<Seq<char>>)>) -> bool {
    forall|i: int|
        0 <= i < ps.len() ==> spec_plain_name((#[trigger] ps[i]).0) && (match ps[i].1 {
            Some(t) => spec_plain_type(t),
            None => true,
        })
}

proof fn lemma_doc_line_facts(p: (Seq<char>, Option<Seq<char>>))
    requires
        spec_plain_name(p.0),
        match p.1 {
            Some(t) => spec_plain_type(t),
            None => true,
        },
    ensures
        spec_google_doc_line(p).len() >= p.0.len() + 6,
        spec_google_doc_line(p).last() == '\n',
        spec_google_doc_line(p)[spec_google_doc_line(p).len() - 2] == ':',
        forall|i: int|
            0 <= i < spec_google_doc_line(p).len() - 1 ==> spec_google_doc_line(p)[i] != '\n',
        forall|i: int|
            0 <= i < spec_google_doc_line(p).len() - 2 ==> spec_google_doc_line(p)[i] != ':',
        forall|i: int| 0 <= i < 4 ==> spec_google_doc_line(p)[i] == ' ',
        spec_google_doc_line(p)[4] == p.0[0],
{
    reveal_strlit("    ");
    reveal_strlit(" (");
    reveal_strlit("):\n");
    reveal_strlit(":\n");
    let l = spec_google_doc_line(p);
    let n = p.0;
    match p.1 {
        Some(t) => {
            assert forall|i: int| 0 <= i < l.len() implies ((i < l.len() - 1 ==> l[i] != '\n') && (
            i < l.len() - 2 ==> l[i] != ':')) by {
                if i < 4 {
                    assert(l[i] == ' ');
                } else if i < 4 + n.len() {
                    assert(l[i] == n[i - 4]);
                    assert(!is_space_char(n[i - 4]) && n[i - 4] != ':');
                } else if i < 6 + n.len() {
                    assert(l[i] == (" (")@[i - 4 - n.len()]);
                } else if i < 6 + n.len() + t.len() {
                    assert(l[i] == t[i - 6 - n.len()]);
                } else {
                    assert(l[i] == ("):\n")@[i - 6 - n.len() - t.len()]);
                }
            }
            assert(l[l.len() - 1] == ("):\n")@[2]);
            assert(l[l.len() - 2] == ("):\n")@[1]);
            assert(l[4] == n[0]);
        },
        None => {
            assert forall|i: int| 0 <= i < l.len() implies ((i < l.len() - 1 ==> l[i] != '\n') && (
            i < l.len() - 2 ==> l[i] != ':')) by {
                if i < 4 {
                    assert(l[i] == ' ');
                } else if i < 4 + n.len() {
                    assert(l[i] == n[i - 4]);
                    assert(!is_space_char(n[i - 4]) && n[i - 4] != ':');
                } else {
                    assert(l[i] == (":\n")@[i - 4 - n.len()]);
                }
            }
            assert(l[l.len() - 1] == (":\n")@[1]);
            assert(l[l.len() - 2] == (":\n")@[0]);
            assert(l[4] == n[0]);
        },
    }
}

proof fn lemma_doc_line_entry(p: (Seq<char>, Option<Seq<char>>), skip_variadic: bool)
    requires
        spec_plain_name(p.0),
        match p.1 {
            Some(t) => spec_plain_type(t),
            None => true,
        },
    ensures
        spec_google_entry(spec_google_doc_line(p).drop_last(), 4, skip_variadic) == Some(p),
{
    reveal_strlit("    ");
    reveal_strlit(" (");
    reveal_strlit("):\n");
    reveal_strlit(":\n");
    reveal_strlit(":");
    reveal_strlit(" ");
    lemma_doc_line_facts(p);
    let l = spec_google_doc_line(p);
    let n = p.0;
    let line = l.drop_last();
    // the line opens an entry at indentation four
    assert(spec_is_entry_line(line, 4));
    // the only colon is the separator that closes the line
    let ci = line.len() - 1;
    assert(line.subrange(ci, ci + 1) =~= (":")@);
    assert(occurs_at(line, (":")@, ci));
    assert forall|i: int| 0 <= i < ci implies !occurs_at(line, (":")@, i) by {
        if occurs_at(line, (":")@, i) {
            assert(line.subrange(i, i + 1)[0] == line[i]);
        }
    }
    crate::text::lemma_find_at(line, (":")@, ci);
    let pre = line.subrange(0, ci);
    match p.1 {
        Some(t) => {
            assert(pre =~= ("    ")@ + n + (" (")@ + t + (")")@) by {
                reveal_strlit(")");
            }
            reveal_strlit(")");
            crate::text::lemma_trim_bounds(pre, 4, pre.len() as int);
            let argtok = spec_trim(pre);
            assert(argtok =~= n + (" (")@ + t + (")")@);
            // the first blank splits the name from the type
            assert(argtok.subrange(n.len() as int, n.len() as int + 1) =~= (" ")@);
            assert(occurs_at(argtok, (" ")@, n.len() as int));
            assert forall|i: int| 0 <= i < n.len() implies !occurs_at(argtok, (" ")@, i) by {
                if occurs_at(argtok, (" ")@, i) {
                    assert(argtok.subrange(i, i + 1)[0] == argtok[i]);
                    assert(argtok[i] == n[i]);
                }
            }
            crate::text::lemma_find_at(argtok, (" ")@, n.len() as int);
            assert(argtok.subrange(0, n.len() as int) =~= n);
            let rest = argtok.subrange(n.len() as int + 1, argtok.len() as int);
            assert(rest =~= ("(")@ + t + (")")@) by {
                reveal_strlit("(");
            }
            reveal_strlit("(");
            assert(rest[0] == '(');
            assert(rest.drop_first() =~= t + (")")@);
            let t1 = rest.drop_first();
            assert(t1.last() == ')');
            assert(t1.drop_last() =~= t);
            assert(spec_strip_paren(rest) == t);
            assert(spec_strip_optional(t) == t);
        },
        None => {
            assert(pre =~= ("    ")@ + n);
            crate::text::lemma_trim_bounds(pre, 4, pre.len() as int);
            let argtok = spec_trim(pre);
            assert(argtok =~= n);
            assert forall|i: int| 0 <= i implies !occurs_at(argtok, (" ")@, i) by {
                if occurs_at(argtok, (" ")@, i) {
                    assert(argtok.subrange(i, i + 1)[0] == argtok[i]);
                    assert(argtok[i] == n[i]);
                }
            }
            crate::text::lemma_find_from_spec(argtok, (" ")@, 0);
            assert(spec_find(argtok, (" ")@) is None);
        },
    }
}

proof fn lemma_doc_body_first_line(ps: Seq<(Seq<char>, Option<Seq<char>>)>)
    requires
        ps.len() >= 1,
        spec_plain_params(ps),
    ensures
        spec_line(spec_google_doc_body(ps)) == spec_google_doc_line(ps[0]).drop_last(),
        spec_rest_lines(spec_google_doc_body(ps)) == spec_google_doc_body(ps.drop_first()),
        spec_google_doc_body(ps).len() > spec_google_doc_line(ps[0]).len() - 1,
{
    reveal_strlit("\n");
    lemma_doc_line_facts(ps[0]);
    let l = spec_google_doc_line(ps[0]);
    let body = spec_google_doc_body(ps);
    assert(body == l + spec_google_doc_body(ps.drop_first()));
    let le = l.len() - 1;
    assert(body.subrange(le, le + 1) =~= ("\n")@);
    assert(occurs_at(body, ("\n")@, le));
    assert forall|i: int| 0 <= i < le implies !occurs_at(body, ("\n")@, i) by {
        if occurs_at(body, ("\n")@, i) {
            assert(body.subrange(i, i + 1)[0] == body[i]);
            assert(body[i] == l[i]);
        }
    }
    crate::text::lemma_find_at(body, ("\n")@, le);
    assert(spec_line_end(body) == le);
    assert(body.subrange(0, le) =~= l.drop_last());
    assert(l.drop_last().len() > 0 && l.drop_last().last() == ':');
    assert(spec_line(body) == l.drop_last());
    assert(body.subrange(le + 1, body.len() as int) =~= spec_google_doc_body(ps.drop_first()));
}

proof fn lemma_doc_body_entries(ps: Seq<(Seq<char>, Option<Seq<char>>)>, skip_variadic: bool)
    requires
        spec_plain_params(ps),
    ensures
        spec_google_entries(spec_google_doc_body(ps), 4, skip_variadic) =~= ps,
    decreases ps.len(),
{
    if ps.len() > 0 {
        lemma_doc_body_first_line(ps);
        lemma_doc_line_entry(ps[0], skip_variadic);
        assert(spec_plain_params(ps.drop_first())) by {
            assert forall|i: int| 0 <= i < ps.drop_first().len() implies spec_plain_name(
                (#[trigger] ps.drop_first()[i]).0,
            ) && (match ps.drop_first()[i].1 {
                Some(t) => spec_plain_type(t),
                None => true,
            }) by {
                assert(ps.drop_first()[i] == ps[i + 1]);
            }
        }
        lemma_doc_body_entries(ps.drop_first(), skip_variadic);
        let body = spec_google_doc_body(ps);
        assert(body.len() > 0);
        assert(spec_google_entries(body, 4, skip_variadic) == seq![ps[0]] + spec_google_entries(
            spec_google_doc_body(ps.drop_first()),
            4,
            skip_variadic,
        ));
    }
}

/// An untyped parameter name must not be another section's header word
/// itself, else its rendered line would read as that header line.
pub open spec fn spec_no_header_name(ps: Seq<(Seq<char>, Option<Seq<char>>)>, w: Seq<char>) -> bool {
    forall|i: int| 0 <= i < ps.len() ==> !((#[trigger] ps[i]).1 is None && ps[i].0 == w)
}

proof fn lemma_line_head_concat(l: Seq<char>, rest: Seq<char>, k: int)
    requires
        l.len() > 0,
        l.last() == '\n',
        0 <= k <= rest.len(),
    ensures
        spec_at_line_head(l + rest, l.len() + k) == spec_at_line_head(rest, k),
    decreases k,
{
    if k == 0 {
        assert((l + rest)[l.len() - 1] == l.last());
    } else {
        assert((l + rest)[l.len() + k - 1] == rest[k - 1]);
        if rest[k - 1] != '\n' && is_space_char(rest[k - 1]) {
            lemma_line_head_concat(l, rest, k - 1);
        }
    }
}

proof fn lemma_body_no_header(ps: Seq<(Seq<char>, Option<Seq<char>>)>, q: Seq<char>)
    requires
        spec_plain_params(ps),
        q.len() >= 3,
        q.last() == '\n',
        q[q.len() - 2] == ':',
        forall|j: int|
            0 <= j < q.len() - 2 ==> (q[j] != ':' && q[j] != '\n' && q[j] != ' ' && q[j] != ')'
                && !is_space_char(q[j])),
        spec_no_header_name(ps, q.subrange(0, q.len() - 2)),
    ensures
        forall|i: int|
            !(occurs_at(spec_google_doc_body(ps), q, i) && spec_at_line_head(
                spec_google_doc_body(ps),
                i,
            )),
    decreases ps.len(),
{
    let body = spec_google_doc_body(ps);
    if ps.len() == 0 {
    } else {
        let l = spec_google_doc_line(ps[0]);
        let rest = spec_google_doc_body(ps.drop_first());
        let n = ps[0].0;
        lemma_doc_line_facts(ps[0]);
        assert(spec_plain_params(ps.drop_first()) && spec_no_header_name(
            ps.drop_first(),
            q.subrange(0, q.len() - 2),
        )) by {
            assert(forall|i: int|
                0 <= i < ps.drop_first().len() ==> ps.drop_first()[i] == ps[i + 1]);
        }
        lemma_body_no_header(ps.drop_first(), q);
        assert forall|i: int| !(occurs_at(body, q, i) && spec_at_line_head(body, i)) by {
            if occurs_at(body, q, i) && spec_at_line_head(body, i) {
                assert forall|o: int| 0 <= o < q.len() implies body[i + o] == q[o] by {
                    assert(body.subrange(i, i + q.len() as int)[o] == body[i + o]);
                }
                if i + q.len() <= l.len() {
                    // the occurrence would end exactly at the line's end
                    assert(body[i + q.len() - 1] == l[i + q.len() - 1]);
                    assert(l[i + q.len() - 1] == '\n');
                    assert(i + q.len() - 1 == l.len() - 1);
                    match ps[0].1 {
                        Some(t) => {
                            // the character before the colon is the closing
                            // parenthesis, which the header word never holds
                            assert(body[i + q.len() - 3] == l[l.len() - 3]);
                            reveal_strlit("):\n");
                            assert(l[l.len() - 3] == ')') by {
                                reveal_strlit("    ");
                                reveal_strlit(" (");
                            }
                            assert(q[q.len() - 3] != ')');
                        },
                        None => {
                            // the line is indent plus name plus `:`; a header
                            // word at a line head must be the whole name,
                            // which the name condition forbids
                            reveal_strlit("    ");
                            reveal_strlit(":\n");
                            if i > 4 {
                                assert(body[i - 1] == l[i - 1]);
                                assert(l[i - 1] == n[i - 5]);
                                assert(!is_space_char(n[i - 5]) && n[i - 5] != ':');
                                assert(!spec_at_line_head(body, i));
                            } else if i == 4 {
                                assert(n.len() == q.len() - 2);
                                assert(n =~= q.subrange(0, q.len() - 2)) by {
                                    assert forall|j: int| 0 <= j < q.len() - 2 implies #[trigger] n[j]
                                        == q.subrange(0, q.len() - 2)[j] by {
                                        assert(l[4 + j] == n[j]);
                                        assert(body[i + j] == l[i + j]);
                                    }
                                }
                                assert(!spec_no_header_name(ps, q.subrange(0, q.len() - 2)));
                            } else {
                                // the word would reach into the indent
                                assert(l[i] == ' ');
                                assert(q[0] != ' ');
                            }
                        },
                    }
                } else if i >= l.len() {
                    assert(occurs_at(rest, q, i - l.len())) by {
                        assert(rest.subrange(
                            i - l.len(),
                            i - l.len() + q.len() as int,
                        ) =~= body.subrange(i, i + q.len() as int));
                    }
                    assert(spec_at_line_head(rest, i - l.len())) by {
                        lemma_line_head_concat(l, rest, i - l.len());
                    }
                } else {
                    // an occurrence spanning the line break would place the
                    // pattern's final line break at the line's own
                    let o = l.len() - 1 - i;
                    assert(0 <= o < q.len());
                    assert(body[l.len() - 1] == l[l.len() - 1]);
                    assert(q[o] == '\n');
                    assert(o != q.len() - 2);
                    if o < q.len() - 2 {
                        assert(q[o] != '\n');
                    }
                    assert(o == q.len() - 1);
                }
            }
        }
    }
}

/// Round trip: a Google-convention docstring generated from a signature
/// parses back to exactly that signature, in order, with variadic skipping
/// on or off. The names and types must be plain, and no untyped name may be
/// another section header's word itself, so that the rendered section holds
/// no `Yields:`, `Returns:` or `Raises:` header line of its own.
pub proof fn lemma_google_round_trip(ps: Seq<(Seq<char>, Option<Seq<char>>)>, skip_variadic: bool)
    requires
        ps.len() >= 1,
        spec_plain_params(ps),
        spec_no_header_name(ps, ("Yields")@),
        spec_no_header_name(ps, ("Returns")@),
        spec_no_header_name(ps, ("Raises")@),
    ensures
        spec_google(spec_google_doc_of(ps), false, skip_variadic) == Some(ps),
{
    assert(spec_find_header(spec_google_doc_body(ps), ("Yields:\n")@) is None) by {
        reveal_strlit("Yields:\n");
        reveal_strlit("Yields");
        assert(("Yields:\n")@.subrange(0, 6) =~= ("Yields")@);
        lemma_body_no_header(ps, ("Yields:\n")@);
        crate::text::lemma_find_header_spec(spec_google_doc_body(ps), ("Yields:\n")@, 0);
    }
    assert(spec_find_header(spec_google_doc_body(ps), ("Returns:\n")@) is None) by {
        reveal_strlit("Returns:\n");
        reveal_strlit("Returns");
        assert(("Returns:\n")@.subrange(0, 7) =~= ("Returns")@);
        lemma_body_no_header(ps, ("Returns:\n")@);
        crate::text::lemma_find_header_spec(spec_google_doc_body(ps), ("Returns:\n")@, 0);
    }
    assert(spec_find_header(spec_google_doc_body(ps), ("Raises:\n")@) is None) by {
        reveal_strlit("Raises:\n");
        reveal_strlit("Raises");
        assert(("Raises:\n")@.subrange(0, 6) =~= ("Raises")@);
        lemma_body_no_header(ps, ("Raises:\n")@);
        crate::text::lemma_find_header_spec(spec_google_doc_body(ps), ("Raises:\n")@, 0);
    }
    reveal_strlit("Args:\n");
    let text = spec_google_doc_of(ps);
    let body = spec_google_doc_body(ps);
    assert(text.subrange(0, ("Args:\n")@.len() as int) =~= ("Args:\n")@);
    assert(occurs_at(text, ("Args:\n")@, 0));
    crate::text::lemma_find_at(text, ("Args:\n")@, 0);
    assert(text.subrange(("Args:\n")@.len() as int, text.len() as int) =~= body);
    lemma_doc_body_first_line(ps);
    lemma_doc_line_facts(ps[0]);
    assert(body.len() > 0);
    let line = spec_line(body);
    crate::text::lemma_skip_ws_spec(line, 0);
    let r = spec_skip_ws(line, 0);
    assert(line[4] == spec_google_doc_line(ps[0])[4]);
    assert(!is_space_char(line[4]));
    assert(forall|j: int| 0 <= j < 4 ==> is_space_char(line[j]));
    assert(r == 4) by {
        if r < 4 {
            assert(!is_space_char(line[r]));
        }
        if r > 4 {
            assert(is_space_char(line[4]));
        }
    }
    lemma_doc_body_entries(ps, skip_variadic);
}

/// What `extract_docstring` returns: when the text opens with a triple-quote
/// delimiter and the same delimiter occurs again, the span through that
/// closing delimiter.
pub open spec fn spec_extract_docstring(content: Seq<char>) -> Option<Seq<char>> {
    let q3 = ("\"\"\"")@;
    let a3 = ("'''")@;
    if occurs_at(content, q3, 0) {
        match spec_find_from(content, q3, 3) {
            Some(j) => Some(content.subrange(0, j + 3)),
            None => None,
        }
    } else if occurs_at(content, a3, 0) {
        match spec_find_from(content, a3, 3) {
            Some(j) => Some(content.subrange(0, j + 3)),
            None => None,
        }
    } else {
        None
    }
}

/// Extracts the docstring from the text of a function's body block: the
/// leading triple-quoted literal, delimiters included, or `None` when the
/// block does not start with one or the literal never closes.
pub fn extract_docstring<'a>(content: &'a str) -> (r: Option<&'a str>)
    ensures
        match (r, spec_extract_docstring(content@)) {
            (Some(d), Some(sd)) => d@ == sd,
            (None, None) => true,
            _ => false,
        },
{
    proof {
        reveal_strlit("\"\"\"");
        reveal_strlit("'''");
    }
    let clen = content.unicode_len();
    if starts_with_sub(content, "\"\"\"") {
        match find_sub_from(content, "\"\"\"", 3) {
            Some(j) => {
                assert(j + 3 <= clen);
                Some(content.substring_char(0, j + 3))
            },
            None => None,
        }
    } else if starts_with_sub(content, "'''") {
        match find_sub_from(content, "'''", 3) {
            Some(j) => {
                assert(j + 3 <= clen);
                Some(content.substring_char(0, j + 3))
            },
            None => None,
        }
    } else {
        None
    }
}

} // verus!
