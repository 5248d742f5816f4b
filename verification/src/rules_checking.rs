//! The rule engine: given one extracted signature and the run's flags,
//! decide whether the function's docstring matches its declared parameters.

use vstd::prelude::*;
use vstd::string::StrSliceExecFns;

use crate::ast_parsing::{cursor_after_first_child, cursor_after_next_sibling,
    cursor_after_parent, cursor_node_of, get_function_signature, spec_ascend_sigs,
    spec_signature_of, spec_walk_sigs, tree_cursor_of, ts_cursor_node, ts_goto_first_child,
    ts_goto_next_sibling, ts_goto_parent, ts_parse, ts_tree_walk, FunctionInfo, FunctionReport};
use crate::lexing::{
    get_next_function_info, lemma_next_function_props, spec_lex_file_sigs, spec_next_function,
    spec_span_view, Lexer,
};
use crate::ast_parsing::FunctionLocation;
use crate::parsing::{
    opt_str_view, params_view, parse_google_docstring, parse_numpy_docstring, spec_google,
    spec_numpy,
};
use crate::text::{spec_find, str_eq};

verus! {

/// Which documentation convention to parse docstrings with.
///
/// `AutoDetect` tries the Google convention first and falls back to NumPy.
#[derive(Debug, Default, Clone, Copy)]
pub enum DocstringStyle {
    Google,
    Numpy,
    #[default]
    AutoDetect,
}

/// What `parse_documented_params` returns for each style; auto-detection
/// resolves an ambiguous docstring to its Google reading.
pub open spec fn spec_parse_documented(
    doc: Seq<char>,
    style: DocstringStyle,
    break_on_empty_line: bool,
    skip_variadic: bool,
) -> Option<Seq<(Seq<char>, Option<Seq<char>>)>> {
    match style {
        DocstringStyle::Google => spec_google(doc, break_on_empty_line, skip_variadic),
        DocstringStyle::Numpy => spec_numpy(doc, break_on_empty_line, skip_variadic),
        DocstringStyle::AutoDetect => match spec_google(doc, break_on_empty_line, skip_variadic) {
            Some(ps) => Some(ps),
            None => spec_numpy(doc, break_on_empty_line, skip_variadic),
        },
    }
}

/// Parses the ordered parameter list a docstring documents, under the given
/// convention, or `None` when no parseable section is found.
pub fn parse_documented_params<'a>(
    docstring: &'a str,
    style: DocstringStyle,
    break_on_empty_line: bool,
    skip_args_and_kwargs: bool,
) -> (r: Option<Vec<(&'a str, Option<&'a str>)>>)
    ensures
        match (
            r,
            spec_parse_documented(docstring@, style, break_on_empty_line, skip_args_and_kwargs),
        ) {
            (Some(v), Some(ps)) => params_view(v@) == ps,
            (None, None) => true,
            _ => false,
        },
{
    match style {
        DocstringStyle::Google => parse_google_docstring(
            docstring,
            break_on_empty_line,
            skip_args_and_kwargs,
        ),
        DocstringStyle::Numpy => parse_numpy_docstring(
            docstring,
            break_on_empty_line,
            skip_args_and_kwargs,
        ),
        DocstringStyle::AutoDetect => {
            match parse_google_docstring(docstring, break_on_empty_line, skip_args_and_kwargs) {
                Some(v) => Some(v),
                None => parse_numpy_docstring(docstring, break_on_empty_line, skip_args_and_kwargs),
            }
        },
    }
}

/// One documented entry against one declared parameter under lenient typing:
/// names must agree, and types only where both sides have one.
pub open spec fn spec_lenient_entry_match(
    d: (Seq<char>, Option<Seq<char>>),
    p: (Seq<char>, Option<Seq<char>>),
) -> bool {
    match (d.1, p.1) {
        (Some(t1), Some(t2)) => d.0 == p.0 && t1 == t2,
        _ => d.0 == p.0,
    }
}

/// The documented list against the declared list: under strict typing the
/// lists must be equal element by element, under lenient typing they must
/// have the same length and match entry-wise by `spec_lenient_entry_match`.
pub open spec fn spec_params_match(
    dp: Seq<(Seq<char>, Option<Seq<char>>)>,
    ps: Seq<(Seq<char>, Option<Seq<char>>)>,
    lenient: bool,
) -> bool {
    if lenient {
        dp.len() == ps.len() && (forall|i: int|
            0 <= i < dp.len() ==> spec_lenient_entry_match(dp[i], ps[i]))
    } else {
        dp == ps
    }
}

/// The rule engine's decision for one function, with `params` the declared
/// list and `doc` the docstring span:
/// - no docstring: compliant exactly when `succeed_if_no_docstring`;
/// - docstring without a parseable section: compliant exactly when
///   `succeed_if_no_args_in_docstring`;
/// - otherwise: compliant exactly when the documented list matches the
///   declared list, strictly or leniently per
///   `succeed_if_docstrings_are_not_typed`.
pub open spec fn spec_function_info_valid(
    params: Seq<(Seq<char>, Option<Seq<char>>)>,
    doc: Option<Seq<char>>,
    break_on_empty_line: bool,
    succeed_if_no_docstring: bool,
    succeed_if_no_args_in_docstring: bool,
    succeed_if_docstrings_are_not_typed: bool,
    skip_variadic: bool,
    style: DocstringStyle,
) -> bool {
    match doc {
        None => succeed_if_no_docstring,
        Some(d) => match spec_parse_documented(d, style, break_on_empty_line, skip_variadic) {
            None => succeed_if_no_args_in_docstring,
            Some(dp) => spec_params_match(dp, params, succeed_if_docstrings_are_not_typed),
        },
    }
}

/// Re-parsing the same docstring text with identical flags always returns
/// an identical list: the parse is a pure function of its input, so any two
/// results meeting `parse_documented_params`' contract are equal.
pub proof fn lemma_reparse_identical(
    doc: Seq<char>,
    style: DocstringStyle,
    break_on_empty_line: bool,
    skip_variadic: bool,
    r1: Option<Seq<(Seq<char>, Option<Seq<char>>)>>,
    r2: Option<Seq<(Seq<char>, Option<Seq<char>>)>>,
)
    requires
        r1 == spec_parse_documented(doc, style, break_on_empty_line, skip_variadic),
        r2 == spec_parse_documented(doc, style, break_on_empty_line, skip_variadic),
    ensures
        r1 == r2,
{
}

/// With variadic skipping on, no documented parameter the parser returns has
/// a `*`-led name, under either convention and under auto-detection.
pub proof fn lemma_parse_documented_skips_variadics(
    doc: Seq<char>,
    style: DocstringStyle,
    break_on_empty_line: bool,
)
    ensures
        match spec_parse_documented(doc, style, break_on_empty_line, true) {
            Some(dp) => forall|i: int|
                0 <= i < dp.len() ==> ((#[trigger] dp[i]).0.len() == 0 || dp[i].0[0] != '*'),
            None => true,
        },
{
    match spec_google(doc, break_on_empty_line, true) {
        Some(ps) => {
            lemma_google_variadics(doc, break_on_empty_line);
        },
        None => {},
    }
    match spec_numpy(doc, break_on_empty_line, true) {
        Some(ps) => {
            lemma_numpy_variadics(doc, break_on_empty_line);
        },
        None => {},
    }
}

proof fn lemma_google_variadics(doc: Seq<char>, break_on_empty_line: bool)
    ensures
        match spec_google(doc, break_on_empty_line, true) {
            Some(dp) => forall|i: int|
                0 <= i < dp.len() ==> ((#[trigger] dp[i]).0.len() == 0 || dp[i].0[0] != '*'),
            None => true,
        },
{
    match spec_find(doc, ("Args:\n")@) {
        Some(ix) => {
            let a0 = doc.subrange(ix + ("Args:\n")@.len(), doc.len() as int);
            let a1 = crate::parsing::spec_cut_header(a0, ("Yields:\n")@);
            let a2 = crate::parsing::spec_cut_header(a1, ("Returns:\n")@);
            let a3 = crate::parsing::spec_cut_header(a2, ("Raises:\n")@);
            let a = if break_on_empty_line {
                crate::parsing::spec_cut(a3, ("\n\n")@)
            } else {
                a3
            };
            if a.len() != 0 {
                crate::parsing::lemma_google_entries_skip_variadic(
                    a,
                    crate::text::spec_skip_ws(crate::parsing::spec_line(a), 0),
                );
            }
        },
        None => {},
    }
}

proof fn lemma_numpy_variadics(doc: Seq<char>, break_on_empty_line: bool)
    ensures
        match spec_numpy(doc, break_on_empty_line, true) {
            Some(dp) => forall|i: int|
                0 <= i < dp.len() ==> ((#[trigger] dp[i]).0.len() == 0 || dp[i].0[0] != '*'),
            None => true,
        },
{
    match spec_find(doc, ("Parameters\n")@) {
        Some(ix) => {
            let a0 = doc.subrange(ix + ("Parameters\n")@.len(), doc.len() as int);
            let a1 = crate::parsing::spec_cut_header(a0, ("Returns\n")@);
            let a = if break_on_empty_line {
                crate::parsing::spec_cut(a1, ("\n\n")@)
            } else {
                a1
            };
            if !(crate::parsing::spec_line_end(a) + 1 >= a.len()) {
                let body = crate::parsing::spec_rest_lines(a);
                crate::parsing::lemma_numpy_entries_skip_variadic(
                    body,
                    crate::text::spec_skip_ws(crate::parsing::spec_line(body), 0),
                );
            }
        },
        None => {},
    }
}

/// Round trip: for a function whose docstring is generated from its own
/// signature under the Google convention, with identical names and types,
/// the check with strict typing reports compliance — under the Google
/// convention directly and under auto-detection, whatever the variadic
/// flag and the other leniency flags. The names and types must be plain,
/// and no untyped name may be another section header's word itself.
pub proof fn lemma_round_trip_compliant(
    ps: Seq<(Seq<char>, Option<Seq<char>>)>,
    succeed_if_no_docstring: bool,
    succeed_if_no_args_in_docstring: bool,
    skip_variadic: bool,
)
    requires
        ps.len() >= 1,
        crate::parsing::spec_plain_params(ps),
        crate::parsing::spec_no_header_name(ps, ("Yields")@),
        crate::parsing::spec_no_header_name(ps, ("Returns")@),
        crate::parsing::spec_no_header_name(ps, ("Raises")@),
    ensures
        spec_function_info_valid(
            ps,
            Some(crate::parsing::spec_google_doc_of(ps)),
            false,
            succeed_if_no_docstring,
            succeed_if_no_args_in_docstring,
            false,
            skip_variadic,
            DocstringStyle::Google,
        ),
        spec_function_info_valid(
            ps,
            Some(crate::parsing::spec_google_doc_of(ps)),
            false,
            succeed_if_no_docstring,
            succeed_if_no_args_in_docstring,
            false,
            skip_variadic,
            DocstringStyle::AutoDetect,
        ),
{
    crate::parsing::lemma_google_round_trip(ps, skip_variadic);
}

/// A documented parameter list of different length than the signature is
/// never compliant, under strict and under lenient typing alike: the length
/// is checked before any positional comparison.
pub proof fn lemma_length_mismatch_not_compliant(
    params: Seq<(Seq<char>, Option<Seq<char>>)>,
    doc: Seq<char>,
    dp: Seq<(Seq<char>, Option<Seq<char>>)>,
    break_on_empty_line: bool,
    succeed_if_no_docstring: bool,
    succeed_if_no_args_in_docstring: bool,
    succeed_if_docstrings_are_not_typed: bool,
    skip_variadic: bool,
    style: DocstringStyle,
)
    requires
        spec_parse_documented(doc, style, break_on_empty_line, skip_variadic) == Some(dp),
        dp.len() != params.len(),
    ensures
        !spec_function_info_valid(
            params,
            Some(doc),
            break_on_empty_line,
            succeed_if_no_docstring,
            succeed_if_no_args_in_docstring,
            succeed_if_docstrings_are_not_typed,
            skip_variadic,
            style,
        ),
{
    if !succeed_if_docstrings_are_not_typed {
        if dp == params {
            assert(dp.len() == params.len());
        }
    }
}

/// With no docstring at all, the decision is exactly
/// `succeed_if_no_docstring`, whatever the other flags and the signature.
pub proof fn lemma_no_docstring_decision(
    params: Seq<(Seq<char>, Option<Seq<char>>)>,
    break_on_empty_line: bool,
    succeed_if_no_docstring: bool,
    succeed_if_no_args_in_docstring: bool,
    succeed_if_docstrings_are_not_typed: bool,
    skip_variadic: bool,
    style: DocstringStyle,
)
    ensures
        spec_function_info_valid(
            params,
            None,
            break_on_empty_line,
            succeed_if_no_docstring,
            succeed_if_no_args_in_docstring,
            succeed_if_docstrings_are_not_typed,
            skip_variadic,
            style,
        ) == succeed_if_no_docstring,
{
}

/// Equality of an optional type annotation, by characters.
fn opt_str_eq(a: Option<&str>, b: Option<&str>) -> (r: bool)
    ensures
        r == (opt_str_view(a) == opt_str_view(b)),
{
    match (a, b) {
        (Some(x), Some(y)) => str_eq(x, y),
        (None, None) => true,
        _ => false,
    }
}

/// Strict comparison: the documented list equals the declared list.
fn params_eq(dv: &Vec<(&str, Option<&str>)>, ps: &[(&str, Option<&str>)]) -> (r: bool)
    ensures
        r == (params_view(dv@) == params_view(ps@)),
{
    let dlen = dv.len();
    let plen = ps.len();
    if dlen != plen {
        assert(params_view(dv@).len() != params_view(ps@).len());
        return false;
    }
    let mut i: usize = 0;
    while i < dlen
        invariant
            dlen == dv@.len(),
            dlen == ps@.len(),
            i <= dlen,
            forall|t: int| 0 <= t < i ==> params_view(dv@)[t] == params_view(ps@)[t],
        decreases dlen - i,
    {
        let d = dv[i];
        let p = ps[i];
        if !(str_eq(d.0, p.0) && opt_str_eq(d.1, p.1)) {
            assert(params_view(dv@)[i as int] != params_view(ps@)[i as int]);
            return false;
        }
        assert(params_view(dv@)[i as int] == params_view(ps@)[i as int]);
        i += 1;
    }
    assert(params_view(dv@) =~= params_view(ps@));
    true
}

/// Lenient comparison: same length, names equal, types compared only where
/// both sides have one.
fn params_lenient_eq(dv: &Vec<(&str, Option<&str>)>, ps: &[(&str, Option<&str>)]) -> (r: bool)
    ensures
        r == spec_params_match(params_view(dv@), params_view(ps@), true),
{
    let dlen = dv.len();
    let plen = ps.len();
    if dlen != plen {
        return false;
    }
    let mut i: usize = 0;
    while i < dlen
        invariant
            dlen == dv@.len(),
            dlen == ps@.len(),
            i <= dlen,
            forall|t: int|
                0 <= t < i ==> spec_lenient_entry_match(params_view(dv@)[t], params_view(ps@)[t]),
        decreases dlen - i,
    {
        let d = dv[i];
        let p = ps[i];
        let names_ok = str_eq(d.0, p.0);
        let ok = match (d.1, p.1) {
            (Some(t1), Some(t2)) => names_ok && str_eq(t1, t2),
            _ => names_ok,
        };
        if !ok {
            assert(!spec_lenient_entry_match(params_view(dv@)[i as int], params_view(ps@)[i as int]));
            return false;
        }
        assert(spec_lenient_entry_match(params_view(dv@)[i as int], params_view(ps@)[i as int]));
        i += 1;
    }
    true
}

/// Checks whether one function's docstring complies with the given rules, as
/// `spec_function_info_valid` decides it.
pub fn is_function_info_valid<'a, 'b>(
    info: &FunctionInfo<'a, 'b>,
    break_on_empty_line: bool,
    succeed_if_no_docstring: bool,
    succeed_if_no_args_in_docstring: bool,
    succeed_if_docstrings_are_not_typed: bool,
    skip_args_and_kwargs: bool,
    docstyle: DocstringStyle,
) -> (r: bool)
    ensures
        r == spec_function_info_valid(
            params_view(info.params@),
            opt_str_view(info.docstring),
            break_on_empty_line,
            succeed_if_no_docstring,
            succeed_if_no_args_in_docstring,
            succeed_if_docstrings_are_not_typed,
            skip_args_and_kwargs,
            docstyle,
        ),
{
    let docstring = match info.docstring {
        None => {
            return succeed_if_no_docstring;
        },
        Some(d) => d,
    };
    let parsed = parse_documented_params(
        docstring,
        docstyle,
        break_on_empty_line,
        skip_args_and_kwargs,
    );
    let dv = match parsed {
        None => {
            return succeed_if_no_args_in_docstring;
        },
        Some(v) => v,
    };
    if succeed_if_docstrings_are_not_typed {
        params_lenient_eq(&dv, info.params)
    } else {
        params_eq(&dv, info.params)
    }
}

/// One report stands for one scanned function: same name, parameters and
/// docstring span, with the verdict the rule engine gives it.
pub open spec fn spec_lex_report_matches(
    rep: FunctionReport,
    sig: (Seq<char>, Seq<(Seq<char>, Option<Seq<char>>)>, Option<(int, int)>),
    s: Seq<char>,
    break_on_empty_line: bool,
    succeed_if_no_docstring: bool,
    succeed_if_no_args_in_docstring: bool,
    succeed_if_docstrings_are_not_typed: bool,
    skip_variadic: bool,
    style: DocstringStyle,
) -> bool {
    params_view(rep.params@) == sig.1 && opt_str_view(rep.docstring) == spec_span_view(s, sig.2)
        && (match rep.function_name {
        FunctionLocation::Name(x) => x@ == sig.0,
        _ => false,
    }) && rep.compliant == spec_function_info_valid(
        sig.1,
        spec_span_view(s, sig.2),
        break_on_empty_line,
        succeed_if_no_docstring,
        succeed_if_no_args_in_docstring,
        succeed_if_docstrings_are_not_typed,
        skip_variadic,
        style,
    )
}

/// Reads every function the scanner strategy finds in the source, one
/// report per function in scan order: its name, declared parameters,
/// docstring span and verdict.
pub fn report_functions_through_lexing<'a>(
    source_code: &'a str,
    break_on_empty_line: bool,
    succeed_if_no_docstring: bool,
    succeed_if_no_args_in_docstring: bool,
    succeed_if_docstrings_are_not_typed: bool,
    skip_args_and_kwargs: bool,
    docstyle: DocstringStyle,
) -> (r: Vec<FunctionReport<'a>>)
    ensures
        r@.len() == spec_lex_file_sigs(source_code@, 0, skip_args_and_kwargs).len(),
        forall|i: int|
            0 <= i < r@.len() ==> spec_lex_report_matches(
                #[trigger] r@[i],
                spec_lex_file_sigs(source_code@, 0, skip_args_and_kwargs)[i],
                source_code@,
                break_on_empty_line,
                succeed_if_no_docstring,
                succeed_if_no_args_in_docstring,
                succeed_if_docstrings_are_not_typed,
                skip_args_and_kwargs,
                docstyle,
            ),
{
    let ghost s = source_code@;
    let ghost sigs0 = spec_lex_file_sigs(s, 0, skip_args_and_kwargs);
    let ghost mut done: Seq<(Seq<char>, Seq<(Seq<char>, Option<Seq<char>>)>, Option<(int, int)>)> =
        Seq::empty();
    let mut lexer = Lexer::new(source_code);
    let mut reports: Vec<FunctionReport<'a>> = Vec::new();
    let mut params: Vec<(&'a str, Option<&'a str>)> = Vec::with_capacity(8);
    proof {
        assert(sigs0 =~= done + spec_lex_file_sigs(s, lexer.pos as int, skip_args_and_kwargs));
    }
    loop
        invariant
            lexer.wf(),
            lexer.src == source_code,
            s == source_code@,
            sigs0 == spec_lex_file_sigs(s, 0, skip_args_and_kwargs),
            sigs0 == done + spec_lex_file_sigs(s, lexer.pos as int, skip_args_and_kwargs),
            reports@.len() == done.len(),
            forall|i: int|
                0 <= i < reports@.len() ==> spec_lex_report_matches(
                    #[trigger] reports@[i],
                    done[i],
                    s,
                    break_on_empty_line,
                    succeed_if_no_docstring,
                    succeed_if_no_args_in_docstring,
                    succeed_if_docstrings_are_not_typed,
                    skip_args_and_kwargs,
                    docstyle,
                ),
        decreases lexer.len - lexer.pos,
    {
        let ghost p0 = lexer.pos as int;
        proof {
            lemma_next_function_props(s, p0, skip_args_and_kwargs);
        }
        let info = get_next_function_info(&mut lexer, &mut params, skip_args_and_kwargs);
        match info {
            None => {
                proof {
                    assert(spec_lex_file_sigs(s, p0, skip_args_and_kwargs) =~= Seq::<
                        (Seq<char>, Seq<(Seq<char>, Option<Seq<char>>)>, Option<(int, int)>),
                    >::empty());
                    assert(sigs0 =~= done);
                }
                return reports;
            },
            Some(fi) => {
                let ok = is_function_info_valid(
                    &fi,
                    break_on_empty_line,
                    succeed_if_no_docstring,
                    succeed_if_no_args_in_docstring,
                    succeed_if_docstrings_are_not_typed,
                    skip_args_and_kwargs,
                    docstyle,
                );
                let copied = copy_params(fi.params);
                reports.push(
                    FunctionReport {
                        function_name: fi.function_name,
                        compliant: ok,
                        params: copied,
                        docstring: fi.docstring,
                    },
                );
                proof {
                    match spec_next_function(s, p0, skip_args_and_kwargs) {
                        Some(sg) => {
                            done = done.push((sg.0, sg.1, sg.2));
                            assert(sigs0 =~= done + spec_lex_file_sigs(
                                s,
                                lexer.pos as int,
                                skip_args_and_kwargs,
                            ));
                        },
                        None => {
                            assert(false);
                        },
                    }
                }
            },
        }
    }
}

/// A whole file under the scanner strategy: every function the scan finds
/// complies with the rules. The scan, and with it the check, ends at the end
/// of input or at a scan error.
pub open spec fn spec_lex_file_valid(
    s: Seq<char>,
    i: int,
    break_on_empty_line: bool,
    succeed_if_no_docstring: bool,
    succeed_if_no_args_in_docstring: bool,
    succeed_if_docstrings_are_not_typed: bool,
    skip_variadic: bool,
    style: DocstringStyle,
) -> bool
    decreases s.len() - i + 1,
    via spec_lex_file_valid_dec
{
    if i < 0 || i > s.len() {
        true
    } else {
        match spec_next_function(s, i, skip_variadic) {
            None => true,
            Some((nm, ps, doc, resume)) => spec_function_info_valid(
                ps,
                spec_span_view(s, doc),
                break_on_empty_line,
                succeed_if_no_docstring,
                succeed_if_no_args_in_docstring,
                succeed_if_docstrings_are_not_typed,
                skip_variadic,
                style,
            ) && spec_lex_file_valid(
                s,
                resume,
                break_on_empty_line,
                succeed_if_no_docstring,
                succeed_if_no_args_in_docstring,
                succeed_if_docstrings_are_not_typed,
                skip_variadic,
                style,
            ),
        }
    }
}

#[via_fn]
proof fn spec_lex_file_valid_dec(
    s: Seq<char>,
    i: int,
    break_on_empty_line: bool,
    succeed_if_no_docstring: bool,
    succeed_if_no_args_in_docstring: bool,
    succeed_if_docstrings_are_not_typed: bool,
    skip_variadic: bool,
    style: DocstringStyle,
) {
    if 0 <= i <= s.len() {
        lemma_next_function_props(s, i, skip_variadic);
    }
}

/// The scanner strategy's file verdict is the AND over every scanned
/// function: the file complies exactly when each function the scan reads
/// complies.
pub proof fn lemma_lex_file_valid_is_all_functions(
    s: Seq<char>,
    i: int,
    break_on_empty_line: bool,
    succeed_if_no_docstring: bool,
    succeed_if_no_args_in_docstring: bool,
    succeed_if_docstrings_are_not_typed: bool,
    skip_variadic: bool,
    style: DocstringStyle,
)
    requires
        0 <= i <= s.len(),
    ensures
        spec_lex_file_valid(
            s,
            i,
            break_on_empty_line,
            succeed_if_no_docstring,
            succeed_if_no_args_in_docstring,
            succeed_if_docstrings_are_not_typed,
            skip_variadic,
            style,
        ) == (forall|j: int|
            0 <= j < spec_lex_file_sigs(s, i, skip_variadic).len()
                ==> spec_function_info_valid(
                (#[trigger] spec_lex_file_sigs(s, i, skip_variadic)[j]).1,
                spec_span_view(s, spec_lex_file_sigs(s, i, skip_variadic)[j].2),
                break_on_empty_line,
                succeed_if_no_docstring,
                succeed_if_no_args_in_docstring,
                succeed_if_docstrings_are_not_typed,
                skip_variadic,
                style,
            )),
    decreases s.len() - i + 1,
{
    lemma_next_function_props(s, i, skip_variadic);
    let sigs = spec_lex_file_sigs(s, i, skip_variadic);
    match spec_next_function(s, i, skip_variadic) {
        None => {},
        Some((nm, ps, doc, resume)) => {
            lemma_lex_file_valid_is_all_functions(
                s,
                resume,
                break_on_empty_line,
                succeed_if_no_docstring,
                succeed_if_no_args_in_docstring,
                succeed_if_docstrings_are_not_typed,
                skip_variadic,
                style,
            );
            let rest = spec_lex_file_sigs(s, resume, skip_variadic);
            assert(sigs == seq![(nm, ps, doc)] + rest);
            assert(sigs[0] == (nm, ps, doc));
            assert forall|j: int| 1 <= j < sigs.len() implies sigs[j] == rest[j - 1] by {}
            if spec_lex_file_valid(
                s,
                i,
                break_on_empty_line,
                succeed_if_no_docstring,
                succeed_if_no_args_in_docstring,
                succeed_if_docstrings_are_not_typed,
                skip_variadic,
                style,
            ) {
                assert forall|j: int|
                    0 <= j < sigs.len() implies spec_function_info_valid(
                    (#[trigger] sigs[j]).1,
                    spec_span_view(s, sigs[j].2),
                    break_on_empty_line,
                    succeed_if_no_docstring,
                    succeed_if_no_args_in_docstring,
                    succeed_if_docstrings_are_not_typed,
                    skip_variadic,
                    style,
                ) by {
                    if j > 0 {
                        assert(sigs[j] == rest[j - 1]);
                    }
                }
            } else {
                // one function fails; find it among the collected ones
                if spec_function_info_valid(
                    ps,
                    spec_span_view(s, doc),
                    break_on_empty_line,
                    succeed_if_no_docstring,
                    succeed_if_no_args_in_docstring,
                    succeed_if_docstrings_are_not_typed,
                    skip_variadic,
                    style,
                ) {
                    let k = choose|k: int|
                        0 <= k < rest.len() && !spec_function_info_valid(
                            (#[trigger] rest[k]).1,
                            spec_span_view(s, rest[k].2),
                            break_on_empty_line,
                            succeed_if_no_docstring,
                            succeed_if_no_args_in_docstring,
                            succeed_if_docstrings_are_not_typed,
                            skip_variadic,
                            style,
                        );
                    assert(sigs[k + 1] == rest[k]);
                } else {
                    assert(sigs[0] == (nm, ps, doc));
                }
            }
        },
    }
}

/// The two extraction strategies are interchangeable implementations of one
/// contract: whenever the signatures the tree walk reads agree, function for
/// function, with those the scanner reads — same parameter list and same
/// docstring text — the two file verdicts agree. (The typed-default
/// asymmetry between the strategies can break the hypothesis; where it
/// holds, the verdicts cannot differ.)
pub proof fn lemma_strategies_agree(
    cursor: tree_sitter::TreeCursor,
    s: Seq<char>,
    fuel: nat,
    break_on_empty_line: bool,
    succeed_if_no_docstring: bool,
    succeed_if_no_args_in_docstring: bool,
    succeed_if_docstrings_are_not_typed: bool,
    skip_variadic: bool,
    style: DocstringStyle,
)
    requires
        spec_walk_sigs(cursor, s, fuel).len() == spec_lex_file_sigs(s, 0, skip_variadic).len(),
        forall|i: int|
            0 <= i < spec_walk_sigs(cursor, s, fuel).len()
                ==> (#[trigger] spec_walk_sigs(cursor, s, fuel)[i]).0 == spec_lex_file_sigs(
                s,
                0,
                skip_variadic,
            )[i].1 && spec_walk_sigs(cursor, s, fuel)[i].1 == spec_span_view(
                s,
                spec_lex_file_sigs(s, 0, skip_variadic)[i].2,
            ),
    ensures
        spec_tree_file_valid(
            cursor,
            s,
            break_on_empty_line,
            succeed_if_no_docstring,
            succeed_if_no_args_in_docstring,
            succeed_if_docstrings_are_not_typed,
            skip_variadic,
            style,
            fuel,
        ) == spec_lex_file_valid(
            s,
            0,
            break_on_empty_line,
            succeed_if_no_docstring,
            succeed_if_no_args_in_docstring,
            succeed_if_docstrings_are_not_typed,
            skip_variadic,
            style,
        ),
{
    lemma_lex_file_valid_is_all_functions(
        s,
        0,
        break_on_empty_line,
        succeed_if_no_docstring,
        succeed_if_no_args_in_docstring,
        succeed_if_docstrings_are_not_typed,
        skip_variadic,
        style,
    );
    let walk = spec_walk_sigs(cursor, s, fuel);
    let lex = spec_lex_file_sigs(s, 0, skip_variadic);
    if spec_tree_file_valid(
        cursor,
        s,
        break_on_empty_line,
        succeed_if_no_docstring,
        succeed_if_no_args_in_docstring,
        succeed_if_docstrings_are_not_typed,
        skip_variadic,
        style,
        fuel,
    ) {
        assert forall|j: int|
            0 <= j < lex.len() implies spec_function_info_valid(
            (#[trigger] lex[j]).1,
            spec_span_view(s, lex[j].2),
            break_on_empty_line,
            succeed_if_no_docstring,
            succeed_if_no_args_in_docstring,
            succeed_if_docstrings_are_not_typed,
            skip_variadic,
            style,
        ) by {
            assert(walk[j].0 == lex[j].1 && walk[j].1 == spec_span_view(s, lex[j].2));
        }
    } else {
        let k = choose|k: int|
            0 <= k < walk.len() && !spec_function_info_valid(
                (#[trigger] walk[k]).0,
                walk[k].1,
                break_on_empty_line,
                succeed_if_no_docstring,
                succeed_if_no_args_in_docstring,
                succeed_if_docstrings_are_not_typed,
                skip_variadic,
                style,
            );
        assert(walk[k].0 == lex[k].1 && walk[k].1 == spec_span_view(s, lex[k].2));
        assert(!spec_function_info_valid(
            lex[k].1,
            spec_span_view(s, lex[k].2),
            break_on_empty_line,
            succeed_if_no_docstring,
            succeed_if_no_args_in_docstring,
            succeed_if_docstrings_are_not_typed,
            skip_variadic,
            style,
        ));
    }
}

/// A documented parameter list of different length than its signature fails
/// the whole file under the scanner strategy: one such function makes the
/// file verdict false, strict or lenient typing alike.
pub proof fn lemma_length_mismatch_fails_lex_file(
    s: Seq<char>,
    j: int,
    dp: Seq<(Seq<char>, Option<Seq<char>>)>,
    break_on_empty_line: bool,
    succeed_if_no_docstring: bool,
    succeed_if_no_args_in_docstring: bool,
    succeed_if_docstrings_are_not_typed: bool,
    skip_variadic: bool,
    style: DocstringStyle,
)
    requires
        0 <= j < spec_lex_file_sigs(s, 0, skip_variadic).len(),
        match spec_span_view(s, spec_lex_file_sigs(s, 0, skip_variadic)[j].2) {
            Some(d) => spec_parse_documented(d, style, break_on_empty_line, skip_variadic)
                == Some(dp),
            None => false,
        },
        dp.len() != spec_lex_file_sigs(s, 0, skip_variadic)[j].1.len(),
    ensures
        !spec_lex_file_valid(
            s,
            0,
            break_on_empty_line,
            succeed_if_no_docstring,
            succeed_if_no_args_in_docstring,
            succeed_if_docstrings_are_not_typed,
            skip_variadic,
            style,
        ),
{
    lemma_lex_file_valid_is_all_functions(
        s,
        0,
        break_on_empty_line,
        succeed_if_no_docstring,
        succeed_if_no_args_in_docstring,
        succeed_if_docstrings_are_not_typed,
        skip_variadic,
        style,
    );
    let sig = spec_lex_file_sigs(s, 0, skip_variadic)[j];
    match spec_span_view(s, sig.2) {
        Some(d) => {
            lemma_length_mismatch_not_compliant(
                sig.1,
                d,
                dp,
                break_on_empty_line,
                succeed_if_no_docstring,
                succeed_if_no_args_in_docstring,
                succeed_if_docstrings_are_not_typed,
                skip_variadic,
                style,
            );
        },
        None => {},
    }
}

/// One function whose documented list has the wrong length also makes the
/// syntax-tree strategy's whole-tree verdict `spec_tree_file_valid` false.
pub proof fn lemma_length_mismatch_fails_tree_file(
    cursor: tree_sitter::TreeCursor,
    source: Seq<char>,
    fuel: nat,
    j: int,
    dp: Seq<(Seq<char>, Option<Seq<char>>)>,
    break_on_empty_line: bool,
    succeed_if_no_docstring: bool,
    succeed_if_no_args_in_docstring: bool,
    succeed_if_docstrings_are_not_typed: bool,
    skip_variadic: bool,
    style: DocstringStyle,
)
    requires
        0 <= j < spec_walk_sigs(cursor, source, fuel).len(),
        match spec_walk_sigs(cursor, source, fuel)[j].1 {
            Some(d) => spec_parse_documented(d, style, break_on_empty_line, skip_variadic)
                == Some(dp),
            None => false,
        },
        dp.len() != spec_walk_sigs(cursor, source, fuel)[j].0.len(),
    ensures
        !spec_tree_file_valid(
            cursor,
            source,
            break_on_empty_line,
            succeed_if_no_docstring,
            succeed_if_no_args_in_docstring,
            succeed_if_docstrings_are_not_typed,
            skip_variadic,
            style,
            fuel,
        ),
{
    let sig = spec_walk_sigs(cursor, source, fuel)[j];
    match sig.1 {
        Some(d) => {
            lemma_length_mismatch_not_compliant(
                sig.0,
                d,
                dp,
                break_on_empty_line,
                succeed_if_no_docstring,
                succeed_if_no_args_in_docstring,
                succeed_if_docstrings_are_not_typed,
                skip_variadic,
                style,
            );
        },
        None => {},
    }
}

/// Checks that the source code respects the specified rules, reading every
/// function with the scanner strategy, as `spec_lex_file_valid` decides it.
pub fn respects_rules_through_lexing(
    source_code: &str,
    break_on_empty_line: bool,
    succeed_if_no_docstring: bool,
    succeed_if_no_args_in_docstring: bool,
    succeed_if_docstrings_are_not_typed: bool,
    skip_args_and_kwargs: bool,
    docstyle: DocstringStyle,
) -> (r: bool)
    ensures
        r == spec_lex_file_valid(
            source_code@,
            0,
            break_on_empty_line,
            succeed_if_no_docstring,
            succeed_if_no_args_in_docstring,
            succeed_if_docstrings_are_not_typed,
            skip_args_and_kwargs,
            docstyle,
        ),
{
    let ghost s = source_code@;
    let mut lexer = Lexer::new(source_code);
    let mut success = true;
    let mut params: Vec<(&str, Option<&str>)> = Vec::with_capacity(8);
    loop
        invariant
            lexer.wf(),
            lexer.src == source_code,
            s == source_code@,
            spec_lex_file_valid(
                s,
                0,
                break_on_empty_line,
                succeed_if_no_docstring,
                succeed_if_no_args_in_docstring,
                succeed_if_docstrings_are_not_typed,
                skip_args_and_kwargs,
                docstyle,
            ) == (success && spec_lex_file_valid(
                s,
                lexer.pos as int,
                break_on_empty_line,
                succeed_if_no_docstring,
                succeed_if_no_args_in_docstring,
                succeed_if_docstrings_are_not_typed,
                skip_args_and_kwargs,
                docstyle,
            )),
        decreases lexer.len - lexer.pos,
    {
        let ghost p0 = lexer.pos as int;
        proof {
            lemma_next_function_props(s, p0, skip_args_and_kwargs);
        }
        let info = get_next_function_info(&mut lexer, &mut params, skip_args_and_kwargs);
        match info {
            None => {
                return success;
            },
            Some(fi) => {
                let ok = is_function_info_valid(
                    &fi,
                    break_on_empty_line,
                    succeed_if_no_docstring,
                    succeed_if_no_args_in_docstring,
                    succeed_if_docstrings_are_not_typed,
                    skip_args_and_kwargs,
                    docstyle,
                );
                if !ok {
                    success = false;
                }
            },
        }
    }
}

/// A copy of a borrowed parameter list.
fn copy_params<'a>(ps: &[(&'a str, Option<&'a str>)]) -> (r: Vec<(&'a str, Option<&'a str>)>)
    ensures
        r@ == ps@,
{
    let mut v: Vec<(&'a str, Option<&'a str>)> = Vec::new();
    let n = ps.len();
    let mut i: usize = 0;
    while i < n
        invariant
            n == ps@.len(),
            i <= n,
            v@ == ps@.subrange(0, i as int),
        decreases n - i,
    {
        v.push(ps[i]);
        assert(v@ =~= ps@.subrange(0, i + 1));
        i += 1;
    }
    assert(ps@.subrange(0, n as int) =~= ps@);
    v
}

/// One report stands for one signature the tree walk read: same parameters,
/// docstring span and row, with the verdict the rule engine gives it.
pub open spec fn spec_tree_report_matches(
    rep: FunctionReport,
    sig: (Seq<(Seq<char>, Option<Seq<char>>)>, Option<Seq<char>>, int),
    break_on_empty_line: bool,
    succeed_if_no_docstring: bool,
    succeed_if_no_args_in_docstring: bool,
    succeed_if_docstrings_are_not_typed: bool,
    skip_variadic: bool,
    style: DocstringStyle,
) -> bool {
    params_view(rep.params@) == sig.0 && opt_str_view(rep.docstring) == sig.1 && (
    match rep.function_name {
        FunctionLocation::Row(x) => x as int == sig.2,
        _ => false,
    }) && rep.compliant == spec_function_info_valid(
        sig.0,
        sig.1,
        break_on_empty_line,
        succeed_if_no_docstring,
        succeed_if_no_args_in_docstring,
        succeed_if_docstrings_are_not_typed,
        skip_variadic,
        style,
    )
}

/// Reads every function the syntax-tree strategy finds in an already-parsed
/// tree, one report per function in visit order: its row, declared
/// parameters, docstring span and verdict. The walk is bounded by a step
/// budget no real tree reaches.
pub fn report_functions_in_tree<'a>(
    tree: &tree_sitter::Tree,
    source_code: &'a str,
    break_on_empty_line: bool,
    succeed_if_no_docstring: bool,
    succeed_if_no_args_in_docstring: bool,
    succeed_if_docstrings_are_not_typed: bool,
    skip_args_and_kwargs: bool,
    docstyle: DocstringStyle,
) -> (r: Vec<FunctionReport<'a>>)
    ensures
        r@.len() == spec_walk_sigs(
            tree_cursor_of(tree),
            source_code@,
            usize::MAX as nat,
        ).len(),
        forall|i: int|
            0 <= i < r@.len() ==> spec_tree_report_matches(
                #[trigger] r@[i],
                spec_walk_sigs(tree_cursor_of(tree), source_code@, usize::MAX as nat)[i],
                break_on_empty_line,
                succeed_if_no_docstring,
                succeed_if_no_args_in_docstring,
                succeed_if_docstrings_are_not_typed,
                skip_args_and_kwargs,
                docstyle,
            ),
{
    let ghost src = source_code@;
    let mut cursor = ts_tree_walk(tree);
    let ghost sigs0 = spec_walk_sigs(tree_cursor_of(tree), src, usize::MAX as nat);
    let ghost mut done: Seq<(Seq<(Seq<char>, Option<Seq<char>>)>, Option<Seq<char>>, int)> =
        Seq::empty();
    let mut reports: Vec<FunctionReport<'a>> = Vec::new();
    let mut params: Vec<(&'a str, Option<&'a str>)> = Vec::with_capacity(8);
    let mut fuel: usize = usize::MAX;
    proof {
        assert(sigs0 =~= done + spec_walk_sigs(cursor, src, fuel as nat));
    }
    loop
        invariant_except_break
            sigs0 == done + spec_walk_sigs(cursor, src, fuel as nat),
        invariant
            src == source_code@,
            sigs0 == spec_walk_sigs(tree_cursor_of(tree), src, usize::MAX as nat),
            reports@.len() == done.len(),
            forall|i: int|
                0 <= i < reports@.len() ==> spec_tree_report_matches(
                    #[trigger] reports@[i],
                    done[i],
                    break_on_empty_line,
                    succeed_if_no_docstring,
                    succeed_if_no_args_in_docstring,
                    succeed_if_docstrings_are_not_typed,
                    skip_args_and_kwargs,
                    docstyle,
                ),
        ensures
            sigs0 == done,
            reports@.len() == done.len(),
            forall|i: int|
                0 <= i < reports@.len() ==> spec_tree_report_matches(
                    #[trigger] reports@[i],
                    done[i],
                    break_on_empty_line,
                    succeed_if_no_docstring,
                    succeed_if_no_args_in_docstring,
                    succeed_if_docstrings_are_not_typed,
                    skip_args_and_kwargs,
                    docstyle,
                ),
        decreases fuel,
    {
        if fuel == 0 {
            proof {
                assert(spec_walk_sigs(cursor, src, 0nat) =~= Seq::<
                    (Seq<(Seq<char>, Option<Seq<char>>)>, Option<Seq<char>>, int),
                >::empty());
                assert(sigs0 =~= done);
            }
            break;
        }
        let ghost fuel_was = fuel as nat;
        fuel -= 1;
        let node = ts_cursor_node(&cursor);
        let ghost sig_here = spec_signature_of(cursor_node_of(cursor), src);
        match get_function_signature(&node, source_code, &mut params) {
            Some(info) => {
                let ok = is_function_info_valid(
                    &info,
                    break_on_empty_line,
                    succeed_if_no_docstring,
                    succeed_if_no_args_in_docstring,
                    succeed_if_docstrings_are_not_typed,
                    skip_args_and_kwargs,
                    docstyle,
                );
                let copied = copy_params(info.params);
                reports.push(
                    FunctionReport {
                        function_name: info.function_name,
                        compliant: ok,
                        params: copied,
                        docstring: info.docstring,
                    },
                );
                proof {
                    match sig_here {
                        Some(sg) => {
                            done = done.push(sg);
                        },
                        None => {
                            assert(false);
                        },
                    }
                }
            },
            None => {
                proof {
                    assert(sig_here is None);
                }
            },
        }
        let ghost cur_pre = cursor;
        proof {
            assert(spec_walk_sigs(cur_pre, src, fuel_was) == (match sig_here {
                Some(sg) => seq![sg] + (match cursor_after_first_child(cur_pre) {
                    (true, c2) => spec_walk_sigs(c2, src, fuel as nat),
                    (false, c2) => spec_ascend_sigs(c2, src, fuel as nat),
                }),
                None => (match cursor_after_first_child(cur_pre) {
                    (true, c2) => spec_walk_sigs(c2, src, fuel as nat),
                    (false, c2) => spec_ascend_sigs(c2, src, fuel as nat),
                }),
            }));
        }
        if ts_goto_first_child(&mut cursor) {
            proof {
                assert(sigs0 =~= done + spec_walk_sigs(cursor, src, fuel as nat));
            }
            continue ;
        }
        proof {
            assert(sigs0 =~= done + spec_ascend_sigs(cursor, src, fuel as nat));
        }
        let ghost f1 = fuel;
        loop
            invariant_except_break
                sigs0 == done + spec_ascend_sigs(cursor, src, fuel as nat),
            invariant
                src == source_code@,
                sigs0 == spec_walk_sigs(tree_cursor_of(tree), src, usize::MAX as nat),
                fuel <= f1,
                reports@.len() == done.len(),
                forall|i: int|
                    0 <= i < reports@.len() ==> spec_tree_report_matches(
                        #[trigger] reports@[i],
                        done[i],
                        break_on_empty_line,
                        succeed_if_no_docstring,
                        succeed_if_no_args_in_docstring,
                        succeed_if_docstrings_are_not_typed,
                        skip_args_and_kwargs,
                        docstyle,
                    ),
            ensures
                sigs0 == done + spec_walk_sigs(cursor, src, fuel as nat),
                fuel <= f1,
            decreases fuel,
        {
            if fuel == 0 {
                proof {
                    assert(spec_ascend_sigs(cursor, src, 0nat) =~= Seq::<
                        (Seq<(Seq<char>, Option<Seq<char>>)>, Option<Seq<char>>, int),
                    >::empty());
                    assert(sigs0 =~= done);
                }
                return reports;
            }
            fuel -= 1;
            let ghost ca = cursor;
            if ts_goto_next_sibling(&mut cursor) {
                proof {
                    assert(sigs0 =~= done + spec_walk_sigs(cursor, src, fuel as nat));
                }
                break ;
            }
            if !ts_goto_parent(&mut cursor) {
                proof {
                    assert(spec_ascend_sigs(ca, src, (fuel + 1) as nat) =~= Seq::<
                        (Seq<(Seq<char>, Option<Seq<char>>)>, Option<Seq<char>>, int),
                    >::empty());
                    assert(sigs0 =~= done);
                }
                return reports;
            }
            proof {
                assert(sigs0 =~= done + spec_ascend_sigs(cursor, src, fuel as nat));
            }
        }
    }
    reports
}

/// The syntax-tree strategy's file verdict for an already-parsed tree:
/// every signature the cursor walk reads complies with the rules.
pub open spec fn spec_tree_file_valid(
    cursor: tree_sitter::TreeCursor,
    source: Seq<char>,
    break_on_empty_line: bool,
    succeed_if_no_docstring: bool,
    succeed_if_no_args_in_docstring: bool,
    succeed_if_docstrings_are_not_typed: bool,
    skip_variadic: bool,
    style: DocstringStyle,
    fuel: nat,
) -> bool {
    forall|i: int|
        0 <= i < spec_walk_sigs(cursor, source, fuel).len() ==> spec_function_info_valid(
            (#[trigger] spec_walk_sigs(cursor, source, fuel)[i]).0,
            spec_walk_sigs(cursor, source, fuel)[i].1,
            break_on_empty_line,
            succeed_if_no_docstring,
            succeed_if_no_args_in_docstring,
            succeed_if_docstrings_are_not_typed,
            skip_variadic,
            style,
        )
}

/// Checks every function in an already-parsed tree, as
/// `spec_tree_file_valid` decides it: the AND over the per-function
/// decisions of the rule engine along the tree walk.
pub fn respects_rules_in_tree(
    tree: &tree_sitter::Tree,
    source_code: &str,
    break_on_empty_line: bool,
    succeed_if_no_docstring: bool,
    succeed_if_no_args_in_docstring: bool,
    succeed_if_docstrings_are_not_typed: bool,
    skip_args_and_kwargs: bool,
    docstyle: DocstringStyle,
) -> (r: bool)
    ensures
        r == spec_tree_file_valid(
            tree_cursor_of(tree),
            source_code@,
            break_on_empty_line,
            succeed_if_no_docstring,
            succeed_if_no_args_in_docstring,
            succeed_if_docstrings_are_not_typed,
            skip_args_and_kwargs,
            docstyle,
            usize::MAX as nat,
        ),
{
    let ghost sigs = spec_walk_sigs(tree_cursor_of(tree), source_code@, usize::MAX as nat);
    let reports = report_functions_in_tree(
        tree,
        source_code,
        break_on_empty_line,
        succeed_if_no_docstring,
        succeed_if_no_args_in_docstring,
        succeed_if_docstrings_are_not_typed,
        skip_args_and_kwargs,
        docstyle,
    );
    let n = reports.len();
    let mut ok = true;
    let mut i: usize = 0;
    while i < n
        invariant
            n == reports@.len(),
            n == sigs.len(),
            i <= n,
            forall|j: int|
                0 <= j < n ==> spec_tree_report_matches(
                    #[trigger] reports@[j],
                    sigs[j],
                    break_on_empty_line,
                    succeed_if_no_docstring,
                    succeed_if_no_args_in_docstring,
                    succeed_if_docstrings_are_not_typed,
                    skip_args_and_kwargs,
                    docstyle,
                ),
            ok == (forall|j: int|
                0 <= j < i ==> spec_function_info_valid(
                    (#[trigger] sigs[j]).0,
                    sigs[j].1,
                    break_on_empty_line,
                    succeed_if_no_docstring,
                    succeed_if_no_args_in_docstring,
                    succeed_if_docstrings_are_not_typed,
                    skip_args_and_kwargs,
                    docstyle,
                )),
        decreases n - i,
    {
        if !reports[i].compliant {
            ok = false;
        }
        i += 1;
    }
    ok
}

/// Checks that the source code respects the specified rules, reading every
/// function with the syntax-tree strategy. The one step this library cannot
/// specify is the parse itself, whose tree depends on the parser's loaded
/// grammar: whatever tree comes back, the verdict over it is
/// `respects_rules_in_tree`, whose contract is exact. A parser with no
/// language set yields no tree and, with no functions seen, success.
pub fn respects_rules(
    parser: &mut tree_sitter::Parser,
    source_code: &str,
    old_tree: Option<&tree_sitter::Tree>,
    break_on_empty_line: bool,
    succeed_if_no_docstring: bool,
    succeed_if_no_args_in_docstring: bool,
    succeed_if_docstrings_are_not_typed: bool,
    skip_args_and_kwargs: bool,
    docstyle: DocstringStyle,
) -> bool {
    let tree = match ts_parse(parser, source_code, old_tree) {
        None => {
            return true;
        },
        Some(t) => t,
    };
    respects_rules_in_tree(
        &tree,
        source_code,
        break_on_empty_line,
        succeed_if_no_docstring,
        succeed_if_no_args_in_docstring,
        succeed_if_docstrings_are_not_typed,
        skip_args_and_kwargs,
        docstyle,
    )
}

} // verus!
