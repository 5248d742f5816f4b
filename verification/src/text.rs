//! Character-level scanning helpers shared by the docstring parsers and the
//! token scanner: substring search, whitespace trimming and slice equality,
//! each with an exact specification over `Seq<char>` views.

use vstd::prelude::*;
use vstd::string::StrSliceExecFns;

verus! {

/// The Unicode `White_Space` set, the characters the scanners treat as blank.
pub open spec fn is_space_char(c: char) -> bool {
    c == ' ' || c == '\t' || c == '\n' || c == '\r' || c == '\u{b}' || c == '\u{c}'
        || c == '\u{85}' || c == '\u{a0}' || c == '\u{1680}'
        || (0x2000 <= c as u32 && c as u32 <= 0x200a)
        || c == '\u{2028}' || c == '\u{2029}' || c == '\u{202f}' || c == '\u{205f}'
        || c == '\u{3000}'
}

/// Runtime test for `is_space_char`.
pub fn is_space(c: char) -> (r: bool)
    ensures
        r == is_space_char(c),
{
    c == ' ' || c == '\t' || c == '\n' || c == '\r' || c == '\u{b}' || c == '\u{c}'
        || c == '\u{85}' || c == '\u{a0}' || c == '\u{1680}'
        || (0x2000 <= c as u32 && c as u32 <= 0x200a)
        || c == '\u{2028}' || c == '\u{2029}' || c == '\u{202f}' || c == '\u{205f}'
        || c == '\u{3000}'
}

/// `pat` occurs in `s` starting at index `i`.
pub open spec fn occurs_at(s: Seq<char>, pat: Seq<char>, i: int) -> bool {
    0 <= i && i + pat.len() <= s.len() && s.subrange(i, i + pat.len() as int) == pat
}

/// Index of the first occurrence of `pat` in `s` at or after `i`, if any.
pub open spec fn spec_find_from(s: Seq<char>, pat: Seq<char>, i: int) -> Option<int>
    decreases s.len() - i + 1,
{
    if i < 0 || i + pat.len() > s.len() {
        None
    } else if occurs_at(s, pat, i) {
        Some(i)
    } else {
        spec_find_from(s, pat, i + 1)
    }
}

/// Index of the first occurrence of `pat` in `s`, if any.
pub open spec fn spec_find(s: Seq<char>, pat: Seq<char>) -> Option<int> {
    spec_find_from(s, pat, 0)
}

/// What `spec_find_from` returns: the first occurrence at or after `i`.
pub proof fn lemma_find_from_spec(s: Seq<char>, pat: Seq<char>, i: int)
    requires
        0 <= i,
    ensures
        match spec_find_from(s, pat, i) {
            Some(j) => i <= j && occurs_at(s, pat, j) && (forall|k: int|
                i <= k < j ==> !occurs_at(s, pat, k)),
            None => forall|k: int| i <= k ==> !occurs_at(s, pat, k),
        },
    decreases s.len() - i + 1,
{
    if i + pat.len() > s.len() {
    } else if occurs_at(s, pat, i) {
    } else {
        lemma_find_from_spec(s, pat, i + 1);
    }
}

/// Whether `pat` occurs at `i` in `s`, decided by comparing characters.
fn eq_at(s: &str, slen: usize, pat: &str, plen: usize, i: usize) -> (r: bool)
    requires
        slen == s@.len(),
        plen == pat@.len(),
        i + plen <= slen,
    ensures
        r == occurs_at(s@, pat@, i as int),
{
    let mut j: usize = 0;
    while j < plen
        invariant
            slen == s@.len(),
            plen == pat@.len(),
            i + plen <= slen,
            j <= plen,
            forall|t: int| 0 <= t < j ==> s@[i + t] == pat@[t],
        decreases plen - j,
    {
        if s.get_char(i + j) != pat.get_char(j) {
            proof {
                if occurs_at(s@, pat@, i as int) {
                    assert(s@.subrange(i as int, i as int + plen as int)[j as int] == pat@[j as int]);
                }
            }
            return false;
        }
        j += 1;
    }
    assert(s@.subrange(i as int, i as int + plen as int) =~= pat@);
    true
}

/// First occurrence of `pat` in `s` at or after `from`, as `spec_find_from` gives it.
pub fn find_sub_from(s: &str, pat: &str, from: usize) -> (r: Option<usize>)
    requires
        pat@.len() >= 1,
        from <= s@.len(),
    ensures
        match r {
            Some(j) => from <= j && j + pat@.len() <= s@.len() && spec_find_from(
                s@,
                pat@,
                from as int,
            ) == Some(j as int),
            None => spec_find_from(s@, pat@, from as int) is None,
        },
{
    let slen = s.unicode_len();
    let plen = pat.unicode_len();
    if plen > slen || from > slen - plen {
        return None;
    }
    let mut i = from;
    while i <= slen - plen
        invariant
            slen == s@.len(),
            plen == pat@.len(),
            1 <= plen <= slen,
            from <= i,
            i <= slen - plen + 1,
            spec_find_from(s@, pat@, from as int) == spec_find_from(s@, pat@, i as int),
        decreases slen - i,
    {
        if eq_at(s, slen, pat, plen, i) {
            return Some(i);
        }
        i += 1;
    }
    None
}

/// First occurrence of `pat` in `s`, as `spec_find` gives it.
pub fn find_sub(s: &str, pat: &str) -> (r: Option<usize>)
    requires
        pat@.len() >= 1,
    ensures
        match r {
            Some(j) => j + pat@.len() <= s@.len() && spec_find(s@, pat@) == Some(j as int),
            None => spec_find(s@, pat@) is None,
        },
{
    find_sub_from(s, pat, 0)
}

/// Position `i` starts a line's content: nothing but blanks stand between
/// the line's beginning and `i`.
pub open spec fn spec_at_line_head(s: Seq<char>, i: int) -> bool
    decreases i,
{
    if i <= 0 {
        true
    } else if s[i - 1] == '\n' {
        true
    } else if is_space_char(s[i - 1]) {
        spec_at_line_head(s, i - 1)
    } else {
        false
    }
}

/// Index of the first occurrence of `pat` at a line head in `s` at or after
/// `i`, if any.
pub open spec fn spec_find_header_from(s: Seq<char>, pat: Seq<char>, i: int) -> Option<int>
    decreases s.len() - i + 1,
{
    if i < 0 || i + pat.len() > s.len() {
        None
    } else if occurs_at(s, pat, i) && spec_at_line_head(s, i) {
        Some(i)
    } else {
        spec_find_header_from(s, pat, i + 1)
    }
}

/// Index of the first line-head occurrence of `pat` in `s`, if any.
pub open spec fn spec_find_header(s: Seq<char>, pat: Seq<char>) -> Option<int> {
    spec_find_header_from(s, pat, 0)
}

/// What `spec_find_header_from` returns: the first line-head occurrence at
/// or after `i`.
pub proof fn lemma_find_header_spec(s: Seq<char>, pat: Seq<char>, i: int)
    requires
        0 <= i,
    ensures
        match spec_find_header_from(s, pat, i) {
            Some(j) => i <= j && occurs_at(s, pat, j) && spec_at_line_head(s, j) && (forall|k: int|
                i <= k < j ==> !(occurs_at(s, pat, k) && spec_at_line_head(s, k))),
            None => forall|k: int| i <= k ==> !(occurs_at(s, pat, k) && spec_at_line_head(s, k)),
        },
    decreases s.len() - i + 1,
{
    if i + pat.len() > s.len() {
    } else if occurs_at(s, pat, i) && spec_at_line_head(s, i) {
    } else {
        lemma_find_header_spec(s, pat, i + 1);
    }
}

/// Whether `i` starts a line's content, decided by walking back over blanks.
fn at_line_head(s: &str, i: usize) -> (r: bool)
    requires
        i <= s@.len(),
    ensures
        r == spec_at_line_head(s@, i as int),
{
    let mut j = i;
    while j > 0
        invariant
            j <= i <= s@.len(),
            spec_at_line_head(s@, i as int) == spec_at_line_head(s@, j as int),
        decreases j,
    {
        let c = s.get_char(j - 1);
        if c == '\n' {
            return true;
        }
        if !is_space(c) {
            return false;
        }
        j -= 1;
    }
    true
}

/// First line-head occurrence of `pat` in `s`, as `spec_find_header` gives
/// it.
pub fn find_header_sub(s: &str, pat: &str) -> (r: Option<usize>)
    requires
        pat@.len() >= 1,
    ensures
        match r {
            Some(j) => j + pat@.len() <= s@.len() && spec_find_header(s@, pat@) == Some(j as int),
            None => spec_find_header(s@, pat@) is None,
        },
{
    let slen = s.unicode_len();
    let plen = pat.unicode_len();
    if plen > slen {
        return None;
    }
    let mut i: usize = 0;
    while i <= slen - plen
        invariant
            slen == s@.len(),
            plen == pat@.len(),
            1 <= plen <= slen,
            i <= slen - plen + 1,
            spec_find_header_from(s@, pat@, 0) == spec_find_header_from(s@, pat@, i as int),
        decreases slen - i,
    {
        if eq_at(s, slen, pat, plen, i) && at_line_head(s, i) {
            return Some(i);
        }
        i += 1;
    }
    None
}

/// `s` with its leading blank characters removed.
pub open spec fn spec_trim_start(s: Seq<char>) -> Seq<char>
    decreases s.len(),
{
    if s.len() > 0 && is_space_char(s[0]) {
        spec_trim_start(s.drop_first())
    } else {
        s
    }
}

/// `s` with its trailing blank characters removed.
pub open spec fn spec_trim_end(s: Seq<char>) -> Seq<char>
    decreases s.len(),
{
    if s.len() > 0 && is_space_char(s.last()) {
        spec_trim_end(s.drop_last())
    } else {
        s
    }
}

/// `s` with blank characters removed from both ends.
pub open spec fn spec_trim(s: Seq<char>) -> Seq<char> {
    spec_trim_end(spec_trim_start(s))
}

proof fn lemma_trim_start_skip(s: Seq<char>, a: int)
    requires
        0 <= a <= s.len(),
        forall|j: int| 0 <= j < a ==> is_space_char(s[j]),
    ensures
        spec_trim_start(s) == spec_trim_start(s.subrange(a, s.len() as int)),
    decreases a,
{
    if a > 0 {
        lemma_trim_start_skip(s, a - 1);
        let t = s.subrange(a - 1, s.len() as int);
        assert(is_space_char(t[0]));
        assert(t.drop_first() =~= s.subrange(a, s.len() as int));
        assert(spec_trim_start(t) == spec_trim_start(t.drop_first()));
    } else {
        assert(s.subrange(0, s.len() as int) =~= s);
    }
}

proof fn lemma_trim_end_skip(s: Seq<char>, b: int)
    requires
        0 <= b <= s.len(),
        forall|j: int| b <= j < s.len() ==> is_space_char(s[j]),
    ensures
        spec_trim_end(s) == spec_trim_end(s.subrange(0, b)),
    decreases s.len() - b,
{
    if b < s.len() {
        lemma_trim_end_skip(s, b + 1);
        let t = s.subrange(0, b + 1);
        assert(is_space_char(t.last()));
        assert(t.drop_last() =~= s.subrange(0, b));
        assert(spec_trim_end(t) == spec_trim_end(t.drop_last()));
    } else {
        assert(s.subrange(0, s.len() as int) =~= s);
    }
}

/// The bounds of `s` trimmed: all blank before `a`, all blank from `b`,
/// non-blank at `a` and `b - 1` (unless the trimmed span is empty).
pub proof fn lemma_trim_bounds(s: Seq<char>, a: int, b: int)
    requires
        0 <= a <= b <= s.len(),
        forall|j: int| 0 <= j < a ==> is_space_char(s[j]),
        forall|j: int| b <= j < s.len() ==> is_space_char(s[j]),
        a == b || (!is_space_char(s[a]) && !is_space_char(s[b - 1])),
    ensures
        spec_trim(s) == s.subrange(a, b),
    decreases s.len(),
{
    lemma_trim_start_skip(s, a);
    let t = s.subrange(a, s.len() as int);
    if a == b {
        assert(spec_trim_start(t) =~= Seq::<char>::empty()) by {
            lemma_trim_start_all_blank(t);
        }
        assert(s.subrange(a, b) =~= Seq::<char>::empty());
    } else {
        assert(!is_space_char(t[0]));
        assert(spec_trim_start(t) == t);
        lemma_trim_end_skip(t, b - a);
        assert(t.subrange(0, b - a) =~= s.subrange(a, b));
        assert(!is_space_char(s.subrange(a, b).last()));
        assert(spec_trim_end(s.subrange(a, b)) == s.subrange(a, b));
    }
}

proof fn lemma_trim_start_all_blank(s: Seq<char>)
    requires
        forall|j: int| 0 <= j < s.len() ==> is_space_char(s[j]),
    ensures
        spec_trim_start(s) =~= Seq::<char>::empty(),
    decreases s.len(),
{
    if s.len() > 0 {
        lemma_trim_start_all_blank(s.drop_first());
    }
}

proof fn lemma_trim_start_head(s: Seq<char>)
    ensures
        spec_trim_start(s).len() > 0 ==> !is_space_char(spec_trim_start(s)[0]),
    decreases s.len(),
{
    if s.len() > 0 && is_space_char(s[0]) {
        lemma_trim_start_head(s.drop_first());
    }
}

proof fn lemma_trim_end_edges(s: Seq<char>)
    ensures
        spec_trim_end(s).len() > 0 ==> !is_space_char(spec_trim_end(s).last()),
        spec_trim_end(s).len() > 0 ==> s.len() > 0 && spec_trim_end(s)[0] == s[0],
    decreases s.len(),
{
    if s.len() > 0 && is_space_char(s.last()) {
        lemma_trim_end_edges(s.drop_last());
    }
}

/// A non-empty trimmed text neither starts nor ends with a blank character.
pub proof fn lemma_trim_props(s: Seq<char>)
    ensures
        spec_trim(s).len() > 0 ==> !is_space_char(spec_trim(s)[0]) && !is_space_char(
            spec_trim(s).last(),
        ),
{
    lemma_trim_start_head(s);
    lemma_trim_end_edges(spec_trim_start(s));
}

/// Where the first occurrence of `pat` in `s` is known pointwise, `spec_find`
/// names it.
pub proof fn lemma_find_at(s: Seq<char>, pat: Seq<char>, k: int)
    requires
        occurs_at(s, pat, k),
        forall|i: int| 0 <= i < k ==> !occurs_at(s, pat, i),
    ensures
        spec_find(s, pat) == Some(k),
{
    lemma_find_from_spec(s, pat, 0);
    match spec_find(s, pat) {
        Some(j) => {
            if j < k {
            } else if j > k {
            }
        },
        None => {},
    }
}

/// The trimmed slice of `s`, as `spec_trim` gives it.
pub fn trim_slice<'a>(s: &'a str) -> (r: &'a str)
    ensures
        r@ == spec_trim(s@),
{
    let len = s.unicode_len();
    let mut a: usize = 0;
    while a < len && is_space(s.get_char(a))
        invariant
            len == s@.len(),
            a <= len,
            forall|j: int| 0 <= j < a ==> is_space_char(s@[j]),
        decreases len - a,
    {
        a += 1;
    }
    let mut b: usize = len;
    while b > a && is_space(s.get_char(b - 1))
        invariant
            len == s@.len(),
            a <= b <= len,
            forall|j: int| 0 <= j < a ==> is_space_char(s@[j]),
            forall|j: int| b <= j < len ==> is_space_char(s@[j]),
        decreases b,
    {
        b -= 1;
    }
    proof {
        lemma_trim_bounds(s@, a as int, b as int);
    }
    s.substring_char(a, b)
}

/// Position of the first non-blank character of `s` at or after `i`
/// (`s.len()` when all are blank).
pub open spec fn spec_skip_ws(s: Seq<char>, i: int) -> int
    decreases s.len() - i,
{
    if 0 <= i < s.len() && is_space_char(s[i]) {
        spec_skip_ws(s, i + 1)
    } else {
        i
    }
}

/// `spec_skip_ws` stays within `[i, s.len()]` and skips only blanks.
pub proof fn lemma_skip_ws_spec(s: Seq<char>, i: int)
    requires
        0 <= i <= s.len(),
    ensures
        i <= spec_skip_ws(s, i) <= s.len(),
        forall|j: int| i <= j < spec_skip_ws(s, i) ==> is_space_char(s[j]),
        spec_skip_ws(s, i) < s.len() ==> !is_space_char(s[spec_skip_ws(s, i)]),
    decreases s.len() - i,
{
    if i < s.len() && is_space_char(s[i]) {
        lemma_skip_ws_spec(s, i + 1);
    }
}

/// First non-blank position of `s` at or after `from`, as `spec_skip_ws` gives it.
pub fn skip_ws_from(s: &str, from: usize) -> (r: usize)
    requires
        from <= s@.len(),
    ensures
        r == spec_skip_ws(s@, from as int),
        from <= r <= s@.len(),
{
    let len = s.unicode_len();
    let mut i = from;
    while i < len && is_space(s.get_char(i))
        invariant
            len == s@.len(),
            from <= i <= len,
            spec_skip_ws(s@, from as int) == spec_skip_ws(s@, i as int),
        decreases len - i,
    {
        i += 1;
    }
    i
}

/// `s` begins with `pat`.
pub fn starts_with_sub(s: &str, pat: &str) -> (r: bool)
    ensures
        r == occurs_at(s@, pat@, 0),
{
    let slen = s.unicode_len();
    let plen = pat.unicode_len();
    plen <= slen && eq_at(s, slen, pat, plen, 0)
}

/// `s` ends with `pat`.
pub fn ends_with_sub(s: &str, pat: &str) -> (r: bool)
    ensures
        r == (s@.len() >= pat@.len() && occurs_at(s@, pat@, s@.len() - pat@.len())),
{
    let slen = s.unicode_len();
    let plen = pat.unicode_len();
    plen <= slen && eq_at(s, slen, pat, plen, slen - plen)
}

/// All characters of `s` before `upto` are blank.
pub fn all_blank_below(s: &str, upto: usize) -> (r: bool)
    requires
        upto <= s@.len(),
    ensures
        r == (forall|j: int| 0 <= j < upto ==> is_space_char(s@[j])),
{
    let mut j: usize = 0;
    while j < upto
        invariant
            upto <= s@.len(),
            j <= upto,
            forall|t: int| 0 <= t < j ==> is_space_char(s@[t]),
        decreases upto - j,
    {
        if !is_space(s.get_char(j)) {
            assert(!is_space_char(s@[j as int]));
            return false;
        }
        j += 1;
    }
    true
}

/// Character equality of two string slices.
pub fn str_eq(a: &str, b: &str) -> (r: bool)
    ensures
        r == (a@ == b@),
{
    let alen = a.unicode_len();
    let blen = b.unicode_len();
    if alen != blen {
        return false;
    }
    let mut i: usize = 0;
    while i < alen
        invariant
            alen == a@.len(),
            alen == b@.len(),
            i <= alen,
            forall|t: int| 0 <= t < i ==> a@[t] == b@[t],
        decreases alen - i,
    {
        if a.get_char(i) != b.get_char(i) {
            return false;
        }
        i += 1;
    }
    assert(a@ =~= b@);
    true
}

} // verus!
