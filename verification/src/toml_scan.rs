//! A line-oriented scanner for the TOML subset in which version fields live:
//! it locates, inside a named table such as `[package]`, the span of the
//! quoted value of a `version = "..."` key.  Only that span is ever
//! rewritten, so every other byte of a manifest is preserved.

use vstd::prelude::*;

use crate::chars::is_blank;

verus! {

// ------------------------------------------------------------------
// Positions within a line
// ------------------------------------------------------------------
/// Index of the next newline at or after `i`, or the end of the text.
pub open spec fn find_nl(s: Seq<char>, i: int) -> int
    decreases s.len() - i,
    when 0 <= i <= s.len()
{
    if i < s.len() && s[i] != '\n' {
        find_nl(s, i + 1)
    } else {
        i
    }
}

pub proof fn lemma_find_nl(s: Seq<char>, i: int)
    requires
        0 <= i <= s.len(),
    ensures
        i <= find_nl(s, i) <= s.len(),
        forall|j: int| i <= j < find_nl(s, i) ==> s[j] != '\n',
        find_nl(s, i) < s.len() ==> s[find_nl(s, i)] == '\n',
    decreases s.len() - i,
{
    if i < s.len() && s[i] != '\n' {
        lemma_find_nl(s, i + 1);
    }
}

/// First non-blank position in `[i, e)`, or `e`.
pub open spec fn skip_blanks(s: Seq<char>, i: int, e: int) -> int
    decreases e - i,
    when 0 <= i <= e <= s.len()
{
    if i < e && is_blank(s[i]) {
        skip_blanks(s, i + 1, e)
    } else {
        i
    }
}

pub proof fn lemma_skip_blanks(s: Seq<char>, i: int, e: int)
    requires
        0 <= i <= e <= s.len(),
    ensures
        i <= skip_blanks(s, i, e) <= e,
        skip_blanks(s, i, e) < e ==> !is_blank(s[skip_blanks(s, i, e)]),
    decreases e - i,
{
    if i < e && is_blank(s[i]) {
        lemma_skip_blanks(s, i + 1, e);
    }
}

/// End of `[i, e)` with trailing blanks and carriage returns dropped.
pub open spec fn trim_end(s: Seq<char>, i: int, e: int) -> int
    decreases e - i,
    when 0 <= i <= e <= s.len()
{
    if e > i && (is_blank(s[e - 1]) || s[e - 1] == '\r') {
        trim_end(s, i, e - 1)
    } else {
        e
    }
}

pub proof fn lemma_trim_end(s: Seq<char>, i: int, e: int)
    requires
        0 <= i <= e <= s.len(),
    ensures
        i <= trim_end(s, i, e) <= e,
    decreases e - i,
{
    if e > i && (is_blank(s[e - 1]) || s[e - 1] == '\r') {
        lemma_trim_end(s, i, e - 1);
    }
}

/// First backslash at or after `i` within `[i, e)`, or `e`.
pub open spec fn scan_to_backslash(s: Seq<char>, i: int, e: int) -> int
    decreases e - i,
    when 0 <= i <= e <= s.len()
{
    if i < e && s[i] != '\\' {
        scan_to_backslash(s, i + 1, e)
    } else {
        i
    }
}

pub proof fn lemma_scan_to_backslash(s: Seq<char>, i: int, e: int)
    requires
        0 <= i <= e <= s.len(),
    ensures
        i <= scan_to_backslash(s, i, e) <= e,
        forall|j: int| i <= j < scan_to_backslash(s, i, e) ==> s[j] != '\\',
    decreases e - i,
{
    if i < e && s[i] != '\\' {
        lemma_scan_to_backslash(s, i + 1, e);
    }
}

pub fn scan_to_backslash_exec(v: &Vec<char>, start: usize, e: usize) -> (r: usize)
    requires
        start <= e <= v@.len(),
    ensures
        r == scan_to_backslash(v@, start as int, e as int),
        start <= r <= e,
{
    let mut i = start;
    while i < e && v[i] != '\\'
        invariant
            start <= i <= e <= v@.len(),
            scan_to_backslash(v@, start as int, e as int) == scan_to_backslash(
                v@,
                i as int,
                e as int,
            ),
        decreases e - i,
    {
        i = i + 1;
    }
    assert(scan_to_backslash(v@, i as int, e as int) == i);
    i
}

/// First quote character at or after `i` within `[i, e)`, or `e`.
pub open spec fn scan_to_quote(s: Seq<char>, i: int, e: int) -> int
    decreases e - i,
    when 0 <= i <= e <= s.len()
{
    if i < e && s[i] != '"' {
        scan_to_quote(s, i + 1, e)
    } else {
        i
    }
}

pub proof fn lemma_scan_to_quote(s: Seq<char>, i: int, e: int)
    requires
        0 <= i <= e <= s.len(),
    ensures
        i <= scan_to_quote(s, i, e) <= e,
        forall|j: int| i <= j < scan_to_quote(s, i, e) ==> s[j] != '"',
        scan_to_quote(s, i, e) < e ==> s[scan_to_quote(s, i, e)] == '"',
    decreases e - i,
{
    if i < e && s[i] != '"' {
        lemma_scan_to_quote(s, i + 1, e);
    }
}

// ------------------------------------------------------------------
// Shapes of lines
// ------------------------------------------------------------------
/// Whether the line `[i, e)` begins, after leading blanks, with `[`.
pub open spec fn line_is_any_header(s: Seq<char>, i: int, e: int) -> bool {
    let a = skip_blanks(s, i, e);
    a < e && s[a] == '['
}

/// Whether the line `[i, e)` is exactly the header of `table`, allowing
/// blanks around it.
pub open spec fn line_is_table_header(s: Seq<char>, i: int, e: int, table: Seq<char>) -> bool {
    let a = skip_blanks(s, i, e);
    let b = trim_end(s, a, e);
    b - a == table.len() + 2 && a < e && s[a] == '[' && s[b - 1] == ']' && s.subrange(a + 1, b - 1)
        == table
}

/// The span of the quoted value of a `version = "..."` key on the line
/// `[i, e)`: blanks, the word `version`, blanks, `=`, blanks, a quoted text
/// without quotes or backslashes, then only blanks or a `#` comment.
pub open spec fn line_version_span(s: Seq<char>, i: int, e: int) -> Option<(int, int)> {
    let a = skip_blanks(s, i, e);
    if a + 7 <= e && s.subrange(a, a + 7) == "version"@ {
        let b = skip_blanks(s, a + 7, e);
        if b < e && s[b] == '=' {
            let c = skip_blanks(s, b + 1, e);
            if c < e && s[c] == '"' {
                let d = scan_to_quote(s, c + 1, e);
                if d < e && s[d] == '"' && scan_to_backslash(s, c + 1, d) == d {
                    let t = skip_blanks(s, d + 1, e);
                    if trim_end(s, t, e) == t || s[t] == '#' {
                        Some((c + 1, d))
                    } else {
                        None
                    }
                } else {
                    None
                }
            } else {
                None
            }
        } else {
            None
        }
    } else {
        None
    }
}

// ------------------------------------------------------------------
// Scanning the whole text
// ------------------------------------------------------------------
/// Line start of the line after the first header of `table` at or after
/// line start `i`.
pub open spec fn find_table(s: Seq<char>, table: Seq<char>, i: int) -> Option<int>
    decreases s.len() - i,
    when 0 <= i <= s.len()
    via find_table_decreases
{
    if i >= s.len() {
        None
    } else {
        let e = find_nl(s, i);
        if line_is_table_header(s, i, e, table) {
            if e < s.len() {
                Some(e + 1)
            } else {
                Some(s.len() as int)
            }
        } else if e < s.len() {
            find_table(s, table, e + 1)
        } else {
            None
        }
    }
}

#[via_fn]
proof fn find_table_decreases(s: Seq<char>, table: Seq<char>, i: int) {
    lemma_find_nl(s, i);
}

/// The first version span on the lines from line start `i` up to the next
/// table header.
pub open spec fn find_version_span_from(s: Seq<char>, i: int) -> Option<(int, int)>
    decreases s.len() - i,
    when 0 <= i <= s.len()
    via find_version_span_from_decreases
{
    if i >= s.len() {
        None
    } else {
        let e = find_nl(s, i);
        if line_is_any_header(s, i, e) {
            None
        } else {
            match line_version_span(s, i, e) {
                Some(span) => Some(span),
                None => if e < s.len() {
                    find_version_span_from(s, e + 1)
                } else {
                    None
                },
            }
        }
    }
}

#[via_fn]
proof fn find_version_span_from_decreases(s: Seq<char>, i: int) {
    lemma_find_nl(s, i);
}

/// The span of the version value inside the table named `table`.
pub open spec fn toml_version_span(s: Seq<char>, table: Seq<char>) -> Option<(int, int)> {
    match find_table(s, table, 0) {
        None => None,
        Some(i) => find_version_span_from(s, i),
    }
}

/// A found span lies within the text and the quoted value holds no quote.
pub proof fn lemma_version_span_bounds_from(s: Seq<char>, i: int)
    requires
        0 <= i <= s.len(),
        find_version_span_from(s, i) is Some,
    ensures
        0 <= find_version_span_from(s, i)->Some_0.0 <= find_version_span_from(s, i)->Some_0.1
            <= s.len(),
        forall|j: int|
            find_version_span_from(s, i)->Some_0.0 <= j < find_version_span_from(
                s,
                i,
            )->Some_0.1 ==> s[j] != '"',
    decreases s.len() - i,
{
    let e = find_nl(s, i);
    lemma_find_nl(s, i);
    if !line_is_any_header(s, i, e) {
        match line_version_span(s, i, e) {
            Some(span) => {
                let a = skip_blanks(s, i, e);
                lemma_skip_blanks(s, i, e);
                let b = skip_blanks(s, a + 7, e);
                lemma_skip_blanks(s, a + 7, e);
                let c = skip_blanks(s, b + 1, e);
                lemma_skip_blanks(s, b + 1, e);
                lemma_scan_to_quote(s, c + 1, e);
            },
            None => {
                if e < s.len() {
                    lemma_version_span_bounds_from(s, e + 1);
                }
            },
        }
    }
}

pub proof fn lemma_toml_span_bounds(s: Seq<char>, table: Seq<char>)
    requires
        toml_version_span(s, table) is Some,
    ensures
        0 <= toml_version_span(s, table)->Some_0.0 <= toml_version_span(s, table)->Some_0.1
            <= s.len(),
        forall|j: int|
            toml_version_span(s, table)->Some_0.0 <= j < toml_version_span(
                s,
                table,
            )->Some_0.1 ==> s[j] != '"',
{
    let i = find_table(s, table, 0)->Some_0;
    lemma_find_table_bounds(s, table, 0);
    lemma_version_span_bounds_from(s, i);
}

pub proof fn lemma_find_table_bounds(s: Seq<char>, table: Seq<char>, i: int)
    requires
        0 <= i <= s.len(),
        find_table(s, table, i) is Some,
    ensures
        i <= find_table(s, table, i)->Some_0 <= s.len(),
    decreases s.len() - i,
{
    let e = find_nl(s, i);
    lemma_find_nl(s, i);
    if !line_is_table_header(s, i, e, table) && e < s.len() {
        lemma_find_table_bounds(s, table, e + 1);
    }
}

// ------------------------------------------------------------------
// Executable scanner
// ------------------------------------------------------------------
pub fn find_nl_exec(v: &Vec<char>, start: usize) -> (r: usize)
    requires
        start <= v@.len(),
    ensures
        r == find_nl(v@, start as int),
        start <= r <= v@.len(),
{
    let mut i = start;
    while i < v.len() && v[i] != '\n'
        invariant
            start <= i <= v@.len(),
            find_nl(v@, start as int) == find_nl(v@, i as int),
        decreases v@.len() - i,
    {
        i = i + 1;
    }
    assert(find_nl(v@, i as int) == i);
    i
}

pub fn skip_blanks_exec(v: &Vec<char>, start: usize, e: usize) -> (r: usize)
    requires
        start <= e <= v@.len(),
    ensures
        r == skip_blanks(v@, start as int, e as int),
        start <= r <= e,
{
    let mut i = start;
    while i < e && (v[i] == ' ' || v[i] == '\t')
        invariant
            start <= i <= e <= v@.len(),
            skip_blanks(v@, start as int, e as int) == skip_blanks(v@, i as int, e as int),
        decreases e - i,
    {
        assert(is_blank(v@[i as int]));
        i = i + 1;
    }
    assert(skip_blanks(v@, i as int, e as int) == i);
    i
}

pub fn trim_end_exec(v: &Vec<char>, start: usize, e: usize) -> (r: usize)
    requires
        start <= e <= v@.len(),
    ensures
        r == trim_end(v@, start as int, e as int),
        start <= r <= e,
{
    let mut i = e;
    while i > start && (v[i - 1] == ' ' || v[i - 1] == '\t' || v[i - 1] == '\r')
        invariant
            start <= i <= e <= v@.len(),
            trim_end(v@, start as int, e as int) == trim_end(v@, start as int, i as int),
        decreases i,
    {
        assert(is_blank(v@[i - 1]) || v@[i - 1] == '\r');
        i = i - 1;
    }
    assert(trim_end(v@, start as int, i as int) == i);
    i
}

pub fn scan_to_quote_exec(v: &Vec<char>, start: usize, e: usize) -> (r: usize)
    requires
        start <= e <= v@.len(),
    ensures
        r == scan_to_quote(v@, start as int, e as int),
        start <= r <= e,
{
    let mut i = start;
    while i < e && v[i] != '"'
        invariant
            start <= i <= e <= v@.len(),
            scan_to_quote(v@, start as int, e as int) == scan_to_quote(v@, i as int, e as int),
        decreases e - i,
    {
        i = i + 1;
    }
    assert(scan_to_quote(v@, i as int, e as int) == i);
    i
}

/// Whether `key` occurs character for character at position `a`, entirely
/// before `e`.
pub fn str_at_exec(v: &Vec<char>, a: usize, e: usize, key: &str) -> (r: bool)
    requires
        a <= e <= v@.len(),
    ensures
        r == (a + key@.len() <= e && v@.subrange(a as int, a + key@.len()) == key@),
{
    let n = key.unicode_len();
    if e - a < n {
        return false;
    }
    let mut k: usize = 0;
    while k < n
        invariant
            n == key@.len(),
            a + n <= e <= v@.len(),
            k <= n,
            forall|j: int| 0 <= j < k ==> v@[a + j] == key@[j],
        decreases n - k,
    {
        if v[a + k] != key.get_char(k) {
            assert(v@.subrange(a as int, a + key@.len()) != key@) by {
                assert(v@.subrange(a as int, a + key@.len())[k as int] == v@[a + k]);
            }
            return false;
        }
        k = k + 1;
    }
    assert(v@.subrange(a as int, a + key@.len()) =~= key@);
    true
}

pub fn line_is_any_header_exec(v: &Vec<char>, i: usize, e: usize) -> (r: bool)
    requires
        i <= e <= v@.len(),
    ensures
        r == line_is_any_header(v@, i as int, e as int),
{
    let a = skip_blanks_exec(v, i, e);
    a < e && v[a] == '['
}

pub fn line_is_table_header_exec(v: &Vec<char>, i: usize, e: usize, table: &str) -> (r: bool)
    requires
        i <= e <= v@.len(),
    ensures
        r == line_is_table_header(v@, i as int, e as int, table@),
{
    let a = skip_blanks_exec(v, i, e);
    let b = trim_end_exec(v, a, e);
    if a >= e || b - a < 2 {
        return false;
    }
    if !(b - a - 2 == table.unicode_len()) {
        return false;
    }
    if v[a] != '[' || v[b - 1] != ']' {
        return false;
    }
    let r = str_at_exec(v, a + 1, b - 1, table);
    assert(a + 1 + table@.len() == b - 1);
    r
}

/// The version-value span on one line, as the spec function finds it.
pub fn line_version_span_exec(v: &Vec<char>, i: usize, e: usize) -> (r: Option<(usize, usize)>)
    requires
        i <= e <= v@.len(),
    ensures
        match r {
            Some((a, b)) => line_version_span(v@, i as int, e as int) == Some((a as int, b as int))
                && i <= a <= b <= e,
            None => line_version_span(v@, i as int, e as int) is None,
        },
{
    proof {
        reveal_strlit("version");
    }
    let a = skip_blanks_exec(v, i, e);
    if !str_at_exec(v, a, e, "version") {
        return None;
    }
    let b = skip_blanks_exec(v, a + 7, e);
    if !(b < e && v[b] == '=') {
        return None;
    }
    let c = skip_blanks_exec(v, b + 1, e);
    if !(c < e && v[c] == '"') {
        return None;
    }
    let d = scan_to_quote_exec(v, c + 1, e);
    if !(d < e && v[d] == '"') {
        proof {
            lemma_scan_to_quote(v@, c + 1 as int, e as int);
        }
        return None;
    }
    let bs = scan_to_backslash_exec(v, c + 1, d);
    if bs != d {
        return None;
    }
    let t = skip_blanks_exec(v, d + 1, e);
    let te = trim_end_exec(v, t, e);
    if te == t {
        return Some((c + 1, d));
    }
    assert(t < e) by {
        lemma_trim_end(v@, t as int, e as int);
    }
    if v[t] == '#' {
        return Some((c + 1, d));
    }
    None
}

/// Line start after the first `[table]` header, scanning whole lines.
pub fn find_table_exec(v: &Vec<char>, table: &str) -> (r: Option<usize>)
    ensures
        match r {
            Some(i) => find_table(v@, table@, 0) == Some(i as int) && i <= v@.len(),
            None => find_table(v@, table@, 0) is None,
        },
{
    let n = v.len();
    let mut i: usize = 0;
    loop
        invariant
            i <= n,
            n == v@.len(),
            find_table(v@, table@, 0) == find_table(v@, table@, i as int),
        decreases n - i,
    {
        if i >= n {
            return None;
        }
        let e = find_nl_exec(v, i);
        if line_is_table_header_exec(v, i, e, table) {
            if e < n {
                return Some(e + 1);
            } else {
                return Some(n);
            }
        }
        if e >= n {
            return None;
        }
        i = e + 1;
    }
}

/// The first version span from line start `i` up to the next header.
pub fn find_version_span_from_exec(v: &Vec<char>, start: usize) -> (r: Option<(usize, usize)>)
    requires
        start <= v@.len(),
    ensures
        match r {
            Some((a, b)) => find_version_span_from(v@, start as int) == Some((a as int, b as int))
                && a <= b <= v@.len(),
            None => find_version_span_from(v@, start as int) is None,
        },
{
    let n = v.len();
    let mut i = start;
    loop
        invariant
            start <= i <= n,
            n == v@.len(),
            find_version_span_from(v@, start as int) == find_version_span_from(v@, i as int),
        decreases n - i,
    {
        if i >= n {
            return None;
        }
        let e = find_nl_exec(v, i);
        if line_is_any_header_exec(v, i, e) {
            return None;
        }
        match line_version_span_exec(v, i, e) {
            Some((a, b)) => {
                return Some((a, b));
            },
            None => {},
        }
        if e >= n {
            return None;
        }
        i = e + 1;
    }
}

/// The span of the version value inside `[table]`, as the spec finds it.
pub fn toml_version_span_exec(v: &Vec<char>, table: &str) -> (r: Option<(usize, usize)>)
    ensures
        match r {
            Some((a, b)) => toml_version_span(v@, table@) == Some((a as int, b as int)) && a <= b
                <= v@.len(),
            None => toml_version_span(v@, table@) is None,
        },
{
    match find_table_exec(v, table) {
        None => None,
        Some(i) => find_version_span_from_exec(v, i),
    }
}

} // verus!
