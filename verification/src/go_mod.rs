//! The `go.mod` manifest adapter.  The version of a Go module lives in its
//! `module` line: a `/vN` suffix on the module path carries the major
//! version (for majors of two and above), and a trailing `// vX.Y.Z`
//! comment, when present, overrides everything for reads.  Writes update
//! the suffix and the comment and leave every other character unchanged.

use vstd::prelude::*;

use crate::chars::{
    chars_to_string, is_blank, is_digit, range_to_string, str_to_chars,
};
use crate::errors::Error;
use crate::semver::{
    dec_chars, digits_val, lemma_parse_sound, spec_parse, version_chars, wf_version,
    Version, VersionV,
};
use crate::toml_scan::{
    find_nl, find_nl_exec, lemma_find_nl, lemma_skip_blanks, lemma_trim_end, skip_blanks,
    skip_blanks_exec, str_at_exec, trim_end, trim_end_exec,
};

verus! {

// ------------------------------------------------------------------
// Pieces of the module line
// ------------------------------------------------------------------
/// First blank at or after `i` within `[i, e)`, or `e`.
pub open spec fn scan_to_blank(s: Seq<char>, i: int, e: int) -> int
    decreases e - i,
    when 0 <= i <= e <= s.len()
{
    if i < e && !is_blank(s[i]) {
        scan_to_blank(s, i + 1, e)
    } else {
        i
    }
}

pub proof fn lemma_scan_to_blank(s: Seq<char>, i: int, e: int)
    requires
        0 <= i <= e <= s.len(),
    ensures
        i <= scan_to_blank(s, i, e) <= e,
        forall|j: int| i <= j < scan_to_blank(s, i, e) ==> !is_blank(#[trigger] s[j]),
        scan_to_blank(s, i, e) < e ==> is_blank(s[scan_to_blank(s, i, e)]),
    decreases e - i,
{
    if i < e && !is_blank(s[i]) {
        lemma_scan_to_blank(s, i + 1, e);
    }
}

pub fn scan_to_blank_exec(v: &Vec<char>, start: usize, e: usize) -> (r: usize)
    requires
        start <= e <= v@.len(),
    ensures
        r == scan_to_blank(v@, start as int, e as int),
        start <= r <= e,
{
    let mut i = start;
    while i < e && !(v[i] == ' ' || v[i] == '\t')
        invariant
            start <= i <= e <= v@.len(),
            scan_to_blank(v@, start as int, e as int) == scan_to_blank(v@, i as int, e as int),
        decreases e - i,
    {
        assert(!is_blank(v@[i as int]));
        i = i + 1;
    }
    assert(scan_to_blank(v@, i as int, e as int) == i);
    i
}

/// Start of the maximal digit run ending just before `i`, at or after `a`.
pub open spec fn scan_digits_back(s: Seq<char>, a: int, i: int) -> int
    decreases i - a,
    when 0 <= a <= i <= s.len()
{
    if i > a && is_digit(s[i - 1]) {
        scan_digits_back(s, a, i - 1)
    } else {
        i
    }
}

pub proof fn lemma_scan_digits_back(s: Seq<char>, a: int, i: int)
    requires
        0 <= a <= i <= s.len(),
    ensures
        a <= scan_digits_back(s, a, i) <= i,
        forall|j: int| scan_digits_back(s, a, i) <= j < i ==> is_digit(#[trigger] s[j]),
        scan_digits_back(s, a, i) > a ==> !is_digit(s[scan_digits_back(s, a, i) - 1]),
    decreases i - a,
{
    if i > a && is_digit(s[i - 1]) {
        lemma_scan_digits_back(s, a, i - 1);
    }
}

pub fn scan_digits_back_exec(v: &Vec<char>, a: usize, i: usize) -> (r: usize)
    requires
        a <= i <= v@.len(),
    ensures
        r == scan_digits_back(v@, a as int, i as int),
        a <= r <= i,
{
    let mut k = i;
    while k > a && '0' <= v[k - 1] && v[k - 1] <= '9'
        invariant
            a <= k <= i <= v@.len(),
            scan_digits_back(v@, a as int, i as int) == scan_digits_back(v@, a as int, k as int),
        decreases k,
    {
        assert(is_digit(v@[k - 1]));
        k = k - 1;
    }
    assert(scan_digits_back(v@, a as int, k as int) == k);
    k
}

// ------------------------------------------------------------------
// The module line
// ------------------------------------------------------------------
/// Whether the line at `[i, e)` opens with the word `module` and a blank.
pub open spec fn line_starts_module(s: Seq<char>, i: int, e: int) -> bool {
    i + 7 <= e && s.subrange(i, i + 6) == "module"@ && is_blank(s[i + 6])
}

/// Line start of the first `module` line.
pub open spec fn find_module_line(s: Seq<char>, i: int) -> Option<int>
    decreases s.len() - i,
    when 0 <= i <= s.len()
    via find_module_line_decreases
{
    if i >= s.len() {
        None
    } else {
        let e = find_nl(s, i);
        if line_starts_module(s, i, e) {
            Some(i)
        } else if e < s.len() {
            find_module_line(s, e + 1)
        } else {
            None
        }
    }
}

#[via_fn]
proof fn find_module_line_decreases(s: Seq<char>, i: int) {
    lemma_find_nl(s, i);
}

/// Start of the module path on the module line at `i`.
pub open spec fn path_start(s: Seq<char>, i: int) -> int {
    skip_blanks(s, i + 6, find_nl(s, i))
}

/// End of the module path on the module line at `i`.
pub open spec fn path_end(s: Seq<char>, i: int) -> int {
    scan_to_blank(s, path_start(s, i), find_nl(s, i))
}

/// Whether the module path carries a `/vN` major suffix: a nonempty digit
/// run without a leading zero, a value that fits a `u64`, preceded by `/v`.
pub open spec fn suffix_digits_start(s: Seq<char>, i: int) -> int {
    scan_digits_back(s, path_start(s, i), path_end(s, i))
}

pub open spec fn has_suffix(s: Seq<char>, i: int) -> bool {
    let ap = path_start(s, i);
    let bp = path_end(s, i);
    let d0 = suffix_digits_start(s, i);
    d0 < bp && d0 >= ap + 2 && s[d0 - 1] == 'v' && s[d0 - 2] == '/' && (s[d0] != '0' || d0 + 1
        == bp) && digits_val(s.subrange(d0, bp)) <= u64::MAX
}

/// The span of the version text inside a trailing `// vX.Y.Z` comment, when
/// the rest of the line has exactly that shape.
pub open spec fn comment_vspan(s: Seq<char>, i: int) -> Option<(int, int)> {
    let e = find_nl(s, i);
    let bp = path_end(s, i);
    let t0 = skip_blanks(s, bp, e);
    if trim_end(s, t0, e) == t0 {
        None
    } else if t0 + 2 <= e && s[t0] == '/' && s[t0 + 1] == '/' {
        let t1 = skip_blanks(s, t0 + 2, e);
        if t1 < e && s[t1] == 'v' {
            Some((t1 + 1, trim_end(s, t1 + 1, e)))
        } else {
            None
        }
    } else {
        None
    }
}

/// Whether the rest of the module line after the path is acceptable:
/// nothing but blanks, or a well-formed version comment.
pub open spec fn line_tail_ok(s: Seq<char>, i: int) -> bool {
    let e = find_nl(s, i);
    let bp = path_end(s, i);
    let t0 = skip_blanks(s, bp, e);
    trim_end(s, t0, e) == t0 || comment_vspan(s, i) is Some
}

/// Whether the manifest has a module line this adapter can work with.
pub open spec fn gomod_line_ok(s: Seq<char>) -> bool {
    match find_module_line(s, 0) {
        None => false,
        Some(i) => path_start(s, i) < path_end(s, i) && line_tail_ok(s, i),
    }
}

// ------------------------------------------------------------------
// Reading and writing
// ------------------------------------------------------------------
/// The version a `go.mod` declares: the comment version when present, else
/// the major of the `/vN` suffix with zero minor and patch, else `0.0.0`.
pub open spec fn gomod_read(c: Seq<char>) -> Option<VersionV> {
    if !gomod_line_ok(c) {
        None
    } else {
        let i = find_module_line(c, 0)->Some_0;
        match comment_vspan(c, i) {
            Some((a, b)) => spec_parse(c.subrange(a, b)),
            None => if has_suffix(c, i) {
                Some(
                    VersionV {
                        major: digits_val(c.subrange(suffix_digits_start(c, i), path_end(c, i))),
                        minor: 0,
                        patch: 0,
                        pre: Seq::empty(),
                    },
                )
            } else {
                Some(VersionV { major: 0, minor: 0, patch: 0, pre: Seq::empty() })
            },
        }
    }
}

/// The replacement for the suffix region, and that region's bounds.
pub open spec fn suffix_edit(c: Seq<char>, i: int, v: VersionV) -> (int, int, Seq<char>) {
    let bp = path_end(c, i);
    let d0 = suffix_digits_start(c, i);
    if v.major >= 2 {
        if has_suffix(c, i) {
            (d0, bp, dec_chars(v.major))
        } else {
            (bp, bp, seq!['/', 'v'] + dec_chars(v.major))
        }
    } else {
        if has_suffix(c, i) {
            (d0 - 2, bp, Seq::empty())
        } else {
            (bp, bp, Seq::empty())
        }
    }
}

/// The replacement for the comment region, and that region's bounds.
pub open spec fn comment_edit(c: Seq<char>, i: int, v: VersionV) -> (int, int, Seq<char>) {
    match comment_vspan(c, i) {
        Some((a, b)) => (a, b, version_chars(v)),
        None => (
            path_end(c, i),
            path_end(c, i),
            seq![' ', '/', '/', ' ', 'v'] + version_chars(v),
        ),
    }
}

/// The manifest with the suffix and comment regions replaced.
pub open spec fn gomod_write(c: Seq<char>, v: VersionV) -> Option<Seq<char>> {
    if !gomod_line_ok(c) {
        None
    } else {
        let i = find_module_line(c, 0)->Some_0;
        let (x0, x1, xt) = suffix_edit(c, i, v);
        let (y0, y1, yt) = comment_edit(c, i, v);
        Some(
            c.subrange(0, x0) + xt + c.subrange(x1, y0) + yt + c.subrange(y1, c.len() as int),
        )
    }
}

/// The positions every edit relies on lie in order within the text.
pub proof fn lemma_gomod_positions(c: Seq<char>, i: int)
    requires
        0 <= i <= c.len(),
        find_module_line(c, 0) == Some(i),
    ensures
        i <= i + 6 <= path_start(c, i) <= suffix_digits_start(c, i) <= path_end(c, i)
            <= find_nl(c, i) <= c.len(),
        comment_vspan(c, i) matches Some((a, b)) ==> path_end(c, i) <= a <= b <= find_nl(c, i),
{
    lemma_find_module_line_bounds(c, 0);
    let e = find_nl(c, i);
    lemma_find_nl(c, i);
    lemma_skip_blanks(c, i + 6, e);
    lemma_scan_to_blank(c, path_start(c, i), e);
    lemma_scan_digits_back(c, path_start(c, i), path_end(c, i));
    let bp = path_end(c, i);
    let t0 = skip_blanks(c, bp, e);
    lemma_skip_blanks(c, bp, e);
    if !(trim_end(c, t0, e) == t0) && t0 + 2 <= e && c[t0] == '/' && c[t0 + 1] == '/' {
        let t1 = skip_blanks(c, t0 + 2, e);
        lemma_skip_blanks(c, t0 + 2, e);
        if t1 < e && c[t1] == 'v' {
            lemma_trim_end(c, t1 + 1, e);
        }
    }
}

pub proof fn lemma_find_module_line_bounds(c: Seq<char>, i: int)
    requires
        0 <= i <= c.len(),
        find_module_line(c, i) is Some,
    ensures
        i <= find_module_line(c, i)->Some_0 <= c.len(),
        line_starts_module(
            c,
            find_module_line(c, i)->Some_0,
            find_nl(c, find_module_line(c, i)->Some_0),
        ),
    decreases c.len() - i,
{
    let e = find_nl(c, i);
    lemma_find_nl(c, i);
    if !line_starts_module(c, i, e) && e < c.len() {
        lemma_find_module_line_bounds(c, e + 1);
    }
}

// ------------------------------------------------------------------
// Executable adapter
// ------------------------------------------------------------------
fn find_module_line_exec(v: &Vec<char>) -> (r: Option<usize>)
    ensures
        match r {
            Some(i) => find_module_line(v@, 0) == Some(i as int) && i <= v@.len(),
            None => find_module_line(v@, 0) is None,
        },
{
    proof {
        reveal_strlit("module");
    }
    let n = v.len();
    let mut i: usize = 0;
    loop
        invariant
            i <= n,
            n == v@.len(),
            find_module_line(v@, 0) == find_module_line(v@, i as int),
        decreases n - i,
    {
        if i >= n {
            return None;
        }
        proof {
            reveal_strlit("module");
        }
        let e = find_nl_exec(v, i);
        let starts = if str_at_exec(v, i, e, "module") {
            e - i >= 7 && (v[i + 6] == ' ' || v[i + 6] == '\t')
        } else {
            false
        };
        assert(starts == line_starts_module(v@, i as int, e as int));
        if starts {
            return Some(i);
        }
        if e >= n {
            return None;
        }
        i = e + 1;
    }
}

/// The version declared by `content`, or the error that pins down why it
/// has none: no acceptable module line, or a comment that is not a version.
pub fn get_version(content: &str, path: &str) -> (r: Result<Version, Error>)
    ensures
        match r {
            Ok(ver) => gomod_read(content@) == Some(ver@) && wf_version(ver@),
            Err(e) => gomod_read(content@) is None && match e {
                Error::ManifestParse { path: p } => !gomod_line_ok(content@) && p@ == path@,
                Error::SemverParse { text } => gomod_line_ok(content@) && (comment_vspan(
                    content@,
                    find_module_line(content@, 0)->Some_0,
                ) matches Some((a, b)) && text@ == content@.subrange(a, b)),
                _ => false,
            },
        },
{
    let v = str_to_chars(content);
    let i = match find_module_line_exec(&v) {
        None => {
            return Err(Error::ManifestParse { path: String::from_str(path) });
        },
        Some(i) => i,
    };
    proof {
        lemma_gomod_positions(v@, i as int);
    }
    let e = find_nl_exec(&v, i);
    let ap = skip_blanks_exec(&v, i + 6, e);
    let bp = scan_to_blank_exec(&v, ap, e);
    assert(ap == path_start(v@, i as int) && bp == path_end(v@, i as int));
    if ap >= bp {
        return Err(Error::ManifestParse { path: String::from_str(path) });
    }
    let t0 = skip_blanks_exec(&v, bp, e);
    let t0e = trim_end_exec(&v, t0, e);
    let mut comment: Option<(usize, usize)> = None;
    if t0e != t0 {
        if e - t0 >= 2 && v[t0] == '/' && v[t0 + 1] == '/' {
            let t1 = skip_blanks_exec(&v, t0 + 2, e);
            if t1 < e && v[t1] == 'v' {
                let cb = trim_end_exec(&v, t1 + 1, e);
                comment = Some((t1 + 1, cb));
            } else {
                return Err(Error::ManifestParse { path: String::from_str(path) });
            }
        } else {
            return Err(Error::ManifestParse { path: String::from_str(path) });
        }
    }
    assert(comment matches Some((a, b)) ==> comment_vspan(v@, i as int) == Some((
        a as int,
        b as int,
    )));
    assert(comment is None ==> comment_vspan(v@, i as int) is None);
    assert(gomod_line_ok(v@));
    match comment {
        Some((ca, cb)) => {
            let text = range_to_string(&v, ca, cb);
            Version::parse(text.as_str())
        },
        None => {
            let d0 = scan_digits_back_exec(&v, ap, bp);
            if d0 < bp && d0 - ap >= 2 && v[d0 - 1] == 'v' && v[d0 - 2] == '/' && (v[d0] != '0'
                || bp - d0 == 1) {
                proof {
                    lemma_scan_digits_back(v@, ap as int, bp as int);
                    assert(crate::chars::all_digits(v@.subrange(d0 as int, bp as int))) by {
                        assert(forall|m: int|
                            0 <= m < bp - d0 ==> v@.subrange(d0 as int, bp as int)[m] == v@[d0
                                + m]);
                    }
                }
                match crate::semver::digits_value(&v, d0, bp) {
                    Some(major) => {
                        assert(has_suffix(v@, i as int));
                        let out = Version { major, minor: 0, patch: 0, pre: Vec::new() };
                        assert(out@.pre =~= Seq::<crate::semver::IdentV>::empty());
                        return Ok(out);
                    },
                    None => {
                        assert(!has_suffix(v@, i as int));
                    },
                }
            } else {
                assert(!has_suffix(v@, i as int));
            }
            let out = Version { major: 0, minor: 0, patch: 0, pre: Vec::new() };
            assert(out@.pre =~= Seq::<crate::semver::IdentV>::empty());
            assert(gomod_read(v@) == Some(out@));
            Ok(out)
        },
    }
}

/// `content` with the module-path suffix and the version comment brought in
/// line with `new_version`, or a `ManifestParse` error when no acceptable
/// module line exists.
pub fn set_version(content: &str, new_version: &Version, path: &str) -> (r: Result<String, Error>)
    requires
        wf_version(new_version@),
    ensures
        match r {
            Ok(out) => gomod_write(content@, new_version@) == Some(out@),
            Err(e) => gomod_write(content@, new_version@) is None && (e matches
                Error::ManifestParse { path: p } && p@ == path@),
        },
{
    let v = str_to_chars(content);
    let i = match find_module_line_exec(&v) {
        None => {
            return Err(Error::ManifestParse { path: String::from_str(path) });
        },
        Some(i) => i,
    };
    proof {
        lemma_gomod_positions(v@, i as int);
    }
    let e = find_nl_exec(&v, i);
    let ap = skip_blanks_exec(&v, i + 6, e);
    let bp = scan_to_blank_exec(&v, ap, e);
    assert(ap == path_start(v@, i as int) && bp == path_end(v@, i as int));
    if ap >= bp {
        return Err(Error::ManifestParse { path: String::from_str(path) });
    }
    let t0 = skip_blanks_exec(&v, bp, e);
    let t0e = trim_end_exec(&v, t0, e);
    let mut comment: Option<(usize, usize)> = None;
    if t0e != t0 {
        if e - t0 >= 2 && v[t0] == '/' && v[t0 + 1] == '/' {
            let t1 = skip_blanks_exec(&v, t0 + 2, e);
            if t1 < e && v[t1] == 'v' {
                let cb = trim_end_exec(&v, t1 + 1, e);
                comment = Some((t1 + 1, cb));
            } else {
                return Err(Error::ManifestParse { path: String::from_str(path) });
            }
        } else {
            return Err(Error::ManifestParse { path: String::from_str(path) });
        }
    }
    assert(comment matches Some((a, b)) ==> comment_vspan(v@, i as int) == Some((
        a as int,
        b as int,
    )));
    assert(comment is None ==> comment_vspan(v@, i as int) is None);
    assert(gomod_line_ok(v@));
    // The suffix region and its replacement.
    let d0 = scan_digits_back_exec(&v, ap, bp);
    let mut sfx = false;
    if d0 < bp && d0 - ap >= 2 && v[d0 - 1] == 'v' && v[d0 - 2] == '/' && (v[d0] != '0' || bp - d0
        == 1) {
        proof {
            lemma_scan_digits_back(v@, ap as int, bp as int);
            assert(crate::chars::all_digits(v@.subrange(d0 as int, bp as int))) by {
                assert(forall|m: int|
                    0 <= m < bp - d0 ==> v@.subrange(d0 as int, bp as int)[m] == v@[d0 + m]);
            }
        }
        match crate::semver::digits_value(&v, d0, bp) {
            Some(_) => {
                sfx = true;
            },
            None => {
                sfx = false;
            },
        }
    }
    assert(sfx == has_suffix(v@, i as int));
    let x0: usize;
    let x1: usize;
    let mut xt: Vec<char> = Vec::new();
    if new_version.major >= 2 {
        if sfx {
            x0 = d0;
            x1 = bp;
        } else {
            x0 = bp;
            x1 = bp;
            xt.push('/');
            xt.push('v');
        }
        crate::semver::push_dec_chars(&mut xt, new_version.major);
    } else {
        if sfx {
            x0 = d0 - 2;
            x1 = bp;
        } else {
            x0 = bp;
            x1 = bp;
        }
    }
    proof {
        let (sx0, sx1, sxt) = suffix_edit(v@, i as int, new_version@);
        assert(x0 == sx0 && x1 == sx1);
        assert(xt@ =~= sxt);
    }
    // The comment region and its replacement.
    let y0: usize;
    let y1: usize;
    let mut yt: Vec<char> = Vec::new();
    match comment {
        Some((ca, cb)) => {
            y0 = ca;
            y1 = cb;
        },
        None => {
            y0 = bp;
            y1 = bp;
            yt.push(' ');
            yt.push('/');
            yt.push('/');
            yt.push(' ');
            yt.push('v');
        },
    }
    let vs = new_version.display();
    let vsc = str_to_chars(vs.as_str());
    let mut k: usize = 0;
    let ghost ybase = yt@;
    while k < vsc.len()
        invariant
            k <= vsc@.len(),
            vsc@ == version_chars(new_version@),
            yt@ == ybase + vsc@.subrange(0, k as int),
        decreases vsc@.len() - k,
    {
        yt.push(vsc[k]);
        k = k + 1;
        assert(yt@ =~= ybase + vsc@.subrange(0, k as int));
    }
    assert(vsc@.subrange(0, vsc@.len() as int) =~= vsc@);
    proof {
        let (sy0, sy1, syt) = comment_edit(v@, i as int, new_version@);
        assert(y0 == sy0 && y1 == sy1);
        assert(yt@ =~= syt);
    }
    // Assemble the new text.
    let n = content.unicode_len();
    let p0 = content.substring_char(0, x0);
    let p1 = content.substring_char(x1, y0);
    let p2 = content.substring_char(y1, n);
    let xs = chars_to_string(&xt);
    let ys = chars_to_string(&yt);
    let mut out = String::from_str(p0);
    out.append(xs.as_str());
    out.append(p1);
    out.append(ys.as_str());
    out.append(p2);
    proof {
        let (sx0, sx1, sxt) = suffix_edit(v@, i as int, new_version@);
        let (sy0, sy1, syt) = comment_edit(v@, i as int, new_version@);
        assert(out@ =~= v@.subrange(0, sx0) + sxt + v@.subrange(sx1, sy0) + syt + v@.subrange(
            sy1,
            v@.len() as int,
        ));
    }
    Ok(out)
}

/// Reading a `go.mod` whose version comes from its comment and whose suffix
/// already agrees with that version, then writing the same version back,
/// yields the text unchanged.  A `go.mod` without a comment gains one on
/// write, so the round trip is stated for the normalized form.
pub proof fn lemma_gomod_round_trip(c: Seq<char>)
    requires
        gomod_read(c) is Some,
        gomod_line_ok(c),
        comment_vspan(c, find_module_line(c, 0)->Some_0) is Some,
        gomod_read(c)->Some_0.major >= 2 ==> has_suffix(c, find_module_line(c, 0)->Some_0)
            && c.subrange(
            suffix_digits_start(c, find_module_line(c, 0)->Some_0),
            path_end(c, find_module_line(c, 0)->Some_0),
        ) == dec_chars(gomod_read(c)->Some_0.major),
        gomod_read(c)->Some_0.major < 2 ==> !has_suffix(c, find_module_line(c, 0)->Some_0),
    ensures
        gomod_write(c, gomod_read(c)->Some_0) == Some(c),
{
    let i = find_module_line(c, 0)->Some_0;
    lemma_find_module_line_bounds(c, 0);
    lemma_gomod_positions(c, i);
    let v = gomod_read(c)->Some_0;
    let (a, b) = comment_vspan(c, i)->Some_0;
    lemma_parse_sound(c.subrange(a, b));
    assert(version_chars(v) == c.subrange(a, b));
    let (x0, x1, xt) = suffix_edit(c, i, v);
    let (y0, y1, yt) = comment_edit(c, i, v);
    assert(xt == c.subrange(x0, x1));
    assert(yt == c.subrange(y0, y1));
    assert(c.subrange(0, x0) + c.subrange(x0, x1) + c.subrange(x1, y0) + c.subrange(y0, y1)
        + c.subrange(y1, c.len() as int) =~= c);
}

} // verus!
