//! The package.json manifest adapter: finds the string value of the
//! top-level `version` key by walking the characters of the document while
//! tracking brace depth, and rewrites exactly the characters between the
//! quotes of that value.

use vstd::prelude::*;

use crate::chars::{lemma_splice_identity, range_to_string, splice, str_to_chars};
use crate::errors::Error;
use crate::semver::{
    lemma_parse_sound, spec_parse, version_chars, wf_version, Version, VersionV,
};
use crate::toml_scan::{scan_to_backslash, scan_to_backslash_exec};

verus! {

/// JSON whitespace.
pub open spec fn is_json_ws(c: char) -> bool {
    c == ' ' || c == '\t' || c == '\r' || c == '\n'
}

/// First non-whitespace position at or after `i`, or the end.
pub open spec fn skip_json_ws(s: Seq<char>, i: int) -> int
    decreases s.len() - i,
    when 0 <= i <= s.len()
{
    if i < s.len() && is_json_ws(s[i]) {
        skip_json_ws(s, i + 1)
    } else {
        i
    }
}

pub proof fn lemma_skip_json_ws(s: Seq<char>, i: int)
    requires
        0 <= i <= s.len(),
    ensures
        i <= skip_json_ws(s, i) <= s.len(),
    decreases s.len() - i,
{
    if i < s.len() && is_json_ws(s[i]) {
        lemma_skip_json_ws(s, i + 1);
    }
}

/// Position of the closing quote of a string whose content starts at `i`,
/// skipping escaped characters, or `e` when unterminated.
pub open spec fn string_end(s: Seq<char>, i: int, e: int) -> int
    decreases e - i,
    when 0 <= i <= e <= s.len()
{
    if i >= e {
        e
    } else if s[i] == '\\' {
        if i + 1 < e {
            string_end(s, i + 2, e)
        } else {
            e
        }
    } else if s[i] == '"' {
        i
    } else {
        string_end(s, i + 1, e)
    }
}

pub proof fn lemma_string_end(s: Seq<char>, i: int, e: int)
    requires
        0 <= i <= e <= s.len(),
    ensures
        i <= string_end(s, i, e) <= e,
    decreases e - i,
{
    if i < e {
        if s[i] == '\\' {
            if i + 1 < e {
                lemma_string_end(s, i + 2, e);
            }
        } else if s[i] != '"' {
            lemma_string_end(s, i + 1, e);
        }
    }
}

/// Walk the document from `i` at brace depth `depth` and yield the span of
/// the string value of the first top-level `version` key: a string at
/// depth one followed by a colon is a key; the matching value must be a
/// quoted text without escapes.
pub open spec fn json_scan(s: Seq<char>, i: int, depth: int) -> Option<(int, int)>
    decreases s.len() - i,
    when 0 <= i <= s.len()
    via json_scan_decreases
{
    if i >= s.len() {
        None
    } else {
        let c = s[i];
        if c == '"' {
            let j = string_end(s, i + 1, s.len() as int);
            if j >= s.len() {
                None
            } else if depth == 1 {
                let k = skip_json_ws(s, j + 1);
                if k < s.len() && s[k] == ':' {
                    if s.subrange(i + 1, j) == "version"@ {
                        let m = skip_json_ws(s, k + 1);
                        if m < s.len() && s[m] == '"' {
                            let w = string_end(s, m + 1, s.len() as int);
                            if w < s.len() && scan_to_backslash(s, m + 1, w) == w {
                                Some((m + 1, w))
                            } else {
                                None
                            }
                        } else {
                            None
                        }
                    } else {
                        json_scan(s, k + 1, depth)
                    }
                } else {
                    json_scan(s, j + 1, depth)
                }
            } else {
                json_scan(s, j + 1, depth)
            }
        } else if c == '{' || c == '[' {
            json_scan(s, i + 1, depth + 1)
        } else if c == '}' || c == ']' {
            if depth == 0 {
                None
            } else {
                json_scan(s, i + 1, depth - 1)
            }
        } else {
            json_scan(s, i + 1, depth)
        }
    }
}

#[via_fn]
proof fn json_scan_decreases(s: Seq<char>, i: int, depth: int) {
    if 0 <= i < s.len() && s[i] == '"' {
        lemma_string_end(s, i + 1, s.len() as int);
        let j = string_end(s, i + 1, s.len() as int);
        if j < s.len() {
            lemma_skip_json_ws(s, j + 1);
        }
    }
}

/// The span of the top-level `version` value within a package.json text.
pub open spec fn json_version_span(c: Seq<char>) -> Option<(int, int)> {
    json_scan(c, 0, 0)
}

/// The version a package.json declares, when its span is found and its
/// text is a valid version.
pub open spec fn json_read(c: Seq<char>) -> Option<VersionV> {
    match json_version_span(c) {
        None => None,
        Some((a, b)) => spec_parse(c.subrange(a, b)),
    }
}

/// The document with the version value replaced by the canonical text of
/// `v`, when the span is found.
pub open spec fn json_write(c: Seq<char>, v: VersionV) -> Option<Seq<char>> {
    match json_version_span(c) {
        None => None,
        Some((a, b)) => Some(splice(c, a, b, version_chars(v))),
    }
}

/// A found span lies within the text.
pub proof fn lemma_json_span_bounds(s: Seq<char>, i: int, depth: int)
    requires
        0 <= i <= s.len(),
        json_scan(s, i, depth) is Some,
    ensures
        0 <= json_scan(s, i, depth)->Some_0.0 <= json_scan(s, i, depth)->Some_0.1 <= s.len(),
    decreases s.len() - i,
{
    let c = s[i];
    if c == '"' {
        let j = string_end(s, i + 1, s.len() as int);
        lemma_string_end(s, i + 1, s.len() as int);
        if j < s.len() {
            if depth == 1 {
                let k = skip_json_ws(s, j + 1);
                lemma_skip_json_ws(s, j + 1);
                if k < s.len() && s[k] == ':' {
                    if s.subrange(i + 1, j) == "version"@ {
                        let m = skip_json_ws(s, k + 1);
                        lemma_skip_json_ws(s, k + 1);
                        if m < s.len() && s[m] == '"' {
                            lemma_string_end(s, m + 1, s.len() as int);
                        }
                    } else {
                        lemma_json_span_bounds(s, k + 1, depth);
                    }
                } else {
                    lemma_json_span_bounds(s, j + 1, depth);
                }
            } else {
                lemma_json_span_bounds(s, j + 1, depth);
            }
        }
    } else if c == '{' || c == '[' {
        lemma_json_span_bounds(s, i + 1, depth + 1);
    } else if c == '}' || c == ']' {
        if depth != 0 {
            lemma_json_span_bounds(s, i + 1, depth - 1);
        }
    } else {
        lemma_json_span_bounds(s, i + 1, depth);
    }
}

fn skip_json_ws_exec(v: &Vec<char>, start: usize) -> (r: usize)
    requires
        start <= v@.len(),
    ensures
        r == skip_json_ws(v@, start as int),
        start <= r <= v@.len(),
{
    let mut i = start;
    while i < v.len() && (v[i] == ' ' || v[i] == '\t' || v[i] == '\r' || v[i] == '\n')
        invariant
            start <= i <= v@.len(),
            skip_json_ws(v@, start as int) == skip_json_ws(v@, i as int),
        decreases v@.len() - i,
    {
        assert(is_json_ws(v@[i as int]));
        i = i + 1;
    }
    assert(skip_json_ws(v@, i as int) == i);
    i
}

fn string_end_exec(v: &Vec<char>, start: usize, e: usize) -> (r: usize)
    requires
        start <= e <= v@.len(),
    ensures
        r == string_end(v@, start as int, e as int),
        start <= r <= e,
{
    let mut i = start;
    loop
        invariant
            start <= i <= e <= v@.len(),
            string_end(v@, start as int, e as int) == string_end(v@, i as int, e as int),
        decreases e - i,
    {
        if i >= e {
            return e;
        }
        if v[i] == '\\' {
            if i + 1 < e {
                i = i + 2;
            } else {
                return e;
            }
        } else if v[i] == '"' {
            return i;
        } else {
            i = i + 1;
        }
    }
}

/// The span of the top-level `version` value, as the spec finds it.
pub fn json_version_span_exec(v: &Vec<char>) -> (r: Option<(usize, usize)>)
    ensures
        match r {
            Some((a, b)) => json_version_span(v@) == Some((a as int, b as int)) && a <= b
                <= v@.len(),
            None => json_version_span(v@) is None,
        },
{
    let n = v.len();
    let mut i: usize = 0;
    let mut depth: usize = 0;
    loop
        invariant
            i <= n,
            n == v@.len(),
            depth <= i,
            json_scan(v@, 0, 0) == json_scan(v@, i as int, depth as int),
        decreases n - i,
    {
        if i >= n {
            return None;
        }
        proof {
            reveal_strlit("version");
        }
        let c = v[i];
        if c == '"' {
            let j = string_end_exec(v, i + 1, n);
            if j >= n {
                return None;
            }
            if depth == 1 {
                let k = skip_json_ws_exec(v, j + 1);
                if k < n && v[k] == ':' {
                    let is_version_key = crate::toml_scan::str_at_exec(v, i + 1, j, "version")
                        && j - i == 8;
                    proof {
                        if v@.subrange(i + 1 as int, j as int) == "version"@ {
                            assert(j - i - 1 == 7);
                            assert(v@.subrange(i + 1 as int, i + 8 as int) == "version"@);
                        }
                        if is_version_key {
                            assert(v@.subrange(i + 1 as int, j as int) == v@.subrange(
                                i + 1 as int,
                                i + 8 as int,
                            ));
                        }
                        assert(is_version_key == (v@.subrange(i + 1 as int, j as int)
                            == "version"@));
                    }
                    if is_version_key {
                        let m = skip_json_ws_exec(v, k + 1);
                        if m < n && v[m] == '"' {
                            let w = string_end_exec(v, m + 1, n);
                            if w < n {
                                let bs = scan_to_backslash_exec(v, m + 1, w);
                                if bs == w {
                                    return Some((m + 1, w));
                                }
                            }
                            return None;
                        }
                        return None;
                    }
                    i = k + 1;
                } else {
                    i = j + 1;
                }
            } else {
                i = j + 1;
            }
        } else if c == '{' || c == '[' {
            depth = depth + 1;
            i = i + 1;
        } else if c == '}' || c == ']' {
            if depth == 0 {
                return None;
            }
            depth = depth - 1;
            i = i + 1;
        } else {
            i = i + 1;
        }
    }
}

/// The version declared by `content`, or the error that pins down why it
/// has none: no top-level `version` string value, or one that is not a
/// version.
pub fn get_version(content: &str, path: &str) -> (r: Result<Version, Error>)
    ensures
        match r {
            Ok(ver) => json_read(content@) == Some(ver@) && wf_version(ver@),
            Err(e) => json_read(content@) is None && match e {
                Error::ManifestMissingVersion { path: p } => json_version_span(content@) is None
                    && p@ == path@,
                Error::SemverParse { text } => (json_version_span(content@) matches Some((a, b))
                    && text@ == content@.subrange(a, b)),
                _ => false,
            },
        },
{
    let v = str_to_chars(content);
    match json_version_span_exec(&v) {
        None => Err(Error::ManifestMissingVersion { path: String::from_str(path) }),
        Some((a, b)) => {
            let text = range_to_string(&v, a, b);
            Version::parse(text.as_str())
        },
    }
}

/// `content` with the version value replaced by `new_version`, or a
/// `ManifestMissingVersion` error when no span is found.  Only the
/// characters between the quotes change.
pub fn set_version(content: &str, new_version: &Version, path: &str) -> (r: Result<String, Error>)
    requires
        wf_version(new_version@),
    ensures
        match r {
            Ok(out) => json_write(content@, new_version@) == Some(out@),
            Err(e) => json_write(content@, new_version@) is None && (e matches
                Error::ManifestMissingVersion { path: p } && p@ == path@),
        },
{
    let v = str_to_chars(content);
    match json_version_span_exec(&v) {
        None => Err(Error::ManifestMissingVersion { path: String::from_str(path) }),
        Some((a, b)) => {
            let n = content.unicode_len();
            let prefix = content.substring_char(0, a);
            let suffix = content.substring_char(b, n);
            let vs = new_version.display();
            let mut out = String::from_str(prefix);
            out.append(vs.as_str());
            out.append(suffix);
            assert(out@ =~= splice(content@, a as int, b as int, version_chars(new_version@)));
            Ok(out)
        },
    }
}

/// Reading a document's version and writing that same version back yields
/// the document unchanged, character for character.
pub proof fn lemma_json_round_trip(c: Seq<char>)
    requires
        json_read(c) is Some,
    ensures
        json_write(c, json_read(c)->Some_0) == Some(c),
{
    let (a, b) = json_version_span(c)->Some_0;
    lemma_json_span_bounds(c, 0, 0);
    let text = c.subrange(a, b);
    lemma_parse_sound(text);
    lemma_splice_identity(c, a, b);
}

} // verus!
