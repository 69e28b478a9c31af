//! The changeset store: a changeset is a Markdown file whose front matter,
//! between two `---` lines, maps package names to change types
//! (`major`, `minor` or `patch`), and whose remaining text is copied
//! verbatim into the changelog.  A file that does not follow that shape is
//! rejected whole.

use vstd::prelude::*;

use crate::chars::range_to_string;
use crate::chars::str_to_chars;
use crate::commits::{scan_letters, scan_letters_exec};
use crate::errors::Error;
use crate::semver::{Rule, RuleV};
use crate::toml_scan::{
    find_nl, find_nl_exec, lemma_find_nl, scan_to_quote, scan_to_quote_exec, skip_blanks,
    skip_blanks_exec, trim_end, trim_end_exec,
};

verus! {

/// One front-matter entry: a package and the change type it declares.
#[derive(Debug)]
pub struct ChangesetEntry {
    pub package: String,
    pub rule: Rule,
}

/// A parsed changeset: its entries and its Markdown summary.
#[derive(Debug)]
pub struct Changeset {
    pub entries: Vec<ChangesetEntry>,
    pub summary: String,
}

impl View for ChangesetEntry {
    type V = (Seq<char>, RuleV);

    open spec fn view(&self) -> (Seq<char>, RuleV) {
        (self.package@, self.rule@)
    }
}

/// Whether the line `[i, e)` is a front-matter delimiter: three dashes.
pub open spec fn line_is_dashes(s: Seq<char>, i: int, e: int) -> bool {
    let te = trim_end(s, i, e);
    te - i == 3 && s[i] == '-' && s[i + 1] == '-' && s[i + 2] == '-'
}

/// The change type a front-matter word names.
pub open spec fn rule_of_word(w: Seq<char>) -> Option<RuleV> {
    if w == "major"@ {
        Some(RuleV::Major)
    } else if w == "minor"@ {
        Some(RuleV::Minor)
    } else if w == "patch"@ {
        Some(RuleV::Patch)
    } else {
        None
    }
}

/// One front-matter entry on the line `[i, e)`: a quoted package name, a
/// colon and a change type, with nothing else but blanks.
pub open spec fn line_entry(s: Seq<char>, i: int, e: int) -> Option<(Seq<char>, RuleV)> {
    let a = skip_blanks(s, i, e);
    if a < e && s[a] == '"' {
        let nq = scan_to_quote(s, a + 1, e);
        if nq < e && nq > a + 1 {
            let c = skip_blanks(s, nq + 1, e);
            if c < e && s[c] == ':' {
                let w0 = skip_blanks(s, c + 1, e);
                let w1 = scan_letters(s, w0, e);
                if trim_end(s, w1, e) == w1 {
                    match rule_of_word(s.subrange(w0, w1)) {
                        Some(rule) => Some((s.subrange(a + 1, nq), rule)),
                        None => None,
                    }
                } else {
                    None
                }
            } else {
                None
            }
        } else {
            None
        }
    } else {
        None
    }
}

/// The entries of the front matter from line start `i`, up to the closing
/// delimiter, and the text after it.
pub open spec fn parse_entries(s: Seq<char>, i: int) -> Option<
    (Seq<(Seq<char>, RuleV)>, Seq<char>),
>
    decreases s.len() - i,
    when 0 <= i <= s.len()
    via parse_entries_decreases
{
    if i >= s.len() {
        None
    } else {
        let e = find_nl(s, i);
        let next = if e < s.len() {
            e + 1
        } else {
            s.len() as int
        };
        if line_is_dashes(s, i, e) {
            Some((Seq::empty(), s.subrange(next, s.len() as int)))
        } else {
            match line_entry(s, i, e) {
                Some(entry) => if e < s.len() {
                    match parse_entries(s, next) {
                        Some((rest, body)) => Some((seq![entry] + rest, body)),
                        None => None,
                    }
                } else {
                    None
                },
                None => None,
            }
        }
    }
}

#[via_fn]
proof fn parse_entries_decreases(s: Seq<char>, i: int) {
    lemma_find_nl(s, i);
}

/// The whole changeset: an opening delimiter line, the entries, a closing
/// delimiter line, and the summary after it.
pub open spec fn spec_changeset(s: Seq<char>) -> Option<(Seq<(Seq<char>, RuleV)>, Seq<char>)> {
    let e0 = find_nl(s, 0);
    if e0 < s.len() && line_is_dashes(s, 0, e0) {
        parse_entries(s, e0 + 1)
    } else {
        None
    }
}

fn line_is_dashes_exec(v: &Vec<char>, i: usize, e: usize) -> (r: bool)
    requires
        i <= e <= v@.len(),
    ensures
        r == line_is_dashes(v@, i as int, e as int),
{
    let te = trim_end_exec(v, i, e);
    te - i == 3 && v[i] == '-' && v[i + 1] == '-' && v[i + 2] == '-'
}

fn line_entry_exec(v: &Vec<char>, i: usize, e: usize) -> (r: Option<((usize, usize), Rule)>)
    requires
        i <= e <= v@.len(),
    ensures
        match r {
            Some(((na, nb), rule)) => line_entry(v@, i as int, e as int) == Some(
                (v@.subrange(na as int, nb as int), rule@),
            ) && na <= nb <= e,
            None => line_entry(v@, i as int, e as int) is None,
        },
{
    proof {
        reveal_strlit("major");
        reveal_strlit("minor");
        reveal_strlit("patch");
    }
    let a = skip_blanks_exec(v, i, e);
    if !(a < e && v[a] == '"') {
        return None;
    }
    let nq = scan_to_quote_exec(v, a + 1, e);
    if !(nq < e && nq > a + 1) {
        return None;
    }
    let c = skip_blanks_exec(v, nq + 1, e);
    if !(c < e && v[c] == ':') {
        return None;
    }
    let w0 = skip_blanks_exec(v, c + 1, e);
    let w1 = scan_letters_exec(v, w0, e);
    let wend = trim_end_exec(v, w1, e);
    if wend != w1 {
        return None;
    }
    let word = range_to_string(v, w0, w1);
    let rule = if crate::chars::str_eq(word.as_str(), "major") {
        Rule::Major
    } else if crate::chars::str_eq(word.as_str(), "minor") {
        Rule::Minor
    } else if crate::chars::str_eq(word.as_str(), "patch") {
        Rule::Patch
    } else {
        return None;
    };
    Some(((a + 1, nq), rule))
}

/// Parse a changeset file.  Succeeds exactly on a well-formed front matter
/// between two `---` lines; anything else is a `ChangesetParse` error, and
/// nothing of such a file is used.
pub fn parse_changeset(content: &str, path: &str) -> (r: Result<Changeset, Error>)
    ensures
        match r {
            Ok(cs) => (spec_changeset(content@) matches Some((entries, summary))
                && cs.entries@.map_values(|en: ChangesetEntry| en@) == entries && cs.summary@
                == summary),
            Err(e) => spec_changeset(content@) is None && (e matches Error::ChangesetParse {
                path: p,
            } && p@ == path@),
        },
{
    let v = str_to_chars(content);
    let n = v.len();
    let ghost s = content@;
    let e0 = find_nl_exec(&v, 0);
    if !(e0 < n) {
        return Err(Error::ChangesetParse { path: String::from_str(path) });
    }
    if !line_is_dashes_exec(&v, 0, e0) {
        return Err(Error::ChangesetParse { path: String::from_str(path) });
    }
    let mut entries: Vec<ChangesetEntry> = Vec::new();
    let mut i = e0 + 1;
    assert(entries@.map_values(|en: ChangesetEntry| en@) =~= Seq::<(Seq<char>, RuleV)>::empty());
    loop
        invariant
            i <= n,
            n == s.len(),
            s == v@,
            s == content@,
            spec_changeset(s) == (match parse_entries(s, i as int) {
                None => None::<(Seq<(Seq<char>, RuleV)>, Seq<char>)>,
                Some((rest, body)) => Some(
                    (entries@.map_values(|en: ChangesetEntry| en@) + rest, body),
                ),
            }),
        decreases n - i,
    {
        let ghost gentries = entries@.map_values(|en: ChangesetEntry| en@);
        if i >= n {
            return Err(Error::ChangesetParse { path: String::from_str(path) });
        }
        let e = find_nl_exec(&v, i);
        let next: usize = if e < n {
            e + 1
        } else {
            n
        };
        if line_is_dashes_exec(&v, i, e) {
            let summary = range_to_string(&v, next, n);
            proof {
                assert(parse_entries(s, i as int) == Some(
                    (Seq::<(Seq<char>, RuleV)>::empty(), s.subrange(next as int, s.len() as int)),
                ));
                assert(gentries + Seq::<(Seq<char>, RuleV)>::empty() =~= gentries);
            }
            return Ok(Changeset { entries, summary });
        }
        match line_entry_exec(&v, i, e) {
            Some(((na, nb), rule)) => {
                if e >= n {
                    return Err(Error::ChangesetParse { path: String::from_str(path) });
                }
                let package = range_to_string(&v, na, nb);
                let entry = ChangesetEntry { package, rule };
                assert(entry@ == (s.subrange(na as int, nb as int), rule@));
                entries.push(entry);
                proof {
                    assert(entries@.map_values(|en: ChangesetEntry| en@) =~= gentries + seq![
                        (s.subrange(na as int, nb as int), rule@),
                    ]);
                    assert forall|rest: Seq<(Seq<char>, RuleV)>| true implies gentries + (seq![
                        (s.subrange(na as int, nb as int), rule@),
                    ] + rest) =~= (gentries + seq![
                        (s.subrange(na as int, nb as int), rule@),
                    ]) + rest by {}
                }
                i = next;
            },
            None => {
                return Err(Error::ChangesetParse { path: String::from_str(path) });
            },
        }
    }
}

} // verus!
