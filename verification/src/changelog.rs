//! The changelog writer: renders a new release section — a heading with
//! the version and the date, per-section subheadings and bullet entries —
//! and inserts it directly before the most recent prior release heading,
//! preserving the title, any preamble and every earlier section unchanged.
//! An empty changelog gains the standard title first.

use vstd::prelude::*;

use crate::chars::{chars_to_string, push_chars, str_to_chars};
use crate::semver::{version_chars, Version};
use crate::toml_scan::{find_nl, find_nl_exec, lemma_find_nl};

verus! {

/// One section of a release: a title and its rendered entries.
#[derive(Debug)]
pub struct Section {
    pub title: String,
    pub entries: Vec<String>,
}

impl View for Section {
    type V = (Seq<char>, Seq<Seq<char>>);

    open spec fn view(&self) -> (Seq<char>, Seq<Seq<char>>) {
        (self.title@, self.entries@.map_values(|e: String| e@))
    }
}

/// The bullet list of the first `i` entries.
pub open spec fn render_entries(entries: Seq<Seq<char>>, i: int) -> Seq<char>
    decreases i,
    when 0 <= i <= entries.len()
{
    if i == 0 {
        Seq::empty()
    } else {
        render_entries(entries, i - 1) + "\n- "@ + entries[i - 1]
    }
}

/// The text of the first `i` sections.
pub open spec fn render_sections(sections: Seq<(Seq<char>, Seq<Seq<char>>)>, i: int) -> Seq<char>
    decreases i,
    when 0 <= i <= sections.len()
{
    if i == 0 {
        Seq::empty()
    } else {
        render_sections(sections, i - 1) + "\n### "@ + sections[i - 1].0 + "\n"@ + render_entries(
            sections[i - 1].1,
            sections[i - 1].1.len() as int,
        ) + "\n"@
    }
}

/// The full text of one release section.
pub open spec fn spec_release_text(
    v: Seq<char>,
    date: Seq<char>,
    sections: Seq<(Seq<char>, Seq<Seq<char>>)>,
) -> Seq<char> {
    "## "@ + v + " ("@ + date + ")\n"@ + render_sections(sections, sections.len() as int)
}

/// Whether the line starting at `i` is a release heading: `## ` and not a
/// deeper heading.
pub open spec fn line_is_release_heading(s: Seq<char>, i: int) -> bool {
    i + 3 <= s.len() && s[i] == '#' && s[i + 1] == '#' && s[i + 2] == ' '
}

/// Line start of the first release heading at or after line start `i`.
pub open spec fn find_release_heading(s: Seq<char>, i: int) -> Option<int>
    decreases s.len() - i,
    when 0 <= i <= s.len()
    via find_release_heading_decreases
{
    if i >= s.len() {
        None
    } else {
        let e = find_nl(s, i);
        if line_is_release_heading(s, i) {
            Some(i)
        } else if e < s.len() {
            find_release_heading(s, e + 1)
        } else {
            None
        }
    }
}

#[via_fn]
proof fn find_release_heading_decreases(s: Seq<char>, i: int) {
    lemma_find_nl(s, i);
}

/// The changelog with the release text inserted: before the first release
/// heading when one exists, else appended after a separating blank line; an
/// empty changelog gains the standard title.
pub open spec fn spec_insert(s: Seq<char>, rel: Seq<char>) -> Seq<char> {
    if s.len() == 0 {
        "# Changelog\n\n"@ + rel
    } else {
        match find_release_heading(s, 0) {
            Some(p) => s.subrange(0, p) + rel + "\n"@ + s.subrange(p, s.len() as int),
            None => s + (if s.last() == '\n' {
                "\n"@
            } else {
                "\n\n"@
            }) + rel,
        }
    }
}

proof fn lemma_find_release_heading_bounds(s: Seq<char>, i: int)
    requires
        0 <= i <= s.len(),
        find_release_heading(s, i) is Some,
    ensures
        i <= find_release_heading(s, i)->Some_0 <= s.len(),
    decreases s.len() - i,
{
    let e = find_nl(s, i);
    lemma_find_nl(s, i);
    if !line_is_release_heading(s, i) && e < s.len() {
        lemma_find_release_heading_bounds(s, e + 1);
    }
}

fn find_release_heading_exec(v: &Vec<char>) -> (r: Option<usize>)
    ensures
        match r {
            Some(p) => find_release_heading(v@, 0) == Some(p as int) && p <= v@.len(),
            None => find_release_heading(v@, 0) is None,
        },
{
    let n = v.len();
    let mut i: usize = 0;
    loop
        invariant
            i <= n,
            n == v@.len(),
            find_release_heading(v@, 0) == find_release_heading(v@, i as int),
        decreases n - i,
    {
        if i >= n {
            return None;
        }
        let e = find_nl_exec(v, i);
        if n - i >= 3 && v[i] == '#' && v[i + 1] == '#' && v[i + 2] == ' ' {
            assert(line_is_release_heading(v@, i as int));
            return Some(i);
        }
        assert(!line_is_release_heading(v@, i as int));
        if e >= n {
            return None;
        }
        i = e + 1;
    }
}

/// The text of one release section: the heading `## version (date)` and,
/// for each section, a `### title` subheading with its bullet entries.
pub fn release_text(version: &Version, date: &str, sections: &Vec<Section>) -> (r: String)
    ensures
        r@ == spec_release_text(
            version_chars(version@),
            date@,
            sections@.map_values(|sec: Section| sec@),
        ),
{
    let ghost gsections = sections@.map_values(|sec: Section| sec@);
    let mut out: Vec<char> = Vec::new();
    push_chars(&mut out, "## ");
    let vtext = version.display();
    push_chars(&mut out, vtext.as_str());
    push_chars(&mut out, " (");
    push_chars(&mut out, date);
    push_chars(&mut out, ")\n");
    let ghost head = out@;
    assert(head =~= "## "@ + version_chars(version@) + " ("@ + date@ + ")\n"@);
    let mut i: usize = 0;
    while i < sections.len()
        invariant
            i <= sections.len(),
            gsections == sections@.map_values(|sec: Section| sec@),
            out@ == head + render_sections(gsections, i as int),
        decreases sections.len() - i,
    {
        assert(gsections[i as int] == sections@[i as int]@);
        let ghost before = out@;
        push_chars(&mut out, "\n### ");
        push_chars(&mut out, sections[i].title.as_str());
        push_chars(&mut out, "\n");
        let ghost entries_base = out@;
        let ghost gentries = gsections[i as int].1;
        let mut j: usize = 0;
        while j < sections[i].entries.len()
            invariant
                i < sections.len(),
                j <= sections[i as int].entries.len(),
                gsections == sections@.map_values(|sec: Section| sec@),
                gentries == gsections[i as int].1,
                out@ == entries_base + render_entries(gentries, j as int),
            decreases sections[i as int].entries.len() - j,
        {
            assert(gentries[j as int] == sections@[i as int].entries@[j as int]@);
            push_chars(&mut out, "\n- ");
            push_chars(&mut out, sections[i].entries[j].as_str());
            j = j + 1;
            assert(out@ =~= entries_base + render_entries(gentries, j as int));
        }
        push_chars(&mut out, "\n");
        i = i + 1;
        assert(out@ =~= head + render_sections(gsections, i as int)) by {
            assert(gentries.len() == sections@[i - 1].entries@.len());
        }
    }
    chars_to_string(&out)
}

/// The changelog with the new release section inserted: the title and the
/// preamble stay above it, every earlier release stays below it, and a
/// missing changelog begins with the standard title.
pub fn insert_release(existing: &str, release: &str) -> (r: String)
    ensures
        r@ == spec_insert(existing@, release@),
{
    let v = str_to_chars(existing);
    let n = v.len();
    if n == 0 {
        let mut out: Vec<char> = Vec::new();
        push_chars(&mut out, "# Changelog\n\n");
        push_chars(&mut out, release);
        return chars_to_string(&out);
    }
    match find_release_heading_exec(&v) {
        Some(p) => {
            let prefix = existing.substring_char(0, p);
            let suffix = existing.substring_char(p, n);
            let mut out: Vec<char> = Vec::new();
            push_chars(&mut out, prefix);
            push_chars(&mut out, release);
            push_chars(&mut out, "\n");
            push_chars(&mut out, suffix);
            assert(out@ =~= spec_insert(existing@, release@));
            chars_to_string(&out)
        },
        None => {
            let mut out: Vec<char> = Vec::new();
            push_chars(&mut out, existing);
            if v[n - 1] == '\n' {
                push_chars(&mut out, "\n");
            } else {
                push_chars(&mut out, "\n\n");
            }
            push_chars(&mut out, release);
            assert(out@ =~= spec_insert(existing@, release@));
            chars_to_string(&out)
        },
    }
}

} // verus!
