//! The conventional-commit parser and the per-package change aggregation:
//! a commit subject `type(scope)!: description`, a free-text body, and the
//! trailing footer lines `Token: value` or `Token #value`.  A breaking
//! marker or footer calls for a major bump, `feat` for a minor one, `fix`
//! for a patch; commits are filtered by the scopes a package declares, and
//! the package's rule is the greatest across its changes.

use vstd::prelude::*;

use crate::chars::{is_ident_char, range_to_string, str_eq, str_to_chars};
use crate::semver::{Rule, RuleV};
use crate::toml_scan::{
    find_nl, find_nl_exec, lemma_find_nl, skip_blanks,
    skip_blanks_exec, trim_end, trim_end_exec,
};

verus! {

/// The commit types that carry a bump of their own.
#[derive(Clone, Copy, Debug, PartialEq, Eq, Structural)]
pub enum CommitKind {
    Feat,
    Fix,
    Other,
}

/// One footer line of a commit message.
#[derive(Debug)]
pub struct Footer {
    pub token: String,
    pub value: String,
}

/// A parsed conventional commit.
#[derive(Debug)]
pub struct ConventionalCommit {
    pub kind: CommitKind,
    pub scope: Option<String>,
    pub breaking: bool,
    pub description: String,
    pub body: String,
    pub footers: Vec<Footer>,
}

/// Mathematical model of a parsed commit.
#[verifier::ext_equal]
pub struct CommitV {
    pub kind: CommitKind,
    pub scope: Option<Seq<char>>,
    pub breaking: bool,
    pub description: Seq<char>,
    pub body: Seq<char>,
    pub footers: Seq<(Seq<char>, Seq<char>)>,
}

impl View for Footer {
    type V = (Seq<char>, Seq<char>);

    open spec fn view(&self) -> (Seq<char>, Seq<char>) {
        (self.token@, self.value@)
    }
}

impl View for ConventionalCommit {
    type V = CommitV;

    open spec fn view(&self) -> CommitV {
        CommitV {
            kind: self.kind,
            scope: match &self.scope {
                Some(s) => Some(s@),
                None => None,
            },
            breaking: self.breaking,
            description: self.description@,
            body: self.body@,
            footers: self.footers@.map_values(|f: Footer| f@),
        }
    }
}

// ------------------------------------------------------------------
// Scanners over one line
// ------------------------------------------------------------------
/// A letter, as commit types are written.
pub open spec fn is_letter(c: char) -> bool {
    ('a' <= c && c <= 'z') || ('A' <= c && c <= 'Z')
}

/// End of the run of letters starting at `i` within `[i, e)`.
pub open spec fn scan_letters(s: Seq<char>, i: int, e: int) -> int
    decreases e - i,
    when 0 <= i <= e <= s.len()
{
    if i < e && is_letter(s[i]) {
        scan_letters(s, i + 1, e)
    } else {
        i
    }
}

/// End of the run of identifier characters starting at `i` within `[i, e)`.
pub open spec fn scan_word(s: Seq<char>, i: int, e: int) -> int
    decreases e - i,
    when 0 <= i <= e <= s.len()
{
    if i < e && is_ident_char(s[i]) {
        scan_word(s, i + 1, e)
    } else {
        i
    }
}

/// First closing parenthesis at or after `i` within `[i, e)`, or `e`.
pub open spec fn scan_to_rparen(s: Seq<char>, i: int, e: int) -> int
    decreases e - i,
    when 0 <= i <= e <= s.len()
{
    if i < e && s[i] != ')' {
        scan_to_rparen(s, i + 1, e)
    } else {
        i
    }
}

/// First colon or hash at or after `i` within `[i, e)`, or `e`.
pub open spec fn scan_to_sep(s: Seq<char>, i: int, e: int) -> int
    decreases e - i,
    when 0 <= i <= e <= s.len()
{
    if i < e && s[i] != ':' && s[i] != '#' {
        scan_to_sep(s, i + 1, e)
    } else {
        i
    }
}

pub fn scan_letters_exec(v: &Vec<char>, start: usize, e: usize) -> (r: usize)
    requires
        start <= e <= v@.len(),
    ensures
        r == scan_letters(v@, start as int, e as int),
        start <= r <= e,
{
    let mut i = start;
    while i < e && (('a' <= v[i] && v[i] <= 'z') || ('A' <= v[i] && v[i] <= 'Z'))
        invariant
            start <= i <= e <= v@.len(),
            scan_letters(v@, start as int, e as int) == scan_letters(v@, i as int, e as int),
        decreases e - i,
    {
        assert(is_letter(v@[i as int]));
        i = i + 1;
    }
    assert(scan_letters(v@, i as int, e as int) == i);
    i
}

fn scan_word_exec(v: &Vec<char>, start: usize, e: usize) -> (r: usize)
    requires
        start <= e <= v@.len(),
    ensures
        r == scan_word(v@, start as int, e as int),
        start <= r <= e,
{
    let mut i = start;
    while i < e && (('0' <= v[i] && v[i] <= '9') || ('a' <= v[i] && v[i] <= 'z') || ('A' <= v[i]
        && v[i] <= 'Z') || v[i] == '-')
        invariant
            start <= i <= e <= v@.len(),
            scan_word(v@, start as int, e as int) == scan_word(v@, i as int, e as int),
        decreases e - i,
    {
        assert(is_ident_char(v@[i as int]));
        i = i + 1;
    }
    assert(scan_word(v@, i as int, e as int) == i);
    i
}

fn scan_to_rparen_exec(v: &Vec<char>, start: usize, e: usize) -> (r: usize)
    requires
        start <= e <= v@.len(),
    ensures
        r == scan_to_rparen(v@, start as int, e as int),
        start <= r <= e,
{
    let mut i = start;
    while i < e && v[i] != ')'
        invariant
            start <= i <= e <= v@.len(),
            scan_to_rparen(v@, start as int, e as int) == scan_to_rparen(v@, i as int, e as int),
        decreases e - i,
    {
        i = i + 1;
    }
    assert(scan_to_rparen(v@, i as int, e as int) == i);
    i
}

fn scan_to_sep_exec(v: &Vec<char>, start: usize, e: usize) -> (r: usize)
    requires
        start <= e <= v@.len(),
    ensures
        r == scan_to_sep(v@, start as int, e as int),
        start <= r <= e,
{
    let mut i = start;
    while i < e && v[i] != ':' && v[i] != '#'
        invariant
            start <= i <= e <= v@.len(),
            scan_to_sep(v@, start as int, e as int) == scan_to_sep(v@, i as int, e as int),
        decreases e - i,
    {
        i = i + 1;
    }
    assert(scan_to_sep(v@, i as int, e as int) == i);
    i
}

// ------------------------------------------------------------------
// The subject line
// ------------------------------------------------------------------
/// Parse the subject `type(scope)!: description` within `[0, e)`: the
/// type, the optional scope, the breaking mark and the description, which
/// must be nonempty after blanks are trimmed on both sides.
pub open spec fn spec_parse_subject(s: Seq<char>, e: int) -> Option<
    (Seq<char>, Option<Seq<char>>, bool, Seq<char>),
> {
    let t = scan_letters(s, 0, e);
    if t == 0 {
        None
    } else {
        let after_scope: (Option<Seq<char>>, int) = if t < e && s[t] == '(' {
            let close = scan_to_rparen(s, t + 1, e);
            if close < e && close > t + 1 {
                (Some(s.subrange(t + 1, close)), close + 1)
            } else {
                (None, e + 1)
            }
        } else {
            (None, t)
        };
        let (scope, after) = after_scope;
        if after > e {
            None
        } else {
            let (bang, after2): (bool, int) = if after < e && s[after] == '!' {
                (true, after + 1)
            } else {
                (false, after)
            };
            if after2 < e && s[after2] == ':' {
                let d0 = skip_blanks(s, after2 + 1, e);
                let d1 = trim_end(s, d0, e);
                if d1 > d0 {
                    Some((s.subrange(0, t), scope, bang, s.subrange(d0, d1)))
                } else {
                    None
                }
            } else {
                None
            }
        }
    }
}

/// The kind a commit type names.
pub open spec fn kind_of(ty: Seq<char>) -> CommitKind {
    if ty == "feat"@ {
        CommitKind::Feat
    } else if ty == "fix"@ {
        CommitKind::Fix
    } else {
        CommitKind::Other
    }
}

// ------------------------------------------------------------------
// Footers
// ------------------------------------------------------------------
/// Whether a token may head a footer: `BREAKING CHANGE`, or a nonempty run
/// of identifier characters.
pub open spec fn token_ok(s: Seq<char>, a: int, b: int) -> bool {
    s.subrange(a, b) == "BREAKING CHANGE"@ || (b > a && scan_word(s, a, b) == b)
}

/// The token and value spans of a footer line `[i, e)`: `Token: value` or
/// `Token #value`, with blanks around the value trimmed.
pub open spec fn line_footer(s: Seq<char>, i: int, e: int) -> Option<((int, int), (int, int))> {
    let p = scan_to_sep(s, i, e);
    if p >= e {
        None
    } else if s[p] == ':' {
        if token_ok(s, i, p) {
            let v0 = skip_blanks(s, p + 1, e);
            Some(((i, p), (v0, trim_end(s, v0, e))))
        } else {
            None
        }
    } else {
        if p > i && s[p - 1] == ' ' && token_ok(s, i, p - 1) {
            Some(((i, p - 1), (p + 1, trim_end(s, p + 1, e))))
        } else {
            None
        }
    }
}

/// The line start of the trailing block of footer lines: scanning the
/// lines from `i`, a line that is no footer pushes the candidate past it.
pub open spec fn footer_block(s: Seq<char>, i: int, cand: int) -> int
    decreases s.len() - i,
    when 0 <= i <= s.len()
    via footer_block_decreases
{
    if i >= s.len() {
        cand
    } else {
        let e = find_nl(s, i);
        let next = if e < s.len() {
            e + 1
        } else {
            s.len() as int
        };
        if line_footer(s, i, e) is Some {
            footer_block(s, next, cand)
        } else {
            footer_block(s, next, next)
        }
    }
}

#[via_fn]
proof fn footer_block_decreases(s: Seq<char>, i: int, cand: int) {
    lemma_find_nl(s, i);
}

/// The footer token-value pairs of the lines from `i` to the end.
pub open spec fn collect_footers(s: Seq<char>, i: int) -> Seq<(Seq<char>, Seq<char>)>
    decreases s.len() - i,
    when 0 <= i <= s.len()
    via collect_footers_decreases
{
    if i >= s.len() {
        Seq::empty()
    } else {
        let e = find_nl(s, i);
        let next = if e < s.len() {
            e + 1
        } else {
            s.len() as int
        };
        match line_footer(s, i, e) {
            Some(((ta, tb), (va, vb))) => seq![(s.subrange(ta, tb), s.subrange(va, vb))]
                + collect_footers(s, next),
            None => collect_footers(s, next),
        }
    }
}

#[via_fn]
proof fn collect_footers_decreases(s: Seq<char>, i: int) {
    lemma_find_nl(s, i);
}

/// Where the body of a message starts: after the subject line.
pub open spec fn body_start(s: Seq<char>) -> int {
    let e = find_nl(s, 0);
    if e < s.len() {
        e + 1
    } else {
        s.len() as int
    }
}

/// Where the trailing footer block starts.
pub open spec fn footers_start(s: Seq<char>) -> int {
    footer_block(s, body_start(s), body_start(s))
}

/// The footers of a message.
pub open spec fn spec_footers(s: Seq<char>) -> Seq<(Seq<char>, Seq<char>)> {
    collect_footers(s, footers_start(s))
}

/// A token that forces a breaking change.
pub open spec fn breaking_token(tok: Seq<char>) -> bool {
    tok == "BREAKING CHANGE"@ || tok == "BREAKING-CHANGE"@
}

/// Whether any footer forces a breaking change.
pub open spec fn has_breaking_footer(footers: Seq<(Seq<char>, Seq<char>)>) -> bool {
    exists|k: int| 0 <= k < footers.len() && breaking_token(#[trigger] footers[k].0)
}

// ------------------------------------------------------------------
// Executable parser
// ------------------------------------------------------------------
fn line_footer_exec(v: &Vec<char>, i: usize, e: usize) -> (r: Option<
    ((usize, usize), (usize, usize)),
>)
    requires
        i <= e <= v@.len(),
    ensures
        match r {
            Some(((ta, tb), (va, vb))) => line_footer(v@, i as int, e as int) == Some(
                ((ta as int, tb as int), (va as int, vb as int)),
            ) && ta <= tb <= e && va <= vb <= e,
            None => line_footer(v@, i as int, e as int) is None,
        },
{
    proof {
        reveal_strlit("BREAKING CHANGE");
    }
    let p = scan_to_sep_exec(v, i, e);
    if p >= e {
        return None;
    }
    if v[p] == ':' {
        if token_ok_exec(v, i, p) {
            let v0 = skip_blanks_exec(v, p + 1, e);
            let v1 = trim_end_exec(v, v0, e);
            return Some(((i, p), (v0, v1)));
        }
        return None;
    }
    if p > i && v[p - 1] == ' ' && token_ok_exec(v, i, p - 1) {
        let v1 = trim_end_exec(v, p + 1, e);
        return Some(((i, p - 1), (p + 1, v1)));
    }
    None
}

fn token_ok_exec(v: &Vec<char>, a: usize, b: usize) -> (r: bool)
    requires
        a <= b <= v@.len(),
    ensures
        r == token_ok(v@, a as int, b as int),
{
    proof {
        reveal_strlit("BREAKING CHANGE");
    }
    let w = scan_word_exec(v, a, b);
    if b > a && w == b {
        return true;
    }
    let text = range_to_string(v, a, b);
    str_eq(text.as_str(), "BREAKING CHANGE")
}

/// Parse a commit message.  The result is `Some` exactly when the subject
/// line follows the conventional grammar; the footers and the body come
/// from the trailing footer block, and `breaking` records the `!` mark or
/// a breaking footer.
pub fn parse_commit(message: &str) -> (r: Option<ConventionalCommit>)
    ensures
        match r {
            Some(c) => (spec_parse_subject(message@, find_nl(message@, 0)) matches Some(
                (ty, sc, bang, desc),
            ) && c@.kind == kind_of(ty) && c@.scope == sc && c@.description == desc && c@.body
                == message@.subrange(body_start(message@), footers_start(message@)) && c@.footers
                == spec_footers(message@) && c@.breaking == (bang || has_breaking_footer(
                spec_footers(message@),
            ))),
            None => spec_parse_subject(message@, find_nl(message@, 0)) is None,
        },
{
    let v = str_to_chars(message);
    let n = v.len();
    let ghost s = message@;
    let e0 = find_nl_exec(&v, 0);
    // The subject line.
    let t = scan_letters_exec(&v, 0, e0);
    if t == 0 {
        return None;
    }
    let mut scope: Option<String> = None;
    let after: usize;
    if t < e0 && v[t] == '(' {
        let close = scan_to_rparen_exec(&v, t + 1, e0);
        if close < e0 && close > t + 1 {
            scope = Some(range_to_string(&v, t + 1, close));
            after = close + 1;
        } else {
            assert(spec_parse_subject(s, e0 as int) is None);
            return None;
        }
    } else {
        after = t;
    }
    let bang: bool;
    let after2: usize;
    if after < e0 && v[after] == '!' {
        bang = true;
        after2 = after + 1;
    } else {
        bang = false;
        after2 = after;
    }
    if !(after2 < e0 && v[after2] == ':') {
        return None;
    }
    let d0 = skip_blanks_exec(&v, after2 + 1, e0);
    let d1 = trim_end_exec(&v, d0, e0);
    if d1 <= d0 {
        return None;
    }
    let description = range_to_string(&v, d0, d1);
    let ty = range_to_string(&v, 0, t);
    proof {
        reveal_strlit("feat");
        reveal_strlit("fix");
    }
    let kind = if str_eq(ty.as_str(), "feat") {
        CommitKind::Feat
    } else if str_eq(ty.as_str(), "fix") {
        CommitKind::Fix
    } else {
        CommitKind::Other
    };
    assert(kind == kind_of(s.subrange(0, t as int)));
    // The trailing footer block.
    let bstart: usize = if e0 < n {
        e0 + 1
    } else {
        n
    };
    assert(bstart == body_start(s));
    let mut i = bstart;
    let mut cand = bstart;
    while i < n
        invariant
            bstart <= cand <= i <= n,
            n == s.len(),
            s == v@,
            footer_block(s, bstart as int, bstart as int) == footer_block(
                s,
                i as int,
                cand as int,
            ),
        decreases n - i,
    {
        let le = find_nl_exec(&v, i);
        let next: usize = if le < n {
            le + 1
        } else {
            n
        };
        match line_footer_exec(&v, i, le) {
            Some(_) => {
            },
            None => {
                cand = next;
            },
        }
        i = next;
    }
    assert(footer_block(s, i as int, cand as int) == cand);
    let fstart = cand;
    assert(fstart == footers_start(s));
    let body = range_to_string(&v, bstart, fstart);
    // Collect the footers.
    let mut footers: Vec<Footer> = Vec::new();
    let mut j = fstart;
    assert(footers@.map_values(|f: Footer| f@) =~= Seq::<(Seq<char>, Seq<char>)>::empty());
    while j < n
        invariant
            fstart <= j <= n,
            n == s.len(),
            s == v@,
            collect_footers(s, fstart as int) == footers@.map_values(|f: Footer| f@)
                + collect_footers(s, j as int),
        decreases n - j,
    {
        let ghost gfooters = footers@.map_values(|f: Footer| f@);
        let le = find_nl_exec(&v, j);
        let next: usize = if le < n {
            le + 1
        } else {
            n
        };
        match line_footer_exec(&v, j, le) {
            Some(((ta, tb), (va, vb))) => {
                let token = range_to_string(&v, ta, tb);
                let value = range_to_string(&v, va, vb);
                let footer = Footer { token, value };
                assert(footer@ == (s.subrange(ta as int, tb as int), s.subrange(
                    va as int,
                    vb as int,
                )));
                footers.push(footer);
                proof {
                    assert(footers@.map_values(|f: Footer| f@) =~= gfooters + seq![
                        (s.subrange(ta as int, tb as int), s.subrange(va as int, vb as int)),
                    ]);
                    assert forall|rest: Seq<(Seq<char>, Seq<char>)>| true implies gfooters + (
                    seq![
                        (s.subrange(ta as int, tb as int), s.subrange(va as int, vb as int)),
                    ] + rest) =~= (gfooters + seq![
                        (s.subrange(ta as int, tb as int), s.subrange(va as int, vb as int)),
                    ]) + rest by {}
                }
            },
            None => {
            },
        }
        j = next;
    }
    assert(collect_footers(s, j as int) =~= Seq::<(Seq<char>, Seq<char>)>::empty());
    assert(footers@.map_values(|f: Footer| f@) + Seq::<(Seq<char>, Seq<char>)>::empty()
        =~= footers@.map_values(|f: Footer| f@));
    assert(footers@.map_values(|f: Footer| f@) == spec_footers(s));
    // A breaking footer forces a major bump.
    let mut breaking = bang;
    let mut k: usize = 0;
    let ghost gf = footers@.map_values(|f: Footer| f@);
    while k < footers.len()
        invariant
            k <= footers.len(),
            gf == footers@.map_values(|f: Footer| f@),
            breaking == (bang || exists|m: int|
                0 <= m < k && breaking_token(#[trigger] gf[m].0)),
        decreases footers.len() - k,
    {
        proof {
            reveal_strlit("BREAKING CHANGE");
            reveal_strlit("BREAKING-CHANGE");
        }
        let tok = &footers[k].token;
        assert(gf[k as int].0 == tok@);
        if str_eq(tok.as_str(), "BREAKING CHANGE") || str_eq(tok.as_str(), "BREAKING-CHANGE") {
            breaking = true;
            assert(breaking_token(gf[k as int].0));
        }
        k = k + 1;
    }
    assert(breaking == (bang || has_breaking_footer(gf)));
    Some(ConventionalCommit { kind, scope, breaking, description, body, footers })
}

// ------------------------------------------------------------------
// Rules and aggregation
// ------------------------------------------------------------------
/// The strength of a rule when changes are combined.
pub open spec fn rule_rank(r: Option<RuleV>) -> int {
    match r {
        Some(RuleV::Major) => 3,
        Some(RuleV::Minor) => 2,
        Some(RuleV::Patch) => 1,
        _ => 0,
    }
}

/// The stronger of two rules; the first wins a tie.
pub open spec fn max_rule(a: Option<RuleV>, b: Option<RuleV>) -> Option<RuleV> {
    if rule_rank(b) > rule_rank(a) {
        b
    } else {
        a
    }
}

/// The rule one commit calls for.
pub open spec fn spec_commit_rule(c: CommitV) -> Option<RuleV> {
    if c.breaking {
        Some(RuleV::Major)
    } else if c.kind is Feat {
        Some(RuleV::Minor)
    } else if c.kind is Fix {
        Some(RuleV::Patch)
    } else {
        None
    }
}

/// Whether a commit applies to a package: an unscoped commit applies to
/// every package, a package without scopes takes every commit, and
/// otherwise the commit's scope must be among the package's.
pub open spec fn spec_applies(scope: Option<Seq<char>>, scopes: Seq<Seq<char>>) -> bool {
    match scope {
        None => true,
        Some(sc) => scopes.len() == 0 || scopes.contains(sc),
    }
}

/// The combined rule of the first `i` commits that apply to the package.
pub open spec fn agg_commits(commits: Seq<CommitV>, scopes: Seq<Seq<char>>, i: int) -> Option<
    RuleV,
>
    decreases i,
    when 0 <= i <= commits.len()
{
    if i == 0 {
        None
    } else {
        let prev = agg_commits(commits, scopes, i - 1);
        if spec_applies(commits[i - 1].scope, scopes) {
            max_rule(prev, spec_commit_rule(commits[i - 1]))
        } else {
            prev
        }
    }
}

/// The combined rule after the first `i` changeset rules are added.
pub open spec fn agg_extra(start: Option<RuleV>, extra: Seq<RuleV>, i: int) -> Option<RuleV>
    decreases i,
    when 0 <= i <= extra.len()
{
    if i == 0 {
        start
    } else {
        max_rule(agg_extra(start, extra, i - 1), Some(extra[i - 1]))
    }
}

impl ConventionalCommit {
    /// The bump rule this commit calls for, if any.
    pub fn rule(&self) -> (r: Option<Rule>)
        ensures
            match r {
                Some(rule) => spec_commit_rule(self@) == Some(rule@),
                None => spec_commit_rule(self@) is None,
            },
    {
        if self.breaking {
            Some(Rule::Major)
        } else {
            match self.kind {
                CommitKind::Feat => Some(Rule::Minor),
                CommitKind::Fix => Some(Rule::Patch),
                CommitKind::Other => None,
            }
        }
    }

    /// Whether this commit applies to a package with the given scopes.
    pub fn applies(&self, scopes: &Vec<String>) -> (r: bool)
        ensures
            r == spec_applies(self@.scope, scopes@.map_values(|s: String| s@)),
    {
        let ghost gscopes = scopes@.map_values(|s: String| s@);
        let sc = match &self.scope {
            None => {
                return true;
            },
            Some(sc) => sc,
        };
        if scopes.len() == 0 {
            return true;
        }
        let mut k: usize = 0;
        while k < scopes.len()
            invariant
                k <= scopes.len(),
                gscopes == scopes@.map_values(|s: String| s@),
                sc@ == self@.scope->Some_0,
                forall|m: int| 0 <= m < k ==> gscopes[m] != sc@,
            decreases scopes.len() - k,
        {
            assert(gscopes[k as int] == scopes@[k as int]@);
            if str_eq(scopes[k].as_str(), sc.as_str()) {
                assert(gscopes.contains(sc@));
                return true;
            }
            k = k + 1;
        }
        assert(!gscopes.contains(sc@));
        false
    }
}

/// The bump rule for one package: the greatest across its applicable
/// commits and the rules its changesets declare.
pub fn package_rule(
    commits: &Vec<ConventionalCommit>,
    scopes: &Vec<String>,
    changeset_rules: &Vec<Rule>,
) -> (r: Option<Rule>)
    ensures
        ({
            let combined = agg_extra(
                agg_commits(
                    commits@.map_values(|c: ConventionalCommit| c@),
                    scopes@.map_values(|s: String| s@),
                    commits@.len() as int,
                ),
                changeset_rules@.map_values(|x: Rule| x@),
                changeset_rules@.len() as int,
            );
            match r {
                Some(rule) => combined == Some(rule@),
                None => combined is None,
            }
        }),
{
    let ghost gcommits = commits@.map_values(|c: ConventionalCommit| c@);
    let ghost gscopes = scopes@.map_values(|s: String| s@);
    let ghost gextra = changeset_rules@.map_values(|x: Rule| x@);
    let mut acc: Option<Rule> = None;
    let mut i: usize = 0;
    while i < commits.len()
        invariant
            i <= commits.len(),
            gcommits == commits@.map_values(|c: ConventionalCommit| c@),
            gscopes == scopes@.map_values(|s: String| s@),
            match acc {
                Some(rule) => agg_commits(gcommits, gscopes, i as int) == Some(rule@),
                None => agg_commits(gcommits, gscopes, i as int) is None,
            },
        decreases commits.len() - i,
    {
        assert(gcommits[i as int] == commits@[i as int]@);
        if commits[i].applies(scopes) {
            let rule = commits[i].rule();
            acc = max_rule_exec(acc, rule);
        }
        i = i + 1;
    }
    let mut j: usize = 0;
    while j < changeset_rules.len()
        invariant
            j <= changeset_rules.len(),
            gcommits == commits@.map_values(|c: ConventionalCommit| c@),
            gscopes == scopes@.map_values(|s: String| s@),
            gextra == changeset_rules@.map_values(|x: Rule| x@),
            match acc {
                Some(rule) => agg_extra(
                    agg_commits(gcommits, gscopes, commits@.len() as int),
                    gextra,
                    j as int,
                ) == Some(rule@),
                None => agg_extra(
                    agg_commits(gcommits, gscopes, commits@.len() as int),
                    gextra,
                    j as int,
                ) is None,
            },
        decreases changeset_rules.len() - j,
    {
        assert(gextra[j as int] == changeset_rules@[j as int]@);
        let extra = clone_rule(&changeset_rules[j]);
        acc = max_rule_exec(acc, Some(extra));
        j = j + 1;
    }
    acc
}

/// The stronger of two rules, as `max_rule` combines them.
fn max_rule_exec(a: Option<Rule>, b: Option<Rule>) -> (r: Option<Rule>)
    ensures
        ({
            let ga = match a {
                Some(x) => Some(x@),
                None => None::<RuleV>,
            };
            let gb = match b {
                Some(x) => Some(x@),
                None => None::<RuleV>,
            };
            let gr = match r {
                Some(x) => Some(x@),
                None => None::<RuleV>,
            };
            gr == max_rule(ga, gb)
        }),
{
    let rank_a: u8 = rule_rank_exec(&a);
    let rank_b: u8 = rule_rank_exec(&b);
    if rank_b > rank_a {
        b
    } else {
        a
    }
}

fn rule_rank_exec(r: &Option<Rule>) -> (rank: u8)
    ensures
        rank as int == rule_rank(
            match r {
                Some(x) => Some(x@),
                None => None::<RuleV>,
            },
        ),
{
    match r {
        Some(Rule::Major) => 3,
        Some(Rule::Minor) => 2,
        Some(Rule::Patch) => 1,
        _ => 0,
    }
}

/// Whether two rules are the same, labels included.
pub fn rules_same(a: &Rule, b: &Rule) -> (r: bool)
    ensures
        r == (a@ == b@),
{
    match (a, b) {
        (Rule::Major, Rule::Major) => true,
        (Rule::Minor, Rule::Minor) => true,
        (Rule::Patch, Rule::Patch) => true,
        (Rule::Release, Rule::Release) => true,
        (Rule::Pre(x), Rule::Pre(y)) => crate::chars::str_eq(x.as_str(), y.as_str()),
        _ => {
            assert(a@ != b@);
            false
        },
    }
}

/// A field-for-field copy of a rule.
pub fn clone_rule(r: &Rule) -> (out: Rule)
    ensures
        out@ == r@,
{
    match r {
        Rule::Major => Rule::Major,
        Rule::Minor => Rule::Minor,
        Rule::Patch => Rule::Patch,
        Rule::Release => Rule::Release,
        Rule::Pre(label) => Rule::Pre(label.clone()),
    }
}

} // verus!
