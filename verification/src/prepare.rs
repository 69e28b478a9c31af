//! The release orchestrator's planning core: gather the current version
//! from the manifests, reduce the changes to a bump rule, plan the next
//! version, and produce every intended write — the rewritten manifests,
//! the updated changelog and the changeset files to delete — without
//! touching anything.  The surrounding program performs the writes, or
//! only reports them in dry-run mode; an error during planning therefore
//! leaves the filesystem untouched.

use vstd::prelude::*;

use crate::changelog::{insert_release, release_text, spec_insert, spec_release_text, Section};
use crate::changeset::Changeset;
use crate::commits::{
    agg_commits, agg_extra, package_rule, spec_applies, CommitV,
    ConventionalCommit,
};
use crate::errors::Error;
use crate::planner::{plan_version, spec_plan, tag_counter, tag_labeled};
use crate::semver::{
    version_chars, version_lt, wf_alpha, wf_version, Rule, RuleV, Version,
    VersionV,
};
use crate::versioned_file::{read_spec, write_spec, VersionedFile};

verus! {

impl View for Changeset {
    type V = (Seq<(Seq<char>, RuleV)>, Seq<char>);

    open spec fn view(&self) -> (Seq<(Seq<char>, RuleV)>, Seq<char>) {
        (self.entries@.map_values(|en: crate::changeset::ChangesetEntry| en@), self.summary@)
    }
}

/// The rule the first matching entry of a changeset declares for a package.
pub open spec fn changeset_rule_for(
    entries: Seq<(Seq<char>, RuleV)>,
    package: Seq<char>,
    i: int,
) -> Option<RuleV>
    decreases i,
    when 0 <= i <= entries.len()
{
    if i == 0 {
        None
    } else {
        match changeset_rule_for(entries, package, i - 1) {
            Some(r) => Some(r),
            None => if entries[i - 1].0 == package {
                Some(entries[i - 1].1)
            } else {
                None
            },
        }
    }
}

/// The rules the first `i` changesets declare for a package, in order.
pub open spec fn changeset_rules(
    changesets: Seq<(Seq<(Seq<char>, RuleV)>, Seq<char>)>,
    package: Seq<char>,
    i: int,
) -> Seq<RuleV>
    decreases i,
    when 0 <= i <= changesets.len()
{
    if i == 0 {
        Seq::empty()
    } else {
        changeset_rules(changesets, package, i - 1) + (match changeset_rule_for(
            changesets[i - 1].0,
            package,
            changesets[i - 1].0.len() as int,
        ) {
            Some(r) => seq![r],
            None => Seq::empty(),
        })
    }
}

/// Whether a commit belongs under the given section of the changelog.
pub open spec fn in_section(c: CommitV, scopes: Seq<Seq<char>>, breaking: bool, kind: crate::commits::CommitKind) -> bool {
    spec_applies(c.scope, scopes) && (if breaking {
        c.breaking
    } else {
        !c.breaking && c.kind == kind
    })
}

/// The descriptions of the first `i` commits that fall under a section.
pub open spec fn section_entries(
    commits: Seq<CommitV>,
    scopes: Seq<Seq<char>>,
    breaking: bool,
    kind: crate::commits::CommitKind,
    i: int,
) -> Seq<Seq<char>>
    decreases i,
    when 0 <= i <= commits.len()
{
    if i == 0 {
        Seq::empty()
    } else {
        section_entries(commits, scopes, breaking, kind, i - 1) + (if in_section(
            commits[i - 1],
            scopes,
            breaking,
            kind,
        ) {
            seq![commits[i - 1].description]
        } else {
            Seq::empty()
        })
    }
}

/// The summaries of the first `i` changesets that declare the given rule
/// for the package.
pub open spec fn changeset_summaries(
    changesets: Seq<(Seq<(Seq<char>, RuleV)>, Seq<char>)>,
    package: Seq<char>,
    rule: RuleV,
    i: int,
) -> Seq<Seq<char>>
    decreases i,
    when 0 <= i <= changesets.len()
{
    if i == 0 {
        Seq::empty()
    } else {
        changeset_summaries(changesets, package, rule, i - 1) + (if changeset_rule_for(
            changesets[i - 1].0,
            package,
            changesets[i - 1].0.len() as int,
        ) == Some(rule) {
            seq![changesets[i - 1].1]
        } else {
            Seq::empty()
        })
    }
}

/// The entries of one standard section: the matching commit descriptions,
/// then the matching changeset summaries.
pub open spec fn spec_section(
    commits: Seq<CommitV>,
    scopes: Seq<Seq<char>>,
    changesets: Seq<(Seq<(Seq<char>, RuleV)>, Seq<char>)>,
    package: Seq<char>,
    breaking: bool,
    kind: crate::commits::CommitKind,
    rule: RuleV,
) -> Seq<Seq<char>> {
    section_entries(commits, scopes, breaking, kind, commits.len() as int) + changeset_summaries(
        changesets,
        package,
        rule,
        changesets.len() as int,
    )
}

/// The three standard sections of a release, in order: Breaking Changes,
/// Features, Fixes.  Sections without entries are left out.
pub open spec fn spec_standard_sections(
    commits: Seq<CommitV>,
    scopes: Seq<Seq<char>>,
    changesets: Seq<(Seq<(Seq<char>, RuleV)>, Seq<char>)>,
    package: Seq<char>,
) -> Seq<(Seq<char>, Seq<Seq<char>>)> {
    let breaking = spec_section(
        commits,
        scopes,
        changesets,
        package,
        true,
        crate::commits::CommitKind::Other,
        RuleV::Major,
    );
    let features = spec_section(
        commits,
        scopes,
        changesets,
        package,
        false,
        crate::commits::CommitKind::Feat,
        RuleV::Minor,
    );
    let fixes = spec_section(
        commits,
        scopes,
        changesets,
        package,
        false,
        crate::commits::CommitKind::Fix,
        RuleV::Patch,
    );
    (if breaking.len() > 0 {
        seq![("Breaking Changes"@, breaking)]
    } else {
        Seq::empty()
    }) + (if features.len() > 0 {
        seq![("Features"@, features)]
    } else {
        Seq::empty()
    }) + (if fixes.len() > 0 {
        seq![("Fixes"@, fixes)]
    } else {
        Seq::empty()
    })
}

/// The paths of the first `i` changesets that mention the package.
pub open spec fn consumed_paths(
    changesets: Seq<(Seq<(Seq<char>, RuleV)>, Seq<char>)>,
    paths: Seq<Seq<char>>,
    package: Seq<char>,
    i: int,
) -> Seq<Seq<char>>
    decreases i,
    when 0 <= i <= changesets.len() && changesets.len() == paths.len()
{
    if i == 0 {
        Seq::empty()
    } else {
        consumed_paths(changesets, paths, package, i - 1) + (if changeset_rule_for(
            changesets[i - 1].0,
            package,
            changesets[i - 1].0.len() as int,
        ) is Some {
            seq![paths[i - 1]]
        } else {
            Seq::empty()
        })
    }
}

/// The rule a changeset declares for the package, as the first matching
/// front-matter entry gives it.
fn changeset_rule_for_exec(cs: &Changeset, package: &String) -> (r: Option<Rule>)
    ensures
        match r {
            Some(rule) => changeset_rule_for(cs@.0, package@, cs@.0.len() as int) == Some(rule@),
            None => changeset_rule_for(cs@.0, package@, cs@.0.len() as int) is None,
        },
{
    let ghost entries = cs@.0;
    let n = cs.entries.len();
    let mut i: usize = 0;
    while i < n
        invariant
            i <= n,
            n == entries.len(),
            entries == cs@.0,
            changeset_rule_for(entries, package@, i as int) is None,
        decreases n - i,
    {
        assert(entries[i as int] == cs.entries@[i as int]@);
        if crate::chars::str_eq(cs.entries[i].package.as_str(), package.as_str()) {
            let rule = crate::commits::clone_rule(&cs.entries[i].rule);
            proof {
                lemma_changeset_rule_found(entries, package@, i as int, n as int);
            }
            return Some(rule);
        }
        i = i + 1;
    }
    None
}

/// Once the scan finds the first matching entry, the fold over any longer
/// prefix settles on it.
proof fn lemma_changeset_rule_found(
    entries: Seq<(Seq<char>, RuleV)>,
    package: Seq<char>,
    i: int,
    j: int,
)
    requires
        0 <= i < j <= entries.len(),
        changeset_rule_for(entries, package, i) is None,
        entries[i].0 == package,
    ensures
        changeset_rule_for(entries, package, j) == Some(entries[i].1),
    decreases j,
{
    if j == i + 1 {
    } else {
        lemma_changeset_rule_found(entries, package, i, j - 1);
    }
}

/// Append the descriptions of the commits that fall under a section.
fn push_section_entries(
    out: &mut Vec<String>,
    commits: &Vec<ConventionalCommit>,
    scopes: &Vec<String>,
    breaking: bool,
    kind: crate::commits::CommitKind,
)
    ensures
        final(out)@.map_values(|s: String| s@) == old(out)@.map_values(|s: String| s@)
            + section_entries(
            commits@.map_values(|c: ConventionalCommit| c@),
            scopes@.map_values(|s: String| s@),
            breaking,
            kind,
            commits@.len() as int,
        ),
{
    let ghost gcommits = commits@.map_values(|c: ConventionalCommit| c@);
    let ghost gscopes = scopes@.map_values(|s: String| s@);
    let ghost base = out@.map_values(|s: String| s@);
    let mut i: usize = 0;
    while i < commits.len()
        invariant
            i <= commits.len(),
            gcommits == commits@.map_values(|c: ConventionalCommit| c@),
            gscopes == scopes@.map_values(|s: String| s@),
            out@.map_values(|s: String| s@) == base + section_entries(
                gcommits,
                gscopes,
                breaking,
                kind,
                i as int,
            ),
        decreases commits.len() - i,
    {
        assert(gcommits[i as int] == commits@[i as int]@);
        let applies = commits[i].applies(scopes);
        let matches_kind = if breaking {
            commits[i].breaking
        } else {
            !commits[i].breaking && commits[i].kind == kind
        };
        if applies && matches_kind {
            assert(in_section(gcommits[i as int], gscopes, breaking, kind));
            let ghost before = out@;
            out.push(commits[i].description.clone());
            proof {
                assert(out@ =~= before.push(out@.last()));
                assert(out@.last()@ == gcommits[i as int].description);
                assert(out@.map_values(|s: String| s@) =~= before.map_values(|s: String| s@)
                    + seq![gcommits[i as int].description]);
                assert(section_entries(gcommits, gscopes, breaking, kind, i + 1)
                    =~= section_entries(gcommits, gscopes, breaking, kind, i as int) + seq![
                    gcommits[i as int].description,
                ]);
                assert(out@.map_values(|s: String| s@) =~= base + section_entries(
                    gcommits,
                    gscopes,
                    breaking,
                    kind,
                    i + 1,
                ));
            }
        } else {
            assert(!in_section(gcommits[i as int], gscopes, breaking, kind));
            assert(out@.map_values(|s: String| s@) =~= base + section_entries(
                gcommits,
                gscopes,
                breaking,
                kind,
                i + 1,
            ));
        }
        i = i + 1;
    }
}

/// Append the summaries of the changesets that declare `rule` for the
/// package.
fn push_changeset_summaries(
    out: &mut Vec<String>,
    changesets: &Vec<Changeset>,
    package: &String,
    rule: &Rule,
)
    ensures
        final(out)@.map_values(|s: String| s@) == old(out)@.map_values(|s: String| s@)
            + changeset_summaries(
            changesets@.map_values(|c: Changeset| c@),
            package@,
            rule@,
            changesets@.len() as int,
        ),
{
    let ghost gchangesets = changesets@.map_values(|c: Changeset| c@);
    let ghost base = out@.map_values(|s: String| s@);
    let mut i: usize = 0;
    while i < changesets.len()
        invariant
            i <= changesets.len(),
            gchangesets == changesets@.map_values(|c: Changeset| c@),
            out@.map_values(|s: String| s@) == base + changeset_summaries(
                gchangesets,
                package@,
                rule@,
                i as int,
            ),
        decreases changesets.len() - i,
    {
        assert(gchangesets[i as int] == changesets@[i as int]@);
        let hit = match changeset_rule_for_exec(&changesets[i], package) {
            Some(found) => crate::commits::rules_same(&found, rule),
            None => false,
        };
        if hit {
            let ghost before = out@;
            out.push(changesets[i].summary.clone());
            proof {
                assert(out@ =~= before.push(out@.last()));
                assert(out@.last()@ == gchangesets[i as int].1);
                assert(out@.map_values(|s: String| s@) =~= before.map_values(|s: String| s@)
                    + seq![gchangesets[i as int].1]);
                assert(changeset_summaries(gchangesets, package@, rule@, i + 1)
                    =~= changeset_summaries(gchangesets, package@, rule@, i as int) + seq![
                    gchangesets[i as int].1,
                ]);
                assert(out@.map_values(|s: String| s@) =~= base + changeset_summaries(
                    gchangesets,
                    package@,
                    rule@,
                    i + 1,
                ));
            }
        } else {
            assert(out@.map_values(|s: String| s@) =~= base + changeset_summaries(
                gchangesets,
                package@,
                rule@,
                i + 1,
            ));
        }
        i = i + 1;
    }
}

/// The standard sections of a release — Breaking Changes, Features,
/// Fixes — from the applicable commits and the changesets that mention
/// the package.  Empty sections are left out.
pub fn standard_sections(
    commits: &Vec<ConventionalCommit>,
    scopes: &Vec<String>,
    changesets: &Vec<Changeset>,
    package: &String,
) -> (r: Vec<Section>)
    ensures
        r@.map_values(|sec: Section| sec@) == spec_standard_sections(
            commits@.map_values(|c: ConventionalCommit| c@),
            scopes@.map_values(|s: String| s@),
            changesets@.map_values(|c: Changeset| c@),
            package@,
        ),
{
    let ghost gcommits = commits@.map_values(|c: ConventionalCommit| c@);
    let ghost gscopes = scopes@.map_values(|s: String| s@);
    let ghost gchangesets = changesets@.map_values(|c: Changeset| c@);
    let mut out: Vec<Section> = Vec::new();

    let mut breaking: Vec<String> = Vec::new();
    push_section_entries(&mut breaking, commits, scopes, true, crate::commits::CommitKind::Other);
    push_changeset_summaries(&mut breaking, changesets, package, &Rule::Major);
    let ghost gbreaking = spec_section(
        gcommits,
        gscopes,
        gchangesets,
        package@,
        true,
        crate::commits::CommitKind::Other,
        RuleV::Major,
    );
    assert(breaking@.map_values(|s: String| s@) =~= gbreaking);
    if breaking.len() > 0 {
        out.push(Section { title: String::from_str("Breaking Changes"), entries: breaking });
    }

    let mut features: Vec<String> = Vec::new();
    push_section_entries(&mut features, commits, scopes, false, crate::commits::CommitKind::Feat);
    push_changeset_summaries(&mut features, changesets, package, &Rule::Minor);
    let ghost gfeatures = spec_section(
        gcommits,
        gscopes,
        gchangesets,
        package@,
        false,
        crate::commits::CommitKind::Feat,
        RuleV::Minor,
    );
    assert(features@.map_values(|s: String| s@) =~= gfeatures);
    if features.len() > 0 {
        out.push(Section { title: String::from_str("Features"), entries: features });
    }

    let mut fixes: Vec<String> = Vec::new();
    push_section_entries(&mut fixes, commits, scopes, false, crate::commits::CommitKind::Fix);
    push_changeset_summaries(&mut fixes, changesets, package, &Rule::Patch);
    let ghost gfixes = spec_section(
        gcommits,
        gscopes,
        gchangesets,
        package@,
        false,
        crate::commits::CommitKind::Fix,
        RuleV::Patch,
    );
    assert(fixes@.map_values(|s: String| s@) =~= gfixes);
    if fixes.len() > 0 {
        out.push(Section { title: String::from_str("Fixes"), entries: fixes });
    }

    assert(out@.map_values(|sec: Section| sec@) =~= spec_standard_sections(
        gcommits,
        gscopes,
        gchangesets,
        package@,
    ));
    out
}

/// The combined commit rule is always a stable rule.
proof fn lemma_agg_commits_stable(commits: Seq<CommitV>, scopes: Seq<Seq<char>>, i: int)
    requires
        0 <= i <= commits.len(),
    ensures
        agg_commits(commits, scopes, i) matches Some(r) ==> (r is Major || r is Minor
            || r is Patch),
    decreases i,
{
    if i > 0 {
        lemma_agg_commits_stable(commits, scopes, i - 1);
    }
}

/// Adding stable changeset rules keeps the combined rule stable.
proof fn lemma_agg_extra_stable(start: Option<RuleV>, extra: Seq<RuleV>, i: int)
    requires
        0 <= i <= extra.len(),
        start matches Some(r) ==> (r is Major || r is Minor || r is Patch),
        forall|j: int|
            0 <= j < extra.len() ==> ((#[trigger] extra[j]) is Major || extra[j] is Minor
                || extra[j] is Patch),
    ensures
        agg_extra(start, extra, i) matches Some(r) ==> (r is Major || r is Minor || r is Patch),
    decreases i,
{
    if i > 0 {
        lemma_agg_extra_stable(start, extra, i - 1);
    }
}

/// The changeset rules collected for a package are stable rules when every
/// declared rule is.
proof fn lemma_changeset_rules_stable(
    changesets: Seq<(Seq<(Seq<char>, RuleV)>, Seq<char>)>,
    package: Seq<char>,
    i: int,
)
    requires
        0 <= i <= changesets.len(),
        forall|k: int, m: int|
            0 <= k < changesets.len() && 0 <= m < changesets[k].0.len() ==> (((
            #[trigger] changesets[k].0[m]).1) is Major || changesets[k].0[m].1 is Minor
                || changesets[k].0[m].1 is Patch),
    ensures
        forall|j: int|
            0 <= j < changeset_rules(changesets, package, i).len() ==> ((#[trigger] changeset_rules(
                changesets,
                package,
                i,
            )[j]) is Major || changeset_rules(changesets, package, i)[j] is Minor
                || changeset_rules(changesets, package, i)[j] is Patch),
    decreases i,
{
    if i > 0 {
        lemma_changeset_rules_stable(changesets, package, i - 1);
        match changeset_rule_for(
            changesets[i - 1].0,
            package,
            changesets[i - 1].0.len() as int,
        ) {
            Some(r) => {
                lemma_changeset_rule_member(changesets[i - 1].0, package, changesets[i - 1].0.len() as int);
            },
            None => {},
        }
    }
}

/// A rule the fold finds comes from one of the entries.
proof fn lemma_changeset_rule_member(entries: Seq<(Seq<char>, RuleV)>, package: Seq<char>, i: int)
    requires
        0 <= i <= entries.len(),
        changeset_rule_for(entries, package, i) is Some,
    ensures
        exists|m: int|
            0 <= m < i && (#[trigger] entries[m]).1 == changeset_rule_for(
                entries,
                package,
                i,
            )->Some_0,
    decreases i,
{
    if i > 0 {
        if changeset_rule_for(entries, package, i - 1) is Some {
            lemma_changeset_rule_member(entries, package, i - 1);
        } else {
            assert(entries[i - 1].1 == changeset_rule_for(entries, package, i)->Some_0);
        }
    }
}

/// A release plan: every intended effect, computed and buffered, with
/// nothing yet performed.
#[derive(Debug)]
pub struct PlannedRelease {
    /// The version the manifests agreed on.
    pub current: Version,
    /// The version the release moves to.
    pub new_version: Version,
    /// The manifests, rewritten to the new version.
    pub files: Vec<VersionedFile>,
    /// The updated changelog text, when a changelog is kept.
    pub changelog: Option<String>,
    /// The changeset files that were applied and are to be deleted.
    pub consumed: Vec<String>,
}

/// Gather, plan and stage one package's release.  Reads the current
/// version from the manifests (which must agree), reduces the applicable
/// commits and changesets to a bump rule, plans the next version against
/// the existing tags, rewrites every manifest, renders and inserts the new
/// changelog section, and lists the changesets to delete.  Nothing is
/// written anywhere: the caller applies the plan, or reports it in
/// dry-run mode.
pub fn prepare_release(
    files: Vec<VersionedFile>,
    package_name: &String,
    scopes: &Vec<String>,
    commits: &Vec<ConventionalCommit>,
    changesets: &Vec<Changeset>,
    changeset_paths: &Vec<String>,
    tags: &Vec<Version>,
    pre_label: Option<&String>,
    changelog: Option<&String>,
    date: &str,
) -> (r: Result<PlannedRelease, Error>)
    requires
        files@.len() > 0,
        changeset_paths@.len() == changesets@.len(),
        forall|j: int| 0 <= j < tags@.len() ==> wf_version(#[trigger] tags@[j]@),
        forall|j: int|
            0 <= j < tags@.len() && (pre_label matches Some(l) && tag_labeled(
                #[trigger] tags@[j]@,
                l@,
            )) ==> tag_counter(tags@[j]@) < u64::MAX,
        pre_label matches Some(l) ==> wf_alpha(l@),
        (match read_spec(files@[0].format, files@[0].content@) {
            Some(cv) => cv.major < u64::MAX && cv.minor < u64::MAX && cv.patch < u64::MAX,
            None => true,
        }),
        forall|k: int, m: int|
            0 <= k < changesets@.len() && 0 <= m < changesets@[k]@.0.len() ==> (((
            #[trigger] changesets@[k]@.0[m]).1) is Major || changesets@[k]@.0[m].1 is Minor
                || changesets@[k]@.0[m].1 is Patch),
    ensures
        ({
            let gfiles = files@;
            let gcommits = commits@.map_values(|c: ConventionalCommit| c@);
            let gscopes = scopes@.map_values(|x: String| x@);
            let gchangesets = changesets@.map_values(|c: Changeset| c@);
            let gpaths = changeset_paths@.map_values(|x: String| x@);
            let gtags = tags@.map_values(|t: Version| t@);
            let current = read_spec(gfiles[0].format, gfiles[0].content@);
            let rule = agg_extra(
                agg_commits(gcommits, gscopes, gcommits.len() as int),
                changeset_rules(gchangesets, package_name@, gchangesets.len() as int),
                changeset_rules(gchangesets, package_name@, gchangesets.len() as int).len() as int,
            );
            match r {
                Ok(plan) => current matches Some(cv) && plan.current@ == cv && (rule matches Some(
                    gr,
                ) && {
                    let label = match pre_label {
                        None => None,
                        Some(l) => Some(l@),
                    };
                    &&& plan.new_version@ == spec_plan(cv, gr, label, gtags)
                    &&& version_lt(cv, plan.new_version@)
                    &&& plan.files@.len() == gfiles.len()
                    &&& forall|k: int|
                        0 <= k < gfiles.len() ==> (#[trigger] plan.files@[k]).format == gfiles[
                        k].format && plan.files@[k].path == gfiles[k].path && write_spec(
                            gfiles[k].format,
                            gfiles[k].content@,
                            plan.new_version@,
                        ) == Some(plan.files@[k].content@)
                    &&& (match changelog {
                        Some(existing) => plan.changelog matches Some(t) && t@ == spec_insert(
                            existing@,
                            spec_release_text(
                                version_chars(plan.new_version@),
                                date@,
                                spec_standard_sections(
                                    gcommits,
                                    gscopes,
                                    gchangesets,
                                    package_name@,
                                ),
                            ),
                        ),
                        None => plan.changelog is None,
                    })
                    &&& plan.consumed@.map_values(|x: String| x@) == consumed_paths(
                        gchangesets,
                        gpaths,
                        package_name@,
                        gchangesets.len() as int,
                    )
                }),
                Err(e) => {
                    ||| (e matches Error::NoChange { package } && package@ == package_name@
                        && rule is None)
                    ||| (e matches Error::InconsistentVersions { path } && path@
                        == package_name@ && (exists|k: int|
                        0 < k < gfiles.len() && read_spec(
                            (#[trigger] gfiles[k]).format,
                            gfiles[k].content@,
                        ) != current))
                    ||| (exists|k: int|
                        0 <= k < gfiles.len() && (crate::versioned_file::read_err_ok(
                            (#[trigger] gfiles[k]).format,
                            gfiles[k].content@,
                            gfiles[k].path@,
                            e,
                        ) || crate::versioned_file::write_err_ok(
                            gfiles[k].format,
                            gfiles[k].path@,
                            e,
                        )))
                },
            }
        }),
{
    let ghost gfiles = files@;
    let ghost gcommits = commits@.map_values(|c: ConventionalCommit| c@);
    let ghost gscopes = scopes@.map_values(|x: String| x@);
    let ghost gchangesets = changesets@.map_values(|c: Changeset| c@);
    let ghost gpaths = changeset_paths@.map_values(|x: String| x@);
    let ghost gtags = tags@.map_values(|t: Version| t@);
    // Gather: every manifest must agree on the current version.
    let first = match files[0].get_version() {
        Ok(vs) => vs,
        Err(e) => {
            assert(crate::versioned_file::read_err_ok(
                gfiles[0].format,
                gfiles[0].content@,
                gfiles[0].path@,
                e,
            ));
            return Err(e);
        },
    };
    let current = first.version;
    let mut k: usize = 1;
    while k < files.len()
        invariant
            1 <= k <= files@.len(),
            gfiles == files@,
            read_spec(gfiles[0].format, gfiles[0].content@) == Some(current@),
            wf_version(current@),
            forall|j: int|
                0 < j < k ==> read_spec((#[trigger] gfiles[j]).format, gfiles[j].content@)
                    == Some(current@),
        decreases files@.len() - k,
    {
        let vs = match files[k].get_version() {
            Ok(vs) => vs,
            Err(e) => {
                assert(crate::versioned_file::read_err_ok(
                    gfiles[k as int].format,
                    gfiles[k as int].content@,
                    gfiles[k as int].path@,
                    e,
                ));
                return Err(e);
            },
        };
        if !vs.version.same(&current) {
            assert(read_spec(gfiles[k as int].format, gfiles[k as int].content@) != Some(
                current@,
            ));
            return Err(Error::InconsistentVersions { path: package_name.clone() });
        }
        k = k + 1;
    }
    // Reduce the changes to a rule.
    let mut extra: Vec<Rule> = Vec::new();
    let mut c: usize = 0;
    assert(extra@.map_values(|x: Rule| x@) =~= changeset_rules(gchangesets, package_name@, 0));
    while c < changesets.len()
        invariant
            c <= changesets@.len(),
            gchangesets == changesets@.map_values(|x: Changeset| x@),
            extra@.map_values(|x: Rule| x@) == changeset_rules(gchangesets, package_name@, c as int),
        decreases changesets@.len() - c,
    {
        let ghost before = extra@.map_values(|x: Rule| x@);
        assert(gchangesets[c as int] == changesets@[c as int]@);
        match changeset_rule_for_exec(&changesets[c], package_name) {
            Some(rule) => {
                extra.push(rule);
                assert(extra@.map_values(|x: Rule| x@) =~= before + seq![
                    changeset_rule_for(
                        gchangesets[c as int].0,
                        package_name@,
                        gchangesets[c as int].0.len() as int,
                    )->Some_0,
                ]);
            },
            None => {},
        }
        assert(extra@.map_values(|x: Rule| x@) =~= changeset_rules(
            gchangesets,
            package_name@,
            c + 1,
        ));
        c = c + 1;
    }
    let rule = match package_rule(commits, scopes, &extra) {
        Some(rule) => rule,
        None => {
            return Err(Error::NoChange { package: package_name.clone() });
        },
    };
    proof {
        lemma_agg_commits_stable(gcommits, gscopes, gcommits.len() as int);
        lemma_changeset_rules_stable(gchangesets, package_name@, gchangesets.len() as int);
        lemma_agg_extra_stable(
            agg_commits(gcommits, gscopes, gcommits.len() as int),
            changeset_rules(gchangesets, package_name@, gchangesets.len() as int),
            changeset_rules(gchangesets, package_name@, gchangesets.len() as int).len() as int,
        );
    }
    // Plan the next version.
    let new_version = plan_version(&current, &rule, pre_label, tags);
    // Stage the manifest rewrites.
    let mut staged = files;
    let mut w: usize = 0;
    let mut write_err: Option<(usize, Error)> = None;
    while w < staged.len() && write_err.is_none()
        invariant
            w <= staged@.len(),
            staged@.len() == gfiles.len(),
            wf_version(new_version@),
            write_err is None ==> forall|j: int|
                w <= j < gfiles.len() ==> #[trigger] staged@[j] == gfiles[j],
            write_err is None ==> forall|j: int|
                0 <= j < w ==> (#[trigger] staged@[j]).format == gfiles[j].format && staged@[
                j].path == gfiles[j].path && write_spec(
                    gfiles[j].format,
                    gfiles[j].content@,
                    new_version@,
                ) == Some(staged@[j].content@),
            write_err matches Some((wk, e)) ==> wk < gfiles.len()
                && crate::versioned_file::write_err_ok(
                gfiles[wk as int].format,
                gfiles[wk as int].path@,
                e,
            ),
        decreases staged@.len() - w, (if write_err is None { 1int } else { 0int }),
    {
        assert(staged@[w as int] == gfiles[w as int]);
        let outcome = staged[w].set_version(&new_version);
        match outcome {
            Ok(()) => {
                w = w + 1;
            },
            Err(e) => {
                write_err = Some((w, e));
            },
        }
    }
    match write_err {
        Some((wk, e)) => {
            assert(wk < gfiles.len() && crate::versioned_file::write_err_ok(
                gfiles[wk as int].format,
                gfiles[wk as int].path@,
                e,
            ));
            return Err(e);
        },
        None => {},
    }
    let files = staged;
    // Stage the changelog update.
    let new_changelog: Option<String> = match changelog {
        Some(existing) => {
            let sections = standard_sections(commits, scopes, changesets, package_name);
            let rel = release_text(&new_version, date, &sections);
            Some(insert_release(existing.as_str(), rel.as_str()))
        },
        None => None,
    };
    // Stage the changeset deletions.
    let mut consumed: Vec<String> = Vec::new();
    let mut d: usize = 0;
    assert(consumed@.map_values(|x: String| x@) =~= consumed_paths(
        gchangesets,
        gpaths,
        package_name@,
        0,
    ));
    while d < changesets.len()
        invariant
            d <= changesets@.len(),
            gchangesets == changesets@.map_values(|x: Changeset| x@),
            gpaths == changeset_paths@.map_values(|x: String| x@),
            gpaths.len() == gchangesets.len(),
            changeset_paths@.len() == changesets@.len(),
            consumed@.map_values(|x: String| x@) == consumed_paths(
                gchangesets,
                gpaths,
                package_name@,
                d as int,
            ),
        decreases changesets@.len() - d,
    {
        let ghost before = consumed@.map_values(|x: String| x@);
        assert(gchangesets[d as int] == changesets@[d as int]@);
        assert(gpaths[d as int] == changeset_paths@[d as int]@);
        match changeset_rule_for_exec(&changesets[d], package_name) {
            Some(_) => {
                consumed.push(changeset_paths[d].clone());
                assert(consumed@.map_values(|x: String| x@) =~= before + seq![
                    gpaths[d as int],
                ]);
            },
            None => {},
        }
        assert(consumed@.map_values(|x: String| x@) =~= consumed_paths(
            gchangesets,
            gpaths,
            package_name@,
            d + 1,
        ));
        d = d + 1;
    }
    Ok(
        PlannedRelease {
            current,
            new_version,
            files,
            changelog: new_changelog,
            consumed,
        },
    )
}

} // verus!