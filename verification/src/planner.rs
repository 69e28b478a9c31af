//! The version planner: from the current version, the bump rule the
//! changes call for, an optional pre-release label and the set of existing
//! release tags, compute the next version.  A stable release is the bumped
//! triple with the pre-release stripped; a pre-release targets that triple
//! and carries a counter strictly above every counter already published
//! under the same label, even one that targets a higher future stable.

use vstd::prelude::*;

use crate::semver::{
    bump_fits, lemma_version_trans, lemma_version_trichotomy, pre_layout, spec_bump, spec_bump_ok,
    strip_pre, version_lt, wf_alpha, wf_version, Ident, IdentV, Rule, RuleV, Version, VersionV,
};

verus! {

/// The stable triple a rule advances the current version to.
pub open spec fn stable_target(cur: VersionV, r: RuleV) -> VersionV {
    spec_bump(strip_pre(cur), r)
}

/// Whether a tag is a pre-release under `label`, in the layout this tool
/// produces.
pub open spec fn tag_labeled(t: VersionV, label: Seq<char>) -> bool {
    pre_layout(t.pre) && t.pre[0]->Alpha_0 == label
}

/// The counter of a tag in that layout.
pub open spec fn tag_counter(t: VersionV) -> nat {
    t.pre[1]->Num_0
}

/// Whether two versions share the numeric triple.
pub open spec fn same_triple(a: VersionV, b: VersionV) -> bool {
    a.major == b.major && a.minor == b.minor && a.patch == b.patch
}

/// The greatest counter among the first `i` tags that are labeled
/// pre-releases of the triple `s`.
pub open spec fn max_counter_upto(tags: Seq<VersionV>, s: VersionV, label: Seq<char>, i: int)
    -> Option<nat>
    decreases i,
    when 0 <= i <= tags.len()
{
    if i == 0 {
        None
    } else {
        let prev = max_counter_upto(tags, s, label, i - 1);
        let t = tags[i - 1];
        if tag_labeled(t, label) && same_triple(t, s) {
            match prev {
                None => Some(tag_counter(t)),
                Some(m) => if tag_counter(t) > m {
                    Some(tag_counter(t))
                } else {
                    Some(m)
                },
            }
        } else {
            prev
        }
    }
}

/// The greatest (by semver order) among the first `i` labeled tags; the
/// earlier of two equal tags wins.
pub open spec fn best_labeled_upto(tags: Seq<VersionV>, label: Seq<char>, i: int) -> Option<
    VersionV,
>
    decreases i,
    when 0 <= i <= tags.len()
{
    if i == 0 {
        None
    } else {
        let prev = best_labeled_upto(tags, label, i - 1);
        let t = tags[i - 1];
        if tag_labeled(t, label) {
            match prev {
                None => Some(t),
                Some(b) => if version_lt(b, t) {
                    Some(t)
                } else {
                    Some(b)
                },
            }
        } else {
            prev
        }
    }
}

/// A pre-release of `s`'s triple under `label` with counter `c`.
pub open spec fn pre_of(s: VersionV, label: Seq<char>, c: nat) -> VersionV {
    VersionV {
        major: s.major,
        minor: s.minor,
        patch: s.patch,
        pre: seq![IdentV::Alpha(label), IdentV::Num(c)],
    }
}

/// The planned pre-release: the larger of the candidate over the stable
/// target and the successor of the highest published pre-release under the
/// label.
pub open spec fn spec_plan_pre(
    cur: VersionV,
    r: RuleV,
    label: Seq<char>,
    tags: Seq<VersionV>,
) -> VersionV {
    let s = stable_target(cur, r);
    let c1: nat = match max_counter_upto(tags, s, label, tags.len() as int) {
        None => 0,
        Some(m) => m + 1,
    };
    let cand1 = pre_of(s, label, c1);
    match best_labeled_upto(tags, label, tags.len() as int) {
        None => cand1,
        Some(b) => {
            let cand2 = pre_of(b, label, tag_counter(b) + 1);
            if version_lt(cand1, cand2) {
                cand2
            } else {
                cand1
            }
        },
    }
}

/// The planned version: the stable target when no label is given, else the
/// pre-release of `spec_plan_pre`.
pub open spec fn spec_plan(
    cur: VersionV,
    r: RuleV,
    label: Option<Seq<char>>,
    tags: Seq<VersionV>,
) -> VersionV {
    match label {
        None => stable_target(cur, r),
        Some(l) => spec_plan_pre(cur, r, l, tags),
    }
}

/// Determinism: the plan is a function of the current version, the rule,
/// the label and the tags alone, so equal inputs give equal plans.
pub proof fn lemma_plan_deterministic(
    cur1: VersionV,
    r1: RuleV,
    label1: Option<Seq<char>>,
    tags1: Seq<VersionV>,
    cur2: VersionV,
    r2: RuleV,
    label2: Option<Seq<char>>,
    tags2: Seq<VersionV>,
)
    requires
        cur1 == cur2,
        r1 == r2,
        label1 == label2,
        tags1 == tags2,
    ensures
        spec_plan(cur1, r1, label1, tags1) == spec_plan(cur2, r2, label2, tags2),
{
}

/// Every tag the maximum scan saw is at most the maximum.
proof fn lemma_best_labeled_ge(tags: Seq<VersionV>, label: Seq<char>, i: int, j: int)
    requires
        0 <= j < i <= tags.len(),
        tag_labeled(tags[j], label),
    ensures
        best_labeled_upto(tags, label, i) matches Some(b) && (tags[j] == b || version_lt(
            tags[j],
            b,
        )),
    decreases i,
{
    if j == i - 1 {
        match best_labeled_upto(tags, label, i - 1) {
            None => {},
            Some(p) => {
                lemma_version_trichotomy(p, tags[j]);
            },
        }
    } else {
        lemma_best_labeled_ge(tags, label, i - 1, j);
        let b = best_labeled_upto(tags, label, i - 1)->Some_0;
        let t = tags[i - 1];
        if tag_labeled(t, label) && version_lt(b, t) {
            if tags[j] != b {
                lemma_version_trans(tags[j], b, t);
            }
        }
    }
}

/// A labeled pre-release is strictly below the one with the next counter.
proof fn lemma_counter_advance(t: VersionV, label: Seq<char>, c: nat)
    requires
        tag_labeled(t, label),
        tag_counter(t) <= c,
    ensures
        version_lt(t, pre_of(t, label, c + 1)),
{
    let b = pre_of(t, label, c + 1);
    assert(t.pre =~= seq![IdentV::Alpha(label), IdentV::Num(tag_counter(t))]);
    assert(t.pre[0] == b.pre[0]);
    assert(t.pre.drop_first() =~= seq![IdentV::Num(tag_counter(t))]);
    assert(b.pre.drop_first() =~= seq![IdentV::Num(c + 1)]);
    assert(crate::semver::idents_lt(t.pre.drop_first(), b.pre.drop_first()));
    assert(crate::semver::idents_lt(t.pre, b.pre));
}

impl Version {
    /// The triple this version's rule-bumped stable target has, compared
    /// with another version's triple.
    fn triple_eq(&self, other: &Version) -> (r: bool)
        ensures
            r == same_triple(self@, other@),
    {
        self.major == other.major && self.minor == other.minor && self.patch == other.patch
    }
}

/// Whether a tag is a labeled pre-release under `label`, with its counter.
fn tag_label_counter(t: &Version, label: &String) -> (r: Option<u64>)
    ensures
        match r {
            Some(c) => tag_labeled(t@, label@) && c as nat == tag_counter(t@),
            None => !tag_labeled(t@, label@),
        },
{
    if t.pre.len() != 2 {
        return None;
    }
    let is_label = match &t.pre[0] {
        Ident::Alpha(s) => crate::chars::str_eq(s.as_str(), label.as_str()),
        Ident::Num(_) => false,
    };
    if !is_label {
        return None;
    }
    match &t.pre[1] {
        Ident::Num(c) => Some(*c),
        Ident::Alpha(_) => None,
    }
}

/// Compute the next version.  With no pre-release label the plan is the
/// stable target: the current version with its pre-release stripped and
/// the rule applied.  With a label the plan is a pre-release of that
/// target whose counter strictly exceeds the counter of every tag under
/// the same label, so that the plan sorts above everything published.
pub fn plan_version(
    current: &Version,
    rule: &Rule,
    pre_label: Option<&String>,
    tags: &Vec<Version>,
) -> (r: Version)
    requires
        wf_version(current@),
        forall|j: int| 0 <= j < tags@.len() ==> wf_version(#[trigger] tags@[j]@),
        rule@ is Major || rule@ is Minor || rule@ is Patch,
        bump_fits(strip_pre(current@), rule@),
        pre_label matches Some(l) ==> wf_alpha(l@),
        forall|j: int|
            0 <= j < tags@.len() && (pre_label matches Some(l) && tag_labeled(
                #[trigger] tags@[j]@,
                l@,
            )) ==> tag_counter(tags@[j]@) < u64::MAX,
    ensures
        r@ == spec_plan(
            current@,
            rule@,
            match pre_label {
                None => None,
                Some(l) => Some(l@),
            },
            tags@.map_values(|t: Version| t@),
        ),
        wf_version(r@),
        version_lt(current@, r@),
        pre_label matches Some(l) ==> tag_labeled(r@, l@) && forall|j: int|
            0 <= j < tags@.len() && tag_labeled(#[trigger] tags@[j]@, l@) ==> version_lt(
                tags@[j]@,
                r@,
            ),
{
    let stripped = current.clone_fields();
    let stripped = stripped.reset_pre();
    let s = match stripped.bump(rule) {
        Ok(v) => v,
        Err(_) => {
            // A stable rule always applies, so this branch cannot be reached.
            proof {
                assert(spec_bump_ok(strip_pre(current@), rule@));
                assert(false);
            }
            Version { major: 0, minor: 0, patch: 0, pre: Vec::new() }
        },
    };
    assert(s@ == stable_target(current@, rule@));
    assert(version_lt(current@, s@));
    let label = match pre_label {
        None => {
            return s;
        },
        Some(l) => l,
    };
    let ghost gtags = tags@.map_values(|t: Version| t@);
    assert(gtags.len() == tags@.len());
    let n = tags.len();
    let mut c_max: Option<u64> = None;
    let mut b_idx: Option<usize> = None;
    let mut i: usize = 0;
    while i < n
        invariant
            i <= n,
            n == tags@.len(),
            gtags == tags@.map_values(|t: Version| t@),
            forall|j: int| 0 <= j < n ==> wf_version(#[trigger] tags@[j]@),
            forall|j: int|
                0 <= j < n && tag_labeled(#[trigger] tags@[j]@, label@) ==> tag_counter(
                    tags@[j]@,
                ) < u64::MAX,
            s@ == stable_target(current@, rule@),
            match c_max {
                None => max_counter_upto(gtags, s@, label@, i as int) is None,
                Some(cm) => max_counter_upto(gtags, s@, label@, i as int) == Some(cm as nat)
                    && cm < u64::MAX,
            },
            match b_idx {
                None => best_labeled_upto(gtags, label@, i as int) is None,
                Some(bi) => bi < i && best_labeled_upto(gtags, label@, i as int) == Some(
                    gtags[bi as int],
                ) && tag_labeled(gtags[bi as int], label@),
            },
        decreases n - i,
    {
        assert(gtags[i as int] == tags@[i as int]@);
        match tag_label_counter(&tags[i], label) {
            Some(c) => {
                if s.triple_eq(&tags[i]) {
                    c_max = match c_max {
                        None => Some(c),
                        Some(m) => if c > m {
                            Some(c)
                        } else {
                            Some(m)
                        },
                    };
                }
                b_idx = match b_idx {
                    None => Some(i),
                    Some(bi) => {
                        if tags[bi].lt(&tags[i]) {
                            Some(i)
                        } else {
                            Some(bi)
                        }
                    },
                };
            },
            None => {},
        }
        i = i + 1;
    }
    let c1: u64 = match c_max {
        None => 0,
        Some(m) => m + 1,
    };
    let mut pre1: Vec<Ident> = Vec::new();
    pre1.push(Ident::Alpha(label.clone()));
    pre1.push(Ident::Num(c1));
    let cand1 = Version { major: s.major, minor: s.minor, patch: s.patch, pre: pre1 };
    assert(cand1@.pre =~= seq![IdentV::Alpha(label@), IdentV::Num(c1 as nat)]);
    assert(cand1@ =~= pre_of(s@, label@, c1 as nat));
    assert(version_lt(current@, cand1@));
    let bi = match b_idx {
        None => {
            assert(cand1@ == spec_plan_pre(current@, rule@, label@, gtags));
            proof {
                assert forall|j: int|
                    0 <= j < tags@.len() && tag_labeled(#[trigger] tags@[j]@, label@) implies false
                    by {
                    lemma_best_labeled_ge(gtags, label@, n as int, j);
                }
            }
            return cand1;
        },
        Some(bi) => bi,
    };
    let b = &tags[bi];
    assert(b@ == gtags[bi as int]);
    assert(tag_counter(gtags[bi as int]) < u64::MAX);
    let cb: u64 = match &b.pre[1] {
        Ident::Num(c) => *c,
        Ident::Alpha(_) => {
            proof {
                assert(false);
            }
            0
        },
    };
    let mut pre2: Vec<Ident> = Vec::new();
    pre2.push(Ident::Alpha(label.clone()));
    pre2.push(Ident::Num(cb + 1));
    let cand2 = Version { major: b.major, minor: b.minor, patch: b.patch, pre: pre2 };
    assert(cand2@.pre =~= seq![IdentV::Alpha(label@), IdentV::Num((cb + 1) as nat)]);
    assert(cand2@ =~= pre_of(gtags[bi as int], label@, tag_counter(gtags[bi as int]) + 1));
    let out = if cand1.lt(&cand2) {
        cand2
    } else {
        cand1
    };
    proof {
        let gb = gtags[bi as int];
        let gc1 = cand1@;
        let gc2 = pre_of(gb, label@, tag_counter(gb) + 1);
        lemma_counter_advance(gb, label@, tag_counter(gb));
        // The result is above the current version.
        if version_lt(gc1, gc2) {
            lemma_version_trans(current@, gc1, gc2);
        }
        // The result is above every labeled tag.
        assert forall|j: int|
            0 <= j < tags@.len() && tag_labeled(#[trigger] tags@[j]@, label@) implies version_lt(
            tags@[j]@,
            out@,
        ) by {
            lemma_best_labeled_ge(gtags, label@, n as int, j);
            let t = tags@[j]@;
            assert(gtags[j] == t);
            if t != gb {
                lemma_version_trans(t, gb, gc2);
            }
            if version_lt(gc1, gc2) {
                assert(out@ == gc2);
            } else {
                lemma_version_trichotomy(gc1, gc2);
                if gc1 == gc2 {
                    assert(out@ == gc1);
                } else {
                    assert(version_lt(gc2, gc1));
                    lemma_version_trans(t, gc2, gc1);
                }
            }
        }
    }
    out
}

impl Version {
    /// A field-for-field copy.
    fn clone_fields(&self) -> (r: Version)
        ensures
            r@ == self@,
    {
        let mut pre: Vec<Ident> = Vec::new();
        let mut k: usize = 0;
        while k < self.pre.len()
            invariant
                k <= self.pre.len(),
                pre@.len() == k,
                forall|j: int| 0 <= j < k ==> pre@[j]@ == self.pre@[j]@,
            decreases self.pre.len() - k,
        {
            let id = match &self.pre[k] {
                Ident::Num(c) => Ident::Num(*c),
                Ident::Alpha(a) => Ident::Alpha(a.clone()),
            };
            assert(id@ == self.pre@[k as int]@);
            pre.push(id);
            k = k + 1;
        }
        assert(pre@.map_values(|id: Ident| id@) =~= self@.pre) by {
            assert(forall|j: int|
                0 <= j < k ==> pre@.map_values(|id: Ident| id@)[j] == pre@[j]@);
            assert(forall|j: int|
                0 <= j < k ==> self@.pre[j] == self.pre@[j]@);
        }
        let r = Version { major: self.major, minor: self.minor, patch: self.patch, pre };
        assert(r@ =~= self@);
        r
    }
}

} // verus!
