//! Decisions over the commit graph.  The surrounding program asks its Git
//! store for the commits, their parent links and the tags, and hands them
//! in as plain values: commits as indices with parent index lists, tags as
//! a commit index and a version.  Everything here is about reachability:
//! which commits are ancestors of the head, which tag among the ancestors
//! is the release anchor, and which commits came after it.  A tag on a
//! sibling branch is never chosen, however new it is.

use vstd::prelude::*;

use crate::semver::{version_lt, Version, VersionV};

verus! {

/// A release tag: the commit it points at and the version it names.
#[derive(Debug)]
pub struct Tag {
    pub commit: usize,
    pub version: Version,
}

impl View for Tag {
    type V = (int, VersionV);

    open spec fn view(&self) -> (int, VersionV) {
        (self.commit as int, self.version@)
    }
}

/// A well-formed parent graph: every parent index points at a commit.
pub open spec fn graph_ok(g: Seq<Seq<usize>>) -> bool {
    forall|i: int, k: int|
        0 <= i < g.len() && 0 <= k < g[i].len() ==> (#[trigger] g[i][k]) < g.len()
}

/// `b` is reachable from `a` along parent links in at most `fuel` steps.
pub open spec fn reaches(g: Seq<Seq<usize>>, a: int, b: int, fuel: nat) -> bool
    decreases fuel,
{
    a == b || (fuel > 0 && exists|k: int|
        0 <= k < g[a].len() && reaches(g, (#[trigger] g[a][k]) as int, b, (fuel - 1) as nat))
}

/// `b` is an ancestor of `a` (or `a` itself).
pub open spec fn reachable(g: Seq<Seq<usize>>, a: int, b: int) -> bool {
    exists|fuel: nat| reaches(g, a, b, fuel)
}

/// One more parent link extends a reachability chain.
proof fn lemma_reaches_step(g: Seq<Seq<usize>>, a: int, b: int, c: int, fuel: nat)
    requires
        0 <= b < g.len(),
        reaches(g, a, b, fuel),
        exists|k: int| 0 <= k < g[b].len() && (#[trigger] g[b][k]) == c,
    ensures
        reaches(g, a, c, fuel + 1),
    decreases fuel,
{
    if a == b {
        let k = choose|k: int| 0 <= k < g[b].len() && (#[trigger] g[b][k]) == c;
        assert(reaches(g, c, c, (fuel) as nat));
        assert(0 <= k < g[a].len() && g[a][k] == c && reaches(g, g[a][k] as int, c, fuel as nat));
    } else {
        let k = choose|k: int|
            0 <= k < g[a].len() && reaches(g, (#[trigger] g[a][k]) as int, b, (fuel - 1) as nat);
        lemma_reaches_step(g, g[a][k] as int, b, c, (fuel - 1) as nat);
        assert(0 <= k < g[a].len() && reaches(g, (g[a][k]) as int, c, fuel as nat));
    }
}

/// A visited set that holds `a` and is closed under parent links holds
/// everything reachable from `a`.
proof fn lemma_closed_complete(g: Seq<Seq<usize>>, visited: Seq<bool>, a: int, b: int, fuel: nat)
    requires
        graph_ok(g),
        visited.len() == g.len(),
        0 <= a < g.len(),
        0 <= b < g.len(),
        visited[a],
        forall|i: int, k: int|
            0 <= i < g.len() && visited[i] && 0 <= k < g[i].len() ==> visited[(
            #[trigger] g[i][k]) as int],
        reaches(g, a, b, fuel),
    ensures
        visited[b],
    decreases fuel,
{
    if a != b {
        let k = choose|k: int|
            0 <= k < g[a].len() && reaches(g, (#[trigger] g[a][k]) as int, b, (fuel - 1) as nat);
        assert(visited[g[a][k] as int]);
        lemma_closed_complete(g, visited, g[a][k] as int, b, (fuel - 1) as nat);
    }
}

/// How many entries are set.
pub open spec fn count_true(s: Seq<bool>) -> int
    decreases s.len(),
{
    if s.len() == 0 {
        0
    } else {
        count_true(s.drop_last()) + (if s.last() {
            1int
        } else {
            0int
        })
    }
}

proof fn lemma_count_true_le_len(s: Seq<bool>)
    ensures
        0 <= count_true(s) <= s.len(),
    decreases s.len(),
{
    if s.len() > 0 {
        lemma_count_true_le_len(s.drop_last());
    }
}

/// Setting a clear entry raises the count by one.
proof fn lemma_count_true_set(s: Seq<bool>, i: int)
    requires
        0 <= i < s.len(),
        !s[i],
    ensures
        count_true(s.update(i, true)) == count_true(s) + 1,
    decreases s.len(),
{
    let t = s.update(i, true);
    if i == s.len() - 1 {
        assert(t.drop_last() =~= s.drop_last());
        assert(t.last() && !s.last());
    } else {
        assert(t.drop_last() =~= s.drop_last().update(i, true));
        assert(t.last() == s.last());
        lemma_count_true_set(s.drop_last(), i);
    }
}

/// The ancestors of `head`: entry `i` is set exactly when commit `i` is
/// `head` itself or reachable from it along parent links.
pub fn ancestors(parents: &Vec<Vec<usize>>, head: usize) -> (r: Vec<bool>)
    requires
        head < parents@.len(),
        graph_ok(parents@.map_values(|p: Vec<usize>| p@)),
    ensures
        r@.len() == parents@.len(),
        forall|i: int|
            0 <= i < r@.len() ==> ((#[trigger] r@[i]) == reachable(
                parents@.map_values(|p: Vec<usize>| p@),
                head as int,
                i,
            )),
{
    let ghost g = parents@.map_values(|p: Vec<usize>| p@);
    let n = parents.len();
    let mut visited: Vec<bool> = Vec::new();
    let mut z: usize = 0;
    while z < n
        invariant
            z <= n,
            visited@.len() == z,
            forall|i: int| 0 <= i < z ==> !(#[trigger] visited@[i]),
        decreases n - z,
    {
        visited.push(false);
        z = z + 1;
    }
    proof {
        lemma_count_true_le_len(visited@);
    }
    let mut stack: Vec<usize> = Vec::new();
    visited.set(head, true);
    stack.push(head);
    proof {
        assert(stack@[0] == head);
        assert(stack@.contains(head));
    }
    proof {
        assert(reaches(g, head as int, head as int, 0));
    }
    while stack.len() > 0
        invariant
            n == parents@.len(),
            g == parents@.map_values(|p: Vec<usize>| p@),
            graph_ok(g),
            head < n,
            visited@.len() == n,
            visited@[head as int],
            forall|j: int| 0 <= j < stack@.len() ==> (#[trigger] stack@[j]) < n,
            forall|j: int| 0 <= j < stack@.len() ==> visited@[(#[trigger] stack@[j]) as int],
            forall|i: int|
                0 <= i < n && (#[trigger] visited@[i]) ==> reachable(g, head as int, i),
            forall|i: int, k: int|
                0 <= i < n && visited@[i] && !stack@.contains(i as usize) && 0 <= k
                    < g[i].len() ==> visited@[(#[trigger] g[i][k]) as int],
        decreases (n - count_true(visited@)), stack@.len(),
    {
        proof {
            lemma_count_true_le_len(visited@);
        }
        let ghost old_count = count_true(visited@);
        let ghost old_stack_len = stack@.len();
        let ghost prev_stack = stack@;
        let x = stack.pop().unwrap();
        assert(visited@[x as int]);
        proof {
            assert(x == prev_stack.last());
            assert(stack@ == prev_stack.drop_last());
            assert forall|i: int|
                0 <= i < n && visited@[i] && !stack@.contains(i as usize) && i != x as int implies
                !prev_stack.contains(i as usize) by {
                if prev_stack.contains(i as usize) {
                    let j = choose|j: int|
                        0 <= j < prev_stack.len() && prev_stack[j] == i as usize;
                    if j < prev_stack.len() - 1 {
                        assert(stack@[j] == i as usize);
                        assert(stack@.contains(i as usize));
                    }
                }
            }
        }
        let m = parents[x].len();
        let mut k: usize = 0;
        let mut any_pushed = false;
        while k < m
            invariant
                n == parents@.len(),
                g == parents@.map_values(|p: Vec<usize>| p@),
                graph_ok(g),
                head < n,
                x < n,
                m == g[x as int].len(),
                k <= m,
                visited@.len() == n,
                visited@[head as int],
                visited@[x as int],
                reachable(g, head as int, x as int),
                forall|j: int| 0 <= j < stack@.len() ==> (#[trigger] stack@[j]) < n,
                forall|j: int| 0 <= j < stack@.len() ==> visited@[(#[trigger] stack@[j]) as int],
                forall|i: int|
                    0 <= i < n && (#[trigger] visited@[i]) ==> reachable(g, head as int, i),
                forall|i: int, kk: int|
                    0 <= i < n && visited@[i] && !stack@.contains(i as usize) && i != x && 0 <= kk
                        < g[i].len() ==> visited@[(#[trigger] g[i][kk]) as int],
                forall|kk: int|
                    0 <= kk < k ==> visited@[(#[trigger] g[x as int][kk]) as int],
                any_pushed ==> count_true(visited@) > old_count,
                !any_pushed ==> count_true(visited@) == old_count,
                stack@.len() >= old_stack_len - 1,
                !any_pushed ==> stack@.len() == old_stack_len - 1,
            decreases m - k,
        {
            let p = parents[x][k];
            assert(p == g[x as int][k as int]);
            assert(p < n);
            if !visited[p] {
                proof {
                    lemma_count_true_set(visited@, p as int);
                    lemma_count_true_le_len(visited@);
                }
                let ghost before_push = stack@;
                visited.set(p, true);
                stack.push(p);
                any_pushed = true;
                proof {
                    let f = choose|fuel: nat| reaches(g, head as int, x as int, fuel);
                    assert(exists|kk: int|
                        0 <= kk < g[x as int].len() && (#[trigger] g[x as int][kk]) == p);
                    lemma_reaches_step(g, head as int, x as int, p as int, f);
                    assert(reaches(g, head as int, p as int, f + 1));
                    assert(stack@[stack@.len() - 1] == p);
                    assert(stack@.contains(p));
                    assert forall|y: usize| before_push.contains(y) implies stack@.contains(
                        y,
                    ) by {
                        let j = choose|j: int|
                            0 <= j < before_push.len() && before_push[j] == y;
                        assert(stack@[j] == y);
                    }
                }
            }
            k = k + 1;
        }
        proof {
            lemma_count_true_le_len(visited@);
        }
    }
    proof {
        assert forall|i: int|
            0 <= i < n && reachable(g, head as int, i) implies visited@[i] by {
            let fuel = choose|fuel: nat| reaches(g, head as int, i, fuel);
            lemma_closed_complete(g, visited@, head as int, i, fuel);
        }
    }
    visited
}

/// The commit indices set in `from` and clear in `except`, ascending, over
/// the first `i` entries.
pub open spec fn filter_indices(from: Seq<bool>, except: Seq<bool>, i: int) -> Seq<usize>
    decreases i,
    when 0 <= i <= from.len() && from.len() == except.len()
{
    if i == 0 {
        Seq::empty()
    } else {
        filter_indices(from, except, i - 1) + (if from[i - 1] && !except[i - 1] {
            seq![(i - 1) as usize]
        } else {
            Seq::empty()
        })
    }
}

/// The commits that are ancestors of `head` but not of `anchor`: the
/// changes not yet covered by the anchor release, in ascending index order.
pub fn commits_since(parents: &Vec<Vec<usize>>, head: usize, anchor: usize) -> (r: Vec<usize>)
    requires
        head < parents@.len(),
        anchor < parents@.len(),
        graph_ok(parents@.map_values(|p: Vec<usize>| p@)),
    ensures
        ({
            let g = parents@.map_values(|p: Vec<usize>| p@);
            let from = Seq::new(g.len(), |i: int| reachable(g, head as int, i));
            let except = Seq::new(g.len(), |i: int| reachable(g, anchor as int, i));
            r@ == filter_indices(from, except, g.len() as int)
        }),
{
    let ghost g = parents@.map_values(|p: Vec<usize>| p@);
    let ghost from = Seq::new(g.len(), |i: int| reachable(g, head as int, i));
    let ghost except = Seq::new(g.len(), |i: int| reachable(g, anchor as int, i));
    let head_anc = ancestors(parents, head);
    let anchor_anc = ancestors(parents, anchor);
    assert(head_anc@ =~= from);
    assert(anchor_anc@ =~= except);
    let n = parents.len();
    let mut r: Vec<usize> = Vec::new();
    let mut i: usize = 0;
    assert(r@ =~= filter_indices(from, except, 0));
    while i < n
        invariant
            i <= n,
            n == g.len(),
            g == parents@.map_values(|p: Vec<usize>| p@),
            from.len() == n,
            except.len() == n,
            head_anc@ == from,
            anchor_anc@ == except,
            r@ == filter_indices(from, except, i as int),
        decreases n - i,
    {
        if head_anc[i] && !anchor_anc[i] {
            r.push(i);
            assert(r@ =~= filter_indices(from, except, i + 1));
        } else {
            assert(r@ =~= filter_indices(from, except, i + 1));
        }
        i = i + 1;
    }
    r
}

/// The index of the best anchor tag among the first `i`: the greatest
/// version whose commit is an ancestor; the earlier of two equal tags wins.
pub open spec fn best_tag_upto(tags: Seq<(int, VersionV)>, anc: Seq<bool>, i: int) -> Option<int>
    decreases i,
    when 0 <= i <= tags.len()
{
    if i == 0 {
        None
    } else {
        let prev = best_tag_upto(tags, anc, i - 1);
        if 0 <= tags[i - 1].0 < anc.len() && anc[tags[i - 1].0] {
            match prev {
                None => Some(i - 1),
                Some(b) => if version_lt(tags[b].1, tags[i - 1].1) {
                    Some(i - 1)
                } else {
                    Some(b)
                },
            }
        } else {
            prev
        }
    }
}

/// The release anchor: among the tags whose commit is an ancestor of the
/// head, the one with the greatest version.  A tag on a commit outside the
/// ancestor set is never chosen, however great its version; when no tag
/// qualifies there is no anchor.
pub fn latest_ancestor_tag(tags: &Vec<Tag>, anc: &Vec<bool>) -> (r: Option<usize>)
    ensures
        ({
            let gtags = tags@.map_values(|t: Tag| t@);
            match r {
                Some(b) => best_tag_upto(gtags, anc@, tags@.len() as int) == Some(b as int) && b
                    < tags@.len() && tags@[b as int].commit < anc@.len() && anc@[tags@[
                    b as int].commit as int] && forall|j: int|
                    0 <= j < tags@.len() && 0 <= gtags[j].0 < anc@.len() && anc@[gtags[j].0]
                        ==> !version_lt(gtags[b as int].1, #[trigger] gtags[j].1),
                None => best_tag_upto(gtags, anc@, tags@.len() as int) is None && forall|j: int|
                    0 <= j < tags@.len() ==> !(0 <= (#[trigger] gtags[j]).0 < anc@.len()
                        && anc@[gtags[j].0]),
            }
        }),
{
    let ghost gtags = tags@.map_values(|t: Tag| t@);
    let n = tags.len();
    let mut best: Option<usize> = None;
    let mut i: usize = 0;
    while i < n
        invariant
            i <= n,
            n == tags@.len(),
            gtags == tags@.map_values(|t: Tag| t@),
            match best {
                Some(b) => best_tag_upto(gtags, anc@, i as int) == Some(b as int) && b < i
                    && tags@[b as int].commit < anc@.len() && anc@[tags@[b as int].commit as int]
                    && forall|j: int|
                    0 <= j < i && 0 <= gtags[j].0 < anc@.len() && anc@[gtags[j].0] ==> !version_lt(
                        gtags[b as int].1,
                        #[trigger] gtags[j].1,
                    ),
                None => best_tag_upto(gtags, anc@, i as int) is None && forall|j: int|
                    0 <= j < i ==> !(0 <= (#[trigger] gtags[j]).0 < anc@.len()
                        && anc@[gtags[j].0]),
            },
        decreases n - i,
    {
        assert(gtags[i as int] == tags@[i as int]@);
        if tags[i].commit < anc.len() && anc[tags[i].commit] {
            match best {
                None => {
                    best = Some(i);
                    proof {
                        crate::semver::lemma_version_irreflexive(gtags[i as int].1);
                    }
                },
                Some(b) => {
                    if tags[b].version.lt(&tags[i].version) {
                        proof {
                            assert forall|j: int|
                                0 <= j < i + 1 && 0 <= gtags[j].0 < anc@.len() && anc@[gtags[
                                j].0] implies !version_lt(
                                gtags[i as int].1,
                                #[trigger] gtags[j].1,
                            ) by {
                                if j < i {
                                    if version_lt(gtags[i as int].1, gtags[j].1) {
                                        crate::semver::lemma_version_trans(
                                            gtags[b as int].1,
                                            gtags[i as int].1,
                                            gtags[j].1,
                                        );
                                    }
                                } else {
                                    crate::semver::lemma_version_irreflexive(gtags[i as int].1);
                                }
                            }
                        }
                        best = Some(i);
                    }
                },
            }
        }
        i = i + 1;
    }
    best
}

} // verus!
