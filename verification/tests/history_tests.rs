use knope_core::git_history::{ancestors, commits_since, latest_ancestor_tag, Tag};
use knope_core::planner::plan_version;
use knope_core::semver::{Rule, Version};

fn v(text: &str) -> Version {
    Version::parse(text).unwrap()
}

#[test]
fn ancestors_follow_parent_links() {
    // 0 <- 1 <- 2 and a side commit 3 also on top of 1.
    let parents: Vec<Vec<usize>> = vec![vec![], vec![0], vec![1], vec![1]];
    let reach = ancestors(&parents, 2);
    assert_eq!(reach, vec![true, true, true, false]);
}

#[test]
fn ancestors_cross_merges() {
    // A merge commit reaches both of its parents.
    let parents: Vec<Vec<usize>> = vec![vec![], vec![0], vec![0], vec![1, 2]];
    let reach = ancestors(&parents, 3);
    assert_eq!(reach, vec![true, true, true, true]);
}

#[test]
fn pick_correct_tag_from_branching_history() {
    // Linear releases 1.0.0 -> 1.0.1 -> 2.0.0 on the first-parent line,
    // and a sibling branch carrying a much newer-looking tag that is not
    // an ancestor of the head.  The anchor must be 2.0.0.
    let parents: Vec<Vec<usize>> = vec![
        vec![],        // 0: root, tagged v1.0.0
        vec![0],       // 1: tagged v1.0.1
        vec![0],       // 2: sibling branch, tagged v9.9.9
        vec![1],       // 3: tagged v2.0.0
        vec![3],       // 4: head, a fix on main
    ];
    let tags = vec![
        Tag { commit: 0, version: v("1.0.0") },
        Tag { commit: 1, version: v("1.0.1") },
        Tag { commit: 2, version: v("9.9.9") },
        Tag { commit: 3, version: v("2.0.0") },
    ];
    let reach = ancestors(&parents, 4);
    let anchor = latest_ancestor_tag(&tags, &reach).unwrap();
    assert_eq!(anchor, 3);
    assert!(tags[anchor].version.same(&v("2.0.0")));
}

#[test]
fn pick_correct_commits_from_branching_history() {
    // Only the commits above the anchor are new.
    let parents: Vec<Vec<usize>> = vec![
        vec![],        // 0: root
        vec![0],       // 1: tagged v2.0.0
        vec![1],       // 2: fix commit
        vec![2],       // 3: head
    ];
    let new_commits = commits_since(&parents, 3, 1);
    assert_eq!(new_commits, vec![2, 3]);
}

#[test]
fn merge_commits() {
    // A tag reachable only through a merge is still an ancestor, so a fix
    // on top of the merged release bumps its patch version.
    let parents: Vec<Vec<usize>> = vec![
        vec![],        // 0: root
        vec![0],       // 1: release branch, tagged v2.0.0
        vec![0],       // 2: main before the merge
        vec![2, 1],    // 3: merge of the release branch into main
        vec![3],       // 4: head, fix
    ];
    let tags = vec![Tag { commit: 1, version: v("2.0.0") }];
    let reach = ancestors(&parents, 4);
    let anchor = latest_ancestor_tag(&tags, &reach).unwrap();
    assert!(tags[anchor].version.same(&v("2.0.0")));

    let planned = plan_version(&tags[anchor].version, &Rule::Patch, None, &vec![]);
    assert_eq!(planned.display(), "2.0.1");
}

#[test]
fn no_anchor_without_ancestor_tags() {
    let parents: Vec<Vec<usize>> = vec![vec![], vec![0], vec![0]];
    let tags = vec![Tag { commit: 2, version: v("1.0.0") }];
    // The head is commit 1; the only tag sits on the sibling commit 2.
    let reach = ancestors(&parents, 1);
    assert!(latest_ancestor_tag(&tags, &reach).is_none());
}
