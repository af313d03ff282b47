use monorepo_changelog::error::ErrorKind;
use monorepo_changelog::range::CommitRange;
use monorepo_changelog::walk::{full_commits, latest_commits, walk_range, Commit, RangeHistory};

fn commit(hash: &str, message: &str) -> Commit {
    Commit::new(message.to_string(), hash.to_string(), Some("Ann".to_string()), 1_600_000_000)
}

fn ancestry(hashes: &[&str]) -> Vec<Option<Commit>> {
    hashes.iter().map(|h| Some(commit(h, "chore: work"))).collect()
}

fn range(tag: &str, start: &str, end: &str, end_is_root: bool) -> CommitRange {
    CommitRange::new(tag.to_string(), start.to_string(), end.to_string(), end_is_root)
}

fn hashes(commits: &[Commit]) -> Vec<String> {
    commits.iter().map(|c| c.hash().to_string()).collect()
}

#[test]
fn root_boundary_is_included() {
    // root <- A <- B, tag1 at B
    let r = range("tag1", "B", "root", true);
    let commits = walk_range(&r, &ancestry(&["B", "A", "root"])).unwrap();
    assert_eq!(hashes(&commits), vec!["B", "A", "root"]);
}

#[test]
fn previous_tag_is_excluded() {
    // root <- A (tag1) <- B (tag2)
    let r = range("tag2", "B", "A", false);
    let commits = walk_range(&r, &ancestry(&["B", "A", "root"])).unwrap();
    assert_eq!(hashes(&commits), vec!["B"]);
}

#[test]
fn walk_stops_at_the_first_meeting_of_the_end() {
    let r = range("t", "D", "B", false);
    let commits = walk_range(&r, &ancestry(&["D", "C", "B", "A", "B"])).unwrap();
    assert_eq!(hashes(&commits), vec!["D", "C"]);
    let r = range("t", "D", "B", true);
    let commits = walk_range(&r, &ancestry(&["D", "C", "B", "A", "B"])).unwrap();
    assert_eq!(hashes(&commits), vec!["D", "C", "B"]);
}

#[test]
fn walk_without_the_end_takes_everything() {
    let r = range("t", "C", "zzz", false);
    let commits = walk_range(&r, &ancestry(&["C", "B", "A"])).unwrap();
    assert_eq!(hashes(&commits), vec!["C", "B", "A"]);
}

#[test]
fn walk_of_a_tag_on_the_root_commit() {
    let r = range("t", "root", "root", true);
    let commits = walk_range(&r, &ancestry(&["root"])).unwrap();
    assert_eq!(hashes(&commits), vec!["root"]);
    let r = range("t", "A", "A", false);
    let commits = walk_range(&r, &ancestry(&["A", "root"])).unwrap();
    assert!(commits.is_empty());
}

#[test]
fn walk_of_an_empty_ancestry_is_empty() {
    let r = range("t", "A", "root", true);
    assert!(walk_range(&r, &Vec::new()).unwrap().is_empty());
}

#[test]
fn unreadable_commit_before_the_end_fails_the_walk() {
    let r = range("t", "C", "A", false);
    let items = vec![Some(commit("C", "m")), None, Some(commit("A", "m"))];
    assert_eq!(walk_range(&r, &items).err(), Some(ErrorKind::RepositoryRead));
}

#[test]
fn unreadable_commit_after_the_end_does_not_matter() {
    let r = range("t", "C", "B", false);
    let items = vec![Some(commit("C", "m")), Some(commit("B", "m")), None];
    assert_eq!(hashes(&walk_range(&r, &items).unwrap()), vec!["C"]);
    let r = range("t", "C", "B", true);
    assert_eq!(hashes(&walk_range(&r, &items).unwrap()), vec!["C", "B"]);
}

#[test]
fn latest_commits_carry_the_tag() {
    let r = range("pkg@1.1.0", "B", "A", false);
    let (tag, commits) = latest_commits(&r, &ancestry(&["B", "A"])).unwrap();
    assert_eq!(tag.name(), &Some("pkg@1.1.0".to_string()));
    assert_eq!(hashes(&commits), vec!["B"]);
}

#[test]
fn commit_keeps_what_it_was_given() {
    let c = Commit::new("fix(a): b\n\nbody".to_string(), "abc".to_string(), None, -5);
    assert_eq!(c.message(), "fix(a): b\n\nbody");
    assert_eq!(c.hash(), "abc");
    assert_eq!(c.author(), &None);
    assert_eq!(c.datetime(), -5);
    let d = c.clone();
    assert_eq!(d.hash(), "abc");
    assert_eq!(d.message(), c.message());
}

#[test]
fn a_failing_range_leaves_the_others_alone() {
    let histories = vec![
        RangeHistory { range: range("p@2.0.0", "C", "B", false), ancestry: ancestry(&["C", "B", "A"]) },
        RangeHistory {
            range: range("p@1.1.0", "B", "A", false),
            ancestry: vec![None, Some(commit("A", "m"))],
        },
        RangeHistory { range: range("p@1.0.0", "A", "A", true), ancestry: ancestry(&["A"]) },
    ];
    let all = full_commits(&histories);
    assert_eq!(all.len(), 3);
    let first = all[0].as_ref().unwrap();
    assert_eq!(first.tag.name(), &Some("p@2.0.0".to_string()));
    assert_eq!(hashes(&first.commit_list), vec!["C"]);
    assert_eq!(all[1].as_ref().err(), Some(&ErrorKind::RepositoryRead));
    let last = all[2].as_ref().unwrap();
    assert_eq!(last.tag.name(), &Some("p@1.0.0".to_string()));
    assert_eq!(hashes(&last.commit_list), vec!["A"]);
}
