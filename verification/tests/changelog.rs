use monorepo_changelog::changelog::{
    md_file_path, package_names, select_commits, short_hash_text, subject_text, tag_scope,
    Changelogs, PackageHistory, PackageRelease,
};
use monorepo_changelog::error::ErrorKind;
use monorepo_changelog::range::Tag;
use monorepo_changelog::walk::{Commit, TagAndCommit};

const URL: &str = "https://github.com/ant-design/pro-components";

fn commit(hash: &str, message: &str, author: &str) -> Commit {
    Commit::new(message.to_string(), hash.to_string(), Some(author.to_string()), 0)
}

fn builder() -> Changelogs {
    let mut c = Changelogs::new(URL.to_string());
    c.set_github_user_id("Ann Lee", "annlee".to_string());
    c.set_github_user_id("陈帅", "chenshuai2144".to_string());
    c
}

fn release(tag: &str, commits: Vec<Commit>) -> TagAndCommit {
    TagAndCommit { tag: Tag::new(tag.to_string()), commit_list: commits }
}

#[test]
fn subject_is_the_trimmed_first_line() {
    assert_eq!(subject_text("  fix(a): b  \n\nbody\nmore"), "fix(a): b");
    assert_eq!(subject_text("one line"), "one line");
    assert_eq!(subject_text("\nsecond"), "");
    assert_eq!(subject_text(""), "");
    assert_eq!(subject_text("\t x \r\nrest"), "x");
}

#[test]
fn subject_is_trimmed_of_all_white_space() {
    assert_eq!(subject_text("\u{a0}\u{3000} fix(a): b \u{2003}\u{85}"), "fix(a): b");
    assert_eq!(subject_text("\u{1680}\u{2028}\u{2029}\u{202f}\u{205f}x\u{2000}\u{200a}"), "x");
    // Inside the subject white space stays; what is no white space stays at the ends.
    assert_eq!(subject_text("a\u{a0}b"), "a\u{a0}b");
    assert_eq!(subject_text("\u{200b}a\u{feff}"), "\u{200b}a\u{feff}");
    assert_eq!(short_hash_text("\u{a0}0123456789\u{3000}"), "0123456");
    for c in (0..=0x3100u32).filter_map(char::from_u32).filter(|c| *c != '\n') {
        let text = format!("{}x{}", c, c);
        assert_eq!(subject_text(&text) == "x", c.is_whitespace(), "{:?}", c);
    }
}

#[test]
fn short_hash_has_seven_characters() {
    assert_eq!(short_hash_text("0123456789abcdef0123456789abcdef01234567"), "0123456");
    assert_eq!(short_hash_text(" 0123456789 \n"), "0123456");
    assert_eq!(short_hash_text("0123456"), "0123456");
    assert_eq!(short_hash_text("abc"), "abc");
    assert_eq!(short_hash_text(""), "");
}

#[test]
fn line_links_to_the_commit() {
    let c = commit("0123456789abcdef", "fix(layout): correct overflow", "Ann Lee");
    assert_eq!(
        builder().get_md_message(&c).unwrap(),
        "fix(layout): correct overflow. [0123456](https://github.com/ant-design/pro-components/commit/0123456) [@annlee](https://github.com/annlee)"
    );
}

#[test]
fn line_links_to_the_pull_request() {
    let c = commit("0123456789abcdef", "feat(table): sorting (#482)\n\ndetails", "陈帅");
    assert_eq!(
        builder().get_md_message(&c).unwrap(),
        "feat(table): sorting (#482). [#482](https://github.com/ant-design/pro-components/pull/482) [@chenshuai2144](https://github.com/chenshuai2144)"
    );
}

#[test]
fn reference_without_digits_links_to_the_commit() {
    let mut b = Changelogs::new("https://github.com/o/r".to_string());
    b.set_github_user_id("Ann", "ann1".to_string());
    let c = commit("0123456789abcdef0123456789abcdef01234567", "fix(layout): see (#)", "Ann");
    assert_eq!(
        b.get_md_message(&c).unwrap(),
        "fix(layout): see (#). [0123456](https://github.com/o/r/commit/0123456) [@ann1](https://github.com/ann1)"
    );
    let c = commit("0123456789abcdef", "fix(layout): see (#) and (#77)", "Ann");
    assert_eq!(
        b.get_md_message(&c).unwrap(),
        "fix(layout): see (#) and (#77). [#77](https://github.com/o/r/pull/77) [@ann1](https://github.com/ann1)"
    );
}

#[test]
fn line_needs_a_resolved_author() {
    let b = builder();
    let unknown = commit("0123456789", "fix(a): b", "Nobody");
    assert_eq!(b.get_md_message(&unknown).err(), Some(ErrorKind::ExternalService));
    let anonymous = Commit::new("fix(a): b".to_string(), "0123456789".to_string(), None, 0);
    assert_eq!(b.get_md_message(&anonymous).err(), Some(ErrorKind::ExternalService));
}

#[test]
fn author_cache_keeps_the_first_identity() {
    let mut c = Changelogs::new(URL.to_string());
    assert_eq!(c.get_github_user_id("Ann Lee"), None);
    c.set_github_user_id("Ann Lee", "annlee".to_string());
    assert_eq!(c.get_github_user_id("Ann Lee"), Some("annlee".to_string()));
    assert_eq!(c.get_github_user_id("Ann"), None);
    c.set_github_user_id("Ann Lee", "other".to_string());
    c.set_github_user_id("Bob", "bob".to_string());
    assert_eq!(c.get_github_user_id("Ann Lee"), Some("annlee".to_string()));
    assert_eq!(c.get_github_user_id("Bob"), Some("bob".to_string()));
}

#[test]
fn one_lookup_for_many_commits_of_one_author() {
    let mut c = Changelogs::new(URL.to_string());
    let commits: Vec<Commit> = (0..5)
        .map(|i| commit(&format!("{}aaaaaaaaa", i), "fix(layout): change", "Ann Lee"))
        .collect();
    assert_eq!(c.unresolved_authors(&commits, "layout"), vec!["Ann Lee".to_string()]);
    c.set_github_user_id("Ann Lee", "annlee".to_string());
    assert!(c.unresolved_authors(&commits, "layout").is_empty());
    assert_eq!(c.gen_change_log_by_commit_list(&commits, "layout").unwrap().len(), 5);
}

#[test]
fn unresolved_authors_are_those_of_selected_commits() {
    let c = builder();
    let commits = vec![
        commit("1111111111", "fix(layout): a", "Zed"),
        commit("2222222222", "fix(table): b", "Other Package"),
        commit("3333333333", "chore: c", "No Scope"),
        commit("4444444444", "feat(layout): d", "Ann Lee"),
        commit("5555555555", "feat(layout): e", "Yan"),
        commit("1111111111", "fix(layout): a", "Repeated Hash"),
        commit("6666666666", "feat(layout): f", "Zed"),
        Commit::new("feat(layout): g".to_string(), "7777777777".to_string(), None, 0),
    ];
    assert_eq!(c.unresolved_authors(&commits, "layout"), vec!["Zed".to_string(), "Yan".to_string()]);
}

#[test]
fn lines_are_filtered_by_scope() {
    let commits = vec![
        commit("1111111111", "fix(layout): correct overflow", "Ann Lee"),
        commit("2222222222", "chore: bump deps", "Ann Lee"),
        commit("3333333333", "feat(table): sorting", "Ann Lee"),
        commit("4444444444", "feat(Layout): menu", "Ann Lee"),
    ];
    let b = builder();
    assert_eq!(
        b.gen_change_log_by_commit_list(&commits, "layout").unwrap(),
        vec![
            format!("fix(layout): correct overflow. [1111111]({0}/commit/1111111) [@annlee](https://github.com/annlee)", URL),
            format!("feat(Layout): menu. [4444444]({0}/commit/4444444) [@annlee](https://github.com/annlee)", URL),
        ]
    );
    assert_eq!(b.gen_change_log_by_commit_list(&commits, "table").unwrap().len(), 1);
    assert!(b.gen_change_log_by_commit_list(&commits, "form").unwrap().is_empty());
    assert!(b.gen_change_log_by_commit_list(&Vec::new(), "layout").unwrap().is_empty());
}

#[test]
fn a_commit_id_is_reported_once() {
    let commits = vec![
        commit("1111111111", "fix(layout): a", "Ann Lee"),
        commit("2222222222", "fix(layout): b", "Ann Lee"),
        commit("1111111111", "fix(layout): a", "Ann Lee"),
    ];
    let b = builder();
    let lines = b.gen_change_log_by_commit_list(&commits, "layout").unwrap();
    assert_eq!(lines.len(), 2);
    assert!(lines[0].starts_with("fix(layout): a."));
    assert!(lines[1].starts_with("fix(layout): b."));
}

#[test]
fn building_twice_gives_the_same_lines() {
    let commits = vec![
        commit("1111111111", "fix(layout): a", "Ann Lee"),
        commit("2222222222", "feat(layout): b (#3)", "陈帅"),
        commit("1111111111", "fix(layout): a", "Ann Lee"),
    ];
    let b = builder();
    let once = b.gen_change_log_by_commit_list(&commits, "layout").unwrap();
    let again = b.gen_change_log_by_commit_list(&commits, "layout").unwrap();
    assert_eq!(once, again);
    let mut doubled = commits.clone();
    doubled.extend(commits.iter().cloned());
    assert_eq!(b.gen_change_log_by_commit_list(&doubled, "layout").unwrap(), once);
    let chosen = select_commits(&doubled, "layout");
    let hashes: Vec<&str> = chosen.iter().map(|c| c.hash()).collect();
    assert_eq!(hashes, vec!["1111111111", "2222222222"]);
}

#[test]
fn unqualified_commit_does_not_block_a_later_one_of_the_same_id() {
    let commits = vec![
        commit("1111111111", "chore: a", "Ann Lee"),
        commit("1111111111", "fix(layout): a", "Ann Lee"),
    ];
    assert_eq!(builder().gen_change_log_by_commit_list(&commits, "layout").unwrap().len(), 1);
}

#[test]
fn build_fails_on_an_unresolved_author_of_a_selected_commit() {
    let b = builder();
    let commits = vec![
        commit("1111111111", "fix(layout): a", "Ann Lee"),
        commit("2222222222", "fix(layout): b", "Nobody"),
    ];
    assert_eq!(
        b.gen_change_log_by_commit_list(&commits, "layout").err(),
        Some(ErrorKind::ExternalService)
    );
    // The unresolved author wrote for another package: no line, no failure.
    assert_eq!(b.gen_change_log_by_commit_list(&commits[1..].to_vec(), "table").unwrap().len(), 0);
}

#[test]
fn block_has_heading_blank_line_and_bullets() {
    let b = builder();
    assert_eq!(
        b.gen_change_log_to_md("pkg@1.1.0", &vec!["one".to_string(), "two".to_string()]),
        "## pkg@1.1.0\n\n* one\n* two\n"
    );
    assert_eq!(b.gen_change_log_to_md("t", &Vec::new()), "## t\n\n");
}

#[test]
fn release_without_own_commits_has_no_block() {
    let b = builder();
    let r = release("p@1.0.0", vec![commit("1111111111", "chore: a", "Ann Lee")]);
    assert_eq!(b.gen_release_block("layout", &r).unwrap(), None);
    let r = release("p@1.0.0", vec![commit("1111111111", "fix(layout): a", "Ann Lee")]);
    assert_eq!(
        b.gen_release_block("layout", &r).unwrap(),
        Some(format!("## p@1.0.0\n\n* fix(layout): a. [1111111]({0}/commit/1111111) [@annlee](https://github.com/annlee)\n", URL))
    );
}

#[test]
fn latest_documents_skip_packages_without_lines() {
    let b = builder();
    let packages = vec![
        PackageRelease {
            package: "layout".to_string(),
            release: release("@ant-design/pro-layout@6.1.0", vec![commit("1111111111", "fix(layout): a", "Ann Lee")]),
        },
        PackageRelease {
            package: "table".to_string(),
            release: release("@ant-design/pro-table@2.0.0", vec![commit("1111111111", "fix(layout): a", "Ann Lee")]),
        },
        PackageRelease {
            package: "form".to_string(),
            release: release("@ant-design/pro-form@1.0.0", vec![commit("2222222222", "feat(form): b (#9)", "陈帅")]),
        },
    ];
    let docs = b.get_change_log_list(&packages);
    assert_eq!(docs.len(), 2);
    let first = docs[0].as_ref().unwrap();
    assert_eq!(first.package, "layout");
    assert_eq!(
        first.content,
        format!("## @ant-design/pro-layout@6.1.0\n\n* fix(layout): a. [1111111]({0}/commit/1111111) [@annlee](https://github.com/annlee)\n", URL)
    );
    let second = docs[1].as_ref().unwrap();
    assert_eq!(second.package, "form");
    assert_eq!(
        second.content,
        format!("## @ant-design/pro-form@1.0.0\n\n* feat(form): b (#9). [#9]({0}/pull/9) [@chenshuai2144](https://github.com/chenshuai2144)\n", URL)
    );
}

#[test]
fn a_failing_package_does_not_stop_the_others() {
    let b = builder();
    let packages = vec![
        PackageRelease {
            package: "layout".to_string(),
            release: release("l@1.0.0", vec![commit("1111111111", "fix(layout): a", "Nobody")]),
        },
        PackageRelease {
            package: "table".to_string(),
            release: release("t@1.0.0", vec![commit("2222222222", "fix(table): a", "Ann Lee")]),
        },
    ];
    let docs = b.get_change_log_list(&packages);
    assert_eq!(docs.len(), 2);
    let failure = docs[0].as_ref().err().unwrap();
    assert_eq!(failure.package, "layout");
    assert_eq!(failure.kind, ErrorKind::ExternalService);
    assert_eq!(docs[1].as_ref().unwrap().package, "table");
}

#[test]
fn full_documents_join_blocks_with_an_empty_line() {
    let b = builder();
    let packages = vec![
        PackageHistory {
            package: "layout".to_string(),
            releases: vec![
                release("l@2.0.0", vec![commit("3333333333", "fix(layout): c", "Ann Lee")]),
                release("l@1.1.0", vec![commit("2222222222", "chore: b", "Ann Lee")]),
                release("l@1.0.0", vec![commit("1111111111", "feat(layout): a", "Ann Lee")]),
            ],
        },
        PackageHistory { package: "table".to_string(), releases: Vec::new() },
        PackageHistory {
            package: "form".to_string(),
            releases: vec![
                release("f@2.0.0", vec![commit("4444444444", "fix(form): d", "Ann Lee")]),
                release("f@1.0.0", vec![commit("5555555555", "fix(form): e", "Nobody")]),
            ],
        },
        PackageHistory {
            package: "card".to_string(),
            releases: vec![release("c@1.0.0", vec![commit("6666666666", "fix(card): f", "Ann Lee")])],
        },
    ];
    let docs = b.get_all_change_log_list(&packages);
    assert_eq!(docs.len(), 4);
    let layout = docs[0].as_ref().unwrap();
    assert_eq!(layout.package, "layout");
    assert_eq!(
        layout.content,
        format!(
            "## l@2.0.0\n\n* fix(layout): c. [3333333]({0}/commit/3333333) [@annlee](https://github.com/annlee)\n\n\n## l@1.0.0\n\n* feat(layout): a. [1111111]({0}/commit/1111111) [@annlee](https://github.com/annlee)\n",
            URL
        )
    );
    let table = docs[1].as_ref().unwrap();
    assert_eq!(table.package, "table");
    assert_eq!(table.content, "");
    let form = docs[2].as_ref().err().unwrap();
    assert_eq!(form.package, "form");
    assert_eq!(form.kind, ErrorKind::ExternalService);
    assert_eq!(docs[3].as_ref().unwrap().package, "card");
    assert_eq!(
        b.gen_history_content("layout", &packages[0].releases).unwrap(),
        layout.content
    );
    assert_eq!(
        b.gen_history_content("form", &packages[2].releases).err(),
        Some(ErrorKind::ExternalService)
    );
}

#[test]
fn names_of_the_monorepo() {
    assert_eq!(tag_scope("layout"), "@ant-design/pro-layout");
    assert_eq!(md_file_path("layout"), ".changelog/layout.md");
    assert_eq!(
        package_names(),
        vec!["utils", "layout", "form", "table", "field", "card", "descriptions"]
    );
}
