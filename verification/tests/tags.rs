use monorepo_changelog::tags::{get_version, list_package_tags, sort_tags};

fn names(list: &[&str]) -> Vec<String> {
    list.iter().map(|s| s.to_string()).collect()
}

fn raw(list: &[monorepo_changelog::tags::ParsedTagVersion]) -> Vec<String> {
    list.iter().map(|t| t.raw_tag().to_string()).collect()
}

#[test]
fn split_takes_the_last_segment_as_version() {
    let parts = get_version("@ant-design/pro-layout@6.1.0");
    assert_eq!(parts.package(), "@ant-design/pro-layout");
    assert_eq!(parts.version(), "6.1.0");
}

#[test]
fn split_without_separator_has_empty_scope() {
    let parts = get_version("1.2.3");
    assert_eq!(parts.package(), "");
    assert_eq!(parts.version(), "1.2.3");
}

#[test]
fn tags_are_ordered_by_version_not_by_text() {
    let all = names(&["pkg@1.19.0", "pkg@1.5.0", "pkg@1.0.0", "other@9.0.0", "pkg@broken"]);
    let ordered = list_package_tags(&all, "pkg");
    assert_eq!(raw(&ordered), names(&["pkg@1.0.0", "pkg@1.5.0", "pkg@1.19.0"]));
}

#[test]
fn prerelease_sorts_below_its_release() {
    let all = names(&["p@1.0.0", "p@1.0.0-alpha.1", "p@1.0.0-alpha", "p@1.0.0-rc.1"]);
    let ordered = sort_tags(&all);
    assert_eq!(
        raw(&ordered),
        names(&["p@1.0.0-alpha", "p@1.0.0-alpha.1", "p@1.0.0-rc.1", "p@1.0.0"])
    );
}

#[test]
fn no_matching_tag_gives_an_empty_index() {
    let all = names(&["a@1.0.0", "b@x"]);
    assert!(list_package_tags(&all, "zzz").is_empty());
    assert!(list_package_tags(&Vec::new(), "a").is_empty());
}

#[test]
fn equal_versions_keep_their_order() {
    let all = names(&["b@1.0.0", "a@2.0.0", "a@1.0.0", "c@1.0.0"]);
    let ordered = sort_tags(&all);
    assert_eq!(raw(&ordered), names(&["b@1.0.0", "a@1.0.0", "c@1.0.0", "a@2.0.0"]));
}

#[test]
fn scope_is_a_prefix_of_the_name() {
    let all = names(&["@x/pro-table@1.0.0", "@x/pro-tablet@3.0.0", "@x/pro-form@2.0.0"]);
    let ordered = list_package_tags(&all, "@x/pro-table");
    assert_eq!(raw(&ordered), names(&["@x/pro-table@1.0.0", "@x/pro-tablet@3.0.0"]));
    assert_eq!(ordered[1].package_scope(), "@x/pro-tablet");
}
