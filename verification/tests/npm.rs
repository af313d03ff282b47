use monorepo_changelog::npm::{
    find_node_dir, find_previous_tag, latest_endpoint, manifest_path, packages_dir,
    publish_endpoint, Npm, NpmPackageInfo,
};
use monorepo_changelog::tags::sort_tags;

fn names(list: &[&str]) -> Vec<String> {
    list.iter().map(|s| s.to_string()).collect()
}

fn npm() -> Npm {
    Npm::new(
        "/repo".to_string(),
        vec![
            NpmPackageInfo::new("@ant-design/pro-layout".to_string(), "6.2.0".to_string()),
            NpmPackageInfo::new("@ant-design/pro-table".to_string(), "2.0.0".to_string()),
        ],
    )
}

#[test]
fn package_info_keeps_name_and_version() {
    let info = NpmPackageInfo::new("a".to_string(), "1.2.3".to_string());
    assert_eq!(info.name(), "a");
    assert_eq!(info.version(), "1.2.3");
    let n = npm();
    assert_eq!(n.path(), "/repo");
    assert_eq!(n.package_list().len(), 2);
}

#[test]
fn registry_addresses() {
    assert_eq!(publish_endpoint("pkg", "1.0.0"), "https://registry.npmjs.org/pkg/1.0.0");
    assert_eq!(latest_endpoint("pkg"), "https://registry.npmjs.org/pkg/latest");
    assert_eq!(
        npm().publish_endpoints(),
        names(&[
            "https://registry.npmjs.org/@ant-design/pro-layout/6.2.0",
            "https://registry.npmjs.org/@ant-design/pro-table/2.0.0",
        ])
    );
}

#[test]
fn repository_paths() {
    assert_eq!(packages_dir("/repo"), "/repo/packages/");
    assert_eq!(manifest_path("/repo/packages/layout"), "/repo/packages/layout/package.json");
}

#[test]
fn publish_went_through_if_any_version_is_there() {
    let n = npm();
    assert!(n.check(&vec![false, true]));
    assert!(n.check(&vec![true, true]));
    assert!(!n.check(&vec![false, false]));
    assert!(!n.check(&Vec::new()));
}

#[test]
fn previous_tag_is_the_second_highest() {
    let tags = sort_tags(&names(&[
        "@ant-design/pro-layout@6.2.0",
        "@ant-design/pro-table@2.0.0",
        "@ant-design/pro-layout@6.10.0",
        "@ant-design/pro-layout@6.9.0",
        "junk",
    ]));
    assert_eq!(
        find_previous_tag(&tags, "@ant-design/pro-layout"),
        Some("@ant-design/pro-layout@6.9.0".to_string())
    );
    assert_eq!(find_previous_tag(&tags, "@ant-design/pro-table"), None);
    assert_eq!(find_previous_tag(&tags, "@ant-design/pro-form"), None);
    assert_eq!(
        npm().get_pre_package_version(&tags),
        vec![Some("@ant-design/pro-layout@6.9.0".to_string()), None]
    );
}

#[test]
fn node_directory_in_a_search_path() {
    assert_eq!(
        find_node_dir("C:\\Windows;C:\\Program Files\\nodejs\\;C:\\other\\nodejs"),
        Some("C:\\Program Files\\nodejs\\".to_string())
    );
    assert_eq!(find_node_dir("nodejs"), Some("nodejs".to_string()));
    assert_eq!(find_node_dir("a;b;c"), None);
    assert_eq!(find_node_dir(""), None);
    assert_eq!(find_node_dir("node;js"), None);
    assert_eq!(find_node_dir(";;x/nodejs/y"), Some("x/nodejs/y".to_string()));
}
