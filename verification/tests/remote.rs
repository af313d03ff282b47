use monorepo_changelog::remote::{repo_api_url, repo_slug};

#[test]
fn short_form_remote() {
    assert_eq!(
        repo_slug("git@github.com:ant-design/pro-components.git"),
        Some("ant-design/pro-components".to_string())
    );
    assert_eq!(repo_slug("git@github.com:owner/repo"), Some("owner/repo".to_string()));
}

#[test]
fn remote_with_a_scheme() {
    assert_eq!(
        repo_slug("https://github.com/ant-design/pro-components.git"),
        Some("ant-design/pro-components".to_string())
    );
    assert_eq!(repo_slug("ssh://git@github.com/owner/repo"), Some("owner/repo".to_string()));
}

#[test]
fn only_the_suffix_is_stripped() {
    assert_eq!(repo_slug("git@host:owner/my.github.io.git"), Some("owner/my.github.io".to_string()));
    assert_eq!(repo_slug("git@host:owner/.gitignore"), Some("owner/.gitignore".to_string()));
    assert_eq!(repo_slug("git@host:.git"), Some(String::new()));
}

#[test]
fn addresses_without_a_path() {
    assert_eq!(repo_slug(""), None);
    assert_eq!(repo_slug("owner/repo"), None);
    assert_eq!(repo_slug("https://github.com"), None);
    assert_eq!(repo_slug("host:"), Some(String::new()));
}

#[test]
fn metadata_address() {
    assert_eq!(
        repo_api_url("ant-design/pro-components"),
        "https://api.github.com/repos/ant-design/pro-components"
    );
}
