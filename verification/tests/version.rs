use monorepo_changelog::tags::ParsedTagVersion;
use monorepo_changelog::version::SemVer;

fn v(text: &str) -> SemVer {
    SemVer::parse(text).unwrap()
}

#[test]
fn parse_reads_the_release_numbers() {
    let version = v("1.19.3");
    assert_eq!((version.major(), version.minor(), version.patch()), (1, 19, 3));
    assert_eq!(version.text(), "1.19.3");
    let version = v("0.0.0-alpha.1+build.5");
    assert_eq!((version.major(), version.minor(), version.patch()), (0, 0, 0));
    assert_eq!(version.text(), "0.0.0-alpha.1+build.5");
}

#[test]
fn parse_is_strict() {
    for text in ["", "1", "1.0", "1.0.01", "1.0.unknown", "1.0.0-", "v1.0.0", " 1.0.0", "1.0.0 ", "23456789999999999999.0.0"] {
        assert!(SemVer::parse(text).is_none(), "{}", text);
    }
}

#[test]
fn compare_orders_by_numbers_first() {
    assert_eq!(v("1.5.0").compare(&v("1.19.0")), -1);
    assert_eq!(v("1.19.0").compare(&v("1.5.0")), 1);
    assert_eq!(v("2.0.0").compare(&v("1.99.99")), 1);
    assert_eq!(v("1.2.3").compare(&v("1.2.4")), -1);
    assert_eq!(v("1.2.3").compare(&v("1.2.3")), 0);
}

#[test]
fn compare_puts_a_prerelease_below_its_release() {
    assert_eq!(v("1.0.0-alpha.1").compare(&v("1.0.0")), -1);
    assert_eq!(v("1.0.0-pre.8").compare(&v("1.0.0-pre.12")), -1);
    assert_eq!(v("1.0.0-pre12").compare(&v("1.0.0-pre8")), -1);
    assert_eq!(v("1.0.0-pre.1").compare(&v("1.0.0-pre.x")), -1);
}

#[test]
fn tag_parse_splits_and_reads() {
    let tag = ParsedTagVersion::parse("@ant-design/pro-form@1.2.3-beta.1").unwrap();
    assert_eq!(tag.raw_tag(), "@ant-design/pro-form@1.2.3-beta.1");
    assert_eq!(tag.package_scope(), "@ant-design/pro-form");
    assert_eq!(tag.version().text(), "1.2.3-beta.1");
    assert_eq!(tag.version().patch(), 3);
    assert!(ParsedTagVersion::parse("@ant-design/pro-form@latest").is_none());
    assert!(ParsedTagVersion::parse("1.2.3@").is_none());
    let bare = ParsedTagVersion::parse("1.2.3").unwrap();
    assert_eq!(bare.package_scope(), "");
}
