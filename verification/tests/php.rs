use frontpress_local::catalog::latest_patch;
use frontpress_local::php::parse_listing;

#[test]
fn latest_patch_picks_highest() {
    let v = vec![
        "8.3.9".to_string(),
        "8.3.7".to_string(),
        "8.3.10".to_string(),
        "8.1.34".to_string(),
    ];
    assert_eq!(latest_patch(&v, "8.3"), Some("8.3.10".to_string()));
    assert_eq!(latest_patch(&v, "8.1"), Some("8.1.34".to_string()));
    assert_eq!(latest_patch(&v, "8.9"), None);
}

#[test]
fn parse_listing_extracts_versions() {
    let html = r#"
        <a href="/static-php-cli/common/php-8.1.34-cli-linux-aarch64.tar.gz">x</a>
        <a href="/static-php-cli/common/php-8.3.9-cli-linux-aarch64.tar.gz">x</a>
        <a href="/static-php-cli/common/php-8.2.21-cli-linux-x86_64.tar.gz">x</a>
        <a href="/static-php-cli/common/php-8.4.1-cli-linux-aarch64.tar.gz">x</a>
    "#;
    let v = parse_listing(html, "aarch64");
    assert_eq!(v.first().map(String::as_str), Some("8.4.1"));
    assert!(v.contains(&"8.1.34".to_string()));
    assert!(!v.contains(&"8.2.21".to_string()));
}
