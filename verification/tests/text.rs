use frontpress_local::slug::slugify;
use frontpress_local::text::{decimal_string, is_blank, trim_str};

#[test]
fn trim_removes_unicode_white_space() {
    assert_eq!(trim_str("  hello world \n"), "hello world");
    assert_eq!(trim_str("\u{3000}\u{a0}x\u{2009}"), "x");
    assert_eq!(trim_str("   "), "");
    assert!(is_blank(" \t\r\n"));
    assert!(!is_blank(" a "));
}

#[test]
fn decimal_renders_numbers() {
    assert_eq!(decimal_string(0), "0");
    assert_eq!(decimal_string(8081), "8081");
    assert_eq!(decimal_string(u64::MAX), u64::MAX.to_string());
}

#[test]
fn slugify_examples() {
    assert_eq!(slugify("My Site!"), "my-site");
    assert_eq!(slugify("  Hello   World  "), "hello-world");
    assert_eq!(slugify("Blog 2024"), "blog-2024");
    assert_eq!(slugify("!!!"), "site");
    assert_eq!(slugify(""), "site");
    assert_eq!(slugify("Café Olé"), "caf-ol");
    assert_eq!(slugify("--a--b--"), "a-b");
}

#[test]
fn slugify_is_idempotent() {
    for name in ["My Site!", "a--b", "site", "Ünïcode", "x_y.z"] {
        let once = slugify(name);
        assert_eq!(slugify(&once), once);
    }
}
