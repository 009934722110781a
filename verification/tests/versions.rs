use frontpress_local::catalog::{dedup_vec, latest_patch, sort_newest_first_vec};
use frontpress_local::version::{compare_versions, minor_of, parse_version, version_at_least};

fn strings(v: &[&str]) -> Vec<String> {
    v.iter().map(|s| s.to_string()).collect()
}

#[test]
fn parse_version_reads_components() {
    assert_eq!(parse_version("8.3.10"), vec![8, 3, 10]);
    assert_eq!(parse_version("8"), vec![8]);
    assert_eq!(parse_version(""), vec![0]);
    assert_eq!(parse_version("8.x.1"), vec![8, 0, 1]);
    assert_eq!(parse_version("8..1"), vec![8, 0, 1]);
    assert_eq!(parse_version("99999999999.1"), vec![0, 1]);
    assert_eq!(parse_version("4294967295"), vec![4294967295]);
}

#[test]
fn compare_versions_is_numeric() {
    assert_eq!(compare_versions("8.3.10", "8.3.9"), 1);
    assert_eq!(compare_versions("8.3.9", "8.3.10"), -1);
    assert_eq!(compare_versions("8.3", "8.3.0"), -1);
    assert_eq!(compare_versions("8.3.0", "8.3.0"), 0);
    assert_eq!(compare_versions("8.10", "8.9"), 1);
}

#[test]
fn minor_of_keeps_two_components() {
    assert_eq!(minor_of("8.3.9"), "8.3");
    assert_eq!(minor_of("8.3"), "8.3");
    assert_eq!(minor_of("8"), "8");
    assert_eq!(minor_of("8.3.9.1"), "8.3");
    assert_eq!(minor_of(""), "");
}

#[test]
fn version_at_least_checks_minimum() {
    assert!(version_at_least("8.1", "8.1"));
    assert!(version_at_least("8.3.1", "8.1"));
    assert!(!version_at_least("8.0", "8.1"));
    assert!(!version_at_least("7.4.33", "8.1"));
    assert!(version_at_least("10.0", "8.1"));
}

#[test]
fn latest_patch_keeps_last_of_equal_versions() {
    let v = strings(&["8.3.1", "8.3.01", "8.2.9"]);
    assert_eq!(latest_patch(&v, "8.3"), Some("8.3.01".to_string()));
    assert_eq!(latest_patch(&[], "8.3"), None);
}

#[test]
fn sort_newest_first_is_stable() {
    let v = strings(&["8.1.2", "8.3.01", "8.3.10", "8.3.1", "8.2.0"]);
    assert_eq!(
        sort_newest_first_vec(v),
        strings(&["8.3.10", "8.3.01", "8.3.1", "8.2.0", "8.1.2"])
    );
}

#[test]
fn dedup_drops_repeated_neighbours() {
    let v = strings(&["8.3.1", "8.3.1", "8.2.0", "8.3.1", "8.2.0", "8.2.0"]);
    assert_eq!(dedup_vec(v), strings(&["8.3.1", "8.2.0", "8.3.1", "8.2.0"]));
}

#[test]
fn sorted_then_deduped_has_no_repeats() {
    let v = strings(&["8.1.2", "8.3.1", "8.1.2", "8.3.1"]);
    assert_eq!(dedup_vec(sort_newest_first_vec(v)), strings(&["8.3.1", "8.1.2"]));
}

#[test]
fn minor_of_is_idempotent() {
    for v in ["8.3.9", "8", "8.3", "10.2.1.7", ""] {
        let m = minor_of(v);
        assert_eq!(minor_of(&m), m);
    }
}

#[test]
fn version_order_is_antisymmetric_and_transitive() {
    let vs = ["8.1", "8.1.0", "8.3.10", "8.3.9", "9", "8.x"];
    for a in vs {
        for b in vs {
            assert_eq!(compare_versions(a, b), -compare_versions(b, a));
            for c in vs {
                if compare_versions(a, b) <= 0 && compare_versions(b, c) <= 0 {
                    assert!(compare_versions(a, c) <= 0);
                }
            }
        }
    }
}
