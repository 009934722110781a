use frontpress_local::store::{default_min_php, now_secs, Settings, Site, Store, MIN_PHP_DEFAULT};

fn site(id: &str, slug: &str, port: u16) -> Site {
    Site {
        id: id.to_string(),
        name: slug.to_string(),
        slug: slug.to_string(),
        path: format!("/sites/{slug}"),
        port,
        php_version: "8.3.9".to_string(),
        frontpress_version: "0.4.1".to_string(),
        admin_user: "fpsadmin".to_string(),
        created_at: 1,
    }
}

fn store(sites: Vec<Site>) -> Store {
    Store { settings: Settings::default(), sites }
}

#[test]
fn defaults() {
    let s = Settings::default();
    assert_eq!(s.min_php, "8.1");
    assert_eq!(default_min_php(), MIN_PHP_DEFAULT);
    assert!(s.global_php_version.is_empty() && s.editor.is_empty() && s.sites_dir.is_empty());
    let st = Store::default();
    assert!(st.sites.is_empty());
}

#[test]
fn site_finds_first_match() {
    let st = store(vec![site("a", "one", 8081), site("b", "two", 8082), site("b", "three", 8083)]);
    assert_eq!(st.site("b").map(|s| s.slug.as_str()), Some("two"));
    assert!(st.site("zzz").is_none());
}

#[test]
fn remove_site_then_lookup() {
    let mut st = store(vec![site("a", "one", 8081), site("b", "two", 8082)]);
    let removed = st.remove_site("a").unwrap();
    assert_eq!(removed.slug, "one");
    assert!(st.site("a").is_none());
    assert_eq!(st.sites.len(), 1);
    assert!(st.remove_site("a").is_none());
    assert_eq!(st.sites.len(), 1);
}

#[test]
fn next_free_port_fills_gaps() {
    assert_eq!(store(vec![]).next_free_port(), 8081);
    let st = store(vec![site("a", "one", 8081), site("b", "two", 8083), site("c", "x", 8082)]);
    assert_eq!(st.next_free_port(), 8084);
    let st = store(vec![site("a", "one", 8081), site("b", "two", 8083)]);
    assert_eq!(st.next_free_port(), 8082);
    let st = store(vec![site("a", "one", 9000)]);
    assert_eq!(st.next_free_port(), 8081);
}

#[test]
fn slug_availability() {
    let st = store(vec![site("a", "blog", 8081)]);
    assert!(!st.slug_available("blog"));
    assert!(st.slug_available("blog-2"));
    assert!(st.has_path("/sites/blog"));
    assert!(!st.has_path("/sites/other"));
}

#[test]
fn relocation_updates_paths() {
    let mut st = store(vec![site("a", "one", 8081), site("b", "two", 8082)]);
    st.apply_relocation(
        &[("b".to_string(), "/new/two".to_string()), ("zzz".to_string(), "/new/z".to_string())],
        "/new".to_string(),
    );
    assert_eq!(st.sites[0].path, "/sites/one");
    assert_eq!(st.sites[1].path, "/new/two");
    assert_eq!(st.settings.sites_dir, "/new");
}

#[test]
fn set_editor_trims() {
    let mut s = Settings::default();
    s.set_editor("  code \n");
    assert_eq!(s.editor, "code");
}

#[test]
fn clock_is_after_epoch() {
    assert!(now_secs() > 1_600_000_000);
}

#[test]
fn site_duplicate_copies_fields() {
    let s = site("a", "one", 8081);
    assert_eq!(s.duplicate(), s);
}
