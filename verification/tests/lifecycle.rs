use frontpress_local::errors::CommandError;
use frontpress_local::lifecycle::{
    begin_create, begin_duplicate, check_import_folder, chosen_folder, copied_site, discovery_fits, created_site, discover_all, discover_entry, folder_site,
    is_zip_backup, move_step, moving_message, php_request, plan_import, record_copy, record_new_site,
    resolve_php, settle_relocation, site_identity, unique_slug, BackupMeta, FolderEntry, MoveOutcome,
    MoveStep, PhpRequest, RelocationDecision,
};
use frontpress_local::store::{Settings, Site, Store};

fn site(id: &str, slug: &str, port: u16) -> Site {
    Site {
        id: id.to_string(),
        name: slug.to_string(),
        slug: slug.to_string(),
        path: format!("/sites/{slug}"),
        port,
        php_version: "8.2.5".to_string(),
        frontpress_version: "0.4.1".to_string(),
        admin_user: "admin".to_string(),
        created_at: 3,
    }
}

fn store(sites: Vec<Site>) -> Store {
    Store { settings: Settings::default(), sites }
}

fn strings(v: &[&str]) -> Vec<String> {
    v.iter().map(|s| s.to_string()).collect()
}

#[test]
fn begin_create_checks_name_and_slug() {
    let st = store(vec![site("a", "my-blog", 8081)]);
    assert_eq!(begin_create(&st, "   ").unwrap_err(), CommandError::EmptySiteName);
    assert_eq!(begin_create(&st, " My Blog ").unwrap_err(), CommandError::SlugTaken("my-blog".to_string()));
    let plan = begin_create(&st, "  Shop  ").unwrap();
    assert_eq!(plan.name, "Shop");
    assert_eq!(plan.slug, "shop");
    assert_eq!(plan.port, 8082);
    assert_eq!(plan.min_php, "8.1");
}

#[test]
fn php_request_follows_mode() {
    assert_eq!(php_request("custom", &None, "8.1", "").unwrap_err(), CommandError::NoPhpChosen);
    assert_eq!(
        php_request("custom", &Some("8.0".to_string()), "8.1", "").unwrap_err(),
        CommandError::MinorBelowMinimum { minor: "8.0".to_string(), min_php: "8.1".to_string() }
    );
    assert_eq!(
        php_request("custom", &Some("8.2".to_string()), "8.1", "8.3.9").unwrap(),
        PhpRequest::NewestOf("8.2".to_string())
    );
    assert_eq!(php_request("global", &None, "8.1", "8.3.9").unwrap(), PhpRequest::Exact("8.3.9".to_string()));
    assert_eq!(php_request("global", &None, "8.1", "").unwrap(), PhpRequest::PreferredDefault);
}

#[test]
fn resolve_php_against_catalogue() {
    let remote = strings(&["8.4.1", "8.3.10", "8.3.9", "8.0.30"]);
    assert_eq!(resolve_php(&PhpRequest::NewestOf("8.3".to_string()), &remote, "8.1").unwrap(), "8.3.10");
    assert_eq!(resolve_php(&PhpRequest::PreferredDefault, &remote, "8.1").unwrap(), "8.3.10");
    assert_eq!(
        resolve_php(&PhpRequest::NewestOf("8.9".to_string()), &remote, "8.1").unwrap_err(),
        CommandError::NoBuildForMinor("8.9".to_string())
    );
    assert_eq!(
        resolve_php(&PhpRequest::PreferredDefault, &strings(&["8.4.1"]), "8.1").unwrap_err(),
        CommandError::NoDefaultBuild
    );
    assert_eq!(
        resolve_php(&PhpRequest::Exact("8.0.30".to_string()), &remote, "8.1").unwrap_err(),
        CommandError::VersionBelowMinimum { version: "8.0.30".to_string(), min_php: "8.1".to_string() }
    );
    assert_eq!(resolve_php(&PhpRequest::Exact("8.2.0".to_string()), &[], "8.1").unwrap(), "8.2.0");
}

#[test]
fn record_new_site_adopts_global_php_once() {
    let mut st = store(vec![]);
    record_new_site(&mut st, site("a", "one", 8081));
    assert_eq!(st.settings.global_php_version, "8.2.5");
    let mut other = site("b", "two", 8082);
    other.php_version = "8.4.1".to_string();
    record_new_site(&mut st, other);
    assert_eq!(st.settings.global_php_version, "8.2.5");
    assert_eq!(st.sites.len(), 2);
}

#[test]
fn duplicate_flow() {
    let st = store(vec![site("a", "one", 8081)]);
    assert_eq!(begin_duplicate(&st, "a", " ").unwrap_err(), CommandError::EmptyCopyName);
    assert_eq!(begin_duplicate(&st, "zz", "Copy").unwrap_err(), CommandError::UnknownSite);
    assert_eq!(begin_duplicate(&st, "a", "One").unwrap_err(), CommandError::SlugTaken("one".to_string()));
    let plan = begin_duplicate(&st, "a", "One Copy").unwrap();
    assert_eq!(plan.slug, "one-copy");
    assert_eq!(plan.port, 8082);
    assert_eq!(plan.source, st.sites[0]);
    let copy = copied_site(&plan.source, "new".to_string(), plan.name.clone(), plan.slug.clone(), "/sites/one-copy".to_string(), plan.port, 9);
    assert_eq!(copy.admin_user, "fpsadmin");
    assert_eq!(copy.php_version, "8.2.5");
    assert_eq!(copy.frontpress_version, "0.4.1");
    assert_eq!(copy.created_at, 9);
}

#[test]
fn unique_slug_counts_up() {
    let st = store(vec![site("a", "blog", 8081), site("b", "blog-2", 8082), site("c", "blog-4", 8083)]);
    assert_eq!(unique_slug(&st, "blog"), "blog-3");
    assert_eq!(unique_slug(&st, "shop"), "shop");
}

#[test]
fn import_uses_meta_or_fallbacks() {
    let mut st = store(vec![site("a", "blog", 8081)]);
    st.settings.global_php_version = "8.3.9".to_string();
    let meta = BackupMeta::default();
    let s = plan_import(&st, "/elsewhere/Blog", "Blog", &meta, "id1".to_string(), 5).unwrap();
    assert_eq!(s.slug, "blog-2");
    assert_eq!(s.name, "Blog");
    assert_eq!(s.php_version, "8.3.9");
    assert_eq!(s.frontpress_version, "?");
    assert_eq!(s.admin_user, "fpsadmin");
    assert_eq!(s.port, 8082);
    assert_eq!(plan_import(&st, "/sites/blog", "blog", &meta, "id2".to_string(), 5).unwrap_err(), CommandError::FolderAlreadyAdded);
    let meta = BackupMeta {
        name: "My Blog".to_string(),
        php_version: "8.2.1".to_string(),
        frontpress_version: "0.5.0".to_string(),
        admin_user: "root".to_string(),
    };
    let s = folder_site(&st, "x", "/p/x", "x".to_string(), &meta, "id3".to_string(), 6);
    assert_eq!((s.name.as_str(), s.php_version.as_str(), s.frontpress_version.as_str(), s.admin_user.as_str()), ("My Blog", "8.2.1", "0.5.0", "root"));
    let ident = site_identity(&s);
    assert_eq!(ident, meta);
}

fn entry(name: &str, is_dir: bool, has_router: bool) -> FolderEntry {
    FolderEntry { name: name.to_string(), path: format!("/sites/{name}"), is_dir, has_router }
}

#[test]
fn discovery_decisions() {
    let mut st = store(vec![site("a", "blog", 8081)]);
    let known = strings(&["/sites/blog", "/sites/known"]);
    let meta = BackupMeta::default();
    assert!(!discover_entry(&mut st, &known, &entry(".hidden", true, true), &meta, "1".to_string(), 1));
    assert!(!discover_entry(&mut st, &known, &entry("file", false, true), &meta, "2".to_string(), 1));
    assert!(!discover_entry(&mut st, &known, &entry("norouter", true, false), &meta, "3".to_string(), 1));
    assert!(!discover_entry(&mut st, &known, &entry("known", true, true), &meta, "4".to_string(), 1));
    assert!(!discover_entry(&mut st, &known, &entry("Blog", true, true), &meta, "5".to_string(), 1));
    assert_eq!(st.sites.len(), 1);
    assert!(discover_entry(&mut st, &known, &entry("Shop", true, true), &meta, "6".to_string(), 1));
    assert_eq!(st.sites.len(), 2);
    let added = &st.sites[1];
    assert_eq!((added.slug.as_str(), added.name.as_str(), added.port), ("shop", "Shop", 8082));
    assert!(!discover_entry(&mut st, &known, &entry("shop", true, true), &meta, "7".to_string(), 1));
}

#[test]
fn relocation_helpers() {
    assert_eq!(move_step(false, true), MoveStep::Skip);
    assert_eq!(move_step(true, true), MoveStep::Conflict);
    assert_eq!(move_step(true, false), MoveStep::Copy);
    assert_eq!(moving_message("Blog", 0, 3), "Moving Blog (1/3)");
    assert!(is_zip_backup(Some("zip")));
    assert!(!is_zip_backup(Some("ZIP")));
    assert!(!is_zip_backup(None));
}

#[test]
fn created_site_carries_the_plan() {
    let st = store(vec![site("a", "my-blog", 8081)]);
    let plan = begin_create(&st, " Shop ").unwrap();
    let s = created_site(&plan, "id9".to_string(), "/sites/shop".to_string(), "8.3.9".to_string(), "0.5.0".to_string(), 42);
    assert_eq!(s.id, "id9");
    assert_eq!(s.name, "Shop");
    assert_eq!(s.slug, "shop");
    assert_eq!(s.path, "/sites/shop");
    assert_eq!(s.port, 8082);
    assert_eq!(s.php_version, "8.3.9");
    assert_eq!(s.frontpress_version, "0.5.0");
    assert_eq!(s.admin_user, "fpsadmin");
    assert_eq!(s.created_at, 42);
}

#[test]
fn record_copy_keeps_the_global_php() {
    let mut st = store(vec![site("a", "blog", 8081)]);
    assert_eq!(st.settings.global_php_version, "");
    let copy = copied_site(&st.sites[0].clone(), "b".to_string(), "Copy".to_string(), "copy".to_string(), "/sites/copy".to_string(), 8082, 7);
    record_copy(&mut st, copy.clone());
    assert_eq!(st.sites.len(), 2);
    assert_eq!(st.sites[1], copy);
    assert_eq!(st.settings.global_php_version, "");
    assert_eq!(st.settings, Settings::default());
}

#[test]
fn relocation_commits_every_copy() {
    let ids = strings(&["a", "b", "c"]);
    let outcomes = vec![
        MoveOutcome::Copied("/new/a".to_string()),
        MoveOutcome::Skipped,
        MoveOutcome::Copied("/new/c".to_string()),
    ];
    assert_eq!(
        settle_relocation(&ids, &outcomes),
        RelocationDecision::Commit(vec![
            ("a".to_string(), "/new/a".to_string()),
            ("c".to_string(), "/new/c".to_string()),
        ])
    );
    assert_eq!(settle_relocation(&ids, &[]), RelocationDecision::Commit(vec![]));
}

#[test]
fn relocation_rolls_back_on_conflict() {
    let ids = strings(&["a", "b", "c"]);
    let outcomes = vec![MoveOutcome::Copied("/new/a".to_string()), MoveOutcome::Skipped, MoveOutcome::Conflict];
    assert_eq!(
        settle_relocation(&ids, &outcomes),
        RelocationDecision::Rollback { remove: strings(&["/new/a"]), failed_at: 2 }
    );
}

#[test]
fn relocation_rolls_back_a_failed_copy() {
    let ids = strings(&["a", "b", "c"]);
    let outcomes = vec![
        MoveOutcome::Copied("/new/a".to_string()),
        MoveOutcome::Copied("/new/b".to_string()),
        MoveOutcome::CopyFailed("/new/c".to_string()),
    ];
    assert_eq!(
        settle_relocation(&ids, &outcomes),
        RelocationDecision::Rollback { remove: strings(&["/new/c", "/new/a", "/new/b"]), failed_at: 2 }
    );
}

fn folder(name: &str, is_dir: bool, has_router: bool) -> FolderEntry {
    FolderEntry { name: name.to_string(), path: format!("/sites/{name}"), is_dir, has_router }
}

#[test]
fn discovery_twice_adds_nothing_the_second_time() {
    let mut st = store(vec![site("a", "blog", 8081)]);
    let entries = vec![
        folder("blog", true, true),
        folder("Shop", true, true),
        folder(".hidden", true, true),
        folder("notes.txt", false, false),
        folder("empty", true, false),
        folder("shop", true, true),
    ];
    let metas = vec![BackupMeta::default(); entries.len()];
    let ids = strings(&["i1", "i2", "i3", "i4", "i5", "i6"]);
    let added = discover_all(&mut st, &entries, &metas, &ids, 5);
    assert_eq!(added, 1);
    assert_eq!(st.sites.len(), 2);
    let s = &st.sites[1];
    assert_eq!(s.id, "i2");
    assert_eq!(s.name, "Shop");
    assert_eq!(s.slug, "shop");
    assert_eq!(s.path, "/sites/Shop");
    assert_eq!(s.port, 8082);
    assert_eq!(s.frontpress_version, "?");
    assert_eq!(s.admin_user, "fpsadmin");
    assert_eq!(s.created_at, 5);
    let before = st.clone();
    let again = discover_all(&mut st, &entries, &metas, &strings(&["j1", "j2", "j3", "j4", "j5", "j6"]), 9);
    assert_eq!(again, 0);
    assert_eq!(st, before);
}

#[test]
fn discovery_fits_and_folder_checks() {
    let st = store(vec![site("a", "blog", 8081)]);
    let entries = vec![folder("Shop", true, true), folder("notes.txt", false, false)];
    let metas = vec![BackupMeta::default(); entries.len()];
    let ids = strings(&["i1", "i2"]);
    assert!(discovery_fits(&st, &entries, &metas, &ids, 1));
    assert!(discovery_fits(&st, &[], &[], &[], 1));
    assert!(st.has_room());
    let copy = st.duplicate();
    assert_eq!(copy, st);
    assert_eq!(chosen_folder("   ").unwrap_err(), CommandError::EmptyFolder);
    assert_eq!(chosen_folder("  /x/y ").unwrap(), "/x/y");
    assert_eq!(check_import_folder(" ", false).unwrap_err(), CommandError::EmptyFolder);
    assert_eq!(check_import_folder(" /x ", false).unwrap_err(), CommandError::NotASiteFolder);
    assert_eq!(check_import_folder(" /x ", true).unwrap(), "/x");
}
