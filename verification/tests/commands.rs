use frontpress_local::commands::{app_status, contains_str, log_file_name, login_url, php_catalog, preview_url, view_of};
use frontpress_local::errors::CommandError;
use frontpress_local::store::{Settings, Site, Store};

fn site(id: &str, slug: &str, port: u16) -> Site {
    Site {
        id: id.to_string(),
        name: format!("Site {slug}"),
        slug: slug.to_string(),
        path: format!("/sites/{slug}"),
        port,
        php_version: "8.3.9".to_string(),
        frontpress_version: "0.4.1".to_string(),
        admin_user: "fpsadmin".to_string(),
        created_at: 7,
    }
}

fn strings(v: &[&str]) -> Vec<String> {
    v.iter().map(|s| s.to_string()).collect()
}

#[test]
fn view_of_builds_url() {
    let v = view_of(&site("a", "blog", 8085), true);
    assert_eq!(v.url, "http://localhost:8085/");
    assert!(v.running);
    assert_eq!(v.slug, "blog");
    assert_eq!(preview_url(80), "http://localhost:80/");
    assert_eq!(login_url(8081, "tok"), "http://localhost:8081/fp-local-login.php?token=tok");
    assert_eq!(log_file_name("abc"), "abc.log");
}

#[test]
fn app_status_lists_sites() {
    let mut settings = Settings::default();
    settings.editor = "code".to_string();
    let st = Store { settings, sites: vec![site("a", "one", 8081), site("b", "two", 8082)] };
    let status = app_status(&st, &[false, true], "x86_64", strings(&["8.3.9"]), "/home/u/FrontPress Sites".to_string());
    assert_eq!(status.sites.len(), 2);
    assert!(!status.sites[0].running && status.sites[1].running);
    assert_eq!(status.sites[1].url, "http://localhost:8082/");
    assert_eq!(status.min_php, "8.1");
    assert_eq!(status.arch, "x86_64");
    assert_eq!(status.editor, "code");
    assert_eq!(status.sites_dir, "/home/u/FrontPress Sites");
}

#[test]
fn php_catalog_one_option_per_minor() {
    let remote = strings(&["8.4.1", "8.3.10", "8.3.9", "8.2.20", "8.0.30", "7.4.33", "8.1.31"]);
    let installed = strings(&["8.3.10", "8.2.1"]);
    let cat = php_catalog("8.1".to_string(), &remote, installed.clone(), "aarch64");
    let got: Vec<(String, String, bool)> =
        cat.options.iter().map(|o| (o.minor.clone(), o.latest.clone(), o.installed)).collect();
    assert_eq!(
        got,
        vec![
            ("8.4".to_string(), "8.4.1".to_string(), false),
            ("8.3".to_string(), "8.3.10".to_string(), true),
            ("8.2".to_string(), "8.2.20".to_string(), false),
            ("8.1".to_string(), "8.1.31".to_string(), false),
        ]
    );
    assert_eq!(cat.arch, "aarch64");
    assert_eq!(cat.min_php, "8.1");
    assert_eq!(cat.installed, installed);
}

#[test]
fn contains_str_matches_whole_strings() {
    let v = strings(&["8.3.1", "8.3.10"]);
    assert!(contains_str(&v, "8.3.10"));
    assert!(!contains_str(&v, "8.3"));
}

#[test]
fn error_messages() {
    assert_eq!(CommandError::EmptySiteName.message(), "Please enter a site name.");
    assert_eq!(CommandError::SlugTaken("blog".to_string()).message(), "A site named “blog” already exists.");
    assert_eq!(CommandError::UnknownSite.message(), "Unknown site");
    assert_eq!(
        CommandError::MinorBelowMinimum { minor: "8.0".to_string(), min_php: "8.1".to_string() }.message(),
        "PHP 8.0 is below FrontPress's minimum (8.1)."
    );
    assert_eq!(CommandError::NoBuildForMinor("8.9".to_string()).message(), "No PHP 8.9 build available");
    assert_eq!(
        CommandError::VersionBelowMinimum { version: "8.0.1".to_string(), min_php: "8.1".to_string() }.message(),
        "Selected PHP 8.0.1 is below the minimum 8.1."
    );
    assert_eq!(CommandError::NoEditorChosen.message(), "No editor chosen yet — pick one in Settings.");
    assert_eq!(
        CommandError::PhpNotInstalled("8.3.9".to_string()).message(),
        "PHP 8.3.9 isn't installed. Re-install it from PHP settings."
    );
    assert_eq!(
        CommandError::ExistsInNewFolder("blog".to_string()).message(),
        "“blog” already exists in the new folder — move it aside first."
    );
    assert_eq!(CommandError::DirectoryExists("/x/y".to_string()).message(), "Directory already exists: /x/y");
}

#[test]
fn remaining_error_messages() {
    assert_eq!(CommandError::EmptyCopyName.message(), "Please enter a name for the copy.");
    assert_eq!(CommandError::NoPhpChosen.message(), "Please choose a PHP version.");
    assert_eq!(CommandError::NoDefaultBuild.message(), "No default PHP build available");
    assert_eq!(CommandError::EmptyFolder.message(), "Please choose a folder.");
    assert_eq!(CommandError::NotASiteFolder.message(), "That folder isn't a FrontPress site (no router.php).");
    assert_eq!(CommandError::FolderAlreadyAdded.message(), "That folder is already added.");
    assert_eq!(CommandError::NotAZipBackup.message(), "Please drop a .zip backup file.");
    assert_eq!(
        CommandError::NoContentFolder.message(),
        "Open this site once (Preview or Login) so its content folder exists, then back it up."
    );
    assert_eq!(CommandError::BadSitePath.message(), "Bad site path");
}
