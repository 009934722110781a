use frontpress_local::php::{
    download_url, listing_catalogue, parse_listing, php_bin_name, php_ini_contents, windows_download_url,
    windows_release_file, windows_releases, windows_versions, PhpError, Platform, WindowsBranch, WindowsBuild,
};

#[test]
fn parse_listing_sorts_and_dedups() {
    let html = "php-8.1.2-cli-linux-x86_64.tar.gz php-8.3.4-cli-linux-x86_64.tar.gz \
                php-8.3.4-cli-linux-x86_64.tar.gz php-8.2.0-cli-linux-x86_64.tar.gz";
    assert_eq!(parse_listing(html, "x86_64"), vec!["8.3.4", "8.2.0", "8.1.2"]);
}

#[test]
fn parse_listing_skips_non_versions() {
    let html = "php-latest-cli-linux-x86_64.tar.gz php-8-cli-linux-x86_64.tar.gz \
                php--cli-linux-x86_64.tar.gz php-8.4.1-cli-linux-x86_64.tar.gz php-8.4.2-micro.tar.gz";
    assert_eq!(parse_listing(html, "x86_64"), vec!["8.4.1"]);
    assert!(parse_listing("no builds here", "x86_64").is_empty());
    assert!(parse_listing("", "aarch64").is_empty());
}

#[test]
fn parse_listing_cuts_each_piece_at_the_next_marker() {
    // The suffix after the second marker belongs to that piece only.
    let html = "php-8.1.0 php-8.2.0-cli-linux-aarch64.tar.gz";
    assert_eq!(parse_listing(html, "aarch64"), vec!["8.2.0"]);
}

#[test]
fn listing_catalogue_refuses_empty_listing() {
    assert_eq!(listing_catalogue("<html></html>", "x86_64"), Err(PhpError::NoListingBuilds));
    assert_eq!(
        PhpError::NoListingBuilds.message(),
        "no PHP builds found in static-php listing"
    );
    assert_eq!(
        listing_catalogue("php-8.3.1-cli-linux-x86_64.tar.gz", "x86_64"),
        Ok(vec!["8.3.1".to_string()])
    );
}

#[test]
fn urls_and_names() {
    assert_eq!(
        download_url("8.3.9", "x86_64"),
        "https://dl.static-php.dev/static-php-cli/common/php-8.3.9-cli-linux-x86_64.tar.gz"
    );
    assert_eq!(
        windows_download_url("php-8.3.9-nts-Win32-vs16-x64.zip"),
        "https://windows.php.net/downloads/releases/php-8.3.9-nts-Win32-vs16-x64.zip"
    );
    assert_eq!(php_bin_name(Platform::Windows), "php.exe");
    assert_eq!(php_bin_name(Platform::Linux), "php");
    assert_eq!(php_bin_name(Platform::Other), "php");
}

#[test]
fn php_ini_lists_extensions() {
    let ini = php_ini_contents("C:\\php\\8.3.9\\ext");
    let expected = "extension_dir=\"C:/php/8.3.9/ext\"\n\
        extension=mbstring\nextension=openssl\nextension=curl\nextension=gd\nextension=fileinfo\n\
        extension=sqlite3\nextension=pdo_sqlite\nextension=exif\nextension=zip\nextension=intl\n";
    assert_eq!(ini, expected);
}

fn build(key: &str, zip: Option<&str>) -> WindowsBuild {
    WindowsBuild { key: key.to_string(), zip_path: zip.map(|s| s.to_string()) }
}

#[test]
fn windows_releases_pick_nts_x64() {
    let branches = vec![
        WindowsBranch {
            version: Some("8.3.9".to_string()),
            builds: vec![
                build("ts-vs16-x64", Some("ts.zip")),
                build("NTS-VS16-X64", None),
                build("NTS-VS16-X64-debug", Some("nts83.zip")),
            ],
        },
        WindowsBranch { version: None, builds: vec![build("nts-vs16-x64", Some("x.zip"))] },
        WindowsBranch { version: Some("8.2.1".to_string()), builds: vec![build("nts-vs16-x86", Some("y.zip"))] },
        WindowsBranch { version: Some("8.4.0".to_string()), builds: vec![build("nts-vs17-x64", Some("nts84.zip"))] },
    ];
    let rel = windows_releases(&branches);
    assert_eq!(
        rel,
        vec![
            ("8.3.9".to_string(), "nts83.zip".to_string()),
            ("8.4.0".to_string(), "nts84.zip".to_string())
        ]
    );
    assert_eq!(windows_versions(&rel), Ok(vec!["8.4.0".to_string(), "8.3.9".to_string()]));
    assert_eq!(windows_versions(&vec![]), Err(PhpError::NoWindowsBuilds));
    assert_eq!(windows_release_file(&rel, "8.4.0"), Ok("nts84.zip".to_string()));
    let missing = windows_release_file(&rel, "8.1.0");
    assert_eq!(missing, Err(PhpError::NotAvailableForWindows("8.1.0".to_string())));
    assert_eq!(missing.unwrap_err().message(), "PHP 8.1.0 not available for Windows");
}

#[test]
fn download_url_parses_back_to_its_version() {
    for (v, arch) in [("8.3.9", "x86_64"), ("8.1.34", "aarch64"), ("10.0", "riscv64")] {
        let url = download_url(v, arch);
        assert_eq!(parse_listing(&url, arch), vec![v.to_string()]);
    }
    let url = download_url("8.3.9", "x86_64");
    assert!(parse_listing(&url, "aarch64").is_empty());
}
