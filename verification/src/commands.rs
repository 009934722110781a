//! The decisions behind the commands the UI calls: what a site looks like to
//! the UI, which PHP builds are offered, how a new, copied, imported or
//! discovered site is set up, and how the store changes.
//!
//! Everything that touches the disk, the network or running processes is
//! done by the caller, which hands the outcome to these functions.

use vstd::prelude::*;
use crate::text::{views, concat, decimal, decimal_string, str_eq};
use crate::version::{minor_of_spec, minor_of, at_least, version_at_least};
use crate::catalog::{latest_of_minor, latest_patch, lemma_latest_of_minor_is_newest};
use crate::store::{Site, Store};

verus! {

/// A site as the UI shows it.
#[derive(Debug, Clone, PartialEq, Eq)]
pub struct SiteView {
    pub id: String,
    pub name: String,
    pub slug: String,
    pub path: String,
    pub port: u16,
    pub php_version: String,
    pub frontpress_version: String,
    pub admin_user: String,
    pub running: bool,
    pub url: String,
}

/// Everything the main window shows.
#[derive(Debug, Clone, PartialEq, Eq)]
pub struct AppStatus {
    pub sites: Vec<SiteView>,
    pub global_php_version: String,
    pub min_php: String,
    pub arch: String,
    pub installed_php: Vec<String>,
    pub editor: String,
    pub sites_dir: String,
}

/// One installable PHP minor.
#[derive(Debug, Clone, PartialEq, Eq)]
pub struct PhpOption {
    pub minor: String,
    pub latest: String,
    pub installed: bool,
}

/// The PHP Manager's catalogue.
#[derive(Debug, Clone, PartialEq, Eq)]
pub struct PhpCatalog {
    pub arch: String,
    pub min_php: String,
    pub installed: Vec<String>,
    pub options: Vec<PhpOption>,
}

/// What the UI sends to create a site.
#[derive(Debug, Clone, PartialEq, Eq)]
pub struct CreateSiteArgs {
    pub name: String,
    /// "global" | "custom"
    pub php_mode: String,
    /// e.g. "8.3" — required when php_mode == "custom"
    pub php_minor: Option<String>,
}

/// The address a site is served at: `http://localhost:{port}/`.
pub open spec fn site_url(port: u16) -> Seq<char> {
    "http://localhost:"@ + decimal(port as nat) + "/"@
}

/// `site` as the UI shows it, given whether its server runs.
pub open spec fn is_view_of(v: SiteView, site: Site, running: bool) -> bool {
    &&& v.id == site.id
    &&& v.name == site.name
    &&& v.slug == site.slug
    &&& v.path == site.path
    &&& v.port == site.port
    &&& v.php_version == site.php_version
    &&& v.frontpress_version == site.frontpress_version
    &&& v.admin_user == site.admin_user
    &&& v.running == running
    &&& v.url@ == site_url(site.port)
}

/// The address a site is served at.
pub fn preview_url(port: u16) -> (r: String)
    ensures
        r@ == site_url(port),
{
    let s = concat("http://localhost:", decimal_string(port as u64).as_str());
    concat(s.as_str(), "/")
}

/// The one-shot login address for a site and token.
pub fn login_url(port: u16, token: &str) -> (r: String)
    ensures
        r@ == site_url(port) + "fp-local-login.php?token="@ + token@,
{
    let s = concat(preview_url(port).as_str(), "fp-local-login.php?token=");
    concat(s.as_str(), token)
}

/// The file a site's server writes its log to: `{id}.log`.
pub fn log_file_name(id: &str) -> (r: String)
    ensures
        r@ == id@ + ".log"@,
{
    concat(id, ".log")
}

/// A site as the UI shows it.
pub fn view_of(site: &Site, running: bool) -> (r: SiteView)
    ensures
        is_view_of(r, *site, running),
{
    SiteView {
        id: site.id.clone(),
        name: site.name.clone(),
        slug: site.slug.clone(),
        path: site.path.clone(),
        port: site.port,
        php_version: site.php_version.clone(),
        frontpress_version: site.frontpress_version.clone(),
        admin_user: site.admin_user.clone(),
        running,
        url: preview_url(site.port),
    }
}

/// The main window's status: every site (with whether its server runs, in
/// the same order as `running`), the PHP settings, the architecture, the
/// installed runtimes and the sites folder.
pub fn app_status(
    store: &Store,
    running: &[bool],
    arch: &str,
    installed_php: Vec<String>,
    sites_dir: String,
) -> (r: AppStatus)
    requires
        running@.len() == store.sites@.len(),
    ensures
        r.sites@.len() == store.sites@.len(),
        forall|i: int| 0 <= i < r.sites@.len() ==> is_view_of(#[trigger] r.sites@[i], store.sites@[i], running@[i]),
        r.global_php_version == store.settings.global_php_version,
        r.min_php == store.settings.min_php,
        r.arch@ == arch@,
        r.installed_php == installed_php,
        r.editor == store.settings.editor,
        r.sites_dir == sites_dir,
{
    let mut sites: Vec<SiteView> = Vec::new();
    let mut i: usize = 0;
    while i < store.sites.len()
        invariant
            i <= store.sites@.len(),
            running@.len() == store.sites@.len(),
            sites@.len() == i,
            forall|k: int| 0 <= k < i ==> is_view_of(#[trigger] sites@[k], store.sites@[k], running@[k]),
        decreases store.sites@.len() - i,
    {
        sites.push(view_of(&store.sites[i], running[i]));
        i += 1;
    }
    AppStatus {
        sites,
        global_php_version: store.settings.global_php_version.clone(),
        min_php: store.settings.min_php.clone(),
        arch: String::from_str(arch),
        installed_php,
        editor: store.settings.editor.clone(),
        sites_dir,
    }
}

// ── PHP catalogue ───────────────────────────────────────────────────────────

/// An option as (minor, latest patch, installed).
pub open spec fn option_spec(o: PhpOption) -> (Seq<char>, Seq<char>, bool) {
    (o.minor@, o.latest@, o.installed)
}

/// Some option in `opts` is for this minor.
pub open spec fn has_minor(opts: Seq<(Seq<char>, Seq<char>, bool)>, m: Seq<char>) -> bool {
    exists|i: int| 0 <= i < opts.len() && (#[trigger] opts[i]).0 == m
}

/// The options built from the first `n` remote versions: one per minor, in
/// the order the minors first appear, skipping minors older than `min`, each
/// with the newest patch of its minor and whether that patch is installed.
pub open spec fn catalog_options(
    remote: Seq<Seq<char>>,
    installed: Seq<Seq<char>>,
    min: Seq<char>,
    n: int,
) -> Seq<(Seq<char>, Seq<char>, bool)>
    decreases n,
{
    if n <= 0 {
        Seq::empty()
    } else {
        let prev = catalog_options(remote, installed, min, n - 1);
        let m = minor_of_spec(remote[n - 1]);
        if has_minor(prev, m) || !at_least(m, min) {
            prev
        } else {
            match latest_of_minor(remote, m) {
                Some(l) => prev.push((m, l, installed.contains(l))),
                None => prev,
            }
        }
    }
}

/// Whether `s` is one of `list`.
pub fn contains_str(list: &[String], s: &str) -> (r: bool)
    ensures
        r == views(list@).contains(s@),
{
    let mut i: usize = 0;
    while i < list.len()
        invariant
            i <= list@.len(),
            forall|k: int| 0 <= k < i ==> list@[k]@ != s@,
        decreases list@.len() - i,
    {
        if str_eq(list[i].as_str(), s) {
            assert(views(list@)[i as int] == s@);
            return true;
        }
        i += 1;
    }
    assert forall|k: int| 0 <= k < views(list@).len() implies views(list@)[k] != s@ by {
        assert(views(list@)[k] == list@[k]@);
    }
    false
}

fn options_have_minor(options: &Vec<PhpOption>, m: &str) -> (r: bool)
    ensures
        r == has_minor(options@.map_values(|o: PhpOption| option_spec(o)), m@),
{
    let ghost opts = options@.map_values(|o: PhpOption| option_spec(o));
    let mut i: usize = 0;
    while i < options.len()
        invariant
            i <= options@.len(),
            opts == options@.map_values(|o: PhpOption| option_spec(o)),
            forall|k: int| 0 <= k < i ==> opts[k].0 != m@,
        decreases options@.len() - i,
    {
        if str_eq(options[i].minor.as_str(), m) {
            assert(opts[i as int].0 == m@);
            return true;
        }
        i += 1;
    }
    false
}

/// The PHP Manager's catalogue: one option per supported minor (at least
/// `min_php`) found in `remote`, each with its newest patch.
pub fn php_catalog(min_php: String, remote: &[String], installed: Vec<String>, arch: &str) -> (r: PhpCatalog)
    ensures
        r.options@.map_values(|o: PhpOption| option_spec(o)) == catalog_options(
            views(remote@),
            views(installed@),
            min_php@,
            remote@.len() as int,
        ),
        r.arch@ == arch@,
        r.min_php == min_php,
        r.installed == installed,
{
    let mut options: Vec<PhpOption> = Vec::new();
    let mut i: usize = 0;
    while i < remote.len()
        invariant
            i <= remote@.len(),
            options@.map_values(|o: PhpOption| option_spec(o)) == catalog_options(
                views(remote@),
                views(installed@),
                min_php@,
                i as int,
            ),
        decreases remote@.len() - i,
    {
        let ghost before = options@;
        let minor = minor_of(remote[i].as_str());
        assert(views(remote@)[i as int] == remote@[i as int]@);
        if !options_have_minor(&options, minor.as_str()) && version_at_least(minor.as_str(), min_php.as_str()) {
            match latest_patch(remote, minor.as_str()) {
                Some(latest) => {
                    let inst = contains_str(installed.as_slice(), latest.as_str());
                    options.push(PhpOption { installed: inst, minor, latest });
                    assert(options@.map_values(|o: PhpOption| option_spec(o)) =~= before.map_values(
                        |o: PhpOption| option_spec(o),
                    ).push(option_spec(options@[i as int - i as int + before.len() as int])));
                },
                None => {},
            }
        }
        i += 1;
    }
    PhpCatalog { arch: String::from_str(arch), min_php, installed, options }
}

/// The catalogue offers each minor at most once, only minors at least `min`,
/// each with its newest patch and whether that patch is installed, and every
/// minor of the remote list that is at least `min` is offered.
pub proof fn lemma_catalog_options_laws(
    remote: Seq<Seq<char>>,
    installed: Seq<Seq<char>>,
    min: Seq<char>,
    n: int,
)
    requires
        0 <= n <= remote.len(),
    ensures
        ({
            let opts = catalog_options(remote, installed, min, n);
            &&& forall|i: int, j: int| 0 <= i < j < opts.len() ==> opts[i].0 != opts[j].0
            &&& forall|i: int| 0 <= i < opts.len() ==> {
                &&& at_least((#[trigger] opts[i]).0, min)
                &&& latest_of_minor(remote, opts[i].0) == Some(opts[i].1)
                &&& opts[i].2 == installed.contains(opts[i].1)
            }
            &&& forall|k: int| 0 <= k < n && at_least(minor_of_spec(#[trigger] remote[k]), min)
                ==> has_minor(opts, minor_of_spec(remote[k]))
        }),
    decreases n,
{
    if n > 0 {
        lemma_catalog_options_laws(remote, installed, min, n - 1);
        let prev = catalog_options(remote, installed, min, n - 1);
        let opts = catalog_options(remote, installed, min, n);
        let m = minor_of_spec(remote[n - 1]);
        lemma_latest_of_minor_is_newest(remote, m);
        assert(minor_of_spec(remote[n - 1]) == m);
        if !(has_minor(prev, m) || !at_least(m, min)) {
            let l = latest_of_minor(remote, m)->0;
            assert(opts == prev.push((m, l, installed.contains(l))));
            assert forall|i: int, j: int| 0 <= i < j < opts.len() implies opts[i].0 != opts[j].0 by {
                if j == prev.len() {
                    assert(opts[i] == prev[i]);
                    if prev[i].0 == m {
                        assert(has_minor(prev, m));
                    }
                } else {
                    assert(opts[i] == prev[i] && opts[j] == prev[j]);
                }
            }
            assert forall|i: int| 0 <= i < opts.len() implies {
                &&& at_least((#[trigger] opts[i]).0, min)
                &&& latest_of_minor(remote, opts[i].0) == Some(opts[i].1)
                &&& opts[i].2 == installed.contains(opts[i].1)
            } by {
                if i < prev.len() {
                    assert(opts[i] == prev[i]);
                }
            }
            assert forall|k: int| 0 <= k < n && at_least(minor_of_spec(#[trigger] remote[k]), min)
                implies has_minor(opts, minor_of_spec(remote[k])) by {
                if k < n - 1 {
                    let mk = minor_of_spec(remote[k]);
                    let i = choose|i: int| 0 <= i < prev.len() && (#[trigger] prev[i]).0 == mk;
                    assert(opts[i] == prev[i]);
                } else {
                    assert(opts[prev.len() as int].0 == m);
                }
            }
        }
    }
}

} // verus!
