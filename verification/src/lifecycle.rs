//! Setting sites up: creating, copying, importing and discovering them, and
//! the changes these make to the store.

use vstd::prelude::*;
use crate::text::{trim, trim_str, str_eq, concat, decimal, decimal_string, lemma_decimal_injective, views};
use crate::slug::{slugify_spec, slugify};
use crate::version::{at_least, version_at_least, minor_of_spec, version_order};
use crate::catalog::{latest_of_minor, latest_patch, lemma_latest_of_minor_is_newest};
use crate::store::{
    Site, Store, index_of_id, slug_taken, port_taken, path_taken, has_free_port, is_first_free_port,
    sites_distinct, DEFAULT_ADMIN_USER, FIRST_SITE_PORT, PREFERRED_PHP_MINOR,
};
use crate::errors::CommandError;
use crate::counting::lemma_pigeonhole;

verus! {

/// The identity a site folder carries, so another machine can register it.
#[derive(Debug, Clone, PartialEq, Eq)]
pub struct BackupMeta {
    pub name: String,
    pub php_version: String,
    pub frontpress_version: String,
    pub admin_user: String,
}

impl Default for BackupMeta {
    fn default() -> (r: BackupMeta)
        ensures
            r.name@.len() == 0,
            r.php_version@.len() == 0,
            r.frontpress_version@.len() == 0,
            r.admin_user@.len() == 0,
    {
        BackupMeta {
            name: String::new(),
            php_version: String::new(),
            frontpress_version: String::new(),
            admin_user: String::new(),
        }
    }
}

/// The identity written into a site's folder.
pub fn site_identity(site: &Site) -> (r: BackupMeta)
    ensures
        r.name == site.name,
        r.php_version == site.php_version,
        r.frontpress_version == site.frontpress_version,
        r.admin_user == site.admin_user,
{
    BackupMeta {
        name: site.name.clone(),
        php_version: site.php_version.clone(),
        frontpress_version: site.frontpress_version.clone(),
        admin_user: site.admin_user.clone(),
    }
}

// ── Creating ────────────────────────────────────────────────────────────────

/// What a new site is set up with, decided before anything is downloaded.
#[derive(Debug, Clone, PartialEq, Eq)]
pub struct CreatePlan {
    pub name: String,
    pub slug: String,
    pub port: u16,
    pub min_php: String,
    pub global_php: String,
    pub sites_dir: String,
}

/// Checks the name of a new site and reserves its slug and port: the name is
/// trimmed and must not be blank, its slug must be free, and the site gets
/// the first free port.
pub fn begin_create(store: &Store, name: &str) -> (r: Result<CreatePlan, CommandError>)
    requires
        trim(name@).len() == 0 || slug_taken(store.sites@, slugify_spec(trim(name@))) || has_free_port(
            store.sites@,
        ),
    ensures
        trim(name@).len() == 0 ==> r matches Err(CommandError::EmptySiteName),
        trim(name@).len() > 0 ==> if slug_taken(store.sites@, slugify_spec(trim(name@))) {
            (r matches Err(CommandError::SlugTaken(s)) && s@ == slugify_spec(trim(name@)))
        } else {
            (r matches Ok(p) && {
                &&& p.name@ == trim(name@)
                &&& p.slug@ == slugify_spec(trim(name@))
                &&& is_first_free_port(store.sites@, p.port as int)
                &&& p.min_php == store.settings.min_php
                &&& p.global_php == store.settings.global_php_version
                &&& p.sites_dir == store.settings.sites_dir
            })
        },
{
    let name = trim_str(name);
    if name.as_str().is_empty() {
        return Err(CommandError::EmptySiteName);
    }
    let slug = slugify(name.as_str());
    if !store.slug_available(slug.as_str()) {
        return Err(CommandError::SlugTaken(slug));
    }
    Ok(CreatePlan {
        name,
        slug,
        port: store.next_free_port(),
        min_php: store.settings.min_php.clone(),
        global_php: store.settings.global_php_version.clone(),
        sites_dir: store.settings.sites_dir.clone(),
    })
}

/// Which PHP a new site asks for, before the catalogue is consulted.
#[derive(Debug, Clone, PartialEq, Eq)]
pub enum PhpRequest {
    /// This exact version (the global default).
    Exact(String),
    /// The newest patch of this minor.
    NewestOf(String),
    /// The newest patch of the preferred default minor.
    PreferredDefault,
}

/// Decides which PHP a new site asks for. A per-site ("custom") choice needs
/// a minor that is at least the minimum; otherwise the global default is
/// used, or the preferred minor when no default is set yet.
pub fn php_request(mode: &str, minor: &Option<String>, min_php: &str, global_php: &str) -> (r: Result<PhpRequest, CommandError>)
    ensures
        mode@ == "custom"@ ==> match minor {
            None => r matches Err(CommandError::NoPhpChosen),
            Some(m) => if at_least(m@, min_php@) {
                r matches Ok(PhpRequest::NewestOf(x)) && x@ == m@
            } else {
                r matches Err(CommandError::MinorBelowMinimum { minor: x, min_php: y }) && x@ == m@ && y@
                    == min_php@
            },
        },
        mode@ != "custom"@ ==> if global_php@.len() > 0 {
            r matches Ok(PhpRequest::Exact(v)) && v@ == global_php@
        } else {
            r matches Ok(PhpRequest::PreferredDefault)
        },
{
    if str_eq(mode, "custom") {
        match minor {
            None => Err(CommandError::NoPhpChosen),
            Some(m) => {
                if !version_at_least(m.as_str(), min_php) {
                    Err(CommandError::MinorBelowMinimum {
                        minor: m.clone(),
                        min_php: String::from_str(min_php),
                    })
                } else {
                    Ok(PhpRequest::NewestOf(m.clone()))
                }
            },
        }
    } else if !global_php.is_empty() {
        Ok(PhpRequest::Exact(String::from_str(global_php)))
    } else {
        Ok(PhpRequest::PreferredDefault)
    }
}

/// The version a request resolves to against the remote catalogue, before
/// the minimum is checked.
pub open spec fn requested_version(req: PhpRequest, remote: Seq<Seq<char>>) -> Option<Seq<char>> {
    match req {
        PhpRequest::Exact(v) => Some(v@),
        PhpRequest::NewestOf(m) => latest_of_minor(remote, m@),
        PhpRequest::PreferredDefault => latest_of_minor(remote, PREFERRED_PHP_MINOR@),
    }
}

/// What a request asks for: an exact version is taken as it is, whatever
/// the catalogue holds; a minor (chosen, or the preferred default) gives the
/// newest version of that minor the catalogue holds, and nothing when it
/// holds none.
pub proof fn lemma_requested_version(req: PhpRequest, remote: Seq<Seq<char>>)
    ensures
        req matches PhpRequest::Exact(v) ==> requested_version(req, remote) == Some(v@),
        req matches PhpRequest::NewestOf(m) ==> ({
            &&& requested_version(req, remote) is Some <==> exists|i: int|
                0 <= i < remote.len() && minor_of_spec(#[trigger] remote[i]) == m@
            &&& requested_version(req, remote) matches Some(x) ==> {
                &&& remote.contains(x)
                &&& minor_of_spec(x) == m@
                &&& forall|i: int|
                    0 <= i < remote.len() && minor_of_spec(#[trigger] remote[i]) == m@ ==> version_order(
                        remote[i],
                        x,
                    ) <= 0
            }
        }),
        req is PreferredDefault ==> ({
            &&& requested_version(req, remote) is Some <==> exists|i: int|
                0 <= i < remote.len() && minor_of_spec(#[trigger] remote[i]) == PREFERRED_PHP_MINOR@
            &&& requested_version(req, remote) matches Some(x) ==> {
                &&& remote.contains(x)
                &&& minor_of_spec(x) == PREFERRED_PHP_MINOR@
                &&& forall|i: int|
                    0 <= i < remote.len() && minor_of_spec(#[trigger] remote[i]) == PREFERRED_PHP_MINOR@ ==> version_order(
                        remote[i],
                        x,
                    ) <= 0
            }
        }),
{
    match req {
        PhpRequest::NewestOf(m) => lemma_latest_of_minor_is_newest(remote, m@),
        PhpRequest::PreferredDefault => lemma_latest_of_minor_is_newest(remote, PREFERRED_PHP_MINOR@),
        _ => {},
    }
}

/// Resolves a request to a full version and checks it against the minimum.
/// An exact request (the global default) resolves to that very version,
/// whatever the catalogue holds; a minor resolves to the newest version of
/// it in the catalogue.
pub fn resolve_php(req: &PhpRequest, remote: &[String], min_php: &str) -> (r: Result<String, CommandError>)
    ensures
        req matches PhpRequest::Exact(v) ==> if at_least(v@, min_php@) {
            r matches Ok(x) && x@ == v@
        } else {
            r matches Err(CommandError::VersionBelowMinimum { version: x, min_php: y }) && x@ == v@ && y@
                == min_php@
        },
        r matches Ok(x) ==> at_least(x@, min_php@),
        !(req is Exact) ==> (r matches Ok(x) ==> views(remote@).contains(x@)),
        req matches PhpRequest::NewestOf(m) ==> (r matches Ok(x) ==> (minor_of_spec(x@) == m@ && forall|i: int|
            0 <= i < remote@.len() && minor_of_spec(#[trigger] views(remote@)[i]) == m@ ==> version_order(
                views(remote@)[i],
                x@,
            ) <= 0)),
        match requested_version(*req, views(remote@)) {
            None => match req {
                PhpRequest::NewestOf(m) => r matches Err(CommandError::NoBuildForMinor(x)) && x@ == m@,
                _ => r matches Err(CommandError::NoDefaultBuild),
            },
            Some(v) => if at_least(v, min_php@) {
                r matches Ok(x) && x@ == v
            } else {
                r matches Err(CommandError::VersionBelowMinimum { version: x, min_php: y }) && x@ == v
                    && y@ == min_php@
            },
        },
{
    proof {
        lemma_requested_version(*req, views(remote@));
        lemma_latest_of_minor_is_newest(views(remote@), PREFERRED_PHP_MINOR@);
        if let PhpRequest::NewestOf(m) = req {
            lemma_latest_of_minor_is_newest(views(remote@), m@);
        }
    }
    let version = match req {
        PhpRequest::Exact(v) => v.clone(),
        PhpRequest::NewestOf(m) => match latest_patch(remote, m.as_str()) {
            Some(v) => v,
            None => {
                return Err(CommandError::NoBuildForMinor(m.clone()));
            },
        },
        PhpRequest::PreferredDefault => match latest_patch(remote, PREFERRED_PHP_MINOR) {
            Some(v) => v,
            None => {
                return Err(CommandError::NoDefaultBuild);
            },
        },
    };
    if !version_at_least(version.as_str(), min_php) {
        return Err(CommandError::VersionBelowMinimum {
            version,
            min_php: String::from_str(min_php),
        });
    }
    Ok(version)
}

/// Adds a newly created site; when no global PHP is set yet, the site's
/// PHP becomes the global default.
pub fn record_new_site(store: &mut Store, site: Site)
    ensures
        final(store).sites@ == old(store).sites@.push(site),
        old(store).settings.global_php_version@.len() == 0 ==> final(store).settings.global_php_version == site.php_version,
        old(store).settings.global_php_version@.len() > 0 ==> final(store).settings.global_php_version == old(store).settings.global_php_version,
        final(store).settings.min_php == old(store).settings.min_php,
        final(store).settings.editor == old(store).settings.editor,
        final(store).settings.sites_dir == old(store).settings.sites_dir,
{
    if store.settings.global_php_version.as_str().is_empty() {
        store.settings.global_php_version = site.php_version.clone();
    }
    store.sites.push(site);
}

/// The record of a newly created site: the planned name, slug and port, the
/// folder it was installed into, the resolved PHP, the installed FrontPress
/// version, and the shipped default admin user.
pub fn created_site(
    plan: &CreatePlan,
    id: String,
    path: String,
    php_version: String,
    frontpress_version: String,
    created_at: u64,
) -> (r: Site)
    ensures
        r.id == id,
        r.name == plan.name,
        r.slug == plan.slug,
        r.path == path,
        r.port == plan.port,
        r.php_version == php_version,
        r.frontpress_version == frontpress_version,
        r.admin_user@ == DEFAULT_ADMIN_USER@,
        r.created_at == created_at,
{
    Site {
        id,
        name: plan.name.clone(),
        slug: plan.slug.clone(),
        path,
        port: plan.port,
        php_version,
        frontpress_version,
        admin_user: String::from_str(DEFAULT_ADMIN_USER),
        created_at,
    }
}

/// Adding a site whose slug and port are free keeps slugs and ports
/// distinct.
pub proof fn lemma_add_keeps_distinct(sites: Seq<Site>, site: Site)
    requires
        sites_distinct(sites),
        !slug_taken(sites, site.slug@),
        !port_taken(sites, site.port as int),
    ensures
        sites_distinct(sites.push(site)),
{
    let s2 = sites.push(site);
    assert forall|i: int, j: int| 0 <= i < j < s2.len() implies s2[i].slug@ != s2[j].slug@ by {
        if j == sites.len() {
            assert(s2[i] == sites[i]);
        } else {
            assert(s2[i] == sites[i] && s2[j] == sites[j]);
        }
    }
    assert forall|i: int, j: int| 0 <= i < j < s2.len() implies s2[i].port != s2[j].port by {
        if j == sites.len() {
            assert(s2[i] == sites[i]);
        } else {
            assert(s2[i] == sites[i] && s2[j] == sites[j]);
        }
    }
}

/// A site built on a plan that `begin_create` accepted keeps the sites of
/// the store distinct once recorded.
pub proof fn lemma_created_site_keeps_distinct(store: Store, name: Seq<char>, plan: CreatePlan, site: Site)
    requires
        sites_distinct(store.sites@),
        trim(name).len() > 0,
        plan.slug@ == slugify_spec(trim(name)),
        !slug_taken(store.sites@, plan.slug@),
        is_first_free_port(store.sites@, plan.port as int),
        site.slug == plan.slug,
        site.port == plan.port,
    ensures
        sites_distinct(store.sites@.push(site)),
{
    lemma_add_keeps_distinct(store.sites@, site);
}

// ── Duplicating ─────────────────────────────────────────────────────────────

/// What a copy of a site is set up with.
#[derive(Debug, Clone, PartialEq, Eq)]
pub struct DuplicatePlan {
    pub name: String,
    pub slug: String,
    pub source: Site,
    pub port: u16,
    pub sites_dir: String,
}

/// Checks a request to copy site `id` under a new name: the name is trimmed
/// and must not be blank, the site must exist, the new slug must be free,
/// and the copy gets the first free port.
pub fn begin_duplicate(store: &Store, id: &str, name: &str) -> (r: Result<DuplicatePlan, CommandError>)
    requires
        trim(name@).len() == 0 || index_of_id(store.sites@, id@) is None || slug_taken(
            store.sites@,
            slugify_spec(trim(name@)),
        ) || has_free_port(store.sites@),
    ensures
        trim(name@).len() == 0 ==> r matches Err(CommandError::EmptyCopyName),
        trim(name@).len() > 0 ==> match index_of_id(store.sites@, id@) {
            None => r matches Err(CommandError::UnknownSite),
            Some(i) => if slug_taken(store.sites@, slugify_spec(trim(name@))) {
                (r matches Err(CommandError::SlugTaken(s)) && s@ == slugify_spec(trim(name@)))
            } else {
                (r matches Ok(p) && {
                    &&& p.name@ == trim(name@)
                    &&& p.slug@ == slugify_spec(trim(name@))
                    &&& p.source == store.sites@[i]
                    &&& is_first_free_port(store.sites@, p.port as int)
                    &&& p.sites_dir == store.settings.sites_dir
                })
            },
        },
{
    let name = trim_str(name);
    if name.as_str().is_empty() {
        return Err(CommandError::EmptyCopyName);
    }
    let slug = slugify(name.as_str());
    let source = match store.site(id) {
        Some(s) => s.duplicate(),
        None => {
            return Err(CommandError::UnknownSite);
        },
    };
    if !store.slug_available(slug.as_str()) {
        return Err(CommandError::SlugTaken(slug));
    }
    Ok(DuplicatePlan {
        name,
        slug,
        source,
        port: store.next_free_port(),
        sites_dir: store.settings.sites_dir.clone(),
    })
}

/// The record of a copy: the source's PHP and FrontPress versions, the
/// shipped default admin user, and the new identity, folder and port.
pub fn copied_site(
    source: &Site,
    id: String,
    name: String,
    slug: String,
    path: String,
    port: u16,
    created_at: u64,
) -> (r: Site)
    ensures
        r.id == id,
        r.name == name,
        r.slug == slug,
        r.path == path,
        r.port == port,
        r.php_version == source.php_version,
        r.frontpress_version == source.frontpress_version,
        r.admin_user@ == DEFAULT_ADMIN_USER@,
        r.created_at == created_at,
{
    Site {
        id,
        name,
        slug,
        path,
        port,
        php_version: source.php_version.clone(),
        frontpress_version: source.frontpress_version.clone(),
        admin_user: String::from_str(DEFAULT_ADMIN_USER),
        created_at,
    }
}

/// Adds a copy of a site. Unlike a newly created site, a copy never changes
/// the settings: it runs the PHP of its source, which was chosen before.
pub fn record_copy(store: &mut Store, site: Site)
    ensures
        final(store).sites@ == old(store).sites@.push(site),
        final(store).settings == old(store).settings,
{
    store.sites.push(site);
}

// ── Importing and discovering ───────────────────────────────────────────────

/// `preferred` unless it is empty, else `fallback`.
pub open spec fn or_else(preferred: Seq<char>, fallback: Seq<char>) -> Seq<char> {
    if preferred.len() == 0 { fallback } else { preferred }
}

fn pick(preferred: &String, fallback: &str) -> (r: String)
    ensures
        r@ == or_else(preferred@, fallback@),
{
    if preferred.as_str().is_empty() {
        String::from_str(fallback)
    } else {
        preferred.clone()
    }
}

/// The record of a site found in a folder: the identity stored in the folder
/// where it has one, else the folder name, the global default PHP, an
/// unknown FrontPress version ("?") and the shipped default admin user; the
/// site gets the first free port.
pub fn folder_site(
    store: &Store,
    folder_name: &str,
    path: &str,
    slug: String,
    meta: &BackupMeta,
    id: String,
    created_at: u64,
) -> (r: Site)
    requires
        has_free_port(store.sites@),
    ensures
        r.id == id,
        r.name@ == or_else(meta.name@, folder_name@),
        r.slug == slug,
        r.path@ == path@,
        is_first_free_port(store.sites@, r.port as int),
        r.php_version@ == or_else(meta.php_version@, store.settings.global_php_version@),
        r.frontpress_version@ == or_else(meta.frontpress_version@, "?"@),
        r.admin_user@ == or_else(meta.admin_user@, DEFAULT_ADMIN_USER@),
        r.created_at == created_at,
{
    Site {
        id,
        name: pick(&meta.name, folder_name),
        slug,
        path: String::from_str(path),
        port: store.next_free_port(),
        php_version: pick(&meta.php_version, store.settings.global_php_version.as_str()),
        frontpress_version: pick(&meta.frontpress_version, "?"),
        admin_user: pick(&meta.admin_user, DEFAULT_ADMIN_USER),
        created_at,
    }
}

/// The `k`-th slug tried for `base`: `base` itself, then `base-2`, `base-3`…
pub open spec fn slug_candidate(base: Seq<char>, k: nat) -> Seq<char> {
    if k <= 1 {
        base
    } else {
        base + seq!['-'] + decimal(k)
    }
}

proof fn lemma_slug_candidates_distinct(base: Seq<char>, j: nat, k: nat)
    requires
        1 <= j < k,
    ensures
        slug_candidate(base, j) != slug_candidate(base, k),
{
    if j >= 2 {
        lemma_decimal_injective(j, k);
        let a = slug_candidate(base, j);
        let b = slug_candidate(base, k);
        if a == b {
            assert(a.skip(base.len() as int + 1) =~= decimal(j));
            assert(b.skip(base.len() as int + 1) =~= decimal(k));
        }
    } else {
        assert(slug_candidate(base, k).len() > base.len());
    }
}

/// The first of `base`, `base-2`, `base-3`… that no site uses.
pub fn unique_slug(store: &Store, base: &str) -> (r: String)
    requires
        store.sites@.len() < usize::MAX - 2,
    ensures
        exists|k: nat| {
            &&& k >= 1
            &&& r@ == slug_candidate(base@, k)
            &&& forall|j: nat| 1 <= j < k ==> slug_taken(store.sites@, #[trigger] slug_candidate(base@, j))
        },
        !slug_taken(store.sites@, r@),
{
    let ghost sites = store.sites@;
    let mut slug = String::from_str(base);
    let mut n: usize = 2;
    while !store.slug_available(slug.as_str())
        invariant
            sites == store.sites@,
            store.sites@.len() < usize::MAX - 2,
            2 <= n,
            slug@ == slug_candidate(base@, (n - 1) as nat),
            forall|j: nat| 1 <= j < n - 1 ==> slug_taken(sites, #[trigger] slug_candidate(base@, j)),
            n <= sites.len() + 2,
        decreases sites.len() + 2 - n,
    {
        proof {
            let count = (n - 1) as nat;
            assert(forall|j: nat| 1 <= j <= count ==> slug_taken(sites, #[trigger] slug_candidate(base@, j)));
            if n - 1 >= sites.len() + 1 {
                let cands = Seq::new((sites.len() + 1) as nat, |i: int| slug_candidate(base@, (i + 1) as nat));
                let taken = sites.map_values(|s: Site| s.slug@);
                assert(cands.no_duplicates()) by {
                    assert forall|a: int, b: int| 0 <= a < cands.len() && 0 <= b < cands.len() && a != b
                        implies cands[a] != cands[b] by {
                        if a < b {
                            lemma_slug_candidates_distinct(base@, (a + 1) as nat, (b + 1) as nat);
                        } else {
                            lemma_slug_candidates_distinct(base@, (b + 1) as nat, (a + 1) as nat);
                        }
                    }
                }
                lemma_pigeonhole(cands, taken);
                let i = choose|i: int| 0 <= i < cands.len() && !taken.contains(#[trigger] cands[i]);
                assert(slug_taken(sites, slug_candidate(base@, (i + 1) as nat)));
                let w = choose|w: int| 0 <= w < sites.len() && sites[w].slug@ == slug_candidate(base@, (i + 1) as nat);
                assert(taken[w] == cands[i]);
                assert(false);
            }
        }
        let with_dash = concat(base, "-");
        proof {
            reveal_strlit("-");
        }
        slug = concat(with_dash.as_str(), decimal_string(n as u64).as_str());
        assert(slug@ =~= slug_candidate(base@, n as nat));
        n += 1;
    }
    slug
}

/// The folder a user chose, trimmed; refused when blank.
pub fn chosen_folder(folder: &str) -> (r: Result<String, CommandError>)
    ensures
        trim(folder@).len() == 0 ==> r matches Err(CommandError::EmptyFolder),
        trim(folder@).len() > 0 ==> (r matches Ok(f) && f@ == trim(folder@)),
{
    let f = trim_str(folder);
    if f.as_str().is_empty() {
        Err(CommandError::EmptyFolder)
    } else {
        Ok(f)
    }
}

/// Checks a folder chosen for import, in the order the import does: a blank
/// choice is refused first, then a folder without a `router.php`
/// (`has_router`, looked up in the trimmed folder); otherwise the trimmed
/// folder is returned.
pub fn check_import_folder(folder: &str, has_router: bool) -> (r: Result<String, CommandError>)
    ensures
        trim(folder@).len() == 0 ==> r matches Err(CommandError::EmptyFolder),
        trim(folder@).len() > 0 && !has_router ==> r matches Err(CommandError::NotASiteFolder),
        trim(folder@).len() > 0 && has_router ==> (r matches Ok(f) && f@ == trim(folder@)),
{
    let f = chosen_folder(folder)?;
    if !has_router {
        return Err(CommandError::NotASiteFolder);
    }
    Ok(f)
}

/// Registers a site folder in place. Refused when a site already lives
/// there; otherwise the site gets the first free slug derived from the
/// folder name and the identity stored in the folder, if any.
pub fn plan_import(
    store: &Store,
    path: &str,
    folder_name: &str,
    meta: &BackupMeta,
    id: String,
    created_at: u64,
) -> (r: Result<Site, CommandError>)
    requires
        store.sites@.len() < usize::MAX - 2,
        path_taken(store.sites@, path@) || has_free_port(store.sites@),
    ensures
        path_taken(store.sites@, path@) ==> r matches Err(CommandError::FolderAlreadyAdded),
        !path_taken(store.sites@, path@) ==> (r matches Ok(s) && {
            &&& s.id == id
            &&& s.name@ == or_else(meta.name@, folder_name@)
            &&& !slug_taken(store.sites@, s.slug@)
            &&& exists|k: nat| k >= 1 && s.slug@ == slug_candidate(slugify_spec(folder_name@), k) && forall|
                j: nat,
            | 1 <= j < k ==> slug_taken(store.sites@, #[trigger] slug_candidate(slugify_spec(folder_name@), j))
            &&& s.path@ == path@
            &&& is_first_free_port(store.sites@, s.port as int)
            &&& s.php_version@ == or_else(meta.php_version@, store.settings.global_php_version@)
            &&& s.frontpress_version@ == or_else(meta.frontpress_version@, "?"@)
            &&& s.admin_user@ == or_else(meta.admin_user@, DEFAULT_ADMIN_USER@)
            &&& s.created_at == created_at
        }),
{
    if store.has_path(path) {
        return Err(CommandError::FolderAlreadyAdded);
    }
    let base = slugify(folder_name);
    let slug = unique_slug(store, base.as_str());
    Ok(folder_site(store, folder_name, path, slug, meta, id, created_at))
}

/// One entry of the sites folder, as seen on disk.
#[derive(Debug, Clone, PartialEq, Eq)]
pub struct FolderEntry {
    /// The entry's file name.
    pub name: String,
    /// The entry's full path.
    pub path: String,
    pub is_dir: bool,
    /// Whether the entry holds a `router.php`.
    pub has_router: bool,
}

/// A folder entry that discovery registers: a directory not hidden by a
/// leading '.', holding a router.php, at a path not among `known`, whose
/// name's slug no site uses yet.
pub open spec fn discoverable(sites: Seq<Site>, known: Seq<Seq<char>>, e: FolderEntry) -> bool {
    &&& e.is_dir
    &&& !(e.name@.len() > 0 && e.name@[0] == '.')
    &&& e.has_router
    &&& !known.contains(e.path@)
    &&& !slug_taken(sites, slugify_spec(e.name@))
}

/// Which folder entries discovery takes: exactly the directories holding a
/// router.php whose name does not start with '.', at a path not among
/// `known`, whose slug is free; a '.' anywhere after the first character
/// makes no difference.
pub proof fn lemma_discoverable_entries(sites: Seq<Site>, known: Seq<Seq<char>>, e: FolderEntry)
    ensures
        discoverable(sites, known, e) <==> {
            &&& e.is_dir
            &&& e.has_router
            &&& e.name@.len() == 0 || e.name@.first() != '.'
            &&& !known.contains(e.path@)
            &&& !slug_taken(sites, slugify_spec(e.name@))
        },
        e.name@.len() > 0 && e.name@.first() == '.' ==> !discoverable(sites, known, e),
{
}

/// Whether discovery registers this folder entry (see `discoverable`): a
/// directory holding a router.php, not hidden by a leading '.', at a path
/// not among `known`, whose slug no site uses.
pub fn discover_decision(store: &Store, known: &[String], entry: &FolderEntry) -> (r: bool)
    ensures
        r == discoverable(store.sites@, views(known@), *entry),
        r <==> {
            &&& entry.is_dir
            &&& entry.has_router
            &&& entry.name@.len() == 0 || entry.name@.first() != '.'
            &&& !views(known@).contains(entry.path@)
            &&& !slug_taken(store.sites@, slugify_spec(entry.name@))
        },
{
    proof {
        lemma_discoverable_entries(store.sites@, views(known@), *entry);
    }
    if !entry.is_dir {
        return false;
    }
    let name = entry.name.as_str();
    if !name.is_empty() && name.get_char(0) == '.' {
        return false;
    }
    if !entry.has_router {
        return false;
    }
    if crate::commands::contains_str(known, entry.path.as_str()) {
        return false;
    }
    let slug = slugify(name);
    store.slug_available(slug.as_str())
}

/// Registers a discovered folder (see `discoverable`): returns whether it was
/// added; the added site is described by `folder_site` with the name's slug.
pub fn discover_entry(
    store: &mut Store,
    known: &[String],
    entry: &FolderEntry,
    meta: &BackupMeta,
    id: String,
    created_at: u64,
) -> (r: bool)
    requires
        discoverable(old(store).sites@, views(known@), *entry) ==> has_free_port(old(store).sites@),
    ensures
        r == discoverable(old(store).sites@, views(known@), *entry),
        final(store).settings == old(store).settings,
        !r ==> final(store).sites@ == old(store).sites@,
        r ==> final(store).sites@.len() == old(store).sites@.len() + 1 && final(store).sites@.drop_last()
            == old(store).sites@ && ({
            let s = final(store).sites@.last();
            &&& s.id == id
            &&& s.name@ == or_else(meta.name@, entry.name@)
            &&& s.slug@ == slugify_spec(entry.name@)
            &&& s.path@ == entry.path@
            &&& is_first_free_port(old(store).sites@, s.port as int)
            &&& s.php_version@ == or_else(meta.php_version@, old(store).settings.global_php_version@)
            &&& s.frontpress_version@ == or_else(meta.frontpress_version@, "?"@)
            &&& s.admin_user@ == or_else(meta.admin_user@, DEFAULT_ADMIN_USER@)
            &&& s.created_at == created_at
        }),
{
    if !discover_decision(store, known, entry) {
        return false;
    }
    let slug = slugify(entry.name.as_str());
    let site = folder_site(store, entry.name.as_str(), entry.path.as_str(), slug, meta, id, created_at);
    let ghost before = store.sites@;
    store.sites.push(site);
    assert(store.sites@.drop_last() =~= before);
    true
}

/// The paths of `sites`, in order.
pub open spec fn site_paths(sites: Seq<Site>) -> Seq<Seq<char>> {
    sites.map_values(|s: Site| s.path@)
}

proof fn lemma_site_paths(sites: Seq<Site>, p: Seq<char>)
    ensures
        site_paths(sites).contains(p) <==> path_taken(sites, p),
{
    if path_taken(sites, p) {
        let i = choose|i: int| 0 <= i < sites.len() && sites[i].path@ == p;
        assert(site_paths(sites)[i] == p);
    }
}

/// `s` is the record discovery makes for entry `e` on top of `sites`, with
/// the identity `meta` found in the folder and the fresh id `id`.
pub open spec fn found_site(
    sites: Seq<Site>,
    global_php: Seq<char>,
    e: FolderEntry,
    meta: BackupMeta,
    id: String,
    created_at: u64,
    s: Site,
) -> bool {
    &&& s.id == id
    &&& s.name@ == or_else(meta.name@, e.name@)
    &&& s.slug@ == slugify_spec(e.name@)
    &&& s.path@ == e.path@
    &&& is_first_free_port(sites, s.port as int)
    &&& s.php_version@ == or_else(meta.php_version@, global_php)
    &&& s.frontpress_version@ == or_else(meta.frontpress_version@, "?"@)
    &&& s.admin_user@ == or_else(meta.admin_user@, DEFAULT_ADMIN_USER@)
    &&& s.created_at == created_at
}

/// `result` is what discovery makes of `sites` from the first `n` folder
/// entries: in order, each entry that is discoverable against the sites so
/// far and the paths `known` adds the record `found_site` describes (with
/// the entry's identity `metas[k]` and id `ids[k]`); the others change
/// nothing.
pub open spec fn discovered(
    sites: Seq<Site>,
    known: Seq<Seq<char>>,
    global_php: Seq<char>,
    entries: Seq<FolderEntry>,
    metas: Seq<BackupMeta>,
    ids: Seq<String>,
    created_at: u64,
    n: int,
    result: Seq<Site>,
) -> bool
    decreases n,
{
    if n <= 0 {
        result == sites
    } else {
        let e = entries[n - 1];
        ||| result.len() > 0 && discovered(
            sites,
            known,
            global_php,
            entries,
            metas,
            ids,
            created_at,
            n - 1,
            result.drop_last(),
        ) && discoverable(result.drop_last(), known, e) && found_site(
            result.drop_last(),
            global_php,
            e,
            metas[n - 1],
            ids[n - 1],
            created_at,
            result.last(),
        )
        ||| discovered(sites, known, global_php, entries, metas, ids, created_at, n - 1, result)
            && !discoverable(result, known, e)
    }
}

/// Every site a scan of `entries` would add finds a free port: at each
/// entry the scan would register, some port from 8081 up is still free.
pub open spec fn ports_suffice(
    sites: Seq<Site>,
    global_php: Seq<char>,
    entries: Seq<FolderEntry>,
    metas: Seq<BackupMeta>,
    ids: Seq<String>,
    created_at: u64,
) -> bool {
    forall|k: int, res: Seq<Site>|
        0 <= k < entries.len() && #[trigger] discovered(
            sites,
            site_paths(sites),
            global_php,
            entries,
            metas,
            ids,
            created_at,
            k,
            res,
        ) && discoverable(res, site_paths(sites), entries[k]) ==> has_free_port(res)
}

/// The paths of the sites, in order.
fn known_paths(sites: &Vec<Site>) -> (r: Vec<String>)
    ensures
        views(r@) == site_paths(sites@),
{
    let mut known: Vec<String> = Vec::new();
    let mut j: usize = 0;
    while j < sites.len()
        invariant
            j <= sites@.len(),
            known@.len() == j,
            forall|k: int| 0 <= k < j ==> (#[trigger] known@[k])@ == sites@[k].path@,
        decreases sites@.len() - j,
    {
        known.push(sites[j].path.clone());
        j += 1;
    }
    assert(views(known@) =~= site_paths(sites@));
    known
}

/// Scans the entries of the sites folder in order and registers each one
/// that is discoverable (see `discoverable`) against the sites so far and
/// the paths the store held before the scan; returns how many were added.
/// `metas[k]` is the identity stored in entry `k`'s folder (empty where it
/// has none) and `ids[k]` the id it gets if added. Each added site needs a
/// free port (see `ports_suffice`; `discovery_fits` tells).
pub fn discover_all(
    store: &mut Store,
    entries: &[FolderEntry],
    metas: &[BackupMeta],
    ids: &[String],
    created_at: u64,
) -> (r: usize)
    requires
        metas@.len() == entries@.len(),
        ids@.len() == entries@.len(),
        ports_suffice(
            old(store).sites@,
            old(store).settings.global_php_version@,
            entries@,
            metas@,
            ids@,
            created_at,
        ),
    ensures
        final(store).settings == old(store).settings,
        discovered(
            old(store).sites@,
            site_paths(old(store).sites@),
            old(store).settings.global_php_version@,
            entries@,
            metas@,
            ids@,
            created_at,
            entries@.len() as int,
            final(store).sites@,
        ),
        r == final(store).sites@.len() - old(store).sites@.len(),
{
    let ghost s0 = store.sites@;
    let ghost k0 = site_paths(s0);
    let ghost g = store.settings.global_php_version@;
    let known = known_paths(&store.sites);
    let mut added: usize = 0;
    let mut i: usize = 0;
    while i < entries.len()
        invariant
            i <= entries@.len(),
            metas@.len() == entries@.len(),
            ids@.len() == entries@.len(),
            s0 == old(store).sites@,
            g == old(store).settings.global_php_version@,
            ports_suffice(s0, g, entries@, metas@, ids@, created_at),
            views(known@) == k0,
            k0 == site_paths(s0),
            store.settings == old(store).settings,
            store.sites@.len() == s0.len() + added,
            added <= i,
            discovered(s0, k0, g, entries@, metas@, ids@, created_at, i as int, store.sites@),
        decreases entries@.len() - i,
    {
        let ghost before = store.sites@;
        let a = discover_entry(store, known.as_slice(), &entries[i], &metas[i], ids[i].clone(), created_at);
        if a {
            added += 1;
            assert(found_site(before, g, entries@[i as int], metas@[i as int], ids@[i as int], created_at, store.sites@.last()));
        }
        i += 1;
    }
    added
}

/// `a` and `b` hold sites with the same slugs, paths and ports, in order.
spec fn alike(a: Seq<Site>, b: Seq<Site>) -> bool {
    &&& a.len() == b.len()
    &&& forall|i: int|
        0 <= i < a.len() ==> (#[trigger] a[i]).slug@ == b[i].slug@ && a[i].path@ == b[i].path@ && a[i].port
            == b[i].port
}

/// Alike site lists take the same slugs, paths and ports.
proof fn lemma_alike_taken(a: Seq<Site>, b: Seq<Site>)
    requires
        alike(a, b),
    ensures
        forall|x: Seq<char>| #[trigger] slug_taken(a, x) == slug_taken(b, x),
        forall|x: Seq<char>| #[trigger] path_taken(a, x) == path_taken(b, x),
        forall|p: int| #[trigger] port_taken(a, p) == port_taken(b, p),
        has_free_port(a) == has_free_port(b),
{
    assert forall|x: Seq<char>| #[trigger] slug_taken(a, x) == slug_taken(b, x) by {
        if slug_taken(a, x) {
            let i = choose|i: int| 0 <= i < a.len() && a[i].slug@ == x;
            assert(b[i].slug@ == x);
        }
        if slug_taken(b, x) {
            let i = choose|i: int| 0 <= i < b.len() && b[i].slug@ == x;
            assert(a[i].slug@ == x);
        }
    }
    assert forall|x: Seq<char>| #[trigger] path_taken(a, x) == path_taken(b, x) by {
        if path_taken(a, x) {
            let i = choose|i: int| 0 <= i < a.len() && a[i].path@ == x;
            assert(b[i].path@ == x);
        }
        if path_taken(b, x) {
            let i = choose|i: int| 0 <= i < b.len() && b[i].path@ == x;
            assert(a[i].path@ == x);
        }
    }
    assert forall|p: int| #[trigger] port_taken(a, p) == port_taken(b, p) by {
        if port_taken(a, p) {
            let i = choose|i: int| 0 <= i < a.len() && a[i].port == p;
            assert(b[i].port == p);
        }
        if port_taken(b, p) {
            let i = choose|i: int| 0 <= i < b.len() && b[i].port == p;
            assert(a[i].port == p);
        }
    }
    if has_free_port(a) {
        let p = choose|p: int| FIRST_SITE_PORT <= p <= u16::MAX && !port_taken(a, p);
        assert(!port_taken(b, p));
    }
    if has_free_port(b) {
        let p = choose|p: int| FIRST_SITE_PORT <= p <= u16::MAX && !port_taken(b, p);
        assert(!port_taken(a, p));
    }
}

/// Two scans of the same entries from the same sites give alike lists: the
/// sites they add have the same slugs, paths and ports.
proof fn lemma_discovered_alike(
    sites: Seq<Site>,
    known: Seq<Seq<char>>,
    global_php: Seq<char>,
    entries: Seq<FolderEntry>,
    metas: Seq<BackupMeta>,
    ids: Seq<String>,
    created_at: u64,
    n: int,
    r1: Seq<Site>,
    r2: Seq<Site>,
)
    requires
        discovered(sites, known, global_php, entries, metas, ids, created_at, n, r1),
        discovered(sites, known, global_php, entries, metas, ids, created_at, n, r2),
    ensures
        alike(r1, r2),
    decreases n,
{
    if n <= 0 {
        assert(alike(r1, r2));
    } else {
        let e = entries[n - 1];
        let add1 = r1.len() > 0 && discovered(sites, known, global_php, entries, metas, ids, created_at, n - 1, r1.drop_last())
            && discoverable(r1.drop_last(), known, e) && found_site(
            r1.drop_last(),
            global_php,
            e,
            metas[n - 1],
            ids[n - 1],
            created_at,
            r1.last(),
        );
        let add2 = r2.len() > 0 && discovered(sites, known, global_php, entries, metas, ids, created_at, n - 1, r2.drop_last())
            && discoverable(r2.drop_last(), known, e) && found_site(
            r2.drop_last(),
            global_php,
            e,
            metas[n - 1],
            ids[n - 1],
            created_at,
            r2.last(),
        );
        let p1 = if add1 { r1.drop_last() } else { r1 };
        let p2 = if add2 { r2.drop_last() } else { r2 };
        lemma_discovered_alike(sites, known, global_php, entries, metas, ids, created_at, n - 1, p1, p2);
        lemma_alike_taken(p1, p2);
        if add1 && add2 {
            let q1 = r1.last().port as int;
            let q2 = r2.last().port as int;
            assert(is_first_free_port(p1, q1));
            assert(!port_taken(p2, q1)) by {
                assert(port_taken(p1, q1) == port_taken(p2, q1));
            }
            assert forall|q: int| FIRST_SITE_PORT <= q < q1 implies port_taken(p2, q) by {
                assert(port_taken(p1, q) == port_taken(p2, q));
            }
            assert(is_first_free_port(p2, q1));
            if q1 < q2 {
                assert(port_taken(p2, q1));
            } else if q2 < q1 {
                assert(port_taken(p2, q2));
            }
            assert forall|i: int| 0 <= i < r1.len() implies (#[trigger] r1[i]).slug@ == r2[i].slug@ && r1[i].path@
                == r2[i].path@ && r1[i].port == r2[i].port by {
                if i < r1.len() - 1 {
                    assert(r1[i] == p1[i] && r2[i] == p2[i]);
                }
            }
        } else if !add1 && !add2 {
        } else {
            assert(discoverable(p1, known, e) == discoverable(p2, known, e));
        }
    }
}

/// Whether every site a scan of `entries` would add finds a free port (see
/// `ports_suffice`): the scan is run on a copy, checking before each
/// addition.
pub fn discovery_fits(
    store: &Store,
    entries: &[FolderEntry],
    metas: &[BackupMeta],
    ids: &[String],
    created_at: u64,
) -> (r: bool)
    requires
        metas@.len() == entries@.len(),
        ids@.len() == entries@.len(),
    ensures
        r == ports_suffice(store.sites@, store.settings.global_php_version@, entries@, metas@, ids@, created_at),
{
    let ghost s0 = store.sites@;
    let ghost k0 = site_paths(s0);
    let ghost g = store.settings.global_php_version@;
    let known = known_paths(&store.sites);
    let mut sim = store.duplicate();
    let mut i: usize = 0;
    while i < entries.len()
        invariant
            i <= entries@.len(),
            metas@.len() == entries@.len(),
            ids@.len() == entries@.len(),
            s0 == store.sites@,
            g == store.settings.global_php_version@,
            views(known@) == k0,
            k0 == site_paths(s0),
            sim.settings == store.settings,
            discovered(s0, k0, g, entries@, metas@, ids@, created_at, i as int, sim.sites@),
            forall|k: int, res: Seq<Site>|
                0 <= k < i && #[trigger] discovered(s0, k0, g, entries@, metas@, ids@, created_at, k, res)
                    && discoverable(res, k0, entries@[k]) ==> has_free_port(res),
        decreases entries@.len() - i,
    {
        let ghost before = sim.sites@;
        let wanted = discover_decision(&sim, known.as_slice(), &entries[i]);
        if wanted && !sim.has_room() {
            assert(discovered(s0, k0, g, entries@, metas@, ids@, created_at, i as int, before));
            return false;
        }
        assert forall|res: Seq<Site>|
            #[trigger] discovered(s0, k0, g, entries@, metas@, ids@, created_at, i as int, res) && discoverable(
                res,
                k0,
                entries@[i as int],
            ) implies has_free_port(res) by {
            lemma_discovered_alike(s0, k0, g, entries@, metas@, ids@, created_at, i as int, res, before);
            lemma_alike_taken(res, before);
        }
        let a = discover_entry(&mut sim, known.as_slice(), &entries[i], &metas[i], ids[i].clone(), created_at);
        if a {
            assert(found_site(before, g, entries@[i as int], metas@[i as int], ids@[i as int], created_at, sim.sites@.last()));
        }
        i += 1;
    }
    true
}

/// After discovery, no entry it saw is discoverable any more against the
/// sites it left, and the sites it started from are kept in front.
proof fn lemma_discovered_settles(
    sites: Seq<Site>,
    known: Seq<Seq<char>>,
    global_php: Seq<char>,
    entries: Seq<FolderEntry>,
    metas: Seq<BackupMeta>,
    ids: Seq<String>,
    created_at: u64,
    n: int,
    result: Seq<Site>,
)
    requires
        0 <= n <= entries.len(),
        discovered(sites, known, global_php, entries, metas, ids, created_at, n, result),
        forall|p: Seq<char>| known.contains(p) ==> path_taken(sites, p),
    ensures
        sites.len() <= result.len(),
        result.take(sites.len() as int) == sites,
        forall|k: int| 0 <= k < n ==> !discoverable(result, site_paths(result), #[trigger] entries[k]),
    decreases n,
{
    if n <= 0 {
        assert(result.take(sites.len() as int) =~= sites);
    } else {
        let e = entries[n - 1];
        if result.len() > 0 && discovered(
            sites,
            known,
            global_php,
            entries,
            metas,
            ids,
            created_at,
            n - 1,
            result.drop_last(),
        ) && discoverable(result.drop_last(), known, e) && found_site(
            result.drop_last(),
            global_php,
            e,
            metas[n - 1],
            ids[n - 1],
            created_at,
            result.last(),
        ) {
            let prev = result.drop_last();
            lemma_discovered_settles(sites, known, global_php, entries, metas, ids, created_at, n - 1, prev);
            assert(result.take(sites.len() as int) =~= prev.take(sites.len() as int));
            assert forall|k: int| 0 <= k < n implies !discoverable(result, site_paths(result), #[trigger] entries[k]) by {
                let ek = entries[k];
                lemma_site_paths(result, ek.path@);
                lemma_site_paths(prev, ek.path@);
                if k == n - 1 {
                    assert(result[result.len() - 1].path@ == ek.path@);
                } else {
                    if path_taken(prev, ek.path@) {
                        let w = choose|w: int| 0 <= w < prev.len() && prev[w].path@ == ek.path@;
                        assert(result[w] == prev[w]);
                    }
                    if slug_taken(prev, slugify_spec(ek.name@)) {
                        let w = choose|w: int| 0 <= w < prev.len() && prev[w].slug@ == slugify_spec(ek.name@);
                        assert(result[w] == prev[w]);
                    }
                }
            }
        } else {
            lemma_discovered_settles(sites, known, global_php, entries, metas, ids, created_at, n - 1, result);
            assert forall|k: int| 0 <= k < n implies !discoverable(result, site_paths(result), #[trigger] entries[k]) by {
                let ek = entries[k];
                lemma_site_paths(result, ek.path@);
                if k == n - 1 && known.contains(ek.path@) {
                    let w = choose|w: int| 0 <= w < sites.len() && sites[w].path@ == ek.path@;
                    assert(result.take(sites.len() as int)[w] == result[w]);
                }
            }
        }
    }
}

/// Where every entry is settled against `sites`, discovery changes nothing.
proof fn lemma_discovered_settled_unchanged(
    sites: Seq<Site>,
    global_php: Seq<char>,
    entries: Seq<FolderEntry>,
    metas: Seq<BackupMeta>,
    ids: Seq<String>,
    created_at: u64,
    n: int,
    result: Seq<Site>,
)
    requires
        0 <= n <= entries.len(),
        forall|k: int| 0 <= k < n ==> !discoverable(sites, site_paths(sites), #[trigger] entries[k]),
    ensures
        discovered(sites, site_paths(sites), global_php, entries, metas, ids, created_at, n, result)
            <==> result == sites,
    decreases n,
{
    if n > 0 {
        lemma_discovered_settled_unchanged(sites, global_php, entries, metas, ids, created_at, n - 1, result);
        if result.len() > 0 {
            lemma_discovered_settled_unchanged(
                sites,
                global_php,
                entries,
                metas,
                ids,
                created_at,
                n - 1,
                result.drop_last(),
            );
        }
        assert(!discoverable(sites, site_paths(sites), entries[n - 1]));
    }
}

/// A second discovery over the same folder, with nothing changed since the
/// first, adds no site: whatever identities, ids and time it is handed, the
/// only result it can have is the list the first one left.
pub proof fn lemma_rediscovery_adds_nothing(
    sites: Seq<Site>,
    global_php: Seq<char>,
    entries: Seq<FolderEntry>,
    metas: Seq<BackupMeta>,
    ids: Seq<String>,
    created_at: u64,
    after: Seq<Site>,
    global_php2: Seq<char>,
    metas2: Seq<BackupMeta>,
    ids2: Seq<String>,
    created_at2: u64,
    again: Seq<Site>,
)
    requires
        discovered(
            sites,
            site_paths(sites),
            global_php,
            entries,
            metas,
            ids,
            created_at,
            entries.len() as int,
            after,
        ),
        discovered(
            after,
            site_paths(after),
            global_php2,
            entries,
            metas2,
            ids2,
            created_at2,
            entries.len() as int,
            again,
        ),
    ensures
        again == after,
{
    assert forall|p: Seq<char>| site_paths(sites).contains(p) implies path_taken(sites, p) by {
        lemma_site_paths(sites, p);
    }
    lemma_discovered_settles(
        sites,
        site_paths(sites),
        global_php,
        entries,
        metas,
        ids,
        created_at,
        entries.len() as int,
        after,
    );
    lemma_discovered_settled_unchanged(
        after,
        global_php2,
        entries,
        metas2,
        ids2,
        created_at2,
        entries.len() as int,
        again,
    );
}

/// A whole scan keeps slugs and ports distinct: each site it adds takes a
/// slug no site used yet and the first free port.
pub proof fn lemma_discovered_keeps_distinct(
    sites: Seq<Site>,
    known: Seq<Seq<char>>,
    global_php: Seq<char>,
    entries: Seq<FolderEntry>,
    metas: Seq<BackupMeta>,
    ids: Seq<String>,
    created_at: u64,
    n: int,
    result: Seq<Site>,
)
    requires
        sites_distinct(sites),
        discovered(sites, known, global_php, entries, metas, ids, created_at, n, result),
    ensures
        sites_distinct(result),
    decreases n,
{
    if n > 0 {
        let e = entries[n - 1];
        if result.len() > 0 && discovered(
            sites,
            known,
            global_php,
            entries,
            metas,
            ids,
            created_at,
            n - 1,
            result.drop_last(),
        ) && discoverable(result.drop_last(), known, e) && found_site(
            result.drop_last(),
            global_php,
            e,
            metas[n - 1],
            ids[n - 1],
            created_at,
            result.last(),
        ) {
            let prev = result.drop_last();
            lemma_discovered_keeps_distinct(sites, known, global_php, entries, metas, ids, created_at, n - 1, prev);
            lemma_add_keeps_distinct(prev, result.last());
            assert(prev.push(result.last()) =~= result);
        } else {
            lemma_discovered_keeps_distinct(sites, known, global_php, entries, metas, ids, created_at, n - 1, result);
        }
    }
}

/// Discovery keeps slugs and ports distinct: it registers a folder only when
/// its slug is free and gives it a free port.
pub proof fn lemma_discovery_keeps_distinct(before: Seq<Site>, after: Seq<Site>, added: bool)
    requires
        sites_distinct(before),
        !added ==> after == before,
        added ==> after.drop_last() == before && after.len() == before.len() + 1 && !slug_taken(
            before,
            after.last().slug@,
        ) && !port_taken(before, after.last().port as int),
    ensures
        sites_distinct(after),
{
    if added {
        lemma_add_keeps_distinct(before, after.last());
        assert(before.push(after.last()) =~= after);
    }
}

// ── Relocating ──────────────────────────────────────────────────────────────

/// What to do with one site when the sites folder moves.
#[derive(Debug, Clone, PartialEq, Eq)]
pub enum MoveStep {
    /// Nothing on disk to move.
    Skip,
    /// The target folder exists already: stop and undo.
    Conflict,
    /// Copy the site to the target folder.
    Copy,
}

/// The step for a site whose folder does (`old_exists`) or does not exist,
/// moving to a target that does (`target_exists`) or does not exist.
pub fn move_step(old_exists: bool, target_exists: bool) -> (r: MoveStep)
    ensures
        !old_exists ==> r is Skip,
        old_exists && target_exists ==> r is Conflict,
        old_exists && !target_exists ==> r is Copy,
{
    if !old_exists {
        MoveStep::Skip
    } else if target_exists {
        MoveStep::Conflict
    } else {
        MoveStep::Copy
    }
}

/// What happened to one site while the sites folder was being copied.
#[derive(Debug, Clone, PartialEq, Eq)]
pub enum MoveOutcome {
    /// Nothing on disk to move.
    Skipped,
    /// Copied to this target folder.
    Copied(String),
    /// The target folder existed already.
    Conflict,
    /// Copying to this target folder failed part way.
    CopyFailed(String),
}

/// The outcome stops the relocation.
pub open spec fn move_failed(o: MoveOutcome) -> bool {
    o is Conflict || o is CopyFailed
}

/// The `(id, target)` pairs of the sites among the first `n` outcomes that
/// were copied, in order; outcome `k` belongs to site `ids[k]`.
pub open spec fn copied_moves(ids: Seq<String>, outcomes: Seq<MoveOutcome>, n: int) -> Seq<(String, String)>
    decreases n,
{
    if n <= 0 {
        seq![]
    } else {
        let before = copied_moves(ids, outcomes, n - 1);
        match outcomes[n - 1] {
            MoveOutcome::Copied(t) => before.push((ids[n - 1], t)),
            _ => before,
        }
    }
}

/// The target folders of the first `n` outcomes that were copied, in order.
pub open spec fn copied_targets(outcomes: Seq<MoveOutcome>, n: int) -> Seq<String>
    decreases n,
{
    if n <= 0 {
        seq![]
    } else {
        let before = copied_targets(outcomes, n - 1);
        match outcomes[n - 1] {
            MoveOutcome::Copied(t) => before.push(t),
            _ => before,
        }
    }
}

/// How a relocation ends once the copies are made.
#[derive(Debug, Clone, PartialEq, Eq)]
pub enum RelocationDecision {
    /// Every copy succeeded: point these sites (by id) at their new folders.
    Commit(Vec<(String, String)>),
    /// Site `failed_at` stopped the move: remove these folders and change
    /// nothing else.
    Rollback { remove: Vec<String>, failed_at: usize },
}

/// Settles a relocation from the outcomes of the copies, site by site (the
/// copying stops at the first failure). With no failure, every copied site
/// moves to its target. At the first failure nothing moves, and every
/// folder written so far is removed: the partial target of a failed copy,
/// then each completed copy.
pub fn settle_relocation(ids: &[String], outcomes: &[MoveOutcome]) -> (r: RelocationDecision)
    requires
        outcomes@.len() <= ids@.len(),
    ensures
        (forall|k: int| 0 <= k < outcomes@.len() ==> !move_failed(#[trigger] outcomes@[k])) <==> r is Commit,
        r matches RelocationDecision::Rollback { remove, failed_at } ==> {
            &&& failed_at < outcomes@.len()
            &&& move_failed(outcomes@[failed_at as int])
            &&& forall|k: int| 0 <= k < failed_at ==> !move_failed(#[trigger] outcomes@[k])
            &&& remove@ == match outcomes@[failed_at as int] {
                MoveOutcome::CopyFailed(t) => seq![t],
                _ => seq![],
            } + copied_targets(outcomes@, failed_at as int)
        },
        r matches RelocationDecision::Commit(moves) ==> {
            &&& forall|k: int| 0 <= k < outcomes@.len() ==> !move_failed(#[trigger] outcomes@[k])
            &&& moves@ == copied_moves(ids@, outcomes@, outcomes@.len() as int)
        },
{
    let mut moves: Vec<(String, String)> = Vec::new();
    let mut targets: Vec<String> = Vec::new();
    let mut k: usize = 0;
    while k < outcomes.len()
        invariant
            k <= outcomes@.len(),
            outcomes@.len() <= ids@.len(),
            forall|j: int| 0 <= j < k ==> !move_failed(#[trigger] outcomes@[j]),
            moves@ == copied_moves(ids@, outcomes@, k as int),
            targets@ == copied_targets(outcomes@, k as int),
        decreases outcomes@.len() - k,
    {
        match &outcomes[k] {
            MoveOutcome::Skipped => {},
            MoveOutcome::Copied(t) => {
                moves.push((ids[k].clone(), t.clone()));
                targets.push(t.clone());
            },
            MoveOutcome::Conflict => {
                return RelocationDecision::Rollback { remove: targets, failed_at: k };
            },
            MoveOutcome::CopyFailed(t) => {
                let mut remove: Vec<String> = Vec::new();
                remove.push(t.clone());
                let mut j: usize = 0;
                while j < targets.len()
                    invariant
                        j <= targets@.len(),
                        remove@ == seq![*t] + targets@.take(j as int),
                    decreases targets@.len() - j,
                {
                    remove.push(targets[j].clone());
                    assert(targets@.take(j + 1) =~= targets@.take(j as int).push(targets@[j as int]));
                    j += 1;
                }
                assert(targets@.take(targets@.len() as int) =~= targets@);
                return RelocationDecision::Rollback { remove, failed_at: k };
            },
        }
        k += 1;
    }
    RelocationDecision::Commit(moves)
}

/// A relocation is all or nothing: each site copied before the stop is
/// among the moves a commit applies and among the folders a rollback
/// removes, and a rollback removes no folder but those the copies wrote.
pub proof fn lemma_copies_accounted(ids: Seq<String>, outcomes: Seq<MoveOutcome>, n: int)
    requires
        0 <= n <= outcomes.len(),
        n <= ids.len(),
    ensures
        forall|k: int|
            0 <= k < n && #[trigger] outcomes[k] is Copied ==> copied_moves(ids, outcomes, n).contains(
                (ids[k], outcomes[k]->Copied_0),
            ) && copied_targets(outcomes, n).contains(outcomes[k]->Copied_0),
        forall|t: String|
            #[trigger] copied_targets(outcomes, n).contains(t) ==> exists|k: int|
                0 <= k < n && outcomes[k] == MoveOutcome::Copied(t),
    decreases n,
{
    if n > 0 {
        lemma_copies_accounted(ids, outcomes, n - 1);
        let m0 = copied_moves(ids, outcomes, n - 1);
        let t0 = copied_targets(outcomes, n - 1);
        assert forall|k: int|
            0 <= k < n && #[trigger] outcomes[k] is Copied implies copied_moves(ids, outcomes, n).contains(
                (ids[k], outcomes[k]->Copied_0),
            ) && copied_targets(outcomes, n).contains(outcomes[k]->Copied_0) by {
            if k < n - 1 {
                let i = choose|i: int| 0 <= i < m0.len() && m0[i] == (ids[k], outcomes[k]->Copied_0);
                let j = choose|j: int| 0 <= j < t0.len() && t0[j] == outcomes[k]->Copied_0;
                match outcomes[n - 1] {
                    MoveOutcome::Copied(t) => {
                        assert(m0.push((ids[n - 1], t))[i] == m0[i]);
                        assert(t0.push(t)[j] == t0[j]);
                    },
                    _ => {},
                }
            } else {
                let t = outcomes[k]->Copied_0;
                assert(m0.push((ids[n - 1], t))[m0.len() as int] == (ids[n - 1], t));
                assert(t0.push(t)[t0.len() as int] == t);
            }
        }
        assert forall|t: String| #[trigger] copied_targets(outcomes, n).contains(t) implies exists|k: int|
            0 <= k < n && outcomes[k] == MoveOutcome::Copied(t) by {
            let all = copied_targets(outcomes, n);
            let j = choose|j: int| 0 <= j < all.len() && all[j] == t;
            if j < t0.len() {
                assert(all[j] == t0[j]);
                assert(t0.contains(t));
            } else {
                assert(outcomes[n - 1] == MoveOutcome::Copied(t));
            }
        }
    }
}

/// The progress line shown while moving site `index` (from 0) of `total`:
/// "Moving {name} ({index + 1}/{total})".
pub fn moving_message(name: &str, index: u64, total: u64) -> (r: String)
    requires
        index < total,
    ensures
        r@ == "Moving "@ + name@ + " ("@ + decimal((index + 1) as nat) + "/"@ + decimal(total as nat) + ")"@,
{
    let a = concat(concat("Moving ", name).as_str(), " (");
    let b = concat(a.as_str(), decimal_string(index + 1).as_str());
    let c = concat(b.as_str(), "/");
    let d = concat(c.as_str(), decimal_string(total).as_str());
    concat(d.as_str(), ")")
}

/// Whether a dropped file is a `.zip` backup, given its extension.
pub fn is_zip_backup(extension: Option<&str>) -> (r: bool)
    ensures
        r == (extension matches Some(e) && e@ == "zip"@),
{
    match extension {
        Some(e) => str_eq(e, "zip"),
        None => false,
    }
}

} // verus!
