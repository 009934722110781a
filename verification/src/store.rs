//! Persistent state: the settings and the list of sites kept in `sites.json`.
//! This module holds the data and the operations on it; reading and writing
//! the file is left to the caller.

use vstd::prelude::*;
use crate::text::str_eq;
use crate::counting::lemma_pigeonhole;
use std::time::{SystemTime, SystemTimeError, UNIX_EPOCH};
use std::time::Duration;

verus! {

/// FrontPress's hard minimum PHP. Bump when the framework raises it.
pub const MIN_PHP_DEFAULT: &'static str = "8.1";

/// Default PHP minor we steer new installs toward.
pub const PREFERRED_PHP_MINOR: &'static str = "8.3";

/// FrontPress Studio's shipped default admin user. We use it so the operator
/// knows the current credentials and can change them from the admin.
pub const DEFAULT_ADMIN_USER: &'static str = "fpsadmin";

/// FrontPress Studio's shipped default admin password.
pub const DEFAULT_ADMIN_PASS: &'static str = "fpspass";

/// The lowest port a site is given.
pub const FIRST_SITE_PORT: u16 = 8081;

/// One registered site.
#[derive(Debug, Clone, PartialEq, Eq)]
pub struct Site {
    pub id: String,
    pub name: String,
    pub slug: String,
    /// Absolute path to the site's webroot (where router.php lives).
    pub path: String,
    pub port: u16,
    /// Fully-resolved PHP version this site runs, e.g. "8.3.9".
    pub php_version: String,
    /// FrontPress Studio version installed, e.g. "0.4.1".
    pub frontpress_version: String,
    pub admin_user: String,
    pub created_at: u64,
}

impl Site {
    /// A field-by-field copy of this site.
    pub fn duplicate(&self) -> (r: Site)
        ensures
            r == *self,
    {
        Site {
            id: self.id.clone(),
            name: self.name.clone(),
            slug: self.slug.clone(),
            path: self.path.clone(),
            port: self.port,
            php_version: self.php_version.clone(),
            frontpress_version: self.frontpress_version.clone(),
            admin_user: self.admin_user.clone(),
            created_at: self.created_at,
        }
    }
}

/// App-wide settings.
#[derive(Debug, Clone, PartialEq, Eq)]
pub struct Settings {
    /// Fully-resolved default PHP for new sites, e.g. "8.3.9". Empty until
    /// the first runtime is installed.
    pub global_php_version: String,
    /// Minimum PHP FrontPress accepts.
    pub min_php: String,
    /// Favorite editor to open site folders with (a display name or a
    /// command). Empty = none chosen.
    pub editor: String,
    /// Folder where site directories live. Empty = the default folder.
    pub sites_dir: String,
}

impl Settings {
    /// A field-by-field copy of these settings.
    pub fn duplicate(&self) -> (r: Settings)
        ensures
            r == *self,
    {
        Settings {
            global_php_version: self.global_php_version.clone(),
            min_php: self.min_php.clone(),
            editor: self.editor.clone(),
            sites_dir: self.sites_dir.clone(),
        }
    }

}

/// The minimum PHP a fresh install accepts, as a `String`.
pub fn default_min_php() -> (r: String)
    ensures
        r@ == MIN_PHP_DEFAULT@,
{
    String::from_str(MIN_PHP_DEFAULT)
}

impl Default for Settings {
    fn default() -> (r: Settings)
        ensures
            r.global_php_version@ == Seq::<char>::empty(),
            r.min_php@ == MIN_PHP_DEFAULT@,
            r.editor@ == Seq::<char>::empty(),
            r.sites_dir@ == Seq::<char>::empty(),
    {
        Settings {
            global_php_version: String::new(),
            min_php: default_min_php(),
            editor: String::new(),
            sites_dir: String::new(),
        }
    }
}

/// Settings plus the list of sites.
#[derive(Debug, Clone, PartialEq, Eq)]
pub struct Store {
    pub settings: Settings,
    pub sites: Vec<Site>,
}

impl Default for Store {
    fn default() -> (r: Store)
        ensures
            r.sites@.len() == 0,
            r.settings.global_php_version@ == Seq::<char>::empty(),
            r.settings.min_php@ == MIN_PHP_DEFAULT@,
            r.settings.editor@ == Seq::<char>::empty(),
            r.settings.sites_dir@ == Seq::<char>::empty(),
    {
        Store { settings: Settings::default(), sites: Vec::new() }
    }
}

/// Index of the first site whose id is `id`.
pub open spec fn index_of_id(sites: Seq<Site>, id: Seq<char>) -> Option<int>
    decreases sites.len(),
{
    if sites.len() == 0 {
        None
    } else {
        match index_of_id(sites.drop_last(), id) {
            Some(i) => Some(i),
            None => if sites.last().id@ == id { Some(sites.len() - 1) } else { None },
        }
    }
}

/// Some site uses `port`.
pub open spec fn port_taken(sites: Seq<Site>, port: int) -> bool {
    exists|i: int| 0 <= i < sites.len() && sites[i].port == port
}

/// Some site uses `slug`.
pub open spec fn slug_taken(sites: Seq<Site>, slug: Seq<char>) -> bool {
    exists|i: int| 0 <= i < sites.len() && sites[i].slug@ == slug
}

/// Some site lives at `path`.
pub open spec fn path_taken(sites: Seq<Site>, path: Seq<char>) -> bool {
    exists|i: int| 0 <= i < sites.len() && sites[i].path@ == path
}

/// Some port from 8081 up is free.
pub open spec fn has_free_port(sites: Seq<Site>) -> bool {
    exists|p: int| FIRST_SITE_PORT <= p <= u16::MAX && !port_taken(sites, p)
}

/// `p` is the lowest free port from 8081 up.
pub open spec fn is_first_free_port(sites: Seq<Site>, p: int) -> bool {
    &&& FIRST_SITE_PORT <= p <= u16::MAX
    &&& !port_taken(sites, p)
    &&& forall|q: int| FIRST_SITE_PORT <= q < p ==> port_taken(sites, q)
}

/// No two sites share a slug, and no two share a port.
pub open spec fn sites_distinct(sites: Seq<Site>) -> bool {
    &&& forall|i: int, j: int| 0 <= i < j < sites.len() ==> sites[i].slug@ != sites[j].slug@
    &&& forall|i: int, j: int| 0 <= i < j < sites.len() ==> sites[i].port != sites[j].port
}

/// Index of the first site with id `id`, scanning from the front.
pub fn find_site_index(sites: &Vec<Site>, id: &str) -> (r: Option<usize>)
    ensures
        match r {
            Some(i) => index_of_id(sites@, id@) == Some(i as int),
            None => index_of_id(sites@, id@) is None,
        },
{
    let mut i: usize = 0;
    while i < sites.len()
        invariant
            i <= sites@.len(),
            index_of_id(sites@.take(i as int), id@) is None,
        decreases sites@.len() - i,
    {
        assert(sites@.take(i + 1).drop_last() =~= sites@.take(i as int));
        if str_eq(sites[i].id.as_str(), id) {
            proof {
                lemma_index_of_id_prefix(sites@, id@, i as int + 1);
            }
            return Some(i);
        }
        i += 1;
    }
    assert(sites@.take(sites@.len() as int) =~= sites@);
    None
}

proof fn lemma_index_of_id_prefix(sites: Seq<Site>, id: Seq<char>, n: int)
    requires
        0 < n <= sites.len(),
        index_of_id(sites.take(n - 1), id) is None,
        sites[n - 1].id@ == id,
    ensures
        index_of_id(sites, id) == Some(n - 1),
    decreases sites.len() - n,
{
    assert(sites.take(n).drop_last() =~= sites.take(n - 1));
    if n == sites.len() {
        assert(sites.take(n) =~= sites);
    } else {
        lemma_index_of_id_prefix_grow(sites, id, n, n - 1);
    }
}

proof fn lemma_index_of_id_prefix_grow(sites: Seq<Site>, id: Seq<char>, n: int, i: int)
    requires
        0 < n <= sites.len(),
        index_of_id(sites.take(n), id) == Some(i),
    ensures
        index_of_id(sites, id) == Some(i),
    decreases sites.len() - n,
{
    if n == sites.len() {
        assert(sites.take(n) =~= sites);
    } else {
        assert(sites.take(n + 1).drop_last() =~= sites.take(n));
        lemma_index_of_id_prefix_grow(sites, id, n + 1, i);
    }
}

/// What `index_of_id` finds: the first site with that id, if any.
pub proof fn lemma_index_of_id(sites: Seq<Site>, id: Seq<char>)
    ensures
        index_of_id(sites, id) is None <==> forall|i: int| 0 <= i < sites.len() ==> sites[i].id@ != id,
        index_of_id(sites, id) matches Some(i) ==> {
            &&& 0 <= i < sites.len()
            &&& sites[i].id@ == id
            &&& forall|j: int| 0 <= j < i ==> sites[j].id@ != id
        },
    decreases sites.len(),
{
    if sites.len() > 0 {
        let pre = sites.drop_last();
        lemma_index_of_id(pre, id);
        assert forall|i: int| 0 <= i < pre.len() implies pre[i] == sites[i] by {}
    }
}

impl Store {
    /// The first site with the given id.
    pub fn site(&self, id: &str) -> (r: Option<&Site>)
        ensures
            match r {
                Some(s) => index_of_id(self.sites@, id@) matches Some(i) && *s == self.sites@[i],
                None => index_of_id(self.sites@, id@) is None,
            },
    {
        proof {
            lemma_index_of_id(self.sites@, id@);
        }
        match find_site_index(&self.sites, id) {
            Some(i) => Some(&self.sites[i]),
            None => None,
        }
    }

    /// Removes the first site with the given id and returns it.
    pub fn remove_site(&mut self, id: &str) -> (r: Option<Site>)
        ensures
            final(self).settings == old(self).settings,
            match index_of_id(old(self).sites@, id@) {
                Some(i) => r == Some(old(self).sites@[i]) && final(self).sites@ == old(self).sites@.remove(i),
                None => r is None && final(self).sites@ == old(self).sites@,
            },
    {
        match find_site_index(&self.sites, id) {
            Some(i) => {
                proof {
                    lemma_index_of_id(self.sites@, id@);
                }
                Some(self.sites.remove(i))
            },
            None => None,
        }
    }

    /// Whether some site uses `port`.
    pub fn port_in_use(&self, port: u16) -> (r: bool)
        ensures
            r == port_taken(self.sites@, port as int),
    {
        let mut i: usize = 0;
        while i < self.sites.len()
            invariant
                i <= self.sites@.len(),
                forall|j: int| 0 <= j < i ==> self.sites@[j].port != port,
            decreases self.sites@.len() - i,
        {
            if self.sites[i].port == port {
                return true;
            }
            i += 1;
        }
        false
    }

    /// First free port at or above 8081 not already claimed by a site.
    pub fn next_free_port(&self) -> (r: u16)
        requires
            has_free_port(self.sites@),
        ensures
            is_first_free_port(self.sites@, r as int),
    {
        let mut port: u16 = FIRST_SITE_PORT;
        while self.port_in_use(port)
            invariant
                FIRST_SITE_PORT <= port,
                has_free_port(self.sites@),
                forall|q: int| FIRST_SITE_PORT <= q < port ==> port_taken(self.sites@, q),
            decreases u16::MAX - port,
        {
            proof {
                let p = choose|p: int| FIRST_SITE_PORT <= p <= u16::MAX && !port_taken(self.sites@, p);
                assert(p > port);
            }
            port += 1;
        }
        port
    }

    /// Whether some port from 8081 up is free.
    pub fn has_room(&self) -> (r: bool)
        ensures
            r == has_free_port(self.sites@),
    {
        let mut port: u16 = FIRST_SITE_PORT;
        loop
            invariant
                FIRST_SITE_PORT <= port,
                forall|q: int| FIRST_SITE_PORT <= q < port ==> port_taken(self.sites@, q),
            decreases u16::MAX - port,
        {
            if !self.port_in_use(port) {
                return true;
            }
            if port == u16::MAX {
                assert forall|p: int| FIRST_SITE_PORT <= p <= u16::MAX implies port_taken(self.sites@, p) by {}
                return false;
            }
            port += 1;
        }
    }

    /// A copy of this store, site by site.
    pub fn duplicate(&self) -> (r: Store)
        ensures
            r.settings == self.settings,
            r.sites@ == self.sites@,
    {
        let mut sites: Vec<Site> = Vec::new();
        let mut i: usize = 0;
        while i < self.sites.len()
            invariant
                i <= self.sites@.len(),
                sites@ == self.sites@.take(i as int),
            decreases self.sites@.len() - i,
        {
            sites.push(self.sites[i].duplicate());
            assert(self.sites@.take(i + 1) =~= self.sites@.take(i as int).push(self.sites@[i as int]));
            i += 1;
        }
        assert(self.sites@.take(self.sites@.len() as int) =~= self.sites@);
        Store { settings: self.settings.duplicate(), sites }
    }

    /// True when no site already uses this slug.
    pub fn slug_available(&self, slug: &str) -> (r: bool)
        ensures
            r == !slug_taken(self.sites@, slug@),
    {
        let mut i: usize = 0;
        while i < self.sites.len()
            invariant
                i <= self.sites@.len(),
                forall|j: int| 0 <= j < i ==> self.sites@[j].slug@ != slug@,
            decreases self.sites@.len() - i,
        {
            if str_eq(self.sites[i].slug.as_str(), slug) {
                return false;
            }
            i += 1;
        }
        true
    }

    /// Whether some site already lives at `path`.
    pub fn has_path(&self, path: &str) -> (r: bool)
        ensures
            r == path_taken(self.sites@, path@),
    {
        let mut i: usize = 0;
        while i < self.sites.len()
            invariant
                i <= self.sites@.len(),
                forall|j: int| 0 <= j < i ==> self.sites@[j].path@ != path@,
            decreases self.sites@.len() - i,
        {
            if str_eq(self.sites[i].path.as_str(), path) {
                return true;
            }
            i += 1;
        }
        false
    }
}

/// With fewer sites than ports from 8081 to 65535, some port is free.
pub proof fn lemma_free_port_exists(sites: Seq<Site>)
    requires
        sites.len() < u16::MAX - FIRST_SITE_PORT + 1,
    ensures
        has_free_port(sites),
{
    let n = sites.len() as int + 1;
    let cands = Seq::new(n as nat, |k: int| (FIRST_SITE_PORT + k) as u16);
    let taken = sites.map_values(|s: Site| s.port);
    assert(cands.no_duplicates());
    lemma_pigeonhole(cands, taken);
    let k = choose|k: int| 0 <= k < cands.len() && !taken.contains(#[trigger] cands[k]);
    let p = FIRST_SITE_PORT + k;
    assert(cands[k] == p);
    assert(!port_taken(sites, p)) by {
        if port_taken(sites, p) {
            let i = choose|i: int| 0 <= i < sites.len() && sites[i].port == p;
            assert(taken[i] == p);
        }
    }
}

/// `sites` with each move `(id, new_path)` applied in turn: the first site
/// with that id, if any, takes the new path.
pub open spec fn relocated(sites: Seq<Site>, moves: Seq<(String, String)>) -> Seq<Site>
    decreases moves.len(),
{
    if moves.len() == 0 {
        sites
    } else {
        let s = relocated(sites, moves.drop_last());
        let (id, path) = moves.last();
        match index_of_id(s, id@) {
            Some(i) => s.update(i, Site { path: path, ..s[i] }),
            None => s,
        }
    }
}

/// Ids, names, slugs, ports and versions of `a` and `b` agree site by site;
/// only paths may differ.
pub open spec fn same_but_paths(a: Seq<Site>, b: Seq<Site>) -> bool {
    &&& a.len() == b.len()
    &&& forall|i: int| 0 <= i < a.len() ==> (#[trigger] a[i]).id == b[i].id && a[i].name == b[i].name
        && a[i].slug == b[i].slug && a[i].port == b[i].port && a[i].php_version == b[i].php_version
        && a[i].frontpress_version == b[i].frontpress_version && a[i].admin_user == b[i].admin_user
        && a[i].created_at == b[i].created_at
}

impl Settings {
    /// Sets the favorite editor (trimmed).
    pub fn set_editor(&mut self, editor: &str)
        ensures
            final(self).editor@ == crate::text::trim(editor@),
            final(self).global_php_version == old(self).global_php_version,
            final(self).min_php == old(self).min_php,
            final(self).sites_dir == old(self).sites_dir,
    {
        self.editor = crate::text::trim_str(editor);
    }
}

impl Store {
    /// Points each moved site at its new folder and records the new sites
    /// folder; everything else stays as it was.
    pub fn apply_relocation(&mut self, moves: &[(String, String)], new_dir: String)
        ensures
            final(self).sites@ == relocated(old(self).sites@, moves@),
            final(self).sites@.len() == old(self).sites@.len(),
            forall|k: int, i: int|
                #![trigger moves@[k], final(self).sites@[i]]
                0 <= k < moves@.len() && index_of_id(old(self).sites@, moves@[k].0@) == Some(i) && (forall|j: int|
                    k < j < moves@.len() ==> (#[trigger] moves@[j]).0@ != moves@[k].0@) ==> final(self).sites@[i].path
                    == moves@[k].1,
            forall|i: int|
                0 <= i < old(self).sites@.len() && (forall|k: int|
                    0 <= k < moves@.len() ==> index_of_id(old(self).sites@, (#[trigger] moves@[k]).0@) != Some(i))
                    ==> (#[trigger] final(self).sites@[i]).path == old(self).sites@[i].path,
            final(self).settings.sites_dir == new_dir,
            final(self).settings.global_php_version == old(self).settings.global_php_version,
            final(self).settings.min_php == old(self).settings.min_php,
            final(self).settings.editor == old(self).settings.editor,
    {
        let mut k: usize = 0;
        while k < moves.len()
            invariant
                k <= moves@.len(),
                self.sites@ == relocated(old(self).sites@, moves@.take(k as int)),
                self.settings == old(self).settings,
            decreases moves@.len() - k,
        {
            assert(moves@.take(k + 1).drop_last() =~= moves@.take(k as int));
            assert(moves@.take(k + 1).last() == moves@[k as int]);
            let id = moves[k].0.as_str();
            match find_site_index(&self.sites, id) {
                Some(i) => {
                    proof {
                        lemma_index_of_id(self.sites@, id@);
                    }
                    let mut site = self.sites.remove(i);
                    site.path = moves[k].1.clone();
                    self.sites.insert(i, site);
                    assert(self.sites@ =~= relocated(old(self).sites@, moves@.take(k + 1)));
                },
                None => {},
            }
            k += 1;
        }
        assert(moves@.take(moves@.len() as int) =~= moves@);
        proof {
            lemma_relocated_paths(old(self).sites@, moves@);
        }
        self.settings.sites_dir = new_dir;
    }
}

/// Two site lists with the same ids, in order, find the same site for an id.
proof fn lemma_index_of_id_same_ids(a: Seq<Site>, b: Seq<Site>, id: Seq<char>)
    requires
        a.len() == b.len(),
        forall|i: int| 0 <= i < a.len() ==> (#[trigger] a[i]).id == b[i].id,
    ensures
        index_of_id(a, id) == index_of_id(b, id),
    decreases a.len(),
{
    if a.len() > 0 {
        assert forall|i: int| 0 <= i < a.len() - 1 implies (#[trigger] a.drop_last()[i]).id == b.drop_last()[i].id by {
            assert(a.drop_last()[i] == a[i] && b.drop_last()[i] == b[i]);
        }
        lemma_index_of_id_same_ids(a.drop_last(), b.drop_last(), id);
        assert(a.last() == a[a.len() - 1] && b.last() == b[b.len() - 1]);
    }
}

/// Relocation keeps the ids, so an id finds the same site before and after.
proof fn lemma_relocated_finds_same(sites: Seq<Site>, moves: Seq<(String, String)>, id: Seq<char>)
    ensures
        relocated(sites, moves).len() == sites.len(),
        index_of_id(relocated(sites, moves), id) == index_of_id(sites, id),
{
    lemma_relocation_keeps_sites(sites, moves);
    let r = relocated(sites, moves);
    assert forall|i: int| 0 <= i < sites.len() implies (#[trigger] sites[i]).id == r[i].id by {}
    lemma_index_of_id_same_ids(sites, r, id);
}

/// The site move `k` finds, when no later move names its id, ends at the
/// move's target.
proof fn lemma_relocated_path_at(sites: Seq<Site>, moves: Seq<(String, String)>, k: int, i: int)
    requires
        0 <= k < moves.len(),
        index_of_id(sites, moves[k].0@) == Some(i),
        forall|j: int| k < j < moves.len() ==> (#[trigger] moves[j]).0@ != moves[k].0@,
    ensures
        relocated(sites, moves)[i].path == moves[k].1,
    decreases moves.len(),
{
    let m0 = moves.drop_last();
    let s = relocated(sites, m0);
    let last = moves.last();
    lemma_index_of_id(sites, moves[k].0@);
    lemma_relocated_finds_same(sites, m0, last.0@);
    lemma_relocated_finds_same(sites, m0, moves[k].0@);
    lemma_index_of_id(s, last.0@);
    lemma_index_of_id(s, moves[k].0@);
    if k < moves.len() - 1 {
        assert(m0[k] == moves[k]);
        assert forall|j: int| k < j < m0.len() implies (#[trigger] m0[j]).0@ != m0[k].0@ by {
            assert(m0[j] == moves[j]);
        }
        lemma_relocated_path_at(sites, m0, k, i);
        assert(moves[moves.len() - 1].0@ != moves[k].0@);
    }
}

/// A site that no move's id finds keeps its path.
proof fn lemma_relocated_path_kept(sites: Seq<Site>, moves: Seq<(String, String)>, i: int)
    requires
        0 <= i < sites.len(),
        forall|k: int| 0 <= k < moves.len() ==> index_of_id(sites, (#[trigger] moves[k]).0@) != Some(i),
    ensures
        relocated(sites, moves)[i].path == sites[i].path,
    decreases moves.len(),
{
    if moves.len() > 0 {
        let m0 = moves.drop_last();
        assert forall|k: int| 0 <= k < m0.len() implies index_of_id(sites, (#[trigger] m0[k]).0@) != Some(i) by {
            assert(m0[k] == moves[k]);
        }
        lemma_relocated_path_kept(sites, m0, i);
        let last = moves.last();
        lemma_relocated_finds_same(sites, m0, last.0@);
        assert(moves[moves.len() - 1] == last);
        assert(index_of_id(sites, moves[moves.len() - 1].0@) != Some(i));
        let s = relocated(sites, m0);
        assert(index_of_id(s, last.0@) != Some(i));
        lemma_index_of_id(s, last.0@);
        if let Some(i2) = index_of_id(s, last.0@) {
            assert(relocated(sites, moves) == s.update(i2, Site { path: last.1, ..s[i2] }));
            assert(relocated(sites, moves)[i] == s[i]);
        }
    }
}

/// Where relocation points each site: the site a move's id finds (when no
/// later move names the same id) ends at that move's target, and a site
/// that no move's id finds keeps its path.
pub proof fn lemma_relocated_paths(sites: Seq<Site>, moves: Seq<(String, String)>)
    ensures
        relocated(sites, moves).len() == sites.len(),
        forall|k: int, i: int|
            #![trigger moves[k], relocated(sites, moves)[i]]
            0 <= k < moves.len() && index_of_id(sites, moves[k].0@) == Some(i) && (forall|j: int|
                k < j < moves.len() ==> (#[trigger] moves[j]).0@ != moves[k].0@) ==> relocated(
                sites,
                moves,
            )[i].path == moves[k].1,
        forall|i: int|
            0 <= i < sites.len() && (forall|k: int| 0 <= k < moves.len() ==> index_of_id(sites, (#[trigger] moves[k]).0@)
                != Some(i)) ==> (#[trigger] relocated(sites, moves)[i]).path == sites[i].path,
{
    lemma_relocation_keeps_sites(sites, moves);
    assert forall|k: int, i: int|
        #![trigger moves[k], relocated(sites, moves)[i]]
        0 <= k < moves.len() && index_of_id(sites, moves[k].0@) == Some(i) && (forall|j: int|
            k < j < moves.len() ==> (#[trigger] moves[j]).0@ != moves[k].0@) implies relocated(sites, moves)[i].path
            == moves[k].1 by {
        lemma_relocated_path_at(sites, moves, k, i);
    }
    assert forall|i: int|
        0 <= i < sites.len() && (forall|k: int| 0 <= k < moves.len() ==> index_of_id(sites, (#[trigger] moves[k]).0@)
            != Some(i)) implies (#[trigger] relocated(sites, moves)[i]).path == sites[i].path by {
        lemma_relocated_path_kept(sites, moves, i);
    }
}

/// Relocating only changes paths: every site keeps its id, name, slug,
/// port and versions, so slugs and ports stay distinct.
pub proof fn lemma_relocation_keeps_sites(sites: Seq<Site>, moves: Seq<(String, String)>)
    ensures
        same_but_paths(sites, relocated(sites, moves)),
        sites_distinct(sites) ==> sites_distinct(relocated(sites, moves)),
    decreases moves.len(),
{
    if moves.len() > 0 {
        lemma_relocation_keeps_sites(sites, moves.drop_last());
        let s = relocated(sites, moves.drop_last());
        let r = relocated(sites, moves);
        lemma_index_of_id(s, moves.last().0@);
        assert forall|i: int| 0 <= i < sites.len() implies (#[trigger] sites[i]).id == r[i].id && sites[i].name
            == r[i].name && sites[i].slug == r[i].slug && sites[i].port == r[i].port && sites[i].php_version
            == r[i].php_version && sites[i].frontpress_version == r[i].frontpress_version
            && sites[i].admin_user == r[i].admin_user && sites[i].created_at == r[i].created_at by {
            assert(s[i].id == sites[i].id);
        }
    }
    if sites_distinct(sites) {
        let r = relocated(sites, moves);
        assert forall|i: int, j: int| 0 <= i < j < r.len() implies r[i].slug@ != r[j].slug@ by {
            assert(r[i].slug == sites[i].slug && r[j].slug == sites[j].slug);
        }
        assert forall|i: int, j: int| 0 <= i < j < r.len() implies r[i].port != r[j].port by {
            assert(r[i].port == sites[i].port && r[j].port == sites[j].port);
        }
    }
}

/// No two sites share an id.
pub open spec fn ids_distinct(sites: Seq<Site>) -> bool {
    forall|i: int, j: int| 0 <= i < j < sites.len() ==> sites[i].id@ != sites[j].id@
}

/// Removing the site an id finds leaves no site with that id when ids are
/// distinct, and keeps slugs, ports and ids distinct.
pub proof fn lemma_remove_site_laws(sites: Seq<Site>, id: Seq<char>)
    requires
        index_of_id(sites, id) is Some,
    ensures
        ({
            let i = index_of_id(sites, id)->0;
            let rest = sites.remove(i);
            &&& sites[i].id@ == id
            &&& rest.len() == sites.len() - 1
            &&& ids_distinct(sites) ==> index_of_id(rest, id) is None && ids_distinct(rest)
            &&& sites_distinct(sites) ==> sites_distinct(rest)
        }),
{
    lemma_index_of_id(sites, id);
    let i = index_of_id(sites, id)->0;
    let rest = sites.remove(i);
    assert forall|k: int| 0 <= k < rest.len() implies #[trigger] rest[k] == (if k < i {
        sites[k]
    } else {
        sites[k + 1]
    }) by {}
    lemma_index_of_id(rest, id);
    if ids_distinct(sites) {
        assert forall|k: int| 0 <= k < rest.len() implies rest[k].id@ != id by {
            if k < i {
                assert(sites[k].id@ != sites[i].id@);
            } else {
                assert(sites[i].id@ != sites[k + 1].id@);
            }
        }
        assert forall|a: int, b: int| 0 <= a < b < rest.len() implies rest[a].id@ != rest[b].id@ by {
            let a2 = if a < i { a } else { a + 1 };
            let b2 = if b < i { b } else { b + 1 };
            assert(rest[a] == sites[a2] && rest[b] == sites[b2]);
        }
    }
    if sites_distinct(sites) {
        assert forall|a: int, b: int| 0 <= a < b < rest.len() implies rest[a].slug@ != rest[b].slug@
            && rest[a].port != rest[b].port by {
            let a2 = if a < i { a } else { a + 1 };
            let b2 = if b < i { b } else { b + 1 };
            assert(rest[a] == sites[a2] && rest[b] == sites[b2]);
        }
    }
}

// ── Clock ───────────────────────────────────────────────────────────────────

#[verifier::external_type_specification]
#[verifier::external_body]
pub struct ExSystemTime(SystemTime);

#[verifier::external_type_specification]
#[verifier::external_body]
pub struct ExSystemTimeError(SystemTimeError);

/// `SystemTime::now`: the current wall-clock time. Nothing is claimed of it.
#[verifier::external_body]
fn system_now() -> SystemTime {
    SystemTime::now()
}

/// `SystemTime::duration_since(UNIX_EPOCH)`: the time elapsed since the Unix
/// epoch, or an error for a clock set before it. Nothing is claimed of it.
#[verifier::external_body]
fn since_unix_epoch(t: &SystemTime) -> Result<Duration, SystemTimeError> {
    t.duration_since(UNIX_EPOCH)
}

/// `Duration::as_secs`: the whole seconds of a duration. A `Duration` is
/// opaque to the library (it has no plain view here), so nothing is claimed
/// of the value.
#[verifier::external_body]
fn whole_secs(d: &Duration) -> u64 {
    d.as_secs()
}

/// Seconds since the Unix epoch (for `created_at`); 0 when the clock reads
/// a time before the epoch.
pub fn now_secs() -> u64 {
    let t = system_now();
    match since_unix_epoch(&t) {
        Ok(d) => whole_secs(&d),
        Err(_) => 0,
    }
}

} // verus!
