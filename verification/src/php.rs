//! PHP runtime catalogue: reading the static-php.dev directory listing,
//! naming download files and binaries, and the php.ini the Windows builds
//! are given.

use vstd::prelude::*;
use crate::text::{views, chars_of, concat, string_from_range, is_digit};
use crate::catalog::{
    sort_newest_first, insert_newest_first, dedup, sort_newest_first_vec, dedup_vec, newest_first, lemma_sort_newest_first_laws,
    lemma_dedup_laws,
};
use crate::text::str_eq;
pub use crate::catalog::latest_patch;

verus! {

/// The operating systems the app distinguishes.
#[derive(Clone, Copy, PartialEq, Eq, Debug)]
pub enum Platform {
    Linux,
    Windows,
    Other,
}

/// Filename of the PHP executable on this platform.
pub fn php_bin_name(platform: Platform) -> (r: &'static str)
    ensures
        platform == Platform::Windows ==> r@ == "php.exe"@,
        platform != Platform::Windows ==> r@ == "php"@,
{
    match platform {
        Platform::Windows => "php.exe",
        _ => "php",
    }
}

/// `pat` occurs in `s` at position `i`.
pub open spec fn matches_at(s: Seq<char>, pat: Seq<char>, i: int) -> bool {
    0 <= i && i + pat.len() <= s.len() && s.subrange(i, i + pat.len()) == pat
}

/// The first position at or after `i` where `pat` occurs in `s`.
pub open spec fn find_from(s: Seq<char>, pat: Seq<char>, i: int) -> Option<int>
    decreases s.len() - i,
{
    if i < 0 || i + pat.len() > s.len() {
        None
    } else if pat.len() == 0 || matches_at(s, pat, i) {
        Some(i)
    } else {
        find_from(s, pat, i + 1)
    }
}

/// A match found from `i` on lies at or after `i`, within `s`.
pub proof fn lemma_find_from_bounds(s: Seq<char>, pat: Seq<char>, i: int)
    ensures
        find_from(s, pat, i) matches Some(j) ==> i <= j && j + pat.len() <= s.len()
            && matches_at(s, pat, j),
    decreases s.len() - i,
{
    if !(i < 0 || i + pat.len() > s.len()) && !(pat.len() == 0 || matches_at(s, pat, i)) {
        lemma_find_from_bounds(s, pat, i + 1);
    }
    if pat.len() == 0 && 0 <= i <= s.len() {
        assert(s.subrange(i, i) =~= pat);
    }
}

fn match_at(s: &[char], pat: &[char], i: usize) -> (r: bool)
    requires
        i + pat@.len() <= s@.len(),
    ensures
        r == (pat@.len() == 0 || matches_at(s@, pat@, i as int)),
{
    let n = pat.len();
    let len = s.len();
    let mut k: usize = 0;
    while k < n
        invariant
            n == pat@.len(),
            len == s@.len(),
            i + n <= s@.len(),
            k <= n,
            forall|m: int| 0 <= m < k ==> s@[i + m] == pat@[m],
        decreases n - k,
    {
        if s[i + k] != pat[k] {
            assert(s@.subrange(i as int, i + n)[k as int] != pat@[k as int]);
            return false;
        }
        k += 1;
    }
    assert(s@.subrange(i as int, i + n) =~= pat@);
    true
}

/// The first position at or after `from` where `pat` occurs in `s`.
pub fn find_chars(s: &[char], pat: &[char], from: usize) -> (r: Option<usize>)
    ensures
        match r {
            Some(j) => find_from(s@, pat@, from as int) == Some(j as int),
            None => find_from(s@, pat@, from as int) is None,
        },
{
    let mut i = from;
    while i <= s.len() && pat.len() <= s.len() - i
        invariant
            from <= i,
            find_from(s@, pat@, from as int) == find_from(s@, pat@, i as int),
        decreases s@.len() + 1 - i,
    {
        if match_at(s, pat, i) {
            return Some(i);
        }
        i += 1;
    }
    None
}

/// The marker in front of every version in the listing.
pub open spec fn listing_marker() -> Seq<char> {
    seq!['p', 'h', 'p', '-']
}

/// The end of the file name of a Linux CLI build for `arch`.
pub open spec fn listing_suffix(arch: Seq<char>) -> Seq<char> {
    "-cli-linux-"@ + arch + ".tar.gz"@
}

/// Looks like a version: digits and dots only, at least one dot.
pub open spec fn is_version_token(v: Seq<char>) -> bool {
    &&& v.len() > 0
    &&& v.contains('.')
    &&& forall|k: int| 0 <= k < v.len() ==> is_digit(#[trigger] v[k]) || v[k] == '.'
}

/// The version named by one piece of the listing: the text before the first
/// occurrence of `suffix`, when that text looks like a version.
pub open spec fn chunk_version(chunk: Seq<char>, suffix: Seq<char>) -> Option<Seq<char>> {
    match find_from(chunk, suffix, 0) {
        Some(i) => if is_version_token(chunk.take(i)) { Some(chunk.take(i)) } else { None },
        None => None,
    }
}

/// The versions named by the pieces of `s` from `pos` on, where `pos` is just
/// after a marker: each piece runs up to the next marker (or the end).
pub open spec fn listing_from(s: Seq<char>, suffix: Seq<char>, pos: int) -> Seq<Seq<char>>
    decreases s.len() - pos,
{
    if pos < 0 || pos > s.len() {
        Seq::empty()
    } else {
        let next = find_from(s, listing_marker(), pos);
        let end = match next {
            Some(j) => j,
            None => s.len() as int,
        };
        let here = match chunk_version(s.subrange(pos, end), suffix) {
            Some(v) => seq![v],
            None => Seq::empty(),
        };
        match next {
            Some(j) => {
                proof {
                    lemma_find_from_bounds(s, listing_marker(), pos);
                }
                here + listing_from(s, suffix, j + 4)
            },
            None => here,
        }
    }
}

/// The versions the listing names for builds ending in `suffix`, in order:
/// the pieces of `body.split("php-")` after the first, each cut at its first
/// `suffix` and kept when the cut-off text looks like a version.
pub open spec fn listing_candidates(body: Seq<char>, suffix: Seq<char>) -> Seq<Seq<char>> {
    match find_from(body, listing_marker(), 0) {
        Some(j) => listing_from(body, suffix, j + 4),
        None => Seq::empty(),
    }
}

/// What `parse_listing` returns for a listing `body` and architecture `arch`.
pub open spec fn listing_versions(body: Seq<char>, arch: Seq<char>) -> Seq<Seq<char>> {
    dedup(sort_newest_first(listing_candidates(body, listing_suffix(arch))))
}

proof fn lemma_listing_from_tokens(s: Seq<char>, suffix: Seq<char>, pos: int)
    ensures
        forall|k: int| 0 <= k < listing_from(s, suffix, pos).len() ==> is_version_token(
            #[trigger] listing_from(s, suffix, pos)[k],
        ),
    decreases s.len() - pos,
{
    if !(pos < 0 || pos > s.len()) {
        let next = find_from(s, listing_marker(), pos);
        lemma_find_from_bounds(s, listing_marker(), pos);
        let end = match next {
            Some(j) => j,
            None => s.len() as int,
        };
        let here = match chunk_version(s.subrange(pos, end), suffix) {
            Some(v) => seq![v],
            None => Seq::<Seq<char>>::empty(),
        };
        assert forall|k: int| 0 <= k < here.len() implies is_version_token(#[trigger] here[k]) by {}
        match next {
            Some(j) => {
                lemma_listing_from_tokens(s, suffix, j + 4);
                let rest = listing_from(s, suffix, j + 4);
                let all = listing_from(s, suffix, pos);
                assert(all == here + rest);
                assert forall|k: int| 0 <= k < all.len() implies is_version_token(#[trigger] all[k]) by {
                    if k < here.len() {
                        assert(all[k] == here[k]);
                    } else {
                        assert(all[k] == rest[k - here.len()]);
                    }
                }
            },
            None => {},
        }
    }
}

/// What `parse_listing` returns is newest first, holds exactly the versions
/// the listing names for the architecture, and holds only version-looking
/// strings (digits and dots, with at least one dot).
pub proof fn lemma_listing_versions_laws(body: Seq<char>, arch: Seq<char>)
    ensures
        newest_first(listing_versions(body, arch)),
        forall|y: Seq<char>| listing_versions(body, arch).contains(y) <==> listing_candidates(
            body,
            listing_suffix(arch),
        ).contains(y),
        forall|k: int| 0 <= k < listing_versions(body, arch).len() ==> is_version_token(
            #[trigger] listing_versions(body, arch)[k],
        ),
{
    broadcast use vstd::seq_lib::group_to_multiset_ensures;

    let c = listing_candidates(body, listing_suffix(arch));
    let sorted = sort_newest_first(c);
    lemma_sort_newest_first_laws(c);
    lemma_dedup_laws(sorted);
    match find_from(body, listing_marker(), 0) {
        Some(j) => lemma_listing_from_tokens(body, listing_suffix(arch), j + 4),
        None => {},
    }
    assert forall|y: Seq<char>| sorted.contains(y) <==> c.contains(y) by {
        assert(sorted.to_multiset().count(y) == c.to_multiset().count(y));
    }
    let r = listing_versions(body, arch);
    assert forall|k: int| 0 <= k < r.len() implies is_version_token(#[trigger] r[k]) by {
        assert(r.contains(r[k]));
        assert(c.contains(r[k]));
        let m = choose|m: int| 0 <= m < c.len() && c[m] == r[k];
        assert(is_version_token(c[m]));
    }
}

fn is_version_chars(v: &[char], from: usize, to: usize) -> (r: bool)
    requires
        from <= to <= v@.len(),
    ensures
        r == is_version_token(v@.subrange(from as int, to as int)),
{
    let ghost t = v@.subrange(from as int, to as int);
    if from == to {
        return false;
    }
    let mut has_dot = false;
    let mut i = from;
    while i < to
        invariant
            from <= i <= to <= v@.len(),
            t == v@.subrange(from as int, to as int),
            forall|k: int| 0 <= k < i - from ==> is_digit(#[trigger] t[k]) || t[k] == '.',
            has_dot == exists|k: int| 0 <= k < i - from && t[k] == '.',
        decreases to - i,
    {
        let c = v[i];
        assert(t[i - from] == c);
        if !(('0' <= c && c <= '9') || c == '.') {
            return false;
        }
        if c == '.' {
            has_dot = true;
        }
        i += 1;
    }
    assert(has_dot == t.contains('.'));
    has_dot
}

/// Parse a static-php directory listing into the available full versions,
/// newest first without repeated neighbours. `arch` is e.g. "x86_64" /
/// "aarch64", matched against `-cli-linux-{arch}.tar.gz` entries.
pub fn parse_listing(body: &str, arch: &str) -> (r: Vec<String>)
    ensures
        views(r@) == listing_versions(body@, arch@),
{
    let b = chars_of(body);
    let blen = b.len();
    let marker: Vec<char> = vec!['p', 'h', 'p', '-'];
    assert(marker@ =~= listing_marker());
    let suffix_string = concat(concat("-cli-linux-", arch).as_str(), ".tar.gz");
    let suffix = chars_of(suffix_string.as_str());
    let ghost sfx = listing_suffix(arch@);
    assert(suffix@ == sfx);
    let mut out: Vec<String> = Vec::new();
    let first = find_chars(&b, &marker, 0);
    match first {
        None => {
            return sort_and_dedup(out);
        },
        Some(j) => {
            proof {
                lemma_find_from_bounds(b@, listing_marker(), 0);
                assert(listing_marker().len() == 4);
                assert(find_from(b@, listing_marker(), 0) == Some(j as int));
                assert(j + 4 <= b@.len());
            }
            let mut pos = j + 4;
            loop
                invariant
                    b@ == body@,
                    blen == b@.len(),
                    marker@ == listing_marker(),
                    suffix@ == sfx,
                    sfx == listing_suffix(arch@),
                    pos <= b@.len(),
                    views(out@) + listing_from(b@, sfx, pos as int) == listing_candidates(b@, sfx),
                decreases b@.len() - pos,
            {
                let next = find_chars(&b, &marker, pos);
                proof {
                    lemma_find_from_bounds(b@, listing_marker(), pos as int);
                    assert(listing_marker().len() == 4);
                }
                let end = match next {
                    Some(n) => n,
                    None => b.len(),
                };
                let ghost chunk = b@.subrange(pos as int, end as int);
                let chunk_chars = slice_chars(&b, pos, end);
                let cut = find_chars(&chunk_chars, &suffix, 0);
                let ghost before = views(out@);
                let ghost here = match chunk_version(chunk, sfx) {
                    Some(v) => seq![v],
                    None => Seq::<Seq<char>>::empty(),
                };
                match cut {
                    Some(i) => {
                        proof {
                            lemma_find_from_bounds(chunk, sfx, 0);
                        }
                        if is_version_chars(&chunk_chars, 0, i) {
                            assert(chunk_chars@.subrange(0, i as int) =~= chunk.take(i as int));
                            out.push(string_from_range(&chunk_chars, 0, i));
                            assert(views(out@) =~= before + seq![chunk.take(i as int)]);
                        } else {
                            assert(chunk_chars@.subrange(0, i as int) =~= chunk.take(i as int));
                        }
                    },
                    None => {},
                }
                assert(views(out@) =~= before + here);
                match next {
                    Some(n) => {
                        assert(listing_from(b@, sfx, pos as int) == here + listing_from(b@, sfx, n + 4));
                        assert(views(out@) + listing_from(b@, sfx, n + 4) =~= before + listing_from(
                            b@,
                            sfx,
                            pos as int,
                        ));
                        pos = n + 4;
                    },
                    None => {
                        assert(listing_from(b@, sfx, pos as int) == here);
                        assert(views(out@) =~= before + listing_from(b@, sfx, pos as int));
                        return sort_and_dedup(out);
                    },
                }
            }
        },
    }
}

fn sort_and_dedup(v: Vec<String>) -> (r: Vec<String>)
    ensures
        views(r@) == dedup(sort_newest_first(views(v@))),
{
    dedup_vec(sort_newest_first_vec(v))
}

fn slice_chars(v: &[char], from: usize, to: usize) -> (r: Vec<char>)
    requires
        from <= to <= v@.len(),
    ensures
        r@ == v@.subrange(from as int, to as int),
{
    let mut out: Vec<char> = Vec::new();
    let mut i = from;
    while i < to
        invariant
            from <= i <= to <= v@.len(),
            out@ == v@.subrange(from as int, i as int),
        decreases to - i,
    {
        out.push(v[i]);
        assert(out@ =~= v@.subrange(from as int, i + 1));
        i += 1;
    }
    out
}

/// Where the static Linux builds live.
pub const STATIC_PHP_BASE: &'static str = "https://dl.static-php.dev/static-php-cli/common";

/// The first match of `pat` from `i` on is at `j` when it matches there and
/// nowhere in between.
proof fn lemma_find_from_at(s: Seq<char>, pat: Seq<char>, i: int, j: int)
    requires
        pat.len() > 0,
        0 <= i <= j,
        matches_at(s, pat, j),
        forall|k: int| i <= k < j ==> !matches_at(s, pat, k),
    ensures
        find_from(s, pat, i) == Some(j),
    decreases j - i,
{
    if i < j {
        lemma_find_from_at(s, pat, i + 1, j);
    }
}

/// No match from `i` on means `find_from` finds none.
proof fn lemma_find_from_none(s: Seq<char>, pat: Seq<char>, i: int)
    requires
        pat.len() > 0,
        0 <= i,
        forall|k: int| i <= k ==> !matches_at(s, pat, k),
    ensures
        find_from(s, pat, i) is None,
    decreases s.len() - i,
{
    if i + pat.len() <= s.len() {
        lemma_find_from_none(s, pat, i + 1);
    }
}

/// Where `find_from` finds nothing from `i` on, `pat` matches nowhere there.
proof fn lemma_find_from_none_no_match(s: Seq<char>, pat: Seq<char>, i: int)
    requires
        pat.len() > 0,
        0 <= i,
        find_from(s, pat, i) is None,
    ensures
        forall|k: int| i <= k ==> !matches_at(s, pat, k),
    decreases s.len() - i,
{
    if i + pat.len() <= s.len() {
        lemma_find_from_none_no_match(s, pat, i + 1);
    }
}

/// A match found in `p` is the one found in `p + r`.
proof fn lemma_find_from_extend(p: Seq<char>, r: Seq<char>, pat: Seq<char>, i: int)
    ensures
        find_from(p, pat, i) matches Some(j) ==> find_from(p + r, pat, i) == Some(j),
    decreases p.len() - i,
{
    if !(i < 0 || i + pat.len() > p.len()) {
        assert((p + r).subrange(i, i + pat.len()) =~= p.subrange(i, i + pat.len()));
        if !(pat.len() == 0 || matches_at(p, pat, i)) {
            lemma_find_from_extend(p, r, pat, i + 1);
        }
    }
}

/// `pat` does not match at `k` when the two differ at offset `d`.
proof fn lemma_unmatched_at(s: Seq<char>, pat: Seq<char>, k: int, d: int)
    requires
        0 <= d < pat.len(),
        0 <= k,
        k + d < s.len() ==> s[k + d] != pat[d],
    ensures
        !matches_at(s, pat, k),
{
    if matches_at(s, pat, k) {
        assert(s.subrange(k, k + pat.len())[d] == s[k + d]);
    }
}

/// The fixed start of a static-php.dev download address, and where "php-"
/// occurs in it: at 33 (in "static-php-cli") and at 48, just before the
/// version.
proof fn lemma_static_php_prefix()
    ensures
        STATIC_PHP_BASE@ + "/php-"@ == "https://dl.static-php.dev/static-php-cli/common/php-"@,
        "https://dl.static-php.dev/static-php-cli/common/php-"@.len() == 52,
        find_from("https://dl.static-php.dev/static-php-cli/common/php-"@, listing_marker(), 0) == Some(33int),
        find_from("https://dl.static-php.dev/static-php-cli/common/php-"@, listing_marker(), 37) == Some(48int),
{
    let p = "https://dl.static-php.dev/static-php-cli/common/php-"@;
    let m = listing_marker();
    reveal_strlit("https://dl.static-php.dev/static-php-cli/common");
    reveal_strlit("/php-");
    reveal_strlit("https://dl.static-php.dev/static-php-cli/common/php-");
    assert(STATIC_PHP_BASE@ + "/php-"@ =~= p);
    lemma_unmatched_at(p, m, 0, 0);
    lemma_unmatched_at(p, m, 1, 0);
    lemma_unmatched_at(p, m, 2, 0);
    lemma_unmatched_at(p, m, 3, 1);
    lemma_unmatched_at(p, m, 4, 0);
    lemma_unmatched_at(p, m, 5, 0);
    lemma_unmatched_at(p, m, 6, 0);
    lemma_unmatched_at(p, m, 7, 0);
    lemma_unmatched_at(p, m, 8, 0);
    lemma_unmatched_at(p, m, 9, 0);
    lemma_unmatched_at(p, m, 10, 0);
    lemma_unmatched_at(p, m, 11, 0);
    lemma_unmatched_at(p, m, 12, 0);
    lemma_unmatched_at(p, m, 13, 0);
    lemma_unmatched_at(p, m, 14, 0);
    lemma_unmatched_at(p, m, 15, 0);
    lemma_unmatched_at(p, m, 16, 0);
    lemma_unmatched_at(p, m, 17, 0);
    lemma_unmatched_at(p, m, 18, 3);
    lemma_unmatched_at(p, m, 19, 0);
    lemma_unmatched_at(p, m, 20, 1);
    lemma_unmatched_at(p, m, 21, 0);
    lemma_unmatched_at(p, m, 22, 0);
    lemma_unmatched_at(p, m, 23, 0);
    lemma_unmatched_at(p, m, 24, 0);
    lemma_unmatched_at(p, m, 25, 0);
    lemma_unmatched_at(p, m, 26, 0);
    lemma_unmatched_at(p, m, 27, 0);
    lemma_unmatched_at(p, m, 28, 0);
    lemma_unmatched_at(p, m, 29, 0);
    lemma_unmatched_at(p, m, 30, 0);
    lemma_unmatched_at(p, m, 31, 0);
    lemma_unmatched_at(p, m, 32, 0);
    lemma_unmatched_at(p, m, 37, 0);
    lemma_unmatched_at(p, m, 38, 0);
    lemma_unmatched_at(p, m, 39, 0);
    lemma_unmatched_at(p, m, 40, 0);
    lemma_unmatched_at(p, m, 41, 0);
    lemma_unmatched_at(p, m, 42, 0);
    lemma_unmatched_at(p, m, 43, 0);
    lemma_unmatched_at(p, m, 44, 0);
    lemma_unmatched_at(p, m, 45, 0);
    lemma_unmatched_at(p, m, 46, 0);
    lemma_unmatched_at(p, m, 47, 0);
    assert(p.subrange(33, 37) =~= m);
    assert(p.subrange(48, 52) =~= m);
    lemma_find_from_at(p, m, 0, 33);
    lemma_find_from_at(p, m, 37, 48);
}

/// The static-php.dev address of the build of a version, read back as a
/// listing for the same architecture, names exactly that version — as long
/// as the build's file-name suffix holds no "php-" itself (the listing is
/// cut at every "php-").
pub proof fn lemma_download_url_parses_back(version: Seq<char>, arch: Seq<char>)
    requires
        is_version_token(version),
        find_from(listing_suffix(arch), listing_marker(), 0) is None,
    ensures
        listing_versions(STATIC_PHP_BASE@ + "/php-"@ + version + listing_suffix(arch), arch) == seq![version],
{
    let m = listing_marker();
    let sfx = listing_suffix(arch);
    let p = "https://dl.static-php.dev/static-php-cli/common/php-"@;
    lemma_static_php_prefix();
    reveal_strlit("-cli-linux-");
    reveal_strlit(".tar.gz");
    let rest = version + sfx;
    let url = p + rest;
    assert(STATIC_PHP_BASE@ + "/php-"@ + version + sfx =~= url);
    assert(sfx.len() >= 18);
    assert(sfx[0] == '-');
    // The markers inside the fixed prefix, at 33 and 48, are those of the
    // whole address.
    lemma_find_from_extend(p, rest, m, 0);
    lemma_find_from_extend(p, rest, m, 37);
    // No marker after the prefix.
    lemma_find_from_none_no_match(sfx, m, 0);
    assert forall|k: int| 52 <= k implies !matches_at(url, m, k) by {
        if matches_at(url, m, k) {
            assert(url.subrange(k, k + 4)[0] == 'p');
            assert(url[k] == 'p');
            if k - 52 < version.len() {
                assert(url[k] == version[k - 52]);
                assert(is_digit(version[k - 52]) || version[k - 52] == '.');
            } else {
                let q = k - 52 - version.len();
                assert(url.subrange(k, k + 4) =~= sfx.subrange(q, q + 4));
                assert(matches_at(sfx, m, q));
            }
        }
    }
    lemma_find_from_none(url, m, 52);
    // The piece between the two markers names no build.
    let middle = url.subrange(37, 48);
    assert(find_from(middle, sfx, 0) is None);
    assert(chunk_version(middle, sfx) is None);
    // The last piece names the version.
    let last = url.subrange(52, url.len() as int);
    assert(last =~= rest);
    assert forall|k: int| 0 <= k < version.len() implies !matches_at(rest, sfx, k) by {
        if matches_at(rest, sfx, k) {
            assert(rest.subrange(k, k + sfx.len())[0] == sfx[0]);
            assert(rest[k] == version[k]);
            assert(is_digit(version[k]) || version[k] == '.');
        }
    }
    assert(rest.subrange(version.len() as int, (version.len() + sfx.len()) as int) =~= sfx);
    lemma_find_from_at(rest, sfx, 0, version.len() as int);
    assert(rest.take(version.len() as int) =~= version);
    assert(chunk_version(last, sfx) == Some(version));
    assert(listing_from(url, sfx, 52) =~= seq![version]);
    assert(listing_from(url, sfx, 37) =~= seq![version]);
    assert(listing_candidates(url, sfx) =~= seq![version]);
    let one = seq![version];
    let none = Seq::<Seq<char>>::empty();
    assert(one.drop_last() =~= none);
    assert(sort_newest_first(none) == none);
    assert(insert_newest_first(none, version) == one);
    assert(sort_newest_first(one) == one);
    assert(dedup(none) == none);
    assert(none.push(version) =~= one);
    assert(dedup(one) == one);
}

/// Where the Windows builds are downloaded from.
pub const WINDOWS_DOWNLOAD_BASE: &'static str = "https://windows.php.net/downloads/releases";

/// The release catalogue of the Windows builds.
pub const WINDOWS_RELEASES_JSON: &'static str = "https://downloads.php.net/~windows/releases/releases.json";

/// The static-php.dev listing page.
pub fn listing_url() -> (r: String)
    ensures
        r@ == STATIC_PHP_BASE@ + "/"@,
{
    concat(STATIC_PHP_BASE, "/")
}

/// Download address of the Linux CLI build of `version` for `arch`:
/// `{base}/php-{version}-cli-linux-{arch}.tar.gz`.
pub fn download_url(version: &str, arch: &str) -> (r: String)
    ensures
        r@ == STATIC_PHP_BASE@ + "/php-"@ + version@ + listing_suffix(arch@),
{
    let a = concat(STATIC_PHP_BASE, "/php-");
    let b = concat(a.as_str(), version);
    let c = concat(b.as_str(), "-cli-linux-");
    let d = concat(c.as_str(), arch);
    concat(d.as_str(), ".tar.gz")
}

/// Download address of a Windows build file: `{base}/{file}`.
pub fn windows_download_url(file: &str) -> (r: String)
    ensures
        r@ == WINDOWS_DOWNLOAD_BASE@ + "/"@ + file@,
{
    concat(concat(WINDOWS_DOWNLOAD_BASE, "/").as_str(), file)
}

/// Why a PHP catalogue or download could not be used.
#[derive(Debug, Clone, PartialEq, Eq)]
pub enum PhpError {
    /// The static-php listing names no build for this architecture.
    NoListingBuilds,
    /// The Windows catalogue names no build.
    NoWindowsBuilds,
    /// The Windows catalogue has no build of this version.
    NotAvailableForWindows(String),
}

impl PhpError {
    /// The text shown to the user.
    pub fn message(&self) -> (r: String)
        ensures
            match self {
                PhpError::NoListingBuilds => r@ == "no PHP builds found in static-php listing"@,
                PhpError::NoWindowsBuilds => r@ == "no Windows PHP builds found"@,
                PhpError::NotAvailableForWindows(v) => r@ == "PHP "@ + v@ + " not available for Windows"@,
            },
    {
        match self {
            PhpError::NoListingBuilds => String::from_str("no PHP builds found in static-php listing"),
            PhpError::NoWindowsBuilds => String::from_str("no Windows PHP builds found"),
            PhpError::NotAvailableForWindows(v) => concat(
                concat("PHP ", v.as_str()).as_str(),
                " not available for Windows",
            ),
        }
    }
}

/// The installable versions named by a static-php listing, newest first;
/// refused when there are none.
pub fn listing_catalogue(body: &str, arch: &str) -> (r: Result<Vec<String>, PhpError>)
    ensures
        listing_versions(body@, arch@).len() == 0 ==> r matches Err(PhpError::NoListingBuilds),
        listing_versions(body@, arch@).len() > 0 ==> (r matches Ok(v) && views(v@) == listing_versions(body@, arch@)),
{
    let v = parse_listing(body, arch);
    if v.len() == 0 {
        Err(PhpError::NoListingBuilds)
    } else {
        Ok(v)
    }
}

// ── Windows catalogue ───────────────────────────────────────────────────────

/// One build listed under a release branch: its key (such as
/// "nts-vs17-x64") and the path of its zip, when it has one.
#[derive(Debug, Clone, PartialEq, Eq)]
pub struct WindowsBuild {
    pub key: String,
    pub zip_path: Option<String>,
}

/// One release branch of the Windows catalogue.
#[derive(Debug, Clone, PartialEq, Eq)]
pub struct WindowsBranch {
    pub version: Option<String>,
    pub builds: Vec<WindowsBuild>,
}

/// What `str::to_lowercase` returns for `s` (full Unicode case mapping).
pub uninterp spec fn lowercase(s: Seq<char>) -> Seq<char>;

/// `str::to_lowercase`: `s` in lower case. Claims only that the result is
/// the Unicode lower-case mapping of `s`, named by `lowercase`.
#[verifier::external_body]
fn to_lowercase(s: &str) -> (r: String)
    ensures
        r@ == lowercase(s@),
{
    s.to_lowercase()
}

/// `pat` occurs somewhere in `s`.
pub open spec fn occurs_in(s: Seq<char>, pat: Seq<char>) -> bool {
    find_from(s, pat, 0) is Some
}

/// Whether `pat` occurs in `s`.
pub fn contains_text(s: &str, pat: &str) -> (r: bool)
    ensures
        r == occurs_in(s@, pat@),
{
    let a = chars_of(s);
    let b = chars_of(pat);
    find_chars(&a, &b, 0).is_some()
}

/// The key names a non-thread-safe x64 build.
pub open spec fn is_nts_x64(key: Seq<char>) -> bool {
    occurs_in(lowercase(key), "nts"@) && occurs_in(lowercase(key), "x64"@)
}

/// The zip path of the first build of `builds` whose key names a
/// non-thread-safe x64 build and that has a zip.
pub open spec fn nts_x64_zip(builds: Seq<WindowsBuild>) -> Option<Seq<char>>
    decreases builds.len(),
{
    if builds.len() == 0 {
        None
    } else if is_nts_x64(builds[0].key@) && builds[0].zip_path is Some {
        Some(builds[0].zip_path->0@)
    } else {
        nts_x64_zip(builds.drop_first())
    }
}

fn pick_nts_x64(builds: &Vec<WindowsBuild>) -> (r: Option<String>)
    ensures
        match r {
            Some(p) => nts_x64_zip(builds@) == Some(p@),
            None => nts_x64_zip(builds@) is None,
        },
{
    let mut i: usize = 0;
    assert(builds@.skip(0) =~= builds@);
    while i < builds.len()
        invariant
            i <= builds@.len(),
            nts_x64_zip(builds@) == nts_x64_zip(builds@.skip(i as int)),
        decreases builds@.len() - i,
    {
        assert(builds@.skip(i as int).drop_first() =~= builds@.skip(i + 1));
        assert(builds@.skip(i as int)[0] == builds@[i as int]);
        let kl = to_lowercase(builds[i].key.as_str());
        if contains_text(kl.as_str(), "nts") && contains_text(kl.as_str(), "x64") {
            match &builds[i].zip_path {
                Some(p) => {
                    return Some(p.clone());
                },
                None => {},
            }
        }
        i += 1;
    }
    None
}

/// (version, zip path) for each branch that names its version and has a
/// non-thread-safe x64 build, in catalogue order.
pub open spec fn windows_releases_spec(branches: Seq<WindowsBranch>) -> Seq<(Seq<char>, Seq<char>)>
    decreases branches.len(),
{
    if branches.len() == 0 {
        Seq::empty()
    } else {
        let prev = windows_releases_spec(branches.drop_last());
        let b = branches.last();
        match b.version {
            Some(v) => match nts_x64_zip(b.builds@) {
                Some(p) => prev.push((v@, p)),
                None => prev,
            },
            None => prev,
        }
    }
}

/// A release as (version, zip path).
pub open spec fn release_spec(r: (String, String)) -> (Seq<char>, Seq<char>) {
    (r.0@, r.1@)
}

/// (full version, zip filename) for each branch's NTS x64 build.
pub fn windows_releases(branches: &Vec<WindowsBranch>) -> (r: Vec<(String, String)>)
    ensures
        r@.map_values(|x: (String, String)| release_spec(x)) == windows_releases_spec(branches@),
{
    let mut out: Vec<(String, String)> = Vec::new();
    let mut i: usize = 0;
    while i < branches.len()
        invariant
            i <= branches@.len(),
            out@.map_values(|x: (String, String)| release_spec(x)) == windows_releases_spec(branches@.take(i as int)),
        decreases branches@.len() - i,
    {
        assert(branches@.take(i + 1).drop_last() =~= branches@.take(i as int));
        assert(branches@.take(i + 1).last() == branches@[i as int]);
        match &branches[i].version {
            Some(v) => match pick_nts_x64(&branches[i].builds) {
                Some(p) => {
                    let ghost before = out@;
                    out.push((v.clone(), p));
                    assert(out@.map_values(|x: (String, String)| release_spec(x)) =~= before.map_values(
                        |x: (String, String)| release_spec(x),
                    ).push((v@, out@.last().1@)));
                },
                None => {},
            },
            None => {},
        }
        i += 1;
    }
    assert(branches@.take(branches@.len() as int) =~= branches@);
    out
}

/// The versions of the Windows catalogue, newest first without repeated
/// neighbours; refused when there are none.
pub fn windows_versions(releases: &Vec<(String, String)>) -> (r: Result<Vec<String>, PhpError>)
    ensures
        releases@.len() == 0 ==> r matches Err(PhpError::NoWindowsBuilds),
        releases@.len() > 0 ==> (r matches Ok(v) && views(v@) == dedup(
            sort_newest_first(releases@.map_values(|x: (String, String)| x.0@)),
        )),
{
    let mut v: Vec<String> = Vec::new();
    let mut i: usize = 0;
    while i < releases.len()
        invariant
            i <= releases@.len(),
            views(v@) == releases@.take(i as int).map_values(|x: (String, String)| x.0@),
        decreases releases@.len() - i,
    {
        let ghost before = v@;
        let x = releases[i].0.clone();
        assert(x@ == releases@[i as int].0@);
        v.push(x);
        assert(views(v@) =~= views(before).push(releases@[i as int].0@));
        assert(releases@.take(i + 1).map_values(|x: (String, String)| x.0@) =~= releases@.take(i as int).map_values(
            |x: (String, String)| x.0@,
        ).push(releases@[i as int].0@));
        i += 1;
    }
    assert(releases@.take(releases@.len() as int) =~= releases@);
    if v.len() == 0 {
        return Err(PhpError::NoWindowsBuilds);
    }
    Ok(sort_and_dedup(v))
}

/// The zip file of the first release of exactly `version`.
pub open spec fn release_file(releases: Seq<(String, String)>, version: Seq<char>) -> Option<Seq<char>>
    decreases releases.len(),
{
    if releases.len() == 0 {
        None
    } else if releases[0].0@ == version {
        Some(releases[0].1@)
    } else {
        release_file(releases.drop_first(), version)
    }
}

/// The build named for a version is the zip of the first release whose
/// version is exactly that version; there is none exactly when no release
/// has that version.
pub proof fn lemma_release_file_exact(releases: Seq<(String, String)>, version: Seq<char>)
    ensures
        release_file(releases, version) matches Some(f) ==> exists|i: int|
            0 <= i < releases.len() && (#[trigger] releases[i]).0@ == version && releases[i].1@ == f
                && forall|j: int| 0 <= j < i ==> (#[trigger] releases[j]).0@ != version,
        release_file(releases, version) is None <==> forall|i: int|
            0 <= i < releases.len() ==> (#[trigger] releases[i]).0@ != version,
    decreases releases.len(),
{
    if releases.len() > 0 {
        let rest = releases.drop_first();
        lemma_release_file_exact(rest, version);
        assert forall|i: int| 0 <= i < rest.len() implies rest[i] == releases[i + 1] by {}
        if releases[0].0@ != version {
            if let Some(f) = release_file(releases, version) {
                let i = choose|i: int|
                    0 <= i < rest.len() && (#[trigger] rest[i]).0@ == version && rest[i].1@ == f
                        && forall|j: int| 0 <= j < i ==> (#[trigger] rest[j]).0@ != version;
                assert(releases[i + 1] == rest[i]);
                assert forall|j: int| 0 <= j < i + 1 implies (#[trigger] releases[j]).0@ != version by {
                    if j > 0 {
                        assert(releases[j] == rest[j - 1]);
                    }
                }
            }
            if release_file(releases, version) is None {
                assert forall|i: int| 0 <= i < releases.len() implies (#[trigger] releases[i]).0@ != version by {
                    if i > 0 {
                        assert(releases[i] == rest[i - 1]);
                    }
                }
            } else {
                let f = release_file(releases, version)->0;
                let i = choose|i: int|
                    0 <= i < rest.len() && (#[trigger] rest[i]).0@ == version && rest[i].1@ == f
                        && forall|j: int| 0 <= j < i ==> (#[trigger] rest[j]).0@ != version;
                assert(releases[i + 1].0@ == version);
            }
        } else {
            assert(releases[0].0@ == version);
        }
    }
}

/// The zip file to download for `version`: that of the first release whose
/// version is exactly `version`; refused when no release has that version.
pub fn windows_release_file(releases: &Vec<(String, String)>, version: &str) -> (r: Result<String, PhpError>)
    ensures
        match release_file(releases@, version@) {
            Some(f) => r matches Ok(x) && x@ == f,
            None => r matches Err(PhpError::NotAvailableForWindows(v)) && v@ == version@,
        },
        r matches Ok(x) ==> exists|i: int|
            0 <= i < releases@.len() && (#[trigger] releases@[i]).0@ == version@ && releases@[i].1@ == x@
                && forall|j: int| 0 <= j < i ==> (#[trigger] releases@[j]).0@ != version@,
        (forall|i: int| 0 <= i < releases@.len() ==> (#[trigger] releases@[i]).0@ != version@) ==> (r matches Err(
            PhpError::NotAvailableForWindows(v),
        ) && v@ == version@),
{
    proof {
        lemma_release_file_exact(releases@, version@);
    }
    let mut i: usize = 0;
    assert(releases@.skip(0) =~= releases@);
    while i < releases.len()
        invariant
            i <= releases@.len(),
            release_file(releases@, version@) == release_file(releases@.skip(i as int), version@),
            forall|j: int| 0 <= j < i ==> (#[trigger] releases@[j]).0@ != version@,
        decreases releases@.len() - i,
    {
        assert(releases@.skip(i as int).drop_first() =~= releases@.skip(i + 1));
        assert(releases@.skip(i as int)[0] == releases@[i as int]);
        if str_eq(releases[i].0.as_str(), version) {
            let f = releases[i].1.clone();
            assert(releases@[i as int].0@ == version@ && releases@[i as int].1@ == f@);
            return Ok(f);
        }
        i += 1;
    }
    Err(PhpError::NotAvailableForWindows(String::from_str(version)))
}

/// `s` with every '\' turned into '/'.
pub open spec fn forward_slashes(s: Seq<char>) -> Seq<char> {
    s.map_values(|c: char| if c == '\\' { '/' } else { c })
}

/// The extensions the Windows php.ini enables, in order.
pub open spec fn ini_extensions() -> Seq<Seq<char>> {
    seq![
        "mbstring"@, "openssl"@, "curl"@, "gd"@, "fileinfo"@, "sqlite3"@, "pdo_sqlite"@, "exif"@,
        "zip"@, "intl"@,
    ]
}

/// One `extension=` line per name.
pub open spec fn extension_lines(names: Seq<Seq<char>>) -> Seq<char>
    decreases names.len(),
{
    if names.len() == 0 {
        Seq::empty()
    } else {
        extension_lines(names.drop_last()) + "extension="@ + names.last() + "\n"@
    }
}

/// The php.ini written next to php.exe: `extension_dir` pointing at the
/// absolute ext folder (with forward slashes), then the extensions
/// FrontPress needs.
pub open spec fn php_ini_spec(ext_dir: Seq<char>) -> Seq<char> {
    "extension_dir=\""@ + forward_slashes(ext_dir) + "\"\n"@ + extension_lines(ini_extensions())
}

/// The contents of the Windows php.ini for an ext folder.
pub fn php_ini_contents(ext_dir: &str) -> (r: String)
    ensures
        r@ == php_ini_spec(ext_dir@),
{
    let cs = chars_of(ext_dir);
    let mut fixed: Vec<char> = Vec::new();
    let mut i: usize = 0;
    while i < cs.len()
        invariant
            i <= cs@.len(),
            fixed@ == forward_slashes(cs@.take(i as int)),
        decreases cs@.len() - i,
    {
        let c = cs[i];
        fixed.push(if c == '\\' { '/' } else { c });
        assert(fixed@ =~= forward_slashes(cs@.take(i + 1)));
        i += 1;
    }
    assert(cs@.take(cs@.len() as int) =~= cs@);
    let ext = crate::text::string_from_chars(&fixed);
    let mut ini = concat(concat("extension_dir=\"", ext.as_str()).as_str(), "\"\n");
    let names = ["mbstring", "openssl", "curl", "gd", "fileinfo", "sqlite3", "pdo_sqlite", "exif", "zip", "intl"];
    let ghost head = ini@;
    let mut k: usize = 0;
    while k < 10
        invariant
            k <= 10,
            names@.map_values(|n: &str| n@) == ini_extensions(),
            ini@ == head + extension_lines(ini_extensions().take(k as int)),
        decreases 10 - k,
    {
        assert(ini_extensions().take(k + 1).drop_last() =~= ini_extensions().take(k as int));
        assert(names@[k as int]@ == ini_extensions()[k as int]);
        let line = concat(concat("extension=", names[k]).as_str(), "\n");
        ini = concat(ini.as_str(), line.as_str());
        k += 1;
    }
    assert(ini_extensions().take(10) =~= ini_extensions());
    ini
}

} // verus!
