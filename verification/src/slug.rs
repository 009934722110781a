//! Turning a site name into the slug used for its folder.
//!
//! ASCII letters and digits are kept (letters lower-cased); every run of
//! other characters between two kept characters becomes a single '-'; nothing
//! else is kept. A name with no ASCII letter or digit gives "site".

use vstd::prelude::*;
use crate::text::{chars_of, is_alnum, string_from_range};

verus! {

/// `c` lower-cased when it is an ASCII capital, unchanged otherwise.
pub open spec fn ascii_lower(c: char) -> char {
    if 'A' <= c && c <= 'Z' {
        ((c as u32) + 32) as char
    } else {
        c
    }
}

/// The slug characters produced by `s`, before a trailing '-' is dropped.
pub open spec fn slug_chars(s: Seq<char>) -> Seq<char>
    decreases s.len(),
{
    if s.len() == 0 {
        Seq::empty()
    } else {
        let p = slug_chars(s.drop_last());
        let c = s.last();
        if is_alnum(c) {
            p.push(ascii_lower(c))
        } else if p.len() > 0 && p.last() != '-' {
            p.push('-')
        } else {
            p
        }
    }
}

/// `p` without a final '-'.
pub open spec fn drop_dash(p: Seq<char>) -> Seq<char> {
    if p.len() > 0 && p.last() == '-' {
        p.drop_last()
    } else {
        p
    }
}

/// The slug of a site name.
pub open spec fn slugify_spec(s: Seq<char>) -> Seq<char> {
    let t = drop_dash(slug_chars(s));
    if t.len() == 0 {
        seq!['s', 'i', 't', 'e']
    } else {
        t
    }
}

/// A slug character: lower-case ASCII letter, digit or '-'.
pub open spec fn is_slug_char(c: char) -> bool {
    ('a' <= c && c <= 'z') || ('0' <= c && c <= '9') || c == '-'
}

/// Slug characters only, not starting with '-' and without two '-' in a row.
pub open spec fn slug_body(t: Seq<char>) -> bool {
    &&& forall|k: int| 0 <= k < t.len() ==> is_slug_char(#[trigger] t[k])
    &&& t.len() > 0 ==> t[0] != '-'
    &&& forall|k: int| 0 <= k < t.len() - 1 ==> !(#[trigger] t[k] == '-' && t[k + 1] == '-')
}

/// A well-formed slug: non-empty, slug characters only, no '-' at either
/// end and no two '-' in a row.
pub open spec fn is_slug(t: Seq<char>) -> bool {
    &&& t.len() > 0
    &&& slug_body(t)
    &&& t.last() != '-'
}

fn lower_ascii(c: char) -> (r: char)
    ensures
        r == ascii_lower(c),
{
    if 'A' <= c && c <= 'Z' {
        ((c as u8) + 32) as char
    } else {
        c
    }
}

/// The slug of a site name ("My Site!" gives "my-site").
pub fn slugify(name: &str) -> (r: String)
    ensures
        r@ == slugify_spec(name@),
{
    let cs = chars_of(name);
    let mut out: Vec<char> = Vec::new();
    let mut i: usize = 0;
    while i < cs.len()
        invariant
            cs@ == name@,
            i <= cs@.len(),
            out@ == slug_chars(cs@.take(i as int)),
        decreases cs@.len() - i,
    {
        let c = cs[i];
        assert(cs@.take(i + 1).drop_last() =~= cs@.take(i as int));
        assert(cs@.take(i + 1).last() == c);
        if ('0' <= c && c <= '9') || ('a' <= c && c <= 'z') || ('A' <= c && c <= 'Z') {
            out.push(lower_ascii(c));
        } else {
            let n = out.len();
            if n > 0 && out[n - 1] != '-' {
                out.push('-');
            }
        }
        i += 1;
    }
    assert(cs@.take(cs@.len() as int) =~= cs@);
    let n = out.len();
    let end = if n > 0 && out[n - 1] == '-' { n - 1 } else { n };
    assert(out@.subrange(0, end as int) =~= drop_dash(out@));
    if end == 0 {
        let r = String::from_str("site");
        proof {
            reveal_strlit("site");
        }
        assert(r@ =~= seq!['s', 'i', 't', 'e']);
        r
    } else {
        string_from_range(&out, 0, end)
    }
}

proof fn lemma_slug_chars_body(s: Seq<char>)
    ensures
        slug_body(slug_chars(s)),
    decreases s.len(),
{
    if s.len() > 0 {
        lemma_slug_chars_body(s.drop_last());
        let p = slug_chars(s.drop_last());
        let r = slug_chars(s);
        assert forall|k: int| 0 <= k < r.len() implies is_slug_char(#[trigger] r[k]) by {
            if k < p.len() {
                assert(r[k] == p[k]);
            }
        }
        assert forall|k: int| 0 <= k < r.len() - 1 implies !(#[trigger] r[k] == '-' && r[k + 1] == '-') by {
            if k + 1 < p.len() {
                assert(r[k] == p[k] && r[k + 1] == p[k + 1]);
            } else {
                assert(r[k] == p[k]);
            }
        }
        if r.len() > 0 && p.len() > 0 {
            assert(r[0] == p[0]);
        }
    }
}

/// Every slug is well formed.
pub proof fn lemma_slugify_is_slug(s: Seq<char>)
    ensures
        is_slug(slugify_spec(s)),
{
    lemma_slug_chars_body(s);
    let p = slug_chars(s);
    let t = drop_dash(p);
    if t.len() > 0 {
        assert forall|k: int| 0 <= k < t.len() implies is_slug_char(#[trigger] t[k]) by {
            assert(t[k] == p[k]);
        }
        assert forall|k: int| 0 <= k < t.len() - 1 implies !(#[trigger] t[k] == '-' && t[k + 1] == '-') by {
            assert(t[k] == p[k] && t[k + 1] == p[k + 1]);
        }
        assert(t[0] == p[0]);
        if p.len() > 0 && p.last() == '-' {
            if t.last() == '-' {
                assert(p[p.len() - 2] == '-' && p[p.len() - 1] == '-');
            }
        }
    } else {
        let site = seq!['s', 'i', 't', 'e'];
        assert forall|k: int| 0 <= k < site.len() - 1 implies !(#[trigger] site[k] == '-' && site[k + 1] == '-') by {}
    }
}

proof fn lemma_slug_chars_fixed(t: Seq<char>)
    requires
        slug_body(t),
    ensures
        slug_chars(t) == t,
    decreases t.len(),
{
    if t.len() > 0 {
        let p = t.drop_last();
        assert(slug_body(p)) by {
            assert forall|k: int| 0 <= k < p.len() implies is_slug_char(#[trigger] p[k]) by {
                assert(p[k] == t[k]);
            }
            assert forall|k: int| 0 <= k < p.len() - 1 implies !(#[trigger] p[k] == '-' && p[k + 1] == '-') by {
                assert(p[k] == t[k] && p[k + 1] == t[k + 1]);
            }
            if p.len() > 0 {
                assert(p[0] == t[0]);
            }
        }
        lemma_slug_chars_fixed(p);
        let c = t.last();
        assert(is_slug_char(t[t.len() - 1]));
        if c == '-' {
            assert(p.len() > 0);
            assert(p.last() == t[t.len() - 2]);
        }
        assert(t =~= p.push(c));
    }
}

/// Slugifying a slug gives it back: `slugify` is idempotent.
pub proof fn lemma_slugify_idempotent(s: Seq<char>)
    ensures
        slugify_spec(slugify_spec(s)) == slugify_spec(s),
{
    let t = slugify_spec(s);
    lemma_slugify_is_slug(s);
    lemma_slug_chars_fixed(t);
    assert(drop_dash(t) == t);
}

} // verus!
