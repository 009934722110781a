//! Dotted version strings such as "8.3.10": their numeric ordering, their
//! "major.minor" prefix and the minimum-version check.
//!
//! A version is split at every '.'; each component counts as its decimal
//! value when it is a non-empty run of ASCII digits that fits in a `u32`, and
//! as 0 otherwise. Versions are ordered by comparing these component lists
//! lexicographically, a list that is a proper prefix of another being the
//! smaller one ("8.3" < "8.3.0").

use vstd::prelude::*;
use crate::text::{chars_of, is_digit, digit_value, string_from_range};

verus! {

/// The pieces of `s` between dots, as `s.split('.')` yields them.
pub open spec fn split_dots(s: Seq<char>) -> Seq<Seq<char>>
    decreases s.len(),
{
    if s.len() == 0 {
        seq![Seq::<char>::empty()]
    } else {
        let p = split_dots(s.drop_last());
        if s.last() == '.' {
            p.push(Seq::<char>::empty())
        } else {
            p.update(p.len() - 1, p.last().push(s.last()))
        }
    }
}

/// The decimal value of a run of digit characters.
pub open spec fn digits_num(p: Seq<char>) -> nat
    decreases p.len(),
{
    if p.len() == 0 {
        0
    } else {
        digits_num(p.drop_last()) * 10 + digit_value(p.last())
    }
}

/// Every character of `p` is an ASCII digit.
pub open spec fn all_digits(p: Seq<char>) -> bool {
    forall|k: int| 0 <= k < p.len() ==> is_digit(#[trigger] p[k])
}

/// The numeric value of one version component (0 when it is not a number
/// that fits in a `u32`).
pub open spec fn part_value(p: Seq<char>) -> u32 {
    if p.len() > 0 && all_digits(p) && digits_num(p) <= u32::MAX {
        digits_num(p) as u32
    } else {
        0
    }
}

/// The numeric components of a version string.
pub open spec fn version_key(s: Seq<char>) -> Seq<u32> {
    split_dots(s).map_values(|p: Seq<char>| part_value(p))
}

/// Lexicographic comparison of component lists: -1, 0 or 1.
pub open spec fn lex_order(a: Seq<u32>, b: Seq<u32>) -> int
    decreases a.len(),
{
    if a.len() == 0 {
        if b.len() == 0 { 0 } else { -1 }
    } else if b.len() == 0 {
        1
    } else if a[0] < b[0] {
        -1
    } else if a[0] > b[0] {
        1
    } else {
        lex_order(a.drop_first(), b.drop_first())
    }
}

/// Comparison of two version strings by their numeric components.
pub open spec fn version_order(a: Seq<char>, b: Seq<char>) -> int {
    lex_order(version_key(a), version_key(b))
}

/// `v` is the same version as `min` or a newer one.
pub open spec fn at_least(v: Seq<char>, min: Seq<char>) -> bool {
    version_order(v, min) >= 0
}

/// How many '.' characters `s` holds.
pub open spec fn dot_count(s: Seq<char>) -> nat
    decreases s.len(),
{
    if s.len() == 0 {
        0
    } else {
        dot_count(s.drop_last()) + if s.last() == '.' { 1nat } else { 0nat }
    }
}

/// The "major.minor" part of a version: everything before its second dot
/// (the whole string when it has fewer than two dots).
pub open spec fn minor_of_spec(s: Seq<char>) -> Seq<char>
    decreases s.len(),
{
    if dot_count(s) < 2 {
        s
    } else {
        minor_of_spec(s.drop_last())
    }
}

// ── Order laws ──────────────────────────────────────────────────────────────

/// `lex_order` is -1, 0 or 1, is 0 exactly on equal lists, and swapping the
/// arguments negates it.
pub proof fn lemma_lex_order_basics(a: Seq<u32>, b: Seq<u32>)
    ensures
        -1 <= lex_order(a, b) <= 1,
        lex_order(a, b) == -lex_order(b, a),
        (lex_order(a, b) == 0) == (a == b),
    decreases a.len(),
{
    if a.len() > 0 && b.len() > 0 && a[0] == b[0] {
        lemma_lex_order_basics(a.drop_first(), b.drop_first());
        if a.drop_first() == b.drop_first() {
            assert(a =~= seq![a[0]] + a.drop_first());
            assert(b =~= seq![b[0]] + b.drop_first());
        }
    }
    if a.len() == 0 && b.len() == 0 {
        assert(a =~= b);
    }
}

/// `lex_order` orders lists transitively.
pub proof fn lemma_lex_order_trans(a: Seq<u32>, b: Seq<u32>, c: Seq<u32>)
    ensures
        lex_order(a, b) <= 0 && lex_order(b, c) <= 0 ==> lex_order(a, c) <= 0,
        lex_order(a, b) < 0 && lex_order(b, c) <= 0 ==> lex_order(a, c) < 0,
        lex_order(a, b) <= 0 && lex_order(b, c) < 0 ==> lex_order(a, c) < 0,
    decreases a.len(),
{
    if a.len() > 0 && b.len() > 0 && c.len() > 0 {
        lemma_lex_order_trans(a.drop_first(), b.drop_first(), c.drop_first());
    }
}

/// Version comparison is a total preorder: reflexive, antisymmetric in sign,
/// and transitive.
pub proof fn lemma_version_order_order(a: Seq<char>, b: Seq<char>, c: Seq<char>)
    ensures
        version_order(a, a) == 0,
        version_order(a, b) == -version_order(b, a),
        version_order(a, b) <= 0 && version_order(b, c) <= 0 ==> version_order(a, c) <= 0,
        version_order(a, b) < 0 && version_order(b, c) <= 0 ==> version_order(a, c) < 0,
        version_order(a, b) <= 0 && version_order(b, c) < 0 ==> version_order(a, c) < 0,
{
    lemma_lex_order_basics(version_key(a), version_key(a));
    lemma_lex_order_basics(version_key(a), version_key(b));
    lemma_lex_order_trans(version_key(a), version_key(b), version_key(c));
}

/// The minimum-version check is reflexive and transitive.
pub proof fn lemma_at_least_order(a: Seq<char>, b: Seq<char>, c: Seq<char>)
    ensures
        at_least(a, a),
        at_least(a, b) && at_least(b, c) ==> at_least(a, c),
        at_least(a, b) || at_least(b, a),
{
    lemma_version_order_order(a, b, c);
    lemma_version_order_order(c, b, a);
    lemma_version_order_order(b, a, c);
}

// ── Parsing ─────────────────────────────────────────────────────────────────

proof fn lemma_split_dots_nonempty(s: Seq<char>)
    ensures
        split_dots(s).len() >= 1,
    decreases s.len(),
{
    if s.len() > 0 {
        lemma_split_dots_nonempty(s.drop_last());
    }
}

proof fn lemma_digits_num_grows(p: Seq<char>, c: char)
    ensures
        digits_num(p.push(c)) == digits_num(p) * 10 + digit_value(c),
        digits_num(p.push(c)) >= digits_num(p),
{
    assert(p.push(c).drop_last() =~= p);
}

/// The numeric components of `v`, as compared by the version order.
pub fn parse_version(v: &str) -> (r: Vec<u32>)
    ensures
        r@ == version_key(v@),
{
    let cs = chars_of(v);
    let mut out: Vec<u32> = Vec::new();
    let ghost mut done: Seq<Seq<char>> = Seq::empty();
    let ghost mut cur: Seq<char> = Seq::empty();
    let mut acc: u64 = 0;
    let mut digits_only = true;
    let mut too_big = false;
    let mut len: usize = 0;
    let mut i: usize = 0;
    while i < cs.len()
        invariant
            cs@ == v@,
            i <= cs@.len(),
            split_dots(cs@.take(i as int)) == done.push(cur),
            out@ == done.map_values(|p: Seq<char>| part_value(p)),
            len == cur.len(),
            len <= i,
            digits_only == all_digits(cur),
            digits_only && !too_big ==> acc == digits_num(cur) && acc <= u32::MAX,
            digits_only && too_big ==> digits_num(cur) > u32::MAX,
        decreases cs@.len() - i,
    {
        let c = cs[i];
        proof {
            assert(cs@.take(i + 1).drop_last() =~= cs@.take(i as int));
            assert(cs@.take(i + 1).last() == c);
        }
        if c == '.' {
            let value: u32 = if len > 0 && digits_only && !too_big { acc as u32 } else { 0 };
            out.push(value);
            proof {
                done = done.push(cur);
                cur = Seq::empty();
            }
            acc = 0;
            digits_only = true;
            too_big = false;
            len = 0;
            assert(out@ =~= done.map_values(|p: Seq<char>| part_value(p)));
        } else {
            proof {
                lemma_split_dots_nonempty(cs@.take(i as int));
                lemma_digits_num_grows(cur, c);
                let prev = cur;
                cur = cur.push(c);
                assert(all_digits(cur) == (all_digits(prev) && is_digit(c))) by {
                    if all_digits(prev) && is_digit(c) {
                        assert forall|k: int| 0 <= k < cur.len() implies is_digit(#[trigger] cur[k]) by {
                            if k < prev.len() {
                                assert(cur[k] == prev[k]);
                            }
                        }
                    }
                    if all_digits(cur) {
                        assert(is_digit(cur[cur.len() - 1]));
                        assert forall|k: int| 0 <= k < prev.len() implies is_digit(#[trigger] prev[k]) by {
                            assert(cur[k] == prev[k]);
                        }
                    }
                }
            }
            len = len + 1;
            if '0' <= c && c <= '9' {
                if digits_only && !too_big {
                    let d: u64 = if c == '0' { 0 } else if c == '1' { 1 } else if c == '2' { 2 }
                        else if c == '3' { 3 } else if c == '4' { 4 } else if c == '5' { 5 }
                        else if c == '6' { 6 } else if c == '7' { 7 } else if c == '8' { 8 }
                        else { 9 };
                    assert(d == digit_value(c));
                    let next = acc * 10 + d;
                    if next > 0xffff_ffff {
                        too_big = true;
                    } else {
                        acc = next;
                    }
                }
            } else {
                digits_only = false;
            }
            assert(done.push(cur) =~= split_dots(cs@.take(i + 1)));
        }
        i += 1;
    }
    let value: u32 = if len > 0 && digits_only && !too_big { acc as u32 } else { 0 };
    out.push(value);
    proof {
        assert(cs@.take(cs@.len() as int) =~= cs@);
        assert(out@ =~= done.push(cur).map_values(|p: Seq<char>| part_value(p)));
    }
    out
}

/// Lexicographic comparison of two component lists: -1, 0 or 1.
pub fn compare_keys(a: &[u32], b: &[u32]) -> (r: i8)
    ensures
        r == lex_order(a@, b@),
{
    let mut i: usize = 0;
    assert(a@.skip(0) =~= a@);
    assert(b@.skip(0) =~= b@);
    while i < a.len() && i < b.len()
        invariant
            i <= a@.len(),
            i <= b@.len(),
            lex_order(a@, b@) == lex_order(a@.skip(i as int), b@.skip(i as int)),
        decreases a@.len() - i,
    {
        if a[i] < b[i] {
            return -1;
        }
        if a[i] > b[i] {
            return 1;
        }
        assert(a@.skip(i as int).drop_first() =~= a@.skip(i + 1));
        assert(b@.skip(i as int).drop_first() =~= b@.skip(i + 1));
        i += 1;
    }
    if i < a.len() {
        1
    } else if i < b.len() {
        -1
    } else {
        0
    }
}

/// Compares two versions by their numeric components: -1 when `a` is older,
/// 0 when they are the same version, 1 when `a` is newer.
pub fn compare_versions(a: &str, b: &str) -> (r: i8)
    ensures
        r == version_order(a@, b@),
{
    let ka = parse_version(a);
    let kb = parse_version(b);
    compare_keys(ka.as_slice(), kb.as_slice())
}

/// True when `v` is the version `min` or newer.
pub fn version_at_least(v: &str, min: &str) -> (r: bool)
    ensures
        r == at_least(v@, min@),
{
    compare_versions(v, min) >= 0
}

proof fn lemma_dot_count_mono(s: Seq<char>, i: int, j: int)
    requires
        0 <= i <= j <= s.len(),
    ensures
        dot_count(s.take(i)) <= dot_count(s.take(j)),
    decreases j - i,
{
    if i < j {
        lemma_dot_count_mono(s, i, j - 1);
        assert(s.take(j).drop_last() =~= s.take(j - 1));
    }
}

proof fn lemma_minor_of_stops(s: Seq<char>, i: int, j: int)
    requires
        0 <= i < s.len(),
        s[i] == '.',
        dot_count(s.take(i)) == 1,
        i + 1 <= j <= s.len(),
    ensures
        minor_of_spec(s.take(j)) == s.take(i),
    decreases j - i,
{
    assert(s.take(i + 1).drop_last() =~= s.take(i));
    assert(s.take(i + 1).last() == '.');
    assert(dot_count(s.take(i + 1)) == 2);
    assert(minor_of_spec(s.take(i)) == s.take(i));
    if j == i + 1 {
        assert(minor_of_spec(s.take(i + 1)) == minor_of_spec(s.take(i)));
    } else {
        lemma_minor_of_stops(s, i, j - 1);
        lemma_dot_count_mono(s, i + 1, j);
        assert(s.take(j).drop_last() =~= s.take(j - 1));
        assert(minor_of_spec(s.take(j)) == minor_of_spec(s.take(j - 1)));
    }
}

/// The "major.minor" prefix of a version string ("8.3.9" gives "8.3").
pub fn minor_of(v: &str) -> (r: String)
    ensures
        r@ == minor_of_spec(v@),
{
    let cs = chars_of(v);
    let mut dots: usize = 0;
    let mut i: usize = 0;
    while i < cs.len()
        invariant
            cs@ == v@,
            i <= cs@.len(),
            dots == dot_count(cs@.take(i as int)),
            dots < 2,
        decreases cs@.len() - i,
    {
        assert(cs@.take(i + 1).drop_last() =~= cs@.take(i as int));
        if cs[i] == '.' {
            if dots == 1 {
                proof {
                    lemma_minor_of_stops(cs@, i as int, cs@.len() as int);
                    assert(cs@.take(cs@.len() as int) =~= cs@);
                }
                return string_from_range(&cs, 0, i);
            }
            dots += 1;
        }
        i += 1;
    }
    assert(cs@.take(cs@.len() as int) =~= cs@);
    assert(cs@.subrange(0, cs@.len() as int) =~= cs@);
    string_from_range(&cs, 0, cs.len())
}

/// Taking the "major.minor" prefix twice changes nothing.
pub proof fn lemma_minor_of_idempotent(s: Seq<char>)
    ensures
        dot_count(minor_of_spec(s)) < 2,
        minor_of_spec(minor_of_spec(s)) == minor_of_spec(s),
    decreases s.len(),
{
    if dot_count(s) >= 2 {
        lemma_minor_of_idempotent(s.drop_last());
    }
}

} // verus!
