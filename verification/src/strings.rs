//! Verified string helpers for key handling, plus the trusted case-folding
//! calls that key normalisation relies on.

use vstd::prelude::*;

verus! {

/// `p` is a prefix of `s`.
pub open spec fn is_prefix(p: Seq<char>, s: Seq<char>) -> bool {
    p.len() <= s.len() && s.take(p.len() as int) == p
}

/// `s` with every leading repetition of the (non-empty) separator removed;
/// with an empty separator, `s` itself.
pub open spec fn trim_prefix(s: Seq<char>, sep: Seq<char>) -> Seq<char>
    decreases s.len(),
{
    if sep.len() > 0 && is_prefix(sep, s) && s.len() > 0 {
        trim_prefix(s.skip(sep.len() as int), sep)
    } else {
        s
    }
}

/// Position of the first occurrence of `c`, or -1.
pub open spec fn first_pos(s: Seq<char>, c: char) -> int
    decreases s.len(),
{
    if s.len() == 0 {
        -1
    } else if s[0] == c {
        0
    } else {
        let r = first_pos(s.drop_first(), c);
        if r == -1 {
            -1
        } else {
            1 + r
        }
    }
}

/// `first_pos` stays within the string.
pub proof fn lemma_first_pos_bounds(s: Seq<char>, c: char)
    ensures
        -1 <= first_pos(s, c) < s.len(),
    decreases s.len(),
{
    if s.len() > 0 && s[0] != c {
        lemma_first_pos_bounds(s.drop_first(), c);
    }
}

/// Where position `i` holds `c` and no earlier position does, `first_pos` is
/// `i`.
pub proof fn lemma_first_pos_at(s: Seq<char>, c: char, i: int)
    requires
        0 <= i < s.len(),
        s[i] == c,
        forall|j: int| 0 <= j < i ==> s[j] != c,
    ensures
        first_pos(s, c) == i,
    decreases i,
{
    if i > 0 {
        assert(forall|j: int| 0 <= j < s.drop_first().len() ==> s.drop_first()[j] == s[j + 1]);
        lemma_first_pos_at(s.drop_first(), c, i - 1);
    }
}

/// Where no position holds `c`, `first_pos` is -1.
pub proof fn lemma_first_pos_none(s: Seq<char>, c: char)
    requires
        forall|j: int| 0 <= j < s.len() ==> s[j] != c,
    ensures
        first_pos(s, c) == -1,
    decreases s.len(),
{
    if s.len() > 0 {
        assert(forall|j: int| 0 <= j < s.drop_first().len() ==> s.drop_first()[j] == s[j + 1]);
        lemma_first_pos_none(s.drop_first(), c);
    }
}

/// Find the first occurrence of `c`, as `first_pos` denotes it.
#[verifier::loop_isolation(false)]
pub fn str_find_first(s: &str, c: char) -> (r: Option<usize>)
    ensures
        match r {
            Some(j) => j < s@.len() && first_pos(s@, c) == j as int,
            None => first_pos(s@, c) == -1,
        },
{
    let n = s.unicode_len();
    let mut i: usize = 0;
    while i < n
        invariant
            i <= n,
            n == s@.len(),
            forall|j: int| 0 <= j < i ==> s@[j] != c,
        decreases n - i,
    {
        if s.get_char(i) == c {
            proof {
                lemma_first_pos_at(s@, c, i as int);
            }
            return Some(i);
        }
        i = i + 1;
    }
    proof {
        lemma_first_pos_none(s@, c);
    }
    None
}

/// The Unicode uppercasing of a string, as `str::to_uppercase` computes it;
/// the result depends on the characters alone.
pub uninterp spec fn upper_of(s: Seq<char>) -> Seq<char>;

/// The Unicode lowercasing of a string, as `str::to_lowercase` computes it;
/// the result depends on the characters alone.
pub uninterp spec fn lower_of(s: Seq<char>) -> Seq<char>;

/// Relies on str::to_uppercase: locale-independent Unicode uppercasing, a
/// function of the characters alone.
#[verifier::external_body]
pub fn to_upper(s: &str) -> (r: String)
    ensures
        r@ == upper_of(s@),
{
    s.to_uppercase()
}

/// Relies on str::to_lowercase: locale-independent Unicode lowercasing, a
/// function of the characters alone.
#[verifier::external_body]
pub fn to_lower(s: &str) -> (r: String)
    ensures
        r@ == lower_of(s@),
{
    s.to_lowercase()
}

/// Character-for-character string equality.
pub fn str_eq(a: &str, b: &str) -> (r: bool)
    ensures
        r == (a@ == b@),
{
    let an = a.unicode_len();
    let bn = b.unicode_len();
    if an != bn {
        proof {
            assert(a@ != b@);
        }
        return false;
    }
    let mut i: usize = 0;
    while i < an
        invariant
            i <= an,
            an == a@.len(),
            an == b@.len(),
            forall|j: int| 0 <= j < i ==> a@[j] == b@[j],
        decreases an - i,
    {
        if a.get_char(i) != b.get_char(i) {
            return false;
        }
        i = i + 1;
    }
    proof {
        assert(a@ =~= b@);
    }
    true
}

/// Does `s` start with `p`?
pub fn str_starts_with(s: &str, p: &str) -> (r: bool)
    ensures
        r == is_prefix(p@, s@),
{
    let sn = s.unicode_len();
    let pn = p.unicode_len();
    if pn > sn {
        return false;
    }
    let mut i: usize = 0;
    while i < pn
        invariant
            i <= pn,
            pn == p@.len(),
            sn == s@.len(),
            pn <= sn,
            forall|j: int| 0 <= j < i ==> s@[j] == p@[j],
        decreases pn - i,
    {
        if s.get_char(i) != p.get_char(i) {
            proof {
                assert(s@.take(p@.len() as int)[i as int] == s@[i as int]);
            }
            return false;
        }
        i = i + 1;
    }
    proof {
        assert(s@.take(p@.len() as int) =~= p@);
    }
    true
}

/// The tail of `s` after its first `n` characters.
pub fn str_skip<'a>(s: &'a str, n: usize) -> (r: &'a str)
    requires
        n <= s@.len(),
    ensures
        r@ == s@.skip(n as int),
{
    let len = s.unicode_len();
    s.substring_char(n, len)
}

/// Strip every leading repetition of `sep` from `s`.
pub fn str_trim_start_matches<'a>(s: &'a str, sep: &str) -> (r: &'a str)
    ensures
        r@ == trim_prefix(s@, sep@),
{
    let sep_len = sep.unicode_len();
    if sep_len == 0 {
        return s;
    }
    let mut cur = s;
    while cur.unicode_len() > 0 && str_starts_with(cur, sep)
        invariant
            sep_len == sep@.len(),
            sep_len > 0,
            trim_prefix(s@, sep@) == trim_prefix(cur@, sep@),
        decreases cur@.len(),
    {
        cur = str_skip(cur, sep_len);
    }
    cur
}

/// Elementwise model of a string-to-string table.
pub open spec fn smap_model(s: Seq<(String, String)>) -> Seq<(Seq<char>, Seq<char>)> {
    Seq::new(s.len(), |i: int| (s[i].0@, s[i].1@))
}

/// Position of the first entry of `es` whose key equals `k`, as `obj_index`
/// denotes it.
pub fn smap_index(es: &Vec<(String, String)>, k: &str) -> (r: Option<usize>)
    ensures
        match r {
            Some(j) => j < es@.len() && crate::value::obj_index(smap_model(es@), k@) == j as int,
            None => crate::value::obj_index(smap_model(es@), k@) == -1,
        },
{
    let ghost m = smap_model(es@);
    let mut i: usize = 0;
    while i < es.len()
        invariant
            i <= es.len(),
            m == smap_model(es@),
            forall|j: int| 0 <= j < i ==> (#[trigger] m[j]).0 != k@,
        decreases es.len() - i,
    {
        if str_eq(es[i].0.as_str(), k) {
            proof {
                crate::value::lemma_obj_index_first(m, k@, i as int);
            }
            return Some(i);
        }
        i = i + 1;
    }
    proof {
        crate::value::lemma_obj_index_none(m, k@);
    }
    None
}

/// The value stored under `k` in a string-to-string table, first entry wins.
pub fn smap_get<'a>(es: &'a Vec<(String, String)>, k: &str) -> (r: Option<&'a String>)
    ensures
        match r {
            Some(v) => crate::value::obj_get(smap_model(es@), k@) == Some(v@),
            None => crate::value::obj_get(smap_model(es@), k@) is None,
        },
{
    match smap_index(es, k) {
        Some(j) => Some(&es[j].1),
        None => None,
    }
}

/// Store `v` under `k` in a string-to-string table, as `obj_set` denotes it.
pub fn smap_set(es: &mut Vec<(String, String)>, k: String, v: String)
    ensures
        smap_model(final(es)@) == crate::value::obj_set(smap_model(old(es)@), k@, v@),
{
    let ghost m0 = smap_model(old(es)@);
    match smap_index(es, k.as_str()) {
        Some(j) => {
            es.remove(j);
            es.insert(j, (k, v));
            proof {
                assert(smap_model(es@) =~= m0.update(j as int, (k@, v@)));
            }
        },
        None => {
            es.push((k, v));
            proof {
                assert(smap_model(es@) =~= m0.push((k@, v@)));
            }
        },
    }
}

/// `a` followed by `b`.
pub fn str_concat(a: &str, b: &str) -> (r: String)
    ensures
        r@ == a@ + b@,
{
    let mut out = a.to_owned();
    out.append(b);
    out
}

} // verus!
