//! Device set reconciler for families with hierarchical naming: suppress
//! device-mapper aliases and every identifier that extends another identifier
//! (a partition extends its disk), then sort what remains lexicographically.

use vstd::prelude::*;

verus! {

/// The view of every string in the sequence, in order.
pub open spec fn views_of(v: Seq<String>) -> Seq<Seq<char>> {
    v.map_values(|s: String| s@)
}

/// No two strings in the sequence read the same.
pub open spec fn distinct_views(v: Seq<String>) -> bool {
    forall|p: int, q: int| 0 <= p < q < v.len() ==> views_of(v)[p] != views_of(v)[q]
}

/// Some string in the sequence reads `k`.
pub open spec fn contains_view(v: Seq<String>, k: Seq<char>) -> bool {
    exists|i: int| 0 <= i < v.len() && #[trigger] views_of(v)[i] == k
}

/// `k` names a device-mapper volume: it begins with the alias prefix `dm-`.
pub open spec fn spec_is_alias(k: Seq<char>) -> bool {
    k.len() >= 3 && k[0] == 'd' && k[1] == 'm' && k[2] == '-'
}

/// `k` should be reported standalone among the identifiers `all`: it is not a
/// device-mapper alias, and no other identifier is a prefix of it (such a
/// prefix names the parent device and `k` a partition of it).
pub open spec fn spec_canonical(k: Seq<char>, all: Seq<Seq<char>>) -> bool {
    &&& !spec_is_alias(k)
    &&& !(exists|j: int| 0 <= j < all.len() && all[j] != k && #[trigger] all[j].is_prefix_of(k))
}

/// `k` should be reported standalone among the identifier set `dom`: the
/// same condition as [`spec_canonical`], stated over a set of identifiers.
pub open spec fn spec_canonical_in(k: Seq<char>, dom: Set<Seq<char>>) -> bool {
    &&& !spec_is_alias(k)
    &&& !(exists|o: Seq<char>| dom.contains(o) && o != k && #[trigger] o.is_prefix_of(k))
}

pub proof fn lemma_canonical_set(k: Seq<char>, all: Seq<Seq<char>>, dom: Set<Seq<char>>)
    requires
        forall|o: Seq<char>| #[trigger] dom.contains(o) <==> all.contains(o),
    ensures
        spec_canonical(k, all) == spec_canonical_in(k, dom),
{
    if exists|j: int| 0 <= j < all.len() && all[j] != k && #[trigger] all[j].is_prefix_of(k) {
        let j = choose|j: int|
            0 <= j < all.len() && all[j] != k && #[trigger] all[j].is_prefix_of(k);
        assert(all.contains(all[j]));
        assert(exists|o: Seq<char>| dom.contains(o) && o != k && #[trigger] o.is_prefix_of(k));
    }
    if exists|o: Seq<char>| dom.contains(o) && o != k && #[trigger] o.is_prefix_of(k) {
        let o = choose|o: Seq<char>| dom.contains(o) && o != k && #[trigger] o.is_prefix_of(k);
        assert(all.contains(o));
        let j = choose|j: int| 0 <= j < all.len() && #[trigger] all[j] == o;
        assert(all[j].is_prefix_of(k));
    }
}

/// Strict lexicographic order on character sequences, by code point.
pub open spec fn lex_lt(a: Seq<char>, b: Seq<char>) -> bool
    decreases a.len(),
{
    if b.len() == 0 {
        false
    } else if a.len() == 0 {
        true
    } else if a[0] == b[0] {
        lex_lt(a.skip(1), b.skip(1))
    } else {
        a[0] < b[0]
    }
}

pub proof fn lemma_lex_total(a: Seq<char>, b: Seq<char>)
    ensures
        lex_lt(a, b) || lex_lt(b, a) || a == b,
    decreases a.len(),
{
    if a.len() == 0 || b.len() == 0 {
        if a.len() == 0 && b.len() == 0 {
            assert(a =~= b);
        }
    } else if a[0] == b[0] {
        lemma_lex_total(a.skip(1), b.skip(1));
        if !lex_lt(a, b) && !lex_lt(b, a) {
            assert(a.skip(1) == b.skip(1));
            assert forall|i: int| 0 <= i < a.len() implies a[i] == b[i] by {
                if i > 0 {
                    assert(a[i] == a.skip(1)[i - 1]);
                    assert(b[i] == b.skip(1)[i - 1]);
                }
            }
            assert(a =~= b);
        }
    }
}

pub proof fn lemma_lex_trans(a: Seq<char>, b: Seq<char>, c: Seq<char>)
    requires
        lex_lt(a, b),
        lex_lt(b, c),
    ensures
        lex_lt(a, c),
    decreases a.len(),
{
    if a.len() == 0 || b.len() == 0 || c.len() == 0 {
    } else if a[0] == b[0] && b[0] == c[0] {
        lemma_lex_trans(a.skip(1), b.skip(1), c.skip(1));
    }
}

#[verifier::loop_isolation(false)]
fn is_alias(k: &String) -> (r: bool)
    ensures
        r == spec_is_alias(k@),
{
    let s = k.as_str();
    let len = s.unicode_len();
    if len < 3 {
        false
    } else {
        s.get_char(0) == 'd' && s.get_char(1) == 'm' && s.get_char(2) == '-'
    }
}

#[verifier::loop_isolation(false)]
pub(crate) fn is_prefix(a: &str, b: &str) -> (r: bool)
    ensures
        r == a@.is_prefix_of(b@),
{
    let sa = a;
    let sb = b;
    let la = sa.unicode_len();
    let lb = sb.unicode_len();
    if la > lb {
        return false;
    }
    let mut i: usize = 0;
    while i < la
        invariant
            i <= la,
            la == a@.len(),
            lb == b@.len(),
            la <= lb,
            forall|j: int| 0 <= j < i ==> a@[j] == b@[j],
        decreases la - i,
    {
        if sa.get_char(i) != sb.get_char(i) {
            proof {
                assert(b@.subrange(0, la as int)[i as int] == b@[i as int]);
            }
            return false;
        }
        i = i + 1;
    }
    proof {
        assert(a@ =~= b@.subrange(0, la as int));
    }
    true
}

#[verifier::loop_isolation(false)]
fn str_lex_lt(a: &String, b: &String) -> (r: bool)
    ensures
        r == lex_lt(a@, b@),
{
    let sa = a.as_str();
    let sb = b.as_str();
    let la = sa.unicode_len();
    let lb = sb.unicode_len();
    let mut i: usize = 0;
    proof {
        assert(a@.skip(0) =~= a@);
        assert(b@.skip(0) =~= b@);
    }
    while i < la && i < lb
        invariant
            i <= la,
            i <= lb,
            la == a@.len(),
            lb == b@.len(),
            lex_lt(a@, b@) == lex_lt(a@.skip(i as int), b@.skip(i as int)),
        decreases la - i,
    {
        let ca = sa.get_char(i);
        let cb = sb.get_char(i);
        proof {
            assert(a@.skip(i as int)[0] == a@[i as int]);
            assert(b@.skip(i as int)[0] == b@[i as int]);
        }
        if ca != cb {
            return ca < cb;
        }
        proof {
            assert(a@.skip(i as int).skip(1) =~= a@.skip(i as int + 1));
            assert(b@.skip(i as int).skip(1) =~= b@.skip(i as int + 1));
        }
        i = i + 1;
    }
    proof {
        if i == lb {
            assert(b@.skip(i as int).len() == 0);
        } else {
            assert(a@.skip(i as int).len() == 0);
            assert(b@.skip(i as int).len() > 0);
        }
    }
    i < lb
}

proof fn lemma_insert_index(s: Seq<Seq<char>>, pos: int, elt: Seq<char>)
    requires
        0 <= pos <= s.len(),
    ensures
        s.insert(pos, elt).len() == s.len() + 1,
        s.insert(pos, elt)[pos] == elt,
        forall|t: int| 0 <= t < pos ==> #[trigger] s.insert(pos, elt)[t] == s[t],
        forall|t: int| pos < t <= s.len() ==> #[trigger] s.insert(pos, elt)[t] == s[t - 1],
{
    s.insert_ensures(pos, elt);
    assert forall|t: int| pos < t <= s.len() implies #[trigger] s.insert(pos, elt)[t] == s[t
        - 1] by {
        assert(s.insert(pos, elt)[(t - 1) + 1] == s[t - 1]);
    }
}

#[verifier::loop_isolation(false)]
pub(crate) fn sort_keys(keys: Vec<String>) -> (r: Vec<String>)
    requires
        distinct_views(keys@),
    ensures
        r@.len() == keys@.len(),
        forall|p: int, q: int| 0 <= p < q < r@.len() ==> lex_lt(views_of(r@)[p], views_of(r@)[q]),
        forall|k: Seq<char>| contains_view(r@, k) <==> contains_view(keys@, k),
{
    let n = keys.len();
    let mut r: Vec<String> = Vec::new();
    let mut i: usize = 0;
    while i < n
        invariant
            distinct_views(keys@),
            i <= n,
            n == keys@.len(),
            r@.len() == i,
            forall|p: int, q: int|
                0 <= p < q < r@.len() ==> lex_lt(views_of(r@)[p], views_of(r@)[q]),
            forall|k: Seq<char>|
                contains_view(r@, k) <==> (exists|j: int|
                    0 <= j < i && #[trigger] views_of(keys@)[j] == k),
        decreases n - i,
    {
        let key = keys[i].clone();
        assert(views_of(keys@)[i as int] == key@);
        assert(!contains_view(r@, key@));
        let m = r.len();
        let mut pos: usize = m;
        let mut j: usize = 0;
        while j < m
            invariant
                j <= m,
                m == r@.len(),
                pos == m || pos < j,
                pos == m ==> forall|t: int| 0 <= t < j ==> !lex_lt(key@, views_of(r@)[t]),
                pos < m ==> lex_lt(key@, views_of(r@)[pos as int]),
                pos < m ==> forall|t: int| 0 <= t < pos ==> !lex_lt(key@, views_of(r@)[t]),
            decreases m - j,
        {
            if pos == m && str_lex_lt(&key, &r[j]) {
                pos = j;
            }
            j = j + 1;
        }
        let ghost old_r = r@;
        r.insert(pos, key);
        proof {
            assert(views_of(r@) =~= views_of(old_r).insert(pos as int, key@));
            lemma_insert_index(views_of(old_r), pos as int, key@);
            assert forall|p: int, q: int| 0 <= p < q < r@.len() implies lex_lt(
                views_of(r@)[p],
                views_of(r@)[q],
            ) by {
                let vp = views_of(r@)[p];
                let vq = views_of(r@)[q];
                if p == pos {
                    if q == pos + 1 {
                        assert(vq == views_of(old_r)[pos as int]);
                    } else {
                        lemma_lex_trans(
                            key@,
                            views_of(old_r)[pos as int],
                            views_of(old_r)[q - 1],
                        );
                    }
                } else if q == pos {
                    assert(vp == views_of(old_r)[p]);
                    assert(!lex_lt(key@, vp));
                    assert(vp != key@);
                    lemma_lex_total(vp, key@);
                } else if p < pos && q > pos {
                    assert(vp == views_of(old_r)[p]);
                    assert(vq == views_of(old_r)[q - 1]);
                    if p == q - 1 {
                        assert(!lex_lt(key@, vp));
                        assert(vp != key@);
                        lemma_lex_total(vp, key@);
                        assert(lex_lt(vp, key@));
                        assert(lex_lt(key@, vq));
                        lemma_lex_trans(vp, key@, vq);
                    } else {
                        assert(lex_lt(views_of(old_r)[p], views_of(old_r)[q - 1]));
                    }
                } else if q < pos {
                    assert(vp == views_of(old_r)[p]);
                    assert(vq == views_of(old_r)[q]);
                } else {
                    assert(vp == views_of(old_r)[p - 1]);
                    assert(vq == views_of(old_r)[q - 1]);
                }
            }
            assert forall|k: Seq<char>| contains_view(r@, k) implies (exists|j2: int|
                0 <= j2 < i + 1 && #[trigger] views_of(keys@)[j2] == k) by {
                let t = choose|t: int| 0 <= t < r@.len() && #[trigger] views_of(r@)[t] == k;
                assert(views_of(r@)[t] == views_of(old_r).insert(pos as int, key@)[t]);
                if t == pos {
                    assert(k == key@);
                    assert(views_of(keys@)[i as int] == k);
                    assert(exists|j2: int|
                        0 <= j2 < i + 1 && #[trigger] views_of(keys@)[j2] == k);
                } else if t < pos {
                    assert(views_of(old_r)[t] == k);
                    assert(contains_view(old_r, k));
                    assert(exists|j2: int|
                        0 <= j2 < i + 1 && #[trigger] views_of(keys@)[j2] == k);
                } else {
                    assert(views_of(old_r)[t - 1] == k);
                    assert(contains_view(old_r, k));
                    assert(exists|j2: int|
                        0 <= j2 < i + 1 && #[trigger] views_of(keys@)[j2] == k);
                }
            }
            assert forall|k: Seq<char>| (exists|j2: int|
                0 <= j2 < i + 1 && #[trigger] views_of(keys@)[j2] == k) implies contains_view(
                r@,
                k,
            ) by {
                let j2 = choose|j2: int| 0 <= j2 < i + 1 && #[trigger] views_of(keys@)[j2] == k;
                if j2 == i {
                    assert(views_of(r@)[pos as int] == views_of(old_r).insert(
                        pos as int,
                        key@,
                    )[pos as int]);
                    assert(views_of(r@)[pos as int] == k);
                } else {
                    assert(contains_view(old_r, k));
                    let t = choose|t: int|
                        0 <= t < old_r.len() && #[trigger] views_of(old_r)[t] == k;
                    if t < pos {
                        assert(views_of(r@)[t] == views_of(old_r).insert(pos as int, key@)[t]);
                        assert(views_of(r@)[t] == k);
                    } else {
                        assert(views_of(r@)[t + 1] == views_of(old_r).insert(
                            pos as int,
                            key@,
                        )[t + 1]);
                        assert(views_of(r@)[t + 1] == k);
                    }
                }
            }
        }
        i = i + 1;
    }
    r
}

/// The canonical identifiers among `keys`, lexicographically sorted: aliases
/// and identifiers that extend another identifier are suppressed.
#[verifier::loop_isolation(false)]
pub fn reconcile(keys: &Vec<String>) -> (r: Vec<String>)
    requires
        distinct_views(keys@),
    ensures
        forall|p: int, q: int| 0 <= p < q < r@.len() ==> lex_lt(views_of(r@)[p], views_of(r@)[q]),
        forall|k: Seq<char>|
            contains_view(r@, k) <==> (contains_view(keys@, k) && spec_canonical(
                k,
                views_of(keys@),
            )),
{
    let n = keys.len();
    let mut kept: Vec<String> = Vec::new();
    let mut i: usize = 0;
    while i < n
        invariant
            distinct_views(keys@),
            i <= n,
            n == keys@.len(),
            distinct_views(kept@),
            forall|k: Seq<char>|
                contains_view(kept@, k) <==> ((exists|j: int|
                    0 <= j < i && #[trigger] views_of(keys@)[j] == k) && spec_canonical(
                    k,
                    views_of(keys@),
                )),
        decreases n - i,
    {
        let key = &keys[i];
        assert(views_of(keys@)[i as int] == key@);
        let mut suppressed = is_alias(key);
        let mut j: usize = 0;
        while j < n
            invariant
                distinct_views(keys@),
                j <= n,
                n == keys@.len(),
                i < n,
                key@ == views_of(keys@)[i as int],
                suppressed == (spec_is_alias(key@) || (exists|t: int|
                    0 <= t < j && views_of(keys@)[t] != key@ && #[trigger] views_of(
                        keys@,
                    )[t].is_prefix_of(key@))),
            decreases n - j,
        {
            if j != i && is_prefix(keys[j].as_str(), key.as_str()) {
                proof {
                    assert(views_of(keys@)[j as int] != views_of(keys@)[i as int]);
                }
                suppressed = true;
            }
            proof {
                if j == i {
                    assert(views_of(keys@)[j as int] == key@);
                }
            }
            j = j + 1;
        }
        if !suppressed {
            let ghost old_kept = kept@;
            kept.push(key.clone());
            proof {
                assert(views_of(kept@) =~= views_of(old_kept).push(key@));
                assert(!contains_view(old_kept, key@));
                assert forall|p: int, q: int| 0 <= p < q < kept@.len() implies views_of(
                    kept@,
                )[p] != views_of(kept@)[q] by {
                    if q < kept@.len() - 1 {
                        assert(views_of(kept@)[p] == views_of(old_kept)[p]);
                        assert(views_of(kept@)[q] == views_of(old_kept)[q]);
                    } else {
                        assert(views_of(kept@)[p] == views_of(old_kept)[p]);
                        assert(views_of(old_kept)[p] != key@);
                    }
                }
                assert forall|k: Seq<char>| contains_view(kept@, k) implies ((exists|j2: int|
                    0 <= j2 < i + 1 && #[trigger] views_of(keys@)[j2] == k) && spec_canonical(
                    k,
                    views_of(keys@),
                )) by {
                    let t = choose|t: int|
                        0 <= t < kept@.len() && #[trigger] views_of(kept@)[t] == k;
                    if t == kept@.len() - 1 {
                        assert(k == key@);
                        assert(views_of(keys@)[i as int] == k);
                    } else {
                        assert(views_of(old_kept)[t] == k);
                        assert(contains_view(old_kept, k));
                    }
                }
                assert forall|k: Seq<char>| ((exists|j2: int|
                    0 <= j2 < i + 1 && #[trigger] views_of(keys@)[j2] == k) && spec_canonical(
                    k,
                    views_of(keys@),
                )) implies contains_view(kept@, k) by {
                    let j2 = choose|j2: int|
                        0 <= j2 < i + 1 && #[trigger] views_of(keys@)[j2] == k;
                    if j2 == i {
                        assert(views_of(kept@)[kept@.len() - 1] == k);
                    } else {
                        assert(contains_view(old_kept, k));
                        let t = choose|t: int|
                            0 <= t < old_kept.len() && #[trigger] views_of(old_kept)[t] == k;
                        assert(views_of(kept@)[t] == k);
                    }
                }
            }
        } else {
            proof {
                assert(!spec_canonical(key@, views_of(keys@)));
                assert forall|k: Seq<char>| contains_view(kept@, k) implies ((exists|j2: int|
                    0 <= j2 < i + 1 && #[trigger] views_of(keys@)[j2] == k) && spec_canonical(
                    k,
                    views_of(keys@),
                )) by {}
                assert forall|k: Seq<char>| ((exists|j2: int|
                    0 <= j2 < i + 1 && #[trigger] views_of(keys@)[j2] == k) && spec_canonical(
                    k,
                    views_of(keys@),
                )) implies contains_view(kept@, k) by {
                    let j2 = choose|j2: int|
                        0 <= j2 < i + 1 && #[trigger] views_of(keys@)[j2] == k;
                    if j2 == i {
                        assert(k == key@);
                        assert(false);
                    }
                }
            }
        }
        i = i + 1;
    }
    sort_keys(kept)
}

} // verus!
