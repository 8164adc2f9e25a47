use vstd::prelude::*;
use crate::models::{ContentKey, Entry};

verus! {

/// A listing as plain values: each entry's key and content tag.
pub open spec fn listing(entries: Seq<Entry>) -> Seq<(Seq<Seq<char>>, Seq<char>)> {
    entries.map_values(|e: Entry| e@)
}

/// The views of a list of keys.
pub open spec fn keys_view(v: Seq<ContentKey>) -> Seq<Seq<Seq<char>>> {
    v.map_values(|k: ContentKey| k@)
}

/// The content tag of an explicit namespace marker.
pub open spec fn namespace_tag() -> Seq<char> {
    seq!['N', 'A', 'M', 'E', 'S', 'P', 'A', 'C', 'E']
}

/// The content tag of a table marker.
pub open spec fn table_tag() -> Seq<char> {
    seq!['I', 'C', 'E', 'B', 'E', 'R', 'G', '_', 'T', 'A', 'B', 'L', 'E']
}

/// `k` begins with the segments of `p` and has more of them.
pub open spec fn extends(p: Seq<Seq<char>>, k: Seq<Seq<char>>) -> bool {
    p.len() < k.len() && k.take(p.len() as int) == p
}

/// `p` is a non-empty prefix of `k` that leaves at least the last segment out.
pub open spec fn is_strict_prefix(p: Seq<Seq<char>>, k: Seq<Seq<char>>) -> bool {
    1 <= p.len() && extends(p, k)
}

/// Some entry's key lies below `ns`: the namespace is implied by a key.
pub open spec fn implied_by(l: Seq<(Seq<Seq<char>>, Seq<char>)>, ns: Seq<Seq<char>>) -> bool {
    exists|i: int| 0 <= i < l.len() && is_strict_prefix(ns, #[trigger] l[i].0)
}

/// An entry stores an explicit namespace marker at `ns`.
pub open spec fn marked_in(l: Seq<(Seq<Seq<char>>, Seq<char>)>, ns: Seq<Seq<char>>) -> bool {
    exists|i: int| 0 <= i < l.len() && #[trigger] l[i].0 == ns && l[i].1 == namespace_tag()
}

/// The namespace `ns` exists in the listing, implicitly or explicitly.
pub open spec fn namespace_exists_in(l: Seq<(Seq<Seq<char>>, Seq<char>)>, ns: Seq<Seq<char>>) -> bool {
    ns.len() >= 1 && (implied_by(l, ns) || marked_in(l, ns))
}

/// `n` is listed under `parent`: any key when there is none, else a key
/// strictly below it.
pub open spec fn under(parent: Option<Seq<Seq<char>>>, n: Seq<Seq<char>>) -> bool {
    match parent {
        None => true,
        Some(p) => extends(p, n),
    }
}

/// Whether the two keys have the same segments.
pub fn keys_equal(a: &ContentKey, b: &ContentKey) -> (r: bool)
    ensures
        r == (a@ == b@),
{
    assert(a@.len() == a.elements@.len() && b@.len() == b.elements@.len());
    if a.elements.len() != b.elements.len() {
        return false;
    }
    let mut i: usize = 0;
    while i < a.elements.len()
        invariant
            a.elements.len() == b.elements.len(),
            i <= a.elements.len(),
            forall|j: int| 0 <= j < i ==> a@[j] == b@[j],
        decreases a.elements.len() - i,
    {
        if a.elements[i] != b.elements[i] {
            assert(a@[i as int] != b@[i as int]);
            return false;
        }
        i = i + 1;
    }
    assert(a@ =~= b@);
    true
}

/// Whether `k` begins with the segments of `p` and has more of them.
pub fn key_extends(p: &ContentKey, k: &ContentKey) -> (r: bool)
    ensures
        r == extends(p@, k@),
{
    assert(p@.len() == p.elements@.len() && k@.len() == k.elements@.len());
    if p.elements.len() >= k.elements.len() {
        return false;
    }
    let mut i: usize = 0;
    while i < p.elements.len()
        invariant
            p.elements.len() < k.elements.len(),
            i <= p.elements.len(),
            forall|j: int| 0 <= j < i ==> p@[j] == k@[j],
        decreases p.elements.len() - i,
    {
        if p.elements[i] != k.elements[i] {
            assert(k@.take(p@.len() as int)[i as int] != p@[i as int]);
            return false;
        }
        i = i + 1;
    }
    assert(k@.take(p@.len() as int) =~= p@);
    true
}

/// Whether a content tag is the namespace marker's.
pub fn is_namespace_tag(t: &String) -> (r: bool)
    ensures
        r == (t@ == namespace_tag()),
{
    let tag = String::from_str("NAMESPACE");
    proof {
        reveal_strlit("NAMESPACE");
        assert(tag@ =~= namespace_tag());
    }
    *t == tag
}

/// Whether a content tag is the table marker's.
pub fn is_table_tag(t: &String) -> (r: bool)
    ensures
        r == (t@ == table_tag()),
{
    let tag = String::from_str("ICEBERG_TABLE");
    proof {
        reveal_strlit("ICEBERG_TABLE");
        assert(tag@ =~= table_tag());
    }
    *t == tag
}

/// The first `n` segments of `k`.
pub fn key_prefix(k: &ContentKey, n: usize) -> (r: ContentKey)
    requires
        n <= k@.len(),
    ensures
        r@ == k@.take(n as int),
{
    let mut v: Vec<String> = Vec::new();
    let mut i: usize = 0;
    while i < n
        invariant
            n <= k.elements.len(),
            i <= n,
            v@.map_values(|s: String| s@) == k@.take(i as int),
        decreases n - i,
    {
        let ghost before = v@.map_values(|s: String| s@);
        let seg = k.elements[i].clone();
        v.push(seg);
        assert(v@.map_values(|s: String| s@) =~= before.push(seg@));
        i = i + 1;
        assert(v@.map_values(|s: String| s@) =~= k@.take(i as int));
    }
    ContentKey { elements: v }
}

/// Whether a key with the segments of `k` is in `v`.
pub fn contains_key(v: &Vec<ContentKey>, k: &ContentKey) -> (r: bool)
    ensures
        r == keys_view(v@).contains(k@),
{
    let mut i: usize = 0;
    while i < v.len()
        invariant
            i <= v.len(),
            forall|j: int| 0 <= j < i ==> keys_view(v@)[j] != k@,
        decreases v.len() - i,
    {
        if keys_equal(&v[i], k) {
            assert(keys_view(v@)[i as int] == k@);
            return true;
        }
        i = i + 1;
    }
    false
}

/// Adds `k` to `v` unless a key with the same segments is there already.
fn push_unique(v: &mut Vec<ContentKey>, k: ContentKey)
    requires
        keys_view(old(v)@).no_duplicates(),
    ensures
        keys_view(final(v)@).no_duplicates(),
        keys_view(old(v)@).contains(k@) ==> keys_view(final(v)@) == keys_view(old(v)@),
        !keys_view(old(v)@).contains(k@) ==> keys_view(final(v)@) == keys_view(old(v)@).push(k@),
        forall|n: Seq<Seq<char>>| #[trigger] keys_view(final(v)@).contains(n) <==> (keys_view(
            old(v)@,
        ).contains(n) || n == k@),
{
    let ghost kv = k@;
    let ghost before = keys_view(v@);
    if !contains_key(v, &k) {
        v.push(k);
        let ghost after = keys_view(v@);
        assert(after =~= before.push(kv));
        assert forall|n: Seq<Seq<char>>| #[trigger] after.contains(n) <==> (before.contains(n) || n == kv) by {
            if after.contains(n) {
                let q = choose|q: int| 0 <= q < after.len() && after[q] == n;
                if q < before.len() {
                    assert(before[q] == n);
                }
            }
            if before.contains(n) {
                let q = choose|q: int| 0 <= q < before.len() && before[q] == n;
                assert(after[q] == n);
            }
            if n == kv {
                assert(after[before.len() as int] == n);
            }
        };
    }
}

/// Every namespace implied by the keys of the listing: each non-empty
/// strict prefix of an entry's key, once.
pub fn infer_namespaces(entries: &Vec<Entry>) -> (r: Vec<ContentKey>)
    ensures
        keys_view(r@).no_duplicates(),
        forall|n: Seq<Seq<char>>| #[trigger] keys_view(r@).contains(n) <==> implied_by(listing(entries@), n),
        forall|i: int| 0 <= i < r@.len() ==> r@[i]@.len() >= 1,
{
    collect_namespaces(entries, None, false)
}

/// The namespaces of the listing below `parent` (all of them when there is
/// none), each once, implied by a key or stored as a marker.
pub fn list_namespaces(entries: &Vec<Entry>, parent: Option<&ContentKey>) -> (r: Vec<ContentKey>)
    ensures
        keys_view(r@).no_duplicates(),
        forall|n: Seq<Seq<char>>| #[trigger] keys_view(r@).contains(n) <==> (namespace_exists_in(
            listing(entries@),
            n,
        ) && under(
            match parent {
                None => None,
                Some(p) => Some(p@),
            },
            n,
        )),
{
    collect_namespaces(entries, parent, true)
}

/// The keys below `parent` that are strict prefixes of some entry's key and,
/// when `markers` holds, those of the namespace markers too; each once.
fn collect_namespaces(entries: &Vec<Entry>, parent: Option<&ContentKey>, markers: bool) -> (r: Vec<ContentKey>)
    ensures
        keys_view(r@).no_duplicates(),
        forall|i: int| 0 <= i < r@.len() ==> r@[i]@.len() >= 1,
        forall|n: Seq<Seq<char>>| #[trigger] keys_view(r@).contains(n) <==> ((implied_by(
            listing(entries@),
            n,
        ) || (markers && n.len() >= 1 && marked_in(listing(entries@), n))) && under(
            match parent {
                None => None,
                Some(p) => Some(p@),
            },
            n,
        )),
{
    let ghost l = listing(entries@);
    let ghost par = match parent {
        None => None,
        Some(p) => Some(p@),
    };
    let mut out: Vec<ContentKey> = Vec::new();
    let mut i: usize = 0;
    while i < entries.len()
        invariant
            l == listing(entries@),
            par == (match parent {
                None => None,
                Some(p) => Some(p@),
            }),
            i <= entries.len(),
            keys_view(out@).no_duplicates(),
            forall|q: int| 0 <= q < out@.len() ==> out@[q]@.len() >= 1,
            forall|n: Seq<Seq<char>>| #[trigger] keys_view(out@).contains(n) ==> ((implied_by(l, n) || (
            markers && n.len() >= 1 && marked_in(l, n))) && under(par, n)),
            forall|ii: int, jj: int|
                0 <= ii < i && 1 <= jj < l[ii].0.len() && under(par, #[trigger] l[ii].0.take(jj))
                    ==> keys_view(out@).contains(l[ii].0.take(jj)),
            forall|ii: int|
                0 <= ii < i && markers && l[ii].0.len() >= 1 && #[trigger] l[ii].1 == namespace_tag()
                    && under(par, l[ii].0) ==> keys_view(out@).contains(l[ii].0),
        decreases entries.len() - i,
    {
        let key = &entries[i].name;
        assert(key@ == l[i as int].0);
        let mut j: usize = 1;
        while j < key.elements.len()
            invariant
                l == listing(entries@),
                key@ == l[i as int].0,
                par == (match parent {
                    None => None,
                    Some(p) => Some(p@),
                }),
                i < entries.len(),
                1 <= j,
                j <= key.elements.len() || key.elements.len() == 0,
                keys_view(out@).no_duplicates(),
                forall|q: int| 0 <= q < out@.len() ==> out@[q]@.len() >= 1,
                forall|n: Seq<Seq<char>>| #[trigger] keys_view(out@).contains(n) ==> ((implied_by(l, n) || (
                markers && n.len() >= 1 && marked_in(l, n))) && under(par, n)),
                forall|ii: int, jj: int|
                    0 <= ii < i && 1 <= jj < l[ii].0.len() && under(par, #[trigger] l[ii].0.take(jj))
                        ==> keys_view(out@).contains(l[ii].0.take(jj)),
                forall|jj: int|
                    1 <= jj < j && jj < key@.len() && under(par, #[trigger] key@.take(jj))
                        ==> keys_view(out@).contains(key@.take(jj)),
                forall|ii: int|
                    0 <= ii < i && markers && l[ii].0.len() >= 1 && #[trigger] l[ii].1 == namespace_tag()
                        && under(par, l[ii].0) ==> keys_view(out@).contains(l[ii].0),
            decreases key.elements.len() - j,
        {
            let pre = key_prefix(key, j);
            let keep = match parent {
                None => true,
                Some(p) => key_extends(p, &pre),
            };
            assert(keep == under(par, pre@));
            if keep {
                let ghost pv = pre@;
                assert(is_strict_prefix(pv, l[i as int].0)) by {
                    assert(key@.take(j as int).len() == j);
                };
                assert(implied_by(l, pv));
                push_unique(&mut out, pre);
                proof {
                    assert forall|q: int| 0 <= q < out@.len() implies out@[q]@.len() >= 1 by {
                        assert(keys_view(out@)[q] == out@[q]@);
                        assert(keys_view(out@).contains(out@[q]@));
                    };
                }
            }
            j = j + 1;
        }
        if markers && key.elements.len() >= 1 && is_namespace_tag(&entries[i].content_type) {
            let keep = match parent {
                None => true,
                Some(p) => key_extends(p, key),
            };
            assert(keep == under(par, key@));
            if keep {
                assert(marked_in(l, key@)) by {
                    assert(l[i as int].1 == entries@[i as int].content_type@);
                };
                push_unique(&mut out, key.copy_key());
                proof {
                    assert forall|q: int| 0 <= q < out@.len() implies out@[q]@.len() >= 1 by {
                        assert(keys_view(out@)[q] == out@[q]@);
                        assert(keys_view(out@).contains(out@[q]@));
                    };
                }
            }
        }
        proof {
            assert(l[i as int].1 == entries@[i as int].content_type@);
        }
        i = i + 1;
    }
    proof {
        assert forall|n: Seq<Seq<char>>| ((implied_by(l, n) || (markers && n.len() >= 1 && marked_in(l, n)))
            && under(par, n)) implies #[trigger] keys_view(out@).contains(n) by {
            if implied_by(l, n) {
                let ii = choose|ii: int| 0 <= ii < l.len() && is_strict_prefix(n, #[trigger] l[ii].0);
                assert(l[ii].0.take(n.len() as int) == n);
            } else {
                let ii = choose|ii: int| 0 <= ii < l.len() && #[trigger] l[ii].0 == n && l[ii].1 == namespace_tag();
            }
        };
    }
    out
}

/// Whether `ns` exists in the listing: it is a non-empty strict prefix of
/// some entry's key, or an entry stores a namespace marker under it.
pub fn namespace_exists(entries: &Vec<Entry>, ns: &ContentKey) -> (r: bool)
    ensures
        r == namespace_exists_in(listing(entries@), ns@),
{
    let ghost l = listing(entries@);
    assert(ns@.len() == ns.elements@.len());
    if ns.elements.len() == 0 {
        return false;
    }
    let mut i: usize = 0;
    while i < entries.len()
        invariant
            l == listing(entries@),
            ns@.len() >= 1,
            i <= entries.len(),
            forall|ii: int| 0 <= ii < i ==> !is_strict_prefix(ns@, #[trigger] l[ii].0),
            forall|ii: int| 0 <= ii < i ==> !(#[trigger] l[ii].0 == ns@ && l[ii].1 == namespace_tag()),
        decreases entries.len() - i,
    {
        let e = &entries[i];
        assert(l[i as int] == e@);
        if key_extends(ns, &e.name) {
            assert(is_strict_prefix(ns@, l[i as int].0));
            return true;
        }
        if keys_equal(ns, &e.name) && is_namespace_tag(&e.content_type) {
            assert(l[i as int].0 == ns@ && l[i as int].1 == namespace_tag());
            return true;
        }
        i = i + 1;
    }
    false
}

} // verus!
