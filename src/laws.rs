use vstd::prelude::*;
use crate::catalog::{
    all_deletes, apply_op, apply_ops, cascade_keys, deleted_keys, present_in, shows, table_in,
    table_key_spec, OpView,
};
use crate::namespace::{extends, implied_by, is_strict_prefix, marked_in, namespace_exists_in, namespace_tag, table_tag};

verus! {

proof fn lemma_apply_one(m: Map<Seq<Seq<char>>, Seq<char>>, op: OpView)
    ensures
        apply_ops(m, seq![op]) == apply_op(m, op),
{
    assert(seq![op].drop_last() =~= Seq::<OpView>::empty());
    assert(apply_ops(m, Seq::<OpView>::empty()) == m);
    assert(seq![op].last() == op);
    assert(seq![op].len() == 1);
}

proof fn lemma_apply_two(m: Map<Seq<Seq<char>>, Seq<char>>, a: OpView, b: OpView)
    ensures
        apply_ops(m, seq![a, b]) == apply_op(apply_op(m, a), b),
{
    assert(seq![a, b].drop_last() =~= seq![a]);
    assert(seq![a, b].last() == b);
    lemma_apply_one(m, a);
}

/// A sequence of deletes removes exactly the keys it names.
proof fn lemma_apply_deletes(m: Map<Seq<Seq<char>>, Seq<char>>, ops: Seq<OpView>)
    requires
        all_deletes(ops),
    ensures
        apply_ops(m, ops) == m.remove_keys(deleted_keys(ops)),
    decreases ops.len(),
{
    if ops.len() == 0 {
        assert(m.remove_keys(deleted_keys(ops)) =~= m);
    } else {
        let init = ops.drop_last();
        assert(all_deletes(init)) by {
            assert forall|i: int| 0 <= i < init.len() implies #[trigger] init[i] is Delete by {
                assert(init[i] == ops[i]);
            };
        };
        lemma_apply_deletes(m, init);
        assert(ops[ops.len() - 1] is Delete);
        let k = ops.last()->Delete_key;
        assert(ops.last() == OpView::Delete { key: k });
        assert(deleted_keys(ops) =~= deleted_keys(init).insert(k)) by {
            assert forall|x: Seq<Seq<char>>| #[trigger] deleted_keys(ops).contains(x) <==> deleted_keys(init).insert(
                k,
            ).contains(x) by {
                if deleted_keys(ops).contains(x) {
                    let q = choose|q: int| 0 <= q < ops.len() && #[trigger] ops[q] == OpView::Delete { key: x };
                    if q < init.len() {
                        assert(init[q] == ops[q]);
                    }
                }
                if deleted_keys(init).contains(x) {
                    let q = choose|q: int| 0 <= q < init.len() && #[trigger] init[q] == OpView::Delete { key: x };
                    assert(ops[q] == init[q]);
                }
                if x == k {
                    assert(ops[ops.len() - 1] == OpView::Delete { key: x });
                }
            };
        };
        assert(apply_ops(m, ops) =~= m.remove_keys(deleted_keys(ops)));
    }
}

/// A key the store holds appears in a listing of it, with its tag.
proof fn lemma_shown(l: Seq<(Seq<Seq<char>>, Seq<char>)>, m: Map<Seq<Seq<char>>, Seq<char>>, k: Seq<Seq<char>>) -> (i: int)
    requires
        shows(l, m),
        m.contains_key(k),
    ensures
        0 <= i < l.len(),
        l[i].0 == k,
        l[i].1 == m[k],
{
    choose|i: int| 0 <= i < l.len() && #[trigger] l[i].0 == k
}

/// Once the commit that creates namespace `ns` has landed, a listing shows
/// the namespace, and a namespace listing without parent, which holds no
/// key twice, holds it exactly once.
pub proof fn lemma_created_namespace_listed_once(
    before: Seq<(Seq<Seq<char>>, Seq<char>)>,
    m: Map<Seq<Seq<char>>, Seq<char>>,
    ns: Seq<Seq<char>>,
    after: Seq<(Seq<Seq<char>>, Seq<char>)>,
    listed: Seq<Seq<Seq<char>>>,
)
    requires
        shows(before, m),
        ns.len() >= 1,
        shows(after, apply_ops(m, seq![OpView::Put { key: ns, tag: namespace_tag() }])),
        listed.no_duplicates(),
        forall|n: Seq<Seq<char>>| #[trigger] listed.contains(n) <==> namespace_exists_in(after, n),
    ensures
        namespace_exists_in(after, ns),
        exists|i: int| 0 <= i < listed.len() && listed[i] == ns && forall|j: int| 0 <= j < listed.len() && #[trigger] listed[j] == ns ==> j == i,
{
    let op = OpView::Put { key: ns, tag: namespace_tag() };
    lemma_apply_one(m, op);
    let i = lemma_shown(after, apply_ops(m, seq![op]), ns);
    assert(marked_in(after, ns));
    assert(listed.contains(ns));
    let q = choose|q: int| 0 <= q < listed.len() && listed[q] == ns;
    assert forall|j: int| 0 <= j < listed.len() && #[trigger] listed[j] == ns implies j == q by {};
}

/// Once the commit that creates namespace `ns` has landed, the namespace
/// exists in any listing of the new state, so a second creation is refused
/// with `AlreadyExists` before anything is committed.
pub proof fn lemma_second_create_namespace_refused(
    before: Seq<(Seq<Seq<char>>, Seq<char>)>,
    m: Map<Seq<Seq<char>>, Seq<char>>,
    ns: Seq<Seq<char>>,
    after: Seq<(Seq<Seq<char>>, Seq<char>)>,
)
    requires
        shows(before, m),
        ns.len() >= 1,
        shows(after, apply_ops(m, seq![OpView::Put { key: ns, tag: namespace_tag() }])),
    ensures
        namespace_exists_in(after, ns),
{
    let op = OpView::Put { key: ns, tag: namespace_tag() };
    lemma_apply_one(m, op);
    let i = lemma_shown(after, apply_ops(m, seq![op]), ns);
    assert(marked_in(after, ns));
}

/// Once the commit that creates table `name` in `ns` has landed, a listing
/// shows exactly one entry under its key, a table marker, so a second
/// creation of the same key is refused with `AlreadyExists`.
pub proof fn lemma_created_table_single(
    before: Seq<(Seq<Seq<char>>, Seq<char>)>,
    m: Map<Seq<Seq<char>>, Seq<char>>,
    ns: Seq<Seq<char>>,
    name: Seq<char>,
    after: Seq<(Seq<Seq<char>>, Seq<char>)>,
)
    requires
        shows(before, m),
        shows(after, apply_ops(m, seq![OpView::Put { key: table_key_spec(ns, name), tag: table_tag() }])),
    ensures
        table_in(after, table_key_spec(ns, name)),
        exists|i: int| 0 <= i < after.len() && after[i].0 == table_key_spec(ns, name) && forall|j: int|
            0 <= j < after.len() && #[trigger] after[j].0 == table_key_spec(ns, name) ==> j == i,
{
    let key = table_key_spec(ns, name);
    let op = OpView::Put { key, tag: table_tag() };
    lemma_apply_one(m, op);
    let i = lemma_shown(after, apply_ops(m, seq![op]), key);
    assert(table_in(after, key));
    assert forall|j: int| 0 <= j < after.len() && #[trigger] after[j].0 == key implies j == i by {
        assert(after[j].0 == after[i].0);
    };
}

/// After the one commit of a rename has landed, `src` holds no table and
/// `dest` holds one: there is no state in which both or neither exist.
pub proof fn lemma_rename_moves_table(
    before: Seq<(Seq<Seq<char>>, Seq<char>)>,
    m: Map<Seq<Seq<char>>, Seq<char>>,
    src: Seq<Seq<char>>,
    dest: Seq<Seq<char>>,
    after: Seq<(Seq<Seq<char>>, Seq<char>)>,
)
    requires
        shows(before, m),
        table_in(before, src),
        !present_in(before, dest),
        shows(after, apply_ops(m, seq![OpView::Delete { key: src }, OpView::Put { key: dest, tag: table_tag() }])),
    ensures
        !table_in(after, src),
        table_in(after, dest),
{
    let a = OpView::Delete { key: src };
    let b = OpView::Put { key: dest, tag: table_tag() };
    lemma_apply_two(m, a, b);
    let m2 = apply_ops(m, seq![a, b]);
    assert(src != dest);
    assert(!m2.contains_key(src));
    let i = lemma_shown(after, m2, dest);
    assert(table_in(after, dest));
    if table_in(after, src) {
        let j = choose|j: int| 0 <= j < after.len() && #[trigger] after[j].0 == src && after[j].1 == table_tag();
        assert(m2.contains_key(after[j].0));
    }
}

/// A namespace with a table directly in it exists and has a key below it,
/// so dropping it without cascade is refused with `NotEmpty`.
pub proof fn lemma_child_table_blocks_drop(l: Seq<(Seq<Seq<char>>, Seq<char>)>, ns: Seq<Seq<char>>, name: Seq<char>)
    requires
        ns.len() >= 1,
        table_in(l, table_key_spec(ns, name)),
    ensures
        namespace_exists_in(l, ns),
        implied_by(l, ns),
{
    let key = table_key_spec(ns, name);
    let i = choose|i: int| 0 <= i < l.len() && #[trigger] l[i].0 == key && l[i].1 == table_tag();
    assert(key.take(ns.len() as int) =~= ns);
    assert(is_strict_prefix(ns, l[i].0));
}

/// After a cascading drop of `ns` has landed, a listing shows neither the
/// namespace nor any key below it.
pub proof fn lemma_cascade_drop_clears(
    before: Seq<(Seq<Seq<char>>, Seq<char>)>,
    m: Map<Seq<Seq<char>>, Seq<char>>,
    ns: Seq<Seq<char>>,
    ops: Seq<OpView>,
    after: Seq<(Seq<Seq<char>>, Seq<char>)>,
)
    requires
        shows(before, m),
        all_deletes(ops),
        deleted_keys(ops) == cascade_keys(before, ns),
        shows(after, apply_ops(m, ops)),
    ensures
        !namespace_exists_in(after, ns),
        forall|i: int| 0 <= i < after.len() ==> !extends(ns, #[trigger] after[i].0),
{
    lemma_apply_deletes(m, ops);
    let m2 = apply_ops(m, ops);
    assert forall|i: int| 0 <= i < after.len() implies !extends(ns, #[trigger] after[i].0) by {
        let k = after[i].0;
        assert(m2.contains_key(k));
        assert(m.contains_key(k));
        let j = lemma_shown(before, m, k);
        assert(present_in(before, k));
        if extends(ns, k) {
            assert(cascade_keys(before, ns).contains(k));
        }
    };
    if implied_by(after, ns) {
        let i = choose|i: int| 0 <= i < after.len() && is_strict_prefix(ns, #[trigger] after[i].0);
        assert(!extends(ns, after[i].0));
    }
    if marked_in(after, ns) {
        let i = choose|i: int| 0 <= i < after.len() && #[trigger] after[i].0 == ns && after[i].1 == namespace_tag();
        assert(m2.contains_key(ns));
        assert(m2[ns] == m[ns]);
        let j = lemma_shown(before, m, ns);
        assert(marked_in(before, ns));
        assert(cascade_keys(before, ns).contains(ns));
    }
}

} // verus!
