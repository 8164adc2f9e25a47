use vstd::prelude::*;
use crate::client::{hash_qualified, hash_qualified_spec, NessieClient};
use crate::error::NessieError;
use crate::key::{join_segments, valid_key};
use crate::models::{CommitMeta, CommitResponse, Content, ContentKey, Entry, Operation, Operations, Reference};
use crate::namespace::{
    extends, implied_by, is_namespace_tag, is_strict_prefix, is_table_tag, key_extends, keys_equal,
    listing, marked_in, namespace_exists, namespace_exists_in, namespace_tag, table_tag,
};

verus! {

/// An operation as plain values: the key it touches and, for a put, the tag
/// of the content it stores.
pub enum OpView {
    Put { key: Seq<Seq<char>>, tag: Seq<char> },
    Delete { key: Seq<Seq<char>> },
}

impl View for Operation {
    type V = OpView;

    open spec fn view(&self) -> OpView {
        match self {
            Operation::Put { key, content } => OpView::Put { key: key@, tag: content.content_type@ },
            Operation::Delete { key } => OpView::Delete { key: key@ },
        }
    }
}

/// The operations of a commit as plain values.
pub open spec fn ops_view(ops: Seq<Operation>) -> Seq<OpView> {
    ops.map_values(|o: Operation| o@)
}

/// The store after one operation: a put sets the key's tag, a delete
/// removes the key.
pub open spec fn apply_op(m: Map<Seq<Seq<char>>, Seq<char>>, op: OpView) -> Map<Seq<Seq<char>>, Seq<char>> {
    match op {
        OpView::Put { key, tag } => m.insert(key, tag),
        OpView::Delete { key } => m.remove(key),
    }
}

/// The store after a commit's operations, in order.
pub open spec fn apply_ops(m: Map<Seq<Seq<char>>, Seq<char>>, ops: Seq<OpView>) -> Map<Seq<Seq<char>>, Seq<char>>
    decreases ops.len(),
{
    if ops.len() == 0 {
        m
    } else {
        apply_op(apply_ops(m, ops.drop_last()), ops.last())
    }
}

/// The listing `l` shows the store `m`: each key once, with its tag.
pub open spec fn shows(l: Seq<(Seq<Seq<char>>, Seq<char>)>, m: Map<Seq<Seq<char>>, Seq<char>>) -> bool {
    &&& forall|i: int| 0 <= i < l.len() ==> #[trigger] m.contains_key(l[i].0) && m[l[i].0] == l[i].1
    &&& forall|k: Seq<Seq<char>>| #[trigger] m.contains_key(k) ==> exists|i: int| 0 <= i < l.len() && #[trigger] l[i].0 == k
    &&& forall|i: int, j: int| 0 <= i < l.len() && 0 <= j < l.len() && #[trigger] l[i].0 == #[trigger] l[j].0 ==> i == j
}

/// A table marker is stored under `key`.
pub open spec fn table_in(l: Seq<(Seq<Seq<char>>, Seq<char>)>, key: Seq<Seq<char>>) -> bool {
    exists|i: int| 0 <= i < l.len() && #[trigger] l[i].0 == key && l[i].1 == table_tag()
}

/// Some content is stored under `key`.
pub open spec fn present_in(l: Seq<(Seq<Seq<char>>, Seq<char>)>, key: Seq<Seq<char>>) -> bool {
    exists|i: int| 0 <= i < l.len() && #[trigger] l[i].0 == key
}

/// The key of table `name` in namespace `ns`.
pub open spec fn table_key_spec(ns: Seq<Seq<char>>, name: Seq<char>) -> Seq<Seq<char>> {
    ns.push(name)
}

/// The directory of a new table under `key`, below the storage prefix.
pub open spec fn table_root_spec(warehouse: Seq<char>, key: Seq<Seq<char>>) -> Seq<char> {
    warehouse + seq!['/'] + join_segments(key)
}

/// Where the metadata of a new table under `key` is written.
pub open spec fn metadata_location_spec(warehouse: Seq<char>, key: Seq<Seq<char>>) -> Seq<char> {
    table_root_spec(warehouse, key) + seq![
        '/',
        'm',
        'e',
        't',
        'a',
        'd',
        'a',
        't',
        'a',
        '.',
        'j',
        's',
        'o',
        'n',
    ]
}

/// The keys a cascading drop of `ns` removes: the marker, when there is
/// one, and every key below it.
pub open spec fn cascade_keys(l: Seq<(Seq<Seq<char>>, Seq<char>)>, ns: Seq<Seq<char>>) -> Set<Seq<Seq<char>>> {
    Set::new(|k: Seq<Seq<char>>| (k == ns && marked_in(l, ns)) || (extends(ns, k) && present_in(l, k)))
}

/// What a new table records: its format identifiers.
#[derive(Debug, Clone)]
pub struct TableCreation {
    pub name: String,
    pub schema_id: Option<i32>,
    pub spec_id: Option<i32>,
    pub sort_order_id: Option<i32>,
    pub snapshot_id: Option<i64>,
}

/// The catalog adapter's configuration: the client, the working branch and
/// the storage prefix for new tables' metadata. It holds no other state.
#[derive(Debug)]
pub struct NessieCatalog {
    client: NessieClient,
    branch: String,
    warehouse: String,
}

/// Whether an entry of the listing has the key.
fn find_entry(entries: &Vec<Entry>, key: &ContentKey) -> (r: Option<usize>)
    ensures
        r is None <==> !present_in(listing(entries@), key@),
        r matches Some(i) ==> i < entries@.len() && entries@[i as int].name@ == key@,
{
    let ghost l = listing(entries@);
    let mut i: usize = 0;
    while i < entries.len()
        invariant
            l == listing(entries@),
            i <= entries.len(),
            forall|j: int| 0 <= j < i ==> #[trigger] l[j].0 != key@,
        decreases entries.len() - i,
    {
        assert(l[i as int] == entries@[i as int]@);
        if keys_equal(&entries[i].name, key) {
            assert(l[i as int].0 == key@);
            return Some(i);
        }
        i = i + 1;
    }
    None
}

/// Whether a table marker is stored under `key`.
pub fn table_exists(entries: &Vec<Entry>, key: &ContentKey) -> (r: bool)
    ensures
        r == table_in(listing(entries@), key@),
{
    let ghost l = listing(entries@);
    let mut i: usize = 0;
    while i < entries.len()
        invariant
            l == listing(entries@),
            i <= entries.len(),
            forall|j: int| 0 <= j < i ==> !(#[trigger] l[j].0 == key@ && l[j].1 == table_tag()),
        decreases entries.len() - i,
    {
        assert(l[i as int] == entries@[i as int]@);
        if keys_equal(&entries[i].name, key) && is_table_tag(&entries[i].content_type) {
            assert(l[i as int].0 == key@ && l[i as int].1 == table_tag());
            return true;
        }
        i = i + 1;
    }
    false
}

/// The content of a namespace marker.
fn namespace_marker() -> (r: Content)
    ensures
        r.content_type@ == namespace_tag(),
{
    proof {
        reveal_strlit("NAMESPACE");
    }
    let t = String::from_str("NAMESPACE");
    assert(t@ =~= namespace_tag());
    Content {
        content_type: t,
        metadata_location: String::new(),
        snapshot_id: None,
        schema_id: None,
        spec_id: None,
        sort_order_id: None,
    }
}

/// `meta` with its properties replaced.
fn with_properties(meta: CommitMeta, properties: Vec<(String, String)>) -> (r: CommitMeta)
    ensures
        r.properties == properties,
        r.author == meta.author,
        r.author_time == meta.author_time,
        r.message == meta.message,
{
    CommitMeta {
        author: meta.author,
        author_time: meta.author_time,
        message: meta.message,
        signed_off_by: meta.signed_off_by,
        properties,
    }
}

/// The commit that creates namespace `ns`: `AlreadyExists` when it exists,
/// else one put of a namespace marker, with `properties` as the commit's
/// properties.
pub fn plan_create_namespace(
    entries: &Vec<Entry>,
    ns: &ContentKey,
    properties: Vec<(String, String)>,
    meta: CommitMeta,
) -> (r: Result<Operations, NessieError>)
    ensures
        namespace_exists_in(listing(entries@), ns@) <==> (r is Err && r->Err_0 is AlreadyExists),
        !valid_key(ns@) && !namespace_exists_in(listing(entries@), ns@) <==> (r is Err
            && r->Err_0 is Validation),
        r is Err ==> (r->Err_0 is AlreadyExists || r->Err_0 is Validation),
        r is Ok ==> ops_view(r->Ok_0.operations@) == seq![OpView::Put { key: ns@, tag: namespace_tag() }],
        r is Ok ==> r->Ok_0.commit_meta.properties == properties,
        r is Ok ==> (r->Ok_0.commit_meta.author == meta.author && r->Ok_0.commit_meta.author_time
            == meta.author_time && r->Ok_0.commit_meta.message == meta.message),
{
    if namespace_exists(entries, ns) {
        return Err(NessieError::AlreadyExists(ns.flatten()));
    }
    let checked = ContentKey::new(ns.elements.clone());
    proof {
        assert(ns.elements@.map_values(|s: String| s@) == ns@);
    }
    match checked {
        Err(e) => Err(e),
        Ok(key) => {
            let op = Operation::Put { key, content: namespace_marker() };
            let ghost ov = op@;
            let operations = vec![op];
            assert(ops_view(operations@) =~= seq![ov]);
            Ok(Operations { commit_meta: with_properties(meta, properties), operations })
        },
    }
}

/// Whether an explicit namespace marker is stored under `ns`.
fn namespace_marked(entries: &Vec<Entry>, ns: &ContentKey) -> (r: bool)
    ensures
        r == marked_in(listing(entries@), ns@),
{
    let ghost l = listing(entries@);
    let mut i: usize = 0;
    while i < entries.len()
        invariant
            l == listing(entries@),
            i <= entries.len(),
            forall|j: int| 0 <= j < i ==> !(#[trigger] l[j].0 == ns@ && l[j].1 == namespace_tag()),
        decreases entries.len() - i,
    {
        assert(l[i as int] == entries@[i as int]@);
        if keys_equal(&entries[i].name, ns) && is_namespace_tag(&entries[i].content_type) {
            assert(l[i as int].0 == ns@ && l[i as int].1 == namespace_tag());
            return true;
        }
        i = i + 1;
    }
    false
}

/// The commit that replaces the properties of namespace `ns`: `NotFound`
/// when it does not exist, else one put of its marker with `properties`,
/// the full new set.
pub fn plan_update_namespace(
    entries: &Vec<Entry>,
    ns: &ContentKey,
    properties: Vec<(String, String)>,
    meta: CommitMeta,
) -> (r: Result<Operations, NessieError>)
    ensures
        !namespace_exists_in(listing(entries@), ns@) <==> (r is Err && r->Err_0 is NotFound),
        r is Err ==> r->Err_0 is NotFound,
        r is Ok ==> ops_view(r->Ok_0.operations@) == seq![OpView::Put { key: ns@, tag: namespace_tag() }],
        r is Ok ==> r->Ok_0.commit_meta.properties == properties,
        r is Ok ==> (r->Ok_0.commit_meta.author == meta.author && r->Ok_0.commit_meta.author_time
            == meta.author_time && r->Ok_0.commit_meta.message == meta.message),
{
    if !namespace_exists(entries, ns) {
        return Err(NessieError::NotFound(ns.flatten()));
    }
    let op = Operation::Put { key: ns.copy_key(), content: namespace_marker() };
    let ghost ov = op@;
    let operations = vec![op];
    assert(ops_view(operations@) =~= seq![ov]);
    Ok(Operations { commit_meta: with_properties(meta, properties), operations })
}

/// The namespace `ns` when it exists, else `NotFound`.
pub fn get_namespace(entries: &Vec<Entry>, ns: &ContentKey) -> (r: Result<ContentKey, NessieError>)
    ensures
        namespace_exists_in(listing(entries@), ns@) <==> r is Ok,
        r is Ok ==> r->Ok_0@ == ns@,
        r is Err ==> r->Err_0 is NotFound,
{
    if namespace_exists(entries, ns) {
        Ok(ns.copy_key())
    } else {
        Err(NessieError::NotFound(ns.flatten()))
    }
}

/// Every operation of the sequence is a delete.
pub open spec fn all_deletes(ops: Seq<OpView>) -> bool {
    forall|i: int| 0 <= i < ops.len() ==> #[trigger] ops[i] is Delete
}

/// The keys the sequence deletes.
pub open spec fn deleted_keys(ops: Seq<OpView>) -> Set<Seq<Seq<char>>> {
    Set::new(|k: Seq<Seq<char>>| exists|i: int| 0 <= i < ops.len() && #[trigger] ops[i] == OpView::Delete { key: k })
}

/// The commit that drops namespace `ns`. `NotFound` when it does not exist.
/// Without `cascade`: `NotEmpty` when some key lies below it, else one
/// delete of its marker (a namespace without a marker has keys below it).
/// With `cascade`: one delete of each key below it and of its marker, when
/// there is one, all in one commit.
pub fn plan_drop_namespace(entries: &Vec<Entry>, ns: &ContentKey, cascade: bool, meta: CommitMeta) -> (r: Result<
    Operations,
    NessieError,
>)
    ensures
        !namespace_exists_in(listing(entries@), ns@) <==> (r is Err && r->Err_0 is NotFound),
        namespace_exists_in(listing(entries@), ns@) && !cascade && implied_by(listing(entries@), ns@) <==> (
        r is Err && r->Err_0 is NotEmpty),
        r is Err ==> (r->Err_0 is NotFound || r->Err_0 is NotEmpty),
        r is Ok && !cascade ==> ops_view(r->Ok_0.operations@) == seq![OpView::Delete { key: ns@ }],
        r is Ok && cascade ==> all_deletes(ops_view(r->Ok_0.operations@)),
        r is Ok && cascade ==> deleted_keys(ops_view(r->Ok_0.operations@)) == cascade_keys(
            listing(entries@),
            ns@,
        ),
        r is Ok ==> r->Ok_0.commit_meta == meta,
{
    let ghost l = listing(entries@);
    if !namespace_exists(entries, ns) {
        return Err(NessieError::NotFound(ns.flatten()));
    }
    let marked = namespace_marked(entries, ns);
    if !cascade {
        if !marked {
            assert(implied_by(l, ns@));
            return Err(NessieError::NotEmpty(ns.flatten()));
        }
        let mut i: usize = 0;
        while i < entries.len()
            invariant
                l == listing(entries@),
                i <= entries.len(),
                ns@.len() >= 1,
                !cascade,
                namespace_exists_in(l, ns@),
                forall|j: int| 0 <= j < i ==> !is_strict_prefix(ns@, #[trigger] l[j].0),
            decreases entries.len() - i,
        {
            assert(l[i as int] == entries@[i as int]@);
            if key_extends(ns, &entries[i].name) {
                assert(is_strict_prefix(ns@, l[i as int].0));
                assert(implied_by(l, ns@));
                return Err(NessieError::NotEmpty(ns.flatten()));
            }
            i = i + 1;
        }
        let op = Operation::Delete { key: ns.copy_key() };
        let ghost ov = op@;
        let operations = vec![op];
        assert(ops_view(operations@) =~= seq![ov]);
        return Ok(Operations { commit_meta: meta, operations });
    }
    let mut operations: Vec<Operation> = Vec::new();
    if marked {
        operations.push(Operation::Delete { key: ns.copy_key() });
    }
    proof {
        let ov = ops_view(operations@);
        assert(ov.len() == operations@.len());
        assert forall|k: Seq<Seq<char>>| #[trigger] deleted_keys(ov).contains(k) <==> (k == ns@ && marked) by {
            if marked && k == ns@ {
                assert(ov[0] == OpView::Delete { key: k });
            }
        };
    }
    let mut i: usize = 0;
    while i < entries.len()
        invariant
            l == listing(entries@),
            i <= entries.len(),
            marked == marked_in(l, ns@),
            all_deletes(ops_view(operations@)),
            forall|k: Seq<Seq<char>>| #[trigger] deleted_keys(ops_view(operations@)).contains(k) <==> (
            (k == ns@ && marked) || (extends(ns@, k) && exists|j: int| 0 <= j < i && #[trigger] l[j].0 == k)),
        decreases entries.len() - i,
    {
        assert(l[i as int] == entries@[i as int]@);
        if key_extends(ns, &entries[i].name) {
            let ghost before = ops_view(operations@);
            let op = Operation::Delete { key: entries[i].name.copy_key() };
            let ghost ov = op@;
            operations.push(op);
            let ghost after = ops_view(operations@);
            assert(after =~= before.push(ov));
            assert forall|q: int| 0 <= q < after.len() implies #[trigger] after[q] is Delete by {
                if q < before.len() {
                    assert(after[q] == before[q]);
                }
            };
            assert forall|k: Seq<Seq<char>>| #[trigger] deleted_keys(after).contains(k) <==> (deleted_keys(
                before,
            ).contains(k) || k == l[i as int].0) by {
                if deleted_keys(after).contains(k) {
                    let q = choose|q: int| 0 <= q < after.len() && #[trigger] after[q] == OpView::Delete { key: k };
                    if q < before.len() {
                        assert(before[q] == after[q]);
                    }
                }
                if deleted_keys(before).contains(k) {
                    let q = choose|q: int| 0 <= q < before.len() && #[trigger] before[q] == OpView::Delete { key: k };
                    assert(after[q] == before[q]);
                }
                if k == l[i as int].0 {
                    assert(after[before.len() as int] == OpView::Delete { key: k });
                }
            };
        }
        proof {
            let ghost di = i as int;
            assert forall|k: Seq<Seq<char>>| #[trigger] deleted_keys(ops_view(operations@)).contains(k) <==> (
            (k == ns@ && marked) || (extends(ns@, k) && exists|j: int| 0 <= j < di + 1 && #[trigger] l[j].0 == k)) by {
                if extends(ns@, k) && l[di].0 == k {
                    assert(deleted_keys(ops_view(operations@)).contains(k));
                }
                if extends(ns@, k) && (exists|j: int| 0 <= j < di + 1 && #[trigger] l[j].0 == k) {
                    let j = choose|j: int| 0 <= j < di + 1 && #[trigger] l[j].0 == k;
                    if j < di {
                        assert(exists|j2: int| 0 <= j2 < di && #[trigger] l[j2].0 == k);
                    }
                }
            };
        }
        i = i + 1;
    }
    proof {
        assert forall|k: Seq<Seq<char>>| #[trigger] deleted_keys(ops_view(operations@)).contains(k) <==> cascade_keys(
            l,
            ns@,
        ).contains(k) by {
            if extends(ns@, k) && present_in(l, k) {
                let j = choose|j: int| 0 <= j < l.len() && #[trigger] l[j].0 == k;
                assert(0 <= j < entries@.len() && l[j].0 == k);
            }
        };
        assert(deleted_keys(ops_view(operations@)) =~= cascade_keys(l, ns@));
    }
    Ok(Operations { commit_meta: meta, operations })
}

/// The commit that drops table `key`: `NotFound` unless a table marker is
/// stored under it, else one delete of the key.
pub fn plan_drop_table(entries: &Vec<Entry>, key: &ContentKey, meta: CommitMeta) -> (r: Result<
    Operations,
    NessieError,
>)
    ensures
        !table_in(listing(entries@), key@) <==> r is Err,
        r is Err ==> r->Err_0 is NotFound,
        r is Ok ==> ops_view(r->Ok_0.operations@) == seq![OpView::Delete { key: key@ }],
        r is Ok ==> r->Ok_0.commit_meta == meta,
{
    if !table_exists(entries, key) {
        return Err(NessieError::NotFound(key.flatten()));
    }
    let op = Operation::Delete { key: key.copy_key() };
    let ghost ov = op@;
    let operations = vec![op];
    assert(ops_view(operations@) =~= seq![ov]);
    Ok(Operations { commit_meta: meta, operations })
}

/// The commit that renames table `src` to `dest`, in one step: a delete of
/// `src` and a put of `content`, the table's content, at `dest`.
/// `NotFound` unless a table marker is stored under `src`; `AlreadyExists`
/// when anything is stored under `dest`; `Validation` when `content` is no
/// table marker or `dest` is not a valid key.
pub fn plan_rename_table(
    entries: &Vec<Entry>,
    src: &ContentKey,
    dest: &ContentKey,
    content: Content,
    meta: CommitMeta,
) -> (r: Result<Operations, NessieError>)
    ensures
        !table_in(listing(entries@), src@) <==> (r is Err && r->Err_0 is NotFound),
        table_in(listing(entries@), src@) && present_in(listing(entries@), dest@) <==> (r is Err
            && r->Err_0 is AlreadyExists),
        table_in(listing(entries@), src@) && !present_in(listing(entries@), dest@) && (content.content_type@
            != table_tag() || !valid_key(dest@)) <==> (r is Err && r->Err_0 is Validation),
        r is Err ==> (r->Err_0 is NotFound || r->Err_0 is AlreadyExists || r->Err_0 is Validation),
        r is Ok ==> ops_view(r->Ok_0.operations@) == seq![
            OpView::Delete { key: src@ },
            OpView::Put { key: dest@, tag: table_tag() },
        ],
        r is Ok ==> (r->Ok_0.operations@[1] matches Operation::Put { content: c, .. } && c == content),
        r is Ok ==> r->Ok_0.commit_meta == meta,
{
    if !table_exists(entries, src) {
        return Err(NessieError::NotFound(src.flatten()));
    }
    if find_entry(entries, dest).is_some() {
        return Err(NessieError::AlreadyExists(dest.flatten()));
    }
    if !is_table_tag(&content.content_type) {
        return Err(NessieError::Validation(String::from_str("the content to move is no table")));
    }
    let checked = ContentKey::new(dest.elements.clone());
    proof {
        assert(dest.elements@.map_values(|s: String| s@) == dest@);
    }
    match checked {
        Err(e) => Err(e),
        Ok(to) => {
            let del = Operation::Delete { key: src.copy_key() };
            let put = Operation::Put { key: to, content };
            let ghost dv = del@;
            let ghost pv = put@;
            let operations = vec![del, put];
            assert(ops_view(operations@) =~= seq![dv, pv]);
            Ok(Operations { commit_meta: meta, operations })
        },
    }
}

/// The tables directly in namespace `ns`: keys of table markers with the
/// segments of `ns` and one more.
pub fn list_tables(entries: &Vec<Entry>, ns: &ContentKey) -> (r: Vec<ContentKey>)
    ensures
        forall|k: Seq<Seq<char>>| #[trigger] crate::namespace::keys_view(r@).contains(k) <==> (table_in(
            listing(entries@),
            k,
        ) && extends(ns@, k) && k.len() == ns@.len() + 1),
{
    let ghost l = listing(entries@);
    let mut out: Vec<ContentKey> = Vec::new();
    let mut i: usize = 0;
    while i < entries.len()
        invariant
            l == listing(entries@),
            i <= entries.len(),
            forall|k: Seq<Seq<char>>| #[trigger] crate::namespace::keys_view(out@).contains(k) <==> (
            extends(ns@, k) && k.len() == ns@.len() + 1 && exists|j: int|
                0 <= j < i && #[trigger] l[j].0 == k && l[j].1 == table_tag()),
        decreases entries.len() - i,
    {
        let e = &entries[i];
        assert(l[i as int] == e@);
        let ghost before = crate::namespace::keys_view(out@);
        assert(e.name@.len() == e.name.elements@.len() && ns@.len() == ns.elements@.len());
        if is_table_tag(&e.content_type) && e.name.elements.len() > ns.elements.len() && e.name.elements.len() - 1 == ns.elements.len()
            && key_extends(
            ns,
            &e.name,
        ) {
            out.push(e.name.copy_key());
            assert(crate::namespace::keys_view(out@) =~= before.push(e.name@));
        }
        proof {
            let after = crate::namespace::keys_view(out@);
            let di = i as int;
            assert forall|k: Seq<Seq<char>>| #[trigger] after.contains(k) <==> (extends(ns@, k) && k.len()
                == ns@.len() + 1 && exists|j: int| 0 <= j < di + 1 && #[trigger] l[j].0 == k && l[j].1 == table_tag()) by {
                if after.contains(k) && !before.contains(k) {
                    let q = choose|q: int| 0 <= q < after.len() && after[q] == k;
                    assert(q == before.len());
                    assert(l[di].0 == k);
                }
                if before.contains(k) {
                    let q = choose|q: int| 0 <= q < before.len() && before[q] == k;
                    assert(after[q] == k);
                }
                if extends(ns@, k) && k.len() == ns@.len() + 1 && exists|j: int|
                    0 <= j < di + 1 && #[trigger] l[j].0 == k && l[j].1 == table_tag() {
                    let j = choose|j: int| 0 <= j < di + 1 && #[trigger] l[j].0 == k && l[j].1 == table_tag();
                    if j == di {
                        assert(after[after.len() - 1] == k);
                    } else {
                        assert(exists|j2: int| 0 <= j2 < di && #[trigger] l[j2].0 == k && l[j2].1 == table_tag());
                    }
                }
            };
        }
        i = i + 1;
    }
    out
}

/// Where a table's metadata is, read from its content: `NotFound` when the
/// content is no table marker.
pub fn table_location(content: &Content) -> (r: Result<String, NessieError>)
    ensures
        content.content_type@ == table_tag() <==> r is Ok,
        r is Ok ==> r->Ok_0@ == content.metadata_location@,
        r is Err ==> r->Err_0 is NotFound,
{
    if is_table_tag(&content.content_type) {
        Ok(content.metadata_location.clone())
    } else {
        Err(NessieError::NotFound(content.content_type.clone()))
    }
}

/// The adapter's view of a commit's result: a lost optimistic race
/// (`Conflict`) becomes `ConcurrentModification`; everything else is
/// passed on as it is.
pub fn commit_outcome(result: Result<CommitResponse, NessieError>) -> (r: Result<(), NessieError>)
    ensures
        result is Ok <==> r is Ok,
        result matches Err(NessieError::Conflict(b)) ==> (r matches Err(NessieError::ConcurrentModification(c))
            && c == b),
        (result is Err && !(result->Err_0 is Conflict)) ==> r == Err::<(), NessieError>(result->Err_0),
{
    match result {
        Ok(_) => Ok(()),
        Err(NessieError::Conflict(b)) => Err(NessieError::ConcurrentModification(b)),
        Err(e) => Err(e),
    }
}

/// `a` followed by `b`.
fn concat_str(a: &str, b: &str) -> (r: String)
    ensures
        r@ == a@ + b@,
{
    let mut s = String::from_str(a);
    s.append(b);
    s
}

impl NessieCatalog {
    /// An adapter on `branch` of the service behind `client`, writing new
    /// tables' metadata under `warehouse`.
    pub fn new(client: NessieClient, branch: String, warehouse: String) -> (r: NessieCatalog)
        ensures
            r.branch() == branch@,
            r.warehouse() == warehouse@,
    {
        NessieCatalog { client, branch, warehouse }
    }

    /// The working branch.
    pub closed spec fn branch(&self) -> Seq<char> {
        self.branch@
    }

    /// The storage prefix for new tables' metadata.
    pub closed spec fn warehouse(&self) -> Seq<char> {
        self.warehouse@
    }

    /// The client the adapter talks through.
    pub fn client(&self) -> &NessieClient {
        &self.client
    }

    /// The working branch's name.
    pub fn branch_name(&self) -> (r: &str)
        ensures
            r@ == self.branch(),
    {
        self.branch.as_str()
    }

    /// The hash-qualified reference a commit on the working branch goes to,
    /// from the branch's current head: `Validation` when it has no hash.
    pub fn commit_target(&self, head: &Reference) -> (r: Result<String, NessieError>)
        ensures
            head.hash is Some <==> r is Ok,
            r is Ok ==> r->Ok_0@ == hash_qualified_spec(self.branch(), head.hash->Some_0@),
            r is Err ==> r->Err_0 is Validation,
    {
        match &head.hash {
            Some(h) => Ok(hash_qualified(self.branch.as_str(), h.as_str())),
            None => Err(NessieError::Validation(String::from_str("the branch has no commit to build on"))),
        }
    }

    /// The directory of a new table under `key`.
    pub fn table_root(&self, key: &ContentKey) -> (r: String)
        ensures
            r@ == table_root_spec(self.warehouse(), key@),
    {
        proof {
            reveal_strlit("/");
        }
        let a = concat_str(self.warehouse.as_str(), "/");
        let flat = key.flatten();
        let r = concat_str(a.as_str(), flat.as_str());
        assert(r@ =~= table_root_spec(self.warehouse(), key@));
        r
    }

    /// Where the metadata of a new table under `key` is written.
    pub fn metadata_location(&self, key: &ContentKey) -> (r: String)
        ensures
            r@ == metadata_location_spec(self.warehouse(), key@),
    {
        proof {
            reveal_strlit("/metadata.json");
        }
        let b = self.table_root(key);
        let r = concat_str(b.as_str(), "/metadata.json");
        assert(r@ =~= metadata_location_spec(self.warehouse(), key@));
        r
    }

    /// The commit that creates table `creation.name` in namespace `ns`:
    /// `Validation` when the table's key is not valid, `AlreadyExists` when a
    /// table marker is stored under it, else one put of a table marker that
    /// records a new metadata location and the identifiers of `creation`.
    pub fn plan_create_table(
        &self,
        entries: &Vec<Entry>,
        ns: &ContentKey,
        creation: &TableCreation,
        meta: CommitMeta,
    ) -> (r: Result<Operations, NessieError>)
        ensures
            !valid_key(table_key_spec(ns@, creation.name@)) <==> (r is Err && r->Err_0 is Validation),
            valid_key(table_key_spec(ns@, creation.name@)) && table_in(
                listing(entries@),
                table_key_spec(ns@, creation.name@),
            ) <==> (r is Err && r->Err_0 is AlreadyExists),
            r is Err ==> (r->Err_0 is Validation || r->Err_0 is AlreadyExists),
            r is Ok ==> ops_view(r->Ok_0.operations@) == seq![
                OpView::Put { key: table_key_spec(ns@, creation.name@), tag: table_tag() },
            ],
            r is Ok ==> (r->Ok_0.operations@[0] matches Operation::Put { content: c, .. }
                && c.metadata_location@ == metadata_location_spec(
                self.warehouse(),
                table_key_spec(ns@, creation.name@),
            ) && c.schema_id == creation.schema_id && c.spec_id == creation.spec_id
                && c.sort_order_id == creation.sort_order_id && c.snapshot_id == creation.snapshot_id),
            r is Ok ==> r->Ok_0.commit_meta == meta,
    {
        let mut parts = ns.elements.clone();
        let ghost nsv = ns.elements@;
        parts.push(creation.name.clone());
        proof {
            assert(parts@.map_values(|s: String| s@) =~= table_key_spec(ns@, creation.name@)) by {
                assert(parts@ =~= nsv.push(creation.name));
            };
        }
        let key = match ContentKey::new(parts) {
            Err(e) => {
                return Err(e);
            },
            Ok(k) => k,
        };
        if table_exists(entries, &key) {
            return Err(NessieError::AlreadyExists(key.flatten()));
        }
        proof {
            reveal_strlit("ICEBERG_TABLE");
        }
        let tag = String::from_str("ICEBERG_TABLE");
        assert(tag@ =~= table_tag());
        let content = Content {
            content_type: tag,
            metadata_location: self.metadata_location(&key),
            snapshot_id: creation.snapshot_id,
            schema_id: creation.schema_id,
            spec_id: creation.spec_id,
            sort_order_id: creation.sort_order_id,
        };
        let op = Operation::Put { key, content };
        let ghost ov = op@;
        let operations = vec![op];
        assert(ops_view(operations@) =~= seq![ov]);
        Ok(Operations { commit_meta: meta, operations })
    }
}

} // verus!
