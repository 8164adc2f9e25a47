use vstd::prelude::*;
use crate::key::join_segments;
use crate::models::{ContentKey, Entry};
use crate::namespace::{keys_view, list_namespaces, listing, namespace_exists_in};

verus! {

/// What a query engine sees of the catalog: its namespaces, as schema names.
#[derive(Debug)]
pub struct NessieCatalogProvider {}

impl NessieCatalogProvider {
    pub fn new() -> (r: NessieCatalogProvider) {
        NessieCatalogProvider {}
    }

    /// The flattened name of every namespace of the listing, each once.
    pub fn schema_names(&self, entries: &Vec<Entry>) -> (r: Vec<String>)
        ensures
            exists|ks: Seq<Seq<Seq<char>>>| #![trigger ks.len()]
                ks.no_duplicates()
                && (forall|n: Seq<Seq<char>>| #[trigger] ks.contains(n) <==> namespace_exists_in(listing(entries@), n))
                && r@.len() == ks.len()
                && forall|i: int| 0 <= i < ks.len() ==> #[trigger] r@[i]@ == join_segments(ks[i]),
    {
        let namespaces: Vec<ContentKey> = list_namespaces(entries, None);
        let mut names: Vec<String> = Vec::new();
        let mut i: usize = 0;
        while i < namespaces.len()
            invariant
                i <= namespaces.len(),
                names@.len() == i,
                forall|j: int| 0 <= j < i ==> #[trigger] names@[j]@ == join_segments(keys_view(namespaces@)[j]),
            decreases namespaces.len() - i,
        {
            names.push(namespaces[i].flatten());
            i = i + 1;
        }
        assert(names@.len() == keys_view(namespaces@).len());
        names
    }
}

} // verus!
