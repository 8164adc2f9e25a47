use vstd::prelude::*;

verus! {

/// The kind of a reference: a mutable branch or an immutable tag.
#[derive(Debug, Clone, Copy, PartialEq, Eq, Structural)]
pub enum ReferenceType {
    Branch,
    Tag,
}

impl ReferenceType {
    /// The wire name of the reference kind.
    pub fn as_str(&self) -> (r: &'static str)
        ensures
            r@ == reference_type_name(*self),
    {
        match self {
            ReferenceType::Branch => {
                proof {
                    reveal_strlit("BRANCH");
                }
                "BRANCH"
            },
            ReferenceType::Tag => {
                proof {
                    reveal_strlit("TAG");
                }
                "TAG"
            },
        }
    }
}

/// The wire name of a reference kind.
pub open spec fn reference_type_name(t: ReferenceType) -> Seq<char> {
    match t {
        ReferenceType::Branch => seq!['B', 'R', 'A', 'N', 'C', 'H'],
        ReferenceType::Tag => seq!['T', 'A', 'G'],
    }
}

/// A named pointer into the commit history.
#[derive(Debug, Clone)]
pub struct Reference {
    pub name: String,
    pub ref_type: ReferenceType,
    /// Absent only when the reference has never been committed to.
    pub hash: Option<String>,
}

#[derive(Debug)]
pub struct ReferencesResponse {
    pub references: Vec<Reference>,
}

#[derive(Debug)]
pub struct ReferenceResponse {
    pub reference: Reference,
}

/// A typed content payload as the service reports it; tags that are not
/// understood fall back to `Unknown`.
#[derive(Debug)]
pub enum ContentEntry {
    IcebergTable {
        id: Option<String>,
        metadata_location: String,
        name: String,
        schema_id: Option<i32>,
        spec_id: Option<i32>,
        snapshot_id: Option<i64>,
        sort_order_id: Option<i32>,
    },
    DeltaLakeTable {
        id: String,
        metadata_location_history: Vec<String>,
        checkpoint_location_history: Vec<String>,
        last_checkpoint: String,
    },
    View { name: String },
    Namespace { name: String },
    Unknown,
}

#[derive(Debug)]
pub struct EntriesResponse {
    pub entries: Vec<Entry>,
}

#[derive(Debug)]
pub struct EntryResponse {
    pub entry: Entry,
}

/// One line of an entry listing: a key and the tag of its content type.
#[derive(Debug, Clone)]
pub struct Entry {
    pub name: ContentKey,
    pub content_type: String,
}

impl View for Entry {
    type V = (Seq<Seq<char>>, Seq<char>);

    open spec fn view(&self) -> (Seq<Seq<char>>, Seq<char>) {
        (self.name@, self.content_type@)
    }
}

#[derive(Debug)]
pub struct CommitResponse {}

/// Provenance attached to a commit; the adapter does not interpret it.
#[derive(Debug, Clone)]
pub struct CommitMeta {
    pub author: String,
    pub author_time: String,
    pub message: String,
    pub signed_off_by: Option<String>,
    pub properties: Vec<(String, String)>,
}

/// The body of a commit: its metadata and an ordered list of operations,
/// applied atomically.
#[derive(Debug)]
pub struct Operations {
    pub commit_meta: CommitMeta,
    pub operations: Vec<Operation>,
}

/// An upsert of a key's content, or the removal of a key.
#[derive(Debug)]
pub enum Operation {
    Put { key: ContentKey, content: Content },
    Delete { key: ContentKey },
}

/// An ordered sequence of path segments naming a namespace or a table.
#[derive(Debug, Clone)]
pub struct ContentKey {
    pub elements: Vec<String>,
}

impl View for ContentKey {
    type V = Seq<Seq<char>>;

    open spec fn view(&self) -> Seq<Seq<char>> {
        self.elements@.map_values(|s: String| s@)
    }
}

/// A content payload to store under a key.
#[derive(Debug, Clone)]
pub struct Content {
    pub content_type: String,
    pub metadata_location: String,
    pub snapshot_id: Option<i64>,
    pub schema_id: Option<i32>,
    pub spec_id: Option<i32>,
    pub sort_order_id: Option<i32>,
}

} // verus!
