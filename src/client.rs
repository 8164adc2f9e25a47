use vstd::prelude::*;
use crate::error::NessieError;
use crate::key::join_segments;
use crate::models::{ContentKey, Reference};

verus! {

/// The error of `url`'s parser, carried through as it is.
#[verifier::external_type_specification]
#[verifier::external_body]
pub struct ExParseError(url::ParseError);

/// An absolute URL of the `url` crate, carried through as it is.
#[verifier::external_type_specification]
#[verifier::external_body]
pub struct ExUrl(url::Url);

/// Whether `url::Url::parse` accepts the text as an absolute URL; a function
/// of the text alone.
pub uninterp spec fn url_parses(input: Seq<char>) -> bool;

/// Relies on `url::Url::parse`: it fails exactly on the inputs that it does
/// not accept, and which those are depends on the text alone.
pub assume_specification[ url::Url::parse ](input: &str) -> (r: Result<url::Url, url::ParseError>)
    ensures
        r is Ok <==> url_parses(input@),
;

/// Relies on `url::Url::join`: resolves a relative reference against a base;
/// nothing is promised of the outcome.
pub assume_specification[ url::Url::join ](base: &url::Url, input: &str) -> (r: Result<
    url::Url,
    url::ParseError,
>);

/// Client of the versioned store's REST protocol: the parsed base address
/// and the endpoints built on it. The requests themselves are sent by the
/// caller.
#[derive(Debug)]
pub struct NessieClient {
    base_url: url::Url,
}

/// `a` followed by `b`.
fn concat_str(a: &str, b: &str) -> (r: String)
    ensures
        r@ == a@ + b@,
{
    let mut s = String::from_str(a);
    s.append(b);
    s
}

/// The path of the reference list.
pub open spec fn references_path_spec() -> Seq<char> {
    seq!['t', 'r', 'e', 'e', 's']
}

/// The path of one reference, or of a hash-qualified reference.
pub open spec fn reference_path_spec(reference: Seq<char>) -> Seq<char> {
    references_path_spec() + seq!['/'] + reference
}

/// The path of the entry listing at a reference.
pub open spec fn entries_path_spec(reference: Seq<char>) -> Seq<char> {
    reference_path_spec(reference) + seq!['/', 'e', 'n', 't', 'r', 'i', 'e', 's']
}

/// The path a commit on a hash-qualified reference is posted to.
pub open spec fn commit_path_spec(reference: Seq<char>) -> Seq<char> {
    reference_path_spec(reference) + seq![
        '/',
        'h',
        'i',
        's',
        't',
        'o',
        'r',
        'y',
        '/',
        'c',
        'o',
        'm',
        'm',
        'i',
        't',
    ]
}

/// The path of the content stored under a flattened key at a reference.
pub open spec fn contents_path_spec(reference: Seq<char>, key: Seq<char>) -> Seq<char> {
    reference_path_spec(reference) + seq!['/', 'c', 'o', 'n', 't', 'e', 'n', 't', 's', '/'] + key
}

/// `name@hash`: a reference pinned to one point of its history.
pub open spec fn hash_qualified_spec(name: Seq<char>, hash: Seq<char>) -> Seq<char> {
    name + seq!['@'] + hash
}

/// The path of the reference list.
pub fn references_path() -> (r: String)
    ensures
        r@ == references_path_spec(),
{
    proof {
        reveal_strlit("trees");
    }
    let r = String::from_str("trees");
    assert(r@ =~= references_path_spec());
    r
}

/// The path of one reference (a bare name or `name@hash`).
pub fn reference_path(reference: &str) -> (r: String)
    ensures
        r@ == reference_path_spec(reference@),
{
    proof {
        reveal_strlit("trees/");
    }
    let r = concat_str("trees/", reference);
    assert(r@ =~= reference_path_spec(reference@));
    r
}

/// The path of the entry listing at a reference.
pub fn entries_path(reference: &str) -> (r: String)
    ensures
        r@ == entries_path_spec(reference@),
{
    proof {
        reveal_strlit("/entries");
    }
    let p = reference_path(reference);
    let r = concat_str(p.as_str(), "/entries");
    assert(r@ =~= entries_path_spec(reference@));
    r
}

/// The path a commit on a hash-qualified reference is posted to.
pub fn commit_path(reference: &str) -> (r: String)
    ensures
        r@ == commit_path_spec(reference@),
{
    proof {
        reveal_strlit("/history/commit");
    }
    let p = reference_path(reference);
    let r = concat_str(p.as_str(), "/history/commit");
    assert(r@ =~= commit_path_spec(reference@));
    r
}

/// The path of the content stored under a key at a reference.
pub fn contents_path(reference: &str, key: &ContentKey) -> (r: String)
    ensures
        r@ == contents_path_spec(reference@, join_segments(key@)),
{
    proof {
        reveal_strlit("/contents/");
    }
    let p = reference_path(reference);
    let a = concat_str(p.as_str(), "/contents/");
    let flat = key.flatten();
    let r = concat_str(a.as_str(), flat.as_str());
    assert(r@ =~= contents_path_spec(reference@, join_segments(key@)));
    r
}

/// `name@hash`.
pub fn hash_qualified(name: &str, hash: &str) -> (r: String)
    ensures
        r@ == hash_qualified_spec(name@, hash@),
{
    proof {
        reveal_strlit("@");
    }
    let a = concat_str(name, "@");
    let r = concat_str(a.as_str(), hash);
    assert(r@ =~= hash_qualified_spec(name@, hash@));
    r
}

/// Whether the reference text pins a hash (holds an `@`).
pub fn is_hash_qualified(reference: &str) -> (r: bool)
    ensures
        r == reference@.contains('@'),
{
    let n = reference.unicode_len();
    let mut i: usize = 0;
    while i < n
        invariant
            n == reference@.len(),
            i <= n,
            forall|j: int| 0 <= j < i ==> reference@[j] != '@',
        decreases n - i,
    {
        if reference.get_char(i) == '@' {
            return true;
        }
        i = i + 1;
    }
    false
}

/// The text a reference is addressed by when it is deleted: `name@hash`
/// when it has a hash, so that the service refuses a reference that moved,
/// else its bare name.
pub fn deletion_target(reference: &Reference) -> (r: String)
    ensures
        reference.hash is Some ==> r@ == hash_qualified_spec(reference.name@, reference.hash->Some_0@),
        reference.hash is None ==> r@ == reference.name@,
{
    match &reference.hash {
        Some(h) => hash_qualified(reference.name.as_str(), h.as_str()),
        None => reference.name.clone(),
    }
}

/// The outcome of a response status: `Ok` for 2xx, `NotFound` for 404,
/// `Conflict` for 409, and otherwise a protocol error that keeps the body.
pub fn classify_status(status: u16, body: String) -> (r: Result<(), NessieError>)
    ensures
        200 <= status < 300 <==> r is Ok,
        status == 404 ==> (r matches Err(NessieError::NotFound(b)) && b == body),
        status == 409 ==> (r matches Err(NessieError::Conflict(b)) && b == body),
        !(200 <= status < 300 || status == 404 || status == 409) ==> (r matches Err(
            NessieError::Protocol { status: s, body: b },
        ) && s == status && b == body),
{
    if 200 <= status && status < 300 {
        Ok(())
    } else if status == 404 {
        Err(NessieError::NotFound(body))
    } else if status == 409 {
        Err(NessieError::Conflict(body))
    } else {
        Err(NessieError::Protocol { status, body })
    }
}

impl NessieClient {
    /// A client for the service at `base_url`; fails when the text is not
    /// an absolute URL.
    pub fn new(base_url: &str) -> (r: Result<NessieClient, NessieError>)
        ensures
            r is Ok <==> url_parses(base_url@),
            r is Err ==> r->Err_0 is Url,
    {
        match url::Url::parse(base_url) {
            Ok(u) => Ok(NessieClient { base_url: u }),
            Err(e) => Err(NessieError::Url(e)),
        }
    }

    /// The base address resolved against `path`.
    pub fn endpoint(&self, path: &str) -> (r: Result<url::Url, NessieError>)
        ensures
            r is Err ==> r->Err_0 is Url,
    {
        match self.base_url.join(path) {
            Ok(u) => Ok(u),
            Err(e) => Err(NessieError::Url(e)),
        }
    }

    /// The address of the reference list.
    pub fn references_url(&self) -> (r: Result<url::Url, NessieError>)
        ensures
            r is Err ==> r->Err_0 is Url,
    {
        let p = references_path();
        self.endpoint(p.as_str())
    }

    /// The address of one reference.
    pub fn reference_url(&self, reference: &str) -> (r: Result<url::Url, NessieError>)
        ensures
            r is Err ==> r->Err_0 is Url,
    {
        let p = reference_path(reference);
        self.endpoint(p.as_str())
    }

    /// The address of the entry listing at a reference.
    pub fn entries_url(&self, reference: &str) -> (r: Result<url::Url, NessieError>)
        ensures
            r is Err ==> r->Err_0 is Url,
    {
        let p = entries_path(reference);
        self.endpoint(p.as_str())
    }

    /// The address of the content stored under a key at a reference.
    pub fn contents_url(&self, reference: &str, key: &ContentKey) -> (r: Result<url::Url, NessieError>)
        ensures
            r is Err ==> r->Err_0 is Url,
    {
        let p = contents_path(reference, key);
        self.endpoint(p.as_str())
    }

    /// The address a commit is posted to; the reference must pin a hash.
    pub fn commit_url(&self, reference: &str) -> (r: Result<url::Url, NessieError>)
        ensures
            !reference@.contains('@') <==> (r is Err && r->Err_0 is Validation),
            r is Err ==> (r->Err_0 is Validation || r->Err_0 is Url),
    {
        if !is_hash_qualified(reference) {
            return Err(
                NessieError::Validation(String::from_str("a commit needs a hash-qualified reference")),
            );
        }
        let p = commit_path(reference);
        self.endpoint(p.as_str())
    }
}

} // verus!
