use vstd::prelude::*;

pub mod analyzer;
pub mod cache;
pub mod crawler;
pub mod engine;
pub mod error;
pub mod models;
pub mod parser;

pub use error::Error;

verus! {

// The library decodes a repository's ref advertisement (a length-prefixed
// line protocol), memoizes expensive lookups, crawls manifest files across
// sub-packages, and classifies declared dependencies against registry data.
// The surrounding runtime performs all I/O and hands the results to these
// verified state machines and transforms.

/// Opaque hex identifier of a commit, compared and hashed by content.
#[derive(Debug, Clone, PartialEq, Eq, Hash)]
pub struct ObjectId(pub(crate) String);

impl View for ObjectId {
    type V = Seq<char>;

    closed spec fn view(&self) -> Seq<char> {
        self.0@
    }
}

impl ObjectId {
    /// The identifier as text.
    pub fn as_ref(&self) -> (r: &str)
        ensures
            r@ == self@,
    {
        self.0.as_str()
    }
}

/// One advertised ref: its name and the commit it points at.
#[derive(Debug, Clone, PartialEq, Eq, Hash)]
pub struct Ref {
    pub name: String,
    pub oid: ObjectId,
}

/// The input of a ref-advertisement request: the repository's clone URL.
pub struct LsRemoteRequest {
    pub https_clone_url: String,
}

} // verus!
