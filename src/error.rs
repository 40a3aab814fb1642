use vstd::prelude::*;

verus! {

/// Errors raised while filling collections or building a model.
#[derive(Debug, PartialEq, Eq)]
pub enum Error {
    /// An entity with this identifier already stands in the target collection.
    DuplicateId(String),
    /// A foreign key of the named relation does not resolve.
    ReferentialIntegrity { relation: String, id: String },
    /// An omitted foreign key could not be defaulted: the number of candidates
    /// was not exactly one.
    AmbiguousForeignKey { relation: String, candidates: usize },
    /// Vehicle journeys were to be made with no dataset to hold them.
    NoDataset,
}

impl Error {
    /// Whether this is a duplicate-identifier error naming `id`.
    pub open spec fn is_duplicate_id(&self, id: Seq<char>) -> bool {
        match self {
            Error::DuplicateId(s) => s@ == id,
            _ => false,
        }
    }

    /// Whether this is an ambiguous-key error of `relation` with `n` candidates.
    pub open spec fn is_ambiguous(&self, relation: Seq<char>, n: nat) -> bool {
        match self {
            Error::AmbiguousForeignKey { relation: r, candidates: c } => r@ == relation && *c as nat == n,
            _ => false,
        }
    }

    /// Whether this is a referential-integrity error of `relation` naming `id`.
    pub open spec fn is_dangling(&self, relation: Seq<char>, id: Seq<char>) -> bool {
        match self {
            Error::ReferentialIntegrity { relation: r, id: i } => r@ == relation && i@ == id,
            _ => false,
        }
    }
}

} // verus!
