//! Internal error kinds and the error value that carries them.
//!
//! An error is a kind tag plus an optional underlying cause; it renders as
//! `kind(cause)` when a cause is present and as `kind` alone otherwise.

use vstd::prelude::*;

verus! {

/// The kind tag of an internal failure.
#[derive(Debug, PartialEq, Eq, Structural, Clone)]
pub enum InternalErrorKind {
    /// An arithmetic overflow occurred during a capacity calculation.
    CapacityOverflow,
    /// The transaction pool is already full.
    TransactionPoolFull,
    /// The transaction already exists in the transaction pool.
    PoolTransactionDuplicated,
    /// Persistent data has been corrupted.
    DataCorrupted,
    /// A database exception.
    Database,
    /// A virtual-machine internal error.
    VM,
    /// An unknown system error.
    System,
}

/// An internal error: a kind tag with an optional underlying cause.
#[derive(Debug)]
pub struct InternalError {
    pub kind: InternalErrorKind,
    pub cause: Option<String>,
}

/// The text naming an error kind, as it appears in a rendered error.
pub open spec fn kind_label(k: InternalErrorKind) -> Seq<char> {
    match k {
        InternalErrorKind::CapacityOverflow => "CapacityOverflow"@,
        InternalErrorKind::TransactionPoolFull => "TransactionPoolFull"@,
        InternalErrorKind::PoolTransactionDuplicated => "PoolTransactionDuplicated"@,
        InternalErrorKind::DataCorrupted => "DataCorrupted"@,
        InternalErrorKind::Database => "Database"@,
        InternalErrorKind::VM => "VM"@,
        InternalErrorKind::System => "System"@,
    }
}

impl InternalErrorKind {
    /// The text naming this kind.
    pub fn label(&self) -> (r: String)
        ensures
            r@ == kind_label(*self),
    {
        match self {
            InternalErrorKind::CapacityOverflow => String::from_str("CapacityOverflow"),
            InternalErrorKind::TransactionPoolFull => String::from_str("TransactionPoolFull"),
            InternalErrorKind::PoolTransactionDuplicated => String::from_str(
                "PoolTransactionDuplicated",
            ),
            InternalErrorKind::DataCorrupted => String::from_str("DataCorrupted"),
            InternalErrorKind::Database => String::from_str("Database"),
            InternalErrorKind::VM => String::from_str("VM"),
            InternalErrorKind::System => String::from_str("System"),
        }
    }

    /// Wraps this kind around an underlying failure.
    pub fn cause(self, cause: String) -> (r: InternalError)
        ensures
            r.kind_spec() == self,
            r.cause_spec() == Some(cause@),
    {
        InternalError { kind: self, cause: Some(cause) }
    }

    /// Wraps this kind around a textual reason.
    pub fn reason(self, reason: String) -> (r: InternalError)
        ensures
            r.kind_spec() == self,
            r.cause_spec() == Some(reason@),
    {
        InternalError { kind: self, cause: Some(reason) }
    }
}

impl InternalError {
    /// The kind this error carries.
    pub open spec fn kind_spec(&self) -> InternalErrorKind {
        self.kind
    }

    /// The cause text this error carries, if any.
    pub open spec fn cause_spec(&self) -> Option<Seq<char>> {
        match self.cause {
            Some(c) => Some(c@),
            None => None,
        }
    }

    /// The kind this error carries.
    pub fn kind(&self) -> (r: &InternalErrorKind)
        ensures
            *r == self.kind_spec(),
    {
        &self.kind
    }

    /// Renders the error as `kind(cause)`, or as `kind` alone without a cause.
    pub fn render(&self) -> (r: String)
        ensures
            r@ == match self.cause_spec() {
                Some(c) => kind_label(self.kind_spec()) + "("@ + c + ")"@,
                None => kind_label(self.kind_spec()),
            },
    {
        let mut out = self.kind.label();
        match &self.cause {
            Some(c) => {
                out.append("(");
                out.append(c.as_str());
                out.append(")");
                out
            },
            None => out,
        }
    }
}

impl From<InternalErrorKind> for InternalError {
    /// An error of the given kind with no cause.
    fn from(kind: InternalErrorKind) -> (r: InternalError) {
        InternalError { kind, cause: None }
    }
}

impl vstd::std_specs::convert::FromSpecImpl<InternalErrorKind> for InternalError {
    open spec fn obeys_from_spec() -> bool {
        true
    }

    open spec fn from_spec(kind: InternalErrorKind) -> InternalError {
        InternalError { kind, cause: None }
    }
}

} // verus!
