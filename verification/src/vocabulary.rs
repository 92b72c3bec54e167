//! The closed vocabularies of the ledger: auction status and transaction kind.
//!
//! The store receives both as free text and rejects anything outside the
//! vocabulary; once accepted, a value lives in the row as one of these enums.

use vstd::prelude::*;

verus! {

/// Where an auction stands in its life. The store constrains the value, not
/// the order in which values follow one another.
#[derive(Debug, Clone, Copy, PartialEq, Eq, Structural)]
pub enum AuctionStatus {
    Pending,
    InProgress,
    Cancelled,
    Finished,
}

/// Whether money was paid out or collected.
#[derive(Debug, Clone, Copy, PartialEq, Eq, Structural)]
pub enum TransactionKind {
    Payment,
    Collection,
}

/// Whether two texts hold the same characters.
pub fn same_text(a: &str, b: &str) -> (r: bool)
    ensures
        r == (a@ == b@),
{
    let left = a.to_owned();
    let right = b.to_owned();
    left == right
}

impl AuctionStatus {
    /// The word that stands for a status in stored text.
    pub open spec fn text(self) -> Seq<char> {
        match self {
            AuctionStatus::Pending => "PENDING"@,
            AuctionStatus::InProgress => "IN_PROGRESS"@,
            AuctionStatus::Cancelled => "CANCELLED"@,
            AuctionStatus::Finished => "FINISHED"@,
        }
    }

    /// The status a text names, if it names one.
    pub open spec fn parse(text: Seq<char>) -> Option<AuctionStatus> {
        if text == "PENDING"@ {
            Some(AuctionStatus::Pending)
        } else if text == "IN_PROGRESS"@ {
            Some(AuctionStatus::InProgress)
        } else if text == "CANCELLED"@ {
            Some(AuctionStatus::Cancelled)
        } else if text == "FINISHED"@ {
            Some(AuctionStatus::Finished)
        } else {
            None
        }
    }

    /// The status every auction starts in.
    pub open spec fn initial() -> AuctionStatus {
        AuctionStatus::Pending
    }

    pub fn from_text(text: &str) -> (r: Option<AuctionStatus>)
        ensures
            r == Self::parse(text@),
    {
        if same_text(text, "PENDING") {
            Some(AuctionStatus::Pending)
        } else if same_text(text, "IN_PROGRESS") {
            Some(AuctionStatus::InProgress)
        } else if same_text(text, "CANCELLED") {
            Some(AuctionStatus::Cancelled)
        } else if same_text(text, "FINISHED") {
            Some(AuctionStatus::Finished)
        } else {
            None
        }
    }

    pub fn as_text(&self) -> (r: &'static str)
        ensures
            r@ == self.text(),
    {
        match self {
            AuctionStatus::Pending => "PENDING",
            AuctionStatus::InProgress => "IN_PROGRESS",
            AuctionStatus::Cancelled => "CANCELLED",
            AuctionStatus::Finished => "FINISHED",
        }
    }
}

impl TransactionKind {
    /// The word that stands for a kind in stored text.
    pub open spec fn text(self) -> Seq<char> {
        match self {
            TransactionKind::Payment => "PAYMENT"@,
            TransactionKind::Collection => "COLLECTION"@,
        }
    }

    /// The kind a text names, if it names one.
    pub open spec fn parse(text: Seq<char>) -> Option<TransactionKind> {
        if text == "PAYMENT"@ {
            Some(TransactionKind::Payment)
        } else if text == "COLLECTION"@ {
            Some(TransactionKind::Collection)
        } else {
            None
        }
    }

    pub fn from_text(text: &str) -> (r: Option<TransactionKind>)
        ensures
            r == Self::parse(text@),
    {
        if same_text(text, "PAYMENT") {
            Some(TransactionKind::Payment)
        } else if same_text(text, "COLLECTION") {
            Some(TransactionKind::Collection)
        } else {
            None
        }
    }

    pub fn as_text(&self) -> (r: &'static str)
        ensures
            r@ == self.text(),
    {
        match self {
            TransactionKind::Payment => "PAYMENT",
            TransactionKind::Collection => "COLLECTION",
        }
    }
}

/// Writing a status out and reading it back gives the same status, and a text
/// is read as a status only if it is that status's own word.
pub proof fn lemma_status_text_round_trip(status: AuctionStatus)
    ensures
        AuctionStatus::parse(status.text()) == Some(status),
        forall|text: Seq<char>|
            AuctionStatus::parse(text) == Some(status) ==> text == status.text(),
{
    reveal_strlit("PENDING");
    reveal_strlit("IN_PROGRESS");
    reveal_strlit("CANCELLED");
    reveal_strlit("FINISHED");
    assert("PENDING"@.len() == 7);
    assert("IN_PROGRESS"@.len() == 11);
    assert("CANCELLED"@.len() == 9);
    assert("FINISHED"@.len() == 8);
}

/// Writing a kind out and reading it back gives the same kind, and a text is
/// read as a kind only if it is that kind's own word.
pub proof fn lemma_kind_text_round_trip(kind: TransactionKind)
    ensures
        TransactionKind::parse(kind.text()) == Some(kind),
        forall|text: Seq<char>|
            TransactionKind::parse(text) == Some(kind) ==> text == kind.text(),
{
    reveal_strlit("PAYMENT");
    reveal_strlit("COLLECTION");
    assert("PAYMENT"@.len() == 7);
    assert("COLLECTION"@.len() == 10);
}

} // verus!
