//! The shape of the ledger: its tables, the references between them with what
//! happens to a child when its parent is destroyed, the keys that must stay
//! unique, the value checks, and the errors a refused mutation comes back
//! with.

use vstd::prelude::*;

verus! {

/// The tables of the ledger.
#[derive(Debug, Clone, Copy, PartialEq, Eq, Structural)]
pub enum Table {
    Client,
    Auction,
    Bundle,
    Sale,
    SaleDetail,
    Transaction,
}

/// What becomes of a child row when the parent it points to is destroyed.
#[derive(Debug, Clone, Copy, PartialEq, Eq, Structural)]
pub enum OnDelete {
    /// The child row is removed with its parent.
    Cascade,
    /// The child row stays and its reference is cleared.
    SetNull,
}

/// The references between tables, each from a child to its parent.
#[derive(Debug, Clone, Copy, PartialEq, Eq, Structural)]
pub enum Reference {
    /// A bundle to the client who sells it.
    BundleSeller,
    /// A bundle to the auction it is offered at.
    BundleAuction,
    /// A sale to the auction it closed at.
    SaleAuction,
    /// A sale to the client who bought.
    SaleBuyer,
    /// A sale detail to its sale.
    DetailSale,
    /// A sale detail to the bundle sold.
    DetailBundle,
    /// A transaction to its auction.
    TransactionAuction,
    /// A transaction to its client.
    TransactionClient,
}

/// The keys that no two rows of a table may share.
#[derive(Debug, Clone, Copy, PartialEq, Eq, Structural)]
pub enum UniqueKey {
    /// A client's company name.
    ClientCompany,
    /// A bundle's lot number within its auction.
    BundleLot,
    /// A sale detail's pair of sale and bundle.
    DetailPair,
}

/// The checks on single values.
#[derive(Debug, Clone, Copy, PartialEq, Eq, Structural)]
pub enum CheckRule {
    /// An auction's status is one of the known words.
    AuctionStatus,
    /// A transaction's kind is one of the known words.
    TransactionKind,
    /// A transaction's amount is not negative.
    TransactionAmount,
}

/// Why the store refused a mutation. A refused mutation changes nothing.
#[derive(Debug, Clone, Copy, PartialEq, Eq, Structural)]
pub enum StoreError {
    /// Another row already holds the key.
    Unique(UniqueKey),
    /// The row points to a parent that is not there.
    ForeignKey(Reference),
    /// A value is outside what its column admits.
    Check(CheckRule),
    /// The row to change is not in the table.
    NotFound(Table),
    /// The table has handed out its last identifier.
    Exhausted(Table),
}

impl Reference {
    /// The table whose rows hold the reference.
    pub open spec fn spec_child(self) -> Table {
        match self {
            Reference::BundleSeller => Table::Bundle,
            Reference::BundleAuction => Table::Bundle,
            Reference::SaleAuction => Table::Sale,
            Reference::SaleBuyer => Table::Sale,
            Reference::DetailSale => Table::SaleDetail,
            Reference::DetailBundle => Table::SaleDetail,
            Reference::TransactionAuction => Table::Transaction,
            Reference::TransactionClient => Table::Transaction,
        }
    }

    /// The table the reference points into.
    pub open spec fn spec_parent(self) -> Table {
        match self {
            Reference::BundleSeller => Table::Client,
            Reference::BundleAuction => Table::Auction,
            Reference::SaleAuction => Table::Auction,
            Reference::SaleBuyer => Table::Client,
            Reference::DetailSale => Table::Sale,
            Reference::DetailBundle => Table::Bundle,
            Reference::TransactionAuction => Table::Auction,
            Reference::TransactionClient => Table::Client,
        }
    }

    /// What the reference does to the child when the parent is destroyed:
    /// a sale outlives its buyer, everything else goes with its parent.
    pub open spec fn spec_on_delete(self) -> OnDelete {
        match self {
            Reference::SaleBuyer => OnDelete::SetNull,
            _ => OnDelete::Cascade,
        }
    }

    #[verifier::when_used_as_spec(spec_child)]
    pub fn child(self) -> (t: Table)
        ensures
            t == self.spec_child(),
    {
        match self {
            Reference::BundleSeller | Reference::BundleAuction => Table::Bundle,
            Reference::SaleAuction | Reference::SaleBuyer => Table::Sale,
            Reference::DetailSale | Reference::DetailBundle => Table::SaleDetail,
            Reference::TransactionAuction | Reference::TransactionClient => Table::Transaction,
        }
    }

    #[verifier::when_used_as_spec(spec_parent)]
    pub fn parent(self) -> (t: Table)
        ensures
            t == self.spec_parent(),
    {
        match self {
            Reference::BundleSeller | Reference::SaleBuyer | Reference::TransactionClient => {
                Table::Client
            },
            Reference::BundleAuction | Reference::SaleAuction | Reference::TransactionAuction => {
                Table::Auction
            },
            Reference::DetailSale => Table::Sale,
            Reference::DetailBundle => Table::Bundle,
        }
    }

    #[verifier::when_used_as_spec(spec_on_delete)]
    pub fn on_delete(self) -> (action: OnDelete)
        ensures
            action == self.spec_on_delete(),
    {
        match self {
            Reference::SaleBuyer => OnDelete::SetNull,
            _ => OnDelete::Cascade,
        }
    }
}

} // verus!
