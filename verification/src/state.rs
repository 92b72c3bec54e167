//! The ledger as a mathematical value: six tables, the latest time it has
//! been told of, and the next identifier of each table; what it means for
//! that value to be sound; and what each mutation makes of it.
//!
//! Every mutation comes as a pair: when it is refused and why, and what the
//! ledger is afterwards when it is not.

use vstd::prelude::*;
use crate::row::{
    fresh, has_id, ids_of, index_of, later, other_than, retired, revised, rows_ok, seen, visible,
    Auction, AuctionDraft, Bundle, Client, Row, Sale, SaleDetail, SaleDraft, SaleTerms, Transaction,
    TransactionDraft,
};
use crate::schema::{CheckRule, Reference, StoreError, Table, UniqueKey};
use crate::vocabulary::{AuctionStatus, TransactionKind};

verus! {

/// The whole ledger at one moment.
pub struct State {
    pub clock: u64,
    pub clients: Seq<Row<Client>>,
    pub auctions: Seq<Row<Auction>>,
    pub bundles: Seq<Row<Bundle>>,
    pub sales: Seq<Row<Sale>>,
    pub details: Seq<Row<SaleDetail>>,
    pub transactions: Seq<Row<Transaction>>,
    pub next_client: u64,
    pub next_auction: u64,
    pub next_bundle: u64,
    pub next_sale: u64,
    pub next_detail: u64,
    pub next_transaction: u64,
}

/// Every row passes.
pub open spec fn all<T>(rows: Seq<Row<T>>, holds: spec_fn(Row<T>) -> bool) -> bool {
    forall|i: int| 0 <= i < rows.len() ==> holds(#[trigger] rows[i])
}

/// No two clients share a company name.
pub open spec fn companies_unique(clients: Seq<Row<Client>>) -> bool {
    forall|i: int, j: int|
        0 <= i < clients.len() && 0 <= j < clients.len() && i != j ==> (
        #[trigger] clients[i]).data.company@ != (#[trigger] clients[j]).data.company@
}

/// Two bundles carry the same lot number at the same auction.
pub open spec fn same_lot(a: Bundle, b: Bundle) -> bool {
    a.number == b.number && a.auction == b.auction
}

/// No two bundles share a lot number within one auction.
pub open spec fn lots_unique(bundles: Seq<Row<Bundle>>) -> bool {
    forall|i: int, j: int|
        0 <= i < bundles.len() && 0 <= j < bundles.len() && i != j ==> !same_lot(
            (#[trigger] bundles[i]).data,
            (#[trigger] bundles[j]).data,
        )
}

/// No bundle appears twice in one sale.
pub open spec fn pairs_unique(details: Seq<Row<SaleDetail>>) -> bool {
    forall|i: int, j: int|
        0 <= i < details.len() && 0 <= j < details.len() && i != j ==> (
        #[trigger] details[i]).data != (#[trigger] details[j]).data
}

/// The transaction's amount is not negative.
pub open spec fn amount_ok() -> spec_fn(Row<Transaction>) -> bool {
    |row: Row<Transaction>| row.data.amount >= 0
}

/// The bundle's seller and auction are there.
pub open spec fn bundle_resolves(
    clients: Seq<Row<Client>>,
    auctions: Seq<Row<Auction>>,
) -> spec_fn(Row<Bundle>) -> bool {
    |row: Row<Bundle>| has_id(clients, row.data.seller) && has_id(auctions, row.data.auction)
}

/// The sale's auction is there.
pub open spec fn sale_anchored(auctions: Seq<Row<Auction>>) -> spec_fn(Row<Sale>) -> bool {
    |row: Row<Sale>| has_id(auctions, row.data.auction)
}

/// The sale names no buyer, or one who is there.
pub open spec fn buyer_resolves(clients: Seq<Row<Client>>) -> spec_fn(Row<Sale>) -> bool {
    |row: Row<Sale>|
        match row.data.buyer {
            Some(buyer) => has_id(clients, buyer),
            None => true,
        }
}

/// The sale with its buyer cleared at time `stamp`, if the buyer is gone;
/// the sale as it is, if not.
pub open spec fn release_buyer(clients: Seq<Row<Client>>, stamp: u64) -> spec_fn(Row<Sale>) -> Row<
    Sale,
> {
    |row: Row<Sale>|
        if buyer_resolves(clients)(row) {
            row
        } else {
            Row { updated_at: stamp, data: Sale { buyer: None, ..row.data }, ..row }
        }
}

/// The detail's sale and bundle are there.
pub open spec fn detail_resolves(
    sales: Seq<Row<Sale>>,
    bundles: Seq<Row<Bundle>>,
) -> spec_fn(Row<SaleDetail>) -> bool {
    |row: Row<SaleDetail>| has_id(sales, row.data.sale) && has_id(bundles, row.data.bundle)
}

/// The transaction's auction and client are there.
pub open spec fn transaction_resolves(
    clients: Seq<Row<Client>>,
    auctions: Seq<Row<Auction>>,
) -> spec_fn(Row<Transaction>) -> bool {
    |row: Row<Transaction>|
        has_id(auctions, row.data.auction) && has_id(clients, row.data.client)
}

/// The status a draft asks for: the word it carries, read; or `current`
/// where it carries none.
pub open spec fn draft_status(draft: AuctionDraft, current: AuctionStatus) -> Option<
    AuctionStatus,
> {
    match draft.status {
        Some(text) => AuctionStatus::parse(text@),
        None => Some(current),
    }
}

/// The auction a draft describes, with its status settled.
pub open spec fn auction_of(draft: AuctionDraft, status: AuctionStatus) -> Auction {
    Auction {
        name: draft.name,
        province: draft.province,
        city: draft.city,
        date: draft.date,
        status,
    }
}

/// The sale a draft describes.
pub open spec fn sale_of(draft: SaleDraft) -> Sale {
    Sale {
        auction: draft.auction,
        buyer: Some(draft.buyer),
        total_price: draft.total_price,
        deadline: draft.deadline,
    }
}

/// The sale with new terms and the buyer it had, if it had one.
pub open spec fn sale_with(sale: Sale, terms: SaleTerms) -> Sale {
    Sale {
        auction: terms.auction,
        buyer: sale.buyer,
        total_price: terms.total_price,
        deadline: terms.deadline,
    }
}

/// The transaction a draft describes, with its kind settled.
pub open spec fn transaction_of(draft: TransactionDraft, kind: TransactionKind) -> Transaction {
    Transaction { auction: draft.auction, client: draft.client, amount: draft.amount, kind }
}

/// The table with the row of this identifier replaced.
pub open spec fn replaced<T>(rows: Seq<Row<T>>, id: u64, row: Row<T>) -> Seq<Row<T>> {
    rows.update(index_of(rows, id), row)
}

/// The row with this identifier.
pub open spec fn row_of<T>(rows: Seq<Row<T>>, id: u64) -> Row<T> {
    rows[index_of(rows, id)]
}

/// The row a query for `id` finds: the one with that identifier, unless it is
/// retired and the query did not ask for retired rows.
pub open spec fn found<T>(rows: Seq<Row<T>>, id: u64, include_deleted: bool) -> Option<Row<T>> {
    if has_id(rows, id) && visible(row_of(rows, id), include_deleted) {
        Some(row_of(rows, id))
    } else {
        None
    }
}

impl State {
    /// A ledger nobody has written to.
    pub open spec fn empty() -> State {
        State {
            clock: 0,
            clients: Seq::empty(),
            auctions: Seq::empty(),
            bundles: Seq::empty(),
            sales: Seq::empty(),
            details: Seq::empty(),
            transactions: Seq::empty(),
            next_client: 1,
            next_auction: 1,
            next_bundle: 1,
            next_sale: 1,
            next_detail: 1,
            next_transaction: 1,
        }
    }

    /// What holds of each table by itself: identifiers and timestamps are
    /// in order, unique keys are unique, checked values pass their check.
    pub open spec fn tables_ok(self) -> bool {
        &&& rows_ok(self.clients, self.next_client, self.clock)
        &&& rows_ok(self.auctions, self.next_auction, self.clock)
        &&& rows_ok(self.bundles, self.next_bundle, self.clock)
        &&& rows_ok(self.sales, self.next_sale, self.clock)
        &&& rows_ok(self.details, self.next_detail, self.clock)
        &&& rows_ok(self.transactions, self.next_transaction, self.clock)
        &&& companies_unique(self.clients)
        &&& lots_unique(self.bundles)
        &&& pairs_unique(self.details)
        &&& all(self.transactions, amount_ok())
    }

    /// Every reference points to a row that is there.
    pub open spec fn references_ok(self) -> bool {
        &&& all(self.bundles, bundle_resolves(self.clients, self.auctions))
        &&& all(self.sales, sale_anchored(self.auctions))
        &&& all(self.sales, buyer_resolves(self.clients))
        &&& all(self.details, detail_resolves(self.sales, self.bundles))
        &&& all(self.transactions, transaction_resolves(self.clients, self.auctions))
    }

    /// The ledger is sound.
    pub open spec fn wf(self) -> bool {
        self.tables_ok() && self.references_ok()
    }

    /// The ledger once the store has learnt that it is `now`.
    pub open spec fn at(self, now: u64) -> State {
        State { clock: later(self.clock, now), ..self }
    }

    /// Whether the table holds a row with this identifier, retired or not.
    pub open spec fn holds(self, table: Table, id: u64) -> bool {
        match table {
            Table::Client => has_id(self.clients, id),
            Table::Auction => has_id(self.auctions, id),
            Table::Bundle => has_id(self.bundles, id),
            Table::Sale => has_id(self.sales, id),
            Table::SaleDetail => has_id(self.details, id),
            Table::Transaction => has_id(self.transactions, id),
        }
    }

    /// The identifiers a query of the table returns, in the order in which
    /// they were handed out. Retired rows are left out unless asked for.
    pub open spec fn ids(self, table: Table, include_deleted: bool) -> Seq<u64> {
        match table {
            Table::Client => ids_of(self.clients.filter(seen(include_deleted))),
            Table::Auction => ids_of(self.auctions.filter(seen(include_deleted))),
            Table::Bundle => ids_of(self.bundles.filter(seen(include_deleted))),
            Table::Sale => ids_of(self.sales.filter(seen(include_deleted))),
            Table::SaleDetail => ids_of(self.details.filter(seen(include_deleted))),
            Table::Transaction => ids_of(self.transactions.filter(seen(include_deleted))),
        }
    }

    // ---------------------------------------------------------------- clients
    /// Another client than `except` already carries the company name.
    pub open spec fn company_taken(self, company: Seq<char>, except: Option<u64>) -> bool {
        exists|i: int|
            0 <= i < self.clients.len() && Some((#[trigger] self.clients[i]).id) != except
                && self.clients[i].data.company@ == company
    }

    /// Why these client data cannot stand in the table, if they cannot.
    pub open spec fn client_refusal(self, data: Client, except: Option<u64>) -> Option<StoreError> {
        if self.company_taken(data.company@, except) {
            Some(StoreError::Unique(UniqueKey::ClientCompany))
        } else {
            None
        }
    }

    pub open spec fn insert_client_refusal(self, data: Client) -> Option<StoreError> {
        if self.next_client == u64::MAX {
            Some(StoreError::Exhausted(Table::Client))
        } else {
            self.client_refusal(data, None)
        }
    }

    pub open spec fn insert_client(self, data: Client, now: u64) -> State {
        State {
            clock: later(self.clock, now),
            clients: self.clients.push(fresh(self.next_client, now, data)),
            next_client: (self.next_client + 1) as u64,
            ..self
        }
    }

    pub open spec fn update_client_refusal(self, id: u64, data: Client) -> Option<StoreError> {
        if !has_id(self.clients, id) {
            Some(StoreError::NotFound(Table::Client))
        } else {
            self.client_refusal(data, Some(id))
        }
    }

    pub open spec fn update_client(self, id: u64, data: Client, now: u64) -> State {
        State {
            clock: later(self.clock, now),
            clients: replaced(self.clients, id, revised(row_of(self.clients, id), now, data)),
            ..self
        }
    }

    // --------------------------------------------------------------- auctions
    pub open spec fn insert_auction_refusal(self, draft: AuctionDraft) -> Option<StoreError> {
        if self.next_auction == u64::MAX {
            Some(StoreError::Exhausted(Table::Auction))
        } else if draft_status(draft, AuctionStatus::initial()) is None {
            Some(StoreError::Check(CheckRule::AuctionStatus))
        } else {
            None
        }
    }

    pub open spec fn insert_auction(self, draft: AuctionDraft, now: u64) -> State {
        let status = draft_status(draft, AuctionStatus::initial()).unwrap();
        State {
            clock: later(self.clock, now),
            auctions: self.auctions.push(
                fresh(self.next_auction, now, auction_of(draft, status)),
            ),
            next_auction: (self.next_auction + 1) as u64,
            ..self
        }
    }

    pub open spec fn update_auction_refusal(self, id: u64, draft: AuctionDraft) -> Option<
        StoreError,
    > {
        if !has_id(self.auctions, id) {
            Some(StoreError::NotFound(Table::Auction))
        } else if draft_status(draft, row_of(self.auctions, id).data.status) is None {
            Some(StoreError::Check(CheckRule::AuctionStatus))
        } else {
            None
        }
    }

    pub open spec fn update_auction(self, id: u64, draft: AuctionDraft, now: u64) -> State {
        let old = row_of(self.auctions, id);
        let status = draft_status(draft, old.data.status).unwrap();
        State {
            clock: later(self.clock, now),
            auctions: replaced(self.auctions, id, revised(old, now, auction_of(draft, status))),
            ..self
        }
    }

    // ---------------------------------------------------------------- bundles
    /// Another bundle than `except` already carries the lot number at the
    /// auction.
    pub open spec fn lot_taken(self, data: Bundle, except: Option<u64>) -> bool {
        exists|i: int|
            0 <= i < self.bundles.len() && Some((#[trigger] self.bundles[i]).id) != except
                && same_lot(self.bundles[i].data, data)
    }

    /// Why these bundle data cannot stand in the table, if they cannot.
    pub open spec fn bundle_refusal(self, data: Bundle, except: Option<u64>) -> Option<StoreError> {
        if self.lot_taken(data, except) {
            Some(StoreError::Unique(UniqueKey::BundleLot))
        } else if !has_id(self.clients, data.seller) {
            Some(StoreError::ForeignKey(Reference::BundleSeller))
        } else if !has_id(self.auctions, data.auction) {
            Some(StoreError::ForeignKey(Reference::BundleAuction))
        } else {
            None
        }
    }

    pub open spec fn insert_bundle_refusal(self, data: Bundle) -> Option<StoreError> {
        if self.next_bundle == u64::MAX {
            Some(StoreError::Exhausted(Table::Bundle))
        } else {
            self.bundle_refusal(data, None)
        }
    }

    pub open spec fn insert_bundle(self, data: Bundle, now: u64) -> State {
        State {
            clock: later(self.clock, now),
            bundles: self.bundles.push(fresh(self.next_bundle, now, data)),
            next_bundle: (self.next_bundle + 1) as u64,
            ..self
        }
    }

    pub open spec fn update_bundle_refusal(self, id: u64, data: Bundle) -> Option<StoreError> {
        if !has_id(self.bundles, id) {
            Some(StoreError::NotFound(Table::Bundle))
        } else {
            self.bundle_refusal(data, Some(id))
        }
    }

    pub open spec fn update_bundle(self, id: u64, data: Bundle, now: u64) -> State {
        State {
            clock: later(self.clock, now),
            bundles: replaced(self.bundles, id, revised(row_of(self.bundles, id), now, data)),
            ..self
        }
    }

    // ------------------------------------------------------------------ sales
    /// Why this sale cannot stand in the table, if it cannot.
    pub open spec fn sale_refusal(self, draft: SaleDraft) -> Option<StoreError> {
        if !has_id(self.auctions, draft.auction) {
            Some(StoreError::ForeignKey(Reference::SaleAuction))
        } else if !has_id(self.clients, draft.buyer) {
            Some(StoreError::ForeignKey(Reference::SaleBuyer))
        } else {
            None
        }
    }

    pub open spec fn insert_sale_refusal(self, draft: SaleDraft) -> Option<StoreError> {
        if self.next_sale == u64::MAX {
            Some(StoreError::Exhausted(Table::Sale))
        } else {
            self.sale_refusal(draft)
        }
    }

    pub open spec fn insert_sale(self, draft: SaleDraft, now: u64) -> State {
        State {
            clock: later(self.clock, now),
            sales: self.sales.push(fresh(self.next_sale, now, sale_of(draft))),
            next_sale: (self.next_sale + 1) as u64,
            ..self
        }
    }

    pub open spec fn update_sale_refusal(self, id: u64, draft: SaleDraft) -> Option<StoreError> {
        if !has_id(self.sales, id) {
            Some(StoreError::NotFound(Table::Sale))
        } else {
            self.sale_refusal(draft)
        }
    }

    pub open spec fn update_sale(self, id: u64, draft: SaleDraft, now: u64) -> State {
        State {
            clock: later(self.clock, now),
            sales: replaced(self.sales, id, revised(row_of(self.sales, id), now, sale_of(draft))),
            ..self
        }
    }

    pub open spec fn update_sale_terms_refusal(self, id: u64, terms: SaleTerms) -> Option<
        StoreError,
    > {
        if !has_id(self.sales, id) {
            Some(StoreError::NotFound(Table::Sale))
        } else if !has_id(self.auctions, terms.auction) {
            Some(StoreError::ForeignKey(Reference::SaleAuction))
        } else {
            None
        }
    }

    pub open spec fn update_sale_terms(self, id: u64, terms: SaleTerms, now: u64) -> State {
        let old = row_of(self.sales, id);
        State {
            clock: later(self.clock, now),
            sales: replaced(self.sales, id, revised(old, now, sale_with(old.data, terms))),
            ..self
        }
    }

    // ----------------------------------------------------------- sale details
    /// Another detail than `except` already joins the sale and the bundle.
    pub open spec fn pair_taken(self, data: SaleDetail, except: Option<u64>) -> bool {
        exists|i: int|
            0 <= i < self.details.len() && Some((#[trigger] self.details[i]).id) != except
                && self.details[i].data == data
    }

    /// Why this detail cannot stand in the table, if it cannot.
    pub open spec fn detail_refusal(self, data: SaleDetail, except: Option<u64>) -> Option<
        StoreError,
    > {
        if self.pair_taken(data, except) {
            Some(StoreError::Unique(UniqueKey::DetailPair))
        } else if !has_id(self.sales, data.sale) {
            Some(StoreError::ForeignKey(Reference::DetailSale))
        } else if !has_id(self.bundles, data.bundle) {
            Some(StoreError::ForeignKey(Reference::DetailBundle))
        } else {
            None
        }
    }

    pub open spec fn insert_detail_refusal(self, data: SaleDetail) -> Option<StoreError> {
        if self.next_detail == u64::MAX {
            Some(StoreError::Exhausted(Table::SaleDetail))
        } else {
            self.detail_refusal(data, None)
        }
    }

    pub open spec fn insert_detail(self, data: SaleDetail, now: u64) -> State {
        State {
            clock: later(self.clock, now),
            details: self.details.push(fresh(self.next_detail, now, data)),
            next_detail: (self.next_detail + 1) as u64,
            ..self
        }
    }

    pub open spec fn update_detail_refusal(self, id: u64, data: SaleDetail) -> Option<StoreError> {
        if !has_id(self.details, id) {
            Some(StoreError::NotFound(Table::SaleDetail))
        } else {
            self.detail_refusal(data, Some(id))
        }
    }

    pub open spec fn update_detail(self, id: u64, data: SaleDetail, now: u64) -> State {
        State {
            clock: later(self.clock, now),
            details: replaced(self.details, id, revised(row_of(self.details, id), now, data)),
            ..self
        }
    }

    // ----------------------------------------------------------- transactions
    /// Why this transaction cannot stand in the table, if it cannot.
    pub open spec fn transaction_refusal(self, draft: TransactionDraft) -> Option<StoreError> {
        if draft.amount < 0 {
            Some(StoreError::Check(CheckRule::TransactionAmount))
        } else if TransactionKind::parse(draft.kind@) is None {
            Some(StoreError::Check(CheckRule::TransactionKind))
        } else if !has_id(self.auctions, draft.auction) {
            Some(StoreError::ForeignKey(Reference::TransactionAuction))
        } else if !has_id(self.clients, draft.client) {
            Some(StoreError::ForeignKey(Reference::TransactionClient))
        } else {
            None
        }
    }

    pub open spec fn insert_transaction_refusal(self, draft: TransactionDraft) -> Option<
        StoreError,
    > {
        if self.next_transaction == u64::MAX {
            Some(StoreError::Exhausted(Table::Transaction))
        } else {
            self.transaction_refusal(draft)
        }
    }

    pub open spec fn insert_transaction(self, draft: TransactionDraft, now: u64) -> State {
        let kind = TransactionKind::parse(draft.kind@).unwrap();
        State {
            clock: later(self.clock, now),
            transactions: self.transactions.push(
                fresh(self.next_transaction, now, transaction_of(draft, kind)),
            ),
            next_transaction: (self.next_transaction + 1) as u64,
            ..self
        }
    }

    pub open spec fn update_transaction_refusal(self, id: u64, draft: TransactionDraft) -> Option<
        StoreError,
    > {
        if !has_id(self.transactions, id) {
            Some(StoreError::NotFound(Table::Transaction))
        } else {
            self.transaction_refusal(draft)
        }
    }

    pub open spec fn update_transaction(self, id: u64, draft: TransactionDraft, now: u64) -> State {
        let kind = TransactionKind::parse(draft.kind@).unwrap();
        State {
            clock: later(self.clock, now),
            transactions: replaced(
                self.transactions,
                id,
                revised(row_of(self.transactions, id), now, transaction_of(draft, kind)),
            ),
            ..self
        }
    }

    // ------------------------------------------------------------ soft delete
    /// The ledger after the row was retired: flagged, stamped with `now`, and
    /// still there.
    pub open spec fn retire(self, table: Table, id: u64, now: u64) -> State {
        let s = State { clock: later(self.clock, now), ..self };
        match table {
            Table::Client => State {
                clients: replaced(s.clients, id, retired(row_of(s.clients, id), now)),
                ..s
            },
            Table::Auction => State {
                auctions: replaced(s.auctions, id, retired(row_of(s.auctions, id), now)),
                ..s
            },
            Table::Bundle => State {
                bundles: replaced(s.bundles, id, retired(row_of(s.bundles, id), now)),
                ..s
            },
            Table::Sale => State {
                sales: replaced(s.sales, id, retired(row_of(s.sales, id), now)),
                ..s
            },
            Table::SaleDetail => State {
                details: replaced(s.details, id, retired(row_of(s.details, id), now)),
                ..s
            },
            Table::Transaction => State {
                transactions: replaced(
                    s.transactions,
                    id,
                    retired(row_of(s.transactions, id), now),
                ),
                ..s
            },
        }
    }

    // ---------------------------------------------------------------- destroy
    /// The ledger with every reference to a missing parent dealt with as the
    /// reference demands: the child row removed, or its reference cleared and
    /// the row stamped with `now`. Children go before grandchildren, so that
    /// what hung on a removed child goes too.
    pub open spec fn swept(self, now: u64) -> State {
        let bundles = self.bundles.filter(bundle_resolves(self.clients, self.auctions));
        let sales = self.sales.filter(sale_anchored(self.auctions)).map_values(
            release_buyer(self.clients, now),
        );
        State {
            bundles,
            sales,
            details: self.details.filter(detail_resolves(sales, bundles)),
            transactions: self.transactions.filter(
                transaction_resolves(self.clients, self.auctions),
            ),
            ..self
        }
    }

    /// The ledger after the client was destroyed.
    pub open spec fn destroy_client(self, id: u64, now: u64) -> State {
        State { clients: self.clients.filter(other_than(id)), ..self.at(now) }.swept(now)
    }

    /// The ledger after the auction was destroyed.
    pub open spec fn destroy_auction(self, id: u64, now: u64) -> State {
        State { auctions: self.auctions.filter(other_than(id)), ..self.at(now) }.swept(now)
    }

    /// The ledger after the bundle was destroyed.
    pub open spec fn destroy_bundle(self, id: u64, now: u64) -> State {
        State { bundles: self.bundles.filter(other_than(id)), ..self.at(now) }.swept(now)
    }

    /// The ledger after the sale was destroyed.
    pub open spec fn destroy_sale(self, id: u64, now: u64) -> State {
        State { sales: self.sales.filter(other_than(id)), ..self.at(now) }.swept(now)
    }
}

} // verus!
