//! The store: the ledger held in memory, with the one write path that every
//! mutation takes. A mutation is checked against the rules first and changes
//! nothing if it is refused; if it goes through, every row it stores or
//! changes is stamped with the time handed in, whichever fields changed, and
//! the store's clock keeps the latest time it has been told of.

use vstd::prelude::*;
use crate::integrity::{
    lemma_destroy_auction, lemma_destroy_bundle, lemma_destroy_client, lemma_destroy_sale,
    lemma_insert_auction, lemma_insert_bundle, lemma_insert_client, lemma_insert_detail,
    lemma_insert_sale, lemma_insert_transaction, lemma_retire, lemma_update_auction,
    lemma_update_bundle, lemma_update_client, lemma_update_detail, lemma_update_sale,
    lemma_update_sale_terms, lemma_update_transaction,
};
use crate::row::{
    ascending, contains_id, has_id, later, lemma_index_of, other_than, position, retain, retired,
    visible_ids, Auction, AuctionDraft, Bundle, Client, Row, Sale, SaleDetail, SaleDraft, SaleTerms,
    Transaction, TransactionDraft,
};
use crate::schema::{CheckRule, Reference, StoreError, Table, UniqueKey};
use crate::state::{
    bundle_resolves, detail_resolves, found, release_buyer, replaced, row_of, sale_anchored,
    same_lot, transaction_resolves, State,
};
use crate::vocabulary::{AuctionStatus, TransactionKind};

verus! {

/// The ledger in memory.
pub struct Store {
    clock: u64,
    clients: Vec<Row<Client>>,
    auctions: Vec<Row<Auction>>,
    bundles: Vec<Row<Bundle>>,
    sales: Vec<Row<Sale>>,
    details: Vec<Row<SaleDetail>>,
    transactions: Vec<Row<Transaction>>,
    next_client: u64,
    next_auction: u64,
    next_bundle: u64,
    next_sale: u64,
    next_detail: u64,
    next_transaction: u64,
}

impl View for Store {
    type V = State;

    closed spec fn view(&self) -> State {
        State {
            clock: self.clock,
            clients: self.clients@,
            auctions: self.auctions@,
            bundles: self.bundles@,
            sales: self.sales@,
            details: self.details@,
            transactions: self.transactions@,
            next_client: self.next_client,
            next_auction: self.next_auction,
            next_bundle: self.next_bundle,
            next_sale: self.next_sale,
            next_detail: self.next_detail,
            next_transaction: self.next_transaction,
        }
    }
}

/// The later of two times.
fn later_of(clock: u64, now: u64) -> (stamp: u64)
    ensures
        stamp == later(clock, now),
{
    if now > clock {
        now
    } else {
        clock
    }
}

/// Looks a row up by its identifier.
fn find<T>(rows: &Vec<Row<T>>, id: u64, include_deleted: bool) -> (r: Option<&Row<T>>)
    requires
        ascending(rows@),
    ensures
        match r {
            Some(row) => found(rows@, id, include_deleted) == Some(*row),
            None => found(rows@, id, include_deleted) is None,
        },
{
    match position(rows, id) {
        Some(at) => {
            proof {
                lemma_index_of(rows@, at as int);
            }
            let row = &rows[at];
            if include_deleted || !row.deleted {
                Some(row)
            } else {
                None
            }
        },
        None => None,
    }
}

/// Retires the row with this identifier, if the table holds it.
fn retire_row<T>(rows: &mut Vec<Row<T>>, id: u64, stamp: u64) -> (done: bool)
    requires
        ascending(old(rows)@),
    ensures
        done == has_id(old(rows)@, id),
        done ==> final(rows)@ == replaced(
            old(rows)@,
            id,
            retired(row_of(old(rows)@, id), stamp),
        ),
        !done ==> final(rows)@ == old(rows)@,
{
    match position(rows, id) {
        Some(at) => {
            proof {
                lemma_index_of(rows@, at as int);
            }
            rows[at].deleted = true;
            rows[at].updated_at = stamp;
            assert(rows@ =~= replaced(old(rows)@, id, retired(row_of(old(rows)@, id), stamp)));
            true
        },
        None => false,
    }
}

/// Clears the buyer of every sale whose buyer is gone, and stamps that sale.
fn release_buyers(sales: &mut Vec<Row<Sale>>, clients: &Vec<Row<Client>>, stamp: u64)
    ensures
        final(sales)@ == old(sales)@.map_values(release_buyer(clients@, stamp)),
{
    let ghost before = sales@;
    let ghost release = release_buyer(clients@, stamp);
    let mut i: usize = 0;
    while i < sales.len()
        invariant
            i <= sales.len(),
            sales@.len() == before.len(),
            release == release_buyer(clients@, stamp),
            forall|j: int| 0 <= j < i ==> #[trigger] sales@[j] == release(before[j]),
            forall|j: int| i <= j < sales@.len() ==> #[trigger] sales@[j] == before[j],
        decreases sales.len() - i,
    {
        let gone = match sales[i].data.buyer {
            Some(buyer) => !contains_id(clients, buyer),
            None => false,
        };
        if gone {
            sales[i].data.buyer = None;
            sales[i].updated_at = stamp;
        }
        assert(sales@[i as int] == release(before[i as int]));
        i += 1;
    }
    assert(sales@ =~= before.map_values(release));
}

impl Store {
    /// The store is sound: its ledger is.
    pub open spec fn wf(&self) -> bool {
        self@.wf()
    }

    /// A store nobody has written to: no rows, the clock at zero, and the
    /// first identifier of every table still to be handed out.
    pub fn new() -> (store: Store)
        ensures
            store.wf(),
            store@ == State::empty(),
    {
        Store {
            clock: 0,
            clients: Vec::new(),
            auctions: Vec::new(),
            bundles: Vec::new(),
            sales: Vec::new(),
            details: Vec::new(),
            transactions: Vec::new(),
            next_client: 1,
            next_auction: 1,
            next_bundle: 1,
            next_sale: 1,
            next_detail: 1,
            next_transaction: 1,
        }
    }

    /// The latest time the store has been told of.
    pub fn clock(&self) -> (clock: u64)
        ensures
            clock == self@.clock,
    {
        self.clock
    }

    /// Whether the table holds a row with this identifier, retired or not.
    pub fn contains(&self, table: Table, id: u64) -> (b: bool)
        ensures
            b == self@.holds(table, id),
    {
        match table {
            Table::Client => contains_id(&self.clients, id),
            Table::Auction => contains_id(&self.auctions, id),
            Table::Bundle => contains_id(&self.bundles, id),
            Table::Sale => contains_id(&self.sales, id),
            Table::SaleDetail => contains_id(&self.details, id),
            Table::Transaction => contains_id(&self.transactions, id),
        }
    }

    /// The identifiers of a table's rows in the order they were handed out,
    /// leaving retired rows out.
    pub fn live_ids(&self, table: Table) -> (ids: Vec<u64>)
        ensures
            ids@ == self@.ids(table, false),
    {
        self.list(table, false)
    }

    /// The identifiers of a table's rows in the order they were handed out,
    /// retired rows included.
    pub fn all_ids(&self, table: Table) -> (ids: Vec<u64>)
        ensures
            ids@ == self@.ids(table, true),
    {
        self.list(table, true)
    }

    fn list(&self, table: Table, include_deleted: bool) -> (ids: Vec<u64>)
        ensures
            ids@ == self@.ids(table, include_deleted),
    {
        match table {
            Table::Client => visible_ids(&self.clients, include_deleted),
            Table::Auction => visible_ids(&self.auctions, include_deleted),
            Table::Bundle => visible_ids(&self.bundles, include_deleted),
            Table::Sale => visible_ids(&self.sales, include_deleted),
            Table::SaleDetail => visible_ids(&self.details, include_deleted),
            Table::Transaction => visible_ids(&self.transactions, include_deleted),
        }
    }

    // ---------------------------------------------------------------- queries
    /// The client with this identifier, unless retired.
    pub fn client(&self, id: u64) -> (r: Option<&Row<Client>>)
        requires
            self.wf(),
        ensures
            match r {
                Some(row) => found(self@.clients, id, false) == Some(*row),
                None => found(self@.clients, id, false) is None,
            },
    {
        find(&self.clients, id, false)
    }

    /// The client with this identifier, retired or not.
    pub fn client_any(&self, id: u64) -> (r: Option<&Row<Client>>)
        requires
            self.wf(),
        ensures
            match r {
                Some(row) => found(self@.clients, id, true) == Some(*row),
                None => found(self@.clients, id, true) is None,
            },
    {
        find(&self.clients, id, true)
    }

    /// The auction with this identifier, unless retired.
    pub fn auction(&self, id: u64) -> (r: Option<&Row<Auction>>)
        requires
            self.wf(),
        ensures
            match r {
                Some(row) => found(self@.auctions, id, false) == Some(*row),
                None => found(self@.auctions, id, false) is None,
            },
    {
        find(&self.auctions, id, false)
    }

    /// The auction with this identifier, retired or not.
    pub fn auction_any(&self, id: u64) -> (r: Option<&Row<Auction>>)
        requires
            self.wf(),
        ensures
            match r {
                Some(row) => found(self@.auctions, id, true) == Some(*row),
                None => found(self@.auctions, id, true) is None,
            },
    {
        find(&self.auctions, id, true)
    }

    /// The bundle with this identifier, unless retired.
    pub fn bundle(&self, id: u64) -> (r: Option<&Row<Bundle>>)
        requires
            self.wf(),
        ensures
            match r {
                Some(row) => found(self@.bundles, id, false) == Some(*row),
                None => found(self@.bundles, id, false) is None,
            },
    {
        find(&self.bundles, id, false)
    }

    /// The bundle with this identifier, retired or not.
    pub fn bundle_any(&self, id: u64) -> (r: Option<&Row<Bundle>>)
        requires
            self.wf(),
        ensures
            match r {
                Some(row) => found(self@.bundles, id, true) == Some(*row),
                None => found(self@.bundles, id, true) is None,
            },
    {
        find(&self.bundles, id, true)
    }

    /// The sale with this identifier, unless retired.
    pub fn sale(&self, id: u64) -> (r: Option<&Row<Sale>>)
        requires
            self.wf(),
        ensures
            match r {
                Some(row) => found(self@.sales, id, false) == Some(*row),
                None => found(self@.sales, id, false) is None,
            },
    {
        find(&self.sales, id, false)
    }

    /// The sale with this identifier, retired or not.
    pub fn sale_any(&self, id: u64) -> (r: Option<&Row<Sale>>)
        requires
            self.wf(),
        ensures
            match r {
                Some(row) => found(self@.sales, id, true) == Some(*row),
                None => found(self@.sales, id, true) is None,
            },
    {
        find(&self.sales, id, true)
    }

    /// The sale detail with this identifier, unless retired.
    pub fn sale_detail(&self, id: u64) -> (r: Option<&Row<SaleDetail>>)
        requires
            self.wf(),
        ensures
            match r {
                Some(row) => found(self@.details, id, false) == Some(*row),
                None => found(self@.details, id, false) is None,
            },
    {
        find(&self.details, id, false)
    }

    /// The sale detail with this identifier, retired or not.
    pub fn sale_detail_any(&self, id: u64) -> (r: Option<&Row<SaleDetail>>)
        requires
            self.wf(),
        ensures
            match r {
                Some(row) => found(self@.details, id, true) == Some(*row),
                None => found(self@.details, id, true) is None,
            },
    {
        find(&self.details, id, true)
    }

    /// The transaction with this identifier, unless retired.
    pub fn transaction(&self, id: u64) -> (r: Option<&Row<Transaction>>)
        requires
            self.wf(),
        ensures
            match r {
                Some(row) => found(self@.transactions, id, false) == Some(*row),
                None => found(self@.transactions, id, false) is None,
            },
    {
        find(&self.transactions, id, false)
    }

    /// The transaction with this identifier, retired or not.
    pub fn transaction_any(&self, id: u64) -> (r: Option<&Row<Transaction>>)
        requires
            self.wf(),
        ensures
            match r {
                Some(row) => found(self@.transactions, id, true) == Some(*row),
                None => found(self@.transactions, id, true) is None,
            },
    {
        find(&self.transactions, id, true)
    }
}

impl Store {
    // ----------------------------------------------------------- unique keys
    fn company_taken(&self, company: &String, except: Option<u64>) -> (taken: bool)
        ensures
            taken == self@.company_taken(company@, except),
    {
        let mut i: usize = 0;
        while i < self.clients.len()
            invariant
                i <= self.clients.len(),
                forall|j: int|
                    0 <= j < i ==> !(Some((#[trigger] self.clients@[j]).id) != except
                        && self.clients@[j].data.company@ == company@),
            decreases self.clients.len() - i,
        {
            let row = &self.clients[i];
            if Some(row.id) != except && row.data.company == *company {
                return true;
            }
            i += 1;
        }
        false
    }

    fn lot_taken(&self, data: &Bundle, except: Option<u64>) -> (taken: bool)
        ensures
            taken == self@.lot_taken(*data, except),
    {
        let mut i: usize = 0;
        while i < self.bundles.len()
            invariant
                i <= self.bundles.len(),
                forall|j: int|
                    0 <= j < i ==> !(Some((#[trigger] self.bundles@[j]).id) != except && same_lot(
                        self.bundles@[j].data,
                        *data,
                    )),
            decreases self.bundles.len() - i,
        {
            let row = &self.bundles[i];
            if Some(row.id) != except && row.data.number == data.number && row.data.auction
                == data.auction {
                assert(same_lot(self@.bundles[i as int].data, *data));
                return true;
            }
            i += 1;
        }
        false
    }

    fn pair_taken(&self, data: &SaleDetail, except: Option<u64>) -> (taken: bool)
        ensures
            taken == self@.pair_taken(*data, except),
    {
        let mut i: usize = 0;
        while i < self.details.len()
            invariant
                i <= self.details.len(),
                forall|j: int|
                    0 <= j < i ==> !(Some((#[trigger] self.details@[j]).id) != except
                        && self.details@[j].data == *data),
            decreases self.details.len() - i,
        {
            let row = &self.details[i];
            if Some(row.id) != except && row.data.sale == data.sale && row.data.bundle
                == data.bundle {
                assert(self@.details[i as int].data == *data);
                return true;
            }
            i += 1;
        }
        false
    }

    fn check_client(&self, data: &Client, except: Option<u64>) -> (r: Option<StoreError>)
        ensures
            r == self@.client_refusal(*data, except),
    {
        if self.company_taken(&data.company, except) {
            Some(StoreError::Unique(UniqueKey::ClientCompany))
        } else {
            None
        }
    }

    fn check_bundle(&self, data: &Bundle, except: Option<u64>) -> (r: Option<StoreError>)
        ensures
            r == self@.bundle_refusal(*data, except),
    {
        if self.lot_taken(data, except) {
            Some(StoreError::Unique(UniqueKey::BundleLot))
        } else if !contains_id(&self.clients, data.seller) {
            Some(StoreError::ForeignKey(Reference::BundleSeller))
        } else if !contains_id(&self.auctions, data.auction) {
            Some(StoreError::ForeignKey(Reference::BundleAuction))
        } else {
            None
        }
    }

    fn check_sale(&self, draft: &SaleDraft) -> (r: Option<StoreError>)
        ensures
            r == self@.sale_refusal(*draft),
    {
        if !contains_id(&self.auctions, draft.auction) {
            Some(StoreError::ForeignKey(Reference::SaleAuction))
        } else if !contains_id(&self.clients, draft.buyer) {
            Some(StoreError::ForeignKey(Reference::SaleBuyer))
        } else {
            None
        }
    }

    fn check_detail(&self, data: &SaleDetail, except: Option<u64>) -> (r: Option<StoreError>)
        ensures
            r == self@.detail_refusal(*data, except),
    {
        if self.pair_taken(data, except) {
            Some(StoreError::Unique(UniqueKey::DetailPair))
        } else if !contains_id(&self.sales, data.sale) {
            Some(StoreError::ForeignKey(Reference::DetailSale))
        } else if !contains_id(&self.bundles, data.bundle) {
            Some(StoreError::ForeignKey(Reference::DetailBundle))
        } else {
            None
        }
    }

    /// Checks a transaction and settles its kind.
    fn check_transaction(&self, draft: &TransactionDraft) -> (r: Result<
        TransactionKind,
        StoreError,
    >)
        ensures
            match r {
                Ok(kind) => self@.transaction_refusal(*draft) is None && TransactionKind::parse(
                    draft.kind@,
                ) == Some(kind),
                Err(e) => self@.transaction_refusal(*draft) == Some(e),
            },
    {
        if draft.amount < 0 {
            return Err(StoreError::Check(CheckRule::TransactionAmount));
        }
        let kind = match TransactionKind::from_text(draft.kind.as_str()) {
            Some(kind) => kind,
            None => {
                return Err(StoreError::Check(CheckRule::TransactionKind));
            },
        };
        if !contains_id(&self.auctions, draft.auction) {
            Err(StoreError::ForeignKey(Reference::TransactionAuction))
        } else if !contains_id(&self.clients, draft.client) {
            Err(StoreError::ForeignKey(Reference::TransactionClient))
        } else {
            Ok(kind)
        }
    }

    // ---------------------------------------------------------------- clients
    /// Stores a new client and returns its identifier. Refused when the
    /// company name is taken.
    pub fn insert_client(&mut self, data: Client, now: u64) -> (r: Result<u64, StoreError>)
        requires
            old(self).wf(),
        ensures
            final(self).wf(),
            match r {
                Ok(id) => {
                    &&& old(self)@.insert_client_refusal(data) is None
                    &&& id == old(self)@.next_client
                    &&& final(self)@ == old(self)@.insert_client(data, now)
                },
                Err(e) => {
                    &&& old(self)@.insert_client_refusal(data) == Some(e)
                    &&& final(self)@ == old(self)@
                },
            },
    {
        if self.next_client == u64::MAX {
            return Err(StoreError::Exhausted(Table::Client));
        }
        if let Some(e) = self.check_client(&data, None) {
            return Err(e);
        }
        proof {
            lemma_insert_client(self@, data, now);
        }
        let id = self.next_client;
        self.clock = later_of(self.clock, now);
        self.clients.push(Row { id, deleted: false, created_at: now, updated_at: now, data });
        self.next_client = id + 1;
        Ok(id)
    }

    /// Replaces a client's data. Refused when the client is not there or the
    /// company name is taken by another.
    pub fn update_client(&mut self, id: u64, data: Client, now: u64) -> (r: Result<(), StoreError>)
        requires
            old(self).wf(),
        ensures
            final(self).wf(),
            match r {
                Ok(_) => {
                    &&& old(self)@.update_client_refusal(id, data) is None
                    &&& final(self)@ == old(self)@.update_client(id, data, now)
                },
                Err(e) => {
                    &&& old(self)@.update_client_refusal(id, data) == Some(e)
                    &&& final(self)@ == old(self)@
                },
            },
    {
        let at = match position(&self.clients, id) {
            Some(at) => at,
            None => {
                return Err(StoreError::NotFound(Table::Client));
            },
        };
        if let Some(e) = self.check_client(&data, Some(id)) {
            return Err(e);
        }
        proof {
            lemma_update_client(self@, id, data, now);
            lemma_index_of(self.clients@, at as int);
        }
        self.clock = later_of(self.clock, now);
        self.clients[at].data = data;
        self.clients[at].updated_at = now;
        assert(self@.clients =~= old(self)@.update_client(id, data, now).clients);
        Ok(())
    }

    // --------------------------------------------------------------- auctions
    /// Stores a new auction and returns its identifier. Without a status it
    /// starts as pending. Refused when the status is no known word.
    pub fn insert_auction(&mut self, draft: AuctionDraft, now: u64) -> (r: Result<u64, StoreError>)
        requires
            old(self).wf(),
        ensures
            final(self).wf(),
            match r {
                Ok(id) => {
                    &&& old(self)@.insert_auction_refusal(draft) is None
                    &&& id == old(self)@.next_auction
                    &&& final(self)@ == old(self)@.insert_auction(draft, now)
                },
                Err(e) => {
                    &&& old(self)@.insert_auction_refusal(draft) == Some(e)
                    &&& final(self)@ == old(self)@
                },
            },
    {
        if self.next_auction == u64::MAX {
            return Err(StoreError::Exhausted(Table::Auction));
        }
        let status = match &draft.status {
            Some(text) => match AuctionStatus::from_text(text.as_str()) {
                Some(status) => status,
                None => {
                    return Err(StoreError::Check(CheckRule::AuctionStatus));
                },
            },
            None => AuctionStatus::Pending,
        };
        proof {
            lemma_insert_auction(self@, draft, now);
        }
        let id = self.next_auction;
        let data = Auction {
            name: draft.name,
            province: draft.province,
            city: draft.city,
            date: draft.date,
            status,
        };
        self.clock = later_of(self.clock, now);
        self.auctions.push(Row { id, deleted: false, created_at: now, updated_at: now, data });
        self.next_auction = id + 1;
        Ok(id)
    }

    /// Replaces an auction's data; a draft without a status leaves the status
    /// as it is. Any known status may follow any other. Refused when the
    /// auction is not there or the status is no known word.
    pub fn update_auction(&mut self, id: u64, draft: AuctionDraft, now: u64) -> (r: Result<
        (),
        StoreError,
    >)
        requires
            old(self).wf(),
        ensures
            final(self).wf(),
            match r {
                Ok(_) => {
                    &&& old(self)@.update_auction_refusal(id, draft) is None
                    &&& final(self)@ == old(self)@.update_auction(id, draft, now)
                },
                Err(e) => {
                    &&& old(self)@.update_auction_refusal(id, draft) == Some(e)
                    &&& final(self)@ == old(self)@
                },
            },
    {
        let at = match position(&self.auctions, id) {
            Some(at) => at,
            None => {
                return Err(StoreError::NotFound(Table::Auction));
            },
        };
        proof {
            lemma_index_of(self.auctions@, at as int);
        }
        let status = match &draft.status {
            Some(text) => match AuctionStatus::from_text(text.as_str()) {
                Some(status) => status,
                None => {
                    return Err(StoreError::Check(CheckRule::AuctionStatus));
                },
            },
            None => self.auctions[at].data.status,
        };
        proof {
            lemma_update_auction(self@, id, draft, now);
        }
        let data = Auction {
            name: draft.name,
            province: draft.province,
            city: draft.city,
            date: draft.date,
            status,
        };
        self.clock = later_of(self.clock, now);
        self.auctions[at].data = data;
        self.auctions[at].updated_at = now;
        assert(self@.auctions =~= old(self)@.update_auction(id, draft, now).auctions);
        Ok(())
    }

    // ---------------------------------------------------------------- bundles
    /// Stores a new bundle and returns its identifier. Refused when the lot
    /// number is taken at the auction, or the seller or the auction is not
    /// there.
    pub fn insert_bundle(&mut self, data: Bundle, now: u64) -> (r: Result<u64, StoreError>)
        requires
            old(self).wf(),
        ensures
            final(self).wf(),
            match r {
                Ok(id) => {
                    &&& old(self)@.insert_bundle_refusal(data) is None
                    &&& id == old(self)@.next_bundle
                    &&& final(self)@ == old(self)@.insert_bundle(data, now)
                },
                Err(e) => {
                    &&& old(self)@.insert_bundle_refusal(data) == Some(e)
                    &&& final(self)@ == old(self)@
                },
            },
    {
        if self.next_bundle == u64::MAX {
            return Err(StoreError::Exhausted(Table::Bundle));
        }
        if let Some(e) = self.check_bundle(&data, None) {
            return Err(e);
        }
        proof {
            lemma_insert_bundle(self@, data, now);
        }
        let id = self.next_bundle;
        self.clock = later_of(self.clock, now);
        self.bundles.push(Row { id, deleted: false, created_at: now, updated_at: now, data });
        self.next_bundle = id + 1;
        Ok(id)
    }

    /// Replaces a bundle's data. Refused when the bundle is not there, the
    /// lot number is taken by another at the auction, or the seller or the
    /// auction is not there.
    pub fn update_bundle(&mut self, id: u64, data: Bundle, now: u64) -> (r: Result<(), StoreError>)
        requires
            old(self).wf(),
        ensures
            final(self).wf(),
            match r {
                Ok(_) => {
                    &&& old(self)@.update_bundle_refusal(id, data) is None
                    &&& final(self)@ == old(self)@.update_bundle(id, data, now)
                },
                Err(e) => {
                    &&& old(self)@.update_bundle_refusal(id, data) == Some(e)
                    &&& final(self)@ == old(self)@
                },
            },
    {
        let at = match position(&self.bundles, id) {
            Some(at) => at,
            None => {
                return Err(StoreError::NotFound(Table::Bundle));
            },
        };
        if let Some(e) = self.check_bundle(&data, Some(id)) {
            return Err(e);
        }
        proof {
            lemma_update_bundle(self@, id, data, now);
            lemma_index_of(self.bundles@, at as int);
        }
        self.clock = later_of(self.clock, now);
        self.bundles[at].data = data;
        self.bundles[at].updated_at = now;
        assert(self@.bundles =~= old(self)@.update_bundle(id, data, now).bundles);
        Ok(())
    }

    // ------------------------------------------------------------------ sales
    /// Stores a new sale and returns its identifier. Refused when the
    /// auction or the buyer is not there.
    pub fn insert_sale(&mut self, draft: SaleDraft, now: u64) -> (r: Result<u64, StoreError>)
        requires
            old(self).wf(),
        ensures
            final(self).wf(),
            match r {
                Ok(id) => {
                    &&& old(self)@.insert_sale_refusal(draft) is None
                    &&& id == old(self)@.next_sale
                    &&& final(self)@ == old(self)@.insert_sale(draft, now)
                },
                Err(e) => {
                    &&& old(self)@.insert_sale_refusal(draft) == Some(e)
                    &&& final(self)@ == old(self)@
                },
            },
    {
        if self.next_sale == u64::MAX {
            return Err(StoreError::Exhausted(Table::Sale));
        }
        if let Some(e) = self.check_sale(&draft) {
            return Err(e);
        }
        proof {
            lemma_insert_sale(self@, draft, now);
        }
        let id = self.next_sale;
        let data = Sale {
            auction: draft.auction,
            buyer: Some(draft.buyer),
            total_price: draft.total_price,
            deadline: draft.deadline,
        };
        self.clock = later_of(self.clock, now);
        self.sales.push(Row { id, deleted: false, created_at: now, updated_at: now, data });
        self.next_sale = id + 1;
        Ok(id)
    }

    /// Replaces a sale's data, buyer included. Refused when the sale, the
    /// auction or the buyer is not there.
    pub fn update_sale(&mut self, id: u64, draft: SaleDraft, now: u64) -> (r: Result<
        (),
        StoreError,
    >)
        requires
            old(self).wf(),
        ensures
            final(self).wf(),
            match r {
                Ok(_) => {
                    &&& old(self)@.update_sale_refusal(id, draft) is None
                    &&& final(self)@ == old(self)@.update_sale(id, draft, now)
                },
                Err(e) => {
                    &&& old(self)@.update_sale_refusal(id, draft) == Some(e)
                    &&& final(self)@ == old(self)@
                },
            },
    {
        let at = match position(&self.sales, id) {
            Some(at) => at,
            None => {
                return Err(StoreError::NotFound(Table::Sale));
            },
        };
        if let Some(e) = self.check_sale(&draft) {
            return Err(e);
        }
        proof {
            lemma_update_sale(self@, id, draft, now);
            lemma_index_of(self.sales@, at as int);
        }
        let data = Sale {
            auction: draft.auction,
            buyer: Some(draft.buyer),
            total_price: draft.total_price,
            deadline: draft.deadline,
        };
        self.clock = later_of(self.clock, now);
        self.sales[at].data = data;
        self.sales[at].updated_at = now;
        assert(self@.sales =~= old(self)@.update_sale(id, draft, now).sales);
        Ok(())
    }

    /// Replaces a sale's auction, price and deadline and leaves its buyer as
    /// it is, cleared or not. Refused when the sale or the auction is not
    /// there.
    pub fn update_sale_terms(&mut self, id: u64, terms: SaleTerms, now: u64) -> (r: Result<
        (),
        StoreError,
    >)
        requires
            old(self).wf(),
        ensures
            final(self).wf(),
            match r {
                Ok(_) => {
                    &&& old(self)@.update_sale_terms_refusal(id, terms) is None
                    &&& final(self)@ == old(self)@.update_sale_terms(id, terms, now)
                },
                Err(e) => {
                    &&& old(self)@.update_sale_terms_refusal(id, terms) == Some(e)
                    &&& final(self)@ == old(self)@
                },
            },
    {
        let at = match position(&self.sales, id) {
            Some(at) => at,
            None => {
                return Err(StoreError::NotFound(Table::Sale));
            },
        };
        if !contains_id(&self.auctions, terms.auction) {
            return Err(StoreError::ForeignKey(Reference::SaleAuction));
        }
        proof {
            lemma_update_sale_terms(self@, id, terms, now);
            lemma_index_of(self.sales@, at as int);
        }
        self.clock = later_of(self.clock, now);
        self.sales[at].data.auction = terms.auction;
        self.sales[at].data.total_price = terms.total_price;
        self.sales[at].data.deadline = terms.deadline;
        self.sales[at].updated_at = now;
        assert(self@.sales =~= old(self)@.update_sale_terms(id, terms, now).sales);
        Ok(())
    }

    // ----------------------------------------------------------- sale details
    /// Adds a bundle to a sale and returns the detail's identifier. Refused
    /// when the sale already holds the bundle, or the sale or the bundle is
    /// not there.
    pub fn insert_sale_detail(&mut self, data: SaleDetail, now: u64) -> (r: Result<u64, StoreError>)
        requires
            old(self).wf(),
        ensures
            final(self).wf(),
            match r {
                Ok(id) => {
                    &&& old(self)@.insert_detail_refusal(data) is None
                    &&& id == old(self)@.next_detail
                    &&& final(self)@ == old(self)@.insert_detail(data, now)
                },
                Err(e) => {
                    &&& old(self)@.insert_detail_refusal(data) == Some(e)
                    &&& final(self)@ == old(self)@
                },
            },
    {
        if self.next_detail == u64::MAX {
            return Err(StoreError::Exhausted(Table::SaleDetail));
        }
        if let Some(e) = self.check_detail(&data, None) {
            return Err(e);
        }
        proof {
            lemma_insert_detail(self@, data, now);
        }
        let id = self.next_detail;
        self.clock = later_of(self.clock, now);
        self.details.push(Row { id, deleted: false, created_at: now, updated_at: now, data });
        self.next_detail = id + 1;
        Ok(id)
    }

    /// Replaces a sale detail's data. Refused when the detail is not there,
    /// another detail already joins the sale and the bundle, or the sale or
    /// the bundle is not there.
    pub fn update_sale_detail(&mut self, id: u64, data: SaleDetail, now: u64) -> (r: Result<
        (),
        StoreError,
    >)
        requires
            old(self).wf(),
        ensures
            final(self).wf(),
            match r {
                Ok(_) => {
                    &&& old(self)@.update_detail_refusal(id, data) is None
                    &&& final(self)@ == old(self)@.update_detail(id, data, now)
                },
                Err(e) => {
                    &&& old(self)@.update_detail_refusal(id, data) == Some(e)
                    &&& final(self)@ == old(self)@
                },
            },
    {
        let at = match position(&self.details, id) {
            Some(at) => at,
            None => {
                return Err(StoreError::NotFound(Table::SaleDetail));
            },
        };
        if let Some(e) = self.check_detail(&data, Some(id)) {
            return Err(e);
        }
        proof {
            lemma_update_detail(self@, id, data, now);
            lemma_index_of(self.details@, at as int);
        }
        self.clock = later_of(self.clock, now);
        self.details[at].data = data;
        self.details[at].updated_at = now;
        assert(self@.details =~= old(self)@.update_detail(id, data, now).details);
        Ok(())
    }

    // ----------------------------------------------------------- transactions
    /// Stores a new transaction and returns its identifier. Refused when the
    /// amount is negative, the kind is no known word, or the auction or the
    /// client is not there.
    pub fn insert_transaction(&mut self, draft: TransactionDraft, now: u64) -> (r: Result<
        u64,
        StoreError,
    >)
        requires
            old(self).wf(),
        ensures
            final(self).wf(),
            match r {
                Ok(id) => {
                    &&& old(self)@.insert_transaction_refusal(draft) is None
                    &&& id == old(self)@.next_transaction
                    &&& final(self)@ == old(self)@.insert_transaction(draft, now)
                },
                Err(e) => {
                    &&& old(self)@.insert_transaction_refusal(draft) == Some(e)
                    &&& final(self)@ == old(self)@
                },
            },
    {
        if self.next_transaction == u64::MAX {
            return Err(StoreError::Exhausted(Table::Transaction));
        }
        let kind = match self.check_transaction(&draft) {
            Ok(kind) => kind,
            Err(e) => {
                return Err(e);
            },
        };
        proof {
            lemma_insert_transaction(self@, draft, now);
        }
        let id = self.next_transaction;
        let data = Transaction {
            auction: draft.auction,
            client: draft.client,
            amount: draft.amount,
            kind,
        };
        self.clock = later_of(self.clock, now);
        self.transactions.push(
            Row { id, deleted: false, created_at: now, updated_at: now, data },
        );
        self.next_transaction = id + 1;
        Ok(id)
    }

    /// Replaces a transaction's data. Refused when the transaction is not
    /// there, the amount is negative, the kind is no known word, or the
    /// auction or the client is not there.
    pub fn update_transaction(&mut self, id: u64, draft: TransactionDraft, now: u64) -> (r: Result<
        (),
        StoreError,
    >)
        requires
            old(self).wf(),
        ensures
            final(self).wf(),
            match r {
                Ok(_) => {
                    &&& old(self)@.update_transaction_refusal(id, draft) is None
                    &&& final(self)@ == old(self)@.update_transaction(id, draft, now)
                },
                Err(e) => {
                    &&& old(self)@.update_transaction_refusal(id, draft) == Some(e)
                    &&& final(self)@ == old(self)@
                },
            },
    {
        let at = match position(&self.transactions, id) {
            Some(at) => at,
            None => {
                return Err(StoreError::NotFound(Table::Transaction));
            },
        };
        let kind = match self.check_transaction(&draft) {
            Ok(kind) => kind,
            Err(e) => {
                return Err(e);
            },
        };
        proof {
            lemma_update_transaction(self@, id, draft, now);
            lemma_index_of(self.transactions@, at as int);
        }
        let data = Transaction {
            auction: draft.auction,
            client: draft.client,
            amount: draft.amount,
            kind,
        };
        self.clock = later_of(self.clock, now);
        self.transactions[at].data = data;
        self.transactions[at].updated_at = now;
        assert(self@.transactions =~= old(self)@.update_transaction(id, draft, now).transactions);
        Ok(())
    }

    // ------------------------------------------------------------ soft delete
    /// Retires a row: it stays in its table, flagged, and queries leave it
    /// out unless they ask for retired rows. Nothing that points to it
    /// changes. Refused when the row is not there.
    pub fn soft_delete(&mut self, table: Table, id: u64, now: u64) -> (r: Result<(), StoreError>)
        requires
            old(self).wf(),
        ensures
            final(self).wf(),
            match r {
                Ok(_) => {
                    &&& old(self)@.holds(table, id)
                    &&& final(self)@ == old(self)@.retire(table, id, now)
                },
                Err(e) => {
                    &&& !old(self)@.holds(table, id)
                    &&& e == StoreError::NotFound(table)
                    &&& final(self)@ == old(self)@
                },
            },
    {
        let done = match table {
            Table::Client => retire_row(&mut self.clients, id, now),
            Table::Auction => retire_row(&mut self.auctions, id, now),
            Table::Bundle => retire_row(&mut self.bundles, id, now),
            Table::Sale => retire_row(&mut self.sales, id, now),
            Table::SaleDetail => retire_row(&mut self.details, id, now),
            Table::Transaction => retire_row(&mut self.transactions, id, now),
        };
        if done {
            proof {
                lemma_retire(old(self)@, table, id, now);
            }
            self.clock = later_of(self.clock, now);
            Ok(())
        } else {
            Err(StoreError::NotFound(table))
        }
    }

    // ---------------------------------------------------------------- destroy
    /// Deals with every reference whose parent is gone, stamping what it
    /// changes with `now`.
    fn sweep(&mut self, now: u64)
        ensures
            final(self)@ == old(self)@.swept(now),
    {
        let mut bundles: Vec<Row<Bundle>> = Vec::new();
        let mut sales: Vec<Row<Sale>> = Vec::new();
        let mut details: Vec<Row<SaleDetail>> = Vec::new();
        let mut transactions: Vec<Row<Transaction>> = Vec::new();
        std::mem::swap(&mut bundles, &mut self.bundles);
        std::mem::swap(&mut sales, &mut self.sales);
        std::mem::swap(&mut details, &mut self.details);
        std::mem::swap(&mut transactions, &mut self.transactions);
        let clients = &self.clients;
        let auctions = &self.auctions;

        let bundle_stays = |row: &Row<Bundle>| -> (b: bool)
            ensures
                b == bundle_resolves(clients@, auctions@)(*row),
            { contains_id(clients, row.data.seller) && contains_id(auctions, row.data.auction) };
        let bundles = retain(bundles, bundle_stays, Ghost(bundle_resolves(clients@, auctions@)));

        let sale_stays = |row: &Row<Sale>| -> (b: bool)
            ensures
                b == sale_anchored(auctions@)(*row),
            { contains_id(auctions, row.data.auction) };
        let mut sales = retain(sales, sale_stays, Ghost(sale_anchored(auctions@)));
        release_buyers(&mut sales, clients, now);

        let detail_stays = |row: &Row<SaleDetail>| -> (b: bool)
            ensures
                b == detail_resolves(sales@, bundles@)(*row),
            { contains_id(&sales, row.data.sale) && contains_id(&bundles, row.data.bundle) };
        let details = retain(details, detail_stays, Ghost(detail_resolves(sales@, bundles@)));

        let transaction_stays = |row: &Row<Transaction>| -> (b: bool)
            ensures
                b == transaction_resolves(clients@, auctions@)(*row),
            { contains_id(auctions, row.data.auction) && contains_id(clients, row.data.client) };
        let transactions = retain(
            transactions,
            transaction_stays,
            Ghost(transaction_resolves(clients@, auctions@)),
        );

        self.bundles = bundles;
        self.sales = sales;
        self.details = details;
        self.transactions = transactions;
    }

    /// Destroys a client for good. Its bundles and transactions go with it,
    /// and with the bundles the sale details that held them; the sales it
    /// bought stay, with the buyer cleared and the time stamped. Refused when
    /// the client is not there.
    pub fn destroy_client(&mut self, id: u64, now: u64) -> (r: Result<(), StoreError>)
        requires
            old(self).wf(),
        ensures
            final(self).wf(),
            match r {
                Ok(_) => {
                    &&& has_id(old(self)@.clients, id)
                    &&& final(self)@ == old(self)@.destroy_client(id, now)
                },
                Err(e) => {
                    &&& !has_id(old(self)@.clients, id)
                    &&& e == StoreError::NotFound(Table::Client)
                    &&& final(self)@ == old(self)@
                },
            },
    {
        if !contains_id(&self.clients, id) {
            return Err(StoreError::NotFound(Table::Client));
        }
        proof {
            lemma_destroy_client(self@, id, now);
        }
        self.clock = later_of(self.clock, now);
        let mut rows: Vec<Row<Client>> = Vec::new();
        std::mem::swap(&mut rows, &mut self.clients);
        let stays = |row: &Row<Client>| -> (b: bool)
            ensures
                b == other_than::<Client>(id)(*row),
            { row.id != id };
        self.clients = retain(rows, stays, Ghost(other_than::<Client>(id)));
        self.sweep(now);
        Ok(())
    }

    /// Destroys an auction for good. Its bundles, sales and transactions go
    /// with it, and with them the sale details that hung on those bundles and
    /// sales. Refused when the auction is not there.
    pub fn destroy_auction(&mut self, id: u64, now: u64) -> (r: Result<(), StoreError>)
        requires
            old(self).wf(),
        ensures
            final(self).wf(),
            match r {
                Ok(_) => {
                    &&& has_id(old(self)@.auctions, id)
                    &&& final(self)@ == old(self)@.destroy_auction(id, now)
                },
                Err(e) => {
                    &&& !has_id(old(self)@.auctions, id)
                    &&& e == StoreError::NotFound(Table::Auction)
                    &&& final(self)@ == old(self)@
                },
            },
    {
        if !contains_id(&self.auctions, id) {
            return Err(StoreError::NotFound(Table::Auction));
        }
        proof {
            lemma_destroy_auction(self@, id, now);
        }
        self.clock = later_of(self.clock, now);
        let mut rows: Vec<Row<Auction>> = Vec::new();
        std::mem::swap(&mut rows, &mut self.auctions);
        let stays = |row: &Row<Auction>| -> (b: bool)
            ensures
                b == other_than::<Auction>(id)(*row),
            { row.id != id };
        self.auctions = retain(rows, stays, Ghost(other_than::<Auction>(id)));
        self.sweep(now);
        Ok(())
    }

    /// Destroys a bundle for good, and with it the sale details that held
    /// it. Refused when the bundle is not there.
    pub fn destroy_bundle(&mut self, id: u64, now: u64) -> (r: Result<(), StoreError>)
        requires
            old(self).wf(),
        ensures
            final(self).wf(),
            match r {
                Ok(_) => {
                    &&& has_id(old(self)@.bundles, id)
                    &&& final(self)@ == old(self)@.destroy_bundle(id, now)
                },
                Err(e) => {
                    &&& !has_id(old(self)@.bundles, id)
                    &&& e == StoreError::NotFound(Table::Bundle)
                    &&& final(self)@ == old(self)@
                },
            },
    {
        if !contains_id(&self.bundles, id) {
            return Err(StoreError::NotFound(Table::Bundle));
        }
        proof {
            lemma_destroy_bundle(self@, id, now);
        }
        self.clock = later_of(self.clock, now);
        let mut rows: Vec<Row<Bundle>> = Vec::new();
        std::mem::swap(&mut rows, &mut self.bundles);
        let stays = |row: &Row<Bundle>| -> (b: bool)
            ensures
                b == other_than::<Bundle>(id)(*row),
            { row.id != id };
        self.bundles = retain(rows, stays, Ghost(other_than::<Bundle>(id)));
        self.sweep(now);
        Ok(())
    }

    /// Destroys a sale for good, and with it its sale details. Refused when
    /// the sale is not there.
    pub fn destroy_sale(&mut self, id: u64, now: u64) -> (r: Result<(), StoreError>)
        requires
            old(self).wf(),
        ensures
            final(self).wf(),
            match r {
                Ok(_) => {
                    &&& has_id(old(self)@.sales, id)
                    &&& final(self)@ == old(self)@.destroy_sale(id, now)
                },
                Err(e) => {
                    &&& !has_id(old(self)@.sales, id)
                    &&& e == StoreError::NotFound(Table::Sale)
                    &&& final(self)@ == old(self)@
                },
            },
    {
        if !contains_id(&self.sales, id) {
            return Err(StoreError::NotFound(Table::Sale));
        }
        proof {
            lemma_destroy_sale(self@, id, now);
        }
        self.clock = later_of(self.clock, now);
        let mut rows: Vec<Row<Sale>> = Vec::new();
        std::mem::swap(&mut rows, &mut self.sales);
        let stays = |row: &Row<Sale>| -> (b: bool)
            ensures
                b == other_than::<Sale>(id)(*row),
            { row.id != id };
        self.sales = retain(rows, stays, Ghost(other_than::<Sale>(id)));
        self.sweep(now);
        Ok(())
    }
}

} // verus!
