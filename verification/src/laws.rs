//! What holds of the ledger whatever its contents: how destruction follows
//! the references, that every insert and every change stamps its row with the
//! time handed in, and when the store refuses a bundle or a transaction.

use vstd::prelude::*;
use crate::integrity::{
    lemma_destroy_auction, lemma_destroy_bundle, lemma_destroy_client, lemma_destroy_sale,
    lemma_filter_ids, lemma_push, lemma_release, lemma_replace, lemma_without_ids,
};
use crate::row::{
    fresh, has_id, index_of, later, lemma_filter_agree, lemma_filter_keeps_all, lemma_filter_rows,
    lemma_index_of, other_than, retired, revised, rows_ok, Auction, AuctionDraft, Bundle, Client,
    Row, Sale, SaleDetail, SaleDraft, SaleTerms, Transaction, TransactionDraft,
};
use crate::schema::{CheckRule, OnDelete, Reference, StoreError, Table, UniqueKey};
use crate::state::{
    bundle_resolves, buyer_resolves, detail_resolves, found, release_buyer, replaced, row_of,
    sale_anchored, sale_of, sale_with, same_lot, transaction_resolves, State,
};
use crate::vocabulary::{AuctionStatus, TransactionKind};

verus! {

/// One reference as it stands in one row: the row that holds it, and the
/// parent it points to, if it points to any.
pub struct Link {
    pub child: u64,
    pub parent: Option<u64>,
}

impl State {
    /// Every instance of a reference, in the order of the rows that hold it.
    pub open spec fn links(self, reference: Reference) -> Seq<Link> {
        match reference {
            Reference::BundleSeller => Seq::new(
                self.bundles.len(),
                |i: int|
                    Link { child: self.bundles[i].id, parent: Some(self.bundles[i].data.seller) },
            ),
            Reference::BundleAuction => Seq::new(
                self.bundles.len(),
                |i: int|
                    Link { child: self.bundles[i].id, parent: Some(self.bundles[i].data.auction) },
            ),
            Reference::SaleAuction => Seq::new(
                self.sales.len(),
                |i: int| Link { child: self.sales[i].id, parent: Some(self.sales[i].data.auction) },
            ),
            Reference::SaleBuyer => Seq::new(
                self.sales.len(),
                |i: int| Link { child: self.sales[i].id, parent: self.sales[i].data.buyer },
            ),
            Reference::DetailSale => Seq::new(
                self.details.len(),
                |i: int|
                    Link { child: self.details[i].id, parent: Some(self.details[i].data.sale) },
            ),
            Reference::DetailBundle => Seq::new(
                self.details.len(),
                |i: int|
                    Link { child: self.details[i].id, parent: Some(self.details[i].data.bundle) },
            ),
            Reference::TransactionAuction => Seq::new(
                self.transactions.len(),
                |i: int|
                    Link {
                        child: self.transactions[i].id,
                        parent: Some(self.transactions[i].data.auction),
                    },
            ),
            Reference::TransactionClient => Seq::new(
                self.transactions.len(),
                |i: int|
                    Link {
                        child: self.transactions[i].id,
                        parent: Some(self.transactions[i].data.client),
                    },
            ),
        }
    }

    /// The ledger after the row `id` of the reference's parent table was
    /// destroyed.
    pub open spec fn destroy_parent(self, reference: Reference, id: u64, now: u64) -> State {
        match reference.spec_parent() {
            Table::Client => self.destroy_client(id, now),
            Table::Auction => self.destroy_auction(id, now),
            Table::Bundle => self.destroy_bundle(id, now),
            _ => self.destroy_sale(id, now),
        }
    }
}

/// In a sound ledger no reference dangles: whatever a row points to is in
/// the table the reference points into.
pub proof fn lemma_every_reference_resolves(s: State, reference: Reference, i: int)
    requires
        s.wf(),
        0 <= i < s.links(reference).len(),
        s.links(reference)[i].parent is Some,
    ensures
        s.holds(reference.spec_parent(), s.links(reference)[i].parent.unwrap()),
{
    match reference {
        Reference::BundleSeller | Reference::BundleAuction => {
            assert(bundle_resolves(s.clients, s.auctions)(s.bundles[i]));
        },
        Reference::SaleAuction => {
            assert(sale_anchored(s.auctions)(s.sales[i]));
        },
        Reference::SaleBuyer => {
            assert(buyer_resolves(s.clients)(s.sales[i]));
        },
        Reference::DetailSale | Reference::DetailBundle => {
            assert(detail_resolves(s.sales, s.bundles)(s.details[i]));
        },
        _ => {
            assert(transaction_resolves(s.clients, s.auctions)(s.transactions[i]));
        },
    }
}

/// Destroying a parent follows each reference's policy. The parent is gone
/// and the ledger is sound again, so that no row is left pointing to
/// anything that went, however far down the chain. Through a cascading
/// reference no row points to the parent any more. Through a reference that
/// clears, every child is still there, in place; its reference is cleared if
/// it pointed to the parent and untouched if not.
pub proof fn lemma_destroy_follows_policy(s: State, reference: Reference, id: u64, now: u64)
    requires
        s.wf(),
    ensures
        s.destroy_parent(reference, id, now).wf(),
        !s.destroy_parent(reference, id, now).holds(reference.spec_parent(), id),
        reference.spec_on_delete() == OnDelete::Cascade ==> forall|i: int|
            0 <= i < s.destroy_parent(reference, id, now).links(reference).len() ==> (
            #[trigger] s.destroy_parent(reference, id, now).links(reference)[i]).parent != Some(id),
        reference.spec_on_delete() == OnDelete::SetNull ==> {
            &&& s.destroy_parent(reference, id, now).links(reference).len() == s.links(
                reference,
            ).len()
            &&& forall|i: int|
                0 <= i < s.links(reference).len() ==> {
                    let before = s.links(reference)[i];
                    let after = #[trigger] s.destroy_parent(reference, id, now).links(reference)[i];
                    &&& after.child == before.child
                    &&& after.parent == if before.parent == Some(id) {
                        None
                    } else {
                        before.parent
                    }
                }
        },
{
    let t = s.destroy_parent(reference, id, now);
    let links = t.links(reference);
    match reference.spec_parent() {
        Table::Client => {
            lemma_destroy_client(s, id, now);
            lemma_without_ids(s.clients, id);
        },
        Table::Auction => {
            lemma_destroy_auction(s, id, now);
            lemma_without_ids(s.auctions, id);
        },
        Table::Bundle => {
            lemma_destroy_bundle(s, id, now);
            lemma_without_ids(s.bundles, id);
            lemma_filter_rows(s.bundles, other_than::<Bundle>(id));
            lemma_filter_ids(
                s.bundles.filter(other_than::<Bundle>(id)),
                bundle_resolves(s.clients, s.auctions),
            );
        },
        _ => {
            lemma_destroy_sale(s, id, now);
            lemma_without_ids(s.sales, id);
            let rest = s.sales.filter(other_than::<Sale>(id));
            lemma_filter_rows(s.sales, other_than::<Sale>(id));
            lemma_filter_ids(rest, sale_anchored(s.auctions));
            lemma_filter_rows(rest, sale_anchored(s.auctions));
            lemma_release(
                rest.filter(sale_anchored(s.auctions)),
                s.clients,
                s.next_sale,
                later(s.clock, now),
                now,
            );
            assert(!has_id(t.sales, id));
        },
    }
    assert(!t.holds(reference.spec_parent(), id));
    if reference.spec_on_delete() == OnDelete::Cascade {
        assert forall|i: int| 0 <= i < links.len() implies (#[trigger] links[i]).parent != Some(
            id,
        ) by {
            match reference {
                Reference::BundleSeller | Reference::BundleAuction => {
                    assert(bundle_resolves(t.clients, t.auctions)(t.bundles[i]));
                },
                Reference::SaleAuction => {
                    assert(sale_anchored(t.auctions)(t.sales[i]));
                },
                Reference::DetailSale | Reference::DetailBundle => {
                    assert(detail_resolves(t.sales, t.bundles)(t.details[i]));
                },
                _ => {
                    assert(transaction_resolves(t.clients, t.auctions)(t.transactions[i]));
                },
            }
        }
    } else {
        let u = State { clients: s.clients.filter(other_than(id)), ..s.at(now) };
        assert forall|i: int| 0 <= i < s.sales.len() implies sale_anchored(u.auctions)(
            #[trigger] s.sales[i],
        ) by {
            assert(sale_anchored(s.auctions)(s.sales[i]));
        }
        lemma_filter_keeps_all(s.sales, sale_anchored(u.auctions));
        assert(t.sales == s.sales.map_values(release_buyer(u.clients, now)));
        assert forall|i: int| 0 <= i < s.links(reference).len() implies {
            let before = s.links(reference)[i];
            let after = #[trigger] t.links(reference)[i];
            &&& after.child == before.child
            &&& after.parent == if before.parent == Some(id) {
                None
            } else {
                before.parent
            }
        } by {
            assert(buyer_resolves(s.clients)(s.sales[i]));
            assert(t.sales[i] == release_buyer(u.clients, now)(s.sales[i]));
        }
    }
}

/// The bundle is not offered at this auction.
pub open spec fn bundle_outside(auction: u64) -> spec_fn(Row<Bundle>) -> bool {
    |row: Row<Bundle>| row.data.auction != auction
}

/// The bundle is not sold by this client.
pub open spec fn bundle_not_of(seller: u64) -> spec_fn(Row<Bundle>) -> bool {
    |row: Row<Bundle>| row.data.seller != seller
}

/// The sale did not close at this auction.
pub open spec fn sale_outside(auction: u64) -> spec_fn(Row<Sale>) -> bool {
    |row: Row<Sale>| row.data.auction != auction
}

/// The transaction does not belong to this auction.
pub open spec fn transaction_outside(auction: u64) -> spec_fn(Row<Transaction>) -> bool {
    |row: Row<Transaction>| row.data.auction != auction
}

/// The transaction does not belong to this client.
pub open spec fn transaction_not_of(client: u64) -> spec_fn(Row<Transaction>) -> bool {
    |row: Row<Transaction>| row.data.client != client
}

/// The detail does not hold this bundle.
pub open spec fn detail_without_bundle(bundle: u64) -> spec_fn(Row<SaleDetail>) -> bool {
    |row: Row<SaleDetail>| row.data.bundle != bundle
}

/// The detail does not belong to this sale.
pub open spec fn detail_without_sale(sale: u64) -> spec_fn(Row<SaleDetail>) -> bool {
    |row: Row<SaleDetail>| row.data.sale != sale
}

/// Neither the detail's sale nor its bundle belongs to this auction.
pub open spec fn detail_outside(s: State, auction: u64) -> spec_fn(Row<SaleDetail>) -> bool {
    |row: Row<SaleDetail>|
        row_of(s.sales, row.data.sale).data.auction != auction && row_of(
            s.bundles,
            row.data.bundle,
        ).data.auction != auction
}

/// The detail's bundle is not sold by this client.
pub open spec fn detail_not_of(s: State, seller: u64) -> spec_fn(Row<SaleDetail>) -> bool {
    |row: Row<SaleDetail>| row_of(s.bundles, row.data.bundle).data.seller != seller
}

/// The sale with its buyer cleared at time `stamp` if this client bought,
/// and as it is if not.
pub open spec fn without_buyer(client: u64, stamp: u64) -> spec_fn(Row<Sale>) -> Row<Sale> {
    |row: Row<Sale>|
        if row.data.buyer == Some(client) {
            Row { updated_at: stamp, data: Sale { buyer: None, ..row.data }, ..row }
        } else {
            row
        }
}

/// What destroying an auction removes, and nothing else: the auction, the
/// bundles offered at it, the sales closed at it, its transactions, and the
/// sale details whose sale or bundle belonged to it. Clients stay, and no
/// row that stays is changed.
pub proof fn lemma_destroy_auction_removes(s: State, id: u64, now: u64)
    requires
        s.wf(),
    ensures
        s.destroy_auction(id, now) == (State {
            clock: later(s.clock, now),
            auctions: s.auctions.filter(other_than(id)),
            bundles: s.bundles.filter(bundle_outside(id)),
            sales: s.sales.filter(sale_outside(id)),
            details: s.details.filter(detail_outside(s, id)),
            transactions: s.transactions.filter(transaction_outside(id)),
            ..s
        }),
{
    let u = State { auctions: s.auctions.filter(other_than(id)), ..s.at(now) };
    let t = s.destroy_auction(id, now);
    lemma_without_ids(s.auctions, id);
    assert forall|i: int| 0 <= i < s.bundles.len() implies bundle_resolves(u.clients, u.auctions)(
        #[trigger] s.bundles[i],
    ) == bundle_outside(id)(s.bundles[i]) by {
        assert(bundle_resolves(s.clients, s.auctions)(s.bundles[i]));
    }
    lemma_filter_agree(s.bundles, bundle_resolves(u.clients, u.auctions), bundle_outside(id));
    assert forall|i: int| 0 <= i < s.sales.len() implies sale_anchored(u.auctions)(
        #[trigger] s.sales[i],
    ) == sale_outside(id)(s.sales[i]) by {
        assert(sale_anchored(s.auctions)(s.sales[i]));
    }
    lemma_filter_agree(s.sales, sale_anchored(u.auctions), sale_outside(id));
    let kept = s.sales.filter(sale_outside(id));
    lemma_filter_rows(s.sales, sale_outside(id));
    assert(kept.map_values(release_buyer(u.clients, now)) =~= kept) by {
        assert forall|i: int| 0 <= i < kept.len() implies release_buyer(u.clients, now)(
            #[trigger] kept[i],
        ) == kept[i] by {
            let j = choose|j: int| 0 <= j < s.sales.len() && #[trigger] s.sales[j] == kept[i];
            assert(buyer_resolves(s.clients)(s.sales[j]));
        }
    }
    assert forall|i: int| 0 <= i < s.transactions.len() implies transaction_resolves(
        u.clients,
        u.auctions,
    )(#[trigger] s.transactions[i]) == transaction_outside(id)(s.transactions[i]) by {
        assert(transaction_resolves(s.clients, s.auctions)(s.transactions[i]));
    }
    lemma_filter_agree(
        s.transactions,
        transaction_resolves(u.clients, u.auctions),
        transaction_outside(id),
    );
    lemma_filter_ids(s.sales, sale_outside(id));
    lemma_filter_ids(s.bundles, bundle_outside(id));
    assert forall|i: int| 0 <= i < s.details.len() implies detail_resolves(t.sales, t.bundles)(
        #[trigger] s.details[i],
    ) == detail_outside(s, id)(s.details[i]) by {
        assert(detail_resolves(s.sales, s.bundles)(s.details[i]));
    }
    lemma_filter_agree(s.details, detail_resolves(t.sales, t.bundles), detail_outside(s, id));
}

/// What destroying a client removes, and nothing else: the client, the
/// bundles it sold, its transactions, and the sale details that held those
/// bundles. Every sale stays; those the client bought lose their buyer and
/// are stamped, the others are not changed. Auctions stay.
pub proof fn lemma_destroy_client_removes(s: State, id: u64, now: u64)
    requires
        s.wf(),
    ensures
        s.destroy_client(id, now) == (State {
            clock: later(s.clock, now),
            clients: s.clients.filter(other_than(id)),
            bundles: s.bundles.filter(bundle_not_of(id)),
            sales: s.sales.map_values(without_buyer(id, now)),
            details: s.details.filter(detail_not_of(s, id)),
            transactions: s.transactions.filter(transaction_not_of(id)),
            ..s
        }),
{
    let u = State { clients: s.clients.filter(other_than(id)), ..s.at(now) };
    let t = s.destroy_client(id, now);
    lemma_without_ids(s.clients, id);
    assert forall|i: int| 0 <= i < s.bundles.len() implies bundle_resolves(u.clients, u.auctions)(
        #[trigger] s.bundles[i],
    ) == bundle_not_of(id)(s.bundles[i]) by {
        assert(bundle_resolves(s.clients, s.auctions)(s.bundles[i]));
    }
    lemma_filter_agree(s.bundles, bundle_resolves(u.clients, u.auctions), bundle_not_of(id));
    assert forall|i: int| 0 <= i < s.sales.len() implies sale_anchored(u.auctions)(
        #[trigger] s.sales[i],
    ) by {
        assert(sale_anchored(s.auctions)(s.sales[i]));
    }
    lemma_filter_keeps_all(s.sales, sale_anchored(u.auctions));
    assert(s.sales.map_values(release_buyer(u.clients, now)) =~= s.sales.map_values(
        without_buyer(id, now),
    )) by {
        assert forall|i: int| 0 <= i < s.sales.len() implies release_buyer(u.clients, now)(
            #[trigger] s.sales[i],
        ) == without_buyer(id, now)(s.sales[i]) by {
            assert(buyer_resolves(s.clients)(s.sales[i]));
        }
    }
    assert forall|i: int| 0 <= i < s.transactions.len() implies transaction_resolves(
        u.clients,
        u.auctions,
    )(#[trigger] s.transactions[i]) == transaction_not_of(id)(s.transactions[i]) by {
        assert(transaction_resolves(s.clients, s.auctions)(s.transactions[i]));
    }
    lemma_filter_agree(
        s.transactions,
        transaction_resolves(u.clients, u.auctions),
        transaction_not_of(id),
    );
    lemma_release(s.sales, u.clients, s.next_sale, u.clock, now);
    lemma_filter_ids(s.bundles, bundle_not_of(id));
    assert forall|i: int| 0 <= i < s.details.len() implies detail_resolves(t.sales, t.bundles)(
        #[trigger] s.details[i],
    ) == detail_not_of(s, id)(s.details[i]) by {
        assert(detail_resolves(s.sales, s.bundles)(s.details[i]));
    }
    lemma_filter_agree(s.details, detail_resolves(t.sales, t.bundles), detail_not_of(s, id));
}

/// What destroying a bundle removes, and nothing else: the bundle and the
/// sale details that held it. No row that stays is changed.
pub proof fn lemma_destroy_bundle_removes(s: State, id: u64, now: u64)
    requires
        s.wf(),
    ensures
        s.destroy_bundle(id, now) == (State {
            clock: later(s.clock, now),
            bundles: s.bundles.filter(other_than(id)),
            details: s.details.filter(detail_without_bundle(id)),
            ..s
        }),
{
    let u = State { bundles: s.bundles.filter(other_than(id)), ..s.at(now) };
    let t = s.destroy_bundle(id, now);
    lemma_without_ids(s.bundles, id);
    lemma_filter_rows(s.bundles, other_than::<Bundle>(id));
    assert forall|i: int| 0 <= i < u.bundles.len() implies bundle_resolves(u.clients, u.auctions)(
        #[trigger] u.bundles[i],
    ) by {
        let j = choose|j: int| 0 <= j < s.bundles.len() && #[trigger] s.bundles[j] == u.bundles[i];
        assert(bundle_resolves(s.clients, s.auctions)(s.bundles[j]));
    }
    lemma_filter_keeps_all(u.bundles, bundle_resolves(u.clients, u.auctions));
    lemma_sales_stay(s, u, now);
    lemma_transactions_stay(s, u, now);
    assert forall|i: int| 0 <= i < s.details.len() implies detail_resolves(t.sales, t.bundles)(
        #[trigger] s.details[i],
    ) == detail_without_bundle(id)(s.details[i]) by {
        assert(detail_resolves(s.sales, s.bundles)(s.details[i]));
    }
    lemma_filter_agree(s.details, detail_resolves(t.sales, t.bundles), detail_without_bundle(id));
}

/// What destroying a sale removes, and nothing else: the sale and its sale
/// details. No row that stays is changed.
pub proof fn lemma_destroy_sale_removes(s: State, id: u64, now: u64)
    requires
        s.wf(),
    ensures
        s.destroy_sale(id, now) == (State {
            clock: later(s.clock, now),
            sales: s.sales.filter(other_than(id)),
            details: s.details.filter(detail_without_sale(id)),
            ..s
        }),
{
    let u = State { sales: s.sales.filter(other_than(id)), ..s.at(now) };
    let t = s.destroy_sale(id, now);
    lemma_without_ids(s.sales, id);
    lemma_filter_rows(s.sales, other_than::<Sale>(id));
    assert forall|i: int| 0 <= i < s.bundles.len() implies bundle_resolves(u.clients, u.auctions)(
        #[trigger] s.bundles[i],
    ) by {
        assert(bundle_resolves(s.clients, s.auctions)(s.bundles[i]));
    }
    lemma_filter_keeps_all(s.bundles, bundle_resolves(u.clients, u.auctions));
    assert forall|i: int| 0 <= i < u.sales.len() implies sale_anchored(u.auctions)(
        #[trigger] u.sales[i],
    ) && release_buyer(u.clients, now)(u.sales[i]) == u.sales[i] by {
        let j = choose|j: int| 0 <= j < s.sales.len() && #[trigger] s.sales[j] == u.sales[i];
        assert(sale_anchored(s.auctions)(s.sales[j]));
        assert(buyer_resolves(s.clients)(s.sales[j]));
    }
    lemma_filter_keeps_all(u.sales, sale_anchored(u.auctions));
    assert(u.sales.map_values(release_buyer(u.clients, now)) =~= u.sales);
    lemma_transactions_stay(s, u, now);
    assert forall|i: int| 0 <= i < s.details.len() implies detail_resolves(t.sales, t.bundles)(
        #[trigger] s.details[i],
    ) == detail_without_sale(id)(s.details[i]) by {
        assert(detail_resolves(s.sales, s.bundles)(s.details[i]));
    }
    lemma_filter_agree(s.details, detail_resolves(t.sales, t.bundles), detail_without_sale(id));
}

/// Sweeping leaves the sales alone where clients and auctions are the ones
/// the sales were sound with.
proof fn lemma_sales_stay(s: State, u: State, now: u64)
    requires
        s.wf(),
        u.sales == s.sales,
        u.clients == s.clients,
        u.auctions == s.auctions,
    ensures
        u.swept(now).sales == s.sales,
{
    assert forall|i: int| 0 <= i < s.sales.len() implies sale_anchored(u.auctions)(
        #[trigger] s.sales[i],
    ) && release_buyer(u.clients, now)(s.sales[i]) == s.sales[i] by {
        assert(sale_anchored(s.auctions)(s.sales[i]));
        assert(buyer_resolves(s.clients)(s.sales[i]));
    }
    lemma_filter_keeps_all(s.sales, sale_anchored(u.auctions));
    assert(s.sales.map_values(release_buyer(u.clients, now)) =~= s.sales);
}

/// Sweeping leaves the transactions alone where clients and auctions are
/// the ones the transactions were sound with.
proof fn lemma_transactions_stay(s: State, u: State, now: u64)
    requires
        s.wf(),
        u.transactions == s.transactions,
        u.clients == s.clients,
        u.auctions == s.auctions,
    ensures
        u.swept(now).transactions == s.transactions,
{
    assert forall|i: int| 0 <= i < s.transactions.len() implies transaction_resolves(
        u.clients,
        u.auctions,
    )(#[trigger] s.transactions[i]) by {
        assert(transaction_resolves(s.clients, s.auctions)(s.transactions[i]));
    }
    lemma_filter_keeps_all(s.transactions, transaction_resolves(u.clients, u.auctions));
}

/// The row `id` was stamped by a change made at `now`, and no other row
/// was touched: the row is still there, born when it was and last changed at
/// `now`, which is no earlier than its last change unless the time handed in
/// ran backwards, and later whenever that time is later; every other row of
/// the table is as it was.
pub open spec fn refreshed<T>(before: Seq<Row<T>>, after: Seq<Row<T>>, id: u64, now: u64) -> bool {
    &&& has_id(after, id)
    &&& row_of(after, id).id == id
    &&& row_of(after, id).created_at == row_of(before, id).created_at
    &&& row_of(after, id).updated_at == now
    &&& now >= row_of(before, id).updated_at ==> row_of(after, id).updated_at >= row_of(
        before,
        id,
    ).updated_at
    &&& now > row_of(before, id).updated_at ==> row_of(after, id).updated_at > row_of(
        before,
        id,
    ).updated_at
    &&& after.len() == before.len()
    &&& forall|i: int|
        0 <= i < before.len() && (#[trigger] before[i]).id != id ==> after[i] == before[i]
}

/// Replacing a row by one with the same identifier puts that row in its
/// place and leaves every other row as it was.
proof fn lemma_row_after_replace<T>(
    rows: Seq<Row<T>>,
    next_id: u64,
    clock: u64,
    now: u64,
    id: u64,
    row: Row<T>,
)
    requires
        rows_ok(rows, next_id, clock),
        has_id(rows, id),
        row.id == id,
        row.created_at == row_of(rows, id).created_at,
        row.updated_at == now,
    ensures
        has_id(replaced(rows, id, row), id),
        row_of(replaced(rows, id, row), id) == row,
        refreshed(rows, replaced(rows, id, row), id, now),
{
    lemma_replace(rows, next_id, clock, now, id, row);
    let out = replaced(rows, id, row);
    let at = index_of(rows, id);
    assert(out[at] == row);
    lemma_index_of(out, at);
    assert forall|i: int| 0 <= i < rows.len() && (#[trigger] rows[i]).id != id implies out[i]
        == rows[i] by {
        assert(i != at);
    }
}

/// Every accepted change sets the timestamp of the row it changes to the
/// time handed in, whichever fields it changes and even if it changes none:
/// replacing a row's data with any data, the very same included, and
/// retiring a row, already retired or not. It leaves the row's creation time
/// and every other row of the table as they were.
pub proof fn lemma_every_change_refreshes(
    s: State,
    id: u64,
    now: u64,
    client: Client,
    auction: AuctionDraft,
    bundle: Bundle,
    sale: SaleDraft,
    terms: SaleTerms,
    detail: SaleDetail,
    transaction: TransactionDraft,
)
    requires
        s.wf(),
    ensures
        s.update_client_refusal(id, client) is None ==> refreshed(
            s.clients,
            s.update_client(id, client, now).clients,
            id,
            now,
        ),
        s.update_auction_refusal(id, auction) is None ==> refreshed(
            s.auctions,
            s.update_auction(id, auction, now).auctions,
            id,
            now,
        ),
        s.update_bundle_refusal(id, bundle) is None ==> refreshed(
            s.bundles,
            s.update_bundle(id, bundle, now).bundles,
            id,
            now,
        ),
        s.update_sale_refusal(id, sale) is None ==> refreshed(
            s.sales,
            s.update_sale(id, sale, now).sales,
            id,
            now,
        ),
        s.update_sale_terms_refusal(id, terms) is None ==> refreshed(
            s.sales,
            s.update_sale_terms(id, terms, now).sales,
            id,
            now,
        ),
        s.update_detail_refusal(id, detail) is None ==> refreshed(
            s.details,
            s.update_detail(id, detail, now).details,
            id,
            now,
        ),
        s.update_transaction_refusal(id, transaction) is None ==> refreshed(
            s.transactions,
            s.update_transaction(id, transaction, now).transactions,
            id,
            now,
        ),
        s.holds(Table::Client, id) ==> refreshed(
            s.clients,
            s.retire(Table::Client, id, now).clients,
            id,
            now,
        ),
        s.holds(Table::Auction, id) ==> refreshed(
            s.auctions,
            s.retire(Table::Auction, id, now).auctions,
            id,
            now,
        ),
        s.holds(Table::Bundle, id) ==> refreshed(
            s.bundles,
            s.retire(Table::Bundle, id, now).bundles,
            id,
            now,
        ),
        s.holds(Table::Sale, id) ==> refreshed(
            s.sales,
            s.retire(Table::Sale, id, now).sales,
            id,
            now,
        ),
        s.holds(Table::SaleDetail, id) ==> refreshed(
            s.details,
            s.retire(Table::SaleDetail, id, now).details,
            id,
            now,
        ),
        s.holds(Table::Transaction, id) ==> refreshed(
            s.transactions,
            s.retire(Table::Transaction, id, now).transactions,
            id,
            now,
        ),
{
    if has_id(s.clients, id) {
        let old = row_of(s.clients, id);
        lemma_row_after_replace(
            s.clients,
            s.next_client,
            s.clock,
            now,
            id,
            revised(old, now, client),
        );
        lemma_row_after_replace(s.clients, s.next_client, s.clock, now, id, retired(old, now));
    }
    if has_id(s.auctions, id) {
        let old = row_of(s.auctions, id);
        if s.update_auction_refusal(id, auction) is None {
            let new = s.update_auction(id, auction, now).auctions[index_of(s.auctions, id)];
            lemma_row_after_replace(s.auctions, s.next_auction, s.clock, now, id, new);
        }
        lemma_row_after_replace(
            s.auctions,
            s.next_auction,
            s.clock,
            now,
            id,
            retired(old, now),
        );
    }
    if has_id(s.bundles, id) {
        let old = row_of(s.bundles, id);
        lemma_row_after_replace(
            s.bundles,
            s.next_bundle,
            s.clock,
            now,
            id,
            revised(old, now, bundle),
        );
        lemma_row_after_replace(s.bundles, s.next_bundle, s.clock, now, id, retired(old, now));
    }
    if has_id(s.sales, id) {
        let old = row_of(s.sales, id);
        lemma_row_after_replace(
            s.sales,
            s.next_sale,
            s.clock,
            now,
            id,
            revised(old, now, sale_of(sale)),
        );
        lemma_row_after_replace(
            s.sales,
            s.next_sale,
            s.clock,
            now,
            id,
            revised(old, now, sale_with(old.data, terms)),
        );
        lemma_row_after_replace(s.sales, s.next_sale, s.clock, now, id, retired(old, now));
    }
    if has_id(s.details, id) {
        let old = row_of(s.details, id);
        lemma_row_after_replace(
            s.details,
            s.next_detail,
            s.clock,
            now,
            id,
            revised(old, now, detail),
        );
        lemma_row_after_replace(s.details, s.next_detail, s.clock, now, id, retired(old, now));
    }
    if has_id(s.transactions, id) {
        let old = row_of(s.transactions, id);
        if s.update_transaction_refusal(id, transaction) is None {
            let new = s.update_transaction(id, transaction, now).transactions[index_of(
                s.transactions,
                id,
            )];
            lemma_row_after_replace(s.transactions, s.next_transaction, s.clock, now, id, new);
        }
        lemma_row_after_replace(
            s.transactions,
            s.next_transaction,
            s.clock,
            now,
            id,
            retired(old, now),
        );
    }
}

/// The table gained exactly one row, at its end: a row with identifier `id`,
/// not retired, born and last changed at `now`. Every row it held is as it
/// was.
pub open spec fn stored<T>(before: Seq<Row<T>>, after: Seq<Row<T>>, id: u64, now: u64) -> bool {
    &&& after.len() == before.len() + 1
    &&& after.drop_last() == before
    &&& after.last().id == id
    &&& !after.last().deleted
    &&& after.last().created_at == now
    &&& after.last().updated_at == now
}

/// Every accepted insert stores one row that carries the time handed in as
/// both its creation time and its last change, whatever the store's clock
/// shows, takes the table's next identifier, and touches no other row.
pub proof fn lemma_every_insert_stamps(
    s: State,
    now: u64,
    client: Client,
    auction: AuctionDraft,
    bundle: Bundle,
    sale: SaleDraft,
    detail: SaleDetail,
    transaction: TransactionDraft,
)
    ensures
        stored(s.clients, s.insert_client(client, now).clients, s.next_client, now),
        stored(s.auctions, s.insert_auction(auction, now).auctions, s.next_auction, now),
        stored(s.bundles, s.insert_bundle(bundle, now).bundles, s.next_bundle, now),
        stored(s.sales, s.insert_sale(sale, now).sales, s.next_sale, now),
        stored(s.details, s.insert_detail(detail, now).details, s.next_detail, now),
        stored(
            s.transactions,
            s.insert_transaction(transaction, now).transactions,
            s.next_transaction,
            now,
        ),
{
    assert(s.insert_client(client, now).clients.drop_last() =~= s.clients);
    assert(s.insert_auction(auction, now).auctions.drop_last() =~= s.auctions);
    assert(s.insert_bundle(bundle, now).bundles.drop_last() =~= s.bundles);
    assert(s.insert_sale(sale, now).sales.drop_last() =~= s.sales);
    assert(s.insert_detail(detail, now).details.drop_last() =~= s.details);
    assert(s.insert_transaction(transaction, now).transactions.drop_last() =~= s.transactions);
}

/// A sale that loses its buyer is stamped too: after the buying client was
/// destroyed at `now` the sale was last changed at `now`.
pub proof fn lemma_released_sale_is_stamped(s: State, client: u64, now: u64, i: int)
    requires
        s.wf(),
        0 <= i < s.sales.len(),
        s.sales[i].data.buyer == Some(client),
    ensures
        s.destroy_client(client, now).sales.len() == s.sales.len(),
        s.destroy_client(client, now).sales[i].id == s.sales[i].id,
        s.destroy_client(client, now).sales[i].data.buyer is None,
        s.destroy_client(client, now).sales[i].updated_at == now,
        s.destroy_client(client, now).sales[i].created_at == s.sales[i].created_at,
{
    lemma_destroy_client_removes(s, client, now);
}

/// A lot number is taken within an auction as soon as one bundle carries it:
/// once a bundle is stored, a second one with the same number at the same
/// auction is refused as a duplicate, whatever else it says.
pub proof fn lemma_second_bundle_with_same_lot_is_refused(
    s: State,
    first: Bundle,
    second: Bundle,
    now: u64,
)
    requires
        s.wf(),
        s.insert_bundle_refusal(first) is None,
        same_lot(first, second),
        s.next_bundle + 1 < u64::MAX,
    ensures
        s.insert_bundle(first, now).insert_bundle_refusal(second) == Some(
            StoreError::Unique(UniqueKey::BundleLot),
        ),
{
    let t = s.insert_bundle(first, now);
    assert(t.bundles[s.bundles.len() as int].data == first);
    assert(Some(t.bundles[s.bundles.len() as int].id) != None::<u64>);
}

/// A bundle is refused as a duplicate exactly when its lot number is taken at
/// its auction; with a number that is free there, and a seller and an auction
/// that are there, it is accepted.
pub proof fn lemma_bundle_refused_as_duplicate_iff_lot_taken(s: State, data: Bundle)
    requires
        s.next_bundle < u64::MAX,
    ensures
        s.insert_bundle_refusal(data) == Some(StoreError::Unique(UniqueKey::BundleLot))
            <==> s.lot_taken(data, None),
        !s.lot_taken(data, None) && has_id(s.clients, data.seller) && has_id(
            s.auctions,
            data.auction,
        ) ==> s.insert_bundle_refusal(data) is None,
{
}

/// A transaction with a negative amount is refused on the amount, whatever
/// else it says; one with an amount of zero or more, a known kind, and an
/// auction and a client that are there is accepted.
pub proof fn lemma_transaction_amount_is_checked(s: State, draft: TransactionDraft)
    requires
        s.next_transaction < u64::MAX,
    ensures
        draft.amount < 0 ==> s.insert_transaction_refusal(draft) == Some(
            StoreError::Check(CheckRule::TransactionAmount),
        ),
        draft.amount >= 0 && TransactionKind::parse(draft.kind@) is Some && has_id(
            s.auctions,
            draft.auction,
        ) && has_id(s.clients, draft.client) ==> s.insert_transaction_refusal(draft) is None,
        draft.amount >= 0 ==> s.insert_transaction_refusal(draft) != Some(
            StoreError::Check(CheckRule::TransactionAmount),
        ),
{
}

/// Retiring a row removes nothing: every table holds the identifiers it held
/// before, so whatever pointed to the row still does.
pub proof fn lemma_retiring_removes_nothing(
    s: State,
    table: Table,
    id: u64,
    now: u64,
    other: Table,
    x: u64,
)
    requires
        s.wf(),
        s.holds(table, id),
    ensures
        s.retire(table, id, now).holds(other, x) == s.holds(other, x),
{
    match table {
        Table::Client => {
            lemma_replace(
                s.clients,
                s.next_client,
                s.clock,
                now,
                id,
                retired(row_of(s.clients, id), now),
            );
        },
        Table::Auction => {
            lemma_replace(
                s.auctions,
                s.next_auction,
                s.clock,
                now,
                id,
                retired(row_of(s.auctions, id), now),
            );
        },
        Table::Bundle => {
            lemma_replace(
                s.bundles,
                s.next_bundle,
                s.clock,
                now,
                id,
                retired(row_of(s.bundles, id), now),
            );
        },
        Table::Sale => {
            lemma_replace(
                s.sales,
                s.next_sale,
                s.clock,
                now,
                id,
                retired(row_of(s.sales, id), now),
            );
        },
        Table::SaleDetail => {
            lemma_replace(
                s.details,
                s.next_detail,
                s.clock,
                now,
                id,
                retired(row_of(s.details, id), now),
            );
        },
        Table::Transaction => {
            lemma_replace(
                s.transactions,
                s.next_transaction,
                s.clock,
                now,
                id,
                retired(row_of(s.transactions, id), now),
            );
        },
    }
}

/// The store holds a status to its vocabulary and to nothing else: a change
/// that names a known status is accepted whatever the auction's status was,
/// and that status is then the auction's; a change that names an unknown word
/// is refused whatever the auction's status was.
pub proof fn lemma_any_status_may_follow_any(s: State, id: u64, draft: AuctionDraft, now: u64)
    requires
        s.wf(),
        has_id(s.auctions, id),
        draft.status is Some,
    ensures
        match AuctionStatus::parse(draft.status.unwrap()@) {
            Some(status) => {
                &&& s.update_auction_refusal(id, draft) is None
                &&& row_of(s.update_auction(id, draft, now).auctions, id).data.status == status
            },
            None => s.update_auction_refusal(id, draft) == Some(
                StoreError::Check(CheckRule::AuctionStatus),
            ),
        },
{
    if AuctionStatus::parse(draft.status.unwrap()@) is Some {
            let new = s.update_auction(id, draft, now).auctions[index_of(s.auctions, id)];
        lemma_row_after_replace(s.auctions, s.next_auction, s.clock, now, id, new);
    }
}

/// A row that was just stored is what a query for its identifier finds:
/// not retired, born and last changed at the time it was stored, with the
/// data it was given.
pub proof fn lemma_stored_row_is_found<T>(
    rows: Seq<Row<T>>,
    next_id: u64,
    clock: u64,
    now: u64,
    data: T,
    include_deleted: bool,
)
    requires
        rows_ok(rows, next_id, clock),
        next_id < u64::MAX,
    ensures
        found(rows.push(fresh(next_id, now, data)), next_id, include_deleted) == Some(
            fresh(next_id, now, data),
        ),
{
    lemma_push(rows, next_id, clock, now, data);
    let out = rows.push(fresh(next_id, now, data));
    assert(out[rows.len() as int] == fresh(next_id, now, data));
    lemma_index_of(out, rows.len() as int);
}

/// A retired row is hidden from a query unless the query asks for retired
/// rows; asked for, it shows with its flag set and its data as they were.
pub proof fn lemma_retired_row_is_hidden<T>(
    rows: Seq<Row<T>>,
    next_id: u64,
    clock: u64,
    now: u64,
    id: u64,
)
    requires
        rows_ok(rows, next_id, clock),
        has_id(rows, id),
    ensures
        found(replaced(rows, id, retired(row_of(rows, id), now)), id, false) is None,
        found(replaced(rows, id, retired(row_of(rows, id), now)), id, true) == Some(
            retired(row_of(rows, id), now),
        ),
        retired(row_of(rows, id), now).data == row_of(rows, id).data,
        retired(row_of(rows, id), now).deleted,
{
    lemma_row_after_replace(rows, next_id, clock, now, id, retired(row_of(rows, id), now));
}

} // verus!
