//! Why the ledger stays sound: every mutation that is not refused takes a
//! sound ledger to a sound ledger.

use vstd::prelude::*;
use crate::row::{
    ascending, fresh, has_id, index_of, later, lemma_filter_has_id, lemma_filter_rows,
    lemma_filter_rows_ok, lemma_index_of, other_than, retired, revised, rows_ok, Auction,
    AuctionDraft, Bundle, Client, Row, Sale, SaleDetail, SaleDraft, SaleTerms, Transaction,
    TransactionDraft,
};
use crate::schema::Table;
use crate::state::{
    all, amount_ok, bundle_resolves, buyer_resolves, companies_unique, detail_resolves, lots_unique,
    pairs_unique, release_buyer, replaced, row_of, sale_anchored, sale_of, same_lot,
    transaction_resolves, State,
};

verus! {

/// A new row at the end, stamped with the time handed in, keeps a table
/// sound once the clock has taken that time in, and adds its identifier and
/// no other.
pub proof fn lemma_push<T>(rows: Seq<Row<T>>, next_id: u64, clock: u64, now: u64, data: T)
    requires
        rows_ok(rows, next_id, clock),
        next_id < u64::MAX,
    ensures
        rows_ok(rows.push(fresh(next_id, now, data)), (next_id + 1) as u64, later(clock, now)),
        !has_id(rows, next_id),
        forall|id: u64| #[trigger]
            has_id(rows.push(fresh(next_id, now, data)), id) <==> has_id(rows, id) || id
                == next_id,
{
    let row = fresh(next_id, now, data);
    let out = rows.push(row);
    assert forall|id: u64| #[trigger] has_id(out, id) <==> has_id(rows, id) || id == next_id by {
        if has_id(rows, id) {
            let i = index_of(rows, id);
            assert(out[i].id == id);
        }
        if id == next_id {
            assert(out[rows.len() as int].id == id);
        }
        if has_id(out, id) {
            let i = index_of(out, id);
            if i < rows.len() {
                assert(rows[i].id == id);
            }
        }
    }
    assert forall|i: int, j: int| 0 <= i < j < out.len() implies (#[trigger] out[i]).id < (
    #[trigger] out[j]).id by {
        if j < rows.len() {
            assert(out[i] == rows[i] && out[j] == rows[j]);
        } else {
            assert(out[i] == rows[i]);
        }
    }
    assert forall|i: int| 0 <= i < out.len() implies {
        &&& 1 <= (#[trigger] out[i]).id < next_id + 1
        &&& out[i].created_at <= later(clock, now)
        &&& out[i].updated_at <= later(clock, now)
    } by {
        if i < rows.len() {
            assert(out[i] == rows[i]);
        }
    }
}

/// A row replaced by one with the same identifier and creation time, stamped
/// with the time handed in, keeps a table sound once the clock has taken
/// that time in, and keeps its identifiers as they were.
pub proof fn lemma_replace<T>(
    rows: Seq<Row<T>>,
    next_id: u64,
    clock: u64,
    now: u64,
    id: u64,
    row: Row<T>,
)
    requires
        rows_ok(rows, next_id, clock),
        has_id(rows, id),
        row.id == id,
        row.created_at == row_of(rows, id).created_at,
        row.updated_at == now,
    ensures
        rows_ok(replaced(rows, id, row), next_id, later(clock, now)),
        replaced(rows, id, row).len() == rows.len(),
        0 <= index_of(rows, id) < rows.len(),
        rows[index_of(rows, id)].id == id,
        forall|i: int|
            0 <= i < rows.len() && i != index_of(rows, id) ==> (#[trigger] rows[i]).id != id,
        forall|other: u64| #[trigger]
            has_id(replaced(rows, id, row), other) <==> has_id(rows, other),
{
    let at = index_of(rows, id);
    let out = replaced(rows, id, row);
    lemma_index_of(rows, at);
    assert forall|i: int| 0 <= i < rows.len() && i != at implies (#[trigger] rows[i]).id
        != id by {
        lemma_index_of(rows, i);
    }
    assert forall|other: u64| #[trigger] has_id(out, other) <==> has_id(rows, other) by {
        if has_id(rows, other) {
            let i = index_of(rows, other);
            assert(out[i].id == other);
        }
        if has_id(out, other) {
            let i = index_of(out, other);
            assert(rows[i].id == other);
        }
    }
    assert forall|i: int, j: int| 0 <= i < j < out.len() implies (#[trigger] out[i]).id < (
    #[trigger] out[j]).id by {
        assert(out[i].id == rows[i].id && out[j].id == rows[j].id);
    }
    assert forall|i: int| 0 <= i < out.len() implies {
        &&& 1 <= (#[trigger] out[i]).id < next_id
        &&& out[i].created_at <= later(clock, now)
        &&& out[i].updated_at <= later(clock, now)
    } by {
        if i != at {
            assert(out[i] == rows[i]);
        } else {
            assert(rows[at].created_at <= clock);
        }
    }
}

/// After filtering, a table holds exactly the identifiers of the rows that
/// pass.
pub proof fn lemma_filter_ids<T>(rows: Seq<Row<T>>, keep: spec_fn(Row<T>) -> bool)
    requires
        ascending(rows),
    ensures
        forall|id: u64| #[trigger]
            has_id(rows.filter(keep), id) <==> has_id(rows, id) && keep(row_of(rows, id)),
{
    assert forall|id: u64| #[trigger]
        has_id(rows.filter(keep), id) <==> has_id(rows, id) && keep(row_of(rows, id)) by {
        lemma_filter_has_id(rows, keep, id);
    }
}

/// Removing the row with one identifier removes that identifier and no
/// other.
pub proof fn lemma_without_ids<T>(rows: Seq<Row<T>>, gone: u64)
    requires
        ascending(rows),
    ensures
        forall|id: u64| #[trigger]
            has_id(rows.filter(other_than(gone)), id) <==> has_id(rows, id) && id != gone,
{
    lemma_filter_ids(rows, other_than::<T>(gone));
    assert forall|id: u64| #[trigger]
        has_id(rows.filter(other_than(gone)), id) <==> has_id(rows, id) && id != gone by {
        if has_id(rows, id) {
            assert(row_of(rows, id).id == id);
        }
    }
}

/// Filtering keeps whatever held of every row.
pub proof fn lemma_filter_all<T>(
    rows: Seq<Row<T>>,
    keep: spec_fn(Row<T>) -> bool,
    holds: spec_fn(Row<T>) -> bool,
)
    requires
        ascending(rows),
        all(rows, holds),
    ensures
        all(rows.filter(keep), holds),
{
    lemma_filter_rows(rows, keep);
    let out = rows.filter(keep);
    assert forall|i: int| 0 <= i < out.len() implies holds(#[trigger] out[i]) by {
        let j = choose|j: int| 0 <= j < rows.len() && #[trigger] rows[j] == out[i];
        assert(holds(rows[j]));
    }
}

/// Every row that filtering keeps passes the filter.
pub proof fn lemma_filter_passes<T>(rows: Seq<Row<T>>, keep: spec_fn(Row<T>) -> bool)
    requires
        ascending(rows),
    ensures
        all(rows.filter(keep), keep),
{
    lemma_filter_rows(rows, keep);
}

/// Filtering keeps company names unique.
pub proof fn lemma_filter_companies(clients: Seq<Row<Client>>, keep: spec_fn(Row<Client>) -> bool)
    requires
        ascending(clients),
        companies_unique(clients),
    ensures
        companies_unique(clients.filter(keep)),
{
    lemma_filter_rows(clients, keep);
    let out = clients.filter(keep);
    assert forall|i: int, j: int| 0 <= i < out.len() && 0 <= j < out.len() && i != j implies (
    #[trigger] out[i]).data.company@ != (#[trigger] out[j]).data.company@ by {
        let a = choose|a: int| 0 <= a < clients.len() && #[trigger] clients[a] == out[i];
        let b = choose|b: int| 0 <= b < clients.len() && #[trigger] clients[b] == out[j];
        if i < j {
            assert(out[i].id < out[j].id);
        } else {
            assert(out[j].id < out[i].id);
        }
        assert(a != b);
    }
}

/// Filtering keeps lot numbers unique within each auction.
pub proof fn lemma_filter_lots(bundles: Seq<Row<Bundle>>, keep: spec_fn(Row<Bundle>) -> bool)
    requires
        ascending(bundles),
        lots_unique(bundles),
    ensures
        lots_unique(bundles.filter(keep)),
{
    lemma_filter_rows(bundles, keep);
    let out = bundles.filter(keep);
    assert forall|i: int, j: int|
        0 <= i < out.len() && 0 <= j < out.len() && i != j implies !same_lot(
        (#[trigger] out[i]).data,
        (#[trigger] out[j]).data,
    ) by {
        let a = choose|a: int| 0 <= a < bundles.len() && #[trigger] bundles[a] == out[i];
        let b = choose|b: int| 0 <= b < bundles.len() && #[trigger] bundles[b] == out[j];
        if i < j {
            assert(out[i].id < out[j].id);
        } else {
            assert(out[j].id < out[i].id);
        }
        assert(a != b);
    }
}

/// Filtering keeps the pairs of sale and bundle unique.
pub proof fn lemma_filter_pairs(
    details: Seq<Row<SaleDetail>>,
    keep: spec_fn(Row<SaleDetail>) -> bool,
)
    requires
        ascending(details),
        pairs_unique(details),
    ensures
        pairs_unique(details.filter(keep)),
{
    lemma_filter_rows(details, keep);
    let out = details.filter(keep);
    assert forall|i: int, j: int| 0 <= i < out.len() && 0 <= j < out.len() && i != j implies (
    #[trigger] out[i]).data != (#[trigger] out[j]).data by {
        let a = choose|a: int| 0 <= a < details.len() && #[trigger] details[a] == out[i];
        let b = choose|b: int| 0 <= b < details.len() && #[trigger] details[b] == out[j];
        if i < j {
            assert(out[i].id < out[j].id);
        } else {
            assert(out[j].id < out[i].id);
        }
        assert(a != b);
    }
}

/// Clearing the buyers that are gone keeps the sales table sound and its
/// identifiers as they were, and leaves no sale with a buyer who is not
/// there.
pub proof fn lemma_release(
    sales: Seq<Row<Sale>>,
    clients: Seq<Row<Client>>,
    next_id: u64,
    clock: u64,
    now: u64,
)
    requires
        rows_ok(sales, next_id, clock),
        now <= clock,
    ensures
        rows_ok(sales.map_values(release_buyer(clients, now)), next_id, clock),
        all(sales.map_values(release_buyer(clients, now)), buyer_resolves(clients)),
        forall|id: u64| #[trigger]
            has_id(sales.map_values(release_buyer(clients, now)), id) <==> has_id(sales, id),
        forall|i: int|
            0 <= i < sales.len() ==> (#[trigger] sales.map_values(
                release_buyer(clients, now),
            )[i]).data.auction == sales[i].data.auction,
{
    let out = sales.map_values(release_buyer(clients, now));
    assert forall|i: int| 0 <= i < out.len() implies out[i].id == sales[i].id
        && out[i].created_at == sales[i].created_at && (out[i].updated_at == sales[i].updated_at
        || out[i].updated_at == now) && buyer_resolves(clients)(#[trigger] out[i])
        && out[i].data.auction == sales[i].data.auction by {
        assert(out[i] == release_buyer(clients, now)(sales[i]));
    }
    assert forall|id: u64| #[trigger] has_id(out, id) <==> has_id(sales, id) by {
        if has_id(sales, id) {
            let i = index_of(sales, id);
            assert(out[i].id == id);
        }
        if has_id(out, id) {
            let i = index_of(out, id);
            assert(sales[i].id == id);
        }
    }
    assert forall|i: int, j: int| 0 <= i < j < out.len() implies (#[trigger] out[i]).id < (
    #[trigger] out[j]).id by {
        assert(sales[i].id < sales[j].id);
    }
    assert forall|i: int| 0 <= i < out.len() implies {
        &&& 1 <= (#[trigger] out[i]).id < next_id
        &&& out[i].created_at <= clock
        &&& out[i].updated_at <= clock
    } by {
        assert(1 <= sales[i].id < next_id);
    }
}

/// Sweeping makes a ledger sound whose tables are each sound by themselves:
/// afterwards every reference points to a row that is there.
pub proof fn lemma_swept(s: State, now: u64)
    requires
        s.tables_ok(),
        now <= s.clock,
    ensures
        s.swept(now).wf(),
{
    let t = s.swept(now);
    let kept_sales = s.sales.filter(sale_anchored(s.auctions));
    lemma_filter_rows_ok(s.bundles, bundle_resolves(s.clients, s.auctions), s.next_bundle, s.clock);
    lemma_filter_lots(s.bundles, bundle_resolves(s.clients, s.auctions));
    lemma_filter_passes(s.bundles, bundle_resolves(s.clients, s.auctions));
    lemma_filter_rows_ok(s.sales, sale_anchored(s.auctions), s.next_sale, s.clock);
    lemma_filter_passes(s.sales, sale_anchored(s.auctions));
    lemma_release(kept_sales, s.clients, s.next_sale, s.clock, now);
    assert forall|i: int| 0 <= i < t.sales.len() implies sale_anchored(s.auctions)(
        #[trigger] t.sales[i],
    ) by {
        assert(sale_anchored(s.auctions)(kept_sales[i]));
    }
    lemma_filter_rows_ok(s.details, detail_resolves(t.sales, t.bundles), s.next_detail, s.clock);
    lemma_filter_pairs(s.details, detail_resolves(t.sales, t.bundles));
    lemma_filter_passes(s.details, detail_resolves(t.sales, t.bundles));
    lemma_filter_rows_ok(
        s.transactions,
        transaction_resolves(s.clients, s.auctions),
        s.next_transaction,
        s.clock,
    );
    lemma_filter_all(s.transactions, transaction_resolves(s.clients, s.auctions), amount_ok());
    lemma_filter_passes(s.transactions, transaction_resolves(s.clients, s.auctions));
}

/// An accepted new client keeps the ledger sound.
pub proof fn lemma_insert_client(s: State, data: Client, now: u64)
    requires
        s.wf(),
        s.insert_client_refusal(data) is None,
    ensures
        s.insert_client(data, now).wf(),
{
    let t = s.insert_client(data, now);
    lemma_push(s.clients, s.next_client, s.clock, now, data);
    assert forall|i: int, j: int|
        0 <= i < t.clients.len() && 0 <= j < t.clients.len() && i != j implies (
    #[trigger] t.clients[i]).data.company@ != (#[trigger] t.clients[j]).data.company@ by {
        if i < s.clients.len() && j < s.clients.len() {
            assert(t.clients[i] == s.clients[i] && t.clients[j] == s.clients[j]);
        } else if i < s.clients.len() {
            assert(Some(s.clients[i].id) != None::<u64>);
        } else {
            assert(Some(s.clients[j].id) != None::<u64>);
        }
    }
}

/// An accepted change to a client keeps the ledger sound.
pub proof fn lemma_update_client(s: State, id: u64, data: Client, now: u64)
    requires
        s.wf(),
        s.update_client_refusal(id, data) is None,
    ensures
        s.update_client(id, data, now).wf(),
{
    let t = s.update_client(id, data, now);
    let at = index_of(s.clients, id);
    lemma_replace(
        s.clients,
        s.next_client,
        s.clock,
        now,
        id,
        revised(row_of(s.clients, id), now, data),
    );
    assert forall|i: int, j: int|
        0 <= i < t.clients.len() && 0 <= j < t.clients.len() && i != j implies (
    #[trigger] t.clients[i]).data.company@ != (#[trigger] t.clients[j]).data.company@ by {
        if i != at && j != at {
            assert(t.clients[i] == s.clients[i] && t.clients[j] == s.clients[j]);
        } else if i != at {
            assert(Some(s.clients[i].id) != Some(id));
        } else {
            assert(Some(s.clients[j].id) != Some(id));
        }
    }
}

/// An accepted new auction keeps the ledger sound.
pub proof fn lemma_insert_auction(s: State, draft: AuctionDraft, now: u64)
    requires
        s.wf(),
        s.insert_auction_refusal(draft) is None,
    ensures
        s.insert_auction(draft, now).wf(),
{
    let t = s.insert_auction(draft, now);
    lemma_push(s.auctions, s.next_auction, s.clock, now, t.auctions.last().data);
}

/// An accepted change to an auction keeps the ledger sound.
pub proof fn lemma_update_auction(s: State, id: u64, draft: AuctionDraft, now: u64)
    requires
        s.wf(),
        s.update_auction_refusal(id, draft) is None,
    ensures
        s.update_auction(id, draft, now).wf(),
{
    let t = s.update_auction(id, draft, now);
    lemma_replace(
        s.auctions,
        s.next_auction,
        s.clock,
        now,
        id,
        t.auctions[index_of(s.auctions, id)],
    );
}

/// An accepted new bundle keeps the ledger sound.
pub proof fn lemma_insert_bundle(s: State, data: Bundle, now: u64)
    requires
        s.wf(),
        s.insert_bundle_refusal(data) is None,
    ensures
        s.insert_bundle(data, now).wf(),
{
    let t = s.insert_bundle(data, now);
    lemma_push(s.bundles, s.next_bundle, s.clock, now, data);
    assert forall|i: int, j: int|
        0 <= i < t.bundles.len() && 0 <= j < t.bundles.len() && i != j implies !same_lot(
        (#[trigger] t.bundles[i]).data,
        (#[trigger] t.bundles[j]).data,
    ) by {
        if i < s.bundles.len() && j < s.bundles.len() {
            assert(t.bundles[i] == s.bundles[i] && t.bundles[j] == s.bundles[j]);
        } else if i < s.bundles.len() {
            assert(Some(s.bundles[i].id) != None::<u64>);
        } else {
            assert(Some(s.bundles[j].id) != None::<u64>);
        }
    }
    assert forall|i: int| 0 <= i < t.bundles.len() implies bundle_resolves(t.clients, t.auctions)(
        #[trigger] t.bundles[i],
    ) by {
        if i < s.bundles.len() {
            assert(bundle_resolves(s.clients, s.auctions)(s.bundles[i]));
        }
    }
}

/// An accepted change to a bundle keeps the ledger sound.
pub proof fn lemma_update_bundle(s: State, id: u64, data: Bundle, now: u64)
    requires
        s.wf(),
        s.update_bundle_refusal(id, data) is None,
    ensures
        s.update_bundle(id, data, now).wf(),
{
    let t = s.update_bundle(id, data, now);
    let at = index_of(s.bundles, id);
    lemma_replace(
        s.bundles,
        s.next_bundle,
        s.clock,
        now,
        id,
        revised(row_of(s.bundles, id), now, data),
    );
    assert forall|i: int, j: int|
        0 <= i < t.bundles.len() && 0 <= j < t.bundles.len() && i != j implies !same_lot(
        (#[trigger] t.bundles[i]).data,
        (#[trigger] t.bundles[j]).data,
    ) by {
        if i != at && j != at {
            assert(t.bundles[i] == s.bundles[i] && t.bundles[j] == s.bundles[j]);
        } else if i != at {
            assert(Some(s.bundles[i].id) != Some(id));
        } else {
            assert(Some(s.bundles[j].id) != Some(id));
        }
    }
    assert forall|i: int| 0 <= i < t.bundles.len() implies bundle_resolves(t.clients, t.auctions)(
        #[trigger] t.bundles[i],
    ) by {
        if i != at {
            assert(bundle_resolves(s.clients, s.auctions)(s.bundles[i]));
        }
    }
    assert forall|i: int| 0 <= i < t.details.len() implies detail_resolves(t.sales, t.bundles)(
        #[trigger] t.details[i],
    ) by {
        assert(detail_resolves(s.sales, s.bundles)(s.details[i]));
    }
}

/// An accepted new sale keeps the ledger sound.
pub proof fn lemma_insert_sale(s: State, draft: SaleDraft, now: u64)
    requires
        s.wf(),
        s.insert_sale_refusal(draft) is None,
    ensures
        s.insert_sale(draft, now).wf(),
{
    let t = s.insert_sale(draft, now);
    lemma_push(s.sales, s.next_sale, s.clock, now, sale_of(draft));
    assert forall|i: int| 0 <= i < t.sales.len() implies sale_anchored(t.auctions)(
        #[trigger] t.sales[i],
    ) && buyer_resolves(t.clients)(t.sales[i]) by {
        if i < s.sales.len() {
            assert(sale_anchored(s.auctions)(s.sales[i]));
            assert(buyer_resolves(s.clients)(s.sales[i]));
        }
    }
    assert forall|i: int| 0 <= i < t.details.len() implies detail_resolves(t.sales, t.bundles)(
        #[trigger] t.details[i],
    ) by {
        assert(detail_resolves(s.sales, s.bundles)(s.details[i]));
    }
}

/// An accepted change to a sale keeps the ledger sound.
pub proof fn lemma_update_sale(s: State, id: u64, draft: SaleDraft, now: u64)
    requires
        s.wf(),
        s.update_sale_refusal(id, draft) is None,
    ensures
        s.update_sale(id, draft, now).wf(),
{
    let t = s.update_sale(id, draft, now);
    let at = index_of(s.sales, id);
    lemma_replace(
        s.sales,
        s.next_sale,
        s.clock,
        now,
        id,
        revised(row_of(s.sales, id), now, sale_of(draft)),
    );
    assert forall|i: int| 0 <= i < t.sales.len() implies sale_anchored(t.auctions)(
        #[trigger] t.sales[i],
    ) && buyer_resolves(t.clients)(t.sales[i]) by {
        if i != at {
            assert(sale_anchored(s.auctions)(s.sales[i]));
            assert(buyer_resolves(s.clients)(s.sales[i]));
        }
    }
    assert forall|i: int| 0 <= i < t.details.len() implies detail_resolves(t.sales, t.bundles)(
        #[trigger] t.details[i],
    ) by {
        assert(detail_resolves(s.sales, s.bundles)(s.details[i]));
    }
}

/// An accepted change to a sale's terms keeps the ledger sound.
pub proof fn lemma_update_sale_terms(s: State, id: u64, terms: SaleTerms, now: u64)
    requires
        s.wf(),
        s.update_sale_terms_refusal(id, terms) is None,
    ensures
        s.update_sale_terms(id, terms, now).wf(),
{
    let t = s.update_sale_terms(id, terms, now);
    let at = index_of(s.sales, id);
    lemma_replace(s.sales, s.next_sale, s.clock, now, id, t.sales[at]);
    assert forall|i: int| 0 <= i < t.sales.len() implies sale_anchored(t.auctions)(
        #[trigger] t.sales[i],
    ) && buyer_resolves(t.clients)(t.sales[i]) by {
        assert(sale_anchored(s.auctions)(s.sales[i]));
        assert(buyer_resolves(s.clients)(s.sales[i]));
    }
    assert forall|i: int| 0 <= i < t.details.len() implies detail_resolves(t.sales, t.bundles)(
        #[trigger] t.details[i],
    ) by {
        assert(detail_resolves(s.sales, s.bundles)(s.details[i]));
    }
}

/// An accepted new sale detail keeps the ledger sound.
pub proof fn lemma_insert_detail(s: State, data: SaleDetail, now: u64)
    requires
        s.wf(),
        s.insert_detail_refusal(data) is None,
    ensures
        s.insert_detail(data, now).wf(),
{
    let t = s.insert_detail(data, now);
    lemma_push(s.details, s.next_detail, s.clock, now, data);
    assert forall|i: int, j: int|
        0 <= i < t.details.len() && 0 <= j < t.details.len() && i != j implies (
    #[trigger] t.details[i]).data != (#[trigger] t.details[j]).data by {
        if i < s.details.len() && j < s.details.len() {
            assert(t.details[i] == s.details[i] && t.details[j] == s.details[j]);
        } else if i < s.details.len() {
            assert(Some(s.details[i].id) != None::<u64>);
        } else {
            assert(Some(s.details[j].id) != None::<u64>);
        }
    }
    assert forall|i: int| 0 <= i < t.details.len() implies detail_resolves(t.sales, t.bundles)(
        #[trigger] t.details[i],
    ) by {
        if i < s.details.len() {
            assert(detail_resolves(s.sales, s.bundles)(s.details[i]));
        }
    }
}

/// An accepted change to a sale detail keeps the ledger sound.
pub proof fn lemma_update_detail(s: State, id: u64, data: SaleDetail, now: u64)
    requires
        s.wf(),
        s.update_detail_refusal(id, data) is None,
    ensures
        s.update_detail(id, data, now).wf(),
{
    let t = s.update_detail(id, data, now);
    let at = index_of(s.details, id);
    lemma_replace(
        s.details,
        s.next_detail,
        s.clock,
        now,
        id,
        revised(row_of(s.details, id), now, data),
    );
    assert forall|i: int, j: int|
        0 <= i < t.details.len() && 0 <= j < t.details.len() && i != j implies (
    #[trigger] t.details[i]).data != (#[trigger] t.details[j]).data by {
        if i != at && j != at {
            assert(t.details[i] == s.details[i] && t.details[j] == s.details[j]);
        } else if i != at {
            assert(Some(s.details[i].id) != Some(id));
        } else {
            assert(Some(s.details[j].id) != Some(id));
        }
    }
    assert forall|i: int| 0 <= i < t.details.len() implies detail_resolves(t.sales, t.bundles)(
        #[trigger] t.details[i],
    ) by {
        if i != at {
            assert(detail_resolves(s.sales, s.bundles)(s.details[i]));
        }
    }
}

/// An accepted new transaction keeps the ledger sound.
pub proof fn lemma_insert_transaction(s: State, draft: TransactionDraft, now: u64)
    requires
        s.wf(),
        s.insert_transaction_refusal(draft) is None,
    ensures
        s.insert_transaction(draft, now).wf(),
{
    let t = s.insert_transaction(draft, now);
    lemma_push(s.transactions, s.next_transaction, s.clock, now, t.transactions.last().data);
    assert forall|i: int| 0 <= i < t.transactions.len() implies transaction_resolves(
        t.clients,
        t.auctions,
    )(#[trigger] t.transactions[i]) && amount_ok()(t.transactions[i]) by {
        if i < s.transactions.len() {
            assert(transaction_resolves(s.clients, s.auctions)(s.transactions[i]));
            assert(amount_ok()(s.transactions[i]));
        }
    }
}

/// An accepted change to a transaction keeps the ledger sound.
pub proof fn lemma_update_transaction(s: State, id: u64, draft: TransactionDraft, now: u64)
    requires
        s.wf(),
        s.update_transaction_refusal(id, draft) is None,
    ensures
        s.update_transaction(id, draft, now).wf(),
{
    let t = s.update_transaction(id, draft, now);
    let at = index_of(s.transactions, id);
    lemma_replace(s.transactions, s.next_transaction, s.clock, now, id, t.transactions[at]);
    assert forall|i: int| 0 <= i < t.transactions.len() implies transaction_resolves(
        t.clients,
        t.auctions,
    )(#[trigger] t.transactions[i]) && amount_ok()(t.transactions[i]) by {
        if i != at {
            assert(transaction_resolves(s.clients, s.auctions)(s.transactions[i]));
            assert(amount_ok()(s.transactions[i]));
        }
    }
}

/// Retiring a row that is there keeps the ledger sound.
pub proof fn lemma_retire(s: State, table: Table, id: u64, now: u64)
    requires
        s.wf(),
        s.holds(table, id),
    ensures
        s.retire(table, id, now).wf(),
{
    let t = s.retire(table, id, now);
    match table {
        Table::Client => {
            let at = index_of(s.clients, id);
            lemma_replace(
                s.clients,
                s.next_client,
                s.clock,
                now,
                id,
                retired(row_of(s.clients, id), now),
            );
            assert forall|i: int, j: int|
                0 <= i < t.clients.len() && 0 <= j < t.clients.len() && i != j implies (
            #[trigger] t.clients[i]).data.company@ != (#[trigger] t.clients[j]).data.company@ by {
                assert(t.clients[i].data == s.clients[i].data);
                assert(t.clients[j].data == s.clients[j].data);
            }
        },
        Table::Auction => {
            lemma_replace(
                s.auctions,
                s.next_auction,
                s.clock,
                now,
                id,
                retired(row_of(s.auctions, id), now),
            );
        },
        Table::Bundle => {
            lemma_replace(
                s.bundles,
                s.next_bundle,
                s.clock,
                now,
                id,
                retired(row_of(s.bundles, id), now),
            );
            assert forall|i: int, j: int|
                0 <= i < t.bundles.len() && 0 <= j < t.bundles.len() && i != j implies !same_lot(
                (#[trigger] t.bundles[i]).data,
                (#[trigger] t.bundles[j]).data,
            ) by {
                assert(t.bundles[i].data == s.bundles[i].data);
                assert(t.bundles[j].data == s.bundles[j].data);
            }
            assert forall|i: int| 0 <= i < t.bundles.len() implies bundle_resolves(
                t.clients,
                t.auctions,
            )(#[trigger] t.bundles[i]) by {
                assert(bundle_resolves(s.clients, s.auctions)(s.bundles[i]));
            }
            assert forall|i: int| 0 <= i < t.details.len() implies detail_resolves(
                t.sales,
                t.bundles,
            )(#[trigger] t.details[i]) by {
                assert(detail_resolves(s.sales, s.bundles)(s.details[i]));
            }
        },
        Table::Sale => {
            lemma_replace(
                s.sales,
                s.next_sale,
                s.clock,
                now,
                id,
                retired(row_of(s.sales, id), now),
            );
            assert forall|i: int| 0 <= i < t.sales.len() implies sale_anchored(t.auctions)(
                #[trigger] t.sales[i],
            ) && buyer_resolves(t.clients)(t.sales[i]) by {
                assert(sale_anchored(s.auctions)(s.sales[i]));
                assert(buyer_resolves(s.clients)(s.sales[i]));
            }
            assert forall|i: int| 0 <= i < t.details.len() implies detail_resolves(
                t.sales,
                t.bundles,
            )(#[trigger] t.details[i]) by {
                assert(detail_resolves(s.sales, s.bundles)(s.details[i]));
            }
        },
        Table::SaleDetail => {
            lemma_replace(
                s.details,
                s.next_detail,
                s.clock,
                now,
                id,
                retired(row_of(s.details, id), now),
            );
            assert forall|i: int, j: int|
                0 <= i < t.details.len() && 0 <= j < t.details.len() && i != j implies (
            #[trigger] t.details[i]).data != (#[trigger] t.details[j]).data by {
                assert(t.details[i].data == s.details[i].data);
                assert(t.details[j].data == s.details[j].data);
            }
            assert forall|i: int| 0 <= i < t.details.len() implies detail_resolves(
                t.sales,
                t.bundles,
            )(#[trigger] t.details[i]) by {
                assert(detail_resolves(s.sales, s.bundles)(s.details[i]));
            }
        },
        Table::Transaction => {
            lemma_replace(
                s.transactions,
                s.next_transaction,
                s.clock,
                now,
                id,
                retired(row_of(s.transactions, id), now),
            );
            assert forall|i: int| 0 <= i < t.transactions.len() implies transaction_resolves(
                t.clients,
                t.auctions,
            )(#[trigger] t.transactions[i]) && amount_ok()(t.transactions[i]) by {
                assert(transaction_resolves(s.clients, s.auctions)(s.transactions[i]));
                assert(amount_ok()(s.transactions[i]));
            }
        },
    }
}

/// Destroying a client leaves the ledger sound.
pub proof fn lemma_destroy_client(s: State, id: u64, now: u64)
    requires
        s.wf(),
    ensures
        s.destroy_client(id, now).wf(),
{
    let keep = other_than::<Client>(id);
    lemma_filter_rows_ok(s.clients, keep, s.next_client, later(s.clock, now));
    lemma_filter_companies(s.clients, keep);
    lemma_swept(State { clients: s.clients.filter(keep), ..s.at(now) }, now);
}

/// Destroying an auction leaves the ledger sound.
pub proof fn lemma_destroy_auction(s: State, id: u64, now: u64)
    requires
        s.wf(),
    ensures
        s.destroy_auction(id, now).wf(),
{
    let keep = other_than::<Auction>(id);
    lemma_filter_rows_ok(s.auctions, keep, s.next_auction, later(s.clock, now));
    lemma_swept(State { auctions: s.auctions.filter(keep), ..s.at(now) }, now);
}

/// Destroying a bundle leaves the ledger sound.
pub proof fn lemma_destroy_bundle(s: State, id: u64, now: u64)
    requires
        s.wf(),
    ensures
        s.destroy_bundle(id, now).wf(),
{
    let keep = other_than::<Bundle>(id);
    lemma_filter_rows_ok(s.bundles, keep, s.next_bundle, later(s.clock, now));
    lemma_filter_lots(s.bundles, keep);
    lemma_swept(State { bundles: s.bundles.filter(keep), ..s.at(now) }, now);
}

/// Destroying a sale leaves the ledger sound.
pub proof fn lemma_destroy_sale(s: State, id: u64, now: u64)
    requires
        s.wf(),
    ensures
        s.destroy_sale(id, now).wf(),
{
    let keep = other_than::<Sale>(id);
    lemma_filter_rows_ok(s.sales, keep, s.next_sale, later(s.clock, now));
    lemma_swept(State { sales: s.sales.filter(keep), ..s.at(now) }, now);
}

} // verus!
