//! Rows and what is true of a table on its own: every row carries an
//! identifier the table handed out, a soft-delete flag and two timestamps the
//! store maintains, next to the data the caller supplied.

use vstd::prelude::*;
use crate::vocabulary::{AuctionStatus, TransactionKind};

verus! {

/// A stored row. `id` never changes; `deleted` marks a row as retired without
/// removing it; `created_at` is set once and `updated_at` on every change.
#[derive(Debug, Clone, PartialEq, Eq)]
pub struct Row<T> {
    pub id: u64,
    pub deleted: bool,
    pub created_at: u64,
    pub updated_at: u64,
    pub data: T,
}

/// A counterparty: a buyer, or the seller of a bundle.
#[derive(Debug, Clone, PartialEq, Eq)]
pub struct Client {
    pub company: String,
    pub first_name: Option<String>,
    pub last_name: Option<String>,
    pub email: Option<String>,
    pub phone: Option<String>,
    pub province: String,
    pub city: String,
}

/// An auction as stored.
#[derive(Debug, Clone, PartialEq, Eq)]
pub struct Auction {
    pub name: String,
    pub province: String,
    pub city: String,
    pub date: String,
    pub status: AuctionStatus,
}

/// An auction as handed in: the status comes as text, or not at all.
#[derive(Debug, Clone, PartialEq, Eq)]
pub struct AuctionDraft {
    pub name: String,
    pub province: String,
    pub city: String,
    pub date: String,
    pub status: Option<String>,
}

/// A lot offered by a seller at an auction.
#[derive(Debug, Clone, PartialEq, Eq)]
pub struct Bundle {
    pub number: i64,
    pub name: String,
    pub observations: Option<String>,
    pub seller: u64,
    pub auction: u64,
}

/// A sale as stored. The buyer is absent only once the buying client has
/// been destroyed. The price is in hundredths of the currency unit.
#[derive(Debug, Clone, PartialEq, Eq)]
pub struct Sale {
    pub auction: u64,
    pub buyer: Option<u64>,
    pub total_price: i64,
    pub deadline: String,
}

/// A sale as handed in: it always names its buyer.
#[derive(Debug, Clone, PartialEq, Eq)]
pub struct SaleDraft {
    pub auction: u64,
    pub buyer: u64,
    pub total_price: i64,
    pub deadline: String,
}

/// What a sale can be changed to without touching its buyer.
#[derive(Debug, Clone, PartialEq, Eq)]
pub struct SaleTerms {
    pub auction: u64,
    pub total_price: i64,
    pub deadline: String,
}

/// One bundle of one sale.
#[derive(Debug, Clone, Copy, PartialEq, Eq, Structural)]
pub struct SaleDetail {
    pub sale: u64,
    pub bundle: u64,
}

/// A payment or collection as stored. The amount is in hundredths of the
/// currency unit.
#[derive(Debug, Clone, Copy, PartialEq, Eq, Structural)]
pub struct Transaction {
    pub auction: u64,
    pub client: u64,
    pub amount: i64,
    pub kind: TransactionKind,
}

/// A payment or collection as handed in: the kind comes as text.
#[derive(Debug, Clone, PartialEq, Eq)]
pub struct TransactionDraft {
    pub auction: u64,
    pub client: u64,
    pub amount: i64,
    pub kind: String,
}

/// The table holds a row with this identifier.
pub open spec fn has_id<T>(rows: Seq<Row<T>>, id: u64) -> bool {
    exists|i: int| 0 <= i < rows.len() && (#[trigger] rows[i]).id == id
}

/// Where the row with this identifier stands, if the table holds it.
pub open spec fn index_of<T>(rows: Seq<Row<T>>, id: u64) -> int {
    choose|i: int| 0 <= i < rows.len() && (#[trigger] rows[i]).id == id
}

/// Rows stand in the order in which their identifiers were handed out.
pub open spec fn ascending<T>(rows: Seq<Row<T>>) -> bool {
    forall|i: int, j: int|
        0 <= i < j < rows.len() ==> (#[trigger] rows[i]).id < (#[trigger] rows[j]).id
}

/// What holds of a table by itself: identifiers were handed out by this
/// table, in order, and no timestamp runs ahead of the latest time the store
/// has been told of.
pub open spec fn rows_ok<T>(rows: Seq<Row<T>>, next_id: u64, clock: u64) -> bool {
    &&& next_id >= 1
    &&& ascending(rows)
    &&& forall|i: int|
        0 <= i < rows.len() ==> {
            &&& 1 <= (#[trigger] rows[i]).id < next_id
            &&& rows[i].created_at <= clock
            &&& rows[i].updated_at <= clock
        }
}

/// The later of two times: what the store's clock shows once it has been
/// told that it is `now`.
pub open spec fn later(clock: u64, now: u64) -> u64 {
    if now > clock {
        now
    } else {
        clock
    }
}

/// A row as it is first stored at time `stamp`.
pub open spec fn fresh<T>(id: u64, stamp: u64, data: T) -> Row<T> {
    Row { id, deleted: false, created_at: stamp, updated_at: stamp, data }
}

/// A row after its data was replaced at time `stamp`.
pub open spec fn revised<T>(row: Row<T>, stamp: u64, data: T) -> Row<T> {
    Row { updated_at: stamp, data, ..row }
}

/// A row after it was retired at time `stamp`.
pub open spec fn retired<T>(row: Row<T>, stamp: u64) -> Row<T> {
    Row { deleted: true, updated_at: stamp, ..row }
}

/// Whether a query sees the row: retired rows only on request.
pub open spec fn visible<T>(row: Row<T>, include_deleted: bool) -> bool {
    include_deleted || !row.deleted
}

/// Every row but the one with this identifier.
pub open spec fn other_than<T>(id: u64) -> spec_fn(Row<T>) -> bool {
    |row: Row<T>| row.id != id
}

/// The rows a query sees.
pub open spec fn seen<T>(include_deleted: bool) -> spec_fn(Row<T>) -> bool {
    |row: Row<T>| visible(row, include_deleted)
}

/// The identifiers of some rows, in order.
pub open spec fn ids_of<T>(rows: Seq<Row<T>>) -> Seq<u64> {
    Seq::new(rows.len(), |i: int| rows[i].id)
}

/// In an ordered table an identifier stands at one place only.
pub proof fn lemma_index_of<T>(rows: Seq<Row<T>>, i: int)
    requires
        ascending(rows),
        0 <= i < rows.len(),
    ensures
        has_id(rows, rows[i].id),
        index_of(rows, rows[i].id) == i,
{
    let j = index_of(rows, rows[i].id);
    if j < i {
        assert(rows[j].id < rows[i].id);
    } else if i < j {
        assert(rows[i].id < rows[j].id);
    }
}

/// What filtering keeps: rows of the table that pass, all of them, still in
/// order.
pub proof fn lemma_filter_rows<T>(rows: Seq<Row<T>>, keep: spec_fn(Row<T>) -> bool)
    requires
        ascending(rows),
    ensures
        ascending(rows.filter(keep)),
        rows.filter(keep).len() <= rows.len(),
        forall|i: int|
            0 <= i < rows.filter(keep).len() ==> {
                &&& keep(#[trigger] rows.filter(keep)[i])
                &&& exists|j: int| 0 <= j < rows.len() && #[trigger] rows[j] == rows.filter(keep)[i]
            },
        forall|j: int|
            0 <= j < rows.len() && keep(#[trigger] rows[j]) ==> exists|i: int|
                0 <= i < rows.filter(keep).len() && #[trigger] rows.filter(keep)[i] == rows[j],
    decreases rows.len(),
{
    reveal(Seq::filter);
    let out = rows.filter(keep);
    if rows.len() > 0 {
        let front = rows.drop_last();
        let last = rows.last();
        let sub = front.filter(keep);
        lemma_filter_rows(front, keep);
        assert forall|i: int| 0 <= i < out.len() implies {
            &&& keep(#[trigger] out[i])
            &&& exists|j: int| 0 <= j < rows.len() && #[trigger] rows[j] == out[i]
        } by {
            if i < sub.len() {
                assert(out[i] == sub[i]);
                let j = choose|j: int| 0 <= j < front.len() && #[trigger] front[j] == sub[i];
                assert(rows[j] == out[i]);
            } else {
                assert(out[i] == last);
                assert(rows[rows.len() - 1] == out[i]);
            }
        }
        assert forall|j: int| 0 <= j < rows.len() && keep(#[trigger] rows[j]) implies exists|
            i: int,
        | 0 <= i < out.len() && #[trigger] out[i] == rows[j] by {
            if j < front.len() {
                assert(front[j] == rows[j]);
                let i = choose|i: int| 0 <= i < sub.len() && #[trigger] sub[i] == front[j];
                assert(out[i] == rows[j]);
            } else {
                assert(out[out.len() - 1] == rows[j]);
            }
        }
        assert forall|a: int, b: int| 0 <= a < b < out.len() implies (#[trigger] out[a]).id < (
        #[trigger] out[b]).id by {
            if b < sub.len() {
                assert(out[a] == sub[a] && out[b] == sub[b]);
            } else {
                assert(out[b] == last);
                assert(out[a] == sub[a]);
                let j = choose|j: int| 0 <= j < front.len() && #[trigger] front[j] == sub[a];
                assert(rows[j].id < rows[rows.len() - 1].id);
            }
        }
    }
}

/// Filtering keeps what holds of a table by itself.
pub proof fn lemma_filter_rows_ok<T>(
    rows: Seq<Row<T>>,
    keep: spec_fn(Row<T>) -> bool,
    next_id: u64,
    clock: u64,
)
    requires
        rows_ok(rows, next_id, clock),
    ensures
        rows_ok(rows.filter(keep), next_id, clock),
{
    lemma_filter_rows(rows, keep);
    let out = rows.filter(keep);
    assert forall|i: int| 0 <= i < out.len() implies {
        &&& 1 <= (#[trigger] out[i]).id < next_id
        &&& out[i].created_at <= clock
        &&& out[i].updated_at <= clock
    } by {
        let j = choose|j: int| 0 <= j < rows.len() && #[trigger] rows[j] == out[i];
        assert(rows[j] == out[i]);
    }
}

/// After filtering, the table holds an identifier exactly if it held it
/// before in a row that passes.
pub proof fn lemma_filter_has_id<T>(rows: Seq<Row<T>>, keep: spec_fn(Row<T>) -> bool, id: u64)
    requires
        ascending(rows),
    ensures
        has_id(rows.filter(keep), id) <==> has_id(rows, id) && keep(rows[index_of(rows, id)]),
{
    lemma_filter_rows(rows, keep);
    let out = rows.filter(keep);
    if has_id(out, id) {
        let i = index_of(out, id);
        let j = choose|j: int| 0 <= j < rows.len() && #[trigger] rows[j] == out[i];
        lemma_index_of(rows, j);
    }
    if has_id(rows, id) && keep(rows[index_of(rows, id)]) {
        let j = index_of(rows, id);
        let i = choose|i: int| 0 <= i < out.len() && #[trigger] out[i] == rows[j];
        assert(out[i].id == id);
    }
}

/// Two filters that agree on every row of a table keep the same rows.
pub proof fn lemma_filter_agree<T>(
    rows: Seq<Row<T>>,
    first: spec_fn(Row<T>) -> bool,
    second: spec_fn(Row<T>) -> bool,
)
    requires
        forall|i: int| 0 <= i < rows.len() ==> first(#[trigger] rows[i]) == second(rows[i]),
    ensures
        rows.filter(first) == rows.filter(second),
    decreases rows.len(),
{
    reveal(Seq::filter);
    if rows.len() > 0 {
        let front = rows.drop_last();
        assert forall|i: int| 0 <= i < front.len() implies first(#[trigger] front[i]) == second(
            front[i],
        ) by {
            assert(front[i] == rows[i]);
        }
        lemma_filter_agree(front, first, second);
        assert(first(rows[rows.len() - 1]) == second(rows[rows.len() - 1]));
    }
}

/// A filter that every row passes keeps the table as it is.
pub proof fn lemma_filter_keeps_all<T>(rows: Seq<Row<T>>, keep: spec_fn(Row<T>) -> bool)
    requires
        forall|i: int| 0 <= i < rows.len() ==> keep(#[trigger] rows[i]),
    ensures
        rows.filter(keep) == rows,
    decreases rows.len(),
{
    reveal(Seq::filter);
    if rows.len() > 0 {
        let front = rows.drop_last();
        assert forall|i: int| 0 <= i < front.len() implies keep(#[trigger] front[i]) by {
            assert(front[i] == rows[i]);
        }
        lemma_filter_keeps_all(front, keep);
        assert(keep(rows[rows.len() - 1]));
        assert(front.push(rows.last()) =~= rows);
    } else {
        assert(rows.filter(keep) =~= rows);
    }
}

/// The place of the row with this identifier, if the table holds it.
pub fn position<T>(rows: &Vec<Row<T>>, id: u64) -> (r: Option<usize>)
    ensures
        match r {
            Some(i) => i < rows@.len() && rows@[i as int].id == id && has_id(rows@, id),
            None => !has_id(rows@, id),
        },
{
    let mut i: usize = 0;
    while i < rows.len()
        invariant
            i <= rows.len(),
            forall|j: int| 0 <= j < i ==> (#[trigger] rows@[j]).id != id,
        decreases rows.len() - i,
    {
        if rows[i].id == id {
            return Some(i);
        }
        i += 1;
    }
    None
}

/// Whether the table holds a row with this identifier.
pub fn contains_id<T>(rows: &Vec<Row<T>>, id: u64) -> (b: bool)
    ensures
        b == has_id(rows@, id),
{
    position(rows, id).is_some()
}

/// Keeps the rows that pass `keep`, in order, and drops the rest.
pub(crate) fn retain<T, F: Fn(&Row<T>) -> bool>(
    rows: Vec<Row<T>>,
    keep: F,
    Ghost(passes): Ghost<spec_fn(Row<T>) -> bool>,
) -> (out: Vec<Row<T>>)
    requires
        forall|row: &Row<T>| call_requires(keep, (row,)),
        forall|row: &Row<T>, b: bool| call_ensures(keep, (row,), b) ==> b == passes(*row),
    ensures
        out@ == rows@.filter(passes),
{
    let mut out: Vec<Row<T>> = Vec::new();
    let ghost all = rows@;
    for row in it: rows
        invariant
            it.seq() == all,
            forall|row: &Row<T>| call_requires(keep, (row,)),
            forall|row: &Row<T>, b: bool| call_ensures(keep, (row,), b) ==> b == passes(*row),
            out@ == all.take(it.index() as int).filter(passes),
    {
        proof {
            let k = it.index() as int;
            assert(all.take(k + 1) == all.take(k).push(all[k]));
            all.take(k).lemma_filter_push(all[k], passes);
        }
        if keep(&row) {
            out.push(row);
        }
    }
    proof {
        assert(all.take(all.len() as int) == all);
    }
    out
}

/// The identifiers of the rows a query sees, in order.
pub fn visible_ids<T>(rows: &Vec<Row<T>>, include_deleted: bool) -> (ids: Vec<u64>)
    ensures
        ids@ == ids_of(rows@.filter(seen(include_deleted))),
{
    let mut ids: Vec<u64> = Vec::new();
    let ghost pass = seen::<T>(include_deleted);
    let mut i: usize = 0;
    while i < rows.len()
        invariant
            i <= rows.len(),
            pass == seen::<T>(include_deleted),
            ids@ == ids_of(rows@.take(i as int).filter(pass)),
        decreases rows.len() - i,
    {
        proof {
            assert(rows@.take(i + 1) == rows@.take(i as int).push(rows@[i as int]));
            rows@.take(i as int).lemma_filter_push(rows@[i as int], pass);
        }
        if include_deleted || !rows[i].deleted {
            ids.push(rows[i].id);
        }
        i += 1;
        assert(ids@ =~= ids_of(rows@.take(i as int).filter(pass)));
    }
    assert(rows@.take(rows@.len() as int) == rows@);
    ids
}

} // verus!
