use remate_agricola::row::{
    AuctionDraft, Bundle, Client, SaleDetail, SaleDraft, SaleTerms, TransactionDraft,
};
use remate_agricola::schema::{CheckRule, Reference, StoreError, Table, UniqueKey};
use remate_agricola::store::Store;
use remate_agricola::vocabulary::{AuctionStatus, TransactionKind};

fn client(company: &str) -> Client {
    Client {
        company: company.to_string(),
        first_name: None,
        last_name: None,
        email: None,
        phone: None,
        province: "Buenos Aires".to_string(),
        city: "Tandil".to_string(),
    }
}

fn auction(name: &str) -> AuctionDraft {
    AuctionDraft {
        name: name.to_string(),
        province: "Buenos Aires".to_string(),
        city: "Tandil".to_string(),
        date: "2025-03-01".to_string(),
        status: None,
    }
}

fn bundle(number: i64, seller: u64, auction: u64) -> Bundle {
    Bundle { number, name: "Tractor".to_string(), observations: None, seller, auction }
}

fn sale(auction: u64, buyer: u64, total_price: i64) -> SaleDraft {
    SaleDraft { auction, buyer, total_price, deadline: "2025-04-01".to_string() }
}

fn transaction(auction: u64, client: u64, amount: i64, kind: &str) -> TransactionDraft {
    TransactionDraft { auction, client, amount, kind: kind.to_string() }
}

#[test]
fn auction_with_bundle_and_sale_then_destroyed() {
    let mut store = Store::new();
    let a = store.insert_auction(auction("Otoño"), 100).unwrap();
    assert_eq!(store.auction(a).unwrap().data.status, AuctionStatus::Pending);
    let s = store.insert_client(client("Vendedor SA"), 101).unwrap();
    let b = store.insert_bundle(bundle(201, s, a), 102).unwrap();
    let c = store.insert_client(client("Comprador SRL"), 103).unwrap();
    let v = store.insert_sale(sale(a, c, 100_000), 104).unwrap();
    let d = store.insert_sale_detail(SaleDetail { sale: v, bundle: b }, 105).unwrap();

    let row = store.auction(a).unwrap();
    assert_eq!((row.created_at, row.updated_at, row.deleted), (100, 100, false));
    let row = store.client(s).unwrap();
    assert_eq!((row.created_at, row.updated_at), (101, 101));
    let row = store.bundle(b).unwrap();
    assert_eq!((row.created_at, row.updated_at), (102, 102));
    assert_eq!(row.data.number, 201);
    let row = store.sale(v).unwrap();
    assert_eq!((row.created_at, row.updated_at), (104, 104));
    assert_eq!(row.data.buyer, Some(c));
    assert_eq!(row.data.total_price, 100_000);
    assert_eq!(store.sale_detail(d).unwrap().created_at, 105);

    assert_eq!(store.destroy_auction(a, 106), Ok(()));
    assert!(store.auction_any(a).is_none());
    assert!(store.bundle_any(b).is_none());
    assert!(store.sale_any(v).is_none());
    assert!(store.sale_detail_any(d).is_none());
    assert!(store.all_ids(Table::Bundle).is_empty());
    assert!(store.all_ids(Table::Sale).is_empty());
    assert!(store.all_ids(Table::SaleDetail).is_empty());
    assert_eq!(store.all_ids(Table::Client), vec![s, c]);
    assert_eq!(store.clock(), 106);
}

#[test]
fn transaction_of_unknown_kind_is_refused() {
    let mut store = Store::new();
    let a = store.insert_auction(auction("Otoño"), 1).unwrap();
    let c = store.insert_client(client("Campo SA"), 2).unwrap();
    assert_eq!(
        store.insert_transaction(transaction(a, c, 500, "REFUND"), 3),
        Err(StoreError::Check(CheckRule::TransactionKind))
    );
    assert!(store.all_ids(Table::Transaction).is_empty());
    assert_eq!(store.clock(), 2);
    let t = store.insert_transaction(transaction(a, c, 500, "PAYMENT"), 3).unwrap();
    assert_eq!(t, 1);
    assert_eq!(store.transaction(t).unwrap().data.kind, TransactionKind::Payment);
    let u = store.insert_transaction(transaction(a, c, 500, "COLLECTION"), 3).unwrap();
    assert_eq!(store.transaction(u).unwrap().data.kind, TransactionKind::Collection);
}

#[test]
fn negative_amount_is_refused_and_zero_is_not() {
    let mut store = Store::new();
    let a = store.insert_auction(auction("Otoño"), 1).unwrap();
    let c = store.insert_client(client("Campo SA"), 2).unwrap();
    assert_eq!(
        store.insert_transaction(transaction(a, c, -1, "PAYMENT"), 3),
        Err(StoreError::Check(CheckRule::TransactionAmount))
    );
    assert_eq!(
        store.insert_transaction(transaction(a, c, -1, "REFUND"), 3),
        Err(StoreError::Check(CheckRule::TransactionAmount))
    );
    assert!(store.all_ids(Table::Transaction).is_empty());
    let t = store.insert_transaction(transaction(a, c, 0, "PAYMENT"), 3).unwrap();
    assert_eq!(store.transaction(t).unwrap().data.amount, 0);
    assert_eq!(
        store.update_transaction(t, transaction(a, c, -5, "PAYMENT"), 4),
        Err(StoreError::Check(CheckRule::TransactionAmount))
    );
    assert_eq!(store.transaction(t).unwrap().data.amount, 0);
    assert_eq!(store.transaction(t).unwrap().updated_at, 3);
}

#[test]
fn duplicate_lot_in_one_auction_is_refused() {
    let mut store = Store::new();
    let a1 = store.insert_auction(auction("Otoño"), 1).unwrap();
    let a2 = store.insert_auction(auction("Primavera"), 1).unwrap();
    let s = store.insert_client(client("Campo SA"), 1).unwrap();
    let b1 = store.insert_bundle(bundle(7, s, a1), 2).unwrap();
    assert_eq!(
        store.insert_bundle(bundle(7, s, a1), 3),
        Err(StoreError::Unique(UniqueKey::BundleLot))
    );
    assert_eq!(store.all_ids(Table::Bundle), vec![b1]);
    let b2 = store.insert_bundle(bundle(7, s, a2), 3).unwrap();
    let b3 = store.insert_bundle(bundle(8, s, a1), 3).unwrap();
    assert_eq!(store.all_ids(Table::Bundle), vec![b1, b2, b3]);
    assert_eq!(
        store.update_bundle(b3, bundle(7, s, a1), 4),
        Err(StoreError::Unique(UniqueKey::BundleLot))
    );
    assert_eq!(store.update_bundle(b1, bundle(7, s, a1), 4), Ok(()));
    assert_eq!(store.bundle(b1).unwrap().updated_at, 4);
}

#[test]
fn duplicate_company_is_refused() {
    let mut store = Store::new();
    let c = store.insert_client(client("Campo SA"), 1).unwrap();
    assert_eq!(
        store.insert_client(client("Campo SA"), 2),
        Err(StoreError::Unique(UniqueKey::ClientCompany))
    );
    let d = store.insert_client(client("Otro SA"), 2).unwrap();
    assert_eq!(
        store.update_client(d, client("Campo SA"), 3),
        Err(StoreError::Unique(UniqueKey::ClientCompany))
    );
    assert_eq!(store.update_client(c, client("Campo SA"), 3), Ok(()));
    assert_eq!(store.update_client(99, client("Nadie"), 3), Err(StoreError::NotFound(Table::Client)));
}

#[test]
fn duplicate_bundle_within_a_sale_is_refused() {
    let mut store = Store::new();
    let a = store.insert_auction(auction("Otoño"), 1).unwrap();
    let c = store.insert_client(client("Campo SA"), 1).unwrap();
    let b = store.insert_bundle(bundle(1, c, a), 1).unwrap();
    let v = store.insert_sale(sale(a, c, 10), 1).unwrap();
    store.insert_sale_detail(SaleDetail { sale: v, bundle: b }, 1).unwrap();
    assert_eq!(
        store.insert_sale_detail(SaleDetail { sale: v, bundle: b }, 2),
        Err(StoreError::Unique(UniqueKey::DetailPair))
    );
}

#[test]
fn missing_parents_are_reported_by_reference() {
    let mut store = Store::new();
    let a = store.insert_auction(auction("Otoño"), 1).unwrap();
    let c = store.insert_client(client("Campo SA"), 1).unwrap();
    assert_eq!(
        store.insert_bundle(bundle(1, 50, a), 2),
        Err(StoreError::ForeignKey(Reference::BundleSeller))
    );
    assert_eq!(
        store.insert_bundle(bundle(1, c, 50), 2),
        Err(StoreError::ForeignKey(Reference::BundleAuction))
    );
    assert_eq!(
        store.insert_sale(sale(50, c, 1), 2),
        Err(StoreError::ForeignKey(Reference::SaleAuction))
    );
    assert_eq!(
        store.insert_sale(sale(a, 50, 1), 2),
        Err(StoreError::ForeignKey(Reference::SaleBuyer))
    );
    assert_eq!(
        store.insert_sale_detail(SaleDetail { sale: 1, bundle: 1 }, 2),
        Err(StoreError::ForeignKey(Reference::DetailSale))
    );
    let v = store.insert_sale(sale(a, c, 1), 2).unwrap();
    assert_eq!(
        store.insert_sale_detail(SaleDetail { sale: v, bundle: 1 }, 2),
        Err(StoreError::ForeignKey(Reference::DetailBundle))
    );
    assert_eq!(
        store.insert_transaction(transaction(50, c, 1, "PAYMENT"), 2),
        Err(StoreError::ForeignKey(Reference::TransactionAuction))
    );
    assert_eq!(
        store.insert_transaction(transaction(a, 50, 1, "PAYMENT"), 2),
        Err(StoreError::ForeignKey(Reference::TransactionClient))
    );
}

#[test]
fn destroying_a_buyer_clears_the_sale_and_keeps_it() {
    let mut store = Store::new();
    let a = store.insert_auction(auction("Otoño"), 1).unwrap();
    let seller = store.insert_client(client("Vendedor SA"), 1).unwrap();
    let buyer = store.insert_client(client("Comprador SRL"), 1).unwrap();
    let b = store.insert_bundle(bundle(1, seller, a), 1).unwrap();
    let v = store.insert_sale(sale(a, buyer, 10), 2).unwrap();
    let d = store.insert_sale_detail(SaleDetail { sale: v, bundle: b }, 2).unwrap();
    let t = store.insert_transaction(transaction(a, buyer, 10, "COLLECTION"), 2).unwrap();

    assert_eq!(store.destroy_client(buyer, 9), Ok(()));
    let row = store.sale(v).unwrap();
    assert_eq!(row.data.buyer, None);
    assert_eq!(row.data.auction, a);
    assert_eq!(row.data.total_price, 10);
    assert_eq!((row.created_at, row.updated_at), (2, 9));
    assert!(store.sale_detail(d).is_some());
    assert!(store.bundle(b).is_some());
    assert!(store.transaction_any(t).is_none());
    assert!(store.client_any(buyer).is_none());
    assert_eq!(store.destroy_client(buyer, 10), Err(StoreError::NotFound(Table::Client)));
}

#[test]
fn destroying_a_seller_removes_bundles_and_their_details() {
    let mut store = Store::new();
    let a = store.insert_auction(auction("Otoño"), 1).unwrap();
    let seller = store.insert_client(client("Vendedor SA"), 1).unwrap();
    let other = store.insert_client(client("Otro SA"), 1).unwrap();
    let buyer = store.insert_client(client("Comprador SRL"), 1).unwrap();
    let b1 = store.insert_bundle(bundle(1, seller, a), 1).unwrap();
    let b2 = store.insert_bundle(bundle(2, other, a), 1).unwrap();
    let v = store.insert_sale(sale(a, buyer, 10), 2).unwrap();
    let d1 = store.insert_sale_detail(SaleDetail { sale: v, bundle: b1 }, 2).unwrap();
    let d2 = store.insert_sale_detail(SaleDetail { sale: v, bundle: b2 }, 2).unwrap();

    assert_eq!(store.destroy_client(seller, 3), Ok(()));
    assert_eq!(store.all_ids(Table::Bundle), vec![b2]);
    assert_eq!(store.all_ids(Table::SaleDetail), vec![d2]);
    assert!(store.sale_detail_any(d1).is_none());
    let row = store.sale(v).unwrap();
    assert_eq!(row.data.buyer, Some(buyer));
    assert_eq!(row.updated_at, 2);
}

#[test]
fn destroying_a_bundle_or_a_sale_removes_its_details() {
    let mut store = Store::new();
    let a = store.insert_auction(auction("Otoño"), 1).unwrap();
    let c = store.insert_client(client("Campo SA"), 1).unwrap();
    let b1 = store.insert_bundle(bundle(1, c, a), 1).unwrap();
    let b2 = store.insert_bundle(bundle(2, c, a), 1).unwrap();
    let v1 = store.insert_sale(sale(a, c, 10), 2).unwrap();
    let v2 = store.insert_sale(sale(a, c, 20), 2).unwrap();
    let d11 = store.insert_sale_detail(SaleDetail { sale: v1, bundle: b1 }, 2).unwrap();
    let d12 = store.insert_sale_detail(SaleDetail { sale: v1, bundle: b2 }, 2).unwrap();
    let d22 = store.insert_sale_detail(SaleDetail { sale: v2, bundle: b2 }, 2).unwrap();

    assert_eq!(store.destroy_bundle(b1, 3), Ok(()));
    assert_eq!(store.all_ids(Table::SaleDetail), vec![d12, d22]);
    assert!(store.sale_detail_any(d11).is_none());
    assert_eq!(store.destroy_sale(v1, 3), Ok(()));
    assert_eq!(store.all_ids(Table::SaleDetail), vec![d22]);
    assert_eq!(store.all_ids(Table::Sale), vec![v2]);
    assert_eq!(store.all_ids(Table::Bundle), vec![b2]);
    assert_eq!(store.destroy_bundle(b1, 4), Err(StoreError::NotFound(Table::Bundle)));
    assert_eq!(store.destroy_sale(v1, 4), Err(StoreError::NotFound(Table::Sale)));
    assert_eq!(store.destroy_auction(77, 4), Err(StoreError::NotFound(Table::Auction)));
}

#[test]
fn identifiers_are_never_handed_out_twice() {
    let mut store = Store::new();
    let a = store.insert_auction(auction("Otoño"), 1).unwrap();
    assert_eq!(a, 1);
    assert_eq!(store.destroy_auction(a, 2), Ok(()));
    let b = store.insert_auction(auction("Primavera"), 3).unwrap();
    assert_eq!(b, 2);
}

#[test]
fn every_update_refreshes_the_timestamp() {
    let mut store = Store::new();
    let c = store.insert_client(client("Campo SA"), 10).unwrap();
    assert_eq!(store.update_client(c, client("Campo SA"), 11), Ok(()));
    let row = store.client(c).unwrap();
    assert_eq!((row.created_at, row.updated_at), (10, 11));
    assert_eq!(store.update_client(c, client("Campo SA"), 12), Ok(()));
    assert_eq!(store.client(c).unwrap().updated_at, 12);
    assert_eq!(store.update_client(c, client("Campo SA"), 12), Ok(()));
    assert_eq!(store.client(c).unwrap().updated_at, 12);
    assert_eq!(store.clock(), 12);
}

#[test]
fn a_change_is_stamped_with_the_time_handed_in_not_with_the_clock() {
    let mut store = Store::new();
    let c = store.insert_client(client("Campo SA"), 10).unwrap();
    let d = store.insert_client(client("Otro SA"), 30).unwrap();
    assert_eq!(store.clock(), 30);
    assert_eq!(store.update_client(c, client("Campo SA"), 20), Ok(()));
    let row = store.client(c).unwrap();
    assert_eq!((row.created_at, row.updated_at), (10, 20));
    let other = store.client(d).unwrap();
    assert_eq!((other.created_at, other.updated_at), (30, 30));
    assert_eq!(store.clock(), 30);
    assert_eq!(store.soft_delete(Table::Client, c, 25), Ok(()));
    assert_eq!(store.client_any(c).unwrap().updated_at, 25);
    assert_eq!(store.update_client(c, client("Campo SA"), 5), Ok(()));
    let row = store.client_any(c).unwrap();
    assert_eq!((row.created_at, row.updated_at), (10, 5));
    assert_eq!(store.clock(), 30);
}

#[test]
fn every_row_carries_its_own_insert_time() {
    let mut store = Store::new();
    let a = store.insert_auction(auction("Otoño"), 10).unwrap();
    let s = store.insert_client(client("Vendedor SA"), 7).unwrap();
    let b = store.insert_bundle(bundle(201, s, a), 9).unwrap();
    let v = store.insert_sale(sale(a, s, 100_000), 8).unwrap();
    let d = store.insert_sale_detail(SaleDetail { sale: v, bundle: b }, 3).unwrap();
    let t = store.insert_transaction(transaction(a, s, 1, "PAYMENT"), 11).unwrap();
    let row = store.auction(a).unwrap();
    assert_eq!((row.created_at, row.updated_at), (10, 10));
    let row = store.client(s).unwrap();
    assert_eq!((row.created_at, row.updated_at), (7, 7));
    let row = store.bundle(b).unwrap();
    assert_eq!((row.created_at, row.updated_at), (9, 9));
    let row = store.sale(v).unwrap();
    assert_eq!((row.created_at, row.updated_at), (8, 8));
    let row = store.sale_detail(d).unwrap();
    assert_eq!((row.created_at, row.updated_at), (3, 3));
    let row = store.transaction(t).unwrap();
    assert_eq!((row.created_at, row.updated_at), (11, 11));
    assert_eq!(store.clock(), 11);
}

#[test]
fn a_sale_without_buyer_can_still_change_its_terms() {
    let mut store = Store::new();
    let a1 = store.insert_auction(auction("Otoño"), 1).unwrap();
    let a2 = store.insert_auction(auction("Primavera"), 1).unwrap();
    let buyer = store.insert_client(client("Comprador SRL"), 1).unwrap();
    let v = store.insert_sale(sale(a1, buyer, 10), 2).unwrap();
    let terms = |auction: u64, total_price: i64| SaleTerms {
        auction,
        total_price,
        deadline: "2025-05-01".to_string(),
    };
    assert_eq!(store.update_sale_terms(v, terms(a2, 15), 3), Ok(()));
    let row = store.sale(v).unwrap();
    assert_eq!(row.data.buyer, Some(buyer));
    assert_eq!((row.data.auction, row.data.total_price), (a2, 15));
    assert_eq!(row.data.deadline, "2025-05-01");
    assert_eq!((row.created_at, row.updated_at), (2, 3));

    assert_eq!(store.destroy_client(buyer, 4), Ok(()));
    assert_eq!(store.sale(v).unwrap().data.buyer, None);
    assert_eq!(store.sale(v).unwrap().updated_at, 4);
    assert_eq!(store.update_sale_terms(v, terms(a1, 20), 5), Ok(()));
    let row = store.sale(v).unwrap();
    assert_eq!(row.data.buyer, None);
    assert_eq!((row.data.auction, row.data.total_price), (a1, 20));
    assert_eq!((row.created_at, row.updated_at), (2, 5));
    assert_eq!(
        store.update_sale_terms(v, terms(99, 20), 6),
        Err(StoreError::ForeignKey(Reference::SaleAuction))
    );
    assert_eq!(
        store.update_sale_terms(99, terms(a1, 20), 6),
        Err(StoreError::NotFound(Table::Sale))
    );
    assert_eq!(store.sale(v).unwrap().updated_at, 5);
}

#[test]
fn status_is_held_to_its_vocabulary_but_not_to_an_order() {
    let mut store = Store::new();
    let mut draft = auction("Otoño");
    draft.status = Some("OPEN".to_string());
    assert_eq!(
        store.insert_auction(draft, 1),
        Err(StoreError::Check(CheckRule::AuctionStatus))
    );
    assert!(store.all_ids(Table::Auction).is_empty());
    let mut draft = auction("Otoño");
    draft.status = Some("FINISHED".to_string());
    let a = store.insert_auction(draft, 1).unwrap();
    assert_eq!(store.auction(a).unwrap().data.status, AuctionStatus::Finished);
    let mut draft = auction("Otoño");
    draft.status = Some("PENDING".to_string());
    assert_eq!(store.update_auction(a, draft, 2), Ok(()));
    assert_eq!(store.auction(a).unwrap().data.status, AuctionStatus::Pending);
    let mut draft = auction("Otoño bis");
    draft.status = Some("pending".to_string());
    assert_eq!(
        store.update_auction(a, draft, 3),
        Err(StoreError::Check(CheckRule::AuctionStatus))
    );
    assert_eq!(store.auction(a).unwrap().data.name, "Otoño");
    let mut draft = auction("Otoño");
    draft.status = Some("IN_PROGRESS".to_string());
    assert_eq!(store.update_auction(a, draft, 3), Ok(()));
    assert_eq!(store.update_auction(a, auction("Otoño bis"), 4), Ok(()));
    let row = store.auction(a).unwrap();
    assert_eq!(row.data.status, AuctionStatus::InProgress);
    assert_eq!(row.data.name, "Otoño bis");
    let mut draft = auction("Otoño");
    draft.status = Some("CANCELLED".to_string());
    assert_eq!(store.update_auction(a, draft, 5), Ok(()));
    assert_eq!(store.auction(a).unwrap().data.status, AuctionStatus::Cancelled);
}

#[test]
fn retired_rows_are_hidden_unless_asked_for() {
    let mut store = Store::new();
    let a = store.insert_auction(auction("Otoño"), 1).unwrap();
    let c = store.insert_client(client("Campo SA"), 1).unwrap();
    let d = store.insert_client(client("Otro SA"), 1).unwrap();
    let b = store.insert_bundle(bundle(1, c, a), 1).unwrap();
    assert_eq!(store.soft_delete(Table::Client, c, 5), Ok(()));
    assert!(store.client(c).is_none());
    let row = store.client_any(c).unwrap();
    assert!(row.deleted);
    assert_eq!((row.created_at, row.updated_at), (1, 5));
    assert_eq!(store.live_ids(Table::Client), vec![d]);
    assert_eq!(store.all_ids(Table::Client), vec![c, d]);
    assert!(store.contains(Table::Client, c));
    assert!(store.bundle(b).is_some());
    assert_eq!(
        store.insert_client(client("Campo SA"), 6),
        Err(StoreError::Unique(UniqueKey::ClientCompany))
    );
    assert!(store.insert_bundle(bundle(2, c, a), 6).is_ok());
    assert_eq!(store.soft_delete(Table::Client, 99, 7), Err(StoreError::NotFound(Table::Client)));
    assert_eq!(store.soft_delete(Table::Bundle, b, 7), Ok(()));
    assert_eq!(store.soft_delete(Table::Auction, a, 7), Ok(()));
    assert!(store.bundle(b).is_none());
    assert!(store.auction(a).is_none());
    assert_eq!(store.all_ids(Table::Bundle).len(), 2);
}

#[test]
fn a_sale_can_be_changed_and_is_held_to_its_references() {
    let mut store = Store::new();
    let a = store.insert_auction(auction("Otoño"), 1).unwrap();
    let c = store.insert_client(client("Campo SA"), 1).unwrap();
    let d = store.insert_client(client("Otro SA"), 1).unwrap();
    let v = store.insert_sale(sale(a, c, 10), 2).unwrap();
    assert_eq!(store.update_sale(v, sale(a, d, 25), 3), Ok(()));
    let row = store.sale(v).unwrap();
    assert_eq!(row.data.buyer, Some(d));
    assert_eq!(row.data.total_price, 25);
    assert_eq!((row.created_at, row.updated_at), (2, 3));
    assert_eq!(
        store.update_sale(v, sale(a, 40, 25), 4),
        Err(StoreError::ForeignKey(Reference::SaleBuyer))
    );
    assert_eq!(
        store.update_sale(v, sale(40, d, 25), 4),
        Err(StoreError::ForeignKey(Reference::SaleAuction))
    );
    assert_eq!(store.update_sale(40, sale(a, d, 25), 4), Err(StoreError::NotFound(Table::Sale)));
    assert_eq!(store.sale(v).unwrap().updated_at, 3);
    assert_eq!(store.clock(), 3);

    assert_eq!(store.destroy_client(d, 5), Ok(()));
    assert_eq!(store.sale(v).unwrap().data.buyer, None);
    assert_eq!(store.update_sale(v, sale(a, c, 25), 6), Ok(()));
    assert_eq!(store.sale(v).unwrap().data.buyer, Some(c));
}

#[test]
fn a_sale_detail_can_be_changed_and_stays_unique() {
    let mut store = Store::new();
    let a = store.insert_auction(auction("Otoño"), 1).unwrap();
    let c = store.insert_client(client("Campo SA"), 1).unwrap();
    let b1 = store.insert_bundle(bundle(1, c, a), 1).unwrap();
    let b2 = store.insert_bundle(bundle(2, c, a), 1).unwrap();
    let v = store.insert_sale(sale(a, c, 10), 1).unwrap();
    let d1 = store.insert_sale_detail(SaleDetail { sale: v, bundle: b1 }, 2).unwrap();
    let d2 = store.insert_sale_detail(SaleDetail { sale: v, bundle: b2 }, 2).unwrap();
    assert_eq!(
        store.update_sale_detail(d2, SaleDetail { sale: v, bundle: b1 }, 3),
        Err(StoreError::Unique(UniqueKey::DetailPair))
    );
    assert_eq!(store.update_sale_detail(d2, SaleDetail { sale: v, bundle: b2 }, 3), Ok(()));
    assert_eq!(store.sale_detail(d2).unwrap().updated_at, 3);
    assert_eq!(
        store.update_sale_detail(d1, SaleDetail { sale: 9, bundle: b1 }, 4),
        Err(StoreError::ForeignKey(Reference::DetailSale))
    );
    assert_eq!(
        store.update_sale_detail(d1, SaleDetail { sale: v, bundle: 9 }, 4),
        Err(StoreError::ForeignKey(Reference::DetailBundle))
    );
    assert_eq!(
        store.update_sale_detail(9, SaleDetail { sale: v, bundle: b1 }, 4),
        Err(StoreError::NotFound(Table::SaleDetail))
    );
    assert_eq!(store.sale_detail(d1).unwrap().data, SaleDetail { sale: v, bundle: b1 });
}

#[test]
fn a_transaction_can_be_changed_and_is_checked_again() {
    let mut store = Store::new();
    let a = store.insert_auction(auction("Otoño"), 1).unwrap();
    let c = store.insert_client(client("Campo SA"), 1).unwrap();
    let t = store.insert_transaction(transaction(a, c, 100, "PAYMENT"), 2).unwrap();
    assert_eq!(store.update_transaction(t, transaction(a, c, 250, "COLLECTION"), 3), Ok(()));
    let row = store.transaction(t).unwrap();
    assert_eq!(row.data.amount, 250);
    assert_eq!(row.data.kind, TransactionKind::Collection);
    assert_eq!((row.created_at, row.updated_at), (2, 3));
    assert_eq!(
        store.update_transaction(t, transaction(a, c, 250, "REFUND"), 4),
        Err(StoreError::Check(CheckRule::TransactionKind))
    );
    assert_eq!(
        store.update_transaction(t, transaction(9, c, 250, "PAYMENT"), 4),
        Err(StoreError::ForeignKey(Reference::TransactionAuction))
    );
    assert_eq!(
        store.update_transaction(t, transaction(a, 9, 250, "PAYMENT"), 4),
        Err(StoreError::ForeignKey(Reference::TransactionClient))
    );
    assert_eq!(
        store.update_transaction(9, transaction(a, c, 250, "PAYMENT"), 4),
        Err(StoreError::NotFound(Table::Transaction))
    );
    assert_eq!(store.transaction(t).unwrap().data.kind, TransactionKind::Collection);
}

#[test]
fn a_bundle_can_move_and_is_held_to_its_references() {
    let mut store = Store::new();
    let a1 = store.insert_auction(auction("Otoño"), 1).unwrap();
    let a2 = store.insert_auction(auction("Primavera"), 1).unwrap();
    let c = store.insert_client(client("Campo SA"), 1).unwrap();
    let b = store.insert_bundle(bundle(1, c, a1), 2).unwrap();
    assert_eq!(store.update_bundle(b, bundle(4, c, a2), 3), Ok(()));
    let row = store.bundle(b).unwrap();
    assert_eq!((row.data.number, row.data.auction), (4, a2));
    assert_eq!(
        store.update_bundle(b, bundle(4, 9, a2), 4),
        Err(StoreError::ForeignKey(Reference::BundleSeller))
    );
    assert_eq!(
        store.update_bundle(b, bundle(4, c, 9), 4),
        Err(StoreError::ForeignKey(Reference::BundleAuction))
    );
    assert_eq!(store.update_bundle(9, bundle(4, c, a2), 4), Err(StoreError::NotFound(Table::Bundle)));
    assert_eq!(store.update_auction(9, auction("Nada"), 4), Err(StoreError::NotFound(Table::Auction)));
    assert_eq!(store.destroy_auction(a1, 5), Ok(()));
    assert!(store.bundle(b).is_some());
}

#[test]
fn every_table_can_retire_a_row() {
    let mut store = Store::new();
    let a = store.insert_auction(auction("Otoño"), 1).unwrap();
    let c = store.insert_client(client("Campo SA"), 1).unwrap();
    let b = store.insert_bundle(bundle(1, c, a), 1).unwrap();
    let v = store.insert_sale(sale(a, c, 10), 1).unwrap();
    let d = store.insert_sale_detail(SaleDetail { sale: v, bundle: b }, 1).unwrap();
    let t = store.insert_transaction(transaction(a, c, 1, "PAYMENT"), 1).unwrap();
    assert_eq!(store.soft_delete(Table::Sale, v, 2), Ok(()));
    assert_eq!(store.soft_delete(Table::SaleDetail, d, 3), Ok(()));
    assert_eq!(store.soft_delete(Table::Transaction, t, 4), Ok(()));
    assert!(store.sale(v).is_none());
    assert!(store.sale_detail(d).is_none());
    assert!(store.transaction(t).is_none());
    assert_eq!(store.sale_any(v).unwrap().updated_at, 2);
    assert_eq!(store.sale_detail_any(d).unwrap().updated_at, 3);
    assert_eq!(store.transaction_any(t).unwrap().updated_at, 4);
    assert!(store.live_ids(Table::Sale).is_empty());
    assert_eq!(store.all_ids(Table::Sale), vec![v]);
    assert_eq!(store.soft_delete(Table::Sale, v, 9), Ok(()));
    assert_eq!(store.sale_any(v).unwrap().updated_at, 9);
    for table in [Table::Auction, Table::Bundle, Table::Sale, Table::SaleDetail, Table::Transaction] {
        assert_eq!(store.soft_delete(table, 77, 10), Err(StoreError::NotFound(table)));
        assert!(!store.contains(table, 77));
        assert!(store.contains(table, 1));
    }
    assert_eq!(store.clock(), 9);
}
