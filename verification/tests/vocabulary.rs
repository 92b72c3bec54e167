use remate_agricola::schema::{OnDelete, Reference, Table};
use remate_agricola::vocabulary::{same_text, AuctionStatus, TransactionKind};

#[test]
fn status_words_read_back() {
    let all = [
        (AuctionStatus::Pending, "PENDING"),
        (AuctionStatus::InProgress, "IN_PROGRESS"),
        (AuctionStatus::Cancelled, "CANCELLED"),
        (AuctionStatus::Finished, "FINISHED"),
    ];
    for (status, word) in all {
        assert_eq!(status.as_text(), word);
        assert_eq!(AuctionStatus::from_text(word), Some(status));
    }
    assert_eq!(AuctionStatus::from_text("PENDIENTE"), None);
    assert_eq!(AuctionStatus::from_text("pending"), None);
    assert_eq!(AuctionStatus::from_text(""), None);
    assert_eq!(AuctionStatus::from_text("PENDING "), None);
}

#[test]
fn kind_words_read_back() {
    assert_eq!(TransactionKind::Payment.as_text(), "PAYMENT");
    assert_eq!(TransactionKind::Collection.as_text(), "COLLECTION");
    assert_eq!(TransactionKind::from_text("PAYMENT"), Some(TransactionKind::Payment));
    assert_eq!(TransactionKind::from_text("COLLECTION"), Some(TransactionKind::Collection));
    assert_eq!(TransactionKind::from_text("REFUND"), None);
    assert_eq!(TransactionKind::from_text("PAGO"), None);
}

#[test]
fn texts_compare_by_their_characters() {
    assert!(same_text("", ""));
    assert!(same_text("año", "año"));
    assert!(!same_text("a", "A"));
    assert!(!same_text("a", "ab"));
}

#[test]
fn only_the_buyer_reference_clears() {
    let all = [
        (Reference::BundleSeller, Table::Bundle, Table::Client, OnDelete::Cascade),
        (Reference::BundleAuction, Table::Bundle, Table::Auction, OnDelete::Cascade),
        (Reference::SaleAuction, Table::Sale, Table::Auction, OnDelete::Cascade),
        (Reference::SaleBuyer, Table::Sale, Table::Client, OnDelete::SetNull),
        (Reference::DetailSale, Table::SaleDetail, Table::Sale, OnDelete::Cascade),
        (Reference::DetailBundle, Table::SaleDetail, Table::Bundle, OnDelete::Cascade),
        (Reference::TransactionAuction, Table::Transaction, Table::Auction, OnDelete::Cascade),
        (Reference::TransactionClient, Table::Transaction, Table::Client, OnDelete::Cascade),
    ];
    for (reference, child, parent, action) in all {
        assert_eq!(reference.child(), child);
        assert_eq!(reference.parent(), parent);
        assert_eq!(reference.on_delete(), action);
    }
}
