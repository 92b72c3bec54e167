use remate_agricola::row::{contains_id, position, visible_ids, Row, SaleDetail};

fn rows() -> Vec<Row<SaleDetail>> {
    let row = |id: u64, deleted: bool| Row {
        id,
        deleted,
        created_at: 1,
        updated_at: 1,
        data: SaleDetail { sale: 1, bundle: id },
    };
    vec![row(2, false), row(5, true), row(9, false)]
}

#[test]
fn rows_are_found_by_identifier() {
    let rows = rows();
    assert_eq!(position(&rows, 2), Some(0));
    assert_eq!(position(&rows, 5), Some(1));
    assert_eq!(position(&rows, 9), Some(2));
    assert_eq!(position(&rows, 3), None);
    assert!(contains_id(&rows, 5));
    assert!(!contains_id(&rows, 1));
    assert_eq!(position::<SaleDetail>(&Vec::new(), 1), None);
}

#[test]
fn listing_leaves_retired_rows_out_unless_asked() {
    let rows = rows();
    assert_eq!(visible_ids(&rows, false), vec![2, 9]);
    assert_eq!(visible_ids(&rows, true), vec![2, 5, 9]);
}
