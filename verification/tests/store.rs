use expense_tracker::date::Date;
use expense_tracker::expense::{Category, Expense};
use expense_tracker::store::ExpenseStore;

fn d(y: u16, m: u8, day: u8) -> Date {
    Date::new(y, m, day).unwrap()
}

fn exp(desc: &str, amount: i64, date: Date, cat: Category) -> Expense {
    Expense::new(desc.as_bytes().to_vec(), amount, date, cat)
}

#[test]
fn new_expense_carries_sentinel_id() {
    let e = exp("lunch", 10, d(2024, 1, 1), Category::Food);
    assert_eq!(e.id, -1);
    assert_eq!(e.description, b"lunch".to_vec());
    assert_eq!(e.amount, 10);
    assert_eq!(e.date, d(2024, 1, 1));
    assert_eq!(e.category, Category::Food);
}

#[test]
fn add_assigns_increasing_ids_from_zero() {
    let mut s = ExpenseStore::empty();
    s.add(exp("a", 1, d(2024, 1, 1), Category::Food));
    s.add(exp("b", 2, d(2024, 1, 2), Category::Other));
    s.add(exp("c", 3, d(2024, 1, 3), Category::Transport));
    let ids: Vec<i64> = s.list().iter().map(|e| e.id).collect();
    assert_eq!(ids, vec![0, 1, 2]);
}

#[test]
fn delete_removes_exactly_one_and_next_id_reads_current_last() {
    let mut s = ExpenseStore::empty();
    s.add(exp("a", 1, d(2024, 1, 1), Category::Food));
    s.add(exp("b", 2, d(2024, 1, 2), Category::Food));
    s.add(exp("c", 3, d(2024, 1, 3), Category::Food));
    let (found, _) = s.delete(1);
    assert!(found);
    let ids: Vec<i64> = s.list().iter().map(|e| e.id).collect();
    assert_eq!(ids, vec![0, 2]);
    // the rule reads the current last id, so the next id is 3, not 2
    s.add(exp("d", 4, d(2024, 1, 4), Category::Food));
    let ids: Vec<i64> = s.list().iter().map(|e| e.id).collect();
    assert_eq!(ids, vec![0, 2, 3]);
}

#[test]
fn deleting_the_last_record_reuses_its_id() {
    let mut s = ExpenseStore::empty();
    s.add(exp("a", 1, d(2024, 1, 1), Category::Food));
    s.add(exp("b", 2, d(2024, 1, 2), Category::Food));
    s.add(exp("c", 3, d(2024, 1, 3), Category::Food));
    let (found, _) = s.delete(2);
    assert!(found);
    s.add(exp("d", 4, d(2024, 1, 4), Category::Food));
    let ids: Vec<i64> = s.list().iter().map(|e| e.id).collect();
    assert_eq!(ids, vec![0, 1, 2]);
}

#[test]
fn delete_missing_id_changes_nothing_and_reports_miss() {
    let mut s = ExpenseStore::empty();
    s.add(exp("a", 1, d(2024, 1, 1), Category::Food));
    s.add(exp("b", 2, d(2024, 1, 2), Category::Other));
    let before = s.to_file_bytes();
    let (found, bytes) = s.delete(7);
    assert!(!found);
    assert_eq!(bytes, before);
    let ids: Vec<i64> = s.list().iter().map(|e| e.id).collect();
    assert_eq!(ids, vec![0, 1]);
}

#[test]
fn missing_file_yields_empty_store() {
    let s = ExpenseStore::from_file_contents(None);
    assert_eq!(s.list().len(), 0);
}

#[test]
fn undecodable_file_yields_empty_store() {
    let s = ExpenseStore::from_file_contents(Some(b"not json at all".to_vec()));
    assert_eq!(s.list().len(), 0);
    let s = ExpenseStore::from_file_contents(Some(b"[{\"id\":0}]".to_vec()));
    assert_eq!(s.list().len(), 0);
    let s = ExpenseStore::from_file_contents(Some(Vec::new()));
    assert_eq!(s.list().len(), 0);
}

#[test]
fn file_with_nonincreasing_ids_yields_empty_store() {
    let bytes = "[{\"id\":5,\"description\":\"a\",\"amount\":1,\"date\":\"2024-01-01\",\"category\":\"Food\"},{\"id\":2,\"description\":\"b\",\"amount\":2,\"date\":\"2024-01-02\",\"category\":\"Other\"}]";
    let s = ExpenseStore::from_file_contents(Some(bytes.as_bytes().to_vec()));
    assert_eq!(s.list().len(), 0);
}

#[test]
fn round_trip_preserves_ids_order_and_fields() {
    let mut s = ExpenseStore::empty();
    s.add(exp("coffee \"to go\"", -3, d(2024, 2, 29), Category::Food));
    s.add(exp("bus\\train", 250, d(2023, 12, 31), Category::Transport));
    s.add(exp("movie\nnight", 1200, d(2024, 2, 29), Category::Entertainment));
    let bytes = s.to_file_bytes();
    let t = ExpenseStore::from_file_contents(Some(bytes));
    let a = s.list();
    let b = t.list();
    assert_eq!(a.len(), b.len());
    for k in 0..a.len() {
        assert_eq!(a[k].id, b[k].id);
        assert_eq!(a[k].description, b[k].description);
        assert_eq!(a[k].amount, b[k].amount);
        assert_eq!(a[k].date, b[k].date);
        assert_eq!(a[k].category, b[k].category);
    }
}

#[test]
fn persisted_bytes_are_exact_json() {
    let mut s = ExpenseStore::empty();
    assert_eq!(s.to_file_bytes(), b"[]".to_vec());
    s.add(exp("lunch", 10, d(2024, 1, 1), Category::Food));
    assert_eq!(
        s.to_file_bytes(),
        b"[{\"id\":0,\"description\":\"lunch\",\"amount\":10,\"date\":\"2024-01-01\",\"category\":\"Food\"}]"
            .to_vec()
    );
    s.add(exp("taxi", -25, d(2024, 1, 2), Category::Transport));
    let expected = "[{\"id\":0,\"description\":\"lunch\",\"amount\":10,\"date\":\"2024-01-01\",\"category\":\"Food\"},{\"id\":1,\"description\":\"taxi\",\"amount\":-25,\"date\":\"2024-01-02\",\"category\":\"Transport\"}]";
    assert_eq!(s.to_file_bytes(), expected.as_bytes().to_vec());
}

#[test]
fn loading_a_handwritten_file_keeps_its_records() {
    let bytes = "[{\"id\":3,\"description\":\"tea\",\"amount\":2,\"date\":\"2022-06-01\",\"category\":\"Food\"},{\"id\":9,\"description\":\"zoo\",\"amount\":30,\"date\":\"2022-06-02\",\"category\":\"Entertainment\"}]";
    let s = ExpenseStore::from_file_contents(Some(bytes.as_bytes().to_vec()));
    let v = s.list();
    assert_eq!(v.len(), 2);
    assert_eq!(v[0].id, 3);
    assert_eq!(v[0].description, b"tea".to_vec());
    assert_eq!(v[1].id, 9);
    assert_eq!(v[1].category, Category::Entertainment);
}

#[test]
fn trailing_garbage_is_a_decode_failure() {
    let bytes =
        "[{\"id\":0,\"description\":\"a\",\"amount\":1,\"date\":\"2024-01-01\",\"category\":\"Food\"}] ";
    let s = ExpenseStore::from_file_contents(Some(bytes.as_bytes().to_vec()));
    assert_eq!(s.list().len(), 0);
}

#[test]
fn list_is_idempotent() {
    let mut s = ExpenseStore::empty();
    s.add(exp("a", 1, d(2024, 1, 1), Category::Food));
    s.add(exp("b", 2, d(2024, 1, 2), Category::Other));
    let first: Vec<i64> = s.list().iter().map(|e| e.id).collect();
    let second: Vec<i64> = s.list().iter().map(|e| e.id).collect();
    assert_eq!(first, second);
    let b1 = s.to_file_bytes();
    let b2 = s.to_file_bytes();
    assert_eq!(b1, b2);
}

#[test]
fn add_to_a_loaded_store_continues_from_its_last_id() {
    let bytes = "[{\"id\":7,\"description\":\"tea\",\"amount\":2,\"date\":\"2022-06-01\",\"category\":\"Food\"}]";
    let mut s = ExpenseStore::from_file_contents(Some(bytes.as_bytes().to_vec()));
    s.add(exp("cake", 4, d(2022, 6, 2), Category::Food));
    let ids: Vec<i64> = s.list().iter().map(|e| e.id).collect();
    assert_eq!(ids, vec![7, 8]);
}
