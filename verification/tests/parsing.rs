use expense_tracker::date::Date;
use expense_tracker::expense::{
    category_from_text, summary_type_from_text, Category, Expense, ExpenseError, SummaryType,
};
use expense_tracker::store::ExpenseStore;

fn d(y: u16, m: u8, day: u8) -> Date {
    Date::new(y, m, day).unwrap()
}

#[test]
fn category_parses_case_insensitively() {
    assert_eq!(category_from_text(&b"Food".to_vec()), Ok(Category::Food));
    assert_eq!(category_from_text(&b"food".to_vec()), Ok(Category::Food));
    assert_eq!(category_from_text(&b"TRANSPORT".to_vec()), Ok(Category::Transport));
    assert_eq!(category_from_text(&b"enterTAINment".to_vec()), Ok(Category::Entertainment));
    assert_eq!(category_from_text(&b"other".to_vec()), Ok(Category::Other));
}

#[test]
fn unknown_category_is_invalid() {
    assert_eq!(
        category_from_text(&b"groceries".to_vec()),
        Err(ExpenseError::InvalidEnumValue)
    );
    assert_eq!(category_from_text(&b"".to_vec()), Err(ExpenseError::InvalidEnumValue));
    assert_eq!(category_from_text(&b"foods".to_vec()), Err(ExpenseError::InvalidEnumValue));
}

#[test]
fn summary_type_parses_case_insensitively() {
    assert_eq!(summary_type_from_text(&b"Category".to_vec()), Ok(SummaryType::ByCategory));
    assert_eq!(summary_type_from_text(&b"DATE".to_vec()), Ok(SummaryType::ByDate));
    assert_eq!(
        summary_type_from_text(&b"week".to_vec()),
        Err(ExpenseError::InvalidEnumValue)
    );
}

#[test]
fn date_rejects_impossible_days() {
    assert!(Date::new(2024, 2, 29).is_some());
    assert!(Date::new(2023, 2, 29).is_none());
    assert!(Date::new(1900, 2, 29).is_none());
    assert!(Date::new(2000, 2, 29).is_some());
    assert!(Date::new(2024, 4, 31).is_none());
    assert!(Date::new(2024, 13, 1).is_none());
    assert!(Date::new(2024, 0, 1).is_none());
    assert!(Date::new(2024, 1, 0).is_none());
}

#[test]
fn file_with_impossible_date_is_a_decode_failure() {
    let bytes =
        "[{\"id\":0,\"description\":\"a\",\"amount\":1,\"date\":\"2023-02-29\",\"category\":\"Food\"}]";
    let s = ExpenseStore::from_file_contents(Some(bytes.as_bytes().to_vec()));
    assert_eq!(s.list().len(), 0);
}

#[test]
fn file_with_unknown_category_is_a_decode_failure() {
    let bytes =
        "[{\"id\":0,\"description\":\"a\",\"amount\":1,\"date\":\"2024-01-01\",\"category\":\"Bills\"}]";
    let s = ExpenseStore::from_file_contents(Some(bytes.as_bytes().to_vec()));
    assert_eq!(s.list().len(), 0);
}

#[test]
fn file_with_negative_id_is_a_decode_failure() {
    let bytes =
        "[{\"id\":-1,\"description\":\"a\",\"amount\":1,\"date\":\"2024-01-01\",\"category\":\"Food\"}]";
    let s = ExpenseStore::from_file_contents(Some(bytes.as_bytes().to_vec()));
    assert_eq!(s.list().len(), 0);
}

#[test]
fn file_with_oversized_number_is_a_decode_failure() {
    let bytes = "[{\"id\":99999999999999999999,\"description\":\"a\",\"amount\":1,\"date\":\"2024-01-01\",\"category\":\"Food\"}]";
    let s = ExpenseStore::from_file_contents(Some(bytes.as_bytes().to_vec()));
    assert_eq!(s.list().len(), 0);
}

#[test]
fn escaped_descriptions_survive_the_file() {
    let mut s = ExpenseStore::empty();
    let desc: Vec<u8> = b"say \"hi\" \\ bye\t\n".to_vec();
    s.add(Expense::new(desc.clone(), 1, d(2024, 1, 1), Category::Other));
    let bytes = s.to_file_bytes();
    let expected = "[{\"id\":0,\"description\":\"say \\\"hi\\\" \\\\ bye\\u0009\\u000a\",\"amount\":1,\"date\":\"2024-01-01\",\"category\":\"Other\"}]";
    assert_eq!(bytes, expected.as_bytes().to_vec());
    let t = ExpenseStore::from_file_contents(Some(bytes));
    assert_eq!(t.list().len(), 1);
    assert_eq!(t.list()[0].description, desc);
}

#[test]
fn render_line_shows_every_field() {
    let mut s = ExpenseStore::empty();
    s.add(Expense::new(b"lunch".to_vec(), 10, d(2024, 1, 1), Category::Food));
    let line = s.list()[0].render_line();
    assert_eq!(
        line,
        b"Expense, id: 0, description: lunch, amount: 10, date: 2024-01-01, category: Food"
            .to_vec()
    );
}

#[test]
fn render_line_keeps_the_sentinel_id_and_negative_amounts() {
    let e = Expense::new(b"refund".to_vec(), -5, d(2024, 12, 31), Category::Other);
    let line = e.render_line();
    assert_eq!(
        line,
        b"Expense, id: -1, description: refund, amount: -5, date: 2024-12-31, category: Other"
            .to_vec()
    );
}
