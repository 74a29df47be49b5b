use expense_tracker::date::Date;
use expense_tracker::expense::{Category, Expense, SummaryType};
use expense_tracker::store::{ExpenseStore, Summary};

fn d(y: u16, m: u8, day: u8) -> Date {
    Date::new(y, m, day).unwrap()
}

fn exp(desc: &str, amount: i64, date: Date, cat: Category) -> Expense {
    Expense::new(desc.as_bytes().to_vec(), amount, date, cat)
}

#[test]
fn summary_by_category_totals_each_present_category() {
    let mut s = ExpenseStore::empty();
    s.add(exp("a", 10, d(2024, 1, 1), Category::Food));
    s.add(exp("b", 5, d(2024, 1, 2), Category::Food));
    s.add(exp("c", 3, d(2024, 1, 3), Category::Transport));
    match s.summarize(SummaryType::ByCategory) {
        Summary::ByCategory(v) => {
            assert_eq!(v, vec![(Category::Food, 15i128), (Category::Transport, 3i128)]);
        }
        Summary::ByDate(_) => panic!("wrong grouping"),
    }
}

#[test]
fn summary_by_date_totals_each_present_day() {
    let mut s = ExpenseStore::empty();
    s.add(exp("a", 10, d(2024, 1, 1), Category::Food));
    s.add(exp("b", 20, d(2024, 1, 1), Category::Other));
    s.add(exp("c", 5, d(2024, 1, 2), Category::Food));
    match s.summarize(SummaryType::ByDate) {
        Summary::ByDate(v) => {
            assert_eq!(v, vec![(d(2024, 1, 1), 30i128), (d(2024, 1, 2), 5i128)]);
        }
        Summary::ByCategory(_) => panic!("wrong grouping"),
    }
}

#[test]
fn summary_of_empty_store_is_empty() {
    let s = ExpenseStore::empty();
    match s.summarize(SummaryType::ByCategory) {
        Summary::ByCategory(v) => assert!(v.is_empty()),
        Summary::ByDate(_) => panic!("wrong grouping"),
    }
}

#[test]
fn summary_handles_negative_amounts() {
    let mut s = ExpenseStore::empty();
    s.add(exp("refund", -10, d(2024, 1, 1), Category::Food));
    s.add(exp("meal", 4, d(2024, 1, 1), Category::Food));
    match s.summarize(SummaryType::ByCategory) {
        Summary::ByCategory(v) => assert_eq!(v, vec![(Category::Food, -6i128)]),
        Summary::ByDate(_) => panic!("wrong grouping"),
    }
}

#[test]
fn summarize_is_idempotent() {
    let mut s = ExpenseStore::empty();
    s.add(exp("a", 10, d(2024, 1, 1), Category::Food));
    s.add(exp("b", 3, d(2024, 1, 2), Category::Transport));
    let first = match s.summarize(SummaryType::ByCategory) {
        Summary::ByCategory(v) => v,
        Summary::ByDate(_) => panic!("wrong grouping"),
    };
    let second = match s.summarize(SummaryType::ByCategory) {
        Summary::ByCategory(v) => v,
        Summary::ByDate(_) => panic!("wrong grouping"),
    };
    assert_eq!(first, second);
}
