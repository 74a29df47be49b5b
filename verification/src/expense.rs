use crate::bytes::{
    lit_entertainment, lit_entertainment_vec, lit_food, lit_food_vec, lit_line_amount,
    lit_line_amount_vec, lit_line_cat, lit_line_cat_vec, lit_line_date, lit_line_date_vec,
    lit_line_desc, lit_line_desc_vec, lit_line_id, lit_line_id_vec, lit_other, lit_other_vec,
    lit_transport, lit_transport_vec, push_all,
};
use crate::date::{date_bytes, push_date, Date};
use crate::num::{i64_digits, push_i64};
use vstd::prelude::*;

verus! {

/// The closed set of spending categories.
#[derive(Clone, Copy, Debug, PartialEq, Eq, Structural)]
pub enum Category {
    Food,
    Transport,
    Entertainment,
    Other,
}

/// The grouping dimension of a summary.
#[derive(Clone, Copy, Debug, PartialEq, Eq, Structural)]
pub enum SummaryType {
    ByCategory,
    ByDate,
}

/// Text that names no member of a closed enumeration.
#[derive(Clone, Copy, Debug, PartialEq, Eq, Structural)]
pub enum ExpenseError {
    InvalidEnumValue,
}

/// One spending event. The store assigns `id`; a freshly constructed record
/// carries the sentinel `-1` until the store accepts it.
#[derive(Debug)]
pub struct Expense {
    pub id: i64,
    pub description: Vec<u8>,
    pub amount: i64,
    pub date: Date,
    pub category: Category,
}

/// The mathematical value of an `Expense`.
pub ghost struct ExpenseV {
    pub id: int,
    pub description: Seq<u8>,
    pub amount: int,
    pub date: Date,
    pub category: Category,
}

impl View for Expense {
    type V = ExpenseV;

    open spec fn view(&self) -> ExpenseV {
        ExpenseV {
            id: self.id as int,
            description: self.description@,
            amount: self.amount as int,
            date: self.date,
            category: self.category,
        }
    }
}

impl ExpenseV {
    /// A record as the store keeps it: a nonnegative assigned identifier that
    /// fits the identifier type, an amount that fits the amount type, and a
    /// valid date.
    pub open spec fn wf(self) -> bool {
        0 <= self.id <= i64::MAX && i64::MIN <= self.amount <= i64::MAX && self.date.wf()
    }
}

/// The mathematical values of a sequence of records.
pub open spec fn seq_view(s: Seq<Expense>) -> Seq<ExpenseV> {
    s.map_values(|e: Expense| e@)
}

impl Expense {
    /// Builds a record that no store has accepted yet: its `id` is the
    /// sentinel `-1`, every other field is kept as given.
    pub fn new(description: Vec<u8>, amount: i64, date: Date, category: Category) -> (r: Expense)
        requires
            date.wf(),
        ensures
            r@ == (ExpenseV { id: -1, description: description@, amount: amount as int, date, category }),
    {
        Expense { id: -1, description, amount, date, category }
    }

    /// The human-readable listing line of a record, with every field in the
    /// order id, description, amount, date, category.
    pub fn render_line(&self) -> (r: Vec<u8>)
        requires
            self@.date.wf(),
        ensures
            r@ == line_bytes(self@),
    {
        let mut out: Vec<u8> = Vec::new();
        push_all(&mut out, &lit_line_id_vec());
        push_i64(&mut out, self.id);
        push_all(&mut out, &lit_line_desc_vec());
        push_all(&mut out, &self.description);
        push_all(&mut out, &lit_line_amount_vec());
        push_i64(&mut out, self.amount);
        push_all(&mut out, &lit_line_date_vec());
        push_date(&mut out, self.date);
        push_all(&mut out, &lit_line_cat_vec());
        push_category(&mut out, self.category);
        proof {
            assert(out@ =~= line_bytes(self@));
        }
        out
    }
}

/// The listing line of a record.
pub open spec fn line_bytes(e: ExpenseV) -> Seq<u8> {
    lit_line_id() + i64_digits(e.id) + lit_line_desc() + e.description + lit_line_amount()
        + i64_digits(e.amount) + lit_line_date() + date_bytes(e.date) + lit_line_cat() + cat_name(
        e.category,
    )
}

/// The name of a category, as the file format and the listing write it.
pub open spec fn cat_name(c: Category) -> Seq<u8> {
    match c {
        Category::Food => lit_food(),
        Category::Transport => lit_transport(),
        Category::Entertainment => lit_entertainment(),
        Category::Other => lit_other(),
    }
}

/// Appends the name of `c`.
pub fn push_category(out: &mut Vec<u8>, c: Category)
    ensures
        final(out)@ == old(out)@ + cat_name(c),
{
    match c {
        Category::Food => push_all(out, &lit_food_vec()),
        Category::Transport => push_all(out, &lit_transport_vec()),
        Category::Entertainment => push_all(out, &lit_entertainment_vec()),
        Category::Other => push_all(out, &lit_other_vec()),
    }
}

pub open spec fn lower_ascii(b: u8) -> u8 {
    if ('A' as u8) <= b <= ('Z' as u8) {
        (b + 32) as u8
    } else {
        b
    }
}

pub open spec fn lower_seq(s: Seq<u8>) -> Seq<u8> {
    s.map_values(|b: u8| lower_ascii(b))
}

/// The category named by `s`, compared without regard to ASCII case; any
/// other text is invalid.
pub open spec fn spec_category_from_text(s: Seq<u8>) -> Option<Category> {
    if lower_seq(s) == lower_seq(lit_food()) {
        Some(Category::Food)
    } else if lower_seq(s) == lower_seq(lit_transport()) {
        Some(Category::Transport)
    } else if lower_seq(s) == lower_seq(lit_entertainment()) {
        Some(Category::Entertainment)
    } else if lower_seq(s) == lower_seq(lit_other()) {
        Some(Category::Other)
    } else {
        None
    }
}

/// The summary dimension named by `s`: `category` or `date`, compared without
/// regard to ASCII case.
pub open spec fn spec_summary_type_from_text(s: Seq<u8>) -> Option<SummaryType> {
    if lower_seq(s) == seq![
        ('c' as u8),
        ('a' as u8),
        ('t' as u8),
        ('e' as u8),
        ('g' as u8),
        ('o' as u8),
        ('r' as u8),
        ('y' as u8),
    ] {
        Some(SummaryType::ByCategory)
    } else if lower_seq(s) == seq![('d' as u8), ('a' as u8), ('t' as u8), ('e' as u8)] {
        Some(SummaryType::ByDate)
    } else {
        None
    }
}

fn lower_byte(b: u8) -> (r: u8)
    ensures
        r == lower_ascii(b),
{
    if ('A' as u8) <= b && b <= ('Z' as u8) {
        b + 32
    } else {
        b
    }
}

/// Lowers every ASCII letter of `s`.
fn lower_vec(s: &Vec<u8>) -> (r: Vec<u8>)
    ensures
        r@ == lower_seq(s@),
{
    let n = s.len();
    let mut out: Vec<u8> = Vec::new();
    let mut k: usize = 0;
    while k < n
        invariant
            k <= n == s@.len(),
            out@.len() == k,
            forall|t: int| 0 <= t < k ==> out@[t] == lower_ascii(s@[t]),
        decreases n - k,
    {
        out.push(lower_byte(s[k]));
        k = k + 1;
    }
    proof {
        assert(out@ =~= lower_seq(s@));
    }
    out
}

fn eq_vec(a: &Vec<u8>, b: &Vec<u8>) -> (r: bool)
    ensures
        r == (a@ == b@),
{
    let n = a.len();
    if n != b.len() {
        return false;
    }
    let mut k: usize = 0;
    while k < n
        invariant
            k <= n == a@.len() == b@.len(),
            forall|t: int| 0 <= t < k ==> a@[t] == b@[t],
        decreases n - k,
    {
        if a[k] != b[k] {
            return false;
        }
        k = k + 1;
    }
    proof {
        assert(a@ =~= b@);
    }
    true
}

/// Parses a category name, without regard to ASCII case.
pub fn category_from_text(s: &Vec<u8>) -> (r: Result<Category, ExpenseError>)
    ensures
        match spec_category_from_text(s@) {
            Some(c) => r == Ok::<Category, ExpenseError>(c),
            None => r == Err::<Category, ExpenseError>(ExpenseError::InvalidEnumValue),
        },
{
    let low = lower_vec(s);
    if eq_vec(&low, &lower_vec(&lit_food_vec())) {
        Ok(Category::Food)
    } else if eq_vec(&low, &lower_vec(&lit_transport_vec())) {
        Ok(Category::Transport)
    } else if eq_vec(&low, &lower_vec(&lit_entertainment_vec())) {
        Ok(Category::Entertainment)
    } else if eq_vec(&low, &lower_vec(&lit_other_vec())) {
        Ok(Category::Other)
    } else {
        Err(ExpenseError::InvalidEnumValue)
    }
}

/// Parses a summary dimension: `category` or `date`, without regard to ASCII
/// case.
pub fn summary_type_from_text(s: &Vec<u8>) -> (r: Result<SummaryType, ExpenseError>)
    ensures
        match spec_summary_type_from_text(s@) {
            Some(t) => r == Ok::<SummaryType, ExpenseError>(t),
            None => r == Err::<SummaryType, ExpenseError>(ExpenseError::InvalidEnumValue),
        },
{
    let low = lower_vec(s);
    let mut cat_word: Vec<u8> = Vec::new();
    cat_word.push('c' as u8);
    cat_word.push('a' as u8);
    cat_word.push('t' as u8);
    cat_word.push('e' as u8);
    cat_word.push('g' as u8);
    cat_word.push('o' as u8);
    cat_word.push('r' as u8);
    cat_word.push('y' as u8);
    let mut date_word: Vec<u8> = Vec::new();
    date_word.push('d' as u8);
    date_word.push('a' as u8);
    date_word.push('t' as u8);
    date_word.push('e' as u8);
    proof {
        assert(cat_word@ =~= seq![
            ('c' as u8),
            ('a' as u8),
            ('t' as u8),
            ('e' as u8),
            ('g' as u8),
            ('o' as u8),
            ('r' as u8),
            ('y' as u8),
        ]);
        assert(date_word@ =~= seq![('d' as u8), ('a' as u8), ('t' as u8), ('e' as u8)]);
    }
    if eq_vec(&low, &cat_word) {
        Ok(SummaryType::ByCategory)
    } else if eq_vec(&low, &date_word) {
        Ok(SummaryType::ByDate)
    } else {
        Err(ExpenseError::InvalidEnumValue)
    }
}

} // verus!
