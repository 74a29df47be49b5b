use crate::codec::{lemma_render_parse, parse_expenses, render_expenses, spec_parse, spec_render};
use crate::date::Date;
use crate::expense::{seq_view, Category, Expense, ExpenseV, SummaryType};
use crate::summary::{
    cat_pairs_view, date_pairs_view, spec_summary_cats, spec_summary_dates, summarize_by_cat,
    summarize_by_date,
};
use vstd::prelude::*;

verus! {

/// Identifiers strictly grow along the collection. The assignment rule
/// `last id + 1, or 0 when empty` keeps this, and it gives the uniqueness the
/// store promises.
pub open spec fn ids_increasing(es: Seq<ExpenseV>) -> bool {
    forall|a: int, b: int| 0 <= a < b < es.len() ==> (#[trigger] es[a]).id < (#[trigger] es[b]).id
}

pub open spec fn records_wf(es: Seq<ExpenseV>) -> bool {
    forall|k: int| 0 <= k < es.len() ==> (#[trigger] es[k]).wf()
}

/// The identifier the next accepted record gets: one past the last record's,
/// or zero in an empty collection.
pub open spec fn next_id(es: Seq<ExpenseV>) -> int {
    if es.len() == 0 {
        0
    } else {
        es.last().id + 1
    }
}

/// What accepting a record does to the collection.
pub open spec fn spec_add(es: Seq<ExpenseV>, e: ExpenseV) -> Seq<ExpenseV> {
    es.push(ExpenseV { id: next_id(es), ..e })
}

/// What a store holds after reading the given file contents: the decoded
/// records where the file decodes and its identifiers strictly grow, an empty
/// collection otherwise (also where the file could not be read at all).
pub open spec fn spec_load(contents: Option<Seq<u8>>) -> Seq<ExpenseV> {
    match contents {
        Some(b) => match spec_parse(b) {
            Some(es) => if ids_increasing(es) {
                es
            } else {
                Seq::empty()
            },
            None => Seq::empty(),
        },
        None => Seq::empty(),
    }
}

/// The owner of the in-memory expense collection. Reading the backing file
/// and writing it back are its caller's work: construction takes the file's
/// contents, and every mutating operation hands back the exact bytes the file
/// must hold afterwards.
pub struct ExpenseStore {
    records: Vec<Expense>,
}

impl View for ExpenseStore {
    type V = Seq<ExpenseV>;

    closed spec fn view(&self) -> Seq<ExpenseV> {
        seq_view(self.records@)
    }
}

/// A summary: the total amount of each category or of each calendar day with
/// at least one record, keyed in first-occurrence order.
pub enum Summary {
    ByCategory(Vec<(Category, i128)>),
    ByDate(Vec<(Date, i128)>),
}

impl ExpenseStore {
    pub open spec fn wf(self) -> bool {
        records_wf(self@) && ids_increasing(self@)
    }

    /// A store with nothing in it.
    pub fn empty() -> (s: ExpenseStore)
        ensures
            s@ == Seq::<ExpenseV>::empty(),
            s.wf(),
    {
        let s = ExpenseStore { records: Vec::new() };
        proof {
            assert(s@ =~= Seq::<ExpenseV>::empty());
        }
        s
    }

    /// Builds a store from what was read from the backing file: `None` where
    /// reading failed, the raw bytes otherwise. A missing or undecodable
    /// file yields an empty collection, never an error.
    pub fn from_file_contents(contents: Option<Vec<u8>>) -> (s: ExpenseStore)
        ensures
            s.wf(),
            s@ == spec_load(match contents {
                Some(b) => Some(b@),
                None => None,
            }),
    {
        match contents {
            None => Self::empty(),
            Some(b) => {
                match parse_expenses(&b) {
                    None => Self::empty(),
                    Some(v) => {
                        if check_ids_increasing(&v) {
                            ExpenseStore { records: v }
                        } else {
                            Self::empty()
                        }
                    },
                }
            },
        }
    }

    /// The records, in insertion order.
    pub fn list(&self) -> (r: &Vec<Expense>)
        ensures
            seq_view(r@) == self@,
    {
        &self.records
    }

    /// The exact bytes the backing file must hold for this collection.
    pub fn to_file_bytes(&self) -> (r: Vec<u8>)
        requires
            self.wf(),
        ensures
            r@ == spec_render(self@),
    {
        render_expenses(&self.records)
    }

    /// Accepts a record: assigns it the next identifier, appends it, and
    /// returns the bytes the backing file must hold afterwards.
    pub fn add(&mut self, expense: Expense) -> (out: Vec<u8>)
        requires
            old(self).wf(),
            expense@.date.wf(),
            old(self)@.len() > 0 ==> old(self)@.last().id < i64::MAX,
        ensures
            final(self)@ == spec_add(old(self)@, expense@),
            final(self).wf(),
            out@ == spec_render(final(self)@),
    {
        let n = self.records.len();
        let id: i64 = if n == 0 {
            0
        } else {
            proof {
                assert(self@[n - 1] == self.records@[n - 1]@);
            }
            self.records[n - 1].id + 1
        };
        let e = Expense {
            id,
            description: expense.description,
            amount: expense.amount,
            date: expense.date,
            category: expense.category,
        };
        proof {
            assert(e@ == (ExpenseV { id: next_id(old(self)@), ..expense@ }));
        }
        self.records.push(e);
        proof {
            assert(self@ =~= spec_add(old(self)@, expense@));
            assert forall|a: int, b: int| 0 <= a < b < self@.len() implies (#[trigger] self@[a]).id
                < (#[trigger] self@[b]).id by {
                if b == self@.len() - 1 && old(self)@.len() > 0 && a < old(self)@.len() {
                    assert(old(self)@[a].id <= old(self)@[old(self)@.len() - 1].id);
                }
            }
        }
        render_expenses(&self.records)
    }

    /// Removes the record that carries `id`, if one does, and returns whether
    /// one did together with the bytes the backing file must hold afterwards.
    /// A miss leaves the collection unchanged.
    pub fn delete(&mut self, id: i64) -> (r: (bool, Vec<u8>))
        requires
            old(self).wf(),
        ensures
            final(self).wf(),
            r.1@ == spec_render(final(self)@),
            r.0 == exists|k: int|
                0 <= k < old(self)@.len() && (#[trigger] old(self)@[k]).id == id,
            r.0 ==> final(self)@.len() == old(self)@.len() - 1,
            r.0 ==> exists|k: int|
                0 <= k < old(self)@.len() && (#[trigger] old(self)@[k]).id == id && final(self)@
                    == old(self)@.remove(k),
            !r.0 ==> final(self)@ == old(self)@,
    {
        let n = self.records.len();
        let mut k: usize = 0;
        let mut found: bool = false;
        while !found && k < n
            invariant
                k <= n == self.records@.len(),
                self == old(self),
                found ==> k < n && self@[k as int].id == id,
                !found ==> forall|t: int| 0 <= t < k ==> (#[trigger] self@[t]).id != id,
            decreases n - k, (if found { 0int } else { 1int }),
        {
            proof {
                assert(self@[k as int] == self.records@[k as int]@);
            }
            if self.records[k].id == id {
                found = true;
            } else {
                k = k + 1;
            }
        }
        if found {
            self.records.remove(k);
            proof {
                assert(self@ =~= seq_view(old(self).records@).remove(k as int));
                assert(0 <= k < old(self)@.len() && old(self)@[k as int].id == id && self@
                    == old(self)@.remove(k as int));
                assert forall|t: int| 0 <= t < self@.len() implies (#[trigger] self@[t]).wf() by {
                    if t < k {
                        assert(old(self)@[t].wf());
                    } else {
                        assert(old(self)@[t + 1].wf());
                    }
                }
                assert forall|a: int, b: int| 0 <= a < b < self@.len() implies (#[trigger] self@[a]).id
                    < (#[trigger] self@[b]).id by {
                    assert(ids_increasing(old(self)@));
                    if b < k {
                        assert(old(self)@[a].id < old(self)@[b].id);
                    } else if a < k {
                        assert(old(self)@[a].id < old(self)@[b + 1].id);
                    } else {
                        assert(old(self)@[a + 1].id < old(self)@[b + 1].id);
                    }
                }
            }
            let out = render_expenses(&self.records);
            (true, out)
        } else {
            let out = render_expenses(&self.records);
            (false, out)
        }
    }
}

/// Whether identifiers strictly grow along the collection.
pub fn check_ids_increasing(v: &Vec<Expense>) -> (r: bool)
    ensures
        r == ids_increasing(seq_view(v@)),
{
    let n = v.len();
    let mut k: usize = 1;
    while k < n
        invariant
            1 <= k <= n == v@.len() || (n == 0 && k == 1),
            forall|a: int, b: int|
                0 <= a < b < k ==> (#[trigger] seq_view(v@)[a]).id < (#[trigger] seq_view(v@)[b]).id,
        decreases n - k,
    {
        proof {
            assert(seq_view(v@)[k - 1] == v@[k - 1]@);
            assert(seq_view(v@)[k as int] == v@[k as int]@);
        }
        if v[k - 1].id >= v[k].id {
            return false;
        }
        proof {
            assert forall|a: int, b: int| 0 <= a < b < k + 1 implies (#[trigger] seq_view(v@)[a]).id
                < (#[trigger] seq_view(v@)[b]).id by {
                if b == k {
                    if a < k - 1 {
                        assert(seq_view(v@)[a].id < seq_view(v@)[k - 1].id);
                    }
                }
            }
        }
        k = k + 1;
    }
    true
}


impl ExpenseStore {
    /// Groups the records by the chosen dimension and totals each group's
    /// amounts. Reading only: the collection is left as it is.
    pub fn summarize(&self, t: SummaryType) -> (r: Summary)
        ensures
            match t {
                SummaryType::ByCategory => r matches Summary::ByCategory(v) && cat_pairs_view(v@)
                    == spec_summary_cats(self@),
                SummaryType::ByDate => r matches Summary::ByDate(v) && date_pairs_view(v@)
                    == spec_summary_dates(self@),
            },
    {
        match t {
            SummaryType::ByCategory => Summary::ByCategory(summarize_by_cat(&self.records)),
            SummaryType::ByDate => Summary::ByDate(summarize_by_date(&self.records)),
        }
    }
}

/// Accepting records only ever appends an identifier above every one present:
/// however a collection grew by `add` alone from an empty store, its
/// identifiers strictly increase.
pub proof fn lemma_add_keeps_ids_increasing(es: Seq<ExpenseV>, e: ExpenseV)
    requires
        ids_increasing(es),
    ensures
        ids_increasing(spec_add(es, e)),
        forall|k: int| 0 <= k < es.len() ==> (#[trigger] es[k]).id < next_id(es),
        spec_add(es, e).last().id == next_id(es),
{
    let t = spec_add(es, e);
    assert forall|k: int| 0 <= k < es.len() implies (#[trigger] es[k]).id < next_id(es) by {
        if k < es.len() - 1 {
            assert(es[k].id < es[es.len() - 1].id);
        }
    }
    assert forall|a: int, b: int| 0 <= a < b < t.len() implies (#[trigger] t[a]).id
        < (#[trigger] t[b]).id by {
        if b == t.len() - 1 {
            assert(t[a] == es[a]);
        } else {
            assert(t[a] == es[a] && t[b] == es[b]);
        }
    }
}

/// Writing a collection out and constructing a store from those same bytes
/// yields the identical collection: same identifiers, order and fields.
pub proof fn lemma_store_round_trip(es: Seq<ExpenseV>)
    requires
        records_wf(es),
        ids_increasing(es),
    ensures
        spec_load(Some(spec_render(es))) == es,
{
    lemma_render_parse(es);
}

} // verus!
