use crate::date::Date;
use crate::expense::{seq_view, Category, Expense, ExpenseV};
use vstd::prelude::*;

verus! {

/// Total amount of the records whose category is `c`.
pub open spec fn sum_for_cat(es: Seq<ExpenseV>, c: Category) -> int
    decreases es.len(),
{
    if es.len() == 0 {
        0
    } else {
        sum_for_cat(es.drop_last(), c) + if es.last().category == c {
            es.last().amount
        } else {
            0
        }
    }
}

/// First position of key `c`, or `-1` where it is absent.
pub open spec fn find_cat_key(ps: Seq<(Category, int)>, c: Category) -> int
    decreases ps.len(),
{
    if ps.len() == 0 {
        -1
    } else if ps[0].0 == c {
        0
    } else {
        let r = find_cat_key(ps.subrange(1, ps.len() as int), c);
        if r < 0 {
            -1
        } else {
            r + 1
        }
    }
}

proof fn lemma_find_cat_key_found(ps: Seq<(Category, int)>, c: Category, j: int)
    requires
        0 <= j < ps.len(),
        ps[j].0 == c,
        forall|t: int| 0 <= t < j ==> (#[trigger] ps[t]).0 != c,
    ensures
        find_cat_key(ps, c) == j,
    decreases ps.len(),
{
    if j == 0 {
    } else {
        let tail = ps.subrange(1, ps.len() as int);
        assert(ps[0].0 != c);
        assert(tail[j - 1] == ps[j]);
        assert(forall|t: int| 0 <= t < j - 1 ==> (#[trigger] tail[t]) == ps[t + 1]);
        lemma_find_cat_key_found(tail, c, j - 1);
    }
}

proof fn lemma_find_cat_key_missing(ps: Seq<(Category, int)>, c: Category)
    requires
        forall|t: int| 0 <= t < ps.len() ==> (#[trigger] ps[t]).0 != c,
    ensures
        find_cat_key(ps, c) == -1,
    decreases ps.len(),
{
    if ps.len() > 0 {
        let tail = ps.subrange(1, ps.len() as int);
        assert(forall|t: int| 0 <= t < tail.len() ==> (#[trigger] tail[t]) == ps[t + 1]);
        lemma_find_cat_key_missing(tail, c);
    }
}

/// The summary over category: one entry for each key present, in
/// first-occurrence order, holding the total amount of its records.
pub open spec fn spec_summary_cats(es: Seq<ExpenseV>) -> Seq<(Category, int)>
    decreases es.len(),
{
    if es.len() == 0 {
        Seq::empty()
    } else {
        let prev = spec_summary_cats(es.drop_last());
        let e = es.last();
        let j = find_cat_key(prev, e.category);
        if j < 0 {
            prev.push((e.category, e.amount))
        } else {
            prev.update(j, (e.category, prev[j].1 + e.amount))
        }
    }
}

/// The mathematical values of the summary entries.
pub open spec fn cat_pairs_view(s: Seq<(Category, i128)>) -> Seq<(Category, int)> {
    s.map_values(|p: (Category, i128)| (p.0, p.1 as int))
}

/// Groups the records by category and totals each group's amounts, in
/// first-occurrence order of the keys.
pub fn summarize_by_cat(records: &Vec<Expense>) -> (r: Vec<(Category, i128)>)
    ensures
        cat_pairs_view(r@) == spec_summary_cats(seq_view(records@)),
{
    let ghost es = seq_view(records@);
    let n = records.len();
    let mut out: Vec<(Category, i128)> = Vec::new();
    let mut k: usize = 0;
    while k < n
        invariant
            k <= n == records@.len(),
            es == seq_view(records@),
            cat_pairs_view(out@) == spec_summary_cats(es.take(k as int)),
            forall|j: int|
                0 <= j < out@.len() ==> -(k as int) * 0x8000000000000000 <= (#[trigger] out@[j]).1
                    <= (k as int) * 0x8000000000000000,
        decreases n - k,
    {
        let ghost prev = spec_summary_cats(es.take(k as int));
        let e = &records[k];
        let c = e.category;
        let a: i128 = e.amount as i128;
        proof {
            assert(e@ == es[k as int]);
            assert(es.take(k + 1).drop_last() =~= es.take(k as int));
            assert(es.take(k + 1).last() == es[k as int]);
            assert(k as int + 1 <= 0xffffffffffffffffint);
        }
        let m = out.len();
        let mut j: usize = 0;
        let mut found: bool = false;
        while !found && j < m
            invariant
                j <= m == out@.len(),
                found ==> j < m && out@[j as int].0 == c,
                forall|t: int| 0 <= t < j ==> (#[trigger] out@[t]).0 != c,
            decreases m - j, (if found { 0int } else { 1int }),
        {
            if out[j].0 == c {
                found = true;
            } else {
                j = j + 1;
            }
        }
        if found {
            let p = out[j];
            proof {
                assert(prev[j as int] == (out@[j as int].0, out@[j as int].1 as int));
                assert forall|t: int| 0 <= t < j implies (#[trigger] prev[t]).0 != c by {
                    assert(prev[t] == (out@[t].0, out@[t].1 as int));
                }
                lemma_find_cat_key_found(prev, c, j as int);
            }
            out.remove(j);
            out.insert(j, (c, p.1 + a));
            proof {
                assert(cat_pairs_view(out@) =~= prev.update(
                    j as int,
                    (c, prev[j as int].1 + es[k as int].amount),
                ));
            }
        } else {
            proof {
                assert forall|t: int| 0 <= t < prev.len() implies (#[trigger] prev[t]).0 != c by {
                    assert(prev[t] == (out@[t].0, out@[t].1 as int));
                }
                lemma_find_cat_key_missing(prev, c);
            }
            out.push((c, a));
            proof {
                assert(cat_pairs_view(out@) =~= prev.push((c, es[k as int].amount)));
            }
        }
        k = k + 1;
    }
    proof {
        assert(es.take(n as int) =~= es);
    }
    out
}

/// Whether key `c` stands in the summary.
pub open spec fn cat_present(ps: Seq<(Category, int)>, c: Category) -> bool {
    exists|j: int| 0 <= j < ps.len() && (#[trigger] ps[j]).0 == c
}

/// Whether some record carries the key `c`.
pub open spec fn cat_used(es: Seq<ExpenseV>, c: Category) -> bool {
    exists|k: int| 0 <= k < es.len() && (#[trigger] es[k]).category == c
}

proof fn lemma_find_cat_key_props(ps: Seq<(Category, int)>, c: Category)
    ensures
        find_cat_key(ps, c) == -1 ==> forall|t: int|
            0 <= t < ps.len() ==> (#[trigger] ps[t]).0 != c,
        find_cat_key(ps, c) >= 0 ==> 0 <= find_cat_key(ps, c) < ps.len() && ps[find_cat_key(
            ps,
            c,
        )].0 == c,
    decreases ps.len(),
{
    if ps.len() > 0 && ps[0].0 != c {
        let tail = ps.subrange(1, ps.len() as int);
        assert(forall|t: int| 0 <= t < tail.len() ==> (#[trigger] tail[t]) == ps[t + 1]);
        lemma_find_cat_key_props(tail, c);
        if find_cat_key(ps, c) == -1 {
            assert(find_cat_key(tail, c) == -1);
            assert forall|t: int| 0 <= t < ps.len() implies (#[trigger] ps[t]).0 != c by {
                if t > 0 {
                    assert(tail[t - 1] == ps[t]);
                }
            }
        }
    }
}

proof fn lemma_sum_absent_cat(es: Seq<ExpenseV>, c: Category)
    requires
        forall|k: int| 0 <= k < es.len() ==> (#[trigger] es[k]).category != c,
    ensures
        sum_for_cat(es, c) == 0,
    decreases es.len(),
{
    if es.len() > 0 {
        let d = es.drop_last();
        assert(forall|k: int| 0 <= k < d.len() ==> (#[trigger] d[k]) == es[k]);
        lemma_sum_absent_cat(d, c);
    }
}

/// What the summary over category means: its keys are distinct, a key stands
/// in it exactly when some record carries it, and each key's value is the
/// total amount of that key's records.
#[verifier::rlimit(100)]
pub proof fn lemma_summary_cats_correct(es: Seq<ExpenseV>)
    ensures
        forall|i: int, j: int|
            0 <= i < j < spec_summary_cats(es).len() ==> (#[trigger] spec_summary_cats(es)[i]).0
                != (#[trigger] spec_summary_cats(es)[j]).0,
        forall|j: int|
            0 <= j < spec_summary_cats(es).len() ==> (#[trigger] spec_summary_cats(es)[j]).1
                == sum_for_cat(es, spec_summary_cats(es)[j].0),
        forall|j: int|
            0 <= j < spec_summary_cats(es).len() ==> cat_used(
                es,
                (#[trigger] spec_summary_cats(es)[j]).0,
            ),
        forall|k: int| 0 <= k < es.len() ==> cat_present(spec_summary_cats(es), (#[trigger] es[k]).category),
    decreases es.len(),
{
    if es.len() > 0 {
        let d = es.drop_last();
        let e = es.last();
        let c = e.category;
        let psd = spec_summary_cats(d);
        let ps = spec_summary_cats(es);
        lemma_summary_cats_correct(d);
        lemma_find_cat_key_props(psd, c);
        let f = find_cat_key(psd, c);
        assert(forall|k: int| 0 <= k < d.len() ==> (#[trigger] d[k]) == es[k]);
        if f < 0 {
            assert(ps == psd.push((c, e.amount)));
            lemma_sum_absent_cat(d, c);
            assert(ps[ps.len() - 1].1 == sum_for_cat(es, c));
            assert forall|j: int| 0 <= j < ps.len() implies (#[trigger] ps[j]).1 == sum_for_cat(
                es,
                ps[j].0,
            ) by {
                if j < ps.len() - 1 {
                    assert(ps[j] == psd[j]);
                    assert(ps[j].0 != c);
                    assert(sum_for_cat(es, ps[j].0) == sum_for_cat(d, ps[j].0));
                }
            }
            assert forall|k: int| 0 <= k < es.len() implies cat_present(
                ps,
                (#[trigger] es[k]).category,
            ) by {
                if k < es.len() - 1 {
                    assert(cat_present(psd, d[k].category));
                    let j0 = choose|j: int| 0 <= j < psd.len() && (#[trigger] psd[j]).0
                        == d[k].category;
                    assert(ps[j0] == psd[j0]);
                    assert(ps[j0].0 == es[k].category);
                } else {
                    assert(ps[ps.len() - 1].0 == es[k].category);
                }
            }
            assert forall|j: int| 0 <= j < ps.len() implies cat_used(
                es,
                (#[trigger] ps[j]).0,
            ) by {
                if j < ps.len() - 1 {
                    assert(ps[j] == psd[j]);
                    assert(cat_used(d, psd[j].0));
                    let k0 = choose|k: int| 0 <= k < d.len() && (#[trigger] d[k]).category
                        == psd[j].0;
                    assert(es[k0].category == ps[j].0);
                } else {
                    assert(es[es.len() - 1].category == ps[j].0);
                }
            }
        } else {
            assert(ps == psd.update(f, (c, psd[f].1 + e.amount)));
            assert(ps.len() == psd.len());
            assert(forall|j: int| 0 <= j < ps.len() ==> (#[trigger] ps[j]).0 == psd[j].0);
            assert forall|j: int| 0 <= j < ps.len() implies (#[trigger] ps[j]).1 == sum_for_cat(
                es,
                ps[j].0,
            ) by {
                if j == f {
                    assert(ps[j].1 == psd[f].1 + e.amount);
                } else {
                    assert(ps[j] == psd[j]);
                    assert(psd[j].0 != c);
                    assert(sum_for_cat(es, ps[j].0) == sum_for_cat(d, ps[j].0));
                }
            }
            assert forall|k: int| 0 <= k < es.len() implies cat_present(
                ps,
                (#[trigger] es[k]).category,
            ) by {
                if k < es.len() - 1 {
                    assert(cat_present(psd, d[k].category));
                    let j0 = choose|j: int| 0 <= j < psd.len() && (#[trigger] psd[j]).0
                        == d[k].category;
                    assert(ps[j0].0 == psd[j0].0);
                    assert(ps[j0].0 == es[k].category);
                } else {
                    assert(ps[f].0 == es[k].category);
                }
            }
            assert forall|j: int| 0 <= j < ps.len() implies cat_used(
                es,
                (#[trigger] ps[j]).0,
            ) by {
                assert(cat_used(d, psd[j].0));
                let k0 = choose|k: int| 0 <= k < d.len() && (#[trigger] d[k]).category == psd[j].0;
                assert(es[k0].category == ps[j].0);
            }
        }
    }
}

/// Total amount of the records whose calendar day is `c`.
pub open spec fn sum_for_date(es: Seq<ExpenseV>, c: Date) -> int
    decreases es.len(),
{
    if es.len() == 0 {
        0
    } else {
        sum_for_date(es.drop_last(), c) + if es.last().date == c {
            es.last().amount
        } else {
            0
        }
    }
}

/// First position of key `c`, or `-1` where it is absent.
pub open spec fn find_date_key(ps: Seq<(Date, int)>, c: Date) -> int
    decreases ps.len(),
{
    if ps.len() == 0 {
        -1
    } else if ps[0].0 == c {
        0
    } else {
        let r = find_date_key(ps.subrange(1, ps.len() as int), c);
        if r < 0 {
            -1
        } else {
            r + 1
        }
    }
}

proof fn lemma_find_date_key_found(ps: Seq<(Date, int)>, c: Date, j: int)
    requires
        0 <= j < ps.len(),
        ps[j].0 == c,
        forall|t: int| 0 <= t < j ==> (#[trigger] ps[t]).0 != c,
    ensures
        find_date_key(ps, c) == j,
    decreases ps.len(),
{
    if j == 0 {
    } else {
        let tail = ps.subrange(1, ps.len() as int);
        assert(ps[0].0 != c);
        assert(tail[j - 1] == ps[j]);
        assert(forall|t: int| 0 <= t < j - 1 ==> (#[trigger] tail[t]) == ps[t + 1]);
        lemma_find_date_key_found(tail, c, j - 1);
    }
}

proof fn lemma_find_date_key_missing(ps: Seq<(Date, int)>, c: Date)
    requires
        forall|t: int| 0 <= t < ps.len() ==> (#[trigger] ps[t]).0 != c,
    ensures
        find_date_key(ps, c) == -1,
    decreases ps.len(),
{
    if ps.len() > 0 {
        let tail = ps.subrange(1, ps.len() as int);
        assert(forall|t: int| 0 <= t < tail.len() ==> (#[trigger] tail[t]) == ps[t + 1]);
        lemma_find_date_key_missing(tail, c);
    }
}

/// The summary over calendar day: one entry for each key present, in
/// first-occurrence order, holding the total amount of its records.
pub open spec fn spec_summary_dates(es: Seq<ExpenseV>) -> Seq<(Date, int)>
    decreases es.len(),
{
    if es.len() == 0 {
        Seq::empty()
    } else {
        let prev = spec_summary_dates(es.drop_last());
        let e = es.last();
        let j = find_date_key(prev, e.date);
        if j < 0 {
            prev.push((e.date, e.amount))
        } else {
            prev.update(j, (e.date, prev[j].1 + e.amount))
        }
    }
}

/// The mathematical values of the summary entries.
pub open spec fn date_pairs_view(s: Seq<(Date, i128)>) -> Seq<(Date, int)> {
    s.map_values(|p: (Date, i128)| (p.0, p.1 as int))
}

/// Groups the records by calendar day and totals each group's amounts, in
/// first-occurrence order of the keys.
pub fn summarize_by_date(records: &Vec<Expense>) -> (r: Vec<(Date, i128)>)
    ensures
        date_pairs_view(r@) == spec_summary_dates(seq_view(records@)),
{
    let ghost es = seq_view(records@);
    let n = records.len();
    let mut out: Vec<(Date, i128)> = Vec::new();
    let mut k: usize = 0;
    while k < n
        invariant
            k <= n == records@.len(),
            es == seq_view(records@),
            date_pairs_view(out@) == spec_summary_dates(es.take(k as int)),
            forall|j: int|
                0 <= j < out@.len() ==> -(k as int) * 0x8000000000000000 <= (#[trigger] out@[j]).1
                    <= (k as int) * 0x8000000000000000,
        decreases n - k,
    {
        let ghost prev = spec_summary_dates(es.take(k as int));
        let e = &records[k];
        let c = e.date;
        let a: i128 = e.amount as i128;
        proof {
            assert(e@ == es[k as int]);
            assert(es.take(k + 1).drop_last() =~= es.take(k as int));
            assert(es.take(k + 1).last() == es[k as int]);
            assert(k as int + 1 <= 0xffffffffffffffffint);
        }
        let m = out.len();
        let mut j: usize = 0;
        let mut found: bool = false;
        while !found && j < m
            invariant
                j <= m == out@.len(),
                found ==> j < m && out@[j as int].0 == c,
                forall|t: int| 0 <= t < j ==> (#[trigger] out@[t]).0 != c,
            decreases m - j, (if found { 0int } else { 1int }),
        {
            if out[j].0 == c {
                found = true;
            } else {
                j = j + 1;
            }
        }
        if found {
            let p = out[j];
            proof {
                assert(prev[j as int] == (out@[j as int].0, out@[j as int].1 as int));
                assert forall|t: int| 0 <= t < j implies (#[trigger] prev[t]).0 != c by {
                    assert(prev[t] == (out@[t].0, out@[t].1 as int));
                }
                lemma_find_date_key_found(prev, c, j as int);
            }
            out.remove(j);
            out.insert(j, (c, p.1 + a));
            proof {
                assert(date_pairs_view(out@) =~= prev.update(
                    j as int,
                    (c, prev[j as int].1 + es[k as int].amount),
                ));
            }
        } else {
            proof {
                assert forall|t: int| 0 <= t < prev.len() implies (#[trigger] prev[t]).0 != c by {
                    assert(prev[t] == (out@[t].0, out@[t].1 as int));
                }
                lemma_find_date_key_missing(prev, c);
            }
            out.push((c, a));
            proof {
                assert(date_pairs_view(out@) =~= prev.push((c, es[k as int].amount)));
            }
        }
        k = k + 1;
    }
    proof {
        assert(es.take(n as int) =~= es);
    }
    out
}

/// Whether key `c` stands in the summary.
pub open spec fn date_present(ps: Seq<(Date, int)>, c: Date) -> bool {
    exists|j: int| 0 <= j < ps.len() && (#[trigger] ps[j]).0 == c
}

/// Whether some record carries the key `c`.
pub open spec fn date_used(es: Seq<ExpenseV>, c: Date) -> bool {
    exists|k: int| 0 <= k < es.len() && (#[trigger] es[k]).date == c
}

proof fn lemma_find_date_key_props(ps: Seq<(Date, int)>, c: Date)
    ensures
        find_date_key(ps, c) == -1 ==> forall|t: int|
            0 <= t < ps.len() ==> (#[trigger] ps[t]).0 != c,
        find_date_key(ps, c) >= 0 ==> 0 <= find_date_key(ps, c) < ps.len() && ps[find_date_key(
            ps,
            c,
        )].0 == c,
    decreases ps.len(),
{
    if ps.len() > 0 && ps[0].0 != c {
        let tail = ps.subrange(1, ps.len() as int);
        assert(forall|t: int| 0 <= t < tail.len() ==> (#[trigger] tail[t]) == ps[t + 1]);
        lemma_find_date_key_props(tail, c);
        if find_date_key(ps, c) == -1 {
            assert(find_date_key(tail, c) == -1);
            assert forall|t: int| 0 <= t < ps.len() implies (#[trigger] ps[t]).0 != c by {
                if t > 0 {
                    assert(tail[t - 1] == ps[t]);
                }
            }
        }
    }
}

proof fn lemma_sum_absent_date(es: Seq<ExpenseV>, c: Date)
    requires
        forall|k: int| 0 <= k < es.len() ==> (#[trigger] es[k]).date != c,
    ensures
        sum_for_date(es, c) == 0,
    decreases es.len(),
{
    if es.len() > 0 {
        let d = es.drop_last();
        assert(forall|k: int| 0 <= k < d.len() ==> (#[trigger] d[k]) == es[k]);
        lemma_sum_absent_date(d, c);
    }
}

/// What the summary over calendar day means: its keys are distinct, a key stands
/// in it exactly when some record carries it, and each key's value is the
/// total amount of that key's records.
#[verifier::rlimit(100)]
pub proof fn lemma_summary_dates_correct(es: Seq<ExpenseV>)
    ensures
        forall|i: int, j: int|
            0 <= i < j < spec_summary_dates(es).len() ==> (#[trigger] spec_summary_dates(es)[i]).0
                != (#[trigger] spec_summary_dates(es)[j]).0,
        forall|j: int|
            0 <= j < spec_summary_dates(es).len() ==> (#[trigger] spec_summary_dates(es)[j]).1
                == sum_for_date(es, spec_summary_dates(es)[j].0),
        forall|j: int|
            0 <= j < spec_summary_dates(es).len() ==> date_used(
                es,
                (#[trigger] spec_summary_dates(es)[j]).0,
            ),
        forall|k: int| 0 <= k < es.len() ==> date_present(spec_summary_dates(es), (#[trigger] es[k]).date),
    decreases es.len(),
{
    if es.len() > 0 {
        let d = es.drop_last();
        let e = es.last();
        let c = e.date;
        let psd = spec_summary_dates(d);
        let ps = spec_summary_dates(es);
        lemma_summary_dates_correct(d);
        lemma_find_date_key_props(psd, c);
        let f = find_date_key(psd, c);
        assert(forall|k: int| 0 <= k < d.len() ==> (#[trigger] d[k]) == es[k]);
        if f < 0 {
            assert(ps == psd.push((c, e.amount)));
            lemma_sum_absent_date(d, c);
            assert(ps[ps.len() - 1].1 == sum_for_date(es, c));
            assert forall|j: int| 0 <= j < ps.len() implies (#[trigger] ps[j]).1 == sum_for_date(
                es,
                ps[j].0,
            ) by {
                if j < ps.len() - 1 {
                    assert(ps[j] == psd[j]);
                    assert(ps[j].0 != c);
                    assert(sum_for_date(es, ps[j].0) == sum_for_date(d, ps[j].0));
                }
            }
            assert forall|k: int| 0 <= k < es.len() implies date_present(
                ps,
                (#[trigger] es[k]).date,
            ) by {
                if k < es.len() - 1 {
                    assert(date_present(psd, d[k].date));
                    let j0 = choose|j: int| 0 <= j < psd.len() && (#[trigger] psd[j]).0
                        == d[k].date;
                    assert(ps[j0] == psd[j0]);
                    assert(ps[j0].0 == es[k].date);
                } else {
                    assert(ps[ps.len() - 1].0 == es[k].date);
                }
            }
            assert forall|j: int| 0 <= j < ps.len() implies date_used(
                es,
                (#[trigger] ps[j]).0,
            ) by {
                if j < ps.len() - 1 {
                    assert(ps[j] == psd[j]);
                    assert(date_used(d, psd[j].0));
                    let k0 = choose|k: int| 0 <= k < d.len() && (#[trigger] d[k]).date
                        == psd[j].0;
                    assert(es[k0].date == ps[j].0);
                } else {
                    assert(es[es.len() - 1].date == ps[j].0);
                }
            }
        } else {
            assert(ps == psd.update(f, (c, psd[f].1 + e.amount)));
            assert(ps.len() == psd.len());
            assert(forall|j: int| 0 <= j < ps.len() ==> (#[trigger] ps[j]).0 == psd[j].0);
            assert forall|j: int| 0 <= j < ps.len() implies (#[trigger] ps[j]).1 == sum_for_date(
                es,
                ps[j].0,
            ) by {
                if j == f {
                    assert(ps[j].1 == psd[f].1 + e.amount);
                } else {
                    assert(ps[j] == psd[j]);
                    assert(psd[j].0 != c);
                    assert(sum_for_date(es, ps[j].0) == sum_for_date(d, ps[j].0));
                }
            }
            assert forall|k: int| 0 <= k < es.len() implies date_present(
                ps,
                (#[trigger] es[k]).date,
            ) by {
                if k < es.len() - 1 {
                    assert(date_present(psd, d[k].date));
                    let j0 = choose|j: int| 0 <= j < psd.len() && (#[trigger] psd[j]).0
                        == d[k].date;
                    assert(ps[j0].0 == psd[j0].0);
                    assert(ps[j0].0 == es[k].date);
                } else {
                    assert(ps[f].0 == es[k].date);
                }
            }
            assert forall|j: int| 0 <= j < ps.len() implies date_used(
                es,
                (#[trigger] ps[j]).0,
            ) by {
                assert(date_used(d, psd[j].0));
                let k0 = choose|k: int| 0 <= k < d.len() && (#[trigger] d[k]).date == psd[j].0;
                assert(es[k0].date == ps[j].0);
            }
        }
    }
}

} // verus!
