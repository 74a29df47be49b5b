use crate::bytes::{
    lit_amount_key, lit_amount_key_vec, lit_cat_key, lit_cat_key_vec, lit_desc_key,
    lit_desc_key_vec, lit_entertainment, lit_entertainment_vec, lit_food, lit_food_vec,
    lit_obj_close, lit_obj_close_vec, lit_obj_open, lit_obj_open_vec, lit_other, lit_other_vec,
    lit_transport, lit_transport_vec, lit_date_key, lit_date_key_vec, match_at, match_at_vec,
    push_all,
};
use crate::date::{date_bytes, lemma_parse_date_bytes, parse_date, parse_date_at, push_date};
use crate::expense::{cat_name, push_category, seq_view, Category, Expense, ExpenseV};
use crate::num::{
    i64_digits, is_digit, lemma_parse_i64_digits, lemma_parse_u64_digits, parse_i64, parse_i64_at,
    parse_u64, parse_u64_at, push_i64, push_u64, u64_digits,
};
use vstd::prelude::*;

verus! {

pub open spec fn quote() -> u8 {
    '"' as u8
}

pub open spec fn backslash() -> u8 {
    '\\' as u8
}

pub open spec fn is_hex(b: u8) -> bool {
    is_digit(b) || ('a' as u8) <= b <= ('f' as u8)
}

pub open spec fn hex_digit(x: int) -> u8 {
    if x < 10 {
        (('0' as u8) + x) as u8
    } else {
        (('a' as u8) + (x - 10)) as u8
    }
}

pub open spec fn hex_val(b: u8) -> int {
    if is_digit(b) {
        b - ('0' as u8)
    } else {
        b - ('a' as u8) + 10
    }
}

/// How one byte stands inside a quoted string: quotes and backslashes behind a
/// backslash, control bytes as `\u00xx`, everything else as itself.
pub open spec fn esc_byte(b: u8) -> Seq<u8> {
    if b == quote() {
        seq![backslash(), quote()]
    } else if b == backslash() {
        seq![backslash(), backslash()]
    } else if b < 0x20 {
        seq![
            backslash(),
            ('u' as u8),
            ('0' as u8),
            ('0' as u8),
            hex_digit(b as int / 16),
            hex_digit(b as int % 16),
        ]
    } else {
        seq![b]
    }
}

/// A whole byte string under the escaping of `esc_byte`, without the
/// surrounding quotes.
pub open spec fn esc_bytes(s: Seq<u8>) -> Seq<u8>
    decreases s.len(),
{
    if s.len() == 0 {
        Seq::empty()
    } else {
        esc_byte(s[0]) + esc_bytes(s.subrange(1, s.len() as int))
    }
}

pub proof fn lemma_esc_bytes_push(s: Seq<u8>, b: u8)
    ensures
        esc_bytes(s.push(b)) == esc_bytes(s) + esc_byte(b),
    decreases s.len(),
{
    let t = s.push(b);
    if s.len() == 0 {
        assert(t[0] == b);
        assert(t.subrange(1, 1) =~= Seq::<u8>::empty());
        assert(esc_bytes(t.subrange(1, 1)) == Seq::<u8>::empty());
        assert(esc_bytes(s) == Seq::<u8>::empty());
        assert(esc_bytes(t) =~= esc_bytes(s) + esc_byte(b));
    } else {
        let tail = s.subrange(1, s.len() as int);
        assert(t[0] == s[0]);
        assert(t.subrange(1, t.len() as int) =~= tail.push(b));
        lemma_esc_bytes_push(tail, b);
        assert(esc_bytes(t) == esc_byte(s[0]) + esc_bytes(t.subrange(1, t.len() as int)));
        assert(esc_byte(s[0]) + (esc_bytes(tail) + esc_byte(b)) =~= (esc_byte(s[0]) + esc_bytes(
            tail,
        )) + esc_byte(b));
        assert(esc_bytes(s) == esc_byte(s[0]) + esc_bytes(tail));
    }
}

/// Appends the escaped form of `s`.
pub fn push_escaped(out: &mut Vec<u8>, s: &Vec<u8>)
    ensures
        final(out)@ == old(out)@ + esc_bytes(s@),
{
    let n = s.len();
    let mut k: usize = 0;
    while k < n
        invariant
            k <= n == s@.len(),
            out@ == old(out)@ + esc_bytes(s@.take(k as int)),
        decreases n - k,
    {
        let b = s[k];
        proof {
            lemma_esc_bytes_push(s@.take(k as int), b);
            assert(s@.take(k + 1) =~= s@.take(k as int).push(b));
        }
        if b == ('"' as u8) {
            out.push('\\' as u8);
            out.push('"' as u8);
        } else if b == ('\\' as u8) {
            out.push('\\' as u8);
            out.push('\\' as u8);
        } else if b < 0x20 {
            out.push('\\' as u8);
            out.push('u' as u8);
            out.push('0' as u8);
            out.push('0' as u8);
            out.push(('0' as u8) + b / 16);
            out.push(if b % 16 < 10 {
                ('0' as u8) + b % 16
            } else {
                ('a' as u8) + (b % 16 - 10)
            });
        } else {
            out.push(b);
        }
        proof {
            assert(out@ =~= old(out)@ + esc_bytes(s@.take(k + 1)));
        }
        k = k + 1;
    }
    proof {
        assert(s@.take(n as int) =~= s@);
    }
}

pub open spec fn str_cons(b: u8, rest: Option<(Seq<u8>, int)>) -> Option<(Seq<u8>, int)> {
    match rest {
        Some(p) => Some((seq![b] + p.0, p.1)),
        None => None,
    }
}

/// Reads a quoted string's body at `i`, up to and through its closing quote:
/// the unescaped bytes and the position after the quote.
pub open spec fn parse_str_body(s: Seq<u8>, i: int) -> Option<(Seq<u8>, int)>
    decreases s.len() - i when 0 <= i <= s.len()
{
    if i >= s.len() {
        None
    } else if s[i] == quote() {
        Some((Seq::empty(), i + 1))
    } else if s[i] == backslash() {
        if i + 1 < s.len() && s[i + 1] == quote() {
            str_cons(quote(), parse_str_body(s, i + 2))
        } else if i + 1 < s.len() && s[i + 1] == backslash() {
            str_cons(backslash(), parse_str_body(s, i + 2))
        } else if i + 5 < s.len() && s[i + 1] == ('u' as u8) && s[i + 2] == ('0' as u8) && s[i + 3]
            == ('0' as u8) && is_hex(s[i + 4]) && is_hex(s[i + 5]) {
            str_cons((hex_val(s[i + 4]) * 16 + hex_val(s[i + 5])) as u8, parse_str_body(s, i + 6))
        } else {
            None
        }
    } else if s[i] < 0x20 {
        None
    } else {
        str_cons(s[i], parse_str_body(s, i + 1))
    }
}

pub fn parse_str_body_at(s: &Vec<u8>, i: usize) -> (r: Option<(Vec<u8>, usize)>)
    requires
        i <= s@.len(),
    ensures
        match r {
            Some(p) => parse_str_body(s@, i as int) == Some((p.0@, p.1 as int)) && i < p.1
                <= s@.len(),
            None => parse_str_body(s@, i as int) is None,
        },
{
    let n = s.len();
    let mut cur: usize = i;
    let mut acc: Vec<u8> = Vec::new();
    while cur < n
        invariant
            i <= cur <= n == s@.len(),
            parse_str_body(s@, i as int) == (match parse_str_body(s@, cur as int) {
                Some(p) => Some((acc@ + p.0, p.1)),
                None => None::<(Seq<u8>, int)>,
            }),
        decreases n - cur,
    {
        let b = s[cur];
        if b == ('"' as u8) {
            proof {
                assert(acc@ + Seq::<u8>::empty() =~= acc@);
            }
            return Some((acc, cur + 1));
        } else if b == ('\\' as u8) {
            if cur + 1 < n && s[cur + 1] == ('"' as u8) {
                proof {
                    str_cons_assoc(acc@, quote(), parse_str_body(s@, cur + 2));
                }
                acc.push('"' as u8);
                cur = cur + 2;
            } else if cur + 1 < n && s[cur + 1] == ('\\' as u8) {
                proof {
                    str_cons_assoc(acc@, backslash(), parse_str_body(s@, cur + 2));
                }
                acc.push('\\' as u8);
                cur = cur + 2;
            } else if n - cur > 5 && s[cur + 1] == ('u' as u8) && s[cur + 2] == ('0' as u8) && s[cur
                + 3] == ('0' as u8) && is_hex_at(s[cur + 4]) && is_hex_at(s[cur + 5]) {
                let h1 = hex_val_at(s[cur + 4]);
                let h0 = hex_val_at(s[cur + 5]);
                let v: u8 = h1 * 16 + h0;
                proof {
                    str_cons_assoc(acc@, v, parse_str_body(s@, cur + 6));
                }
                acc.push(v);
                cur = cur + 6;
            } else {
                return None;
            }
        } else if b < 0x20 {
            return None;
        } else {
            proof {
                str_cons_assoc(acc@, b, parse_str_body(s@, cur + 1));
            }
            acc.push(b);
            cur = cur + 1;
        }
    }
    None
}

proof fn str_cons_assoc(a: Seq<u8>, b: u8, rest: Option<(Seq<u8>, int)>)
    ensures
        (match str_cons(b, rest) {
            Some(p) => Some((a + p.0, p.1)),
            None => None::<(Seq<u8>, int)>,
        }) == (match rest {
            Some(p) => Some(((a.push(b)) + p.0, p.1)),
            None => None::<(Seq<u8>, int)>,
        }),
{
    match rest {
        Some(p) => {
            assert(a + (seq![b] + p.0) =~= a.push(b) + p.0);
        },
        None => {},
    }
}

fn is_hex_at(b: u8) -> (r: bool)
    ensures
        r == is_hex(b),
{
    (('0' as u8) <= b && b <= ('9' as u8)) || (('a' as u8) <= b && b <= ('f' as u8))
}

fn hex_val_at(b: u8) -> (r: u8)
    requires
        is_hex(b),
    ensures
        r as int == hex_val(b),
        r < 16,
{
    if b <= ('9' as u8) {
        b - ('0' as u8)
    } else {
        b - ('a' as u8) + 10
    }
}

/// Parsing a rendered string body reads the same bytes back.
pub proof fn lemma_parse_str_esc(s: Seq<u8>, i: int, d: Seq<u8>)
    requires
        0 <= i,
        i + esc_bytes(d).len() + 1 <= s.len(),
        s.subrange(i, i + esc_bytes(d).len()) == esc_bytes(d),
        s[i + esc_bytes(d).len()] == quote(),
    ensures
        parse_str_body(s, i) == Some((d, i + esc_bytes(d).len() + 1)),
    decreases d.len(),
{
    let e = esc_bytes(d);
    assert forall|k: int| 0 <= k < e.len() implies s[i + k] == e[k] by {
        assert(s.subrange(i, i + e.len())[k] == s[i + k]);
    }
    if d.len() == 0 {
        assert(s[i] == quote());
    } else {
        let b = d[0];
        let rest = d.subrange(1, d.len() as int);
        let e0 = esc_byte(b);
        let er = esc_bytes(rest);
        assert(e == e0 + er);
        assert forall|k: int| 0 <= k < e0.len() implies s[i + k] == e0[k] by {
            assert(e[k] == e0[k]);
        }
        let j = i + e0.len();
        assert(s.subrange(j, j + er.len()) =~= er) by {
            assert forall|k: int| 0 <= k < er.len() implies s.subrange(j, j + er.len())[k]
                == er[k] by {
                assert(s[j + k] == e[e0.len() + k]);
            }
        }
        assert(s[j + er.len()] == quote());
        lemma_parse_str_esc(s, j, rest);
        if b == quote() {
            assert(s[i] == backslash() && s[i + 1] == quote());
            assert(parse_str_body(s, i) == str_cons(quote(), parse_str_body(s, i + 2)));
            assert(seq![b] + rest =~= d);
        } else if b == backslash() {
            assert(s[i] == backslash() && s[i + 1] == backslash());
            assert(seq![b] + rest =~= d);
        } else if b < 0x20 {
            assert(s[i] == backslash() && s[i + 1] == ('u' as u8));
            assert(s[i + 2] == ('0' as u8) && s[i + 3] == ('0' as u8));
            assert(s[i + 4] == hex_digit(b as int / 16) && s[i + 5] == hex_digit(b as int % 16));
            assert(b as int / 16 < 10);
            assert(is_hex(s[i + 4]) && is_hex(s[i + 5]));
            vstd::arithmetic::div_mod::lemma_fundamental_div_mod(b as int, 16);
            assert(hex_val(s[i + 4]) * 16 + hex_val(s[i + 5]) == b);
            assert(seq![b] + rest =~= d);
        } else {
            assert(e0 == seq![b]);
            assert(s[i + 0] == e0[0]);
            assert(s[i] == b);
            assert(seq![b] + rest =~= d);
        }
    }
}


/// Reads a category name at `i`.
pub open spec fn parse_cat(s: Seq<u8>, i: int) -> Option<(Category, int)> {
    if match_at(s, i, lit_food()) {
        Some((Category::Food, i + lit_food().len()))
    } else if match_at(s, i, lit_transport()) {
        Some((Category::Transport, i + lit_transport().len()))
    } else if match_at(s, i, lit_entertainment()) {
        Some((Category::Entertainment, i + lit_entertainment().len()))
    } else if match_at(s, i, lit_other()) {
        Some((Category::Other, i + lit_other().len()))
    } else {
        None
    }
}

pub fn parse_cat_at(s: &Vec<u8>, i: usize) -> (r: Option<(Category, usize)>)
    requires
        i <= s@.len(),
    ensures
        match r {
            Some(p) => parse_cat(s@, i as int) == Some((p.0, p.1 as int)) && i < p.1 <= s@.len(),
            None => parse_cat(s@, i as int) is None,
        },
{
    let n = s.len();
    if match_at_vec(s, i, &lit_food_vec()) {
        Some((Category::Food, i + 4))
    } else if match_at_vec(s, i, &lit_transport_vec()) {
        Some((Category::Transport, i + 9))
    } else if match_at_vec(s, i, &lit_entertainment_vec()) {
        Some((Category::Entertainment, i + 13))
    } else if match_at_vec(s, i, &lit_other_vec()) {
        Some((Category::Other, i + 5))
    } else {
        None
    }
}

/// One record of the file: a JSON object whose fields stand in the fixed
/// order id, description, amount, date, category.
pub open spec fn render_rec(e: ExpenseV) -> Seq<u8> {
    lit_obj_open() + (u64_digits(e.id as nat) + (lit_desc_key() + (esc_bytes(e.description) + (
    seq![quote()] + (lit_amount_key() + (i64_digits(e.amount) + (lit_date_key() + (date_bytes(
        e.date,
    ) + (lit_cat_key() + (cat_name(e.category) + lit_obj_close()))))))))))
}

/// Appends the file text of one record.
#[verifier::rlimit(60)]
pub fn push_record(out: &mut Vec<u8>, e: &Expense)
    requires
        e@.wf(),
    ensures
        final(out)@ == old(out)@ + render_rec(e@),
{
    push_all(out, &lit_obj_open_vec());
    push_u64(out, e.id as u64);
    push_all(out, &lit_desc_key_vec());
    push_escaped(out, &e.description);
    out.push('"' as u8);
    push_all(out, &lit_amount_key_vec());
    push_i64(out, e.amount);
    push_all(out, &lit_date_key_vec());
    push_date(out, e.date);
    push_all(out, &lit_cat_key_vec());
    push_category(out, e.category);
    push_all(out, &lit_obj_close_vec());
    proof {
        assert(out@ =~= old(out)@ + render_rec(e@));
    }
}

/// Reads one record at `i`: the record and the position after its closing
/// brace.
pub open spec fn parse_rec(s: Seq<u8>, i: int) -> Option<(ExpenseV, int)> {
    if !match_at(s, i, lit_obj_open()) {
        None
    } else {
        match parse_u64(s, i + lit_obj_open().len()) {
            None => None,
            Some(idp) => if idp.0 > i64::MAX || !match_at(s, idp.1, lit_desc_key()) {
                None
            } else {
                match parse_str_body(s, idp.1 + lit_desc_key().len()) {
                    None => None,
                    Some(dp) => if !match_at(s, dp.1, lit_amount_key()) {
                        None
                    } else {
                        match parse_i64(s, dp.1 + lit_amount_key().len()) {
                            None => None,
                            Some(ap) => if !match_at(s, ap.1, lit_date_key()) {
                                None
                            } else {
                                match parse_date(s, ap.1 + lit_date_key().len()) {
                                    None => None,
                                    Some(datep) => if !match_at(s, datep.1, lit_cat_key()) {
                                        None
                                    } else {
                                        match parse_cat(s, datep.1 + lit_cat_key().len()) {
                                            None => None,
                                            Some(cp) => if !match_at(s, cp.1, lit_obj_close()) {
                                                None
                                            } else {
                                                Some(
                                                    (
                                                        ExpenseV {
                                                            id: idp.0,
                                                            description: dp.0,
                                                            amount: ap.0,
                                                            date: datep.0,
                                                            category: cp.0,
                                                        },
                                                        cp.1 + lit_obj_close().len(),
                                                    ),
                                                )
                                            },
                                        }
                                    },
                                }
                            },
                        }
                    },
                }
            },
        }
    }
}

pub fn parse_rec_at(s: &Vec<u8>, i: usize) -> (r: Option<(Expense, usize)>)
    requires
        i <= s@.len(),
    ensures
        match r {
            Some(p) => parse_rec(s@, i as int) == Some((p.0@, p.1 as int)) && i < p.1 <= s@.len()
                && p.0@.wf(),
            None => parse_rec(s@, i as int) is None,
        },
{
    let n = s.len();
    if !match_at_vec(s, i, &lit_obj_open_vec()) {
        return None;
    }
    let (id_u, p2) = match parse_u64_at(s, i + 6) {
        Some(x) => x,
        None => {
            return None;
        },
    };
    if id_u > (i64::MAX as u64) {
        return None;
    }
    if !match_at_vec(s, p2, &lit_desc_key_vec()) {
        return None;
    }
    let (desc, p3) = match parse_str_body_at(s, p2 + 16) {
        Some(x) => x,
        None => {
            return None;
        },
    };
    if !match_at_vec(s, p3, &lit_amount_key_vec()) {
        return None;
    }
    let (amount, p4) = match parse_i64_at(s, p3 + 10) {
        Some(x) => x,
        None => {
            return None;
        },
    };
    if !match_at_vec(s, p4, &lit_date_key_vec()) {
        return None;
    }
    let (date, p5) = match parse_date_at(s, p4 + 9) {
        Some(x) => x,
        None => {
            return None;
        },
    };
    if !match_at_vec(s, p5, &lit_cat_key_vec()) {
        return None;
    }
    let (cat, p6) = match parse_cat_at(s, p5 + 14) {
        Some(x) => x,
        None => {
            return None;
        },
    };
    if !match_at_vec(s, p6, &lit_obj_close_vec()) {
        return None;
    }
    Some((Expense { id: id_u as i64, description: desc, amount, date, category: cat }, p6 + 2))
}

/// Reads one or more comma-separated records at `i`.
pub open spec fn parse_recs(s: Seq<u8>, i: int) -> Option<(Seq<ExpenseV>, int)>
    decreases s.len() - i when 0 <= i <= s.len()
{
    match parse_rec(s, i) {
        None => None,
        Some(p) => if !(i < p.1 <= s.len()) {
            None
        } else if p.1 < s.len() && s[p.1] == (',' as u8) {
            match parse_recs(s, p.1 + 1) {
                None => None,
                Some(q) => Some((seq![p.0] + q.0, q.1)),
            }
        } else {
            Some((seq![p.0], p.1))
        },
    }
}

pub fn parse_recs_at(s: &Vec<u8>, i: usize) -> (r: Option<(Vec<Expense>, usize)>)
    requires
        i <= s@.len(),
    ensures
        match r {
            Some(p) => parse_recs(s@, i as int) == Some((seq_view(p.0@), p.1 as int)) && i < p.1
                <= s@.len() && (forall|t: int|
                0 <= t < p.0@.len() ==> (#[trigger] p.0@[t])@.wf()),
            None => parse_recs(s@, i as int) is None,
        },
    decreases s@.len() - i,
{
    let (e, j) = match parse_rec_at(s, i) {
        Some(x) => x,
        None => {
            return None;
        },
    };
    if j < s.len() && s[j] == (',' as u8) {
        match parse_recs_at(s, j + 1) {
            Some((mut v, k)) => {
                proof {
                    assert(seq_view(v@.insert(0, e)) =~= seq![e@] + seq_view(v@));
                }
                v.insert(0, e);
                Some((v, k))
            },
            None => None,
        }
    } else {
        let mut v: Vec<Expense> = Vec::new();
        v.push(e);
        proof {
            assert(seq_view(v@) =~= seq![e@]);
        }
        Some((v, j))
    }
}

/// The whole file: a JSON array of records, nothing before or after it.
pub open spec fn spec_parse(s: Seq<u8>) -> Option<Seq<ExpenseV>> {
    if s.len() < 2 || s[0] != ('[' as u8) {
        None
    } else if s.len() == 2 && s[1] == (']' as u8) {
        Some(Seq::empty())
    } else {
        match parse_recs(s, 1) {
            None => None,
            Some(p) => if p.1 + 1 == s.len() && s[p.1] == (']' as u8) {
                Some(p.0)
            } else {
                None
            },
        }
    }
}

/// Decodes a whole file. Fails on anything that is not exactly a JSON array
/// of records in the file's own format.
pub fn parse_expenses(s: &Vec<u8>) -> (r: Option<Vec<Expense>>)
    ensures
        match r {
            Some(v) => spec_parse(s@) == Some(seq_view(v@)) && (forall|t: int|
                0 <= t < v@.len() ==> (#[trigger] v@[t])@.wf()),
            None => spec_parse(s@) is None,
        },
{
    if s.len() < 2 {
        return None;
    }
    if s[0] != ('[' as u8) {
        return None;
    }
    if s.len() == 2 {
        if s[1] == (']' as u8) {
            let v: Vec<Expense> = Vec::new();
            proof {
                assert(seq_view(v@) =~= Seq::<ExpenseV>::empty());
            }
            return Some(v);
        } else {
            return None;
        }
    }
    match parse_recs_at(s, 1) {
        None => None,
        Some((v, j)) => {
            if j == s.len() - 1 && s[j] == (']' as u8) {
                Some(v)
            } else {
                None
            }
        },
    }
}

/// The file text of a sequence of records, without the surrounding brackets.
pub open spec fn render_recs(es: Seq<ExpenseV>) -> Seq<u8>
    decreases es.len(),
{
    if es.len() == 0 {
        Seq::empty()
    } else if es.len() == 1 {
        render_rec(es[0])
    } else {
        render_rec(es[0]) + (seq![(',' as u8)] + render_recs(es.subrange(1, es.len() as int)))
    }
}

/// The file text of a whole collection: a JSON array of records.
pub open spec fn spec_render(es: Seq<ExpenseV>) -> Seq<u8> {
    seq![('[' as u8)] + (render_recs(es) + seq![(']' as u8)])
}

pub proof fn lemma_render_recs_push(es: Seq<ExpenseV>, e: ExpenseV)
    ensures
        render_recs(es.push(e)) == if es.len() == 0 {
            render_rec(e)
        } else {
            render_recs(es) + (seq![(',' as u8)] + render_rec(e))
        },
    decreases es.len(),
{
    let t = es.push(e);
    if es.len() == 0 {
        assert(t.len() == 1 && t[0] == e);
    } else if es.len() == 1 {
        assert(t[0] == es[0]);
        assert(t.subrange(1, 2) =~= seq![e]);
        assert(render_recs(seq![e]) == render_rec(e));
        assert(render_recs(t) == render_rec(es[0]) + (seq![(',' as u8)] + render_rec(e)));
        assert(render_recs(es) == render_rec(es[0]));
    } else {
        let tail = es.subrange(1, es.len() as int);
        assert(t[0] == es[0]);
        assert(t.subrange(1, t.len() as int) =~= tail.push(e));
        lemma_render_recs_push(tail, e);
        assert(render_recs(t) == render_rec(es[0]) + (seq![(',' as u8)] + render_recs(
            tail.push(e),
        )));
        assert(render_rec(es[0]) + (seq![(',' as u8)] + (render_recs(tail) + (seq![(',' as u8)]
            + render_rec(e)))) =~= (render_rec(es[0]) + (seq![(',' as u8)] + render_recs(tail)))
            + (seq![(',' as u8)] + render_rec(e)));
    }
}

/// Encodes a whole collection as the file holds it.
pub fn render_expenses(records: &Vec<Expense>) -> (r: Vec<u8>)
    requires
        forall|t: int| 0 <= t < records@.len() ==> (#[trigger] seq_view(records@)[t]).wf(),
    ensures
        r@ == spec_render(seq_view(records@)),
{
    let ghost es = seq_view(records@);
    let n = records.len();
    let mut out: Vec<u8> = Vec::new();
    out.push('[' as u8);
    let mut k: usize = 0;
    while k < n
        invariant
            k <= n == records@.len(),
            es == seq_view(records@),
            forall|t: int| 0 <= t < records@.len() ==> (#[trigger] seq_view(records@)[t]).wf(),
            out@ == seq![('[' as u8)] + render_recs(es.take(k as int)),
        decreases n - k,
    {
        let e = &records[k];
        if k > 0 {
            out.push(',' as u8);
        }
        proof {
            assert(e@ == es[k as int]);
        }
        push_record(&mut out, e);
        proof {
            assert(es[k as int] == records@[k as int]@);
            assert(es.take(k + 1) =~= es.take(k as int).push(e@));
            lemma_render_recs_push(es.take(k as int), e@);
            if k == 0 {
                assert(es.take(0int) =~= Seq::<ExpenseV>::empty());
                assert(render_recs(es.take(0int)) == Seq::<u8>::empty());
                assert(out@ =~= seq![('[' as u8)] + render_recs(es.take(k + 1)));
            } else {
                assert(out@ =~= seq![('[' as u8)] + render_recs(es.take(k + 1)));
            }
        }
        k = k + 1;
    }
    out.push(']' as u8);
    proof {
        assert(es.take(n as int) =~= es);
        assert(out@ =~= spec_render(es));
    }
    out
}


pub proof fn lemma_subrange_concat(s: Seq<u8>, i: int, a: Seq<u8>, b: Seq<u8>)
    requires
        0 <= i,
        i + a.len() + b.len() <= s.len(),
        s.subrange(i, i + a.len() + b.len()) == a + b,
    ensures
        s.subrange(i, i + a.len()) == a,
        s.subrange(i + a.len(), i + a.len() + b.len()) == b,
{
    let w = a + b;
    assert forall|k: int| 0 <= k < w.len() implies s[i + k] == w[k] by {
        assert(s.subrange(i, i + w.len())[k] == s[i + k]);
    }
    assert(s.subrange(i, i + a.len()) =~= a) by {
        assert forall|k: int| 0 <= k < a.len() implies s.subrange(i, i + a.len())[k] == a[k] by {
            assert(s[i + k] == w[k]);
        }
    }
    assert(s.subrange(i + a.len(), i + a.len() + b.len()) =~= b) by {
        assert forall|k: int| 0 <= k < b.len() implies s.subrange(
            i + a.len(),
            i + a.len() + b.len(),
        )[k] == b[k] by {
            assert(s[i + a.len() + k] == w[a.len() + k]);
        }
    }
}

/// Parsing a rendered category name reads the same category back.
pub proof fn lemma_parse_cat_name(s: Seq<u8>, i: int, c: Category)
    requires
        0 <= i,
        i + cat_name(c).len() <= s.len(),
        s.subrange(i, i + cat_name(c).len()) == cat_name(c),
    ensures
        parse_cat(s, i) == Some((c, i + cat_name(c).len())),
{
    let w = cat_name(c);
    assert forall|k: int| 0 <= k < w.len() implies s[i + k] == w[k] by {
        assert(s.subrange(i, i + w.len())[k] == s[i + k]);
    }
    match c {
        Category::Food => {
            assert(match_at(s, i, lit_food()));
        },
        Category::Transport => {
            assert(s[i + 0] == ('T' as u8));
            assert(!match_at(s, i, lit_food()));
            assert(match_at(s, i, lit_transport()));
        },
        Category::Entertainment => {
            assert(s[i + 0] == ('E' as u8));
            assert(!match_at(s, i, lit_food()));
            assert(!match_at(s, i, lit_transport()));
            assert(match_at(s, i, lit_entertainment()));
        },
        Category::Other => {
            assert(s[i + 0] == ('O' as u8));
            assert(!match_at(s, i, lit_food()));
            assert(!match_at(s, i, lit_transport()));
            assert(!match_at(s, i, lit_entertainment()));
            assert(match_at(s, i, lit_other()));
        },
    }
}

/// Parsing a rendered record reads the same record back.
#[verifier::rlimit(100)]
pub proof fn lemma_parse_rec_render(s: Seq<u8>, i: int, e: ExpenseV)
    requires
        e.wf(),
        0 <= i,
        i + render_rec(e).len() <= s.len(),
        s.subrange(i, i + render_rec(e).len()) == render_rec(e),
    ensures
        parse_rec(s, i) == Some((e, i + render_rec(e).len())),
{
    let d1 = u64_digits(e.id as nat);
    let d2 = esc_bytes(e.description);
    let d3 = i64_digits(e.amount);
    let d4 = date_bytes(e.date);
    let d5 = cat_name(e.category);
    let t11 = d5 + lit_obj_close();
    let t10 = lit_cat_key() + t11;
    let t9 = d4 + t10;
    let t8 = lit_date_key() + t9;
    let t7 = d3 + t8;
    let t6 = lit_amount_key() + t7;
    let t5 = seq![quote()] + t6;
    let t4 = d2 + t5;
    let t3 = lit_desc_key() + t4;
    let t2 = d1 + t3;
    assert(render_rec(e) =~= lit_obj_open() + t2) by {
        assert(render_rec(e) == lit_obj_open() + (d1 + (lit_desc_key() + (d2 + (seq![quote()] + (
        lit_amount_key() + (d3 + (lit_date_key() + (d4 + (lit_cat_key() + (d5
            + lit_obj_close())))))))))));
        assert(d1 + (lit_desc_key() + (d2 + (seq![quote()] + (lit_amount_key() + (d3 + (
        lit_date_key() + (d4 + (lit_cat_key() + (d5 + lit_obj_close()))))))))) =~= t2);
    }
    let o1 = i + lit_obj_open().len();
    lemma_subrange_concat(s, i, lit_obj_open(), t2);
    let o2 = o1 + d1.len();
    lemma_subrange_concat(s, o1, d1, t3);
    let o3 = o2 + lit_desc_key().len();
    lemma_subrange_concat(s, o2, lit_desc_key(), t4);
    let o4 = o3 + d2.len();
    lemma_subrange_concat(s, o3, d2, t5);
    let o5 = o4 + 1;
    lemma_subrange_concat(s, o4, seq![quote()], t6);
    let o6 = o5 + lit_amount_key().len();
    lemma_subrange_concat(s, o5, lit_amount_key(), t7);
    let o7 = o6 + d3.len();
    lemma_subrange_concat(s, o6, d3, t8);
    let o8 = o7 + lit_date_key().len();
    lemma_subrange_concat(s, o7, lit_date_key(), t9);
    let o9 = o8 + d4.len();
    lemma_subrange_concat(s, o8, d4, t10);
    let o10 = o9 + lit_cat_key().len();
    lemma_subrange_concat(s, o9, lit_cat_key(), t11);
    let o11 = o10 + d5.len();
    lemma_subrange_concat(s, o10, d5, lit_obj_close());
    let o12 = o11 + lit_obj_close().len();
    assert(match_at(s, i, lit_obj_open()));
    // the id digits end at a comma, which is no digit
    assert(s[o2] == lit_desc_key()[0]) by {
        assert(s.subrange(o2, o2 + lit_desc_key().len())[0] == s[o2 + 0]);
    }
    lemma_parse_u64_digits(s, o1, e.id as u64);
    assert(parse_u64(s, o1) == Some((e.id, o2)));
    assert(match_at(s, o2, lit_desc_key()));
    // the description body ends at its closing quote
    assert(s[o4] == quote()) by {
        assert(s.subrange(o4, o4 + 1)[0] == s[o4 + 0]);
        assert(seq![quote()][0] == quote());
    }
    lemma_parse_str_esc(s, o3, e.description);
    assert(parse_str_body(s, o3) == Some((e.description, o5)));
    assert(match_at(s, o5, lit_amount_key()));
    // the amount digits end at a comma, which is no digit
    assert(s[o7] == lit_date_key()[0]) by {
        assert(s.subrange(o7, o7 + lit_date_key().len())[0] == s[o7 + 0]);
    }
    lemma_parse_i64_digits(s, o6, e.amount as i64);
    assert(parse_i64(s, o6) == Some((e.amount, o7)));
    assert(match_at(s, o7, lit_date_key()));
    lemma_parse_date_bytes(s, o8, e.date);
    assert(parse_date(s, o8) == Some((e.date, o9)));
    assert(match_at(s, o9, lit_cat_key()));
    lemma_parse_cat_name(s, o10, e.category);
    assert(parse_cat(s, o10) == Some((e.category, o11)));
    assert(match_at(s, o11, lit_obj_close()));
    assert(parse_rec(s, i) == Some(
        (
            ExpenseV {
                id: e.id,
                description: e.description,
                amount: e.amount,
                date: e.date,
                category: e.category,
            },
            o12,
        ),
    ));
    assert(e == (ExpenseV {
        id: e.id,
        description: e.description,
        amount: e.amount,
        date: e.date,
        category: e.category,
    }));
    assert(o12 == i + render_rec(e).len());
}

/// Parsing rendered records, up to a closing bracket, reads them all back.
pub proof fn lemma_parse_recs_render(s: Seq<u8>, i: int, es: Seq<ExpenseV>)
    requires
        es.len() > 0,
        forall|k: int| 0 <= k < es.len() ==> (#[trigger] es[k]).wf(),
        0 <= i,
        i + render_recs(es).len() < s.len(),
        s.subrange(i, i + render_recs(es).len()) == render_recs(es),
        s[i + render_recs(es).len()] == (']' as u8),
    ensures
        parse_recs(s, i) == Some((es, i + render_recs(es).len())),
    decreases es.len(),
{
    if es.len() == 1 {
        assert(render_recs(es) == render_rec(es[0]));
        lemma_parse_rec_render(s, i, es[0]);
        let j = i + render_rec(es[0]).len();
        assert(s[j] == (']' as u8));
        assert(parse_recs(s, i) == Some((seq![es[0]], j)));
        assert(seq![es[0]] =~= es);
    } else {
        let rest = es.subrange(1, es.len() as int);
        let r0 = render_rec(es[0]);
        let tail = seq![(',' as u8)] + render_recs(rest);
        assert(render_recs(es) == r0 + tail);
        lemma_subrange_concat(s, i, r0, tail);
        let j = i + r0.len();
        lemma_subrange_concat(s, j, seq![(',' as u8)], render_recs(rest));
        lemma_parse_rec_render(s, i, es[0]);
        assert(s[j] == (',' as u8)) by {
            assert(s.subrange(j, j + 1)[0] == s[j + 0]);
            assert(seq![(',' as u8)][0] == (',' as u8));
        }
        assert(forall|k: int| 0 <= k < rest.len() ==> (#[trigger] rest[k]).wf()) by {
            assert(forall|k: int| 0 <= k < rest.len() ==> rest[k] == es[k + 1]);
        }
        assert(s[j + 1 + render_recs(rest).len()] == (']' as u8));
        lemma_parse_recs_render(s, j + 1, rest);
        assert(parse_recs(s, i) == Some((seq![es[0]] + rest, j + 1 + render_recs(rest).len())));
        assert(seq![es[0]] + rest =~= es);
    }
}

/// Decoding what was encoded yields the same collection: the file format
/// loses nothing.
pub proof fn lemma_render_parse(es: Seq<ExpenseV>)
    requires
        forall|k: int| 0 <= k < es.len() ==> (#[trigger] es[k]).wf(),
    ensures
        spec_parse(spec_render(es)) == Some(es),
{
    let s = spec_render(es);
    let l: int = render_recs(es).len() as int;
    assert(s.len() == 2 + l);
    assert(s[0] == ('[' as u8));
    assert(s[1 + l] == (']' as u8));
    if es.len() == 0 {
        assert(render_recs(es) == Seq::<u8>::empty());
        assert(s.len() == 2 && s[1] == (']' as u8));
        assert(spec_parse(s) == Some(Seq::<ExpenseV>::empty()));
        assert(Seq::<ExpenseV>::empty() =~= es);
    } else {
        assert(render_rec(es[0]).len() >= lit_obj_open().len()) by {
            assert(render_rec(es[0]) == lit_obj_open() + (u64_digits(es[0].id as nat) + (
            lit_desc_key() + (esc_bytes(es[0].description) + (seq![quote()] + (lit_amount_key() + (
            i64_digits(es[0].amount) + (lit_date_key() + (date_bytes(es[0].date) + (lit_cat_key()
                + (cat_name(es[0].category) + lit_obj_close())))))))))));
        }
        assert(l >= 6) by {
            if es.len() == 1 {
                assert(render_recs(es) == render_rec(es[0]));
            } else {
                assert(render_recs(es) == render_rec(es[0]) + (seq![(',' as u8)] + render_recs(
                    es.subrange(1, es.len() as int),
                )));
            }
        }
        assert(s.subrange(1, 1 + l) =~= render_recs(es)) by {
            assert forall|k: int| 0 <= k < l implies s.subrange(1, 1 + l)[k] == render_recs(es)[k]
                by {
                assert(s[1 + k] == (render_recs(es) + seq![(']' as u8)])[k]);
            }
        }
        lemma_parse_recs_render(s, 1, es);
        assert(spec_parse(s) == Some(es));
    }
}

} // verus!
