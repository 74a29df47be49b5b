use vstd::prelude::*;

verus! {

/// The fixed byte sequences of the file format and of the listing line.
///
/// `lit_*` gives each one as a ghost sequence; `lit_*_vec` builds the same
/// bytes at run time.

pub open spec fn match_at(s: Seq<u8>, i: int, lit: Seq<u8>) -> bool {
    0 <= i && i + lit.len() <= s.len() && s.subrange(i, i + lit.len()) == lit
}

/// Whether `lit` stands in `s` at position `i`.
pub fn match_at_vec(s: &Vec<u8>, i: usize, lit: &Vec<u8>) -> (r: bool)
    requires
        i <= s@.len(),
    ensures
        r == match_at(s@, i as int, lit@),
{
    let n = lit.len();
    let slen = s.len();
    if n > slen - i {
        assert(!match_at(s@, i as int, lit@));
        return false;
    }
    let mut k: usize = 0;
    while k < n
        invariant
            k <= n == lit@.len(),
            i + n <= slen == s@.len(),
            forall|t: int| 0 <= t < k ==> s@[i + t] == lit@[t],
        decreases n - k,
    {
        if s[i + k] != lit[k] {
            assert(s@.subrange(i as int, i + lit@.len())[k as int] == s@[i + k]);
            assert(!match_at(s@, i as int, lit@));
            return false;
        }
        k = k + 1;
    }
    assert(s@.subrange(i as int, i + lit@.len()) =~= lit@);
    true
}

/// Appends all of `src` to `out`.
pub fn push_all(out: &mut Vec<u8>, src: &Vec<u8>)
    ensures
        final(out)@ == old(out)@ + src@,
{
    let n = src.len();
    let mut k: usize = 0;
    while k < n
        invariant
            k <= n == src@.len(),
            out@ == old(out)@ + src@.subrange(0, k as int),
        decreases n - k,
    {
        out.push(src[k]);
        proof {
            assert(src@.subrange(0, k + 1).drop_last() =~= src@.subrange(0, k as int));
            assert(out@ =~= old(out)@ + src@.subrange(0, k + 1));
        }
        k = k + 1;
    }
    proof {
        assert(src@.subrange(0, src@.len() as int) =~= src@);
    }
}

pub open spec fn lit_obj_open() -> Seq<u8> {
    seq![('{' as u8), ('\"' as u8), ('i' as u8), ('d' as u8), ('\"' as u8), (':' as u8)]
}

pub fn lit_obj_open_vec() -> (r: Vec<u8>)
    ensures
        r@ == lit_obj_open(),
{
    let mut v: Vec<u8> = Vec::new();
    v.push(('{' as u8));
    v.push(('\"' as u8));
    v.push(('i' as u8));
    v.push(('d' as u8));
    v.push(('\"' as u8));
    v.push((':' as u8));
    proof {
        assert(v@ =~= lit_obj_open());
    }
    v
}

pub open spec fn lit_desc_key() -> Seq<u8> {
    seq![(',' as u8), ('\"' as u8), ('d' as u8), ('e' as u8), ('s' as u8), ('c' as u8), ('r' as u8), ('i' as u8), ('p' as u8), ('t' as u8), ('i' as u8), ('o' as u8), ('n' as u8), ('\"' as u8), (':' as u8), ('\"' as u8)]
}

pub fn lit_desc_key_vec() -> (r: Vec<u8>)
    ensures
        r@ == lit_desc_key(),
{
    let mut v: Vec<u8> = Vec::new();
    v.push((',' as u8));
    v.push(('\"' as u8));
    v.push(('d' as u8));
    v.push(('e' as u8));
    v.push(('s' as u8));
    v.push(('c' as u8));
    v.push(('r' as u8));
    v.push(('i' as u8));
    v.push(('p' as u8));
    v.push(('t' as u8));
    v.push(('i' as u8));
    v.push(('o' as u8));
    v.push(('n' as u8));
    v.push(('\"' as u8));
    v.push((':' as u8));
    v.push(('\"' as u8));
    proof {
        assert(v@ =~= lit_desc_key());
    }
    v
}

pub open spec fn lit_amount_key() -> Seq<u8> {
    seq![(',' as u8), ('\"' as u8), ('a' as u8), ('m' as u8), ('o' as u8), ('u' as u8), ('n' as u8), ('t' as u8), ('\"' as u8), (':' as u8)]
}

pub fn lit_amount_key_vec() -> (r: Vec<u8>)
    ensures
        r@ == lit_amount_key(),
{
    let mut v: Vec<u8> = Vec::new();
    v.push((',' as u8));
    v.push(('\"' as u8));
    v.push(('a' as u8));
    v.push(('m' as u8));
    v.push(('o' as u8));
    v.push(('u' as u8));
    v.push(('n' as u8));
    v.push(('t' as u8));
    v.push(('\"' as u8));
    v.push((':' as u8));
    proof {
        assert(v@ =~= lit_amount_key());
    }
    v
}

pub open spec fn lit_date_key() -> Seq<u8> {
    seq![(',' as u8), ('\"' as u8), ('d' as u8), ('a' as u8), ('t' as u8), ('e' as u8), ('\"' as u8), (':' as u8), ('\"' as u8)]
}

pub fn lit_date_key_vec() -> (r: Vec<u8>)
    ensures
        r@ == lit_date_key(),
{
    let mut v: Vec<u8> = Vec::new();
    v.push((',' as u8));
    v.push(('\"' as u8));
    v.push(('d' as u8));
    v.push(('a' as u8));
    v.push(('t' as u8));
    v.push(('e' as u8));
    v.push(('\"' as u8));
    v.push((':' as u8));
    v.push(('\"' as u8));
    proof {
        assert(v@ =~= lit_date_key());
    }
    v
}

pub open spec fn lit_cat_key() -> Seq<u8> {
    seq![('\"' as u8), (',' as u8), ('\"' as u8), ('c' as u8), ('a' as u8), ('t' as u8), ('e' as u8), ('g' as u8), ('o' as u8), ('r' as u8), ('y' as u8), ('\"' as u8), (':' as u8), ('\"' as u8)]
}

pub fn lit_cat_key_vec() -> (r: Vec<u8>)
    ensures
        r@ == lit_cat_key(),
{
    let mut v: Vec<u8> = Vec::new();
    v.push(('\"' as u8));
    v.push((',' as u8));
    v.push(('\"' as u8));
    v.push(('c' as u8));
    v.push(('a' as u8));
    v.push(('t' as u8));
    v.push(('e' as u8));
    v.push(('g' as u8));
    v.push(('o' as u8));
    v.push(('r' as u8));
    v.push(('y' as u8));
    v.push(('\"' as u8));
    v.push((':' as u8));
    v.push(('\"' as u8));
    proof {
        assert(v@ =~= lit_cat_key());
    }
    v
}

pub open spec fn lit_obj_close() -> Seq<u8> {
    seq![('\"' as u8), ('}' as u8)]
}

pub fn lit_obj_close_vec() -> (r: Vec<u8>)
    ensures
        r@ == lit_obj_close(),
{
    let mut v: Vec<u8> = Vec::new();
    v.push(('\"' as u8));
    v.push(('}' as u8));
    proof {
        assert(v@ =~= lit_obj_close());
    }
    v
}

pub open spec fn lit_food() -> Seq<u8> {
    seq![('F' as u8), ('o' as u8), ('o' as u8), ('d' as u8)]
}

pub fn lit_food_vec() -> (r: Vec<u8>)
    ensures
        r@ == lit_food(),
{
    let mut v: Vec<u8> = Vec::new();
    v.push(('F' as u8));
    v.push(('o' as u8));
    v.push(('o' as u8));
    v.push(('d' as u8));
    proof {
        assert(v@ =~= lit_food());
    }
    v
}

pub open spec fn lit_transport() -> Seq<u8> {
    seq![('T' as u8), ('r' as u8), ('a' as u8), ('n' as u8), ('s' as u8), ('p' as u8), ('o' as u8), ('r' as u8), ('t' as u8)]
}

pub fn lit_transport_vec() -> (r: Vec<u8>)
    ensures
        r@ == lit_transport(),
{
    let mut v: Vec<u8> = Vec::new();
    v.push(('T' as u8));
    v.push(('r' as u8));
    v.push(('a' as u8));
    v.push(('n' as u8));
    v.push(('s' as u8));
    v.push(('p' as u8));
    v.push(('o' as u8));
    v.push(('r' as u8));
    v.push(('t' as u8));
    proof {
        assert(v@ =~= lit_transport());
    }
    v
}

pub open spec fn lit_entertainment() -> Seq<u8> {
    seq![('E' as u8), ('n' as u8), ('t' as u8), ('e' as u8), ('r' as u8), ('t' as u8), ('a' as u8), ('i' as u8), ('n' as u8), ('m' as u8), ('e' as u8), ('n' as u8), ('t' as u8)]
}

pub fn lit_entertainment_vec() -> (r: Vec<u8>)
    ensures
        r@ == lit_entertainment(),
{
    let mut v: Vec<u8> = Vec::new();
    v.push(('E' as u8));
    v.push(('n' as u8));
    v.push(('t' as u8));
    v.push(('e' as u8));
    v.push(('r' as u8));
    v.push(('t' as u8));
    v.push(('a' as u8));
    v.push(('i' as u8));
    v.push(('n' as u8));
    v.push(('m' as u8));
    v.push(('e' as u8));
    v.push(('n' as u8));
    v.push(('t' as u8));
    proof {
        assert(v@ =~= lit_entertainment());
    }
    v
}

pub open spec fn lit_other() -> Seq<u8> {
    seq![('O' as u8), ('t' as u8), ('h' as u8), ('e' as u8), ('r' as u8)]
}

pub fn lit_other_vec() -> (r: Vec<u8>)
    ensures
        r@ == lit_other(),
{
    let mut v: Vec<u8> = Vec::new();
    v.push(('O' as u8));
    v.push(('t' as u8));
    v.push(('h' as u8));
    v.push(('e' as u8));
    v.push(('r' as u8));
    proof {
        assert(v@ =~= lit_other());
    }
    v
}

pub open spec fn lit_line_id() -> Seq<u8> {
    seq![('E' as u8), ('x' as u8), ('p' as u8), ('e' as u8), ('n' as u8), ('s' as u8), ('e' as u8), (',' as u8), (' ' as u8), ('i' as u8), ('d' as u8), (':' as u8), (' ' as u8)]
}

pub fn lit_line_id_vec() -> (r: Vec<u8>)
    ensures
        r@ == lit_line_id(),
{
    let mut v: Vec<u8> = Vec::new();
    v.push(('E' as u8));
    v.push(('x' as u8));
    v.push(('p' as u8));
    v.push(('e' as u8));
    v.push(('n' as u8));
    v.push(('s' as u8));
    v.push(('e' as u8));
    v.push((',' as u8));
    v.push((' ' as u8));
    v.push(('i' as u8));
    v.push(('d' as u8));
    v.push((':' as u8));
    v.push((' ' as u8));
    proof {
        assert(v@ =~= lit_line_id());
    }
    v
}

pub open spec fn lit_line_desc() -> Seq<u8> {
    seq![(',' as u8), (' ' as u8), ('d' as u8), ('e' as u8), ('s' as u8), ('c' as u8), ('r' as u8), ('i' as u8), ('p' as u8), ('t' as u8), ('i' as u8), ('o' as u8), ('n' as u8), (':' as u8), (' ' as u8)]
}

pub fn lit_line_desc_vec() -> (r: Vec<u8>)
    ensures
        r@ == lit_line_desc(),
{
    let mut v: Vec<u8> = Vec::new();
    v.push((',' as u8));
    v.push((' ' as u8));
    v.push(('d' as u8));
    v.push(('e' as u8));
    v.push(('s' as u8));
    v.push(('c' as u8));
    v.push(('r' as u8));
    v.push(('i' as u8));
    v.push(('p' as u8));
    v.push(('t' as u8));
    v.push(('i' as u8));
    v.push(('o' as u8));
    v.push(('n' as u8));
    v.push((':' as u8));
    v.push((' ' as u8));
    proof {
        assert(v@ =~= lit_line_desc());
    }
    v
}

pub open spec fn lit_line_amount() -> Seq<u8> {
    seq![(',' as u8), (' ' as u8), ('a' as u8), ('m' as u8), ('o' as u8), ('u' as u8), ('n' as u8), ('t' as u8), (':' as u8), (' ' as u8)]
}

pub fn lit_line_amount_vec() -> (r: Vec<u8>)
    ensures
        r@ == lit_line_amount(),
{
    let mut v: Vec<u8> = Vec::new();
    v.push((',' as u8));
    v.push((' ' as u8));
    v.push(('a' as u8));
    v.push(('m' as u8));
    v.push(('o' as u8));
    v.push(('u' as u8));
    v.push(('n' as u8));
    v.push(('t' as u8));
    v.push((':' as u8));
    v.push((' ' as u8));
    proof {
        assert(v@ =~= lit_line_amount());
    }
    v
}

pub open spec fn lit_line_date() -> Seq<u8> {
    seq![(',' as u8), (' ' as u8), ('d' as u8), ('a' as u8), ('t' as u8), ('e' as u8), (':' as u8), (' ' as u8)]
}

pub fn lit_line_date_vec() -> (r: Vec<u8>)
    ensures
        r@ == lit_line_date(),
{
    let mut v: Vec<u8> = Vec::new();
    v.push((',' as u8));
    v.push((' ' as u8));
    v.push(('d' as u8));
    v.push(('a' as u8));
    v.push(('t' as u8));
    v.push(('e' as u8));
    v.push((':' as u8));
    v.push((' ' as u8));
    proof {
        assert(v@ =~= lit_line_date());
    }
    v
}

pub open spec fn lit_line_cat() -> Seq<u8> {
    seq![(',' as u8), (' ' as u8), ('c' as u8), ('a' as u8), ('t' as u8), ('e' as u8), ('g' as u8), ('o' as u8), ('r' as u8), ('y' as u8), (':' as u8), (' ' as u8)]
}

pub fn lit_line_cat_vec() -> (r: Vec<u8>)
    ensures
        r@ == lit_line_cat(),
{
    let mut v: Vec<u8> = Vec::new();
    v.push((',' as u8));
    v.push((' ' as u8));
    v.push(('c' as u8));
    v.push(('a' as u8));
    v.push(('t' as u8));
    v.push(('e' as u8));
    v.push(('g' as u8));
    v.push(('o' as u8));
    v.push(('r' as u8));
    v.push(('y' as u8));
    v.push((':' as u8));
    v.push((' ' as u8));
    proof {
        assert(v@ =~= lit_line_cat());
    }
    v
}


} // verus!
