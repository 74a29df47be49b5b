use vstd::prelude::*;

verus! {

pub open spec fn is_digit(b: u8) -> bool {
    ('0' as u8) <= b <= ('9' as u8)
}

/// Decimal digits of `n`, most significant first, no sign, no leading zeros.
pub open spec fn u64_digits(n: nat) -> Seq<u8>
    decreases n,
{
    if n < 10 {
        seq![(('0' as u8) + n) as u8]
    } else {
        u64_digits(n / 10).push((('0' as u8) + n % 10) as u8)
    }
}

/// Value of a run of decimal digit bytes.
pub open spec fn digits_val(ds: Seq<u8>) -> int
    decreases ds.len(),
{
    if ds.len() == 0 {
        0
    } else {
        digits_val(ds.drop_last()) * 10 + (ds.last() - ('0' as u8))
    }
}

/// Decimal rendering of a signed value: a minus sign, then the magnitude.
pub open spec fn i64_digits(n: int) -> Seq<u8> {
    if n < 0 {
        seq![('-' as u8)].add(u64_digits((-n) as nat))
    } else {
        u64_digits(n as nat)
    }
}

pub proof fn lemma_u64_digits(n: nat)
    ensures
        u64_digits(n).len() >= 1,
        digits_val(u64_digits(n)) == n,
        forall|k: int| 0 <= k < u64_digits(n).len() ==> is_digit(#[trigger] u64_digits(n)[k]),
    decreases n,
{
    if n < 10 {
        assert(u64_digits(n) =~= seq![(('0' as u8) + n) as u8]);
        assert(u64_digits(n).drop_last() =~= Seq::<u8>::empty());
        assert(digits_val(u64_digits(n).drop_last()) == 0);
    } else {
        lemma_u64_digits(n / 10);
        assert(u64_digits(n).drop_last() =~= u64_digits(n / 10));
        vstd::arithmetic::div_mod::lemma_fundamental_div_mod(n as int, 10);
        assert(digits_val(u64_digits(n)) == n / 10 * 10 + n % 10);
    }
}

/// Appends the decimal digits of `n`.
pub fn push_u64(out: &mut Vec<u8>, n: u64)
    ensures
        final(out)@ == old(out)@ + u64_digits(n as nat),
    decreases n,
{
    if n < 10 {
        out.push(('0' as u8) + (n as u8));
        assert(out@ =~= old(out)@ + u64_digits(n as nat));
    } else {
        push_u64(out, n / 10);
        out.push(('0' as u8) + ((n % 10) as u8));
        assert(out@ =~= old(out)@ + u64_digits(n as nat));
    }
}

/// Appends the decimal rendering of a signed value.
pub fn push_i64(out: &mut Vec<u8>, n: i64)
    ensures
        final(out)@ == old(out)@ + i64_digits(n as int),
{
    if n >= 0 {
        push_u64(out, n as u64);
    } else {
        out.push(('-' as u8));
        let m: i128 = -(n as i128);
        push_u64(out, m as u64);
        assert(out@ =~= old(out)@ + i64_digits(n as int));
    }
}

/// End of the digit run that starts at `i`.
pub open spec fn scan_digits(s: Seq<u8>, i: int) -> int
    decreases s.len() - i when 0 <= i <= s.len()
{
    if i < s.len() && is_digit(s[i]) {
        scan_digits(s, i + 1)
    } else {
        i
    }
}

pub proof fn lemma_scan_digits_run(s: Seq<u8>, i: int, j: int)
    requires
        0 <= i <= j <= s.len(),
        forall|k: int| i <= k < j ==> is_digit(#[trigger] s[k]),
        j == s.len() || !is_digit(s[j]),
    ensures
        scan_digits(s, i) == j,
    decreases j - i,
{
    if i < j {
        lemma_scan_digits_run(s, i + 1, j);
    }
}

/// Reads an unsigned decimal number at `i`: its value and the position after
/// its last digit. Fails when no digit stands at `i` or the value does not fit
/// in a `u64`.
pub open spec fn parse_u64(s: Seq<u8>, i: int) -> Option<(int, int)> {
    let j = scan_digits(s, i);
    if j == i {
        None
    } else {
        let v = digits_val(s.subrange(i, j));
        if v > u64::MAX {
            None
        } else {
            Some((v, j))
        }
    }
}

pub fn parse_u64_at(s: &Vec<u8>, i: usize) -> (r: Option<(u64, usize)>)
    requires
        i <= s@.len(),
    ensures
        match r {
            Some(p) => parse_u64(s@, i as int) == Some((p.0 as int, p.1 as int)) && i < p.1
                <= s@.len(),
            None => parse_u64(s@, i as int) is None,
        },
{
    let len = s.len();
    let mut j: usize = i;
    let mut acc: u128 = 0;
    let mut over: bool = false;
    while j < len && ('0' as u8) <= s[j] && s[j] <= ('9' as u8)
        invariant
            i <= j <= len == s@.len(),
            forall|k: int| i <= k < j ==> is_digit(#[trigger] s@[k]),
            !over ==> acc == digits_val(s@.subrange(i as int, j as int)) && acc <= u64::MAX,
            over ==> digits_val(s@.subrange(i as int, j as int)) > u64::MAX,
        decreases len - j,
    {
        let d = s[j];
        proof {
            assert(s@.subrange(i as int, j + 1).drop_last() =~= s@.subrange(i as int, j as int));
            assert(s@.subrange(i as int, j + 1).last() == s@[j as int]);
        }
        if over {
            j = j + 1;
        } else {
            acc = acc * 10 + ((d - ('0' as u8)) as u128);
            j = j + 1;
            if acc > u64::MAX as u128 {
                over = true;
            }
        }
    }
    proof {
        lemma_scan_digits_run(s@, i as int, j as int);
    }
    if j == i {
        None
    } else if over {
        None
    } else {
        Some((acc as u64, j))
    }
}

/// Reads a signed decimal number at `i`: an optional minus sign, then digits;
/// the value must fit in an `i64`.
pub open spec fn parse_i64(s: Seq<u8>, i: int) -> Option<(int, int)> {
    if 0 <= i < s.len() && s[i] == ('-' as u8) {
        match parse_u64(s, i + 1) {
            Some(p) => if p.0 <= 0x8000000000000000 {
                Some((-p.0, p.1))
            } else {
                None
            },
            None => None,
        }
    } else {
        match parse_u64(s, i) {
            Some(p) => if p.0 <= i64::MAX {
                Some(p)
            } else {
                None
            },
            None => None,
        }
    }
}

pub fn parse_i64_at(s: &Vec<u8>, i: usize) -> (r: Option<(i64, usize)>)
    requires
        i <= s@.len(),
    ensures
        match r {
            Some(p) => parse_i64(s@, i as int) == Some((p.0 as int, p.1 as int)) && i < p.1
                <= s@.len(),
            None => parse_i64(s@, i as int) is None,
        },
{
    if i < s.len() && s[i] == ('-' as u8) {
        match parse_u64_at(s, i + 1) {
            Some((v, j)) => {
                if v <= 0x8000000000000000u64 {
                    let m: i128 = -(v as i128);
                    Some((m as i64, j))
                } else {
                    None
                }
            },
            None => None,
        }
    } else {
        match parse_u64_at(s, i) {
            Some((v, j)) => {
                if v <= i64::MAX as u64 {
                    Some((v as i64, j))
                } else {
                    None
                }
            },
            None => None,
        }
    }
}

/// Parsing reads back exactly what rendering wrote, up to the first byte that
/// is not part of the number.
pub proof fn lemma_parse_u64_digits(s: Seq<u8>, i: int, n: u64)
    requires
        0 <= i,
        i + u64_digits(n as nat).len() <= s.len(),
        s.subrange(i, i + u64_digits(n as nat).len()) == u64_digits(n as nat),
        i + u64_digits(n as nat).len() == s.len() || !is_digit(
            s[i + u64_digits(n as nat).len()],
        ),
    ensures
        parse_u64(s, i) == Some((n as int, i + u64_digits(n as nat).len())),
{
    let ds = u64_digits(n as nat);
    lemma_u64_digits(n as nat);
    assert forall|k: int| i <= k < i + ds.len() implies is_digit(#[trigger] s[k]) by {
        assert(s[k] == ds[k - i]);
    }
    lemma_scan_digits_run(s, i, i + ds.len());
}

pub proof fn lemma_parse_i64_digits(s: Seq<u8>, i: int, n: i64)
    requires
        0 <= i,
        i + i64_digits(n as int).len() <= s.len(),
        s.subrange(i, i + i64_digits(n as int).len()) == i64_digits(n as int),
        i + i64_digits(n as int).len() == s.len() || !is_digit(
            s[i + i64_digits(n as int).len()],
        ),
    ensures
        parse_i64(s, i) == Some((n as int, i + i64_digits(n as int).len())),
{
    if n >= 0 {
        lemma_u64_digits(n as nat);
        assert(s.subrange(i, i + u64_digits(n as nat).len()) == u64_digits(n as nat));
        assert(s[i] == u64_digits(n as nat)[0]);
        lemma_parse_u64_digits(s, i, n as u64);
    } else {
        let m = (-n) as nat;
        let ds = u64_digits(m);
        lemma_u64_digits(m);
        assert(s[i] == i64_digits(n as int)[0]);
        assert(s[i] == ('-' as u8));
        assert(s.subrange(i + 1, i + 1 + ds.len()) =~= ds) by {
            assert forall|k: int| 0 <= k < ds.len() implies s.subrange(
                i + 1,
                i + 1 + ds.len(),
            )[k] == ds[k] by {
                assert(s[i + 1 + k] == i64_digits(n as int)[1 + k]);
            }
        }
        lemma_parse_u64_digits_m(s, i + 1, m);
    }
}

proof fn lemma_parse_u64_digits_m(s: Seq<u8>, i: int, m: nat)
    requires
        0 <= i,
        m <= u64::MAX,
        i + u64_digits(m).len() <= s.len(),
        s.subrange(i, i + u64_digits(m).len()) == u64_digits(m),
        i + u64_digits(m).len() == s.len() || !is_digit(s[i + u64_digits(m).len()]),
    ensures
        parse_u64(s, i) == Some((m as int, i + u64_digits(m).len())),
{
    lemma_parse_u64_digits(s, i, m as u64);
}

} // verus!
