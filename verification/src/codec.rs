//! Storage codec for the ordered key-value backends.
//!
//! An interval is stored under the composite key `"<start>:<end>"` (decimal,
//! ASCII) with a JSON object as the value:
//! `{"start_time":S,"end_time":E,"count":C,"units":U}`, with an optional
//! `,"id":N` member before the closing brace when a backend assigned an
//! identifier. The encoder emits exactly this canonical form and the decoder
//! accepts nothing else, which makes encoding injective and the round trip
//! exact.

use vstd::prelude::*;

use crate::interval::Interval;

verus! {

pub open spec fn is_digit(b: u8) -> bool {
    48 <= b <= 57
}

/// The canonical decimal digits of `n`, most significant first.
pub open spec fn dec_digits(n: nat) -> Seq<u8>
    decreases n,
{
    if n < 10 {
        seq![(48 + n) as u8]
    } else {
        dec_digits(n / 10).push((48 + n % 10) as u8)
    }
}

/// The numeric value of a run of ASCII digits, most significant first.
pub open spec fn dec_value(s: Seq<u8>) -> nat
    decreases s.len(),
{
    if s.len() == 0 {
        0
    } else {
        (dec_value(s.drop_last()) * 10 + (s.last() - 48)) as nat
    }
}

pub proof fn lemma_dec_digits_wf(n: nat)
    ensures
        dec_digits(n).len() >= 1,
        forall|i: int| 0 <= i < dec_digits(n).len() ==> is_digit(#[trigger] dec_digits(n)[i]),
        dec_digits(n)[0] == 48 <==> n == 0,
    decreases n,
{
    if n >= 10 {
        lemma_dec_digits_wf(n / 10);
        assert forall|i: int| 0 <= i < dec_digits(n).len() implies is_digit(
            #[trigger] dec_digits(n)[i],
        ) by {
            if i < dec_digits(n / 10).len() {
                assert(dec_digits(n)[i] == dec_digits(n / 10)[i]);
            }
        }
    }
}

pub proof fn lemma_dec_value_of_digits(n: nat)
    ensures
        dec_value(dec_digits(n)) == n,
    decreases n,
{
    assert(dec_value(Seq::<u8>::empty()) == 0);
    if n < 10 {
        assert(dec_digits(n).drop_last() =~= Seq::<u8>::empty());
        assert(dec_digits(n).last() == (48 + n) as u8);
        assert((48 + n) as u8 == 48 + n);
        assert(dec_value(dec_digits(n)) == dec_value(dec_digits(n).drop_last()) * 10 + (
        dec_digits(n).last() - 48));
    } else {
        lemma_dec_value_of_digits(n / 10);
        assert(dec_digits(n).drop_last() =~= dec_digits(n / 10));
        assert(dec_digits(n).last() == (48 + n % 10) as u8);
        assert((48 + n % 10) as u8 == 48 + n % 10);
        assert(dec_value(dec_digits(n)) == dec_value(dec_digits(n).drop_last()) * 10 + (
        dec_digits(n).last() - 48));
        assert((n / 10) * 10 + n % 10 == n) by (nonlinear_arith);
    }
}

/// Writes the canonical decimal form of `n` onto `out`.
pub fn push_dec_u64(out: &mut Vec<u8>, n: u64)
    ensures
        final(out)@ == old(out)@ + dec_digits(n as nat),
    decreases n,
{
    if n < 10 {
        out.push(48 + n as u8);
        assert(final(out)@ =~= old(out)@ + dec_digits(n as nat));
    } else {
        push_dec_u64(out, n / 10);
        out.push(48 + (n % 10) as u8);
        assert(final(out)@ =~= old(out)@ + dec_digits(n as nat));
    }
}

// The fixed byte runs of the canonical value object, as ASCII codes:
// `{"start_time":`, `,"end_time":`, `,"count":`, `,"units":`, `,"id":`, `}`.
pub open spec fn lit_start_time() -> Seq<u8> {
    seq![123u8, 34u8, 115u8, 116u8, 97u8, 114u8, 116u8, 95u8, 116u8, 105u8, 109u8, 101u8, 34u8, 58u8]
}

pub open spec fn lit_end_time() -> Seq<u8> {
    seq![44u8, 34u8, 101u8, 110u8, 100u8, 95u8, 116u8, 105u8, 109u8, 101u8, 34u8, 58u8]
}

pub open spec fn lit_count() -> Seq<u8> {
    seq![44u8, 34u8, 99u8, 111u8, 117u8, 110u8, 116u8, 34u8, 58u8]
}

pub open spec fn lit_units() -> Seq<u8> {
    seq![44u8, 34u8, 117u8, 110u8, 105u8, 116u8, 115u8, 34u8, 58u8]
}

pub open spec fn lit_id() -> Seq<u8> {
    seq![44u8, 34u8, 105u8, 100u8, 34u8, 58u8]
}

pub open spec fn lit_close() -> Seq<u8> {
    seq![125u8]
}

fn push_lit_start_time(out: &mut Vec<u8>)
    ensures
        final(out)@ == old(out)@ + lit_start_time(),
{
    out.push(123);
    out.push(34);
    out.push(115);
    out.push(116);
    out.push(97);
    out.push(114);
    out.push(116);
    out.push(95);
    out.push(116);
    out.push(105);
    out.push(109);
    out.push(101);
    out.push(34);
    out.push(58);
    assert(final(out)@ =~= old(out)@ + lit_start_time());
}

fn push_lit_end_time(out: &mut Vec<u8>)
    ensures
        final(out)@ == old(out)@ + lit_end_time(),
{
    out.push(44);
    out.push(34);
    out.push(101);
    out.push(110);
    out.push(100);
    out.push(95);
    out.push(116);
    out.push(105);
    out.push(109);
    out.push(101);
    out.push(34);
    out.push(58);
    assert(final(out)@ =~= old(out)@ + lit_end_time());
}

fn push_lit_count(out: &mut Vec<u8>)
    ensures
        final(out)@ == old(out)@ + lit_count(),
{
    out.push(44);
    out.push(34);
    out.push(99);
    out.push(111);
    out.push(117);
    out.push(110);
    out.push(116);
    out.push(34);
    out.push(58);
    assert(final(out)@ =~= old(out)@ + lit_count());
}

fn push_lit_units(out: &mut Vec<u8>)
    ensures
        final(out)@ == old(out)@ + lit_units(),
{
    out.push(44);
    out.push(34);
    out.push(117);
    out.push(110);
    out.push(105);
    out.push(116);
    out.push(115);
    out.push(34);
    out.push(58);
    assert(final(out)@ =~= old(out)@ + lit_units());
}

fn push_lit_id(out: &mut Vec<u8>)
    ensures
        final(out)@ == old(out)@ + lit_id(),
{
    out.push(44);
    out.push(34);
    out.push(105);
    out.push(100);
    out.push(34);
    out.push(58);
    assert(final(out)@ =~= old(out)@ + lit_id());
}

/// The canonical stored value for an interval.
pub open spec fn encode_spec(iv: Interval) -> Seq<u8> {
    lit_start_time() + dec_digits(iv.start_time as nat) + lit_end_time() + dec_digits(
        iv.end_time as nat,
    ) + lit_count() + dec_digits(iv.count as nat) + lit_units() + dec_digits(iv.units as nat) + (
    match iv.id {
        Some(n) => lit_id() + dec_digits(n as nat),
        None => Seq::<u8>::empty(),
    }) + lit_close()
}

/// The composite key `"<start>:<end>"` of an interval's natural key.
pub open spec fn key_spec(start_time: u64, end_time: u64) -> Seq<u8> {
    dec_digits(start_time as nat) + seq![58u8] + dec_digits(end_time as nat)
}

/// Builds the composite store key for a natural key.
pub fn encode_key(start_time: u64, end_time: u64) -> (r: Vec<u8>)
    ensures
        r@ == key_spec(start_time, end_time),
{
    let mut out: Vec<u8> = Vec::new();
    push_dec_u64(&mut out, start_time);
    out.push(58);
    push_dec_u64(&mut out, end_time);
    assert(out@ =~= key_spec(start_time, end_time));
    out
}

/// The first position at or after `i` that does not hold an ASCII digit.
pub open spec fn digits_end(s: Seq<u8>, i: int) -> int
    decreases s.len() - i,
{
    if i < 0 || i >= s.len() || !is_digit(s[i]) {
        i
    } else {
        digits_end(s, i + 1)
    }
}

pub proof fn lemma_digits_end_char(s: Seq<u8>, i: int, j: int)
    requires
        0 <= i <= j <= s.len(),
        forall|k: int| i <= k < j ==> is_digit(#[trigger] s[k]),
        j == s.len() || !is_digit(s[j]),
    ensures
        digits_end(s, i) == j,
    decreases j - i,
{
    if i < j {
        lemma_digits_end_char(s, i + 1, j);
    }
}

/// Parses the canonical decimal run at `i`: no leading zeros, value within
/// `u64`.
pub open spec fn parse_num(s: Seq<u8>, i: int) -> Option<(u64, int)> {
    let j = digits_end(s, i);
    if j == i {
        None
    } else if s[i] == 48 && j > i + 1 {
        None
    } else if dec_value(s.subrange(i, j)) > u64::MAX {
        None
    } else {
        Some((dec_value(s.subrange(i, j)) as u64, j))
    }
}

/// Matches the fixed byte run `lit` at position `i`.
pub open spec fn expect_lit(s: Seq<u8>, i: int, lit: Seq<u8>) -> Option<int> {
    if 0 <= i && i + lit.len() <= s.len() && s.subrange(i, i + lit.len()) == lit {
        Some(i + lit.len())
    } else {
        None
    }
}

pub open spec fn spec_decode_tail(
    s: Seq<u8>,
    i: int,
    st: u64,
    en: u64,
    ct: u64,
    un: u64,
) -> Option<Interval> {
    match expect_lit(s, i, lit_id()) {
        Some(j) => match parse_num(s, j) {
            None => None,
            Some((idv, k)) => if k + 1 == s.len() && s[k] == 125 {
                Some(
                    Interval {
                        start_time: st,
                        end_time: en,
                        count: ct,
                        units: un,
                        id: Some(idv),
                    },
                )
            } else {
                None
            },
        },
        None => if i + 1 == s.len() && s[i] == 125 {
            Some(Interval { start_time: st, end_time: en, count: ct, units: un, id: None })
        } else {
            None
        },
    }
}

/// The value, if any, whose canonical encoding is exactly `s`.
pub open spec fn spec_decode(s: Seq<u8>) -> Option<Interval> {
    match expect_lit(s, 0, lit_start_time()) {
        None => None,
        Some(i1) => match parse_num(s, i1) {
            None => None,
            Some((st, i2)) => match expect_lit(s, i2, lit_end_time()) {
                None => None,
                Some(i3) => match parse_num(s, i3) {
                    None => None,
                    Some((en, i4)) => match expect_lit(s, i4, lit_count()) {
                        None => None,
                        Some(i5) => match parse_num(s, i5) {
                            None => None,
                            Some((ct, i6)) => match expect_lit(s, i6, lit_units()) {
                                None => None,
                                Some(i7) => match parse_num(s, i7) {
                                    None => None,
                                    Some((un, i8)) => spec_decode_tail(s, i8, st, en, ct, un),
                                },
                            },
                        },
                    },
                },
            },
        },
    }
}

/// Encodes an interval into its canonical stored value.
pub fn encode_interval(iv: &Interval) -> (r: Vec<u8>)
    ensures
        r@ == encode_spec(*iv),
{
    let mut out: Vec<u8> = Vec::new();
    push_lit_start_time(&mut out);
    push_dec_u64(&mut out, iv.start_time);
    push_lit_end_time(&mut out);
    push_dec_u64(&mut out, iv.end_time);
    push_lit_count(&mut out);
    push_dec_u64(&mut out, iv.count);
    push_lit_units(&mut out);
    push_dec_u64(&mut out, iv.units);
    match iv.id {
        Some(n) => {
            push_lit_id(&mut out);
            push_dec_u64(&mut out, n);
        },
        None => {},
    }
    out.push(125);
    assert(out@ =~= encode_spec(*iv));
    out
}

/// Checks whether `lit` occurs at position `i` of `s`.
fn expect_bytes(s: &Vec<u8>, i: usize, lit: &Vec<u8>) -> (r: Option<usize>)
    ensures
        match r {
            Some(j) => expect_lit(s@, i as int, lit@) == Some(j as int),
            None => expect_lit(s@, i as int, lit@) is None,
        },
{
    if i > s.len() || s.len() - i < lit.len() {
        return None;
    }
    let mut k: usize = 0;
    while k < lit.len()
        invariant
            i + lit.len() <= s.len(),
            0 <= k <= lit.len(),
            forall|m: int| 0 <= m < k ==> s@[i + m] == lit@[m],
        decreases lit.len() - k,
    {
        if s[i + k] != lit[k] {
            return None;
        }
        k += 1;
    }
    assert(s@.subrange(i as int, i + lit@.len()) =~= lit@);
    Some(i + lit.len())
}

proof fn lemma_dec_value_grows(s: Seq<u8>, i: int, k: int, j: int)
    requires
        0 <= i <= k <= j <= s.len(),
        forall|m: int| i <= m < j ==> is_digit(#[trigger] s[m]),
    ensures
        dec_value(s.subrange(i, j)) >= dec_value(s.subrange(i, k)),
    decreases j - k,
{
    if k < j {
        lemma_dec_value_grows(s, i, k + 1, j);
        let t = s.subrange(i, k + 1);
        assert(t.drop_last() =~= s.subrange(i, k));
        assert(dec_value(t) == dec_value(s.subrange(i, k)) * 10 + (s[k] - 48));
        assert(dec_value(s.subrange(i, k + 1)) >= dec_value(s.subrange(i, k)));
    }
}

/// Parses the canonical decimal run at position `i` of `s`.
fn take_num(s: &Vec<u8>, i: usize) -> (r: Option<(u64, usize)>)
    ensures
        match r {
            Some(p) => parse_num(s@, i as int) == Some((p.0, p.1 as int)),
            None => parse_num(s@, i as int) is None,
        },
{
    if i >= s.len() || s[i] < 48 || s[i] > 57 {
        proof {
            if i < s.len() {
                lemma_digits_end_char(s@, i as int, i as int);
            }
        }
        return None;
    }
    if s[i] == 48 && i + 1 < s.len() && 48 <= s[i + 1] && s[i + 1] <= 57 {
        // a leading zero is not canonical
        proof {
            lemma_digits_end_props(s@, i as int);
            let j = digits_end(s@, i as int);
            assert(is_digit(s@[i + 1]));
            if j == i + 1 {
                assert(i + 1 == s@.len() || !is_digit(s@[i + 1]));
            }
            assert(j > i + 1);
        }
        return None;
    }
    let ghost jend = digits_end(s@, i as int);
    proof {
        lemma_digits_end_props(s@, i as int);
    }
    let mut j: usize = i;
    let mut acc: u64 = 0;
    while j < s.len() && 48 <= s[j] && s[j] <= 57
        invariant
            i <= j <= s.len(),
            i < s.len(),
            is_digit(s@[i as int]),
            j <= jend,
            jend == digits_end(s@, i as int),
            i <= jend <= s.len(),
            forall|m: int| i <= m < jend ==> is_digit(#[trigger] s@[m]),
            jend == s@.len() || !is_digit(s@[jend as int]),
            acc == dec_value(s@.subrange(i as int, j as int)),
        decreases s.len() - j,
    {
        proof {
            assert(is_digit(s@[j as int]));
            if j == jend {
                assert(jend == s@.len() || !is_digit(s@[jend as int]));
            }
            assert(j < jend);
        }
        let d: u64 = (s[j] - 48) as u64;
        let acc10 = match acc.checked_mul(10) {
            Some(v) => v,
            None => {
                proof {
                    overflow_case(s@, i as int, j as int, jend, acc as nat, d as nat);
                }
                return None;
            },
        };
        let acc2 = match acc10.checked_add(d) {
            Some(v) => v,
            None => {
                proof {
                    overflow_case(s@, i as int, j as int, jend, acc as nat, d as nat);
                }
                return None;
            },
        };
        proof {
            let t = s@.subrange(i as int, j + 1);
            assert(t.drop_last() =~= s@.subrange(i as int, j as int));
        }
        acc = acc2;
        j += 1;
    }
    proof {
        lemma_digits_end_char(s@, i as int, j as int);
    }
    Some((acc, j))
}

proof fn overflow_case(s: Seq<u8>, i: int, j: int, jend: int, acc: nat, d: nat)
    requires
        0 <= i <= j < jend <= s.len(),
        forall|m: int| i <= m < jend ==> is_digit(#[trigger] s[m]),
        jend == digits_end(s, i),
        acc == dec_value(s.subrange(i, j)),
        d == s[j] - 48,
        acc * 10 + d > u64::MAX,
    ensures
        parse_num(s, i) is None,
{
    let t = s.subrange(i, j + 1);
    assert(t.drop_last() =~= s.subrange(i, j));
    assert(dec_value(t) == acc * 10 + d);
    lemma_dec_value_grows(s, i, j + 1, jend);
    assert(dec_value(s.subrange(i, jend)) > u64::MAX);
}

proof fn lemma_digits_end_props(s: Seq<u8>, i: int)
    requires
        0 <= i <= s.len(),
    ensures
        i <= digits_end(s, i) <= s.len(),
        forall|m: int| i <= m < digits_end(s, i) ==> is_digit(#[trigger] s[m]),
        digits_end(s, i) == s.len() || !is_digit(s[digits_end(s, i)]),
        i < s.len() && is_digit(s[i]) ==> digits_end(s, i) > i,
    decreases s.len() - i,
{
    if i < s.len() && is_digit(s[i]) {
        lemma_digits_end_props(s, i + 1);
    }
}

proof fn lemma_expect_lit_at(p: Seq<u8>, lit: Seq<u8>, r: Seq<u8>)
    ensures
        expect_lit(p + lit + r, p.len() as int, lit) == Some((p.len() + lit.len()) as int),
{
    let s = p + lit + r;
    assert(s.subrange(p.len() as int, p.len() + lit.len() as int) =~= lit);
}

proof fn lemma_parse_num_at(p: Seq<u8>, n: u64, r: Seq<u8>)
    requires
        r.len() > 0,
        !is_digit(r[0]),
    ensures
        parse_num(p + dec_digits(n as nat) + r, p.len() as int) == Some(
            (n, p.len() + dec_digits(n as nat).len() as int),
        ),
{
    let d = dec_digits(n as nat);
    let s = p + d + r;
    lemma_dec_digits_wf(n as nat);
    let i = p.len() as int;
    let j = i + d.len();
    assert forall|k: int| i <= k < j implies is_digit(#[trigger] s[k]) by {
        assert(s[k] == d[k - i]);
    }
    assert(s[j] == r[0]);
    lemma_digits_end_char(s, i, j);
    assert(s.subrange(i, j) =~= d);
    lemma_dec_value_of_digits(n as nat);
    assert(s[i] == d[0]);
    if n >= 10 {
        assert(d[0] != 48);
    } else {
        assert(d =~= seq![(48 + n) as u8]);
        assert(j == i + 1);
    }
}

// Positions of the fields inside a canonical encoding, as offsets from the
// start: each literal is followed by the decimal digits of the next field.
pub open spec fn pos_st(iv: Interval) -> int {
    lit_start_time().len() as int
}

pub open spec fn pos_en(iv: Interval) -> int {
    pos_st(iv) + dec_digits(iv.start_time as nat).len() + lit_end_time().len()
}

pub open spec fn pos_ct(iv: Interval) -> int {
    pos_en(iv) + dec_digits(iv.end_time as nat).len() + lit_count().len()
}

pub open spec fn pos_un(iv: Interval) -> int {
    pos_ct(iv) + dec_digits(iv.count as nat).len() + lit_units().len()
}

pub open spec fn pos_tail(iv: Interval) -> int {
    pos_un(iv) + dec_digits(iv.units as nat).len()
}

#[verifier::spinoff_prover]
proof fn lemma_rt_start(iv: Interval)
    ensures
        expect_lit(encode_spec(iv), 0, lit_start_time()) == Some(pos_st(iv)),
        parse_num(encode_spec(iv), pos_st(iv)) == Some(
            (iv.start_time, pos_st(iv) + dec_digits(iv.start_time as nat).len() as int),
        ),
{
    let s = encode_spec(iv);
    let d1 = dec_digits(iv.start_time as nat);
    let idpart = match iv.id {
        Some(n) => lit_id() + dec_digits(n as nat),
        None => Seq::<u8>::empty(),
    };
    let rest = lit_end_time() + dec_digits(iv.end_time as nat) + lit_count() + dec_digits(
        iv.count as nat,
    ) + lit_units() + dec_digits(iv.units as nat) + idpart + lit_close();
    let p1 = Seq::<u8>::empty() + lit_start_time();
    assert(s =~= Seq::<u8>::empty() + lit_start_time() + (d1 + rest));
    lemma_expect_lit_at(Seq::<u8>::empty(), lit_start_time(), d1 + rest);
    assert(s =~= p1 + d1 + rest);
    lemma_parse_num_at(p1, iv.start_time, rest);
}

#[verifier::spinoff_prover]
proof fn lemma_rt_end(iv: Interval)
    ensures
        expect_lit(
            encode_spec(iv),
            pos_st(iv) + dec_digits(iv.start_time as nat).len() as int,
            lit_end_time(),
        ) == Some(pos_en(iv)),
        parse_num(encode_spec(iv), pos_en(iv)) == Some(
            (iv.end_time, pos_en(iv) + dec_digits(iv.end_time as nat).len() as int),
        ),
{
    let s = encode_spec(iv);
    let d2 = dec_digits(iv.end_time as nat);
    let idpart = match iv.id {
        Some(n) => lit_id() + dec_digits(n as nat),
        None => Seq::<u8>::empty(),
    };
    let p2 = lit_start_time() + dec_digits(iv.start_time as nat);
    let rest = lit_count() + dec_digits(iv.count as nat) + lit_units() + dec_digits(
        iv.units as nat,
    ) + idpart + lit_close();
    assert(s =~= p2 + lit_end_time() + (d2 + rest));
    lemma_expect_lit_at(p2, lit_end_time(), d2 + rest);
    let p3 = p2 + lit_end_time();
    assert(s =~= p3 + d2 + rest);
    lemma_parse_num_at(p3, iv.end_time, rest);
}

#[verifier::spinoff_prover]
proof fn lemma_rt_count(iv: Interval)
    ensures
        expect_lit(
            encode_spec(iv),
            pos_en(iv) + dec_digits(iv.end_time as nat).len() as int,
            lit_count(),
        ) == Some(pos_ct(iv)),
        parse_num(encode_spec(iv), pos_ct(iv)) == Some(
            (iv.count, pos_ct(iv) + dec_digits(iv.count as nat).len() as int),
        ),
{
    let s = encode_spec(iv);
    let d3 = dec_digits(iv.count as nat);
    let idpart = match iv.id {
        Some(n) => lit_id() + dec_digits(n as nat),
        None => Seq::<u8>::empty(),
    };
    let p4 = lit_start_time() + dec_digits(iv.start_time as nat) + lit_end_time() + dec_digits(
        iv.end_time as nat,
    );
    let rest = lit_units() + dec_digits(iv.units as nat) + idpart + lit_close();
    assert(s =~= p4 + lit_count() + (d3 + rest));
    lemma_expect_lit_at(p4, lit_count(), d3 + rest);
    let p5 = p4 + lit_count();
    assert(s =~= p5 + d3 + rest);
    lemma_parse_num_at(p5, iv.count, rest);
}

#[verifier::spinoff_prover]
proof fn lemma_rt_units(iv: Interval)
    ensures
        expect_lit(
            encode_spec(iv),
            pos_ct(iv) + dec_digits(iv.count as nat).len() as int,
            lit_units(),
        ) == Some(pos_un(iv)),
        parse_num(encode_spec(iv), pos_un(iv)) == Some((iv.units, pos_tail(iv))),
{
    let s = encode_spec(iv);
    let d4 = dec_digits(iv.units as nat);
    let idpart = match iv.id {
        Some(n) => lit_id() + dec_digits(n as nat),
        None => Seq::<u8>::empty(),
    };
    let p6 = lit_start_time() + dec_digits(iv.start_time as nat) + lit_end_time() + dec_digits(
        iv.end_time as nat,
    ) + lit_count() + dec_digits(iv.count as nat);
    let rest = idpart + lit_close();
    assert(s =~= p6 + lit_units() + (d4 + rest));
    lemma_expect_lit_at(p6, lit_units(), d4 + rest);
    let p7 = p6 + lit_units();
    assert(s =~= p7 + d4 + rest);
    lemma_parse_num_at(p7, iv.units, rest);
}

#[verifier::spinoff_prover]
proof fn lemma_rt_tail(iv: Interval)
    ensures
        spec_decode_tail(
            encode_spec(iv),
            pos_tail(iv),
            iv.start_time,
            iv.end_time,
            iv.count,
            iv.units,
        ) == Some(iv),
{
    let s = encode_spec(iv);
    let i8v = pos_tail(iv);
    let p8 = lit_start_time() + dec_digits(iv.start_time as nat) + lit_end_time() + dec_digits(
        iv.end_time as nat,
    ) + lit_count() + dec_digits(iv.count as nat) + lit_units() + dec_digits(iv.units as nat);
    match iv.id {
        None => {
            assert(s =~= p8 + lit_close());
            assert(s.len() == i8v + 1);
            assert(s[i8v] == 125);
            assert(expect_lit(s, i8v, lit_id()) is None);
        },
        Some(n) => {
            let d5 = dec_digits(n as nat);
            assert(s =~= p8 + lit_id() + (d5 + lit_close()));
            lemma_expect_lit_at(p8, lit_id(), d5 + lit_close());
            let p9 = p8 + lit_id();
            assert(s =~= p9 + d5 + lit_close());
            lemma_parse_num_at(p9, n, lit_close());
            let kv = p9.len() + d5.len() as int;
            assert(s.len() == kv + 1);
            assert(s[kv] == 125);
        },
    }
}

/// The decoder is an exact inverse of the encoder: a canonical encoding
/// decodes to the interval it came from.
pub proof fn lemma_codec_round_trip(iv: Interval)
    ensures
        spec_decode(encode_spec(iv)) == Some(iv),
{
    lemma_rt_start(iv);
    lemma_rt_end(iv);
    lemma_rt_count(iv);
    lemma_rt_units(iv);
    lemma_rt_tail(iv);
}

/// The decoder accepts only canonical encodings, so the encoding is
/// injective: two intervals with the same stored value are the same
/// interval.
pub proof fn lemma_encode_injective(a: Interval, b: Interval)
    requires
        encode_spec(a) == encode_spec(b),
    ensures
        a == b,
{
    lemma_codec_round_trip(a);
    lemma_codec_round_trip(b);
}

proof fn lemma_parse_num_at_end(p: Seq<u8>, n: u64)
    ensures
        parse_num(p + dec_digits(n as nat), p.len() as int) == Some(
            (n, p.len() + dec_digits(n as nat).len() as int),
        ),
{
    let d = dec_digits(n as nat);
    let s = p + d;
    lemma_dec_digits_wf(n as nat);
    let i = p.len() as int;
    let j = i + d.len();
    assert forall|k: int| i <= k < j implies is_digit(#[trigger] s[k]) by {
        assert(s[k] == d[k - i]);
    }
    lemma_digits_end_char(s, i, j);
    assert(s.subrange(i, j) =~= d);
    lemma_dec_value_of_digits(n as nat);
    assert(s[i] == d[0]);
    if n < 10 {
        assert(d =~= seq![(48 + n) as u8]);
        assert(j == i + 1);
    } else {
        assert(d[0] != 48);
    }
}

/// The composite key is injective on natural keys: deduplication on the
/// key bytes is deduplication on `(start_time, end_time)`.
pub proof fn lemma_key_injective(s1: u64, e1: u64, s2: u64, e2: u64)
    requires
        key_spec(s1, e1) == key_spec(s2, e2),
    ensures
        s1 == s2,
        e1 == e2,
{
    let k = key_spec(s1, e1);
    let d1 = dec_digits(s1 as nat);
    let d2 = dec_digits(s2 as nat);
    assert(k =~= Seq::<u8>::empty() + d1 + (seq![58u8] + dec_digits(e1 as nat)));
    lemma_parse_num_at(Seq::<u8>::empty(), s1, seq![58u8] + dec_digits(e1 as nat));
    assert(key_spec(s2, e2) =~= Seq::<u8>::empty() + d2 + (seq![58u8] + dec_digits(e2 as nat)));
    lemma_parse_num_at(Seq::<u8>::empty(), s2, seq![58u8] + dec_digits(e2 as nat));
    assert(parse_num(k, 0) == Some((s1, d1.len() as int)));
    assert(parse_num(k, 0) == Some((s2, d2.len() as int)));
    assert(s1 == s2 && d1.len() == d2.len());
    assert(k =~= (d1 + seq![58u8]) + dec_digits(e1 as nat));
    lemma_parse_num_at_end(d1 + seq![58u8], e1);
    assert(k =~= (d2 + seq![58u8]) + dec_digits(e2 as nat));
    lemma_parse_num_at_end(d2 + seq![58u8], e2);
    assert(parse_num(k, d1.len() + 1 as int) == Some((e1, k.len() as int)));
    assert(parse_num(k, d2.len() + 1 as int) == Some((e2, k.len() as int)));
}

/// Decodes a stored value; returns the interval exactly when the bytes are a
/// canonical encoding.
pub fn decode_interval(s: &Vec<u8>) -> (r: Option<Interval>)
    ensures
        r == spec_decode(s@),
{
    let mut lit_a: Vec<u8> = Vec::new();
    push_lit_start_time(&mut lit_a);
    let k1 = match expect_bytes(s, 0, &lit_a) {
        Some(j) => j,
        None => {
            return None;
        },
    };
    let (st, k2) = match take_num(s, k1) {
        Some(p) => p,
        None => {
            return None;
        },
    };
    let mut lit_b: Vec<u8> = Vec::new();
    push_lit_end_time(&mut lit_b);
    let k3 = match expect_bytes(s, k2, &lit_b) {
        Some(j) => j,
        None => {
            return None;
        },
    };
    let (en, k4) = match take_num(s, k3) {
        Some(p) => p,
        None => {
            return None;
        },
    };
    let mut lit_c: Vec<u8> = Vec::new();
    push_lit_count(&mut lit_c);
    let k5 = match expect_bytes(s, k4, &lit_c) {
        Some(j) => j,
        None => {
            return None;
        },
    };
    let (ct, k6) = match take_num(s, k5) {
        Some(p) => p,
        None => {
            return None;
        },
    };
    let mut lit_d: Vec<u8> = Vec::new();
    push_lit_units(&mut lit_d);
    let k7 = match expect_bytes(s, k6, &lit_d) {
        Some(j) => j,
        None => {
            return None;
        },
    };
    let (un, k8) = match take_num(s, k7) {
        Some(p) => p,
        None => {
            return None;
        },
    };
    let mut lit_e: Vec<u8> = Vec::new();
    push_lit_id(&mut lit_e);
    match expect_bytes(s, k8, &lit_e) {
        Some(j) => {
            let (idv, k9) = match take_num(s, j) {
                Some(p) => p,
                None => {
                    return None;
                },
            };
            if k9 < s.len() && k9 + 1 == s.len() && s[k9] == 125 {
                Some(Interval { start_time: st, end_time: en, count: ct, units: un, id: Some(idv) })
            } else {
                None
            }
        },
        None => {
            if k8 < s.len() && k8 + 1 == s.len() && s[k8] == 125 {
                Some(Interval { start_time: st, end_time: en, count: ct, units: un, id: None })
            } else {
                None
            }
        },
    }
}

} // verus!
