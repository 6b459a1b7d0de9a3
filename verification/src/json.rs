//! The compact JSON body sent with every reading:
//! `{"temperature":<value>,"humidity":<value>}`.
//!
//! Readings are fixed-point (hundredths), so a value is printed as an
//! optional minus sign, the units in decimal without leading zeros, a dot,
//! and exactly two fraction digits. The module also defines parsing of that
//! shape and proves the round trip: a produced body parses back to the very
//! measurement it was built from.

use vstd::prelude::*;
use vstd::arithmetic::div_mod::lemma_fundamental_div_mod;
use crate::measurement::Measurement;
use crate::measurement::CENTI_LIMIT;

verus! {

/// ASCII codes used below: 45 `-`, 46 `.`, 48..=57 `0`..`9`, 44 `,`,
/// 123 `{`, 125 `}`, 34 `"`, 58 `:`.
pub open spec fn is_digit(b: u8) -> bool {
    48 <= b && b <= 57
}

pub open spec fn digit_byte(d: int) -> u8
    recommends
        0 <= d < 10,
{
    (48 + d) as u8
}

/// Decimal digits of `n`, most significant first, no leading zeros.
pub open spec fn dec_digits(n: nat) -> Seq<u8>
    decreases n,
{
    if n < 10 {
        seq![digit_byte(n as int)]
    } else {
        dec_digits(n / 10).push(digit_byte((n % 10) as int))
    }
}

/// Numeric value of a digit string, most significant first.
pub open spec fn dec_val(s: Seq<u8>) -> int
    decreases s.len(),
{
    if s.len() == 0 {
        0
    } else {
        dec_val(s.drop_last()) * 10 + (s.last() - 48)
    }
}

pub open spec fn all_digits(s: Seq<u8>) -> bool {
    forall|i: int| 0 <= i < s.len() ==> is_digit(s[i])
}

/// The digit strings the printer produces: nonempty, digits only, and no
/// leading zero unless the value is the single digit zero.
pub open spec fn canonical_digits(s: Seq<u8>) -> bool {
    &&& s.len() >= 1
    &&& all_digits(s)
    &&& (s[0] != 48 || s.len() == 1)
}

pub proof fn lemma_dec_digits_canonical(n: nat)
    ensures
        canonical_digits(dec_digits(n)),
        n >= 10 ==> dec_digits(n)[0] != 48,
    decreases n,
{
    if n >= 10 {
        lemma_dec_digits_canonical(n / 10);
        assert(dec_digits(n)[0] == dec_digits(n / 10)[0]);
        if n / 10 < 10 {
            assert(n / 10 >= 1);
        }
    }
}

pub proof fn lemma_dec_val_of_digits(n: nat)
    ensures
        dec_val(dec_digits(n)) == n,
    decreases n,
{
    if n < 10 {
        assert(dec_digits(n).drop_last() =~= Seq::<u8>::empty());
        assert(dec_val(Seq::<u8>::empty()) == 0);
        assert(dec_digits(n).last() == digit_byte(n as int));
        assert(digit_byte(n as int) == 48 + n);
        assert(dec_val(dec_digits(n)) == n);
    } else {
        lemma_dec_val_of_digits(n / 10);
        assert(dec_digits(n).drop_last() =~= dec_digits(n / 10));
        assert(dec_digits(n).last() == digit_byte((n % 10) as int));
        assert(dec_digits(n).last() - 48 == n % 10);
        assert(dec_val(dec_digits(n)) == (n / 10) * 10 + n % 10);
        lemma_fundamental_div_mod(n as int, 10);
        assert((n / 10) * 10 + n % 10 == n);
    }
}

/// Magnitude of a reading, in hundredths.
pub open spec fn centi_mag(v: int) -> nat {
    if v < 0 {
        (-v) as nat
    } else {
        v as nat
    }
}

/// The printed form of a fixed-point reading `v` (hundredths): sign, units,
/// a dot, two fraction digits.
pub open spec fn centi_bytes(v: int) -> Seq<u8> {
    let m = centi_mag(v);
    let sign: Seq<u8> = if v < 0 {
        seq![45u8]
    } else {
        Seq::<u8>::empty()
    };
    sign + dec_digits(m / 100) + seq![
        46u8,
        digit_byte((m % 100 / 10) as int),
        digit_byte((m % 100 % 10) as int),
    ]
}

/// Append the decimal digits of `n` to `out`.
pub fn push_dec_digits(n: u64, out: &mut Vec<u8>)
    ensures
        final(out)@ == old(out)@ + dec_digits(n as nat),
    decreases n,
{
    if n >= 10 {
        push_dec_digits(n / 10, out);
    }
    let d: u8 = (n % 10) as u8 + 48;
    out.push(d);
    proof {
        assert(out@ =~= old(out)@ + dec_digits(n as nat));
    }
}

/// Append the printed form of the fixed-point reading `v` to `out`.
pub fn push_centi(v: i64, out: &mut Vec<u8>)
    requires
        -CENTI_LIMIT <= v <= CENTI_LIMIT,
    ensures
        final(out)@ == old(out)@ + centi_bytes(v as int),
{
    let m: u64 = if v < 0 {
        out.push(45);
        (-v) as u64
    } else {
        v as u64
    };
    assert(m as nat == centi_mag(v as int));
    push_dec_digits(m / 100, out);
    out.push(46);
    out.push((m % 100 / 10) as u8 + 48);
    out.push((m % 100 % 10) as u8 + 48);
    proof {
        assert(out@ =~= old(out)@ + centi_bytes(v as int));
    }
}

/// `{"temperature":` as bytes.
pub open spec fn body_prefix() -> Seq<u8> {
    seq![123u8, 34, 116, 101, 109, 112, 101, 114, 97, 116, 117, 114, 101, 34, 58]
}

/// `,"humidity":` as bytes.
pub open spec fn body_sep() -> Seq<u8> {
    seq![44u8, 34, 104, 117, 109, 105, 100, 105, 116, 121, 34, 58]
}

/// The whole JSON body for one measurement.
pub open spec fn body_bytes(m: Measurement) -> Seq<u8> {
    body_prefix() + centi_bytes(m.temperature_centi as int) + body_sep()
        + centi_bytes(m.humidity_centi as int) + seq![125u8]
}

/// Serialize one measurement to its JSON body.
pub fn json_body(m: &Measurement) -> (r: Vec<u8>)
    requires
        m.wf(),
    ensures
        r@ == body_bytes(*m),
{
    let mut out: Vec<u8> = Vec::new();
    out.push(123);
    out.push(34);
    out.push(116);
    out.push(101);
    out.push(109);
    out.push(112);
    out.push(101);
    out.push(114);
    out.push(97);
    out.push(116);
    out.push(117);
    out.push(114);
    out.push(101);
    out.push(34);
    out.push(58);
    assert(out@ =~= body_prefix());
    push_centi(m.temperature_centi, &mut out);
    let ghost mid1 = out@;
    out.push(44);
    out.push(34);
    out.push(104);
    out.push(117);
    out.push(109);
    out.push(105);
    out.push(100);
    out.push(105);
    out.push(116);
    out.push(121);
    out.push(34);
    out.push(58);
    assert(out@ =~= mid1 + body_sep());
    push_centi(m.humidity_centi, &mut out);
    out.push(125);
    proof {
        assert(out@ =~= body_bytes(*m));
    }
    out
}

/// Parse the printed form of a fixed-point reading: an optional minus sign,
/// a canonical digit string, a dot, two fraction digits. Rejects `-0.00`.
pub open spec fn parse_centi(s: Seq<u8>) -> Option<int> {
    let neg = s.len() > 0 && s[0] == 45;
    let t = if neg {
        s.drop_first()
    } else {
        s
    };
    if t.len() >= 4 && t[t.len() - 3] == 46 && canonical_digits(t.take(t.len() - 3))
        && is_digit(t[t.len() - 2]) && is_digit(t[t.len() - 1]) {
        let units = dec_val(t.take(t.len() - 3));
        let frac = (t[t.len() - 2] - 48) * 10 + (t[t.len() - 1] - 48);
        let mag = units * 100 + frac;
        if neg {
            if mag > 0 {
                Some(-mag)
            } else {
                None
            }
        } else {
            Some(mag)
        }
    } else {
        None
    }
}

/// Index of the first occurrence of `b` in `s`, or -1.
pub open spec fn find_byte(s: Seq<u8>, b: u8) -> int
    decreases s.len(),
{
    if s.len() == 0 {
        -1
    } else if s[0] == b {
        0
    } else if find_byte(s.drop_first(), b) < 0 {
        -1
    } else {
        find_byte(s.drop_first(), b) + 1
    }
}

pub proof fn lemma_find_byte_concat(a: Seq<u8>, c: Seq<u8>, b: u8)
    requires
        forall|i: int| 0 <= i < a.len() ==> a[i] != b,
        c.len() > 0,
        c[0] == b,
    ensures
        find_byte(a + c, b) == a.len(),
    decreases a.len(),
{
    if a.len() == 0 {
        assert(a + c =~= c);
    } else {
        assert((a + c)[0] == a[0]);
        assert((a + c).drop_first() =~= a.drop_first() + c);
        lemma_find_byte_concat(a.drop_first(), c, b);
    }
}

/// Every byte of a printed reading is a minus sign, a dot or a digit; in
/// particular none is the field separator `,` or the closing `}`.
pub proof fn lemma_centi_bytes_classes(v: int)
    ensures
        forall|i: int| 0 <= i < centi_bytes(v).len()
            ==> #[trigger] centi_bytes(v)[i] == 45 || centi_bytes(v)[i] == 46
                || is_digit(centi_bytes(v)[i]),
{
    let m = centi_mag(v);
    lemma_dec_digits_canonical(m / 100);
    let s = centi_bytes(v);
    let d = dec_digits(m / 100);
    assert forall|i: int| 0 <= i < s.len()
        implies #[trigger] s[i] == 45 || s[i] == 46 || is_digit(s[i]) by {
        let off: int = if v < 0 { 1 } else { 0 };
        if i >= off && i < off + d.len() {
            assert(s[i] == d[i - off]);
            assert(is_digit(d[i - off]));
        }
    }
}

/// Parse a whole JSON body back into a measurement. Only the exact shape the
/// serializer produces is accepted.
pub open spec fn parse_body(s: Seq<u8>) -> Option<Measurement> {
    if s.len() >= 15 && s.take(15) == body_prefix() {
        let rest = s.skip(15);
        let c = find_byte(rest, 44);
        if c >= 0 {
            let tfield = rest.take(c);
            let after = rest.skip(c);
            if after.len() >= 13 && after.take(12) == body_sep() && after.last() == 125 {
                let hfield = after.skip(12).drop_last();
                match (parse_centi(tfield), parse_centi(hfield)) {
                    (Some(t), Some(h)) => {
                        if -CENTI_LIMIT <= t <= CENTI_LIMIT && -CENTI_LIMIT <= h <= CENTI_LIMIT {
                            Some(Measurement {
                                temperature_centi: t as i64,
                                humidity_centi: h as i64,
                            })
                        } else {
                            None
                        }
                    },
                    _ => None,
                }
            } else {
                None
            }
        } else {
            None
        }
    } else {
        None
    }
}

/// A printed reading parses back to the value it was printed from.
pub proof fn lemma_centi_round_trip(v: int)
    requires
        -CENTI_LIMIT <= v <= CENTI_LIMIT,
    ensures
        parse_centi(centi_bytes(v)) == Some(v),
{
    let m = centi_mag(v);
    let d = dec_digits(m / 100);
    lemma_dec_digits_canonical(m / 100);
    lemma_dec_val_of_digits(m / 100);
    let frac = seq![
        46u8,
        digit_byte((m % 100 / 10) as int),
        digit_byte((m % 100 % 10) as int),
    ];
    let s = centi_bytes(v);
    let t = d + frac;
    assert(t.len() == d.len() + 3);
    assert(t.take(t.len() - 3) =~= d);
    assert(t[t.len() - 3] == 46);
    assert(m % 100 / 10 < 10);
    assert(t[t.len() - 2] == digit_byte((m % 100 / 10) as int));
    assert(t[t.len() - 1] == digit_byte((m % 100 % 10) as int));
    assert(is_digit(t[t.len() - 2]) && is_digit(t[t.len() - 1]));
    assert((t[t.len() - 2] - 48) * 10 + (t[t.len() - 1] - 48)
        == (m % 100 / 10) * 10 + m % 100 % 10);
    lemma_fundamental_div_mod((m % 100) as int, 10);
    assert((m % 100 / 10) * 10 + m % 100 % 10 == m % 100);
    lemma_fundamental_div_mod(m as int, 100);
    assert(dec_val(t.take(t.len() - 3)) * 100 + ((t[t.len() - 2] - 48) * 10
        + (t[t.len() - 1] - 48)) == m);
    if v < 0 {
        assert(s[0] == 45);
        assert(s.drop_first() =~= t);
        assert(m > 0);
    } else {
        assert(s =~= t);
        assert(is_digit(s[0]));
    }
}

pub proof fn lemma_dec_val_nonneg(s: Seq<u8>)
    requires
        all_digits(s),
    ensures
        dec_val(s) >= 0,
    decreases s.len(),
{
    if s.len() > 0 {
        assert(all_digits(s.drop_last()));
        lemma_dec_val_nonneg(s.drop_last());
    }
}

/// A digit string is worth at least any of its prefixes.
pub proof fn lemma_dec_val_prefix(s: Seq<u8>, i: int)
    requires
        all_digits(s),
        0 <= i <= s.len(),
    ensures
        dec_val(s.take(i)) <= dec_val(s),
    decreases s.len() - i,
{
    if i < s.len() {
        assert(all_digits(s.take(i)));
        lemma_dec_val_nonneg(s.take(i));
        assert(s.take(i + 1).drop_last() =~= s.take(i));
        assert(dec_val(s.take(i + 1)) == dec_val(s.take(i)) * 10 + (s[i] - 48));
        lemma_dec_val_prefix(s, i + 1);
    } else {
        assert(s.take(i) =~= s);
    }
}

pub proof fn lemma_find_byte_at(s: Seq<u8>, b: u8, k: int)
    requires
        0 <= k < s.len(),
        s[k] == b,
        forall|j: int| 0 <= j < k ==> s[j] != b,
    ensures
        find_byte(s, b) == k,
    decreases k,
{
    if k > 0 {
        assert(s[0] != b);
        assert(forall|j: int| 0 <= j < k - 1 ==> s.drop_first()[j] == s[j + 1]);
        lemma_find_byte_at(s.drop_first(), b, k - 1);
    }
}

pub proof fn lemma_find_byte_absent(s: Seq<u8>, b: u8)
    requires
        forall|j: int| 0 <= j < s.len() ==> s[j] != b,
    ensures
        find_byte(s, b) == -1,
    decreases s.len(),
{
    if s.len() > 0 {
        lemma_find_byte_absent(s.drop_first(), b);
    }
}

/// Serialization round trip: the JSON body built from any well-formed
/// measurement parses back to exactly that measurement.
pub proof fn lemma_body_round_trip(m: Measurement)
    requires
        m.wf(),
    ensures
        parse_body(body_bytes(m)) == Some(m),
{
    let ct = centi_bytes(m.temperature_centi as int);
    let ch = centi_bytes(m.humidity_centi as int);
    let tail = body_sep() + ch + seq![125u8];
    let s = body_bytes(m);
    assert(s.take(15) =~= body_prefix());
    let rest = s.skip(15);
    assert(rest =~= ct + tail);
    lemma_centi_bytes_classes(m.temperature_centi as int);
    assert(forall|i: int| 0 <= i < ct.len() ==> ct[i] != 44);
    lemma_find_byte_concat(ct, tail, 44);
    let c = find_byte(rest, 44);
    assert(c == ct.len());
    assert(rest.take(c) =~= ct);
    let after = rest.skip(c);
    assert(after =~= tail);
    assert(after.take(12) =~= body_sep());
    assert(after.last() == 125);
    assert(after.skip(12).drop_last() =~= ch);
    lemma_centi_round_trip(m.temperature_centi as int);
    lemma_centi_round_trip(m.humidity_centi as int);
}

/// Does `s` hold exactly `pat` starting at `off`?
fn match_at(s: &[u8], off: usize, pat: &Vec<u8>) -> (r: bool)
    ensures
        r <==> (off + pat@.len() <= s@.len() && s@.subrange(
            off as int,
            off + pat@.len(),
        ) == pat@),
{
    if off > s.len() || s.len() - off < pat.len() {
        return false;
    }
    let mut i: usize = 0;
    while i < pat.len()
        invariant
            0 <= i <= pat@.len(),
            off + pat@.len() <= s@.len(),
            off + pat@.len() <= usize::MAX,
            forall|j: int| 0 <= j < i ==> s@[off + j] == pat@[j],
        decreases pat@.len() - i,
    {
        if s[off + i] != pat[i] {
            proof {
                assert(s@.subrange(off as int, off + pat@.len())[i as int] == s@[off + i]);
            }
            return false;
        }
        i = i + 1;
    }
    proof {
        assert(s@.subrange(off as int, off + pat@.len()) =~= pat@);
    }
    true
}

/// The bytes of `{"temperature":`.
fn body_prefix_vec() -> (r: Vec<u8>)
    ensures
        r@ == body_prefix(),
{
    let mut v: Vec<u8> = Vec::new();
    v.push(123);
    v.push(34);
    v.push(116);
    v.push(101);
    v.push(109);
    v.push(112);
    v.push(101);
    v.push(114);
    v.push(97);
    v.push(116);
    v.push(117);
    v.push(114);
    v.push(101);
    v.push(34);
    v.push(58);
    proof {
        assert(v@ =~= body_prefix());
    }
    v
}

/// The bytes of `,"humidity":`.
fn body_sep_vec() -> (r: Vec<u8>)
    ensures
        r@ == body_sep(),
{
    let mut v: Vec<u8> = Vec::new();
    v.push(44);
    v.push(34);
    v.push(104);
    v.push(117);
    v.push(109);
    v.push(105);
    v.push(100);
    v.push(105);
    v.push(116);
    v.push(121);
    v.push(34);
    v.push(58);
    proof {
        assert(v@ =~= body_sep());
    }
    v
}

/// First `,` at or after `from`.
fn find_comma_from(s: &[u8], from: usize) -> (r: Option<usize>)
    requires
        from <= s@.len(),
    ensures
        r matches Some(i) ==> from <= i < s@.len() && find_byte(s@.skip(from as int), 44)
            == i - from,
        r is None ==> find_byte(s@.skip(from as int), 44) == -1,
{
    let ghost rest = s@.skip(from as int);
    proof {
        assert(forall|j: int| 0 <= j < rest.len() ==> rest[j] == s@[from + j]);
    }
    let mut i: usize = from;
    while i < s.len()
        invariant
            from <= i <= s@.len(),
            rest == s@.skip(from as int),
            forall|j: int| from <= j < i ==> s@[j] != 44,
        decreases s@.len() - i,
    {
        if s[i] == 44 {
            proof {
                assert(forall|j: int| 0 <= j < rest.len() ==> rest[j] == s@[from + j]);
                lemma_find_byte_at(rest, 44, i - from);
            }
            return Some(i);
        }
        i = i + 1;
    }
    proof {
        assert(forall|j: int| 0 <= j < rest.len() ==> rest[j] == s@[from + j]);
        lemma_find_byte_absent(rest, 44);
    }
    None
}

/// Parse the reading printed in `s[lo..hi]`. Agrees with [`parse_centi`] on
/// that range, except that a value outside the fixed-point range is reported
/// as unparseable rather than returned.
fn parse_centi_slice(s: &[u8], lo: usize, hi: usize) -> (r: Option<i64>)
    requires
        lo <= hi <= s@.len(),
    ensures
        r matches Some(v) ==> parse_centi(s@.subrange(lo as int, hi as int)) == Some(v as int)
            && -CENTI_LIMIT <= v <= CENTI_LIMIT,
        r is None ==> (parse_centi(s@.subrange(lo as int, hi as int)) is None || !{
            let w = parse_centi(s@.subrange(lo as int, hi as int))->Some_0;
            -CENTI_LIMIT <= w <= CENTI_LIMIT
        }),
{
    let ghost f = s@.subrange(lo as int, hi as int);
    if hi == lo {
        return None;
    }
    let neg = s[lo] == 45;
    let ustart = if neg {
        lo + 1
    } else {
        lo
    };
    let ghost t = if neg {
        f.drop_first()
    } else {
        f
    };
    proof {
        assert(t =~= s@.subrange(ustart as int, hi as int));
    }
    if hi - ustart < 4 {
        return None;
    }
    let dot = hi - 3;
    assert(t[t.len() - 3] == s@[dot as int]);
    assert(t[t.len() - 2] == s@[hi - 2]);
    assert(t[t.len() - 1] == s@[hi - 1]);
    if s[dot] != 46 {
        return None;
    }
    let b1 = s[hi - 2];
    let b2 = s[hi - 1];
    if b1 < 48 || b1 > 57 || b2 < 48 || b2 > 57 {
        return None;
    }
    let ghost units = t.take(t.len() - 3);
    proof {
        assert(units =~= s@.subrange(ustart as int, dot as int));
    }
    if s[ustart] == 48 && dot - ustart > 1 {
        assert(!canonical_digits(units));
        return None;
    }
    let mut acc: u64 = 0;
    let mut i: usize = ustart;
    while i < dot
        invariant
            ustart <= i <= dot,
            dot == hi - 3,
            ustart + 1 <= dot,
            hi <= s@.len(),
            lo <= ustart <= hi,
            acc <= 10_000,
            all_digits(s@.subrange(ustart as int, i as int)),
            acc == dec_val(s@.subrange(ustart as int, i as int)),
            units == s@.subrange(ustart as int, dot as int),
            t == s@.subrange(ustart as int, hi as int),
            f == s@.subrange(lo as int, hi as int),
            ustart == (if s@[lo as int] == 45 { lo + 1 } else { lo as int }),
            lo < hi <= s@.len(),
        decreases dot - i,
    {
        let b = s[i];
        if b < 48 || b > 57 {
            proof {
                assert(units[i - ustart] == s@[i as int]);
                assert(!all_digits(units));
                assert(!canonical_digits(units));
                assert(f.len() > 0 && f[0] == s@[lo as int]);
                if s@[lo as int] == 45 {
                    assert(t =~= f.drop_first());
                } else {
                    assert(t =~= f);
                }
                assert(t.take(t.len() - 3) =~= units);
            }
            return None;
        }
        proof {
            assert(s@.subrange(ustart as int, i + 1).drop_last() =~= s@.subrange(
                ustart as int,
                i as int,
            ));
            assert(s@.subrange(ustart as int, i + 1).last() == s@[i as int]);
        }
        let d: u64 = (b - 48) as u64;
        if acc > 1_000 || acc * 10 + d > 10_000 {
            proof {
                assert(s@.len() > lo);
                assert(dec_val(s@.subrange(ustart as int, i + 1)) == acc * 10 + d);
                assert(acc * 10 + d > 10_000);
                lemma_scanned_prefix_too_large(s@, lo as int, hi as int, ustart as int, i + 1);
            }
            return None;
        }
        acc = acc * 10 + d;
        i = i + 1;
    }
    proof {
        assert(s@.subrange(ustart as int, i as int) =~= units);
    }
    let frac: u64 = ((b1 - 48) as u64) * 10 + ((b2 - 48) as u64);
    let mag: u64 = acc * 100 + frac;
    assert(canonical_digits(units));
    assert(mag == dec_val(units) * 100 + ((t[t.len() - 2] - 48) * 10 + (t[t.len() - 1] - 48)));
    if mag > 1_000_000 {
        return None;
    }
    if neg {
        if mag == 0 {
            return None;
        }
        Some(-(mag as i64))
    } else {
        Some(mag as i64)
    }
}

/// When a scanned prefix of the units digits is already worth more than the
/// fixed-point bound, whatever `parse_centi` makes of the whole field is
/// outside the range too (or nothing at all).
proof fn lemma_scanned_prefix_too_large(s: Seq<u8>, lo: int, hi: int, ustart: int, upto: int)
    requires
        0 <= lo <= hi <= s.len(),
        lo <= ustart <= upto,
        ustart == if s.len() > lo && s[lo] == 45 {
            lo + 1
        } else {
            lo
        },
        hi - ustart >= 4,
        upto <= hi - 3,
        all_digits(s.subrange(ustart, upto)),
        dec_val(s.subrange(ustart, upto)) > 10_000,
    ensures
        parse_centi(s.subrange(lo, hi)) is None || !{
            let w = parse_centi(s.subrange(lo, hi))->Some_0;
            -CENTI_LIMIT <= w <= CENTI_LIMIT
        },
{
    let f = s.subrange(lo, hi);
    let neg = f.len() > 0 && f[0] == 45;
    let t = if neg {
        f.drop_first()
    } else {
        f
    };
    assert(t =~= s.subrange(ustart, hi));
    let units = t.take(t.len() - 3);
    assert(units =~= s.subrange(ustart, hi - 3));
    if t.len() >= 4 && t[t.len() - 3] == 46 && canonical_digits(units) && is_digit(
        t[t.len() - 2],
    ) && is_digit(t[t.len() - 1]) {
        assert(units.take(upto - ustart) =~= s.subrange(ustart, upto));
        lemma_dec_val_prefix(units, upto - ustart);
        assert(dec_val(units) > 10_000);
    }
}

/// Parse a JSON body produced by [`json_body`] back into a measurement;
/// anything but that exact shape is rejected.
pub fn parse_json_body(s: &[u8]) -> (r: Option<Measurement>)
    ensures
        r == parse_body(s@),
{
    let prefix = body_prefix_vec();
    if !match_at(s, 0, &prefix) {
        proof {
            if s@.len() >= 15 {
                assert(s@.take(15) =~= s@.subrange(0, 15));
            }
        }
        return None;
    }
    proof {
        assert(s@.take(15) =~= s@.subrange(0, 15));
    }
    let comma = match find_comma_from(s, 15) {
        Some(i) => i,
        None => {
            return None;
        },
    };
    let ghost rest = s@.skip(15);
    let ghost c = comma - 15int;
    proof {
        assert(rest.take(c) =~= s@.subrange(15, comma as int));
        assert(rest.skip(c) =~= s@.skip(comma as int));
    }
    let ghost after = rest.skip(c);
    if s.len() - comma < 13 {
        return None;
    }
    let sep = body_sep_vec();
    if !match_at(s, comma, &sep) {
        proof {
            assert(after.take(12) =~= s@.subrange(comma as int, comma + 12));
        }
        return None;
    }
    proof {
        assert(after.take(12) =~= s@.subrange(comma as int, comma + 12));
    }
    if s[s.len() - 1] != 125 {
        proof {
            assert(after.last() == s@[s@.len() - 1]);
        }
        return None;
    }
    proof {
        assert(after.last() == s@[s@.len() - 1]);
        assert(after.skip(12).drop_last() =~= s@.subrange(comma + 12, s@.len() - 1));
    }
    let t = match parse_centi_slice(s, 15, comma) {
        Some(v) => v,
        None => {
            return None;
        },
    };
    let h = match parse_centi_slice(s, comma + 12, s.len() - 1) {
        Some(v) => v,
        None => {
            return None;
        },
    };
    Some(Measurement { temperature_centi: t, humidity_centi: h })
}

} // verus!
