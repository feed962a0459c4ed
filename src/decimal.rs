use vstd::prelude::*;

use crate::types::Amount;
use crate::types::AMOUNT_SCALE;

verus! {

pub open spec fn is_decimal_digit(b: u8) -> bool {
    0x30 <= b <= 0x39
}

pub open spec fn is_hex_digit(b: u8) -> bool {
    is_decimal_digit(b) || 0x61 <= b <= 0x66 || 0x41 <= b <= 0x46
}

pub open spec fn is_digit(b: u8, radix: nat) -> bool {
    if radix == 16 {
        is_hex_digit(b)
    } else {
        is_decimal_digit(b)
    }
}

/// The value of one ASCII digit, decimal or hexadecimal.
pub open spec fn digit_value(b: u8) -> nat {
    if is_decimal_digit(b) {
        (b - 0x30) as nat
    } else if 0x61 <= b <= 0x66 {
        (b - 0x61 + 10) as nat
    } else {
        (b - 0x41 + 10) as nat
    }
}

pub open spec fn all_digits(s: Seq<u8>, radix: nat) -> bool {
    forall|i: int| 0 <= i < s.len() ==> is_digit(#[trigger] s[i], radix)
}

/// The number that a string of digits writes in base `radix`.
pub open spec fn digits_value(s: Seq<u8>, radix: nat) -> nat
    decreases s.len(),
{
    if s.len() == 0 {
        0
    } else {
        digits_value(s.drop_last(), radix) * radix + digit_value(s.last())
    }
}

/// The digits after an optional leading `+`.
pub open spec fn unsigned_body(s: Seq<u8>) -> Seq<u8> {
    if s.len() > 0 && s[0] == 0x2b {
        s.skip(1)
    } else {
        s
    }
}

/// The number that `s` writes in base `radix`: an optional `+`, then one
/// digit or more.
pub open spec fn radix_value(s: Seq<u8>, radix: nat) -> Option<nat> {
    let d = unsigned_body(s);
    if d.len() > 0 && all_digits(d, radix) {
        Some(digits_value(d, radix))
    } else {
        None
    }
}

/// The unsigned integer that a field writes: hexadecimal after a `0x`
/// prefix, decimal otherwise.
pub open spec fn uint_value(s: Seq<u8>) -> Option<nat> {
    if s.len() >= 2 && s[0] == 0x30 && s[1] == 0x78 {
        radix_value(s.skip(2), 16)
    } else {
        radix_value(s, 10)
    }
}

proof fn lemma_digits_value_grows(s: Seq<u8>, radix: nat, i: int)
    requires
        0 <= i <= s.len(),
        radix >= 1,
    ensures
        digits_value(s.take(i), radix) <= digits_value(s, radix),
    decreases s.len() - i,
{
    if i < s.len() {
        lemma_digits_value_grows(s, radix, i + 1);
        assert(s.take(i + 1).drop_last() =~= s.take(i));
        let v = digits_value(s.take(i), radix);
        assert(v * radix >= v) by (nonlinear_arith)
            requires
                radix >= 1,
        ;
    } else {
        assert(s.take(i) =~= s);
    }
}

fn digit_of(b: u8) -> (r: u64)
    requires
        is_hex_digit(b),
    ensures
        r == digit_value(b),
{
    if 0x30 <= b && b <= 0x39 {
        (b - 0x30) as u64
    } else if 0x61 <= b && b <= 0x66 {
        (b - 0x61 + 10) as u64
    } else {
        (b - 0x41 + 10) as u64
    }
}

/// Reads `s[lo..hi]`, digits only, as a number in base `radix` when it is at
/// most `max`; an empty range reads as zero.
fn parse_digits(s: &[u8], lo: usize, hi: usize, radix: u64, max: u64) -> (r: Option<u64>)
    requires
        lo <= hi <= s@.len(),
        radix == 10 || radix == 16,
    ensures
        ({
            let d = s@.subrange(lo as int, hi as int);
            r == if all_digits(d, radix as nat) && digits_value(d, radix as nat) <= max {
                Some(digits_value(d, radix as nat) as u64)
            } else {
                None::<u64>
            }
        }),
{
    let ghost d = s@.subrange(lo as int, hi as int);
    let mut i = lo;
    let mut acc: u64 = 0;
    while i < hi
        invariant
            lo <= i <= hi <= s@.len(),
            d == s@.subrange(lo as int, hi as int),
            radix == 10 || radix == 16,
            acc <= max,
            acc == digits_value(d.take(i - lo), radix as nat),
            all_digits(d.take(i - lo), radix as nat),
        decreases hi - i,
    {
        let ghost k = i - lo;
        let b = s[i];
        let digit = if radix == 16 {
            (0x30 <= b && b <= 0x39) || (0x61 <= b && b <= 0x66) || (0x41 <= b && b <= 0x46)
        } else {
            0x30 <= b && b <= 0x39
        };
        assert(d[k] == b);
        if !digit {
            return None;
        }
        let v = digit_of(b);
        assert(d.take(k + 1).drop_last() =~= d.take(k));
        assert(d.take(k + 1).last() == b);
        assert(all_digits(d.take(k + 1), radix as nat));
        if v > max {
            proof {
                lemma_digits_value_grows(d, radix as nat, k + 1);
            }
            return None;
        }
        let q = (max - v) / radix;
        if acc > q {
            proof {
                assert(acc * radix + v > max) by (nonlinear_arith)
                    requires
                        acc > q,
                        q == (max as int - v as int) / (radix as int),
                        radix > 0,
                        v <= max,
                ;
                lemma_digits_value_grows(d, radix as nat, k + 1);
            }
            return None;
        }
        assert(acc * radix + v <= max) by (nonlinear_arith)
            requires
                acc <= q,
                q == (max as int - v as int) / (radix as int),
                radix > 0,
                v <= max,
        ;
        acc = acc * radix + v;
        i = i + 1;
    }
    assert(d.take(hi - lo) =~= d);
    Some(acc)
}

/// Reads `s[start..]` as a number in base `radix` (an optional `+`, then
/// digits) when it is at most `max`.
fn parse_radix(s: &[u8], start: usize, radix: u64, max: u64) -> (r: Option<u64>)
    requires
        start <= s@.len(),
        radix == 10 || radix == 16,
    ensures
        r == (match radix_value(s@.skip(start as int), radix as nat) {
            Some(v) => if v <= max {
                Some(v as u64)
            } else {
                None
            },
            None => None,
        }),
{
    let ghost t = s@.skip(start as int);
    let mut i = start;
    if i < s.len() && s[i] == 0x2b {
        i = i + 1;
    }
    assert(unsigned_body(t) =~= s@.subrange(i as int, s@.len() as int));
    if i == s.len() {
        return None;
    }
    parse_digits(s, i, s.len(), radix, max)
}

/// Reads an unsigned integer field as the `csv` crate's deserializer does:
/// hexadecimal after a `0x` prefix, else decimal; `None` when the field is
/// malformed or its value exceeds `max`.
pub fn parse_uint(s: &[u8], max: u64) -> (r: Option<u64>)
    ensures
        r == (match uint_value(s@) {
            Some(v) => if v <= max {
                Some(v as u64)
            } else {
                None
            },
            None => None,
        }),
{
    if s.len() >= 2 && s[0] == 0x30 && s[1] == 0x78 {
        parse_radix(s, 2, 16, max)
    } else {
        assert(s@.skip(0) =~= s@);
        parse_radix(s, 0, 10, max)
    }
}

pub open spec fn pow10(n: nat) -> nat
    decreases n,
{
    if n == 0 {
        1
    } else {
        10 * pow10((n - 1) as nat)
    }
}

/// `d` is digits, a point at `i`, and at most four digits, with at least
/// one digit in all.
pub open spec fn is_point_split(d: Seq<u8>, i: int) -> bool {
    &&& 0 <= i < d.len()
    &&& d[i] == 0x2e
    &&& all_digits(d.take(i), 10)
    &&& all_digits(d.skip(i + 1), 10)
    &&& d.len() > 1
    &&& d.len() - i - 1 <= 4
}

/// The amount, in ten-thousandths, that a field writes: an optional `+`,
/// then decimal digits with an optional point followed by at most four
/// fractional digits (`1`, `1.5`, `.25`, `2.`, `+0.0001`).
pub open spec fn amount_value(s: Seq<u8>) -> Option<nat> {
    let d = unsigned_body(s);
    if exists|i: int| is_point_split(d, i) {
        let i = choose|i: int| is_point_split(d, i);
        let frac = d.skip(i + 1);
        Some(
            digits_value(d.take(i), 10) * 10000 + digits_value(frac, 10) * pow10(
                (4 - frac.len()) as nat,
            ),
        )
    } else if d.len() > 0 && all_digits(d, 10) {
        Some(digits_value(d, 10) * 10000)
    } else {
        None
    }
}

/// An amount that fits in an `Amount`.
pub open spec fn as_amount(v: Option<nat>) -> Option<Amount> {
    match v {
        Some(v) => if v <= u64::MAX {
            Some(v as u64)
        } else {
            None
        },
        None => None,
    }
}

/// Reads an amount field (see `amount_value`); `None` when it is malformed
/// or too large for an `Amount`.
pub fn parse_amount(s: &[u8]) -> (r: Option<Amount>)
    ensures
        r == as_amount(amount_value(s@)),
{
    let mut lo: usize = 0;
    if s.len() > 0 && s[0] == 0x2b {
        lo = 1;
    }
    assert(unsigned_body(s@) =~= s@.subrange(lo as int, s@.len() as int));
    let mut i = lo;
    while i < s.len() && s[i] != 0x2e
        invariant
            lo <= i <= s@.len(),
            forall|j: int| lo <= j < i ==> s@[j] != 0x2e,
        decreases s.len() - i,
    {
        i = i + 1;
    }
    if i == s.len() {
        parse_whole_amount(s, lo)
    } else {
        parse_pointed_amount(s, lo, i)
    }
}

/// `parse_amount` on a field without a point.
fn parse_whole_amount(s: &[u8], lo: usize) -> (r: Option<Amount>)
    requires
        lo <= s@.len(),
        unsigned_body(s@) == s@.subrange(lo as int, s@.len() as int),
        forall|j: int| lo <= j < s@.len() ==> s@[j] != 0x2e,
    ensures
        r == as_amount(amount_value(s@)),
{
    let ghost d = unsigned_body(s@);
    assert forall|j: int| !is_point_split(d, j) by {
        if 0 <= j < d.len() {
            assert(d[j] == s@[lo + j]);
        }
    }
    if lo == s.len() {
        return None;
    }
    let whole = parse_digits(s, lo, s.len(), 10, u64::MAX / AMOUNT_SCALE);
    match whole {
        Some(w) => Some(w * AMOUNT_SCALE),
        None => {
            proof {
                let v = digits_value(d, 10);
                if all_digits(d, 10) {
                    assert(v * 10000 > u64::MAX) by (nonlinear_arith)
                        requires
                            v > u64::MAX / 10000,
                    ;
                }
            }
            None
        },
    }
}

/// `parse_amount` on a field whose first point is at `i`.
fn parse_pointed_amount(s: &[u8], lo: usize, i: usize) -> (r: Option<Amount>)
    requires
        lo <= i < s@.len(),
        unsigned_body(s@) == s@.subrange(lo as int, s@.len() as int),
        forall|j: int| lo <= j < i ==> s@[j] != 0x2e,
        s@[i as int] == 0x2e,
    ensures
        r == as_amount(amount_value(s@)),
{
    let ghost d = unsigned_body(s@);
    let ghost p = i - lo;
    assert(d[p] == 0x2e);
    assert forall|j: int| 0 <= j < p implies d[j] != 0x2e by {
        assert(d[j] == s@[lo + j]);
    }
    assert(d.take(p) =~= s@.subrange(lo as int, i as int));
    assert(d.skip(p + 1) =~= s@.subrange(i + 1, s@.len() as int));
    proof {
        lemma_point_unique(d, p);
        if all_digits(d.skip(p + 1), 10) {
            lemma_digits_bound(d.skip(p + 1));
            reveal_with_fuel(pow10, 5);
        }
    }
    if s.len() - i - 1 > 4 || s.len() - lo <= 1 {
        return None;
    }
    let frac_len = s.len() - i - 1;
    let frac = parse_digits(s, i + 1, s.len(), 10, 9999);
    let whole = parse_digits(s, lo, i, 10, u64::MAX);
    match (whole, frac) {
        (Some(w), Some(f)) => {
            let scale: u64 = if frac_len == 0 {
                10000
            } else if frac_len == 1 {
                1000
            } else if frac_len == 2 {
                100
            } else if frac_len == 3 {
                10
            } else {
                1
            };
            proof {
                reveal_with_fuel(pow10, 5);
            }
            assert(scale == pow10((4 - frac_len) as nat));
            assert(f * scale <= 9999 * 10000) by (nonlinear_arith)
                requires
                    f <= 9999,
                    scale <= 10000,
            ;
            let fs = f * scale;
            if w > (u64::MAX - fs) / AMOUNT_SCALE {
                assert(w * 10000 + fs > u64::MAX) by (nonlinear_arith)
                    requires
                        w > (u64::MAX - fs) / 10000,
                        fs <= u64::MAX,
                ;
                None
            } else {
                assert(w * 10000 + fs <= u64::MAX) by (nonlinear_arith)
                    requires
                        w <= (u64::MAX - fs) / 10000,
                        fs <= u64::MAX,
                ;
                Some(w * AMOUNT_SCALE + fs)
            }
        },
        (None, Some(f)) => {
            proof {
                let v = digits_value(d.take(p), 10);
                if all_digits(d.take(p), 10) {
                    assert(v * 10000 + f * pow10((4 - frac_len) as nat) > u64::MAX) by (
                    nonlinear_arith)
                        requires
                            v > u64::MAX,
                    ;
                }
            }
            None
        },
        (_, None) => {
            assert(!is_point_split(d, p));
            None
        },
    }
}

/// `n` decimal digits write a number below `10^n`.
proof fn lemma_digits_bound(s: Seq<u8>)
    requires
        all_digits(s, 10),
    ensures
        digits_value(s, 10) < pow10(s.len()),
    decreases s.len(),
{
    if s.len() > 0 {
        let t = s.drop_last();
        assert(all_digits(t, 10)) by {
            assert forall|i: int| 0 <= i < t.len() implies is_digit(#[trigger] t[i], 10) by {
                assert(t[i] == s[i]);
            }
        }
        lemma_digits_bound(t);
        let v = digits_value(t, 10);
        let m = pow10(t.len());
        assert(is_digit(s[s.len() - 1], 10));
        assert(v * 10 + digit_value(s.last()) < m * 10) by (nonlinear_arith)
            requires
                v < m,
                digit_value(s.last()) <= 9,
        ;
    }
}

/// The decimal digits of `n`, most significant first, without leading zeros.
pub open spec fn decimal_digits(n: nat) -> Seq<u8>
    decreases n,
{
    if n < 10 {
        seq![(n + 0x30) as u8]
    } else {
        decimal_digits(n / 10).push((n % 10 + 0x30) as u8)
    }
}

/// An amount written with exactly four fractional digits: `15000` is `1.5000`.
pub open spec fn amount_text_of(a: nat) -> Seq<u8> {
    let f = a % 10000;
    decimal_digits(a / 10000) + seq![
        0x2eu8,
        (f / 1000 + 0x30) as u8,
        (f / 100 % 10 + 0x30) as u8,
        (f / 10 % 10 + 0x30) as u8,
        (f % 10 + 0x30) as u8,
    ]
}

fn decimal_text(n: u64) -> (r: Vec<u8>)
    ensures
        r@ == decimal_digits(n as nat),
{
    let mut v = n;
    let mut out: Vec<u8> = Vec::new();
    while v >= 10
        invariant
            decimal_digits(n as nat) == decimal_digits(v as nat) + out@,
        decreases v,
    {
        let ghost before = out@;
        out.insert(0, (v % 10) as u8 + 0x30);
        assert(decimal_digits(v as nat) == decimal_digits((v / 10) as nat).push(
            (v % 10 + 0x30) as u8,
        ));
        assert(decimal_digits(v as nat) + before =~= decimal_digits((v / 10) as nat) + out@);
        v = v / 10;
    }
    let ghost before = out@;
    out.insert(0, v as u8 + 0x30);
    assert(decimal_digits(v as nat) + before =~= out@);
    out
}

/// Writes an amount with exactly four fractional digits, as the output
/// format shows balances.
pub fn amount_text(a: Amount) -> (r: Vec<u8>)
    ensures
        r@ == amount_text_of(a as nat),
{
    let mut out = decimal_text(a / AMOUNT_SCALE);
    let f = a % AMOUNT_SCALE;
    out.push(0x2e);
    out.push((f / 1000) as u8 + 0x30);
    out.push((f / 100 % 10) as u8 + 0x30);
    out.push((f / 10 % 10) as u8 + 0x30);
    out.push((f % 10) as u8 + 0x30);
    assert(out@ =~= amount_text_of(a as nat));
    out
}

proof fn lemma_decimal_digits(n: nat)
    ensures
        decimal_digits(n).len() >= 1,
        all_digits(decimal_digits(n), 10),
        digits_value(decimal_digits(n), 10) == n,
    decreases n,
{
    let d = decimal_digits(n);
    if n < 10 {
        assert(d.drop_last() =~= Seq::<u8>::empty());
        assert(digit_value(d.last()) == n);
        assert(digits_value(d, 10) == digits_value(d.drop_last(), 10) * 10 + digit_value(d.last()));
        assert(digits_value(d.drop_last(), 10) == 0);
    } else {
        lemma_decimal_digits(n / 10);
        assert(d.drop_last() =~= decimal_digits(n / 10));
        assert(digit_value(d.last()) == n % 10);
        assert((n / 10) * 10 + n % 10 == n);
        assert(digits_value(d, 10) == digits_value(d.drop_last(), 10) * 10 + digit_value(d.last()));
        assert forall|i: int| 0 <= i < d.len() implies is_digit(#[trigger] d[i], 10) by {
            if i < d.len() - 1 {
                assert(d[i] == decimal_digits(n / 10)[i]);
            }
        }
    }
}

/// An amount written by `amount_text` reads back as the same amount.
pub proof fn lemma_amount_text_round_trip(a: nat)
    ensures
        amount_value(amount_text_of(a)) == Some(a),
{
    let t = amount_text_of(a);
    let whole = decimal_digits(a / 10000);
    let p = whole.len() as int;
    let f = a % 10000;
    lemma_decimal_digits(a / 10000);
    assert(unsigned_body(t) == t) by {
        assert(is_digit(whole[0], 10));
    }
    let frac = t.skip(p + 1);
    assert(t.take(p) =~= whole);
    assert(frac =~= seq![
        (f / 1000 + 0x30) as u8,
        (f / 100 % 10 + 0x30) as u8,
        (f / 10 % 10 + 0x30) as u8,
        (f % 10 + 0x30) as u8,
    ]);
    assert forall|j: int| 0 <= j < p implies t[j] != 0x2e by {
        assert(t[j] == whole[j]);
        assert(is_digit(whole[j], 10));
    }
    assert(all_digits(frac, 10));
    assert(is_point_split(t, p));
    lemma_point_unique(t, p);
    reveal_with_fuel(digits_value, 5);
    assert(frac.drop_last().drop_last().drop_last().drop_last() =~= Seq::<u8>::empty());
    assert(digits_value(frac, 10) == f) by {
        assert(frac.drop_last().drop_last().drop_last() =~= seq![(f / 1000 + 0x30) as u8]);
        assert(frac.drop_last().drop_last() =~= seq![
            (f / 1000 + 0x30) as u8,
            (f / 100 % 10 + 0x30) as u8,
        ]);
        assert(frac.drop_last() =~= seq![
            (f / 1000 + 0x30) as u8,
            (f / 100 % 10 + 0x30) as u8,
            (f / 10 % 10 + 0x30) as u8,
        ]);
        assert(((f / 1000 * 10 + f / 100 % 10) * 10 + f / 10 % 10) * 10 + f % 10 == f) by (
        nonlinear_arith)
            requires
                f < 10000,
        ;
    }
    assert(pow10(0) == 1);
    assert(digits_value(t.take(p), 10) == a / 10000);
    assert((a / 10000) * 10000 + f == a);
    assert((4 - frac.len()) as nat == 0);
    assert(digits_value(frac, 10) * 1 == f);
    assert(digits_value(frac, 10) * pow10((4 - frac.len()) as nat) == f);
}

/// In `d`, whose first point is at `p`, only `p` can split it into a whole
/// and a fractional part, and `d` is not a plain number.
proof fn lemma_point_unique(d: Seq<u8>, p: int)
    requires
        0 <= p < d.len(),
        d[p] == 0x2e,
        forall|j: int| 0 <= j < p ==> d[j] != 0x2e,
    ensures
        (exists|j: int| is_point_split(d, j)) <==> is_point_split(d, p),
        is_point_split(d, p) ==> (choose|j: int| is_point_split(d, j)) == p,
        !all_digits(d, 10),
{
    assert(!is_digit(d[p], 10));
    assert forall|j: int| is_point_split(d, j) implies j == p by {
        if j > p {
            assert(d.take(j)[p] == 0x2e);
            assert(!is_digit(d.take(j)[p], 10));
        }
    }
}

} // verus!
