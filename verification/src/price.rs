//! Validation and canonicalization of price strings.
//!
//! A price is a finite decimal number written as an optional sign, digits,
//! and at most one decimal point. Its canonical form drops the sign of zero,
//! leading integer zeros and trailing fractional zeros, so that `"10.00"`,
//! `"010"` and `"10"` all read `"10"`. The table stores and compares prices
//! in this canonical form.

use vstd::prelude::*;

verus! {

/// `c` is one of the characters `'0'` through `'9'`.
pub open spec fn is_digit_char(c: char) -> bool {
    48 <= c as u32 && c as u32 <= 57
}

/// Index where the digits begin: 1 when a sign is present, else 0.
pub open spec fn body_start(s: Seq<char>) -> int {
    if s.len() > 0 && (s[0] == '+' || s[0] == '-') {
        1
    } else {
        0
    }
}

/// The price is written with a leading minus sign.
pub open spec fn is_negative(s: Seq<char>) -> bool {
    s.len() > 0 && s[0] == '-'
}

/// The digits (and possibly one dot) after the optional sign.
pub open spec fn price_body(s: Seq<char>) -> Seq<char> {
    s.skip(body_start(s))
}

/// `d` marks the decimal point of `b`: either the index of the single dot,
/// or `b.len()` when there is none. Every other character is a digit, and
/// at least one digit is present.
pub open spec fn valid_body_at(b: Seq<char>, d: int) -> bool {
    &&& 0 <= d <= b.len()
    &&& d < b.len() ==> b[d] == '.'
    &&& forall|i: int| 0 <= i < b.len() && i != d ==> is_digit_char(#[trigger] b[i])
    &&& b.len() > if d < b.len() {
        1int
    } else {
        0int
    }
}

/// `s` reads as a finite decimal number: an optional sign, then digits with
/// at most one decimal point and at least one digit.
pub open spec fn valid_price(s: Seq<char>) -> bool {
    exists|d: int| valid_body_at(price_body(s), d)
}

pub proof fn lemma_valid_body_at_unique(b: Seq<char>, d1: int, d2: int)
    requires
        valid_body_at(b, d1),
        valid_body_at(b, d2),
    ensures
        d1 == d2,
{
    if d1 != d2 {
        if d1 < b.len() {
            assert(is_digit_char(b[d1]));
            assert(b[d1] == '.' || d1 == b.len());
            assert(false);
        } else {
            assert(d2 < b.len());
            assert(is_digit_char(b[d2]));
            assert(false);
        }
    }
}

/// The decimal-point mark of a valid body (unique by the lemma above).
pub open spec fn dot_of(b: Seq<char>) -> int {
    choose|d: int| valid_body_at(b, d)
}

pub open spec fn strip_leading_zeros(s: Seq<char>) -> Seq<char>
    decreases s.len(),
{
    if s.len() > 0 && s[0] == '0' {
        strip_leading_zeros(s.skip(1))
    } else {
        s
    }
}

pub open spec fn strip_trailing_zeros(s: Seq<char>) -> Seq<char>
    decreases s.len(),
{
    if s.len() > 0 && s.last() == '0' {
        strip_trailing_zeros(s.drop_last())
    } else {
        s
    }
}

/// Every digit of `b` is zero, so the number's value is zero.
pub open spec fn is_zero_digits(b: Seq<char>) -> bool {
    forall|i: int| 0 <= i < b.len() ==> #[trigger] b[i] == '0' || b[i] == '.'
}

/// The digits before the decimal point.
pub open spec fn int_digits(b: Seq<char>, d: int) -> Seq<char> {
    b.take(d)
}

/// The digits after the decimal point, if any.
pub open spec fn frac_digits(b: Seq<char>, d: int) -> Seq<char> {
    if d < b.len() {
        b.skip(d + 1)
    } else {
        Seq::empty()
    }
}

/// Canonical form of a valid body: integer digits without leading zeros
/// (or `"0"` when none remain), then the fraction without trailing zeros,
/// when any of it remains.
pub open spec fn canon_body(b: Seq<char>, d: int) -> Seq<char> {
    let ip = strip_leading_zeros(int_digits(b, d));
    let fp = strip_trailing_zeros(frac_digits(b, d));
    let ip2 = if ip.len() == 0 {
        seq!['0']
    } else {
        ip
    };
    if fp.len() == 0 {
        ip2
    } else {
        ip2 + seq!['.'] + fp
    }
}

/// Canonical string form of a valid price: `"0"` for a zero value, else the
/// possibly-signed canonical body.
pub open spec fn canon_price(s: Seq<char>) -> Seq<char>
    recommends
        valid_price(s),
{
    let b = price_body(s);
    if is_zero_digits(b) {
        seq!['0']
    } else if is_negative(s) {
        seq!['-'] + canon_body(b, dot_of(b))
    } else {
        canon_body(b, dot_of(b))
    }
}

proof fn lemma_strip_leading_zeros_at(s: Seq<char>, k: int)
    requires
        0 <= k <= s.len(),
        forall|j: int| 0 <= j < k ==> s[j] == '0',
        k < s.len() ==> s[k] != '0',
    ensures
        strip_leading_zeros(s) =~= s.skip(k),
    decreases k,
{
    if k == 0 {
        assert(s.skip(0) =~= s);
    } else {
        assert(s[0] == '0');
        lemma_strip_leading_zeros_at(s.skip(1), k - 1);
        assert(s.skip(1).skip(k - 1) =~= s.skip(k));
    }
}

proof fn lemma_strip_trailing_zeros_at(s: Seq<char>, k: int)
    requires
        0 <= k <= s.len(),
        forall|j: int| k <= j < s.len() ==> s[j] == '0',
        k > 0 ==> s[k - 1] != '0',
    ensures
        strip_trailing_zeros(s) =~= s.take(k),
    decreases s.len() - k,
{
    if k == s.len() {
        assert(s.take(k) =~= s);
    } else {
        assert(s.last() == '0');
        lemma_strip_trailing_zeros_at(s.drop_last(), k);
        assert(s.drop_last().take(k) =~= s.take(k));
    }
}

proof fn lemma_invalid_two_dots(s: Seq<char>, p1: int, p2: int)
    requires
        body_start(s) <= p1 < p2 < s.len(),
        s[p1] == '.',
        s[p2] == '.',
    ensures
        !valid_price(s),
{
    let st = body_start(s);
    let b = price_body(s);
    assert forall|d: int| !valid_body_at(b, d) by {
        if valid_body_at(b, d) {
            assert(b[p1 - st] == '.');
            assert(b[p2 - st] == '.');
            if d != p1 - st {
                assert(is_digit_char(b[p1 - st]));
            } else {
                assert(is_digit_char(b[p2 - st]));
            }
            assert(false);
        }
    }
}

proof fn lemma_invalid_bad_char(s: Seq<char>, p: int)
    requires
        body_start(s) <= p < s.len(),
        s[p] != '.',
        !is_digit_char(s[p]),
    ensures
        !valid_price(s),
{
    let st = body_start(s);
    let b = price_body(s);
    assert forall|d: int| !valid_body_at(b, d) by {
        if valid_body_at(b, d) {
            assert(b[p - st] == s[p]);
            if d == p - st {
                assert(b[d] == '.');
            } else {
                assert(is_digit_char(b[p - st]));
            }
            assert(false);
        }
    }
}

proof fn lemma_invalid_no_digit(s: Seq<char>)
    requires
        forall|j: int| body_start(s) <= j < s.len() ==> !is_digit_char(#[trigger] s[j]),
    ensures
        !valid_price(s),
{
    let st = body_start(s);
    let b = price_body(s);
    assert forall|d: int| !valid_body_at(b, d) by {
        if valid_body_at(b, d) {
            if d < b.len() {
                assert(b.len() > 1);
                let i = if d == 0 {
                    1int
                } else {
                    0int
                };
                assert(is_digit_char(b[i]));
                assert(b[i] == s[i + st]);
                assert(false);
            } else {
                assert(b.len() > 0);
                assert(is_digit_char(b[0]));
                assert(b[0] == s[st]);
                assert(false);
            }
        }
    }
}

proof fn lemma_strip_leading_props(s: Seq<char>)
    ensures
        ({
            let r = strip_leading_zeros(s);
            &&& r.len() <= s.len()
            &&& r =~= s.skip(s.len() - r.len())
            &&& forall|j: int| 0 <= j < s.len() - r.len() ==> s[j] == '0'
            &&& r.len() > 0 ==> r[0] != '0'
        }),
    decreases s.len(),
{
    if s.len() > 0 && s[0] == '0' {
        lemma_strip_leading_props(s.skip(1));
        let r = strip_leading_zeros(s);
        assert(s.skip(1).skip(s.skip(1).len() - r.len()) =~= s.skip(s.len() - r.len()));
        assert forall|j: int| 0 <= j < s.len() - r.len() implies s[j] == '0' by {
            if j > 0 {
                assert(s.skip(1)[j - 1] == s[j]);
            }
        }
    }
}

proof fn lemma_strip_trailing_props(s: Seq<char>)
    ensures
        ({
            let r = strip_trailing_zeros(s);
            &&& r.len() <= s.len()
            &&& r =~= s.take(r.len() as int)
            &&& forall|j: int| r.len() <= j < s.len() ==> s[j] == '0'
            &&& r.len() > 0 ==> r[r.len() - 1] != '0'
        }),
    decreases s.len(),
{
    if s.len() > 0 && s.last() == '0' {
        lemma_strip_trailing_props(s.drop_last());
        let r = strip_trailing_zeros(s);
        assert(s.drop_last().take(r.len() as int) =~= s.take(r.len() as int));
        assert forall|j: int| r.len() <= j < s.len() implies s[j] == '0' by {
            if j < s.len() - 1 {
                assert(s.drop_last()[j] == s[j]);
            }
        }
    }
}

/// Canonicalization is idempotent: a canonical price is itself a valid
/// price and reads back unchanged, so the table compares stored prices
/// soundly against freshly normalized ones.
pub proof fn lemma_canon_idempotent(s: Seq<char>)
    requires
        valid_price(s),
    ensures
        valid_price(canon_price(s)),
        canon_price(canon_price(s)) == canon_price(s),
{
    let b = price_body(s);
    let d0 = choose|d0: int| valid_body_at(b, d0);
    assert(valid_body_at(b, d0));
    lemma_valid_body_at_unique(b, d0, dot_of(b));
    let d = dot_of(b);
    let c = canon_price(s);
    if is_zero_digits(b) {
        assert(c =~= seq!['0']);
        assert(c[0] == '0');
        assert(body_start(c) == 0);
        assert(price_body(c) =~= c);
        assert(valid_body_at(c, 1));
        assert(valid_price(c));
        assert(is_zero_digits(price_body(c)));
        assert(canon_price(c) =~= c);
    } else {
        let ipfull = int_digits(b, d);
        let frac = frac_digits(b, d);
        lemma_strip_leading_props(ipfull);
        lemma_strip_trailing_props(frac);
        let ip = strip_leading_zeros(ipfull);
        let fp = strip_trailing_zeros(frac);
        let ip2: Seq<char> = if ip.len() == 0 {
            seq!['0']
        } else {
            ip
        };
        let cb = canon_body(b, d);
        assert forall|i: int| 0 <= i < ipfull.len() implies is_digit_char(#[trigger] ipfull[i]) by {
            assert(ipfull[i] == b[i]);
        }
        assert forall|i: int| 0 <= i < frac.len() implies is_digit_char(#[trigger] frac[i]) by {
            assert(frac[i] == b[d + 1 + i]);
        }
        assert forall|i: int| 0 <= i < ip2.len() implies is_digit_char(#[trigger] ip2[i]) by {
            if ip.len() > 0 {
                assert(ip[i] == ipfull[i + (ipfull.len() - ip.len())]);
            }
        }
        assert forall|i: int| 0 <= i < fp.len() implies is_digit_char(#[trigger] fp[i]) by {
            assert(fp[i] == frac[i]);
        }
        // the canonical body keeps a nonzero digit
        let q = choose|q: int| 0 <= q < b.len() && !(b[q] == '0' || b[q] == '.');
        assert(0 <= q < b.len() && b[q] != '0' && b[q] != '.');
        assert(is_digit_char(b[q]));
        assert(q != d);
        if ip.len() > 0 {
            assert(ip2[0] != '0' && is_digit_char(ip2[0]));
        } else {
            // the whole integer part is zeros, so the digit sits in the kept fraction
            assert forall|j: int| 0 <= j < ipfull.len() implies ipfull[j] == '0' by {}
            assert(q > d) by {
                if q < d {
                    assert(ipfull[q] == b[q]);
                }
            }
            assert(frac[q - d - 1] == b[q]);
            assert(q - d - 1 < fp.len());
            assert(fp[q - d - 1] == frac[q - d - 1]);
        }
        // shape of the canonical string and its body
        if fp.len() == 0 {
            assert(cb =~= ip2);
        } else {
            assert(cb =~= ip2 + seq!['.'] + fp);
        }
        if is_negative(s) {
            assert(c =~= seq!['-'] + cb);
            assert(c[0] == '-');
            assert(body_start(c) == 1);
            assert(price_body(c) =~= cb);
        } else {
            assert(c =~= cb);
            assert(c[0] == ip2[0]);
            assert(is_digit_char(c[0]));
            assert(c[0] != '+' && c[0] != '-');
            assert(body_start(c) == 0);
            assert(price_body(c) =~= cb);
        }
        let d2 = ip2.len() as int;
        assert(valid_body_at(cb, d2)) by {
            if fp.len() == 0 {
                assert(d2 == cb.len());
                assert forall|i: int| 0 <= i < cb.len() && i != d2 implies is_digit_char(
                    #[trigger] cb[i],
                ) by {
                    assert(cb[i] == ip2[i]);
                }
            } else {
                assert(cb[d2] == '.');
                assert forall|i: int| 0 <= i < cb.len() && i != d2 implies is_digit_char(
                    #[trigger] cb[i],
                ) by {
                    if i < d2 {
                        assert(cb[i] == ip2[i]);
                    } else {
                        assert(cb[i] == fp[i - d2 - 1]);
                    }
                }
                assert(cb.len() == ip2.len() + 1 + fp.len() > 1);
            }
        }
        assert(valid_price(c));
        lemma_valid_body_at_unique(cb, d2, dot_of(cb));
        // the canonical body is not a zero: the kept nonzero digit refutes it
        if ip.len() > 0 {
            assert(cb[0] == ip2[0]);
            assert(!is_zero_digits(cb));
        } else {
            assert(cb[d2 + 1 + (q - d - 1)] == fp[q - d - 1]);
            assert(!is_zero_digits(cb));
        }
        // canonicalizing the canonical body changes nothing
        assert(int_digits(cb, d2) =~= ip2);
        assert(frac_digits(cb, d2) =~= fp);
        if ip.len() == 0 {
            assert(ip2 =~= seq!['0']);
            assert(ip2.skip(1).len() == 0);
            assert(strip_leading_zeros(ip2.skip(1)) =~= ip2.skip(1));
            assert(strip_leading_zeros(ip2) =~= Seq::<char>::empty());
        } else {
            assert(ip2[0] != '0');
            assert(strip_leading_zeros(ip2) =~= ip2);
        }
        if fp.len() > 0 {
            assert(fp[fp.len() - 1] != '0');
            assert(strip_trailing_zeros(fp) =~= fp);
        } else {
            assert(strip_trailing_zeros(fp) =~= fp);
        }
        assert(canon_body(cb, d2) =~= cb);
        assert(canon_price(c) =~= c);
    }
}

/// `c` is a decimal digit.
fn is_digit_exec(c: char) -> (r: bool)
    ensures
        r == is_digit_char(c),
{
    let v = c as u32;
    v >= 48 && v <= 57
}

/// Checks that `s` reads as a finite decimal number and returns its
/// canonical form; `None` when it does not.
pub fn normalize_price(s: &str) -> (res: Option<String>)
    ensures
        res is Some <==> valid_price(s@),
        res is Some ==> res.unwrap()@ == canon_price(s@),
{
    let n = s.unicode_len();
    let start: usize = if n > 0 && (s.get_char(0) == '+' || s.get_char(0) == '-') {
        1
    } else {
        0
    };
    let neg = n > 0 && s.get_char(0) == '-';
    assert(start as int == body_start(s@));
    assert(neg == is_negative(s@));

    let mut i: usize = start;
    let mut dot: usize = n;
    let mut seen_digit = false;
    let mut all_zero = true;
    while i < n
        invariant
            start <= i <= n,
            n == s@.len(),
            start as int == body_start(s@),
            dot == n || (start <= dot < i && s@[dot as int] == '.'),
            forall|j: int| start <= j < i && j != dot ==> is_digit_char(#[trigger] s@[j]),
            seen_digit <==> exists|j: int| start <= j < i && is_digit_char(#[trigger] s@[j]),
            all_zero <==> forall|j: int| start <= j < i ==> #[trigger] s@[j] == '0' || s@[j] == '.',
        decreases n - i,
    {
        let c = s.get_char(i);
        if c == '.' {
            if dot < n {
                proof {
                    lemma_invalid_two_dots(s@, dot as int, i as int);
                }
                return None;
            }
            dot = i;
        } else if is_digit_exec(c) {
            seen_digit = true;
            if c as u32 != 48 {
                all_zero = false;
            }
        } else {
            proof {
                lemma_invalid_bad_char(s@, i as int);
            }
            return None;
        }
        i = i + 1;
    }
    if !seen_digit {
        proof {
            lemma_invalid_no_digit(s@);
        }
        return None;
    }

    let ghost b = price_body(s@);
    let ghost d = dot as int - start as int;
    proof {
        assert forall|j: int| 0 <= j < b.len() && j != d implies is_digit_char(#[trigger] b[j]) by {
            assert(b[j] == s@[j + start]);
        }
        if d < b.len() {
            assert(b[d] == s@[dot as int]);
            let j = choose|j: int| start <= j < n && is_digit_char(#[trigger] s@[j]);
            assert(b[j - start] == s@[j]);
            assert(j - start != d);
            assert(b.len() > 1);
        }
        assert(valid_body_at(b, d));
        assert(valid_price(s@));
        lemma_valid_body_at_unique(b, d, dot_of(b));
    }

    if all_zero {
        let out = "0".to_owned();
        proof {
            reveal_strlit("0");
            assert forall|j: int| 0 <= j < b.len() implies #[trigger] b[j] == '0' || b[j] == '.' by {
                assert(b[j] == s@[j + start]);
            }
            assert(is_zero_digits(b));
            assert(out@ =~= canon_price(s@));
        }
        return Some(out);
    }

    let int_end: usize = if dot < n {
        dot
    } else {
        n
    };
    let mut i0: usize = start;
    while i0 < int_end && s.get_char(i0) == '0'
        invariant
            start <= i0 <= int_end,
            int_end <= n,
            n == s@.len(),
            forall|j: int| start <= j < i0 ==> s@[j] == '0',
        decreases int_end - i0,
    {
        i0 = i0 + 1;
    }

    let mut f1: usize = n;
    if dot < n {
        while f1 > dot + 1 && s.get_char(f1 - 1) == '0'
            invariant
                dot + 1 <= f1 <= n,
                n == s@.len(),
                forall|j: int| f1 <= j < n ==> s@[j] == '0',
            decreases f1,
        {
            f1 = f1 - 1;
        }
    }

    let mut out = String::new();
    if neg {
        out.append("-");
    }
    if i0 == int_end {
        out.append("0");
    } else {
        out.append(s.substring_char(i0, int_end));
    }
    if dot < n && f1 > dot + 1 {
        out.append(".");
        out.append(s.substring_char(dot + 1, f1));
    }

    proof {
        reveal_strlit("0");
        reveal_strlit("-");
        reveal_strlit(".");
        // the number is not zero: some scanned character is a nonzero digit
        let jz = choose|j: int| start <= j < n && !(#[trigger] s@[j] == '0' || s@[j] == '.');
        assert(b[jz - start] == s@[jz]);
        assert(!is_zero_digits(b));

        // the integer part, with leading zeros stripped
        lemma_strip_leading_zeros_at(int_digits(b, d), i0 as int - start as int);
        assert(int_digits(b, d).skip(i0 as int - start as int) =~= s@.subrange(
            i0 as int,
            int_end as int,
        ));

        // the fractional part, with trailing zeros stripped
        if dot < n {
            lemma_strip_trailing_zeros_at(frac_digits(b, d), f1 as int - (dot as int + 1));
            assert(frac_digits(b, d).take(f1 as int - (dot as int + 1)) =~= s@.subrange(
                dot as int + 1,
                f1 as int,
            ));
        } else {
            assert(frac_digits(b, d) =~= Seq::<char>::empty());
            assert(strip_trailing_zeros(frac_digits(b, d)).len() == 0);
        }
        assert(out@ =~= canon_price(s@));
    }
    Some(out)
}

} // verus!
