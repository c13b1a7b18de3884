//! Exact decimal-point relocation on textual price values.
//!
//! Prices are kept as decimal strings, and unit conversions multiply or
//! divide by a power of ten. Both operations are therefore a relocation
//! of the decimal point inside the digit string, which is exact: no
//! floating-point number is ever formed.
//!
//! The module defines a sequence-level model of a signed decimal string
//! (sign, integer digits, optional point, fraction digits), the two
//! shift transformations on that model, and the executable functions
//! that realize them on `String` values.

use vstd::prelude::*;

use crate::text::{chars_of, is_value_char, string_from_chars};

verus! {

/// A decimal digit.
pub open spec fn is_digit_char(c: char) -> bool {
    '0' <= c && c <= '9'
}

/// Every character of `s` is a decimal digit.
pub open spec fn all_digits(s: Seq<char>) -> bool {
    forall|i: int| 0 <= i < s.len() ==> is_digit_char(s[i])
}

/// The string carries a leading minus sign.
pub open spec fn is_negative(s: Seq<char>) -> bool {
    s.len() > 0 && s[0] == '-'
}

/// The string with its sign removed.
pub open spec fn unsigned_part(s: Seq<char>) -> Seq<char> {
    if is_negative(s) {
        s.skip(1)
    } else {
        s
    }
}

/// Index of the first decimal point of `b`, or `b.len()` if none.
pub open spec fn point_index(b: Seq<char>) -> int
    decreases b.len(),
{
    if b.len() == 0 {
        0
    } else if b[0] == '.' {
        0
    } else {
        1 + point_index(b.skip(1))
    }
}

/// The string contains a decimal point.
pub open spec fn has_point(b: Seq<char>) -> bool {
    point_index(b) < b.len()
}

/// The digits before the decimal point (sign already removed).
pub open spec fn int_digits(b: Seq<char>) -> Seq<char> {
    b.take(point_index(b))
}

/// The digits after the decimal point; empty if there is no point.
pub open spec fn frac_digits(b: Seq<char>) -> Seq<char> {
    if has_point(b) {
        b.skip(point_index(b) + 1)
    } else {
        Seq::empty()
    }
}

/// A well-formed signed decimal string: an optional minus sign, then
/// digits with at most one decimal point among them, and at least one
/// digit in all.
pub open spec fn wf_decimal(s: Seq<char>) -> bool {
    let b = unsigned_part(s);
    &&& all_digits(int_digits(b))
    &&& all_digits(frac_digits(b))
    &&& int_digits(b).len() + frac_digits(b).len() >= 1
}

/// `n` zero digits.
pub open spec fn zeros(n: nat) -> Seq<char> {
    Seq::new(n, |i: int| '0')
}

/// The sign prefix of a result string.
pub open spec fn sign_seq(neg: bool) -> Seq<char> {
    if neg {
        seq!['-']
    } else {
        Seq::<char>::empty()
    }
}

/// `d` without its leading zero digits.
pub open spec fn strip_leading_zeros(d: Seq<char>) -> Seq<char>
    decreases d.len(),
{
    if d.len() > 0 && d[0] == '0' {
        strip_leading_zeros(d.skip(1))
    } else {
        d
    }
}

/// `d` without its trailing zero digits.
pub open spec fn strip_trailing_zeros(d: Seq<char>) -> Seq<char>
    decreases d.len(),
{
    if d.len() > 0 && d.last() == '0' {
        strip_trailing_zeros(d.drop_last())
    } else {
        d
    }
}

/// `x` without a dangling decimal point at its end.
pub open spec fn strip_trailing_point(x: Seq<char>) -> Seq<char> {
    if x.len() > 0 && x.last() == '.' {
        x.drop_last()
    } else {
        x
    }
}

/// The decimal string denoting the value of `s` multiplied by ten to
/// the `n`: the sign is set aside, leading zeros of the integer part and
/// trailing zeros of the fraction are dropped, and the point moves `n`
/// digits to the right, padding with zeros when the fraction is shorter
/// than `n` and disappearing when it lands at or past the end.
pub open spec fn spec_shift_right(s: Seq<char>, n: nat) -> Seq<char> {
    let b = unsigned_part(s);
    let i0 = strip_leading_zeros(int_digits(b));
    let body = if !has_point(b) {
        i0 + zeros(n)
    } else {
        let f = strip_trailing_zeros(frac_digits(b));
        let d = i0 + f;
        if f.len() <= n {
            d + zeros((n - f.len()) as nat)
        } else {
            d.take((i0.len() + n) as int) + seq!['.'] + d.skip((i0.len() + n) as int)
        }
    };
    sign_seq(is_negative(s)) + body
}

/// The decimal string denoting the value of `s` divided by ten to the
/// `n`: the mirror of [`spec_shift_right`]. The point moves `n` digits
/// to the left, a `0.` prefix and zero digits are supplied when the
/// integer part is shorter than `n`, and trailing fraction zeros and a
/// dangling point are dropped from the result.
pub open spec fn spec_shift_left(s: Seq<char>, n: nat) -> Seq<char> {
    let b = unsigned_part(s);
    let i0 = strip_leading_zeros(int_digits(b));
    let f = frac_digits(b);
    let d = i0 + f;
    let body0 = if i0.len() <= n {
        seq!['0', '.'] + zeros((n - i0.len()) as nat) + d
    } else {
        d.take(i0.len() - n) + seq!['.'] + d.skip(i0.len() - n)
    };
    sign_seq(is_negative(s)) + strip_trailing_point(strip_trailing_zeros(body0))
}

/// The canonical form of a decimal string: sign kept, leading integer
/// zeros and trailing fraction zeros dropped, `0` supplied before a bare
/// point. A left shift by zero places changes nothing but the spelling.
pub open spec fn spec_normalize(s: Seq<char>) -> Seq<char> {
    spec_shift_left(s, 0)
}

/// The first point is where a left-to-right scan stops: at `k` if no
/// earlier character is a point and `k` is a point or the end.
pub proof fn lemma_point_index_from_scan(b: Seq<char>, k: int)
    requires
        0 <= k <= b.len(),
        forall|j: int| 0 <= j < k ==> b[j] != '.',
        k == b.len() || b[k] == '.',
    ensures
        point_index(b) == k,
    decreases b.len(),
{
    if b.len() == 0 {
    } else if b[0] == '.' {
    } else {
        lemma_point_index_from_scan(b.skip(1), k - 1);
    }
}

/// A sequence of digits has no point: its point index is its length.
pub proof fn lemma_point_index_all_digits(b: Seq<char>)
    requires
        all_digits(b),
    ensures
        point_index(b) == b.len(),
{
    lemma_point_index_from_scan(b, b.len() as int);
}

/// Point index of digits, a point, then anything: the digit count.
pub proof fn lemma_point_index_concat(x: Seq<char>, y: Seq<char>)
    requires
        all_digits(x),
    ensures
        point_index(x + seq!['.'] + y) == x.len(),
{
    let b = x + seq!['.'] + y;
    assert(b[x.len() as int] == '.');
    assert(forall|j: int| 0 <= j < x.len() ==> b[j] == x[j] && b[j] != '.');
    lemma_point_index_from_scan(b, x.len() as int);
}

/// The point index is within bounds, and names a point when one exists.
pub proof fn lemma_point_index_bounds(b: Seq<char>)
    ensures
        0 <= point_index(b) <= b.len(),
        has_point(b) ==> b[point_index(b)] == '.',
    decreases b.len(),
{
    if b.len() == 0 {
    } else if b[0] == '.' {
    } else {
        lemma_point_index_bounds(b.skip(1));
    }
}

/// A well-formed decimal string consists of value characters only.
pub proof fn lemma_wf_chars(s: Seq<char>)
    requires
        wf_decimal(s),
    ensures
        forall|i: int| 0 <= i < s.len() ==> is_value_char(s[i]),
{
    let b = unsigned_part(s);
    lemma_point_index_bounds(b);
    let pi = point_index(b);
    assert forall|i: int| 0 <= i < s.len() implies is_value_char(s[i]) by {
        let off = if is_negative(s) {
            1int
        } else {
            0int
        };
        if i < off {
            assert(s[i] == '-');
        } else {
            let j = i - off;
            assert(b[j] == s[i]);
            if j < pi {
                assert(int_digits(b)[j] == b[j]);
            } else if j == pi {
                assert(has_point(b));
                assert(b[j] == '.');
            } else {
                assert(has_point(b));
                assert(frac_digits(b)[j - pi - 1] == b[j]);
            }
        }
    }
}

/// Stripping leading zeros is where a left-to-right scan stops: at `k`
/// if everything before `k` is a zero and `k` is a non-zero or the end.
pub proof fn lemma_strip_leading_from_scan(d: Seq<char>, k: int)
    requires
        0 <= k <= d.len(),
        forall|j: int| 0 <= j < k ==> d[j] == '0',
        k == d.len() || d[k] != '0',
    ensures
        strip_leading_zeros(d) == d.skip(k),
    decreases d.len(),
{
    if d.len() > 0 && d[0] == '0' {
        lemma_strip_leading_from_scan(d.skip(1), k - 1);
        assert(d.skip(1).skip(k - 1) =~= d.skip(k));
    } else {
        assert(d.skip(0) =~= d);
    }
}

/// Stripping trailing zeros is where a right-to-left scan stops: at `k`
/// if everything from `k` on is a zero and `k-1` is a non-zero or the
/// start.
pub proof fn lemma_strip_trailing_from_scan(d: Seq<char>, k: int)
    requires
        0 <= k <= d.len(),
        forall|j: int| k <= j < d.len() ==> d[j] == '0',
        k == 0 || d[k - 1] != '0',
    ensures
        strip_trailing_zeros(d) == d.take(k),
    decreases d.len(),
{
    if d.len() > 0 && d.last() == '0' {
        lemma_strip_trailing_from_scan(d.drop_last(), k);
        assert(d.drop_last().take(k) =~= d.take(k));
    } else {
        assert(d.take(d.len() as int) =~= d);
    }
}

/// Leading zeros are stripped from the left part of a concatenation
/// unless it is entirely zeros, in which case they strip on into the
/// right part.
pub proof fn lemma_strip_leading_concat(x: Seq<char>, y: Seq<char>)
    ensures
        strip_leading_zeros(x + y) == if strip_leading_zeros(x).len() > 0 {
            strip_leading_zeros(x) + y
        } else {
            strip_leading_zeros(y)
        },
    decreases x.len(),
{
    if x.len() == 0 {
        assert(x + y =~= y);
    } else if x[0] == '0' {
        assert((x + y).skip(1) =~= x.skip(1) + y);
        lemma_strip_leading_concat(x.skip(1), y);
    } else {
        assert((x + y)[0] == x[0]);
    }
}

/// Trailing zeros are stripped from the right part of a concatenation
/// unless it is entirely zeros, in which case they strip on into the
/// left part.
pub proof fn lemma_strip_trailing_concat(x: Seq<char>, y: Seq<char>)
    ensures
        strip_trailing_zeros(x + y) == if strip_trailing_zeros(y).len() > 0 {
            x + strip_trailing_zeros(y)
        } else {
            strip_trailing_zeros(x)
        },
    decreases y.len(),
{
    if y.len() == 0 {
        assert(x + y =~= x);
    } else if y.last() == '0' {
        assert((x + y).last() == y.last());
        assert((x + y).drop_last() =~= x + y.drop_last());
        lemma_strip_trailing_concat(x, y.drop_last());
    } else {
        assert((x + y).last() == y.last());
    }
}

/// A stripped sequence does not start with a zero.
pub proof fn lemma_strip_leading_head(d: Seq<char>)
    ensures
        strip_leading_zeros(d).len() > 0 ==> strip_leading_zeros(d)[0] != '0',
        all_digits(d) ==> all_digits(strip_leading_zeros(d)),
        strip_leading_zeros(d).len() <= d.len(),
    decreases d.len(),
{
    if d.len() > 0 && d[0] == '0' {
        lemma_strip_leading_head(d.skip(1));
        assert(all_digits(d) ==> all_digits(d.skip(1)));
    }
}

/// A stripped sequence does not end with a zero.
pub proof fn lemma_strip_trailing_last(d: Seq<char>)
    ensures
        strip_trailing_zeros(d).len() > 0 ==> strip_trailing_zeros(d).last() != '0',
        all_digits(d) ==> all_digits(strip_trailing_zeros(d)),
        strip_trailing_zeros(d).len() <= d.len(),
    decreases d.len(),
{
    if d.len() > 0 && d.last() == '0' {
        lemma_strip_trailing_last(d.drop_last());
        assert(all_digits(d) ==> all_digits(d.drop_last()));
    }
}

/// Assembling a sign, integer digits, and an optional point with
/// fraction digits yields a well-formed decimal string that decomposes
/// back into exactly those parts.
pub proof fn lemma_wf_from_parts(neg: bool, ip: Seq<char>, pt: bool, fp: Seq<char>)
    requires
        all_digits(ip),
        all_digits(fp),
        ip.len() + fp.len() >= 1,
        !pt ==> fp.len() == 0,
    ensures
        ({
            let s = sign_seq(neg) + ip + (if pt {
                seq!['.'] + fp
            } else {
                Seq::<char>::empty()
            });
            &&& wf_decimal(s)
            &&& is_negative(s) == neg
            &&& int_digits(unsigned_part(s)) == ip
            &&& frac_digits(unsigned_part(s)) == fp
            &&& has_point(unsigned_part(s)) == pt
            &&& forall|i: int| 0 <= i < s.len() ==> is_value_char(s[i])
        }),
{
    let tail = if pt {
        seq!['.'] + fp
    } else {
        Seq::<char>::empty()
    };
    let s = sign_seq(neg) + ip + tail;
    let b = ip + tail;
    if neg {
        assert(s[0] == '-');
        assert(s.skip(1) =~= b);
    } else {
        if ip.len() > 0 {
            assert(s[0] == ip[0]);
            assert(is_digit_char(ip[0]));
        } else {
            assert(pt);
            assert(s[0] == '.');
        }
        assert(!is_negative(s));
        assert(s =~= b);
    }
    assert(unsigned_part(s) == b);
    if pt {
        assert(b =~= ip + seq!['.'] + fp);
        lemma_point_index_concat(ip, fp);
        assert(point_index(b) == ip.len());
        assert(b.take(ip.len() as int) =~= ip);
        assert(b.skip(ip.len() + 1int) =~= fp);
    } else {
        assert(b =~= ip);
        lemma_point_index_all_digits(ip);
        assert(point_index(b) == b.len());
        assert(b.take(point_index(b)) =~= ip);
    }
    assert(forall|i: int| 0 <= i < s.len() ==> is_value_char(s[i])) by {
        assert forall|i: int| 0 <= i < s.len() implies is_value_char(s[i]) by {
            let off = if neg {
                1int
            } else {
                0int
            };
            if i < off {
                assert(s[i] == '-');
            } else if i - off < ip.len() {
                assert(s[i] == ip[i - off]);
            } else if pt && i - off == ip.len() {
                assert(s[i] == '.');
            } else {
                assert(pt);
                assert(s[i] == fp[i - off - ip.len() - 1]);
            }
        }
    }
}

/// A run of zeros strips away completely, from either side.
pub proof fn lemma_strip_zeros(n: nat)
    ensures
        strip_leading_zeros(zeros(n)) == Seq::<char>::empty(),
        strip_trailing_zeros(zeros(n)) == Seq::<char>::empty(),
        all_digits(zeros(n)),
    decreases n,
{
    if n > 0 {
        lemma_strip_zeros((n - 1) as nat);
        assert(zeros(n).skip(1) =~= zeros((n - 1) as nat));
        assert(zeros(n).drop_last() =~= zeros((n - 1) as nat));
        assert(zeros(n).last() == '0');
        assert(zeros(n)[0] == '0');
    }
}

/// What leading-zero stripping removes is a run of zeros: the sequence
/// is that run followed by the stripped remainder.
pub proof fn lemma_strip_leading_decomp(d: Seq<char>)
    ensures
        d =~= zeros((d.len() - strip_leading_zeros(d).len()) as nat) + strip_leading_zeros(d),
        strip_leading_zeros(d).len() <= d.len(),
    decreases d.len(),
{
    if d.len() > 0 && d[0] == '0' {
        lemma_strip_leading_decomp(d.skip(1));
        let st = strip_leading_zeros(d);
        let k = (d.len() - st.len()) as nat;
        assert(st == strip_leading_zeros(d.skip(1)));
        assert(k >= 1);
        assert(zeros(k) =~= seq!['0'] + zeros((k - 1) as nat));
        assert(d =~= seq!['0'] + d.skip(1));
        assert(d.skip(1) =~= zeros((k - 1) as nat) + st);
        assert(d =~= zeros(k) + st);
    }
}

/// Stripping the tail of digits appended after a point: the point
/// vanishes exactly when every appended digit is a zero.
pub proof fn lemma_tail_of_pointed(x: Seq<char>, y: Seq<char>)
    requires
        all_digits(y),
    ensures
        strip_trailing_point(strip_trailing_zeros((x + seq!['.']) + y)) == if strip_trailing_zeros(
            y,
        ).len() > 0 {
            x + seq!['.'] + strip_trailing_zeros(y)
        } else {
            x
        },
{
    lemma_strip_trailing_concat(x + seq!['.'], y);
    lemma_strip_trailing_last(y);
    let y1 = strip_trailing_zeros(y);
    if y1.len() > 0 {
        let body = (x + seq!['.']) + y1;
        assert(body.last() == y1.last());
        assert(is_digit_char(y1.last()));
        assert(strip_trailing_point(body) == body);
        assert(body =~= x + seq!['.'] + y1);
    } else {
        assert((x + seq!['.']).last() == '.');
        assert(strip_trailing_zeros(x + seq!['.']) == x + seq!['.']);
        assert(strip_trailing_point(x + seq!['.']) =~= x);
    }
}

/// Only an all-zero sequence strips away to nothing.
pub proof fn lemma_strip_trailing_empty(x: Seq<char>)
    ensures
        strip_trailing_zeros(x).len() == 0 ==> (forall|j: int| 0 <= j < x.len() ==> x[j] == '0'),
    decreases x.len(),
{
    if x.len() > 0 && x.last() == '0' {
        lemma_strip_trailing_empty(x.drop_last());
        assert forall|j: int|
            strip_trailing_zeros(x).len() == 0 && 0 <= j < x.len() implies x[j] == '0' by {
            if j < x.len() - 1 {
                assert(x.drop_last()[j] == x[j]);
            }
        }
    }
}

/// A right shift of a well-formed decimal by at least one place is
/// well-formed again, and any right shift uses only value characters.
pub proof fn lemma_shift_right_props(s: Seq<char>, n: nat)
    requires
        wf_decimal(s),
    ensures
        n >= 1 ==> wf_decimal(spec_shift_right(s, n)),
        forall|i: int|
            0 <= i < spec_shift_right(s, n).len() ==> is_value_char(spec_shift_right(s, n)[i]),
{
    let neg = is_negative(s);
    let b = unsigned_part(s);
    let i0 = strip_leading_zeros(int_digits(b));
    lemma_strip_leading_head(int_digits(b));
    lemma_strip_zeros(n);
    let r = spec_shift_right(s, n);
    if !has_point(b) {
        let ip = i0 + zeros(n);
        assert(all_digits(ip));
        assert(r =~= sign_seq(neg) + ip + Seq::<char>::empty());
        if ip.len() >= 1 {
            lemma_wf_from_parts(neg, ip, false, Seq::empty());
        } else {
            assert(forall|i: int| 0 <= i < r.len() ==> r[i] == '-');
        }
    } else {
        let f = strip_trailing_zeros(frac_digits(b));
        lemma_strip_trailing_last(frac_digits(b));
        let d = i0 + f;
        assert(all_digits(d));
        if f.len() <= n {
            let ip = d + zeros((n - f.len()) as nat);
            assert(all_digits(ip));
            assert(r =~= sign_seq(neg) + ip + Seq::<char>::empty());
            if ip.len() >= 1 {
                lemma_wf_from_parts(neg, ip, false, Seq::empty());
            } else {
                assert(forall|i: int| 0 <= i < r.len() ==> r[i] == '-');
            }
        } else {
            let cut = (i0.len() + n) as int;
            let ip = d.take(cut);
            let fp = d.skip(cut);
            assert(all_digits(ip));
            assert(all_digits(fp));
            assert(fp.len() >= 1);
            assert(r =~= sign_seq(neg) + ip + (seq!['.'] + fp));
            lemma_wf_from_parts(neg, ip, true, fp);
        }
    }
}

/// A left shift of a well-formed decimal is well-formed again and uses
/// only value characters.
pub proof fn lemma_shift_left_props(s: Seq<char>, n: nat)
    requires
        wf_decimal(s),
    ensures
        wf_decimal(spec_shift_left(s, n)),
        forall|i: int|
            0 <= i < spec_shift_left(s, n).len() ==> is_value_char(spec_shift_left(s, n)[i]),
{
    let neg = is_negative(s);
    let b = unsigned_part(s);
    let i0 = strip_leading_zeros(int_digits(b));
    lemma_strip_leading_head(int_digits(b));
    let f = frac_digits(b);
    let d = i0 + f;
    assert(all_digits(d));
    let r = spec_shift_left(s, n);
    if i0.len() <= n {
        let y = zeros((n - i0.len()) as nat) + d;
        lemma_strip_zeros((n - i0.len()) as nat);
        assert(all_digits(y));
        let body0 = seq!['0', '.'] + y;
        assert(spec_shift_left(s, n) == sign_seq(neg) + strip_trailing_point(
            strip_trailing_zeros(body0),
        )) by {
            assert(seq!['0', '.'] + zeros((n - i0.len()) as nat) + d =~= body0);
        }
        lemma_strip_trailing_concat(seq!['0', '.'], y);
        let y1 = strip_trailing_zeros(y);
        lemma_strip_trailing_last(y);
        if y1.len() > 0 {
            let body1 = seq!['0', '.'] + y1;
            assert(body1.last() == y1.last());
            assert(strip_trailing_point(body1) == body1);
            assert(r =~= sign_seq(neg) + seq!['0'] + (seq!['.'] + y1));
            lemma_wf_from_parts(neg, seq!['0'], true, y1);
        } else {
            assert(strip_trailing_zeros(seq!['0', '.']) == seq!['0', '.']) by {
                assert(seq!['0', '.'].last() == '.');
            }
            assert(strip_trailing_point(seq!['0', '.']) =~= seq!['0']);
            assert(r =~= sign_seq(neg) + seq!['0'] + Seq::<char>::empty());
            lemma_wf_from_parts(neg, seq!['0'], false, Seq::empty());
        }
    } else {
        let cut = i0.len() - n;
        let ih = d.take(cut);
        let fh = d.skip(cut);
        assert(all_digits(ih));
        assert(all_digits(fh));
        assert(ih.len() >= 1);
        let body0 = (ih + seq!['.']) + fh;
        assert(spec_shift_left(s, n) == sign_seq(neg) + strip_trailing_point(
            strip_trailing_zeros(body0),
        )) by {
            assert(d.take(cut) + seq!['.'] + d.skip(cut) =~= body0);
        }
        lemma_strip_trailing_concat(ih + seq!['.'], fh);
        let f1 = strip_trailing_zeros(fh);
        lemma_strip_trailing_last(fh);
        if f1.len() > 0 {
            let body1 = (ih + seq!['.']) + f1;
            assert(body1.last() == f1.last());
            assert(strip_trailing_point(body1) == body1);
            assert(r =~= sign_seq(neg) + ih + (seq!['.'] + f1));
            lemma_wf_from_parts(neg, ih, true, f1);
        } else {
            assert(strip_trailing_zeros(ih + seq!['.']) == ih + seq!['.']) by {
                assert((ih + seq!['.']).last() == '.');
            }
            assert(strip_trailing_point(ih + seq!['.']) =~= ih);
            assert(r =~= sign_seq(neg) + ih + Seq::<char>::empty());
            lemma_wf_from_parts(neg, ih, false, Seq::empty());
        }
    }
}

/// The canonical form of a well-formed decimal, spelled out: the sign,
/// then the stripped integer digits (or a single zero), then the
/// stripped fraction digits behind a point if any remain.
pub proof fn lemma_normalize_parts(s: Seq<char>)
    requires
        wf_decimal(s),
    ensures
        ({
            let b = unsigned_part(s);
            let i0 = strip_leading_zeros(int_digits(b));
            let f0 = strip_trailing_zeros(frac_digits(b));
            let lead = if i0.len() > 0 {
                i0
            } else {
                seq!['0']
            };
            let tail = if f0.len() > 0 {
                seq!['.'] + f0
            } else {
                Seq::<char>::empty()
            };
            spec_normalize(s) == sign_seq(is_negative(s)) + lead + tail
        }),
{
    let b = unsigned_part(s);
    let i0 = strip_leading_zeros(int_digits(b));
    let f = frac_digits(b);
    let f0 = strip_trailing_zeros(f);
    let d = i0 + f;
    lemma_strip_leading_head(int_digits(b));
    if i0.len() == 0 {
        let body0 = seq!['0', '.'] + zeros(0) + d;
        assert(body0 =~= (seq!['0'] + seq!['.']) + f);
        lemma_tail_of_pointed(seq!['0'], f);
        if f0.len() > 0 {
            assert(spec_normalize(s) =~= sign_seq(is_negative(s)) + seq!['0'] + (seq!['.'] + f0));
        } else {
            assert(spec_normalize(s) =~= sign_seq(is_negative(s)) + seq!['0']
                + Seq::<char>::empty());
        }
    } else {
        let body0 = d.take(i0.len() as int) + seq!['.'] + d.skip(i0.len() as int);
        assert(d.take(i0.len() as int) =~= i0);
        assert(d.skip(i0.len() as int) =~= f);
        assert(body0 =~= (i0 + seq!['.']) + f);
        lemma_tail_of_pointed(i0, f);
        if f0.len() > 0 {
            assert(spec_normalize(s) =~= sign_seq(is_negative(s)) + i0 + (seq!['.'] + f0));
        } else {
            assert(spec_normalize(s) =~= sign_seq(is_negative(s)) + i0 + Seq::<char>::empty());
        }
    }
}

/// Round trip when the shifted string holds no point: shifting the
/// all-digit body back left restores the canonical form.
#[verifier::rlimit(100)]
#[verifier::spinoff_prover]
proof fn lemma_round_trip_digits_body(neg: bool, i0: Seq<char>, f0: Seq<char>, n: nat)
    requires
        all_digits(i0),
        all_digits(f0),
        i0.len() > 0 ==> i0[0] != '0',
        f0.len() > 0 ==> f0.last() != '0',
        f0.len() <= n,
    ensures
        ({
            let r = sign_seq(neg) + (i0 + f0 + zeros((n - f0.len()) as nat));
            let lead = if i0.len() > 0 {
                i0
            } else {
                seq!['0']
            };
            let tail = if f0.len() > 0 {
                seq!['.'] + f0
            } else {
                Seq::<char>::empty()
            };
            spec_shift_left(r, n) == sign_seq(neg) + lead + tail
        }),
{
    let k = (n - f0.len()) as nat;
    let body = i0 + f0 + zeros(k);
    let r = sign_seq(neg) + body;
    let lead = if i0.len() > 0 {
        i0
    } else {
        seq!['0']
    };
    let tail = if f0.len() > 0 {
        seq!['.'] + f0
    } else {
        Seq::<char>::empty()
    };
    lemma_strip_zeros(k);
    if body.len() == 0 {
        assert(n == 0 && i0.len() == 0 && f0.len() == 0);
        assert(r =~= sign_seq(neg));
        let br = unsigned_part(r);
        assert(br =~= Seq::<char>::empty());
        assert(point_index(br) == 0);
        assert(int_digits(br) =~= Seq::<char>::empty());
        assert(!has_point(br));
        assert(strip_leading_zeros(int_digits(br)) =~= Seq::<char>::empty());
        let d_r = strip_leading_zeros(int_digits(br)) + frac_digits(br);
        assert(d_r =~= Seq::<char>::empty());
        let body0 = seq!['0', '.'] + zeros(0) + d_r;
        assert(body0 =~= (seq!['0'] + seq!['.']) + Seq::<char>::empty());
        lemma_tail_of_pointed(seq!['0'], Seq::empty());
        assert(spec_shift_left(r, n) =~= sign_seq(neg) + lead + tail);
    } else {
        assert(all_digits(body));
        assert(r =~= sign_seq(neg) + body + Seq::<char>::empty());
        lemma_wf_from_parts(neg, body, false, Seq::empty());
        let br = unsigned_part(r);
        assert(int_digits(br) == body);
        assert(frac_digits(br) == Seq::<char>::empty());
        let i0r = strip_leading_zeros(body);
        let d_r = i0r + frac_digits(br);
        assert(d_r =~= i0r);
        lemma_strip_leading_concat(i0 + f0, zeros(k));
        lemma_strip_leading_concat(i0, f0);
        assert(body =~= (i0 + f0) + zeros(k));
        if i0.len() > 0 {
            assert(strip_leading_zeros(i0) == i0);
            assert(strip_leading_zeros(i0 + f0) == i0 + f0);
            assert(i0r == (i0 + f0) + zeros(k));
            assert(i0r.len() == i0.len() + n);
            let body0 = d_r.take(i0r.len() - n) + seq!['.'] + d_r.skip(i0r.len() - n);
            assert(d_r.take(i0.len() as int) =~= i0);
            assert(d_r.skip(i0.len() as int) =~= f0 + zeros(k));
            assert(body0 =~= (i0 + seq!['.']) + (f0 + zeros(k)));
            lemma_tail_of_pointed(i0, f0 + zeros(k));
            lemma_strip_trailing_concat(f0, zeros(k));
            assert(strip_trailing_zeros(f0) == f0);
            assert(strip_trailing_zeros(f0 + zeros(k)) == f0);
            if f0.len() > 0 {
                assert(spec_shift_left(r, n) =~= sign_seq(neg) + i0 + (seq!['.'] + f0));
            } else {
                assert(spec_shift_left(r, n) =~= sign_seq(neg) + i0 + Seq::<char>::empty());
            }
        } else {
            let g = strip_leading_zeros(f0);
            lemma_strip_leading_decomp(f0);
            let a2 = f0.len() - g.len();
            if g.len() > 0 {
                assert(f0.last() == g.last());
                assert(strip_leading_zeros(i0 + f0) == g) by {
                    assert(strip_leading_zeros(i0) =~= Seq::<char>::empty());
                }
                assert(i0r == g + zeros(k));
                assert(i0r.len() == g.len() + k);
                assert(g.len() + k <= n) by {
                    assert(f0.len() == a2 + g.len());
                }
                let pad = (n - i0r.len()) as nat;
                assert(pad == a2);
                let body0 = seq!['0', '.'] + zeros(pad) + d_r;
                assert(body0 =~= (seq!['0'] + seq!['.']) + (zeros(a2 as nat) + g + zeros(k)));
                lemma_tail_of_pointed(seq!['0'], zeros(a2 as nat) + g + zeros(k));
                lemma_strip_trailing_concat(zeros(a2 as nat) + g, zeros(k));
                lemma_strip_trailing_concat(zeros(a2 as nat), g);
                assert(strip_trailing_zeros(g) == g);
                assert(strip_trailing_zeros(zeros(a2 as nat) + g + zeros(k)) == zeros(a2 as nat)
                    + g) by {
                    assert(zeros(a2 as nat) + g + zeros(k) =~= (zeros(a2 as nat) + g) + zeros(k));
                }
                assert(zeros(a2 as nat) + g =~= f0);
                assert(f0.len() > 0);
                assert(spec_shift_left(r, n) =~= sign_seq(neg) + seq!['0'] + (seq!['.'] + f0));
            } else {
                assert(f0.len() == 0) by {
                    lemma_strip_leading_decomp(f0);
                    if f0.len() > 0 {
                        assert(f0 =~= zeros(f0.len() as nat));
                        assert(f0.last() == '0');
                    }
                }
                assert(body =~= zeros(k));
                assert(i0r =~= Seq::<char>::empty()) by {
                    assert(strip_leading_zeros(zeros(k)) =~= Seq::<char>::empty());
                }
                let body0 = seq!['0', '.'] + zeros(n) + d_r;
                assert(body0 =~= (seq!['0'] + seq!['.']) + zeros(n));
                lemma_tail_of_pointed(seq!['0'], zeros(n));
                lemma_strip_zeros(n);
                assert(spec_shift_left(r, n) =~= sign_seq(neg) + seq!['0'] + Seq::<char>::empty());
            }
        }
    }
}

/// Round trip when the shifted string keeps a point: shifting back
/// left restores the canonical form.
#[verifier::rlimit(100)]
#[verifier::spinoff_prover]
proof fn lemma_round_trip_pointed_body(neg: bool, i0: Seq<char>, f0: Seq<char>, n: nat)
    requires
        all_digits(i0),
        all_digits(f0),
        i0.len() > 0 ==> i0[0] != '0',
        f0.len() > 0 ==> f0.last() != '0',
        f0.len() > n,
    ensures
        ({
            let d = i0 + f0;
            let cut = (i0.len() + n) as int;
            let r = sign_seq(neg) + (d.take(cut) + seq!['.'] + d.skip(cut));
            let lead = if i0.len() > 0 {
                i0
            } else {
                seq!['0']
            };
            spec_shift_left(r, n) == sign_seq(neg) + lead + (seq!['.'] + f0)
        }),
{
    let d = i0 + f0;
    let cut = (i0.len() + n) as int;
    let ip = d.take(cut);
    let fp = d.skip(cut);
    let r = sign_seq(neg) + (ip + seq!['.'] + fp);
    assert(fp =~= f0.skip(n as int));
    assert(fp.len() > 0);
    assert(fp.last() == f0.last());
    assert(all_digits(ip));
    assert(all_digits(fp));
    assert(r =~= sign_seq(neg) + ip + (seq!['.'] + fp));
    lemma_wf_from_parts(neg, ip, true, fp);
    let br = unsigned_part(r);
    assert(int_digits(br) == ip);
    assert(frac_digits(br) == fp);
    let i0r = strip_leading_zeros(ip);
    let d_r = i0r + fp;
    if i0.len() > 0 {
        assert(ip =~= i0 + f0.take(n as int));
        lemma_strip_leading_concat(i0, f0.take(n as int));
        assert(strip_leading_zeros(i0) == i0);
        assert(i0r == i0 + f0.take(n as int));
        assert(i0r.len() == i0.len() + n);
        let body0 = d_r.take(i0r.len() - n) + seq!['.'] + d_r.skip(i0r.len() - n);
        assert(d_r.take(i0.len() as int) =~= i0);
        assert(d_r.skip(i0.len() as int) =~= f0.take(n as int) + f0.skip(n as int));
        assert(f0.take(n as int) + f0.skip(n as int) =~= f0);
        assert(body0 =~= (i0 + seq!['.']) + f0);
        lemma_tail_of_pointed(i0, f0);
        assert(strip_trailing_zeros(f0) == f0);
        assert(spec_shift_left(r, n) =~= sign_seq(neg) + i0 + (seq!['.'] + f0));
    } else {
        assert(ip =~= f0.take(n as int));
        let g = strip_leading_zeros(f0);
        lemma_strip_leading_decomp(f0);
        lemma_strip_leading_head(f0);
        let a2 = f0.len() - g.len();
        assert(f0 =~= zeros(a2 as nat) + g);
        assert(g.len() > 0) by {
            if g.len() == 0 {
                assert(f0 =~= zeros(f0.len() as nat));
                assert(f0.last() == '0');
            }
        }
        if a2 >= n {
            assert(ip =~= zeros(n)) by {
                assert(forall|j: int| 0 <= j < n ==> f0[j] == '0');
            }
            lemma_strip_zeros(n);
            assert(i0r =~= Seq::<char>::empty());
            assert(i0r.len() == 0);
            let body0 = seq!['0', '.'] + zeros(n) + d_r;
            assert(d_r =~= fp);
            assert(zeros(n) + fp =~= f0) by {
                assert(forall|j: int| 0 <= j < n ==> f0[j] == '0');
            }
            assert(body0 =~= (seq!['0'] + seq!['.']) + f0);
            lemma_tail_of_pointed(seq!['0'], f0);
            assert(strip_trailing_zeros(f0) == f0);
            assert(spec_shift_left(r, n) =~= sign_seq(neg) + seq!['0'] + (seq!['.'] + f0));
        } else {
            assert(ip =~= zeros(a2 as nat) + g.take(n - a2)) by {
                assert(forall|j: int| 0 <= j < a2 ==> f0[j] == '0');
                assert(forall|j: int| a2 <= j < n ==> f0[j] == g[j - a2]);
            }
            lemma_strip_leading_concat(zeros(a2 as nat), g.take(n - a2));
            lemma_strip_zeros(a2 as nat);
            assert(g.take(n - a2).len() > 0);
            assert(g.take(n - a2)[0] == g[0]);
            assert(strip_leading_zeros(g.take(n - a2)) == g.take(n - a2));
            assert(i0r == g.take(n - a2));
            assert(i0r.len() == n - a2);
            let pad = (n - i0r.len()) as nat;
            assert(pad == a2);
            let body0 = seq!['0', '.'] + zeros(pad) + d_r;
            assert(fp =~= g.skip(n - a2)) by {
                assert(forall|j: int| n <= j < f0.len() ==> f0[j] == g[j - a2]);
            }
            assert(zeros(pad) + (g.take(n - a2) + g.skip(n - a2)) =~= zeros(a2 as nat) + g);
            assert(body0 =~= (seq!['0'] + seq!['.']) + f0);
            lemma_tail_of_pointed(seq!['0'], f0);
            assert(strip_trailing_zeros(f0) == f0);
            assert(spec_shift_left(r, n) =~= sign_seq(neg) + seq!['0'] + (seq!['.'] + f0));
        }
    }
}

/// Shifting a well-formed decimal right by `n` places and back left by
/// `n` places yields its canonical form: the round trip loses nothing
/// but redundant zeros.
pub proof fn lemma_shift_round_trip(s: Seq<char>, n: nat)
    requires
        wf_decimal(s),
    ensures
        spec_shift_left(spec_shift_right(s, n), n) == spec_normalize(s),
{
    let neg = is_negative(s);
    let b = unsigned_part(s);
    let i0 = strip_leading_zeros(int_digits(b));
    let f0 = strip_trailing_zeros(frac_digits(b));
    lemma_strip_leading_head(int_digits(b));
    lemma_strip_trailing_last(frac_digits(b));
    lemma_normalize_parts(s);
    if !has_point(b) {
        assert(frac_digits(b) =~= Seq::<char>::empty());
        assert(f0 =~= Seq::<char>::empty());
        assert(spec_shift_right(s, n) == sign_seq(neg) + (i0 + f0 + zeros((n - f0.len()) as nat)))
            by {
            assert(i0 + zeros(n) =~= i0 + f0 + zeros((n - f0.len()) as nat));
        }
        lemma_round_trip_digits_body(neg, i0, f0, n);
    } else if f0.len() <= n {
        assert(spec_shift_right(s, n) == sign_seq(neg) + (i0 + f0 + zeros((n - f0.len()) as nat)))
            by {
            assert((i0 + f0) + zeros((n - f0.len()) as nat) =~= i0 + f0 + zeros(
                (n - f0.len()) as nat,
            ));
        }
        lemma_round_trip_digits_body(neg, i0, f0, n);
    } else {
        lemma_round_trip_pointed_body(neg, i0, f0, n);
    }
}

/// Appends `k` zero digits.
fn push_zeros(out: &mut Vec<char>, k: usize)
    ensures
        final(out)@ == old(out)@ + zeros(k as nat),
{
    let mut i: usize = 0;
    while i < k
        invariant
            i <= k,
            out@ == old(out)@ + zeros(i as nat),
        decreases k - i,
    {
        out.push('0');
        i = i + 1;
        proof {
            assert(out@ =~= old(out)@ + zeros(i as nat));
        }
    }
    proof {
        assert(out@ =~= old(out)@ + zeros(k as nat));
    }
}

/// Appends the characters `src[a..b]`.
fn push_range(out: &mut Vec<char>, src: &Vec<char>, a: usize, b: usize)
    requires
        a <= b <= src@.len(),
    ensures
        final(out)@ == old(out)@ + src@.subrange(a as int, b as int),
{
    let mut i: usize = a;
    while i < b
        invariant
            a <= i <= b <= src@.len(),
            out@ == old(out)@ + src@.subrange(a as int, i as int),
        decreases b - i,
    {
        out.push(src[i]);
        i = i + 1;
        proof {
            assert(out@ =~= old(out)@ + src@.subrange(a as int, i as int));
        }
    }
}

/// Scans a decimal value: reports the sign and the boundaries of the
/// stripped integer digits and of the fraction, tied to the
/// sequence-level decomposition.
fn scan_value(v: &Vec<char>) -> (r: (bool, usize, usize))
    ensures
        ({
            let s = v@;
            let b = unsigned_part(s);
            let start: int = if r.0 {
                1int
            } else {
                0int
            };
            &&& r.0 == is_negative(s)
            &&& start <= r.1 <= r.2 <= s.len()
            &&& int_digits(b) == s.subrange(start, r.2 as int)
            &&& strip_leading_zeros(int_digits(b)) == s.subrange(r.1 as int, r.2 as int)
            &&& has_point(b) == ((r.2 as int) < s.len())
            &&& (has_point(b) ==> frac_digits(b) == s.subrange(r.2 as int + 1, s.len() as int))
        }),
{
    let ghost s = v@;
    let n = v.len();
    let neg = n > 0 && v[0] == '-';
    let start: usize = if neg {
        1
    } else {
        0
    };
    let ghost b = unsigned_part(s);
    proof {
        assert(b =~= v@.skip(start as int));
    }
    let mut p: usize = start;
    while p < n && v[p] != '.'
        invariant
            start <= p <= n,
            n == v@.len(),
            forall|j: int| start <= j < p ==> v@[j] != '.',
        decreases n - p,
    {
        p = p + 1;
    }
    proof {
        assert forall|j: int| 0 <= j < p - start implies b[j] != '.' by {
            assert(b[j] == v@[j + start]);
        }
        lemma_point_index_from_scan(b, p - start);
        assert(int_digits(b) =~= v@.subrange(start as int, p as int));
        if p < n {
            assert(frac_digits(b) =~= v@.subrange(p as int + 1, n as int));
        }
    }
    let mut a: usize = start;
    while a < p && v[a] == '0'
        invariant
            start <= a <= p <= n,
            n == v@.len(),
            forall|j: int| start <= j < a ==> v@[j] == '0',
        decreases p - a,
    {
        a = a + 1;
    }
    proof {
        lemma_strip_leading_from_scan(int_digits(b), a - start);
        assert(strip_leading_zeros(int_digits(b)) =~= v@.subrange(a as int, p as int));
    }
    (neg, a, p)
}

/// The numeric value of a digit.
pub open spec fn digit_value(c: char) -> int {
    c as int - '0' as int
}

/// The integer a digit string denotes.
pub open spec fn digits_val(d: Seq<char>) -> int
    decreases d.len(),
{
    if d.len() == 0 {
        0
    } else {
        digits_val(d.drop_last()) * 10 + digit_value(d.last())
    }
}

/// Ten to the `n`.
pub open spec fn pow10(n: nat) -> int {
    vstd::arithmetic::power::pow(10, n)
}

/// The signed integer mantissa of a decimal string: its digits read
/// with the point removed, negated under a minus sign. The string
/// denotes the value `mantissa / 10^scale`.
pub open spec fn mantissa(s: Seq<char>) -> int {
    let b = unsigned_part(s);
    let m = digits_val(int_digits(b) + frac_digits(b));
    if is_negative(s) {
        -m
    } else {
        m
    }
}

/// The number of fraction digits of a decimal string.
pub open spec fn scale_of(s: Seq<char>) -> nat {
    frac_digits(unsigned_part(s)).len()
}

/// Concatenating digit strings multiplies the left value by ten to the
/// length of the right and adds the right value.
pub proof fn lemma_digits_val_concat(x: Seq<char>, y: Seq<char>)
    ensures
        digits_val(x + y) == digits_val(x) * pow10(y.len()) + digits_val(y),
    decreases y.len(),
{
    if y.len() == 0 {
        assert(x + y =~= x);
        assert(pow10(0) == 1) by {
            vstd::arithmetic::power::lemma_pow0(10);
        }
    } else {
        lemma_digits_val_concat(x, y.drop_last());
        assert((x + y).drop_last() =~= x + y.drop_last());
        assert((x + y).last() == y.last());
        let a = digits_val(x);
        let b0 = digits_val(y.drop_last());
        let g = digit_value(y.last());
        let p = pow10((y.len() - 1) as nat);
        assert(pow10(y.len()) == p * 10) by {
            vstd::arithmetic::power::lemma_pow_adds(10, (y.len() - 1) as nat, 1);
            vstd::arithmetic::power::lemma_pow1(10);
        }
        assert(digits_val(x + y) == (a * p + b0) * 10 + g);
        assert((a * p + b0) * 10 + g == a * (p * 10) + (b0 * 10 + g)) by (nonlinear_arith);
        assert(digits_val(y) == b0 * 10 + g);
    }
}

/// A run of zeros denotes zero.
pub proof fn lemma_digits_val_zeros(k: nat)
    ensures
        digits_val(zeros(k)) == 0,
    decreases k,
{
    if k > 0 {
        lemma_digits_val_zeros((k - 1) as nat);
        assert(zeros(k).drop_last() =~= zeros((k - 1) as nat));
        assert(zeros(k).last() == '0');
    }
}

/// Leading zeros carry no value.
pub proof fn lemma_digits_val_strip_leading(d: Seq<char>)
    ensures
        digits_val(strip_leading_zeros(d)) == digits_val(d),
    decreases d.len(),
{
    if d.len() > 0 && d[0] == '0' {
        lemma_digits_val_strip_leading(d.skip(1));
        assert(d =~= seq!['0'] + d.skip(1));
        lemma_digits_val_concat(seq!['0'], d.skip(1));
        assert(digits_val(seq!['0']) == 0) by {
            assert(seq!['0'].drop_last() =~= Seq::<char>::empty());
            assert(digits_val(Seq::<char>::empty()) == 0);
            assert(seq!['0'].last() == '0');
        }
    }
}

/// What trailing-zero stripping removes is a run of zeros at the end.
pub proof fn lemma_strip_trailing_decomp(d: Seq<char>)
    ensures
        d =~= strip_trailing_zeros(d) + zeros((d.len() - strip_trailing_zeros(d).len()) as nat),
        strip_trailing_zeros(d).len() <= d.len(),
    decreases d.len(),
{
    if d.len() > 0 && d.last() == '0' {
        lemma_strip_trailing_decomp(d.drop_last());
        let st = strip_trailing_zeros(d);
        let k = (d.len() - st.len()) as nat;
        assert(st == strip_trailing_zeros(d.drop_last()));
        assert(k >= 1);
        assert(zeros(k) =~= zeros((k - 1) as nat).push('0'));
        assert(d =~= d.drop_last().push('0'));
        assert(d.drop_last() =~= st + zeros((k - 1) as nat));
        assert(d =~= st + zeros(k));
    }
}

/// A bare sign denotes zero with no fraction digits.
proof fn lemma_mantissa_sign_only(neg: bool)
    ensures
        mantissa(sign_seq(neg)) == 0,
        scale_of(sign_seq(neg)) == 0,
{
    let s = sign_seq(neg);
    let b = unsigned_part(s);
    if neg {
        assert(s[0] == '-');
        assert(b =~= Seq::<char>::empty());
    } else {
        assert(!is_negative(s));
        assert(b =~= Seq::<char>::empty());
    }
    assert(point_index(b) == 0);
    assert(!has_point(b));
    assert(int_digits(b) + frac_digits(b) =~= Seq::<char>::empty());
    assert(digits_val(Seq::<char>::empty()) == 0);
}

/// Scaling respects the sign: a mantissa equality lifts from absolute
/// values to signed ones.
proof fn lemma_signed_scale(neg: bool, a: int, b: int, p: int, q: int)
    requires
        a * p == b * q,
    ensures
        (if neg {
            -a
        } else {
            a
        }) * p == (if neg {
            -b
        } else {
            b
        }) * q,
{
    if neg {
        assert((-a) * p == -(a * p)) by (nonlinear_arith);
        assert((-b) * q == -(b * q)) by (nonlinear_arith);
    }
}

/// A right shift by `n` multiplies the denoted value by ten to the
/// `n`, exactly: the old and new mantissas agree once both sides are
/// brought to a common denominator of fraction digits.
#[verifier::rlimit(100)]
#[verifier::spinoff_prover]
pub proof fn lemma_shift_right_exact(s: Seq<char>, n: nat)
    requires
        wf_decimal(s),
    ensures
        mantissa(spec_shift_right(s, n)) * pow10(scale_of(s)) == mantissa(s) * pow10(
            n + scale_of(spec_shift_right(s, n)),
        ),
{
    let neg = is_negative(s);
    let b = unsigned_part(s);
    let i = int_digits(b);
    let f = frac_digits(b);
    let i0 = strip_leading_zeros(i);
    let r = spec_shift_right(s, n);
    lemma_strip_leading_head(i);
    lemma_digits_val_strip_leading(i);
    lemma_digits_val_concat(i, f);
    lemma_strip_zeros(n);
    lemma_digits_val_zeros(n);
    assert(pow10(0) == 1) by {
        vstd::arithmetic::power::lemma_pow0(10);
    }
    if !has_point(b) {
        assert(f =~= Seq::<char>::empty());
        assert(i + f =~= i);
        let body = i0 + zeros(n);
        lemma_digits_val_concat(i0, zeros(n));
        assert(digits_val(body) == digits_val(i) * pow10(n));
        if body.len() == 0 {
            assert(i0 =~= Seq::<char>::empty());
            assert(digits_val(i) == 0);
            assert(r =~= sign_seq(neg));
            lemma_mantissa_sign_only(neg);
        } else {
            assert(r =~= sign_seq(neg) + body + Seq::<char>::empty());
            lemma_wf_from_parts(neg, body, false, Seq::empty());
            let br = unsigned_part(r);
            assert(int_digits(br) + frac_digits(br) =~= body);
            assert(scale_of(r) == 0);
            assert(scale_of(s) == 0);
            assert(pow10(scale_of(s)) == 1);
            assert(pow10(n + scale_of(r)) == pow10(n));
            assert(digits_val(body) * pow10(scale_of(s)) == digits_val(i) * pow10(
                n + scale_of(r),
            ));
            lemma_signed_scale(
                neg,
                digits_val(body),
                digits_val(i),
                pow10(scale_of(s)),
                pow10(n + scale_of(r)),
            );
        }
    } else {
        let f0 = strip_trailing_zeros(f);
        lemma_strip_trailing_last(f);
        lemma_strip_trailing_decomp(f);
        let kf = (f.len() - f0.len()) as nat;
        lemma_digits_val_concat(f0, zeros(kf));
        lemma_digits_val_zeros(kf);
        lemma_strip_zeros(kf);
        assert(f =~= f0 + zeros(kf));
        assert(digits_val(f) == digits_val(f0) * pow10(kf));
        let d = i0 + f0;
        lemma_digits_val_concat(i0, f0);
        let ai = digits_val(i);
        let af = digits_val(f0);
        let pf0 = pow10(f0.len());
        let pkf = pow10(kf);
        let x = digits_val(d);
        assert(x == ai * pf0 + af);
        assert(pow10(f.len()) == pf0 * pkf) by {
            vstd::arithmetic::power::lemma_pow_adds(10, f0.len(), kf);
        }
        assert(digits_val(i + f) == x * pkf) by (nonlinear_arith)
            requires
                digits_val(i + f) == ai * (pf0 * pkf) + af * pkf,
                x == ai * pf0 + af,
        ;
        if f0.len() <= n {
            let k = (n - f0.len()) as nat;
            let body = d + zeros(k);
            lemma_digits_val_concat(d, zeros(k));
            lemma_digits_val_zeros(k);
            assert(digits_val(body) == x * pow10(k));
            if body.len() == 0 {
                assert(x == 0);
                assert(r =~= sign_seq(neg));
                lemma_mantissa_sign_only(neg);
                assert(digits_val(i + f) == 0);
            } else {
                assert(r =~= sign_seq(neg) + body + Seq::<char>::empty());
                assert(all_digits(body));
                lemma_wf_from_parts(neg, body, false, Seq::empty());
                let br = unsigned_part(r);
                assert(int_digits(br) + frac_digits(br) =~= body);
                assert(scale_of(r) == 0);
                let pk = pow10(k);
                let pf = pow10(f.len());
                let pn = pow10(n);
                assert(pk * pf == pkf * pn) by {
                    vstd::arithmetic::power::lemma_pow_adds(10, k, f.len());
                    vstd::arithmetic::power::lemma_pow_adds(10, kf, n);
                    assert(k + f.len() == kf + n);
                }
                assert((x * pk) * pf == (x * pkf) * pn) by (nonlinear_arith)
                    requires
                        pk * pf == pkf * pn,
                ;
                lemma_signed_scale(neg, digits_val(body), digits_val(i + f), pf, pn);
            }
        } else {
            let cut = (i0.len() + n) as int;
            let ip = d.take(cut);
            let fp = d.skip(cut);
            assert(all_digits(ip));
            assert(all_digits(fp));
            assert(fp.len() >= 1);
            assert(r =~= sign_seq(neg) + ip + (seq!['.'] + fp));
            lemma_wf_from_parts(neg, ip, true, fp);
            let br = unsigned_part(r);
            assert(int_digits(br) + frac_digits(br) =~= d);
            assert(scale_of(r) == fp.len());
            assert(n + scale_of(r) == f0.len());
            let pf = pow10(f.len());
            assert(pf == pkf * pf0) by {
                vstd::arithmetic::power::lemma_pow_adds(10, kf, f0.len());
                assert(f.len() == kf + f0.len());
            }
            assert(x * pf == (x * pkf) * pf0) by (nonlinear_arith)
                requires
                    pf == pkf * pf0,
            ;
            lemma_signed_scale(neg, x, digits_val(i + f), pf, pf0);
        }
    }
}

/// A left shift by `n` divides the denoted value by ten to the `n`,
/// exactly: the old and new mantissas agree once both sides are brought
/// to a common denominator of fraction digits.
#[verifier::rlimit(100)]
#[verifier::spinoff_prover]
pub proof fn lemma_shift_left_exact(s: Seq<char>, n: nat)
    requires
        wf_decimal(s),
    ensures
        mantissa(spec_shift_left(s, n)) * pow10(n + scale_of(s)) == mantissa(s) * pow10(
            scale_of(spec_shift_left(s, n)),
        ),
{
    let neg = is_negative(s);
    let b = unsigned_part(s);
    let i = int_digits(b);
    let f = frac_digits(b);
    let i0 = strip_leading_zeros(i);
    let d = i0 + f;
    let r = spec_shift_left(s, n);
    lemma_strip_leading_head(i);
    lemma_digits_val_strip_leading(i);
    lemma_digits_val_concat(i, f);
    lemma_digits_val_concat(i0, f);
    let m = digits_val(i + f);
    assert(digits_val(d) == m);
    assert(pow10(0) == 1) by {
        vstd::arithmetic::power::lemma_pow0(10);
    }
    if i0.len() <= n {
        let pad = (n - i0.len()) as nat;
        let y = zeros(pad) + d;
        lemma_strip_zeros(pad);
        lemma_digits_val_zeros(pad);
        lemma_digits_val_concat(zeros(pad), d);
        assert(digits_val(y) == m);
        let body0 = seq!['0', '.'] + y;
        assert(spec_shift_left(s, n) == sign_seq(neg) + strip_trailing_point(
            strip_trailing_zeros(body0),
        )) by {
            assert(seq!['0', '.'] + zeros(pad) + d =~= body0);
        }
        lemma_strip_trailing_concat(seq!['0', '.'], y);
        let y1 = strip_trailing_zeros(y);
        lemma_strip_trailing_last(y);
        lemma_strip_trailing_decomp(y);
        let ky = (y.len() - y1.len()) as nat;
        lemma_digits_val_concat(y1, zeros(ky));
        lemma_digits_val_zeros(ky);
        assert(digits_val(y) == digits_val(y1) * pow10(ky));
        if y1.len() > 0 {
            let body1 = seq!['0', '.'] + y1;
            assert(body1.last() == y1.last());
            assert(strip_trailing_point(body1) == body1);
            assert(r =~= sign_seq(neg) + seq!['0'] + (seq!['.'] + y1));
            lemma_wf_from_parts(neg, seq!['0'], true, y1);
            let br = unsigned_part(r);
            lemma_digits_val_concat(seq!['0'], y1);
            assert(digits_val(seq!['0']) == 0) by {
                assert(seq!['0'].drop_last() =~= Seq::<char>::empty());
                assert(digits_val(Seq::<char>::empty()) == 0);
                assert(seq!['0'].last() == '0');
            }
            assert(int_digits(br) + frac_digits(br) =~= seq!['0'] + y1);
            assert(digits_val(int_digits(br) + frac_digits(br)) == digits_val(y1));
            assert(scale_of(r) == y1.len());
            let py1 = pow10(y1.len());
            let pky = pow10(ky);
            assert(pow10(n + f.len()) == pky * py1) by {
                vstd::arithmetic::power::lemma_pow_adds(10, ky, y1.len());
                assert(y.len() == n + f.len());
                assert(ky + y1.len() == n + f.len());
            }
            assert(digits_val(y1) * (pky * py1) == (digits_val(y1) * pky) * py1)
                by (nonlinear_arith);
            assert(n + scale_of(s) == n + f.len());
            lemma_signed_scale(neg, digits_val(y1), m, pow10(n + scale_of(s)), py1);
        } else {
            assert(strip_trailing_zeros(seq!['0', '.']) == seq!['0', '.']) by {
                assert(seq!['0', '.'].last() == '.');
            }
            assert(strip_trailing_point(seq!['0', '.']) =~= seq!['0']);
            assert(r =~= sign_seq(neg) + seq!['0'] + Seq::<char>::empty());
            lemma_wf_from_parts(neg, seq!['0'], false, Seq::empty());
            let br = unsigned_part(r);
            assert(int_digits(br) + frac_digits(br) =~= seq!['0']);
            assert(digits_val(seq!['0']) == 0) by {
                assert(seq!['0'].drop_last() =~= Seq::<char>::empty());
                assert(digits_val(Seq::<char>::empty()) == 0);
                assert(seq!['0'].last() == '0');
            }
            assert(scale_of(r) == 0);
            assert(m == 0);
            lemma_signed_scale(neg, 0, 0, pow10(n + scale_of(s)), pow10(scale_of(r)));
        }
    } else {
        let cut = i0.len() - n;
        let ih = d.take(cut);
        let fh = d.skip(cut);
        assert(all_digits(ih));
        assert(all_digits(fh));
        assert(ih.len() >= 1);
        assert(ih + fh =~= d);
        lemma_digits_val_concat(ih, fh);
        let body0 = (ih + seq!['.']) + fh;
        assert(spec_shift_left(s, n) == sign_seq(neg) + strip_trailing_point(
            strip_trailing_zeros(body0),
        )) by {
            assert(d.take(cut) + seq!['.'] + d.skip(cut) =~= body0);
        }
        lemma_strip_trailing_concat(ih + seq!['.'], fh);
        let f1 = strip_trailing_zeros(fh);
        lemma_strip_trailing_last(fh);
        lemma_strip_trailing_decomp(fh);
        let ks = (fh.len() - f1.len()) as nat;
        lemma_digits_val_concat(f1, zeros(ks));
        lemma_digits_val_zeros(ks);
        assert(digits_val(fh) == digits_val(f1) * pow10(ks));
        assert(fh.len() == n + f.len());
        if f1.len() > 0 {
            let body1 = (ih + seq!['.']) + f1;
            assert(body1.last() == f1.last());
            assert(strip_trailing_point(body1) == body1);
            assert(r =~= sign_seq(neg) + ih + (seq!['.'] + f1));
            lemma_wf_from_parts(neg, ih, true, f1);
            let br = unsigned_part(r);
            assert(int_digits(br) + frac_digits(br) =~= ih + f1);
            lemma_digits_val_concat(ih, f1);
            assert(scale_of(r) == f1.len());
            let a = digits_val(ih);
            let c = digits_val(f1);
            let pf1 = pow10(f1.len());
            let pks = pow10(ks);
            assert(pow10(fh.len()) == pks * pf1) by {
                vstd::arithmetic::power::lemma_pow_adds(10, ks, f1.len());
                assert(ks + f1.len() == fh.len());
            }
            assert((a * pf1 + c) * (pks * pf1) == (a * (pks * pf1) + c * pks) * pf1)
                by (nonlinear_arith);
            assert(n + scale_of(s) == fh.len());
            assert(m == a * (pks * pf1) + c * pks);
            lemma_signed_scale(neg, a * pf1 + c, m, pow10(n + scale_of(s)), pf1);
        } else {
            assert(strip_trailing_zeros(ih + seq!['.']) == ih + seq!['.']) by {
                assert((ih + seq!['.']).last() == '.');
            }
            assert(strip_trailing_point(ih + seq!['.']) =~= ih);
            assert(r =~= sign_seq(neg) + ih + Seq::<char>::empty());
            lemma_wf_from_parts(neg, ih, false, Seq::empty());
            let br = unsigned_part(r);
            assert(int_digits(br) + frac_digits(br) =~= ih);
            assert(scale_of(r) == 0);
            assert(digits_val(fh) == 0);
            assert(m == digits_val(ih) * pow10(fh.len()));
            assert(n + scale_of(s) == fh.len());
            lemma_signed_scale(neg, digits_val(ih), m, pow10(n + scale_of(s)), pow10(scale_of(r)));
        }
    }
}

/// Decides whether the characters form a well-formed signed decimal
/// string.
#[verifier::loop_isolation(false)]
#[verifier::rlimit(100)]
#[verifier::spinoff_prover]
pub fn check_wf_chars(v: &Vec<char>) -> (r: bool)
    ensures
        r == wf_decimal(v@),
{
    let n = v.len();
    let neg = n > 0 && v[0] == '-';
    let start: usize = if neg {
        1
    } else {
        0
    };
    let ghost b = unsigned_part(v@);
    proof {
        assert(b =~= v@.skip(start as int));
    }
    let mut p: usize = start;
    while p < n && v[p] != '.'
        invariant
            start <= p <= n,
            forall|j: int| start <= j < p ==> v@[j] != '.',
        decreases n - p,
    {
        p = p + 1;
    }
    proof {
        assert forall|j: int| 0 <= j < p - start implies b[j] != '.' by {
            assert(b[j] == v@[j + start]);
        }
        lemma_point_index_from_scan(b, p - start);
        assert(int_digits(b) =~= v@.subrange(start as int, p as int));
        if p < n {
            assert(frac_digits(b) =~= v@.subrange(p as int + 1, n as int));
        }
    }
    let mut i: usize = start;
    while i < p
        invariant
            start <= i <= p,
            forall|j: int| start <= j < i ==> is_digit_char(v@[j]),
        decreases p - i,
    {
        let c = v[i];
        if !('0' <= c && c <= '9') {
            proof {
                assert(int_digits(b)[i - start] == v@[i as int]);
            }
            return false;
        }
        i = i + 1;
    }
    if p < n {
        let mut q: usize = p + 1;
        while q < n
            invariant
                p + 1 <= q <= n,
                forall|j: int| p + 1 <= j < q ==> is_digit_char(v@[j]),
            decreases n - q,
        {
            let c = v[q];
            if !('0' <= c && c <= '9') {
                proof {
                    assert(frac_digits(b)[q - (p + 1)] == v@[q as int]);
                }
                return false;
            }
            q = q + 1;
        }
        if p - start + (n - p - 1) >= 1 {
            return true;
        }
        proof {
            assert(int_digits(b).len() + frac_digits(b).len() == 0);
        }
        false
    } else {
        if p - start >= 1 {
            return true;
        }
        proof {
            assert(int_digits(b).len() + frac_digits(b).len() == 0);
        }
        false
    }
}

/// Relocates the decimal point of `value` by `moves` digits to the
/// right, multiplying the denoted value by ten to the `moves` exactly:
/// no numeric type is involved, only the digit string changes.
#[verifier::rlimit(100)]
#[verifier::spinoff_prover]
pub fn move_comma_right(value: &mut String, moves: usize)
    requires
        wf_decimal(old(value)@),
    ensures
        final(value)@ == spec_shift_right(old(value)@, moves as nat),
        moves >= 1 ==> wf_decimal(final(value)@),
{
    let ghost s = value@;
    let v = chars_of(value.as_str());
    let n = v.len();
    let (neg, a, p) = scan_value(&v);
    let ghost b = unsigned_part(s);
    let ghost i0 = strip_leading_zeros(int_digits(b));
    let mut out: Vec<char> = Vec::new();
    if neg {
        out.push('-');
    }
    proof {
        assert(out@ =~= sign_seq(is_negative(s)));
    }
    if p == n {
        push_range(&mut out, &v, a, p);
        push_zeros(&mut out, moves);
        proof {
            assert(out@ =~= spec_shift_right(s, moves as nat));
        }
    } else {
        let mut fe: usize = n;
        while fe > p + 1 && v[fe - 1] == '0'
            invariant
                p + 1 <= fe <= n,
                n == v@.len(),
                forall|j: int| fe <= j < n ==> v@[j] == '0',
            decreases fe,
        {
            fe = fe - 1;
        }
        proof {
            lemma_strip_trailing_from_scan(frac_digits(b), fe - (p + 1));
            assert(strip_trailing_zeros(frac_digits(b)) =~= v@.subrange(p as int + 1, fe as int));
        }
        let ghost f = strip_trailing_zeros(frac_digits(b));
        let ghost d = i0 + f;
        let flen = fe - (p + 1);
        if flen <= moves {
            push_range(&mut out, &v, a, p);
            push_range(&mut out, &v, p + 1, fe);
            push_zeros(&mut out, moves - flen);
            proof {
                assert(out@ =~= spec_shift_right(s, moves as nat)) by {
                    assert(d + zeros((moves - f.len()) as nat) =~= v@.subrange(a as int, p as int)
                        + v@.subrange(p as int + 1, fe as int) + zeros((moves - flen) as nat));
                    assert(out@ =~= sign_seq(is_negative(s)) + (d + zeros(
                        (moves - f.len()) as nat,
                    )));
                }
            }
        } else {
            push_range(&mut out, &v, a, p);
            push_range(&mut out, &v, p + 1, p + 1 + moves);
            out.push('.');
            push_range(&mut out, &v, p + 1 + moves, fe);
            proof {
                assert(out@ =~= spec_shift_right(s, moves as nat)) by {
                    let cut = (i0.len() + moves) as int;
                    assert(d.take(cut) =~= v@.subrange(a as int, p as int) + v@.subrange(
                        p as int + 1,
                        p as int + 1 + moves as int,
                    ));
                    assert(d.skip(cut) =~= v@.subrange(p as int + 1 + moves as int, fe as int));
                    assert(out@ =~= sign_seq(is_negative(s)) + (d.take(cut) + seq!['.'] + d.skip(
                        cut,
                    )));
                }
            }
        }
    }
    proof {
        lemma_shift_right_props(s, moves as nat);
    }
    *value = string_from_chars(&out);
}

/// Relocates the decimal point of `value` by `moves` digits to the
/// left, dividing the denoted value by ten to the `moves` exactly;
/// trailing fraction zeros and a dangling point are dropped from the
/// result.
#[verifier::rlimit(100)]
#[verifier::spinoff_prover]
pub fn move_comma_left(value: &mut String, moves: usize)
    requires
        wf_decimal(old(value)@),
    ensures
        final(value)@ == spec_shift_left(old(value)@, moves as nat),
        wf_decimal(final(value)@),
{
    let ghost s = value@;
    let v = chars_of(value.as_str());
    let n = v.len();
    let (neg, a, p) = scan_value(&v);
    let ghost b = unsigned_part(s);
    let ghost i0 = strip_leading_zeros(int_digits(b));
    let ghost f = frac_digits(b);
    let ghost d = i0 + f;
    let i0len = p - a;
    let mut out: Vec<char> = Vec::new();
    if neg {
        out.push('-');
    }
    proof {
        assert(out@ =~= sign_seq(is_negative(s)));
    }
    let ghost body0 = if i0.len() <= moves {
        seq!['0', '.'] + zeros((moves - i0.len()) as nat) + d
    } else {
        d.take(i0.len() - moves) + seq!['.'] + d.skip(i0.len() - moves)
    };
    if i0len <= moves {
        out.push('0');
        out.push('.');
        push_zeros(&mut out, moves - i0len);
        push_range(&mut out, &v, a, p);
        if p < n {
            push_range(&mut out, &v, p + 1, n);
        }
        proof {
            assert(out@ =~= sign_seq(is_negative(s)) + body0) by {
                assert(d =~= v@.subrange(a as int, p as int) + (if p < n {
                    v@.subrange(p as int + 1, n as int)
                } else {
                    Seq::<char>::empty()
                }));
            }
        }
    } else {
        push_range(&mut out, &v, a, a + (i0len - moves));
        out.push('.');
        push_range(&mut out, &v, a + (i0len - moves), p);
        if p < n {
            push_range(&mut out, &v, p + 1, n);
        }
        proof {
            assert(out@ =~= sign_seq(is_negative(s)) + body0) by {
                let cut = i0.len() - moves;
                assert(d.take(cut) =~= v@.subrange(a as int, a as int + i0len - moves));
                assert(d.skip(cut) =~= v@.subrange(a as int + i0len - moves, p as int) + (if p
                    < n {
                    v@.subrange(p as int + 1, n as int)
                } else {
                    Seq::<char>::empty()
                }));
            }
        }
    }
    strip_tail(&mut out);
    proof {
        let pti = if i0.len() <= moves {
            1int
        } else {
            i0.len() - moves
        };
        assert(body0[pti] == '.');
        lemma_strip_tail_sign(is_negative(s), body0);
        assert(out@ == spec_shift_left(s, moves as nat));
        lemma_shift_left_props(s, moves as nat);
    }
    *value = string_from_chars(&out);
}


/// Removes trailing zero digits, then a dangling decimal point.
fn strip_tail(out: &mut Vec<char>)
    ensures
        final(out)@ == strip_trailing_point(strip_trailing_zeros(old(out)@)),
{
    let ghost full = out@;
    proof {
        assert(full.take(full.len() as int) =~= full);
    }
    while out.len() > 0 && out[out.len() - 1] == '0'
        invariant
            out@ == full.take(out@.len() as int),
            out@.len() <= full.len(),
            forall|j: int| out@.len() <= j < full.len() ==> full[j] == '0',
        decreases out@.len(),
    {
        let _ = out.pop();
        proof {
            assert(out@ =~= full.take(out@.len() as int));
        }
    }
    proof {
        lemma_strip_trailing_from_scan(full, out@.len() as int);
        assert(out@ == strip_trailing_zeros(full));
    }
    if out.len() > 0 && out[out.len() - 1] == '.' {
        let ghost y = out@;
        let _ = out.pop();
        proof {
            assert(out@ =~= y.drop_last());
        }
    }
}

/// Tail stripping passes over a leading sign unchanged whenever the
/// body holds a decimal point, since stripping stops at that point.
proof fn lemma_strip_tail_sign(neg: bool, body0: Seq<char>)
    requires
        exists|i: int| 0 <= i < body0.len() && body0[i] == '.',
    ensures
        strip_trailing_point(strip_trailing_zeros(sign_seq(neg) + body0)) == sign_seq(neg)
            + strip_trailing_point(strip_trailing_zeros(body0)),
{
    lemma_strip_trailing_concat(sign_seq(neg), body0);
    if strip_trailing_zeros(body0).len() == 0 {
        lemma_strip_trailing_empty(body0);
        assert(false);
    }
    let y = strip_trailing_zeros(body0);
    assert((sign_seq(neg) + y).last() == y.last());
    if y.last() == '.' {
        assert((sign_seq(neg) + y).drop_last() =~= sign_seq(neg) + y.drop_last());
    }
}

} // verus!
