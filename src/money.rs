//! Fixed-point money: decimal text in, truncated to `PRECISION` fractional
//! digits, and decimal text out with exactly `PRECISION` fractional digits.
use vstd::arithmetic::div_mod::lemma_fundamental_div_mod_converse;
use vstd::arithmetic::power::{lemma_pow_adds, lemma_pow_positive, pow};
use vstd::prelude::*;
use vstd::string::{StrSliceExecFns, StringExecFns};

verus! {

/// Number of fractional decimal digits kept in an amount.
pub const PRECISION: u32 = 4;

/// One currency unit in the fixed-point representation: ten to the power
/// `PRECISION`.
pub const SCALE: i128 = 10000;

/// `SCALE` is ten to the power `PRECISION`, so that an amount parsed with
/// `PRECISION` digits is printed back with the same digits.
pub proof fn lemma_scale_is_ten_to_precision()
    ensures
        SCALE == pow(10, PRECISION as nat),
{
    reveal_with_fuel(pow, 5);
}

pub open spec fn is_digit(c: char) -> bool {
    '0' <= c && c <= '9'
}

pub open spec fn digit_value(c: char) -> int {
    c as int - '0' as int
}

pub open spec fn all_digits(s: Seq<char>) -> bool {
    forall|i: int| 0 <= i < s.len() ==> is_digit(#[trigger] s[i])
}

/// Value of a string of decimal digits, most significant digit first.
pub open spec fn digits_value(s: Seq<char>) -> int
    decreases s.len(),
{
    if s.len() == 0 {
        0
    } else {
        digits_value(s.drop_last()) * 10 + digit_value(s.last())
    }
}

/// Position of the first '.' in `u`, or `u.len()` when there is none.
pub open spec fn dot_index(u: Seq<char>) -> int
    decreases u.len(),
{
    if u.len() == 0 {
        0
    } else if u[0] == '.' {
        0
    } else {
        1 + dot_index(u.subrange(1, u.len() as int))
    }
}

/// Length of the optional leading sign.
pub open spec fn sign_len(s: Seq<char>) -> int {
    if s.len() > 0 && (s[0] == '-' || s[0] == '+') {
        1
    } else {
        0
    }
}

pub open spec fn is_negative(s: Seq<char>) -> bool {
    s.len() > 0 && s[0] == '-'
}

/// The text after the optional sign.
pub open spec fn unsigned_part(s: Seq<char>) -> Seq<char> {
    s.subrange(sign_len(s), s.len() as int)
}

/// The digits before the decimal point.
pub open spec fn int_digits(s: Seq<char>) -> Seq<char> {
    unsigned_part(s).take(dot_index(unsigned_part(s)))
}

/// The digits after the decimal point; empty when there is no point.
pub open spec fn frac_digits(s: Seq<char>) -> Seq<char> {
    let u = unsigned_part(s);
    if dot_index(u) < u.len() {
        u.skip(dot_index(u) + 1)
    } else {
        Seq::empty()
    }
}

/// `s` is a decimal number: an optional `+` or `-`, then digits with at
/// most one `.` among them, and at least one digit. Exponents are not part
/// of the notation.
pub open spec fn is_decimal(s: Seq<char>) -> bool {
    &&& all_digits(int_digits(s))
    &&& all_digits(frac_digits(s))
    &&& int_digits(s).len() + frac_digits(s).len() > 0
}

/// The value of the decimal `s` times ten to the power `p`, rounded down:
/// `floor(v * 10^p)`. The value is the integer formed by all the digits,
/// with the sign, over ten to the power of the number of fractional digits.
pub open spec fn scaled_floor(s: Seq<char>, p: nat) -> int {
    let n = digits_value(int_digits(s) + frac_digits(s));
    let signed = if is_negative(s) {
        -n
    } else {
        n
    };
    (signed * pow(10, p)) / pow(10, frac_digits(s).len())
}

/// Digits of a concatenation.
pub proof fn lemma_digits_value_concat(a: Seq<char>, b: Seq<char>)
    ensures
        digits_value(a + b) == digits_value(a) * pow(10, b.len()) + digits_value(b),
    decreases b.len(),
{
    if b.len() == 0 {
        assert(a + b =~= a);
        assert(pow(10, 0) == 1) by {
            reveal(pow);
        }
    } else {
        assert((a + b).drop_last() =~= a + b.drop_last());
        lemma_digits_value_concat(a, b.drop_last());
        assert(pow(10, b.len()) == 10 * pow(10, (b.len() - 1) as nat)) by {
            reveal(pow);
        }
        let x = digits_value(a);
        let y = pow(10, (b.len() - 1) as nat);
        assert(x * (10 * y) == (x * y) * 10) by (nonlinear_arith);
    }
}

/// A string of digits is worth less than ten to the power of its length.
pub proof fn lemma_digits_value_bounds(s: Seq<char>)
    requires
        all_digits(s),
    ensures
        0 <= digits_value(s) < pow(10, s.len()),
    decreases s.len(),
{
    reveal(pow);
    if s.len() > 0 {
        assert(all_digits(s.drop_last()));
        lemma_digits_value_bounds(s.drop_last());
        assert(is_digit(s[s.len() - 1]));
    }
}

/// A string of digits is worth zero exactly when all its digits are '0'.
pub proof fn lemma_digits_value_zero(s: Seq<char>)
    requires
        all_digits(s),
    ensures
        digits_value(s) == 0 <==> forall|i: int| 0 <= i < s.len() ==> #[trigger] s[i] == '0',
    decreases s.len(),
{
    if s.len() > 0 {
        assert(all_digits(s.drop_last()));
        lemma_digits_value_zero(s.drop_last());
        lemma_digits_value_bounds(s.drop_last());
        assert(is_digit(s[s.len() - 1]));
        if digits_value(s) == 0 {
            assert forall|i: int| 0 <= i < s.len() implies #[trigger] s[i] == '0' by {
                if i < s.len() - 1 {
                    assert(s.drop_last()[i] == s[i]);
                }
            }
        } else {
            if forall|i: int| 0 <= i < s.len() ==> #[trigger] s[i] == '0' {
                assert forall|i: int| 0 <= i < s.drop_last().len() implies #[trigger] s.drop_last()[i]
                    == '0' by {
                    assert(s[i] == '0');
                }
                assert(s[s.len() - 1] == '0');
            }
        }
    }
}

/// `dot_index` is the first position holding '.', or the length.
pub proof fn lemma_dot_index(u: Seq<char>, d: int)
    requires
        0 <= d <= u.len(),
        d == u.len() || u[d] == '.',
        forall|i: int| 0 <= i < d ==> u[i] != '.',
    ensures
        dot_index(u) == d,
    decreases u.len(),
{
    if d > 0 {
        let t = u.subrange(1, u.len() as int);
        assert forall|i: int| 0 <= i < d - 1 implies t[i] != '.' by {
            assert(t[i] == u[i + 1]);
        }
        lemma_dot_index(t, d - 1);
    }
}

/// Floor of a decimal times a power of ten, from its digits: keep the
/// integer digits and the first `p` fractional digits (padding with zeros),
/// and for a negative number subtract one more when a dropped digit is not
/// zero.
pub proof fn lemma_scaled_floor(s: Seq<char>, p: nat)
    requires
        is_decimal(s),
    ensures
        ({
            let f = frac_digits(s);
            let m = if f.len() <= p {
                f.len()
            } else {
                p
            };
            let kept = digits_value(int_digits(s) + f.take(m as int)) * pow(10, (p - m) as nat);
            let dropped = digits_value(f.skip(m as int));
            &&& kept >= 0
            &&& 0 <= dropped
            &&& (dropped == 0 <==> forall|i: int|
                m <= i < f.len() ==> #[trigger] f[i] == '0')
            &&& scaled_floor(s, p) == if !is_negative(s) {
                kept
            } else if dropped == 0 {
                -kept
            } else {
                -kept - 1
            }
        }),
{
    let i = int_digits(s);
    let f = frac_digits(s);
    let k = f.len();
    let m: nat = if k <= p {
        k
    } else {
        p
    };
    let head = i + f.take(m as int);
    let tail = f.skip(m as int);
    assert(i + f =~= head + tail);
    assert(all_digits(head));
    assert(all_digits(tail));
    lemma_digits_value_concat(head, tail);
    lemma_digits_value_bounds(head);
    lemma_digits_value_bounds(tail);
    lemma_digits_value_zero(tail);
    assert((forall|j: int| 0 <= j < tail.len() ==> #[trigger] tail[j] == '0') <==> (forall|j: int|
        m <= j < f.len() ==> #[trigger] f[j] == '0')) by {
        if forall|j: int| 0 <= j < tail.len() ==> #[trigger] tail[j] == '0' {
            assert forall|j: int| m <= j < f.len() implies #[trigger] f[j] == '0' by {
                assert(tail[j - m] == f[j]);
            }
        }
        if forall|j: int| m <= j < f.len() ==> #[trigger] f[j] == '0' {
            assert forall|j: int| 0 <= j < tail.len() implies #[trigger] tail[j] == '0' by {
                assert(tail[j] == f[j + m]);
            }
        }
    }
    let d = digits_value(head);
    let r = digits_value(tail);
    let n = digits_value(i + f);
    lemma_pow_positive(10, p);
    lemma_pow_positive(10, k);
    lemma_pow_positive(10, (p - m) as nat);
    lemma_pow_positive(10, (k - m) as nat);
    let pp = pow(10, p);
    let pk = pow(10, k);
    let kept = d * pow(10, (p - m) as nat);
    assert(kept >= 0) by (nonlinear_arith)
        requires
            kept == d * pow(10, (p - m) as nat),
            d >= 0,
            pow(10, (p - m) as nat) > 0,
    ;
    if k <= p {
        assert(tail.len() == 0);
        assert(r == 0);
        assert(pow(10, 0) == 1) by {
            reveal(pow);
        }
        assert(n == d);
        lemma_pow_adds(10, (p - k) as nat, k);
        assert((p - k) as nat + k == p);
        assert(pp == pow(10, (p - k) as nat) * pk);
        assert(n * pp == kept * pk) by (nonlinear_arith)
            requires
                n == d,
                kept == d * pow(10, (p - k) as nat),
                pp == pow(10, (p - k) as nat) * pk,
        ;
        lemma_fundamental_div_mod_converse(n * pp, pk, kept, 0);
        assert((-n) * pp == (-kept) * pk) by (nonlinear_arith)
            requires
                n * pp == kept * pk,
        ;
        lemma_fundamental_div_mod_converse((-n) * pp, pk, -kept, 0);
    } else {
        let q = pow(10, (k - p) as nat);
        assert(m == p);
        assert(pow(10, 0) == 1) by {
            reveal(pow);
        }
        assert(kept == d);
        assert(tail.len() == k - p);
        assert(n == d * q + r);
        lemma_pow_adds(10, p, (k - p) as nat);
        assert(p + (k - p) as nat == k);
        assert(pk == pp * q);
        assert(0 <= r * pp < pk) by (nonlinear_arith)
            requires
                0 <= r < q,
                pp > 0,
                pk == pp * q,
        ;
        assert(n * pp == d * pk + r * pp) by (nonlinear_arith)
            requires
                n == d * q + r,
                pk == pp * q,
        ;
        lemma_fundamental_div_mod_converse(n * pp, pk, d, r * pp);
        if r == 0 {
            assert((-n) * pp == (-d) * pk) by (nonlinear_arith)
                requires
                    n * pp == d * pk + r * pp,
                    r == 0,
            ;
            lemma_fundamental_div_mod_converse((-n) * pp, pk, -d, 0);
        } else {
            assert(r * pp > 0) by (nonlinear_arith)
                requires
                    r > 0,
                    pp > 0,
            ;
            assert((-n) * pp == (-d - 1) * pk + (pk - r * pp)) by (nonlinear_arith)
                requires
                    n * pp == d * pk + r * pp,
            ;
            lemma_fundamental_div_mod_converse((-n) * pp, pk, -d - 1, pk - r * pp);
        }
    }
}

/// The characters of `s`.
fn chars_of(s: &str) -> (r: Vec<char>)
    ensures
        r@ == s@,
{
    let n = s.unicode_len();
    let mut r: Vec<char> = Vec::new();
    let mut i: usize = 0;
    while i < n
        invariant
            n == s@.len(),
            i <= n,
            r@ == s@.take(i as int),
        decreases n - i,
    {
        r.push(s.get_char(i));
        assert(r@ =~= s@.take(i + 1));
        i = i + 1;
    }
    assert(r@ =~= s@);
    r
}

/// Whether `v[from..to]` holds only decimal digits.
fn digits_only(v: &Vec<char>, from: usize, to: usize) -> (r: bool)
    requires
        from <= to <= v@.len(),
    ensures
        r == all_digits(v@.subrange(from as int, to as int)),
{
    let mut i = from;
    while i < to
        invariant
            from <= i <= to <= v@.len(),
            all_digits(v@.subrange(from as int, i as int)),
        decreases to - i,
    {
        if !('0' <= v[i] && v[i] <= '9') {
            assert(v@.subrange(from as int, to as int)[i - from] == v@[i as int]);
            return false;
        }
        assert forall|j: int| 0 <= j < i + 1 - from implies is_digit(
            #[trigger] v@.subrange(from as int, i + 1)[j],
        ) by {
            if j < i - from {
                assert(v@.subrange(from as int, i + 1)[j] == v@.subrange(from as int, i as int)[j]);
            }
        }
        i = i + 1;
    }
    true
}

/// Whether some character of `v[from..to]` is not '0'.
fn any_nonzero(v: &Vec<char>, from: usize, to: usize) -> (r: bool)
    requires
        from <= to <= v@.len(),
    ensures
        r == exists|i: int| from <= i < to && v@[i] != '0',
{
    let mut i = from;
    while i < to
        invariant
            from <= i <= to <= v@.len(),
            forall|j: int| from <= j < i ==> v@[j] == '0',
        decreases to - i,
    {
        if v[i] != '0' {
            return true;
        }
        i = i + 1;
    }
    false
}

/// Appends the digits `v[from..to]` to the number `acc`, giving up as soon
/// as the number exceeds `limit`.
fn push_digits(v: &Vec<char>, from: usize, to: usize, acc: u128, limit: u128) -> (r: Option<u128>)
    requires
        from <= to <= v@.len(),
        all_digits(v@.subrange(from as int, to as int)),
        acc <= limit <= u64::MAX,
    ensures
        ({
            let full = acc * pow(10, (to - from) as nat) + digits_value(
                v@.subrange(from as int, to as int),
            );
            match r {
                Some(x) => x == full && x <= limit,
                None => full > limit,
            }
        }),
{
    let ghost whole = v@.subrange(from as int, to as int);
    let mut x = acc;
    let mut i = from;
    proof {
        reveal(pow);
        assert(v@.subrange(from as int, from as int) =~= Seq::<char>::empty());
    }
    while i < to
        invariant
            from <= i <= to <= v@.len(),
            whole == v@.subrange(from as int, to as int),
            all_digits(whole),
            acc <= limit <= u64::MAX,
            x <= limit,
            x == acc * pow(10, (i - from) as nat) + digits_value(
                v@.subrange(from as int, i as int),
            ),
        decreases to - i,
    {
        let ghost prefix = v@.subrange(from as int, i as int);
        let ghost next = v@.subrange(from as int, i + 1);
        assert(next.drop_last() =~= prefix);
        assert(is_digit(whole[i - from]));
        assert(whole[i - from] == v@[i as int]);
        let dgt = (v[i] as u32 - '0' as u32) as u128;
        let y = x * 10 + dgt;
        proof {
            assert(pow(10, (i + 1 - from) as nat) == 10 * pow(10, (i - from) as nat)) by {
                reveal(pow);
            }
            let pa = pow(10, (i - from) as nat);
            assert(acc * (10 * pa) == (acc * pa) * 10) by (nonlinear_arith);
        }
        if y > limit {
            proof {
                let rest = v@.subrange(i + 1, to as int);
                assert(whole =~= next + rest);
                lemma_digits_value_concat(next, rest);
                assert(all_digits(rest)) by {
                    assert forall|j: int| 0 <= j < rest.len() implies is_digit(#[trigger] rest[j]) by {
                        assert(rest[j] == whole[j + i + 1 - from]);
                    }
                }
                lemma_digits_value_bounds(rest);
                assert(all_digits(next)) by {
                    assert forall|j: int| 0 <= j < next.len() implies is_digit(#[trigger] next[j]) by {
                        assert(next[j] == whole[j]);
                    }
                }
                lemma_digits_value_bounds(next);
                lemma_pow_positive(10, (i + 1 - from) as nat);
                lemma_pow_positive(10, rest.len());
                lemma_pow_adds(10, (i + 1 - from) as nat, rest.len());
                assert((i + 1 - from) as nat + rest.len() == (to - from) as nat);
                let pn = pow(10, (i + 1 - from) as nat);
                let pr = pow(10, rest.len());
                assert(acc * (pn * pr) + digits_value(next) * pr + digits_value(rest) >= y) by (
                nonlinear_arith)
                    requires
                        y == acc * pn + digits_value(next),
                        pr >= 1,
                        acc >= 0,
                        pn >= 0,
                        digits_value(next) >= 0,
                        digits_value(rest) >= 0,
                ;
                assert(acc * (pn * pr) + digits_value(next) * pr == (acc * pn + digits_value(next))
                    * pr) by (nonlinear_arith);
            }
            return None;
        }
        x = y;
        i = i + 1;
    }
    Some(x)
}

/// Multiplies `acc` by ten to the power `zeros`, giving up as soon as the
/// product exceeds `limit`.
fn shift_digits(acc: u128, zeros: u32, limit: u128) -> (r: Option<u128>)
    requires
        acc <= limit <= u64::MAX,
    ensures
        match r {
            Some(x) => x == acc * pow(10, zeros as nat) && x <= limit,
            None => acc * pow(10, zeros as nat) > limit,
        },
{
    if acc == 0 {
        assert(0 * pow(10, zeros as nat) == 0);
        return Some(0);
    }
    let mut x = acc;
    let mut z: u32 = 0;
    proof {
        reveal(pow);
    }
    while z < zeros
        invariant
            z <= zeros,
            0 < acc <= limit <= u64::MAX,
            x <= limit,
            x == acc * pow(10, z as nat),
        decreases zeros - z,
    {
        proof {
            assert(pow(10, (z + 1) as nat) == 10 * pow(10, z as nat)) by {
                reveal(pow);
            }
            let pz = pow(10, z as nat);
            assert(acc * (10 * pz) == (acc * pz) * 10) by (nonlinear_arith);
        }
        let y = x * 10;
        if y > limit {
            proof {
                lemma_pow_positive(10, (zeros - z - 1) as nat);
                lemma_pow_adds(10, (z + 1) as nat, (zeros - z - 1) as nat);
                assert((z + 1) as nat + (zeros - z - 1) as nat == zeros as nat);
                let pa = pow(10, (z + 1) as nat);
                let pb = pow(10, (zeros - z - 1) as nat);
                assert(acc * (pa * pb) >= y) by (nonlinear_arith)
                    requires
                        y == acc * pa,
                        pb >= 1,
                        y >= 0,
                        acc >= 0,
                ;
            }
            return None;
        }
        x = y;
        z = z + 1;
    }
    Some(x)
}

/// Positions of the parts of the text `v`: the end of the sign, the
/// decimal point (or the length when there is none), and the start of the
/// fractional digits.
fn locate_parts(v: &Vec<char>) -> (r: (usize, usize, usize))
    ensures
        r.0 == sign_len(v@),
        r.0 <= r.1 <= r.2 <= v@.len(),
        int_digits(v@) == v@.subrange(r.0 as int, r.1 as int),
        frac_digits(v@) == v@.subrange(r.2 as int, v@.len() as int),
{
    let n = v.len();
    let start: usize = if n > 0 && (v[0] == '-' || v[0] == '+') {
        1
    } else {
        0
    };
    let mut d: usize = start;
    while d < n && v[d] != '.'
        invariant
            start <= d <= n,
            n == v@.len(),
            forall|i: int| start <= i < d ==> v@[i] != '.',
        decreases n - d,
    {
        d = d + 1;
    }
    let frac_start: usize = if d < n {
        d + 1
    } else {
        n
    };
    proof {
        let u = unsigned_part(v@);
        assert(u =~= v@.subrange(start as int, n as int));
        assert forall|i: int| 0 <= i < d - start implies u[i] != '.' by {
            assert(u[i] == v@[i + start]);
        }
        lemma_dot_index(u, d - start);
        assert(int_digits(v@) =~= v@.subrange(start as int, d as int));
        assert(frac_digits(v@) =~= v@.subrange(frac_start as int, n as int));
    }
    (start, d, frac_start)
}

/// The digits `v[start..d]` followed by `v[frac_start..frac_end]`, as one
/// number, times ten to the power `zeros`; `None` once that exceeds `limit`.
fn kept_value(
    v: &Vec<char>,
    start: usize,
    d: usize,
    frac_start: usize,
    frac_end: usize,
    zeros: u32,
    limit: u128,
) -> (r: Option<u128>)
    requires
        start <= d <= v@.len(),
        frac_start <= frac_end <= v@.len(),
        all_digits(v@.subrange(start as int, d as int)),
        all_digits(v@.subrange(frac_start as int, frac_end as int)),
        limit <= u64::MAX,
    ensures
        ({
            let kept = digits_value(
                v@.subrange(start as int, d as int) + v@.subrange(frac_start as int, frac_end as int),
            ) * pow(10, zeros as nat);
            match r {
                Some(x) => x == kept && x <= limit,
                None => kept > limit,
            }
        }),
{
    let ghost a = v@.subrange(start as int, d as int);
    let ghost b = v@.subrange(frac_start as int, frac_end as int);
    proof {
        lemma_digits_value_concat(a, b);
        lemma_digits_value_bounds(a);
        lemma_digits_value_bounds(b);
        lemma_pow_positive(10, b.len());
        lemma_pow_positive(10, zeros as nat);
        assert(0 * pow(10, a.len()) == 0);
    }
    let ghost joined = digits_value(a + b);
    let ghost scaled = joined * pow(10, zeros as nat);
    assert(scaled >= joined) by (nonlinear_arith)
        requires
            scaled == joined * pow(10, zeros as nat),
            pow(10, zeros as nat) >= 1,
            joined >= 0,
    ;
    let whole = match push_digits(v, start, d, 0, limit) {
        Some(x) => x,
        None => {
            assert(joined >= digits_value(a)) by (nonlinear_arith)
                requires
                    joined == digits_value(a) * pow(10, b.len()) + digits_value(b),
                    pow(10, b.len()) >= 1,
                    digits_value(a) >= 0,
                    digits_value(b) >= 0,
            ;
            return None;
        },
    };
    let joined_x = match push_digits(v, frac_start, frac_end, whole, limit) {
        Some(x) => x,
        None => {
            return None;
        },
    };
    shift_digits(joined_x, zeros, limit)
}

/// What `get_specified_precision` returns for the text `s`.
pub open spec fn truncated(s: Seq<char>, p: nat) -> Option<i64> {
    if is_decimal(s) && i64::MIN <= scaled_floor(s, p) <= i64::MAX {
        Some(scaled_floor(s, p) as i64)
    } else {
        None
    }
}

/// The decimal `val` times ten to the power `decimal_precision`, rounded
/// down (toward negative infinity): the amount in units of
/// `10^-decimal_precision`, with the digits beyond the precision dropped.
/// `None` when `val` is not a decimal number or the result does not fit in
/// an `i64`.
pub fn get_specified_precision(val: &str, decimal_precision: u32) -> (r: Option<i64>)
    ensures
        r == truncated(val@, decimal_precision as nat),
{
    let ghost s = val@;
    let ghost p = decimal_precision as nat;
    let v = chars_of(val);
    let n = v.len();
    let neg = n > 0 && v[0] == '-';
    let (start, d, frac_start) = locate_parts(&v);
    if !digits_only(&v, start, d) || !digits_only(&v, frac_start, n) || (d - start) + (n
        - frac_start) == 0 {
        return None;
    }
    let k = n - frac_start;
    let m: usize = if k as u64 <= decimal_precision as u64 {
        k
    } else {
        decimal_precision as usize
    };
    let ghost f = frac_digits(s);
    proof {
        lemma_scaled_floor(s, p);
        assert(f.take(m as int) =~= v@.subrange(frac_start as int, frac_start + m));
        assert(all_digits(v@.subrange(frac_start as int, frac_start + m))) by {
            assert forall|j: int| 0 <= j < m implies is_digit(
                #[trigger] v@.subrange(frac_start as int, frac_start + m)[j],
            ) by {
                assert(v@.subrange(frac_start as int, frac_start + m)[j] == f[j]);
            }
        }
    }
    let zeros = (decimal_precision as usize - m) as u32;
    let kept = match kept_value(&v, start, d, frac_start, frac_start + m, zeros, 0x8000_0000_0000_0000) {
        Some(x) => x,
        None => {
            return None;
        },
    };
    let dropped = any_nonzero(&v, frac_start + m, n);
    proof {
        assert(dropped == exists|j: int| m <= j < f.len() && f[j] != '0') by {
            if dropped {
                let j = choose|j: int| frac_start + m <= j < n && v@[j] != '0';
                assert(f[j - frac_start] == v@[j]);
            }
            if exists|j: int| m <= j < f.len() && f[j] != '0' {
                let j = choose|j: int| m <= j < f.len() && f[j] != '0';
                assert(f[j] == v@[j + frac_start]);
            }
        }
    }
    if !neg {
        if kept <= 0x7fff_ffff_ffff_ffff {
            Some(kept as i64)
        } else {
            None
        }
    } else {
        let magnitude = if dropped {
            kept + 1
        } else {
            kept
        };
        if magnitude <= 0x8000_0000_0000_0000 {
            Some((0 - magnitude as i128) as i64)
        } else {
            None
        }
    }
}

/// The character of the decimal digit `d`.
pub open spec fn digit_char(d: int) -> char {
    (d + '0' as int) as char
}

/// Decimal digits of `n` without leading zeros; "0" for zero.
pub open spec fn decimal_digits(n: nat) -> Seq<char>
    decreases n,
{
    if n < 10 {
        seq![digit_char(n as int)]
    } else {
        decimal_digits(n / 10) + seq![digit_char((n % 10) as int)]
    }
}

/// The last `width` decimal digits of `n`, with leading zeros.
pub open spec fn padded_digits(n: nat, width: nat) -> Seq<char>
    decreases width,
{
    if width == 0 {
        Seq::empty()
    } else {
        padded_digits(n / 10, (width - 1) as nat) + seq![digit_char((n % 10) as int)]
    }
}

/// A fixed-point amount as text: a '-' when negative, the whole units, a
/// '.', and exactly `PRECISION` fractional digits.
pub open spec fn money_text(v: int) -> Seq<char> {
    let m = if v < 0 {
        -v
    } else {
        v
    };
    let sign = if v < 0 {
        seq!['-']
    } else {
        Seq::empty()
    };
    sign + decimal_digits((m / SCALE as int) as nat) + seq!['.'] + padded_digits(
        (m % SCALE as int) as nat,
        PRECISION as nat,
    )
}

/// The one-character text of a decimal digit.
fn digit_str(d: u8) -> (r: &'static str)
    requires
        d < 10,
    ensures
        r@ == seq![digit_char(d as int)],
{
    proof {
        reveal_strlit("0");
        reveal_strlit("1");
        reveal_strlit("2");
        reveal_strlit("3");
        reveal_strlit("4");
        reveal_strlit("5");
        reveal_strlit("6");
        reveal_strlit("7");
        reveal_strlit("8");
        reveal_strlit("9");
    }
    let r = match d {
        0 => "0",
        1 => "1",
        2 => "2",
        3 => "3",
        4 => "4",
        5 => "5",
        6 => "6",
        7 => "7",
        8 => "8",
        _ => "9",
    };
    assert(r@ =~= seq![digit_char(d as int)]);
    r
}

/// Appends the decimal digits of `n` to `out`.
pub(crate) fn push_decimal(out: &mut String, n: u128)
    ensures
        final(out)@ == old(out)@ + decimal_digits(n as nat),
    decreases n,
{
    if n >= 10 {
        push_decimal(out, n / 10);
    }
    out.append(digit_str((n % 10) as u8));
    assert(decimal_digits(n as nat) == if n < 10 {
        seq![digit_char(n as int)]
    } else {
        decimal_digits((n / 10) as nat) + seq![digit_char((n % 10) as int)]
    });
    assert(final(out)@ =~= old(out)@ + decimal_digits(n as nat));
}

/// Appends the last `width` decimal digits of `n`, with leading zeros.
fn push_padded(out: &mut String, n: u128, width: u32)
    ensures
        final(out)@ == old(out)@ + padded_digits(n as nat, width as nat),
    decreases width,
{
    if width > 0 {
        push_padded(out, n / 10, width - 1);
        out.append(digit_str((n % 10) as u8));
    }
    assert(final(out)@ =~= old(out)@ + padded_digits(n as nat, width as nat));
}

/// Appends a fixed-point amount as text.
pub(crate) fn push_money(out: &mut String, v: i128)
    ensures
        final(out)@ == old(out)@ + money_text(v as int),
{
    let ghost start = out@;
    if v < 0 {
        proof {
            reveal_strlit("-");
        }
        out.append("-");
    }
    let m: u128 = if v < 0 {
        (0 - (v + 1)) as u128 + 1
    } else {
        v as u128
    };
    push_decimal(out, m / SCALE as u128);
    proof {
        reveal_strlit(".");
    }
    out.append(".");
    push_padded(out, m % SCALE as u128, PRECISION);
    assert(final(out)@ =~= start + money_text(v as int));
}

/// A fixed-point amount as text, with exactly `PRECISION` fractional digits.
pub fn format_money(v: i128) -> (r: String)
    ensures
        r@ == money_text(v as int),
{
    let mut out = String::new();
    push_money(&mut out, v);
    assert(out@ =~= money_text(v as int));
    out
}

} // verus!
