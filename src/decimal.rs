use vstd::prelude::*;

verus! {

/// Decimal places kept by a fixed-point quantity: one unit is 10^-8.
pub const SCALE: usize = 8;

/// The byte `.`.
pub const DOT: u8 = 46;

pub open spec fn is_digit(c: u8) -> bool {
    48 <= c <= 57
}

pub open spec fn all_digits(s: Seq<u8>) -> bool {
    forall|i: int| 0 <= i < s.len() ==> is_digit(#[trigger] s[i])
}

/// The number that the decimal digits `s` spell.
pub open spec fn digits_value(s: Seq<u8>) -> nat
    decreases s.len(),
{
    if s.len() == 0 {
        0
    } else {
        digits_value(s.drop_last()) * 10 + (s.last() - 48) as nat
    }
}

pub open spec fn pow10(n: nat) -> nat
    decreases n,
{
    if n == 0 {
        1
    } else {
        10 * pow10((n - 1) as nat)
    }
}

/// `d` is where the integer digits of `s` end: at its first `.`, or at its end.
pub open spec fn int_end(s: Seq<u8>, d: int) -> bool {
    &&& 0 <= d <= s.len()
    &&& d == s.len() || s[d] == DOT
    &&& forall|i: int| 0 <= i < d ==> s[i] != DOT
}

/// The fraction digits of `s`, after the dot at `d`.
pub open spec fn fraction(s: Seq<u8>, d: int) -> Seq<u8> {
    if d < s.len() {
        s.subrange(d + 1, s.len() as int)
    } else {
        Seq::empty()
    }
}

/// `s` reads `digits` or `digits.digits`, with at most `SCALE` fraction digits.
pub open spec fn numeral_at(s: Seq<u8>, d: int) -> bool {
    &&& d > 0
    &&& all_digits(s.subrange(0, d))
    &&& all_digits(fraction(s, d))
    &&& fraction(s, d).len() <= SCALE
}

/// The value of the numeral `s`, in units of 10^-8.
pub open spec fn numeral_value(s: Seq<u8>, d: int) -> nat {
    let f = fraction(s, d);
    digits_value(s.subrange(0, d)) * pow10(SCALE as nat) + digits_value(f) * pow10(
        (SCALE - f.len()) as nat,
    )
}

proof fn lemma_pow10_positive(n: nat)
    ensures
        pow10(n) >= 1,
    decreases n,
{
    if n > 0 {
        lemma_pow10_positive((n - 1) as nat);
    }
}

/// A numeral's value never falls below the value of the digits it starts with.
proof fn lemma_digits_prefix(s: Seq<u8>, i: int)
    requires
        0 <= i <= s.len(),
        all_digits(s),
    ensures
        digits_value(s.subrange(0, i)) <= digits_value(s),
    decreases s.len(),
{
    if i < s.len() {
        assert(all_digits(s.drop_last()));
        lemma_digits_prefix(s.drop_last(), i);
        assert(s.drop_last().subrange(0, i) =~= s.subrange(0, i));
    } else {
        assert(s.subrange(0, i) =~= s);
    }
}

/// Scaling the integer digits to 10^-8 units never lowers the value of any
/// prefix of them.
proof fn lemma_scaled_prefix(whole: Seq<u8>, i: int)
    requires
        0 <= i <= whole.len(),
        all_digits(whole),
    ensures
        digits_value(whole.subrange(0, i)) <= digits_value(whole) * pow10(SCALE as nat),
{
    lemma_digits_prefix(whole, i);
    lemma_pow10_positive(SCALE as nat);
    assert(digits_value(whole) <= digits_value(whole) * pow10(SCALE as nat)) by (nonlinear_arith)
        requires
            pow10(SCALE as nat) >= 1,
    ;
}

/// The number spelled by the fraction digits stays below ten to their count.
proof fn lemma_digits_bound(s: Seq<u8>)
    requires
        all_digits(s),
    ensures
        digits_value(s) < pow10(s.len()),
    decreases s.len(),
{
    if s.len() > 0 {
        assert(all_digits(s.drop_last()));
        lemma_digits_bound(s.drop_last());
    }
}

/// Reads a decimal quantity such as `0.01234000` as a count of 10^-8 units.
///
/// Returns `None` where `s` is not `digits` or `digits.digits` with at most
/// eight fraction digits, or where the value exceeds `u64::MAX`.
pub fn parse_fixed(s: &[u8]) -> (r: Option<u64>)
    ensures
        forall|d: int| #[trigger] int_end(s@, d) ==> r == if numeral_at(s@, d) && numeral_value(s@, d)
            <= u64::MAX {
            Some(numeral_value(s@, d) as u64)
        } else {
            None::<u64>
        },
{
    let n = s.len();
    let mut d: usize = 0;
    while d < n && s[d] != DOT
        invariant
            d <= n,
            n == s@.len(),
            forall|i: int| 0 <= i < d ==> s@[i] != DOT,
        decreases n - d,
    {
        d = d + 1;
    }
    assert forall|e: int| #[trigger] int_end(s@, e) implies e == d by {
        if e < d {
            assert(s@[e] != DOT);
        }
        if e > d {
            assert(s@[d as int] != DOT);
        }
    }
    if d == 0 {
        return None;
    }
    let ghost whole = s@.subrange(0, d as int);
    let mut int_value: u64 = 0;
    let mut i: usize = 0;
    while i < d
        invariant
            i <= d <= n,
            n == s@.len(),
            whole == s@.subrange(0, d as int),
            int_end(s@, d as int),
            forall|e: int| #[trigger] int_end(s@, e) ==> e == d,
            all_digits(s@.subrange(0, i as int)),
            int_value == digits_value(s@.subrange(0, i as int)),
        decreases d - i,
    {
        let c = s[i];
        if c < 48 || c > 57 {
            assert(!is_digit(whole[i as int]));
            return None;
        }
        assert(s@.subrange(0, i + 1).drop_last() =~= s@.subrange(0, i as int));
        let step = match int_value.checked_mul(10) {
            Some(m) => m.checked_add((c - 48) as u64),
            None => None,
        };
        match step {
            None => {
                proof {
                    if all_digits(whole) {
                        assert(whole.subrange(0, i + 1) =~= s@.subrange(0, i + 1));
                        lemma_scaled_prefix(whole, i + 1);
                    }
                }
                return None;
            },
            Some(v) => {
                int_value = v;
            },
        }
        i = i + 1;
    }
    assert(s@.subrange(0, d as int) =~= whole);
    let start: usize = if d < n { d + 1 } else { n };
    let ghost frac = fraction(s@, d as int);
    assert(frac =~= s@.subrange(start as int, n as int));
    if n - start > SCALE {
        return None;
    }
    proof {
        reveal_with_fuel(pow10, 9);
    }
    let mut frac_value: u64 = 0;
    let mut j: usize = start;
    while j < n
        invariant
            start <= j <= n,
            n == s@.len(),
            n - start <= SCALE,
            frac == s@.subrange(start as int, n as int),
            frac == fraction(s@, d as int),
            whole == s@.subrange(0, d as int),
            all_digits(whole),
            int_value == digits_value(whole),
            d > 0,
            int_end(s@, d as int),
            forall|e: int| #[trigger] int_end(s@, e) ==> e == d,
            all_digits(s@.subrange(start as int, j as int)),
            frac_value == digits_value(s@.subrange(start as int, j as int)),
            pow10(SCALE as nat) == 100000000,
        decreases n - j,
    {
        let c = s[j];
        if c < 48 || c > 57 {
            assert(!is_digit(frac[j - start]));
            return None;
        }
        assert(s@.subrange(start as int, j + 1).drop_last() =~= s@.subrange(start as int, j as int));
        proof {
            assert(all_digits(s@.subrange(start as int, j + 1)));
            lemma_digits_bound(s@.subrange(start as int, j + 1));
            lemma_pow10_mono((j + 1 - start) as nat, SCALE as nat);
        }
        frac_value = frac_value * 10 + (c - 48) as u64;
        j = j + 1;
    }
    let flen: usize = n - start;
    assert(s@.subrange(start as int, n as int) == frac);
    assert(frac_value == digits_value(frac));
    proof {
        lemma_digits_bound(frac);
        assert(pow10(0) == 1);
    }
    let mut scaled_frac: u64 = frac_value;
    let mut k: usize = flen;
    assert(scaled_frac == digits_value(frac) * pow10((k - flen) as nat)) by {
        assert((k - flen) as nat == 0);
        let a = digits_value(frac);
        assert(a == a * pow10(0)) by (nonlinear_arith)
            requires
                pow10(0) == 1,
        ;
    }
    while k < SCALE
        invariant
            flen <= k <= SCALE,
            flen == frac.len(),
            frac == fraction(s@, d as int),
            whole == s@.subrange(0, d as int),
            all_digits(whole),
            all_digits(frac),
            int_value == digits_value(whole),
            d > 0,
            int_end(s@, d as int),
            forall|e: int| #[trigger] int_end(s@, e) ==> e == d,
            scaled_frac == digits_value(frac) * pow10((k - flen) as nat),
            scaled_frac < pow10(k as nat),
            pow10(SCALE as nat) == 100000000,
        decreases SCALE - k,
    {
        proof {
            lemma_pow10_mono((k + 1) as nat, SCALE as nat);
            let a = digits_value(frac);
            let b = pow10((k - flen) as nat);
            assert(a * (10 * b) == (a * b) * 10) by (nonlinear_arith);
        }
        scaled_frac = scaled_frac * 10;
        k = k + 1;
    }
    assert((SCALE - flen) as nat == (k - flen) as nat);
    match int_value.checked_mul(100000000) {
        None => None,
        Some(scaled_int) => match scaled_int.checked_add(scaled_frac) {
            None => None,
            Some(v) => Some(v),
        },
    }
}

/// Powers of ten grow with the exponent.
proof fn lemma_pow10_mono(a: nat, b: nat)
    requires
        a <= b,
    ensures
        pow10(a) <= pow10(b),
    decreases b,
{
    if a < b {
        lemma_pow10_mono(a, (b - 1) as nat);
        lemma_pow10_positive((b - 1) as nat);
    }
}

} // verus!
