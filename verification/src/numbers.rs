//! Decimal integers: the grammar that `str::parse` accepts for signed
//! integers, and the digits that `Display` prints for them.
use vstd::prelude::*;

verus! {

pub open spec fn is_digit(c: char) -> bool {
    '0' <= c && c <= '9'
}

pub open spec fn digit_value(c: char) -> int {
    (c as int) - ('0' as int)
}

pub open spec fn all_digits(d: Seq<char>) -> bool {
    forall|i: int| 0 <= i < d.len() ==> is_digit(#[trigger] d[i])
}

/// The number that a run of decimal digits denotes.
pub open spec fn digits_value(d: Seq<char>) -> int
    decreases d.len(),
{
    if d.len() == 0 {
        0
    } else {
        digits_value(d.drop_last()) * 10 + digit_value(d.last())
    }
}

/// A signed decimal literal as `str::parse` reads it: an optional `+` or
/// `-`, then at least one digit and nothing else.
pub open spec fn integer_literal(s: Seq<char>) -> Option<int> {
    if s.len() > 0 && (s[0] == '-' || s[0] == '+') {
        let d = s.drop_first();
        if d.len() > 0 && all_digits(d) {
            Some(
                if s[0] == '-' {
                    -digits_value(d)
                } else {
                    digits_value(d)
                },
            )
        } else {
            None
        }
    } else if s.len() > 0 && all_digits(s) {
        Some(digits_value(s))
    } else {
        None
    }
}

/// What `s.parse::<i64>()` gives back, as an option.
pub open spec fn parse_i64_spec(s: Seq<char>) -> Option<i64> {
    match integer_literal(s) {
        Some(v) => if i64::MIN <= v && v <= i64::MAX {
            Some(v as i64)
        } else {
            None
        },
        None => None,
    }
}

/// What `s.parse::<i32>()` gives back, as an option.
pub open spec fn parse_i32_spec(s: Seq<char>) -> Option<i32> {
    match integer_literal(s) {
        Some(v) => if i32::MIN <= v && v <= i32::MAX {
            Some(v as i32)
        } else {
            None
        },
        None => None,
    }
}

pub proof fn lemma_digits_value_nonneg(d: Seq<char>)
    requires
        all_digits(d),
    ensures
        digits_value(d) >= 0,
    decreases d.len(),
{
    if d.len() > 0 {
        lemma_digits_value_nonneg(d.drop_last());
    }
}

/// A longer run of digits never denotes less than its prefix.
pub proof fn lemma_digits_value_prefix(d: Seq<char>, j: int)
    requires
        all_digits(d),
        0 <= j <= d.len(),
    ensures
        digits_value(d.take(j)) <= digits_value(d),
    decreases d.len(),
{
    if j < d.len() {
        lemma_digits_value_nonneg(d.drop_last());
        assert(d.drop_last().take(j) =~= d.take(j));
        lemma_digits_value_prefix(d.drop_last(), j);
    } else {
        assert(d.take(j) =~= d);
    }
}

const MAGNITUDE_LIMIT: u64 = 9223372036854775808u64;

/// `str::parse::<i64>` on a sequence of characters.
pub fn parse_i64(s: &[char]) -> (r: Option<i64>)
    ensures
        r == parse_i64_spec(s@),
{
    let n = s.len();
    if n == 0 {
        return None;
    }
    let neg = s[0] == '-';
    let start: usize = if s[0] == '-' || s[0] == '+' {
        1
    } else {
        0
    };
    let ghost d = s@.subrange(start as int, n as int);
    if start == n {
        return None;
    }
    assert(start == 1 ==> d =~= s@.drop_first());
    assert(start == 0 ==> d =~= s@);
    assert(neg ==> start == 1);
    let ghost lit = if d.len() > 0 && all_digits(d) {
        Some(
            if neg {
                -digits_value(d)
            } else {
                digits_value(d)
            },
        )
    } else {
        None::<int>
    };
    assert(integer_literal(s@) == lit);
    let mut acc: u64 = 0;
    let mut i: usize = start;
    while i < n
        invariant
            start <= i <= n,
            n == s@.len(),
            d == s@.subrange(start as int, n as int),
            all_digits(d.take(i - start)),
            acc as int == digits_value(d.take(i - start)),
            acc <= MAGNITUDE_LIMIT,
            integer_literal(s@) == lit,
            lit == (if d.len() > 0 && all_digits(d) {
                Some(
                    if neg {
                        -digits_value(d)
                    } else {
                        digits_value(d)
                    },
                )
            } else {
                None::<int>
            }),
        decreases n - i,
    {
        let c = s[i];
        if !(c >= '0' && c <= '9') {
            assert(d[i - start] == c);
            return None;
        }
        let dv: u64 = ((c as u32) - ('0' as u32)) as u64;
        assert(d.take(i - start + 1).drop_last() =~= d.take(i - start));
        assert(d.take(i - start + 1).last() == c);
        if acc > (MAGNITUDE_LIMIT - dv) / 10 {
            proof {
                let q = (MAGNITUDE_LIMIT - dv) / 10;
                assert(acc * 10 + dv > MAGNITUDE_LIMIT) by (nonlinear_arith)
                    requires
                        acc > q,
                        q == (MAGNITUDE_LIMIT - dv) / 10,
                        dv <= 9,
                ;
                if all_digits(d) {
                    lemma_digits_value_prefix(d, i - start + 1);
                }
            }
            return None;
        }
        proof {
            let q = (MAGNITUDE_LIMIT - dv) / 10;
            assert(acc * 10 + dv <= MAGNITUDE_LIMIT) by (nonlinear_arith)
                requires
                    acc <= q,
                    q == (MAGNITUDE_LIMIT - dv) / 10,
                    dv <= 9,
            ;
        }
        acc = acc * 10 + dv;
        i = i + 1;
        assert forall|k: int| 0 <= k < d.take(i - start).len() implies is_digit(
            #[trigger] d.take(i - start)[k],
        ) by {
            if k < i - start - 1 {
                assert(d.take(i - start)[k] == d.take(i - start - 1)[k]);
            }
        }
    }
    assert(d.take(n - start) =~= d);
    if neg {
        if acc == MAGNITUDE_LIMIT {
            Some(i64::MIN)
        } else {
            Some(-(acc as i64))
        }
    } else if acc > 9223372036854775807u64 {
        None
    } else {
        Some(acc as i64)
    }
}

/// `str::parse::<i32>` on a sequence of characters.
pub fn parse_i32(s: &[char]) -> (r: Option<i32>)
    ensures
        r == parse_i32_spec(s@),
{
    match parse_i64(s) {
        Some(v) => if v >= -2147483648 && v <= 2147483647 {
            Some(v as i32)
        } else {
            None
        },
        None => {
            proof {
                if let Some(v) = integer_literal(s@) {
                    assert(!(i64::MIN <= v && v <= i64::MAX));
                }
            }
            None
        },
    }
}

pub open spec fn digit_char(d: int) -> char {
    ((d + 48) as u8) as char
}

/// The decimal digits of a natural number, most significant first.
pub open spec fn nat_decimal(n: nat) -> Seq<char>
    decreases n,
{
    if n < 10 {
        seq![digit_char(n as int)]
    } else {
        nat_decimal(n / 10).push(digit_char((n % 10) as int))
    }
}

/// How `Display` writes a signed integer.
pub open spec fn int_decimal(v: int) -> Seq<char> {
    if v < 0 {
        seq!['-'] + nat_decimal((-v) as nat)
    } else {
        nat_decimal(v as nat)
    }
}

fn push_nat_decimal(n: u64, out: &mut Vec<char>)
    ensures
        final(out)@ == old(out)@ + nat_decimal(n as nat),
    decreases n,
{
    if n >= 10 {
        push_nat_decimal(n / 10, out);
    }
    let d: u8 = (n % 10) as u8;
    out.push((d + 48) as char);
    assert(final(out)@ =~= old(out)@ + nat_decimal(n as nat)) by {
        if n >= 10 {
            assert(old(out)@ + nat_decimal(n as nat) =~= old(out)@ + nat_decimal((n / 10) as nat)
                + seq![digit_char((n % 10) as int)]);
        }
    }
}

/// The characters that `Display` prints for `v`.
pub fn i64_decimal(v: i64) -> (r: Vec<char>)
    ensures
        r@ == int_decimal(v as int),
{
    let mut out: Vec<char> = Vec::new();
    if v < 0 {
        out.push('-');
        let m: u64 = if v == i64::MIN {
            MAGNITUDE_LIMIT
        } else {
            (-v) as u64
        };
        push_nat_decimal(m, &mut out);
    } else {
        push_nat_decimal(v as u64, &mut out);
    }
    assert(out@ =~= int_decimal(v as int));
    out
}

proof fn lemma_digit_char(d: int)
    requires
        0 <= d <= 9,
    ensures
        is_digit(digit_char(d)),
        digit_value(digit_char(d)) == d,
{
    let c = digit_char(d);
    assert((d + 48) as u8 as int == d + 48);
    assert(c as int == d + 48);
}

/// The digits of `n` are digits, there is at least one, and they denote `n`.
pub proof fn lemma_nat_decimal(n: nat)
    ensures
        nat_decimal(n).len() > 0,
        all_digits(nat_decimal(n)),
        digits_value(nat_decimal(n)) == n,
    decreases n,
{
    if n < 10 {
        lemma_digit_char(n as int);
        assert(seq![digit_char(n as int)].drop_last() =~= Seq::<char>::empty());
        assert(digits_value(seq![digit_char(n as int)]) == digits_value(Seq::<char>::empty()) * 10
            + digit_value(digit_char(n as int)));
    } else {
        lemma_nat_decimal(n / 10);
        lemma_digit_char((n % 10) as int);
        let d = nat_decimal(n / 10);
        let c = digit_char((n % 10) as int);
        assert(d.push(c).drop_last() =~= d);
        assert forall|i: int| 0 <= i < d.push(c).len() implies is_digit(#[trigger] d.push(c)[i]) by {
            if i < d.len() {
                assert(d.push(c)[i] == d[i]);
            }
        }
        assert(digits_value(d.push(c)) == digits_value(d) * 10 + digit_value(c));
        assert(n as int == (n as int / 10) * 10 + n as int % 10) by (nonlinear_arith);
    }
}

/// The text that `Display` writes for an `i64` parses back to it.
pub proof fn law_decimal_round_trip(v: i64)
    ensures
        parse_i64_spec(int_decimal(v as int)) == Some(v),
{
    if v < 0 {
        let m = (-(v as int)) as nat;
        lemma_nat_decimal(m);
        let s = seq!['-'] + nat_decimal(m);
        assert(s.drop_first() =~= nat_decimal(m));
        assert(s[0] == '-');
    } else {
        lemma_nat_decimal(v as nat);
        let s = nat_decimal(v as nat);
        assert(is_digit(s[0]));
    }
}

/// The text that `Display` writes for an `i32` parses back to it.
pub proof fn law_decimal_round_trip_i32(v: i32)
    ensures
        parse_i32_spec(int_decimal(v as int)) == Some(v),
{
    law_decimal_round_trip(v as i64);
}

} // verus!
