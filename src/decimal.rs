//! Decimal text of counters, as the store holds them.

use vstd::prelude::*;

verus! {

/// The character of a decimal digit `d < 10`.
pub open spec fn digit_char(d: nat) -> char {
    ((d + '0' as nat) as u8) as char
}

/// Whether `c` is one of `0`..`9`.
pub open spec fn is_digit(c: char) -> bool {
    '0' <= c && c <= '9'
}

/// The decimal text of `n`, without leading zeros.
pub open spec fn decimal_of(n: nat) -> Seq<char>
    decreases n,
{
    if n < 10 {
        seq![digit_char(n)]
    } else {
        decimal_of(n / 10).push(digit_char(n % 10))
    }
}

/// The value of a string of decimal digits.
pub open spec fn digits_value(s: Seq<char>) -> nat
    decreases s.len(),
{
    if s.len() == 0 {
        0
    } else {
        digits_value(s.drop_last()) * 10 + (s.last() as nat - '0' as nat) as nat
    }
}

/// The count a text stands for: one or more decimal digits whose value fits
/// in a `u64`; anything else stands for none.
pub open spec fn count_of(s: Seq<char>) -> Option<u64> {
    if s.len() > 0 && (forall|i: int| 0 <= i < s.len() ==> is_digit(#[trigger] s[i]))
        && digits_value(s) <= u64::MAX {
        Some(digits_value(s) as u64)
    } else {
        None
    }
}

proof fn lemma_decimal_digits(n: nat)
    ensures
        decimal_of(n).len() > 0,
        forall|i: int| 0 <= i < decimal_of(n).len() ==> is_digit(#[trigger] decimal_of(n)[i]),
        digits_value(decimal_of(n)) == n,
    decreases n,
{
    if n < 10 {
        lemma_digit_char(n);
        assert(decimal_of(n).drop_last() =~= Seq::<char>::empty());
        assert(digits_value(decimal_of(n)) == digits_value(Seq::<char>::empty()) * 10 + n);
    } else {
        lemma_decimal_digits(n / 10);
        let s = decimal_of(n);
        lemma_digit_char(n % 10);
        assert(s.drop_last() =~= decimal_of(n / 10));
        assert(s.last() == digit_char(n % 10));
        assert(n == (n / 10) * 10 + n % 10) by (nonlinear_arith);
        assert(digits_value(s) == digits_value(decimal_of(n / 10)) * 10 + n % 10);
        assert forall|i: int| 0 <= i < s.len() implies is_digit(#[trigger] s[i]) by {
            if i < s.len() - 1 {
                assert(s[i] == decimal_of(n / 10)[i]);
            }
        }
    }
}

proof fn lemma_digit_char(d: nat)
    requires
        d < 10,
    ensures
        digit_char(d) as nat == d + '0' as nat,
        is_digit(digit_char(d)),
{
    assert(((d + 48) as u8) as char as nat == d + 48);
}

/// Round trip law: the decimal text of any `u64` reads back as that count.
pub proof fn lemma_count_round_trip(n: u64)
    ensures
        count_of(decimal_of(n as nat)) == Some(n),
{
    lemma_decimal_digits(n as nat);
}

/// Relies on the `Display` impl of `u64` (through `ToString::to_string`):
/// an integer is written in decimal, without sign or leading zeros.
#[verifier::external_body]
pub(crate) fn decimal_text(n: u64) -> (r: String)
    ensures
        r@ == decimal_of(n as nat),
{
    n.to_string()
}

/// Reads a count written in decimal; `None` for empty text, a character
/// that is not a digit, or a value beyond `u64`.
pub fn parse_count(s: &str) -> (r: Option<u64>)
    ensures
        r == count_of(s@),
{
    let n: usize = s.unicode_len();
    if n == 0 {
        return None;
    }
    let mut acc: u64 = 0;
    let mut i: usize = 0;
    while i < n
        invariant
            n == s@.len(),
            i <= n,
            forall|k: int| 0 <= k < i ==> is_digit(#[trigger] s@[k]),
            acc == digits_value(s@.take(i as int)),
        decreases n - i,
    {
        let c = s.get_char(i);
        assert(s@.take(i as int + 1).drop_last() =~= s@.take(i as int));
        if !('0' <= c && c <= '9') {
            return None;
        }
        let d: u64 = (c as u32 - '0' as u32) as u64;
        if acc > (u64::MAX - d) / 10 {
            proof {
                lemma_prefix_bound(s@, i as int + 1, n as int);
            }
            return None;
        }
        acc = acc * 10 + d;
        i = i + 1;
    }
    assert(s@.take(n as int) =~= s@);
    Some(acc)
}

/// A digit string is worth at least as much as any of its prefixes.
proof fn lemma_prefix_bound(s: Seq<char>, k: int, n: int)
    requires
        0 <= k <= n == s.len(),
    ensures
        (forall|i: int| 0 <= i < n ==> is_digit(#[trigger] s[i])) ==> digits_value(s.take(k))
            <= digits_value(s),
    decreases n - k,
{
    if k < n {
        lemma_prefix_bound(s, k + 1, n);
        assert(s.take(k + 1).drop_last() =~= s.take(k));
    }
    assert(s.take(n) =~= s);
}

} // verus!
