//! Decimal numerals: reading a count from text, and writing one.
use vstd::prelude::*;

verus! {

/// The value of a decimal digit character.
pub open spec fn digit_value(c: char) -> nat {
    (c as nat - '0' as nat) as nat
}

/// A character `'0'` to `'9'`.
pub open spec fn is_digit(c: char) -> bool {
    '0' <= c && c <= '9'
}

/// One or more decimal digits and nothing else.
pub open spec fn all_digits(s: Seq<char>) -> bool {
    s.len() > 0 && forall|j: int| 0 <= j < s.len() ==> is_digit(#[trigger] s[j])
}

/// The value of a string of decimal digits.
pub open spec fn digits_value(s: Seq<char>) -> nat
    decreases s.len(),
{
    if s.len() == 0 {
        0
    } else {
        digits_value(s.drop_last()) * 10 + digit_value(s.last())
    }
}

/// The digits of a numeral: what follows an optional leading `+`.
pub open spec fn numeral_digits(s: Seq<char>) -> Seq<char> {
    if s.len() > 0 && s[0] == '+' {
        s.skip(1)
    } else {
        s
    }
}

/// The count a numeral stands for: an optional `+` followed by one or more
/// decimal digits whose value fits in a `usize`; `None` for anything else.
pub open spec fn numeral_value(s: Seq<char>) -> Option<nat> {
    let d = numeral_digits(s);
    if all_digits(d) && digits_value(d) <= usize::MAX {
        Some(digits_value(d))
    } else {
        None
    }
}

/// The decimal digits of `n`, without leading zeros (`"0"` for zero).
pub open spec fn decimal(n: nat) -> Seq<char>
    decreases n,
{
    if n < 10 {
        seq![('0' as u8 + n as u8) as char]
    } else {
        decimal(n / 10) + seq![('0' as u8 + (n % 10) as u8) as char]
    }
}

/// A longer run of digits never has a smaller value than its beginning.
pub proof fn lemma_digits_value_grows(s: Seq<char>, k: int)
    requires
        0 <= k <= s.len(),
    ensures
        digits_value(s.take(k)) <= digits_value(s),
    decreases s.len() - k,
{
    if k < s.len() {
        lemma_digits_value_grows(s, k + 1);
        assert(s.take(k + 1).drop_last() =~= s.take(k));
    } else {
        assert(s.take(k) =~= s);
    }
}

/// Reads a count from a numeral, as `numeral_value` describes it.
pub fn parse_numeral(s: &Vec<char>) -> (r: Option<usize>)
    ensures
        r matches Some(x) ==> numeral_value(s@) == Some(x as nat),
        r is None ==> numeral_value(s@) is None,
{
    let ghost d = numeral_digits(s@);
    let start: usize = if s.len() > 0 && s[0] == '+' {
        1
    } else {
        0
    };
    assert(d =~= s@.skip(start as int));
    if start >= s.len() {
        return None;
    }
    let mut v: usize = 0;
    let mut k: usize = start;
    while k < s.len()
        invariant
            start <= k <= s@.len(),
            d =~= s@.skip(start as int),
            d == numeral_digits(s@),
            forall|j: int| 0 <= j < k - start ==> is_digit(#[trigger] d[j]),
            v as nat == digits_value(d.take(k - start)),
        decreases s.len() - k,
    {
        let c = s[k];
        assert(d[k - start] == c);
        if !('0' <= c && c <= '9') {
            assert(!is_digit(d[k - start]));
            return None;
        }
        let dv = (c as u32 - '0' as u32) as usize;
        assert(dv as nat == digit_value(c));
        assert(d.take(k + 1 - start).last() == c);
        assert(d.take(k + 1 - start).drop_last() =~= d.take(k - start));
        if v > (usize::MAX - dv) / 10 {
            proof {
                assert(v * 10 + dv > usize::MAX) by (nonlinear_arith)
                    requires
                        v > (usize::MAX - dv) / 10,
                        dv <= 9,
                ;
                lemma_digits_value_grows(d, k + 1 - start);
                assert(digits_value(d.take(k + 1 - start)) == v * 10 + dv);
            }
            return None;
        }
        v = v * 10 + dv;
        k += 1;
    }
    assert(d.take(k - start) =~= d);
    Some(v)
}

/// The decimal digits of `n`.
pub fn decimal_of(n: usize) -> (r: Vec<char>)
    ensures
        r@ == decimal(n as nat),
    decreases n,
{
    if n < 10 {
        let c = ('0' as u8 + n as u8) as char;
        let mut r: Vec<char> = Vec::new();
        r.push(c);
        assert(r@ =~= seq![c]);
        r
    } else {
        let mut r = decimal_of(n / 10);
        let c = ('0' as u8 + (n % 10) as u8) as char;
        r.push(c);
        r
    }
}

} // verus!
