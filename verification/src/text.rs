//! Small ASCII text helpers: decimal formatting and parsing, and the one
//! trusted conversion from ASCII bytes to `String`.

use vstd::prelude::*;

verus! {

/// The decimal digits of `n`, most significant first, as ASCII bytes.
pub open spec fn spec_dec_digits(n: nat) -> Seq<u8>
    decreases n,
{
    if n < 10 {
        seq![(48 + n) as u8]
    } else {
        spec_dec_digits(n / 10).push((48 + n % 10) as u8)
    }
}

/// Every decimal digit byte is ASCII.
pub proof fn lemma_dec_digits_ascii(n: nat)
    ensures
        forall|i: int| 0 <= i < spec_dec_digits(n).len() ==> spec_dec_digits(n)[i] < 128,
    decreases n,
{
    if n < 10 {
        assert(spec_dec_digits(n).len() == 1);
    } else {
        lemma_dec_digits_ascii(n / 10);
        let rec = spec_dec_digits(n / 10);
        let w = spec_dec_digits(n);
        assert(w == rec.push((48 + n % 10) as u8));
        assert forall|i: int| 0 <= i < w.len() implies w[i] < 128 by {
            if i < rec.len() {
                assert(w[i] == rec[i]);
            } else {
                assert(w[i] == (48 + n % 10) as u8);
            }
        }
    }
}

/// Formats `n` in decimal.
pub fn u64_to_dec(n: u64) -> (r: Vec<u8>)
    ensures
        r@ == spec_dec_digits(n as nat),
        r@.len() >= 1,
    decreases n,
{
    if n < 10 {
        let mut v: Vec<u8> = Vec::new();
        v.push((48 + n) as u8);
        v
    } else {
        let mut v = u64_to_dec(n / 10);
        v.push(48 + (n % 10) as u8);
        v
    }
}

/// True of an ASCII decimal digit.
pub open spec fn is_digit(c: char) -> bool {
    '0' <= c && c <= '9'
}

/// The numeric value of a digit string (most significant first).
pub open spec fn spec_dec_value(s: Seq<char>) -> int
    decreases s.len(),
{
    if s.len() == 0 {
        0
    } else {
        spec_dec_value(s.drop_last()) * 10 + (s.last() as int - 48)
    }
}

/// Extending a digit string never shrinks its value.
pub proof fn lemma_dec_value_prefix_le(s: Seq<char>, i: int)
    requires
        0 <= i <= s.len(),
        spec_dec_value(s.take(i)) >= 0,
        forall|j: int| i <= j < s.len() ==> is_digit(s[j]),
    ensures
        spec_dec_value(s.take(i)) <= spec_dec_value(s),
    decreases s.len() - i,
{
    if i < s.len() {
        assert(s.take(i + 1).drop_last() =~= s.take(i));
        assert(s.take(i + 1).last() == s[i]);
        assert(is_digit(s[i]));
        let v = spec_dec_value(s.take(i));
        assert(v <= v * 10 + (s[i] as int - 48)) by (nonlinear_arith)
            requires
                v >= 0,
                s[i] as int >= 48,
        ;
        lemma_dec_value_prefix_le(s, i + 1);
    } else {
        assert(s.take(i) =~= s);
    }
}

/// The value of a digit string is never negative.
pub proof fn lemma_dec_value_nonneg(s: Seq<char>)
    requires
        forall|j: int| 0 <= j < s.len() ==> is_digit(s[j]),
    ensures
        spec_dec_value(s) >= 0,
    decreases s.len(),
{
    if s.len() > 0 {
        assert(forall|j: int| 0 <= j < s.drop_last().len() ==> is_digit(s.drop_last()[j]));
        lemma_dec_value_nonneg(s.drop_last());
        let v = spec_dec_value(s.drop_last());
        assert(is_digit(s.last()));
        assert(v * 10 >= 0) by (nonlinear_arith)
            requires
                v >= 0,
        ;
    }
}

/// Parses a nonempty all-digit token whose value is at most `max`; returns
/// `None` on anything else.
pub fn parse_dec(s: &Vec<char>, max: u64) -> (r: Option<u64>)
    ensures
        r is Some <==> (s@.len() > 0 && (forall|j: int| 0 <= j < s@.len() ==> is_digit(s@[j]))
            && spec_dec_value(s@) <= max),
        r is Some ==> r == Some(spec_dec_value(s@) as u64) && spec_dec_value(s@) >= 0,
{
    let n = s.len();
    if n == 0 {
        return None;
    }
    let mut acc: u64 = 0;
    let mut i: usize = 0;
    while i < n
        invariant
            0 < n == s@.len(),
            0 <= i <= n,
            forall|j: int| 0 <= j < i ==> is_digit(s@[j]),
            acc == spec_dec_value(s@.take(i as int)),
            acc <= max,
        decreases n - i,
    {
        let c = s[i];
        if !('0' <= c && c <= '9') {
            return None;
        }
        let d = c as u64 - 48;
        proof {
            assert(s@.take(i + 1).drop_last() =~= s@.take(i as int));
            assert(s@.take(i + 1).last() == s@[i as int]);
        }
        if d > max || acc > (max - d) / 10 {
            proof {
                let v = spec_dec_value(s@.take(i + 1));
                assert(v > max) by (nonlinear_arith)
                    requires
                        v == acc * 10 + d,
                        d <= 9,
                        (d > max || acc > (max - d) / 10),
                        acc >= 0,
                        max >= 0,
                        d >= 0,
                ;
                if forall|j: int| 0 <= j < s@.len() ==> is_digit(s@[j]) {
                    lemma_dec_value_prefix_le(s@, i + 1);
                }
            }
            return None;
        }
        acc = acc * 10 + d;
        i = i + 1;
    }
    proof {
        assert(s@.take(n as int) =~= s@);
    }
    Some(acc)
}

/// Relies on String::from_utf8: a vector of ASCII bytes decodes to exactly
/// those characters.
#[verifier::external_body]
pub fn ascii_to_string(bytes: &Vec<u8>) -> (r: String)
    requires
        forall|i: int| 0 <= i < bytes@.len() ==> bytes@[i] < 128,
    ensures
        r@ == bytes@.map_values(|b: u8| b as char),
{
    match String::from_utf8(bytes.clone()) {
        Ok(s) => s,
        Err(_) => String::new(),
    }
}

} // verus!
