//! The fixed-point amount codec: textual decimal amounts with at most four
//! fractional digits are held as integers scaled by 10^4, so that no
//! arithmetic on money ever rounds.
use crate::digits::{
    all_digits, dec_digits, digits_value, int_digits, is_digit, lemma_dec_digits_all_digits,
    lemma_dec_digits_value, lemma_digits_value_leading_zero, parse_digits, render_int, ASCII_ZERO,
};
use vstd::prelude::*;

verus! {

/// The byte value of the ASCII character '.'.
pub const ASCII_DOT: u8 = 46;

/// Decoding failure: the text is not a well-formed decimal amount.
#[derive(Clone, Copy, PartialEq, Eq, Structural, Debug)]
pub enum AmountError {
    InvalidAmount,
}

/// A run of ASCII zeros.
pub open spec fn zeros(n: nat) -> Seq<u8> {
    Seq::new(n, |i: int| ASCII_ZERO)
}

/// The fractional digits right-padded with zeros to exactly four places;
/// longer runs are kept as they are.
pub open spec fn pad_frac(s: Seq<u8>) -> Seq<u8> {
    if s.len() >= 4 {
        s
    } else {
        s + zeros((4 - s.len()) as nat)
    }
}

/// The digit string that decoding reads: everything before the first
/// decimal point, then everything after the last one, padded to four
/// fractional places.
pub open spec fn decode_digits(s: Seq<u8>) -> Seq<u8>
    recommends
        s.contains(ASCII_DOT),
{
    let f = s.index_of_first(ASCII_DOT).unwrap();
    let l = s.index_of_last(ASCII_DOT).unwrap();
    s.subrange(0, f) + pad_frac(s.subrange(l + 1, s.len() as int))
}

/// What decoding a textual amount yields: the scaled integer, or nothing
/// when the text has no decimal point, when a non-digit remains, or when
/// the value does not fit in a `u64`.
pub open spec fn decode_spec(s: Seq<u8>) -> Option<u64> {
    if !s.contains(ASCII_DOT) {
        None
    } else {
        let digits = decode_digits(s);
        if digits.len() > 0 && all_digits(digits) && digits_value(digits) <= u64::MAX {
            Some(digits_value(digits) as u64)
        } else {
            None
        }
    }
}

/// Decode a textual decimal amount into its scaled integer form.
pub fn decode(s: &Vec<u8>) -> (r: Result<u64, AmountError>)
    ensures
        match r {
            Ok(v) => decode_spec(s@) == Some(v),
            Err(e) => decode_spec(s@) is None && e == AmountError::InvalidAmount,
        },
{
    let mut first: usize = 0;
    let mut last: usize = 0;
    let mut found = false;
    let mut i: usize = 0;
    while i < s.len()
        invariant
            0 <= i <= s@.len(),
            found ==> first < i && s@[first as int] == ASCII_DOT && (forall|j: int|
                0 <= j < first ==> s@[j] != ASCII_DOT),
            found ==> last < i && s@[last as int] == ASCII_DOT && (forall|j: int|
                last < j < i ==> s@[j] != ASCII_DOT),
            !found ==> forall|j: int| 0 <= j < i ==> s@[j] != ASCII_DOT,
        decreases s@.len() - i,
    {
        if s[i] == ASCII_DOT {
            if !found {
                first = i;
                found = true;
            }
            last = i;
        }
        i = i + 1;
    }
    if !found {
        assert(!s@.contains(ASCII_DOT));
        return Err(AmountError::InvalidAmount);
    }
    proof {
        assert(s@.contains(ASCII_DOT)) by {
            assert(s@[first as int] == ASCII_DOT);
        }
        s@.index_of_first_ensures(ASCII_DOT);
        s@.index_of_last_ensures(ASCII_DOT);
        let f = s@.index_of_first(ASCII_DOT).unwrap();
        assert(f == first) by {
            if f < first {
                assert(s@[f] != ASCII_DOT);
            }
            if f > first {
                assert(s@[first as int] != ASCII_DOT);
            }
        }
        let l = s@.index_of_last(ASCII_DOT).unwrap();
        assert(l == last) by {
            if l > last {
                assert(s@[l] != ASCII_DOT);
            }
            if l < last {
                assert(s@[last as int] != ASCII_DOT);
            }
        }
    }
    let mut digits: Vec<u8> = Vec::new();
    let mut j: usize = 0;
    proof {
        assert(digits@ =~= s@.subrange(0, 0));
    }
    while j < first
        invariant
            0 <= j <= first,
            first < s@.len(),
            digits@ == s@.subrange(0, j as int),
        decreases first - j,
    {
        digits.push(s[j]);
        proof {
            assert(digits@ =~= s@.subrange(0, j + 1));
        }
        j = j + 1;
    }
    let ghost left = s@.subrange(0, first as int);
    let frac_len = s.len() - last - 1;
    let mut k: usize = last + 1;
    while k < s.len()
        invariant
            last < k <= s@.len(),
            digits@ == left + s@.subrange(last + 1, k as int),
        decreases s@.len() - k,
    {
        digits.push(s[k]);
        proof {
            assert(digits@ =~= left + s@.subrange(last + 1, k + 1));
        }
        k = k + 1;
    }
    let ghost right = s@.subrange(last + 1, s@.len() as int);
    let mut p: usize = frac_len;
    proof {
        assert(digits@ =~= left + (right + zeros(0)));
    }
    while p < 4
        invariant
            frac_len <= p,
            frac_len < 4 ==> p <= 4,
            frac_len >= 4 ==> p == frac_len,
            digits@ == left + (right + zeros((p - frac_len) as nat)),
        decreases 4 - p,
    {
        digits.push(ASCII_ZERO);
        proof {
            assert(digits@ =~= left + (right + zeros((p + 1 - frac_len) as nat)));
        }
        p = p + 1;
    }
    proof {
        if frac_len >= 4 {
            assert(right + zeros(0) =~= right);
            assert(digits@ =~= left + pad_frac(right));
        } else {
            assert(digits@ =~= left + pad_frac(right));
        }
        assert(digits@ == decode_digits(s@));
    }
    match parse_digits(&digits) {
        Some(v) => Ok(v),
        None => Err(AmountError::InvalidAmount),
    }
}

/// The decimal digits of `n`, zero-padded on the left to at least five, so
/// that the split four places from the right always leaves an integer part.
pub open spec fn padded_digits(n: int) -> Seq<u8> {
    let d = dec_digits(n);
    if d.len() >= 5 {
        d
    } else {
        zeros((5 - d.len()) as nat) + d
    }
}

/// The textual form of a fixed-point amount: zero renders as "0.0"; any
/// other value's padded digit string splits four digits from the right.
pub open spec fn encode_spec(x: u64) -> Seq<u8> {
    if x == 0 {
        seq![ASCII_ZERO, ASCII_DOT, ASCII_ZERO]
    } else {
        let d = padded_digits(x as int);
        d.subrange(0, d.len() - 4) + seq![ASCII_DOT] + d.subrange(d.len() - 4, d.len() as int)
    }
}

/// Prepending zeros never changes the value a digit string denotes.
pub proof fn lemma_zeros_prefix_value(n: nat, s: Seq<u8>)
    ensures
        digits_value(zeros(n) + s) == digits_value(s),
        all_digits(s) ==> all_digits(zeros(n) + s),
    decreases n,
{
    if n == 0 {
        assert(zeros(0) + s =~= s);
    } else {
        lemma_zeros_prefix_value((n - 1) as nat, s);
        assert(zeros(n) + s =~= seq![ASCII_ZERO] + (zeros((n - 1) as nat) + s));
        lemma_digits_value_leading_zero(zeros((n - 1) as nat) + s);
        assert(is_digit(ASCII_ZERO));
    }
}

/// The padded digit string is at least five digits long, consists of
/// digits, and still denotes `n`.
pub proof fn lemma_padded_digits(n: int)
    requires
        n > 0,
    ensures
        padded_digits(n).len() >= 5,
        all_digits(padded_digits(n)),
        digits_value(padded_digits(n)) == n,
{
    lemma_dec_digits_all_digits(n);
    lemma_dec_digits_value(n);
    let d = dec_digits(n);
    if d.len() < 5 {
        lemma_zeros_prefix_value((5 - d.len()) as nat, d);
    }
}

/// Encode a fixed-point amount as text.
pub fn encode(x: u64) -> (r: Vec<u8>)
    ensures
        r@ == encode_spec(x),
{
    if x == 0 {
        let r: Vec<u8> = vec![ASCII_ZERO, ASCII_DOT, ASCII_ZERO];
        proof {
            assert(r@ =~= encode_spec(0));
        }
        return r;
    }
    let mut v = render_int(x);
    proof {
        assert(int_digits(x as int) == dec_digits(x as int));
        lemma_padded_digits(x as int);
        assert(v@ =~= zeros(0) + dec_digits(x as int));
    }
    while v.len() < 5
        invariant
            x > 0,
            v@.len() >= dec_digits(x as int).len(),
            dec_digits(x as int).len() >= 5 ==> v@.len() == dec_digits(x as int).len(),
            dec_digits(x as int).len() < 5 ==> v@.len() <= 5,
            v@ == zeros((v@.len() - dec_digits(x as int).len()) as nat) + dec_digits(x as int),
        decreases 5 - v@.len(),
    {
        v.insert(0, ASCII_ZERO);
        proof {
            assert(v@ =~= zeros((v@.len() - dec_digits(x as int).len()) as nat) + dec_digits(
                x as int,
            ));
        }
    }
    proof {
        assert(v@ =~= padded_digits(x as int));
    }
    let ghost d = padded_digits(x as int);
    let split = v.len() - 4;
    v.insert(split, ASCII_DOT);
    proof {
        assert(v@ =~= d.subrange(0, d.len() - 4) + seq![ASCII_DOT] + d.subrange(
            d.len() - 4,
            d.len() as int,
        ));
    }
    v
}

/// Decoding is the inverse of encoding: every representable amount makes
/// the round trip exactly, the zero special case included.
pub proof fn lemma_codec_round_trip(x: u64)
    ensures
        decode_spec(encode_spec(x)) == Some(x),
{
    let s = encode_spec(x);
    if x == 0 {
        assert(s[1] == ASCII_DOT);
        assert(s.contains(ASCII_DOT)) by {
            assert(s[1] == ASCII_DOT);
        }
        s.index_of_first_ensures(ASCII_DOT);
        s.index_of_last_ensures(ASCII_DOT);
        let f = s.index_of_first(ASCII_DOT).unwrap();
        let l = s.index_of_last(ASCII_DOT).unwrap();
        assert(f == 1) by {
            assert(s[0] == ASCII_ZERO);
            if f == 0 {
                assert(s[0] == ASCII_DOT);
            }
        }
        assert(l == 1) by {
            assert(s[2] == ASCII_ZERO);
            if l == 2 {
                assert(s[2] == ASCII_DOT);
            }
        }
        let left = s.subrange(0, 1);
        let right = s.subrange(2, 3);
        assert(left =~= seq![ASCII_ZERO]);
        assert(right =~= seq![ASCII_ZERO]);
        let digits = decode_digits(s);
        assert(digits =~= zeros(5)) by {
            assert(pad_frac(right) =~= right + zeros(3));
        }
        lemma_zeros_prefix_value(5, Seq::<u8>::empty());
        assert(zeros(5) + Seq::<u8>::empty() =~= zeros(5));
        assert(digits_value(Seq::<u8>::empty()) == 0);
        assert(digits_value(digits) == 0);
        assert(all_digits(digits));
    } else {
        lemma_padded_digits(x as int);
        let d = padded_digits(x as int);
        let k = d.len() - 4;
        let left = d.subrange(0, k);
        let right = d.subrange(k, d.len() as int);
        assert(s == left + seq![ASCII_DOT] + right);
        assert(s.len() == d.len() + 1);
        assert(s[k] == ASCII_DOT);
        assert(forall|j: int| 0 <= j < k ==> s[j] == left[j] && is_digit(s[j]));
        assert(forall|j: int| k < j < s.len() ==> s[j] == right[j - k - 1] && is_digit(s[j]));
        assert(!is_digit(ASCII_DOT));
        assert(s.contains(ASCII_DOT)) by {
            assert(s[k] == ASCII_DOT);
        }
        s.index_of_first_ensures(ASCII_DOT);
        s.index_of_last_ensures(ASCII_DOT);
        let f = s.index_of_first(ASCII_DOT).unwrap();
        let l = s.index_of_last(ASCII_DOT).unwrap();
        assert(f == k) by {
            if f < k {
                assert(is_digit(s[f]));
            }
            if f > k {
                assert(s[k] != ASCII_DOT);
            }
        }
        assert(l == k) by {
            if l > k {
                assert(is_digit(s[l]));
            }
            if l < k {
                assert(s[k] != ASCII_DOT);
            }
        }
        let digits = decode_digits(s);
        assert(s.subrange(0, k) =~= left);
        assert(s.subrange(k + 1, s.len() as int) =~= right);
        assert(pad_frac(right) == right);
        assert(digits =~= d);
        assert(digits_value(digits) == x);
        assert(all_digits(digits));
        assert(digits.len() > 0);
    }
}

} // verus!
