//! Decimal digit strings over bytes: the value a digit string denotes,
//! parsing with an overflow check, and rendering an integer as digits.
use vstd::prelude::*;

verus! {

/// The byte value of the ASCII character '0'.
pub const ASCII_ZERO: u8 = 48;

/// The byte value of the ASCII character '9'.
pub const ASCII_NINE: u8 = 57;

/// An ASCII decimal digit.
pub open spec fn is_digit(b: u8) -> bool {
    ASCII_ZERO <= b && b <= ASCII_NINE
}

/// Every byte of `s` is an ASCII decimal digit.
pub open spec fn all_digits(s: Seq<u8>) -> bool {
    forall|i: int| 0 <= i < s.len() ==> is_digit(#[trigger] s[i])
}

/// The non-negative integer a digit string denotes, most significant digit
/// first. Bytes outside '0'..'9' make the result meaningless; callers guard
/// with `all_digits`.
pub open spec fn digits_value(s: Seq<u8>) -> int
    decreases s.len(),
{
    if s.len() == 0 {
        0
    } else {
        digits_value(s.drop_last()) * 10 + (s.last() - ASCII_ZERO)
    }
}

pub proof fn lemma_digits_value_nonneg(s: Seq<u8>)
    requires
        all_digits(s),
    ensures
        digits_value(s) >= 0,
    decreases s.len(),
{
    if s.len() > 0 {
        assert(all_digits(s.drop_last()));
        lemma_digits_value_nonneg(s.drop_last());
    }
}

/// Extending a digit string on the right can only grow its value.
pub proof fn lemma_digits_value_prefix(s: Seq<u8>, i: int)
    requires
        all_digits(s),
        0 <= i <= s.len(),
    ensures
        digits_value(s.subrange(0, i)) <= digits_value(s),
    decreases s.len() - i,
{
    if i < s.len() {
        let t = s.subrange(0, i + 1);
        assert(t.drop_last() =~= s.subrange(0, i));
        assert(all_digits(s.subrange(0, i)));
        lemma_digits_value_nonneg(s.subrange(0, i));
        assert(t.last() == s[i]);
        assert(is_digit(s[i]));
        assert(digits_value(t) == digits_value(s.subrange(0, i)) * 10 + (s[i] - ASCII_ZERO));
        lemma_digits_value_prefix(s, i + 1);
    } else {
        assert(s.subrange(0, i) =~= s);
    }
}

/// A leading zero does not change the value.
pub proof fn lemma_digits_value_leading_zero(s: Seq<u8>)
    ensures
        digits_value(seq![ASCII_ZERO] + s) == digits_value(s),
    decreases s.len(),
{
    if s.len() == 0 {
        assert(seq![ASCII_ZERO] + s =~= seq![ASCII_ZERO]);
        assert(seq![ASCII_ZERO].drop_last() =~= Seq::<u8>::empty());
        assert(digits_value(Seq::<u8>::empty()) == 0);
        assert(seq![ASCII_ZERO].last() == ASCII_ZERO);
        assert(digits_value(seq![ASCII_ZERO]) == 0);
    } else {
        assert((seq![ASCII_ZERO] + s).drop_last() =~= seq![ASCII_ZERO] + s.drop_last());
        lemma_digits_value_leading_zero(s.drop_last());
    }
}

/// Parse a digit string into a `u64`.
///
/// Returns `Some` exactly when the string is non-empty, all digits, and its
/// value fits in a `u64`.
pub fn parse_digits(s: &Vec<u8>) -> (r: Option<u64>)
    ensures
        match r {
            Some(v) => s@.len() > 0 && all_digits(s@) && digits_value(s@) == v,
            None => !(s@.len() > 0 && all_digits(s@) && digits_value(s@) <= u64::MAX),
        },
{
    if s.len() == 0 {
        return None;
    }
    let mut acc: u64 = 0;
    let mut i: usize = 0;
    while i < s.len()
        invariant
            0 <= i <= s@.len(),
            all_digits(s@.subrange(0, i as int)),
            acc == digits_value(s@.subrange(0, i as int)),
        decreases s@.len() - i,
    {
        let b = s[i];
        if b < ASCII_ZERO || b > ASCII_NINE {
            assert(!is_digit(s@[i as int]));
            return None;
        }
        let d = b - ASCII_ZERO;
        if acc > (u64::MAX - (d as u64)) / 10 {
            proof {
                let t = s@.subrange(0, i + 1);
                assert(t.drop_last() =~= s@.subrange(0, i as int));
                let m = (u64::MAX - (d as u64)) as int;
                assert(m == 10 * (m / 10) + m % 10);
                assert(acc * 10 + d > u64::MAX);
                assert(digits_value(t) == acc * 10 + d);
                if all_digits(s@) {
                    lemma_digits_value_prefix(s@, i + 1);
                }
            }
            return None;
        }
        proof {
            let m = (u64::MAX - (d as u64)) as int;
            assert(m == 10 * (m / 10) + m % 10);
            assert(acc * 10 + d <= u64::MAX);
            lemma_digits_value_nonneg(s@.subrange(0, i as int));
            assert(s@.subrange(0, i + 1).drop_last() =~= s@.subrange(0, i as int));
        }
        acc = acc * 10 + (d as u64);
        i = i + 1;
    }
    assert(s@.subrange(0, s@.len() as int) =~= s@);
    Some(acc)
}

/// The decimal digit string of `n`, with no leading zeros; empty for zero.
pub open spec fn dec_digits(n: int) -> Seq<u8>
    decreases n,
{
    if n <= 0 {
        Seq::empty()
    } else {
        dec_digits(n / 10).push((n % 10 + ASCII_ZERO) as u8)
    }
}

pub proof fn lemma_dec_digits_all_digits(n: int)
    ensures
        all_digits(dec_digits(n)),
    decreases n,
{
    if n > 0 {
        lemma_dec_digits_all_digits(n / 10);
        assert(dec_digits(n).drop_last() =~= dec_digits(n / 10));
        assert forall|i: int| 0 <= i < dec_digits(n).len() implies is_digit(
            #[trigger] dec_digits(n)[i],
        ) by {
            if i < dec_digits(n).len() - 1 {
                assert(dec_digits(n)[i] == dec_digits(n / 10)[i]);
            }
        }
    }
}

pub proof fn lemma_dec_digits_value(n: int)
    requires
        n >= 0,
    ensures
        digits_value(dec_digits(n)) == n,
    decreases n,
{
    if n > 0 {
        lemma_dec_digits_value(n / 10);
        assert(dec_digits(n).drop_last() =~= dec_digits(n / 10));
        assert(dec_digits(n).last() == (n % 10 + ASCII_ZERO) as u8);
    }
}

pub proof fn lemma_dec_digits_len(n: int)
    requires
        n > 0,
    ensures
        dec_digits(n).len() > 0,
{
}

/// Render `n` as its decimal digit string; zero renders as "0".
pub open spec fn int_digits(n: int) -> Seq<u8> {
    if n == 0 {
        seq![ASCII_ZERO]
    } else {
        dec_digits(n)
    }
}

/// Render a `u64` in decimal, most significant digit first.
pub fn render_int(n: u64) -> (r: Vec<u8>)
    ensures
        r@ == int_digits(n as int),
        all_digits(r@),
        r@.len() > 0,
{
    proof {
        lemma_dec_digits_all_digits(n as int);
    }
    if n == 0 {
        let r: Vec<u8> = vec![ASCII_ZERO];
        assert(r@ =~= int_digits(0));
        assert(is_digit(ASCII_ZERO));
        return r;
    }
    let mut v: Vec<u8> = Vec::new();
    let mut m: u64 = n;
    assert(dec_digits(m as int) + v@ =~= dec_digits(n as int));
    while m > 0
        invariant
            dec_digits(m as int) + v@ == dec_digits(n as int),
        decreases m,
    {
        let ghost v0 = v@;
        let ghost m0 = m as int;
        let d = (m % 10) as u8 + ASCII_ZERO;
        v.insert(0, d);
        proof {
            assert(v@ =~= seq![d] + v0);
            assert(dec_digits(m0) == dec_digits(m0 / 10).push((m0 % 10 + ASCII_ZERO) as u8));
            assert(dec_digits(m0 / 10) + v@ =~= dec_digits(m0) + v0);
        }
        m = m / 10;
    }
    assert(dec_digits(0) + v@ =~= v@);
    proof {
        lemma_dec_digits_len(n as int);
    }
    v
}

} // verus!
