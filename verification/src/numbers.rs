//! Decimal text for 32-bit integers: the value of a digit run, the canonical
//! digit run of a value, and the round-trip facts the parser and the
//! renderers rely on.

use vstd::prelude::*;
use crate::text::is_digit_char;

verus! {

/// The value of a run of decimal digits, most significant first.
pub open spec fn digits_val(s: Seq<char>) -> int
    decreases s.len(),
{
    if s.len() == 0 {
        0
    } else {
        10 * digits_val(s.drop_last()) + (s.last() as u32 - 48)
    }
}

pub open spec fn all_digit_chars(s: Seq<char>) -> bool {
    forall|i: int| 0 <= i < s.len() ==> is_digit_char(#[trigger] s[i])
}

pub open spec fn spec_digit_char(d: int) -> char {
    (48 + d) as char
}

/// The canonical decimal rendering of a non-negative value.
pub open spec fn spec_digits_of(n: int) -> Seq<char>
    decreases n,
{
    if n < 10 {
        seq![spec_digit_char(if n >= 0 { n } else { 0 })]
    } else {
        spec_digits_of(n / 10).push(spec_digit_char(n % 10))
    }
}

/// The canonical rendering of an `i32`, minus sign included.
pub open spec fn spec_i32_text(n: int) -> Seq<char> {
    if n < 0 {
        seq!['-'] + spec_digits_of(-n)
    } else {
        spec_digits_of(n)
    }
}

pub proof fn lemma_digits_val_nonneg(s: Seq<char>)
    requires
        all_digit_chars(s),
    ensures
        digits_val(s) >= 0,
    decreases s.len(),
{
    if s.len() > 0 {
        assert(is_digit_char(s[s.len() - 1]));
        assert(all_digit_chars(s.drop_last()));
        lemma_digits_val_nonneg(s.drop_last());
    }
}

/// Appending digits never shrinks the value.
pub proof fn lemma_digits_val_extend_ge(s1: Seq<char>, s2: Seq<char>)
    requires
        all_digit_chars(s1),
        all_digit_chars(s2),
    ensures
        digits_val(s1 + s2) >= digits_val(s1),
    decreases s2.len(),
{
    if s2.len() == 0 {
        assert(s1 + s2 =~= s1);
    } else {
        let s2p = s2.drop_last();
        assert(all_digit_chars(s2p));
        lemma_digits_val_extend_ge(s1, s2p);
        assert((s1 + s2).drop_last() =~= s1 + s2p);
        assert(all_digit_chars(s1 + s2p));
        lemma_digits_val_nonneg(s1 + s2p);
        assert(digits_val(s1 + s2) == 10 * digits_val(s1 + s2p) + ((s1 + s2).last() as u32 - 48));
        assert(is_digit_char(s2.last()));
        assert((s1 + s2).last() == s2.last());
    }
}

pub proof fn lemma_digits_of_all_digits(n: int)
    requires
        n >= 0,
    ensures
        all_digit_chars(spec_digits_of(n)),
        spec_digits_of(n).len() >= 1,
    decreases n,
{
    if n < 10 {
        assert(spec_digits_of(n) =~= seq![spec_digit_char(n)]);
        assert(48 <= spec_digit_char(n) as u32 <= 57);
        assert(is_digit_char(spec_digits_of(n)[0]));
    } else {
        lemma_digits_of_all_digits(n / 10);
        let s = spec_digits_of(n / 10);
        assert(0 <= n % 10 < 10);
        assert(48 <= spec_digit_char(n % 10) as u32 <= 57);
        assert(forall|i: int|
            0 <= i < s.push(spec_digit_char(n % 10)).len() ==> is_digit_char(
                #[trigger] s.push(spec_digit_char(n % 10))[i],
            ));
    }
}

/// Reading back the canonical digits gives the value again.
pub proof fn lemma_digits_round_trip(n: int)
    requires
        n >= 0,
    ensures
        digits_val(spec_digits_of(n)) == n,
    decreases n,
{
    if n < 10 {
        let s = spec_digits_of(n);
        assert(s =~= seq![spec_digit_char(n)]);
        assert(s.drop_last() =~= Seq::<char>::empty());
        assert(spec_digit_char(n) as u32 == 48 + n);
        assert(s.last() == spec_digit_char(n));
        assert(digits_val(s) == 10 * digits_val(s.drop_last()) + (s.last() as u32 - 48));
        assert(digits_val(s.drop_last()) == 0);
        assert(digits_val(s) == n);
    } else {
        lemma_digits_round_trip(n / 10);
        let s = spec_digits_of(n / 10).push(spec_digit_char(n % 10));
        assert(s.drop_last() =~= spec_digits_of(n / 10));
        assert(spec_digit_char(n % 10) as u32 == 48 + n % 10);
        assert(digits_val(s) == 10 * (n / 10) + n % 10);
    }
}

fn digit_to_char(d: u32) -> (c: char)
    requires
        d < 10,
    ensures
        c == spec_digit_char(d as int),
{
    assert((48 + d) as u8 as u32 == 48 + d) by (bit_vector)
        requires
            d < 10,
    ;
    ((48 + d) as u8) as char
}

/// The value of the digit `c`.
pub fn char_digit_val(c: char) -> (d: u32)
    requires
        is_digit_char(c),
    ensures
        d == c as u32 - 48,
        d < 10,
{
    c as u32 - 48
}

pub fn digits_of_u64(m: u64) -> (v: Vec<char>)
    ensures
        v@ == spec_digits_of(m as int),
    decreases m,
{
    if m < 10 {
        let c = digit_to_char(m as u32);
        let mut v: Vec<char> = Vec::new();
        v.push(c);
        proof {
            assert(v@ =~= seq![spec_digit_char(m as int)]);
        }
        v
    } else {
        let mut v = digits_of_u64(m / 10);
        v.push(digit_to_char((m % 10) as u32));
        v
    }
}

/// The canonical decimal text of `n`.
pub fn i32_chars(n: i32) -> (v: Vec<char>)
    ensures
        v@ == spec_i32_text(n as int),
{
    if n < 0 {
        let m: u32 = ((-(n as i64)) as u64) as u32;
        proof {
            assert(m == -(n as int));
        }
        let mut v: Vec<char> = Vec::new();
        v.push('-');
        let d = digits_of_u64(m as u64);
        let mut i: usize = 0;
        while i < d.len()
            invariant
                i <= d@.len(),
                v@ == seq!['-'] + d@.subrange(0, i as int),
            decreases d@.len() - i,
        {
            v.push(d[i]);
            i += 1;
            proof {
                assert(v@ =~= seq!['-'] + d@.subrange(0, i as int));
            }
        }
        proof {
            assert(d@.subrange(0, d@.len() as int) =~= d@);
        }
        v
    } else {
        digits_of_u64(n as u64)
    }
}

/// The value of the digits `v[from..to]` with the given sign, when it fits
/// in an `i32`.
pub fn digits_to_i32(v: &Vec<char>, from: usize, to: usize, neg: bool) -> (r: Option<i32>)
    requires
        from <= to <= v@.len(),
        to - from >= 1,
        all_digit_chars(v@.subrange(from as int, to as int)),
    ensures
        ({
            let val = digits_val(v@.subrange(from as int, to as int));
            let signed = if neg { -val } else { val };
            if i32::MIN <= signed <= i32::MAX {
                r == Some(signed as i32)
            } else {
                r is None
            }
        }),
{
    let ghost digits = v@.subrange(from as int, to as int);
    let limit: u64 = if neg { 2147483648 } else { 2147483647 };
    let mut acc: u64 = 0;
    let mut i: usize = from;
    while i < to
        invariant
            from <= i <= to <= v@.len(),
            to - from >= 1,
            digits == v@.subrange(from as int, to as int),
            all_digit_chars(digits),
            limit == if neg { 2147483648int } else { 2147483647int },
            acc == digits_val(digits.subrange(0, i - from)),
            acc <= limit,
        decreases to - i,
    {
        let c = v[i];
        proof {
            assert(digits[i - from] == v@[i as int]);
            assert(is_digit_char(digits[i - from]));
        }
        let d = char_digit_val(c);
        let next: u64 = acc * 10 + (d as u64);
        proof {
            let pre = digits.subrange(0, i - from);
            let post = digits.subrange(0, i + 1 - from);
            assert(post.drop_last() =~= pre);
            assert(post.last() == digits[i - from]);
            assert(digits_val(post) == 10 * digits_val(pre) + (c as u32 - 48));
        }
        i += 1;
        if next > limit {
            proof {
                let post = digits.subrange(0, i - from);
                let rest = digits.subrange(i - from, digits.len() as int);
                assert(post + rest =~= digits);
                assert(forall|j: int| 0 <= j < post.len() ==> is_digit_char(#[trigger] post[j]));
                assert(forall|j: int| 0 <= j < rest.len() ==> is_digit_char(#[trigger] rest[j]));
                lemma_digits_val_extend_ge(post, rest);
            }
            return None;
        }
        acc = next;
    }
    proof {
        assert(digits.subrange(0, to - from) =~= digits);
    }
    if neg {
        proof {
            lemma_digits_val_nonneg(digits);
        }
        let signed: i64 = -(acc as i64);
        Some(signed as i32)
    } else {
        Some(acc as i32)
    }
}

} // verus!
