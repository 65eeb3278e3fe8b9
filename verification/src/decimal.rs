//! Decimal numbers on the wire: parsing a whitespace-trimmed decimal `u32`
//! (the `Content-Length` value) and rendering a `u32` as decimal digit bytes
//! (the bounds of a `Range` header).

use vstd::prelude::*;

verus! {

use crate::framing::CR;
use crate::framing::LF;

/// ASCII whitespace as it may surround a header value: space, horizontal
/// tab, carriage return, line feed.
pub open spec fn is_ascii_space(b: u8) -> bool {
    b == 32 || b == 9 || b == CR || b == LF
}

/// ASCII decimal digit.
pub open spec fn is_digit(b: u8) -> bool {
    48 <= b <= 57
}

/// Every byte of `s` is a decimal digit.
pub open spec fn all_digits(s: Seq<u8>) -> bool {
    forall|i: int| 0 <= i < s.len() ==> is_digit(#[trigger] s[i])
}

/// Numeric value of a digit sequence read in base ten.
pub open spec fn dec_value(s: Seq<u8>) -> int
    decreases s.len(),
{
    if s.len() == 0 {
        0
    } else {
        dec_value(s.drop_last()) * 10 + (s.last() - 48)
    }
}

/// `s` with its leading ASCII whitespace removed.
pub open spec fn trim_start(s: Seq<u8>) -> Seq<u8>
    decreases s.len(),
{
    if s.len() > 0 && is_ascii_space(s.first()) {
        trim_start(s.drop_first())
    } else {
        s
    }
}

/// `s` with its trailing ASCII whitespace removed.
pub open spec fn trim_end(s: Seq<u8>) -> Seq<u8>
    decreases s.len(),
{
    if s.len() > 0 && is_ascii_space(s.last()) {
        trim_end(s.drop_last())
    } else {
        s
    }
}

/// `s` with leading and trailing ASCII whitespace removed.
pub open spec fn trim(s: Seq<u8>) -> Seq<u8> {
    trim_end(trim_start(s))
}

/// Parse of `s` as a whitespace-trimmed decimal `u32`: defined exactly when
/// the trimmed bytes are one or more digits whose value fits in a `u32`.
pub open spec fn parse_u32(s: Seq<u8>) -> Option<u32> {
    let t = trim(s);
    if t.len() > 0 && all_digits(t) && dec_value(t) <= u32::MAX {
        Some(dec_value(t) as u32)
    } else {
        None
    }
}

/// When the first `k` bytes of `s` are whitespace and byte `k` (if present)
/// is not, trimming the start drops exactly those `k` bytes.
proof fn lemma_trim_start_at(s: Seq<u8>, k: int)
    requires
        0 <= k <= s.len(),
        forall|j: int| 0 <= j < k ==> is_ascii_space(#[trigger] s[j]),
        k < s.len() ==> !is_ascii_space(s[k]),
    ensures
        trim_start(s) == s.skip(k),
    decreases k,
{
    if k == 0 {
        assert(s.skip(0) =~= s);
    } else {
        lemma_trim_start_at(s.drop_first(), k - 1);
        assert(s.drop_first().skip(k - 1) =~= s.skip(k));
    }
}

/// When the bytes of `s` from `k` on are whitespace and byte `k - 1` (if
/// present) is not, trimming the end keeps exactly the first `k` bytes.
proof fn lemma_trim_end_at(s: Seq<u8>, k: int)
    requires
        0 <= k <= s.len(),
        forall|j: int| k <= j < s.len() ==> is_ascii_space(#[trigger] s[j]),
        k > 0 ==> !is_ascii_space(s[k - 1]),
    ensures
        trim_end(s) == s.take(k),
    decreases s.len(),
{
    if s.len() > 0 && is_ascii_space(s.last()) {
        lemma_trim_end_at(s.drop_last(), k);
        assert(s.drop_last().take(k) =~= s.take(k));
    } else {
        assert(s.take(k) =~= s);
    }
}

/// Digit sequences have non-negative values.
proof fn lemma_dec_value_nonneg(s: Seq<u8>)
    requires
        all_digits(s),
    ensures
        dec_value(s) >= 0,
    decreases s.len(),
{
    if s.len() > 0 {
        assert(all_digits(s.drop_last()));
        lemma_dec_value_nonneg(s.drop_last());
    }
}

/// Extending a digit sequence by one digit multiplies its value by ten and
/// adds the digit.
proof fn lemma_dec_value_step(s: Seq<u8>, i: int)
    requires
        0 <= i < s.len(),
    ensures
        dec_value(s.take(i + 1)) == dec_value(s.take(i)) * 10 + (s[i] - 48),
{
    assert(s.take(i + 1).drop_last() =~= s.take(i));
    assert(s.take(i + 1).last() == s[i]);
}

/// The value of a digit sequence is at least the value of any of its
/// prefixes: once a prefix exceeds a bound, so does the whole.
proof fn lemma_dec_value_prefix_le(s: Seq<u8>, i: int)
    requires
        all_digits(s),
        0 <= i <= s.len(),
    ensures
        dec_value(s.take(i)) <= dec_value(s),
    decreases s.len() - i,
{
    if i == s.len() {
        assert(s.take(i) =~= s);
    } else {
        lemma_dec_value_step(s, i);
        assert(all_digits(s.take(i)));
        lemma_dec_value_nonneg(s.take(i));
        lemma_dec_value_prefix_le(s, i + 1);
    }
}

/// Decide whether a byte is ASCII whitespace.
fn ascii_space(b: u8) -> (r: bool)
    ensures
        r == is_ascii_space(b),
{
    b == 32 || b == 9 || b == CR || b == LF
}

/// Parse `s` as a whitespace-trimmed decimal `u32`. Returns `None` when the
/// trimmed bytes are empty, hold a non-digit, or exceed `u32::MAX`.
pub fn parse_decimal_u32(s: &Vec<u8>) -> (r: Option<u32>)
    ensures
        r == parse_u32(s@),
{
    let n = s.len();
    let mut lo: usize = 0;
    while lo < n && ascii_space(s[lo])
        invariant
            n == s.len(),
            0 <= lo <= n,
            forall|j: int| 0 <= j < lo ==> is_ascii_space(#[trigger] s@[j]),
        decreases n - lo,
    {
        lo = lo + 1;
    }
    proof {
        lemma_trim_start_at(s@, lo as int);
    }
    let mut hi: usize = n;
    while hi > lo && ascii_space(s[hi - 1])
        invariant
            n == s.len(),
            lo <= hi <= n,
            forall|j: int| hi <= j < n ==> is_ascii_space(#[trigger] s@[j]),
        decreases hi,
    {
        hi = hi - 1;
    }
    let ghost t = s@.subrange(lo as int, hi as int);
    proof {
        let u = s@.skip(lo as int);
        assert(forall|j: int| hi - lo <= j < u.len() ==> is_ascii_space(#[trigger] u[j]));
        lemma_trim_end_at(u, hi - lo);
        assert(trim(s@) =~= t);
    }
    if lo == hi {
        return None;
    }
    let mut acc: u64 = 0;
    let mut i: usize = lo;
    while i < hi
        invariant
            n == s.len(),
            lo <= i <= hi <= n,
            trim(s@) == t,
            t == s@.subrange(lo as int, hi as int),
            all_digits(t.take(i - lo)),
            acc == dec_value(t.take(i - lo)),
            acc <= u32::MAX,
        decreases hi - i,
    {
        let b = s[i];
        if b < 48 || b > 57 {
            proof {
                assert(t[i - lo] == b);
                assert(!all_digits(t));
            }
            return None;
        }
        let next: u64 = acc * 10 + ((b - 48) as u64);
        proof {
            lemma_dec_value_step(t, i - lo);
            assert(t[i - lo] == b);
        }
        if next > u32::MAX as u64 {
            proof {
                if all_digits(t) && dec_value(t) <= u32::MAX {
                    lemma_dec_value_prefix_le(t, i + 1 - lo);
                }
            }
            return None;
        }
        acc = next;
        i = i + 1;
    }
    proof {
        assert(t.take(hi - lo) =~= t);
    }
    Some(acc as u32)
}

/// Decimal digit bytes of `n`, most significant digit first, with no
/// leading zeros (`0` itself is the single byte `48`).
pub open spec fn dec_digits(n: int) -> Seq<u8>
    decreases n,
{
    if n <= 9 {
        seq![(48 + n) as u8]
    } else {
        dec_digits(n / 10).push((48 + n % 10) as u8)
    }
}

/// Append the decimal digits of `n` to `out`.
pub fn push_decimal(out: &mut Vec<u8>, n: u32)
    ensures
        final(out)@ == old(out)@ + dec_digits(n as int),
    decreases n,
{
    if n >= 10 {
        push_decimal(out, n / 10);
    }
    out.push(48 + (n % 10) as u8);
    proof {
        assert(out@ =~= old(out)@ + dec_digits(n as int));
    }
}

} // verus!
