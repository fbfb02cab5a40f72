//! Decimal digit runs and their values.
//!
//! Track orders are read from ASCII decimal digit runs: the leading run of a
//! file name, or the numerator of a `track` tag value. Only the bytes `0x30`
//! through `0x39` count as digits.

use vstd::prelude::*;

verus! {

/// True of the bytes `'0'` through `'9'`.
pub open spec fn is_ascii_digit(b: u8) -> bool {
    48 <= b && b <= 57
}

/// Every byte of `s` is an ASCII decimal digit.
pub open spec fn all_digits(s: Seq<u8>) -> bool {
    forall|i: int| 0 <= i < s.len() ==> is_ascii_digit(#[trigger] s[i])
}

/// Length of the run of ASCII digits at the start of `s`.
pub open spec fn digit_prefix_len(s: Seq<u8>) -> nat
    decreases s.len(),
{
    if s.len() == 0 || !is_ascii_digit(s[0]) {
        0
    } else {
        (1 + digit_prefix_len(s.skip(1))) as nat
    }
}

/// The value of a run of ASCII digits read as a decimal number.
pub open spec fn digits_value(s: Seq<u8>) -> nat
    decreases s.len(),
{
    if s.len() == 0 {
        0
    } else {
        (10 * digits_value(s.drop_last()) + (s.last() - 48)) as nat
    }
}

/// `digit_prefix_len` is the position of the first non-digit byte.
pub proof fn lemma_digit_prefix_len_is(s: Seq<u8>, k: int)
    requires
        0 <= k <= s.len(),
        forall|i: int| 0 <= i < k ==> is_ascii_digit(#[trigger] s[i]),
        k < s.len() ==> !is_ascii_digit(s[k]),
    ensures
        digit_prefix_len(s) == k,
    decreases s.len(),
{
    if k == 0 {
    } else {
        assert(is_ascii_digit(s[0]));
        assert forall|i: int| 0 <= i < k - 1 implies is_ascii_digit(#[trigger] s.skip(1)[i]) by {
            assert(s.skip(1)[i] == s[i + 1]);
        }
        assert(k - 1 < s.skip(1).len() ==> !is_ascii_digit(s.skip(1)[k - 1]));
        lemma_digit_prefix_len_is(s.skip(1), k - 1);
    }
}

/// Parses `s[from..to]`, a run of ASCII digits, as a decimal number.
/// A value too large for `u64` is reported as `None`.
pub fn parse_digits_range(s: &Vec<u8>, from: usize, to: usize) -> (r: Option<u64>)
    requires
        from <= to <= s@.len(),
        forall|i: int| from <= i < to ==> is_ascii_digit(#[trigger] s@[i]),
    ensures
        (match r {
            Option::Some(v) => digits_value(s@.subrange(from as int, to as int)) == v,
            Option::None => digits_value(s@.subrange(from as int, to as int)) > u64::MAX,
        }),
{
    let ghost digs = s@.subrange(from as int, to as int);
    let mut i: usize = from;
    let mut acc: u64 = 0;
    let mut over: bool = false;
    while i < to
        invariant
            from <= i <= to <= s@.len(),
            digs == s@.subrange(from as int, to as int),
            forall|q: int| from <= q < to ==> is_ascii_digit(#[trigger] s@[q]),
            !over ==> acc == digits_value(digs.take(i - from)),
            over ==> digits_value(digs.take(i - from)) > u64::MAX,
        decreases to - i,
    {
        let b = s[i];
        assert(is_ascii_digit(b));
        let d: u64 = (b - 48) as u64;
        proof {
            assert(digs.take(i + 1 - from).drop_last() =~= digs.take(i - from));
            assert(digs.take(i + 1 - from).last() == s@[i as int]);
        }
        let ghost prev = digits_value(digs.take(i - from));
        assert(digits_value(digs.take(i + 1 - from)) == 10 * prev + d);
        if !over {
            if acc <= (u64::MAX - d) / 10 {
                assert(10 * acc + d <= u64::MAX) by (nonlinear_arith)
                    requires
                        acc <= (u64::MAX - d) / 10,
                        d <= 9,
                ;
                acc = acc * 10 + d;
            } else {
                over = true;
                assert(10 * (acc as int) + d > u64::MAX) by (nonlinear_arith)
                    requires
                        acc > (u64::MAX - d) / 10,
                        d <= 9,
                ;
            }
        } else {
            assert(digits_value(digs.take(i + 1 - from)) >= prev);
        }
        i = i + 1;
    }
    assert(digs.take(to - from) =~= digs);
    if over {
        Option::None
    } else {
        Option::Some(acc)
    }
}

} // verus!
