//! Digit runs inside input lines, read into machine integers.

use vstd::prelude::*;
use vstd::string::StrSliceExecFns;

verus! {

/// A decimal digit.
pub open spec fn is_digit(c: char) -> bool {
    '0' <= c && c <= '9'
}

/// The value of a decimal digit.
pub open spec fn digit_of(c: char) -> int {
    c as int - '0' as int
}

/// The value of a run of decimal digits, most significant first.
pub open spec fn digits_val(s: Seq<char>) -> int
    decreases s.len(),
{
    if s.len() == 0 {
        0
    } else {
        10 * digits_val(s.drop_last()) + digit_of(s.last())
    }
}

/// A digit run never has a negative value.
pub proof fn lemma_digits_val_nonneg(s: Seq<char>)
    requires
        forall|i: int| 0 <= i < s.len() ==> is_digit(#[trigger] s[i]),
    ensures
        digits_val(s) >= 0,
    decreases s.len(),
{
    if s.len() > 0 {
        let t = s.drop_last();
        assert(forall|i: int| 0 <= i < t.len() ==> t[i] == s[i]);
        lemma_digits_val_nonneg(t);
    }
}

/// A prefix of a digit run is worth no more than the whole run.
pub proof fn lemma_digits_prefix_le(s: Seq<char>, i: int)
    requires
        forall|j: int| 0 <= j < s.len() ==> is_digit(#[trigger] s[j]),
        0 <= i <= s.len(),
    ensures
        digits_val(s.subrange(0, i)) <= digits_val(s),
    decreases s.len() - i,
{
    if i == s.len() {
        assert(s.subrange(0, i) =~= s);
    } else {
        let shorter = s.subrange(0, i);
        let longer = s.subrange(0, i + 1);
        assert(longer.drop_last() =~= shorter);
        assert(forall|j: int| 0 <= j < shorter.len() ==> shorter[j] == s[j]);
        lemma_digits_val_nonneg(shorter);
        assert(digits_val(longer) == 10 * digits_val(shorter) + digit_of(s[i]));
        lemma_digits_prefix_le(s, i + 1);
    }
}

/// Read the digit run `s[from..to]` as an unsigned machine integer.
pub fn parse_u64(s: &str, from: usize, to: usize) -> (v: u64)
    requires
        from <= to <= s@.len(),
        forall|k: int| from <= k < to ==> is_digit(#[trigger] s@[k]),
        digits_val(s@.subrange(from as int, to as int)) <= u64::MAX,
    ensures
        v == digits_val(s@.subrange(from as int, to as int)),
{
    let ghost run = s@.subrange(from as int, to as int);
    proof {
        assert(forall|j: int| 0 <= j < run.len() ==> run[j] == s@[from + j]);
    }
    let mut acc: u64 = 0;
    let mut i: usize = from;
    while i < to
        invariant
            from <= i <= to <= s@.len(),
            run == s@.subrange(from as int, to as int),
            forall|j: int| 0 <= j < run.len() ==> is_digit(#[trigger] run[j]) && run[j] == s@[from
                + j],
            digits_val(run) <= u64::MAX,
            acc == digits_val(run.subrange(0, i - from)),
        decreases to - i,
    {
        let c = s.get_char(i);
        proof {
            let k = i - from;
            assert(run[k] == s@[i as int]);
            assert(run.subrange(0, k + 1).drop_last() =~= run.subrange(0, k));
            assert(run.subrange(0, k + 1).last() == run[k]);
            lemma_digits_prefix_le(run, k + 1);
            lemma_digits_val_nonneg(run.subrange(0, k));
        }
        let d = (c as u32) - ('0' as u32);
        acc = acc * 10 + (d as u64);
        i = i + 1;
    }
    proof {
        assert(run.subrange(0, to - from) =~= run);
    }
    acc
}

/// Read an optionally `-`-signed digit run `s[from..to]` as a signed
/// machine integer.
pub fn parse_i64(s: &str, from: usize, to: usize) -> (v: i64)
    requires
        from < to <= s@.len(),
        s@[from as int] == '-' ==> from + 1 < to,
        forall|k: int|
            from < k < to ==> is_digit(#[trigger] s@[k]),
        s@[from as int] == '-' || is_digit(s@[from as int]),
        s@[from as int] == '-' ==> digits_val(s@.subrange(from + 1, to as int)) <= i64::MAX,
        s@[from as int] != '-' ==> digits_val(s@.subrange(from as int, to as int)) <= i64::MAX,
    ensures
        s@[from as int] == '-' ==> v == -digits_val(s@.subrange(from + 1, to as int)),
        s@[from as int] != '-' ==> v == digits_val(s@.subrange(from as int, to as int)),
{
    let first = s.get_char(from);
    if first == '-' {
        proof {
            lemma_digits_val_nonneg(s@.subrange(from + 1, to as int));
        }
        let magnitude = parse_u64(s, from + 1, to);
        -((magnitude as i64))
    } else {
        proof {
            lemma_digits_val_nonneg(s@.subrange(from as int, to as int));
        }
        let magnitude = parse_u64(s, from, to);
        magnitude as i64
    }
}

/// Read the digit run `s[from..to]` as a `usize`.
pub fn parse_usize(s: &str, from: usize, to: usize) -> (v: usize)
    requires
        from <= to <= s@.len(),
        forall|k: int| from <= k < to ==> is_digit(#[trigger] s@[k]),
        digits_val(s@.subrange(from as int, to as int)) <= usize::MAX,
    ensures
        v == digits_val(s@.subrange(from as int, to as int)),
{
    proof {
        lemma_digits_val_nonneg(s@.subrange(from as int, to as int));
    }
    let wide = parse_u64(s, from, to);
    wide as usize
}

} // verus!
