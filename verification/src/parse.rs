//! Verified parsing of one input line into a guess.
//!
//! A raw line of bytes is trimmed of ASCII whitespace at both ends and the
//! rest is read as an unsigned decimal number. A line whose trimmed text is
//! empty, holds a non-digit byte, or denotes a value beyond `u32::MAX` is
//! rejected, so that the game can re-prompt instead of failing.

use vstd::prelude::*;

verus! {

/// Whether `b` is an ASCII whitespace byte: space, tab, line feed, vertical
/// tab, form feed or carriage return.
pub open spec fn is_ws(b: u8) -> bool {
    b == 32 || (9 <= b && b <= 13)
}

/// Whether `b` is an ASCII decimal digit byte.
pub open spec fn is_digit(b: u8) -> bool {
    48 <= b && b <= 57
}

/// `s` with its leading whitespace bytes removed.
pub open spec fn trim_front(s: Seq<u8>) -> Seq<u8>
    decreases s.len(),
{
    if s.len() > 0 && is_ws(s[0]) {
        trim_front(s.drop_first())
    } else {
        s
    }
}

/// `s` with its trailing whitespace bytes removed.
pub open spec fn trim_back(s: Seq<u8>) -> Seq<u8>
    decreases s.len(),
{
    if s.len() > 0 && is_ws(s.last()) {
        trim_back(s.drop_last())
    } else {
        s
    }
}

/// `s` with whitespace removed at both ends.
pub open spec fn trimmed(s: Seq<u8>) -> Seq<u8> {
    trim_back(trim_front(s))
}

/// Whether every byte of `s` is a decimal digit.
pub open spec fn all_digits(s: Seq<u8>) -> bool {
    forall|i: int| 0 <= i < s.len() ==> is_digit(s[i])
}

/// The number a digit string denotes, most significant digit first.
pub open spec fn digits_value(s: Seq<u8>) -> int
    decreases s.len(),
{
    if s.len() == 0 {
        0
    } else {
        digits_value(s.drop_last()) * 10 + (s.last() - 48)
    }
}

/// What one raw input line parses to: its trimmed text read as a decimal
/// number, provided it is a non-empty run of digits whose value fits in a
/// `u32`.
pub open spec fn parsed_guess(line: Seq<u8>) -> Option<u32> {
    let t = trimmed(line);
    if t.len() > 0 && all_digits(t) && digits_value(t) <= u32::MAX {
        Some(digits_value(t) as u32)
    } else {
        None
    }
}

proof fn lemma_trim_front_skip(s: Seq<u8>, k: int)
    requires
        0 <= k <= s.len(),
        forall|i: int| 0 <= i < k ==> is_ws(s[i]),
        k == s.len() || !is_ws(s[k]),
    ensures
        trim_front(s) == s.skip(k),
    decreases k,
{
    if k == 0 {
        assert(trim_front(s) =~= s.skip(0));
    } else {
        assert(is_ws(s[0]));
        let d = s.drop_first();
        assert forall|i: int| 0 <= i < k - 1 implies is_ws(d[i]) by {
            assert(d[i] == s[i + 1]);
        }
        if k < s.len() {
            assert(d[k - 1] == s[k]);
        }
        lemma_trim_front_skip(d, k - 1);
        assert(d.skip(k - 1) =~= s.skip(k));
    }
}

proof fn lemma_trim_back_take(s: Seq<u8>, k: int)
    requires
        0 <= k <= s.len(),
        forall|i: int| k <= i < s.len() ==> is_ws(s[i]),
        k == 0 || !is_ws(s[k - 1]),
    ensures
        trim_back(s) == s.take(k),
    decreases s.len() - k,
{
    if k == s.len() {
        assert(trim_back(s) =~= s.take(k));
    } else {
        assert(is_ws(s[s.len() - 1]));
        let d = s.drop_last();
        assert forall|i: int| k <= i < d.len() implies is_ws(d[i]) by {
            assert(d[i] == s[i]);
        }
        if k > 0 {
            assert(d[k - 1] == s[k - 1]);
        }
        lemma_trim_back_take(d, k);
        assert(d.take(k) =~= s.take(k));
    }
}

proof fn lemma_digits_value_nonneg(s: Seq<u8>)
    requires
        all_digits(s),
    ensures
        digits_value(s) >= 0,
    decreases s.len(),
{
    if s.len() > 0 {
        let d = s.drop_last();
        assert forall|i: int| 0 <= i < d.len() implies is_digit(d[i]) by {
            assert(d[i] == s[i]);
        }
        lemma_digits_value_nonneg(d);
        assert(is_digit(s[s.len() - 1]));
    }
}

proof fn lemma_digits_value_prefix_le(s: Seq<u8>, k: int)
    requires
        all_digits(s),
        0 <= k <= s.len(),
    ensures
        digits_value(s.take(k)) <= digits_value(s),
    decreases s.len() - k,
{
    if k == s.len() {
        assert(s.take(k) =~= s);
    } else {
        lemma_digits_value_prefix_le(s, k + 1);
        let p = s.take(k + 1);
        assert(p.drop_last() =~= s.take(k));
        assert(p.last() == s[k]);
        assert forall|i: int| 0 <= i < k implies is_digit(s.take(k)[i]) by {
            assert(s.take(k)[i] == s[i]);
        }
        lemma_digits_value_nonneg(s.take(k));
        assert(is_digit(s[k]));
        assert(digits_value(p) == digits_value(s.take(k)) * 10 + (s[k] - 48));
    }
}

/// Parse one raw input line as a guess: trim ASCII whitespace at both ends,
/// then read the rest as an unsigned decimal number. Returns `None` exactly
/// when the trimmed line is empty, holds a byte that is not a digit, or
/// denotes a value larger than `u32::MAX`.
pub fn parse_guess(line: &Vec<u8>) -> (r: Option<u32>)
    ensures
        r == parsed_guess(line@),
{
    let n: usize = line.len();

    // Index of the first byte that is not whitespace.
    let mut lo: usize = 0;
    while lo < n
        invariant
            lo <= n,
            n == line@.len(),
            forall|i: int| 0 <= i < lo ==> is_ws(line@[i]),
        ensures
            lo <= n,
            n == line@.len(),
            forall|i: int| 0 <= i < lo ==> is_ws(line@[i]),
            lo == n || !is_ws(line@[lo as int]),
        decreases n - lo,
    {
        let b: u8 = line[lo];
        if b == 32 || (9 <= b && b <= 13) {
            lo = lo + 1;
        } else {
            break;
        }
    }

    if lo == n {
        // The line is all whitespace: nothing is left after trimming.
        proof {
            lemma_trim_front_skip(line@, lo as int);
            assert(line@.skip(lo as int) =~= Seq::<u8>::empty());
            assert(trimmed(line@).len() == 0);
        }
        return None;
    }

    // One past the index of the last byte that is not whitespace.
    let mut hi: usize = n;
    while hi > lo
        invariant
            lo < hi <= n,
            n == line@.len(),
            !is_ws(line@[lo as int]),
            forall|i: int| hi <= i < n ==> is_ws(line@[i]),
        ensures
            lo < hi <= n,
            forall|i: int| hi <= i < n ==> is_ws(line@[i]),
            !is_ws(line@[hi - 1]),
        decreases hi,
    {
        let b: u8 = line[hi - 1];
        if b == 32 || (9 <= b && b <= 13) {
            hi = hi - 1;
        } else {
            break;
        }
    }

    proof {
        lemma_trim_front_skip(line@, lo as int);
        let d = line@.skip(lo as int);
        assert forall|i: int| hi - lo <= i < d.len() implies is_ws(d[i]) by {
            assert(d[i] == line@[i + lo]);
        }
        assert(d[hi - lo - 1] == line@[hi - 1]);
        lemma_trim_back_take(d, hi - lo as int);
        assert(d.take(hi - lo as int) =~= line@.subrange(lo as int, hi as int));
        assert(trimmed(line@) == line@.subrange(lo as int, hi as int));
    }

    // Read the trimmed bytes as a decimal number, refusing non-digits and
    // values beyond u32::MAX.
    let mut acc: u32 = 0;
    let mut j: usize = lo;
    while j < hi
        invariant
            lo <= j <= hi <= n,
            n == line@.len(),
            lo < hi,
            trimmed(line@) == line@.subrange(lo as int, hi as int),
            forall|i: int| lo <= i < j ==> is_digit(line@[i]),
            acc as int == digits_value(line@.subrange(lo as int, j as int)),
        decreases hi - j,
    {
        let b: u8 = line[j];
        if b < 48 || b > 57 {
            // A non-digit inside the trimmed text: the line is not a number.
            proof {
                let t = trimmed(line@);
                assert(t[j - lo] == line@[j as int]);
                assert(!all_digits(t));
            }
            return None;
        }
        let d: u8 = b - 48;
        proof {
            // Unfold the value of the digits up to and including position j.
            let p = line@.subrange(lo as int, j + 1);
            assert(p.drop_last() =~= line@.subrange(lo as int, j as int));
            assert(p.last() == line@[j as int]);
            assert(digits_value(p) == acc as int * 10 + (line@[j as int] - 48));
            vstd::arithmetic::div_mod::lemma_fundamental_div_mod(
                u32::MAX - d as int,
                10,
            );
        }
        if acc > (u32::MAX - d as u32) / 10 {
            // The digits seen so far already denote more than u32::MAX.
            proof {
                let t = trimmed(line@);
                assert(digits_value(line@.subrange(lo as int, j + 1)) > u32::MAX);
                if all_digits(t) {
                    assert(t.take(j + 1 - lo) =~= line@.subrange(lo as int, j + 1));
                    lemma_digits_value_prefix_le(t, j + 1 - lo);
                }
            }
            return None;
        }
        acc = acc * 10 + d as u32;
        j = j + 1;
    }

    proof {
        let t = trimmed(line@);
        assert forall|i: int| 0 <= i < t.len() implies is_digit(t[i]) by {
            assert(t[i] == line@[i + lo]);
        }
        assert(t.len() > 0);
        assert(digits_value(t) == acc as int);
    }
    Some(acc)
}

} // verus!
