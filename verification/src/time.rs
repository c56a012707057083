//! Reading the wall clock, and parsing the `<count><unit>` durations
//! that reminder commands take.
//!
//! Every transition in this crate takes the current instant as a plain
//! `u64` of non-leap seconds since the Unix epoch, so the clock is read
//! in exactly one place.

use vstd::prelude::*;
use vstd::string::StringSliceAdditionalSpecFns;

verus! {

/// Relies on `chrono::Utc::now` and `chrono::DateTime::timestamp`:
/// seconds since the Unix epoch.  `Utc::now` does not return a
/// pre-epoch instant, so the timestamp is non-negative.
#[verifier::external_body]
fn now_timestamp() -> (r: i64)
    ensures
        r >= 0,
{
    chrono::Utc::now().timestamp()
}

/// The current instant in seconds since the Unix epoch.
pub fn current_unix_time() -> u64 {
    let t = now_timestamp();
    t as u64
}

/// Why a duration string was rejected.
#[derive(Clone, Copy, Debug, PartialEq, Eq, Structural)]
pub enum DurationError {
    /// The string is empty (or whitespace only).
    Empty,
    /// The count before the unit is missing, not a number, or too
    /// large to parse.
    InvalidNumber,
    /// The count is zero or negative.
    NotPositive,
    /// The trailing unit letter is not one of `s`, `m`, `h`, `d`, `w`.
    InvalidUnit,
    /// The resulting number of seconds does not fit.
    TooLarge,
}

pub open spec fn spec_is_digit(b: u8) -> bool {
    48 <= b <= 57
}

/// ASCII whitespace, the characters `trim` strips from either end.
pub open spec fn spec_is_space(b: u8) -> bool {
    b == 32 || 9 <= b <= 13
}

/// Whether every byte of `s` is a decimal digit.
pub open spec fn all_digits(s: Seq<u8>) -> bool {
    forall|i: int| 0 <= i < s.len() ==> spec_is_digit(#[trigger] s[i])
}

/// `s` without its leading whitespace.
pub open spec fn trim_front(s: Seq<u8>) -> Seq<u8>
    decreases s.len(),
{
    if s.len() > 0 && spec_is_space(s[0]) {
        trim_front(s.drop_first())
    } else {
        s
    }
}

/// `s` without its trailing whitespace.
pub open spec fn trim_back(s: Seq<u8>) -> Seq<u8>
    decreases s.len(),
{
    if s.len() > 0 && spec_is_space(s.last()) {
        trim_back(s.drop_last())
    } else {
        s
    }
}

/// `s` without whitespace on either end.
pub open spec fn trimmed(s: Seq<u8>) -> Seq<u8> {
    trim_back(trim_front(s))
}

/// The integer a run of decimal digit bytes denotes.
pub open spec fn digits_value(s: Seq<u8>) -> int
    decreases s.len(),
{
    if s.len() == 0 {
        0
    } else {
        digits_value(s.drop_last()) * 10 + (s.last() - 48)
    }
}

/// Seconds per unit letter.
pub open spec fn spec_unit_secs(b: u8) -> Option<u64> {
    if b == 115 {  // 's'
        Some(1u64)
    } else if b == 109 {  // 'm'
        Some(60u64)
    } else if b == 104 {  // 'h'
        Some(3600u64)
    } else if b == 100 {  // 'd'
        Some(86400u64)
    } else if b == 119 {  // 'w'
        Some(604800u64)
    } else {
        None
    }
}

/// What `parse_duration` returns on the already-trimmed byte string
/// `t`: an optionally signed count, readable as a signed sixty-four
/// bit number, followed by one unit letter; the count must be
/// positive and the product of seconds must fit.
pub open spec fn spec_parse_trimmed(t: Seq<u8>) -> Result<u64, DurationError> {
    if t.len() == 0 {
        Err(DurationError::Empty)
    } else {
        let digits = t.drop_last();
        let signed = digits.len() >= 1 && (digits[0] == 43 || digits[0] == 45);
        let neg = digits.len() >= 1 && digits[0] == 45;
        let bound: int = if neg {
            0x8000_0000_0000_0000
        } else {
            0x7fff_ffff_ffff_ffff
        };
        let numpart = if signed {
            digits.drop_first()
        } else {
            digits
        };
        if numpart.len() == 0 || !all_digits(numpart) || digits_value(numpart) > bound {
            Err(DurationError::InvalidNumber)
        } else if neg || digits_value(numpart) == 0 {
            Err(DurationError::NotPositive)
        } else {
            match spec_unit_secs(t.last()) {
                None => Err(DurationError::InvalidUnit),
                Some(u) => {
                    if digits_value(numpart) * u > u64::MAX {
                        Err(DurationError::TooLarge)
                    } else {
                        Ok((digits_value(numpart) * u) as u64)
                    }
                },
            }
        }
    }
}

/// What `parse_duration` returns on the byte string `b`: whitespace
/// is trimmed from both ends first.
pub open spec fn spec_parse_duration(b: Seq<u8>) -> Result<u64, DurationError> {
    spec_parse_trimmed(trimmed(b))
}

/// A sequence of digits denotes at least what any prefix of it
/// denotes (provided that prefix denotes something non-negative).
proof fn lemma_digits_prefix_bound(s: Seq<u8>, i: int)
    requires
        0 <= i <= s.len(),
        digits_value(s.take(i)) >= 0,
        forall|j: int| i <= j < s.len() ==> spec_is_digit(#[trigger] s[j]),
    ensures
        digits_value(s) >= digits_value(s.take(i)),
    decreases s.len() - i,
{
    if i < s.len() {
        assert(s.take(i + 1).drop_last() == s.take(i));
        assert(s.take(i + 1).last() == s[i]);
        assert(digits_value(s.take(i + 1)) == digits_value(s.take(i)) * 10 + (s[i] - 48));
        assert(digits_value(s.take(i + 1)) >= digits_value(s.take(i)));
        lemma_digits_prefix_bound(s, i + 1);
        assert(s.take(s.len() as int) == s);
    } else {
        assert(s.take(s.len() as int) == s);
    }
}

/// `trim_front` drops exactly the leading run of whitespace.
proof fn lemma_trim_front_at(s: Seq<u8>, k: int)
    requires
        0 <= k <= s.len(),
        forall|j: int| 0 <= j < k ==> spec_is_space(#[trigger] s[j]),
        k == s.len() || !spec_is_space(s[k]),
    ensures
        trim_front(s) == s.subrange(k, s.len() as int),
    decreases k,
{
    if k == 0 {
        assert(s.subrange(0, s.len() as int) =~= s);
    } else {
        assert(spec_is_space(s[0]));
        let rest = s.drop_first();
        assert forall|j: int| 0 <= j < k - 1 implies spec_is_space(#[trigger] rest[j]) by {
            assert(rest[j] == s[j + 1]);
        }
        if k - 1 < rest.len() {
            assert(rest[k - 1] == s[k]);
        }
        lemma_trim_front_at(rest, k - 1);
        assert(rest.subrange(k - 1, rest.len() as int) =~= s.subrange(k, s.len() as int));
    }
}

/// `trim_back` drops exactly the trailing run of whitespace.
proof fn lemma_trim_back_at(s: Seq<u8>, h: int)
    requires
        0 <= h <= s.len(),
        forall|j: int| h <= j < s.len() ==> spec_is_space(#[trigger] s[j]),
        h == 0 || !spec_is_space(s[h - 1]),
    ensures
        trim_back(s) == s.subrange(0, h),
    decreases s.len() - h,
{
    if h == s.len() as int {
        if h == 0 {
            assert(s.subrange(0, 0) =~= s);
        } else {
            assert(!spec_is_space(s.last()));
            assert(s.subrange(0, h) =~= s);
        }
    } else {
        assert(spec_is_space(s.last()));
        let rest = s.drop_last();
        assert forall|j: int| h <= j < rest.len() implies spec_is_space(#[trigger] rest[j]) by {
            assert(rest[j] == s[j]);
        }
        if h > 0 {
            assert(rest[h - 1] == s[h - 1]);
        }
        lemma_trim_back_at(rest, h);
        assert(rest.subrange(0, h) =~= s.subrange(0, h));
    }
}

/// Parses a duration of the form `<count><unit>` (for example a
/// half-hour as thirty of unit `m`) into seconds, ignoring
/// whitespace on either end and an optional leading sign.  A count
/// the backing integer type cannot hold is rejected as such rather
/// than aborting.
pub fn parse_duration(s: &str) -> (r: Result<u64, DurationError>)
    ensures
        r == spec_parse_duration(s.spec_bytes()),
{
    let b = s.as_bytes();
    let n = b.len();
    let mut lo: usize = 0;
    while lo < n && (b[lo] == 32 || (9 <= b[lo] && b[lo] <= 13))
        invariant
            b@ == s.spec_bytes(),
            n == b@.len(),
            lo <= n,
            forall|j: int| 0 <= j < lo ==> spec_is_space(#[trigger] b@[j]),
        decreases n - lo,
    {
        lo = lo + 1;
    }
    let mut hi: usize = n;
    while hi > lo && (b[hi - 1] == 32 || (9 <= b[hi - 1] && b[hi - 1] <= 13))
        invariant
            b@ == s.spec_bytes(),
            n == b@.len(),
            lo <= hi <= n,
            forall|j: int| 0 <= j < lo ==> spec_is_space(#[trigger] b@[j]),
            lo < n ==> !spec_is_space(b@[lo as int]),
            forall|j: int| hi <= j < n ==> spec_is_space(#[trigger] b@[j]),
        decreases hi,
    {
        hi = hi - 1;
    }
    let ghost t = trimmed(b@);
    proof {
        lemma_trim_front_at(b@, lo as int);
        let u0 = b@.subrange(lo as int, n as int);
        assert forall|j: int| hi - lo <= j < u0.len() implies spec_is_space(
            #[trigger] u0[j],
        ) by {
            assert(u0[j] == b@[lo + j]);
        }
        if hi > lo {
            assert(u0[hi - lo - 1] == b@[hi - 1]);
        }
        lemma_trim_back_at(u0, hi - lo);
        assert(u0.subrange(0, hi - lo) =~= b@.subrange(lo as int, hi as int));
        assert(t == b@.subrange(lo as int, hi as int));
        assert(t.len() == hi - lo);
        assert forall|j: int| 0 <= j < t.len() implies t[j] == b@[lo + j] by {}
    }
    if lo == hi {
        return Err(DurationError::Empty);
    }
    let ghost digits = t.drop_last();
    let signed = hi - lo >= 2 && (b[lo] == 43 || b[lo] == 45);
    let neg = hi - lo >= 2 && b[lo] == 45;
    let bound: u64 = if neg {
        0x8000_0000_0000_0000
    } else {
        0x7fff_ffff_ffff_ffff
    };
    let start: usize = if signed {
        lo + 1
    } else {
        lo
    };
    let dend = hi - 1;
    let ghost numpart = if signed {
        digits.drop_first()
    } else {
        digits
    };
    proof {
        assert(digits =~= b@.subrange(lo as int, dend as int));
        assert(numpart =~= b@.subrange(start as int, dend as int));
        assert(numpart.len() == dend - start);
        assert forall|j: int| 0 <= j < numpart.len() implies numpart[j] == b@[start + j] by {}
    }
    if start >= dend {
        return Err(DurationError::InvalidNumber);
    }
    let mut v: u64 = 0;
    let mut i: usize = start;
    while i < dend
        invariant
            b@ == s.spec_bytes(),
            n == b@.len(),
            t == trimmed(b@),
            t == b@.subrange(lo as int, hi as int),
            lo <= hi <= n,
            lo < hi,
            dend == hi - 1,
            start <= i <= dend,
            start == (if signed {
                lo + 1int
            } else {
                lo as int
            }),
            signed <==> (hi - lo >= 2 && (b@[lo as int] == 43 || b@[lo as int] == 45)),
            neg <==> (hi - lo >= 2 && b@[lo as int] == 45),
            bound == (if neg {
                0x8000_0000_0000_0000u64
            } else {
                0x7fff_ffff_ffff_ffffu64
            }),
            numpart == (if signed {
                t.drop_last().drop_first()
            } else {
                t.drop_last()
            }),
            numpart.len() == dend - start,
            forall|j: int| 0 <= j < numpart.len() ==> numpart[j] == b@[start + j],
            forall|j: int| 0 <= j < i - start ==> spec_is_digit(#[trigger] numpart[j]),
            v == digits_value(numpart.take(i - start)),
            v <= bound,
        decreases dend - i,
    {
        let d = b[i];
        proof {
            assert(numpart.take(i - start + 1).drop_last() == numpart.take(i - start));
            assert(numpart.take(i - start + 1).last() == numpart[i - start]);
            assert(numpart[i - start] == b@[i as int]);
        }
        if d < 48 || d > 57 {
            proof {
                assert(!spec_is_digit(numpart[i - start]));
                assert(!all_digits(numpart));
            }
            return Err(DurationError::InvalidNumber);
        }
        let dd = (d - 48) as u64;
        if v > (bound - dd) / 10 {
            proof {
                assert(digits_value(numpart.take(i - start + 1)) == v * 10 + dd);
                assert(v * 10 + dd > bound) by (nonlinear_arith)
                    requires
                        v > (bound - dd) / 10,
                        dd <= 9,
                        dd <= bound,
                ;
                if forall|j: int|
                    i - start + 1 <= j < numpart.len() ==> spec_is_digit(#[trigger] numpart[j]) {
                    lemma_digits_prefix_bound(numpart, i - start + 1);
                    assert(digits_value(numpart) > bound);
                } else {
                    let j = choose|j: int|
                        !(i - start + 1 <= j < numpart.len() ==> spec_is_digit(
                            #[trigger] numpart[j],
                        ));
                    assert(0 <= j < numpart.len() && !spec_is_digit(numpart[j]));
                    assert(!all_digits(numpart));
                }
            }
            return Err(DurationError::InvalidNumber);
        }
        proof {
            assert(v * 10 + dd <= bound) by (nonlinear_arith)
                requires
                    v <= (bound - dd) / 10,
                    dd <= 9,
                    dd <= bound,
            ;
        }
        v = v * 10 + dd;
        i = i + 1;
    }
    proof {
        assert(numpart.take(numpart.len() as int) == numpart);
    }
    if neg {
        return Err(DurationError::NotPositive);
    }
    if v == 0 {
        return Err(DurationError::NotPositive);
    }
    let unit_b = b[hi - 1];
    proof {
        assert(t.last() == b@[hi - 1]);
    }
    let u: u64 = if unit_b == 115 {
        1
    } else if unit_b == 109 {
        60
    } else if unit_b == 104 {
        3600
    } else if unit_b == 100 {
        86400
    } else if unit_b == 119 {
        604800
    } else {
        return Err(DurationError::InvalidUnit);
    };
    if v > u64::MAX / u {
        proof {
            assert(v * u > u64::MAX) by (nonlinear_arith)
                requires
                    u >= 1,
                    v > u64::MAX / u,
            ;
        }
        return Err(DurationError::TooLarge);
    }
    proof {
        assert(v * u <= u64::MAX) by (nonlinear_arith)
            requires
                u >= 1,
                v <= u64::MAX / u,
        ;
    }
    Ok(v * u)
}

} // verus!
