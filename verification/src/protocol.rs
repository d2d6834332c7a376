//! The on-the-wire load-query contract: a probe response is valid
//! exactly when its status is 200 and both load headers are present and
//! parse as non-negative decimal integers.

use vstd::prelude::*;

verus! {

/// An ASCII decimal digit.
pub open spec fn is_digit_byte(b: u8) -> bool {
    48 <= b <= 57
}

/// Every byte is a decimal digit.
pub open spec fn all_digits(s: Seq<u8>) -> bool {
    forall|i: int| 0 <= i < s.len() ==> is_digit_byte(#[trigger] s[i])
}

/// The number the digit string denotes, most significant digit first.
pub open spec fn digits_value(s: Seq<u8>) -> int
    decreases s.len(),
{
    if s.len() == 0 {
        0
    } else {
        digits_value(s.drop_last()) * 10 + (s.last() - 48)
    }
}

/// The text denotes a value: non-empty, all digits, and within `u64`.
pub open spec fn parses_u64(s: Seq<u8>) -> bool {
    s.len() > 0 && all_digits(s) && digits_value(s) <= u64::MAX
}

/// A digit string's value is non-negative.
proof fn lemma_digits_nonneg(s: Seq<u8>)
    requires
        all_digits(s),
    ensures
        digits_value(s) >= 0,
    decreases s.len(),
{
    if s.len() > 0 {
        assert(all_digits(s.drop_last()));
        lemma_digits_nonneg(s.drop_last());
        assert(s.last() == s[s.len() - 1]);
    }
}

/// Extending a digit string never lowers its value.
proof fn lemma_digits_prefix_le(s: Seq<u8>, i: int)
    requires
        all_digits(s),
        0 <= i <= s.len(),
    ensures
        digits_value(s) >= digits_value(s.take(i)),
    decreases s.len() - i,
{
    if i == s.len() {
        assert(s.take(i) =~= s);
    } else {
        assert(s.take(i + 1).drop_last() =~= s.take(i));
        assert(s.take(i + 1).last() == s[i]);
        assert(all_digits(s.take(i))) by {
            assert(forall|k: int| 0 <= k < i ==> s.take(i)[k] == s[k]);
        }
        lemma_digits_nonneg(s.take(i));
        assert(digits_value(s.take(i + 1)) == digits_value(s.take(i)) * 10 + (s[i] - 48));
        assert(digits_value(s.take(i)) * 10 >= digits_value(s.take(i))) by (nonlinear_arith)
            requires
                digits_value(s.take(i)) >= 0,
        ;
        lemma_digits_prefix_le(s, i + 1);
    }
}

/// Parse a non-negative decimal integer as the probe protocol reads
/// its headers: the result is the denoted value exactly when the text
/// is non-empty, all digits, and fits in `u64`.
#[verifier::loop_isolation(false)]
pub fn parse_u64_digits(b: &[u8]) -> (r: Option<u64>)
    ensures
        r matches Some(v) ==> parses_u64(b@) && v == digits_value(b@),
        r is None ==> !parses_u64(b@),
{
    let n = b.len();
    if n == 0 {
        return None;
    }
    let mut acc: u128 = 0;
    let mut i: usize = 0;
    while i < n
        invariant
            0 <= i <= n,
            n == b@.len(),
            all_digits(b@.take(i as int)),
            acc == digits_value(b@.take(i as int)),
            acc <= u64::MAX,
        decreases n - i,
    {
        let d = b[i];
        if d < 48 || d > 57 {
            proof {
                assert(!is_digit_byte(b@[i as int]));
            }
            return None;
        }
        proof {
            assert(b@.take(i as int + 1).drop_last() =~= b@.take(i as int));
            assert(b@.take(i as int + 1).last() == b@[i as int]);
            assert(forall|k: int|
                0 <= k < i + 1 ==> is_digit_byte(#[trigger] b@.take(i as int + 1)[k]));
        }
        let next: u128 = acc * 10 + ((d - 48) as u128);
        if next > u64::MAX as u128 {
            proof {
                if all_digits(b@) {
                    lemma_digits_prefix_le(b@, i as int + 1);
                }
            }
            return None;
        }
        acc = next;
        i = i + 1;
    }
    proof {
        assert(b@.take(n as int) =~= b@);
    }
    Some(acc as u64)
}

/// Decide one probe response. The result carries the reported
/// requests-in-flight and latency estimate exactly when the response is
/// valid: status 200 and both headers present and parseable.
pub fn evaluate_probe_response(
    status: u16,
    in_flight: Option<&[u8]>,
    est_latency: Option<&[u8]>,
) -> (r: Option<(u64, u64)>)
    ensures
        r matches Some(pair) ==> {
            &&& status == 200
            &&& match in_flight {
                Option::Some(b) => parses_u64(b@) && pair.0 == digits_value(b@),
                Option::None => false,
            }
            &&& match est_latency {
                Option::Some(b) => parses_u64(b@) && pair.1 == digits_value(b@),
                Option::None => false,
            }
        },
        r is None ==> {
            ||| status != 200
            ||| (match in_flight {
                Option::Some(b) => !parses_u64(b@),
                Option::None => true,
            })
            ||| (match est_latency {
                Option::Some(b) => !parses_u64(b@),
                Option::None => true,
            })
        },
{
    if status != 200 {
        return None;
    }
    let rif = match in_flight {
        Some(b) => match parse_u64_digits(b) {
            Some(v) => v,
            None => {
                return None;
            },
        },
        None => {
            return None;
        },
    };
    let lat = match est_latency {
        Some(b) => match parse_u64_digits(b) {
            Some(v) => v,
            None => {
                return None;
            },
        },
        None => {
            return None;
        },
    };
    Some((rif, lat))
}

} // verus!
