//! Control-plane server rules: the listening port resolved from an
//! environment-style setting, the hard ceiling on an upload's size, and
//! the mapping from a failed request to the status line it is answered
//! with.
//!
//! The server itself — TLS, routing, the suspended handshake response —
//! runs outside the library and consults these rules.

use vstd::prelude::*;

use vstd::string::StringSliceAdditionalSpecFns;

use crate::DEFAULT_CONTROL_PORT;

verus! {

/// The hard ceiling on one upload request's payload: five gibibytes.
pub const MAX_UPLOAD_BYTES: u64 = 5368709120;

/// Whether a declared or observed payload size must be rejected before
/// the body is received in full.
pub fn upload_oversized(total_bytes: u64) -> (r: bool)
    ensures
        r == (total_bytes > MAX_UPLOAD_BYTES),
{
    total_bytes > MAX_UPLOAD_BYTES
}

/// Marker for a request that failed inside the server; answered as a
/// plain server error, never a crash.
#[derive(Debug)]
pub struct InternalServerError;

/// How a failed request is classified before it is answered.
#[derive(Clone, Copy, Debug, PartialEq, Eq)]
pub enum RejectionKind {
    /// An internal failure: a storage or stream error, or a handshake
    /// that timed out undecided.
    InternalError,
    /// No route matches the request.
    NotFound,
    /// The upload ceiling is exceeded.
    PayloadTooLarge,
    /// Anything else the server refuses.
    Other,
}

/// The status code and body a rejected request is answered with.
pub fn rejection_response(kind: RejectionKind) -> (r: (u16, &'static str))
    ensures
        kind is InternalError ==> r.0 == 500 && r.1@ == "Internal Server Error"@,
        kind is NotFound ==> r.0 == 404 && r.1@ == "Not Found"@,
        kind is PayloadTooLarge ==> r.0 == 413 && r.1@ == "Payload too large"@,
        kind is Other ==> r.0 == 500 && r.1@ == "Internal Server Error"@,
{
    match kind {
        RejectionKind::InternalError => (500, "Internal Server Error"),
        RejectionKind::NotFound => (404, "Not Found"),
        RejectionKind::PayloadTooLarge => (413, "Payload too large"),
        RejectionKind::Other => (500, "Internal Server Error"),
    }
}

/// Whether every byte is a decimal digit.
pub open spec fn all_digits(s: Seq<u8>) -> bool {
    forall|i: int| 0 <= i < s.len() ==> 48 <= #[trigger] s[i] <= 57
}

/// The number the decimal digits `s` denote.
pub open spec fn digits_value(s: Seq<u8>) -> int
    decreases s.len(),
{
    if s.len() == 0 {
        0
    } else {
        digits_value(s.drop_last()) * 10 + (s.last() - 48)
    }
}

proof fn lemma_digits_value_bounds(s: Seq<u8>, k: int)
    requires
        all_digits(s),
        0 <= k <= s.len(),
    ensures
        0 <= digits_value(s.take(k)) <= digits_value(s),
    decreases s.len() - k,
{
    if k == s.len() {
        assert(s.take(k) =~= s);
        lemma_digits_value_nonneg(s);
    } else {
        lemma_digits_value_bounds(s, k + 1);
        assert(s.take(k + 1).drop_last() =~= s.take(k));
        assert(s.take(k + 1).last() == s[k]);
        lemma_digits_value_nonneg(s.take(k));
    }
}

proof fn lemma_digits_value_nonneg(s: Seq<u8>)
    requires
        all_digits(s),
    ensures
        digits_value(s) >= 0,
    decreases s.len(),
{
    if s.len() > 0 {
        assert(all_digits(s.drop_last()));
        lemma_digits_value_nonneg(s.drop_last());
    }
}

/// How a port setting parses: an optional leading `+`, then at least one
/// decimal digit, denoting a value of at most `65535`; anything else is
/// no port.
pub open spec fn spec_parse_port(s: Seq<u8>) -> Option<u16> {
    let digits = if s.len() >= 1 && s[0] == 43 {
        s.drop_first()
    } else {
        s
    };
    if digits.len() >= 1 && all_digits(digits) && digits_value(digits) <= 65535 {
        Some(digits_value(digits) as u16)
    } else {
        None
    }
}

/// Parse a port number from the bytes of a setting's value.
pub fn parse_port(s: &[u8]) -> (r: Option<u16>)
    ensures
        r == spec_parse_port(s@),
{
    let start: usize = if s.len() >= 1 && s[0] == 43 {
        1
    } else {
        0
    };
    let ghost digits = if s@.len() >= 1 && s@[0] == 43 {
        s@.drop_first()
    } else {
        s@
    };
    proof {
        assert(digits =~= s@.subrange(start as int, s@.len() as int));
    }
    if s.len() == start {
        return None;
    }
    let mut value: u32 = 0;
    let mut j: usize = start;
    while j < s.len()
        invariant
            start <= j <= s@.len(),
            s@.len() >= start + 1,
            start == if s@.len() >= 1 && s@[0] == 43 {
                1int
            } else {
                0int
            },
            digits == if s@.len() >= 1 && s@[0] == 43 {
                s@.drop_first()
            } else {
                s@
            },
            digits == s@.subrange(start as int, s@.len() as int),
            all_digits(digits.take(j - start)),
            value == digits_value(digits.take(j - start)),
            value <= 65535,
        decreases s@.len() - j,
    {
        let b = s[j];
        proof {
            assert(digits.take(j + 1 - start).drop_last() =~= digits.take(j - start));
            assert(digits[j - start] == s@[j as int]);
            assert(digits.take(j + 1 - start).last() == digits[j - start]);
        }
        if b < 48 || b > 57 {
            proof {
                assert(!all_digits(digits));
            }
            return None;
        }
        value = value * 10 + ((b - 48) as u32);
        proof {
            assert forall|i: int| 0 <= i < j + 1 - start implies 48 <= #[trigger] digits.take(
                j + 1 - start,
            )[i] <= 57 by {
                if i < j - start {
                    assert(digits.take(j - start)[i] == digits.take(j + 1 - start)[i]);
                }
            }
            assert(value == digits_value(digits.take(j + 1 - start)));
        }
        j = j + 1;
        if value > 65535 {
            proof {
                if all_digits(digits) {
                    lemma_digits_value_bounds(digits, j - start);
                }
            }
            return None;
        }
    }
    proof {
        assert(digits.take(s@.len() - start) =~= digits);
    }
    Some(value as u16)
}

/// The control-plane port: the setting's value when it parses as a port,
/// and the default when the setting is absent or unparsable.
pub fn resolve_control_port(setting: Option<&str>) -> (r: u16)
    ensures
        match setting {
            Some(s) => r == (match spec_parse_port(s.spec_bytes()) {
                Some(p) => p,
                None => DEFAULT_CONTROL_PORT,
            }),
            None => r == DEFAULT_CONTROL_PORT,
        },
{
    match setting {
        Some(s) => {
            let parsed = parse_port(s.as_bytes());
            match parsed {
                Some(p) => p,
                None => DEFAULT_CONTROL_PORT,
            }
        },
        None => DEFAULT_CONTROL_PORT,
    }
}

} // verus!
