//! Beacon pulses as the core sees them.
//!
//! A pulse carries exactly 64 bytes of entropy, published as a 128-digit
//! uppercase hexadecimal string together with an RFC 3339 timestamp.  The
//! hex decoding is verified here; the timestamp is checked through the
//! `time` crate and recorded as a Unix instant.

use vstd::prelude::*;
use crate::errors::SamplerError;

verus! {

/// Uppercase hexadecimal digit.
pub open spec fn is_hex_digit(c: char) -> bool {
    (48 <= c as int && c as int <= 57) || (65 <= c as int && c as int <= 70)
}

/// Numeric value of an uppercase hexadecimal digit.
pub open spec fn hex_digit_val(c: char) -> u8
    recommends
        is_hex_digit(c),
{
    if 48 <= c as int && c as int <= 57 {
        (c as int - 48) as u8
    } else {
        (c as int - 55) as u8
    }
}

/// A well-formed output encoding: exactly 128 uppercase hex digits.
pub open spec fn is_hex_output(s: Seq<char>) -> bool {
    s.len() == 128 && (forall|i: int| 0 <= i < s.len() ==> is_hex_digit(#[trigger] s[i]))
}

/// The bytes a hex string denotes, two digits per byte, high digit first.
pub open spec fn hex_bytes(s: Seq<char>) -> Seq<u8> {
    Seq::new(
        s.len() / 2,
        |i: int| (16 * hex_digit_val(s[2 * i]) + hex_digit_val(s[2 * i + 1])) as u8,
    )
}

/// The instant, in Unix seconds, that an RFC 3339 timestamp string denotes,
/// or nothing if the string is malformed.  Named, not spelled out: the
/// grammar lives in the `time` crate.
pub uninterp spec fn rfc3339_epoch(s: Seq<char>) -> Option<i64>;

/// Relies on `time::OffsetDateTime::parse` with the RFC 3339 well-known
/// format, and on `unix_timestamp`: whether a timestamp string parses, and
/// the instant it denotes, depend on the characters alone.
#[verifier::external_body]
fn parse_rfc3339_epoch(s: &str) -> (r: Option<i64>)
    ensures
        r == rfc3339_epoch(s@),
{
    match time::OffsetDateTime::parse(s, &time::format_description::well_known::Rfc3339) {
        Ok(t) => Some(t.unix_timestamp()),
        Err(_) => None,
    }
}

/// Decode one uppercase hexadecimal digit.
pub fn hex_digit(c: char) -> (r: Option<u8>)
    ensures
        r is Some <==> is_hex_digit(c),
        r matches Some(v) ==> v == hex_digit_val(c) && v < 16,
{
    let v = c as u32;
    if 48 <= v && v <= 57 {
        Some((v - 48) as u8)
    } else if 65 <= v && v <= 70 {
        Some((v - 55) as u8)
    } else {
        None
    }
}

/// Decode a pulse's output value: exactly 128 uppercase hex digits for
/// exactly 64 bytes.
pub fn parse_hex_output(s: &str) -> (r: Option<Vec<u8>>)
    ensures
        r is Some <==> is_hex_output(s@),
        r matches Some(v) ==> v@ == hex_bytes(s@) && v@.len() == 64,
{
    let len = s.unicode_len();
    if len != 128 {
        return None;
    }
    let mut out: Vec<u8> = Vec::new();
    let mut i: usize = 0;
    while i < 64
        invariant
            s@.len() == 128,
            i <= 64,
            out@.len() == i,
            forall|t: int| 0 <= t < 2 * i ==> is_hex_digit(#[trigger] s@[t]),
            forall|t: int| 0 <= t < i ==> out@[t] == hex_bytes(s@)[t],
        decreases 64 - i,
    {
        let hi = s.get_char(2 * i);
        let lo = s.get_char(2 * i + 1);
        let hv = match hex_digit(hi) {
            Some(v) => v,
            None => {
                return None;
            },
        };
        let lv = match hex_digit(lo) {
            Some(v) => v,
            None => {
                return None;
            },
        };
        out.push(16 * hv + lv);
        i = i + 1;
    }
    Some(out)
}

/// One beacon pulse, as recorded by the ledger: a chain and pulse index
/// forming its unique key, its URI, its timestamp as a Unix instant, and
/// its 64 bytes of entropy.
pub struct PulseRecord {
    /// Identifies the randomness chain the pulse belongs to.
    pub chain_index: i32,
    /// Monotonically increasing within a chain.
    pub pulse_index: i64,
    /// String identifier of the pulse.
    pub uri: String,
    /// Publication instant, in Unix seconds, UTC.
    pub timestamp: i64,
    /// Exactly 64 bytes of entropy.
    pub output_value: Vec<u8>,
}

impl PulseRecord {
    /// A pulse carries exactly one full width of entropy.
    pub open spec fn wf(self) -> bool {
        self.output_value@.len() == 64
    }

    /// Build a record from the fields of a fetched beacon payload,
    /// validating the hex-encoded output and the RFC 3339 timestamp.
    /// Fails with `ParseError` exactly when either is malformed.
    pub fn from_parts(
        uri: String,
        chain_index: i32,
        pulse_index: i64,
        timestamp: &str,
        output_hex: &str,
    ) -> (r: Result<PulseRecord, SamplerError>)
        ensures
            r is Ok <==> is_hex_output(output_hex@) && rfc3339_epoch(timestamp@) is Some,
            r matches Ok(rec) ==> ({
                &&& rec.wf()
                &&& rec.chain_index == chain_index
                &&& rec.pulse_index == pulse_index
                &&& rec.uri@ == uri@
                &&& Some(rec.timestamp) == rfc3339_epoch(timestamp@)
                &&& rec.output_value@ == hex_bytes(output_hex@)
            }),
            r matches Err(e) ==> e == SamplerError::ParseError,
    {
        let output_value = match parse_hex_output(output_hex) {
            Some(v) => v,
            None => {
                return Err(SamplerError::ParseError);
            },
        };
        let ts = match parse_rfc3339_epoch(timestamp) {
            Some(t) => t,
            None => {
                return Err(SamplerError::ParseError);
            },
        };
        Ok(PulseRecord { chain_index, pulse_index, uri, timestamp: ts, output_value })
    }
}

} // verus!
