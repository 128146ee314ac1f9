use vstd::prelude::*;

use crate::decimal::{lemma_signed_decimal, parse_signed, signed_decimal, signed_value};
use crate::error::Error;

verus! {

/// Kinds of `ADJ` (adjust) request: signed deltas.
#[derive(Debug, Clone, Copy, PartialEq, Eq, Structural)]
pub enum AdjRequest {
    Voltage(i16),
    Percentage(i8),
}

impl AdjRequest {
    /// The value of an `ADJ`: `v` / `%` followed by a signed number that fits
    /// the field.
    pub open spec fn spec_parse(val: Seq<u8>) -> Result<AdjRequest, Error> {
        if val.len() == 0 {
            Err(Error::MissingValue)
        } else if val[0] == 'v' as u8 {
            match signed_value(val.drop_first()) {
                Some(n) => if i16::MIN <= n <= i16::MAX {
                    Ok(AdjRequest::Voltage(n as i16))
                } else {
                    Err(Error::InvalidValue)
                },
                None => Err(Error::InvalidValue),
            }
        } else if val[0] == '%' as u8 {
            match signed_value(val.drop_first()) {
                Some(n) => if i8::MIN <= n <= i8::MAX {
                    Ok(AdjRequest::Percentage(n as i8))
                } else {
                    Err(Error::InvalidValue)
                },
                None => Err(Error::InvalidValue),
            }
        } else {
            Err(Error::InvalidValue)
        }
    }

    /// The canonical text of the value: `v<n>` or `%<n>`, with `-` before a
    /// negative delta and no sign before any other.
    pub open spec fn spec_text(self) -> Seq<u8> {
        match self {
            AdjRequest::Voltage(n) => seq!['v' as u8] + signed_decimal(n as int),
            AdjRequest::Percentage(n) => seq!['%' as u8] + signed_decimal(n as int),
        }
    }

    /// Parses the value portion of an `ADJ` request.
    pub fn parse(val: &[u8]) -> (r: Result<AdjRequest, Error>)
        ensures
            r == AdjRequest::spec_parse(val@),
    {
        if val.len() == 0 {
            return Err(Error::MissingValue);
        }
        assert(val@.drop_first() =~= val@.subrange(1, val@.len() as int));
        let first = val[0];
        if first == 'v' as u8 {
            match parse_signed(val, 1, 32768, 32767) {
                Some(n) => Ok(AdjRequest::Voltage(n as i16)),
                None => Err(Error::InvalidValue),
            }
        } else if first == '%' as u8 {
            match parse_signed(val, 1, 128, 127) {
                Some(n) => Ok(AdjRequest::Percentage(n as i8)),
                None => Err(Error::InvalidValue),
            }
        } else {
            Err(Error::InvalidValue)
        }
    }
}

/// The canonical text of every `ADJ` value parses back to that value.
pub proof fn lemma_adj_round_trip(r: AdjRequest)
    ensures
        AdjRequest::spec_parse(r.spec_text()) == Ok::<AdjRequest, Error>(r),
{
    match r {
        AdjRequest::Voltage(n) => {
            lemma_signed_decimal(n as int);
            assert(r.spec_text().drop_first() =~= signed_decimal(n as int));
        },
        AdjRequest::Percentage(n) => {
            lemma_signed_decimal(n as int);
            assert(r.spec_text().drop_first() =~= signed_decimal(n as int));
        },
    }
}

} // verus!
