use vstd::prelude::*;

use crate::decimal::{decimal, lemma_decimal_unsigned, parse_unsigned, unsigned_value};
use crate::error::Error;

verus! {

/// Kinds of `SET` request: absolute targets.
#[derive(Debug, Clone, Copy, PartialEq, Eq, Structural)]
pub enum SetRequest {
    Auto,
    Voltage(u16),
    Percentage(u8),
}

impl SetRequest {
    /// The value of a `SET`: `a`, or `v` / `%` followed by an unsigned number
    /// that fits the field.
    pub open spec fn spec_parse(val: Seq<u8>) -> Result<SetRequest, Error> {
        if val.len() == 0 {
            Err(Error::MissingValue)
        } else if val[0] == 'a' as u8 && val.len() == 1 {
            Ok(SetRequest::Auto)
        } else if val[0] == 'v' as u8 {
            match unsigned_value(val.drop_first()) {
                Some(n) => if n <= u16::MAX {
                    Ok(SetRequest::Voltage(n as u16))
                } else {
                    Err(Error::InvalidValue)
                },
                None => Err(Error::InvalidValue),
            }
        } else if val[0] == '%' as u8 {
            match unsigned_value(val.drop_first()) {
                Some(n) => if n <= u8::MAX {
                    Ok(SetRequest::Percentage(n as u8))
                } else {
                    Err(Error::InvalidValue)
                },
                None => Err(Error::InvalidValue),
            }
        } else {
            Err(Error::InvalidValue)
        }
    }

    /// The canonical text of the value: `a`, `v<n>` or `%<n>`.
    pub open spec fn spec_text(self) -> Seq<u8> {
        match self {
            SetRequest::Auto => seq!['a' as u8],
            SetRequest::Voltage(n) => seq!['v' as u8] + decimal(n as nat),
            SetRequest::Percentage(n) => seq!['%' as u8] + decimal(n as nat),
        }
    }

    /// Parses the value portion of a `SET` request.
    pub fn parse(val: &[u8]) -> (r: Result<SetRequest, Error>)
        ensures
            r == SetRequest::spec_parse(val@),
    {
        if val.len() == 0 {
            return Err(Error::MissingValue);
        }
        assert(val@.drop_first() =~= val@.subrange(1, val@.len() as int));
        let first = val[0];
        if first == 'a' as u8 && val.len() == 1 {
            Ok(SetRequest::Auto)
        } else if first == 'v' as u8 {
            match parse_unsigned(val, 1, 65535) {
                Some(n) => Ok(SetRequest::Voltage(n as u16)),
                None => Err(Error::InvalidValue),
            }
        } else if first == '%' as u8 {
            match parse_unsigned(val, 1, 255) {
                Some(n) => Ok(SetRequest::Percentage(n as u8)),
                None => Err(Error::InvalidValue),
            }
        } else {
            Err(Error::InvalidValue)
        }
    }
}

/// The canonical text of every `SET` value parses back to that value.
pub proof fn lemma_set_round_trip(r: SetRequest)
    ensures
        SetRequest::spec_parse(r.spec_text()) == Ok::<SetRequest, Error>(r),
{
    match r {
        SetRequest::Auto => {},
        SetRequest::Voltage(n) => {
            lemma_decimal_unsigned(n as nat);
            assert(r.spec_text().drop_first() =~= decimal(n as nat));
        },
        SetRequest::Percentage(n) => {
            lemma_decimal_unsigned(n as nat);
            assert(r.spec_text().drop_first() =~= decimal(n as nat));
        },
    }
}

} // verus!
