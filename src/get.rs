use vstd::prelude::*;

use crate::ascii_chars;
use crate::error::Error;

verus! {

/// Kinds of `GET` request.
#[derive(Debug, Clone, Copy, PartialEq, Eq, Structural)]
pub enum GetRequest {
    All,
    Config,
    Percentage,
    Temperature,
    Voltage,
}

impl GetRequest {
    /// The token that names each kind on the wire.
    pub open spec fn spec_token(self) -> Seq<u8> {
        match self {
            GetRequest::All => seq!['a' as u8, 'l' as u8, 'l' as u8],
            GetRequest::Config => seq!['c' as u8, 'f' as u8, 'g' as u8],
            GetRequest::Percentage => seq!['%' as u8],
            GetRequest::Temperature => seq!['t' as u8, 'e' as u8, 'm' as u8, 'p' as u8],
            GetRequest::Voltage => seq!['v' as u8, 'o' as u8, 'l' as u8, 't' as u8],
        }
    }

    /// The value of a `GET`: exactly one of the tokens.
    pub open spec fn spec_parse(val: Seq<u8>) -> Result<GetRequest, Error> {
        if val == GetRequest::All.spec_token() {
            Ok(GetRequest::All)
        } else if val == GetRequest::Config.spec_token() {
            Ok(GetRequest::Config)
        } else if val == GetRequest::Percentage.spec_token() {
            Ok(GetRequest::Percentage)
        } else if val == GetRequest::Temperature.spec_token() {
            Ok(GetRequest::Temperature)
        } else if val == GetRequest::Voltage.spec_token() {
            Ok(GetRequest::Voltage)
        } else {
            Err(Error::InvalidValue)
        }
    }

    /// Parses the value portion of a `GET` request. Anything but one of the
    /// tokens, the empty value included, is `InvalidValue`.
    pub fn parse(val: &[u8]) -> (r: Result<GetRequest, Error>)
        ensures
            r == GetRequest::spec_parse(val@),
    {
        let n = val.len();
        if n == 3 && val[0] == 'a' as u8 && val[1] == 'l' as u8 && val[2] == 'l' as u8 {
            assert(val@ =~= GetRequest::All.spec_token());
            Ok(GetRequest::All)
        } else if n == 3 && val[0] == 'c' as u8 && val[1] == 'f' as u8 && val[2] == 'g' as u8 {
            assert(val@ =~= GetRequest::Config.spec_token());
            Ok(GetRequest::Config)
        } else if n == 1 && val[0] == '%' as u8 {
            assert(val@ =~= GetRequest::Percentage.spec_token());
            Ok(GetRequest::Percentage)
        } else if n == 4 && val[0] == 't' as u8 && val[1] == 'e' as u8 && val[2] == 'm' as u8 && val[3] == 'p' as u8 {
            assert(val@ =~= GetRequest::Temperature.spec_token());
            Ok(GetRequest::Temperature)
        } else if n == 4 && val[0] == 'v' as u8 && val[1] == 'o' as u8 && val[2] == 'l' as u8 && val[3] == 't' as u8 {
            assert(val@ =~= GetRequest::Voltage.spec_token());
            Ok(GetRequest::Voltage)
        } else {
            Err(Error::InvalidValue)
        }
    }

    /// The token of this kind, as text.
    pub fn val_str(&self) -> (r: &'static str)
        ensures
            r@ == ascii_chars(self.spec_token()),
    {
        proof {
            reveal_strlit("all");
            reveal_strlit("cfg");
            reveal_strlit("%");
            reveal_strlit("temp");
            reveal_strlit("volt");
        }
        let r = match self {
            GetRequest::All => "all",
            GetRequest::Voltage => "volt",
            GetRequest::Config => "cfg",
            GetRequest::Temperature => "temp",
            GetRequest::Percentage => "%",
        };
        assert(r@ =~= ascii_chars(self.spec_token()));
        r
    }
}

/// Each kind's token parses back to that kind, and no two kinds share a token.
pub proof fn lemma_token_bijection(g: GetRequest, h: GetRequest)
    ensures
        GetRequest::spec_parse(g.spec_token()) == Ok::<GetRequest, Error>(g),
        g.spec_token() == h.spec_token() ==> g == h,
{
    // The tokens already differ in their first byte.
    assert forall|k: GetRequest| #[trigger] k.spec_token() == g.spec_token() implies k == g by {
        assert(k.spec_token()[0] == g.spec_token()[0]);
    }
    if g.spec_token() == h.spec_token() {
        assert(h.spec_token() == g.spec_token());
    }
}

} // verus!
