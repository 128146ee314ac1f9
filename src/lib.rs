//! Codec for FCP, a line-oriented ASCII protocol used to query and control a
//! fan / voltage regulator. Requests are parsed from bytes into typed values
//! and rendered back into their canonical wire form.
use vstd::prelude::*;
use vstd::string::StringSliceAdditionalSpecFns;

pub mod adj;
pub mod decimal;
pub mod error;
pub mod get;
pub mod request;
pub mod response;
pub mod set;

pub use adj::AdjRequest;
pub use error::Error;
pub use get::GetRequest;
pub use request::Request;
pub use response::Response;
pub use set::SetRequest;

verus! {

/// ASCII bytes read as the characters they encode.
pub open spec fn ascii_chars(s: Seq<u8>) -> Seq<char> {
    s.map_values(|b: u8| b as char)
}

/// Every byte is below 128.
pub open spec fn is_ascii_bytes(s: Seq<u8>) -> bool {
    forall|i: int| 0 <= i < s.len() ==> #[trigger] s[i] < 128
}

/// A text whose characters are the ASCII bytes `b` is encoded as `b` itself.
pub proof fn lemma_ascii_str_bytes(t: &str, b: Seq<u8>)
    requires
        t@ == ascii_chars(b),
        is_ascii_bytes(b),
    ensures
        t.spec_bytes() == b,
{
    broadcast use vstd::string::is_ascii_spec_bytes;

    assert(vstd::utf8::is_ascii_chars(t@)) by {
        assert forall|i: int| 0 <= i < t@.len() implies '\0' <= #[trigger] t@[i] <= '\u{7f}' by {
            assert(t@[i] == b[i] as char);
        }
    }
    assert(vstd::string::is_ascii(t));
    assert forall|i: int| 0 <= i < b.len() implies t.spec_bytes()[i] == b[i] by {
        assert(t@[i] == b[i] as char);
        assert((b[i] as char) as u8 == b[i]);
    }
    assert(t.spec_bytes() =~= b);
}

} // verus!
