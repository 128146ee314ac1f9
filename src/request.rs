use vstd::prelude::*;
use vstd::slice::slice_subrange;
use vstd::string::StringSliceAdditionalSpecFns;

use crate::adj::{lemma_adj_round_trip, AdjRequest};
use crate::decimal::{
    decimal, lemma_decimal_ascii, push_decimal, push_signed_decimal, signed_decimal,
};
use crate::error::Error;
use crate::get::{lemma_token_bijection, GetRequest};
use crate::set::{lemma_set_round_trip, SetRequest};
use crate::{ascii_chars, is_ascii_bytes, lemma_ascii_str_bytes};

verus! {

/// Types of FCP request.
#[derive(Debug, Clone, Copy, PartialEq, Eq, Structural)]
pub enum Request {
    /// The `GET` request.
    Get(GetRequest),
    /// The `SET` request.
    SetTarget(SetRequest),
    /// The `ADJ` (adjust) request.
    Adj(AdjRequest),
}

/// The method words on the wire.
pub open spec fn get_word() -> Seq<u8> {
    seq!['G' as u8, 'E' as u8, 'T' as u8]
}

pub open spec fn set_word() -> Seq<u8> {
    seq!['S' as u8, 'E' as u8, 'T' as u8]
}

pub open spec fn adj_word() -> Seq<u8> {
    seq!['A' as u8, 'D' as u8, 'J' as u8]
}

/// The index of the first space in `s` at or after `i`, or `s.len()` if there
/// is none.
pub open spec fn space_from(s: Seq<u8>, i: int) -> int
    decreases s.len() - i,
{
    if i >= s.len() {
        s.len() as int
    } else if s[i] == ' ' as u8 {
        i
    } else {
        space_from(s, i + 1)
    }
}

impl Request {
    /// The method word of each kind of request.
    pub open spec fn spec_method(self) -> Seq<u8> {
        match self {
            Request::Get(_) => get_word(),
            Request::SetTarget(_) => set_word(),
            Request::Adj(_) => adj_word(),
        }
    }

    /// The canonical text of the value portion.
    pub open spec fn spec_value(self) -> Seq<u8> {
        match self {
            Request::Get(g) => g.spec_token(),
            Request::SetTarget(r) => r.spec_text(),
            Request::Adj(r) => r.spec_text(),
        }
    }

    /// The canonical wire form: method word, one space, value.
    pub open spec fn spec_render(self) -> Seq<u8> {
        self.spec_method() + seq![' ' as u8] + self.spec_value()
    }

    /// A request read from bytes. The method word runs up to the first space;
    /// everything after that space is the value.
    pub open spec fn spec_parse(s: Seq<u8>) -> Result<Request, Error> {
        let k = space_from(s, 0);
        let word = s.subrange(0, k);
        if k < s.len() {
            let val = s.subrange(k + 1, s.len() as int);
            if word == get_word() {
                match GetRequest::spec_parse(val) {
                    Ok(g) => Ok(Request::Get(g)),
                    Err(e) => Err(e),
                }
            } else if word == set_word() {
                match SetRequest::spec_parse(val) {
                    Ok(r) => Ok(Request::SetTarget(r)),
                    Err(e) => Err(e),
                }
            } else if word == adj_word() {
                match AdjRequest::spec_parse(val) {
                    Ok(r) => Ok(Request::Adj(r)),
                    Err(e) => Err(e),
                }
            } else {
                Err(Error::UnknownRequestType)
            }
        } else if word == get_word() || word == set_word() || word == adj_word() {
            Err(Error::MissingValue)
        } else if word.len() == 0 {
            Err(Error::Empty)
        } else {
            Err(Error::UnknownRequestType)
        }
    }

    /// Tries to parse a slice of bytes into a request.
    pub fn parse(s: &[u8]) -> (r: Result<Request, Error>)
        ensures
            r == Request::spec_parse(s@),
    {
        let mut k: usize = 0;
        while k < s.len() && s[k] != ' ' as u8
            invariant
                k <= s@.len(),
                space_from(s@, k as int) == space_from(s@, 0),
            decreases s@.len() - k,
        {
            k = k + 1;
        }
        assert(space_from(s@, k as int) == k);
        if k < s.len() {
            let val = slice_subrange(s, k + 1, s.len());
            if word_is(s, k, 'G' as u8, 'E' as u8, 'T' as u8) {
                match GetRequest::parse(val) {
                    Ok(g) => Ok(Request::Get(g)),
                    Err(e) => Err(e),
                }
            } else if word_is(s, k, 'S' as u8, 'E' as u8, 'T' as u8) {
                match SetRequest::parse(val) {
                    Ok(r) => Ok(Request::SetTarget(r)),
                    Err(e) => Err(e),
                }
            } else if word_is(s, k, 'A' as u8, 'D' as u8, 'J' as u8) {
                match AdjRequest::parse(val) {
                    Ok(r) => Ok(Request::Adj(r)),
                    Err(e) => Err(e),
                }
            } else {
                Err(Error::UnknownRequestType)
            }
        } else if word_is(s, k, 'G' as u8, 'E' as u8, 'T' as u8) || word_is(
            s,
            k,
            'S' as u8,
            'E' as u8,
            'T' as u8,
        ) || word_is(s, k, 'A' as u8, 'D' as u8, 'J' as u8) {
            Err(Error::MissingValue)
        } else if k == 0 {
            Err(Error::Empty)
        } else {
            Err(Error::UnknownRequestType)
        }
    }

    /// The method word (`GET`, `SET` or `ADJ`) of this request.
    pub fn method(&self) -> (r: &'static str)
        ensures
            r@ == ascii_chars(self.spec_method()),
    {
        proof {
            reveal_strlit("GET");
            reveal_strlit("SET");
            reveal_strlit("ADJ");
        }
        let r = match self {
            Request::Get(_) => "GET",
            Request::SetTarget(_) => "SET",
            Request::Adj(_) => "ADJ",
        };
        assert(r@ =~= ascii_chars(self.spec_method()));
        r
    }

    /// The canonical wire form of this request, as bytes.
    pub fn to_bytes(&self) -> (r: Vec<u8>)
        ensures
            r@ == self.spec_render(),
    {
        let mut out: Vec<u8> = Vec::new();
        let m = self.method();
        proof {
            lemma_ascii_str_bytes(m, self.spec_method());
        }
        out.extend_from_slice(m.as_bytes());
        out.push(' ' as u8);
        let ghost head = out@;
        match self {
            Request::Get(g) => {
                let t = g.val_str();
                proof {
                    lemma_ascii_str_bytes(t, g.spec_token());
                }
                out.extend_from_slice(t.as_bytes());
            },
            Request::SetTarget(SetRequest::Auto) => {
                out.push('a' as u8);
            },
            Request::SetTarget(SetRequest::Voltage(n)) => {
                out.push('v' as u8);
                push_decimal(&mut out, *n as u32);
            },
            Request::SetTarget(SetRequest::Percentage(n)) => {
                out.push('%' as u8);
                push_decimal(&mut out, *n as u32);
            },
            Request::Adj(AdjRequest::Voltage(n)) => {
                out.push('v' as u8);
                push_signed_decimal(&mut out, *n as i32);
            },
            Request::Adj(AdjRequest::Percentage(n)) => {
                out.push('%' as u8);
                push_signed_decimal(&mut out, *n as i32);
            },
        }
        assert(out@ =~= self.spec_render());
        out
    }

    /// The canonical wire form of this request, as text.
    pub fn to_string(&self) -> (r: String)
        ensures
            r@ == ascii_chars(self.spec_render()),
    {
        let b = self.to_bytes();
        proof {
            lemma_render_ascii(*self);
        }
        ascii_to_string(b)
    }
}

impl core::str::FromStr for Request {
    type Err = Error;

    fn from_str(s: &str) -> (r: Result<Request, Error>)
        ensures
            r == Request::spec_parse(s.spec_bytes()),
    {
        Request::parse(s.as_bytes())
    }
}

/// Relies on `String::from_utf8`: ASCII bytes are valid UTF-8, and each one
/// encodes the character of the same code.
#[verifier::external_body]
fn ascii_to_string(b: Vec<u8>) -> (r: String)
    requires
        is_ascii_bytes(b@),
    ensures
        r@ == ascii_chars(b@),
{
    String::from_utf8(b).unwrap_or_default()
}

/// The canonical wire form is ASCII.
pub proof fn lemma_render_ascii(r: Request)
    ensures
        is_ascii_bytes(r.spec_render()),
{
    let s = r.spec_render();
    let v = r.spec_value();
    let n: int = match r {
        Request::SetTarget(SetRequest::Voltage(n)) => n as int,
        Request::SetTarget(SetRequest::Percentage(n)) => n as int,
        Request::Adj(AdjRequest::Voltage(n)) => n as int,
        Request::Adj(AdjRequest::Percentage(n)) => n as int,
        _ => 0,
    };
    lemma_decimal_ascii(n);
    assert(n >= 0 ==> signed_decimal(n) == decimal(n as nat));
    assert forall|i: int| 0 <= i < s.len() implies #[trigger] s[i] < 128 by {
        if i >= 4 {
            assert(s[i] == v[i - 4]);
            if i >= 5 && !(r is Get) {
                assert(v[i - 4] == signed_decimal(n)[i - 5]);
            }
        }
    }
}

/// Parsing the canonical wire form of a request gives back that request.
pub proof fn lemma_round_trip(r: Request)
    ensures
        Request::spec_parse(r.spec_render()) == Ok::<Request, Error>(r),
{
    let s = r.spec_render();
    assert(s[3] == ' ' as u8);
    assert(space_from(s, 3) == 3);
    assert(space_from(s, 2) == 3);
    assert(space_from(s, 1) == 3);
    assert(space_from(s, 0) == 3);
    assert(s.subrange(0, 3) =~= r.spec_method());
    assert(s.subrange(4, s.len() as int) =~= r.spec_value());
    assert(set_word()[0] != get_word()[0] && adj_word()[0] != get_word()[0]);
    assert(adj_word()[0] != set_word()[0]);
    match r {
        Request::Get(g) => lemma_token_bijection(g, g),
        Request::SetTarget(x) => lemma_set_round_trip(x),
        Request::Adj(x) => lemma_adj_round_trip(x),
    }
}

/// Whether `s[..end]` is the three-letter word `w0 w1 w2`.
fn word_is(s: &[u8], end: usize, w0: u8, w1: u8, w2: u8) -> (r: bool)
    requires
        end <= s@.len(),
    ensures
        r == (s@.subrange(0, end as int) == seq![w0, w1, w2]),
{
    let r = end == 3 && s[0] == w0 && s[1] == w1 && s[2] == w2;
    proof {
        let w = s@.subrange(0, end as int);
        if r {
            assert(w =~= seq![w0, w1, w2]);
        } else if w == seq![w0, w1, w2] {
            assert(seq![w0, w1, w2].len() == 3);
            assert(w[0] == w0 && w[1] == w1 && w[2] == w2);
            assert(s@[0] == w[0] && s@[1] == w[1] && s@[2] == w[2]);
        }
    }
    r
}

} // verus!
