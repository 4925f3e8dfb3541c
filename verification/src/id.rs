//! Request ids: an integer or a string.
use crate::json::{i64_number, DecodeError, JsonNumber, JsonValue};
use crate::stream::{debug_string, debug_text, string_from_utf8};
use crate::text::{
    decimal, lemma_ascii_valid, lemma_decimal_len, lemma_decimal_no_leading_zero,
    lemma_parse_decimal, push_decimal, spec_parse_usize, IntErrorKind,
};
use vstd::prelude::*;
use vstd::utf8::{decode_utf8, encode_utf8};

verus! {

/// The id of a request, which its response carries back.
#[derive(Debug, Clone, PartialEq, Eq, PartialOrd, Ord, Hash)]
pub struct RequestId(IdRepr);

#[derive(Debug, Clone, PartialEq, Eq, PartialOrd, Ord, Hash)]
enum IdRepr {
    I32(i32),
    String(String),
}

/// What a request id holds.
pub enum IdView {
    Int(i32),
    Text(Seq<char>),
}

impl View for RequestId {
    type V = IdView;

    closed spec fn view(&self) -> IdView {
        match self.0 {
            IdRepr::I32(n) => IdView::Int(n),
            IdRepr::String(s) => IdView::Text(s@),
        }
    }
}

impl From<i32> for RequestId {
    fn from(id: i32) -> (r: RequestId) {
        RequestId(IdRepr::I32(id))
    }
}

impl vstd::std_specs::convert::FromSpecImpl<i32> for RequestId {
    open spec fn obeys_from_spec() -> bool {
        true
    }

    open spec fn from_spec(v: i32) -> RequestId {
        RequestId::of_int(v)
    }
}

impl From<String> for RequestId {
    fn from(id: String) -> (r: RequestId) {
        RequestId(IdRepr::String(id))
    }
}

impl vstd::std_specs::convert::FromSpecImpl<String> for RequestId {
    open spec fn obeys_from_spec() -> bool {
        true
    }

    open spec fn from_spec(v: String) -> RequestId {
        RequestId::of_text(v)
    }
}

/// The ASCII text of an `i32` in decimal, with `-` before a negative one.
pub open spec fn int_text(n: i32) -> Seq<u8> {
    if n < 0 {
        seq![45u8] + decimal((-n) as nat)
    } else {
        decimal(n as nat)
    }
}

impl RequestId {
    /// The id that is the integer `n`.
    pub closed spec fn of_int(n: i32) -> RequestId {
        RequestId(IdRepr::I32(n))
    }

    /// The id that is the string `s`.
    pub closed spec fn of_text(s: String) -> RequestId {
        RequestId(IdRepr::String(s))
    }

    /// What the ids built from an integer and from a string hold.
    pub proof fn lemma_views(n: i32, s: String)
        ensures
            RequestId::of_int(n)@ == IdView::Int(n),
            RequestId::of_text(s)@ == IdView::Text(s@),
            RequestId::of_int(n).json() == JsonValue::Number(i64_number(n as i64)),
            RequestId::of_text(s).json() == JsonValue::String(s),
    {
    }

    /// The JSON form of the id: an integer id as a number, a string id as a
    /// string.
    pub closed spec fn json(self) -> JsonValue {
        match self.0 {
            IdRepr::I32(n) => JsonValue::Number(i64_number(n as i64)),
            IdRepr::String(s) => JsonValue::String(s),
        }
    }

    /// The id that a JSON value stands for: an integer (cut to its low 32
    /// bits, as `as i32` does) or a string; any other value is refused.
    pub closed spec fn decode(v: JsonValue) -> Result<RequestId, DecodeError> {
        match v {
            JsonValue::Number(JsonNumber::PosInt(u)) => Ok(RequestId(IdRepr::I32(u as i32))),
            JsonValue::Number(JsonNumber::NegInt(i)) => Ok(RequestId(IdRepr::I32(i as i32))),
            JsonValue::String(s) => Ok(RequestId(IdRepr::String(s))),
            other => Err(DecodeError::InvalidId(other)),
        }
    }

    /// How the id is shown: an integer in decimal, a string as `{:?}` shows
    /// it (quoted, with escapes).
    pub closed spec fn display(self) -> Seq<char> {
        match self.0 {
            IdRepr::I32(n) => decode_utf8(int_text(n)),
            IdRepr::String(s) => debug_text(s@),
        }
    }

    /// Which JSON values are ids: a non-negative integer (cut to its low 32
    /// bits), a negative integer (likewise), a string; every other value
    /// (`null`, a boolean, a float, an array, an object) is refused with
    /// `InvalidId`.
    pub proof fn lemma_decode_cases(v: JsonValue)
        ensures
            v matches JsonValue::Number(JsonNumber::PosInt(u)) ==> RequestId::decode(v) == Ok::<
                RequestId,
                DecodeError,
            >(RequestId::of_int(u as i32)),
            v matches JsonValue::Number(JsonNumber::NegInt(i)) ==> RequestId::decode(v) == Ok::<
                RequestId,
                DecodeError,
            >(RequestId::of_int(i as i32)),
            v matches JsonValue::String(s) ==> RequestId::decode(v) == Ok::<RequestId, DecodeError>(
                RequestId::of_text(s),
            ),
            !(v matches JsonValue::Number(JsonNumber::PosInt(_))) && !(v matches JsonValue::Number(
                JsonNumber::NegInt(_),
            )) && !(v is String) ==> RequestId::decode(v) == Err::<RequestId, DecodeError>(
                DecodeError::InvalidId(v),
            ),
    {
    }

    /// How ids are shown: an integer by `int_text`, a string by `{:?}`.
    pub proof fn lemma_display_cases(n: i32, s: String)
        ensures
            RequestId::of_int(n).display() == decode_utf8(int_text(n)),
            RequestId::of_text(s).display() == debug_text(s@),
    {
    }

    /// An integer id is shown as `std` shows an `i32`: its text is not
    /// empty; for `n >= 0` it is digits without a leading zero (unless it is
    /// just `0`) that parse back to `n`; for `n < 0` it is `-` followed by
    /// such digits for `-n`.
    pub proof fn lemma_int_display(n: i32)
        ensures
            encode_utf8(RequestId::of_int(n).display()).len() > 0,
            n >= 0 ==> spec_parse_usize(encode_utf8(RequestId::of_int(n).display())) == Ok::<
                usize,
                IntErrorKind,
            >(n as usize),
            n >= 0 && encode_utf8(RequestId::of_int(n).display())[0] == 48 ==> n == 0 && encode_utf8(
                RequestId::of_int(n).display(),
            ).len() == 1,
            n < 0 ==> encode_utf8(RequestId::of_int(n).display())[0] == 45,
            n < 0 ==> spec_parse_usize(encode_utf8(RequestId::of_int(n).display()).drop_first())
                == Ok::<usize, IntErrorKind>((-n) as usize),
            n < 0 ==> encode_utf8(RequestId::of_int(n).display())[1] != 48,
    {
        let t = int_text(n);
        let m: nat = if n < 0 {
            (-n) as nat
        } else {
            n as nat
        };
        lemma_decimal_len(m);
        lemma_parse_decimal(m);
        assert forall|i: int| 0 <= i < t.len() implies t[i] < 128 by {
            if n < 0 && i > 0 {
                assert(t[i] == decimal(m)[i - 1]);
            }
        }
        lemma_ascii_valid(t);
        vstd::utf8::decode_utf8_encode_utf8(t);
        if n < 0 {
            assert(t.drop_first() =~= decimal(m));
            lemma_decimal_no_leading_zero(m);
        } else if n > 0 {
            lemma_decimal_no_leading_zero(m);
        }
    }

    /// An id read back from its JSON form is the same id.
    pub proof fn lemma_json_roundtrip(self)
        ensures
            RequestId::decode(self.json()) == Ok::<RequestId, DecodeError>(self),
    {
    }

    /// The JSON form of the id.
    pub fn into_json(self) -> (v: JsonValue)
        ensures
            v == self.json(),
    {
        match self.0 {
            IdRepr::I32(n) => JsonValue::Number(JsonNumber::from_i64(n as i64)),
            IdRepr::String(s) => JsonValue::String(s),
        }
    }

    /// The id that a JSON value stands for.
    pub fn from_json(v: JsonValue) -> (r: Result<RequestId, DecodeError>)
        ensures
            r == RequestId::decode(v),
    {
        match v {
            JsonValue::Number(JsonNumber::PosInt(u)) => Ok(RequestId(IdRepr::I32(u as i32))),
            JsonValue::Number(JsonNumber::NegInt(i)) => Ok(RequestId(IdRepr::I32(i as i32))),
            JsonValue::String(s) => Ok(RequestId(IdRepr::String(s))),
            other => Err(DecodeError::InvalidId(other)),
        }
    }

    /// The id as text, as `Display` shows it.
    pub fn to_string(&self) -> (s: String)
        ensures
            s@ == self.display(),
    {
        match &self.0 {
            IdRepr::I32(n) => {
                let n = *n;
                let mut bytes: Vec<u8> = Vec::new();
                let magnitude: u64 = if n < 0 {
                    bytes.push(45u8);
                    (-(n as i64)) as u64
                } else {
                    n as u64
                };
                push_decimal(magnitude, &mut bytes);
                proof {
                    lemma_decimal_len(magnitude as nat);
                    assert(bytes@ =~= int_text(n));
                    assert forall|i: int| 0 <= i < bytes@.len() implies bytes@[i] < 128 by {
                        if n < 0 && i > 0 {
                            assert(bytes@[i] == decimal(magnitude as nat)[i - 1]);
                        } else if n >= 0 {
                            assert(bytes@[i] == decimal(magnitude as nat)[i]);
                        }
                    }
                    lemma_ascii_valid(bytes@);
                }
                match string_from_utf8(bytes) {
                    Ok(s) => s,
                    Err(_) => String::new(),
                }
            },
            IdRepr::String(s) => debug_string(s.as_str()),
        }
    }
}

} // verus!
