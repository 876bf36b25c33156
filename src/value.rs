//! Values and their self-describing encoding: one type-tag byte, then the payload.
use vstd::bytes::*;
use vstd::prelude::*;
use vstd::slice::*;
use vstd::utf8::*;

verus! {

broadcast use vstd::utf8::encode_utf8_valid_utf8, vstd::utf8::encode_utf8_decode_utf8;

/// The kinds of value, each with a stable tag byte.
#[derive(Debug, Clone, Copy, PartialEq, Eq, Structural)]
pub enum Type {
    Bool,
    U64,
    I64,
    F64,
    Instant,
    Uuid,
    Str,
    Json,
    Blob,
}

impl Type {
    pub open spec fn spec_tag(self) -> u8 {
        match self {
            Type::Bool => 1,
            Type::U64 => 2,
            Type::I64 => 3,
            Type::F64 => 4,
            Type::Instant => 5,
            Type::Uuid => 6,
            Type::Str => 7,
            Type::Json => 8,
            Type::Blob => 9,
        }
    }

    pub open spec fn spec_from_tag(tag: u8) -> Option<Type> {
        if tag == 1 {
            Some(Type::Bool)
        } else if tag == 2 {
            Some(Type::U64)
        } else if tag == 3 {
            Some(Type::I64)
        } else if tag == 4 {
            Some(Type::F64)
        } else if tag == 5 {
            Some(Type::Instant)
        } else if tag == 6 {
            Some(Type::Uuid)
        } else if tag == 7 {
            Some(Type::Str)
        } else if tag == 8 {
            Some(Type::Json)
        } else if tag == 9 {
            Some(Type::Blob)
        } else {
            None
        }
    }

    /// The tag byte written before a payload of this type.
    pub fn to_tag(self) -> (r: u8)
        ensures
            r == self.spec_tag(),
    {
        match self {
            Type::Bool => 1,
            Type::U64 => 2,
            Type::I64 => 3,
            Type::F64 => 4,
            Type::Instant => 5,
            Type::Uuid => 6,
            Type::Str => 7,
            Type::Json => 8,
            Type::Blob => 9,
        }
    }

    /// The type that a tag byte names, if any.
    pub fn from_tag(tag: u8) -> (r: Option<Type>)
        ensures
            r == Type::spec_from_tag(tag),
    {
        match tag {
            1 => Some(Type::Bool),
            2 => Some(Type::U64),
            3 => Some(Type::I64),
            4 => Some(Type::F64),
            5 => Some(Type::Instant),
            6 => Some(Type::Uuid),
            7 => Some(Type::Str),
            8 => Some(Type::Json),
            9 => Some(Type::Blob),
            _ => None,
        }
    }
}

/// Why a value could not be decoded.
#[derive(Debug, Clone, Copy, PartialEq, Eq, Structural)]
pub enum DataError {
    /// There were no bytes at all.
    Empty,
    /// The tag byte names no type.
    UnknownType(u8),
    /// The tag is known but its payload is malformed.
    DecodingError { value_type: Type },
    /// The tag differs from the one the caller asked for.
    UnexpectedType { expected: Type, actual: Type },
    /// A UUID payload is not exactly sixteen bytes.
    InvalidUuid,
}

/// A value as stored.
///
/// `F64` holds the IEEE-754 bit pattern of the float, so that values compare
/// and encode by their bits.
#[derive(Debug, Clone, PartialEq, Eq)]
pub enum Value {
    Bool(bool),
    U64(u64),
    I64(i64),
    F64(u64),
    Instant(i64),
    Uuid([u8; 16]),
    Str(String),
    Json(String),
    Blob(Vec<u8>),
}

/// The mathematical content of a `Value`.
pub enum ValueView {
    Bool(bool),
    U64(u64),
    I64(i64),
    F64(u64),
    Instant(i64),
    Uuid(Seq<u8>),
    Str(Seq<char>),
    Json(Seq<char>),
    Blob(Seq<u8>),
}

impl View for Value {
    type V = ValueView;

    open spec fn view(&self) -> ValueView {
        match self {
            Value::Bool(b) => ValueView::Bool(*b),
            Value::U64(x) => ValueView::U64(*x),
            Value::I64(x) => ValueView::I64(*x),
            Value::F64(x) => ValueView::F64(*x),
            Value::Instant(x) => ValueView::Instant(*x),
            Value::Uuid(u) => ValueView::Uuid(u@),
            Value::Str(s) => ValueView::Str(s@),
            Value::Json(s) => ValueView::Json(s@),
            Value::Blob(b) => ValueView::Blob(b@),
        }
    }
}

impl ValueView {
    /// Every value that a `Value` can hold: a UUID has sixteen bytes.
    pub open spec fn wf(self) -> bool {
        match self {
            ValueView::Uuid(u) => u.len() == 16,
            ValueView::Str(s) => encode_utf8(s).len() <= u64::MAX,
            ValueView::Json(s) => encode_utf8(s).len() <= u64::MAX,
            ValueView::Blob(b) => b.len() <= u64::MAX,
            _ => true,
        }
    }

    pub open spec fn value_type(self) -> Type {
        match self {
            ValueView::Bool(_) => Type::Bool,
            ValueView::U64(_) => Type::U64,
            ValueView::I64(_) => Type::I64,
            ValueView::F64(_) => Type::F64,
            ValueView::Instant(_) => Type::Instant,
            ValueView::Uuid(_) => Type::Uuid,
            ValueView::Str(_) => Type::Str,
            ValueView::Json(_) => Type::Json,
            ValueView::Blob(_) => Type::Blob,
        }
    }
}

/// A byte string preceded by its length as eight little-endian bytes.
pub open spec fn length_prefixed(b: Seq<u8>) -> Seq<u8> {
    spec_u64_to_le_bytes(b.len() as u64) + b
}

/// The bytes that follow the tag byte.
pub open spec fn payload_of(v: ValueView) -> Seq<u8> {
    match v {
        ValueView::Bool(b) => seq![if b { 1u8 } else { 0u8 }],
        ValueView::U64(x) => spec_u64_to_le_bytes(x),
        ValueView::I64(x) => spec_u64_to_le_bytes(x as u64),
        ValueView::F64(x) => spec_u64_to_le_bytes(x),
        ValueView::Instant(x) => spec_u64_to_le_bytes(x as u64),
        ValueView::Uuid(u) => u,
        ValueView::Str(s) => length_prefixed(encode_utf8(s)),
        ValueView::Json(s) => length_prefixed(encode_utf8(s)),
        ValueView::Blob(b) => length_prefixed(b),
    }
}

/// The stored form of a value: its tag byte, then its payload.
pub open spec fn encoded(v: ValueView) -> Seq<u8> {
    seq![v.value_type().spec_tag()] + payload_of(v)
}

/// The body of a length-prefixed payload, when the prefix gives exactly its length.
pub open spec fn prefixed_body(p: Seq<u8>) -> Option<Seq<u8>> {
    if p.len() >= 8 && spec_u64_from_le_bytes(p.subrange(0, 8)) as int == p.len() - 8 {
        Some(p.subrange(8, p.len() as int))
    } else {
        None
    }
}

/// What a payload of type `t` decodes to.
pub open spec fn decoded_payload(t: Type, p: Seq<u8>) -> Result<ValueView, DataError> {
    let bad = Err(DataError::DecodingError { value_type: t });
    match t {
        Type::Bool => if p.len() == 1 && p[0] == 0 {
            Ok(ValueView::Bool(false))
        } else if p.len() == 1 && p[0] == 1 {
            Ok(ValueView::Bool(true))
        } else {
            bad
        },
        Type::U64 => if p.len() == 8 {
            Ok(ValueView::U64(spec_u64_from_le_bytes(p)))
        } else {
            bad
        },
        Type::I64 => if p.len() == 8 {
            Ok(ValueView::I64(spec_u64_from_le_bytes(p) as i64))
        } else {
            bad
        },
        Type::F64 => if p.len() == 8 {
            Ok(ValueView::F64(spec_u64_from_le_bytes(p)))
        } else {
            bad
        },
        Type::Instant => if p.len() == 8 {
            Ok(ValueView::Instant(spec_u64_from_le_bytes(p) as i64))
        } else {
            bad
        },
        Type::Uuid => if p.len() == 16 {
            Ok(ValueView::Uuid(p))
        } else {
            Err(DataError::InvalidUuid)
        },
        Type::Str => match prefixed_body(p) {
            Some(b) => if valid_utf8(b) {
                Ok(ValueView::Str(decode_utf8(b)))
            } else {
                bad
            },
            None => bad,
        },
        Type::Json => match prefixed_body(p) {
            Some(b) => if valid_utf8(b) {
                Ok(ValueView::Json(decode_utf8(b)))
            } else {
                bad
            },
            None => bad,
        },
        Type::Blob => match prefixed_body(p) {
            Some(b) => Ok(ValueView::Blob(b)),
            None => bad,
        },
    }
}

/// What a stored byte string decodes to.
pub open spec fn decoded(b: Seq<u8>) -> Result<ValueView, DataError> {
    if b.len() == 0 {
        Err(DataError::Empty)
    } else {
        match Type::spec_from_tag(b[0]) {
            None => Err(DataError::UnknownType(b[0])),
            Some(t) => decoded_payload(t, b.subrange(1, b.len() as int)),
        }
    }
}

/// What a stored byte string decodes to when a value of type `expected` is asked for.
pub open spec fn decoded_expecting(expected: Type, b: Seq<u8>) -> Result<ValueView, DataError> {
    if b.len() == 0 {
        Err(DataError::Empty)
    } else {
        match Type::spec_from_tag(b[0]) {
            None => Err(DataError::UnknownType(b[0])),
            Some(t) => if t != expected {
                Err(DataError::UnexpectedType { expected, actual: t })
            } else {
                decoded_payload(t, b.subrange(1, b.len() as int))
            },
        }
    }
}

pub open spec fn result_view(r: Result<Value, DataError>) -> Result<ValueView, DataError> {
    match r {
        Ok(v) => Ok(v@),
        Err(e) => Err(e),
    }
}

/// Decoding what was encoded gives back the value.
pub proof fn lemma_round_trip(v: ValueView)
    requires
        v.wf(),
    ensures
        decoded(encoded(v)) == Ok::<ValueView, DataError>(v),
        decoded_expecting(v.value_type(), encoded(v)) == Ok::<ValueView, DataError>(v),
{
    vstd::bytes::lemma_auto_spec_u64_to_from_le_bytes();
    let e = encoded(v);
    let p = payload_of(v);
    assert(e.subrange(1, e.len() as int) =~= p);
    match v {
        ValueView::I64(x) => {
            let u = x as u64;
            assert(u as i64 == x) by (bit_vector)
                requires
                    u == x as u64,
            ;
            assert(spec_u64_from_le_bytes(spec_u64_to_le_bytes(u)) == u);
        },
        ValueView::Instant(x) => {
            let u = x as u64;
            assert(u as i64 == x) by (bit_vector)
                requires
                    u == x as u64,
            ;
            assert(spec_u64_from_le_bytes(spec_u64_to_le_bytes(u)) == u);
        },
        ValueView::Str(s) => {
            let b = encode_utf8(s);
            assert(p.subrange(0, 8) =~= spec_u64_to_le_bytes(b.len() as u64));
            assert(p.subrange(8, p.len() as int) =~= b);
        },
        ValueView::Json(s) => {
            let b = encode_utf8(s);
            assert(p.subrange(0, 8) =~= spec_u64_to_le_bytes(b.len() as u64));
            assert(p.subrange(8, p.len() as int) =~= b);
        },
        ValueView::Blob(b) => {
            assert(p.subrange(0, 8) =~= spec_u64_to_le_bytes(b.len() as u64));
            assert(p.subrange(8, p.len() as int) =~= b);
        },
        _ => {},
    }
}

/// Relies on std::str::from_utf8: it accepts exactly the valid UTF-8 byte
/// strings, and the string it gives holds those bytes.
#[verifier::external_body]
pub(crate) fn string_from_utf8(b: &[u8]) -> (r: Option<String>)
    ensures
        r is Some <==> valid_utf8(b@),
        r matches Some(s) ==> encode_utf8(s@) == b@,
{
    match std::str::from_utf8(b) {
        Ok(s) => Some(s.to_owned()),
        Err(_) => None,
    }
}

/// Appends `b` to `out`.
pub fn append_bytes(out: &mut Vec<u8>, b: &[u8])
    ensures
        final(out)@ == old(out)@ + b@,
{
    let mut i: usize = 0;
    while i < b.len()
        invariant
            i <= b@.len(),
            out@ == old(out)@ + b@.subrange(0, i as int),
        decreases b@.len() - i,
    {
        out.push(b[i]);
        i = i + 1;
        assert(out@ =~= old(out)@ + b@.subrange(0, i as int));
    }
    assert(b@.subrange(0, b@.len() as int) =~= b@);
}

pub fn append_length_prefixed(out: &mut Vec<u8>, b: &[u8])
    ensures
        final(out)@ == old(out)@ + length_prefixed(b@),
{
    let len = u64_to_le_bytes(b.len() as u64);
    append_bytes(out, len.as_slice());
    append_bytes(out, b);
    assert(final(out)@ =~= old(out)@ + length_prefixed(b@));
}

fn decode_u64(p: &[u8]) -> (r: Option<u64>)
    ensures
        r == (if p@.len() == 8 { Some(spec_u64_from_le_bytes(p@)) } else { None::<u64> }),
{
    if p.len() == 8 {
        Some(u64_from_le_bytes(p))
    } else {
        None
    }
}

fn decode_prefixed(p: &[u8]) -> (r: Option<&[u8]>)
    ensures
        r matches Some(b) ==> prefixed_body(p@) == Some(b@),
        r is None ==> prefixed_body(p@) is None,
{
    if p.len() < 8 {
        return None;
    }
    let len = u64_from_le_bytes(slice_subrange(p, 0, 8));
    if len != (p.len() - 8) as u64 {
        return None;
    }
    Some(slice_subrange(p, 8, p.len()))
}

fn decode_string(p: &[u8]) -> (r: Option<String>)
    ensures
        r matches Some(s) ==> prefixed_body(p@) matches Some(b) && valid_utf8(b) && s@ == decode_utf8(b),
        r is None ==> !(prefixed_body(p@) matches Some(b) && valid_utf8(b)),
{
    match decode_prefixed(p) {
        Some(b) => {
            let s = string_from_utf8(b);
            proof {
                if s is Some {
                    let t = s->Some_0;
                    assert(decode_utf8(encode_utf8(t@)) == t@);
                }
            }
            s
        },
        None => None,
    }
}

impl Value {
    pub open spec fn spec_value_type(&self) -> Type {
        self@.value_type()
    }

    /// The type of this value.
    pub fn value_type(&self) -> (r: Type)
        ensures
            r == self@.value_type(),
    {
        match self {
            Value::Bool(_) => Type::Bool,
            Value::U64(_) => Type::U64,
            Value::I64(_) => Type::I64,
            Value::F64(_) => Type::F64,
            Value::Instant(_) => Type::Instant,
            Value::Uuid(_) => Type::Uuid,
            Value::Str(_) => Type::Str,
            Value::Json(_) => Type::Json,
            Value::Blob(_) => Type::Blob,
        }
    }

    /// Encodes the value: its tag byte, then its payload.
    pub fn to_bytes(&self) -> (r: Vec<u8>)
        ensures
            r@ == encoded(self@),
            self@.wf(),
    {
        let mut out: Vec<u8> = Vec::new();
        out.push(self.value_type().to_tag());
        match self {
            Value::Bool(b) => {
                out.push(if *b { 1u8 } else { 0u8 });
            },
            Value::U64(x) => {
                append_bytes(&mut out, u64_to_le_bytes(*x).as_slice());
            },
            Value::I64(x) => {
                append_bytes(&mut out, u64_to_le_bytes(*x as u64).as_slice());
            },
            Value::F64(x) => {
                append_bytes(&mut out, u64_to_le_bytes(*x).as_slice());
            },
            Value::Instant(x) => {
                append_bytes(&mut out, u64_to_le_bytes(*x as u64).as_slice());
            },
            Value::Uuid(u) => {
                assert(u@.len() == 16);
                append_bytes(&mut out, u.as_slice());
            },
            Value::Str(s) => {
                let bytes = s.as_str().as_bytes();
                let n = bytes.len();
                assert(bytes@.len() == n);
                append_length_prefixed(&mut out, bytes);
            },
            Value::Json(s) => {
                let bytes = s.as_str().as_bytes();
                let n = bytes.len();
                assert(bytes@.len() == n);
                append_length_prefixed(&mut out, bytes);
            },
            Value::Blob(b) => {
                let n = b.len();
                assert(b@.len() == n);
                append_length_prefixed(&mut out, b.as_slice());
            },
        }
        assert(out@ =~= encoded(self@));
        out
    }

    fn decode_payload(t: Type, p: &[u8]) -> (r: Result<Value, DataError>)
        ensures
            result_view(r) == decoded_payload(t, p@),
    {
        let bad = Err(DataError::DecodingError { value_type: t });
        match t {
            Type::Bool => {
                if p.len() == 1 && p[0] == 0 {
                    Ok(Value::Bool(false))
                } else if p.len() == 1 && p[0] == 1 {
                    Ok(Value::Bool(true))
                } else {
                    bad
                }
            },
            Type::U64 => match decode_u64(p) {
                Some(x) => Ok(Value::U64(x)),
                None => bad,
            },
            Type::I64 => match decode_u64(p) {
                Some(x) => Ok(Value::I64(x as i64)),
                None => bad,
            },
            Type::F64 => match decode_u64(p) {
                Some(x) => Ok(Value::F64(x)),
                None => bad,
            },
            Type::Instant => match decode_u64(p) {
                Some(x) => Ok(Value::Instant(x as i64)),
                None => bad,
            },
            Type::Uuid => {
                if p.len() == 16 {
                    let mut u = [0u8; 16];
                    let mut i: usize = 0;
                    while i < 16
                        invariant
                            p@.len() == 16,
                            i <= 16,
                            forall|j: int| 0 <= j < i ==> u@[j] == p@[j],
                        decreases 16 - i,
                    {
                        u[i] = p[i];
                        i = i + 1;
                    }
                    assert(u@ =~= p@);
                    Ok(Value::Uuid(u))
                } else {
                    Err(DataError::InvalidUuid)
                }
            },
            Type::Str => match decode_string(p) {
                Some(s) => Ok(Value::Str(s)),
                None => bad,
            },
            Type::Json => match decode_string(p) {
                Some(s) => Ok(Value::Json(s)),
                None => bad,
            },
            Type::Blob => match decode_prefixed(p) {
                Some(b) => Ok(Value::Blob(slice_to_vec(b))),
                None => bad,
            },
        }
    }

    /// Decodes a stored byte string.
    pub fn from_tagged_slice(b: &[u8]) -> (r: Result<Value, DataError>)
        ensures
            result_view(r) == decoded(b@),
    {
        if b.len() == 0 {
            return Err(DataError::Empty);
        }
        match Type::from_tag(b[0]) {
            None => Err(DataError::UnknownType(b[0])),
            Some(t) => Value::decode_payload(t, slice_subrange(b, 1, b.len())),
        }
    }

    /// Decodes a stored byte string that must hold a value of type `expected`.
    pub fn from_expected_tagged_slice(expected: Type, b: &[u8]) -> (r: Result<Value, DataError>)
        ensures
            result_view(r) == decoded_expecting(expected, b@),
    {
        if b.len() == 0 {
            return Err(DataError::Empty);
        }
        match Type::from_tag(b[0]) {
            None => Err(DataError::UnknownType(b[0])),
            Some(t) => {
                if t != expected {
                    Err(DataError::UnexpectedType { expected, actual: t })
                } else {
                    Value::decode_payload(t, slice_subrange(b, 1, b.len()))
                }
            },
        }
    }
}

} // verus!
