//! The Kafka-compatible wire mode: big-endian message decoding.
//!
//! Messages are parsed from a [`BytesReader`] cursor.  Each message
//! type states, as spec functions, on which byte sequences its parse
//! succeeds, how many bytes it consumes, and which value it yields;
//! the cursor then holds exactly the bytes after the message.

use vstd::prelude::*;
use vstd::slice::slice_subrange;
use vstd::string::*;
use vstd::utf8::valid_utf8;

use crate::reader::{be_u16, be_u32, be_u64, slice_be_u16, slice_be_u32, slice_be_u64, BytesReader, WireError};

verus! {

/// Relies on `core::str::from_utf8`: `Ok` exactly on valid UTF-8, and
/// the returned `str` views the same bytes.
#[verifier::external_body]
fn str_from_utf8(v: &[u8]) -> (r: Result<&str, WireError>)
    ensures
        match r {
            Ok(s) => valid_utf8(v@) && s.spec_bytes() == v@,
            Err(e) => !valid_utf8(v@) && e == WireError::InvalidUtf8,
        },
{
    core::str::from_utf8(v).map_err(|_| WireError::InvalidUtf8)
}

/// One message of the Kafka-compatible wire format.
pub trait KafkaMessage<'a>: Sized {
    /// True when parsing `data` succeeds.
    spec fn wf_parse(data: Seq<u8>) -> bool;

    /// How many leading bytes a successful parse consumes.
    spec fn consumed(data: Seq<u8>) -> int;

    /// True when `v` is the value parsing `data` yields.
    spec fn value_ok(data: Seq<u8>, v: Self) -> bool;

    /// The error a failing parse reports.
    spec fn parse_err(data: Seq<u8>) -> WireError;

    /// Parses one message off the cursor's front.
    fn parse(cursor: &mut BytesReader<'a>) -> (r: Result<Self, WireError>)
        ensures
            r matches Ok(v) ==> Self::wf_parse(old(cursor)@) && Self::value_ok(old(cursor)@, v)
                && 0 <= Self::consumed(old(cursor)@) <= old(cursor)@.len() && final(cursor)@ == old(
                cursor,
            )@.skip(Self::consumed(old(cursor)@)),
            r matches Err(e) ==> !Self::wf_parse(old(cursor)@) && e == Self::parse_err(
                old(cursor)@,
            ),
    ;
}

impl<'a> BytesReader<'a> {
    /// Parses one `P` off the cursor's front, as `P`'s spec functions
    /// state.
    pub fn parse<P: KafkaMessage<'a>>(&mut self) -> (r: Result<P, WireError>)
        ensures
            r matches Ok(v) ==> P::wf_parse(old(self)@) && P::value_ok(old(self)@, v) && 0
                <= P::consumed(old(self)@) <= old(self)@.len() && final(self)@ == old(self)@.skip(
                P::consumed(old(self)@),
            ),
            r matches Err(e) ==> !P::wf_parse(old(self)@) && e == P::parse_err(old(self)@),
    {
        P::parse(self)
    }
}

impl<'a> KafkaMessage<'a> for i16 {
    open spec fn wf_parse(data: Seq<u8>) -> bool {
        data.len() >= 2
    }

    open spec fn consumed(data: Seq<u8>) -> int {
        2
    }

    open spec fn value_ok(data: Seq<u8>, v: Self) -> bool {
        v == (be_u16(data) as u16) as i16
    }

    open spec fn parse_err(data: Seq<u8>) -> WireError {
        WireError::UnexpectedEof
    }

    fn parse(cursor: &mut BytesReader<'a>) -> (r: Result<Self, WireError>) {
        match cursor.read_bytes(2) {
            Ok(b) => {
                let v = slice_be_u16(b);
                proof {
                    assert(be_u16(b@) == be_u16(old(cursor)@));
                }
                Ok(v as i16)
            },
            Err(e) => Err(e),
        }
    }
}

impl<'a> KafkaMessage<'a> for u16 {
    open spec fn wf_parse(data: Seq<u8>) -> bool {
        data.len() >= 2
    }

    open spec fn consumed(data: Seq<u8>) -> int {
        2
    }

    open spec fn value_ok(data: Seq<u8>, v: Self) -> bool {
        v == be_u16(data)
    }

    open spec fn parse_err(data: Seq<u8>) -> WireError {
        WireError::UnexpectedEof
    }

    fn parse(cursor: &mut BytesReader<'a>) -> (r: Result<Self, WireError>) {
        match cursor.read_bytes(2) {
            Ok(b) => {
                let v = slice_be_u16(b);
                proof {
                    assert(be_u16(b@) == be_u16(old(cursor)@));
                }
                Ok(v)
            },
            Err(e) => Err(e),
        }
    }
}

impl<'a> KafkaMessage<'a> for i32 {
    open spec fn wf_parse(data: Seq<u8>) -> bool {
        data.len() >= 4
    }

    open spec fn consumed(data: Seq<u8>) -> int {
        4
    }

    open spec fn value_ok(data: Seq<u8>, v: Self) -> bool {
        v == (be_u32(data) as u32) as i32
    }

    open spec fn parse_err(data: Seq<u8>) -> WireError {
        WireError::UnexpectedEof
    }

    fn parse(cursor: &mut BytesReader<'a>) -> (r: Result<Self, WireError>) {
        match cursor.read_bytes(4) {
            Ok(b) => {
                let v = slice_be_u32(b);
                proof {
                    assert(be_u32(b@) == be_u32(old(cursor)@));
                }
                Ok(v as i32)
            },
            Err(e) => Err(e),
        }
    }
}

impl<'a> KafkaMessage<'a> for u32 {
    open spec fn wf_parse(data: Seq<u8>) -> bool {
        data.len() >= 4
    }

    open spec fn consumed(data: Seq<u8>) -> int {
        4
    }

    open spec fn value_ok(data: Seq<u8>, v: Self) -> bool {
        v == be_u32(data)
    }

    open spec fn parse_err(data: Seq<u8>) -> WireError {
        WireError::UnexpectedEof
    }

    fn parse(cursor: &mut BytesReader<'a>) -> (r: Result<Self, WireError>) {
        match cursor.read_bytes(4) {
            Ok(b) => {
                let v = slice_be_u32(b);
                proof {
                    assert(be_u32(b@) == be_u32(old(cursor)@));
                }
                Ok(v)
            },
            Err(e) => Err(e),
        }
    }
}

/// A length-prefixed UTF-8 string of the wire format: a non-negative
/// 16-bit length, then that many bytes of text.
#[derive(Debug)]
pub struct KafkaString<'a>(pub &'a str);

impl<'a> KafkaMessage<'a> for KafkaString<'a> {
    open spec fn wf_parse(data: Seq<u8>) -> bool {
        let n = be_u16(data);
        &&& data.len() >= 2
        &&& n < 0x8000
        &&& data.len() >= 2 + n
        &&& valid_utf8(data.subrange(2, 2 + n))
    }

    open spec fn consumed(data: Seq<u8>) -> int {
        2 + be_u16(data)
    }

    open spec fn value_ok(data: Seq<u8>, v: Self) -> bool {
        v.0.spec_bytes() == data.subrange(2, 2 + be_u16(data))
    }

    open spec fn parse_err(data: Seq<u8>) -> WireError {
        let n = be_u16(data);
        if data.len() < 2 {
            WireError::UnexpectedEof
        } else if n >= 0x8000 {
            WireError::NegativeLength
        } else if data.len() < 2 + n {
            WireError::UnexpectedEof
        } else {
            WireError::InvalidUtf8
        }
    }

    fn parse(cursor: &mut BytesReader<'a>) -> (r: Result<Self, WireError>) {
        let lb = match cursor.read_bytes(2) {
            Ok(b) => b,
            Err(e) => {
                return Err(e);
            },
        };
        let n = slice_be_u16(lb);
        proof {
            assert(be_u16(lb@) == be_u16(old(cursor)@));
        }
        if n >= 0x8000 {
            return Err(WireError::NegativeLength);
        }
        let data = match cursor.read_bytes(n as usize) {
            Ok(d) => d,
            Err(e) => {
                return Err(e);
            },
        };
        proof {
            assert(data@ =~= old(cursor)@.subrange(2, 2 + be_u16(old(cursor)@)));
            assert(cursor@ =~= old(cursor)@.skip(2 + be_u16(old(cursor)@)));
        }
        match str_from_utf8(data) {
            Ok(s) => Ok(KafkaString(s)),
            Err(e) => Err(e),
        }
    }
}

impl<'a> KafkaMessage<'a> for Option<KafkaString<'a>> {
    open spec fn wf_parse(data: Seq<u8>) -> bool {
        &&& data.len() >= 2
        &&& (be_u16(data) == 0xffff || <KafkaString<'a> as KafkaMessage<'a>>::wf_parse(data))
    }

    open spec fn consumed(data: Seq<u8>) -> int {
        if be_u16(data) == 0xffff {
            2
        } else {
            <KafkaString<'a> as KafkaMessage<'a>>::consumed(data)
        }
    }

    open spec fn value_ok(data: Seq<u8>, v: Self) -> bool {
        if be_u16(data) == 0xffff {
            v is None
        } else {
            v matches Some(ks) && <KafkaString<'a> as KafkaMessage<'a>>::value_ok(data, ks)
        }
    }

    open spec fn parse_err(data: Seq<u8>) -> WireError {
        <KafkaString<'a> as KafkaMessage<'a>>::parse_err(data)
    }

    fn parse(cursor: &mut BytesReader<'a>) -> (r: Result<Self, WireError>) {
        let lb = match cursor.read_bytes(2) {
            Ok(b) => b,
            Err(e) => {
                return Err(e);
            },
        };
        let n = slice_be_u16(lb);
        proof {
            assert(be_u16(lb@) == be_u16(old(cursor)@));
        }
        if n == 0xffff {
            return Ok(None);
        }
        if n >= 0x8000 {
            return Err(WireError::NegativeLength);
        }
        let data = match cursor.read_bytes(n as usize) {
            Ok(d) => d,
            Err(e) => {
                return Err(e);
            },
        };
        proof {
            assert(data@ =~= old(cursor)@.subrange(2, 2 + be_u16(old(cursor)@)));
            assert(cursor@ =~= old(cursor)@.skip(2 + be_u16(old(cursor)@)));
        }
        match str_from_utf8(data) {
            Ok(s) => Ok(Some(KafkaString(s))),
            Err(e) => Err(e),
        }
    }
}

/// The fixed request header of the Kafka-compatible mode: api key and
/// version, a correlation id the response echoes, and an optional
/// client id.
#[derive(Debug)]
pub struct RequestHeaderV2<'a> {
    pub request_api_key: i16,
    pub request_api_version: i16,
    pub correlation_id: i32,
    pub client_id: Option<KafkaString<'a>>,
}

impl<'a> KafkaMessage<'a> for RequestHeaderV2<'a> {
    open spec fn wf_parse(data: Seq<u8>) -> bool {
        &&& data.len() >= 8
        &&& <Option<KafkaString<'a>> as KafkaMessage<'a>>::wf_parse(data.skip(8))
    }

    open spec fn consumed(data: Seq<u8>) -> int {
        8 + <Option<KafkaString<'a>> as KafkaMessage<'a>>::consumed(data.skip(8))
    }

    open spec fn value_ok(data: Seq<u8>, v: Self) -> bool {
        &&& v.request_api_key == (be_u16(data) as u16) as i16
        &&& v.request_api_version == (be_u16(data.skip(2)) as u16) as i16
        &&& v.correlation_id == (be_u32(data.skip(4)) as u32) as i32
        &&& <Option<KafkaString<'a>> as KafkaMessage<'a>>::value_ok(data.skip(8), v.client_id)
    }

    open spec fn parse_err(data: Seq<u8>) -> WireError {
        if data.len() < 8 {
            WireError::UnexpectedEof
        } else {
            <Option<KafkaString<'a>> as KafkaMessage<'a>>::parse_err(data.skip(8))
        }
    }

    fn parse(cursor: &mut BytesReader<'a>) -> (r: Result<Self, WireError>) {
        let ghost data = cursor@;
        let request_api_key = match <i16 as KafkaMessage<'a>>::parse(cursor) {
            Ok(v) => v,
            Err(e) => {
                return Err(e);
            },
        };
        proof {
            assert(cursor@ =~= data.skip(2));
        }
        let request_api_version = match <i16 as KafkaMessage<'a>>::parse(cursor) {
            Ok(v) => v,
            Err(e) => {
                proof {
                    assert(data.len() < 4);
                }
                return Err(e);
            },
        };
        proof {
            assert(cursor@ =~= data.skip(4));
        }
        let correlation_id = match <i32 as KafkaMessage<'a>>::parse(cursor) {
            Ok(v) => v,
            Err(e) => {
                proof {
                    assert(data.skip(4).len() < 4);
                }
                return Err(e);
            },
        };
        proof {
            assert(cursor@ =~= data.skip(8));
        }
        let client_id = match <Option<KafkaString<'a>> as KafkaMessage<'a>>::parse(cursor) {
            Ok(v) => v,
            Err(e) => {
                return Err(e);
            },
        };
        proof {
            assert(cursor@ =~= data.skip(
                8 + <Option<KafkaString<'a>> as KafkaMessage<'a>>::consumed(data.skip(8)),
            ));
        }
        Ok(RequestHeaderV2 { request_api_key, request_api_version, correlation_id, client_id })
    }
}

} // verus!

// --- the length-prefixed TLV codec ------------------------------------

verus! {

/// Byte size of an encoded value, as the TLV codec counts it.
pub trait KafkaSize {
    fn get_size(&self) -> i32;
}

/// How many `T`s a vector's 32-bit count field asks for: a negative
/// count reads as zero elements.
pub open spec fn vec_count(data: Seq<u8>) -> int {
    let n = (be_u32(data) as u32) as i32;
    if n <= 0 {
        0
    } else {
        n as int
    }
}

/// A value decoded from the front of a byte buffer.
pub trait Decode: Sized {
    /// True when decoding `data` succeeds.
    spec fn dec_wf(data: Seq<u8>) -> bool;

    /// How many leading bytes a successful decode consumes.
    spec fn dec_consumed(data: Seq<u8>) -> int;

    /// True when `v` is the value decoding `data` yields.
    spec fn dec_ok(data: Seq<u8>, v: Self) -> bool;

    /// Decodes one value off the cursor's front.
    fn decode<'x>(src: &mut BytesReader<'x>) -> (r: Result<Self, WireError>)
        ensures
            r matches Ok(v) ==> Self::dec_wf(old(src)@) && Self::dec_ok(old(src)@, v) && 0
                <= Self::dec_consumed(old(src)@) <= old(src)@.len() && final(src)@ == old(
                src,
            )@.skip(Self::dec_consumed(old(src)@)),
            r is Err ==> !Self::dec_wf(old(src)@),
    ;
}

/// True when `n` successive `T`s decode from `data`.
pub open spec fn rep_wf<T: Decode>(data: Seq<u8>, n: int) -> bool
    decreases n,
{
    n <= 0 || (T::dec_wf(data) && rep_wf::<T>(data.skip(T::dec_consumed(data)), n - 1))
}

/// Bytes `n` successive `T`s consume from `data`.
pub open spec fn rep_consumed<T: Decode>(data: Seq<u8>, n: int) -> int
    decreases n,
{
    if n <= 0 {
        0
    } else {
        T::dec_consumed(data) + rep_consumed::<T>(data.skip(T::dec_consumed(data)), n - 1)
    }
}

/// True when `vs` is what `n` successive `T`s decoded from `data` yield.
pub open spec fn rep_ok<T: Decode>(data: Seq<u8>, n: int, vs: Seq<T>) -> bool
    decreases n,
{
    if n <= 0 {
        vs.len() == 0
    } else {
        &&& vs.len() == n
        &&& T::dec_ok(data, vs[0])
        &&& rep_ok::<T>(data.skip(T::dec_consumed(data)), n - 1, vs.skip(1))
    }
}

/// Decodes `n` successive `T`s, as the `rep` spec functions state.
fn decode_rep<'x, T: Decode>(src: &mut BytesReader<'x>, n: usize) -> (r: Result<Vec<T>, WireError>)
    ensures
        r matches Ok(vs) ==> rep_wf::<T>(old(src)@, n as int) && rep_ok::<T>(
            old(src)@,
            n as int,
            vs@,
        ) && 0 <= rep_consumed::<T>(old(src)@, n as int) <= old(src)@.len() && final(src)@ == old(
            src,
        )@.skip(rep_consumed::<T>(old(src)@, n as int)),
        r is Err ==> !rep_wf::<T>(old(src)@, n as int),
{
    let ghost data0 = src@;
    proof {
        assert(src@ =~= data0.skip(data0.len() - src@.len()));
    }
    let mut values: Vec<T> = Vec::new();
    let mut i: usize = 0;
    while i < n
        invariant
            i <= n,
            data0 == old(src)@,
            values@.len() == i,
            src@.len() <= data0.len(),
            src@ == data0.skip(data0.len() - src@.len()),
            rep_wf::<T>(data0, n as int) <==> rep_wf::<T>(src@, n - i),
            rep_wf::<T>(data0, n as int) ==> rep_consumed::<T>(data0, n as int) == (data0.len()
                - src@.len()) + rep_consumed::<T>(src@, n - i),
            rep_wf::<T>(data0, n as int) ==> forall|ws: Seq<T>|
                #[trigger] rep_ok::<T>(src@, n - i, ws) ==> rep_ok::<T>(data0, n as int, values@
                    + ws),
        decreases n - i,
    {
        let ghost d = src@;
        let ghost vals_before = values@;
        let v = match T::decode(src) {
            Ok(v) => v,
            Err(e) => {
                proof {
                    assert(!rep_wf::<T>(d, n - i));
                }
                return Err(e);
            },
        };
        proof {
            let k = data0.len() - d.len();
            let c = T::dec_consumed(d);
            assert(src@ == d.skip(c));
            assert(d.skip(c) =~= data0.skip(k + c));
            assert(rep_wf::<T>(d, n - i) <==> rep_wf::<T>(src@, n - i - 1));
        }
        values.push(v);
        i += 1;
        proof {
            if rep_wf::<T>(data0, n as int) {
                assert forall|ws: Seq<T>| #[trigger] rep_ok::<T>(src@, n - i, ws) implies rep_ok::<
                    T,
                >(data0, n as int, values@ + ws) by {
                    let whole = seq![v] + ws;
                    assert(whole[0] == v);
                    assert(whole.skip(1) =~= ws);
                    assert(rep_ok::<T>(d, n - (i - 1), whole));
                    assert(vals_before + whole =~= values@ + ws);
                }
            }
        }
    }
    proof {
        if rep_wf::<T>(data0, n as int) {
            assert(rep_ok::<T>(src@, 0, Seq::<T>::empty()));
            assert(values@ + Seq::<T>::empty() =~= values@);
        }
    }
    Ok(values)
}

} // verus!

// --- scalar, string and vector decoders --------------------------------

verus! {

impl Decode for u8 {
    open spec fn dec_wf(data: Seq<u8>) -> bool {
        data.len() >= 1
    }

    open spec fn dec_consumed(data: Seq<u8>) -> int {
        1
    }

    open spec fn dec_ok(data: Seq<u8>, v: Self) -> bool {
        v == data[0]
    }

    fn decode<'x>(src: &mut BytesReader<'x>) -> (r: Result<Self, WireError>) {
        match src.read_bytes(1) {
            Ok(b) => Ok(b[0]),
            Err(e) => Err(e),
        }
    }
}

impl Decode for i8 {
    open spec fn dec_wf(data: Seq<u8>) -> bool {
        data.len() >= 1
    }

    open spec fn dec_consumed(data: Seq<u8>) -> int {
        1
    }

    open spec fn dec_ok(data: Seq<u8>, v: Self) -> bool {
        v == data[0] as i8
    }

    fn decode<'x>(src: &mut BytesReader<'x>) -> (r: Result<Self, WireError>) {
        match src.read_bytes(1) {
            Ok(b) => Ok(b[0] as i8),
            Err(e) => Err(e),
        }
    }
}

impl Decode for i16 {
    open spec fn dec_wf(data: Seq<u8>) -> bool {
        data.len() >= 2
    }

    open spec fn dec_consumed(data: Seq<u8>) -> int {
        2
    }

    open spec fn dec_ok(data: Seq<u8>, v: Self) -> bool {
        v == (be_u16(data) as u16) as i16
    }

    fn decode<'x>(src: &mut BytesReader<'x>) -> (r: Result<Self, WireError>) {
        match src.read_bytes(2) {
            Ok(b) => {
                let v = slice_be_u16(b);
                proof {
                    assert(be_u16(b@) == be_u16(old(src)@));
                }
                Ok(v as i16)
            },
            Err(e) => Err(e),
        }
    }
}

impl Decode for i32 {
    open spec fn dec_wf(data: Seq<u8>) -> bool {
        data.len() >= 4
    }

    open spec fn dec_consumed(data: Seq<u8>) -> int {
        4
    }

    open spec fn dec_ok(data: Seq<u8>, v: Self) -> bool {
        v == (be_u32(data) as u32) as i32
    }

    fn decode<'x>(src: &mut BytesReader<'x>) -> (r: Result<Self, WireError>) {
        match src.read_bytes(4) {
            Ok(b) => {
                let v = slice_be_u32(b);
                proof {
                    assert(be_u32(b@) == be_u32(old(src)@));
                }
                Ok(v as i32)
            },
            Err(e) => Err(e),
        }
    }
}

impl Decode for u32 {
    open spec fn dec_wf(data: Seq<u8>) -> bool {
        data.len() >= 4
    }

    open spec fn dec_consumed(data: Seq<u8>) -> int {
        4
    }

    open spec fn dec_ok(data: Seq<u8>, v: Self) -> bool {
        v == be_u32(data)
    }

    fn decode<'x>(src: &mut BytesReader<'x>) -> (r: Result<Self, WireError>) {
        match src.read_bytes(4) {
            Ok(b) => {
                let v = slice_be_u32(b);
                proof {
                    assert(be_u32(b@) == be_u32(old(src)@));
                }
                Ok(v)
            },
            Err(e) => Err(e),
        }
    }
}

impl Decode for i64 {
    open spec fn dec_wf(data: Seq<u8>) -> bool {
        data.len() >= 8
    }

    open spec fn dec_consumed(data: Seq<u8>) -> int {
        8
    }

    open spec fn dec_ok(data: Seq<u8>, v: Self) -> bool {
        v == (be_u64(data) as u64) as i64
    }

    fn decode<'x>(src: &mut BytesReader<'x>) -> (r: Result<Self, WireError>) {
        match src.read_bytes(8) {
            Ok(b) => {
                let v = slice_be_u64(b);
                proof {
                    assert(b@.skip(4) =~= old(src)@.take(8).skip(4));
                    assert(old(src)@.take(8).skip(4) =~= old(src)@.subrange(4, 8));
                    assert(old(src)@.skip(4).take(4) =~= old(src)@.subrange(4, 8));
                    assert(be_u64(b@) == be_u64(old(src)@)) by {
                        assert(be_u32(b@) == be_u32(old(src)@));
                        assert(be_u32(b@.skip(4)) == be_u32(old(src)@.skip(4)));
                    }
                }
                Ok(v as i64)
            },
            Err(e) => Err(e),
        }
    }
}

/// Name for what `String::from_utf8_lossy` yields: a function of the
/// bytes alone.
pub uninterp spec fn lossy_of(b: Seq<u8>) -> Seq<char>;

/// Relies on `String::from_utf8_lossy`: the result depends on the
/// bytes alone, and valid UTF-8 decodes unchanged.
#[verifier::external_body]
fn lossy_string(b: &[u8]) -> (r: String)
    ensures
        r@ == lossy_of(b@),
        valid_utf8(b@) ==> r@ == vstd::utf8::decode_utf8(b@),
{
    String::from_utf8_lossy(b).into_owned()
}

impl Decode for String {
    open spec fn dec_wf(data: Seq<u8>) -> bool {
        &&& data.len() >= 2
        &&& be_u16(data) < 0x8000
        &&& data.len() >= 2 + be_u16(data)
    }

    open spec fn dec_consumed(data: Seq<u8>) -> int {
        2 + be_u16(data)
    }

    open spec fn dec_ok(data: Seq<u8>, v: Self) -> bool {
        let text = data.subrange(2, 2 + be_u16(data));
        &&& v@ == lossy_of(text)
        &&& (valid_utf8(text) ==> v@ == vstd::utf8::decode_utf8(text))
    }

    fn decode<'x>(src: &mut BytesReader<'x>) -> (r: Result<Self, WireError>) {
        let lb = match src.read_bytes(2) {
            Ok(b) => b,
            Err(e) => {
                return Err(e);
            },
        };
        let n = slice_be_u16(lb);
        proof {
            assert(be_u16(lb@) == be_u16(old(src)@));
        }
        if n >= 0x8000 {
            return Err(WireError::NegativeLength);
        }
        let data = match src.read_bytes(n as usize) {
            Ok(d) => d,
            Err(e) => {
                return Err(e);
            },
        };
        proof {
            assert(data@ =~= old(src)@.subrange(2, 2 + be_u16(old(src)@)));
            assert(src@ =~= old(src)@.skip(2 + be_u16(old(src)@)));
        }
        Ok(lossy_string(data))
    }
}

impl Decode for Option<String> {
    open spec fn dec_wf(data: Seq<u8>) -> bool {
        &&& data.len() >= 2
        &&& (be_u16(data) == 0xffff || <String as Decode>::dec_wf(data))
    }

    open spec fn dec_consumed(data: Seq<u8>) -> int {
        if be_u16(data) == 0xffff {
            2
        } else {
            <String as Decode>::dec_consumed(data)
        }
    }

    open spec fn dec_ok(data: Seq<u8>, v: Self) -> bool {
        if be_u16(data) == 0xffff {
            v is None
        } else {
            v matches Some(s) && <String as Decode>::dec_ok(data, s)
        }
    }

    fn decode<'x>(src: &mut BytesReader<'x>) -> (r: Result<Self, WireError>) {
        let lb = match src.read_bytes(2) {
            Ok(b) => b,
            Err(e) => {
                return Err(e);
            },
        };
        let n = slice_be_u16(lb);
        proof {
            assert(be_u16(lb@) == be_u16(old(src)@));
        }
        if n == 0xffff {
            return Ok(None);
        }
        if n >= 0x8000 {
            return Err(WireError::NegativeLength);
        }
        let data = match src.read_bytes(n as usize) {
            Ok(d) => d,
            Err(e) => {
                return Err(e);
            },
        };
        proof {
            assert(data@ =~= old(src)@.subrange(2, 2 + be_u16(old(src)@)));
            assert(src@ =~= old(src)@.skip(2 + be_u16(old(src)@)));
        }
        Ok(Some(lossy_string(data)))
    }
}

impl<T: Decode> Decode for Vec<T> {
    open spec fn dec_wf(data: Seq<u8>) -> bool {
        &&& data.len() >= 4
        &&& rep_wf::<T>(data.skip(4), vec_count(data))
    }

    open spec fn dec_consumed(data: Seq<u8>) -> int {
        4 + rep_consumed::<T>(data.skip(4), vec_count(data))
    }

    open spec fn dec_ok(data: Seq<u8>, v: Self) -> bool {
        rep_ok::<T>(data.skip(4), vec_count(data), v@)
    }

    fn decode<'x>(src: &mut BytesReader<'x>) -> (r: Result<Self, WireError>) {
        let ghost data = src@;
        let length = match <i32 as Decode>::decode(src) {
            Ok(v) => v,
            Err(e) => {
                return Err(e);
            },
        };
        proof {
            assert(src@ =~= data.skip(4));
        }
        let count: usize = if length <= 0 {
            0
        } else {
            length as usize
        };
        proof {
            assert(count as int == vec_count(data));
        }
        match decode_rep::<T>(src, count) {
            Ok(vs) => {
                proof {
                    assert(src@ =~= data.skip(
                        4 + rep_consumed::<T>(data.skip(4), vec_count(data)),
                    ));
                }
                Ok(vs)
            },
            Err(e) => Err(e),
        }
    }
}

impl<T: Decode> Decode for Option<Vec<T>> {
    open spec fn dec_wf(data: Seq<u8>) -> bool {
        &&& data.len() >= 4
        &&& ((be_u32(data) as u32) as i32 == -1 || rep_wf::<T>(data.skip(4), vec_count(data)))
    }

    open spec fn dec_consumed(data: Seq<u8>) -> int {
        if (be_u32(data) as u32) as i32 == -1 {
            4
        } else {
            4 + rep_consumed::<T>(data.skip(4), vec_count(data))
        }
    }

    open spec fn dec_ok(data: Seq<u8>, v: Self) -> bool {
        if (be_u32(data) as u32) as i32 == -1 {
            v is None
        } else {
            v matches Some(vs) && rep_ok::<T>(data.skip(4), vec_count(data), vs@)
        }
    }

    fn decode<'x>(src: &mut BytesReader<'x>) -> (r: Result<Self, WireError>) {
        let ghost data = src@;
        let length = match <i32 as Decode>::decode(src) {
            Ok(v) => v,
            Err(e) => {
                return Err(e);
            },
        };
        proof {
            assert(src@ =~= data.skip(4));
        }
        if length == -1 {
            return Ok(None);
        }
        let count: usize = if length <= 0 {
            0
        } else {
            length as usize
        };
        proof {
            assert(count as int == vec_count(data));
        }
        match decode_rep::<T>(src, count) {
            Ok(vs) => {
                proof {
                    assert(src@ =~= data.skip(
                        4 + rep_consumed::<T>(data.skip(4), vec_count(data)),
                    ));
                }
                Ok(Some(vs))
            },
            Err(e) => Err(e),
        }
    }
}

} // verus!

// --- encoders ----------------------------------------------------------

verus! {

/// The two big-endian bytes of a 16-bit value.
pub open spec fn be2_of(x: u16) -> Seq<u8> {
    seq![(x / 0x100) as u8, (x % 0x100) as u8]
}

/// The four big-endian bytes of a 32-bit value.
pub open spec fn be4_of(x: u32) -> Seq<u8> {
    seq![
        (x / 0x100_0000) as u8,
        ((x / 0x1_0000) % 0x100) as u8,
        ((x / 0x100) % 0x100) as u8,
        (x % 0x100) as u8,
    ]
}

/// Appends the two big-endian bytes of `x`.
pub fn push_be2(dst: &mut Vec<u8>, x: u16)
    ensures
        final(dst)@ == old(dst)@ + be2_of(x),
{
    dst.push((x / 0x100) as u8);
    dst.push((x % 0x100) as u8);
    proof {
        assert(dst@ =~= old(dst)@ + be2_of(x));
    }
}

/// Appends the four big-endian bytes of `x`.
pub fn push_be4(dst: &mut Vec<u8>, x: u32)
    ensures
        final(dst)@ == old(dst)@ + be4_of(x),
{
    dst.push((x / 0x100_0000) as u8);
    dst.push(((x / 0x1_0000) % 0x100) as u8);
    dst.push(((x / 0x100) % 0x100) as u8);
    dst.push((x % 0x100) as u8);
    proof {
        assert(dst@ =~= old(dst)@ + be4_of(x));
    }
}

/// A value encoded onto the back of a byte buffer.
pub trait Encode: Sized {
    /// The bytes this value encodes to.
    spec fn enc(&self) -> Seq<u8>;

    /// True when the value fits the format's length fields.
    spec fn encodable(&self) -> bool;

    /// The byte size of the encoding.
    fn get_size(&self) -> (r: i32)
        requires
            self.encodable(),
        ensures
            r == self.enc().len(),
    ;

    /// Appends the encoding to `dst`.
    fn encode(&self, dst: &mut Vec<u8>)
        requires
            self.encodable(),
            old(dst)@.len() + self.enc().len() <= usize::MAX,
        ensures
            final(dst)@ == old(dst)@ + self.enc(),
    ;
}

impl Encode for i16 {
    open spec fn enc(&self) -> Seq<u8> {
        be2_of(*self as u16)
    }

    open spec fn encodable(&self) -> bool {
        true
    }

    fn get_size(&self) -> (r: i32) {
        2
    }

    fn encode(&self, dst: &mut Vec<u8>) {
        push_be2(dst, *self as u16);
    }
}

impl Encode for i32 {
    open spec fn enc(&self) -> Seq<u8> {
        be4_of(*self as u32)
    }

    open spec fn encodable(&self) -> bool {
        true
    }

    fn get_size(&self) -> (r: i32) {
        4
    }

    fn encode(&self, dst: &mut Vec<u8>) {
        push_be4(dst, *self as u32);
    }
}

impl Encode for String {
    /// A 16-bit length, then the text's UTF-8 bytes.
    open spec fn enc(&self) -> Seq<u8> {
        be2_of(vstd::utf8::encode_utf8(self@).len() as u16) + vstd::utf8::encode_utf8(self@)
    }

    open spec fn encodable(&self) -> bool {
        vstd::utf8::encode_utf8(self@).len() <= 0x7fff
    }

    fn get_size(&self) -> (r: i32) {
        let bytes = self.as_str().as_bytes();
        (bytes.len() + 2) as i32
    }

    fn encode(&self, dst: &mut Vec<u8>) {
        let bytes = self.as_str().as_bytes();
        push_be2(dst, bytes.len() as u16);
        let ghost mid = dst@;
        let mut i: usize = 0;
        while i < bytes.len()
            invariant
                i <= bytes@.len(),
                dst@ == mid + bytes@.take(i as int),
            decreases bytes@.len() - i,
        {
            let b = bytes[i];
            dst.push(b);
            proof {
                assert(bytes@.take(i + 1) =~= bytes@.take(i as int).push(bytes@[i as int]));
                assert(mid + bytes@.take(i as int).push(bytes@[i as int]) =~= (mid + bytes@.take(
                    i as int,
                )).push(bytes@[i as int]));
            }
            i += 1;
        }
        proof {
            assert(bytes@.take(bytes@.len() as int) =~= bytes@);
            assert(mid + bytes@ =~= old(dst)@ + self.enc());
        }
    }
}

/// The concatenated encodings of a sequence of values.
pub open spec fn enc_cat<T: Encode>(vs: Seq<T>) -> Seq<u8>
    decreases vs.len(),
{
    if vs.len() == 0 {
        Seq::empty()
    } else {
        vs[0].enc() + enc_cat::<T>(vs.skip(1))
    }
}

/// Extending the encoded prefix by one element appends its encoding.
pub proof fn lemma_enc_cat_snoc<T: Encode>(vs: Seq<T>, i: int)
    requires
        0 <= i < vs.len(),
    ensures
        enc_cat::<T>(vs.take(i + 1)) == enc_cat::<T>(vs.take(i)) + vs[i].enc(),
    decreases i,
{
    if i == 0 {
        assert(vs.take(0) =~= Seq::<T>::empty());
        assert(enc_cat::<T>(vs.take(0)) == Seq::<u8>::empty());
        assert(vs.take(1) =~= seq![vs[0]]);
        assert(seq![vs[0]].skip(1) =~= Seq::<T>::empty());
        assert(seq![vs[0]][0] == vs[0]);
        assert(enc_cat::<T>(vs.take(1)) == vs[0].enc() + enc_cat::<T>(Seq::<T>::empty()));
        assert(vs[0].enc() + Seq::<u8>::empty() =~= vs[0].enc());
        assert(Seq::<u8>::empty() + vs[0].enc() =~= vs[0].enc());
    } else {
        let tl = vs.skip(1);
        lemma_enc_cat_snoc::<T>(tl, i - 1);
        assert(vs.take(i + 1).skip(1) =~= tl.take(i));
        assert(vs.take(i).skip(1) =~= tl.take(i - 1));
        assert(vs.take(i + 1)[0] == vs[0]);
        assert(vs.take(i)[0] == vs[0]);
        assert(tl[i - 1] == vs[i]);
        assert(vs.take(i + 1).len() == i + 1);
        assert(vs.take(i).len() == i);
        assert(enc_cat::<T>(vs.take(i + 1)) == vs[0].enc() + enc_cat::<T>(tl.take(i)));
        assert(enc_cat::<T>(vs.take(i)) == vs[0].enc() + enc_cat::<T>(tl.take(i - 1)));
        assert(enc_cat::<T>(tl.take(i)) == enc_cat::<T>(tl.take(i - 1)) + vs[i].enc());
        assert((vs[0].enc() + enc_cat::<T>(tl.take(i - 1))) + vs[i].enc() =~= vs[0].enc() + (
        enc_cat::<T>(tl.take(i - 1)) + vs[i].enc()));
    }
}

/// An encoded prefix is never longer than the whole encoding.
pub proof fn lemma_enc_cat_take_le<T: Encode>(vs: Seq<T>, i: int)
    requires
        0 <= i <= vs.len(),
    ensures
        enc_cat::<T>(vs.take(i)).len() <= enc_cat::<T>(vs).len(),
    decreases vs.len() - i,
{
    if i == vs.len() {
        assert(vs.take(i) =~= vs);
    } else {
        lemma_enc_cat_snoc::<T>(vs, i);
        lemma_enc_cat_take_le::<T>(vs, i + 1);
    }
}

impl<T: Encode> Encode for Vec<T> {
    /// A 32-bit element count, then each element's encoding in order.
    open spec fn enc(&self) -> Seq<u8> {
        be4_of(self@.len() as u32) + enc_cat::<T>(self@)
    }

    open spec fn encodable(&self) -> bool {
        &&& self@.len() <= 0x7fff_ffff
        &&& enc_cat::<T>(self@).len() + 4 <= 0x7fff_ffff
        &&& forall|i: int| 0 <= i < self@.len() ==> #[trigger] self@[i].encodable()
    }

    fn get_size(&self) -> (r: i32) {
        let mut sum: i32 = 4;
        let n = self.len();
        proof {
            assert(self@.take(0) =~= Seq::<T>::empty());
        }
        let mut i: usize = 0;
        while i < n
            invariant
                i <= n,
                n == self@.len(),
                self.encodable(),
                sum == 4 + enc_cat::<T>(self@.take(i as int)).len(),
            decreases n - i,
        {
            proof {
                lemma_enc_cat_snoc::<T>(self@, i as int);
                lemma_enc_cat_take_le::<T>(self@, i + 1);
            }
            let s = self[i].get_size();
            sum = sum + s;
            i += 1;
        }
        proof {
            assert(self@.take(n as int) =~= self@);
        }
        sum
    }

    fn encode(&self, dst: &mut Vec<u8>) {
        push_be4(dst, self.len() as u32);
        let ghost mid = dst@;
        let n = self.len();
        proof {
            assert(self@.take(0) =~= Seq::<T>::empty());
            assert(mid + enc_cat::<T>(self@.take(0)) =~= mid);
        }
        let mut i: usize = 0;
        while i < n
            invariant
                i <= n,
                n == self@.len(),
                self.encodable(),
                mid == old(dst)@ + be4_of(self@.len() as u32),
                dst@ == mid + enc_cat::<T>(self@.take(i as int)),
                dst@.len() + (self.enc().len() - 4 - enc_cat::<T>(self@.take(i as int)).len())
                    <= usize::MAX,
            decreases n - i,
        {
            proof {
                lemma_enc_cat_snoc::<T>(self@, i as int);
                lemma_enc_cat_take_le::<T>(self@, i + 1);
            }
            let e = &self[i];
            e.encode(dst);
            proof {
                assert((mid + enc_cat::<T>(self@.take(i as int))) + self@[i as int].enc() =~= mid
                    + enc_cat::<T>(self@.take(i + 1)));
            }
            i += 1;
        }
        proof {
            assert(self@.take(n as int) =~= self@);
            assert(mid + enc_cat::<T>(self@) =~= old(dst)@ + self.enc());
        }
    }
}

} // verus!

// --- framing -----------------------------------------------------------

verus! {

/// Splits one length-prefixed frame off the buffer.  `None` while the
/// buffer holds less than the 32-bit prefix announces: the caller must
/// read more bytes first.  A negative length is malformed.
pub fn decode_frame<'a>(src: &'a [u8]) -> (r: Result<Option<(&'a [u8], &'a [u8])>, WireError>)
    ensures
        match r {
            Ok(step) => match step {
                None => src@.len() < 4 || (be_u32(src@) < 0x8000_0000 && src@.len() < 4 + be_u32(
                    src@,
                )),
                Some(parts) => src@.len() >= 4 + be_u32(src@) && be_u32(src@) < 0x8000_0000
                    && parts.0@ == src@.subrange(4, 4 + be_u32(src@)) && parts.1@ == src@.skip(
                    4 + be_u32(src@),
                ),
            },
            Err(e) => src@.len() >= 4 && be_u32(src@) >= 0x8000_0000 && e
                == WireError::NegativeLength,
        },
{
    if src.len() < 4 {
        return Ok(None);
    }
    let n = slice_be_u32(src);
    if n >= 0x8000_0000 {
        return Err(WireError::NegativeLength);
    }
    let len = n as usize;
    if src.len() < 4 + len {
        return Ok(None);
    }
    let payload = slice_subrange(src, 4, 4 + len);
    let rest = slice_subrange(src, 4 + len, src.len());
    proof {
        assert(rest@ =~= src@.skip(4 + be_u32(src@)));
    }
    Ok(Some((payload, rest)))
}

/// The reply the simple produce handler sends: a 4-byte length then
/// the request's correlation id, echoed back big-endian.
pub fn correlation_response(correlation_id: i32) -> (r: Vec<u8>)
    ensures
        r@ == be4_of(4) + be4_of(correlation_id as u32),
{
    let mut v: Vec<u8> = Vec::new();
    push_be4(&mut v, 4);
    push_be4(&mut v, correlation_id as u32);
    proof {
        assert(v@ =~= be4_of(4) + be4_of(correlation_id as u32));
    }
    v
}

} // verus!

// --- codec laws ---------------------------------------------------------

verus! {

/// Law: the TLV string codec round-trips: any value that a decode of an
/// encodable string's encoding yields is that string, the whole
/// encoding decodes, and exactly its bytes are consumed.
pub proof fn lemma_string_round_trip(s: String, v: String)
    requires
        s.encodable(),
        <String as Decode>::dec_ok(s.enc(), v),
    ensures
        v@ == s@,
        <String as Decode>::dec_wf(s.enc()),
        <String as Decode>::dec_consumed(s.enc()) == s.enc().len(),
{
    let data = s.enc();
    let bytes = vstd::utf8::encode_utf8(s@);
    let n = bytes.len() as u16;
    assert(data[0] == (n / 0x100) as u8);
    assert(data[1] == (n % 0x100) as u8);
    assert(be_u16(data) == n);
    assert(data.subrange(2, 2 + be_u16(data)) =~= bytes);
    vstd::utf8::encode_utf8_valid_utf8(s@);
    vstd::utf8::encode_utf8_decode_utf8(s@);
}

} // verus!
