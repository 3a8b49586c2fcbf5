//! The message codec: the fixed four-byte preamble, the header field array
//! (with its own per-field alignment rules) and the padded body.
//!
//! Header entries are 8-byte aligned relative to the *start of the header
//! array*; the body starts at an 8-byte boundary relative to the *start of
//! the whole message*; the declared header-array length excludes the trailing
//! padding to the body boundary; no padding follows the body.

use vstd::bytes::*;
use vstd::prelude::*;
use vstd::slice::{slice_index_get, slice_subrange, slice_to_vec};
use vstd::utf8::*;

use crate::serialize::{bytes_to_string, push_bytes};
use crate::utils::{adjust_padding, align_counter, align_cursor_in, align_up, pad_len, zero_bytes, DbusError};
use crate::utils::lemma_pad_len_bounds;

verus! {

/// ASCII `l`, the little-endian tag.
pub const BYTE_LITTLE: u8 = 108;

/// ASCII `b`, the big-endian tag.
pub const BYTE_BIG: u8 = 98;

/// ASCII `o`, the object-path type code.
pub const BYTE_OBJECT: u8 = 111;

/// ASCII `g`, the signature type code.
pub const BYTE_SIGNATURE: u8 = 103;

/// ASCII `s`, the string type code.
pub const BYTE_STRING: u8 = 115;

/// ASCII `u`, the u32 type code.
pub const BYTE_U32: u8 = 117;

/// The endianness tag of a message.  Only little-endian framing is produced
/// or accepted by this implementation.
#[derive(Debug, PartialEq, Eq, Structural)]
pub enum Endian {
    Little,
    Big,
}

impl Endian {
    pub open spec fn byte_spec(self) -> u8 {
        match self {
            Endian::Big => BYTE_BIG,
            Endian::Little => BYTE_LITTLE,
        }
    }

    pub fn to_byte(&self) -> (b: u8)
        ensures
            b == self.byte_spec(),
    {
        match self {
            Endian::Big => BYTE_BIG,
            Endian::Little => BYTE_LITTLE,
        }
    }

    /// `None` for any byte other than the two endianness tags.
    pub fn from_byte(byte: u8) -> (r: Option<Endian>)
        ensures
            r matches Some(e) ==> e.byte_spec() == byte,
            byte == BYTE_LITTLE ==> r == Some(Endian::Little),
            byte == BYTE_BIG ==> r == Some(Endian::Big),
            byte != BYTE_LITTLE && byte != BYTE_BIG ==> r is None,
    {
        match byte {
            BYTE_LITTLE => Some(Endian::Little),
            BYTE_BIG => Some(Endian::Big),
            _ => None,
        }
    }
}

/// The wire signature of a header value.
#[derive(Debug, PartialEq, Eq, Structural)]
pub enum HeaderSignature {
    Object,
    U32,
    String,
    Signature,
}

impl HeaderSignature {
    pub open spec fn byte_spec(self) -> u8 {
        match self {
            HeaderSignature::Object => BYTE_OBJECT,
            HeaderSignature::Signature => BYTE_SIGNATURE,
            HeaderSignature::String => BYTE_STRING,
            HeaderSignature::U32 => BYTE_U32,
        }
    }

    pub fn to_byte(&self) -> (b: u8)
        ensures
            b == self.byte_spec(),
    {
        match self {
            HeaderSignature::Object => BYTE_OBJECT,
            HeaderSignature::Signature => BYTE_SIGNATURE,
            HeaderSignature::String => BYTE_STRING,
            HeaderSignature::U32 => BYTE_U32,
        }
    }

    /// `None` for a type code this implementation does not handle in headers.
    pub fn from_byte(byte: u8) -> (r: Option<HeaderSignature>)
        ensures
            r matches Some(s) ==> s.byte_spec() == byte,
            byte == BYTE_OBJECT ==> r == Some(HeaderSignature::Object),
            byte == BYTE_SIGNATURE ==> r == Some(HeaderSignature::Signature),
            byte == BYTE_STRING ==> r == Some(HeaderSignature::String),
            byte == BYTE_U32 ==> r == Some(HeaderSignature::U32),
            byte != BYTE_OBJECT && byte != BYTE_SIGNATURE && byte != BYTE_STRING && byte != BYTE_U32 ==> r is None,
    {
        match byte {
            BYTE_OBJECT => Some(HeaderSignature::Object),
            BYTE_SIGNATURE => Some(HeaderSignature::Signature),
            BYTE_STRING => Some(HeaderSignature::String),
            BYTE_U32 => Some(HeaderSignature::U32),
            _ => None,
        }
    }
}

/// The type of a message.  Only `MethodCall` is produced; `MethodReturn` and
/// `Error` are consumed; `Signal` is parsed and ignored.
#[derive(Debug, PartialEq, Eq, Structural)]
pub enum MessageType {
    MethodCall,
    MethodReturn,
    Error,
    Signal,
}

/// The wire tag of each message type.
pub open spec fn mtype_byte(m: MessageType) -> u8 {
    match m {
        MessageType::MethodCall => 1,
        MessageType::MethodReturn => 2,
        MessageType::Error => 3,
        MessageType::Signal => 4,
    }
}

/// The kind of a header field.
#[derive(Debug, PartialEq, Eq, Structural)]
pub enum HeaderFieldKind {
    Path,
    Interface,
    Member,
    ErrorName,
    ReplySerial,
    Destination,
    Sender,
    BodySignature,
    UnixFd,
}

/// The wire tag of each header field kind.
pub open spec fn kind_byte(k: HeaderFieldKind) -> u8 {
    match k {
        HeaderFieldKind::Path => 1,
        HeaderFieldKind::Interface => 2,
        HeaderFieldKind::Member => 3,
        HeaderFieldKind::ErrorName => 4,
        HeaderFieldKind::ReplySerial => 5,
        HeaderFieldKind::Destination => 6,
        HeaderFieldKind::Sender => 7,
        HeaderFieldKind::BodySignature => 8,
        HeaderFieldKind::UnixFd => 9,
    }
}

/// The mandatory value signature of each header field kind.
pub open spec fn kind_sig(k: HeaderFieldKind) -> HeaderSignature {
    match k {
        HeaderFieldKind::Path => HeaderSignature::Object,
        HeaderFieldKind::ReplySerial => HeaderSignature::U32,
        HeaderFieldKind::BodySignature => HeaderSignature::Signature,
        HeaderFieldKind::UnixFd => HeaderSignature::U32,
        _ => HeaderSignature::String,
    }
}

impl HeaderFieldKind {
    /// The signature that a value of this header kind must carry.
    pub fn signature(&self) -> (s: HeaderSignature)
        ensures
            s == kind_sig(*self),
    {
        match self {
            HeaderFieldKind::Path => HeaderSignature::Object,
            HeaderFieldKind::ReplySerial => HeaderSignature::U32,
            HeaderFieldKind::BodySignature => HeaderSignature::Signature,
            HeaderFieldKind::UnixFd => HeaderSignature::U32,
            _ => HeaderSignature::String,
        }
    }
}

/// The payload of a header field: a string (also used for object paths and
/// signatures) or a 32-bit integer.
#[derive(Debug, PartialEq)]
pub enum HeaderFieldValue {
    String(String),
    U32(u32),
}

/// The abstract value of a `HeaderFieldValue`.
#[verifier::ext_equal]
pub enum HeaderValueModel {
    Str(Seq<char>),
    U32(u32),
}

impl View for HeaderFieldValue {
    type V = HeaderValueModel;

    open spec fn view(&self) -> HeaderValueModel {
        match self {
            HeaderFieldValue::String(s) => HeaderValueModel::Str(s@),
            HeaderFieldValue::U32(u) => HeaderValueModel::U32(*u),
        }
    }
}

/// The bytes of a header value, without its length prefix: UTF-8 plus one
/// NUL terminator for strings, four little-endian bytes for integers.
pub open spec fn value_bytes(v: HeaderValueModel) -> Seq<u8> {
    match v {
        HeaderValueModel::Str(s) => encode_utf8(s) + seq![0u8],
        HeaderValueModel::U32(u) => spec_u32_to_le_bytes(u),
    }
}

/// The declared length of a header value: the string's byte length without
/// the NUL, or 4 for an integer.
pub open spec fn value_len(v: HeaderValueModel) -> int {
    match v {
        HeaderValueModel::Str(s) => (encode_utf8(s).len() as usize) as int,
        HeaderValueModel::U32(u) => 4,
    }
}

impl HeaderFieldValue {
    /// The value's payload bytes: UTF-8 plus a NUL terminator for a string,
    /// four little-endian bytes for an integer.
    pub fn as_bytes(&self) -> (r: Vec<u8>)
        ensures
            r@ == value_bytes(self@),
    {
        match self {
            HeaderFieldValue::String(s) => {
                let mut t: Vec<u8> = Vec::new();
                push_bytes(&mut t, s.as_str().as_bytes());
                t.push(0);
                proof {
                    assert(t@ =~= value_bytes(self@));
                }
                t
            },
            HeaderFieldValue::U32(v) => u32_to_le_bytes(*v),
        }
    }

    /// The declared length of the value on the wire (a string's byte length
    /// excludes its NUL terminator).
    pub fn len(&self) -> (n: usize)
        ensures
            n as int == value_len(self@),
    {
        match self {
            HeaderFieldValue::String(s) => s.as_str().len(),
            HeaderFieldValue::U32(_) => 4,
        }
    }
}

/// One header field: a kind tag and a value.
#[derive(Debug, PartialEq)]
pub struct Header {
    pub kind: HeaderFieldKind,
    pub value: HeaderFieldValue,
}

/// The abstract value of a `Header`.
#[verifier::ext_equal]
pub struct HeaderModel {
    pub kind: HeaderFieldKind,
    pub value: HeaderValueModel,
}

impl View for Header {
    type V = HeaderModel;

    open spec fn view(&self) -> HeaderModel {
        HeaderModel { kind: self.kind, value: self.value@ }
    }
}

/// A header whose value variant agrees with what its kind demands, and whose
/// string payload fits the u32 length prefix.
pub open spec fn header_wf(h: HeaderModel) -> bool {
    &&& match h.value {
        HeaderValueModel::Str(s) => kind_sig(h.kind) != HeaderSignature::U32 && encode_utf8(
            s,
        ).len() < 0x1_0000_0000,
        HeaderValueModel::U32(u) => kind_sig(h.kind) == HeaderSignature::U32,
    }
    &&& (h.kind == HeaderFieldKind::BodySignature ==> value_len(h.value) < 256)
}

/// The length prefix written before a header value: one byte for a body
/// signature, nothing for the u32-valued kinds, four little-endian bytes for
/// the string-valued kinds.
pub open spec fn value_len_prefix(h: HeaderModel) -> Seq<u8> {
    if h.kind == HeaderFieldKind::BodySignature {
        seq![value_len(h.value) as u8]
    } else if kind_sig(h.kind) == HeaderSignature::U32 {
        Seq::<u8>::empty()
    } else {
        spec_u32_to_le_bytes(value_len(h.value) as u32)
    }
}

/// One encoded header entry starting at position `at` of the header array:
/// padding to an 8-byte boundary, the four-byte entry preamble (kind,
/// signature length 1, type code, NUL), the value length prefix and the
/// value bytes.
pub open spec fn hdr_enc(h: HeaderModel, at: int) -> Seq<u8> {
    zero_bytes(pad_len(at, 8)) + seq![
        kind_byte(h.kind),
        1u8,
        kind_sig(h.kind).byte_spec(),
        0u8,
    ] + value_len_prefix(h) + value_bytes(h.value)
}

/// The encoded header array, the first entry starting at position `at`.
pub open spec fn hdrs_enc_from(hs: Seq<HeaderModel>, at: int) -> Seq<u8>
    decreases hs.len(),
{
    if hs.len() == 0 {
        Seq::<u8>::empty()
    } else {
        hdr_enc(hs[0], at) + hdrs_enc_from(hs.drop_first(), at + hdr_enc(hs[0], at).len())
    }
}

/// The encoded header array (its own positions start at 0).
pub open spec fn hdrs_enc(hs: Seq<HeaderModel>) -> Seq<u8> {
    hdrs_enc_from(hs, 0)
}

/// Extending the encoded header array by one entry appends that entry's
/// encoding at the position where the previous entries end.
proof fn lemma_hdrs_enc_push(hs: Seq<HeaderModel>, i: int, at: int)
    requires
        0 <= i < hs.len(),
    ensures
        hdrs_enc_from(hs.take(i + 1), at) == hdrs_enc_from(hs.take(i), at) + hdr_enc(
            hs[i],
            at + hdrs_enc_from(hs.take(i), at).len(),
        ),
    decreases i,
{
    let e0 = hdr_enc(hs[0], at);
    let at2 = at + e0.len();
    let rest = hs.drop_first();
    assert(hs.take(i + 1)[0] == hs[0]);
    assert(hs.take(i + 1).drop_first() =~= rest.take(i));
    if i == 0 {
        assert(hs.take(0) =~= Seq::<HeaderModel>::empty());
        assert(rest.take(0) =~= Seq::<HeaderModel>::empty());
        assert(hdrs_enc_from(hs.take(1), at) == hdr_enc(hs[0], at) + hdrs_enc_from(
            rest.take(0),
            at2,
        ));
        assert(hdrs_enc_from(hs.take(1), at) =~= hdrs_enc_from(hs.take(0), at) + hdr_enc(
            hs[0],
            at + 0,
        ));
    } else {
        lemma_hdrs_enc_push(rest, i - 1, at2);
        assert(hs.take(i)[0] == hs[0]);
        assert(hs.take(i).drop_first() =~= rest.take(i - 1));
        assert(hdrs_enc_from(hs.take(i), at) == e0 + hdrs_enc_from(rest.take(i - 1), at2));
        assert(rest[i - 1] == hs[i]);
        let b = hdrs_enc_from(rest.take(i - 1), at2);
        let c = rest[i - 1];
        let ce = hdr_enc(c, at2 + b.len());
        assert(hdrs_enc_from(rest.take(i), at2) == b + ce);
        assert(hdrs_enc_from(hs.take(i + 1), at) == e0 + (b + ce));
        assert(e0 + (b + ce) =~= (e0 + b) + ce);
    }
}

/// The views of a sequence of headers.
pub open spec fn headers_view(hs: Seq<Header>) -> Seq<HeaderModel> {
    hs.map_values(|h: Header| h@)
}

/// Serialize the headers into a fresh buffer, each entry 8-byte aligned
/// relative to that buffer's start.  The result carries no trailing padding:
/// its length is the declared header-array length.
pub fn serialize_headers(headers: &[Header]) -> (r: Vec<u8>)
    ensures
        r@ == hdrs_enc(headers_view(headers@)),
{
    let mut ret: Vec<u8> = Vec::new();
    let n: usize = headers.len();
    let mut i: usize = 0;
    while i < n
        invariant
            i <= n,
            n == headers@.len(),
            ret@ == hdrs_enc_from(headers_view(headers@).take(i as int), 0),
        decreases n - i,
    {
        proof {
            lemma_hdrs_enc_push(headers_view(headers@), i as int, 0);
            lemma_pad_len_bounds(ret@.len() as int, 8);
        }
        let header = slice_index_get(headers, i);

        adjust_padding(&mut ret, 8);

        let header_kind: u8 = match &header.kind {
            HeaderFieldKind::Path => 1,
            HeaderFieldKind::Interface => 2,
            HeaderFieldKind::Member => 3,
            HeaderFieldKind::ErrorName => 4,
            HeaderFieldKind::ReplySerial => 5,
            HeaderFieldKind::Destination => 6,
            HeaderFieldKind::Sender => 7,
            HeaderFieldKind::BodySignature => 8,
            HeaderFieldKind::UnixFd => 9,
        };

        let header_signature: u8 = header.kind.signature().to_byte();

        ret.push(header_kind);
        ret.push(1);
        ret.push(header_signature);
        ret.push(0);

        let header_value_length: usize = header.value.len();

        match &header.kind {
            HeaderFieldKind::BodySignature => {
                let len8: u8 = #[verifier::truncate] (header_value_length as u8);
                ret.push(len8);
            },
            HeaderFieldKind::ReplySerial | HeaderFieldKind::UnixFd => {},
            _ => {
                let len32: u32 = #[verifier::truncate] (header_value_length as u32);
                let mut lb = u32_to_le_bytes(len32);
                ret.append(&mut lb);
            },
        }

        let mut vb = header.value.as_bytes();
        ret.append(&mut vb);

        i += 1;
        proof {
            assert(headers_view(headers@).take(i as int)[i - 1] == headers@[i - 1]@);
            assert(ret@ =~= hdrs_enc_from(headers_view(headers@).take(i as int), 0));
        }
    }
    proof {
        assert(headers_view(headers@).take(n as int) =~= headers_view(headers@));
    }
    ret
}

/// The header field kind of a wire tag, if the tag is known.
pub open spec fn kind_of_byte(b: u8) -> Option<HeaderFieldKind> {
    if b == 1 {
        Some(HeaderFieldKind::Path)
    } else if b == 2 {
        Some(HeaderFieldKind::Interface)
    } else if b == 3 {
        Some(HeaderFieldKind::Member)
    } else if b == 4 {
        Some(HeaderFieldKind::ErrorName)
    } else if b == 5 {
        Some(HeaderFieldKind::ReplySerial)
    } else if b == 6 {
        Some(HeaderFieldKind::Destination)
    } else if b == 7 {
        Some(HeaderFieldKind::Sender)
    } else if b == 8 {
        Some(HeaderFieldKind::BodySignature)
    } else if b == 9 {
        Some(HeaderFieldKind::UnixFd)
    } else {
        None
    }
}

/// The header signature of a type-code byte, if this implementation knows it.
pub open spec fn sig_of_byte(b: u8) -> Option<HeaderSignature> {
    if b == BYTE_OBJECT {
        Some(HeaderSignature::Object)
    } else if b == BYTE_SIGNATURE {
        Some(HeaderSignature::Signature)
    } else if b == BYTE_STRING {
        Some(HeaderSignature::String)
    } else if b == BYTE_U32 {
        Some(HeaderSignature::U32)
    } else {
        None
    }
}

/// The spec-level outcome of parsing a header entry (or a header array):
/// a value and the cursor one past it, a malformed input, or an input using
/// an unsupported protocol feature.
pub enum HeaderDec {
    Found(HeaderModel, int),
    Bad,
    Unsupported,
}

/// A header value read at position `v0`, according to the signature that
/// `kind` demands.
pub open spec fn hdr_value_dec(buf: Seq<u8>, v0: int, kind: HeaderFieldKind) -> HeaderDec {
    match kind_sig(kind) {
        HeaderSignature::U32 => if v0 + 4 <= buf.len() {
            HeaderDec::Found(
                HeaderModel {
                    kind,
                    value: HeaderValueModel::U32(spec_u32_from_le_bytes(buf.subrange(v0, v0 + 4))),
                },
                v0 + 4,
            )
        } else {
            HeaderDec::Bad
        },
        HeaderSignature::Signature => if v0 + 1 <= buf.len() {
            let n = buf[v0] as int;
            if v0 + 1 + n + 1 <= buf.len() {
                let bytes = buf.subrange(v0 + 1, v0 + 1 + n);
                if valid_utf8(bytes) {
                    HeaderDec::Found(
                        HeaderModel { kind, value: HeaderValueModel::Str(decode_utf8(bytes)) },
                        v0 + 1 + n + 1,
                    )
                } else {
                    HeaderDec::Bad
                }
            } else {
                HeaderDec::Bad
            }
        } else {
            HeaderDec::Bad
        },
        _ => if v0 + 4 <= buf.len() {
            let n = spec_u32_from_le_bytes(buf.subrange(v0, v0 + 4)) as int;
            if v0 + 4 + n + 1 <= buf.len() {
                let bytes = buf.subrange(v0 + 4, v0 + 4 + n);
                if valid_utf8(bytes) {
                    HeaderDec::Found(
                        HeaderModel { kind, value: HeaderValueModel::Str(decode_utf8(bytes)) },
                        v0 + 4 + n + 1,
                    )
                } else {
                    HeaderDec::Bad
                }
            } else {
                HeaderDec::Bad
            }
        } else {
            HeaderDec::Bad
        },
    }
}

/// One header entry read at position `at`: the kind byte, the one-byte
/// signature length (anything but 1 is an unsupported feature), the type
/// code (which must match the kind), the skipped NUL, then the value.
pub open spec fn hdr_dec(buf: Seq<u8>, at: int) -> HeaderDec {
    if at + 2 > buf.len() {
        HeaderDec::Bad
    } else {
        match kind_of_byte(buf[at]) {
            None => HeaderDec::Bad,
            Some(kind) => {
                if buf[at + 1] != 1 {
                    HeaderDec::Unsupported
                } else if at + 3 > buf.len() {
                    HeaderDec::Bad
                } else {
                    match sig_of_byte(buf[at + 2]) {
                        None => HeaderDec::Bad,
                        Some(actual) => {
                            if actual != kind_sig(kind) {
                                HeaderDec::Bad
                            } else {
                                hdr_value_dec(buf, at + 4, kind)
                            }
                        },
                    }
                }
            },
        }
    }
}

/// A found header entry spans at least four bytes and ends inside the buffer.
pub proof fn lemma_hdr_dec_bounds(buf: Seq<u8>, at: int)
    ensures
        hdr_dec(buf, at) matches HeaderDec::Found(h, end) ==> at + 4 <= end <= buf.len(),
{
}

/// The spec-level outcome of parsing a whole header array.
pub enum HeadersDec {
    Done(Seq<HeaderModel>),
    Bad,
    Unsupported,
}

/// All header entries of `buf` from position `at` on, each followed by
/// padding to the next 8-byte boundary of the array.
pub open spec fn hdrs_dec_from(buf: Seq<u8>, at: int) -> HeadersDec
    decreases buf.len() + 8 - at,
    via hdrs_dec_from_decreases
{
    if at >= buf.len() {
        HeadersDec::Done(Seq::<HeaderModel>::empty())
    } else {
        match hdr_dec(buf, at) {
            HeaderDec::Found(h, end) => match hdrs_dec_from(buf, align_up(end, 8)) {
                HeadersDec::Done(hs) => HeadersDec::Done(seq![h] + hs),
                HeadersDec::Bad => HeadersDec::Bad,
                HeadersDec::Unsupported => HeadersDec::Unsupported,
            },
            HeaderDec::Bad => HeadersDec::Bad,
            HeaderDec::Unsupported => HeadersDec::Unsupported,
        }
    }
}

#[via_fn]
proof fn hdrs_dec_from_decreases(buf: Seq<u8>, at: int) {
    if at < buf.len() {
        lemma_hdr_dec_bounds(buf, at);
        if let HeaderDec::Found(h, end) = hdr_dec(buf, at) {
            lemma_pad_len_bounds(end, 8);
        }
    }
}

/// The whole header array decoded from its own position 0.
pub open spec fn hdrs_dec(buf: Seq<u8>) -> HeadersDec {
    hdrs_dec_from(buf, 0)
}

impl Header {
    /// Parse a single header entry starting at `*ctr`, leaving `*ctr` one
    /// past its last value byte (the padding to the next entry is the
    /// caller's business).
    pub fn parse(buf: &[u8], ctr: &mut usize) -> (r: Result<Header, DbusError>)
        requires
            *old(ctr) <= buf@.len(),
        ensures
            match hdr_dec(buf@, *old(ctr) as int) {
                HeaderDec::Found(h, end) => r matches Ok(hh) && hh@ == h && *final(ctr) == end,
                HeaderDec::Bad => r matches Err(e) && e is IncorrectMessage,
                HeaderDec::Unsupported => r matches Err(e) && e is IncompleteImplementation,
            },
    {
        if buf.len() - *ctr < 2 {
            return Err(DbusError::IncorrectMessage("header entry runs past the buffer".to_owned()));
        }
        let header_kind = match *slice_index_get(buf, *ctr) {
            1 => HeaderFieldKind::Path,
            2 => HeaderFieldKind::Interface,
            3 => HeaderFieldKind::Member,
            4 => HeaderFieldKind::ErrorName,
            5 => HeaderFieldKind::ReplySerial,
            6 => HeaderFieldKind::Destination,
            7 => HeaderFieldKind::Sender,
            8 => HeaderFieldKind::BodySignature,
            9 => HeaderFieldKind::UnixFd,
            _ => {
                return Err(DbusError::IncorrectMessage("invalid header kind".to_owned()));
            },
        };

        // length of the value signature; everything this implementation
        // supports has a one-byte signature
        let signature_length = *slice_index_get(buf, *ctr + 1);
        if signature_length != 1 {
            return Err(
                DbusError::IncompleteImplementation("some complex valued header is sent".to_owned()),
            );
        }
        if buf.len() - *ctr < 3 {
            return Err(
                DbusError::IncorrectMessage("header signature runs past the buffer".to_owned()),
            );
        }
        let actual_signature = match HeaderSignature::from_byte(*slice_index_get(buf, *ctr + 2)) {
            Some(s) => s,
            None => {
                return Err(DbusError::IncorrectMessage("unexpected header signature".to_owned()));
            },
        };

        let expected_signature = header_kind.signature();
        if actual_signature != expected_signature {
            return Err(DbusError::IncorrectMessage("header signature mismatch".to_owned()));
        }

        // the kind byte, the signature length, the signature itself and the
        // NUL terminator that always follows it; any value needs at least one
        // more byte past those four
        if buf.len() - *ctr < 4 {
            return Err(DbusError::IncorrectMessage("header value runs past the buffer".to_owned()));
        }
        *ctr += 4;

        let value = match expected_signature {
            HeaderSignature::U32 => {
                if 4 <= buf.len() - *ctr {
                    let v = u32_from_le_bytes(slice_subrange(buf, *ctr, *ctr + 4));
                    *ctr += 4;
                    HeaderFieldValue::U32(v)
                } else {
                    return Err(
                        DbusError::IncorrectMessage("header value runs past the buffer".to_owned()),
                    );
                }
            },
            HeaderSignature::Signature => {
                // same layout as a string, but with a one-byte length prefix
                if 1 <= buf.len() - *ctr {
                    let n = *slice_index_get(buf, *ctr) as usize;
                    *ctr += 1;
                    let rem: usize = buf.len() - *ctr;
                    if rem >= 1 && n <= rem - 1 {
                        let bytes = slice_to_vec(slice_subrange(buf, *ctr, *ctr + n));
                        match bytes_to_string(bytes) {
                            Some(s) => {
                                *ctr += n + 1;
                                HeaderFieldValue::String(s)
                            },
                            None => {
                                return Err(
                                    DbusError::IncorrectMessage(
                                        "header value is not UTF-8".to_owned(),
                                    ),
                                );
                            },
                        }
                    } else {
                        return Err(
                            DbusError::IncorrectMessage(
                                "header value runs past the buffer".to_owned(),
                            ),
                        );
                    }
                } else {
                    return Err(
                        DbusError::IncorrectMessage("header value runs past the buffer".to_owned()),
                    );
                }
            },
            _ => {
                // object paths and plain strings share one layout
                if 4 <= buf.len() - *ctr {
                    let n32 = u32_from_le_bytes(slice_subrange(buf, *ctr, *ctr + 4));
                    *ctr += 4;
                    let n = n32 as usize;
                    let rem: usize = buf.len() - *ctr;
                    if rem >= 1 && n <= rem - 1 {
                        let bytes = slice_to_vec(slice_subrange(buf, *ctr, *ctr + n));
                        match bytes_to_string(bytes) {
                            Some(s) => {
                                *ctr += n + 1;
                                HeaderFieldValue::String(s)
                            },
                            None => {
                                return Err(
                                    DbusError::IncorrectMessage(
                                        "header value is not UTF-8".to_owned(),
                                    ),
                                );
                            },
                        }
                    } else {
                        return Err(
                            DbusError::IncorrectMessage(
                                "header value runs past the buffer".to_owned(),
                            ),
                        );
                    }
                } else {
                    return Err(
                        DbusError::IncorrectMessage("header value runs past the buffer".to_owned()),
                    );
                }
            },
        };
        Ok(Header { kind: header_kind, value })
    }
}

/// Decode a complete header array: entries at 8-byte boundaries of the
/// array, until the array is exhausted.
#[verifier::loop_isolation(false)]
pub fn deserialize_headers(buf: &[u8]) -> (r: Result<Vec<Header>, DbusError>)
    ensures
        match hdrs_dec(buf@) {
            HeadersDec::Done(hs) => r matches Ok(v) && headers_view(v@) == hs,
            HeadersDec::Bad => r matches Err(e) && e is IncorrectMessage,
            HeadersDec::Unsupported => r matches Err(e) && e is IncompleteImplementation,
        },
{
    let mut ret: Vec<Header> = Vec::new();
    let mut ctr: usize = 0;
    // headers are always aligned at an 8-byte boundary
    align_counter(&mut ctr, 8);
    while ctr < buf.len()
        invariant
            ctr <= buf@.len() + 8,
            match hdrs_dec_from(buf@, ctr as int) {
                HeadersDec::Done(hs) => hdrs_dec(buf@) == HeadersDec::Done(
                    headers_view(ret@) + hs,
                ),
                HeadersDec::Bad => hdrs_dec(buf@) is Bad,
                HeadersDec::Unsupported => hdrs_dec(buf@) is Unsupported,
            },
        decreases buf@.len() + 8 - ctr,
    {
        let ghost cur = ctr as int;
        proof {
            lemma_hdr_dec_bounds(buf@, cur);
        }
        let header = match Header::parse(buf, &mut ctr) {
            Ok(h) => h,
            Err(e) => {
                return Err(e);
            },
        };
        let ghost end = ctr as int;
        proof {
            lemma_pad_len_bounds(ctr as int, 8);
        }
        let ok = align_cursor_in(buf.len(), &mut ctr, 8);
        let ghost prev = headers_view(ret@);
        ret.push(header);
        proof {
            assert(headers_view(ret@) =~= prev.push(header@));
            if let HeadersDec::Done(hs) = hdrs_dec_from(buf@, align_up(end, 8)) {
                assert(prev.push(header@) + hs =~= prev + (seq![header@] + hs));
            }
        }
        if !ok {
            // the next 8-byte boundary lies past the end of the array, so
            // this entry was the last one
            proof {
                assert(hdrs_dec_from(buf@, align_up(end, 8)) == HeadersDec::Done(
                    Seq::<HeaderModel>::empty(),
                ));
                assert(headers_view(ret@) + Seq::<HeaderModel>::empty() =~= headers_view(ret@));
            }
            return Ok(ret);
        }
    }
    proof {
        if let HeadersDec::Done(hs) = hdrs_dec_from(buf@, ctr as int) {
            assert(headers_view(ret@) + hs =~= headers_view(ret@));
        }
    }
    Ok(ret)
}

/// Message preamble: the initial 4 bytes of every message.
#[derive(Debug)]
pub struct Preamble {
    pub endian: Endian,
    pub mtype: MessageType,
    pub flags: u8,
    pub version: u8,
}

impl Preamble {
    /// The normalized form every preamble of this implementation has:
    /// little-endian, no flags, protocol version 1.
    pub open spec fn normalized(self) -> bool {
        self.endian == Endian::Little && self.flags == 0 && self.version == 1
    }

    /// A normalized preamble for the given message type.
    pub fn new(mtype: MessageType) -> (r: Preamble)
        ensures
            r.mtype == mtype,
            r.normalized(),
    {
        Preamble { endian: Endian::Little, mtype, flags: 0, version: 1 }
    }
}

/// The abstract value of a `Message`: its type, serial, header models and
/// body bytes.  Endianness, flags and version are normalized and carry no
/// information.
#[verifier::ext_equal]
pub struct MessageModel {
    pub mtype: MessageType,
    pub serial: u32,
    pub headers: Seq<HeaderModel>,
    pub body: Seq<u8>,
}

/// A complete message transported over a bus connection.
#[derive(Debug)]
pub struct Message {
    /// Initial 4 byte preamble needed for all messages
    pub preamble: Preamble,
    /// Serial ID of message
    pub serial: u32,
    /// Message headers
    pub headers: Vec<Header>,
    /// Actual body, serialized
    pub body: Vec<u8>,
}

impl View for Message {
    type V = MessageModel;

    open spec fn view(&self) -> MessageModel {
        MessageModel {
            mtype: self.preamble.mtype,
            serial: self.serial,
            headers: headers_view(self.headers@),
            body: self.body@,
        }
    }
}

impl Message {
    /// The preamble is normalized; `new` establishes this and `serialize`
    /// relies on it.
    pub open spec fn wf(self) -> bool {
        self.preamble.normalized()
    }

    pub fn new(mtype: MessageType, serial: u32, headers: Vec<Header>, body: Vec<u8>) -> (r:
        Message)
        ensures
            r@ == (MessageModel { mtype, serial, headers: headers_view(headers@), body: body@ }),
            r.wf(),
    {
        let preamble = Preamble::new(mtype);
        Message { preamble, serial, headers, body }
    }
}

/// The message type of a wire tag, if the tag is one of the four known ones.
pub open spec fn mtype_of_byte(b: u8) -> Option<MessageType> {
    if b == 1 {
        Some(MessageType::MethodCall)
    } else if b == 2 {
        Some(MessageType::MethodReturn)
    } else if b == 3 {
        Some(MessageType::Error)
    } else if b == 4 {
        Some(MessageType::Signal)
    } else {
        None
    }
}

/// The complete wire image of a message: preamble, body length, serial,
/// header-array length (without trailing padding), the header array, padding
/// to an 8-byte boundary from the message start, then the body, unpadded.
pub open spec fn msg_enc(m: MessageModel) -> Seq<u8> {
    let hdrs = hdrs_enc(m.headers);
    let head = seq![BYTE_LITTLE, mtype_byte(m.mtype), 0u8, 1u8] + spec_u32_to_le_bytes(
        m.body.len() as u32,
    ) + spec_u32_to_le_bytes(m.serial) + spec_u32_to_le_bytes(hdrs.len() as u32) + hdrs;
    head + zero_bytes(pad_len(head.len() as int, 8)) + m.body
}

/// The spec-level outcome of decoding one message at position `at` (the
/// message's own start, to which its body alignment is relative).
pub enum MsgDec {
    Parsed(MessageModel, int),
    Bad,
    Unsupported,
}

/// One message decoded from `buf` starting at `at`.
pub open spec fn msg_dec(buf: Seq<u8>, at: int) -> MsgDec {
    if at + 1 > buf.len() {
        MsgDec::Bad
    } else if buf[at] != BYTE_LITTLE {
        MsgDec::Unsupported
    } else if at + 4 > buf.len() {
        MsgDec::Bad
    } else {
        match mtype_of_byte(buf[at + 1]) {
            None => MsgDec::Bad,
            Some(mtype) => {
                if buf[at + 3] != 1 {
                    MsgDec::Unsupported
                } else if at + 16 > buf.len() {
                    MsgDec::Bad
                } else {
                    let body_len = spec_u32_from_le_bytes(buf.subrange(at + 4, at + 8)) as int;
                    let serial = spec_u32_from_le_bytes(buf.subrange(at + 8, at + 12));
                    let hl = spec_u32_from_le_bytes(buf.subrange(at + 12, at + 16)) as int;
                    if at + 16 + hl > buf.len() {
                        MsgDec::Bad
                    } else {
                        match hdrs_dec(buf.subrange(at + 16, at + 16 + hl)) {
                            HeadersDec::Done(hs) => {
                                let bodystart = at + align_up(16 + hl, 8);
                                if bodystart + body_len <= buf.len() {
                                    MsgDec::Parsed(
                                        MessageModel {
                                            mtype,
                                            serial,
                                            headers: hs,
                                            body: buf.subrange(bodystart, bodystart + body_len),
                                        },
                                        bodystart + body_len,
                                    )
                                } else {
                                    MsgDec::Bad
                                }
                            },
                            HeadersDec::Bad => MsgDec::Bad,
                            HeadersDec::Unsupported => MsgDec::Unsupported,
                        }
                    }
                }
            },
        }
    }
}

/// A parsed message ends inside the buffer, at least 16 bytes past its start.
pub proof fn lemma_msg_dec_bounds(buf: Seq<u8>, at: int)
    requires
        0 <= at <= buf.len(),
    ensures
        msg_dec(buf, at) matches MsgDec::Parsed(m, end) ==> at + 16 <= end <= buf.len(),
{
    if at + 16 <= buf.len() {
        let hl = spec_u32_from_le_bytes(buf.subrange(at + 12, at + 16)) as int;
        lemma_pad_len_bounds(16 + hl, 8);
    }
}

/// Round trip of one header entry: parsing an entry placed at an 8-byte
/// boundary yields the encoded header and stops at the end of its encoding.
proof fn lemma_hdr_round_trip(h: HeaderModel, prefix: Seq<u8>, tail: Seq<u8>)
    requires
        header_wf(h),
        prefix.len() % 8 == 0,
    ensures
        hdr_dec(prefix + hdr_enc(h, prefix.len() as int) + tail, prefix.len() as int)
            == HeaderDec::Found(
            h,
            prefix.len() as int + hdr_enc(h, prefix.len() as int).len() as int,
        ),
{
    let at = prefix.len() as int;
    lemma_pad_len_bounds(at, 8);
    assert(pad_len(at, 8) == 0);
    let e = hdr_enc(h, at);
    let pre = seq![kind_byte(h.kind), 1u8, kind_sig(h.kind).byte_spec(), 0u8];
    assert(e =~= pre + value_len_prefix(h) + value_bytes(h.value));
    let whole = prefix + e + tail;
    assert(whole[at] == kind_byte(h.kind));
    assert(whole[at + 1] == 1u8);
    assert(whole[at + 2] == kind_sig(h.kind).byte_spec());
    assert(kind_of_byte(kind_byte(h.kind)) == Some(h.kind));
    assert(sig_of_byte(kind_sig(h.kind).byte_spec()) == Some(kind_sig(h.kind)));
    let v0 = at + 4;
    match h.value {
        HeaderValueModel::U32(u) => {
            lemma_auto_spec_u32_to_from_le_bytes();
            assert(whole.subrange(v0, v0 + 4) =~= spec_u32_to_le_bytes(u));
            assert(hdr_value_dec(whole, v0, h.kind) == HeaderDec::Found(h, v0 + 4));
        },
        HeaderValueModel::Str(s) => {
            let utf8 = encode_utf8(s);
            let n = utf8.len() as int;
            encode_utf8_valid_utf8(s);
            encode_utf8_decode_utf8(s);
            if h.kind == HeaderFieldKind::BodySignature {
                assert(value_len_prefix(h) =~= seq![n as u8]);
                assert(whole[v0] == n as u8);
                assert(whole[v0] as int == n);
                assert(whole.subrange(v0 + 1, v0 + 1 + n) =~= utf8);
                assert(hdr_value_dec(whole, v0, h.kind) == HeaderDec::Found(h, v0 + 1 + n + 1));
            } else {
                lemma_auto_spec_u32_to_from_le_bytes();
                assert(value_len_prefix(h) =~= spec_u32_to_le_bytes(n as u32));
                assert(whole.subrange(v0, v0 + 4) =~= spec_u32_to_le_bytes(n as u32));
                assert(spec_u32_from_le_bytes(whole.subrange(v0, v0 + 4)) as int == n);
                assert(whole.subrange(v0 + 4, v0 + 4 + n) =~= utf8);
                assert(hdr_value_dec(whole, v0, h.kind) == HeaderDec::Found(
                    h,
                    v0 + 4 + n + 1,
                ));
            }
        },
    }
}

/// Moving the start of a header run from `at` to the next 8-byte boundary
/// peels off exactly the first entry's leading padding.
proof fn lemma_hdrs_enc_shift(hs: Seq<HeaderModel>, at: int)
    requires
        hs.len() > 0,
    ensures
        hdrs_enc_from(hs, at) == zero_bytes(pad_len(at, 8)) + hdrs_enc_from(hs, align_up(at, 8)),
{
    let q = align_up(at, 8);
    lemma_pad_len_bounds(at, 8);
    assert(pad_len(q, 8) == 0);
    let pad = zero_bytes(pad_len(at, 8));
    assert(hdr_enc(hs[0], at) =~= pad + hdr_enc(hs[0], q));
    assert(at + hdr_enc(hs[0], at).len() == q + hdr_enc(hs[0], q).len());
    assert(hdrs_enc_from(hs, at) == hdr_enc(hs[0], at) + hdrs_enc_from(
        hs.drop_first(),
        at + hdr_enc(hs[0], at).len(),
    ));
    assert(hdrs_enc_from(hs, q) == hdr_enc(hs[0], q) + hdrs_enc_from(
        hs.drop_first(),
        q + hdr_enc(hs[0], q).len(),
    ));
    assert(hdrs_enc_from(hs, at) =~= pad + hdrs_enc_from(hs, q));
}

/// Round trip of a header array: decoding the encoding of well-formed
/// headers yields exactly those headers.
pub proof fn lemma_hdrs_round_trip_from(hs: Seq<HeaderModel>, prefix: Seq<u8>)
    requires
        forall|i: int| 0 <= i < hs.len() ==> header_wf(hs[i]),
        prefix.len() % 8 == 0,
    ensures
        hdrs_dec_from(prefix + hdrs_enc_from(hs, prefix.len() as int), prefix.len() as int)
            == HeadersDec::Done(hs),
    decreases hs.len(),
{
    let at = prefix.len() as int;
    let buf = prefix + hdrs_enc_from(hs, at);
    if hs.len() == 0 {
        assert(buf =~= prefix);
        assert(hs =~= Seq::<HeaderModel>::empty());
    } else {
        let e0 = hdr_enc(hs[0], at);
        let rest = hs.drop_first();
        let end = at + e0.len();
        let rest_enc = hdrs_enc_from(rest, end);
        assert(buf =~= prefix + e0 + rest_enc);
        lemma_hdr_round_trip(hs[0], prefix, rest_enc);
        assert(hdr_dec(buf, at) == HeaderDec::Found(hs[0], end));
        assert(e0.len() >= 4);
        let q = align_up(end, 8);
        lemma_pad_len_bounds(end, 8);
        if rest.len() == 0 {
            assert(rest_enc == Seq::<u8>::empty());
            assert(buf.len() == end);
            assert(hdrs_dec_from(buf, q) == HeadersDec::Done(Seq::<HeaderModel>::empty()));
            assert(seq![hs[0]] + Seq::<HeaderModel>::empty() =~= hs);
        } else {
            lemma_hdrs_enc_shift(rest, end);
            let pad = zero_bytes(pad_len(end, 8));
            let prefix2 = prefix + e0 + pad;
            assert(prefix2.len() as int == q);
            assert((end + pad_len(end, 8)) % 8 == 0);
            lemma_hdrs_round_trip_from(rest, prefix2);
            assert(prefix2 + hdrs_enc_from(rest, q) =~= buf);
            assert(hdrs_dec_from(buf, q) == HeadersDec::Done(rest));
            assert(seq![hs[0]] + rest =~= hs);
        }
    }
}

/// A message whose headers are well formed and whose lengths fit the u32
/// length fields of the wire format, so that its encoding round-trips.
pub open spec fn msg_model_wf(m: MessageModel) -> bool {
    &&& forall|i: int| 0 <= i < m.headers.len() ==> header_wf(#[trigger] m.headers[i])
    &&& hdrs_enc(m.headers).len() < 0x1_0000_0000
    &&& m.body.len() < 0x1_0000_0000
}

/// Round trip of the message codec: decoding an encoded well-formed message,
/// at any position and with arbitrary bytes following it, yields an
/// equivalent message (same type, serial, headers and body bytes) and stops
/// exactly at the end of the encoding.
pub proof fn lemma_message_round_trip(m: MessageModel, prefix: Seq<u8>, tail: Seq<u8>)
    requires
        msg_model_wf(m),
    ensures
        msg_dec(prefix + msg_enc(m) + tail, prefix.len() as int) == MsgDec::Parsed(
            m,
            prefix.len() as int + msg_enc(m).len() as int,
        ),
{
    let at = prefix.len() as int;
    let hdrs = hdrs_enc(m.headers);
    let hl = hdrs.len() as int;
    let head = seq![BYTE_LITTLE, mtype_byte(m.mtype), 0u8, 1u8] + spec_u32_to_le_bytes(
        m.body.len() as u32,
    ) + spec_u32_to_le_bytes(m.serial) + spec_u32_to_le_bytes(hl as u32) + hdrs;
    let enc = msg_enc(m);
    let whole = prefix + enc + tail;
    lemma_auto_spec_u32_to_from_le_bytes();
    lemma_pad_len_bounds(16 + hl, 8);
    assert(head.len() == 16 + hl);
    assert(enc == head + zero_bytes(pad_len(16 + hl, 8)) + m.body);
    assert(whole[at] == BYTE_LITTLE);
    assert(whole[at + 1] == mtype_byte(m.mtype));
    assert(mtype_of_byte(mtype_byte(m.mtype)) == Some(m.mtype));
    assert(whole[at + 3] == 1u8);
    assert(whole.subrange(at + 4, at + 8) =~= spec_u32_to_le_bytes(m.body.len() as u32));
    assert(whole.subrange(at + 8, at + 12) =~= spec_u32_to_le_bytes(m.serial));
    assert(whole.subrange(at + 12, at + 16) =~= spec_u32_to_le_bytes(hl as u32));
    assert(whole.subrange(at + 16, at + 16 + hl) =~= hdrs);
    assert(Seq::<u8>::empty() + hdrs_enc_from(m.headers, 0) =~= hdrs);
    lemma_hdrs_round_trip_from(m.headers, Seq::<u8>::empty());
    assert(hdrs_dec(whole.subrange(at + 16, at + 16 + hl)) == HeadersDec::Done(m.headers));
    let bodystart = at + align_up(16 + hl, 8);
    assert(whole.subrange(bodystart, bodystart + m.body.len()) =~= m.body);
    assert(bodystart + m.body.len() == at + enc.len());
    let dec = msg_dec(whole, at);
    assert(dec matches MsgDec::Parsed(mm, end) && mm =~= m && end == at + enc.len());
}

impl Message {
    /// Serialize the message into its complete wire image.
    pub fn serialize(self) -> (r: Vec<u8>)
        requires
            self.wf(),
        ensures
            r@ == msg_enc(self@),
    {
        let mtype: u8 = match self.preamble.mtype {
            MessageType::MethodCall => 1,
            MessageType::MethodReturn => 2,
            MessageType::Error => 3,
            MessageType::Signal => 4,
        };

        // preamble: endian, message type, flags, protocol version
        let mut message: Vec<u8> = Vec::new();
        message.push(self.preamble.endian.to_byte());
        message.push(mtype);
        message.push(self.preamble.flags);
        message.push(self.preamble.version);

        // body length
        let body_len: usize = self.body.len();
        let body_len32: u32 = #[verifier::truncate] (body_len as u32);
        let mut b = u32_to_le_bytes(body_len32);
        message.append(&mut b);

        // serial
        let mut s = u32_to_le_bytes(self.serial);
        message.append(&mut s);

        let mut serialized_headers = serialize_headers(self.headers.as_slice());

        // header length, calculated without the trailing padding
        let hdr_len: usize = serialized_headers.len();
        let hdr_len32: u32 = #[verifier::truncate] (hdr_len as u32);
        let mut h = u32_to_le_bytes(hdr_len32);
        message.append(&mut h);
        message.append(&mut serialized_headers);

        adjust_padding(&mut message, 8);

        // body, with no padding after it
        let mut body = self.body;
        message.append(&mut body);

        proof {
            assert(message@ =~= msg_enc(self@));
        }
        message
    }

    /// Decode one message starting at `*counter`, which is taken as the
    /// message start for all alignment purposes, leaving `*counter` one past
    /// the message's last body byte.
    pub fn deserialize(buf: &[u8], counter: &mut usize) -> (r: Result<Message, DbusError>)
        requires
            *old(counter) <= buf@.len(),
        ensures
            match msg_dec(buf@, *old(counter) as int) {
                MsgDec::Parsed(m, end) => r matches Ok(msg) && msg@ == m && msg.wf()
                    && *final(counter) == end,
                MsgDec::Bad => r matches Err(e) && e is IncorrectMessage,
                MsgDec::Unsupported => r matches Err(e) && e is IncompleteImplementation,
            },
    {
        let start: usize = *counter;
        if start >= buf.len() {
            return Err(DbusError::IncorrectMessage("empty message".to_owned()));
        }
        match Endian::from_byte(*slice_index_get(buf, start)) {
            Some(Endian::Little) => {},
            _ => {
                return Err(
                    DbusError::IncompleteImplementation(
                        "we do not support big endian yet".to_owned(),
                    ),
                );
            },
        }
        if buf.len() - start < 4 {
            return Err(DbusError::IncorrectMessage("message preamble is cut short".to_owned()));
        }
        let mtype = match *slice_index_get(buf, start + 1) {
            1 => MessageType::MethodCall,
            2 => MessageType::MethodReturn,
            3 => MessageType::Error,
            4 => MessageType::Signal,
            _ => {
                return Err(DbusError::IncorrectMessage("invalid message type".to_owned()));
            },
        };

        // flags are ignored entirely
        let version = *slice_index_get(buf, start + 3);
        if version != 1 {
            return Err(
                DbusError::IncompleteImplementation("unsupported protocol version".to_owned()),
            );
        }
        if buf.len() - start < 16 {
            return Err(DbusError::IncorrectMessage("message lengths are cut short".to_owned()));
        }

        let body_length = u32_from_le_bytes(slice_subrange(buf, start + 4, start + 8)) as usize;
        let serial = u32_from_le_bytes(slice_subrange(buf, start + 8, start + 12));
        let header_array_length = u32_from_le_bytes(
            slice_subrange(buf, start + 12, start + 16),
        ) as usize;

        let hdr_start = start + 16;
        if header_array_length > buf.len() - hdr_start {
            return Err(DbusError::IncorrectMessage("header array runs past the buffer".to_owned()));
        }

        let headers = match deserialize_headers(
            slice_subrange(buf, hdr_start, hdr_start + header_array_length),
        ) {
            Ok(h) => h,
            Err(e) => {
                return Err(e);
            },
        };

        // the body starts at an 8-byte boundary counted from the message start
        let mut rel: usize = 16 + header_array_length;
        let ok = align_cursor_in(buf.len() - start, &mut rel, 8);
        if ok {
            let bodystart = start + rel;
            if body_length <= buf.len() - bodystart {
                let body = slice_to_vec(slice_subrange(buf, bodystart, bodystart + body_length));
                *counter = bodystart + body_length;
                let preamble = Preamble::new(mtype);
                Ok(Message { preamble, serial, headers, body })
            } else {
                Err(DbusError::IncorrectMessage("message body runs past the buffer".to_owned()))
            }
        } else {
            Err(DbusError::IncorrectMessage("message body runs past the buffer".to_owned()))
        }
    }
}

} // verus!
