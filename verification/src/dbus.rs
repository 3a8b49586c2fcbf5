//! The connection-side logic: serial assignment, the byte-exact content of
//! the authentication exchange, the mandatory `Hello` call, the wire image
//! of an outgoing message, and the split of a received byte stream into its
//! successive messages.
//!
//! The socket itself (a Unix stream socket file descriptor) is owned by the
//! caller, which performs the actual reads and writes; everything that
//! decides *what* travels over it is here, with contracts.

use vstd::prelude::*;
use vstd::slice::slice_subrange;
use vstd::utf8::*;

use crate::message::{
    headers_view, msg_dec, msg_enc, Header, HeaderFieldKind, HeaderFieldValue, HeaderValueModel,
    Message, MessageModel, MessageType, MsgDec,
};
use crate::proxy::Proxy;
use crate::serialize::bytes_to_string;
use crate::utils::DbusError;
use crate::message::lemma_msg_dec_bounds;

verus! {

/// ASCII `0`; decimal digits are the bytes `48..=57`.
pub const BYTE_DIGIT_ZERO: u8 = 48;

/// ASCII `3`, the high hex digit of every ASCII decimal digit.
pub const BYTE_DIGIT_THREE: u8 = 51;

/// ASCII `O` and `K`, the expected start of an accepting auth reply.
pub const BYTE_UPPER_O: u8 = 79;

/// ASCII `K`.
pub const BYTE_UPPER_K: u8 = 75;

/// The ASCII bytes of `n` written in decimal, most significant digit first.
pub open spec fn dec_digit_bytes(n: nat) -> Seq<u8>
    decreases n,
{
    if n < 10 {
        seq![(BYTE_DIGIT_ZERO + n) as u8]
    } else {
        dec_digit_bytes(n / 10).push((BYTE_DIGIT_ZERO + n % 10) as u8)
    }
}

/// Each ASCII decimal digit expanded to the two hex digits of its byte
/// value: `0x30..=0x39`, so always `3` followed by the digit itself.
pub open spec fn hex_digit_bytes(ds: Seq<u8>) -> Seq<u8>
    decreases ds.len(),
{
    if ds.len() == 0 {
        Seq::<u8>::empty()
    } else {
        seq![BYTE_DIGIT_THREE, ds[0]] + hex_digit_bytes(ds.drop_first())
    }
}

/// The characters of a run of ASCII bytes.
pub open spec fn ascii_chars(bytes: Seq<u8>) -> Seq<char> {
    Seq::new(bytes.len(), |i: int| bytes[i] as char)
}

proof fn lemma_dec_digit_bytes_range(n: nat)
    ensures
        forall|i: int|
            0 <= i < dec_digit_bytes(n).len() ==> 48 <= #[trigger] dec_digit_bytes(n)[i] < 58,
    decreases n,
{
    if n < 10 {
        assert(dec_digit_bytes(n)[0] == (BYTE_DIGIT_ZERO + n) as u8);
    } else {
        lemma_dec_digit_bytes_range(n / 10);
        let rest = dec_digit_bytes(n / 10);
        let d = (BYTE_DIGIT_ZERO + n % 10) as u8;
        assert(dec_digit_bytes(n) == rest.push(d));
        assert forall|i: int| 0 <= i < dec_digit_bytes(n).len() implies 48
            <= #[trigger] dec_digit_bytes(n)[i] < 58 by {
            if i < rest.len() {
                assert(dec_digit_bytes(n)[i] == rest[i]);
            } else {
                assert(dec_digit_bytes(n)[i] == d);
            }
        }
    }
}

proof fn lemma_hex_digit_bytes_range(ds: Seq<u8>)
    requires
        forall|i: int| 0 <= i < ds.len() ==> 48 <= #[trigger] ds[i] < 58,
    ensures
        forall|i: int|
            0 <= i < hex_digit_bytes(ds).len() ==> 48 <= #[trigger] hex_digit_bytes(ds)[i] < 58,
    decreases ds.len(),
{
    if ds.len() > 0 {
        let rest = ds.drop_first();
        assert(forall|i: int| 0 <= i < rest.len() ==> 48 <= #[trigger] rest[i] < 58);
        lemma_hex_digit_bytes_range(rest);
        let head = seq![BYTE_DIGIT_THREE, ds[0]];
        assert(hex_digit_bytes(ds) == head + hex_digit_bytes(rest));
        assert forall|i: int| 0 <= i < hex_digit_bytes(ds).len() implies 48
            <= #[trigger] hex_digit_bytes(ds)[i] < 58 by {
            if i < 2 {
                assert(hex_digit_bytes(ds)[i] == head[i]);
            } else {
                assert(hex_digit_bytes(ds)[i] == hex_digit_bytes(rest)[i - 2]);
            }
        }
    }
}

/// Appending one more decimal digit to the hex expansion.
proof fn lemma_hex_digit_bytes_snoc(ds: Seq<u8>, d: u8)
    ensures
        hex_digit_bytes(ds.push(d)) == hex_digit_bytes(ds) + seq![BYTE_DIGIT_THREE, d],
    decreases ds.len(),
{
    let p = ds.push(d);
    if ds.len() == 0 {
        assert(p[0] == d);
        assert(p.drop_first() =~= Seq::<u8>::empty());
        assert(hex_digit_bytes(p) == seq![BYTE_DIGIT_THREE, d] + hex_digit_bytes(
            Seq::<u8>::empty(),
        ));
        assert(hex_digit_bytes(p) =~= hex_digit_bytes(ds) + seq![BYTE_DIGIT_THREE, d]);
    } else {
        assert(p[0] == ds[0]);
        assert(p.drop_first() =~= ds.drop_first().push(d));
        lemma_hex_digit_bytes_snoc(ds.drop_first(), d);
        assert(hex_digit_bytes(p) == seq![BYTE_DIGIT_THREE, ds[0]] + hex_digit_bytes(
            ds.drop_first().push(d),
        ));
        assert(hex_digit_bytes(p) =~= hex_digit_bytes(ds) + seq![BYTE_DIGIT_THREE, d]);
    }
}

/// Turn a buffer of ASCII bytes into the string of those characters.
fn ascii_string(bytes: Vec<u8>) -> (r: String)
    requires
        forall|i: int| 0 <= i < bytes@.len() ==> #[trigger] bytes@[i] < 128,
    ensures
        r@ == ascii_chars(bytes@),
{
    proof {
        let cs = ascii_chars(bytes@);
        assert(is_ascii_chars(cs));
        is_ascii_chars_encode_utf8(cs);
        assert(encode_utf8(cs) =~= bytes@);
        encode_utf8_valid_utf8(cs);
        encode_utf8_decode_utf8(cs);
    }
    match bytes_to_string(bytes) {
        Some(s) => s,
        None => vstd::pervasive::unreached(),
    }
}

/// Append the hex expansion of `v`'s decimal digits to `out`.
fn push_uid_hex(v: u32, out: &mut Vec<u8>)
    ensures
        final(out)@ == old(out)@ + hex_digit_bytes(dec_digit_bytes(v as nat)),
    decreases v,
{
    if v < 10 {
        let d: u8 = BYTE_DIGIT_ZERO + (v % 10) as u8;
        out.push(BYTE_DIGIT_THREE);
        out.push(d);
        proof {
            let ds = dec_digit_bytes(v as nat);
            assert(ds =~= seq![d]);
            assert(ds.drop_first() =~= Seq::<u8>::empty());
            assert(hex_digit_bytes(ds) == seq![BYTE_DIGIT_THREE, ds[0]] + hex_digit_bytes(
                ds.drop_first(),
            ));
            assert(hex_digit_bytes(Seq::<u8>::empty()) == Seq::<u8>::empty());
            assert(final(out)@ =~= old(out)@ + hex_digit_bytes(ds));
        }
    } else {
        proof {
            assert(v / 10 < v) by (nonlinear_arith)
                requires
                    v >= 10,
            ;
        }
        push_uid_hex(v / 10, out);
        let d: u8 = BYTE_DIGIT_ZERO + (v % 10) as u8;
        out.push(BYTE_DIGIT_THREE);
        out.push(d);
        proof {
            lemma_hex_digit_bytes_snoc(dec_digit_bytes((v / 10) as nat), d);
            assert(dec_digit_bytes(v as nat) == dec_digit_bytes((v / 10) as nat).push(d));
            assert(final(out)@ =~= old(out)@ + hex_digit_bytes(dec_digit_bytes(v as nat)));
        }
    }
}

/// The UID written in decimal, with each ASCII digit expanded to the two
/// hex digits of its byte value (1000 becomes "31303030").
pub fn uid_to_hex_str(uid: u32) -> (r: String)
    ensures
        r@ == ascii_chars(hex_digit_bytes(dec_digit_bytes(uid as nat))),
{
    let mut out: Vec<u8> = Vec::new();
    push_uid_hex(uid, &mut out);
    proof {
        lemma_dec_digit_bytes_range(uid as nat);
        lemma_hex_digit_bytes_range(dec_digit_bytes(uid as nat));
    }
    ascii_string(out)
}

/// The exact SASL EXTERNAL request line sent for `uid`:
/// `AUTH EXTERNAL <hex of the UID's decimal digits>\r\n`.
pub fn auth_message(uid: u32) -> (r: String)
    ensures
        r@ == "AUTH EXTERNAL "@ + ascii_chars(hex_digit_bytes(dec_digit_bytes(uid as nat)))
            + "\r\n"@,
{
    let hex = uid_to_hex_str(uid);
    let start: String = "AUTH EXTERNAL ".to_owned();
    let with_hex = start.concat(hex.as_str());
    with_hex.concat("\r\n")
}

/// Whether an authentication reply accepts: after dropping every NUL byte,
/// it must start with `OK`.
pub open spec fn auth_reply_accepts(reply: Seq<u8>) -> bool {
    let stripped = reply.filter(|b: u8| b != 0);
    stripped.len() >= 2 && stripped[0] == BYTE_UPPER_O && stripped[1] == BYTE_UPPER_K
}

/// The reply with every NUL byte dropped.
fn strip_nuls(reply: &[u8]) -> (r: Vec<u8>)
    ensures
        r@ == reply@.filter(|b: u8| b != 0),
{
    let mut stripped: Vec<u8> = Vec::new();
    let n: usize = reply.len();
    let mut i: usize = 0;
    while i < n
        invariant
            i <= n,
            n == reply@.len(),
            stripped@ == reply@.take(i as int).filter(|b: u8| b != 0),
        decreases n - i,
    {
        proof {
            reveal(Seq::filter);
            assert(reply@.take(i + 1).drop_last() =~= reply@.take(i as int));
        }
        let b = *vstd::slice::slice_index_get(reply, i);
        if b != 0 {
            stripped.push(b);
        }
        i += 1;
    }
    proof {
        assert(reply@.take(n as int) =~= reply@);
    }
    stripped
}

/// Check an authentication reply: strip embedded NULs, then require the
/// remainder to start with `OK`.
pub fn auth_reply_ok(reply: &[u8]) -> (r: bool)
    ensures
        r == auth_reply_accepts(reply@),
{
    let stripped = strip_nuls(reply);
    if stripped.len() >= 2 {
        let b0 = stripped[0];
        let b1 = stripped[1];
        b0 == BYTE_UPPER_O && b1 == BYTE_UPPER_K
    } else {
        false
    }
}

/// Judge an authentication reply: accepting replies pass, every other reply
/// turns into a `ConnectionError` that quotes what the peer said.
pub fn check_auth_reply(reply: &[u8]) -> (r: Result<(), DbusError>)
    ensures
        r is Ok <==> auth_reply_accepts(reply@),
        r matches Err(e) ==> e matches DbusError::ConnectionError(m) && ({
            let stripped = reply@.filter(|b: u8| b != 0);
            if valid_utf8(stripped) {
                m@ == "Authentication failed, got message : "@ + decode_utf8(stripped)
            } else {
                m@ == "Authentication failed, got message : "@
            }
        }),
{
    let stripped = strip_nuls(reply);
    let accepted = if stripped.len() >= 2 {
        let b0 = stripped[0];
        let b1 = stripped[1];
        b0 == BYTE_UPPER_O && b1 == BYTE_UPPER_K
    } else {
        false
    };
    if accepted {
        Ok(())
    } else {
        let prefix: String = "Authentication failed, got message : ".to_owned();
        let msg = match bytes_to_string(stripped) {
            Some(s) => prefix.concat(s.as_str()),
            None => prefix,
        };
        Err(DbusError::ConnectionError(msg))
    }
}

/// The four headers of the `Hello` call that must be the first method call
/// on every fresh connection: path and destination and interface all name
/// the bus daemon itself, and the member is `Hello`.
pub fn hello_headers() -> (r: Vec<Header>)
    ensures
        headers_view(r@).len() == 4,
        headers_view(r@)[0].kind == HeaderFieldKind::Path,
        headers_view(r@)[0].value matches HeaderValueModel::Str(s) && s
            == "/org/freedesktop/DBus"@,
        headers_view(r@)[1].kind == HeaderFieldKind::Destination,
        headers_view(r@)[1].value matches HeaderValueModel::Str(s) && s
            == "org.freedesktop.DBus"@,
        headers_view(r@)[2].kind == HeaderFieldKind::Interface,
        headers_view(r@)[2].value matches HeaderValueModel::Str(s) && s
            == "org.freedesktop.DBus"@,
        headers_view(r@)[3].kind == HeaderFieldKind::Member,
        headers_view(r@)[3].value matches HeaderValueModel::Str(s) && s
            == "Hello"@,
{
    let mut headers: Vec<Header> = Vec::new();
    headers.push(
        Header {
            kind: HeaderFieldKind::Path,
            value: HeaderFieldValue::String("/org/freedesktop/DBus".to_owned()),
        },
    );
    headers.push(
        Header {
            kind: HeaderFieldKind::Destination,
            value: HeaderFieldValue::String("org.freedesktop.DBus".to_owned()),
        },
    );
    headers.push(
        Header {
            kind: HeaderFieldKind::Interface,
            value: HeaderFieldValue::String("org.freedesktop.DBus".to_owned()),
        },
    );
    headers.push(
        Header {
            kind: HeaderFieldKind::Member,
            value: HeaderFieldValue::String("Hello".to_owned()),
        },
    );
    headers
}

/// A client connection: the socket file descriptor the caller opened, and
/// the serial counter.  Meant for single-threaded, strictly request/response
/// use; the caller performs all socket reads and writes.
pub struct DbusConnection {
    socket: i32,
    msg_ctr: u32,
}

impl DbusConnection {
    /// The socket file descriptor.
    pub closed spec fn fd_spec(self) -> i32 {
        self.socket
    }

    /// The serial of the most recently composed message; 0 before any.
    pub closed spec fn serial_spec(self) -> u32 {
        self.msg_ctr
    }

    /// Wrap an already connected stream socket.  Serials start from 1 with
    /// the first composed message.
    pub fn new(socket: i32) -> (r: DbusConnection)
        ensures
            r.fd_spec() == socket,
            r.serial_spec() == 0,
    {
        DbusConnection { socket, msg_ctr: 0 }
    }

    /// The socket file descriptor, for the caller to read and write.
    pub fn socket_fd(&self) -> (fd: i32)
        ensures
            fd == self.fd_spec(),
    {
        self.socket
    }

    /// The serial of the most recently composed message.
    pub fn serial(&self) -> (s: u32)
        ensures
            s == self.serial_spec(),
    {
        self.msg_ctr
    }

    /// The next message serial: strictly increasing from 1, never reused.
    pub fn get_msg_id(&mut self) -> (id: u32)
        requires
            old(self).serial_spec() < u32::MAX,
        ensures
            final(self).serial_spec() == old(self).serial_spec() + 1,
            final(self).fd_spec() == old(self).fd_spec(),
            id == final(self).serial_spec(),
    {
        self.msg_ctr += 1;
        self.msg_ctr
    }

    /// The complete wire image of one outgoing message of the given type
    /// with the given headers and serialized body, under the next serial.
    pub fn message_bytes(&mut self, mtype: MessageType, headers: Vec<Header>, body: Vec<u8>) -> (r:
        Vec<u8>)
        requires
            old(self).serial_spec() < u32::MAX,
        ensures
            final(self).serial_spec() == old(self).serial_spec() + 1,
            final(self).fd_spec() == old(self).fd_spec(),
            r@ == msg_enc(
                MessageModel {
                    mtype,
                    serial: (old(self).serial_spec() + 1) as u32,
                    headers: headers_view(headers@),
                    body: body@,
                },
            ),
    {
        let serial = self.get_msg_id();
        let message = Message::new(mtype, serial, headers, body);
        message.serialize()
    }

    /// A proxy for the given destination and path.
    pub fn proxy(&self, destination: String, path: String) -> (r: Proxy)
        ensures
            r.dest_spec() == destination@,
            r.path_spec() == path@,
    {
        Proxy::new(destination, path)
    }
}

/// The views of a sequence of messages.
pub open spec fn messages_view(ms: Seq<Message>) -> Seq<MessageModel> {
    ms.map_values(|m: Message| m@)
}

/// The spec-level outcome of splitting a received byte stream into its
/// successive messages.
pub enum SplitDec {
    Done(Seq<MessageModel>),
    Bad,
    Unsupported,
}

/// The messages of `buf`, decoded one after the other until the buffer is
/// exhausted; each message's alignment is relative to its own start.
pub open spec fn split_dec(buf: Seq<u8>) -> SplitDec
    decreases buf.len(),
    via split_dec_decreases
{
    if buf.len() == 0 {
        SplitDec::Done(Seq::<MessageModel>::empty())
    } else {
        match msg_dec(buf, 0) {
            MsgDec::Parsed(m, end) => match split_dec(buf.skip(end)) {
                SplitDec::Done(ms) => SplitDec::Done(seq![m] + ms),
                SplitDec::Bad => SplitDec::Bad,
                SplitDec::Unsupported => SplitDec::Unsupported,
            },
            MsgDec::Bad => SplitDec::Bad,
            MsgDec::Unsupported => SplitDec::Unsupported,
        }
    }
}

#[via_fn]
proof fn split_dec_decreases(buf: Seq<u8>) {
    if buf.len() > 0 {
        lemma_msg_dec_bounds(buf, 0);
    }
}

/// Split a received byte stream into the successive messages it contains.
/// A single receive can carry several concatenated messages; each is decoded
/// from its own start, and the stream must end exactly on a message
/// boundary.
#[verifier::loop_isolation(false)]
pub fn split_messages(reply: &[u8]) -> (r: Result<Vec<Message>, DbusError>)
    ensures
        match split_dec(reply@) {
            SplitDec::Done(ms) => r matches Ok(v) && messages_view(v@) == ms,
            SplitDec::Bad => r matches Err(e) && e is IncorrectMessage,
            SplitDec::Unsupported => r matches Err(e) && e is IncompleteImplementation,
        },
{
    let mut ret: Vec<Message> = Vec::new();
    let mut buf: &[u8] = reply;
    while buf.len() > 0
        invariant
            buf@.len() <= reply@.len(),
            match split_dec(buf@) {
                SplitDec::Done(ms) => split_dec(reply@) == SplitDec::Done(
                    messages_view(ret@) + ms,
                ),
                SplitDec::Bad => split_dec(reply@) is Bad,
                SplitDec::Unsupported => split_dec(reply@) is Unsupported,
            },
        decreases buf@.len(),
    {
        let ghost pre = buf@;
        let mut ctr: usize = 0;
        let msg = match Message::deserialize(buf, &mut ctr) {
            Ok(m) => m,
            Err(e) => {
                return Err(e);
            },
        };
        proof {
            lemma_msg_dec_bounds(pre, 0);
        }
        buf = slice_subrange(buf, ctr, buf.len());
        let ghost prev = messages_view(ret@);
        ret.push(msg);
        proof {
            assert(messages_view(ret@) =~= prev.push(msg@));
            if let SplitDec::Done(ms) = split_dec(buf@) {
                assert(pre.skip(ctr as int) =~= buf@);
                assert(prev.push(msg@) + ms =~= prev + (seq![msg@] + ms));
            }
        }
    }
    proof {
        if let SplitDec::Done(ms) = split_dec(buf@) {
            assert(messages_view(ret@) + ms =~= messages_view(ret@));
        }
    }
    Ok(ret)
}

/// A concatenation of two encoded messages splits into exactly those two
/// messages, in order.
pub proof fn lemma_split_concat_two(m1: MessageModel, m2: MessageModel)
    requires
        crate::message::msg_model_wf(m1),
        crate::message::msg_model_wf(m2),
    ensures
        split_dec(msg_enc(m1) + msg_enc(m2)) == SplitDec::Done(seq![m1, m2]),
{
    let e1 = msg_enc(m1);
    let e2 = msg_enc(m2);
    let b = e1 + e2;
    crate::message::lemma_message_round_trip(m1, Seq::<u8>::empty(), e2);
    assert(Seq::<u8>::empty() + e1 + e2 =~= b);
    assert(msg_dec(b, 0) == MsgDec::Parsed(m1, e1.len() as int));
    lemma_msg_dec_bounds(b, 0);
    let rest = b.skip(e1.len() as int);
    assert(rest =~= e2);
    crate::message::lemma_message_round_trip(m2, Seq::<u8>::empty(), Seq::<u8>::empty());
    assert(Seq::<u8>::empty() + e2 + Seq::<u8>::empty() =~= e2);
    assert(msg_dec(e2, 0) == MsgDec::Parsed(m2, e2.len() as int));
    lemma_msg_dec_bounds(e2, 0);
    let rest2 = e2.skip(e2.len() as int);
    assert(rest2 =~= Seq::<u8>::empty());
    assert(split_dec(rest2) == SplitDec::Done(Seq::<MessageModel>::empty()));
    assert(split_dec(e2) == SplitDec::Done(seq![m2] + Seq::<MessageModel>::empty()));
    assert(seq![m2] + Seq::<MessageModel>::empty() =~= seq![m2]);
    assert(split_dec(b) == SplitDec::Done(seq![m1] + seq![m2]));
    assert(seq![m1] + seq![m2] =~= seq![m1, m2]);
}

} // verus!
