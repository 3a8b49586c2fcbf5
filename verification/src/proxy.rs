//! The typed method-call surface: a proxy bound to a destination and an
//! object path.  It composes the call's headers and serialized body into the
//! outgoing wire image, and decodes a reply stream into the caller's
//! expected output type, validating the returned body signature.

use vstd::prelude::*;
use vstd::string::StrSliceExecFns;

use crate::dbus::{messages_view, DbusConnection};
use crate::message::{
    headers_view, msg_enc, Header, HeaderFieldKind, HeaderFieldValue, HeaderModel,
    HeaderValueModel, Message, MessageModel, MessageType,
};
use crate::serialize::DbusSerialize;
use crate::utils::DbusError;

verus! {

/// The first message of the given type, in order of arrival.
pub open spec fn first_of_type(ms: Seq<MessageModel>, t: MessageType) -> Option<MessageModel>
    decreases ms.len(),
{
    if ms.len() == 0 {
        None
    } else if ms[0].mtype == t {
        Some(ms[0])
    } else {
        first_of_type(ms.drop_first(), t)
    }
}

/// The value of the first `BodySignature` header, if any.
pub open spec fn first_body_sig(hs: Seq<HeaderModel>) -> Option<HeaderValueModel>
    decreases hs.len(),
{
    if hs.len() == 0 {
        None
    } else if hs[0].kind == HeaderFieldKind::BodySignature {
        Some(hs[0].value)
    } else {
        first_body_sig(hs.drop_first())
    }
}

/// The spec-level outcome of reading a reply stream for an output of
/// abstract value type `V`.
pub enum ReplyOutcome<V> {
    /// The call succeeded with this decoded value.
    Value(V),
    /// The call failed with `IncorrectMessage` carrying exactly this text.
    Refused(Seq<char>),
    /// The call failed with `IncorrectMessage` (text unspecified: a decoder
    /// gave up partway).
    Undecodable,
    /// The call failed with `IncompleteImplementation`.
    Unsupported,
}

/// What a reply stream means for a caller expecting `Output`: a D-Bus Error
/// message wins and carries its body string; otherwise the first
/// MethodReturn's body is decoded, after its BodySignature header is checked
/// against the expected signature (except for the empty "no body" sentinel,
/// whose header may be absent).
pub open spec fn reply_outcome<Output: DbusSerialize>(ms: Seq<MessageModel>) -> ReplyOutcome<
    <Output as DeepView>::V,
> {
    match first_of_type(ms, MessageType::Error) {
        Some(e) => if e.body.len() == 0 {
            ReplyOutcome::Refused("Unknown Dbus Error"@)
        } else {
            match String::dec(e.body, 0) {
                Some((s, end)) => ReplyOutcome::Refused(s),
                None => ReplyOutcome::Undecodable,
            }
        },
        None => match first_of_type(ms, MessageType::MethodReturn) {
            None => ReplyOutcome::Undecodable,
            Some(rm) => if Output::sig_spec().len() == 0 {
                match Output::dec(Seq::<u8>::empty(), 0) {
                    Some((v, end)) => ReplyOutcome::Value(v),
                    None => ReplyOutcome::Undecodable,
                }
            } else {
                match first_body_sig(rm.headers) {
                    None => ReplyOutcome::Unsupported,
                    Some(HeaderValueModel::U32(u)) => ReplyOutcome::Undecodable,
                    Some(HeaderValueModel::Str(actual)) => if actual != Output::sig_spec() {
                        ReplyOutcome::Refused(
                            "reply signature mismatch: expected "@ + Output::sig_spec()
                                + ", found "@ + actual,
                        )
                    } else {
                        match Output::dec(rm.body, 0) {
                            Some((v, end)) => ReplyOutcome::Value(v),
                            None => ReplyOutcome::Undecodable,
                        }
                    },
                }
            },
        },
    }
}

/// A proxy bound to one destination and one object path, through which
/// typed method calls are composed and their replies decoded.
pub struct Proxy {
    dest: String,
    path: String,
}

impl Proxy {
    /// The bound destination.
    pub closed spec fn dest_spec(self) -> Seq<char> {
        self.dest@
    }

    /// The bound object path.
    pub closed spec fn path_spec(self) -> Seq<char> {
        self.path@
    }

    /// A proxy for the given destination and object path.
    pub fn new(dest: String, path: String) -> (r: Proxy)
        ensures
            r.dest_spec() == dest@,
            r.path_spec() == path@,
    {
        Proxy { dest, path }
    }

    /// The headers of a method call through this proxy: the bound path and
    /// destination, the given interface and member, and, when a body is
    /// sent, a signature header announcing the body's type.
    pub open spec fn call_headers(
        self,
        interface: Seq<char>,
        member: Seq<char>,
        body_sig: Option<Seq<char>>,
    ) -> Seq<HeaderModel> {
        let base = seq![
            HeaderModel { kind: HeaderFieldKind::Path, value: HeaderValueModel::Str(self.path_spec()) },
            HeaderModel {
                kind: HeaderFieldKind::Destination,
                value: HeaderValueModel::Str(self.dest_spec()),
            },
            HeaderModel { kind: HeaderFieldKind::Interface, value: HeaderValueModel::Str(interface) },
            HeaderModel { kind: HeaderFieldKind::Member, value: HeaderValueModel::Str(member) },
        ];
        match body_sig {
            Some(sig) => base.push(
                HeaderModel {
                    kind: HeaderFieldKind::BodySignature,
                    value: HeaderValueModel::Str(sig),
                },
            ),
            None => base,
        }
    }

    /// The complete wire image of one typed method call through this proxy,
    /// under the connection's next serial: the four mandatory headers, a
    /// body signature header and serialized body when one is given.
    pub fn method_call_bytes<Body: DbusSerialize>(
        &self,
        conn: &mut DbusConnection,
        interface: &str,
        member: &str,
        body: Option<Body>,
    ) -> (r: Vec<u8>)
        requires
            old(conn).serial_spec() < u32::MAX,
        ensures
            final(conn).serial_spec() == old(conn).serial_spec() + 1,
            final(conn).fd_spec() == old(conn).fd_spec(),
            r@ == msg_enc(
                MessageModel {
                    mtype: MessageType::MethodCall,
                    serial: (old(conn).serial_spec() + 1) as u32,
                    headers: self.call_headers(
                        interface@,
                        member@,
                        if body is Some {
                            Some(Body::sig_spec())
                        } else {
                            None
                        },
                    ),
                    body: match body {
                        Some(b) => b.enc(0),
                        None => Seq::<u8>::empty(),
                    },
                },
            ),
    {
        let mut headers: Vec<Header> = Vec::with_capacity(4);

        headers.push(
            Header {
                kind: HeaderFieldKind::Path,
                value: HeaderFieldValue::String(self.path.clone()),
            },
        );
        headers.push(
            Header {
                kind: HeaderFieldKind::Destination,
                value: HeaderFieldValue::String(self.dest.clone()),
            },
        );
        headers.push(
            Header {
                kind: HeaderFieldKind::Interface,
                value: HeaderFieldValue::String(interface.to_owned()),
            },
        );
        headers.push(
            Header {
                kind: HeaderFieldKind::Member,
                value: HeaderFieldValue::String(member.to_owned()),
            },
        );

        let mut serialized_body: Vec<u8> = Vec::new();

        // if there is a body, serialize it and announce its signature
        match &body {
            Some(v) => {
                headers.push(
                    Header {
                        kind: HeaderFieldKind::BodySignature,
                        value: HeaderFieldValue::String(Body::get_signature()),
                    },
                );
                v.serialize(&mut serialized_body);
                proof {
                    assert(headers_view(headers@) =~= self.call_headers(
                        interface@,
                        member@,
                        Some(Body::sig_spec()),
                    ));
                }
            },
            None => {
                proof {
                    assert(headers_view(headers@) =~= self.call_headers(
                        interface@,
                        member@,
                        None,
                    ));
                }
            },
        }

        conn.message_bytes(MessageType::MethodCall, headers, serialized_body)
    }
}

/// The index of the first message of the given type.
fn find_first(messages: &Vec<Message>, t: MessageType) -> (r: Option<usize>)
    ensures
        match r {
            Some(i) => i < messages@.len() && first_of_type(messages_view(messages@), t) == Some(
                messages@[i as int]@,
            ),
            None => first_of_type(messages_view(messages@), t) is None,
        },
{
    let n: usize = messages.len();
    let mut i: usize = 0;
    proof {
        assert(messages_view(messages@).skip(0) =~= messages_view(messages@));
    }
    while i < n
        invariant
            i <= n,
            n == messages@.len(),
            first_of_type(messages_view(messages@), t) == first_of_type(
                messages_view(messages@).skip(i as int),
                t,
            ),
        decreases n - i,
    {
        let found = messages[i].preamble.mtype == t;
        proof {
            let ms = messages_view(messages@);
            assert(ms.skip(i as int)[0] == messages@[i as int]@);
            assert(ms.skip(i as int).drop_first() =~= ms.skip(i + 1));
        }
        if found {
            return Some(i);
        }
        i += 1;
    }
    proof {
        assert(messages_view(messages@).skip(n as int) =~= Seq::<MessageModel>::empty());
    }
    None
}

/// The index of the first `BodySignature` header.
fn find_body_sig(headers: &Vec<Header>) -> (r: Option<usize>)
    ensures
        match r {
            Some(i) => i < headers@.len() && first_body_sig(headers_view(headers@)) == Some(
                headers@[i as int]@.value,
            ),
            None => first_body_sig(headers_view(headers@)) is None,
        },
{
    let n: usize = headers.len();
    let mut i: usize = 0;
    proof {
        assert(headers_view(headers@).skip(0) =~= headers_view(headers@));
    }
    while i < n
        invariant
            i <= n,
            n == headers@.len(),
            first_body_sig(headers_view(headers@)) == first_body_sig(
                headers_view(headers@).skip(i as int),
            ),
        decreases n - i,
    {
        let found = match headers[i].kind {
            HeaderFieldKind::BodySignature => true,
            _ => false,
        };
        proof {
            let hs = headers_view(headers@);
            assert(hs.skip(i as int)[0] == headers@[i as int]@);
            assert(hs.skip(i as int).drop_first() =~= hs.skip(i + 1));
        }
        if found {
            return Some(i);
        }
        i += 1;
    }
    proof {
        assert(headers_view(headers@).skip(n as int) =~= Seq::<HeaderModel>::empty());
    }
    None
}

/// Read a reply stream for a caller expecting `Output`: a D-Bus Error reply
/// fails the call with its body string; otherwise the first MethodReturn's
/// BodySignature header is compared byte-for-byte against `Output`'s
/// signature and the body is decoded.  An expected empty signature is the
/// "no body" sentinel: the header may then be absent and the body is
/// ignored.
pub fn decode_reply<Output: DbusSerialize>(messages: &Vec<Message>) -> (r: Result<
    Output,
    DbusError,
>)
    ensures
        match reply_outcome::<Output>(messages_view(messages@)) {
            ReplyOutcome::Value(v) => r matches Ok(w) && w.deep_view() == v,
            ReplyOutcome::Refused(msg) => r matches Err(DbusError::IncorrectMessage(m)) && m@
                == msg,
            ReplyOutcome::Undecodable => r matches Err(e) && e is IncorrectMessage,
            ReplyOutcome::Unsupported => r matches Err(e) && e is IncompleteImplementation,
        },
{
    // a D-Bus Error reply always wins, whatever else arrived
    if let Some(ei) = find_first(messages, MessageType::Error) {
        let msg = &messages[ei];
        if msg.body.len() == 0 {
            // this should rarely be the case
            return Err(DbusError::IncorrectMessage("Unknown Dbus Error".to_owned()));
        }
        // in an error message, the first item of the body (if present) is
        // always a string describing the error
        let mut ctr: usize = 0;
        return match String::deserialize(msg.body.as_slice(), &mut ctr) {
            Ok(s) => Err(DbusError::IncorrectMessage(s)),
            Err(e) => Err(e),
        };
    }

    // every other message type except MethodReturn is ignored
    let reply = match find_first(messages, MessageType::MethodReturn) {
        Some(ri) => &messages[ri],
        None => {
            return Err(DbusError::IncorrectMessage("no method return in the reply".to_owned()));
        },
    };

    let expected = Output::get_signature();

    if expected.as_str().unicode_len() == 0 {
        // the "no body expected" sentinel: the signature header may be
        // absent, so decode from an empty buffer and return early
        let empty: Vec<u8> = Vec::new();
        let mut ctr: usize = 0;
        proof {
            assert(empty@ =~= Seq::<u8>::empty());
        }
        return Output::deserialize(empty.as_slice(), &mut ctr);
    }

    let si = match find_body_sig(&reply.headers) {
        Some(si) => si,
        None => {
            // defensively checked; a reply with a body always announces it
            return Err(
                DbusError::IncompleteImplementation(
                    "Body non empty, but body signature header missing".to_owned(),
                ),
            );
        },
    };

    let actual = match &reply.headers[si].value {
        HeaderFieldValue::String(s) => s,
        HeaderFieldValue::U32(_) => {
            return Err(
                DbusError::IncorrectMessage("body signature header is not a string".to_owned()),
            );
        },
    };

    // the signature the reply declares must match the type the caller
    // expects to decode
    if !(*actual == expected) {
        let msg: String = "reply signature mismatch: expected ".to_owned();
        let msg = msg.concat(expected.as_str());
        let msg = msg.concat(", found ");
        let msg = msg.concat(actual.as_str());
        return Err(DbusError::IncorrectMessage(msg));
    }

    let mut ctr: usize = 0;
    Output::deserialize(reply.body.as_slice(), &mut ctr)
}

} // verus!
