//! The value codec: the `DbusSerialize` capability that every encodable type
//! implements, with a static D-Bus signature string, an append-serializer and
//! a cursor-advancing deserializer.  Implementations cover the primitives,
//! strings, arrays, 2-tuples, variants, structures and the empty type.
//!
//! Every alignment decision is relative to the *current buffer position*, so
//! the same encoding works at any offset from the message start; the trait's
//! round-trip law is stated (and proved for each implementation) for an
//! arbitrary buffer prefix.

use vstd::bytes::*;
use vstd::prelude::*;
use vstd::slice::{slice_subrange, slice_to_vec};
use vstd::utf8::*;

use crate::utils::{adjust_padding, align_cursor_in, align_up, pad_len, zero_bytes, DbusError};
use crate::utils::lemma_pad_len_bounds;

verus! {

/// Append all bytes of `bytes` to `buf`.
pub fn push_bytes(buf: &mut Vec<u8>, bytes: &[u8])
    ensures
        final(buf)@ == old(buf)@ + bytes@,
{
    let n: usize = bytes.len();
    let mut i: usize = 0;
    while i < n
        invariant
            i <= n,
            n == bytes@.len(),
            buf@ =~= old(buf)@ + bytes@.subrange(0, i as int),
        decreases n - i,
    {
        buf.push(bytes[i]);
        i += 1;
        assert(buf@ =~= old(buf)@ + bytes@.subrange(0, i as int));
    }
    assert(bytes@.subrange(0, n as int) =~= bytes@);
}

/// Relies on `String::from_utf8`: it succeeds exactly on UTF-8-valid byte
/// sequences and returns the string those bytes encode.
#[verifier::external_body]
pub(crate) fn bytes_to_string(bytes: Vec<u8>) -> (r: Option<String>)
    ensures
        r matches Some(s) ==> valid_utf8(bytes@) && s@ == decode_utf8(bytes@),
        valid_utf8(bytes@) ==> r is Some,
{
    match String::from_utf8(bytes) {
        Ok(s) => Some(s),
        Err(_) => None,
    }
}

/// The capability every wire-encodable type implements: a static D-Bus type
/// signature, an append-serializer and a cursor-advancing deserializer, tied
/// to a mathematical encoder `enc` and decoder `dec` over which the
/// round-trip law is stated and proved per implementation.
pub trait DbusSerialize: Sized + DeepView {
    /// The D-Bus type signature of this type.
    spec fn sig_spec() -> Seq<char>;

    /// The bytes `serialize` appends to a buffer already holding `at` bytes
    /// (the value's alignment padding depends on that position).
    spec fn enc(self, at: int) -> Seq<u8>;

    /// The mathematical decoder: the value read from `buf` starting at `at`
    /// (as its abstract view) and the position one past its last byte, or
    /// `None` where the bytes cannot be read as a `Self`.
    spec fn dec(buf: Seq<u8>, at: int) -> Option<(<Self as DeepView>::V, int)>;

    /// Whether decoding consumes exactly the value's encoding.  True for all
    /// types but `()`, whose decoder deliberately swallows the rest of the
    /// buffer (it is the "no body expected" sentinel).
    spec fn framed() -> bool;

    /// Values whose lengths fit the wire format's length prefixes (u32 for
    /// strings and arrays, u8 for variant signatures), so that encoding does
    /// not truncate, and whose leading component is framed, so that decoding
    /// can find where the next component starts.
    spec fn wf(self) -> bool;

    /// The decoder never moves the cursor backwards nor past the buffer end.
    proof fn lemma_dec_bounds(buf: Seq<u8>, at: int)
        requires
            0 <= at <= buf.len(),
        ensures
            Self::dec(buf, at) matches Some((v, end)) ==> at <= end <= buf.len(),
    ;

    /// Round trip: decoding an encoding placed after an arbitrary prefix
    /// (and, for framed types, before arbitrary trailing bytes) yields the
    /// encoded value and stops exactly at the end of the encoding.
    proof fn lemma_round_trip(self, prefix: Seq<u8>, tail: Seq<u8>)
        requires
            self.wf(),
            Self::framed() || tail.len() == 0,
        ensures
            Self::dec(prefix + self.enc(prefix.len() as int) + tail, prefix.len() as int)
                == Some(
                (
                    self.deep_view(),
                    prefix.len() as int + self.enc(prefix.len() as int).len() as int,
                ),
            ),
    ;

    /// The static signature string, exactly `Self::sig_spec()`.
    fn get_signature() -> (s: String)
        ensures
            s@ == Self::sig_spec(),
    ;

    /// Append this value's wire form to `buf`, inserting its own alignment
    /// padding relative to the buffer's current length before writing.
    fn serialize(&self, buf: &mut Vec<u8>)
        ensures
            final(buf)@ == old(buf)@ + self.enc(old(buf)@.len() as int),
    ;

    /// Advance `counter` over any alignment padding, read the value and leave
    /// `counter` one past the last consumed byte; exactly what `dec` says.
    fn deserialize(buf: &[u8], counter: &mut usize) -> (r: Result<Self, DbusError>)
        requires
            *old(counter) <= buf@.len(),
        ensures
            match Self::dec(buf@, *old(counter) as int) {
                Some((v, end)) => r matches Ok(w) && w.deep_view() == v && *final(counter)
                    == end,
                None => r matches Err(e) && e is IncorrectMessage,
            },
    ;
}

impl DbusSerialize for u32 {
    open spec fn sig_spec() -> Seq<char> {
        "u"@
    }

    open spec fn enc(self, at: int) -> Seq<u8> {
        zero_bytes(pad_len(at, 4)) + spec_u32_to_le_bytes(self)
    }

    open spec fn dec(buf: Seq<u8>, at: int) -> Option<(u32, int)> {
        let c = align_up(at, 4);
        if c + 4 <= buf.len() {
            Some((spec_u32_from_le_bytes(buf.subrange(c, c + 4)), c + 4))
        } else {
            None
        }
    }

    open spec fn framed() -> bool {
        true
    }

    open spec fn wf(self) -> bool {
        true
    }

    proof fn lemma_dec_bounds(buf: Seq<u8>, at: int) {
        lemma_pad_len_bounds(at, 4);
    }

    proof fn lemma_round_trip(self, prefix: Seq<u8>, tail: Seq<u8>) {
        let at = prefix.len() as int;
        lemma_pad_len_bounds(at, 4);
        lemma_auto_spec_u32_to_from_le_bytes();
        let whole = prefix + self.enc(at) + tail;
        let c = align_up(at, 4);
        assert(whole.subrange(c, c + 4) =~= spec_u32_to_le_bytes(self));
    }

    fn get_signature() -> (s: String) {
        "u".to_owned()
    }

    fn serialize(&self, buf: &mut Vec<u8>) {
        adjust_padding(buf, 4);
        let mut bytes = u32_to_le_bytes(*self);
        buf.append(&mut bytes);
    }

    fn deserialize(buf: &[u8], counter: &mut usize) -> (r: Result<Self, DbusError>) {
        let ok = align_cursor_in(buf.len(), counter, 4);
        if ok && 4 <= buf.len() - *counter {
            let v = u32_from_le_bytes(slice_subrange(buf, *counter, *counter + 4));
            *counter += 4;
            Ok(v)
        } else {
            Err(DbusError::IncorrectMessage("not enough bytes for a u32".to_owned()))
        }
    }
}

impl DbusSerialize for u16 {
    open spec fn sig_spec() -> Seq<char> {
        "q"@
    }

    open spec fn enc(self, at: int) -> Seq<u8> {
        zero_bytes(pad_len(at, 2)) + spec_u16_to_le_bytes(self)
    }

    open spec fn dec(buf: Seq<u8>, at: int) -> Option<(u16, int)> {
        let c = align_up(at, 2);
        if c + 2 <= buf.len() {
            Some((spec_u16_from_le_bytes(buf.subrange(c, c + 2)), c + 2))
        } else {
            None
        }
    }

    open spec fn framed() -> bool {
        true
    }

    open spec fn wf(self) -> bool {
        true
    }

    proof fn lemma_dec_bounds(buf: Seq<u8>, at: int) {
        lemma_pad_len_bounds(at, 2);
    }

    proof fn lemma_round_trip(self, prefix: Seq<u8>, tail: Seq<u8>) {
        let at = prefix.len() as int;
        lemma_pad_len_bounds(at, 2);
        lemma_auto_spec_u16_to_from_le_bytes();
        let whole = prefix + self.enc(at) + tail;
        let c = align_up(at, 2);
        assert(whole.subrange(c, c + 2) =~= spec_u16_to_le_bytes(self));
    }

    fn get_signature() -> (s: String) {
        "q".to_owned()
    }

    fn serialize(&self, buf: &mut Vec<u8>) {
        adjust_padding(buf, 2);
        let mut bytes = u16_to_le_bytes(*self);
        buf.append(&mut bytes);
    }

    fn deserialize(buf: &[u8], counter: &mut usize) -> (r: Result<Self, DbusError>) {
        let ok = align_cursor_in(buf.len(), counter, 2);
        if ok && 2 <= buf.len() - *counter {
            let v = u16_from_le_bytes(slice_subrange(buf, *counter, *counter + 2));
            *counter += 2;
            Ok(v)
        } else {
            Err(DbusError::IncorrectMessage("not enough bytes for a u16".to_owned()))
        }
    }
}

impl DbusSerialize for u64 {
    open spec fn sig_spec() -> Seq<char> {
        "t"@
    }

    open spec fn enc(self, at: int) -> Seq<u8> {
        zero_bytes(pad_len(at, 8)) + spec_u64_to_le_bytes(self)
    }

    open spec fn dec(buf: Seq<u8>, at: int) -> Option<(u64, int)> {
        let c = align_up(at, 8);
        if c + 8 <= buf.len() {
            Some((spec_u64_from_le_bytes(buf.subrange(c, c + 8)), c + 8))
        } else {
            None
        }
    }

    open spec fn framed() -> bool {
        true
    }

    open spec fn wf(self) -> bool {
        true
    }

    proof fn lemma_dec_bounds(buf: Seq<u8>, at: int) {
        lemma_pad_len_bounds(at, 8);
    }

    proof fn lemma_round_trip(self, prefix: Seq<u8>, tail: Seq<u8>) {
        let at = prefix.len() as int;
        lemma_pad_len_bounds(at, 8);
        lemma_auto_spec_u64_to_from_le_bytes();
        let whole = prefix + self.enc(at) + tail;
        let c = align_up(at, 8);
        assert(whole.subrange(c, c + 8) =~= spec_u64_to_le_bytes(self));
    }

    fn get_signature() -> (s: String) {
        "t".to_owned()
    }

    fn serialize(&self, buf: &mut Vec<u8>) {
        adjust_padding(buf, 8);
        let mut bytes = u64_to_le_bytes(*self);
        buf.append(&mut bytes);
    }

    fn deserialize(buf: &[u8], counter: &mut usize) -> (r: Result<Self, DbusError>) {
        let ok = align_cursor_in(buf.len(), counter, 8);
        if ok && 8 <= buf.len() - *counter {
            let v = u64_from_le_bytes(slice_subrange(buf, *counter, *counter + 8));
            *counter += 8;
            Ok(v)
        } else {
            Err(DbusError::IncorrectMessage("not enough bytes for a u64".to_owned()))
        }
    }
}

impl DbusSerialize for bool {
    open spec fn sig_spec() -> Seq<char> {
        "b"@
    }

    open spec fn enc(self, at: int) -> Seq<u8> {
        zero_bytes(pad_len(at, 4)) + spec_u32_to_le_bytes(
            if self {
                1u32
            } else {
                0u32
            },
        )
    }

    open spec fn dec(buf: Seq<u8>, at: int) -> Option<(bool, int)> {
        let c = align_up(at, 4);
        if c + 4 <= buf.len() {
            Some((spec_u32_from_le_bytes(buf.subrange(c, c + 4)) != 0, c + 4))
        } else {
            None
        }
    }

    open spec fn framed() -> bool {
        true
    }

    open spec fn wf(self) -> bool {
        true
    }

    proof fn lemma_dec_bounds(buf: Seq<u8>, at: int) {
        lemma_pad_len_bounds(at, 4);
    }

    proof fn lemma_round_trip(self, prefix: Seq<u8>, tail: Seq<u8>) {
        let at = prefix.len() as int;
        lemma_pad_len_bounds(at, 4);
        lemma_auto_spec_u32_to_from_le_bytes();
        let whole = prefix + self.enc(at) + tail;
        let c = align_up(at, 4);
        let w = if self {
            1u32
        } else {
            0u32
        };
        assert(whole.subrange(c, c + 4) =~= spec_u32_to_le_bytes(w));
    }

    fn get_signature() -> (s: String) {
        "b".to_owned()
    }

    fn serialize(&self, buf: &mut Vec<u8>) {
        adjust_padding(buf, 4);
        let v: u32 = if *self {
            1
        } else {
            0
        };
        let mut bytes = u32_to_le_bytes(v);
        buf.append(&mut bytes);
    }

    fn deserialize(buf: &[u8], counter: &mut usize) -> (r: Result<Self, DbusError>) {
        let ok = align_cursor_in(buf.len(), counter, 4);
        if ok && 4 <= buf.len() - *counter {
            let v = u32_from_le_bytes(slice_subrange(buf, *counter, *counter + 4));
            *counter += 4;
            Ok(v != 0)
        } else {
            Err(DbusError::IncorrectMessage("not enough bytes for a bool".to_owned()))
        }
    }
}

impl DbusSerialize for String {
    open spec fn sig_spec() -> Seq<char> {
        "s"@
    }

    open spec fn enc(self, at: int) -> Seq<u8> {
        zero_bytes(pad_len(at, 4)) + spec_u32_to_le_bytes(encode_utf8(self@).len() as u32)
            + encode_utf8(self@) + seq![0u8]
    }

    open spec fn dec(buf: Seq<u8>, at: int) -> Option<(Seq<char>, int)> {
        let c = align_up(at, 4);
        if c + 4 <= buf.len() {
            let n = spec_u32_from_le_bytes(buf.subrange(c, c + 4)) as int;
            if c + 4 + n + 1 <= buf.len() {
                let bytes = buf.subrange(c + 4, c + 4 + n);
                if valid_utf8(bytes) {
                    Some((decode_utf8(bytes), c + 4 + n + 1))
                } else {
                    None
                }
            } else {
                None
            }
        } else {
            None
        }
    }

    open spec fn framed() -> bool {
        true
    }

    open spec fn wf(self) -> bool {
        encode_utf8(self@).len() < 0x1_0000_0000
    }

    proof fn lemma_dec_bounds(buf: Seq<u8>, at: int) {
        lemma_pad_len_bounds(at, 4);
    }

    proof fn lemma_round_trip(self, prefix: Seq<u8>, tail: Seq<u8>) {
        let at = prefix.len() as int;
        lemma_pad_len_bounds(at, 4);
        lemma_auto_spec_u32_to_from_le_bytes();
        let utf8 = encode_utf8(self@);
        let n = utf8.len() as int;
        let whole = prefix + self.enc(at) + tail;
        let c = align_up(at, 4);
        assert(whole.subrange(c, c + 4) =~= spec_u32_to_le_bytes(utf8.len() as u32));
        assert(spec_u32_from_le_bytes(whole.subrange(c, c + 4)) as int == n);
        assert(whole.subrange(c + 4, c + 4 + n) =~= utf8);
        encode_utf8_valid_utf8(self@);
        encode_utf8_decode_utf8(self@);
    }

    fn get_signature() -> (s: String) {
        "s".to_owned()
    }

    fn serialize(&self, buf: &mut Vec<u8>) {
        adjust_padding(buf, 4);
        let bytes: &[u8] = self.as_str().as_bytes();
        let len: usize = bytes.len();
        let len32: u32 = #[verifier::truncate] (len as u32);
        let mut lb = u32_to_le_bytes(len32);
        buf.append(&mut lb);
        push_bytes(buf, bytes);
        buf.push(0);
        assert(final(buf)@ =~= old(buf)@ + self.enc(old(buf)@.len() as int));
    }

    fn deserialize(buf: &[u8], counter: &mut usize) -> (r: Result<Self, DbusError>) {
        let ok = align_cursor_in(buf.len(), counter, 4);
        if ok && 4 <= buf.len() - *counter {
            let n32 = u32_from_le_bytes(slice_subrange(buf, *counter, *counter + 4));
            *counter += 4;
            let n = n32 as usize;
            let rem: usize = buf.len() - *counter;
            if rem >= 1 && n <= rem - 1 {
                let bytes = slice_to_vec(slice_subrange(buf, *counter, *counter + n));
                match bytes_to_string(bytes) {
                    Some(s) => {
                        *counter += n + 1;
                        Ok(s)
                    },
                    None => Err(
                        DbusError::IncorrectMessage("string bytes are not UTF-8".to_owned()),
                    ),
                }
            } else {
                Err(DbusError::IncorrectMessage("string runs past the buffer".to_owned()))
            }
        } else {
            Err(DbusError::IncorrectMessage("not enough bytes for a string length".to_owned()))
        }
    }
}

impl<T1: DbusSerialize, T2: DbusSerialize> DbusSerialize for (T1, T2) {
    open spec fn sig_spec() -> Seq<char> {
        T1::sig_spec() + T2::sig_spec()
    }

    open spec fn enc(self, at: int) -> Seq<u8> {
        self.0.enc(at) + self.1.enc(at + self.0.enc(at).len())
    }

    open spec fn dec(buf: Seq<u8>, at: int) -> Option<
        ((<T1 as DeepView>::V, <T2 as DeepView>::V), int),
    > {
        match T1::dec(buf, at) {
            Some((v1, mid)) => match T2::dec(buf, mid) {
                Some((v2, end)) => Some(((v1, v2), end)),
                None => None,
            },
            None => None,
        }
    }

    open spec fn framed() -> bool {
        T1::framed() && T2::framed()
    }

    open spec fn wf(self) -> bool {
        self.0.wf() && self.1.wf() && T1::framed()
    }

    proof fn lemma_dec_bounds(buf: Seq<u8>, at: int) {
        T1::lemma_dec_bounds(buf, at);
        if let Some((v1, mid)) = T1::dec(buf, at) {
            T2::lemma_dec_bounds(buf, mid);
        }
    }

    proof fn lemma_round_trip(self, prefix: Seq<u8>, tail: Seq<u8>) {
        let at = prefix.len() as int;
        let e0 = self.0.enc(at);
        let mid = at + e0.len();
        let e1 = self.1.enc(mid);
        let whole = prefix + self.enc(at) + tail;
        assert(whole =~= prefix + e0 + (e1 + tail));
        self.0.lemma_round_trip(prefix, e1 + tail);
        assert((prefix + e0) =~= (prefix + e0 + (e1 + tail)).subrange(0, mid));
        self.1.lemma_round_trip(prefix + e0, tail);
        assert(whole =~= (prefix + e0) + e1 + tail);
    }

    fn get_signature() -> (s: String) {
        let s1 = T1::get_signature();
        let s2 = T2::get_signature();
        s1.concat(s2.as_str())
    }

    fn serialize(&self, buf: &mut Vec<u8>) {
        self.0.serialize(buf);
        self.1.serialize(buf);
        assert(final(buf)@ =~= old(buf)@ + self.enc(old(buf)@.len() as int));
    }

    fn deserialize(buf: &[u8], counter: &mut usize) -> (r: Result<Self, DbusError>) {
        proof {
            T1::lemma_dec_bounds(buf@, *counter as int);
        }
        let v1 = match T1::deserialize(buf, counter) {
            Ok(v) => v,
            Err(e) => {
                return Err(e);
            },
        };
        proof {
            T2::lemma_dec_bounds(buf@, *counter as int);
        }
        let v2 = match T2::deserialize(buf, counter) {
            Ok(v) => v,
            Err(e) => {
                return Err(e);
            },
        };
        Ok((v1, v2))
    }
}

/// The concatenated encodings of `elems`, the first one starting at `at`.
pub open spec fn elems_enc<T: DbusSerialize>(elems: Seq<T>, at: int) -> Seq<u8>
    decreases elems.len(),
{
    if elems.len() == 0 {
        Seq::<u8>::empty()
    } else {
        elems[0].enc(at) + elems_enc(elems.drop_first(), at + elems[0].enc(at).len())
    }
}

/// `n` consecutive values decoded from `buf` starting at `at`.
pub open spec fn elems_dec<T: DbusSerialize>(buf: Seq<u8>, at: int, n: nat) -> Option<
    (Seq<<T as DeepView>::V>, int),
>
    decreases n,
{
    if n == 0 {
        Some((Seq::<<T as DeepView>::V>::empty(), at))
    } else {
        match T::dec(buf, at) {
            Some((v, mid)) => match elems_dec::<T>(buf, mid, (n - 1) as nat) {
                Some((vs, end)) => Some((seq![v] + vs, end)),
                None => None,
            },
            None => None,
        }
    }
}

proof fn lemma_elems_dec_bounds<T: DbusSerialize>(buf: Seq<u8>, at: int, n: nat)
    requires
        0 <= at <= buf.len(),
    ensures
        elems_dec::<T>(buf, at, n) matches Some((vs, end)) ==> at <= end <= buf.len()
            && vs.len() == n,
    decreases n,
{
    if n > 0 {
        T::lemma_dec_bounds(buf, at);
        if let Some((v, mid)) = T::dec(buf, at) {
            lemma_elems_dec_bounds::<T>(buf, mid, (n - 1) as nat);
        }
    }
}

/// Extending the encoded range by one element appends that element's
/// encoding at the position where the previous elements end.
proof fn lemma_elems_enc_push<T: DbusSerialize>(elems: Seq<T>, i: int, at: int)
    requires
        0 <= i < elems.len(),
    ensures
        elems_enc(elems.take(i + 1), at) == elems_enc(elems.take(i), at) + elems[i].enc(
            at + elems_enc(elems.take(i), at).len(),
        ),
    decreases i,
{
    let e0 = elems[0].enc(at);
    let at2 = at + e0.len();
    let rest = elems.drop_first();
    assert(elems.take(i + 1).len() == i + 1);
    assert(elems.take(i + 1)[0] == elems[0]);
    assert(elems.take(i + 1).drop_first() =~= rest.take(i));
    if i == 0 {
        assert(elems_enc(elems.take(1), at) == e0 + elems_enc(rest.take(0), at2));
        assert(rest.take(0) =~= Seq::<T>::empty());
        assert(elems.take(0) =~= Seq::<T>::empty());
        assert(elems_enc(elems.take(1), at) =~= elems_enc(elems.take(0), at) + elems[0].enc(
            at + 0,
        ));
    } else {
        lemma_elems_enc_push(rest, i - 1, at2);
        assert(elems.take(i)[0] == elems[0]);
        assert(elems.take(i).drop_first() =~= rest.take(i - 1));
        assert(elems_enc(elems.take(i), at) == e0 + elems_enc(rest.take(i - 1), at2));
        assert(rest[i - 1] == elems[i]);
        let b = elems_enc(rest.take(i - 1), at2);
        let c = rest[i - 1].enc(at2 + b.len());
        assert(elems_enc(rest.take(i), at2) == b + c);
        assert(elems_enc(elems.take(i + 1), at) == e0 + (b + c));
        assert(e0 + (b + c) =~= (e0 + b) + c);
        assert((at + elems_enc(elems.take(i), at).len()) == at2 + b.len());
    }
}

proof fn lemma_elems_round_trip<T: DbusSerialize>(elems: Seq<T>, prefix: Seq<u8>, tail: Seq<u8>)
    requires
        forall|i: int| 0 <= i < elems.len() ==> elems[i].wf(),
        T::framed() || (tail.len() == 0 && elems.len() <= 1),
    ensures
        elems_dec::<T>(
            prefix + elems_enc(elems, prefix.len() as int) + tail,
            prefix.len() as int,
            elems.len(),
        ) == Some(
            (
                elems.map_values(|e: T| e.deep_view()),
                prefix.len() as int + elems_enc(elems, prefix.len() as int).len() as int,
            ),
        ),
    decreases elems.len(),
{
    let at = prefix.len() as int;
    let whole = prefix + elems_enc(elems, at) + tail;
    if elems.len() == 0 {
        assert(elems.map_values(|e: T| e.deep_view()) =~= Seq::<<T as DeepView>::V>::empty());
    } else {
        let e0 = elems[0].enc(at);
        let rest = elems.drop_first();
        let at2 = at + e0.len();
        let rest_enc = elems_enc(rest, at2);
        assert(elems_enc(elems, at) == e0 + rest_enc);
        assert(whole =~= prefix + e0 + (rest_enc + tail));
        elems[0].lemma_round_trip(prefix, rest_enc + tail);
        assert(T::dec(whole, at) == Some((elems[0].deep_view(), at2)));
        lemma_elems_round_trip(rest, prefix + e0, tail);
        assert((prefix + e0) + rest_enc + tail =~= whole);
        assert((prefix + e0).len() as int == at2);
        let rest_views = rest.map_values(|e: T| e.deep_view());
        assert(elems_dec::<T>(whole, at2, rest.len()) == Some(
            (rest_views, at2 + rest_enc.len() as int),
        ));
        assert(seq![elems[0].deep_view()] + rest_views =~= elems.map_values(
            |e: T| e.deep_view(),
        ));
        assert(at2 + rest_enc.len() as int == at + elems_enc(elems, at).len() as int);
    }
}

impl<T: DbusSerialize> DbusSerialize for Vec<T> {
    open spec fn sig_spec() -> Seq<char> {
        "a"@ + T::sig_spec()
    }

    open spec fn enc(self, at: int) -> Seq<u8> {
        zero_bytes(pad_len(at, 4)) + spec_u32_to_le_bytes(self@.len() as u32) + elems_enc(
            self@,
            align_up(at, 4) + 4,
        )
    }

    open spec fn dec(buf: Seq<u8>, at: int) -> Option<(Seq<<T as DeepView>::V>, int)> {
        let c = align_up(at, 4);
        if c + 4 <= buf.len() {
            let n = spec_u32_from_le_bytes(buf.subrange(c, c + 4)) as nat;
            elems_dec::<T>(buf, c + 4, n)
        } else {
            None
        }
    }

    open spec fn framed() -> bool {
        T::framed()
    }

    open spec fn wf(self) -> bool {
        &&& self@.len() < 0x1_0000_0000
        &&& forall|i: int| 0 <= i < self@.len() ==> self@[i].wf()
        &&& (T::framed() || self@.len() <= 1)
    }

    proof fn lemma_dec_bounds(buf: Seq<u8>, at: int) {
        lemma_pad_len_bounds(at, 4);
        let c = align_up(at, 4);
        if c + 4 <= buf.len() {
            let n = spec_u32_from_le_bytes(buf.subrange(c, c + 4)) as nat;
            lemma_elems_dec_bounds::<T>(buf, c + 4, n);
        }
    }

    proof fn lemma_round_trip(self, prefix: Seq<u8>, tail: Seq<u8>) {
        let at = prefix.len() as int;
        lemma_pad_len_bounds(at, 4);
        lemma_auto_spec_u32_to_from_le_bytes();
        let c = align_up(at, 4);
        let n = self@.len();
        let head = zero_bytes(pad_len(at, 4)) + spec_u32_to_le_bytes(n as u32);
        let body = elems_enc(self@, c + 4);
        let whole = prefix + self.enc(at) + tail;
        assert(whole.subrange(c, c + 4) =~= spec_u32_to_le_bytes(n as u32));
        assert(spec_u32_from_le_bytes(whole.subrange(c, c + 4)) as nat == n);
        lemma_elems_round_trip(self@, prefix + head, tail);
        assert((prefix + head).len() as int == c + 4);
        assert((prefix + head) + body + tail =~= whole);
        assert(self.deep_view() =~= self@.map_values(|e: T| e.deep_view()));
    }

    fn get_signature() -> (s: String) {
        let s1: String = "a".to_owned();
        let s2 = T::get_signature();
        s1.concat(s2.as_str())
    }

    fn serialize(&self, buf: &mut Vec<u8>) {
        adjust_padding(buf, 4);
        let len: usize = self.len();
        let len32: u32 = #[verifier::truncate] (len as u32);
        let mut lb = u32_to_le_bytes(len32);
        buf.append(&mut lb);
        let ghost pre = buf@;
        let mut i: usize = 0;
        while i < len
            invariant
                i <= len,
                len == self@.len(),
                pre.len() == old(buf)@.len() + pad_len(old(buf)@.len() as int, 4) + 4,
                buf@ == pre + elems_enc(self@.take(i as int), pre.len() as int),
            decreases len - i,
        {
            proof {
                lemma_elems_enc_push(self@, i as int, pre.len() as int);
            }
            let elem = &self[i];
            elem.serialize(buf);
            i += 1;
        }
        proof {
            assert(self@.take(len as int) =~= self@);
            assert(final(buf)@ =~= old(buf)@ + self.enc(old(buf)@.len() as int));
        }
    }

    #[verifier::loop_isolation(false)]
    fn deserialize(buf: &[u8], counter: &mut usize) -> (r: Result<Self, DbusError>) {
        let ok = align_cursor_in(buf.len(), counter, 4);
        if ok && 4 <= buf.len() - *counter {
            let n32 = u32_from_le_bytes(slice_subrange(buf, *counter, *counter + 4));
            *counter += 4;
            let ghost c0 = *counter as int;
            let n = n32 as usize;
            let mut ret: Vec<T> = Vec::new();
            let mut i: usize = 0;
            while i < n
                invariant
                    i <= n,
                    *counter <= buf@.len(),
                    ret.deep_view().len() == i,
                    match elems_dec::<T>(buf@, *counter as int, (n - i) as nat) {
                        Some((vs, end)) => elems_dec::<T>(buf@, c0, n as nat) == Some(
                            (ret.deep_view() + vs, end),
                        ),
                        None => elems_dec::<T>(buf@, c0, n as nat) is None,
                    },
                decreases n - i,
            {
                proof {
                    T::lemma_dec_bounds(buf@, *counter as int);
                }
                let ghost cur = *counter as int;
                let ghost rem = (n - i) as nat;
                match T::deserialize(buf, counter) {
                    Ok(v) => {
                        proof {
                            let (dv, mid) = T::dec(buf@, cur).unwrap();
                            if let Some((vs, end)) = elems_dec::<T>(buf@, mid, (rem - 1) as nat) {
                                assert(ret.deep_view().push(dv) + vs =~= ret.deep_view() + (
                                seq![dv] + vs));
                            }
                        }
                        ret.push(v);
                        i += 1;
                    },
                    Err(e) => {
                        proof {
                            assert(elems_dec::<T>(buf@, cur, rem) is None);
                        }
                        return Err(e);
                    },
                }
            }
            proof {
                if let Some((vs, end)) = elems_dec::<T>(buf@, *counter as int, 0) {
                    assert(ret.deep_view() + vs =~= ret.deep_view());
                }
            }
            Ok(ret)
        } else {
            Err(DbusError::IncorrectMessage("not enough bytes for an array length".to_owned()))
        }
    }
}

/// A dynamically typed D-Bus value: a signature announcing the inner type,
/// then the inner value.
#[derive(Debug)]
pub struct Variant<T>(pub T);

impl<T: DeepView> DeepView for Variant<T> {
    type V = <T as DeepView>::V;

    open spec fn deep_view(&self) -> Self::V {
        self.0.deep_view()
    }
}

impl<T: DbusSerialize> DbusSerialize for Variant<T> {
    open spec fn sig_spec() -> Seq<char> {
        "v"@
    }

    open spec fn enc(self, at: int) -> Seq<u8> {
        let sig = encode_utf8(T::sig_spec());
        seq![sig.len() as u8] + sig + seq![0u8] + self.0.enc(at + 2 + sig.len())
    }

    open spec fn dec(buf: Seq<u8>, at: int) -> Option<(<T as DeepView>::V, int)> {
        if at + 1 <= buf.len() {
            let k = buf[at] as int;
            if at + 1 + k + 1 <= buf.len() {
                let sig = buf.subrange(at + 1, at + 1 + k);
                if valid_utf8(sig) && decode_utf8(sig) == T::sig_spec() {
                    T::dec(buf, at + 1 + k + 1)
                } else {
                    None
                }
            } else {
                None
            }
        } else {
            None
        }
    }

    open spec fn framed() -> bool {
        T::framed()
    }

    open spec fn wf(self) -> bool {
        self.0.wf() && encode_utf8(T::sig_spec()).len() < 256
    }

    proof fn lemma_dec_bounds(buf: Seq<u8>, at: int) {
        if at + 1 <= buf.len() {
            let k = buf[at] as int;
            if at + 1 + k + 1 <= buf.len() {
                T::lemma_dec_bounds(buf, at + 1 + k + 1);
            }
        }
    }

    proof fn lemma_round_trip(self, prefix: Seq<u8>, tail: Seq<u8>) {
        let at = prefix.len() as int;
        let sig = encode_utf8(T::sig_spec());
        let k = sig.len() as int;
        let head = seq![sig.len() as u8] + sig + seq![0u8];
        let inner = self.0.enc(at + 2 + k);
        let whole = prefix + self.enc(at) + tail;
        assert(whole[at] == sig.len() as u8);
        assert(whole.subrange(at + 1, at + 1 + k) =~= sig);
        encode_utf8_valid_utf8(T::sig_spec());
        encode_utf8_decode_utf8(T::sig_spec());
        assert(whole =~= (prefix + head) + inner + tail);
        self.0.lemma_round_trip(prefix + head, tail);
        assert((prefix + head).len() as int == at + 2 + k);
    }

    fn get_signature() -> (s: String) {
        "v".to_owned()
    }

    fn serialize(&self, buf: &mut Vec<u8>) {
        let sig = T::get_signature();
        let bytes: &[u8] = sig.as_str().as_bytes();
        let len: usize = bytes.len();
        let len8: u8 = #[verifier::truncate] (len as u8);
        buf.push(len8);
        push_bytes(buf, bytes);
        buf.push(0);
        self.0.serialize(buf);
        assert(final(buf)@ =~= old(buf)@ + self.enc(old(buf)@.len() as int));
    }

    fn deserialize(buf: &[u8], counter: &mut usize) -> (r: Result<Self, DbusError>) {
        if *counter < buf.len() {
            let k = buf[*counter] as usize;
            *counter += 1;
            let rem: usize = buf.len() - *counter;
            if rem >= 1 && k <= rem - 1 {
                let bytes = slice_to_vec(slice_subrange(buf, *counter, *counter + k));
                match bytes_to_string(bytes) {
                    Some(actual) => {
                        *counter += k + 1;
                        let expected = T::get_signature();
                        if actual == expected {
                            proof {
                                T::lemma_dec_bounds(buf@, *counter as int);
                            }
                            match T::deserialize(buf, counter) {
                                Ok(v) => Ok(Variant(v)),
                                Err(e) => Err(e),
                            }
                        } else {
                            Err(
                                DbusError::IncorrectMessage(
                                    "variant signature differs from the expected type".to_owned(),
                                ),
                            )
                        }
                    },
                    None => Err(
                        DbusError::IncorrectMessage("variant signature is not UTF-8".to_owned()),
                    ),
                }
            } else {
                Err(
                    DbusError::IncorrectMessage(
                        "variant signature runs past the buffer".to_owned(),
                    ),
                )
            }
        } else {
            Err(
                DbusError::IncorrectMessage(
                    "not enough bytes for a variant signature length".to_owned(),
                ),
            )
        }
    }
}

/// A struct value: a string key and a value, as used for `a{sv}`-style
/// property lists.  Unlike the other containers it is 8-byte aligned.
#[derive(Debug)]
pub struct Structure<T> {
    pub key: String,
    pub val: T,
}

impl<T: DeepView> DeepView for Structure<T> {
    type V = (Seq<char>, <T as DeepView>::V);

    open spec fn deep_view(&self) -> Self::V {
        (self.key@, self.val.deep_view())
    }
}

impl<T: DbusSerialize> DbusSerialize for Structure<T> {
    open spec fn sig_spec() -> Seq<char> {
        "(s"@ + T::sig_spec() + ")"@
    }

    open spec fn enc(self, at: int) -> Seq<u8> {
        let c = align_up(at, 8);
        let key_enc = self.key.enc(c);
        zero_bytes(pad_len(at, 8)) + key_enc + self.val.enc(c + key_enc.len())
    }

    open spec fn dec(buf: Seq<u8>, at: int) -> Option<((Seq<char>, <T as DeepView>::V), int)> {
        let c = align_up(at, 8);
        match String::dec(buf, c) {
            Some((key, mid)) => match T::dec(buf, mid) {
                Some((v, end)) => Some(((key, v), end)),
                None => None,
            },
            None => None,
        }
    }

    open spec fn framed() -> bool {
        T::framed()
    }

    open spec fn wf(self) -> bool {
        self.key.wf() && self.val.wf()
    }

    proof fn lemma_dec_bounds(buf: Seq<u8>, at: int) {
        lemma_pad_len_bounds(at, 8);
        let c = align_up(at, 8);
        if c <= buf.len() {
            String::lemma_dec_bounds(buf, c);
            if let Some((key, mid)) = String::dec(buf, c) {
                T::lemma_dec_bounds(buf, mid);
            }
        } else {
            lemma_pad_len_bounds(at, 4);
        }
    }

    proof fn lemma_round_trip(self, prefix: Seq<u8>, tail: Seq<u8>) {
        let at = prefix.len() as int;
        lemma_pad_len_bounds(at, 8);
        let c = align_up(at, 8);
        let pad = zero_bytes(pad_len(at, 8));
        let key_enc = self.key.enc(c);
        let val_enc = self.val.enc(c + key_enc.len());
        let whole = prefix + self.enc(at) + tail;
        assert(whole =~= (prefix + pad) + key_enc + (val_enc + tail));
        self.key.lemma_round_trip(prefix + pad, val_enc + tail);
        assert((prefix + pad).len() as int == c);
        self.val.lemma_round_trip(prefix + pad + key_enc, tail);
        assert(whole =~= (prefix + pad + key_enc) + val_enc + tail);
        assert((prefix + pad + key_enc).len() as int == c + key_enc.len());
    }

    fn get_signature() -> (s: String) {
        let s1: String = "(s".to_owned();
        let s2 = T::get_signature();
        let s3 = s1.concat(s2.as_str());
        s3.concat(")")
    }

    fn serialize(&self, buf: &mut Vec<u8>) {
        adjust_padding(buf, 8);
        self.key.serialize(buf);
        self.val.serialize(buf);
        assert(final(buf)@ =~= old(buf)@ + self.enc(old(buf)@.len() as int));
    }

    fn deserialize(buf: &[u8], counter: &mut usize) -> (r: Result<Self, DbusError>) {
        let ok = align_cursor_in(buf.len(), counter, 8);
        if ok {
            proof {
                String::lemma_dec_bounds(buf@, *counter as int);
            }
            let key = match String::deserialize(buf, counter) {
                Ok(k) => k,
                Err(e) => {
                    return Err(e);
                },
            };
            proof {
                T::lemma_dec_bounds(buf@, *counter as int);
            }
            match T::deserialize(buf, counter) {
                Ok(v) => Ok(Structure { key, val: v }),
                Err(e) => Err(e),
            }
        } else {
            Err(DbusError::IncorrectMessage("structure starts past the buffer".to_owned()))
        }
    }
}

impl DbusSerialize for () {
    open spec fn sig_spec() -> Seq<char> {
        Seq::<char>::empty()
    }

    open spec fn enc(self, at: int) -> Seq<u8> {
        Seq::<u8>::empty()
    }

    open spec fn dec(buf: Seq<u8>, at: int) -> Option<((), int)> {
        Some(((), buf.len() as int))
    }

    open spec fn framed() -> bool {
        false
    }

    open spec fn wf(self) -> bool {
        true
    }

    proof fn lemma_dec_bounds(buf: Seq<u8>, at: int) {
    }

    proof fn lemma_round_trip(self, prefix: Seq<u8>, tail: Seq<u8>) {
        let whole = prefix + self.enc(prefix.len() as int) + tail;
        assert(whole =~= prefix);
    }

    fn get_signature() -> (s: String) {
        String::new()
    }

    fn serialize(&self, buf: &mut Vec<u8>) {
        assert(final(buf)@ =~= old(buf)@ + Seq::<u8>::empty());
    }

    fn deserialize(buf: &[u8], counter: &mut usize) -> (r: Result<Self, DbusError>) {
        *counter = buf.len();
        Ok(())
    }
}

} // verus!
