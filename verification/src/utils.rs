//! Errors and the two alignment utilities that every position-sensitive part
//! of the wire format relies on: padding a buffer to an N-byte boundary and
//! advancing a read cursor to an N-byte boundary.

use vstd::prelude::*;

verus! {

/// The three error kinds of the library.
///
/// `ConnectionError` is a socket-level failure or an authentication refusal;
/// `IncorrectMessage` means the peer sent something the decoder cannot trust;
/// `IncompleteImplementation` means the peer used a protocol feature this
/// implementation does not support (big-endian framing, multi-byte header
/// signatures, ...).
#[derive(Debug)]
pub enum DbusError {
    IncompleteImplementation(String),
    IncorrectMessage(String),
    ConnectionError(String),
}

/// Number of zero bytes that bring a buffer of length `len` up to a multiple
/// of `align`.
pub open spec fn pad_len(len: int, align: int) -> int {
    (align - (len % align)) % align
}

/// A run of `n` zero bytes.
pub open spec fn zero_bytes(n: int) -> Seq<u8> {
    Seq::new(n as nat, |i: int| 0u8)
}

/// `pos` advanced to the next multiple of `align`.
pub open spec fn align_up(pos: int, align: int) -> int {
    pos + pad_len(pos, align)
}

/// Padding never reaches a full `align` worth of bytes, and it lands the
/// buffer exactly on a multiple of `align`.
pub proof fn lemma_pad_len_bounds(len: int, align: int)
    requires
        align >= 1,
    ensures
        0 <= pad_len(len, align) < align,
        (len + pad_len(len, align)) % align == 0,
{
    let r = len % align;
    assert(0 <= r < align) by (nonlinear_arith)
        requires
            align >= 1,
            r == len % align,
    ;
    if r == 0 {
        assert(align % align == 0) by (nonlinear_arith)
            requires
                align >= 1,
        ;
        assert(pad_len(len, align) == 0);
        assert((len + 0) % align == 0);
    } else {
        assert((align - r) % align == align - r) by (nonlinear_arith)
            requires
                align >= 1,
                0 < r < align,
        ;
        assert(pad_len(len, align) == align - r);
        assert((len + (align - r)) % align == 0) by (nonlinear_arith)
            requires
                align >= 1,
                r == len % align,
                r != 0,
        ;
    }
}

/// Padding to a 1-byte boundary never adds anything.
pub proof fn lemma_pad_to_one(len: int)
    requires
        len >= 0,
    ensures
        pad_len(len, 1) == 0,
{
    lemma_pad_len_bounds(len, 1);
}

/// `align_up(c, n)` is the smallest position `c' >= c` with `c' % n == 0`.
pub proof fn lemma_align_up_smallest(c: int, n: int)
    requires
        n >= 1,
        c >= 0,
    ensures
        align_up(c, n) >= c,
        align_up(c, n) % n == 0,
        forall|d: int| c <= d < align_up(c, n) ==> #[trigger] (d % n) != 0,
{
    lemma_pad_len_bounds(c, n);
    let a = align_up(c, n);
    assert forall|d: int| c <= d < a implies #[trigger] (d % n) != 0 by {
        if d % n == 0 {
            assert(a % n == 0);
            assert(0 < a - d < n);
            assert(false) by (nonlinear_arith)
                requires
                    n >= 1,
                    a % n == 0,
                    d % n == 0,
                    d >= 0,
                    0 < a - d < n,
            ;
        }
    }
}

/// Append zero bytes to `buf` until its length is a multiple of `align`.
/// A no-op for `align == 1` or when the buffer is already aligned.
pub fn adjust_padding(buf: &mut Vec<u8>, align: usize)
    requires
        align >= 1,
    ensures
        final(buf)@ == old(buf)@ + zero_bytes(pad_len(old(buf)@.len() as int, align as int)),
        final(buf)@.len() as int % align as int == 0,
{
    proof {
        lemma_pad_len_bounds(buf@.len() as int, align as int);
    }
    if align == 1 {
        assert(buf@ =~= buf@ + zero_bytes(0));
        return ;
    }
    let len: usize = buf.len();
    let required_padding: usize = (align - (len % align)) % align;
    let mut i: usize = 0;
    while i < required_padding
        invariant
            i <= required_padding,
            required_padding == pad_len(len as int, align as int),
            len == old(buf)@.len(),
            buf@ =~= old(buf)@ + zero_bytes(i as int),
        decreases required_padding - i,
    {
        buf.push(0);
        i += 1;
        assert(buf@ =~= old(buf)@ + zero_bytes(i as int));
    }
}

/// Advance `ctr` to the next multiple of `align`, but only when that stays
/// inside a buffer of length `buf_len`; report whether it did.  On `false`
/// the cursor is left where it was, and any read at the aligned position
/// would have run past the buffer.
pub fn align_cursor_in(buf_len: usize, ctr: &mut usize, align: usize) -> (ok: bool)
    requires
        align >= 1,
        *old(ctr) <= buf_len,
    ensures
        ok ==> *final(ctr) == align_up(*old(ctr) as int, align as int) && *final(ctr) <= buf_len,
        !ok ==> align_up(*old(ctr) as int, align as int) > buf_len && *final(ctr) == *old(ctr),
{
    proof {
        lemma_pad_len_bounds(*ctr as int, align as int);
        assert(align as int % align as int == 0) by (nonlinear_arith)
            requires
                align >= 1,
        ;
        let r = *ctr as int % align as int;
        assert(0 <= r < align as int) by (nonlinear_arith)
            requires
                align >= 1,
                r == *ctr as int % align as int,
        ;
        if r != 0 {
            assert((align as int - r) % align as int == align as int - r) by (nonlinear_arith)
                requires
                    0 < r < align as int,
            ;
        }
    }
    let rem: usize = *ctr % align;
    if rem == 0 {
        true
    } else {
        let pad: usize = align - rem;
        if pad <= buf_len - *ctr {
            *ctr += pad;
            true
        } else {
            false
        }
    }
}

/// Advance `ctr` to the next multiple of `align`.  A no-op when `ctr` is
/// already aligned.
pub fn align_counter(ctr: &mut usize, align: usize)
    requires
        align >= 1,
        *old(ctr) + align <= usize::MAX,
    ensures
        *final(ctr) == align_up(*old(ctr) as int, align as int),
{
    proof {
        lemma_pad_len_bounds(*ctr as int, align as int);
        assert(align as int % align as int == 0) by (nonlinear_arith)
            requires
                align >= 1,
        ;
    }
    if *ctr % align != 0 {
        *ctr += (align - (*ctr % align)) % align;
    }
}

} // verus!
