//! The argument cursor: a stateful reader over one host-supplied byte buffer.
//!
//! The host serializes a module's arguments as described in [`crate::codec`]
//! and hands the module the raw buffer.  [`DataParser`] decodes it strictly
//! left to right: each successful decode consumes exactly the width of the
//! value read, and a decode that would run past the end of the buffer
//! consumes nothing and yields a zero integer or an empty blob or string —
//! the cursor never faults, matching the "never trap the host" contract of
//! this execution environment.

use crate::codec::{blob_at, blob_ok, dec_int_at, dec_short_at, i16_of_bits, i32_of_bits};
use crate::strings::{decode_text, lemma_text_of_empty, text_of};
use vstd::bytes::*;
use vstd::prelude::*;
use vstd::slice::*;

verus! {

/// Internal cursor state: a working copy of the argument buffer and the
/// offset of the next undecoded byte.
pub struct Data {
    buf: Vec<u8>,
    pos: usize,
}

/// Cursor over a serialized argument buffer.
///
/// Decode calls consume the buffer in the order the host serialized the
/// arguments; there is no random access and no rewind.
pub struct DataParser(Data);

impl DataParser {
    /// The bytes of the argument buffer being decoded.
    pub closed spec fn bytes(self) -> Seq<u8> {
        self.0.buf@
    }

    /// The offset of the next undecoded byte.
    pub closed spec fn cursor(self) -> int {
        self.0.pos as int
    }

    /// The number of bytes left undecoded.
    pub open spec fn remaining_len(self) -> int {
        self.bytes().len() - self.cursor()
    }

    /// Cursor well-formedness: the offset lies inside the buffer and the
    /// buffer length fits the host's 32-bit signed length convention.
    pub open spec fn wf(self) -> bool {
        0 <= self.cursor() <= self.bytes().len() <= 0x7FFF_FFFF
    }

    /// Creates a cursor over a working copy of the argument buffer,
    /// positioned at its first byte.
    pub fn new(buf: Vec<u8>) -> (r: Self)
        requires
            buf@.len() <= 0x7FFF_FFFF,
        ensures
            r.wf(),
            r.bytes() == buf@,
            r.cursor() == 0,
    {
        DataParser(Data { buf, pos: 0 })
    }

    /// Decodes the next 32-bit signed integer.
    ///
    /// With at least 4 bytes left, returns the little-endian integer at the
    /// cursor and advances by 4; otherwise returns 0 and consumes nothing.
    pub fn get_int(&mut self) -> (r: i32)
        requires
            old(self).wf(),
        ensures
            final(self).wf(),
            final(self).bytes() == old(self).bytes(),
            old(self).remaining_len() >= 4 ==> {
                &&& r as int == dec_int_at(old(self).bytes(), old(self).cursor())
                &&& final(self).cursor() == old(self).cursor() + 4
            },
            old(self).remaining_len() < 4 ==> {
                &&& r == 0
                &&& final(self).cursor() == old(self).cursor()
            },
    {
        if self.0.buf.len() - self.0.pos >= 4 {
            let s: &[u8] = slice_subrange(self.0.buf.as_slice(), self.0.pos, self.0.pos + 4);
            let u: u32 = u32_from_le_bytes(s);
            self.0.pos = self.0.pos + 4;
            i32_of_bits(u)
        } else {
            0
        }
    }

    /// Decodes the next 16-bit signed integer.
    ///
    /// With at least 2 bytes left, returns the little-endian integer at the
    /// cursor and advances by 2; otherwise returns 0 and consumes nothing.
    pub fn get_short(&mut self) -> (r: i16)
        requires
            old(self).wf(),
        ensures
            final(self).wf(),
            final(self).bytes() == old(self).bytes(),
            old(self).remaining_len() >= 2 ==> {
                &&& r as int == dec_short_at(old(self).bytes(), old(self).cursor())
                &&& final(self).cursor() == old(self).cursor() + 2
            },
            old(self).remaining_len() < 2 ==> {
                &&& r == 0
                &&& final(self).cursor() == old(self).cursor()
            },
    {
        if self.0.buf.len() - self.0.pos >= 2 {
            let s: &[u8] = slice_subrange(self.0.buf.as_slice(), self.0.pos, self.0.pos + 2);
            let u: u16 = u16_from_le_bytes(s);
            self.0.pos = self.0.pos + 2;
            i16_of_bits(u)
        } else {
            0
        }
    }

    /// Decodes the next length-prefixed blob.
    ///
    /// When a whole blob lies at the cursor — the 4-byte length prefix fits,
    /// is non-negative, and announces no more bytes than remain — returns a
    /// copy of its payload and advances past prefix and payload.  Otherwise
    /// returns an empty buffer and consumes nothing; the cursor never reads
    /// past the end of the buffer.
    pub fn get_bytes(&mut self) -> (r: Vec<u8>)
        requires
            old(self).wf(),
        ensures
            final(self).wf(),
            final(self).bytes() == old(self).bytes(),
            blob_ok(old(self).bytes(), old(self).cursor()) ==> {
                &&& r@ == blob_at(old(self).bytes(), old(self).cursor())
                &&& final(self).cursor() == old(self).cursor() + 4 + r@.len()
            },
            !blob_ok(old(self).bytes(), old(self).cursor()) ==> {
                &&& r@ == Seq::<u8>::empty()
                &&& final(self).cursor() == old(self).cursor()
            },
    {
        let len: usize = self.0.buf.len();
        if len - self.0.pos >= 4 {
            let s: &[u8] = slice_subrange(self.0.buf.as_slice(), self.0.pos, self.0.pos + 4);
            let n: i32 = i32_of_bits(u32_from_le_bytes(s));
            if n >= 0 {
                let n: usize = n as usize;
                if n <= len - (self.0.pos + 4) {
                    let start: usize = self.0.pos + 4;
                    let r: Vec<u8> = slice_to_vec(
                        slice_subrange(self.0.buf.as_slice(), start, start + n),
                    );
                    self.0.pos = start + n;
                    return r;
                }
            }
        }
        Vec::new()
    }

    /// Decodes the next length-prefixed blob as text.
    ///
    /// The blob is read exactly as by [`Self::get_bytes`], cut at its first
    /// zero byte, and decoded as UTF-8; bytes that are not valid UTF-8
    /// degrade to the empty string rather than faulting.
    pub fn get_str(&mut self) -> (r: String)
        requires
            old(self).wf(),
        ensures
            final(self).wf(),
            final(self).bytes() == old(self).bytes(),
            blob_ok(old(self).bytes(), old(self).cursor()) ==> {
                &&& r@ == text_of(blob_at(old(self).bytes(), old(self).cursor()))
                &&& final(self).cursor() == old(self).cursor() + 4 + blob_at(
                    old(self).bytes(),
                    old(self).cursor(),
                ).len()
            },
            !blob_ok(old(self).bytes(), old(self).cursor()) ==> {
                &&& r@ == Seq::<char>::empty()
                &&& final(self).cursor() == old(self).cursor()
            },
    {
        let bytes: Vec<u8> = self.get_bytes();
        let r: String = decode_text(&bytes);
        proof {
            if !blob_ok(old(self).bytes(), old(self).cursor()) {
                lemma_text_of_empty();
            }
        }
        r
    }

    /// Returns a bounded view of the next `size` undecoded bytes and
    /// advances past them — the direct-addressing escape hatch for callers
    /// that want raw bytes without a length prefix.
    ///
    /// With fewer than `size` bytes left, returns an empty view and consumes
    /// nothing.
    pub fn get_ptr(&mut self, size: usize) -> (r: Vec<u8>)
        requires
            old(self).wf(),
        ensures
            final(self).wf(),
            final(self).bytes() == old(self).bytes(),
            old(self).remaining_len() >= size ==> {
                &&& r@ == old(self).bytes().subrange(
                    old(self).cursor(),
                    old(self).cursor() + size,
                )
                &&& final(self).cursor() == old(self).cursor() + size
            },
            old(self).remaining_len() < size ==> {
                &&& r@ == Seq::<u8>::empty()
                &&& final(self).cursor() == old(self).cursor()
            },
    {
        if self.0.buf.len() - self.0.pos >= size {
            let r: Vec<u8> = slice_to_vec(
                slice_subrange(self.0.buf.as_slice(), self.0.pos, self.0.pos + size),
            );
            self.0.pos = self.0.pos + size;
            r
        } else {
            Vec::new()
        }
    }

    /// Returns the number of bytes left undecoded.  The count is zero
    /// exactly when the cursor has reached the end of the buffer.
    pub fn remaining(&self) -> (r: i32)
        requires
            self.wf(),
        ensures
            r as int == self.remaining_len(),
            (r == 0) == (self.cursor() == self.bytes().len()),
    {
        (self.0.buf.len() - self.0.pos) as i32
    }
}

} // verus!
