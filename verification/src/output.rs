//! The output channel: an accumulating byte buffer and its flush protocol.
//!
//! Ordinary writes append UTF-8 bytes to the buffer and never reach the host
//! by themselves; an explicit flush hands the whole accumulated payload to
//! the host's reporting callback in one call, tagged with a callback kind,
//! and leaves the buffer empty.  A flush of an empty buffer makes no host
//! call at all, so the host never sees a spurious zero-length message.
//! Error text is never deferred: it is delivered eagerly in a call of its
//! own, tagged as the error kind, leaving any buffered ordinary output
//! untouched.
//!
//! The host call itself cannot be made from here; a flush returns the one
//! [`HostOutput`] to deliver, and the host-facing edge performs it.

use vstd::prelude::*;
use vstd::seq_lib::*;
use vstd::slice::*;
use vstd::utf8::*;

verus! {

/// Callback kind for standard text.
pub const CALLBACK_OUTPUT: i32 = 0x00;

/// Callback kind for OEM-codepage text.
pub const CALLBACK_OUTPUT_OEM: i32 = 0x1E;

/// Callback kind for UTF-8 text.
pub const CALLBACK_OUTPUT_UTF8: i32 = 0x20;

/// Callback kind for error text.
pub const CALLBACK_ERROR: i32 = 0x0D;

/// First kind of the custom callback range.
pub const CALLBACK_CUSTOM: i32 = 0x1000;

/// Last kind of the custom callback range.
pub const CALLBACK_CUSTOM_LAST: i32 = 0x13FF;

/// True for the callback kinds the host interprets: the four fixed kinds
/// and the custom range.
pub open spec fn valid_callback(kind: i32) -> bool {
    ||| kind == CALLBACK_OUTPUT
    ||| kind == CALLBACK_OUTPUT_OEM
    ||| kind == CALLBACK_OUTPUT_UTF8
    ||| kind == CALLBACK_ERROR
    ||| CALLBACK_CUSTOM <= kind <= CALLBACK_CUSTOM_LAST
}

/// One call to the host's reporting callback: a payload and the kind that
/// tells the host how to interpret it.
pub struct HostOutput {
    /// The callback kind accompanying the payload.
    pub kind: i32,
    /// The payload bytes handed to the host.
    pub data: Vec<u8>,
}

/// The buffered output writer.
///
/// All ordinary output of one invocation accumulates here so that it can be
/// delivered to the host in a single call.
pub struct BeaconWriter {
    buf: Vec<u8>,
}

impl BeaconWriter {
    /// The bytes accumulated and not yet flushed.
    pub closed spec fn pending(self) -> Seq<u8> {
        self.buf@
    }

    /// Creates a writer with nothing pending.
    pub fn new() -> (r: Self)
        ensures
            r.pending() == Seq::<u8>::empty(),
    {
        BeaconWriter { buf: Vec::new() }
    }

    /// Appends the UTF-8 bytes of `s` to the buffer.  Nothing reaches the
    /// host; output waits for an explicit flush.
    pub fn write(&mut self, s: &str)
        ensures
            final(self).pending() == old(self).pending() + encode_utf8(s@),
    {
        self.buf.extend_from_slice(s.as_bytes());
    }

    /// Appends the UTF-8 bytes of `s` and a newline to the buffer.
    pub fn write_line(&mut self, s: &str)
        ensures
            final(self).pending() == old(self).pending() + encode_utf8(s@) + encode_utf8(
                "\n"@,
            ),
    {
        self.write(s);
        self.write("\n");
    }

    /// Delivers the accumulated output: with a non-empty buffer, returns the
    /// one host call carrying the whole payload tagged `kind` and leaves the
    /// buffer empty; with an empty buffer, returns no call and changes
    /// nothing.
    pub fn flush(&mut self, kind: i32) -> (r: Option<HostOutput>)
        ensures
            old(self).pending().len() == 0 ==> {
                &&& r is None
                &&& final(self).pending() == old(self).pending()
            },
            old(self).pending().len() > 0 ==> {
                &&& r matches Some(h)
                &&& h.kind == kind
                &&& h.data@ == old(self).pending()
                &&& final(self).pending() == Seq::<u8>::empty()
            },
    {
        if self.buf.len() == 0 {
            None
        } else {
            let data: Vec<u8> = self.buf.split_off(0);
            proof {
                assert(data@ =~= old(self).pending());
                assert(self.buf@ =~= Seq::<u8>::empty());
            }
            Some(HostOutput { kind, data })
        }
    }
}

/// Delivers `s` as error text at once: one host call tagged as the error
/// kind, carrying the UTF-8 bytes of `s` — or no call when `s` is empty.
/// Buffered ordinary output is not touched.
pub fn error_write(s: &str) -> (r: Option<HostOutput>)
    ensures
        s@.len() == 0 ==> r is None,
        s@.len() > 0 ==> {
            &&& r matches Some(h)
            &&& h.kind == CALLBACK_ERROR
            &&& h.data@ == encode_utf8(s@)
        },
{
    let b: &[u8] = s.as_bytes();
    proof {
        lemma_encode_utf8_len(s@);
    }
    if b.len() == 0 {
        None
    } else {
        Some(HostOutput { kind: CALLBACK_ERROR, data: slice_to_vec(b) })
    }
}

/// Delivers `s` and a newline as error text at once: always exactly one
/// host call tagged as the error kind, carrying the UTF-8 bytes of `s`
/// followed by a newline.  Buffered ordinary output is not touched.
pub fn error_write_line(s: &str) -> (r: HostOutput)
    ensures
        r.kind == CALLBACK_ERROR,
        r.data@ == encode_utf8(s@) + encode_utf8("\n"@),
{
    let mut data: Vec<u8> = slice_to_vec(s.as_bytes());
    data.extend_from_slice("\n".as_bytes());
    HostOutput { kind: CALLBACK_ERROR, data }
}

/// A text and its UTF-8 encoding are empty together.
pub proof fn lemma_encode_utf8_len(s: Seq<char>)
    ensures
        (encode_utf8(s).len() == 0) == (s.len() == 0),
{
    if s.len() != 0 {
        assert(encode_utf8(s) == encode_scalar(s[0] as u32) + encode_utf8(s.drop_first()));
        assert(encode_scalar(s[0] as u32).len() >= 1);
    }
}

/// Batching writes loses nothing: flushing after writing two texts hands
/// the host the same payload as writing their concatenation — the UTF-8
/// encoding of a concatenation is the concatenation of the encodings.
pub proof fn lemma_encode_utf8_concat(s1: Seq<char>, s2: Seq<char>)
    ensures
        encode_utf8(s1 + s2) == encode_utf8(s1) + encode_utf8(s2),
    decreases s1.len(),
{
    if s1.len() == 0 {
        assert(s1 + s2 =~= s2);
        assert(encode_utf8(s1) + encode_utf8(s2) =~= encode_utf8(s2));
    } else {
        assert((s1 + s2).drop_first() =~= s1.drop_first() + s2);
        lemma_encode_utf8_concat(s1.drop_first(), s2);
        assert(encode_utf8(s1 + s2) =~= encode_utf8(s1) + encode_utf8(s2));
    }
}

} // verus!
