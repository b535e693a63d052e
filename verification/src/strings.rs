//! Text conversions between the module's strings and the host's forms.
//!
//! The host hands text to a module as zero-terminated byte buffers (narrow,
//! C-style) or zero-terminated UTF-16 buffers (wide), and takes text back in
//! the same shapes.  Decoding never faults: text is cut at the first zero
//! unit, and byte sequences that are not valid UTF-8 degrade to the empty
//! string.

use vstd::prelude::*;
use vstd::seq_lib::*;
use vstd::slice::*;
use vstd::utf8::*;

verus! {

/// Index of the first occurrence of `x` in `b`, or `b.len()` when absent.
pub open spec fn first_eq<T>(b: Seq<T>, x: T) -> int
    decreases b.len(),
{
    if b.len() == 0 {
        0
    } else if b[0] == x {
        0
    } else {
        1 + first_eq(b.drop_first(), x)
    }
}

/// `first_eq` lies inside the sequence, points at `x` when `x` occurs, and
/// nothing before it is `x`.
pub proof fn lemma_first_eq<T>(b: Seq<T>, x: T)
    ensures
        0 <= first_eq(b, x) <= b.len(),
        first_eq(b, x) < b.len() ==> b[first_eq(b, x)] == x,
        forall|i: int| 0 <= i < first_eq(b, x) ==> b[i] != x,
    decreases b.len(),
{
    if b.len() != 0 && b[0] != x {
        lemma_first_eq(b.drop_first(), x);
        assert forall|i: int| 0 <= i < first_eq(b, x) implies b[i] != x by {
            if i > 0 {
                assert(b.drop_first()[i - 1] == b[i]);
            }
        }
    }
}

/// Any index with the properties of `first_eq` is `first_eq`.
pub proof fn lemma_first_eq_unique<T>(b: Seq<T>, x: T, j: int)
    requires
        0 <= j <= b.len(),
        forall|i: int| 0 <= i < j ==> b[i] != x,
        j < b.len() ==> b[j] == x,
    ensures
        j == first_eq(b, x),
    decreases b.len(),
{
    if b.len() == 0 {
    } else if b[0] == x {
        assert(j == 0);
    } else {
        assert(j >= 1);
        assert forall|i: int| 0 <= i < j - 1 implies b.drop_first()[i] != x by {
            assert(b.drop_first()[i] == b[i + 1]);
        }
        lemma_first_eq_unique(b.drop_first(), x, j - 1);
    }
}

/// The text a host byte buffer stands for: its bytes up to the first zero
/// byte, decoded as UTF-8, or the empty text when they are not valid UTF-8.
pub open spec fn text_of(b: Seq<u8>) -> Seq<char> {
    let t = b.subrange(0, first_eq(b, 0u8));
    if valid_utf8(t) {
        decode_utf8(t)
    } else {
        Seq::empty()
    }
}

/// The empty buffer stands for the empty text.
pub proof fn lemma_text_of_empty()
    ensures
        text_of(Seq::<u8>::empty()) == Seq::<char>::empty(),
{
    let b = Seq::<u8>::empty();
    assert(b.subrange(0, first_eq(b, 0u8)) =~= b);
    assert(valid_utf8(b));
    assert(decode_utf8(b) =~= Seq::<char>::empty());
}

/// Index of the first zero byte in `v`, or its length when none occurs.
fn find_zero_u8(v: &[u8]) -> (r: usize)
    ensures
        r as int == first_eq(v@, 0u8),
{
    let n: usize = v.len();
    let mut i: usize = 0;
    while i < n
        invariant
            n == v@.len(),
            0 <= i <= n,
            forall|k: int| 0 <= k < i ==> v@[k] != 0u8,
        decreases n - i,
    {
        if *slice_index_get(v, i) == 0 {
            proof {
                lemma_first_eq_unique(v@, 0u8, i as int);
            }
            return i;
        }
        i = i + 1;
    }
    proof {
        lemma_first_eq_unique(v@, 0u8, i as int);
    }
    i
}

/// Index of the first zero unit in `v`, or its length when none occurs.
fn find_zero_u16(v: &[u16]) -> (r: usize)
    ensures
        r as int == first_eq(v@, 0u16),
{
    let n: usize = v.len();
    let mut i: usize = 0;
    while i < n
        invariant
            n == v@.len(),
            0 <= i <= n,
            forall|k: int| 0 <= k < i ==> v@[k] != 0u16,
        decreases n - i,
    {
        if *slice_index_get(v, i) == 0 {
            proof {
                lemma_first_eq_unique(v@, 0u16, i as int);
            }
            return i;
        }
        i = i + 1;
    }
    proof {
        lemma_first_eq_unique(v@, 0u16, i as int);
    }
    i
}

/// Relies on `core::str::from_utf8`: it returns `Ok` exactly when the bytes
/// are valid UTF-8, and the resulting text is their decoding.
#[verifier::external_body]
fn utf8_to_str<'a>(b: &'a [u8]) -> (r: Option<&'a str>)
    ensures
        match r {
            Some(s) => valid_utf8(b@) && s@ == decode_utf8(b@),
            None => !valid_utf8(b@),
        },
{
    core::str::from_utf8(b).ok()
}

/// Decodes host text bytes: cut at the first zero byte, then UTF-8, with
/// invalid sequences degrading to the empty string.
pub fn decode_text(v: &Vec<u8>) -> (r: String)
    ensures
        r@ == text_of(v@),
{
    proof {
        lemma_first_eq(v@, 0u8);
    }
    let j: usize = find_zero_u8(v.as_slice());
    let t: &[u8] = slice_subrange(v.as_slice(), 0, j);
    match utf8_to_str(t) {
        Some(s) => s.to_owned(),
        None => String::new(),
    }
}

/// The C form of text: its UTF-8 bytes cut at the first interior zero byte,
/// with a zero terminator appended.
pub open spec fn cstr_of(s: Seq<char>) -> Seq<u8> {
    let b = encode_utf8(s);
    b.subrange(0, first_eq(b, 0u8)).push(0u8)
}

/// Converts text to the bytes of a zero-terminated C string, truncating at
/// the first interior zero byte.
pub fn to_cstr(s: &str) -> (r: Vec<u8>)
    ensures
        r@ == cstr_of(s@),
{
    let b: &[u8] = s.as_bytes();
    proof {
        lemma_first_eq(b@, 0u8);
    }
    let j: usize = find_zero_u8(b);
    let mut r: Vec<u8> = slice_to_vec(slice_subrange(b, 0, j));
    r.push(0);
    r
}

/// The unsigned byte a signed C `char` value stands for.
pub open spec fn byte_of(v: i8) -> u8 {
    if v >= 0 {
        v as u8
    } else {
        (v + 256) as u8
    }
}

/// Converts a buffer of signed C `char` values to text: its bytes up to the
/// zero terminator, decoded as UTF-8.  A buffer with no terminator at all,
/// like one whose terminated bytes are not valid UTF-8, degrades to the
/// empty string.
pub fn from_cstr(data: &[i8]) -> (r: String)
    ensures
        r@ == {
            let bytes = data@.map_values(|v: i8| byte_of(v));
            if first_eq(bytes, 0u8) < bytes.len() {
                text_of(bytes)
            } else {
                Seq::<char>::empty()
            }
        },
{
    let n: usize = data.len();
    let mut bytes: Vec<u8> = Vec::new();
    let mut i: usize = 0;
    while i < n
        invariant
            n == data@.len(),
            0 <= i <= n,
            bytes@.len() == i,
            forall|k: int| 0 <= k < i ==> bytes@[k] == byte_of(data@[k]),
        decreases n - i,
    {
        let v: i8 = *slice_index_get(data, i);
        let b: u8 = if v >= 0 {
            v as u8
        } else {
            (((v + 64) + 64) as u8) + 128
        };
        bytes.push(b);
        i = i + 1;
    }
    proof {
        assert(bytes@ =~= data@.map_values(|v: i8| byte_of(v)));
    }
    let j: usize = find_zero_u8(bytes.as_slice());
    if j < bytes.len() {
        decode_text(&bytes)
    } else {
        String::new()
    }
}

/// The UTF-16 code units of one scalar value.
pub open spec fn utf16_scalar(v: u32) -> Seq<u16>
    recommends
        is_scalar(v),
{
    if v < 0x10000 {
        seq![v as u16]
    } else {
        seq![
            (0xD800 + (v - 0x10000) / 0x400) as u16,
            (0xDC00 + (v - 0x10000) % 0x400) as u16,
        ]
    }
}

/// The UTF-16 encoding of a character sequence.
pub open spec fn utf16_of(s: Seq<char>) -> Seq<u16>
    decreases s.len(),
{
    if s.len() == 0 {
        Seq::empty()
    } else {
        utf16_scalar(s[0] as u32) + utf16_of(s.drop_first())
    }
}

/// True for code units reserved for surrogate pairs.
pub open spec fn utf16_is_surrogate(u: u16) -> bool {
    0xD800 <= u <= 0xDFFF
}

/// UTF-16 decoding with lossy recovery: a well-formed surrogate pair becomes
/// its scalar, any other surrogate unit becomes the replacement character.
pub open spec fn utf16_lossy(u: Seq<u16>) -> Seq<char>
    decreases u.len(),
{
    if u.len() == 0 {
        Seq::empty()
    } else if !utf16_is_surrogate(u[0]) {
        seq![(u[0] as u32) as char] + utf16_lossy(u.drop_first())
    } else if u[0] < 0xDC00 && u.len() >= 2 && 0xDC00 <= u[1] <= 0xDFFF {
        seq![((0x10000 + (u[0] - 0xD800) * 0x400 + (u[1] - 0xDC00)) as u32) as char]
            + utf16_lossy(u.skip(2))
    } else {
        seq!['\u{FFFD}'] + utf16_lossy(u.drop_first())
    }
}

/// Relies on `str::encode_utf16`: it yields the UTF-16 code units of the
/// text's characters, in order.
#[verifier::external_body]
fn utf16_units(s: &str) -> (r: Vec<u16>)
    ensures
        r@ == utf16_of(s@),
{
    s.encode_utf16().collect()
}

/// Relies on `String::from_utf16_lossy`: it decodes UTF-16 code units,
/// replacing any unpaired surrogate with the replacement character.
#[verifier::external_body]
fn utf16_to_string(d: &[u16]) -> (r: String)
    ensures
        r@ == utf16_lossy(d@),
{
    String::from_utf16_lossy(d)
}

/// Converts text to a zero-terminated wide (UTF-16) string.
pub fn to_wide(s: &str) -> (r: Vec<u16>)
    ensures
        r@ == utf16_of(s@).push(0u16),
{
    let mut r: Vec<u16> = utf16_units(s);
    r.push(0);
    r
}

/// Converts a wide (UTF-16) string buffer to text: its code units up to the
/// first zero, decoded with lossy recovery.
pub fn from_wide(data: &[u16]) -> (r: String)
    ensures
        r@ == utf16_lossy(data@.subrange(0, first_eq(data@, 0u16))),
{
    proof {
        lemma_first_eq(data@, 0u16);
    }
    let j: usize = find_zero_u16(data);
    utf16_to_string(slice_subrange(data, 0, j))
}

} // verus!
