//! Length prefixes and sealed frames exchanged with a worker enclave.
//!
//! A frame on the wire is a four-byte big-endian length followed by that
//! many bytes. A sealed frame's bytes are the ciphertext followed by its
//! twelve-byte authentication tag.

use vstd::prelude::*;
use byteorder::{ByteOrder, NetworkEndian};

verus! {

/// Length of the authentication tag at the end of a sealed frame.
pub const TAG_LEN: usize = 12;

/// The four big-endian bytes of `n`.
pub open spec fn be_u32_bytes(n: u32) -> Seq<u8> {
    seq![
        (n / 0x100_0000) as u8,
        ((n / 0x1_0000) % 0x100) as u8,
        ((n / 0x100) % 0x100) as u8,
        (n % 0x100) as u8,
    ]
}

/// The number whose big-endian bytes begin `b`.
pub open spec fn be_u32_value(b: Seq<u8>) -> int {
    b[0] * 0x100_0000 + b[1] * 0x1_0000 + b[2] * 0x100 + b[3]
}

/// `byteorder`'s `NetworkEndian::write_u32`: it writes the big-endian bytes
/// of `n` over the first four bytes of `buf` and leaves the rest; it panics
/// on a shorter buffer, which `requires` rules out.
#[verifier::external_body]
fn write_u32_be(buf: &mut [u8], n: u32)
    requires
        old(buf)@.len() >= 4,
    ensures
        final(buf)@ == be_u32_bytes(n) + old(buf)@.skip(4),
{
    NetworkEndian::write_u32(buf, n)
}

/// `byteorder`'s `NetworkEndian::read_u32`: the number whose big-endian
/// bytes are the first four of `buf`; it panics on a shorter buffer, which
/// `requires` rules out.
#[verifier::external_body]
fn read_u32_be(buf: &[u8]) -> (res: u32)
    requires
        buf@.len() >= 4,
    ensures
        res == be_u32_value(buf@),
{
    NetworkEndian::read_u32(buf)
}

/// The length field that announces `len` bytes.
pub fn length_header(len: u32) -> (res: Vec<u8>)
    ensures
        res@ == be_u32_bytes(len),
{
    let mut buf: Vec<u8> = vec![0u8, 0u8, 0u8, 0u8];
    write_u32_be(buf.as_mut_slice(), len);
    assert(buf@ =~= be_u32_bytes(len));
    buf
}

/// The length that a length field announces; `None` when fewer than four
/// bytes were given.
pub fn read_length(header: &[u8]) -> (res: Option<u32>)
    ensures
        header@.len() >= 4 ==> res == Some(be_u32_value(header@) as u32),
        header@.len() < 4 ==> res is None,
{
    if header.len() < 4 {
        None
    } else {
        Some(read_u32_be(header))
    }
}

/// The bytes of a sealed frame: the first `len` bytes of the ciphertext
/// (all of it when it is shorter) followed by the tag.
pub open spec fn sealed_body(cipher: Seq<u8>, len: nat, tag: Seq<u8>) -> Seq<u8> {
    if len < cipher.len() {
        cipher.take(len as int) + tag
    } else {
        cipher + tag
    }
}

/// Seals an encrypted message for sending: the length field's value,
/// `len` plus the tag's length, and the frame's bytes.
pub fn seal_frame(cipher: &[u8], len: usize, tag: &[u8; 12]) -> (res: (u32, Vec<u8>))
    requires
        len + 12 <= u32::MAX,
    ensures
        res.0 == len + 12,
        res.1@ == sealed_body(cipher@, len as nat, tag@),
{
    let mut body: Vec<u8> = Vec::new();
    let mut i: usize = 0;
    while i < cipher.len() && i < len
        invariant
            i <= cipher@.len(),
            i <= len,
            body@ == cipher@.take(i as int),
        decreases cipher@.len() - i,
    {
        body.push(cipher[i]);
        i = i + 1;
        assert(body@ =~= cipher@.take(i as int));
    }
    let ghost kept = body@;
    let mut j: usize = 0;
    while j < 12
        invariant
            j <= 12,
            body@ == kept + tag@.take(j as int),
        decreases 12 - j,
    {
        body.push(tag[j]);
        j = j + 1;
        assert(body@ =~= kept + tag@.take(j as int));
    }
    assert(tag@.take(12) =~= tag@);
    if len >= cipher.len() {
        assert(cipher@.take(i as int) =~= cipher@);
    }
    let announced = len as u32 + 12;
    (announced, body)
}

/// Splits a received sealed frame into its ciphertext and its tag, the
/// last twelve bytes; `None` when the frame is shorter than a tag.
pub fn open_frame(msg: &[u8]) -> (res: Option<(Vec<u8>, Vec<u8>)>)
    ensures
        msg@.len() < 12 ==> res is None,
        msg@.len() >= 12 ==> (res matches Some((body, tag)) && body@ == msg@.take(
            msg@.len() - 12,
        ) && tag@ == msg@.skip(msg@.len() - 12)),
{
    let n = msg.len();
    if n < TAG_LEN {
        return None;
    }
    let cut = n - TAG_LEN;
    let mut body: Vec<u8> = Vec::new();
    let mut tag: Vec<u8> = Vec::new();
    let mut i: usize = 0;
    while i < n
        invariant
            n == msg@.len(),
            cut == n - 12,
            i <= n,
            i <= cut ==> body@ == msg@.take(i as int) && tag@.len() == 0,
            i > cut ==> body@ == msg@.take(cut as int) && tag@ == msg@.subrange(
                cut as int,
                i as int,
            ),
        decreases n - i,
    {
        if i < cut {
            body.push(msg[i]);
        } else {
            tag.push(msg[i]);
        }
        i = i + 1;
        assert(i <= cut ==> body@ =~= msg@.take(i as int));
        assert(i > cut ==> tag@ =~= msg@.subrange(cut as int, i as int));
        assert(i > cut ==> body@ =~= msg@.take(cut as int));
    }
    assert(tag@ =~= msg@.skip(cut as int));
    Some((body, tag))
}

/// Reading a length field gives back the length it was written for.
pub proof fn lemma_length_header_roundtrip(n: u32)
    ensures
        be_u32_bytes(n).len() == 4,
        be_u32_value(be_u32_bytes(n)) == n,
{
    let b = be_u32_bytes(n);
    assert(b[0] == (n / 0x100_0000) as u8);
    assert(b[1] == ((n / 0x1_0000) % 0x100) as u8);
    assert(b[2] == ((n / 0x100) % 0x100) as u8);
    assert(b[3] == (n % 0x100) as u8);
    assert(((n / 0x100_0000) as u8) as int * 0x100_0000 + (((n / 0x1_0000) % 0x100) as u8) as int
        * 0x1_0000 + (((n / 0x100) % 0x100) as u8) as int * 0x100 + ((n % 0x100) as u8) as int
        == n as int) by (bit_vector);
}

/// Opening a sealed frame gives back the kept ciphertext and the tag, and
/// when `len` does not exceed the ciphertext the length field announces
/// exactly the frame's size.
pub proof fn lemma_seal_open(cipher: Seq<u8>, len: nat, tag: Seq<u8>)
    requires
        tag.len() == 12,
    ensures
        sealed_body(cipher, len, tag).take(sealed_body(cipher, len, tag).len() - 12) == (if len
            < cipher.len() {
            cipher.take(len as int)
        } else {
            cipher
        }),
        sealed_body(cipher, len, tag).skip(sealed_body(cipher, len, tag).len() - 12) == tag,
        len <= cipher.len() ==> sealed_body(cipher, len, tag).len() == len + 12,
{
    let kept = if len < cipher.len() {
        cipher.take(len as int)
    } else {
        cipher
    };
    let body = sealed_body(cipher, len, tag);
    assert(body == kept + tag);
    assert(body.take(body.len() - 12) =~= kept);
    assert(body.skip(body.len() - 12) =~= tag);
}

} // verus!
