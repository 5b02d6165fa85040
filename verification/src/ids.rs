//! Fresh identifiers: bearer tokens from random bytes, and version-4 UUIDs.

use vstd::prelude::*;

use crate::text::{hex2, push_hex2};

verus! {

/// The lower-case hexadecimal text of the bytes `b`, two digits per byte.
pub open spec fn hex_bytes(b: Seq<u8>) -> Seq<char>
    decreases b.len(),
{
    if b.len() == 0 {
        Seq::empty()
    } else {
        hex_bytes(b.drop_last()) + hex2(b.last() as nat, false)
    }
}

/// Calls `rand::random::<u8>()`: a byte from the thread-local generator.
/// Nothing is claimed of its value.
#[verifier::external_body]
fn random_byte() -> u8 {
    rand::random::<u8>()
}

/// A fresh bearer token: 32 random bytes as 64 lower-case hexadecimal digits.
pub fn generate_token() -> (t: String)
    ensures
        exists|b: Seq<u8>| b.len() == 32 && t@ == hex_bytes(b),
{
    let mut t = String::new();
    let ghost mut b: Seq<u8> = Seq::empty();
    let mut i: usize = 0;
    while i < 32
        invariant
            i <= 32,
            b.len() == i,
            t@ == hex_bytes(b),
        decreases 32 - i,
    {
        let x = random_byte();
        push_hex2(&mut t, x as u32, false);
        proof {
            let b0 = b;
            b = b.push(x);
            assert(b.drop_last() == b0);
        }
        i = i + 1;
    }
    t
}

/// Calls `uuid::Uuid::new_v4()` and hands out its 16 bytes. As its source
/// shows, the bytes are random but for the version (high nibble of byte 6
/// is 4) and the variant (top bits of byte 8 are `10`).
#[verifier::external_body]
fn uuid_v4_bytes() -> (b: Vec<u8>)
    ensures
        b@.len() == 16,
        b@[6] & 0xf0 == 0x40,
        b@[8] & 0xc0 == 0x80,
{
    uuid::Uuid::new_v4().into_bytes().to_vec()
}

/// The hyphenated lower-case text of a UUID's 16 bytes, as its `Display`
/// gives it: groups of 8, 4, 4, 4 and 12 hexadecimal digits.
pub open spec fn uuid_text(b: Seq<u8>) -> Seq<char> {
    hex_bytes(b.subrange(0, 4)) + seq!['-'] + hex_bytes(b.subrange(4, 6)) + seq!['-'] + hex_bytes(
        b.subrange(6, 8),
    ) + seq!['-'] + hex_bytes(b.subrange(8, 10)) + seq!['-'] + hex_bytes(b.subrange(10, 16))
}

/// A fresh random (version 4) UUID in its hyphenated text form.
pub fn new_uuid_v4() -> (s: String)
    ensures
        exists|b: Seq<u8>| b.len() == 16 && b[6] & 0xf0 == 0x40 && b[8] & 0xc0 == 0x80 && s@ == uuid_text(b),
{
    let b = uuid_v4_bytes();
    let mut s = String::new();
    let mut i: usize = 0;
    while i < 16
        invariant
            i <= 16,
            b@.len() == 16,
            s@ == (if i <= 4 {
                hex_bytes(b@.subrange(0, i as int))
            } else if i <= 6 {
                hex_bytes(b@.subrange(0, 4)) + seq!['-'] + hex_bytes(b@.subrange(4, i as int))
            } else if i <= 8 {
                hex_bytes(b@.subrange(0, 4)) + seq!['-'] + hex_bytes(b@.subrange(4, 6)) + seq!['-']
                    + hex_bytes(b@.subrange(6, i as int))
            } else if i <= 10 {
                hex_bytes(b@.subrange(0, 4)) + seq!['-'] + hex_bytes(b@.subrange(4, 6)) + seq!['-']
                    + hex_bytes(b@.subrange(6, 8)) + seq!['-'] + hex_bytes(b@.subrange(8, i as int))
            } else {
                hex_bytes(b@.subrange(0, 4)) + seq!['-'] + hex_bytes(b@.subrange(4, 6)) + seq!['-']
                    + hex_bytes(b@.subrange(6, 8)) + seq!['-'] + hex_bytes(b@.subrange(8, 10)) + seq![
                    '-',
                ] + hex_bytes(b@.subrange(10, i as int))
            }),
        decreases 16 - i,
    {
        if i == 4 || i == 6 || i == 8 || i == 10 {
            s.push('-');
            proof {
                assert(b@.subrange(i as int, i as int) =~= Seq::<u8>::empty());
                assert(hex_bytes(Seq::<u8>::empty()) =~= Seq::<char>::empty());
            }
        }
        let ghost s0 = s@;
        push_hex2(&mut s, b[i] as u32, false);
        proof {
            let lo: int = if i < 4 { 0 } else if i < 6 { 4 } else if i < 8 { 6 } else if i < 10 { 8 } else { 10 };
            assert(b@.subrange(lo, i + 1).drop_last() =~= b@.subrange(lo, i as int));
            assert(b@.subrange(lo, i + 1).last() == b@[i as int]);
        }
        i = i + 1;
    }
    s
}


/// The hexadecimal text of `b` has two digits per byte.
pub proof fn lemma_hex_bytes_len(b: Seq<u8>)
    ensures
        hex_bytes(b).len() == 2 * b.len(),
    decreases b.len(),
{
    if b.len() > 0 {
        lemma_hex_bytes_len(b.drop_last());
        let n = b.last() as nat;
        if n >= 16 {
            assert(n / 16 < 16);
            assert(crate::text::hex(n, false) == crate::text::hex(n / 16, false).push(crate::text::hex_char(n % 16, false)));
        }
    }
}

/// A bearer token is 64 characters long.
pub proof fn lemma_token_len(b: Seq<u8>)
    requires
        b.len() == 32,
    ensures
        hex_bytes(b).len() == 64,
{
    lemma_hex_bytes_len(b);
}

/// The text of a UUID is 36 characters with hyphens at positions 8, 13, 18
/// and 23.
pub proof fn lemma_uuid_text_shape(b: Seq<u8>)
    requires
        b.len() == 16,
    ensures
        uuid_text(b).len() == 36,
        uuid_text(b)[8] == '-' && uuid_text(b)[13] == '-' && uuid_text(b)[18] == '-' && uuid_text(b)[23] == '-',
{
    lemma_hex_bytes_len(b.subrange(0, 4));
    lemma_hex_bytes_len(b.subrange(4, 6));
    lemma_hex_bytes_len(b.subrange(6, 8));
    lemma_hex_bytes_len(b.subrange(8, 10));
    lemma_hex_bytes_len(b.subrange(10, 16));
}

} // verus!
