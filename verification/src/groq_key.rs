//! The shared key for the build-plan service, kept XOR-scrambled.

use vstd::prelude::*;
use vstd::utf8::{decode_utf8, valid_utf8};

verus! {

/// The bytes the key is scrambled with.
pub open spec fn xor_key() -> Seq<u8> {
    seq![85, 112, 77, 95, 83, 51, 99, 114, 51, 116, 95, 75, 51, 121, 95, 50, 48, 50, 52, 33, 64, 35]
}

/// The scrambled key.
pub open spec fn encrypted_groq_key() -> Seq<u8> {
    seq![
        50, 3, 38, 0, 33, 81, 1, 58, 122, 28, 56, 126, 125, 56, 102, 1, 0, 75, 96, 74, 117, 103,
        101, 24, 26, 24, 55, 74, 1, 65, 117, 45, 21, 51, 68, 49, 50, 11, 8, 87, 2, 25, 6, 84, 61,
        71, 15, 24, 30, 97, 2, 22, 84, 50, 10, 56,
    ]
}

/// Each byte of `data` XORed with the key byte at the same position
/// modulo the key's length.
pub open spec fn unscrambled(data: Seq<u8>, key: Seq<u8>) -> Seq<u8> {
    Seq::new(data.len(), |i: int| data[i] ^ key[i % key.len() as int])
}

/// The shared key can be had: its scrambled bytes are present and
/// unscramble to valid UTF-8.
pub open spec fn shared_key_available() -> bool {
    encrypted_groq_key().len() > 0 && valid_utf8(unscrambled(encrypted_groq_key(), xor_key()))
}

/// The shared key's text.
pub open spec fn shared_key() -> Seq<char> {
    decode_utf8(unscrambled(encrypted_groq_key(), xor_key()))
}

fn xor_key_bytes() -> (r: Vec<u8>)
    ensures
        r@ == xor_key(),
{
    let r = vec![85u8, 112, 77, 95, 83, 51, 99, 114, 51, 116, 95, 75, 51, 121, 95, 50, 48, 50, 52, 33, 64, 35];
    assert(r@ =~= xor_key());
    r
}

/// The scrambled key's bytes.
pub fn encrypted_groq_key_bytes() -> (r: Vec<u8>)
    ensures
        r@ == encrypted_groq_key(),
{
    let r = vec![
        50u8, 3, 38, 0, 33, 81, 1, 58, 122, 28, 56, 126, 125, 56, 102, 1, 0, 75, 96, 74, 117, 103,
        101, 24, 26, 24, 55, 74, 1, 65, 117, 45, 21, 51, 68, 49, 50, 11, 8, 87, 2, 25, 6, 84, 61,
        71, 15, 24, 30, 97, 2, 22, 84, 50, 10, 56,
    ];
    assert(r@ =~= encrypted_groq_key());
    r
}

/// Calls `String::from_utf8`: a string when the bytes are valid UTF-8
/// (their decoding), nothing otherwise.
#[verifier::external_body]
fn utf8_string(bytes: Vec<u8>) -> (r: Option<String>)
    ensures
        r is Some <==> valid_utf8(bytes@),
        r matches Some(s) ==> s@ == decode_utf8(bytes@),
{
    String::from_utf8(bytes).ok()
}

/// The unscrambled key, when the scrambled bytes are present and
/// unscramble to valid UTF-8.
pub fn decrypt_groq_key() -> (r: Option<String>)
    ensures
        encrypted_groq_key().len() == 0 ==> r is None,
        encrypted_groq_key().len() > 0 ==> (r is Some <==> valid_utf8(
            unscrambled(encrypted_groq_key(), xor_key()),
        )),
        r matches Some(s) ==> s@ == decode_utf8(unscrambled(encrypted_groq_key(), xor_key())),
{
    let enc = encrypted_groq_key_bytes();
    if enc.len() == 0 {
        return None;
    }
    let key = xor_key_bytes();
    let mut out: Vec<u8> = Vec::new();
    let mut i: usize = 0;
    while i < enc.len()
        invariant
            enc@ == encrypted_groq_key(),
            key@ == xor_key(),
            i <= enc@.len(),
            out@ =~= unscrambled(enc@, key@).take(i as int),
        decreases enc@.len() - i,
    {
        out.push(enc[i] ^ key[i % key.len()]);
        i = i + 1;
    }
    assert(out@ =~= unscrambled(encrypted_groq_key(), xor_key()));
    utf8_string(out)
}

} // verus!
