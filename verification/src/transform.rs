//! The keyed transform: each byte is combined by exclusive-or with the key
//! byte at its position, the key repeating, and written as two hexadecimal
//! digits.
//!
//! The transform obscures; it does not protect. Equal bytes at equal
//! positions always give equal digits, and nothing detects a changed text.

use crate::error::VaultError;
use crate::hex::hex_digit;
use crate::hex::hex_pair_value;
use crate::hex::hex_text;
use crate::hex::lemma_hex_digit_value;
use crate::hex::pair_value;
use crate::hex::to_hex;
use vstd::prelude::*;
use vstd::string::StringSliceAdditionalSpecFns;
use vstd::utf8::encode_utf8;
use vstd::utf8::is_ascii_chars;
use vstd::utf8::is_ascii_chars_encode_utf8;

verus! {

/// The key byte that meets position `pos`.
pub open spec fn key_at(key: Seq<u8>, pos: int) -> u8
    recommends
        key.len() > 0,
        0 <= pos,
{
    key[pos % (key.len() as int)]
}

/// `data` with each byte combined with the key byte at its position.
pub open spec fn xor_with_key(data: Seq<u8>, key: Seq<u8>) -> Seq<u8>
    recommends
        key.len() > 0,
{
    Seq::new(data.len(), |i: int| data[i] ^ key_at(key, i))
}

/// The encoded form of `plaintext` under `key`.
pub open spec fn encode_spec(plaintext: Seq<u8>, key: Seq<u8>) -> Seq<char>
    recommends
        key.len() > 0,
{
    hex_text(xor_with_key(plaintext, key))
}

/// What the first `groups` groups of two digits decode to. A group that is
/// not two hexadecimal digits gives no byte, yet counts as a position of
/// the key.
pub open spec fn decode_groups(hex: Seq<u8>, key: Seq<u8>, groups: nat) -> Seq<u8>
    recommends
        key.len() > 0,
        2 * groups <= hex.len(),
    decreases groups,
{
    if groups == 0 {
        Seq::empty()
    } else {
        let g = groups - 1;
        let before = decode_groups(hex, key, g as nat);
        match hex_pair_value(hex[2 * g], hex[2 * g + 1]) {
            Some(b) => before.push(b ^ key_at(key, g)),
            None => before,
        }
    }
}

/// What the bytes of an encoded text decode to under `key`. A last digit
/// without a partner is dropped.
pub open spec fn decode_spec(hex: Seq<u8>, key: Seq<u8>) -> Seq<u8>
    recommends
        key.len() > 0,
{
    decode_groups(hex, key, hex.len() / 2)
}

/// Encodes `plaintext` under `key`.
pub fn encode(plaintext: &[u8], key: &[u8]) -> (r: Result<String, VaultError>)
    ensures
        r is Err <==> key@.len() == 0,
        r matches Err(e) ==> e == VaultError::InvalidKey,
        r matches Ok(text) ==> text@ == encode_spec(plaintext@, key@),
{
    if key.len() == 0 {
        return Err(VaultError::InvalidKey);
    }
    let mut mixed: Vec<u8> = Vec::new();
    let mut i: usize = 0;
    while i < plaintext.len()
        invariant
            i <= plaintext.len(),
            key@.len() > 0,
            mixed@ == xor_with_key(plaintext@.take(i as int), key@),
        decreases plaintext.len() - i,
    {
        let k: u8 = key[i % key.len()];
        mixed.push(plaintext[i] ^ k);
        i = i + 1;
    }
    Ok(to_hex(mixed.as_slice()))
}

/// Decodes the text `hex` under `key`.
pub fn decode(hex: &str, key: &[u8]) -> (r: Result<Vec<u8>, VaultError>)
    ensures
        r is Err <==> key@.len() == 0,
        r matches Err(e) ==> e == VaultError::InvalidKey,
        r matches Ok(bytes) ==> bytes@ == decode_spec(hex.spec_bytes(), key@),
{
    if key.len() == 0 {
        return Err(VaultError::InvalidKey);
    }
    let digits = hex.as_bytes();
    let groups: usize = digits.len() / 2;
    let mut bytes: Vec<u8> = Vec::new();
    let mut g: usize = 0;
    while g < groups
        invariant
            g <= groups,
            2 * groups <= digits.len(),
            groups == digits@.len() / 2,
            key@.len() > 0,
            bytes@ == decode_groups(digits@, key@, g as nat),
        decreases groups - g,
    {
        let k: u8 = key[g % key.len()];
        match pair_value(digits[2 * g], digits[2 * g + 1]) {
            Some(b) => {
                bytes.push(b ^ k);
            },
            None => {},
        }
        g = g + 1;
    }
    Ok(bytes)
}

/// Combining twice with the same key restores the data.
pub proof fn lemma_xor_with_key_involutive(data: Seq<u8>, key: Seq<u8>)
    ensures
        xor_with_key(xor_with_key(data, key), key) == data,
{
    let twice = xor_with_key(xor_with_key(data, key), key);
    assert forall|i: int| 0 <= i < data.len() implies twice[i] == data[i] by {
        let d: u8 = data[i];
        let k: u8 = key_at(key, i);
        assert((d ^ k) ^ k == d) by (bit_vector);
    }
}

/// The bytes of a hexadecimal text are its digits, one byte each.
pub proof fn lemma_hex_text_bytes(bytes: Seq<u8>)
    ensures
        encode_utf8(hex_text(bytes)).len() == 2 * bytes.len(),
        forall|i: int|
            0 <= i < 2 * bytes.len() ==> #[trigger] encode_utf8(hex_text(bytes))[i] == hex_text(
                bytes,
            )[i] as u8,
{
    let text = hex_text(bytes);
    assert forall|i: int| 0 <= i < text.len() implies '\0' <= #[trigger] text[i] <= '\u{7f}' by {
        let n: int = if i % 2 == 0 {
            bytes[i / 2] as int / 16
        } else {
            bytes[i / 2] as int % 16
        };
        lemma_hex_digit_value(n);
    }
    is_ascii_chars_encode_utf8(text);
}

/// Decoding the first groups of a hexadecimal text under the key that mixed
/// it gives the first bytes back.
proof fn lemma_decode_groups_of_encoded(x: Seq<u8>, key: Seq<u8>, groups: nat)
    requires
        key.len() > 0,
        groups <= x.len(),
    ensures
        decode_groups(encode_utf8(encode_spec(x, key)), key, groups) == x.take(groups as int),
    decreases groups,
{
    if groups > 0 {
        let g = groups - 1;
        lemma_decode_groups_of_encoded(x, key, g as nat);
        let mixed = xor_with_key(x, key);
        lemma_hex_text_bytes(mixed);
        let m: u8 = mixed[g];
        lemma_hex_digit_value(m as int / 16);
        lemma_hex_digit_value(m as int % 16);
        let d: u8 = x[g];
        let k: u8 = key_at(key, g);
        assert((d ^ k) ^ k == d) by (bit_vector);
    }
}

/// Decoding what was encoded under the same key gives the bytes back, for
/// every key that holds a byte.
pub proof fn lemma_decode_inverts_encode(x: Seq<u8>, key: Seq<u8>)
    requires
        key.len() > 0,
    ensures
        decode_spec(encode_utf8(encode_spec(x, key)), key) == x,
{
    lemma_hex_text_bytes(xor_with_key(x, key));
    lemma_decode_groups_of_encoded(x, key, x.len());
}

} // verus!
