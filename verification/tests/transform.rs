use password_manager::error::VaultError;
use password_manager::hex::{digit_value, pair_value, to_hex};
use password_manager::manager::PasswordManager;
use password_manager::transform::{decode, encode};

#[test]
fn hex_text_of_bytes() {
    assert_eq!(to_hex(&[]), "");
    assert_eq!(to_hex(&[0x00, 0x0f, 0xa9, 0xff]), "000fa9ff");
}

#[test]
fn hex_digits_of_both_cases_are_read() {
    assert_eq!(digit_value(b'0'), Some(0));
    assert_eq!(digit_value(b'9'), Some(9));
    assert_eq!(digit_value(b'a'), Some(10));
    assert_eq!(digit_value(b'f'), Some(15));
    assert_eq!(digit_value(b'A'), Some(10));
    assert_eq!(digit_value(b'F'), Some(15));
    assert_eq!(digit_value(b'g'), None);
    assert_eq!(digit_value(b'G'), None);
    assert_eq!(digit_value(b'+'), None);
    assert_eq!(digit_value(b'/'), None);
    assert_eq!(digit_value(b':'), None);
    assert_eq!(digit_value(b'`'), None);
    assert_eq!(digit_value(b'@'), None);
}

#[test]
fn hex_pairs_are_read_high_half_first() {
    assert_eq!(pair_value(b'a', b'9'), Some(0xa9));
    assert_eq!(pair_value(b'0', b'0'), Some(0));
    assert_eq!(pair_value(b'F', b'f'), Some(0xff));
    assert_eq!(pair_value(b'+', b'9'), None);
    assert_eq!(pair_value(b'9', b' '), None);
}

#[test]
fn encode_gives_the_expected_digits() {
    assert_eq!(encode(b"Secr3t!", b"masterpw"), Ok("3e041006560651".to_string()));
}

#[test]
fn encode_repeats_a_short_key() {
    assert_eq!(
        encode(b"hello world, this is long", b"key"),
        Ok("030015070a591c0a0b0701554b1111021659021659070a170c".to_string())
    );
}

#[test]
fn encode_of_nothing_is_empty() {
    assert_eq!(encode(b"", b"k"), Ok(String::new()));
}

#[test]
fn encode_refuses_an_empty_key() {
    assert_eq!(encode(b"Secr3t!", b""), Err(VaultError::InvalidKey));
    assert_eq!(encode(b"", b""), Err(VaultError::InvalidKey));
}

#[test]
fn decode_refuses_an_empty_key() {
    assert_eq!(decode("3e04", b""), Err(VaultError::InvalidKey));
    assert_eq!(decode("", b""), Err(VaultError::InvalidKey));
}

#[test]
fn decode_gives_the_expected_bytes() {
    assert_eq!(decode("3e041006560651", b"masterpw"), Ok(b"Secr3t!".to_vec()));
}

#[test]
fn decode_inverts_encode_on_every_byte_value() {
    let all: Vec<u8> = (0..=255u8).collect();
    for key in [&b"k"[..], &b"masterpw"[..], &[0u8, 255, 7][..]] {
        let text = encode(&all, key).unwrap();
        assert_eq!(text.len(), 512);
        assert_eq!(decode(&text, key), Ok(all.clone()));
    }
}

#[test]
fn decode_under_another_key_gives_other_bytes() {
    let text = encode(b"Secr3t!", b"masterpw").unwrap();
    assert_eq!(decode(&text, b"Masterpw"), Ok(b"secr3t!".to_vec()));
    assert_eq!(decode(&text, b"masterpx"), Ok(b"Secr3t!".to_vec()));
}

#[test]
fn decode_drops_a_malformed_group_and_keeps_the_key_position() {
    assert_eq!(decode("3ezz10", b"masterpw"), Ok(b"Sc".to_vec()));
}

#[test]
fn decode_drops_a_last_digit_without_partner() {
    assert_eq!(decode("3e0", b"masterpw"), Ok(b"S".to_vec()));
    assert_eq!(decode("3", b"masterpw"), Ok(Vec::new()));
}

#[test]
fn decode_reads_upper_case_digits() {
    assert_eq!(decode("3E04", b"masterpw"), Ok(b"Se".to_vec()));
}

#[test]
fn decode_takes_a_sign_for_no_digit() {
    assert_eq!(decode("+e04", b"masterpw"), Ok(b"e".to_vec()));
}

#[test]
fn simple_encrypt_gives_the_expected_digits() {
    assert_eq!(
        PasswordManager::simple_encrypt("Secr3t!", "masterpw"),
        Ok("3e041006560651".to_string())
    );
    assert_eq!(
        PasswordManager::simple_encrypt("pässwörd", "k"),
        Ok("1ba8cf18181ca8dd190f".to_string())
    );
}

#[test]
fn simple_decrypt_inverts_simple_encrypt() {
    for text in ["", "Secr3t!", "pässwörd", "a|b|c", "日本語 text"] {
        let encrypted = PasswordManager::simple_encrypt(text, "masterpw").unwrap();
        assert_eq!(
            PasswordManager::simple_decrypt(&encrypted, "masterpw"),
            Ok(text.to_string())
        );
    }
}

#[test]
fn simple_encrypt_and_decrypt_refuse_an_empty_key() {
    assert_eq!(PasswordManager::simple_encrypt("x", ""), Err(VaultError::InvalidKey));
    assert_eq!(PasswordManager::simple_decrypt("00", ""), Err(VaultError::InvalidKey));
}

#[test]
fn simple_decrypt_reads_invalid_bytes_lossily() {
    assert_eq!(
        PasswordManager::simple_decrypt("ff", "a"),
        Ok("\u{fffd}".to_string())
    );
    assert_eq!(
        PasswordManager::simple_decrypt("4142", "\0"),
        Ok("AB".to_string())
    );
}
