use padcipher::error::CipherError;
use padcipher::forward::{parse_conversion_table, ForwardTable};
use padcipher::pipeline::{decrypt, encrypt};
use padcipher::reverse::parse_reverse_table;
use padcipher::transform::{encrypt_byte, recover_original_byte, SENTINEL};
use std::collections::HashMap;

fn full_table() -> String {
    let mut text = String::new();
    let mut code: u8 = 0x00;
    for magnitude in 0..=128u8 {
        text.push_str(&format!("+{:02X}={:02X}\n", magnitude, code));
        code = code.wrapping_add(1);
    }
    for magnitude in 1..=127u8 {
        text.push_str(&format!("-{:02X}={:02X}\n", magnitude, code));
        code = code.wrapping_add(1);
    }
    text
}

#[test]
fn plus_zero_goes_to_its_code_byte_and_back() {
    let forward = parse_conversion_table("+00=01\n").unwrap();
    assert_eq!(encrypt_byte(0x10, 0x10, &forward), 0x01);
    let mut reverse: HashMap<u8, String> = HashMap::new();
    reverse.insert(0x01, "+00".to_string());
    assert_eq!(recover_original_byte(0x10, 0x01, &reverse), Ok(0x10));
}

#[test]
fn sentinel_is_ff() {
    assert_eq!(SENTINEL, 0xFF);
}

#[test]
fn unmapped_token_gives_the_sentinel() {
    let forward = parse_conversion_table("+00=01\n").unwrap();
    assert_eq!(encrypt_byte(0x10, 0x11, &forward), 0xFF);
    assert_eq!(encrypt_byte(0x10, 0x0F, &forward), 0xFF);
    let empty = ForwardTable::new();
    assert_eq!(encrypt_byte(0x00, 0x00, &empty), 0xFF);
}

#[test]
fn lower_case_token_is_never_asked_for() {
    let forward = parse_conversion_table("+0a=01\n").unwrap();
    assert_eq!(encrypt_byte(0x00, 0x0A, &forward), 0xFF);
    let forward = parse_conversion_table("+0A=01\n").unwrap();
    assert_eq!(encrypt_byte(0x00, 0x0A, &forward), 0x01);
}

#[test]
fn encrypt_byte_looks_up_the_token() {
    let forward = parse_conversion_table("+01=A0\n-01=B0\n+80=C0\n").unwrap();
    assert_eq!(encrypt_byte(0x10, 0x11, &forward), 0xA0);
    assert_eq!(encrypt_byte(0x10, 0x0F, &forward), 0xB0);
    assert_eq!(encrypt_byte(0xFF, 0x00, &forward), 0xA0);
    assert_eq!(encrypt_byte(0x00, 0x80, &forward), 0xC0);
    assert_eq!(encrypt_byte(0x80, 0x00, &forward), 0xC0);
}

#[test]
fn recover_applies_the_token() {
    let reverse = parse_reverse_table("+05=A0\n-05=B0\n").unwrap();
    assert_eq!(recover_original_byte(0x10, 0xA0, &reverse), Ok(0x15));
    assert_eq!(recover_original_byte(0x10, 0xB0, &reverse), Ok(0x0B));
    assert_eq!(recover_original_byte(0xFE, 0xA0, &reverse), Ok(0x03));
    assert_eq!(recover_original_byte(0x02, 0xB0, &reverse), Ok(0xFD));
}

#[test]
fn recover_without_token_is_a_lookup_error() {
    let reverse = parse_reverse_table("+05=A0\n").unwrap();
    assert_eq!(
        recover_original_byte(0x10, 0xA1, &reverse),
        Err(CipherError::Lookup)
    );
    assert_eq!(
        recover_original_byte(0x10, 0xFF, &HashMap::new()),
        Err(CipherError::Lookup)
    );
}

#[test]
fn recover_with_other_sign_is_an_invalid_operator() {
    let reverse = parse_reverse_table("*05=A0\n=A1\n").unwrap();
    assert_eq!(
        recover_original_byte(0x10, 0xA0, &reverse),
        Err(CipherError::InvalidOperator)
    );
    assert_eq!(
        recover_original_byte(0x10, 0xA1, &reverse),
        Err(CipherError::InvalidOperator)
    );
}

#[test]
fn recover_with_malformed_magnitude_is_a_parse_error() {
    let reverse = parse_reverse_table("-ZZ=A0\n").unwrap();
    assert_eq!(
        recover_original_byte(0x10, 0xA0, &reverse),
        Err(CipherError::Parse)
    );
}

#[test]
fn encrypt_pairs_payload_and_pad_by_position() {
    let forward = parse_conversion_table("+00=01\n+01=02\n-01=03\n").unwrap();
    let payload = [0x10, 0x11, 0x0F, 0x20];
    let pad = [0x10, 0x10, 0x10, 0x10];
    assert_eq!(
        encrypt(&payload, &forward, &pad),
        Ok(vec![0x01, 0x02, 0x03, 0xFF])
    );
}

#[test]
fn encrypt_uses_only_the_front_of_the_pad() {
    let forward = parse_conversion_table("+00=01\n+01=02\n").unwrap();
    assert_eq!(
        encrypt(&[0x05, 0x06], &forward, &[0x05, 0x05, 0x99, 0x98]),
        Ok(vec![0x01, 0x02])
    );
    assert_eq!(encrypt(&[], &forward, &[0x05]), Ok(vec![]));
    assert_eq!(encrypt(&[], &forward, &[]), Ok(vec![]));
}

#[test]
fn encrypt_needs_a_pad_byte_for_each_payload_byte() {
    let forward = parse_conversion_table("+00=01\n").unwrap();
    assert_eq!(
        encrypt(&[1, 2, 3], &forward, &[1, 2]),
        Err(CipherError::InsufficientPad)
    );
    assert_eq!(
        encrypt(&[1], &forward, &[]),
        Err(CipherError::InsufficientPad)
    );
}

#[test]
fn decrypt_pairs_payload_and_pad_by_position() {
    let reverse = parse_reverse_table("+00=01\n+01=02\n-01=03\n").unwrap();
    assert_eq!(
        decrypt(&[0x01, 0x02, 0x03], &reverse, &[0x10, 0x20, 0x30, 0x40]),
        Ok(vec![0x10, 0x21, 0x2F])
    );
    assert_eq!(decrypt(&[], &reverse, &[]), Ok(vec![]));
}

#[test]
fn decrypt_needs_a_pad_byte_for_each_payload_byte() {
    let reverse = parse_reverse_table("+00=01\n").unwrap();
    assert_eq!(
        decrypt(&[1, 1, 1], &reverse, &[1, 2]),
        Err(CipherError::InsufficientPad)
    );
}

#[test]
fn decrypt_fails_with_the_first_error() {
    let reverse = parse_reverse_table("+00=01\n*01=02\n-ZZ=04\n").unwrap();
    assert_eq!(
        decrypt(&[0x01, 0x03, 0x02], &reverse, &[0, 0, 0]),
        Err(CipherError::Lookup)
    );
    assert_eq!(
        decrypt(&[0x01, 0x02, 0x03], &reverse, &[0, 0, 0]),
        Err(CipherError::InvalidOperator)
    );
    assert_eq!(
        decrypt(&[0x04, 0x02, 0x03], &reverse, &[0, 0, 0]),
        Err(CipherError::Parse)
    );
    assert_eq!(
        decrypt(&[0x01, 0x01, 0x03], &reverse, &[0, 0, 0]),
        Err(CipherError::Lookup)
    );
}

#[test]
fn round_trip_with_a_one_to_one_table() {
    let text = full_table();
    let forward = parse_conversion_table(&text).unwrap();
    let reverse = parse_reverse_table(&text).unwrap();
    let payload: Vec<u8> = (0..=255u8).collect();
    for shift in [0u8, 1, 63, 127, 128, 129, 200, 255] {
        let pad: Vec<u8> = payload
            .iter()
            .map(|b| b.wrapping_mul(7).wrapping_add(shift))
            .collect();
        let coded = encrypt(&payload, &forward, &pad).unwrap();
        assert_eq!(decrypt(&coded, &reverse, &pad), Ok(payload.clone()));
    }
}

#[test]
fn round_trip_every_pair_of_bytes() {
    let text = full_table();
    let forward = parse_conversion_table(&text).unwrap();
    let reverse = parse_reverse_table(&text).unwrap();
    for pad in 0..=255u8 {
        for plain in 0..=255u8 {
            let code = encrypt_byte(pad, plain, &forward);
            assert_eq!(recover_original_byte(pad, code, &reverse), Ok(plain));
        }
    }
}

#[test]
fn round_trip_fails_where_tokens_share_a_code_byte() {
    let text = "+01=AA\n+02=AA\n";
    let forward = parse_conversion_table(text).unwrap();
    let reverse = parse_reverse_table(text).unwrap();
    let coded = encrypt(&[0x12], &forward, &[0x10]).unwrap();
    assert_eq!(coded, vec![0xAA]);
    assert_eq!(decrypt(&coded, &reverse, &[0x10]), Ok(vec![0x11]));
}

#[test]
fn round_trip_holds_where_shared_tokens_have_one_effect() {
    let text = "-80=AA\n+80=AA\n";
    let forward = parse_conversion_table(text).unwrap();
    let mut reverse: HashMap<u8, String> = HashMap::new();
    reverse.insert(0xAA, "-80".to_string());
    let coded = encrypt(&[0x90], &forward, &[0x10]).unwrap();
    assert_eq!(coded, vec![0xAA]);
    assert_eq!(decrypt(&coded, &reverse, &[0x10]), Ok(vec![0x90]));
}

#[test]
fn sentinel_byte_does_not_come_back() {
    let text = "+00=01\n";
    let forward = parse_conversion_table(text).unwrap();
    let reverse = parse_reverse_table(text).unwrap();
    let coded = encrypt(&[0x10, 0x33], &forward, &[0x10, 0x10]).unwrap();
    assert_eq!(coded, vec![0x01, 0xFF]);
    assert_eq!(
        decrypt(&coded, &reverse, &[0x10, 0x10]),
        Err(CipherError::Lookup)
    );
}

#[test]
fn same_inputs_give_the_same_output() {
    let text = full_table();
    let payload = [0x00, 0x7F, 0x80, 0xFF, 0x42];
    let pad = [0x13, 0x37, 0xC0, 0xDE, 0x00];
    let first = encrypt(&payload, &parse_conversion_table(&text).unwrap(), &pad);
    let second = encrypt(&payload, &parse_conversion_table(&text).unwrap(), &pad);
    assert_eq!(first, second);
    let coded = first.unwrap();
    let first = decrypt(&coded, &parse_reverse_table(&text).unwrap(), &pad);
    let second = decrypt(&coded, &parse_reverse_table(&text).unwrap(), &pad);
    assert_eq!(first, second);
    let longer_pad = [0x13, 0x37, 0xC0, 0xDE, 0x00, 0x55, 0x66];
    assert_eq!(
        encrypt(&payload, &parse_conversion_table(&text).unwrap(), &longer_pad).unwrap(),
        coded
    );
}

#[test]
fn sentinel_can_collide_with_a_mapped_code_byte() {
    let text = "+00=FF\n";
    let forward = parse_conversion_table(text).unwrap();
    let reverse = parse_reverse_table(text).unwrap();
    let coded = encrypt(&[0x10, 0x33], &forward, &[0x10, 0x10]).unwrap();
    assert_eq!(coded, vec![0xFF, 0xFF]);
    assert_eq!(
        decrypt(&coded, &reverse, &[0x10, 0x10]),
        Ok(vec![0x10, 0x10])
    );
}
