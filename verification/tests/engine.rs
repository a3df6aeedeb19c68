use aes::cipher::BlockCipherEncrypt;
use aes::cipher::KeyInit;

use yubikey_otp::errors::YkError;
use yubikey_otp::yubikey::decrypt_bytes;
use yubikey_otp::yubikey::Yubikey;
use yubikey_otp::yubikey::YubikeyAesKey;
use yubikey_otp::yubikey::YubikeyPrivateIdentity;
use yubikey_otp::yubikey::YubikeyStore;

fn crc16(data: &[u8]) -> u16 {
    let mut crc: u16 = 0xffff;
    for byte in data {
        let mut tmp = crc ^ (*byte as u16);
        for _ in 0..8 {
            if tmp & 1 == 1 {
                tmp = (tmp >> 1) ^ 0x8408;
            } else {
                tmp >>= 1;
            }
        }
        crc = tmp;
    }
    crc
}

fn encrypt(key: &[u8], block: &[u8; 16]) -> [u8; 16] {
    let cipher = aes::Aes128::new_from_slice(key).unwrap();
    let mut b = aes::Block::try_from(&block[..]).unwrap();
    cipher.encrypt_block(&mut b);
    let mut out = [0u8; 16];
    out.copy_from_slice(b.as_slice());
    out
}

fn modhex_encode(bytes: &[u8]) -> String {
    let alphabet = b"cbdefghijklnrtuv";
    let mut s = String::new();
    for &b in bytes {
        s.push(alphabet[(b >> 4) as usize] as char);
        s.push(alphabet[(b & 0xf) as usize] as char);
    }
    s
}

fn plaintext_block(private_id: &[u8; 6], counter: u16, session: u8) -> [u8; 16] {
    let mut block = [0u8; 16];
    block[..6].copy_from_slice(private_id);
    block[6] = (counter & 0xff) as u8;
    block[7] = (counter >> 8) as u8;
    block[11] = session;
    let crc = !crc16(&block[..14]);
    block[14] = (crc & 0xff) as u8;
    block[15] = (crc >> 8) as u8;
    block
}

fn make_otp(public_id: &str, key: &[u8], private_id: &[u8; 6], counter: u16, session: u8) -> String {
    let block = plaintext_block(private_id, counter, session);
    let ct = encrypt(key, &block);
    let mut otp = String::from(public_id);
    otp.push_str(&modhex_encode(&ct));
    otp
}

fn alice_store() -> YubikeyStore {
    YubikeyStore {
        filename: String::from("shadow.yk"),
        keys: vec![Yubikey {
            local_username: String::from("alice"),
            public_id: String::from("cccccccccccc"),
            private_id: YubikeyPrivateIdentity::from_bytes(&[1, 2, 3, 4, 5, 6]).unwrap(),
            encryption_key: YubikeyAesKey::from_str("000102030405060708090a0b0c0d0e0f").unwrap(),
            last_usage_count: 10,
            last_session_count: 2,
        }],
    }
}

fn alice_key() -> Vec<u8> {
    (0u8..16).collect()
}

#[test]
fn fresh_counter_is_accepted_and_persisted() {
    let mut store = alice_store();
    let otp = make_otp("cccccccccccc", &alice_key(), &[1, 2, 3, 4, 5, 6], 11, 3);
    let decoded = store.validate_otp_for_user(&otp, "alice").unwrap();
    assert_eq!(decoded.public_id, "cccccccccccc");
    assert_eq!(decoded.private_id.bytes, vec![1, 2, 3, 4, 5, 6]);
    assert_eq!(decoded.counter, 11);
    assert_eq!(decoded.session_counter, 3);
    assert_eq!(store.keys[0].last_usage_count, 11);
    assert_eq!(store.keys[0].last_session_count, 3);
    let lines = store.to_lines();
    assert_eq!(lines, vec!["alice:cccccccccccc:010203040506:000102030405060708090a0b0c0d0e0f:11:3"]);
}

#[test]
fn replaying_the_same_otp_is_rejected() {
    let mut store = alice_store();
    let otp = make_otp("cccccccccccc", &alice_key(), &[1, 2, 3, 4, 5, 6], 11, 3);
    assert!(store.validate_otp_for_user(&otp, "alice").is_some());
    assert!(store.validate_otp_for_user(&otp, "alice").is_none());
    assert_eq!(store.keys[0].last_usage_count, 11);
    assert_eq!(store.keys[0].last_session_count, 3);
}

#[test]
fn session_counter_breaks_ties() {
    let mut store = alice_store();
    let fresh_session = make_otp("cccccccccccc", &alice_key(), &[1, 2, 3, 4, 5, 6], 10, 3);
    assert!(store.validate_otp_for_user(&fresh_session, "alice").is_some());
    assert_eq!(store.keys[0].last_usage_count, 10);
    assert_eq!(store.keys[0].last_session_count, 3);
    let equal_session = make_otp("cccccccccccc", &alice_key(), &[1, 2, 3, 4, 5, 6], 10, 3);
    assert!(store.validate_otp_for_user(&equal_session, "alice").is_none());
    let lesser_session = make_otp("cccccccccccc", &alice_key(), &[1, 2, 3, 4, 5, 6], 10, 2);
    assert!(store.validate_otp_for_user(&lesser_session, "alice").is_none());
    let next_session = make_otp("cccccccccccc", &alice_key(), &[1, 2, 3, 4, 5, 6], 10, 4);
    assert!(store.validate_otp_for_user(&next_session, "alice").is_some());
}

#[test]
fn spec_scenario_walkthrough() {
    let mut store = alice_store();
    let otp = make_otp("cccccccccccc", &alice_key(), &[1, 2, 3, 4, 5, 6], 11, 3);
    let decoded = store.validate_otp_for_user(&otp, "alice").unwrap();
    assert_eq!(decoded.counter, 11);
    assert_eq!(decoded.session_counter, 3);
    assert_eq!(store.keys[0].last_usage_count, 11);
    assert_eq!(store.keys[0].last_session_count, 3);
    assert!(store.validate_otp_for_user(&otp, "alice").is_none());
    let next = make_otp("cccccccccccc", &alice_key(), &[1, 2, 3, 4, 5, 6], 11, 4);
    assert!(store.validate_otp_for_user(&next, "alice").is_some());
    let stale = make_otp("cccccccccccc", &alice_key(), &[1, 2, 3, 4, 5, 6], 11, 2);
    assert!(store.validate_otp_for_user(&stale, "alice").is_none());
}

#[test]
fn wrong_length_is_no_match_and_leaves_store_alone() {
    let mut store = alice_store();
    assert!(store.validate_otp_for_user("", "alice").is_none());
    assert!(store.validate_otp_for_user("cccccccc", "alice").is_none());
    let otp = make_otp("cccccccccccc", &alice_key(), &[1, 2, 3, 4, 5, 6], 11, 3);
    let truncated = &otp[..43];
    assert!(store.validate_otp_for_user(truncated, "alice").is_none());
    let extended = format!("{}c", otp);
    assert!(store.validate_otp_for_user(&extended, "alice").is_none());
    assert_eq!(store.keys[0].last_usage_count, 10);
    assert_eq!(store.keys[0].last_session_count, 2);
}

#[test]
fn surrounding_whitespace_is_trimmed() {
    let mut store = alice_store();
    let otp = make_otp("cccccccccccc", &alice_key(), &[1, 2, 3, 4, 5, 6], 11, 3);
    let padded = format!("  {}\n", otp);
    assert!(store.validate_otp_for_user(&padded, "alice").is_some());
}

#[test]
fn unknown_public_id_or_username_is_no_match() {
    let mut store = alice_store();
    let wrong_prefix = make_otp("dddddddddddd", &alice_key(), &[1, 2, 3, 4, 5, 6], 11, 3);
    assert!(store.validate_otp_for_user(&wrong_prefix, "alice").is_none());
    let otp = make_otp("cccccccccccc", &alice_key(), &[1, 2, 3, 4, 5, 6], 11, 3);
    assert!(store.validate_otp_for_user(&otp, "bob").is_none());
    assert_eq!(store.keys[0].last_usage_count, 10);
}

#[test]
fn bad_modhex_in_suffix_is_no_match() {
    let mut store = alice_store();
    let mut otp = make_otp("cccccccccccc", &alice_key(), &[1, 2, 3, 4, 5, 6], 11, 3);
    otp.replace_range(43..44, "x");
    assert!(store.validate_otp_for_user(&otp, "alice").is_none());
}

#[test]
fn wrong_private_id_is_no_match() {
    let mut store = alice_store();
    let otp = make_otp("cccccccccccc", &alice_key(), &[6, 5, 4, 3, 2, 1], 11, 3);
    assert!(store.validate_otp_for_user(&otp, "alice").is_none());
    assert_eq!(store.keys[0].last_usage_count, 10);
}

#[test]
fn any_single_bit_flip_in_ciphertext_is_rejected() {
    let block = plaintext_block(&[1, 2, 3, 4, 5, 6], 11, 3);
    let ct = encrypt(&alice_key(), &block);
    for byte in 0..16 {
        for bit in 0..8 {
            let mut flipped = ct;
            flipped[byte] ^= 1u8 << bit;
            let mut store = alice_store();
            let mut otp = String::from("cccccccccccc");
            otp.push_str(&modhex_encode(&flipped));
            assert!(store.validate_otp_for_user(&otp, "alice").is_none());
            assert_eq!(store.keys[0].last_usage_count, 10);
            assert_eq!(store.keys[0].last_session_count, 2);
        }
    }
}

#[test]
fn decrypt_bytes_checks_length_and_checksum() {
    let key = YubikeyAesKey::from_str("000102030405060708090a0b0c0d0e0f").unwrap();
    let block = plaintext_block(&[1, 2, 3, 4, 5, 6], 11, 3);
    let ct = encrypt(&alice_key(), &block);
    let plain = decrypt_bytes(ct.to_vec(), &key).unwrap();
    assert_eq!(plain, block.to_vec());
    assert_eq!(decrypt_bytes(vec![0u8; 15], &key).unwrap_err(), YkError::CryptoError);
    assert_eq!(decrypt_bytes(vec![0u8; 17], &key).unwrap_err(), YkError::CryptoError);
    let mut flipped = ct;
    flipped[0] ^= 1;
    assert_eq!(decrypt_bytes(flipped.to_vec(), &key).unwrap_err(), YkError::CryptoError);
}

#[test]
fn second_record_can_still_match() {
    let mut store = alice_store();
    store.keys.insert(
        0,
        Yubikey {
            local_username: String::from("alice"),
            public_id: String::from("cccccccccccc"),
            private_id: YubikeyPrivateIdentity::from_bytes(&[9, 9, 9, 9, 9, 9]).unwrap(),
            encryption_key: YubikeyAesKey::from_str("ffeeddccbbaa99887766554433221100").unwrap(),
            last_usage_count: 0,
            last_session_count: 0,
        },
    );
    let otp = make_otp("cccccccccccc", &alice_key(), &[1, 2, 3, 4, 5, 6], 11, 3);
    let decoded = store.validate_otp_for_user(&otp, "alice").unwrap();
    assert_eq!(decoded.counter, 11);
    assert_eq!(store.keys[0].last_usage_count, 0);
    assert_eq!(store.keys[1].last_usage_count, 11);
}
