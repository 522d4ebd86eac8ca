use aes::Aes128;
use decoder::resources::{
    decrypt_intermediate, get_channels, get_decrypt_loc_for_channel, get_id,
    load_verification_key, parse_u32, Resources,
};
use ed25519_dalek::SigningKey;
use ofb::cipher::{KeyIvInit, StreamCipher};
use ofb::Ofb;

fn table(head: &[u32]) -> [u32; 17] {
    let mut out = [0u32; 17];
    out[..head.len()].copy_from_slice(head);
    out
}

fn keys(positions: usize) -> Vec<u8> {
    (0..positions * 32).map(|i| (i * 5 + 3) as u8).collect()
}

#[test]
fn channel_list_is_read_behind_channel_zero() {
    assert_eq!(get_channels(b"1,3,7,8"), Some(table(&[0, 1, 3, 7, 8])));
    assert_eq!(get_channels(b"42"), Some(table(&[0, 42])));
    assert_eq!(get_channels(b"4294967295,0"), Some(table(&[0, 4294967295, 0])));
    assert_eq!(get_channels(b"+5,007"), Some(table(&[0, 5, 7])));
}

#[test]
fn channel_list_keeps_sixteen_channels() {
    let list = b"1,2,3,4,5,6,7,8,9,10,11,12,13,14,15,16,17,18";
    let expected = table(&[0, 1, 2, 3, 4, 5, 6, 7, 8, 9, 10, 11, 12, 13, 14, 15, 16]);
    assert_eq!(get_channels(list), Some(expected));
}

#[test]
fn channel_list_with_a_bad_field_is_unreadable() {
    assert_eq!(get_channels(b""), None);
    assert_eq!(get_channels(b"1,,2"), None);
    assert_eq!(get_channels(b"1,2,"), None);
    assert_eq!(get_channels(b",1"), None);
    assert_eq!(get_channels(b"1, 2"), None);
    assert_eq!(get_channels(b"1,x"), None);
    assert_eq!(get_channels(b"-1"), None);
    assert_eq!(get_channels(b"+"), None);
    assert_eq!(get_channels(b"4294967296"), None);
    assert_eq!(get_channels(b"1,2,3,4,5,6,7,8,9,10,11,12,13,14,15,16,17,oops"), None);
}

#[test]
fn numbers_are_parsed() {
    assert_eq!(parse_u32(b"0"), Some(0));
    assert_eq!(parse_u32(b"12345"), Some(12345));
    assert_eq!(parse_u32(b"+12"), Some(12));
    assert_eq!(parse_u32(b"0000000000000000009"), Some(9));
    assert_eq!(parse_u32(b"4294967295"), Some(u32::MAX));
    assert_eq!(parse_u32(b"4294967296"), None);
    assert_eq!(parse_u32(b"99999999999999999999999999"), None);
    assert_eq!(parse_u32(b""), None);
    assert_eq!(parse_u32(b"++1"), None);
    assert_eq!(parse_u32(b"1+"), None);
    assert_eq!(parse_u32(b"12a"), None);
    assert_eq!(parse_u32(b"42949672960x"), None);
}

#[test]
fn decoder_id_is_a_decimal_number() {
    assert_eq!(get_id(b"3735928559"), Some(0xDEADBEEF));
    assert_eq!(get_id(b"0xdeadbeef"), None);
}

#[test]
fn channel_is_found_at_its_first_position() {
    let channels = table(&[0, 1, 3, 7, 8, 3]);
    assert_eq!(get_decrypt_loc_for_channel(&channels, 0), 0);
    assert_eq!(get_decrypt_loc_for_channel(&channels, 1), 1);
    assert_eq!(get_decrypt_loc_for_channel(&channels, 3), 2);
    assert_eq!(get_decrypt_loc_for_channel(&channels, 8), 4);
    assert_eq!(get_decrypt_loc_for_channel(&channels, 9), 0);
}

#[test]
fn resources_need_key_material_for_every_channel() {
    let channels = table(&[0, 1, 3]);
    let record = vec![0u8; 3328];
    assert!(Resources::new(channels, keys(3), record.clone()).is_some());
    assert!(Resources::new(channels, keys(4), record.clone()).is_some());
    assert!(Resources::new(channels, keys(2), record.clone()).is_none());
    assert!(Resources::new(channels, vec![0u8; 95], record.clone()).is_none());
    assert!(Resources::new(table(&[0]), Vec::new(), record.clone()).is_none());
    assert!(Resources::new(table(&[0]), keys(1), record.clone()).is_some());
    assert!(Resources::new(table(&[0, 0, 5]), keys(2), record.clone()).is_none());
    assert!(Resources::new(table(&[0, 0, 5]), keys(3), record).is_some());
}

#[test]
fn resources_need_a_whole_emergency_record() {
    let channels = table(&[0, 1]);
    assert!(Resources::new(channels, keys(2), vec![0u8; 3327]).is_none());
    assert!(Resources::new(channels, keys(2), vec![0u8; 3328]).is_some());
    assert!(Resources::new(channels, keys(2), vec![0u8; 8192]).is_some());
}

#[test]
fn resources_need_channel_zero_in_front() {
    assert!(Resources::new(table(&[4, 1]), keys(2), vec![0u8; 3328]).is_none());
}

#[test]
fn seed_is_decrypted_with_the_key_of_its_channel() {
    let channels = table(&[0, 1, 3, 7]);
    let blob = keys(4);
    let resources = Resources::new(channels, blob.clone(), vec![0u8; 3328]).unwrap();
    let sealed: u128 = 0x0011_2233_4455_6677_8899_aabb_ccdd_eeff;
    for (channel, position) in [(0u32, 0usize), (1, 1), (3, 2), (7, 3), (99, 0)] {
        let mut block = sealed.to_be_bytes();
        let key: [u8; 16] = blob[32 * position..32 * position + 16].try_into().unwrap();
        let iv: [u8; 16] = blob[32 * position + 16..32 * position + 32].try_into().unwrap();
        let mut cipher = Ofb::<Aes128>::new(&key.into(), &iv.into());
        cipher.apply_keystream(&mut block);
        let expected = u128::from_be_bytes(block);
        assert_ne!(expected, sealed);
        assert_eq!(decrypt_intermediate(&resources, sealed, channel), expected);
        assert_eq!(decrypt_intermediate(&resources, expected, channel), sealed);
    }
}

#[test]
fn seed_decryption_has_a_known_value() {
    let resources = Resources::new(table(&[0]), vec![0u8; 32], vec![0u8; 3328]).unwrap();
    let stream = decrypt_intermediate(&resources, 0, 0);
    assert_eq!(stream, 0x66e9_4bd4_ef8a_2c3b_884c_fa59_ca34_2b2e);
}

#[test]
fn verifying_key_must_be_a_curve_point() {
    let good = SigningKey::from_bytes(&[9u8; 32]).verifying_key().to_bytes();
    assert_eq!(load_verification_key(&good), Some(good));
    let mut bad = None;
    for first in 0..=255u8 {
        let mut candidate = [0xFFu8; 32];
        candidate[0] = first;
        candidate[31] = 0x7F;
        if ed25519_dalek::VerifyingKey::from_bytes(&candidate).is_err() {
            bad = Some(candidate);
            break;
        }
    }
    let bad = bad.unwrap();
    assert_eq!(load_verification_key(&bad), None);
}
