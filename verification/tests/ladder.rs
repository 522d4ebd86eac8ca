use aes::Aes128;
use decoder::console::Console;
use decoder::flash::{Flash, SUB_LOC, SUB_REGION};
use decoder::resources::Resources;
use decoder::subscription::{
    big_bytes, get_subscriptions, load_emergency_subscription, load_subscription, parse_record,
    trailing_zeroes_special, SubStat, Subscription, BACKWARD, FORWARD,
};
use ofb::cipher::{KeyIvInit, StreamCipher};
use ofb::Ofb;

fn resources(emergency: Vec<u8>) -> Resources {
    let mut channels = [0u32; 17];
    channels[1] = 5;
    let keys: Vec<u8> = (0..64u32).map(|i| (i * 11 + 2) as u8).collect();
    Resources::new(channels, keys, emergency).unwrap()
}

fn unseal(sealed: u128, position: usize) -> u128 {
    let keys: Vec<u8> = (0..64u32).map(|i| (i * 11 + 2) as u8).collect();
    let key: [u8; 16] = keys[32 * position..32 * position + 16].try_into().unwrap();
    let iv: [u8; 16] = keys[32 * position + 16..32 * position + 32].try_into().unwrap();
    let mut block = sealed.to_be_bytes();
    let mut cipher = Ofb::<Aes128>::new(&key.into(), &iv.into());
    cipher.apply_keystream(&mut block);
    u128::from_be_bytes(block)
}

fn compress(seed: u128, section: u8) -> u128 {
    let mut input = vec![section];
    input.extend_from_slice(&seed.to_be_bytes());
    let digest = blake3::hash(&input);
    let mut low = [0u8; 16];
    low.copy_from_slice(&digest.as_bytes()[16..32]);
    u128::from_be_bytes(low)
}

fn side(seed: u128) -> [u8; 64] {
    let mut out = [0u8; 64];
    out[48..].copy_from_slice(&seed.to_be_bytes());
    out
}

fn record_bytes() -> Vec<u8> {
    let mut bytes = vec![0u8; 3328];
    bytes[0..4].copy_from_slice(&5u32.to_be_bytes());
    bytes[4..12].copy_from_slice(&0x0102_0304_0506_0708u64.to_be_bytes());
    bytes[12..20].copy_from_slice(&0xF1F2_F3F4_F5F6_F7F8u64.to_be_bytes());
    bytes[20] = 3;
    bytes[21] = 2;
    for (j, anchor) in [16u64, 24, 32].iter().enumerate() {
        bytes[22 + 8 * j..30 + 8 * j].copy_from_slice(&anchor.to_be_bytes());
    }
    for (j, anchor) in [0u64, 0x8000_0000_0000_0000].iter().enumerate() {
        bytes[534 + 8 * j..542 + 8 * j].copy_from_slice(&anchor.to_be_bytes());
    }
    for i in 1280..3328 {
        bytes[i] = (i * 13 % 256) as u8;
    }
    bytes
}

fn seed_at(bytes: &[u8], offset: usize) -> u128 {
    u128::from_be_bytes(bytes[offset..offset + 16].try_into().unwrap())
}

fn flash_with(record: &[u8], page: usize) -> Flash {
    let mut image = vec![0xFFu8; SUB_REGION];
    image[page * 8192..page * 8192 + record.len()].copy_from_slice(record);
    Flash::from_image(image).unwrap()
}

#[test]
fn trailing_zeroes_count_the_open_rounds() {
    assert_eq!(trailing_zeroes_special(0), 64);
    assert_eq!(trailing_zeroes_special(1), 0);
    assert_eq!(trailing_zeroes_special(2), 1);
    assert_eq!(trailing_zeroes_special(96), 5);
    assert_eq!(trailing_zeroes_special(0x8000_0000_0000_0000), 63);
    assert_eq!(trailing_zeroes_special(u64::MAX), 0);
}

#[test]
fn constant_has_its_bytes() {
    let big = big_bytes();
    assert_eq!(big[0], 92);
    assert_eq!(big[1], 244);
    assert_eq!(big[31], 31);
    assert_eq!(big[32], 190);
    assert_eq!(big[63], 231);
    assert_eq!(big.iter().map(|b| *b as u32).sum::<u32>(), 7733);
}

#[test]
fn new_subscription_is_zero() {
    let sub = Subscription::new();
    assert_eq!(sub.forward_pos, [0u64; 64]);
    assert_eq!(sub.backward_pos, [0u64; 64]);
    assert_eq!((sub.start, sub.end, sub.channel, sub.location, sub.curr_frame), (0, 0, 0, 0, 0));
}

#[test]
fn record_fields_are_read_big_endian() {
    let sub = parse_record(&record_bytes(), 77);
    assert_eq!(sub.channel, 5);
    assert_eq!(sub.start, 0x0102_0304_0506_0708);
    assert_eq!(sub.end, 0xF1F2_F3F4_F5F6_F7F8);
    assert_eq!(sub.location, 77);
    assert_eq!(sub.curr_frame, 0);
    assert_eq!(&sub.forward_pos[..4], &[16, 24, 32, 0]);
    assert_eq!(&sub.backward_pos[..3], &[0, 0x8000_0000_0000_0000, 0]);
}

#[test]
fn anchors_end_at_the_first_zero_behind_place_zero() {
    let mut bytes = record_bytes();
    for (j, anchor) in [0u64, 5, 9, 0, 30, 40].iter().enumerate() {
        bytes[22 + 8 * j..30 + 8 * j].copy_from_slice(&anchor.to_be_bytes());
    }
    let sub = parse_record(&bytes, 0);
    let mut expected = [0u64; 64];
    expected[1] = 5;
    expected[2] = 9;
    assert_eq!(sub.forward_pos, expected);
}

#[test]
fn full_anchor_array_is_read_to_its_end() {
    let mut bytes = record_bytes();
    let mut expected = [0u64; 64];
    for j in 0..64 {
        let anchor = 0x0100_0000_0000_0000u64 + (j as u64) * 0x0101;
        expected[j] = anchor;
        bytes[534 + 8 * j..542 + 8 * j].copy_from_slice(&anchor.to_be_bytes());
    }
    let sub = parse_record(&bytes, 0);
    assert_eq!(sub.backward_pos, expected);
    assert_eq!(sub.backward_pos[63], 0x0100_0000_0000_3F3F);
}

#[test]
fn slot_is_loaded_from_its_page() {
    let flash = flash_with(&record_bytes(), 4);
    let mut console = Console::new();
    let sub = load_subscription(&mut console, &flash, 4).unwrap();
    assert_eq!(sub.channel, 5);
    assert_eq!(sub.location, (SUB_LOC + 4 * 8192) as usize);
    assert_eq!(&sub.forward_pos[..4], &[16, 24, 32, 0]);
    assert_eq!(console.take_output(), Vec::<u8>::new());
}

#[test]
fn empty_page_yields_no_subscription() {
    let mut console = Console::new();
    assert!(load_subscription(&mut console, &Flash::new(), 0).is_none());
    assert_eq!(console.take_output(), b"%G\x11\x00SubscriptionError".to_vec());
    let mut zeroed = record_bytes();
    zeroed[20] = 0;
    let flash = flash_with(&zeroed, 1);
    assert!(load_subscription(&mut console, &flash, 1).is_none());
    assert_eq!(console.take_output(), b"%G\x11\x00SubscriptionError".to_vec());
}

#[test]
fn slot_outside_the_region_is_an_error() {
    let mut console = Console::new();
    assert!(load_subscription(&mut console, &Flash::new(), 8).is_none());
    assert_eq!(console.take_output(), b"%E\x0f\x00".to_vec());
    console.receive(b"%A\x00\x00");
    console.settle();
    assert_eq!(console.take_output(), b"InvalidAddress\n".to_vec());
    let mut console = Console::new();
    assert!(load_subscription(&mut console, &Flash::new(), usize::MAX).is_none());
}

#[test]
fn emergency_record_must_be_for_channel_zero() {
    let mut console = Console::new();
    assert!(load_emergency_subscription(&mut console, &record_bytes()).is_none());
    assert_eq!(console.take_output(), b"%G\x03\x00why".to_vec());
    let mut bytes = record_bytes();
    bytes[3] = 0;
    bytes[20] = 0;
    let sub = load_emergency_subscription(&mut console, &bytes).unwrap();
    assert_eq!((sub.channel, sub.location), (0, 0));
    assert_eq!(sub.start, 0x0102_0304_0506_0708);
    assert_eq!(console.take_output(), Vec::<u8>::new());
}

#[test]
fn listing_rows_skip_the_emergency_slot_and_empty_slots() {
    let mut table: [Option<Subscription>; 9] = [None; 9];
    assert_eq!(get_subscriptions(&table), Vec::new());
    let mut sub = Subscription::new();
    table[0] = Some(sub);
    assert_eq!(get_subscriptions(&table), Vec::new());
    sub.channel = 4;
    sub.start = 10;
    sub.end = 20;
    table[8] = Some(sub);
    sub.channel = 2;
    sub.start = 1;
    sub.end = 3;
    table[2] = Some(sub);
    assert_eq!(
        get_subscriptions(&table),
        vec![
            SubStat { channel: 2, start: 1, end: 3 },
            SubStat { channel: 4, start: 10, end: 20 },
        ]
    );
}

#[test]
fn seed_is_fetched_from_the_flash_page() {
    let bytes = record_bytes();
    let flash = flash_with(&bytes, 2);
    let res = resources(vec![0u8; 3328]);
    let sub = parse_record(&bytes, (SUB_LOC + 2 * 8192) as usize);
    assert_eq!(sub.get_intermediate(&flash, &res, 0, FORWARD), seed_at(&bytes, 1280));
    assert_eq!(sub.get_intermediate(&flash, &res, 3, FORWARD), seed_at(&bytes, 1280 + 48));
    assert_eq!(sub.get_intermediate(&flash, &res, 63, FORWARD), seed_at(&bytes, 2288));
    assert_eq!(sub.get_intermediate(&flash, &res, 0, BACKWARD), seed_at(&bytes, 2304));
    assert_eq!(sub.get_intermediate(&flash, &res, 63, BACKWARD), seed_at(&bytes, 3312));
    assert_eq!(sub.get_intermediate(&flash, &res, 1, 12345), seed_at(&bytes, 2320));
}

#[test]
fn seed_of_the_emergency_record_comes_from_the_build() {
    let bytes = record_bytes();
    let res = resources(bytes.clone());
    let sub = parse_record(&bytes, 0);
    let flash = Flash::new();
    assert_eq!(sub.get_intermediate(&flash, &res, 2, FORWARD), seed_at(&bytes, 1280 + 32));
    assert_eq!(sub.get_intermediate(&flash, &res, 2, BACKWARD), seed_at(&bytes, 2304 + 32));
}

#[test]
fn seed_that_cannot_be_read_is_zero() {
    let bytes = record_bytes();
    let res = resources(vec![0u8; 3328]);
    let flash = flash_with(&bytes, 7);
    let beyond = parse_record(&bytes, (SUB_LOC + 7 * 8192 + 7168) as usize);
    assert_eq!(beyond.get_intermediate(&flash, &res, 0, FORWARD), 0);
    let misaligned = parse_record(&bytes, (SUB_LOC + 8) as usize);
    assert_eq!(misaligned.get_intermediate(&flash, &res, 0, FORWARD), 0);
    let far = parse_record(&bytes, usize::MAX);
    assert_eq!(far.get_intermediate(&flash, &res, 0, FORWARD), 0);
}

#[test]
fn hash_round_keeps_the_second_half_of_the_digest() {
    let n: u128 = 0x0f0e_0d0c_0b0a_0908_0706_0504_0302_0100;
    assert_eq!(Subscription::hash(n, 7), compress(n, 7));
    assert_ne!(Subscription::hash(n, 7), Subscription::hash(n, 8));
    assert_ne!(Subscription::hash(n, 7), n);
    let digest = blake3::hash(&[0u8; 17]);
    let mut low = [0u8; 16];
    low.copy_from_slice(&digest.as_bytes()[16..]);
    assert_eq!(Subscription::hash(0, 0), u128::from_be_bytes(low));
}

#[test]
fn side_at_its_anchor_is_the_seed() {
    let bytes = record_bytes();
    let flash = flash_with(&bytes, 0);
    let res = resources(vec![0u8; 3328]);
    let sub = parse_record(&bytes, SUB_LOC as usize);
    let at_16 = unseal(seed_at(&bytes, 1280), 1);
    let at_24 = unseal(seed_at(&bytes, 1296), 1);
    let at_32 = unseal(seed_at(&bytes, 1312), 1);
    assert_eq!(sub.decode_side(&flash, &res, 16, FORWARD), side(at_16));
    assert_eq!(sub.decode_side(&flash, &res, 24, FORWARD), side(at_24));
    assert_eq!(sub.decode_side(&flash, &res, 32, FORWARD), side(at_32));
}

#[test]
fn side_walks_one_round_for_each_set_bit_below_the_anchor() {
    let bytes = record_bytes();
    let flash = flash_with(&bytes, 0);
    let res = resources(vec![0u8; 3328]);
    let sub = parse_record(&bytes, SUB_LOC as usize);
    let at_16 = unseal(seed_at(&bytes, 1280), 1);
    let at_24 = unseal(seed_at(&bytes, 1296), 1);
    let at_32 = unseal(seed_at(&bytes, 1312), 1);
    assert_eq!(sub.decode_side(&flash, &res, 17, FORWARD), side(compress(at_16, 0)));
    assert_eq!(sub.decode_side(&flash, &res, 20, FORWARD), side(compress(at_16, 2)));
    assert_eq!(
        sub.decode_side(&flash, &res, 23, FORWARD),
        side(compress(compress(compress(at_16, 2), 1), 0))
    );
    assert_eq!(sub.decode_side(&flash, &res, 26, FORWARD), side(compress(at_24, 1)));
    assert_eq!(
        sub.decode_side(&flash, &res, 0xFFFF_FFFF_FFFF_FFF0, FORWARD),
        side(compress(at_32, 4))
    );
    assert_eq!(
        sub.decode_side(&flash, &res, 49, FORWARD),
        side(compress(compress(at_32, 4), 0))
    );
}

#[test]
fn side_below_every_anchor_starts_from_place_zero() {
    let bytes = record_bytes();
    let flash = flash_with(&bytes, 0);
    let res = resources(vec![0u8; 3328]);
    let sub = parse_record(&bytes, SUB_LOC as usize);
    let first = unseal(seed_at(&bytes, 1280), 1);
    let mut expected = first;
    for idx in [3u8, 1] {
        expected = compress(expected, idx);
    }
    assert_eq!(sub.decode_side(&flash, &res, 10, FORWARD), side(expected));
    assert_eq!(sub.decode_side(&flash, &res, 0, FORWARD), side(first));
}

#[test]
fn backward_side_uses_the_backward_seeds() {
    let bytes = record_bytes();
    let flash = flash_with(&bytes, 0);
    let res = resources(vec![0u8; 3328]);
    let sub = parse_record(&bytes, SUB_LOC as usize);
    let zero = unseal(seed_at(&bytes, 2304), 1);
    let top = unseal(seed_at(&bytes, 2320), 1);
    assert_eq!(sub.decode_side(&flash, &res, 0, BACKWARD), side(zero));
    assert_eq!(sub.decode_side(&flash, &res, 4, BACKWARD), side(compress(zero, 2)));
    assert_eq!(sub.decode_side(&flash, &res, 0x8000_0000_0000_0000, BACKWARD), side(top));
    assert_eq!(
        sub.decode_side(&flash, &res, 0x8000_0000_0000_0101, BACKWARD),
        side(compress(compress(top, 8), 0))
    );
}

#[test]
fn unknown_direction_yields_zeros() {
    let bytes = record_bytes();
    let flash = flash_with(&bytes, 0);
    let res = resources(vec![0u8; 3328]);
    let sub = parse_record(&bytes, SUB_LOC as usize);
    assert_eq!(sub.decode_side(&flash, &res, 16, 0), [0u8; 64]);
    assert_eq!(sub.decode_side(&flash, &res, 16, FORWARD + 1), [0u8; 64]);
    assert_ne!(sub.decode_side(&flash, &res, 16, FORWARD), [0u8; 64]);
}

#[test]
fn seed_that_was_encrypted_is_decrypted_again() {
    let res = resources(vec![0u8; 3328]);
    for channel in [0u32, 5, 77] {
        for seed in [0u128, 1, 0x0123_4567_89ab_cdef_0011_2233_4455_6677, u128::MAX] {
            let sealed = decoder::resources::decrypt_intermediate(&res, seed, channel);
            assert_ne!(sealed, seed);
            assert_eq!(decoder::resources::decrypt_intermediate(&res, sealed, channel), seed);
        }
    }
}

#[test]
fn frame_is_opened_with_the_mask_of_both_sides() {
    let bytes = record_bytes();
    let flash = flash_with(&bytes, 0);
    let res = resources(vec![0u8; 3328]);
    let sub = parse_record(&bytes, SUB_LOC as usize);
    let timestamp = 20u64;
    let forward = sub.decode_side(&flash, &res, timestamp, FORWARD);
    let backward = sub.decode_side(&flash, &res, !timestamp, BACKWARD);
    let mut guard = [0u8; 64];
    for i in 0..64 {
        guard[i] = forward[i] ^ backward[i];
    }
    let mut hasher = blake3::Hasher::new();
    hasher.update(&guard);
    hasher.update(&big_bytes());
    let mut mask = [0u8; 64];
    hasher.finalize_xof().fill(&mut mask);
    let mut frame = [0u8; 64];
    for i in 0..64 {
        frame[i] = (200 - i) as u8;
    }
    let mut expected = [0u8; 64];
    for i in 0..64 {
        expected[i] = frame[i] ^ mask[i];
    }
    let plain = sub.decode(&flash, &res, &frame, timestamp);
    assert_eq!(plain, expected);
    assert_ne!(plain, frame);
    assert_ne!(&mask[..32], &mask[32..]);
}

#[test]
fn opening_a_closed_frame_gives_it_back() {
    let bytes = record_bytes();
    let flash = flash_with(&bytes, 0);
    let res = resources(vec![0u8; 3328]);
    let sub = parse_record(&bytes, SUB_LOC as usize);
    let mut frame = [0u8; 64];
    for i in 0..64 {
        frame[i] = (i * i) as u8;
    }
    for timestamp in [0u64, 16, 31, 0x0123_4567_89AB_CDEF, u64::MAX] {
        let closed = sub.decode(&flash, &res, &frame, timestamp);
        assert_ne!(closed, frame);
        assert_eq!(sub.decode(&flash, &res, &closed, timestamp), frame);
    }
    let closed = sub.decode(&flash, &res, &frame, 16);
    assert_ne!(sub.decode(&flash, &res, &closed, 17), frame);
}
