use decoder::integrity::{boot_check, jitter, test_2, JITTER_BASE, PENALTY_MS};

#[test]
fn jitter_lies_between_five_and_two_hundred_sixty() {
    assert_eq!(jitter(0), 5);
    assert_eq!(jitter(1), 6);
    assert_eq!(jitter(255), 260);
    assert_eq!(jitter(256), 5);
    assert_eq!(jitter(0xFFFF_FF07), 12);
    assert_eq!(jitter(u32::MAX), 260);
    assert_eq!(JITTER_BASE, 5);
    assert_eq!(PENALTY_MS, 4500);
}

#[test]
fn probe_squares_in_thirty_two_bits() {
    assert_eq!(test_2(0), 0);
    assert_eq!(test_2(3), 9);
    assert_eq!(test_2(0xFFFF), 0xFFFE_0001);
    assert_eq!(test_2(0x1_0000), 0);
    assert_eq!(test_2(0x1_0001), 0x2_0001);
    assert_eq!(test_2(u32::MAX), 1);
}

#[test]
fn probe_is_sound_when_the_square_comes_back() {
    assert!(decoder::integrity::test(3, 9));
    assert!(decoder::integrity::test(0x1_0001, 0x2_0001));
    assert!(decoder::integrity::test(u32::MAX, 1));
    assert!(!decoder::integrity::test(3, 10));
    assert!(!decoder::integrity::test(3, 8));
    assert!(!decoder::integrity::test(0, 1));
}

#[test]
fn boot_stage_is_known_by_either_digest() {
    let stage: Vec<u8> = (0..2048u32).map(|i| (i % 256) as u8).collect();
    let digest = *blake3::hash(&stage).as_bytes();
    let mut other = digest;
    other[31] ^= 0x80;
    assert!(boot_check(&stage, &digest, &other));
    assert!(boot_check(&stage, &other, &digest));
    assert!(boot_check(&stage, &digest, &digest));
    assert!(!boot_check(&stage, &other, &other));
    assert!(!boot_check(&stage[..2047], &digest, &other));
    assert!(!boot_check(&stage, &[0u8; 32], &stage[..32].try_into().unwrap()));
}
