use aes::Aes128;
use decoder::console::Console;
use decoder::dispatcher::{carry_counter, read_resp, Decoder, Event, Phase, Want};
use decoder::subscription::Subscription;
use decoder::flash::{Flash, SUB_REGION};
use decoder::resources::{get_channels, Resources};
use ed25519_dalek::{Digest, DigestSigner, Sha512, SigningKey};
use ofb::cipher::{KeyIvInit, StreamCipher};
use ofb::Ofb;

const ACK: [u8; 4] = [0x25, 0x41, 0x00, 0x00];

const BIG: [u8; 64] = [
    92, 244, 129, 255, 230, 241, 27, 64, 141, 102, 255, 242, 62, 90, 184, 39, 179, 61, 229, 42, 43,
    60, 236, 180, 17, 81, 0, 19, 40, 237, 9, 31, 190, 96, 11, 35, 242, 31, 191, 50, 123, 176, 19,
    168, 38, 117, 144, 128, 85, 72, 55, 123, 175, 222, 187, 108, 70, 122, 249, 95, 86, 175, 58, 231,
];

struct Rig {
    decoder: Decoder,
    console: Console,
    probes: usize,
    failing_probe: Option<usize>,
    pauses: Vec<u32>,
}

fn key_material(position: usize) -> ([u8; 16], [u8; 16]) {
    let mut key = [0u8; 16];
    let mut iv = [0u8; 16];
    for i in 0..16 {
        key[i] = (position * 31 + i * 7 + 1) as u8;
        iv[i] = (position * 17 + i * 3 + 5) as u8;
    }
    (key, iv)
}

fn keys_blob(positions: usize) -> Vec<u8> {
    let mut blob = Vec::new();
    for position in 0..positions {
        let (key, iv) = key_material(position);
        blob.extend_from_slice(&key);
        blob.extend_from_slice(&iv);
    }
    blob
}

fn seal(seed: u128, position: usize) -> u128 {
    let (key, iv) = key_material(position);
    let mut block = seed.to_be_bytes();
    let mut cipher = Ofb::<Aes128>::new(&key.into(), &iv.into());
    cipher.apply_keystream(&mut block);
    u128::from_be_bytes(block)
}

fn compress(seed: u128, section: u8) -> u128 {
    let mut hasher = blake3::Hasher::new();
    hasher.update(&[section]);
    hasher.update(&seed.to_be_bytes());
    let digest = hasher.finalize();
    let mut low = [0u8; 16];
    low.copy_from_slice(&digest.as_bytes()[16..32]);
    u128::from_be_bytes(low)
}

fn walk(seed: u128, anchor: u64, target: u64) -> u128 {
    let rounds = if anchor == 0 { 64 } else { anchor.trailing_zeros() };
    let mut value = seed;
    for idx in (0..rounds).rev() {
        if (target >> idx) & 1 == 1 {
            value = compress(value, idx as u8);
        }
    }
    value
}

fn mask(forward: u128, backward: u128) -> [u8; 64] {
    let mut guard = [0u8; 64];
    guard[48..].copy_from_slice(&(forward ^ backward).to_be_bytes());
    let mut hasher = blake3::Hasher::new();
    hasher.update(&guard);
    hasher.update(&BIG);
    let mut out = [0u8; 64];
    hasher.finalize_xof().fill(&mut out);
    out
}

fn record(
    channel: u32,
    position: usize,
    start: u64,
    end: u64,
    forward: &[(u64, u128)],
    backward: &[(u64, u128)],
) -> Vec<u8> {
    let mut bytes = vec![0u8; 3328];
    bytes[0..4].copy_from_slice(&channel.to_be_bytes());
    bytes[4..12].copy_from_slice(&start.to_be_bytes());
    bytes[12..20].copy_from_slice(&end.to_be_bytes());
    bytes[20] = forward.len() as u8;
    bytes[21] = backward.len() as u8;
    for (j, (anchor, seed)) in forward.iter().enumerate() {
        bytes[22 + 8 * j..30 + 8 * j].copy_from_slice(&anchor.to_be_bytes());
        bytes[1280 + 16 * j..1296 + 16 * j].copy_from_slice(&seal(*seed, position).to_be_bytes());
    }
    for (j, (anchor, seed)) in backward.iter().enumerate() {
        bytes[534 + 8 * j..542 + 8 * j].copy_from_slice(&anchor.to_be_bytes());
        bytes[2304 + 16 * j..2320 + 16 * j].copy_from_slice(&seal(*seed, position).to_be_bytes());
    }
    bytes
}

fn signer() -> SigningKey {
    SigningKey::from_bytes(&[5u8; 32])
}

fn sign(channel: u32, plain: &[u8; 64]) -> [u8; 64] {
    let key = signer();
    let context = channel.to_be_bytes();
    let bound = key.with_context(&context).unwrap();
    bound.sign_digest(Sha512::default().chain_update(plain)).to_bytes()
}

fn decode_request(channel: u32, timestamp: u64, signature: &[u8; 64], frame: &[u8; 64]) -> Vec<u8> {
    let mut payload = Vec::new();
    payload.extend_from_slice(&channel.to_be_bytes());
    payload.extend_from_slice(&timestamp.to_be_bytes());
    payload.extend_from_slice(signature);
    payload.extend_from_slice(frame);
    payload
}

fn xor(a: &[u8; 64], b: &[u8; 64]) -> [u8; 64] {
    let mut out = [0u8; 64];
    for i in 0..64 {
        out[i] = a[i] ^ b[i];
    }
    out
}

const EMERGENCY_FORWARD: u128 = 0x0123_4567_89ab_cdef_0011_2233_4455_6677;
const EMERGENCY_BACKWARD: u128 = 0x8899_aabb_ccdd_eeff_fedc_ba98_7654_3210;

fn emergency_record() -> Vec<u8> {
    record(0, 0, 0, u64::MAX, &[(0, EMERGENCY_FORWARD)], &[(0, EMERGENCY_BACKWARD)])
}

fn emergency_frame(plain: &[u8; 64], timestamp: u64) -> [u8; 64] {
    let forward = walk(EMERGENCY_FORWARD, 0, timestamp);
    let backward = walk(EMERGENCY_BACKWARD, 0, !timestamp);
    xor(plain, &mask(forward, backward))
}

const SEVEN_FORWARD: u128 = 0x1111_2222_3333_4444_5555_6666_7777_8888;
const SEVEN_BACKWARD: u128 = 0x9999_aaaa_bbbb_cccc_dddd_eeee_ffff_0001;

fn seven_record(start: u64, end: u64) -> Vec<u8> {
    record(
        7,
        3,
        start,
        end,
        &[(96, SEVEN_FORWARD), (128, SEVEN_FORWARD + 1)],
        &[(0, SEVEN_BACKWARD)],
    )
}

fn seven_frame(plain: &[u8; 64], timestamp: u64) -> [u8; 64] {
    let forward = if timestamp >= 128 {
        walk(SEVEN_FORWARD + 1, 128, timestamp)
    } else {
        walk(SEVEN_FORWARD, 96, timestamp)
    };
    let backward = walk(SEVEN_BACKWARD, 0, !timestamp);
    xor(plain, &mask(forward, backward))
}

fn boot_with(flash: Flash, stage_known: bool) -> Rig {
    let channels = get_channels(b"1,3,7,8").unwrap();
    let resources = Resources::new(channels, keys_blob(5), emergency_record()).unwrap();
    let mut console = Console::new();
    let public = signer().verifying_key().to_bytes();
    let decoder = Decoder::boot(&mut console, flash, resources, &public, stage_known).unwrap();
    console.take_output();
    Rig { decoder, console, probes: 0, failing_probe: None, pauses: Vec::new() }
}

fn boot() -> Rig {
    boot_with(Flash::new(), true)
}

fn pump(rig: &mut Rig) -> Vec<u8> {
    let mut out = Vec::new();
    let mut event = Event::Tick;
    loop {
        let want = read_resp(&mut rig.decoder, &mut rig.console, event);
        out.extend(rig.console.take_output());
        event = match want {
            Want::Again => Event::Tick,
            Want::Input => return out,
            Want::Probe => {
                rig.probes += 1;
                if rig.failing_probe == Some(rig.probes) {
                    Event::Probe { value: 3, product: 10 }
                } else {
                    Event::Probe { value: 0x1_0001, product: 0x2_0001 }
                }
            }
            Want::Pause(ms) => {
                rig.pauses.push(ms);
                Event::Resumed
            }
        };
    }
}

fn collect(rig: &mut Rig, stream: &mut Vec<u8>, frames: &mut Vec<(u8, Vec<u8>)>) {
    loop {
        if stream.len() < 4 {
            let more = pump(rig);
            if more.is_empty() {
                assert!(stream.is_empty());
                return;
            }
            stream.extend(more);
            continue;
        }
        assert_eq!(stream[0], 0x25);
        let op = stream[1];
        let len = stream[2] as usize | (stream[3] as usize) << 8;
        stream.drain(..4);
        let mut payload = Vec::new();
        if op == b'G' {
            assert!(stream.len() >= len);
            payload.extend(stream.drain(..len));
        } else if op != b'A' {
            let blocks = (len + 255) / 256;
            for i in 0..blocks {
                assert!(stream.is_empty());
                rig.console.receive(&ACK);
                stream.extend(pump(rig));
                let size = core::cmp::min(256, len - 256 * i);
                assert!(stream.len() >= size);
                payload.extend(stream.drain(..size));
            }
            assert!(stream.is_empty());
            rig.console.receive(&ACK);
            stream.extend(pump(rig));
        }
        frames.push((op, payload));
    }
}

fn talk(rig: &mut Rig, bytes: &[u8]) -> Vec<(u8, Vec<u8>)> {
    rig.console.receive(bytes);
    let mut stream = Vec::new();
    let mut frames = Vec::new();
    collect(rig, &mut stream, &mut frames);
    frames
}

fn request(rig: &mut Rig, op: u8, payload: &[u8]) -> Vec<(u8, Vec<u8>)> {
    let len = payload.len();
    let mut frames = talk(rig, &[0x25, op, (len & 0xFF) as u8, (len >> 8) as u8]);
    for block in payload.chunks(256) {
        if !matches!(rig.decoder.phase, Phase::InstallChunk { .. } | Phase::DecodeChunk { .. }) {
            break;
        }
        frames.extend(talk(rig, block));
    }
    frames
}

fn without_notes(frames: Vec<(u8, Vec<u8>)>) -> Vec<(u8, Vec<u8>)> {
    frames.into_iter().filter(|(op, _)| *op != b'G').collect()
}

fn ack_frame() -> (u8, Vec<u8>) {
    (b'A', Vec::new())
}

fn listing(rows: &[(u32, u64, u64)]) -> Vec<u8> {
    let mut payload = Vec::new();
    payload.extend_from_slice(&(rows.len() as u32).to_le_bytes());
    for (channel, start, end) in rows {
        payload.extend_from_slice(&channel.to_le_bytes());
        payload.extend_from_slice(&start.to_le_bytes());
        payload.extend_from_slice(&end.to_le_bytes());
    }
    payload
}

fn plain() -> [u8; 64] {
    let mut bytes = [0u8; 64];
    for i in 0..64 {
        bytes[i] = (i * 3 + 1) as u8;
    }
    bytes
}

#[test]
fn emergency_frame_is_decoded() {
    let mut rig = boot();
    let pt = plain();
    let payload = decode_request(0, 1, &sign(0, &pt), &emergency_frame(&pt, 1));
    let frames = request(&mut rig, b'D', &payload);
    assert_eq!(frames, vec![ack_frame(), ack_frame(), (b'D', pt.to_vec())]);
    assert_eq!(rig.probes, 3);
    assert!(matches!(rig.decoder.phase, Phase::Header));
    assert_eq!(rig.decoder.subscriptions[0].unwrap().curr_frame, 2);
}

#[test]
fn emergency_frame_is_decoded_at_a_late_timestamp() {
    let mut rig = boot();
    let pt = plain();
    let timestamp = 0xFEDC_BA98_7654_3210;
    let payload = decode_request(0, timestamp, &sign(0, &pt), &emergency_frame(&pt, timestamp));
    let frames = request(&mut rig, b'D', &payload);
    assert_eq!(frames, vec![ack_frame(), ack_frame(), (b'D', pt.to_vec())]);
}

#[test]
fn listing_before_install_is_empty_and_stable() {
    let mut rig = boot();
    let first = request(&mut rig, b'L', &[]);
    assert_eq!(first, vec![ack_frame(), (b'L', vec![0, 0, 0, 0])]);
    let second = request(&mut rig, b'L', &[]);
    assert_eq!(second, first);
    assert!(rig.decoder.subscriptions[0].is_some());
}

#[test]
fn installed_subscription_is_listed() {
    let mut rig = boot();
    let frames = without_notes(request(&mut rig, b'S', &seven_record(100, 200)));
    let mut expected = vec![ack_frame(); 14];
    expected.push((b'S', Vec::new()));
    assert_eq!(frames, expected);
    let sub = rig.decoder.subscriptions[3].unwrap();
    assert_eq!((sub.channel, sub.start, sub.end, sub.curr_frame), (7, 100, 200, 0));
    assert_eq!(sub.forward_pos[0], 96);
    assert_eq!(sub.forward_pos[1], 128);
    assert_eq!(sub.forward_pos[2], 0);
    assert_eq!(sub.backward_pos, [0u64; 64]);
    assert_eq!(sub.location, 0x1003_6000 + 2 * 8192);
    let frames = request(&mut rig, b'L', &[]);
    assert_eq!(frames, vec![ack_frame(), (b'L', listing(&[(7, 100, 200)]))]);
}

#[test]
fn install_names_its_slot_in_a_diagnostic() {
    let mut rig = boot();
    let frames = request(&mut rig, b'S', &seven_record(100, 200));
    assert_eq!(frames[0], ack_frame());
    assert_eq!(frames[1], (b'G', b"Channel: 3".to_vec()));
    assert_eq!(frames[2], ack_frame());
}

#[test]
fn install_writes_the_record_to_the_page_of_its_slot() {
    let mut rig = boot();
    let record = seven_record(100, 200);
    request(&mut rig, b'S', &record);
    let image = rig.decoder.flash.image();
    assert_eq!(&image[2 * 8192..2 * 8192 + 3328], &record[..]);
    assert!(image[2 * 8192 + 3328..3 * 8192].iter().all(|b| *b == 0xFF));
    assert!(image[..2 * 8192].iter().all(|b| *b == 0xFF));
}

#[test]
fn listing_shows_slots_in_order() {
    let mut rig = boot();
    request(&mut rig, b'S', &record(8, 4, 5, 6, &[(0, 1)], &[(0, 2)]));
    request(&mut rig, b'S', &record(1, 1, 7, 9, &[(0, 1)], &[(0, 2)]));
    let frames = request(&mut rig, b'L', &[]);
    assert_eq!(frames, vec![ack_frame(), (b'L', listing(&[(1, 7, 9), (8, 5, 6)]))]);
}

#[test]
fn installed_channel_is_decoded() {
    let mut rig = boot();
    request(&mut rig, b'S', &seven_record(100, 200));
    let pt = plain();
    for timestamp in [100u64, 127, 128, 150, 199] {
        let payload = decode_request(7, timestamp, &sign(7, &pt), &seven_frame(&pt, timestamp));
        let frames = request(&mut rig, b'D', &payload);
        assert_eq!(frames, vec![ack_frame(), ack_frame(), (b'D', pt.to_vec())]);
    }
    assert_eq!(rig.decoder.subscriptions[3].unwrap().curr_frame, 200);
}

#[test]
fn repeated_request_is_refused_as_a_replay() {
    let mut rig = boot();
    request(&mut rig, b'S', &seven_record(100, 200));
    let pt = plain();
    let payload = decode_request(7, 150, &sign(7, &pt), &seven_frame(&pt, 150));
    let frames = request(&mut rig, b'D', &payload);
    assert_eq!(frames, vec![ack_frame(), ack_frame(), (b'D', pt.to_vec())]);
    let frames = without_notes(request(&mut rig, b'D', &payload));
    assert_eq!(frames, vec![ack_frame(), ack_frame(), (b'D', b"fail".to_vec())]);
    let earlier = decode_request(7, 120, &sign(7, &pt), &seven_frame(&pt, 120));
    let frames = without_notes(request(&mut rig, b'D', &earlier));
    assert_eq!(frames, vec![ack_frame(), ack_frame(), (b'D', b"fail".to_vec())]);
    assert_eq!(rig.decoder.subscriptions[3].unwrap().curr_frame, 151);
    let later = decode_request(7, 151, &sign(7, &pt), &seven_frame(&pt, 151));
    let frames = request(&mut rig, b'D', &later);
    assert_eq!(frames, vec![ack_frame(), ack_frame(), (b'D', pt.to_vec())]);
}

#[test]
fn request_outside_the_window_is_refused() {
    let mut rig = boot();
    request(&mut rig, b'S', &seven_record(100, 200));
    let pt = plain();
    let early = decode_request(7, 99, &sign(7, &pt), &seven_frame(&pt, 99));
    let frames = request(&mut rig, b'D', &early);
    assert_eq!(frames, vec![ack_frame(), ack_frame(), (b'D', b"fail".to_vec())]);
    let late = decode_request(7, 200, &sign(7, &pt), &seven_frame(&pt, 200));
    let frames = request(&mut rig, b'D', &late);
    assert_eq!(frames, vec![ack_frame(), ack_frame(), (b'E', b"Timestamp is too late".to_vec())]);
    assert_eq!(rig.decoder.subscriptions[3].unwrap().curr_frame, 0);
}

#[test]
fn bad_magic_yields_a_diagnostic_and_changes_nothing() {
    let mut rig = boot();
    let image = rig.decoder.flash.image().clone();
    let frames = talk(&mut rig, b"?L\x00\x00");
    assert_eq!(
        frames,
        vec![(b'G', b"that was not magic".to_vec()), (b'G', b"?L\x00\x00".to_vec())]
    );
    assert!(matches!(rig.decoder.phase, Phase::Header));
    assert_eq!(rig.decoder.flash.image(), &image);
    assert_eq!(rig.decoder.subscriptions[0].unwrap().curr_frame, 0);
    assert!(rig.decoder.subscriptions[1..].iter().all(|slot| slot.is_none()));
    assert_eq!(rig.probes, 0);
}

#[test]
fn unknown_opcode_yields_a_diagnostic() {
    let mut rig = boot();
    let frames = talk(&mut rig, b"%G\x01\x00");
    assert_eq!(
        frames,
        vec![(b'G', b"that was not an opcode".to_vec()), (b'G', b"%G\x01\x00".to_vec())]
    );
}

#[test]
fn error_opcode_is_not_a_request() {
    let mut rig = boot();
    let frames = talk(&mut rig, b"%E\x00\x00");
    assert_eq!(frames, vec![(b'E', b"Unknown opcode: 69".to_vec())]);
}

#[test]
fn stray_acknowledgement_is_passed_over() {
    let mut rig = boot();
    let frames = talk(&mut rig, &ACK);
    assert_eq!(frames, Vec::new());
    assert!(matches!(rig.decoder.phase, Phase::Header));
}

#[test]
fn second_install_on_a_channel_replaces_the_first() {
    let mut rig = boot();
    let frames = without_notes(request(&mut rig, b'S', &seven_record(100, 200)));
    assert_eq!(frames.last(), Some(&(b'S', Vec::new())));
    let frames = without_notes(request(&mut rig, b'S', &seven_record(300, 400)));
    let mut expected = vec![ack_frame(); 14];
    expected.push((b'S', Vec::new()));
    assert_eq!(frames, expected);
    let frames = request(&mut rig, b'L', &[]);
    assert_eq!(frames, vec![ack_frame(), (b'L', listing(&[(7, 300, 400)]))]);
    let image = rig.decoder.flash.image();
    assert_eq!(&image[2 * 8192..2 * 8192 + 3328], &seven_record(300, 400)[..]);
}

#[test]
fn install_keeps_the_frame_counter_of_its_channel() {
    let mut rig = boot();
    request(&mut rig, b'S', &seven_record(100, 200));
    let pt = plain();
    let payload = decode_request(7, 150, &sign(7, &pt), &seven_frame(&pt, 150));
    request(&mut rig, b'D', &payload);
    assert_eq!(rig.decoder.subscriptions[3].unwrap().curr_frame, 151);
    request(&mut rig, b'S', &seven_record(100, 300));
    let sub = rig.decoder.subscriptions[3].unwrap();
    assert_eq!((sub.channel, sub.start, sub.end, sub.curr_frame), (7, 100, 300, 151));
    let frames = without_notes(request(&mut rig, b'D', &payload));
    assert_eq!(frames, vec![ack_frame(), ack_frame(), (b'D', b"fail".to_vec())]);
    let later = decode_request(7, 151, &sign(7, &pt), &seven_frame(&pt, 151));
    let frames = request(&mut rig, b'D', &later);
    assert_eq!(frames, vec![ack_frame(), ack_frame(), (b'D', pt.to_vec())]);
    assert_eq!(rig.decoder.subscriptions[3].unwrap().curr_frame, 152);
}

#[test]
fn frame_counter_is_handed_on_within_a_channel_only() {
    let mut held = Subscription::new();
    held.channel = 7;
    held.curr_frame = 151;
    let mut loaded = Subscription::new();
    loaded.channel = 7;
    loaded.start = 5;
    let kept = carry_counter(Some(held), Some(loaded)).unwrap();
    assert_eq!((kept.channel, kept.start, kept.curr_frame), (7, 5, 151));
    loaded.channel = 8;
    let kept = carry_counter(Some(held), Some(loaded)).unwrap();
    assert_eq!((kept.channel, kept.curr_frame), (8, 0));
    let kept = carry_counter(None, Some(loaded)).unwrap();
    assert_eq!((kept.channel, kept.curr_frame), (8, 0));
    assert!(carry_counter(Some(held), None).is_none());
    assert!(carry_counter(None, None).is_none());
}

#[test]
fn failed_reload_empties_the_slot() {
    let mut rig = boot();
    request(&mut rig, b'S', &seven_record(100, 200));
    assert!(rig.decoder.subscriptions[3].is_some());
    let mut blank = seven_record(100, 200);
    blank[20] = 0xFF;
    request(&mut rig, b'S', &blank);
    assert!(rig.decoder.subscriptions[3].is_none());
    let frames = request(&mut rig, b'L', &[]);
    assert_eq!(frames, vec![ack_frame(), (b'L', vec![0, 0, 0, 0])]);
}

#[test]
fn emergency_channel_cannot_be_installed() {
    let mut rig = boot();
    let before = rig.decoder.subscriptions[0].unwrap();
    let image = rig.decoder.flash.image().clone();
    let frames = request(&mut rig, b'S', &record(0, 0, 1, 2, &[(0, 1)], &[(0, 2)]));
    assert_eq!(
        frames,
        vec![
            ack_frame(),
            (b'E', b"Cannot be given emergency subscription".to_vec())
        ]
    );
    let after = rig.decoder.subscriptions[0].unwrap();
    assert_eq!((after.start, after.end, after.channel), (before.start, before.end, 0));
    assert_eq!(rig.decoder.flash.image(), &image);
    assert!(matches!(rig.decoder.phase, Phase::Header));
}

#[test]
fn empty_install_is_refused() {
    let mut rig = boot();
    let frames = request(&mut rig, b'S', &[]);
    assert_eq!(
        frames,
        vec![
            ack_frame(),
            (b'E', b"Cannot be given emergency subscription".to_vec())
        ]
    );
}

#[test]
fn unknown_channel_cannot_be_installed() {
    let mut rig = boot();
    let frames = request(&mut rig, b'S', &record(9, 1, 1, 2, &[(0, 1)], &[(0, 2)]));
    assert_eq!(frames, vec![ack_frame(), (b'E', b"Channel does not exist".to_vec())]);
    assert!(rig.decoder.subscriptions[1..].iter().all(|slot| slot.is_none()));
}

#[test]
fn blank_record_is_not_loaded() {
    let mut rig = boot();
    let mut blank = seven_record(100, 200);
    blank[20] = 0;
    let frames = request(&mut rig, b'S', &blank);
    let tail: Vec<(u8, Vec<u8>)> = frames[frames.len() - 3..].to_vec();
    assert_eq!(
        tail,
        vec![
            (b'G', b"SubscriptionError".to_vec()),
            (b'E', b"Failed to load subscription".to_vec()),
            (b'S', Vec::new()),
        ]
    );
    assert!(rig.decoder.subscriptions[3].is_none());
}

#[test]
fn short_last_block_is_padded_with_zeros() {
    let mut rig = boot();
    let record = seven_record(100, 200);
    let frames = without_notes(request(&mut rig, b'S', &record[..1300]));
    assert_eq!(frames.last(), Some(&(b'S', Vec::new())));
    let image = rig.decoder.flash.image();
    assert_eq!(&image[2 * 8192..2 * 8192 + 1300], &record[..1300]);
    assert_eq!(&image[2 * 8192 + 1300..2 * 8192 + 1536], &[0u8; 236][..]);
    assert_eq!(image[2 * 8192 + 1536], 0xFF);
    assert!(rig.decoder.subscriptions[3].is_some());
}

#[test]
fn request_without_subscription_is_an_error() {
    let mut rig = boot();
    let pt = plain();
    let payload = decode_request(7, 150, &sign(7, &pt), &seven_frame(&pt, 150));
    let frames = request(&mut rig, b'D', &payload);
    assert_eq!(
        frames,
        vec![
            ack_frame(),
            ack_frame(),
            (b'G', vec![0, 0, 0, 7]),
            (b'G', b"7".to_vec()),
            (b'E', b"No subscription for this channel!".to_vec()),
        ]
    );
}

#[test]
fn unknown_channel_is_named_in_decimal() {
    let mut rig = boot();
    let pt = plain();
    let payload = decode_request(4_294_967_295, 1, &sign(0, &pt), &pt);
    let frames = request(&mut rig, b'D', &payload);
    assert_eq!(frames[2], (b'G', vec![0xFF, 0xFF, 0xFF, 0xFF]));
    assert_eq!(frames[3], (b'G', b"4294967295".to_vec()));
    let payload = decode_request(1_000_200, 1, &sign(0, &pt), &pt);
    let frames = request(&mut rig, b'D', &payload);
    assert_eq!(frames[3], (b'G', b"1000200".to_vec()));
}

#[test]
fn short_decode_request_is_an_error() {
    let mut rig = boot();
    let frames = request(&mut rig, b'D', &[0u8; 139]);
    assert_eq!(
        frames,
        vec![ack_frame(), ack_frame(), (b'E', b"Decode request is too short".to_vec())]
    );
    let frames = request(&mut rig, b'D', &[]);
    assert_eq!(frames, vec![ack_frame(), (b'E', b"Decode request is too short".to_vec())]);
}

#[test]
fn long_decode_request_is_read_to_its_end() {
    let mut rig = boot();
    let pt = plain();
    let mut payload = decode_request(0, 9, &sign(0, &pt), &emergency_frame(&pt, 9));
    payload.extend_from_slice(&[0x77; 400]);
    let frames = request(&mut rig, b'D', &payload);
    assert_eq!(
        frames,
        vec![ack_frame(), ack_frame(), ack_frame(), ack_frame(), (b'D', pt.to_vec())]
    );
}

#[test]
fn forged_signature_yields_no_frame() {
    let mut rig = boot();
    let pt = plain();
    let mut signature = sign(0, &pt);
    signature[10] ^= 1;
    let payload = decode_request(0, 1, &signature, &emergency_frame(&pt, 1));
    let frames = request(&mut rig, b'D', &payload);
    assert_eq!(
        frames,
        vec![
            ack_frame(),
            ack_frame(),
            (b'E', b"Key verification failed - frame spoofing may be happening!".to_vec()),
        ]
    );
}

#[test]
fn signature_binds_the_frame_to_its_channel() {
    let mut rig = boot();
    request(&mut rig, b'S', &seven_record(100, 200));
    let pt = plain();
    let payload = decode_request(7, 150, &sign(0, &pt), &seven_frame(&pt, 150));
    let frames = request(&mut rig, b'D', &payload);
    assert_eq!(frames.len(), 3);
    assert_eq!(frames[2].0, b'E');
}

#[test]
fn frame_for_another_timestamp_does_not_verify() {
    let mut rig = boot();
    let pt = plain();
    let payload = decode_request(0, 2, &sign(0, &pt), &emergency_frame(&pt, 1));
    let frames = request(&mut rig, b'D', &payload);
    assert_eq!(frames.len(), 3);
    assert_eq!(frames[2].0, b'E');
}

#[test]
fn failed_probe_on_list_yields_an_empty_listing() {
    let mut rig = boot();
    request(&mut rig, b'S', &seven_record(100, 200));
    rig.failing_probe = Some(rig.probes + 1);
    let frames = request(&mut rig, b'L', &[]);
    assert_eq!(
        frames,
        vec![
            ack_frame(),
            (b'E', b"Integrity check failed".to_vec()),
            (b'L', vec![0, 0, 0, 0]),
        ]
    );
    assert_eq!(rig.pauses, vec![4500]);
}

#[test]
fn failed_probe_on_install_aborts_it() {
    let mut rig = boot();
    rig.failing_probe = Some(1);
    let frames = request(&mut rig, b'S', &seven_record(100, 200));
    assert_eq!(
        frames,
        vec![
            ack_frame(),
            (b'E', b"Integrity check failed".to_vec()),
            (b'S', Vec::new()),
        ]
    );
    assert!(rig.decoder.subscriptions[3].is_none());
    assert!(rig.decoder.flash.image().iter().all(|b| *b == 0xFF));
}

#[test]
fn failed_probe_between_blocks_aborts_the_install() {
    let mut rig = boot();
    rig.failing_probe = Some(4);
    let frames = without_notes(request(&mut rig, b'S', &seven_record(100, 200)));
    assert_eq!(
        frames,
        vec![
            ack_frame(),
            ack_frame(),
            ack_frame(),
            (b'E', b"Integrity check failed".to_vec()),
            (b'S', Vec::new()),
        ]
    );
    assert!(rig.decoder.subscriptions[3].is_none());
}

#[test]
fn failed_probe_before_a_decode_yields_an_empty_reply() {
    let mut rig = boot();
    rig.failing_probe = Some(1);
    let pt = plain();
    let payload = decode_request(0, 1, &sign(0, &pt), &emergency_frame(&pt, 1));
    let frames = request(&mut rig, b'D', &payload);
    assert_eq!(
        frames,
        vec![
            ack_frame(),
            ack_frame(),
            (b'E', b"Integrity check failed".to_vec()),
            (b'D', Vec::new()),
        ]
    );
    assert_eq!(rig.decoder.subscriptions[0].unwrap().curr_frame, 0);
}

#[test]
fn failed_probe_inside_a_decode_yields_zeros() {
    for failing in [2usize, 3] {
        let mut rig = boot();
        rig.failing_probe = Some(failing);
        let pt = plain();
        let payload = decode_request(0, 1, &sign(0, &pt), &emergency_frame(&pt, 1));
        let frames = request(&mut rig, b'D', &payload);
        assert_eq!(
            frames,
            vec![
                ack_frame(),
                ack_frame(),
                (b'E', b"Integrity check failed".to_vec()),
                (b'D', Vec::new()),
                (b'D', vec![0u8; 64]),
            ]
        );
        assert_eq!(rig.pauses, vec![4500]);
        assert_eq!(rig.decoder.subscriptions[0].unwrap().curr_frame, 2);
    }
}

#[test]
fn decoder_asks_for_what_it_needs() {
    let mut rig = boot();
    assert_eq!(read_resp(&mut rig.decoder, &mut rig.console, Event::Tick), Want::Input);
    rig.console.receive(b"%L\x00");
    assert_eq!(read_resp(&mut rig.decoder, &mut rig.console, Event::Tick), Want::Input);
    rig.console.receive(b"\x00");
    assert_eq!(read_resp(&mut rig.decoder, &mut rig.console, Event::Tick), Want::Again);
    assert_eq!(rig.console.take_output(), ACK.to_vec());
    assert_eq!(read_resp(&mut rig.decoder, &mut rig.console, Event::Tick), Want::Probe);
    assert_eq!(read_resp(&mut rig.decoder, &mut rig.console, Event::Resumed), Want::Probe);
    let failed = Event::Probe { value: 2, product: 5 };
    assert_eq!(read_resp(&mut rig.decoder, &mut rig.console, failed), Want::Again);
    assert_eq!(rig.console.take_output(), b"%E\x16\x00".to_vec());
    assert_eq!(read_resp(&mut rig.decoder, &mut rig.console, Event::Tick), Want::Input);
    rig.console.receive(&ACK);
    assert_eq!(read_resp(&mut rig.decoder, &mut rig.console, Event::Tick), Want::Again);
    assert_eq!(rig.console.take_output(), b"Integrity check failed".to_vec());
    rig.console.receive(&ACK);
    assert_eq!(read_resp(&mut rig.decoder, &mut rig.console, Event::Tick), Want::Again);
    assert_eq!(read_resp(&mut rig.decoder, &mut rig.console, Event::Tick), Want::Pause(4500));
    let sound = Event::Probe { value: 2, product: 4 };
    assert_eq!(read_resp(&mut rig.decoder, &mut rig.console, sound), Want::Pause(4500));
    assert_eq!(read_resp(&mut rig.decoder, &mut rig.console, Event::Resumed), Want::Again);
    assert_eq!(rig.console.take_output(), b"%L\x04\x00".to_vec());
}

#[test]
fn subscriptions_are_loaded_from_flash_at_boot() {
    let mut image = vec![0xFFu8; SUB_REGION];
    let record = seven_record(100, 200);
    image[2 * 8192..2 * 8192 + 3328].copy_from_slice(&record);
    let mut rig = boot_with(Flash::from_image(image).unwrap(), true);
    let sub = rig.decoder.subscriptions[3].unwrap();
    assert_eq!((sub.channel, sub.start, sub.end), (7, 100, 200));
    let pt = plain();
    let payload = decode_request(7, 130, &sign(7, &pt), &seven_frame(&pt, 130));
    let frames = request(&mut rig, b'D', &payload);
    assert_eq!(frames, vec![ack_frame(), ack_frame(), (b'D', pt.to_vec())]);
}

#[test]
fn boot_reports_each_empty_page() {
    let channels = get_channels(b"1,3,7,8").unwrap();
    let resources = Resources::new(channels, keys_blob(5), emergency_record()).unwrap();
    let mut console = Console::new();
    let public = signer().verifying_key().to_bytes();
    let decoder = Decoder::boot(&mut console, Flash::new(), resources, &public, true);
    assert!(decoder.is_some());
    assert_eq!(console.take_output(), b"%G\x11\x00SubscriptionError".repeat(8));
}

#[test]
fn unknown_boot_stage_leaves_the_decoder_empty() {
    let mut image = vec![0xFFu8; SUB_REGION];
    image[..3328].copy_from_slice(&record(1, 1, 0, 50, &[(0, 1)], &[(0, 2)]));
    let mut rig = boot_with(Flash::from_image(image).unwrap(), false);
    assert!(rig.decoder.subscriptions.iter().all(|slot| slot.is_none()));
    assert_eq!(rig.decoder.verifier, [0u8; 32]);
    let pt = plain();
    let payload = decode_request(0, 1, &sign(0, &pt), &emergency_frame(&pt, 1));
    let frames = without_notes(request(&mut rig, b'D', &payload));
    assert_eq!(
        frames,
        vec![
            ack_frame(),
            ack_frame(),
            (b'E', b"No subscription for this channel!".to_vec())
        ]
    );
}

#[test]
fn unknown_boot_stage_is_said_in_a_diagnostic() {
    let channels = get_channels(b"1,3,7,8").unwrap();
    let resources = Resources::new(channels, keys_blob(5), emergency_record()).unwrap();
    let mut console = Console::new();
    let decoder = Decoder::boot(&mut console, Flash::new(), resources, &[0xFFu8; 32], false);
    assert!(decoder.is_some());
    assert_eq!(console.take_output(), b"%G\x1d\x00Boot stage is not a known one".to_vec());
}

#[test]
fn replay_is_named_in_a_diagnostic() {
    let mut rig = boot();
    let pt = plain();
    let payload = decode_request(0, 5, &sign(0, &pt), &emergency_frame(&pt, 5));
    request(&mut rig, b'D', &payload);
    let frames = request(&mut rig, b'D', &payload);
    let note = b"Timestamp is out of order";
    assert_eq!(
        frames,
        vec![ack_frame(), ack_frame(), (b'G', note.to_vec()), (b'D', b"fail".to_vec())]
    );
}

#[test]
fn boot_refuses_a_key_that_is_no_curve_point() {
    let channels = get_channels(b"1").unwrap();
    let resources = Resources::new(channels, keys_blob(2), emergency_record()).unwrap();
    let mut console = Console::new();
    let mut public = [0xFFu8; 32];
    public[0] = 0xEE;
    public[31] = 0x7F;
    let mut found_bad = false;
    for first in 0..=255u8 {
        public[0] = first;
        if ed25519_dalek::VerifyingKey::from_bytes(&public).is_err() {
            found_bad = true;
            break;
        }
    }
    assert!(found_bad);
    assert!(Decoder::boot(&mut console, Flash::new(), resources, &public, true).is_none());
}

#[test]
fn emergency_record_for_another_channel_is_refused() {
    let channels = get_channels(b"1").unwrap();
    let wrong = record(1, 1, 0, 50, &[(0, 1)], &[(0, 2)]);
    let resources = Resources::new(channels, keys_blob(2), wrong).unwrap();
    let mut console = Console::new();
    let public = signer().verifying_key().to_bytes();
    let decoder = Decoder::boot(&mut console, Flash::new(), resources, &public, true).unwrap();
    assert!(decoder.subscriptions[0].is_none());
    let out = console.take_output();
    assert!(out.ends_with(b"%G\x03\x00why"));
}
