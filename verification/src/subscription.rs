//! Subscription records: their layout in a flash page, the table rows
//! that a listing reports, and the key ladder that opens a frame.

use vstd::prelude::*;
use vstd::string::StringSliceAdditionalSpecFns;
use crate::bytes::{be_u128, be_u32, be_u64, push_all, push_be_u128, take_64};
use crate::bytes::{spec_be_bytes_u128, spec_be_u128, spec_be_u32, spec_be_u64};
use crate::crypto::{blake3_hash, blake3_xof64, expand_bytes, hash_bytes, lemma_xor_twice};
use crate::crypto::{spec_xor, xor_512};
use crate::flash::spec_word_address;
use crate::resources::{decrypt_intermediate, spec_decrypt_intermediate, Resources};
use crate::console::{spec_emit, spec_frame, spec_write_comm, write_console, write_err, Console};
use crate::console::{OP_DEBUG, OP_ERROR};
use crate::flash::{read_bytes, Flash, FlashError, SUB_LOC, SUB_SPACE};

verus! {

/// Anchors, and seeds, in each direction of a record.
pub const INTERMEDIATE_NUM: usize = 64;

/// Offset of the first seed in a record.
pub const INTERMEDIATE_LOC: u32 = 1280;

/// Bytes in a seed.
pub const INTERMEDIATE_SIZE: usize = 16;

/// Bytes in an anchor.
pub const INTERMEDIATE_POS_SIZE: usize = 8;

/// Bytes of a record before its seeds: channel, window, two reserved
/// bytes and the two anchor arrays.
pub const REQUIRED_MEMORY: u32 = 1046;

/// Offset of the forward anchors in a record.
pub const FORWARD_ANCHORS: usize = 22;

/// Offset of the backward anchors in a record.
pub const BACKWARD_ANCHORS: usize = 534;

/// Offset of the byte that tells a written record from an empty page.
pub const INIT_BYTE: usize = 20;

/// Direction tag of the forward key stream.
pub const FORWARD: u64 = 0x1f8c25d4b902e785;

/// Direction tag of the backward key stream.
pub const BACKWARD: u64 = 0xf329d3e6bb90fcc5;

/// One row of a listing.
#[derive(Clone, Copy, Debug, PartialEq, Eq, Structural)]
pub struct SubStat {
    pub channel: u32,
    pub start: u64,
    pub end: u64,
}

/// A subscription as the decoder keeps it in memory.
#[derive(Clone, Copy, Debug)]
pub struct Subscription {
    /// Anchor timestamps of the forward seeds, ascending, zero behind the
    /// last one.
    pub forward_pos: [u64; 64],
    /// Anchor timestamps of the backward seeds.
    pub backward_pos: [u64; 64],
    /// First timestamp that may be decoded.
    pub start: u64,
    /// First timestamp that may no longer be decoded.
    pub end: u64,
    /// The channel of the subscription.
    pub channel: u32,
    /// Flash address of the record, and 0 for the emergency record.
    pub location: usize,
    /// One more than the highest timestamp decoded so far.
    pub curr_frame: u64,
}

/// The `j`-th anchor as an anchor array spells it.
pub open spec fn spec_anchor(field: Seq<u8>, j: int) -> u64 {
    spec_be_u64(field.subrange(8 * j, 8 * j + 8)) as u64
}

/// Whether the array ends at or before place `j`: a zero stands at a
/// place from 1 to `j`.
pub open spec fn spec_cut(field: Seq<u8>, j: int) -> bool
    decreases j,
{
    j >= 1 && (spec_anchor(field, j) == 0 || spec_cut(field, j - 1))
}

/// The anchors that a 512-byte array yields: each one as spelled, up to
/// the first zero behind place 0, and zero from there on.
pub open spec fn spec_anchors(field: Seq<u8>) -> Seq<u64> {
    Seq::new(
        64,
        |j: int|
            if spec_cut(field, j) {
                0u64
            } else {
                spec_anchor(field, j)
            },
    )
}

/// Whether `sub` is what the record bytes spell, freshly loaded from
/// `location`.
pub open spec fn spec_is_record(sub: Subscription, record: Seq<u8>, location: usize) -> bool {
    &&& sub.channel == spec_be_u32(record.subrange(0, 4))
    &&& sub.start == spec_be_u64(record.subrange(4, 12))
    &&& sub.end == spec_be_u64(record.subrange(12, 20))
    &&& sub.forward_pos@ == spec_anchors(record.subrange(22, 534))
    &&& sub.backward_pos@ == spec_anchors(record.subrange(534, 1046))
    &&& sub.location == location
    &&& sub.curr_frame == 0
}

/// The row that a listing shows for `sub`.
pub open spec fn spec_stat(sub: Subscription) -> SubStat {
    SubStat { channel: sub.channel, start: sub.start, end: sub.end }
}

/// The rows for the slots from 1 up to, not including, `upto`: one for
/// each slot that holds a subscription, in the order of the slots.
pub open spec fn spec_listing(table: Seq<Option<Subscription>>, upto: int) -> Seq<SubStat>
    decreases upto,
{
    if upto <= 1 {
        Seq::empty()
    } else {
        let before = spec_listing(table, upto - 1);
        match table[upto - 1] {
            Some(sub) => before.push(spec_stat(sub)),
            None => before,
        }
    }
}

/// What is reported when a slot's address is refused.
pub open spec fn spec_address_report(err: FlashError) -> Seq<u8> {
    match err {
        FlashError::InvalidAddress => "InvalidAddress\n".spec_bytes(),
        FlashError::AccessViolation => "InvalidOperation\n".spec_bytes(),
        FlashError::NeedsErase => "NeedsErase\n".spec_bytes(),
        FlashError::LowSpace => "LowSpace\n".spec_bytes(),
        FlashError::ReadFailed => "ReadFailed\n".spec_bytes(),
    }
}

/// The diagnostic for a page that holds no record.
pub open spec fn spec_empty_slot_note() -> Seq<u8> {
    "SubscriptionError".spec_bytes()
}

/// The diagnostic for an emergency record that is not for channel 0.
pub open spec fn spec_bad_emergency_note() -> Seq<u8> {
    "why".spec_bytes()
}

/// Reads the anchors of one direction from a record.
fn parse_anchors(record: &[u8], at: usize) -> (anchors: [u64; 64])
    requires
        at + 512 <= record.len(),
    ensures
        anchors@ == spec_anchors(record@.subrange(at as int, at + 512)),
{
    let ghost field = record@.subrange(at as int, at + 512);
    let mut anchors = [0u64; 64];
    let mut j: usize = 0;
    let mut stopped = false;
    while j < 64 && !stopped
        invariant
            j <= 64,
            at + 512 <= record.len(),
            field == record@.subrange(at as int, at + 512),
            stopped ==> 1 <= j < 64 && spec_cut(field, j as int),
            forall|k: int| 0 <= k < j ==> !spec_cut(field, k),
            forall|k: int| 0 <= k < j ==> anchors@[k] == spec_anchor(field, k),
            forall|k: int| j <= k < 64 ==> anchors@[k] == 0,
        decreases 64 - j + if stopped { 0int } else { 1int },
    {
        let val = be_u64(record, at + INTERMEDIATE_POS_SIZE * j);
        assert(field.subrange(8 * j, 8 * j + 8) == record@.subrange(at + 8 * j, at + 8 * j + 8));
        assert(val == spec_anchor(field, j as int));
        if val == 0 && j > 0 {
            stopped = true;
        } else {
            assert(!spec_cut(field, j as int)) by {
                if j >= 1 {
                    assert(!spec_cut(field, j - 1));
                }
            }
            anchors[j] = val;
            j += 1;
        }
    }
    proof {
        if stopped {
            lemma_cut_stays(field, j as int, 63);
        }
        assert(anchors@ =~= spec_anchors(field)) by {
            assert forall|k: int| 0 <= k < 64 implies anchors@[k] == spec_anchors(field)[k] by {
                if stopped && k >= j {
                    lemma_cut_stays(field, j as int, k);
                }
            }
        }
    }
    anchors
}

/// Once an anchor array has ended, it has ended at every later place.
pub proof fn lemma_cut_stays(field: Seq<u8>, at: int, later: int)
    requires
        1 <= at <= later,
        spec_cut(field, at),
    ensures
        spec_cut(field, later),
    decreases later - at,
{
    if at < later {
        lemma_cut_stays(field, at, later - 1);
    }
}

/// Reads the fields of a record.
pub fn parse_record(record: &[u8], location: usize) -> (sub: Subscription)
    requires
        record.len() >= REQUIRED_MEMORY,
    ensures
        spec_is_record(sub, record@.subrange(0, REQUIRED_MEMORY as int), location),
{
    let ghost head = record@.subrange(0, REQUIRED_MEMORY as int);
    let channel = be_u32(record, 0);
    let start = be_u64(record, 4);
    let end = be_u64(record, 12);
    let forward_pos = parse_anchors(record, FORWARD_ANCHORS);
    let backward_pos = parse_anchors(record, BACKWARD_ANCHORS);
    proof {
        assert(head.subrange(0, 4) == record@.subrange(0, 4));
        assert(head.subrange(4, 12) == record@.subrange(4, 12));
        assert(head.subrange(12, 20) == record@.subrange(12, 20));
        assert(head.subrange(22, 534) == record@.subrange(22, 534));
        assert(head.subrange(534, 1046) == record@.subrange(534, 1046));
    }
    Subscription { forward_pos, backward_pos, start, end, channel, location, curr_frame: 0 }
}

/// The bytes of the record in slot `channel_pos` of the region.
pub open spec fn spec_slot_record(mem: Seq<u8>, channel_pos: int) -> Seq<u8> {
    mem.subrange(channel_pos * SUB_SPACE, channel_pos * SUB_SPACE + REQUIRED_MEMORY)
}

/// Whether a record's marker byte shows an empty page.
pub open spec fn spec_blank(record: Seq<u8>) -> bool {
    record[INIT_BYTE as int] == 0 || record[INIT_BYTE as int] == 0xFF
}

/// What loading slot `channel_pos` yields: the record, unless the slot
/// lies outside the region or its page is empty.
pub open spec fn spec_loaded(mem: Seq<u8>, channel_pos: int, sub: Option<Subscription>) -> bool {
    if channel_pos >= 8 || spec_blank(spec_slot_record(mem, channel_pos)) {
        sub is None
    } else {
        sub matches Some(s) && spec_is_record(
            s,
            spec_slot_record(mem, channel_pos),
            (SUB_LOC + channel_pos * SUB_SPACE) as usize,
        )
    }
}

/// Loads the subscription of slot `channel_pos`, with `channel_pos` from
/// 0 to 7, from its flash page. A slot outside the region is reported as
/// an error, an empty page as a diagnostic, and both yield nothing.
pub fn load_subscription(console: &mut Console, flc: &Flash, channel_pos: usize) -> (sub: Option<
    Subscription,
>)
    requires
        old(console).wf(),
        flc.wf(),
    ensures
        final(console).wf(),
        spec_loaded(flc@, channel_pos as int, sub),
        final(console)@ == if channel_pos >= 8 {
            spec_write_comm(
                old(console)@,
                spec_address_report(FlashError::InvalidAddress),
                OP_ERROR,
            )
        } else if sub is None {
            spec_emit(old(console)@, spec_frame(OP_DEBUG, spec_empty_slot_note()))
        } else {
            old(console)@
        },
{
    if channel_pos >= 8 {
        write_err(console, "InvalidAddress\n".as_bytes());
        return None;
    }
    let address: u32 = SUB_LOC + (channel_pos as u32) * SUB_SPACE;
    match flc.check_address(address) {
        Err(e) => {
            let report = match e {
                FlashError::InvalidAddress => "InvalidAddress\n",
                FlashError::AccessViolation => "InvalidOperation\n",
                FlashError::NeedsErase => "NeedsErase\n",
                FlashError::LowSpace => "LowSpace\n",
                FlashError::ReadFailed => "ReadFailed\n",
            };
            write_err(console, report.as_bytes());
            return None;
        },
        Ok(()) => {},
    }
    let mut cache: Vec<u8> = Vec::new();
    let mut i: usize = 0;
    while i < 2048
        invariant
            i <= 2048,
            cache.len() == i,
        decreases 2048 - i,
    {
        cache.push(0);
        i += 1;
    }
    let _ = read_bytes(flc, address, &mut cache, 1056);
    assert(cache@.subrange(0, REQUIRED_MEMORY as int) == spec_slot_record(
        flc@,
        channel_pos as int,
    ));
    let init = cache[INIT_BYTE];
    if init == 0 || init == 0xFF {
        write_console(console, "SubscriptionError".as_bytes());
        return None;
    }
    Some(parse_record(cache.as_slice(), address as usize))
}

/// Loads the emergency subscription from the record that the build
/// carries. A record that is not for channel 0 is refused, with a
/// diagnostic.
pub fn load_emergency_subscription(console: &mut Console, record: &[u8]) -> (sub: Option<
    Subscription,
>)
    requires
        old(console).wf(),
        record.len() >= REQUIRED_MEMORY,
    ensures
        final(console).wf(),
        sub is Some <==> spec_be_u32(record@.subrange(0, 4)) == 0,
        sub matches Some(s) ==> spec_is_record(s, record@.subrange(0, REQUIRED_MEMORY as int), 0),
        final(console)@ == if sub is Some {
            old(console)@
        } else {
            spec_emit(old(console)@, spec_frame(OP_DEBUG, spec_bad_emergency_note()))
        },
{
    let sub = parse_record(record, 0);
    assert(record@.subrange(0, REQUIRED_MEMORY as int).subrange(0, 4) == record@.subrange(0, 4));
    if sub.channel != 0 {
        write_console(console, "why".as_bytes());
        return None;
    }
    Some(sub)
}

/// The rows of a listing: one for each of the slots 1 to 8 that holds a
/// subscription. The emergency slot is not listed.
pub fn get_subscriptions(subscriptions: &[Option<Subscription>; 9]) -> (rows: Vec<SubStat>)
    ensures
        rows@ == spec_listing(subscriptions@, 9),
{
    let mut rows: Vec<SubStat> = Vec::new();
    let mut i: usize = 1;
    while i < 9
        invariant
            1 <= i <= 9,
            rows@ == spec_listing(subscriptions@, i as int),
        decreases 9 - i,
    {
        match subscriptions[i] {
            None => {},
            Some(sub) => {
                rows.push(SubStat { channel: sub.channel, start: sub.start, end: sub.end });
            },
        }
        i += 1;
    }
    rows
}

/// How many ladder rounds an anchor leaves open: the number of trailing
/// zero bits of `target`, and all 64 of them for the anchor zero.
pub open spec fn spec_trailing_zeroes_special(target: u64) -> nat {
    if target == 0 {
        64
    } else {
        vstd::std_specs::bits::u64_trailing_zeros(target) as nat
    }
}

/// How many ladder rounds an anchor leaves open.
pub fn trailing_zeroes_special(target: u64) -> (rounds: usize)
    ensures
        rounds == spec_trailing_zeroes_special(target),
        rounds <= 64,
{
    broadcast use vstd::std_specs::bits::axiom_u64_trailing_zeros;

    if target == 0 {
        return INTERMEDIATE_NUM;
    }
    target.trailing_zeros() as usize
}

/// The constant that is hashed behind the combined key streams.
pub open spec fn spec_big_bytes() -> Seq<u8> {
    seq![
        92u8, 244, 129, 255, 230, 241, 27, 64, 141, 102, 255, 242, 62, 90, 184, 39,
        179, 61, 229, 42, 43, 60, 236, 180, 17, 81, 0, 19, 40, 237, 9, 31,
        190, 96, 11, 35, 242, 31, 191, 50, 123, 176, 19, 168, 38, 117, 144, 128,
        85, 72, 55, 123, 175, 222, 187, 108, 70, 122, 249, 95, 86, 175, 58, 231,
    ]
}

/// The constant that is hashed behind the combined key streams.
pub fn big_bytes() -> (bytes: [u8; 64])
    ensures
        bytes@ == spec_big_bytes(),
{
    let bytes: [u8; 64] = [
        92, 244, 129, 255, 230, 241, 27, 64, 141, 102, 255, 242, 62, 90, 184, 39,
        179, 61, 229, 42, 43, 60, 236, 180, 17, 81, 0, 19, 40, 237, 9, 31,
        190, 96, 11, 35, 242, 31, 191, 50, 123, 176, 19, 168, 38, 117, 144, 128,
        85, 72, 55, 123, 175, 222, 187, 108, 70, 122, 249, 95, 86, 175, 58, 231,
    ];
    assert(bytes@ =~= spec_big_bytes());
    bytes
}

/// One round of the ladder: the second half of the BLAKE3 digest of the
/// section byte followed by the sixteen bytes of `n`.
pub open spec fn spec_hash(n: u128, section: u8) -> u128 {
    spec_be_u128(blake3_hash(seq![section] + spec_be_bytes_u128(n)).subrange(16, 32)) as u128
}

/// Whether bit `idx` of `target` is set.
pub open spec fn spec_bit(target: u64, idx: nat) -> bool {
    (target >> (idx as u64)) & 1 == 1
}

/// The seed after the rounds `rounds - 1` down to 0: round `idx` hashes
/// the seed if bit `idx` of `target` is set, and leaves it otherwise.
pub open spec fn spec_ladder(seed: u128, target: u64, rounds: nat) -> u128
    decreases rounds,
{
    if rounds == 0 {
        seed
    } else {
        let idx = (rounds - 1) as nat;
        spec_ladder(
            if spec_bit(target, idx) {
                spec_hash(seed, idx as u8)
            } else {
                seed
            },
            target,
            idx,
        )
    }
}

/// The scan of the first `upto` anchors for `target`: whether the scan
/// has ended, the largest anchor met, and its place. The scan ends at an
/// anchor above the target and at a zero behind place 0; an anchor counts
/// only if it exceeds what was met before it.
pub open spec fn spec_scan(pos: Seq<u64>, target: u64, upto: int) -> (bool, u64, int)
    decreases upto,
{
    if upto <= 0 {
        (false, 0, 0)
    } else {
        let before = spec_scan(pos, target, upto - 1);
        let i = upto - 1;
        if before.0 || pos[i] > target || (pos[i] == 0 && i != 0) {
            (true, before.1, before.2)
        } else if pos[i] > before.1 {
            (false, pos[i], i)
        } else {
            before
        }
    }
}

/// Offset in a record of seed `pos` of a direction.
pub open spec fn spec_seed_offset(pos: int, dir: u64) -> int {
    INTERMEDIATE_LOC + pos * 16 + if dir == FORWARD {
        0int
    } else {
        1024int
    }
}

/// The encrypted seed at place `pos` of a direction: from the emergency
/// record for the emergency subscription, from the flash page otherwise,
/// and zero where the flash cannot be read there.
pub open spec fn spec_intermediate(
    sub: Subscription,
    mem: Seq<u8>,
    emergency: Seq<u8>,
    pos: int,
    dir: u64,
) -> u128 {
    let at = spec_seed_offset(pos, dir);
    if sub.location == 0 {
        spec_be_u128(emergency.subrange(at, at + 16)) as u128
    } else if spec_word_address(sub.location + at) {
        spec_be_u128(mem.subrange(sub.location + at - SUB_LOC, sub.location + at - SUB_LOC + 16))
            as u128
    } else {
        0
    }
}

/// One side of the mask for `target`: sixty-four bytes, the last sixteen
/// of which hold the seed that the ladder yields from the anchor picked
/// for `target`. Any direction but the two known ones yields zeros.
pub open spec fn spec_decode_side(
    sub: Subscription,
    mem: Seq<u8>,
    resources: Resources,
    target: u64,
    dir: u64,
) -> Seq<u8> {
    if dir != FORWARD && dir != BACKWARD {
        Seq::new(64, |i: int| 0u8)
    } else {
        let pos = if dir == FORWARD {
            sub.forward_pos@
        } else {
            sub.backward_pos@
        };
        let pick = spec_scan(pos, target, 64);
        let seed = spec_decrypt_intermediate(
            resources.channels@,
            resources.keys@,
            spec_intermediate(sub, mem, resources.emergency@, pick.2, dir),
            sub.channel,
        );
        Seq::new(48, |i: int| 0u8) + spec_be_bytes_u128(
            spec_ladder(seed, target, spec_trailing_zeroes_special(pick.1)),
        )
    }
}

/// The mask of the frame at `timestamp`: BLAKE3's extended output for the
/// forward side of the timestamp xored with the backward side of its
/// complement, followed by the constant.
pub open spec fn spec_mask(sub: Subscription, mem: Seq<u8>, resources: Resources, timestamp: u64)
    -> Seq<u8> {
    blake3_xof64(
        spec_xor(
            spec_decode_side(sub, mem, resources, timestamp, FORWARD),
            spec_decode_side(sub, mem, resources, !timestamp, BACKWARD),
        ) + spec_big_bytes(),
    )
}

/// A frame under the mask of its timestamp. Opening and closing a frame
/// are the same operation.
pub open spec fn spec_decode(
    sub: Subscription,
    mem: Seq<u8>,
    resources: Resources,
    frame: Seq<u8>,
    timestamp: u64,
) -> Seq<u8> {
    spec_xor(frame, spec_mask(sub, mem, resources, timestamp))
}

impl Subscription {
    /// A record with every field zero.
    pub fn new() -> (sub: Subscription)
        ensures
            sub.forward_pos@ == Seq::new(64, |i: int| 0u64),
            sub.backward_pos@ == Seq::new(64, |i: int| 0u64),
            sub.start == 0,
            sub.end == 0,
            sub.channel == 0,
            sub.location == 0,
            sub.curr_frame == 0,
    {
        let sub = Subscription {
            forward_pos: [0; 64],
            backward_pos: [0; 64],
            start: 0,
            end: 0,
            channel: 0,
            location: 0,
            curr_frame: 0,
        };
        assert(sub.forward_pos@ =~= Seq::new(64, |i: int| 0u64));
        assert(sub.backward_pos@ =~= Seq::new(64, |i: int| 0u64));
        sub
    }

    /// Fetches the encrypted seed at place `pos` of a direction.
    pub fn get_intermediate(&self, flc: &Flash, resources: &Resources, pos: usize, dir: u64) -> (seed:
        u128)
        requires
            flc.wf(),
            resources.wf(),
            pos < 64,
        ensures
            seed == spec_intermediate(*self, flc@, resources.emergency@, pos as int, dir),
    {
        let offset: usize = INTERMEDIATE_LOC as usize + pos * INTERMEDIATE_SIZE + (if dir
            == FORWARD {
            0
        } else {
            1024
        });
        if self.location == 0 {
            return be_u128(resources.emergency.as_slice(), offset);
        }
        if self.location > 0xFFFF_FFFF {
            return 0;
        }
        let address: u64 = self.location as u64 + offset as u64;
        if address > 0xFFFF_FFFF {
            return 0;
        }
        let mut buffer: Vec<u8> = Vec::new();
        let mut i: usize = 0;
        while i < INTERMEDIATE_SIZE
            invariant
                i <= INTERMEDIATE_SIZE,
                buffer.len() == i,
                forall|j: int| 0 <= j < i ==> buffer@[j] == 0,
            decreases INTERMEDIATE_SIZE - i,
        {
            buffer.push(0);
            i += 1;
        }
        let _ = read_bytes(flc, address as u32, &mut buffer, INTERMEDIATE_SIZE);
        let seed = be_u128(buffer.as_slice(), 0);
        proof {
            let got = buffer@.subrange(0, 16);
            if spec_word_address(address as int) {
                assert(got == flc@.subrange(address - SUB_LOC, address - SUB_LOC + 16));
            } else {
                assert(got == Seq::new(16, |i: int| 0u8));
                assert(got.subrange(0, 8).subrange(0, 4) == Seq::new(4, |i: int| 0u8));
                assert(got.subrange(0, 8).subrange(4, 8) == Seq::new(4, |i: int| 0u8));
                assert(got.subrange(8, 16).subrange(0, 4) == Seq::new(4, |i: int| 0u8));
                assert(got.subrange(8, 16).subrange(4, 8) == Seq::new(4, |i: int| 0u8));
            }
        }
        seed
    }

    /// One round of the ladder.
    pub fn hash(n: u128, section: u8) -> (next: u128)
        ensures
            next == spec_hash(n, section),
    {
        let mut input: Vec<u8> = Vec::new();
        input.push(section);
        push_be_u128(&mut input, n);
        assert(input@ == seq![section] + spec_be_bytes_u128(n));
        let digest = hash_bytes(input.as_slice());
        be_u128(digest.as_slice(), 16)
    }

    /// Derives one side of the mask for `target`. `dir` says which of the
    /// two key streams is walked; any other value yields zeros.
    pub fn decode_side(&self, flc: &Flash, resources: &Resources, target: u64, dir: u64) -> (side:
        [u8; 64])
        requires
            flc.wf(),
            resources.wf(),
        ensures
            side@ == spec_decode_side(*self, flc@, *resources, target, dir),
    {
        if dir != FORWARD && dir != BACKWARD {
            let zeros = [0u8; 64];
            assert(zeros@ =~= Seq::new(64, |i: int| 0u8));
            return zeros;
        }
        let pos: &[u64; 64] = if dir == FORWARD {
            &self.forward_pos
        } else {
            &self.backward_pos
        };
        let (closest_pos, closest_idx) = pick_anchor(pos, target);
        let intermediate = self.get_intermediate(flc, resources, closest_idx, dir);
        let seed = decrypt_intermediate(resources, intermediate, self.channel);
        let rounds = trailing_zeroes_special(closest_pos);
        let hashed_int = walk_ladder(seed, target, rounds);
        widen(hashed_int)
    }

    /// Opens the frame of `timestamp`: the frame under the mask that the
    /// two sides of the ladder yield.
    pub fn decode(&self, flc: &Flash, resources: &Resources, frame: &[u8; 64], timestamp: u64) -> (plain:
        [u8; 64])
        requires
            flc.wf(),
            resources.wf(),
        ensures
            plain@ == spec_decode(*self, flc@, *resources, frame@, timestamp),
    {
        let forward = self.decode_side(flc, resources, timestamp, FORWARD);
        let backward = self.decode_side(flc, resources, !timestamp, BACKWARD);
        let guard = xor_512(&forward, &backward);
        let big = big_bytes();
        let mut input: Vec<u8> = Vec::new();
        push_all(&mut input, guard.as_slice());
        push_all(&mut input, big.as_slice());
        assert(input@ == guard@ + big@);
        let product = expand_bytes(input.as_slice());
        xor_512(frame, &product)
    }
}

/// Scans the anchors for `target`: the largest anchor met before the scan
/// ends, and its place.
fn pick_anchor(pos: &[u64; 64], target: u64) -> (pick: (u64, usize))
    ensures
        pick.1 < 64,
        spec_scan(pos@, target, 64).1 == pick.0,
        spec_scan(pos@, target, 64).2 == pick.1,
{
    let mut closest_pos: u64 = 0;
    let mut closest_idx: usize = 0;
    let mut i: usize = 0;
    let mut stopped = false;
    while i < 64 && !stopped
        invariant
            i <= 64,
            closest_idx < 64,
            stopped ==> i < 64,
            spec_scan(pos@, target, if stopped {
                i + 1
            } else {
                i as int
            }) == (stopped, closest_pos, closest_idx as int),
        decreases 64 - i + if stopped { 0int } else { 1int },
    {
        let anchor = pos[i];
        if anchor > target || (anchor == 0 && i != 0) {
            stopped = true;
        } else {
            if anchor > closest_pos {
                closest_pos = anchor;
                closest_idx = i;
            }
            i += 1;
        }
    }
    proof {
        if stopped {
            lemma_scan_stays(pos@, target, i + 1, 64);
        }
    }
    (closest_pos, closest_idx)
}

/// Walks the ladder from `seed` down the rounds below `rounds`.
fn walk_ladder(seed: u128, target: u64, rounds: usize) -> (walked: u128)
    requires
        rounds <= 64,
    ensures
        walked == spec_ladder(seed, target, rounds as nat),
{
    let mut hashed_int = seed;
    let mut idx: usize = rounds;
    while idx > 0
        invariant
            idx <= rounds <= 64,
            spec_ladder(hashed_int, target, idx as nat) == spec_ladder(
                seed,
                target,
                rounds as nat,
            ),
        decreases idx,
    {
        idx -= 1;
        if (target >> (idx as u64)) & 1 == 1 {
            hashed_int = Subscription::hash(hashed_int, idx as u8);
        }
    }
    hashed_int
}

/// Lays a seed into the last sixteen of sixty-four bytes.
fn widen(seed: u128) -> (side: [u8; 64])
    ensures
        side@ == Seq::new(48, |i: int| 0u8) + spec_be_bytes_u128(seed),
{
    let mut output: Vec<u8> = Vec::new();
    let mut k: usize = 0;
    while k < 48
        invariant
            k <= 48,
            output@ == Seq::new(k as nat, |i: int| 0u8),
        decreases 48 - k,
    {
        output.push(0);
        k += 1;
        assert(output@ =~= Seq::new(k as nat, |i: int| 0u8));
    }
    push_be_u128(&mut output, seed);
    take_64(output.as_slice(), 0)
}

/// Once a scan has ended, looking at more anchors changes nothing.
pub proof fn lemma_scan_stays(pos: Seq<u64>, target: u64, at: int, upto: int)
    requires
        0 <= at <= upto,
        spec_scan(pos, target, at).0,
    ensures
        spec_scan(pos, target, upto) == spec_scan(pos, target, at),
    decreases upto - at,
{
    if at < upto {
        lemma_scan_stays(pos, target, at, upto - 1);
    }
}

/// Opening a frame that was closed at the same timestamp, under the same
/// subscription and key material, gives the frame back.
pub proof fn lemma_decode_inverts(
    sub: Subscription,
    mem: Seq<u8>,
    resources: Resources,
    frame: Seq<u8>,
    timestamp: u64,
)
    ensures
        spec_decode(sub, mem, resources, spec_decode(sub, mem, resources, frame, timestamp), timestamp)
            == frame,
{
    lemma_xor_twice(frame, spec_mask(sub, mem, resources, timestamp));
}

/// A ladder whose rounds all meet a clear bit of the target leaves the
/// seed as it is.
pub proof fn lemma_ladder_idle(seed: u128, target: u64, rounds: nat)
    requires
        forall|idx: nat| idx < rounds ==> !spec_bit(target, idx),
    ensures
        spec_ladder(seed, target, rounds) == seed,
    decreases rounds,
{
    if rounds > 0 {
        assert(!spec_bit(target, (rounds - 1) as nat));
        lemma_ladder_idle(seed, target, (rounds - 1) as nat);
    }
}

/// At its own anchor the ladder makes no round: the seed of an anchor is
/// the seed of the frame whose timestamp is the anchor.
pub proof fn lemma_ladder_at_anchor(seed: u128, anchor: u64)
    ensures
        spec_ladder(seed, anchor, spec_trailing_zeroes_special(anchor)) == seed,
{
    broadcast use vstd::std_specs::bits::axiom_u64_trailing_zeros;

    let rounds = spec_trailing_zeroes_special(anchor);
    assert forall|idx: nat| idx < rounds implies !spec_bit(anchor, idx) by {
        let j = idx as u64;
        if anchor == 0 {
            assert((0u64 >> j) & 1 == 0) by (bit_vector);
        } else {
            assert((anchor >> j) & 1u64 == 0u64);
        }
    }
    lemma_ladder_idle(seed, anchor, rounds);
}

/// Whether the first `count` anchors ascend and the places behind them
/// are zero.
pub open spec fn spec_ascending(pos: Seq<u64>, count: int) -> bool {
    &&& pos.len() == 64
    &&& 1 <= count <= 64
    &&& forall|i: int, j: int| 0 <= i < j < count ==> pos[i] < pos[j]
    &&& forall|j: int| count <= j < 64 ==> pos[j] == 0
}

/// While every anchor met is at most the target, the scan goes on, and
/// the last anchor met is the largest.
proof fn lemma_scan_walk(pos: Seq<u64>, count: int, target: u64, upto: int)
    requires
        spec_ascending(pos, count),
        0 <= upto <= count,
        forall|i: int| 0 <= i < upto ==> pos[i] <= target,
    ensures
        spec_scan(pos, target, upto) == if upto == 0 {
            (false, 0u64, 0int)
        } else {
            (false, pos[upto - 1], upto - 1)
        },
    decreases upto,
{
    if upto > 0 {
        lemma_scan_walk(pos, count, target, upto - 1);
        if upto > 1 {
            assert(pos[upto - 2] < pos[upto - 1]);
            assert(pos[0] < pos[upto - 1]);
        }
    }
}

/// The scan from a place up to which every anchor is at most the target.
proof fn lemma_scan_from(pos: Seq<u64>, count: int, target: u64, upto: int)
    requires
        spec_ascending(pos, count),
        0 <= upto <= count,
        forall|i: int| 0 <= i < upto ==> pos[i] <= target,
    ensures
        ({
            let pick = spec_scan(pos, target, 64);
            &&& 0 <= pick.2 < count
            &&& pick.1 <= target
            &&& forall|i: int| 0 <= i < count && pos[i] <= target ==> pos[i] <= pick.1
            &&& pos[0] <= target ==> pos[pick.2] == pick.1
            &&& pos[0] > target ==> pick.1 == 0 && pick.2 == 0
        }),
    decreases count - upto,
{
    if upto < count && pos[upto] <= target {
        lemma_scan_from(pos, count, target, upto + 1);
    } else {
        lemma_scan_walk(pos, count, target, upto);
        let pick = spec_scan(pos, target, upto);
        if upto < 64 {
            assert(spec_scan(pos, target, upto + 1) == (true, pick.1, pick.2));
            lemma_scan_stays(pos, target, upto + 1, 64);
        }
        assert forall|i: int| 0 <= i < count && pos[i] <= target implies pos[i] <= pick.1 by {
            if i >= upto {
                if i > upto {
                    assert(pos[upto] < pos[i]);
                }
            } else if i < upto - 1 {
                assert(pos[i] < pos[upto - 1]);
            }
        }
    }
}

/// Where the anchors ascend, the scan picks the largest anchor that is at
/// most the target, and its place. Where even the first anchor lies above
/// the target, it picks place 0 and rounds as for the anchor zero.
pub proof fn lemma_scan_picks_largest(pos: Seq<u64>, count: int, target: u64)
    requires
        spec_ascending(pos, count),
    ensures
        ({
            let pick = spec_scan(pos, target, 64);
            &&& 0 <= pick.2 < count
            &&& pick.1 <= target
            &&& forall|i: int| 0 <= i < count && pos[i] <= target ==> pos[i] <= pick.1
            &&& pos[0] <= target ==> pos[pick.2] == pick.1
            &&& pos[0] > target ==> pick.1 == 0 && pick.2 == 0
        }),
{
    lemma_scan_from(pos, count, target, 0);
}

} // verus!
