//! The request dispatcher: a machine that reads headers and payloads from
//! the console, asks for an integrity probe at each point where one is
//! due, and answers list, install and decode requests.
//!
//! The machine never waits. Each call of [`read_resp`] makes at most one
//! move and says what it needs before it can make the next one: more
//! input, the outcome of a probe, or a pause to pass.

use vstd::prelude::*;
use vstd::string::StringSliceAdditionalSpecFns;
use crate::bytes::{be_u32, be_u64, pad_140, pad_256, push_all, push_decimal, push_le_u32};
use crate::bytes::{push_le_u64, spec_be_bytes_u32, spec_be_u32, spec_be_u64, spec_decimal_text};
use crate::bytes::{spec_le_bytes_u32, spec_le_bytes_u64, spec_padded, take_4, take_64};
use crate::console::{ack, chunk_count, parse_header, spec_ack, spec_chunk_count, spec_emit};
use crate::console::{spec_frame, spec_parse_header, spec_settle, spec_write_comm, write_comm};
use crate::console::{write_console, write_err, Console, HeaderError, Link};
use crate::console::{OP_ACK, OP_DEBUG, OP_DECODE, OP_ERROR, OP_LIST, OP_SUBSCRIBE};
use crate::crypto::{ed25519_key_decodes, ed25519ph_accepts, verify_prehashed};
use crate::flash::{map_err, spec_erase, spec_map_err, spec_write_words, write_bytes};
use crate::flash::{Flash, SUB_LOC, SUB_SPACE};
use crate::integrity::{spec_square, PENALTY_MS};
use crate::resources::{get_decrypt_loc_for_channel, load_verification_key, spec_channel_loc};
use crate::resources::Resources;
use crate::subscription::{get_subscriptions, load_emergency_subscription, load_subscription};
use crate::subscription::{spec_bad_emergency_note, spec_decode, spec_empty_slot_note};
use crate::subscription::{spec_is_record, spec_listing, spec_loaded, SubStat, Subscription};
use crate::subscription::REQUIRED_MEMORY;

verus! {

/// Bytes in a decode request: channel, timestamp, signature and frame.
pub const REQUEST_LEN: usize = 140;

/// What the decoder can say in words.
#[derive(Clone, Copy, Debug, PartialEq, Eq, Structural)]
pub enum Note {
    /// A header did not start with the magic byte.
    NotMagic,
    /// A header carried no opcode that the decoder reads.
    NotOpcode,
    /// An integrity probe failed.
    IntegrityFailed,
    /// An install request named the emergency channel, or no channel.
    EmergencyInstall,
    /// An install request named a channel that has no slot.
    NoSuchChannel,
    /// The record that was installed cannot be loaded.
    LoadFailed,
    /// A decode request was shorter than a request is.
    ShortRequest,
    /// A decode request named a channel without a subscription.
    NoSubscription,
    /// A decode request came after the subscription's window.
    TooLate,
    /// A decode request repeated or went back behind an earlier one.
    OutOfOrder,
    /// The signature of a frame did not verify.
    Spoofed,
    /// The payload that refuses a decode request.
    Fail,
    /// The preceding boot stage is not a known one.
    UnknownStage,
}

/// The bytes of a note.
pub open spec fn spec_note(note: Note) -> Seq<u8> {
    match note {
        Note::NotMagic => "that was not magic".spec_bytes(),
        Note::NotOpcode => "that was not an opcode".spec_bytes(),
        Note::IntegrityFailed => "Integrity check failed".spec_bytes(),
        Note::EmergencyInstall => "Cannot be given emergency subscription".spec_bytes(),
        Note::NoSuchChannel => "Channel does not exist".spec_bytes(),
        Note::LoadFailed => "Failed to load subscription".spec_bytes(),
        Note::ShortRequest => "Decode request is too short".spec_bytes(),
        Note::NoSubscription => "No subscription for this channel!".spec_bytes(),
        Note::TooLate => "Timestamp is too late".spec_bytes(),
        Note::OutOfOrder => "Timestamp is out of order".spec_bytes(),
        Note::Spoofed => "Key verification failed - frame spoofing may be happening!".spec_bytes(),
        Note::Fail => "fail".spec_bytes(),
        Note::UnknownStage => "Boot stage is not a known one".spec_bytes(),
    }
}

/// The text of a note.
pub fn note_text(note: Note) -> (text: &'static str)
    ensures
        text.spec_bytes() == spec_note(note),
{
    match note {
        Note::NotMagic => "that was not magic",
        Note::NotOpcode => "that was not an opcode",
        Note::IntegrityFailed => "Integrity check failed",
        Note::EmergencyInstall => "Cannot be given emergency subscription",
        Note::NoSuchChannel => "Channel does not exist",
        Note::LoadFailed => "Failed to load subscription",
        Note::ShortRequest => "Decode request is too short",
        Note::NoSubscription => "No subscription for this channel!",
        Note::TooLate => "Timestamp is too late",
        Note::OutOfOrder => "Timestamp is out of order",
        Note::Spoofed => "Key verification failed - frame spoofing may be happening!",
        Note::Fail => "fail",
        Note::UnknownStage => "Boot stage is not a known one",
    }
}

/// A text followed by a number in decimal.
pub open spec fn spec_numbered(text: Seq<u8>, number: nat) -> Seq<u8> {
    text + spec_decimal_text(number)
}

/// The diagnostic that names the slot of an install request.
pub open spec fn spec_slot_note(slot: u32) -> Seq<u8> {
    spec_numbered("Channel: ".spec_bytes(), slot as nat)
}

/// The report on a header whose opcode the decoder reads but does not
/// answer.
pub open spec fn spec_opcode_report(opcode: u8) -> Seq<u8> {
    spec_numbered("Unknown opcode: ".spec_bytes(), opcode as nat)
}

/// The bytes of one row of a listing.
pub open spec fn spec_row_bytes(row: SubStat) -> Seq<u8> {
    spec_le_bytes_u32(row.channel) + spec_le_bytes_u64(row.start) + spec_le_bytes_u64(row.end)
}

/// The bytes of the first `count` rows of a listing.
pub open spec fn spec_rows_bytes(rows: Seq<SubStat>, count: nat) -> Seq<u8>
    decreases count,
{
    if count == 0 {
        Seq::empty()
    } else {
        spec_rows_bytes(rows, (count - 1) as nat) + spec_row_bytes(rows[count - 1])
    }
}

/// The payload of a listing: the number of rows, then the rows.
pub open spec fn spec_listing_payload(rows: Seq<SubStat>) -> Seq<u8> {
    spec_le_bytes_u32(rows.len() as u32) + spec_rows_bytes(rows, rows.len())
}

/// Builds the payload of a listing.
pub fn listing_payload(rows: &Vec<SubStat>) -> (payload: Vec<u8>)
    requires
        rows.len() <= u32::MAX,
    ensures
        payload@ == spec_listing_payload(rows@),
{
    let mut payload: Vec<u8> = Vec::new();
    push_le_u32(&mut payload, rows.len() as u32);
    let mut i: usize = 0;
    while i < rows.len()
        invariant
            i <= rows.len(),
            payload@ == spec_le_bytes_u32(rows.len() as u32) + spec_rows_bytes(rows@, i as nat),
        decreases rows.len() - i,
    {
        let ghost before = payload@;
        let row = rows[i];
        push_le_u32(&mut payload, row.channel);
        push_le_u64(&mut payload, row.start);
        push_le_u64(&mut payload, row.end);
        assert(payload@ == before + spec_row_bytes(row));
        i += 1;
    }
    payload
}

/// The slot that `channel` installs into: its position in the channel
/// table, if that is one of the positions 1 to 8.
pub open spec fn spec_slot_for_channel(channels: Seq<u32>, channel: u32) -> Option<u32> {
    let loc = spec_channel_loc(channels, channel, 17);
    if 1 <= loc <= 8 {
        Some(loc as u32)
    } else {
        None
    }
}

/// Finds the slot that a channel installs into.
pub fn get_subscription_for_channel(channel: u32, channels: &[u32; 17]) -> (slot: Option<u32>)
    ensures
        slot == spec_slot_for_channel(channels@, channel),
{
    let loc = get_decrypt_loc_for_channel(channels, channel);
    if 1 <= loc && loc <= 8 {
        Some(loc)
    } else {
        None
    }
}

/// The harmless answer that follows a failed probe.
#[derive(Clone, Copy, Debug, PartialEq, Eq, Structural)]
pub enum Reply {
    /// A listing with no rows.
    List,
    /// An empty install reply.
    Install,
    /// An empty decode reply.
    Decode,
    /// An empty decode reply, then a frame of zeros.
    DecodeZero,
}

/// Where the decoder stands between two moves.
#[derive(Clone, Copy, Debug)]
pub enum Phase {
    /// Before a request: the next four bytes are a header.
    Header,
    /// List: acknowledged, the probe is due.
    ListProbe,
    /// Install: block `index` of `total` is awaited.
    InstallChunk { index: u32, total: u32, length: u16, slot: u32 },
    /// Install: the first block is in, the probe before its channel is
    /// read is due.
    InstallEntryProbe { total: u32, length: u16, chunk: [u8; 256] },
    /// Install: the probe before a block is written is due.
    InstallWriteProbe { index: u32, total: u32, length: u16, slot: u32, chunk: [u8; 256] },
    /// Decode: block `index` of `total` is awaited.
    DecodeChunk { index: u32, total: u32, length: u16, request: [u8; 140] },
    /// Decode: the request is in, the probe before it is looked at is due.
    DecodeEntryProbe { length: u16, request: [u8; 140] },
    /// Decode: the request is admitted, the probe before the frame is
    /// opened is due.
    DecodeKeyProbe { sub: Subscription, timestamp: u64, signature: [u8; 64], frame: [u8; 64] },
    /// Decode: the frame is open, the probe before its signature is
    /// verified is due.
    DecodeVerifyProbe { channel: u32, signature: [u8; 64], plain: [u8; 64] },
    /// A probe failed: the pause before the harmless answer is due.
    Penalty { reply: Reply },
}

/// What happened outside since the last move.
#[derive(Clone, Copy, Debug, PartialEq, Eq, Structural)]
pub enum Event {
    /// Nothing but, perhaps, the arrival of input.
    Tick,
    /// A probe was run: `value` was drawn, and `product` computed from it
    /// after the wait.
    Probe { value: u32, product: u32 },
    /// The pause that was asked for has passed.
    Resumed,
}

/// What the decoder needs before its next move.
#[derive(Clone, Copy, Debug, PartialEq, Eq, Structural)]
pub enum Want {
    /// Nothing: it moved, and may be able to move again.
    Again,
    /// More input from the wire.
    Input,
    /// The outcome of an integrity probe.
    Probe,
    /// A pause of so many milliseconds.
    Pause(u32),
}

/// The decoder: the subscription table, the flash, what the build
/// carries, and the place in the protocol.
pub struct Decoder {
    /// The subscription table: the emergency subscription in slot 0, the
    /// installed ones in the slots 1 to 8.
    pub subscriptions: [Option<Subscription>; 9],
    /// The subscription region of the flash.
    pub flash: Flash,
    /// What the build carries.
    pub resources: Resources,
    /// The Ed25519 key that frames are verified with.
    pub verifier: [u8; 32],
    /// The place in the protocol.
    pub phase: Phase,
}

/// Bytes in block `index` of a payload of `length` bytes.
pub open spec fn spec_chunk_size(length: u16, index: u32) -> nat {
    if 256 * (index + 1) <= length {
        256
    } else {
        (length - 256 * index) as nat
    }
}

/// Flash address that block `index` of the record for `slot` goes to.
pub open spec fn spec_chunk_address(slot: u32, index: u32) -> int {
    SUB_LOC + (slot - 1) * SUB_SPACE + 256 * index
}

impl Phase {
    /// The counters of a transfer fit the length that its header gave,
    /// and a slot, where one was chosen, is one of the slots 1 to 8.
    pub open spec fn wf(self) -> bool {
        match self {
            Phase::InstallChunk { index, total, length, slot } => {
                &&& index < total
                &&& total == spec_chunk_count(length as nat)
                &&& index > 0 ==> 1 <= slot <= 8
            },
            Phase::InstallEntryProbe { total, length, chunk } => {
                0 < total && total == spec_chunk_count(length as nat)
            },
            Phase::InstallWriteProbe { index, total, length, slot, chunk } => {
                &&& index < total
                &&& total == spec_chunk_count(length as nat)
                &&& 1 <= slot <= 8
            },
            Phase::DecodeChunk { index, total, length, request } => {
                index < total && total == spec_chunk_count(length as nat)
            },
            _ => true,
        }
    }
}

/// `link` after a diagnostic with the text of `note`.
pub open spec fn spec_say(link: Link, note: Note) -> Link {
    spec_emit(link, spec_frame(OP_DEBUG, spec_note(note)))
}

/// `link` after an error report with the text of `note`.
pub open spec fn spec_report(link: Link, note: Note) -> Link {
    spec_write_comm(link, spec_note(note), OP_ERROR)
}

/// `link` after the harmless answer `reply`.
pub open spec fn spec_reply(link: Link, reply: Reply) -> Link {
    match reply {
        Reply::List => spec_write_comm(link, seq![0u8, 0u8, 0u8, 0u8], OP_LIST),
        Reply::Install => spec_write_comm(link, Seq::empty(), OP_SUBSCRIBE),
        Reply::Decode => spec_write_comm(link, Seq::empty(), OP_DECODE),
        Reply::DecodeZero => spec_write_comm(
            spec_write_comm(link, Seq::empty(), OP_DECODE),
            Seq::new(64, |i: int| 0u8),
            OP_DECODE,
        ),
    }
}

/// Whether two decoders differ in nothing but the place in the protocol.
pub open spec fn spec_kept(old: Decoder, new: Decoder) -> bool {
    &&& new.subscriptions == old.subscriptions
    &&& new.flash == old.flash
    &&& new.resources == old.resources
    &&& new.verifier == old.verifier
}

/// The first slot below `upto` that holds a subscription for `channel`.
pub open spec fn spec_find(table: Seq<Option<Subscription>>, channel: u32, upto: int) -> Option<
    int,
>
    decreases upto,
{
    if upto <= 0 {
        None
    } else {
        match spec_find(table, channel, upto - 1) {
            Some(slot) => Some(slot),
            None => if table[upto - 1] matches Some(sub) && sub.channel == channel {
                Some(upto - 1)
            } else {
                None
            },
        }
    }
}

/// What the decoder makes of a timestamp under a subscription.
#[derive(Clone, Copy, Debug, PartialEq, Eq, Structural)]
pub enum Verdict {
    /// The timestamp lies before the window.
    Early,
    /// The timestamp lies at or behind the end of the window.
    Late,
    /// The timestamp lies before one that was decoded already, or is one.
    Replay,
    /// The frame may be decoded.
    Admit,
}

/// The verdict on `timestamp` under `sub`: the window is checked first,
/// its start before its end, and the order of the frames last.
pub open spec fn spec_verdict(sub: Subscription, timestamp: u64) -> Verdict {
    if sub.start > timestamp {
        Verdict::Early
    } else if sub.end <= timestamp {
        Verdict::Late
    } else if sub.curr_frame > timestamp {
        Verdict::Replay
    } else {
        Verdict::Admit
    }
}

/// `sub` after the frame of `timestamp` was admitted.
pub open spec fn spec_advanced(sub: Subscription, timestamp: u64) -> Subscription {
    Subscription { curr_frame: (timestamp + 1) as u64, ..sub }
}

/// The admission of a decode request: what is written, what becomes of
/// the table, and the subscription that the frame is decoded under, if it
/// is admitted.
pub open spec fn spec_decode_subroutine(
    table: Seq<Option<Subscription>>,
    link: Link,
    request: Seq<u8>,
    after: Seq<Option<Subscription>>,
    out: Link,
    admitted: Option<Subscription>,
) -> bool {
    let channel = spec_be_u32(request.subrange(0, 4)) as u32;
    let timestamp = spec_be_u64(request.subrange(4, 12)) as u64;
    match spec_find(table, channel, 9) {
        None => {
            &&& after == table
            &&& admitted is None
            &&& out == spec_report(
                spec_emit(
                    spec_emit(link, spec_frame(OP_DEBUG, request.subrange(0, 4))),
                    spec_frame(OP_DEBUG, spec_decimal_text(channel as nat)),
                ),
                Note::NoSubscription,
            )
        },
        Some(slot) => {
            let sub = table[slot]->0;
            match spec_verdict(sub, timestamp) {
                Verdict::Early => {
                    &&& after == table
                    &&& admitted is None
                    &&& out == spec_write_comm(link, spec_note(Note::Fail), OP_DECODE)
                },
                Verdict::Late => {
                    &&& after == table
                    &&& admitted is None
                    &&& out == spec_report(link, Note::TooLate)
                },
                Verdict::Replay => {
                    &&& after == table
                    &&& admitted is None
                    &&& out == spec_write_comm(
                        spec_say(link, Note::OutOfOrder),
                        spec_note(Note::Fail),
                        OP_DECODE,
                    )
                },
                Verdict::Admit => {
                    &&& after == table.update(slot, Some(spec_advanced(sub, timestamp)))
                    &&& admitted == Some(spec_advanced(sub, timestamp))
                    &&& out == link
                },
            }
        },
    }
}

/// The move on a block of an install request.
pub open spec fn spec_on_install_chunk(
    link: Link,
    index: u32,
    total: u32,
    length: u16,
    slot: u32,
    out: Link,
    phase: Phase,
) -> bool {
    let size = spec_chunk_size(length, index) as int;
    &&& out == (Link { input: link.input.subrange(size, link.input.len() as int), ..link })
    &&& if index == 0 {
        &&& phase matches Phase::InstallEntryProbe { total: t, length: l, chunk }
        &&& t == total && l == length && chunk@ == spec_padded(link.input.subrange(0, size), 256)
    } else {
        &&& phase matches Phase::InstallWriteProbe { index: i, total: t, length: l, slot: s, chunk }
        &&& i == index && t == total && l == length && s == slot && chunk@ == spec_padded(
            link.input.subrange(0, size),
            256,
        )
    }
}

/// The move on the probe before the channel of an install request is
/// read: the request is refused for the emergency channel and for a
/// channel without a slot; otherwise the slot's page is erased.
pub open spec fn spec_on_install_entry(
    old: Decoder,
    link: Link,
    sound: bool,
    total: u32,
    length: u16,
    chunk: Seq<u8>,
    new: Decoder,
    out: Link,
) -> bool {
    let channel = spec_be_u32(chunk.subrange(0, 4)) as u32;
    &&& new.subscriptions == old.subscriptions
    &&& new.resources == old.resources
    &&& new.verifier == old.verifier
    &&& if !sound {
        &&& new.flash == old.flash
        &&& new.phase == (Phase::Penalty { reply: Reply::Install })
        &&& out == spec_report(link, Note::IntegrityFailed)
    } else if channel == 0 {
        &&& new.flash == old.flash
        &&& new.phase is Header
        &&& out == spec_report(link, Note::EmergencyInstall)
    } else {
        match spec_slot_for_channel(old.resources.channels@, channel) {
            None => {
                &&& new.flash == old.flash
                &&& new.phase is Header
                &&& out == spec_report(link, Note::NoSuchChannel)
            },
            Some(slot) => {
                &&& new.flash@ == spec_erase(old.flash@, slot - 1)
                &&& new.phase matches Phase::InstallWriteProbe {
                    index: i,
                    total: t,
                    length: l,
                    slot: s,
                    chunk: c,
                }
                &&& i == 0 && t == total && l == length && s == slot && c@ == chunk
                &&& out == spec_emit(link, spec_frame(OP_DEBUG, spec_slot_note(slot)))
            },
        }
    }
}

/// `sub` as it comes from its record: with a frame counter of zero.
pub open spec fn spec_fresh(sub: Option<Subscription>) -> Option<Subscription> {
    match sub {
        Some(s) => Some(Subscription { curr_frame: 0, ..s }),
        None => None,
    }
}

/// What a slot holds once `fresh` was loaded into it: the loaded
/// subscription, with the frame counter of the subscription that the slot
/// held before if that one was for the same channel.
pub open spec fn spec_carried(before: Option<Subscription>, fresh: Option<Subscription>) -> Option<
    Subscription,
> {
    match fresh {
        None => None,
        Some(s) => match before {
            Some(a) => if a.channel == s.channel {
                Some(Subscription { curr_frame: a.curr_frame, ..s })
            } else {
                Some(s)
            },
            None => Some(s),
        },
    }
}

/// The first four bytes of the page of `slot`.
pub open spec fn spec_page_head(mem: Seq<u8>, slot: u32) -> Seq<u8> {
    mem.subrange((slot - 1) * SUB_SPACE, (slot - 1) * SUB_SPACE + 4)
}

/// Whether four bytes spell a channel that installs into `slot`.
pub open spec fn spec_names_slot(channels: Seq<u32>, head: Seq<u8>, slot: u32) -> bool {
    spec_slot_for_channel(channels, spec_be_u32(head) as u32) == Some(slot)
}

/// Whether every subscription stands where its channel belongs: one for
/// channel 0 in slot 0, and one for a configured channel in the slot that
/// is the channel's place in the channel table.
pub open spec fn spec_aligned(table: Seq<Option<Subscription>>, channels: Seq<u32>) -> bool {
    &&& table[0] matches Some(s) ==> s.channel == 0
    &&& forall|k: int|
        1 <= k < 9 ==> ((#[trigger] table[k]) matches Some(s) ==> spec_slot_for_channel(
            channels,
            s.channel,
        ) == Some(k as u32))
}

/// The move on the probe before a block is written: the block goes to
/// the flash, a refusal is reported, and the block is acknowledged.
/// Behind the last block the slot is loaded from the flash again, a page
/// that yields no record is reported, and the request is answered. A
/// subscription that replaces one for the same channel takes over its
/// frame counter.
pub open spec fn spec_on_install_write(
    old: Decoder,
    link: Link,
    sound: bool,
    index: u32,
    total: u32,
    length: u16,
    slot: u32,
    chunk: Seq<u8>,
    new: Decoder,
    out: Link,
) -> bool {
    &&& new.resources == old.resources
    &&& new.verifier == old.verifier
    &&& if !sound {
        &&& new.subscriptions == old.subscriptions
        &&& new.flash == old.flash
        &&& new.phase == (Phase::Penalty { reply: Reply::Install })
        &&& out == spec_report(link, Note::IntegrityFailed)
    } else {
        let done = spec_write_words(old.flash@, spec_chunk_address(slot, index), chunk, 16);
        let written = spec_emit(
            match done.1 {
                Some(e) => spec_write_comm(link, spec_map_err(e).spec_bytes(), OP_ERROR),
                None => link,
            },
            spec_ack(),
        );
        &&& new.flash@ == done.0
        &&& if index + 1 < total {
            &&& new.subscriptions == old.subscriptions
            &&& new.phase == (Phase::InstallChunk { index: (index + 1) as u32, total, length, slot })
            &&& out == written
        } else {
            let loaded = new.subscriptions@[slot as int];
            &&& new.subscriptions@ == old.subscriptions@.update(slot as int, loaded)
            &&& spec_loaded(new.flash@, slot - 1, spec_fresh(loaded))
            &&& loaded == spec_carried(old.subscriptions@[slot as int], spec_fresh(loaded))
            &&& new.phase is Header
            &&& out == spec_write_comm(
                if loaded is None {
                    spec_report(
                        spec_emit(written, spec_frame(OP_DEBUG, spec_empty_slot_note())),
                        Note::LoadFailed,
                    )
                } else {
                    written
                },
                Seq::empty(),
                OP_SUBSCRIBE,
            )
        }
    }
}

/// The move on a block of a decode request: the first 140 bytes of the
/// first block are kept, every block is acknowledged.
pub open spec fn spec_on_decode_chunk(
    link: Link,
    index: u32,
    total: u32,
    length: u16,
    request: Seq<u8>,
    out: Link,
    phase: Phase,
) -> bool {
    let size = spec_chunk_size(length, index) as int;
    let kept = if index == 0 {
        spec_padded(link.input.subrange(0, size), 140)
    } else {
        request
    };
    &&& out == spec_emit(
        Link { input: link.input.subrange(size, link.input.len() as int), ..link },
        spec_ack(),
    )
    &&& if index + 1 < total {
        &&& phase matches Phase::DecodeChunk { index: i, total: t, length: l, request: r }
        &&& i == index + 1 && t == total && l == length && r@ == kept
    } else {
        &&& phase matches Phase::DecodeEntryProbe { length: l, request: r }
        &&& l == length && r@ == kept
    }
}

/// The move on the probe before a decode request is looked at.
pub open spec fn spec_on_decode_entry(
    old: Decoder,
    link: Link,
    sound: bool,
    length: u16,
    request: Seq<u8>,
    new: Decoder,
    out: Link,
) -> bool {
    &&& new.flash == old.flash
    &&& new.resources == old.resources
    &&& new.verifier == old.verifier
    &&& if !sound {
        &&& new.subscriptions == old.subscriptions
        &&& new.phase == (Phase::Penalty { reply: Reply::Decode })
        &&& out == spec_report(link, Note::IntegrityFailed)
    } else if length < REQUEST_LEN {
        &&& new.subscriptions == old.subscriptions
        &&& new.phase is Header
        &&& out == spec_report(link, Note::ShortRequest)
    } else {
        let admitted = match new.phase {
            Phase::DecodeKeyProbe { sub, .. } => Some(sub),
            _ => None,
        };
        &&& spec_decode_subroutine(
            old.subscriptions@,
            link,
            request,
            new.subscriptions@,
            out,
            admitted,
        )
        &&& new.phase is Header || (new.phase matches Phase::DecodeKeyProbe {
            sub,
            timestamp,
            signature,
            frame,
        } && timestamp == spec_be_u64(request.subrange(4, 12)) && signature@ == request.subrange(
            12,
            76,
        ) && frame@ == request.subrange(76, 140))
    }
}

/// The move on the probe before a frame is opened.
pub open spec fn spec_on_decode_key(
    old: Decoder,
    link: Link,
    sound: bool,
    sub: Subscription,
    timestamp: u64,
    signature: Seq<u8>,
    frame: Seq<u8>,
    out: Link,
    phase: Phase,
) -> bool {
    if !sound {
        phase == (Phase::Penalty { reply: Reply::DecodeZero }) && out == spec_report(
            link,
            Note::IntegrityFailed,
        )
    } else {
        &&& out == link
        &&& phase matches Phase::DecodeVerifyProbe { channel, signature: s, plain }
        &&& channel == sub.channel && s@ == signature && plain@ == spec_decode(
            sub,
            old.flash@,
            old.resources,
            frame,
            timestamp,
        )
    }
}

/// The move on the probe before a signature is verified: the frame goes
/// out if its signature verifies under the channel, and an error report
/// without the frame if it does not.
pub open spec fn spec_on_decode_verify(
    verifier: Seq<u8>,
    link: Link,
    sound: bool,
    channel: u32,
    signature: Seq<u8>,
    plain: Seq<u8>,
    out: Link,
    phase: Phase,
) -> bool {
    if !sound {
        phase == (Phase::Penalty { reply: Reply::DecodeZero }) && out == spec_report(
            link,
            Note::IntegrityFailed,
        )
    } else {
        &&& phase is Header
        &&& out == if ed25519ph_accepts(verifier, spec_be_bytes_u32(channel), plain, signature) {
            spec_write_comm(link, plain, OP_DECODE)
        } else {
            spec_report(link, Note::Spoofed)
        }
    }
}

/// The move on a header: what is written and where the decoder stands
/// after the four bytes `header` were read.
pub open spec fn spec_on_header(link: Link, header: Seq<u8>, out: Link, phase: Phase) -> bool {
    match spec_parse_header(header) {
        Err(HeaderError::BadMagic) => {
            &&& out == spec_emit(spec_say(link, Note::NotMagic), spec_frame(OP_DEBUG, header))
            &&& phase is Header
        },
        Err(HeaderError::BadOpcode) => {
            &&& out == spec_emit(spec_say(link, Note::NotOpcode), spec_frame(OP_DEBUG, header))
            &&& phase is Header
        },
        Ok((opcode, length)) => {
            let total = spec_chunk_count(length as nat) as u32;
            if opcode == OP_LIST {
                out == spec_emit(link, spec_ack()) && phase is ListProbe
            } else if opcode == OP_SUBSCRIBE {
                if total == 0 {
                    &&& out == spec_report(spec_emit(link, spec_ack()), Note::EmergencyInstall)
                    &&& phase is Header
                } else {
                    &&& out == spec_emit(link, spec_ack())
                    &&& phase matches Phase::InstallChunk { index, total: t, length: l, slot }
                    &&& index == 0 && t == total && l == length && slot == 0
                }
            } else if opcode == OP_DECODE {
                &&& out == spec_emit(link, spec_ack())
                &&& if total == 0 {
                    &&& phase matches Phase::DecodeEntryProbe { length: l, request }
                    &&& l == length && request@ == Seq::new(140, |i: int| 0u8)
                } else {
                    &&& phase matches Phase::DecodeChunk { index, total: t, length: l, request }
                    &&& index == 0 && t == total && l == length && request@ == Seq::new(
                        140,
                        |i: int| 0u8,
                    )
                }
            } else if opcode == OP_ACK {
                out == link && phase is Header
            } else {
                &&& out == spec_write_comm(link, spec_opcode_report(opcode), OP_ERROR)
                &&& phase is Header
            }
        },
    }
}

/// The move on the probe of a list request: the listing of the slots 1
/// to 8 if the probe was sound.
pub open spec fn spec_on_list_probe(
    table: Seq<Option<Subscription>>,
    link: Link,
    sound: bool,
    out: Link,
    phase: Phase,
) -> bool {
    if sound {
        &&& phase is Header
        &&& out == spec_write_comm(link, spec_listing_payload(spec_listing(table, 9)), OP_LIST)
    } else {
        &&& phase == (Phase::Penalty { reply: Reply::List })
        &&& out == spec_report(link, Note::IntegrityFailed)
    }
}

/// Whether a probe was sound: what was computed after the wait is the
/// square of what was drawn.
pub open spec fn spec_sound(value: u32, product: u32) -> bool {
    product == spec_square(value)
}

/// Whether nothing at all changed.
pub open spec fn spec_stands(old: Decoder, link: Link, new: Decoder, out: Link) -> bool {
    spec_kept(old, new) && new.phase == old.phase && out == link
}

/// `link` with its first `n` bytes of input read.
pub open spec fn spec_read(link: Link, n: int) -> Link {
    Link { input: link.input.subrange(n, link.input.len() as int), ..link }
}

/// One move of the decoder. While blocks wait for an acknowledgement the
/// input goes to that wait alone. Otherwise the phase decides: a header
/// or a block is taken in once all its bytes have arrived, a probe phase
/// moves on the outcome of a probe, and the pause after a failed probe
/// ends when the driver says that it has passed. An event that the phase
/// does not wait for is passed over.
pub open spec fn spec_read_resp(
    old: Decoder,
    link: Link,
    event: Event,
    new: Decoder,
    out: Link,
    want: Want,
) -> bool {
    if link.held.len() > 0 {
        &&& spec_kept(old, new)
        &&& new.phase == old.phase
        &&& out == spec_settle(link)
        &&& want == if link.input.len() == 0 {
            Want::Input
        } else {
            Want::Again
        }
    } else {
        match old.phase {
            Phase::Header => {
                if link.input.len() < 4 {
                    spec_stands(old, link, new, out) && want == Want::Input
                } else {
                    &&& spec_kept(old, new)
                    &&& spec_on_header(
                        spec_read(link, 4),
                        link.input.subrange(0, 4),
                        out,
                        new.phase,
                    )
                    &&& want == Want::Again
                }
            },
            Phase::ListProbe => match event {
                Event::Probe { value, product } => {
                    &&& spec_kept(old, new)
                    &&& spec_on_list_probe(
                        old.subscriptions@,
                        link,
                        spec_sound(value, product),
                        out,
                        new.phase,
                    )
                    &&& want == Want::Again
                },
                _ => spec_stands(old, link, new, out) && want == Want::Probe,
            },
            Phase::InstallChunk { index, total, length, slot } => {
                if link.input.len() < spec_chunk_size(length, index) {
                    spec_stands(old, link, new, out) && want == Want::Input
                } else {
                    &&& spec_kept(old, new)
                    &&& spec_on_install_chunk(link, index, total, length, slot, out, new.phase)
                    &&& want == Want::Again
                }
            },
            Phase::InstallEntryProbe { total, length, chunk } => match event {
                Event::Probe { value, product } => {
                    &&& spec_on_install_entry(
                        old,
                        link,
                        spec_sound(value, product),
                        total,
                        length,
                        chunk@,
                        new,
                        out,
                    )
                    &&& want == Want::Again
                },
                _ => spec_stands(old, link, new, out) && want == Want::Probe,
            },
            Phase::InstallWriteProbe { index, total, length, slot, chunk } => match event {
                Event::Probe { value, product } => {
                    &&& spec_on_install_write(
                        old,
                        link,
                        spec_sound(value, product),
                        index,
                        total,
                        length,
                        slot,
                        chunk@,
                        new,
                        out,
                    )
                    &&& want == Want::Again
                },
                _ => spec_stands(old, link, new, out) && want == Want::Probe,
            },
            Phase::DecodeChunk { index, total, length, request } => {
                if link.input.len() < spec_chunk_size(length, index) {
                    spec_stands(old, link, new, out) && want == Want::Input
                } else {
                    &&& spec_kept(old, new)
                    &&& spec_on_decode_chunk(link, index, total, length, request@, out, new.phase)
                    &&& want == Want::Again
                }
            },
            Phase::DecodeEntryProbe { length, request } => match event {
                Event::Probe { value, product } => {
                    &&& spec_on_decode_entry(
                        old,
                        link,
                        spec_sound(value, product),
                        length,
                        request@,
                        new,
                        out,
                    )
                    &&& want == Want::Again
                },
                _ => spec_stands(old, link, new, out) && want == Want::Probe,
            },
            Phase::DecodeKeyProbe { sub, timestamp, signature, frame } => match event {
                Event::Probe { value, product } => {
                    &&& spec_kept(old, new)
                    &&& spec_on_decode_key(
                        old,
                        link,
                        spec_sound(value, product),
                        sub,
                        timestamp,
                        signature@,
                        frame@,
                        out,
                        new.phase,
                    )
                    &&& want == Want::Again
                },
                _ => spec_stands(old, link, new, out) && want == Want::Probe,
            },
            Phase::DecodeVerifyProbe { channel, signature, plain } => match event {
                Event::Probe { value, product } => {
                    &&& spec_kept(old, new)
                    &&& spec_on_decode_verify(
                        old.verifier@,
                        link,
                        spec_sound(value, product),
                        channel,
                        signature@,
                        plain@,
                        out,
                        new.phase,
                    )
                    &&& want == Want::Again
                },
                _ => spec_stands(old, link, new, out) && want == Want::Probe,
            },
            Phase::Penalty { reply } => match event {
                Event::Resumed => {
                    &&& spec_kept(old, new)
                    &&& new.phase is Header
                    &&& out == spec_reply(link, reply)
                    &&& want == Want::Again
                },
                _ => spec_stands(old, link, new, out) && want == Want::Pause(PENALTY_MS),
            },
        }
    }
}

/// Whether a slot holds after a move what it held before it, but for a
/// frame counter that may have gone up.
pub open spec fn spec_moved_on(before: Option<Subscription>, after: Option<Subscription>) -> bool {
    ||| after == before
    ||| (before matches Some(a) && after matches Some(b) && b == (Subscription {
        curr_frame: b.curr_frame,
        ..a
    }) && b.curr_frame >= a.curr_frame)
}

/// Whether the frame counter of a channel did not go down in a slot: where
/// the slot holds a subscription for the same channel before and after,
/// the counter after is at least the counter before.
pub open spec fn spec_counter_kept(before: Option<Subscription>, after: Option<Subscription>) -> bool {
    before matches Some(a) ==> (after matches Some(b) ==> (a.channel == b.channel ==> b.curr_frame
        >= a.curr_frame))
}

/// `link` after the pages of the slots below `upto` were loaded: a
/// diagnostic for each empty page.
pub open spec fn spec_load_notes(link: Link, mem: Seq<u8>, upto: int) -> Link
    decreases upto,
{
    if upto <= 0 {
        link
    } else {
        let before = spec_load_notes(link, mem, upto - 1);
        if crate::subscription::spec_blank(crate::subscription::spec_slot_record(mem, upto - 1)) {
            spec_emit(before, spec_frame(OP_DEBUG, spec_empty_slot_note()))
        } else {
            before
        }
    }
}

impl Decoder {
    /// The flash and the build's material are whole, the place in the
    /// protocol is a possible one, and an install that is under way goes
    /// into the slot of its channel.
    pub open spec fn wf(&self) -> bool {
        self.flash.wf() && self.resources.wf() && self.phase.wf() && self.install_fits()
    }

    /// While an install is under way, the channel that its record names
    /// is the one that installs into its slot. Before the first block is
    /// written the block itself names the channel and the place for it in
    /// the page is erased; from then on the page names it.
    pub open spec fn install_fits(&self) -> bool {
        match self.phase {
            Phase::InstallChunk { index, total, length, slot } => index > 0 ==> spec_names_slot(
                self.resources.channels@,
                spec_page_head(self.flash@, slot),
                slot,
            ),
            Phase::InstallWriteProbe { index, total, length, slot, chunk } => if index == 0 {
                &&& spec_names_slot(self.resources.channels@, chunk@.subrange(0, 4), slot)
                &&& forall|i: int|
                    (slot - 1) * SUB_SPACE <= i < (slot - 1) * SUB_SPACE + 256 ==> self.flash@[i]
                        == 0xFF
            } else {
                spec_names_slot(self.resources.channels@, spec_page_head(self.flash@, slot), slot)
            },
            _ => true,
        }
    }

    /// Answers a failed probe: reports it, and leaves the harmless answer
    /// for after the pause.
    fn fail_probe(&mut self, console: &mut Console, reply: Reply)
        requires
            old(console).wf(),
            old(self).flash.wf(),
            old(self).resources.wf(),
        ensures
            final(console).wf(),
            final(self).wf(),
            spec_kept(*old(self), *final(self)),
            final(self).phase == (Phase::Penalty { reply }),
            final(console)@ == spec_report(old(console)@, Note::IntegrityFailed),
    {
        write_err(console, note_text(Note::IntegrityFailed).as_bytes());
        self.phase = Phase::Penalty { reply };
    }

    /// Reads a header and starts on the request that it announces.
    fn on_header(&mut self, console: &mut Console, header: &[u8; 4])
        requires
            old(console).wf(),
            old(self).flash.wf(),
            old(self).resources.wf(),
        ensures
            final(console).wf(),
            final(self).wf(),
            spec_kept(*old(self), *final(self)),
            spec_on_header(old(console)@, header@, final(console)@, final(self).phase),
    {
        match parse_header(header) {
            Err(HeaderError::BadMagic) => {
                write_console(console, note_text(Note::NotMagic).as_bytes());
                write_console(console, header.as_slice());
                self.phase = Phase::Header;
            },
            Err(HeaderError::BadOpcode) => {
                write_console(console, note_text(Note::NotOpcode).as_bytes());
                write_console(console, header.as_slice());
                self.phase = Phase::Header;
            },
            Ok((opcode, length)) => {
                let total = chunk_count(length);
                if opcode == OP_LIST {
                    ack(console);
                    self.phase = Phase::ListProbe;
                } else if opcode == OP_SUBSCRIBE {
                    ack(console);
                    if total == 0 {
                        write_err(console, note_text(Note::EmergencyInstall).as_bytes());
                        self.phase = Phase::Header;
                    } else {
                        self.phase = Phase::InstallChunk { index: 0, total, length, slot: 0 };
                    }
                } else if opcode == OP_DECODE {
                    ack(console);
                    let request = [0u8; 140];
                    assert(request@ =~= Seq::new(140, |i: int| 0u8));
                    if total == 0 {
                        self.phase = Phase::DecodeEntryProbe { length, request };
                    } else {
                        self.phase = Phase::DecodeChunk { index: 0, total, length, request };
                    }
                } else if opcode == OP_ACK {
                    self.phase = Phase::Header;
                } else {
                    let mut report: Vec<u8> = Vec::new();
                    push_all(&mut report, "Unknown opcode: ".as_bytes());
                    push_decimal(&mut report, opcode as u32);
                    write_err(console, report.as_slice());
                    self.phase = Phase::Header;
                }
            },
        }
    }

    /// List, after the probe: the listing if the probe was sound.
    fn on_list_probe(&mut self, console: &mut Console, sound: bool)
        requires
            old(console).wf(),
            old(self).flash.wf(),
            old(self).resources.wf(),
        ensures
            final(console).wf(),
            final(self).wf(),
            spec_kept(*old(self), *final(self)),
            spec_on_list_probe(
                old(self).subscriptions@,
                old(console)@,
                sound,
                final(console)@,
                final(self).phase,
            ),
    {
        if !sound {
            self.fail_probe(console, Reply::List);
            return ;
        }
        let rows = get_subscriptions(&self.subscriptions);
        proof {
            lemma_listing_short(self.subscriptions@, 9);
        }
        let payload = listing_payload(&rows);
        write_comm(console, payload.as_slice(), OP_LIST);
        self.phase = Phase::Header;
    }

    /// After the pause that follows a failed probe: the harmless answer.
    fn on_penalty(&mut self, console: &mut Console, reply: Reply)
        requires
            old(console).wf(),
            old(self).flash.wf(),
            old(self).resources.wf(),
        ensures
            final(console).wf(),
            final(self).wf(),
            spec_kept(*old(self), *final(self)),
            final(self).phase is Header,
            final(console)@ == spec_reply(old(console)@, reply),
    {
        match reply {
            Reply::List => {
                let zeros: [u8; 4] = [0, 0, 0, 0];
                assert(zeros@ =~= seq![0u8, 0u8, 0u8, 0u8]);
                write_comm(console, zeros.as_slice(), OP_LIST);
            },
            Reply::Install => {
                let empty: [u8; 0] = [];
                assert(empty@ =~= Seq::<u8>::empty());
                write_comm(console, empty.as_slice(), OP_SUBSCRIBE);
            },
            Reply::Decode => {
                let empty: [u8; 0] = [];
                assert(empty@ =~= Seq::<u8>::empty());
                write_comm(console, empty.as_slice(), OP_DECODE);
            },
            Reply::DecodeZero => {
                let empty: [u8; 0] = [];
                assert(empty@ =~= Seq::<u8>::empty());
                write_comm(console, empty.as_slice(), OP_DECODE);
                let zeros = [0u8; 64];
                assert(zeros@ =~= Seq::new(64, |i: int| 0u8));
                write_comm(console, zeros.as_slice(), OP_DECODE);
            },
        }
        self.phase = Phase::Header;
    }

    /// Takes in a block of an install request.
    fn on_install_chunk(&mut self, console: &mut Console, index: u32, total: u32, length: u16, slot: u32)
        requires
            old(console).wf(),
            old(self).wf(),
            old(self).phase == (Phase::InstallChunk { index, total, length, slot }),
            old(console)@.input.len() >= spec_chunk_size(length, index),
        ensures
            final(console).wf(),
            final(self).wf(),
            spec_kept(*old(self), *final(self)),
            spec_on_install_chunk(
                old(console)@,
                index,
                total,
                length,
                slot,
                final(console)@,
                final(self).phase,
            ),
    {
        let size = chunk_size(length, index);
        let bytes = console.read_block(size);
        let chunk = pad_256(bytes.as_slice());
        if index == 0 {
            self.phase = Phase::InstallEntryProbe { total, length, chunk };
        } else {
            self.phase = Phase::InstallWriteProbe { index, total, length, slot, chunk };
        }
    }

    /// Install, after the first probe: reads the channel of the request
    /// and erases the page of its slot.
    fn on_install_entry(
        &mut self,
        console: &mut Console,
        sound: bool,
        total: u32,
        length: u16,
        chunk: &[u8; 256],
    )
        requires
            old(console).wf(),
            old(self).flash.wf(),
            old(self).resources.wf(),
            (Phase::InstallEntryProbe { total, length, chunk: *chunk }).wf(),
        ensures
            final(console).wf(),
            final(self).wf(),
            spec_on_install_entry(
                *old(self),
                old(console)@,
                sound,
                total,
                length,
                chunk@,
                *final(self),
                final(console)@,
            ),
    {
        if !sound {
            self.fail_probe(console, Reply::Install);
            return ;
        }
        let channel_id = be_u32(chunk.as_slice(), 0);
        if channel_id == 0 {
            write_err(console, note_text(Note::EmergencyInstall).as_bytes());
            self.phase = Phase::Header;
            return ;
        }
        match get_subscription_for_channel(channel_id, &self.resources.channels) {
            None => {
                write_err(console, note_text(Note::NoSuchChannel).as_bytes());
                self.phase = Phase::Header;
            },
            Some(slot) => {
                let mut text: Vec<u8> = Vec::new();
                push_all(&mut text, "Channel: ".as_bytes());
                push_decimal(&mut text, slot);
                write_console(console, text.as_slice());
                let pos: u32 = SUB_LOC + (slot - 1) * SUB_SPACE;
                match self.flash.erase_page(pos) {
                    Err(e) => {
                        write_err(console, map_err(e).as_bytes());
                    },
                    Ok(()) => {},
                }
                self.phase = Phase::InstallWriteProbe { index: 0, total, length, slot, chunk: *chunk };
            },
        }
    }

    /// Install, after the probe before a write: writes the block and
    /// acknowledges it; behind the last block, loads the slot again and
    /// answers the request.
    fn on_install_write(
        &mut self,
        console: &mut Console,
        sound: bool,
        index: u32,
        total: u32,
        length: u16,
        slot: u32,
        chunk: &[u8; 256],
    )
        requires
            old(console).wf(),
            old(self).wf(),
            old(self).phase == (Phase::InstallWriteProbe {
                index,
                total,
                length,
                slot,
                chunk: *chunk,
            }),
        ensures
            final(console).wf(),
            final(self).wf(),
            spec_on_install_write(
                *old(self),
                old(console)@,
                sound,
                index,
                total,
                length,
                slot,
                chunk@,
                *final(self),
                final(console)@,
            ),
            sound && index + 1 >= total ==> (final(self).subscriptions@[slot as int] matches Some(s)
                ==> spec_slot_for_channel(final(self).resources.channels@, s.channel) == Some(
                slot,
            )),
    {
        if !sound {
            self.fail_probe(console, Reply::Install);
            return ;
        }
        let pos: u32 = SUB_LOC + (slot - 1) * SUB_SPACE + 256 * index;
        proof {
            let base = (slot - 1) * SUB_SPACE;
            if index == 0 {
                crate::flash::lemma_write_words_erased(old(self).flash@, pos as int, chunk@, 16);
                assert(chunk@.subrange(0, 256).subrange(0, 4) == chunk@.subrange(0, 4));
                assert(spec_page_head(
                    crate::flash::spec_overlay(old(self).flash@, base, chunk@.subrange(0, 256)),
                    slot,
                ) == chunk@.subrange(0, 4));
            } else {
                crate::flash::lemma_write_words_keeps(old(self).flash@, pos as int, chunk@, 16);
                assert(spec_page_head(
                    spec_write_words(old(self).flash@, pos as int, chunk@, 16).0,
                    slot,
                ) == spec_page_head(old(self).flash@, slot));
            }
        }
        match write_bytes(&mut self.flash, pos, chunk.as_slice(), 256) {
            Err(e) => {
                write_err(console, map_err(e).as_bytes());
            },
            Ok(()) => {},
        }
        ack(console);
        if index + 1 < total {
            self.phase = Phase::InstallChunk { index: index + 1, total, length, slot };
            return ;
        }
        let fresh = load_subscription(console, &self.flash, (slot - 1) as usize);
        let loaded = carry_counter(self.subscriptions[slot as usize], fresh);
        proof {
            assert(crate::subscription::spec_slot_record(self.flash@, slot - 1).subrange(0, 4)
                == spec_page_head(self.flash@, slot));
        }
        self.subscriptions[slot as usize] = loaded;
        if loaded.is_none() {
            write_err(console, note_text(Note::LoadFailed).as_bytes());
        }
        let empty: [u8; 0] = [];
        assert(empty@ =~= Seq::<u8>::empty());
        write_comm(console, empty.as_slice(), OP_SUBSCRIBE);
        self.phase = Phase::Header;
    }

    /// Takes in a block of a decode request and acknowledges it.
    fn on_decode_chunk(
        &mut self,
        console: &mut Console,
        index: u32,
        total: u32,
        length: u16,
        request: &[u8; 140],
    )
        requires
            old(console).wf(),
            old(self).flash.wf(),
            old(self).resources.wf(),
            (Phase::DecodeChunk { index, total, length, request: *request }).wf(),
            old(console)@.input.len() >= spec_chunk_size(length, index),
        ensures
            final(console).wf(),
            final(self).wf(),
            spec_kept(*old(self), *final(self)),
            spec_on_decode_chunk(
                old(console)@,
                index,
                total,
                length,
                request@,
                final(console)@,
                final(self).phase,
            ),
    {
        let size = chunk_size(length, index);
        let bytes = console.read_block(size);
        let kept: [u8; 140] = if index == 0 {
            pad_140(bytes.as_slice())
        } else {
            *request
        };
        ack(console);
        if index + 1 < total {
            self.phase = Phase::DecodeChunk { index: index + 1, total, length, request: kept };
        } else {
            self.phase = Phase::DecodeEntryProbe { length, request: kept };
        }
    }

    /// Admits or refuses a decode request: the channel must have a
    /// subscription, the timestamp must lie in its window and behind
    /// every timestamp decoded before. An admitted request moves the
    /// subscription on to the timestamp behind it.
    pub fn decode_subroutine(&mut self, console: &mut Console, request: &[u8; 140]) -> (admitted:
        Option<Subscription>)
        requires
            old(console).wf(),
        ensures
            final(console).wf(),
            final(self).flash == old(self).flash,
            final(self).resources == old(self).resources,
            final(self).verifier == old(self).verifier,
            final(self).phase == old(self).phase,
            spec_decode_subroutine(
                old(self).subscriptions@,
                old(console)@,
                request@,
                final(self).subscriptions@,
                final(console)@,
                admitted,
            ),
    {
        let channel = be_u32(request.as_slice(), 0);
        let timestamp = be_u64(request.as_slice(), 4);
        let mut found: Option<usize> = None;
        let mut i: usize = 0;
        while i < 9 && found.is_none()
            invariant
                i <= 9,
                found matches Some(slot) ==> slot < 9 && self.subscriptions@[slot as int] is Some,
                self.subscriptions == old(self).subscriptions,
                spec_find(self.subscriptions@, channel, i as int) == match found {
                    Some(slot) => Some(slot as int),
                    None => None::<int>,
                },
            decreases 9 - i + if found is None { 1int } else { 0int },
        {
            match self.subscriptions[i] {
                Some(sub) => {
                    if sub.channel == channel {
                        found = Some(i);
                    }
                },
                None => {},
            }
            i += 1;
        }
        proof {
            if found is Some {
                lemma_find_stays(self.subscriptions@, channel, i as int, 9);
            }
        }
        let slot = match found {
            None => {
                let name = take_4(request.as_slice(), 0);
                write_console(console, name.as_slice());
                let mut text: Vec<u8> = Vec::new();
                push_decimal(&mut text, channel);
                assert(text@ == spec_decimal_text(channel as nat));
                write_console(console, text.as_slice());
                write_err(console, note_text(Note::NoSubscription).as_bytes());
                return None;
            },
            Some(slot) => slot,
        };
        let mut sub = self.subscriptions[slot].unwrap();
        if sub.start > timestamp {
            write_comm(console, note_text(Note::Fail).as_bytes(), OP_DECODE);
            return None;
        } else if sub.end <= timestamp {
            write_err(console, note_text(Note::TooLate).as_bytes());
            return None;
        }
        if sub.curr_frame > timestamp {
            write_console(console, note_text(Note::OutOfOrder).as_bytes());
            write_comm(console, note_text(Note::Fail).as_bytes(), OP_DECODE);
            return None;
        }
        sub.curr_frame = timestamp + 1;
        self.subscriptions[slot] = Some(sub);
        Some(sub)
    }

    /// Decode, after the first probe: admits or refuses the request.
    fn on_decode_entry(&mut self, console: &mut Console, sound: bool, length: u16, request: &[u8; 140])
        requires
            old(console).wf(),
            old(self).flash.wf(),
            old(self).resources.wf(),
        ensures
            final(console).wf(),
            final(self).wf(),
            spec_on_decode_entry(
                *old(self),
                old(console)@,
                sound,
                length,
                request@,
                *final(self),
                final(console)@,
            ),
    {
        if !sound {
            self.fail_probe(console, Reply::Decode);
            return ;
        }
        if (length as usize) < REQUEST_LEN {
            write_err(console, note_text(Note::ShortRequest).as_bytes());
            self.phase = Phase::Header;
            return ;
        }
        self.phase = Phase::Header;
        match self.decode_subroutine(console, request) {
            None => {},
            Some(sub) => {
                let timestamp = be_u64(request.as_slice(), 4);
                let signature = take_64(request.as_slice(), 12);
                let frame = take_64(request.as_slice(), 76);
                self.phase = Phase::DecodeKeyProbe { sub, timestamp, signature, frame };
            },
        }
    }

    /// Decode, after the second probe: opens the frame.
    fn on_decode_key(
        &mut self,
        console: &mut Console,
        sound: bool,
        sub: &Subscription,
        timestamp: u64,
        signature: &[u8; 64],
        frame: &[u8; 64],
    )
        requires
            old(console).wf(),
            old(self).flash.wf(),
            old(self).resources.wf(),
        ensures
            final(console).wf(),
            final(self).wf(),
            spec_kept(*old(self), *final(self)),
            spec_on_decode_key(
                *old(self),
                old(console)@,
                sound,
                *sub,
                timestamp,
                signature@,
                frame@,
                final(console)@,
                final(self).phase,
            ),
    {
        if !sound {
            self.fail_probe(console, Reply::DecodeZero);
            return ;
        }
        let plain = sub.decode(&self.flash, &self.resources, frame, timestamp);
        self.phase = Phase::DecodeVerifyProbe { channel: sub.channel, signature: *signature, plain };
    }

    /// Decode, after the third probe: verifies the signature of the open
    /// frame and sends the frame if it verifies.
    fn on_decode_verify(
        &mut self,
        console: &mut Console,
        sound: bool,
        channel: u32,
        signature: &[u8; 64],
        plain: &[u8; 64],
    )
        requires
            old(console).wf(),
            old(self).flash.wf(),
            old(self).resources.wf(),
        ensures
            final(console).wf(),
            final(self).wf(),
            spec_kept(*old(self), *final(self)),
            spec_on_decode_verify(
                old(self).verifier@,
                old(console)@,
                sound,
                channel,
                signature@,
                plain@,
                final(console)@,
                final(self).phase,
            ),
    {
        if !sound {
            self.fail_probe(console, Reply::DecodeZero);
            return ;
        }
        let mut name: Vec<u8> = Vec::new();
        crate::bytes::push_be_u32(&mut name, channel);
        let context = take_4(name.as_slice(), 0);
        assert(context@ == spec_be_bytes_u32(channel));
        if verify_prehashed(&self.verifier, &context, plain, signature) {
            write_comm(console, plain.as_slice(), OP_DECODE);
        } else {
            write_err(console, note_text(Note::Spoofed).as_bytes());
        }
        self.phase = Phase::Header;
    }
}

/// Hands the frame counter of the subscription that a slot held on to the
/// one that was loaded into it, if both are for the same channel.
pub fn carry_counter(before: Option<Subscription>, fresh: Option<Subscription>) -> (kept: Option<
    Subscription,
>)
    ensures
        kept == spec_carried(before, fresh),
{
    match fresh {
        None => None,
        Some(loaded) => match before {
            Some(held) => {
                if held.channel == loaded.channel {
                    let mut kept = loaded;
                    kept.curr_frame = held.curr_frame;
                    Some(kept)
                } else {
                    Some(loaded)
                }
            },
            None => Some(loaded),
        },
    }
}

/// Bytes in block `index` of a payload of `length` bytes.
pub fn chunk_size(length: u16, index: u32) -> (size: usize)
    requires
        index < spec_chunk_count(length as nat),
    ensures
        size == spec_chunk_size(length, index),
        1 <= size <= 256,
{
    let from: u32 = 256 * index;
    if length as u32 - from < 256 {
        (length as u32 - from) as usize
    } else {
        256
    }
}

/// Once a subscription is found, looking at more slots changes nothing.
pub proof fn lemma_find_stays(table: Seq<Option<Subscription>>, channel: u32, at: int, upto: int)
    requires
        0 <= at <= upto,
        spec_find(table, channel, at) is Some,
    ensures
        spec_find(table, channel, upto) == spec_find(table, channel, at),
    decreases upto - at,
{
    if at < upto {
        lemma_find_stays(table, channel, at, upto - 1);
    }
}

/// A listing of the slots below `upto` has fewer rows than `upto`.
pub proof fn lemma_listing_short(table: Seq<Option<Subscription>>, upto: int)
    requires
        upto >= 1,
    ensures
        spec_listing(table, upto).len() < upto,
    decreases upto,
{
    if upto > 1 {
        lemma_listing_short(table, upto - 1);
    }
}

/// A subscription that is found stands in one of the slots looked at.
pub proof fn lemma_find_is_slot(table: Seq<Option<Subscription>>, channel: u32, upto: int)
    ensures
        spec_find(table, channel, upto) matches Some(slot) ==> 0 <= slot < upto && (
        table[slot] matches Some(sub) && sub.channel == channel),
    decreases upto,
{
    if upto > 0 {
        lemma_find_is_slot(table, channel, upto - 1);
    }
}

/// The admission of a decode request leaves every slot as it was, but for
/// the frame counter of the subscription that it admits, which goes up.
pub proof fn lemma_admission_moves_on(
    table: Seq<Option<Subscription>>,
    link: Link,
    request: Seq<u8>,
    after: Seq<Option<Subscription>>,
    out: Link,
    admitted: Option<Subscription>,
)
    requires
        table.len() == 9,
        spec_decode_subroutine(table, link, request, after, out, admitted),
    ensures
        forall|i: int| 0 <= i < 9 ==> spec_moved_on(table[i], #[trigger] after[i]),
{
    let channel = spec_be_u32(request.subrange(0, 4)) as u32;
    lemma_find_is_slot(table, channel, 9);
}

/// Loads the subscription table: the slots 1 to 8 from their flash
/// pages, then the emergency subscription into slot 0.
pub fn load_subscriptions(console: &mut Console, flc: &Flash, resources: &Resources) -> (table: [Option<
    Subscription,
>; 9])
    requires
        old(console).wf(),
        flc.wf(),
        resources.wf(),
    ensures
        final(console).wf(),
        forall|i: int| 1 <= i < 9 ==> spec_loaded(flc@, i - 1, #[trigger] table@[i]),
        table@[0] is Some <==> spec_be_u32(resources.emergency@.subrange(0, 4)) == 0,
        table@[0] matches Some(s) ==> spec_is_record(
            s,
            resources.emergency@.subrange(0, REQUIRED_MEMORY as int),
            0,
        ),
        final(console)@ == if table@[0] is Some {
            spec_load_notes(old(console)@, flc@, 8)
        } else {
            spec_emit(
                spec_load_notes(old(console)@, flc@, 8),
                spec_frame(OP_DEBUG, spec_bad_emergency_note()),
            )
        },
{
    let mut table: [Option<Subscription>; 9] = [None;9];
    let mut i: usize = 1;
    while i < 9
        invariant
            1 <= i <= 9,
            console.wf(),
            flc.wf(),
            forall|k: int| 1 <= k < i ==> spec_loaded(flc@, k - 1, #[trigger] table@[k]),
            console@ == spec_load_notes(old(console)@, flc@, i - 1),
        decreases 9 - i,
    {
        let loaded = load_subscription(console, flc, i - 1);
        table[i] = loaded;
        i += 1;
    }
    let emergency = load_emergency_subscription(console, resources.emergency.as_slice());
    table[0] = emergency;
    table
}

impl Decoder {
    /// Brings the decoder up. Where the preceding boot stage is not a
    /// known one, this is said in a diagnostic, the table stays empty and
    /// the verifying key is zero, so that nothing can be decoded.
    /// Otherwise the table is loaded, and the decoder comes up if the
    /// verifying key is the encoding of a curve point. Where every page
    /// that holds a record holds one for the channel of its slot, every
    /// subscription of the table stands in the slot of its channel.
    pub fn boot(
        console: &mut Console,
        flash: Flash,
        resources: Resources,
        public: &[u8; 32],
        stage_known: bool,
    ) -> (decoder: Option<Decoder>)
        requires
            old(console).wf(),
            flash.wf(),
            resources.wf(),
        ensures
            final(console).wf(),
            decoder is Some <==> !stage_known || ed25519_key_decodes(public@),
            decoder matches Some(d) ==> {
                &&& d.wf()
                &&& d.phase is Header
                &&& d.flash == flash
                &&& d.resources == resources
                &&& if stage_known {
                    &&& d.verifier == *public
                    &&& forall|i: int|
                        1 <= i < 9 ==> spec_loaded(flash@, i - 1, #[trigger] d.subscriptions@[i])
                    &&& d.subscriptions@[0] is Some <==> spec_be_u32(
                        resources.emergency@.subrange(0, 4),
                    ) == 0
                    &&& d.subscriptions@[0] matches Some(s) ==> spec_is_record(
                        s,
                        resources.emergency@.subrange(0, REQUIRED_MEMORY as int),
                        0,
                    )
                } else {
                    &&& d.verifier@ == Seq::new(32, |i: int| 0u8)
                    &&& forall|i: int| 0 <= i < 9 ==> (#[trigger] d.subscriptions@[i]) is None
                }
            },
            decoder matches Some(d) ==> ((forall|k: int|
                1 <= k < 9 && !crate::subscription::spec_blank(
                    crate::subscription::spec_slot_record(flash@, k - 1),
                ) ==> spec_names_slot(
                    resources.channels@,
                    #[trigger] spec_page_head(flash@, k as u32),
                    k as u32,
                )) ==> spec_aligned(d.subscriptions@, d.resources.channels@)),
            final(console)@ == if !stage_known {
                spec_say(old(console)@, Note::UnknownStage)
            } else if spec_be_u32(resources.emergency@.subrange(0, 4)) == 0 {
                spec_load_notes(old(console)@, flash@, 8)
            } else {
                spec_emit(
                    spec_load_notes(old(console)@, flash@, 8),
                    spec_frame(OP_DEBUG, spec_bad_emergency_note()),
                )
            },
    {
        if !stage_known {
            write_console(console, note_text(Note::UnknownStage).as_bytes());
            let verifier = [0u8; 32];
            assert(verifier@ =~= Seq::new(32, |i: int| 0u8));
            let subscriptions: [Option<Subscription>; 9] = [None;9];
            return Some(Decoder { subscriptions, flash, resources, verifier, phase: Phase::Header });
        }
        let subscriptions = load_subscriptions(console, &flash, &resources);
        proof {
            let table = subscriptions@;
            let head = resources.emergency@.subrange(0, REQUIRED_MEMORY as int);
            assert(head.subrange(0, 4) == resources.emergency@.subrange(0, 4));
            if forall|k: int|
                1 <= k < 9 && !crate::subscription::spec_blank(
                    crate::subscription::spec_slot_record(flash@, k - 1),
                ) ==> spec_names_slot(
                    resources.channels@,
                    #[trigger] spec_page_head(flash@, k as u32),
                    k as u32,
                ) {
                assert forall|k: int| 1 <= k < 9 implies ((#[trigger] table[k]) matches Some(s)
                    ==> spec_slot_for_channel(resources.channels@, s.channel) == Some(
                    k as u32,
                )) by {
                    if table[k] is Some {
                        assert(spec_loaded(flash@, k - 1, table[k]));
                        assert(crate::subscription::spec_slot_record(flash@, k - 1).subrange(0, 4)
                            == spec_page_head(flash@, k as u32));
                        assert(spec_names_slot(
                            resources.channels@,
                            spec_page_head(flash@, k as u32),
                            k as u32,
                        ));
                    }
                }
                assert(spec_aligned(table, resources.channels@));
            }
        }
        match load_verification_key(public) {
            None => None,
            Some(verifier) => Some(
                Decoder { subscriptions, flash, resources, verifier, phase: Phase::Header },
            ),
        }
    }
}

/// Makes one move: reads whatever has arrived for the place that the
/// decoder stands at, and answers it. The result says what the decoder
/// needs before it can move again.
///
/// Whatever the move, the emergency slot keeps its subscription, and
/// every other slot keeps its own unless this move is the last of an
/// install into that slot. The frame counter of a channel never goes
/// down, not even where an install replaces the subscription of the
/// channel. Where every subscription stood in the slot of its channel
/// before the move, every one does so after it.
pub fn read_resp(decoder: &mut Decoder, console: &mut Console, event: Event) -> (want: Want)
    requires
        old(decoder).wf(),
        old(console).wf(),
    ensures
        final(decoder).wf(),
        final(console).wf(),
        spec_read_resp(*old(decoder), old(console)@, event, *final(decoder), final(console)@, want),
        spec_moved_on(old(decoder).subscriptions@[0], final(decoder).subscriptions@[0]),
        forall|i: int|
            1 <= i < 9 ==> spec_moved_on(
                old(decoder).subscriptions@[i],
                #[trigger] final(decoder).subscriptions@[i],
            ) || (old(decoder).phase matches Phase::InstallWriteProbe { slot, .. } && slot == i),
        forall|i: int|
            0 <= i < 9 ==> spec_counter_kept(
                old(decoder).subscriptions@[i],
                #[trigger] final(decoder).subscriptions@[i],
            ),
        spec_aligned(old(decoder).subscriptions@, old(decoder).resources.channels@)
            ==> spec_aligned(final(decoder).subscriptions@, final(decoder).resources.channels@),
{
    if console.waiting() > 0 {
        let starved = console.available() == 0;
        console.settle();
        return if starved {
            Want::Input
        } else {
            Want::Again
        };
    }
    let phase = decoder.phase;
    match phase {
        Phase::Header => {
            if console.available() < 4 {
                return Want::Input;
            }
            let bytes = console.read_block(4);
            let header = take_4(bytes.as_slice(), 0);
            assert(header@ == old(console)@.input.subrange(0, 4));
            decoder.on_header(console, &header);
            Want::Again
        },
        Phase::ListProbe => match event {
            Event::Probe { value, product } => {
                let sound = crate::integrity::test(value, product);
                decoder.on_list_probe(console, sound);
                Want::Again
            },
            _ => Want::Probe,
        },
        Phase::InstallChunk { index, total, length, slot } => {
            if console.available() < chunk_size(length, index) {
                return Want::Input;
            }
            decoder.on_install_chunk(console, index, total, length, slot);
            Want::Again
        },
        Phase::InstallEntryProbe { total, length, chunk } => match event {
            Event::Probe { value, product } => {
                let sound = crate::integrity::test(value, product);
                decoder.on_install_entry(console, sound, total, length, &chunk);
                Want::Again
            },
            _ => Want::Probe,
        },
        Phase::InstallWriteProbe { index, total, length, slot, chunk } => match event {
            Event::Probe { value, product } => {
                let sound = crate::integrity::test(value, product);
                decoder.on_install_write(console, sound, index, total, length, slot, &chunk);
                Want::Again
            },
            _ => Want::Probe,
        },
        Phase::DecodeChunk { index, total, length, request } => {
            if console.available() < chunk_size(length, index) {
                return Want::Input;
            }
            decoder.on_decode_chunk(console, index, total, length, &request);
            Want::Again
        },
        Phase::DecodeEntryProbe { length, request } => match event {
            Event::Probe { value, product } => {
                let sound = crate::integrity::test(value, product);
                decoder.on_decode_entry(console, sound, length, &request);
                proof {
                    if sound && length >= REQUEST_LEN {
                        let admitted = match decoder.phase {
                            Phase::DecodeKeyProbe { sub, .. } => Some(sub),
                            _ => None,
                        };
                        lemma_admission_moves_on(
                            old(decoder).subscriptions@,
                            old(console)@,
                            request@,
                            decoder.subscriptions@,
                            console@,
                            admitted,
                        );
                    }
                }
                Want::Again
            },
            _ => Want::Probe,
        },
        Phase::DecodeKeyProbe { sub, timestamp, signature, frame } => match event {
            Event::Probe { value, product } => {
                let sound = crate::integrity::test(value, product);
                decoder.on_decode_key(console, sound, &sub, timestamp, &signature, &frame);
                Want::Again
            },
            _ => Want::Probe,
        },
        Phase::DecodeVerifyProbe { channel, signature, plain } => match event {
            Event::Probe { value, product } => {
                let sound = crate::integrity::test(value, product);
                decoder.on_decode_verify(console, sound, channel, &signature, &plain);
                Want::Again
            },
            _ => Want::Probe,
        },
        Phase::Penalty { reply } => match event {
            Event::Resumed => {
                decoder.on_penalty(console, reply);
                Want::Again
            },
            _ => Want::Pause(PENALTY_MS),
        },
    }
}

} // verus!
