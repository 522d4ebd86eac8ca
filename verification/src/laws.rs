//! What holds of the decoder over more than one move: the order of the
//! frames of a channel, the rows of a listing, and the run of an install
//! from its header to the listing that shows it.

use vstd::prelude::*;
use crate::bytes::{spec_be_u32, spec_be_u64, spec_le_bytes_u32, spec_le_bytes_u64, spec_padded};
use crate::console::{spec_ack, spec_chunk_count, spec_emit, spec_frame, spec_header, spec_join};
use crate::console::{spec_write_comm, Link, OP_DEBUG, OP_DECODE, OP_LIST, OP_SUBSCRIBE};
use crate::dispatcher::{spec_advanced, spec_aligned, spec_carried, spec_chunk_address};
use crate::dispatcher::{spec_counter_kept, spec_decode_subroutine, spec_find, spec_fresh};
use crate::dispatcher::{spec_kept, spec_listing_payload, spec_names_slot, spec_note, spec_read};
use crate::dispatcher::{spec_read_resp, spec_report, spec_row_bytes, spec_rows_bytes};
use crate::dispatcher::{spec_slot_for_channel, spec_slot_note, spec_sound, spec_verdict};
use crate::dispatcher::{Decoder, Event, Note, Phase, Verdict, Want};
use crate::flash::{lemma_write_words_erased, spec_erase, spec_overlay, spec_write_words};
use crate::flash::{SUB_LOC, SUB_REGION, SUB_SPACE};
use crate::resources::lemma_channel_loc_found;
use crate::subscription::{spec_blank, spec_is_record, spec_listing, spec_loaded};
use crate::subscription::{spec_slot_record, spec_stat, SubStat, Subscription, REQUIRED_MEMORY};

verus! {

/// A request whose timestamp lies outside the window of its subscription
/// is never admitted: it is answered with the refusal or with an error
/// report, nothing else is written, and the table stays as it was.
pub proof fn lemma_outside_window_refused(
    table: Seq<Option<Subscription>>,
    link: Link,
    request: Seq<u8>,
    after: Seq<Option<Subscription>>,
    out: Link,
    admitted: Option<Subscription>,
)
    requires
        spec_decode_subroutine(table, link, request, after, out, admitted),
        spec_find(table, spec_be_u32(request.subrange(0, 4)) as u32, 9) matches Some(slot) && {
            let sub = table[slot]->0;
            let timestamp = spec_be_u64(request.subrange(4, 12)) as u64;
            timestamp < sub.start || timestamp >= sub.end
        },
    ensures
        admitted is None,
        after == table,
        out == spec_write_comm(link, spec_note(Note::Fail), OP_DECODE) || out == spec_report(
            link,
            Note::TooLate,
        ),
{
}

/// Frames are decoded in the order of their timestamps. Once the frame
/// of `first` was admitted, no timestamp up to `first` is admitted again:
/// inside the window it is refused as a replay. Every later timestamp
/// before the end of the window is still admitted.
pub proof fn lemma_frames_in_order(sub: Subscription, first: u64, other: u64)
    requires
        spec_verdict(sub, first) == Verdict::Admit,
    ensures
        other <= first ==> spec_verdict(spec_advanced(sub, first), other) == if other < sub.start {
            Verdict::Early
        } else {
            Verdict::Replay
        },
        first < other < sub.end ==> spec_verdict(spec_advanced(sub, first), other)
            == Verdict::Admit,
{
}

/// Number of the slots from 1 up to, not including, `upto` that hold a
/// subscription.
pub open spec fn spec_occupied(table: Seq<Option<Subscription>>, upto: int) -> nat
    decreases upto,
{
    if upto <= 1 {
        0
    } else {
        spec_occupied(table, upto - 1) + if table[upto - 1] is Some {
            1nat
        } else {
            0nat
        }
    }
}

/// A listing has one row for each occupied slot, in the order of the
/// slots: the row of a slot stands behind the rows of the occupied slots
/// before it, and shows the channel and the window of its subscription.
pub proof fn lemma_listing_rows(table: Seq<Option<Subscription>>, upto: int)
    requires
        1 <= upto <= table.len(),
    ensures
        spec_listing(table, upto).len() == spec_occupied(table, upto),
        forall|k: int|
            #![trigger table[k]]
            1 <= k < upto && table[k] is Some ==> spec_occupied(table, k) < spec_occupied(
                table,
                upto,
            ) && spec_listing(table, upto)[spec_occupied(table, k) as int] == spec_stat(
                table[k]->0,
            ),
    decreases upto,
{
    if upto > 1 {
        lemma_listing_rows(table, upto - 1);
        let before = spec_listing(table, upto - 1);
        let rows = spec_listing(table, upto);
        assert forall|k: int|
            #![trigger table[k]]
            1 <= k < upto && table[k] is Some implies spec_occupied(table, k) < spec_occupied(
            table,
            upto,
        ) && rows[spec_occupied(table, k) as int] == spec_stat(table[k]->0) by {
            if k < upto - 1 {
                assert(spec_occupied(table, k) < before.len());
                assert(before[spec_occupied(table, k) as int] == spec_stat(table[k]->0));
                assert(rows[spec_occupied(table, k) as int] == before[spec_occupied(
                    table,
                    k,
                ) as int]);
            }
        }
    }
}

/// Number of the first `count` rows that are for `channel`.
pub open spec fn spec_rows_for(rows: Seq<SubStat>, channel: u32, count: nat) -> nat
    decreases count,
{
    if count == 0 {
        0
    } else {
        spec_rows_for(rows, channel, (count - 1) as nat) + if rows[count - 1].channel == channel {
            1nat
        } else {
            0nat
        }
    }
}

/// Once a subscription stands in its slot, a listing shows its channel
/// exactly once, provided that no other listed slot holds a subscription
/// for the same channel. What the slot held before does not matter: a
/// second install into the slot replaces the first.
pub proof fn lemma_installed_listed_once(
    table: Seq<Option<Subscription>>,
    slot: int,
    sub: Subscription,
    upto: int,
)
    requires
        1 <= slot < upto <= table.len(),
        forall|k: int|
            1 <= k < table.len() && k != slot && (#[trigger] table[k]) is Some ==> table[k]->0.channel
                != sub.channel,
    ensures
        ({
            let rows = spec_listing(table.update(slot, Some(sub)), upto);
            spec_rows_for(rows, sub.channel, rows.len()) == 1
        }),
    decreases upto,
{
    let installed = table.update(slot, Some(sub));
    let rows = spec_listing(installed, upto);
    let before = spec_listing(installed, upto - 1);
    if upto - 1 > slot {
        lemma_installed_listed_once(table, slot, sub, upto - 1);
        if installed[upto - 1] is Some {
            assert(table[upto - 1] is Some);
            lemma_rows_for_push(before, spec_stat(installed[upto - 1]->0), sub.channel);
        }
    } else {
        lemma_not_listed(table, installed, sub.channel, slot);
        lemma_rows_for_push(before, spec_stat(sub), sub.channel);
    }
}

/// A listing of slots that hold nothing for `channel` has no row for it.
proof fn lemma_not_listed(
    table: Seq<Option<Subscription>>,
    installed: Seq<Option<Subscription>>,
    channel: u32,
    upto: int,
)
    requires
        1 <= upto <= table.len(),
        installed.len() == table.len(),
        forall|k: int| 1 <= k < upto ==> installed[k] == table[k],
        forall|k: int|
            1 <= k < upto && (#[trigger] table[k]) is Some ==> table[k]->0.channel != channel,
    ensures
        ({
            let rows = spec_listing(installed, upto);
            spec_rows_for(rows, channel, rows.len()) == 0
        }),
    decreases upto,
{
    if upto > 1 {
        lemma_not_listed(table, installed, channel, upto - 1);
        if installed[upto - 1] is Some {
            assert(table[upto - 1] is Some);
            lemma_rows_for_push(
                spec_listing(installed, upto - 1),
                spec_stat(installed[upto - 1]->0),
                channel,
            );
        }
    }
}

/// A new last row counts if it is for the channel, and leaves the count
/// of the rows before it as it was.
proof fn lemma_rows_for_push(rows: Seq<SubStat>, row: SubStat, channel: u32)
    ensures
        spec_rows_for(rows.push(row), channel, rows.len() + 1) == spec_rows_for(
            rows,
            channel,
            rows.len(),
        ) + if row.channel == channel {
            1nat
        } else {
            0nat
        },
{
    lemma_rows_for_prefix(rows, rows.push(row), channel, rows.len());
}

/// The count of the first rows depends on those rows alone.
proof fn lemma_rows_for_prefix(a: Seq<SubStat>, b: Seq<SubStat>, channel: u32, count: nat)
    requires
        count <= a.len(),
        count <= b.len(),
        forall|i: int| 0 <= i < count ==> a[i] == b[i],
    ensures
        spec_rows_for(a, channel, count) == spec_rows_for(b, channel, count),
    decreases count,
{
    if count > 0 {
        lemma_rows_for_prefix(a, b, channel, (count - 1) as nat);
    }
}

/// The flash after an install into `slot` got as far as its first `count`
/// blocks: the page of the slot erased, then each block written behind
/// the one before it. The flag says whether a block was refused.
pub open spec fn spec_install_image(mem: Seq<u8>, slot: u32, blocks: Seq<Seq<u8>>, count: nat) -> (
    Seq<u8>,
    bool,
)
    decreases count,
{
    if count == 0 {
        (spec_erase(mem, slot - 1), false)
    } else {
        let before = spec_install_image(mem, slot, blocks, (count - 1) as nat);
        let done = spec_write_words(
            before.0,
            spec_chunk_address(slot, (count - 1) as u32),
            blocks[count - 1],
            16,
        );
        (done.0, before.1 || done.1 is Some)
    }
}

/// Blocks of 256 bytes join to a run of 256 bytes for each.
pub proof fn lemma_join_len(blocks: Seq<Seq<u8>>, count: nat)
    requires
        count <= blocks.len(),
        forall|i: int| 0 <= i < count ==> (#[trigger] blocks[i]).len() == 256,
    ensures
        spec_join(blocks, count).len() == 256 * count,
    decreases count,
{
    if count > 0 {
        lemma_join_len(blocks, (count - 1) as nat);
    }
}

/// An install of up to a page never meets a word that needs an erase:
/// whatever the page of the slot held before, no block is refused, and
/// the page then holds the blocks in order and is erased behind them.
/// The other pages stay as they were.
pub proof fn lemma_install_image(mem: Seq<u8>, slot: u32, blocks: Seq<Seq<u8>>, count: nat)
    requires
        mem.len() == SUB_REGION,
        1 <= slot <= 8,
        count <= 32,
        count <= blocks.len(),
        forall|i: int| 0 <= i < count ==> (#[trigger] blocks[i]).len() == 256,
    ensures
        spec_install_image(mem, slot, blocks, count) == (
            spec_overlay(
                spec_erase(mem, slot - 1),
                (slot - 1) * SUB_SPACE,
                spec_join(blocks, count),
            ),
            false,
        ),
    decreases count,
{
    let erased = spec_erase(mem, slot - 1);
    let base = (slot - 1) * SUB_SPACE;
    if count == 0 {
        assert(spec_overlay(erased, base, spec_join(blocks, 0))
            =~= erased);
    } else {
        let n = (count - 1) as nat;
        lemma_install_image(mem, slot, blocks, n);
        lemma_join_len(blocks, n);
        let joined = spec_join(blocks, n);
        let before = spec_overlay(erased, base, joined);
        let address = spec_chunk_address(slot, n as u32);
        let block = blocks[n as int];
        assert(address == SUB_LOC + base + 256 * n);
        lemma_write_words_erased(before, address, block, 16);
        assert(block.subrange(0, 256) =~= block);
        assert(spec_overlay(before, address - SUB_LOC, block)
            =~= spec_overlay(erased, base, joined + block));
    }
}

/// Where every subscription stands in the slot of its channel, a channel
/// stands in no slot but its own.
pub proof fn lemma_aligned_elsewhere(
    table: Seq<Option<Subscription>>,
    channels: Seq<u32>,
    channel: u32,
    slot: u32,
)
    requires
        table.len() == 9,
        channels.len() == 17,
        channels[0] == 0,
        spec_aligned(table, channels),
        spec_slot_for_channel(channels, channel) == Some(slot),
    ensures
        1 <= slot <= 8,
        forall|k: int|
            0 <= k < 9 && k != slot && (#[trigger] table[k]) is Some ==> table[k]->0.channel
                != channel,
{
    lemma_channel_loc_found(channels, 0, 0, 17);
    assert forall|k: int| 0 <= k < 9 && k != slot && (#[trigger] table[k]) is Some implies table[k]->0.channel
        != channel by {
        if k == 0 {
            assert(table[0]->0.channel == 0);
        }
    }
}

/// What an install leaves behind is what a listing shows. Take a table
/// in which every subscription stands in the slot of its channel, and a
/// record of 5 to 32 blocks whose channel installs into `slot` and whose
/// marker byte is not that of an empty page. Once the page of the slot
/// was erased and the blocks were written, the last move of the install
/// puts into the slot the subscription that the record spells, with the
/// frame counter of the subscription that the slot held if that one was
/// for the same channel. No other slot holds the channel then, and a
/// listing has exactly one row for it, with the window of the record.
pub proof fn lemma_installed_record_listed(
    mem: Seq<u8>,
    table: Seq<Option<Subscription>>,
    channels: Seq<u32>,
    slot: u32,
    blocks: Seq<Seq<u8>>,
    count: nat,
    loaded: Option<Subscription>,
)
    requires
        mem.len() == SUB_REGION,
        table.len() == 9,
        channels.len() == 17,
        channels[0] == 0,
        spec_aligned(table, channels),
        5 <= count <= 32,
        count <= blocks.len(),
        forall|i: int| 0 <= i < count ==> (#[trigger] blocks[i]).len() == 256,
        spec_names_slot(channels, spec_join(blocks, count).subrange(0, 4), slot),
        !spec_blank(spec_join(blocks, count)),
        spec_loaded(spec_install_image(mem, slot, blocks, count).0, slot - 1, spec_fresh(loaded)),
        loaded == spec_carried(table[slot as int], spec_fresh(loaded)),
    ensures
        ({
            let record = spec_join(blocks, count);
            let installed = table.update(slot as int, loaded);
            let rows = spec_listing(installed, 9);
            &&& loaded matches Some(sub)
            &&& spec_is_record(
                Subscription { curr_frame: 0, ..sub },
                record.subrange(0, REQUIRED_MEMORY as int),
                (SUB_LOC + (slot - 1) * SUB_SPACE) as usize,
            )
            &&& spec_counter_kept(table[slot as int], loaded)
            &&& spec_aligned(installed, channels)
            &&& forall|k: int|
                0 <= k < 9 && k != slot && (#[trigger] installed[k]) is Some ==> installed[k]->0.channel
                    != sub.channel
            &&& spec_rows_for(rows, sub.channel, rows.len()) == 1
            &&& rows[spec_occupied(installed, slot as int) as int] == spec_stat(sub)
        }),
{
    let record = spec_join(blocks, count);
    lemma_install_image(mem, slot, blocks, count);
    lemma_join_len(blocks, count);
    let image = spec_install_image(mem, slot, blocks, count).0;
    assert(spec_slot_record(image, slot - 1) =~= record.subrange(
        0,
        REQUIRED_MEMORY as int,
    ));
    let head = record.subrange(0, REQUIRED_MEMORY as int);
    assert(head[20] == record[20]);
    assert(!spec_blank(head));
    let sub = loaded->0;
    assert(head.subrange(0, 4) =~= record.subrange(0, 4));
    assert(sub.channel == spec_be_u32(record.subrange(0, 4)));
    lemma_aligned_elsewhere(table, channels, sub.channel, slot);
    lemma_installed_listed_once(table, slot as int, sub, 9);
    let installed = table.update(slot as int, loaded);
    lemma_listing_rows(installed, 9);
    assert(installed[slot as int] == Some(sub));
    assert forall|k: int|
        0 <= k < 9 && k != slot && (#[trigger] installed[k]) is Some implies installed[k]->0.channel
        != sub.channel by {
        assert(installed[k] == table[k]);
    }
    assert(spec_aligned(installed, channels)) by {
        assert forall|k: int| 1 <= k < 9 implies ((#[trigger] installed[k]) matches Some(s)
            ==> spec_slot_for_channel(channels, s.channel) == Some(k as u32)) by {
            if k != slot {
                assert(installed[k] == table[k]);
            }
        }
    }
}

/// `link` after `bytes` arrived on the wire.
pub open spec fn spec_arrived(link: Link, bytes: Seq<u8>) -> Link {
    Link { input: link.input + bytes, ..link }
}

/// Whether `event` is the outcome of a probe that was sound.
pub open spec fn spec_sound_event(event: Event) -> bool {
    event matches Event::Probe { value, product } && spec_sound(value, product)
}

/// Whether nothing waits on a link: no input and no held block.
pub open spec fn spec_quiet(link: Link) -> bool {
    link.input.len() == 0 && link.held.len() == 0
}

/// Whether `now` is the decoder that started an install as `start` and
/// has written the first `index` blocks of it: it waits for block `index`,
/// the flash is the install image so far, and nothing else has changed.
pub open spec fn spec_installing(
    now: Decoder,
    start: Decoder,
    slot: u32,
    blocks: Seq<Seq<u8>>,
    index: u32,
    total: u32,
    length: u16,
) -> bool {
    &&& now.subscriptions == start.subscriptions
    &&& now.resources == start.resources
    &&& now.verifier == start.verifier
    &&& now.flash@ == spec_install_image(start.flash@, slot, blocks, index as nat).0
    &&& now.phase == (Phase::InstallChunk { index, total, length, slot })
}

/// The two moves on a block of an install: the one that takes the block
/// in once it has arrived, and the one on the sound probe behind it.
pub open spec fn spec_block_moves(
    before: Decoder,
    link: Link,
    block: Seq<u8>,
    between: Decoder,
    held: Link,
    probe: Event,
    after: Decoder,
    out: Link,
) -> bool {
    &&& spec_sound_event(probe)
    &&& spec_read_resp(before, spec_arrived(link, block), Event::Tick, between, held, Want::Again)
    &&& spec_read_resp(between, held, probe, after, out, Want::Again)
}

/// The first block of a run of blocks leads their join.
pub proof fn lemma_join_head(blocks: Seq<Seq<u8>>, count: nat)
    requires
        1 <= count <= blocks.len(),
        forall|i: int| 0 <= i < count ==> (#[trigger] blocks[i]).len() == 256,
    ensures
        spec_join(blocks, count).subrange(0, 256) == blocks[0],
    decreases count,
{
    lemma_join_len(blocks, (count - 1) as nat);
    if count > 1 {
        lemma_join_head(blocks, (count - 1) as nat);
        assert(spec_join(blocks, count).subrange(0, 256)
            =~= spec_join(blocks, (count - 1) as nat).subrange(0, 256));
    } else {
        assert(spec_join(blocks, count).subrange(0, 256) =~= blocks[0]);
    }
}

/// The first block of an install, over its three moves: it is taken in,
/// the sound probe before its channel is read erases the page of the
/// channel's slot and names the slot in a diagnostic, and the sound probe
/// before the write writes and acknowledges it.
pub proof fn lemma_install_first_block(
    start: Decoder,
    slot: u32,
    blocks: Seq<Seq<u8>>,
    total: u32,
    length: u16,
    link: Link,
    taken: Decoder,
    taken_link: Link,
    entry_probe: Event,
    entered: Decoder,
    entered_link: Link,
    probe: Event,
    after: Decoder,
    out: Link,
)
    requires
        start.wf(),
        start.phase matches Phase::InstallChunk { index, total: t, length: l, .. } && index == 0
            && t == total && l == length,
        2 <= total <= 32,
        length == 256 * total,
        total <= blocks.len(),
        forall|i: int| 0 <= i < total ==> (#[trigger] blocks[i]).len() == 256,
        spec_names_slot(start.resources.channels@, blocks[0].subrange(0, 4), slot),
        spec_quiet(link),
        spec_read_resp(
            start,
            spec_arrived(link, blocks[0]),
            Event::Tick,
            taken,
            taken_link,
            Want::Again,
        ),
        spec_sound_event(entry_probe),
        spec_read_resp(taken, taken_link, entry_probe, entered, entered_link, Want::Again),
        spec_sound_event(probe),
        spec_read_resp(entered, entered_link, probe, after, out, Want::Again),
    ensures
        1 <= slot <= 8,
        spec_installing(after, start, slot, blocks, 1, total, length),
        out == spec_emit(
            spec_emit(link, spec_frame(OP_DEBUG, spec_slot_note(slot))),
            spec_ack(),
        ),
        spec_quiet(out),
{
    let block = blocks[0];
    let arrived = spec_arrived(link, block);
    assert(arrived.input =~= block);
    assert(arrived.input.subrange(0, 256) =~= block);
    assert(spec_padded(block, 256) =~= block);
    assert(arrived.input.subrange(256, 256) =~= Seq::<u8>::empty());
    assert(taken.phase matches Phase::InstallEntryProbe { total: t, length: l, chunk } && t == total
        && l == length && chunk@ == block);
    assert(taken_link.input =~= link.input);
    assert(taken_link == link);
    lemma_channel_loc_found(start.resources.channels@, 0, 0, 17);
    let channel = spec_be_u32(block.subrange(0, 4)) as u32;
    assert(channel != 0);
    assert(entered.flash@ == spec_erase(start.flash@, slot - 1));
    assert(entered.phase matches Phase::InstallWriteProbe {
        index: i,
        total: t,
        length: l,
        slot: s,
        chunk,
    } && i == 0 && t == total && l == length && s == slot && chunk@ == block);
    let address = spec_chunk_address(slot, 0);
    lemma_write_words_erased(entered.flash@, address, block, 16);
    assert(spec_install_image(start.flash@, slot, blocks, 0).0 == spec_erase(
        start.flash@,
        slot - 1,
    ));
    assert(spec_install_image(start.flash@, slot, blocks, 1).0 == spec_write_words(
        entered.flash@,
        address,
        block,
        16,
    ).0);
    assert(after.flash@ == spec_install_image(start.flash@, slot, blocks, 1).0);
    assert(after.subscriptions == start.subscriptions);
    assert(after.resources == start.resources);
    assert(after.verifier == start.verifier);
    assert(after.phase == (Phase::InstallChunk { index: 1, total, length, slot }));
}

/// A block in the middle of an install is written and acknowledged, and
/// nothing else happens: after its two moves the decoder waits for the
/// next block with the install image one block further, and the link
/// holds one more acknowledgement to send.
pub proof fn lemma_install_block(
    start: Decoder,
    slot: u32,
    blocks: Seq<Seq<u8>>,
    index: u32,
    total: u32,
    length: u16,
    before: Decoder,
    link: Link,
    between: Decoder,
    held: Link,
    probe: Event,
    after: Decoder,
    out: Link,
)
    requires
        start.flash@.len() == SUB_REGION,
        1 <= slot <= 8,
        1 <= index,
        index + 1 < total <= 32,
        length == 256 * total,
        total <= blocks.len(),
        forall|i: int| 0 <= i < total ==> (#[trigger] blocks[i]).len() == 256,
        spec_installing(before, start, slot, blocks, index, total, length),
        spec_quiet(link),
        spec_block_moves(before, link, blocks[index as int], between, held, probe, after, out),
    ensures
        spec_installing(after, start, slot, blocks, (index + 1) as u32, total, length),
        out == spec_emit(link, spec_ack()),
        spec_quiet(out),
{
    let block = blocks[index as int];
    let arrived = spec_arrived(link, block);
    assert(arrived.input =~= block);
    assert(arrived.input.subrange(0, 256) =~= block);
    assert(spec_padded(block, 256) =~= block);
    assert(arrived.input.subrange(256, 256) =~= Seq::<u8>::empty());
    assert(between.phase matches Phase::InstallWriteProbe { index: i, total: t, length: l, slot: s, chunk }
        && i == index && t == total && l == length && s == slot && chunk@ == block);
    assert(held.input =~= link.input);
    assert(held == link);
    lemma_install_image(start.flash@, slot, blocks, index as nat);
    lemma_join_len(blocks, index as nat);
    let address = spec_chunk_address(slot, index);
    lemma_write_words_erased(before.flash@, address, block, 16);
    assert(between.flash@ == before.flash@);
}

/// What an install has done once its last move is made: the page of the
/// slot holds the record and is erased behind it, the slot holds the
/// subscription that the record spells, with the frame counter of the
/// subscription that it held before if that one was for the same channel,
/// no other slot holds the channel, and a listing has exactly one row for
/// the channel, with the window of the record.
pub open spec fn spec_installed(
    start: Decoder,
    slot: u32,
    record: Seq<u8>,
    after: Decoder,
) -> bool {
    let loaded = after.subscriptions@[slot as int];
    let rows = spec_listing(after.subscriptions@, 9);
    &&& after.phase is Header
    &&& after.resources == start.resources
    &&& after.verifier == start.verifier
    &&& after.flash@ == spec_overlay(
        spec_erase(start.flash@, slot - 1),
        (slot - 1) * SUB_SPACE,
        record,
    )
    &&& after.subscriptions@ == start.subscriptions@.update(slot as int, loaded)
    &&& loaded matches Some(sub)
    &&& spec_is_record(
        Subscription { curr_frame: 0, ..sub },
        record.subrange(0, REQUIRED_MEMORY as int),
        (SUB_LOC + (slot - 1) * SUB_SPACE) as usize,
    )
    &&& loaded == spec_carried(start.subscriptions@[slot as int], spec_fresh(loaded))
    &&& spec_aligned(after.subscriptions@, after.resources.channels@)
    &&& forall|k: int|
        0 <= k < 9 && k != slot && (#[trigger] after.subscriptions@[k]) is Some
            ==> after.subscriptions@[k]->0.channel != sub.channel
    &&& spec_rows_for(rows, sub.channel, rows.len()) == 1
    &&& rows[spec_occupied(after.subscriptions@, slot as int) as int] == spec_stat(sub)
}

/// The last block of an install, over its two moves: it is written and
/// acknowledged, the slot is loaded from its page, and the request is
/// answered with an empty reply and with nothing else.
pub proof fn lemma_install_last_block(
    start: Decoder,
    slot: u32,
    blocks: Seq<Seq<u8>>,
    total: u32,
    length: u16,
    before: Decoder,
    link: Link,
    between: Decoder,
    held: Link,
    probe: Event,
    after: Decoder,
    out: Link,
)
    requires
        start.wf(),
        spec_aligned(start.subscriptions@, start.resources.channels@),
        1 <= slot <= 8,
        5 <= total <= 32,
        length == 256 * total,
        total <= blocks.len(),
        forall|i: int| 0 <= i < total ==> (#[trigger] blocks[i]).len() == 256,
        spec_names_slot(start.resources.channels@, blocks[0].subrange(0, 4), slot),
        !spec_blank(spec_join(blocks, total as nat)),
        spec_installing(before, start, slot, blocks, (total - 1) as u32, total, length),
        spec_quiet(link),
        spec_block_moves(before, link, blocks[total - 1], between, held, probe, after, out),
    ensures
        spec_installed(start, slot, spec_join(blocks, total as nat), after),
        out == spec_write_comm(spec_emit(link, spec_ack()), Seq::empty(), OP_SUBSCRIBE),
{
    let index = (total - 1) as u32;
    let block = blocks[index as int];
    let record = spec_join(blocks, total as nat);
    let arrived = spec_arrived(link, block);
    assert(arrived.input =~= block);
    assert(arrived.input.subrange(0, 256) =~= block);
    assert(spec_padded(block, 256) =~= block);
    assert(arrived.input.subrange(256, 256) =~= Seq::<u8>::empty());
    assert(between.phase matches Phase::InstallWriteProbe { index: i, total: t, length: l, slot: s, chunk }
        && i == index && t == total && l == length && s == slot && chunk@ == block);
    assert(held.input =~= link.input);
    assert(held == link);
    assert(between.flash@ == before.flash@);
    lemma_install_image(start.flash@, slot, blocks, index as nat);
    lemma_join_len(blocks, index as nat);
    let address = spec_chunk_address(slot, index);
    lemma_write_words_erased(before.flash@, address, block, 16);
    lemma_install_image(start.flash@, slot, blocks, total as nat);
    assert(after.flash@ == spec_install_image(start.flash@, slot, blocks, total as nat).0);
    lemma_join_head(blocks, total as nat);
    assert(record.subrange(0, 4) =~= record.subrange(0, 256).subrange(0, 4));
    let loaded = after.subscriptions@[slot as int];
    lemma_installed_record_listed(
        start.flash@,
        start.subscriptions@,
        start.resources.channels@,
        slot,
        blocks,
        total as nat,
        loaded,
    );
}

/// The blocks of an install between the first and the last, one after
/// the other: each is written and acknowledged, and nothing else happens.
pub proof fn lemma_install_blocks(
    start: Decoder,
    slot: u32,
    blocks: Seq<Seq<u8>>,
    total: u32,
    length: u16,
    states: Seq<Decoder>,
    links: Seq<Link>,
    betweens: Seq<Decoder>,
    helds: Seq<Link>,
    probes: Seq<Event>,
    upto: u32,
)
    requires
        start.flash@.len() == SUB_REGION,
        1 <= slot <= 8,
        1 <= upto < total <= 32,
        length == 256 * total,
        total <= blocks.len(),
        forall|i: int| 0 <= i < total ==> (#[trigger] blocks[i]).len() == 256,
        spec_installing(states[1], start, slot, blocks, 1, total, length),
        spec_quiet(links[1]),
        forall|i: int|
            1 <= i < upto ==> spec_block_moves(
                #[trigger] states[i],
                links[i],
                blocks[i],
                betweens[i],
                helds[i],
                probes[i],
                states[i + 1],
                links[i + 1],
            ),
    ensures
        spec_installing(states[upto as int], start, slot, blocks, upto, total, length),
        spec_quiet(links[upto as int]),
    decreases upto,
{
    if upto > 1 {
        let at = (upto - 1) as u32;
        lemma_install_blocks(
            start,
            slot,
            blocks,
            total,
            length,
            states,
            links,
            betweens,
            helds,
            probes,
            at,
        );
        assert(spec_block_moves(
            states[at as int],
            links[at as int],
            blocks[at as int],
            betweens[at as int],
            helds[at as int],
            probes[at as int],
            states[at + 1],
            links[at + 1],
        ));
        lemma_install_block(
            start,
            slot,
            blocks,
            at,
            total,
            length,
            states[at as int],
            links[at as int],
            betweens[at as int],
            helds[at as int],
            probes[at as int],
            states[at + 1],
            links[at + 1],
        );
    }
}

/// An install from its first block to its answer. Take a decoder that
/// waits for the first block of an install of 5 to 32 blocks, with every
/// subscription in the slot of its channel, whatever its flash holds. Let
/// the blocks arrive one by one, each after the answer to the one before
/// it, let every probe be sound, and let the record name a channel with a
/// slot and not have the marker byte of an empty page. Then no block is
/// refused and no error is reported: the decoder ends as
/// [`spec_installed`] says, and all that goes out between the last block
/// and its answer is an acknowledgement and the empty reply.
///
/// `states[i]` and `links[i]` are the decoder and the link before block
/// `i` arrives, `betweens[i]` and `helds[i]` those after it was taken in.
pub proof fn lemma_install_run(
    slot: u32,
    blocks: Seq<Seq<u8>>,
    total: u32,
    length: u16,
    states: Seq<Decoder>,
    links: Seq<Link>,
    betweens: Seq<Decoder>,
    helds: Seq<Link>,
    probes: Seq<Event>,
    entry_probe: Event,
    entered: Decoder,
    entered_link: Link,
)
    requires
        states[0].wf(),
        states[0].phase matches Phase::InstallChunk { index, total: t, length: l, .. } && index
            == 0 && t == total && l == length,
        spec_aligned(states[0].subscriptions@, states[0].resources.channels@),
        5 <= total <= 32,
        length == 256 * total,
        total <= blocks.len(),
        forall|i: int| 0 <= i < total ==> (#[trigger] blocks[i]).len() == 256,
        spec_names_slot(states[0].resources.channels@, blocks[0].subrange(0, 4), slot),
        !spec_blank(spec_join(blocks, total as nat)),
        spec_quiet(links[0]),
        spec_read_resp(
            states[0],
            spec_arrived(links[0], blocks[0]),
            Event::Tick,
            betweens[0],
            helds[0],
            Want::Again,
        ),
        spec_sound_event(entry_probe),
        spec_read_resp(betweens[0], helds[0], entry_probe, entered, entered_link, Want::Again),
        spec_sound_event(probes[0]),
        spec_read_resp(entered, entered_link, probes[0], states[1], links[1], Want::Again),
        forall|i: int|
            1 <= i < total ==> spec_block_moves(
                #[trigger] states[i],
                links[i],
                blocks[i],
                betweens[i],
                helds[i],
                probes[i],
                states[i + 1],
                links[i + 1],
            ),
    ensures
        spec_installed(
            states[0],
            slot,
            spec_join(blocks, total as nat),
            states[total as int],
        ),
        spec_quiet(links[total - 1]),
        links[total as int] == spec_write_comm(
            spec_emit(links[total - 1], spec_ack()),
            Seq::empty(),
            OP_SUBSCRIBE,
        ),
{
    let start = states[0];
    lemma_install_first_block(
        start,
        slot,
        blocks,
        total,
        length,
        links[0],
        betweens[0],
        helds[0],
        entry_probe,
        entered,
        entered_link,
        probes[0],
        states[1],
        links[1],
    );
    let last = (total - 1) as u32;
    lemma_install_blocks(
        start,
        slot,
        blocks,
        total,
        length,
        states,
        links,
        betweens,
        helds,
        probes,
        last,
    );
    assert(spec_block_moves(
        states[last as int],
        links[last as int],
        blocks[last as int],
        betweens[last as int],
        helds[last as int],
        probes[last as int],
        states[last + 1],
        links[last + 1],
    ));
    lemma_install_last_block(
        start,
        slot,
        blocks,
        total,
        length,
        states[last as int],
        links[last as int],
        betweens[last as int],
        helds[last as int],
        probes[last as int],
        states[total as int],
        links[total as int],
    );
}

/// The header of an install request, once it has arrived on a quiet link:
/// it is acknowledged, and the decoder waits for the first block.
pub proof fn lemma_install_header(
    before: Decoder,
    link: Link,
    length: u16,
    after: Decoder,
    out: Link,
    want: Want,
)
    requires
        before.phase is Header,
        spec_quiet(link),
        length > 0,
        spec_read_resp(
            before,
            spec_arrived(link, spec_header(OP_SUBSCRIBE, length as nat)),
            Event::Tick,
            after,
            out,
            want,
        ),
    ensures
        want == Want::Again,
        spec_kept(before, after),
        after.phase matches Phase::InstallChunk { index, total, length: l, .. } && index == 0
            && total == spec_chunk_count(length as nat) && l == length,
        out == spec_emit(link, spec_ack()),
        spec_quiet(out),
{
    let header = spec_header(OP_SUBSCRIBE, length as nat);
    let arrived = spec_arrived(link, header);
    assert(arrived.input =~= header);
    assert(arrived.input.subrange(0, 4) =~= header);
    assert(spec_read(arrived, 4).input =~= link.input);
    assert(spec_read(arrived, 4) == link);
    assert((length as nat % 0x100) as u8 as nat + 0x100 * ((length as nat / 0x100 % 0x100) as u8
        as nat) == length);
}

/// A list request on a quiet link, over its two moves: the header is
/// acknowledged, and on the sound probe the listing of the table goes
/// out.
pub proof fn lemma_list_request(
    before: Decoder,
    link: Link,
    between: Decoder,
    held: Link,
    probe: Event,
    after: Decoder,
    out: Link,
)
    requires
        before.phase is Header,
        spec_quiet(link),
        spec_read_resp(
            before,
            spec_arrived(link, spec_header(OP_LIST, 0)),
            Event::Tick,
            between,
            held,
            Want::Again,
        ),
        spec_sound_event(probe),
        spec_read_resp(between, held, probe, after, out, Want::Again),
    ensures
        spec_kept(before, after),
        after.phase is Header,
        out == spec_write_comm(
            spec_emit(link, spec_ack()),
            spec_listing_payload(spec_listing(before.subscriptions@, 9)),
            OP_LIST,
        ),
{
    let header = spec_header(OP_LIST, 0);
    let arrived = spec_arrived(link, header);
    assert(arrived.input =~= header);
    assert(arrived.input.subrange(0, 4) =~= header);
    assert(spec_read(arrived, 4).input =~= link.input);
    assert(spec_read(arrived, 4) == link);
    assert(between.phase is ListProbe);
    assert(held == spec_emit(link, spec_ack()));
}

/// The bytes of a row are twenty.
pub proof fn lemma_row_len(row: SubStat)
    ensures
        spec_row_bytes(row).len() == 20,
{
}

/// The payload of a listing holds each row at its place: the number of
/// rows in the first four bytes, least significant byte first, and row
/// `r` in the twenty bytes from offset `4 + 20 * r` on, as its channel in
/// four bytes and its start and end in eight bytes each.
pub proof fn lemma_listing_payload_row(rows: Seq<SubStat>, r: int)
    requires
        0 <= r < rows.len(),
    ensures
        spec_listing_payload(rows).len() == 4 + 20 * rows.len(),
        spec_listing_payload(rows).subrange(0, 4) == spec_le_bytes_u32(rows.len() as u32),
        spec_listing_payload(rows).subrange(4 + 20 * r, 24 + 20 * r) == spec_le_bytes_u32(
            rows[r].channel,
        ) + spec_le_bytes_u64(rows[r].start) + spec_le_bytes_u64(rows[r].end),
{
    lemma_payload_row(rows, rows.len(), r);
    let count = spec_le_bytes_u32(rows.len() as u32);
    let body = spec_rows_bytes(rows, rows.len());
    assert((count + body).subrange(0, 4) =~= count);
    assert((count + body).subrange(4 + 20 * r, 24 + 20 * r) =~= body.subrange(20 * r, 20 * r + 20));
}

/// The bytes of the first `count` rows hold row `r` in the twenty bytes
/// from offset `20 * r` on.
pub proof fn lemma_payload_row(rows: Seq<SubStat>, count: nat, r: int)
    requires
        0 <= r < count <= rows.len(),
    ensures
        spec_rows_bytes(rows, count).len() == 20 * count,
        spec_rows_bytes(rows, count).subrange(20 * r, 20 * r + 20) == spec_row_bytes(rows[r]),
    decreases count,
{
    lemma_rows_len(rows, (count - 1) as nat);
    lemma_row_len(rows[count - 1]);
    if r < count - 1 {
        lemma_payload_row(rows, (count - 1) as nat, r);
        assert(spec_rows_bytes(rows, count).subrange(20 * r, 20 * r + 20) =~= spec_rows_bytes(
            rows,
            (count - 1) as nat,
        ).subrange(20 * r, 20 * r + 20));
    } else {
        assert(spec_rows_bytes(rows, count).subrange(20 * r, 20 * r + 20) =~= spec_row_bytes(
            rows[r],
        ));
    }
}

/// The bytes of `count` rows are twenty for each.
pub proof fn lemma_rows_len(rows: Seq<SubStat>, count: nat)
    requires
        count <= rows.len(),
    ensures
        spec_rows_bytes(rows, count).len() == 20 * count,
    decreases count,
{
    if count > 0 {
        lemma_rows_len(rows, (count - 1) as nat);
        lemma_row_len(rows[count - 1]);
    }
}

} // verus!
