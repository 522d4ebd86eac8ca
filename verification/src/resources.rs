//! What is fixed when the decoder is built: the list of channels, the key
//! material of each channel, the emergency record and the verifying key.

use vstd::prelude::*;
use vstd::slice::slice_subrange;
use crate::bytes::{be_u128, spec_be_bytes_u128, spec_be_u128};
use crate::bytes::{lemma_be_bytes_of_u128, lemma_be_u128_of_bytes};
use crate::crypto::{aes128_ofb_stream, ed25519_key_decodes, key_decodes, lemma_xor_twice};
use crate::crypto::{ofb_apply, spec_xor};

verus! {

/// Entries in the channel table: channel 0 and up to 16 configured ones.
pub const CHANNEL_SLOTS: usize = 17;

/// Bytes of key material per channel: a 16-byte key, then a 16-byte IV.
pub const KEY_ENTRY: usize = 32;

/// Bytes in a subscription record, seeds included.
pub const RECORD_LEN: usize = 3328;

/// The decimal number that a run of digits spells.
pub open spec fn spec_decimal(digits: Seq<u8>) -> nat
    decreases digits.len(),
{
    if digits.len() == 0 {
        0
    } else {
        spec_decimal(digits.drop_last()) * 10 + (digits.last() - 0x30) as nat
    }
}

/// Whether every byte of `digits` is an ASCII digit.
pub open spec fn spec_all_digits(digits: Seq<u8>) -> bool {
    forall|i: int| 0 <= i < digits.len() ==> 0x30 <= #[trigger] digits[i] <= 0x39
}

/// `field` without a leading plus sign.
pub open spec fn spec_unsigned(field: Seq<u8>) -> Seq<u8> {
    if field.len() > 0 && field[0] == 0x2B {
        field.drop_first()
    } else {
        field
    }
}

/// The number that `field` spells: digits, at least one, after an optional
/// plus sign, with a value that fits 32 bits.
pub open spec fn spec_parse_u32(field: Seq<u8>) -> Option<u32> {
    let digits = spec_unsigned(field);
    if digits.len() > 0 && spec_all_digits(digits) && spec_decimal(digits) <= u32::MAX {
        Some(spec_decimal(digits) as u32)
    } else {
        None
    }
}

/// Length of the first field of `list`: the bytes before its first comma.
pub open spec fn spec_field_len(list: Seq<u8>) -> nat
    decreases list.len(),
{
    if list.len() == 0 || list[0] == 0x2C {
        0
    } else {
        1 + spec_field_len(list.drop_first())
    }
}

/// The fields of a comma-separated list. An empty list has one empty field.
pub open spec fn spec_fields(list: Seq<u8>) -> Seq<Seq<u8>>
    decreases list.len(),
{
    let n = spec_field_len(list);
    if n >= list.len() {
        seq![list]
    } else {
        seq![list.subrange(0, n as int)] + spec_fields(list.subrange(n as int + 1, list.len() as int))
    }
}

/// Whether every field spells a number.
pub open spec fn spec_fields_parse(fields: Seq<Seq<u8>>) -> bool {
    forall|i: int| 0 <= i < fields.len() ==> (#[trigger] spec_parse_u32(fields[i])) is Some
}

/// The channel table for a list of fields: channel 0 in front, the numbers
/// of the first sixteen fields behind it, zero in what is left.
pub open spec fn spec_channel_table(fields: Seq<Seq<u8>>) -> Seq<u32> {
    Seq::new(
        CHANNEL_SLOTS as nat,
        |i: int|
            if 1 <= i <= fields.len() {
                spec_parse_u32(fields[i - 1])->0
            } else {
                0u32
            },
    )
}

/// Position of `channel` in `table`: the first entry that holds it, and 0
/// where none does.
pub open spec fn spec_channel_loc(table: Seq<u32>, channel: u32, upto: int) -> int
    decreases upto,
{
    if upto <= 0 {
        0
    } else {
        let before = spec_channel_loc(table, channel, upto - 1);
        if before == 0 && table[0] != channel && table[upto - 1] == channel {
            upto - 1
        } else {
            before
        }
    }
}

/// Reads the number that `field` spells, if it spells one.
pub fn parse_u32(field: &[u8]) -> (r: Option<u32>)
    ensures
        r == spec_parse_u32(field@),
{
    let start: usize = if field.len() > 0 && field[0] == 0x2B {
        1
    } else {
        0
    };
    let ghost digits = spec_unsigned(field@);
    assert(digits == field@.subrange(start as int, field@.len() as int));
    if start == field.len() {
        return None;
    }
    let mut value: u64 = 0;
    let mut i: usize = start;
    while i < field.len()
        invariant
            start <= i <= field.len(),
            digits == spec_unsigned(field@),
            digits == field@.subrange(start as int, field@.len() as int),
            spec_all_digits(digits.subrange(0, i - start)),
            value == spec_decimal(digits.subrange(0, i - start)),
            value <= u32::MAX,
        decreases field.len() - i,
    {
        let byte = field[i];
        let ghost head = digits.subrange(0, i - start);
        let ghost next = digits.subrange(0, i + 1 - start);
        assert(next.drop_last() == head);
        assert(next.last() == byte);
        if byte < 0x30 || byte > 0x39 {
            assert(!spec_all_digits(digits)) by {
                assert(digits[i - start] == byte);
            }
            return None;
        }
        value = value * 10 + (byte - 0x30) as u64;
        if value > 0xFFFF_FFFF {
            proof {
                if spec_all_digits(digits) {
                    lemma_decimal_grows(digits, (i + 1 - start) as nat);
                }
            }
            return None;
        }
        assert(spec_all_digits(next)) by {
            assert forall|j: int| 0 <= j < next.len() implies 0x30 <= #[trigger] next[j]
                <= 0x39 by {
                if j < head.len() {
                    assert(head[j] == next[j]);
                }
            }
        }
        i += 1;
    }
    assert(digits.subrange(0, field.len() - start) == digits);
    Some(value as u32)
}

/// A run of digits spells at least what any of its prefixes spells.
pub proof fn lemma_decimal_grows(digits: Seq<u8>, n: nat)
    requires
        n <= digits.len(),
        spec_all_digits(digits),
    ensures
        spec_decimal(digits.subrange(0, n as int)) <= spec_decimal(digits),
    decreases digits.len() - n,
{
    if n < digits.len() {
        let head = digits.drop_last();
        assert(spec_all_digits(head)) by {
            assert forall|j: int| 0 <= j < head.len() implies 0x30 <= #[trigger] head[j]
                <= 0x39 by {
                assert(head[j] == digits[j]);
            }
        }
        assert(head.subrange(0, n as int) == digits.subrange(0, n as int));
        lemma_decimal_grows(head, n);
        assert(0x30 <= digits[digits.len() - 1]);
    } else {
        assert(digits.subrange(0, n as int) == digits);
    }
}

/// Reads the list of configured channels: decimal numbers separated by
/// commas. The table starts with channel 0; the first sixteen numbers
/// follow it, and further ones are read and left out. A field that spells
/// no number makes the whole list unreadable.
pub fn get_channels(list: &[u8]) -> (r: Option<[u32; 17]>)
    ensures
        r is Some <==> spec_fields_parse(spec_fields(list@)),
        r matches Some(table) ==> table@ == spec_channel_table(spec_fields(list@)),
{
    let mut table = [0u32; 17];
    let mut count: usize = 0;
    let mut start: usize = 0;
    let ghost mut done: Seq<Seq<u8>> = Seq::empty();
    assert(list@.subrange(0, list@.len() as int) == list@);
    loop
        invariant
            start <= list.len(),
            count == done.len(),
            count <= start,
            spec_fields(list@) == done + spec_fields(list@.subrange(start as int, list@.len() as int)),
            spec_fields_parse(done),
            table@ == spec_channel_table(done),
        decreases list.len() - start,
    {
        let ghost rest = list@.subrange(start as int, list@.len() as int);
        let mut end: usize = start;
        while end < list.len() && list[end] != 0x2C
            invariant
                start <= end <= list.len(),
                rest == list@.subrange(start as int, list@.len() as int),
                spec_field_len(rest) == (end - start) + spec_field_len(
                    list@.subrange(end as int, list@.len() as int),
                ),
            decreases list.len() - end,
        {
            assert(list@.subrange(end as int, list@.len() as int).drop_first() == list@.subrange(
                end + 1,
                list@.len() as int,
            ));
            end += 1;
        }
        let field = slice_subrange(list, start, end);
        let ghost fields = done.push(field@);
        proof {
            let tail = list@.subrange(end as int, list@.len() as int);
            assert(spec_field_len(tail) == 0);
            assert(field@ == rest.subrange(0, spec_field_len(rest) as int));
            if end < list.len() {
                assert(rest.subrange(spec_field_len(rest) as int + 1, rest.len() as int)
                    == list@.subrange(end + 1, list@.len() as int));
                assert(spec_fields(list@) == fields + spec_fields(
                    list@.subrange(end + 1, list@.len() as int),
                ));
            } else {
                assert(field@ == rest);
                assert(spec_fields(list@) == fields);
            }
        }
        match parse_u32(field) {
            None => {
                assert(!spec_fields_parse(spec_fields(list@))) by {
                    assert(spec_fields(list@)[count as int] == field@);
                }
                return None;
            },
            Some(value) => {
                if count < 16 {
                    table[count + 1] = value;
                }
                assert(spec_fields_parse(fields)) by {
                    assert forall|i: int| 0 <= i < fields.len() implies (#[trigger] spec_parse_u32(
                        fields[i],
                    )) is Some by {
                        if i < done.len() {
                            assert(fields[i] == done[i]);
                        }
                    }
                }
                assert(table@ =~= spec_channel_table(fields));
            },
        }
        count += 1;
        proof {
            done = fields;
        }
        if end == list.len() {
            return Some(table);
        }
        start = end + 1;
    }
}

/// Reads the decoder's identifier: a decimal number.
pub fn get_id(text: &[u8]) -> (id: Option<u32>)
    ensures
        id == spec_parse_u32(text@),
{
    parse_u32(text)
}

/// Position of `channel` in the channel table, and 0 where the table does
/// not hold it.
pub fn get_decrypt_loc_for_channel(channels: &[u32; 17], channel: u32) -> (loc: u32)
    ensures
        loc == spec_channel_loc(channels@, channel, 17),
        loc < 17,
        loc > 0 ==> channels@[loc as int] == channel,
        forall|j: int| 0 <= j < loc ==> channels@[j] != channel,
{
    let mut i: usize = 0;
    while i < 17
        invariant
            i <= 17,
            spec_channel_loc(channels@, channel, i as int) == 0,
            forall|j: int| 0 <= j < i ==> channels@[j] != channel,
        decreases 17 - i,
    {
        if channels[i] == channel {
            proof {
                lemma_channel_loc_found(channels@, channel, i as int, 17);
            }
            return i as u32;
        }
        i += 1;
    }
    0
}

/// The position of a channel is that of the first entry that holds it.
pub proof fn lemma_channel_loc_found(table: Seq<u32>, channel: u32, first: int, upto: int)
    requires
        0 <= first < upto <= table.len(),
        table[first] == channel,
        forall|j: int| 0 <= j < first ==> table[j] != channel,
    ensures
        spec_channel_loc(table, channel, upto) == first,
    decreases upto,
{
    lemma_channel_loc_none(table, channel, first);
    if first + 1 < upto {
        lemma_channel_loc_found(table, channel, first, upto - 1);
    }
}

/// Where no entry before `upto` holds the channel, its position is 0.
pub proof fn lemma_channel_loc_none(table: Seq<u32>, channel: u32, upto: int)
    requires
        0 <= upto <= table.len(),
        forall|j: int| 0 <= j < upto ==> table[j] != channel,
    ensures
        spec_channel_loc(table, channel, upto) == 0,
    decreases upto,
{
    if upto > 0 {
        lemma_channel_loc_none(table, channel, upto - 1);
    }
}

/// The compiled-in material of one build.
pub struct Resources {
    /// The channel table: channel 0, then the configured channels.
    pub channels: [u32; 17],
    /// Key material, one entry per position of the channel table.
    pub keys: Vec<u8>,
    /// The emergency record, in the layout of a flash page.
    pub emergency: Vec<u8>,
}

impl Resources {
    /// The emergency record is whole, the channel table starts with
    /// channel 0, and every position of the table that a channel can be
    /// found at has its key material.
    pub open spec fn wf(&self) -> bool {
        &&& self.emergency@.len() >= RECORD_LEN
        &&& self.channels@[0] == 0
        &&& self.keys@.len() >= KEY_ENTRY
        &&& forall|i: int|
            0 <= i < 17 && self.channels@[i] != 0 ==> KEY_ENTRY * (i + 1) <= self.keys@.len()
    }

    /// Puts the material of a build together, if it fits together.
    pub fn new(channels: [u32; 17], keys: Vec<u8>, emergency: Vec<u8>) -> (r: Option<Resources>)
        ensures
            r is Some <==> (Resources { channels, keys, emergency }).wf(),
            r matches Some(resources) ==> resources == (Resources { channels, keys, emergency }),
    {
        if emergency.len() < RECORD_LEN || keys.len() < KEY_ENTRY || channels[0] != 0 {
            return None;
        }
        let mut i: usize = 0;
        while i < 17
            invariant
                i <= 17,
                forall|j: int|
                    0 <= j < i && channels@[j] != 0 ==> KEY_ENTRY * (j + 1) <= keys@.len(),
            decreases 17 - i,
        {
            if channels[i] != 0 && keys.len() < KEY_ENTRY * (i + 1) {
                assert(channels@[i as int] != 0 && KEY_ENTRY * (i + 1) > keys@.len());
                return None;
            }
            i += 1;
        }
        Some(Resources { channels, keys, emergency })
    }
}

/// The seed that an encrypted seed stands for on `channel`: the bytes of
/// the seed under the AES-128-OFB key stream of the channel's key and IV.
/// The same operation encrypts a seed.
pub open spec fn spec_decrypt_intermediate(
    channels: Seq<u32>,
    keys: Seq<u8>,
    encrypted_int: u128,
    channel: u32,
) -> u128 {
    let at = KEY_ENTRY * spec_channel_loc(channels, channel, 17);
    spec_be_u128(
        spec_xor(
            spec_be_bytes_u128(encrypted_int),
            aes128_ofb_stream(keys.subrange(at, at + 16), keys.subrange(at + 16, at + 32)),
        ),
    ) as u128
}

/// Decrypting twice with the key material of one channel gives the seed
/// back: what encrypts a seed for a channel also decrypts it.
pub proof fn lemma_decrypt_twice(channels: Seq<u32>, keys: Seq<u8>, seed: u128, channel: u32)
    ensures
        spec_decrypt_intermediate(
            channels,
            keys,
            spec_decrypt_intermediate(channels, keys, seed, channel),
            channel,
        ) == seed,
{
    let at = KEY_ENTRY * spec_channel_loc(channels, channel, 17);
    let stream = aes128_ofb_stream(keys.subrange(at, at + 16), keys.subrange(at + 16, at + 32));
    let clear = spec_be_bytes_u128(seed);
    lemma_be_u128_of_bytes(seed);
    let sealed = spec_xor(clear, stream);
    lemma_be_bytes_of_u128(sealed);
    lemma_xor_twice(clear, stream);
}

/// Decrypts a seed with the key material of `channel`.
pub fn decrypt_intermediate(resources: &Resources, encrypted_int: u128, channel: u32) -> (seed:
    u128)
    requires
        resources.wf(),
    ensures
        seed == spec_decrypt_intermediate(
            resources.channels@,
            resources.keys@,
            encrypted_int,
            channel,
        ),
{
    let channel_pos = get_decrypt_loc_for_channel(&resources.channels, channel);
    assert(channel_pos > 0 ==> resources.channels@[channel_pos as int] != 0) by {
        if channel_pos > 0 {
            assert(resources.channels@[0] != channel);
        }
    }
    let pos: usize = channel_pos as usize * KEY_ENTRY;
    let key = crate::bytes::take_16(resources.keys.as_slice(), pos);
    let iv = crate::bytes::take_16(resources.keys.as_slice(), pos + 16);
    let block = crate::bytes::be_bytes_u128(encrypted_int);
    let clear = ofb_apply(&key, &iv, &block);
    be_u128(clear.as_slice(), 0)
}

/// Accepts the verifying key if it is the encoding of a curve point.
pub fn load_verification_key(bytes: &[u8; 32]) -> (key: Option<[u8; 32]>)
    ensures
        key == if ed25519_key_decodes(bytes@) {
            Some(*bytes)
        } else {
            None::<[u8; 32]>
        },
{
    if key_decodes(bytes) {
        Some(*bytes)
    } else {
        None
    }
}

} // verus!
