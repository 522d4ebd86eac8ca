//! The serial link: framed messages, the acknowledgement that gates every
//! block of a payload, and the bytes waiting on either side.
//!
//! A [`Console`] holds what has arrived and was not read yet, what is
//! free to go out, and what is written but held back until the host has
//! acknowledged the block before it. The driver moves bytes between the
//! console and the wire; nothing here blocks.

use vstd::prelude::*;
use crate::bytes::push_all;

verus! {

/// First byte of every header.
pub const MAGIC: u8 = 0x25;

/// Opcode `L`: list the subscriptions.
pub const OP_LIST: u8 = 0x4C;

/// Opcode `S`: install a subscription.
pub const OP_SUBSCRIBE: u8 = 0x53;

/// Opcode `D`: decode a frame.
pub const OP_DECODE: u8 = 0x44;

/// Opcode `E`: an error report.
pub const OP_ERROR: u8 = 0x45;

/// Opcode `G`: a diagnostic.
pub const OP_DEBUG: u8 = 0x47;

/// Opcode `A`: an acknowledgement.
pub const OP_ACK: u8 = 0x41;

/// Largest number of payload bytes between two acknowledgements.
pub const CHUNK: usize = 256;

/// What a [`Console`] holds.
pub struct Link {
    /// Bytes that arrived and were not read yet, oldest first.
    pub input: Seq<u8>,
    /// Bytes free to go out, oldest first.
    pub output: Seq<u8>,
    /// Written blocks that each wait for one acknowledgement, oldest first.
    pub held: Seq<Seq<u8>>,
    /// Bytes still to skip of an acknowledgement whose first byte was read.
    pub tail: nat,
}

/// The two ends of the serial link.
pub struct Console {
    rx: Vec<u8>,
    taken: usize,
    tx: Vec<u8>,
    held: Vec<Vec<u8>>,
    tail: u8,
}

/// The header of a message with opcode `code` and a payload of `len`
/// bytes: the length goes out as its low sixteen bits, low byte first.
pub open spec fn spec_header(code: u8, len: nat) -> Seq<u8> {
    seq![MAGIC, code, (len % 0x100) as u8, (len / 0x100 % 0x100) as u8]
}

/// A message as it crosses the wire in one direction.
pub open spec fn spec_frame(code: u8, payload: Seq<u8>) -> Seq<u8> {
    spec_header(code, payload.len()) + payload
}

/// The acknowledgement, a header with no payload.
pub open spec fn spec_ack() -> Seq<u8> {
    spec_header(OP_ACK, 0)
}

/// Number of blocks that a payload of `len` bytes travels in.
pub open spec fn spec_chunk_count(len: nat) -> nat {
    (len + 255) / 256
}

/// The `index`-th block of `payload`.
pub open spec fn spec_chunk(payload: Seq<u8>, index: int) -> Seq<u8> {
    payload.subrange(
        256 * index,
        if 256 * (index + 1) <= payload.len() {
            256 * (index + 1)
        } else {
            payload.len() as int
        },
    )
}

/// The blocks of `payload`, in order.
pub open spec fn spec_chunks(payload: Seq<u8>) -> Seq<Seq<u8>> {
    Seq::new(spec_chunk_count(payload.len()), |i: int| spec_chunk(payload, i))
}

/// The first `count` of `blocks`, joined.
pub open spec fn spec_join(blocks: Seq<Seq<u8>>, count: nat) -> Seq<u8>
    decreases count,
{
    if count == 0 {
        Seq::empty()
    } else {
        spec_join(blocks, (count - 1) as nat) + blocks[count - 1]
    }
}

/// Whether a header may carry `code` towards the decoder.
pub open spec fn spec_is_opcode(code: u8) -> bool {
    code == OP_ERROR || code == OP_LIST || code == OP_SUBSCRIBE || code == OP_DECODE || code
        == OP_ACK
}

/// Why a header is refused.
#[derive(Clone, Copy, Debug, PartialEq, Eq, Structural)]
pub enum HeaderError {
    /// The first byte is not the magic byte.
    BadMagic,
    /// The second byte is no opcode that the decoder reads.
    BadOpcode,
}

/// What four header bytes say: the opcode and the payload length.
pub open spec fn spec_parse_header(header: Seq<u8>) -> Result<(u8, u16), HeaderError>
    recommends
        header.len() == 4,
{
    if header[0] != MAGIC {
        Err(HeaderError::BadMagic)
    } else if !spec_is_opcode(header[1]) {
        Err(HeaderError::BadOpcode)
    } else {
        Ok((header[1], (header[2] as nat + 0x100 * header[3] as nat) as u16))
    }
}

/// `link` after `bytes` were written: they go out at once unless a block
/// is being held, and then they wait behind it.
pub open spec fn spec_emit(link: Link, bytes: Seq<u8>) -> Link {
    if link.held.len() == 0 {
        Link { output: link.output + bytes, ..link }
    } else {
        Link {
            held: link.held.update(link.held.len() - 1, link.held.last() + bytes),
            ..link
        }
    }
}

/// `link` after a wait for an acknowledgement was entered: whatever is
/// written next is held until one has been read.
pub open spec fn spec_gate(link: Link) -> Link {
    Link { held: link.held.push(Seq::empty()), ..link }
}

/// `link` after a message with a payload was written: the header, then
/// each block behind an acknowledgement, then one more acknowledgement.
pub open spec fn spec_write_comm(link: Link, payload: Seq<u8>, code: u8) -> Link {
    let started = spec_emit(link, spec_header(code, payload.len()));
    Link { held: started.held + spec_chunks(payload).push(Seq::empty()), ..started }
}

/// `link` after as many of the awaited acknowledgements as the input
/// holds were read. Bytes before a magic byte are passed over; the magic
/// byte and the three bytes behind it make one acknowledgement, which
/// frees the oldest held block.
pub open spec fn spec_settle(link: Link) -> Link
    decreases link.input.len(),
{
    if link.held.len() == 0 || link.input.len() == 0 {
        link
    } else {
        let rest = link.input.drop_first();
        if link.tail == 0 {
            if link.input[0] == MAGIC {
                spec_settle(Link { input: rest, tail: 3, ..link })
            } else {
                spec_settle(Link { input: rest, ..link })
            }
        } else if link.tail > 1 {
            spec_settle(Link { input: rest, tail: (link.tail - 1) as nat, ..link })
        } else {
            spec_settle(
                Link {
                    input: rest,
                    tail: 0,
                    output: link.output + link.held[0],
                    held: link.held.drop_first(),
                },
            )
        }
    }
}

impl View for Console {
    type V = Link;

    closed spec fn view(&self) -> Link {
        Link {
            input: self.rx@.subrange(self.taken as int, self.rx@.len() as int),
            output: self.tx@,
            held: Seq::new(self.held@.len(), |i: int| self.held@[i]@),
            tail: self.tail as nat,
        }
    }
}

impl Console {
    /// The cursor lies in the input, and at most three bytes of an
    /// acknowledgement are outstanding.
    pub closed spec fn wf(&self) -> bool {
        self.taken <= self.rx@.len() && self.tail <= 3
    }

    /// A link on which nothing has happened.
    pub fn new() -> (console: Console)
        ensures
            console.wf(),
            console@ == (Link {
                input: Seq::empty(),
                output: Seq::empty(),
                held: Seq::empty(),
                tail: 0,
            }),
    {
        let console = Console { rx: Vec::new(), taken: 0, tx: Vec::new(), held: Vec::new(), tail: 0 };
        assert(console@.input =~= Seq::empty());
        assert(console@.held =~= Seq::empty());
        console
    }

    /// Takes in bytes that arrived on the wire.
    pub fn receive(&mut self, bytes: &[u8])
        requires
            old(self).wf(),
        ensures
            final(self).wf(),
            final(self)@ == (Link { input: old(self)@.input + bytes@, ..old(self)@ }),
    {
        if self.taken == self.rx.len() {
            self.rx.clear();
            self.taken = 0;
        }
        push_all(&mut self.rx, bytes);
        assert(self@.input =~= old(self)@.input + bytes@);
        assert(self@.held =~= old(self)@.held);
    }

    /// Hands out the bytes that are free to go on the wire.
    pub fn take_output(&mut self) -> (bytes: Vec<u8>)
        requires
            old(self).wf(),
        ensures
            final(self).wf(),
            bytes@ == old(self)@.output,
            final(self)@ == (Link { output: Seq::empty(), ..old(self)@ }),
    {
        let mut bytes: Vec<u8> = Vec::new();
        std::mem::swap(&mut bytes, &mut self.tx);
        assert(self@.held =~= old(self)@.held);
        bytes
    }

    /// Number of bytes that arrived and were not read yet.
    pub fn available(&self) -> (n: usize)
        requires
            self.wf(),
        ensures
            n == self@.input.len(),
    {
        self.rx.len() - self.taken
    }

    /// Reads the next `n` bytes of input, which must have arrived.
    pub fn read_block(&mut self, n: usize) -> (bytes: Vec<u8>)
        requires
            old(self).wf(),
            n <= old(self)@.input.len(),
        ensures
            final(self).wf(),
            bytes@ == old(self)@.input.subrange(0, n as int),
            final(self)@ == (Link {
                input: old(self)@.input.subrange(n as int, old(self)@.input.len() as int),
                ..old(self)@
            }),
    {
        assert(self@.input.len() == self.rx.len() - self.taken);
        let block = vstd::slice::slice_subrange(self.rx.as_slice(), self.taken, self.taken + n);
        let bytes = vstd::slice::slice_to_vec(block);
        self.taken += n;
        assert(bytes@ =~= old(self)@.input.subrange(0, n as int));
        assert(self@.input =~= old(self)@.input.subrange(n as int, old(self)@.input.len() as int));
        assert(self@.held =~= old(self)@.held);
        bytes
    }

    /// Number of blocks that wait for an acknowledgement.
    pub fn waiting(&self) -> (n: usize)
        ensures
            n == self@.held.len(),
    {
        self.held.len()
    }

    /// Writes `bytes`, behind the held blocks if there are any.
    pub fn emit(&mut self, bytes: &[u8])
        requires
            old(self).wf(),
        ensures
            final(self).wf(),
            final(self)@ == spec_emit(old(self)@, bytes@),
    {
        match self.held.pop() {
            None => {
                push_all(&mut self.tx, bytes);
                assert(self@.held =~= old(self)@.held);
            },
            Some(mut last) => {
                push_all(&mut last, bytes);
                self.held.push(last);
                assert(self@.held =~= spec_emit(old(self)@, bytes@).held);
            },
        }
    }

    /// Reads as many of the awaited acknowledgements as the input holds.
    pub fn settle(&mut self)
        requires
            old(self).wf(),
        ensures
            final(self).wf(),
            final(self)@ == spec_settle(old(self)@),
    {
        while self.held.len() > 0 && self.taken < self.rx.len()
            invariant
                self.wf(),
                spec_settle(self@) == spec_settle(old(self)@),
            decreases self.rx.len() - self.taken,
        {
            let ghost before = self@;
            let byte = self.rx[self.taken];
            self.taken += 1;
            assert(self@.input =~= before.input.drop_first());
            if self.tail == 0 {
                if byte == MAGIC {
                    self.tail = 3;
                }
                assert(self@.held =~= before.held);
            } else if self.tail > 1 {
                self.tail -= 1;
                assert(self@.held =~= before.held);
            } else {
                self.tail = 0;
                let block = self.held.remove(0);
                push_all(&mut self.tx, block.as_slice());
                assert(self@.held =~= before.held.drop_first());
            }
        }
    }
}

/// Reads one byte of input, if one has arrived.
pub fn read_byte(console: &mut Console) -> (byte: Option<u8>)
    requires
        old(console).wf(),
    ensures
        final(console).wf(),
        old(console)@.input.len() == 0 ==> byte is None && final(console)@ == old(console)@,
        old(console)@.input.len() > 0 ==> byte == Some(old(console)@.input[0]) && final(console)@
            == (Link { input: old(console)@.input.drop_first(), ..old(console)@ }),
{
    if console.taken < console.rx.len() {
        let byte = console.rx[console.taken];
        console.taken += 1;
        assert(console@.input =~= old(console)@.input.drop_first());
        assert(console@.held =~= old(console)@.held);
        Some(byte)
    } else {
        None
    }
}

/// Writes an acknowledgement.
pub fn ack(console: &mut Console)
    requires
        old(console).wf(),
    ensures
        final(console).wf(),
        final(console)@ == spec_emit(old(console)@, spec_ack()),
{
    let frame: [u8; 4] = [MAGIC, OP_ACK, 0, 0];
    assert(frame@ =~= spec_ack());
    console.emit(frame.as_slice());
}

/// Enters a wait for an acknowledgement: what is written from here on is
/// held until the host has sent one.
pub fn eat_ack(console: &mut Console)
    requires
        old(console).wf(),
    ensures
        final(console).wf(),
        final(console)@ == spec_gate(old(console)@),
{
    console.held.push(Vec::new());
    assert(console@.held =~= spec_gate(old(console)@).held);
}

/// Writes the header of a message with opcode `code` and `len` payload
/// bytes.
fn write_header(console: &mut Console, code: u8, len: usize)
    requires
        old(console).wf(),
    ensures
        final(console).wf(),
        final(console)@ == spec_emit(old(console)@, spec_header(code, len as nat)),
{
    let header: [u8; 4] = [MAGIC, code, (len % 0x100) as u8, (len / 0x100 % 0x100) as u8];
    assert(header@ =~= spec_header(code, len as nat));
    console.emit(header.as_slice());
}

/// Writes a diagnostic: a `G` header and the whole payload behind it, with
/// no acknowledgement in between.
pub fn write_console(console: &mut Console, bytes: &[u8])
    requires
        old(console).wf(),
    ensures
        final(console).wf(),
        final(console)@ == spec_emit(old(console)@, spec_frame(OP_DEBUG, bytes@)),
{
    write_header(console, OP_DEBUG, bytes.len());
    console.emit(bytes);
    proof {
        let link = old(console)@;
        let header = spec_header(OP_DEBUG, bytes@.len());
        assert(spec_emit(spec_emit(link, header), bytes@) =~= spec_emit(link, header + bytes@)) by {
            if link.held.len() > 0 {
                assert((link.held.last() + header) + bytes@ =~= link.held.last() + (header
                    + bytes@));
                assert(spec_emit(spec_emit(link, header), bytes@).held =~= spec_emit(
                    link,
                    header + bytes@,
                ).held);
            } else {
                assert((link.output + header) + bytes@ =~= link.output + (header + bytes@));
            }
        }
    }
}

/// Writes a message with opcode `code`: the header, then the payload in
/// blocks of 256 bytes, each block after an acknowledgement, and a last
/// acknowledgement behind the last block.
pub fn write_comm(console: &mut Console, bytes: &[u8], code: u8)
    requires
        old(console).wf(),
    ensures
        final(console).wf(),
        final(console)@ == spec_write_comm(old(console)@, bytes@, code),
{
    write_header(console, code, bytes.len());
    let ghost started = console@;
    let count: usize = if bytes.len() % CHUNK == 0 {
        bytes.len() / CHUNK
    } else {
        bytes.len() / CHUNK + 1
    };
    let mut i: usize = 0;
    while i < count
        invariant
            i <= count,
            count == spec_chunk_count(bytes.len() as nat),
            console.wf(),
            console@ == (Link {
                held: started.held + spec_chunks(bytes@).subrange(0, i as int),
                ..started
            }),
        decreases count - i,
    {
        let ghost before = console@;
        eat_ack(console);
        let from: usize = i * CHUNK;
        let to: usize = if bytes.len() - from < CHUNK {
            bytes.len()
        } else {
            from + CHUNK
        };
        let block = vstd::slice::slice_subrange(bytes, from, to);
        assert(block@ == spec_chunk(bytes@, i as int));
        console.emit(block);
        assert(console@.held =~= started.held + spec_chunks(bytes@).subrange(0, i + 1)) by {
            assert(Seq::<u8>::empty() + block@ =~= block@);
        }
        i += 1;
    }
    eat_ack(console);
    assert(spec_chunks(bytes@).subrange(0, count as int) =~= spec_chunks(bytes@));
    assert(console@.held =~= started.held + spec_chunks(bytes@).push(Seq::empty()));
}

/// Writes an error report: a message with opcode `E`.
pub fn write_err(console: &mut Console, bytes: &[u8])
    requires
        old(console).wf(),
    ensures
        final(console).wf(),
        final(console)@ == spec_write_comm(old(console)@, bytes@, OP_ERROR),
{
    write_comm(console, bytes, OP_ERROR);
}

/// Reads a header.
pub fn parse_header(header: &[u8; 4]) -> (r: Result<(u8, u16), HeaderError>)
    ensures
        r == spec_parse_header(header@),
{
    if header[0] != MAGIC {
        return Err(HeaderError::BadMagic);
    }
    let opcode = header[1];
    if opcode != OP_ERROR && opcode != OP_LIST && opcode != OP_SUBSCRIBE && opcode != OP_DECODE
        && opcode != OP_ACK {
        return Err(HeaderError::BadOpcode);
    }
    let length: u16 = header[2] as u16 + 0x100 * (header[3] as u16);
    Ok((opcode, length))
}

/// Number of blocks that a payload of `len` bytes travels in.
pub fn chunk_count(len: u16) -> (count: u32)
    ensures
        count == spec_chunk_count(len as nat),
        count <= 256,
{
    (len as u32 + 255) / 256
}

/// The blocks of a payload, joined in order, are the payload.
pub proof fn lemma_chunks_join(payload: Seq<u8>, count: nat)
    requires
        count <= spec_chunk_count(payload.len()),
    ensures
        spec_join(spec_chunks(payload), count) == payload.subrange(
            0,
            if 256 * count <= payload.len() {
                256 * count as int
            } else {
                payload.len() as int
            },
        ),
    decreases count,
{
    if count > 0 {
        lemma_chunks_join(payload, (count - 1) as nat);
    }
}

/// A message comes back from the wire as it was written: the header
/// yields the opcode and the length, and the blocks behind it yield the
/// payload. This holds of every opcode that the decoder reads and every
/// payload whose length fits the header.
pub proof fn lemma_frame_round_trip(code: u8, payload: Seq<u8>)
    requires
        spec_is_opcode(code),
        payload.len() <= 0xFFFF,
    ensures
        spec_parse_header(spec_frame(code, payload).subrange(0, 4)) == Ok::<
            (u8, u16),
            HeaderError,
        >((code, payload.len() as u16)),
        spec_frame(code, payload).subrange(4, spec_frame(code, payload).len() as int) == payload,
        spec_join(spec_chunks(payload), spec_chunk_count(payload.len())) == payload,
{
    lemma_chunks_join(payload, spec_chunk_count(payload.len()));
    let frame = spec_frame(code, payload);
    assert(frame.subrange(0, 4) =~= spec_header(code, payload.len()));
    assert(frame.subrange(4, frame.len() as int) =~= payload);
    let len = payload.len();
    assert((len % 0x100) as u8 as nat + 0x100 * ((len / 0x100 % 0x100) as u8 as nat) == len);
}

} // verus!
