//! The subscription region of the on-chip flash, as a byte image, and the
//! typed reads and writes that the store makes on it.
//!
//! The device programs 128-bit words and can only clear bits: a word is
//! written once after its page was erased. The image keeps that
//! discipline, so whatever the store does here the device accepts too.

use vstd::prelude::*;

verus! {

/// First address of the subscription region.
pub const SUB_LOC: u32 = 0x1003_6000;

/// Bytes between the records of two neighbouring slots: one flash page.
pub const SUB_SPACE: u32 = 8192;

/// First address behind the subscription region.
pub const SUB_END: u32 = 0x1004_6000;

/// Bytes in the subscription region.
pub const SUB_REGION: usize = 0x1_0000;

/// What a flash operation can fail with.
#[derive(Clone, Copy, Debug, PartialEq, Eq, Structural)]
pub enum FlashError {
    /// The buffer handed in is shorter than the length asked for.
    LowSpace,
    /// The address is misaligned or outside the region.
    InvalidAddress,
    /// The controller refused a read.
    ReadFailed,
    /// The controller was busy or locked.
    AccessViolation,
    /// The target word has been written since its page was last erased.
    NeedsErase,
}

/// Image of the subscription region.
pub struct Flash {
    mem: Vec<u8>,
}

/// Whether a word can be addressed at `address`.
pub open spec fn spec_word_address(address: int) -> bool {
    address % 16 == 0 && SUB_LOC <= address < SUB_END
}

/// Whether the 16 bytes of `mem` from `offset` on are all erased.
pub open spec fn spec_erased(mem: Seq<u8>, offset: int) -> bool {
    forall|i: int| offset <= i < offset + 16 ==> mem[i] == 0xFF
}

/// `mem` with `data` laid over it from `offset` on.
pub open spec fn spec_overlay(mem: Seq<u8>, offset: int, data: Seq<u8>) -> Seq<u8> {
    Seq::new(
        mem.len(),
        |i: int|
            if offset <= i < offset + data.len() {
                data[i - offset]
            } else {
                mem[i]
            },
    )
}

/// What writing one word at `address` fails with, if it fails.
pub open spec fn spec_write_refusal(mem: Seq<u8>, address: int) -> Option<FlashError> {
    if !spec_word_address(address) {
        Some(FlashError::InvalidAddress)
    } else if !spec_erased(mem, address - SUB_LOC) {
        Some(FlashError::NeedsErase)
    } else {
        None
    }
}

/// The image and the first refusal after writing the first `words` words of
/// `data` from address `dst` on, one word after the other, stopping at the
/// first word that is refused.
pub open spec fn spec_write_words(mem: Seq<u8>, dst: int, data: Seq<u8>, words: nat) -> (
    Seq<u8>,
    Option<FlashError>,
)
    decreases words,
{
    if words == 0 {
        (mem, None)
    } else {
        let before = spec_write_words(mem, dst, data, (words - 1) as nat);
        let address = dst + 16 * (words - 1);
        if before.1 is Some {
            before
        } else if spec_write_refusal(before.0, address) is Some {
            (before.0, spec_write_refusal(before.0, address))
        } else {
            (
                spec_overlay(
                    before.0,
                    address - SUB_LOC,
                    data.subrange(16 * (words - 1), 16 * words as int),
                ),
                None,
            )
        }
    }
}

/// How many of `words` words from address `frm` on can be read: all of
/// them up to the end of the region, and none from a misaligned start.
pub open spec fn spec_readable_words(frm: int, words: nat) -> nat {
    if !spec_word_address(frm) {
        0
    } else if frm + 16 * words <= SUB_END {
        words
    } else {
        ((SUB_END - frm) / 16) as nat
    }
}

/// `dst` with its first `16 * words` bytes taken from `mem`, from the byte
/// that address `frm` names on.
pub open spec fn spec_read_words(dst: Seq<u8>, mem: Seq<u8>, frm: int, words: nat) -> Seq<u8> {
    Seq::new(
        dst.len(),
        |i: int|
            if i < 16 * words {
                mem[frm - SUB_LOC + i]
            } else {
                dst[i]
            },
    )
}

/// `mem` with the `page`-th page erased.
pub open spec fn spec_erase(mem: Seq<u8>, page: int) -> Seq<u8> {
    Seq::new(
        mem.len(),
        |i: int|
            if page * SUB_SPACE <= i < (page + 1) * SUB_SPACE {
                0xFFu8
            } else {
                mem[i]
            },
    )
}

impl View for Flash {
    type V = Seq<u8>;

    closed spec fn view(&self) -> Seq<u8> {
        self.mem@
    }
}

impl Flash {
    /// The image spans the whole region.
    pub open spec fn wf(&self) -> bool {
        self@.len() == SUB_REGION
    }

    /// A region with every page erased.
    pub fn new() -> (flash: Flash)
        ensures
            flash.wf(),
            forall|i: int| 0 <= i < SUB_REGION ==> flash@[i] == 0xFF,
    {
        let mut mem: Vec<u8> = Vec::new();
        let mut i: usize = 0;
        while i < SUB_REGION
            invariant
                i <= SUB_REGION,
                mem.len() == i,
                forall|j: int| 0 <= j < i ==> mem@[j] == 0xFF,
            decreases SUB_REGION - i,
        {
            mem.push(0xFF);
            i += 1;
        }
        Flash { mem }
    }

    /// The region with the contents of `image`, which must span it.
    pub fn from_image(image: Vec<u8>) -> (flash: Option<Flash>)
        ensures
            flash is Some <==> image.len() == SUB_REGION,
            flash matches Some(f) ==> f.wf() && f@ == image@,
    {
        if image.len() == SUB_REGION {
            Some(Flash { mem: image })
        } else {
            None
        }
    }

    /// The contents of the region, first byte first.
    pub fn image(&self) -> (bytes: &Vec<u8>)
        ensures
            bytes@ == self@,
    {
        &self.mem
    }

    /// Checks that `address` lies in the region.
    pub fn check_address(&self, address: u32) -> (r: Result<(), FlashError>)
        ensures
            r is Ok <==> SUB_LOC <= address < SUB_END,
            r is Err ==> r == Err::<(), FlashError>(FlashError::InvalidAddress),
    {
        if address < SUB_LOC || address >= SUB_END {
            return Err(FlashError::InvalidAddress);
        }
        Ok(())
    }

    /// Reads the word at `address`.
    pub fn read_128(&self, address: u32) -> (r: Result<[u8; 16], FlashError>)
        requires
            self.wf(),
        ensures
            r is Ok <==> spec_word_address(address as int),
            r is Err ==> r == Err::<[u8; 16], FlashError>(FlashError::InvalidAddress),
            r matches Ok(word) ==> word@ == self@.subrange(
                address - SUB_LOC,
                address - SUB_LOC + 16,
            ),
    {
        if address % 16 != 0 || address < SUB_LOC || address >= SUB_END {
            return Err(FlashError::InvalidAddress);
        }
        let offset: usize = (address - SUB_LOC) as usize;
        let mut word = [0u8; 16];
        let mut i: usize = 0;
        while i < 16
            invariant
                i <= 16,
                offset + 16 <= self.mem.len(),
                forall|j: int| 0 <= j < i ==> word@[j] == self.mem@[offset + j],
            decreases 16 - i,
        {
            word[i] = self.mem[offset + i];
            i += 1;
        }
        assert(word@ == self@.subrange(offset as int, offset + 16));
        Ok(word)
    }

    /// Programs the word at `address`, which must not have been written
    /// since its page was erased.
    pub fn write_128(&mut self, address: u32, data: &[u8; 16]) -> (r: Result<(), FlashError>)
        requires
            old(self).wf(),
        ensures
            final(self).wf(),
            r == match spec_write_refusal(old(self)@, address as int) {
                Some(e) => Err::<(), FlashError>(e),
                None => Ok::<(), FlashError>(()),
            },
            r is Err ==> final(self)@ == old(self)@,
            r is Ok ==> final(self)@ == spec_overlay(old(self)@, address - SUB_LOC, data@),
    {
        if address % 16 != 0 || address < SUB_LOC || address >= SUB_END {
            return Err(FlashError::InvalidAddress);
        }
        let offset: usize = (address - SUB_LOC) as usize;
        let mut i: usize = 0;
        while i < 16
            invariant
                i <= 16,
                offset == address - SUB_LOC,
                spec_word_address(address as int),
                self.mem.len() == SUB_REGION,
                self.mem@ == old(self).mem@,
                forall|j: int| offset <= j < offset + i ==> self.mem@[j] == 0xFF,
            decreases 16 - i,
        {
            if self.mem[offset + i] != 0xFF {
                return Err(FlashError::NeedsErase);
            }
            i += 1;
        }
        let mut k: usize = 0;
        while k < 16
            invariant
                k <= 16,
                offset + 16 <= self.mem.len(),
                self.mem.len() == old(self).mem.len(),
                forall|j: int|
                    0 <= j < self.mem.len() ==> self.mem@[j] == if offset <= j < offset + k {
                        data@[j - offset]
                    } else {
                        old(self).mem@[j]
                    },
            decreases 16 - k,
        {
            self.mem[offset + k] = data[k];
            k += 1;
        }
        assert(self@ == spec_overlay(old(self)@, offset as int, data@));
        Ok(())
    }

    /// Erases the page that holds `address`.
    pub fn erase_page(&mut self, address: u32) -> (r: Result<(), FlashError>)
        requires
            old(self).wf(),
        ensures
            final(self).wf(),
            r is Ok <==> SUB_LOC <= address < SUB_END,
            r is Err ==> r == Err::<(), FlashError>(FlashError::InvalidAddress) && final(self)@
                == old(self)@,
            r is Ok ==> final(self)@ == spec_erase(
                old(self)@,
                (address - SUB_LOC) / (SUB_SPACE as int),
            ),
    {
        if address < SUB_LOC || address >= SUB_END {
            return Err(FlashError::InvalidAddress);
        }
        let page: usize = ((address - SUB_LOC) / SUB_SPACE) as usize;
        let start: usize = page * (SUB_SPACE as usize);
        let mut i: usize = 0;
        while i < SUB_SPACE as usize
            invariant
                i <= SUB_SPACE,
                page < 8,
                start == page * SUB_SPACE,
                self.mem.len() == old(self).mem.len() == SUB_REGION,
                forall|j: int|
                    0 <= j < self.mem.len() ==> self.mem@[j] == if start <= j < start + i {
                        0xFFu8
                    } else {
                        old(self).mem@[j]
                    },
            decreases SUB_SPACE - i,
        {
            self.mem[start + i] = 0xFF;
            i += 1;
        }
        assert(self@ == spec_erase(old(self)@, page as int));
        Ok(())
    }
}

/// Reads `len` bytes, in whole words, from address `frm` into the front of
/// `dst`. A buffer shorter than `len` is refused untouched, and so is a
/// misaligned address; a word outside the region ends the transfer, with
/// the words before it in place.
pub fn read_bytes(flc: &Flash, frm: u32, dst: &mut Vec<u8>, len: usize) -> (r: Result<
    (),
    FlashError,
>)
    requires
        flc.wf(),
    ensures
        final(dst)@.len() == old(dst)@.len(),
        old(dst)@.len() < len ==> r == Err::<(), FlashError>(FlashError::LowSpace) && final(dst)@
            == old(dst)@,
        old(dst)@.len() >= len ==> {
            let words = (len / 16) as nat;
            let got = spec_readable_words(frm as int, words);
            &&& r == if got == words {
                Ok::<(), FlashError>(())
            } else if frm % 16 != 0 {
                Err::<(), FlashError>(FlashError::InvalidAddress)
            } else {
                Err::<(), FlashError>(FlashError::ReadFailed)
            }
            &&& final(dst)@ == spec_read_words(old(dst)@, flc@, frm as int, got)
        },
{
    if dst.len() < len {
        return Err(FlashError::LowSpace);
    }
    let words: usize = len / 16;
    let mut i: usize = 0;
    assert(dst@ == spec_read_words(old(dst)@, flc@, frm as int, 0));
    while i < words
        invariant
            i <= words,
            words == len / 16,
            flc.wf(),
            dst.len() == old(dst).len(),
            dst.len() >= len,
            i > 0 ==> spec_word_address(frm as int),
            frm + 16 * i <= SUB_END || i == 0,
            dst@ == spec_read_words(old(dst)@, flc@, frm as int, i as nat),
        decreases words - i,
    {
        if frm % 16 != 0 {
            return Err(FlashError::InvalidAddress);
        }
        let address: u64 = frm as u64 + 16 * (i as u64);
        if address > 0xFFFF_FFFF {
            return Err(FlashError::ReadFailed);
        }
        match flc.read_128(address as u32) {
            Err(_) => {
                return Err(FlashError::ReadFailed);
            },
            Ok(word) => {
                let ghost before = dst@;
                let mut k: usize = 0;
                while k < 16
                    invariant
                        k <= 16,
                        16 * i + 16 <= dst.len(),
                        dst.len() == before.len(),
                        forall|j: int|
                            0 <= j < dst@.len() ==> dst@[j] == if 16 * i <= j < 16 * i + k {
                                word@[j - 16 * i]
                            } else {
                                before[j]
                            },
                    decreases 16 - k,
                {
                    dst[16 * i + k] = word[k];
                    k += 1;
                }
                assert(dst@ == spec_read_words(old(dst)@, flc@, frm as int, (i + 1) as nat));
            },
        }
        i += 1;
    }
    Ok(())
}

/// Writes `len` bytes of `from`, in whole words, to address `dst`. A
/// source shorter than `len` is refused with nothing written; a word that
/// the image refuses ends the transfer, with the words before it written.
pub fn write_bytes(flc: &mut Flash, dst: u32, from: &[u8], len: usize) -> (r: Result<
    (),
    FlashError,
>)
    requires
        old(flc).wf(),
    ensures
        final(flc).wf(),
        from@.len() < len ==> r == Err::<(), FlashError>(FlashError::LowSpace) && final(flc)@
            == old(flc)@,
        from@.len() >= len ==> {
            let done = spec_write_words(old(flc)@, dst as int, from@, (len / 16) as nat);
            &&& final(flc)@ == done.0
            &&& r == match done.1 {
                Some(e) => Err::<(), FlashError>(e),
                None => Ok::<(), FlashError>(()),
            }
        },
{
    if from.len() < len {
        return Err(FlashError::LowSpace);
    }
    let words: usize = len / 16;
    let mut i: usize = 0;
    while i < words
        invariant
            i <= words,
            words == len / 16,
            from.len() >= len,
            flc.wf(),
            spec_write_words(old(flc)@, dst as int, from@, i as nat) == (
                flc@,
                None::<FlashError>,
            ),
        decreases words - i,
    {
        let ghost before = flc@;
        let address: u64 = dst as u64 + 16 * (i as u64);
        let mut word = [0u8; 16];
        let mut k: usize = 0;
        while k < 16
            invariant
                k <= 16,
                16 * i + 16 <= from.len(),
                forall|j: int| 0 <= j < k ==> word@[j] == from@[16 * i + j],
            decreases 16 - k,
        {
            word[k] = from[16 * i + k];
            k += 1;
        }
        assert(word@ == from@.subrange(16 * i, 16 * (i + 1) as int));
        let outcome = if address > 0xFFFF_FFFF {
            Err(FlashError::InvalidAddress)
        } else {
            flc.write_128(address as u32, &word)
        };
        match outcome {
            Err(e) => {
                proof {
                    lemma_write_refusal_sticks(
                        old(flc)@,
                        dst as int,
                        from@,
                        (i + 1) as nat,
                        words as nat,
                    );
                }
                return Err(e);
            },
            Ok(()) => {},
        }
        i += 1;
    }
    Ok(())
}

/// Once a word has been refused, writing further words changes nothing.
pub proof fn lemma_write_refusal_sticks(
    mem: Seq<u8>,
    dst: int,
    data: Seq<u8>,
    at: nat,
    words: nat,
)
    requires
        at <= words,
        spec_write_words(mem, dst, data, at).1 is Some,
    ensures
        spec_write_words(mem, dst, data, words) == spec_write_words(mem, dst, data, at),
    decreases words - at,
{
    if at < words {
        lemma_write_refusal_sticks(mem, dst, data, at, (words - 1) as nat);
    }
}

/// Writing words changes the image nowhere but in the words written: its
/// length stays, and so does every byte outside the target.
pub proof fn lemma_write_words_keeps(mem: Seq<u8>, dst: int, data: Seq<u8>, words: nat)
    requires
        data.len() >= 16 * words,
    ensures
        spec_write_words(mem, dst, data, words).0.len() == mem.len(),
        forall|i: int|
            0 <= i < mem.len() && (i < dst - SUB_LOC || i >= dst - SUB_LOC + 16 * words)
                ==> spec_write_words(mem, dst, data, words).0[i] == mem[i],
    decreases words,
{
    if words > 0 {
        lemma_write_words_keeps(mem, dst, data, (words - 1) as nat);
        let before = spec_write_words(mem, dst, data, (words - 1) as nat);
        let after = spec_write_words(mem, dst, data, words);
        assert forall|i: int|
            0 <= i < mem.len() && (i < dst - SUB_LOC || i >= dst - SUB_LOC + 16 * words)
                implies after.0[i] == mem[i] by {
            assert(before.0[i] == mem[i]);
        }
    }
}

/// Words that are erased take a write: where every byte of the target is
/// erased and the target lies in the region, no word is refused, and the
/// image then holds the data there and is unchanged elsewhere. So a write
/// that follows the erasing of its page never needs another erase.
pub proof fn lemma_write_words_erased(mem: Seq<u8>, dst: int, data: Seq<u8>, words: nat)
    requires
        mem.len() == SUB_REGION,
        dst % 16 == 0,
        SUB_LOC <= dst,
        dst + 16 * words <= SUB_END,
        data.len() >= 16 * words,
        forall|i: int| dst - SUB_LOC <= i < dst - SUB_LOC + 16 * words ==> mem[i] == 0xFF,
    ensures
        spec_write_words(mem, dst, data, words) == (
            spec_overlay(mem, dst - SUB_LOC, data.subrange(0, 16 * words as int)),
            None::<FlashError>,
        ),
    decreases words,
{
    if words == 0 {
        assert(spec_overlay(mem, dst - SUB_LOC, data.subrange(0, 0)) =~= mem);
    } else {
        lemma_write_words_erased(mem, dst, data, (words - 1) as nat);
        let before = spec_overlay(mem, dst - SUB_LOC, data.subrange(0, 16 * (words - 1)));
        let address = dst + 16 * (words - 1);
        assert(spec_word_address(address));
        assert(spec_erased(before, address - SUB_LOC));
        assert(spec_overlay(
            before,
            address - SUB_LOC,
            data.subrange(16 * (words - 1), 16 * words as int),
        ) =~= spec_overlay(mem, dst - SUB_LOC, data.subrange(0, 16 * words as int)));
    }
}

/// The name under which a flash error is reported.
pub fn map_err(err: FlashError) -> (name: &'static str)
    ensures
        name == spec_map_err(err),
{
    match err {
        FlashError::LowSpace => "FlashError::LowSpace",
        FlashError::InvalidAddress => "FlashError::InvalidAddress",
        FlashError::ReadFailed => "FlashError::ReadFailed",
        FlashError::AccessViolation => "FlashError::AccessViolation",
        FlashError::NeedsErase => "FlashError::NeedsErase",
    }
}

/// The name under which a flash error is reported.
pub open spec fn spec_map_err(err: FlashError) -> &'static str {
    match err {
        FlashError::LowSpace => "FlashError::LowSpace",
        FlashError::InvalidAddress => "FlashError::InvalidAddress",
        FlashError::ReadFailed => "FlashError::ReadFailed",
        FlashError::AccessViolation => "FlashError::AccessViolation",
        FlashError::NeedsErase => "FlashError::NeedsErase",
    }
}

} // verus!
