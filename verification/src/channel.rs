//! The transport control block and the channel writer.
//!
//! The control block is the passive structure an external debug probe scans
//! target memory for; the writer appends bytes to its circular backing
//! storage without blocking and without consulting the reader's cursor.

use vstd::prelude::*;

verus! {

/// Capacity of the backing storage, in bytes.
pub const BUFFER_SIZE: usize = 1024;

/// Length of the identification field, in bytes.
pub const ID_LEN: usize = 16;

/// Descriptor of the single up (target-to-host) channel: a label, the
/// backing storage itself, and the two cursors. The producer owns
/// `write_offset`; `read_offset` belongs to the external reader and is never
/// read or written by the firmware side.
pub struct Buffer {
    /// Null-terminated label the host tool displays for this channel.
    pub name: Vec<u8>,
    /// Circular backing storage of capacity `BUFFER_SIZE`.
    pub buf: Vec<u8>,
    /// Declared capacity of `buf`, as the external reader sees it.
    pub size_of_buffer: u32,
    /// Position of the next byte to be written by the producer.
    pub write_offset: u32,
    /// Position of the next byte to be read by the host; owned by the host.
    pub read_offset: u32,
    /// Blocking-mode flags; always zero here (non-blocking, no flow control).
    pub flags: u32,
}

/// The root discoverable structure: identification tag, channel counts, and
/// the single up-channel descriptor.
pub struct ControlBlock {
    /// Magic tag the external reader scans for; holds an innocuous
    /// placeholder until `initialize_channel` assembles the tag in place.
    pub id: Vec<u8>,
    /// Number of up (target-to-host) channels; always one here.
    pub up_buffers: i32,
    /// Number of down (host-to-target) channels; always zero here.
    pub down_buffers: i32,
    /// The single up-channel descriptor.
    pub up: Buffer,
}

/// The label of the up channel: "Terminal" with its terminating NUL.
pub open spec fn channel_name() -> Seq<u8> {
    seq![0x54u8, 0x65u8, 0x72u8, 0x6du8, 0x69u8, 0x6eu8, 0x61u8, 0x6cu8, 0u8]
}

/// The identification field before initialization: all zero, so a scanner
/// cannot discover the block prematurely.
pub open spec fn placeholder_id() -> Seq<u8> {
    Seq::new(ID_LEN as nat, |i: int| 0u8)
}

/// First sub-write of the identification field: the bytes "SEGG_".
pub open spec fn tag_fragment_head() -> Seq<u8> {
    seq![0x53u8, 0x45u8, 0x47u8, 0x47u8, 0x5fu8]
}

/// Second sub-write of the identification field, laid down at offset 4 over
/// the tail of the first: the bytes "ER RTT" and six NUL bytes of padding.
pub open spec fn tag_fragment_tail() -> Seq<u8> {
    seq![0x45u8, 0x52u8, 0x20u8, 0x52u8, 0x54u8, 0x54u8, 0u8, 0u8, 0u8, 0u8, 0u8, 0u8]
}

/// The magic tag the external reader scans live memory for: "SEGGER RTT",
/// ten bytes. It exists only as the overlap of the two fragments; neither
/// fragment holds it whole (see `lemma_tag_assembled_only`).
pub open spec fn magic_tag() -> Seq<u8> {
    tag_fragment_head().take(4) + tag_fragment_tail().take(6)
}

/// The identification field after initialization: the magic tag followed by
/// NUL padding out to `ID_LEN` bytes.
pub open spec fn assembled_id() -> Seq<u8> {
    tag_fragment_head().take(4) + tag_fragment_tail()
}

/// `data` holds the full magic tag as a contiguous run of bytes.
pub open spec fn contains_tag(data: Seq<u8>) -> bool {
    exists|i: int|
        0 <= i && i + magic_tag().len() <= data.len() && #[trigger] data.subrange(
            i,
            i + magic_tag().len(),
        ) == magic_tag()
}

/// Deferred assembly of the magic tag: the full tag occurs contiguously in
/// neither of the two fragments the initializer writes (so a scanner of the
/// program's read-only image, where only the fragments exist verbatim,
/// cannot find it), nor in the placeholder identification field; it appears
/// exactly once initialization has assembled it in writable state.
pub proof fn lemma_tag_assembled_only()
    ensures
        magic_tag().len() == 10,
        !contains_tag(tag_fragment_head()),
        !contains_tag(tag_fragment_tail()),
        !contains_tag(placeholder_id()),
        assembled_id().take(10) == magic_tag(),
        contains_tag(assembled_id()),
{
    assert(magic_tag().len() == 10);
    assert(magic_tag()[0] == 0x53u8);
    // Too short to hold the ten-byte tag at all.
    assert(!contains_tag(tag_fragment_head()));
    // Long enough, but no candidate start byte matches the tag's first byte.
    assert forall|i: int|
        0 <= i && i + 10 <= tag_fragment_tail().len() implies #[trigger] tag_fragment_tail()
        .subrange(i, i + 10) != magic_tag() by {
        assert(tag_fragment_tail().subrange(i, i + 10)[0] == tag_fragment_tail()[i]);
        assert(tag_fragment_tail()[i] != 0x53u8);
    }
    // The placeholder is all zero, and the tag does not start with zero.
    assert forall|i: int|
        0 <= i && i + 10 <= placeholder_id().len() implies #[trigger] placeholder_id().subrange(
        i,
        i + 10,
    ) != magic_tag() by {
        assert(placeholder_id().subrange(i, i + 10)[0] == 0u8);
    }
    assert(assembled_id().take(10) =~= magic_tag());
    let tag_len: int = magic_tag().len() as int;
    assert(assembled_id().subrange(0, 0 + tag_len) =~= magic_tag());
    assert(0 + tag_len <= assembled_id().len() && assembled_id().subrange(0, 0 + tag_len)
        == magic_tag());
    assert(contains_tag(assembled_id()));
}

/// Relates the identification field before and after `initialize_channel`:
/// the tag is assembled in place and everything else is left alone.
pub open spec fn init_post(pre: ControlBlock, post: ControlBlock) -> bool {
    &&& post.id@ == assembled_id()
    &&& post.up_buffers == pre.up_buffers
    &&& post.down_buffers == pre.down_buffers
    &&& post.up == pre.up
}

/// Re-initialization is idempotent: initializing an already-initialized
/// control block reproduces the same identification field and leaves the
/// channel descriptor untouched.
pub proof fn lemma_initialize_idempotent(
    first: ControlBlock,
    second: ControlBlock,
    third: ControlBlock,
)
    requires
        init_post(first, second),
        init_post(second, third),
    ensures
        third.id@ == second.id@,
        third.up == second.up,
        third.up_buffers == second.up_buffers,
        third.down_buffers == second.down_buffers,
{
}

impl Buffer {
    /// The descriptor describes its own storage truthfully and the producer
    /// cursor stays short of the one-byte reserved margin at the end.
    pub open spec fn wf(self) -> bool {
        &&& self.buf@.len() == BUFFER_SIZE
        &&& self.size_of_buffer == BUFFER_SIZE as u32
        &&& self.write_offset < (BUFFER_SIZE - 1) as u32
    }
}

impl ControlBlock {
    pub open spec fn wf(self) -> bool {
        &&& self.id@.len() == ID_LEN
        &&& self.up.wf()
    }

    /// The all-zero/placeholder content the block holds from link time until
    /// the first initialization: tag not yet assembled, one up channel, no
    /// down channel, cursors at zero.
    pub fn placeholder() -> (cb: ControlBlock)
        ensures
            cb.wf(),
            cb.id@ == placeholder_id(),
            cb.up_buffers == 1i32,
            cb.down_buffers == 0i32,
            cb.up.name@ == channel_name(),
            cb.up.buf@ == Seq::new(BUFFER_SIZE as nat, |i: int| 0u8),
            cb.up.write_offset == 0u32,
            cb.up.read_offset == 0u32,
            cb.up.flags == 0u32,
    {
        let id = alloc_zero_bytes(ID_LEN);
        let buf = alloc_zero_bytes(BUFFER_SIZE);
        let mut name: Vec<u8> = Vec::new();
        name.push(0x54);
        name.push(0x65);
        name.push(0x72);
        name.push(0x6d);
        name.push(0x69);
        name.push(0x6e);
        name.push(0x61);
        name.push(0x6c);
        name.push(0);
        proof {
            assert(name@ =~= channel_name());
            assert(id@ =~= placeholder_id());
        }
        ControlBlock {
            id,
            up_buffers: 1,
            down_buffers: 0,
            up: Buffer {
                name,
                buf,
                size_of_buffer: 1024,
                write_offset: 0,
                read_offset: 0,
                flags: 0,
            },
        }
    }

    /// Stand up the control block for discovery: assemble the magic tag into
    /// the identification field. The tag is written in two overlapping
    /// sub-writes — first "SEGG_", then "ER RTT" plus padding at offset 4,
    /// overwriting the "_" — so the complete tag never exists verbatim in the
    /// program's read-only image; only running this call assembles it, in
    /// writable state. Idempotent: no failure path, and a second call
    /// reproduces the same field (see `lemma_initialize_idempotent`).
    pub fn initialize_channel(&mut self)
        requires
            old(self).wf(),
        ensures
            final(self).wf(),
            init_post(*old(self), *final(self)),
    {
        // First sub-write: "SEGG_" at offset 0.
        self.id[0] = 0x53;
        self.id[1] = 0x45;
        self.id[2] = 0x47;
        self.id[3] = 0x47;
        self.id[4] = 0x5f;
        // Second sub-write: "ER RTT" and six NUL bytes at offset 4.
        self.id[4] = 0x45;
        self.id[5] = 0x52;
        self.id[6] = 0x20;
        self.id[7] = 0x52;
        self.id[8] = 0x54;
        self.id[9] = 0x54;
        self.id[10] = 0;
        self.id[11] = 0;
        self.id[12] = 0;
        self.id[13] = 0;
        self.id[14] = 0;
        self.id[15] = 0;
        proof {
            assert(self.id@ =~= assembled_id());
        }
    }

    /// One internal writer step: copy as much of `bytes[from..]` as fits in
    /// the contiguous run from the write offset to one byte short of the
    /// physical end of the storage, advance the offset, and reset it to zero
    /// if it reached the reserved margin. Returns how many bytes were
    /// consumed; at least one.
    fn write_step(&mut self, bytes: &[u8], from: usize) -> (count: usize)
        requires
            old(self).wf(),
            from < bytes@.len(),
        ensures
            final(self).wf(),
            1 <= count,
            from + count <= bytes@.len(),
            count as int == (if bytes@.len() - from <= BUFFER_SIZE - 1 - old(self).up.write_offset {
                bytes@.len() - from
            } else {
                BUFFER_SIZE - 1 - old(self).up.write_offset as int
            }),
            final(self).up.buf@ == old(self).up.buf@.take(old(self).up.write_offset as int)
                + bytes@.subrange(from as int, from + count) + old(self).up.buf@.skip(
                old(self).up.write_offset + count,
            ),
            final(self).up.write_offset as int == (if old(self).up.write_offset + count
                >= BUFFER_SIZE - 1 {
                0int
            } else {
                old(self).up.write_offset + count
            }),
            final(self).id == old(self).id,
            final(self).up_buffers == old(self).up_buffers,
            final(self).down_buffers == old(self).down_buffers,
            final(self).up.name == old(self).up.name,
            final(self).up.size_of_buffer == old(self).up.size_of_buffer,
            final(self).up.read_offset == old(self).up.read_offset,
            final(self).up.flags == old(self).up.flags,
    {
        let ghost pre = *old(self);
        let wo = self.up.write_offset as usize;
        let available = BUFFER_SIZE - 1 - wo;
        let remaining = bytes.len() - from;
        let count = if remaining < available {
            remaining
        } else {
            available
        };
        let mut j: usize = 0;
        while j < count
            invariant
                pre.wf(),
                j <= count,
                wo == pre.up.write_offset as usize,
                count >= 1,
                bytes@.len() <= usize::MAX,
                wo + count <= BUFFER_SIZE - 1,
                from + count <= bytes@.len(),
                self.up.write_offset == pre.up.write_offset,
                self.up.buf@.len() == BUFFER_SIZE,
                self.up.buf@ == pre.up.buf@.take(wo as int) + bytes@.subrange(
                    from as int,
                    from + j,
                ) + pre.up.buf@.skip(wo + j),
                self.id == pre.id,
                self.up_buffers == pre.up_buffers,
                self.down_buffers == pre.down_buffers,
                self.up.name == pre.up.name,
                self.up.size_of_buffer == pre.up.size_of_buffer,
                self.up.read_offset == pre.up.read_offset,
                self.up.flags == pre.up.flags,
            decreases count - j,
        {
            let b = *vstd::slice::slice_index_get(bytes, from + j);
            self.up.buf[wo + j] = b;
            j = j + 1;
            proof {
                assert(self.up.buf@ =~= pre.up.buf@.take(wo as int) + bytes@.subrange(
                    from as int,
                    from + j,
                ) + pre.up.buf@.skip(wo + j));
            }
        }
        let mut new_wo = wo + count;
        if new_wo >= BUFFER_SIZE - 1 {
            new_wo = 0;
        }
        self.up.write_offset = new_wo as u32;
        count
    }

    /// Append `bytes` to the channel, spanning the reserved margin as often
    /// as needed: the step above is repeated on the unwritten remainder of
    /// the input until all of it has been consumed. Never blocks, never
    /// fails; a write longer than the storage overwrites this call's own
    /// earlier bytes, which is the documented lossy behavior. The reader's
    /// cursor is never consulted.
    pub fn write(&mut self, bytes: &[u8])
        requires
            old(self).wf(),
        ensures
            final(self).wf(),
            final(self).up.buf@ == write_spec(
                old(self).up.buf@,
                old(self).up.write_offset as int,
                bytes@,
            ).0,
            final(self).up.write_offset as int == write_spec(
                old(self).up.buf@,
                old(self).up.write_offset as int,
                bytes@,
            ).1,
            final(self).id == old(self).id,
            final(self).up_buffers == old(self).up_buffers,
            final(self).down_buffers == old(self).down_buffers,
            final(self).up.name == old(self).up.name,
            final(self).up.size_of_buffer == old(self).up.size_of_buffer,
            final(self).up.read_offset == old(self).up.read_offset,
            final(self).up.flags == old(self).up.flags,
    {
        let ghost pre = *old(self);
        let mut from: usize = 0;
        proof {
            assert(bytes@.skip(0) =~= bytes@);
        }
        while from < bytes.len()
            invariant
                self.wf(),
                from <= bytes@.len(),
                write_spec(pre.up.buf@, pre.up.write_offset as int, bytes@) == write_spec(
                    self.up.buf@,
                    self.up.write_offset as int,
                    bytes@.skip(from as int),
                ),
                self.id == pre.id,
                self.up_buffers == pre.up_buffers,
                self.down_buffers == pre.down_buffers,
                self.up.name == pre.up.name,
                self.up.size_of_buffer == pre.up.size_of_buffer,
                self.up.read_offset == pre.up.read_offset,
                self.up.flags == pre.up.flags,
            decreases bytes@.len() - from,
        {
            let ghost cur = *self;
            let ghost s = bytes@.skip(from as int);
            let count = self.write_step(bytes, from);
            proof {
                let c = count as int;
                let wo = cur.up.write_offset as int;
                assert(s.len() == bytes@.len() - from);
                assert(s.take(c) =~= bytes@.subrange(from as int, from + c));
                assert(s.skip(c) =~= bytes@.skip(from + c));
                let spec_count = if s.len() <= cur.up.buf@.len() - 1 - wo {
                    s.len() as int
                } else {
                    cur.up.buf@.len() - 1 - wo
                };
                assert(spec_count == c);
                let stored = cur.up.buf@.take(wo) + s.take(c) + cur.up.buf@.skip(wo + c);
                assert(self.up.buf@ == stored);
                let next = if wo + c >= cur.up.buf@.len() - 1 {
                    0int
                } else {
                    wo + c
                };
                assert(self.up.write_offset as int == next);
                assert(write_spec(cur.up.buf@, wo, s) == write_spec(stored, next, s.skip(c)));
            }
            from = from + count;
        }
        proof {
            assert(bytes@.skip(from as int) =~= Seq::<u8>::empty());
            assert(write_spec(self.up.buf@, self.up.write_offset as int, bytes@.skip(from as int))
                == (self.up.buf@, self.up.write_offset as int));
        }
    }
}

/// What one internal writer step and its repetition leave in the channel:
/// from write offset `wo`, a step copies
/// `min(s.len(), buf.len() - 1 - wo)` bytes of `s` into `buf` starting at
/// `wo`, advances the offset by that count, and resets it to zero when it
/// reaches the one-byte reserved margin at `buf.len() - 1`; the remainder of
/// `s` is fed to the next step. Returns the storage and the write offset
/// after the whole of `s` has been consumed.
pub open spec fn write_spec(buf: Seq<u8>, wo: int, s: Seq<u8>) -> (Seq<u8>, int)
    decreases s.len(),
{
    if s.len() == 0 || buf.len() < 2 || wo < 0 || wo > buf.len() - 2 {
        (buf, wo)
    } else {
        let count = if s.len() <= buf.len() - 1 - wo {
            s.len() as int
        } else {
            buf.len() - 1 - wo
        };
        let stored = buf.take(wo) + s.take(count) + buf.skip(wo + count);
        let next = if wo + count >= buf.len() - 1 {
            0
        } else {
            wo + count
        };
        write_spec(stored, next, s.skip(count))
    }
}

/// Writing preserves the storage capacity, keeps the write offset short of
/// the reserved margin, and never touches the final byte of the storage —
/// the margin byte is reserved so the reader can detect a wrapped cursor by
/// a plain comparison.
pub proof fn lemma_write_spec_wf(buf: Seq<u8>, wo: int, s: Seq<u8>)
    requires
        buf.len() >= 2,
        0 <= wo <= buf.len() - 2,
    ensures
        write_spec(buf, wo, s).0.len() == buf.len(),
        0 <= write_spec(buf, wo, s).1 <= buf.len() - 2,
        write_spec(buf, wo, s).0[buf.len() - 1] == buf[buf.len() - 1],
    decreases s.len(),
{
    if s.len() == 0 {
    } else {
        let count = if s.len() <= buf.len() - 1 - wo {
            s.len() as int
        } else {
            buf.len() - 1 - wo
        };
        let stored = buf.take(wo) + s.take(count) + buf.skip(wo + count);
        let next = if wo + count >= buf.len() - 1 {
            0
        } else {
            wo + count
        };
        assert(stored.len() == buf.len());
        assert(stored[buf.len() - 1] == buf[buf.len() - 1]);
        lemma_write_spec_wf(stored, next, s.skip(count));
    }
}

/// Write correctness without a wrap: a write that fits strictly inside the
/// run from the write offset to the reserved margin lands contiguously at
/// the offset, in order, advances the offset by exactly its length, and
/// leaves every other byte of the storage alone.
pub proof fn lemma_write_no_wrap(buf: Seq<u8>, wo: int, s: Seq<u8>)
    requires
        buf.len() == BUFFER_SIZE,
        0 <= wo <= BUFFER_SIZE - 2,
        wo + s.len() < BUFFER_SIZE - 1,
    ensures
        write_spec(buf, wo, s).1 == wo + s.len(),
        write_spec(buf, wo, s).0.len() == buf.len(),
        write_spec(buf, wo, s).0.subrange(wo, wo + s.len()) == s,
        forall|k: int| 0 <= k < wo ==> write_spec(buf, wo, s).0[k] == buf[k],
        forall|k: int|
            wo + s.len() <= k < buf.len() ==> write_spec(buf, wo, s).0[k] == buf[k],
{
    if s.len() == 0 {
        assert(write_spec(buf, wo, s).0.subrange(wo, wo + s.len()) =~= s);
    } else {
        let count = s.len() as int;
        let stored = buf.take(wo) + s.take(count) + buf.skip(wo + count);
        assert(s.take(count) =~= s);
        assert(stored.len() == buf.len());
        assert(s.skip(count) =~= Seq::<u8>::empty());
        assert(write_spec(stored, wo + count, s.skip(count)) == (stored, wo + count));
        assert(write_spec(buf, wo, s) == (stored, wo + count));
        assert(stored.subrange(wo, wo + count) =~= s);
    }
}

/// Wrap correctness for the cursor: for every input length and starting
/// offset, writing advances the write offset to
/// `(offset + length) % (BUFFER_SIZE - 1)` — the reserved-margin rule — and
/// in particular the offset never comes to rest on `BUFFER_SIZE - 1`.
pub proof fn lemma_write_offset_wraps(buf: Seq<u8>, wo: int, s: Seq<u8>)
    requires
        buf.len() == BUFFER_SIZE,
        0 <= wo <= BUFFER_SIZE - 2,
    ensures
        write_spec(buf, wo, s).1 == (wo + s.len()) % (BUFFER_SIZE - 1),
        write_spec(buf, wo, s).1 < BUFFER_SIZE - 1,
        write_spec(buf, wo, s).0.len() == buf.len(),
    decreases s.len(),
{
    let margin = BUFFER_SIZE - 1;
    if s.len() == 0 {
        assert(wo % (margin as int) == wo) by {
            vstd::arithmetic::div_mod::lemma_small_mod(wo as nat, margin as nat);
        }
    } else {
        let count = if s.len() <= buf.len() - 1 - wo {
            s.len() as int
        } else {
            buf.len() - 1 - wo
        };
        let stored = buf.take(wo) + s.take(count) + buf.skip(wo + count);
        let next = if wo + count >= buf.len() - 1 {
            0int
        } else {
            wo + count
        };
        assert(stored.len() == buf.len());
        lemma_write_offset_wraps(stored, next, s.skip(count));
        if s.len() <= margin - wo {
            // The whole remainder fits in one step.
            assert((wo + s.len()) % (margin as int) == next) by {
                if wo + count >= margin {
                    assert(wo + count == margin);
                } else {
                    assert((wo + count) % (margin as int) == wo + count);
                }
            }
        } else {
            // The step fills the run up to the margin and the cursor
            // resets; the remainder continues from offset zero.
            assert(next == 0);
            assert(s.skip(count).len() == s.len() - (margin - wo));
            assert((wo + s.len()) % (margin as int) == (wo + s.len() - margin) % (
            margin as int)) by {
                vstd::arithmetic::div_mod::lemma_mod_sub_multiples_vanish(
                    wo + s.len(),
                    margin as int,
                );
            }
        }
    }
}

/// Wrap correctness for the contents, for a write that crosses the reserved
/// margin exactly once: the head of the input fills the storage from the
/// write offset up to the margin, the cursor resets to zero mid-write, and
/// the remaining bytes land at the start of the storage.
pub proof fn lemma_write_wrap_content(buf: Seq<u8>, wo: int, s: Seq<u8>)
    requires
        buf.len() == BUFFER_SIZE,
        0 <= wo <= BUFFER_SIZE - 2,
        BUFFER_SIZE - 1 - wo < s.len(),
        s.len() - (BUFFER_SIZE - 1 - wo) < BUFFER_SIZE - 1,
    ensures
        write_spec(buf, wo, s).1 == s.len() - (BUFFER_SIZE - 1 - wo),
        write_spec(buf, wo, s).0.len() == buf.len(),
        // The remaining bytes land at the start of the storage.
        write_spec(buf, wo, s).0.subrange(0, s.len() - (BUFFER_SIZE - 1 - wo)) == s.skip(
            BUFFER_SIZE - 1 - wo,
        ),
        // The head chunk survives wherever the restarted write stays clear
        // of it.
        forall|k: int|
            wo <= k < BUFFER_SIZE - 1 && s.len() - (BUFFER_SIZE - 1 - wo) <= k
                ==> write_spec(buf, wo, s).0[k] == s[k - wo],
        // The reserved margin byte is never written.
        write_spec(buf, wo, s).0[BUFFER_SIZE - 1] == buf[BUFFER_SIZE - 1],
{
    let margin = BUFFER_SIZE - 1;
    let count = margin - wo;
    let head = s.take(count);
    let rest = s.skip(count);
    let stored = buf.take(wo) + head + buf.skip(wo + count);
    assert(stored.len() == buf.len());
    assert(wo + count >= margin);
    assert(write_spec(buf, wo, s) == write_spec(stored, 0, rest));
    lemma_write_no_wrap(stored, 0, rest);
    assert(write_spec(stored, 0, rest).1 == rest.len());
    assert(write_spec(stored, 0, rest).0.subrange(0, rest.len() as int) == rest);
    assert forall|k: int|
        wo <= k < margin && rest.len() <= k implies write_spec(buf, wo, s).0[k] == s[k
        - wo] by {
        assert(stored[k] == head[k - wo]);
        assert(write_spec(stored, 0, rest).0[k] == stored[k]);
    }
    assert(stored[margin as int] == buf[margin as int]);
    assert(write_spec(stored, 0, rest).0[margin as int] == stored[margin as int]);
}

/// A vector of `n` zero bytes, standing for storage that the firmware image
/// holds zero-initialized from link time.
fn alloc_zero_bytes(n: usize) -> (v: Vec<u8>)
    ensures
        v@ == Seq::new(n as nat, |i: int| 0u8),
{
    let mut v: Vec<u8> = Vec::new();
    let mut i: usize = 0;
    while i < n
        invariant
            i <= n,
            v@ == Seq::new(i as nat, |j: int| 0u8),
        decreases n - i,
    {
        v.push(0);
        i = i + 1;
        proof {
            assert(v@ =~= Seq::new(i as nat, |j: int| 0u8));
        }
    }
    v
}

/// The active writer: the handle application code (and the trap handlers)
/// append diagnostic bytes through. Creating it stands the control block up
/// for discovery by assembling the magic tag.
pub struct Output {
    /// The control block this writer appends to.
    pub control: ControlBlock,
}

impl Output {
    /// A freshly initialized channel: placeholder content everywhere except
    /// the identification field, which now holds the assembled magic tag.
    pub fn new() -> (out: Output)
        ensures
            out.control.wf(),
            out.control.id@ == assembled_id(),
            out.control.up_buffers == 1i32,
            out.control.down_buffers == 0i32,
            out.control.up.name@ == channel_name(),
            out.control.up.buf@ == Seq::new(BUFFER_SIZE as nat, |i: int| 0u8),
            out.control.up.write_offset == 0u32,
            out.control.up.read_offset == 0u32,
            out.control.up.flags == 0u32,
    {
        let mut control = ControlBlock::placeholder();
        control.initialize_channel();
        Output { control }
    }

    /// Append `bytes` to the channel; see `ControlBlock::write`.
    pub fn write(&mut self, bytes: &[u8])
        requires
            old(self).control.wf(),
        ensures
            final(self).control.wf(),
            final(self).control.up.buf@ == write_spec(
                old(self).control.up.buf@,
                old(self).control.up.write_offset as int,
                bytes@,
            ).0,
            final(self).control.up.write_offset as int == write_spec(
                old(self).control.up.buf@,
                old(self).control.up.write_offset as int,
                bytes@,
            ).1,
            final(self).control.id == old(self).control.id,
            final(self).control.up_buffers == old(self).control.up_buffers,
            final(self).control.down_buffers == old(self).control.down_buffers,
            final(self).control.up.name == old(self).control.up.name,
            final(self).control.up.size_of_buffer == old(self).control.up.size_of_buffer,
            final(self).control.up.read_offset == old(self).control.up.read_offset,
            final(self).control.up.flags == old(self).control.up.flags,
    {
        self.control.write(bytes);
    }
}

} // verus!
