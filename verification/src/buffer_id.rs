use vstd::prelude::*;
use vstd::slice::slice_subrange;
use crate::buf_ring::{BufRing, RingError, descriptor_for, slot_index};
use crate::state::Init;

verus! {

/// Flag bit that marks a completion record as carrying a pooled buffer.
pub const CQE_F_BUFFER: u32 = 1;

/// Shift that moves the buffer id into the low 16 bits of the flags.
pub const CQE_BUFFER_SHIFT: u32 = 16;

/// One completion event as far as the ring needs it: the flag bits (bit 0
/// says a buffer is attached, bits 16..32 carry the buffer id) and the
/// result code (negative: a negated operating-system error code;
/// non-negative: the count of bytes written into the buffer).
#[derive(Clone, Copy, PartialEq, Eq, Structural, Debug)]
pub struct CompletionRecord {
    pub flags: u32,
    pub result: i32,
}

impl CompletionRecord {
    /// The flag bits.
    pub fn flags(&self) -> (r: u32)
        ensures
            r == self.flags,
    {
        self.flags
    }

    /// The result code.
    pub fn result(&self) -> (r: i32)
        ensures
            r == self.result,
    {
        self.result
    }
}

/// Whether the record's flags say a pooled buffer is attached.
pub open spec fn buffer_attached(flags: u32) -> bool {
    flags & CQE_F_BUFFER != 0
}

/// The buffer id carried in the upper 16 bits of the flags.
pub open spec fn buffer_id_of(flags: u32) -> u16 {
    (flags >> CQE_BUFFER_SHIFT) as u16
}

/// The operating-system error code encoded by a negative result.
pub open spec fn os_error_of(result: i32) -> u32 {
    (-(result as int)) as u32
}

/// The reported byte count, clamped so that it never exceeds the fixed
/// buffer size.
pub open spec fn clamped_len(result: i32, buf_size: u32) -> u32 {
    if result as int <= buf_size as int {
        result as u32
    } else {
        buf_size
    }
}

/// A scoped, read-only handle to exactly one resolved buffer: the buffer's
/// id and the validated byte count that the completion reported. Releasing
/// it is what returns the buffer id to circulation; the handle is consumed
/// by release, so no buffer is ever returned twice through one handle.
///
/// The handle does not borrow the ring, so nothing in the types stops
/// resolving further completions while a handle is live, building a handle
/// by hand, or dropping one without releasing it — the last quietly leaves
/// the buffer out of circulation. Checkout exclusivity is the caller's
/// discipline: release every resolved handle, exactly once.
pub struct BufferId {
    pub bid: u16,
    pub len: u32,
}

/// What resolving a completion record against a ring with the given buffer
/// size yields: an error for a negative result, no buffer when the
/// attached bit is unset, and otherwise the attested buffer id with the
/// clamped length.
///
/// The order of the first two tests settles a corner that completion
/// semantics leave open: a record whose result is negative while the
/// attached bit is unset is treated here as the error the result encodes,
/// not passed through as a no-buffer completion. The opposite reading —
/// look at the flags first and ignore the result when no buffer is
/// attached — is also defensible; confirm against the consumer's actual
/// conventions before leaning on this corner.
pub open spec fn resolve_spec(flags: u32, result: i32, buf_size: u32) -> Result<
    Option<BufferId>,
    RingError,
> {
    if result < 0 {
        Err(RingError::Os(os_error_of(result)))
    } else if !buffer_attached(flags) {
        Ok(None)
    } else {
        Ok(Some(BufferId { bid: buffer_id_of(flags), len: clamped_len(result, buf_size) }))
    }
}

/// The bytes a handle stands for: the front `len` bytes of buffer `bid`'s
/// fixed-size region inside the ring's storage.
pub open spec fn view_bytes(ring: BufRing<Init>, v: BufferId) -> Seq<u8> {
    ring.storage_view().subrange(
        (v.bid as int) * (ring.spec_buf_size() as int),
        (v.bid as int) * (ring.spec_buf_size() as int) + (v.len as int),
    )
}

impl BufferId {
    /// Decodes one completion record against a ring: a negative result
    /// surfaces the negated error code and checks out no buffer; a record
    /// without the attached bit carries no pooled buffer; otherwise the
    /// buffer id attested in the upper flag bits is checked out, bounded
    /// to the reported byte count clamped at the buffer size.
    pub(crate) fn new(ring: &BufRing<Init>, cqe: &CompletionRecord) -> (r: Result<
        Option<BufferId>,
        RingError,
    >)
        requires
            ring.wf(),
            cqe.result >= 0 && buffer_attached(cqe.flags) ==> (buffer_id_of(cqe.flags) as u32)
                < ring.spec_entries(),
        ensures
            r == resolve_spec(cqe.flags, cqe.result, ring.spec_buf_size()),
            r matches Ok(Some(b)) ==> (b.bid as u32) < ring.spec_entries() && b.len
                <= ring.spec_buf_size(),
    {
        let res: i32 = cqe.result;
        if res < 0 {
            let code: u32 = (-(res as i64)) as u32;
            return Err(RingError::Os(code));
        }
        let flags: u32 = cqe.flags;
        if flags & CQE_F_BUFFER == 0 {
            return Ok(None);
        }
        let bid: u16 = (flags >> CQE_BUFFER_SHIFT) as u16;
        let reported: u32 = res as u32;
        let size: u32 = ring.buf_size();
        let len: u32 = if reported <= size {
            reported
        } else {
            size
        };
        Ok(Some(BufferId { bid, len }))
    }

    /// The bytes the completion made valid: the front of buffer `bid`,
    /// bounded to the validated length, borrowed from the ring's storage.
    pub fn buffer<'a>(&self, ring: &'a BufRing<Init>) -> (r: &'a [u8])
        requires
            ring.wf(),
            (self.bid as u32) < ring.spec_entries(),
            self.len <= ring.spec_buf_size(),
        ensures
            r@ == view_bytes(*ring, *self),
    {
        let full: &[u8] = ring.buffer(self.bid);
        proof {
            let bs = ring.spec_buf_size() as int;
            let bid = self.bid as int;
            let n = ring.spec_entries() as int;
            assert((bid + 1) * bs == bid * bs + bs && 0 <= bid * bs && bid * bs + bs <= n * bs)
                by (nonlinear_arith)
                requires
                    0 <= bid,
                    bid + 1 <= n,
                    bs >= 0,
            ;
            assert(full@.len() == bs);
        }
        let r: &[u8] = slice_subrange(full, 0, self.len as usize);
        proof {
            let bs = ring.spec_buf_size() as int;
            let bid = self.bid as int;
            assert(r@ =~= ring.storage_view().subrange(bid * bs, bid * bs + (self.len as int)));
        }
        r
    }

    /// Returns the buffer to circulation: writes a fresh descriptor for
    /// this handle's buffer id at the tail slot and advances the tail by
    /// one, exactly once per resolved handle. Consumes the handle.
    pub fn release(self, ring: &mut BufRing<Init>)
        requires
            old(ring).wf(),
            (self.bid as u32) < old(ring).spec_entries(),
        ensures
            final(ring).wf(),
            final(ring).spec_tail() as int == (old(ring).spec_tail() + 1) % 0x10000,
            final(ring).slots_view() == old(ring).slots_view().update(
                slot_index(old(ring).spec_tail(), 0, old(ring).spec_entries()),
                descriptor_for(self.bid, old(ring).spec_buf_size()),
            ),
            final(ring).storage_view() == old(ring).storage_view(),
            final(ring).spec_entries() == old(ring).spec_entries(),
            final(ring).spec_buf_size() == old(ring).spec_buf_size(),
            final(ring).spec_mask() == old(ring).spec_mask(),
            final(ring).spec_bgid() == old(ring).spec_bgid(),
            old(ring).slots_valid() ==> final(ring).slots_valid(),
    {
        ring.add(self.bid, 0);
        ring.advance_(1);
    }
}

impl BufRing<Init> {
    /// Resolves one completion record: see `BufferId::new`. The buffer id
    /// in an attached record is attested by the engine and must be below
    /// the entry count; that is this function's trusted-input
    /// precondition, not a runtime check.
    pub fn buffer_id_from_cqe(&self, cqe: &CompletionRecord) -> (r: Result<
        Option<BufferId>,
        RingError,
    >)
        requires
            self.wf(),
            cqe.result >= 0 && buffer_attached(cqe.flags) ==> (buffer_id_of(cqe.flags) as u32)
                < self.spec_entries(),
        ensures
            r == resolve_spec(cqe.flags, cqe.result, self.spec_buf_size()),
            r matches Ok(Some(b)) ==> (b.bid as u32) < self.spec_entries() && b.len
                <= self.spec_buf_size(),
    {
        BufferId::new(self, cqe)
    }
}

/// Round trip of a buffer id: resolving a completion record whose flags
/// have the attached bit set and encode buffer id `k`, with a non-negative
/// result, yields a handle for exactly buffer `k`, and the handle's bytes
/// are exactly the slice of the ring's storage that starts at `k` times
/// the buffer size and spans the validated length.
pub proof fn lemma_resolve_round_trip(ring: BufRing<Init>, cqe: CompletionRecord)
    requires
        ring.wf(),
        cqe.result >= 0,
        buffer_attached(cqe.flags),
        (buffer_id_of(cqe.flags) as u32) < ring.spec_entries(),
    ensures
        resolve_spec(cqe.flags, cqe.result, ring.spec_buf_size()) matches Ok(v) && v matches Some(
            b,
        ) && b.bid == buffer_id_of(cqe.flags) && b.len == clamped_len(
            cqe.result,
            ring.spec_buf_size(),
        ) && view_bytes(ring, b) == ring.storage_view().subrange(
            (buffer_id_of(cqe.flags) as int) * (ring.spec_buf_size() as int),
            (buffer_id_of(cqe.flags) as int) * (ring.spec_buf_size() as int) + (clamped_len(
                cqe.result,
                ring.spec_buf_size(),
            ) as int),
        ),
{
}

/// Length clamping: a completion record that reports more bytes than one
/// buffer holds resolves to a handle bounded to exactly the buffer size,
/// never more.
pub proof fn lemma_length_clamped(flags: u32, result: i32, buf_size: u32)
    requires
        result >= 0,
        buffer_attached(flags),
        result as int > buf_size as int,
    ensures
        resolve_spec(flags, result, buf_size) matches Ok(v) && v matches Some(b) && b.len
            == buf_size,
{
}

/// No-buffer completions pass through: a record whose attached bit is
/// unset resolves to no buffer, whatever its non-negative result code.
pub proof fn lemma_no_buffer_passthrough(flags: u32, result: i32, buf_size: u32)
    requires
        result >= 0,
        !buffer_attached(flags),
    ensures
        resolve_spec(flags, result, buf_size) == Ok::<Option<BufferId>, RingError>(None),
{
}

/// A negative result surfaces as the negated operating-system error code,
/// and no buffer is checked out, whatever the flags say.
pub proof fn lemma_negative_result_is_error(flags: u32, result: i32, buf_size: u32)
    requires
        result < 0,
    ensures
        resolve_spec(flags, result, buf_size) == Err::<Option<BufferId>, RingError>(
            RingError::Os(os_error_of(result)),
        ),
        os_error_of(result) == -(result as int),
{
}

/// Recycling: resolution depends only on the record and the buffer size,
/// and a handle's bytes depend only on the storage and the buffer size.
/// Releasing a handle changes neither, so resolving the same buffer id
/// again afterwards yields a handle over the same underlying bytes — a
/// buffer is reusable indefinitely.
pub proof fn lemma_recycled_view_same_bytes(
    before: BufRing<Init>,
    after: BufRing<Init>,
    v1: BufferId,
    v2: BufferId,
    cqe: CompletionRecord,
)
    requires
        after.storage_view() == before.storage_view(),
        after.spec_buf_size() == before.spec_buf_size(),
        resolve_spec(cqe.flags, cqe.result, before.spec_buf_size()) == Ok::<
            Option<BufferId>,
            RingError,
        >(Some(BufferId { bid: v1.bid, len: v1.len })),
        v2.bid == v1.bid,
        v2.len == v1.len,
    ensures
        resolve_spec(cqe.flags, cqe.result, after.spec_buf_size()) == Ok::<
            Option<BufferId>,
            RingError,
        >(Some(BufferId { bid: v2.bid, len: v2.len })),
        view_bytes(after, v2) == view_bytes(before, v1),
{
}

} // verus!
