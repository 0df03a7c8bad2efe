use vstd::prelude::*;
use vstd::arithmetic::power::pow;
use vstd::arithmetic::power2::{
    pow2, is_pow2, is_pow2_equiv, lemma_pow2, lemma_pow2_strictly_increases, lemma2_to64,
    lemma2_to64_rest,
};
use vstd::bits::{low_bits_mask, lemma_u32_low_bits_mask_is_mod};
use vstd::arithmetic::div_mod::{
    lemma_small_mod, lemma_mod_multiples_vanish, lemma_add_mod_noop_right, lemma_mod_equivalence,
    lemma_fundamental_div_mod,
};
use vstd::slice::slice_subrange;
use crate::state::{Uninit, Registered, Init};

verus! {

/// One fixed-layout record inside the descriptor array: the buffer's
/// location, its length, and its id. In the shared layout the location is
/// an absolute address; this model records it as the byte offset of the
/// buffer inside the contiguous buffer storage region.
#[derive(Clone, Copy, PartialEq, Eq, Structural, Debug)]
pub struct Descriptor {
    pub addr: u64,
    pub len: u32,
    pub bid: u16,
}

/// The descriptor that puts buffer `bid` into circulation on a ring whose
/// buffers are `buf_size` bytes each: it locates the buffer at offset
/// `bid * buf_size` in the storage region and spans the whole buffer.
pub open spec fn descriptor_for(bid: u16, buf_size: u32) -> Descriptor {
    Descriptor { addr: (bid * buf_size) as u64, len: buf_size, bid }
}

/// The ring slot that the publish protocol writes for an entry `off`
/// entries past a tail cursor of `tail`, on a ring of `entries` slots.
pub open spec fn slot_index(tail: u16, off: int, entries: u32) -> int {
    (tail + off) % (entries as int)
}

/// Errors reported by ring operations.
#[derive(Clone, Copy, PartialEq, Eq, Structural, Debug)]
pub enum RingError {
    /// The requested entry count was zero, the reserved maximum sentinel,
    /// or above the largest supported power of two, 32768.
    InvalidConfig,
    /// An operating-system error code reported by the environment or
    /// carried in a completion record.
    Os(u32),
}

/// How the ring's mapping is requested.
#[derive(Clone, Copy, PartialEq, Eq, Structural, Debug, Default)]
pub struct MapOpts {
    pub privacy: MapPrivacy,
    pub populate: bool,
}

/// Whether the mapping is private to the process or shared across processes.
#[derive(Clone, Copy, PartialEq, Eq, Structural, Debug, Default)]
pub enum MapPrivacy {
    #[default]
    Private,
    Shared,
}

/// The submission interface of the I/O engine, as far as the ring needs it:
/// a registration call that hands over the ring's entry count and group id,
/// and the matching unregister call. An error is an operating-system error
/// code. Implementations live outside this library; nothing is assumed
/// about their answers.
pub trait Engine {
    fn register_buffer_ring(&mut self, entry_count: u16, group_id: u16) -> Result<(), u32>;

    fn unregister_buffer_ring(&mut self, group_id: u16) -> Result<(), u32>;
}

/// One buffer ring: a descriptor array of `entries` slots followed by
/// contiguous buffer storage of `entries * buf_size` bytes, with the
/// 16-bit tail cursor that publishes descriptors to the consumer. The
/// state parameter encodes the lifecycle stage, so that an operation of
/// one stage cannot be called in another.
pub struct BufRing<S> {
    pub(crate) slots: Vec<Descriptor>,
    pub(crate) storage: Vec<u8>,
    pub(crate) entries: u32,
    pub(crate) buf_size: u32,
    pub(crate) mask: u32,
    pub(crate) bgid: u16,
    pub(crate) tail: u16,
    pub(crate) state: S,
}

impl<S> BufRing<S> {
    /// Number of ring slots; always a power of two.
    pub closed spec fn spec_entries(self) -> u32 {
        self.entries
    }

    /// Fixed size in bytes of each buffer.
    pub closed spec fn spec_buf_size(self) -> u32 {
        self.buf_size
    }

    /// Index mask, `entries - 1`.
    pub closed spec fn spec_mask(self) -> u32 {
        self.mask
    }

    /// Group identifier under which the ring registers with the engine.
    pub closed spec fn spec_bgid(self) -> u16 {
        self.bgid
    }

    /// The 16-bit tail cursor.
    pub closed spec fn spec_tail(self) -> u16 {
        self.tail
    }

    /// The descriptor array.
    pub closed spec fn slots_view(self) -> Seq<Descriptor> {
        self.slots@
    }

    /// The buffer storage region, as bytes.
    pub closed spec fn storage_view(self) -> Seq<u8> {
        self.storage@
    }

    /// Structural invariant of every ring: the entry count is a power of
    /// two in `1 ..= 32768` (the largest count whose every 16-bit surface
    /// — the reported count, the registration argument, one publishing
    /// tail advance — is exact), the mask matches it, the descriptor
    /// array has one slot per entry, and the storage region has
    /// `entries * buf_size` bytes.
    pub open spec fn wf(self) -> bool {
        &&& is_pow2(self.spec_entries() as int)
        &&& 1 <= self.spec_entries() <= 32768
        &&& self.spec_mask() == self.spec_entries() - 1
        &&& self.slots_view().len() == self.spec_entries()
        &&& self.storage_view().len() == (self.spec_entries() as int) * (self.spec_buf_size() as int)
    }

    /// Every slot of the descriptor array holds a descriptor that puts one
    /// of the ring's own buffers into circulation: its id is in range and
    /// its location and length are those of that buffer.
    pub open spec fn slots_valid(self) -> bool {
        forall|i: int|
            0 <= i < self.slots_view().len() ==> {
                let d = #[trigger] self.slots_view()[i];
                d.bid < self.spec_entries() && d == descriptor_for(d.bid, self.spec_buf_size())
            }
    }
}

/// Two rings, in any two lifecycle states, agree on every attribute of the
/// data model: geometry, group id, tail cursor, descriptor array and
/// buffer storage.
pub open spec fn core_eq<A, B>(a: BufRing<A>, b: BufRing<B>) -> bool {
    &&& a.spec_entries() == b.spec_entries()
    &&& a.spec_buf_size() == b.spec_buf_size()
    &&& a.spec_mask() == b.spec_mask()
    &&& a.spec_bgid() == b.spec_bgid()
    &&& a.spec_tail() == b.spec_tail()
    &&& a.slots_view() == b.slots_view()
    &&& a.storage_view() == b.storage_view()
}

/// 32768 is a power of two.
proof fn lemma_is_pow2_32768()
    ensures
        is_pow2(32768),
{
    reveal_with_fuel(is_pow2, 17);
}

/// Of two powers of two, the larger is at least double the smaller.
proof fn lemma_pow2_le(a: int, b: int)
    requires
        is_pow2(a),
        is_pow2(b),
        a < b,
    ensures
        2 * a <= b,
    decreases a,
{
    reveal(is_pow2);
    if a == 1 {
    } else {
        lemma_pow2_le(a / 2, b / 2);
    }
}

/// On a ring of a power-of-two size, masking with `entries - 1` is
/// reduction modulo `entries`.
proof fn lemma_mask_mod(x: u32, entries: u32, mask: u32)
    requires
        is_pow2(entries as int),
        entries <= 65536,
        mask == entries - 1,
    ensures
        x & mask == x % entries,
        x % entries < entries,
{
    is_pow2_equiv(entries as int);
    let k = choose|i: nat| pow(2, i) == entries as int;
    lemma_pow2(k);
    assert(pow2(k) == entries);
    lemma2_to64();
    lemma2_to64_rest();
    if k >= 17 {
        lemma_pow2_strictly_increases(16, k);
    }
    assert(k < 32);
    lemma_u32_low_bits_mask_is_mod(x, k);
    assert(low_bits_mask(k) == entries - 1);
}

/// The smallest power of two that is at least `n`.
///
/// The result is pinned by its postconditions: it is a power of two, it is
/// at least `n`, and halving it drops below `n`; `lemma_next_pow2_unique`
/// derives the usual reading from those three facts.
fn next_power_of_two_u32(n: u32) -> (p: u32)
    requires
        1 <= n <= 32768,
    ensures
        is_pow2(p as int),
        p >= n,
        p == 1 || p / 2 < n,
        p <= 32768,
{
    proof {
        reveal_with_fuel(is_pow2, 2);
    }
    let mut p: u32 = 1;
    while p < n
        invariant
            1 <= p <= 32768,
            is_pow2(p as int),
            p == 1 || p / 2 < n,
            n <= 32768,
        decreases 32768 - p,
    {
        proof {
            lemma_is_pow2_32768();
            lemma_pow2_le(p as int, 32768);
            reveal(is_pow2);
            assert(is_pow2(2 * (p as int)));
        }
        p = p * 2;
    }
    p
}

/// Power-of-two normalization: the three facts that `next_power_of_two_u32`
/// establishes determine the count uniquely. If the request is already a
/// power of two the count equals it; otherwise the count is the next power
/// of two above it, that is, no power of two at least the request is
/// smaller than the count.
pub proof fn lemma_next_pow2_unique(n: int, p: int)
    requires
        1 <= n,
        is_pow2(p),
        p >= n,
        p == 1 || p / 2 < n,
    ensures
        is_pow2(n) ==> p == n,
        forall|q: int| is_pow2(q) && q >= n ==> q >= p,
{
    if is_pow2(n) && p != n {
        lemma_pow2_le(n, p);
        assert(false);
    }
    assert forall|q: int| is_pow2(q) && q >= n implies q >= p by {
        if q < p {
            lemma_pow2_le(q, p);
        }
    }
}

/// Publishing at distinct offsets past the same tail hits distinct slots.
proof fn lemma_distinct_slots(t: int, a: int, b: int, n: int)
    requires
        0 < n,
        0 <= a < n,
        0 <= b < n,
        a != b,
        0 <= t,
    ensures
        (t + a) % n != (t + b) % n,
{
    if (t + a) % n == (t + b) % n {
        lemma_mod_equivalence(t + a, t + b, n);
        lemma_mod_equivalence(t + b, t + a, n);
        if a > b {
            lemma_small_mod((a - b) as nat, n as nat);
        } else {
            lemma_small_mod((b - a) as nat, n as nat);
        }
        assert(false);
    }
}

/// Every slot index is hit by some publish offset below `n`: offsets
/// `0 .. n` past the tail cover the whole descriptor array.
proof fn lemma_slot_cover(t: int, j: int, n: int)
    requires
        0 < n,
        0 <= j < n,
        0 <= t,
    ensures
        ({
            let id = ((j - (t % n)) + n) % n;
            &&& 0 <= id < n
            &&& (t + id) % n == j
        }),
{
    let r = t % n;
    let q = t / n;
    lemma_fundamental_div_mod(t, n);
    assert(t == n * q + r);
    let id = ((j - r) + n) % n;
    if j >= r {
        lemma_mod_multiples_vanish(1, j - r, n);
        assert((n * 1 + (j - r)) % n == (j - r) % n);
        lemma_small_mod((j - r) as nat, n as nat);
        assert(id == j - r);
        lemma_mod_multiples_vanish(q, j, n);
        assert((n * q + j) % n == j % n);
        assert(t + id == n * q + j);
        lemma_small_mod(j as nat, n as nat);
        assert((t + id) % n == j);
    } else {
        lemma_small_mod(((j - r) + n) as nat, n as nat);
        assert(id == (j - r) + n);
        lemma_mod_multiples_vanish(q + 1, j, n);
        assert((n * (q + 1) + j) % n == j % n);
        assert(n * (q + 1) == n * q + n) by (nonlinear_arith);
        assert(t + id == n * (q + 1) + j);
        lemma_small_mod(j as nat, n as nat);
        assert((t + id) % n == j);
    }
}

impl<S> BufRing<S> {
    /// The entry count, in the 16 bits the engine interface uses; exact
    /// for every well-formed ring, whose count is at most 32768.
    pub fn entries(&self) -> (r: u16)
        ensures
            r == self.spec_entries() as u16,
            self.wf() ==> r as u32 == self.spec_entries(),
    {
        self.entries as u16
    }

    /// The fixed per-buffer size in bytes.
    pub fn buf_size(&self) -> (r: u32)
        ensures
            r == self.spec_buf_size(),
    {
        self.buf_size
    }

    /// The group identifier.
    pub fn bgid(&self) -> (r: u16)
        ensures
            r == self.spec_bgid(),
    {
        self.bgid
    }

    /// The current value of the tail cursor.
    pub fn tail(&self) -> (r: u32)
        ensures
            r == self.spec_tail() as u32,
    {
        self.tail as u32
    }

    /// Writes the descriptor that puts buffer `buf_id` into circulation,
    /// at the ring slot `buf_offset` entries past the tail cursor. The
    /// write is not visible to the consumer until a tail advance
    /// publishes it.
    pub(crate) fn add(&mut self, buf_id: u16, buf_offset: u16)
        requires
            old(self).wf(),
            (buf_id as u32) < old(self).spec_entries(),
        ensures
            final(self).wf(),
            final(self).slots_view() == old(self).slots_view().update(
                slot_index(old(self).spec_tail(), buf_offset as int, old(self).spec_entries()),
                descriptor_for(buf_id, old(self).spec_buf_size()),
            ),
            final(self).spec_entries() == old(self).spec_entries(),
            final(self).spec_buf_size() == old(self).spec_buf_size(),
            final(self).spec_mask() == old(self).spec_mask(),
            final(self).spec_bgid() == old(self).spec_bgid(),
            final(self).spec_tail() == old(self).spec_tail(),
            final(self).storage_view() == old(self).storage_view(),
    {
        let sum: u32 = (self.tail as u32) + (buf_offset as u32);
        proof {
            lemma_mask_mod(sum, self.entries, self.mask);
            let bs = self.buf_size as int;
            let bid = buf_id as int;
            assert(bid * bs < 0x1000000000000) by (nonlinear_arith)
                requires
                    0 <= bid < 0x10000,
                    0 <= bs < 0x100000000,
            ;
        }
        let offset: u32 = sum & self.mask;
        let addr: u64 = (buf_id as u64) * (self.buf_size as u64);
        let len: u32 = self.buf_size;
        self.slots[offset as usize] = Descriptor { addr, len, bid: buf_id };
    }

    /// Advances the tail cursor by `count`, wrapping modulo 2^16; this
    /// publishes `count` previously written descriptors to the consumer.
    pub(crate) fn advance_(&mut self, count: u16)
        ensures
            final(self).spec_tail() as int == (old(self).spec_tail() + count) % 0x10000,
            final(self).spec_entries() == old(self).spec_entries(),
            final(self).spec_buf_size() == old(self).spec_buf_size(),
            final(self).spec_mask() == old(self).spec_mask(),
            final(self).spec_bgid() == old(self).spec_bgid(),
            final(self).slots_view() == old(self).slots_view(),
            final(self).storage_view() == old(self).storage_view(),
    {
        self.tail = self.tail.wrapping_add(count);
    }

    /// Tells the engine to drop the group id; on success the ring returns
    /// to the uninitialized state, on failure it is handed back unchanged.
    fn unregister_<E: Engine>(self, engine: &mut E) -> (r: Result<
        BufRing<Uninit>,
        (RingError, BufRing<S>),
    >)
        ensures
            match r {
                Ok(ring) => core_eq(ring, self),
                Err((e, ring)) => core_eq(ring, self) && (e matches RingError::Os(_)),
            },
    {
        match engine.unregister_buffer_ring(self.bgid) {
            Err(c) => Err((RingError::Os(c), self)),
            Ok(()) => {
                let BufRing { slots, storage, entries, buf_size, mask, bgid, tail, state: _ } =
                    self;
                Ok(
                    BufRing {
                        slots,
                        storage,
                        entries,
                        buf_size,
                        mask,
                        bgid,
                        tail,
                        state: Uninit,
                    },
                )
            },
        }
    }
}

impl BufRing<Uninit> {
    /// Changes the group identifier under which the ring will register.
    pub fn set_bgid(&mut self, bgid: u16)
        ensures
            final(self).spec_bgid() == bgid,
            final(self).spec_entries() == old(self).spec_entries(),
            final(self).spec_buf_size() == old(self).spec_buf_size(),
            final(self).spec_mask() == old(self).spec_mask(),
            final(self).spec_tail() == old(self).spec_tail(),
            final(self).slots_view() == old(self).slots_view(),
            final(self).storage_view() == old(self).storage_view(),
    {
        self.bgid = bgid;
    }

    /// Hands the ring's entry count and group id to the engine. On success
    /// the ring moves to the registered state; on failure the engine's
    /// error code and the ring, unchanged, are handed back, so that the
    /// mapping is never lost on error.
    pub fn register<E: Engine>(self, engine: &mut E) -> (r: Result<
        BufRing<Registered>,
        (RingError, BufRing<Uninit>),
    >)
        ensures
            match r {
                Ok(ring) => core_eq(ring, self),
                Err((e, ring)) => core_eq(ring, self) && (e matches RingError::Os(_)),
            },
    {
        match engine.register_buffer_ring(self.entries as u16, self.bgid) {
            Err(c) => Err((RingError::Os(c), self)),
            Ok(()) => {
                let BufRing { slots, storage, entries, buf_size, mask, bgid, tail, state: _ } =
                    self;
                Ok(
                    BufRing {
                        slots,
                        storage,
                        entries,
                        buf_size,
                        mask,
                        bgid,
                        tail,
                        state: Registered,
                    },
                )
            },
        }
    }
}

impl BufRing<Registered> {
    /// Tells the engine to drop the group id; see `unregister_`.
    pub fn unregister<E: Engine>(self, engine: &mut E) -> (r: Result<
        BufRing<Uninit>,
        (RingError, BufRing<Registered>),
    >)
        ensures
            match r {
                Ok(ring) => core_eq(ring, self),
                Err((e, ring)) => core_eq(ring, self) && (e matches RingError::Os(_)),
            },
    {
        self.unregister_(engine)
    }

    /// Puts every buffer id into circulation: for each id below the entry
    /// count, writes the descriptor for that id at the slot `id` entries
    /// past the tail, then advances the tail by the entry count in one
    /// step, so that no partially written descriptor is ever published.
    pub fn init(self) -> (r: BufRing<Init>)
        requires
            self.wf(),
        ensures
            r.wf(),
            r.slots_valid(),
            r.spec_entries() == self.spec_entries(),
            r.spec_buf_size() == self.spec_buf_size(),
            r.spec_mask() == self.spec_mask(),
            r.spec_bgid() == self.spec_bgid(),
            r.storage_view() == self.storage_view(),
            r.spec_tail() as int == (self.spec_tail() + self.spec_entries()) % 0x10000,
            forall|id: int|
                0 <= id < self.spec_entries() ==> r.slots_view()[#[trigger] slot_index(
                    self.spec_tail(),
                    id,
                    self.spec_entries(),
                )] == descriptor_for(id as u16, self.spec_buf_size()),
    {
        let ghost orig = self;
        let mut ring = self;
        let n: u32 = ring.entries;
        let mut i: u32 = 0;
        while i < n
            invariant
                ring.wf(),
                0 <= i <= n,
                n == ring.spec_entries(),
                ring.spec_entries() == orig.spec_entries(),
                ring.spec_buf_size() == orig.spec_buf_size(),
                ring.spec_mask() == orig.spec_mask(),
                ring.spec_bgid() == orig.spec_bgid(),
                ring.spec_tail() == orig.spec_tail(),
                ring.storage_view() == orig.storage_view(),
                forall|id: int|
                    0 <= id < i ==> ring.slots_view()[#[trigger] slot_index(
                        orig.spec_tail(),
                        id,
                        orig.spec_entries(),
                    )] == descriptor_for(id as u16, orig.spec_buf_size()),
            decreases n - i,
        {
            ring.add(i as u16, i as u16);
            proof {
                assert forall|id: int|
                    0 <= id < i + 1 implies ring.slots_view()[#[trigger] slot_index(
                    orig.spec_tail(),
                    id,
                    orig.spec_entries(),
                )] == descriptor_for(id as u16, orig.spec_buf_size()) by {
                    if id < i {
                        lemma_distinct_slots(orig.spec_tail() as int, id, i as int, n as int);
                    }
                }
            }
            i = i + 1;
        }
        ring.advance_((n % 65536) as u16);
        proof {
            lemma_add_mod_noop_right(orig.spec_tail() as int, n as int, 0x10000);
            assert forall|j: int| 0 <= j < ring.slots_view().len() implies {
                let d = #[trigger] ring.slots_view()[j];
                d.bid < ring.spec_entries() && d == descriptor_for(d.bid, ring.spec_buf_size())
            } by {
                lemma_slot_cover(orig.spec_tail() as int, j, n as int);
                let id = ((j - (orig.spec_tail() as int % n as int)) + n as int) % (n as int);
                assert(ring.slots_view()[slot_index(orig.spec_tail(), id, orig.spec_entries())]
                    == descriptor_for(id as u16, orig.spec_buf_size()));
            }
        }
        let BufRing { slots, storage, entries, buf_size, mask, bgid, tail, state: _ } = ring;
        BufRing { slots, storage, entries, buf_size, mask, bgid, tail, state: Init }
    }
}

impl BufRing<Init> {
    /// Tells the engine to drop the group id; see `unregister_`.
    pub fn unregister<E: Engine>(self, engine: &mut E) -> (r: Result<
        BufRing<Uninit>,
        (RingError, BufRing<Init>),
    >)
        ensures
            match r {
                Ok(ring) => core_eq(ring, self),
                Err((e, ring)) => core_eq(ring, self) && (e matches RingError::Os(_)),
            },
    {
        self.unregister_(engine)
    }

    /// The descriptor currently held by ring slot `offset`.
    pub fn entry(&self, offset: u16) -> (d: Descriptor)
        requires
            self.wf(),
            (offset as u32) < self.spec_entries(),
        ensures
            d == self.slots_view()[offset as int],
    {
        self.slots[offset as usize]
    }

    /// The full fixed-size byte slice of buffer `buf_id`. The caller must
    /// guarantee that `buf_id` is below the entry count; completion
    /// records attest this for the ids they carry.
    pub fn buffer(&self, buf_id: u16) -> (r: &[u8])
        requires
            self.wf(),
            (buf_id as u32) < self.spec_entries(),
        ensures
            r@ == self.storage_view().subrange(
                (buf_id as int) * (self.spec_buf_size() as int),
                (buf_id as int + 1) * (self.spec_buf_size() as int),
            ),
    {
        let total: usize = self.storage.len();
        proof {
            let bs = self.buf_size as int;
            let bid = buf_id as int;
            let n = self.entries as int;
            assert(bid * bs >= 0 && bid * bs + bs <= n * bs) by (nonlinear_arith)
                requires
                    0 <= bid,
                    bid + 1 <= n,
                    bs >= 0,
            ;
            assert(bid * bs + bs <= total as int);
            assert((bid + 1) * bs == bid * bs + bs) by (nonlinear_arith);
        }
        let start: usize = (buf_id as usize) * (self.buf_size as usize);
        let end: usize = start + (self.buf_size as usize);
        slice_subrange(self.storage.as_slice(), start, end)
    }

    /// Atomically advances the tail cursor by `count`, publishing `count`
    /// previously written descriptors. The caller must guarantee those
    /// descriptors were actually written.
    pub fn advance(&mut self, count: u16)
        ensures
            final(self).spec_tail() as int == (old(self).spec_tail() + count) % 0x10000,
            final(self).spec_entries() == old(self).spec_entries(),
            final(self).spec_buf_size() == old(self).spec_buf_size(),
            final(self).spec_mask() == old(self).spec_mask(),
            final(self).spec_bgid() == old(self).spec_bgid(),
            final(self).slots_view() == old(self).slots_view(),
            final(self).storage_view() == old(self).storage_view(),
    {
        self.advance_(count)
    }

    /// Copies `data` to the front of buffer `buf_id`'s bytes: the write
    /// side of the pool, for the consumer that fills buffers before it
    /// reports them in completion records.
    pub fn write_buffer(&mut self, buf_id: u16, data: &[u8])
        requires
            old(self).wf(),
            (buf_id as u32) < old(self).spec_entries(),
            data@.len() <= old(self).spec_buf_size(),
        ensures
            final(self).wf(),
            final(self).storage_view().len() == old(self).storage_view().len(),
            forall|i: int|
                0 <= i < data@.len() ==> final(self).storage_view()[(buf_id as int) * (old(
                self,
                ).spec_buf_size() as int) + i] == data@[i],
            forall|i: int|
                0 <= i < old(self).storage_view().len() && !((buf_id as int) * (old(
                self,
                ).spec_buf_size() as int) <= i < (buf_id as int) * (old(
                self,
                ).spec_buf_size() as int) + data@.len()) ==> final(self).storage_view()[i] == old(
                self,
                ).storage_view()[i],
            final(self).spec_entries() == old(self).spec_entries(),
            final(self).spec_buf_size() == old(self).spec_buf_size(),
            final(self).spec_mask() == old(self).spec_mask(),
            final(self).spec_bgid() == old(self).spec_bgid(),
            final(self).spec_tail() == old(self).spec_tail(),
            final(self).slots_view() == old(self).slots_view(),
    {
        let total: usize = self.storage.len();
        proof {
            let bs = self.buf_size as int;
            let bid = buf_id as int;
            let n = self.entries as int;
            assert(bid * bs >= 0 && bid * bs + bs <= n * bs) by (nonlinear_arith)
                requires
                    0 <= bid,
                    bid + 1 <= n,
                    bs >= 0,
            ;
            assert(bid * bs + bs <= total as int);
        }
        let base: usize = (buf_id as usize) * (self.buf_size as usize);
        let ghost orig = *self;
        let mut j: usize = 0;
        while j < data.len()
            invariant
                self.wf(),
                0 <= j <= data@.len(),
                base as int == (buf_id as int) * (orig.spec_buf_size() as int),
                base + data@.len() <= self.storage_view().len(),
                self.storage_view().len() <= usize::MAX,
                data@.len() <= orig.spec_buf_size(),
                self.storage_view().len() == orig.storage_view().len(),
                self.spec_entries() == orig.spec_entries(),
                self.spec_buf_size() == orig.spec_buf_size(),
                self.spec_mask() == orig.spec_mask(),
                self.spec_bgid() == orig.spec_bgid(),
                self.spec_tail() == orig.spec_tail(),
                self.slots_view() == orig.slots_view(),
                forall|i: int|
                    0 <= i < j ==> self.storage_view()[base + i] == data@[i],
                forall|i: int|
                    0 <= i < orig.storage_view().len() && !(base <= i < base + j)
                        ==> self.storage_view()[i] == orig.storage_view()[i],
            decreases data@.len() - j,
        {
            self.storage[base + j] = data[j];
            j = j + 1;
        }
    }
}

impl BufRing<Uninit> {
    /// Creates a ring with a process-private, lazily populated mapping.
    pub fn new(entries: u16, buf_size: u32, bgid: u16) -> (r: Result<Self, RingError>)
        requires
            32768 * (buf_size as int) <= usize::MAX as int,
        ensures
            match r {
                Err(e) => (entries == 0 || entries > 32768) && e == RingError::InvalidConfig,
                Ok(ring) => {
                    &&& 0 < entries <= 32768
                    &&& ring.wf()
                    &&& ring.spec_entries() >= entries
                    &&& (is_pow2(entries as int) ==> ring.spec_entries() == entries)
                    &&& forall|q: int|
                        is_pow2(q) && q >= entries ==> q >= ring.spec_entries()
                    &&& ring.spec_buf_size() == buf_size
                    &&& ring.spec_bgid() == bgid
                    &&& ring.spec_tail() == 0
                    &&& forall|i: int|
                        0 <= i < ring.storage_view().len() ==> ring.storage_view()[i] == 0u8
                    &&& forall|i: int|
                        0 <= i < ring.slots_view().len() ==> ring.slots_view()[i]
                            == (Descriptor { addr: 0, len: 0, bid: 0 })
                },
            },
    {
        Self::new_with_opts(
            entries,
            buf_size,
            bgid,
            MapOpts { privacy: MapPrivacy::Private, populate: false },
        )
    }

    /// Creates a ring: rejects an entry count of zero or one above 32768
    /// (the largest power of two below the reserved maximum sentinel, and
    /// the largest count whose 16-bit surfaces stay exact), rounds the
    /// count up to the next power of two, and allocates the
    /// zero-initialized region that holds the descriptor array and the
    /// buffer storage, with the tail cursor at zero. No buffer is
    /// published yet. The mapping options request the sharing mode and
    /// eager population of the region; they do not change what the ring
    /// holds.
    pub fn new_with_opts(entries: u16, buf_size: u32, bgid: u16, opts: MapOpts) -> (r: Result<
        Self,
        RingError,
    >)
        requires
            32768 * (buf_size as int) <= usize::MAX as int,
        ensures
            match r {
                Err(e) => (entries == 0 || entries > 32768) && e == RingError::InvalidConfig,
                Ok(ring) => {
                    &&& 0 < entries <= 32768
                    &&& ring.wf()
                    &&& ring.spec_entries() >= entries
                    &&& (is_pow2(entries as int) ==> ring.spec_entries() == entries)
                    &&& forall|q: int|
                        is_pow2(q) && q >= entries ==> q >= ring.spec_entries()
                    &&& ring.spec_buf_size() == buf_size
                    &&& ring.spec_bgid() == bgid
                    &&& ring.spec_tail() == 0
                    &&& forall|i: int|
                        0 <= i < ring.storage_view().len() ==> ring.storage_view()[i] == 0u8
                    &&& forall|i: int|
                        0 <= i < ring.slots_view().len() ==> ring.slots_view()[i]
                            == (Descriptor { addr: 0, len: 0, bid: 0 })
                },
            },
    {
        let _ = opts;
        if entries == 0 || entries > 32768 {
            return Err(RingError::InvalidConfig);
        }
        let count: u32 = next_power_of_two_u32(entries as u32);
        let mask: u32 = count - 1;
        proof {
            lemma_next_pow2_unique(entries as int, count as int);
            assert((count as int) * (buf_size as int) <= 32768 * (buf_size as int))
                by (nonlinear_arith)
                requires
                    count as int <= 32768,
                    buf_size as int >= 0,
            ;
        }
        let storage_len: usize = (count as usize) * (buf_size as usize);
        let storage: Vec<u8> = vec![0u8; storage_len];
        let slots: Vec<Descriptor> = vec![Descriptor { addr: 0, len: 0, bid: 0 }; count as usize];
        Ok(
            BufRing {
                slots,
                storage,
                entries: count,
                buf_size,
                mask,
                bgid,
                tail: 0,
                state: Uninit,
            },
        )
    }
}

} // verus!
