//! The bus matrix: the physical address space of one bus domain, made of
//! host-backed memory ranges and peripheral slaves.

use vstd::prelude::*;

use crate::{Error, MemProt, PROT_READ, PROT_WRITE};

verus! {

/// Outcome of a read on a bus.
#[derive(Debug, PartialEq, Eq)]
pub enum ReadResult<T> {
    Unaligned,
    BusError,
    Success(T),
}

/// Outcome of a write on a bus.
#[derive(Debug, PartialEq, Eq)]
pub enum WriteResult {
    Unaligned,
    BusError,
    Success,
}

/// One access that a peripheral serves, at an address relative to the
/// start of the range it is mapped at.
pub enum Access {
    ReadU8(u64),
    ReadU16(u64),
    ReadU32(u64),
    ReadU64(u64),
    WriteU8(u64, u8),
    WriteU16(u64, u16),
    WriteU32(u64, u32),
    WriteU64(u64, u64),
}

/// What a peripheral answered to an access.
pub enum Answer {
    Byte(ReadResult<u8>),
    Half(ReadResult<u16>),
    Word(ReadResult<u32>),
    Double(ReadResult<u64>),
    Written(WriteResult),
}

/// A peripheral answering typed accesses at addresses relative to the start
/// of the range it is mapped at. A matrix hands each child a clone of the
/// slave, so a slave that is shared serialises its own accesses (behind a
/// lock, say) and answers `BusError` when it can no longer serve; it answers
/// `Unaligned` for accesses it refuses to split. Each implementation says,
/// through `served`, what its accesses do.
pub trait BusSlave: Sized {
    /// `new` is this peripheral after it served `access` with `answer`.
    spec fn served(&self, new: Self, access: Access, answer: Answer) -> bool;

    fn read_u8(&mut self, addr: u64) -> (r: ReadResult<u8>)
        ensures
            old(self).served(*final(self), Access::ReadU8(addr), Answer::Byte(r)),
    ;

    fn read_u16(&mut self, addr: u64) -> (r: ReadResult<u16>)
        ensures
            old(self).served(*final(self), Access::ReadU16(addr), Answer::Half(r)),
    ;

    fn read_u32(&mut self, addr: u64) -> (r: ReadResult<u32>)
        ensures
            old(self).served(*final(self), Access::ReadU32(addr), Answer::Word(r)),
    ;

    fn read_u64(&mut self, addr: u64) -> (r: ReadResult<u64>)
        ensures
            old(self).served(*final(self), Access::ReadU64(addr), Answer::Double(r)),
    ;

    fn write_u8(&mut self, addr: u64, data: u8) -> (r: WriteResult)
        ensures
            old(self).served(*final(self), Access::WriteU8(addr, data), Answer::Written(r)),
    ;

    fn write_u16(&mut self, addr: u64, data: u16) -> (r: WriteResult)
        ensures
            old(self).served(*final(self), Access::WriteU16(addr, data), Answer::Written(r)),
    ;

    fn write_u32(&mut self, addr: u64, data: u32) -> (r: WriteResult)
        ensures
            old(self).served(*final(self), Access::WriteU32(addr, data), Answer::Written(r)),
    ;

    fn write_u64(&mut self, addr: u64, data: u64) -> (r: WriteResult)
        ensures
            old(self).served(*final(self), Access::WriteU64(addr, data), Answer::Written(r)),
    ;
}

/// What stands behind a range: host memory with its protection bits, or a
/// peripheral.
pub enum MemRangeImpl<S> {
    Mappable(Vec<u8>, MemProt),
    Mmio(S),
}

/// The addresses `[base, base + size)` and what serves them.
pub struct MemRange<S> {
    pub base: u64,
    pub size: u64,
    pub backing: MemRangeImpl<S>,
}

/// An event that a matrix hands to each of its children.
pub enum BusMatrixUpdateOp<S> {
    Add(MemRange<S>),
}

impl<S> BusMatrixUpdateOp<S> {
    /// The range that the event adds.
    pub open spec fn added(self) -> MemRange<S> {
        match self {
            BusMatrixUpdateOp::Add(r) => r,
        }
    }
}

pub open spec fn readable(prot: MemProt) -> bool {
    prot & PROT_READ == PROT_READ
}

pub open spec fn writable(prot: MemProt) -> bool {
    prot & PROT_WRITE == PROT_WRITE
}

impl<S> MemRange<S> {
    /// Host memory holds exactly one byte per address of the range.
    pub open spec fn wf(&self) -> bool {
        match self.backing {
            MemRangeImpl::Mappable(bytes, _) => bytes@.len() == self.size,
            MemRangeImpl::Mmio(_) => true,
        }
    }

    /// Every byte of `[a, a + n)` lies in the range.
    pub open spec fn covers(&self, a: int, n: int) -> bool {
        self.base <= a && a + n <= self.base + self.size
    }
}

/// `b` is a copy of `a`: same addresses, same bytes and protection, or a
/// clone of the same peripheral handle.
pub open spec fn replica<S: Clone>(a: MemRange<S>, b: MemRange<S>) -> bool {
    &&& a.base == b.base
    &&& a.size == b.size
    &&& match (a.backing, b.backing) {
        (MemRangeImpl::Mappable(x, p), MemRangeImpl::Mappable(y, q)) => x@ == y@ && p == q,
        (MemRangeImpl::Mmio(s), MemRangeImpl::Mmio(t)) => cloned(s, t),
        _ => false,
    }
}

/// Range `i` is the first of `ranges` that holds every byte of `[a, a + n)`.
pub open spec fn first_cover<S>(ranges: Seq<MemRange<S>>, a: int, n: int, i: int) -> bool {
    &&& 0 <= i < ranges.len()
    &&& ranges[i].covers(a, n)
    &&& forall|j: int| 0 <= j < i ==> !(#[trigger] ranges[j]).covers(a, n)
}

fn range_wf<S>(r: &MemRange<S>) -> (b: bool)
    ensures
        b == r.wf(),
{
    match &r.backing {
        MemRangeImpl::Mappable(bytes, _) => bytes.len() as u64 == r.size,
        MemRangeImpl::Mmio(_) => true,
    }
}

/// At most one range is the first to hold an access.
pub proof fn lemma_first_cover_unique<S>(ranges: Seq<MemRange<S>>, a: int, n: int, i: int, j: int)
    requires
        first_cover(ranges, a, n, i),
        first_cover(ranges, a, n, j),
    ensures
        i == j,
{
    if i < j {
        assert(!ranges[i].covers(a, n));
    } else if j < i {
        assert(!ranges[j].covers(a, n));
    }
}

/// No range of `ranges` holds every byte of `[a, a + n)`.
pub open spec fn no_cover<S>(ranges: Seq<MemRange<S>>, a: int, n: int) -> bool {
    forall|j: int| 0 <= j < ranges.len() ==> !(#[trigger] ranges[j]).covers(a, n)
}

/// The bytes of `b` from `off` on, read as a little-endian number of width
/// 16, 32 or 64.
pub open spec fn le_u16_at(b: Seq<u8>, off: int) -> u16 {
    (b[off] as u16) | ((b[off + 1] as u16) << 8u16)
}

pub open spec fn le_u32_at(b: Seq<u8>, off: int) -> u32 {
    (b[off] as u32) | ((b[off + 1] as u32) << 8u32) | ((b[off + 2] as u32) << 16u32) | ((
    b[off + 3] as u32) << 24u32)
}

pub open spec fn le_u64_at(b: Seq<u8>, off: int) -> u64 {
    (b[off] as u64) | ((b[off + 1] as u64) << 8u64) | ((b[off + 2] as u64) << 16u64) | ((
    b[off + 3] as u64) << 24u64) | ((b[off + 4] as u64) << 32u64) | ((b[off + 5] as u64)
        << 40u64) | ((b[off + 6] as u64) << 48u64) | ((b[off + 7] as u64) << 56u64)
}

/// `b` with the little-endian bytes of `v` stored from `off` on.
pub open spec fn put_u16(b: Seq<u8>, off: int, v: u16) -> Seq<u8> {
    b.update(off, (v & 0xff) as u8).update(off + 1, ((v >> 8u16) & 0xff) as u8)
}

pub open spec fn put_u32(b: Seq<u8>, off: int, v: u32) -> Seq<u8> {
    b.update(off, (v & 0xff) as u8).update(off + 1, ((v >> 8u32) & 0xff) as u8).update(
        off + 2,
        ((v >> 16u32) & 0xff) as u8,
    ).update(off + 3, ((v >> 24u32) & 0xff) as u8)
}

pub open spec fn put_u64(b: Seq<u8>, off: int, v: u64) -> Seq<u8> {
    b.update(off, (v & 0xff) as u8).update(off + 1, ((v >> 8u64) & 0xff) as u8).update(
        off + 2,
        ((v >> 16u64) & 0xff) as u8,
    ).update(off + 3, ((v >> 24u64) & 0xff) as u8).update(
        off + 4,
        ((v >> 32u64) & 0xff) as u8,
    ).update(off + 5, ((v >> 40u64) & 0xff) as u8).update(
        off + 6,
        ((v >> 48u64) & 0xff) as u8,
    ).update(off + 7, ((v >> 56u64) & 0xff) as u8)
}

/// A 32-bit value stored little-endian at `off` reads back unchanged.
pub proof fn lemma_put_u32_read_back(b: Seq<u8>, off: int, v: u32)
    requires
        0 <= off,
        off + 4 <= b.len(),
    ensures
        le_u32_at(put_u32(b, off, v), off) == v,
{
    let p = put_u32(b, off, v);
    assert(p[off] == (v & 0xff) as u8);
    assert(p[off + 1] == ((v >> 8u32) & 0xff) as u8);
    assert(p[off + 2] == ((v >> 16u32) & 0xff) as u8);
    assert(p[off + 3] == ((v >> 24u32) & 0xff) as u8);
    assert(((v & 0xff) as u8 as u32) | (((v >> 8u32) & 0xff) as u8 as u32) << 8u32 | (((v
        >> 16u32) & 0xff) as u8 as u32) << 16u32 | (((v >> 24u32) & 0xff) as u8 as u32)
        << 24u32 == v) by (bit_vector);
}

/// The ordered ranges of one bus domain, and for each child matrix the
/// update events not yet taken by it.
pub struct BusMatrix<S> {
    ranges: Vec<MemRange<S>>,
    children: Vec<Vec<BusMatrixUpdateOp<S>>>,
}

impl<S> View for BusMatrix<S> {
    type V = Seq<MemRange<S>>;

    closed spec fn view(&self) -> Seq<MemRange<S>> {
        self.ranges@
    }
}

/// `new` is `old` with the bytes of its host memory replaced by `bytes`.
pub open spec fn stored<S>(old: MemRange<S>, new: MemRange<S>, bytes: Seq<u8>) -> bool {
    &&& new.base == old.base
    &&& new.size == old.size
    &&& match (old.backing, new.backing) {
        (MemRangeImpl::Mappable(_, p), MemRangeImpl::Mappable(b, q)) => b@ == bytes && p == q,
        _ => false,
    }
}

/// `new` is `old` after its peripheral served `access` with `answer`: same
/// addresses, still a peripheral, in the state the access left it in.
pub open spec fn slave_answered<S: BusSlave>(
    old: MemRange<S>,
    new: MemRange<S>,
    access: Access,
    answer: Answer,
) -> bool {
    &&& new.base == old.base
    &&& new.size == old.size
    &&& match (old.backing, new.backing) {
        (MemRangeImpl::Mmio(s), MemRangeImpl::Mmio(t)) => s.served(t, access, answer),
        _ => false,
    }
}

/// `a` and `b` have the same ranges at the same places, of the same kinds;
/// only what the ranges hold may differ.
pub open spec fn same_layout<S>(a: Seq<MemRange<S>>, b: Seq<MemRange<S>>) -> bool {
    &&& a.len() == b.len()
    &&& forall|k: int|
        0 <= k < a.len() ==> (#[trigger] a[k]).base == b[k].base && a[k].size == b[k].size && (
        a[k].backing is Mappable) == (b[k].backing is Mappable)
}

/// Where two bus views have the same layout, an access is held by host
/// memory in one exactly when it is in the other, and at the same range.
pub proof fn lemma_same_layout_covers<S>(a: Seq<MemRange<S>>, b: Seq<MemRange<S>>, x: int, n: int)
    requires
        same_layout(a, b),
    ensures
        no_host_cover(a, x, n) == no_host_cover(b, x, n),
        forall|i: int| first_host_cover(a, x, n, i) == first_host_cover(b, x, n, i),
{
    assert forall|i: int| first_host_cover(a, x, n, i) == first_host_cover(b, x, n, i) by {
        if 0 <= i < a.len() {
            assert(a[i].base == b[i].base);
            assert forall|j: int| 0 <= j < i implies (a[j].backing is Mappable && a[j].covers(x, n))
                == (b[j].backing is Mappable && b[j].covers(x, n)) by {
                assert(a[j].base == b[j].base);
            }
        }
    }
    if !no_host_cover(a, x, n) {
        let j = choose|j: int| 0 <= j < a.len() && (a[j].backing is Mappable && a[j].covers(x, n));
        assert(a[j].base == b[j].base);
    }
    if !no_host_cover(b, x, n) {
        let j = choose|j: int| 0 <= j < b.len() && (b[j].backing is Mappable && b[j].covers(x, n));
        assert(a[j].base == b[j].base);
    }
}

/// The bytes of a mappable range.
pub open spec fn host_bytes<S>(r: MemRange<S>) -> Seq<u8> {
    match r.backing {
        MemRangeImpl::Mappable(b, _) => b@,
        MemRangeImpl::Mmio(_) => Seq::empty(),
    }
}

/// The protection bits of a mappable range.
pub open spec fn host_prot<S>(r: MemRange<S>) -> MemProt {
    match r.backing {
        MemRangeImpl::Mappable(_, p) => p,
        MemRangeImpl::Mmio(_) => 0,
    }
}

impl<S: BusSlave> BusMatrix<S> {
    /// The update events that child `c` has not taken yet.
    pub closed spec fn pending(&self) -> Seq<Seq<BusMatrixUpdateOp<S>>> {
        Seq::new(self.children@.len(), |c: int| self.children@[c]@)
    }

    pub open spec fn wf(&self) -> bool {
        &&& forall|i: int| 0 <= i < self@.len() ==> (#[trigger] self@[i]).wf()
        &&& forall|c: int, k: int|
            0 <= c < self.pending().len() && 0 <= k < self.pending()[c].len() ==> (
            #[trigger] self.pending()[c][k]).added().wf()
    }

    /// Only range `i` changed, into `r`; the child queues are as before.
    pub open spec fn changed_only(&self, old: &Self, i: int, r: MemRange<S>) -> bool {
        &&& self@ == old@.update(i, r)
        &&& self.pending() == old.pending()
    }

    /// Whether the host memory of every range, and of every range queued for
    /// a child, holds one byte per address.
    fn check_wf(&self) -> (r: bool)
        ensures
            r == self.wf(),
    {
        let mut i: usize = 0;
        while i < self.ranges.len()
            invariant
                i <= self@.len(),
                forall|j: int| 0 <= j < i ==> (#[trigger] self@[j]).wf(),
            decreases self@.len() - i,
        {
            if !range_wf(&self.ranges[i]) {
                return false;
            }
            i = i + 1;
        }
        let mut c: usize = 0;
        while c < self.children.len()
            invariant
                c <= self.pending().len(),
                forall|j: int| 0 <= j < self@.len() ==> (#[trigger] self@[j]).wf(),
                forall|d: int, k: int|
                    0 <= d < c && 0 <= k < self.pending()[d].len() ==> (
                    #[trigger] self.pending()[d][k]).added().wf(),
            decreases self.pending().len() - c,
        {
            let queue = &self.children[c];
            let mut k: usize = 0;
            while k < queue.len()
                invariant
                    c < self.pending().len(),
                    queue@ == self.pending()[c as int],
                    k <= queue@.len(),
                    forall|m: int| 0 <= m < k ==> (#[trigger] queue@[m]).added().wf(),
                decreases queue@.len() - k,
            {
                match &queue[k] {
                    BusMatrixUpdateOp::Add(range) => {
                        if !range_wf(range) {
                            return false;
                        }
                    },
                }
                k = k + 1;
            }
            c = c + 1;
        }
        true
    }

    /// The first range that holds every byte of `[addr, addr + n)`.
    fn dispatch_index(&self, addr: u64, n: u64) -> (r: Option<usize>)
        ensures
            match r {
                Some(i) => first_cover(self@, addr as int, n as int, i as int),
                None => no_cover(self@, addr as int, n as int),
            },
    {
        let mut i: usize = 0;
        while i < self.ranges.len()
            invariant
                i <= self@.len(),
                forall|j: int| 0 <= j < i ==> !(#[trigger] self@[j]).covers(addr as int, n as int),
            decreases self@.len() - i,
        {
            let r = &self.ranges[i];
            if r.base <= addr && addr - r.base <= r.size && n <= r.size - (addr - r.base) {
                return Some(i);
            }
            i = i + 1;
        }
        None
    }

    /// `new` is `old` after a read of one byte at `addr` that answered
    /// `r`.
    pub open spec fn read_u8_done(old: Self, new: Self, addr: u64, r: ReadResult<u8>) -> bool {
        &&& new.wf()
        &&& same_layout(old@, new@)
        &&& no_cover(old@, addr as int, 1) ==> r == ReadResult::<u8>::BusError && new == old
        &&& forall|i: int|
            #![trigger first_cover(old@, addr as int, 1, i)]
            first_cover(old@, addr as int, 1, i) ==> match old@[i].backing {
                MemRangeImpl::Mappable(b, p) => new == old && r == (if readable(p) {
                    ReadResult::Success(b@[addr - old@[i].base])
                } else {
                    ReadResult::<u8>::BusError
                }),
                MemRangeImpl::Mmio(_) => new.changed_only(&old, i, new@[i]) && slave_answered(
                    old@[i],
                    new@[i],
                    Access::ReadU8((addr - old@[i].base) as u64),
                    Answer::Byte(r),
                ),
            }
    }

    /// Reads one byte at `addr` from the first range that holds all
    /// of its bytes: readable host memory answers with its bytes, a
    /// peripheral is asked at the offset into its range and its answer is
    /// returned, anything else is a bus error.
    pub fn read_u8(&mut self, addr: u64) -> (r: ReadResult<u8>)
        requires
            old(self).wf(),
        ensures
            Self::read_u8_done(*old(self), *final(self), addr, r),
    {
        match self.dispatch_index(addr, 1) {
            None => ReadResult::BusError,
            Some(i) => {
                let off = addr - self.ranges[i].base;
                proof {
                    assert(self@[i as int].wf());
                    assert forall|j: int| first_cover(self@, addr as int, 1, j) implies j == i by {
                        lemma_first_cover_unique(self@, addr as int, 1, i as int, j);
                    }
                }
                if let MemRangeImpl::Mappable(bytes, prot) = &self.ranges[i].backing {
                    let len = bytes.len();
                    assert(off + 1 <= len);
                    let k = off as usize;
                    if *prot & PROT_READ == PROT_READ {
                        return ReadResult::Success(bytes[k]);
                    } else {
                        return ReadResult::BusError;
                    }
                }
                let range = &mut self.ranges[i];
                match &mut range.backing {
                    MemRangeImpl::Mmio(slave) => slave.read_u8(off),
                    MemRangeImpl::Mappable(_, _) => ReadResult::BusError,
                }
            },
        }
    }

    /// `new` is `old` after a read of a little-endian 16-bit value at `addr` that answered
    /// `r`.
    pub open spec fn read_u16_done(old: Self, new: Self, addr: u64, r: ReadResult<u16>) -> bool {
        &&& new.wf()
        &&& same_layout(old@, new@)
        &&& no_cover(old@, addr as int, 2) ==> r == ReadResult::<u16>::BusError && new == old
        &&& forall|i: int|
            #![trigger first_cover(old@, addr as int, 2, i)]
            first_cover(old@, addr as int, 2, i) ==> match old@[i].backing {
                MemRangeImpl::Mappable(b, p) => new == old && r == (if readable(p) {
                    ReadResult::Success(le_u16_at(b@, addr - old@[i].base))
                } else {
                    ReadResult::<u16>::BusError
                }),
                MemRangeImpl::Mmio(_) => new.changed_only(&old, i, new@[i]) && slave_answered(
                    old@[i],
                    new@[i],
                    Access::ReadU16((addr - old@[i].base) as u64),
                    Answer::Half(r),
                ),
            }
    }

    /// Reads a little-endian 16-bit value at `addr` from the first range that holds all
    /// of its bytes: readable host memory answers with its bytes, a
    /// peripheral is asked at the offset into its range and its answer is
    /// returned, anything else is a bus error.
    pub fn read_u16(&mut self, addr: u64) -> (r: ReadResult<u16>)
        requires
            old(self).wf(),
        ensures
            Self::read_u16_done(*old(self), *final(self), addr, r),
    {
        match self.dispatch_index(addr, 2) {
            None => ReadResult::BusError,
            Some(i) => {
                let off = addr - self.ranges[i].base;
                proof {
                    assert(self@[i as int].wf());
                    assert forall|j: int| first_cover(self@, addr as int, 2, j) implies j == i by {
                        lemma_first_cover_unique(self@, addr as int, 2, i as int, j);
                    }
                }
                if let MemRangeImpl::Mappable(bytes, prot) = &self.ranges[i].backing {
                    let len = bytes.len();
                    assert(off + 2 <= len);
                    let k = off as usize;
                    if *prot & PROT_READ == PROT_READ {
                        return ReadResult::Success((bytes[k] as u16) | ((bytes[k + 1] as u16) << 8u16));
                    } else {
                        return ReadResult::BusError;
                    }
                }
                let range = &mut self.ranges[i];
                match &mut range.backing {
                    MemRangeImpl::Mmio(slave) => slave.read_u16(off),
                    MemRangeImpl::Mappable(_, _) => ReadResult::BusError,
                }
            },
        }
    }

    /// `new` is `old` after a read of a little-endian 32-bit value at `addr` that answered
    /// `r`.
    pub open spec fn read_u32_done(old: Self, new: Self, addr: u64, r: ReadResult<u32>) -> bool {
        &&& new.wf()
        &&& same_layout(old@, new@)
        &&& no_cover(old@, addr as int, 4) ==> r == ReadResult::<u32>::BusError && new == old
        &&& forall|i: int|
            #![trigger first_cover(old@, addr as int, 4, i)]
            first_cover(old@, addr as int, 4, i) ==> match old@[i].backing {
                MemRangeImpl::Mappable(b, p) => new == old && r == (if readable(p) {
                    ReadResult::Success(le_u32_at(b@, addr - old@[i].base))
                } else {
                    ReadResult::<u32>::BusError
                }),
                MemRangeImpl::Mmio(_) => new.changed_only(&old, i, new@[i]) && slave_answered(
                    old@[i],
                    new@[i],
                    Access::ReadU32((addr - old@[i].base) as u64),
                    Answer::Word(r),
                ),
            }
    }

    /// Reads a little-endian 32-bit value at `addr` from the first range that holds all
    /// of its bytes: readable host memory answers with its bytes, a
    /// peripheral is asked at the offset into its range and its answer is
    /// returned, anything else is a bus error.
    pub fn read_u32(&mut self, addr: u64) -> (r: ReadResult<u32>)
        requires
            old(self).wf(),
        ensures
            Self::read_u32_done(*old(self), *final(self), addr, r),
    {
        match self.dispatch_index(addr, 4) {
            None => ReadResult::BusError,
            Some(i) => {
                let off = addr - self.ranges[i].base;
                proof {
                    assert(self@[i as int].wf());
                    assert forall|j: int| first_cover(self@, addr as int, 4, j) implies j == i by {
                        lemma_first_cover_unique(self@, addr as int, 4, i as int, j);
                    }
                }
                if let MemRangeImpl::Mappable(bytes, prot) = &self.ranges[i].backing {
                    let len = bytes.len();
                    assert(off + 4 <= len);
                    let k = off as usize;
                    if *prot & PROT_READ == PROT_READ {
                        return ReadResult::Success((bytes[k] as u32) | ((bytes[k + 1] as u32) << 8u32) | ((bytes[k + 2] as u32) << 16u32) | ((bytes[k + 3] as u32) << 24u32));
                    } else {
                        return ReadResult::BusError;
                    }
                }
                let range = &mut self.ranges[i];
                match &mut range.backing {
                    MemRangeImpl::Mmio(slave) => slave.read_u32(off),
                    MemRangeImpl::Mappable(_, _) => ReadResult::BusError,
                }
            },
        }
    }

    /// `new` is `old` after a read of a little-endian 64-bit value at `addr` that answered
    /// `r`.
    pub open spec fn read_u64_done(old: Self, new: Self, addr: u64, r: ReadResult<u64>) -> bool {
        &&& new.wf()
        &&& same_layout(old@, new@)
        &&& no_cover(old@, addr as int, 8) ==> r == ReadResult::<u64>::BusError && new == old
        &&& forall|i: int|
            #![trigger first_cover(old@, addr as int, 8, i)]
            first_cover(old@, addr as int, 8, i) ==> match old@[i].backing {
                MemRangeImpl::Mappable(b, p) => new == old && r == (if readable(p) {
                    ReadResult::Success(le_u64_at(b@, addr - old@[i].base))
                } else {
                    ReadResult::<u64>::BusError
                }),
                MemRangeImpl::Mmio(_) => new.changed_only(&old, i, new@[i]) && slave_answered(
                    old@[i],
                    new@[i],
                    Access::ReadU64((addr - old@[i].base) as u64),
                    Answer::Double(r),
                ),
            }
    }

    /// Reads a little-endian 64-bit value at `addr` from the first range that holds all
    /// of its bytes: readable host memory answers with its bytes, a
    /// peripheral is asked at the offset into its range and its answer is
    /// returned, anything else is a bus error.
    pub fn read_u64(&mut self, addr: u64) -> (r: ReadResult<u64>)
        requires
            old(self).wf(),
        ensures
            Self::read_u64_done(*old(self), *final(self), addr, r),
    {
        match self.dispatch_index(addr, 8) {
            None => ReadResult::BusError,
            Some(i) => {
                let off = addr - self.ranges[i].base;
                proof {
                    assert(self@[i as int].wf());
                    assert forall|j: int| first_cover(self@, addr as int, 8, j) implies j == i by {
                        lemma_first_cover_unique(self@, addr as int, 8, i as int, j);
                    }
                }
                if let MemRangeImpl::Mappable(bytes, prot) = &self.ranges[i].backing {
                    let len = bytes.len();
                    assert(off + 8 <= len);
                    let k = off as usize;
                    if *prot & PROT_READ == PROT_READ {
                        return ReadResult::Success((bytes[k] as u64) | ((bytes[k + 1] as u64) << 8u64) | ((bytes[k + 2] as u64) << 16u64) | ((bytes[k + 3] as u64) << 24u64) | ((bytes[k + 4] as u64) << 32u64) | ((bytes[k + 5] as u64) << 40u64) | ((bytes[k + 6] as u64) << 48u64) | ((bytes[k + 7] as u64) << 56u64));
                    } else {
                        return ReadResult::BusError;
                    }
                }
                let range = &mut self.ranges[i];
                match &mut range.backing {
                    MemRangeImpl::Mmio(slave) => slave.read_u64(off),
                    MemRangeImpl::Mappable(_, _) => ReadResult::BusError,
                }
            },
        }
    }

    /// `new` is `old` after a write of one byte `data` at `addr` that
    /// answered `r`.
    pub open spec fn write_u8_done(old: Self, new: Self, addr: u64, data: u8, r: WriteResult) -> bool {
        &&& new.wf()
        &&& same_layout(old@, new@)
        &&& no_cover(old@, addr as int, 1) ==> r == WriteResult::BusError && new == old
        &&& forall|i: int|
            #![trigger first_cover(old@, addr as int, 1, i)]
            first_cover(old@, addr as int, 1, i) ==> match old@[i].backing {
                MemRangeImpl::Mappable(b, p) => if writable(p) {
                    &&& r == WriteResult::Success
                    &&& new.changed_only(&old, i, new@[i])
                    &&& stored(old@[i], new@[i], b@.update(addr - old@[i].base, data))
                } else {
                    r == WriteResult::BusError && new == old
                },
                MemRangeImpl::Mmio(_) => new.changed_only(&old, i, new@[i]) && slave_answered(
                    old@[i],
                    new@[i],
                    Access::WriteU8((addr - old@[i].base) as u64, data),
                    Answer::Written(r),
                ),
            }
    }

    /// Writes one byte at `addr` into the first range that holds all
    /// of its bytes: writable host memory stores it, a peripheral is handed
    /// it at the offset into its range and its answer is returned, anything
    /// else is a bus error and changes nothing.
    pub fn write_u8(&mut self, addr: u64, data: u8) -> (r: WriteResult)
        requires
            old(self).wf(),
        ensures
            Self::write_u8_done(*old(self), *final(self), addr, data, r),
    {
        match self.dispatch_index(addr, 1) {
            None => WriteResult::BusError,
            Some(i) => {
                let off = addr - self.ranges[i].base;
                proof {
                    assert(self@[i as int].wf());
                    assert forall|j: int| first_cover(self@, addr as int, 1, j) implies j == i by {
                        lemma_first_cover_unique(self@, addr as int, 1, i as int, j);
                    }
                }
                if let MemRangeImpl::Mappable(_, prot) = &self.ranges[i].backing {
                    if *prot & PROT_WRITE != PROT_WRITE {
                        return WriteResult::BusError;
                    }
                }
                let range = &mut self.ranges[i];
                match &mut range.backing {
                    MemRangeImpl::Mappable(bytes, _) => {
                        let len = bytes.len();
                        assert(off + 1 <= len);
                        let k = off as usize;
                        bytes.set(k, data);
                        WriteResult::Success
                    },
                    MemRangeImpl::Mmio(slave) => slave.write_u8(off, data),
                }
            },
        }
    }

    /// `new` is `old` after a write of a little-endian 16-bit value `data` at `addr` that
    /// answered `r`.
    pub open spec fn write_u16_done(old: Self, new: Self, addr: u64, data: u16, r: WriteResult) -> bool {
        &&& new.wf()
        &&& same_layout(old@, new@)
        &&& no_cover(old@, addr as int, 2) ==> r == WriteResult::BusError && new == old
        &&& forall|i: int|
            #![trigger first_cover(old@, addr as int, 2, i)]
            first_cover(old@, addr as int, 2, i) ==> match old@[i].backing {
                MemRangeImpl::Mappable(b, p) => if writable(p) {
                    &&& r == WriteResult::Success
                    &&& new.changed_only(&old, i, new@[i])
                    &&& stored(old@[i], new@[i], put_u16(b@, addr - old@[i].base, data))
                } else {
                    r == WriteResult::BusError && new == old
                },
                MemRangeImpl::Mmio(_) => new.changed_only(&old, i, new@[i]) && slave_answered(
                    old@[i],
                    new@[i],
                    Access::WriteU16((addr - old@[i].base) as u64, data),
                    Answer::Written(r),
                ),
            }
    }

    /// Writes a little-endian 16-bit value at `addr` into the first range that holds all
    /// of its bytes: writable host memory stores it, a peripheral is handed
    /// it at the offset into its range and its answer is returned, anything
    /// else is a bus error and changes nothing.
    pub fn write_u16(&mut self, addr: u64, data: u16) -> (r: WriteResult)
        requires
            old(self).wf(),
        ensures
            Self::write_u16_done(*old(self), *final(self), addr, data, r),
    {
        match self.dispatch_index(addr, 2) {
            None => WriteResult::BusError,
            Some(i) => {
                let off = addr - self.ranges[i].base;
                proof {
                    assert(self@[i as int].wf());
                    assert forall|j: int| first_cover(self@, addr as int, 2, j) implies j == i by {
                        lemma_first_cover_unique(self@, addr as int, 2, i as int, j);
                    }
                }
                if let MemRangeImpl::Mappable(_, prot) = &self.ranges[i].backing {
                    if *prot & PROT_WRITE != PROT_WRITE {
                        return WriteResult::BusError;
                    }
                }
                let range = &mut self.ranges[i];
                match &mut range.backing {
                    MemRangeImpl::Mappable(bytes, _) => {
                        let len = bytes.len();
                        assert(off + 2 <= len);
                        let k = off as usize;
                        bytes.set(k, (data & 0xff) as u8);
                        bytes.set(k + 1, ((data >> 8u16) & 0xff) as u8);
                        WriteResult::Success
                    },
                    MemRangeImpl::Mmio(slave) => slave.write_u16(off, data),
                }
            },
        }
    }

    /// `new` is `old` after a write of a little-endian 32-bit value `data` at `addr` that
    /// answered `r`.
    pub open spec fn write_u32_done(old: Self, new: Self, addr: u64, data: u32, r: WriteResult) -> bool {
        &&& new.wf()
        &&& same_layout(old@, new@)
        &&& no_cover(old@, addr as int, 4) ==> r == WriteResult::BusError && new == old
        &&& forall|i: int|
            #![trigger first_cover(old@, addr as int, 4, i)]
            first_cover(old@, addr as int, 4, i) ==> match old@[i].backing {
                MemRangeImpl::Mappable(b, p) => if writable(p) {
                    &&& r == WriteResult::Success
                    &&& new.changed_only(&old, i, new@[i])
                    &&& stored(old@[i], new@[i], put_u32(b@, addr - old@[i].base, data))
                } else {
                    r == WriteResult::BusError && new == old
                },
                MemRangeImpl::Mmio(_) => new.changed_only(&old, i, new@[i]) && slave_answered(
                    old@[i],
                    new@[i],
                    Access::WriteU32((addr - old@[i].base) as u64, data),
                    Answer::Written(r),
                ),
            }
    }

    /// Writes a little-endian 32-bit value at `addr` into the first range that holds all
    /// of its bytes: writable host memory stores it, a peripheral is handed
    /// it at the offset into its range and its answer is returned, anything
    /// else is a bus error and changes nothing.
    pub fn write_u32(&mut self, addr: u64, data: u32) -> (r: WriteResult)
        requires
            old(self).wf(),
        ensures
            Self::write_u32_done(*old(self), *final(self), addr, data, r),
    {
        match self.dispatch_index(addr, 4) {
            None => WriteResult::BusError,
            Some(i) => {
                let off = addr - self.ranges[i].base;
                proof {
                    assert(self@[i as int].wf());
                    assert forall|j: int| first_cover(self@, addr as int, 4, j) implies j == i by {
                        lemma_first_cover_unique(self@, addr as int, 4, i as int, j);
                    }
                }
                if let MemRangeImpl::Mappable(_, prot) = &self.ranges[i].backing {
                    if *prot & PROT_WRITE != PROT_WRITE {
                        return WriteResult::BusError;
                    }
                }
                let range = &mut self.ranges[i];
                match &mut range.backing {
                    MemRangeImpl::Mappable(bytes, _) => {
                        let len = bytes.len();
                        assert(off + 4 <= len);
                        let k = off as usize;
                        bytes.set(k, (data & 0xff) as u8);
                        bytes.set(k + 1, ((data >> 8u32) & 0xff) as u8);
                        bytes.set(k + 2, ((data >> 16u32) & 0xff) as u8);
                        bytes.set(k + 3, ((data >> 24u32) & 0xff) as u8);
                        WriteResult::Success
                    },
                    MemRangeImpl::Mmio(slave) => slave.write_u32(off, data),
                }
            },
        }
    }

    /// `new` is `old` after a write of a little-endian 64-bit value `data` at `addr` that
    /// answered `r`.
    pub open spec fn write_u64_done(old: Self, new: Self, addr: u64, data: u64, r: WriteResult) -> bool {
        &&& new.wf()
        &&& same_layout(old@, new@)
        &&& no_cover(old@, addr as int, 8) ==> r == WriteResult::BusError && new == old
        &&& forall|i: int|
            #![trigger first_cover(old@, addr as int, 8, i)]
            first_cover(old@, addr as int, 8, i) ==> match old@[i].backing {
                MemRangeImpl::Mappable(b, p) => if writable(p) {
                    &&& r == WriteResult::Success
                    &&& new.changed_only(&old, i, new@[i])
                    &&& stored(old@[i], new@[i], put_u64(b@, addr - old@[i].base, data))
                } else {
                    r == WriteResult::BusError && new == old
                },
                MemRangeImpl::Mmio(_) => new.changed_only(&old, i, new@[i]) && slave_answered(
                    old@[i],
                    new@[i],
                    Access::WriteU64((addr - old@[i].base) as u64, data),
                    Answer::Written(r),
                ),
            }
    }

    /// Writes a little-endian 64-bit value at `addr` into the first range that holds all
    /// of its bytes: writable host memory stores it, a peripheral is handed
    /// it at the offset into its range and its answer is returned, anything
    /// else is a bus error and changes nothing.
    pub fn write_u64(&mut self, addr: u64, data: u64) -> (r: WriteResult)
        requires
            old(self).wf(),
        ensures
            Self::write_u64_done(*old(self), *final(self), addr, data, r),
    {
        match self.dispatch_index(addr, 8) {
            None => WriteResult::BusError,
            Some(i) => {
                let off = addr - self.ranges[i].base;
                proof {
                    assert(self@[i as int].wf());
                    assert forall|j: int| first_cover(self@, addr as int, 8, j) implies j == i by {
                        lemma_first_cover_unique(self@, addr as int, 8, i as int, j);
                    }
                }
                if let MemRangeImpl::Mappable(_, prot) = &self.ranges[i].backing {
                    if *prot & PROT_WRITE != PROT_WRITE {
                        return WriteResult::BusError;
                    }
                }
                let range = &mut self.ranges[i];
                match &mut range.backing {
                    MemRangeImpl::Mappable(bytes, _) => {
                        let len = bytes.len();
                        assert(off + 8 <= len);
                        let k = off as usize;
                        bytes.set(k, (data & 0xff) as u8);
                        bytes.set(k + 1, ((data >> 8u64) & 0xff) as u8);
                        bytes.set(k + 2, ((data >> 16u64) & 0xff) as u8);
                        bytes.set(k + 3, ((data >> 24u64) & 0xff) as u8);
                        bytes.set(k + 4, ((data >> 32u64) & 0xff) as u8);
                        bytes.set(k + 5, ((data >> 40u64) & 0xff) as u8);
                        bytes.set(k + 6, ((data >> 48u64) & 0xff) as u8);
                        bytes.set(k + 7, ((data >> 56u64) & 0xff) as u8);
                        WriteResult::Success
                    },
                    MemRangeImpl::Mmio(slave) => slave.write_u64(off, data),
                }
            },
        }
    }
}

/// `b` with `data` stored from `off` on.
pub open spec fn splice(b: Seq<u8>, off: int, data: Seq<u8>) -> Seq<u8> {
    b.subrange(0, off) + data + b.subrange(off + data.len(), b.len() as int)
}

/// Range `i` is the first mappable range that holds all of `[a, a + n)`.
pub open spec fn first_host_cover<S>(ranges: Seq<MemRange<S>>, a: int, n: int, i: int) -> bool {
    &&& 0 <= i < ranges.len()
    &&& ranges[i].backing is Mappable
    &&& ranges[i].covers(a, n)
    &&& forall|j: int|
        0 <= j < i ==> !((#[trigger] ranges[j]).backing is Mappable && ranges[j].covers(a, n))
}

/// No mappable range holds all of `[a, a + n)`.
pub open spec fn no_host_cover<S>(ranges: Seq<MemRange<S>>, a: int, n: int) -> bool {
    forall|j: int|
        0 <= j < ranges.len() ==> !((#[trigger] ranges[j]).backing is Mappable && ranges[j].covers(
            a,
            n,
        ))
}

/// `new` is `old` with `data` stored at `a` in the first mappable range
/// that holds all of it, and nothing else changed.
pub open spec fn bytes_set<S>(old: Seq<MemRange<S>>, new: Seq<MemRange<S>>, a: int, data: Seq<u8>) -> bool {
    exists|i: int|
        first_host_cover(old, a, data.len() as int, i) && new == old.update(i, new[i]) && stored(
            #[trigger] old[i],
            new[i],
            splice(host_bytes(old[i]), a - old[i].base, data),
        )
}

/// The bytes at `[a, a + n)` of the first mappable range that holds them
/// all.
pub open spec fn host_span<S>(ranges: Seq<MemRange<S>>, a: int, n: int) -> Seq<u8> {
    let i = choose|i: int| first_host_cover(ranges, a, n, i);
    host_bytes(ranges[i]).subrange(a - ranges[i].base, a - ranges[i].base + n)
}

pub proof fn lemma_first_host_cover_unique<S>(
    ranges: Seq<MemRange<S>>,
    a: int,
    n: int,
    i: int,
    j: int,
)
    requires
        first_host_cover(ranges, a, n, i),
        first_host_cover(ranges, a, n, j),
    ensures
        i == j,
{
    if i < j {
        assert(!(ranges[i].backing is Mappable && ranges[i].covers(a, n)));
    } else if j < i {
        assert(!(ranges[j].backing is Mappable && ranges[j].covers(a, n)));
    }
}

/// `size` zero bytes of host memory; `MemAllocation` when the size does not
/// fit the host's address space or the host cannot provide the memory.
pub fn zeroed(size: u64) -> (r: Result<Vec<u8>, Error>)
    ensures
        size > usize::MAX ==> r == Err::<Vec<u8>, Error>(Error::MemAllocation),
        match r {
            Ok(v) => v@ == Seq::new(size as nat, |k: int| 0u8),
            Err(e) => e == Error::MemAllocation,
        },
{
    if size > usize::MAX as u64 {
        return Err(Error::MemAllocation);
    }
    let len = size as usize;
    let mut bytes: Vec<u8> = Vec::new();
    match bytes.try_reserve(len) {
        Ok(()) => {},
        Err(_) => {
            return Err(Error::MemAllocation);
        },
    }
    let mut i: usize = 0;
    while i < len
        invariant
            i <= len,
            bytes@ == Seq::new(i as nat, |k: int| 0u8),
        decreases len - i,
    {
        bytes.push(0);
        i = i + 1;
        assert(bytes@ =~= Seq::new(i as nat, |k: int| 0u8));
    }
    Ok(bytes)
}

/// A copy of the bytes of `b`.
pub fn copy_bytes(b: &[u8]) -> (r: Vec<u8>)
    ensures
        r@ == b@,
{
    let mut r: Vec<u8> = Vec::new();
    let mut i: usize = 0;
    while i < b.len()
        invariant
            i <= b@.len(),
            r@ == b@.subrange(0, i as int),
        decreases b@.len() - i,
    {
        r.push(b[i]);
        i = i + 1;
    }
    assert(r@ =~= b@);
    r
}

/// A copy of `r` for another matrix: the same addresses, a copy of its host
/// memory, or a clone of its peripheral handle.
fn replicate<S: Clone>(r: &MemRange<S>) -> (c: MemRange<S>)
    requires
        r.wf(),
    ensures
        c.wf(),
        replica(*r, c),
{
    match &r.backing {
        MemRangeImpl::Mappable(b, p) => MemRange {
            base: r.base,
            size: r.size,
            backing: MemRangeImpl::Mappable(copy_bytes(b.as_slice()), *p),
        },
        MemRangeImpl::Mmio(s) => MemRange {
            base: r.base,
            size: r.size,
            backing: MemRangeImpl::Mmio(s.clone()),
        },
    }
}

impl<S: BusSlave + Clone> BusMatrix<S> {
    /// `self` is `old` with one range appended, and every child of `old`
    /// has been handed a copy of it.
    pub open spec fn appended(&self, old: &Self) -> bool {
        &&& self@.len() == old@.len() + 1
        &&& self@.subrange(0, old@.len() as int) == old@
        &&& self.pending().len() == old.pending().len()
        &&& forall|c: int|
            0 <= c < old.pending().len() ==> {
                &&& (#[trigger] self.pending()[c]).len() == old.pending()[c].len() + 1
                &&& self.pending()[c].subrange(0, old.pending()[c].len() as int)
                    == old.pending()[c]
                &&& replica(self@.last(), self.pending()[c].last().added())
            }
    }

    /// An empty matrix with no children.
    pub fn new() -> (r: BusMatrix<S>)
        ensures
            r.wf(),
            r@ == Seq::<MemRange<S>>::empty(),
            r.pending() == Seq::<Seq<BusMatrixUpdateOp<S>>>::empty(),
    {
        let r = BusMatrix { ranges: Vec::new(), children: Vec::new() };
        assert(r.pending() =~= Seq::<Seq<BusMatrixUpdateOp<S>>>::empty());
        r
    }

    /// Appends `range` and hands each child a copy of it.
    fn push_range(&mut self, range: MemRange<S>)
        requires
            old(self).wf(),
            range.wf(),
        ensures
            final(self).wf(),
            final(self).appended(old(self)),
            final(self)@.last() == range,
    {
        let mut c: usize = 0;
        while c < self.children.len()
            invariant
                self.wf(),
                range.wf(),
                self@ == old(self)@,
                c <= self.pending().len(),
                self.pending().len() == old(self).pending().len(),
                forall|d: int|
                    c <= d < self.pending().len() ==> #[trigger] self.pending()[d] == old(
                        self,
                    ).pending()[d],
                forall|d: int|
                    0 <= d < c ==> {
                        &&& (#[trigger] self.pending()[d]).len() == old(self).pending()[d].len()
                            + 1
                        &&& self.pending()[d].subrange(0, old(self).pending()[d].len() as int)
                            == old(self).pending()[d]
                        &&& replica(range, self.pending()[d].last().added())
                    },
            decreases self.pending().len() - c,
        {
            let copy = replicate(&range);
            let ghost before = self.pending();
            self.children[c].push(BusMatrixUpdateOp::Add(copy));
            proof {
                assert(self.pending() =~= before.update(c as int, before[c as int].push(
                    BusMatrixUpdateOp::Add(copy),
                )));
                assert(before[c as int] == old(self).pending()[c as int]);
                assert(self.pending()[c as int].subrange(0, before[c as int].len() as int)
                    =~= before[c as int]);
            }
            c = c + 1;
        }
        let ghost before = self.pending();
        self.ranges.push(range);
        proof {
            assert(self.pending() =~= before);
            assert(self@.subrange(0, old(self)@.len() as int) =~= old(self)@);
        }
    }

    /// Adds the host memory `bytes` at `[base, base + size)` with the
    /// protection `prot`, and hands each child a copy of the new range.
    pub fn add_host_range(&mut self, base: u64, size: u64, prot: MemProt, bytes: Vec<u8>) -> (r: Result<
        (),
        Error,
    >)
        requires
            old(self).wf(),
            bytes@.len() == size,
        ensures
            r is Ok,
            final(self).wf(),
            final(self).appended(old(self)),
            final(self)@.last() == (MemRange { base, size, backing: MemRangeImpl::<S>::Mappable(bytes, prot) }),
    {
        self.push_range(MemRange { base, size, backing: MemRangeImpl::Mappable(bytes, prot) });
        Ok(())
    }

    /// Adds `size` bytes of zeroed, host-backed memory at `base` with the
    /// protection `prot`, and hands each child a copy of the new range.
    /// Fails with `MemAllocation`, changing nothing, when the size does not
    /// fit the host's address space or the host cannot provide the memory.
    pub fn add_mappable_range(&mut self, base: u64, size: u64, prot: MemProt) -> (r: Result<
        (),
        Error,
    >)
        requires
            old(self).wf(),
        ensures
            final(self).wf(),
            size > usize::MAX ==> r == Err::<(), Error>(Error::MemAllocation),
            r is Ok ==> {
                &&& final(self).appended(old(self))
                &&& final(self)@.last().base == base
                &&& final(self)@.last().size == size
                &&& host_bytes(final(self)@.last()) == Seq::new(size as nat, |k: int| 0u8)
                &&& final(self)@.last().backing is Mappable
                &&& host_prot(final(self)@.last()) == prot
            },
            r is Err ==> r == Err::<(), Error>(Error::MemAllocation) && *final(self) == *old(self),
    {
        let bytes = match zeroed(size) {
            Ok(bytes) => bytes,
            Err(e) => {
                return Err(e);
            },
        };
        self.add_host_range(base, size, prot, bytes)
    }

    /// Adds the peripheral `slave` at `[base, base + size)` and hands each
    /// child a clone of its handle.
    pub fn add_bus_slave(&mut self, base: u64, size: u64, slave: S) -> (r: Result<(), Error>)
        requires
            old(self).wf(),
        ensures
            r is Ok,
            final(self).wf(),
            final(self).appended(old(self)),
            final(self)@.last() == (MemRange { base, size, backing: MemRangeImpl::Mmio(slave) }),
    {
        self.push_range(MemRange { base, size, backing: MemRangeImpl::Mmio(slave) });
        Ok(())
    }

    /// Applies an event received from a parent matrix.
    pub fn apply_update_op(&mut self, op: BusMatrixUpdateOp<S>)
        requires
            old(self).wf(),
            op.added().wf(),
        ensures
            final(self).wf(),
            final(self)@ == old(self)@.push(op.added()),
            final(self).pending() == old(self).pending(),
    {
        let ghost before = self.pending();
        let ghost added = op.added();
        match op {
            BusMatrixUpdateOp::Add(range) => {
                self.ranges.push(range);
            },
        }
        assert(self.pending() =~= before);
        assert forall|i: int| 0 <= i < self@.len() implies (#[trigger] self@[i]).wf() by {
            if i < old(self)@.len() {
                assert(old(self)@[i].wf());
            }
        }
    }

    /// Installs a new child and queues, in order, a copy of every range
    /// present for it; returns the child's index.
    pub fn add_child_matrix(&mut self) -> (child: usize)
        requires
            old(self).wf(),
        ensures
            final(self).wf(),
            child == old(self).pending().len(),
            final(self)@ == old(self)@,
            final(self).pending().len() == old(self).pending().len() + 1,
            final(self).pending().subrange(0, child as int) == old(self).pending(),
            final(self).pending()[child as int].len() == old(self)@.len(),
            forall|k: int|
                0 <= k < old(self)@.len() ==> replica(
                    old(self)@[k],
                    #[trigger] final(self).pending()[child as int][k].added(),
                ),
    {
        let mut events: Vec<BusMatrixUpdateOp<S>> = Vec::new();
        let mut k: usize = 0;
        while k < self.ranges.len()
            invariant
                self.wf(),
                k <= self@.len(),
                events@.len() == k,
                forall|j: int| 0 <= j < k ==> replica(self@[j], #[trigger] events@[j].added()),
                forall|j: int| 0 <= j < k ==> (#[trigger] events@[j]).added().wf(),
            decreases self@.len() - k,
        {
            assert(self@[k as int].wf());
            events.push(BusMatrixUpdateOp::Add(replicate(&self.ranges[k])));
            k = k + 1;
        }
        let child = self.children.len();
        let ghost before = self.pending();
        self.children.push(events);
        proof {
            assert(self.pending() =~= before.push(events@));
            assert(self.pending().subrange(0, child as int) =~= before);
        }
        child
    }

    /// Hands over, in order, the events queued for `child` and empties its
    /// queue.
    pub fn take_updates(&mut self, child: usize) -> (r: Vec<BusMatrixUpdateOp<S>>)
        requires
            old(self).wf(),
            child < old(self).pending().len(),
        ensures
            final(self).wf(),
            r@ == old(self).pending()[child as int],
            final(self)@ == old(self)@,
            final(self).pending() == old(self).pending().update(child as int, Seq::empty()),
    {
        let ghost before = self.pending();
        let mut r: Vec<BusMatrixUpdateOp<S>> = Vec::new();
        std::mem::swap(&mut r, &mut self.children[child]);
        assert(self.pending() =~= before.update(child as int, Seq::empty()));
        assert forall|c: int, k: int|
            0 <= c < self.pending().len() && 0 <= k < self.pending()[c].len() implies (
            #[trigger] self.pending()[c][k]).added().wf() by {
            assert(before[c][k].added().wf());
        }
        assert(self@ == old(self)@);
        assert forall|i: int| 0 <= i < self@.len() implies (#[trigger] self@[i]).wf() by {
            assert(old(self)@[i].wf());
        }
        r
    }

    /// The index of the first host-backed range holding all of
    /// `[base, base + len)`, or `UnableToFindRange` when none does.
    pub fn find_range(&self, base: u64, len: usize) -> (r: Result<usize, Error>)
        ensures
            match r {
                Ok(i) => first_host_cover(self@, base as int, len as int, i as int),
                Err(e) => e == Error::UnableToFindRange(base, len) && no_host_cover(
                    self@,
                    base as int,
                    len as int,
                ),
            },
    {
        let n = len as u64;
        let mut i: usize = 0;
        while i < self.ranges.len()
            invariant
                i <= self@.len(),
                n == len,
                forall|j: int|
                    0 <= j < i ==> !((#[trigger] self@[j]).backing is Mappable && self@[j].covers(
                        base as int,
                        len as int,
                    )),
            decreases self@.len() - i,
        {
            let r = &self.ranges[i];
            if let MemRangeImpl::Mappable(_, _) = &r.backing {
                if r.base <= base && base - r.base <= r.size && n <= r.size - (base - r.base) {
                    return Ok(i);
                }
            }
            i = i + 1;
        }
        Err(Error::UnableToFindRange(base, len))
    }

    /// A copy of the host bytes at `[base, base + len)`, taken from the
    /// first host-backed range that holds them all; protection bits are not
    /// consulted.
    pub fn copy_range(&self, base: u64, len: usize) -> (r: Result<Vec<u8>, Error>)
        requires
            self.wf(),
        ensures
            match r {
                Ok(v) => !no_host_cover(self@, base as int, len as int) && v@.len() == len
                    && v@ == host_span(
                    self@,
                    base as int,
                    len as int,
                ),
                Err(e) => e == Error::UnableToFindRange(base, len) && no_host_cover(
                    self@,
                    base as int,
                    len as int,
                ),
            },
    {
        let i = match self.find_range(base, len) {
            Ok(i) => i,
            Err(e) => {
                return Err(e);
            },
        };
        assert(self@[i as int].wf());
        let mut out: Vec<u8> = Vec::new();
        if let MemRangeImpl::Mappable(bytes, _) = &self.ranges[i].backing {
            let total = bytes.len();
            assert(base - self.ranges[i as int].base + len <= total);
            let off = (base - self.ranges[i].base) as usize;
            let mut j: usize = 0;
            while j < len
                invariant
                    j <= len,
                    total == bytes@.len(),
                    off + len <= bytes@.len(),
                    out@ == bytes@.subrange(off as int, off + j),
                decreases len - j,
            {
                out.push(bytes[off + j]);
                j = j + 1;
                assert(out@ =~= bytes@.subrange(off as int, off + j));
            }
        }
        proof {
            assert(first_host_cover(self@, base as int, len as int, i as int));
            let c = choose|c: int| first_host_cover(self@, base as int, len as int, c);
            lemma_first_host_cover_unique(self@, base as int, len as int, i as int, c);
        }
        Ok(out)
    }

    /// Copies `incoming` into the host memory at `base`, inside the first
    /// host-backed range that holds all of it; never across ranges.
    pub fn set_range(&mut self, incoming: &[u8], base: u64) -> (r: Result<(), Error>)
        requires
            old(self).wf(),
        ensures
            final(self).wf(),
            same_layout(old(self)@, final(self)@),
            match r {
                Ok(()) => bytes_set(old(self)@, final(self)@, base as int, incoming@)
                    && final(self).pending() == old(self).pending(),
                Err(e) => e == Error::UnableToFindRange(base, incoming@.len() as usize)
                    && no_host_cover(old(self)@, base as int, incoming@.len() as int)
                    && *final(self) == *old(self),
            },
    {
        let len = incoming.len();
        let i = match self.find_range(base, len) {
            Ok(i) => i,
            Err(e) => {
                return Err(e);
            },
        };
        assert(self@[i as int].wf());
        let rbase = self.ranges[i].base;
        let ghost old_bytes = host_bytes(self@[i as int]);
        let range = &mut self.ranges[i];
        match &mut range.backing {
            MemRangeImpl::Mappable(bytes, _) => {
                let total = bytes.len();
                assert(base - rbase + len <= total);
                let off = (base - rbase) as usize;
                let mut j: usize = 0;
                while j < len
                    invariant
                        j <= len,
                        len == incoming@.len(),
                        off + len <= old_bytes.len(),
                        total == old_bytes.len(),
                        bytes@.len() == old_bytes.len(),
                        forall|t: int|
                            0 <= t < bytes@.len() ==> #[trigger] bytes@[t] == if off <= t < off
                                + j {
                                incoming@[t - off]
                            } else {
                                old_bytes[t]
                            },
                    decreases len - j,
                {
                    bytes.set(off + j, incoming[j]);
                    j = j + 1;
                }
                assert(bytes@ =~= splice(old_bytes, off as int, incoming@));
            },
            MemRangeImpl::Mmio(_) => {},
        }
        assert(stored(old(self)@[i as int], self@[i as int], splice(old_bytes, base - old(self)@[i as int].base, incoming@)));
        Ok(())
    }
}

/// No two ranges share an address.
pub open spec fn disjoint<S>(ranges: Seq<MemRange<S>>) -> bool {
    forall|i: int, j: int|
        0 <= i < j < ranges.len() ==> #[trigger] ranges[i].base + ranges[i].size <= #[trigger] ranges[j].base
            || ranges[j].base + ranges[j].size <= ranges[i].base
}

/// Among ranges that share no address, the one that holds an access is the
/// one that serves it.
pub proof fn lemma_only_cover<S>(ranges: Seq<MemRange<S>>, a: int, n: int, i: int)
    requires
        disjoint(ranges),
        0 <= i < ranges.len(),
        ranges[i].covers(a, n),
        n >= 1,
    ensures
        first_cover(ranges, a, n, i),
{
    assert forall|j: int| 0 <= j < i implies !(#[trigger] ranges[j]).covers(a, n) by {
        if ranges[j].covers(a, n) {
            assert(ranges[j].base + ranges[j].size <= ranges[i].base || ranges[i].base + ranges[i].size
                <= ranges[j].base);
        }
    }
}

impl<S: BusSlave> BusMatrix<S> {
    /// On ranges that share no address, any read held by host memory
    /// without the read bit is a bus error and changes nothing.
    pub proof fn lemma_read_protected(m: Self, a: u64, i: int)
        requires
            disjoint(m@),
            0 <= i < m@.len(),
            m@[i].backing is Mappable,
            !readable(host_prot(m@[i])),
        ensures
        m@[i].covers(a as int, 1) ==> forall|new: Self, r: ReadResult<u8>|
            #[trigger] Self::read_u8_done(m, new, a, r) ==> r == ReadResult::<u8>::BusError && new == m,
        m@[i].covers(a as int, 2) ==> forall|new: Self, r: ReadResult<u16>|
            #[trigger] Self::read_u16_done(m, new, a, r) ==> r == ReadResult::<u16>::BusError && new == m,
        m@[i].covers(a as int, 4) ==> forall|new: Self, r: ReadResult<u32>|
            #[trigger] Self::read_u32_done(m, new, a, r) ==> r == ReadResult::<u32>::BusError && new == m,
        m@[i].covers(a as int, 8) ==> forall|new: Self, r: ReadResult<u64>|
            #[trigger] Self::read_u64_done(m, new, a, r) ==> r == ReadResult::<u64>::BusError && new == m,
    {
    if m@[i].covers(a as int, 1) {
        lemma_only_cover(m@, a as int, 1, i);
    }
    if m@[i].covers(a as int, 2) {
        lemma_only_cover(m@, a as int, 2, i);
    }
    if m@[i].covers(a as int, 4) {
        lemma_only_cover(m@, a as int, 4, i);
    }
    if m@[i].covers(a as int, 8) {
        lemma_only_cover(m@, a as int, 8, i);
    }
    }

    /// On ranges that share no address, any write held by host memory
    /// without the write bit is a bus error and changes nothing.
    pub proof fn lemma_write_protected(m: Self, a: u64, i: int)
        requires
            disjoint(m@),
            0 <= i < m@.len(),
            m@[i].backing is Mappable,
            !writable(host_prot(m@[i])),
        ensures
        m@[i].covers(a as int, 1) ==> forall|new: Self, d: u8, r: WriteResult|
            #[trigger] Self::write_u8_done(m, new, a, d, r) ==> r == WriteResult::BusError && new == m,
        m@[i].covers(a as int, 2) ==> forall|new: Self, d: u16, r: WriteResult|
            #[trigger] Self::write_u16_done(m, new, a, d, r) ==> r == WriteResult::BusError && new == m,
        m@[i].covers(a as int, 4) ==> forall|new: Self, d: u32, r: WriteResult|
            #[trigger] Self::write_u32_done(m, new, a, d, r) ==> r == WriteResult::BusError && new == m,
        m@[i].covers(a as int, 8) ==> forall|new: Self, d: u64, r: WriteResult|
            #[trigger] Self::write_u64_done(m, new, a, d, r) ==> r == WriteResult::BusError && new == m,
    {
    if m@[i].covers(a as int, 1) {
        lemma_only_cover(m@, a as int, 1, i);
    }
    if m@[i].covers(a as int, 2) {
        lemma_only_cover(m@, a as int, 2, i);
    }
    if m@[i].covers(a as int, 4) {
        lemma_only_cover(m@, a as int, 4, i);
    }
    if m@[i].covers(a as int, 8) {
        lemma_only_cover(m@, a as int, 8, i);
    }
    }
}

/// A matrix is itself a peripheral: a bus domain mapped into another. One
/// whose host memory does not match its ranges answers `BusError`.
impl<S: BusSlave> BusSlave for BusMatrix<S> {
    open spec fn served(&self, new: Self, access: Access, answer: Answer) -> bool {
        if !self.wf() {
            new == *self && match answer {
                Answer::Written(r) => r == WriteResult::BusError,
                Answer::Byte(r) => r == ReadResult::<u8>::BusError,
                Answer::Half(r) => r == ReadResult::<u16>::BusError,
                Answer::Word(r) => r == ReadResult::<u32>::BusError,
                Answer::Double(r) => r == ReadResult::<u64>::BusError,
            }
        } else {
            match (access, answer) {
                (Access::ReadU8(a), Answer::Byte(r)) => Self::read_u8_done(*self, new, a, r),
                (Access::ReadU16(a), Answer::Half(r)) => Self::read_u16_done(*self, new, a, r),
                (Access::ReadU32(a), Answer::Word(r)) => Self::read_u32_done(*self, new, a, r),
                (Access::ReadU64(a), Answer::Double(r)) => Self::read_u64_done(*self, new, a, r),
                (Access::WriteU8(a, d), Answer::Written(r)) => Self::write_u8_done(*self, new, a, d, r),
                (Access::WriteU16(a, d), Answer::Written(r)) => Self::write_u16_done(*self, new, a, d, r),
                (Access::WriteU32(a, d), Answer::Written(r)) => Self::write_u32_done(*self, new, a, d, r),
                (Access::WriteU64(a, d), Answer::Written(r)) => Self::write_u64_done(*self, new, a, d, r),
                _ => false,
            }
        }
    }

    fn read_u8(&mut self, addr: u64) -> (r: ReadResult<u8>) {
        if !self.check_wf() {
            return ReadResult::BusError;
        }
        BusMatrix::read_u8(self, addr)
    }

    fn read_u16(&mut self, addr: u64) -> (r: ReadResult<u16>) {
        if !self.check_wf() {
            return ReadResult::BusError;
        }
        BusMatrix::read_u16(self, addr)
    }

    fn read_u32(&mut self, addr: u64) -> (r: ReadResult<u32>) {
        if !self.check_wf() {
            return ReadResult::BusError;
        }
        BusMatrix::read_u32(self, addr)
    }

    fn read_u64(&mut self, addr: u64) -> (r: ReadResult<u64>) {
        if !self.check_wf() {
            return ReadResult::BusError;
        }
        BusMatrix::read_u64(self, addr)
    }

    fn write_u8(&mut self, addr: u64, data: u8) -> (r: WriteResult) {
        if !self.check_wf() {
            return WriteResult::BusError;
        }
        BusMatrix::write_u8(self, addr, data)
    }

    fn write_u16(&mut self, addr: u64, data: u16) -> (r: WriteResult) {
        if !self.check_wf() {
            return WriteResult::BusError;
        }
        BusMatrix::write_u16(self, addr, data)
    }

    fn write_u32(&mut self, addr: u64, data: u32) -> (r: WriteResult) {
        if !self.check_wf() {
            return WriteResult::BusError;
        }
        BusMatrix::write_u32(self, addr, data)
    }

    fn write_u64(&mut self, addr: u64, data: u64) -> (r: WriteResult) {
        if !self.check_wf() {
            return WriteResult::BusError;
        }
        BusMatrix::write_u64(self, addr, data)
    }
}

impl<S: BusSlave + Clone> Default for BusMatrix<S> {
    fn default() -> (r: BusMatrix<S>)
        ensures
            r.wf(),
            r@ == Seq::<MemRange<S>>::empty(),
            r.pending() == Seq::<Seq<BusMatrixUpdateOp<S>>>::empty(),
    {
        BusMatrix::new()
    }
}

/// A child installed on `m0` (giving `m1`) has, once `m1` gained one more
/// range (giving `m2`), been handed a copy of every range of `m2`, in the
/// order the ranges were added.
pub proof fn lemma_child_follows_parent<S: BusSlave + Clone>(
    m0: BusMatrix<S>,
    m1: BusMatrix<S>,
    m2: BusMatrix<S>,
    child: int,
)
    requires
        child == m0.pending().len(),
        m1@ == m0@,
        m1.pending().len() == m0.pending().len() + 1,
        m1.pending()[child].len() == m0@.len(),
        forall|k: int| 0 <= k < m0@.len() ==> replica(m0@[k], #[trigger] m1.pending()[child][k].added()),
        m2.appended(&m1),
    ensures
        m2.pending()[child].len() == m2@.len(),
        forall|k: int| 0 <= k < m2@.len() ==> replica(m2@[k], #[trigger] m2.pending()[child][k].added()),
{
    assert forall|k: int| 0 <= k < m2@.len() implies replica(m2@[k], #[trigger] m2.pending()[child][k].added()) by {
        if k < m1@.len() {
            assert(m2@[k] == m2@.subrange(0, m1@.len() as int)[k]);
            assert(m2.pending()[child][k] == m2.pending()[child].subrange(0, m1.pending()[child].len() as int)[k]);
        }
    }
}

} // verus!
