//! The disk manager: page-to-offset mapping, free-slot reuse, capacity
//! growth, page and log I/O, and statistics.
//!
//! The manager is verified against an in-memory model of its two backing
//! files. [`MetaModel`] is the abstract state of the metadata (the page
//! table, the free list, the counters); [`DiskModel`] adds the modeled
//! contents of the data file and of the append-only log. Every operation's
//! contract says which transition of the model it performs, and the laws at
//! the end of this file state the headline guarantees: offsets stay
//! disjoint, aligned and in bounds; a read returns the bytes last written;
//! a freed slot is the next one reused; log reads return what was appended.
//!
//! The shell that owns real file handles performs the same metadata
//! transitions through the public [`Metadata`] operations and mirrors each
//! one onto the filesystem; the decisions themselves are all verified here.

use vstd::prelude::*;

use std::collections::HashMap;

use crate::config::{PageId, DEFAULT_DB_IO_SIZE, DOCKBASE_PAGE_SIZE};
use crate::exception::Exception;

verus! {

broadcast use vstd::std_specs::hash::group_hash_axioms;

/// Saturating increment of a statistics counter: counters never decrease
/// and never overflow.
pub open spec fn inc32(x: i32) -> i32 {
    if x == i32::MAX {
        x
    } else {
        (x + 1) as i32
    }
}

/// Abstract state of the disk manager's metadata.
#[verifier::ext_equal]
pub struct MetaModel {
    /// Page identifier to byte offset of its slot in the data file.
    pub pages: Map<PageId, usize>,
    /// Offsets of deleted slots, reusable in LIFO order.
    pub free_slots: Seq<usize>,
    /// Number of distinct slots ever allocated, freed ones included.
    pub page_count: usize,
    /// High-water capacity of the data file, in pages.
    pub page_capacity: usize,
    /// Number of completed log flushes.
    pub num_flushes: i32,
    /// Number of completed page writes.
    pub num_writes: i32,
    /// Number of page deletions that removed a mapping.
    pub num_deletes: i32,
    /// Whether a log flush is currently in progress.
    pub flush_log: bool,
}

impl MetaModel {
    /// The metadata of a freshly created disk manager.
    pub open spec fn initial() -> MetaModel {
        MetaModel {
            pages: Map::empty(),
            free_slots: Seq::empty(),
            page_count: 0,
            page_capacity: DEFAULT_DB_IO_SIZE,
            num_flushes: 0,
            num_writes: 0,
            num_deletes: 0,
            flush_log: false,
        }
    }

    /// `offset` is the byte offset of an allocated slot: aligned to the
    /// page size and strictly below the allocation high-water mark.
    pub open spec fn valid_offset(&self, offset: usize) -> bool {
        &&& offset % DOCKBASE_PAGE_SIZE == 0
        &&& offset < self.page_count * DOCKBASE_PAGE_SIZE
    }

    /// The metadata invariant: counters are non-negative, the capacity
    /// bounds the allocation count and fits in memory when scaled to
    /// bytes, every mapped offset and every free slot is a valid slot
    /// offset, no two pages share an offset, the free list holds no
    /// duplicates, and the free list is disjoint from the mapped offsets.
    pub open spec fn wf(&self) -> bool {
        &&& 0 <= self.num_flushes
        &&& 0 <= self.num_writes
        &&& 0 <= self.num_deletes
        &&& 1 <= self.page_capacity
        &&& self.page_count <= self.page_capacity
        &&& self.page_capacity * DOCKBASE_PAGE_SIZE <= usize::MAX
        &&& forall|p: PageId| #[trigger]
            self.pages.contains_key(p) ==> self.valid_offset(self.pages[p])
        &&& forall|p: PageId, q: PageId| #![auto]
            self.pages.contains_key(p) && self.pages.contains_key(q) && p != q
                ==> self.pages[p] != self.pages[q]
        &&& forall|i: int|
            0 <= i < self.free_slots.len() ==> self.valid_offset(
                #[trigger] self.free_slots[i],
            )
        &&& forall|i: int, j: int| #![auto]
            0 <= i < j < self.free_slots.len() ==> self.free_slots[i] != self.free_slots[j]
        &&& forall|p: PageId, i: int| #![auto]
            self.pages.contains_key(p) && 0 <= i < self.free_slots.len() ==> self.pages[p]
                != self.free_slots[i]
    }

    /// The data file can double its capacity without the byte length
    /// overflowing the address space.
    pub open spec fn can_grow(&self) -> bool {
        2 * self.page_capacity * DOCKBASE_PAGE_SIZE <= usize::MAX
    }

    /// Allocation hands out a slot: always when one is free or the file
    /// has room, and otherwise exactly when doubling is still possible.
    pub open spec fn alloc_succeeds(&self) -> bool {
        ||| self.free_slots.len() > 0
        ||| self.page_count < self.page_capacity
        ||| self.can_grow()
    }

    /// The allocation transition: pop the most recently freed slot if one
    /// exists, otherwise take the next fresh slot, doubling the capacity
    /// when the fresh slot exceeds it. Returns the new metadata and the
    /// allocated offset.
    pub open spec fn alloc_tr(self) -> (MetaModel, usize) {
        if self.free_slots.len() > 0 {
            (
                MetaModel { free_slots: self.free_slots.drop_last(), ..self },
                self.free_slots.last(),
            )
        } else {
            let offset = (self.page_count * DOCKBASE_PAGE_SIZE) as usize;
            let counted = MetaModel { page_count: (self.page_count + 1) as usize, ..self };
            if self.page_count + 1 > self.page_capacity {
                (
                    MetaModel { page_capacity: (2 * self.page_capacity) as usize, ..counted },
                    offset,
                )
            } else {
                (counted, offset)
            }
        }
    }

    /// Offset resolution for a page write: the existing mapping if there
    /// is one, otherwise a fresh allocation. The boolean records whether
    /// the offset is provisional (allocated but not yet mapped).
    pub open spec fn resolve_tr(self, pid: PageId) -> (MetaModel, usize, bool) {
        if self.pages.contains_key(pid) {
            (self, self.pages[pid], false)
        } else {
            let (m, offset) = self.alloc_tr();
            (m, offset, true)
        }
    }

    /// `offset` may become the mapping of `pid` without breaking the
    /// invariant: it is an allocated slot that no other page and no free
    /// slot holds.
    pub open spec fn writable_at(&self, pid: PageId, offset: usize) -> bool {
        &&& self.valid_offset(offset)
        &&& forall|q: PageId| #[trigger]
            self.pages.contains_key(q) && q != pid ==> self.pages[q] != offset
        &&& forall|i: int| 0 <= i < self.free_slots.len() ==> #[trigger] self.free_slots[i] != offset
    }

    /// The bookkeeping transition after a successful page write: map the
    /// page to its offset and count the write.
    pub open spec fn record_write_tr(self, pid: PageId, offset: usize) -> MetaModel {
        MetaModel {
            pages: self.pages.insert(pid, offset),
            num_writes: inc32(self.num_writes),
            ..self
        }
    }

    /// The rollback transition: return a provisionally allocated offset
    /// to the free list.
    pub open spec fn rollback_tr(self, offset: usize) -> MetaModel {
        MetaModel { free_slots: self.free_slots.push(offset), ..self }
    }

    /// The deletion transition: drop the mapping if present, free its
    /// offset, and count the deletion; otherwise change nothing.
    pub open spec fn delete_tr(self, pid: PageId) -> MetaModel {
        if self.pages.contains_key(pid) {
            MetaModel {
                pages: self.pages.remove(pid),
                free_slots: self.free_slots.push(self.pages[pid]),
                num_deletes: inc32(self.num_deletes),
                ..self
            }
        } else {
            self
        }
    }
}

/// Exact offset arithmetic for aligned offsets: dividing an aligned offset
/// by the page size gives its slot index, below the allocation count, and
/// multiplying back recovers the offset.
pub proof fn lemma_offset_slot(offset: usize, count: usize)
    requires
        offset % DOCKBASE_PAGE_SIZE == 0,
        offset < count * DOCKBASE_PAGE_SIZE,
    ensures
        offset / DOCKBASE_PAGE_SIZE < count,
        (offset / DOCKBASE_PAGE_SIZE) * DOCKBASE_PAGE_SIZE == offset,
{
    assert((offset / DOCKBASE_PAGE_SIZE) * DOCKBASE_PAGE_SIZE == offset) by (nonlinear_arith)
        requires
            offset % DOCKBASE_PAGE_SIZE == 0,
    ;
    assert(offset / DOCKBASE_PAGE_SIZE < count) by (nonlinear_arith)
        requires
            (offset / DOCKBASE_PAGE_SIZE) * DOCKBASE_PAGE_SIZE == offset,
            offset < count * DOCKBASE_PAGE_SIZE,
    ;
}

/// The exec-side metadata of the disk manager, viewed as a [`MetaModel`].
pub struct Metadata {
    pub pages: HashMap<PageId, usize>,
    pub free_slots: Vec<usize>,
    pub page_count: usize,
    pub page_capacity: usize,
    pub num_flushes: i32,
    pub num_writes: i32,
    pub num_deletes: i32,
    pub flush_log: bool,
}

impl View for Metadata {
    type V = MetaModel;

    open spec fn view(&self) -> MetaModel {
        MetaModel {
            pages: self.pages@,
            free_slots: self.free_slots@,
            page_count: self.page_count,
            page_capacity: self.page_capacity,
            num_flushes: self.num_flushes,
            num_writes: self.num_writes,
            num_deletes: self.num_deletes,
            flush_log: self.flush_log,
        }
    }
}

impl Metadata {
    /// The invariant of the metadata, stated on its model.
    pub open spec fn wf(&self) -> bool {
        self@.wf()
    }

    /// Creates the metadata of a fresh disk manager.
    pub fn new() -> (m: Metadata)
        ensures
            m@ == MetaModel::initial(),
            m.wf(),
    {
        let m = Metadata {
            pages: HashMap::new(),
            free_slots: Vec::new(),
            page_count: 0,
            page_capacity: DEFAULT_DB_IO_SIZE,
            num_flushes: 0,
            num_writes: 0,
            num_deletes: 0,
            flush_log: false,
        };
        proof {
            assert(m@ =~= MetaModel::initial());
        }
        m
    }

    /// Allocates a slot offset: the most recently freed slot if any,
    /// otherwise the next fresh slot, doubling the capacity when needed.
    /// Fails only when doubling would overflow the file's byte length.
    pub fn allocate_page(&mut self) -> (r: Result<usize, Exception>)
        requires
            old(self).wf(),
        ensures
            final(self).wf(),
            old(self)@.alloc_succeeds() ==> r == Ok::<usize, Exception>(old(self)@.alloc_tr().1)
                && final(self)@ == old(self)@.alloc_tr().0,
            !old(self)@.alloc_succeeds() ==> (r matches Err(e) && e is OutOfMemory)
                && final(self)@ == old(self)@,
    {
        if self.free_slots.len() > 0 {
            let offset = self.free_slots.pop().unwrap();
            proof {
                assert(final(self)@ =~= old(self)@.alloc_tr().0);
            }
            return Ok(offset);
        }
        if self.page_count == self.page_capacity && self.page_capacity > usize::MAX / (2
            * DOCKBASE_PAGE_SIZE) {
            proof {
                assert(!old(self)@.alloc_succeeds());
            }
            return Err(Exception::OutOfMemory("Data file capacity overflow"));
        }
        let offset = self.page_count * DOCKBASE_PAGE_SIZE;
        self.page_count = self.page_count + 1;
        if self.page_count > self.page_capacity {
            self.page_capacity = 2 * self.page_capacity;
        }
        proof {
            assert(final(self)@ =~= old(self)@.alloc_tr().0);
        }
        Ok(offset)
    }

    /// Resolves the target offset of a page write: the existing mapping
    /// or a fresh allocation, with `true` marking a provisional offset.
    pub fn resolve_write_offset(&mut self, page_id: PageId) -> (r: Result<
        (usize, bool),
        Exception,
    >)
        requires
            old(self).wf(),
        ensures
            final(self).wf(),
            old(self)@.pages.contains_key(page_id) || old(self)@.alloc_succeeds() ==> ({
                let (m, offset, provisional) = old(self)@.resolve_tr(page_id);
                r == Ok::<(usize, bool), Exception>((offset, provisional)) && final(self)@ == m
            }),
            !(old(self)@.pages.contains_key(page_id) || old(self)@.alloc_succeeds()) ==> (
            r matches Err(e) && e is OutOfMemory) && final(self)@ == old(self)@,
            final(self)@.writable_at(page_id, old(self)@.resolve_tr(page_id).1) || !(old(
                self,
            )@.pages.contains_key(page_id) || old(self)@.alloc_succeeds()),
    {
        match self.pages.get(&page_id) {
            Some(offset_ref) => {
                let offset = *offset_ref;
                Ok((offset, false))
            },
            None => {
                match self.allocate_page() {
                    Ok(offset) => Ok((offset, true)),
                    Err(e) => Err(e),
                }
            },
        }
    }

    /// Maps `page_id` to `offset` and counts the write; the bookkeeping
    /// step that commits a successful page write.
    pub fn record_write(&mut self, page_id: PageId, offset: usize)
        requires
            old(self).wf(),
            old(self)@.writable_at(page_id, offset),
        ensures
            final(self).wf(),
            final(self)@ == old(self)@.record_write_tr(page_id, offset),
    {
        self.pages.insert(page_id, offset);
        if self.num_writes < i32::MAX {
            self.num_writes = self.num_writes + 1;
        }
        proof {
            assert(final(self)@ =~= old(self)@.record_write_tr(page_id, offset));
        }
    }

    /// Removes the mapping of `page_id` if present, returning its offset
    /// to the free list and counting the deletion. Idempotent.
    pub fn delete_page(&mut self, page_id: PageId) -> (r: Result<(), Exception>)
        requires
            old(self).wf(),
        ensures
            final(self).wf(),
            r.is_ok(),
            final(self)@ == old(self)@.delete_tr(page_id),
            final(self)@.num_deletes >= old(self)@.num_deletes,
    {
        match self.pages.remove(&page_id) {
            Some(offset) => {
                self.free_slots.push(offset);
                if self.num_deletes < i32::MAX {
                    self.num_deletes = self.num_deletes + 1;
                }
                proof {
                    assert(final(self)@ =~= old(self)@.delete_tr(page_id));
                }
            },
            None => {
                proof {
                    assert(final(self)@ =~= old(self)@.delete_tr(page_id));
                }
            },
        }
        Ok(())
    }

    /// Marks a log flush as in progress.
    pub fn begin_log_flush(&mut self)
        requires
            old(self).wf(),
        ensures
            final(self).wf(),
            final(self)@ == (MetaModel { flush_log: true, ..old(self)@ }),
    {
        self.flush_log = true;
        proof {
            assert(final(self)@ =~= (MetaModel { flush_log: true, ..old(self)@ }));
        }
    }

    /// Marks a log flush as completed and counts it.
    pub fn finish_log_flush(&mut self)
        requires
            old(self).wf(),
        ensures
            final(self).wf(),
            final(self)@ == (MetaModel {
                flush_log: false,
                num_flushes: inc32(old(self)@.num_flushes),
                ..old(self)@
            }),
    {
        if self.num_flushes < i32::MAX {
            self.num_flushes = self.num_flushes + 1;
        }
        self.flush_log = false;
        proof {
            assert(final(self)@ =~= (MetaModel {
                flush_log: false,
                num_flushes: inc32(old(self)@.num_flushes),
                ..old(self)@
            }));
        }
    }
}

/// Rollback guard for a provisional allocation: if a write obtained a
/// fresh offset and did not complete, releasing the guard returns the
/// offset to the free list; committing first cancels the rollback.
pub struct AllocationGuard {
    pub offset: usize,
    pub is_new: bool,
    pub active: bool,
}

impl AllocationGuard {
    /// Creates an armed guard for `offset`; `is_new` records whether the
    /// offset is provisional.
    pub fn new(offset: usize, is_new: bool) -> (g: AllocationGuard)
        ensures
            g.offset == offset,
            g.is_new == is_new,
            g.active,
    {
        AllocationGuard { offset, is_new, active: true }
    }

    /// Disarms the guard: the write completed, so no rollback happens.
    pub fn commit(&mut self)
        ensures
            *final(self) == (AllocationGuard { active: false, ..*old(self) }),
    {
        self.active = false;
    }

    /// Releases the guard: an armed guard over a provisional offset pushes
    /// it back onto the free list; otherwise the metadata is unchanged.
    pub fn release(self, metadata: &mut Metadata)
        requires
            old(metadata).wf(),
            self.active && self.is_new ==> old(metadata)@.writable_at_nothing(self.offset),
        ensures
            final(metadata).wf(),
            self.active && self.is_new ==> final(metadata)@ == old(metadata)@.rollback_tr(
                self.offset,
            ),
            !(self.active && self.is_new) ==> final(metadata)@ == old(metadata)@,
    {
        if self.active && self.is_new {
            metadata.free_slots.push(self.offset);
            proof {
                assert(final(metadata)@ =~= old(metadata)@.rollback_tr(self.offset));
            }
        }
    }
}

impl MetaModel {
    /// `offset` is an allocated slot that neither the page table nor the
    /// free list holds: the condition under which it may be freed.
    pub open spec fn writable_at_nothing(&self, offset: usize) -> bool {
        &&& self.valid_offset(offset)
        &&& forall|q: PageId| #[trigger] self.pages.contains_key(q) ==> self.pages[q] != offset
        &&& forall|i: int| 0 <= i < self.free_slots.len() ==> #[trigger] self.free_slots[i] != offset
    }
}

/// A page-sized view of a slot's content: the stored bytes, zero-padded
/// up to the page size. A slot that was never written reads as zeroes.
pub open spec fn pad_page(content: Seq<u8>) -> Seq<u8> {
    Seq::new(
        DOCKBASE_PAGE_SIZE as nat,
        |i: int| if i < content.len() { content[i] } else { 0u8 },
    )
}

/// Abstract state of the whole disk manager: the metadata together with
/// the modeled contents of the data file and of the append-only log.
#[verifier::ext_equal]
pub struct DiskModel {
    /// The metadata state.
    pub meta: MetaModel,
    /// Content of each allocated slot of the data file, in slot order.
    /// A slot holds either nothing (never written, reads as zeroes) or
    /// exactly one page of bytes.
    pub file: Seq<Seq<u8>>,
    /// Byte length of the data file.
    pub file_len: usize,
    /// Bytes of the append-only log file.
    pub log: Seq<u8>,
}

impl DiskModel {
    /// The state of a freshly created disk manager: empty mapping, no
    /// slots, the data file pre-extended past the default capacity, and
    /// an empty log.
    pub open spec fn initial() -> DiskModel {
        DiskModel {
            meta: MetaModel::initial(),
            file: Seq::empty(),
            file_len: ((DEFAULT_DB_IO_SIZE + 1) * DOCKBASE_PAGE_SIZE) as usize,
            log: Seq::empty(),
        }
    }

    /// The disk manager invariant: the metadata invariant, one modeled
    /// slot per allocated slot, every slot either empty or page-sized,
    /// and a data file at least as long as its capacity in bytes.
    pub open spec fn wf(&self) -> bool {
        &&& self.meta.wf()
        &&& self.file.len() == self.meta.page_count
        &&& forall|i: int|
            0 <= i < self.file.len() ==> (#[trigger] self.file[i]).len() == 0 || self.file[i].len()
                == DOCKBASE_PAGE_SIZE
        &&& self.meta.page_capacity * DOCKBASE_PAGE_SIZE <= self.file_len
    }

    /// Slot index of a mapped page.
    pub open spec fn slot_of(&self, pid: PageId) -> int {
        self.meta.pages[pid] as int / DOCKBASE_PAGE_SIZE as int
    }

    /// The page-sized content a read of `pid` returns.
    pub open spec fn page_content(&self, pid: PageId) -> Seq<u8> {
        pad_page(self.file[self.slot_of(pid)])
    }

    /// A write to `pid` succeeds: the page is mapped already, or a slot
    /// can be allocated for it.
    pub open spec fn write_succeeds(&self, pid: PageId) -> bool {
        self.meta.pages.contains_key(pid) || self.meta.alloc_succeeds()
    }

    /// The page-write transition: resolve the target offset, mirror a
    /// fresh allocation and a capacity growth onto the file, store the
    /// bytes in the slot, then map the page and count the write.
    pub open spec fn write_page_tr(self, pid: PageId, data: Seq<u8>) -> DiskModel {
        let (meta1, offset, provisional) = self.meta.resolve_tr(pid);
        let file1 = if meta1.page_count > self.meta.page_count {
            self.file.push(Seq::empty())
        } else {
            self.file
        };
        let file_len1 = if meta1.page_capacity * DOCKBASE_PAGE_SIZE > self.file_len {
            (meta1.page_capacity * DOCKBASE_PAGE_SIZE) as usize
        } else {
            self.file_len
        };
        DiskModel {
            meta: meta1.record_write_tr(pid, offset),
            file: file1.update(offset as int / DOCKBASE_PAGE_SIZE as int, data),
            file_len: file_len1,
            log: self.log,
        }
    }

    /// The page-delete transition: only the metadata changes.
    pub open spec fn delete_page_tr(self, pid: PageId) -> DiskModel {
        DiskModel { meta: self.meta.delete_tr(pid), ..self }
    }

    /// The log-write transition: appending nothing is a no-op; otherwise
    /// the bytes are appended, the flush is counted, and the in-progress
    /// flag ends lowered.
    pub open spec fn write_log_tr(self, data: Seq<u8>) -> DiskModel {
        if data.len() == 0 {
            self
        } else {
            DiskModel {
                meta: MetaModel {
                    flush_log: false,
                    num_flushes: inc32(self.meta.num_flushes),
                    ..self.meta
                },
                log: self.log + data,
                ..self
            }
        }
    }

    /// The bytes a log read of `len` bytes at `offset` stores into the
    /// caller's buffer: the log's bytes from `offset` on, zero-padded.
    pub open spec fn read_log_spec(&self, offset: int, len: nat) -> Seq<u8> {
        Seq::new(
            len,
            |i: int| if offset + i < self.log.len() {
                self.log[offset + i]
            } else {
                0u8
            },
        )
    }
}

/// The disk manager, verified against the in-memory [`DiskModel`] of its
/// metadata and its two backing files.
pub struct DiskManager {
    /// The metadata; public so that callers can inspect the page table,
    /// the free list and the counters directly.
    pub metadata: Metadata,
    data_slots: Vec<Vec<u8>>,
    data_file_len: usize,
    log: Vec<u8>,
}

impl View for DiskManager {
    type V = DiskModel;

    closed spec fn view(&self) -> DiskModel {
        DiskModel {
            meta: self.metadata@,
            file: Seq::new(self.data_slots@.len(), |i: int| self.data_slots@[i]@),
            file_len: self.data_file_len,
            log: self.log@,
        }
    }
}

impl DiskManager {
    /// The invariant of the disk manager, stated on its model.
    pub open spec fn wf(&self) -> bool {
        self@.wf()
    }

    /// Creates a fresh disk manager over an empty modeled data file and
    /// log. Opening and pre-extending the real files is the shell's work.
    pub fn new() -> (m: DiskManager)
        ensures
            m.wf(),
            m@ == DiskModel::initial(),
    {
        let m = DiskManager {
            metadata: Metadata::new(),
            data_slots: Vec::new(),
            data_file_len: (DEFAULT_DB_IO_SIZE + 1) * DOCKBASE_PAGE_SIZE,
            log: Vec::new(),
        };
        proof {
            assert(m@ =~= DiskModel::initial());
        }
        m
    }

    /// Writes one page: resolves the target offset (allocating a slot
    /// for an unmapped page), stores the bytes, maps the page, and
    /// counts the write. Fails only when a needed capacity doubling
    /// would overflow the file's byte length.
    pub fn write_page(&mut self, page_id: PageId, page_data: &[u8]) -> (r: Result<(), Exception>)
        requires
            old(self).wf(),
            page_data@.len() == DOCKBASE_PAGE_SIZE,
        ensures
            final(self).wf(),
            old(self)@.write_succeeds(page_id) ==> r.is_ok() && final(self)@ == old(
                self,
            )@.write_page_tr(page_id, page_data@),
            !old(self)@.write_succeeds(page_id) ==> (r matches Err(e) && e is OutOfMemory)
                && final(self)@ == old(self)@,
            final(self)@.meta.num_writes >= old(self)@.meta.num_writes,
            final(self)@.meta.num_deletes == old(self)@.meta.num_deletes,
            final(self)@.meta.num_flushes == old(self)@.meta.num_flushes,
    {
        let resolved = self.metadata.resolve_write_offset(page_id);
        let (offset, is_new) = match resolved {
            Ok(p) => p,
            Err(e) => {
                proof {
                    assert(final(self)@ =~= old(self)@);
                }
                return Err(e);
            },
        };
        // mirror a fresh allocation and a capacity growth onto the file
        if self.data_slots.len() < self.metadata.page_count {
            self.data_slots.push(Vec::new());
        }
        let required_len = self.metadata.page_capacity * DOCKBASE_PAGE_SIZE;
        if self.data_file_len < required_len {
            self.data_file_len = required_len;
        }
        let mut guard = AllocationGuard::new(offset, is_new);
        let slot = offset / DOCKBASE_PAGE_SIZE;
        proof {
            lemma_offset_slot(offset, self.metadata.page_count);
        }
        let page_copy = vstd::slice::slice_to_vec(page_data);
        self.data_slots[slot] = page_copy;
        self.metadata.record_write(page_id, offset);
        guard.commit();
        guard.release(&mut self.metadata);
        proof {
            assert(final(self)@ =~= old(self)@.write_page_tr(page_id, page_data@));
        }
        Ok(())
    }

    /// Reads one page into `page_data`: the bytes last written to the
    /// page, zero-padded if the slot holds fewer than a page of bytes.
    /// Fails with `Invalid` exactly on an unmapped page identifier, and
    /// would fail with `IO` were the offset past end-of-file, which the
    /// invariant rules out.
    pub fn read_page(&self, page_id: PageId, page_data: &mut [u8]) -> (r: Result<(), Exception>)
        requires
            self.wf(),
            old(page_data)@.len() == DOCKBASE_PAGE_SIZE,
        ensures
            self@.meta.pages.contains_key(page_id) ==> r.is_ok() && final(page_data)@
                == self@.page_content(page_id),
            !self@.meta.pages.contains_key(page_id) ==> (r matches Err(e) && e is Invalid)
                && final(page_data)@ == old(page_data)@,
    {
        let offset = match self.metadata.pages.get(&page_id) {
            Some(offset_ref) => *offset_ref,
            None => {
                return Err(Exception::Invalid("Page not found in disk mapping"));
            },
        };
        if offset >= self.data_file_len {
            return Err(Exception::IO("Read offset past end of file"));
        }
        let slot = offset / DOCKBASE_PAGE_SIZE;
        proof {
            assert(self.metadata@.pages.contains_key(page_id));
            assert(self.metadata@.valid_offset(offset));
            lemma_offset_slot(offset, self.metadata.page_count);
            assert(self@.file[slot as int].len() == 0 || self@.file[slot as int].len()
                == DOCKBASE_PAGE_SIZE);
        }
        let content = &self.data_slots[slot];
        let mut i: usize = 0;
        while i < DOCKBASE_PAGE_SIZE
            invariant
                i <= DOCKBASE_PAGE_SIZE,
                page_data@.len() == DOCKBASE_PAGE_SIZE,
                content@.len() == 0 || content@.len() == DOCKBASE_PAGE_SIZE,
                forall|j: int|
                    0 <= j < i ==> page_data@[j] == (if j < content@.len() {
                        content@[j]
                    } else {
                        0u8
                    }),
            decreases DOCKBASE_PAGE_SIZE - i,
        {
            let b = if i < content.len() {
                content[i]
            } else {
                0u8
            };
            page_data[i] = b;
            i = i + 1;
        }
        proof {
            assert(final(page_data)@ =~= self@.page_content(page_id));
        }
        Ok(())
    }

    /// Deletes the mapping of `page_id` if present, freeing its slot for
    /// reuse and counting the deletion. Idempotent.
    pub fn delete_page(&mut self, page_id: PageId) -> (r: Result<(), Exception>)
        requires
            old(self).wf(),
        ensures
            final(self).wf(),
            r.is_ok(),
            final(self)@ == old(self)@.delete_page_tr(page_id),
            final(self)@.meta.num_deletes >= old(self)@.meta.num_deletes,
            final(self)@.meta.num_writes == old(self)@.meta.num_writes,
            final(self)@.meta.num_flushes == old(self)@.meta.num_flushes,
    {
        let r = self.metadata.delete_page(page_id);
        proof {
            assert(final(self)@ =~= old(self)@.delete_page_tr(page_id));
        }
        r
    }

    /// Appends bytes to the log: a no-op for an empty input, otherwise
    /// the flush flag is raised, the bytes are appended, and the flush is
    /// counted with the flag lowered again.
    pub fn write_log(&mut self, log_data: &[u8]) -> (r: Result<(), Exception>)
        requires
            old(self).wf(),
        ensures
            final(self).wf(),
            r.is_ok(),
            final(self)@ == old(self)@.write_log_tr(log_data@),
            final(self)@.meta.num_flushes >= old(self)@.meta.num_flushes,
            final(self)@.meta.num_writes == old(self)@.meta.num_writes,
            final(self)@.meta.num_deletes == old(self)@.meta.num_deletes,
    {
        if log_data.len() == 0 {
            proof {
                assert(final(self)@ =~= old(self)@.write_log_tr(log_data@));
            }
            return Ok(());
        }
        self.metadata.begin_log_flush();
        let mut i: usize = 0;
        while i < log_data.len()
            invariant
                i <= log_data@.len(),
                self.metadata@ == (MetaModel { flush_log: true, ..old(self).metadata@ }),
                self.metadata.wf(),
                self.data_slots@ == old(self).data_slots@,
                self.data_file_len == old(self).data_file_len,
                self.log@ == old(self).log@ + log_data@.take(i as int),
            decreases log_data@.len() - i,
        {
            self.log.push(log_data[i]);
            proof {
                assert(self.log@ =~= old(self).log@ + log_data@.take(i + 1));
            }
            i = i + 1;
        }
        self.metadata.finish_log_flush();
        proof {
            assert(log_data@.take(log_data@.len() as int) =~= log_data@);
            assert(final(self)@ =~= old(self)@.write_log_tr(log_data@));
        }
        Ok(())
    }

    /// Reads up to `log_data.len()` bytes of the log starting at byte
    /// `offset`, zero-padding a short read. Returns `false`, leaving the
    /// buffer untouched, exactly when `offset` is at or past the end of
    /// the log.
    pub fn read_log(&self, log_data: &mut [u8], offset: usize) -> (r: Result<bool, Exception>)
        requires
            self.wf(),
        ensures
            offset >= self@.log.len() ==> r == Ok::<bool, Exception>(false) && final(log_data)@
                == old(log_data)@,
            offset < self@.log.len() ==> r == Ok::<bool, Exception>(true) && final(log_data)@
                == self@.read_log_spec(offset as int, old(log_data)@.len() as nat),
    {
        if offset >= self.log.len() {
            return Ok(false);
        }
        let avail = self.log.len() - offset;
        let mut i: usize = 0;
        while i < log_data.len()
            invariant
                offset < self.log@.len(),
                self.log@.len() <= usize::MAX,
                avail == self.log@.len() - offset,
                i <= log_data@.len(),
                log_data@.len() == old(log_data)@.len(),
                forall|j: int|
                    0 <= j < i ==> log_data@[j] == (if offset + j < self.log@.len() {
                        self.log@[offset + j]
                    } else {
                        0u8
                    }),
            decreases log_data@.len() - i,
        {
            let b = if i < avail {
                self.log[offset + i]
            } else {
                0u8
            };
            log_data[i] = b;
            i = i + 1;
        }
        proof {
            assert(final(log_data)@ =~= self@.read_log_spec(
                offset as int,
                old(log_data)@.len() as nat,
            ));
        }
        Ok(true)
    }

    /// Number of completed log flushes.
    pub fn get_num_flushes(&self) -> (r: Result<i32, Exception>)
        ensures
            r == Ok::<i32, Exception>(self@.meta.num_flushes),
    {
        Ok(self.metadata.num_flushes)
    }

    /// Whether a log flush is currently in progress.
    pub fn get_log_flush_state(&self) -> (r: Result<bool, Exception>)
        ensures
            r == Ok::<bool, Exception>(self@.meta.flush_log),
    {
        Ok(self.metadata.flush_log)
    }

    /// Number of completed page writes.
    pub fn get_num_writes(&self) -> (r: Result<i32, Exception>)
        ensures
            r == Ok::<i32, Exception>(self@.meta.num_writes),
    {
        Ok(self.metadata.num_writes)
    }

    /// Number of page deletions that removed a mapping.
    pub fn get_num_deletes(&self) -> (r: Result<i32, Exception>)
        ensures
            r == Ok::<i32, Exception>(self@.meta.num_deletes),
    {
        Ok(self.metadata.num_deletes)
    }

    /// Quiescence point before the manager is dropped. The in-memory
    /// model holds no file handles; the shell's counterpart acquires and
    /// releases both file locks here.
    pub fn shut_down(&self) -> (r: Result<(), Exception>)
        ensures
            r.is_ok(),
    {
        Ok(())
    }
}

/// Law: under the invariant, every mapped offset is page-aligned, lies
/// below the capacity in bytes, and is disjoint from the free list.
pub proof fn lemma_mapped_offsets_disjoint_and_bounded(m: MetaModel, pid: PageId)
    requires
        m.wf(),
        m.pages.contains_key(pid),
    ensures
        m.pages[pid] % DOCKBASE_PAGE_SIZE == 0,
        m.pages[pid] < m.page_capacity * DOCKBASE_PAGE_SIZE,
        forall|i: int| 0 <= i < m.free_slots.len() ==> m.free_slots[i] != m.pages[pid],
{
}

/// Law: writing a page and then reading it yields exactly the written
/// bytes.
pub proof fn lemma_write_read_round_trip(m: DiskModel, pid: PageId, data: Seq<u8>)
    requires
        m.wf(),
        data.len() == DOCKBASE_PAGE_SIZE,
        m.write_succeeds(pid),
    ensures
        ({
            let m2 = m.write_page_tr(pid, data);
            m2.meta.pages.contains_key(pid) && m2.page_content(pid) == data
        }),
{
    let (meta1, offset, provisional) = m.meta.resolve_tr(pid);
    let m2 = m.write_page_tr(pid, data);
    lemma_offset_slot(offset, meta1.page_count);
    assert(m2.page_content(pid) =~= data);
}

/// Law: a page write leaves the mapping and the content of every other
/// page unchanged.
pub proof fn lemma_write_preserves_other_pages(
    m: DiskModel,
    pid: PageId,
    other: PageId,
    data: Seq<u8>,
)
    requires
        m.wf(),
        data.len() == DOCKBASE_PAGE_SIZE,
        m.write_succeeds(pid),
        other != pid,
        m.meta.pages.contains_key(other),
    ensures
        ({
            let m2 = m.write_page_tr(pid, data);
            m2.meta.pages.contains_key(other) && m2.meta.pages[other] == m.meta.pages[other]
                && m2.page_content(other) == m.page_content(other)
        }),
{
    let (meta1, offset, provisional) = m.meta.resolve_tr(pid);
    let m2 = m.write_page_tr(pid, data);
    lemma_offset_slot(offset, meta1.page_count);
    lemma_offset_slot(m.meta.pages[other], m.meta.page_count);
    assert(m2.page_content(other) =~= m.page_content(other));
}

/// Law: deleting a page and then writing any unmapped page with no
/// allocation in between reuses the freed offset.
pub proof fn lemma_delete_then_write_reuses_offset(
    m: DiskModel,
    pid: PageId,
    other: PageId,
    data: Seq<u8>,
)
    requires
        m.wf(),
        data.len() == DOCKBASE_PAGE_SIZE,
        m.meta.pages.contains_key(pid),
        other == pid || !m.meta.pages.contains_key(other),
    ensures
        ({
            let m2 = m.delete_page_tr(pid).write_page_tr(other, data);
            m2.meta.pages.contains_key(other) && m2.meta.pages[other] == m.meta.pages[pid]
        }),
{
}

/// Law: two log appends read back in order, each at the offset where it
/// was appended.
pub proof fn lemma_log_round_trip(m: DiskModel, b1: Seq<u8>, b2: Seq<u8>)
    requires
        m.wf(),
        m.log.len() == 0,
        b1.len() > 0,
        b2.len() > 0,
    ensures
        ({
            let m2 = m.write_log_tr(b1).write_log_tr(b2);
            m2.read_log_spec(0, b1.len()) == b1 && m2.read_log_spec(b1.len() as int, b2.len())
                == b2
        }),
{
    let m2 = m.write_log_tr(b1).write_log_tr(b2);
    assert(m2.read_log_spec(0, b1.len()) =~= b1);
    assert(m2.read_log_spec(b1.len() as int, b2.len()) =~= b2);
}

/// Law: the portion of a log read past the end of the log is zero, and
/// the portion before it is the log's own bytes.
pub proof fn lemma_log_read_zero_padded(m: DiskModel, offset: int, len: nat)
    requires
        0 <= offset <= m.log.len(),
    ensures
        forall|i: int|
            0 <= i < len && offset + i >= m.log.len() ==> m.read_log_spec(offset, len)[i] == 0,
        forall|i: int|
            0 <= i < len && offset + i < m.log.len() ==> m.read_log_spec(offset, len)[i]
                == m.log[offset + i],
{
}

/// Law: a page read is zero-padded past the slot's stored bytes, up to
/// the page size.
pub proof fn lemma_page_read_zero_padded(content: Seq<u8>)
    ensures
        forall|i: int|
            content.len() <= i < DOCKBASE_PAGE_SIZE ==> pad_page(content)[i] == 0,
        forall|i: int|
            0 <= i < content.len() && i < DOCKBASE_PAGE_SIZE ==> pad_page(content)[i]
                == content[i],
{
}

/// Law: allocating with the file exactly full doubles the capacity and
/// returns the first offset at or past the old capacity.
pub proof fn lemma_alloc_grows_capacity(m: MetaModel)
    requires
        m.wf(),
        m.free_slots.len() == 0,
        m.page_count == m.page_capacity,
        m.can_grow(),
    ensures
        m.alloc_tr().0.page_capacity == 2 * m.page_capacity,
        m.alloc_tr().1 == m.page_capacity * DOCKBASE_PAGE_SIZE,
{
}

} // verus!
