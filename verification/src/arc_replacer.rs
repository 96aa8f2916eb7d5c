//! The adaptive replacement cache (ARC) replacer: tracks which resident
//! frames may be evicted and picks victims for the surrounding buffer
//! pool.
//!
//! Pages live on four lists: `mru` (seen once recently), `mfu` (seen
//! repeatedly), and the two ghost lists that remember recently evicted
//! identifiers so the target size of `mru` can adapt. Each list keeps its
//! least recently used element at index `0` and its most recently used at
//! the end. The page table maps each resident page to its frame and its
//! evictable flag. Every operation's contract preserves [`ArcReplacer::wf`]:
//! the lists are duplicate-free and pairwise disjoint, the residents fit
//! the capacity, `mru` plus its ghost fit the capacity, all four lists fit
//! twice the capacity, the adaptive target never exceeds the capacity, and
//! the page table's keys are exactly the resident pages.

use vstd::prelude::*;

use crate::config::{FrameId, PageId};

verus! {

/// One page-table entry: a resident page, its frame, and whether the
/// buffer pool allows it to be evicted.
pub struct ArcEntry {
    pub page_id: PageId,
    pub frame_id: FrameId,
    pub is_evictable: bool,
}

/// No two entries share a page identifier.
pub open spec fn table_keys_unique(t: Seq<ArcEntry>) -> bool {
    forall|i: int, j: int| #![auto]
        0 <= i < j < t.len() ==> t[i].page_id != t[j].page_id
}

/// Some entry carries this page identifier.
pub open spec fn table_has_key(t: Seq<ArcEntry>, pid: PageId) -> bool {
    exists|i: int| 0 <= i < t.len() && (#[trigger] t[i]).page_id == pid
}

/// Some entry maps this page identifier to this frame.
pub open spec fn table_maps(t: Seq<ArcEntry>, pid: PageId, fid: FrameId) -> bool {
    exists|k: int|
        0 <= k < t.len() && (#[trigger] t[k]).page_id == pid && t[k].frame_id == fid
}

/// Some entry is evictable and its page sits on `list`.
pub open spec fn has_evictable(list: Seq<PageId>, t: Seq<ArcEntry>) -> bool {
    exists|k: int|
        0 <= k < t.len() && (#[trigger] t[k]).is_evictable && list.contains(t[k].page_id)
}

/// Number of entries marked evictable.
pub open spec fn evictable_count(t: Seq<ArcEntry>) -> nat
    decreases t.len(),
{
    if t.len() == 0 {
        0
    } else {
        evictable_count(t.drop_last()) + if t.last().is_evictable {
            1nat
        } else {
            0nat
        }
    }
}

/// Law: the evictable count is zero exactly when no entry is marked
/// evictable, so `size` returns zero exactly when `evict` finds no
/// victim.
pub proof fn lemma_evictable_count_zero(t: Seq<ArcEntry>)
    ensures
        evictable_count(t) == 0 <==> forall|k: int|
            0 <= k < t.len() ==> !(#[trigger] t[k]).is_evictable,
    decreases t.len(),
{
    if t.len() > 0 {
        lemma_evictable_count_zero(t.drop_last());
        assert forall|k: int|
            0 <= k < t.drop_last().len() implies t.drop_last()[k] == t[k] by {}
        if evictable_count(t) == 0 {
            assert forall|k: int|
                0 <= k < t.len() implies !(#[trigger] t[k]).is_evictable by {
                if k < t.len() - 1 {
                    assert(!t.drop_last()[k].is_evictable);
                } else {
                    assert(t[k] == t.last());
                }
            };
        }
    }
}

/// No element of `a` occurs in `b`.
pub open spec fn seqs_disjoint(a: Seq<PageId>, b: Seq<PageId>) -> bool {
    forall|x: PageId| a.contains(x) ==> !b.contains(x)
}

/// Removing index `i` from a duplicate-free sequence removes exactly the
/// element at `i` and keeps the rest.
proof fn lemma_remove_membership(s: Seq<PageId>, i: int)
    requires
        0 <= i < s.len(),
        s.no_duplicates(),
    ensures
        s.remove(i).no_duplicates(),
        !s.remove(i).contains(s[i]),
        forall|x: PageId| #[trigger] s.remove(i).contains(x) <==> (s.contains(x) && x != s[i]),
{
    let t = s.remove(i);
    assert forall|x: PageId| #[trigger] t.contains(x) implies (s.contains(x) && x != s[i]) by {
        let j = choose|j: int| 0 <= j < t.len() && t[j] == x;
        if j < i {
            assert(s[j] == x);
        } else {
            assert(s[j + 1] == x);
        }
    };
    assert forall|x: PageId| s.contains(x) && x != s[i] implies #[trigger] t.contains(x) by {
        let j = choose|j: int| 0 <= j < s.len() && s[j] == x;
        if j < i {
            assert(t[j] == x);
        } else {
            assert(t[j - 1] == x);
        }
    };
}

/// Pushing onto a sequence adds exactly the pushed element.
proof fn lemma_push_membership(s: Seq<PageId>, v: PageId)
    ensures
        forall|x: PageId| #[trigger] s.push(v).contains(x) <==> (s.contains(x) || x == v),
        s.no_duplicates() && !s.contains(v) ==> s.push(v).no_duplicates(),
{
    assert forall|x: PageId| #[trigger] s.push(v).contains(x) implies (s.contains(x) || x == v) by {
        let j = choose|j: int| 0 <= j < s.push(v).len() && s.push(v)[j] == x;
        if j < s.len() {
            assert(s[j] == x);
        }
    };
    assert forall|x: PageId| s.contains(x) || x == v implies #[trigger] s.push(v).contains(x) by {
        if s.contains(x) {
            let j = choose|j: int| 0 <= j < s.len() && s[j] == x;
            assert(s.push(v)[j] == x);
        } else {
            assert(s.push(v)[s.len() as int] == x);
        }
    };
}

/// Pushing an entry adds exactly its key.
proof fn lemma_table_push(t: Seq<ArcEntry>, e: ArcEntry)
    ensures
        forall|p: PageId| #[trigger]
            table_has_key(t.push(e), p) <==> (table_has_key(t, p) || p == e.page_id),
        table_keys_unique(t) && !table_has_key(t, e.page_id) ==> table_keys_unique(t.push(e)),
{
    assert forall|p: PageId| #[trigger]
        table_has_key(t.push(e), p) implies (table_has_key(t, p) || p == e.page_id) by {
        let j = choose|j: int| 0 <= j < t.push(e).len() && (#[trigger] t.push(e)[j]).page_id == p;
        if j < t.len() {
            assert(t[j].page_id == p);
        }
    };
    assert forall|p: PageId| table_has_key(t, p) || p == e.page_id implies #[trigger]
        table_has_key(t.push(e), p) by {
        if table_has_key(t, p) {
            let j = choose|j: int| 0 <= j < t.len() && (#[trigger] t[j]).page_id == p;
            assert(t.push(e)[j].page_id == p);
        } else {
            assert(t.push(e)[t.len() as int].page_id == p);
        }
    };
}

/// Removing entry `i` from a table with unique keys removes exactly its
/// key and keeps uniqueness.
proof fn lemma_table_remove(t: Seq<ArcEntry>, i: int)
    requires
        0 <= i < t.len(),
        table_keys_unique(t),
    ensures
        table_keys_unique(t.remove(i)),
        !table_has_key(t.remove(i), t[i].page_id),
        forall|pid: PageId| #[trigger]
            table_has_key(t.remove(i), pid) <==> (table_has_key(t, pid) && pid != t[i].page_id),
{
    let u = t.remove(i);
    assert forall|pid: PageId| #[trigger]
        table_has_key(u, pid) implies (table_has_key(t, pid) && pid != t[i].page_id) by {
        let j = choose|j: int| 0 <= j < u.len() && (#[trigger] u[j]).page_id == pid;
        if j < i {
            assert(t[j].page_id == pid);
        } else {
            assert(t[j + 1].page_id == pid);
        }
    };
    assert forall|pid: PageId| table_has_key(t, pid) && pid != t[i].page_id implies #[trigger]
        table_has_key(u, pid) by {
        let j = choose|j: int| 0 <= j < t.len() && (#[trigger] t[j]).page_id == pid;
        if j < i {
            assert(u[j].page_id == pid);
        } else {
            assert(u[j - 1].page_id == pid);
        }
    };
}

/// Index of `pid` in `v`, scanning from the LRU end.
fn find_index(v: &Vec<PageId>, pid: PageId) -> (r: Option<usize>)
    ensures
        r matches Some(i) ==> i < v@.len() && v@[i as int] == pid,
        r is None ==> !v@.contains(pid),
{
    let mut i: usize = 0;
    while i < v.len()
        invariant
            i <= v@.len(),
            forall|j: int| 0 <= j < i ==> v@[j] != pid,
        decreases v@.len() - i,
    {
        if v[i] == pid {
            return Some(i);
        }
        i = i + 1;
    }
    None
}

/// Index of the entry for `pid` in the table.
fn table_find(t: &Vec<ArcEntry>, pid: PageId) -> (r: Option<usize>)
    ensures
        r matches Some(i) ==> i < t@.len() && t@[i as int].page_id == pid,
        r is None ==> !table_has_key(t@, pid),
{
    let mut i: usize = 0;
    while i < t.len()
        invariant
            i <= t@.len(),
            forall|j: int| 0 <= j < i ==> (#[trigger] t@[j]).page_id != pid,
        decreases t@.len() - i,
    {
        if t[i].page_id == pid {
            return Some(i);
        }
        i = i + 1;
    }
    None
}

/// Index of the first (least recently used) element of `list` whose
/// table entry is evictable.
fn find_victim(list: &Vec<PageId>, table: &Vec<ArcEntry>) -> (r: Option<usize>)
    requires
        table_keys_unique(table@),
    ensures
        r matches Some(i) ==> i < list@.len() && exists|k: int|
            0 <= k < table@.len() && (#[trigger] table@[k]).page_id == list@[i as int]
                && table@[k].is_evictable,
        r is None ==> forall|k: int|
            0 <= k < table@.len() && list@.contains((#[trigger] table@[k]).page_id)
                ==> !table@[k].is_evictable,
{
    let mut i: usize = 0;
    while i < list.len()
        invariant
            i <= list@.len(),
            table_keys_unique(table@),
            forall|k: int, j: int| #![auto]
                0 <= k < table@.len() && 0 <= j < i && table@[k].page_id == list@[j]
                    ==> !table@[k].is_evictable,
        decreases list@.len() - i,
    {
        match table_find(table, list[i]) {
            Some(k) => {
                if table[k].is_evictable {
                    return Some(i);
                }
            },
            None => {},
        }
        i = i + 1;
    }
    None
}

/// The ARC replacer state; see the module documentation for the list
/// roles and the invariant.
pub struct ArcReplacer {
    replacer_size: usize,
    mru_target_size: usize,
    mru: Vec<PageId>,
    mfu: Vec<PageId>,
    mru_ghost: Vec<PageId>,
    mfu_ghost: Vec<PageId>,
    page_table: Vec<ArcEntry>,
}

impl ArcReplacer {
    /// Number of frames the replacer manages.
    pub closed spec fn capacity(&self) -> usize {
        self.replacer_size
    }

    /// Adaptive target size of the `mru` list.
    pub closed spec fn target(&self) -> usize {
        self.mru_target_size
    }

    /// The four lists, LRU first.
    pub closed spec fn mru_list(&self) -> Seq<PageId> {
        self.mru@
    }

    pub closed spec fn mfu_list(&self) -> Seq<PageId> {
        self.mfu@
    }

    pub closed spec fn mru_ghost_list(&self) -> Seq<PageId> {
        self.mru_ghost@
    }

    pub closed spec fn mfu_ghost_list(&self) -> Seq<PageId> {
        self.mfu_ghost@
    }

    /// The page table.
    pub closed spec fn table(&self) -> Seq<ArcEntry> {
        self.page_table@
    }

    /// `pid` currently holds a frame.
    pub open spec fn resident(&self, pid: PageId) -> bool {
        self.mru_list().contains(pid) || self.mfu_list().contains(pid)
    }

    /// `pid` is remembered on a ghost list.
    pub open spec fn in_ghost(&self, pid: PageId) -> bool {
        self.mru_ghost_list().contains(pid) || self.mfu_ghost_list().contains(pid)
    }

    /// The replacer invariant: see the module documentation.
    pub open spec fn wf(&self) -> bool {
        &&& 1 <= self.capacity()
        &&& 2 * self.capacity() <= usize::MAX
        &&& self.target() <= self.capacity()
        &&& self.mru_list().no_duplicates()
        &&& self.mfu_list().no_duplicates()
        &&& self.mru_ghost_list().no_duplicates()
        &&& self.mfu_ghost_list().no_duplicates()
        &&& seqs_disjoint(self.mru_list(), self.mfu_list())
        &&& seqs_disjoint(self.mru_list(), self.mru_ghost_list())
        &&& seqs_disjoint(self.mru_list(), self.mfu_ghost_list())
        &&& seqs_disjoint(self.mfu_list(), self.mru_ghost_list())
        &&& seqs_disjoint(self.mfu_list(), self.mfu_ghost_list())
        &&& seqs_disjoint(self.mru_ghost_list(), self.mfu_ghost_list())
        &&& self.mru_list().len() + self.mfu_list().len() <= self.capacity()
        &&& self.mru_list().len() + self.mru_ghost_list().len() <= self.capacity()
        &&& self.mru_list().len() + self.mfu_list().len() + self.mru_ghost_list().len()
            + self.mfu_ghost_list().len() <= 2 * self.capacity()
        &&& table_keys_unique(self.table())
        &&& forall|k: int|
            0 <= k < self.table().len() ==> self.resident((#[trigger] self.table()[k]).page_id)
        &&& forall|pid: PageId| #[trigger]
            self.resident(pid) ==> table_has_key(self.table(), pid)
    }

    /// Creates an empty replacer for `capacity` frames.
    pub fn new(capacity: usize) -> (r: ArcReplacer)
        requires
            1 <= capacity,
            2 * capacity <= usize::MAX,
        ensures
            r.wf(),
            r.capacity() == capacity,
            r.target() == 0,
            r.mru_list() == Seq::<PageId>::empty(),
            r.mfu_list() == Seq::<PageId>::empty(),
            r.mru_ghost_list() == Seq::<PageId>::empty(),
            r.mfu_ghost_list() == Seq::<PageId>::empty(),
            r.table() == Seq::<ArcEntry>::empty(),
    {
        ArcReplacer {
            replacer_size: capacity,
            mru_target_size: 0,
            mru: Vec::new(),
            mfu: Vec::new(),
            mru_ghost: Vec::new(),
            mfu_ghost: Vec::new(),
            page_table: Vec::new(),
        }
    }

    /// Number of evictable frames.
    pub fn size(&self) -> (n: usize)
        requires
            self.wf(),
        ensures
            n == evictable_count(self.table()),
    {
        let mut n: usize = 0;
        let mut i: usize = 0;
        while i < self.page_table.len()
            invariant
                i <= self.table().len(),
                n <= i,
                n == evictable_count(self.table().take(i as int)),
            decreases self.table().len() - i,
        {
            proof {
                assert(self.table().take(i + 1).drop_last() =~= self.table().take(i as int));
                assert(self.table().take(i + 1).last() == self.table()[i as int]);
            }
            if self.page_table[i].is_evictable {
                n = n + 1;
            }
            i = i + 1;
        }
        proof {
            assert(self.table().take(self.table().len() as int) =~= self.table());
        }
        n
    }

    /// Evicts one resident page into its ghost list when the resident
    /// lists are full, so that one more page can become resident. The
    /// victim comes from the LRU end of `mru` when `mru` exceeds its
    /// adaptive target or `mfu` is empty, and from the LRU end of `mfu`
    /// otherwise; its page-table entry is dropped.
    fn make_room(&mut self)
        requires
            old(self).wf(),
        ensures
            final(self).wf(),
            final(self).capacity() == old(self).capacity(),
            final(self).target() == old(self).target(),
            final(self).mru_list().len() + final(self).mfu_list().len() < final(self).capacity(),
            forall|x: PageId| #[trigger] final(self).resident(x) ==> old(self).resident(x),
            forall|x: PageId| #[trigger]
                final(self).in_ghost(x) ==> old(self).in_ghost(x) || old(self).resident(x),
            final(self).mru_list().len() + final(self).mru_ghost_list().len()
                <= old(self).mru_list().len() + old(self).mru_ghost_list().len(),
            final(self).mru_list().len() + final(self).mfu_list().len()
                + final(self).mru_ghost_list().len() + final(self).mfu_ghost_list().len()
                <= old(self).mru_list().len() + old(self).mfu_list().len()
                + old(self).mru_ghost_list().len() + old(self).mfu_ghost_list().len(),
    {
        if self.mru.len() + self.mfu.len() < self.replacer_size {
            return ;
        }
        if self.mru.len() > self.mru_target_size || self.mfu.len() == 0 {
            let victim = self.mru.remove(0);
            self.mru_ghost.push(victim);
            proof {
                lemma_remove_membership(old(self).mru_list(), 0);
                lemma_push_membership(old(self).mru_ghost_list(), victim);
            }
            let entry_index = match table_find(&self.page_table, victim) {
                Some(k) => k,
                None => {
                    proof {
                        assert(old(self).resident(victim));
                        assert(false);
                    }
                    0
                },
            };
            let ghost t0 = self.page_table@;
            self.page_table.remove(entry_index);
            proof {
                lemma_table_remove(t0, entry_index as int);
                self.lemma_after_eviction(*old(self), t0, entry_index as int, victim);
            }
        } else {
            let victim = self.mfu.remove(0);
            self.mfu_ghost.push(victim);
            proof {
                lemma_remove_membership(old(self).mfu_list(), 0);
                lemma_push_membership(old(self).mfu_ghost_list(), victim);
            }
            let entry_index = match table_find(&self.page_table, victim) {
                Some(k) => k,
                None => {
                    proof {
                        assert(old(self).resident(victim));
                        assert(false);
                    }
                    0
                },
            };
            let ghost t0 = self.page_table@;
            self.page_table.remove(entry_index);
            proof {
                lemma_table_remove(t0, entry_index as int);
                self.lemma_after_eviction(*old(self), t0, entry_index as int, victim);
            }
        }
    }

    /// After one eviction the table's entries still name resident pages
    /// and every resident page still has an entry.
    proof fn lemma_after_eviction(
        &self,
        pre: ArcReplacer,
        t0: Seq<ArcEntry>,
        entry_index: int,
        victim: PageId,
    )
        requires
            pre.wf(),
            0 <= entry_index < t0.len(),
            t0 == pre.table(),
            t0[entry_index].page_id == victim,
            self.table() == t0.remove(entry_index),
            forall|x: PageId| #[trigger]
                self.resident(x) <==> (pre.resident(x) && x != victim),
        ensures
            forall|k: int|
                0 <= k < self.table().len() ==> self.resident(
                    (#[trigger] self.table()[k]).page_id,
                ),
            forall|pid: PageId| #[trigger]
                self.resident(pid) ==> table_has_key(self.table(), pid),
    {
        lemma_table_remove(t0, entry_index);
        let t1 = self.table();
        assert forall|k: int|
            0 <= k < t1.len() implies self.resident((#[trigger] t1[k]).page_id) by {
            if k < entry_index {
                assert(t1[k] == t0[k]);
            } else {
                assert(t1[k] == t0[k + 1]);
            }
            let p = t1[k].page_id;
            assert(pre.resident(p));
            assert(table_has_key(t1, p));
            assert(p != victim);
        };
        assert forall|pid: PageId| #[trigger]
            self.resident(pid) implies table_has_key(t1, pid) by {
            assert(pre.resident(pid));
            assert(table_has_key(t0, pid));
        };
    }

    /// Marks the frame of `pid` evictable or pinned; silent if the page
    /// is not resident.
    pub fn set_evictable(&mut self, pid: PageId, evictable: bool)
        requires
            old(self).wf(),
        ensures
            final(self).wf(),
            final(self).capacity() == old(self).capacity(),
            final(self).target() == old(self).target(),
            final(self).mru_list() == old(self).mru_list(),
            final(self).mfu_list() == old(self).mfu_list(),
            final(self).mru_ghost_list() == old(self).mru_ghost_list(),
            final(self).mfu_ghost_list() == old(self).mfu_ghost_list(),
            final(self).table().len() == old(self).table().len(),
            forall|k: int|
                0 <= k < old(self).table().len() ==> #[trigger] final(self).table()[k] == (
                if old(self).table()[k].page_id == pid {
                    ArcEntry { is_evictable: evictable, ..old(self).table()[k] }
                } else {
                    old(self).table()[k]
                }),
    {
        match table_find(&self.page_table, pid) {
            Some(i) => {
                let frame_id = self.page_table[i].frame_id;
                self.page_table[i] = ArcEntry { page_id: pid, frame_id, is_evictable: evictable };
                proof {
                    let t0 = old(self).table();
                    let t1 = self.table();
                    assert(forall|k: int| #![auto]
                        0 <= k < t1.len() ==> t1[k].page_id == t0[k].page_id);
                    assert(table_keys_unique(t1));
                    assert forall|p: PageId| #[trigger]
                        table_has_key(t1, p) == table_has_key(t0, p) by {
                        if table_has_key(t0, p) {
                            let j = choose|j: int|
                                0 <= j < t0.len() && (#[trigger] t0[j]).page_id == p;
                            assert(t1[j].page_id == p);
                        }
                        if table_has_key(t1, p) {
                            let j = choose|j: int|
                                0 <= j < t1.len() && (#[trigger] t1[j]).page_id == p;
                            assert(t0[j].page_id == p);
                        }
                    };
                    assert forall|p: PageId| #[trigger]
                        self.resident(p) implies table_has_key(self.table(), p) by {
                        assert(old(self).resident(p));
                        assert(table_has_key(t0, p));
                    };
                }
            },
            None => {},
        }
    }

    /// Rebinds the frame of the resident page `pid`, keeping its
    /// evictable flag.
    fn update_frame(&mut self, pid: PageId, frame_id: FrameId)
        requires
            old(self).wf(),
        ensures
            final(self).wf(),
            final(self).capacity() == old(self).capacity(),
            final(self).target() == old(self).target(),
            final(self).mru_list() == old(self).mru_list(),
            final(self).mfu_list() == old(self).mfu_list(),
            final(self).mru_ghost_list() == old(self).mru_ghost_list(),
            final(self).mfu_ghost_list() == old(self).mfu_ghost_list(),
            final(self).table().len() == old(self).table().len(),
            forall|k: int|
                0 <= k < old(self).table().len() ==> #[trigger] final(self).table()[k] == (
                if old(self).table()[k].page_id == pid {
                    ArcEntry { frame_id: frame_id, ..old(self).table()[k] }
                } else {
                    old(self).table()[k]
                }),
    {
        match table_find(&self.page_table, pid) {
            Some(i) => {
                let is_evictable = self.page_table[i].is_evictable;
                self.page_table[i] = ArcEntry { page_id: pid, frame_id, is_evictable };
                proof {
                    let t0 = old(self).table();
                    let t1 = self.table();
                    assert(forall|k: int| #![auto]
                        0 <= k < t1.len() ==> t1[k].page_id == t0[k].page_id);
                    assert(table_keys_unique(t1));
                    assert forall|p: PageId| #[trigger]
                        table_has_key(t1, p) == table_has_key(t0, p) by {
                        if table_has_key(t0, p) {
                            let j = choose|j: int|
                                0 <= j < t0.len() && (#[trigger] t0[j]).page_id == p;
                            assert(t1[j].page_id == p);
                        }
                        if table_has_key(t1, p) {
                            let j = choose|j: int|
                                0 <= j < t1.len() && (#[trigger] t1[j]).page_id == p;
                            assert(t0[j].page_id == p);
                        }
                    };
                    assert forall|p: PageId| #[trigger]
                        self.resident(p) implies table_has_key(self.table(), p) by {
                        assert(old(self).resident(p));
                        assert(table_has_key(t0, p));
                    };
                }
            },
            None => {},
        }
    }

    /// Records an access to `page_id`, resident in frame `frame_id`:
    /// a page seen on `mru` or a ghost list moves to the MRU end of
    /// `mfu`, a ghost hit adapts the target size of `mru`, and an
    /// unknown page enters at the MRU end of `mru`, evicting and
    /// trimming as needed to keep the capacity bounds. A page that
    /// becomes resident here starts pinned.
    pub fn record_access(&mut self, page_id: PageId, frame_id: FrameId)
        requires
            old(self).wf(),
        ensures
            final(self).wf(),
            final(self).capacity() == old(self).capacity(),
            final(self).resident(page_id),
            table_has_key(final(self).table(), page_id),
            table_maps(final(self).table(), page_id, frame_id),
            !final(self).in_ghost(page_id),
            old(self).resident(page_id) || old(self).in_ghost(page_id)
                ==> final(self).mfu_list().len() > 0 && final(self).mfu_list().last() == page_id,
            !(old(self).resident(page_id) || old(self).in_ghost(page_id))
                ==> final(self).mru_list().len() > 0 && final(self).mru_list().last() == page_id,
            forall|x: PageId| #[trigger]
                final(self).resident(x) ==> old(self).resident(x) || x == page_id,
    {
        match find_index(&self.mru, page_id) {
            Some(i) => {
                // seen once recently: promote to the frequency list
                self.mru.remove(i);
                self.mfu.push(page_id);
                proof {
                    lemma_remove_membership(old(self).mru_list(), i as int);
                    lemma_push_membership(old(self).mfu_list(), page_id);
                    assert forall|x: PageId| #[trigger]
                        self.resident(x) == old(self).resident(x) by {}
                    assert forall|p: PageId| #[trigger]
                        self.resident(p) implies table_has_key(self.table(), p) by {
                        assert(old(self).resident(p));
                    };
                }
                self.update_frame(page_id, frame_id);
                proof {
                    assert(old(self).resident(page_id));
                    assert(table_has_key(old(self).table(), page_id));
                    let j = choose|j: int|
                        0 <= j < old(self).table().len() && (#[trigger] old(self).table()[j]).page_id == page_id;
                    assert(self.table()[j].page_id == page_id);
                    assert(self.table()[j].frame_id == frame_id);
                    assert(table_maps(self.table(), page_id, frame_id));
                }
                return ;
            },
            None => {},
        }
        match find_index(&self.mfu, page_id) {
            Some(i) => {
                // seen repeatedly: refresh its recency within the list
                self.mfu.remove(i);
                self.mfu.push(page_id);
                proof {
                    lemma_remove_membership(old(self).mfu_list(), i as int);
                    lemma_push_membership(old(self).mfu_list().remove(i as int), page_id);
                    assert forall|x: PageId| #[trigger]
                        self.resident(x) == old(self).resident(x) by {}
                    assert forall|p: PageId| #[trigger]
                        self.resident(p) implies table_has_key(self.table(), p) by {
                        assert(old(self).resident(p));
                    };
                }
                self.update_frame(page_id, frame_id);
                proof {
                    assert(old(self).resident(page_id));
                    assert(table_has_key(old(self).table(), page_id));
                    let j = choose|j: int|
                        0 <= j < old(self).table().len() && (#[trigger] old(self).table()[j]).page_id == page_id;
                    assert(self.table()[j].page_id == page_id);
                    assert(self.table()[j].frame_id == frame_id);
                    assert(table_maps(self.table(), page_id, frame_id));
                }
                return ;
            },
            None => {},
        }
        match find_index(&self.mru_ghost, page_id) {
            Some(i) => {
                // ghost hit on the recency side: grow the target
                let d = self.mfu_ghost.len() / self.mru_ghost.len();
                let delta = if d == 0 {
                    1
                } else {
                    d
                };
                if delta > self.replacer_size - self.mru_target_size {
                    self.mru_target_size = self.replacer_size;
                } else {
                    self.mru_target_size = self.mru_target_size + delta;
                }
                self.mru_ghost.remove(i);
                proof {
                    lemma_remove_membership(old(self).mru_ghost_list(), i as int);
                    assert forall|p: PageId| #[trigger]
                        self.resident(p) implies table_has_key(self.table(), p) by {
                        assert(old(self).resident(p));
                    };
                    assert forall|k: int|
                        0 <= k < self.table().len() implies self.resident(
                        (#[trigger] self.table()[k]).page_id,
                    ) by {
                        assert(old(self).resident(self.table()[k].page_id));
                    };
                    assert(self.wf());
                }
                self.make_room();
                let ghost s2 = *self;
                proof {
                    assert(old(self).mru_ghost_list().contains(page_id));
                    assert(!old(self).resident(page_id));
                    assert(!s2.resident(page_id));
                    assert(!s2.in_ghost(page_id));
                }
                self.mfu.push(page_id);
                self.page_table.push(
                    ArcEntry { page_id, frame_id, is_evictable: false },
                );
                proof {
                    lemma_push_membership(s2.mfu_list(), page_id);
                    lemma_table_push(s2.table(), ArcEntry { page_id, frame_id, is_evictable: false });
                    self.lemma_after_insertion(s2, page_id);
                    assert(self.table().last().page_id == page_id && self.table().last().frame_id
                        == frame_id);
                    assert(table_maps(self.table(), page_id, frame_id));
                    assert(old(self).in_ghost(page_id));
                }
                return ;
            },
            None => {},
        }
        match find_index(&self.mfu_ghost, page_id) {
            Some(i) => {
                // ghost hit on the frequency side: shrink the target
                let d = self.mru_ghost.len() / self.mfu_ghost.len();
                let delta = if d == 0 {
                    1
                } else {
                    d
                };
                if delta > self.mru_target_size {
                    self.mru_target_size = 0;
                } else {
                    self.mru_target_size = self.mru_target_size - delta;
                }
                self.mfu_ghost.remove(i);
                proof {
                    lemma_remove_membership(old(self).mfu_ghost_list(), i as int);
                    assert forall|p: PageId| #[trigger]
                        self.resident(p) implies table_has_key(self.table(), p) by {
                        assert(old(self).resident(p));
                    };
                    assert forall|k: int|
                        0 <= k < self.table().len() implies self.resident(
                        (#[trigger] self.table()[k]).page_id,
                    ) by {
                        assert(old(self).resident(self.table()[k].page_id));
                    };
                    assert(self.wf());
                }
                self.make_room();
                let ghost s2 = *self;
                proof {
                    assert(old(self).mfu_ghost_list().contains(page_id));
                    assert(!old(self).resident(page_id));
                    assert(!s2.resident(page_id));
                    assert(!s2.in_ghost(page_id));
                }
                self.mfu.push(page_id);
                self.page_table.push(
                    ArcEntry { page_id, frame_id, is_evictable: false },
                );
                proof {
                    lemma_push_membership(s2.mfu_list(), page_id);
                    lemma_table_push(s2.table(), ArcEntry { page_id, frame_id, is_evictable: false });
                    self.lemma_after_insertion(s2, page_id);
                    assert(self.table().last().page_id == page_id && self.table().last().frame_id
                        == frame_id);
                    assert(table_maps(self.table(), page_id, frame_id));
                    assert(old(self).in_ghost(page_id));
                }
                return ;
            },
            None => {},
        }
        // unknown page: enter the recency list, trimming the ghosts
        self.make_room();
        let ghost s2 = *self;
        if self.mru.len() + self.mru_ghost.len() >= self.replacer_size {
            proof {
                assert(self.mru_ghost@.len() > 0);
            }
            self.mru_ghost.remove(0);
            proof {
                lemma_remove_membership(s2.mru_ghost_list(), 0);
                assert forall|p: PageId| #[trigger]
                    self.resident(p) implies table_has_key(self.table(), p) by {
                    assert(s2.resident(p));
                };
                assert forall|k: int|
                    0 <= k < self.table().len() implies self.resident(
                    (#[trigger] self.table()[k]).page_id,
                ) by {
                    assert(s2.resident(self.table()[k].page_id));
                };
                assert(self.wf());
            }
        }
        let ghost s3 = *self;
        let total = self.mru.len() + self.mfu.len() + self.mru_ghost.len()
            + self.mfu_ghost.len();
        if total >= 2 * self.replacer_size {
            proof {
                assert(self.mfu_ghost@.len() > 0);
            }
            self.mfu_ghost.remove(0);
            proof {
                lemma_remove_membership(s3.mfu_ghost_list(), 0);
                assert forall|p: PageId| #[trigger]
                    self.resident(p) implies table_has_key(self.table(), p) by {
                    assert(s3.resident(p));
                };
                assert forall|k: int|
                    0 <= k < self.table().len() implies self.resident(
                    (#[trigger] self.table()[k]).page_id,
                ) by {
                    assert(s3.resident(self.table()[k].page_id));
                };
                assert(self.wf());
            }
        }
        let ghost s4 = *self;
        proof {
            assert(!old(self).resident(page_id));
            assert(!old(self).in_ghost(page_id));
            assert(!s2.resident(page_id));
            assert(!s2.in_ghost(page_id));
            assert(!s3.in_ghost(page_id));
            assert(!s4.resident(page_id));
            assert(!s4.in_ghost(page_id));
            assert(s4.wf());
        }
        self.mru.push(page_id);
        self.page_table.push(ArcEntry { page_id, frame_id, is_evictable: false });
        proof {
            lemma_push_membership(s4.mru_list(), page_id);
            lemma_table_push(s4.table(), ArcEntry { page_id, frame_id, is_evictable: false });
            self.lemma_after_insertion(s4, page_id);
            assert(self.table().last().page_id == page_id && self.table().last().frame_id
                == frame_id);
            assert(table_maps(self.table(), page_id, frame_id));
        }
    }

    /// After pushing a fresh page onto a resident list together with its
    /// table entry, the table's keys are again exactly the residents.
    proof fn lemma_after_insertion(&self, pre: ArcReplacer, pid: PageId)
        requires
            table_keys_unique(pre.table()),
            forall|k: int|
                0 <= k < pre.table().len() ==> pre.resident(
                    (#[trigger] pre.table()[k]).page_id,
                ),
            forall|p: PageId| #[trigger] pre.resident(p) ==> table_has_key(pre.table(), p),
            !pre.resident(pid),
            self.table() == pre.table().push(
                ArcEntry { page_id: pid, frame_id: self.table().last().frame_id, is_evictable: false },
            ),
            self.table().last().page_id == pid,
            forall|x: PageId| #[trigger] self.resident(x) <==> (pre.resident(x) || x == pid),
        ensures
            table_keys_unique(self.table()),
            forall|k: int|
                0 <= k < self.table().len() ==> self.resident(
                    (#[trigger] self.table()[k]).page_id,
                ),
            forall|pid2: PageId| #[trigger]
                self.resident(pid2) ==> table_has_key(self.table(), pid2),
            table_has_key(self.table(), pid),
    {
        let t0 = pre.table();
        let t1 = self.table();
        let e = t1.last();
        lemma_table_push(t0, e);
        assert(!table_has_key(t0, pid));
        assert forall|k: int|
            0 <= k < t1.len() implies self.resident((#[trigger] t1[k]).page_id) by {
            if k < t0.len() {
                assert(t1[k] == t0[k]);
                assert(pre.resident(t1[k].page_id));
            } else {
                assert(t1[k].page_id == pid);
            }
        };
        assert forall|pid2: PageId| #[trigger]
            self.resident(pid2) implies table_has_key(t1, pid2) by {
            if pid2 != pid {
                assert(pre.resident(pid2));
                assert(table_has_key(t0, pid2));
            }
        };
    }

    /// Picks an evictable victim: from the LRU end of `mru` first when
    /// `mru` exceeds its adaptive target, from `mfu` first otherwise,
    /// falling back to the other list. The victim's identifier moves to
    /// the matching ghost list, its table entry is dropped, and its
    /// frame is returned; `None` exactly when no frame is evictable.
    pub fn evict(&mut self) -> (r: Option<FrameId>)
        requires
            old(self).wf(),
        ensures
            final(self).wf(),
            final(self).capacity() == old(self).capacity(),
            final(self).target() == old(self).target(),
            r is None ==> *final(self) == *old(self) && forall|k: int|
                0 <= k < old(self).table().len() ==> !(#[trigger] old(
                    self,
                ).table()[k]).is_evictable,
            r matches Some(f) ==> exists|k: int|
                0 <= k < old(self).table().len() && (#[trigger] old(self).table()[k]).frame_id
                    == f && old(self).table()[k].is_evictable && !final(self).resident(
                    old(self).table()[k].page_id,
                ) && final(self).in_ghost(old(self).table()[k].page_id),
            old(self).mru_list().len() > old(self).target() && has_evictable(
                old(self).mru_list(),
                old(self).table(),
            ) ==> r is Some && final(self).mru_ghost_list().len() == old(
                self,
            ).mru_ghost_list().len() + 1 && final(self).mfu_ghost_list() == old(
                self,
            ).mfu_ghost_list(),
            old(self).mru_list().len() <= old(self).target() && has_evictable(
                old(self).mfu_list(),
                old(self).table(),
            ) ==> r is Some && final(self).mfu_ghost_list().len() == old(
                self,
            ).mfu_ghost_list().len() + 1 && final(self).mru_ghost_list() == old(
                self,
            ).mru_ghost_list(),
            forall|x: PageId| #[trigger] final(self).resident(x) ==> old(self).resident(x),
    {
        let prefer_mru = self.mru.len() > self.mru_target_size;
        let mut found = false;
        let mut from_mru = false;
        let mut index: usize = 0;
        if prefer_mru {
            match find_victim(&self.mru, &self.page_table) {
                Some(i) => {
                    found = true;
                    from_mru = true;
                    index = i;
                },
                None => {
                    proof {
                        if has_evictable(self.mru@, self.page_table@) {
                            let k = choose|k: int|
                                0 <= k < self.page_table@.len() && (#[trigger] self.page_table@[k]).is_evictable && self.mru@.contains(self.page_table@[k].page_id);
                            assert(false);
                        }
                    }
                    match find_victim(&self.mfu, &self.page_table) {
                        Some(i) => {
                            found = true;
                            from_mru = false;
                            index = i;
                        },
                        None => {},
                    }
                },
            }
        } else {
            match find_victim(&self.mfu, &self.page_table) {
                Some(i) => {
                    found = true;
                    from_mru = false;
                    index = i;
                },
                None => {
                    proof {
                        if has_evictable(self.mfu@, self.page_table@) {
                            let k = choose|k: int|
                                0 <= k < self.page_table@.len() && (#[trigger] self.page_table@[k]).is_evictable && self.mfu@.contains(self.page_table@[k].page_id);
                            assert(false);
                        }
                    }
                    match find_victim(&self.mru, &self.page_table) {
                        Some(i) => {
                            found = true;
                            from_mru = true;
                            index = i;
                        },
                        None => {},
                    }
                },
            }
        }
        if !found {
            proof {
                assert forall|k: int|
                    0 <= k < self.table().len() implies !(#[trigger] self.table()[k]).is_evictable by {
                    assert(self.resident(self.table()[k].page_id));
                };
            }
            return None;
        }
        let victim = if from_mru {
            self.mru.remove(index)
        } else {
            self.mfu.remove(index)
        };
        if from_mru {
            self.mru_ghost.push(victim);
            proof {
                lemma_remove_membership(old(self).mru_list(), index as int);
                lemma_push_membership(old(self).mru_ghost_list(), victim);
            }
        } else {
            self.mfu_ghost.push(victim);
            proof {
                lemma_remove_membership(old(self).mfu_list(), index as int);
                lemma_push_membership(old(self).mfu_ghost_list(), victim);
            }
        }
        let entry_index = match table_find(&self.page_table, victim) {
            Some(k) => k,
            None => {
                proof {
                    assert(old(self).resident(victim));
                    assert(false);
                }
                0
            },
        };
        let frame = self.page_table[entry_index].frame_id;
        proof {
            assert(old(self).table()[entry_index as int].is_evictable);
        }
        let ghost t0 = self.page_table@;
        self.page_table.remove(entry_index);
        proof {
            lemma_table_remove(t0, entry_index as int);
            self.lemma_after_eviction(*old(self), t0, entry_index as int, victim);
        }
        Some(frame)
    }

    /// Drops `pid` from the replacer entirely, without ghost tracking;
    /// silent if the page is not resident.
    pub fn remove(&mut self, pid: PageId)
        requires
            old(self).wf(),
        ensures
            final(self).wf(),
            final(self).capacity() == old(self).capacity(),
            final(self).target() == old(self).target(),
            !final(self).resident(pid),
            !table_has_key(final(self).table(), pid),
            final(self).mru_ghost_list() == old(self).mru_ghost_list(),
            final(self).mfu_ghost_list() == old(self).mfu_ghost_list(),
            forall|x: PageId|
                x != pid ==> (#[trigger] final(self).resident(x) <==> old(self).resident(x)),
    {
        let mut found = false;
        let mut from_mru = false;
        let mut index: usize = 0;
        match find_index(&self.mru, pid) {
            Some(i) => {
                found = true;
                from_mru = true;
                index = i;
            },
            None => {
                match find_index(&self.mfu, pid) {
                    Some(i) => {
                        found = true;
                        from_mru = false;
                        index = i;
                    },
                    None => {},
                }
            },
        }
        if !found {
            proof {
                if table_has_key(self.table(), pid) {
                    let k = choose|k: int|
                        0 <= k < self.table().len() && (#[trigger] self.table()[k]).page_id
                            == pid;
                    assert(self.resident(pid));
                    assert(false);
                }
            }
            return ;
        }
        let victim = if from_mru {
            self.mru.remove(index)
        } else {
            self.mfu.remove(index)
        };
        proof {
            if from_mru {
                lemma_remove_membership(old(self).mru_list(), index as int);
            } else {
                lemma_remove_membership(old(self).mfu_list(), index as int);
            }
        }
        let entry_index = match table_find(&self.page_table, victim) {
            Some(k) => k,
            None => {
                proof {
                    assert(old(self).resident(victim));
                    assert(false);
                }
                0
            },
        };
        let ghost t0 = self.page_table@;
        self.page_table.remove(entry_index);
        proof {
            lemma_table_remove(t0, entry_index as int);
            self.lemma_after_eviction(*old(self), t0, entry_index as int, victim);
        }
    }
}

} // verus!
