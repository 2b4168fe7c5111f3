//! Allocator event counters, the live-address table, point-in-time snapshots,
//! and counter regions.

use vstd::prelude::*;

use crate::allocator_vec::{grown_capacity, initial_capacity, SpecialVec};

verus! {

/// Counter totals describing the allocator events seen so far.
#[derive(Clone, Copy, Debug, Hash, PartialEq, Eq, Structural)]
pub struct Stats {
    /// Count of allocation operations.
    pub allocations: usize,
    /// Count of deallocation operations.
    pub deallocations: usize,
    /// Count of reallocation operations.
    pub reallocations: usize,
    /// Total bytes requested by allocations, plus the growth of growing
    /// reallocations.
    pub bytes_allocated: usize,
    /// Total bytes freed by deallocations, plus the shrinkage of shrinking
    /// reallocations.
    pub bytes_deallocated: usize,
    /// Signed total of bytes requested minus bytes freed by reallocations.
    pub bytes_reallocated: isize,
}

/// The all-zero counter block.
pub open spec fn zero_stats() -> Stats {
    Stats {
        allocations: 0usize,
        deallocations: 0usize,
        reallocations: 0usize,
        bytes_allocated: 0usize,
        bytes_deallocated: 0usize,
        bytes_reallocated: 0isize,
    }
}

/// Elementwise subtraction `a - b` stays within the counters' ranges.
pub open spec fn stats_sub_ok(a: Stats, b: Stats) -> bool {
    &&& b.allocations <= a.allocations
    &&& b.deallocations <= a.deallocations
    &&& b.reallocations <= a.reallocations
    &&& b.bytes_allocated <= a.bytes_allocated
    &&& b.bytes_deallocated <= a.bytes_deallocated
    &&& isize::MIN <= a.bytes_reallocated - b.bytes_reallocated <= isize::MAX
}

/// Elementwise difference of two counter blocks.
pub open spec fn spec_stats_sub(a: Stats, b: Stats) -> Stats {
    Stats {
        allocations: (a.allocations - b.allocations) as usize,
        deallocations: (a.deallocations - b.deallocations) as usize,
        reallocations: (a.reallocations - b.reallocations) as usize,
        bytes_allocated: (a.bytes_allocated - b.bytes_allocated) as usize,
        bytes_deallocated: (a.bytes_deallocated - b.bytes_deallocated) as usize,
        bytes_reallocated: (a.bytes_reallocated - b.bytes_reallocated) as isize,
    }
}

/// Elementwise addition `a + b` stays within the counters' ranges.
pub open spec fn stats_add_ok(a: Stats, b: Stats) -> bool {
    &&& a.allocations + b.allocations <= usize::MAX
    &&& a.deallocations + b.deallocations <= usize::MAX
    &&& a.reallocations + b.reallocations <= usize::MAX
    &&& a.bytes_allocated + b.bytes_allocated <= usize::MAX
    &&& a.bytes_deallocated + b.bytes_deallocated <= usize::MAX
    &&& isize::MIN <= a.bytes_reallocated + b.bytes_reallocated <= isize::MAX
}

/// Elementwise sum of two counter blocks.
pub open spec fn spec_stats_add(a: Stats, b: Stats) -> Stats {
    Stats {
        allocations: (a.allocations + b.allocations) as usize,
        deallocations: (a.deallocations + b.deallocations) as usize,
        reallocations: (a.reallocations + b.reallocations) as usize,
        bytes_allocated: (a.bytes_allocated + b.bytes_allocated) as usize,
        bytes_deallocated: (a.bytes_deallocated + b.bytes_deallocated) as usize,
        bytes_reallocated: (a.bytes_reallocated + b.bytes_reallocated) as isize,
    }
}

impl Default for Stats {
    /// The all-zero counter block.
    fn default() -> (s: Stats)
        ensures
            s == zero_stats(),
    {
        Stats {
            allocations: 0,
            deallocations: 0,
            reallocations: 0,
            bytes_allocated: 0,
            bytes_deallocated: 0,
            bytes_reallocated: 0,
        }
    }
}

impl Stats {
    /// Elementwise difference; the delta of two snapshots of a monotonic
    /// counter block.
    pub fn sub(self, rhs: Stats) -> (r: Stats)
        requires
            stats_sub_ok(self, rhs),
        ensures
            r == spec_stats_sub(self, rhs),
    {
        let mut r = self;
        r.sub_assign(rhs);
        r
    }

    /// Subtracts `rhs` from `self` elementwise, in place.
    pub fn sub_assign(&mut self, rhs: Stats)
        requires
            stats_sub_ok(*old(self), rhs),
        ensures
            *final(self) == spec_stats_sub(*old(self), rhs),
    {
        self.allocations = self.allocations - rhs.allocations;
        self.deallocations = self.deallocations - rhs.deallocations;
        self.reallocations = self.reallocations - rhs.reallocations;
        self.bytes_allocated = self.bytes_allocated - rhs.bytes_allocated;
        self.bytes_deallocated = self.bytes_deallocated - rhs.bytes_deallocated;
        self.bytes_reallocated = self.bytes_reallocated - rhs.bytes_reallocated;
    }
}

/// Counter subtraction is the inverse of elementwise addition: adding a block
/// and subtracting it again gives the original back, and so does the other
/// order.
pub proof fn lemma_sub_inverts_add(a: Stats, b: Stats)
    ensures
        stats_add_ok(a, b) ==> spec_stats_sub(spec_stats_add(a, b), b) == a,
        stats_sub_ok(a, b) ==> spec_stats_add(spec_stats_sub(a, b), b) == a,
{
}

/// On a quiescent allocator, whose counters read `current` both times, a
/// first `change_and_reset` moves the baseline to `current`, so a second one
/// subtracts `current` from itself: it returns the zero delta and keeps the
/// baseline.
pub proof fn lemma_change_and_reset_idempotent(current: Stats)
    ensures
        stats_sub_ok(current, current),
        spec_stats_sub(current, current) == zero_stats(),
{
}

/// A table slot: empty, or an address paired with the byte count recorded
/// for it.
pub type Slot = Option<(usize, usize)>;

/// The mathematical state of an address table: the slot sequence, the stack
/// of reusable slot indices, and both tracked capacities.
#[verifier::ext_equal]
pub ghost struct TableModel {
    pub slots: Seq<Slot>,
    pub slots_cap: usize,
    pub free: Seq<usize>,
    pub free_cap: usize,
}

/// Does the slot hold `addr`?
pub open spec fn slot_matches(s: Slot, addr: usize) -> bool {
    s is Some && s.unwrap().0 == addr
}

impl TableModel {
    /// The state of a freshly created table.
    pub open spec fn empty() -> TableModel {
        TableModel {
            slots: Seq::empty(),
            slots_cap: initial_capacity::<Slot>(),
            free: Seq::empty(),
            free_cap: initial_capacity::<usize>(),
        }
    }

    /// Well-formedness: the free list holds exactly the empty slots, once
    /// each; occupied slots have a non-zero address and a non-zero size, and
    /// no address twice; lengths never exceed the tracked capacities.
    pub open spec fn wf(self) -> bool {
        &&& forall|k: int|
            0 <= k < self.free.len() ==> (#[trigger] self.free[k]) < self.slots.len()
                && self.slots[self.free[k] as int] is None
        &&& forall|k1: int, k2: int|
            0 <= k1 < k2 < self.free.len() ==> self.free[k1] != self.free[k2]
        &&& forall|i: int|
            0 <= i < self.slots.len() && (#[trigger] self.slots[i]) is None ==> self.free.contains(
                i as usize,
            )
        &&& forall|i: int|
            0 <= i < self.slots.len() && (#[trigger] self.slots[i]) is Some ==> (
            self.slots[i].unwrap().0 != 0 && self.slots[i].unwrap().1 > 0)
        &&& forall|i1: int, i2: int|
            0 <= i1 < i2 < self.slots.len() && self.slots[i1] is Some && self.slots[i2] is Some
                ==> self.slots[i1].unwrap().0 != self.slots[i2].unwrap().0
        &&& self.slots.len() <= self.slots_cap
        &&& self.free.len() <= self.free_cap
    }

    /// First slot index holding `addr`, scanning from `i`; `-1` when there is
    /// none.
    pub open spec fn find_from(self, addr: usize, i: int) -> int
        decreases self.slots.len() - i,
    {
        if i < 0 || i >= self.slots.len() {
            -1
        } else if slot_matches(self.slots[i], addr) {
            i
        } else {
            self.find_from(addr, i + 1)
        }
    }

    /// First slot index holding `addr`, or `-1`.
    pub open spec fn find(self, addr: usize) -> int {
        self.find_from(addr, 0)
    }

    /// Some occupied slot holds `addr`.
    pub open spec fn contains_addr(self, addr: usize) -> bool {
        exists|i: int| 0 <= i < self.slots.len() && slot_matches(#[trigger] self.slots[i], addr)
    }

    /// The table after recording `(addr, size)`: the top free slot is reused,
    /// or, with no free slot, a new one is appended.
    pub open spec fn spec_record(self, addr: usize, size: usize) -> TableModel {
        if self.free.len() > 0 {
            TableModel {
                slots: self.slots.update(self.free.last() as int, Some((addr, size))),
                free: self.free.drop_last(),
                ..self
            }
        } else {
            TableModel {
                slots: self.slots.push(Some((addr, size))),
                slots_cap: if self.slots.len() < self.slots_cap {
                    self.slots_cap
                } else {
                    grown_capacity(self.slots_cap)
                },
                ..self
            }
        }
    }

    /// The table after forgetting `addr`: the first slot holding it is
    /// emptied and its index pushed onto the free list; an unknown address
    /// changes nothing.
    pub open spec fn spec_forget(self, addr: usize) -> TableModel {
        let i = self.find(addr);
        if i >= 0 {
            TableModel {
                slots: self.slots.update(i, None),
                free: self.free.push(i as usize),
                free_cap: if self.free.len() < self.free_cap {
                    self.free_cap
                } else {
                    grown_capacity(self.free_cap)
                },
                ..self
            }
        } else {
            self
        }
    }

    /// The size that forgetting `addr` reports: the recorded size, or `None`
    /// for an unknown address.
    pub open spec fn spec_forget_result(self, addr: usize) -> Option<usize> {
        let i = self.find(addr);
        if i >= 0 {
            Some(self.slots[i].unwrap().1)
        } else {
            None
        }
    }
}

/// `find_from` scans the suffix: skipping a prefix without a match does not
/// change the result.
proof fn lemma_find_skip(t: TableModel, addr: usize, i: int)
    requires
        0 <= i <= t.slots.len(),
        forall|k: int| 0 <= k < i ==> !slot_matches(#[trigger] t.slots[k], addr),
    ensures
        t.find_from(addr, i) == t.find(addr),
    decreases i,
{
    if i > 0 {
        lemma_find_skip(t, addr, i - 1);
    }
}

/// `find` reports exactly whether the table holds `addr`, and where.
pub proof fn lemma_find_characterizes(t: TableModel, addr: usize)
    ensures
        t.find(addr) >= -1,
        t.find(addr) == -1 ==> !t.contains_addr(addr),
        t.find(addr) >= 0 ==> t.contains_addr(addr) && t.find(addr) < t.slots.len()
            && slot_matches(t.slots[t.find(addr)], addr),
{
    lemma_find_bounds(t, addr, 0);
}

/// Scanning from `i` finds a match at or after `i`, or rules one out.
proof fn lemma_find_bounds(t: TableModel, addr: usize, i: int)
    requires
        0 <= i,
    ensures
        t.find_from(addr, i) >= -1,
        t.find_from(addr, i) == -1 ==> forall|k: int|
            i <= k < t.slots.len() ==> !slot_matches(#[trigger] t.slots[k], addr),
        t.find_from(addr, i) >= 0 ==> i <= t.find_from(addr, i) < t.slots.len() && slot_matches(
            t.slots[t.find_from(addr, i)],
            addr,
        ),
    decreases t.slots.len() - i,
{
    if i < t.slots.len() && !slot_matches(t.slots[i], addr) {
        lemma_find_bounds(t, addr, i + 1);
    }
}

/// Recording a fresh, non-zero address in a well-formed table keeps it
/// well-formed.
pub proof fn lemma_record_wf(t: TableModel, addr: usize, size: usize)
    requires
        t.wf(),
        addr != 0,
        size > 0,
        !t.contains_addr(addr),
        t.slots.len() < usize::MAX / 2,
    ensures
        t.spec_record(addr, size).wf(),
{
    let r = t.spec_record(addr, size);
    if t.free.len() > 0 {
        let i = t.free.last() as int;
        assert(t.slots[i] is None);
        assert forall|j: int|
            0 <= j < r.slots.len() && (#[trigger] r.slots[j]) is None implies r.free.contains(
            j as usize,
        ) by {
            assert(t.slots[j] is None);
            assert(t.free.contains(j as usize));
            let k = choose|k: int| 0 <= k < t.free.len() && t.free[k] == j as usize;
            assert(k != t.free.len() - 1);
            assert(r.free[k] == j as usize);
        }
        assert forall|i1: int, i2: int|
            0 <= i1 < i2 < r.slots.len() && r.slots[i1] is Some && r.slots[i2]
                is Some implies r.slots[i1].unwrap().0 != r.slots[i2].unwrap().0 by {
            if i1 == i {
                assert(!slot_matches(t.slots[i2], addr));
            } else if i2 == i {
                assert(!slot_matches(t.slots[i1], addr));
            }
        }
    } else {
        let n = t.slots.len() as int;
        assert forall|j: int|
            0 <= j < r.slots.len() && (#[trigger] r.slots[j]) is None implies r.free.contains(
            j as usize,
        ) by {
            assert(j < n);
            assert(t.free.contains(j as usize));
        }
        assert forall|i1: int, i2: int|
            0 <= i1 < i2 < r.slots.len() && r.slots[i1] is Some && r.slots[i2]
                is Some implies r.slots[i1].unwrap().0 != r.slots[i2].unwrap().0 by {
            if i2 == n {
                assert(!slot_matches(t.slots[i1], addr));
            }
        }
    }
}

/// Forgetting any address in a well-formed table keeps it well-formed.
pub proof fn lemma_forget_wf(t: TableModel, addr: usize)
    requires
        t.wf(),
        t.free.len() < usize::MAX / 2,
    ensures
        t.spec_forget(addr).wf(),
{
    let i = t.find(addr);
    lemma_find_characterizes(t, addr);
    if i >= 0 {
        let r = t.spec_forget(addr);
        assert forall|k: int| 0 <= k < r.free.len() implies (#[trigger] r.free[k]) < r.slots.len()
            && r.slots[r.free[k] as int] is None by {
            if k < t.free.len() {
                assert(t.slots[t.free[k] as int] is None);
                assert(t.free[k] as int != i);
            }
        }
        assert forall|k1: int, k2: int|
            0 <= k1 < k2 < r.free.len() implies r.free[k1] != r.free[k2] by {
            if k2 == t.free.len() {
                assert(t.slots[t.free[k1] as int] is None);
                assert(t.free[k1] as int != i);
            }
        }
        assert forall|j: int|
            0 <= j < r.slots.len() && (#[trigger] r.slots[j]) is None implies r.free.contains(
            j as usize,
        ) by {
            if j == i {
                assert(r.free[r.free.len() - 1] == j as usize);
            } else {
                assert(t.slots[j] is None);
                assert(t.free.contains(j as usize));
                let k = choose|k: int| 0 <= k < t.free.len() && t.free[k] == j as usize;
                assert(r.free[k] == j as usize);
            }
        }
    }
}

/// Number of occupied slots.
pub open spec fn count_live(slots: Seq<Slot>) -> int
    decreases slots.len(),
{
    if slots.len() == 0 {
        0
    } else {
        count_live(slots.drop_last()) + if slots.last() is Some {
            1int
        } else {
            0int
        }
    }
}

/// Overwriting one slot changes the occupied count by the difference the two
/// values contribute.
pub proof fn lemma_count_live_update(slots: Seq<Slot>, i: int, v: Slot)
    requires
        0 <= i < slots.len(),
    ensures
        count_live(slots.update(i, v)) == count_live(slots) - (if slots[i] is Some {
            1int
        } else {
            0int
        }) + (if v is Some {
            1int
        } else {
            0int
        }),
    decreases slots.len(),
{
    let u = slots.update(i, v);
    if i == slots.len() - 1 {
        assert(u.drop_last() =~= slots.drop_last());
    } else {
        assert(u.drop_last() =~= slots.drop_last().update(i, v));
        lemma_count_live_update(slots.drop_last(), i, v);
    }
}

/// Appending a slot adds its own contribution to the occupied count.
pub proof fn lemma_count_live_push(slots: Seq<Slot>, v: Slot)
    ensures
        count_live(slots.push(v)) == count_live(slots) + if v is Some {
            1int
        } else {
            0int
        },
{
    assert(slots.push(v).drop_last() =~= slots);
}

/// The entries of the occupied slots with a non-zero address, in slot order.
pub open spec fn live_entries(slots: Seq<Slot>) -> Seq<(usize, usize)>
    decreases slots.len(),
{
    if slots.len() == 0 {
        Seq::empty()
    } else {
        live_entries(slots.drop_last()) + if slots.last() is Some && slots.last().unwrap().0 != 0 {
            seq![slots.last().unwrap()]
        } else {
            Seq::empty()
        }
    }
}

/// Sum of the sizes recorded in the occupied slots with a non-zero address.
pub open spec fn live_size_sum(slots: Seq<Slot>) -> int
    decreases slots.len(),
{
    if slots.len() == 0 {
        0
    } else {
        live_size_sum(slots.drop_last()) + if slots.last() is Some && slots.last().unwrap().0 != 0 {
            slots.last().unwrap().1 as int
        } else {
            0int
        }
    }
}

/// Sum of the sizes in a sequence of `(address, size)` entries.
pub open spec fn entry_size_sum(entries: Seq<(usize, usize)>) -> int
    decreases entries.len(),
{
    if entries.len() == 0 {
        0
    } else {
        entry_size_sum(entries.drop_last()) + entries.last().1 as int
    }
}

/// The size total a snapshot reports equals the sum over the entries it
/// lists.
pub proof fn lemma_snapshot_sum(slots: Seq<Slot>)
    ensures
        live_size_sum(slots) == entry_size_sum(live_entries(slots)),
    decreases slots.len(),
{
    if slots.len() > 0 {
        lemma_snapshot_sum(slots.drop_last());
        if slots.last() is Some && slots.last().unwrap().0 != 0 {
            let e = live_entries(slots.drop_last()).push(slots.last().unwrap());
            assert(live_entries(slots) =~= e);
            assert(e.drop_last() =~= live_entries(slots.drop_last()));
        } else {
            assert(live_entries(slots) =~= live_entries(slots.drop_last()));
        }
    }
}

/// The live-address table: a slot per recorded allocation, and a stack of
/// empty slot indices kept for reuse so the table does not grow without
/// bound.
pub struct AddressTable {
    slots: SpecialVec<Slot>,
    free: SpecialVec<usize>,
}

impl View for AddressTable {
    type V = TableModel;

    closed spec fn view(&self) -> TableModel {
        TableModel {
            slots: self.slots@,
            slots_cap: self.slots.spec_cap(),
            free: self.free@,
            free_cap: self.free.spec_cap(),
        }
    }
}

impl AddressTable {
    /// An empty table.
    pub fn new() -> (t: Self)
        ensures
            t@ == TableModel::empty(),
            t@.wf(),
    {
        let t = AddressTable { slots: SpecialVec::new(), free: SpecialVec::new() };
        proof {
            assert(t@ =~= TableModel::empty());
        }
        t
    }

    /// First slot index holding `addr`, by linear scan.
    fn find_index(&self, addr: usize) -> (r: Option<usize>)
        ensures
            self@.find(addr) >= 0 ==> r == Some(self@.find(addr) as usize),
            self@.find(addr) == -1 ==> r is None,
    {
        let n = self.slots.len();
        let mut i: usize = 0;
        while i < n
            invariant
                i <= n,
                n == self@.slots.len(),
                forall|k: int| 0 <= k < i ==> !slot_matches(#[trigger] self@.slots[k], addr),
            decreases n - i,
        {
            let hit = match self.slots.get(i) {
                Some(entry) => entry.0 == addr,
                None => false,
            };
            if hit {
                proof {
                    lemma_find_skip(self@, addr, i as int);
                }
                return Some(i);
            }
            i = i + 1;
        }
        proof {
            lemma_find_skip(self@, addr, n as int);
        }
        None
    }

    /// Records `(addr, size)`, reusing the top free slot when one exists and
    /// appending a slot otherwise.
    pub fn record(&mut self, addr: usize, size: usize)
        requires
            old(self)@.wf(),
            addr != 0,
            size > 0,
            !old(self)@.contains_addr(addr),
            old(self)@.slots.len() < usize::MAX / 2,
        ensures
            final(self)@ == old(self)@.spec_record(addr, size),
            final(self)@.wf(),
    {
        proof {
            lemma_record_wf(old(self)@, addr, size);
        }
        match self.free.pop() {
            Some(i) => {
                self.slots.set(i, Some((addr, size)));
            },
            None => {
                self.slots.push(Some((addr, size)));
            },
        }
        proof {
            assert(final(self)@ =~= old(self)@.spec_record(addr, size));
        }
    }

    /// Forgets `addr`: empties the first slot holding it, pushes that slot's
    /// index onto the free list and returns the recorded size; returns `None`
    /// and changes nothing when the address is unknown.
    pub fn forget(&mut self, addr: usize) -> (r: Option<usize>)
        requires
            old(self)@.wf(),
            old(self)@.free.len() < usize::MAX / 2,
        ensures
            final(self)@ == old(self)@.spec_forget(addr),
            r == old(self)@.spec_forget_result(addr),
            final(self)@.wf(),
    {
        proof {
            lemma_forget_wf(old(self)@, addr);
            lemma_find_characterizes(old(self)@, addr);
        }
        match self.find_index(addr) {
            Some(i) => {
                let size = match self.slots.get(i) {
                    Some(entry) => entry.1,
                    None => 0,
                };
                self.slots.set(i, None);
                self.free.push(i);
                proof {
                    assert(final(self)@ =~= old(self)@.spec_forget(addr));
                }
                Some(size)
            },
            None => None,
        }
    }
}

/// One allocator event, carrying the sizes requested and the addresses the
/// operating-system allocator returned.
pub enum AllocEvent {
    /// An allocation of `size` bytes that returned `addr` (zero on failure).
    Alloc { addr: usize, size: usize },
    /// A zeroed allocation of `size` bytes that returned `addr`.
    AllocZeroed { addr: usize, size: usize },
    /// A deallocation of `size` bytes at `addr`.
    Dealloc { addr: usize, size: usize },
    /// A reallocation of the block at `old_addr` from `old_size` to
    /// `new_size` bytes that returned `new_addr` (zero on failure).
    Realloc { old_addr: usize, old_size: usize, new_size: usize, new_addr: usize },
}

/// The mathematical state of an instrumenting allocator: the counter block
/// and the live-address table.
#[verifier::ext_equal]
pub ghost struct AllocModel {
    pub stats: Stats,
    pub table: TableModel,
}

/// The state of a fresh instrumenting allocator: zero counters, empty table.
pub open spec fn initial_model() -> AllocModel {
    AllocModel { stats: zero_stats(), table: TableModel::empty() }
}

/// The event respects the machine's and the operating-system allocator's
/// limits: sizes are non-zero, counters do not overflow, a returned address
/// is not one that is still live, and the table stays addressable.
pub open spec fn step_ok(m: AllocModel, e: AllocEvent) -> bool {
    match e {
        AllocEvent::Alloc { addr, size } | AllocEvent::AllocZeroed { addr, size } => {
            &&& size > 0
            &&& m.stats.allocations + 1 <= usize::MAX
            &&& m.stats.bytes_allocated + size <= usize::MAX
            &&& addr != 0 ==> !m.table.contains_addr(addr) && m.table.slots.len() < usize::MAX / 2
        },
        AllocEvent::Dealloc { addr, size } => {
            &&& m.stats.deallocations + 1 <= usize::MAX
            &&& m.stats.bytes_deallocated + size <= usize::MAX
            &&& m.table.free.len() < usize::MAX / 2
        },
        AllocEvent::Realloc { old_addr, old_size, new_size, new_addr } => {
            let forgotten = m.table.spec_forget(old_addr);
            &&& new_size > 0
            &&& m.stats.reallocations + 1 <= usize::MAX
            &&& new_size > old_size ==> m.stats.bytes_allocated + (new_size - old_size)
                <= usize::MAX
            &&& new_size < old_size ==> m.stats.bytes_deallocated + (old_size - new_size)
                <= usize::MAX
            &&& -isize::MAX <= new_size - old_size <= isize::MAX
            &&& isize::MIN <= m.stats.bytes_reallocated + new_size - old_size <= isize::MAX
            &&& m.table.free.len() < usize::MAX / 2
            &&& new_addr != 0 ==> !forgotten.contains_addr(new_addr) && forgotten.slots.len()
                < usize::MAX / 2
        },
    }
}

/// The state after one event: counters updated by the rules of the counter
/// block, then the table updated; a zero result address is counted but not
/// recorded.
pub open spec fn step(m: AllocModel, e: AllocEvent) -> AllocModel {
    match e {
        AllocEvent::Alloc { addr, size } | AllocEvent::AllocZeroed { addr, size } => AllocModel {
            stats: Stats {
                allocations: (m.stats.allocations + 1) as usize,
                bytes_allocated: (m.stats.bytes_allocated + size) as usize,
                ..m.stats
            },
            table: if addr != 0 {
                m.table.spec_record(addr, size)
            } else {
                m.table
            },
        },
        AllocEvent::Dealloc { addr, size } => AllocModel {
            stats: Stats {
                deallocations: (m.stats.deallocations + 1) as usize,
                bytes_deallocated: (m.stats.bytes_deallocated + size) as usize,
                ..m.stats
            },
            table: m.table.spec_forget(addr),
        },
        AllocEvent::Realloc { old_addr, old_size, new_size, new_addr } => {
            let forgotten = m.table.spec_forget(old_addr);
            AllocModel {
                stats: Stats {
                    reallocations: (m.stats.reallocations + 1) as usize,
                    bytes_allocated: if new_size > old_size {
                        (m.stats.bytes_allocated + (new_size - old_size)) as usize
                    } else {
                        m.stats.bytes_allocated
                    },
                    bytes_deallocated: if new_size < old_size {
                        (m.stats.bytes_deallocated + (old_size - new_size)) as usize
                    } else {
                        m.stats.bytes_deallocated
                    },
                    bytes_reallocated: (m.stats.bytes_reallocated + new_size - old_size) as isize,
                    ..m.stats
                },
                table: if new_addr != 0 {
                    forgotten.spec_record(new_addr, new_size)
                } else {
                    forgotten
                },
            }
        },
    }
}

/// An instrumenting middleware which keeps track of allocation,
/// deallocation, and reallocation events and of the addresses they leave
/// live.
pub struct StatsAlloc {
    allocations: usize,
    deallocations: usize,
    reallocations: usize,
    bytes_allocated: usize,
    bytes_deallocated: usize,
    bytes_reallocated: isize,
    table: AddressTable,
}

impl View for StatsAlloc {
    type V = AllocModel;

    closed spec fn view(&self) -> AllocModel {
        AllocModel {
            stats: Stats {
                allocations: self.allocations,
                deallocations: self.deallocations,
                reallocations: self.reallocations,
                bytes_allocated: self.bytes_allocated,
                bytes_deallocated: self.bytes_deallocated,
                bytes_reallocated: self.bytes_reallocated,
            },
            table: self.table@,
        }
    }
}

impl StatsAlloc {
    #[verifier::type_invariant]
    spec fn table_invariant(self) -> bool {
        self.table@.wf()
    }

    /// An instrumenting view of the system allocator, with zero counters and
    /// an empty table.
    pub fn system() -> (a: Self)
        ensures
            a@ == initial_model(),
    {
        let a = StatsAlloc {
            allocations: 0,
            deallocations: 0,
            reallocations: 0,
            bytes_allocated: 0,
            bytes_deallocated: 0,
            bytes_reallocated: 0,
            table: AddressTable::new(),
        };
        proof {
            assert(a@ =~~= initial_model());
        }
        a
    }

    /// A fresh instrumenting allocator, with zero counters and an empty
    /// table.
    pub fn new() -> (a: Self)
        ensures
            a@ == initial_model(),
    {
        StatsAlloc::system()
    }

    /// A snapshot of the current counter block.
    pub fn stats(&self) -> (s: Stats)
        ensures
            s == self@.stats,
    {
        Stats {
            allocations: self.allocations,
            deallocations: self.deallocations,
            reallocations: self.reallocations,
            bytes_allocated: self.bytes_allocated,
            bytes_deallocated: self.bytes_deallocated,
            bytes_reallocated: self.bytes_reallocated,
        }
    }

    /// Records one allocation: the counters are bumped even when the
    /// operating-system allocator failed (`addr == 0`); a successful address
    /// is recorded in the table.
    pub fn allocate(&mut self, addr: usize, size: usize)
        requires
            step_ok(old(self)@, AllocEvent::Alloc { addr, size }),
        ensures
            final(self)@ == step(old(self)@, AllocEvent::Alloc { addr, size }),
    {
        proof {
            use_type_invariant(&*self);
        }
        self.allocations = self.allocations + 1;
        self.bytes_allocated = self.bytes_allocated + size;
        if addr != 0 {
            let mut table = AddressTable::new();
            core::mem::swap(&mut self.table, &mut table);
            table.record(addr, size);
            core::mem::swap(&mut self.table, &mut table);
        }
        proof {
            assert(self@ =~~= step(old(self)@, AllocEvent::Alloc { addr, size }));
        }
    }

    /// Records one zeroed allocation; the bookkeeping is that of `alloc`.
    pub fn alloc_zeroed(&mut self, addr: usize, size: usize)
        requires
            step_ok(old(self)@, AllocEvent::AllocZeroed { addr, size }),
        ensures
            final(self)@ == step(old(self)@, AllocEvent::AllocZeroed { addr, size }),
    {
        proof {
            use_type_invariant(&*self);
        }
        self.allocations = self.allocations + 1;
        self.bytes_allocated = self.bytes_allocated + size;
        if addr != 0 {
            let mut table = AddressTable::new();
            core::mem::swap(&mut self.table, &mut table);
            table.record(addr, size);
            core::mem::swap(&mut self.table, &mut table);
        }
        proof {
            assert(self@ =~~= step(old(self)@, AllocEvent::AllocZeroed { addr, size }));
        }
    }

    /// Records one deallocation: the counters are bumped whether or not the
    /// address was ever recorded; a recorded address leaves the table.
    pub fn dealloc(&mut self, addr: usize, size: usize)
        requires
            step_ok(old(self)@, AllocEvent::Dealloc { addr, size }),
        ensures
            final(self)@ == step(old(self)@, AllocEvent::Dealloc { addr, size }),
    {
        proof {
            use_type_invariant(&*self);
        }
        self.deallocations = self.deallocations + 1;
        self.bytes_deallocated = self.bytes_deallocated + size;
        let mut table = AddressTable::new();
        core::mem::swap(&mut self.table, &mut table);
        let _ = table.forget(addr);
        core::mem::swap(&mut self.table, &mut table);
        proof {
            assert(self@ =~~= step(old(self)@, AllocEvent::Dealloc { addr, size }));
        }
    }

    /// Records one reallocation: the byte counters move by the size
    /// difference, the old address is forgotten, and a successful new address
    /// is recorded.
    pub fn realloc(&mut self, old_addr: usize, old_size: usize, new_size: usize, new_addr: usize)
        requires
            step_ok(
                old(self)@,
                AllocEvent::Realloc { old_addr, old_size, new_size, new_addr },
            ),
        ensures
            final(self)@ == step(
                old(self)@,
                AllocEvent::Realloc { old_addr, old_size, new_size, new_addr },
            ),
    {
        proof {
            use_type_invariant(&*self);
        }
        self.reallocations = self.reallocations + 1;
        if new_size > old_size {
            self.bytes_allocated = self.bytes_allocated + (new_size - old_size);
        } else if new_size < old_size {
            self.bytes_deallocated = self.bytes_deallocated + (old_size - new_size);
        }
        if new_size >= old_size {
            self.bytes_reallocated = self.bytes_reallocated + (new_size - old_size) as isize;
        } else {
            self.bytes_reallocated = self.bytes_reallocated - (old_size - new_size) as isize;
        }
        let mut table = AddressTable::new();
        core::mem::swap(&mut self.table, &mut table);
        let _ = table.forget(old_addr);
        if new_addr != 0 {
            table.record(new_addr, new_size);
        }
        core::mem::swap(&mut self.table, &mut table);
        proof {
            assert(self@ =~~= step(
                old(self)@,
                AllocEvent::Realloc { old_addr, old_size, new_size, new_addr },
            ));
        }
    }
}

/// Memory information about the program at one point in time.
#[derive(Debug)]
pub struct InfoProgram {
    /// The live allocations: each entry is an address paired with the byte
    /// count recorded at it.
    pub memory_map: SpecialVec<(usize, usize)>,
    /// The bytes held by the live allocations.
    pub memory_allocated: usize,
    /// The bytes held by the live allocations plus the bookkeeping capacity
    /// of the table itself.
    pub total_memory: usize,
}

/// Everything a snapshot reports, as a function of the table state alone:
/// the live entries, their byte total, and that total plus the bookkeeping
/// capacities.
pub open spec fn spec_snapshot(t: TableModel) -> (Seq<(usize, usize)>, int, int) {
    (
        live_entries(t.slots),
        live_size_sum(t.slots),
        live_size_sum(t.slots) + t.slots_cap + t.free_cap,
    )
}

/// Two snapshots with no intervening events read the same table state, so
/// they are equal: each field of the snapshot is a function of that state.
pub proof fn lemma_snapshot_deterministic(t1: TableModel, t2: TableModel)
    requires
        t1 == t2,
    ensures
        spec_snapshot(t1) == spec_snapshot(t2),
{
}

/// A prefix of the slots contributes at most the whole table's byte total.
proof fn lemma_live_size_sum_prefix(slots: Seq<Slot>, i: int)
    requires
        0 <= i <= slots.len(),
    ensures
        0 <= live_size_sum(slots.take(i)) <= live_size_sum(slots),
    decreases slots.len() - i,
{
    if i == slots.len() {
        assert(slots.take(i) =~= slots);
        lemma_live_size_sum_nonneg(slots);
    } else {
        assert(slots.take(i + 1).drop_last() =~= slots.take(i));
        assert(slots.take(i + 1).last() == slots[i]);
        lemma_live_size_sum_nonneg(slots.take(i));
        lemma_live_size_sum_prefix(slots, i + 1);
    }
}

/// The byte total of live slots is never negative.
proof fn lemma_live_size_sum_nonneg(slots: Seq<Slot>)
    ensures
        live_size_sum(slots) >= 0,
    decreases slots.len(),
{
    if slots.len() > 0 {
        lemma_live_size_sum_nonneg(slots.drop_last());
    }
}

/// Retrieves the current program information: one pass over the table
/// collects the live entries and their byte total.
pub fn program_information(allocator: &StatsAlloc) -> (info: InfoProgram)
    requires
        live_size_sum(allocator@.table.slots) + allocator@.table.slots_cap
            + allocator@.table.free_cap <= usize::MAX,
        allocator@.table.slots.len() < usize::MAX / 2,
    ensures
        info.memory_map@ == spec_snapshot(allocator@.table).0,
        info.memory_allocated == spec_snapshot(allocator@.table).1,
        info.total_memory == spec_snapshot(allocator@.table).2,
        info.memory_allocated == entry_size_sum(info.memory_map@),
{
    let ghost slots = allocator@.table.slots;
    let n = allocator.table.slots.len();
    let mut vec: SpecialVec<(usize, usize)> = SpecialVec::new();
    let mut size: usize = 0;
    let mut i: usize = 0;
    proof {
        assert(slots.take(0) =~= Seq::empty());
    }
    while i < n
        invariant
            i <= n,
            n == slots.len(),
            slots == allocator@.table.slots,
            n < usize::MAX / 2,
            live_size_sum(slots) + allocator@.table.slots_cap + allocator@.table.free_cap
                <= usize::MAX,
            vec@ == live_entries(slots.take(i as int)),
            size == live_size_sum(slots.take(i as int)),
            vec@.len() <= i,
        decreases n - i,
    {
        proof {
            assert(slots.take(i + 1).drop_last() =~= slots.take(i as int));
            assert(slots.take(i + 1).last() == slots[i as int]);
            lemma_live_size_sum_prefix(slots, i + 1);
        }
        match *allocator.table.slots.get(i) {
            Some(entry) => {
                if entry.0 != 0 {
                    size = size + entry.1;
                    vec.push(entry);
                    proof {
                        assert(vec@ =~= live_entries(slots.take(i + 1)));
                    }
                }
            },
            None => {},
        }
        i = i + 1;
    }
    proof {
        assert(slots.take(n as int) =~= slots);
        lemma_snapshot_sum(slots);
    }
    let total = size + allocator.table.slots.cap() + allocator.table.free.cap();
    InfoProgram { memory_map: vec, memory_allocated: size, total_memory: total }
}

/// A snapshot of the counter block, which can be used to determine the
/// counter changes between two points in time on one allocator.
pub struct Region {
    initial_stats: Stats,
}

impl View for Region {
    type V = Stats;

    closed spec fn view(&self) -> Stats {
        self.initial_stats
    }
}

impl Region {
    /// Captures the allocator's current counters as the baseline.
    pub fn new(allocator: &StatsAlloc) -> (r: Region)
        ensures
            r@ == allocator@.stats,
    {
        Region { initial_stats: allocator.stats() }
    }

    /// The baseline: the counters as of creation or the last reset.
    pub fn initial(&self) -> (s: Stats)
        ensures
            s == self@,
    {
        self.initial_stats
    }

    /// The counters accumulated since the baseline.
    pub fn change(&self, allocator: &StatsAlloc) -> (d: Stats)
        requires
            stats_sub_ok(allocator@.stats, self@),
        ensures
            d == spec_stats_sub(allocator@.stats, self@),
    {
        allocator.stats().sub(self.initial_stats)
    }

    /// The counters accumulated since the baseline; the baseline moves to
    /// the allocator's current counters.
    pub fn change_and_reset(&mut self, allocator: &StatsAlloc) -> (d: Stats)
        requires
            stats_sub_ok(allocator@.stats, old(self)@),
        ensures
            d == spec_stats_sub(allocator@.stats, old(self)@),
            final(self)@ == allocator@.stats,
    {
        let latest = allocator.stats();
        let diff = latest.sub(self.initial_stats);
        self.initial_stats = latest;
        diff
    }

    /// Moves the baseline to the allocator's current counters.
    pub fn reset(&mut self, allocator: &StatsAlloc)
        ensures
            final(self)@ == allocator@.stats,
    {
        self.initial_stats = allocator.stats();
    }
}

/// The allocator state after a sequence of events.
pub open spec fn run(m: AllocModel, events: Seq<AllocEvent>) -> AllocModel
    decreases events.len(),
{
    if events.len() == 0 {
        m
    } else {
        step(run(m, events.drop_last()), events.last())
    }
}

/// Every event of the trace is within limits when it happens.
pub open spec fn trace_ok(m: AllocModel, events: Seq<AllocEvent>) -> bool
    decreases events.len(),
{
    events.len() == 0 || (trace_ok(m, events.drop_last()) && step_ok(
        run(m, events.drop_last()),
        events.last(),
    ))
}

/// The event touches the table: the allocation succeeded, or the address
/// being freed or moved is live.
pub open spec fn event_accounted(m: AllocModel, e: AllocEvent) -> bool {
    match e {
        AllocEvent::Alloc { addr, .. } | AllocEvent::AllocZeroed { addr, .. } => addr != 0,
        AllocEvent::Dealloc { addr, .. } => m.table.contains_addr(addr),
        AllocEvent::Realloc { old_addr, new_addr, .. } => m.table.contains_addr(old_addr)
            && new_addr != 0,
    }
}

/// Every event of the trace touches the table when it happens.
pub open spec fn trace_accounted(m: AllocModel, events: Seq<AllocEvent>) -> bool
    decreases events.len(),
{
    events.len() == 0 || (trace_accounted(m, events.drop_last()) && event_accounted(
        run(m, events.drop_last()),
        events.last(),
    ))
}

/// Signed sum, over the reallocations of the trace, of new size minus old
/// size.
pub open spec fn realloc_delta_sum(events: Seq<AllocEvent>) -> int
    decreases events.len(),
{
    if events.len() == 0 {
        0
    } else {
        realloc_delta_sum(events.drop_last()) + match events.last() {
            AllocEvent::Realloc { old_size, new_size, .. } => new_size - old_size,
            _ => 0,
        }
    }
}

/// One accounted event within limits keeps the table well-formed and moves
/// the occupied-slot count together with the counters.
proof fn lemma_step_counts(m: AllocModel, e: AllocEvent)
    requires
        m.table.wf(),
        step_ok(m, e),
        event_accounted(m, e),
    ensures
        step(m, e).table.wf(),
        count_live(step(m, e).table.slots) == count_live(m.table.slots) + match e {
            AllocEvent::Alloc { .. } | AllocEvent::AllocZeroed { .. } => 1int,
            AllocEvent::Dealloc { .. } => -1int,
            AllocEvent::Realloc { .. } => 0int,
        },
{
    match e {
        AllocEvent::Alloc { addr, size } | AllocEvent::AllocZeroed { addr, size } => {
            lemma_record_wf(m.table, addr, size);
            lemma_record_count(m.table, addr, size);
        },
        AllocEvent::Dealloc { addr, .. } => {
            lemma_forget_wf(m.table, addr);
            lemma_forget_count(m.table, addr);
        },
        AllocEvent::Realloc { old_addr, new_size, new_addr, .. } => {
            let forgotten = m.table.spec_forget(old_addr);
            lemma_forget_wf(m.table, old_addr);
            lemma_forget_count(m.table, old_addr);
            lemma_record_wf(forgotten, new_addr, new_size);
            lemma_record_count(forgotten, new_addr, new_size);
        },
    }
}

/// Recording occupies exactly one more slot.
proof fn lemma_record_count(t: TableModel, addr: usize, size: usize)
    requires
        t.wf(),
    ensures
        count_live(t.spec_record(addr, size).slots) == count_live(t.slots) + 1,
{
    if t.free.len() > 0 {
        let i = t.free.last() as int;
        assert(t.slots[i] is None);
        lemma_count_live_update(t.slots, i, Some((addr, size)));
    } else {
        lemma_count_live_push(t.slots, Some((addr, size)));
    }
}

/// Forgetting a live address empties exactly one slot.
proof fn lemma_forget_count(t: TableModel, addr: usize)
    requires
        t.wf(),
        t.contains_addr(addr),
    ensures
        count_live(t.spec_forget(addr).slots) == count_live(t.slots) - 1,
{
    lemma_find_characterizes(t, addr);
    let i = t.find(addr);
    lemma_count_live_update(t.slots, i, None);
}

/// Over any accounted trace within limits from a fresh allocator, the
/// difference between the allocation and deallocation counters equals the
/// number of occupied slots in the table.
pub proof fn lemma_counters_match_live_slots(events: Seq<AllocEvent>)
    requires
        trace_ok(initial_model(), events),
        trace_accounted(initial_model(), events),
    ensures
        run(initial_model(), events).table.wf(),
        run(initial_model(), events).stats.allocations - run(
            initial_model(),
            events,
        ).stats.deallocations == count_live(run(initial_model(), events).table.slots),
    decreases events.len(),
{
    if events.len() == 0 {
    } else {
        lemma_counters_match_live_slots(events.drop_last());
        lemma_step_counts(run(initial_model(), events.drop_last()), events.last());
    }
}

/// Over any trace within limits from a fresh allocator, the signed
/// reallocation byte counter equals the sum of the reallocations' size
/// deltas.
pub proof fn lemma_bytes_reallocated_is_delta_sum(events: Seq<AllocEvent>)
    requires
        trace_ok(initial_model(), events),
    ensures
        run(initial_model(), events).stats.bytes_reallocated == realloc_delta_sum(events),
    decreases events.len(),
{
    if events.len() > 0 {
        lemma_bytes_reallocated_is_delta_sum(events.drop_last());
    }
}

/// The table operations performed inside a guarded section are functions of
/// the table alone: recording or forgetting moves no counter, so no
/// allocator event is observed while the guard is held. (That their storage
/// also bypasses the instrumented allocator is a property of the runtime's
/// dispatch, outside this model.)
pub proof fn lemma_guarded_table_ops_move_no_counters(m: AllocModel, addr: usize, size: usize)
    ensures
        (AllocModel { table: m.table.spec_record(addr, size), ..m }).stats == m.stats,
        (AllocModel { table: m.table.spec_forget(addr), ..m }).stats == m.stats,
{
}

/// After a successful forget of `addr`, the slot that held it tops the free
/// list, and the next record reuses exactly that slot rather than growing
/// the table.
pub proof fn lemma_forget_then_record_reuses_slot(
    t: TableModel,
    addr: usize,
    new_addr: usize,
    new_size: usize,
)
    requires
        t.wf(),
        t.contains_addr(addr),
    ensures
        ({
            let i = t.find(addr);
            let after = t.spec_forget(addr);
            &&& 0 <= i < t.slots.len() && slot_matches(t.slots[i], addr)
            &&& t.spec_forget_result(addr) == Some(t.slots[i].unwrap().1)
            &&& after.free.len() > 0 && after.free.last() == i as usize
            &&& after.slots[i] is None
            &&& after.spec_record(new_addr, new_size).slots == after.slots.update(
                i,
                Some((new_addr, new_size)),
            )
            &&& after.spec_record(new_addr, new_size).slots.len() == after.slots.len()
        }),
{
    lemma_find_characterizes(t, addr);
}

} // verus!
