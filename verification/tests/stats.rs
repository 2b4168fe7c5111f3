use stats_alloc_map::stats::{program_information, Region, Stats, StatsAlloc};

#[test]
fn fresh_process_single_allocation() {
    let mut a = StatsAlloc::new();
    a.allocate(0xa000, 64);
    let info = program_information(&a);
    assert_eq!(info.memory_map.len(), 1);
    assert_eq!(*info.memory_map.get(0), (0xa000, 64));
    assert_eq!(info.memory_allocated, 64);
    let s = a.stats();
    assert_eq!(s.allocations, 1);
    assert_eq!(s.deallocations, 0);
}

#[test]
fn alloc_then_free() {
    let mut a = StatsAlloc::new();
    a.allocate(0xa000, 64);
    a.dealloc(0xa000, 64);
    let info = program_information(&a);
    assert_eq!(info.memory_map.len(), 0);
    assert_eq!(info.memory_allocated, 0);
    let s = a.stats();
    assert_eq!(s.allocations, 1);
    assert_eq!(s.deallocations, 1);
    assert_eq!(s.bytes_allocated, 64);
    assert_eq!(s.bytes_deallocated, 64);
    // The next allocation of any size reuses slot 0: one slot of table
    // capacity and one free-list slot, so the bookkeeping overhead stays at
    // 1 + 1 bytes-of-capacity in entries.
    a.allocate(0xb000, 32);
    let info = program_information(&a);
    assert_eq!(info.memory_map.len(), 1);
    assert_eq!(*info.memory_map.get(0), (0xb000, 32));
    assert_eq!(info.memory_allocated, 32);
    assert_eq!(info.total_memory, 32 + 1 + 1);
}

#[test]
fn realloc_grow() {
    let mut a = StatsAlloc::new();
    a.allocate(0xa000, 16);
    a.realloc(0xa000, 16, 48, 0xb000);
    let info = program_information(&a);
    assert_eq!(info.memory_map.len(), 1);
    assert_eq!(*info.memory_map.get(0), (0xb000, 48));
    let s = a.stats();
    assert_eq!(s.bytes_allocated, 16 + 32);
    assert_eq!(s.bytes_reallocated, 32);
    assert_eq!(s.reallocations, 1);
}

#[test]
fn realloc_grow_in_place() {
    let mut a = StatsAlloc::new();
    a.allocate(0xa000, 16);
    a.realloc(0xa000, 16, 48, 0xa000);
    let info = program_information(&a);
    assert_eq!(info.memory_map.len(), 1);
    assert_eq!(*info.memory_map.get(0), (0xa000, 48));
    assert_eq!(a.stats().bytes_reallocated, 32);
}

#[test]
fn realloc_shrink() {
    let mut a = StatsAlloc::new();
    a.allocate(0xa000, 64);
    a.realloc(0xa000, 64, 16, 0xb000);
    let s = a.stats();
    assert_eq!(s.bytes_deallocated, 48);
    assert_eq!(s.bytes_reallocated, -48);
    let info = program_information(&a);
    assert_eq!(info.memory_map.len(), 1);
    assert_eq!(*info.memory_map.get(0), (0xb000, 16));
}

#[test]
fn dealloc_of_unknown_address_still_counts() {
    let mut a = StatsAlloc::new();
    a.dealloc(0xdead, 8);
    let s = a.stats();
    assert_eq!(s.deallocations, 1);
    assert_eq!(s.bytes_deallocated, 8);
    let info = program_information(&a);
    assert_eq!(info.memory_map.len(), 0);
}

#[test]
fn failed_allocation_counts_but_is_not_recorded() {
    let mut a = StatsAlloc::new();
    a.allocate(0, 128);
    let s = a.stats();
    assert_eq!(s.allocations, 1);
    assert_eq!(s.bytes_allocated, 128);
    let info = program_information(&a);
    assert_eq!(info.memory_map.len(), 0);
    assert_eq!(info.memory_allocated, 0);
}

#[test]
fn alloc_zeroed_counts_as_allocation() {
    let mut a = StatsAlloc::new();
    a.alloc_zeroed(0xa000, 24);
    let s = a.stats();
    assert_eq!(s.allocations, 1);
    assert_eq!(s.bytes_allocated, 24);
    let info = program_information(&a);
    assert_eq!(*info.memory_map.get(0), (0xa000, 24));
}

// Alternating allocation and deallocation under load, as a thread pool
// produces it; here replayed as one serialized event sequence.
#[test]
fn concurrent_load() {
    let mut a = StatsAlloc::new();
    let mut seed: u64 = 0x2545f4914f6cdd1d;
    for thread in 0..8u64 {
        for k in 0..10000u64 {
            seed = seed.wrapping_mul(6364136223846793005).wrapping_add(1442695040888963407);
            let size = (seed % 4096 + 1) as usize;
            let addr = (0x1000 + thread * 0x100000 + k) as usize;
            a.allocate(addr, size);
            a.dealloc(addr, size);
        }
    }
    let s = a.stats();
    assert_eq!(s.allocations, 80000);
    assert_eq!(s.deallocations, 80000);
    assert_eq!(s.bytes_allocated, s.bytes_deallocated);
    let info = program_information(&a);
    assert_eq!(info.memory_map.len(), 0);
    assert_eq!(info.memory_allocated, 0);
}

#[test]
fn stats_default_is_zero() {
    let z = Stats::default();
    assert_eq!(z.allocations, 0);
    assert_eq!(z.deallocations, 0);
    assert_eq!(z.reallocations, 0);
    assert_eq!(z.bytes_allocated, 0);
    assert_eq!(z.bytes_deallocated, 0);
    assert_eq!(z.bytes_reallocated, 0);
}

#[test]
fn stats_sub_is_elementwise() {
    let a = Stats {
        allocations: 10,
        deallocations: 4,
        reallocations: 3,
        bytes_allocated: 1000,
        bytes_deallocated: 400,
        bytes_reallocated: -16,
    };
    let b = Stats {
        allocations: 6,
        deallocations: 1,
        reallocations: 3,
        bytes_allocated: 300,
        bytes_deallocated: 100,
        bytes_reallocated: 32,
    };
    let d = a.sub(b);
    assert_eq!(d.allocations, 4);
    assert_eq!(d.deallocations, 3);
    assert_eq!(d.reallocations, 0);
    assert_eq!(d.bytes_allocated, 700);
    assert_eq!(d.bytes_deallocated, 300);
    assert_eq!(d.bytes_reallocated, -48);
}

#[test]
fn stats_sub_inverts_add() {
    let a = Stats {
        allocations: 10,
        deallocations: 4,
        reallocations: 3,
        bytes_allocated: 1000,
        bytes_deallocated: 400,
        bytes_reallocated: -16,
    };
    let b = Stats {
        allocations: 6,
        deallocations: 1,
        reallocations: 2,
        bytes_allocated: 300,
        bytes_deallocated: 100,
        bytes_reallocated: 32,
    };
    // a + b, written out elementwise, then minus b, is a again.
    let sum = Stats {
        allocations: a.allocations + b.allocations,
        deallocations: a.deallocations + b.deallocations,
        reallocations: a.reallocations + b.reallocations,
        bytes_allocated: a.bytes_allocated + b.bytes_allocated,
        bytes_deallocated: a.bytes_deallocated + b.bytes_deallocated,
        bytes_reallocated: a.bytes_reallocated + b.bytes_reallocated,
    };
    assert_eq!(sum.sub(b), a);
}

#[test]
fn region_reports_change() {
    let mut a = StatsAlloc::new();
    a.allocate(0xa000, 64);
    let r = Region::new(&a);
    assert_eq!(r.initial().allocations, 1);
    a.allocate(0xb000, 32);
    a.dealloc(0xa000, 64);
    let d = r.change(&a);
    assert_eq!(d.allocations, 1);
    assert_eq!(d.deallocations, 1);
    assert_eq!(d.bytes_allocated, 32);
    assert_eq!(d.bytes_deallocated, 64);
}

#[test]
fn change_and_reset_idempotent_when_quiescent() {
    let mut a = StatsAlloc::new();
    let mut r = Region::new(&a);
    a.allocate(0xa000, 64);
    let first = r.change_and_reset(&a);
    assert_eq!(first.allocations, 1);
    assert_eq!(first.bytes_allocated, 64);
    // No events in between: the second delta is the zero block, and the
    // baseline stays where the first call put it.
    let second = r.change_and_reset(&a);
    assert_eq!(second, Stats::default());
    assert_eq!(r.initial(), a.stats());
}

#[test]
fn region_reset_moves_baseline() {
    let mut a = StatsAlloc::new();
    let mut r = Region::new(&a);
    a.allocate(0xa000, 8);
    r.reset(&a);
    let d = r.change(&a);
    assert_eq!(d, Stats::default());
}

#[test]
fn snapshots_without_events_are_equal() {
    let mut a = StatsAlloc::new();
    a.allocate(0xa000, 64);
    a.allocate(0xb000, 16);
    let one = program_information(&a);
    let two = program_information(&a);
    assert_eq!(one.memory_allocated, two.memory_allocated);
    assert_eq!(one.total_memory, two.total_memory);
    assert_eq!(one.memory_map.len(), two.memory_map.len());
    for i in 0..one.memory_map.len() {
        assert_eq!(*one.memory_map.get(i), *two.memory_map.get(i));
    }
}

#[test]
fn total_memory_adds_bookkeeping_capacity() {
    let mut a = StatsAlloc::new();
    a.allocate(0xa000, 10);
    a.allocate(0xb000, 20);
    a.allocate(0xc000, 30);
    // Three pushes grow the slot capacity 0 -> 1 -> 2 -> 4; nothing was
    // freed, so the free list has no capacity.
    let info = program_information(&a);
    assert_eq!(info.memory_allocated, 60);
    assert_eq!(info.total_memory, 60 + 4 + 0);
}
