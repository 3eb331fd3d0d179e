//! The single-pass liveness analysis of the safepoint spill pass.
//!
//! Blocks are traversed in the externally supplied order (the host's
//! post-order CFG traversal), instructions from last to first. Defining a
//! value removes it from the live set and returns its slot, if any, to the
//! free pool; a safepoint (a call that is not a return) allocates a slot
//! for every live GC-managed value and records one stack-map entry per
//! value, in ascending value order; a use inserts the (alias-resolved)
//! value into the live set. Branch arguments count as uses, which
//! over-approximates liveness but needs no fixed point.
//!
//! The executable pass is specified exactly against the `s_scan` mirror,
//! so its result — the slot map, the slots created, and every stack-map
//! record — is a pure function of the function, the GC-managed set, and
//! the traversal order.

use vstd::prelude::*;
use crate::func::Function;
use crate::func::FunctionBuilder;
use crate::func::GBlock;
use crate::func::GInst;
use crate::func::StackMapEntry;
use crate::func::StackSlotData;
use crate::func::builder_wf;
use crate::func::func_wf;
use crate::func::g_block;
use crate::func::g_func;
use crate::func::g_inst;
use crate::func::width_ok;
use crate::idset::IdSet;
use crate::idset::del;
use crate::idset::ins;
use crate::idset::lemma_ins_contains;
use crate::idset::sorted;
use crate::slots::SlotSize;
use crate::slots::SlotSizeMap;
use crate::slots::bucket;
use crate::slots::pool_view;
use crate::slots::spec_slot_index;

verus! {

/// The state of the backward scan: the slot map (indexed by value), the
/// free pool (five buckets), the live set (sorted), all stack slots (the
/// function's plus those created so far), and the stack-map records made
/// so far, each as (block, instruction index, entries).
#[verifier::ext_equal]
pub ghost struct ScanSt {
    pub slot_map: Seq<Option<u32>>,
    pub free: Seq<Seq<u32>>,
    pub live: Seq<u32>,
    pub slots: Seq<StackSlotData>,
    pub maps: Seq<(u32, u32, Seq<StackMapEntry>)>,
}

/// Defining `v`: it leaves the live set, and its slot, if it has one, goes
/// back to the pool bucket for its width.
pub open spec fn s_def(f: Function, st: ScanSt, v: u32) -> ScanSt {
    let live1 = del(st.live, v);
    match st.slot_map[v as int] {
        Some(slot) => {
            let bk = bucket(f.value_types@[v as int].bytes);
            ScanSt { live: live1, free: st.free.update(bk, st.free[bk].push(slot)), ..st }
        },
        None => ScanSt { live: live1, ..st },
    }
}

pub open spec fn s_defs(f: Function, st: ScanSt, vals: Seq<u32>, k: int) -> ScanSt
    decreases vals.len() - k,
        when 0 <= k
{
    if k >= vals.len() {
        st
    } else {
        s_defs(f, s_def(f, st, vals[k]), vals, k + 1)
    }
}

/// Ensure `v` has a slot: reuse the most recently freed slot of its width,
/// or create a fresh one (its id is the next slot index).
pub open spec fn s_sp_one(f: Function, st: ScanSt, v: u32) -> (ScanSt, u32) {
    match st.slot_map[v as int] {
        Some(s) => (st, s),
        None => {
            let bk = bucket(f.value_types@[v as int].bytes);
            if st.free[bk].len() > 0 {
                let s = st.free[bk].last();
                (
                    ScanSt {
                        slot_map: st.slot_map.update(v as int, Some(s)),
                        free: st.free.update(bk, st.free[bk].drop_last()),
                        ..st
                    },
                    s,
                )
            } else {
                let s = st.slots.len() as u32;
                (
                    ScanSt {
                        slot_map: st.slot_map.update(v as int, Some(s)),
                        slots: st.slots.push(
                            StackSlotData {
                                size: f.value_types@[v as int].bytes,
                                log2_align: bucket(f.value_types@[v as int].bytes) as u32,
                            },
                        ),
                        ..st
                    },
                    s,
                )
            }
        },
    }
}

/// One stack-map entry per live value, in the live set's (ascending)
/// order.
pub open spec fn s_sp_fold(
    f: Function,
    st: ScanSt,
    live0: Seq<u32>,
    k: int,
    acc: Seq<StackMapEntry>,
) -> (ScanSt, Seq<StackMapEntry>)
    decreases live0.len() - k,
        when 0 <= k
{
    if k >= live0.len() {
        (st, acc)
    } else {
        let v = live0[k];
        let r = s_sp_one(f, st, v);
        s_sp_fold(
            f,
            r.0,
            live0,
            k + 1,
            acc.push(StackMapEntry { ty: f.value_types@[v as int], slot: r.1, offset: 0 }),
        )
    }
}

/// A safepoint: record one entry per live value on instruction `(b, i)`.
pub open spec fn s_safepoint(f: Function, st: ScanSt, b: u32, i: u32) -> ScanSt {
    let r = s_sp_fold(f, st, st.live, 0, Seq::<StackMapEntry>::empty());
    ScanSt { maps: r.0.maps.push((b, i, r.1)), ..r.0 }
}

/// Uses: every operand, alias-resolved, joins the live set if it is
/// GC-managed.
pub open spec fn s_uses(f: Function, gc: Seq<u32>, st: ScanSt, args: Seq<u32>, k: int) -> ScanSt
    decreases args.len() - k,
        when 0 <= k
{
    if k >= args.len() {
        st
    } else {
        let v = f.aliases@[args[k] as int];
        let st1 = if gc.contains(v) {
            ScanSt { live: ins(st.live, v), ..st }
        } else {
            st
        };
        s_uses(f, gc, st1, args, k + 1)
    }
}

/// One instruction, backward: defs, then the safepoint step (before uses,
/// so call operands dead afterwards stay out of the map), then uses.
pub open spec fn s_inst(f: Function, gc: Seq<u32>, st: ScanSt, b: u32, i: u32) -> ScanSt {
    let inst = f.blocks@[b as int].insts@[i as int];
    let st1 = s_defs(f, st, inst.results@, 0);
    let st2 = if inst.opcode.is_call && !inst.opcode.is_return {
        s_safepoint(f, st1, b, i)
    } else {
        st1
    };
    s_uses(f, gc, st2, inst.args@, 0)
}

/// The instructions of block `b` with index `>= i`, processed from the
/// last to the first.
pub open spec fn s_insts_rev(f: Function, gc: Seq<u32>, st: ScanSt, b: u32, i: int) -> ScanSt
    decreases f.blocks@[b as int].insts@.len() - i,
        when 0 <= i
{
    if i >= f.blocks@[b as int].insts@.len() {
        st
    } else {
        s_inst(f, gc, s_insts_rev(f, gc, st, b, i + 1), b, i as u32)
    }
}

/// A whole block: its instructions backward, then its parameters as defs
/// (parameters are defined at block entry, so they come last backward).
pub open spec fn s_block_scan(f: Function, gc: Seq<u32>, st: ScanSt, b: u32) -> ScanSt {
    s_defs(f, s_insts_rev(f, gc, st, b, 0), f.blocks@[b as int].params@, 0)
}

pub open spec fn s_order(f: Function, gc: Seq<u32>, st: ScanSt, order: Seq<u32>, k: int) -> ScanSt
    decreases order.len() - k,
        when 0 <= k
{
    if k >= order.len() {
        st
    } else {
        s_order(f, gc, s_block_scan(f, gc, st, order[k]), order, k + 1)
    }
}

/// The scan's initial state: no slot assignments, empty pool, empty live
/// set, the function's existing slots, no records.
pub open spec fn init_scan(f: Function) -> ScanSt {
    ScanSt {
        slot_map: Seq::new(f.value_types@.len(), |i: int| None),
        free: seq![
            Seq::<u32>::empty(),
            Seq::<u32>::empty(),
            Seq::<u32>::empty(),
            Seq::<u32>::empty(),
            Seq::<u32>::empty(),
        ],
        live: Seq::<u32>::empty(),
        slots: f.stack_slots@,
        maps: Seq::<(u32, u32, Seq<StackMapEntry>)>::empty(),
    }
}

/// The whole analysis as a pure function of the function, the GC-managed
/// set, and the block order.
pub open spec fn s_scan(f: Function, gc: Seq<u32>, order: Seq<u32>) -> ScanSt {
    s_order(f, gc, init_scan(f), order, 0)
}

/// How many values have been assigned a slot.
pub open spec fn count_some(sm: Seq<Option<u32>>) -> nat
    decreases sm.len(),
{
    if sm.len() == 0 {
        0
    } else {
        count_some(sm.drop_last()) + (if sm.last() is Some {
            1nat
        } else {
            0nat
        })
    }
}

proof fn lemma_count_some_le(sm: Seq<Option<u32>>)
    ensures
        count_some(sm) <= sm.len(),
    decreases sm.len(),
{
    if sm.len() > 0 {
        lemma_count_some_le(sm.drop_last());
    }
}

proof fn lemma_count_some_update(sm: Seq<Option<u32>>, v: int, s: u32)
    requires
        0 <= v < sm.len(),
        sm[v] is None,
    ensures
        count_some(sm.update(v, Some(s))) == count_some(sm) + 1,
    decreases sm.len(),
{
    let sm1 = sm.update(v, Some(s));
    if v == sm.len() - 1 {
        assert(sm1.drop_last() =~= sm.drop_last());
    } else {
        assert(sm1.drop_last() =~= sm.drop_last().update(v, Some(s)));
        lemma_count_some_update(sm.drop_last(), v, s);
        assert(sm1.last() == sm.last());
    }
}

/// The scan-state invariant the executable pass maintains: the slot map
/// covers all values, everything in the live set is a GC-managed value of
/// supported width, the live set is sorted, the pool has its five buckets,
/// and the number of slots is bounded by the slot assignments made.
pub open spec fn scan_inv(f: Function, gc: Seq<u32>, st: ScanSt) -> bool {
    &&& st.slot_map.len() == f.value_types@.len()
    &&& st.free.len() == 5
    &&& sorted(st.live)
    &&& forall|k: int| 0 <= k < st.live.len() ==> gc.contains(#[trigger] st.live[k])
    &&& forall|v: int|
        0 <= v < st.slot_map.len() && st.slot_map[v] is Some ==> width_ok(
            f.value_types@[v].bytes,
        )
    &&& st.slots.len() <= f.stack_slots@.len() + count_some(st.slot_map)
}

/// The GC-managed set is well formed with respect to `f`: sorted, in
/// range, and only of supported widths.
pub open spec fn gc_wf(f: Function, gc: Seq<u32>) -> bool {
    &&& sorted(gc)
    &&& forall|k: int| 0 <= k < gc.len() ==> #[trigger] gc[k] < f.value_types@.len()
    &&& forall|k: int| 0 <= k < gc.len() ==> width_ok(f.value_types@[#[trigger] gc[k] as int].bytes)
}

/// The lifted view of collected stack-map records.
pub open spec fn maps_view(m: Vec<(u32, u32, Vec<StackMapEntry>)>) -> Seq<
    (u32, u32, Seq<StackMapEntry>),
> {
    m@.map_values(|t: (u32, u32, Vec<StackMapEntry>)| (t.0, t.1, t.2@))
}

/// Defining one value during the backward scan.
fn process_def(
    f: &Function,
    slot_map: &mut Vec<Option<u32>>,
    free: &mut SlotSizeMap,
    live: &mut IdSet,
    v: u32,
    Ghost(st0): Ghost<ScanSt>,
)
    requires
        func_wf(*f),
        v < f.value_types@.len(),
        st0.slot_map == old(slot_map)@,
        st0.free == pool_view(*old(free)),
        st0.live == old(live)@,
        sorted(old(live)@),
        old(slot_map)@.len() == f.value_types@.len(),
        old(slot_map)@[v as int] is Some ==> width_ok(f.value_types@[v as int].bytes),
    ensures
        ({
            let st1 = s_def(*f, st0, v);
            &&& final(slot_map)@ == st1.slot_map
            &&& pool_view(*final(free)) == st1.free
            &&& final(live)@ == st1.live
            &&& sorted(final(live)@)
        }),
{
    live.remove(v);
    if let Some(slot) = slot_map[v as usize] {
        let ty = f.value_types[v as usize];
        let size = SlotSize::unwrap_new(ty.bytes);
        free.release(size, slot);
        proof {
            assert(spec_slot_index(size) == bucket(ty.bytes));
        }
    }
}

/// The safepoint step: give every live value a slot and collect one entry
/// per value, then record them for instruction `(b, i)`.
fn process_safepoint(
    f: &Function,
    slot_map: &mut Vec<Option<u32>>,
    free: &mut SlotSizeMap,
    live: &IdSet,
    new_slots: &mut Vec<StackSlotData>,
    maps: &mut Vec<(u32, u32, Vec<StackMapEntry>)>,
    b: u32,
    i: u32,
    Ghost(gc): Ghost<Seq<u32>>,
    Ghost(st0): Ghost<ScanSt>,
)
    requires
        func_wf(*f),
        f.stack_slots@.len() + f.value_types@.len() <= u32::MAX,
        gc_wf(*f, gc),
        st0.slot_map == old(slot_map)@,
        st0.free == pool_view(*old(free)),
        st0.live == live@,
        st0.slots == f.stack_slots@ + old(new_slots)@,
        st0.maps == maps_view(*old(maps)),
        scan_inv(*f, gc, st0),
    ensures
        ({
            let st1 = s_safepoint(*f, st0, b, i);
            &&& final(slot_map)@ == st1.slot_map
            &&& pool_view(*final(free)) == st1.free
            &&& st1.live == st0.live
            &&& f.stack_slots@ + final(new_slots)@ == st1.slots
            &&& maps_view(*final(maps)) == st1.maps
            &&& scan_inv(*f, gc, st1)
        }),
{
    let ghost live0 = live@;
    let mut entries: Vec<StackMapEntry> = Vec::new();
    let mut k: usize = 0;
    proof {
        assert(entries@ =~= Seq::<StackMapEntry>::empty());
    }
    while k < live.len()
        invariant
            func_wf(*f),
            f.stack_slots@.len() + f.value_types@.len() <= u32::MAX,
            gc_wf(*f, gc),
            live@ == live0,
            k <= live0.len(),
            slot_map@.len() == f.value_types@.len(),
            pool_view(*free).len() == 5,
            forall|j: int| 0 <= j < live0.len() ==> gc.contains(#[trigger] live0[j]),
            forall|v: int|
                0 <= v < slot_map@.len() && slot_map@[v] is Some ==> width_ok(
                    f.value_types@[v].bytes,
                ),
            f.stack_slots@.len() + new_slots@.len() <= f.stack_slots@.len() + count_some(
                slot_map@,
            ),
            s_sp_fold(
                *f,
                ScanSt {
                    slot_map: slot_map@,
                    free: pool_view(*free),
                    live: st0.live,
                    slots: f.stack_slots@ + new_slots@,
                    maps: st0.maps,
                },
                live0,
                k as int,
                entries@,
            ) == s_sp_fold(*f, st0, live0, 0, Seq::<StackMapEntry>::empty()),
        decreases live0.len() - k,
    {
        let ghost st_cur = ScanSt {
            slot_map: slot_map@,
            free: pool_view(*free),
            live: st0.live,
            slots: f.stack_slots@ + new_slots@,
            maps: st0.maps,
        };
        let v = live.get(k);
        proof {
            assert(gc.contains(live0[k as int]));
            let j = choose|j: int| 0 <= j < gc.len() && gc[j] == live0[k as int];
            assert(width_ok(f.value_types@[v as int].bytes));
            lemma_count_some_le(slot_map@);
        }
        let ty = f.value_types[v as usize];
        let slot: u32;
        match slot_map[v as usize] {
            Some(s) => {
                slot = s;
            },
            None => {
                let size = SlotSize::unwrap_new(ty.bytes);
                proof {
                    assert(spec_slot_index(size) == bucket(ty.bytes));
                }
                match free.take(size) {
                    Some(s) => {
                        slot = s;
                        slot_map.set(v as usize, Some(s));
                        proof {
                            lemma_count_some_update(st_cur.slot_map, v as int, s);
                        }
                    },
                    None => {
                        let fresh = (f.stack_slots.len() + new_slots.len()) as u32;
                        new_slots.push(
                            StackSlotData { size: ty.bytes, log2_align: size.index() as u32 },
                        );
                        slot_map.set(v as usize, Some(fresh));
                        slot = fresh;
                        proof {
                            lemma_count_some_update(st_cur.slot_map, v as int, fresh);
                            assert(f.stack_slots@ + new_slots@ =~= st_cur.slots.push(
                                StackSlotData {
                                    size: ty.bytes,
                                    log2_align: bucket(ty.bytes) as u32,
                                },
                            ));
                        }
                    },
                }
            },
        }
        entries.push(StackMapEntry { ty, slot, offset: 0 });
        k += 1;
    }
    maps.push((b, i, entries));
    proof {
        assert(maps_view(*maps) =~~= st0.maps.push(
            (b, i, s_sp_fold(*f, st0, live0, 0, Seq::<StackMapEntry>::empty()).1),
        ));
        lemma_count_some_le(slot_map@);
    }
}

/// The analysis proper: traverse the blocks in `order`, instructions from
/// last to first, and compute the slot map, the stack slots to create, and
/// the per-safepoint stack-map records — exactly `s_scan`.
fn scan_live(f: &Function, gc: &IdSet, order: &Vec<u32>) -> (r: (
    Vec<Option<u32>>,
    Vec<StackSlotData>,
    Vec<(u32, u32, Vec<StackMapEntry>)>,
))
    requires
        func_wf(*f),
        gc_wf(*f, gc@),
        f.stack_slots@.len() + f.value_types@.len() <= u32::MAX,
        forall|k: int| 0 <= k < order@.len() ==> #[trigger] order@[k] < f.blocks@.len(),
    ensures
        ({
            let sc = s_scan(*f, gc@, order@);
            &&& r.0@ == sc.slot_map
            &&& f.stack_slots@ + r.1@ == sc.slots
            &&& maps_view(r.2) == sc.maps
            &&& scan_inv(*f, gc@, sc)
        }),
{
    let mut slot_map: Vec<Option<u32>> = Vec::new();
    let mut n: usize = 0;
    while n < f.value_types.len()
        invariant
            n <= f.value_types@.len(),
            slot_map@ == Seq::new(n as nat, |i: int| None::<u32>),
        decreases f.value_types@.len() - n,
    {
        slot_map.push(None);
        proof {
            assert(slot_map@ =~= Seq::new((n + 1) as nat, |i: int| None::<u32>));
        }
        n += 1;
    }
    let mut free = SlotSizeMap::new();
    let mut live = IdSet::new();
    let mut new_slots: Vec<StackSlotData> = Vec::new();
    let mut maps: Vec<(u32, u32, Vec<StackMapEntry>)> = Vec::new();
    proof {
        let st = ScanSt {
            slot_map: slot_map@,
            free: pool_view(free),
            live: live@,
            slots: f.stack_slots@ + new_slots@,
            maps: maps_view(maps),
        };
        assert(st =~~= init_scan(*f));
        assert(maps_view(maps) =~~= Seq::<(u32, u32, Seq<StackMapEntry>)>::empty());
    }
    let mut k: usize = 0;
    while k < order.len()
        invariant
            func_wf(*f),
            gc_wf(*f, gc@),
            f.stack_slots@.len() + f.value_types@.len() <= u32::MAX,
            forall|j: int| 0 <= j < order@.len() ==> #[trigger] order@[j] < f.blocks@.len(),
            k <= order@.len(),
            ({
                let st = ScanSt {
                    slot_map: slot_map@,
                    free: pool_view(free),
                    live: live@,
                    slots: f.stack_slots@ + new_slots@,
                    maps: maps_view(maps),
                };
                &&& scan_inv(*f, gc@, st)
                &&& s_order(*f, gc@, st, order@, k as int) == s_scan(*f, gc@, order@)
            }),
        decreases order@.len() - k,
    {
        let b = order[k];
        let ghost st_entry = ScanSt {
            slot_map: slot_map@,
            free: pool_view(free),
            live: live@,
            slots: f.stack_slots@ + new_slots@,
            maps: maps_view(maps),
        };
        let mut idx: usize = f.blocks[b as usize].insts.len();
        while idx > 0
            invariant
                func_wf(*f),
                gc_wf(*f, gc@),
                f.stack_slots@.len() + f.value_types@.len() <= u32::MAX,
                b < f.blocks@.len(),
                idx <= f.blocks@[b as int].insts@.len(),
                ({
                    let st = ScanSt {
                        slot_map: slot_map@,
                        free: pool_view(free),
                        live: live@,
                        slots: f.stack_slots@ + new_slots@,
                        maps: maps_view(maps),
                    };
                    &&& scan_inv(*f, gc@, st)
                    &&& st == s_insts_rev(*f, gc@, st_entry, b, idx as int)
                }),
            decreases idx,
        {
            idx -= 1;
            let ghost st_inst = ScanSt {
                slot_map: slot_map@,
                free: pool_view(free),
                live: live@,
                slots: f.stack_slots@ + new_slots@,
                maps: maps_view(maps),
            };
            proof {
                assert(crate::func::inst_vals_wf(
                    f.blocks@[b as int].insts@[idx as int],
                    f.value_types@.len(),
                ));
            }
            let nres = f.blocks[b as usize].insts[idx].results.len();
            let mut j: usize = 0;
            while j < nres
                invariant
                    func_wf(*f),
                    gc_wf(*f, gc@),
                    b < f.blocks@.len(),
                    idx < f.blocks@[b as int].insts@.len(),
                    nres == f.blocks@[b as int].insts@[idx as int].results@.len(),
                    crate::func::inst_vals_wf(
                        f.blocks@[b as int].insts@[idx as int],
                        f.value_types@.len(),
                    ),
                    j <= nres,
                    ({
                        let st = ScanSt {
                            slot_map: slot_map@,
                            free: pool_view(free),
                            live: live@,
                            slots: f.stack_slots@ + new_slots@,
                            maps: maps_view(maps),
                        };
                        &&& scan_inv(*f, gc@, st)
                        &&& s_defs(
                            *f,
                            st,
                            f.blocks@[b as int].insts@[idx as int].results@,
                            j as int,
                        ) == s_defs(
                            *f,
                            st_inst,
                            f.blocks@[b as int].insts@[idx as int].results@,
                            0,
                        )
                    }),
                decreases nres - j,
            {
                let ghost st_j = ScanSt {
                    slot_map: slot_map@,
                    free: pool_view(free),
                    live: live@,
                    slots: f.stack_slots@ + new_slots@,
                    maps: maps_view(maps),
                };
                let v = f.blocks[b as usize].insts[idx].results[j];
                process_def(f, &mut slot_map, &mut free, &mut live, v, Ghost(st_j));
                proof {
                    let st1 = s_def(*f, st_j, v);
                    assert forall|y: int| 0 <= y < st1.live.len() implies gc@.contains(
                        #[trigger] st1.live[y],
                    ) by {
                        crate::idset::lemma_del_subset(st_j.live, v, st1.live[y]);
                        assert(st_j.live.contains(st1.live[y]));
                        let w = choose|w: int|
                            0 <= w < st_j.live.len() && st_j.live[w] == st1.live[y];
                    }
                }
                j += 1;
            }
            let opcode = f.blocks[b as usize].insts[idx].opcode;
            if opcode.is_call && !opcode.is_return {
                let ghost st_sp = ScanSt {
                    slot_map: slot_map@,
                    free: pool_view(free),
                    live: live@,
                    slots: f.stack_slots@ + new_slots@,
                    maps: maps_view(maps),
                };
                process_safepoint(
                    f,
                    &mut slot_map,
                    &mut free,
                    &live,
                    &mut new_slots,
                    &mut maps,
                    b,
                    idx as u32,
                    Ghost(gc@),
                    Ghost(st_sp),
                );
            }
            let ghost st_u = ScanSt {
                slot_map: slot_map@,
                free: pool_view(free),
                live: live@,
                slots: f.stack_slots@ + new_slots@,
                maps: maps_view(maps),
            };
            let nargs = f.blocks[b as usize].insts[idx].args.len();
            let mut j2: usize = 0;
            while j2 < nargs
                invariant
                    func_wf(*f),
                    gc_wf(*f, gc@),
                    b < f.blocks@.len(),
                    idx < f.blocks@[b as int].insts@.len(),
                    nargs == f.blocks@[b as int].insts@[idx as int].args@.len(),
                    crate::func::inst_vals_wf(
                        f.blocks@[b as int].insts@[idx as int],
                        f.value_types@.len(),
                    ),
                    j2 <= nargs,
                    ({
                        let st = ScanSt {
                            slot_map: slot_map@,
                            free: pool_view(free),
                            live: live@,
                            slots: f.stack_slots@ + new_slots@,
                            maps: maps_view(maps),
                        };
                        &&& scan_inv(*f, gc@, st)
                        &&& s_uses(
                            *f,
                            gc@,
                            st,
                            f.blocks@[b as int].insts@[idx as int].args@,
                            j2 as int,
                        ) == s_uses(
                            *f,
                            gc@,
                            st_u,
                            f.blocks@[b as int].insts@[idx as int].args@,
                            0,
                        )
                    }),
                decreases nargs - j2,
            {
                let ghost st_j = ScanSt {
                    slot_map: slot_map@,
                    free: pool_view(free),
                    live: live@,
                    slots: f.stack_slots@ + new_slots@,
                    maps: maps_view(maps),
                };
                let a = f.blocks[b as usize].insts[idx].args[j2];
                let v = f.aliases[a as usize];
                if gc.contains(v) {
                    live.insert(v);
                    proof {
                        assert forall|y: int| 0 <= y < live@.len() implies gc@.contains(
                            #[trigger] live@[y],
                        ) by {
                            lemma_ins_contains(st_j.live, v, live@[y]);
                            assert(st_j.live.contains(live@[y]) || live@[y] == v);
                            if st_j.live.contains(live@[y]) {
                                let w = choose|w: int|
                                    0 <= w < st_j.live.len() && st_j.live[w] == live@[y];
                            }
                        }
                        assert(live@.contains(v)) by {
                            lemma_ins_contains(st_j.live, v, v);
                        }
                    }
                }
                j2 += 1;
            }
        }
        let ghost st_params = ScanSt {
            slot_map: slot_map@,
            free: pool_view(free),
            live: live@,
            slots: f.stack_slots@ + new_slots@,
            maps: maps_view(maps),
        };
        let nparams = f.blocks[b as usize].params.len();
        let mut j3: usize = 0;
        while j3 < nparams
            invariant
                func_wf(*f),
                gc_wf(*f, gc@),
                b < f.blocks@.len(),
                nparams == f.blocks@[b as int].params@.len(),
                j3 <= nparams,
                ({
                    let st = ScanSt {
                        slot_map: slot_map@,
                        free: pool_view(free),
                        live: live@,
                        slots: f.stack_slots@ + new_slots@,
                        maps: maps_view(maps),
                    };
                    &&& scan_inv(*f, gc@, st)
                    &&& s_defs(*f, st, f.blocks@[b as int].params@, j3 as int) == s_defs(
                        *f,
                        st_params,
                        f.blocks@[b as int].params@,
                        0,
                    )
                }),
            decreases nparams - j3,
        {
            let ghost st_j = ScanSt {
                slot_map: slot_map@,
                free: pool_view(free),
                live: live@,
                slots: f.stack_slots@ + new_slots@,
                maps: maps_view(maps),
            };
            let v = f.blocks[b as usize].params[j3];
            process_def(f, &mut slot_map, &mut free, &mut live, v, Ghost(st_j));
            proof {
                let st1 = s_def(*f, st_j, v);
                assert forall|y: int| 0 <= y < st1.live.len() implies gc@.contains(
                    #[trigger] st1.live[y],
                ) by {
                    crate::idset::lemma_del_subset(st_j.live, v, st1.live[y]);
                    let w = choose|w: int| 0 <= w < st_j.live.len() && st_j.live[w] == st1.live[y];
                }
            }
            j3 += 1;
        }
        k += 1;
    }
    (slot_map, new_slots, maps)
}

/// Attaching the collected records: each `(b, i, entries)` appends
/// `entries` to the stack map of instruction `i` of block `b`.
pub open spec fn s_apply(
    bs: Seq<GBlock>,
    maps: Seq<(u32, u32, Seq<StackMapEntry>)>,
    k: int,
) -> Seq<GBlock>
    decreases maps.len() - k,
        when 0 <= k
{
    if k >= maps.len() {
        bs
    } else {
        let b = maps[k].0 as int;
        let i = maps[k].1 as int;
        let blk = bs[b];
        let inst = blk.insts[i];
        let inst1 = GInst { stack_map: inst.stack_map + maps[k].2, ..inst };
        s_apply(bs.update(b, GBlock { insts: blk.insts.update(i, inst1), ..blk }), maps, k + 1)
    }
}

/// Every record names an existing instruction.
pub open spec fn maps_keys_ok(bs: Seq<GBlock>, maps: Seq<(u32, u32, Seq<StackMapEntry>)>) -> bool {
    forall|k: int|
        0 <= k < maps.len() ==> {
            &&& (#[trigger] maps[k]).0 < bs.len()
            &&& maps[k].1 < bs[maps[k].0 as int].insts.len()
        }
}

/// Append each record's entries to its instruction's stack map.
fn apply_stack_maps(f: &mut Function, maps: &Vec<(u32, u32, Vec<StackMapEntry>)>)
    requires
        maps_keys_ok(g_func(*old(f)), maps_view(*maps)),
    ensures
        g_func(*final(f)) == s_apply(g_func(*old(f)), maps_view(*maps), 0),
        final(f).value_types == old(f).value_types,
        final(f).aliases == old(f).aliases,
        final(f).stack_slots == old(f).stack_slots,
{
    let ghost mv = maps_view(*maps);
    let mut k: usize = 0;
    while k < maps.len()
        invariant
            maps_keys_ok(g_func(*old(f)), mv),
            mv == maps_view(*maps),
            k <= mv.len(),
            f.blocks@.len() == old(f).blocks@.len(),
            forall|b: int|
                0 <= b < f.blocks@.len() ==> (#[trigger] f.blocks@[b]).insts@.len() == old(
                    f,
                ).blocks@[b].insts@.len(),
            s_apply(g_func(*f), mv, k as int) == s_apply(g_func(*old(f)), mv, 0),
            f.value_types == old(f).value_types,
            f.aliases == old(f).aliases,
            f.stack_slots == old(f).stack_slots,
        decreases mv.len() - k,
    {
        let ghost g_pre = g_func(*f);
        let b = maps[k].0;
        let i = maps[k].1;
        let mut blk = f.blocks.remove(b as usize);
        let ghost blk0 = blk;
        let mut inst = blk.insts.remove(i as usize);
        let ghost inst0 = inst;
        let n = maps[k].2.len();
        let mut j: usize = 0;
        while j < n
            invariant
                k < maps@.len(),
                n == maps@[k as int].2@.len(),
                j <= n,
                inst.opcode == inst0.opcode,
                inst.args == inst0.args,
                inst.results == inst0.results,
                inst.kind == inst0.kind,
                inst.stack_map@ == inst0.stack_map@ + maps@[k as int].2@.subrange(0, j as int),
            decreases n - j,
        {
            let e = maps[k].2[j];
            inst.stack_map.push(e);
            proof {
                assert(inst.stack_map@ =~= inst0.stack_map@ + maps@[k as int].2@.subrange(
                    0,
                    j + 1,
                ));
            }
            j += 1;
        }
        proof {
            assert(inst.stack_map@ =~= inst0.stack_map@ + maps@[k as int].2@);
        }
        blk.insts.insert(i as usize, inst);
        f.blocks.insert(b as usize, blk);
        proof {
            let inst1 = GInst { stack_map: g_inst(inst0).stack_map + mv[k as int].2, ..g_inst(inst0) };
            assert(g_inst(inst) =~= inst1);
            assert(blk.insts@ =~= blk0.insts@.update(i as int, inst));
            assert(g_block(blk).insts =~~= g_pre[b as int].insts.update(i as int, inst1));
            assert(g_block(blk) =~~= (GBlock {
                insts: g_pre[b as int].insts.update(i as int, inst1),
                ..g_pre[b as int]
            }));
            assert(g_func(*f) =~~= g_pre.update(b as int, g_block(blk)));
        }
        k += 1;
    }
}

/// Find the live GC-managed values at each safepoint: compute the slot
/// map, create the needed stack slots, and attach one stack-map entry per
/// live value to every safepoint instruction. The whole effect is the pure
/// function `s_scan` of the inputs (applied to the blocks by `s_apply`),
/// which is the pass's determinism.
impl FunctionBuilder {
    pub fn find_live_stack_map_values_at_each_safepoint(&mut self, order: &Vec<u32>) -> (r: Vec<
        Option<u32>,
    >)
        requires
            builder_wf(*old(self)),
            old(self).func.stack_slots@.len() + old(self).func.value_types@.len() <= u32::MAX,
            forall|k: int|
                0 <= k < order@.len() ==> #[trigger] order@[k] < old(self).func.blocks@.len(),
        ensures
            ({
                let sc = s_scan(old(self).func, old(self).stack_map_values@, order@);
                &&& r@ == sc.slot_map
                &&& final(self).func.stack_slots@ == sc.slots
                &&& g_func(final(self).func) == s_apply(g_func(old(self).func), sc.maps, 0)
                &&& final(self).func.value_types == old(self).func.value_types
                &&& final(self).func.aliases == old(self).func.aliases
                &&& final(self).stack_map_values == old(self).stack_map_values
                &&& r@.len() == old(self).func.value_types@.len()
            }),
    {
        let (slot_map, new_slots, maps) = scan_live(&self.func, &self.stack_map_values, order);
        let mut k: usize = 0;
        while k < new_slots.len()
            invariant
                k <= new_slots@.len(),
                self.func.stack_slots@ == old(self).func.stack_slots@ + new_slots@.subrange(
                    0,
                    k as int,
                ),
                self.func.blocks == old(self).func.blocks,
                self.func.value_types == old(self).func.value_types,
                self.func.aliases == old(self).func.aliases,
                self.stack_map_values == old(self).stack_map_values,
            decreases new_slots@.len() - k,
        {
            self.func.stack_slots.push(new_slots[k]);
            proof {
                assert(self.func.stack_slots@ =~= old(self).func.stack_slots@
                    + new_slots@.subrange(0, k + 1));
            }
            k += 1;
        }
        proof {
            assert(self.func.stack_slots@ =~= old(self).func.stack_slots@ + new_slots@);
            lemma_scan_maps_keys(
                old(self).func,
                old(self).stack_map_values@,
                order@,
            );
            assert(g_func(self.func) =~~= g_func(old(self).func));
        }
        apply_stack_maps(&mut self.func, &maps);
        slot_map
    }
}

/// Every record `s_scan` makes names an existing instruction, and that
/// instruction is a safepoint: a call that is not a return. (So in
/// particular, tail calls and non-calls never receive entries.)
pub open spec fn maps_at_safepoints(f: Function, ms: Seq<(u32, u32, Seq<StackMapEntry>)>) -> bool {
    forall|k: int|
        0 <= k < ms.len() ==> {
            &&& (#[trigger] ms[k]).0 < f.blocks@.len()
            &&& ms[k].1 < f.blocks@[ms[k].0 as int].insts@.len()
            &&& f.blocks@[ms[k].0 as int].insts@[ms[k].1 as int].opcode.is_call
            &&& !f.blocks@[ms[k].0 as int].insts@[ms[k].1 as int].opcode.is_return
        }
}

proof fn lemma_uses_maps(f: Function, gc: Seq<u32>, st: ScanSt, args: Seq<u32>, k: int)
    requires
        0 <= k,
    ensures
        s_uses(f, gc, st, args, k).maps == st.maps,
    decreases args.len() - k,
{
    if k < args.len() {
        let v = f.aliases@[args[k] as int];
        let st1 = if gc.contains(v) {
            ScanSt { live: ins(st.live, v), ..st }
        } else {
            st
        };
        lemma_uses_maps(f, gc, st1, args, k + 1);
    }
}

proof fn lemma_defs_maps(f: Function, st: ScanSt, vals: Seq<u32>, k: int)
    requires
        0 <= k,
    ensures
        s_defs(f, st, vals, k).maps == st.maps,
    decreases vals.len() - k,
{
    if k < vals.len() {
        lemma_defs_maps(f, s_def(f, st, vals[k]), vals, k + 1);
    }
}

proof fn lemma_sp_fold_maps(
    f: Function,
    st: ScanSt,
    live0: Seq<u32>,
    k: int,
    acc: Seq<StackMapEntry>,
)
    requires
        0 <= k,
    ensures
        s_sp_fold(f, st, live0, k, acc).0.maps == st.maps,
    decreases live0.len() - k,
{
    if k < live0.len() {
        let v = live0[k];
        let r = s_sp_one(f, st, v);
        assert(r.0.maps == st.maps);
        lemma_sp_fold_maps(
            f,
            r.0,
            live0,
            k + 1,
            acc.push(StackMapEntry { ty: f.value_types@[v as int], slot: r.1, offset: 0 }),
        );
    }
}

proof fn lemma_insts_rev_maps(f: Function, gc: Seq<u32>, st: ScanSt, b: u32, i: int)
    requires
        0 <= i,
        b < f.blocks@.len(),
        maps_at_safepoints(f, st.maps),
        f.blocks@[b as int].insts@.len() <= u32::MAX,
    ensures
        maps_at_safepoints(f, s_insts_rev(f, gc, st, b, i).maps),
    decreases f.blocks@[b as int].insts@.len() - i,
{
    if i < f.blocks@[b as int].insts@.len() {
        lemma_insts_rev_maps(f, gc, st, b, i + 1);
        let st_in = s_insts_rev(f, gc, st, b, i + 1);
        let inst = f.blocks@[b as int].insts@[i];
        let st1 = s_defs(f, st_in, inst.results@, 0);
        lemma_defs_maps(f, st_in, inst.results@, 0);
        let st2 = if inst.opcode.is_call && !inst.opcode.is_return {
            s_safepoint(f, st1, b, i as u32)
        } else {
            st1
        };
        if inst.opcode.is_call && !inst.opcode.is_return {
            lemma_sp_fold_maps(f, st1, st1.live, 0, Seq::<StackMapEntry>::empty());
            assert(maps_at_safepoints(f, st2.maps));
        }
        lemma_uses_maps(f, gc, st2, inst.args@, 0);
    }
}

proof fn lemma_order_maps(f: Function, gc: Seq<u32>, st: ScanSt, order: Seq<u32>, k: int)
    requires
        0 <= k,
        func_wf(f),
        forall|j: int| 0 <= j < order.len() ==> #[trigger] order[j] < f.blocks@.len(),
        maps_at_safepoints(f, st.maps),
    ensures
        maps_at_safepoints(f, s_order(f, gc, st, order, k).maps),
    decreases order.len() - k,
{
    if k < order.len() {
        lemma_insts_rev_maps(f, gc, st, order[k], 0);
        lemma_defs_maps(
            f,
            s_insts_rev(f, gc, st, order[k], 0),
            f.blocks@[order[k] as int].params@,
            0,
        );
        lemma_order_maps(f, gc, s_block_scan(f, gc, st, order[k]), order, k + 1);
    }
}

/// Law: every stack-map record the scan makes sits on a safepoint — a
/// call that is not a return. Tail calls and ordinary instructions never
/// carry entries added by this pass.
pub proof fn lemma_scan_maps_at_safepoints(f: Function, gc: Seq<u32>, order: Seq<u32>)
    requires
        func_wf(f),
        forall|j: int| 0 <= j < order.len() ==> #[trigger] order[j] < f.blocks@.len(),
    ensures
        maps_at_safepoints(f, s_scan(f, gc, order).maps),
{
    lemma_order_maps(f, gc, init_scan(f), order, 0);
}

/// The scan's records name existing instructions.
pub proof fn lemma_scan_maps_keys(f: Function, gc: Seq<u32>, order: Seq<u32>)
    requires
        func_wf(f),
        forall|j: int| 0 <= j < order.len() ==> #[trigger] order[j] < f.blocks@.len(),
    ensures
        maps_keys_ok(g_func(f), s_scan(f, gc, order).maps),
{
    lemma_scan_maps_at_safepoints(f, gc, order);
    let ms = s_scan(f, gc, order).maps;
    assert forall|k: int| 0 <= k < ms.len() implies {
        &&& (#[trigger] ms[k]).0 < g_func(f).len()
        &&& ms[k].1 < g_func(f)[ms[k].0 as int].insts.len()
    } by {
        assert(g_func(f)[ms[k].0 as int] == g_block(f.blocks@[ms[k].0 as int]));
    }
}

/// Law: an instruction that is not a safepoint — a tail call, a plain
/// call-free instruction, a return — comes out of the pass with its stack
/// map untouched.
pub proof fn lemma_apply_untouched(
    bs: Seq<GBlock>,
    ms: Seq<(u32, u32, Seq<StackMapEntry>)>,
    k: int,
    b: int,
    i: int,
)
    requires
        0 <= k,
        0 <= b < bs.len(),
        0 <= i < bs[b].insts.len(),
        forall|j: int| k <= j < ms.len() ==> !((#[trigger] ms[j]).0 == b && ms[j].1 == i),
        forall|j: int|
            0 <= j < ms.len() ==> (#[trigger] ms[j]).0 < bs.len() && ms[j].1 < bs[ms[j].0
                as int].insts.len(),
    ensures
        s_apply(bs, ms, k)[b].insts[i] == bs[b].insts[i],
    decreases ms.len() - k,
{
    if k < ms.len() {
        let b1 = ms[k].0 as int;
        let i1 = ms[k].1 as int;
        let blk = bs[b1];
        let inst = blk.insts[i1];
        let inst1 = GInst { stack_map: inst.stack_map + ms[k].2, ..inst };
        let bs1 = bs.update(b1, GBlock { insts: blk.insts.update(i1, inst1), ..blk });
        lemma_apply_untouched(bs1, ms, k + 1, b, i);
        assert(bs1[b].insts[i] == bs[b].insts[i]);
    }
}

/// Law: tail calls never carry stack-map entries added by this pass. The
/// pass leaves any non-safepoint instruction's stack map exactly as it
/// found it.
pub proof fn lemma_tail_calls_unmapped(fb: FunctionBuilder, order: Seq<u32>, b: int, i: int)
    requires
        builder_wf(fb),
        forall|j: int| 0 <= j < order.len() ==> #[trigger] order[j] < fb.func.blocks@.len(),
        0 <= b < fb.func.blocks@.len(),
        0 <= i < fb.func.blocks@[b].insts@.len(),
        !(fb.func.blocks@[b].insts@[i].opcode.is_call
            && !fb.func.blocks@[b].insts@[i].opcode.is_return),
    ensures
        ({
            let sc = s_scan(fb.func, fb.stack_map_values@, order);
            s_apply(g_func(fb.func), sc.maps, 0)[b].insts[i] == g_func(fb.func)[b].insts[i]
        }),
{
    let sc = s_scan(fb.func, fb.stack_map_values@, order);
    lemma_scan_maps_at_safepoints(fb.func, fb.stack_map_values@, order);
    lemma_scan_maps_keys(fb.func, fb.stack_map_values@, order);
    assert(g_func(fb.func)[b] == g_block(fb.func.blocks@[b]));
    assert forall|j: int| 0 <= j < sc.maps.len() implies !((#[trigger] sc.maps[j]).0 == b
        && sc.maps[j].1 == i) by {
        if sc.maps[j].0 == b && sc.maps[j].1 == i {
            assert(fb.func.blocks@[b].insts@[i].opcode.is_call);
        }
    }
    assert forall|j: int| 0 <= j < sc.maps.len() implies (#[trigger] sc.maps[j]).0 < g_func(
        fb.func,
    ).len() && sc.maps[j].1 < g_func(fb.func)[sc.maps[j].0 as int].insts.len() by {
        assert(g_func(fb.func)[sc.maps[j].0 as int] == g_block(
            fb.func.blocks@[sc.maps[j].0 as int],
        ));
    }
    lemma_apply_untouched(g_func(fb.func), sc.maps, 0, b, i);
}

proof fn lemma_sp_fold_entries(
    f: Function,
    st: ScanSt,
    live0: Seq<u32>,
    k: int,
    acc: Seq<StackMapEntry>,
)
    requires
        0 <= k <= live0.len(),
        forall|j: int| 0 <= j < live0.len() ==> #[trigger] live0[j] < st.slot_map.len(),
    ensures
        ({
            let r = s_sp_fold(f, st, live0, k, acc);
            &&& r.1.len() == acc.len() + (live0.len() - k)
            &&& forall|p: int| 0 <= p < acc.len() ==> r.1[p] == acc[p]
            &&& forall|j: int|
                k <= j < live0.len() ==> #[trigger] r.1[acc.len() + (j - k)] == (StackMapEntry {
                    ty: f.value_types@[live0[j] as int],
                    slot: r.0.slot_map[live0[j] as int]->0,
                    offset: 0,
                })
            &&& forall|v: int|
                0 <= v < st.slot_map.len() && st.slot_map[v] is Some
                    ==> #[trigger] r.0.slot_map[v] == st.slot_map[v]
            &&& r.0.slot_map.len() == st.slot_map.len()
            &&& r.0.live == st.live
        }),
    decreases live0.len() - k,
{
    if k < live0.len() {
        let v = live0[k];
        let r1 = s_sp_one(f, st, v);
        let e = StackMapEntry { ty: f.value_types@[v as int], slot: r1.1, offset: 0 };
        let acc1 = acc.push(e);
        lemma_sp_fold_entries(f, r1.0, live0, k + 1, acc1);
        assert(r1.0.slot_map[v as int] == Some(r1.1));
        let r = s_sp_fold(f, st, live0, k, acc);
        assert(r == s_sp_fold(f, r1.0, live0, k + 1, acc1));
        assert forall|p: int| 0 <= p < acc.len() implies r.1[p] == acc[p] by {
            assert(r.1[p] == acc1[p]);
            assert(acc1[p] == acc[p]);
        }
        assert forall|j: int| k <= j < live0.len() implies #[trigger] r.1[acc.len() + (j - k)]
            == (StackMapEntry {
            ty: f.value_types@[live0[j] as int],
            slot: r.0.slot_map[live0[j] as int]->0,
            offset: 0,
        }) by {
            if j == k {
                assert(r.1[acc.len() as int] == acc1[acc.len() as int]);
                assert(acc1[acc.len() as int] == e);
                assert(r.0.slot_map[v as int] == r1.0.slot_map[v as int]);
            } else {
                assert(r.1[acc1.len() + (j - (k + 1))] == (StackMapEntry {
                    ty: f.value_types@[live0[j] as int],
                    slot: r.0.slot_map[live0[j] as int]->0,
                    offset: 0,
                }));
                assert(acc1.len() + (j - (k + 1)) == acc.len() + (j - k));
            }
        }
    }
}

/// Law: a safepoint's stack map lists exactly the live GC-managed values,
/// one entry per value, in the live set's ascending order; each entry
/// carries the value's type, its assigned slot, and offset zero.
pub proof fn lemma_safepoint_entries(f: Function, st: ScanSt, b: u32, i: u32)
    requires
        forall|j: int| 0 <= j < st.live.len() ==> #[trigger] st.live[j] < st.slot_map.len(),
    ensures
        ({
            let st1 = s_safepoint(f, st, b, i);
            let rec = st1.maps.last();
            &&& st1.maps.len() == st.maps.len() + 1
            &&& rec.0 == b && rec.1 == i
            &&& rec.2.len() == st.live.len()
            &&& forall|j: int|
                0 <= j < st.live.len() ==> #[trigger] rec.2[j] == (StackMapEntry {
                    ty: f.value_types@[st.live[j] as int],
                    slot: st1.slot_map[st.live[j] as int]->0,
                    offset: 0,
                })
        }),
{
    lemma_sp_fold_entries(f, st, st.live, 0, Seq::<StackMapEntry>::empty());
    lemma_sp_fold_maps(f, st, st.live, 0, Seq::<StackMapEntry>::empty());
    let r = s_sp_fold(f, st, st.live, 0, Seq::<StackMapEntry>::empty());
    assert forall|j: int| 0 <= j < st.live.len() implies #[trigger] r.1[j] == (StackMapEntry {
        ty: f.value_types@[st.live[j] as int],
        slot: r.0.slot_map[st.live[j] as int]->0,
        offset: 0,
    }) by {
        assert(r.1[0 + (j - 0)] == (StackMapEntry {
            ty: f.value_types@[st.live[j] as int],
            slot: r.0.slot_map[st.live[j] as int]->0,
            offset: 0,
        }));
    }
}

/// Every slot assignment is backed by a stack-map record: a value in the
/// slot map appears, with its own type and its assigned slot, in some
/// record the scan has made — so only values live across a safepoint are
/// ever in the slot map.
pub open spec fn slot_backed(f: Function, st: ScanSt) -> bool {
    forall|v: int|
        0 <= v < st.slot_map.len() && (#[trigger] st.slot_map[v]) is Some ==> exists|r: int, j: int|
            0 <= r < st.maps.len() && 0 <= j < st.maps[r].2.len() && st.maps[r].2[j] == (StackMapEntry {
                ty: f.value_types@[v],
                slot: st.slot_map[v]->0,
                offset: 0,
            })
}

/// The scan-state bookkeeping the backing proof threads: slot-map length
/// and a live set of in-range values.
pub open spec fn live_ok(st: ScanSt, n: nat) -> bool {
    &&& st.slot_map.len() == n
    &&& forall|j: int| 0 <= j < st.live.len() ==> #[trigger] st.live[j] < n
}

proof fn lemma_defs_frame(f: Function, st: ScanSt, vals: Seq<u32>, k: int)
    requires
        0 <= k,
    ensures
        ({
            let r = s_defs(f, st, vals, k);
            &&& r.slot_map == st.slot_map
            &&& r.maps == st.maps
            &&& r.slots == st.slots
            &&& forall|j: int|
                0 <= j < r.live.len() ==> st.live.contains(#[trigger] r.live[j])
        }),
    decreases vals.len() - k,
{
    if k < vals.len() {
        let st1 = s_def(f, st, vals[k]);
        lemma_defs_frame(f, st1, vals, k + 1);
        let r = s_defs(f, st, vals, k);
        assert forall|j: int| 0 <= j < r.live.len() implies st.live.contains(
            #[trigger] r.live[j],
        ) by {
            assert(st1.live.contains(r.live[j]));
            crate::idset::lemma_del_subset(st.live, vals[k], r.live[j]);
        }
    }
}

proof fn lemma_uses_frame(f: Function, gc: Seq<u32>, st: ScanSt, args: Seq<u32>, k: int, n: nat)
    requires
        0 <= k,
        forall|j: int| 0 <= j < args.len() ==> #[trigger] args[j] < f.aliases@.len(),
        forall|a: int| 0 <= a < f.aliases@.len() ==> #[trigger] f.aliases@[a] < n,
        forall|j: int| 0 <= j < st.live.len() ==> #[trigger] st.live[j] < n,
    ensures
        ({
            let r = s_uses(f, gc, st, args, k);
            &&& r.slot_map == st.slot_map
            &&& r.maps == st.maps
            &&& r.slots == st.slots
            &&& forall|j: int| 0 <= j < r.live.len() ==> #[trigger] r.live[j] < n
        }),
    decreases args.len() - k,
{
    if k < args.len() {
        let v = f.aliases@[args[k] as int];
        let st1 = if gc.contains(v) {
            ScanSt { live: ins(st.live, v), ..st }
        } else {
            st
        };
        assert forall|j: int| 0 <= j < st1.live.len() implies #[trigger] st1.live[j] < n by {
            if gc.contains(v) {
                lemma_ins_contains(st.live, v, st1.live[j]);
                if st.live.contains(st1.live[j]) {
                    let w = choose|w: int|
                        0 <= w < st.live.len() && st.live[w] == st1.live[j];
                }
            }
        }
        lemma_uses_frame(f, gc, st1, args, k + 1, n);
    }
}

proof fn lemma_sp_fold_new_assign(
    f: Function,
    st: ScanSt,
    live0: Seq<u32>,
    k: int,
    acc: Seq<StackMapEntry>,
    v: int,
)
    requires
        0 <= k,
        0 <= v < st.slot_map.len(),
        forall|j: int| 0 <= j < live0.len() ==> #[trigger] live0[j] < st.slot_map.len(),
    ensures
        ({
            let r = s_sp_fold(f, st, live0, k, acc);
            r.0.slot_map[v] is Some ==> st.slot_map[v] is Some || exists|j: int|
                k <= j < live0.len() && live0[j] == v
        }),
    decreases live0.len() - k,
{
    if k < live0.len() {
        let r1 = s_sp_one(f, st, live0[k]);
        assert(r1.0.slot_map.len() == st.slot_map.len());
        lemma_sp_fold_new_assign(
            f,
            r1.0,
            live0,
            k + 1,
            acc.push(
                StackMapEntry { ty: f.value_types@[live0[k] as int], slot: r1.1, offset: 0 },
            ),
            v,
        );
        let r = s_sp_fold(f, st, live0, k, acc);
        if r.0.slot_map[v] is Some {
            if r1.0.slot_map[v] is Some {
                if !(st.slot_map[v] is Some) {
                    assert(v == live0[k]);
                    assert(k <= k < live0.len() && live0[k] == v);
                }
            }
        }
    }
}

proof fn lemma_safepoint_backed(f: Function, st: ScanSt, b: u32, i: u32, n: nat)
    requires
        live_ok(st, n),
        slot_backed(f, st),
    ensures
        ({
            let st1 = s_safepoint(f, st, b, i);
            &&& live_ok(st1, n)
            &&& slot_backed(f, st1)
        }),
{
    let st1 = s_safepoint(f, st, b, i);
    lemma_sp_fold_entries(f, st, st.live, 0, Seq::<StackMapEntry>::empty());
    lemma_sp_fold_maps(f, st, st.live, 0, Seq::<StackMapEntry>::empty());
    let r = s_sp_fold(f, st, st.live, 0, Seq::<StackMapEntry>::empty());
    assert forall|v: int|
        0 <= v < st1.slot_map.len() && (#[trigger] st1.slot_map[v]) is Some implies exists|
        r2: int,
        j: int,
    |
        0 <= r2 < st1.maps.len() && 0 <= j < st1.maps[r2].2.len() && st1.maps[r2].2[j] == (StackMapEntry {
            ty: f.value_types@[v],
            slot: st1.slot_map[v]->0,
            offset: 0,
        }) by {
        lemma_sp_fold_new_assign(f, st, st.live, 0, Seq::<StackMapEntry>::empty(), v);
        if st.slot_map[v] is Some {
            // previously backed; the record it points at is still there,
            // and the assignment did not change
            let (r0, j0) = choose|r0: int, j0: int|
                0 <= r0 < st.maps.len() && 0 <= j0 < st.maps[r0].2.len() && st.maps[r0].2[j0]
                    == (StackMapEntry {
                    ty: f.value_types@[v],
                    slot: st.slot_map[v]->0,
                    offset: 0,
                });
            assert(st1.maps[r0] == st.maps[r0]);
            assert(st1.slot_map[v] == st.slot_map[v]);
        } else {
            // newly assigned during this safepoint: its entry is in the
            // record just pushed
            let j = choose|j: int| 0 <= j < st.live.len() && st.live[j] == v as u32;
            assert(r.1[0 + (j - 0)] == (StackMapEntry {
                ty: f.value_types@[st.live[j] as int],
                slot: r.0.slot_map[st.live[j] as int]->0,
                offset: 0,
            }));
            assert(st1.maps[st1.maps.len() - 1].2[j] == (StackMapEntry {
                ty: f.value_types@[v],
                slot: st1.slot_map[v]->0,
                offset: 0,
            }));
        }
    }
}

proof fn lemma_insts_rev_backed(f: Function, gc: Seq<u32>, st: ScanSt, b: u32, i: int, n: nat)
    requires
        0 <= i,
        func_wf(f),
        n == f.value_types@.len(),
        b < f.blocks@.len(),
        live_ok(st, n),
        slot_backed(f, st),
    ensures
        ({
            let r = s_insts_rev(f, gc, st, b, i);
            live_ok(r, n) && slot_backed(f, r)
        }),
    decreases f.blocks@[b as int].insts@.len() - i,
{
    if i < f.blocks@[b as int].insts@.len() {
        lemma_insts_rev_backed(f, gc, st, b, i + 1, n);
        let st_in = s_insts_rev(f, gc, st, b, i + 1);
        let inst = f.blocks@[b as int].insts@[i];
        assert(crate::func::inst_vals_wf(inst, n));
        lemma_defs_frame(f, st_in, inst.results@, 0);
        let st1 = s_defs(f, st_in, inst.results@, 0);
        assert forall|j: int| 0 <= j < st1.live.len() implies #[trigger] st1.live[j] < n by {
            assert(st_in.live.contains(st1.live[j]));
            let w = choose|w: int| 0 <= w < st_in.live.len() && st_in.live[w] == st1.live[j];
        }
        let st2 = if inst.opcode.is_call && !inst.opcode.is_return {
            s_safepoint(f, st1, b, i as u32)
        } else {
            st1
        };
        if inst.opcode.is_call && !inst.opcode.is_return {
            lemma_safepoint_backed(f, st1, b, i as u32, n);
        }
        lemma_uses_frame(f, gc, st2, inst.args@, 0, n);
    }
}

proof fn lemma_order_backed(f: Function, gc: Seq<u32>, st: ScanSt, order: Seq<u32>, k: int, n: nat)
    requires
        0 <= k,
        func_wf(f),
        n == f.value_types@.len(),
        forall|j: int| 0 <= j < order.len() ==> #[trigger] order[j] < f.blocks@.len(),
        live_ok(st, n),
        slot_backed(f, st),
    ensures
        ({
            let r = s_order(f, gc, st, order, k);
            live_ok(r, n) && slot_backed(f, r)
        }),
    decreases order.len() - k,
{
    if k < order.len() {
        lemma_insts_rev_backed(f, gc, st, order[k], 0, n);
        let st_in = s_insts_rev(f, gc, st, order[k], 0);
        lemma_defs_frame(f, st_in, f.blocks@[order[k] as int].params@, 0);
        let st1 = s_block_scan(f, gc, st, order[k]);
        assert forall|j: int| 0 <= j < st1.live.len() implies #[trigger] st1.live[j] < n by {
            assert(st_in.live.contains(st1.live[j]));
            let w = choose|w: int| 0 <= w < st_in.live.len() && st_in.live[w] == st1.live[j];
        }
        lemma_order_backed(f, gc, st1, order, k + 1, n);
    }
}

/// Law: a GC-managed value that is never live across a safepoint appears
/// in no slot map. Contrapositively and constructively: every slot-mapped
/// value has a stack-map record made at some safepoint that lists it with
/// its own type and its assigned slot (and by `lemma_safepoint_entries`,
/// a record lists exactly the values live at that safepoint).
pub proof fn lemma_scan_slot_backed(f: Function, gc: Seq<u32>, order: Seq<u32>)
    requires
        func_wf(f),
        forall|j: int| 0 <= j < order.len() ==> #[trigger] order[j] < f.blocks@.len(),
    ensures
        slot_backed(f, s_scan(f, gc, order)),
{
    lemma_order_backed(f, gc, init_scan(f), order, 0, f.value_types@.len());
}

/// Law: slots are reused. When a value needs a slot at a safepoint and a
/// previously freed slot of its width is available, the pass takes the
/// most recently freed one instead of creating a new slot; a fresh slot is
/// created only when the bucket is empty, with the value's exact size and
/// log2 alignment.
pub proof fn lemma_slot_reuse(f: Function, st: ScanSt, v: u32)
    requires
        v < st.slot_map.len(),
        st.slot_map[v as int] is None,
    ensures
        ({
            let bk = bucket(f.value_types@[v as int].bytes);
            let r = s_sp_one(f, st, v);
            if st.free[bk].len() > 0 {
                r.1 == st.free[bk].last() && r.0.slots == st.slots
            } else {
                &&& r.1 == st.slots.len() as u32
                &&& r.0.slots == st.slots.push(
                    StackSlotData {
                        size: f.value_types@[v as int].bytes,
                        log2_align: bucket(f.value_types@[v as int].bytes) as u32,
                    },
                )
            }
        }),
{
}

/// Law: the analysis is deterministic. Structurally identical inputs give
/// identical slot maps, slots, and stack-map records, because the whole
/// result is the pure function `s_scan`.
pub proof fn lemma_scan_deterministic(
    f1: Function,
    gc1: Seq<u32>,
    order1: Seq<u32>,
    f2: Function,
    gc2: Seq<u32>,
    order2: Seq<u32>,
)
    requires
        f1 == f2,
        gc1 == gc2,
        order1 == order2,
    ensures
        s_scan(f1, gc1, order1) == s_scan(f2, gc2, order2),
{
}

} // verus!
