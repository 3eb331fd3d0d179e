//! Tests for the safepoint spill pass: spill/reload insertion, stack-map
//! contents, tail-call exclusion, slot reuse, over-approximated liveness,
//! and determinism; plus the small leaf types.

use islegen::func::Block;
use islegen::func::Function;
use islegen::func::FunctionBuilder;
use islegen::func::Inst;
use islegen::func::InstKind;
use islegen::func::Opcode;
use islegen::func::StackMapEntry;
use islegen::func::ValType;
use islegen::idset::IdSet;
use islegen::slots::SlotSize;
use islegen::slots::SlotSizeMap;
use islegen::text::push_dec;
use islegen::text::push_hex0x;

fn plain(args: Vec<u32>, results: Vec<u32>) -> Inst {
    Inst {
        opcode: Opcode { is_call: false, is_return: false },
        args,
        results,
        stack_map: vec![],
        kind: InstKind::Plain,
    }
}

fn call(args: Vec<u32>) -> Inst {
    Inst {
        opcode: Opcode { is_call: true, is_return: false },
        args,
        results: vec![],
        stack_map: vec![],
        kind: InstKind::Plain,
    }
}

fn tail_call(args: Vec<u32>) -> Inst {
    Inst {
        opcode: Opcode { is_call: true, is_return: true },
        args,
        results: vec![],
        stack_map: vec![],
        kind: InstKind::Plain,
    }
}

fn ret(args: Vec<u32>) -> Inst {
    Inst {
        opcode: Opcode { is_call: false, is_return: true },
        args,
        results: vec![],
        stack_map: vec![],
        kind: InstKind::Plain,
    }
}

fn builder(n_values: u32, insts: Vec<Inst>, gc: &[u32]) -> FunctionBuilder {
    let mut vt = Vec::new();
    let mut al = Vec::new();
    for v in 0..n_values {
        vt.push(ValType { bytes: 8 });
        al.push(v);
    }
    let mut set = IdSet::new();
    for &v in gc {
        set.insert(v);
    }
    FunctionBuilder {
        func: Function {
            blocks: vec![Block { params: vec![], insts }],
            value_types: vt,
            aliases: al,
            stack_slots: vec![],
        },
        stack_map_values: set,
    }
}

#[test]
fn spill_reload_around_call() {
    // v0 (8 bytes, GC-managed) is defined, passed to a call, and then
    // returned: the pass creates one 8-byte slot, stores v0 after its
    // definition, reloads it at both uses, and the call carries exactly
    // one (8-byte, slot 0, offset 0) entry.
    let mut fb = builder(1, vec![plain(vec![], vec![0]), call(vec![0]), ret(vec![0])], &[0]);
    let order = vec![0u32];
    fb.insert_safepoint_spills(&order);

    assert_eq!(fb.func.stack_slots.len(), 1);
    assert_eq!(fb.func.stack_slots[0].size, 8);
    assert_eq!(fb.func.stack_slots[0].log2_align, 3);

    let insts = &fb.func.blocks[0].insts;
    assert_eq!(insts.len(), 6);
    assert!(matches!(insts[0].kind, InstKind::Plain));
    assert_eq!(insts[0].results, vec![0u32]);
    assert!(matches!(insts[1].kind, InstKind::StackStore { slot: 0, offset: 0 }));
    assert_eq!(insts[1].args, vec![0u32]);
    assert!(matches!(insts[2].kind, InstKind::StackLoad { slot: 0, offset: 0 }));
    assert_eq!(insts[2].results, vec![1u32]);
    assert!(insts[3].opcode.is_call);
    assert_eq!(insts[3].args, vec![1u32]);
    assert_eq!(
        insts[3].stack_map,
        vec![StackMapEntry { ty: ValType { bytes: 8 }, slot: 0, offset: 0 }]
    );
    assert!(matches!(insts[4].kind, InstKind::StackLoad { slot: 0, offset: 0 }));
    assert_eq!(insts[4].results, vec![2u32]);
    assert!(insts[5].opcode.is_return);
    assert_eq!(insts[5].args, vec![2u32]);

    assert_eq!(fb.func.value_types.len(), 3);
    assert_eq!(fb.func.aliases, vec![0u32, 1, 2]);
}

#[test]
fn tail_call_gets_no_slot_and_no_entry() {
    let mut fb = builder(1, vec![plain(vec![], vec![0]), tail_call(vec![0])], &[0]);
    let order = vec![0u32];
    fb.insert_safepoint_spills(&order);

    assert_eq!(fb.func.stack_slots.len(), 0);
    let insts = &fb.func.blocks[0].insts;
    assert_eq!(insts.len(), 2);
    assert!(insts[1].stack_map.is_empty());
    assert_eq!(insts[1].args, vec![0u32]);
}

#[test]
fn disjoint_live_ranges_share_a_slot() {
    // v0 is live across the first call only, v1 across the second only;
    // both are 8 bytes wide, so the second reuses the first one's slot.
    let mut fb = builder(
        2,
        vec![
            plain(vec![], vec![0]),
            call(vec![]),
            plain(vec![0], vec![1]),
            call(vec![]),
            ret(vec![1]),
        ],
        &[0, 1],
    );
    let order = vec![0u32];
    let slot_map = fb.find_live_stack_map_values_at_each_safepoint(&order);

    assert_eq!(fb.func.stack_slots.len(), 1);
    assert_eq!(slot_map, vec![Some(0u32), Some(0u32)]);
    let insts = &fb.func.blocks[0].insts;
    assert_eq!(
        insts[1].stack_map,
        vec![StackMapEntry { ty: ValType { bytes: 8 }, slot: 0, offset: 0 }]
    );
    assert_eq!(
        insts[3].stack_map,
        vec![StackMapEntry { ty: ValType { bytes: 8 }, slot: 0, offset: 0 }]
    );
}

#[test]
fn dead_use_still_pins_value_at_safepoint() {
    // v0 only flows into a plain instruction whose result v1 is discarded,
    // but the use keeps v0 live across the intervening safepoint.
    let mut fb = builder(
        2,
        vec![plain(vec![], vec![0]), call(vec![]), plain(vec![0], vec![1])],
        &[0],
    );
    let order = vec![0u32];
    let slot_map = fb.find_live_stack_map_values_at_each_safepoint(&order);

    assert_eq!(slot_map, vec![Some(0u32), None]);
    assert_eq!(fb.func.blocks[0].insts[1].stack_map.len(), 1);
}

#[test]
fn value_not_live_across_safepoint_stays_out() {
    // v0's only use comes before the call: no slot, no map entry, and the
    // rewrite leaves everything alone.
    let mut fb = builder(
        2,
        vec![
            plain(vec![], vec![0]),
            plain(vec![0], vec![1]),
            call(vec![]),
            ret(vec![]),
        ],
        &[0],
    );
    let order = vec![0u32];
    fb.insert_safepoint_spills(&order);

    assert_eq!(fb.func.stack_slots.len(), 0);
    let insts = &fb.func.blocks[0].insts;
    assert_eq!(insts.len(), 4);
    assert!(insts[2].stack_map.is_empty());
    assert_eq!(insts[1].args, vec![0u32]);
}

#[test]
fn stack_map_order_is_by_value_id() {
    // Two values live across one call: entries come in ascending value
    // order regardless of use order.
    let mut fb = builder(
        2,
        vec![
            plain(vec![], vec![0]),
            plain(vec![], vec![1]),
            call(vec![]),
            ret(vec![1, 0]),
        ],
        &[0, 1],
    );
    let order = vec![0u32];
    let slot_map = fb.find_live_stack_map_values_at_each_safepoint(&order);

    assert_eq!(fb.func.stack_slots.len(), 2);
    let sm = &fb.func.blocks[0].insts[2].stack_map;
    assert_eq!(sm.len(), 2);
    assert_eq!(sm[0].slot, slot_map[0].unwrap());
    assert_eq!(sm[1].slot, slot_map[1].unwrap());
    assert_ne!(sm[0].slot, sm[1].slot);
}

#[test]
fn pass_is_deterministic() {
    let build = || {
        builder(
            2,
            vec![
                plain(vec![], vec![0]),
                call(vec![0]),
                plain(vec![0], vec![1]),
                call(vec![1]),
                ret(vec![1]),
            ],
            &[0, 1],
        )
    };
    let order = vec![0u32];
    let mut fb1 = build();
    fb1.insert_safepoint_spills(&order);
    let mut fb2 = build();
    fb2.insert_safepoint_spills(&order);

    assert_eq!(fb1.func.blocks[0].insts.len(), fb2.func.blocks[0].insts.len());
    for (a, b) in fb1.func.blocks[0].insts.iter().zip(fb2.func.blocks[0].insts.iter()) {
        assert_eq!(a.args, b.args);
        assert_eq!(a.results, b.results);
        assert_eq!(a.stack_map, b.stack_map);
        assert_eq!(a.kind, b.kind);
        assert_eq!(a.opcode, b.opcode);
    }
    assert_eq!(fb1.func.stack_slots, fb2.func.stack_slots);
    assert_eq!(fb1.func.aliases, fb2.func.aliases);
}

#[test]
fn block_params_are_spilled_at_block_top() {
    // A GC-managed block parameter live across a call is stored at the
    // very top of its block.
    let vt = vec![ValType { bytes: 4 }];
    let al = vec![0u32];
    let mut set = IdSet::new();
    set.insert(0);
    let mut fb = FunctionBuilder {
        func: Function {
            blocks: vec![Block {
                params: vec![0],
                insts: vec![call(vec![]), ret(vec![0])],
            }],
            value_types: vt,
            aliases: al,
            stack_slots: vec![],
        },
        stack_map_values: set,
    };
    let order = vec![0u32];
    fb.insert_safepoint_spills(&order);

    assert_eq!(fb.func.stack_slots.len(), 1);
    assert_eq!(fb.func.stack_slots[0].size, 4);
    assert_eq!(fb.func.stack_slots[0].log2_align, 2);
    let insts = &fb.func.blocks[0].insts;
    assert!(matches!(insts[0].kind, InstKind::StackStore { slot: 0, offset: 0 }));
    assert_eq!(insts[0].args, vec![0u32]);
}

#[test]
fn slot_size_buckets() {
    assert!(matches!(SlotSize::new(1), Some(SlotSize::Size8)));
    assert!(matches!(SlotSize::new(2), Some(SlotSize::Size16)));
    assert!(matches!(SlotSize::new(4), Some(SlotSize::Size32)));
    assert!(matches!(SlotSize::new(8), Some(SlotSize::Size64)));
    assert!(matches!(SlotSize::new(16), Some(SlotSize::Size128)));
    assert!(SlotSize::new(3).is_none());
    assert!(SlotSize::new(32).is_none());
    assert_eq!(SlotSize::unwrap_new(16).index(), 4);
}

#[test]
fn slot_pool_is_lifo_per_bucket() {
    let mut pool = SlotSizeMap::new();
    pool.release(SlotSize::Size64, 7);
    pool.release(SlotSize::Size64, 9);
    pool.release(SlotSize::Size32, 3);
    assert_eq!(pool.take(SlotSize::Size64), Some(9));
    assert_eq!(pool.take(SlotSize::Size64), Some(7));
    assert_eq!(pool.take(SlotSize::Size64), None);
    assert_eq!(pool.take(SlotSize::Size32), Some(3));
    assert_eq!(pool.take(SlotSize::Size128), None);
}

#[test]
fn idset_is_sorted_and_deduplicated() {
    let mut s = IdSet::new();
    s.insert(5);
    s.insert(1);
    s.insert(9);
    s.insert(5);
    assert_eq!(s.len(), 3);
    assert_eq!(s.get(0), 1);
    assert_eq!(s.get(1), 5);
    assert_eq!(s.get(2), 9);
    assert!(s.contains(5));
    assert!(!s.contains(4));
    s.remove(5);
    assert!(!s.contains(5));
    assert_eq!(s.len(), 2);
    let d = s.duplicate();
    assert_eq!(d.len(), 2);
    assert_eq!(d.get(0), 1);
    assert_eq!(d.get(1), 9);
}

#[test]
fn decimal_and_hex_rendering() {
    let mut s = String::new();
    push_dec(&mut s, 0);
    s.push(' ');
    push_dec(&mut s, 1234567890);
    assert_eq!(s, "0 1234567890");
    let mut h = String::new();
    push_hex0x(&mut h, 0);
    h.push(' ');
    push_hex0x(&mut h, 0xDEADBEEF);
    assert_eq!(h, "0x0 0xDEADBEEF");
}
