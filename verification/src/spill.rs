//! The spill/reload rewriter of the safepoint pass.
//!
//! A forward pass over the blocks: every slot-mapped block parameter gets
//! a store to its slot at the top of its block; every use of a slot-mapped
//! value is replaced by the result of a fresh load from the slot inserted
//! just before the using instruction; every slot-mapped instruction result
//! gets a store to its slot right after the instruction. Redundant loads
//! are left for a later alias-analysis pass to fold.
//!
//! The pass is specified exactly against the `s_rewrite` mirror: the
//! rewritten blocks, the extended value-type table, and the extended alias
//! table are a pure function of the input function and the slot map.

use vstd::prelude::*;
use crate::func::Function;
use crate::func::FunctionBuilder;
use crate::func::GBlock;
use crate::func::GInst;
use crate::func::Inst;
use crate::func::InstKind;
use crate::func::Opcode;
use crate::func::ValType;
use crate::func::builder_wf;
use crate::func::func_wf;
use crate::func::g_block;
use crate::func::g_func;
use crate::func::g_inst;
use crate::func::inst_vals_wf;

verus! {

/// The growing value tables of the rewrite: value types and aliases (a
/// fresh load result aliases itself).
#[verifier::ext_equal]
pub ghost struct RwSt {
    pub vts: Seq<ValType>,
    pub als: Seq<u32>,
}

/// A `stack_store v -> slot @ 0` instruction.
pub open spec fn s_store(v: u32, slot: u32) -> GInst {
    GInst {
        opcode: Opcode { is_call: false, is_return: false },
        args: seq![v],
        results: Seq::<u32>::empty(),
        stack_map: Seq::<crate::func::StackMapEntry>::empty(),
        kind: InstKind::StackStore { slot, offset: 0 },
    }
}

/// A `res = stack_load ty slot @ 0` instruction.
pub open spec fn s_load(res: u32, slot: u32) -> GInst {
    GInst {
        opcode: Opcode { is_call: false, is_return: false },
        args: Seq::<u32>::empty(),
        results: seq![res],
        stack_map: Seq::<crate::func::StackMapEntry>::empty(),
        kind: InstKind::StackLoad { slot, offset: 0 },
    }
}

/// Stores for the slot-mapped parameters of a block, forming its prefix.
pub open spec fn s_param_stores(
    sm: Seq<Option<u32>>,
    params: Seq<u32>,
    k: int,
    acc: Seq<GInst>,
) -> Seq<GInst>
    decreases params.len() - k,
        when 0 <= k
{
    if k >= params.len() {
        acc
    } else {
        let acc1 = match sm[params[k] as int] {
            Some(slot) => acc.push(s_store(params[k], slot)),
            None => acc,
        };
        s_param_stores(sm, params, k + 1, acc1)
    }
}

/// Rewrite the operands of one instruction: each slot-mapped operand is
/// replaced by the result of a fresh load inserted before the instruction.
pub open spec fn s_rw_args(
    sm: Seq<Option<u32>>,
    st: RwSt,
    args: Seq<u32>,
    k: int,
    acc_insts: Seq<GInst>,
    acc_args: Seq<u32>,
) -> (Seq<GInst>, Seq<u32>, RwSt)
    decreases args.len() - k,
        when 0 <= k
{
    if k >= args.len() {
        (acc_insts, acc_args, st)
    } else {
        match sm[args[k] as int] {
            Some(slot) => {
                let newv = st.vts.len() as u32;
                let st1 = RwSt {
                    vts: st.vts.push(st.vts[args[k] as int]),
                    als: st.als.push(newv),
                };
                s_rw_args(
                    sm,
                    st1,
                    args,
                    k + 1,
                    acc_insts.push(s_load(newv, slot)),
                    acc_args.push(newv),
                )
            },
            None => s_rw_args(sm, st, args, k + 1, acc_insts, acc_args.push(args[k])),
        }
    }
}

/// Stores for the slot-mapped results of an instruction, placed after it.
pub open spec fn s_res_stores(
    sm: Seq<Option<u32>>,
    results: Seq<u32>,
    k: int,
    acc: Seq<GInst>,
) -> Seq<GInst>
    decreases results.len() - k,
        when 0 <= k
{
    if k >= results.len() {
        acc
    } else {
        let acc1 = match sm[results[k] as int] {
            Some(slot) => acc.push(s_store(results[k], slot)),
            None => acc,
        };
        s_res_stores(sm, results, k + 1, acc1)
    }
}

/// One instruction: loads, the instruction with rewritten operands, then
/// result stores.
pub open spec fn s_rw_inst(sm: Seq<Option<u32>>, st: RwSt, inst: GInst, acc: Seq<GInst>) -> (
    Seq<GInst>,
    RwSt,
) {
    let r = s_rw_args(sm, st, inst.args, 0, acc, Seq::<u32>::empty());
    let acc1 = r.0.push(GInst { args: r.1, ..inst });
    (s_res_stores(sm, inst.results, 0, acc1), r.2)
}

pub open spec fn s_rw_insts(
    sm: Seq<Option<u32>>,
    st: RwSt,
    insts: Seq<GInst>,
    k: int,
    acc: Seq<GInst>,
) -> (Seq<GInst>, RwSt)
    decreases insts.len() - k,
        when 0 <= k
{
    if k >= insts.len() {
        (acc, st)
    } else {
        let r = s_rw_inst(sm, st, insts[k], acc);
        s_rw_insts(sm, r.1, insts, k + 1, r.0)
    }
}

/// One block: parameter stores first, then the rewritten instructions.
pub open spec fn s_rw_block(sm: Seq<Option<u32>>, st: RwSt, blk: GBlock) -> (GBlock, RwSt) {
    let r = s_rw_insts(sm, st, blk.insts, 0, s_param_stores(sm, blk.params, 0, Seq::<GInst>::empty()));
    (GBlock { params: blk.params, insts: r.0 }, r.1)
}

pub open spec fn s_rw_blocks(
    sm: Seq<Option<u32>>,
    st: RwSt,
    bs: Seq<GBlock>,
    k: int,
    acc: Seq<GBlock>,
) -> (Seq<GBlock>, RwSt)
    decreases bs.len() - k,
        when 0 <= k
{
    if k >= bs.len() {
        (acc, st)
    } else {
        let r = s_rw_block(sm, st, bs[k]);
        s_rw_blocks(sm, r.1, bs, k + 1, acc.push(r.0))
    }
}

/// The whole rewrite as a pure function of the blocks, the value tables,
/// and the slot map.
pub open spec fn s_rewrite(bs: Seq<GBlock>, vts: Seq<ValType>, als: Seq<u32>, sm: Seq<Option<u32>>) -> (
    Seq<GBlock>,
    RwSt,
) {
    s_rw_blocks(sm, RwSt { vts, als }, bs, 0, Seq::<GBlock>::empty())
}

/// Total operand count of the instructions of `insts` from `k` on.
pub open spec fn sum_args(insts: Seq<GInst>, k: int) -> nat
    decreases insts.len() - k,
        when 0 <= k
{
    if k >= insts.len() {
        0
    } else {
        insts[k].args.len() + sum_args(insts, k + 1)
    }
}

/// Total operand count of the blocks of `bs` from `k` on.
pub open spec fn sum_blocks(bs: Seq<GBlock>, k: int) -> nat
    decreases bs.len() - k,
        when 0 <= k
{
    if k >= bs.len() {
        0
    } else {
        sum_args(bs[k].insts, 0) + sum_blocks(bs, k + 1)
    }
}


/// An element-for-element copy of a value vector.
fn copy_vals(v: &Vec<u32>) -> (r: Vec<u32>)
    ensures
        r@ == v@,
{
    let mut r: Vec<u32> = Vec::new();
    let mut i: usize = 0;
    while i < v.len()
        invariant
            i <= v@.len(),
            r@ == v@.subrange(0, i as int),
        decreases v@.len() - i,
    {
        r.push(v[i]);
        proof {
            assert(r@ =~= v@.subrange(0, i + 1));
        }
        i += 1;
    }
    proof {
        assert(r@ =~= v@);
    }
    r
}

/// An element-for-element copy of a stack map.
fn copy_entries(v: &Vec<crate::func::StackMapEntry>) -> (r: Vec<crate::func::StackMapEntry>)
    ensures
        r@ == v@,
{
    let mut r: Vec<crate::func::StackMapEntry> = Vec::new();
    let mut i: usize = 0;
    while i < v.len()
        invariant
            i <= v@.len(),
            r@ == v@.subrange(0, i as int),
        decreases v@.len() - i,
    {
        r.push(v[i]);
        proof {
            assert(r@ =~= v@.subrange(0, i + 1));
        }
        i += 1;
    }
    proof {
        assert(r@ =~= v@);
    }
    r
}

/// The lifted view of an instruction vector.
pub open spec fn g_insts(v: Vec<Inst>) -> Seq<GInst> {
    v@.map_values(|x: Inst| g_inst(x))
}

impl FunctionBuilder {
    /// Insert a store after every definition of a slot-mapped value (at
    /// the top of the block for parameters) and replace every use of a
    /// slot-mapped value with a fresh load from its slot.
    pub fn insert_safepoint_spills_and_reloads(&mut self, slot_map: &Vec<Option<u32>>)
        requires
            func_wf(old(self).func),
            slot_map@.len() == old(self).func.value_types@.len(),
            old(self).func.value_types@.len() + sum_blocks(g_func(old(self).func), 0)
                <= u32::MAX,
        ensures
            ({
                let r = s_rewrite(
                    g_func(old(self).func),
                    old(self).func.value_types@,
                    old(self).func.aliases@,
                    slot_map@,
                );
                &&& g_func(final(self).func) == r.0
                &&& final(self).func.value_types@ == r.1.vts
                &&& final(self).func.aliases@ == r.1.als
                &&& final(self).func.stack_slots == old(self).func.stack_slots
                &&& final(self).stack_map_values == old(self).stack_map_values
            }),
    {
        let ghost f0 = self.func;
        let ghost sm = slot_map@;
        let nblocks = self.func.blocks.len();
        let mut b: usize = 0;
        proof {
            assert(g_func(self.func).subrange(0, 0) =~= Seq::<GBlock>::empty());
        }
        while b < nblocks
            invariant
                func_wf(f0),
                slot_map@ == sm,
                sm.len() == f0.value_types@.len(),
                nblocks == f0.blocks@.len(),
                self.func.blocks@.len() == nblocks,
                b <= nblocks,
                forall|b2: int| b <= b2 < nblocks ==> self.func.blocks@[b2] == f0.blocks@[b2],
                self.func.value_types@.len() == self.func.aliases@.len(),
                f0.value_types@.len() <= self.func.value_types@.len(),
                self.func.value_types@.len() + sum_blocks(g_func(f0), b as int) <= u32::MAX,
                self.func.stack_slots == f0.stack_slots,
                self.stack_map_values == old(self).stack_map_values,
                s_rw_blocks(
                    sm,
                    RwSt { vts: self.func.value_types@, als: self.func.aliases@ },
                    g_func(f0),
                    b as int,
                    g_func(self.func).subrange(0, b as int),
                ) == s_rewrite(g_func(f0), f0.value_types@, f0.aliases@, sm),
            decreases nblocks - b,
        {
            let ghost st_b = RwSt { vts: self.func.value_types@, als: self.func.aliases@ };
            let ghost gpre = g_func(self.func);
            let mut blk = self.func.blocks.remove(b);
            let ghost blocks_mid = self.func.blocks@;
            proof {
                assert(blk == f0.blocks@[b as int]);
                assert(g_func(f0)[b as int] == g_block(f0.blocks@[b as int]));
            }
            let ghost gblk = g_block(f0.blocks@[b as int]);
            let mut new_insts: Vec<Inst> = Vec::new();
            proof {
                assert(g_insts(new_insts) =~= Seq::<GInst>::empty());
            }
            let nparams = blk.params.len();
            let mut j: usize = 0;
            while j < nparams
                invariant
                    func_wf(f0),
                    b < f0.blocks@.len(),
                    blk == f0.blocks@[b as int],
                    gblk == g_block(f0.blocks@[b as int]),
                    slot_map@ == sm,
                    sm.len() == f0.value_types@.len(),
                    nparams == gblk.params.len(),
                    j <= nparams,
                    s_param_stores(sm, gblk.params, j as int, g_insts(new_insts))
                        == s_param_stores(sm, gblk.params, 0, Seq::<GInst>::empty()),
                decreases nparams - j,
            {
                let ghost lift0 = g_insts(new_insts);
                let p = blk.params[j];
                proof {
                    assert(f0.blocks@[b as int].params@[j as int] < f0.value_types@.len());
                }
                if let Some(slot) = slot_map[p as usize] {
                    let mut sargs: Vec<u32> = Vec::new();
                    sargs.push(p);
                    new_insts.push(
                        Inst {
                            opcode: Opcode { is_call: false, is_return: false },
                            args: sargs,
                            results: Vec::new(),
                            stack_map: Vec::new(),
                            kind: InstKind::StackStore { slot, offset: 0 },
                        },
                    );
                    proof {
                        assert(g_insts(new_insts) =~~= lift0.push(s_store(p, slot)));
                    }
                }
                j += 1;
            }
            let ghost insts_l = gblk.insts;
            let ghost acc0 = g_insts(new_insts);
            let ninsts = blk.insts.len();
            proof {
                assert(insts_l.len() == ninsts);
            }
            let mut i: usize = 0;
            while i < ninsts
                invariant
                    func_wf(f0),
                    b < f0.blocks@.len(),
                    blk.insts@ == f0.blocks@[b as int].insts@,
                    gblk == g_block(f0.blocks@[b as int]),
                    insts_l == gblk.insts,
                    slot_map@ == sm,
                    sm.len() == f0.value_types@.len(),
                    ninsts == insts_l.len(),
                    i <= ninsts,
                    self.func.blocks@ == blocks_mid,
                    self.func.value_types@.len() == self.func.aliases@.len(),
                    f0.value_types@.len() <= self.func.value_types@.len(),
                    self.func.value_types@.len() + sum_args(insts_l, i as int) + sum_blocks(
                        g_func(f0),
                        b + 1,
                    ) <= u32::MAX,
                    self.func.stack_slots == f0.stack_slots,
                    self.stack_map_values == old(self).stack_map_values,
                    s_rw_insts(
                        sm,
                        RwSt { vts: self.func.value_types@, als: self.func.aliases@ },
                        insts_l,
                        i as int,
                        g_insts(new_insts),
                    ) == s_rw_insts(sm, st_b, insts_l, 0, acc0),
                decreases ninsts - i,
            {
                let ghost st_i = RwSt { vts: self.func.value_types@, als: self.func.aliases@ };
                let ghost acc_i = g_insts(new_insts);
                proof {
                    assert(inst_vals_wf(
                        f0.blocks@[b as int].insts@[i as int],
                        f0.value_types@.len(),
                    ));
                    assert(insts_l[i as int] == g_inst(f0.blocks@[b as int].insts@[i as int]));
                }
                let nargs = blk.insts[i].args.len();
                let mut new_args: Vec<u32> = Vec::new();
                let mut j2: usize = 0;
                proof {
                    assert(new_args@ =~= Seq::<u32>::empty());
                }
                while j2 < nargs
                    invariant
                        func_wf(f0),
                        b < f0.blocks@.len(),
                        i < f0.blocks@[b as int].insts@.len(),
                        blk.insts@ == f0.blocks@[b as int].insts@,
                        insts_l == g_block(f0.blocks@[b as int]).insts,
                        insts_l[i as int] == g_inst(f0.blocks@[b as int].insts@[i as int]),
                        inst_vals_wf(
                            f0.blocks@[b as int].insts@[i as int],
                            f0.value_types@.len(),
                        ),
                        slot_map@ == sm,
                        sm.len() == f0.value_types@.len(),
                        nargs == insts_l[i as int].args.len(),
                        j2 <= nargs,
                        self.func.blocks@ == blocks_mid,
                        self.func.value_types@.len() == self.func.aliases@.len(),
                        f0.value_types@.len() <= self.func.value_types@.len(),
                        self.func.value_types@.len() + (nargs - j2) + sum_args(insts_l, i + 1)
                            + sum_blocks(g_func(f0), b + 1) <= u32::MAX,
                        self.func.stack_slots == f0.stack_slots,
                        self.stack_map_values == old(self).stack_map_values,
                        s_rw_args(
                            sm,
                            RwSt { vts: self.func.value_types@, als: self.func.aliases@ },
                            insts_l[i as int].args,
                            j2 as int,
                            g_insts(new_insts),
                            new_args@,
                        ) == s_rw_args(
                            sm,
                            st_i,
                            insts_l[i as int].args,
                            0,
                            acc_i,
                            Seq::<u32>::empty(),
                        ),
                    decreases nargs - j2,
                {
                    let ghost lift0 = g_insts(new_insts);
                    let a = blk.insts[i].args[j2];
                    match slot_map[a as usize] {
                        Some(slot) => {
                            let newv = self.func.value_types.len() as u32;
                            let ty = self.func.value_types[a as usize];
                            self.func.value_types.push(ty);
                            self.func.aliases.push(newv);
                            let mut rres: Vec<u32> = Vec::new();
                            rres.push(newv);
                            new_insts.push(
                                Inst {
                                    opcode: Opcode { is_call: false, is_return: false },
                                    args: Vec::new(),
                                    results: rres,
                                    stack_map: Vec::new(),
                                    kind: InstKind::StackLoad { slot, offset: 0 },
                                },
                            );
                            new_args.push(newv);
                            proof {
                                assert(g_insts(new_insts) =~~= lift0.push(s_load(newv, slot)));
                            }
                        },
                        None => {
                            new_args.push(a);
                        },
                    }
                    j2 += 1;
                }
                let r_results = copy_vals(&blk.insts[i].results);
                let r_smap = copy_entries(&blk.insts[i].stack_map);
                let opcode = blk.insts[i].opcode;
                let kind = blk.insts[i].kind;
                let ghost lift1 = g_insts(new_insts);
                new_insts.push(
                    Inst { opcode, args: new_args, results: r_results, stack_map: r_smap, kind },
                );
                proof {
                    let r = s_rw_args(
                        sm,
                        st_i,
                        insts_l[i as int].args,
                        0,
                        acc_i,
                        Seq::<u32>::empty(),
                    );
                    assert(g_insts(new_insts) =~~= lift1.push(
                        (GInst { args: r.1, ..insts_l[i as int] }),
                    ));
                }
                let nres = blk.insts[i].results.len();
                let ghost acc1 = g_insts(new_insts);
                let mut j3: usize = 0;
                while j3 < nres
                    invariant
                        func_wf(f0),
                        b < f0.blocks@.len(),
                        i < f0.blocks@[b as int].insts@.len(),
                        blk.insts@ == f0.blocks@[b as int].insts@,
                        insts_l[i as int] == g_inst(f0.blocks@[b as int].insts@[i as int]),
                        inst_vals_wf(
                            f0.blocks@[b as int].insts@[i as int],
                            f0.value_types@.len(),
                        ),
                        slot_map@ == sm,
                        sm.len() == f0.value_types@.len(),
                        nres == insts_l[i as int].results.len(),
                        j3 <= nres,
                        s_res_stores(
                            sm,
                            insts_l[i as int].results,
                            j3 as int,
                            g_insts(new_insts),
                        ) == s_res_stores(sm, insts_l[i as int].results, 0, acc1),
                    decreases nres - j3,
                {
                    let ghost lift0 = g_insts(new_insts);
                    let rv = blk.insts[i].results[j3];
                    if let Some(slot) = slot_map[rv as usize] {
                        let mut sargs: Vec<u32> = Vec::new();
                        sargs.push(rv);
                        new_insts.push(
                            Inst {
                                opcode: Opcode { is_call: false, is_return: false },
                                args: sargs,
                                results: Vec::new(),
                                stack_map: Vec::new(),
                                kind: InstKind::StackStore { slot, offset: 0 },
                            },
                        );
                        proof {
                            assert(g_insts(new_insts) =~~= lift0.push(s_store(rv, slot)));
                        }
                    }
                    j3 += 1;
                }
                i += 1;
            }
            blk.insts = new_insts;
            self.func.blocks.insert(b, blk);
            proof {
                let r = s_rw_block(sm, st_b, g_func(f0)[b as int]);
                assert(g_block(blk) =~~= r.0);
                assert(self.func.blocks@ =~= blocks_mid.insert(b as int, blk));
                assert(g_func(self.func).subrange(0, b + 1) =~~= gpre.subrange(0, b as int).push(
                    r.0,
                ));
                assert forall|b2: int| b + 1 <= b2 < nblocks implies self.func.blocks@[b2]
                    == f0.blocks@[b2] by {}
            }
            b += 1;
        }
        proof {
            assert(g_func(self.func).subrange(0, nblocks as int) =~~= g_func(self.func));
        }
    }
}

/// Attaching stack-map records changes nothing but the stack maps: block
/// count, parameters, instruction counts, opcodes, operands, results and
/// kinds all stay as they were.
proof fn lemma_apply_shape(bs: Seq<GBlock>, ms: Seq<(u32, u32, Seq<crate::func::StackMapEntry>)>, k: int)
    requires
        0 <= k,
        forall|j: int|
            0 <= j < ms.len() ==> (#[trigger] ms[j]).0 < bs.len() && ms[j].1 < bs[ms[j].0
                as int].insts.len(),
    ensures
        ({
            let r = crate::liveness::s_apply(bs, ms, k);
            &&& r.len() == bs.len()
            &&& forall|b: int|
                0 <= b < bs.len() ==> (#[trigger] r[b]).params == bs[b].params && r[b].insts.len()
                    == bs[b].insts.len()
            &&& forall|b: int, i: int|
                0 <= b < bs.len() && 0 <= i < bs[b].insts.len() ==> {
                    &&& (#[trigger] r[b].insts[i]).opcode == bs[b].insts[i].opcode
                    &&& r[b].insts[i].args == bs[b].insts[i].args
                    &&& r[b].insts[i].results == bs[b].insts[i].results
                    &&& r[b].insts[i].kind == bs[b].insts[i].kind
                }
        }),
    decreases ms.len() - k,
{
    if k < ms.len() {
        let b1 = ms[k].0 as int;
        let i1 = ms[k].1 as int;
        let blk = bs[b1];
        let inst = blk.insts[i1];
        let inst1 = GInst { stack_map: inst.stack_map + ms[k].2, ..inst };
        let bs1 = bs.update(b1, GBlock { insts: blk.insts.update(i1, inst1), ..blk });
        lemma_apply_shape(bs1, ms, k + 1);
    }
}

proof fn lemma_sum_args_eq(x: Seq<GInst>, y: Seq<GInst>, k: int)
    requires
        0 <= k,
        x.len() == y.len(),
        forall|i: int| 0 <= i < x.len() ==> (#[trigger] x[i]).args == y[i].args,
    ensures
        sum_args(x, k) == sum_args(y, k),
    decreases x.len() - k,
{
    if k < x.len() {
        lemma_sum_args_eq(x, y, k + 1);
    }
}

proof fn lemma_sum_blocks_eq(x: Seq<GBlock>, y: Seq<GBlock>, k: int)
    requires
        0 <= k,
        x.len() == y.len(),
        forall|b: int|
            0 <= b < x.len() ==> (#[trigger] x[b]).insts.len() == y[b].insts.len(),
        forall|b: int, i: int|
            0 <= b < x.len() && 0 <= i < x[b].insts.len() ==> (#[trigger] x[b].insts[i]).args
                == y[b].insts[i].args,
    ensures
        sum_blocks(x, k) == sum_blocks(y, k),
    decreases x.len() - k,
{
    if k < x.len() {
        lemma_sum_args_eq(x[k].insts, y[k].insts, 0);
        lemma_sum_blocks_eq(x, y, k + 1);
    }
}

impl FunctionBuilder {
    /// Insert spills for every value that needs to be in a stack map at
    /// every safepoint: a single-pass backward liveness analysis assigns
    /// slots and stack-map records, and a forward pass spills each
    /// slot-mapped value at definition and reloads it at every use. The
    /// combined effect is the pure composition of the `s_scan`, `s_apply`
    /// and `s_rw_blocks` mirrors, so the pass is deterministic.
    pub fn insert_safepoint_spills(&mut self, order: &Vec<u32>)
        requires
            builder_wf(*old(self)),
            old(self).func.stack_slots@.len() + old(self).func.value_types@.len() <= u32::MAX,
            old(self).func.value_types@.len() + sum_blocks(g_func(old(self).func), 0)
                <= u32::MAX,
            forall|k: int|
                0 <= k < order@.len() ==> #[trigger] order@[k] < old(self).func.blocks@.len(),
        ensures
            ({
                let sc = crate::liveness::s_scan(
                    old(self).func,
                    old(self).stack_map_values@,
                    order@,
                );
                let mid = crate::liveness::s_apply(g_func(old(self).func), sc.maps, 0);
                let r = s_rw_blocks(
                    sc.slot_map,
                    RwSt { vts: old(self).func.value_types@, als: old(self).func.aliases@ },
                    mid,
                    0,
                    Seq::<GBlock>::empty(),
                );
                &&& g_func(final(self).func) == r.0
                &&& final(self).func.value_types@ == r.1.vts
                &&& final(self).func.aliases@ == r.1.als
                &&& final(self).func.stack_slots@ == sc.slots
                &&& final(self).stack_map_values == old(self).stack_map_values
            }),
    {
        let ghost fb0 = *self;
        let slot_map = self.find_live_stack_map_values_at_each_safepoint(order);
        proof {
            let sc = crate::liveness::s_scan(fb0.func, fb0.stack_map_values@, order@);
            crate::liveness::lemma_scan_maps_keys(fb0.func, fb0.stack_map_values@, order@);
            assert forall|j: int| 0 <= j < sc.maps.len() implies (#[trigger] sc.maps[j]).0
                < g_func(fb0.func).len() && sc.maps[j].1 < g_func(fb0.func)[sc.maps[j].0
                as int].insts.len() by {}
            lemma_apply_shape(g_func(fb0.func), sc.maps, 0);
            let mid = crate::liveness::s_apply(g_func(fb0.func), sc.maps, 0);
            assert(g_func(self.func) == mid);
            assert forall|b: int|
                0 <= b < fb0.func.blocks@.len() implies (#[trigger] g_func(fb0.func)[b])
                == g_block(fb0.func.blocks@[b]) by {}
            assert forall|b: int|
                0 <= b < self.func.blocks@.len() implies (#[trigger] g_func(self.func)[b])
                == g_block(self.func.blocks@[b]) by {}
            // the rewritten function is still well formed
            assert(self.func.blocks@.len() == fb0.func.blocks@.len()) by {
                assert(g_func(self.func).len() == self.func.blocks@.len());
                assert(g_func(fb0.func).len() == fb0.func.blocks@.len());
            }
            assert forall|b: int, i: int|
                0 <= b < self.func.blocks@.len() && 0 <= i
                    < self.func.blocks@[b].insts@.len() implies inst_vals_wf(
                #[trigger] self.func.blocks@[b].insts@[i],
                self.func.value_types@.len(),
            ) by {
                assert(g_func(self.func)[b] == g_block(self.func.blocks@[b]));
                assert(g_func(fb0.func)[b] == g_block(fb0.func.blocks@[b]));
                assert(g_block(self.func.blocks@[b]).insts.len()
                    == self.func.blocks@[b].insts@.len());
                assert(g_block(fb0.func.blocks@[b]).insts.len()
                    == fb0.func.blocks@[b].insts@.len());
                assert(i < fb0.func.blocks@[b].insts@.len());
                assert(g_block(self.func.blocks@[b]).insts[i] == g_inst(
                    self.func.blocks@[b].insts@[i],
                ));
                assert(g_block(fb0.func.blocks@[b]).insts[i] == g_inst(
                    fb0.func.blocks@[b].insts@[i],
                ));
                assert(inst_vals_wf(fb0.func.blocks@[b].insts@[i], fb0.func.value_types@.len()));
            }
            assert forall|b: int|
                0 <= b < self.func.blocks@.len() implies (#[trigger] self.func.blocks@[b]).insts@.len()
                <= u32::MAX && (forall|k: int|
                0 <= k < self.func.blocks@[b].params@.len() ==> #[trigger] self.func.blocks@[b].params@[k]
                    < self.func.value_types@.len()) by {
                assert(g_func(self.func)[b] == g_block(self.func.blocks@[b]));
                assert(g_func(fb0.func)[b] == g_block(fb0.func.blocks@[b]));
                assert(g_block(self.func.blocks@[b]).insts.len()
                    == self.func.blocks@[b].insts@.len());
                assert(g_block(fb0.func.blocks@[b]).insts.len()
                    == fb0.func.blocks@[b].insts@.len());
                assert(g_block(self.func.blocks@[b]).params == self.func.blocks@[b].params@);
                assert(g_block(fb0.func.blocks@[b]).params == fb0.func.blocks@[b].params@);
            }
            assert(func_wf(self.func));
            lemma_sum_blocks_eq(mid, g_func(fb0.func), 0);
        }
        self.insert_safepoint_spills_and_reloads(&slot_map);
    }
}

proof fn lemma_param_stores_prefix(sm: Seq<Option<u32>>, params: Seq<u32>, k: int, acc: Seq<GInst>)
    requires
        0 <= k,
    ensures
        ({
            let r = s_param_stores(sm, params, k, acc);
            &&& r.len() >= acc.len()
            &&& forall|p: int| 0 <= p < acc.len() ==> r[p] == acc[p]
        }),
    decreases params.len() - k,
{
    if k < params.len() {
        match sm[params[k] as int] {
            Some(slot) => {
                lemma_param_stores_prefix(sm, params, k + 1, acc.push(s_store(params[k], slot)));
            },
            None => {
                lemma_param_stores_prefix(sm, params, k + 1, acc);
            },
        }
    }
}

proof fn lemma_res_stores_prefix(sm: Seq<Option<u32>>, results: Seq<u32>, k: int, acc: Seq<GInst>)
    requires
        0 <= k,
    ensures
        ({
            let r = s_res_stores(sm, results, k, acc);
            &&& r.len() >= acc.len()
            &&& forall|p: int| 0 <= p < acc.len() ==> r[p] == acc[p]
        }),
    decreases results.len() - k,
{
    if k < results.len() {
        match sm[results[k] as int] {
            Some(slot) => {
                lemma_res_stores_prefix(sm, results, k + 1, acc.push(s_store(results[k], slot)));
            },
            None => {
                lemma_res_stores_prefix(sm, results, k + 1, acc);
            },
        }
    }
}

proof fn lemma_rw_args_prefix(
    sm: Seq<Option<u32>>,
    st: RwSt,
    args: Seq<u32>,
    k: int,
    acc_i: Seq<GInst>,
    acc_a: Seq<u32>,
)
    requires
        0 <= k,
    ensures
        ({
            let r = s_rw_args(sm, st, args, k, acc_i, acc_a);
            &&& r.0.len() >= acc_i.len()
            &&& forall|p: int| 0 <= p < acc_i.len() ==> r.0[p] == acc_i[p]
            &&& r.1.len() == acc_a.len() + if k <= args.len() {
                args.len() - k
            } else {
                0
            }
            &&& forall|p: int| 0 <= p < acc_a.len() ==> r.1[p] == acc_a[p]
            &&& r.2.vts.len() >= st.vts.len()
            &&& forall|p: int| 0 <= p < st.vts.len() ==> r.2.vts[p] == st.vts[p]
        }),
    decreases args.len() - k,
{
    if k < args.len() {
        let r = s_rw_args(sm, st, args, k, acc_i, acc_a);
        match sm[args[k] as int] {
            Some(slot) => {
                let newv = st.vts.len() as u32;
                let st1 = RwSt {
                    vts: st.vts.push(st.vts[args[k] as int]),
                    als: st.als.push(newv),
                };
                let acc_i1 = acc_i.push(s_load(newv, slot));
                let acc_a1 = acc_a.push(newv);
                lemma_rw_args_prefix(sm, st1, args, k + 1, acc_i1, acc_a1);
                assert forall|p: int| 0 <= p < acc_i.len() implies r.0[p] == acc_i[p] by {
                    assert(r.0[p] == acc_i1[p]);
                }
                assert forall|p: int| 0 <= p < acc_a.len() implies r.1[p] == acc_a[p] by {
                    assert(r.1[p] == acc_a1[p]);
                }
                assert forall|p: int| 0 <= p < st.vts.len() implies r.2.vts[p] == st.vts[p] by {
                    assert(r.2.vts[p] == st1.vts[p]);
                }
            },
            None => {
                let acc_a1 = acc_a.push(args[k]);
                lemma_rw_args_prefix(sm, st, args, k + 1, acc_i, acc_a1);
                assert forall|p: int| 0 <= p < acc_a.len() implies r.1[p] == acc_a[p] by {
                    assert(r.1[p] == acc_a1[p]);
                }
            },
        }
    }
}

proof fn lemma_arg_reload(
    sm: Seq<Option<u32>>,
    st: RwSt,
    args: Seq<u32>,
    k: int,
    acc_i: Seq<GInst>,
    acc_a: Seq<u32>,
    j: int,
)
    requires
        0 <= k <= j < args.len(),
        sm[args[j] as int] is Some,
        args[j] < st.vts.len(),
        st.vts.len() + (args.len() - k) <= u32::MAX,
    ensures
        ({
            let r = s_rw_args(sm, st, args, k, acc_i, acc_a);
            let newa = r.1[acc_a.len() + (j - k)];
            &&& newa < r.2.vts.len()
            &&& r.2.vts[newa as int] == st.vts[args[j] as int]
            &&& exists|p: int|
                acc_i.len() <= p < r.0.len() && r.0[p] == s_load(newa, sm[args[j] as int]->0)
        }),
    decreases j - k,
{
    let r = s_rw_args(sm, st, args, k, acc_i, acc_a);
    if k == j {
        match sm[args[k] as int] {
            Some(slot) => {
                let newv = st.vts.len() as u32;
                let st1 = RwSt {
                    vts: st.vts.push(st.vts[args[k] as int]),
                    als: st.als.push(newv),
                };
                let acc_i1 = acc_i.push(s_load(newv, slot));
                let acc_a1 = acc_a.push(newv);
                lemma_rw_args_prefix(sm, st1, args, k + 1, acc_i1, acc_a1);
                assert(r.1[acc_a.len() as int] == acc_a1[acc_a.len() as int]);
                assert(acc_a1[acc_a.len() as int] == newv);
                assert(r.0[acc_i.len() as int] == acc_i1[acc_i.len() as int]);
                assert(acc_i1[acc_i.len() as int] == s_load(newv, slot));
                assert(st1.vts[newv as int] == st.vts[args[j] as int]);
                assert(r.2.vts[newv as int] == st1.vts[newv as int]);
                assert(acc_i.len() <= acc_i.len() < r.0.len() && r.0[acc_i.len() as int]
                    == s_load(newv, sm[args[j] as int]->0));
            },
            None => {
                assert(false);
            },
        }
    } else {
        match sm[args[k] as int] {
            Some(slot) => {
                let newv = st.vts.len() as u32;
                let st1 = RwSt {
                    vts: st.vts.push(st.vts[args[k] as int]),
                    als: st.als.push(newv),
                };
                let acc_i1 = acc_i.push(s_load(newv, slot));
                let acc_a1 = acc_a.push(newv);
                lemma_arg_reload(sm, st1, args, k + 1, acc_i1, acc_a1, j);
                assert(st1.vts[args[j] as int] == st.vts[args[j] as int]);
                assert(acc_a1.len() + (j - (k + 1)) == acc_a.len() + (j - k));
                let newa = r.1[acc_a.len() + (j - k)];
                let p0 = choose|p: int|
                    acc_i1.len() <= p < r.0.len() && r.0[p] == s_load(
                        newa,
                        sm[args[j] as int]->0,
                    );
                assert(acc_i.len() <= p0 < r.0.len() && r.0[p0] == s_load(
                    newa,
                    sm[args[j] as int]->0,
                ));
            },
            None => {
                lemma_arg_reload(sm, st, args, k + 1, acc_i, acc_a.push(args[k]), j);
                assert((acc_a.push(args[k])).len() + (j - (k + 1)) == acc_a.len() + (j - k));
            },
        }
    }
}

/// Law: every use of a slot-mapped value is replaced by the result of a
/// load of the same type from the same slot, inserted before the using
/// instruction (between the previous instruction's output and the
/// rewritten instruction).
pub proof fn lemma_use_reloaded(
    sm: Seq<Option<u32>>,
    st: RwSt,
    inst: GInst,
    acc: Seq<GInst>,
    j: int,
)
    requires
        0 <= j < inst.args.len(),
        sm[inst.args[j] as int] is Some,
        inst.args[j] < st.vts.len(),
        st.vts.len() + inst.args.len() <= u32::MAX,
    ensures
        ({
            let ra = s_rw_args(sm, st, inst.args, 0, acc, Seq::<u32>::empty());
            let r = s_rw_inst(sm, st, inst, acc);
            let newa = ra.1[j];
            &&& ra.1.len() == inst.args.len()
            &&& r.0.len() > ra.0.len()
            // the instruction itself, with operand j replaced by the load's result
            &&& r.0[ra.0.len() as int] == (GInst { args: ra.1, ..inst })
            // the load's value has the used value's type
            &&& newa < ra.2.vts.len()
            &&& ra.2.vts[newa as int] == st.vts[inst.args[j] as int]
            // and the load stands before the rewritten instruction
            &&& exists|p: int|
                acc.len() <= p < ra.0.len() && r.0[p] == s_load(newa, sm[inst.args[j] as int]->0)
        }),
{
    let ra = s_rw_args(sm, st, inst.args, 0, acc, Seq::<u32>::empty());
    let acc1 = ra.0.push(GInst { args: ra.1, ..inst });
    lemma_rw_args_prefix(sm, st, inst.args, 0, acc, Seq::<u32>::empty());
    lemma_arg_reload(sm, st, inst.args, 0, acc, Seq::<u32>::empty(), j);
    lemma_res_stores_prefix(sm, inst.results, 0, acc1);
    let r = s_rw_inst(sm, st, inst, acc);
    assert(r.0[ra.0.len() as int] == acc1[ra.0.len() as int]);
    let newa = ra.1[j];
    let p0 = choose|p: int|
        acc.len() <= p < ra.0.len() && ra.0[p] == s_load(newa, sm[inst.args[j] as int]->0);
    assert(acc1[p0] == ra.0[p0]);
    assert(r.0[p0] == acc1[p0]);
}

proof fn lemma_res_store_found(sm: Seq<Option<u32>>, results: Seq<u32>, k: int, acc: Seq<GInst>, j: int)
    requires
        0 <= k <= j < results.len(),
        sm[results[j] as int] is Some,
    ensures
        ({
            let r = s_res_stores(sm, results, k, acc);
            exists|p: int|
                acc.len() <= p < r.len() && r[p] == s_store(results[j], sm[results[j] as int]->0)
        }),
    decreases j - k,
{
    let r = s_res_stores(sm, results, k, acc);
    if k == j {
        match sm[results[k] as int] {
            Some(slot) => {
                let acc1 = acc.push(s_store(results[k], slot));
                lemma_res_stores_prefix(sm, results, k + 1, acc1);
                assert(r[acc.len() as int] == acc1[acc.len() as int]);
                assert(acc.len() <= acc.len() < r.len() && r[acc.len() as int] == s_store(
                    results[j],
                    sm[results[j] as int]->0,
                ));
            },
            None => {
                assert(false);
            },
        }
    } else {
        match sm[results[k] as int] {
            Some(slot) => {
                lemma_res_store_found(sm, results, k + 1, acc.push(s_store(results[k], slot)), j);
                let acc1 = acc.push(s_store(results[k], slot));
                let p0 = choose|p: int|
                    acc1.len() <= p < r.len() && r[p] == s_store(
                        results[j],
                        sm[results[j] as int]->0,
                    );
                assert(acc.len() <= p0 < r.len() && r[p0] == s_store(
                    results[j],
                    sm[results[j] as int]->0,
                ));
            },
            None => {
                lemma_res_store_found(sm, results, k + 1, acc, j);
            },
        }
    }
}

/// Law: every slot-mapped result of an instruction is stored to its slot
/// by a store inserted after the rewritten instruction.
pub proof fn lemma_def_spilled(
    sm: Seq<Option<u32>>,
    st: RwSt,
    inst: GInst,
    acc: Seq<GInst>,
    j: int,
)
    requires
        0 <= j < inst.results.len(),
        sm[inst.results[j] as int] is Some,
    ensures
        ({
            let ra = s_rw_args(sm, st, inst.args, 0, acc, Seq::<u32>::empty());
            let r = s_rw_inst(sm, st, inst, acc);
            exists|p: int|
                ra.0.len() < p < r.0.len() && r.0[p] == s_store(
                    inst.results[j],
                    sm[inst.results[j] as int]->0,
                )
        }),
{
    let ra = s_rw_args(sm, st, inst.args, 0, acc, Seq::<u32>::empty());
    let acc1 = ra.0.push(GInst { args: ra.1, ..inst });
    lemma_res_store_found(sm, inst.results, 0, acc1, j);
    let r = s_rw_inst(sm, st, inst, acc);
    assert(r.0 == s_res_stores(sm, inst.results, 0, acc1));
    let p0 = choose|p: int|
        acc1.len() <= p < r.0.len() && r.0[p] == s_store(
            inst.results[j],
            sm[inst.results[j] as int]->0,
        );
    assert(ra.0.len() < p0 < r.0.len() && r.0[p0] == s_store(
        inst.results[j],
        sm[inst.results[j] as int]->0,
    ));
}

proof fn lemma_param_store_found(sm: Seq<Option<u32>>, params: Seq<u32>, k: int, acc: Seq<GInst>, j: int)
    requires
        0 <= k <= j < params.len(),
        sm[params[j] as int] is Some,
    ensures
        ({
            let r = s_param_stores(sm, params, k, acc);
            exists|p: int|
                acc.len() <= p < r.len() && r[p] == s_store(params[j], sm[params[j] as int]->0)
        }),
    decreases j - k,
{
    let r = s_param_stores(sm, params, k, acc);
    if k == j {
        match sm[params[k] as int] {
            Some(slot) => {
                let acc1 = acc.push(s_store(params[k], slot));
                lemma_param_stores_prefix(sm, params, k + 1, acc1);
                assert(r[acc.len() as int] == acc1[acc.len() as int]);
                assert(acc.len() <= acc.len() < r.len() && r[acc.len() as int] == s_store(
                    params[j],
                    sm[params[j] as int]->0,
                ));
            },
            None => {
                assert(false);
            },
        }
    } else {
        match sm[params[k] as int] {
            Some(slot) => {
                lemma_param_store_found(sm, params, k + 1, acc.push(s_store(params[k], slot)), j);
                let acc1 = acc.push(s_store(params[k], slot));
                let p0 = choose|p: int|
                    acc1.len() <= p < r.len() && r[p] == s_store(
                        params[j],
                        sm[params[j] as int]->0,
                    );
                assert(acc.len() <= p0 < r.len() && r[p0] == s_store(
                    params[j],
                    sm[params[j] as int]->0,
                ));
            },
            None => {
                lemma_param_store_found(sm, params, k + 1, acc, j);
            },
        }
    }
}

proof fn lemma_rw_insts_prefix(
    sm: Seq<Option<u32>>,
    st: RwSt,
    insts: Seq<GInst>,
    k: int,
    acc: Seq<GInst>,
)
    requires
        0 <= k,
    ensures
        ({
            let r = s_rw_insts(sm, st, insts, k, acc);
            &&& r.0.len() >= acc.len()
            &&& forall|p: int| 0 <= p < acc.len() ==> r.0[p] == acc[p]
        }),
    decreases insts.len() - k,
{
    if k < insts.len() {
        let r = s_rw_insts(sm, st, insts, k, acc);
        let ri = s_rw_inst(sm, st, insts[k], acc);
        lemma_rw_args_prefix(sm, st, insts[k].args, 0, acc, Seq::<u32>::empty());
        let ra = s_rw_args(sm, st, insts[k].args, 0, acc, Seq::<u32>::empty());
        let acc1 = ra.0.push(GInst { args: ra.1, ..insts[k] });
        lemma_res_stores_prefix(sm, insts[k].results, 0, acc1);
        lemma_rw_insts_prefix(sm, ri.1, insts, k + 1, ri.0);
        assert(ri.0 == s_res_stores(sm, insts[k].results, 0, acc1));
        assert forall|p: int| 0 <= p < acc.len() implies r.0[p] == acc[p] by {
            assert(r.0[p] == ri.0[p]);
            assert(ri.0[p] == acc1[p]);
            assert(acc1[p] == ra.0[p]);
        }
    }
}

/// Law: a slot-mapped block parameter is stored to its slot by one of the
/// stores that form the rewritten block's prefix, before any of the
/// block's original instructions.
pub proof fn lemma_param_spilled(sm: Seq<Option<u32>>, st: RwSt, blk: GBlock, j: int)
    requires
        0 <= j < blk.params.len(),
        sm[blk.params[j] as int] is Some,
    ensures
        ({
            let prefix = s_param_stores(sm, blk.params, 0, Seq::<GInst>::empty());
            let r = s_rw_block(sm, st, blk);
            exists|p: int|
                0 <= p < prefix.len() && r.0.insts[p] == s_store(
                    blk.params[j],
                    sm[blk.params[j] as int]->0,
                )
        }),
{
    let prefix = s_param_stores(sm, blk.params, 0, Seq::<GInst>::empty());
    lemma_param_store_found(sm, blk.params, 0, Seq::<GInst>::empty(), j);
    lemma_rw_insts_prefix(sm, st, blk.insts, 0, prefix);
    let p0 = choose|p: int|
        0 <= p < prefix.len() && prefix[p] == s_store(blk.params[j], sm[blk.params[j] as int]->0);
    assert(s_rw_block(sm, st, blk).0.insts[p0] == prefix[p0]);
}


} // verus!
