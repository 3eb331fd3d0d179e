//! A small SSA intermediate representation: enough of a function — blocks,
//! instructions, values with byte widths, value aliases, stack slots and
//! per-instruction stack maps — for the safepoint spill pass to be stated
//! and verified over it.
//!
//! Values and stack slots are dense `u32` indices into the function's
//! tables. The host is expected to hand the pass a function in this shape
//! together with the set of values the garbage collector must observe.

use vstd::prelude::*;

verus! {

/// A value's type: its width in bytes (the only attribute the pass reads).
#[derive(Clone, Copy, PartialEq, Eq, Structural, Debug)]
pub struct ValType {
    pub bytes: u32,
}

/// The two opcode predicates the pass queries. A non-tail call has
/// `is_call` and not `is_return`; a tail call has both.
#[derive(Clone, Copy, PartialEq, Eq, Structural, Debug)]
pub struct Opcode {
    pub is_call: bool,
    pub is_return: bool,
}

/// One stack-map record: the value's type, its slot, and a byte offset
/// (always zero in this pass).
#[derive(Clone, Copy, PartialEq, Eq, Structural, Debug)]
pub struct StackMapEntry {
    pub ty: ValType,
    pub slot: u32,
    pub offset: u32,
}

/// What an instruction is, beyond its operands: an ordinary instruction,
/// or one of the two spill instructions this pass inserts.
#[derive(Clone, Copy, PartialEq, Eq, Structural, Debug)]
pub enum InstKind {
    Plain,
    StackStore { slot: u32, offset: u32 },
    StackLoad { slot: u32, offset: u32 },
}

/// An instruction: opcode predicates, operand values (branch arguments
/// included), result values, and its stack map.
pub struct Inst {
    pub opcode: Opcode,
    pub args: Vec<u32>,
    pub results: Vec<u32>,
    pub stack_map: Vec<StackMapEntry>,
    pub kind: InstKind,
}

/// A basic block: parameters and instructions.
pub struct Block {
    pub params: Vec<u32>,
    pub insts: Vec<Inst>,
}

/// A stack slot: byte size and log2 alignment; all slots here are explicit.
#[derive(Clone, Copy, PartialEq, Eq, Structural, Debug)]
pub struct StackSlotData {
    pub size: u32,
    pub log2_align: u32,
}

/// A function: blocks, the per-value type table, the alias table (each
/// value's canonical value), and the stack slots.
pub struct Function {
    pub blocks: Vec<Block>,
    pub value_types: Vec<ValType>,
    pub aliases: Vec<u32>,
    pub stack_slots: Vec<StackSlotData>,
}

/// A function under construction together with the set of values that
/// must appear in stack maps.
pub struct FunctionBuilder {
    pub func: Function,
    pub stack_map_values: crate::idset::IdSet,
}

/// The spec-level image of an instruction.
#[verifier::ext_equal]
pub ghost struct GInst {
    pub opcode: Opcode,
    pub args: Seq<u32>,
    pub results: Seq<u32>,
    pub stack_map: Seq<StackMapEntry>,
    pub kind: InstKind,
}

/// The spec-level image of a block.
#[verifier::ext_equal]
pub ghost struct GBlock {
    pub params: Seq<u32>,
    pub insts: Seq<GInst>,
}

pub open spec fn g_inst(i: Inst) -> GInst {
    GInst {
        opcode: i.opcode,
        args: i.args@,
        results: i.results@,
        stack_map: i.stack_map@,
        kind: i.kind,
    }
}

pub open spec fn g_block(b: Block) -> GBlock {
    GBlock { params: b.params@, insts: b.insts@.map_values(|i: Inst| g_inst(i)) }
}

/// The spec-level image of a function's blocks.
pub open spec fn g_func(f: Function) -> Seq<GBlock> {
    f.blocks@.map_values(|b: Block| g_block(b))
}

/// All value indices an instruction mentions are in range.
pub open spec fn inst_vals_wf(i: Inst, n: nat) -> bool {
    &&& forall|k: int| 0 <= k < i.args@.len() ==> #[trigger] i.args@[k] < n
    &&& forall|k: int| 0 <= k < i.results@.len() ==> #[trigger] i.results@[k] < n
}

/// Internal consistency of the function: equal-length value tables, every
/// mentioned value in range, and a resolved (idempotent) alias table.
pub open spec fn func_wf(f: Function) -> bool {
    &&& f.value_types@.len() == f.aliases@.len()
    &&& f.value_types@.len() <= u32::MAX
    &&& f.blocks@.len() <= u32::MAX
    &&& forall|b: int|
        0 <= b < f.blocks@.len() ==> (#[trigger] f.blocks@[b]).insts@.len() <= u32::MAX
    &&& forall|v: int|
        0 <= v < f.aliases@.len() ==> #[trigger] f.aliases@[v] < f.value_types@.len()
    &&& forall|b: int, k: int|
        0 <= b < f.blocks@.len() && 0 <= k < f.blocks@[b].params@.len()
            ==> #[trigger] f.blocks@[b].params@[k] < f.value_types@.len()
    &&& forall|b: int, i: int|
        0 <= b < f.blocks@.len() && 0 <= i < f.blocks@[b].insts@.len() ==> inst_vals_wf(
            #[trigger] f.blocks@[b].insts@[i],
            f.value_types@.len(),
        )
}

/// The widths the slot pool supports.
pub open spec fn width_ok(bytes: u32) -> bool {
    bytes == 1 || bytes == 2 || bytes == 4 || bytes == 8 || bytes == 16
}

/// The builder is consistent: a well-formed function and a sorted set of
/// GC-managed values, all in range and of supported widths.
pub open spec fn builder_wf(fb: FunctionBuilder) -> bool {
    &&& func_wf(fb.func)
    &&& crate::idset::sorted(fb.stack_map_values@)
    &&& forall|k: int|
        0 <= k < fb.stack_map_values@.len() ==> #[trigger] fb.stack_map_values@[k]
            < fb.func.value_types@.len()
    &&& forall|k: int|
        0 <= k < fb.stack_map_values@.len() ==> width_ok(
            fb.func.value_types@[#[trigger] fb.stack_map_values@[k] as int].bytes,
        )
}

} // verus!
