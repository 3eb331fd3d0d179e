//! The decision-tree input of the code emitter: bindings, constraints, and
//! the serialized control-flow blocks whose leaves are return expressions.
//!
//! A `RuleSet` carries the binding table and the root block that an
//! upstream serializer produced from it. Bindings only refer to bindings
//! with smaller ids, which is what makes expression emission terminate.

use vstd::prelude::*;
use crate::sema::ReturnKind;
use crate::sema::Pos;
use crate::sema::Type;
use crate::sema::TypeEnv;
use crate::sema::TermEnv;
use crate::sema::pos_wf;

verus! {

/// A value produced while evaluating a rule: a constant, an argument, a
/// call, a construction, or a projection out of a match.
pub enum Binding {
    ConstInt { val: i128, ty: u32 },
    ConstPrim { val: u32 },
    Argument { index: u32 },
    Extractor { term: u32, parameter: u32 },
    Constructor { term: u32, parameters: Vec<u32> },
    MakeVariant { ty: u32, variant: u32, fields: Vec<u32> },
    MakeSome { inner: u32 },
    MatchSome { source: u32 },
    MatchTuple { source: u32, field: u32 },
    MatchVariant { source: u32, variant: u32, field: u32 },
    IterElem { source: u32 },
}

/// A pattern that a match arm tests its source against.
#[derive(Clone, Copy)]
pub enum Constraint {
    ConstInt { val: i128, ty: u32 },
    ConstPrim { val: u32 },
    Variant { ty: u32, variant: u32 },
    IsSome,
}

/// One arm of a match: the constraint, the sub-bindings it introduces
/// (aligned with the constraint's fields; absent ones are elided), and the
/// nested block.
pub struct MatchArm {
    pub constraint: Constraint,
    pub bindings: Vec<Option<u32>>,
    pub body: Block,
}

/// Control flow at the end of an evaluation step.
pub enum ControlFlow {
    Match { source: u32, arms: Vec<MatchArm> },
    Equal { a: u32, b: u32, body: Block },
    Loop { result: u32, body: Block },
    Return { pos: Pos, result: u32 },
}

/// Bindings to materialize, then a control-flow check.
pub struct EvalStep {
    pub bind_order: Vec<u32>,
    pub check: ControlFlow,
}

/// A sequence of evaluation steps.
pub struct Block {
    pub steps: Vec<EvalStep>,
}

/// The binding table of one term's rules together with the serialized
/// decision tree over it.
pub struct RuleSet {
    pub bindings: Vec<Binding>,
    pub root: Block,
}

/// Well-formedness of the binding with id `i`: all references point to
/// smaller binding ids, and every index into an environment is in range.
pub open spec fn binding_wf(te: TypeEnv, tme: TermEnv, b: Binding, i: int) -> bool {
    match b {
        Binding::ConstInt { val, ty } => ty < te.types@.len(),
        Binding::ConstPrim { val } => val < te.syms@.len(),
        Binding::Argument { index } => true,
        Binding::Extractor { term, parameter } => {
            &&& parameter < i
            &&& term < tme.terms@.len()
            &&& tme.terms@[term as int].extractor is Some
            &&& tme.terms@[term as int].extractor->0.param_tys@.len() == 1
        },
        Binding::Constructor { term, parameters } => {
            &&& forall|k: int| 0 <= k < parameters@.len() ==> #[trigger] parameters@[k] < i
            &&& term < tme.terms@.len()
            &&& tme.terms@[term as int].constructor is Some
            &&& parameters@.len() == tme.terms@[term as int].constructor->0.param_tys@.len()
        },
        Binding::MakeVariant { ty, variant, fields } => {
            &&& forall|k: int| 0 <= k < fields@.len() ==> #[trigger] fields@[k] < i
            &&& ty < te.types@.len()
            &&& te.types@[ty as int] is Enum
            &&& variant < te.types@[ty as int]->Enum_variants@.len()
            &&& fields@.len()
                == te.types@[ty as int]->Enum_variants@[variant as int].fields@.len()
        },
        Binding::MakeSome { inner } => inner < i,
        Binding::MatchSome { source } => source < i,
        Binding::MatchTuple { source, field } => source < i,
        Binding::MatchVariant { source, variant, field } => source < i,
        Binding::IterElem { source } => source < i,
    }
}

/// Every binding of the rule set is well-formed.
pub open spec fn bindings_wf(te: TypeEnv, tme: TermEnv, rs: RuleSet) -> bool {
    forall|i: int|
        0 <= i < rs.bindings@.len() ==> binding_wf(te, tme, #[trigger] rs.bindings@[i], i)
}

pub open spec fn constraint_wf(te: TypeEnv, c: Constraint, n_bindings: int) -> bool {
    match c {
        Constraint::ConstInt { val, ty } => ty < te.types@.len(),
        Constraint::ConstPrim { val } => val < te.syms@.len(),
        Constraint::Variant { ty, variant } => {
            &&& ty < te.types@.len()
            &&& te.types@[ty as int] is Enum
            &&& variant < te.types@[ty as int]->Enum_variants@.len()
        },
        Constraint::IsSome => n_bindings >= 1,
    }
}

/// Well-formedness of a block against the rule set: every binding id it
/// mentions exists, every match has at least one arm, and the result of a
/// `Loop` is an `IterElem` binding.
pub open spec fn block_wf(te: TypeEnv, rs: RuleSet, block: Block) -> bool
    decreases block,
{
    forall|s: int|
        0 <= s < block.steps@.len() ==> step_wf(te, rs, #[trigger] block.steps@[s])
}

pub open spec fn step_wf(te: TypeEnv, rs: RuleSet, step: EvalStep) -> bool
    decreases step,
{
    &&& forall|k: int|
        0 <= k < step.bind_order@.len() ==> #[trigger] step.bind_order@[k]
            < rs.bindings@.len()
    &&& match step.check {
        ControlFlow::Match { source, arms } => {
            &&& source < rs.bindings@.len()
            &&& arms@.len() >= 1
            &&& forall|a: int| 0 <= a < arms@.len() ==> arm_wf(te, rs, #[trigger] arms@[a])
        },
        ControlFlow::Equal { a, b, body } => {
            &&& a < rs.bindings@.len()
            &&& b < rs.bindings@.len()
            &&& block_wf(te, rs, body)
        },
        ControlFlow::Loop { result, body } => {
            &&& result < rs.bindings@.len()
            &&& rs.bindings@[result as int] is IterElem
            &&& block_wf(te, rs, body)
        },
        ControlFlow::Return { pos, result } => {
            &&& result < rs.bindings@.len()
            &&& pos_wf(te, pos)
        },
    }
}

pub open spec fn arm_wf(te: TypeEnv, rs: RuleSet, arm: MatchArm) -> bool
    decreases arm,
{
    &&& constraint_wf(te, arm.constraint, arm.bindings@.len() as int)
    &&& forall|k: int|
        0 <= k < arm.bindings@.len() ==> (#[trigger] arm.bindings@[k]) is Some
            ==> arm.bindings@[k]->0 < rs.bindings@.len()
    &&& block_wf(te, rs, arm.body)
}

/// The validity rule on serialized blocks: unless the return kind is
/// `Multi`, a block contains no `Loop`, and a `Return` step can only be
/// the last step. Violations are upstream bugs.
pub open spec fn block_valid(ret_kind: ReturnKind, block: Block) -> bool
    decreases block,
{
    &&& (ret_kind != ReturnKind::Multi ==> forall|s: int|
        0 <= s < block.steps@.len() ==> {
            &&& !((#[trigger] block.steps@[s]).check is Loop)
            &&& (block.steps@[s].check is Return ==> s == block.steps@.len() - 1)
        })
    &&& forall|s: int|
        0 <= s < block.steps@.len() ==> step_valid(ret_kind, #[trigger] block.steps@[s])
}

pub open spec fn step_valid(ret_kind: ReturnKind, step: EvalStep) -> bool
    decreases step,
{
    match step.check {
        ControlFlow::Match { source, arms } => forall|a: int|
            0 <= a < arms@.len() ==> block_valid(ret_kind, (#[trigger] arms@[a]).body),
        ControlFlow::Equal { a, b, body } => block_valid(ret_kind, body),
        ControlFlow::Loop { result, body } => block_valid(ret_kind, body),
        ControlFlow::Return { pos, result } => true,
    }
}

pub open spec fn ruleset_wf(te: TypeEnv, tme: TermEnv, rs: RuleSet) -> bool {
    &&& rs.bindings@.len() <= u32::MAX
    &&& bindings_wf(te, tme, rs)
    &&& block_wf(te, rs, rs.root)
}

/// Check the serialized-block validity rule at run time: `true` exactly
/// when `block` satisfies `block_valid` for `ret_kind`. A host can test a
/// decision tree with this before handing it to the emitter.
pub fn validate_block(ret_kind: ReturnKind, block: &Block) -> (r: bool)
    ensures
        r == block_valid(ret_kind, *block),
    decreases block,
{
    let multi = match ret_kind {
        ReturnKind::Multi => true,
        _ => false,
    };
    let n = block.steps.len();
    let mut k: usize = 0;
    while k < n
        invariant
            multi == (ret_kind is Multi),
            n == block.steps@.len(),
            k <= n,
            forall|s: int|
                0 <= s < k ==> step_valid(ret_kind, #[trigger] block.steps@[s]),
            !multi ==> forall|s: int|
                0 <= s < k ==> {
                    &&& !((#[trigger] block.steps@[s]).check is Loop)
                    &&& (block.steps@[s].check is Return ==> s == block.steps@.len() - 1)
                },
        decreases n - k,
    {
        if !multi {
            let is_loop = match &block.steps[k].check {
                ControlFlow::Loop { .. } => true,
                _ => false,
            };
            if is_loop {
                proof {
                    assert(!block_valid(ret_kind, *block));
                }
                return false;
            }
            let is_ret = match &block.steps[k].check {
                ControlFlow::Return { .. } => true,
                _ => false,
            };
            if is_ret && k != n - 1 {
                proof {
                    assert(!block_valid(ret_kind, *block));
                }
                return false;
            }
        }
        match &block.steps[k].check {
            ControlFlow::Match { source, arms } => {
                let na = arms.len();
                let mut a: usize = 0;
                while a < na
                    invariant
                        k < block.steps@.len(),
                        block.steps@[k as int].check matches ControlFlow::Match {
                            arms: sarms,
                            ..
                        } && sarms@ == arms@,
                        na == arms@.len(),
                        a <= na,
                        forall|x: int|
                            0 <= x < a ==> block_valid(
                                ret_kind,
                                (#[trigger] arms@[x]).body,
                            ),
                    decreases na - a,
                {
                    if !validate_block(ret_kind, &arms[a].body) {
                        proof {
                            assert(!step_valid(ret_kind, block.steps@[k as int]));
                            assert(!block_valid(ret_kind, *block));
                        }
                        return false;
                    }
                    a += 1;
                }
                proof {
                    assert(step_valid(ret_kind, block.steps@[k as int]));
                }
            },
            ControlFlow::Equal { body, .. } => {
                if !validate_block(ret_kind, body) {
                    proof {
                        assert(!step_valid(ret_kind, block.steps@[k as int]));
                        assert(!block_valid(ret_kind, *block));
                    }
                    return false;
                }
            },
            ControlFlow::Loop { body, .. } => {
                if !validate_block(ret_kind, body) {
                    proof {
                        assert(!step_valid(ret_kind, block.steps@[k as int]));
                        assert(!block_valid(ret_kind, *block));
                    }
                    return false;
                }
            },
            ControlFlow::Return { .. } => {},
        }
        k += 1;
    }
    true
}

/// The first binding-table entry that binds argument `index`, scanning
/// from position `k`.
pub open spec fn find_arg_spec(bs: Seq<Binding>, index: u32, k: int) -> Option<u32>
    decreases bs.len() - k,
        when 0 <= k
{
    if k >= bs.len() {
        None
    } else if bs[k] == (Binding::Argument { index }) {
        Some(k as u32)
    } else {
        find_arg_spec(bs, index, k + 1)
    }
}

impl RuleSet {
    /// The binding id, if any, under which this rule set binds argument
    /// `index` — the first matching entry of the binding table.
    pub fn find_binding_argument(&self, index: u32) -> (r: Option<u32>)
        requires
            self.bindings@.len() <= u32::MAX,
        ensures
            r == find_arg_spec(self.bindings@, index, 0),
    {
        let mut i: usize = 0;
        while i < self.bindings.len()
            invariant
                self.bindings@.len() <= u32::MAX,
                i <= self.bindings@.len(),
                find_arg_spec(self.bindings@, index, 0) == find_arg_spec(
                    self.bindings@,
                    index,
                    i as int,
                ),
            decreases self.bindings@.len() - i,
        {
            if let Binding::Argument { index: idx } = &self.bindings[i] {
                if *idx == index {
                    proof {
                        assert(self.bindings@[i as int] == (Binding::Argument { index }));
                    }
                    return Some(i as u32);
                }
            }
            i += 1;
        }
        None
    }
}

} // verus!
