//! The rule-trie code emitter: walks serialized decision trees and writes
//! Rust source text implementing the rewrite relation.
//!
//! Every emitting function is specified against a spec-level mirror
//! (the `s_*` functions) that computes the exact text appended and the
//! exact emitter state reached. The public entry point `codegen` therefore
//! returns a value that is a pure function of its inputs, which is the
//! determinism the output format demands.

use vstd::prelude::*;
use vstd::string::StringExecFns;
use crate::idset::IdSet;
use crate::idset::ins;
use crate::idset::sorted;
use crate::sema::ExternalSig;
use crate::sema::Pos;
use crate::sema::ReturnKind;
use crate::sema::TermEnv;
use crate::sema::Type;
use crate::sema::TypeEnv;
use crate::sema::Variant;
use crate::sema::pos_text;
use crate::sema::pos_wf;
use crate::sema::sym_text;
use crate::sema::sig_wf;
use crate::sema::termenv_wf;
use crate::sema::type_name_sym;
use crate::sema::tyenv_wf;
use crate::trie::Binding;
use crate::trie::Constraint;
use crate::trie::MatchArm;
use crate::trie::RuleSet;
use crate::trie::Block;
use crate::trie::ControlFlow;
use crate::trie::EvalStep;
use crate::trie::arm_wf;
use crate::trie::bindings_wf;
use crate::trie::binding_wf;
use crate::trie::block_valid;
use crate::trie::block_wf;
use crate::trie::constraint_wf;
use crate::trie::find_arg_spec;
use crate::trie::step_valid;
use crate::trie::step_wf;
use crate::sema::Field;
use crate::text::dec_text;
use crate::text::hex_text;
use crate::text::push_dec;
use crate::text::push_hex;

verus! {

/// Options for code generation.
#[derive(Clone, Debug, Default)]
pub struct CodegenOptions {
    /// Do not include the global allow pragmas in the generated source.
    /// Useful if the output is spliced into a file that has its own.
    pub exclude_global_allow_pragmas: bool,
}

/// The spec-level emitter state: indent depth and the two per-binding
/// sets, each as its sorted id sequence.
#[verifier::ext_equal]
pub ghost struct EmitState {
    pub indent: nat,
    pub is_ref: Seq<u32>,
    pub is_bound: Seq<u32>,
}

/// The spec-level result of an emission: all text written so far and the
/// state reached.
#[verifier::ext_equal]
pub ghost struct Emit {
    pub text: Seq<char>,
    pub st: EmitState,
}

/// Four spaces per indent level.
pub open spec fn ind(d: nat) -> Seq<char>
    decreases d,
{
    if d == 0 {
        Seq::<char>::empty()
    } else {
        ind((d - 1) as nat) + "    "@
    }
}

/// `v<b>`, the name of a let-bound binding.
pub open spec fn vtext(b: u32) -> Seq<char> {
    "v"@ + dec_text(b as nat)
}

/// Mutable emitter state while one constructor body is produced: the text
/// written so far, the indent depth, the bindings held by reference, and
/// the bindings already let-bound in the current scope.
pub struct BodyContext {
    pub out: String,
    pub indent: usize,
    pub is_ref: IdSet,
    pub is_bound: IdSet,
}

impl BodyContext {
    /// The spec-level view of this context.
    pub open spec fn emit(&self) -> Emit {
        Emit {
            text: self.out@,
            st: EmitState {
                indent: self.indent as nat,
                is_ref: self.is_ref@,
                is_bound: self.is_bound@,
            },
        }
    }

    pub open spec fn wf(&self) -> bool {
        &&& sorted(self.is_ref@)
        &&& sorted(self.is_bound@)
    }

    /// A fresh context with empty output, no indent, no bindings.
    pub fn new() -> (r: BodyContext)
        ensures
            r.emit() == (Emit {
                text: Seq::<char>::empty(),
                st: EmitState { indent: 0, is_ref: Seq::<u32>::empty(), is_bound: Seq::<u32>::empty() },
            }),
            r.wf(),
    {
        let r = BodyContext { out: String::new(), indent: 0, is_ref: IdSet::new(), is_bound: IdSet::new() };
        proof {
            assert(r.emit() =~= (Emit {
                text: Seq::<char>::empty(),
                st: EmitState {
                    indent: 0,
                    is_ref: Seq::<u32>::empty(),
                    is_bound: Seq::<u32>::empty(),
                },
            }));
        }
        r
    }

    /// A copy of the current `is_bound` set: the snapshot that a nested
    /// scope is later unwound to.
    pub fn enter_scope(&self) -> (r: IdSet)
        ensures
            r@ == self.is_bound@,
    {
        self.is_bound.duplicate()
    }

    /// Append the current indent to the output.
    pub fn push_indent(&mut self)
        ensures
            final(self).emit() == (Emit {
                text: old(self).emit().text + ind(old(self).emit().st.indent),
                st: old(self).emit().st,
            }),
    {
        let mut i: usize = 0;
        while i < self.indent
            invariant
                i <= self.indent,
                self.out@ == old(self).out@ + ind(i as nat),
                self.indent == old(self).indent,
                self.is_ref == old(self).is_ref,
                self.is_bound == old(self).is_bound,
            decreases self.indent - i,
        {
            self.out.append("    ");
            i += 1;
        }
        proof {
            assert(self.emit() =~= (Emit {
                text: old(self).emit().text + ind(old(self).emit().st.indent),
                st: old(self).emit().st,
            }));
        }
    }
}

/// Opening a nested block: ` {` plus newline, one more indent level.
pub open spec fn s_begin(e: Emit) -> Emit {
    Emit {
        text: e.text + " {\n"@,
        st: EmitState {
            indent: if e.st.indent < usize::MAX as nat {
                e.st.indent + 1
            } else {
                e.st.indent
            },
            ..e.st
        },
    }
}

/// Closing a block without a trailing newline: one less indent level,
/// then the indent and `}`.
pub open spec fn s_end_nonl(e: Emit) -> Emit {
    let d = if e.st.indent > 0 {
        (e.st.indent - 1) as nat
    } else {
        0
    };
    Emit { text: e.text + ind(d) + "}"@, st: EmitState { indent: d, ..e.st } }
}

/// Closing a block: the optional last line, the scope restore of
/// `is_bound`, the closing brace, a newline.
pub open spec fn s_end_block(e: Emit, last: Seq<char>, scope: Seq<u32>) -> Emit {
    let e1 = if last.len() > 0 {
        Emit { text: e.text + ind(e.st.indent) + last + "\n"@, st: e.st }
    } else {
        e
    };
    let e2 = Emit { text: e1.text, st: EmitState { is_bound: scope, ..e1.st } };
    let e3 = s_end_nonl(e2);
    Emit { text: e3.text + "\n"@, st: e3.st }
}

/// Recording that a binding is held by reference; recording by-value is a
/// no-op (`is_ref` only ever grows).
pub open spec fn s_set_ref(e: Emit, b: u32, r: bool) -> Emit {
    if r {
        Emit { text: e.text, st: EmitState { is_ref: ins(e.st.is_ref, b), ..e.st } }
    } else {
        e
    }
}

/// Marking a binding as let-bound in the current scope.
pub open spec fn s_set_bound(e: Emit, b: u32) -> Emit {
    Emit { text: e.text, st: EmitState { is_bound: ins(e.st.is_bound, b), ..e.st } }
}

impl BodyContext {
    pub fn begin_block(&mut self)
        ensures
            final(self).emit() == s_begin(old(self).emit()),
    {
        if self.indent < usize::MAX {
            self.indent += 1;
        }
        self.out.append(" {\n");
        proof {
            assert(self.emit() =~= s_begin(old(self).emit()));
        }
    }

    pub fn end_block_without_newline(&mut self)
        ensures
            final(self).emit() == s_end_nonl(old(self).emit()),
    {
        if self.indent > 0 {
            self.indent -= 1;
        }
        self.push_indent();
        self.out.append("}");
        proof {
            assert(self.emit() =~= s_end_nonl(old(self).emit()));
        }
    }

    pub fn end_block(&mut self, last_line: &str, scope: IdSet)
        ensures
            final(self).emit() == s_end_block(old(self).emit(), last_line@, scope@),
            final(self).is_ref@ == old(self).is_ref@,
            final(self).is_bound@ == scope@,
    {
        if !last_line.is_empty() {
            self.push_indent();
            self.out.append(last_line);
            self.out.append("\n");
        }
        self.is_bound = scope;
        self.end_block_without_newline();
        self.out.append("\n");
        proof {
            assert(self.emit() =~= s_end_block(old(self).emit(), last_line@, scope@));
        }
    }

    pub fn set_ref(&mut self, binding: u32, is_ref: bool)
        requires
            old(self).wf(),
        ensures
            final(self).emit() == s_set_ref(old(self).emit(), binding, is_ref),
            final(self).wf(),
    {
        if is_ref {
            self.is_ref.insert(binding);
            proof {
                assert(self.emit() =~= s_set_ref(old(self).emit(), binding, is_ref));
            }
        }
    }

    /// Mark a binding as let-bound.
    pub fn set_bound(&mut self, binding: u32)
        requires
            old(self).wf(),
        ensures
            final(self).emit() == s_set_bound(old(self).emit(), binding),
            final(self).wf(),
    {
        self.is_bound.insert(binding);
        proof {
            assert(self.emit() =~= s_set_bound(old(self).emit(), binding));
        }
    }
}

/// The emitter: read-only views of the environments and the rule sets to
/// compile.
pub struct Codegen<'a> {
    pub typeenv: &'a TypeEnv,
    pub termenv: &'a TermEnv,
    pub terms: &'a [(u32, RuleSet)],
}

/// Whether values of `t` are passed by reference (sum types) and the name
/// symbol to use.
pub open spec fn s_ty(te: TypeEnv, t: u32) -> (bool, u32) {
    match te.types@[t as int] {
        Type::Primitive { name } => (false, name),
        Type::Enum { name, .. } => (true, name),
    }
}

/// Rendered type name: primitives bare, sum types with `&` when by
/// reference.
pub open spec fn s_type_name(te: TypeEnv, t: u32, by_ref: bool) -> Seq<char> {
    match te.types@[t as int] {
        Type::Primitive { name } => sym_text(te, name),
        Type::Enum { name, .. } => (if by_ref {
            "&"@
        } else {
            Seq::<char>::empty()
        }) + sym_text(te, name),
    }
}

/// The magnitude of a negative `i128` as a mathematical natural.
pub open spec fn i128_neg_mag(val: i128) -> nat {
    (-(val as int)) as nat
}

/// The two's-complement bit pattern of `val` as an unsigned value, which
/// is what Rust's `{:#X}` prints for a signed integer.
pub open spec fn i128_bits(val: i128) -> nat {
    if val >= 0 {
        val as nat
    } else {
        (val as int + 0x1_0000_0000_0000_0000_0000_0000_0000_0000) as nat
    }
}

/// The text of an integer constant: negative constants of a type whose
/// name starts with `i` print as `-0x<magnitude>`; everything else prints
/// as `0x<bits>`.
pub open spec fn s_int_text(te: TypeEnv, val: i128, ty: u32) -> Seq<char> {
    if val < 0 && sym_text(te, type_name_sym(te, ty))[0] == 'i' {
        "-0x"@ + hex_text(i128_neg_mag(val))
    } else {
        "0x"@ + hex_text(i128_bits(val))
    }
}

impl<'a> Codegen<'a> {
    /// Internal consistency of the environments this emitter reads.
    pub open spec fn envs_wf(&self) -> bool {
        &&& tyenv_wf(*self.typeenv)
        &&& termenv_wf(*self.typeenv, *self.termenv)
    }

    pub fn ty(&self, typeid: u32) -> (r: (bool, u32))
        requires
            typeid < self.typeenv.types@.len(),
        ensures
            r == s_ty(*self.typeenv, typeid),
    {
        match &self.typeenv.types[typeid as usize] {
            Type::Primitive { name } => (false, *name),
            Type::Enum { name, .. } => (true, *name),
        }
    }

    pub fn ty_name(&self, typeid: u32, by_ref: bool) -> (r: String)
        requires
            self.envs_wf(),
            typeid < self.typeenv.types@.len(),
        ensures
            r@ == s_type_name(*self.typeenv, typeid, by_ref),
    {
        match &self.typeenv.types[typeid as usize] {
            Type::Primitive { name } => self.typeenv.syms[*name as usize].clone(),
            Type::Enum { name, .. } => {
                let mut r = String::new();
                if by_ref {
                    r.append("&");
                }
                r.append(self.typeenv.syms[*name as usize].as_str());
                proof {
                    assert(r@ =~= s_type_name(*self.typeenv, typeid, by_ref));
                }
                r
            },
        }
    }

    /// Append the text of an integer constant to the output.
    pub fn emit_int(&self, ctx: &mut BodyContext, val: i128, ty: u32)
        requires
            self.envs_wf(),
            ty < self.typeenv.types@.len(),
        ensures
            final(ctx).emit() == (Emit {
                text: old(ctx).emit().text + s_int_text(*self.typeenv, val, ty),
                st: old(ctx).emit().st,
            }),
    {
        let sym = match &self.typeenv.types[ty as usize] {
            Type::Primitive { name } => *name,
            Type::Enum { name, .. } => *name,
        };
        let is_negative_signed = val < 0 && self.typeenv.syms[sym as usize].as_str().get_char(0)
            == 'i';
        if is_negative_signed {
            ctx.out.append("-0x");
            let mag: u128 = if val == i128::MIN {
                0x8000_0000_0000_0000_0000_0000_0000_0000u128
            } else {
                (-val) as u128
            };
            proof {
                assert(mag as nat == i128_neg_mag(val));
            }
            push_hex(&mut ctx.out, mag);
        } else {
            ctx.out.append("0x");
            let bits: u128 = if val >= 0 {
                val as u128
            } else {
                let mag: u128 = if val == i128::MIN {
                    0x8000_0000_0000_0000_0000_0000_0000_0000u128
                } else {
                    (-val) as u128
                };
                (u128::MAX - mag) + 1
            };
            proof {
                assert(bits as nat == i128_bits(val));
            }
            push_hex(&mut ctx.out, bits);
        }
        proof {
            assert(ctx.emit() =~= (Emit {
                text: old(ctx).emit().text + s_int_text(*self.typeenv, val, ty),
                st: old(ctx).emit().st,
            }));
        }
    }
}

/// Append `v<b>` to the output.
pub fn push_v(out: &mut String, b: u32)
    ensures
        final(out)@ == old(out)@ + vtext(b),
{
    out.append("v");
    push_dec(out, b);
    proof {
        assert(out@ =~= old(out)@ + vtext(b));
    }
}

/// The text and state produced by emitting the expression for binding `b`:
/// the name `v<b>` when already bound, otherwise the binding's expression.
pub open spec fn s_emit_expr(te: TypeEnv, tme: TermEnv, rs: RuleSet, b: u32, e: Emit) -> Emit
    decreases b, 2nat, 0nat,
        when bindings_wf(te, tme, rs) && b < rs.bindings@.len()
{
    if e.st.is_bound.contains(b) {
        Emit { text: e.text + vtext(b), st: e.st }
    } else {
        match rs.bindings@[b as int] {
            Binding::ConstInt { val, ty } => Emit {
                text: e.text + s_int_text(te, val, ty),
                st: e.st,
            },
            Binding::ConstPrim { val } => Emit { text: e.text + sym_text(te, val), st: e.st },
            Binding::Argument { index } => Emit {
                text: e.text + "arg"@ + dec_text(index as nat),
                st: e.st,
            },
            Binding::Extractor { term, parameter } => s_call(
                te,
                tme,
                rs,
                b,
                tme.terms@[term as int].extractor->0,
                seq![parameter],
                e,
            ),
            Binding::Constructor { term, parameters } => s_call(
                te,
                tme,
                rs,
                b,
                tme.terms@[term as int].constructor->0,
                parameters@,
                e,
            ),
            Binding::MakeVariant { ty, variant, fields } => {
                let vdata = te.types@[ty as int]->Enum_variants@[variant as int];
                let e1 = Emit {
                    text: e.text + sym_text(te, te.types@[ty as int]->Enum_name) + "::"@
                        + sym_text(te, vdata.name),
                    st: e.st,
                };
                if fields@.len() == 0 {
                    e1
                } else {
                    s_end_nonl(s_mv_fields(te, tme, rs, b, vdata.fields@, fields@, 0, s_begin(e1)))
                }
            },
            Binding::MakeSome { inner } => {
                let e1 = s_emit_expr(te, tme, rs, inner, Emit { text: e.text + "Some("@, st: e.st });
                Emit { text: e1.text + ")"@, st: e1.st }
            },
            Binding::MatchSome { source } => {
                let e1 = s_emit_expr(te, tme, rs, source, e);
                Emit { text: e1.text + "?"@, st: e1.st }
            },
            Binding::MatchTuple { source, field } => {
                let e1 = s_emit_expr(te, tme, rs, source, e);
                Emit { text: e1.text + "."@ + dec_text(field as nat), st: e1.st }
            },
            Binding::MatchVariant { source, variant, field } => {
                let e1 = s_emit_expr(te, tme, rs, source, e);
                Emit { text: e1.text + "."@ + dec_text(field as nat) + " /*FIXME*/"@, st: e1.st }
            },
            Binding::IterElem { source } => {
                let e1 = s_emit_expr(te, tme, rs, source, e);
                Emit { text: e1.text + ".next() /*FIXME*/"@, st: e1.st }
            },
        }
    }
}

/// Emitting a call of an external or internal term: optional `&` for a
/// by-reference result, the callee name, `ctx`, the adapted arguments, and
/// the trailing accumulator argument for a `Multi` return.
pub open spec fn s_call(
    te: TypeEnv,
    tme: TermEnv,
    rs: RuleSet,
    b: u32,
    sig: ExternalSig,
    params: Seq<u32>,
    e: Emit,
) -> Emit
    decreases b, 1nat, 0nat,
        when bindings_wf(te, tme, rs) && b < rs.bindings@.len() && (forall|k: int|
            0 <= k < params.len() ==> params[k] < b)
{
    let e1 = if sig.ret_tys@.len() == 1 && s_ty(te, sig.ret_tys@[0]).0 {
        let ea = s_set_ref(e, b, true);
        Emit { text: ea.text + "&"@, st: ea.st }
    } else {
        e
    };
    let e2 = Emit { text: e1.text + sig.full_name@ + "(ctx"@, st: e1.st };
    let e3 = s_call_args(te, tme, rs, b, sig, params, 0, e2);
    let e4 = if sig.ret_kind is Multi {
        Emit { text: e3.text + ", &mut "@ + vtext(b), st: e3.st }
    } else {
        e3
    };
    Emit { text: e4.text + ")"@, st: e4.st }
}

/// One call argument per step: `, `, then `&` when a by-value binding
/// feeds a by-reference parameter, the argument expression, and `.clone()`
/// when a by-reference binding feeds a by-value parameter.
pub open spec fn s_call_args(
    te: TypeEnv,
    tme: TermEnv,
    rs: RuleSet,
    b: u32,
    sig: ExternalSig,
    params: Seq<u32>,
    k: int,
    e: Emit,
) -> Emit
    decreases b, 0nat, params.len() - k,
        when bindings_wf(te, tme, rs) && b < rs.bindings@.len() && (forall|j: int|
            0 <= j < params.len() ==> params[j] < b) && 0 <= k
{
    if k >= params.len() {
        e
    } else {
        let p = params[k];
        let pref = s_ty(te, sig.param_tys@[k]).0;
        let aref = e.st.is_ref.contains(p);
        let e1 = Emit { text: e.text + ", "@, st: e.st };
        let e2 = if pref && !aref {
            Emit { text: e1.text + "&"@, st: e1.st }
        } else {
            e1
        };
        let e3 = s_emit_expr(te, tme, rs, p, e2);
        let e4 = if !pref && aref {
            Emit { text: e3.text + ".clone()"@, st: e3.st }
        } else {
            e3
        };
        s_call_args(te, tme, rs, b, sig, params, k + 1, e4)
    }
}

/// One record field of a variant construction per step: the indent, the
/// field name, the field expression, `.clone()` when the expression is by
/// reference, and a trailing comma.
pub open spec fn s_mv_fields(
    te: TypeEnv,
    tme: TermEnv,
    rs: RuleSet,
    b: u32,
    vfields: Seq<Field>,
    fields: Seq<u32>,
    k: int,
    e: Emit,
) -> Emit
    decreases b, 1nat, fields.len() - k,
        when bindings_wf(te, tme, rs) && b < rs.bindings@.len() && (forall|j: int|
            0 <= j < fields.len() ==> fields[j] < b) && 0 <= k && vfields.len() == fields.len()
{
    if k >= fields.len() {
        e
    } else {
        let e1 = Emit {
            text: e.text + ind(e.st.indent) + sym_text(te, vfields[k].name) + ": "@,
            st: e.st,
        };
        let e2 = s_emit_expr(te, tme, rs, fields[k], e1);
        let e3 = if e2.st.is_ref.contains(fields[k]) {
            Emit { text: e2.text + ".clone()"@, st: e2.st }
        } else {
            e2
        };
        let e4 = Emit { text: e3.text + ",\n"@, st: e3.st };
        s_mv_fields(te, tme, rs, b, vfields, fields, k + 1, e4)
    }
}

impl<'a> Codegen<'a> {
    /// Emit the expression for binding `b` into `ctx`.
    pub fn emit_expr(&self, rs: &RuleSet, ctx: &mut BodyContext, b: u32)
        requires
            self.envs_wf(),
            bindings_wf(*self.typeenv, *self.termenv, *rs),
            rs.bindings@.len() <= u32::MAX,
            b < rs.bindings@.len(),
            old(ctx).wf(),
        ensures
            final(ctx).emit() == s_emit_expr(*self.typeenv, *self.termenv, *rs, b, old(ctx).emit()),
            final(ctx).wf(),
        decreases b, 2int, 0int,
    {
        proof {
            assert(binding_wf(*self.typeenv, *self.termenv, rs.bindings@[b as int], b as int));
        }
        if ctx.is_bound.contains(b) {
            push_v(&mut ctx.out, b);
            proof {
                assert(ctx.emit() =~= s_emit_expr(
                    *self.typeenv,
                    *self.termenv,
                    *rs,
                    b,
                    old(ctx).emit(),
                ));
            }
            return ;
        }
        match &rs.bindings[b as usize] {
            Binding::ConstInt { val, ty } => {
                self.emit_int(ctx, *val, *ty);
            },
            Binding::ConstPrim { val } => {
                ctx.out.append(self.typeenv.syms[*val as usize].as_str());
            },
            Binding::Argument { index } => {
                ctx.out.append("arg");
                push_dec(&mut ctx.out, *index);
            },
            Binding::Extractor { term, parameter } => {
                let params: Vec<u32> = vec![*parameter];
                match &self.termenv.terms[*term as usize].extractor {
                    Some(sig) => {
                        self.emit_call(rs, ctx, b, sig, &params);
                        proof {
                            assert(params@ =~= seq![*parameter]);
                        }
                    },
                    None => {
                        proof {
                            assert(false);
                        }
                    },
                }
            },
            Binding::Constructor { term, parameters } => {
                match &self.termenv.terms[*term as usize].constructor {
                    Some(sig) => {
                        self.emit_call(rs, ctx, b, sig, parameters);
                    },
                    None => {
                        proof {
                            assert(false);
                        }
                    },
                }
            },
            Binding::MakeVariant { ty, variant, fields } => {
                self.emit_make_variant(rs, ctx, b, *ty, *variant, fields);
            },
            Binding::MakeSome { inner } => {
                ctx.out.append("Some(");
                self.emit_expr(rs, ctx, *inner);
                ctx.out.append(")");
            },
            Binding::MatchSome { source } => {
                self.emit_expr(rs, ctx, *source);
                ctx.out.append("?");
            },
            Binding::MatchTuple { source, field } => {
                self.emit_expr(rs, ctx, *source);
                ctx.out.append(".");
                push_dec(&mut ctx.out, *field);
            },
            Binding::MatchVariant { source, variant, field } => {
                self.emit_expr(rs, ctx, *source);
                ctx.out.append(".");
                push_dec(&mut ctx.out, *field);
                ctx.out.append(" /*FIXME*/");
            },
            Binding::IterElem { source } => {
                self.emit_expr(rs, ctx, *source);
                ctx.out.append(".next() /*FIXME*/");
            },
        }
        proof {
            assert(ctx.emit() =~= s_emit_expr(
                *self.typeenv,
                *self.termenv,
                *rs,
                b,
                old(ctx).emit(),
            ));
        }
    }

    /// Emit a call of the term behind binding `b`.
    fn emit_call(&self, rs: &RuleSet, ctx: &mut BodyContext, b: u32, sig: &ExternalSig, params: &Vec<u32>)
        requires
            self.envs_wf(),
            bindings_wf(*self.typeenv, *self.termenv, *rs),
            rs.bindings@.len() <= u32::MAX,
            b < rs.bindings@.len(),
            sig_wf(*self.typeenv, *sig),
            params@.len() == sig.param_tys@.len(),
            forall|k: int| 0 <= k < params@.len() ==> params@[k] < b,
            old(ctx).wf(),
        ensures
            final(ctx).emit() == s_call(
                *self.typeenv,
                *self.termenv,
                *rs,
                b,
                *sig,
                params@,
                old(ctx).emit(),
            ),
            final(ctx).wf(),
        decreases b, 1int, 0int,
    {
        if sig.ret_tys.len() == 1 {
            let (is_ref, _) = self.ty(sig.ret_tys[0]);
            if is_ref {
                ctx.set_ref(b, true);
                ctx.out.append("&");
            }
        }
        ctx.out.append(sig.full_name.as_str());
        ctx.out.append("(ctx");
        let ghost e2 = ctx.emit();
        let mut k: usize = 0;
        while k < params.len()
            invariant
                self.envs_wf(),
                bindings_wf(*self.typeenv, *self.termenv, *rs),
                rs.bindings@.len() <= u32::MAX,
                b < rs.bindings@.len(),
                sig_wf(*self.typeenv, *sig),
                params@.len() == sig.param_tys@.len(),
                forall|j: int| 0 <= j < params@.len() ==> params@[j] < b,
                ctx.wf(),
                k <= params@.len(),
                s_call_args(*self.typeenv, *self.termenv, *rs, b, *sig, params@, k as int, ctx.emit())
                    == s_call_args(*self.typeenv, *self.termenv, *rs, b, *sig, params@, 0, e2),
            decreases params@.len() - k,
        {
            ctx.out.append(", ");
            let (pref, _) = self.ty(sig.param_tys[k]);
            let aref = ctx.is_ref.contains(params[k]);
            if pref && !aref {
                ctx.out.append("&");
            }
            self.emit_expr(rs, ctx, params[k]);
            if !pref && aref {
                ctx.out.append(".clone()");
            }
            k += 1;
        }
        let multi = match sig.ret_kind {
            ReturnKind::Multi => true,
            _ => false,
        };
        if multi {
            ctx.out.append(", &mut ");
            push_v(&mut ctx.out, b);
        }
        ctx.out.append(")");
        proof {
            assert(ctx.emit() =~= s_call(
                *self.typeenv,
                *self.termenv,
                *rs,
                b,
                *sig,
                params@,
                old(ctx).emit(),
            ));
        }
    }

    /// Emit the construction of a sum-type variant.
    fn emit_make_variant(
        &self,
        rs: &RuleSet,
        ctx: &mut BodyContext,
        b: u32,
        ty: u32,
        variant: u32,
        fields: &Vec<u32>,
    )
        requires
            self.envs_wf(),
            bindings_wf(*self.typeenv, *self.termenv, *rs),
            rs.bindings@.len() <= u32::MAX,
            b < rs.bindings@.len(),
            rs.bindings@[b as int] == (Binding::MakeVariant { ty, variant, fields: *fields }),
            old(ctx).wf(),
        ensures
            final(ctx).emit() == ({
                let te = *self.typeenv;
                let vdata = te.types@[ty as int]->Enum_variants@[variant as int];
                let e1 = Emit {
                    text: old(ctx).emit().text + sym_text(te, te.types@[ty as int]->Enum_name)
                        + "::"@ + sym_text(te, vdata.name),
                    st: old(ctx).emit().st,
                };
                if fields@.len() == 0 {
                    e1
                } else {
                    s_end_nonl(
                        s_mv_fields(
                            te,
                            *self.termenv,
                            *rs,
                            b,
                            vdata.fields@,
                            fields@,
                            0,
                            s_begin(e1),
                        ),
                    )
                }
            }),
            final(ctx).wf(),
        decreases b, 1int, 0int,
    {
        proof {
            assert(binding_wf(*self.typeenv, *self.termenv, rs.bindings@[b as int], b as int));
        }
        let (name_sym, variants) = match &self.typeenv.types[ty as usize] {
            Type::Enum { name, variants, .. } => (*name, variants),
            Type::Primitive { .. } => {
                proof {
                    assert(false);
                }
                (0u32, match &self.typeenv.types[ty as usize] {
                    Type::Enum { variants, .. } => variants,
                    _ => unreached(),
                })
            },
        };
        let vdata = &variants[variant as usize];
        ctx.out.append(self.typeenv.syms[name_sym as usize].as_str());
        ctx.out.append("::");
        ctx.out.append(self.typeenv.syms[vdata.name as usize].as_str());
        let ghost e1 = ctx.emit();
        if fields.len() > 0 {
            ctx.begin_block();
            let ghost e_start = ctx.emit();
            let mut k: usize = 0;
            while k < fields.len()
                invariant
                    self.envs_wf(),
                    bindings_wf(*self.typeenv, *self.termenv, *rs),
                    rs.bindings@.len() <= u32::MAX,
                    b < rs.bindings@.len(),
                    rs.bindings@[b as int] == (Binding::MakeVariant { ty, variant, fields: *fields }),
                    vdata == &self.typeenv.types@[ty as int]->Enum_variants@[variant as int],
                    vdata.fields@.len() == fields@.len(),
                    forall|j: int| 0 <= j < fields@.len() ==> fields@[j] < b,
                    ctx.wf(),
                    k <= fields@.len(),
                    s_mv_fields(
                        *self.typeenv,
                        *self.termenv,
                        *rs,
                        b,
                        vdata.fields@,
                        fields@,
                        k as int,
                        ctx.emit(),
                    ) == s_mv_fields(
                        *self.typeenv,
                        *self.termenv,
                        *rs,
                        b,
                        vdata.fields@,
                        fields@,
                        0,
                        e_start,
                    ),
                decreases fields@.len() - k,
            {
                ctx.push_indent();
                ctx.out.append(self.typeenv.syms[vdata.fields[k].name as usize].as_str());
                ctx.out.append(": ");
                self.emit_expr(rs, ctx, fields[k]);
                let fb = fields[k];
                if ctx.is_ref.contains(fb) {
                    ctx.out.append(".clone()");
                }
                ctx.out.append(",\n");
                k += 1;
            }
            ctx.end_block_without_newline();
        }
    }
}

/// Emitting the source expression a match tests: a leading `&` when the
/// constraint is a variant pattern and the source is held by value.
pub open spec fn s_source(
    te: TypeEnv,
    tme: TermEnv,
    rs: RuleSet,
    source: u32,
    c: Constraint,
    e: Emit,
) -> Emit {
    let e1 = if c is Variant && !e.st.is_ref.contains(source) {
        Emit { text: e.text + "&"@, st: e.st }
    } else {
        e
    };
    s_emit_expr(te, tme, rs, source, e1)
}

/// Marking every sub-binding an arm introduces as bound, in order.
pub open spec fn s_bind_all(bnds: Seq<Option<u32>>, k: int, e: Emit) -> Emit
    decreases bnds.len() - k,
        when 0 <= k
{
    if k >= bnds.len() {
        e
    } else {
        let e1 = match bnds[k] {
            Some(b) => s_set_bound(e, b),
            None => e,
        };
        s_bind_all(bnds, k + 1, e1)
    }
}

/// One field of a variant pattern per step: present sub-bindings print as
/// `<field>: [ref ]v<b>,`; absent ones are skipped and remembered so that
/// a trailing `..` can be added.
pub open spec fn s_var_fields(
    te: TypeEnv,
    vfields: Seq<Field>,
    bnds: Seq<Option<u32>>,
    k: int,
    e: Emit,
    skipped: bool,
) -> (Emit, bool)
    decreases bnds.len() - k,
        when 0 <= k
{
    if k >= bnds.len() || k >= vfields.len() {
        (e, skipped)
    } else {
        match bnds[k] {
            Some(b) => {
                let e1 = Emit {
                    text: e.text + ind(e.st.indent) + sym_text(te, vfields[k].name) + ": "@,
                    st: e.st,
                };
                let fref = s_ty(te, vfields[k].ty).0;
                let e2 = if fref {
                    let ea = s_set_ref(e1, b, true);
                    Emit { text: ea.text + "ref "@, st: ea.st }
                } else {
                    e1
                };
                let e3 = Emit { text: e2.text + vtext(b) + ",\n"@, st: e2.st };
                s_var_fields(te, vfields, bnds, k + 1, e3, skipped)
            },
            None => s_var_fields(te, vfields, bnds, k + 1, e, true),
        }
    }
}

/// Emitting the pattern of a match arm, and recording its sub-bindings as
/// bound (and by-reference where the matched field is).
pub open spec fn s_constraint(
    te: TypeEnv,
    source: u32,
    c: Constraint,
    bnds: Seq<Option<u32>>,
    e: Emit,
) -> Emit {
    let e0 = s_bind_all(bnds, 0, e);
    match c {
        Constraint::ConstInt { val, ty } => Emit {
            text: e0.text + s_int_text(te, val, ty),
            st: e0.st,
        },
        Constraint::ConstPrim { val } => Emit { text: e0.text + sym_text(te, val), st: e0.st },
        Constraint::Variant { ty, variant } => {
            let vdata = te.types@[ty as int]->Enum_variants@[variant as int];
            let e1 = Emit {
                text: e0.text + "&"@ + sym_text(te, te.types@[ty as int]->Enum_name) + "::"@
                    + sym_text(te, vdata.name),
                st: e0.st,
            };
            if bnds.len() == 0 {
                e1
            } else {
                let e2 = s_begin(e1);
                let r = s_var_fields(te, vdata.fields@, bnds, 0, e2, false);
                let e3 = if r.1 {
                    Emit { text: r.0.text + ind(r.0.st.indent) + "..\n"@, st: r.0.st }
                } else {
                    r.0
                };
                s_end_nonl(e3)
            }
        },
        Constraint::IsSome => {
            let e1 = Emit { text: e0.text + "Some("@, st: e0.st };
            let e2 = match bnds[0] {
                Some(b) => {
                    let ea = s_set_ref(e1, b, e1.st.is_ref.contains(source));
                    Emit { text: ea.text + vtext(b), st: ea.st }
                },
                None => Emit { text: e1.text + "_"@, st: e1.st },
            };
            Emit { text: e2.text + ")"@, st: e2.st }
        },
    }
}

impl<'a> Codegen<'a> {
    /// Emit the expression a match arm tests against.
    pub fn emit_source(&self, rs: &RuleSet, ctx: &mut BodyContext, source: u32, constraint: &Constraint)
        requires
            self.envs_wf(),
            bindings_wf(*self.typeenv, *self.termenv, *rs),
            rs.bindings@.len() <= u32::MAX,
            source < rs.bindings@.len(),
            old(ctx).wf(),
        ensures
            final(ctx).emit() == s_source(
                *self.typeenv,
                *self.termenv,
                *rs,
                source,
                *constraint,
                old(ctx).emit(),
            ),
            final(ctx).wf(),
    {
        if let Constraint::Variant { .. } = constraint {
            if !ctx.is_ref.contains(source) {
                ctx.out.append("&");
            }
        }
        self.emit_expr(rs, ctx, source);
    }

    /// Emit the pattern of one match arm.
    pub fn emit_constraint(&self, ctx: &mut BodyContext, source: u32, arm: &MatchArm)
        requires
            self.envs_wf(),
            constraint_wf(*self.typeenv, arm.constraint, arm.bindings@.len() as int),
            old(ctx).wf(),
        ensures
            final(ctx).emit() == s_constraint(
                *self.typeenv,
                source,
                arm.constraint,
                arm.bindings@,
                old(ctx).emit(),
            ),
            final(ctx).wf(),
    {
        let mut k: usize = 0;
        while k < arm.bindings.len()
            invariant
                ctx.wf(),
                k <= arm.bindings@.len(),
                s_bind_all(arm.bindings@, k as int, ctx.emit()) == s_bind_all(
                    arm.bindings@,
                    0,
                    old(ctx).emit(),
                ),
            decreases arm.bindings@.len() - k,
        {
            if let Some(b) = arm.bindings[k] {
                ctx.set_bound(b);
            }
            k += 1;
        }
        let ghost e0 = ctx.emit();
        match &arm.constraint {
            Constraint::ConstInt { val, ty } => {
                self.emit_int(ctx, *val, *ty);
            },
            Constraint::ConstPrim { val } => {
                ctx.out.append(self.typeenv.syms[*val as usize].as_str());
            },
            Constraint::Variant { ty, variant } => {
                let (name_sym, variants) = match &self.typeenv.types[*ty as usize] {
                    Type::Enum { name, variants, .. } => (*name, variants),
                    Type::Primitive { .. } => {
                        proof {
                            assert(false);
                        }
                        (0u32, match &self.typeenv.types[*ty as usize] {
                            Type::Enum { variants, .. } => variants,
                            _ => unreached(),
                        })
                    },
                };
                let vdata = &variants[*variant as usize];
                ctx.out.append("&");
                ctx.out.append(self.typeenv.syms[name_sym as usize].as_str());
                ctx.out.append("::");
                ctx.out.append(self.typeenv.syms[vdata.name as usize].as_str());
                if arm.bindings.len() > 0 {
                    ctx.begin_block();
                    let ghost e_start = ctx.emit();
                    let mut skipped = false;
                    let mut k2: usize = 0;
                    while k2 < arm.bindings.len() && k2 < vdata.fields.len()
                        invariant
                            self.envs_wf(),
                            vdata == &self.typeenv.types@[*ty as int]->Enum_variants@[*variant as int],
                            forall|f: int|
                                0 <= f < vdata.fields@.len() ==> {
                                    &&& (#[trigger] vdata.fields@[f]).name
                                        < self.typeenv.syms@.len()
                                    &&& vdata.fields@[f].ty < self.typeenv.types@.len()
                                },
                            ctx.wf(),
                            k2 <= arm.bindings@.len(),
                            s_var_fields(
                                *self.typeenv,
                                vdata.fields@,
                                arm.bindings@,
                                k2 as int,
                                ctx.emit(),
                                skipped,
                            ) == s_var_fields(
                                *self.typeenv,
                                vdata.fields@,
                                arm.bindings@,
                                0,
                                e_start,
                                false,
                            ),
                        decreases arm.bindings@.len() - k2,
                    {
                        if let Some(b) = arm.bindings[k2] {
                            ctx.push_indent();
                            ctx.out.append(self.typeenv.syms[vdata.fields[k2].name as usize].as_str());
                            ctx.out.append(": ");
                            let (fref, _) = self.ty(vdata.fields[k2].ty);
                            if fref {
                                ctx.set_ref(b, true);
                                ctx.out.append("ref ");
                            }
                            push_v(&mut ctx.out, b);
                            ctx.out.append(",\n");
                        } else {
                            skipped = true;
                        }
                        k2 += 1;
                    }
                    if skipped {
                        ctx.push_indent();
                        ctx.out.append("..\n");
                    }
                    ctx.end_block_without_newline();
                }
            },
            Constraint::IsSome => {
                ctx.out.append("Some(");
                if let Some(b) = arm.bindings[0] {
                    let sref = ctx.is_ref.contains(source);
                    ctx.set_ref(b, sref);
                    push_v(&mut ctx.out, b);
                } else {
                    ctx.out.append("_");
                }
                ctx.out.append(")");
            },
        }
        proof {
            assert(ctx.emit() =~= s_constraint(
                *self.typeenv,
                source,
                arm.constraint,
                arm.bindings@,
                old(ctx).emit(),
            ));
        }
    }
}

/// The accumulator type name for a binding whose call yields a stream:
/// the context trait's associated type for external terms, the internal
/// wrapper otherwise; `None` for everything else.
pub open spec fn s_iter_acc(tme: TermEnv, b: Binding) -> Option<Seq<char>> {
    match b {
        Binding::Extractor { term, .. } => {
            let t = tme.terms@[term as int];
            if t.extractor->0.ret_kind is Multi {
                if t.has_ext_extractor {
                    Some("C::"@ + t.extractor->0.func_name@ + "_returns"@)
                } else {
                    Some("ContextIterWrapper::<ConstructorVec<_>, _>"@)
                }
            } else {
                None
            }
        },
        Binding::Constructor { term, .. } => {
            let t = tme.terms@[term as int];
            if t.constructor->0.ret_kind is Multi {
                if t.has_ext_constructor {
                    Some("C::"@ + t.constructor->0.func_name@ + "_returns"@)
                } else {
                    Some("ContextIterWrapper::<ConstructorVec<_>, _>"@)
                }
            } else {
                None
            }
        },
        _ => None,
    }
}

/// Materializing the bindings of one evaluation step, in `bind_order`:
/// stream-yielding calls get a `let mut v<b> = <acc>::default();` line and
/// are then emitted as a statement; everything else gets `let v<b> = <expr>;`.
pub open spec fn s_binds(
    te: TypeEnv,
    tme: TermEnv,
    rs: RuleSet,
    bo: Seq<u32>,
    k: int,
    e: Emit,
) -> Emit
    decreases bo.len() - k,
        when bindings_wf(te, tme, rs) && 0 <= k && (forall|j: int|
            0 <= j < bo.len() ==> bo[j] < rs.bindings@.len())
{
    if k >= bo.len() {
        e
    } else {
        let b = bo[k];
        let e1 = match s_iter_acc(tme, rs.bindings@[b as int]) {
            Some(acc) => Emit {
                text: e.text + ind(e.st.indent) + "let mut "@ + vtext(b) + " = "@ + acc
                    + "::default();\n"@ + ind(e.st.indent),
                st: e.st,
            },
            None => Emit {
                text: e.text + ind(e.st.indent) + "let "@ + vtext(b) + " = "@,
                st: e.st,
            },
        };
        let e2 = s_emit_expr(te, tme, rs, b, e1);
        let e3 = s_set_bound(Emit { text: e2.text + ";\n"@, st: e2.st }, b);
        s_binds(te, tme, rs, bo, k + 1, e3)
    }
}

/// Emitting one evaluation step: its bindings, then its control flow.
pub open spec fn s_step(
    te: TypeEnv,
    tme: TermEnv,
    rs: RuleSet,
    rk: ReturnKind,
    step: EvalStep,
    e: Emit,
) -> Emit
    decreases step, 2nat, 0nat,
        when bindings_wf(te, tme, rs) && step_wf(te, rs, step)
{
    let e0 = s_binds(te, tme, rs, step.bind_order@, 0, e);
    match step.check {
        ControlFlow::Match { source, arms } => {
            if arms@.len() == 1 {
                let arm = arms@[0];
                let scope = e0.st.is_bound;
                if arm.constraint is ConstInt || arm.constraint is ConstPrim {
                    let e1 = Emit { text: e0.text + ind(e0.st.indent) + "if "@, st: e0.st };
                    let e2 = s_emit_expr(te, tme, rs, source, e1);
                    let e3 = Emit { text: e2.text + " == "@, st: e2.st };
                    let e4 = s_constraint(te, source, arm.constraint, arm.bindings@, e3);
                    s_nested(te, tme, rs, rk, arm.body, Seq::<char>::empty(), scope, e4)
                } else {
                    let e1 = Emit { text: e0.text + ind(e0.st.indent) + "if let "@, st: e0.st };
                    let e2 = s_constraint(te, source, arm.constraint, arm.bindings@, e1);
                    let e3 = Emit { text: e2.text + " = "@, st: e2.st };
                    let e4 = s_source(te, tme, rs, source, arm.constraint, e3);
                    s_nested(te, tme, rs, rk, arm.body, Seq::<char>::empty(), scope, e4)
                }
            } else {
                let scope = e0.st.is_bound;
                let e1 = Emit { text: e0.text + ind(e0.st.indent) + "match "@, st: e0.st };
                let e2 = s_source(te, tme, rs, source, arms@[0].constraint, e1);
                let e3 = s_begin(e2);
                let e4 = s_arms(te, tme, rs, rk, source, arms@, 0, e3);
                s_end_block(e4, "_ => {}"@, scope)
            }
        },
        ControlFlow::Equal { a, b, body } => {
            let scope = e0.st.is_bound;
            let e1 = Emit { text: e0.text + ind(e0.st.indent) + "if "@, st: e0.st };
            let e2 = s_emit_expr(te, tme, rs, a, e1);
            let e3 = Emit { text: e2.text + " == "@, st: e2.st };
            let e4 = s_emit_expr(te, tme, rs, b, e3);
            s_nested(te, tme, rs, rk, body, Seq::<char>::empty(), scope, e4)
        },
        ControlFlow::Loop { result, body } => {
            let src = rs.bindings@[result as int]->IterElem_source;
            let scope = e0.st.is_bound;
            let e1 = Emit {
                text: e0.text + ind(e0.st.indent) + "let mut "@ + vtext(src) + " = "@ + vtext(src)
                    + ".into_context_iter();\n"@ + ind(e0.st.indent) + "while let Some("@ + vtext(
                    result,
                ) + ") = "@ + vtext(src) + ".next(ctx)"@,
                st: e0.st,
            };
            let e2 = s_set_bound(e1, result);
            s_nested(te, tme, rs, rk, body, Seq::<char>::empty(), scope, e2)
        },
        ControlFlow::Return { pos, result } => {
            let e1 = Emit {
                text: e0.text + ind(e0.st.indent) + "// Rule at "@ + pos_text(te, pos) + ".\n"@
                    + ind(e0.st.indent) + (if rk is Multi {
                    "returns.extend(Some("@
                } else {
                    "return "@
                }),
                st: e0.st,
            };
            let e2 = s_emit_expr(te, tme, rs, result, e1);
            let e3 = if e2.st.is_ref.contains(result) {
                Emit { text: e2.text + ".clone()"@, st: e2.st }
            } else {
                e2
            };
            if rk is Multi {
                Emit {
                    text: e3.text + "));\n"@ + ind(e3.st.indent)
                        + "if returns.len() >= MAX_ISLE_RETURNS { return; }\n"@,
                    st: e3.st,
                }
            } else {
                Emit { text: e3.text + ";\n"@, st: e3.st }
            }
        },
    }
}

/// Emitting the arms of a multi-arm match, each in its own scope.
pub open spec fn s_arms(
    te: TypeEnv,
    tme: TermEnv,
    rs: RuleSet,
    rk: ReturnKind,
    source: u32,
    arms: Seq<MatchArm>,
    k: int,
    e: Emit,
) -> Emit
    decreases arms, 1nat, arms.len() - k,
        when bindings_wf(te, tme, rs) && 0 <= k && (forall|a: int|
            0 <= a < arms.len() ==> arm_wf(te, rs, #[trigger] arms[a]))
{
    if k >= arms.len() {
        e
    } else {
        let arm = arms[k];
        let scope = e.st.is_bound;
        let e1 = Emit { text: e.text + ind(e.st.indent), st: e.st };
        let e2 = s_constraint(te, source, arm.constraint, arm.bindings@, e1);
        let e3 = Emit { text: e2.text + " =>"@, st: e2.st };
        let e4 = s_nested(te, tme, rs, rk, arm.body, Seq::<char>::empty(), scope, e3);
        s_arms(te, tme, rs, rk, source, arms, k + 1, e4)
    }
}

/// The steps of a block, in order.
pub open spec fn s_steps(
    te: TypeEnv,
    tme: TermEnv,
    rs: RuleSet,
    rk: ReturnKind,
    block: Block,
    k: int,
    e: Emit,
) -> Emit
    decreases block, 0nat, block.steps@.len() - k,
        when bindings_wf(te, tme, rs) && block_wf(te, rs, block) && 0 <= k
{
    if k >= block.steps@.len() {
        e
    } else {
        s_steps(te, tme, rs, rk, block, k + 1, s_step(te, tme, rs, rk, block.steps@[k], e))
    }
}

/// A nested block: open it, emit its steps, close it with the fallback
/// last line and restore the scope snapshot.
pub open spec fn s_nested(
    te: TypeEnv,
    tme: TermEnv,
    rs: RuleSet,
    rk: ReturnKind,
    block: Block,
    last: Seq<char>,
    scope: Seq<u32>,
    e: Emit,
) -> Emit
    decreases block, 3nat, 0nat,
        when bindings_wf(te, tme, rs) && block_wf(te, rs, block)
{
    s_end_block(s_steps(te, tme, rs, rk, block, 0, s_begin(e)), last, scope)
}

impl<'a> Codegen<'a> {
    /// Emit a block of the decision tree: brace, steps, fallback line,
    /// closing brace; `scope` is the `is_bound` snapshot restored on exit.
    pub fn emit_block(
        &self,
        rs: &RuleSet,
        ctx: &mut BodyContext,
        block: &Block,
        ret_kind: ReturnKind,
        last_expr: &str,
        scope: IdSet,
    )
        requires
            self.envs_wf(),
            bindings_wf(*self.typeenv, *self.termenv, *rs),
            rs.bindings@.len() <= u32::MAX,
            block_wf(*self.typeenv, *rs, *block),
            block_valid(ret_kind, *block),
            old(ctx).wf(),
            sorted(scope@),
        ensures
            final(ctx).emit() == s_nested(
                *self.typeenv,
                *self.termenv,
                *rs,
                ret_kind,
                *block,
                last_expr@,
                scope@,
                old(ctx).emit(),
            ),
            final(ctx).wf(),
        decreases block, 3int, 0int,
    {
        ctx.begin_block();
        let ghost e_start = ctx.emit();
        let mut k: usize = 0;
        while k < block.steps.len()
            invariant
                self.envs_wf(),
                bindings_wf(*self.typeenv, *self.termenv, *rs),
                rs.bindings@.len() <= u32::MAX,
                block_wf(*self.typeenv, *rs, *block),
                block_valid(ret_kind, *block),
                ctx.wf(),
                k <= block.steps@.len(),
                s_steps(*self.typeenv, *self.termenv, *rs, ret_kind, *block, k as int, ctx.emit())
                    == s_steps(*self.typeenv, *self.termenv, *rs, ret_kind, *block, 0, e_start),
            decreases block.steps@.len() - k,
        {
            proof {
                assert(step_wf(*self.typeenv, *rs, block.steps@[k as int]));
                assert(step_valid(ret_kind, block.steps@[k as int]));
            }
            self.emit_step(rs, ctx, &block.steps[k], ret_kind);
            k += 1;
        }
        ctx.end_block(last_expr, scope);
    }

    /// Emit one evaluation step.
    fn emit_step(&self, rs: &RuleSet, ctx: &mut BodyContext, step: &EvalStep, ret_kind: ReturnKind)
        requires
            self.envs_wf(),
            bindings_wf(*self.typeenv, *self.termenv, *rs),
            rs.bindings@.len() <= u32::MAX,
            step_wf(*self.typeenv, *rs, *step),
            step_valid(ret_kind, *step),
            old(ctx).wf(),
        ensures
            final(ctx).emit() == s_step(
                *self.typeenv,
                *self.termenv,
                *rs,
                ret_kind,
                *step,
                old(ctx).emit(),
            ),
            final(ctx).wf(),
        decreases step, 2int, 0int,
    {
        proof {
            reveal_strlit("");
            assert(""@ =~= Seq::<char>::empty());
        }
        let mut k: usize = 0;
        while k < step.bind_order.len()
            invariant
                self.envs_wf(),
                bindings_wf(*self.typeenv, *self.termenv, *rs),
                rs.bindings@.len() <= u32::MAX,
                forall|j: int|
                    0 <= j < step.bind_order@.len() ==> #[trigger] step.bind_order@[j]
                        < rs.bindings@.len(),
                ctx.wf(),
                k <= step.bind_order@.len(),
                s_binds(*self.typeenv, *self.termenv, *rs, step.bind_order@, k as int, ctx.emit())
                    == s_binds(*self.typeenv, *self.termenv, *rs, step.bind_order@, 0, old(ctx).emit()),
            decreases step.bind_order@.len() - k,
        {
            let b = step.bind_order[k];
            let mut acc: Option<String> = None;
            match &rs.bindings[b as usize] {
                Binding::Extractor { term, .. } => {
                    proof {
                        assert(binding_wf(
                            *self.typeenv,
                            *self.termenv,
                            rs.bindings@[b as int],
                            b as int,
                        ));
                    }
                    let t = &self.termenv.terms[*term as usize];
                    match &t.extractor {
                        Some(sig) => {
                            let multi = match sig.ret_kind {
                                ReturnKind::Multi => true,
                                _ => false,
                            };
                            if multi {
                                if t.has_ext_extractor {
                                    let mut a = String::new();
                                    a.append("C::");
                                    a.append(sig.func_name.as_str());
                                    a.append("_returns");
                                    acc = Some(a);
                                } else {
                                    let mut a = String::new();
                                    a.append("ContextIterWrapper::<ConstructorVec<_>, _>");
                                    acc = Some(a);
                                }
                            }
                        },
                        None => {
                            proof {
                                assert(false);
                            }
                        },
                    }
                },
                Binding::Constructor { term, .. } => {
                    proof {
                        assert(binding_wf(
                            *self.typeenv,
                            *self.termenv,
                            rs.bindings@[b as int],
                            b as int,
                        ));
                    }
                    let t = &self.termenv.terms[*term as usize];
                    match &t.constructor {
                        Some(sig) => {
                            let multi = match sig.ret_kind {
                                ReturnKind::Multi => true,
                                _ => false,
                            };
                            if multi {
                                if t.has_ext_constructor {
                                    let mut a = String::new();
                                    a.append("C::");
                                    a.append(sig.func_name.as_str());
                                    a.append("_returns");
                                    acc = Some(a);
                                } else {
                                    let mut a = String::new();
                                    a.append("ContextIterWrapper::<ConstructorVec<_>, _>");
                                    acc = Some(a);
                                }
                            }
                        },
                        None => {
                            proof {
                                assert(false);
                            }
                        },
                    }
                },
                _ => {},
            }
            proof {
                let sacc = s_iter_acc(*self.termenv, rs.bindings@[b as int]);
                assert(match acc {
                    Some(ref a) => sacc == Some(a@),
                    None => sacc is None,
                });
            }
            match &acc {
                Some(a) => {
                    ctx.push_indent();
                    ctx.out.append("let mut ");
                    push_v(&mut ctx.out, b);
                    ctx.out.append(" = ");
                    ctx.out.append(a.as_str());
                    ctx.out.append("::default();\n");
                    ctx.push_indent();
                },
                None => {
                    ctx.push_indent();
                    ctx.out.append("let ");
                    push_v(&mut ctx.out, b);
                    ctx.out.append(" = ");
                },
            }
            self.emit_expr(rs, ctx, b);
            ctx.out.append(";\n");
            ctx.set_bound(b);
            k += 1;
        }
        match &step.check {
            ControlFlow::Match { source, arms } => {
                if arms.len() == 1 {
                    let arm = &arms[0];
                    let scope = ctx.enter_scope();
                    let is_const = match &arm.constraint {
                        Constraint::ConstInt { .. } => true,
                        Constraint::ConstPrim { .. } => true,
                        _ => false,
                    };
                    if is_const {
                        ctx.push_indent();
                        ctx.out.append("if ");
                        self.emit_expr(rs, ctx, *source);
                        ctx.out.append(" == ");
                        self.emit_constraint(ctx, *source, arm);
                    } else {
                        ctx.push_indent();
                        ctx.out.append("if let ");
                        self.emit_constraint(ctx, *source, arm);
                        ctx.out.append(" = ");
                        self.emit_source(rs, ctx, *source, &arm.constraint);
                    }
                    self.emit_block(rs, ctx, &arm.body, ret_kind, "", scope);
                } else {
                    let scope = ctx.enter_scope();
                    ctx.push_indent();
                    ctx.out.append("match ");
                    self.emit_source(rs, ctx, *source, &arms[0].constraint);
                    ctx.begin_block();
                    self.emit_arms(rs, ctx, *source, arms, ret_kind);
                    ctx.end_block("_ => {}", scope);
                }
            },
            ControlFlow::Equal { a, b, body } => {
                let scope = ctx.enter_scope();
                ctx.push_indent();
                ctx.out.append("if ");
                self.emit_expr(rs, ctx, *a);
                ctx.out.append(" == ");
                self.emit_expr(rs, ctx, *b);
                self.emit_block(rs, ctx, body, ret_kind, "", scope);
            },
            ControlFlow::Loop { result, body } => {
                let src = match &rs.bindings[*result as usize] {
                    Binding::IterElem { source } => *source,
                    _ => {
                        proof {
                            assert(false);
                        }
                        0u32
                    },
                };
                let scope = ctx.enter_scope();
                ctx.push_indent();
                ctx.out.append("let mut ");
                push_v(&mut ctx.out, src);
                ctx.out.append(" = ");
                push_v(&mut ctx.out, src);
                ctx.out.append(".into_context_iter();\n");
                ctx.push_indent();
                ctx.out.append("while let Some(");
                push_v(&mut ctx.out, *result);
                ctx.out.append(") = ");
                push_v(&mut ctx.out, src);
                ctx.out.append(".next(ctx)");
                ctx.set_bound(*result);
                self.emit_block(rs, ctx, body, ret_kind, "", scope);
            },
            ControlFlow::Return { pos, result } => {
                ctx.push_indent();
                ctx.out.append("// Rule at ");
                let p = pos.pretty_print_line(self.typeenv);
                ctx.out.append(p.as_str());
                ctx.out.append(".\n");
                ctx.push_indent();
                let multi = match ret_kind {
                    ReturnKind::Multi => true,
                    _ => false,
                };
                if multi {
                    ctx.out.append("returns.extend(Some(");
                } else {
                    ctx.out.append("return ");
                }
                self.emit_expr(rs, ctx, *result);
                if ctx.is_ref.contains(*result) {
                    ctx.out.append(".clone()");
                }
                if multi {
                    ctx.out.append("));\n");
                    ctx.push_indent();
                    ctx.out.append("if returns.len() >= MAX_ISLE_RETURNS { return; }\n");
                } else {
                    ctx.out.append(";\n");
                }
            },
        }
        proof {
            assert(ctx.emit() =~= s_step(
                *self.typeenv,
                *self.termenv,
                *rs,
                ret_kind,
                *step,
                old(ctx).emit(),
            ));
        }
    }

    /// Emit each arm of a multi-arm match.
    fn emit_arms(
        &self,
        rs: &RuleSet,
        ctx: &mut BodyContext,
        source: u32,
        arms: &Vec<MatchArm>,
        ret_kind: ReturnKind,
    )
        requires
            self.envs_wf(),
            bindings_wf(*self.typeenv, *self.termenv, *rs),
            rs.bindings@.len() <= u32::MAX,
            forall|a: int| 0 <= a < arms@.len() ==> arm_wf(*self.typeenv, *rs, #[trigger] arms@[a]),
            forall|a: int|
                0 <= a < arms@.len() ==> block_valid(ret_kind, (#[trigger] arms@[a]).body),
            old(ctx).wf(),
        ensures
            final(ctx).emit() == s_arms(
                *self.typeenv,
                *self.termenv,
                *rs,
                ret_kind,
                source,
                arms@,
                0,
                old(ctx).emit(),
            ),
            final(ctx).wf(),
        decreases arms, 1int, 0int,
    {
        let mut k: usize = 0;
        while k < arms.len()
            invariant
                self.envs_wf(),
                bindings_wf(*self.typeenv, *self.termenv, *rs),
                rs.bindings@.len() <= u32::MAX,
                forall|a: int|
                    0 <= a < arms@.len() ==> arm_wf(*self.typeenv, *rs, #[trigger] arms@[a]),
                forall|a: int|
                    0 <= a < arms@.len() ==> block_valid(ret_kind, (#[trigger] arms@[a]).body),
                ctx.wf(),
                k <= arms@.len(),
                s_arms(*self.typeenv, *self.termenv, *rs, ret_kind, source, arms@, k as int, ctx.emit())
                    == s_arms(*self.typeenv, *self.termenv, *rs, ret_kind, source, arms@, 0, old(ctx).emit()),
            decreases arms@.len() - k,
        {
            proof {
                reveal_strlit("");
                assert(""@ =~= Seq::<char>::empty());
            }
            let arm = &arms[k];
            let scope = ctx.enter_scope();
            ctx.push_indent();
            self.emit_constraint(ctx, source, arm);
            ctx.out.append(" =>");
            self.emit_block(rs, ctx, &arm.body, ret_kind, "", scope);
            k += 1;
        }
    }
}

/// Comma-separated rendered type names starting at position `k`.
pub open spec fn s_tys_join(te: TypeEnv, tys: Seq<u32>, by_ref: bool, k: int, acc: Seq<char>) -> Seq<char>
    decreases tys.len() - k,
        when 0 <= k
{
    if k >= tys.len() {
        acc
    } else {
        s_tys_join(
            te,
            tys,
            by_ref,
            k + 1,
            acc + (if k > 0 {
                ", "@
            } else {
                Seq::<char>::empty()
            }) + s_type_name(te, tys[k], by_ref),
        )
    }
}

/// The rendered return type tuple of a signature: bare for one result,
/// parenthesized otherwise.
pub open spec fn s_ret_tuple(te: TypeEnv, sig: ExternalSig) -> Seq<char> {
    (if sig.ret_tys@.len() != 1 {
        "("@
    } else {
        Seq::<char>::empty()
    }) + s_tys_join(te, sig.ret_tys@, false, 0, Seq::<char>::empty()) + (if sig.ret_tys@.len() != 1 {
        ")"@
    } else {
        Seq::<char>::empty()
    })
}

/// The comma-separated `arg<i>: <ty>` parameters starting at `k`.
pub open spec fn s_sig_args(te: TypeEnv, tys: Seq<u32>, k: int, acc: Seq<char>) -> Seq<char>
    decreases tys.len() - k,
        when 0 <= k
{
    if k >= tys.len() {
        acc
    } else {
        s_sig_args(
            te,
            tys,
            k + 1,
            acc + (if k > 0 {
                ", "@
            } else {
                Seq::<char>::empty()
            }) + "arg"@ + dec_text(k as nat) + ": "@ + s_type_name(te, tys[k], true),
        )
    }
}

/// The parameter list of a context-trait method, with the trailing
/// `returns` sink for stream-returning signatures.
pub open spec fn s_sig_params(te: TypeEnv, sig: ExternalSig) -> Seq<char> {
    s_sig_args(te, sig.param_tys@, 0, Seq::<char>::empty()) + (if sig.ret_kind is Multi {
        (if sig.param_tys@.len() > 0 {
            ", "@
        } else {
            Seq::<char>::empty()
        }) + "returns: &mut Self::"@ + sig.func_name@ + "_returns"@
    } else {
        Seq::<char>::empty()
    })
}

/// Folding text onto an accumulator distributes over concatenation.
proof fn lemma_tys_join_acc(te: TypeEnv, tys: Seq<u32>, by_ref: bool, k: int, acc: Seq<char>)
    requires
        0 <= k,
    ensures
        s_tys_join(te, tys, by_ref, k, acc) == acc + s_tys_join(
            te,
            tys,
            by_ref,
            k,
            Seq::<char>::empty(),
        ),
    decreases tys.len() - k,
{
    if k >= tys.len() {
        assert(acc =~= acc + Seq::<char>::empty());
    } else {
        let sep = if k > 0 {
            ", "@
        } else {
            Seq::<char>::empty()
        };
        let name = s_type_name(te, tys[k], by_ref);
        let a1 = acc + sep + name;
        let z1 = Seq::<char>::empty() + sep + name;
        lemma_tys_join_acc(te, tys, by_ref, k + 1, a1);
        lemma_tys_join_acc(te, tys, by_ref, k + 1, z1);
        assert(a1 + s_tys_join(te, tys, by_ref, k + 1, Seq::<char>::empty()) =~= acc + (z1
            + s_tys_join(te, tys, by_ref, k + 1, Seq::<char>::empty())));
    }
}

/// Folding `arg<i>` parameters onto an accumulator distributes over
/// concatenation.
proof fn lemma_sig_args_acc(te: TypeEnv, tys: Seq<u32>, k: int, acc: Seq<char>)
    requires
        0 <= k,
    ensures
        s_sig_args(te, tys, k, acc) == acc + s_sig_args(te, tys, k, Seq::<char>::empty()),
    decreases tys.len() - k,
{
    if k >= tys.len() {
        assert(acc =~= acc + Seq::<char>::empty());
    } else {
        let sep = if k > 0 {
            ", "@
        } else {
            Seq::<char>::empty()
        };
        let a1 = acc + sep + "arg"@ + dec_text(k as nat) + ": "@ + s_type_name(te, tys[k], true);
        let z1 = Seq::<char>::empty() + sep + "arg"@ + dec_text(k as nat) + ": "@ + s_type_name(
            te,
            tys[k],
            true,
        );
        lemma_sig_args_acc(te, tys, k + 1, a1);
        lemma_sig_args_acc(te, tys, k + 1, z1);
        assert(a1 + s_sig_args(te, tys, k + 1, Seq::<char>::empty()) =~= acc + (z1 + s_sig_args(
            te,
            tys,
            k + 1,
            Seq::<char>::empty(),
        )));
    }
}

/// One context-trait method declaration, with its associated accumulator
/// type when the signature yields a stream.
pub open spec fn s_trait_sig(te: TypeEnv, sig: ExternalSig, indent: Seq<char>) -> Seq<char> {
    let rt = s_ret_tuple(te, sig);
    (if sig.ret_kind is Multi {
        indent + "type "@ + sig.func_name@
            + "_returns: Default + IntoContextIter<Context = Self, Output = "@ + rt + ">;\n"@
    } else {
        Seq::<char>::empty()
    }) + indent + "fn "@ + sig.func_name@ + "(&mut self, "@ + s_sig_params(te, sig) + ") -> "@ + (
    match sig.ret_kind {
        ReturnKind::Plain => rt,
        ReturnKind::Optional => "Option<"@ + rt + ">"@,
        ReturnKind::Multi => "()"@,
    }) + ";\n"@
}

impl<'a> Codegen<'a> {
    /// The rendered return tuple of `sig`.
    fn build_ret_tuple(&self, sig: &ExternalSig) -> (r: String)
        requires
            self.envs_wf(),
            sig_wf(*self.typeenv, *sig),
        ensures
            r@ == s_ret_tuple(*self.typeenv, *sig),
    {
        let mut ret_tuple = String::new();
        if sig.ret_tys.len() != 1 {
            ret_tuple.append("(");
        }
        let ghost rt0 = ret_tuple@;
        let mut k: usize = 0;
        while k < sig.ret_tys.len()
            invariant
                self.envs_wf(),
                sig_wf(*self.typeenv, *sig),
                k <= sig.ret_tys@.len(),
                s_tys_join(*self.typeenv, sig.ret_tys@, false, k as int, ret_tuple@) == s_tys_join(
                    *self.typeenv,
                    sig.ret_tys@,
                    false,
                    0,
                    rt0,
                ),
            decreases sig.ret_tys@.len() - k,
        {
            if k > 0 {
                ret_tuple.append(", ");
            }
            let t = self.ty_name(sig.ret_tys[k], false);
            ret_tuple.append(t.as_str());
            k += 1;
        }
        if sig.ret_tys.len() != 1 {
            ret_tuple.append(")");
        }
        proof {
            lemma_tys_join_acc(*self.typeenv, sig.ret_tys@, false, 0, rt0);
            assert(rt0 =~= (if sig.ret_tys@.len() != 1 {
                "("@
            } else {
                Seq::<char>::empty()
            }));
            assert(ret_tuple@ =~= s_ret_tuple(*self.typeenv, *sig));
        }
        ret_tuple
    }

    /// Append one context-trait method declaration for `sig`.
    #[verifier::rlimit(100)]
    pub fn generate_trait_sig(&self, code: &mut String, indent: &str, sig: &ExternalSig)
        requires
            self.envs_wf(),
            sig_wf(*self.typeenv, *sig),
        ensures
            final(code)@ == old(code)@ + s_trait_sig(*self.typeenv, *sig, indent@),
    {
        let ret_tuple = self.build_ret_tuple(sig);
        let multi = match sig.ret_kind {
            ReturnKind::Multi => true,
            _ => false,
        };
        if multi {
            code.append(indent);
            code.append("type ");
            code.append(sig.func_name.as_str());
            code.append("_returns: Default + IntoContextIter<Context = Self, Output = ");
            code.append(ret_tuple.as_str());
            code.append(">;\n");
        }
        proof {
            assert(code@ =~= old(code)@ + (if sig.ret_kind is Multi {
                indent@ + "type "@ + sig.func_name@
                    + "_returns: Default + IntoContextIter<Context = Self, Output = "@
                    + s_ret_tuple(*self.typeenv, *sig) + ">;\n"@
            } else {
                Seq::<char>::empty()
            }));
        }
        code.append(indent);
        code.append("fn ");
        code.append(sig.func_name.as_str());
        code.append("(&mut self, ");
        let ghost a0 = code@;
        let mut i: usize = 0;
        while i < sig.param_tys.len()
            invariant
                self.envs_wf(),
                sig_wf(*self.typeenv, *sig),
                i <= sig.param_tys@.len(),
                s_sig_args(*self.typeenv, sig.param_tys@, i as int, code@) == s_sig_args(
                    *self.typeenv,
                    sig.param_tys@,
                    0,
                    a0,
                ),
            decreases sig.param_tys@.len() - i,
        {
            if i > 0 {
                code.append(", ");
            }
            code.append("arg");
            push_dec(code, i as u32);
            code.append(": ");
            let t = self.ty_name(sig.param_tys[i], true);
            code.append(t.as_str());
            i += 1;
        }
        if multi {
            if sig.param_tys.len() > 0 {
                code.append(", ");
            }
            code.append("returns: &mut Self::");
            code.append(sig.func_name.as_str());
            code.append("_returns");
        }
        code.append(") -> ");
        match sig.ret_kind {
            ReturnKind::Plain => {
                code.append(ret_tuple.as_str());
            },
            ReturnKind::Optional => {
                code.append("Option<");
                code.append(ret_tuple.as_str());
                code.append(">");
            },
            ReturnKind::Multi => {
                code.append("()");
            },
        }
        code.append(";\n");
        proof {
            lemma_sig_args_acc(*self.typeenv, sig.param_tys@, 0, a0);
            assert(code@ =~= old(code)@ + s_trait_sig(*self.typeenv, *sig, indent@));
        }
    }
}

/// The fixed prose and opening of the context trait.
pub open spec fn s_ctx_head() -> Seq<char> {
    "\n/// Context during lowering: an implementation of this trait\n/// must be provided with all external constructors and extractors.\n/// A mutable borrow is passed along through all lowering logic.\npub trait Context {\n"@
}

/// The fixed iterator plumbing that follows the context trait; textually
/// identical across runs.
pub open spec fn s_plumbing() -> Seq<char> {
    "
pub trait ContextIter {
    type Context;
    type Output;
    fn next(&mut self, ctx: &mut Self::Context) -> Option<Self::Output>;
    fn size_hint(&self) -> (usize, Option<usize>) { (0, None) }
}

pub trait IntoContextIter {
    type Context;
    type Output;
    type IntoIter: ContextIter<Context = Self::Context, Output = Self::Output>;
    fn into_context_iter(self) -> Self::IntoIter;
}

pub trait Length {
    fn len(&self) -> usize;
}

impl<T> Length for std::vec::Vec<T> {
    fn len(&self) -> usize {
        std::vec::Vec::len(self)
    }
}

pub struct ContextIterWrapper<I, C> {
    iter: I,
    _ctx: std::marker::PhantomData<C>,
}
impl<I: Default, C> Default for ContextIterWrapper<I, C> {
    fn default() -> Self {
        ContextIterWrapper {
            iter: I::default(),
            _ctx: std::marker::PhantomData
        }
    }
}
impl<I, C> std::ops::Deref for ContextIterWrapper<I, C> {
    type Target = I;
    fn deref(&self) -> &I {
        &self.iter
    }
}
impl<I, C> std::ops::DerefMut for ContextIterWrapper<I, C> {
    fn deref_mut(&mut self) -> &mut I {
        &mut self.iter
    }
}
impl<I: Iterator, C: Context> From<I> for ContextIterWrapper<I, C> {
    fn from(iter: I) -> Self {
        Self { iter, _ctx: std::marker::PhantomData }
    }
}
impl<I: Iterator, C: Context> ContextIter for ContextIterWrapper<I, C> {
    type Context = C;
    type Output = I::Item;
    fn next(&mut self, _ctx: &mut Self::Context) -> Option<Self::Output> {
        self.iter.next()
    }
    fn size_hint(&self) -> (usize, Option<usize>) {
        self.iter.size_hint()
    }
}
impl<I: IntoIterator, C: Context> IntoContextIter for ContextIterWrapper<I, C> {
    type Context = C;
    type Output = I::Item;
    type IntoIter = ContextIterWrapper<I::IntoIter, C>;
    fn into_context_iter(self) -> Self::IntoIter {
        ContextIterWrapper {
            iter: self.iter.into_iter(),
            _ctx: std::marker::PhantomData
        }
    }
}
impl<T, E: Extend<T>, C> Extend<T> for ContextIterWrapper<E, C> {
    fn extend<I: IntoIterator<Item = T>>(&mut self, iter: I) {
        self.iter.extend(iter);
    }
}
impl<L: Length, C> Length for ContextIterWrapper<L, C> {
    fn len(&self) -> usize {
        self.iter.len()
    }
}
           "@
}

/// The context-trait method declarations of every term with an external
/// extractor or constructor, in term order.
pub open spec fn s_trait_sigs(te: TypeEnv, tme: TermEnv, k: int, acc: Seq<char>) -> Seq<char>
    decreases tme.terms@.len() - k,
        when 0 <= k
{
    if k >= tme.terms@.len() {
        acc
    } else {
        let t = tme.terms@[k];
        let a1 = if t.has_ext_extractor {
            acc + s_trait_sig(te, t.extractor->0, "    "@)
        } else {
            acc
        };
        let a2 = if t.has_ext_constructor {
            a1 + s_trait_sig(te, t.constructor->0, "    "@)
        } else {
            a1
        };
        s_trait_sigs(te, tme, k + 1, a2)
    }
}

/// The whole context-trait section: prose, the trait, the plumbing.
pub open spec fn s_ctx_trait(te: TypeEnv, tme: TermEnv, acc: Seq<char>) -> Seq<char> {
    s_trait_sigs(te, tme, 0, acc + s_ctx_head()) + "}\n"@ + s_plumbing() + "\n"@
}

/// The generated-file banner.
pub open spec fn s_banner() -> Seq<char> {
    "// GENERATED BY ISLE. DO NOT EDIT!\n//\n// Generated automatically from the instruction-selection DSL code in:\n"@
}

/// The global allow pragmas.
pub open spec fn s_pragmas() -> Seq<char> {
    "\n#![allow(dead_code, unreachable_code, unreachable_patterns)]\n#![allow(unused_imports, unused_variables, non_snake_case, unused_mut)]\n#![allow(irrefutable_let_patterns, unused_assignments, non_camel_case_types)]\n"@
}

/// The fixed import preamble.
pub open spec fn s_preamble() -> Seq<char> {
    "\nuse super::*;  // Pulls in all external types.\nuse std::marker::PhantomData;\n"@
}

/// One `// - <file>` line per source filename.
pub open spec fn s_file_list(te: TypeEnv, k: int, acc: Seq<char>) -> Seq<char>
    decreases te.filenames@.len() - k,
        when 0 <= k
{
    if k >= te.filenames@.len() {
        acc
    } else {
        s_file_list(te, k + 1, acc + "// - "@ + te.filenames@[k]@ + "\n"@)
    }
}

/// The file header: banner, source file list, optional pragmas, imports.
pub open spec fn s_header(te: TypeEnv, exclude_pragmas: bool, acc: Seq<char>) -> Seq<char> {
    (if exclude_pragmas {
        s_file_list(te, 0, acc + s_banner())
    } else {
        s_file_list(te, 0, acc + s_banner()) + s_pragmas()
    }) + s_preamble()
}

impl<'a> Codegen<'a> {
    /// Append the context trait (one method per external extractor or
    /// constructor) and the iterator plumbing.
    pub fn generate_ctx_trait(&self, code: &mut String)
        requires
            self.envs_wf(),
        ensures
            final(code)@ == s_ctx_trait(*self.typeenv, *self.termenv, old(code)@),
    {
        code.append(
            "\n/// Context during lowering: an implementation of this trait\n/// must be provided with all external constructors and extractors.\n/// A mutable borrow is passed along through all lowering logic.\npub trait Context {\n",
        );
        let ghost a0 = code@;
        let mut t: usize = 0;
        while t < self.termenv.terms.len()
            invariant
                self.envs_wf(),
                t <= self.termenv.terms@.len(),
                s_trait_sigs(*self.typeenv, *self.termenv, t as int, code@) == s_trait_sigs(
                    *self.typeenv,
                    *self.termenv,
                    0,
                    a0,
                ),
            decreases self.termenv.terms@.len() - t,
        {
            let term = &self.termenv.terms[t];
            if term.has_ext_extractor {
                match &term.extractor {
                    Some(sig) => {
                        self.generate_trait_sig(code, "    ", sig);
                    },
                    None => {
                        proof {
                            assert(false);
                        }
                    },
                }
            }
            if term.has_ext_constructor {
                match &term.constructor {
                    Some(sig) => {
                        self.generate_trait_sig(code, "    ", sig);
                    },
                    None => {
                        proof {
                            assert(false);
                        }
                    },
                }
            }
            t += 1;
        }
        code.append("}\n");
        code.append(
            "
pub trait ContextIter {
    type Context;
    type Output;
    fn next(&mut self, ctx: &mut Self::Context) -> Option<Self::Output>;
    fn size_hint(&self) -> (usize, Option<usize>) { (0, None) }
}

pub trait IntoContextIter {
    type Context;
    type Output;
    type IntoIter: ContextIter<Context = Self::Context, Output = Self::Output>;
    fn into_context_iter(self) -> Self::IntoIter;
}

pub trait Length {
    fn len(&self) -> usize;
}

impl<T> Length for std::vec::Vec<T> {
    fn len(&self) -> usize {
        std::vec::Vec::len(self)
    }
}

pub struct ContextIterWrapper<I, C> {
    iter: I,
    _ctx: std::marker::PhantomData<C>,
}
impl<I: Default, C> Default for ContextIterWrapper<I, C> {
    fn default() -> Self {
        ContextIterWrapper {
            iter: I::default(),
            _ctx: std::marker::PhantomData
        }
    }
}
impl<I, C> std::ops::Deref for ContextIterWrapper<I, C> {
    type Target = I;
    fn deref(&self) -> &I {
        &self.iter
    }
}
impl<I, C> std::ops::DerefMut for ContextIterWrapper<I, C> {
    fn deref_mut(&mut self) -> &mut I {
        &mut self.iter
    }
}
impl<I: Iterator, C: Context> From<I> for ContextIterWrapper<I, C> {
    fn from(iter: I) -> Self {
        Self { iter, _ctx: std::marker::PhantomData }
    }
}
impl<I: Iterator, C: Context> ContextIter for ContextIterWrapper<I, C> {
    type Context = C;
    type Output = I::Item;
    fn next(&mut self, _ctx: &mut Self::Context) -> Option<Self::Output> {
        self.iter.next()
    }
    fn size_hint(&self) -> (usize, Option<usize>) {
        self.iter.size_hint()
    }
}
impl<I: IntoIterator, C: Context> IntoContextIter for ContextIterWrapper<I, C> {
    type Context = C;
    type Output = I::Item;
    type IntoIter = ContextIterWrapper<I::IntoIter, C>;
    fn into_context_iter(self) -> Self::IntoIter {
        ContextIterWrapper {
            iter: self.iter.into_iter(),
            _ctx: std::marker::PhantomData
        }
    }
}
impl<T, E: Extend<T>, C> Extend<T> for ContextIterWrapper<E, C> {
    fn extend<I: IntoIterator<Item = T>>(&mut self, iter: I) {
        self.iter.extend(iter);
    }
}
impl<L: Length, C> Length for ContextIterWrapper<L, C> {
    fn len(&self) -> usize {
        self.iter.len()
    }
}
           ",
        );
        code.append("\n");
        proof {
            assert(code@ =~= s_ctx_trait(*self.typeenv, *self.termenv, old(code)@));
        }
    }

    /// Append the generated-file banner, the source file list, the
    /// optional allow pragmas, and the import preamble.
    pub fn generate_header(&self, code: &mut String, options: &CodegenOptions)
        ensures
            final(code)@ == s_header(
                *self.typeenv,
                options.exclude_global_allow_pragmas,
                old(code)@,
            ),
    {
        code.append(
            "// GENERATED BY ISLE. DO NOT EDIT!\n//\n// Generated automatically from the instruction-selection DSL code in:\n",
        );
        let ghost a0 = code@;
        let mut k: usize = 0;
        while k < self.typeenv.filenames.len()
            invariant
                k <= self.typeenv.filenames@.len(),
                s_file_list(*self.typeenv, k as int, code@) == s_file_list(*self.typeenv, 0, a0),
            decreases self.typeenv.filenames@.len() - k,
        {
            code.append("// - ");
            code.append(self.typeenv.filenames[k].as_str());
            code.append("\n");
            k += 1;
        }
        if !options.exclude_global_allow_pragmas {
            code.append(
                "\n#![allow(dead_code, unreachable_code, unreachable_patterns)]\n#![allow(unused_imports, unused_variables, non_snake_case, unused_mut)]\n#![allow(irrefutable_let_patterns, unused_assignments, non_camel_case_types)]\n",
            );
        }
        code.append("\nuse super::*;  // Pulls in all external types.\nuse std::marker::PhantomData;\n");
        proof {
            assert(code@ =~= s_header(
                *self.typeenv,
                options.exclude_global_allow_pragmas,
                old(code)@,
            ));
        }
    }
}

/// Every variant of the sum type is field-less (which admits `Copy` and
/// equality derives on the generated type).
pub open spec fn all_fieldless(vars: Seq<Variant>) -> bool {
    forall|v: int| 0 <= v < vars.len() ==> (#[trigger] vars[v]).fields@.len() == 0
}

/// The named fields of one generated variant.
pub open spec fn s_tfields(te: TypeEnv, fields: Seq<Field>, k: int, acc: Seq<char>) -> Seq<char>
    decreases fields.len() - k,
        when 0 <= k
{
    if k >= fields.len() {
        acc
    } else {
        s_tfields(
            te,
            fields,
            k + 1,
            acc + "        "@ + sym_text(te, fields[k].name) + ": "@ + sym_text(
                te,
                type_name_sym(te, fields[k].ty),
            ) + ",\n"@,
        )
    }
}

/// One generated variant: bare name or a record of named fields.
pub open spec fn s_variant_decl(te: TypeEnv, v: Variant, acc: Seq<char>) -> Seq<char> {
    if v.fields@.len() == 0 {
        acc + "    "@ + sym_text(te, v.name) + ",\n"@
    } else {
        s_tfields(te, v.fields@, 0, acc + "    "@ + sym_text(te, v.name) + " {\n"@) + "    },\n"@
    }
}

pub open spec fn s_variants_decl(te: TypeEnv, vars: Seq<Variant>, k: int, acc: Seq<char>) -> Seq<
    char,
>
    decreases vars.len() - k,
        when 0 <= k
{
    if k >= vars.len() {
        acc
    } else {
        s_variants_decl(te, vars, k + 1, s_variant_decl(te, vars[k], acc))
    }
}

/// One generated internal sum type: doc line, derives, the declaration.
pub open spec fn s_enum_decl(
    te: TypeEnv,
    name: u32,
    is_nodebug: bool,
    vars: Seq<Variant>,
    pos: Pos,
    acc: Seq<char>,
) -> Seq<char> {
    let a1 = acc + "\n/// Internal type "@ + sym_text(te, name) + ": defined at "@ + pos_text(
        te,
        pos,
    ) + ".\n"@;
    let dbg: Seq<char> = if is_nodebug {
        Seq::<char>::empty()
    } else {
        ", Debug"@
    };
    let a2 = if all_fieldless(vars) {
        a1 + "#[derive(Copy, Clone, PartialEq, Eq"@ + dbg + ")]\n"@
    } else {
        a1 + "#[derive(Clone"@ + dbg + ")]\n"@
    };
    let a3 = a2 + "pub enum "@ + sym_text(te, name) + " {\n"@;
    s_variants_decl(te, vars, 0, a3) + "}\n"@
}

/// The declarations of every non-extern sum type, in type order.
pub open spec fn s_internal_types(te: TypeEnv, k: int, acc: Seq<char>) -> Seq<char>
    decreases te.types@.len() - k,
        when 0 <= k
{
    if k >= te.types@.len() {
        acc
    } else {
        let a1 = match te.types@[k] {
            Type::Enum { name, is_extern, is_nodebug, variants, pos } => if !is_extern {
                s_enum_decl(te, name, is_nodebug, variants@, pos, acc)
            } else {
                acc
            },
            Type::Primitive { .. } => acc,
        };
        s_internal_types(te, k + 1, a1)
    }
}

/// Whether every variant in `vars` is field-less.
fn all_variants_fieldless(vars: &Vec<Variant>) -> (r: bool)
    ensures
        r == all_fieldless(vars@),
{
    let mut v: usize = 0;
    while v < vars.len()
        invariant
            v <= vars@.len(),
            forall|j: int| 0 <= j < v ==> (#[trigger] vars@[j]).fields@.len() == 0,
        decreases vars@.len() - v,
    {
        if vars[v].fields.len() > 0 {
            return false;
        }
        v += 1;
    }
    true
}

impl<'a> Codegen<'a> {
    /// Append the declaration of one internal sum type.
    fn generate_enum_decl(
        &self,
        code: &mut String,
        name: u32,
        is_nodebug: bool,
        vars: &Vec<Variant>,
        pos: &Pos,
    )
        requires
            self.envs_wf(),
            name < self.typeenv.syms@.len(),
            pos_wf(*self.typeenv, *pos),
            forall|v: int|
                0 <= v < vars@.len() ==> {
                    &&& (#[trigger] vars@[v]).name < self.typeenv.syms@.len()
                    &&& forall|f: int|
                        0 <= f < vars@[v].fields@.len() ==> {
                            &&& (#[trigger] vars@[v].fields@[f]).name < self.typeenv.syms@.len()
                            &&& vars@[v].fields@[f].ty < self.typeenv.types@.len()
                        }
                },
        ensures
            final(code)@ == s_enum_decl(*self.typeenv, name, is_nodebug, vars@, *pos, old(code)@),
    {
        code.append("\n/// Internal type ");
        code.append(self.typeenv.syms[name as usize].as_str());
        code.append(": defined at ");
        let p = pos.pretty_print_line(self.typeenv);
        code.append(p.as_str());
        code.append(".\n");
        if all_variants_fieldless(vars) {
            code.append("#[derive(Copy, Clone, PartialEq, Eq");
            if !is_nodebug {
                code.append(", Debug");
            }
            code.append(")]\n");
        } else {
            code.append("#[derive(Clone");
            if !is_nodebug {
                code.append(", Debug");
            }
            code.append(")]\n");
        }
        code.append("pub enum ");
        code.append(self.typeenv.syms[name as usize].as_str());
        code.append(" {\n");
        let ghost a3 = code@;
        let mut v: usize = 0;
        while v < vars.len()
            invariant
                self.envs_wf(),
                forall|j: int|
                    0 <= j < vars@.len() ==> {
                        &&& (#[trigger] vars@[j]).name < self.typeenv.syms@.len()
                        &&& forall|f: int|
                            0 <= f < vars@[j].fields@.len() ==> {
                                &&& (#[trigger] vars@[j].fields@[f]).name
                                    < self.typeenv.syms@.len()
                                &&& vars@[j].fields@[f].ty < self.typeenv.types@.len()
                            }
                    },
                v <= vars@.len(),
                s_variants_decl(*self.typeenv, vars@, v as int, code@) == s_variants_decl(
                    *self.typeenv,
                    vars@,
                    0,
                    a3,
                ),
            decreases vars@.len() - v,
        {
            let vd = &vars[v];
            if vd.fields.len() == 0 {
                code.append("    ");
                code.append(self.typeenv.syms[vd.name as usize].as_str());
                code.append(",\n");
            } else {
                code.append("    ");
                code.append(self.typeenv.syms[vd.name as usize].as_str());
                code.append(" {\n");
                let ghost af = code@;
                let mut f: usize = 0;
                while f < vd.fields.len()
                    invariant
                        self.envs_wf(),
                        vd == &vars@[v as int],
                        v < vars@.len(),
                        forall|g: int|
                            0 <= g < vd.fields@.len() ==> {
                                &&& (#[trigger] vd.fields@[g]).name < self.typeenv.syms@.len()
                                &&& vd.fields@[g].ty < self.typeenv.types@.len()
                            },
                        f <= vd.fields@.len(),
                        s_tfields(*self.typeenv, vd.fields@, f as int, code@) == s_tfields(
                            *self.typeenv,
                            vd.fields@,
                            0,
                            af,
                        ),
                    decreases vd.fields@.len() - f,
                {
                    let fd = &vd.fields[f];
                    code.append("        ");
                    code.append(self.typeenv.syms[fd.name as usize].as_str());
                    code.append(": ");
                    let tn = match &self.typeenv.types[fd.ty as usize] {
                        Type::Primitive { name } => *name,
                        Type::Enum { name, .. } => *name,
                    };
                    code.append(self.typeenv.syms[tn as usize].as_str());
                    code.append(",\n");
                    f += 1;
                }
                code.append("    },\n");
            }
            v += 1;
        }
        code.append("}\n");
        proof {
            assert(code@ =~= s_enum_decl(
                *self.typeenv,
                name,
                is_nodebug,
                vars@,
                *pos,
                old(code)@,
            ));
        }
    }

    /// Append the declarations of all internal sum types.
    pub fn generate_internal_types(&self, code: &mut String)
        requires
            self.envs_wf(),
        ensures
            final(code)@ == s_internal_types(*self.typeenv, 0, old(code)@),
    {
        let mut k: usize = 0;
        while k < self.typeenv.types.len()
            invariant
                self.envs_wf(),
                k <= self.typeenv.types@.len(),
                s_internal_types(*self.typeenv, k as int, code@) == s_internal_types(
                    *self.typeenv,
                    0,
                    old(code)@,
                ),
            decreases self.typeenv.types@.len() - k,
        {
            match &self.typeenv.types[k] {
                Type::Enum { name, is_extern, is_nodebug, variants, pos } => {
                    if !*is_extern {
                        self.generate_enum_decl(code, *name, *is_nodebug, variants, pos);
                    }
                },
                Type::Primitive { .. } => {},
            }
            k += 1;
        }
    }
}

/// Recording the argument binding for parameter `i`, if the rule set has
/// one, as by-reference or by-value.
pub open spec fn s_find_set_ref(rs: RuleSet, i: u32, is_ref: bool, e: Emit) -> Emit {
    match find_arg_spec(rs.bindings@, i, 0) {
        Some(b) => s_set_ref(e, b, is_ref),
        None => e,
    }
}

/// One `arg<i>: <ty>,` parameter line of an internal constructor.
pub open spec fn s_ctor_params(te: TypeEnv, rs: RuleSet, sig: ExternalSig, k: int, e: Emit) -> Emit
    decreases sig.param_tys@.len() - k,
        when 0 <= k
{
    if k >= sig.param_tys@.len() {
        e
    } else {
        let p = s_ty(te, sig.param_tys@[k]);
        let e1 = Emit {
            text: e.text + ind(e.st.indent) + "    arg"@ + dec_text(k as nat) + ": "@ + (if p.0 {
                "&"@
            } else {
                Seq::<char>::empty()
            }) + sym_text(te, p.1),
            st: e.st,
        };
        let e2 = s_find_set_ref(rs, k as u32, p.0, e1);
        let e3 = Emit { text: e2.text + ",\n"@, st: e2.st };
        s_ctor_params(te, rs, sig, k + 1, e3)
    }
}

/// The fallback expression an internal constructor's body ends with when
/// its outermost block has no trailing `Return`: nothing for streams, the
/// absent value for optional returns, and an `unreachable!` carrying the
/// term name and declaration position for plain returns.
pub open spec fn s_last_expr(te: TypeEnv, tme: TermEnv, termid: u32, rs: RuleSet) -> Seq<char> {
    let termdata = tme.terms@[termid as int];
    let sig = termdata.constructor->0;
    if rs.root.steps@.len() > 0 && rs.root.steps@.last().check is Return {
        Seq::<char>::empty()
    } else {
        match sig.ret_kind {
            ReturnKind::Multi => Seq::<char>::empty(),
            ReturnKind::Optional => "None"@,
            ReturnKind::Plain => "unreachable!(\"no rule matched for term {} at {}; should it be partial?\", \""@
                + sym_text(te, termdata.name) + "\", \""@ + pos_text(te, termdata.decl_pos)
                + "\")"@,
        }
    }
}

/// The full text of one internal constructor function, appended to `acc`.
pub open spec fn s_term_ctor(
    te: TypeEnv,
    tme: TermEnv,
    termid: u32,
    rs: RuleSet,
    acc: Seq<char>,
) -> Seq<char> {
    let termdata = tme.terms@[termid as int];
    let sig = termdata.constructor->0;
    let e0 = Emit {
        text: Seq::<char>::empty(),
        st: EmitState { indent: 0, is_ref: Seq::<u32>::empty(), is_bound: Seq::<u32>::empty() },
    };
    let e1 = Emit {
        text: e0.text + "\n"@ + ind(e0.st.indent)
            + "// Generated as internal constructor for term "@ + sym_text(te, termdata.name)
            + ".\n"@ + ind(e0.st.indent) + "pub fn "@ + sig.func_name@ + "<C: Context>(\n"@ + ind(
            e0.st.indent,
        ) + "    ctx: &mut C,\n"@,
        st: e0.st,
    };
    let e2 = s_ctor_params(te, rs, sig, 0, e1);
    let rsym = s_ty(te, sig.ret_tys@[0]).1;
    let e3 = if sig.ret_kind is Multi {
        Emit {
            text: e2.text + ind(e2.st.indent) + "    returns: &mut (impl Extend<"@ + sym_text(
                te,
                rsym,
            ) + "> + Length),\n"@,
            st: e2.st,
        }
    } else {
        e2
    };
    let e4 = Emit {
        text: e3.text + ind(e3.st.indent) + ") -> "@ + (match sig.ret_kind {
            ReturnKind::Multi => "()"@,
            ReturnKind::Optional => "Option<"@ + sym_text(te, rsym) + ">"@,
            ReturnKind::Plain => sym_text(te, rsym),
        }),
        st: e3.st,
    };
    let last = s_last_expr(te, tme, termid, rs);
    let e5 = s_nested(te, tme, rs, sig.ret_kind, rs.root, last, e4.st.is_bound, e4);
    acc + e5.text
}

/// The internal constructors of every compiled term, in order.
pub open spec fn s_ctors(
    te: TypeEnv,
    tme: TermEnv,
    terms: Seq<(u32, RuleSet)>,
    k: int,
    acc: Seq<char>,
) -> Seq<char>
    decreases terms.len() - k,
        when 0 <= k
{
    if k >= terms.len() {
        acc
    } else {
        s_ctors(te, tme, terms, k + 1, s_term_ctor(te, tme, terms[k].0, terms[k].1, acc))
    }
}

/// Consistency of the compiled term list: every term exists, has a
/// constructor signature with exactly one return type, and its rule set
/// and serialized root block are well-formed and valid for its return
/// kind.
pub open spec fn terms_wf(te: TypeEnv, tme: TermEnv, terms: Seq<(u32, RuleSet)>) -> bool {
    forall|k: int|
        0 <= k < terms.len() ==> {
            &&& (#[trigger] terms[k]).0 < tme.terms@.len()
            &&& tme.terms@[terms[k].0 as int].constructor is Some
            &&& tme.terms@[terms[k].0 as int].constructor->0.ret_tys@.len() == 1
            &&& crate::trie::ruleset_wf(te, tme, terms[k].1)
            &&& block_valid(
                tme.terms@[terms[k].0 as int].constructor->0.ret_kind,
                terms[k].1.root,
            )
        }
}

/// The complete emitted artifact: header, context trait and plumbing,
/// internal sum types, internal term constructors.
pub open spec fn s_codegen(
    te: TypeEnv,
    tme: TermEnv,
    terms: Seq<(u32, RuleSet)>,
    exclude_pragmas: bool,
) -> Seq<char> {
    s_ctors(
        te,
        tme,
        terms,
        0,
        s_internal_types(te, 0, s_ctx_trait(te, tme, s_header(te, exclude_pragmas, Seq::<char>::empty()))),
    )
}

impl<'a> Codegen<'a> {
    /// Append the internal constructor function for one compiled term.
    fn generate_term_ctor(&self, code: &mut String, termid: u32, rs: &RuleSet)
        requires
            self.envs_wf(),
            termid < self.termenv.terms@.len(),
            self.termenv.terms@[termid as int].constructor is Some,
            self.termenv.terms@[termid as int].constructor->0.ret_tys@.len() == 1,
            crate::trie::ruleset_wf(*self.typeenv, *self.termenv, *rs),
            block_valid(self.termenv.terms@[termid as int].constructor->0.ret_kind, rs.root),
        ensures
            final(code)@ == s_term_ctor(*self.typeenv, *self.termenv, termid, *rs, old(code)@),
    {
        let termdata = &self.termenv.terms[termid as usize];
        let sig = match &termdata.constructor {
            Some(s) => s,
            None => {
                proof {
                    assert(false);
                }
                unreached()
            },
        };
        let mut ctx = BodyContext::new();
        ctx.out.append("\n");
        ctx.push_indent();
        ctx.out.append("// Generated as internal constructor for term ");
        ctx.out.append(self.typeenv.syms[termdata.name as usize].as_str());
        ctx.out.append(".\n");
        ctx.push_indent();
        ctx.out.append("pub fn ");
        ctx.out.append(sig.func_name.as_str());
        ctx.out.append("<C: Context>(\n");
        ctx.push_indent();
        ctx.out.append("    ctx: &mut C,\n");
        let ghost te_s = *self.typeenv;
        let ghost tme_s = *self.termenv;
        let ghost termdata_s = tme_s.terms@[termid as int];
        let ghost sig_s = termdata_s.constructor->0;
        let ghost e0_s = Emit {
            text: Seq::<char>::empty(),
            st: EmitState { indent: 0, is_ref: Seq::<u32>::empty(), is_bound: Seq::<u32>::empty() },
        };
        let ghost e1_s = Emit {
            text: e0_s.text + "\n"@ + ind(e0_s.st.indent)
                + "// Generated as internal constructor for term "@ + sym_text(
                te_s,
                termdata_s.name,
            ) + ".\n"@ + ind(e0_s.st.indent) + "pub fn "@ + sig_s.func_name@ + "<C: Context>(\n"@
                + ind(e0_s.st.indent) + "    ctx: &mut C,\n"@,
            st: e0_s.st,
        };
        proof {
            assert(ctx.emit() =~= e1_s);
        }
        let ghost e1 = ctx.emit();
        let mut i: usize = 0;
        while i < sig.param_tys.len()
            invariant
                self.envs_wf(),
                sig == &self.termenv.terms@[termid as int].constructor->0,
                sig_wf(*self.typeenv, *sig),
                crate::trie::ruleset_wf(*self.typeenv, *self.termenv, *rs),
                ctx.wf(),
                i <= sig.param_tys@.len(),
                s_ctor_params(*self.typeenv, *rs, *sig, i as int, ctx.emit()) == s_ctor_params(
                    *self.typeenv,
                    *rs,
                    *sig,
                    0,
                    e1,
                ),
            decreases sig.param_tys@.len() - i,
        {
            ctx.push_indent();
            ctx.out.append("    arg");
            push_dec(&mut ctx.out, i as u32);
            ctx.out.append(": ");
            let (is_ref, sym) = self.ty(sig.param_tys[i]);
            if is_ref {
                ctx.out.append("&");
            }
            ctx.out.append(self.typeenv.syms[sym as usize].as_str());
            if let Some(binding) = rs.find_binding_argument(i as u32) {
                ctx.set_ref(binding, is_ref);
            }
            ctx.out.append(",\n");
            i += 1;
        }
        let (_, rsym) = self.ty(sig.ret_tys[0]);
        let multi = match sig.ret_kind {
            ReturnKind::Multi => true,
            _ => false,
        };
        if multi {
            ctx.push_indent();
            ctx.out.append("    returns: &mut (impl Extend<");
            ctx.out.append(self.typeenv.syms[rsym as usize].as_str());
            ctx.out.append("> + Length),\n");
        }
        ctx.push_indent();
        ctx.out.append(") -> ");
        match sig.ret_kind {
            ReturnKind::Multi => {
                ctx.out.append("()");
            },
            ReturnKind::Optional => {
                ctx.out.append("Option<");
                ctx.out.append(self.typeenv.syms[rsym as usize].as_str());
                ctx.out.append(">");
            },
            ReturnKind::Plain => {
                ctx.out.append(self.typeenv.syms[rsym as usize].as_str());
            },
        }
        let ghost e2_s = s_ctor_params(te_s, *rs, sig_s, 0, e1_s);
        let ghost rsym_s = s_ty(te_s, sig_s.ret_tys@[0]).1;
        let ghost e3_s = if sig_s.ret_kind is Multi {
            Emit {
                text: e2_s.text + ind(e2_s.st.indent) + "    returns: &mut (impl Extend<"@
                    + sym_text(te_s, rsym_s) + "> + Length),\n"@,
                st: e2_s.st,
            }
        } else {
            e2_s
        };
        let ghost e4_s = Emit {
            text: e3_s.text + ind(e3_s.st.indent) + ") -> "@ + (match sig_s.ret_kind {
                ReturnKind::Multi => "()"@,
                ReturnKind::Optional => "Option<"@ + sym_text(te_s, rsym_s) + ">"@,
                ReturnKind::Plain => sym_text(te_s, rsym_s),
            }),
            st: e3_s.st,
        };
        proof {
            assert(ctx.emit() =~= e4_s);
        }
        let ghost e4 = ctx.emit();
        let mut ends_with_return = false;
        if rs.root.steps.len() > 0 {
            ends_with_return = match &rs.root.steps[rs.root.steps.len() - 1].check {
                ControlFlow::Return { .. } => true,
                _ => false,
            };
        }
        let mut last = String::new();
        if !ends_with_return {
            match sig.ret_kind {
                ReturnKind::Multi => {},
                ReturnKind::Optional => {
                    last.append("None");
                },
                ReturnKind::Plain => {
                    last.append(
                        "unreachable!(\"no rule matched for term {} at {}; should it be partial?\", \"",
                    );
                    last.append(self.typeenv.syms[termdata.name as usize].as_str());
                    last.append("\", \"");
                    let p = termdata.decl_pos.pretty_print_line(self.typeenv);
                    last.append(p.as_str());
                    last.append("\")");
                },
            }
        }
        proof {
            reveal_strlit("");
            assert(last@ =~= s_last_expr(*self.typeenv, *self.termenv, termid, *rs));
        }
        let scope = ctx.enter_scope();
        self.emit_block(rs, &mut ctx, &rs.root, sig.ret_kind, last.as_str(), scope);
        proof {
            let e5_s = s_nested(
                te_s,
                tme_s,
                *rs,
                sig_s.ret_kind,
                rs.root,
                s_last_expr(te_s, tme_s, termid, *rs),
                e4_s.st.is_bound,
                e4_s,
            );
            assert(ctx.emit() == e5_s);
        }
        code.append(ctx.out.as_str());
        proof {
            assert(code@ =~= s_term_ctor(*self.typeenv, *self.termenv, termid, *rs, old(code)@));
        }
    }

    /// Append one constructor function per compiled term.
    pub fn generate_internal_term_constructors(&self, code: &mut String)
        requires
            self.envs_wf(),
            terms_wf(*self.typeenv, *self.termenv, self.terms@),
        ensures
            final(code)@ == s_ctors(*self.typeenv, *self.termenv, self.terms@, 0, old(code)@),
    {
        let mut k: usize = 0;
        while k < self.terms.len()
            invariant
                self.envs_wf(),
                terms_wf(*self.typeenv, *self.termenv, self.terms@),
                k <= self.terms@.len(),
                s_ctors(*self.typeenv, *self.termenv, self.terms@, k as int, code@) == s_ctors(
                    *self.typeenv,
                    *self.termenv,
                    self.terms@,
                    0,
                    old(code)@,
                ),
            decreases self.terms@.len() - k,
        {
            let entry = &self.terms[k];
            self.generate_term_ctor(code, entry.0, &entry.1);
            k += 1;
        }
    }

    /// Gather the environments and rule sets to compile.
    pub fn compile(
        typeenv: &'a TypeEnv,
        termenv: &'a TermEnv,
        terms: &'a [(u32, RuleSet)],
    ) -> (r: Codegen<'a>)
        ensures
            r.typeenv == typeenv,
            r.termenv == termenv,
            r.terms == terms,
    {
        Codegen { typeenv, termenv, terms }
    }

    /// Produce the complete Rust source artifact.
    pub fn generate_rust(&self, options: &CodegenOptions) -> (r: String)
        requires
            self.envs_wf(),
            terms_wf(*self.typeenv, *self.termenv, self.terms@),
        ensures
            r@ == s_codegen(
                *self.typeenv,
                *self.termenv,
                self.terms@,
                options.exclude_global_allow_pragmas,
            ),
    {
        let mut code = String::new();
        proof {
            assert(code@ =~= Seq::<char>::empty());
        }
        self.generate_header(&mut code, options);
        self.generate_ctx_trait(&mut code);
        self.generate_internal_types(&mut code);
        self.generate_internal_term_constructors(&mut code);
        code
    }
}

/// Law: the emitter is deterministic. Structurally identical inputs give
/// byte-identical output, because the output is a pure function
/// (`s_codegen`) of the environments, the rule sets, and the options.
pub proof fn lemma_codegen_deterministic(
    te1: TypeEnv,
    tme1: TermEnv,
    terms1: Seq<(u32, RuleSet)>,
    x1: bool,
    te2: TypeEnv,
    tme2: TermEnv,
    terms2: Seq<(u32, RuleSet)>,
    x2: bool,
)
    requires
        te1 == te2,
        tme1 == tme2,
        terms1 == terms2,
        x1 == x2,
    ensures
        s_codegen(te1, tme1, terms1, x1) == s_codegen(te2, tme2, terms2, x2),
{
}

/// Law: negative integer constants whose type name starts with `i` are
/// emitted as `-0x<magnitude>`, never as a two's-complement bit pattern;
/// all other constants are emitted as `0x<bits>`.
pub proof fn lemma_int_text_signed_negative(te: TypeEnv, val: i128, ty: u32)
    ensures
        (val < 0 && sym_text(te, type_name_sym(te, ty))[0] == 'i') ==> s_int_text(te, val, ty)
            == "-0x"@ + hex_text((-(val as int)) as nat),
        !(val < 0 && sym_text(te, type_name_sym(te, ty))[0] == 'i') ==> s_int_text(te, val, ty)
            == "0x"@ + hex_text(i128_bits(val)),
{
}

/// Law: a stream-returning constructor body caps its yields. Every
/// `Return` step emitted under the `Multi` return kind first extends
/// `returns` and then short-circuits as soon as `returns.len()` reaches
/// the global cap: its text always ends with the guard line.
pub proof fn lemma_multi_return_capped(
    te: TypeEnv,
    tme: TermEnv,
    rs: RuleSet,
    step: EvalStep,
    e: Emit,
)
    requires
        bindings_wf(te, tme, rs),
        step_wf(te, rs, step),
        step.check is Return,
    ensures
        exists|p: Seq<char>|
            s_step(te, tme, rs, ReturnKind::Multi, step, e).text == p
                + "if returns.len() >= MAX_ISLE_RETURNS { return; }\n"@,
{
    let e0 = s_binds(te, tme, rs, step.bind_order@, 0, e);
    match step.check {
        ControlFlow::Return { pos, result } => {
            let e1 = Emit {
                text: e0.text + ind(e0.st.indent) + "// Rule at "@ + pos_text(te, pos) + ".\n"@
                    + ind(e0.st.indent) + "returns.extend(Some("@,
                st: e0.st,
            };
            let e2 = s_emit_expr(te, tme, rs, result, e1);
            let e3 = if e2.st.is_ref.contains(result) {
                Emit { text: e2.text + ".clone()"@, st: e2.st }
            } else {
                e2
            };
            let p = e3.text + "));\n"@ + ind(e3.st.indent);
            assert(s_step(te, tme, rs, ReturnKind::Multi, step, e).text == p
                + "if returns.len() >= MAX_ISLE_RETURNS { return; }\n"@);
        },
        _ => {
            assert(false);
        },
    }
}

/// Law: when a plain-returning constructor's outermost block does not end
/// with a `Return` step, the emitted body's last line before the closing
/// brace is an `unreachable!` carrying the term name and its declaration
/// position.
pub proof fn lemma_plain_fallback_unreachable(te: TypeEnv, tme: TermEnv, termid: u32, rs: RuleSet)
    requires
        crate::trie::ruleset_wf(te, tme, rs),
        termid < tme.terms@.len(),
        tme.terms@[termid as int].constructor is Some,
        tme.terms@[termid as int].constructor->0.ret_kind is Plain,
        !(rs.root.steps@.len() > 0 && rs.root.steps@.last().check is Return),
    ensures
        exists|p: Seq<char>, d: nat|
            s_term_ctor(te, tme, termid, rs, Seq::<char>::empty()) == p + (
            "unreachable!(\"no rule matched for term {} at {}; should it be partial?\", \""@
                + sym_text(te, tme.terms@[termid as int].name) + "\", \""@ + pos_text(
                te,
                tme.terms@[termid as int].decl_pos,
            ) + "\")"@) + "\n"@ + ind(d) + "}"@ + "\n"@,
{
    let termdata = tme.terms@[termid as int];
    let sig = termdata.constructor->0;
    let last = s_last_expr(te, tme, termid, rs);
    reveal_strlit("unreachable!(\"no rule matched for term {} at {}; should it be partial?\", \"");
    assert(last.len() > 0);
    let e0 = Emit {
        text: Seq::<char>::empty(),
        st: EmitState { indent: 0, is_ref: Seq::<u32>::empty(), is_bound: Seq::<u32>::empty() },
    };
    let e1 = Emit {
        text: e0.text + "\n"@ + ind(e0.st.indent)
            + "// Generated as internal constructor for term "@ + sym_text(te, termdata.name)
            + ".\n"@ + ind(e0.st.indent) + "pub fn "@ + sig.func_name@ + "<C: Context>(\n"@ + ind(
            e0.st.indent,
        ) + "    ctx: &mut C,\n"@,
        st: e0.st,
    };
    let e2 = s_ctor_params(te, rs, sig, 0, e1);
    let rsym = s_ty(te, sig.ret_tys@[0]).1;
    let e3 = if sig.ret_kind is Multi {
        Emit {
            text: e2.text + ind(e2.st.indent) + "    returns: &mut (impl Extend<"@ + sym_text(
                te,
                rsym,
            ) + "> + Length),\n"@,
            st: e2.st,
        }
    } else {
        e2
    };
    let e4 = Emit {
        text: e3.text + ind(e3.st.indent) + ") -> "@ + (match sig.ret_kind {
            ReturnKind::Multi => "()"@,
            ReturnKind::Optional => "Option<"@ + sym_text(te, rsym) + ">"@,
            ReturnKind::Plain => sym_text(te, rsym),
        }),
        st: e3.st,
    };
    let eb = s_steps(te, tme, rs, sig.ret_kind, rs.root, 0, s_begin(e4));
    let d = if eb.st.indent > 0 {
        (eb.st.indent - 1) as nat
    } else {
        0
    };
    let p = eb.text + ind(eb.st.indent);
    assert(s_term_ctor(te, tme, termid, rs, Seq::<char>::empty()) =~= p + last + "\n"@ + ind(d)
        + "}"@ + "\n"@);
}

/// Law: by-reference/by-value adaptation at a call site is exact. A
/// `.clone()` is appended exactly when a by-reference binding feeds a
/// by-value parameter, a `&` is prepended exactly when a by-value binding
/// feeds a by-reference parameter, and the two adaptations are never
/// combined — so the adapted argument always has exactly the parameter's
/// passing mode.
pub proof fn lemma_call_arg_adaptation(
    te: TypeEnv,
    tme: TermEnv,
    rs: RuleSet,
    b: u32,
    sig: ExternalSig,
    params: Seq<u32>,
    k: int,
    e: Emit,
)
    requires
        bindings_wf(te, tme, rs),
        b < rs.bindings@.len(),
        forall|j: int| 0 <= j < params.len() ==> params[j] < b,
        0 <= k < params.len(),
    ensures
        ({
            let pref = s_ty(te, sig.param_tys@[k]).0;
            let aref = e.st.is_ref.contains(params[k]);
            let pre: Seq<char> = if pref && !aref {
                "&"@
            } else {
                Seq::<char>::empty()
            };
            let suf: Seq<char> = if !pref && aref {
                ".clone()"@
            } else {
                Seq::<char>::empty()
            };
            let arg = s_emit_expr(te, tme, rs, params[k], Emit { text: e.text + ", "@ + pre, st: e.st });
            &&& !((pref && !aref) && (!pref && aref))
            &&& s_call_args(te, tme, rs, b, sig, params, k, e) == s_call_args(
                te,
                tme,
                rs,
                b,
                sig,
                params,
                k + 1,
                Emit { text: arg.text + suf, st: arg.st },
            )
        }),
{
    let pref = s_ty(te, sig.param_tys@[k]).0;
    let aref = e.st.is_ref.contains(params[k]);
    let e1 = Emit { text: e.text + ", "@, st: e.st };
    if pref && !aref {
        let e2 = Emit { text: e1.text + "&"@, st: e1.st };
        let e3 = s_emit_expr(te, tme, rs, params[k], e2);
        assert(s_call_args(te, tme, rs, b, sig, params, k, e) == s_call_args(
            te,
            tme,
            rs,
            b,
            sig,
            params,
            k + 1,
            e3,
        ));
        assert(e3 =~= (Emit { text: e3.text + Seq::<char>::empty(), st: e3.st }));
    } else {
        let e3 = s_emit_expr(te, tme, rs, params[k], e1);
        assert(e1 =~= (Emit { text: e.text + ", "@ + Seq::<char>::empty(), st: e.st }));
        if !pref && aref {
        } else {
            assert(e3 =~= (Emit { text: e3.text + Seq::<char>::empty(), st: e3.st }));
        }
    }
}

/// Emit Rust source code for the given type and term environments: the
/// result is a pure function of the inputs (`s_codegen`), so the output is
/// byte-identical for structurally identical inputs.
pub fn codegen(
    typeenv: &TypeEnv,
    termenv: &TermEnv,
    terms: &[(u32, RuleSet)],
    options: &CodegenOptions,
) -> (r: String)
    requires
        tyenv_wf(*typeenv),
        termenv_wf(*typeenv, *termenv),
        terms_wf(*typeenv, *termenv, terms@),
    ensures
        r@ == s_codegen(*typeenv, *termenv, terms@, options.exclude_global_allow_pragmas),
{
    Codegen::compile(typeenv, termenv, terms).generate_rust(options)
}

} // verus!
