//! Typed-symbol environment for the rule-trie code emitter: interned
//! symbols, type definitions (primitive or sum), and term declarations with
//! their external signatures.
//!
//! The environments are immutable inputs; the emitter only reads them. They
//! are assumed internally consistent (`tyenv_wf`, `termenv_wf`): a dangling
//! index or a missing signature is a bug in whatever produced them.

use vstd::prelude::*;
use vstd::string::StringExecFns;
use crate::text::dec_text;
use crate::text::push_dec;

verus! {

/// A position in the surface-language sources: a file index into
/// `TypeEnv::filenames` and a line number.
#[derive(Clone, Copy, PartialEq, Eq, Structural)]
pub struct Pos {
    pub file: u32,
    pub line: u32,
}

/// How many results a term's code yields: exactly one, zero or one, or a
/// stream collected into a caller-supplied sink.
#[derive(Clone, Copy, PartialEq, Eq, Structural)]
pub enum ReturnKind {
    Plain,
    Optional,
    Multi,
}

/// Signature of an externally supplied (or internal) constructor or
/// extractor.
pub struct ExternalSig {
    /// Method name on the context trait, or the internal function name.
    pub func_name: String,
    /// Name as called from generated code (`C::foo` or `constructor_foo`).
    pub full_name: String,
    pub param_tys: Vec<u32>,
    pub ret_tys: Vec<u32>,
    pub ret_kind: ReturnKind,
}

/// A named field of a sum-type variant.
pub struct Field {
    pub name: u32,
    pub ty: u32,
}

/// A variant of a sum type: field-less or a record with named fields.
pub struct Variant {
    pub name: u32,
    pub fields: Vec<Field>,
}

/// A type in the rule language: a primitive (passed by value) or a sum
/// type (passed by reference in signatures).
pub enum Type {
    Primitive { name: u32 },
    Enum { name: u32, is_extern: bool, is_nodebug: bool, variants: Vec<Variant>, pos: Pos },
}

/// The immutable type environment.
pub struct TypeEnv {
    pub syms: Vec<String>,
    pub types: Vec<Type>,
    pub filenames: Vec<String>,
}

/// A term declaration: its name, where it was declared, and its optional
/// extractor and constructor signatures.
pub struct Term {
    pub name: u32,
    pub decl_pos: Pos,
    pub has_ext_extractor: bool,
    pub has_ext_constructor: bool,
    pub extractor: Option<ExternalSig>,
    pub constructor: Option<ExternalSig>,
}

/// The immutable term environment.
pub struct TermEnv {
    pub terms: Vec<Term>,
}

/// The interned text of symbol `s`.
pub open spec fn sym_text(te: TypeEnv, s: u32) -> Seq<char> {
    te.syms@[s as int]@
}

/// The name symbol of type `t` (primitive symbol or sum-type name).
pub open spec fn type_name_sym(te: TypeEnv, t: u32) -> u32 {
    match te.types@[t as int] {
        Type::Primitive { name } => name,
        Type::Enum { name, .. } => name,
    }
}

pub open spec fn pos_wf(te: TypeEnv, p: Pos) -> bool {
    p.file < te.filenames@.len()
}

pub open spec fn sig_wf(te: TypeEnv, sig: ExternalSig) -> bool {
    &&& sig.param_tys@.len() <= u32::MAX
    &&& forall|i: int| 0 <= i < sig.param_tys@.len() ==> sig.param_tys@[i] < te.types@.len()
    &&& forall|i: int| 0 <= i < sig.ret_tys@.len() ==> sig.ret_tys@[i] < te.types@.len()
}

/// Internal consistency of the type environment: every symbol index is in
/// range, every symbol has text, every field type exists, every recorded
/// position points into `filenames`.
pub open spec fn tyenv_wf(te: TypeEnv) -> bool {
    &&& forall|s: int| 0 <= s < te.syms@.len() ==> (#[trigger] te.syms@[s])@.len() >= 1
    &&& forall|t: int|
        0 <= t < te.types@.len() ==> match #[trigger] te.types@[t] {
            Type::Primitive { name } => name < te.syms@.len(),
            Type::Enum { name, is_extern, is_nodebug, variants, pos } => {
                &&& name < te.syms@.len()
                &&& pos_wf(te, pos)
                &&& forall|v: int|
                    0 <= v < variants@.len() ==> {
                        &&& (#[trigger] variants@[v]).name < te.syms@.len()
                        &&& forall|f: int|
                            0 <= f < variants@[v].fields@.len() ==> {
                                &&& (#[trigger] variants@[v].fields@[f]).name < te.syms@.len()
                                &&& variants@[v].fields@[f].ty < te.types@.len()
                            }
                    }
            },
        }
}

/// Internal consistency of the term environment against `te`.
pub open spec fn termenv_wf(te: TypeEnv, tme: TermEnv) -> bool {
    forall|t: int|
        0 <= t < tme.terms@.len() ==> {
            &&& (#[trigger] tme.terms@[t]).name < te.syms@.len()
            &&& pos_wf(te, tme.terms@[t].decl_pos)
            &&& (tme.terms@[t].has_ext_extractor ==> tme.terms@[t].extractor is Some)
            &&& (tme.terms@[t].has_ext_constructor ==> tme.terms@[t].constructor is Some)
            &&& (tme.terms@[t].extractor is Some ==> sig_wf(te, tme.terms@[t].extractor->0))
            &&& (tme.terms@[t].constructor is Some ==> sig_wf(te, tme.terms@[t].constructor->0))
        }
}

/// Text of `pretty_print_line`: the source file name followed by the line.
pub open spec fn pos_text(te: TypeEnv, p: Pos) -> Seq<char> {
    te.filenames@[p.file as int]@ + " line "@ + dec_text(p.line as nat)
}

impl Pos {
    /// Render this position as `<file> line <n>`.
    pub fn pretty_print_line(&self, te: &TypeEnv) -> (r: String)
        requires
            pos_wf(*te, *self),
        ensures
            r@ == pos_text(*te, *self),
    {
        let mut r = String::new();
        r.append(te.filenames[self.file as usize].as_str());
        r.append(" line ");
        push_dec(&mut r, self.line);
        proof {
            assert(r@ =~= pos_text(*te, *self));
        }
        r
    }
}

} // verus!
