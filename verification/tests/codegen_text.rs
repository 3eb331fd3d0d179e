//! Tests for the rule-trie code emitter: integer constant rendering,
//! match shorthand, the multi-return cap, fallbacks, and determinism.

use islegen::codegen::BodyContext;
use islegen::codegen::Codegen;
use islegen::codegen::CodegenOptions;
use islegen::codegen::codegen;
use islegen::sema::ExternalSig;
use islegen::sema::Pos;
use islegen::sema::ReturnKind;
use islegen::sema::Term;
use islegen::sema::TermEnv;
use islegen::sema::Type;
use islegen::sema::TypeEnv;
use islegen::sema::Variant;
use islegen::trie::Binding;
use islegen::trie::Block;
use islegen::trie::Constraint;
use islegen::trie::ControlFlow;
use islegen::trie::EvalStep;
use islegen::trie::MatchArm;
use islegen::trie::RuleSet;
use islegen::trie::validate_block;

fn pos0() -> Pos {
    Pos { file: 0, line: 1 }
}

/// syms: 0 "u32", 1 "E", 2 "A", 3 "B", 4 term name; types: 0 prim u32,
/// 1 enum E { A, B }.
fn small_tyenv(term_sym: &str) -> TypeEnv {
    TypeEnv {
        syms: vec![
            String::from("u32"),
            String::from("E"),
            String::from("A"),
            String::from("B"),
            String::from(term_sym),
        ],
        types: vec![
            Type::Primitive { name: 0 },
            Type::Enum {
                name: 1,
                is_extern: false,
                is_nodebug: false,
                variants: vec![
                    Variant { name: 2, fields: vec![] },
                    Variant { name: 3, fields: vec![] },
                ],
                pos: pos0(),
            },
        ],
        filenames: vec![String::from("rules.isle")],
    }
}

fn plain_sig(func_name: &str, param_ty: u32, ret_ty: u32, kind: ReturnKind) -> ExternalSig {
    ExternalSig {
        func_name: String::from(func_name),
        full_name: String::from(func_name),
        param_tys: vec![param_ty],
        ret_tys: vec![ret_ty],
        ret_kind: kind,
    }
}

fn one_term_env(sig: ExternalSig) -> TermEnv {
    TermEnv {
        terms: vec![Term {
            name: 4,
            decl_pos: pos0(),
            has_ext_extractor: false,
            has_ext_constructor: false,
            extractor: None,
            constructor: Some(sig),
        }],
    }
}

fn match_ruleset(n_arms: usize) -> RuleSet {
    let mut arms = Vec::new();
    for v in 0..n_arms {
        arms.push(MatchArm {
            constraint: Constraint::Variant { ty: 1, variant: v as u32 },
            bindings: vec![],
            body: Block {
                steps: vec![EvalStep {
                    bind_order: vec![],
                    check: ControlFlow::Return { pos: pos0(), result: 0 },
                }],
            },
        });
    }
    RuleSet {
        bindings: vec![Binding::Argument { index: 0 }],
        root: Block {
            steps: vec![EvalStep {
                bind_order: vec![],
                check: ControlFlow::Match { source: 0, arms },
            }],
        },
    }
}

#[test]
fn emit_int_negative_signed() {
    let tme = TermEnv { terms: vec![] };
    let te = TypeEnv {
        syms: vec![String::from("i32")],
        types: vec![Type::Primitive { name: 0 }],
        filenames: vec![],
    };
    let terms: Vec<(u32, RuleSet)> = vec![];
    let cg = Codegen::compile(&te, &tme, &terms[..]);
    let mut ctx = BodyContext::new();
    cg.emit_int(&mut ctx, -1, 0);
    assert_eq!(ctx.out, "-0x1");
}

#[test]
fn emit_int_positive_unsigned() {
    let te = TypeEnv {
        syms: vec![String::from("u32")],
        types: vec![Type::Primitive { name: 0 }],
        filenames: vec![],
    };
    let tme = TermEnv { terms: vec![] };
    let terms: Vec<(u32, RuleSet)> = vec![];
    let cg = Codegen::compile(&te, &tme, &terms[..]);
    let mut ctx = BodyContext::new();
    cg.emit_int(&mut ctx, 255, 0);
    assert_eq!(ctx.out, "0xFF");
}

#[test]
fn emit_int_negative_unsigned_prints_bits() {
    // A negative constant of a type whose name does not start with `i`
    // prints the raw two's-complement bit pattern.
    let te = TypeEnv {
        syms: vec![String::from("u32")],
        types: vec![Type::Primitive { name: 0 }],
        filenames: vec![],
    };
    let tme = TermEnv { terms: vec![] };
    let terms: Vec<(u32, RuleSet)> = vec![];
    let cg = Codegen::compile(&te, &tme, &terms[..]);
    let mut ctx = BodyContext::new();
    cg.emit_int(&mut ctx, -1, 0);
    assert_eq!(ctx.out, format!("0x{}", "F".repeat(32)));
}

#[test]
fn emit_int_min_i128() {
    let te = TypeEnv {
        syms: vec![String::from("i128")],
        types: vec![Type::Primitive { name: 0 }],
        filenames: vec![],
    };
    let tme = TermEnv { terms: vec![] };
    let terms: Vec<(u32, RuleSet)> = vec![];
    let cg = Codegen::compile(&te, &tme, &terms[..]);
    let mut ctx = BodyContext::new();
    cg.emit_int(&mut ctx, i128::MIN, 0);
    assert_eq!(ctx.out, format!("-0x8{}", "0".repeat(31)));
}

#[test]
fn single_variant_arm_emits_if_let() {
    let te = small_tyenv("m1");
    let tme = one_term_env(plain_sig("constructor_m1", 1, 0, ReturnKind::Plain));
    let terms = vec![(0u32, match_ruleset(1))];
    let out = codegen(&te, &tme, &terms[..], &CodegenOptions::default());
    assert!(out.contains("if let &E::A = arg0"));
    assert!(!out.contains("match arg0"));
}

#[test]
fn two_arms_emit_match_with_catchall() {
    let te = small_tyenv("m2");
    let tme = one_term_env(plain_sig("constructor_m2", 1, 0, ReturnKind::Plain));
    let terms = vec![(0u32, match_ruleset(2))];
    let out = codegen(&te, &tme, &terms[..], &CodegenOptions::default());
    assert!(out.contains("match arg0"));
    assert!(out.contains("&E::A =>"));
    assert!(out.contains("&E::B =>"));
    assert!(out.contains("_ => {}"));
}

#[test]
fn plain_fallback_is_unreachable_with_name_and_pos() {
    let te = small_tyenv("m1");
    let tme = one_term_env(plain_sig("constructor_m1", 1, 0, ReturnKind::Plain));
    let terms = vec![(0u32, match_ruleset(1))];
    let out = codegen(&te, &tme, &terms[..], &CodegenOptions::default());
    assert!(out.contains(
        "unreachable!(\"no rule matched for term {} at {}; should it be partial?\", \"m1\", \"rules.isle line 1\")"
    ));
}

#[test]
fn optional_fallback_is_none() {
    let te = small_tyenv("m1");
    let tme = one_term_env(plain_sig("constructor_m1", 1, 0, ReturnKind::Optional));
    let terms = vec![(0u32, match_ruleset(1))];
    let out = codegen(&te, &tme, &terms[..], &CodegenOptions::default());
    assert!(out.contains("    None\n}"));
    assert!(out.contains("-> Option<u32>"));
}

#[test]
fn multi_return_extends_and_caps_twice() {
    let te = small_tyenv("mm");
    let tme = one_term_env(plain_sig("constructor_mm", 0, 0, ReturnKind::Multi));
    let rs = RuleSet {
        bindings: vec![Binding::Argument { index: 0 }],
        root: Block {
            steps: vec![
                EvalStep {
                    bind_order: vec![],
                    check: ControlFlow::Return { pos: pos0(), result: 0 },
                },
                EvalStep {
                    bind_order: vec![],
                    check: ControlFlow::Return { pos: pos0(), result: 0 },
                },
            ],
        },
    };
    let terms = vec![(0u32, rs)];
    let out = codegen(&te, &tme, &terms[..], &CodegenOptions::default());
    assert_eq!(out.matches("returns.extend(Some(arg0));").count(), 2);
    assert_eq!(
        out.matches("if returns.len() >= MAX_ISLE_RETURNS { return; }").count(),
        2
    );
    assert!(out.contains("returns: &mut (impl Extend<u32> + Length),"));
}

#[test]
fn header_banner_and_pragmas() {
    let te = small_tyenv("m1");
    let tme = one_term_env(plain_sig("constructor_m1", 1, 0, ReturnKind::Plain));
    let terms = vec![(0u32, match_ruleset(1))];
    let with = codegen(&te, &tme, &terms[..], &CodegenOptions::default());
    assert!(with.starts_with("// GENERATED BY ISLE. DO NOT EDIT!\n"));
    assert!(with.contains("// - rules.isle\n"));
    assert!(with.contains("#![allow(dead_code, unreachable_code, unreachable_patterns)]"));
    let terms2 = vec![(0u32, match_ruleset(1))];
    let without = codegen(
        &te,
        &tme,
        &terms2[..],
        &CodegenOptions { exclude_global_allow_pragmas: true },
    );
    assert!(!without.contains("#![allow("));
}

#[test]
fn internal_enum_declaration() {
    let te = small_tyenv("m1");
    let tme = one_term_env(plain_sig("constructor_m1", 1, 0, ReturnKind::Plain));
    let terms = vec![(0u32, match_ruleset(1))];
    let out = codegen(&te, &tme, &terms[..], &CodegenOptions::default());
    assert!(out.contains("/// Internal type E: defined at rules.isle line 1."));
    assert!(out.contains("#[derive(Copy, Clone, PartialEq, Eq, Debug)]"));
    assert!(out.contains("pub enum E {\n    A,\n    B,\n}\n"));
}

#[test]
fn context_trait_lists_external_signatures() {
    let te = small_tyenv("m1");
    let mut tme = one_term_env(plain_sig("constructor_m1", 1, 0, ReturnKind::Plain));
    tme.terms[0].has_ext_extractor = true;
    tme.terms[0].extractor = Some(ExternalSig {
        func_name: String::from("ext_m1"),
        full_name: String::from("C::ext_m1"),
        param_tys: vec![0],
        ret_tys: vec![1],
        ret_kind: ReturnKind::Optional,
    });
    let terms = vec![(0u32, match_ruleset(1))];
    let out = codegen(&te, &tme, &terms[..], &CodegenOptions::default());
    assert!(out.contains("pub trait Context {"));
    assert!(out.contains("    fn ext_m1(&mut self, arg0: u32) -> Option<E>;\n"));
    assert!(out.contains("pub trait ContextIter {"));
    assert!(out.contains("pub struct ContextIterWrapper<I, C> {"));
}

#[test]
fn iterator_signature_gets_associated_type() {
    let te = small_tyenv("m1");
    let mut tme = one_term_env(plain_sig("constructor_m1", 1, 0, ReturnKind::Plain));
    tme.terms[0].has_ext_constructor = true;
    tme.terms[0].constructor = Some(ExternalSig {
        func_name: String::from("mk_m1"),
        full_name: String::from("C::mk_m1"),
        param_tys: vec![0, 0],
        ret_tys: vec![0],
        ret_kind: ReturnKind::Multi,
    });
    let terms: Vec<(u32, RuleSet)> = vec![];
    let out = codegen(&te, &tme, &terms[..], &CodegenOptions::default());
    assert!(out.contains(
        "    type mk_m1_returns: Default + IntoContextIter<Context = Self, Output = u32>;\n"
    ));
    assert!(out.contains(
        "    fn mk_m1(&mut self, arg0: u32, arg1: u32, returns: &mut Self::mk_m1_returns) -> ();\n"
    ));
}

#[test]
fn output_is_deterministic() {
    let te1 = small_tyenv("m2");
    let tme1 = one_term_env(plain_sig("constructor_m2", 1, 0, ReturnKind::Plain));
    let terms1 = vec![(0u32, match_ruleset(2))];
    let out1 = codegen(&te1, &tme1, &terms1[..], &CodegenOptions::default());
    let te2 = small_tyenv("m2");
    let tme2 = one_term_env(plain_sig("constructor_m2", 1, 0, ReturnKind::Plain));
    let terms2 = vec![(0u32, match_ruleset(2))];
    let out2 = codegen(&te2, &tme2, &terms2[..], &CodegenOptions::default());
    assert_eq!(out1, out2);
}

#[test]
fn iterator_binding_and_loop_emission() {
    // syms: 0 "u32", 1 term name, 2 extractor method name
    let te = TypeEnv {
        syms: vec![String::from("u32"), String::from("t"), String::from("ex")],
        types: vec![Type::Primitive { name: 0 }],
        filenames: vec![String::from("rules.isle")],
    };
    let tme = TermEnv {
        terms: vec![
            Term {
                name: 1,
                decl_pos: pos0(),
                has_ext_extractor: false,
                has_ext_constructor: false,
                extractor: None,
                constructor: Some(plain_sig("constructor_t", 0, 0, ReturnKind::Multi)),
            },
            Term {
                name: 2,
                decl_pos: pos0(),
                has_ext_extractor: true,
                has_ext_constructor: false,
                extractor: Some(ExternalSig {
                    func_name: String::from("ex"),
                    full_name: String::from("C::ex"),
                    param_tys: vec![0],
                    ret_tys: vec![0],
                    ret_kind: ReturnKind::Multi,
                }),
                constructor: None,
            },
        ],
    };
    let rs = RuleSet {
        bindings: vec![
            Binding::Argument { index: 0 },
            Binding::Extractor { term: 1, parameter: 0 },
            Binding::IterElem { source: 1 },
        ],
        root: Block {
            steps: vec![EvalStep {
                bind_order: vec![1],
                check: ControlFlow::Loop {
                    result: 2,
                    body: Block {
                        steps: vec![EvalStep {
                            bind_order: vec![],
                            check: ControlFlow::Return { pos: pos0(), result: 2 },
                        }],
                    },
                },
            }],
        },
    };
    let terms = vec![(0u32, rs)];
    let out = codegen(&te, &tme, &terms[..], &CodegenOptions::default());
    assert!(out.contains("let mut v1 = C::ex_returns::default();"));
    assert!(out.contains("C::ex(ctx, arg0, &mut v1);"));
    assert!(out.contains("let mut v1 = v1.into_context_iter();"));
    assert!(out.contains("while let Some(v2) = v1.next(ctx) {"));
    assert!(out.contains("returns.extend(Some(v2));"));
}

#[test]
fn variant_pattern_fields_ref_and_elision() {
    // syms: 0 "u32", 1 "E", 2 "V", 3 "x", 4 "y", 5 term name
    let te = TypeEnv {
        syms: vec![
            String::from("u32"),
            String::from("E"),
            String::from("V"),
            String::from("x"),
            String::from("y"),
            String::from("m4"),
        ],
        types: vec![
            Type::Primitive { name: 0 },
            Type::Enum {
                name: 1,
                is_extern: false,
                is_nodebug: false,
                variants: vec![Variant {
                    name: 2,
                    fields: vec![
                        islegen::sema::Field { name: 3, ty: 0 },
                        islegen::sema::Field { name: 4, ty: 1 },
                    ],
                }],
                pos: pos0(),
            },
        ],
        filenames: vec![String::from("rules.isle")],
    };
    let tme = TermEnv {
        terms: vec![Term {
            name: 5,
            decl_pos: pos0(),
            has_ext_extractor: false,
            has_ext_constructor: false,
            extractor: None,
            constructor: Some(plain_sig("constructor_m4", 1, 1, ReturnKind::Optional)),
        }],
    };
    let rs = RuleSet {
        bindings: vec![Binding::Argument { index: 0 }],
        root: Block {
            steps: vec![EvalStep {
                bind_order: vec![],
                check: ControlFlow::Match {
                    source: 0,
                    arms: vec![MatchArm {
                        constraint: Constraint::Variant { ty: 1, variant: 0 },
                        bindings: vec![None, Some(1)],
                        body: Block {
                            steps: vec![EvalStep {
                                bind_order: vec![],
                                check: ControlFlow::Return { pos: pos0(), result: 1 },
                            }],
                        },
                    }],
                },
            }],
        },
    };
    let terms = vec![(0u32, rs)];
    let out = codegen(&te, &tme, &terms[..], &CodegenOptions::default());
    assert!(out.contains("if let &E::V {"));
    assert!(out.contains("y: ref v1,"));
    assert!(!out.contains("x: v"));
    assert!(out.contains(".."));
    // the by-reference binding is cloned when returned by value
    assert!(out.contains("return v1.clone();"));
}

#[test]
fn const_int_constraint_and_make_some() {
    let te = TypeEnv {
        syms: vec![String::from("u32"), String::from("m5")],
        types: vec![Type::Primitive { name: 0 }],
        filenames: vec![String::from("rules.isle")],
    };
    let tme = TermEnv {
        terms: vec![Term {
            name: 1,
            decl_pos: pos0(),
            has_ext_extractor: false,
            has_ext_constructor: false,
            extractor: None,
            constructor: Some(plain_sig("constructor_m5", 0, 0, ReturnKind::Optional)),
        }],
    };
    let rs = RuleSet {
        bindings: vec![
            Binding::Argument { index: 0 },
            Binding::MakeSome { inner: 0 },
        ],
        root: Block {
            steps: vec![EvalStep {
                bind_order: vec![],
                check: ControlFlow::Match {
                    source: 0,
                    arms: vec![MatchArm {
                        constraint: Constraint::ConstInt { val: 42, ty: 0 },
                        bindings: vec![],
                        body: Block {
                            steps: vec![EvalStep {
                                bind_order: vec![],
                                check: ControlFlow::Return { pos: pos0(), result: 1 },
                            }],
                        },
                    }],
                },
            }],
        },
    };
    let terms = vec![(0u32, rs)];
    let out = codegen(&te, &tme, &terms[..], &CodegenOptions::default());
    assert!(out.contains("if arg0 == 0x2A {"));
    assert!(out.contains("return Some(arg0);"));
}

#[test]
fn validate_block_enforces_return_rules() {
    let ret_step = || EvalStep {
        bind_order: vec![],
        check: ControlFlow::Return { pos: pos0(), result: 0 },
    };
    // A Return that is not last is invalid unless the return kind is Multi.
    let two_returns = Block { steps: vec![ret_step(), ret_step()] };
    assert!(!validate_block(ReturnKind::Plain, &two_returns));
    assert!(!validate_block(ReturnKind::Optional, &two_returns));
    let two_returns2 = Block { steps: vec![ret_step(), ret_step()] };
    assert!(validate_block(ReturnKind::Multi, &two_returns2));
    // A Loop is only allowed under Multi.
    let with_loop = Block {
        steps: vec![EvalStep {
            bind_order: vec![],
            check: ControlFlow::Loop { result: 0, body: Block { steps: vec![] } },
        }],
    };
    assert!(!validate_block(ReturnKind::Plain, &with_loop));
    assert!(validate_block(ReturnKind::Multi, &with_loop));
    // One trailing Return is fine everywhere.
    let one_return = Block { steps: vec![ret_step()] };
    assert!(validate_block(ReturnKind::Plain, &one_return));
}

#[test]
fn equal_check_and_const_prim() {
    // An Equal step prints `if a == b`, and a ConstPrim constraint prints
    // the symbol text.
    let te = TypeEnv {
        syms: vec![
            String::from("u32"),
            String::from("m3"),
            String::from("TRUE"),
        ],
        types: vec![Type::Primitive { name: 0 }],
        filenames: vec![String::from("rules.isle")],
    };
    let tme = TermEnv {
        terms: vec![Term {
            name: 1,
            decl_pos: pos0(),
            has_ext_extractor: false,
            has_ext_constructor: false,
            extractor: None,
            constructor: Some(ExternalSig {
                func_name: String::from("constructor_m3"),
                full_name: String::from("constructor_m3"),
                param_tys: vec![0, 0],
                ret_tys: vec![0],
                ret_kind: ReturnKind::Optional,
            }),
        }],
    };
    let rs = RuleSet {
        bindings: vec![
            Binding::Argument { index: 0 },
            Binding::Argument { index: 1 },
            Binding::ConstPrim { val: 2 },
        ],
        root: Block {
            steps: vec![EvalStep {
                bind_order: vec![],
                check: ControlFlow::Equal {
                    a: 0,
                    b: 1,
                    body: Block {
                        steps: vec![EvalStep {
                            bind_order: vec![],
                            check: ControlFlow::Return { pos: pos0(), result: 2 },
                        }],
                    },
                },
            }],
        },
    };
    let terms = vec![(0u32, rs)];
    let out = codegen(&te, &tme, &terms[..], &CodegenOptions::default());
    assert!(out.contains("if arg0 == arg1 {"));
    assert!(out.contains("return TRUE;"));
}
