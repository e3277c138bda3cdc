use nana::ast::{ArrayPat, BranchBinding, PatField, Pattern};
use nana::mir::{Mir, MirBranchArm, MirBranchPattern, MirField, MirKind};
use nana::typecheck::{check, check_branch_block_with_input, check_let, TyEnv};
use nana::types::{Ty, TAG_ID_ARRAY, TAG_ID_INT};

fn mir(kind: MirKind) -> Mir {
    Box::new(kind)
}

#[test]
fn literal_types() {
    let mut env = TyEnv::new();
    assert_eq!(
        check(&mir(MirKind::Int(42)), &mut env).unwrap(),
        Ty::IntLiteral
    );
    assert_eq!(
        check(&mir(MirKind::Float("1.0".to_string())), &mut env).unwrap(),
        Ty::FloatLiteral
    );
    assert_eq!(
        check(&mir(MirKind::Bool(true)), &mut env).unwrap(),
        Ty::Bool
    );
    assert_eq!(
        check(&mir(MirKind::Str("hi".into())), &mut env).unwrap(),
        Ty::String
    );
    assert_eq!(check(&mir(MirKind::Char('a')), &mut env).unwrap(), Ty::Char);
    assert_eq!(check(&mir(MirKind::Byte(0)), &mut env).unwrap(), Ty::Byte);
    assert_eq!(check(&mir(MirKind::Unit), &mut env).unwrap(), Ty::Unit);
}

#[test]
fn ident_lookup() {
    let mut env = TyEnv::new();
    env.bind("x".into(), Ty::Int);
    assert_eq!(
        check(&mir(MirKind::Ident("x".into())), &mut env).unwrap(),
        Ty::Int
    );
}

#[test]
fn ident_undefined() {
    let mut env = TyEnv::new();
    assert!(check(&mir(MirKind::Ident("x".into())), &mut env).is_err());
}

#[test]
fn import_module() {
    let mut env = TyEnv::new().with_module("core", Ty::Int);
    assert_eq!(
        check(&mir(MirKind::Import("core".into())), &mut env).unwrap(),
        Ty::Int
    );
}

#[test]
fn field_access() {
    let mut env = TyEnv::new();
    let struct_ty = Ty::Struct(vec![("x".into(), Ty::Int), ("y".into(), Ty::Float)]);
    env.bind("s".into(), struct_ty);
    let expr = mir(MirKind::FieldAccess(
        mir(MirKind::Ident("s".into())),
        "x".into(),
    ));
    assert_eq!(check(&expr, &mut env).unwrap(), Ty::Int);
}

#[test]
fn field_access_missing() {
    let mut env = TyEnv::new();
    let struct_ty = Ty::Struct(vec![("x".into(), Ty::Int)]);
    env.bind("s".into(), struct_ty);
    let expr = mir(MirKind::FieldAccess(
        mir(MirKind::Ident("s".into())),
        "z".into(),
    ));
    assert!(check(&expr, &mut env).is_err());
}

#[test]
fn struct_literal() {
    let mut env = TyEnv::new();
    let expr = mir(MirKind::Struct(vec![
        MirField {
            label: Some("a".into()),
            value: mir(MirKind::Int(1)),
            is_spread: false,
        },
        MirField {
            label: None,
            value: mir(MirKind::Bool(true)),
            is_spread: false,
        },
    ]));
    let ty = check(&expr, &mut env).unwrap();
    assert_eq!(
        ty,
        Ty::Struct(vec![("a".into(), Ty::IntLiteral), ("0".into(), Ty::Bool)])
    );
}

#[test]
fn bind_simple() {
    let mut env = TyEnv::new();
    let expr = mir(MirKind::Bind {
        name: "x".into(),
        value: mir(MirKind::Int(42)),
        body: mir(MirKind::Ident("x".into())),
    });
    // IntLiteral defaults to Int when bound via let
    assert_eq!(check(&expr, &mut env).unwrap(), Ty::Int);
}

#[test]
fn pipe_let_name() {
    // use(core) desugars to: Pipe(Import("core"), Let { Name("core"), body })
    let mut env = TyEnv::new().with_module("test", Ty::Int);
    let expr = mir(MirKind::Pipe(
        mir(MirKind::Import("test".into())),
        mir(MirKind::Let {
            pattern: Pattern::Name("t".into()),
            body: mir(MirKind::Ident("t".into())),
        }),
    ));
    assert_eq!(check(&expr, &mut env).unwrap(), Ty::Int);
}

#[test]
fn method_set_call() {
    let mut env = TyEnv::new();
    env.bind("Int".into(), Ty::TagConstructor(TAG_ID_INT));
    let fn_ty = Ty::Fn {
        param: Box::new(Ty::Infer(0)),
        ret: Box::new(Ty::Infer(0)),
    };
    env.bind("int_add".into(), fn_ty);
    env.bind("method_set".into(), Ty::MethodSetConstructor);

    let expr = mir(MirKind::Call(
        mir(MirKind::Ident("method_set".into())),
        mir(MirKind::Struct(vec![
            MirField {
                label: None,
                value: mir(MirKind::Ident("Int".into())),
                is_spread: false,
            },
            MirField {
                label: None,
                value: mir(MirKind::Struct(vec![MirField {
                    label: Some("add".into()),
                    value: mir(MirKind::Ident("int_add".into())),
                    is_spread: false,
                }])),
                is_spread: false,
            },
        ])),
    ));

    let ty = check(&expr, &mut env).unwrap();
    assert!(matches!(ty, Ty::MethodSet { id: 0, tag_id } if tag_id == TAG_ID_INT));
}

#[test]
fn method_set_via_field_access() {
    // std.method_set(Int, (add = int_add)) should work the same as bare method_set(...)
    let mut env = TyEnv::new();
    env.bind("Int".into(), Ty::TagConstructor(TAG_ID_INT));
    let fn_ty = Ty::Fn {
        param: Box::new(Ty::Infer(0)),
        ret: Box::new(Ty::Infer(0)),
    };
    env.bind("int_add".into(), fn_ty);
    // Simulate a module with method_set as a field
    let module_ty = Ty::Struct(vec![("method_set".into(), Ty::MethodSetConstructor)]);
    env.bind("mymod".into(), module_ty);

    // mymod.method_set(Int, (add = int_add))
    let expr = mir(MirKind::Call(
        mir(MirKind::FieldAccess(
            mir(MirKind::Ident("mymod".into())),
            "method_set".into(),
        )),
        mir(MirKind::Struct(vec![
            MirField {
                label: None,
                value: mir(MirKind::Ident("Int".into())),
                is_spread: false,
            },
            MirField {
                label: None,
                value: mir(MirKind::Struct(vec![MirField {
                    label: Some("add".into()),
                    value: mir(MirKind::Ident("int_add".into())),
                    is_spread: false,
                }])),
                is_spread: false,
            },
        ])),
    ));

    let ty = check(&expr, &mut env).unwrap();
    assert!(matches!(ty, Ty::MethodSet { id: 0, tag_id } if tag_id == TAG_ID_INT));
}

#[test]
fn method_set_aliased() {
    // let ms = method_set; ms(Int, (add = int_add)) should also work
    let mut env = TyEnv::new();
    env.bind("Int".into(), Ty::TagConstructor(TAG_ID_INT));
    let fn_ty = Ty::Fn {
        param: Box::new(Ty::Infer(0)),
        ret: Box::new(Ty::Infer(0)),
    };
    env.bind("int_add".into(), fn_ty);
    // Bind under an arbitrary name
    env.bind("hoge".into(), Ty::MethodSetConstructor);

    // hoge(Int, (add = int_add))
    let expr = mir(MirKind::Call(
        mir(MirKind::Ident("hoge".into())),
        mir(MirKind::Struct(vec![
            MirField {
                label: None,
                value: mir(MirKind::Ident("Int".into())),
                is_spread: false,
            },
            MirField {
                label: None,
                value: mir(MirKind::Struct(vec![MirField {
                    label: Some("add".into()),
                    value: mir(MirKind::Ident("int_add".into())),
                    is_spread: false,
                }])),
                is_spread: false,
            },
        ])),
    ));

    let ty = check(&expr, &mut env).unwrap();
    assert!(matches!(ty, Ty::MethodSet { id: 0, tag_id } if tag_id == TAG_ID_INT));
}

#[test]
fn method_set_non_constructor_errors() {
    let mut env = TyEnv::new();
    env.bind("not_a_ctor".into(), Ty::Int);
    env.bind("method_set".into(), Ty::MethodSetConstructor);

    let expr = mir(MirKind::Call(
        mir(MirKind::Ident("method_set".into())),
        mir(MirKind::Struct(vec![
            MirField {
                label: None,
                value: mir(MirKind::Ident("not_a_ctor".into())),
                is_spread: false,
            },
            MirField {
                label: None,
                value: mir(MirKind::Struct(vec![])),
                is_spread: false,
            },
        ])),
    ));

    assert!(check(&expr, &mut env).is_err());
}

#[test]
fn method_set_non_struct_methods_errors() {
    let mut env = TyEnv::new();
    env.bind("Int".into(), Ty::TagConstructor(TAG_ID_INT));
    env.bind("method_set".into(), Ty::MethodSetConstructor);

    let expr = mir(MirKind::Call(
        mir(MirKind::Ident("method_set".into())),
        mir(MirKind::Struct(vec![
            MirField {
                label: None,
                value: mir(MirKind::Ident("Int".into())),
                is_spread: false,
            },
            MirField {
                label: None,
                value: mir(MirKind::Int(42)),
                is_spread: false,
            },
        ])),
    ));

    assert!(check(&expr, &mut env).is_err());
}

#[test]
fn branch_int_literal_coerces_to_byte() {
    let mut env = TyEnv::new();
    // { true -> b'A', false -> 4 }
    // Arm 1: Byte, Arm 2: IntLiteral → coerces to Byte
    let expr = mir(MirKind::BranchBlock(vec![
        MirBranchArm {
            pattern: MirBranchPattern::Literal(mir(MirKind::Bool(true))),
            guard: None,
            body: mir(MirKind::Byte(b'A')),
        },
        MirBranchArm {
            pattern: MirBranchPattern::Literal(mir(MirKind::Bool(false))),
            guard: None,
            body: mir(MirKind::Int(4)),
        },
    ]));
    let ty = check(&expr, &mut env).unwrap();
    match ty {
        Ty::Fn { param, ret } => {
            assert!(matches!(*param, Ty::Infer(_)));
            assert_eq!(*ret, Ty::Byte);
        }
        _ => panic!("expected Fn, got {:?}", ty),
    }
}

#[test]
fn array_int_literal_coerces_to_byte() {
    let mut env = TyEnv::new();
    // [b'A', 4, 5] — element 0 is Byte, elements 1-2 are IntLiteral → Array(Byte)
    let expr = mir(MirKind::Array(vec![
        mir(MirKind::Byte(b'A')),
        mir(MirKind::Int(4)),
        mir(MirKind::Int(5)),
    ]));
    let ty = check(&expr, &mut env).unwrap();
    assert_eq!(ty, Ty::Array(Box::new(Ty::Byte)));
}

#[test]
fn block_types_as_fn() {
    let mut env = TyEnv::new();
    // { 42 } is a lambda that returns IntLiteral
    let expr = mir(MirKind::Block(mir(MirKind::Int(42))));
    let ty = check(&expr, &mut env).unwrap();
    match ty {
        Ty::Fn { param, ret } => {
            assert!(matches!(*param, Ty::Infer(_)));
            assert_eq!(*ret, Ty::IntLiteral);
        }
        _ => panic!("expected Fn, got {:?}", ty),
    }
}

#[test]
fn branch_same_type_arms() {
    let mut env = TyEnv::new();
    // { true -> 1, false -> 2 } — both arms are IntLiteral, unifies to IntLiteral
    let expr = mir(MirKind::BranchBlock(vec![
        MirBranchArm {
            pattern: MirBranchPattern::Literal(mir(MirKind::Bool(true))),
            guard: None,
            body: mir(MirKind::Int(1)),
        },
        MirBranchArm {
            pattern: MirBranchPattern::Literal(mir(MirKind::Bool(false))),
            guard: None,
            body: mir(MirKind::Int(2)),
        },
    ]));
    let ty = check(&expr, &mut env).unwrap();
    match ty {
        Ty::Fn { param, ret } => {
            assert!(matches!(*param, Ty::Infer(_)));
            assert_eq!(*ret, Ty::IntLiteral);
        }
        _ => panic!("expected Fn, got {:?}", ty),
    }
}

#[test]
fn branch_different_type_arms_error() {
    let mut env = TyEnv::new();
    // { true -> 1, false -> "hello" }
    let expr = mir(MirKind::BranchBlock(vec![
        MirBranchArm {
            pattern: MirBranchPattern::Literal(mir(MirKind::Bool(true))),
            guard: None,
            body: mir(MirKind::Int(1)),
        },
        MirBranchArm {
            pattern: MirBranchPattern::Literal(mir(MirKind::Bool(false))),
            guard: None,
            body: mir(MirKind::Str("hello".into())),
        },
    ]));
    assert!(check(&expr, &mut env).is_err());
}

#[test]
fn branch_with_binding_pattern() {
    let mut env = TyEnv::new();
    // { x -> x } — catch-all returns the input type (both param and ret are inferred)
    let expr = mir(MirKind::BranchBlock(vec![MirBranchArm {
        pattern: MirBranchPattern::Binding("x".into()),
        guard: None,
        body: mir(MirKind::Ident("x".into())),
    }]));
    let ty = check(&expr, &mut env).unwrap();
    match ty {
        Ty::Fn { param, ret } => {
            assert!(matches!(*param, Ty::Infer(_)));
            assert!(matches!(*ret, Ty::Infer(_)));
        }
        _ => panic!("expected Fn, got {:?}", ty),
    }
}

#[test]
fn branch_tag_payload_resolution() {
    let mut env = TyEnv::new();
    // Simulate: tag(Ok); tag(Err);
    // Ok and Err are tag constructors with IDs 100 and 101
    env.bind("Ok".into(), Ty::TagConstructor(100));
    env.bind("Err".into(), Ty::TagConstructor(101));

    // Input type: Union(Tagged{Ok, Int}, Tagged{Err, String})
    let input_ty = Ty::Union(vec![
        Ty::Tagged {
            tag_id: 100,
            payload: Box::new(Ty::Int),
        },
        Ty::Tagged {
            tag_id: 101,
            payload: Box::new(Ty::String),
        },
    ]);

    // Test check_branch_block_with_input directly with the union input.
    // Ok(x) should bind x to Int; Err(e) should bind e to String.
    // Arm bodies: x (Int), 0 (IntLiteral) → unifies to Int.
    let ret = check_branch_block_with_input(
        &[
            MirBranchArm {
                pattern: MirBranchPattern::Tag(
                    "Ok".into(),
                    Some(BranchBinding::Name("x".into())),
                ),
                guard: None,
                body: mir(MirKind::Ident("x".into())),
            },
            MirBranchArm {
                pattern: MirBranchPattern::Tag(
                    "Err".into(),
                    Some(BranchBinding::Name("e".into())),
                ),
                guard: None,
                body: mir(MirKind::Int(0)),
            },
        ],
        &input_ty,
        &mut env,
    )
    .unwrap();
    // x has type Int (from Ok payload), 0 is Int → unifies to Int
    assert_eq!(ret, Ty::Int);
}

#[test]
fn branch_tag_payload_err_arm_types() {
    let mut env = TyEnv::new();
    env.bind("Ok".into(), Ty::TagConstructor(100));
    env.bind("Err".into(), Ty::TagConstructor(101));

    let input_ty = Ty::Union(vec![
        Ty::Tagged {
            tag_id: 100,
            payload: Box::new(Ty::Int),
        },
        Ty::Tagged {
            tag_id: 101,
            payload: Box::new(Ty::String),
        },
    ]);

    // { Ok(x) -> x, Err(e) -> e }
    // Ok(x) → x is Int, Err(e) → e is String → unification error!
    let result = check_branch_block_with_input(
        &[
            MirBranchArm {
                pattern: MirBranchPattern::Tag(
                    "Ok".into(),
                    Some(BranchBinding::Name("x".into())),
                ),
                guard: None,
                body: mir(MirKind::Ident("x".into())),
            },
            MirBranchArm {
                pattern: MirBranchPattern::Tag(
                    "Err".into(),
                    Some(BranchBinding::Name("e".into())),
                ),
                guard: None,
                body: mir(MirKind::Ident("e".into())),
            },
        ],
        &input_ty,
        &mut env,
    );
    assert!(
        result.is_err(),
        "Ok(Int) and Err(String) arm bodies don't unify"
    );
}

#[test]
fn q5_two_method_set_calls_in_branch_error() {
    let mut env = TyEnv::new();
    env.bind("Int".into(), Ty::TagConstructor(TAG_ID_INT));
    let fn_ty = Ty::Fn {
        param: Box::new(Ty::Infer(0)),
        ret: Box::new(Ty::Infer(0)),
    };
    env.bind("int_to_string".into(), fn_ty.clone());
    env.bind("int_to_string_other".into(), fn_ty);
    env.bind("method_set".into(), Ty::MethodSetConstructor);

    // Helper to build method_set(Int, (to_string = f))
    let make_ms = |f: &str| {
        mir(MirKind::Call(
            mir(MirKind::Ident("method_set".into())),
            mir(MirKind::Struct(vec![
                MirField {
                    label: None,
                    value: mir(MirKind::Ident("Int".into())),
                    is_spread: false,
                },
                MirField {
                    label: None,
                    value: mir(MirKind::Struct(vec![MirField {
                        label: Some("to_string".into()),
                        value: mir(MirKind::Ident(f.into())),
                        is_spread: false,
                    }])),
                    is_spread: false,
                },
            ])),
        ))
    };

    // { true -> method_set(Int, ...), false -> method_set(Int, ...) }
    let branch = mir(MirKind::BranchBlock(vec![
        MirBranchArm {
            pattern: MirBranchPattern::Literal(mir(MirKind::Bool(true))),
            guard: None,
            body: make_ms("int_to_string"),
        },
        MirBranchArm {
            pattern: MirBranchPattern::Literal(mir(MirKind::Bool(false))),
            guard: None,
            body: make_ms("int_to_string_other"),
        },
    ]));

    // The two method_set calls produce different generative IDs → unification fails
    let result = check(&branch, &mut env);
    assert!(
        result.is_err(),
        "expected error from two different method_set types in branch"
    );
}

#[test]
fn q4_one_method_set_with_varying_struct_ok() {
    let mut env = TyEnv::new();
    let fn_ty = Ty::Fn {
        param: Box::new(Ty::Infer(0)),
        ret: Box::new(Ty::Infer(0)),
    };
    env.bind("Int".into(), Ty::TagConstructor(TAG_ID_INT));
    env.bind("int_to_string".into(), fn_ty.clone());
    env.bind("int_to_string_other".into(), fn_ty.clone());
    env.bind("method_set".into(), Ty::MethodSetConstructor);

    // let int_ms1 = (to_string = int_to_string)
    // let int_ms2 = (to_string = int_to_string_other)
    // method_set(Int, in >> { int_ms1 | int_ms2 })
    //
    // The branch { int_ms1 | int_ms2 } unifies because both are
    // Struct([(to_string, Fn(Unknown->Unknown))]) — same shape, same types.
    // Then method_set sees the branch result (a function returning a struct) and accepts.

    // Build: { true -> int_ms1, false -> int_ms2 }
    let branch = mir(MirKind::BranchBlock(vec![
        MirBranchArm {
            pattern: MirBranchPattern::Literal(mir(MirKind::Bool(true))),
            guard: None,
            body: mir(MirKind::Struct(vec![MirField {
                label: Some("to_string".into()),
                value: mir(MirKind::Ident("int_to_string".into())),
                is_spread: false,
            }])),
        },
        MirBranchArm {
            pattern: MirBranchPattern::Literal(mir(MirKind::Bool(false))),
            guard: None,
            body: mir(MirKind::Struct(vec![MirField {
                label: Some("to_string".into()),
                value: mir(MirKind::Ident("int_to_string_other".into())),
                is_spread: false,
            }])),
        },
    ]));

    // The branch should typecheck fine — both arms are same-shaped structs
    let branch_ty = check(&branch, &mut env).unwrap();
    match &branch_ty {
        Ty::Fn { ret, .. } => {
            assert!(matches!(ret.as_ref(), Ty::Struct(_)));
        }
        other => panic!("expected Fn, got {:?}", other),
    }
}

#[test]
fn method_call_resolves_via_method_set() {
    let mut env = TyEnv::new();
    // Set up: method_set(Int, (add = fn(Unknown->Int)))
    env.bind("Int".into(), Ty::TagConstructor(TAG_ID_INT));
    let int_add_ty = Ty::Fn {
        param: Box::new(Ty::Infer(0)),
        ret: Box::new(Ty::Int),
    };
    env.bind("int_add".into(), int_add_ty);
    env.bind("method_set".into(), Ty::MethodSetConstructor);

    // Create the method set: method_set(Int, (add = int_add))
    let ms_call = mir(MirKind::Call(
        mir(MirKind::Ident("method_set".into())),
        mir(MirKind::Struct(vec![
            MirField {
                label: None,
                value: mir(MirKind::Ident("Int".into())),
                is_spread: false,
            },
            MirField {
                label: None,
                value: mir(MirKind::Struct(vec![MirField {
                    label: Some("add".into()),
                    value: mir(MirKind::Ident("int_add".into())),
                    is_spread: false,
                }])),
                is_spread: false,
            },
        ])),
    ));
    let ms_ty = check(&ms_call, &mut env).unwrap();
    assert!(matches!(ms_ty, Ty::MethodSet { tag_id, .. } if tag_id == TAG_ID_INT));

    // Apply the method set and call 1.add(2)
    let expr = mir(MirKind::Apply {
        expr: ms_call.clone(),
        body: mir(MirKind::MethodCall {
            receiver: mir(MirKind::Int(1)),
            method: "add".into(),
            arg: mir(MirKind::Int(2)),
        }),
    });
    // Note: ms_call is checked again inside Apply — this allocates a second ms id,
    // but the Apply handler binds it. We need a fresh env for this test.
    let mut env2 = TyEnv::new();
    env2.bind("Int".into(), Ty::TagConstructor(TAG_ID_INT));
    env2.bind(
        "int_add".into(),
        Ty::Fn {
            param: Box::new(Ty::Infer(0)),
            ret: Box::new(Ty::Int),
        },
    );
    env2.bind("method_set".into(), Ty::MethodSetConstructor);
    let ty = check(&expr, &mut env2).unwrap();
    assert_eq!(ty, Ty::Int);
}

#[test]
fn method_call_on_struct_field() {
    let mut env = TyEnv::new();
    // A struct with a method-like field: (add = fn(Unknown->Int))
    let struct_ty = Ty::Struct(vec![(
        "add".into(),
        Ty::Fn {
            param: Box::new(Ty::Infer(0)),
            ret: Box::new(Ty::Int),
        },
    )]);
    env.bind("s".into(), struct_ty);
    // s.add(1)
    let expr = mir(MirKind::MethodCall {
        receiver: mir(MirKind::Ident("s".into())),
        method: "add".into(),
        arg: mir(MirKind::Int(1)),
    });
    let ty = check(&expr, &mut env).unwrap();
    assert_eq!(ty, Ty::Int);
}

#[test]
fn call_param_type_mismatch_error() {
    let mut env = TyEnv::new();
    // f: Fn(Int -> Bool)
    env.bind(
        "f".into(),
        Ty::Fn {
            param: Box::new(Ty::Int),
            ret: Box::new(Ty::Bool),
        },
    );
    // f("hello") — String arg doesn't match Int param
    let expr = mir(MirKind::Call(
        mir(MirKind::Ident("f".into())),
        mir(MirKind::Str("hello".into())),
    ));
    assert!(check(&expr, &mut env).is_err());
}

#[test]
fn call_param_type_ok() {
    let mut env = TyEnv::new();
    // f: Fn(Int -> Bool)
    env.bind(
        "f".into(),
        Ty::Fn {
            param: Box::new(Ty::Int),
            ret: Box::new(Ty::Bool),
        },
    );
    // f(42) — IntLiteral coerces to Int
    let expr = mir(MirKind::Call(
        mir(MirKind::Ident("f".into())),
        mir(MirKind::Int(42)),
    ));
    let ty = check(&expr, &mut env).unwrap();
    assert_eq!(ty, Ty::Bool);
}

#[test]
fn struct_rest_pattern_types() {
    let mut env = TyEnv::new();
    // (x=1, y=2.0, z=true) >> let(x=x, ...rest); rest
    // rest should be Struct([(y, Float), (z, Bool)])
    let input = Ty::Struct(vec![
        ("x".into(), Ty::Int),
        ("y".into(), Ty::Float),
        ("z".into(), Ty::Bool),
    ]);
    let pattern = Pattern::Fields(vec![
        PatField {
            label: Some("x".into()),
            binding: "x".into(),
            is_rest: false,
        },
        PatField {
            label: None,
            binding: "rest".into(),
            is_rest: true,
        },
    ]);
    let body = mir(MirKind::Ident("rest".into()));
    let ty = check_let(&pattern, &body, &input, &mut env).unwrap();
    assert_eq!(
        ty,
        Ty::Struct(vec![("y".into(), Ty::Float), ("z".into(), Ty::Bool)])
    );
}

#[test]
fn method_call_without_method_set_errors() {
    let mut env = TyEnv::new();
    // 42.to_string() without any method set in scope is a type error
    let expr = mir(MirKind::MethodCall {
        receiver: mir(MirKind::Int(42)),
        method: "to_string".into(),
        arg: mir(MirKind::Unit),
    });
    assert!(check(&expr, &mut env).is_err());
}

#[test]
fn array_get_returns_element_type() {
    // [1, 2].get(0) should return IntLiteral (element type), not Unknown
    let mut env = TyEnv::new();
    // array_get: Array(G0) × Int → G0
    let g0 = Ty::Generic(0);
    let get_ty = Ty::Fn {
        param: Box::new(Ty::Struct(vec![
            ("0".into(), Ty::Array(Box::new(g0.clone()))),
            ("1".into(), Ty::Int),
        ])),
        ret: Box::new(g0),
    };
    let ms_id = env.fresh_method_set_id();
    env.register_method_set(
        ms_id,
        TAG_ID_ARRAY,
        Ty::Struct(vec![("get".into(), get_ty)]),
    );
    env.bind(
        "\0ms".to_string(),
        Ty::MethodSet {
            id: ms_id,
            tag_id: TAG_ID_ARRAY,
        },
    );

    let expr = mir(MirKind::MethodCall {
        receiver: mir(MirKind::Array(vec![
            mir(MirKind::Int(1)),
            mir(MirKind::Int(2)),
        ])),
        method: "get".into(),
        arg: mir(MirKind::Int(0)),
    });
    let ty = check(&expr, &mut env).unwrap();
    assert_eq!(ty, Ty::IntLiteral);
}

#[test]
fn array_map_returns_mapped_type() {
    let mut env = TyEnv::new();
    // array_map: Array(G0) × (G0 → G1) → Array(G1)
    let g0 = Ty::Generic(0);
    let g1 = Ty::Generic(1);
    let map_cb = Ty::Fn {
        param: Box::new(g0.clone()),
        ret: Box::new(g1.clone()),
    };
    let map_ty = Ty::Fn {
        param: Box::new(Ty::Struct(vec![
            ("0".into(), Ty::Array(Box::new(g0))),
            ("1".into(), map_cb),
        ])),
        ret: Box::new(Ty::Array(Box::new(g1))),
    };
    let ms_id = env.fresh_method_set_id();
    env.register_method_set(
        ms_id,
        TAG_ID_ARRAY,
        Ty::Struct(vec![("map".into(), map_ty)]),
    );
    env.bind(
        "\0ms".to_string(),
        Ty::MethodSet {
            id: ms_id,
            tag_id: TAG_ID_ARRAY,
        },
    );

    // [1, 2].map(f) where f: Any → String
    let callback = Ty::Fn {
        param: Box::new(Ty::Infer(0)),
        ret: Box::new(Ty::String),
    };
    env.bind("f".into(), callback);

    let expr = mir(MirKind::MethodCall {
        receiver: mir(MirKind::Array(vec![
            mir(MirKind::Int(1)),
            mir(MirKind::Int(2)),
        ])),
        method: "map".into(),
        arg: mir(MirKind::Ident("f".into())),
    });
    let ty = check(&expr, &mut env).unwrap();
    assert_eq!(ty, Ty::Array(Box::new(Ty::String)));
}

#[test]
fn array_zip_returns_pair_array() {
    let mut env = TyEnv::new();
    // array_zip: Array(G0) × Array(G1) → Array((G0, G1))
    let g0 = Ty::Generic(0);
    let g1 = Ty::Generic(1);
    let zip_ty = Ty::Fn {
        param: Box::new(Ty::Struct(vec![
            ("0".into(), Ty::Array(Box::new(g0.clone()))),
            ("1".into(), Ty::Array(Box::new(g1.clone()))),
        ])),
        ret: Box::new(Ty::Array(Box::new(Ty::Struct(vec![
            ("0".into(), g0),
            ("1".into(), g1),
        ])))),
    };
    let ms_id = env.fresh_method_set_id();
    env.register_method_set(
        ms_id,
        TAG_ID_ARRAY,
        Ty::Struct(vec![("zip".into(), zip_ty)]),
    );
    env.bind(
        "\0ms".to_string(),
        Ty::MethodSet {
            id: ms_id,
            tag_id: TAG_ID_ARRAY,
        },
    );

    // [1, 2].zip(["a", "b"]) → Array(Struct([(0, IntLiteral), (1, String)]))
    let expr = mir(MirKind::MethodCall {
        receiver: mir(MirKind::Array(vec![
            mir(MirKind::Int(1)),
            mir(MirKind::Int(2)),
        ])),
        method: "zip".into(),
        arg: mir(MirKind::Array(vec![
            mir(MirKind::Str("a".into())),
            mir(MirKind::Str("b".into())),
        ])),
    });
    let ty = check(&expr, &mut env).unwrap();
    assert_eq!(
        ty,
        Ty::Array(Box::new(Ty::Struct(vec![
            ("0".into(), Ty::IntLiteral),
            ("1".into(), Ty::String),
        ])))
    );
}

#[test]
fn bind_defaults_literal_in_struct() {
    let mut env = TyEnv::new();
    // let s = (x=1, y=2.0); s
    let expr = mir(MirKind::Bind {
        name: "s".into(),
        value: mir(MirKind::Struct(vec![
            MirField {
                label: Some("x".into()),
                value: mir(MirKind::Int(1)),
                is_spread: false,
            },
            MirField {
                label: Some("y".into()),
                value: mir(MirKind::Float("2.0".to_string())),
                is_spread: false,
            },
        ])),
        body: mir(MirKind::Ident("s".into())),
    });
    let ty = check(&expr, &mut env).unwrap();
    // IntLiteral and FloatLiteral should default to Int and Float in bindings
    assert_eq!(
        ty,
        Ty::Struct(vec![("x".into(), Ty::Int), ("y".into(), Ty::Float)])
    );
}

#[test]
fn bind_defaults_literal_in_array() {
    let mut env = TyEnv::new();
    // let a = [1, 2, 3]; a
    let expr = mir(MirKind::Bind {
        name: "a".into(),
        value: mir(MirKind::Array(vec![
            mir(MirKind::Int(1)),
            mir(MirKind::Int(2)),
            mir(MirKind::Int(3)),
        ])),
        body: mir(MirKind::Ident("a".into())),
    });
    let ty = check(&expr, &mut env).unwrap();
    assert_eq!(ty, Ty::Array(Box::new(Ty::Int)));
}

#[test]
fn bind_defaults_literal_in_fn() {
    let mut env = TyEnv::new();
    // let f = { 42 }; f
    let expr = mir(MirKind::Bind {
        name: "f".into(),
        value: mir(MirKind::Block(mir(MirKind::Int(42)))),
        body: mir(MirKind::Ident("f".into())),
    });
    let ty = check(&expr, &mut env).unwrap();
    assert_eq!(
        ty,
        Ty::Fn {
            param: Box::new(Ty::Infer(0)),
            ret: Box::new(Ty::Int)
        }
    );
}

#[test]
fn stored_block_rechecked_on_call() {
    let mut env = TyEnv::new();
    // let f = { in }; f(42)
    // Without re-checking, f(42) returns Unknown (from initial block check).
    // With re-checking, f(42) should return Int (from re-checking with in=IntLiteral).
    // But since it goes through default_literals in Bind... the block is stored before defaulting.
    let expr = mir(MirKind::Bind {
        name: "f".into(),
        value: mir(MirKind::Block(mir(MirKind::Ident("in".into())))),
        body: mir(MirKind::Call(
            mir(MirKind::Ident("f".into())),
            mir(MirKind::Int(42)),
        )),
    });
    let ty = check(&expr, &mut env).unwrap();
    assert_eq!(ty, Ty::IntLiteral);
}

#[test]
fn stored_block_with_body_expr() {
    let mut env = TyEnv::new();
    env.bind("Int".into(), Ty::TagConstructor(TAG_ID_INT));
    // let f = { Int(in) }; f(42) should return Tagged{Int, IntLiteral}
    let expr = mir(MirKind::Bind {
        name: "f".into(),
        value: mir(MirKind::Block(mir(MirKind::Call(
            mir(MirKind::Ident("Int".into())),
            mir(MirKind::Ident("in".into())),
        )))),
        body: mir(MirKind::Call(
            mir(MirKind::Ident("f".into())),
            mir(MirKind::Int(42)),
        )),
    });
    let ty = check(&expr, &mut env).unwrap();
    assert_eq!(
        ty,
        Ty::Tagged {
            tag_id: TAG_ID_INT,
            payload: Box::new(Ty::IntLiteral)
        }
    );
}

#[test]
fn stored_block_cleared_on_rebind() {
    let mut env = TyEnv::new();
    // let f = { in }; let f = 42; f
    // After rebinding f to 42, f should be Int, not a block.
    // And calling f should fail because Int is not callable.
    let expr = mir(MirKind::Bind {
        name: "f".into(),
        value: mir(MirKind::Block(mir(MirKind::Ident("in".into())))),
        body: mir(MirKind::Bind {
            name: "f".into(),
            value: mir(MirKind::Int(42)),
            body: mir(MirKind::Ident("f".into())),
        }),
    });
    let ty = check(&expr, &mut env).unwrap();
    assert_eq!(ty, Ty::Int);
}

#[test]
fn tag_constructor_wraps_literal() {
    let mut env = TyEnv::new();
    env.bind("Ok".into(), Ty::TagConstructor(100));
    // Ok(42) should return Tagged{100, IntLiteral}
    let expr = mir(MirKind::Call(
        mir(MirKind::Ident("Ok".into())),
        mir(MirKind::Int(42)),
    ));
    let ty = check(&expr, &mut env).unwrap();
    assert_eq!(
        ty,
        Ty::Tagged {
            tag_id: 100,
            payload: Box::new(Ty::IntLiteral)
        }
    );
}

fn field(label: Option<&str>, value: Mir) -> MirField {
    MirField { label: label.map(|l| l.to_string()), value, is_spread: false }
}

fn method_set_of(tag: &str, name: &str, f: &str) -> Mir {
    mir(MirKind::Call(
        mir(MirKind::Ident("method_set".into())),
        mir(MirKind::Struct(vec![
            field(None, mir(MirKind::Ident(tag.into()))),
            field(None, mir(MirKind::Struct(vec![field(Some(name), mir(MirKind::Ident(f.into())))]))),
        ])),
    ))
}

#[test]
fn undefined_names_report_the_name() {
    let mut env = TyEnv::new();
    assert_eq!(
        check(&mir(MirKind::Ident("x".into())), &mut env),
        Err("type error: undefined variable: x".to_string())
    );
    assert_eq!(
        check(&mir(MirKind::Import("core".into())), &mut env),
        Err("type error: module not provided: core".to_string())
    );
}

#[test]
fn array_destructuring_binds_element_and_rest() {
    let mut env = TyEnv::new();
    // [1, 2] >> let[a, ...r]; (a, r)
    let expr = mir(MirKind::Pipe(
        mir(MirKind::Array(vec![mir(MirKind::Int(1)), mir(MirKind::Int(2))])),
        mir(MirKind::LetArray {
            patterns: vec![ArrayPat::Name("a".into()), ArrayPat::Rest(Some("r".into()))],
            body: mir(MirKind::Struct(vec![
                field(None, mir(MirKind::Ident("a".into()))),
                field(None, mir(MirKind::Ident("r".into()))),
            ])),
        }),
    ));
    assert_eq!(
        check(&expr, &mut env).unwrap(),
        Ty::Struct(vec![("0".into(), Ty::Int), ("1".into(), Ty::Array(Box::new(Ty::Int)))])
    );
}

#[test]
fn apply_needs_a_method_set() {
    let mut env = TyEnv::new();
    let expr = mir(MirKind::Apply { expr: mir(MirKind::Int(1)), body: mir(MirKind::Unit) });
    assert_eq!(check(&expr, &mut env), Err("type error: apply expects a method set".to_string()));
}

#[test]
fn field_access_on_unknown_input_is_an_error() {
    let mut env = TyEnv::new();
    // let(x); x.f — the standalone let's input is not known
    let expr = mir(MirKind::Let {
        pattern: Pattern::Name("x".into()),
        body: mir(MirKind::FieldAccess(mir(MirKind::Ident("x".into())), "f".into())),
    });
    assert_eq!(
        check(&expr, &mut env),
        Err("type error: field access 'f' on value of unknown type".to_string())
    );
}

#[test]
fn method_set_ids_count_up() {
    let mut env = TyEnv::new();
    env.bind("Int".into(), Ty::TagConstructor(TAG_ID_INT));
    env.bind("f".into(), Ty::Fn { param: Box::new(Ty::Infer(0)), ret: Box::new(Ty::Int) });
    env.bind("method_set".into(), Ty::MethodSetConstructor);
    let expr = mir(MirKind::Bind {
        name: "first".into(),
        value: method_set_of("Int", "add", "f"),
        body: method_set_of("Int", "add", "f"),
    });
    assert_eq!(check(&expr, &mut env).unwrap(), Ty::MethodSet { id: 1, tag_id: TAG_ID_INT });
}

#[test]
fn piped_module_prelude_puts_its_method_sets_in_scope() {
    let mut env = TyEnv::new();
    let id = env.fresh_method_set_id();
    env.register_method_set(
        id,
        TAG_ID_INT,
        Ty::Struct(vec![("add".into(), Ty::Fn { param: Box::new(Ty::Infer(0)), ret: Box::new(Ty::Int) })]),
    );
    let module = Ty::Struct(vec![(
        "prelude".into(),
        Ty::Struct(vec![("int".into(), Ty::MethodSet { id, tag_id: TAG_ID_INT })]),
    )]);
    env.bind("std".into(), module);
    // std >> let(s); 1.add(2)
    let expr = mir(MirKind::Pipe(
        mir(MirKind::Ident("std".into())),
        mir(MirKind::Let {
            pattern: Pattern::Name("s".into()),
            body: mir(MirKind::MethodCall {
                receiver: mir(MirKind::Int(1)),
                method: "add".into(),
                arg: mir(MirKind::Int(2)),
            }),
        }),
    ));
    assert_eq!(check(&expr, &mut env).unwrap(), Ty::Int);
}

#[test]
fn branch_on_known_input_checks_tags() {
    let mut env = TyEnv::new();
    env.bind("Ok".into(), Ty::TagConstructor(100));
    let arms = |tag: &str| {
        vec![MirBranchArm {
            pattern: MirBranchPattern::Tag(tag.into(), None),
            guard: None,
            body: mir(MirKind::Int(1)),
        }]
    };
    assert_eq!(
        check_branch_block_with_input(&arms("Nope"), &Ty::Bool, &mut env),
        Err("type error: undefined tag 'Nope' in branch pattern".to_string())
    );
    assert_eq!(
        check_branch_block_with_input(&arms("Ok"), &Ty::Bool, &mut env),
        Err("type error: non-exhaustive branch — no arm matches input type (first tag: 'Ok')".to_string())
    );
    let ok_int = Ty::Tagged { tag_id: 100, payload: Box::new(Ty::Int) };
    assert_eq!(check_branch_block_with_input(&arms("Ok"), &ok_int, &mut env), Ok(Ty::IntLiteral));
}

#[test]
fn comparison_methods_without_method_sets() {
    let mut env = TyEnv::new();
    let call = |m: &str| {
        mir(MirKind::MethodCall {
            receiver: mir(MirKind::Bool(true)),
            method: m.into(),
            arg: mir(MirKind::Bool(false)),
        })
    };
    assert_eq!(check(&call("eq"), &mut env), Ok(Ty::Bool));
    assert_eq!(check(&call("gt_eq"), &mut env), Ok(Ty::Bool));
    assert_eq!(
        check(&call("frobnicate"), &mut env),
        Err("type error: no method 'frobnicate' on type Bool".to_string())
    );
}
