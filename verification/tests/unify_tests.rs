use std::collections::HashMap;

use nana::types::{
    default_literals, prepend_arg_ty, substitute_generics, unify, unify_with_generics, Ty, TAG_ID_INT,
};

#[test]
fn unify_same_primitives() {
    assert_eq!(unify(&Ty::Int, &Ty::Int).unwrap(), Ty::Int);
    assert_eq!(unify(&Ty::Float, &Ty::Float).unwrap(), Ty::Float);
    assert_eq!(unify(&Ty::Bool, &Ty::Bool).unwrap(), Ty::Bool);
    assert_eq!(unify(&Ty::String, &Ty::String).unwrap(), Ty::String);
}

#[test]
fn unify_different_primitives_error() {
    assert!(unify(&Ty::Int, &Ty::Float).is_err());
    assert!(unify(&Ty::Int, &Ty::String).is_err());
    assert!(unify(&Ty::Bool, &Ty::Byte).is_err());
}

#[test]
fn unify_unknown_with_anything() {
    assert_eq!(unify(&Ty::Infer(0), &Ty::Int).unwrap(), Ty::Int);
    assert_eq!(unify(&Ty::Float, &Ty::Infer(0)).unwrap(), Ty::Float);
    assert_eq!(unify(&Ty::Infer(0), &Ty::Infer(0)).unwrap(), Ty::Infer(0));
}

#[test]
fn unify_structs_same_shape() {
    let a = Ty::Struct(vec![("x".into(), Ty::Int), ("y".into(), Ty::Float)]);
    let b = Ty::Struct(vec![("x".into(), Ty::Int), ("y".into(), Ty::Float)]);
    assert_eq!(unify(&a, &b).unwrap(), a);
}

#[test]
fn unify_structs_different_field_count() {
    let a = Ty::Struct(vec![("x".into(), Ty::Int)]);
    let b = Ty::Struct(vec![("x".into(), Ty::Int), ("y".into(), Ty::Float)]);
    assert!(unify(&a, &b).is_err());
}

#[test]
fn unify_structs_different_field_names() {
    let a = Ty::Struct(vec![("x".into(), Ty::Int)]);
    let b = Ty::Struct(vec![("y".into(), Ty::Int)]);
    assert!(unify(&a, &b).is_err());
}

#[test]
fn unify_structs_different_field_types() {
    let a = Ty::Struct(vec![("x".into(), Ty::Int)]);
    let b = Ty::Struct(vec![("x".into(), Ty::Float)]);
    assert!(unify(&a, &b).is_err());
}

#[test]
fn unify_method_sets_same_id() {
    let a = Ty::MethodSet {
        id: 0,
        tag_id: TAG_ID_INT,
    };
    let b = Ty::MethodSet {
        id: 0,
        tag_id: TAG_ID_INT,
    };
    assert_eq!(unify(&a, &b).unwrap(), a);
}

#[test]
fn unify_method_sets_different_id() {
    let a = Ty::MethodSet {
        id: 0,
        tag_id: TAG_ID_INT,
    };
    let b = Ty::MethodSet {
        id: 1,
        tag_id: TAG_ID_INT,
    };
    assert!(unify(&a, &b).is_err());
}

#[test]
fn unify_functions() {
    let a = Ty::Fn {
        param: Box::new(Ty::Int),
        ret: Box::new(Ty::Bool),
    };
    let b = Ty::Fn {
        param: Box::new(Ty::Int),
        ret: Box::new(Ty::Bool),
    };
    assert_eq!(unify(&a, &b).unwrap(), a);
}

#[test]
fn unify_functions_unknown_fills() {
    let a = Ty::Fn {
        param: Box::new(Ty::Infer(0)),
        ret: Box::new(Ty::Infer(0)),
    };
    let b = Ty::Fn {
        param: Box::new(Ty::Int),
        ret: Box::new(Ty::Bool),
    };
    assert_eq!(unify(&a, &b).unwrap(), b);
}

#[test]
fn unify_int_literal_coercion() {
    // IntLiteral + Int = Int
    assert_eq!(unify(&Ty::IntLiteral, &Ty::Int).unwrap(), Ty::Int);
    assert_eq!(unify(&Ty::Int, &Ty::IntLiteral).unwrap(), Ty::Int);
    // IntLiteral + Byte = Byte
    assert_eq!(unify(&Ty::IntLiteral, &Ty::Byte).unwrap(), Ty::Byte);
    assert_eq!(unify(&Ty::Byte, &Ty::IntLiteral).unwrap(), Ty::Byte);
    // IntLiteral + IntLiteral = IntLiteral
    assert_eq!(
        unify(&Ty::IntLiteral, &Ty::IntLiteral).unwrap(),
        Ty::IntLiteral
    );
    // IntLiteral + Float = error (int and float are distinct)
    assert!(unify(&Ty::IntLiteral, &Ty::Float).is_err());
    // IntLiteral + FloatLiteral = error
    assert!(unify(&Ty::IntLiteral, &Ty::FloatLiteral).is_err());
    // IntLiteral + String = error
    assert!(unify(&Ty::IntLiteral, &Ty::String).is_err());
}

#[test]
fn unify_float_literal_coercion() {
    // FloatLiteral + Float = Float
    assert_eq!(unify(&Ty::FloatLiteral, &Ty::Float).unwrap(), Ty::Float);
    // FloatLiteral + FloatLiteral = FloatLiteral
    assert_eq!(
        unify(&Ty::FloatLiteral, &Ty::FloatLiteral).unwrap(),
        Ty::FloatLiteral
    );
    // FloatLiteral + Int = error (can't coerce float to int)
    assert!(unify(&Ty::FloatLiteral, &Ty::Int).is_err());
    // FloatLiteral + Byte = error
    assert!(unify(&Ty::FloatLiteral, &Ty::Byte).is_err());
}

#[test]
fn unify_tagged_different_ids_produces_union() {
    let ok = Ty::Tagged {
        tag_id: 100,
        payload: Box::new(Ty::Int),
    };
    let err = Ty::Tagged {
        tag_id: 101,
        payload: Box::new(Ty::String),
    };
    let result = unify(&ok, &err).unwrap();
    assert_eq!(result, Ty::Union(vec![ok, err]));
}

#[test]
fn unify_tagged_same_id_unifies_payload() {
    let a = Ty::Tagged {
        tag_id: 100,
        payload: Box::new(Ty::Infer(0)),
    };
    let b = Ty::Tagged {
        tag_id: 100,
        payload: Box::new(Ty::Int),
    };
    let result = unify(&a, &b).unwrap();
    assert_eq!(
        result,
        Ty::Tagged {
            tag_id: 100,
            payload: Box::new(Ty::Int)
        }
    );
}

#[test]
fn unify_union_with_new_tag() {
    let ok = Ty::Tagged {
        tag_id: 100,
        payload: Box::new(Ty::Int),
    };
    let err = Ty::Tagged {
        tag_id: 101,
        payload: Box::new(Ty::String),
    };
    let union = Ty::Union(vec![ok.clone(), err.clone()]);
    let none = Ty::Tagged {
        tag_id: 102,
        payload: Box::new(Ty::Unit),
    };
    let result = unify(&union, &none).unwrap();
    assert_eq!(result, Ty::Union(vec![ok, err, none]));
}

#[test]
fn unify_union_with_existing_tag_merges() {
    let ok = Ty::Tagged {
        tag_id: 100,
        payload: Box::new(Ty::Infer(0)),
    };
    let err = Ty::Tagged {
        tag_id: 101,
        payload: Box::new(Ty::String),
    };
    let union = Ty::Union(vec![ok, err.clone()]);
    let ok2 = Ty::Tagged {
        tag_id: 100,
        payload: Box::new(Ty::Int),
    };
    let result = unify(&union, &ok2).unwrap();
    let expected_ok = Ty::Tagged {
        tag_id: 100,
        payload: Box::new(Ty::Int),
    };
    assert_eq!(result, Ty::Union(vec![expected_ok, err]));
}

#[test]
fn unify_tagged_with_non_tagged_produces_union() {
    let ok = Ty::Tagged {
        tag_id: 100,
        payload: Box::new(Ty::Int),
    };
    let result = unify(&ok, &Ty::Int).unwrap();
    assert_eq!(result, Ty::Union(vec![ok, Ty::Int]));
}

#[test]
fn unify_with_generics_binds_variable() {
    let mut subst = HashMap::new();
    let result = unify_with_generics(&Ty::Generic(0), &Ty::Int, &mut subst).unwrap();
    assert_eq!(result, Ty::Int);
    assert_eq!(subst.get(&0), Some(&Ty::Int));
}

#[test]
fn unify_with_generics_consistent_binding() {
    let mut subst = HashMap::new();
    // First bind G0 = Int
    unify_with_generics(&Ty::Generic(0), &Ty::Int, &mut subst).unwrap();
    // Second use of G0 must also be Int
    let result = unify_with_generics(&Ty::Generic(0), &Ty::Int, &mut subst).unwrap();
    assert_eq!(result, Ty::Int);
}

#[test]
fn unify_with_generics_inconsistent_binding_error() {
    let mut subst = HashMap::new();
    unify_with_generics(&Ty::Generic(0), &Ty::Int, &mut subst).unwrap();
    // G0 is already Int, unifying with Float should error
    assert!(unify_with_generics(&Ty::Generic(0), &Ty::Float, &mut subst).is_err());
}

#[test]
fn unify_with_generics_two_variables() {
    let mut subst = HashMap::new();
    // G0 = Int, G1 = String
    unify_with_generics(&Ty::Generic(0), &Ty::Int, &mut subst).unwrap();
    unify_with_generics(&Ty::Generic(1), &Ty::String, &mut subst).unwrap();
    assert_eq!(subst.get(&0), Some(&Ty::Int));
    assert_eq!(subst.get(&1), Some(&Ty::String));
}

#[test]
fn unify_with_generics_in_array() {
    let mut subst = HashMap::new();
    // Array(G0) vs Array(Int) -> G0 = Int
    let a = Ty::Array(Box::new(Ty::Generic(0)));
    let b = Ty::Array(Box::new(Ty::Int));
    let result = unify_with_generics(&a, &b, &mut subst).unwrap();
    assert_eq!(result, Ty::Array(Box::new(Ty::Int)));
    assert_eq!(subst.get(&0), Some(&Ty::Int));
}

#[test]
fn unify_with_generics_in_fn() {
    let mut subst = HashMap::new();
    // Fn(G0 -> G1) vs Fn(Int -> String) -> G0=Int, G1=String
    let a = Ty::Fn {
        param: Box::new(Ty::Generic(0)),
        ret: Box::new(Ty::Generic(1)),
    };
    let b = Ty::Fn {
        param: Box::new(Ty::Int),
        ret: Box::new(Ty::String),
    };
    let result = unify_with_generics(&a, &b, &mut subst).unwrap();
    assert_eq!(
        result,
        Ty::Fn {
            param: Box::new(Ty::Int),
            ret: Box::new(Ty::String),
        }
    );
    assert_eq!(subst.get(&0), Some(&Ty::Int));
    assert_eq!(subst.get(&1), Some(&Ty::String));
}

#[test]
fn substitute_generics_replaces() {
    let mut subst = HashMap::new();
    subst.insert(0, Ty::Int);
    subst.insert(1, Ty::String);
    // Array(G1) with {1: String} -> Array(String)
    let ty = Ty::Array(Box::new(Ty::Generic(1)));
    assert_eq!(
        substitute_generics(&ty, &subst),
        Ty::Array(Box::new(Ty::String))
    );
}

#[test]
fn substitute_generics_in_fn() {
    let mut subst = HashMap::new();
    subst.insert(0, Ty::Int);
    subst.insert(1, Ty::Bool);
    let ty = Ty::Fn {
        param: Box::new(Ty::Generic(0)),
        ret: Box::new(Ty::Generic(1)),
    };
    assert_eq!(
        substitute_generics(&ty, &subst),
        Ty::Fn {
            param: Box::new(Ty::Int),
            ret: Box::new(Ty::Bool),
        }
    );
}

#[test]
fn substitute_generics_unbound_stays() {
    let subst = HashMap::new();
    let ty = Ty::Generic(99);
    assert_eq!(substitute_generics(&ty, &subst), Ty::Generic(99));
}

#[test]
fn prepend_arg_ty_unit() {
    // recv.method() — arg is unit, prepend = recv
    assert_eq!(prepend_arg_ty(&Ty::Int, &Ty::Unit), Ty::Int);
}

#[test]
fn prepend_arg_ty_single() {
    // recv.method(x) — arg is single value, prepend = (recv, x)
    assert_eq!(
        prepend_arg_ty(&Ty::Int, &Ty::String),
        Ty::Struct(vec![("0".into(), Ty::Int), ("1".into(), Ty::String)])
    );
}

#[test]
fn prepend_arg_ty_struct() {
    // recv.method(a, b) — arg is struct (0=a, 1=b), prepend = (0=recv, 1=a, 2=b)
    let arg = Ty::Struct(vec![("0".into(), Ty::String), ("1".into(), Ty::Bool)]);
    assert_eq!(
        prepend_arg_ty(&Ty::Int, &arg),
        Ty::Struct(vec![
            ("0".into(), Ty::Int),
            ("1".into(), Ty::String),
            ("2".into(), Ty::Bool),
        ])
    );
}

#[test]
fn prepend_arg_ty_named_struct() {
    // recv.fold(init=0, f=cb) — named fields stay named, recv is prepended as 0
    let arg = Ty::Struct(vec![("init".into(), Ty::Int), ("f".into(), Ty::Infer(0))]);
    assert_eq!(
        prepend_arg_ty(&Ty::Array(Box::new(Ty::Int)), &arg),
        Ty::Struct(vec![
            ("0".into(), Ty::Array(Box::new(Ty::Int))),
            ("init".into(), Ty::Int),
            ("f".into(), Ty::Infer(0)),
        ])
    );
}

#[test]
fn default_literals_recursive() {
    let ty = Ty::Struct(vec![
        ("a".into(), Ty::IntLiteral),
        ("b".into(), Ty::Array(Box::new(Ty::FloatLiteral))),
        (
            "c".into(),
            Ty::Fn {
                param: Box::new(Ty::IntLiteral),
                ret: Box::new(Ty::FloatLiteral),
            },
        ),
    ]);
    let defaulted = default_literals(ty);
    assert_eq!(
        defaulted,
        Ty::Struct(vec![
            ("a".into(), Ty::Int),
            ("b".into(), Ty::Array(Box::new(Ty::Float))),
            (
                "c".into(),
                Ty::Fn {
                    param: Box::new(Ty::Int),
                    ret: Box::new(Ty::Float),
                }
            ),
        ])
    );
}

#[test]
fn default_literals_in_tagged() {
    let ty = Ty::Tagged {
        tag_id: 100,
        payload: Box::new(Ty::IntLiteral),
    };
    assert_eq!(
        default_literals(ty),
        Ty::Tagged {
            tag_id: 100,
            payload: Box::new(Ty::Int)
        }
    );
}

#[test]
fn default_literals_in_union() {
    let ty = Ty::Union(vec![
        Ty::Tagged {
            tag_id: 100,
            payload: Box::new(Ty::IntLiteral),
        },
        Ty::Tagged {
            tag_id: 101,
            payload: Box::new(Ty::FloatLiteral),
        },
    ]);
    assert_eq!(
        default_literals(ty),
        Ty::Union(vec![
            Ty::Tagged {
                tag_id: 100,
                payload: Box::new(Ty::Int)
            },
            Ty::Tagged {
                tag_id: 101,
                payload: Box::new(Ty::Float)
            },
        ])
    );
}
