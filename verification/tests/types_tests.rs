use nana::types::{
    contains_ty, core_module_type, extract_payload_for_tag, ty_eq, ty_to_tag_id, union_add, Ty,
    TAG_ID_ARRAY, TAG_ID_BOOL, TAG_ID_BYTE, TAG_ID_CHAR, TAG_ID_F32, TAG_ID_FLOAT, TAG_ID_I128, TAG_ID_I16,
    TAG_ID_I32, TAG_ID_I8, TAG_ID_INT, TAG_ID_STRING, TAG_ID_U128, TAG_ID_U16, TAG_ID_U32, TAG_ID_U64,
    TAG_ID_UNIT,
};

fn field<'a>(t: &'a Ty, name: &str) -> Option<&'a Ty> {
    match t {
        Ty::Struct(fields) => fields.iter().find(|(n, _)| n == name).map(|(_, t)| t),
        _ => None,
    }
}

fn func(param: Ty, ret: Ty) -> Ty {
    Ty::Fn { param: Box::new(param), ret: Box::new(ret) }
}

fn pair(a: Ty, b: Ty) -> Ty {
    Ty::Struct(vec![("0".to_string(), a), ("1".to_string(), b)])
}

const CORE_CONSTRUCTORS: [(&str, u64); 18] = [
        ("I64", TAG_ID_INT),
        ("F64", TAG_ID_FLOAT),
        ("Bool", TAG_ID_BOOL),
        ("String", TAG_ID_STRING),
        ("Char", TAG_ID_CHAR),
        ("U8", TAG_ID_BYTE),
        ("Array", TAG_ID_ARRAY),
        ("Unit", TAG_ID_UNIT),
        ("I32", TAG_ID_I32),
        ("F32", TAG_ID_F32),
        ("I128", TAG_ID_I128),
        ("U128", TAG_ID_U128),
        ("I8", TAG_ID_I8),
        ("I16", TAG_ID_I16),
        ("U16", TAG_ID_U16),
        ("U32", TAG_ID_U32),
        ("U64", TAG_ID_U64),
        ("F64", TAG_ID_FLOAT),
];

const CORE_BUILTINS: [&str; 280] = [
        "not",
        "and",
        "or",
        "print",
        "byte",
        "int",
        "i64",
        "float",
        "char",
        "i32",
        "f32",
        "i128",
        "u128",
        "i8",
        "u8",
        "i16",
        "u16",
        "u32",
        "u64",
        "f64",
        "ref_eq",
        "val_eq",
        "method_set",
        "array_get",
        "array_slice",
        "array_len",
        "array_map",
        "array_filter",
        "array_fold",
        "array_zip",
        "array_add",
        "array_eq",
        "array_not_eq",
        "string_byte_len",
        "string_char_len",
        "string_byte_get",
        "string_char_get",
        "string_as_bytes",
        "string_chars",
        "string_split",
        "string_trim",
        "string_contains",
        "string_contains_char",
        "string_slice",
        "string_starts_with",
        "string_ends_with",
        "string_replace",
        "string_add",
        "string_eq",
        "string_not_eq",
        "string_lt",
        "string_gt",
        "string_lt_eq",
        "string_gt_eq",
        "string_to_string",
        "int_add",
        "int_subtract",
        "int_times",
        "int_divided_by",
        "int_negate",
        "int_eq",
        "int_not_eq",
        "int_lt",
        "int_gt",
        "int_lt_eq",
        "int_gt_eq",
        "int_to_string",
        "int_to_f64",
        "int_to_u8",
        "int_to_char",
        "i32_add",
        "i32_subtract",
        "i32_times",
        "i32_divided_by",
        "i32_negate",
        "i32_eq",
        "i32_not_eq",
        "i32_lt",
        "i32_gt",
        "i32_lt_eq",
        "i32_gt_eq",
        "i32_to_string",
        "i32_to_i64",
        "i32_to_f64",
        "i32_to_f32",
        "i32_to_u8",
        "i128_add",
        "i128_subtract",
        "i128_times",
        "i128_divided_by",
        "i128_negate",
        "i128_eq",
        "i128_not_eq",
        "i128_lt",
        "i128_gt",
        "i128_lt_eq",
        "i128_gt_eq",
        "i128_to_string",
        "i128_to_i64",
        "i128_to_i32",
        "i128_to_u128",
        "u128_add",
        "u128_subtract",
        "u128_times",
        "u128_divided_by",
        "u128_eq",
        "u128_not_eq",
        "u128_lt",
        "u128_gt",
        "u128_lt_eq",
        "u128_gt_eq",
        "u128_to_string",
        "u128_to_i64",
        "u128_to_i32",
        "u128_to_i128",
        "f32_add",
        "f32_subtract",
        "f32_times",
        "f32_divided_by",
        "f32_negate",
        "f32_eq",
        "f32_not_eq",
        "f32_lt",
        "f32_gt",
        "f32_lt_eq",
        "f32_gt_eq",
        "f32_to_string",
        "f32_to_f64",
        "f32_to_i64",
        "f32_to_i32",
        "f32_ceil",
        "f32_floor",
        "f32_round",
        "f32_trunc",
        "float_add",
        "float_subtract",
        "float_times",
        "float_divided_by",
        "float_negate",
        "float_eq",
        "float_not_eq",
        "float_lt",
        "float_gt",
        "float_lt_eq",
        "float_gt_eq",
        "float_to_string",
        "float_to_i64",
        "float_ceil",
        "float_floor",
        "float_round",
        "float_trunc",
        "bool_eq",
        "bool_not_eq",
        "bool_to_string",
        "char_eq",
        "char_not_eq",
        "char_lt",
        "char_gt",
        "char_lt_eq",
        "char_gt_eq",
        "char_to_string",
        "char_to_i64",
        "byte_eq",
        "byte_not_eq",
        "byte_lt",
        "byte_gt",
        "byte_lt_eq",
        "byte_gt_eq",
        "byte_to_string",
        "byte_to_i64",
        "unit_eq",
        "unit_not_eq",
        "int_to_i32",
        "float_to_f32",
        "u8_to_i32",
        "int_to_i128",
        "int_to_u128",
        "u8_to_i128",
        "u8_to_u128",
        "i32_to_i128",
        "i32_to_u128",
        "int_to_i8",
        "int_to_i16",
        "int_to_u16",
        "int_to_u32",
        "int_to_u64",
        "int_to_f32",
        "float_to_f64",
        "i8_add",
        "i8_subtract",
        "i8_times",
        "i8_divided_by",
        "i8_negate",
        "i8_eq",
        "i8_not_eq",
        "i8_lt",
        "i8_gt",
        "i8_lt_eq",
        "i8_gt_eq",
        "i8_to_string",
        "i8_to_i64",
        "u8_add",
        "u8_subtract",
        "u8_times",
        "u8_divided_by",
        "u8_eq",
        "u8_not_eq",
        "u8_lt",
        "u8_gt",
        "u8_lt_eq",
        "u8_gt_eq",
        "u8_to_string",
        "u8_to_i64",
        "i16_add",
        "i16_subtract",
        "i16_times",
        "i16_divided_by",
        "i16_negate",
        "i16_eq",
        "i16_not_eq",
        "i16_lt",
        "i16_gt",
        "i16_lt_eq",
        "i16_gt_eq",
        "i16_to_string",
        "i16_to_i64",
        "u16_add",
        "u16_subtract",
        "u16_times",
        "u16_divided_by",
        "u16_eq",
        "u16_not_eq",
        "u16_lt",
        "u16_gt",
        "u16_lt_eq",
        "u16_gt_eq",
        "u16_to_string",
        "u16_to_i64",
        "u32_add",
        "u32_subtract",
        "u32_times",
        "u32_divided_by",
        "u32_eq",
        "u32_not_eq",
        "u32_lt",
        "u32_gt",
        "u32_lt_eq",
        "u32_gt_eq",
        "u32_to_string",
        "u32_to_i64",
        "u64_add",
        "u64_subtract",
        "u64_times",
        "u64_divided_by",
        "u64_eq",
        "u64_not_eq",
        "u64_lt",
        "u64_gt",
        "u64_lt_eq",
        "u64_gt_eq",
        "u64_to_string",
        "u64_to_i64",
        "f64_add",
        "f64_subtract",
        "f64_times",
        "f64_divided_by",
        "f64_negate",
        "f64_eq",
        "f64_not_eq",
        "f64_lt",
        "f64_gt",
        "f64_lt_eq",
        "f64_gt_eq",
        "f64_to_string",
        "f64_to_f64",
        "f64_to_i64",
        "f64_ceil",
        "f64_floor",
        "f64_round",
        "f64_trunc",
];

#[test]
fn core_module_labels_are_the_module_values_labels() {
    let core = core_module_type();
    let Ty::Struct(fields) = &core else { panic!("core module is not a struct") };
    assert_eq!(fields.len(), CORE_CONSTRUCTORS.len() + CORE_BUILTINS.len());
    for (i, (name, id)) in CORE_CONSTRUCTORS.iter().enumerate() {
        assert_eq!(fields[i], (name.to_string(), Ty::TagConstructor(*id)));
    }
    for (i, name) in CORE_BUILTINS.iter().enumerate() {
        assert_eq!(fields[CORE_CONSTRUCTORS.len() + i].0, *name);
    }
}

#[test]
fn core_module_method_signatures() {
    let core = core_module_type();
    assert_eq!(
        field(&core, "array_map"),
        Some(&func(
            pair(Ty::Array(Box::new(Ty::Generic(0))), func(Ty::Generic(0), Ty::Generic(1))),
            Ty::Array(Box::new(Ty::Generic(1)))
        ))
    );
    assert_eq!(field(&core, "int_to_string"), Some(&func(Ty::Int, Ty::String)));
    assert_eq!(field(&core, "unit_eq"), Some(&func(Ty::Unit, Ty::Bool)));
    assert_eq!(field(&core, "byte_to_i64"), Some(&func(Ty::Byte, Ty::Int)));
    assert_eq!(field(&core, "i32_to_i64"), Some(&func(Ty::Infer(0), Ty::Int)));
    assert_eq!(field(&core, "f64_ceil"), Some(&func(Ty::Float, Ty::Int)));
    assert_eq!(field(&core, "no_such_entry"), None);
}

#[test]
fn payload_of_tagged_type() {
    let t = Ty::Tagged { tag_id: 20, payload: Box::new(Ty::Int) };
    assert_eq!(extract_payload_for_tag(20, &t), Some(Ty::Int));
    assert_eq!(extract_payload_for_tag(21, &t), None);
    assert_eq!(extract_payload_for_tag(TAG_ID_INT, &Ty::Int), None);
}

#[test]
fn payload_from_first_matching_union_variant() {
    let u = Ty::Union(vec![
        Ty::Tagged { tag_id: 20, payload: Box::new(Ty::Int) },
        Ty::String,
        Ty::Tagged { tag_id: 21, payload: Box::new(Ty::Bool) },
        Ty::Tagged { tag_id: 21, payload: Box::new(Ty::Char) },
    ]);
    assert_eq!(extract_payload_for_tag(21, &u), Some(Ty::Bool));
    assert_eq!(extract_payload_for_tag(20, &u), Some(Ty::Int));
    assert_eq!(extract_payload_for_tag(22, &u), None);
}

#[test]
fn tag_ids_of_primitive_types() {
    assert_eq!(ty_to_tag_id(&Ty::Int), Some(TAG_ID_INT));
    assert_eq!(ty_to_tag_id(&Ty::IntLiteral), Some(TAG_ID_INT));
    assert_eq!(ty_to_tag_id(&Ty::String), Some(TAG_ID_STRING));
    assert_eq!(ty_to_tag_id(&Ty::Array(Box::new(Ty::Bool))), Some(TAG_ID_ARRAY));
    assert_eq!(ty_to_tag_id(&Ty::Tagged { tag_id: 30, payload: Box::new(Ty::Unit) }), Some(30));
    assert_eq!(ty_to_tag_id(&Ty::Infer(0)), None);
}

#[test]
fn contains_infer_looks_inside() {
    assert!(Ty::Infer(3).contains_infer());
    assert!(Ty::Array(Box::new(Ty::Infer(0))).contains_infer());
    assert!(pair(Ty::Int, func(Ty::Bool, Ty::Infer(1))).contains_infer());
    assert!(!pair(Ty::Int, func(Ty::Bool, Ty::Generic(1))).contains_infer());
}

#[test]
fn union_add_merges_tags_and_skips_duplicates() {
    let vs = vec![Ty::Tagged { tag_id: 20, payload: Box::new(Ty::Infer(0)) }, Ty::String];
    let r = union_add(vs, Ty::Tagged { tag_id: 20, payload: Box::new(Ty::Int) }).unwrap();
    assert_eq!(
        r,
        Ty::Union(vec![Ty::Tagged { tag_id: 20, payload: Box::new(Ty::Int) }, Ty::String])
    );
    let r2 = union_add(vec![Ty::String], Ty::String).unwrap();
    assert_eq!(r2, Ty::String);
    let r3 = union_add(vec![Ty::String], Ty::Union(vec![Ty::Int, Ty::String])).unwrap();
    assert_eq!(r3, Ty::Union(vec![Ty::String, Ty::Int]));
}

#[test]
fn structural_equality_and_membership() {
    assert!(ty_eq(&pair(Ty::Int, Ty::Bool), &pair(Ty::Int, Ty::Bool)));
    assert!(!ty_eq(&pair(Ty::Int, Ty::Bool), &pair(Ty::Bool, Ty::Int)));
    assert!(contains_ty(&vec![Ty::Int, Ty::Bool], &Ty::Bool));
    assert!(!contains_ty(&vec![Ty::Int, Ty::Bool], &Ty::Char));
}

#[test]
fn ty_debug_matches_derived_debug() {
    let tys = vec![
        Ty::Int,
        Ty::String,
        Ty::Array(Box::new(Ty::Byte)),
        Ty::Struct(vec![]),
        Ty::Struct(vec![("0".to_string(), Ty::Int), ("na\"me".to_string(), Ty::Generic(2))]),
        Ty::Fn { param: Box::new(Ty::IntLiteral), ret: Box::new(Ty::Unit) },
        Ty::TagConstructor(7),
        Ty::Tagged { tag_id: 20, payload: Box::new(Ty::Infer(3)) },
        Ty::MethodSet { id: 1, tag_id: 18 },
        Ty::MethodSetConstructor,
        Ty::Union(vec![Ty::Int, Ty::Union(vec![]), Ty::FloatLiteral]),
    ];
    for t in &tys {
        assert_eq!(nana::types::ty_debug(t), format!("{:?}", t));
    }
}

#[test]
fn unify_mismatch_names_both_types() {
    assert_eq!(
        nana::types::unify(&Ty::Int, &Ty::Bool),
        Err("type error: cannot unify Int with Bool".to_string())
    );
}

#[test]
fn union_add_flattens_an_added_union() {
    let r = union_add(vec![Ty::Int], Ty::Union(vec![Ty::Bool, Ty::Int, Ty::String])).unwrap();
    assert_eq!(r, Ty::Union(vec![Ty::Int, Ty::Bool, Ty::String]));
}

#[test]
fn unify_is_symmetric_on_plain_types() {
    let pairs = vec![
        (Ty::IntLiteral, Ty::Int),
        (Ty::IntLiteral, Ty::Byte),
        (Ty::FloatLiteral, Ty::Float),
        (Ty::Array(Box::new(Ty::IntLiteral)), Ty::Array(Box::new(Ty::Int))),
        (
            Ty::Struct(vec![("a".to_string(), Ty::Int)]),
            Ty::Struct(vec![("a".to_string(), Ty::IntLiteral)]),
        ),
        (Ty::Int, Ty::Bool),
        (Ty::IntLiteral, Ty::Float),
    ];
    for (a, b) in pairs {
        let ab = nana::types::unify(&a, &b);
        let ba = nana::types::unify(&b, &a);
        assert_eq!(ab.is_ok(), ba.is_ok());
        if ab.is_ok() {
            assert_eq!(ab, ba);
        }
    }
}
