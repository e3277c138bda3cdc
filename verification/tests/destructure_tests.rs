use nana::ast::{ArrayPat, PatField, Pattern};
use nana::destructure::{array_plan, struct_plan, ElemSource, FieldSource};

fn labels(ls: &[&str]) -> Vec<String> {
    ls.iter().map(|l| l.to_string()).collect()
}

fn field(label: Option<&str>, binding: &str, is_rest: bool) -> PatField {
    PatField { label: label.map(|l| l.to_string()), binding: binding.to_string(), is_rest }
}

fn names(ns: &[&str]) -> Pattern {
    Pattern::Fields(ns.iter().map(|n| field(None, n, false)).collect())
}

#[test]
fn name_pattern_takes_the_whole_value() {
    let plan = struct_plan(&Pattern::Name("x".into()), None).unwrap();
    assert_eq!(plan, vec![("x".to_string(), FieldSource::Whole)]);
    assert_eq!(struct_plan(&Pattern::Discard, None).unwrap(), vec![]);
}

#[test]
fn positional_fields_bind_in_order() {
    let ls = labels(&["0", "1"]);
    let plan = struct_plan(&names(&["a", "b"]), Some(&ls)).unwrap();
    assert_eq!(plan, vec![("a".to_string(), FieldSource::Field(0)), ("b".to_string(), FieldSource::Field(1))]);
}

#[test]
fn names_bind_to_fields_of_the_same_name() {
    let ls = labels(&["x", "y"]);
    let plan = struct_plan(&names(&["y", "x"]), Some(&ls)).unwrap();
    assert_eq!(plan, vec![("y".to_string(), FieldSource::Field(1)), ("x".to_string(), FieldSource::Field(0))]);
}

#[test]
fn rest_pattern_takes_the_remaining_fields() {
    let ls = labels(&["x", "y", "2"]);
    let pat = Pattern::Fields(vec![field(Some("x"), "a", false), field(None, "rest", true)]);
    let plan = struct_plan(&pat, Some(&ls)).unwrap();
    assert_eq!(
        plan,
        vec![
            ("a".to_string(), FieldSource::Field(0)),
            ("rest".to_string(), FieldSource::Rest(vec![("y".to_string(), 1), ("0".to_string(), 2)])),
        ]
    );
}

#[test]
fn struct_pattern_errors() {
    let mixed = labels(&["0", "x"]);
    assert_eq!(
        struct_plan(&names(&["x", "q"]), Some(&mixed)),
        Err("partial name match in destructuring: either all names must match struct fields or none".to_string())
    );
    let named = labels(&["x", "y"]);
    assert_eq!(struct_plan(&names(&["x", "q"]), Some(&named)), Err("field 'q' not found in struct".to_string()));
    let pair = labels(&["0", "1"]);
    assert_eq!(
        struct_plan(&names(&["a"]), Some(&pair)),
        Err("too many fields in struct: pattern expects 1 but got 2".to_string())
    );
    assert_eq!(
        struct_plan(&names(&["a"]), None),
        Err("cannot destructure non-struct value with let(...)".to_string())
    );
    let one = labels(&["0"]);
    let labeled = Pattern::Fields(vec![field(Some("z"), "a", false)]);
    assert_eq!(struct_plan(&labeled, Some(&one)), Err("field 'z' not found in struct".to_string()));
}

#[test]
fn array_pattern_with_rest_in_the_middle() {
    let pats = vec![ArrayPat::Name("a".into()), ArrayPat::Rest(Some("r".into())), ArrayPat::Name("z".into())];
    let plan = array_plan(&pats, 5).unwrap();
    assert_eq!(
        plan,
        vec![
            ("a".to_string(), ElemSource::Elem(0)),
            ("r".to_string(), ElemSource::Slice(1, 4)),
            ("z".to_string(), ElemSource::Elem(4)),
        ]
    );
}

#[test]
fn array_pattern_errors() {
    let two = vec![ArrayPat::Name("a".into()), ArrayPat::Discard];
    assert_eq!(array_plan(&two, 1), Err("not enough elements in array for destructuring".to_string()));
    let one = vec![ArrayPat::Name("a".into())];
    assert_eq!(array_plan(&one, 2), Err("too many elements in array: pattern expects 1 but got 2".to_string()));
    let rest_only = vec![ArrayPat::Rest(None)];
    assert_eq!(array_plan(&rest_only, 3), Ok(vec![]));
}

use nana::args::{prepend_labels, rest_arg_plan, RestArg};

#[test]
fn rest_arg_after_the_receiver() {
    assert_eq!(rest_arg_plan(&labels(&["0"])), RestArg::Unit);
    assert_eq!(rest_arg_plan(&labels(&["0", "1"])), RestArg::Single(1));
    assert_eq!(
        rest_arg_plan(&labels(&["0", "1", "2"])),
        RestArg::Struct(vec![("0".to_string(), 1), ("1".to_string(), 2)])
    );
    assert_eq!(
        rest_arg_plan(&labels(&["0", "f", "2"])),
        RestArg::Struct(vec![("f".to_string(), 1), ("0".to_string(), 2)])
    );
    assert_eq!(rest_arg_plan(&labels(&["0", "f"])), RestArg::Struct(vec![("f".to_string(), 1)]));
}

#[test]
fn prepending_the_receiver_shifts_positional_labels() {
    assert_eq!(prepend_labels(&labels(&["0", "1", "f"])), labels(&["0", "1", "2", "f"]));
    assert_eq!(prepend_labels(&labels(&[])), labels(&["0"]));
}
