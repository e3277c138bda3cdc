use nana::labels::{check_named_labels, positional_label, spread_labels};

fn strs(v: &[&str]) -> Vec<String> {
    v.iter().map(|s| s.to_string()).collect()
}

#[test]
fn named_labels_must_not_repeat() {
    assert_eq!(check_named_labels(&strs(&["a", "b", "c"])), Ok(()));
    assert_eq!(check_named_labels(&strs(&[])), Ok(()));
    assert_eq!(
        check_named_labels(&strs(&["a", "b", "b", "a"])),
        Err("duplicate field label 'b' in struct".to_string())
    );
}

#[test]
fn positional_labels_are_numbers() {
    assert_eq!(positional_label(0), "0");
    assert_eq!(positional_label(12), "12");
}

#[test]
fn spread_renumbers_overrides_and_adds() {
    let (labels, next) = spread_labels(&strs(&["0", "x", "1", "y"]), &strs(&["y"]), &strs(&["0", "z"]), 1).unwrap();
    assert_eq!(labels, vec![Some("1".to_string()), Some("x".to_string()), Some("2".to_string()), None]);
    assert_eq!(next, 3);
}

#[test]
fn spread_rejects_a_label_already_present() {
    assert_eq!(
        spread_labels(&strs(&["x"]), &strs(&[]), &strs(&["x"]), 0),
        Err("duplicate field label 'x' in struct (from spread)".to_string())
    );
    assert_eq!(
        spread_labels(&strs(&["x", "x"]), &strs(&[]), &strs(&[]), 0),
        Err("duplicate field label 'x' in struct (from spread)".to_string())
    );
}
