use mirrorscope::model::Variable;

#[test]
fn new_has_no_type_hint() {
    let var = Variable::new("x", "42");
    assert_eq!(var.type_hint, None);
}

#[test]
fn with_type_carries_hint() {
    let var = Variable::with_type("x", "42", "i32");
    assert_eq!(var.type_hint.as_deref(), Some("i32"));
}
