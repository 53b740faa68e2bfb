use zsp::parser::tree::VarRefFragment;
use zsp::runtime::reference::{follow, Pointee, RefError, RefMove};

fn array(len: usize) -> Pointee {
    Pointee { array_len: Some(len), is_object: false, has_field: false }
}

fn object(has_field: bool) -> Pointee {
    Pointee { array_len: None, is_object: true, has_field }
}

fn index() -> VarRefFragment {
    VarRefFragment::IndexInto(vec![])
}

fn property() -> VarRefFragment {
    VarRefFragment::ObjectProperty("f".to_string())
}

#[test]
fn reading_an_element_inside_the_array() {
    assert_eq!(follow(&index(), 1, &array(3), false, true), Ok(RefMove::Element { index: 1, grow_to: 3 }));
}

#[test]
fn reading_past_the_end_fails() {
    assert_eq!(follow(&index(), 3, &array(3), false, true), Err(RefError::IndexOutOfRange));
}

#[test]
fn assigning_past_the_end_grows_the_array() {
    assert_eq!(follow(&index(), 5, &array(3), true, true), Ok(RefMove::Element { index: 5, grow_to: 6 }));
}

#[test]
fn only_the_last_index_of_an_assignment_grows() {
    assert_eq!(follow(&index(), 5, &array(3), true, false), Err(RefError::IndexOutOfRange));
}

#[test]
fn indexing_a_non_array_fails() {
    assert_eq!(follow(&index(), 0, &object(false), false, true), Err(RefError::NotAnArray));
}

#[test]
fn properties_are_read_or_added_on_assignment() {
    assert_eq!(follow(&property(), 0, &object(true), false, true), Ok(RefMove::Field));
    assert_eq!(follow(&property(), 0, &object(false), true, false), Ok(RefMove::NewField));
    assert_eq!(follow(&property(), 0, &object(false), false, true), Err(RefError::UnknownField));
    let number = Pointee { array_len: None, is_object: false, has_field: false };
    assert_eq!(follow(&property(), 0, &number, true, true), Err(RefError::UnknownField));
}

#[test]
fn method_and_lambda_calls() {
    let method = VarRefFragment::ObjectCall { name: "len".to_string(), args: vec![] };
    assert_eq!(follow(&method, 0, &object(true), false, true), Ok(RefMove::CallField));
    assert_eq!(follow(&method, 0, &object(false), true, true), Err(RefError::UnknownMethod));
    let call = VarRefFragment::LambdaCall(vec![]);
    assert_eq!(follow(&call, 0, &array(0), false, true), Ok(RefMove::CallValue));
}
