use corro_api_types::{bind_slots, Binding};

fn names(list: &[Option<&str>]) -> Vec<Option<String>> {
    list.iter().map(|n| n.map(str::to_string)).collect()
}

#[test]
fn named_parameters_take_precedence() {
    let slots = names(&[Some(":a"), None, Some("@b"), Some(":zz")]);
    let keys = vec!["b".to_string(), ":a".to_string()];
    let b = bind_slots(&slots, 3, &keys);
    assert_eq!(b, vec![Binding::Named(1), Binding::Positional(1), Binding::Named(0), Binding::Unbound]);
}

#[test]
fn positional_parameters_fill_by_position() {
    let slots = names(&[None, None, None]);
    let b = bind_slots(&slots, 2, &vec![]);
    assert_eq!(b, vec![Binding::Positional(0), Binding::Positional(1), Binding::Unbound]);
    let named_slot = names(&[Some("$x")]);
    assert_eq!(bind_slots(&named_slot, 1, &vec!["y".to_string()]), vec![Binding::Positional(0)]);
}
