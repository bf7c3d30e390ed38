use exchange_loop::Registry;

#[test]
fn new_registry_is_empty() {
    let registry: Registry<String> = Registry::new();
    assert!(registry.is_empty());
    assert_eq!(registry.len(), 0);
    assert!(!registry.contains(0));
    assert_eq!(registry.get(0), None);
}

#[test]
fn insert_puts_a_connection_under_its_token() {
    let mut registry = Registry::new();
    assert_eq!(registry.insert(2, "first".to_string()), None);
    assert_eq!(registry.insert(3, "second".to_string()), None);
    assert_eq!(registry.len(), 2);
    assert!(!registry.is_empty());
    assert!(registry.contains(2));
    assert!(registry.contains(3));
    assert!(!registry.contains(4));
    assert_eq!(registry.get(2), Some(&"first".to_string()));
    assert_eq!(registry.get(3), Some(&"second".to_string()));
}

#[test]
fn insert_under_a_taken_token_hands_back_the_old_connection() {
    let mut registry = Registry::new();
    registry.insert(2, 'a');
    assert_eq!(registry.insert(2, 'b'), Some('a'));
    assert_eq!(registry.len(), 1);
    assert_eq!(registry.get(2), Some(&'b'));
}

#[test]
fn remove_takes_the_connection_out() {
    let mut registry = Registry::new();
    registry.insert(2, 'a');
    registry.insert(3, 'b');
    assert_eq!(registry.remove(2), Some('a'));
    assert_eq!(registry.remove(2), None);
    assert_eq!(registry.remove(9), None);
    assert_eq!(registry.len(), 1);
    assert!(!registry.contains(2));
    assert_eq!(registry.get(3), Some(&'b'));
}

#[test]
fn get_mut_changes_one_connection_only() {
    let mut registry = Registry::new();
    registry.insert(2, vec![1u8]);
    registry.insert(3, vec![2u8]);
    match registry.get_mut(2) {
        Some(connection) => connection.push(7),
        None => panic!("token 2 is registered"),
    }
    assert!(registry.get_mut(4).is_none());
    assert_eq!(registry.get(2), Some(&vec![1u8, 7]));
    assert_eq!(registry.get(3), Some(&vec![2u8]));
    assert_eq!(registry.len(), 2);
}
