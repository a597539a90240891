use nekonomicon::list::List;

#[test]
fn test_new_list() {
    let list = List::new();
    assert_eq!(list.length(), 0);
    assert!(list.is_empty());
}

#[test]
fn test_append() {
    let mut list = List::new();
    list.append("apple".to_string());
    list.append("banana".to_string());
    list.append("cherry".to_string());

    assert_eq!(list.length(), 3);
    assert_eq!(list.get(0).unwrap(), "apple");
    assert_eq!(list.get(2).unwrap(), "cherry");
}

#[test]
fn test_prepend() {
    let mut list = List::new();
    list.prepend("first".to_string());
    list.prepend("second".to_string());

    assert_eq!(list.length(), 2);
    assert_eq!(list.get(0).unwrap(), "second");
    assert_eq!(list.get(1).unwrap(), "first");
}

#[test]
fn test_pop() {
    let mut list = List::new();
    list.append("a".to_string());
    list.append("b".to_string());
    list.append("c".to_string());

    assert_eq!(list.pop().unwrap(), "c");
    assert_eq!(list.length(), 2);
    assert_eq!(list.pop().unwrap(), "b");
    assert_eq!(list.pop().unwrap(), "a");
    assert!(list.pop().is_err());
}

#[test]
fn test_shift() {
    let mut list = List::new();
    list.append("first".to_string());
    list.append("second".to_string());
    list.append("third".to_string());

    assert_eq!(list.shift().unwrap(), "first");
    assert_eq!(list.length(), 2);
    assert_eq!(list.shift().unwrap(), "second");
    assert_eq!(list.shift().unwrap(), "third");
    assert!(list.shift().is_err());
}

#[test]
fn test_peek_end() {
    let mut list = List::new();
    list.append("one".to_string());
    list.append("two".to_string());
    list.append("three".to_string());

    assert_eq!(list.peek_end().unwrap(), "three");
    assert_eq!(list.length(), 3); // List unchanged
}

#[test]
fn test_peek_front() {
    let mut list = List::new();
    list.append("one".to_string());
    list.append("two".to_string());
    list.append("three".to_string());

    assert_eq!(list.peek_front().unwrap(), "one");
    assert_eq!(list.length(), 3); // List unchanged
}

#[test]
fn test_peek_empty_list() {
    let list = List::new();
    assert!(list.peek_end().is_err());
    assert!(list.peek_front().is_err());
}

#[test]
fn test_length() {
    let mut list = List::new();
    assert_eq!(list.length(), 0);

    list.append("item".to_string());
    assert_eq!(list.length(), 1);

    list.append("another".to_string());
    assert_eq!(list.length(), 2);

    list.pop().unwrap();
    assert_eq!(list.length(), 1);
}

#[test]
fn test_get_invalid_index() {
    let mut list = List::new();
    list.append("only".to_string());

    assert!(list.get(0).is_ok());
    assert!(list.get(1).is_err());
    assert!(list.get(10).is_err());
}

#[test]
fn test_clear() {
    let mut list = List::new();
    list.append("a".to_string());
    list.append("b".to_string());

    list.clear();
    assert_eq!(list.length(), 0);
    assert!(list.is_empty());
}

#[test]
fn test_to_string() {
    let mut list = List::new();
    list.append("apple".to_string());
    list.append("banana".to_string());

    let str_repr = list.to_string();
    assert!(str_repr.contains("apple"));
    assert!(str_repr.contains("banana"));
}

#[test]
fn test_stack_behavior() {
    // LIFO: Last In First Out
    let mut stack = List::new();
    stack.append("1".to_string());
    stack.append("2".to_string());
    stack.append("3".to_string());

    assert_eq!(stack.pop().unwrap(), "3");
    assert_eq!(stack.pop().unwrap(), "2");
    assert_eq!(stack.pop().unwrap(), "1");
}

#[test]
fn test_queue_behavior() {
    // FIFO: First In First Out
    let mut queue = List::new();
    queue.append("1".to_string());
    queue.append("2".to_string());
    queue.append("3".to_string());

    assert_eq!(queue.shift().unwrap(), "1");
    assert_eq!(queue.shift().unwrap(), "2");
    assert_eq!(queue.shift().unwrap(), "3");
}

#[test]
fn to_string_renders_brackets_and_separators() {
    let mut list = List::new();
    assert_eq!(list.to_string(), "[]");
    list.append("apple".to_string());
    assert_eq!(list.to_string(), "[apple]");
    list.append("banana".to_string());
    assert_eq!(list.to_string(), "[apple, banana]");
}

#[test]
fn free_functions_mirror_the_methods() {
    let mut list = List::from_vec(vec!["a".to_string()]);
    nekonomicon::list::append(&mut list, "b".to_string());
    nekonomicon::list::prepend(&mut list, "z".to_string());
    assert_eq!(nekonomicon::list::length(&list), 3);
    assert_eq!(nekonomicon::list::peek_front(&list).unwrap(), "z");
    assert_eq!(nekonomicon::list::peek_end(&list).unwrap(), "b");
    assert_eq!(nekonomicon::list::shift(&mut list).unwrap(), "z");
    assert_eq!(nekonomicon::list::pop(&mut list).unwrap(), "b");
    assert_eq!(list.items(), &vec!["a".to_string()]);
}

#[test]
fn error_messages_carry_their_codes() {
    let mut list = List::new();
    let e = list.pop().unwrap_err();
    assert_eq!(e.message(), "LIST-001: Cannot pop from empty list");
    let e = list.shift().unwrap_err();
    assert_eq!(e.message(), "LIST-001: Cannot shift from empty list");
    list.append("only".to_string());
    let e = list.get(10).unwrap_err();
    assert_eq!(e.message(), "LIST-002: Invalid index: 10");
    let e = nekonomicon::list::ListError::NotFound("shopping".to_string());
    assert_eq!(e.message(), "LIST-003: List not found: shopping");
}
