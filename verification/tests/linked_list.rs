use linked_list::LinkedList;

#[test]
fn test_push_pop() {
    let mut list = LinkedList::new();
    list.push("three".to_string());
    list.push("two".to_string());
    list.push("one".to_string());

    assert_eq!(list.pop(), Some("one".to_string()));
    assert_eq!(list.pop(), Some("two".to_string()));
    assert_eq!(list.pop(), Some("three".to_string()));
    assert_eq!(list.pop(), None);
}

#[test]
fn test_len() {
    let mut list = LinkedList::new();
    assert_eq!(list.len(), 0);
    list.push("hello".to_string());
    assert_eq!(list.len(), 1);
    list.push("world".to_string());
    assert_eq!(list.len(), 2);
    list.pop();
    assert_eq!(list.len(), 1);
    list.pop();
    assert_eq!(list.len(), 0);
}

#[test]
fn test_is_empty() {
    let mut list = LinkedList::new();
    assert!(list.is_empty());
    list.push("test".to_string());
    assert!(!list.is_empty());
    list.pop();
    assert!(list.is_empty());
}

#[test]
fn test_peek() {
    let mut list = LinkedList::new();
    assert_eq!(list.peek(), None);
    list.push("first".to_string());
    assert_eq!(list.peek(), Some(&"first".to_string()));
    list.push("second".to_string());
    assert_eq!(list.peek(), Some(&"second".to_string()));
}

#[test]
fn test_display() {
    let mut list = LinkedList::new();
    assert_eq!(list.to_string(), "[]");
    list.push("a".to_string());
    assert_eq!(list.to_string(), "[a]");
    list.push("b".to_string());
    assert_eq!(list.to_string(), "[b, a]");
    list.push("c".to_string());
    assert_eq!(list.to_string(), "[c, b, a]");
}

#[test]
fn test_iter() {
    let mut list = LinkedList::new();
    list.push("c".to_string());
    list.push("b".to_string());
    list.push("a".to_string());

    let mut iter = list.iter();
    assert_eq!(iter.next(), Some(&"a".to_string()));
    assert_eq!(iter.next(), Some(&"b".to_string()));
    assert_eq!(iter.next(), Some(&"c".to_string()));
    assert_eq!(iter.next(), None);
}

#[test]
fn test_iter_mut() {
    let mut list = LinkedList::new();
    list.push("c".to_string());
    list.push("b".to_string());
    list.push("a".to_string());

    let mut iter = list.iter_mut();
    while let Some(item) = iter.next() {
        item.push_str("!");
    }
    assert_eq!(list.to_string(), "[a!, b!, c!]");
}

#[test]
fn test_peek_matches_next_pop() {
    let mut list = LinkedList::new();
    list.push("bottom".to_string());
    list.push("top".to_string());
    while !list.is_empty() {
        let ahead = list.peek().cloned();
        let popped = list.pop();
        assert_eq!(ahead, popped);
    }
    assert_eq!(list.peek(), None);
    assert_eq!(list.pop(), None);
}

#[test]
fn test_append_each() {
    let mut list = LinkedList::new();
    list.push("c".to_string());
    list.push("b".to_string());
    list.push("a".to_string());
    list.append_each("!");
    assert_eq!(list.to_string(), "[a!, b!, c!]");

    let mut empty = LinkedList::new();
    empty.append_each("!");
    assert_eq!(empty.to_string(), "[]");
}

#[test]
fn test_clear() {
    let mut list = LinkedList::new();
    list.push("x".to_string());
    list.push("y".to_string());
    list.clear();
    assert!(list.is_empty());
    assert_eq!(list.len(), 0);
    assert_eq!(list.to_string(), "[]");
    list.push("z".to_string());
    assert_eq!(list.pop(), Some("z".to_string()));
}

#[test]
fn test_large_teardown() {
    let mut list = LinkedList::new();
    let count: usize = 1_000_000;
    for i in 0..count {
        list.push(format!("{}", i));
    }
    assert_eq!(list.len(), count);
    list.clear();
    assert!(list.is_empty());
}
