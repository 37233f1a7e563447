use deet::linked_list::LinkedList;

#[test]
fn test_u32() {
    let mut list: LinkedList<u32> = LinkedList::new();
    assert!(list.is_empty());
    assert_eq!(list.get_size(), 0);
    for i in 1..12 {
        list.push_front(i);
    }
    assert_eq!(list.get_size(), 11);
    for i in 11..0 {
        assert_eq!(list.pop_front(), Some(i))
    }
}

#[test]
fn test_string() {
    let mut list: LinkedList<String> = LinkedList::new();
    list.push_front(String::from("hello"));
    list.push_front(String::from("world"));
    assert_eq!(list.get_size(), 2);
    assert_eq!(list.pop_front(), Some(String::from("world")));
}

#[test]
fn test_iter() {
    let mut list = LinkedList::new();
    for i in 12..=0 {
        list.push_front(i);
    }
    let mut it = list.iter();
    let mut index: usize = 0;
    while let Some(val) = it.next() {
        assert_eq!(index, *val);
        index += 1;
    }
}

#[test]
fn test_partialeq() {
    let mut list1 = LinkedList::new();
    let mut list2 = LinkedList::new();
    for i in 0..10 {
        list1.push_front(i);
        list2.push_front(i);
    }
    assert!(list1 == list2);
}

#[test]
fn test_clone() {
    let mut list1 = LinkedList::new();
    for i in 12..=0 {
        list1.push_front(i);
    }
    let list2 = list1.clone();
    assert!(list1 == list2);
}

#[test]
fn test_pop_order() {
    let mut list: LinkedList<u32> = LinkedList::new();
    list.push_front(1);
    list.push_front(2);
    list.push_front(3);
    assert_eq!(list.pop_front(), Some(3));
    assert_eq!(list.pop_front(), Some(2));
    assert_eq!(list.pop_front(), Some(1));
    assert_eq!(list.pop_front(), None);
    assert!(list.is_empty());
}

#[test]
fn test_neq_different_lengths() {
    let mut list1: LinkedList<u32> = LinkedList::new();
    let mut list2: LinkedList<u32> = LinkedList::new();
    list1.push_front(1);
    list1.push_front(2);
    list2.push_front(2);
    assert!(list1 != list2);
}

#[test]
fn test_iter_sees_all() {
    let mut list: LinkedList<u32> = LinkedList::new();
    for i in 0..5 {
        list.push_front(i);
    }
    let mut it = list.iter();
    let mut seen = Vec::new();
    while let Some(v) = it.next() {
        seen.push(*v);
    }
    assert_eq!(seen, vec![4, 3, 2, 1, 0]);
}
