use zerosh::arraystack::ArrayStack;
use zerosh::dequeue::Deque;
use zerosh::dlist::DLList;

#[test]
fn test_resize() {
    let mut array: ArrayStack<i32> = ArrayStack::new(1);
    array.resize();
    assert_eq!(array.a.len(), 1);
    assert_eq!(array.n, 0);

    array.add(0, 0);
    assert_eq!(array.a.len(), 1);
    assert_eq!(array.n, 1);
}

#[test]
fn test_array_stack() {
    let mut array = ArrayStack::new(6);
    array.add(0, "b");
    array.add(1, "r");
    array.add(2, "e");
    array.add(3, "d");
    assert_eq!(array.a, vec!["b", "r", "e", "d", "", ""]);
    assert_eq!(array.n, 4);
    array.add(2, "e");
    assert_eq!(array.a, vec!["b", "r", "e", "e", "d", ""]);
    assert_eq!(array.n, 5);
    array.add(5, "r");
    assert_eq!(array.a, vec!["b", "r", "e", "e", "d", "r"]);
    assert_eq!(array.n, 6);
    array.add(5, "e");
    assert_eq!(
        array.a,
        vec!["b", "r", "e", "e", "d", "e", "r", "", "", "", "", ""]
    );
    assert_eq!(array.n, 7);
}

#[test]
fn test_clone_list() {
    let mut list = DLList::new();
    list.add(0, 'a');
    list.add(1, 'b');
    list.add(2, 'c');
    list.add(3, 'd');
    list.add(4, 'e');
    assert_eq!(list.size(), 5);
    assert_eq!(list.get(0).unwrap(), 'a');
    assert_eq!(list.get(1).unwrap(), 'b');
    assert_eq!(list.get(2).unwrap(), 'c');
    assert_eq!(list.get(3).unwrap(), 'd');
    assert_eq!(list.get(4).unwrap(), 'e');

    list.remove(3);
    assert_eq!(list.size(), 4);
    assert_eq!(list.get(0).unwrap(), 'a');
    assert_eq!(list.get(1).unwrap(), 'b');
    assert_eq!(list.get(2).unwrap(), 'c');
    assert_eq!(list.get(3).unwrap(), 'e');
}

#[test]
fn array_stack_set_and_remove() {
    let mut array: ArrayStack<i32> = ArrayStack::new(2);
    array.add(0, 10);
    array.add(1, 20);
    array.add(1, 15);
    assert_eq!(array.n, 3);
    let old = array.set(1, 16);
    assert_eq!(old, 15);
    assert_eq!(array.remove(1), 16);
    assert_eq!(array.remove(0), 10);
    assert_eq!(array.n, 1);
    assert_eq!(*array.get(0).unwrap(), 20);
}

#[test]
fn dlist_links_walk_both_ways() {
    let mut list = DLList::new();
    list.add(0, 1);
    list.add(1, 2);
    list.add(2, 3);
    // a handle for each position, and the end handle past the last cell
    for i in 0..3usize {
        let link = list.get_link(i);
        assert_eq!(link.0, Some(i));
    }
    assert_eq!(list.get_link(3).0, None);
    let old = list.set(1, 9);
    assert_eq!(old, 2);
    list.add_before(list.get_link(1), 7);
    assert_eq!(list.get(1).unwrap(), 7);
    assert_eq!(list.get(2).unwrap(), 9);
    list.remove_node(list.get_link(0));
    assert_eq!(list.size(), 3);
    assert_eq!(list.get(0).unwrap(), 7);
}

#[test]
fn dlist_as_deque() {
    let mut list: DLList<u32> = DLList::new();
    list.add_last(2);
    list.add_first(1);
    list.add_last(3);
    assert_eq!(list.remove_first(), Some(1));
    assert_eq!(list.remove_last(), Some(3));
    assert_eq!(list.remove_last(), Some(2));
    assert_eq!(list.remove_first(), None);
    assert_eq!(list.remove_last(), None);
}
