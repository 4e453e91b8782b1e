//! Utility routines and the value list.

use earlyboot::heap::buddy::Node;
use earlyboot::ip_collections::{Keyed, LinkedList};
use earlyboot::util::{log2_usize, range_contains, str_eq, MemRange};

#[test]
fn log2_is_the_floor_logarithm() {
    assert_eq!(log2_usize(1), 0);
    assert_eq!(log2_usize(2), 1);
    assert_eq!(log2_usize(3), 1);
    assert_eq!(log2_usize(128), 7);
    assert_eq!(log2_usize(255), 7);
    assert_eq!(log2_usize(256), 8);
    assert_eq!(log2_usize(u64::MAX), 63);
}

#[test]
fn range_containment_is_inclusive_of_the_child() {
    let parent = MemRange { start: 0x100, end: 0x200 };
    assert!(range_contains(&parent, &MemRange { start: 0x100, end: 0x200 }));
    assert!(range_contains(&parent, &MemRange { start: 0x180, end: 0x1c0 }));
    assert!(!range_contains(&parent, &MemRange { start: 0x80, end: 0x180 }));
    assert!(!range_contains(&parent, &MemRange { start: 0x180, end: 0x280 }));
    assert!(!range_contains(&parent, &MemRange { start: 0x180, end: 0x180 }));
}

#[test]
fn str_eq_compares_by_content() {
    assert!(str_eq("abc", "abc"));
    assert!(!str_eq("abc", "abd"));
    assert!(!str_eq("abc", "ab"));
    assert!(str_eq("", ""));
}

#[test]
fn linked_list_keeps_entries_sorted_by_key() {
    let mut l: LinkedList<Node> = LinkedList::new();
    assert!(l.is_empty());
    l.insert(Node { addr: 0x300, order: 7 });
    l.insert(Node { addr: 0x100, order: 7 });
    l.insert(Node { addr: 0x200, order: 7 });
    assert!(!l.is_empty());
    assert_eq!(l.pop_front().unwrap().addr, 0x100);
    assert_eq!(l.pop_front().unwrap().addr, 0x200);
    assert_eq!(l.pop_front().unwrap().addr, 0x300);
    assert!(l.pop_front().is_none());
}

#[test]
fn linked_list_removes_by_key() {
    let mut l: LinkedList<Node> = LinkedList::new();
    l.insert(Node { addr: 0x100, order: 7 });
    l.insert(Node { addr: 0x200, order: 7 });
    assert!(l.remove(0x180).is_none());
    let n = l.remove(0x200).unwrap();
    assert_eq!(n.key(), 0x200);
    assert_eq!(l.pop_front().unwrap().addr, 0x100);
    assert!(l.is_empty());
}

#[test]
fn linked_list_push_ends() {
    let mut l: LinkedList<u64> = LinkedList::new();
    l.push_back(2);
    l.push_front(1);
    l.push_back(3);
    assert_eq!(l.pop_front(), Some(1));
    assert_eq!(l.pop_front(), Some(2));
    assert_eq!(l.pop_front(), Some(3));
}
