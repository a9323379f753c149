use chainrule::graph::Graph;
use chainrule::identity::{FreeList, Id, IdGenerator};

#[test]
fn fresh_counts_from_one() {
    let mut ids = FreeList::new();
    assert_eq!(ids.fresh(), Id(1));
    assert_eq!(ids.fresh(), Id(2));
    assert_eq!(ids.fresh(), Id(3));
}

#[test]
fn released_identifiers_come_back_oldest_first() {
    let mut ids = FreeList::new();
    let a = ids.fresh();
    let b = ids.fresh();
    let c = ids.fresh();
    ids.release(b);
    ids.release(a);
    assert_eq!(ids.fresh(), b);
    assert_eq!(ids.fresh(), a);
    assert_eq!(ids.fresh(), Id(4));
    assert_ne!(c, Id(4));
}

#[test]
fn default_allocator_is_new() {
    let mut ids = FreeList::default();
    assert_eq!(ids.fresh(), Id(1));
}

#[test]
fn duplicate_continues_where_the_original_stands() {
    let mut ids = FreeList::new();
    let a = ids.fresh();
    ids.fresh();
    ids.release(a);
    let mut copy = ids.duplicate();
    assert_eq!(copy.fresh(), a);
    assert_eq!(copy.fresh(), Id(3));
    assert_eq!(ids.fresh(), a);
}

#[test]
fn room_is_counted_from_counter_and_free_list() {
    let mut ids = FreeList::new();
    assert!(ids.has_room(usize::MAX));
    ids.fresh();
    assert!(ids.has_room(usize::MAX - 1));
    assert!(!ids.has_room(usize::MAX));
    ids.release(Id(1));
    assert!(ids.has_room(usize::MAX));
}

#[test]
fn graph_issues_identifiers_in_sequence() {
    let mut g = Graph::new();
    assert_eq!(g.len(), 0);
    assert_eq!(g.fresh(), Id(1));
    assert_eq!(g.fresh(), Id(2));
    assert!(g.has_room(10));
    let mut copy = g.clone();
    assert_eq!(copy.fresh(), Id(3));
    assert_eq!(g.fresh(), Id(3));
}

#[test]
fn identifiers_are_ordered() {
    assert!(Id(1) < Id(2));
    assert_eq!(Id(7), Id(7));
}
