use std::collections::HashMap;
use steel::data::{Data, Limit, Value};
use steel::ecs::{eid_index, find_position, vec_remove_first, DEAD};
use steel::edit::Edit;
use steel::hierarchy::{attach_after, attach_before, hierarchy_maintain_system, Children, Hierarchy, Parent};

fn empty_world() -> (Hierarchy, HashMap<u64, Children>, HashMap<u64, Parent>) {
    (Hierarchy::new(), HashMap::new(), HashMap::new())
}

#[test]
fn eid_index_of_shipyard_ids() {
    assert_eq!(eid_index(1), 0);
    assert_eq!(eid_index(5), 4);
    // the generation in the high bits does not change the index
    assert_eq!(eid_index((3u64 << 48) | 7), 6);
}

#[test]
fn find_and_remove_first() {
    let mut v = vec![3u64, 5, 3, 9];
    assert_eq!(find_position(&v, 3), Some(0));
    assert_eq!(find_position(&v, 9), Some(3));
    assert_eq!(find_position(&v, 4), None);
    assert!(vec_remove_first(&mut v, 3));
    assert_eq!(v, vec![5, 3, 9]);
    assert!(!vec_remove_first(&mut v, 4));
    assert_eq!(v, vec![5, 3, 9]);
}

#[test]
fn attach_roots_in_order() {
    let (mut h, mut c, mut p) = empty_world();
    attach_before(&mut h, &mut c, &mut p, 1, DEAD, DEAD);
    attach_before(&mut h, &mut c, &mut p, 2, DEAD, DEAD);
    // before 2
    attach_before(&mut h, &mut c, &mut p, 3, DEAD, 2);
    assert_eq!(h.roots(), &vec![1, 3, 2]);
    // after dead: first
    attach_after(&mut h, &mut c, &mut p, 4, DEAD, DEAD);
    assert_eq!(h.roots(), &vec![4, 1, 3, 2]);
    attach_after(&mut h, &mut c, &mut p, 5, DEAD, 1);
    assert_eq!(h.roots(), &vec![4, 1, 5, 3, 2]);
    assert!(c.is_empty());
    assert!(p.is_empty());
}

#[test]
fn attach_child_moves_entity() {
    let (mut h, mut c, mut p) = empty_world();
    for e in [1u64, 2, 3] {
        attach_before(&mut h, &mut c, &mut p, e, DEAD, DEAD);
    }
    // 2 becomes the only child of 1: a Children component is created
    attach_before(&mut h, &mut c, &mut p, 2, 1, DEAD);
    assert_eq!(h.roots(), &vec![1, 3]);
    assert_eq!(c.get(&1).unwrap().entities(), &vec![2]);
    assert_eq!(p.get(&2).unwrap().entity(), 1);
    // 3 before 2 under 1
    attach_before(&mut h, &mut c, &mut p, 3, 1, 2);
    assert_eq!(h.roots(), &vec![1]);
    assert_eq!(c.get(&1).unwrap().entities(), &vec![3, 2]);
    // 3 after 2
    attach_after(&mut h, &mut c, &mut p, 3, 1, 2);
    assert_eq!(c.get(&1).unwrap().entities(), &vec![2, 3]);
    // move 2 back to the top level, after 1: the Children of 1 keeps 3
    attach_after(&mut h, &mut c, &mut p, 2, DEAD, 1);
    assert_eq!(h.roots(), &vec![1, 2]);
    assert_eq!(c.get(&1).unwrap().entities(), &vec![3]);
    assert!(p.get(&2).is_none());
    // move 3 to the top level: the Children of 1 becomes empty and is removed
    attach_before(&mut h, &mut c, &mut p, 3, DEAD, DEAD);
    assert!(c.get(&1).is_none());
    assert_eq!(h.roots(), &vec![1, 2, 3]);
}

#[test]
fn maintain_adds_new_roots_and_removes_dead() {
    let (mut h, mut c, p) = empty_world();
    let to_delete = hierarchy_maintain_system(&mut h, &mut c, &p, &vec![], &vec![1, 2, 3]);
    assert!(to_delete.is_empty());
    assert_eq!(h.roots(), &vec![1, 2, 3]);
    // 2 was deleted
    let to_delete = hierarchy_maintain_system(&mut h, &mut c, &p, &vec![], &vec![1, 3]);
    assert!(to_delete.is_empty());
    assert_eq!(h.roots(), &vec![1, 3]);
}

#[test]
fn maintain_deletes_descendants_of_dead_entities() {
    let (mut h, mut c, mut p) = empty_world();
    for e in [1u64, 2, 3, 4] {
        attach_before(&mut h, &mut c, &mut p, e, DEAD, DEAD);
    }
    attach_before(&mut h, &mut c, &mut p, 2, 1, DEAD);
    attach_before(&mut h, &mut c, &mut p, 3, 2, DEAD);
    // entity 1 is deleted with its Parent-less state; 2 and 3 remain alive for now
    p.remove(&1);
    let to_delete = hierarchy_maintain_system(&mut h, &mut c, &p, &vec![], &vec![2, 3, 4]);
    let mut to_delete = to_delete;
    to_delete.sort();
    assert_eq!(to_delete, vec![2, 3]);
    assert_eq!(h.roots(), &vec![4]);
}

#[test]
fn maintain_removes_deleted_child_from_parent() {
    let (mut h, mut c, mut p) = empty_world();
    for e in [1u64, 2, 3] {
        attach_before(&mut h, &mut c, &mut p, e, DEAD, DEAD);
    }
    attach_before(&mut h, &mut c, &mut p, 2, 1, DEAD);
    attach_before(&mut h, &mut c, &mut p, 3, 1, DEAD);
    // 2 is deleted: its Parent component (2 -> 1) is reported deleted
    p.remove(&2);
    let to_delete = hierarchy_maintain_system(&mut h, &mut c, &p, &vec![(2, 1)], &vec![1, 3]);
    assert!(to_delete.is_empty());
    assert_eq!(c.get(&1).unwrap().entities(), &vec![3]);
    // 3 is deleted too: the Children of 1 is removed
    p.remove(&3);
    hierarchy_maintain_system(&mut h, &mut c, &p, &vec![(3, 1)], &vec![1]);
    assert!(c.get(&1).is_none());
    assert_eq!(h.roots(), &vec![1]);
}

#[test]
fn parent_edit_roundtrip() {
    let p = Parent(7);
    let d = p.get_data();
    assert_eq!(d.get("unnamed-0"), Some(&Value::Entity(7)));
    assert_eq!(d.limits, vec![("unnamed-0".to_string(), Limit::ReadOnly)]);
    let mut q = Parent(3);
    q.set_data(&d);
    assert_eq!(q, Parent(7));
    assert_eq!(<Parent as Edit>::name(), "Parent");
    // data without the value leaves it
    q.set_data(&Data::new());
    assert_eq!(q, Parent(7));
    // a value of another type is ignored
    q.set_data(&Data::new().insert("unnamed-0", Value::UInt32(1)));
    assert_eq!(q, Parent(7));
}

#[test]
fn children_and_hierarchy_edit_roundtrip() {
    let c = Children(vec![4, 5]);
    let d = c.get_data();
    assert_eq!(d.get("unnamed-0"), Some(&Value::VecEntity(vec![4, 5])));
    let mut c2 = Children::default();
    c2.set_data(&d);
    assert_eq!(c2.entities(), &vec![4, 5]);
    assert_eq!(<Children as Edit>::name(), "Children");

    let mut h = Hierarchy::new();
    h.roots = vec![1, 2];
    let d = h.get_data();
    assert_eq!(d.get("roots"), Some(&Value::VecEntity(vec![1, 2])));
    let h2 = <Hierarchy as Edit>::from(&d);
    assert_eq!(h2.roots(), &vec![1, 2]);
    assert_eq!(<Hierarchy as Edit>::name(), "Hierarchy");
}

#[test]
fn maintain_adds_missing_children() {
    let (mut h, mut c, mut p) = empty_world();
    for e in [1u64, 2] {
        attach_before(&mut h, &mut c, &mut p, e, DEAD, DEAD);
    }
    attach_before(&mut h, &mut c, &mut p, 2, 1, DEAD);
    // Parent components added without the Children of their parent: 3 -> 1, 4 -> 9 (9 is dead)
    p.insert(3, Parent(1));
    p.insert(4, Parent(9));
    let mut to_delete = hierarchy_maintain_system(&mut h, &mut c, &p, &vec![], &vec![1, 2, 3, 4]);
    to_delete.sort();
    assert_eq!(c.get(&1).unwrap().entities(), &vec![2, 3]);
    assert!(c.get(&9).is_none());
    // 4 hangs under a dead parent
    assert_eq!(to_delete, vec![4]);
    // the children are not added twice
    hierarchy_maintain_system(&mut h, &mut c, &p, &vec![], &vec![1, 2, 3]);
    assert_eq!(c.get(&1).unwrap().entities(), &vec![2, 3]);
}
