use std::collections::{HashMap, HashSet};
use steel::data::{Data, Value};
use steel::ecs::DEAD;
use steel::edit::Edit;
use steel::entityinfo::EntityInfo;
use steel::name::Name;
use steel::schedule::{Schedule, Systems, TIME_MAINTAIN_SYSTEM_ORDER};
use steel::transform::final_model_chain;

#[test]
fn entity_info_and_name() {
    let e = EntityInfo::new("Player".to_string());
    assert_eq!(e.name, "Player");
    let d = e.get_data();
    assert_eq!(d.get("name"), Some(&Value::String("Player".to_string())));
    assert!(d.limits.is_empty());
    let e2 = <EntityInfo as Edit>::from(&d);
    assert_eq!(e2, e);
    assert_eq!(<EntityInfo as Edit>::name(), "EntityInfo");
    assert_eq!(EntityInfo::default().name, "");

    let n = Name::new("Box".to_string());
    assert_eq!(n.as_str(), "Box");
    let d = n.get_data();
    assert_eq!(d.get("unnamed-0"), Some(&Value::String("Box".to_string())));
    let mut m = Name::default();
    m.set_data(&d);
    assert_eq!(m, n);
    m.set_data(&Data::new().insert("unnamed-0", Value::Int32(1)));
    assert_eq!(m, n);
    assert_eq!(<Name as Edit>::name(), "Name");
}

#[test]
fn systems_run_by_order_then_insertion() {
    let mut s = Systems::new();
    s.add_system(Schedule::PreUpdate, 0, 1);
    s.add_system(Schedule::PreUpdate, TIME_MAINTAIN_SYSTEM_ORDER, 2);
    s.add_system(Schedule::Update, -5, 3);
    s.add_system(Schedule::PreUpdate, 0, 4);
    s.add_system(Schedule::PreUpdate, 10, 5);
    s.add_system(Schedule::PreUpdate, -1, 6);
    assert_eq!(s.systems_of(Schedule::PreUpdate), vec![2, 6, 1, 4, 5]);
    assert_eq!(s.systems_of(Schedule::Update), vec![3]);
    assert!(s.systems_of(Schedule::DrawEditor).is_empty());
}

#[test]
fn final_model_chain_root_first() {
    // 3 -> 2 -> 1 (root); 1 and 3 have transforms, 2 has none
    let mut parents = HashMap::new();
    parents.insert(3u64, 2u64);
    parents.insert(2u64, 1u64);
    let mut transforms = HashSet::new();
    transforms.insert(1u64);
    transforms.insert(3u64);
    assert_eq!(final_model_chain(3, &parents, &transforms), vec![1, 3]);
    assert_eq!(final_model_chain(2, &parents, &transforms), vec![1]);
    assert!(final_model_chain(DEAD, &parents, &transforms).is_empty());
    // no transform on the chain: no final model
    assert!(final_model_chain(2, &parents, &HashSet::new()).is_empty());
}
