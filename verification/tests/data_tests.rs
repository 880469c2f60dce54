use std::collections::{HashMap, HashSet};
use steel::asset::AssetId;
use steel::data::{
    create_old_id_to_new_id_map, fill_new_entities_data, update_eid_in_data, Data, EntitiesData, EntityData,
    Limit, Value, WorldData,
};
use steel::ecs::DEAD;

#[test]
fn data_insert_keeps_place_of_existing_name() {
    let d = Data::new()
        .insert("a", Value::Int32(1))
        .insert("b", Value::Bool(true))
        .insert("a", Value::Int32(2));
    assert_eq!(d.values.len(), 2);
    assert_eq!(d.values[0], ("a".to_string(), Value::Int32(2)));
    assert_eq!(d.values[1], ("b".to_string(), Value::Bool(true)));
    assert_eq!(d.get("a"), Some(&Value::Int32(2)));
    assert_eq!(d.get("c"), None);
    assert!(d.limits.is_empty());
}

#[test]
fn data_limits_follow_names() {
    let mut d = Data::new().insert_with_limit("x", Value::Int32(3), Limit::Int32Range(0, 3));
    d.add_value_with_limit("y", Value::Float32(0x3f80_0000), Limit::ReadOnly);
    d.add_value("x", Value::Int32(1));
    assert_eq!(d.get("x"), Some(&Value::Int32(1)));
    assert_eq!(d.limits, vec![("x".to_string(), Limit::Int32Range(0, 3)), ("y".to_string(), Limit::ReadOnly)]);
}

#[test]
fn clone_value_is_equal() {
    let v = Value::VecEntity(vec![1, 2, 3]);
    assert_eq!(v.clone_value(), v);
    let v = Value::String("abc".to_string());
    assert_eq!(v.clone_value(), v);
    let v = Value::Asset(AssetId::new(9));
    assert_eq!(v.clone_value(), v);
}

#[test]
fn update_eid_maps_entities_only() {
    let mut m = HashMap::new();
    m.insert(1u64, 10u64);
    m.insert(2u64, 20u64);
    let mut alive = HashSet::new();
    alive.insert(5u64);
    let d = Data::new()
        .insert_with_limit("e", Value::Entity(1), Limit::ReadOnly)
        .insert("es", Value::VecEntity(vec![2, 5, DEAD]))
        .insert("n", Value::UInt64(1))
        .insert("v", Value::VecUInt64(vec![1, 2]));
    let r = update_eid_in_data(&d, &m, &alive);
    assert_eq!(r.get("e"), Some(&Value::Entity(10)));
    assert_eq!(r.get("es"), Some(&Value::VecEntity(vec![20, 5, DEAD])));
    assert_eq!(r.get("n"), Some(&Value::UInt64(1)));
    assert_eq!(r.get("v"), Some(&Value::VecUInt64(vec![1, 2])));
    assert!(r.limits.is_empty());
}

fn entity_with_parent(parent: u64) -> EntityData {
    let mut e = EntityData::new();
    e.components.push(("Parent".to_string(), Data::new().insert("unnamed-0", Value::Entity(parent))));
    e
}

#[test]
fn old_id_to_new_id_map_pairs_in_order() {
    let mut es = EntitiesData::new();
    es.insert(100, EntityData::new());
    es.insert(200, EntityData::new());
    let m = create_old_id_to_new_id_map(&es, &vec![1, 2]);
    assert_eq!(m.len(), 2);
    assert_eq!(m[&100], 1);
    assert_eq!(m[&200], 2);
}

#[test]
fn fill_new_entities_data_remaps_keys_and_values() {
    let mut old = EntitiesData::new();
    old.insert(100, EntityData::new());
    old.insert(200, entity_with_parent(100));
    let m = create_old_id_to_new_id_map(&old, &vec![1, 2]);
    let mut new = EntitiesData::new();
    fill_new_entities_data(&mut new, &old, &m, &HashSet::new());
    assert_eq!(new.entities.len(), 2);
    assert_eq!(new.entities[0].0, 1);
    assert_eq!(new.entities[1].0, 2);
    let parent_data = &new.get(2).unwrap().components[0].1;
    assert_eq!(parent_data.get("unnamed-0"), Some(&Value::Entity(1)));
    assert!(new.get(100).is_none());
}

#[test]
fn world_data_remap_and_lookup() {
    let mut old = EntitiesData::new();
    old.insert(100, entity_with_parent(DEAD));
    let mut w = WorldData::new();
    w.entities = old;
    w.uniques.push(("Hierarchy".to_string(), Data::new().insert("roots", Value::VecEntity(vec![100]))));
    let mut m = HashMap::new();
    m.insert(100u64, 7u64);
    let r = w.remap(&m, &HashSet::new());
    assert_eq!(r.component_data(7, "Parent").unwrap().get("unnamed-0"), Some(&Value::Entity(DEAD)));
    assert!(r.component_data(100, "Parent").is_none());
    assert!(r.component_data(7, "Name").is_none());
    assert_eq!(r.unique_data("Hierarchy").unwrap().get("roots"), Some(&Value::VecEntity(vec![7])));
    assert!(r.unique_data("Other").is_none());
}

#[test]
fn fill_new_entities_data_drops_limits() {
    let mut old = EntitiesData::new();
    let mut e = EntityData::new();
    e.components.push(("Parent".to_string(), Data::new().insert_with_limit("unnamed-0", Value::Entity(DEAD), Limit::ReadOnly)));
    old.insert(100, e);
    let m = create_old_id_to_new_id_map(&old, &vec![1]);
    let mut new = EntitiesData::new();
    fill_new_entities_data(&mut new, &old, &m, &HashSet::new());
    let d = &new.get(1).unwrap().components[0].1;
    assert!(d.limits.is_empty());
    assert_eq!(d.get("unnamed-0"), Some(&Value::Entity(DEAD)));
}
