use std::collections::HashMap;
use steel::asset::AssetId;
use steel::data::Value;
use steel::ecs::DEAD;
use steel::edit::Edit;
use steel::hierarchy::{Children, Parent};
use steel::prefab::{
    create_prefab_system, load_prefab_system, load_scene_prefabs_system, CreatePrefabParam, EntityIdWithPath,
    LoadPrefabParam, LoadScenePrefabsParam, Prefab,
};
use steel::scene::{prefab_entities_of_map, prefab_entities_of_scene, SceneManager};

#[test]
fn default_prefab_component() {
    let p = Prefab::new();
    assert_eq!(p.asset(), AssetId::invalid());
    assert_eq!(p.entity_index(), 0);
    assert!(p.entity_path().is_empty());
    assert_eq!(p.root_entity(), DEAD);
}

#[test]
fn create_prefab_marks_subtree() {
    // 1 -> [2 -> [3]], 4 is outside
    let mut childrens = HashMap::new();
    childrens.insert(1u64, Children(vec![2]));
    childrens.insert(2u64, Children(vec![3]));
    let mut prefabs = HashMap::new();
    prefabs.insert(4u64, Prefab { asset: AssetId::new(9), entity_index: 1, entity_path: vec![], root_entity: 4 });
    let param = CreatePrefabParam {
        prefab_root_entity: 1,
        prefab_asset: AssetId::new(50),
        prefab_root_entity_to_nested_prefabs_index: HashMap::new(),
    };
    create_prefab_system(&param, &childrens, &mut prefabs);
    for (e, index) in [(1u64, 0u64), (2, 1), (3, 2)] {
        let p = &prefabs[&e];
        assert_eq!(p.asset(), AssetId::new(50));
        assert_eq!(p.entity_index(), index);
        assert!(p.entity_path().is_empty());
        assert_eq!(p.root_entity(), 1);
    }
    assert_eq!(prefabs[&4].asset(), AssetId::new(9));
    assert_eq!(prefabs[&4].root_entity(), 4);
}

#[test]
fn create_prefab_nests_existing_prefab() {
    // 1 -> [2]; 2 already belongs to a prefab rooted at 2, which is nested prefab 0
    let mut childrens = HashMap::new();
    childrens.insert(1u64, Children(vec![2]));
    let mut prefabs = HashMap::new();
    prefabs.insert(2u64, Prefab { asset: AssetId::new(7), entity_index: 5, entity_path: vec![3], root_entity: 2 });
    let mut nested = HashMap::new();
    nested.insert(2u64, 0u64);
    let param = CreatePrefabParam {
        prefab_root_entity: 1,
        prefab_asset: AssetId::new(50),
        prefab_root_entity_to_nested_prefabs_index: nested,
    };
    create_prefab_system(&param, &childrens, &mut prefabs);
    let p = &prefabs[&2];
    assert_eq!(p.asset(), AssetId::new(50));
    assert_eq!(p.entity_index(), 5);
    assert_eq!(p.entity_path(), &vec![0, 3]);
    assert_eq!(p.root_entity(), 1);
}

#[test]
fn load_prefab_sets_components() {
    let mut prefabs = HashMap::new();
    let param = LoadPrefabParam {
        prefab_root_entity: 10,
        prefab_asset: AssetId::new(3),
        entity_id_to_prefab_entity_id_with_path: vec![
            (10, EntityIdWithPath(1, vec![])),
            (11, EntityIdWithPath(2, vec![4, 5])),
        ],
    };
    load_prefab_system(param, &mut prefabs);
    assert_eq!(prefabs.len(), 2);
    assert_eq!(prefabs[&10].entity_index(), 0);
    assert_eq!(prefabs[&11].entity_index(), 1);
    assert_eq!(prefabs[&11].entity_path(), &vec![4, 5]);
    assert_eq!(prefabs[&11].root_entity(), 10);
    assert_eq!(prefabs[&11].asset(), AssetId::new(3));
}

#[test]
fn load_scene_prefabs_finds_roots() {
    // prefab A: entities 20 (root, parent 1 outside) and 21 (parent 20); prefab B is empty
    let mut parents = HashMap::new();
    parents.insert(20u64, Parent(1));
    parents.insert(21u64, Parent(20));
    let mut prefabs = HashMap::new();
    let param = LoadScenePrefabsParam {
        prefab_asset_and_entity_id_to_prefab_entity_id_with_path: vec![
            (AssetId::new(5), vec![(21, EntityIdWithPath(2, vec![])), (20, EntityIdWithPath(1, vec![]))]),
            (AssetId::new(6), vec![]),
        ],
    };
    load_scene_prefabs_system(param, &parents, &mut prefabs);
    assert_eq!(prefabs.len(), 2);
    assert_eq!(prefabs[&21].root_entity(), 20);
    assert_eq!(prefabs[&20].root_entity(), 20);
    assert_eq!(prefabs[&20].asset(), AssetId::new(5));
}

#[test]
fn prefab_edit_shows_read_only_fields() {
    let p = Prefab { asset: AssetId::new(2), entity_index: 3, entity_path: vec![1], root_entity: 8 };
    let d = p.get_data();
    assert_eq!(d.get("asset"), Some(&Value::Asset(AssetId::new(2))));
    assert_eq!(d.get("entity_index"), Some(&Value::UInt64(3)));
    assert_eq!(d.get("entity_path"), Some(&Value::VecUInt64(vec![1])));
    assert_eq!(d.get("root_entity"), Some(&Value::Entity(8)));
    assert_eq!(d.limits.len(), 4);
    let mut q = Prefab::new();
    q.set_data(&d);
    // read-only: nothing is taken
    assert_eq!(q.asset(), AssetId::invalid());
    assert_eq!(<Prefab as Edit>::name(), "Prefab");
}

#[test]
fn scene_manager_switch_and_take() {
    let mut sm = SceneManager::new(Some(AssetId::new(1)));
    assert_eq!(sm.current_scene(), None);
    assert_eq!(sm.take_scene_to_load(), Some(AssetId::new(1)));
    assert_eq!(sm.take_scene_to_load(), None);
    sm.set_current_scene(Some(AssetId::new(1)));
    sm.switch_scene(AssetId::new(2));
    assert_eq!(sm.current_scene(), Some(AssetId::new(1)));
    assert_eq!(sm.take_scene_to_load(), Some(AssetId::new(2)));
    assert_eq!(sm.current_scene(), Some(AssetId::new(1)));
}

#[test]
fn prefab_entities_grouped_by_nested_prefab() {
    let nested = vec![AssetId::new(7), AssetId::new(8)];
    let entity_map = vec![
        (EntityIdWithPath(1, vec![]), 100),
        (EntityIdWithPath(2, vec![1, 9]), 101),
        (EntityIdWithPath(3, vec![0]), 102),
        (EntityIdWithPath(4, vec![1]), 103),
    ];
    let mut m = HashMap::new();
    m.insert(101u64, 11u64);
    m.insert(102u64, 12u64);
    m.insert(103u64, 13u64);
    let r = prefab_entities_of_scene(&nested, &entity_map, &m);
    assert_eq!(r.len(), 2);
    assert_eq!(r[0].0, AssetId::new(7));
    assert_eq!(r[0].1, vec![(12, EntityIdWithPath(3, vec![]))]);
    assert_eq!(r[1].0, AssetId::new(8));
    assert_eq!(r[1].1, vec![(11, EntityIdWithPath(2, vec![9])), (13, EntityIdWithPath(4, vec![]))]);
}

#[test]
fn prefab_entities_by_new_id() {
    let entity_map = vec![(EntityIdWithPath(1, vec![]), 100), (EntityIdWithPath(2, vec![0]), 101)];
    let mut m = HashMap::new();
    m.insert(100u64, 10u64);
    m.insert(101u64, 11u64);
    let r = prefab_entities_of_map(&entity_map, &m).unwrap();
    assert_eq!(r, vec![(10, EntityIdWithPath(1, vec![])), (11, EntityIdWithPath(2, vec![0]))]);
    // an old id without a new id
    m.remove(&101);
    assert!(prefab_entities_of_map(&entity_map, &m).is_none());
}
