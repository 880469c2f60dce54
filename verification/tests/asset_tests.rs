use steel::asset::{Asset, AssetId, AssetManager};

fn path(parts: &[&str]) -> Vec<String> {
    parts.iter().map(|s| s.to_string()).collect()
}

#[test]
fn asset_id_basics() {
    assert_eq!(AssetId::new(5).id(), 5);
    assert_eq!(AssetId::invalid().id(), 0);
    let a = Asset::new(path(&["a.png"]));
    assert!(a.content.is_none());
}

#[test]
fn insert_lookup_and_cache() {
    let mut am = AssetManager::new();
    let id = AssetId::new(1);
    assert!(!am.contains_asset(id));
    assert!(am.get_asset_path(id).is_none());
    am.insert_asset(id, path(&["images", "a.png"]));
    assert!(am.contains_asset(id));
    assert_eq!(am.get_asset_path(id), Some(&path(&["images", "a.png"])));
    assert_eq!(am.get_asset_id(&path(&["images", "a.png"])), Some(id));
    assert_eq!(am.get_asset_id(&path(&["images", "b.png"])), None);
    // not read yet
    assert!(am.get_asset_content(id).is_none());
    assert_eq!(am.asset_to_read(id), Some(&path(&["images", "a.png"])));
    am.set_asset_content(id, vec![1, 2, 3]);
    assert_eq!(am.get_asset_content(id), Some(&vec![1, 2, 3]));
    assert!(am.asset_to_read(id).is_none());
    // inserting again clears the cache
    am.insert_asset(id, path(&["images", "c.png"]));
    assert!(am.get_asset_content(id).is_none());
    assert_eq!(am.get_asset_path(id), Some(&path(&["images", "c.png"])));
    // unknown assets are not cached
    am.set_asset_content(AssetId::new(2), vec![9]);
    assert!(!am.contains_asset(AssetId::new(2)));
}

#[test]
fn update_path_keeps_content() {
    let mut am = AssetManager::new();
    let id = AssetId::new(3);
    am.insert_asset(id, path(&["x"]));
    am.set_asset_content(id, vec![7]);
    am.update_asset_path(id, path(&["y"]));
    assert_eq!(am.get_asset_path(id), Some(&path(&["y"])));
    assert_eq!(am.get_asset_content(id), Some(&vec![7]));
    am.update_asset_path(AssetId::new(4), path(&["z"]));
    assert!(!am.contains_asset(AssetId::new(4)));
}

#[test]
fn delete_asset_and_dir() {
    let mut am = AssetManager::new();
    am.insert_asset(AssetId::new(1), path(&["dir", "a"]));
    am.insert_asset(AssetId::new(2), path(&["dir", "sub", "b"]));
    am.insert_asset(AssetId::new(3), path(&["dir2", "c"]));
    am.insert_asset(AssetId::new(4), path(&["other"]));
    am.delete_asset(AssetId::new(4));
    assert!(!am.contains_asset(AssetId::new(4)));
    am.delete_asset_dir(&path(&["dir"]));
    assert!(!am.contains_asset(AssetId::new(1)));
    assert!(!am.contains_asset(AssetId::new(2)));
    // "dir2" does not start with the component "dir"
    assert!(am.contains_asset(AssetId::new(3)));
}
