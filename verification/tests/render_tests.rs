use steel::ecs::DEAD;
use steel::render::canvas::{eid_to_u32_array, get_entity_at_screen, u32_array_to_eid};
use steel::render::mesh::{generate_sphere_indices, SPHERE_INDEX_COUNT, SPHERE_VERTEX_COUNT};

#[test]
fn eid_u32_array_roundtrip() {
    let e = (5u64 << 32) | 17;
    assert_eq!(eid_to_u32_array(e), [17, 5]);
    assert_eq!(u32_array_to_eid([17, 5]), e);
    assert_eq!(u32_array_to_eid(eid_to_u32_array(1)), 1);
    // zero is no entity
    assert_eq!(u32_array_to_eid([0, 0]), DEAD);
    assert_eq!(eid_to_u32_array(DEAD), [u32::MAX, u32::MAX]);
}

#[test]
fn entity_at_screen_picks_pixel() {
    // 2 x 2 image, two u32 per pixel
    let pixels = vec![1, 0, 2, 0, 3, 0, 0, 0];
    assert_eq!(get_entity_at_screen(0, 0, 2, 2, &pixels), 1);
    assert_eq!(get_entity_at_screen(1, 0, 2, 2, &pixels), 2);
    assert_eq!(get_entity_at_screen(0, 1, 2, 2, &pixels), 3);
    // an empty pixel holds no entity
    assert_eq!(get_entity_at_screen(1, 1, 2, 2, &pixels), DEAD);
    // out of the screen
    assert_eq!(get_entity_at_screen(-1, 0, 2, 2, &pixels), DEAD);
    assert_eq!(get_entity_at_screen(2, 0, 2, 2, &pixels), DEAD);
    assert_eq!(get_entity_at_screen(0, 2, 2, 2, &pixels), DEAD);
    // an image too small for the position
    assert_eq!(get_entity_at_screen(1, 1, 2, 2, &vec![1, 0]), DEAD);
}

#[test]
fn sphere_indices() {
    let r = generate_sphere_indices();
    assert_eq!(r.len(), SPHERE_INDEX_COUNT);
    assert_eq!(&r[0..6], &[0, 1, 33, 33, 1, 34]);
    assert_eq!(&r[6..12], &[1, 2, 34, 34, 2, 35]);
    // first quad of the second latitude band
    assert_eq!(&r[32 * 6..32 * 6 + 6], &[33, 34, 66, 66, 34, 67]);
    assert!(r.iter().all(|&i| (i as usize) < SPHERE_VERTEX_COUNT));
    assert_eq!(*r.iter().max().unwrap(), 560);
}
