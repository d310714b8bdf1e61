use gamecore::gamestate::GameState;
use gamecore::sprites::{clear_sprites, remove_background, SheetRegion, Transform};

fn filled_transform(i: i64) -> Transform {
    Transform { x: i, y: i + 1, w: 4, h: 4, rot: 0 }
}

fn filled_region(i: i64) -> SheetRegion {
    SheetRegion::new(0, i, i, 2, 16, 16)
}

#[test]
fn sheet_region_new_fills_fields() {
    let r = SheetRegion::new(1, 2, 3, 4, 5, 6);
    assert_eq!(r, SheetRegion { layer: 1, x: 2, y: 3, z: 4, w: 5, h: 6 });
}

#[test]
fn zeroed_slots_are_blank() {
    assert_eq!(SheetRegion::zeroed(), SheetRegion { layer: 0, x: 0, y: 0, z: 0, w: 0, h: 0 });
    assert_eq!(Transform::zeroed(), Transform { x: 0, y: 0, w: 0, h: 0, rot: 0 });
}

#[test]
fn clear_sprites_blanks_prefix_and_fonts() {
    let mut trfs: Vec<Transform> = (0..8).map(filled_transform).collect();
    let mut uvs: Vec<SheetRegion> = (0..8).map(filled_region).collect();
    let mut font_trfs: Vec<Transform> = (0..3).map(filled_transform).collect();
    let mut font_uvs: Vec<SheetRegion> = (0..3).map(filled_region).collect();
    clear_sprites(&mut trfs, &mut uvs, 5, &mut font_trfs, &mut font_uvs);
    for i in 0..5 {
        assert_eq!(trfs[i], Transform::zeroed());
        assert_eq!(uvs[i], SheetRegion::zeroed());
    }
    for i in 5..8 {
        assert_eq!(trfs[i], filled_transform(i as i64));
        assert_eq!(uvs[i], filled_region(i as i64));
    }
    for i in 0..3 {
        assert_eq!(font_trfs[i], Transform::zeroed());
        assert_eq!(font_uvs[i], SheetRegion::zeroed());
    }
}

#[test]
fn remove_background_blanks_only_the_first_slot() {
    let mut trfs: Vec<Transform> = (0..2).map(filled_transform).collect();
    let mut uvs: Vec<SheetRegion> = (0..2).map(filled_region).collect();
    remove_background(&mut trfs, &mut uvs);
    assert_eq!(trfs[0], Transform::zeroed());
    assert_eq!(uvs[0], SheetRegion::zeroed());
    assert_eq!(trfs[1], filled_transform(1));
    assert_eq!(uvs[1], filled_region(1));
}

#[test]
fn game_states_compare_by_variant() {
    assert_eq!(GameState::Title, GameState::Title);
    assert_ne!(GameState::Title, GameState::Play);
    assert_ne!(GameState::Win, GameState::Lose);
    let s = GameState::ShowLevel;
    assert_eq!(s, GameState::ShowLevel);
}
