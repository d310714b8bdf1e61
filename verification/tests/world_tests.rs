use gamecore::geom::Vec2;
use gamecore::world::{
    clamp_into_world, direction_from_input, first_within, new_random_pos, pos_is_free, step_axis,
};

#[test]
fn pos_is_free_exact_threshold() {
    let taken = vec![Vec2 { x: 10, y: 10 }];
    // distance exactly 6 is still too close; one more unit is free
    assert!(!pos_is_free(Vec2 { x: 16, y: 10 }, &taken, 6));
    assert!(pos_is_free(Vec2 { x: 17, y: 10 }, &taken, 6));
}

#[test]
fn pos_is_free_checks_every_taken_spot() {
    let taken = vec![Vec2 { x: 0, y: 0 }, Vec2 { x: 100, y: 100 }];
    assert!(!pos_is_free(Vec2 { x: 99, y: 99 }, &taken, 6));
    assert!(pos_is_free(Vec2 { x: 50, y: 50 }, &taken, 6));
}

#[test]
fn new_random_pos_lands_in_spawn_band() {
    let taken: Vec<Vec2> = Vec::new();
    // the first draw is always free of an empty list, so a position is owed
    let p = new_random_pos(&taken, 320, 240, 6, 1).expect("an empty world always has room");
    assert!(0 <= p.x && p.x < 319);
    assert!(0 <= p.y && p.y < 239);
}

#[test]
fn new_random_pos_in_unit_band_is_the_origin() {
    // the spawn band of a 2-by-2 world is the single point (0,0); the draw
    // has no freedom, which pins the random wrapper to its stated range
    let taken: Vec<Vec2> = Vec::new();
    let p = new_random_pos(&taken, 2, 2, 0, 3).expect("the band is non-empty");
    assert_eq!(p, Vec2 { x: 0, y: 0 });
}

#[test]
fn new_random_pos_with_no_budget_returns_nothing() {
    let taken: Vec<Vec2> = Vec::new();
    assert_eq!(new_random_pos(&taken, 320, 240, 6, 0), None);
}

#[test]
fn new_random_pos_owes_a_position_when_nothing_is_taken() {
    // no draw can be rejected against an empty list, so the first draw is
    // accepted whatever the generator returns
    let taken: Vec<Vec2> = Vec::new();
    assert!(new_random_pos(&taken, 320, 240, 6, 1).is_some());
}

#[test]
fn new_random_pos_keeps_clear_of_taken_spots() {
    let taken = vec![Vec2 { x: 5, y: 5 }, Vec2 { x: 300, y: 200 }];
    if let Some(p) = new_random_pos(&taken, 320, 240, 6, 50) {
        for t in &taken {
            let dx = t.x - p.x;
            let dy = t.y - p.y;
            assert!(dx * dx + dy * dy > 36);
        }
    }
}

#[test]
fn first_within_picks_the_earliest_reachable_spot() {
    let positions = vec![
        Vec2 { x: 100, y: 100 },
        Vec2 { x: 12, y: 10 },
        Vec2 { x: 10, y: 10 },
    ];
    // both index 1 and index 2 are in reach; the earlier one wins
    assert_eq!(first_within(&positions, Vec2 { x: 10, y: 10 }, 3), Some(1));
    // distance exactly equal to the radius still counts as a catch
    assert_eq!(first_within(&positions, Vec2 { x: 103, y: 100 }, 3), Some(0));
    assert_eq!(first_within(&positions, Vec2 { x: 200, y: 200 }, 3), None);
}

#[test]
fn step_axis_moves_inside_the_band() {
    assert_eq!(step_axis(10, 1, 3, 2, 3, 100, 99), 13);
    assert_eq!(step_axis(10, -1, 3, 2, 3, 100, 99), 7);
    assert_eq!(step_axis(10, 0, 3, 2, 3, 100, 99), 10);
}

#[test]
fn step_axis_snaps_at_the_edges() {
    // at or past the upper edge the position snaps back regardless of input
    assert_eq!(step_axis(100, 1, 3, 2, 3, 100, 99), 99);
    assert_eq!(step_axis(150, -1, 3, 2, 3, 100, 99), 99);
    // at or below the lower edge likewise
    assert_eq!(step_axis(2, 1, 3, 2, 3, 100, 99), 3);
    assert_eq!(step_axis(-5, 0, 3, 2, 3, 100, 99), 3);
}

#[test]
fn clamp_into_world_pulls_strays_one_unit_inside() {
    assert_eq!(
        clamp_into_world(Vec2 { x: 320, y: 120 }, 320, 240),
        Vec2 { x: 319, y: 120 }
    );
    assert_eq!(clamp_into_world(Vec2 { x: -4, y: 0 }, 320, 240), Vec2 { x: 1, y: 1 });
    assert_eq!(
        clamp_into_world(Vec2 { x: 160, y: 500 }, 320, 240),
        Vec2 { x: 160, y: 239 }
    );
    assert_eq!(
        clamp_into_world(Vec2 { x: 160, y: 120 }, 320, 240),
        Vec2 { x: 160, y: 120 }
    );
}

#[test]
fn direction_order_gives_down_priority() {
    assert_eq!(direction_from_input(true, true, true, true, 9), 0);
    assert_eq!(direction_from_input(false, true, true, true, 9), 1);
    assert_eq!(direction_from_input(false, false, true, true, 9), 2);
    assert_eq!(direction_from_input(false, false, false, true, 9), 3);
    assert_eq!(direction_from_input(false, false, false, false, 9), 9);
}
