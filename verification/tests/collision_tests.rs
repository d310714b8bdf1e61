use gamecore::collision::{gather_contacts, resolve_actor, sort_contacts, Contact};
use gamecore::geom::{dist_sq, AABB, Vec2};

fn boxed(cx: i64, cy: i64, sx: i64, sy: i64) -> AABB {
    AABB { center: Vec2 { x: cx, y: cy }, size: Vec2 { x: sx, y: sy } }
}

#[test]
fn displacement_overlapping_boxes() {
    let wall = boxed(3, 0, 2, 2);
    let probe = boxed(0, 0, 2, 2);
    assert_eq!(wall.displacement(probe), Some(Vec2 { x: 1, y: 4 }));
}

#[test]
fn displacement_disjoint_boxes() {
    let wall = boxed(10, 0, 2, 2);
    let probe = boxed(0, 0, 2, 2);
    assert_eq!(wall.displacement(probe), None);
}

#[test]
fn displacement_touching_boxes_is_no_contact() {
    // edges exactly flush: zero overlap on x, so no displacement is owed
    let wall = boxed(4, 0, 2, 2);
    let probe = boxed(0, 0, 2, 2);
    assert_eq!(wall.displacement(probe), None);
}

#[test]
fn displacement_is_symmetric_in_extent() {
    let a = boxed(0, 0, 3, 1);
    let b = boxed(2, 1, 2, 4);
    assert_eq!(a.displacement(b), Some(Vec2 { x: 3, y: 4 }));
    assert_eq!(b.displacement(a), Some(Vec2 { x: 3, y: 4 }));
}

#[test]
fn length_squared_exact() {
    assert_eq!(Vec2 { x: 3, y: -5 }.length_squared(), 34);
    assert_eq!(Vec2 { x: 0, y: 0 }.length_squared(), 0);
}

#[test]
fn dist_sq_exact() {
    assert_eq!(dist_sq(Vec2 { x: 1, y: 2 }, Vec2 { x: 4, y: -2 }), 25);
}

#[test]
fn deeper_contact_sorts_first() {
    // two obstacles whose probe overlaps are (3,5) and (2,8): squared
    // magnitudes 34 and 68, so the second contact must come first
    let obstacles = vec![boxed(7, 5, 5, 5), boxed(8, 2, 5, 5)];
    let probe = boxed(0, 0, 5, 5);
    let mut contacts = gather_contacts(&obstacles, probe);
    assert_eq!(contacts.len(), 2);
    assert_eq!(contacts[0], Contact { index: 0, disp: Vec2 { x: 3, y: 5 } });
    assert_eq!(contacts[1], Contact { index: 1, disp: Vec2 { x: 2, y: 8 } });
    sort_contacts(&mut contacts);
    assert_eq!(contacts[0], Contact { index: 1, disp: Vec2 { x: 2, y: 8 } });
    assert_eq!(contacts[1], Contact { index: 0, disp: Vec2 { x: 3, y: 5 } });
}

#[test]
fn equal_contacts_keep_their_order() {
    // both overlaps have squared magnitude 17: the earlier obstacle stays first
    let obstacles = vec![boxed(3, 0, 2, 2), boxed(0, 3, 2, 2)];
    let probe = boxed(0, 0, 2, 2);
    let mut contacts = gather_contacts(&obstacles, probe);
    assert_eq!(contacts.len(), 2);
    sort_contacts(&mut contacts);
    assert_eq!(contacts[0].index, 0);
    assert_eq!(contacts[1].index, 1);
}

#[test]
fn resolver_leaves_clear_actor_alone() {
    // no obstacle overlaps the probe: the position comes back unchanged
    let obstacles = vec![boxed(100, 100, 5, 5), boxed(-50, 80, 8, 8)];
    let pos = Vec2 { x: 10, y: 12 };
    let r = resolve_actor(pos, Vec2 { x: 8, y: 8 }, Vec2 { x: 2, y: 2 }, &obstacles, 3);
    assert_eq!(r, pos);
}

#[test]
fn resolver_with_no_obstacles_is_identity() {
    let obstacles: Vec<AABB> = Vec::new();
    let pos = Vec2 { x: 7, y: -3 };
    let r = resolve_actor(pos, Vec2 { x: 8, y: 8 }, Vec2 { x: 2, y: 2 }, &obstacles, 2);
    assert_eq!(r, pos);
}

#[test]
fn resolver_pushes_out_of_single_obstacle() {
    // actor at the origin, obstacle centered at (3,0): the precise overlap is
    // (1,4), x is cheaper, and the actor is pushed left flush to the edge
    let obstacles = vec![boxed(3, 0, 2, 2)];
    let pos = Vec2 { x: 0, y: 0 };
    let r = resolve_actor(pos, Vec2 { x: 8, y: 8 }, Vec2 { x: 2, y: 2 }, &obstacles, 2);
    assert_eq!(r, Vec2 { x: -1, y: 0 });
    // after resolution the precise box no longer overlaps the obstacle
    let precise = AABB { center: r, size: Vec2 { x: 2, y: 2 } };
    assert_eq!(obstacles[0].displacement(precise), None);
}

#[test]
fn resolver_handles_two_obstacles() {
    // equal-depth contacts on both axes: the first push goes left, the
    // second goes down, and the second pass finds the overlap gone
    let obstacles = vec![boxed(3, 0, 2, 2), boxed(0, 3, 2, 2)];
    let pos = Vec2 { x: 0, y: 0 };
    let r = resolve_actor(pos, Vec2 { x: 4, y: 4 }, Vec2 { x: 2, y: 2 }, &obstacles, 2);
    assert_eq!(r, Vec2 { x: -1, y: -1 });
}

#[test]
fn resolver_squeezed_actor_ends_where_the_budget_leaves_it() {
    // the gap between the two obstacles is narrower than the actor: each
    // push out of one obstacle lands in the other, so the actor still
    // overlaps one of them when the pass budget runs out, at a position
    // that is nevertheless fully determined
    let obstacles = vec![boxed(3, 0, 2, 2), boxed(-3, 0, 2, 2)];
    let pos = Vec2 { x: 0, y: 0 };
    let r = resolve_actor(pos, Vec2 { x: 8, y: 8 }, Vec2 { x: 2, y: 2 }, &obstacles, 2);
    assert_eq!(r, Vec2 { x: 1, y: 0 });
    let precise = AABB { center: r, size: Vec2 { x: 2, y: 2 } };
    assert_eq!(obstacles[0].displacement(precise), Some(Vec2 { x: 2, y: 4 }));
}

#[test]
fn resolver_single_pass_stops_at_budget() {
    // zero passes: the budget is spent before any contact is looked at
    let obstacles = vec![boxed(3, 0, 2, 2)];
    let pos = Vec2 { x: 0, y: 0 };
    let r = resolve_actor(pos, Vec2 { x: 8, y: 8 }, Vec2 { x: 2, y: 2 }, &obstacles, 0);
    assert_eq!(r, pos);
}
