use gamecore::animation::Animation;
use gamecore::sprites::SheetRegion;

fn frame(x: i64, w: i64) -> SheetRegion {
    SheetRegion { layer: 0, x, y: 0, z: 2, w, h: 33 }
}

fn looping_anim(n: usize, rate: i32) -> Animation {
    let mut states = Vec::new();
    for i in 0..n {
        states.push(frame(i as i64 * 66, 64));
    }
    Animation {
        states,
        frame_counter: 0,
        rate,
        state_number: 0,
        is_facing_left: false,
        sprite_width: 64,
        is_looping: true,
        is_done: false,
    }
}

#[test]
fn looping_animation_wraps_before_last_index() {
    // five states, rate 1: the index advances every second tick and wraps to
    // zero as soon as it would reach index 4, so the last state is skipped
    let mut a = looping_anim(5, 1);
    let mut seen = Vec::new();
    for _ in 0..16 {
        a.tick();
        assert_ne!(a.state_number, 4);
        seen.push(a.state_number);
    }
    assert_eq!(seen, vec![0, 1, 1, 2, 2, 3, 3, 0, 0, 1, 1, 2, 2, 3, 3, 0]);
}

#[test]
fn one_shot_animation_completes_exactly_at_last_index() {
    // three states, rate 0: the index advances every tick and is_done holds
    // exactly once the index has reached 2, and stays on
    let mut a = looping_anim(3, 0);
    a.is_looping = false;
    a.tick();
    assert_eq!(a.state_number, 1);
    assert!(!a.is_done);
    a.tick();
    assert_eq!(a.state_number, 2);
    assert!(a.is_done);
    a.tick();
    assert_eq!(a.state_number, 3);
    assert!(a.is_done);
    a.tick();
    assert!(a.is_done);
}

#[test]
fn single_state_looping_animation_never_moves() {
    let mut a = looping_anim(1, 0);
    for _ in 0..5 {
        a.tick();
        assert_eq!(a.state_number, 0);
        assert!(!a.is_done);
    }
}

#[test]
fn single_state_one_shot_animation_is_done_at_once() {
    let mut a = looping_anim(1, 0);
    a.is_looping = false;
    a.tick();
    assert!(a.is_done);
}

#[test]
fn empty_animation_ticks_without_panic() {
    let mut a = looping_anim(0, 0);
    a.tick();
    assert_eq!(a.state_number, 0);
    let mut b = looping_anim(0, 0);
    b.is_looping = false;
    b.tick();
    assert!(b.is_done);
}

#[test]
fn get_current_state_is_flip_idempotent() {
    // facing left: the first read mirrors the cell in place, the second
    // read returns the identical cell without mirroring again
    let mut a = looping_anim(3, 10);
    a.state_number = 1;
    a.apply_face_left();
    let first = a.get_current_state();
    assert_eq!(first, SheetRegion { layer: 0, x: 66 + 64, y: 0, z: 2, w: -64, h: 33 });
    let states_after_first = a.states.clone();
    let second = a.get_current_state();
    assert_eq!(first, second);
    assert_eq!(a.states, states_after_first);
}

#[test]
fn facing_right_restores_a_mirrored_cell() {
    let mut a = looping_anim(2, 10);
    a.apply_face_left();
    let mirrored = a.get_current_state();
    assert_eq!(mirrored.w, -64);
    a.apply_face_right();
    let restored = a.get_current_state();
    assert_eq!(restored, frame(0, 64));
}

#[test]
fn get_current_state_clamps_finished_one_shot() {
    let mut a = looping_anim(3, 0);
    a.is_looping = false;
    for _ in 0..5 {
        a.tick();
    }
    assert!(a.state_number > 2);
    let cell = a.get_current_state();
    assert_eq!(a.state_number, 2);
    assert_eq!(cell, frame(132, 64));
}

#[test]
fn restart_resets_clock_after_any_ticks() {
    let mut a = looping_anim(5, 3);
    for _ in 0..23 {
        a.tick();
    }
    a.restart_animation();
    assert_eq!(a.frame_counter, 0);
    assert_eq!(a.state_number, 0);
    assert!(a.is_looping);
}

#[test]
fn stop_runs_a_looping_animation_back_to_its_first_state() {
    let mut a = looping_anim(6, 2);
    for _ in 0..7 {
        a.tick();
    }
    assert_ne!(a.state_number, 0);
    a.stop();
    assert_eq!(a.state_number, 0);
    assert_eq!(a.frame_counter, 0);
}

#[test]
fn stop_at_first_state_changes_nothing() {
    let mut a = looping_anim(4, 2);
    a.tick();
    assert_eq!(a.state_number, 0);
    assert_eq!(a.frame_counter, 1);
    a.stop();
    assert_eq!(a.state_number, 0);
    assert_eq!(a.frame_counter, 1);
}
