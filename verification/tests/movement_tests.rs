use arena_core::entities::{
    Unit, BASE_SPEED, DASH_COOLDOWN_MS, DASH_SPEED, SPEED_FALLOFF_PER_MS,
};
use arena_core::geom::Vec2;
use arena_core::input::InputSnapshot;
use arena_core::movement::movement_tick;

fn idle_input() -> InputSnapshot {
    InputSnapshot {
        move_x: 0,
        move_y: 0,
        aim_x: 0,
        aim_y: 0,
        dash_pressed: false,
        fire_held: false,
    }
}

#[test]
fn speed_decays_linearly_and_clamps_at_base() {
    let mut u = Unit::spawn(0, 0, 0);
    u.speed = DASH_SPEED;
    movement_tick(&mut u, Some(idle_input()), 10);
    assert_eq!(u.speed, DASH_SPEED - SPEED_FALLOFF_PER_MS * 10);
    movement_tick(&mut u, Some(idle_input()), 100);
    assert_eq!(u.speed, DASH_SPEED - SPEED_FALLOFF_PER_MS * 110);
    // 200 ms of decay in total brings a dash all the way back down.
    movement_tick(&mut u, Some(idle_input()), 90);
    assert_eq!(u.speed, BASE_SPEED);
    // Further decay is clamped at the base speed.
    movement_tick(&mut u, Some(idle_input()), 50);
    assert_eq!(u.speed, BASE_SPEED);
}

#[test]
fn speed_stays_in_range_for_every_input() {
    // The bounded-speed law on concrete runs: dash, decay, idle.
    let mut u = Unit::spawn(0, 0, 0);
    let mut press = idle_input();
    press.dash_pressed = true;
    for t in 0..200 {
        let inp = if t % 7 == 0 { Some(press) } else { Some(idle_input()) };
        movement_tick(&mut u, inp, 16);
        assert!(u.speed >= BASE_SPEED && u.speed <= DASH_SPEED);
    }
}

#[test]
fn movement_integrates_position_from_velocity() {
    let mut u = Unit::spawn(0, 0, 0);
    let mut inp = idle_input();
    inp.move_x = 1000;
    // One full second at base speed covers base-speed distance.
    movement_tick(&mut u, Some(inp), 1000);
    assert_eq!(u.vel, Vec2 { x: BASE_SPEED, y: 0 });
    assert_eq!(u.pos, Vec2 { x: BASE_SPEED, y: 0 });
}

#[test]
fn movement_inside_deadzone_is_no_movement() {
    let mut u = Unit::spawn(0, 0, 0);
    let mut inp = idle_input();
    inp.move_x = 100;
    inp.move_y = -100;
    movement_tick(&mut u, Some(inp), 1000);
    assert_eq!(u.vel, Vec2 { x: 0, y: 0 });
    assert_eq!(u.pos, Vec2 { x: 0, y: 0 });
}

#[test]
fn position_clamps_at_arena_edge() {
    let mut u = Unit::spawn(0, 600_000, 0);
    let mut inp = idle_input();
    inp.move_x = 1000;
    movement_tick(&mut u, Some(inp), 1000);
    assert_eq!(u.pos.x, arena_core::entities::ARENA_HALF_X);
}

#[test]
fn missing_controller_holds_position_and_facing() {
    let mut u = Unit::spawn(0, 10_000, -20_000);
    u.speed = DASH_SPEED;
    u.vel = Vec2 { x: 123, y: 456 };
    movement_tick(&mut u, None, 10);
    // Speed decay and the dash timer still run; everything else holds.
    assert_eq!(u.speed, DASH_SPEED - SPEED_FALLOFF_PER_MS * 10);
    assert_eq!(u.pos, Vec2 { x: 10_000, y: -20_000 });
    assert_eq!(u.facing, Vec2 { x: 1000, y: 0 });
    assert_eq!(u.vel, Vec2 { x: 123, y: 456 });
}

// Scenario: holding dash with an elapsed cooldown jumps the speed to
// DASH_SPEED that tick, resets the cooldown, and blocks a second dash
// until the cooldown elapses; the speed then decays linearly to base.
#[test]
fn dash_jumps_then_decays_and_second_dash_is_blocked() {
    let mut u = Unit::spawn(0, 0, 0);
    assert_eq!(u.dash_cooldown, 0);
    let mut press = idle_input();
    press.dash_pressed = true;
    movement_tick(&mut u, Some(press), 10);
    assert_eq!(u.speed, DASH_SPEED);
    assert_eq!(u.dash_cooldown, DASH_COOLDOWN_MS);
    // A second press is blocked while the cooldown is positive.
    movement_tick(&mut u, Some(press), 10);
    assert_eq!(u.speed, DASH_SPEED - SPEED_FALLOFF_PER_MS * 10);
    assert_eq!(u.dash_cooldown, DASH_COOLDOWN_MS - 10);
    // Linear decay continues tick by tick.
    movement_tick(&mut u, Some(idle_input()), 10);
    assert_eq!(u.speed, DASH_SPEED - SPEED_FALLOFF_PER_MS * 20);
    // After the cooldown elapses (500 ms total), a press dashes again.
    for _ in 0..48 {
        movement_tick(&mut u, Some(idle_input()), 10);
    }
    assert!(u.dash_cooldown <= 0);
    assert_eq!(u.speed, BASE_SPEED);
    movement_tick(&mut u, Some(press), 10);
    assert_eq!(u.speed, DASH_SPEED);
}

#[test]
fn aim_updates_and_renormalizes_facing() {
    let mut u = Unit::spawn(0, 0, 0);
    let mut inp = idle_input();
    inp.aim_x = 300;
    inp.aim_y = 400;
    movement_tick(&mut u, Some(inp), 10);
    assert_eq!(u.facing, Vec2 { x: 600, y: 800 });
    // The facing-length law on a concrete value.
    assert_eq!(u.facing.x * u.facing.x + u.facing.y * u.facing.y, 1_000_000);
}

// Scenario: aim input inside the dead zone leaves the facing unchanged
// (still normalized) instead of snapping toward the small reading.
#[test]
fn aim_inside_deadzone_keeps_previous_facing() {
    let mut u = Unit::spawn(0, 0, 0);
    let mut inp = idle_input();
    inp.aim_x = 50;
    inp.aim_y = 50;
    movement_tick(&mut u, Some(inp), 10);
    assert_eq!(u.facing, Vec2 { x: 1000, y: 0 });
    // Same with a facing set earlier from a real aim.
    let mut aim = idle_input();
    aim.aim_x = -300;
    aim.aim_y = 400;
    movement_tick(&mut u, Some(aim), 10);
    assert_eq!(u.facing, Vec2 { x: -600, y: 800 });
    movement_tick(&mut u, Some(inp), 10);
    assert_eq!(u.facing, Vec2 { x: -600, y: 800 });
}

#[test]
fn aim_one_axis_inside_deadzone_is_dropped_per_axis() {
    let mut u = Unit::spawn(0, 0, 0);
    let mut inp = idle_input();
    inp.aim_x = 500;
    inp.aim_y = 80;
    movement_tick(&mut u, Some(inp), 10);
    // The y axis is inside the dead zone, so the aim reads as (500, 0).
    assert_eq!(u.facing, Vec2 { x: 1000, y: 0 });
}
