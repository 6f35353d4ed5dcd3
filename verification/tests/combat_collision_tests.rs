use arena_core::collision::resolve_pass;
use arena_core::combat::combat_pass;
use arena_core::effects::effects_pass;
use arena_core::entities::{
    Effect, Projectile, Unit, BULLET_SPEED, EFFECT_LIFETIME_MS, FIRE_COOLDOWN_MS,
};
use arena_core::geom::Vec2;
use arena_core::input::InputSnapshot;

fn fire_input() -> InputSnapshot {
    InputSnapshot {
        move_x: 0,
        move_y: 0,
        aim_x: 0,
        aim_y: 0,
        dash_pressed: false,
        fire_held: true,
    }
}

#[test]
fn fire_spawns_projectile_and_resets_cooldown() {
    let mut units = vec![Unit::spawn(7, 1000, 2000)];
    let inputs = vec![Some(fire_input())];
    let spawned = combat_pass(&mut units, &inputs, 10, 42);
    assert_eq!(spawned.len(), 1);
    let p = &spawned[0];
    assert_eq!(p.id, 42);
    assert_eq!(p.owner, 7);
    assert_eq!(p.pos, Vec2 { x: 1000, y: 2000 });
    // Velocity is BULLET_SPEED along the facing (1000, 0), plus the unit's
    // velocity (zero here).
    assert_eq!(p.vel, Vec2 { x: BULLET_SPEED, y: 0 });
    assert_eq!(units[0].fire_cooldown, FIRE_COOLDOWN_MS);
}

#[test]
fn fire_held_is_blocked_while_cooldown_positive() {
    let mut units = vec![Unit::spawn(0, 0, 0)];
    let inputs = vec![Some(fire_input())];
    let spawned = combat_pass(&mut units, &inputs, 10, 0);
    assert_eq!(spawned.len(), 1);
    // 790 ms later the cooldown is still positive: no projectile.
    let spawned = combat_pass(&mut units, &inputs, 790, 1);
    assert_eq!(spawned.len(), 0);
    assert_eq!(units[0].fire_cooldown, 10);
    // The next 10 ms bring it to zero: the shot goes out.
    let spawned = combat_pass(&mut units, &inputs, 10, 1);
    assert_eq!(spawned.len(), 1);
    assert_eq!(spawned[0].id, 1);
}

#[test]
fn no_input_and_no_press_spawn_nothing() {
    let mut units = vec![Unit::spawn(0, 0, 0), Unit::spawn(1, 5000, 0)];
    let idle = InputSnapshot { fire_held: false, ..fire_input() };
    let inputs = vec![None, Some(idle)];
    let spawned = combat_pass(&mut units, &inputs, 10, 0);
    assert_eq!(spawned.len(), 0);
    // The fire timer still counts down for both.
    assert_eq!(units[0].fire_cooldown, -10);
    assert_eq!(units[1].fire_cooldown, -10);
}

#[test]
fn projectile_inherits_unit_velocity() {
    let mut u = Unit::spawn(3, 0, 0);
    u.vel = Vec2 { x: 200_000, y: -100_000 };
    let mut units = vec![u];
    let inputs = vec![Some(fire_input())];
    let spawned = combat_pass(&mut units, &inputs, 10, 0);
    assert_eq!(spawned[0].vel, Vec2 { x: BULLET_SPEED + 200_000, y: -100_000 });
}

#[test]
fn hit_consumes_projectile_damages_unit_and_spawns_effect() {
    let mut units = vec![Unit::spawn(0, 0, 0), Unit::spawn(1, 100_000, 0)];
    // 55 game units from unit 1: inside the 60-unit hit distance.
    let p = Projectile { id: 9, owner: 0, pos: Vec2 { x: 45_000, y: 0 }, vel: Vec2 { x: 0, y: 0 } };
    let projs = vec![p];
    let (kept, fx) = resolve_pass(&mut units, &projs);
    assert_eq!(kept.len(), 0);
    assert_eq!(units[0].health, 3);
    assert_eq!(units[1].health, 2);
    assert_eq!(fx.len(), 1);
    assert_eq!(fx[0].parent, 1);
    assert_eq!(fx[0].timer_ms, EFFECT_LIFETIME_MS);
}

#[test]
fn no_overlap_keeps_projectile_unchanged() {
    let mut units = vec![Unit::spawn(1, 100_000, 0)];
    // 61 game units away: just outside the hit distance.
    let p = Projectile { id: 4, owner: 0, pos: Vec2 { x: 39_000, y: 0 }, vel: Vec2 { x: 5, y: 6 } };
    let projs = vec![p];
    let (kept, fx) = resolve_pass(&mut units, &projs);
    assert_eq!(kept.len(), 1);
    assert_eq!(kept[0], p);
    assert_eq!(units[0].health, 3);
    assert_eq!(fx.len(), 0);
}

// Law on a concrete case: a projectile sitting on its own unit never
// damages it.
#[test]
fn owner_is_never_hit_by_its_own_projectile() {
    let mut units = vec![Unit::spawn(5, 0, 0)];
    let p = Projectile { id: 0, owner: 5, pos: Vec2 { x: 0, y: 0 }, vel: Vec2 { x: 0, y: 0 } };
    let projs = vec![p];
    let (kept, fx) = resolve_pass(&mut units, &projs);
    assert_eq!(units[0].health, 3);
    assert_eq!(kept.len(), 1);
    assert_eq!(fx.len(), 0);
}

// Law on a concrete case: a projectile overlapping two units at once
// scores exactly one hit — on the first in table order — and is consumed
// before reaching the second.
#[test]
fn projectile_hits_at_most_one_unit_per_tick() {
    let mut units = vec![
        Unit::spawn(1, -30_000, 0),
        Unit::spawn(2, 30_000, 0),
    ];
    let p = Projectile { id: 0, owner: 0, pos: Vec2 { x: 0, y: 0 }, vel: Vec2 { x: 0, y: 0 } };
    let projs = vec![p];
    let (kept, fx) = resolve_pass(&mut units, &projs);
    assert_eq!(kept.len(), 0);
    assert_eq!(units[0].health, 2);
    assert_eq!(units[1].health, 3);
    assert_eq!(fx.len(), 1);
    assert_eq!(fx[0].parent, 1);
}

// The owner is skipped even when it comes first in table order: the
// projectile falls through to the next overlapping unit.
#[test]
fn owner_overlap_falls_through_to_next_unit() {
    let mut units = vec![
        Unit::spawn(0, -30_000, 0),
        Unit::spawn(1, 30_000, 0),
    ];
    let p = Projectile { id: 0, owner: 0, pos: Vec2 { x: 0, y: 0 }, vel: Vec2 { x: 0, y: 0 } };
    let projs = vec![p];
    let (_, fx) = resolve_pass(&mut units, &projs);
    assert_eq!(units[0].health, 3);
    assert_eq!(units[1].health, 2);
    assert_eq!(fx[0].parent, 1);
}

#[test]
fn two_projectiles_can_hit_the_same_unit_in_one_tick() {
    let mut units = vec![Unit::spawn(1, 0, 0)];
    let projs = vec![
        Projectile { id: 0, owner: 0, pos: Vec2 { x: 10_000, y: 0 }, vel: Vec2 { x: 0, y: 0 } },
        Projectile { id: 1, owner: 0, pos: Vec2 { x: -10_000, y: 0 }, vel: Vec2 { x: 0, y: 0 } },
    ];
    let (kept, fx) = resolve_pass(&mut units, &projs);
    assert_eq!(kept.len(), 0);
    assert_eq!(units[0].health, 1);
    assert_eq!(fx.len(), 2);
}

#[test]
fn health_has_no_floor_at_zero() {
    let mut u = Unit::spawn(1, 0, 0);
    u.health = 0;
    let mut units = vec![u];
    let projs = vec![Projectile {
        id: 0,
        owner: 0,
        pos: Vec2 { x: 0, y: 0 },
        vel: Vec2 { x: 0, y: 0 },
    }];
    let (_, _) = resolve_pass(&mut units, &projs);
    assert_eq!(units[0].health, -1);
}

// Scenario: an effect created with a 50 ms timer is removed by a single
// 100 ms tick.
#[test]
fn effect_expires_when_elapsed_exceeds_lifetime() {
    let mut fx = vec![Effect { parent: 0, timer_ms: EFFECT_LIFETIME_MS }];
    effects_pass(&mut fx, 100);
    assert_eq!(fx.len(), 0);
}

#[test]
fn effect_survives_exactly_until_its_timer_is_spent() {
    let mut fx = vec![Effect { parent: 0, timer_ms: EFFECT_LIFETIME_MS }];
    // 50 ms elapsed: the timer reaches zero, which is not yet expired.
    effects_pass(&mut fx, 50);
    assert_eq!(fx.len(), 1);
    assert_eq!(fx[0].timer_ms, 0);
    // A zero-length tick removes nothing.
    effects_pass(&mut fx, 0);
    assert_eq!(fx.len(), 1);
    // The next millisecond crosses below zero: removed.
    effects_pass(&mut fx, 1);
    assert_eq!(fx.len(), 0);
}

#[test]
fn effects_age_independently() {
    let mut fx = vec![
        Effect { parent: 0, timer_ms: 50 },
        Effect { parent: 1, timer_ms: 10 },
        Effect { parent: 2, timer_ms: 30 },
    ];
    effects_pass(&mut fx, 20);
    assert_eq!(fx.len(), 2);
    assert_eq!(fx[0], Effect { parent: 0, timer_ms: 30 });
    assert_eq!(fx[1], Effect { parent: 2, timer_ms: 10 });
}
