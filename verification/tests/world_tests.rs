use arena_core::entities::{
    Projectile, Unit, BASE_SPEED, EFFECT_LIFETIME_MS, FIRE_COOLDOWN_MS,
};
use arena_core::geom::Vec2;
use arena_core::input::InputSnapshot;
use arena_core::world::{World, UNIT_START_X};

fn fire_input() -> InputSnapshot {
    InputSnapshot {
        move_x: 0,
        move_y: 0,
        aim_x: 0,
        aim_y: 0,
        dash_pressed: false,
        fire_held: true,
    }
}

#[test]
fn new_world_has_two_units_facing_x() {
    let w = World::new();
    assert_eq!(w.units.len(), 2);
    assert_eq!(w.units[0].id, 0);
    assert_eq!(w.units[0].pos, Vec2 { x: -UNIT_START_X, y: 0 });
    assert_eq!(w.units[1].id, 1);
    assert_eq!(w.units[1].pos, Vec2 { x: UNIT_START_X, y: 0 });
    for u in &w.units {
        assert_eq!(u.health, 3);
        assert_eq!(u.speed, BASE_SPEED);
        assert_eq!(u.facing, Vec2 { x: 1000, y: 0 });
        assert_eq!(u.dash_cooldown, 0);
        assert_eq!(u.fire_cooldown, 0);
    }
    assert_eq!(w.projectiles.len(), 0);
    assert_eq!(w.effects.len(), 0);
    assert_eq!(w.next_id, 0);
}

// Scenario: unit A (id 0, health 3, base speed, facing (1, 0)) and unit B
// (id 1) sit 100 game units apart on the x axis, both stationary; A fires
// with an elapsed fire cooldown. After enough ticks for the projectile to
// reach B, the resolver despawns the projectile, drops B to health 2, and
// spawns an effect parented to B with the full 50 ms timer.
#[test]
fn projectile_crosses_the_gap_and_hits_the_enemy() {
    let mut w = World {
        units: vec![Unit::spawn(0, 0, 0), Unit::spawn(1, 100_000, 0)],
        projectiles: Vec::new(),
        effects: Vec::new(),
        next_id: 0,
    };
    let inputs = vec![Some(fire_input()), None];
    // Tick 1: the shot goes out and flies 15 game units; 85 > 60 apart.
    w.tick(&inputs, 10);
    assert_eq!(w.projectiles.len(), 1);
    assert_eq!(w.projectiles[0].owner, 0);
    assert_eq!(w.projectiles[0].pos, Vec2 { x: 15_000, y: 0 });
    assert_eq!(w.units[1].health, 3);
    // Tick 2: 30 units along, still 70 > 60 apart.
    w.tick(&inputs, 10);
    assert_eq!(w.projectiles.len(), 1);
    assert_eq!(w.units[1].health, 3);
    // Tick 3: 45 units along, 55 <= 60: the hit resolves.
    w.tick(&inputs, 10);
    assert_eq!(w.projectiles.len(), 0);
    assert_eq!(w.units[0].health, 3);
    assert_eq!(w.units[1].health, 2);
    assert_eq!(w.effects.len(), 1);
    assert_eq!(w.effects[0].parent, 1);
    assert_eq!(w.effects[0].timer_ms, EFFECT_LIFETIME_MS);
    // The effect spawned on the hit tick was not aged by that tick; the
    // next tick ages it, and 40 ms later it expires.
    w.tick(&vec![None, None], 10);
    assert_eq!(w.effects.len(), 1);
    assert_eq!(w.effects[0].timer_ms, EFFECT_LIFETIME_MS - 10);
    w.tick(&vec![None, None], 41);
    assert_eq!(w.effects.len(), 0);
}

// Law on a concrete run: with fire held the whole time, consecutive shots
// from the same unit are at least FIRE_COOLDOWN_MS of simulated time apart.
#[test]
fn held_fire_is_rate_limited_by_the_cooldown() {
    let mut w = World {
        units: vec![Unit::spawn(0, 0, 0)],
        projectiles: Vec::new(),
        effects: Vec::new(),
        next_id: 0,
    };
    let inputs = vec![Some(fire_input())];
    let mut spawn_times: Vec<i64> = Vec::new();
    let mut now: i64 = 0;
    let mut seen: u64 = 0;
    for _ in 0..300 {
        w.tick(&inputs, 10);
        now += 10;
        if w.next_id > seen {
            assert_eq!(w.next_id, seen + 1);
            seen = w.next_id;
            spawn_times.push(now);
        }
    }
    assert!(spawn_times.len() >= 3);
    for k in 1..spawn_times.len() {
        assert!(spawn_times[k] - spawn_times[k - 1] >= FIRE_COOLDOWN_MS);
    }
}

#[test]
fn projectile_leaving_the_arena_is_removed() {
    let mut w = World {
        units: Vec::new(),
        projectiles: vec![Projectile {
            id: 0,
            owner: 0,
            pos: Vec2 { x: 600_000, y: 0 },
            vel: Vec2 { x: 3_000_000, y: 0 },
        }],
        effects: Vec::new(),
        next_id: 1,
    };
    let none: Vec<Option<InputSnapshot>> = Vec::new();
    // 30 game units of flight keep it just inside the 640-unit edge.
    w.tick(&none, 10);
    assert_eq!(w.projectiles.len(), 1);
    assert_eq!(w.projectiles[0].pos.x, 630_000);
    // The next 30 would cross the edge: the projectile is gone.
    w.tick(&none, 10);
    assert_eq!(w.projectiles.len(), 0);
}

#[test]
fn combat_sees_this_ticks_facing() {
    // Aim and fire in the same tick: the projectile flies along the new
    // facing, because movement runs before combat.
    let mut w = World {
        units: vec![Unit::spawn(0, 0, 0)],
        projectiles: Vec::new(),
        effects: Vec::new(),
        next_id: 0,
    };
    let mut inp = fire_input();
    inp.aim_x = 0;
    inp.aim_y = 600;
    w.tick(&vec![Some(inp)], 10);
    assert_eq!(w.units[0].facing, Vec2 { x: 0, y: 1000 });
    assert_eq!(w.projectiles.len(), 1);
    assert_eq!(w.projectiles[0].vel, Vec2 { x: 0, y: 1_500_000 });
}

#[test]
fn duel_from_the_starting_world() {
    // From the stock arena: unit 0 fires across the full 300-unit gap and
    // eventually brings unit 1 from 3 health to 0. Each hit consumes its
    // projectile, so exactly three projectiles connect.
    let mut w = World::new();
    let inputs = vec![Some(fire_input()), None];
    let mut ticks = 0;
    while w.units[1].health > 0 && ticks < 2000 {
        w.tick(&inputs, 10);
        ticks += 1;
    }
    assert_eq!(w.units[1].health, 0);
    assert_eq!(w.units[0].health, 3);
    assert_eq!(w.next_id, 3);
}
