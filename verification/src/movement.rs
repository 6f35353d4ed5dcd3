//! The movement controller: per unit and per tick it decays speed, counts
//! the dash timer down, turns stick input into velocity and position,
//! triggers a dash on a fresh press once the cooldown has elapsed, and keeps
//! the facing a unit-length direction.

use crate::entities::ARENA_HALF_X;
use crate::entities::ARENA_HALF_Y;
use crate::entities::BASE_SPEED;
use crate::entities::COOLDOWN_FLOOR_MS;
use crate::entities::DASH_COOLDOWN_MS;
use crate::entities::DASH_SPEED;
use crate::entities::DT_MAX_MS;
use crate::entities::SPEED_FALLOFF_PER_MS;
use crate::entities::Unit;
use crate::entities::UnitV;
use crate::entities::cd_dec;
use crate::entities::clamp_i;
use crate::entities::scaled_delta;
use crate::entities::scaled_vel;
use crate::entities::travel;
use crate::entities::unit_wf;
use crate::entities::vel_component;
use crate::entities::vunits;
use crate::geom::DIR_SQ_MAX;
use crate::geom::DIR_SQ_MIN;
use crate::geom::Vec2;
use crate::geom::Vec2V;
use crate::geom::norm_sq;
use crate::geom::normalize;
use crate::geom::normalize_spec;
use crate::input::InputSnapshot;
use crate::input::InputV;
use crate::input::opt_input_view;
use crate::input::opt_input_wf;
use crate::input::snap;
use crate::input::snap_axis;
use vstd::prelude::*;

verus! {

/// Speed after one tick of linear decay, clamped into
/// [`BASE_SPEED`, `DASH_SPEED`].
pub open spec fn decay_speed(speed: int, dt: int) -> int {
    clamp_i(
        speed - (SPEED_FALLOFF_PER_MS as int) * dt,
        BASE_SPEED as int,
        DASH_SPEED as int,
    )
}

/// The vector the facing is renormalized from: the aim reading when any of
/// its axes survives the dead zone, else the previous facing.
pub open spec fn aim_target(u: UnitV, i: InputV) -> Vec2V {
    let ax = snap(i.aim_x);
    let ay = snap(i.aim_y);
    if ax != 0 || ay != 0 {
        Vec2V { x: ax, y: ay }
    } else {
        u.facing
    }
}

/// One movement update. In order: speed decay and the dash timer counting
/// down; velocity and position from the dead-zoned movement stick (the
/// position is confined to the arena box); a dash — speed jumps to
/// `DASH_SPEED`, the cooldown resets — on a fresh press once the cooldown
/// has elapsed, taking effect in the velocity from the next tick on; facing
/// renormalized from the aim stick, or from itself when the aim stays inside
/// the dead zone. Without a snapshot only the decay and the dash timer run:
/// the unit holds position, velocity and facing.
pub open spec fn move_step(u: UnitV, inp: Option<InputV>, dt: int) -> UnitV {
    let speed1 = decay_speed(u.speed, dt);
    let dash_cd1 = cd_dec(u.dash_cooldown, dt);
    match inp {
        None => UnitV {
            id: u.id,
            health: u.health,
            speed: speed1,
            facing: u.facing,
            dash_cooldown: dash_cd1,
            fire_cooldown: u.fire_cooldown,
            pos: u.pos,
            vel: u.vel,
        },
        Some(i) => {
            let vel = Vec2V {
                x: scaled_vel(speed1, snap(i.move_x)),
                y: scaled_vel(speed1, snap(i.move_y)),
            };
            let pos = Vec2V {
                x: clamp_i(
                    u.pos.x + scaled_delta(vel.x, dt),
                    -(ARENA_HALF_X as int),
                    ARENA_HALF_X as int,
                ),
                y: clamp_i(
                    u.pos.y + scaled_delta(vel.y, dt),
                    -(ARENA_HALF_Y as int),
                    ARENA_HALF_Y as int,
                ),
            };
            let dashing = i.dash_pressed && dash_cd1 <= 0;
            UnitV {
                id: u.id,
                health: u.health,
                speed: if dashing {
                    DASH_SPEED as int
                } else {
                    speed1
                },
                facing: normalize_spec(aim_target(u, i)),
                dash_cooldown: if dashing {
                    DASH_COOLDOWN_MS as int
                } else {
                    dash_cd1
                },
                fire_cooldown: u.fire_cooldown,
                pos,
                vel,
            }
        },
    }
}

/// A velocity component never exceeds the speed it is scaled from.
pub proof fn lemma_scaled_vel_bound(speed: int, m: int)
    requires
        0 <= speed,
        -1000 <= m <= 1000,
    ensures
        -speed <= scaled_vel(speed, m) <= speed,
{
    let mag = if m >= 0 {
        m
    } else {
        -m
    };
    assert(0 <= speed * mag <= speed * 1000) by (nonlinear_arith)
        requires
            0 <= speed,
            0 <= mag <= 1000,
    ;
    let q = (speed * mag) / 1000;
    crate::geom::lemma_div_facts(speed * mag, 1000);
    assert(q <= speed) by (nonlinear_arith)
        requires
            q * 1000 <= speed * 1000,
    ;
}

/// A movement update takes a well-formed unit to a well-formed unit.
pub proof fn lemma_move_step_wf(u: UnitV, inp: Option<InputV>, dt: int)
    requires
        unit_wf(u),
        opt_input_wf(inp),
        0 <= dt <= DT_MAX_MS as int,
    ensures
        unit_wf(move_step(u, inp, dt)),
{
    match inp {
        None => {},
        Some(i) => {
            let speed1 = decay_speed(u.speed, dt);
            lemma_scaled_vel_bound(speed1, snap(i.move_x));
            lemma_scaled_vel_bound(speed1, snap(i.move_y));
            let t = aim_target(u, i);
            let ax = snap(i.aim_x);
            let ay = snap(i.aim_y);
            if ax != 0 || ay != 0 {
                assert(ax * ax + ay * ay >= 10_000) by (nonlinear_arith)
                    requires
                        (ax >= 101 || ax <= -101 || ax == 0) && (ay >= 101 || ay <= -101
                            || ay == 0) && (ax != 0 || ay != 0),
                ;
            }
            crate::geom::lemma_normalize_tolerance(t);
        },
    }
}

/// Run the movement controller for one unit and one tick.
pub fn movement_tick(u: &mut Unit, inp: Option<InputSnapshot>, dt_ms: i64)
    requires
        unit_wf(old(u)@),
        opt_input_wf(opt_input_view(inp)),
        0 <= dt_ms <= DT_MAX_MS,
    ensures
        final(u)@ == move_step(old(u)@, opt_input_view(inp), dt_ms as int),
        unit_wf(final(u)@),
        BASE_SPEED <= final(u).speed <= DASH_SPEED,
        DIR_SQ_MIN <= norm_sq(final(u)@.facing) <= DIR_SQ_MAX,
{
    let decayed: i64 = u.speed - SPEED_FALLOFF_PER_MS * dt_ms;
    u.speed = if decayed < BASE_SPEED {
        BASE_SPEED
    } else if decayed > DASH_SPEED {
        DASH_SPEED
    } else {
        decayed
    };
    let dcd: i64 = u.dash_cooldown - dt_ms;
    u.dash_cooldown = if dcd < COOLDOWN_FLOOR_MS {
        COOLDOWN_FLOOR_MS
    } else {
        dcd
    };
    match inp {
        None => {},
        Some(i) => {
            let mx = snap_axis(i.move_x);
            let my = snap_axis(i.move_y);
            let vx = vel_component(u.speed, mx);
            let vy = vel_component(u.speed, my);
            u.vel = Vec2 { x: vx, y: vy };
            let nx: i64 = u.pos.x + travel(vx, dt_ms);
            let ny: i64 = u.pos.y + travel(vy, dt_ms);
            u.pos = Vec2 {
                x: if nx < -ARENA_HALF_X {
                    -ARENA_HALF_X
                } else if nx > ARENA_HALF_X {
                    ARENA_HALF_X
                } else {
                    nx
                },
                y: if ny < -ARENA_HALF_Y {
                    -ARENA_HALF_Y
                } else if ny > ARENA_HALF_Y {
                    ARENA_HALF_Y
                } else {
                    ny
                },
            };
            if i.dash_pressed && u.dash_cooldown <= 0 {
                u.speed = DASH_SPEED;
                u.dash_cooldown = DASH_COOLDOWN_MS;
            }
            let ax = snap_axis(i.aim_x);
            let ay = snap_axis(i.aim_y);
            let tgt: Vec2 = if ax != 0 || ay != 0 {
                Vec2 { x: ax, y: ay }
            } else {
                u.facing
            };
            proof {
                if ax != 0 || ay != 0 {
                    assert(ax * ax + ay * ay >= 10_000) by (nonlinear_arith)
                        requires
                            (ax >= 101 || ax <= -101 || ax == 0) && (ay >= 101 || ay <= -101
                                || ay == 0) && (ax != 0 || ay != 0),
                    ;
                }
            }
            u.facing = normalize(tgt);
        },
    }
}

/// Run the movement controller over the whole unit table for one tick,
/// each unit against its own input slot.
pub fn movement_pass(units: &mut Vec<Unit>, inputs: &Vec<Option<InputSnapshot>>, dt_ms: i64)
    requires
        forall|k: int| 0 <= k < old(units)@.len() ==> unit_wf((#[trigger] old(units)@[k])@),
        inputs@.len() == old(units)@.len(),
        forall|k: int|
            0 <= k < inputs@.len() ==> opt_input_wf(opt_input_view(#[trigger] inputs@[k])),
        0 <= dt_ms <= DT_MAX_MS,
    ensures
        final(units)@.len() == old(units)@.len(),
        vunits(final(units)@) == Seq::new(
            old(units)@.len(),
            |k: int| move_step(old(units)@[k]@, opt_input_view(inputs@[k]), dt_ms as int),
        ),
        forall|k: int| 0 <= k < final(units)@.len() ==> unit_wf((#[trigger] final(units)@[k])@),
{
    let n = units.len();
    let mut k: usize = 0;
    while k < n
        invariant
            n == units@.len(),
            old(units)@.len() == n,
            inputs@.len() == n,
            0 <= k <= n,
            0 <= dt_ms <= DT_MAX_MS,
            forall|m: int| k <= m < n ==> units@[m] == old(units)@[m],
            forall|m: int| 0 <= m < n ==> unit_wf((#[trigger] old(units)@[m])@),
            forall|m: int|
                0 <= m < n ==> opt_input_wf(opt_input_view(#[trigger] inputs@[m])),
            forall|m: int|
                0 <= m < k ==> (#[trigger] units@[m])@ == move_step(
                    old(units)@[m]@,
                    opt_input_view(inputs@[m]),
                    dt_ms as int,
                ),
            forall|m: int| 0 <= m < k ==> unit_wf((#[trigger] units@[m])@),
        decreases n - k,
    {
        let mut u = units[k];
        movement_tick(&mut u, inputs[k], dt_ms);
        units.set(k, u);
        k = k + 1;
    }
    proof {
        assert(vunits(units@) =~= Seq::new(
            old(units)@.len(),
            |m: int| move_step(old(units)@[m]@, opt_input_view(inputs@[m]), dt_ms as int),
        ));
    }
}

} // verus!
