//! The entity tables' row types — units, projectiles, transient hit
//! effects — their tuning constants, well-formedness invariants, and the
//! shared fixed-point update arithmetic.

use crate::geom::MILLI;
use crate::geom::Vec2;
use crate::geom::Vec2V;
use crate::geom::dir_wf;
use vstd::prelude::*;

verus! {

/// Cruising speed of a unit, milli-units per second.
pub const BASE_SPEED: i64 = 300_000;

/// Speed at the instant a dash triggers, milli-units per second.
pub const DASH_SPEED: i64 = 1_500_000;

/// Linear speed decay per millisecond: a dash falls back to `BASE_SPEED`
/// over 200 ms, so `(DASH_SPEED - BASE_SPEED) / 200`.
pub const SPEED_FALLOFF_PER_MS: i64 = 6_000;

/// Time a second dash is blocked after one triggers, milliseconds.
pub const DASH_COOLDOWN_MS: i64 = 500;

/// Time a second shot is blocked after one fires, milliseconds.
pub const FIRE_COOLDOWN_MS: i64 = 800;

/// Cooldown timers count down past zero but never below this floor; only
/// their sign gates actions, so the floor changes no behavior.
pub const COOLDOWN_FLOOR_MS: i64 = -1_000_000;

/// Speed given to a spawned projectile along the owner's facing,
/// milli-units per second.
pub const BULLET_SPEED: i64 = 1_500_000;

/// Collision radius of a unit, milli-units.
pub const UNIT_RADIUS: i64 = 50_000;

/// Collision radius of a projectile, milli-units.
pub const BULLET_RADIUS: i64 = 10_000;

/// Lifetime of a hit effect, milliseconds.
pub const EFFECT_LIFETIME_MS: i64 = 50;

/// Arena half-width: positions are confined to [-`ARENA_HALF_X`, `ARENA_HALF_X`].
pub const ARENA_HALF_X: i64 = 640_000;

/// Arena half-height.
pub const ARENA_HALF_Y: i64 = 360_000;

/// Health every unit starts with.
pub const START_HEALTH: i32 = 3;

/// Largest tick delta the core accepts, milliseconds.
pub const DT_MAX_MS: i64 = 60_000;

/// Largest magnitude a projectile velocity component can reach:
/// bullet speed along a direction component plus inherited unit velocity.
pub const PROJ_VEL_MAX: i64 = 3_100_000;

/// A player-controlled combat entity.
#[derive(Clone, Copy, Debug, PartialEq, Eq, Structural)]
pub struct Unit {
    /// Stable controller-slot id; never changes after spawn.
    pub id: u32,
    /// Remaining health; damage has no floor above the machine limit.
    pub health: i32,
    /// Current speed, milli-units per second.
    pub speed: i64,
    /// Aim direction, a direction of length `MILLI` within tolerance.
    pub facing: Vec2,
    /// Dash cooldown, milliseconds; a dash is allowed only when not positive.
    pub dash_cooldown: i64,
    /// Fire cooldown, milliseconds; a shot is allowed only when not positive.
    pub fire_cooldown: i64,
    /// Position, milli-units, confined to the arena box.
    pub pos: Vec2,
    /// Velocity set by the last movement update, milli-units per second.
    pub vel: Vec2,
}

/// The mathematical value of a unit.
pub ghost struct UnitV {
    pub id: int,
    pub health: int,
    pub speed: int,
    pub facing: Vec2V,
    pub dash_cooldown: int,
    pub fire_cooldown: int,
    pub pos: Vec2V,
    pub vel: Vec2V,
}

impl View for Unit {
    type V = UnitV;

    open spec fn view(&self) -> UnitV {
        UnitV {
            id: self.id as int,
            health: self.health as int,
            speed: self.speed as int,
            facing: self.facing@,
            dash_cooldown: self.dash_cooldown as int,
            fire_cooldown: self.fire_cooldown as int,
            pos: self.pos@,
            vel: self.vel@,
        }
    }
}

/// A projectile in flight.
#[derive(Clone, Copy, Debug, PartialEq, Eq, Structural)]
pub struct Projectile {
    /// Unique id, assigned from the world's spawn counter.
    pub id: u64,
    /// Id of the unit that fired it; that unit is never damaged by it.
    pub owner: u32,
    /// Position, milli-units.
    pub pos: Vec2,
    /// Velocity, milli-units per second, fixed at spawn.
    pub vel: Vec2,
}

/// The mathematical value of a projectile.
pub ghost struct ProjectileV {
    pub id: int,
    pub owner: int,
    pub pos: Vec2V,
    pub vel: Vec2V,
}

impl View for Projectile {
    type V = ProjectileV;

    open spec fn view(&self) -> ProjectileV {
        ProjectileV {
            id: self.id as int,
            owner: self.owner as int,
            pos: self.pos@,
            vel: self.vel@,
        }
    }
}

/// A transient visual-feedback entity spawned on a hit.
#[derive(Clone, Copy, Debug, PartialEq, Eq, Structural)]
pub struct Effect {
    /// Id of the unit the effect gives feedback for; used for positioning
    /// only, never for lifetime control.
    pub parent: u32,
    /// Remaining lifetime, milliseconds; the effect is removed on the first
    /// tick this goes negative.
    pub timer_ms: i64,
}

/// The mathematical value of an effect.
pub ghost struct EffectV {
    pub parent: int,
    pub timer_ms: int,
}

impl View for Effect {
    type V = EffectV;

    open spec fn view(&self) -> EffectV {
        EffectV { parent: self.parent as int, timer_ms: self.timer_ms as int }
    }
}

/// A point inside the arena box.
pub open spec fn in_arena(p: Vec2V) -> bool {
    &&& -(ARENA_HALF_X as int) <= p.x <= ARENA_HALF_X as int
    &&& -(ARENA_HALF_Y as int) <= p.y <= ARENA_HALF_Y as int
}

/// Unit invariant: speed inside [`BASE_SPEED`, `DASH_SPEED`], facing a
/// direction of unit length within tolerance, position inside the arena,
/// velocity bounded by the current top speed, cooldowns between their floor
/// and their reset value, health inside the machine range.
pub open spec fn unit_wf(u: UnitV) -> bool {
    &&& BASE_SPEED as int <= u.speed <= DASH_SPEED as int
    &&& dir_wf(u.facing)
    &&& in_arena(u.pos)
    &&& -(DASH_SPEED as int) <= u.vel.x <= DASH_SPEED as int
    &&& -(DASH_SPEED as int) <= u.vel.y <= DASH_SPEED as int
    &&& COOLDOWN_FLOOR_MS as int <= u.dash_cooldown <= DASH_COOLDOWN_MS as int
    &&& COOLDOWN_FLOOR_MS as int <= u.fire_cooldown <= FIRE_COOLDOWN_MS as int
    &&& i32::MIN as int <= u.health <= i32::MAX as int
    &&& 0 <= u.id <= u32::MAX as int
}

/// Projectile invariant: inside the arena, velocity bounded.
pub open spec fn proj_wf(p: ProjectileV) -> bool {
    &&& in_arena(p.pos)
    &&& -(PROJ_VEL_MAX as int) <= p.vel.x <= PROJ_VEL_MAX as int
    &&& -(PROJ_VEL_MAX as int) <= p.vel.y <= PROJ_VEL_MAX as int
    &&& 0 <= p.id <= u64::MAX as int
    &&& 0 <= p.owner <= u32::MAX as int
}

/// No two projectiles in the table carry the same id.
pub open spec fn distinct_pids(s: Seq<ProjectileV>) -> bool {
    forall|i: int, j: int|
        0 <= i < j < s.len() ==> (#[trigger] s[i]).id != (#[trigger] s[j]).id
}

/// Effect invariant: a live effect's timer is between zero and the full
/// lifetime.
pub open spec fn effect_wf(e: EffectV) -> bool {
    &&& 0 <= e.timer_ms <= EFFECT_LIFETIME_MS as int
    &&& 0 <= e.parent <= u32::MAX as int
}

/// Clamp `a` into [`lo`, `hi`].
pub open spec fn clamp_i(a: int, lo: int, hi: int) -> int {
    if a < lo {
        lo
    } else if a > hi {
        hi
    } else {
        a
    }
}

/// One cooldown step: count down by `dt`, never below the floor.
pub open spec fn cd_dec(cd: int, dt: int) -> int {
    if cd - dt < COOLDOWN_FLOOR_MS as int {
        COOLDOWN_FLOOR_MS as int
    } else {
        cd - dt
    }
}

/// `v * dt / MILLI` rounded toward zero: the distance covered in `dt`
/// milliseconds at `v` milli-units per second.
pub open spec fn scaled_delta(v: int, dt: int) -> int {
    if v >= 0 {
        (v * dt) / (MILLI as int)
    } else {
        -(((-v) * dt) / (MILLI as int))
    }
}

/// `speed * m / MILLI` rounded toward zero: the velocity component for a
/// nonnegative speed and an axis reading `m`.
pub open spec fn scaled_vel(speed: int, m: int) -> int {
    if m >= 0 {
        (speed * m) / (MILLI as int)
    } else {
        -((speed * (-m)) / (MILLI as int))
    }
}

/// The mathematical values of a unit table.
pub open spec fn vunits(s: Seq<Unit>) -> Seq<UnitV> {
    s.map_values(|u: Unit| u@)
}

/// The mathematical values of a projectile table.
pub open spec fn vprojs(s: Seq<Projectile>) -> Seq<ProjectileV> {
    s.map_values(|p: Projectile| p@)
}

/// The mathematical values of an effect table.
pub open spec fn veffects(s: Seq<Effect>) -> Seq<EffectV> {
    s.map_values(|e: Effect| e@)
}

/// The sum of `dts[a..b]`: total elapsed time over a range of ticks.
pub open spec fn sum_range(dts: Seq<int>, a: int, b: int) -> int
    decreases b - a,
{
    if a >= b {
        0
    } else {
        dts[a] + sum_range(dts, a + 1, b)
    }
}

/// Extending a time range on the right adds its last tick.
pub proof fn lemma_sum_range_extend(dts: Seq<int>, a: int, b: int)
    requires
        a <= b,
    ensures
        sum_range(dts, a, b + 1) == sum_range(dts, a, b) + dts[b],
    decreases b - a,
{
    if a == b {
        assert(sum_range(dts, b + 1, b + 1) == 0);
        assert(sum_range(dts, a, b) == 0);
    } else {
        lemma_sum_range_extend(dts, a + 1, b);
    }
}

/// The velocity component for speed `speed` and axis reading `m`:
/// `speed * m / MILLI`, rounded toward zero, never exceeding `speed`
/// in magnitude.
pub fn vel_component(speed: i64, m: i64) -> (r: i64)
    requires
        0 <= speed <= DASH_SPEED,
        -1000 <= m <= 1000,
    ensures
        r == scaled_vel(speed as int, m as int),
        -speed <= r <= speed,
{
    let mag: i64 = if m >= 0 {
        m
    } else {
        -m
    };
    assert(0 <= speed * mag <= speed * 1000) by (nonlinear_arith)
        requires
            0 <= speed,
            0 <= mag <= 1000,
    ;
    let q: i64 = speed * mag / 1000;
    proof {
        crate::geom::lemma_div_facts(speed * mag, 1000);
        assert(q <= speed) by (nonlinear_arith)
            requires
                q * 1000 <= speed * 1000,
        ;
    }
    if m >= 0 {
        q
    } else {
        -q
    }
}

/// The distance covered in `dt` milliseconds at `v` milli-units per second:
/// `v * dt / MILLI`, rounded toward zero.
pub fn travel(v: i64, dt: i64) -> (r: i64)
    requires
        -4_000_000 <= v <= 4_000_000,
        0 <= dt <= DT_MAX_MS,
    ensures
        r == scaled_delta(v as int, dt as int),
        -240_000_000 <= r <= 240_000_000,
{
    let mag: i64 = if v >= 0 {
        v
    } else {
        -v
    };
    assert(0 <= mag * dt <= 240_000_000_000) by (nonlinear_arith)
        requires
            0 <= mag <= 4_000_000,
            0 <= dt <= 60_000,
    ;
    let q: i64 = mag * dt / 1000;
    proof {
        crate::geom::lemma_div_facts(mag * dt, 1000);
        assert(q <= 240_000_000) by (nonlinear_arith)
            requires
                q * 1000 <= 240_000_000_000,
        ;
    }
    if v >= 0 {
        q
    } else {
        -q
    }
}

impl Unit {
    /// A freshly spawned unit: full health, cruising speed, facing along
    /// positive x, both cooldowns elapsed, at rest at (`x`, `y`).
    pub fn spawn(id: u32, x: i64, y: i64) -> (u: Unit)
        requires
            -ARENA_HALF_X <= x <= ARENA_HALF_X,
            -ARENA_HALF_Y <= y <= ARENA_HALF_Y,
        ensures
            u@ == (UnitV {
                id: id as int,
                health: START_HEALTH as int,
                speed: BASE_SPEED as int,
                facing: Vec2V { x: MILLI as int, y: 0 },
                dash_cooldown: 0,
                fire_cooldown: 0,
                pos: Vec2V { x: x as int, y: y as int },
                vel: Vec2V { x: 0, y: 0 },
            }),
            unit_wf(u@),
    {
        proof {
            assert((MILLI as int) * (MILLI as int) == 1_000_000 && 0int * 0int == 0int)
                by (nonlinear_arith);
        }
        Unit {
            id,
            health: START_HEALTH,
            speed: BASE_SPEED,
            facing: Vec2 { x: MILLI, y: 0 },
            dash_cooldown: 0,
            fire_cooldown: 0,
            pos: Vec2 { x, y },
            vel: Vec2 { x: 0, y: 0 },
        }
    }
}

} // verus!
