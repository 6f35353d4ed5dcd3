//! The combat controller: per unit and per tick it counts the fire timer
//! down and, while fire is held once the timer has elapsed, spawns one
//! projectile along the unit's facing (inheriting the unit's velocity) and
//! resets the timer. Holding fire therefore yields one shot per
//! `FIRE_COOLDOWN_MS`, not one per tick; the rate law is proved in
//! [`lemma_fire_rate_limited`].

use crate::entities::BULLET_SPEED;
use crate::entities::DT_MAX_MS;
use crate::entities::FIRE_COOLDOWN_MS;
use crate::entities::Projectile;
use crate::entities::ProjectileV;
use crate::entities::Unit;
use crate::entities::UnitV;
use crate::entities::cd_dec;
use crate::entities::proj_wf;
use crate::entities::sum_range;
use crate::entities::lemma_sum_range_extend;
use crate::entities::unit_wf;
use crate::entities::vprojs;
use crate::entities::vunits;
use crate::geom::MILLI;
use crate::geom::Vec2;
use crate::geom::Vec2V;
use crate::input::InputSnapshot;
use crate::input::InputV;
use crate::input::opt_input_view;
use crate::input::opt_input_wf;
use crate::input::vinputs;
use vstd::prelude::*;

verus! {

/// Whether the unit fires this tick: a snapshot is present, fire is held,
/// and the fire timer — after this tick's countdown — has elapsed.
pub open spec fn combat_fires(u: UnitV, inp: Option<InputV>, dt: int) -> bool {
    match inp {
        Some(i) => i.fire_held && cd_dec(u.fire_cooldown, dt) <= 0,
        None => false,
    }
}

/// One combat update of the unit itself: the fire timer counts down, and
/// resets to `FIRE_COOLDOWN_MS` when a shot goes out. Nothing else changes.
pub open spec fn combat_unit_step(u: UnitV, inp: Option<InputV>, dt: int) -> UnitV {
    UnitV {
        id: u.id,
        health: u.health,
        speed: u.speed,
        facing: u.facing,
        dash_cooldown: u.dash_cooldown,
        fire_cooldown: if combat_fires(u, inp, dt) {
            FIRE_COOLDOWN_MS as int
        } else {
            cd_dec(u.fire_cooldown, dt)
        },
        pos: u.pos,
        vel: u.vel,
    }
}

/// The projectile a unit fires: spawned at the unit's position, owned by it,
/// with velocity `BULLET_SPEED` along the facing plus the unit's own
/// velocity (inherited momentum).
pub open spec fn spawned_projectile(u: UnitV, id: int) -> ProjectileV {
    ProjectileV {
        id,
        owner: u.id,
        pos: u.pos,
        vel: Vec2V {
            x: ((BULLET_SPEED as int) / (MILLI as int)) * u.facing.x + u.vel.x,
            y: ((BULLET_SPEED as int) / (MILLI as int)) * u.facing.y + u.vel.y,
        },
    }
}

/// Result of a combat pass: the updated units and the projectiles spawned,
/// in unit order.
pub ghost struct CombatOut {
    pub units: Seq<UnitV>,
    pub spawns: Seq<ProjectileV>,
}

/// The combat pass over the whole unit table, in table order. Spawned
/// projectiles take consecutive ids starting at `next_id`.
pub open spec fn combat_fold(
    units: Seq<UnitV>,
    inputs: Seq<Option<InputV>>,
    dt: int,
    next_id: int,
) -> CombatOut
    decreases units.len(),
{
    if units.len() == 0 {
        CombatOut { units: Seq::empty(), spawns: Seq::empty() }
    } else {
        let prev = combat_fold(
            units.drop_last(),
            inputs.subrange(0, units.len() - 1),
            dt,
            next_id,
        );
        let u = units.last();
        let inp = inputs[units.len() - 1];
        let u2 = combat_unit_step(u, inp, dt);
        if combat_fires(u, inp, dt) {
            CombatOut {
                units: prev.units.push(u2),
                spawns: prev.spawns.push(
                    spawned_projectile(u, next_id + prev.spawns.len()),
                ),
            }
        } else {
            CombatOut { units: prev.units.push(u2), spawns: prev.spawns }
        }
    }
}

/// Shape of a combat pass: units map pointwise through `combat_unit_step`,
/// well-formedness is preserved, and spawned projectiles are well-formed
/// with consecutive ids starting at `next_id`.
pub proof fn lemma_combat_fold_facts(
    units: Seq<UnitV>,
    inputs: Seq<Option<InputV>>,
    dt: int,
    next_id: int,
)
    requires
        inputs.len() == units.len(),
        forall|k: int| 0 <= k < units.len() ==> unit_wf(#[trigger] units[k]),
        0 <= dt <= DT_MAX_MS as int,
        0 <= next_id,
        next_id + units.len() <= u64::MAX as int,
    ensures
        ({
            let out = combat_fold(units, inputs, dt, next_id);
            &&& out.units.len() == units.len()
            &&& out.spawns.len() <= units.len()
            &&& forall|k: int|
                0 <= k < units.len() ==> #[trigger] out.units[k] == combat_unit_step(
                    units[k],
                    inputs[k],
                    dt,
                )
            &&& forall|k: int| 0 <= k < units.len() ==> unit_wf(#[trigger] out.units[k])
            &&& forall|k: int|
                0 <= k < out.spawns.len() ==> (#[trigger] out.spawns[k]).id == next_id + k
            &&& forall|k: int| 0 <= k < out.spawns.len() ==> proj_wf(#[trigger] out.spawns[k])
        }),
    decreases units.len(),
{
    if units.len() > 0 {
        let front = units.drop_last();
        let ifront = inputs.subrange(0, units.len() - 1);
        lemma_combat_fold_facts(front, ifront, dt, next_id);
        let u = units.last();
        let u2 = combat_unit_step(u, inputs[units.len() - 1], dt);
        assert(unit_wf(u2));
        if combat_fires(u, inputs[units.len() - 1], dt) {
            let prev = combat_fold(front, ifront, dt, next_id);
            let p = spawned_projectile(u, next_id + prev.spawns.len());
            assert(-1_513_500 <= ((BULLET_SPEED as int) / (MILLI as int)) * u.facing.x
                <= 1_513_500) by (nonlinear_arith)
                requires
                    -1009 <= u.facing.x <= 1009,
                    (BULLET_SPEED as int) / (MILLI as int) == 1500,
            ;
            assert(-1_513_500 <= ((BULLET_SPEED as int) / (MILLI as int)) * u.facing.y
                <= 1_513_500) by (nonlinear_arith)
                requires
                    -1009 <= u.facing.y <= 1009,
                    (BULLET_SPEED as int) / (MILLI as int) == 1500,
            ;
            assert(proj_wf(p));
        }
    }
}

/// Run the combat controller over the whole unit table for one tick.
/// Projectiles come back in unit order with consecutive ids from `next_id`.
pub fn combat_pass(
    units: &mut Vec<Unit>,
    inputs: &Vec<Option<InputSnapshot>>,
    dt_ms: i64,
    next_id: u64,
) -> (spawned: Vec<Projectile>)
    requires
        forall|k: int| 0 <= k < old(units)@.len() ==> unit_wf((#[trigger] old(units)@[k])@),
        inputs@.len() == old(units)@.len(),
        forall|k: int|
            0 <= k < inputs@.len() ==> opt_input_wf(opt_input_view(#[trigger] inputs@[k])),
        0 <= dt_ms <= DT_MAX_MS,
        next_id + old(units)@.len() <= u64::MAX,
    ensures
        ({
            let out = combat_fold(
                vunits(old(units)@),
                vinputs(inputs@),
                dt_ms as int,
                next_id as int,
            );
            &&& vunits(final(units)@) == out.units
            &&& vprojs(spawned@) == out.spawns
        }),
        final(units)@.len() == old(units)@.len(),
        spawned@.len() <= old(units)@.len(),
        forall|k: int| 0 <= k < final(units)@.len() ==> unit_wf((#[trigger] final(units)@[k])@),
        forall|k: int| 0 <= k < spawned@.len() ==> proj_wf((#[trigger] spawned@[k])@),
{
    let ghost gunits = vunits(units@);
    let ghost ginputs = vinputs(inputs@);
    let ghost gdt = dt_ms as int;
    let ghost gid = next_id as int;
    let n = units.len();
    let mut spawned: Vec<Projectile> = Vec::new();
    let mut k: usize = 0;
    proof {
        assert(gunits.subrange(0, 0) =~= Seq::<UnitV>::empty());
        assert(ginputs.subrange(0, 0) =~= Seq::<Option<InputV>>::empty());
        assert(vunits(units@.subrange(0, 0)) =~= Seq::<UnitV>::empty());
        assert(vprojs(spawned@) =~= Seq::<ProjectileV>::empty());
    }
    while k < n
        invariant
            n == units@.len(),
            old(units)@.len() == n,
            gunits.len() == n,
            ginputs.len() == n,
            inputs@.len() == n,
            0 <= k <= n,
            gunits == vunits(old(units)@),
            ginputs == vinputs(inputs@),
            gdt == dt_ms as int,
            gid == next_id as int,
            0 <= dt_ms <= DT_MAX_MS,
            next_id + n <= u64::MAX,
            forall|m: int| k <= m < n ==> units@[m] == old(units)@[m],
            forall|m: int| 0 <= m < n ==> unit_wf((#[trigger] old(units)@[m])@),
            forall|m: int|
                0 <= m < n ==> opt_input_wf(opt_input_view(#[trigger] inputs@[m])),
            spawned@.len() <= k,
            ({
                let out = combat_fold(
                    gunits.subrange(0, k as int),
                    ginputs.subrange(0, k as int),
                    gdt,
                    gid,
                );
                &&& vunits(units@.subrange(0, k as int)) == out.units
                &&& vprojs(spawned@) == out.spawns
            }),
            forall|m: int| 0 <= m < k ==> unit_wf((#[trigger] units@[m])@),
            forall|m: int| 0 <= m < spawned@.len() ==> proj_wf((#[trigger] spawned@[m])@),
        decreases n - k,
    {
        let ghost pre = units@;
        let ghost spre = spawned@;
        let u = units[k];
        let cd_raw: i64 = u.fire_cooldown - dt_ms;
        let cd: i64 = if cd_raw < crate::entities::COOLDOWN_FLOOR_MS {
            crate::entities::COOLDOWN_FLOOR_MS
        } else {
            cd_raw
        };
        let fires: bool = match &inputs[k] {
            Some(i) => i.fire_held && cd <= 0,
            None => false,
        };
        let mut u2 = u;
        u2.fire_cooldown = if fires {
            FIRE_COOLDOWN_MS
        } else {
            cd
        };
        units.set(k, u2);
        if fires {
            let p = Projectile {
                id: next_id + (spawned.len() as u64),
                owner: u.id,
                pos: u.pos,
                vel: Vec2 {
                    x: (BULLET_SPEED / MILLI) * u.facing.x + u.vel.x,
                    y: (BULLET_SPEED / MILLI) * u.facing.y + u.vel.y,
                },
            };
            proof {
                assert(-1_513_500 <= (BULLET_SPEED / MILLI) as int * (u.facing.x as int)
                    <= 1_513_500) by (nonlinear_arith)
                    requires
                        -1009 <= u.facing.x as int <= 1009,
                        (BULLET_SPEED / MILLI) as int == 1500,
                ;
                assert(-1_513_500 <= (BULLET_SPEED / MILLI) as int * (u.facing.y as int)
                    <= 1_513_500) by (nonlinear_arith)
                    requires
                        -1009 <= u.facing.y as int <= 1009,
                        (BULLET_SPEED / MILLI) as int == 1500,
                ;
            }
            spawned.push(p);
        }
        let ghost k1 = k as int + 1;
        proof {
            assert(units@.subrange(0, k as int) =~= pre.subrange(0, k as int));
            assert(gunits.subrange(0, k1).drop_last() =~= gunits.subrange(0, k as int));
            assert(ginputs.subrange(0, k1).subrange(0, k1 - 1) =~= ginputs.subrange(
                0,
                k as int,
            ));
            assert(gunits.subrange(0, k1).last() == gunits[k as int]);
            assert(gunits[k as int] == old(units)@[k as int]@);
            assert(ginputs.subrange(0, k1)[k1 - 1] == ginputs[k as int]);
            assert(ginputs[k as int] == opt_input_view(inputs@[k as int]));
            assert(u2@ == combat_unit_step(gunits[k as int], ginputs[k as int], gdt));
            assert(vunits(units@.subrange(0, k1)) =~= vunits(
                units@.subrange(0, k as int),
            ).push(u2@));
            let outk = combat_fold(
                gunits.subrange(0, k as int),
                ginputs.subrange(0, k as int),
                gdt,
                gid,
            );
            let outk1 = combat_fold(gunits.subrange(0, k1), ginputs.subrange(0, k1), gdt, gid);
            assert(outk1.units == outk.units.push(
                combat_unit_step(gunits[k as int], ginputs[k as int], gdt),
            ));
            assert(vunits(units@.subrange(0, k as int)) == outk.units);
            if combat_fires(gunits[k as int], ginputs[k as int], gdt) {
                assert(vprojs(spawned@) =~= vprojs(spre).push(spawned@.last()@));
                assert(spawned@.last()@ == spawned_projectile(
                    gunits[k as int],
                    gid + outk.spawns.len(),
                ));
            } else {
                assert(spawned@ == spre);
            }
        }
        k = k + 1;
    }
    proof {
        assert(gunits.subrange(0, n as int) =~= gunits);
        assert(ginputs.subrange(0, n as int) =~= ginputs);
        assert(units@.subrange(0, n as int) =~= units@);
    }
    spawned
}

/// A fire-cooldown trace: `us[k]` is the unit as the combat controller sees
/// it on tick `k` (its other fields may change between ticks, but only the
/// combat controller touches the fire timer), `inps[k]` and `dts[k]` are
/// that tick's input and elapsed time.
pub open spec fn combat_trace_wf(
    us: Seq<UnitV>,
    inps: Seq<Option<InputV>>,
    dts: Seq<int>,
) -> bool {
    &&& us.len() == dts.len() + 1
    &&& inps.len() == dts.len()
    &&& forall|k: int|
        0 <= k < dts.len() ==> 0 <= #[trigger] dts[k] <= DT_MAX_MS as int
    &&& forall|k: int|
        0 <= k < dts.len() ==> (#[trigger] us[k + 1]).fire_cooldown == combat_unit_step(
            us[k],
            inps[k],
            dts[k],
        ).fire_cooldown
}

/// After a shot on tick `i`, while no further shot goes out, the fire timer
/// stays at least the reset value minus the time elapsed since.
proof fn lemma_cd_floor_after_fire(
    us: Seq<UnitV>,
    inps: Seq<Option<InputV>>,
    dts: Seq<int>,
    i: int,
    k: int,
)
    requires
        combat_trace_wf(us, inps, dts),
        0 <= i < k <= dts.len(),
        combat_fires(us[i], inps[i], dts[i]),
        forall|m: int| i < m < k ==> !combat_fires(us[m], inps[m], #[trigger] dts[m]),
    ensures
        us[k].fire_cooldown >= FIRE_COOLDOWN_MS as int - sum_range(dts, i + 1, k),
    decreases k - i,
{
    if k == i + 1 {
        assert(us[k].fire_cooldown == FIRE_COOLDOWN_MS as int);
    } else {
        lemma_cd_floor_after_fire(us, inps, dts, i, k - 1);
        lemma_sum_range_extend(dts, i + 1, k - 1);
        assert(us[k].fire_cooldown == cd_dec(us[k - 1].fire_cooldown, dts[k - 1]));
    }
}

/// Rate law: between two consecutive shots by the same unit, at least
/// `FIRE_COOLDOWN_MS` of simulated time elapses (the sum of the tick deltas
/// after the first shot, up to and including the tick of the second).
pub proof fn lemma_fire_rate_limited(
    us: Seq<UnitV>,
    inps: Seq<Option<InputV>>,
    dts: Seq<int>,
    i: int,
    j: int,
)
    requires
        combat_trace_wf(us, inps, dts),
        0 <= i < j < dts.len(),
        combat_fires(us[i], inps[i], dts[i]),
        combat_fires(us[j], inps[j], dts[j]),
        forall|m: int| i < m < j ==> !combat_fires(us[m], inps[m], #[trigger] dts[m]),
    ensures
        sum_range(dts, i + 1, j + 1) >= FIRE_COOLDOWN_MS as int,
{
    lemma_cd_floor_after_fire(us, inps, dts, i, j);
    assert(cd_dec(us[j].fire_cooldown, dts[j]) <= 0);
    assert(us[j].fire_cooldown - dts[j] <= 0);
    lemma_sum_range_extend(dts, i + 1, j);
}

} // verus!
