//! The collision resolver: once per tick, after movement and combat, each
//! projectile is tested in table order against each unit other than its
//! owner. On its first confirmed overlap the projectile is consumed — marked
//! and never tested again within the pass — the unit loses one health, and a
//! hit effect parented to that unit is spawned. A projectile therefore
//! scores at most one hit per tick, and never against its owner
//! ([`lemma_resolve_fold_facts`]).

use crate::entities::BULLET_RADIUS;
use crate::entities::EFFECT_LIFETIME_MS;
use crate::entities::Effect;
use crate::entities::EffectV;
use crate::entities::Projectile;
use crate::entities::ProjectileV;
use crate::entities::UNIT_RADIUS;
use crate::entities::Unit;
use crate::entities::UnitV;
use crate::entities::distinct_pids;
use crate::entities::effect_wf;
use crate::entities::proj_wf;
use crate::entities::unit_wf;
use crate::entities::veffects;
use crate::entities::vprojs;
use crate::entities::vunits;
use vstd::prelude::*;

verus! {

/// Whether a projectile and a unit geometrically overlap: their centers are
/// within the sum of the two collision radii.
pub open spec fn overlaps(p: ProjectileV, u: UnitV) -> bool {
    let dx = p.pos.x - u.pos.x;
    let dy = p.pos.y - u.pos.y;
    dx * dx + dy * dy <= ((UNIT_RADIUS + BULLET_RADIUS) as int) * ((UNIT_RADIUS
        + BULLET_RADIUS) as int)
}

/// Whether a projectile hits a unit: overlap, and the unit is not the owner.
pub open spec fn hits_unit(p: ProjectileV, u: UnitV) -> bool {
    u.id != p.owner && overlaps(p, u)
}

/// The first unit at index `j` or later that `p` hits, in table order.
pub open spec fn first_hit_from(units: Seq<UnitV>, p: ProjectileV, j: int) -> Option<int>
    decreases units.len() - j,
{
    if j < 0 || j >= units.len() {
        None
    } else if hits_unit(p, units[j]) {
        Some(j)
    } else {
        first_hit_from(units, p, j + 1)
    }
}

/// A found first hit is a hit, lies in range, and nothing before it hits.
pub proof fn lemma_first_hit_facts(units: Seq<UnitV>, p: ProjectileV, j: int)
    requires
        0 <= j <= units.len(),
    ensures
        match first_hit_from(units, p, j) {
            Some(h) => j <= h < units.len() && hits_unit(p, units[h]) && forall|m: int|
                j <= m < h ==> !hits_unit(p, #[trigger] units[m]),
            None => forall|m: int| j <= m < units.len() ==> !hits_unit(p, #[trigger] units[m]),
        },
    decreases units.len() - j,
{
    if j < units.len() && !hits_unit(p, units[j]) {
        lemma_first_hit_facts(units, p, j + 1);
    }
}

/// One health point lost, saturating only at the machine limit: the rules
/// put no floor at zero on health.
pub open spec fn dec_health(h: int) -> int {
    if h > i32::MIN as int {
        h - 1
    } else {
        h
    }
}

/// The hit unit: same in every field but one health point down.
pub open spec fn damaged_unit(u: UnitV) -> UnitV {
    UnitV {
        id: u.id,
        health: dec_health(u.health),
        speed: u.speed,
        facing: u.facing,
        dash_cooldown: u.dash_cooldown,
        fire_cooldown: u.fire_cooldown,
        pos: u.pos,
        vel: u.vel,
    }
}

/// The transient feedback spawned on a hit, parented to the hit unit.
pub open spec fn hit_effect(u: UnitV) -> EffectV {
    EffectV { parent: u.id, timer_ms: EFFECT_LIFETIME_MS as int }
}

/// One resolved hit: which projectile consumed itself against which unit.
pub ghost struct HitRec {
    pub proj: ProjectileV,
    pub target_idx: int,
    pub target_id: int,
}

/// Result of a resolver pass: updated units, surviving projectiles,
/// spawned effects, and the list of resolved hits.
pub ghost struct ResolveOut {
    pub units: Seq<UnitV>,
    pub kept: Seq<ProjectileV>,
    pub effects: Seq<EffectV>,
    pub hits: Seq<HitRec>,
}

/// The resolver pass over the whole projectile table, in table order. Each
/// projectile is tested against the unit table as earlier projectiles left
/// it; on its first hit it is consumed and not kept, otherwise it survives
/// unchanged.
pub open spec fn resolve_fold(units: Seq<UnitV>, projs: Seq<ProjectileV>) -> ResolveOut
    decreases projs.len(),
{
    if projs.len() == 0 {
        ResolveOut { units, kept: Seq::empty(), effects: Seq::empty(), hits: Seq::empty() }
    } else {
        let prev = resolve_fold(units, projs.drop_last());
        let p = projs.last();
        match first_hit_from(prev.units, p, 0) {
            None => ResolveOut {
                units: prev.units,
                kept: prev.kept.push(p),
                effects: prev.effects,
                hits: prev.hits,
            },
            Some(j) => ResolveOut {
                units: prev.units.update(j, damaged_unit(prev.units[j])),
                kept: prev.kept,
                effects: prev.effects.push(hit_effect(prev.units[j])),
                hits: prev.hits.push(
                    HitRec { proj: p, target_idx: j, target_id: prev.units[j].id },
                ),
            },
        }
    }
}

/// Shape of a resolver pass. In particular: every projectile either
/// survives or scores exactly one hit (`kept + hits` account for all of
/// them); no hit ever strikes the projectile's owner; health moves only
/// downward, and only on units that took a hit; every kept projectile is
/// one of the incoming ones, unchanged.
pub proof fn lemma_resolve_fold_facts(units: Seq<UnitV>, projs: Seq<ProjectileV>)
    requires
        forall|k: int| 0 <= k < units.len() ==> unit_wf(#[trigger] units[k]),
    ensures
        ({
            let out = resolve_fold(units, projs);
            &&& out.units.len() == units.len()
            &&& forall|k: int| 0 <= k < units.len() ==> unit_wf(#[trigger] out.units[k])
            &&& forall|k: int|
                0 <= k < units.len() ==> (#[trigger] out.units[k]).id == units[k].id
                    && out.units[k].health <= units[k].health
            &&& out.kept.len() + out.hits.len() == projs.len()
            &&& out.effects.len() == out.hits.len()
            &&& forall|k: int| 0 <= k < out.effects.len() ==> effect_wf(#[trigger] out.effects[k])
            &&& forall|k: int|
                0 <= k < out.hits.len() ==> (#[trigger] out.hits[k]).proj.owner
                    != out.hits[k].target_id
            &&& forall|k: int|
                0 <= k < out.hits.len() ==> 0 <= (#[trigger] out.hits[k]).target_idx
                    < units.len() && out.hits[k].target_id == units[out.hits[k].target_idx].id
            &&& forall|k: int|
                0 <= k < units.len() && (#[trigger] out.units[k]).health != units[k].health
                    ==> exists|m: int|
                    0 <= m < out.hits.len() && (#[trigger] out.hits[m]).target_idx == k
            &&& forall|k: int|
                0 <= k < out.kept.len() ==> exists|m: int|
                    0 <= m < projs.len() && (#[trigger] out.kept[k]) == projs[m]
            &&& forall|k: int|
                0 <= k < out.hits.len() ==> exists|m: int|
                    0 <= m < projs.len() && (#[trigger] out.hits[k]).proj == projs[m]
            &&& distinct_pids(projs) ==> distinct_pids(out.kept)
            &&& distinct_pids(projs) ==> forall|h: int, k: int|
                0 <= h < out.hits.len() && 0 <= k < out.kept.len()
                    ==> (#[trigger] out.hits[h]).proj.id != (#[trigger] out.kept[k]).id
        }),
    decreases projs.len(),
{
    if projs.len() > 0 {
        let front = projs.drop_last();
        lemma_resolve_fold_facts(units, front);
        let prev = resolve_fold(units, front);
        let p = projs.last();
        lemma_first_hit_facts(prev.units, p, 0);
        let out = resolve_fold(units, projs);
        assert(distinct_pids(projs) ==> distinct_pids(front)) by {
            if distinct_pids(projs) {
                assert forall|i: int, j: int|
                    0 <= i < j < front.len() implies (#[trigger] front[i]).id
                    != (#[trigger] front[j]).id by {
                    assert(front[i] == projs[i]);
                    assert(front[j] == projs[j]);
                }
            }
        }
        match first_hit_from(prev.units, p, 0) {
            None => {
                assert forall|k: int|
                    0 <= k < out.kept.len() implies exists|m: int|
                    0 <= m < projs.len() && (#[trigger] out.kept[k]) == projs[m] by {
                    if k < prev.kept.len() {
                        let m = choose|m: int|
                            0 <= m < front.len() && prev.kept[k] == front[m];
                        assert(projs[m] == front[m]);
                        assert(out.kept[k] == projs[m]);
                    } else {
                        assert(out.kept[k] == projs[projs.len() - 1]);
                    }
                }
                assert forall|k: int|
                    0 <= k < out.hits.len() implies exists|m: int|
                    0 <= m < projs.len() && (#[trigger] out.hits[k]).proj == projs[m] by {
                    let m = choose|m: int|
                        0 <= m < front.len() && prev.hits[k].proj == front[m];
                    assert(projs[m] == front[m]);
                    assert(out.hits[k].proj == projs[m]);
                }
                if distinct_pids(projs) {
                    assert forall|k1: int, k2: int|
                        0 <= k1 < k2 < out.kept.len() implies (#[trigger] out.kept[k1]).id
                        != (#[trigger] out.kept[k2]).id by {
                        if k2 < prev.kept.len() {
                            assert(prev.kept[k1].id != prev.kept[k2].id);
                        } else {
                            let m = choose|m: int|
                                0 <= m < front.len() && prev.kept[k1] == front[m];
                            assert(front[m] == projs[m]);
                            assert(out.kept[k2] == projs[projs.len() - 1]);
                            assert(projs[m].id != projs[projs.len() - 1].id);
                        }
                    }
                    assert forall|h: int, k: int|
                        0 <= h < out.hits.len() && 0 <= k < out.kept.len() implies (
                        #[trigger] out.hits[h]).proj.id != (#[trigger] out.kept[k]).id by {
                        if k < prev.kept.len() {
                            assert(prev.hits[h].proj.id != prev.kept[k].id);
                        } else {
                            let m = choose|m: int|
                                0 <= m < front.len() && prev.hits[h].proj == front[m];
                            assert(front[m] == projs[m]);
                            assert(out.kept[k] == projs[projs.len() - 1]);
                            assert(projs[m].id != projs[projs.len() - 1].id);
                        }
                    }
                }
            },
            Some(j) => {
                assert(hits_unit(p, prev.units[j]));
                assert(prev.units[j].id != p.owner);
                assert forall|k: int|
                    0 <= k < out.kept.len() implies exists|m: int|
                    0 <= m < projs.len() && (#[trigger] out.kept[k]) == projs[m] by {
                    let m = choose|m: int| 0 <= m < front.len() && prev.kept[k] == front[m];
                    assert(projs[m] == front[m]);
                    assert(out.kept[k] == projs[m]);
                }
                assert forall|k: int|
                    0 <= k < out.hits.len() implies exists|m: int|
                    0 <= m < projs.len() && (#[trigger] out.hits[k]).proj == projs[m] by {
                    if k < prev.hits.len() {
                        let m = choose|m: int|
                            0 <= m < front.len() && prev.hits[k].proj == front[m];
                        assert(projs[m] == front[m]);
                        assert(out.hits[k].proj == projs[m]);
                    } else {
                        assert(out.hits[k].proj == projs[projs.len() - 1]);
                    }
                }
                if distinct_pids(projs) {
                    assert forall|k1: int, k2: int|
                        0 <= k1 < k2 < out.kept.len() implies (#[trigger] out.kept[k1]).id
                        != (#[trigger] out.kept[k2]).id by {
                        assert(prev.kept[k1].id != prev.kept[k2].id);
                    }
                    assert forall|h: int, k: int|
                        0 <= h < out.hits.len() && 0 <= k < out.kept.len() implies (
                        #[trigger] out.hits[h]).proj.id != (#[trigger] out.kept[k]).id by {
                        if h < prev.hits.len() {
                            assert(prev.hits[h].proj.id != prev.kept[k].id);
                        } else {
                            let m = choose|m: int|
                                0 <= m < front.len() && prev.kept[k] == front[m];
                            assert(front[m] == projs[m]);
                            assert(out.hits[h].proj == projs[projs.len() - 1]);
                            assert(projs[m].id != projs[projs.len() - 1].id);
                        }
                    }
                }
                assert forall|k: int|
                    0 <= k < units.len() && (#[trigger] out.units[k]).health != units[k].health
                        implies exists|m: int|
                    0 <= m < out.hits.len() && (#[trigger] out.hits[m]).target_idx == k by {
                    if k == j && prev.units[k].health == units[k].health {
                        assert(out.hits[out.hits.len() - 1].target_idx == k);
                    } else {
                        assert(prev.units[k].health != units[k].health);
                        let m = choose|m: int|
                            0 <= m < prev.hits.len() && (#[trigger] prev.hits[m]).target_idx
                                == k;
                        assert(out.hits[m].target_idx == k);
                    }
                }
            },
        }
    }
}

/// Run the collision resolver for one tick: test each projectile, in table
/// order, against every unit it does not own; apply first-hit damage and
/// consumption. Returns the surviving projectiles and the spawned effects.
pub fn resolve_pass(units: &mut Vec<Unit>, projs: &Vec<Projectile>) -> (r: (
    Vec<Projectile>,
    Vec<Effect>,
))
    requires
        forall|k: int| 0 <= k < old(units)@.len() ==> unit_wf((#[trigger] old(units)@[k])@),
        forall|k: int| 0 <= k < projs@.len() ==> proj_wf((#[trigger] projs@[k])@),
    ensures
        ({
            let out = resolve_fold(vunits(old(units)@), vprojs(projs@));
            &&& vunits(final(units)@) == out.units
            &&& vprojs(r.0@) == out.kept
            &&& veffects(r.1@) == out.effects
        }),
        final(units)@.len() == old(units)@.len(),
        forall|k: int| 0 <= k < final(units)@.len() ==> unit_wf((#[trigger] final(units)@[k])@),
{
    let ghost gunits = vunits(units@);
    let ghost gprojs = vprojs(projs@);
    let n = units.len();
    let np = projs.len();
    let mut kept: Vec<Projectile> = Vec::new();
    let mut fx: Vec<Effect> = Vec::new();
    let mut t: usize = 0;
    proof {
        lemma_resolve_fold_facts(gunits, gprojs);
        assert(gprojs.subrange(0, 0) =~= Seq::<ProjectileV>::empty());
        assert(vunits(units@) =~= resolve_fold(gunits, gprojs.subrange(0, 0)).units);
        assert(vprojs(kept@) =~= Seq::<ProjectileV>::empty());
        assert(veffects(fx@) =~= Seq::<EffectV>::empty());
    }
    while t < np
        invariant
            n == units@.len(),
            old(units)@.len() == n,
            gunits == vunits(old(units)@),
            gprojs == vprojs(projs@),
            gprojs.len() == np,
            projs@.len() == np,
            0 <= t <= np,
            forall|m: int| 0 <= m < n ==> unit_wf((#[trigger] units@[m])@),
            forall|m: int| 0 <= m < np ==> proj_wf((#[trigger] projs@[m])@),
            ({
                let out = resolve_fold(gunits, gprojs.subrange(0, t as int));
                &&& vunits(units@) == out.units
                &&& vprojs(kept@) == out.kept
                &&& veffects(fx@) == out.effects
            }),
        decreases np - t,
    {
        let ghost upre = vunits(units@);
        let ghost kpre = vprojs(kept@);
        let ghost fpre = veffects(fx@);
        let p = projs[t];
        let mut j: usize = 0;
        let mut hit_idx: usize = n;
        while j < n
            invariant
                n == units@.len(),
                0 <= j <= n,
                upre == vunits(units@),
                forall|m: int| 0 <= m < n ==> unit_wf((#[trigger] units@[m])@),
                p@ == gprojs[t as int],
                0 <= t < np,
                proj_wf(p@),
                hit_idx <= n,
                hit_idx == n ==> first_hit_from(upre, p@, 0) == first_hit_from(
                    upre,
                    p@,
                    j as int,
                ),
                hit_idx < n ==> first_hit_from(upre, p@, 0) == Some(hit_idx as int),
            decreases n - j,
        {
            if hit_idx == n {
                let u = units[j];
                if u.id != p.owner {
                    let dx: i64 = p.pos.x - u.pos.x;
                    let dy: i64 = p.pos.y - u.pos.y;
                    proof {
                        assert(0 <= dx * dx <= 1_638_400_000_000 && 0 <= dy * dy
                            <= 1_638_400_000_000) by (nonlinear_arith)
                            requires
                                -1_280_000 <= dx <= 1_280_000,
                                -1_280_000 <= dy <= 1_280_000,
                        ;
                    }
                    if dx * dx + dy * dy <= (UNIT_RADIUS + BULLET_RADIUS) * (UNIT_RADIUS
                        + BULLET_RADIUS) {
                        hit_idx = j;
                    }
                }
            }
            j = j + 1;
        }
        if hit_idx < n {
            let u = units[hit_idx];
            let mut u2 = u;
            u2.health = if u.health > i32::MIN {
                u.health - 1
            } else {
                u.health
            };
            units.set(hit_idx, u2);
            fx.push(Effect { parent: u.id, timer_ms: EFFECT_LIFETIME_MS });
            proof {
                assert(u2@ == damaged_unit(upre[hit_idx as int]));
                assert(vunits(units@) =~= upre.update(hit_idx as int, u2@));
                assert(veffects(fx@) =~= fpre.push(hit_effect(upre[hit_idx as int])));
            }
        } else {
            kept.push(p);
            proof {
                assert(vprojs(kept@) =~= kpre.push(p@));
            }
        }
        let ghost t1 = t as int + 1;
        proof {
            assert(gprojs.subrange(0, t1).drop_last() =~= gprojs.subrange(0, t as int));
            assert(gprojs.subrange(0, t1).last() == gprojs[t as int]);
            assert(p@ == gprojs[t as int]);
            let prev = resolve_fold(gunits, gprojs.subrange(0, t as int));
            assert(prev.units == upre);
            assert(prev.kept == kpre);
            assert(prev.effects == fpre);
            let out1 = resolve_fold(gunits, gprojs.subrange(0, t1));
            if hit_idx < n {
                assert(first_hit_from(upre, p@, 0) == Some(hit_idx as int));
                assert(out1.units == prev.units.update(
                    hit_idx as int,
                    damaged_unit(prev.units[hit_idx as int]),
                ));
                assert(out1.kept == prev.kept);
                assert(out1.effects == prev.effects.push(hit_effect(prev.units[hit_idx as int])));
            } else {
                assert(first_hit_from(upre, p@, n as int) is None);
                assert(first_hit_from(upre, p@, 0) is None);
                assert(out1.units == prev.units);
                assert(out1.kept == prev.kept.push(p@));
                assert(out1.effects == prev.effects);
            }
        }
        t = t + 1;
    }
    proof {
        assert(gprojs.subrange(0, np as int) =~= gprojs);
    }
    (kept, fx)
}

} // verus!
