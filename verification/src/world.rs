//! The world registry and the per-frame orchestrator: one `tick` runs, in
//! fixed order, movement over all units, combat over all units, projectile
//! flight, collision resolution over all projectile/unit pairs, and the
//! effect lifecycle. The order is load-bearing: combat sees this tick's
//! facing, and collision resolution sees this tick's fresh projectiles.

use crate::collision::lemma_resolve_fold_facts;
use crate::collision::resolve_fold;
use crate::collision::resolve_pass;
use crate::combat::combat_fold;
use crate::combat::combat_pass;
use crate::combat::lemma_combat_fold_facts;
use crate::effects::effects_fold;
use crate::effects::effects_pass;
use crate::effects::lemma_effects_fold_facts;
use crate::entities::ARENA_HALF_X;
use crate::entities::ARENA_HALF_Y;
use crate::entities::DT_MAX_MS;
use crate::entities::Effect;
use crate::entities::EffectV;
use crate::entities::Projectile;
use crate::entities::ProjectileV;
use crate::entities::Unit;
use crate::entities::UnitV;
use crate::entities::distinct_pids;
use crate::entities::effect_wf;
use crate::entities::in_arena;
use crate::entities::proj_wf;
use crate::entities::scaled_delta;
use crate::entities::travel;
use crate::entities::unit_wf;
use crate::entities::veffects;
use crate::entities::vprojs;
use crate::entities::vunits;
use crate::geom::Vec2;
use crate::geom::Vec2V;
use crate::input::InputSnapshot;
use crate::input::InputV;
use crate::input::opt_input_view;
use crate::input::opt_input_wf;
use crate::input::vinputs;
use crate::movement::move_step;
use crate::movement::movement_pass;
use vstd::prelude::*;

verus! {

/// Where the units spawn: at (-`UNIT_START_X`, 0) and (`UNIT_START_X`, 0).
pub const UNIT_START_X: i64 = 150_000;

/// The entity registry: typed tables for units, projectiles and effects,
/// and the counter the next projectile id comes from.
pub struct World {
    pub units: Vec<Unit>,
    pub projectiles: Vec<Projectile>,
    pub effects: Vec<Effect>,
    pub next_id: u64,
}

/// The mathematical value of a world.
pub ghost struct WorldV {
    pub units: Seq<UnitV>,
    pub projectiles: Seq<ProjectileV>,
    pub effects: Seq<EffectV>,
    pub next_id: int,
}

impl View for World {
    type V = WorldV;

    open spec fn view(&self) -> WorldV {
        WorldV {
            units: vunits(self.units@),
            projectiles: vprojs(self.projectiles@),
            effects: veffects(self.effects@),
            next_id: self.next_id as int,
        }
    }
}

/// World invariant: every row of every table is well-formed, every live
/// projectile's id is below the spawn counter, and no two live projectiles
/// share an id.
pub open spec fn world_wf(w: WorldV) -> bool {
    &&& forall|k: int| 0 <= k < w.units.len() ==> unit_wf(#[trigger] w.units[k])
    &&& forall|k: int|
        0 <= k < w.projectiles.len() ==> proj_wf(#[trigger] w.projectiles[k])
            && w.projectiles[k].id < w.next_id
    &&& distinct_pids(w.projectiles)
    &&& forall|k: int| 0 <= k < w.effects.len() ==> effect_wf(#[trigger] w.effects[k])
    &&& 0 <= w.next_id <= u64::MAX as int
}

/// A projectile after `dt` milliseconds of flight at its fixed velocity.
pub open spec fn moved_projectile(p: ProjectileV, dt: int) -> ProjectileV {
    ProjectileV {
        id: p.id,
        owner: p.owner,
        pos: Vec2V {
            x: p.pos.x + scaled_delta(p.vel.x, dt),
            y: p.pos.y + scaled_delta(p.vel.y, dt),
        },
        vel: p.vel,
    }
}

/// The flight pass over the whole projectile table, in table order: each
/// projectile advances along its velocity; one that leaves the arena box is
/// removed — without that cap a projectile that never hits anything would
/// be tracked forever.
pub open spec fn advance_fold(projs: Seq<ProjectileV>, dt: int) -> Seq<ProjectileV>
    decreases projs.len(),
{
    if projs.len() == 0 {
        Seq::empty()
    } else {
        let prev = advance_fold(projs.drop_last(), dt);
        let p = moved_projectile(projs.last(), dt);
        if in_arena(p.pos) {
            prev.push(p)
        } else {
            prev
        }
    }
}

/// Shape of a flight pass: the table never grows, every surviving
/// projectile is a moved incoming one, and well-formedness is preserved.
pub proof fn lemma_advance_fold_facts(projs: Seq<ProjectileV>, dt: int)
    requires
        forall|k: int| 0 <= k < projs.len() ==> proj_wf(#[trigger] projs[k]),
    ensures
        ({
            let out = advance_fold(projs, dt);
            &&& out.len() <= projs.len()
            &&& forall|k: int| 0 <= k < out.len() ==> proj_wf(#[trigger] out[k])
            &&& forall|k: int|
                0 <= k < out.len() ==> exists|m: int|
                    0 <= m < projs.len() && (#[trigger] out[k]) == moved_projectile(projs[m], dt)
            &&& distinct_pids(projs) ==> distinct_pids(out)
        }),
    decreases projs.len(),
{
    if projs.len() > 0 {
        let front = projs.drop_last();
        lemma_advance_fold_facts(front, dt);
        let prev = advance_fold(front, dt);
        let out = advance_fold(projs, dt);
        assert(distinct_pids(projs) ==> distinct_pids(front)) by {
            if distinct_pids(projs) {
                assert forall|i: int, j: int|
                    0 <= i < j < front.len() implies (#[trigger] front[i]).id
                    != (#[trigger] front[j]).id by {
                    assert(front[i] == projs[i]);
                    assert(front[j] == projs[j]);
                }
            }
        }
        assert forall|k: int|
            0 <= k < out.len() implies exists|m: int|
            0 <= m < projs.len() && (#[trigger] out[k]) == moved_projectile(projs[m], dt) by {
            if k < prev.len() {
                let m = choose|m: int|
                    0 <= m < front.len() && prev[k] == moved_projectile(front[m], dt);
                assert(projs[m] == front[m]);
                assert(out[k] == moved_projectile(projs[m], dt));
            } else {
                assert(out[k] == moved_projectile(projs[projs.len() - 1], dt));
            }
        }
        if distinct_pids(projs) {
            assert forall|k1: int, k2: int|
                0 <= k1 < k2 < out.len() implies (#[trigger] out[k1]).id
                != (#[trigger] out[k2]).id by {
                if k2 < prev.len() {
                    assert(prev[k1].id != prev[k2].id);
                } else {
                    let m = choose|m: int|
                        0 <= m < front.len() && prev[k1] == moved_projectile(front[m], dt);
                    assert(front[m] == projs[m]);
                    assert(out[k2] == moved_projectile(projs[projs.len() - 1], dt));
                    assert(projs[m].id != projs[projs.len() - 1].id);
                }
            }
        }
    }
}

/// Advance every projectile along its velocity for one tick; projectiles
/// that leave the arena box are removed.
pub fn advance_pass(projs: &mut Vec<Projectile>, dt_ms: i64)
    requires
        forall|k: int| 0 <= k < old(projs)@.len() ==> proj_wf((#[trigger] old(projs)@[k])@),
        0 <= dt_ms <= DT_MAX_MS,
    ensures
        vprojs(final(projs)@) == advance_fold(vprojs(old(projs)@), dt_ms as int),
        forall|k: int| 0 <= k < final(projs)@.len() ==> proj_wf((#[trigger] final(projs)@[k])@),
        final(projs)@.len() <= old(projs)@.len(),
{
    let ghost gprojs = vprojs(projs@);
    let n = projs.len();
    let mut kept: Vec<Projectile> = Vec::new();
    let mut k: usize = 0;
    proof {
        assert(gprojs.subrange(0, 0) =~= Seq::<ProjectileV>::empty());
        assert(vprojs(kept@) =~= Seq::<ProjectileV>::empty());
    }
    while k < n
        invariant
            n == projs@.len(),
            gprojs == vprojs(projs@),
            gprojs.len() == n,
            0 <= k <= n,
            0 <= dt_ms <= DT_MAX_MS,
            forall|m: int| 0 <= m < n ==> proj_wf((#[trigger] projs@[m])@),
            vprojs(kept@) == advance_fold(gprojs.subrange(0, k as int), dt_ms as int),
            forall|m: int| 0 <= m < kept@.len() ==> proj_wf((#[trigger] kept@[m])@),
            kept@.len() <= k,
        decreases n - k,
    {
        let ghost kpre = vprojs(kept@);
        let p = projs[k];
        let nx: i64 = p.pos.x + travel(p.vel.x, dt_ms);
        let ny: i64 = p.pos.y + travel(p.vel.y, dt_ms);
        if -ARENA_HALF_X <= nx && nx <= ARENA_HALF_X && -ARENA_HALF_Y <= ny && ny
            <= ARENA_HALF_Y {
            kept.push(Projectile { id: p.id, owner: p.owner, pos: Vec2 { x: nx, y: ny }, vel: p.vel });
        }
        let ghost k1 = k as int + 1;
        proof {
            assert(gprojs.subrange(0, k1).drop_last() =~= gprojs.subrange(0, k as int));
            assert(gprojs.subrange(0, k1).last() == gprojs[k as int]);
            assert(gprojs[k as int] == projs@[k as int]@);
            let moved = moved_projectile(gprojs[k as int], dt_ms as int);
            if in_arena(moved.pos) {
                assert(vprojs(kept@) =~= kpre.push(moved));
            } else {
                assert(vprojs(kept@) == kpre);
            }
        }
        k = k + 1;
    }
    proof {
        assert(gprojs.subrange(0, n as int) =~= gprojs);
    }
    *projs = kept;
}

/// The whole simulated frame, as one function of the previous world, the
/// tick's inputs (one slot per unit, in table order) and the elapsed time:
/// movement, then combat, then projectile flight, then collision
/// resolution, then the effect lifecycle. Effects spawned by this tick's
/// hits are not aged until the next tick.
pub open spec fn tick_spec(w: WorldV, inputs: Seq<Option<InputV>>, dt: int) -> WorldV {
    let moved = Seq::new(w.units.len(), |k: int| move_step(w.units[k], inputs[k], dt));
    let c = combat_fold(moved, inputs, dt, w.next_id);
    let flying = advance_fold(w.projectiles + c.spawns, dt);
    let r = resolve_fold(c.units, flying);
    WorldV {
        units: r.units,
        projectiles: r.kept,
        effects: effects_fold(w.effects, dt) + r.effects,
        next_id: w.next_id + c.spawns.len(),
    }
}

/// The state a unit starts in at controller slot `id` and position (`x`, 0).
pub open spec fn start_unit(id: int, x: int) -> UnitV {
    UnitV {
        id,
        health: crate::entities::START_HEALTH as int,
        speed: crate::entities::BASE_SPEED as int,
        facing: Vec2V { x: crate::geom::MILLI as int, y: 0 },
        dash_cooldown: 0,
        fire_cooldown: 0,
        pos: Vec2V { x, y: 0 },
        vel: Vec2V { x: 0, y: 0 },
    }
}

/// Damage law at the frame level: whenever a unit's health changes over a
/// tick it can only have dropped, and some projectile whose owner is not
/// that unit hit it during collision resolution — a unit is never damaged
/// by its own projectile.
pub proof fn lemma_tick_no_self_damage(
    w: WorldV,
    inputs: Seq<Option<InputV>>,
    dt: int,
    k: int,
)
    requires
        world_wf(w),
        inputs.len() == w.units.len(),
        forall|m: int| 0 <= m < inputs.len() ==> opt_input_wf(#[trigger] inputs[m]),
        0 <= dt <= DT_MAX_MS as int,
        w.next_id + w.units.len() <= u64::MAX as int,
        0 <= k < w.units.len(),
        tick_spec(w, inputs, dt).units[k].health != w.units[k].health,
    ensures
        tick_spec(w, inputs, dt).units[k].health < w.units[k].health,
        ({
            let moved = Seq::new(w.units.len(), |m: int| move_step(w.units[m], inputs[m], dt));
            let c = combat_fold(moved, inputs, dt, w.next_id);
            let flying = advance_fold(w.projectiles + c.spawns, dt);
            let r = resolve_fold(c.units, flying);
            exists|m: int|
                0 <= m < r.hits.len() && (#[trigger] r.hits[m]).target_idx == k
                    && r.hits[m].proj.owner != w.units[k].id
        }),
{
    let moved = Seq::new(w.units.len(), |m: int| move_step(w.units[m], inputs[m], dt));
    assert forall|m: int| 0 <= m < moved.len() implies unit_wf(#[trigger] moved[m]) by {
        crate::movement::lemma_move_step_wf(w.units[m], inputs[m], dt);
    }
    lemma_combat_fold_facts(moved, inputs, dt, w.next_id);
    let c = combat_fold(moved, inputs, dt, w.next_id);
    let flying = advance_fold(w.projectiles + c.spawns, dt);
    lemma_resolve_fold_facts(c.units, flying);
    let r = resolve_fold(c.units, flying);
    assert(c.units[k].health == w.units[k].health);
    assert(c.units[k].id == w.units[k].id);
    assert(r.units[k].health != c.units[k].health);
    let m = choose|m: int| 0 <= m < r.hits.len() && (#[trigger] r.hits[m]).target_idx == k;
    assert(r.hits[m].target_id == c.units[k].id);
    assert(r.hits[m].proj.owner != w.units[k].id);
}

/// Consumption law, within a tick: a projectile that scores a hit during a
/// tick is consumed — it is not among the tick's surviving projectiles.
pub proof fn lemma_consumed_projectile_is_removed(
    w: WorldV,
    inputs: Seq<Option<InputV>>,
    dt: int,
    h: int,
)
    requires
        world_wf(w),
        inputs.len() == w.units.len(),
        forall|m: int| 0 <= m < inputs.len() ==> opt_input_wf(#[trigger] inputs[m]),
        0 <= dt <= DT_MAX_MS as int,
        w.next_id + w.units.len() <= u64::MAX as int,
        ({
            let moved = Seq::new(w.units.len(), |m: int| move_step(w.units[m], inputs[m], dt));
            let c = combat_fold(moved, inputs, dt, w.next_id);
            let flying = advance_fold(w.projectiles + c.spawns, dt);
            0 <= h < resolve_fold(c.units, flying).hits.len()
        }),
    ensures
        ({
            let moved = Seq::new(w.units.len(), |m: int| move_step(w.units[m], inputs[m], dt));
            let c = combat_fold(moved, inputs, dt, w.next_id);
            let flying = advance_fold(w.projectiles + c.spawns, dt);
            let r = resolve_fold(c.units, flying);
            forall|k: int|
                0 <= k < tick_spec(w, inputs, dt).projectiles.len()
                    ==> (#[trigger] tick_spec(w, inputs, dt).projectiles[k]).id
                    != r.hits[h].proj.id
        }),
{
    let moved = Seq::new(w.units.len(), |m: int| move_step(w.units[m], inputs[m], dt));
    assert forall|m: int| 0 <= m < moved.len() implies unit_wf(#[trigger] moved[m]) by {
        crate::movement::lemma_move_step_wf(w.units[m], inputs[m], dt);
    }
    lemma_combat_fold_facts(moved, inputs, dt, w.next_id);
    let c = combat_fold(moved, inputs, dt, w.next_id);
    let comb = w.projectiles + c.spawns;
    assert forall|i: int, j: int|
        0 <= i < j < comb.len() implies (#[trigger] comb[i]).id != (#[trigger] comb[j]).id by {
        let nl = w.projectiles.len() as int;
        if j < nl {
            assert(comb[i] == w.projectiles[i]);
            assert(comb[j] == w.projectiles[j]);
        } else if i < nl {
            assert(comb[i] == w.projectiles[i]);
            assert(comb[j] == c.spawns[j - nl]);
        } else {
            assert(comb[i] == c.spawns[i - nl]);
            assert(comb[j] == c.spawns[j - nl]);
        }
    }
    assert(distinct_pids(comb));
    lemma_advance_fold_facts(comb, dt);
    let flying = advance_fold(comb, dt);
    lemma_resolve_fold_facts(c.units, flying);
    let r = resolve_fold(c.units, flying);
    assert(tick_spec(w, inputs, dt).projectiles == r.kept);
}

/// Consumption law, across ticks: a projectile id that is absent from the
/// table and already below the spawn counter stays absent through any tick
/// (fresh spawns take ids at or above the counter). With the law above:
/// once a projectile is consumed by a hit, no projectile with its id ever
/// flies again, so a given projectile decrements health at most once over
/// its entire existence.
pub proof fn lemma_absent_id_stays_absent(
    w: WorldV,
    inputs: Seq<Option<InputV>>,
    dt: int,
    x: int,
)
    requires
        world_wf(w),
        inputs.len() == w.units.len(),
        forall|m: int| 0 <= m < inputs.len() ==> opt_input_wf(#[trigger] inputs[m]),
        0 <= dt <= DT_MAX_MS as int,
        w.next_id + w.units.len() <= u64::MAX as int,
        forall|k: int| 0 <= k < w.projectiles.len() ==> (#[trigger] w.projectiles[k]).id != x,
        x < w.next_id,
    ensures
        forall|k: int|
            0 <= k < tick_spec(w, inputs, dt).projectiles.len()
                ==> (#[trigger] tick_spec(w, inputs, dt).projectiles[k]).id != x,
        x < tick_spec(w, inputs, dt).next_id,
{
    let moved = Seq::new(w.units.len(), |m: int| move_step(w.units[m], inputs[m], dt));
    assert forall|m: int| 0 <= m < moved.len() implies unit_wf(#[trigger] moved[m]) by {
        crate::movement::lemma_move_step_wf(w.units[m], inputs[m], dt);
    }
    lemma_combat_fold_facts(moved, inputs, dt, w.next_id);
    let c = combat_fold(moved, inputs, dt, w.next_id);
    let comb = w.projectiles + c.spawns;
    lemma_advance_fold_facts(comb, dt);
    let flying = advance_fold(comb, dt);
    lemma_resolve_fold_facts(c.units, flying);
    let r = resolve_fold(c.units, flying);
    assert forall|k: int|
        0 <= k < tick_spec(w, inputs, dt).projectiles.len() implies (#[trigger] tick_spec(
        w,
        inputs,
        dt,
    ).projectiles[k]).id != x by {
        assert(tick_spec(w, inputs, dt).projectiles == r.kept);
        let m = choose|m: int| 0 <= m < flying.len() && r.kept[k] == flying[m];
        let m2 = choose|m2: int|
            0 <= m2 < comb.len() && flying[m] == moved_projectile(comb[m2], dt);
        if m2 < w.projectiles.len() {
            assert(comb[m2] == w.projectiles[m2]);
        } else {
            assert(comb[m2] == c.spawns[m2 - w.projectiles.len()]);
        }
    }
}

impl World {
    /// The starting world: two units, ids 0 and 1, facing each other's side
    /// of the arena at (-`UNIT_START_X`, 0) and (`UNIT_START_X`, 0); no
    /// projectiles, no effects, the spawn counter at zero.
    pub fn new() -> (w: World)
        ensures
            w@.units.len() == 2,
            w@.units[0] == start_unit(0, -(UNIT_START_X as int)),
            w@.units[1] == start_unit(1, UNIT_START_X as int),
            w@.projectiles.len() == 0,
            w@.effects.len() == 0,
            w@.next_id == 0,
            world_wf(w@),
    {
        let mut units: Vec<Unit> = Vec::new();
        units.push(Unit::spawn(0, -UNIT_START_X, 0));
        units.push(Unit::spawn(1, UNIT_START_X, 0));
        World { units, projectiles: Vec::new(), effects: Vec::new(), next_id: 0 }
    }

    /// Run one simulated frame over the whole registry.
    pub fn tick(&mut self, inputs: &Vec<Option<InputSnapshot>>, dt_ms: i64)
        requires
            world_wf(old(self)@),
            inputs@.len() == old(self)@.units.len(),
            forall|k: int|
                0 <= k < inputs@.len() ==> opt_input_wf(opt_input_view(#[trigger] inputs@[k])),
            0 <= dt_ms <= DT_MAX_MS,
            old(self)@.next_id + old(self)@.units.len() <= u64::MAX as int,
        ensures
            final(self)@ == tick_spec(old(self)@, vinputs(inputs@), dt_ms as int),
            world_wf(final(self)@),
    {
        let ghost w0 = self@;
        let ghost ginputs = vinputs(inputs@);
        let ghost gdt = dt_ms as int;
        proof {
            assert forall|k: int| 0 <= k < self.units@.len() implies unit_wf(
                (#[trigger] self.units@[k])@,
            ) by {
                assert(w0.units[k] == self.units@[k]@);
            }
        }

        movement_pass(&mut self.units, inputs, dt_ms);
        let ghost moved = vunits(self.units@);
        proof {
            assert forall|k: int| 0 <= k < moved.len() implies unit_wf(#[trigger] moved[k]) by {
                assert(moved[k] == self.units@[k]@);
            }
            assert(moved =~= Seq::new(
                w0.units.len(),
                |k: int| move_step(w0.units[k], ginputs[k], gdt),
            ));
        }

        let mut spawned = combat_pass(&mut self.units, inputs, dt_ms, self.next_id);
        proof {
            lemma_combat_fold_facts(moved, ginputs, gdt, w0.next_id);
        }
        let ghost c = combat_fold(moved, ginputs, gdt, w0.next_id);
        self.next_id = self.next_id + spawned.len() as u64;
        self.projectiles.append(&mut spawned);
        proof {
            assert(vprojs(self.projectiles@) =~= w0.projectiles + c.spawns);
            assert forall|k: int| 0 <= k < self.projectiles@.len() implies proj_wf(
                (#[trigger] self.projectiles@[k])@,
            ) by {
                assert(self.projectiles@[k]@ == (w0.projectiles + c.spawns)[k]);
                if k < w0.projectiles.len() {
                    assert((w0.projectiles + c.spawns)[k] == w0.projectiles[k]);
                } else {
                    assert((w0.projectiles + c.spawns)[k] == c.spawns[k - w0.projectiles.len()]);
                }
            }
        }

        advance_pass(&mut self.projectiles, dt_ms);
        proof {
            lemma_advance_fold_facts(w0.projectiles + c.spawns, gdt);
        }
        let ghost flying = advance_fold(w0.projectiles + c.spawns, gdt);

        let (kept, new_fx) = resolve_pass(&mut self.units, &self.projectiles);
        proof {
            lemma_resolve_fold_facts(c.units, flying);
        }
        let ghost r = resolve_fold(c.units, flying);
        self.projectiles = kept;

        proof {
            assert forall|k: int| 0 <= k < self.effects@.len() implies effect_wf(
                (#[trigger] self.effects@[k])@,
            ) by {
                assert(w0.effects[k] == self.effects@[k]@);
            }
        }
        effects_pass(&mut self.effects, dt_ms);
        proof {
            lemma_effects_fold_facts(w0.effects, gdt);
        }
        let mut new_fx = new_fx;
        self.effects.append(&mut new_fx);
        proof {
            assert(veffects(self.effects@) =~= effects_fold(w0.effects, gdt) + r.effects);
            assert(vunits(self.units@) == r.units);
            assert(vprojs(self.projectiles@) == r.kept);
            assert(self@ == tick_spec(w0, ginputs, gdt));
            assert forall|k: int| 0 <= k < self@.units.len() implies unit_wf(
                #[trigger] self@.units[k],
            ) by {
                assert(self@.units[k] == r.units[k]);
            }
            assert forall|k: int|
                0 <= k < self@.projectiles.len() implies proj_wf(#[trigger] self@.projectiles[k])
                && self@.projectiles[k].id < self@.next_id by {
                let m = choose|m: int|
                    0 <= m < flying.len() && r.kept[k] == flying[m];
                let m2 = choose|m2: int|
                    0 <= m2 < (w0.projectiles + c.spawns).len() && flying[m]
                        == moved_projectile((w0.projectiles + c.spawns)[m2], gdt);
                if m2 < w0.projectiles.len() {
                    assert((w0.projectiles + c.spawns)[m2] == w0.projectiles[m2]);
                } else {
                    assert((w0.projectiles + c.spawns)[m2] == c.spawns[
                        m2 - w0.projectiles.len()]);
                }
            }
            let comb = w0.projectiles + c.spawns;
            assert forall|i: int, j: int|
                0 <= i < j < comb.len() implies (#[trigger] comb[i]).id
                != (#[trigger] comb[j]).id by {
                let nl = w0.projectiles.len() as int;
                if j < nl {
                    assert(comb[i] == w0.projectiles[i]);
                    assert(comb[j] == w0.projectiles[j]);
                } else if i < nl {
                    assert(comb[i] == w0.projectiles[i]);
                    assert(comb[j] == c.spawns[j - nl]);
                } else {
                    assert(comb[i] == c.spawns[i - nl]);
                    assert(comb[j] == c.spawns[j - nl]);
                }
            }
            assert(distinct_pids(comb));
            assert(distinct_pids(flying));
            assert(distinct_pids(self@.projectiles));
            assert forall|k: int| 0 <= k < self@.effects.len() implies effect_wf(
                #[trigger] self@.effects[k],
            ) by {
                let aged = effects_fold(w0.effects, gdt);
                if k < aged.len() {
                    assert(self@.effects[k] == aged[k]);
                } else {
                    assert(self@.effects[k] == r.effects[k - aged.len()]);
                }
            }
        }
    }
}

} // verus!
