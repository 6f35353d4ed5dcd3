//! The effect lifecycle: every tick each transient hit effect's timer counts
//! down by the elapsed time, and the effect is removed on the first tick the
//! timer goes negative — exactly when the accumulated elapsed time since
//! creation exceeds the configured lifetime, and never before
//! ([`lemma_effect_expiry`]).

use crate::entities::DT_MAX_MS;
use crate::entities::Effect;
use crate::entities::EffectV;
use crate::entities::effect_wf;
use crate::entities::lemma_sum_range_extend;
use crate::entities::sum_range;
use crate::entities::veffects;
use vstd::prelude::*;

verus! {

/// An effect after one tick: the timer counts down by `dt`.
pub open spec fn aged_effect(e: EffectV, dt: int) -> EffectV {
    EffectV { parent: e.parent, timer_ms: e.timer_ms - dt }
}

/// Whether an effect survives a tick: its counted-down timer is not yet
/// negative.
pub open spec fn effect_kept(e: EffectV, dt: int) -> bool {
    e.timer_ms - dt >= 0
}

/// The lifecycle pass over the whole effect table, in table order: each
/// effect ages, and exactly those whose timer stays nonnegative survive.
pub open spec fn effects_fold(effects: Seq<EffectV>, dt: int) -> Seq<EffectV>
    decreases effects.len(),
{
    if effects.len() == 0 {
        Seq::empty()
    } else {
        let prev = effects_fold(effects.drop_last(), dt);
        let e = effects.last();
        if effect_kept(e, dt) {
            prev.push(aged_effect(e, dt))
        } else {
            prev
        }
    }
}

/// Shape of a lifecycle pass: no effect outlives its timer, well-formedness
/// is preserved, and the table never grows.
pub proof fn lemma_effects_fold_facts(effects: Seq<EffectV>, dt: int)
    requires
        forall|k: int| 0 <= k < effects.len() ==> effect_wf(#[trigger] effects[k]),
        0 <= dt <= DT_MAX_MS as int,
    ensures
        ({
            let out = effects_fold(effects, dt);
            &&& out.len() <= effects.len()
            &&& forall|k: int| 0 <= k < out.len() ==> effect_wf(#[trigger] out[k])
        }),
    decreases effects.len(),
{
    if effects.len() > 0 {
        lemma_effects_fold_facts(effects.drop_last(), dt);
    }
}

/// Run the effect lifecycle over the whole effect table for one tick.
pub fn effects_pass(effects: &mut Vec<Effect>, dt_ms: i64)
    requires
        forall|k: int|
            0 <= k < old(effects)@.len() ==> effect_wf((#[trigger] old(effects)@[k])@),
        0 <= dt_ms <= DT_MAX_MS,
    ensures
        veffects(final(effects)@) == effects_fold(veffects(old(effects)@), dt_ms as int),
        forall|k: int|
            0 <= k < final(effects)@.len() ==> effect_wf((#[trigger] final(effects)@[k])@),
        final(effects)@.len() <= old(effects)@.len(),
{
    let ghost geffects = veffects(effects@);
    let n = effects.len();
    let mut kept: Vec<Effect> = Vec::new();
    let mut k: usize = 0;
    proof {
        assert(geffects.subrange(0, 0) =~= Seq::<EffectV>::empty());
        assert(veffects(kept@) =~= Seq::<EffectV>::empty());
    }
    while k < n
        invariant
            n == effects@.len(),
            geffects == veffects(effects@),
            geffects.len() == n,
            0 <= k <= n,
            0 <= dt_ms <= DT_MAX_MS,
            forall|m: int| 0 <= m < n ==> effect_wf((#[trigger] effects@[m])@),
            veffects(kept@) == effects_fold(geffects.subrange(0, k as int), dt_ms as int),
            forall|m: int| 0 <= m < kept@.len() ==> effect_wf((#[trigger] kept@[m])@),
            kept@.len() <= k,
        decreases n - k,
    {
        let ghost kpre = veffects(kept@);
        let e = effects[k];
        let t: i64 = e.timer_ms - dt_ms;
        if t >= 0 {
            kept.push(Effect { parent: e.parent, timer_ms: t });
        }
        let ghost k1 = k as int + 1;
        proof {
            assert(geffects.subrange(0, k1).drop_last() =~= geffects.subrange(0, k as int));
            assert(geffects.subrange(0, k1).last() == geffects[k as int]);
            assert(geffects[k as int] == effects@[k as int]@);
            if effect_kept(geffects[k as int], dt_ms as int) {
                assert(veffects(kept@) =~= kpre.push(
                    aged_effect(geffects[k as int], dt_ms as int),
                ));
            }
        }
        k = k + 1;
    }
    proof {
        assert(geffects.subrange(0, n as int) =~= geffects);
    }
    *effects = kept;
}

/// Accumulated time never shrinks as more ticks elapse.
proof fn lemma_sum_range_mono(dts: Seq<int>, a: int, m: int, b: int)
    requires
        0 <= a <= m <= b <= dts.len(),
        forall|k: int| 0 <= k < dts.len() ==> #[trigger] dts[k] >= 0,
    ensures
        sum_range(dts, a, m) <= sum_range(dts, a, b),
    decreases b - m,
{
    if m < b {
        lemma_sum_range_mono(dts, a, m + 1, b);
        lemma_sum_range_extend(dts, a, m);
    }
}

/// Expiry law: an effect created with `t0` milliseconds of lifetime survives
/// every one of the first `k` ticks exactly when the time accumulated over
/// those ticks does not exceed `t0` — it is removed on the first tick the
/// accumulated time exceeds its lifetime, and never before.
pub proof fn lemma_effect_expiry(t0: int, dts: Seq<int>, k: int)
    requires
        0 <= t0,
        forall|m: int| 0 <= m < dts.len() ==> #[trigger] dts[m] >= 0,
        0 <= k <= dts.len(),
    ensures
        (forall|m: int| 1 <= m <= k ==> t0 - sum_range(dts, 0, m) >= 0) <==> (t0 - sum_range(
            dts,
            0,
            k,
        ) >= 0),
{
    if k == 0 {
        assert(sum_range(dts, 0, 0) == 0);
    } else {
        if forall|m: int| 1 <= m <= k ==> t0 - sum_range(dts, 0, m) >= 0 {
            assert(t0 - sum_range(dts, 0, k) >= 0);
        }
        if t0 - sum_range(dts, 0, k) >= 0 {
            assert forall|m: int| 1 <= m <= k implies t0 - sum_range(dts, 0, m) >= 0 by {
                lemma_sum_range_mono(dts, 0, m, k);
            }
        }
    }
}

} // verus!
