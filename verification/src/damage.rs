//! Damage application and the death sweep: accumulated damage is summed
//! and subtracted from hp once; entities at zero or negative health are
//! then removed (non-player) or notified (player).

use crate::components::{CombatStats, LogEvent};
use crate::world::{EntityRec, World};
use vstd::prelude::*;

verus! {

/// The sum of a damage accumulator.
pub open spec fn sum_of(s: Seq<i32>) -> int
    decreases s.len(),
{
    if s.len() == 0 {
        0
    } else {
        sum_of(s.drop_last()) + s.last()
    }
}

/// A sequence of non-negative amounts has a non-negative sum.
pub proof fn lemma_sum_nonneg(s: Seq<i32>)
    requires
        forall|k: int| 0 <= k < s.len() ==> #[trigger] s[k] >= 0,
    ensures
        sum_of(s) >= 0,
    decreases s.len(),
{
    if s.len() > 0 {
        lemma_sum_nonneg(s.drop_last());
    }
}

/// The hp an entity is left with after its accumulated damage is applied:
/// one subtraction, no clamping to zero — hp may go negative. Only the
/// machine floor of the 32-bit type bounds it.
pub open spec fn hp_after(stats: CombatStats, dmg: Seq<i32>) -> int {
    vstd::math::max(stats.hp - sum_of(dmg), i32::MIN as int)
}

/// How the damage system rewrites one entity: damage summed and subtracted
/// from hp for live entities with stats and a non-empty accumulator, and
/// the accumulator cleared in every case.
pub open spec fn damage_applied(eo: EntityRec, en: EntityRec) -> bool {
    &&& en == (EntityRec { stats: en.stats, pending_damage: en.pending_damage, ..eo })
    &&& en.pending_damage@ == Seq::<i32>::empty()
    &&& en.stats == (match eo.stats {
        Some(s) => if eo.alive && eo.pending_damage@.len() > 0 {
            Some(CombatStats { hp: hp_after(s, eo.pending_damage@) as i32, ..s })
        } else {
            Some(s)
        },
        None => None::<CombatStats>,
    })
}

/// The exact effect of one damage pass: how `wn` relates to `wo` when
/// `DamageSystem::run` runs. Every entity is rewritten by
/// `damage_applied`; nothing else changes.
pub open spec fn damage_rel(wo: World, wn: World) -> bool {
    &&& wn.inv()
    &&& wn.map == wo.map
    &&& wn.player_pos == wo.player_pos
    &&& wn.entities@.len() == wo.entities@.len()
    &&& forall|i: int|
        0 <= i < wo.entities@.len() ==> damage_applied(
            wo.entities@[i],
            #[trigger] wn.entities@[i],
        )
}

/// The damage applicator.
pub struct DamageSystem {}

impl DamageSystem {
    /// For every live entity with stats and a non-empty damage
    /// accumulator: subtract the accumulator's sum from hp in a single
    /// subtraction (hp may go negative; no clamping to zero). Every
    /// accumulator is cleared afterwards.
    pub fn run(w: &mut World)
        requires
            old(w).inv(),
        ensures
            damage_rel(*old(w), *final(w)),
    {
        let ghost es0 = w.entities@;
        let n = w.entities.len();
        let mut i: usize = 0;
        while i < n
            invariant
                w.inv(),
                n == w.entities@.len(),
                i <= n,
                es0.len() == n,
                w.map == old(w).map,
                w.player_pos == old(w).player_pos,
                forall|j: int| 0 <= j < i ==> damage_applied(es0[j], #[trigger] w.entities@[j]),
                forall|j: int| i <= j < n ==> #[trigger] w.entities@[j] == es0[j],
            decreases n - i,
        {
            let ghost es_pre = w.entities@;
            let has = w.entities[i].alive && w.entities[i].stats.is_some()
                && w.entities[i].pending_damage.len() > 0;
            if has {
                let mut total: i128 = 0;
                let dlen = w.entities[i].pending_damage.len();
                let mut k: usize = 0;
                while k < dlen
                    invariant
                        w.inv(),
                        n == w.entities@.len(),
                        i < n,
                        w.entities@ == es_pre,
                        dlen == w.entities@[i as int].pending_damage@.len(),
                        k <= dlen,
                        total == sum_of(w.entities@[i as int].pending_damage@.take(k as int)),
                        0 <= total <= (k as int) * (i32::MAX as int),
                    decreases dlen - k,
                {
                    let d = w.entities[i].pending_damage[k];
                    proof {
                        let s = w.entities@[i as int].pending_damage@;
                        assert(s.take(k + 1).drop_last() == s.take(k as int));
                        assert(s.take(k + 1).last() == s[k as int]);
                        assert(s[k as int] >= 0);
                        assert((k as int) * (i32::MAX as int) + (i32::MAX as int) == ((k + 1) as int)
                            * (i32::MAX as int)) by (nonlinear_arith);
                        assert((k as int) * (i32::MAX as int) <= (usize::MAX as int) * (
                        i32::MAX as int) < i128::MAX - i32::MAX) by (nonlinear_arith)
                            requires
                                0 <= k <= usize::MAX,
                        ;
                    }
                    total = total + (d as i128);
                    k += 1;
                }
                proof {
                    let s = w.entities@[i as int].pending_damage@;
                    assert(s.take(dlen as int) == s);
                    lemma_sum_nonneg(s);
                    assert((dlen as int) * (i32::MAX as int) <= (usize::MAX as int) * (
                    i32::MAX as int)) by (nonlinear_arith)
                        requires
                            0 <= dlen <= usize::MAX,
                    ;
                }
                let stats = match &w.entities[i].stats {
                    Some(s) => *s,
                    None => CombatStats { max_hp: 0, hp: 0, defense: 0, power: 0 },
                };
                let new_hp128 = (stats.hp as i128) - total;
                let new_hp: i32 = if new_hp128 < i32::MIN as i128 {
                    i32::MIN
                } else {
                    new_hp128 as i32
                };
                let rec = &mut w.entities[i];
                rec.stats = Some(CombatStats { hp: new_hp, ..stats });
                rec.pending_damage = Vec::new();
            } else {
                let rec = &mut w.entities[i];
                rec.pending_damage = Vec::new();
            }
            proof {
                assert(damage_applied(es0[i as int], w.entities@[i as int]));
                assert forall|j: int| 0 <= j < w.entities@.len() implies w.wf_entity(
                    #[trigger] w.entities@[j],
                ) by {
                    if j != i as int {
                        assert(w.entities@[j] == es_pre[j]);
                    }
                }
            }
            i += 1;
        }
    }
}

/// Which outcome the death sweep owes each entity this tick: removal for a
/// fallen non-player, a single defeat notice for a fallen player, nothing
/// otherwise — never both, never neither.
pub open spec fn fallen(e: EntityRec) -> bool {
    e.alive && (e.stats matches Some(s) && s.hp < 1)
}

/// The death notices emitted over the first `n` entities, in index order.
pub open spec fn death_events(es: Seq<EntityRec>, n: int) -> Seq<LogEvent>
    decreases n,
{
    if n <= 0 {
        Seq::empty()
    } else {
        let prev = death_events(es, n - 1);
        if fallen(es[n - 1]) {
            if es[n - 1].player {
                prev.push(LogEvent::PlayerDefeated { target: (n - 1) as usize })
            } else {
                prev.push(LogEvent::Removed { target: (n - 1) as usize })
            }
        } else {
            prev
        }
    }
}

/// The death notices that concern entity `t`.
pub open spec fn outcomes_for(evs: Seq<LogEvent>, t: int) -> int
    decreases evs.len(),
{
    if evs.len() == 0 {
        0
    } else {
        outcomes_for(evs.drop_last(), t) + (match evs.last() {
            LogEvent::Removed { target } => if target == t {
                1int
            } else {
                0
            },
            LogEvent::PlayerDefeated { target } => if target == t {
                1int
            } else {
                0
            },
            _ => 0,
        })
    }
}

/// An entity whose hp fell below 1 triggers exactly one outcome per sweep
/// — removal for a non-player, a defeat notice for the player — never
/// both, never neither; an entity still standing triggers none.
pub proof fn lemma_death_outcome_unique(es: Seq<EntityRec>, n: int, t: int)
    requires
        0 <= t < es.len(),
        0 <= n <= es.len(),
        n <= usize::MAX,
    ensures
        outcomes_for(death_events(es, n), t) == if t < n && fallen(es[t]) {
            1int
        } else {
            0int
        },
    decreases n,
{
    if n > 0 {
        lemma_death_outcome_unique(es, n - 1, t);
        let evs = death_events(es, n);
        let prev = death_events(es, n - 1);
        if fallen(es[n - 1]) {
            let e = if es[n - 1].player {
                LogEvent::PlayerDefeated { target: (n - 1) as usize }
            } else {
                LogEvent::Removed { target: (n - 1) as usize }
            };
            assert(evs == prev.push(e));
            assert(evs.drop_last() == prev);
            assert(evs.last() == e);
            assert(outcomes_for(evs, t) == outcomes_for(prev, t) + (if n - 1 == t {
                1int
            } else {
                0int
            }));
        } else {
            assert(evs == prev);
        }
    }
}

/// The exact effect of one death sweep: how `wn` and the emitted notices
/// relate to `wo` when `delete_the_dead` runs. Fallen non-players are
/// marked dead, the fallen player stays, and the notices are exactly
/// `death_events`.
pub open spec fn death_rel(wo: World, wn: World, events: Seq<LogEvent>) -> bool {
    &&& wn.inv()
    &&& wn.map == wo.map
    &&& wn.player_pos == wo.player_pos
    &&& wn.entities@.len() == wo.entities@.len()
    &&& forall|i: int|
        0 <= i < wo.entities@.len() ==> #[trigger] wn.entities@[i] == (EntityRec {
            alive: wo.entities@[i].alive && !(fallen(wo.entities@[i]) && !wo.entities@[i].player),
            ..wo.entities@[i]
        })
    &&& events == death_events(wo.entities@, wo.entities@.len() as int)
}

/// The death sweep. Every live entity whose hp fell below 1 triggers
/// exactly one outcome: a non-player is removed (marked dead) with a
/// removal notice; the player is never removed — a defeat notice is
/// emitted instead. Entities are removed only after the scan, never while
/// it runs.
pub fn delete_the_dead(w: &mut World) -> (events: Vec<LogEvent>)
    requires
        old(w).inv(),
    ensures
        death_rel(*old(w), *final(w), events@),
{
    let ghost es0 = w.entities@;
    let mut dead: Vec<usize> = Vec::new();
    let mut events: Vec<LogEvent> = Vec::new();
    let n = w.entities.len();
    let mut i: usize = 0;
    while i < n
        invariant
            w.inv(),
            n == w.entities@.len(),
            i <= n,
            w.entities@ == es0,
            events@ == death_events(es0, i as int),
            forall|k: int| 0 <= k < dead@.len() ==> #[trigger] dead@[k] < n,
            forall|k: int|
                0 <= k < dead@.len() ==> fallen(es0[#[trigger] dead@[k] as int]) && !es0[dead@[k] as int].player,
            forall|j: int|
                0 <= j < i && fallen(#[trigger] es0[j]) && !es0[j].player ==> exists|k: int|
                    0 <= k < dead@.len() && #[trigger] dead@[k] == j,
        decreases n - i,
    {
        let mut is_fallen = false;
        if w.entities[i].alive {
            match &w.entities[i].stats {
                Some(s) => {
                    if s.hp < 1 {
                        is_fallen = true;
                    }
                },
                None => {},
            }
        }
        let ghost dead0 = dead@;
        if is_fallen {
            if w.entities[i].player {
                events.push(LogEvent::PlayerDefeated { target: i });
            } else {
                events.push(LogEvent::Removed { target: i });
                dead.push(i);
            }
        }
        proof {
            assert forall|j: int|
                0 <= j < i + 1 && fallen(#[trigger] es0[j]) && !es0[j].player implies exists|
                k: int,
            |
                0 <= k < dead@.len() && #[trigger] dead@[k] == j by {
                if j == i as int {
                    assert(dead@[dead@.len() - 1] == j);
                } else {
                    let k = choose|k: int| 0 <= k < dead0.len() && #[trigger] dead0[k] == j;
                    assert(dead@[k] == j);
                }
            }
        }
        i += 1;
    }
    let m = dead.len();
    let mut k: usize = 0;
    while k < m
        invariant
            w.inv(),
            n == w.entities@.len(),
            es0.len() == n,
            m == dead@.len(),
            k <= m,
            w.map == old(w).map,
            w.player_pos == old(w).player_pos,
            forall|k2: int| 0 <= k2 < m ==> #[trigger] dead@[k2] < n,
            forall|k2: int|
                0 <= k2 < m ==> fallen(es0[#[trigger] dead@[k2] as int]) && !es0[dead@[k2] as int].player,
            forall|j: int|
                0 <= j < n && fallen(#[trigger] es0[j]) && !es0[j].player ==> exists|k2: int|
                    0 <= k2 < m && #[trigger] dead@[k2] == j,
            forall|j: int|
                0 <= j < n ==> #[trigger] w.entities@[j] == (EntityRec {
                    alive: es0[j].alive && !(exists|k2: int|
                        0 <= k2 < k && #[trigger] dead@[k2] == j),
                    ..es0[j]
                }),
        decreases m - k,
    {
        let vic = dead[k];
        let ghost es_pre = w.entities@;
        let rec = &mut w.entities[vic];
        rec.alive = false;
        proof {
            assert forall|j: int| 0 <= j < n implies #[trigger] w.entities@[j] == (EntityRec {
                alive: es0[j].alive && !(exists|k2: int|
                    0 <= k2 < k + 1 && #[trigger] dead@[k2] == j),
                ..es0[j]
            }) by {
                if j == vic as int {
                    assert(dead@[k as int] == j);
                } else {
                    assert(w.entities@[j] == es_pre[j]);
                    assert forall|k2: int|
                        0 <= k2 < k + 1 && #[trigger] dead@[k2] == j implies k2 < k by {}
                }
            }
            assert forall|j: int| 0 <= j < w.entities@.len() implies w.wf_entity(
                #[trigger] w.entities@[j],
            ) by {
                if j != vic as int {
                    assert(w.entities@[j] == es_pre[j]);
                }
            }
        }
        k += 1;
    }
    proof {
        assert forall|i2: int| 0 <= i2 < n implies #[trigger] w.entities@[i2] == (EntityRec {
            alive: es0[i2].alive && !(fallen(es0[i2]) && !es0[i2].player),
            ..es0[i2]
        }) by {
            if fallen(es0[i2]) && !es0[i2].player {
                let k2 = choose|k2: int| 0 <= k2 < m && #[trigger] dead@[k2] == i2;
                assert(0 <= k2 < m && dead@[k2] == i2);
            } else {
                assert forall|k2: int| 0 <= k2 < m implies #[trigger] dead@[k2] != i2 by {}
            }
        }
    }
    events
}

} // verus!
