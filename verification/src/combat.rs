//! Melee combat resolution: turns pending melee intent into additive
//! damage against the target's stats.

use crate::components::{CombatStats, LogEvent};
use crate::world::{EntityRec, World};
use vstd::prelude::*;

verus! {

/// The damage one strike deals: `max(0, power - defense)`, never negative.
pub open spec fn strike_damage(att: CombatStats, def: CombatStats) -> int {
    vstd::math::max(0, att.power - def.defense)
}

/// A strike never deals negative damage.
pub proof fn lemma_strike_damage_nonneg(att: CombatStats, def: CombatStats)
    ensures
        strike_damage(att, def) >= 0,
        strike_damage(att, def) == vstd::math::max(0, att.power - def.defense),
{
}

/// Attacker `i` lands a strike: it is live, intends melee, has stats, and
/// its target still is a live entity with stats. A target that lost its
/// stats earlier this tick is silently skipped — that is not an error.
pub open spec fn attack_lands(es: Seq<EntityRec>, i: int) -> bool {
    &&& 0 <= i < es.len()
    &&& es[i].alive
    &&& es[i].stats is Some
    &&& es[i].pending_melee matches Some(t) && t < es.len() && es[t as int].alive && es[t as int].stats is Some
}

/// The amounts appended to entity `t`'s damage accumulator by the first
/// `n` attackers, in attacker-index order.
pub open spec fn melee_adds(es: Seq<EntityRec>, t: int, n: int) -> Seq<i32>
    decreases n,
{
    if n <= 0 {
        Seq::empty()
    } else {
        let prev = melee_adds(es, t, n - 1);
        if attack_lands(es, n - 1) && es[n - 1].pending_melee == Some(t as usize) {
            prev.push(
                strike_damage(es[n - 1].stats.unwrap(), es[t].stats.unwrap()) as i32,
            )
        } else {
            prev
        }
    }
}

/// The damage notices emitted by the first `n` attackers, in order.
pub open spec fn melee_events(es: Seq<EntityRec>, n: int) -> Seq<LogEvent>
    decreases n,
{
    if n <= 0 {
        Seq::empty()
    } else {
        let prev = melee_events(es, n - 1);
        if attack_lands(es, n - 1) {
            let t = es[n - 1].pending_melee.unwrap();
            prev.push(
                LogEvent::Damage {
                    source: (n - 1) as usize,
                    target: t,
                    amount: strike_damage(es[n - 1].stats.unwrap(), es[t as int].stats.unwrap()) as i32,
                },
            )
        } else {
            prev
        }
    }
}

/// The exact effect of one combat pass: how `wn` and the emitted notices
/// relate to `wo` when `MeleeCombatSystem::run` runs. Every intent is
/// cleared; every target's accumulator grows by exactly its attackers'
/// strikes, in attacker order; everything else is unchanged.
pub open spec fn combat_rel(wo: World, wn: World, events: Seq<LogEvent>) -> bool {
    &&& wn.inv()
    &&& wn.map == wo.map
    &&& wn.player_pos == wo.player_pos
    &&& wn.entities@.len() == wo.entities@.len()
    &&& forall|i: int|
        0 <= i < wo.entities@.len() ==> #[trigger] wn.entities@[i] == (EntityRec {
            pending_melee: None,
            pending_damage: wn.entities@[i].pending_damage,
            ..wo.entities@[i]
        })
    &&& forall|t: int|
        0 <= t < wo.entities@.len() ==> #[trigger] wn.entities@[t].pending_damage@
            == wo.entities@[t].pending_damage@ + melee_adds(
            wo.entities@,
            t,
            wo.entities@.len() as int,
        )
    &&& events == melee_events(wo.entities@, wo.entities@.len() as int)
}

/// The combat resolver.
pub struct MeleeCombatSystem {}

impl MeleeCombatSystem {
    /// For every live entity holding melee intent and stats: if the target
    /// still is a live entity with stats, append `max(0, power - defense)`
    /// to the target's damage accumulator and emit a damage notice; in
    /// every case clear the attacker's intent. Damage from several
    /// attackers on one target accumulates additively.
    pub fn run(w: &mut World) -> (events: Vec<LogEvent>)
        requires
            old(w).inv(),
        ensures
            combat_rel(*old(w), *final(w), events@),
    {
        let ghost es0 = w.entities@;
        let mut events: Vec<LogEvent> = Vec::new();
        let n = w.entities.len();
        let mut i: usize = 0;
        while i < n
            invariant
                w.inv(),
                n == w.entities@.len(),
                i <= n,
                es0.len() == n,
                w.map == old(w).map,
                w.player_pos == old(w).player_pos,
                forall|j: int|
                    0 <= j < n ==> #[trigger] w.entities@[j] == (EntityRec {
                        pending_melee: if j < i {
                            None
                        } else {
                            es0[j].pending_melee
                        },
                        pending_damage: w.entities@[j].pending_damage,
                        ..es0[j]
                    }),
                forall|t: int|
                    0 <= t < n ==> #[trigger] w.entities@[t].pending_damage@
                        == es0[t].pending_damage@ + melee_adds(es0, t, i as int),
                events@ == melee_events(es0, i as int),
            decreases n - i,
        {
            let mut lands = false;
            let mut tgt: usize = 0;
            let mut att_stats = CombatStats { max_hp: 0, hp: 0, defense: 0, power: 0 };
            if w.entities[i].alive {
                match (&w.entities[i].pending_melee, &w.entities[i].stats) {
                    (Some(t), Some(sa)) => {
                        let t = *t;
                        if t < n {
                            let trec = &w.entities[t];
                            if trec.alive && trec.stats.is_some() {
                                lands = true;
                                tgt = t;
                                att_stats = *sa;
                            }
                        }
                    },
                    _ => {},
                }
            }
            proof {
                assert(lands == attack_lands(es0, i as int));
            }
            if lands {
                let def_stats = match &w.entities[tgt].stats {
                    Some(s) => *s,
                    None => CombatStats { max_hp: 0, hp: 0, defense: 0, power: 0 },
                };
                let diff = (att_stats.power as i64) - (def_stats.defense as i64);
                let amount: i32 = if diff > 0 {
                    diff as i32
                } else {
                    0
                };
                proof {
                    assert(amount == strike_damage(es0[i as int].stats.unwrap(), es0[tgt as int].stats.unwrap()));
                }
                let ghost es_pre = w.entities@;
                let trec = &mut w.entities[tgt];
                trec.pending_damage.push(amount);
                events.push(LogEvent::Damage { source: i, target: tgt, amount });
                proof {
                    assert forall|t: int| 0 <= t < n implies #[trigger] w.entities@[t].pending_damage@
                        == es0[t].pending_damage@ + melee_adds(es0, t, i + 1) by {
                        if t == tgt as int {
                            assert(melee_adds(es0, t, i + 1) == melee_adds(es0, t, i as int).push(
                                amount,
                            ));
                            assert(w.entities@[t].pending_damage@ == es_pre[t].pending_damage@.push(
                                amount,
                            ));
                        } else {
                            assert(w.entities@[t] == es_pre[t]);
                            assert(melee_adds(es0, t, i + 1) == melee_adds(es0, t, i as int));
                        }
                    }
                    assert(events@ == melee_events(es0, i + 1));
                    assert forall|j: int| 0 <= j < w.entities@.len() implies w.wf_entity(
                        #[trigger] w.entities@[j],
                    ) by {
                        if j != tgt as int {
                            assert(w.entities@[j] == es_pre[j]);
                        }
                        assert(forall|k: int|
                            0 <= k < es_pre[j].pending_damage@.len()
                                ==> #[trigger] es_pre[j].pending_damage@[k] >= 0);
                    }
                }
            } else {
                proof {
                    assert forall|t: int| 0 <= t < n implies #[trigger] w.entities@[t].pending_damage@
                        == es0[t].pending_damage@ + melee_adds(es0, t, i + 1) by {
                        assert(melee_adds(es0, t, i + 1) == melee_adds(es0, t, i as int));
                    }
                    assert(events@ == melee_events(es0, i + 1));
                }
            }
            let ghost es_mid = w.entities@;
            let rec = &mut w.entities[i];
            rec.pending_melee = None;
            proof {
                assert forall|j: int| 0 <= j < w.entities@.len() implies w.wf_entity(
                    #[trigger] w.entities@[j],
                ) by {
                    if j != i as int {
                        assert(w.entities@[j] == es_mid[j]);
                    }
                }
                assert forall|t: int| 0 <= t < n implies #[trigger] w.entities@[t].pending_damage@
                    == es0[t].pending_damage@ + melee_adds(es0, t, i + 1) by {
                    if t != i as int {
                        assert(w.entities@[t] == es_mid[t]);
                    } else {
                        assert(w.entities@[t].pending_damage@ == es_mid[t].pending_damage@);
                    }
                }
            }
            i += 1;
        }
        events
    }
}

} // verus!
