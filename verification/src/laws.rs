//! The general guarantees of the engine, stated and proved once over the
//! specifications that the executable functions are verified against.

use vstd::prelude::*;

use crate::abilities::Resolve;
use crate::card::Card;
use crate::game::Game;
use crate::mana::Mana;
use crate::storage::key_value_or;
use crate::storage::key_store;
use crate::storage::has_key;
use crate::turn::all_players_passed;
use crate::turn::blocker_round;
use crate::turn::damage_link;
use crate::turn::greedy_assign;
use crate::turn::pass_participant;
use crate::turn::sum_assigned;
use crate::turn::AttackType;
use crate::turn::Priority;

verus! {

broadcast use vstd::std_specs::vec::group_vec_axioms, vstd::seq::group_seq_axioms;

/// Priority closure: while any player has not passed since the window was
/// last reset, the step cannot end, because the all-passed condition
/// fails.
pub proof fn lemma_priority_closure(g: Game, pr: Priority, j: int)
    requires
        0 <= j < g.players@.len(),
        !pr.passes_seq().contains(g.players@[j].id),
    ensures
        !all_players_passed(g, pr),
{
}

/// Priority closure: a freshly opened or reset window records nobody as
/// having passed, so every player must pass again before the step can
/// end.
pub proof fn lemma_fresh_window_blocks_step_end(g: Game, pr: Priority)
    requires
        g.players@.len() > 0,
        pr.passes_seq() == Seq::<usize>::empty(),
    ensures
        !all_players_passed(g, pr),
{
    assert(!pr.passes_seq().contains(g.players@[0].id));
}

/// Stack order: pushing A and then B leaves B on top, so B resolves
/// strictly before A, which is on top again afterwards.
pub proof fn lemma_stack_lifo(s: Seq<Resolve>, a: Resolve, b: Resolve)
    ensures
        s.push(a).push(b).last() == b,
        s.push(a).push(b).drop_last() == s.push(a),
        s.push(a).last() == a,
{
    assert(s.push(a).push(b).drop_last() =~= s.push(a));
}

/// Mana sufficiency: a pool is enough for a cost exactly when every
/// colored requirement is covered in kind and the colorless requirement
/// is covered by colorless mana plus the colored surplus; the empty cost
/// is always covered.
pub proof fn lemma_mana_sufficiency(pool: Mana, cost: Mana)
    ensures
        pool.enough_spec(cost) <==> (pool.white >= cost.white && pool.blue >= cost.blue
            && pool.black >= cost.black && pool.red >= cost.red && pool.green >= cost.green && (
        pool.white - cost.white) + (pool.blue - cost.blue) + (pool.black - cost.black) + (pool.red
            - cost.red) + (pool.green - cost.green) + pool.colorless >= cost.colorless),
        pool.enough_spec(Mana::zero()),
{
}

/// Combat damage conservation: distributing an attacker's power
/// automatically assigns in total exactly what the power loses, and never
/// more than the power itself.
pub proof fn lemma_auto_assign_conservation(
    blockers: Seq<usize>,
    tough: Seq<(usize, i16)>,
    assigns: Seq<(usize, i16)>,
    left: i16,
)
    requires
        left >= 0,
        blockers.no_duplicates(),
        forall|i: int|
            0 <= i < assigns.len() ==> !blockers.contains((#[trigger] assigns[i]).0),
    ensures
        ({
            let r = greedy_assign(blockers, tough, assigns, left);
            &&& 0 <= r.left <= left
            &&& sum_assigned(r.assigns) == sum_assigned(assigns) + (left - r.left)
        }),
    decreases blockers.len(),
{
    if blockers.len() == 0 || left <= 0 {
    } else {
        let b = blockers[0];
        let t = key_value_or(tough, b, 0);
        let avail: i16 = if t > 0 {
            t
        } else {
            0i16
        };
        let d: i16 = if avail < left {
            avail
        } else {
            left
        };
        assert(!has_key(assigns, b)) by {
            if has_key(assigns, b) {
                let i = choose|i: int| 0 <= i < assigns.len() && (#[trigger] assigns[i]).0 == b;
                assert(blockers.contains(assigns[i].0));
            }
        }
        let assigns2 = key_store(assigns, b, d);
        assert(assigns2 == assigns.push((b, d)));
        assert(sum_assigned(assigns2) == sum_assigned(assigns) + d) by {
            assert(assigns2.drop_last() =~= assigns);
        }
        let blockers2 = blockers.drop_first();
        assert forall|i: int|
            0 <= i < assigns2.len() implies !blockers2.contains((#[trigger] assigns2[i]).0) by {
            if blockers2.contains(assigns2[i].0) {
                let j = choose|j: int|
                    0 <= j < blockers2.len() && #[trigger] blockers2[j] == assigns2[i].0;
                assert(blockers[j + 1] == assigns2[i].0);
                if i < assigns.len() {
                    assert(blockers.contains(assigns[i].0));
                } else {
                    assert(assigns2[i].0 == b);
                    assert(blockers[0] == blockers[j + 1]);
                }
            }
        }
        lemma_auto_assign_conservation(
            blockers2,
            key_store(tough, b, (t - d) as i16),
            assigns2,
            (left - d) as i16,
        );
    }
}

/// Combat damage conservation: starting from no assignments, the total
/// damage an attacker with power `P` assigns automatically never exceeds
/// `P`.
pub proof fn lemma_damage_conservation(blockers: Seq<usize>, tough: Seq<(usize, i16)>, power: i16)
    requires
        power >= 0,
        blockers.no_duplicates(),
    ensures
        ({
            let r = greedy_assign(blockers, tough, Seq::<(usize, i16)>::empty(), power);
            &&& sum_assigned(r.assigns) == power - r.left
            &&& sum_assigned(r.assigns) <= power
            &&& r.left >= 0
        }),
{
    lemma_auto_assign_conservation(blockers, tough, Seq::<(usize, i16)>::empty(), power);
}

/// Declared blockers stay distinct: declaring a blocker against an
/// attacker never lists a creature twice, because an already-listed
/// blocker leaves the list unchanged.
pub proof fn lemma_blockers_stay_distinct(
    a0: crate::turn::Attacker,
    a1: crate::turn::Attacker,
    blocker_id: usize,
)
    requires
        a0.blockers_seq().no_duplicates(),
        a1.blockers_seq() == if a0.blockers_seq().contains(blocker_id) {
            a0.blockers_seq()
        } else {
            a0.blockers_seq().push(blocker_id)
        },
    ensures
        a1.blockers_seq().no_duplicates(),
{
    if !a0.blockers_seq().contains(blocker_id) {
        let s = a0.blockers_seq().push(blocker_id);
        assert forall|i: int, j: int|
            0 <= i < s.len() && 0 <= j < s.len() && i != j implies s[i] != s[j] by {
            if s[i] == s[j] {
                if i == s.len() - 1 {
                    assert(a0.blockers_seq().contains(s[j]));
                } else if j == s.len() - 1 {
                    assert(a0.blockers_seq().contains(s[i]));
                }
            }
        }
    }
}

/// Combat damage conservation at the engine's own assignment step: when
/// the automatic distribution runs for the attacker at `k` over distinct
/// blockers none of which carries a prior assignment, the new pass record
/// assigns in total exactly what the attacker's power loses, and the
/// remaining spillable power stays between zero and the full power.
pub proof fn lemma_auto_assign_link_conservation(
    gm: Game,
    g1: Game,
    ty: AttackType,
    k: int,
)
    requires
        0 <= k < gm.turn.combat.attackers@.len(),
        crate::turn::auto_assign_link(gm, g1, ty, k),
        gm.turn.combat.attackers@[k].attack_of(ty) is Some,
        gm.turn.combat.attackers@[k].attack_of(ty)->0.power.default >= 0,
        gm.turn.combat.attackers@[k].blockers_seq().no_duplicates(),
        forall|i: int|
            0 <= i < gm.turn.combat.attackers@[k].attack_of(ty)->0.assignments_seq().len()
                ==> !gm.turn.combat.attackers@[k].blockers_seq().contains(
                (#[trigger] gm.turn.combat.attackers@[k].attack_of(ty)->0.assignments_seq()[i]).0,
            ),
    ensures
        ({
            let att = gm.turn.combat.attackers@[k].attack_of(ty)->0;
            let att1 = g1.turn.combat.attackers@[k].attack_of(ty)->0;
            &&& g1.turn.combat.attackers@[k].attack_of(ty) is Some
            &&& 0 <= att1.power.current <= att.power.default
            &&& sum_assigned(att1.assignments_seq()) == sum_assigned(att.assignments_seq()) + (
            att.power.default - att1.power.current)
        }),
{
    let a = gm.turn.combat.attackers@[k];
    let att = a.attack_of(ty)->0;
    lemma_auto_assign_conservation(
        a.blockers_seq(),
        gm.turn.combat.toughness_seq(),
        att.assignments_seq(),
        att.power.default,
    );
}

/// A blocked attacker spares the defending player: in a damage pass, an
/// attacker without Trample that has blockers deals the defending player
/// nothing, whatever power it has left.
pub proof fn lemma_blocked_attacker_spares_player(
    gm: Game,
    g1: Game,
    g0: Game,
    k: int,
    ty: AttackType,
    m0: Seq<usize>,
    m1: Seq<usize>,
)
    requires
        0 <= k < gm.turn.combat.attackers@.len(),
        damage_link(gm, g1, g0, k, ty, m0, m1),
        !crate::turn::card_has_trample(gm, gm.turn.combat.attackers@[k].id),
        gm.turn.combat.attackers@[k].blockers_seq().len() > 0,
    ensures
        g1.players@ == gm.players@,
        g1.status == gm.status,
{
    let mid = choose|mid: Game|
        #[trigger] crate::game::game_step_witness(mid) && {
            let a = gm.turn.combat.attackers@[k];
            let trample = crate::turn::card_has_trample(gm, a.id);
            let blocked = !trample && a.blockers_seq().len() > 0;
            let atk_in = pass_participant(g0, a.id, ty);
            let assigns = match a.attack_of(ty) {
                Some(att) => att.assignments_seq(),
                None => Seq::<(usize, i16)>::empty(),
            };
            let rounds = crate::turn::blockers_rounds(
                gm.cards@,
                m0,
                g0,
                a.id,
                assigns,
                atk_in && a.attack_of(ty) is Some,
                a.blockers_seq(),
                ty,
            );
            &&& mid == (Game { turn: mid.turn, cards: mid.cards, ..gm })
            &&& mid.cards@ == rounds.0
            &&& m1 == rounds.1
            &&& mid.turn == (crate::turn::Turn { combat: mid.turn.combat, ..gm.turn })
            &&& mid.turn.combat.blockers_toughness == gm.turn.combat.blockers_toughness
            &&& mid.turn.combat.attackers@.len() == gm.turn.combat.attackers@.len()
            &&& (forall|j: int|
                0 <= j < gm.turn.combat.attackers@.len() && j != k
                    ==> mid.turn.combat.attackers@[j] == (#[trigger] gm.turn.combat.attackers@[j]))
            &&& mid.turn.combat.attackers@[k] == (crate::turn::Attacker {
                blocked,
                ..a
            })
            &&& if !blocked && atk_in && a.attack_of(ty) is Some {
                crate::abilities::player_damaged(
                    mid,
                    g1,
                    a.target,
                    crate::turn::spill_amount(a.attack_of(ty)->0.power.current),
                )
            } else {
                g1 == mid
            }
        };
}

/// Trample spillover: an attacker with power `P` whose blockers carry `T`
/// total unassigned toughness, with `T < P`, keeps exactly `P - T`
/// spillable power after automatic assignment; with Trample, that is what
/// the defending player takes.
pub proof fn lemma_trample_spillover(blockers: Seq<usize>, tough: Seq<(usize, i16)>, power: i16)
    requires
        power > 0,
        blockers.no_duplicates(),
        forall|i: int| 0 <= i < blockers.len() ==> key_value_or(tough, #[trigger] blockers[i], 0) >= 0,
        sum_block_toughness(blockers, tough) < power,
    ensures
        greedy_assign(blockers, tough, Seq::<(usize, i16)>::empty(), power).left == power
            - sum_block_toughness(blockers, tough),
{
    lemma_trample_spill_rec(blockers, tough, Seq::<(usize, i16)>::empty(), power);
}

/// Trample spillover at the engine's own assignment step: when the
/// automatic distribution runs for the attacker at `k` from a fresh pass
/// record, over distinct blockers whose unassigned toughness is
/// nonnegative and totals less than the attacker's power, the remaining
/// spillable power is exactly the power minus that total.
pub proof fn lemma_auto_assign_link_spillover(
    gm: Game,
    g1: Game,
    ty: AttackType,
    k: int,
)
    requires
        0 <= k < gm.turn.combat.attackers@.len(),
        crate::turn::auto_assign_link(gm, g1, ty, k),
        gm.turn.combat.attackers@[k].attack_of(ty) is Some,
        gm.turn.combat.attackers@[k].attack_of(ty)->0.power.default > 0,
        gm.turn.combat.attackers@[k].attack_of(ty)->0.assignments_seq() == Seq::<(
            usize,
            i16,
        )>::empty(),
        gm.turn.combat.attackers@[k].blockers_seq().no_duplicates(),
        forall|i: int|
            0 <= i < gm.turn.combat.attackers@[k].blockers_seq().len() ==> key_value_or(
                gm.turn.combat.toughness_seq(),
                #[trigger] gm.turn.combat.attackers@[k].blockers_seq()[i],
                0,
            ) >= 0,
        sum_block_toughness(
            gm.turn.combat.attackers@[k].blockers_seq(),
            gm.turn.combat.toughness_seq(),
        ) < gm.turn.combat.attackers@[k].attack_of(ty)->0.power.default,
    ensures
        g1.turn.combat.attackers@[k].attack_of(ty) is Some,
        g1.turn.combat.attackers@[k].attack_of(ty)->0.power.current
            == gm.turn.combat.attackers@[k].attack_of(ty)->0.power.default - sum_block_toughness(
            gm.turn.combat.attackers@[k].blockers_seq(),
            gm.turn.combat.toughness_seq(),
        ),
{
    let a = gm.turn.combat.attackers@[k];
    let att = a.attack_of(ty)->0;
    lemma_trample_spillover(a.blockers_seq(), gm.turn.combat.toughness_seq(), att.power.default);
}

/// The total unassigned toughness the listed blockers carry.
pub open spec fn sum_block_toughness(blockers: Seq<usize>, tough: Seq<(usize, i16)>) -> int
    decreases blockers.len(),
{
    if blockers.len() == 0 {
        0
    } else {
        key_value_or(tough, blockers[0], 0) + sum_block_toughness(
            blockers.drop_first(),
            key_store(tough, blockers[0], 0),
        )
    }
}

proof fn lemma_trample_spill_rec(
    blockers: Seq<usize>,
    tough: Seq<(usize, i16)>,
    assigns: Seq<(usize, i16)>,
    left: i16,
)
    requires
        left > 0,
        blockers.no_duplicates(),
        forall|i: int| 0 <= i < blockers.len() ==> key_value_or(tough, #[trigger] blockers[i], 0) >= 0,
        sum_block_toughness(blockers, tough) < left,
    ensures
        greedy_assign(blockers, tough, assigns, left).left == left - sum_block_toughness(
            blockers,
            tough,
        ),
    decreases blockers.len(),
{
    if blockers.len() == 0 {
    } else {
        let b = blockers[0];
        let t = key_value_or(tough, b, 0);
        assert(t >= 0);
        let d = t;
        let tough2 = key_store(tough, b, (t - d) as i16);
        let blockers2 = blockers.drop_first();
        assert forall|i: int|
            0 <= i < blockers2.len() implies key_value_or(tough2, #[trigger] blockers2[i], 0) >= 0
            && key_value_or(key_store(tough, b, 0), blockers2[i], 0) >= 0 by {
            assert(blockers[i + 1] == blockers2[i]);
            assert(blockers2[i] != b);
            lemma_key_value_store_other(tough, b, 0, blockers2[i]);
            lemma_key_value_store_other(tough, b, (t - d) as i16, blockers2[i]);
        }
        lemma_sum_toughness_nonneg(blockers2, key_store(tough, b, 0));
        assert(t < left);
        assert(sum_block_toughness(blockers2, tough2) == sum_block_toughness(
            blockers2,
            key_store(tough, b, 0),
        )) by {
            lemma_sum_toughness_same(blockers2, tough2, key_store(tough, b, 0));
        }
        assert(sum_block_toughness(blockers, tough) == t + sum_block_toughness(
            blockers2,
            key_store(tough, b, 0),
        ));
        lemma_sum_toughness_nonneg(blockers2, tough2);
        if blockers2.len() == 0 {
            assert(greedy_assign(blockers2, tough2, key_store(assigns, b, d), (left - d) as i16).left
                == left - d);
        } else {
            assert((left - d) as i16 > 0);
            lemma_trample_spill_rec(blockers2, tough2, key_store(assigns, b, d), (left - d) as i16);
        }
        assert(greedy_assign(blockers, tough, assigns, left) == greedy_assign(
            blockers2,
            tough2,
            key_store(assigns, b, d),
            (left - d) as i16,
        ));
    }
}

/// Reading another key is unaffected by a store.
proof fn lemma_key_value_store_other(s: Seq<(usize, i16)>, k: usize, v: i16, k2: usize)
    requires
        k2 != k,
    ensures
        key_value_or(key_store(s, k, v), k2, 0) == key_value_or(s, k2, 0),
    decreases s.len(),
{
    crate::storage::lemma_key_store_reads(s, k, v, k2);
}

/// Two toughness tables that read alike on the listed blockers sum alike.
proof fn lemma_sum_toughness_same(
    blockers: Seq<usize>,
    t1: Seq<(usize, i16)>,
    t2: Seq<(usize, i16)>,
)
    requires
        forall|k2: usize| #[trigger] key_value_or(t1, k2, 0) == key_value_or(t2, k2, 0),
    ensures
        sum_block_toughness(blockers, t1) == sum_block_toughness(blockers, t2),
    decreases blockers.len(),
{
    if blockers.len() > 0 {
        let b = blockers[0];
        assert forall|k2: usize| #[trigger]
            key_value_or(key_store(t1, b, 0), k2, 0) == key_value_or(
            key_store(t2, b, 0),
            k2,
            0,
        ) by {
            crate::storage::lemma_key_store_reads_all(t1, b, 0, k2);
            crate::storage::lemma_key_store_reads_all(t2, b, 0, k2);
        }
        lemma_sum_toughness_same(blockers.drop_first(), key_store(t1, b, 0), key_store(t2, b, 0));
    }
}

/// A toughness table that reads nonnegative on the listed blockers sums
/// nonnegative.
proof fn lemma_sum_toughness_nonneg(blockers: Seq<usize>, tough: Seq<(usize, i16)>)
    requires
        forall|i: int| 0 <= i < blockers.len() ==> key_value_or(tough, #[trigger] blockers[i], 0) >= 0,
    ensures
        sum_block_toughness(blockers, tough) >= 0,
    decreases blockers.len(),
{
    if blockers.len() > 0 {
        let b = blockers[0];
        let blockers2 = blockers.drop_first();
        assert forall|i: int|
            0 <= i < blockers2.len() implies key_value_or(
            key_store(tough, b, 0),
            #[trigger] blockers2[i],
            0,
        ) >= 0 by {
            crate::storage::lemma_key_store_reads_all(tough, b, 0, blockers2[i]);
            assert(blockers[i + 1] == blockers2[i]);
        }
        lemma_sum_toughness_nonneg(blockers2, key_store(tough, b, 0));
    }
}

/// First-strike exclusion: a creature that is no longer alive takes part
/// in no damage pass, so a blocker killed in the first-strike pass deals
/// no regular-pass damage.
pub proof fn lemma_first_strike_exclusion(g: Game, id: usize, ty: AttackType)
    requires
        !crate::card::is_alive_spec(g, id),
    ensures
        !pass_participant(g, id, ty),
{
}

/// A non-participating blocker leaves the attacker untouched: its
/// exchange only applies the attacker's assigned damage to the blocker
/// itself.
pub proof fn lemma_excluded_blocker_deals_nothing(
    cards: Seq<Card>,
    marked: Seq<usize>,
    attacker_id: usize,
    assigns: Seq<(usize, i16)>,
    atk_in: bool,
    atk_deathtouch: bool,
    blk_deathtouch: bool,
    b: usize,
)
    ensures
        ({
            let r = blocker_round(
                cards,
                marked,
                attacker_id,
                assigns,
                atk_in,
                atk_deathtouch,
                false,
                blk_deathtouch,
                b,
            );
            let bi = crate::game::find_card(cards, b);
            r.0 == (if bi != -1 && atk_in {
                cards.update(bi, crate::turn::card_hit(cards[bi], key_value_or(assigns, b, 0)))
            } else {
                cards
            })
        }),
{
}

} // verus!
