//! Game events and the dispatch that turns them into triggered abilities
//! on the stack.

use vstd::prelude::*;

use crate::abilities::Condition;
use crate::abilities::ConditionView;
use crate::abilities::Resolve;
use crate::abilities::ResolveKind;
use crate::abilities::ResolveView;
use crate::abilities::TargetView;
use crate::action::Action;
use crate::action::ChoiceView;
use crate::card::Card;
use crate::game::find_card;
use crate::game::Game;
use crate::game::ObjectId;
use crate::game::Player;
use crate::storage::id_set_elems;
use crate::storage::id_set_to_vec;
use crate::turn::Step;

verus! {

broadcast use vstd::std_specs::vec::group_vec_axioms, vstd::seq::group_seq_axioms;

/// An event about one card.
#[derive(Clone, Copy, Debug)]
pub struct CardEvent {
    /// The player whose card raised the event.
    pub owner: ObjectId,
    /// The card whose ability caused the event, if any.
    pub source: Option<ObjectId>,
    /// The card the event is about.
    pub card: ObjectId,
}

/// The entry of a turn step.
#[derive(Clone, Copy, Debug)]
pub struct PhaseEvent {
    pub owner: ObjectId,
    pub phase: Step,
}

/// Something that happened in the game which triggered abilities may react
/// to.
#[derive(Clone, Copy, Debug)]
pub enum Event {
    Tap(CardEvent),
    Untap(CardEvent),
    Draw(CardEvent),
    Phase(PhaseEvent),
}

/// Whether the event satisfies the trigger condition: a tap or untap of a
/// card by its own ability, any draw, or the entry of the named step.
pub open spec fn event_meets(e: Event, c: ConditionView) -> bool {
    match e {
        Event::Tap(ev) => c matches ConditionView::Tap(t) && t == TargetView::Source && ev.source
            == Some(ev.card),
        Event::Untap(ev) => c matches ConditionView::Untap(t) && t == TargetView::Source
            && ev.source == Some(ev.card),
        Event::Draw(_) => c == ConditionView::Draw,
        Event::Phase(ev) => c matches ConditionView::Phase(p) && p == ev.phase,
    }
}

impl Event {
    /// Defines if this event meets the trigger condition.
    pub fn meets(&self, condition: &Condition) -> (r: bool)
        ensures
            r == event_meets(*self, condition@),
    {
        match self {
            Event::Tap(event) => {
                if let Condition::Tap(target) = condition {
                    match target {
                        crate::abilities::Target::Source => {
                            if let Some(source) = event.source {
                                source == event.card
                            } else {
                                false
                            }
                        },
                        _ => false,
                    }
                } else {
                    false
                }
            },
            Event::Untap(event) => {
                if let Condition::Untap(target) = condition {
                    match target {
                        crate::abilities::Target::Source => {
                            if let Some(source) = event.source {
                                source == event.card
                            } else {
                                false
                            }
                        },
                        _ => false,
                    }
                } else {
                    false
                }
            },
            Event::Draw(_) => matches!(condition, Condition::Draw),
            Event::Phase(event) => {
                if let Condition::Phase(phase) = condition {
                    *phase == event.phase
                } else {
                    false
                }
            },
        }
    }
}

/// Whether the event meets the trigger `ti` of the battlefield card `cid`
/// of the player at `pi`.
pub open spec fn trigger_met(
    players: Seq<Player>,
    cards: Seq<Card>,
    e: Event,
    pi: int,
    cid: usize,
    ti: int,
) -> bool {
    &&& 0 <= pi < players.len()
    &&& id_set_elems(players[pi].battlefield).contains(cid)
    &&& find_card(cards, cid) != -1
    &&& 0 <= ti < cards[find_card(cards, cid)].triggered_abilities@.len()
    &&& event_meets(e, cards[find_card(cards, cid)].triggered_abilities@[ti].condition@)
}

/// Whether `r` is the stack entry that the met trigger `ti` of the
/// battlefield card `cid` of the player at `pi` produces for the event:
/// an ability entry with a fresh action seeded from the trigger's target
/// and effect.
pub open spec fn entry_matches(
    players: Seq<Player>,
    cards: Seq<Card>,
    e: Event,
    pi: int,
    cid: usize,
    ti: int,
    r: ResolveView,
) -> bool {
    &&& trigger_met(players, cards, e, pi, cid, ti)
    &&& {
        let t = cards[find_card(cards, cid)].triggered_abilities@[ti];
        &&& r.kind == ResolveKind::Ability
        &&& r.effect == t.effect@
        &&& r.player_id == players[pi].id
        &&& r.action.player_id == players[pi].id
        &&& r.action.card_id == cid
        &&& r.action.required_effect == t.effect@
        &&& r.action.required_target == t.target@
        &&& r.action.required_cost == crate::abilities::CostView::Nothing
        &&& r.action.chosen_cost == ChoiceView::Nothing
        &&& r.action.chosen_effect == ChoiceView::Nothing
        &&& r.action.chosen_target == if t.target@ == TargetView::Owner {
            ChoiceView::Player(players[pi].id)
        } else {
            ChoiceView::Nothing
        }
    }
}

/// Whether `r` is a stack entry that dispatching `e` may produce: the
/// entry of some met trigger of some player's battlefield card.
pub open spec fn triggered_entry(
    players: Seq<Player>,
    cards: Seq<Card>,
    e: Event,
    r: ResolveView,
) -> bool {
    exists|pi: int, cid: usize, ti: int| #[trigger] entry_matches(players, cards, e, pi, cid, ti, r)
}

/// Whether every met trigger of the battlefield of the player registered
/// under `player_id` has produced its entry in the part of the stack that
/// `g1` adds over `g0`.
pub open spec fn player_triggers_fired(
    g0: Game,
    g1: Game,
    e: Event,
    player_id: ObjectId,
) -> bool {
    forall|cid: usize, ti: int|
        #[trigger] trigger_met(
            g0.players@,
            g0.cards@,
            e,
            crate::game::find_player(g0.players@, player_id),
            cid,
            ti,
        ) ==> exists|k: int|
            g0.stack@.len() <= k < g1.stack@.len() && entry_matches(
                g0.players@,
                g0.cards@,
                e,
                crate::game::find_player(g0.players@, player_id),
                cid,
                ti,
                (#[trigger] g1.stack@[k])@,
            )
}

/// Whether every met trigger of every player's battlefield has produced
/// its entry in the part of the stack that `g1` adds over `g0`.
pub open spec fn triggers_all_fired(g0: Game, g1: Game, e: Event) -> bool {
    forall|pi: int, cid: usize, ti: int|
        (#[trigger] trigger_met(g0.players@, g0.cards@, e, pi, cid, ti) && pi
            == crate::game::find_player(g0.players@, g0.players@[pi].id)) ==> exists|k: int|
            g0.stack@.len() <= k < g1.stack@.len() && entry_matches(
                g0.players@,
                g0.cards@,
                e,
                pi,
                cid,
                ti,
                (#[trigger] g1.stack@[k])@,
            )
}

/// Whether `g1` is `g0` with zero or more entries that dispatching `e` may
/// produce pushed onto the stack, and nothing else changed.
pub open spec fn stack_extended_by_triggers(g0: Game, g1: Game, e: Event) -> bool {
    &&& g1 == (Game { stack: g1.stack, ..g0 })
    &&& g1.stack@.len() >= g0.stack@.len()
    &&& g1.stack@.subrange(0, g0.stack@.len() as int) == g0.stack@
    &&& forall|k: int|
        g0.stack@.len() <= k < g1.stack@.len() ==> triggered_entry(
            g0.players@,
            g0.cards@,
            e,
            (#[trigger] g1.stack@[k])@,
        )
}

/// Checks the battlefield cards of one player against the event and pushes
/// an ability entry for every trigger the event meets.
fn run_player_triggers(game: &mut Game, player_id: ObjectId, event: Event)
    ensures
        stack_extended_by_triggers(*old(game), *final(game), event),
        player_triggers_fired(*old(game), *final(game), event, player_id),
{
    let ppos = game.player_pos(player_id);
    proof {
        crate::game::lemma_find_player(game.players@, player_id);
        assert(game.stack@.subrange(0, game.stack@.len() as int) =~= game.stack@);
    }
    let pi = match ppos {
        Some(pi) => pi,
        None => {
            return ;
        },
    };
    proof {
        assert(game.players.len() == game.players@.len());
        assert(game.player_index(player_id) != -1);
        assert(Some(pi) == Some(game.player_index(player_id) as usize));
        assert(pi as int == game.player_index(player_id));
        assert(game.players@[pi as int].id == player_id);
    }
    let battlefield = id_set_to_vec(&game.players[pi].battlefield);
    let mut b: usize = 0;
    while b < battlefield.len()
        invariant
            0 <= b <= battlefield@.len(),
            0 <= pi < old(game).players@.len(),
            pi as int == crate::game::find_player(old(game).players@, player_id),
            old(game).players@[pi as int].id == player_id,
            battlefield@ == id_set_elems(old(game).players@[pi as int].battlefield),
            stack_extended_by_triggers(*old(game), *game, event),
            forall|j: int, ti: int|
                0 <= j < b && #[trigger] trigger_met(
                    old(game).players@,
                    old(game).cards@,
                    event,
                    pi as int,
                    battlefield@[j],
                    ti,
                ) ==> exists|k: int|
                    old(game).stack@.len() <= k < game.stack@.len() && entry_matches(
                        old(game).players@,
                        old(game).cards@,
                        event,
                        pi as int,
                        battlefield@[j],
                        ti,
                        (#[trigger] game.stack@[k])@,
                    ),
        decreases battlefield@.len() - b,
    {
        let card_id = battlefield[b];
        let cpos = game.card_pos(card_id);
        proof {
            crate::game::lemma_find_card(game.cards@, card_id);
        }
        match cpos {
            Some(ci) => {
                proof {
                    assert(game.cards.len() == game.cards@.len());
                    assert(game.card_index(card_id) != -1);
                    assert(Some(ci) == Some(game.card_index(card_id) as usize));
                    assert(ci as int == game.card_index(card_id));
                    assert(game.cards@ == old(game).cards@);
                    assert(old(game).card_index(card_id) == ci);
                }
                let mut ti: usize = 0;
                let n = game.cards[ci].triggered_abilities.len();
                while ti < n
                    invariant
                        0 <= ti <= n,
                        0 <= pi < old(game).players@.len(),
                        pi as int == crate::game::find_player(old(game).players@, player_id),
                        old(game).players@[pi as int].id == player_id,
                        0 <= b < battlefield@.len(),
                        battlefield@ == id_set_elems(old(game).players@[pi as int].battlefield),
                        battlefield@[b as int] == card_id,
                        old(game).card_index(card_id) == ci,
                        0 <= ci < old(game).cards@.len(),
                        n == old(game).cards@[ci as int].triggered_abilities@.len(),
                        stack_extended_by_triggers(*old(game), *game, event),
                        forall|j: int, ti2: int|
                            0 <= j < b && #[trigger] trigger_met(
                                old(game).players@,
                                old(game).cards@,
                                event,
                                pi as int,
                                battlefield@[j],
                                ti2,
                            ) ==> exists|k: int|
                                old(game).stack@.len() <= k < game.stack@.len() && entry_matches(
                                    old(game).players@,
                                    old(game).cards@,
                                    event,
                                    pi as int,
                                    battlefield@[j],
                                    ti2,
                                    (#[trigger] game.stack@[k])@,
                                ),
                        forall|ti2: int|
                            0 <= ti2 < ti && #[trigger] trigger_met(
                                old(game).players@,
                                old(game).cards@,
                                event,
                                pi as int,
                                card_id,
                                ti2,
                            ) ==> exists|k: int|
                                old(game).stack@.len() <= k < game.stack@.len() && entry_matches(
                                    old(game).players@,
                                    old(game).cards@,
                                    event,
                                    pi as int,
                                    card_id,
                                    ti2,
                                    (#[trigger] game.stack@[k])@,
                                ),
                    decreases n - ti,
                {
                    let meets = {
                        let trigger = &game.cards[ci].triggered_abilities[ti];
                        event.meets(&trigger.condition)
                    };
                    if !meets {
                        proof {
                            assert(!trigger_met(
                                old(game).players@,
                                old(game).cards@,
                                event,
                                pi as int,
                                card_id,
                                ti as int,
                            ));
                        }
                    }
                    if meets {
                        let (t_eff, t_target) = {
                            let trigger = &game.cards[ci].triggered_abilities[ti];
                            (trigger.effect.duplicate(), trigger.target.duplicate())
                        };
                        let mut action = Action::new(player_id, card_id);
                        action.set_required_target(t_target);
                        action.set_required_effect(t_eff.duplicate());
                        let entry = Resolve {
                            kind: ResolveKind::Ability,
                            effect: t_eff,
                            action,
                            player_id,
                        };
                        let ghost pre_stack = game.stack@;
                        game.stack.push(entry);
                        proof {
                            assert(entry_matches(
                                old(game).players@,
                                old(game).cards@,
                                event,
                                pi as int,
                                card_id,
                                ti as int,
                                game.stack@[pre_stack.len() as int]@,
                            ));
                            assert(triggered_entry(
                                old(game).players@,
                                old(game).cards@,
                                event,
                                game.stack@[pre_stack.len() as int]@,
                            ));
                            assert(game.stack@.subrange(0, old(game).stack@.len() as int)
                                =~= old(game).stack@);
                            assert forall|j: int, ti2: int|
                                0 <= j < b && #[trigger] trigger_met(
                                    old(game).players@,
                                    old(game).cards@,
                                    event,
                                    pi as int,
                                    battlefield@[j],
                                    ti2,
                                ) implies exists|k: int|
                                old(game).stack@.len() <= k < game.stack@.len() && entry_matches(
                                    old(game).players@,
                                    old(game).cards@,
                                    event,
                                    pi as int,
                                    battlefield@[j],
                                    ti2,
                                    (#[trigger] game.stack@[k])@,
                                ) by {
                                let k0 = choose|k0: int|
                                    old(game).stack@.len() <= k0 < pre_stack.len()
                                        && entry_matches(
                                        old(game).players@,
                                        old(game).cards@,
                                        event,
                                        pi as int,
                                        battlefield@[j],
                                        ti2,
                                        (#[trigger] pre_stack[k0])@,
                                    );
                                assert(game.stack@[k0] == pre_stack[k0]);
                            }
                            assert forall|ti2: int|
                                0 <= ti2 < ti + 1 && #[trigger] trigger_met(
                                    old(game).players@,
                                    old(game).cards@,
                                    event,
                                    pi as int,
                                    card_id,
                                    ti2,
                                ) implies exists|k: int|
                                old(game).stack@.len() <= k < game.stack@.len() && entry_matches(
                                    old(game).players@,
                                    old(game).cards@,
                                    event,
                                    pi as int,
                                    card_id,
                                    ti2,
                                    (#[trigger] game.stack@[k])@,
                                ) by {
                                if ti2 < ti {
                                    let k0 = choose|k0: int|
                                        old(game).stack@.len() <= k0 < pre_stack.len()
                                            && entry_matches(
                                            old(game).players@,
                                            old(game).cards@,
                                            event,
                                            pi as int,
                                            card_id,
                                            ti2,
                                            (#[trigger] pre_stack[k0])@,
                                        );
                                    assert(game.stack@[k0] == pre_stack[k0]);
                                } else {
                                    assert(entry_matches(
                                        old(game).players@,
                                        old(game).cards@,
                                        event,
                                        pi as int,
                                        card_id,
                                        ti2,
                                        game.stack@[pre_stack.len() as int]@,
                                    ));
                                }
                            }
                        }
                    }
                    ti = ti + 1;
                }
            },
            None => {},
        }
        b = b + 1;
    }
}

/// Whether every met trigger of every player whose identifier is `active`
/// or listed in the first `i` entries of `ids` has produced its entry.
pub open spec fn triggers_fired_so_far(
    g0: Game,
    g1: Game,
    e: Event,
    active: ObjectId,
    ids: Seq<usize>,
    i: int,
) -> bool {
    forall|pi: int, cid: usize, ti: int|
        (#[trigger] trigger_met(g0.players@, g0.cards@, e, pi, cid, ti) && pi
            == crate::game::find_player(g0.players@, g0.players@[pi].id) && (g0.players@[pi].id
            == active || ids.subrange(0, i).contains(g0.players@[pi].id))) ==> exists|k: int|
            g0.stack@.len() <= k < g1.stack@.len() && entry_matches(
                g0.players@,
                g0.cards@,
                e,
                pi,
                cid,
                ti,
                (#[trigger] g1.stack@[k])@,
            )
}

/// Notifies every player's battlefield cards of the event, the active
/// player first; every trigger the event meets is pushed onto the stack as
/// an ability entry, and every met trigger fires.
pub fn dispatch_event(game: &mut Game, event: Event)
    ensures
        stack_extended_by_triggers(*old(game), *final(game), event),
        triggers_all_fired(*old(game), *final(game), event),
{
    let active = game.turn.active_player;
    run_player_triggers(game, active, event);
    proof {
        assert(ids_fired_base(*old(game), *game, event, active));
    }
    let ids = game.get_player_ids();
    let mut i: usize = 0;
    while i < ids.len()
        invariant
            ids@ == old(game).players@.map_values(|p: Player| p.id),
            0 <= i <= ids@.len(),
            active == old(game).turn.active_player,
            stack_extended_by_triggers(*old(game), *game, event),
            triggers_fired_so_far(*old(game), *game, event, active, ids@, i as int),
        decreases ids@.len() - i,
    {
        let player_id = ids[i];
        if player_id != active {
            let ghost pre = *game;
            run_player_triggers(game, player_id, event);
            proof {
                let len0 = old(game).stack@.len() as int;
                let len1 = pre.stack@.len() as int;
                assert(game.stack@.subrange(0, len0) =~= old(game).stack@);
                assert forall|k: int|
                    len0 <= k < game.stack@.len() implies triggered_entry(
                    old(game).players@,
                    old(game).cards@,
                    event,
                    (#[trigger] game.stack@[k])@,
                ) by {
                    if k < len1 {
                        assert(game.stack@[k] == game.stack@.subrange(0, len1)[k]);
                        assert(game.stack@[k] == pre.stack@[k]);
                    } else {
                        assert(triggered_entry(pre.players@, pre.cards@, event, game.stack@[k]@));
                    }
                }
                assert(ids@.subrange(0, i + 1).drop_last() =~= ids@.subrange(0, i as int));
                assert forall|pi: int, cid: usize, ti: int|
                    (#[trigger] trigger_met(
                        old(game).players@,
                        old(game).cards@,
                        event,
                        pi,
                        cid,
                        ti,
                    ) && pi == crate::game::find_player(
                        old(game).players@,
                        old(game).players@[pi].id,
                    ) && (old(game).players@[pi].id == active || ids@.subrange(0, i + 1).contains(
                        old(game).players@[pi].id,
                    ))) implies exists|k: int|
                    old(game).stack@.len() <= k < game.stack@.len() && entry_matches(
                        old(game).players@,
                        old(game).cards@,
                        event,
                        pi,
                        cid,
                        ti,
                        (#[trigger] game.stack@[k])@,
                    ) by {
                    let id = old(game).players@[pi].id;
                    if id == active || ids@.subrange(0, i as int).contains(id) {
                        let k0 = choose|k0: int|
                            old(game).stack@.len() <= k0 < pre.stack@.len() && entry_matches(
                                old(game).players@,
                                old(game).cards@,
                                event,
                                pi,
                                cid,
                                ti,
                                (#[trigger] pre.stack@[k0])@,
                            );
                        assert(game.stack@[k0] == game.stack@.subrange(0, len1)[k0]);
                        assert(game.stack@[k0] == pre.stack@[k0]);
                    } else {
                        assert(id == player_id);
                        assert(pre.players@ == old(game).players@);
                        assert(pre.cards@ == old(game).cards@);
                        assert(trigger_met(pre.players@, pre.cards@, event, pi, cid, ti));
                        assert(pi == crate::game::find_player(pre.players@, player_id));
                        let k0 = choose|k0: int|
                            pre.stack@.len() <= k0 < game.stack@.len() && entry_matches(
                                pre.players@,
                                pre.cards@,
                                event,
                                pi,
                                cid,
                                ti,
                                (#[trigger] game.stack@[k0])@,
                            );
                        assert(entry_matches(
                            old(game).players@,
                            old(game).cards@,
                            event,
                            pi,
                            cid,
                            ti,
                            game.stack@[k0]@,
                        ));
                    }
                }
            }
        } else {
            proof {
                assert(ids@.subrange(0, i + 1).drop_last() =~= ids@.subrange(0, i as int));
                assert forall|pi: int, cid: usize, ti: int|
                    (#[trigger] trigger_met(
                        old(game).players@,
                        old(game).cards@,
                        event,
                        pi,
                        cid,
                        ti,
                    ) && pi == crate::game::find_player(
                        old(game).players@,
                        old(game).players@[pi].id,
                    ) && (old(game).players@[pi].id == active || ids@.subrange(0, i + 1).contains(
                        old(game).players@[pi].id,
                    ))) implies exists|k: int|
                    old(game).stack@.len() <= k < game.stack@.len() && entry_matches(
                        old(game).players@,
                        old(game).cards@,
                        event,
                        pi,
                        cid,
                        ti,
                        (#[trigger] game.stack@[k])@,
                    ) by {
                    let id = old(game).players@[pi].id;
                    if !(id == active || ids@.subrange(0, i as int).contains(id)) {
                        assert(id == player_id);
                        assert(id == active);
                    }
                }
            }
        }
        i = i + 1;
    }
    proof {
        assert forall|pi: int, cid: usize, ti: int|
            (#[trigger] trigger_met(old(game).players@, old(game).cards@, event, pi, cid, ti)
                && pi == crate::game::find_player(
                old(game).players@,
                old(game).players@[pi].id,
            )) implies (old(game).players@[pi].id == active || ids@.subrange(
            0,
            ids@.len() as int,
        ).contains(old(game).players@[pi].id)) by {
            assert(ids@.subrange(0, ids@.len() as int) =~= ids@);
            assert(ids@[pi] == old(game).players@[pi].id);
        }
        assert(ids@.subrange(0, ids@.len() as int) =~= ids@);
    }
}

/// After the active player's triggers ran, every met trigger of that
/// player has fired.
pub open spec fn ids_fired_base(g0: Game, g1: Game, e: Event, active: ObjectId) -> bool {
    triggers_fired_so_far(g0, g1, e, active, Seq::<usize>::empty(), 0)
}

} // verus!
