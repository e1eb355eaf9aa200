//! The turn structure: steps, the priority window, and the combat
//! sub-state.

use vstd::prelude::*;

use indexmap::IndexMap;
use indexmap::IndexSet;

use crate::abilities::Effect;
use crate::game::ObjectId;
use crate::game::Value;
use crate::storage::damage_entries;
use crate::storage::damage_map_new;
use crate::storage::id_set_clear;
use crate::storage::id_set_contains;
use crate::storage::id_set_elems;
use crate::storage::id_set_insert;
use crate::storage::id_set_new;

verus! {

broadcast use vstd::std_specs::vec::group_vec_axioms, vstd::seq::group_seq_axioms;

/// The steps of one turn, in order; after Cleanup the next player's turn
/// begins at Untap.
#[derive(Clone, Copy, Debug, PartialEq, Eq, Structural)]
pub enum Step {
    Untap,
    Upkeep,
    Draw,
    Precombat,
    CombatBegin,
    DeclareAttackers,
    DeclareBlockers,
    CombatDamage,
    CombatEnd,
    Postcombat,
    End,
    Cleanup,
}

impl Step {
    /// Whether this step is one of the two main phases, the only windows
    /// for sorcery-speed actions.
    pub fn main(&self) -> (r: bool)
        ensures
            r == (*self == Step::Precombat || *self == Step::Postcombat),
    {
        matches!(self, Step::Precombat | Step::Postcombat)
    }
}

/// The priority window: who may act now, and who has passed since the
/// window was last reset.
#[derive(Debug)]
pub struct Priority {
    pub player_id: ObjectId,
    /// The players that have passed since the window was last reset.
    pub passes: IndexSet<usize>,
}

impl Priority {
    /// The players recorded as having passed.
    pub open spec fn passes_seq(self) -> Seq<usize> {
        id_set_elems(self.passes)
    }

    /// A fresh window: the given player holds priority and nobody has
    /// passed.
    pub fn new(active_player: ObjectId) -> (r: Priority)
        ensures
            r.player_id == active_player,
            r.passes_seq() == Seq::<usize>::empty(),
    {
        Priority { player_id: active_player, passes: id_set_new() }
    }

    /// Passes priority: records the holder as having passed and hands
    /// priority to `next_player`.
    pub fn pass(&mut self, next_player: ObjectId)
        ensures
            final(self).player_id == next_player,
            final(self).passes_seq() == if old(self).passes_seq().contains(old(self).player_id) {
                old(self).passes_seq()
            } else {
                old(self).passes_seq().push(old(self).player_id)
            },
    {
        id_set_insert(&mut self.passes, self.player_id);
        self.player_id = next_player;
    }

    /// Clears the pass record; the holder keeps priority.
    pub fn reset(&mut self)
        ensures
            final(self).player_id == old(self).player_id,
            final(self).passes_seq() == Seq::<usize>::empty(),
    {
        id_set_clear(&mut self.passes);
    }

    /// Whether the given player has passed since the last reset.
    pub fn passed(&self, player_id: ObjectId) -> (r: bool)
        ensures
            r == self.passes_seq().contains(player_id),
    {
        id_set_contains(&self.passes, player_id)
    }
}

/// The two ordered combat-damage passes.
#[derive(Clone, Copy, Debug, PartialEq, Eq, Structural)]
pub enum AttackType {
    Regular,
    FirstStrike,
}

/// One damage pass of one attacker: the spillable remainder of its power,
/// and how much damage it has assigned to each blocker.
#[derive(Debug)]
pub struct Attack {
    /// `default` is the power the attacker entered combat with; `current`
    /// is what is left after assignments, spillable on the defending player
    /// by an unblocked or trampling attacker.
    pub power: Value<i16>,
    pub assignments: IndexMap<usize, i16>,
}

impl Attack {
    /// The recorded per-blocker damage assignments, in insertion order.
    pub open spec fn assignments_seq(self) -> Seq<(usize, i16)> {
        damage_entries(self.assignments)
    }

    /// A fresh pass record with the given power and no assignments.
    pub fn new(power: i16) -> (r: Attack)
        ensures
            r.power == (Value { current: power, default: power }),
            r.assignments_seq() == Seq::<(usize, i16)>::empty(),
    {
        Attack { power: Value::new(power), assignments: damage_map_new() }
    }
}

/// One declared attacker: whom it attacks, its pass records, and its
/// declared blockers.
#[derive(Debug)]
pub struct Attacker {
    pub id: ObjectId,
    pub target: ObjectId,
    /// The first-strike pass record, present for first-strike and
    /// double-strike attackers.
    pub first_strike: Option<Attack>,
    /// The regular pass record, present for every attacker without first
    /// strike, and again for double-strike attackers.
    pub regular: Option<Attack>,
    pub blockers: IndexSet<usize>,
    /// Set while damage resolves: whether the attacker's remainder is kept
    /// off the defending player.
    pub blocked: bool,
}

impl Attacker {
    /// The declared blockers, in declaration order.
    pub open spec fn blockers_seq(self) -> Seq<usize> {
        id_set_elems(self.blockers)
    }

    /// The pass record for the given pass, if the attacker takes part in
    /// it.
    pub open spec fn attack_of(self, ty: AttackType) -> Option<Attack> {
        match ty {
            AttackType::FirstStrike => self.first_strike,
            AttackType::Regular => self.regular,
        }
    }
}

/// The combat sub-state: the declared attackers in declaration order, and
/// the not-yet-assigned toughness left on each blocker.
#[derive(Debug)]
pub struct Combat {
    pub attackers: Vec<Attacker>,
    pub blockers_toughness: IndexMap<usize, i16>,
}

impl Combat {
    /// The index of the first declared attacker carrying `id`, or `-1`.
    pub open spec fn attacker_index(self, id: ObjectId) -> int {
        find_attacker(self.attackers@, id)
    }

    /// The unassigned-toughness bookkeeping entries.
    pub open spec fn toughness_seq(self) -> Seq<(usize, i16)> {
        damage_entries(self.blockers_toughness)
    }

    /// An empty combat: nothing declared.
    pub fn new() -> (r: Combat)
        ensures
            r.attackers@ == Seq::<Attacker>::empty(),
            r.toughness_seq() == Seq::<(usize, i16)>::empty(),
    {
        Combat { attackers: Vec::new(), blockers_toughness: damage_map_new() }
    }

    /// The identifiers of the declared attackers, in declaration order.
    pub fn get_attackers(&self) -> (r: Vec<ObjectId>)
        ensures
            r@ == self.attackers@.map_values(|a: Attacker| a.id),
    {
        let mut ids: Vec<ObjectId> = Vec::new();
        let mut i: usize = 0;
        while i < self.attackers.len()
            invariant
                0 <= i <= self.attackers@.len(),
                ids@ =~= self.attackers@.subrange(0, i as int).map_values(|a: Attacker| a.id),
            decreases self.attackers@.len() - i,
        {
            ids.push(self.attackers[i].id);
            i = i + 1;
        }
        proof {
            assert(self.attackers@.subrange(0, self.attackers@.len() as int) =~= self.attackers@);
        }
        ids
    }

    /// The declared blockers of every attacker, concatenated in
    /// declaration order.
    pub open spec fn all_blockers(self) -> Seq<usize> {
        self.attackers@.map_values(|a: Attacker| a.blockers_seq()).flatten()
    }

    /// The identifiers of every declared blocker.
    pub fn get_blockers(&self) -> (r: Vec<ObjectId>)
        ensures
            r@ == self.all_blockers(),
    {
        let ghost per_attacker = self.attackers@.map_values(|a: Attacker| a.blockers_seq());
        let mut ids: Vec<ObjectId> = Vec::new();
        let mut i: usize = 0;
        while i < self.attackers.len()
            invariant
                0 <= i <= self.attackers@.len(),
                per_attacker == self.attackers@.map_values(|a: Attacker| a.blockers_seq()),
                ids@ == per_attacker.subrange(0, i as int).flatten(),
            decreases self.attackers@.len() - i,
        {
            let mut more = crate::storage::id_set_to_vec(&self.attackers[i].blockers);
            proof {
                assert(per_attacker.subrange(0, i + 1).drop_last() =~= per_attacker.subrange(
                    0,
                    i as int,
                ));
                per_attacker.subrange(0, i + 1).lemma_flatten_and_flatten_alt_are_equivalent();
                per_attacker.subrange(0, i as int).lemma_flatten_and_flatten_alt_are_equivalent();
            }
            ids.append(&mut more);
            i = i + 1;
        }
        proof {
            assert(per_attacker.subrange(0, per_attacker.len() as int) =~= per_attacker);
        }
        ids
    }

    /// The identifiers of every declared combatant: attackers first, then
    /// blockers.
    pub fn get_combatants(&self) -> (r: Vec<ObjectId>)
        ensures
            r@ == self.attackers@.map_values(|a: Attacker| a.id) + self.all_blockers(),
    {
        let mut ids = self.get_attackers();
        let mut blockers = self.get_blockers();
        ids.append(&mut blockers);
        ids
    }
}

/// The index of the first attacker record in `attackers` carrying `id`, or
/// `-1`.
pub open spec fn find_attacker(attackers: Seq<Attacker>, id: ObjectId) -> int
    decreases attackers.len(),
{
    if attackers.len() == 0 {
        -1
    } else if attackers[0].id == id {
        0
    } else {
        let rest = find_attacker(attackers.drop_first(), id);
        if rest == -1 {
            -1
        } else {
            1 + rest
        }
    }
}

/// What `find_attacker` returns: either `-1` and no record carries the id,
/// or the first index carrying it.
pub proof fn lemma_find_attacker(attackers: Seq<Attacker>, id: ObjectId)
    ensures
        find_attacker(attackers, id) == -1 ==> forall|j: int|
            0 <= j < attackers.len() ==> (#[trigger] attackers[j]).id != id,
        find_attacker(attackers, id) != -1 ==> 0 <= find_attacker(attackers, id) < attackers.len()
            && attackers[find_attacker(attackers, id)].id == id && forall|j: int|
            0 <= j < find_attacker(attackers, id) ==> (#[trigger] attackers[j]).id != id,
    decreases attackers.len(),
{
    if attackers.len() > 0 && attackers[0].id != id {
        lemma_find_attacker(attackers.drop_first(), id);
        assert forall|j: int| 1 <= j < attackers.len() implies attackers[j]
            == attackers.drop_first()[j - 1] by {}
    }
}

/// An attacker update that keeps its identifier in place keeps its
/// position among the declared attackers.
pub proof fn lemma_find_attacker_update(s: Seq<Attacker>, i: int, a: Attacker, id: ObjectId)
    requires
        0 <= i < s.len(),
        find_attacker(s, id) == i,
        a.id == id,
    ensures
        find_attacker(s.update(i, a), id) == i,
{
    lemma_find_attacker(s, id);
    lemma_find_attacker(s.update(i, a), id);
    let f = find_attacker(s.update(i, a), id);
    if f == -1 {
        assert(s.update(i, a)[i].id == id);
    } else if f < i {
        assert(s.update(i, a)[f] == s[f]);
    } else if f > i {
        assert(s.update(i, a)[i].id == id);
    }
}

/// One turn: the current step, the open priority window if any, the combat
/// sub-state, the active player, and how many lands they have played.
#[derive(Debug)]
pub struct Turn {
    pub step: Step,
    pub priority: Option<Priority>,
    pub combat: Combat,
    pub active_player: ObjectId,
    pub lands_played: usize,
}

impl Turn {
    /// Whether this turn has just begun for `player_id`: at Untap, without
    /// a priority window, with empty combat and no lands played.
    pub open spec fn is_fresh(self, player_id: ObjectId) -> bool {
        &&& self.step == Step::Untap
        &&& self.priority is None
        &&& self.combat.attackers@ == Seq::<Attacker>::empty()
        &&& self.combat.toughness_seq() == Seq::<(usize, i16)>::empty()
        &&& self.active_player == player_id
        &&& self.lands_played == 0
    }

    /// A fresh turn for the given player.
    pub fn new(player_id: ObjectId) -> (r: Turn)
        ensures
            r.is_fresh(player_id),
    {
        Turn {
            step: Step::Untap,
            priority: Option::None,
            combat: Combat::new(),
            active_player: player_id,
            lands_played: 0,
        }
    }
}


/// Whether every registered player has passed since the window was last
/// reset.
pub open spec fn all_players_passed(g: crate::game::Game, pr: Priority) -> bool {
    forall|j: int|
        0 <= j < g.players@.len() ==> pr.passes_seq().contains((#[trigger] g.players@[j]).id)
}

/// Whether every registered player has passed since the window was last
/// reset: the condition for the current step to end or the stack to
/// resolve.
pub fn all_passed(game: &crate::game::Game, priority: Priority) -> (r: bool)
    ensures
        r == all_players_passed(*game, priority),
{
    let mut i: usize = 0;
    while i < game.players.len()
        invariant
            0 <= i <= game.players@.len(),
            forall|j: int|
                0 <= j < i ==> priority.passes_seq().contains((#[trigger] game.players@[j]).id),
        decreases game.players@.len() - i,
    {
        if !priority.passed(game.players[i].id) {
            return false;
        }
        i = i + 1;
    }
    true
}

/// What entering a new step does: the step is recorded, every player's
/// mana pool empties, the step-entry event reaches triggered abilities,
/// and a fresh priority window opens for the active player.
pub open spec fn step_changed(g0: crate::game::Game, g1: crate::game::Game, step: Step) -> bool {
    exists|mid1: crate::game::Game, mid2: crate::game::Game|
        {
            &&& #[trigger] crate::game::game_step_witness(mid1)
            &&& #[trigger] crate::game::game_step_witness(mid2)
            &&& mid1 == (crate::game::Game { turn: mid1.turn, players: mid1.players, ..g0 })
            &&& mid1.turn == (Turn { step, ..g0.turn })
            &&& mid1.players@.len() == g0.players@.len()
            &&& (forall|j: int|
                0 <= j < g0.players@.len() ==> mid1.players@[j] == (crate::game::Player {
                    mana: crate::mana::Mana::zero(),
                    ..#[trigger] g0.players@[j]
                }))
            &&& crate::events::stack_extended_by_triggers(
                mid1,
                mid2,
                crate::events::Event::Phase(
                    crate::events::PhaseEvent { owner: g0.turn.active_player, phase: step },
                ),
            )
            &&& crate::events::triggers_all_fired(
                mid1,
                mid2,
                crate::events::Event::Phase(
                    crate::events::PhaseEvent { owner: g0.turn.active_player, phase: step },
                ),
            )
            &&& g1 == (crate::game::Game { turn: g1.turn, ..mid2 })
            &&& crate::abilities::priority_reopened(mid2, g1)
        }
}

/// Enters the given step: empties every mana pool, notifies triggered
/// abilities, and opens a fresh priority window.
fn change_step(game: &mut crate::game::Game, phase: Step)
    ensures
        step_changed(*old(game), *final(game), phase),
{
    game.turn.step = phase;
    let mut i: usize = 0;
    while i < game.players.len()
        invariant
            0 <= i <= game.players@.len(),
            *game == (crate::game::Game { turn: game.turn, players: game.players, ..*old(game) }),
            game.turn == (Turn { step: phase, ..old(game).turn }),
            game.players@.len() == old(game).players@.len(),
            forall|j: int|
                0 <= j < i ==> game.players@[j] == (crate::game::Player {
                    mana: crate::mana::Mana::zero(),
                    ..#[trigger] old(game).players@[j]
                }),
            forall|j: int|
                i <= j < game.players@.len() ==> game.players@[j] == (#[trigger] old(game).players@[j]),
        decreases game.players@.len() - i,
    {
        let player = &mut game.players[i];
        player.mana = crate::mana::Mana::new();
        i = i + 1;
    }
    let ghost mid1 = *game;
    crate::events::dispatch_event(
        game,
        crate::events::Event::Phase(
            crate::events::PhaseEvent { owner: game.turn.active_player, phase },
        ),
    );
    let ghost mid2 = *game;
    let active = game.turn.active_player;
    game.turn.priority = Some(Priority::new(active));
    proof {
        assert(crate::game::game_step_witness(mid1));
        assert(crate::game::game_step_witness(mid2));
    }
}

/// Enters the upkeep step.
pub fn upkeep_step(game: &mut crate::game::Game)
    ensures
        step_changed(*old(game), *final(game), Step::Upkeep),
{
    change_step(game, Step::Upkeep)
}

/// Enters the precombat main phase.
pub fn precombat_step(game: &mut crate::game::Game)
    ensures
        step_changed(*old(game), *final(game), Step::Precombat),
{
    change_step(game, Step::Precombat)
}

/// Enters the beginning-of-combat step.
pub fn combat_begin_step(game: &mut crate::game::Game)
    ensures
        step_changed(*old(game), *final(game), Step::CombatBegin),
{
    change_step(game, Step::CombatBegin)
}

/// Enters the end-of-combat step.
pub fn combat_end_step(game: &mut crate::game::Game)
    ensures
        step_changed(*old(game), *final(game), Step::CombatEnd),
{
    change_step(game, Step::CombatEnd)
}

/// Enters the postcombat main phase.
pub fn postcombat_step(game: &mut crate::game::Game)
    ensures
        step_changed(*old(game), *final(game), Step::Postcombat),
{
    change_step(game, Step::Postcombat)
}

/// Enters the end step.
pub fn end_step(game: &mut crate::game::Game)
    ensures
        step_changed(*old(game), *final(game), Step::End),
{
    change_step(game, Step::End)
}

/// The card as the untap step leaves it: untapped, and free of summoning
/// sickness if it is a creature.
pub open spec fn card_untapped_for_turn(c: crate::card::Card) -> crate::card::Card {
    crate::card::Card {
        state: crate::card::CardState {
            tapped: Value { current: false, ..c.state.tapped },
            summoning_sickness: if c.kind == crate::card::CardType::Creature {
                Value { current: false, ..c.state.summoning_sickness }
            } else {
                c.state.summoning_sickness
            },
            ..c.state
        },
        ..c
    }
}

/// Whether the untap step acts on the card: it is a tapped battlefield
/// card of the active player.
pub open spec fn untaps_in_untap_step(c: crate::card::Card, active: ObjectId) -> bool {
    c.owner_id == active && c.zone == crate::card::Zone::Battlefield && c.state.tapped.current
}

/// What untapping the card at `j` and firing its triggers does: an
/// unaffected card changes nothing; an affected one is untapped for the
/// turn and every Untap trigger the event meets lands on the stack.
pub open spec fn untap_link(gm: crate::game::Game, g1: crate::game::Game, j: int) -> bool {
    let c = gm.cards@[j];
    let e = crate::events::Event::Untap(
        crate::events::CardEvent { source: None, owner: c.owner_id, card: c.id },
    );
    if !untaps_in_untap_step(c, gm.turn.active_player) {
        g1 == gm
    } else {
        exists|mid: crate::game::Game|
            {
                &&& #[trigger] crate::game::game_step_witness(mid)
                &&& mid == (crate::game::Game { cards: mid.cards, ..gm })
                &&& mid.cards@ == gm.cards@.update(j, card_untapped_for_turn(c))
                &&& crate::events::stack_extended_by_triggers(mid, g1, e)
                &&& crate::events::triggers_all_fired(mid, g1, e)
            }
    }
}

/// What the untap pass over the first `i` registered cards does, in
/// registry order.
pub open spec fn untap_run(g0: crate::game::Game, g1: crate::game::Game, i: nat) -> bool
    decreases i,
{
    if i == 0 {
        g1 == g0
    } else {
        exists|mid: crate::game::Game|
            #[trigger] crate::game::game_step_witness(mid) && untap_run(g0, mid, (i - 1) as nat)
                && untap_link(mid, g1, i - 1)
    }
}

/// Begins the turn: every tapped battlefield card of the active player
/// untaps, creatures lose their summoning sickness, and triggered
/// abilities hear of each untap and of the step entry.  No priority window
/// opens.
pub fn untap_step(game: &mut crate::game::Game)
    ensures
        *final(game) == (crate::game::Game {
            turn: final(game).turn,
            cards: final(game).cards,
            stack: final(game).stack,
            ..*old(game)
        }),
        final(game).turn == (Turn { step: Step::Untap, ..old(game).turn }),
        final(game).cards@.len() == old(game).cards@.len(),
        forall|j: int|
            0 <= j < old(game).cards@.len() ==> final(game).cards@[j] == (
            if untaps_in_untap_step(#[trigger] old(game).cards@[j], old(game).turn.active_player) {
                card_untapped_for_turn(old(game).cards@[j])
            } else {
                old(game).cards@[j]
            }),
        final(game).stack@.len() >= old(game).stack@.len(),
        final(game).stack@.subrange(0, old(game).stack@.len() as int) == old(game).stack@,
        exists|g_start: crate::game::Game, g_cards: crate::game::Game|
            {
                let e = crate::events::Event::Phase(
                    crate::events::PhaseEvent {
                        owner: old(game).turn.active_player,
                        phase: Step::Untap,
                    },
                );
                &&& #[trigger] crate::game::game_step_witness(g_start)
                &&& #[trigger] crate::game::game_step_witness(g_cards)
                &&& g_start == (crate::game::Game { turn: g_start.turn, ..*old(game) })
                &&& g_start.turn == (Turn { step: Step::Untap, ..old(game).turn })
                &&& untap_run(g_start, g_cards, old(game).cards@.len() as nat)
                &&& crate::events::stack_extended_by_triggers(g_cards, *final(game), e)
                &&& crate::events::triggers_all_fired(g_cards, *final(game), e)
            },
{
    game.turn.step = Step::Untap;
    let ghost g_start = *game;
    let active = game.turn.active_player;
    let n = game.cards.len();
    let mut i: usize = 0;
    while i < n
        invariant
            0 <= i <= n,
            n == old(game).cards@.len(),
            active == old(game).turn.active_player,
            *game == (crate::game::Game {
                turn: game.turn,
                cards: game.cards,
                stack: game.stack,
                ..*old(game)
            }),
            game.turn == (Turn { step: Step::Untap, ..old(game).turn }),
            game.cards@.len() == old(game).cards@.len(),
            forall|j: int|
                0 <= j < i ==> game.cards@[j] == (if untaps_in_untap_step(
                    #[trigger] old(game).cards@[j],
                    active,
                ) {
                    card_untapped_for_turn(old(game).cards@[j])
                } else {
                    old(game).cards@[j]
                }),
            forall|j: int|
                i <= j < n ==> game.cards@[j] == (#[trigger] old(game).cards@[j]),
            game.stack@.len() >= old(game).stack@.len(),
            game.stack@.subrange(0, old(game).stack@.len() as int) == old(game).stack@,
            g_start == (crate::game::Game { turn: g_start.turn, ..*old(game) }),
            g_start.turn == (Turn { step: Step::Untap, ..old(game).turn }),
            game.turn == g_start.turn,
            untap_run(g_start, *game, i as nat),
        decreases n - i,
    {
        let ghost pre = *game;
        let affected = game.cards[i].owner_id == active && matches!(
            game.cards[i].zone,
            crate::card::Zone::Battlefield,
        ) && game.cards[i].state.tapped.current;
        if affected {
            let card_id = game.cards[i].id;
            let owner_id = game.cards[i].owner_id;
            let is_creature = matches!(game.cards[i].kind, crate::card::CardType::Creature);
            {
                let card = &mut game.cards[i];
                card.state.tapped.current = false;
                if is_creature {
                    card.state.summoning_sickness.current = false;
                }
            }
            let ghost mid_g = *game;
            let ghost pre_stack = game.stack@;
            crate::events::dispatch_event(
                game,
                crate::events::Event::Untap(
                    crate::events::CardEvent { source: None, owner: owner_id, card: card_id },
                ),
            );
            proof {
                assert(game.stack@.subrange(0, old(game).stack@.len() as int) =~= old(game).stack@);
                assert(mid_g.cards@ =~= pre.cards@.update(
                    i as int,
                    card_untapped_for_turn(pre.cards@[i as int]),
                ));
                assert(crate::game::game_step_witness(mid_g));
                assert(untaps_in_untap_step(pre.cards@[i as int], pre.turn.active_player));
                assert(untap_link(pre, *game, i as int));
                assert(crate::game::game_step_witness(pre));
                assert(untap_run(g_start, *game, (i + 1) as nat));
            }
        } else {
            proof {
                assert(!untaps_in_untap_step(game.cards@[i as int], game.turn.active_player));
                assert(untap_link(*game, *game, i as int));
                assert(crate::game::game_step_witness(*game));
                assert(untap_run(g_start, *game, (i + 1) as nat));
            }
        }
        i = i + 1;
    }
    let ghost g_cards = *game;
    crate::events::dispatch_event(
        game,
        crate::events::Event::Phase(
            crate::events::PhaseEvent { owner: active, phase: Step::Untap },
        ),
    );
    proof {
        assert(game.stack@.subrange(0, old(game).stack@.len() as int) =~= old(game).stack@);
        assert(crate::game::game_step_witness(g_start));
        assert(crate::game::game_step_witness(g_cards));
        assert(untap_run(g_start, g_cards, old(game).cards@.len() as nat));
    }
}

/// Enters the draw step: the active player draws a card, triggered
/// abilities hear of the step, and a fresh priority window opens.
pub fn draw_step(game: &mut crate::game::Game)
    ensures
        exists|mid1: crate::game::Game, mid2: crate::game::Game, mid3: crate::game::Game|
            {
                &&& #[trigger] crate::game::game_step_witness(mid1)
                &&& #[trigger] crate::game::game_step_witness(mid2)
                &&& #[trigger] crate::game::game_step_witness(mid3)
                &&& mid1 == (crate::game::Game { turn: mid1.turn, ..*old(game) })
                &&& mid1.turn == (Turn { step: Step::Draw, ..old(game).turn })
                &&& crate::abilities::draw_outcome(mid1, mid2, old(game).turn.active_player)
                &&& crate::events::stack_extended_by_triggers(
                    mid2,
                    mid3,
                    crate::events::Event::Phase(
                        crate::events::PhaseEvent {
                            owner: old(game).turn.active_player,
                            phase: Step::Draw,
                        },
                    ),
                )
                &&& crate::events::triggers_all_fired(
                    mid2,
                    mid3,
                    crate::events::Event::Phase(
                        crate::events::PhaseEvent {
                            owner: old(game).turn.active_player,
                            phase: Step::Draw,
                        },
                    ),
                )
                &&& *final(game) == (crate::game::Game { turn: final(game).turn, ..mid3 })
                &&& crate::abilities::priority_reopened(mid3, *final(game))
            },
{
    game.turn.step = Step::Draw;
    let ghost mid1 = *game;
    let active = game.turn.active_player;
    let ppos = game.player_pos(active);
    proof {
        crate::game::lemma_find_player(game.players@, active);
    }
    crate::card::draw_card(game, active);
    let ghost mid2 = *game;
    crate::events::dispatch_event(
        game,
        crate::events::Event::Phase(
            crate::events::PhaseEvent { owner: active, phase: Step::Draw },
        ),
    );
    let ghost mid3 = *game;
    let active2 = game.turn.active_player;
    game.turn.priority = Some(Priority::new(active2));
    proof {
        assert(crate::game::game_step_witness(mid1));
        assert(crate::game::game_step_witness(mid2));
        assert(crate::game::game_step_witness(mid3));
    }
}

/// Opens the declare-attackers step; no responses are legal while
/// attackers are declared, so no priority window opens.
pub fn declare_attackers_step_start(game: &mut crate::game::Game)
    ensures
        *final(game) == (crate::game::Game { turn: final(game).turn, ..*old(game) }),
        final(game).turn == (Turn {
            step: Step::DeclareAttackers,
            priority: None,
            ..old(game).turn
        }),
{
    game.turn.step = Step::DeclareAttackers;
    game.turn.priority = None;
}

/// Opens the declare-blockers step; no responses are legal while blockers
/// are declared, so no priority window opens.
pub fn declare_blockers_step_start(game: &mut crate::game::Game)
    ensures
        *final(game) == (crate::game::Game { turn: final(game).turn, ..*old(game) }),
        final(game).turn == (Turn {
            step: Step::DeclareBlockers,
            priority: None,
            ..old(game).turn
        }),
{
    game.turn.step = Step::DeclareBlockers;
    game.turn.priority = None;
}

/// Passes priority to the next player and records that the holder passed;
/// without an open window, nothing happens.
pub fn pass_priority(game: &mut crate::game::Game)
    ensures
        old(game).turn.priority is None ==> *final(game) == *old(game),
        old(game).turn.priority matches Some(p0) ==> *final(game) == (crate::game::Game {
            turn: final(game).turn,
            ..*old(game)
        }) && final(game).turn == (Turn { priority: final(game).turn.priority, ..old(game).turn })
            && (final(game).turn.priority matches Some(p1) && p1.player_id == old(game).next_player_spec(old(game).turn.active_player) && p1.passes_seq() == (
        if p0.passes_seq().contains(p0.player_id) {
            p0.passes_seq()
        } else {
            p0.passes_seq().push(p0.player_id)
        })),
{
    let next_player = game.get_next_player(game.turn.active_player);
    match &mut game.turn.priority {
        Some(priority) => {
            priority.pass(next_player);
        },
        None => {},
    }
}

/// Hands the turn to the next player: a fresh turn replaces the old one
/// wholesale.
pub fn pass_turn(game: &mut crate::game::Game)
    ensures
        *final(game) == (crate::game::Game { turn: final(game).turn, ..*old(game) }),
        final(game).turn.is_fresh(old(game).next_player_spec(old(game).turn.active_player)),
{
    let next_player = game.get_next_player(game.turn.active_player);
    game.turn = Turn::new(next_player);
}

/// Ends the turn: every creature's power and toughness return to their
/// baselines, and if the active player holds more cards than their hand
/// limit allows, an action demanding the excess discards is handed back.
pub fn cleanup_step(game: &mut crate::game::Game) -> (r: Option<crate::action::Action>)
    ensures
        *final(game) == (crate::game::Game {
            turn: final(game).turn,
            cards: final(game).cards,
            ..*old(game)
        }),
        final(game).turn == (Turn { step: Step::Cleanup, ..old(game).turn }),
        final(game).cards@.len() == old(game).cards@.len(),
        forall|j: int|
            0 <= j < old(game).cards@.len() ==> final(game).cards@[j] == (
            if (#[trigger] old(game).cards@[j]).kind == crate::card::CardType::Creature {
                crate::card::Card {
                    state: old(game).cards@[j].state.restore_spec(),
                    ..old(game).cards@[j]
                }
            } else {
                old(game).cards@[j]
            }),
        ({
            let pi = old(game).player_index(old(game).turn.active_player);
            &&& (r is Some <==> pi != -1 && crate::storage::id_set_elems(
                old(game).players@[pi].hand,
            ).len() > old(game).players@[pi].hand_size_limit.current)
            &&& (r matches Some(a) ==> a@ == (crate::action::ActionView {
                player_id: old(game).turn.active_player,
                card_id: 0,
                required_cost: crate::abilities::CostView::Nothing,
                required_target: crate::abilities::TargetView::Nothing,
                required_effect: crate::abilities::EffectView::Discard(
                    (crate::storage::id_set_elems(old(game).players@[pi].hand).len() - old(game).players@[pi].hand_size_limit.current) as usize,
                ),
                chosen_cost: crate::action::ChoiceView::Nothing,
                chosen_target: crate::action::ChoiceView::Nothing,
                chosen_effect: crate::action::ChoiceView::Nothing,
            }))
        }),
{
    game.turn.step = Step::Cleanup;
    let n = game.cards.len();
    let mut i: usize = 0;
    while i < n
        invariant
            0 <= i <= n,
            n == old(game).cards@.len(),
            *game == (crate::game::Game {
                turn: game.turn,
                cards: game.cards,
                ..*old(game)
            }),
            game.turn == (Turn { step: Step::Cleanup, ..old(game).turn }),
            game.cards@.len() == old(game).cards@.len(),
            forall|j: int|
                0 <= j < i ==> game.cards@[j] == (if (#[trigger] old(game).cards@[j]).kind
                    == crate::card::CardType::Creature {
                    crate::card::Card {
                        state: old(game).cards@[j].state.restore_spec(),
                        ..old(game).cards@[j]
                    }
                } else {
                    old(game).cards@[j]
                }),
            forall|j: int|
                i <= j < n ==> game.cards@[j] == (#[trigger] old(game).cards@[j]),
        decreases n - i,
    {
        if matches!(game.cards[i].kind, crate::card::CardType::Creature) {
            let card = &mut game.cards[i];
            card.state.restore();
        }
        i = i + 1;
    }
    let active = game.turn.active_player;
    let ppos = game.player_pos(active);
    proof {
        crate::game::lemma_find_player(game.players@, active);
        assert(game.players.len() == game.players@.len());
    }
    match ppos {
        Some(pi) => {
            let hand_size = crate::storage::id_set_len(&game.players[pi].hand);
            let limit = game.players[pi].hand_size_limit.current;
            if hand_size > limit {
                let mut action = crate::action::Action::new(active, 0);
                action.set_required_effect(Effect::Discard(hand_size - limit));
                proof {
                    assert(action@.required_effect == crate::abilities::EffectView::Discard(
                        (hand_size - limit) as usize,
                    ));
                }
                return Some(action);
            }
            None
        },
        None => None,
    }
}


/// Whether the card may be declared as an attacker: an untapped creature
/// of the active player on the battlefield, free of summoning sickness
/// and without Defender.
pub open spec fn can_attack_spec(g: crate::game::Game, card_id: ObjectId) -> bool {
    let ci = g.card_index(card_id);
    &&& ci != -1
    &&& {
        let c = g.cards@[ci];
        &&& c.owner_id == g.turn.active_player
        &&& c.zone == crate::card::Zone::Battlefield
        &&& c.kind == crate::card::CardType::Creature
        &&& !c.static_abilities.has(crate::abilities::StaticAbility::Defender)
        &&& !c.state.tapped.current
        &&& !c.state.summoning_sickness.current
    }
}

/// Whether the card may be declared as an attacker now.
pub fn can_declare_attacker(game: &crate::game::Game, card_id: ObjectId) -> (r: bool)
    ensures
        r == can_attack_spec(*game, card_id),
{
    let active_player = game.turn.active_player;
    match game.get_card(card_id) {
        Some(card) => {
            if card.owner_id != active_player || !matches!(
                card.zone,
                crate::card::Zone::Battlefield,
            ) || !matches!(card.kind, crate::card::CardType::Creature) {
                return false;
            }
            if card.static_abilities.contains(&crate::abilities::StaticAbility::Defender) {
                return false;
            }
            !card.state.tapped.current && !card.state.summoning_sickness.current
        },
        None => false,
    }
}

/// Whether a declared attacker carries a first-strike pass record: it has
/// First Strike or Double Strike.
pub open spec fn strikes_first(c: crate::card::Card) -> bool {
    c.static_abilities.has(crate::abilities::StaticAbility::FirstStrike)
        || c.static_abilities.has(crate::abilities::StaticAbility::DoubleStrike)
}

/// Whether a declared attacker carries a regular pass record: everything
/// without First Strike (a double striker hits in both passes).
pub open spec fn strikes_regular(c: crate::card::Card) -> bool {
    !c.static_abilities.has(crate::abilities::StaticAbility::FirstStrike)
}

/// Whether `a` is the fresh attacker record that declaring `card_id`
/// against `target` produces from the card `c`.
pub open spec fn fresh_attacker_record(
    a: Attacker,
    c: crate::card::Card,
    card_id: ObjectId,
    target: ObjectId,
) -> bool {
    &&& a.id == card_id
    &&& a.target == target
    &&& a.blocked == false
    &&& a.blockers_seq() == Seq::<usize>::empty()
    &&& (a.first_strike is Some <==> strikes_first(c))
    &&& (a.first_strike matches Some(fs) ==> fs.power == (Value {
        current: c.state.power.current,
        default: c.state.power.current,
    }) && fs.assignments_seq() == Seq::<(usize, i16)>::empty())
    &&& (a.regular is Some <==> strikes_regular(c))
    &&& (a.regular matches Some(reg) ==> reg.power == (Value {
        current: c.state.power.current,
        default: c.state.power.current,
    }) && reg.assignments_seq() == Seq::<(usize, i16)>::empty())
}

/// Declares an attacker against the given player or planeswalking target:
/// a legal creature gets a fresh record with one pass record per relevant
/// pass; an illegal declaration changes nothing.  Redeclaring an attacker
/// replaces its record.
pub open spec fn attacker_declared(
    g0: crate::game::Game,
    g1: crate::game::Game,
    attacker_id: ObjectId,
    target: ObjectId,
) -> bool {
    &&& (!can_attack_spec(g0, attacker_id) ==> g1 == g0)
    &&& (can_attack_spec(g0, attacker_id) ==> {
        let c = g0.cards@[g0.card_index(attacker_id)];
        let ai = g0.turn.combat.attacker_index(attacker_id);
        &&& g1 == (crate::game::Game { turn: g1.turn, ..g0 })
        &&& g1.turn == (Turn { combat: g1.turn.combat, ..g0.turn })
        &&& g1.turn.combat.blockers_toughness == g0.turn.combat.blockers_toughness
        &&& {
            let att0 = g0.turn.combat.attackers@;
            let att1 = g1.turn.combat.attackers@;
            &&& (ai == -1 ==> att1.len() == att0.len() + 1 && att1.subrange(0, att0.len() as int)
                == att0 && fresh_attacker_record(att1.last(), c, attacker_id, target))
            &&& (ai != -1 ==> att1.len() == att0.len() && (forall|j: int|
                0 <= j < att0.len() && j != ai ==> att1[j] == (#[trigger] att0[j]))
                && fresh_attacker_record(att1[ai], c, attacker_id, target))
        }
    })
}

pub fn declare_attacker(game: &mut crate::game::Game, attacker_id: ObjectId, target: ObjectId)
    ensures
        attacker_declared(*old(game), *final(game), attacker_id, target),
        !can_attack_spec(*old(game), attacker_id) ==> *final(game) == *old(game),
        can_attack_spec(*old(game), attacker_id) ==> {
            let c = old(game).cards@[old(game).card_index(attacker_id)];
            let ai = old(game).turn.combat.attacker_index(attacker_id);
            &&& *final(game) == (crate::game::Game { turn: final(game).turn, ..*old(game) })
            &&& final(game).turn == (Turn { combat: final(game).turn.combat, ..old(game).turn })
            &&& final(game).turn.combat.blockers_toughness == old(game).turn.combat.blockers_toughness
            &&& {
                let att0 = old(game).turn.combat.attackers@;
                let att1 = final(game).turn.combat.attackers@;
                &&& (ai == -1 ==> att1.len() == att0.len() + 1 && att1.subrange(
                    0,
                    att0.len() as int,
                ) == att0 && fresh_attacker_record(att1.last(), c, attacker_id, target))
                &&& (ai != -1 ==> att1.len() == att0.len() && (forall|j: int|
                    0 <= j < att0.len() && j != ai ==> att1[j] == (#[trigger] att0[j]))
                    && fresh_attacker_record(att1[ai], c, attacker_id, target))
            }
        },
{
    if !can_declare_attacker(game, attacker_id) {
        return ;
    }
    let (power, first, second) = match game.get_card(attacker_id) {
        Some(card) => {
            let power = card.state.power.current;
            if card.static_abilities.contains(&crate::abilities::StaticAbility::FirstStrike) {
                (power, true, false)
            } else if card.static_abilities.contains(
                &crate::abilities::StaticAbility::DoubleStrike,
            ) {
                (power, true, true)
            } else {
                (power, false, true)
            }
        },
        None => {
            proof {
                assert(false);
            }
            (0, false, false)
        },
    };
    let record = Attacker {
        id: attacker_id,
        target,
        first_strike: if first {
            Some(Attack::new(power))
        } else {
            None
        },
        regular: if second {
            Some(Attack::new(power))
        } else {
            None
        },
        blockers: id_set_new(),
        blocked: false,
    };
    let apos = attacker_pos(&game.turn.combat, attacker_id);
    proof {
        lemma_find_attacker(game.turn.combat.attackers@, attacker_id);
        assert(game.turn.combat.attackers.len() == game.turn.combat.attackers@.len());
    }
    match apos {
        Some(ai) => {
            game.turn.combat.attackers.set(ai, record);
        },
        None => {
            game.turn.combat.attackers.push(record);
            proof {
                assert(game.turn.combat.attackers@.subrange(
                    0,
                    old(game).turn.combat.attackers@.len() as int,
                ) =~= old(game).turn.combat.attackers@);
            }
        },
    }
}

/// The position of the declared attacker carrying `id`, if any.
pub fn attacker_pos(combat: &Combat, id: ObjectId) -> (r: Option<usize>)
    ensures
        combat.attacker_index(id) == -1 ==> r is None,
        combat.attacker_index(id) != -1 ==> r == Some(combat.attacker_index(id) as usize),
{
    proof {
        lemma_find_attacker(combat.attackers@, id);
        assert(combat.attackers.len() == combat.attackers@.len());
    }
    let mut i: usize = 0;
    while i < combat.attackers.len()
        invariant
            0 <= i <= combat.attackers@.len(),
            forall|j: int| 0 <= j < i ==> (#[trigger] combat.attackers@[j]).id != id,
            combat.attacker_index(id) == -1 || 0 <= combat.attacker_index(id)
                < combat.attackers@.len(),
            combat.attacker_index(id) != -1 ==> combat.attackers@[combat.attacker_index(id)].id
                == id,
        decreases combat.attackers@.len() - i,
    {
        if combat.attackers[i].id == id {
            proof {
                lemma_find_attacker(combat.attackers@, id);
            }
            return Some(i);
        }
        i = i + 1;
    }
    proof {
        lemma_find_attacker(combat.attackers@, id);
    }
    None
}

/// Whether the card may block the declared attacker: an untapped creature
/// of the defending player on the battlefield, and, against a flying
/// attacker, one with Flying or Reach.
pub open spec fn can_block_spec(
    g: crate::game::Game,
    blocker_id: ObjectId,
    attacker_id: ObjectId,
) -> bool {
    let ai = g.turn.combat.attacker_index(attacker_id);
    &&& ai != -1
    &&& {
        let defending = g.turn.combat.attackers@[ai].target;
        let bi = g.card_index(blocker_id);
        let aci = g.card_index(attacker_id);
        &&& bi != -1
        &&& {
            let b = g.cards@[bi];
            &&& b.owner_id == defending
            &&& b.zone == crate::card::Zone::Battlefield
            &&& b.kind == crate::card::CardType::Creature
            &&& !b.state.tapped.current
            &&& ((aci != -1 && g.cards@[aci].static_abilities.has(
                crate::abilities::StaticAbility::Flying,
            )) ==> (b.static_abilities.has(crate::abilities::StaticAbility::Flying)
                || b.static_abilities.has(crate::abilities::StaticAbility::Reach)))
        }
    }
}

/// Whether the card may block the declared attacker now.
pub fn can_declare_blocker(
    game: &crate::game::Game,
    blocker_id: ObjectId,
    attacker_id: ObjectId,
) -> (r: bool)
    ensures
        r == can_block_spec(*game, blocker_id, attacker_id),
{
    let apos = attacker_pos(&game.turn.combat, attacker_id);
    proof {
        lemma_find_attacker(game.turn.combat.attackers@, attacker_id);
        assert(game.turn.combat.attackers.len() == game.turn.combat.attackers@.len());
    }
    let defending_player = match apos {
        Some(ai) => {
            proof {
                assert(ai as int == game.turn.combat.attacker_index(attacker_id));
            }
            game.turn.combat.attackers[ai].target
        },
        None => {
            return false;
        },
    };
    let attacker_flies = match game.get_card(attacker_id) {
        Some(card) => card.static_abilities.contains(&crate::abilities::StaticAbility::Flying),
        None => false,
    };
    match game.get_card(blocker_id) {
        Some(blocker) => {
            if blocker.owner_id != defending_player || !matches!(
                blocker.zone,
                crate::card::Zone::Battlefield,
            ) || !matches!(blocker.kind, crate::card::CardType::Creature)
                || blocker.state.tapped.current {
                return false;
            }
            if attacker_flies {
                // Flying creatures can only be blocked by other flying
                // creatures or by creatures with reach
                return blocker.static_abilities.contains(
                    &crate::abilities::StaticAbility::Flying,
                ) || blocker.static_abilities.contains(&crate::abilities::StaticAbility::Reach);
            }
            true
        },
        None => false,
    }
}

/// Declares a blocker for the attacker: a legal blocker joins the
/// attacker's blocker list; an illegal declaration changes nothing.
pub open spec fn blocker_declared(
    g0: crate::game::Game,
    g1: crate::game::Game,
    blocker_id: ObjectId,
    attacker_id: ObjectId,
) -> bool {
    &&& (!can_block_spec(g0, blocker_id, attacker_id) ==> g1 == g0)
    &&& (can_block_spec(g0, blocker_id, attacker_id) ==> {
        let ai = g0.turn.combat.attacker_index(attacker_id);
        let a0 = g0.turn.combat.attackers@[ai];
        &&& g1 == (crate::game::Game { turn: g1.turn, ..g0 })
        &&& g1.turn == (Turn { combat: g1.turn.combat, ..g0.turn })
        &&& g1.turn.combat.blockers_toughness == g0.turn.combat.blockers_toughness
        &&& g1.turn.combat.attackers@.len() == g0.turn.combat.attackers@.len()
        &&& (forall|j: int|
            0 <= j < g0.turn.combat.attackers@.len() && j != ai ==> g1.turn.combat.attackers@[j]
                == (#[trigger] g0.turn.combat.attackers@[j]))
        &&& {
            let a1 = g1.turn.combat.attackers@[ai];
            &&& a1 == (Attacker { blockers: a1.blockers, ..a0 })
            &&& a1.blockers_seq() == if a0.blockers_seq().contains(blocker_id) {
                a0.blockers_seq()
            } else {
                a0.blockers_seq().push(blocker_id)
            }
        }
    })
}

pub fn declare_blocker(game: &mut crate::game::Game, blocker_id: ObjectId, attacker_id: ObjectId)
    ensures
        blocker_declared(*old(game), *final(game), blocker_id, attacker_id),
        !can_block_spec(*old(game), blocker_id, attacker_id) ==> *final(game) == *old(game),
        can_block_spec(*old(game), blocker_id, attacker_id) ==> {
            let ai = old(game).turn.combat.attacker_index(attacker_id);
            let a0 = old(game).turn.combat.attackers@[ai];
            &&& *final(game) == (crate::game::Game { turn: final(game).turn, ..*old(game) })
            &&& final(game).turn == (Turn { combat: final(game).turn.combat, ..old(game).turn })
            &&& final(game).turn.combat.blockers_toughness == old(game).turn.combat.blockers_toughness
            &&& final(game).turn.combat.attackers@.len() == old(game).turn.combat.attackers@.len()
            &&& (forall|j: int|
                0 <= j < old(game).turn.combat.attackers@.len() && j != ai ==> final(game).turn.combat.attackers@[j] == (#[trigger] old(game).turn.combat.attackers@[j]))
            &&& {
                let a1 = final(game).turn.combat.attackers@[ai];
                &&& a1 == (Attacker { blockers: a1.blockers, ..a0 })
                &&& a1.blockers_seq() == if a0.blockers_seq().contains(blocker_id) {
                    a0.blockers_seq()
                } else {
                    a0.blockers_seq().push(blocker_id)
                }
            }
        },
{
    if !can_declare_blocker(game, blocker_id, attacker_id) {
        return ;
    }
    let apos = attacker_pos(&game.turn.combat, attacker_id);
    proof {
        lemma_find_attacker(game.turn.combat.attackers@, attacker_id);
        assert(game.turn.combat.attackers.len() == game.turn.combat.attackers@.len());
    }
    match apos {
        Some(ai) => {
            let attacker = &mut game.turn.combat.attackers[ai];
            id_set_insert(&mut attacker.blockers, blocker_id);
            proof {
                assert(game.turn.combat.attackers@ =~= old(game).turn.combat.attackers@.update(
                    ai as int,
                    game.turn.combat.attackers@[ai as int],
                ));
            }
        },
        None => {},
    }
}

/// Whether the card at `j` is one that ending the declare-attackers step
/// taps: the first registered card of a declared attacker among the first
/// `upto` records, without Vigilance.
pub open spec fn taps_among(g: crate::game::Game, j: int, upto: int) -> bool {
    exists|k: int|
        0 <= k < upto && #[trigger] g.card_index(g.turn.combat.attackers@[k].id) == j
            && !g.cards@[j].static_abilities.has(crate::abilities::StaticAbility::Vigilance)
}

/// The card with its tapped flag raised.
pub open spec fn card_tap_set(c: crate::card::Card) -> crate::card::Card {
    crate::card::Card {
        state: crate::card::CardState {
            tapped: Value { current: true, ..c.state.tapped },
            ..c.state
        },
        ..c
    }
}

/// What ending the declare-attackers step does: exactly the declared
/// attackers without Vigilance tap (cards already tapped or off the
/// battlefield stay as they are, and no other card changes), triggered
/// abilities hear of the step and every met trigger fires, and a fresh
/// priority window opens for the active player.
pub open spec fn attackers_step_ended(g0: crate::game::Game, g1: crate::game::Game) -> bool {
    exists|mid: crate::game::Game, mid2: crate::game::Game|
        {
            &&& #[trigger] crate::game::game_step_witness(mid)
            &&& #[trigger] crate::game::game_step_witness(mid2)
            &&& mid == (crate::game::Game { cards: mid.cards, ..g0 })
            &&& mid.cards@.len() == g0.cards@.len()
            &&& (forall|j: int|
                0 <= j < g0.cards@.len() ==> mid.cards@[j] == (if taps_among(
                    g0,
                    j,
                    g0.turn.combat.attackers@.len() as int,
                ) && (#[trigger] g0.cards@[j]).can_tap() {
                    card_tap_set(g0.cards@[j])
                } else {
                    g0.cards@[j]
                }))
            &&& crate::events::stack_extended_by_triggers(
                mid,
                mid2,
                crate::events::Event::Phase(
                    crate::events::PhaseEvent {
                        owner: g0.turn.active_player,
                        phase: Step::DeclareAttackers,
                    },
                ),
            )
            &&& crate::events::triggers_all_fired(
                mid,
                mid2,
                crate::events::Event::Phase(
                    crate::events::PhaseEvent {
                        owner: g0.turn.active_player,
                        phase: Step::DeclareAttackers,
                    },
                ),
            )
            &&& g1 == (crate::game::Game { turn: g1.turn, ..mid2 })
            &&& crate::abilities::priority_reopened(mid2, g1)
        }
}

/// Ends the declare-attackers step; see `attackers_step_ended`.
pub fn declare_attackers_step_end(game: &mut crate::game::Game)
    ensures
        attackers_step_ended(*old(game), *final(game)),
{
    let n = game.turn.combat.attackers.len();
    let mut k: usize = 0;
    while k < n
        invariant
            0 <= k <= n,
            n == old(game).turn.combat.attackers@.len(),
            *game == (crate::game::Game { cards: game.cards, ..*old(game) }),
            game.cards@.len() == old(game).cards@.len(),
            forall|j: int|
                0 <= j < old(game).cards@.len() ==> game.cards@[j] == (if taps_among(
                    *old(game),
                    j,
                    k as int,
                ) && (#[trigger] old(game).cards@[j]).can_tap() {
                    card_tap_set(old(game).cards@[j])
                } else {
                    old(game).cards@[j]
                }),
        decreases n - k,
    {
        let attacker_id = game.turn.combat.attackers[k].id;
        let cpos = game.card_pos(attacker_id);
        proof {
            crate::game::lemma_find_card(game.cards@, attacker_id);
            crate::game::lemma_find_card(old(game).cards@, attacker_id);
            assert(game.cards.len() == game.cards@.len());
            assert forall|j: int|
                0 <= j < game.cards@.len() implies (#[trigger] game.cards@[j]).id
                == old(game).cards@[j].id by {}
            crate::game::lemma_find_card_same_ids(game.cards@, old(game).cards@, attacker_id);
        }
        match cpos {
            Some(ci) => {
                proof {
                    assert(game.card_index(attacker_id) == old(game).card_index(attacker_id));
                    assert(ci as int == game.card_index(attacker_id));
                }
                let vigilant = game.cards[ci].static_abilities.contains(
                    &crate::abilities::StaticAbility::Vigilance,
                );
                proof {
                    assert(game.cards@[ci as int].static_abilities == old(
                        game,
                    ).cards@[ci as int].static_abilities);
                }
                let ghost pre = game.cards@;
                if !vigilant {
                    let card = &mut game.cards[ci];
                    card.tap();
                }
                proof {
                    assert forall|j: int|
                        0 <= j < old(game).cards@.len() implies game.cards@[j] == (if taps_among(
                        *old(game),
                        j,
                        k + 1,
                    ) && (#[trigger] old(game).cards@[j]).can_tap() {
                        card_tap_set(old(game).cards@[j])
                    } else {
                        old(game).cards@[j]
                    }) by {
                        if j == ci as int {
                            if !vigilant {
                                assert(taps_among(*old(game), j, k + 1)) by {
                                    assert(old(game).card_index(
                                        old(game).turn.combat.attackers@[k as int].id,
                                    ) == j);
                                }
                            } else {
                                assert(!taps_among(*old(game), j, k + 1)) by {
                                    if taps_among(*old(game), j, k + 1) {
                                        assert(old(game).cards@[j].static_abilities
                                            == game.cards@[j].static_abilities);
                                    }
                                }
                            }
                        } else {
                            assert(game.cards@[j] == pre[j]);
                            assert(taps_among(*old(game), j, k + 1) == taps_among(
                                *old(game),
                                j,
                                k as int,
                            )) by {
                                if taps_among(*old(game), j, k + 1) {
                                    let kk = choose|kk: int|
                                        0 <= kk < k + 1 && #[trigger] old(game).card_index(
                                            old(game).turn.combat.attackers@[kk].id,
                                        ) == j && !old(game).cards@[j].static_abilities.has(
                                            crate::abilities::StaticAbility::Vigilance,
                                        );
                                    assert(kk < k);
                                }
                            }
                        }
                    }
                }
            },
            None => {
                proof {
                    assert forall|j: int|
                        0 <= j < old(game).cards@.len() implies taps_among(*old(game), j, k + 1)
                        == taps_among(*old(game), j, k as int) by {
                        if taps_among(*old(game), j, k + 1) {
                            let kk = choose|kk: int|
                                0 <= kk < k + 1 && #[trigger] old(game).card_index(
                                    old(game).turn.combat.attackers@[kk].id,
                                ) == j && !old(game).cards@[j].static_abilities.has(
                                    crate::abilities::StaticAbility::Vigilance,
                                );
                            assert(kk < k);
                        }
                    }
                }
            },
        }
        k = k + 1;
    }
    let ghost mid = *game;
    crate::events::dispatch_event(
        game,
        crate::events::Event::Phase(
            crate::events::PhaseEvent {
                owner: game.turn.active_player,
                phase: Step::DeclareAttackers,
            },
        ),
    );
    let ghost mid2 = *game;
    let active = game.turn.active_player;
    game.turn.priority = Some(Priority::new(active));
    proof {
        assert(crate::game::game_step_witness(mid));
        assert(crate::game::game_step_witness(mid2));
    }
}

/// What ending the declare-blockers step does; see
/// `declare_blockers_step_end`.
pub open spec fn blockers_step_ended(g0: crate::game::Game, g1: crate::game::Game) -> bool {
        exists|mid: crate::game::Game|
            {
                &&& #[trigger] crate::game::game_step_witness(mid)
                &&& crate::events::stack_extended_by_triggers(
                    g0,
                    mid,
                    crate::events::Event::Phase(
                        crate::events::PhaseEvent {
                            owner: g0.turn.active_player,
                            phase: Step::DeclareBlockers,
                        },
                    ),
                )
                &&& g1 == (crate::game::Game { turn: g1.turn, ..mid })
                &&& crate::abilities::priority_reopened(mid, g1)
            }
}

/// Ends the declare-blockers step: triggered abilities hear of the step
/// and a fresh priority window opens for the active player.
pub fn declare_blockers_step_end(game: &mut crate::game::Game)
    ensures
        blockers_step_ended(*old(game), *final(game)),
{
    crate::events::dispatch_event(
        game,
        crate::events::Event::Phase(
            crate::events::PhaseEvent {
                owner: game.turn.active_player,
                phase: Step::DeclareBlockers,
            },
        ),
    );
    let ghost mid = *game;
    let active = game.turn.active_player;
    game.turn.priority = Some(Priority::new(active));
    proof {
        assert(crate::game::game_step_witness(mid));
    }
}


/// The toughness entries after noting each listed blocker's current
/// toughness, front to back; an unknown blocker counts as zero.
pub open spec fn tough_filled(
    tough: Seq<(usize, i16)>,
    blockers: Seq<usize>,
    cards: Seq<crate::card::Card>,
) -> Seq<(usize, i16)>
    decreases blockers.len(),
{
    if blockers.len() == 0 {
        tough
    } else {
        let b = blockers[0];
        let t = if crate::game::find_card(cards, b) != -1 {
            cards[crate::game::find_card(cards, b)].state.toughness.current
        } else {
            0i16
        };
        tough_filled(
            crate::storage::key_store(tough, b, t),
            blockers.drop_first(),
            cards,
        )
    }
}

/// One automatic damage distribution: the unassigned-toughness entries,
/// the damage assignments, and the attacker's remaining spillable power.
pub struct GreedyAssign {
    pub tough: Seq<(usize, i16)>,
    pub assigns: Seq<(usize, i16)>,
    pub left: i16,
}

/// Distributes `left` damage across the listed blockers front to back, up
/// to each blocker's unassigned toughness, and keeps the remainder as
/// spillable power.
pub open spec fn greedy_assign(
    blockers: Seq<usize>,
    tough: Seq<(usize, i16)>,
    assigns: Seq<(usize, i16)>,
    left: i16,
) -> GreedyAssign
    decreases blockers.len(),
{
    if blockers.len() == 0 || left <= 0 {
        GreedyAssign { tough, assigns, left }
    } else {
        let b = blockers[0];
        let t = crate::storage::key_value_or(tough, b, 0);
        let avail: i16 = if t > 0 {
            t
        } else {
            0i16
        };
        let d: i16 = if avail < left {
            avail
        } else {
            left
        };
        greedy_assign(
            blockers.drop_first(),
            crate::storage::key_store(tough, b, (t - d) as i16),
            crate::storage::key_store(assigns, b, d),
            (left - d) as i16,
        )
    }
}

/// The attacker record with its pass record for `ty` replaced; everything
/// else untouched.
pub open spec fn attack_record_replaced(
    a0: Attacker,
    a1: Attacker,
    ty: AttackType,
    power: Value<i16>,
    assigns: Seq<(usize, i16)>,
) -> bool {
    &&& a1 == (Attacker { first_strike: a1.first_strike, regular: a1.regular, ..a0 })
    &&& match ty {
        AttackType::FirstStrike => a1.regular == a0.regular && (a1.first_strike matches Some(att)
            && att.power == power && att.assignments_seq() == assigns),
        AttackType::Regular => a1.first_strike == a0.first_strike && (a1.regular matches Some(att)
            && att.power == power && att.assignments_seq() == assigns),
    }
}

/// What automatically assigning the pass `ty` for the attacker at `k`
/// does: with a pass record present, its full power is distributed
/// greedily across the declared blockers; without one, nothing happens.
pub open spec fn auto_assign_link(
    gm: crate::game::Game,
    g1: crate::game::Game,
    ty: AttackType,
    k: int,
) -> bool {
    let a = gm.turn.combat.attackers@[k];
    match a.attack_of(ty) {
        None => g1 == gm,
        Some(att) => {
            let res = greedy_assign(
                a.blockers_seq(),
                gm.turn.combat.toughness_seq(),
                att.assignments_seq(),
                att.power.default,
            );
            &&& g1 == (crate::game::Game { turn: g1.turn, ..gm })
            &&& g1.turn == (Turn { combat: g1.turn.combat, ..gm.turn })
            &&& g1.turn.combat.toughness_seq() == res.tough
            &&& g1.turn.combat.attackers@.len() == gm.turn.combat.attackers@.len()
            &&& (forall|j: int|
                0 <= j < gm.turn.combat.attackers@.len() && j != k ==> g1.turn.combat.attackers@[j]
                    == (#[trigger] gm.turn.combat.attackers@[j]))
            &&& attack_record_replaced(
                a,
                g1.turn.combat.attackers@[k],
                ty,
                Value { current: res.left, default: att.power.default },
                res.assigns,
            )
        },
    }
}

/// What automatically assigning the pass `ty` across the first `n`
/// declared attackers does, in declaration order.
pub open spec fn auto_assign_pass(
    g0: crate::game::Game,
    g1: crate::game::Game,
    ty: AttackType,
    n: nat,
) -> bool
    decreases n,
{
    if n == 0 {
        g1 == g0
    } else {
        exists|mid: crate::game::Game|
            #[trigger] crate::game::game_step_witness(mid) && auto_assign_pass(
                g0,
                mid,
                ty,
                (n - 1) as nat,
            ) && auto_assign_link(mid, g1, ty, n - 1)
    }
}

/// What noting the blockers' toughness for the attacker at `k` does.
pub open spec fn tough_fill_link(
    gm: crate::game::Game,
    g1: crate::game::Game,
    k: int,
) -> bool {
    &&& g1 == (crate::game::Game { turn: g1.turn, ..gm })
    &&& g1.turn == (Turn { combat: g1.turn.combat, ..gm.turn })
    &&& g1.turn.combat.attackers@ == gm.turn.combat.attackers@
    &&& g1.turn.combat.toughness_seq() == tough_filled(
        gm.turn.combat.toughness_seq(),
        gm.turn.combat.attackers@[k].blockers_seq(),
        gm.cards@,
    )
}

/// What noting the blockers' toughness across the first `n` attackers
/// does.
pub open spec fn tough_fill_pass(g0: crate::game::Game, g1: crate::game::Game, n: nat) -> bool
    decreases n,
{
    if n == 0 {
        g1 == g0
    } else {
        exists|mid: crate::game::Game|
            #[trigger] crate::game::game_step_witness(mid) && tough_fill_pass(
                g0,
                mid,
                (n - 1) as nat,
            ) && tough_fill_link(mid, g1, n - 1)
    }
}

/// What opening the combat-damage step does; see
/// `combat_damage_step_start`.
pub open spec fn damage_step_started(g0: crate::game::Game, g1: crate::game::Game) -> bool {
        exists|mid1: crate::game::Game, mid2: crate::game::Game, mid3: crate::game::Game|
            {
                &&& #[trigger] crate::game::game_step_witness(mid1)
                &&& #[trigger] crate::game::game_step_witness(mid2)
                &&& #[trigger] crate::game::game_step_witness(mid3)
                &&& mid1 == (crate::game::Game { turn: mid1.turn, ..g0 })
                &&& mid1.turn == (Turn { step: Step::CombatDamage, ..g0.turn })
                &&& tough_fill_pass(mid1, mid2, g0.turn.combat.attackers@.len() as nat)
                &&& auto_assign_pass(
                    mid2,
                    mid3,
                    AttackType::FirstStrike,
                    mid2.turn.combat.attackers@.len() as nat,
                )
                &&& auto_assign_pass(
                    mid3,
                    g1,
                    AttackType::Regular,
                    mid3.turn.combat.attackers@.len() as nat,
                )
            }
}

/// Opens the combat-damage step: every blocker's current toughness is
/// noted, and each attacker's damage is distributed automatically across
/// its blockers, first for the first-strike pass and then for the regular
/// pass, leaving any remainder as spillable power.
pub fn combat_damage_step_start(game: &mut crate::game::Game)
    ensures
        damage_step_started(*old(game), *final(game)),
{
    game.turn.step = Step::CombatDamage;
    let ghost mid1 = *game;
    set_blockers_toughness(game);
    let ghost mid2 = *game;
    auto_assign_one_pass(game, AttackType::FirstStrike);
    let ghost mid3 = *game;
    auto_assign_one_pass(game, AttackType::Regular);
    proof {
        assert(crate::game::game_step_witness(mid1));
        assert(crate::game::game_step_witness(mid2));
        assert(crate::game::game_step_witness(mid3));
    }
}

/// Notes every declared blocker's current toughness in the combat
/// bookkeeping.
fn set_blockers_toughness(game: &mut crate::game::Game)
    ensures
        tough_fill_pass(*old(game), *final(game), old(game).turn.combat.attackers@.len() as nat),
{
    let n = game.turn.combat.attackers.len();
    let mut k: usize = 0;
    while k < n
        invariant
            0 <= k <= n,
            n == old(game).turn.combat.attackers@.len(),
            game.turn.combat.attackers@.len() == n,
            game.cards@ == old(game).cards@,
            tough_fill_pass(*old(game), *game, k as nat),
        decreases n - k,
    {
        let ghost gm = *game;
        let blockers = crate::storage::id_set_to_vec(&game.turn.combat.attackers[k].blockers);
        let ghost tough0 = game.turn.combat.toughness_seq();
        proof {
            assert(blockers@.subrange(0, blockers@.len() as int) =~= blockers@);
        }
        let mut j: usize = 0;
        while j < blockers.len()
            invariant
                0 <= j <= blockers@.len(),
                *game == (crate::game::Game { turn: game.turn, ..gm }),
                game.turn == (Turn { combat: game.turn.combat, ..gm.turn }),
                game.turn.combat.attackers@ == gm.turn.combat.attackers@,
                game.cards@ == gm.cards@,
                tough_filled(tough0, blockers@, gm.cards@) == tough_filled(
                    game.turn.combat.toughness_seq(),
                    blockers@.subrange(j as int, blockers@.len() as int),
                    gm.cards@,
                ),
                tough0 == gm.turn.combat.toughness_seq(),
            decreases blockers@.len() - j,
        {
            let b = blockers[j];
            let toughness = match game.get_card(b) {
                Some(card) => card.state.toughness.current,
                None => 0,
            };
            proof {
                assert(blockers@.subrange(j as int, blockers@.len() as int)[0]
                    == blockers@[j as int]);
                assert(blockers@.subrange(j as int, blockers@.len() as int).drop_first()
                    =~= blockers@.subrange(j + 1, blockers@.len() as int));
            }
            crate::storage::damage_map_insert(&mut game.turn.combat.blockers_toughness, b, toughness);
            j = j + 1;
        }
        proof {
            assert(blockers@.subrange(blockers@.len() as int, blockers@.len() as int).len() == 0);
            assert(tough_fill_link(gm, *game, k as int));
            assert(crate::game::game_step_witness(gm));
            assert(tough_fill_pass(*old(game), *game, (k + 1) as nat));
        }
        k = k + 1;
    }
}

/// Distributes each attacker's full power for the pass `ty` across its
/// blockers, front to back, up to each blocker's unassigned toughness.
fn auto_assign_one_pass(game: &mut crate::game::Game, ty: AttackType)
    ensures
        auto_assign_pass(*old(game), *final(game), ty, old(game).turn.combat.attackers@.len() as nat),
{
    let n = game.turn.combat.attackers.len();
    let mut k: usize = 0;
    while k < n
        invariant
            0 <= k <= n,
            n == old(game).turn.combat.attackers@.len(),
            game.turn.combat.attackers@.len() == n,
            auto_assign_pass(*old(game), *game, ty, k as nat),
        decreases n - k,
    {
        let ghost gm = *game;
        let has_record = match ty {
            AttackType::FirstStrike => game.turn.combat.attackers[k].first_strike.is_some(),
            AttackType::Regular => game.turn.combat.attackers[k].regular.is_some(),
        };
        if has_record {
            let blockers = crate::storage::id_set_to_vec(&game.turn.combat.attackers[k].blockers);
            let power_default = match ty {
                AttackType::FirstStrike => match &game.turn.combat.attackers[k].first_strike {
                    Some(att) => att.power.default,
                    None => 0,
                },
                AttackType::Regular => match &game.turn.combat.attackers[k].regular {
                    Some(att) => att.power.default,
                    None => 0,
                },
            };
            let mut damage_left = power_default;
            let ghost att0 = gm.turn.combat.attackers@[k as int].attack_of(ty)->0;
            let ghost tough0 = gm.turn.combat.toughness_seq();
            let ghost assigns0 = att0.assignments_seq();
            let ghost whole = greedy_assign(blockers@, tough0, assigns0, att0.power.default);
            set_attack_power(game, k, ty, damage_left);
            proof {
                assert(blockers@.subrange(0, blockers@.len() as int) =~= blockers@);
            }
            let mut j: usize = 0;
            let ghost mut cur_assigns = assigns0;
            while j < blockers.len() && damage_left > 0
                invariant
                    0 <= j <= blockers@.len(),
                    k < gm.turn.combat.attackers@.len(),
                    gm.turn.combat.attackers@[k as int].attack_of(ty) is Some,
                    att0 == gm.turn.combat.attackers@[k as int].attack_of(ty)->0,
                    *game == (crate::game::Game { turn: game.turn, ..gm }),
                    game.turn == (Turn { combat: game.turn.combat, ..gm.turn }),
                    game.turn.combat.attackers@.len() == gm.turn.combat.attackers@.len(),
                    forall|i: int|
                        0 <= i < gm.turn.combat.attackers@.len() && i != k ==> game.turn.combat.attackers@[i]
                            == (#[trigger] gm.turn.combat.attackers@[i]),
                    attack_record_replaced(
                        gm.turn.combat.attackers@[k as int],
                        game.turn.combat.attackers@[k as int],
                        ty,
                        Value { current: damage_left, default: att0.power.default },
                        cur_assigns,
                    ),
                    whole == greedy_assign(
                        blockers@.subrange(j as int, blockers@.len() as int),
                        game.turn.combat.toughness_seq(),
                        cur_assigns,
                        damage_left,
                    ),
                decreases blockers@.len() - j,
            {
                let b = blockers[j];
                let ghost tough_pre = game.turn.combat.toughness_seq();
                let ghost assigns_pre = cur_assigns;
                let ghost left_pre = damage_left;
                let toughness = match crate::storage::damage_map_get(
                    &game.turn.combat.blockers_toughness,
                    b,
                ) {
                    Some(t) => t,
                    None => 0,
                };
                let avail: i16 = if toughness > 0 {
                    toughness
                } else {
                    0
                };
                let damage: i16 = if avail < damage_left {
                    avail
                } else {
                    damage_left
                };
                proof {
                    assert(blockers@.subrange(j as int, blockers@.len() as int)[0]
                        == blockers@[j as int]);
                    assert(blockers@.subrange(j as int, blockers@.len() as int).drop_first()
                        =~= blockers@.subrange(j + 1, blockers@.len() as int));
                }
                crate::storage::damage_map_insert(
                    &mut game.turn.combat.blockers_toughness,
                    b,
                    toughness - damage,
                );
                set_attack_assignment(game, k, ty, b, damage, damage_left - damage);
                proof {
                    cur_assigns = crate::storage::key_store(cur_assigns, b, damage);
                    if !crate::storage::has_key(tough_pre, b) {
                        crate::storage::lemma_key_value_or_absent(tough_pre, b, 0);
                    }
                    assert(toughness == crate::storage::key_value_or(tough_pre, b, 0));
                    assert(greedy_assign(
                        blockers@.subrange(j as int, blockers@.len() as int),
                        tough_pre,
                        assigns_pre,
                        left_pre,
                    ) == greedy_assign(
                        blockers@.subrange(j + 1, blockers@.len() as int),
                        crate::storage::key_store(tough_pre, b, (toughness - damage) as i16),
                        crate::storage::key_store(assigns_pre, b, damage),
                        (left_pre - damage) as i16,
                    ));
                    assert(game.turn.combat.toughness_seq() == crate::storage::key_store(
                        tough_pre,
                        b,
                        (toughness - damage) as i16,
                    ));
                    assert(cur_assigns == crate::storage::key_store(assigns_pre, b, damage));
                }
                damage_left = damage_left - damage;
                j = j + 1;
            }
            proof {
                if j < blockers@.len() {
                    assert(damage_left <= 0);
                } else {
                    assert(blockers@.subrange(blockers@.len() as int, blockers@.len() as int).len()
                        == 0);
                }
                assert(auto_assign_link(gm, *game, ty, k as int));
                assert(crate::game::game_step_witness(gm));
                assert(auto_assign_pass(*old(game), *game, ty, (k + 1) as nat));
            }
        } else {
            proof {
                assert(auto_assign_link(gm, *game, ty, k as int));
                assert(crate::game::game_step_witness(gm));
                assert(auto_assign_pass(*old(game), *game, ty, (k + 1) as nat));
            }
        }
        k = k + 1;
    }
}

/// Stores the remaining spillable power in the attacker's pass record.
fn set_attack_power(game: &mut crate::game::Game, k: usize, ty: AttackType, left: i16)
    requires
        k < old(game).turn.combat.attackers@.len(),
        old(game).turn.combat.attackers@[k as int].attack_of(ty) is Some,
    ensures
        *final(game) == (crate::game::Game { turn: final(game).turn, ..*old(game) }),
        final(game).turn == (Turn { combat: final(game).turn.combat, ..old(game).turn }),
        final(game).turn.combat.blockers_toughness == old(game).turn.combat.blockers_toughness,
        final(game).turn.combat.attackers@.len() == old(game).turn.combat.attackers@.len(),
        forall|i: int|
            0 <= i < old(game).turn.combat.attackers@.len() && i != k ==> final(game).turn.combat.attackers@[i] == (#[trigger] old(game).turn.combat.attackers@[i]),
        attack_record_replaced(
            old(game).turn.combat.attackers@[k as int],
            final(game).turn.combat.attackers@[k as int],
            ty,
            Value {
                current: left,
                default: old(game).turn.combat.attackers@[k as int].attack_of(ty)->0.power.default,
            },
            old(game).turn.combat.attackers@[k as int].attack_of(ty)->0.assignments_seq(),
        ),
{
    let attacker = &mut game.turn.combat.attackers[k];
    match ty {
        AttackType::FirstStrike => {
            match &mut attacker.first_strike {
                Some(att) => {
                    att.power.current = left;
                },
                None => {
                    proof {
                        assert(false);
                    }
                },
            }
        },
        AttackType::Regular => {
            match &mut attacker.regular {
                Some(att) => {
                    att.power.current = left;
                },
                None => {
                    proof {
                        assert(false);
                    }
                },
            }
        },
    }
    proof {
        assert(game.turn.combat.attackers@ =~= old(game).turn.combat.attackers@.update(
            k as int,
            game.turn.combat.attackers@[k as int],
        ));
    }
}

/// Stores one damage assignment and the remaining spillable power in the
/// attacker's pass record.
fn set_attack_assignment(
    game: &mut crate::game::Game,
    k: usize,
    ty: AttackType,
    blocker: ObjectId,
    damage: i16,
    left: i16,
)
    requires
        k < old(game).turn.combat.attackers@.len(),
        old(game).turn.combat.attackers@[k as int].attack_of(ty) is Some,
    ensures
        *final(game) == (crate::game::Game { turn: final(game).turn, ..*old(game) }),
        final(game).turn == (Turn { combat: final(game).turn.combat, ..old(game).turn }),
        final(game).turn.combat.blockers_toughness == old(game).turn.combat.blockers_toughness,
        final(game).turn.combat.attackers@.len() == old(game).turn.combat.attackers@.len(),
        forall|i: int|
            0 <= i < old(game).turn.combat.attackers@.len() && i != k ==> final(game).turn.combat.attackers@[i] == (#[trigger] old(game).turn.combat.attackers@[i]),
        attack_record_replaced(
            old(game).turn.combat.attackers@[k as int],
            final(game).turn.combat.attackers@[k as int],
            ty,
            Value {
                current: left,
                default: old(game).turn.combat.attackers@[k as int].attack_of(ty)->0.power.default,
            },
            crate::storage::key_store(
                old(game).turn.combat.attackers@[k as int].attack_of(ty)->0.assignments_seq(),
                blocker,
                damage,
            ),
        ),
{
    let attacker = &mut game.turn.combat.attackers[k];
    match ty {
        AttackType::FirstStrike => {
            match &mut attacker.first_strike {
                Some(att) => {
                    crate::storage::damage_map_insert(&mut att.assignments, blocker, damage);
                    att.power.current = left;
                },
                None => {
                    proof {
                        assert(false);
                    }
                },
            }
        },
        AttackType::Regular => {
            match &mut attacker.regular {
                Some(att) => {
                    crate::storage::damage_map_insert(&mut att.assignments, blocker, damage);
                    att.power.current = left;
                },
                None => {
                    proof {
                        assert(false);
                    }
                },
            }
        },
    }
    proof {
        assert(game.turn.combat.attackers@ =~= old(game).turn.combat.attackers@.update(
            k as int,
            game.turn.combat.attackers@[k as int],
        ));
    }
}


/// The total damage recorded in a list of assignments.
pub open spec fn sum_assigned(s: Seq<(usize, i16)>) -> int
    decreases s.len(),
{
    if s.len() == 0 {
        0
    } else {
        sum_assigned(s.drop_last()) + s.last().1
    }
}

/// The unassigned toughness still booked for the keys of `assigns`.
pub open spec fn sum_unassigned(assigns: Seq<(usize, i16)>, tough: Seq<(usize, i16)>) -> int
    decreases assigns.len(),
{
    if assigns.len() == 0 {
        0
    } else {
        sum_unassigned(assigns.drop_last(), tough) + crate::storage::key_value_or(
            tough,
            assigns.last().0,
            0,
        )
    }
}

/// Whether one pass record carries enough assigned damage: at least the
/// smaller of its listed blockers' unassigned toughness and the
/// attacker's full power for the pass.
pub open spec fn attack_assigned_enough(att: Attack, tough: Seq<(usize, i16)>) -> bool {
    let total = sum_assigned(att.assignments_seq());
    let cap = sum_unassigned(att.assignments_seq(), tough);
    let need = if cap < att.power.default {
        cap
    } else {
        att.power.default as int
    };
    total >= need
}

/// Whether every declared attacker has assigned enough damage in both
/// passes for the damage step to resolve.
pub open spec fn combat_assigned_spec(g: crate::game::Game) -> bool {
    forall|k: int|
        0 <= k < g.turn.combat.attackers@.len() ==> {
            let a = #[trigger] g.turn.combat.attackers@[k];
            &&& (a.first_strike matches Some(att) ==> attack_assigned_enough(
                att,
                g.turn.combat.toughness_seq(),
            ))
            &&& (a.regular matches Some(att) ==> attack_assigned_enough(
                att,
                g.turn.combat.toughness_seq(),
            ))
        }
}

/// Sums the assigned damage of one record's assignment list.
fn sum_assignments_of(entries: &Vec<(usize, i16)>) -> (r: i128)
    ensures
        r == sum_assigned(entries@),
{
    let mut total: i128 = 0;
    let mut i: usize = 0;
    while i < entries.len()
        invariant
            0 <= i <= entries@.len(),
            total == sum_assigned(entries@.subrange(0, i as int)),
            -32768 * i <= total <= 32767 * i,
        decreases entries@.len() - i,
    {
        proof {
            assert(entries@.subrange(0, i + 1).drop_last() =~= entries@.subrange(0, i as int));
        }
        total = total + entries[i].1 as i128;
        i = i + 1;
    }
    proof {
        assert(entries@.subrange(0, entries@.len() as int) =~= entries@);
    }
    total
}

/// Sums the unassigned toughness booked for the keys of one record's
/// assignment list.
fn sum_unassigned_of(entries: &Vec<(usize, i16)>, tough: &indexmap::IndexMap<usize, i16>) -> (r:
    i128)
    ensures
        r == sum_unassigned(entries@, crate::storage::damage_entries(*tough)),
{
    let mut total: i128 = 0;
    let mut i: usize = 0;
    while i < entries.len()
        invariant
            0 <= i <= entries@.len(),
            total == sum_unassigned(
                entries@.subrange(0, i as int),
                crate::storage::damage_entries(*tough),
            ),
            -32768 * i <= total <= 32767 * i,
        decreases entries@.len() - i,
    {
        proof {
            assert(entries@.subrange(0, i + 1).drop_last() =~= entries@.subrange(0, i as int));
        }
        let t = match crate::storage::damage_map_get(tough, entries[i].0) {
            Some(t) => t,
            None => 0,
        };
        proof {
            if !crate::storage::has_key(crate::storage::damage_entries(*tough), entries@[i as int].0) {
                crate::storage::lemma_key_value_or_absent(
                    crate::storage::damage_entries(*tough),
                    entries@[i as int].0,
                    0,
                );
            }
        }
        total = total + t as i128;
        i = i + 1;
    }
    proof {
        assert(entries@.subrange(0, entries@.len() as int) =~= entries@);
    }
    total
}

/// Whether one pass record of one attacker has assigned enough damage.
fn attack_assigned(att_entries: &Vec<(usize, i16)>, power_default: i16, tough: &indexmap::IndexMap<
    usize,
    i16,
>) -> (r: bool)
    ensures
        r == ({
            let total = sum_assigned(att_entries@);
            let cap = sum_unassigned(att_entries@, crate::storage::damage_entries(*tough));
            let need = if cap < power_default {
                cap
            } else {
                power_default as int
            };
            total >= need
        }),
{
    let total = sum_assignments_of(att_entries);
    let cap = sum_unassigned_of(att_entries, tough);
    let need: i128 = if cap < power_default as i128 {
        cap
    } else {
        power_default as i128
    };
    total >= need
}

/// The closing gate of the damage step: whether every attacker has
/// assigned damage at least up to the smaller of its blockers' unassigned
/// toughness and its own power, in both passes.
pub fn is_combat_damage_assigned(game: &crate::game::Game) -> (r: bool)
    ensures
        r == combat_assigned_spec(*game),
{
    let n = game.turn.combat.attackers.len();
    let mut k: usize = 0;
    while k < n
        invariant
            0 <= k <= n,
            n == game.turn.combat.attackers@.len(),
            forall|j: int|
                0 <= j < k ==> {
                    let a = #[trigger] game.turn.combat.attackers@[j];
                    &&& (a.first_strike matches Some(att) ==> attack_assigned_enough(
                        att,
                        game.turn.combat.toughness_seq(),
                    ))
                    &&& (a.regular matches Some(att) ==> attack_assigned_enough(
                        att,
                        game.turn.combat.toughness_seq(),
                    ))
                },
        decreases n - k,
    {
        match &game.turn.combat.attackers[k].first_strike {
            Some(att) => {
                let entries = crate::storage::damage_map_to_vec(&att.assignments);
                if !attack_assigned(&entries, att.power.default, &game.turn.combat.blockers_toughness) {
                    return false;
                }
            },
            None => {},
        }
        match &game.turn.combat.attackers[k].regular {
            Some(att) => {
                let entries = crate::storage::damage_map_to_vec(&att.assignments);
                if !attack_assigned(&entries, att.power.default, &game.turn.combat.blockers_toughness) {
                    return false;
                }
            },
            None => {},
        }
        k = k + 1;
    }
    true
}

/// What a legal manual reassignment does to the pass record and the
/// toughness bookkeeping: the blocker's assignment becomes `damage`, the
/// attacker's spillable power and the blocker's unassigned toughness are
/// adjusted by the difference.
pub open spec fn assignment_adjusted(
    g0: crate::game::Game,
    g1: crate::game::Game,
    attacker_id: ObjectId,
    blocker_id: ObjectId,
    ty: AttackType,
    damage: i16,
) -> bool {
    let ai = g0.turn.combat.attacker_index(attacker_id);
    let a = g0.turn.combat.attackers@[ai];
    let att = a.attack_of(ty)->0;
    let tough = g0.turn.combat.toughness_seq();
    let t = crate::storage::key_value_or(tough, blocker_id, 0);
    let current = crate::storage::key_value_or(att.assignments_seq(), blocker_id, 0);
    let diff = current - damage;
    &&& g1 == (crate::game::Game { turn: g1.turn, ..g0 })
    &&& g1.turn == (Turn { combat: g1.turn.combat, ..g0.turn })
    &&& g1.turn.combat.toughness_seq() == crate::storage::key_store(
        tough,
        blocker_id,
        (t + diff) as i16,
    )
    &&& g1.turn.combat.attackers@.len() == g0.turn.combat.attackers@.len()
    &&& (forall|j: int|
        0 <= j < g0.turn.combat.attackers@.len() && j != ai ==> g1.turn.combat.attackers@[j] == (
        #[trigger] g0.turn.combat.attackers@[j]))
    &&& attack_record_replaced(
        a,
        g1.turn.combat.attackers@[ai],
        ty,
        Value { current: (att.power.current + diff) as i16, default: att.power.default },
        crate::storage::key_store(att.assignments_seq(), blocker_id, damage),
    )
}

/// Whether a manual reassignment is accepted: the amount is not negative,
/// does not exceed the blocker's unassigned toughness, does not commit
/// more damage than the attacker's remaining power for the pass, the
/// attacker and its pass record exist, and the adjusted amounts stay
/// storable.
pub open spec fn assignment_accepted(
    g: crate::game::Game,
    attacker_id: ObjectId,
    blocker_id: ObjectId,
    ty: AttackType,
    damage: i16,
) -> bool {
    let ai = g.turn.combat.attacker_index(attacker_id);
    let tough = g.turn.combat.toughness_seq();
    let t = crate::storage::key_value_or(tough, blocker_id, 0);
    &&& damage >= 0
    &&& damage <= t
    &&& ai != -1
    &&& {
        let a = g.turn.combat.attackers@[ai];
        &&& a.attack_of(ty) is Some
        &&& {
            let att = a.attack_of(ty)->0;
            let current = crate::storage::key_value_or(att.assignments_seq(), blocker_id, 0);
            let diff = current - damage;
            &&& (diff < 0 ==> att.power.current >= -diff)
            &&& -32768 <= att.power.current + diff <= 32767
            &&& -32768 <= t + diff <= 32767
        }
    }
}

/// Reassigns the combat damage one attacker deals to one blocker in the
/// given pass.  A legal amount replaces the recorded assignment and
/// adjusts the attacker's remaining power and the blocker's unassigned
/// toughness by the difference; an illegal one is rejected and changes
/// nothing.
pub fn assign_combat_damage(
    game: &mut crate::game::Game,
    attacker_id: ObjectId,
    blocker_id: ObjectId,
    attack_type: AttackType,
    damage: i16,
) -> (r: bool)
    ensures
        r == assignment_accepted(*old(game), attacker_id, blocker_id, attack_type, damage),
        !r ==> *final(game) == *old(game),
        r ==> assignment_adjusted(
            *old(game),
            *final(game),
            attacker_id,
            blocker_id,
            attack_type,
            damage,
        ),
{
    if damage < 0 {
        return false;
    }
    let toughness = match crate::storage::damage_map_get(
        &game.turn.combat.blockers_toughness,
        blocker_id,
    ) {
        Some(t) => t,
        None => 0,
    };
    proof {
        if !crate::storage::has_key(game.turn.combat.toughness_seq(), blocker_id) {
            crate::storage::lemma_key_value_or_absent(
                game.turn.combat.toughness_seq(),
                blocker_id,
                0,
            );
        }
    }
    if damage > toughness {
        return false;
    }
    let apos = attacker_pos(&game.turn.combat, attacker_id);
    proof {
        lemma_find_attacker(game.turn.combat.attackers@, attacker_id);
        assert(game.turn.combat.attackers.len() == game.turn.combat.attackers@.len());
    }
    let ai = match apos {
        Some(ai) => ai,
        None => {
            return false;
        },
    };
    let (current, power_current, power_default) = {
        let record = match attack_type {
            AttackType::FirstStrike => &game.turn.combat.attackers[ai].first_strike,
            AttackType::Regular => &game.turn.combat.attackers[ai].regular,
        };
        match record {
            Some(att) => {
                let cur = match crate::storage::damage_map_get(&att.assignments, blocker_id) {
                    Some(c) => c,
                    None => 0,
                };
                proof {
                    if !crate::storage::has_key(att.assignments_seq(), blocker_id) {
                        crate::storage::lemma_key_value_or_absent(
                            att.assignments_seq(),
                            blocker_id,
                            0,
                        );
                    }
                }
                (cur, att.power.current, att.power.default)
            },
            None => {
                return false;
            },
        }
    };
    let diff32: i32 = current as i32 - damage as i32;
    if diff32 < 0 && (power_current as i32) < -diff32 {
        return false;
    }
    let new_power32: i32 = power_current as i32 + diff32;
    let new_tough32: i32 = toughness as i32 + diff32;
    if new_power32 < -32768 || new_power32 > 32767 || new_tough32 < -32768 || new_tough32 > 32767 {
        return false;
    }
    crate::storage::damage_map_insert(
        &mut game.turn.combat.blockers_toughness,
        blocker_id,
        new_tough32 as i16,
    );
    set_attack_assignment(game, ai, attack_type, blocker_id, damage, new_power32 as i16);
    true
}

/// `x` stored as a toughness amount, stopped at the storable bounds.
pub open spec fn clamp_i16(x: int) -> i16 {
    if x < -32768 {
        (-32768) as i16
    } else if x > 32767 {
        32767i16
    } else {
        x as i16
    }
}

/// The toughness entries after handing each listed assignment back to its
/// blocker.
pub open spec fn tough_restored(
    tough: Seq<(usize, i16)>,
    assigns: Seq<(usize, i16)>,
) -> Seq<(usize, i16)>
    decreases assigns.len(),
{
    if assigns.len() == 0 {
        tough
    } else {
        let b = assigns[0].0;
        let d = assigns[0].1;
        let t = crate::storage::key_value_or(tough, b, 0);
        tough_restored(
            crate::storage::key_store(tough, b, clamp_i16(t + d)),
            assigns.drop_first(),
        )
    }
}

/// What clearing one pass record does: its power is restored to the
/// baseline, its assigned damage is handed back to the blockers'
/// unassigned toughness, and the assignment list empties.
pub open spec fn record_reset(
    g0: crate::game::Game,
    g1: crate::game::Game,
    attacker_id: ObjectId,
    ty: AttackType,
) -> bool {
    let ai = g0.turn.combat.attacker_index(attacker_id);
    let a = g0.turn.combat.attackers@[ai];
    match a.attack_of(ty) {
        None => g1 == g0,
        Some(att) => {
            &&& g1 == (crate::game::Game { turn: g1.turn, ..g0 })
            &&& g1.turn == (Turn { combat: g1.turn.combat, ..g0.turn })
            &&& g1.turn.combat.toughness_seq() == tough_restored(
                g0.turn.combat.toughness_seq(),
                att.assignments_seq(),
            )
            &&& g1.turn.combat.attackers@.len() == g0.turn.combat.attackers@.len()
            &&& (forall|j: int|
                0 <= j < g0.turn.combat.attackers@.len() && j != ai
                    ==> g1.turn.combat.attackers@[j] == (#[trigger] g0.turn.combat.attackers@[j]))
            &&& attack_record_replaced(
                a,
                g1.turn.combat.attackers@[ai],
                ty,
                att.power.reset_spec(),
                Seq::<(usize, i16)>::empty(),
            )
        },
    }
}

/// Clears the manual and automatic damage assignments of the attacker:
/// both pass records return to their full power, and the assigned damage
/// is handed back to the blockers' unassigned toughness.
pub fn reset_combat_assignments(game: &mut crate::game::Game, attacker_id: ObjectId)
    ensures
        old(game).turn.combat.attacker_index(attacker_id) == -1 ==> *final(game) == *old(game),
        old(game).turn.combat.attacker_index(attacker_id) != -1 ==> exists|
            mid: crate::game::Game,
        |
            #[trigger] crate::game::game_step_witness(mid) && record_reset(
                *old(game),
                mid,
                attacker_id,
                AttackType::FirstStrike,
            ) && record_reset(mid, *final(game), attacker_id, AttackType::Regular),
{
    let apos = attacker_pos(&game.turn.combat, attacker_id);
    proof {
        lemma_find_attacker(game.turn.combat.attackers@, attacker_id);
        assert(game.turn.combat.attackers.len() == game.turn.combat.attackers@.len());
    }
    match apos {
        Some(ai) => {
            reset_one_record(game, ai, attacker_id, AttackType::FirstStrike);
            let ghost mid = *game;
            proof {
                lemma_find_attacker(game.turn.combat.attackers@, attacker_id);
            }
            reset_one_record(game, ai, attacker_id, AttackType::Regular);
            proof {
                assert(crate::game::game_step_witness(mid));
            }
        },
        None => {},
    }
}

/// Clears one pass record of the attacker at `ai`.
fn reset_one_record(
    game: &mut crate::game::Game,
    ai: usize,
    attacker_id: ObjectId,
    ty: AttackType,
)
    requires
        old(game).turn.combat.attacker_index(attacker_id) == ai,
        ai < old(game).turn.combat.attackers@.len(),
    ensures
        record_reset(*old(game), *final(game), attacker_id, ty),
        final(game).turn.combat.attacker_index(attacker_id) == ai,
        ai < final(game).turn.combat.attackers@.len(),
{
    proof {
        lemma_find_attacker(game.turn.combat.attackers@, attacker_id);
        assert(game.turn.combat.attackers.len() == game.turn.combat.attackers@.len());
    }
    let has_record = match ty {
        AttackType::FirstStrike => game.turn.combat.attackers[ai].first_strike.is_some(),
        AttackType::Regular => game.turn.combat.attackers[ai].regular.is_some(),
    };
    if !has_record {
        return ;
    }
    let entries = {
        let record = match ty {
            AttackType::FirstStrike => &game.turn.combat.attackers[ai].first_strike,
            AttackType::Regular => &game.turn.combat.attackers[ai].regular,
        };
        match record {
            Some(att) => crate::storage::damage_map_to_vec(&att.assignments),
            None => Vec::new(),
        }
    };
    let ghost att0 = old(game).turn.combat.attackers@[ai as int].attack_of(ty)->0;
    let ghost tough0 = game.turn.combat.toughness_seq();
    proof {
        assert(entries@.subrange(0, entries@.len() as int) =~= entries@);
    }
    let mut i: usize = 0;
    while i < entries.len()
        invariant
            0 <= i <= entries@.len(),
            *game == (crate::game::Game { turn: game.turn, ..*old(game) }),
            game.turn == (Turn { combat: game.turn.combat, ..old(game).turn }),
            game.turn.combat.attackers@ == old(game).turn.combat.attackers@,
            tough_restored(tough0, entries@) == tough_restored(
                game.turn.combat.toughness_seq(),
                entries@.subrange(i as int, entries@.len() as int),
            ),
            tough0 == old(game).turn.combat.toughness_seq(),
        decreases entries@.len() - i,
    {
        let (b, d) = entries[i];
        let t = match crate::storage::damage_map_get(&game.turn.combat.blockers_toughness, b) {
            Some(t) => t,
            None => 0,
        };
        proof {
            if !crate::storage::has_key(game.turn.combat.toughness_seq(), b) {
                crate::storage::lemma_key_value_or_absent(game.turn.combat.toughness_seq(), b, 0);
            }
            assert(entries@.subrange(i as int, entries@.len() as int)[0] == entries@[i as int]);
            assert(entries@.subrange(i as int, entries@.len() as int).drop_first()
                =~= entries@.subrange(i + 1, entries@.len() as int));
        }
        let t32: i32 = t as i32 + d as i32;
        let t_new: i16 = if t32 < -32768 {
            -32768
        } else if t32 > 32767 {
            32767
        } else {
            t32 as i16
        };
        crate::storage::damage_map_insert(&mut game.turn.combat.blockers_toughness, b, t_new);
        i = i + 1;
    }
    proof {
        assert(entries@.subrange(entries@.len() as int, entries@.len() as int).len() == 0);
    }
    clear_attack_record(game, ai, ty);
    proof {
        lemma_find_attacker(old(game).turn.combat.attackers@, attacker_id);
        assert(game.turn.combat.attackers@ =~= old(game).turn.combat.attackers@.update(
            ai as int,
            game.turn.combat.attackers@[ai as int],
        ));
        lemma_find_attacker_update(
            old(game).turn.combat.attackers@,
            ai as int,
            game.turn.combat.attackers@[ai as int],
            attacker_id,
        );
    }
}

/// Restores one pass record's power and empties its assignment list.
fn clear_attack_record(game: &mut crate::game::Game, ai: usize, ty: AttackType)
    requires
        ai < old(game).turn.combat.attackers@.len(),
        old(game).turn.combat.attackers@[ai as int].attack_of(ty) is Some,
    ensures
        *final(game) == (crate::game::Game { turn: final(game).turn, ..*old(game) }),
        final(game).turn == (Turn { combat: final(game).turn.combat, ..old(game).turn }),
        final(game).turn.combat.blockers_toughness == old(game).turn.combat.blockers_toughness,
        final(game).turn.combat.attackers@.len() == old(game).turn.combat.attackers@.len(),
        forall|i: int|
            0 <= i < old(game).turn.combat.attackers@.len() && i != ai ==> final(game).turn.combat.attackers@[i] == (#[trigger] old(game).turn.combat.attackers@[i]),
        attack_record_replaced(
            old(game).turn.combat.attackers@[ai as int],
            final(game).turn.combat.attackers@[ai as int],
            ty,
            old(game).turn.combat.attackers@[ai as int].attack_of(ty)->0.power.reset_spec(),
            Seq::<(usize, i16)>::empty(),
        ),
        final(game).turn.combat.attackers@[ai as int].id == old(game).turn.combat.attackers@[
            ai as int
        ].id,
{
    let attacker = &mut game.turn.combat.attackers[ai];
    match ty {
        AttackType::FirstStrike => {
            match &mut attacker.first_strike {
                Some(att) => {
                    att.power.reset();
                    crate::storage::damage_map_clear(&mut att.assignments);
                },
                None => {
                    proof {
                        assert(false);
                    }
                },
            }
        },
        AttackType::Regular => {
            match &mut attacker.regular {
                Some(att) => {
                    att.power.reset();
                    crate::storage::damage_map_clear(&mut att.assignments);
                },
                None => {
                    proof {
                        assert(false);
                    }
                },
            }
        },
    }
    proof {
        assert(game.turn.combat.attackers@ =~= old(game).turn.combat.attackers@.update(
            ai as int,
            game.turn.combat.attackers@[ai as int],
        ));
    }
}


/// Marks a list of identifiers as the witness of a multi-step relation.
pub open spec fn ids_witness(s: Seq<usize>) -> bool {
    true
}

/// Whether a creature strikes in the given pass: first strikers and
/// double strikers in the first-strike pass, everything without First
/// Strike in the regular pass.
pub open spec fn in_pass(c: crate::card::Card, ty: AttackType) -> bool {
    match ty {
        AttackType::FirstStrike => strikes_first(c),
        AttackType::Regular => strikes_regular(c),
    }
}

/// Whether the registered creature takes part in the given damage pass:
/// it strikes in it, still sits on the battlefield, and is still alive.
pub open spec fn pass_participant(g: crate::game::Game, id: ObjectId, ty: AttackType) -> bool {
    let ci = g.card_index(id);
    &&& ci != -1
    &&& in_pass(g.cards@[ci], ty)
    &&& g.cards@[ci].kind == crate::card::CardType::Creature
    &&& g.cards@[ci].zone == crate::card::Zone::Battlefield
    &&& g.cards@[ci].state.toughness.current > 0
}

/// Whether the registered creature takes part in the given damage pass.
fn participant_now(game: &crate::game::Game, id: ObjectId, ty: AttackType) -> (r: bool)
    ensures
        r == pass_participant(*game, id, ty),
{
    match game.get_card(id) {
        Some(card) => {
            let strikes = match ty {
                AttackType::FirstStrike => card.static_abilities.contains(
                    &crate::abilities::StaticAbility::FirstStrike,
                ) || card.static_abilities.contains(
                    &crate::abilities::StaticAbility::DoubleStrike,
                ),
                AttackType::Regular => !card.static_abilities.contains(
                    &crate::abilities::StaticAbility::FirstStrike,
                ),
            };
            strikes && matches!(card.kind, crate::card::CardType::Creature) && matches!(
                card.zone,
                crate::card::Zone::Battlefield,
            ) && card.state.toughness.current > 0
        },
        None => false,
    }
}

/// The card with combat damage taken off its toughness.
pub open spec fn card_hit(c: crate::card::Card, d: i16) -> crate::card::Card {
    crate::card::Card {
        state: crate::card::CardState {
            toughness: Value {
                current: clamp_i16(c.state.toughness.current - d),
                ..c.state.toughness
            },
            ..c.state
        },
        ..c
    }
}

/// What one blocker's exchange with its attacker does to the registry and
/// to the deathtouch marks: a participating attacker deals its assigned
/// damage to the blocker, the blocker strikes back with its full power if
/// it participates, and any nonzero damage from a deathtouch source marks
/// its victim for destruction.
pub open spec fn blocker_round(
    cards: Seq<crate::card::Card>,
    marked: Seq<usize>,
    attacker_id: ObjectId,
    assigns: Seq<(usize, i16)>,
    atk_in: bool,
    atk_deathtouch: bool,
    blk_in: bool,
    blk_deathtouch: bool,
    b: usize,
) -> (Seq<crate::card::Card>, Seq<usize>) {
    let dealt = crate::storage::key_value_or(assigns, b, 0);
    let bi = crate::game::find_card(cards, b);
    let damage_taken: i16 = if bi != -1 {
        cards[bi].state.power.current
    } else {
        0i16
    };
    let cards1 = if bi != -1 && atk_in {
        cards.update(bi, card_hit(cards[bi], dealt))
    } else {
        cards
    };
    let marked1 = if bi != -1 && atk_in && atk_deathtouch && dealt > 0 {
        marked.push(b)
    } else {
        marked
    };
    let ai = crate::game::find_card(cards1, attacker_id);
    let cards2 = if ai != -1 && blk_in {
        cards1.update(ai, card_hit(cards1[ai], damage_taken))
    } else {
        cards1
    };
    let marked2 = if ai != -1 && blk_in && blk_deathtouch && damage_taken > 0 {
        marked1.push(attacker_id)
    } else {
        marked1
    };
    (cards2, marked2)
}

/// The registry and the deathtouch marks after every listed blocker's
/// exchange with the attacker, front to back.
pub open spec fn blockers_rounds(
    cards: Seq<crate::card::Card>,
    marked: Seq<usize>,
    g0: crate::game::Game,
    attacker_id: ObjectId,
    assigns: Seq<(usize, i16)>,
    atk_in: bool,
    bs: Seq<usize>,
    ty: AttackType,
) -> (Seq<crate::card::Card>, Seq<usize>)
    decreases bs.len(),
{
    if bs.len() == 0 {
        (cards, marked)
    } else {
        let b = bs[0];
        let step = blocker_round(
            cards,
            marked,
            attacker_id,
            assigns,
            atk_in,
            card_has_deathtouch(g0, attacker_id),
            pass_participant(g0, b, ty),
            card_has_deathtouch(g0, b),
            b,
        );
        blockers_rounds(step.0, step.1, g0, attacker_id, assigns, atk_in, bs.drop_first(), ty)
    }
}

/// Whether the registered card carries Deathtouch.
pub open spec fn card_has_deathtouch(g: crate::game::Game, id: ObjectId) -> bool {
    let ci = g.card_index(id);
    ci != -1 && g.cards@[ci].static_abilities.has(crate::abilities::StaticAbility::Deathtouch)
}

/// The amount an unblocked or trampling attacker spills on the defending
/// player: its remaining power, and nothing when that is negative.
pub open spec fn spill_amount(p: i16) -> u16 {
    if p > 0 {
        p as u16
    } else {
        0u16
    }
}

/// What the attacker at `k` does in the pass `ty`: its blocked flag is
/// set, its blockers exchange damage with it, and, unless it is blocked
/// without Trample, a participating attacker spills its remaining power
/// on the defending player.
pub open spec fn damage_link(
    gm: crate::game::Game,
    g1: crate::game::Game,
    g0: crate::game::Game,
    k: int,
    ty: AttackType,
    m0: Seq<usize>,
    m1: Seq<usize>,
) -> bool {
    let a = gm.turn.combat.attackers@[k];
    let trample = card_has_trample(gm, a.id);
    let blocked = !trample && a.blockers_seq().len() > 0;
    let atk_in = pass_participant(g0, a.id, ty);
    let assigns = match a.attack_of(ty) {
        Some(att) => att.assignments_seq(),
        None => Seq::<(usize, i16)>::empty(),
    };
    let rounds = blockers_rounds(
        gm.cards@,
        m0,
        g0,
        a.id,
        assigns,
        atk_in && a.attack_of(ty) is Some,
        a.blockers_seq(),
        ty,
    );
    exists|mid: crate::game::Game|
        {
            &&& #[trigger] crate::game::game_step_witness(mid)
            &&& mid == (crate::game::Game { turn: mid.turn, cards: mid.cards, ..gm })
            &&& mid.cards@ == rounds.0
            &&& m1 == rounds.1
            &&& mid.turn == (Turn { combat: mid.turn.combat, ..gm.turn })
            &&& mid.turn.combat.blockers_toughness == gm.turn.combat.blockers_toughness
            &&& mid.turn.combat.attackers@.len() == gm.turn.combat.attackers@.len()
            &&& (forall|j: int|
                0 <= j < gm.turn.combat.attackers@.len() && j != k ==> mid.turn.combat.attackers@[j]
                    == (#[trigger] gm.turn.combat.attackers@[j]))
            &&& mid.turn.combat.attackers@[k] == (Attacker { blocked, ..a })
            &&& if !blocked && atk_in && a.attack_of(ty) is Some {
                crate::abilities::player_damaged(
                    mid,
                    g1,
                    a.target,
                    spill_amount(a.attack_of(ty)->0.power.current),
                )
            } else {
                g1 == mid
            }
        }
}

/// Whether the registered card carries Trample.
pub open spec fn card_has_trample(g: crate::game::Game, id: ObjectId) -> bool {
    let ci = g.card_index(id);
    ci != -1 && g.cards@[ci].static_abilities.has(crate::abilities::StaticAbility::Trample)
}

/// What the pass `ty` does across the first `n` attackers, accumulating
/// the deathtouch marks in `m1`.
pub open spec fn damage_pass(
    g0: crate::game::Game,
    g1: crate::game::Game,
    ty: AttackType,
    n: nat,
    m1: Seq<usize>,
) -> bool
    decreases n,
{
    if n == 0 {
        g1 == g0 && m1 == Seq::<usize>::empty()
    } else {
        exists|mid: crate::game::Game, mm: Seq<usize>|
            {
                &&& #[trigger] crate::game::game_step_witness(mid)
                &&& #[trigger] ids_witness(mm)
                &&& damage_pass(g0, mid, ty, (n - 1) as nat, mm)
                &&& damage_link(mid, g1, g0, n - 1, ty, mm, m1)
            }
    }
}

/// Whether the combatant is due for destruction: dead (toughness at zero
/// or below) or marked by deathtouch damage.
pub open spec fn dead_or_marked(g: crate::game::Game, marked: Seq<usize>, id: ObjectId) -> bool {
    !crate::card::is_alive_spec(g, id) || marked.contains(id)
}

/// What the simultaneous destruction sweep does: each listed card moves
/// to the graveyard in turn.
pub open spec fn graveyard_sweep(
    g0: crate::game::Game,
    g1: crate::game::Game,
    ids: Seq<usize>,
) -> bool
    decreases ids.len(),
{
    if ids.len() == 0 {
        g1 == g0
    } else {
        exists|mid: crate::game::Game|
            {
                &&& #[trigger] crate::game::game_step_witness(mid)
                &&& graveyard_sweep(g0, mid, ids.drop_last())
                &&& if mid.card_index(ids.last()) == -1 {
                    g1 == mid
                } else {
                    crate::card::change_zone_post(mid, g1, ids.last(), crate::card::Zone::Graveyard)
                }
            }
    }
}

/// Whether `id` is a declared combatant of `g`: an attacker or a blocker.
pub open spec fn is_combatant(g: crate::game::Game, id: ObjectId) -> bool {
    g.turn.combat.attackers@.map_values(|a: Attacker| a.id).contains(id)
        || g.turn.combat.all_blockers().contains(id)
}

/// What running one combat-damage pass and its destruction does; see
/// `combat_damage_step_end`.
pub open spec fn damage_step_ended(
    g0: crate::game::Game,
    g1: crate::game::Game,
    ty: AttackType,
) -> bool {
    &&& (!combat_assigned_spec(g0) ==> g1 == g0)
    &&& (combat_assigned_spec(g0) ==> exists|
            mid: crate::game::Game,
            m: Seq<usize>,
            dead: Seq<usize>,
        |
            {
                &&& #[trigger] crate::game::game_step_witness(mid)
                &&& #[trigger] ids_witness(m)
                &&& #[trigger] ids_witness(dead)
                &&& damage_pass(
                    g0,
                    mid,
                    ty,
                    g0.turn.combat.attackers@.len() as nat,
                    m,
                )
                &&& (forall|x: usize|
                    dead.contains(x) ==> is_combatant(mid, x) && dead_or_marked(mid, m, x))
                &&& (forall|x: usize|
                    is_combatant(mid, x) && dead_or_marked(mid, m, x) ==> dead.contains(x))
                &&& graveyard_sweep(mid, g1, dead)
            })
}

/// Runs one ordered pass of combat damage and the destruction that
/// follows it.  Nothing happens until every attacker has assigned enough
/// damage.  Participants of the pass exchange damage simultaneously: each
/// blocker takes its assigned damage, each attacker takes the summed
/// power of its blockers, and an unblocked or trampling attacker spills
/// its remaining power on the defending player.  Afterwards every dead or
/// deathtouch-marked combatant moves to the graveyard in one batch.
pub fn combat_damage_step_end(game: &mut crate::game::Game, attack_type: AttackType)
    ensures
        damage_step_ended(*old(game), *final(game), attack_type),
{
    if !is_combat_damage_assigned(game) {
        return ;
    }
    let n = game.turn.combat.attackers.len();
    let ghost g0 = *game;
    let mut atk_flags: Vec<bool> = Vec::new();
    let mut blk_flags: Vec<Vec<bool>> = Vec::new();
    let mut p: usize = 0;
    while p < n
        invariant
            0 <= p <= n,
            n == g0.turn.combat.attackers@.len(),
            *game == g0,
            atk_flags@.len() == p,
            blk_flags@.len() == p,
            forall|j: int|
                0 <= j < p ==> atk_flags@[j] == pass_participant(
                    g0,
                    (#[trigger] g0.turn.combat.attackers@[j]).id,
                    attack_type,
                ),
            forall|j: int|
                0 <= j < p ==> (#[trigger] blk_flags@[j])@.len()
                    == g0.turn.combat.attackers@[j].blockers_seq().len(),
            forall|j: int, i: int|
                0 <= j < p && 0 <= i < g0.turn.combat.attackers@[j].blockers_seq().len()
                    ==> #[trigger] blk_flags@[j]@[i] == pass_participant(
                    g0,
                    g0.turn.combat.attackers@[j].blockers_seq()[i],
                    attack_type,
                ),
        decreases n - p,
    {
        let aid = game.turn.combat.attackers[p].id;
        atk_flags.push(participant_now(game, aid, attack_type));
        let bs = crate::storage::id_set_to_vec(&game.turn.combat.attackers[p].blockers);
        let mut row: Vec<bool> = Vec::new();
        let mut q: usize = 0;
        while q < bs.len()
            invariant
                0 <= q <= bs@.len(),
                *game == g0,
                0 <= p < n,
                n == g0.turn.combat.attackers@.len(),
                bs@ == g0.turn.combat.attackers@[p as int].blockers_seq(),
                row@.len() == q,
                forall|i: int|
                    0 <= i < q ==> row@[i] == pass_participant(g0, bs@[i], attack_type),
            decreases bs@.len() - q,
        {
            row.push(participant_now(game, bs[q], attack_type));
            q = q + 1;
        }
        blk_flags.push(row);
        p = p + 1;
    }
    let mut marked: Vec<usize> = Vec::new();
    let mut k: usize = 0;
    while k < n
        invariant
            0 <= k <= n,
            n == g0.turn.combat.attackers@.len(),
            g0 == *old(game),
            damage_pass(g0, *game, attack_type, k as nat, marked@),
            game.turn.combat.attackers@.len() == n,
            forall|j: int|
                k <= j < n ==> game.turn.combat.attackers@[j] == (
                #[trigger] g0.turn.combat.attackers@[j]),
            game.cards@.len() == g0.cards@.len(),
            forall|j: int|
                0 <= j < g0.cards@.len() ==> (#[trigger] game.cards@[j]).id == g0.cards@[j].id
                    && game.cards@[j].static_abilities == g0.cards@[j].static_abilities
                    && game.cards@[j].kind == g0.cards@[j].kind,
            atk_flags@.len() == n,
            blk_flags@.len() == n,
            forall|j: int|
                0 <= j < n ==> atk_flags@[j] == pass_participant(
                    g0,
                    (#[trigger] g0.turn.combat.attackers@[j]).id,
                    attack_type,
                ),
            forall|j: int|
                0 <= j < n ==> (#[trigger] blk_flags@[j])@.len()
                    == g0.turn.combat.attackers@[j].blockers_seq().len(),
            forall|j: int, i: int|
                0 <= j < n && 0 <= i < g0.turn.combat.attackers@[j].blockers_seq().len()
                    ==> #[trigger] blk_flags@[j]@[i] == pass_participant(
                    g0,
                    g0.turn.combat.attackers@[j].blockers_seq()[i],
                    attack_type,
                ),
        decreases n - k,
    {
        let ghost gm = *game;
        let ghost pre_m = marked@;
        strike_with_attacker(
            game,
            k,
            attack_type,
            Ghost(g0),
            &mut marked,
            atk_flags[k],
            &blk_flags[k],
        );
        proof {
            assert(crate::game::game_step_witness(gm));
            assert(ids_witness(pre_m));
        }
        k = k + 1;
    }
    let ghost mid = *game;
    let ghost m_final = marked@;
    let mut dead: Vec<usize> = Vec::new();
    let mut k2: usize = 0;
    while k2 < n
        invariant
            0 <= k2 <= n,
            n == game.turn.combat.attackers@.len(),
            *game == mid,
            m_final == marked@,
            forall|x: usize|
                dead@.contains(x) ==> is_combatant(mid, x) && dead_or_marked(mid, m_final, x),
            forall|j: int, x: usize|
                0 <= j < k2 && ((#[trigger] mid.turn.combat.attackers@[j]).id == x
                    || mid.turn.combat.attackers@[j].blockers_seq().contains(x))
                    && #[trigger] dead_or_marked(mid, m_final, x) ==> dead@.contains(x),
        decreases n - k2,
    {
        let attacker_id = game.turn.combat.attackers[k2].id;
        let atk_dead = !crate::card::is_alive(game, attacker_id) || ids_contains(
            &marked,
            attacker_id,
        );
        proof {
            assert(atk_dead == dead_or_marked(mid, m_final, attacker_id));
        }
        if atk_dead {
            proof {
                assert(mid.turn.combat.attackers@.map_values(|a: Attacker| a.id)[k2 as int]
                    == attacker_id);
                assert(is_combatant(mid, attacker_id));
                assert(dead_or_marked(mid, m_final, attacker_id));
            }
            let ghost pre_dead = dead@;
            dead.push(attacker_id);
            proof {
                assert(dead@[dead@.len() - 1] == attacker_id);
                assert(dead@.contains(attacker_id));
                assert forall|x: usize| dead@.contains(x) implies is_combatant(mid, x)
                    && dead_or_marked(mid, m_final, x) by {
                    let i = choose|i: int| 0 <= i < dead@.len() && dead@[i] == x;
                    if i < pre_dead.len() {
                        assert(pre_dead[i] == x);
                        assert(pre_dead.contains(x));
                    } else {
                        assert(x == attacker_id);
                    }
                }
                assert forall|x: usize| pre_dead.contains(x) implies dead@.contains(x) by {
                    let i = choose|i: int| 0 <= i < pre_dead.len() && pre_dead[i] == x;
                    assert(dead@[i] == x);
                }
            }
        }
        let blockers = crate::storage::id_set_to_vec(&game.turn.combat.attackers[k2].blockers);
        let mut j: usize = 0;
        while j < blockers.len()
            invariant
                0 <= j <= blockers@.len(),
                0 <= k2 < n,
                n == game.turn.combat.attackers@.len(),
                *game == mid,
                m_final == marked@,
                blockers@ == mid.turn.combat.attackers@[k2 as int].blockers_seq(),
                forall|x: usize|
                    dead@.contains(x) ==> is_combatant(mid, x) && dead_or_marked(mid, m_final, x),
                forall|jj: int, x: usize|
                    0 <= jj < k2 && ((#[trigger] mid.turn.combat.attackers@[jj]).id == x
                        || mid.turn.combat.attackers@[jj].blockers_seq().contains(x))
                        && #[trigger] dead_or_marked(mid, m_final, x) ==> dead@.contains(x),
                (mid.turn.combat.attackers@[k2 as int].id == attacker_id && (dead_or_marked(
                    mid,
                    m_final,
                    attacker_id,
                ) ==> dead@.contains(attacker_id))),
                forall|jj: int|
                    0 <= jj < j && dead_or_marked(mid, m_final, #[trigger] blockers@[jj])
                        ==> dead@.contains(blockers@[jj]),
            decreases blockers@.len() - j,
        {
            let b = blockers[j];
            let blk_dead = !crate::card::is_alive(game, b) || ids_contains(&marked, b);
            proof {
                assert(blk_dead == dead_or_marked(mid, m_final, b));
            }
            if blk_dead {
                proof {
                    lemma_blocker_is_combatant(mid, k2 as int, b);
                }
                let ghost pre_dead = dead@;
                dead.push(b);
                proof {
                    assert(dead@[dead@.len() - 1] == b);
                    assert(dead@.contains(b));
                    assert forall|x: usize| dead@.contains(x) implies is_combatant(mid, x)
                        && dead_or_marked(mid, m_final, x) by {
                        let i = choose|i: int| 0 <= i < dead@.len() && dead@[i] == x;
                        if i < pre_dead.len() {
                            assert(pre_dead[i] == x);
                            assert(pre_dead.contains(x));
                        } else {
                            assert(x == b);
                        }
                    }
                    assert forall|x: usize| pre_dead.contains(x) implies dead@.contains(x) by {
                        let i = choose|i: int| 0 <= i < pre_dead.len() && pre_dead[i] == x;
                        assert(dead@[i] == x);
                    }
                }
            }
            j = j + 1;
        }
        proof {
            assert forall|jj: int, x: usize|
                0 <= jj < k2 + 1 && ((#[trigger] mid.turn.combat.attackers@[jj]).id == x
                    || mid.turn.combat.attackers@[jj].blockers_seq().contains(x))
                    && #[trigger] dead_or_marked(mid, m_final, x) implies dead@.contains(x) by {
                if jj == k2 as int {
                    if mid.turn.combat.attackers@[jj].id == x {
                    } else {
                        let bs = mid.turn.combat.attackers@[k2 as int].blockers_seq();
                        let bj = choose|bj: int| 0 <= bj < bs.len() && bs[bj] == x;
                        assert(dead_or_marked(mid, m_final, bs[bj]));
                    }
                }
            }
        }
        k2 = k2 + 1;
    }
    let ghost dead_ids = dead@;
    let mut d: usize = 0;
    while d < dead.len()
        invariant
            0 <= d <= dead@.len(),
            dead_ids == dead@,
            graveyard_sweep(mid, *game, dead@.subrange(0, d as int)),
        decreases dead@.len() - d,
    {
        let ghost pre = *game;
        let card_id = dead[d];
        let cpos = game.card_pos(card_id);
        proof {
            crate::game::lemma_find_card(game.cards@, card_id);
        }
        crate::card::put_on_graveyard(game, card_id);
        proof {
            assert(dead@.subrange(0, d + 1).drop_last() =~= dead@.subrange(0, d as int));
            assert(dead@.subrange(0, d + 1).last() == dead@[d as int]);
            assert(crate::game::game_step_witness(pre));
        }
        d = d + 1;
    }
    proof {
        assert(dead@.subrange(0, dead@.len() as int) =~= dead@);
        assert(crate::game::game_step_witness(mid));
        assert(ids_witness(m_final));
        assert(ids_witness(dead_ids));
        assert forall|x: usize|
            is_combatant(mid, x) && dead_or_marked(mid, m_final, x) implies dead_ids.contains(
            x,
        ) by {
            if mid.turn.combat.attackers@.map_values(|a: Attacker| a.id).contains(x) {
                let ids = mid.turn.combat.attackers@.map_values(|a: Attacker| a.id);
                let jj = choose|jj: int| 0 <= jj < ids.len() && #[trigger] ids[jj] == x;
                assert(mid.turn.combat.attackers@[jj].id == x);
            } else {
                lemma_all_blockers_member(mid, x);
            }
        }
    }
}

/// The damage the attacker at `k` has assigned to the blocker `b` for
/// the pass `ty`; zero without a pass record or an assignment.
fn assigned_damage_of(game: &crate::game::Game, k: usize, ty: AttackType, b: usize) -> (r: i16)
    requires
        k < game.turn.combat.attackers@.len(),
    ensures
        r == crate::storage::key_value_or(
            match game.turn.combat.attackers@[k as int].attack_of(ty) {
                Some(att) => att.assignments_seq(),
                None => Seq::<(usize, i16)>::empty(),
            },
            b,
            0,
        ),
{
    let record = match ty {
        AttackType::FirstStrike => &game.turn.combat.attackers[k].first_strike,
        AttackType::Regular => &game.turn.combat.attackers[k].regular,
    };
    match record {
        Some(att) => {
            proof {
                if !crate::storage::has_key(att.assignments_seq(), b) {
                    crate::storage::lemma_key_value_or_absent(att.assignments_seq(), b, 0);
                }
            }
            match crate::storage::damage_map_get(&att.assignments, b) {
                Some(d) => d,
                None => 0,
            }
        },
        None => 0,
    }
}

/// Sets the blocked flag of the attacker at `k`.
fn set_attacker_blocked(game: &mut crate::game::Game, k: usize, blocked: bool)
    requires
        k < old(game).turn.combat.attackers@.len(),
    ensures
        *final(game) == (crate::game::Game { turn: final(game).turn, ..*old(game) }),
        final(game).turn == (Turn { combat: final(game).turn.combat, ..old(game).turn }),
        final(game).turn.combat.blockers_toughness == old(game).turn.combat.blockers_toughness,
        final(game).turn.combat.attackers@.len() == old(game).turn.combat.attackers@.len(),
        forall|i: int|
            0 <= i < old(game).turn.combat.attackers@.len() && i != k ==> final(game).turn.combat.attackers@[i] == (#[trigger] old(game).turn.combat.attackers@[i]),
        final(game).turn.combat.attackers@[k as int] == (Attacker {
            blocked,
            ..old(game).turn.combat.attackers@[k as int]
        }),
{
    let attacker = &mut game.turn.combat.attackers[k];
    attacker.blocked = blocked;
    proof {
        assert(game.turn.combat.attackers@ =~= old(game).turn.combat.attackers@.update(
            k as int,
            game.turn.combat.attackers@[k as int],
        ));
    }
}

/// Takes combat damage off the toughness of the card at `ci`.
fn hit_card_at(game: &mut crate::game::Game, ci: usize, d: i16)
    requires
        ci < old(game).cards@.len(),
    ensures
        *final(game) == (crate::game::Game { cards: final(game).cards, ..*old(game) }),
        final(game).cards@ == old(game).cards@.update(
            ci as int,
            card_hit(old(game).cards@[ci as int], d),
        ),
{
    let t32: i32 = game.cards[ci].state.toughness.current as i32 - d as i32;
    let t_new: i16 = if t32 < -32768 {
        -32768
    } else if t32 > 32767 {
        32767
    } else {
        t32 as i16
    };
    let card = &mut game.cards[ci];
    card.state.toughness.current = t_new;
}

/// Lets the attacker at `k` and its blockers exchange their damage for
/// the pass, and spills leftover damage on the defending player.
fn strike_with_attacker(
    game: &mut crate::game::Game,
    k: usize,
    ty: AttackType,
    Ghost(g0): Ghost<crate::game::Game>,
    marked: &mut Vec<usize>,
    atk_flag: bool,
    blk_flags: &Vec<bool>,
)
    requires
        k < old(game).turn.combat.attackers@.len(),
        old(game).cards@.len() == g0.cards@.len(),
        forall|j: int|
            0 <= j < g0.cards@.len() ==> (#[trigger] old(game).cards@[j]).id == g0.cards@[j].id
                && old(game).cards@[j].static_abilities == g0.cards@[j].static_abilities
                && old(game).cards@[j].kind == g0.cards@[j].kind,
        atk_flag == pass_participant(g0, old(game).turn.combat.attackers@[k as int].id, ty),
        blk_flags@.len() == old(game).turn.combat.attackers@[k as int].blockers_seq().len(),
        forall|i: int|
            0 <= i < blk_flags@.len() ==> blk_flags@[i] == pass_participant(
                g0,
                old(game).turn.combat.attackers@[k as int].blockers_seq()[i],
                ty,
            ),
    ensures
        damage_link(*old(game), *final(game), g0, k as int, ty, old(marked)@, final(marked)@),
        final(game).turn.combat.attackers@.len() == old(game).turn.combat.attackers@.len(),
        forall|j: int|
            0 <= j < old(game).turn.combat.attackers@.len() && j != k ==> final(game).turn.combat.attackers@[j] == (#[trigger] old(game).turn.combat.attackers@[j]),
        final(game).cards@.len() == old(game).cards@.len(),
        forall|j: int|
            0 <= j < old(game).cards@.len() ==> (#[trigger] final(game).cards@[j]).id == old(game).cards@[j].id && final(game).cards@[j].static_abilities == old(game).cards@[j].static_abilities && final(game).cards@[j].kind == old(game).cards@[j].kind,
{
    let attacker_id = game.turn.combat.attackers[k].id;
    let target = game.turn.combat.attackers[k].target;
    let trample = match game.get_card(attacker_id) {
        Some(card) => card.static_abilities.contains(&crate::abilities::StaticAbility::Trample),
        None => false,
    };
    let atk_deathtouch = match game.get_card(attacker_id) {
        Some(card) => card.static_abilities.contains(
            &crate::abilities::StaticAbility::Deathtouch,
        ),
        None => false,
    };
    proof {
        crate::game::lemma_find_card(game.cards@, attacker_id);
        crate::game::lemma_find_card(g0.cards@, attacker_id);
        crate::game::lemma_find_card_same_ids(game.cards@, g0.cards@, attacker_id);
        assert(game.cards.len() == game.cards@.len());
    }
    let blockers = crate::storage::id_set_to_vec(&game.turn.combat.attackers[k].blockers);
    let blocked = !trample && blockers.len() > 0;
    let has_record = match ty {
        AttackType::FirstStrike => game.turn.combat.attackers[k].first_strike.is_some(),
        AttackType::Regular => game.turn.combat.attackers[k].regular.is_some(),
    };
    let power_current = match ty {
        AttackType::FirstStrike => match &game.turn.combat.attackers[k].first_strike {
            Some(att) => att.power.current,
            None => 0,
        },
        AttackType::Regular => match &game.turn.combat.attackers[k].regular {
            Some(att) => att.power.current,
            None => 0,
        },
    };
    let atk_eff = atk_flag && has_record;
    proof {
        assert(atk_deathtouch == card_has_deathtouch(g0, attacker_id));
    }
    let ghost a0 = old(game).turn.combat.attackers@[k as int];
    let ghost assigns = match a0.attack_of(ty) {
        Some(att) => att.assignments_seq(),
        None => Seq::<(usize, i16)>::empty(),
    };
    set_attacker_blocked(game, k, blocked);
    let ghost cards_start = game.cards@;
    let ghost marked_start = marked@;
    proof {
        assert(blockers@.subrange(0, blockers@.len() as int) =~= blockers@);
    }
    let mut j: usize = 0;
    while j < blockers.len()
        invariant
            0 <= j <= blockers@.len(),
            k < old(game).turn.combat.attackers@.len(),
            blockers@ == a0.blockers_seq(),
            blk_flags@.len() == blockers@.len(),
            forall|i: int|
                0 <= i < blk_flags@.len() ==> blk_flags@[i] == pass_participant(
                    g0,
                    blockers@[i],
                    ty,
                ),
            a0 == old(game).turn.combat.attackers@[k as int],
            *game == (crate::game::Game { turn: game.turn, cards: game.cards, ..*old(game) }),
            game.turn == (Turn { combat: game.turn.combat, ..old(game).turn }),
            game.turn.combat.blockers_toughness == old(game).turn.combat.blockers_toughness,
            game.turn.combat.attackers@.len() == old(game).turn.combat.attackers@.len(),
            forall|i: int|
                0 <= i < old(game).turn.combat.attackers@.len() && i != k
                    ==> game.turn.combat.attackers@[i] == (#[trigger] old(game).turn.combat.attackers@[i]),
            game.turn.combat.attackers@[k as int] == (Attacker { blocked, ..a0 }),
            blockers_rounds(
                cards_start,
                marked_start,
                g0,
                attacker_id,
                assigns,
                atk_eff,
                blockers@,
                ty,
            ) == blockers_rounds(
                game.cards@,
                marked@,
                g0,
                attacker_id,
                assigns,
                atk_eff,
                blockers@.subrange(j as int, blockers@.len() as int),
                ty,
            ),
            attacker_id == a0.id,
            atk_deathtouch == card_has_deathtouch(g0, attacker_id),
            atk_eff == (pass_participant(g0, a0.id, ty) && a0.attack_of(ty) is Some),
            assigns == match a0.attack_of(ty) {
                Some(att) => att.assignments_seq(),
                None => Seq::<(usize, i16)>::empty(),
            },
            cards_start.len() == g0.cards@.len(),
            game.cards@.len() == g0.cards@.len(),
            forall|i: int|
                0 <= i < g0.cards@.len() ==> (#[trigger] game.cards@[i]).id == g0.cards@[i].id
                    && game.cards@[i].static_abilities == g0.cards@[i].static_abilities
                    && game.cards@[i].kind == g0.cards@[i].kind,
        decreases blockers@.len() - j,
    {
        let b = blockers[j];
        let ghost cards_pre = game.cards@;
        let ghost marked_pre = marked@;
        let dealt = assigned_damage_of(game, k, ty, b);
        proof {
            assert(game.turn.combat.attackers@[k as int] == (Attacker { blocked, ..a0 }));
            if !crate::storage::has_key(assigns, b) {
                crate::storage::lemma_key_value_or_absent(assigns, b, 0);
            }
            assert(dealt == crate::storage::key_value_or(assigns, b, 0));
        }
        let bpos = game.card_pos(b);
        proof {
            crate::game::lemma_find_card(game.cards@, b);
            crate::game::lemma_find_card(g0.cards@, b);
            crate::game::lemma_find_card_same_ids(game.cards@, g0.cards@, b);
            assert(game.cards.len() == game.cards@.len());
        }
        let blk_deathtouch = match bpos {
            Some(bi) => game.cards[bi].static_abilities.contains(
                &crate::abilities::StaticAbility::Deathtouch,
            ),
            None => false,
        };
        let damage_taken = match bpos {
            Some(bi) => game.cards[bi].state.power.current,
            None => 0,
        };
        match bpos {
            Some(bi) => {
                if atk_eff {
                    hit_card_at(game, bi, dealt);
                    if atk_deathtouch && dealt > 0 {
                        marked.push(b);
                    }
                }
            },
            None => {},
        }
        proof {
            crate::game::lemma_find_card_same_ids(game.cards@, g0.cards@, b);
            crate::game::lemma_find_card(g0.cards@, b);
        }
        let apos = game.card_pos(attacker_id);
        proof {
            crate::game::lemma_find_card(game.cards@, attacker_id);
            assert(game.cards.len() == game.cards@.len());
        }
        let blk_in = blk_flags[j];
        match apos {
            Some(ai) => {
                if blk_in {
                    hit_card_at(game, ai, damage_taken);
                    if blk_deathtouch && damage_taken > 0 {
                        marked.push(attacker_id);
                    }
                }
            },
            None => {},
        }
        proof {
            crate::game::lemma_find_card_same_ids(game.cards@, g0.cards@, attacker_id);
            crate::game::lemma_find_card(g0.cards@, b);
            crate::game::lemma_find_card(g0.cards@, attacker_id);
            assert(blockers@.subrange(j as int, blockers@.len() as int)[0] == blockers@[j as int]);
            assert(blockers@.subrange(j as int, blockers@.len() as int).drop_first()
                =~= blockers@.subrange(j + 1, blockers@.len() as int));
            assert(dealt == crate::storage::key_value_or(assigns, b, 0));
            assert(blk_deathtouch == card_has_deathtouch(g0, b));
            assert((game.cards@, marked@) == blocker_round(
                cards_pre,
                marked_pre,
                attacker_id,
                assigns,
                atk_eff,
                card_has_deathtouch(g0, attacker_id),
                pass_participant(g0, b, ty),
                card_has_deathtouch(g0, b),
                b,
            ));
        }
        j = j + 1;
    }
    proof {
        assert(blockers@.subrange(blockers@.len() as int, blockers@.len() as int).len() == 0);
    }
    let ghost mid = *game;
    if !blocked && atk_eff {
        deal_player_damage_for_combat(game, target, power_current);
    }
    proof {
        assert(crate::game::game_step_witness(mid));
    }
}

/// Spills an attacker's leftover power on the defending player; negative
/// leftovers deal nothing.
fn deal_player_damage_for_combat(game: &mut crate::game::Game, target: ObjectId, power: i16)
    ensures
        crate::abilities::player_damaged(*old(game), *final(game), target, spill_amount(power)),
{
    let amount: u16 = if power > 0 {
        power as u16
    } else {
        0
    };
    crate::abilities::deal_player_damage(game, target, amount);
}

/// A declared blocker is a combatant.
/// An element of one listed sequence is in the flattened whole.
proof fn lemma_flatten_elem(per: Seq<Seq<usize>>, k: int, x: usize)
    requires
        0 <= k < per.len(),
        per[k].contains(x),
    ensures
        per.flatten().contains(x),
    decreases per.len(),
{
    let i = choose|i: int| 0 <= i < per[k].len() && per[k][i] == x;
    if k == 0 {
        assert(per.flatten() == per[0] + per.drop_first().flatten());
        assert(per.flatten()[i] == x);
    } else {
        assert(per.drop_first()[k - 1] == per[k]);
        lemma_flatten_elem(per.drop_first(), k - 1, x);
        let i2 = choose|i2: int|
            0 <= i2 < per.drop_first().flatten().len() && per.drop_first().flatten()[i2] == x;
        assert(per.flatten() == per[0] + per.drop_first().flatten());
        assert(per.flatten()[per[0].len() + i2] == x);
    }
}

/// An element of the flattened whole is in one of the listed sequences.
proof fn lemma_flatten_member(per: Seq<Seq<usize>>, x: usize)
    requires
        per.flatten().contains(x),
    ensures
        exists|k: int| 0 <= k < per.len() && (#[trigger] per[k]).contains(x),
    decreases per.len(),
{
    assert(per.len() > 0);
    assert(per.flatten() == per[0] + per.drop_first().flatten());
    let i = choose|i: int| 0 <= i < per.flatten().len() && per.flatten()[i] == x;
    if i < per[0].len() {
        assert(per[0][i] == x);
        assert(per[0].contains(x));
    } else {
        assert(per.drop_first().flatten()[i - per[0].len()] == x);
        assert(per.drop_first().flatten().contains(x));
        lemma_flatten_member(per.drop_first(), x);
        let k = choose|k: int| 0 <= k < per.drop_first().len() && (#[trigger] per.drop_first()[k]).contains(x);
        assert(per[k + 1].contains(x));
    }
}

/// A declared blocker is a combatant.
proof fn lemma_blocker_is_combatant(g: crate::game::Game, k: int, b: usize)
    requires
        0 <= k < g.turn.combat.attackers@.len(),
        g.turn.combat.attackers@[k].blockers_seq().contains(b),
    ensures
        is_combatant(g, b),
{
    let per = g.turn.combat.attackers@.map_values(|a: Attacker| a.blockers_seq());
    assert(per[k] == g.turn.combat.attackers@[k].blockers_seq());
    lemma_flatten_elem(per, k, b);
}

/// An identifier listed among some attacker's blockers is in the
/// flattened blocker list.
proof fn lemma_all_blockers_member(g: crate::game::Game, x: usize)
    requires
        g.turn.combat.all_blockers().contains(x),
    ensures
        exists|k: int|
            0 <= k < g.turn.combat.attackers@.len() && (#[trigger] g.turn.combat.attackers@[
                k
            ]).blockers_seq().contains(x),
{
    let per = g.turn.combat.attackers@.map_values(|a: Attacker| a.blockers_seq());
    lemma_flatten_member(per, x);
    let k = choose|k: int| 0 <= k < per.len() && (#[trigger] per[k]).contains(x);
    assert(g.turn.combat.attackers@[k].blockers_seq().contains(x));
}

/// Whether the identifier is listed.
fn ids_contains(v: &Vec<usize>, id: usize) -> (r: bool)
    ensures
        r == v@.contains(id),
{
    let mut i: usize = 0;
    while i < v.len()
        invariant
            0 <= i <= v@.len(),
            forall|j: int| 0 <= j < i ==> v@[j] != id,
        decreases v@.len() - i,
    {
        if v[i] == id {
            return true;
        }
        i = i + 1;
    }
    false
}


/// What declaring blockers for the attacker in order does.
pub open spec fn blockers_declared(
    g0: crate::game::Game,
    g1: crate::game::Game,
    ids: Seq<usize>,
    attacker_id: ObjectId,
) -> bool
    decreases ids.len(),
{
    if ids.len() == 0 {
        g1 == g0
    } else {
        exists|mid: crate::game::Game|
            #[trigger] crate::game::game_step_witness(mid) && blockers_declared(
                g0,
                mid,
                ids.drop_last(),
                attacker_id,
            ) && blocker_declared(mid, g1, ids.last(), attacker_id)
    }
}

/// What `fast_declare_attacker` does in one call.
pub open spec fn fast_attack_rel(
    gstart: crate::game::Game,
    gend: crate::game::Game,
    attacker_id: ObjectId,
) -> bool {
        exists|g1: crate::game::Game, g2: crate::game::Game|
            {
                &&& #[trigger] crate::game::game_step_witness(g1)
                &&& #[trigger] crate::game::game_step_witness(g2)
                &&& g1 == (crate::game::Game { turn: g1.turn, ..gstart })
                &&& g1.turn == (Turn {
                    step: Step::DeclareAttackers,
                    priority: None,
                    ..gstart.turn
                })
                &&& attacker_declared(
                    g1,
                    g2,
                    attacker_id,
                    gstart.next_player_spec(gstart.turn.active_player),
                )
                &&& attackers_step_ended(g2, gend)
            }
}

/// What `fast_declare_blockers` does in one call.
pub open spec fn fast_block_rel(
    gstart: crate::game::Game,
    gend: crate::game::Game,
    ids: Seq<usize>,
    attacker_id: ObjectId,
) -> bool {
        exists|g1: crate::game::Game, g2: crate::game::Game|
            {
                &&& #[trigger] crate::game::game_step_witness(g1)
                &&& #[trigger] crate::game::game_step_witness(g2)
                &&& g1 == (crate::game::Game { turn: g1.turn, ..gstart })
                &&& g1.turn == (Turn {
                    step: Step::DeclareBlockers,
                    priority: None,
                    ..gstart.turn
                })
                &&& blockers_declared(g1, g2, ids, attacker_id)
                &&& blockers_step_ended(g2, gend)
            }
}

/// Declares the attacker against the next player in turn order and closes
/// the declaration step in one call.
pub fn fast_declare_attacker(game: &mut crate::game::Game, attacker_id: ObjectId)
    ensures
        fast_attack_rel(*old(game), *final(game), attacker_id),
{
    let opponent_id = game.get_next_player(game.turn.active_player);
    declare_attackers_step_start(game);
    let ghost g1 = *game;
    declare_attacker(game, attacker_id, opponent_id);
    let ghost g2 = *game;
    declare_attackers_step_end(game);
    proof {
        assert(crate::game::game_step_witness(g1));
        assert(crate::game::game_step_witness(g2));
    }
}

/// Declares the listed blockers for the attacker and closes the
/// declaration step in one call.
pub fn fast_declare_blockers(
    game: &mut crate::game::Game,
    blocker_ids: &Vec<ObjectId>,
    attacker_id: ObjectId,
)
    ensures
        fast_block_rel(*old(game), *final(game), blocker_ids@, attacker_id),
{
    declare_blockers_step_start(game);
    let ghost g1 = *game;
    let mut i: usize = 0;
    proof {
        assert(blocker_ids@.subrange(0, 0) =~= Seq::<usize>::empty());
    }
    while i < blocker_ids.len()
        invariant
            0 <= i <= blocker_ids@.len(),
            blockers_declared(g1, *game, blocker_ids@.subrange(0, i as int), attacker_id),
        decreases blocker_ids@.len() - i,
    {
        let ghost pre = *game;
        declare_blocker(game, blocker_ids[i], attacker_id);
        proof {
            assert(blocker_ids@.subrange(0, i + 1).drop_last() =~= blocker_ids@.subrange(
                0,
                i as int,
            ));
            assert(blocker_ids@.subrange(0, i + 1).last() == blocker_ids@[i as int]);
            assert(crate::game::game_step_witness(pre));
        }
        i = i + 1;
    }
    proof {
        assert(blocker_ids@.subrange(0, blocker_ids@.len() as int) =~= blocker_ids@);
    }
    let ghost g2 = *game;
    declare_blockers_step_end(game);
    proof {
        assert(crate::game::game_step_witness(g1));
        assert(crate::game::game_step_witness(g2));
    }
}

/// Declares the attacker and its blockers, assigns combat damage
/// automatically, and runs both damage passes in one call.
pub fn fast_combat(
    game: &mut crate::game::Game,
    attacker_id: ObjectId,
    blocker_ids: &Vec<ObjectId>,
)
    ensures
        exists|g1: crate::game::Game, g2: crate::game::Game, g3: crate::game::Game, g4: crate::game::Game|
            {
                &&& #[trigger] crate::game::game_step_witness(g1)
                &&& #[trigger] crate::game::game_step_witness(g2)
                &&& #[trigger] crate::game::game_step_witness(g3)
                &&& #[trigger] crate::game::game_step_witness(g4)
                &&& fast_attack_rel(*old(game), g1, attacker_id)
                &&& fast_block_rel(g1, g2, blocker_ids@, attacker_id)
                &&& damage_step_started(g2, g3)
                &&& damage_step_ended(g3, g4, AttackType::FirstStrike)
                &&& damage_step_ended(g4, *final(game), AttackType::Regular)
            },
{
    fast_declare_attacker(game, attacker_id);
    let ghost g1 = *game;
    fast_declare_blockers(game, blocker_ids, attacker_id);
    let ghost g2 = *game;
    combat_damage_step_start(game);
    let ghost g3 = *game;
    combat_damage_step_end(game, AttackType::FirstStrike);
    let ghost g4 = *game;
    combat_damage_step_end(game, AttackType::Regular);
    proof {
        assert(crate::game::game_step_witness(g1));
        assert(crate::game::game_step_witness(g2));
        assert(crate::game::game_step_witness(g3));
        assert(crate::game::game_step_witness(g4));
    }
}

} // verus!
