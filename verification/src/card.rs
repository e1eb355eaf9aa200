//! Cards: their kinds, zones, mutable state, and construction.

use vstd::prelude::*;

use crate::abilities::ActivatedAbility;
use crate::abilities::Cost;
use crate::abilities::PlayAbility;
use crate::abilities::StaticAbility;
use crate::abilities::TriggeredAbility;
use crate::game::Game;
use crate::game::GameStatus;
use crate::game::ObjectId;
use crate::game::Player;
use crate::game::Value;

verus! {

broadcast use vstd::std_specs::vec::group_vec_axioms, vstd::seq::group_seq_axioms;

/// Where a card currently sits.
#[derive(Clone, Copy, Debug, PartialEq, Eq, Structural)]
pub enum Zone {
    Nowhere,
    Battlefield,
    Graveyard,
    Library,
    Hand,
    Stack,
}

/// The kind of a card, deciding how it is played and where it goes when it
/// resolves.
#[derive(Clone, Copy, Debug, PartialEq, Eq, Structural)]
pub enum CardType {
    Land,
    Artifact,
    Enchantment,
    Creature,
    Instant,
    Sorcery,
}

/// A flavor subtype; the rules in this crate never read it.
#[derive(Clone, Copy, Debug, PartialEq, Eq, Structural)]
pub enum CardSubtype {
    Forest,
    Mountain,
    Swamp,
    Plains,
    Island,
    Spirit,
    Dragon,
    Bird,
    Human,
    Spider,
}

/// The keyword abilities of one card, each listed at most once, in
/// insertion order.
#[derive(Debug, Clone)]
pub struct StaticAbilities {
    items: Vec<StaticAbility>,
}

impl StaticAbilities {
    /// The listed abilities.
    pub closed spec fn seq(self) -> Seq<StaticAbility> {
        self.items@
    }

    /// Whether the ability is listed.
    pub open spec fn has(self, a: StaticAbility) -> bool {
        self.seq().contains(a)
    }

    /// An empty list.
    pub fn new() -> (r: StaticAbilities)
        ensures
            r.seq() == Seq::<StaticAbility>::empty(),
    {
        StaticAbilities { items: Vec::new() }
    }

    /// Whether the ability is listed.
    pub fn contains(&self, a: &StaticAbility) -> (r: bool)
        ensures
            r == self.has(*a),
    {
        let mut i: usize = 0;
        while i < self.items.len()
            invariant
                0 <= i <= self.items.len(),
                forall|j: int| 0 <= j < i ==> self.items@[j] != *a,
            decreases self.items.len() - i,
        {
            if self.items[i] == *a {
                return true;
            }
            i = i + 1;
        }
        false
    }

    /// Adds a missing ability at the end; leaves a listed one alone.
    /// Returns whether the ability was missing.
    pub fn insert(&mut self, a: StaticAbility) -> (r: bool)
        ensures
            r == !old(self).has(a),
            final(self).seq() == if old(self).has(a) {
                old(self).seq()
            } else {
                old(self).seq().push(a)
            },
    {
        if self.contains(&a) {
            false
        } else {
            self.items.push(a);
            true
        }
    }
}

/// The subtypes of one card, each listed at most once.
#[derive(Debug, Clone)]
pub struct Subtypes {
    items: Vec<CardSubtype>,
}

impl Subtypes {
    /// The listed subtypes.
    pub closed spec fn seq(self) -> Seq<CardSubtype> {
        self.items@
    }

    /// Whether the subtype is listed.
    pub open spec fn has(self, s: CardSubtype) -> bool {
        self.seq().contains(s)
    }

    /// An empty list.
    pub fn new() -> (r: Subtypes)
        ensures
            r.seq() == Seq::<CardSubtype>::empty(),
    {
        Subtypes { items: Vec::new() }
    }

    /// Whether the subtype is listed.
    pub fn contains(&self, s: &CardSubtype) -> (r: bool)
        ensures
            r == self.has(*s),
    {
        let mut i: usize = 0;
        while i < self.items.len()
            invariant
                0 <= i <= self.items.len(),
                forall|j: int| 0 <= j < i ==> self.items@[j] != *s,
            decreases self.items.len() - i,
        {
            if self.items[i] == *s {
                return true;
            }
            i = i + 1;
        }
        false
    }

    /// Adds a missing subtype at the end; leaves a listed one alone.
    /// Returns whether the subtype was missing.
    pub fn insert(&mut self, s: CardSubtype) -> (r: bool)
        ensures
            r == !old(self).has(s),
            final(self).seq() == if old(self).has(s) {
                old(self).seq()
            } else {
                old(self).seq().push(s)
            },
    {
        if self.contains(&s) {
            false
        } else {
            self.items.push(s);
            true
        }
    }
}

/// The mutable state of a card: power, toughness, summoning sickness and
/// whether it is tapped, each as a current/baseline pair.
#[derive(Clone, Copy, Debug, PartialEq, Eq, Structural)]
pub struct CardState {
    pub power: Value<i16>,
    pub toughness: Value<i16>,
    pub summoning_sickness: Value<bool>,
    pub tapped: Value<bool>,
}

impl CardState {
    /// The state with power and toughness restored to their baselines.
    pub open spec fn restore_spec(self) -> CardState {
        CardState {
            power: self.power.reset_spec(),
            toughness: self.toughness.reset_spec(),
            ..self
        }
    }

    /// The state with every component restored to its baseline.
    pub open spec fn reset_spec(self) -> CardState {
        CardState {
            power: self.power.reset_spec(),
            toughness: self.toughness.reset_spec(),
            summoning_sickness: self.summoning_sickness.reset_spec(),
            tapped: self.tapped.reset_spec(),
        }
    }

    /// The all-zero state of a non-creature card.
    pub fn new() -> (r: CardState)
        ensures
            r == (CardState {
                power: Value { current: 0i16, default: 0i16 },
                toughness: Value { current: 0i16, default: 0i16 },
                summoning_sickness: Value { current: false, default: false },
                tapped: Value { current: false, default: false },
            }),
    {
        CardState {
            power: Value::new(0),
            toughness: Value::new(0),
            summoning_sickness: Value::new(false),
            tapped: Value::new(false),
        }
    }

    /// The state of a freshly made creature: the given power and toughness,
    /// summoning sickness on, untapped.
    pub fn new_creature(power: i16, toughness: i16) -> (r: CardState)
        ensures
            r == (CardState {
                power: Value { current: power, default: power },
                toughness: Value { current: toughness, default: toughness },
                summoning_sickness: Value { current: true, default: true },
                tapped: Value { current: false, default: false },
            }),
    {
        CardState {
            power: Value::new(power),
            toughness: Value::new(toughness),
            summoning_sickness: Value::new(true),
            tapped: Value::new(false),
        }
    }

    /// Restores power and toughness of this creature to their baselines.
    pub fn restore(&mut self)
        ensures
            *final(self) == old(self).restore_spec(),
    {
        self.power.reset();
        self.toughness.reset();
    }

    /// Restores every component to its baseline.
    pub fn reset(&mut self)
        ensures
            *final(self) == old(self).reset_spec(),
    {
        self.power.reset();
        self.toughness.reset();
        self.summoning_sickness.reset();
        self.tapped.reset();
    }
}

/// One card: its identity, owner, kind, printed abilities, and mutable
/// state.
#[derive(Clone, Debug)]
pub struct Card {
    pub id: ObjectId,
    pub owner_id: ObjectId,
    pub name: String,
    pub kind: CardType,
    pub subtypes: Subtypes,
    pub cost: Cost,
    pub zone: Zone,
    /// The ability that happens when the card is resolved.
    pub play_ability: Option<PlayAbility>,
    pub activated_abilities: Vec<ActivatedAbility>,
    pub triggered_abilities: Vec<TriggeredAbility>,
    pub static_abilities: StaticAbilities,
    pub state: CardState,
}

impl Card {
    /// The all-zero state of a non-creature card.
    pub open spec fn zero_state() -> CardState {
        CardState {
            power: Value { current: 0i16, default: 0i16 },
            toughness: Value { current: 0i16, default: 0i16 },
            summoning_sickness: Value { current: false, default: false },
            tapped: Value { current: false, default: false },
        }
    }

    /// Whether this card is fresh: unnamed, unregistered, owned by the
    /// given player, in no zone, without printed cost or abilities.
    pub open spec fn is_blank(self, owner_id: ObjectId) -> bool {
        &&& self.id == 0
        &&& self.owner_id == owner_id
        &&& self.name@ == Seq::<char>::empty()
        &&& self.subtypes.seq() == Seq::<CardSubtype>::empty()
        &&& self.cost == Cost::Nothing
        &&& self.zone == Zone::Nowhere
        &&& self.play_ability is None
        &&& self.activated_abilities@ == Seq::<ActivatedAbility>::empty()
        &&& self.triggered_abilities@ == Seq::<TriggeredAbility>::empty()
        &&& self.static_abilities.seq() == Seq::<StaticAbility>::empty()
    }

    /// A blank card owned by the given player.
    pub fn new(owner_id: ObjectId) -> (r: Card)
        ensures
            r.is_blank(owner_id),
            r.kind == CardType::Land,
            r.state == Card::zero_state(),
    {
        Card {
            id: 0,
            owner_id,
            name: String::new(),
            kind: CardType::Land,
            subtypes: Subtypes::new(),
            cost: Cost::Nothing,
            zone: Zone::Nowhere,
            play_ability: Option::None,
            activated_abilities: Vec::new(),
            triggered_abilities: Vec::new(),
            static_abilities: StaticAbilities::new(),
            state: CardState::new(),
        }
    }

    pub fn new_land(owner_id: ObjectId) -> (r: Card)
        ensures
            r.is_blank(owner_id),
            r.kind == CardType::Land,
            r.state == Card::zero_state(),
    {
        Card::new(owner_id)
    }

    /// A blank creature with the given power and toughness; it enters with
    /// summoning sickness.
    pub fn new_creature(owner_id: ObjectId, power: i16, toughness: i16) -> (r: Card)
        ensures
            r.is_blank(owner_id),
            r.kind == CardType::Creature,
            r.state == (CardState {
                power: Value { current: power, default: power },
                toughness: Value { current: toughness, default: toughness },
                summoning_sickness: Value { current: true, default: true },
                tapped: Value { current: false, default: false },
            }),
    {
        let mut card = Card::new(owner_id);
        card.kind = CardType::Creature;
        card.state.power = Value::new(power);
        card.state.toughness = Value::new(toughness);
        card.state.summoning_sickness = Value::new(true);
        card
    }

    pub fn new_artifact(owner_id: ObjectId) -> (r: Card)
        ensures
            r.is_blank(owner_id),
            r.kind == CardType::Artifact,
            r.state == Card::zero_state(),
    {
        let mut card = Card::new(owner_id);
        card.kind = CardType::Artifact;
        card
    }

    pub fn new_enchantment(owner_id: ObjectId) -> (r: Card)
        ensures
            r.is_blank(owner_id),
            r.kind == CardType::Enchantment,
            r.state == Card::zero_state(),
    {
        let mut card = Card::new(owner_id);
        card.kind = CardType::Enchantment;
        card
    }

    pub fn new_instant(owner_id: ObjectId) -> (r: Card)
        ensures
            r.is_blank(owner_id),
            r.kind == CardType::Instant,
            r.state == Card::zero_state(),
    {
        let mut card = Card::new(owner_id);
        card.kind = CardType::Instant;
        card
    }

    pub fn new_sorcery(owner_id: ObjectId) -> (r: Card)
        ensures
            r.is_blank(owner_id),
            r.kind == CardType::Sorcery,
            r.state == Card::zero_state(),
    {
        let mut card = Card::new(owner_id);
        card.kind = CardType::Sorcery;
        card
    }

    /// Whether a call to `tap` succeeds: the card sits on the battlefield
    /// and is not already tapped.
    pub open spec fn can_tap(self) -> bool {
        self.zone == Zone::Battlefield && !self.state.tapped.current
    }

    /// Whether a call to `untap` succeeds: the card sits on the battlefield
    /// and is tapped.
    pub open spec fn can_untap(self) -> bool {
        self.zone == Zone::Battlefield && self.state.tapped.current
    }

    /// Taps the card if it sits untapped on the battlefield; reports
    /// whether anything happened.
    pub fn tap(&mut self) -> (r: bool)
        ensures
            r == old(self).can_tap(),
            *final(self) == (if old(self).can_tap() {
                Card {
                    state: CardState {
                        tapped: Value { current: true, ..old(self).state.tapped },
                        ..old(self).state
                    },
                    ..*old(self)
                }
            } else {
                *old(self)
            }),
    {
        if matches!(self.zone, Zone::Battlefield) && !self.state.tapped.current {
            self.state.tapped.current = true;
            true
        } else {
            false
        }
    }

    /// Untaps the card if it sits tapped on the battlefield; reports
    /// whether anything happened.
    pub fn untap(&mut self) -> (r: bool)
        ensures
            r == old(self).can_untap(),
            *final(self) == (if old(self).can_untap() {
                Card {
                    state: CardState {
                        tapped: Value { current: false, ..old(self).state.tapped },
                        ..old(self).state
                    },
                    ..*old(self)
                }
            } else {
                *old(self)
            }),
    {
        if matches!(self.zone, Zone::Battlefield) && self.state.tapped.current {
            self.state.tapped.current = false;
            true
        } else {
            false
        }
    }
}


/// `s` with `id` appended, unless it is already listed.
pub open spec fn zone_insert(s: Seq<usize>, id: usize) -> Seq<usize> {
    if s.contains(id) {
        s
    } else {
        s.push(id)
    }
}

/// `s` with the first occurrence of `id` removed, if it is listed.
pub open spec fn zone_remove(s: Seq<usize>, id: usize) -> Seq<usize> {
    if s.contains(id) {
        s.remove(s.index_of(id))
    } else {
        s
    }
}

/// The zone set of the player that tracks the zone `z`; the library where
/// `z` is no player-tracked zone.
pub open spec fn zone_set_of(p: Player, z: Zone) -> indexmap::IndexSet<usize> {
    match z {
        Zone::Library => p.library,
        Zone::Hand => p.hand,
        Zone::Battlefield => p.battlefield,
        Zone::Graveyard => p.graveyard,
        _ => p.library,
    }
}

/// The card as it stands after entering the zone `z`: state restored to its
/// baselines, then the zone-dependent static abilities re-applied.
pub open spec fn card_after_zone_change(c: Card, z: Zone) -> Card {
    crate::abilities::card_with_statics_applied(
        Card { zone: z, state: c.state.reset_spec(), ..c },
    )
}

/// How a player's four zone sets stand after `card_id` moved to the zone
/// `z`: listed in the set of `z` and in no other, so the card sits in
/// exactly one of this player's zones; everything else untouched.
pub open spec fn player_zones_moved(p0: Player, p1: Player, card_id: usize, z: Zone) -> bool {
    &&& p1 == (Player {
        library: p1.library,
        hand: p1.hand,
        battlefield: p1.battlefield,
        graveyard: p1.graveyard,
        ..p0
    })
    &&& (z == Zone::Library || z == Zone::Hand || z == Zone::Battlefield || z == Zone::Graveyard
        ==> {
        &&& crate::storage::id_set_elems(zone_set_of(p1, z)).contains(card_id)
    })
    &&& (z != Zone::Library ==> !crate::storage::id_set_elems(p1.library).contains(card_id))
    &&& (z != Zone::Hand ==> !crate::storage::id_set_elems(p1.hand).contains(card_id))
    &&& (z != Zone::Battlefield ==> !crate::storage::id_set_elems(p1.battlefield).contains(
        card_id,
    ))
    &&& (z != Zone::Graveyard ==> !crate::storage::id_set_elems(p1.graveyard).contains(card_id))
    &&& crate::storage::id_set_elems(p1.library).no_duplicates()
    &&& crate::storage::id_set_elems(p1.hand).no_duplicates()
    &&& crate::storage::id_set_elems(p1.battlefield).no_duplicates()
    &&& crate::storage::id_set_elems(p1.graveyard).no_duplicates()
    &&& crate::storage::id_set_elems(p1.library) == if z == Zone::Library {
        zone_insert(crate::storage::id_set_elems(p0.library), card_id)
    } else {
        zone_remove(crate::storage::id_set_elems(p0.library), card_id)
    }
    &&& crate::storage::id_set_elems(p1.hand) == if z == Zone::Hand {
        zone_insert(crate::storage::id_set_elems(p0.hand), card_id)
    } else {
        zone_remove(crate::storage::id_set_elems(p0.hand), card_id)
    }
    &&& crate::storage::id_set_elems(p1.battlefield) == if z == Zone::Battlefield {
        zone_insert(crate::storage::id_set_elems(p0.battlefield), card_id)
    } else {
        zone_remove(crate::storage::id_set_elems(p0.battlefield), card_id)
    }
    &&& crate::storage::id_set_elems(p1.graveyard) == if z == Zone::Graveyard {
        zone_insert(crate::storage::id_set_elems(p0.graveyard), card_id)
    } else {
        zone_remove(crate::storage::id_set_elems(p0.graveyard), card_id)
    }
}

/// What moving `card_id` to the zone `z` does to a game: the card's state
/// is restored and re-tagged, its owner's zone sets are resynchronized, and
/// nothing else changes.
pub open spec fn change_zone_post(g0: Game, g1: Game, card_id: usize, z: Zone) -> bool {
    let ci = g0.card_index(card_id);
    let c = g0.cards@[ci];
    let oi = g0.player_index(c.owner_id);
    &&& g1 == (Game { cards: g1.cards, players: g1.players, ..g0 })
    &&& g1.cards@ == g0.cards@.update(ci, card_after_zone_change(c, z))
    &&& oi == -1 ==> g1.players@ == g0.players@
    &&& oi != -1 ==> g1.players@.len() == g0.players@.len() && (forall|j: int|
        0 <= j < g0.players@.len() && j != oi ==> g1.players@[j] == g0.players@[j])
        && player_zones_moved(g0.players@[oi], g1.players@[oi], card_id, z)
}

/// Moves the card to the zone `z`; with an unknown card, nothing happens.
pub fn change_zone(game: &mut Game, card_id: ObjectId, zone: Zone)
    ensures
        old(game).card_index(card_id) == -1 ==> *final(game) == *old(game),
        old(game).card_index(card_id) != -1 ==> change_zone_post(
            *old(game),
            *final(game),
            card_id,
            zone,
        ),
{
    let pos = game.card_pos(card_id);
    proof {
        crate::game::lemma_find_card(game.cards@, card_id);
        assert(game.cards.len() == game.cards@.len());
    }
    let idx = match pos {
        Some(i) => i,
        None => {
            return ;
        },
    };
    let owner_id = game.cards[idx].owner_id;
    {
        let card = &mut game.cards[idx];
        card.zone = zone;
        card.state.reset();
    }
    proof {
        crate::game::lemma_find_card_update(
            old(game).cards@,
            idx as int,
            game.cards@[idx as int],
            card_id,
        );
    }
    crate::abilities::apply_static_abilities(game, card_id);
    proof {
        assert(game.cards@ =~= old(game).cards@.update(
            idx as int,
            card_after_zone_change(old(game).cards@[idx as int], zone),
        ));
    }
    let ppos = game.player_pos(owner_id);
    proof {
        crate::game::lemma_find_player(game.players@, owner_id);
        assert(game.players.len() == game.players@.len());
    }
    match ppos {
        Some(pi) => {
            let ghost pre_p = game.players@[pi as int];
            let player = &mut game.players[pi];
            if matches!(zone, Zone::Library) {
                crate::storage::id_set_insert(&mut player.library, card_id);
            } else {
                crate::storage::id_set_shift_remove(&mut player.library, card_id);
            }
            if matches!(zone, Zone::Hand) {
                crate::storage::id_set_insert(&mut player.hand, card_id);
            } else {
                crate::storage::id_set_shift_remove(&mut player.hand, card_id);
            }
            if matches!(zone, Zone::Battlefield) {
                crate::storage::id_set_insert(&mut player.battlefield, card_id);
            } else {
                crate::storage::id_set_shift_remove(&mut player.battlefield, card_id);
            }
            if matches!(zone, Zone::Graveyard) {
                crate::storage::id_set_insert(&mut player.graveyard, card_id);
            } else {
                crate::storage::id_set_shift_remove(&mut player.graveyard, card_id);
            }
            proof {
                let p1 = game.players@[pi as int];
                match zone {
                    Zone::Library => {
                        let pre = crate::storage::id_set_elems(pre_p.library);
                        if !pre.contains(card_id) {
                            assert(crate::storage::id_set_elems(p1.library)[pre.len() as int]
                                == card_id);
                        }
                        assert(crate::storage::id_set_elems(p1.library).contains(card_id));
                    },
                    Zone::Hand => {
                        let pre = crate::storage::id_set_elems(pre_p.hand);
                        if !pre.contains(card_id) {
                            assert(crate::storage::id_set_elems(p1.hand)[pre.len() as int]
                                == card_id);
                        }
                        assert(crate::storage::id_set_elems(p1.hand).contains(card_id));
                    },
                    Zone::Battlefield => {
                        let pre = crate::storage::id_set_elems(pre_p.battlefield);
                        if !pre.contains(card_id) {
                            assert(crate::storage::id_set_elems(p1.battlefield)[pre.len() as int]
                                == card_id);
                        }
                        assert(crate::storage::id_set_elems(p1.battlefield).contains(card_id));
                    },
                    Zone::Graveyard => {
                        let pre = crate::storage::id_set_elems(pre_p.graveyard);
                        if !pre.contains(card_id) {
                            assert(crate::storage::id_set_elems(p1.graveyard)[pre.len() as int]
                                == card_id);
                        }
                        assert(crate::storage::id_set_elems(p1.graveyard).contains(card_id));
                    },
                    _ => {},
                }
            }
        },
        None => {},
    }
}

/// Moves the card to the battlefield.
pub fn put_on_battlefield(game: &mut Game, card_id: ObjectId)
    ensures
        old(game).card_index(card_id) == -1 ==> *final(game) == *old(game),
        old(game).card_index(card_id) != -1 ==> change_zone_post(
            *old(game),
            *final(game),
            card_id,
            Zone::Battlefield,
        ),
{
    change_zone(game, card_id, Zone::Battlefield)
}

/// Moves the card to its owner's graveyard.
pub fn put_on_graveyard(game: &mut Game, card_id: ObjectId)
    ensures
        old(game).card_index(card_id) == -1 ==> *final(game) == *old(game),
        old(game).card_index(card_id) != -1 ==> change_zone_post(
            *old(game),
            *final(game),
            card_id,
            Zone::Graveyard,
        ),
{
    change_zone(game, card_id, Zone::Graveyard)
}

/// Tags the card as sitting on the stack.
pub fn put_on_stack(game: &mut Game, card_id: ObjectId)
    ensures
        old(game).card_index(card_id) == -1 ==> *final(game) == *old(game),
        old(game).card_index(card_id) != -1 ==> change_zone_post(
            *old(game),
            *final(game),
            card_id,
            Zone::Stack,
        ),
{
    change_zone(game, card_id, Zone::Stack)
}

/// Moves the card to its owner's hand.
pub fn put_in_hand(game: &mut Game, card_id: ObjectId)
    ensures
        old(game).card_index(card_id) == -1 ==> *final(game) == *old(game),
        old(game).card_index(card_id) != -1 ==> change_zone_post(
            *old(game),
            *final(game),
            card_id,
            Zone::Hand,
        ),
{
    change_zone(game, card_id, Zone::Hand)
}

/// Whether the registered card is a creature that is still alive: positive
/// toughness.
pub open spec fn is_alive_spec(g: Game, card_id: usize) -> bool {
    let ci = g.card_index(card_id);
    &&& ci != -1
    &&& g.cards@[ci].kind == CardType::Creature
    &&& g.cards@[ci].state.toughness.current > 0
}

/// Whether the card is a creature with positive toughness.
pub fn is_alive(game: &Game, card_id: ObjectId) -> (r: bool)
    ensures
        r == is_alive_spec(*game, card_id),
{
    match game.get_card(card_id) {
        Some(card) => matches!(card.kind, CardType::Creature) && card.state.toughness.current > 0,
        None => false,
    }
}


/// What a successful tap or untap of `card_id` does to the registry: only
/// the tapped flag of that card changes.
pub open spec fn card_tap_flag_set(g0: Game, g1cards: Seq<Card>, card_id: usize, tapped: bool) -> bool {
    let ci = g0.card_index(card_id);
    g1cards == g0.cards@.update(
        ci,
        Card {
            state: CardState {
                tapped: Value { current: tapped, ..g0.cards@[ci].state.tapped },
                ..g0.cards@[ci].state
            },
            ..g0.cards@[ci]
        },
    )
}

/// Taps the card and notifies triggered abilities; reports whether the
/// card was untapped on the battlefield.  `source` names the card whose
/// ability caused the tap, if any.
pub fn tap_card(game: &mut Game, card_id: ObjectId, source: Option<ObjectId>) -> (r: bool)
    ensures
        old(game).card_index(card_id) == -1 ==> *final(game) == *old(game) && !r,
        old(game).card_index(card_id) != -1 && !old(game).cards@[old(game).card_index(
            card_id,
        )].can_tap() ==> *final(game) == *old(game) && !r,
        old(game).card_index(card_id) != -1 && old(game).cards@[old(game).card_index(
            card_id,
        )].can_tap() ==> r && card_tap_flag_set(*old(game), final(game).cards@, card_id, true)
            && crate::events::stack_extended_by_triggers(
            (Game { cards: final(game).cards, ..*old(game) }),
            *final(game),
            crate::events::Event::Tap(
                crate::events::CardEvent {
                    source,
                    owner: old(game).cards@[old(game).card_index(card_id)].owner_id,
                    card: card_id,
                },
            ),
        ) && crate::events::triggers_all_fired(
            (Game { cards: final(game).cards, ..*old(game) }),
            *final(game),
            crate::events::Event::Tap(
                crate::events::CardEvent {
                    source,
                    owner: old(game).cards@[old(game).card_index(card_id)].owner_id,
                    card: card_id,
                },
            ),
        ),
{
    let pos = game.card_pos(card_id);
    proof {
        crate::game::lemma_find_card(game.cards@, card_id);
        assert(game.cards.len() == game.cards@.len());
    }
    match pos {
        Some(i) => {
            let owner_id = game.cards[i].owner_id;
            let can = matches!(game.cards[i].zone, Zone::Battlefield)
                && !game.cards[i].state.tapped.current;
            if can {
                {
                    let card = &mut game.cards[i];
                    card.tap();
                }
                crate::events::dispatch_event(
                    game,
                    crate::events::Event::Tap(
                        crate::events::CardEvent { source, owner: owner_id, card: card_id },
                    ),
                );
                true
            } else {
                false
            }
        },
        None => false,
    }
}

/// Untaps the card and, if it was tapped, notifies triggered abilities;
/// reports whether the card exists.
pub fn untap_card(game: &mut Game, card_id: ObjectId, source: Option<ObjectId>) -> (r: bool)
    ensures
        old(game).card_index(card_id) == -1 ==> *final(game) == *old(game) && !r,
        old(game).card_index(card_id) != -1 && !old(game).cards@[old(game).card_index(
            card_id,
        )].can_untap() ==> *final(game) == *old(game) && r,
        old(game).card_index(card_id) != -1 && old(game).cards@[old(game).card_index(
            card_id,
        )].can_untap() ==> r && card_tap_flag_set(*old(game), final(game).cards@, card_id, false)
            && crate::events::stack_extended_by_triggers(
            (Game { cards: final(game).cards, ..*old(game) }),
            *final(game),
            crate::events::Event::Untap(
                crate::events::CardEvent {
                    source,
                    owner: old(game).cards@[old(game).card_index(card_id)].owner_id,
                    card: card_id,
                },
            ),
        ) && crate::events::triggers_all_fired(
            (Game { cards: final(game).cards, ..*old(game) }),
            *final(game),
            crate::events::Event::Untap(
                crate::events::CardEvent {
                    source,
                    owner: old(game).cards@[old(game).card_index(card_id)].owner_id,
                    card: card_id,
                },
            ),
        ),
{
    let pos = game.card_pos(card_id);
    proof {
        crate::game::lemma_find_card(game.cards@, card_id);
        assert(game.cards.len() == game.cards@.len());
    }
    match pos {
        Some(i) => {
            let owner_id = game.cards[i].owner_id;
            let can = matches!(game.cards[i].zone, Zone::Battlefield)
                && game.cards[i].state.tapped.current;
            if can {
                {
                    let card = &mut game.cards[i];
                    card.untap();
                }
                crate::events::dispatch_event(
                    game,
                    crate::events::Event::Untap(
                        crate::events::CardEvent { source, owner: owner_id, card: card_id },
                    ),
                );
            }
            true
        },
        None => false,
    }
}

/// What popping the top card `c` of `player_id`'s library does: only that
/// library changes, losing its last element.
pub open spec fn library_popped(g0: Game, g1: Game, player_id: usize, c: usize) -> bool {
    let pi = g0.player_index(player_id);
    &&& g1 == (Game { players: g1.players, ..g0 })
    &&& g1.players@.len() == g0.players@.len()
    &&& forall|j: int|
        0 <= j < g0.players@.len() && j != pi ==> g1.players@[j] == (#[trigger] g0.players@[j])
    &&& g1.players@[pi] == (Player { library: g1.players@[pi].library, ..g0.players@[pi] })
    &&& crate::storage::id_set_elems(g0.players@[pi].library).len() > 0
    &&& c == crate::storage::id_set_elems(g0.players@[pi].library).last()
    &&& crate::storage::id_set_elems(g1.players@[pi].library) == crate::storage::id_set_elems(
        g0.players@[pi].library,
    ).drop_last()
}

/// What a successful draw does: the top library card `c` is popped, moved
/// to the hand, and triggered abilities are notified of the draw.
pub open spec fn draw_card_post(g0: Game, g1: Game, player_id: usize, c: usize) -> bool {
    exists|mid1: Game, mid2: Game|
        {
            &&& #[trigger] library_popped(g0, mid1, player_id, c)
            &&& (mid1.card_index(c) == -1 ==> mid2 == mid1)
            &&& (mid1.card_index(c) != -1 ==> change_zone_post(mid1, mid2, c, Zone::Hand))
            &&& #[trigger] crate::events::stack_extended_by_triggers(
                mid2,
                g1,
                crate::events::Event::Draw(
                    crate::events::CardEvent { owner: player_id, source: None, card: c },
                ),
            )
        }
}

/// Draws the top card of the player's library into their hand and returns
/// it.  A player with an empty library loses the game instead.
pub fn draw_card(game: &mut Game, player_id: ObjectId) -> (r: Option<ObjectId>)
    ensures
        old(game).player_index(player_id) == -1 ==> *final(game) == *old(game) && r is None,
        old(game).player_index(player_id) != -1 && crate::storage::id_set_elems(
            old(game).players@[old(game).player_index(player_id)].library,
        ).len() == 0 ==> r is None && *final(game) == (Game {
            status: GameStatus::Lose(player_id),
            ..*old(game)
        }),
        old(game).player_index(player_id) != -1 && crate::storage::id_set_elems(
            old(game).players@[old(game).player_index(player_id)].library,
        ).len() > 0 ==> r == Some(
            crate::storage::id_set_elems(
                old(game).players@[old(game).player_index(player_id)].library,
            ).last(),
        ) && draw_card_post(*old(game), *final(game), player_id, r->Some_0),
{
    let ppos = game.player_pos(player_id);
    proof {
        crate::game::lemma_find_player(game.players@, player_id);
        assert(game.players.len() == game.players@.len());
    }
    let pi = match ppos {
        Some(pi) => pi,
        None => {
            return None;
        },
    };
    if crate::storage::id_set_len(&game.players[pi].library) == 0 {
        game.status = GameStatus::Lose(player_id);
        return None;
    }
    let popped = {
        let player = &mut game.players[pi];
        crate::storage::id_set_pop(&mut player.library)
    };
    let card_id = match popped {
        Some(card_id) => card_id,
        None => {
            proof {
                assert(false);
            }
            return None;
        },
    };
    let ghost mid1 = *game;
    change_zone(game, card_id, Zone::Hand);
    let ghost mid2 = *game;
    crate::events::dispatch_event(
        game,
        crate::events::Event::Draw(
            crate::events::CardEvent { owner: player_id, source: None, card: card_id },
        ),
    );
    proof {
        assert(library_popped(*old(game), mid1, player_id, card_id));
        assert(draw_card_post(*old(game), *game, player_id, card_id));
    }
    Some(card_id)
}

/// Puts the card on top of the owner player's library: it leaves every
/// other zone set, its state is restored, and it will be the next card
/// drawn.
pub fn put_on_deck_top(game: &mut Game, card_id: ObjectId, player_id: ObjectId)
    requires
        old(game).card_index(card_id) != -1,
    ensures
        old(game).player_index(player_id) == -1 ==> *final(game) == *old(game),
        old(game).player_index(player_id) != -1 ==> deck_insert_post(
            *old(game),
            *final(game),
            card_id,
            player_id,
            true,
        ),
{
    deck_insert(game, card_id, player_id, true)
}

/// Puts the card at the bottom of the player's library: it leaves every
/// other zone set, its state is restored, and it will be the last card
/// drawn.
pub fn put_on_deck_bottom(game: &mut Game, card_id: ObjectId, player_id: ObjectId)
    requires
        old(game).card_index(card_id) != -1,
    ensures
        old(game).player_index(player_id) == -1 ==> *final(game) == *old(game),
        old(game).player_index(player_id) != -1 ==> deck_insert_post(
            *old(game),
            *final(game),
            card_id,
            player_id,
            false,
        ),
{
    deck_insert(game, card_id, player_id, false)
}

/// What putting `card_id` on the library of `player_id` does: the card is
/// removed from all of that player's zone sets, placed on top (last drawn
/// position) or at the bottom of the library, and its own record is
/// re-tagged as a library card with restored state.
pub open spec fn deck_insert_post(
    g0: Game,
    g1: Game,
    card_id: usize,
    player_id: usize,
    top: bool,
) -> bool {
    let pi = g0.player_index(player_id);
    let ci = g0.card_index(card_id);
    let p0 = g0.players@[pi];
    let p1 = g1.players@[pi];
    &&& g1 == (Game { players: g1.players, cards: g1.cards, ..g0 })
    &&& g1.players@.len() == g0.players@.len()
    &&& forall|j: int|
        0 <= j < g0.players@.len() && j != pi ==> g1.players@[j] == (#[trigger] g0.players@[j])
    &&& p1 == (Player {
        library: p1.library,
        hand: p1.hand,
        battlefield: p1.battlefield,
        graveyard: p1.graveyard,
        ..p0
    })
    &&& crate::storage::id_set_elems(p1.library) == if top {
        zone_remove(crate::storage::id_set_elems(p0.library), card_id).push(card_id)
    } else {
        zone_remove(crate::storage::id_set_elems(p0.library), card_id).insert(0, card_id)
    }
    &&& crate::storage::id_set_elems(p1.hand) == zone_remove(
        crate::storage::id_set_elems(p0.hand),
        card_id,
    )
    &&& crate::storage::id_set_elems(p1.battlefield) == zone_remove(
        crate::storage::id_set_elems(p0.battlefield),
        card_id,
    )
    &&& crate::storage::id_set_elems(p1.graveyard) == zone_remove(
        crate::storage::id_set_elems(p0.graveyard),
        card_id,
    )
    &&& g1.cards@ == g0.cards@.update(
        ci,
        Card { zone: Zone::Library, state: g0.cards@[ci].state.reset_spec(), ..g0.cards@[ci] },
    )
}

/// Removes the card from the player's zone sets and stores it in the
/// library, on top or at the bottom.
fn deck_insert(game: &mut Game, card_id: ObjectId, player_id: ObjectId, top: bool)
    requires
        old(game).card_index(card_id) != -1,
    ensures
        old(game).player_index(player_id) == -1 ==> *final(game) == *old(game),
        old(game).player_index(player_id) != -1 ==> deck_insert_post(
            *old(game),
            *final(game),
            card_id,
            player_id,
            top,
        ),
{
    let ppos = game.player_pos(player_id);
    proof {
        crate::game::lemma_find_player(game.players@, player_id);
        assert(game.players.len() == game.players@.len());
    }
    let pi = match ppos {
        Some(pi) => pi,
        None => {
            return ;
        },
    };
    {
        let player = &mut game.players[pi];
        crate::storage::id_set_shift_remove(&mut player.library, card_id);
        crate::storage::id_set_shift_remove(&mut player.hand, card_id);
        crate::storage::id_set_shift_remove(&mut player.battlefield, card_id);
        crate::storage::id_set_shift_remove(&mut player.graveyard, card_id);
        if top {
            crate::storage::id_set_insert(&mut player.library, card_id);
        } else {
            crate::storage::id_set_shift_insert(&mut player.library, 0, card_id);
        }
    }
    let cpos = game.card_pos(card_id);
    proof {
        crate::game::lemma_find_card(game.cards@, card_id);
        assert(game.cards.len() == game.cards@.len());
        assert(game.cards@ == old(game).cards@);
    }
    match cpos {
        Some(ci) => {
            let card = &mut game.cards[ci];
            card.zone = Zone::Library;
            card.state.reset();
        },
        None => {
            proof {
                assert(false);
            }
        },
    }
}

/// Reorders the player's library at random; the cards in it stay the same.
pub fn shuffle_deck(game: &mut Game, player_id: ObjectId)
    ensures
        old(game).player_index(player_id) == -1 ==> *final(game) == *old(game),
        old(game).player_index(player_id) != -1 ==> {
            let pi = old(game).player_index(player_id);
            &&& *final(game) == (Game { players: final(game).players, ..*old(game) })
            &&& final(game).players@.len() == old(game).players@.len()
            &&& (forall|j: int|
                0 <= j < old(game).players@.len() && j != pi ==> final(game).players@[j] == (
                #[trigger] old(game).players@[j]))
            &&& final(game).players@[pi] == (Player {
                library: final(game).players@[pi].library,
                ..old(game).players@[pi]
            })
            &&& crate::storage::id_set_elems(final(game).players@[pi].library).to_multiset()
                == crate::storage::id_set_elems(old(game).players@[pi].library).to_multiset()
        },
{
    let ppos = game.player_pos(player_id);
    proof {
        crate::game::lemma_find_player(game.players@, player_id);
        assert(game.players.len() == game.players@.len());
    }
    let pi = match ppos {
        Some(pi) => pi,
        None => {
            return ;
        },
    };
    let mut library = crate::storage::id_set_to_vec(&game.players[pi].library);
    crate::storage::shuffle_ids(&mut library);
    let mut shuffled = crate::storage::id_set_new();
    let mut i: usize = 0;
    while i < library.len()
        invariant
            0 <= i <= library@.len(),
            library@.no_duplicates(),
            crate::storage::id_set_elems(shuffled) == library@.subrange(0, i as int),
        decreases library@.len() - i,
    {
        proof {
            if library@.subrange(0, i as int).contains(library@[i as int]) {
                let k = choose|k: int|
                    0 <= k < i && library@.subrange(0, i as int)[k] == library@[i as int];
                assert(library@[k] == library@[i as int]);
            }
            assert(library@.subrange(0, i + 1) =~= library@.subrange(0, i as int).push(
                library@[i as int],
            ));
        }
        crate::storage::id_set_insert(&mut shuffled, library[i]);
        i = i + 1;
    }
    proof {
        assert(library@.subrange(0, library@.len() as int) =~= library@);
    }
    let player = &mut game.players[pi];
    player.library = shuffled;
}

} // verus!
