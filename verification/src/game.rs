//! The game state: players, the card registry, the stack, and the
//! current/baseline `Value` pair used for every adjustable quantity.

use vstd::prelude::*;

use indexmap::IndexSet;

use crate::abilities::Resolve;
use crate::card::Card;
use crate::mana::Mana;
use crate::storage::id_set_elems;
use crate::storage::id_set_new;
use crate::turn::Turn;

verus! {

broadcast use vstd::std_specs::vec::group_vec_axioms, vstd::seq::group_seq_axioms;

/// Every player and card is registered under one of these identifiers.
pub type ObjectId = usize;

/// A current/baseline pair for a quantity that can be temporarily modified
/// and later restored.
#[derive(Clone, Copy, Debug, PartialEq, Eq, Structural)]
pub struct Value<T> {
    pub current: T,
    pub default: T,
}

impl<T: Copy> Value<T> {
    /// A pair whose current and baseline amounts are both `value`.
    pub fn new(value: T) -> (r: Value<T>)
        ensures
            r.current == value,
            r.default == value,
    {
        Value { current: value, default: value }
    }

    /// The pair with its current amount restored to the baseline.
    pub open spec fn reset_spec(self) -> Value<T> {
        Value { current: self.default, ..self }
    }

    /// Restores the current amount to the baseline.
    pub fn reset(&mut self)
        ensures
            *final(self) == old(self).reset_spec(),
    {
        self.current = self.default;
    }
}

/// Whether the game is still running, or a player has lost.
#[derive(Clone, Copy, Debug, PartialEq, Eq, Structural)]
pub enum GameStatus {
    Play,
    Lose(ObjectId),
}

pub const DEFAULT_HAND_SIZE: usize = 7;

pub const DEFAULT_PLAYER_LIFE: i16 = 20;

pub const DEFAULT_LAND_LIMIT: usize = 1;

/// One player: life, mana pool, and the four card zones they own, each an
/// insertion-ordered id set.
#[derive(Debug)]
pub struct Player {
    pub id: ObjectId,
    pub life: i16,
    pub mana: Mana,
    pub library: IndexSet<usize>,
    pub hand: IndexSet<usize>,
    pub battlefield: IndexSet<usize>,
    pub graveyard: IndexSet<usize>,
    pub hand_size_limit: Value<usize>,
    /// How many lands this player may play per turn.
    pub land_limit: Value<usize>,
}

impl Player {
    /// A fresh, unregistered player with starting life, an empty mana pool
    /// and empty zones.
    pub fn new() -> (r: Player)
        ensures
            r.id == 0,
            r.life == DEFAULT_PLAYER_LIFE,
            r.mana == Mana::zero(),
            id_set_elems(r.library) == Seq::<usize>::empty(),
            id_set_elems(r.hand) == Seq::<usize>::empty(),
            id_set_elems(r.battlefield) == Seq::<usize>::empty(),
            id_set_elems(r.graveyard) == Seq::<usize>::empty(),
            r.hand_size_limit == (Value { current: DEFAULT_HAND_SIZE, default: DEFAULT_HAND_SIZE }),
            r.land_limit == (Value { current: DEFAULT_LAND_LIMIT, default: DEFAULT_LAND_LIMIT }),
    {
        Player {
            id: 0,
            life: DEFAULT_PLAYER_LIFE,
            mana: Mana::new(),
            library: id_set_new(),
            hand: id_set_new(),
            battlefield: id_set_new(),
            graveyard: id_set_new(),
            hand_size_limit: Value::new(DEFAULT_HAND_SIZE),
            land_limit: Value::new(DEFAULT_LAND_LIMIT),
        }
    }
}

/// The index of the first card in `cards` registered under `id`, or `-1`.
pub open spec fn find_card(cards: Seq<Card>, id: ObjectId) -> int
    decreases cards.len(),
{
    if cards.len() == 0 {
        -1
    } else if cards[0].id == id {
        0
    } else {
        let rest = find_card(cards.drop_first(), id);
        if rest == -1 {
            -1
        } else {
            1 + rest
        }
    }
}

/// The index of the first player in `players` registered under `id`, or
/// `-1`.
pub open spec fn find_player(players: Seq<Player>, id: ObjectId) -> int
    decreases players.len(),
{
    if players.len() == 0 {
        -1
    } else if players[0].id == id {
        0
    } else {
        let rest = find_player(players.drop_first(), id);
        if rest == -1 {
            -1
        } else {
            1 + rest
        }
    }
}

/// What `find_card` returns: either `-1` and no card carries the id, or the
/// first index carrying it.
pub proof fn lemma_find_card(cards: Seq<Card>, id: ObjectId)
    ensures
        find_card(cards, id) == -1 ==> forall|j: int|
            0 <= j < cards.len() ==> (#[trigger] cards[j]).id != id,
        find_card(cards, id) != -1 ==> 0 <= find_card(cards, id) < cards.len() && cards[find_card(
            cards,
            id,
        )].id == id && forall|j: int| 0 <= j < find_card(cards, id) ==> (#[trigger] cards[j]).id != id,
    decreases cards.len(),
{
    if cards.len() > 0 && cards[0].id != id {
        lemma_find_card(cards.drop_first(), id);
        assert forall|j: int| 1 <= j < cards.len() implies cards[j] == cards.drop_first()[j - 1] by {}
    }
}

/// What `find_player` returns: either `-1` and no player carries the id,
/// or the first index carrying it.
pub proof fn lemma_find_player(players: Seq<Player>, id: ObjectId)
    ensures
        find_player(players, id) == -1 ==> forall|j: int|
            0 <= j < players.len() ==> (#[trigger] players[j]).id != id,
        find_player(players, id) != -1 ==> 0 <= find_player(players, id) < players.len()
            && players[find_player(players, id)].id == id && forall|j: int|
            0 <= j < find_player(players, id) ==> (#[trigger] players[j]).id != id,
    decreases players.len(),
{
    if players.len() > 0 && players[0].id != id {
        lemma_find_player(players.drop_first(), id);
        assert forall|j: int| 1 <= j < players.len() implies players[j] == players.drop_first()[j
            - 1] by {}
    }
}

/// Whether two games register the same players, by count and identifier,
/// in the same order.
pub open spec fn same_player_ids(g0: Game, g1: Game) -> bool {
    &&& g1.players@.len() == g0.players@.len()
    &&& forall|j: int|
        0 <= j < g0.players@.len() ==> g1.players@[j].id == (#[trigger] g0.players@[j]).id
}

/// Two player lists of the same identifiers in the same order agree on
/// every lookup.
pub proof fn lemma_find_player_ids(p0: Seq<Player>, p1: Seq<Player>, id: ObjectId)
    requires
        p1.len() == p0.len(),
        forall|j: int| 0 <= j < p0.len() ==> p1[j].id == (#[trigger] p0[j]).id,
    ensures
        find_player(p1, id) == find_player(p0, id),
    decreases p0.len(),
{
    if p0.len() > 0 {
        assert(p1[0].id == p0[0].id);
        assert forall|j: int|
            0 <= j < p0.drop_first().len() implies p1.drop_first()[j].id == (
        #[trigger] p0.drop_first()[j]).id by {
            assert(p0.drop_first()[j] == p0[j + 1]);
            assert(p1.drop_first()[j] == p1[j + 1]);
        }
        lemma_find_player_ids(p0.drop_first(), p1.drop_first(), id);
    }
}

/// A card update that keeps its identifier in place keeps its position in
/// the registry.
pub proof fn lemma_find_card_update(s: Seq<Card>, i: int, c: Card, id: ObjectId)
    requires
        0 <= i < s.len(),
        find_card(s, id) == i,
        c.id == id,
    ensures
        find_card(s.update(i, c), id) == i,
{
    lemma_find_card(s, id);
    lemma_find_card(s.update(i, c), id);
    let f = find_card(s.update(i, c), id);
    if f == -1 {
        assert(s.update(i, c)[i].id == id);
    } else if f < i {
        assert(s.update(i, c)[f] == s[f]);
    } else if f > i {
        assert(s.update(i, c)[i].id == id);
    }
}

/// Two registries whose cards carry the same identifiers position every
/// identifier alike.
pub proof fn lemma_find_card_same_ids(s1: Seq<Card>, s2: Seq<Card>, id: ObjectId)
    requires
        s1.len() == s2.len(),
        forall|j: int| 0 <= j < s1.len() ==> (#[trigger] s1[j]).id == s2[j].id,
    ensures
        find_card(s1, id) == find_card(s2, id),
    decreases s1.len(),
{
    if s1.len() > 0 && s1[0].id != id {
        assert forall|j: int|
            0 <= j < s1.drop_first().len() implies (#[trigger] s1.drop_first()[j]).id
            == s2.drop_first()[j].id by {
            assert(s1.drop_first()[j] == s1[j + 1]);
            assert(s2.drop_first()[j] == s2[j + 1]);
        }
        lemma_find_card_same_ids(s1.drop_first(), s2.drop_first(), id);
    }
}

/// The whole state of one running game.
#[derive(Debug)]
pub struct Game {
    pub turn: Turn,
    pub status: GameStatus,
    pub players: Vec<Player>,
    pub cards: Vec<Card>,
    /// The waiting stack of pending spells and abilities, last in first
    /// out.
    pub stack: Vec<Resolve>,
    /// The single entry currently resolving, if any.
    pub resolve: Option<Resolve>,
    /// The last identifier handed out; see `get_uid`.
    pub uid: ObjectId,
}

impl Game {
    /// The index of the first registered card carrying `id`, or `-1`.
    pub open spec fn card_index(self, id: ObjectId) -> int {
        find_card(self.cards@, id)
    }

    /// The index of the first registered player carrying `id`, or `-1`.
    pub open spec fn player_index(self, id: ObjectId) -> int {
        find_player(self.players@, id)
    }

    /// The registered identifier ceiling; see `get_uid`.
    pub open spec fn uid_spec(self) -> ObjectId {
        self.uid
    }

    /// An empty game: no players, no cards, nothing pending, a fresh turn
    /// with no active player.
    pub fn empty() -> (r: Game)
        ensures
            r.status == GameStatus::Play,
            r.uid_spec() == 0,
            r.players@ == Seq::<Player>::empty(),
            r.cards@ == Seq::<Card>::empty(),
            r.stack@ == Seq::<Resolve>::empty(),
            r.resolve is None,
            r.turn.is_fresh(0),
    {
        Game {
            status: GameStatus::Play,
            uid: 0,
            stack: Vec::new(),
            players: Vec::new(),
            cards: Vec::new(),
            resolve: Option::None,
            turn: Turn::new(0),
        }
    }

    /// A game with two fresh players; returns it with their identifiers,
    /// the first of them active.
    pub fn new() -> (r: (Game, ObjectId, ObjectId))
        ensures
            r.0.players@.len() == 2,
            r.0.players@[0].id == r.1,
            r.0.players@[1].id == r.2,
            r.1 != r.2,
            r.0.turn.is_fresh(r.1),
            r.0.turn.active_player == r.1,
            r.0.status == GameStatus::Play,
            r.0.cards@ == Seq::<Card>::empty(),
            r.0.stack@ == Seq::<Resolve>::empty(),
            r.0.resolve is None,
    {
        let mut game = Game::empty();
        let player_id = game.add_player(Player::new());
        let opponent_id = game.add_player(Player::new());
        game.turn = Turn::new(player_id);
        (game, player_id, opponent_id)
    }

    /// Hands out the next unused identifier.
    pub fn get_uid(&mut self) -> (r: ObjectId)
        requires
            old(self).uid_spec() < usize::MAX,
        ensures
            r == old(self).uid_spec() + 1,
            *final(self) == (Game { uid: r, ..*old(self) }),
    {
        self.uid = self.uid + 1;
        self.uid
    }

    /// Registers a player under a fresh identifier and returns it.
    pub fn add_player(&mut self, player: Player) -> (r: ObjectId)
        requires
            old(self).uid_spec() < usize::MAX,
        ensures
            r == old(self).uid_spec() + 1,
            final(self).players@ == old(self).players@.push(Player { id: r, ..player }),
            *final(self) == (Game {
                uid: r,
                players: final(self).players,
                ..*old(self)
            }),
    {
        let mut player = player;
        let player_id = self.get_uid();
        player.id = player_id;
        self.players.push(player);
        player_id
    }

    /// Registers a card under a fresh identifier and returns it.
    pub fn add_card(&mut self, card: Card) -> (r: ObjectId)
        requires
            old(self).uid_spec() < usize::MAX,
        ensures
            r == old(self).uid_spec() + 1,
            final(self).cards@ == old(self).cards@.push(Card { id: r, ..card }),
            *final(self) == (Game {
                uid: r,
                cards: final(self).cards,
                ..*old(self)
            }),
    {
        let mut card = card;
        let card_id = self.get_uid();
        card.id = card_id;
        self.cards.push(card);
        card_id
    }

    /// The position of the card registered under `card_id`, if any.
    pub fn card_pos(&self, card_id: ObjectId) -> (r: Option<usize>)
        ensures
            self.card_index(card_id) == -1 ==> r is None,
            self.card_index(card_id) != -1 ==> r == Some(self.card_index(card_id) as usize),
    {
        proof {
            lemma_find_card(self.cards@, card_id);
        }
        let mut i: usize = 0;
        while i < self.cards.len()
            invariant
                0 <= i <= self.cards@.len(),
                forall|j: int| 0 <= j < i ==> (#[trigger] self.cards@[j]).id != card_id,
                self.card_index(card_id) == -1 || 0 <= self.card_index(card_id)
                    < self.cards@.len(),
                self.card_index(card_id) != -1 ==> self.cards@[self.card_index(card_id)].id
                    == card_id,
            decreases self.cards@.len() - i,
        {
            if self.cards[i].id == card_id {
                proof {
                    lemma_find_card(self.cards@, card_id);
                }
                return Some(i);
            }
            i = i + 1;
        }
        proof {
            lemma_find_card(self.cards@, card_id);
        }
        None
    }

    /// The position of the player registered under `player_id`, if any.
    pub fn player_pos(&self, player_id: ObjectId) -> (r: Option<usize>)
        ensures
            self.player_index(player_id) == -1 ==> r is None,
            self.player_index(player_id) != -1 ==> r == Some(self.player_index(player_id) as usize),
    {
        proof {
            lemma_find_player(self.players@, player_id);
        }
        let mut i: usize = 0;
        while i < self.players.len()
            invariant
                0 <= i <= self.players@.len(),
                forall|j: int| 0 <= j < i ==> (#[trigger] self.players@[j]).id != player_id,
                self.player_index(player_id) == -1 || 0 <= self.player_index(player_id)
                    < self.players@.len(),
                self.player_index(player_id) != -1 ==> self.players@[self.player_index(
                    player_id,
                )].id == player_id,
            decreases self.players@.len() - i,
        {
            if self.players[i].id == player_id {
                proof {
                    lemma_find_player(self.players@, player_id);
                }
                return Some(i);
            }
            i = i + 1;
        }
        proof {
            lemma_find_player(self.players@, player_id);
        }
        None
    }

    /// The card registered under `card_id`, if any.
    pub fn get_card(&self, card_id: ObjectId) -> (r: Option<&Card>)
        ensures
            r is Some <==> self.card_index(card_id) != -1,
            r matches Some(c) ==> *c == self.cards@[self.card_index(card_id)],
    {
        let pos = self.card_pos(card_id);
        proof {
            lemma_find_card(self.cards@, card_id);
        }
        match pos {
            Some(i) => {
                proof {
                    assert(self.cards.len() == self.cards@.len());
                    assert(self.card_index(card_id) != -1);
                    assert(0 <= self.card_index(card_id) < self.cards@.len());
                    assert(Some(i) == Some(self.card_index(card_id) as usize));
                    assert(i as int == self.card_index(card_id));
                }
                let c = &self.cards[i];
                proof {
                    assert(*c == self.cards@[self.card_index(card_id)]);
                }
                Some(c)
            },
            None => None,
        }
    }

    /// The player registered under `player_id`, if any.
    pub fn get_player(&self, player_id: ObjectId) -> (r: Option<&Player>)
        ensures
            r is Some <==> self.player_index(player_id) != -1,
            r matches Some(p) ==> *p == self.players@[self.player_index(player_id)],
    {
        let pos = self.player_pos(player_id);
        proof {
            lemma_find_player(self.players@, player_id);
        }
        match pos {
            Some(i) => {
                proof {
                    assert(self.players.len() == self.players@.len());
                    assert(self.player_index(player_id) != -1);
                    assert(0 <= self.player_index(player_id) < self.players@.len());
                    assert(Some(i) == Some(self.player_index(player_id) as usize));
                    assert(i as int == self.player_index(player_id));
                }
                let p = &self.players[i];
                proof {
                    assert(*p == self.players@[self.player_index(player_id)]);
                }
                Some(p)
            },
            None => None,
        }
    }

    /// The identifiers of the registered players, in registration order.
    pub fn get_player_ids(&self) -> (r: Vec<ObjectId>)
        ensures
            r@ == self.players@.map_values(|p: Player| p.id),
    {
        let mut ids: Vec<ObjectId> = Vec::new();
        let mut i: usize = 0;
        while i < self.players.len()
            invariant
                0 <= i <= self.players@.len(),
                ids@ =~= self.players@.subrange(0, i as int).map_values(|p: Player| p.id),
            decreases self.players@.len() - i,
        {
            ids.push(self.players[i].id);
            i = i + 1;
        }
        proof {
            assert(self.players@.subrange(0, self.players@.len() as int) =~= self.players@);
        }
        ids
    }

    /// The player that `get_next_player` hands back: the one registered
    /// right after the first occurrence of `player_id`, wrapping to the
    /// first player, or `0` where no player exists.
    pub open spec fn next_player_spec(self, player_id: ObjectId) -> ObjectId {
        let i = self.player_index(player_id);
        if i != -1 && i + 1 < self.players@.len() {
            self.players@[i + 1].id
        } else if self.players@.len() > 0 {
            self.players@[0].id
        } else {
            0
        }
    }

    /// The player whose turn follows that of `player_id`.
    pub fn get_next_player(&self, player_id: ObjectId) -> (r: ObjectId)
        ensures
            r == self.next_player_spec(player_id),
    {
        proof {
            lemma_find_player(self.players@, player_id);
        }
        let mut i: usize = 0;
        while i < self.players.len()
            invariant
                0 <= i <= self.players@.len(),
                forall|j: int| 0 <= j < i ==> (#[trigger] self.players@[j]).id != player_id,
            decreases self.players@.len() - i,
        {
            if self.players[i].id == player_id {
                proof {
                    lemma_find_player(self.players@, player_id);
                    assert(self.player_index(player_id) == i);
                }
                if i + 1 < self.players.len() {
                    return self.players[i + 1].id;
                } else {
                    return self.players[0].id;
                }
            }
            i = i + 1;
        }
        proof {
            lemma_find_player(self.players@, player_id);
        }
        if self.players.len() > 0 {
            self.players[0].id
        } else {
            0
        }
    }
}

/// Marks an intermediate game state as the witness of a multi-step
/// relation.
pub open spec fn game_step_witness(g: Game) -> bool {
    true
}

/// What adding the mana amount `m` to the pool of `player_id` does: each
/// color grows, capped at the largest storable amount; an unknown player
/// leaves the game unchanged.
pub open spec fn mana_gained(g0: Game, g1: Game, player_id: ObjectId, m: Mana) -> bool {
    let pi = g0.player_index(player_id);
    if pi == -1 {
        g1 == g0
    } else {
        let p = g0.players@[pi];
        &&& g1 == (Game { players: g1.players, ..g0 })
        &&& g1.players@ == g0.players@.update(
            pi,
            Player {
                mana: Mana {
                    white: Mana::sat_add(p.mana.white, m.white),
                    red: Mana::sat_add(p.mana.red, m.red),
                    green: Mana::sat_add(p.mana.green, m.green),
                    blue: Mana::sat_add(p.mana.blue, m.blue),
                    black: Mana::sat_add(p.mana.black, m.black),
                    colorless: Mana::sat_add(p.mana.colorless, m.colorless),
                    any: p.mana.any,
                },
                ..p
            },
        )
    }
}

impl Default for Game {
    /// An empty game, as `Game::empty` builds it.
    fn default() -> (r: Game)
        ensures
            r.status == GameStatus::Play,
            r.uid_spec() == 0,
            r.players@ == Seq::<Player>::empty(),
            r.cards@ == Seq::<Card>::empty(),
            r.stack@ == Seq::<Resolve>::empty(),
            r.resolve is None,
            r.turn.is_fresh(0),
    {
        Game::empty()
    }
}

/// Adds mana to the pool of the given player; with an unknown player,
/// nothing happens.
pub fn add_mana(game: &mut Game, player_id: ObjectId, mana: Mana)
    ensures
        mana_gained(*old(game), *final(game), player_id, mana),
{
    proof {
        lemma_find_player(game.players@, player_id);
    }
    match game.player_pos(player_id) {
        Some(i) => {
            proof {
                assert(game.players.len() == game.players@.len());
                assert(i as int == old(game).player_index(player_id));
            }
            let ghost p = game.players@[i as int];
            let player = &mut game.players[i];
            player.mana.gain(&mana);
            proof {
                assert(game.players@ =~= old(game).players@.update(
                    i as int,
                    Player {
                        mana: Mana {
                            white: Mana::sat_add(p.mana.white, mana.white),
                            red: Mana::sat_add(p.mana.red, mana.red),
                            green: Mana::sat_add(p.mana.green, mana.green),
                            blue: Mana::sat_add(p.mana.blue, mana.blue),
                            black: Mana::sat_add(p.mana.black, mana.black),
                            colorless: Mana::sat_add(p.mana.colorless, mana.colorless),
                            any: p.mana.any,
                        },
                        ..p
                    },
                ));
            }
        },
        None => {},
    }
}

} // verus!
