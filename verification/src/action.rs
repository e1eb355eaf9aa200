//! Actions: a requirement triple bound to the player's concrete choices.

use vstd::prelude::*;

use crate::abilities::Cost;
use crate::abilities::Effect;
use crate::abilities::Target;
use crate::game::ObjectId;
use crate::mana::Mana;

verus! {

broadcast use vstd::std_specs::vec::group_vec_axioms, vstd::seq::group_seq_axioms;

/// A player's concrete selection answering a requirement: nothing, a mana
/// amount, a player, a card, or a conjunction of selections.
#[derive(Debug)]
pub enum Choice {
    Nothing,
    Mana(Mana),
    Player(ObjectId),
    Card(ObjectId),
    And(Vec<Choice>),
}

/// The mathematical value of a [`Choice`].
pub enum ChoiceView {
    Nothing,
    Mana(Mana),
    Player(ObjectId),
    Card(ObjectId),
    And(Seq<ChoiceView>),
}

/// The mathematical value of a choice.
pub open spec fn choice_view(c: Choice) -> ChoiceView
    decreases c,
    via choice_view_via
{
    match c {
        Choice::Nothing => ChoiceView::Nothing,
        Choice::Mana(m) => ChoiceView::Mana(m),
        Choice::Player(p) => ChoiceView::Player(p),
        Choice::Card(id) => ChoiceView::Card(id),
        Choice::And(cs) => ChoiceView::And(
            Seq::new(
                cs@.len(),
                |i: int|
                    if 0 <= i < cs@.len() {
                        choice_view(cs@[i])
                    } else {
                        ChoiceView::Nothing
                    },
            ),
        ),
    }
}

#[via_fn]
proof fn choice_view_via(c: Choice) {
    if let Choice::And(cs) = c {
        assert(decreases_to!(c => c->And_0));
        assert(decreases_to!(cs => cs@));
        assert forall|i: int| 0 <= i < cs@.len() implies decreases_to!(c => cs@[i]) by {
            assert(decreases_to!(cs@ => cs@[i]));
        }
    }
}

/// The values of the listed choices, in order.
pub open spec fn choice_views(s: Seq<Choice>) -> Seq<ChoiceView> {
    Seq::new(
        s.len(),
        |i: int|
            if 0 <= i < s.len() {
                choice_view(s[i])
            } else {
                ChoiceView::Nothing
            },
    )
}

/// What `choice_view` makes of a conjunction.
pub proof fn lemma_choice_view_and(cs: Vec<Choice>)
    ensures
        choice_view(Choice::And(cs)) == ChoiceView::And(choice_views(cs@)),
{
    let v = choice_view(Choice::And(cs));
    assert(v is And);
    assert(v->And_0 =~= choice_views(cs@));
}

impl View for Choice {
    type V = ChoiceView;

    open spec fn view(&self) -> ChoiceView {
        choice_view(*self)
    }
}

impl Choice {
    /// A copy of this choice with the same value.
    pub fn duplicate(&self) -> (r: Choice)
        ensures
            r@ == self@,
        decreases *self,
    {
        match self {
            Choice::Nothing => Choice::Nothing,
            Choice::Mana(m) => Choice::Mana(*m),
            Choice::Player(p) => Choice::Player(*p),
            Choice::Card(c) => Choice::Card(*c),
            Choice::And(choices) => {
                let mut copy: Vec<Choice> = Vec::new();
                let mut i: usize = 0;
                while i < choices.len()
                    invariant
                        *self == Choice::And(*choices),
                        0 <= i <= choices@.len(),
                        copy@.len() == i,
                        forall|j: int| 0 <= j < i ==> (#[trigger] copy@[j])@ == choices@[j]@,
                    decreases choices@.len() - i,
                {
                    proof {
                        assert(decreases_to!(*self => self->And_0));
                        assert(decreases_to!(*choices => choices@));
                        assert(decreases_to!(choices@ => choices@[i as int]));
                        assert(decreases_to!(*self => choices@[i as int]));
                    }
                    copy.push(choices[i].duplicate());
                    i = i + 1;
                }
                proof {
                    lemma_choice_view_and(copy);
                    lemma_choice_view_and(*choices);
                    assert(choice_views(copy@) =~= choice_views(choices@));
                }
                Choice::And(copy)
            },
        }
    }
}

/// Whether the two choices have the same value.
pub fn choice_eq(a: &Choice, b: &Choice) -> (r: bool)
    ensures
        r == (a@ == b@),
    decreases *a,
{
    match (a, b) {
        (Choice::Nothing, Choice::Nothing) => true,
        (Choice::Mana(x), Choice::Mana(y)) => x == y,
        (Choice::Player(x), Choice::Player(y)) => x == y,
        (Choice::Card(x), Choice::Card(y)) => x == y,
        (Choice::And(xs), Choice::And(ys)) => {
            proof {
                assert(*a == Choice::And(*xs));
                assert(*b == Choice::And(*ys));
                lemma_choice_view_and(*xs);
                lemma_choice_view_and(*ys);
            }
            if xs.len() != ys.len() {
                proof {
                    assert(choice_views(xs@).len() == xs@.len());
                    assert(choice_views(ys@).len() == ys@.len());
                }
                return false;
            }
            let mut i: usize = 0;
            while i < xs.len()
                invariant
                    *a == Choice::And(*xs),
                    *b == Choice::And(*ys),
                    0 <= i <= xs@.len(),
                    xs@.len() == ys@.len(),
                    forall|j: int| 0 <= j < i ==> choice_views(xs@)[j] == choice_views(ys@)[j],
                decreases xs@.len() - i,
            {
                proof {
                    assert(decreases_to!(*a => a->And_0));
                    assert(decreases_to!(*xs => xs@));
                    assert(decreases_to!(xs@ => xs@[i as int]));
                    assert(decreases_to!(*a => xs@[i as int]));
                }
                if !choice_eq(&xs[i], &ys[i]) {
                    proof {
                        lemma_choice_view_and(*xs);
                        lemma_choice_view_and(*ys);
                        assert(choice_views(xs@)[i as int] != choice_views(ys@)[i as int]);
                    }
                    return false;
                }
                i = i + 1;
            }
            proof {
                lemma_choice_view_and(*xs);
                lemma_choice_view_and(*ys);
                assert(choice_views(xs@) =~= choice_views(ys@));
            }
            true
        },
        _ => false,
    }
}

impl PartialEq for Choice {
    fn eq(&self, other: &Choice) -> (r: bool) {
        choice_eq(self, other)
    }
}

impl vstd::std_specs::cmp::PartialEqSpecImpl for Choice {
    open spec fn obeys_eq_spec() -> bool {
        true
    }

    open spec fn eq_spec(&self, other: &Choice) -> bool {
        self@ == other@
    }
}

impl Clone for Choice {
    /// A copy of this choice with the same value.
    fn clone(&self) -> (r: Choice)
        ensures
            r@ == self@,
    {
        self.duplicate()
    }
}

impl Default for Choice {
    /// The empty choice.
    fn default() -> (r: Choice)
        ensures
            r@ == ChoiceView::Nothing,
    {
        Choice::Nothing
    }
}

/// Whether the choice supplies a mana amount that can pay `cost`: a mana
/// selection whose amount is enough, or a conjunction with such a member.
pub open spec fn choice_validates_mana(c: ChoiceView, cost: Mana) -> bool
    decreases c, 0int,
    via choice_validates_mana_via
{
    match c {
        ChoiceView::Mana(m) => m.enough_spec(cost),
        ChoiceView::And(cs) => any_validates_mana(cs, cost),
        _ => false,
    }
}

#[via_fn]
proof fn choice_validates_mana_via(c: ChoiceView, cost: Mana) {
    if let ChoiceView::And(cs) = c {
        assert(decreases_to!(c => c->And_0));
    }
}

/// Whether some listed choice supplies a mana amount that can pay `cost`.
pub open spec fn any_validates_mana(cs: Seq<ChoiceView>, cost: Mana) -> bool
    decreases cs, 1int,
    via any_validates_mana_via
{
    if cs.len() == 0 {
        false
    } else {
        choice_validates_mana(cs[0], cost) || any_validates_mana(cs.drop_first(), cost)
    }
}

#[via_fn]
proof fn any_validates_mana_via(cs: Seq<ChoiceView>, cost: Mana) {
    if cs.len() > 0 {
        assert(decreases_to!(cs => cs[0]));
    }
}

/// Whether the choice picks exactly the card `card_id`: that card choice,
/// or a conjunction with such a member.
pub open spec fn choice_validates_card(c: ChoiceView, card_id: ObjectId) -> bool
    decreases c, 0int,
    via choice_validates_card_via
{
    match c {
        ChoiceView::Card(chosen) => chosen == card_id,
        ChoiceView::And(cs) => any_validates_card(cs, card_id),
        _ => false,
    }
}

#[via_fn]
proof fn choice_validates_card_via(c: ChoiceView, card_id: ObjectId) {
    if let ChoiceView::And(cs) = c {
        assert(decreases_to!(c => c->And_0));
    }
}

/// Whether some listed choice picks exactly the card `card_id`.
pub open spec fn any_validates_card(cs: Seq<ChoiceView>, card_id: ObjectId) -> bool
    decreases cs, 1int,
    via any_validates_card_via
{
    if cs.len() == 0 {
        false
    } else {
        choice_validates_card(cs[0], card_id) || any_validates_card(cs.drop_first(), card_id)
    }
}

#[via_fn]
proof fn any_validates_card_via(cs: Seq<ChoiceView>, card_id: ObjectId) {
    if cs.len() > 0 {
        assert(decreases_to!(cs => cs[0]));
    }
}

/// Whether the choice picks a player, and the named one where `player_id`
/// names one.
pub open spec fn choice_validates_player(c: ChoiceView, player_id: Option<ObjectId>) -> bool
    decreases c, 0int,
    via choice_validates_player_via
{
    match c {
        ChoiceView::Player(chosen) => player_id is None || player_id == Some(chosen),
        ChoiceView::And(cs) => any_validates_player(cs, player_id),
        _ => false,
    }
}

#[via_fn]
proof fn choice_validates_player_via(c: ChoiceView, player_id: Option<ObjectId>) {
    if let ChoiceView::And(cs) = c {
        assert(decreases_to!(c => c->And_0));
    }
}

/// Whether some listed choice picks a player as `player_id` asks.
pub open spec fn any_validates_player(cs: Seq<ChoiceView>, player_id: Option<ObjectId>) -> bool
    decreases cs, 1int,
    via any_validates_player_via
{
    if cs.len() == 0 {
        false
    } else {
        choice_validates_player(cs[0], player_id) || any_validates_player(
            cs.drop_first(),
            player_id,
        )
    }
}

#[via_fn]
proof fn any_validates_player_via(cs: Seq<ChoiceView>, player_id: Option<ObjectId>) {
    if cs.len() > 0 {
        assert(decreases_to!(cs => cs[0]));
    }
}

/// The first registered creature the choice picks, if any.
pub open spec fn chosen_creature(c: ChoiceView, g: crate::game::Game) -> Option<ObjectId>
    decreases c, 0int,
    via chosen_creature_via
{
    match c {
        ChoiceView::Card(id) => if crate::game::find_card(g.cards@, id) != -1
            && g.cards@[crate::game::find_card(g.cards@, id)].kind
            == crate::card::CardType::Creature {
            Some(id)
        } else {
            None
        },
        ChoiceView::And(cs) => first_chosen_creature(cs, g),
        _ => None,
    }
}

#[via_fn]
proof fn chosen_creature_via(c: ChoiceView, g: crate::game::Game) {
    if let ChoiceView::And(cs) = c {
        assert(decreases_to!(c => c->And_0));
    }
}

/// The first creature picked among the listed choices, if any.
pub open spec fn first_chosen_creature(cs: Seq<ChoiceView>, g: crate::game::Game) -> Option<
    ObjectId,
>
    decreases cs, 1int,
    via first_chosen_creature_via
{
    if cs.len() == 0 {
        None
    } else {
        let head = chosen_creature(cs[0], g);
        if head is Some {
            head
        } else {
            first_chosen_creature(cs.drop_first(), g)
        }
    }
}

#[via_fn]
proof fn first_chosen_creature_via(cs: Seq<ChoiceView>, g: crate::game::Game) {
    if cs.len() > 0 {
        assert(decreases_to!(cs => cs[0]));
    }
}

impl Choice {
    /// Whether this choice supplies mana enough for the given cost.
    pub fn validate_mana(&self, cost: &Mana) -> (r: bool)
        ensures
            r == choice_validates_mana(self@, *cost),
        decreases *self,
    {
        match self {
            Choice::Mana(mana) => mana.enough(cost),
            Choice::And(choices) => {
                proof {
                    lemma_choice_view_and(*choices);
                }
                let ghost cs = choice_views(choices@);
                proof {
                    assert(cs.subrange(0, cs.len() as int) =~= cs);
                }
                let mut i: usize = 0;
                while i < choices.len()
                    invariant
                        *self == Choice::And(*choices),
                        0 <= i <= choices@.len(),
                        cs == choice_views(choices@),
                        any_validates_mana(cs, *cost) == any_validates_mana(
                            cs.subrange(i as int, cs.len() as int),
                            *cost,
                        ),
                    decreases choices@.len() - i,
                {
                    proof {
                        assert(decreases_to!(*self => self->And_0));
                        assert(decreases_to!(*choices => choices@));
                        assert(decreases_to!(choices@ => choices@[i as int]));
                        assert(decreases_to!(*self => choices@[i as int]));
                    }
                    let hit = choices[i].validate_mana(cost);
                    proof {
                        assert(cs.subrange(i as int, cs.len() as int)[0] == cs[i as int]);
                        assert(cs.subrange(i as int, cs.len() as int).drop_first() =~= cs.subrange(
                            i + 1,
                            cs.len() as int,
                        ));
                        lemma_choice_view_and(*choices);
                    }
                    if hit {
                        return true;
                    }
                    i = i + 1;
                }
                proof {
                    lemma_choice_view_and(*choices);
                    assert(cs.subrange(cs.len() as int, cs.len() as int).len() == 0);
                }
                false
            },
            _ => false,
        }
    }

    /// Whether this choice picks exactly the card `card_id`.
    pub fn validate_card(&self, card_id: ObjectId) -> (r: bool)
        ensures
            r == choice_validates_card(self@, card_id),
        decreases *self,
    {
        match self {
            Choice::Card(chosen) => *chosen == card_id,
            Choice::And(choices) => {
                proof {
                    lemma_choice_view_and(*choices);
                }
                let ghost cs = choice_views(choices@);
                proof {
                    assert(cs.subrange(0, cs.len() as int) =~= cs);
                }
                let mut i: usize = 0;
                while i < choices.len()
                    invariant
                        *self == Choice::And(*choices),
                        0 <= i <= choices@.len(),
                        cs == choice_views(choices@),
                        any_validates_card(cs, card_id) == any_validates_card(
                            cs.subrange(i as int, cs.len() as int),
                            card_id,
                        ),
                    decreases choices@.len() - i,
                {
                    proof {
                        assert(decreases_to!(*self => self->And_0));
                        assert(decreases_to!(*choices => choices@));
                        assert(decreases_to!(choices@ => choices@[i as int]));
                        assert(decreases_to!(*self => choices@[i as int]));
                    }
                    let hit = choices[i].validate_card(card_id);
                    proof {
                        assert(cs.subrange(i as int, cs.len() as int)[0] == cs[i as int]);
                        assert(cs.subrange(i as int, cs.len() as int).drop_first() =~= cs.subrange(
                            i + 1,
                            cs.len() as int,
                        ));
                        lemma_choice_view_and(*choices);
                    }
                    if hit {
                        return true;
                    }
                    i = i + 1;
                }
                proof {
                    lemma_choice_view_and(*choices);
                    assert(cs.subrange(cs.len() as int, cs.len() as int).len() == 0);
                }
                false
            },
            _ => false,
        }
    }

    /// Whether this choice picks a player, and the named one where
    /// `player_id` names one.
    pub fn validate_player(&self, player_id: Option<ObjectId>) -> (r: bool)
        ensures
            r == choice_validates_player(self@, player_id),
        decreases *self,
    {
        match self {
            Choice::Player(chosen) => match player_id {
                None => true,
                Some(p) => p == *chosen,
            },
            Choice::And(choices) => {
                proof {
                    lemma_choice_view_and(*choices);
                }
                let ghost cs = choice_views(choices@);
                proof {
                    assert(cs.subrange(0, cs.len() as int) =~= cs);
                }
                let mut i: usize = 0;
                while i < choices.len()
                    invariant
                        *self == Choice::And(*choices),
                        0 <= i <= choices@.len(),
                        cs == choice_views(choices@),
                        any_validates_player(cs, player_id) == any_validates_player(
                            cs.subrange(i as int, cs.len() as int),
                            player_id,
                        ),
                    decreases choices@.len() - i,
                {
                    proof {
                        assert(decreases_to!(*self => self->And_0));
                        assert(decreases_to!(*choices => choices@));
                        assert(decreases_to!(choices@ => choices@[i as int]));
                        assert(decreases_to!(*self => choices@[i as int]));
                    }
                    let hit = choices[i].validate_player(player_id);
                    proof {
                        assert(cs.subrange(i as int, cs.len() as int)[0] == cs[i as int]);
                        assert(cs.subrange(i as int, cs.len() as int).drop_first() =~= cs.subrange(
                            i + 1,
                            cs.len() as int,
                        ));
                        lemma_choice_view_and(*choices);
                    }
                    if hit {
                        return true;
                    }
                    i = i + 1;
                }
                proof {
                    lemma_choice_view_and(*choices);
                    assert(cs.subrange(cs.len() as int, cs.len() as int).len() == 0);
                }
                false
            },
            _ => false,
        }
    }

    /// The first registered creature this choice picks, if any.
    pub fn validate_creature(&self, game: &crate::game::Game) -> (r: Option<ObjectId>)
        ensures
            r == chosen_creature(self@, *game),
        decreases *self,
    {
        match self {
            Choice::Card(card_id) => {
                match game.get_card(*card_id) {
                    Some(card) => {
                        if matches!(card.kind, crate::card::CardType::Creature) {
                            Some(*card_id)
                        } else {
                            None
                        }
                    },
                    None => None,
                }
            },
            Choice::And(choices) => {
                proof {
                    lemma_choice_view_and(*choices);
                }
                let ghost cs = choice_views(choices@);
                proof {
                    assert(cs.subrange(0, cs.len() as int) =~= cs);
                }
                let mut i: usize = 0;
                while i < choices.len()
                    invariant
                        *self == Choice::And(*choices),
                        0 <= i <= choices@.len(),
                        cs == choice_views(choices@),
                        first_chosen_creature(cs, *game) == first_chosen_creature(
                            cs.subrange(i as int, cs.len() as int),
                            *game,
                        ),
                    decreases choices@.len() - i,
                {
                    proof {
                        assert(decreases_to!(*self => self->And_0));
                        assert(decreases_to!(*choices => choices@));
                        assert(decreases_to!(choices@ => choices@[i as int]));
                        assert(decreases_to!(*self => choices@[i as int]));
                    }
                    let head = choices[i].validate_creature(game);
                    proof {
                        assert(cs.subrange(i as int, cs.len() as int)[0] == cs[i as int]);
                        assert(cs.subrange(i as int, cs.len() as int).drop_first() =~= cs.subrange(
                            i + 1,
                            cs.len() as int,
                        ));
                    }
                    if head.is_some() {
                        proof {
                            lemma_choice_view_and(*choices);
                        }
                        return head;
                    }
                    i = i + 1;
                }
                proof {
                    lemma_choice_view_and(*choices);
                    assert(cs.subrange(cs.len() as int, cs.len() as int).len() == 0);
                }
                None
            },
            _ => None,
        }
    }
}

/// The static requirement triple an action must satisfy.
#[derive(Debug)]
pub struct Required {
    pub cost: Cost,
    pub target: Target,
    pub effect: Effect,
}

/// The concrete choices supplied for the three requirement slots.
#[derive(Debug)]
pub struct Choices {
    pub cost: Choice,
    pub target: Choice,
    pub effect: Choice,
}

/// One attempt by a player to play a card or an ability: the actor, the
/// source card, the requirement triple, and the choices answering it.
#[derive(Debug)]
pub struct Action {
    pub player_id: ObjectId,
    pub card_id: ObjectId,
    pub required: Required,
    pub choices: Choices,
}

/// The mathematical value of an [`Action`].
pub struct ActionView {
    pub player_id: ObjectId,
    pub card_id: ObjectId,
    pub required_cost: crate::abilities::CostView,
    pub required_target: crate::abilities::TargetView,
    pub required_effect: crate::abilities::EffectView,
    pub chosen_cost: ChoiceView,
    pub chosen_target: ChoiceView,
    pub chosen_effect: ChoiceView,
}

impl View for Action {
    type V = ActionView;

    open spec fn view(&self) -> ActionView {
        ActionView {
            player_id: self.player_id,
            card_id: self.card_id,
            required_cost: self.required.cost@,
            required_target: self.required.target@,
            required_effect: self.required.effect@,
            chosen_cost: self.choices.cost@,
            chosen_target: self.choices.target@,
            chosen_effect: self.choices.effect@,
        }
    }
}

impl Action {
    /// A fresh action for the given actor and source card, with no
    /// requirements and no choices.
    pub fn new(player_id: ObjectId, card_id: ObjectId) -> (r: Action)
        ensures
            r@ == (ActionView {
                player_id,
                card_id,
                required_cost: crate::abilities::CostView::Nothing,
                required_target: crate::abilities::TargetView::Nothing,
                required_effect: crate::abilities::EffectView::Nothing,
                chosen_cost: ChoiceView::Nothing,
                chosen_target: ChoiceView::Nothing,
                chosen_effect: ChoiceView::Nothing,
            }),
    {
        Action {
            player_id,
            card_id,
            required: Required {
                cost: Cost::Nothing,
                target: Target::Nothing,
                effect: Effect::Nothing,
            },
            choices: Choices {
                cost: Choice::Nothing,
                target: Choice::Nothing,
                effect: Choice::Nothing,
            },
        }
    }

    pub fn set_required_cost(&mut self, cost: Cost)
        ensures
            final(self)@ == (ActionView { required_cost: cost@, ..old(self)@ }),
    {
        self.required.cost = cost;
    }

    /// Records the required target.  An `Owner` target needs no decision, so
    /// its choice is seeded with the actor at once.
    pub fn set_required_target(&mut self, target: Target)
        ensures
            final(self)@ == (ActionView {
                required_target: target@,
                chosen_target: if target@ == crate::abilities::TargetView::Owner {
                    ChoiceView::Player(old(self).player_id)
                } else {
                    old(self)@.chosen_target
                },
                ..old(self)@
            }),
    {
        match target {
            Target::Owner => {
                self.choices.target = Choice::Player(self.player_id);
            },
            _ => {},
        }
        self.required.target = target;
    }

    pub fn set_required_effect(&mut self, effect: Effect)
        ensures
            final(self)@ == (ActionView { required_effect: effect@, ..old(self)@ }),
    {
        self.required.effect = effect;
    }
}


/// Whether the supplied choice pays the cost requirement: mana costs need
/// an enough mana selection, tapping the source needs the source chosen
/// and, for a creature, no summoning sickness, sacrifices need the source
/// or a battlefield creature of the actor, and a conjunction needs every
/// part paid by the same choice.
pub open spec fn cost_satisfied(
    g: crate::game::Game,
    cost: crate::abilities::CostView,
    choice: ChoiceView,
    card_id: ObjectId,
    player_id: ObjectId,
) -> bool
    decreases cost, 0int,
    via cost_satisfied_via
{
    match cost {
        crate::abilities::CostView::Nothing => true,
        crate::abilities::CostView::Mana(s) => choice_validates_mana(
            choice,
            Mana::parse_spec(s),
        ),
        crate::abilities::CostView::Tap(t) => match t {
            crate::abilities::TargetView::Source => choice_validates_card(choice, card_id) && (
            crate::game::find_card(g.cards@, card_id) != -1 ==> !(g.cards@[crate::game::find_card(
                g.cards@,
                card_id,
            )].kind == crate::card::CardType::Creature && g.cards@[crate::game::find_card(
                g.cards@,
                card_id,
            )].state.summoning_sickness.current)),
            _ => true,
        },
        crate::abilities::CostView::Sacrifice(t) => match t {
            crate::abilities::TargetView::Source => choice_validates_card(choice, card_id),
            crate::abilities::TargetView::Creature => chosen_creature(choice, g) matches Some(cid)
                && crate::game::find_card(g.cards@, cid) != -1 && g.cards@[crate::game::find_card(
                g.cards@,
                cid,
            )].zone == crate::card::Zone::Battlefield && g.cards@[crate::game::find_card(
                g.cards@,
                cid,
            )].owner_id == player_id,
            _ => false,
        },
        crate::abilities::CostView::And(costs) => all_costs_satisfied(
            g,
            costs,
            choice,
            card_id,
            player_id,
        ),
    }
}

#[via_fn]
proof fn cost_satisfied_via(
    g: crate::game::Game,
    cost: crate::abilities::CostView,
    choice: ChoiceView,
    card_id: ObjectId,
    player_id: ObjectId,
) {
    if let crate::abilities::CostView::And(costs) = cost {
        assert(decreases_to!(cost => cost->And_0));
    }
}

/// Whether every listed cost is paid by the same choice.
pub open spec fn all_costs_satisfied(
    g: crate::game::Game,
    costs: Seq<crate::abilities::CostView>,
    choice: ChoiceView,
    card_id: ObjectId,
    player_id: ObjectId,
) -> bool
    decreases costs, 1int,
    via all_costs_satisfied_via
{
    if costs.len() == 0 {
        true
    } else {
        cost_satisfied(g, costs[0], choice, card_id, player_id) && all_costs_satisfied(
            g,
            costs.drop_first(),
            choice,
            card_id,
            player_id,
        )
    }
}

#[via_fn]
proof fn all_costs_satisfied_via(
    g: crate::game::Game,
    costs: Seq<crate::abilities::CostView>,
    choice: ChoiceView,
    card_id: ObjectId,
    player_id: ObjectId,
) {
    if costs.len() > 0 {
        assert(decreases_to!(costs => costs[0]));
    }
}

/// Whether the supplied choice satisfies the target requirement: the
/// source itself, any player, the actor, a registered creature, or any one
/// of the listed alternatives.
pub open spec fn target_satisfied(
    g: crate::game::Game,
    target: crate::abilities::TargetView,
    choice: ChoiceView,
    card_id: ObjectId,
    player_id: ObjectId,
) -> bool
    decreases target, 0int,
    via target_satisfied_via
{
    match target {
        crate::abilities::TargetView::Nothing => true,
        crate::abilities::TargetView::Source => choice_validates_card(choice, card_id),
        crate::abilities::TargetView::Player => choice_validates_player(choice, None),
        crate::abilities::TargetView::Creature => chosen_creature(choice, g) is Some,
        crate::abilities::TargetView::Owner => choice_validates_player(choice, Some(player_id)),
        crate::abilities::TargetView::AnyOf(options) => any_target_satisfied(
            g,
            options,
            choice,
            card_id,
            player_id,
        ),
    }
}

#[via_fn]
proof fn target_satisfied_via(
    g: crate::game::Game,
    target: crate::abilities::TargetView,
    choice: ChoiceView,
    card_id: ObjectId,
    player_id: ObjectId,
) {
    if let crate::abilities::TargetView::AnyOf(options) = target {
        assert(decreases_to!(target => target->AnyOf_0));
    }
}

/// Whether the choice satisfies one of the listed target alternatives.
pub open spec fn any_target_satisfied(
    g: crate::game::Game,
    options: Seq<crate::abilities::TargetView>,
    choice: ChoiceView,
    card_id: ObjectId,
    player_id: ObjectId,
) -> bool
    decreases options, 1int,
    via any_target_satisfied_via
{
    if options.len() == 0 {
        false
    } else {
        target_satisfied(g, options[0], choice, card_id, player_id) || any_target_satisfied(
            g,
            options.drop_first(),
            choice,
            card_id,
            player_id,
        )
    }
}

#[via_fn]
proof fn any_target_satisfied_via(
    g: crate::game::Game,
    options: Seq<crate::abilities::TargetView>,
    choice: ChoiceView,
    card_id: ObjectId,
    player_id: ObjectId,
) {
    if options.len() > 0 {
        assert(decreases_to!(options => options[0]));
    }
}


/// Whether the registered card is a creature that still has summoning
/// sickness.
fn summoning_sick_creature(game: &crate::game::Game, card_id: ObjectId) -> (r: bool)
    ensures
        r == (game.card_index(card_id) != -1 && game.cards@[game.card_index(card_id)].kind
            == crate::card::CardType::Creature && game.cards@[game.card_index(
            card_id,
        )].state.summoning_sickness.current),
{
    match game.get_card(card_id) {
        Some(card) => matches!(card.kind, crate::card::CardType::Creature)
            && card.state.summoning_sickness.current,
        None => false,
    }
}

/// Whether the registered card sits on the battlefield and belongs to the
/// given player.
fn battlefield_card_of(game: &crate::game::Game, card_id: ObjectId, player_id: ObjectId) -> (r:
    bool)
    ensures
        r == (game.card_index(card_id) != -1 && game.cards@[game.card_index(card_id)].zone
            == crate::card::Zone::Battlefield && game.cards@[game.card_index(card_id)].owner_id
            == player_id),
{
    match game.get_card(card_id) {
        Some(card) => matches!(card.zone, crate::card::Zone::Battlefield) && card.owner_id
            == player_id,
        None => false,
    }
}

/// Whether one discard choice picks a registered card of the actor.
pub open spec fn owned_card(g: crate::game::Game, c: ChoiceView, player_id: ObjectId) -> bool {
    c matches ChoiceView::Card(cid) && crate::game::find_card(g.cards@, cid) != -1
        && g.cards@[crate::game::find_card(g.cards@, cid)].owner_id == player_id
}

/// Whether the choice picks a registered card of the actor.
fn check_owned_card(game: &crate::game::Game, choice: &Choice, player_id: ObjectId) -> (r: bool)
    ensures
        r == owned_card(*game, choice@, player_id),
{
    match choice {
        Choice::Card(card_id) => {
            proof {
                assert(*choice == Choice::Card(*card_id));
            }
            match game.get_card(*card_id) {
                Some(card) => card.owner_id == player_id,
                None => false,
            }
        },
        _ => false,
    }
}

/// Whether every listed choice picks a registered card of the actor.
pub open spec fn all_owned_cards(
    g: crate::game::Game,
    cs: Seq<ChoiceView>,
    player_id: ObjectId,
) -> bool
    decreases cs,
{
    if cs.len() == 0 {
        true
    } else {
        owned_card(g, cs[0], player_id) && all_owned_cards(g, cs.drop_first(), player_id)
    }
}

/// Whether the supplied choice satisfies the effect requirement: a mana
/// effect needs an enough mana selection, a discard of `n` needs exactly
/// `n` chosen cards of the actor, and every other effect needs nothing.
pub open spec fn effect_satisfied(
    g: crate::game::Game,
    effect: crate::abilities::EffectView,
    choice: ChoiceView,
    player_id: ObjectId,
) -> bool {
    match effect {
        crate::abilities::EffectView::Mana(m) => choice_validates_mana(choice, m),
        crate::abilities::EffectView::Discard(n) => choice matches ChoiceView::And(cs) && cs.len()
            == n && all_owned_cards(g, cs, player_id),
        _ => true,
    }
}

/// Whether the action's three choices satisfy its three requirements.
pub open spec fn action_valid(g: crate::game::Game, a: ActionView) -> bool {
    &&& cost_satisfied(g, a.required_cost, a.chosen_cost, a.card_id, a.player_id)
    &&& target_satisfied(g, a.required_target, a.chosen_target, a.card_id, a.player_id)
    &&& effect_satisfied(g, a.required_effect, a.chosen_effect, a.player_id)
}

impl Action {
    /// Whether this action's choices pay the cost requirement `cost`.
    pub fn valid_cost(&self, game: &crate::game::Game, cost: &Cost) -> (r: bool)
        ensures
            r == cost_satisfied(*game, cost@, self.choices.cost@, self.card_id, self.player_id),
        decreases *cost,
    {
        match cost {
            Cost::Nothing => true,
            Cost::Mana(mana) => {
                let required = Mana::from(*mana);
                proof {
                    assert(*cost == Cost::Mana(*mana));
                    assert(required == Mana::parse_spec(mana@));
                }
                self.choices.cost.validate_mana(&required)
            },
            Cost::Tap(target) => match target {
                Target::Source => {
                    proof {
                        assert(*cost == Cost::Tap(Target::Source));
                    }
                    self.choices.cost.validate_card(self.card_id) && !summoning_sick_creature(
                        game,
                        self.card_id,
                    )
                },
                _ => true,
            },
            Cost::Sacrifice(target) => match target {
                Target::Source => self.choices.cost.validate_card(self.card_id),
                Target::Creature => {
                    proof {
                        assert(*cost == Cost::Sacrifice(Target::Creature));
                    }
                    match self.choices.cost.validate_creature(game) {
                        Some(creature_id) => battlefield_card_of(game, creature_id, self.player_id),
                        None => false,
                    }
                },
                _ => false,
            },
            Cost::And(costs) => {
                proof {
                    crate::abilities::lemma_cost_view_and(*costs);
                }
                let ghost cvs = crate::abilities::cost_views(costs@);
                proof {
                    assert(cvs.subrange(0, cvs.len() as int) =~= cvs);
                }
                let mut i: usize = 0;
                while i < costs.len()
                    invariant
                        *cost == Cost::And(*costs),
                        0 <= i <= costs@.len(),
                        cvs == crate::abilities::cost_views(costs@),
                        all_costs_satisfied(
                            *game,
                            cvs,
                            self.choices.cost@,
                            self.card_id,
                            self.player_id,
                        ) == all_costs_satisfied(
                            *game,
                            cvs.subrange(i as int, cvs.len() as int),
                            self.choices.cost@,
                            self.card_id,
                            self.player_id,
                        ),
                    decreases costs@.len() - i,
                {
                    proof {
                        assert(decreases_to!(*cost => cost->And_0));
                        assert(decreases_to!(*costs => costs@));
                        assert(decreases_to!(costs@ => costs@[i as int]));
                        assert(decreases_to!(*cost => costs@[i as int]));
                    }
                    let ok = self.valid_cost(game, &costs[i]);
                    proof {
                        assert(cvs.subrange(i as int, cvs.len() as int)[0] == cvs[i as int]);
                        assert(cvs.subrange(i as int, cvs.len() as int).drop_first()
                            =~= cvs.subrange(i + 1, cvs.len() as int));
                        crate::abilities::lemma_cost_view_and(*costs);
                    }
                    if !ok {
                        return false;
                    }
                    i = i + 1;
                }
                proof {
                    crate::abilities::lemma_cost_view_and(*costs);
                    assert(cvs.subrange(cvs.len() as int, cvs.len() as int).len() == 0);
                }
                true
            },
        }
    }

    /// Whether this action's choices satisfy the target requirement
    /// `target`.
    pub fn valid_target(&self, game: &crate::game::Game, target: &Target) -> (r: bool)
        ensures
            r == target_satisfied(
                *game,
                target@,
                self.choices.target@,
                self.card_id,
                self.player_id,
            ),
        decreases *target,
    {
        match target {
            Target::Nothing => true,
            Target::Source => self.choices.target.validate_card(self.card_id),
            Target::Player => self.choices.target.validate_player(None),
            Target::Creature => self.choices.target.validate_creature(game).is_some(),
            Target::Owner => self.choices.target.validate_player(Some(self.player_id)),
            Target::AnyOf(options) => {
                proof {
                    crate::abilities::lemma_target_view_any_of(*options);
                }
                let ghost tvs = crate::abilities::target_views(options@);
                proof {
                    assert(tvs.subrange(0, tvs.len() as int) =~= tvs);
                }
                let mut i: usize = 0;
                while i < options.len()
                    invariant
                        *target == Target::AnyOf(*options),
                        0 <= i <= options@.len(),
                        tvs == crate::abilities::target_views(options@),
                        any_target_satisfied(
                            *game,
                            tvs,
                            self.choices.target@,
                            self.card_id,
                            self.player_id,
                        ) == any_target_satisfied(
                            *game,
                            tvs.subrange(i as int, tvs.len() as int),
                            self.choices.target@,
                            self.card_id,
                            self.player_id,
                        ),
                    decreases options@.len() - i,
                {
                    proof {
                        assert(decreases_to!(*target => target->AnyOf_0));
                        assert(decreases_to!(*options => options@));
                        assert(decreases_to!(options@ => options@[i as int]));
                        assert(decreases_to!(*target => options@[i as int]));
                    }
                    let hit = self.valid_target(game, &options[i]);
                    proof {
                        assert(tvs.subrange(i as int, tvs.len() as int)[0] == tvs[i as int]);
                        assert(tvs.subrange(i as int, tvs.len() as int).drop_first()
                            =~= tvs.subrange(i + 1, tvs.len() as int));
                        crate::abilities::lemma_target_view_any_of(*options);
                    }
                    if hit {
                        return true;
                    }
                    i = i + 1;
                }
                proof {
                    crate::abilities::lemma_target_view_any_of(*options);
                    assert(tvs.subrange(tvs.len() as int, tvs.len() as int).len() == 0);
                }
                false
            },
        }
    }

    /// Whether this action's choices satisfy its effect requirement.
    pub fn valid_effect(&self, game: &crate::game::Game) -> (r: bool)
        ensures
            r == effect_satisfied(
                *game,
                self.required.effect@,
                self.choices.effect@,
                self.player_id,
            ),
    {
        match &self.required.effect {
            Effect::Mana(mana) => {
                proof {
                    assert(self.required.effect == Effect::Mana(*mana));
                }
                self.choices.effect.validate_mana(mana)
            },
            Effect::Discard(card_count) => {
                proof {
                    assert(self.required.effect == Effect::Discard(*card_count));
                }
                match &self.choices.effect {
                    Choice::And(choices) => {
                        proof {
                            assert(self.choices.effect == Choice::And(*choices));
                            lemma_choice_view_and(*choices);
                        }
                        let ghost cs = choice_views(choices@);
                        proof {
                            assert(cs.subrange(0, cs.len() as int) =~= cs);
                        }
                        if choices.len() != *card_count {
                            return false;
                        }
                        let mut i: usize = 0;
                        while i < choices.len()
                            invariant
                                self.required.effect == Effect::Discard(*card_count),
                                choices@.len() == *card_count,
                                self.choices.effect == Choice::And(*choices),
                                0 <= i <= choices@.len(),
                                cs == choice_views(choices@),
                                all_owned_cards(*game, cs, self.player_id) == all_owned_cards(
                                    *game,
                                    cs.subrange(i as int, cs.len() as int),
                                    self.player_id,
                                ),
                            decreases choices@.len() - i,
                        {
                            let ok = check_owned_card(game, &choices[i], self.player_id);
                            proof {
                                assert(cs.subrange(i as int, cs.len() as int)[0] == cs[i as int]);
                                assert(cs.subrange(i as int, cs.len() as int).drop_first()
                                    =~= cs.subrange(i + 1, cs.len() as int));
                                lemma_choice_view_and(*choices);
                            }
                            if !ok {
                                proof {
                                    assert(!all_owned_cards(*game, cs, self.player_id));
                                }
                                return false;
                            }
                            i = i + 1;
                        }
                        proof {
                            lemma_choice_view_and(*choices);
                            assert(cs.subrange(cs.len() as int, cs.len() as int).len() == 0);
                        }
                        true
                    },
                    _ => false,
                }
            },
            _ => true,
        }
    }

    /// Whether this action may be performed: its choices satisfy the cost,
    /// the target and the effect requirements.  Validation never changes
    /// the game.
    pub fn valid(&self, game: &crate::game::Game) -> (r: bool)
        ensures
            r == action_valid(*game, self@),
    {
        self.valid_cost(game, &self.required.cost) && self.valid_target(
            game,
            &self.required.target,
        ) && self.valid_effect(game)
    }
}


/// What deducting the mana selection `m` from the actor's pool does:
/// succeeds and lowers each color, stopping at zero, or fails unchanged
/// for an unknown player.
pub open spec fn mana_paid(
    g0: crate::game::Game,
    g1: crate::game::Game,
    player_id: ObjectId,
    m: Mana,
    ok: bool,
) -> bool {
    let pi = g0.player_index(player_id);
    if pi == -1 {
        !ok && g1 == g0
    } else {
        let p = g0.players@[pi];
        &&& ok
        &&& g1 == (crate::game::Game { players: g1.players, ..g0 })
        &&& g1.players@ == g0.players@.update(
            pi,
            crate::game::Player {
                mana: Mana {
                    white: Mana::sat_sub(p.mana.white, m.white),
                    red: Mana::sat_sub(p.mana.red, m.red),
                    green: Mana::sat_sub(p.mana.green, m.green),
                    blue: Mana::sat_sub(p.mana.blue, m.blue),
                    black: Mana::sat_sub(p.mana.black, m.black),
                    colorless: Mana::sat_sub(p.mana.colorless, m.colorless),
                    any: p.mana.any,
                },
                ..p
            },
        )
    }
}

/// What tapping the chosen card as a cost does: exactly what `tap_card`
/// promises, with the action's source named as the cause.
pub open spec fn tap_paid(
    g0: crate::game::Game,
    g1: crate::game::Game,
    source: ObjectId,
    cid: ObjectId,
    ok: bool,
) -> bool {
    let ci = g0.card_index(cid);
    if ci == -1 {
        !ok && g1 == g0
    } else if !g0.cards@[ci].can_tap() {
        !ok && g1 == g0
    } else {
        &&& ok
        &&& crate::card::card_tap_flag_set(g0, g1.cards@, cid, true)
        &&& crate::events::stack_extended_by_triggers(
            (crate::game::Game { cards: g1.cards, ..g0 }),
            g1,
            crate::events::Event::Tap(
                crate::events::CardEvent {
                    source: Some(source),
                    owner: g0.cards@[ci].owner_id,
                    card: cid,
                },
            ),
        )
        &&& crate::events::triggers_all_fired(
            (crate::game::Game { cards: g1.cards, ..g0 }),
            g1,
            crate::events::Event::Tap(
                crate::events::CardEvent {
                    source: Some(source),
                    owner: g0.cards@[ci].owner_id,
                    card: cid,
                },
            ),
        )
    }
}

/// What sacrificing the chosen card does: it moves to the graveyard, and
/// the payment always counts as made.
pub open spec fn sacrifice_paid(
    g0: crate::game::Game,
    g1: crate::game::Game,
    cid: ObjectId,
    ok: bool,
) -> bool {
    &&& ok
    &&& (g0.card_index(cid) == -1 ==> g1 == g0)
    &&& (g0.card_index(cid) != -1 ==> crate::card::change_zone_post(
        g0,
        g1,
        cid,
        crate::card::Zone::Graveyard,
    ))
}

/// One primitive payment that a cost plan performs: deducting mana from
/// the actor's pool, tapping a chosen card, or sacrificing one.
#[derive(Clone, Copy, Debug)]
pub enum PayOp {
    /// Deduct the amount from the actor's pool.
    Deduct(Mana),
    /// Tap the card, crediting the action's source.
    TapCard(ObjectId),
    /// Move the card to the graveyard.
    Sacrifice(ObjectId),
}

/// A cost plan: whether the cost can be paid at all, the primitive
/// payments that pay it, in order, and the cards the plan has already
/// spoken for by tapping or sacrificing them.
pub struct PayPlan {
    pub ok: bool,
    pub ops: Seq<PayOp>,
    pub tapped: Seq<usize>,
    pub sacrificed: Seq<usize>,
}

/// The failed plan: nothing to do, the ledger as it was.
pub open spec fn plan_failed(tapped: Seq<usize>, sacked: Seq<usize>) -> PayPlan {
    PayPlan { ok: false, ops: Seq::<PayOp>::empty(), tapped, sacrificed: sacked }
}

/// Whether a tap payment of `cid` can still be made: the card sits
/// untapped on the battlefield and no earlier part of the plan taps or
/// sacrifices it.
pub open spec fn tap_plannable(
    g: crate::game::Game,
    cid: ObjectId,
    tapped: Seq<usize>,
    sacked: Seq<usize>,
) -> bool {
    &&& crate::game::find_card(g.cards@, cid) != -1
    &&& g.cards@[crate::game::find_card(g.cards@, cid)].can_tap()
    &&& !tapped.contains(cid)
    &&& !sacked.contains(cid)
}

/// The plan for paying one cost with one choice: mana choices plan a
/// deduction, card choices plan a tap or a sacrifice, a conjunction of
/// choices plans with its first fitting member, and a conjunction of
/// costs plans each part in turn with the same choice.  A part that
/// cannot be paid fails the whole plan, so payment is all or nothing.
pub open spec fn plan_cost(
    g: crate::game::Game,
    player_id: ObjectId,
    cost: crate::abilities::CostView,
    choice: ChoiceView,
    tapped: Seq<usize>,
    sacked: Seq<usize>,
) -> PayPlan
    decreases cost, choice, 0int,
    via plan_cost_via
{
    match cost {
        crate::abilities::CostView::Nothing => PayPlan {
            ok: true,
            ops: Seq::<PayOp>::empty(),
            tapped,
            sacrificed: sacked,
        },
        crate::abilities::CostView::Mana(_) => match choice {
            ChoiceView::Mana(m) => if crate::game::find_player(g.players@, player_id) != -1 {
                PayPlan {
                    ok: true,
                    ops: Seq::<PayOp>::empty().push(PayOp::Deduct(m)),
                    tapped,
                    sacrificed: sacked,
                }
            } else {
                plan_failed(tapped, sacked)
            },
            ChoiceView::And(cs) => plan_first(g, player_id, cost, cs, tapped, sacked),
            _ => plan_failed(tapped, sacked),
        },
        crate::abilities::CostView::Tap(_) => match choice {
            ChoiceView::Card(cid) => if tap_plannable(g, cid, tapped, sacked) {
                PayPlan {
                    ok: true,
                    ops: Seq::<PayOp>::empty().push(PayOp::TapCard(cid)),
                    tapped: tapped.push(cid),
                    sacrificed: sacked,
                }
            } else {
                plan_failed(tapped, sacked)
            },
            ChoiceView::And(cs) => plan_first(g, player_id, cost, cs, tapped, sacked),
            _ => plan_failed(tapped, sacked),
        },
        crate::abilities::CostView::Sacrifice(_) => match choice {
            ChoiceView::Card(cid) => PayPlan {
                ok: true,
                ops: Seq::<PayOp>::empty().push(PayOp::Sacrifice(cid)),
                tapped,
                sacrificed: sacked.push(cid),
            },
            ChoiceView::And(cs) => plan_first(g, player_id, cost, cs, tapped, sacked),
            _ => plan_failed(tapped, sacked),
        },
        crate::abilities::CostView::And(costs) => plan_all(
            g,
            player_id,
            costs,
            choice,
            tapped,
            sacked,
        ),
    }
}

#[via_fn]
proof fn plan_cost_via(
    g: crate::game::Game,
    player_id: ObjectId,
    cost: crate::abilities::CostView,
    choice: ChoiceView,
    tapped: Seq<usize>,
    sacked: Seq<usize>,
) {
    if let ChoiceView::And(cs) = choice {
        assert(decreases_to!(choice => choice->And_0));
    }
    if let crate::abilities::CostView::And(costs) = cost {
        assert(decreases_to!(cost => cost->And_0));
    }
}

/// The plan for paying one cost with the first fitting member of a
/// conjunction of choices.
pub open spec fn plan_first(
    g: crate::game::Game,
    player_id: ObjectId,
    cost: crate::abilities::CostView,
    cs: Seq<ChoiceView>,
    tapped: Seq<usize>,
    sacked: Seq<usize>,
) -> PayPlan
    decreases cost, cs, 1int,
    via plan_first_via
{
    if cs.len() == 0 {
        plan_failed(tapped, sacked)
    } else {
        let head = plan_cost(g, player_id, cost, cs[0], tapped, sacked);
        if head.ok {
            head
        } else {
            plan_first(g, player_id, cost, cs.drop_first(), tapped, sacked)
        }
    }
}

#[via_fn]
proof fn plan_first_via(
    g: crate::game::Game,
    player_id: ObjectId,
    cost: crate::abilities::CostView,
    cs: Seq<ChoiceView>,
    tapped: Seq<usize>,
    sacked: Seq<usize>,
) {
    if cs.len() > 0 {
        assert(decreases_to!(cs => cs[0]));
    }
}

/// The plan for paying a conjunction of costs with one choice, each part
/// in turn, threading the ledger of spoken-for cards.
pub open spec fn plan_all(
    g: crate::game::Game,
    player_id: ObjectId,
    costs: Seq<crate::abilities::CostView>,
    choice: ChoiceView,
    tapped: Seq<usize>,
    sacked: Seq<usize>,
) -> PayPlan
    decreases costs, choice, 1int,
    via plan_all_via
{
    if costs.len() == 0 {
        PayPlan { ok: true, ops: Seq::<PayOp>::empty(), tapped, sacrificed: sacked }
    } else {
        let head = plan_cost(g, player_id, costs[0], choice, tapped, sacked);
        if !head.ok {
            plan_failed(tapped, sacked)
        } else {
            let rest = plan_all(
                g,
                player_id,
                costs.drop_first(),
                choice,
                head.tapped,
                head.sacrificed,
            );
            if rest.ok {
                PayPlan {
                    ok: true,
                    ops: head.ops + rest.ops,
                    tapped: rest.tapped,
                    sacrificed: rest.sacrificed,
                }
            } else {
                plan_failed(tapped, sacked)
            }
        }
    }
}

#[via_fn]
proof fn plan_all_via(
    g: crate::game::Game,
    player_id: ObjectId,
    costs: Seq<crate::abilities::CostView>,
    choice: ChoiceView,
    tapped: Seq<usize>,
    sacked: Seq<usize>,
) {
    if costs.len() > 0 {
        assert(decreases_to!(costs => costs[0]));
        assert(decreases_to!(costs => costs.drop_first()));
    }
}

/// What applying one planned payment does: the outcome each primitive
/// promises, with success or failure read off the state it runs in.
pub open spec fn op_applied(
    g0: crate::game::Game,
    g1: crate::game::Game,
    source: ObjectId,
    player_id: ObjectId,
    op: PayOp,
) -> bool {
    match op {
        PayOp::Deduct(m) => mana_paid(
            g0,
            g1,
            player_id,
            m,
            g0.player_index(player_id) != -1,
        ),
        PayOp::TapCard(cid) => tap_paid(
            g0,
            g1,
            source,
            cid,
            g0.card_index(cid) != -1 && g0.cards@[g0.card_index(cid)].can_tap(),
        ),
        PayOp::Sacrifice(cid) => sacrifice_paid(g0, g1, cid, true),
    }
}

/// What applying the planned payments in order does.
pub open spec fn ops_applied(
    g0: crate::game::Game,
    g1: crate::game::Game,
    source: ObjectId,
    player_id: ObjectId,
    ops: Seq<PayOp>,
) -> bool
    decreases ops.len(),
{
    if ops.len() == 0 {
        g1 == g0
    } else {
        exists|mid: crate::game::Game|
            #[trigger] crate::game::game_step_witness(mid) && ops_applied(
                g0,
                mid,
                source,
                player_id,
                ops.drop_last(),
            ) && op_applied(mid, g1, source, player_id, ops.last())
    }
}

/// What paying the cost `cost` with the choice `choice` does: the cost is
/// planned against the unchanged game, and either every planned payment
/// is applied in order, or nothing happens at all.
pub open spec fn pay_rel(
    g0: crate::game::Game,
    g1: crate::game::Game,
    cost: crate::abilities::CostView,
    choice: ChoiceView,
    card_id: ObjectId,
    player_id: ObjectId,
    ok: bool,
) -> bool {
    let plan = plan_cost(g0, player_id, cost, choice, Seq::<usize>::empty(), Seq::<usize>::empty());
    &&& ok == plan.ok
    &&& if plan.ok {
        ops_applied(g0, g1, card_id, player_id, plan.ops)
    } else {
        g1 == g0
    }
}

impl Action {
    /// Performs the side effects of this action's cost requirement using
    /// its cost choice; reports whether the payment counted.  Payment is
    /// all or nothing: a cost that cannot be fully paid leaves the game
    /// exactly as it was.
    pub fn pay(&self, game: &mut crate::game::Game) -> (r: bool)
        ensures
            pay_rel(
                *old(game),
                *final(game),
                self.required.cost@,
                self.choices.cost@,
                self.card_id,
                self.player_id,
                r,
            ),
    {
        let mut ops: Vec<PayOp> = Vec::new();
        let mut tapped: Vec<ObjectId> = Vec::new();
        let mut sacked: Vec<ObjectId> = Vec::new();
        let ok = plan_cost_of(
            game,
            self.player_id,
            &self.required.cost,
            &self.choices.cost,
            &mut ops,
            &mut tapped,
            &mut sacked,
        );
        if !ok {
            return false;
        }
        apply_ops(game, self.card_id, self.player_id, &ops);
        true
    }
}

/// Plans one cost against the unchanged game, appending the planned
/// payments and the spoken-for cards; see `plan_cost`.
fn plan_cost_of(
    game: &crate::game::Game,
    player_id: ObjectId,
    cost: &Cost,
    choice: &Choice,
    ops: &mut Vec<PayOp>,
    tapped: &mut Vec<ObjectId>,
    sacked: &mut Vec<ObjectId>,
) -> (r: bool)
    ensures
        ({
            let p = plan_cost(*game, player_id, cost@, choice@, old(tapped)@, old(sacked)@);
            &&& r == p.ok
            &&& (r ==> final(ops)@ == old(ops)@ + p.ops && final(tapped)@ == p.tapped && final(sacked)@ == p.sacrificed)
            &&& (!r ==> final(ops)@ == old(ops)@ && final(tapped)@ == old(tapped)@ && final(sacked)@ == old(sacked)@)
        }),
    decreases *cost, *choice,
{
    match cost {
        Cost::Nothing => {
            proof {
                assert(*cost == Cost::Nothing);
                assert(final(ops)@ =~= old(ops)@ + Seq::<PayOp>::empty());
            }
            true
        },
        Cost::Mana(mana_str) => {
            proof {
                assert(*cost == Cost::Mana(*mana_str));
            }
            match choice {
                Choice::Mana(m) => {
                    proof {
                        assert(*choice == Choice::Mana(*m));
                    }
                    if game.player_pos(player_id).is_some() {
                        proof {
                            crate::game::lemma_find_player(game.players@, player_id);
                        }
                        ops.push(PayOp::Deduct(*m));
                        proof {
                            assert(ops@ =~= old(ops)@ + Seq::<PayOp>::empty().push(
                                PayOp::Deduct(*m),
                            ));
                        }
                        true
                    } else {
                        proof {
                            crate::game::lemma_find_player(game.players@, player_id);
                        }
                        false
                    }
                },
                Choice::And(choices) => {
                    proof {
                        assert(*choice == Choice::And(*choices));
                        lemma_choice_view_and(*choices);
                    }
                    plan_first_of(game, player_id, cost, choices, choice, ops, tapped, sacked)
                },
                Choice::Nothing => {
                    proof {
                        assert(*choice == Choice::Nothing);
                    }
                    false
                },
                Choice::Player(p) => {
                    proof {
                        assert(*choice == Choice::Player(*p));
                    }
                    false
                },
                Choice::Card(c) => {
                    proof {
                        assert(*choice == Choice::Card(*c));
                    }
                    false
                },
            }
        },
        Cost::Tap(t) => {
            proof {
                assert(*cost == Cost::Tap(*t));
            }
            match choice {
                Choice::Card(cid) => {
                    proof {
                        assert(*choice == Choice::Card(*cid));
                        crate::game::lemma_find_card(game.cards@, *cid);
                    }
                    let can = match game.get_card(*cid) {
                        Some(card) => matches!(card.zone, crate::card::Zone::Battlefield)
                            && !card.state.tapped.current,
                        None => false,
                    };
                    if can && !ids_listed(tapped, *cid) && !ids_listed(sacked, *cid) {
                        ops.push(PayOp::TapCard(*cid));
                        tapped.push(*cid);
                        proof {
                            assert(ops@ =~= old(ops)@ + Seq::<PayOp>::empty().push(
                                PayOp::TapCard(*cid),
                            ));
                        }
                        true
                    } else {
                        false
                    }
                },
                Choice::And(choices) => {
                    proof {
                        assert(*choice == Choice::And(*choices));
                        lemma_choice_view_and(*choices);
                    }
                    plan_first_of(game, player_id, cost, choices, choice, ops, tapped, sacked)
                },
                Choice::Nothing => {
                    proof {
                        assert(*choice == Choice::Nothing);
                    }
                    false
                },
                Choice::Player(p) => {
                    proof {
                        assert(*choice == Choice::Player(*p));
                    }
                    false
                },
                Choice::Mana(m) => {
                    proof {
                        assert(*choice == Choice::Mana(*m));
                    }
                    false
                },
            }
        },
        Cost::Sacrifice(t) => {
            proof {
                assert(*cost == Cost::Sacrifice(*t));
            }
            match choice {
                Choice::Card(cid) => {
                    proof {
                        assert(*choice == Choice::Card(*cid));
                    }
                    ops.push(PayOp::Sacrifice(*cid));
                    sacked.push(*cid);
                    proof {
                        assert(ops@ =~= old(ops)@ + Seq::<PayOp>::empty().push(
                            PayOp::Sacrifice(*cid),
                        ));
                    }
                    true
                },
                Choice::And(choices) => {
                    proof {
                        assert(*choice == Choice::And(*choices));
                        lemma_choice_view_and(*choices);
                    }
                    plan_first_of(game, player_id, cost, choices, choice, ops, tapped, sacked)
                },
                Choice::Nothing => {
                    proof {
                        assert(*choice == Choice::Nothing);
                    }
                    false
                },
                Choice::Player(p) => {
                    proof {
                        assert(*choice == Choice::Player(*p));
                    }
                    false
                },
                Choice::Mana(m) => {
                    proof {
                        assert(*choice == Choice::Mana(*m));
                    }
                    false
                },
            }
        },
        Cost::And(costs) => {
            proof {
                assert(*cost == Cost::And(*costs));
                crate::abilities::lemma_cost_view_and(*costs);
            }
            let ghost cvs = crate::abilities::cost_views(costs@);
            let n_ops = ops.len();
            let saved_tapped = copy_ids(tapped);
            let saved_sacked = copy_ids(sacked);
            let mut i: usize = 0;
            let mut failed = false;
            proof {
                assert(cvs.subrange(0, cvs.len() as int) =~= cvs);
                assert(ops@.subrange(0, n_ops as int) =~= ops@);
                assert(ops@.subrange(n_ops as int, ops@.len() as int) =~= Seq::<PayOp>::empty());
                let rest0 = plan_all(*game, player_id, cvs, choice@, tapped@, sacked@);
                if rest0.ok {
                    assert(Seq::<PayOp>::empty() + rest0.ops =~= rest0.ops);
                }
            }
            while i < costs.len() && !failed
                invariant
                    *cost == Cost::And(*costs),
                    0 <= i <= costs@.len(),
                    cvs == crate::abilities::cost_views(costs@),
                    n_ops == old(ops)@.len(),
                    saved_tapped@ == old(tapped)@,
                    saved_sacked@ == old(sacked)@,
                    !failed ==> n_ops <= ops@.len() && ops@.subrange(0, n_ops as int) == old(ops)@
                        && plan_all(
                        *game,
                        player_id,
                        cvs,
                        choice@,
                        old(tapped)@,
                        old(sacked)@,
                    ) == ({
                        let rest = plan_all(
                            *game,
                            player_id,
                            cvs.subrange(i as int, cvs.len() as int),
                            choice@,
                            tapped@,
                            sacked@,
                        );
                        if rest.ok {
                            PayPlan {
                                ok: true,
                                ops: ops@.subrange(n_ops as int, ops@.len() as int) + rest.ops,
                                tapped: rest.tapped,
                                sacrificed: rest.sacrificed,
                            }
                        } else {
                            plan_failed(old(tapped)@, old(sacked)@)
                        }
                    }),
                    failed ==> !plan_all(
                        *game,
                        player_id,
                        cvs,
                        choice@,
                        old(tapped)@,
                        old(sacked)@,
                    ).ok,
                    failed ==> ops@ == old(ops)@ && tapped@ == old(tapped)@ && sacked@ == old(sacked)@,
                decreases costs@.len() - i,
            {
                proof {
                    assert(decreases_to!(*cost => cost->And_0));
                    assert(decreases_to!(*costs => costs@));
                    assert(decreases_to!(costs@ => costs@[i as int]));
                    assert(decreases_to!(*cost => costs@[i as int]));
                }
                let ghost pre_ops = ops@;
                let ghost pre_tapped = tapped@;
                let ghost pre_sacked = sacked@;
                let ok = plan_cost_of(game, player_id, &costs[i], choice, ops, tapped, sacked);
                proof {
                    assert(cvs.subrange(i as int, cvs.len() as int)[0] == cvs[i as int]);
                    assert(cvs.subrange(i as int, cvs.len() as int).drop_first() =~= cvs.subrange(
                        i + 1,
                        cvs.len() as int,
                    ));
                }
                if !ok {
                    ops.truncate(n_ops);
                    set_ids(tapped, &saved_tapped);
                    set_ids(sacked, &saved_sacked);
                    proof {
                        assert(ops@ =~= old(ops)@);
                    }
                    failed = true;
                    i = costs.len();
                } else {
                    proof {
                        let head = plan_cost(
                            *game,
                            player_id,
                            cvs[i as int],
                            choice@,
                            pre_tapped,
                            pre_sacked,
                        );
                        assert(ops@.subrange(0, n_ops as int) =~= old(ops)@);
                        assert(ops@.subrange(n_ops as int, ops@.len() as int) =~= pre_ops.subrange(
                            n_ops as int,
                            pre_ops.len() as int,
                        ) + head.ops);
                        let rest = plan_all(
                            *game,
                            player_id,
                            cvs.subrange(i + 1, cvs.len() as int),
                            choice@,
                            tapped@,
                            sacked@,
                        );
                        if rest.ok {
                            assert(ops@.subrange(n_ops as int, ops@.len() as int) + rest.ops
                                =~= pre_ops.subrange(n_ops as int, pre_ops.len() as int) + (
                            head.ops + rest.ops));
                        }
                    }
                    i = i + 1;
                }
            }
            proof {
                if !failed {
                    assert(cvs.subrange(cvs.len() as int, cvs.len() as int).len() == 0);
                    assert(ops@.subrange(n_ops as int, ops@.len() as int) + Seq::<
                        PayOp,
                    >::empty() =~= ops@.subrange(n_ops as int, ops@.len() as int));
                    assert(ops@.subrange(0, n_ops as int) + ops@.subrange(
                        n_ops as int,
                        ops@.len() as int,
                    ) =~= ops@);
                    assert(old(ops)@ + ops@.subrange(n_ops as int, ops@.len() as int) =~= ops@);
                }
            }
            !failed
        },
    }
}

/// Plans one cost with the first fitting member of a conjunction of
/// choices; see `plan_first`.
fn plan_first_of(
    game: &crate::game::Game,
    player_id: ObjectId,
    cost: &Cost,
    choices: &Vec<Choice>,
    whole: &Choice,
    ops: &mut Vec<PayOp>,
    tapped: &mut Vec<ObjectId>,
    sacked: &mut Vec<ObjectId>,
) -> (r: bool)
    requires
        *whole == Choice::And(*choices),
    ensures
        ({
            let p = plan_first(
                *game,
                player_id,
                cost@,
                crate::action::choice_views(choices@),
                old(tapped)@,
                old(sacked)@,
            );
            &&& r == p.ok
            &&& (r ==> final(ops)@ == old(ops)@ + p.ops && final(tapped)@ == p.tapped && final(sacked)@ == p.sacrificed)
            &&& (!r ==> final(ops)@ == old(ops)@ && final(tapped)@ == old(tapped)@ && final(sacked)@ == old(sacked)@)
        }),
    decreases *cost, *whole, 0int,
{
    let ghost cs = choice_views(choices@);
    proof {
        assert(cs.subrange(0, cs.len() as int) =~= cs);
    }
    let mut i: usize = 0;
    while i < choices.len()
        invariant
            *whole == Choice::And(*choices),
            0 <= i <= choices@.len(),
            cs == choice_views(choices@),
            ops@ == old(ops)@,
            tapped@ == old(tapped)@,
            sacked@ == old(sacked)@,
            plan_first(*game, player_id, cost@, cs, old(tapped)@, old(sacked)@) == plan_first(
                *game,
                player_id,
                cost@,
                cs.subrange(i as int, cs.len() as int),
                old(tapped)@,
                old(sacked)@,
            ),
        decreases choices@.len() - i,
    {
        proof {
            assert(decreases_to!(*whole => whole->And_0));
            assert(decreases_to!(*choices => choices@));
            assert(decreases_to!(choices@ => choices@[i as int]));
            assert(decreases_to!(*whole => choices@[i as int]));
        }
        let ok = plan_cost_of(game, player_id, cost, &choices[i], ops, tapped, sacked);
        proof {
            assert(cs.subrange(i as int, cs.len() as int)[0] == cs[i as int]);
            assert(cs.subrange(i as int, cs.len() as int).drop_first() =~= cs.subrange(
                i + 1,
                cs.len() as int,
            ));
        }
        if ok {
            return true;
        }
        i = i + 1;
    }
    proof {
        assert(cs.subrange(cs.len() as int, cs.len() as int).len() == 0);
    }
    false
}

/// A copy of a list of identifiers.
fn copy_ids(src: &Vec<ObjectId>) -> (r: Vec<ObjectId>)
    ensures
        r@ == src@,
{
    let mut v: Vec<ObjectId> = Vec::new();
    set_ids(&mut v, src);
    v
}

/// Overwrites one list of identifiers with another.
fn set_ids(dst: &mut Vec<ObjectId>, src: &Vec<ObjectId>)
    ensures
        final(dst)@ == src@,
{
    dst.truncate(0);
    proof {
        assert(dst@ =~= Seq::<ObjectId>::empty());
    }
    let mut i: usize = 0;
    while i < src.len()
        invariant
            0 <= i <= src@.len(),
            dst@ == src@.subrange(0, i as int),
        decreases src@.len() - i,
    {
        dst.push(src[i]);
        proof {
            assert(dst@ =~= src@.subrange(0, i + 1));
        }
        i = i + 1;
    }
    proof {
        assert(src@.subrange(0, src@.len() as int) =~= src@);
    }
}

/// Whether the identifier is listed.
fn ids_listed(v: &Vec<ObjectId>, id: ObjectId) -> (r: bool)
    ensures
        r == v@.contains(id),
{
    let mut i: usize = 0;
    while i < v.len()
        invariant
            0 <= i <= v@.len(),
            forall|j: int| 0 <= j < i ==> v@[j] != id,
        decreases v@.len() - i,
    {
        if v[i] == id {
            return true;
        }
        i = i + 1;
    }
    false
}

/// Applies the planned payments in order.
fn apply_ops(
    game: &mut crate::game::Game,
    source: ObjectId,
    player_id: ObjectId,
    ops: &Vec<PayOp>,
)
    ensures
        ops_applied(*old(game), *final(game), source, player_id, ops@),
{
    let mut i: usize = 0;
    proof {
        assert(ops@.subrange(0, 0) =~= Seq::<PayOp>::empty());
    }
    while i < ops.len()
        invariant
            0 <= i <= ops@.len(),
            ops_applied(*old(game), *game, source, player_id, ops@.subrange(0, i as int)),
        decreases ops@.len() - i,
    {
        let ghost mid = *game;
        match &ops[i] {
            PayOp::Deduct(m) => {
                apply_deduct(game, player_id, m);
            },
            PayOp::TapCard(cid) => {
                crate::card::tap_card(game, *cid, Some(source));
            },
            PayOp::Sacrifice(cid) => {
                crate::card::put_on_graveyard(game, *cid);
            },
        }
        proof {
            assert(ops@.subrange(0, i + 1).drop_last() =~= ops@.subrange(0, i as int));
            assert(ops@.subrange(0, i + 1).last() == ops@[i as int]);
            assert(op_applied(mid, *game, source, player_id, ops@[i as int]));
            assert(crate::game::game_step_witness(mid));
        }
        i = i + 1;
    }
    proof {
        assert(ops@.subrange(0, ops@.len() as int) =~= ops@);
    }
}

/// Deducts the mana amount from the player's pool; see `mana_paid`.
fn apply_deduct(game: &mut crate::game::Game, player_id: ObjectId, mana: &Mana)
    ensures
        mana_paid(
            *old(game),
            *final(game),
            player_id,
            *mana,
            old(game).player_index(player_id) != -1,
        ),
{
    let ppos = game.player_pos(player_id);
    proof {
        crate::game::lemma_find_player(game.players@, player_id);
        assert(game.players.len() == game.players@.len());
    }
    match ppos {
        Some(i) => {
            let ghost p = game.players@[i as int];
            let player = &mut game.players[i];
            player.mana.deduct(mana);
            proof {
                assert(game.players@ =~= old(game).players@.update(
                    i as int,
                    crate::game::Player {
                        mana: Mana {
                            white: Mana::sat_sub(p.mana.white, mana.white),
                            red: Mana::sat_sub(p.mana.red, mana.red),
                            green: Mana::sat_sub(p.mana.green, mana.green),
                            blue: Mana::sat_sub(p.mana.blue, mana.blue),
                            black: Mana::sat_sub(p.mana.black, mana.black),
                            colorless: Mana::sat_sub(p.mana.colorless, mana.colorless),
                            any: p.mana.any,
                        },
                        ..p
                    },
                ));
            }
        },
        None => {},
    }
}

} // verus!
