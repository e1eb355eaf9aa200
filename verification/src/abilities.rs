//! The requirement vocabularies: what an ability costs, whom it may target,
//! and what it does when it resolves.

use vstd::prelude::*;

use crate::action::Choice;
use crate::action::ChoiceView;
use crate::mana::Mana;
use crate::turn::Step;

verus! {

broadcast use vstd::std_specs::vec::group_vec_axioms, vstd::seq::group_seq_axioms;

/// A keyword ability that changes the static rules applying to a card.
#[derive(Clone, Copy, Debug, PartialEq, Eq, Structural)]
pub enum StaticAbility {
    /// Can attack in the same turn as played.
    Haste,
    /// Can only be blocked by flying creatures or creatures with reach.
    Flying,
    /// Can block flying creatures.
    Reach,
    /// Can attack without being tapped.
    Vigilance,
    /// Cannot attack.
    Defender,
    /// Deals combat damage before other creatures.
    FirstStrike,
    /// Deals combat damage twice (first-strike pass and regular pass).
    DoubleStrike,
    /// Unblocked remainder of the combat damage is dealt to the defending
    /// player.
    Trample,
    /// Any amount of combat damage dealt by this creature is lethal to
    /// other creatures.
    Deathtouch,
}

/// What must be paid to play a card or activate an ability.
#[derive(Debug)]
pub enum Cost {
    Nothing,
    /// A mana cost, written as a mana string such as `"2WW"`.
    Mana(&'static str),
    /// Tapping the described target.
    Tap(Target),
    /// Sacrificing the described target.
    Sacrifice(Target),
    /// Every listed cost must be paid.
    And(Vec<Cost>),
}

/// Whom or what an ability may be aimed at.
#[derive(Debug)]
pub enum Target {
    Nothing,
    /// The card carrying the ability itself.
    Source,
    /// The player controlling the ability.
    Owner,
    /// Any player.
    Player,
    /// Any creature.
    Creature,
    /// Any one of the listed alternatives.
    AnyOf(Vec<Target>),
}

/// What a resolved ability does.
#[derive(Debug)]
pub enum Effect {
    Nothing,
    /// Produce mana, possibly with a wildcard "any color" component.
    Mana(Mana),
    /// Deal the given amount of damage to the bound target.
    Damage(u16),
    /// The resolving player discards the given number of cards.
    Discard(usize),
    /// The bound player draws the given number of cards.
    Draw(usize),
    /// The listed effects, resolved front to back.
    And(Vec<Effect>),
}

/// When a triggered ability fires.
#[derive(Clone, Debug)]
pub enum Condition {
    Tap(Target),
    Untap(Target),
    Draw,
    Phase(Step),
}

/// The mathematical value of a [`Target`].
pub enum TargetView {
    Nothing,
    Source,
    Owner,
    Player,
    Creature,
    AnyOf(Seq<TargetView>),
}

/// The mathematical value of a [`Cost`].
pub enum CostView {
    Nothing,
    Mana(Seq<char>),
    Tap(TargetView),
    Sacrifice(TargetView),
    And(Seq<CostView>),
}

/// The mathematical value of an [`Effect`].
pub enum EffectView {
    Nothing,
    Mana(Mana),
    Damage(u16),
    Discard(usize),
    Draw(usize),
    And(Seq<EffectView>),
}

/// The mathematical value of a [`Condition`].
pub enum ConditionView {
    Tap(TargetView),
    Untap(TargetView),
    Draw,
    Phase(Step),
}

/// The mathematical value of a target description.
pub open spec fn target_view(t: Target) -> TargetView
    decreases t,
    via target_view_via
{
    match t {
        Target::Nothing => TargetView::Nothing,
        Target::Source => TargetView::Source,
        Target::Owner => TargetView::Owner,
        Target::Player => TargetView::Player,
        Target::Creature => TargetView::Creature,
        Target::AnyOf(options) => TargetView::AnyOf(
            Seq::new(
                options@.len(),
                |i: int|
                    if 0 <= i < options@.len() {
                        target_view(options@[i])
                    } else {
                        TargetView::Nothing
                    },
            ),
        ),
    }
}

#[via_fn]
proof fn target_view_via(t: Target) {
    if let Target::AnyOf(options) = t {
        assert(decreases_to!(t => t->AnyOf_0));
        assert(decreases_to!(options => options@));
        assert forall|i: int| 0 <= i < options@.len() implies decreases_to!(t => options@[i]) by {
            assert(decreases_to!(options@ => options@[i]));
        }
    }
}

/// The values of the listed target descriptions, in order.
pub open spec fn target_views(s: Seq<Target>) -> Seq<TargetView> {
    Seq::new(
        s.len(),
        |i: int|
            if 0 <= i < s.len() {
                target_view(s[i])
            } else {
                TargetView::Nothing
            },
    )
}

/// What `target_view` makes of a list of alternatives.
pub proof fn lemma_target_view_any_of(options: Vec<Target>)
    ensures
        target_view(Target::AnyOf(options)) == TargetView::AnyOf(target_views(options@)),
{
    let v = target_view(Target::AnyOf(options));
    assert(v is AnyOf);
    assert(v->AnyOf_0 =~= target_views(options@));
}

impl View for Target {
    type V = TargetView;

    open spec fn view(&self) -> TargetView {
        target_view(*self)
    }
}

/// The mathematical value of a cost description.
pub open spec fn cost_view(c: Cost) -> CostView
    decreases c,
    via cost_view_via
{
    match c {
        Cost::Nothing => CostView::Nothing,
        Cost::Mana(s) => CostView::Mana(s@),
        Cost::Tap(t) => CostView::Tap(target_view(t)),
        Cost::Sacrifice(t) => CostView::Sacrifice(target_view(t)),
        Cost::And(costs) => CostView::And(
            Seq::new(
                costs@.len(),
                |i: int|
                    if 0 <= i < costs@.len() {
                        cost_view(costs@[i])
                    } else {
                        CostView::Nothing
                    },
            ),
        ),
    }
}

#[via_fn]
proof fn cost_view_via(c: Cost) {
    if let Cost::And(costs) = c {
        assert(decreases_to!(c => c->And_0));
        assert(decreases_to!(costs => costs@));
        assert forall|i: int| 0 <= i < costs@.len() implies decreases_to!(c => costs@[i]) by {
            assert(decreases_to!(costs@ => costs@[i]));
        }
    }
}

/// The values of the listed cost descriptions, in order.
pub open spec fn cost_views(s: Seq<Cost>) -> Seq<CostView> {
    Seq::new(
        s.len(),
        |i: int|
            if 0 <= i < s.len() {
                cost_view(s[i])
            } else {
                CostView::Nothing
            },
    )
}

/// What `cost_view` makes of a conjunction.
pub proof fn lemma_cost_view_and(costs: Vec<Cost>)
    ensures
        cost_view(Cost::And(costs)) == CostView::And(cost_views(costs@)),
{
    let v = cost_view(Cost::And(costs));
    assert(v is And);
    assert(v->And_0 =~= cost_views(costs@));
}

impl View for Cost {
    type V = CostView;

    open spec fn view(&self) -> CostView {
        cost_view(*self)
    }
}

/// The mathematical value of an effect description.
pub open spec fn effect_view(e: Effect) -> EffectView
    decreases e,
    via effect_view_via
{
    match e {
        Effect::Nothing => EffectView::Nothing,
        Effect::Mana(m) => EffectView::Mana(m),
        Effect::Damage(d) => EffectView::Damage(d),
        Effect::Discard(n) => EffectView::Discard(n),
        Effect::Draw(n) => EffectView::Draw(n),
        Effect::And(effects) => EffectView::And(
            Seq::new(
                effects@.len(),
                |i: int|
                    if 0 <= i < effects@.len() {
                        effect_view(effects@[i])
                    } else {
                        EffectView::Nothing
                    },
            ),
        ),
    }
}

#[via_fn]
proof fn effect_view_via(e: Effect) {
    if let Effect::And(effects) = e {
        assert(decreases_to!(e => e->And_0));
        assert(decreases_to!(effects => effects@));
        assert forall|i: int| 0 <= i < effects@.len() implies decreases_to!(e => effects@[i]) by {
            assert(decreases_to!(effects@ => effects@[i]));
        }
    }
}

/// The values of the listed effect descriptions, in order.
pub open spec fn effect_views(s: Seq<Effect>) -> Seq<EffectView> {
    Seq::new(
        s.len(),
        |i: int|
            if 0 <= i < s.len() {
                effect_view(s[i])
            } else {
                EffectView::Nothing
            },
    )
}

/// What `effect_view` makes of a sequence of effects.
pub proof fn lemma_effect_view_and(effects: Vec<Effect>)
    ensures
        effect_view(Effect::And(effects)) == EffectView::And(effect_views(effects@)),
{
    let v = effect_view(Effect::And(effects));
    assert(v is And);
    assert(v->And_0 =~= effect_views(effects@));
}

impl View for Effect {
    type V = EffectView;

    open spec fn view(&self) -> EffectView {
        effect_view(*self)
    }
}

impl View for Condition {
    type V = ConditionView;

    open spec fn view(&self) -> ConditionView {
        match *self {
            Condition::Tap(t) => ConditionView::Tap(target_view(t)),
            Condition::Untap(t) => ConditionView::Untap(target_view(t)),
            Condition::Draw => ConditionView::Draw,
            Condition::Phase(s) => ConditionView::Phase(s),
        }
    }
}

/// The ability that happens when the card it is printed on resolves.
#[derive(Clone, Debug)]
pub struct PlayAbility {
    pub effect: Effect,
    pub target: Target,
}

/// An ability a player may activate by paying its cost.
#[derive(Clone, Debug)]
pub struct ActivatedAbility {
    pub cost: Cost,
    pub effect: Effect,
    pub target: Target,
}

/// An ability that fires by itself when its condition is met.
#[derive(Clone, Debug)]
pub struct TriggeredAbility {
    pub condition: Condition,
    pub effect: Effect,
    pub target: Target,
}

/// A pending entry of the stack: the effect still to resolve, the action
/// that produced it, the resolving player, and whether it is a spell (with
/// its card) or an ability.
#[derive(Debug)]
pub struct Resolve {
    pub effect: Effect,
    pub action: crate::action::Action,
    pub player_id: crate::game::ObjectId,
    pub kind: ResolveKind,
}

/// The mathematical value of a [`Resolve`] entry.
pub struct ResolveView {
    pub effect: EffectView,
    pub action: crate::action::ActionView,
    pub player_id: crate::game::ObjectId,
    pub kind: ResolveKind,
}

impl View for Resolve {
    type V = ResolveView;

    open spec fn view(&self) -> ResolveView {
        ResolveView {
            effect: self.effect@,
            action: self.action@,
            player_id: self.player_id,
            kind: self.kind,
        }
    }
}

/// Whether a stack entry is a spell, which moves its card to a zone when it
/// finishes resolving, or an ability, which leaves its source alone.
#[derive(Clone, Copy, Debug, PartialEq, Eq, Structural)]
pub enum ResolveKind {
    Spell(crate::game::ObjectId),
    Ability,
}

/// One round of the resolution protocol: the choice a player supplies, who
/// supplies it, and the effect it answers.
#[derive(Clone, Debug, PartialEq)]
pub struct ResolveChoice {
    pub choice: Choice,
    pub player_id: crate::game::ObjectId,
    pub effect: Effect,
}

impl Default for ResolveChoice {
    /// The empty round: no choice, for no effect.
    fn default() -> (r: ResolveChoice)
        ensures
            r.choice@ == ChoiceView::Nothing,
            r.player_id == 0,
            r.effect@ == EffectView::Nothing,
    {
        ResolveChoice { choice: Choice::Nothing, player_id: 0, effect: Effect::Nothing }
    }
}

/// Why a resolution call was rejected.
#[derive(Clone, Copy, Debug, PartialEq, Eq, Structural)]
pub enum ResolveError {
    /// `start_resolve` was called with nothing on the stack.
    EmptyStack,
    /// The supplied choice does not satisfy the effect being resolved.
    InvalidChoice,
    /// The action's bound target cannot receive the effect.
    InvalidTarget,
    /// The resolver does not handle this effect kind.
    UnknownEffect,
    /// The action's actor no longer exists.
    UnknownActionOwner,
}

impl Target {
    /// A copy of this target description with the same value.
    pub fn duplicate(&self) -> (r: Target)
        ensures
            r@ == self@,
        decreases *self,
    {
        match self {
            Target::Nothing => Target::Nothing,
            Target::Source => Target::Source,
            Target::Owner => Target::Owner,
            Target::Player => Target::Player,
            Target::Creature => Target::Creature,
            Target::AnyOf(options) => {
                let mut copy: Vec<Target> = Vec::new();
                let mut i: usize = 0;
                while i < options.len()
                    invariant
                        *self == Target::AnyOf(*options),
                        0 <= i <= options@.len(),
                        copy@.len() == i,
                        forall|j: int| 0 <= j < i ==> (#[trigger] copy@[j])@ == options@[j]@,
                    decreases options@.len() - i,
                {
                    proof {
                        assert(decreases_to!(*self => self->AnyOf_0));
                        assert(decreases_to!(*options => options@));
                        assert(decreases_to!(options@ => options@[i as int]));
                        assert(decreases_to!(*self => options@[i as int]));
                    }
                    copy.push(options[i].duplicate());
                    i = i + 1;
                }
                proof {
                    lemma_target_view_any_of(copy);
                    lemma_target_view_any_of(*options);
                    assert(target_views(copy@) =~= target_views(options@));
                }
                Target::AnyOf(copy)
            },
        }
    }
}

impl Clone for Target {
    /// A copy of this target description with the same value.
    fn clone(&self) -> (r: Target)
        ensures
            r@ == self@,
    {
        self.duplicate()
    }
}

impl Cost {
    /// A copy of this cost description with the same value.
    pub fn duplicate(&self) -> (r: Cost)
        ensures
            r@ == self@,
        decreases *self,
    {
        match self {
            Cost::Nothing => Cost::Nothing,
            Cost::Mana(s) => Cost::Mana(s),
            Cost::Tap(t) => Cost::Tap(t.duplicate()),
            Cost::Sacrifice(t) => Cost::Sacrifice(t.duplicate()),
            Cost::And(costs) => {
                let mut copy: Vec<Cost> = Vec::new();
                let mut i: usize = 0;
                while i < costs.len()
                    invariant
                        *self == Cost::And(*costs),
                        0 <= i <= costs@.len(),
                        copy@.len() == i,
                        forall|j: int| 0 <= j < i ==> (#[trigger] copy@[j])@ == costs@[j]@,
                    decreases costs@.len() - i,
                {
                    proof {
                        assert(decreases_to!(*self => self->And_0));
                        assert(decreases_to!(*costs => costs@));
                        assert(decreases_to!(costs@ => costs@[i as int]));
                        assert(decreases_to!(*self => costs@[i as int]));
                    }
                    copy.push(costs[i].duplicate());
                    i = i + 1;
                }
                proof {
                    lemma_cost_view_and(copy);
                    lemma_cost_view_and(*costs);
                    assert(cost_views(copy@) =~= cost_views(costs@));
                }
                Cost::And(copy)
            },
        }
    }
}

impl Clone for Cost {
    /// A copy of this cost description with the same value.
    fn clone(&self) -> (r: Cost)
        ensures
            r@ == self@,
    {
        self.duplicate()
    }
}

impl Effect {
    /// A copy of this effect description with the same value.
    pub fn duplicate(&self) -> (r: Effect)
        ensures
            r@ == self@,
        decreases *self,
    {
        match self {
            Effect::Nothing => Effect::Nothing,
            Effect::Mana(m) => Effect::Mana(*m),
            Effect::Damage(d) => Effect::Damage(*d),
            Effect::Discard(n) => Effect::Discard(*n),
            Effect::Draw(n) => Effect::Draw(*n),
            Effect::And(effects) => {
                let mut copy: Vec<Effect> = Vec::new();
                let mut i: usize = 0;
                while i < effects.len()
                    invariant
                        *self == Effect::And(*effects),
                        0 <= i <= effects@.len(),
                        copy@.len() == i,
                        forall|j: int| 0 <= j < i ==> (#[trigger] copy@[j])@ == effects@[j]@,
                    decreases effects@.len() - i,
                {
                    proof {
                        assert(decreases_to!(*self => self->And_0));
                        assert(decreases_to!(*effects => effects@));
                        assert(decreases_to!(effects@ => effects@[i as int]));
                        assert(decreases_to!(*self => effects@[i as int]));
                    }
                    copy.push(effects[i].duplicate());
                    i = i + 1;
                }
                proof {
                    lemma_effect_view_and(copy);
                    lemma_effect_view_and(*effects);
                    assert(effect_views(copy@) =~= effect_views(effects@));
                }
                Effect::And(copy)
            },
        }
    }
}

impl Clone for Effect {
    /// A copy of this effect description with the same value.
    fn clone(&self) -> (r: Effect)
        ensures
            r@ == self@,
    {
        self.duplicate()
    }
}

/// Whether the two effect descriptions have the same value.
pub fn effect_eq(a: &Effect, b: &Effect) -> (r: bool)
    ensures
        r == (a@ == b@),
    decreases *a,
{
    match (a, b) {
        (Effect::Nothing, Effect::Nothing) => true,
        (Effect::Mana(x), Effect::Mana(y)) => x == y,
        (Effect::Damage(x), Effect::Damage(y)) => x == y,
        (Effect::Discard(x), Effect::Discard(y)) => x == y,
        (Effect::Draw(x), Effect::Draw(y)) => x == y,
        (Effect::And(xs), Effect::And(ys)) => {
            proof {
                assert(*a == Effect::And(*xs));
                assert(*b == Effect::And(*ys));
                lemma_effect_view_and(*xs);
                lemma_effect_view_and(*ys);
            }
            if xs.len() != ys.len() {
                proof {
                    assert(effect_views(xs@).len() == xs@.len());
                    assert(effect_views(ys@).len() == ys@.len());
                }
                return false;
            }
            let mut i: usize = 0;
            while i < xs.len()
                invariant
                    *a == Effect::And(*xs),
                    *b == Effect::And(*ys),
                    0 <= i <= xs@.len(),
                    xs@.len() == ys@.len(),
                    forall|j: int| 0 <= j < i ==> effect_views(xs@)[j] == effect_views(ys@)[j],
                decreases xs@.len() - i,
            {
                proof {
                    assert(decreases_to!(*a => a->And_0));
                    assert(decreases_to!(*xs => xs@));
                    assert(decreases_to!(xs@ => xs@[i as int]));
                    assert(decreases_to!(*a => xs@[i as int]));
                }
                if !effect_eq(&xs[i], &ys[i]) {
                    proof {
                        lemma_effect_view_and(*xs);
                        lemma_effect_view_and(*ys);
                        assert(effect_views(xs@)[i as int] != effect_views(ys@)[i as int]);
                    }
                    return false;
                }
                i = i + 1;
            }
            proof {
                lemma_effect_view_and(*xs);
                lemma_effect_view_and(*ys);
                assert(effect_views(xs@) =~= effect_views(ys@));
            }
            true
        },
        _ => false,
    }
}

impl PartialEq for Effect {
    fn eq(&self, other: &Effect) -> (r: bool) {
        effect_eq(self, other)
    }
}

impl vstd::std_specs::cmp::PartialEqSpecImpl for Effect {
    open spec fn obeys_eq_spec() -> bool {
        true
    }

    open spec fn eq_spec(&self, other: &Effect) -> bool {
        self@ == other@
    }
}

impl EffectView {
    /// Whether `r` has exactly the shape of the player choice that this
    /// effect asks for before it can resolve: the produced mana for a mana
    /// effect with a wildcard component, one card choice per discarded
    /// card, a conjunction of the parts' choices for a sequence, and no
    /// choice at all otherwise.
    pub open spec fn required_choice_shape(self, r: ChoiceView) -> bool
        decreases self,
    {
        match self {
            EffectView::Mana(m) => if m.any > 0 {
                r == ChoiceView::Mana(m)
            } else {
                r == ChoiceView::Nothing
            },
            EffectView::Discard(n) => r matches ChoiceView::And(cs) && cs.len() == n && forall|
                i: int,
            |
                0 <= i < cs.len() ==> cs[i] == ChoiceView::Card(0),
            EffectView::And(effects) => r matches ChoiceView::And(cs) && cs.len() == effects.len()
                && forall|i: int|
                0 <= i < effects.len() ==> effects[i].required_choice_shape(#[trigger] cs[i]),
            _ => r == ChoiceView::Nothing,
        }
    }
}

impl Effect {
    /// The choice that a player must still make for this effect to
    /// resolve; `Choice::Nothing` where no input is needed.
    pub fn get_required_choice(&self) -> (r: Choice)
        ensures
            self@.required_choice_shape(r@),
        decreases *self,
    {
        match self {
            Effect::Mana(mana) => {
                if mana.has(&crate::mana::Color::Any) {
                    Choice::Mana(*mana)
                } else {
                    Choice::Nothing
                }
            },
            Effect::Discard(count) => {
                let mut cards: Vec<Choice> = Vec::new();
                let mut i: usize = 0;
                while i < *count
                    invariant
                        0 <= i <= *count,
                        cards@.len() == i,
                        forall|j: int| 0 <= j < i ==> (#[trigger] cards@[j])@ == ChoiceView::Card(0),
                    decreases *count - i,
                {
                    cards.push(Choice::Card(0));
                    i = i + 1;
                }
                proof {
                    crate::action::lemma_choice_view_and(cards);
                }
                Choice::And(cards)
            },
            Effect::And(effects) => {
                let mut choices: Vec<Choice> = Vec::new();
                let mut i: usize = 0;
                while i < effects.len()
                    invariant
                        *self == Effect::And(*effects),
                        0 <= i <= effects@.len(),
                        choices@.len() == i,
                        forall|j: int|
                            0 <= j < i ==> effects@[j]@.required_choice_shape(
                                (#[trigger] choices@[j])@,
                            ),
                    decreases effects@.len() - i,
                {
                    proof {
                        assert(decreases_to!(*self => self->And_0));
                        assert(decreases_to!(*effects => effects@));
                        assert(decreases_to!(effects@ => effects@[i as int]));
                        assert(decreases_to!(*self => effects@[i as int]));
                    }
                    choices.push(effects[i].get_required_choice());
                    i = i + 1;
                }
                proof {
                    crate::action::lemma_choice_view_and(choices);
                    lemma_effect_view_and(*effects);
                }
                Choice::And(choices)
            },
            _ => Choice::Nothing,
        }
    }
}

/// The card with its zone-dependent static abilities applied: a card with
/// Haste loses summoning sickness, and its baseline is redefined.
pub open spec fn card_with_statics_applied(c: crate::card::Card) -> crate::card::Card {
    if c.static_abilities.has(StaticAbility::Haste) {
        crate::card::Card {
            state: crate::card::CardState {
                summoning_sickness: crate::game::Value { current: false, default: false },
                ..c.state
            },
            ..c
        }
    } else {
        c
    }
}

/// Re-applies the zone-dependent static abilities of a card after it
/// changed zone; with an unknown card, nothing happens.
pub fn apply_static_abilities(game: &mut crate::game::Game, card_id: crate::game::ObjectId)
    ensures
        old(game).card_index(card_id) == -1 ==> *final(game) == *old(game),
        old(game).card_index(card_id) != -1 ==> *final(game) == (crate::game::Game {
            cards: final(game).cards,
            ..*old(game)
        }) && final(game).cards@ == old(game).cards@.update(
            old(game).card_index(card_id),
            card_with_statics_applied(old(game).cards@[old(game).card_index(card_id)]),
        ),
{
    let pos = game.card_pos(card_id);
    proof {
        crate::game::lemma_find_card(game.cards@, card_id);
        assert(game.cards.len() == game.cards@.len());
    }
    match pos {
        Some(i) => {
            let has_haste = game.cards[i].static_abilities.contains(&StaticAbility::Haste);
            if has_haste {
                let card = &mut game.cards[i];
                card.state.summoning_sickness = crate::game::Value::new(false);
            } else {
                proof {
                    assert(game.cards@ =~= old(game).cards@.update(
                        i as int,
                        card_with_statics_applied(old(game).cards@[i as int]),
                    ));
                }
            }
        },
        None => {},
    }
}


/// `life - damage`, stopped at the smallest storable life total.
pub open spec fn clamped_life(life: i16, damage: u16) -> i16 {
    if life - damage < -32768 {
        (-32768) as i16
    } else {
        (life - damage) as i16
    }
}

/// What dealing `damage` to the player does: their life drops, and at zero
/// or less they lose the game.  Zero damage and unknown players change
/// nothing.
pub open spec fn player_damaged(
    g0: crate::game::Game,
    g1: crate::game::Game,
    player_id: crate::game::ObjectId,
    damage: u16,
) -> bool {
    let pi = g0.player_index(player_id);
    if damage == 0 || pi == -1 {
        g1 == g0
    } else {
        let nl = clamped_life(g0.players@[pi].life, damage);
        &&& g1 == (crate::game::Game {
            players: g1.players,
            status: if nl <= 0 {
                crate::game::GameStatus::Lose(player_id)
            } else {
                g0.status
            },
            ..g0
        })
        &&& g1.players@ == g0.players@.update(
            pi,
            crate::game::Player { life: nl, ..g0.players@[pi] },
        )
    }
}

/// Deals damage to a player; at zero or less life the player loses.
pub fn deal_player_damage(
    game: &mut crate::game::Game,
    player_id: crate::game::ObjectId,
    damage: u16,
)
    ensures
        player_damaged(*old(game), *final(game), player_id, damage),
{
    if damage == 0 {
        return ;
    }
    let ppos = game.player_pos(player_id);
    proof {
        crate::game::lemma_find_player(game.players@, player_id);
        assert(game.players.len() == game.players@.len());
    }
    match ppos {
        Some(i) => {
            let ghost p = game.players@[i as int];
            let new_life32: i32 = game.players[i].life as i32 - damage as i32;
            let new_life: i16 = if new_life32 < -32768 {
                -32768
            } else {
                new_life32 as i16
            };
            {
                let player = &mut game.players[i];
                player.life = new_life;
            }
            proof {
                assert(game.players@ =~= old(game).players@.update(
                    i as int,
                    crate::game::Player { life: new_life, ..p },
                ));
            }
            if new_life <= 0 {
                game.status = crate::game::GameStatus::Lose(player_id);
            }
        },
        None => {},
    }
}

/// What dealing `damage` to a creature does: its toughness drops, and at
/// zero or less it moves to the graveyard.  Zero damage, unknown cards and
/// non-creatures change nothing.
pub open spec fn creature_damaged(
    g0: crate::game::Game,
    g1: crate::game::Game,
    card_id: crate::game::ObjectId,
    damage: u16,
) -> bool {
    let ci = g0.card_index(card_id);
    if damage == 0 || ci == -1 || g0.cards@[ci].kind != crate::card::CardType::Creature {
        g1 == g0
    } else {
        let c = g0.cards@[ci];
        let nt = clamped_life(c.state.toughness.current, damage);
        let hurt = crate::card::Card {
            state: crate::card::CardState {
                toughness: crate::game::Value { current: nt, ..c.state.toughness },
                ..c.state
            },
            ..c
        };
        if nt > 0 {
            &&& g1 == (crate::game::Game { cards: g1.cards, ..g0 })
            &&& g1.cards@ == g0.cards@.update(ci, hurt)
        } else {
            exists|mid: crate::game::Game|
                {
                    &&& #[trigger] crate::game::game_step_witness(mid)
                    &&& mid == (crate::game::Game { cards: mid.cards, ..g0 })
                    &&& mid.cards@ == g0.cards@.update(ci, hurt)
                    &&& crate::card::change_zone_post(mid, g1, card_id, crate::card::Zone::Graveyard)
                }
        }
    }
}

/// Deals damage to a creature; at zero or less toughness it is destroyed.
pub fn deal_damage(game: &mut crate::game::Game, card_id: crate::game::ObjectId, damage: u16)
    ensures
        creature_damaged(*old(game), *final(game), card_id, damage),
{
    if damage == 0 {
        return ;
    }
    let cpos = game.card_pos(card_id);
    proof {
        crate::game::lemma_find_card(game.cards@, card_id);
        assert(game.cards.len() == game.cards@.len());
    }
    match cpos {
        Some(i) => {
            if !matches!(game.cards[i].kind, crate::card::CardType::Creature) {
                return ;
            }
            let new_t32: i32 = game.cards[i].state.toughness.current as i32 - damage as i32;
            let new_t: i16 = if new_t32 < -32768 {
                -32768
            } else {
                new_t32 as i16
            };
            {
                let card = &mut game.cards[i];
                card.state.toughness.current = new_t;
            }
            if new_t <= 0 {
                let ghost mid = *game;
                proof {
                    crate::game::lemma_find_card_update(
                        old(game).cards@,
                        i as int,
                        game.cards@[i as int],
                        card_id,
                    );
                }
                crate::card::put_on_graveyard(game, card_id);
                proof {
                    assert(crate::game::game_step_witness(mid));
                }
            }
        },
        None => {},
    }
}

/// What discarding the listed chosen cards does: each card choice moves
/// its card to the graveyard, in order; other choices are passed over.
pub open spec fn discards_applied(
    g0: crate::game::Game,
    g1: crate::game::Game,
    cs: Seq<ChoiceView>,
) -> bool
    decreases cs, 1int,
{
    if cs.len() == 0 {
        g1 == g0
    } else {
        exists|mid: crate::game::Game|
            #[trigger] crate::game::game_step_witness(mid) && discards_step(g0, mid, g1, cs)
    }
}

/// One link of a discard run: the earlier choices lead to `mid`, and the
/// last choice discards its card from there.
pub open spec fn discards_step(
    g0: crate::game::Game,
    mid: crate::game::Game,
    g1: crate::game::Game,
    cs: Seq<ChoiceView>,
) -> bool
    decreases cs, 0int,
    via discards_step_via
{
    if cs.len() == 0 {
        false
    } else {
        &&& discards_applied(g0, mid, cs.drop_last())
        &&& match cs.last() {
            ChoiceView::Card(cid) => if mid.card_index(cid) == -1 {
                g1 == mid
            } else {
                crate::card::change_zone_post(mid, g1, cid, crate::card::Zone::Graveyard)
            },
            _ => g1 == mid,
        }
    }
}

#[via_fn]
proof fn discards_step_via(
    g0: crate::game::Game,
    mid: crate::game::Game,
    g1: crate::game::Game,
    cs: Seq<ChoiceView>,
) {
    if cs.len() > 0 {
        assert(decreases_to!(cs => cs.drop_last()));
    }
}

/// What one call that draws a card for `player_id` does: the top library
/// card moves to their hand, or they lose on an empty library; an unknown
/// player changes nothing.
pub open spec fn draw_outcome(
    g0: crate::game::Game,
    g1: crate::game::Game,
    player_id: crate::game::ObjectId,
) -> bool {
    let pi = g0.player_index(player_id);
    if pi == -1 {
        g1 == g0
    } else if crate::storage::id_set_elems(g0.players@[pi].library).len() == 0 {
        g1 == (crate::game::Game { status: crate::game::GameStatus::Lose(player_id), ..g0 })
    } else {
        crate::card::draw_card_post(
            g0,
            g1,
            player_id,
            crate::storage::id_set_elems(g0.players@[pi].library).last(),
        )
    }
}

/// What drawing `n` cards in a row for `player_id` does.
pub open spec fn draws_applied(
    g0: crate::game::Game,
    g1: crate::game::Game,
    player_id: crate::game::ObjectId,
    n: nat,
) -> bool
    decreases n, 1int,
{
    if n == 0 {
        g1 == g0
    } else {
        exists|mid: crate::game::Game|
            #[trigger] crate::game::game_step_witness(mid) && draws_step(g0, mid, g1, player_id, n)
    }
}

/// One link of a draw run: the earlier draws lead to `mid`, and one more
/// draw happens from there.
pub open spec fn draws_step(
    g0: crate::game::Game,
    mid: crate::game::Game,
    g1: crate::game::Game,
    player_id: crate::game::ObjectId,
    n: nat,
) -> bool
    decreases n, 0int,
{
    if n == 0 {
        false
    } else {
        draws_applied(g0, mid, player_id, (n - 1) as nat) && draw_outcome(mid, g1, player_id)
    }
}


/// The mathematical value of a [`ResolveChoice`].
pub struct ResolveChoiceView {
    pub choice: ChoiceView,
    pub player_id: crate::game::ObjectId,
    pub effect: EffectView,
}

impl View for ResolveChoice {
    type V = ResolveChoiceView;

    open spec fn view(&self) -> ResolveChoiceView {
        ResolveChoiceView { choice: self.choice@, player_id: self.player_id, effect: self.effect@ }
    }
}

/// Whether one choice picks a registered card of `player_id` sitting in
/// their hand.
pub open spec fn hand_card(g: crate::game::Game, c: ChoiceView, player_id: crate::game::ObjectId) -> bool {
    c matches ChoiceView::Card(cid) && crate::game::find_card(g.cards@, cid) != -1
        && g.cards@[crate::game::find_card(g.cards@, cid)].owner_id == player_id
        && g.cards@[crate::game::find_card(g.cards@, cid)].zone == crate::card::Zone::Hand
}

/// Whether every listed choice picks a hand card of `player_id`.
pub open spec fn all_hand_cards(
    g: crate::game::Game,
    cs: Seq<ChoiceView>,
    player_id: crate::game::ObjectId,
) -> bool
    decreases cs,
{
    if cs.len() == 0 {
        true
    } else {
        hand_card(g, cs[0], player_id) && all_hand_cards(g, cs.drop_first(), player_id)
    }
}

/// Whether the supplied choice satisfies the effect being resolved: a mana
/// effect with a wildcard needs an enough mana selection; a discard of `n`
/// needs `n` chosen hand cards of the resolving player (or one, chosen
/// singly); every other effect accepts any choice.
pub open spec fn resolve_choice_ok(
    g: crate::game::Game,
    effect: EffectView,
    choice: ChoiceView,
    player_id: crate::game::ObjectId,
) -> bool {
    match effect {
        EffectView::Mana(m) => m.any == 0 || crate::action::choice_validates_mana(choice, m),
        EffectView::Discard(n) => match choice {
            ChoiceView::Card(_) => n == 1 && hand_card(g, choice, player_id),
            ChoiceView::And(cs) => cs.len() == n && all_hand_cards(g, cs, player_id),
            _ => false,
        },
        _ => true,
    }
}

/// Whether the choice picks a registered hand card of `player_id`.
fn check_hand_card(
    game: &crate::game::Game,
    choice: &Choice,
    player_id: crate::game::ObjectId,
) -> (r: bool)
    ensures
        r == hand_card(*game, choice@, player_id),
{
    match choice {
        Choice::Card(card_id) => {
            proof {
                assert(*choice == Choice::Card(*card_id));
            }
            match game.get_card(*card_id) {
                Some(card) => card.owner_id == player_id && matches!(
                    card.zone,
                    crate::card::Zone::Hand,
                ),
                None => false,
            }
        },
        _ => false,
    }
}

impl ResolveChoice {
    /// Whether this round's choice satisfies the effect it answers.
    pub fn valid_choice(&self, game: &crate::game::Game) -> (r: bool)
        ensures
            r == resolve_choice_ok(*game, self.effect@, self.choice@, self.player_id),
    {
        match &self.effect {
            Effect::Mana(mana) => {
                proof {
                    assert(self.effect == Effect::Mana(*mana));
                }
                !mana.has(&crate::mana::Color::Any) || self.choice.validate_mana(mana)
            },
            Effect::Discard(card_count) => {
                proof {
                    assert(self.effect == Effect::Discard(*card_count));
                }
                match &self.choice {
                    Choice::Card(card_id) => {
                        proof {
                            assert(self.choice == Choice::Card(*card_id));
                        }
                        if *card_count != 1 {
                            return false;
                        }
                        check_hand_card(game, &self.choice, self.player_id)
                    },
                    Choice::And(choices) => {
                        proof {
                            assert(self.choice == Choice::And(*choices));
                            crate::action::lemma_choice_view_and(*choices);
                        }
                        let ghost cs = crate::action::choice_views(choices@);
                        proof {
                            assert(cs.subrange(0, cs.len() as int) =~= cs);
                        }
                        if choices.len() != *card_count {
                            return false;
                        }
                        let mut i: usize = 0;
                        while i < choices.len()
                            invariant
                                self.choice == Choice::And(*choices),
                                self.effect == Effect::Discard(*card_count),
                                choices@.len() == *card_count,
                                0 <= i <= choices@.len(),
                                cs == crate::action::choice_views(choices@),
                                all_hand_cards(*game, cs, self.player_id) == all_hand_cards(
                                    *game,
                                    cs.subrange(i as int, cs.len() as int),
                                    self.player_id,
                                ),
                            decreases choices@.len() - i,
                        {
                            let ok = check_hand_card(game, &choices[i], self.player_id);
                            proof {
                                assert(cs.subrange(i as int, cs.len() as int)[0] == cs[i as int]);
                                assert(cs.subrange(i as int, cs.len() as int).drop_first()
                                    =~= cs.subrange(i + 1, cs.len() as int));
                                crate::action::lemma_choice_view_and(*choices);
                            }
                            if !ok {
                                proof {
                                    assert(!all_hand_cards(*game, cs, self.player_id));
                                }
                                return false;
                            }
                            i = i + 1;
                        }
                        proof {
                            crate::action::lemma_choice_view_and(*choices);
                            assert(cs.subrange(cs.len() as int, cs.len() as int).len() == 0);
                        }
                        true
                    },
                    Choice::Nothing => {
                        proof {
                            assert(self.choice == Choice::Nothing);
                        }
                        false
                    },
                    Choice::Mana(m) => {
                        proof {
                            assert(self.choice == Choice::Mana(*m));
                        }
                        false
                    },
                    Choice::Player(p) => {
                        proof {
                            assert(self.choice == Choice::Player(*p));
                        }
                        false
                    },
                }
            },
            _ => true,
        }
    }
}

/// The front of an effect queue: the first listed effect of a sequence, or
/// the effect itself.
pub open spec fn head_effect(e: EffectView) -> EffectView {
    match e {
        EffectView::And(es) => if es.len() > 0 {
            es[0]
        } else {
            EffectView::Nothing
        },
        _ => e,
    }
}

/// The choice request that the front of the entry's effect queue asks for:
/// a mana effect with a wildcard asks its resolving player for the colors,
/// a discard asks the bound player for the cards, and everything else
/// needs no input.
pub open spec fn next_resolve_choice_spec(rv: ResolveView) -> Option<ResolveChoiceView> {
    let e = head_effect(rv.effect);
    match e {
        EffectView::Mana(m) => if m.any > 0 {
            Some(ResolveChoiceView { choice: ChoiceView::Nothing, player_id: rv.player_id, effect: e })
        } else {
            None
        },
        EffectView::Discard(_) => match rv.action.chosen_target {
            ChoiceView::Player(pid) => Some(
                ResolveChoiceView { choice: ChoiceView::Nothing, player_id: pid, effect: e },
            ),
            _ => if rv.action.required_target == TargetView::Owner {
                Some(
                    ResolveChoiceView {
                        choice: ChoiceView::Nothing,
                        player_id: rv.player_id,
                        effect: e,
                    },
                )
            } else {
                None
            },
        },
        _ => None,
    }
}

/// The next choice that a player must make to resolve the current entry
/// further, or nothing where no input is needed.
pub fn get_next_resolve_choice(resolve: &Resolve) -> (r: Option<ResolveChoice>)
    ensures
        r is Some <==> next_resolve_choice_spec(resolve@) is Some,
        r matches Some(rc) ==> next_resolve_choice_spec(resolve@) matches Some(v) && rc@ == v,
{
    let effect: &Effect = match &resolve.effect {
        Effect::And(effects) => {
            proof {
                assert(resolve.effect == Effect::And(*effects));
                lemma_effect_view_and(*effects);
            }
            if effects.len() > 0 {
                &effects[0]
            } else {
                &Effect::Nothing
            }
        },
        other => other,
    };
    proof {
        assert(effect@ == head_effect(resolve@.effect));
    }
    match effect {
        Effect::Mana(mana) => {
            proof {
                assert(*effect == Effect::Mana(*mana));
            }
            if mana.has(&crate::mana::Color::Any) {
                Some(
                    ResolveChoice {
                        choice: Choice::Nothing,
                        player_id: resolve.player_id,
                        effect: effect.duplicate(),
                    },
                )
            } else {
                None
            }
        },
        Effect::Discard(n) => {
            proof {
                assert(*effect == Effect::Discard(*n));
            }
            let player_id = match &resolve.action.choices.target {
                Choice::Player(pid) => {
                    proof {
                        assert(resolve.action.choices.target == Choice::Player(*pid));
                    }
                    *pid
                },
                _ => {
                    let owner_bound = matches!(resolve.action.required.target, Target::Owner);
                    proof {
                        if resolve.action.required.target is Owner {
                            assert(resolve.action.required.target == Target::Owner);
                        }
                    }
                    if owner_bound {
                        resolve.player_id
                    } else {
                        return None;
                    }
                },
            };
            Some(
                ResolveChoice {
                    choice: Choice::Nothing,
                    player_id,
                    effect: effect.duplicate(),
                },
            )
        },
        _ => None,
    }
}

/// Pops the top of the waiting stack into the resolving slot.  Calling
/// this with an empty stack is a caller error.
pub fn start_resolve(game: &mut crate::game::Game)
    requires
        old(game).stack@.len() > 0,
    ensures
        *final(game) == (crate::game::Game {
            stack: final(game).stack,
            resolve: final(game).resolve,
            ..*old(game)
        }),
        final(game).stack@ == old(game).stack@.drop_last(),
        final(game).resolve == Some(old(game).stack@.last()),
{
    let top = game.stack.pop();
    match top {
        Some(entry) => {
            game.resolve = Some(entry);
        },
        None => {
            proof {
                assert(false);
            }
        },
    }
}

/// How `end_resolve` leaves the turn: the resolving slot cleared and a
/// fresh priority window for the active player.
pub open spec fn priority_reopened(g0: crate::game::Game, g1: crate::game::Game) -> bool {
    &&& g1.turn == (crate::turn::Turn { priority: g1.turn.priority, ..g0.turn })
    &&& g1.turn.priority matches Some(p) && p.player_id == g0.turn.active_player
        && p.passes_seq() == Seq::<usize>::empty()
}

/// What finishing the current resolution does: a resolved spell's card
/// moves to the battlefield (permanents) or the graveyard (instants and
/// sorceries), the resolving slot empties, and priority reopens for the
/// active player.
pub open spec fn end_resolve_post(g0: crate::game::Game, g1: crate::game::Game) -> bool {
    g0.resolve matches Some(entry) && exists|mid: crate::game::Game|
        {
            &&& #[trigger] crate::game::game_step_witness(mid)
            &&& match entry.kind {
                ResolveKind::Spell(card_id) => {
                    let ci = g0.card_index(card_id);
                    if ci == -1 {
                        mid == g0
                    } else {
                        crate::card::change_zone_post(
                            g0,
                            mid,
                            card_id,
                            spell_destination(g0.cards@[ci].kind),
                        )
                    }
                },
                ResolveKind::Ability => mid == g0,
            }
            &&& g1 == (crate::game::Game { resolve: None, turn: g1.turn, ..mid })
            &&& priority_reopened(mid, g1)
        }
}

/// Finishes the current resolution; see `end_resolve_post`.  Calling this
/// with nothing resolving is a caller error.
pub fn end_resolve(game: &mut crate::game::Game)
    requires
        old(game).resolve is Some,
    ensures
        end_resolve_post(*old(game), *final(game)),
{
    let card_info: Option<(crate::game::ObjectId, bool)> = match &game.resolve {
        Some(entry) => match entry.kind {
            ResolveKind::Spell(card_id) => {
                match game.get_card(card_id) {
                    Some(card) => Some(
                        (
                            card_id,
                            matches!(
                                card.kind,
                                crate::card::CardType::Instant | crate::card::CardType::Sorcery,
                            ),
                        ),
                    ),
                    None => None,
                }
            },
            ResolveKind::Ability => None,
        },
        None => None,
    };
    match card_info {
        Some((card_id, to_graveyard)) => {
            if to_graveyard {
                crate::card::put_on_graveyard(game, card_id);
            } else {
                crate::card::put_on_battlefield(game, card_id);
            }
        },
        None => {},
    }
    let ghost mid = *game;
    game.resolve = None;
    let active = game.turn.active_player;
    game.turn.priority = Some(crate::turn::Priority::new(active));
    proof {
        assert(crate::game::game_step_witness(mid));
    }
}

/// Where a resolved spell's card goes: permanents to the battlefield,
/// instants and sorceries to the graveyard.
pub open spec fn spell_destination(kind: crate::card::CardType) -> crate::card::Zone {
    match kind {
        crate::card::CardType::Instant | crate::card::CardType::Sorcery
            => crate::card::Zone::Graveyard,
        _ => crate::card::Zone::Battlefield,
    }
}


/// What applying one effect with the bound action and the supplied round
/// does, and which error comes, if any: an unsatisfied choice or an absent
/// actor changes nothing; mana joins the actor's pool (the chosen colors,
/// for a wildcard effect); damage reaches the bound target player or
/// creature; discards move the chosen cards to the graveyard; draws pull
/// from the bound player's library; anything else is unknown to the
/// resolver.
pub open spec fn effect_outcome(
    g0: crate::game::Game,
    g1: crate::game::Game,
    e: EffectView,
    a: crate::action::ActionView,
    rc: ResolveChoiceView,
    err: Option<ResolveError>,
) -> bool {
    if !resolve_choice_ok(g0, rc.effect, rc.choice, rc.player_id) {
        err == Some(ResolveError::InvalidChoice) && g1 == g0
    } else if g0.player_index(a.player_id) == -1 {
        err == Some(ResolveError::UnknownActionOwner) && g1 == g0
    } else {
        match e {
            EffectView::Mana(m) => if m.any > 0 {
                match rc.choice {
                    ChoiceView::Mana(chosen) => err is None && crate::game::mana_gained(
                        g0,
                        g1,
                        a.player_id,
                        chosen,
                    ),
                    _ => err == Some(ResolveError::InvalidChoice) && g1 == g0,
                }
            } else {
                err is None && crate::game::mana_gained(g0, g1, a.player_id, m)
            },
            EffectView::Damage(d) => match a.chosen_target {
                ChoiceView::Player(pid) => err is None && player_damaged(g0, g1, pid, d),
                ChoiceView::Card(cid) => err is None && creature_damaged(g0, g1, cid, d),
                _ => err == Some(ResolveError::InvalidTarget) && g1 == g0,
            },
            EffectView::Discard(n) => match rc.choice {
                ChoiceView::And(cs) => if cs.len() != n {
                    err == Some(ResolveError::InvalidChoice) && g1 == g0
                } else {
                    err is None && discards_applied(g0, g1, cs)
                },
                ChoiceView::Card(cid) => err is None && (if g0.card_index(cid) == -1 {
                    g1 == g0
                } else {
                    crate::card::change_zone_post(g0, g1, cid, crate::card::Zone::Graveyard)
                }),
                _ => err == Some(ResolveError::InvalidChoice) && g1 == g0,
            },
            EffectView::Draw(n) => match a.required_target {
                TargetView::Owner => err is None && draws_applied(g0, g1, a.player_id, n as nat),
                TargetView::Player => match a.chosen_target {
                    ChoiceView::Player(pid) => err is None && draws_applied(g0, g1, pid, n as nat),
                    _ => err is None && g1 == g0,
                },
                _ => err == Some(ResolveError::InvalidTarget) && g1 == g0,
            },
            _ => err == Some(ResolveError::UnknownEffect) && g1 == g0,
        }
    }
}

/// Applies one effect using the bound action and the supplied round;
/// see `effect_outcome`.
fn resolve_effect(
    game: &mut crate::game::Game,
    effect: &Effect,
    action: &crate::action::Action,
    r: ResolveChoice,
) -> (res: Result<Option<ResolveChoice>, ResolveError>)
    ensures
        effect_outcome(
            *old(game),
            *final(game),
            effect@,
            action@,
            r@,
            match res {
                Ok(_) => None,
                Err(e) => Some(e),
            },
        ),
        res matches Ok(o) ==> o is None,
{
    if !r.valid_choice(game) {
        return Err(ResolveError::InvalidChoice);
    }
    if game.player_pos(action.player_id).is_none() {
        proof {
            crate::game::lemma_find_player(game.players@, action.player_id);
        }
        return Err(ResolveError::UnknownActionOwner);
    }
    match effect {
        Effect::Mana(mana) => {
            proof {
                assert(*effect == Effect::Mana(*mana));
            }
            if mana.has(&crate::mana::Color::Any) {
                match &r.choice {
                    Choice::Mana(chosen) => {
                        proof {
                            assert(r.choice == Choice::Mana(*chosen));
                        }
                        crate::game::add_mana(game, action.player_id, *chosen);
                        Ok(None)
                    },
                    _ => Err(ResolveError::InvalidChoice),
                }
            } else {
                crate::game::add_mana(game, action.player_id, *mana);
                Ok(None)
            }
        },
        Effect::Damage(damage) => {
            proof {
                assert(*effect == Effect::Damage(*damage));
            }
            match &action.choices.target {
                Choice::Player(player_id) => {
                    proof {
                        assert(action.choices.target == Choice::Player(*player_id));
                    }
                    deal_player_damage(game, *player_id, *damage);
                    Ok(None)
                },
                Choice::Card(card_id) => {
                    proof {
                        assert(action.choices.target == Choice::Card(*card_id));
                    }
                    deal_damage(game, *card_id, *damage);
                    Ok(None)
                },
                Choice::Nothing => {
                    proof {
                        assert(action.choices.target == Choice::Nothing);
                    }
                    Err(ResolveError::InvalidTarget)
                },
                Choice::Mana(m) => {
                    proof {
                        assert(action.choices.target == Choice::Mana(*m));
                    }
                    Err(ResolveError::InvalidTarget)
                },
                Choice::And(cs) => {
                    proof {
                        assert(action.choices.target == Choice::And(*cs));
                    }
                    Err(ResolveError::InvalidTarget)
                },
            }
        },
        Effect::Discard(count) => {
            proof {
                assert(*effect == Effect::Discard(*count));
            }
            match &r.choice {
                Choice::And(choices) => {
                    proof {
                        assert(r.choice == Choice::And(*choices));
                        crate::action::lemma_choice_view_and(*choices);
                    }
                    if choices.len() != *count {
                        return Err(ResolveError::InvalidChoice);
                    }
                    let ghost cs = crate::action::choice_views(choices@);
                    let mut i: usize = 0;
                    proof {
                        assert(cs.subrange(0, 0) =~= Seq::<ChoiceView>::empty());
                    }
                    while i < choices.len()
                        invariant
                            0 <= i <= choices@.len(),
                            cs == crate::action::choice_views(choices@),
                            discards_applied(*old(game), *game, cs.subrange(0, i as int)),
                        decreases choices@.len() - i,
                    {
                        let ghost mid = *game;
                        match &choices[i] {
                            Choice::Card(card_id) => {
                                proof {
                                    assert(choices@[i as int] == Choice::Card(*card_id));
                                    crate::game::lemma_find_card(game.cards@, *card_id);
                                }
                                crate::card::put_on_graveyard(game, *card_id);
                            },
                            _ => {},
                        }
                        proof {
                            assert(cs.subrange(0, i + 1).drop_last() =~= cs.subrange(0, i as int));
                            assert(cs.subrange(0, i + 1).last() == cs[i as int]);
                            assert(discards_step(*old(game), mid, *game, cs.subrange(0, i + 1)));
                            assert(crate::game::game_step_witness(mid));
                        }
                        i = i + 1;
                    }
                    proof {
                        assert(cs.subrange(0, cs.len() as int) =~= cs);
                    }
                    Ok(None)
                },
                Choice::Card(card_id) => {
                    proof {
                        assert(r.choice == Choice::Card(*card_id));
                        crate::game::lemma_find_card(game.cards@, *card_id);
                    }
                    crate::card::put_on_graveyard(game, *card_id);
                    Ok(None)
                },
                Choice::Nothing => {
                    proof {
                        assert(r.choice == Choice::Nothing);
                    }
                    Err(ResolveError::InvalidChoice)
                },
                Choice::Mana(m) => {
                    proof {
                        assert(r.choice == Choice::Mana(*m));
                    }
                    Err(ResolveError::InvalidChoice)
                },
                Choice::Player(p) => {
                    proof {
                        assert(r.choice == Choice::Player(*p));
                    }
                    Err(ResolveError::InvalidChoice)
                },
            }
        },
        Effect::Draw(count) => {
            proof {
                assert(*effect == Effect::Draw(*count));
            }
            match &action.required.target {
                Target::Owner => {
                    proof {
                        assert(action.required.target == Target::Owner);
                    }
                    draw_many(game, action.player_id, *count);
                    Ok(None)
                },
                Target::Player => {
                    proof {
                        assert(action.required.target == Target::Player);
                    }
                    match &action.choices.target {
                        Choice::Player(player_id) => {
                            proof {
                                assert(action.choices.target == Choice::Player(*player_id));
                            }
                            draw_many(game, *player_id, *count);
                            Ok(None)
                        },
                        Choice::Nothing => {
                            proof {
                                assert(action.choices.target == Choice::Nothing);
                            }
                            Ok(None)
                        },
                        Choice::Mana(m) => {
                            proof {
                                assert(action.choices.target == Choice::Mana(*m));
                            }
                            Ok(None)
                        },
                        Choice::Card(c) => {
                            proof {
                                assert(action.choices.target == Choice::Card(*c));
                            }
                            Ok(None)
                        },
                        Choice::And(cs) => {
                            proof {
                                assert(action.choices.target == Choice::And(*cs));
                            }
                            Ok(None)
                        },
                    }
                },
                Target::Nothing => {
                    proof {
                        assert(action.required.target == Target::Nothing);
                    }
                    Err(ResolveError::InvalidTarget)
                },
                Target::Source => {
                    proof {
                        assert(action.required.target == Target::Source);
                    }
                    Err(ResolveError::InvalidTarget)
                },
                Target::Creature => {
                    proof {
                        assert(action.required.target == Target::Creature);
                    }
                    Err(ResolveError::InvalidTarget)
                },
                Target::AnyOf(options) => {
                    proof {
                        assert(action.required.target == Target::AnyOf(*options));
                        lemma_target_view_any_of(*options);
                    }
                    Err(ResolveError::InvalidTarget)
                },
            }
        },
        Effect::Nothing => {
            proof {
                assert(*effect == Effect::Nothing);
            }
            Err(ResolveError::UnknownEffect)
        },
        Effect::And(effects) => {
            proof {
                assert(*effect == Effect::And(*effects));
                lemma_effect_view_and(*effects);
            }
            Err(ResolveError::UnknownEffect)
        },
    }
}

/// Draws `count` cards in a row for the player.
fn draw_many(game: &mut crate::game::Game, player_id: crate::game::ObjectId, count: usize)
    ensures
        draws_applied(*old(game), *final(game), player_id, count as nat),
{
    let mut i: usize = 0;
    while i < count
        invariant
            0 <= i <= count,
            draws_applied(*old(game), *game, player_id, i as nat),
        decreases count - i,
    {
        let ghost mid = *game;
        let ppos = game.player_pos(player_id);
        proof {
            crate::game::lemma_find_player(game.players@, player_id);
        }
        crate::card::draw_card(game, player_id);
        proof {
            assert(draws_step(*old(game), mid, *game, player_id, (i + 1) as nat));
            assert(crate::game::game_step_witness(mid));
        }
        i = i + 1;
    }
}


/// How many effects the resolving slot still holds: the queue length of a
/// sequence (plus the entry itself), one for a singular effect, none for
/// an empty slot.
pub open spec fn queue_len(g: crate::game::Game) -> int {
    match g.resolve {
        None => 0,
        Some(entry) => match entry.effect {
            Effect::And(es) => es@.len() as int + 1,
            _ => 1,
        },
    }
}

/// How one resolution round ends: the entry is fully consumed, pauses for
/// a player choice, rejects the call, or continues by itself because the
/// next effect needs no input.
pub enum RoundOutcome {
    Done,
    Pause(ResolveChoiceView),
    Fail(ResolveError),
    Auto,
}

/// Marks a round result as the witness of a resolution run.
pub open spec fn round_result_witness(r: Result<Option<ResolveChoiceView>, ResolveError>) -> bool {
    true
}

/// Whether `g1.resolve` holds the old entry with its effect queue
/// shortened by the applied head, everything else taken from `mid`.
pub open spec fn shortened_entry_restored(
    mid: crate::game::Game,
    g1: crate::game::Game,
    entry: Resolve,
    effects: Seq<Effect>,
) -> bool {
    &&& g1 == (crate::game::Game { resolve: g1.resolve, ..mid })
    &&& g1.resolve matches Some(e2) && e2.action == entry.action && e2.player_id
        == entry.player_id && e2.kind == entry.kind && (e2.effect matches Effect::And(es2)
        && es2@ == effects.drop_first())
}

/// What one round of `resolve_choice` does: with nothing resolving it
/// fails; an empty queue is already done; otherwise the front effect is
/// applied with the supplied round, the queue shrinks, and the round ends
/// done, paused on the next choice request, failed with the apply error,
/// or continuing by itself.
pub open spec fn round_applied(
    g0: crate::game::Game,
    g1: crate::game::Game,
    rc: ResolveChoiceView,
    out: RoundOutcome,
) -> bool {
    match g0.resolve {
        None => out == RoundOutcome::Fail(ResolveError::EmptyStack) && g1 == g0,
        Some(entry) => {
            let stripped = crate::game::Game { resolve: None, ..g0 };
            match entry.effect {
                Effect::And(effects) => if effects@.len() == 0 {
                    out == RoundOutcome::Done && g1 == g0
                } else {
                    exists|mid: crate::game::Game|
                        #[trigger] crate::game::game_step_witness(mid) && {
                            let head = effect_views(effects@)[0];
                            match out {
                                RoundOutcome::Fail(e) => effect_outcome(
                                    stripped,
                                    mid,
                                    head,
                                    entry.action@,
                                    rc,
                                    Some(e),
                                ) && g1 == (crate::game::Game { resolve: g0.resolve, ..mid }),
                                RoundOutcome::Done => effect_outcome(
                                    stripped,
                                    mid,
                                    head,
                                    entry.action@,
                                    rc,
                                    None,
                                ) && effects@.len() == 1 && shortened_entry_restored(
                                    mid,
                                    g1,
                                    entry,
                                    effects@,
                                ),
                                RoundOutcome::Pause(rcv) => effect_outcome(
                                    stripped,
                                    mid,
                                    head,
                                    entry.action@,
                                    rc,
                                    None,
                                ) && effects@.len() > 1 && shortened_entry_restored(
                                    mid,
                                    g1,
                                    entry,
                                    effects@,
                                ) && next_resolve_choice_spec((g1.resolve->0)@) == Some(rcv),
                                RoundOutcome::Auto => effect_outcome(
                                    stripped,
                                    mid,
                                    head,
                                    entry.action@,
                                    rc,
                                    None,
                                ) && effects@.len() > 1 && shortened_entry_restored(
                                    mid,
                                    g1,
                                    entry,
                                    effects@,
                                ) && next_resolve_choice_spec((g1.resolve->0)@) is None,
                            }
                        }
                },
                _ => exists|mid: crate::game::Game|
                    #[trigger] crate::game::game_step_witness(mid) && g1 == (crate::game::Game {
                        resolve: g0.resolve,
                        ..mid
                    }) && match out {
                        RoundOutcome::Done => effect_outcome(
                            stripped,
                            mid,
                            entry.effect@,
                            entry.action@,
                            rc,
                            None,
                        ),
                        RoundOutcome::Fail(e) => effect_outcome(
                            stripped,
                            mid,
                            entry.effect@,
                            entry.action@,
                            rc,
                            Some(e),
                        ),
                        _ => false,
                    },
            }
        },
    }
}

/// The round that `resolve_choice` runs with a default, empty choice when
/// it continues by itself.
pub open spec fn default_round() -> ResolveChoiceView {
    ResolveChoiceView {
        choice: ChoiceView::Nothing,
        player_id: 0,
        effect: EffectView::Nothing,
    }
}

/// Whether the run must pause for the player's input before applying the
/// effect `e`: a wildcard mana effect needs a color selection, and a
/// discard aimed at a player needs their card selection.  Mirrors the
/// `Some` cases of `next_resolve_choice_spec`.
pub open spec fn effect_pauses(e: EffectView, a: crate::action::ActionView) -> bool {
    match e {
        EffectView::Mana(m) => m.any > 0,
        EffectView::Discard(_) => a.chosen_target is Player || a.required_target
            == TargetView::Owner,
        _ => false,
    }
}

/// The pause test agrees with `next_resolve_choice_spec` on the entry's
/// head effect.
pub proof fn lemma_pauses_next(rv: ResolveView)
    ensures
        next_resolve_choice_spec(rv) is Some <==> effect_pauses(head_effect(rv.effect), rv.action),
{
}

/// Which error applying the effect `e` returns for the shapes of the
/// action's targets and the round's choice `c` alone, if any; the
/// state-independent error cases of `effect_outcome`.
pub open spec fn effect_shape_error(
    e: EffectView,
    a: crate::action::ActionView,
    c: ChoiceView,
) -> Option<ResolveError> {
    match e {
        EffectView::Mana(m) => if m.any > 0 && !(c is Mana) {
            Some(ResolveError::InvalidChoice)
        } else {
            None
        },
        EffectView::Damage(_) => match a.chosen_target {
            ChoiceView::Player(_) => None,
            ChoiceView::Card(_) => None,
            _ => Some(ResolveError::InvalidTarget),
        },
        EffectView::Discard(n) => match c {
            ChoiceView::And(cs) => if cs.len() != n {
                Some(ResolveError::InvalidChoice)
            } else {
                None
            },
            ChoiceView::Card(_) => None,
            _ => Some(ResolveError::InvalidChoice),
        },
        EffectView::Draw(_) => match a.required_target {
            TargetView::Owner => None,
            TargetView::Player => None,
            _ => Some(ResolveError::InvalidTarget),
        },
        _ => Some(ResolveError::UnknownEffect),
    }
}

/// Which error one resolution round returns on the game `g`, if any;
/// exactly the error cases of `effect_outcome`.
pub open spec fn round_error(
    g: crate::game::Game,
    e: EffectView,
    a: crate::action::ActionView,
    rc: ResolveChoiceView,
) -> Option<ResolveError> {
    if !resolve_choice_ok(g, rc.effect, rc.choice, rc.player_id) {
        Some(ResolveError::InvalidChoice)
    } else if g.player_index(a.player_id) == -1 {
        Some(ResolveError::UnknownActionOwner)
    } else {
        effect_shape_error(e, a, rc.choice)
    }
}

/// `effect_outcome` errs with exactly the error `round_error` reads off
/// the starting game.
pub proof fn lemma_effect_outcome_error(
    g0: crate::game::Game,
    g1: crate::game::Game,
    e: EffectView,
    a: crate::action::ActionView,
    rc: ResolveChoiceView,
    err: Option<ResolveError>,
)
    requires
        effect_outcome(g0, g1, e, a, rc, err),
    ensures
        err == round_error(g0, e, a, rc),
{
}

/// The first error an uninterrupted run over the effect queue `es` meets
/// on the game `g`, if any: the first round uses the supplied round `rc`,
/// later rounds the default one, and the scan stops where the run would
/// pause for input or is done.
pub open spec fn queue_error(
    g: crate::game::Game,
    es: Seq<EffectView>,
    a: crate::action::ActionView,
    rc: ResolveChoiceView,
) -> Option<ResolveError>
    decreases es.len(),
{
    if es.len() == 0 {
        None
    } else {
        match round_error(g, es[0], a, rc) {
            Some(e) => Some(e),
            None => if es.len() == 1 || effect_pauses(es[1], a) {
                None
            } else {
                queue_error(g, es.drop_first(), a, default_round())
            },
        }
    }
}

/// The error a full `resolve_choice` call on `g` reports, if any, read
/// off the unchanged game: nothing resolving is an empty-stack error, a
/// queued entry is scanned round by round, and a single effect makes one
/// round.
pub open spec fn first_run_error(g: crate::game::Game, rc: ResolveChoiceView) -> Option<
    ResolveError,
> {
    match g.resolve {
        None => Some(ResolveError::EmptyStack),
        Some(entry) => match entry.effect {
            Effect::And(es) => if es@.len() == 0 {
                None
            } else {
                queue_error(g, effect_views(es@), entry.action@, rc)
            },
            _ => round_error(g, entry.effect@, entry.action@, rc),
        },
    }
}

/// What a full `resolve_choice` call does: a run that meets an error
/// reports the first one and leaves the game exactly unchanged; an
/// error-free run takes the rounds of `auto_rounds`.
pub open spec fn resolve_run(
    g0: crate::game::Game,
    g1: crate::game::Game,
    rc: ResolveChoiceView,
    res: Result<Option<ResolveChoiceView>, ResolveError>,
) -> bool {
    match res {
        Err(e) => g1 == g0 && first_run_error(g0, rc) == Some(e),
        Ok(_) => first_run_error(g0, rc) is None && auto_rounds(
            g0,
            g1,
            rc,
            res,
            (queue_len(g0) + 1) as nat,
        ),
    }
}

/// Listed hand cards read the two games' identical card registries alike.
pub proof fn lemma_hand_cards_same(
    ga: crate::game::Game,
    gb: crate::game::Game,
    cs: Seq<ChoiceView>,
    pid: crate::game::ObjectId,
)
    requires
        ga.cards@ == gb.cards@,
    ensures
        all_hand_cards(ga, cs, pid) == all_hand_cards(gb, cs, pid),
    decreases cs.len(),
{
    if cs.len() > 0 {
        assert(hand_card(ga, cs[0], pid) == hand_card(gb, cs[0], pid));
        lemma_hand_cards_same(ga, gb, cs.drop_first(), pid);
    }
}

/// Choice validity reads the two games' identical card registries alike.
pub proof fn lemma_choice_ok_same(
    ga: crate::game::Game,
    gb: crate::game::Game,
    e: EffectView,
    c: ChoiceView,
    pid: crate::game::ObjectId,
)
    requires
        ga.cards@ == gb.cards@,
    ensures
        resolve_choice_ok(ga, e, c, pid) == resolve_choice_ok(gb, e, c, pid),
{
    match e {
        EffectView::Discard(n) => {
            match c {
                ChoiceView::Card(_) => {
                    assert(hand_card(ga, c, pid) == hand_card(gb, c, pid));
                },
                ChoiceView::And(cs) => {
                    lemma_hand_cards_same(ga, gb, cs, pid);
                },
                _ => {},
            }
        },
        _ => {},
    }
}

/// The round error reads two games with the same players and cards alike.
pub proof fn lemma_round_error_same(
    ga: crate::game::Game,
    gb: crate::game::Game,
    e: EffectView,
    a: crate::action::ActionView,
    rc: ResolveChoiceView,
)
    requires
        ga.cards@ == gb.cards@,
        ga.players@ == gb.players@,
    ensures
        round_error(ga, e, a, rc) == round_error(gb, e, a, rc),
{
    lemma_choice_ok_same(ga, gb, rc.effect, rc.choice, rc.player_id);
}

/// The round error of a default round reads two games that register the
/// same players alike: the default choice is valid everywhere, and the
/// remaining checks only look the actor up.
pub proof fn lemma_auto_round_error_same(
    ga: crate::game::Game,
    gb: crate::game::Game,
    e: EffectView,
    a: crate::action::ActionView,
)
    requires
        crate::game::same_player_ids(ga, gb),
    ensures
        round_error(ga, e, a, default_round()) == round_error(gb, e, a, default_round()),
{
    assert(resolve_choice_ok(
        ga,
        default_round().effect,
        default_round().choice,
        default_round().player_id,
    ));
    assert(resolve_choice_ok(
        gb,
        default_round().effect,
        default_round().choice,
        default_round().player_id,
    ));
    crate::game::lemma_find_player_ids(ga.players@, gb.players@, a.player_id);
}

/// The queue scan under default rounds reads two games that register the
/// same players alike.
pub proof fn lemma_queue_error_auto_same(
    ga: crate::game::Game,
    gb: crate::game::Game,
    es: Seq<EffectView>,
    a: crate::action::ActionView,
)
    requires
        crate::game::same_player_ids(ga, gb),
    ensures
        queue_error(ga, es, a, default_round()) == queue_error(gb, es, a, default_round()),
    decreases es.len(),
{
    if es.len() > 0 {
        lemma_auto_round_error_same(ga, gb, es[0], a);
        if round_error(ga, es[0], a, default_round()) is None && es.len() > 1 && !effect_pauses(
            es[1],
            a,
        ) {
            lemma_queue_error_auto_same(ga, gb, es.drop_first(), a);
        }
    }
}

/// A zone change never registers or removes a player.
pub proof fn lemma_change_zone_ids(
    g0: crate::game::Game,
    g1: crate::game::Game,
    cid: usize,
    z: crate::card::Zone,
)
    requires
        crate::card::change_zone_post(g0, g1, cid, z),
    ensures
        crate::game::same_player_ids(g0, g1),
{
    let ci = g0.card_index(cid);
    let oi = g0.player_index(g0.cards@[ci].owner_id);
    if oi != -1 {
        crate::game::lemma_find_player(g0.players@, g0.cards@[ci].owner_id);
        assert forall|j: int|
            0 <= j < g0.players@.len() implies g1.players@[j].id == (
        #[trigger] g0.players@[j]).id by {
            if j != oi {
                assert(g1.players@[j] == g0.players@[j]);
            }
        }
    }
}

/// A drawn card never registers or removes a player.
pub proof fn lemma_draw_post_ids(
    g0: crate::game::Game,
    g1: crate::game::Game,
    pid: usize,
    c: usize,
)
    requires
        crate::card::draw_card_post(g0, g1, pid, c),
    ensures
        crate::game::same_player_ids(g0, g1),
{
    let (mid1, mid2): (crate::game::Game, crate::game::Game) = choose|
        mid1: crate::game::Game,
        mid2: crate::game::Game,
    |
        {
            &&& #[trigger] crate::card::library_popped(g0, mid1, pid, c)
            &&& (mid1.card_index(c) == -1 ==> mid2 == mid1)
            &&& (mid1.card_index(c) != -1 ==> crate::card::change_zone_post(
                mid1,
                mid2,
                c,
                crate::card::Zone::Hand,
            ))
            &&& #[trigger] crate::events::stack_extended_by_triggers(
                mid2,
                g1,
                crate::events::Event::Draw(
                    crate::events::CardEvent { owner: pid, source: None, card: c },
                ),
            )
        };
    let pi = g0.player_index(pid);
    assert forall|j: int|
        0 <= j < g0.players@.len() implies mid1.players@[j].id == (
    #[trigger] g0.players@[j]).id by {
        if j != pi {
            assert(mid1.players@[j] == g0.players@[j]);
        }
    }
    if mid1.card_index(c) != -1 {
        lemma_change_zone_ids(mid1, mid2, c, crate::card::Zone::Hand);
    }
    assert forall|j: int|
        0 <= j < g0.players@.len() implies g1.players@[j].id == (
    #[trigger] g0.players@[j]).id by {
        assert(mid1.players@[j].id == g0.players@[j].id);
        assert(mid2.players@[j].id == mid1.players@[j].id);
    }
}

/// One draw never registers or removes a player.
pub proof fn lemma_draw_outcome_ids(
    g0: crate::game::Game,
    g1: crate::game::Game,
    pid: crate::game::ObjectId,
)
    requires
        draw_outcome(g0, g1, pid),
    ensures
        crate::game::same_player_ids(g0, g1),
{
    let pi = g0.player_index(pid);
    if pi != -1 && crate::storage::id_set_elems(g0.players@[pi].library).len() != 0 {
        lemma_draw_post_ids(
            g0,
            g1,
            pid,
            crate::storage::id_set_elems(g0.players@[pi].library).last(),
        );
    }
}

/// A run of draws never registers or removes a player.
pub proof fn lemma_draws_applied_ids(
    g0: crate::game::Game,
    g1: crate::game::Game,
    pid: crate::game::ObjectId,
    n: nat,
)
    requires
        draws_applied(g0, g1, pid, n),
    ensures
        crate::game::same_player_ids(g0, g1),
    decreases n,
{
    if n > 0 {
        let mid = choose|mid: crate::game::Game|
            #[trigger] crate::game::game_step_witness(mid) && draws_step(g0, mid, g1, pid, n);
        lemma_draws_applied_ids(g0, mid, pid, (n - 1) as nat);
        lemma_draw_outcome_ids(mid, g1, pid);
        assert forall|j: int|
            0 <= j < g0.players@.len() implies g1.players@[j].id == (
        #[trigger] g0.players@[j]).id by {
            assert(mid.players@[j].id == g0.players@[j].id);
        }
    }
}

/// A run of discards never registers or removes a player.
pub proof fn lemma_discards_applied_ids(
    g0: crate::game::Game,
    g1: crate::game::Game,
    cs: Seq<ChoiceView>,
)
    requires
        discards_applied(g0, g1, cs),
    ensures
        crate::game::same_player_ids(g0, g1),
    decreases cs.len(),
{
    if cs.len() > 0 {
        let mid = choose|mid: crate::game::Game|
            #[trigger] crate::game::game_step_witness(mid) && discards_step(g0, mid, g1, cs);
        lemma_discards_applied_ids(g0, mid, cs.drop_last());
        match cs.last() {
            ChoiceView::Card(cid) => {
                if mid.card_index(cid) != -1 {
                    lemma_change_zone_ids(mid, g1, cid, crate::card::Zone::Graveyard);
                }
            },
            _ => {},
        }
        assert forall|j: int|
            0 <= j < g0.players@.len() implies g1.players@[j].id == (
        #[trigger] g0.players@[j]).id by {
            assert(mid.players@[j].id == g0.players@[j].id);
        }
    }
}

/// Gained mana never registers or removes a player.
pub proof fn lemma_mana_gained_ids(
    g0: crate::game::Game,
    g1: crate::game::Game,
    pid: crate::game::ObjectId,
    m: Mana,
)
    requires
        crate::game::mana_gained(g0, g1, pid, m),
    ensures
        crate::game::same_player_ids(g0, g1),
{
    let pi = g0.player_index(pid);
    if pi != -1 {
        crate::game::lemma_find_player(g0.players@, pid);
    }
}

/// Player damage never registers or removes a player.
pub proof fn lemma_player_damaged_ids(
    g0: crate::game::Game,
    g1: crate::game::Game,
    pid: crate::game::ObjectId,
    d: u16,
)
    requires
        player_damaged(g0, g1, pid, d),
    ensures
        crate::game::same_player_ids(g0, g1),
{
    let pi = g0.player_index(pid);
    if !(d == 0 || pi == -1) {
        crate::game::lemma_find_player(g0.players@, pid);
    }
}

/// Creature damage never registers or removes a player.
pub proof fn lemma_creature_damaged_ids(
    g0: crate::game::Game,
    g1: crate::game::Game,
    cid: crate::game::ObjectId,
    d: u16,
)
    requires
        creature_damaged(g0, g1, cid, d),
    ensures
        crate::game::same_player_ids(g0, g1),
{
    let ci = g0.card_index(cid);
    if !(d == 0 || ci == -1 || g0.cards@[ci].kind != crate::card::CardType::Creature) {
        let c = g0.cards@[ci];
        let nt = clamped_life(c.state.toughness.current, d);
        if nt <= 0 {
            let hurt = crate::card::Card {
                state: crate::card::CardState {
                    toughness: crate::game::Value { current: nt, ..c.state.toughness },
                    ..c.state
                },
                ..c
            };
            let mid = choose|mid: crate::game::Game|
                {
                    &&& #[trigger] crate::game::game_step_witness(mid)
                    &&& mid == (crate::game::Game { cards: mid.cards, ..g0 })
                    &&& mid.cards@ == g0.cards@.update(ci, hurt)
                    &&& crate::card::change_zone_post(mid, g1, cid, crate::card::Zone::Graveyard)
                };
            lemma_change_zone_ids(mid, g1, cid, crate::card::Zone::Graveyard);
            assert forall|j: int|
                0 <= j < g0.players@.len() implies g1.players@[j].id == (
            #[trigger] g0.players@[j]).id by {
                assert(mid.players@[j].id == g0.players@[j].id);
            }
        }
    }
}

/// Applying one effect never registers or removes a player, whatever it
/// ends with.
pub proof fn lemma_effect_outcome_ids(
    g0: crate::game::Game,
    g1: crate::game::Game,
    e: EffectView,
    a: crate::action::ActionView,
    rc: ResolveChoiceView,
    err: Option<ResolveError>,
)
    requires
        effect_outcome(g0, g1, e, a, rc, err),
    ensures
        crate::game::same_player_ids(g0, g1),
{
    if resolve_choice_ok(g0, rc.effect, rc.choice, rc.player_id) && g0.player_index(a.player_id)
        != -1 {
        match e {
            EffectView::Mana(m) => {
                if m.any > 0 {
                    match rc.choice {
                        ChoiceView::Mana(chosen) => {
                            lemma_mana_gained_ids(g0, g1, a.player_id, chosen);
                        },
                        _ => {},
                    }
                } else {
                    lemma_mana_gained_ids(g0, g1, a.player_id, m);
                }
            },
            EffectView::Damage(d) => {
                match a.chosen_target {
                    ChoiceView::Player(pid) => {
                        lemma_player_damaged_ids(g0, g1, pid, d);
                    },
                    ChoiceView::Card(cid) => {
                        lemma_creature_damaged_ids(g0, g1, cid, d);
                    },
                    _ => {},
                }
            },
            EffectView::Discard(n) => {
                match rc.choice {
                    ChoiceView::And(cs) => {
                        if cs.len() == n {
                            lemma_discards_applied_ids(g0, g1, cs);
                        }
                    },
                    ChoiceView::Card(cid) => {
                        if g0.card_index(cid) != -1 {
                            lemma_change_zone_ids(g0, g1, cid, crate::card::Zone::Graveyard);
                        }
                    },
                    _ => {},
                }
            },
            EffectView::Draw(n) => {
                match a.required_target {
                    TargetView::Owner => {
                        lemma_draws_applied_ids(g0, g1, a.player_id, n as nat);
                    },
                    TargetView::Player => {
                        match a.chosen_target {
                            ChoiceView::Player(pid) => {
                                lemma_draws_applied_ids(g0, g1, pid, n as nat);
                            },
                            _ => {},
                        }
                    },
                    _ => {},
                }
            },
            _ => {},
        }
    }
}

/// What a run of resolution rounds does: one round settles the result, or
/// a self-continuing round is followed by further rounds with the default
/// choice.  `n` bounds how many rounds the run may take.
pub open spec fn auto_rounds(
    g0: crate::game::Game,
    g1: crate::game::Game,
    rc: ResolveChoiceView,
    res: Result<Option<ResolveChoiceView>, ResolveError>,
    n: nat,
) -> bool
    decreases n,
{
    n > 0 && {
        ||| (res == Ok::<Option<ResolveChoiceView>, ResolveError>(None) && round_applied(
            g0,
            g1,
            rc,
            RoundOutcome::Done,
        ))
        ||| (res matches Ok(o) && o matches Some(rcv) && round_applied(
            g0,
            g1,
            rc,
            RoundOutcome::Pause(rcv),
        ))
        ||| (res matches Err(e) && round_applied(g0, g1, rc, RoundOutcome::Fail(e)))
        ||| (exists|mid: crate::game::Game|
            #[trigger] crate::game::game_step_witness(mid) && round_applied(
                g0,
                mid,
                rc,
                RoundOutcome::Auto,
            ) && auto_rounds(mid, g1, default_round(), res, (n - 1) as nat))
    }
}

/// Whether the run must pause before applying the effect; see
/// `effect_pauses`.
fn pauses_of(e: &Effect, action: &crate::action::Action) -> (r: bool)
    ensures
        r == effect_pauses(e@, action@),
{
    match e {
        Effect::Mana(m) => {
            proof {
                assert(*e == Effect::Mana(*m));
            }
            m.has(&crate::mana::Color::Any)
        },
        Effect::Discard(n) => {
            proof {
                assert(*e == Effect::Discard(*n));
            }
            let chosen_player = match &action.choices.target {
                Choice::Player(p) => {
                    proof {
                        assert(action.choices.target == Choice::Player(*p));
                    }
                    true
                },
                Choice::Nothing => {
                    proof {
                        assert(action.choices.target == Choice::Nothing);
                    }
                    false
                },
                Choice::Mana(m) => {
                    proof {
                        assert(action.choices.target == Choice::Mana(*m));
                    }
                    false
                },
                Choice::Card(cd) => {
                    proof {
                        assert(action.choices.target == Choice::Card(*cd));
                    }
                    false
                },
                Choice::And(cs) => {
                    proof {
                        assert(action.choices.target == Choice::And(*cs));
                        crate::action::lemma_choice_view_and(*cs);
                    }
                    false
                },
            };
            if chosen_player {
                return true;
            }
            matches!(action.required.target, Target::Owner)
        },
        Effect::Nothing => {
            proof {
                assert(*e == Effect::Nothing);
            }
            false
        },
        Effect::Damage(d) => {
            proof {
                assert(*e == Effect::Damage(*d));
            }
            false
        },
        Effect::Draw(d) => {
            proof {
                assert(*e == Effect::Draw(*d));
            }
            false
        },
        Effect::And(es) => {
            proof {
                assert(*e == Effect::And(*es));
                lemma_effect_view_and(*es);
            }
            false
        },
    }
}

/// The shape error of one effect; see `effect_shape_error`.
fn shape_error_of(e: &Effect, action: &crate::action::Action, c: &Choice) -> (r: Option<
    ResolveError,
>)
    ensures
        r == effect_shape_error(e@, action@, c@),
{
    match e {
        Effect::Nothing => {
            proof {
                assert(*e == Effect::Nothing);
            }
            Some(ResolveError::UnknownEffect)
        },
        Effect::Mana(m) => {
            proof {
                assert(*e == Effect::Mana(*m));
            }
            if m.has(&crate::mana::Color::Any) && !matches!(c, Choice::Mana(_)) {
                Some(ResolveError::InvalidChoice)
            } else {
                None
            }
        },
        Effect::Damage(d) => {
            proof {
                assert(*e == Effect::Damage(*d));
            }
            match &action.choices.target {
                Choice::Player(p) => {
                    proof {
                        assert(action.choices.target == Choice::Player(*p));
                    }
                    None
                },
                Choice::Card(cd) => {
                    proof {
                        assert(action.choices.target == Choice::Card(*cd));
                    }
                    None
                },
                Choice::Nothing => {
                    proof {
                        assert(action.choices.target == Choice::Nothing);
                    }
                    Some(ResolveError::InvalidTarget)
                },
                Choice::Mana(m) => {
                    proof {
                        assert(action.choices.target == Choice::Mana(*m));
                    }
                    Some(ResolveError::InvalidTarget)
                },
                Choice::And(cs) => {
                    proof {
                        assert(action.choices.target == Choice::And(*cs));
                        crate::action::lemma_choice_view_and(*cs);
                    }
                    Some(ResolveError::InvalidTarget)
                },
            }
        },
        Effect::Discard(n) => {
            proof {
                assert(*e == Effect::Discard(*n));
            }
            match c {
                Choice::And(cs) => {
                    proof {
                        assert(*c == Choice::And(*cs));
                        crate::action::lemma_choice_view_and(*cs);
                    }
                    if cs.len() != *n {
                        Some(ResolveError::InvalidChoice)
                    } else {
                        None
                    }
                },
                Choice::Card(cd) => {
                    proof {
                        assert(*c == Choice::Card(*cd));
                    }
                    None
                },
                Choice::Nothing => {
                    proof {
                        assert(*c == Choice::Nothing);
                    }
                    Some(ResolveError::InvalidChoice)
                },
                Choice::Mana(m) => {
                    proof {
                        assert(*c == Choice::Mana(*m));
                    }
                    Some(ResolveError::InvalidChoice)
                },
                Choice::Player(p) => {
                    proof {
                        assert(*c == Choice::Player(*p));
                    }
                    Some(ResolveError::InvalidChoice)
                },
            }
        },
        Effect::Draw(d) => {
            proof {
                assert(*e == Effect::Draw(*d));
            }
            if matches!(action.required.target, Target::Owner | Target::Player) {
                None
            } else {
                Some(ResolveError::InvalidTarget)
            }
        },
        Effect::And(es) => {
            proof {
                assert(*e == Effect::And(*es));
                lemma_effect_view_and(*es);
            }
            Some(ResolveError::UnknownEffect)
        },
    }
}

/// The error one round with the supplied round `rc` returns on this game,
/// if any; see `round_error`.
fn round_error_of(
    game: &crate::game::Game,
    e: &Effect,
    action: &crate::action::Action,
    rc: &ResolveChoice,
) -> (r: Option<ResolveError>)
    ensures
        r == round_error(*game, e@, action@, rc@),
{
    if !rc.valid_choice(game) {
        return Some(ResolveError::InvalidChoice);
    }
    let missing = game.player_pos(action.player_id).is_none();
    proof {
        crate::game::lemma_find_player(game.players@, action.player_id);
    }
    if missing {
        return Some(ResolveError::UnknownActionOwner);
    }
    shape_error_of(e, action, &rc.choice)
}

/// The error one default round returns on this game, if any; see
/// `round_error` at `default_round`.
fn auto_round_error_of(game: &crate::game::Game, e: &Effect, action: &crate::action::Action) -> (r:
    Option<ResolveError>)
    ensures
        r == round_error(*game, e@, action@, default_round()),
{
    proof {
        assert(resolve_choice_ok(
            *game,
            default_round().effect,
            default_round().choice,
            default_round().player_id,
        ));
    }
    let missing = game.player_pos(action.player_id).is_none();
    proof {
        crate::game::lemma_find_player(game.players@, action.player_id);
    }
    if missing {
        return Some(ResolveError::UnknownActionOwner);
    }
    let r = shape_error_of(e, action, &Choice::Nothing);
    proof {
        assert(Choice::Nothing@ == default_round().choice);
    }
    r
}

/// The first error an uninterrupted run over this effect queue meets, if
/// any; see `queue_error`.
fn scan_queue(
    game: &crate::game::Game,
    effects: &Vec<Effect>,
    action: &crate::action::Action,
    rc: &ResolveChoice,
) -> (r: Option<ResolveError>)
    requires
        effects@.len() > 0,
    ensures
        r == queue_error(*game, effect_views(effects@), action@, rc@),
{
    let ghost evs = effect_views(effects@);
    let r0 = round_error_of(game, &effects[0], action, rc);
    proof {
        assert(evs[0] == effects@[0]@);
    }
    match r0 {
        Some(err) => {
            return Some(err);
        },
        None => {},
    }
    if effects.len() == 1 {
        return None;
    }
    proof {
        assert(evs[1] == effects@[1]@);
    }
    if pauses_of(&effects[1], action) {
        return None;
    }
    proof {
        assert(evs.drop_first() =~= evs.subrange(1, evs.len() as int));
    }
    let mut k: usize = 1;
    while k < effects.len()
        invariant
            1 <= k <= effects@.len(),
            evs == effect_views(effects@),
            queue_error(*game, evs, action@, rc@) == queue_error(
                *game,
                evs.subrange(k as int, evs.len() as int),
                action@,
                default_round(),
            ),
        decreases effects@.len() - k,
    {
        let rk = auto_round_error_of(game, &effects[k], action);
        proof {
            assert(evs.subrange(k as int, evs.len() as int)[0] == evs[k as int]);
            assert(evs[k as int] == effects@[k as int]@);
        }
        match rk {
            Some(err) => {
                return Some(err);
            },
            None => {},
        }
        if k + 1 < effects.len() {
            proof {
                assert(evs.subrange(k as int, evs.len() as int)[1] == evs[k + 1]);
                assert(evs[k + 1] == effects@[k + 1]@);
            }
            if pauses_of(&effects[k + 1], action) {
                return None;
            }
            proof {
                assert(evs.subrange(k as int, evs.len() as int).drop_first() =~= evs.subrange(
                    k + 1,
                    evs.len() as int,
                ));
            }
        } else {
            proof {
                assert(evs.subrange(k as int, evs.len() as int).len() == 1);
            }
        }
        k = k + 1;
    }
    proof {
        assert(evs.subrange(evs.len() as int, evs.len() as int).len() == 0);
    }
    None
}

/// Resolves the front of the current entry's effect queue with the
/// supplied choice and reports the next choice the resolving player must
/// make, if any.  When the next queued effect needs no player input, the
/// engine continues with it at once.  The whole run is checked before
/// anything is applied: a call that reports an error leaves the game
/// exactly unchanged.
pub fn resolve_choice(game: &mut crate::game::Game, choice: ResolveChoice) -> (res: Result<
    Option<ResolveChoice>,
    ResolveError,
>)
    ensures
        resolve_run(
            *old(game),
            *final(game),
            choice@,
            match res {
                Ok(o) => Ok(
                    match o {
                        Some(rc) => Some(rc@),
                        None => None,
                    },
                ),
                Err(e) => Err(e),
            },
        ),
    decreases queue_len(*old(game)),
{
    let scan: Option<ResolveError> = match &game.resolve {
        None => Some(ResolveError::EmptyStack),
        Some(entry) => match &entry.effect {
            Effect::And(es) => {
                proof {
                    assert(entry.effect == Effect::And(*es));
                    lemma_effect_view_and(*es);
                }
                if es.len() == 0 {
                    None
                } else {
                    scan_queue(game, es, &entry.action, &choice)
                }
            },
            other => round_error_of(game, other, &entry.action, &choice),
        },
    };
    match scan {
        Some(e) => {
            proof {
                assert(first_run_error(*old(game), choice@) == Some(e));
            }
            return Err(e);
        },
        None => {
            proof {
                assert(first_run_error(*old(game), choice@) is None);
            }
        },
    }
    let ghost g0 = *game;
    let entry_opt = game.resolve.take();
    let mut entry = match entry_opt {
        Some(entry) => entry,
        None => {
            proof {
                assert(false);
            }
            return Err(ResolveError::EmptyStack);
        },
    };
    let ghost g_stripped = *game;
    let ghost a_view = entry.action@;
    let is_queue = matches!(entry.effect, Effect::And(_));
    if is_queue {
        let queue_empty = match &entry.effect {
            Effect::And(es) => es.len() == 0,
            _ => false,
        };
        if queue_empty {
            game.resolve = Some(entry);
            return Ok(None);
        }
        let ghost evs = match &entry.effect {
            Effect::And(es) => effect_views(es@),
            _ => Seq::<EffectView>::empty(),
        };
        proof {
            if let Effect::And(es) = &entry.effect {
                lemma_effect_view_and(*es);
            }
            assert(queue_error(g0, evs, a_view, choice@) is None);
            assert(round_error(g0, evs[0], a_view, choice@) is None);
        }
        let head = match &entry.effect {
            Effect::And(es) => {
                proof {
                    assert(entry.effect == Effect::And(*es));
                    lemma_effect_view_and(*es);
                }
                es[0].duplicate()
            },
            _ => Effect::Nothing,
        };
        let res0 = resolve_effect(game, &head, &entry.action, choice);
        let ghost mid = *game;
        if let Err(e) = res0 {
            proof {
                lemma_effect_outcome_error(g_stripped, mid, head@, a_view, choice@, Some(e));
                lemma_round_error_same(g_stripped, g0, head@, a_view, choice@);
                assert(false);
            }
            game.resolve = Some(entry);
            return Err(e);
        }
        proof {
            lemma_effect_outcome_ids(g_stripped, mid, head@, a_view, choice@, Option::None);
        }
        let now_empty = match &mut entry.effect {
            Effect::And(es) => {
                es.remove(0);
                es.len() == 0
            },
            _ => false,
        };
        if now_empty {
            game.resolve = Some(entry);
            proof {
                assert(crate::game::game_step_witness(mid));
                assert(round_applied(*old(game), *game, choice@, RoundOutcome::Done));
            }
            return Ok(None);
        }
        proof {
            if let Effect::And(es) = &entry.effect {
                lemma_effect_view_and(*es);
                assert(effect_views(es@) =~= evs.drop_first());
            }
        }
        let next = get_next_resolve_choice(&entry);
        game.resolve = Some(entry);
        match next {
            Some(rc) => {
                proof {
                    assert(crate::game::game_step_witness(mid));
                    assert(round_applied(*old(game), *game, choice@, RoundOutcome::Pause(rc@)));
                }
                Ok(Some(rc))
            },
            None => {
                proof {
                    assert(crate::game::game_step_witness(mid));
                    assert(round_applied(*old(game), *game, choice@, RoundOutcome::Auto));
                }
                let ghost g_mid = *game;
                proof {
                    lemma_pauses_next((g_mid.resolve->0)@);
                    assert(!effect_pauses(evs[1], a_view));
                    assert(evs.len() > 1);
                    assert(queue_error(g0, evs.drop_first(), a_view, default_round()) is None);
                    assert(crate::game::same_player_ids(g0, g_stripped));
                    assert forall|j: int|
                        0 <= j < g0.players@.len() implies g_mid.players@[j].id == (
                    #[trigger] g0.players@[j]).id by {
                        assert(mid.players@[j].id == g_stripped.players@[j].id);
                    }
                    lemma_queue_error_auto_same(g0, g_mid, evs.drop_first(), a_view);
                    assert(first_run_error(g_mid, default_round()) is None);
                }
                let res = resolve_choice(
                    game,
                    ResolveChoice {
                        choice: Choice::Nothing,
                        player_id: 0,
                        effect: Effect::Nothing,
                    },
                );
                proof {
                    assert(crate::game::game_step_witness(g_mid));
                    match res {
                        Err(e) => {
                            assert(first_run_error(g_mid, default_round()) == Some(e));
                            assert(false);
                        },
                        Ok(_) => {},
                    }
                }
                res
            },
        }
    } else {
        let ghost e_view = entry.effect@;
        let res0 = resolve_effect(game, &entry.effect, &entry.action, choice);
        let ghost mid = *game;
        game.resolve = Some(entry);
        proof {
            assert(crate::game::game_step_witness(mid));
        }
        match res0 {
            Ok(_) => {
                proof {
                    assert(round_applied(*old(game), *game, choice@, RoundOutcome::Done));
                }
                Ok(None)
            },
            Err(e) => {
                proof {
                    lemma_effect_outcome_error(g_stripped, mid, e_view, a_view, choice@, Some(e));
                    lemma_round_error_same(g_stripped, g0, e_view, a_view, choice@);
                    assert(false);
                }
                Err(e)
            },
        }
    }
}


/// Whether the player may play the card now: they hold priority and own
/// the card; instants are free of timing limits, everything else needs an
/// empty stack, a main phase and the active player, and lands also an
/// unused land play.
pub open spec fn can_play_spec(
    g: crate::game::Game,
    card_id: crate::game::ObjectId,
    player_id: crate::game::ObjectId,
) -> bool {
    &&& g.turn.priority matches Some(p) && p.player_id == player_id
    &&& g.card_index(card_id) != -1
    &&& {
        let c = g.cards@[g.card_index(card_id)];
        &&& c.owner_id == player_id
        &&& (c.kind == crate::card::CardType::Instant || {
            &&& g.stack@.len() == 0
            &&& (g.turn.step == crate::turn::Step::Precombat || g.turn.step
                == crate::turn::Step::Postcombat)
            &&& g.turn.active_player == player_id
            &&& (c.kind == crate::card::CardType::Land ==> g.turn.lands_played < (
            if g.player_index(player_id) != -1 {
                g.players@[g.player_index(player_id)].land_limit.current
            } else {
                0
            }))
        })
    }
}

/// Whether the player may play the card now; see `can_play_spec`.
pub fn can_play_card(
    game: &crate::game::Game,
    card_id: crate::game::ObjectId,
    player_id: crate::game::ObjectId,
) -> (r: bool)
    ensures
        r == can_play_spec(*game, card_id, player_id),
{
    match &game.turn.priority {
        Some(priority) => {
            if priority.player_id != player_id {
                return false;
            }
        },
        None => {
            return false;
        },
    }
    let is_stack_empty = game.stack.len() == 0;
    let is_main_phase = game.turn.step.main();
    let is_active_player = game.turn.active_player == player_id;
    let lands_limit = match game.get_player(player_id) {
        Some(player) => player.land_limit.current,
        None => 0,
    };
    match game.get_card(card_id) {
        Some(card) => {
            if card.owner_id != player_id {
                false
            } else if matches!(card.kind, crate::card::CardType::Instant) {
                true
            } else {
                let mut can_play = is_stack_empty && is_main_phase && is_active_player;
                if matches!(card.kind, crate::card::CardType::Land) {
                    can_play = can_play && game.turn.lands_played < lands_limit;
                }
                can_play
            }
        },
        None => false,
    }
}

/// The action that playing the card calls for, seeded from the card's
/// printed cost and its play ability's target; nothing for a card that
/// cannot be played now or has no play ability.
pub fn create_card_action(
    game: &crate::game::Game,
    card_id: crate::game::ObjectId,
    player_id: crate::game::ObjectId,
) -> (r: Option<crate::action::Action>)
    ensures
        r is Some <==> can_play_spec(*game, card_id, player_id) && game.cards@[game.card_index(
            card_id,
        )].play_ability is Some,
        r matches Some(a) ==> {
            let c = game.cards@[game.card_index(card_id)];
            a@ == (crate::action::ActionView {
                player_id,
                card_id,
                required_cost: c.cost@,
                required_target: c.play_ability->0.target@,
                required_effect: EffectView::Nothing,
                chosen_cost: ChoiceView::Nothing,
                chosen_target: if c.play_ability->0.target@ == TargetView::Owner {
                    ChoiceView::Player(player_id)
                } else {
                    ChoiceView::Nothing
                },
                chosen_effect: ChoiceView::Nothing,
            })
        },
{
    if !can_play_card(game, card_id, player_id) {
        return None;
    }
    let card = match game.get_card(card_id) {
        Some(card) => card,
        None => {
            return None;
        },
    };
    match &card.play_ability {
        Some(resolve) => {
            let cost = card.cost.duplicate();
            let target = resolve.target.duplicate();
            let mut action = crate::action::Action::new(player_id, card_id);
            action.set_required_cost(cost);
            action.set_required_target(target);
            Some(action)
        },
        None => None,
    }
}

/// The action that activating the indexed ability calls for, seeded from
/// the ability's cost and target; nothing for an unknown card or ability.
pub fn create_ability_action(
    game: &crate::game::Game,
    player_id: crate::game::ObjectId,
    card_id: crate::game::ObjectId,
    ability_id: usize,
) -> (r: Option<crate::action::Action>)
    ensures
        r is Some <==> game.card_index(card_id) != -1 && ability_id < game.cards@[game.card_index(
            card_id,
        )].activated_abilities@.len(),
        r matches Some(a) ==> {
            let ability = game.cards@[game.card_index(card_id)].activated_abilities@[
                ability_id as int
            ];
            a@ == (crate::action::ActionView {
                player_id,
                card_id,
                required_cost: ability.cost@,
                required_target: ability.target@,
                required_effect: EffectView::Nothing,
                chosen_cost: ChoiceView::Nothing,
                chosen_target: if ability.target@ == TargetView::Owner {
                    ChoiceView::Player(player_id)
                } else {
                    ChoiceView::Nothing
                },
                chosen_effect: ChoiceView::Nothing,
            })
        },
{
    let card = match game.get_card(card_id) {
        Some(card) => card,
        None => {
            return None;
        },
    };
    if ability_id >= card.activated_abilities.len() {
        return None;
    }
    let ability = &card.activated_abilities[ability_id];
    let cost = ability.cost.duplicate();
    let target = ability.target.duplicate();
    let mut action = crate::action::Action::new(player_id, card_id);
    action.set_required_cost(cost);
    action.set_required_target(target);
    Some(action)
}

/// How a successful action leaves the priority window: the pass record is
/// cleared, the holder keeps priority, and nothing else of the turn
/// changes.
pub open spec fn passes_reset(g0: crate::game::Game, g1: crate::game::Game) -> bool {
    &&& g1 == (crate::game::Game { turn: g1.turn, ..g0 })
    &&& g1.turn == (crate::turn::Turn { priority: g1.turn.priority, ..g0.turn })
    &&& match g0.turn.priority {
        Some(p0) => g1.turn.priority matches Some(p1) && p1.player_id == p0.player_id
            && p1.passes_seq() == Seq::<usize>::empty(),
        None => g1.turn.priority is None,
    }
}

/// Clears the pass record of the open priority window, if any; a
/// successful action demands that every other player pass again.
fn reset_passes(game: &mut crate::game::Game)
    ensures
        passes_reset(*old(game), *final(game)),
{
    match &mut game.turn.priority {
        Some(priority) => {
            priority.reset();
        },
        None => {},
    }
}


/// Marks a payment outcome as the witness of a play.
pub open spec fn outcome_witness(b: bool) -> bool {
    true
}

/// What pushing one stack entry does: the stack grows by an entry with
/// the given shape and nothing else changes.
pub open spec fn entry_pushed(
    g0: crate::game::Game,
    g1: crate::game::Game,
    kind: ResolveKind,
    effect: EffectView,
    a: crate::action::ActionView,
    player_id: crate::game::ObjectId,
) -> bool {
    &&& g1 == (crate::game::Game { stack: g1.stack, ..g0 })
    &&& g1.stack@.len() == g0.stack@.len() + 1
    &&& g1.stack@.subrange(0, g0.stack@.len() as int) == g0.stack@
    &&& g1.stack@.last()@ == (ResolveView { kind, effect, action: a, player_id })
}

/// What a successful `play_card` does after validation and payment: the
/// pass record clears; a land is counted against the turn's limit and put
/// onto the battlefield, everything else is pushed onto the stack as a
/// spell entry and its card tagged as stacked.
pub open spec fn card_played(
    g1: crate::game::Game,
    g4: crate::game::Game,
    card_id: crate::game::ObjectId,
    a: crate::action::ActionView,
) -> bool {
    exists|g2: crate::game::Game, g3: crate::game::Game|
        {
            &&& #[trigger] crate::game::game_step_witness(g2)
            &&& #[trigger] crate::game::game_step_witness(g3)
            &&& passes_reset(g1, g2)
            &&& {
                let ci = g2.card_index(card_id);
                if ci == -1 {
                    g4 == g2
                } else {
                    let c = g2.cards@[ci];
                    if c.kind == crate::card::CardType::Land {
                        &&& g3 == (crate::game::Game {
                            turn: crate::turn::Turn {
                                lands_played: if g2.turn.lands_played < usize::MAX {
                                    (g2.turn.lands_played + 1) as usize
                                } else {
                                    g2.turn.lands_played
                                },
                                ..g2.turn
                            },
                            ..g2
                        })
                        &&& crate::card::change_zone_post(
                            g3,
                            g4,
                            card_id,
                            crate::card::Zone::Battlefield,
                        )
                    } else {
                        &&& entry_pushed(
                            g2,
                            g3,
                            ResolveKind::Spell(card_id),
                            match c.play_ability {
                                Some(play) => play.effect@,
                                None => EffectView::Nothing,
                            },
                            a,
                            c.owner_id,
                        )
                        &&& crate::card::change_zone_post(g3, g4, card_id, crate::card::Zone::Stack)
                    }
                }
            }
        }
}

/// Plays a card: checks timing and legality, validates and pays the
/// action, and then either puts a land straight onto the battlefield or
/// pushes a spell entry onto the stack.  An illegal or unpayable action
/// leaves the game exactly unchanged: payment is all or nothing.
pub fn play_card(
    game: &mut crate::game::Game,
    card_id: crate::game::ObjectId,
    action: crate::action::Action,
)
    ensures
        !can_play_spec(*old(game), card_id, action.player_id) ==> *final(game) == *old(game),
        can_play_spec(*old(game), card_id, action.player_id) && !crate::action::action_valid(
            *old(game),
            action@,
        ) ==> *final(game) == *old(game),
        can_play_spec(*old(game), card_id, action.player_id) && crate::action::action_valid(
            *old(game),
            action@,
        ) ==> exists|mid: crate::game::Game, paid: bool|
            {
                &&& #[trigger] crate::game::game_step_witness(mid)
                &&& #[trigger] outcome_witness(paid)
                &&& crate::action::pay_rel(
                    *old(game),
                    mid,
                    action@.required_cost,
                    action@.chosen_cost,
                    action.card_id,
                    action.player_id,
                    paid,
                )
                &&& if paid {
                    card_played(mid, *final(game), card_id, action@)
                } else {
                    *final(game) == mid
                }
            },
{
    if !can_play_card(game, card_id, action.player_id) {
        return ;
    }
    if !action.valid(game) {
        return ;
    }
    if !action.pay(game) {
        proof {
            assert(crate::game::game_step_witness(*game));
            assert(outcome_witness(false));
        }
        return ;
    }
    let ghost g_paid = *game;
    proof {
        assert(outcome_witness(true));
    }
    reset_passes(game);
    let ghost g_reset = *game;
    let card_info: Option<(bool, Option<Effect>, crate::game::ObjectId)> = match game.get_card(
        card_id,
    ) {
        Some(card) => {
            let effect = match &card.play_ability {
                Some(play) => Some(play.effect.duplicate()),
                None => None,
            };
            Some((matches!(card.kind, crate::card::CardType::Land), effect, card.owner_id))
        },
        None => None,
    };
    match card_info {
        Some((is_land, effect, owner_id)) => {
            if is_land {
                let lp = game.turn.lands_played;
                game.turn.lands_played = if lp < usize::MAX {
                    lp + 1
                } else {
                    lp
                };
                let ghost g_land = *game;
                crate::card::put_on_battlefield(game, card_id);
                proof {
                    assert(crate::game::game_step_witness(g_paid));
                    assert(crate::game::game_step_witness(g_reset));
                    assert(crate::game::game_step_witness(g_land));
                }
            } else {
                let spell = Resolve {
                    kind: ResolveKind::Spell(card_id),
                    action,
                    effect: match effect {
                        Some(e) => e,
                        None => Effect::Nothing,
                    },
                    player_id: owner_id,
                };
                game.stack.push(spell);
                let ghost g_pushed = *game;
                proof {
                    assert(game.stack@.subrange(0, g_reset.stack@.len() as int)
                        =~= g_reset.stack@);
                }
                crate::card::put_on_stack(game, card_id);
                proof {
                    assert(crate::game::game_step_witness(g_paid));
                    assert(crate::game::game_step_witness(g_reset));
                    assert(crate::game::game_step_witness(g_pushed));
                }
            }
        },
        None => {
            proof {
                assert(crate::game::game_step_witness(g_paid));
                assert(crate::game::game_step_witness(g_reset));
            }
        },
    }
}

/// What the synchronous resolution of a mana ability does: the entry just
/// pushed is popped back off, resolved with the action's mana choice, and
/// finished, all in the same call.
pub open spec fn mana_ability_resolved(
    g3: crate::game::Game,
    g6: crate::game::Game,
    rcv: ResolveChoiceView,
) -> bool {
    exists|
        g4: crate::game::Game,
        g5: crate::game::Game,
        res: Result<Option<ResolveChoiceView>, ResolveError>,
    |
        {
            &&& #[trigger] crate::game::game_step_witness(g4)
            &&& #[trigger] crate::game::game_step_witness(g5)
            &&& #[trigger] round_result_witness(res)
            &&& g4 == (crate::game::Game { stack: g4.stack, resolve: g4.resolve, ..g3 })
            &&& g4.stack@ == g3.stack@.drop_last()
            &&& g3.stack@.len() > 0 && g4.resolve == Some(g3.stack@.last())
            &&& resolve_run(g4, g5, rcv, res)
            &&& if g5.resolve is Some {
                end_resolve_post(g5, g6)
            } else {
                g6 == g5
            }
        }
}

/// Plays an activated ability: validates and pays the action, pushes an
/// ability entry onto the stack, and resolves it at once when it is a
/// mana ability, which never uses the stack.  Reports whether the ability
/// was played.
pub fn play_ability(
    game: &mut crate::game::Game,
    card_id: crate::game::ObjectId,
    ability_id: usize,
    action: crate::action::Action,
) -> (r: bool)
    ensures
        old(game).card_index(card_id) == -1 ==> *final(game) == *old(game) && !r,
        old(game).card_index(card_id) != -1 && ability_id >= old(game).cards@[old(
            game,
        ).card_index(card_id)].activated_abilities@.len() ==> *final(game) == *old(game) && !r,
        old(game).card_index(card_id) != -1 && ability_id < old(game).cards@[old(
            game,
        ).card_index(card_id)].activated_abilities@.len() && !crate::action::action_valid(
            *old(game),
            action@,
        ) ==> *final(game) == *old(game) && !r,
        old(game).card_index(card_id) != -1 && ability_id < old(game).cards@[old(
            game,
        ).card_index(card_id)].activated_abilities@.len() && crate::action::action_valid(
            *old(game),
            action@,
        ) ==> exists|mid: crate::game::Game, paid: bool|
            {
                let ability = old(game).cards@[old(game).card_index(
                    card_id,
                )].activated_abilities@[ability_id as int];
                let owner = old(game).cards@[old(game).card_index(card_id)].owner_id;
                &&& #[trigger] crate::game::game_step_witness(mid)
                &&& #[trigger] outcome_witness(paid)
                &&& crate::action::pay_rel(
                    *old(game),
                    mid,
                    action@.required_cost,
                    action@.chosen_cost,
                    action.card_id,
                    action.player_id,
                    paid,
                )
                &&& if !paid {
                    *final(game) == mid && !r
                } else {
                    r && exists|g2: crate::game::Game, g3: crate::game::Game|
                        {
                            &&& #[trigger] crate::game::game_step_witness(g2)
                            &&& #[trigger] crate::game::game_step_witness(g3)
                            &&& passes_reset(mid, g2)
                            &&& entry_pushed(
                                g2,
                                g3,
                                ResolveKind::Ability,
                                ability.effect@,
                                action@,
                                owner,
                            )
                            &&& if ability.effect@ is Mana {
                                mana_ability_resolved(
                                    g3,
                                    *final(game),
                                    ResolveChoiceView {
                                        choice: action@.chosen_effect,
                                        player_id: owner,
                                        effect: ability.effect@,
                                    },
                                )
                            } else {
                                *final(game) == g3
                            }
                        }
                }
            },
{
    let ability_info = match game.get_card(card_id) {
        Some(card) => {
            if ability_id < card.activated_abilities.len() {
                let ability = &card.activated_abilities[ability_id];
                Some((ability.effect.duplicate(), card.owner_id))
            } else {
                None
            }
        },
        None => {
            return false;
        },
    };
    let (effect, player_id) = match ability_info {
        Some(pair) => pair,
        None => {
            return false;
        },
    };
    if !action.valid(game) {
        return false;
    }
    let choice = action.choices.effect.duplicate();
    if !action.pay(game) {
        proof {
            assert(crate::game::game_step_witness(*game));
            assert(outcome_witness(false));
        }
        return false;
    }
    let ghost g_paid = *game;
    proof {
        assert(outcome_witness(true));
    }
    reset_passes(game);
    let ghost g_reset = *game;
    let is_mana = matches!(effect, Effect::Mana(_));
    let entry = Resolve {
        kind: ResolveKind::Ability,
        effect: effect.duplicate(),
        action,
        player_id,
    };
    game.stack.push(entry);
    let ghost g_pushed = *game;
    proof {
        assert(game.stack@.subrange(0, g_reset.stack@.len() as int) =~= g_reset.stack@);
        assert(crate::game::game_step_witness(g_paid));
        assert(crate::game::game_step_witness(g_reset));
        assert(crate::game::game_step_witness(g_pushed));
    }
    if is_mana {
        start_resolve(game);
        let ghost g_started = *game;
        let rounds = resolve_choice(
            game,
            ResolveChoice { player_id, choice, effect },
        );
        let ghost g_rounds = *game;
        if game.resolve.is_some() {
            end_resolve(game);
        }
        proof {
            assert(crate::game::game_step_witness(g_started));
            assert(crate::game::game_step_witness(g_rounds));
            assert(round_result_witness(
                match rounds {
                    Ok(o) => Ok(
                        match o {
                            Some(rc) => Some(rc@),
                            None => None,
                        },
                    ),
                    Err(e) => Err(e),
                },
            ));
        }
    }
    true
}

/// Resolves the top entry of the stack in one call, supplying the default,
/// empty choice for every round, and finishes the resolution.  Meant for
/// entries whose effects need no player input; calling it on an empty
/// stack is a caller error.
pub fn resolve_auto(game: &mut crate::game::Game)
    requires
        old(game).stack@.len() > 0,
    ensures
        mana_ability_resolved(*old(game), *final(game), default_round()),
{
    start_resolve(game);
    let ghost g_started = *game;
    let rounds = resolve_choice(
        game,
        ResolveChoice { choice: Choice::Nothing, player_id: 0, effect: Effect::Nothing },
    );
    let ghost g_rounds = *game;
    if game.resolve.is_some() {
        end_resolve(game);
    }
    proof {
        assert(crate::game::game_step_witness(g_started));
        assert(crate::game::game_step_witness(g_rounds));
        assert(round_result_witness(
            match rounds {
                Ok(o) => Ok(
                    match o {
                        Some(rc) => Some(rc@),
                        None => None,
                    },
                ),
                Err(e) => Err(e),
            },
        ));
    }
}

} // verus!
