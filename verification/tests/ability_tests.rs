use mtg_engine::abilities::{
    can_play_card, create_ability_action, create_card_action, end_resolve,
    get_next_resolve_choice, play_ability, play_card, resolve_auto, resolve_choice, start_resolve,
    ActivatedAbility, Condition, Cost, Effect, PlayAbility, ResolveChoice, ResolveError,
    StaticAbility, Target, TriggeredAbility,
};
use mtg_engine::action::{Action, Choice};
use mtg_engine::card::{
    put_in_hand, put_on_battlefield, put_on_deck_bottom, put_on_deck_top, put_on_graveyard, Card,
    CardSubtype, Zone,
};
use mtg_engine::game::{add_mana, Game};
use mtg_engine::mana::Mana;
use mtg_engine::turn::{
    assign_combat_damage, can_declare_attacker, can_declare_blocker, cleanup_step,
    combat_damage_step_end, combat_damage_step_start, declare_attacker,
    declare_attackers_step_end, declare_attackers_step_start, declare_blocker,
    declare_blockers_step_end, declare_blockers_step_start, fast_combat, fast_declare_attacker,
    fast_declare_blockers, pass_priority, postcombat_step, precombat_step,
    reset_combat_assignments, upkeep_step, AttackType,
};

#[test]
fn test_mana_ability() {
    let (mut game, player_id, _) = Game::new();

    let mut card = Card::new_land(player_id);
    card.name = String::from("Forest");
    card.zone = Zone::Battlefield;
    card.subtypes.insert(CardSubtype::Forest);
    card.activated_abilities.push(ActivatedAbility {
        cost: Cost::Tap(Target::Source),
        effect: Effect::Mana(Mana::from("G")),
        target: Target::Nothing,
    });
    let card_id = game.add_card(card);

    let mut action = create_ability_action(&mut game, player_id, card_id, 0).unwrap();
    action.choices.cost = Choice::Card(card_id);

    play_ability(&mut game, card_id, 0, action);

    let player = game.get_player(player_id).unwrap();
    assert_eq!(player.mana.green, 1);

    let card = game.get_card(card_id).unwrap();
    assert!(card.state.tapped.current);
}

#[test]
fn test_mana_ability_with_trigger() {
    let (mut game, player_id, _) = Game::new();

    let mut card = Card::new_land(player_id);
    card.name = String::from("City of Brass");
    card.activated_abilities.push({
        ActivatedAbility {
            cost: Cost::Tap(Target::Source),
            effect: Effect::Mana(Mana::from("*")),
            target: Target::Nothing,
        }
    });
    card.triggered_abilities.push({
        TriggeredAbility {
            condition: Condition::Tap(Target::Source),
            effect: Effect::Damage(1),
            target: Target::Owner,
        }
    });
    let card_id = game.add_card(card);

    put_on_battlefield(&mut game, card_id);

    let mut action = create_ability_action(&mut game, player_id, card_id, 0).unwrap();
    action.choices.cost = Choice::Card(card_id);
    action.choices.effect = Choice::Mana(Mana::from("B"));

    play_ability(&mut game, card_id, 0, action);
    resolve_auto(&mut game);

    let player = game.get_player(player_id).unwrap();
    assert_eq!(player.mana.black, 1);
    assert_eq!(player.life, 19);
}

#[test]
fn test_activate_damage_ability_for_mana() {
    let (mut game, player_id, opponent_id) = Game::new();
    add_mana(&mut game, player_id, Mana::from("R"));

    let mut card = Card::new_artifact(player_id);
    card.activated_abilities.push(ActivatedAbility {
        cost: Cost::Mana("R"),
        effect: Effect::Damage(1),
        target: Target::Player,
    });
    let card_id = game.add_card(card);

    put_on_battlefield(&mut game, card_id);

    let mut action = create_ability_action(&mut game, player_id, card_id, 0).unwrap();
    action.choices.cost = Choice::Mana(Mana::from("R"));
    action.choices.target = Choice::Player(opponent_id);

    play_ability(&mut game, card_id, 0, action);
    resolve_auto(&mut game);

    let opponent = game.get_player(opponent_id).unwrap();
    assert_eq!(opponent.life, 19);

    let player = game.get_player(player_id).unwrap();
    assert_eq!(player.mana.red, 0);
}

#[test]
fn test_activate_mana_ability_with_summoning_sickness() {
    let (mut game, player_id, _) = Game::new();
    add_mana(&mut game, player_id, Mana::from("R"));

    let mut card = Card::new_creature(player_id, 1, 1);
    card.activated_abilities.push(ActivatedAbility {
        cost: Cost::Tap(Target::Source),
        effect: Effect::Mana(Mana::from("G")),
        target: Target::Owner,
    });
    let card_id = game.add_card(card);
    put_on_battlefield(&mut game, card_id);

    let mut action = create_ability_action(&mut game, player_id, card_id, 0).unwrap();
    action.choices.cost = Choice::Card(card_id);
    action.choices.target = Choice::Player(player_id);

    assert!(!play_ability(&mut game, card_id, 0, action));
}

#[test]
fn test_activate_mana_ability_with_haste() {
    let (mut game, player_id, _) = Game::new();
    add_mana(&mut game, player_id, Mana::from("R"));

    let mut card = Card::new_creature(player_id, 1, 1);
    card.static_abilities.insert(StaticAbility::Haste);
    card.activated_abilities.push(ActivatedAbility {
        cost: Cost::Tap(Target::Source),
        effect: Effect::Mana(Mana::from("G")),
        target: Target::Owner,
    });
    let card_id = game.add_card(card);
    put_on_battlefield(&mut game, card_id);

    let mut action = create_ability_action(&mut game, player_id, card_id, 0).unwrap();
    action.choices.cost = Choice::Card(card_id);
    action.choices.target = Choice::Player(player_id);

    assert!(play_ability(&mut game, card_id, 0, action));

    let player = game.get_player(player_id).unwrap();
    assert_eq!(player.mana.green, 1);
}

#[test]
fn test_activate_ability_any_of_target_creature() {
    let (mut game, player_id, _) = Game::new();
    add_mana(&mut game, player_id, Mana::from("R"));

    let mut card = Card::new_sorcery(player_id);
    card.cost = Cost::Mana("R");
    card.play_ability = Some(PlayAbility {
        effect: Effect::Damage(2),
        target: Target::AnyOf(vec![Target::Player, Target::Creature]),
    });
    let sorcery_id = game.add_card(card);
    put_in_hand(&mut game, sorcery_id);

    let creature_id = game.add_card(Card::new_creature(player_id, 2, 2));
    put_on_battlefield(&mut game, creature_id);
    precombat_step(&mut game);

    let mut action = create_card_action(&mut game, sorcery_id, player_id).unwrap();
    action.choices.cost = Choice::Mana(Mana::from("R"));
    action.choices.target = Choice::Card(creature_id);

    play_card(&mut game, sorcery_id, action);
    resolve_auto(&mut game);

    let card = game.get_card(sorcery_id).unwrap();
    assert_eq!(card.zone, Zone::Graveyard);

    let creature = game.get_card(creature_id).unwrap();
    assert_eq!(creature.zone, Zone::Graveyard);
}

#[test]
fn test_play_land() {
    let (mut game, player_id, _) = Game::new();
    let card_id = game.add_card(Card::new_land(player_id));

    precombat_step(&mut game);
    put_in_hand(&mut game, card_id);
    play_card(&mut game, card_id, Action::new(player_id, card_id));

    let card = game.get_card(card_id).unwrap();
    assert_eq!(card.zone, Zone::Battlefield);
}

#[test]
fn test_can_play_one_land_per_turn() {
    let (mut game, player_id, _) = Game::new();
    let card_id = game.add_card(Card::new_land(player_id));

    postcombat_step(&mut game);
    put_in_hand(&mut game, card_id);
    play_card(&mut game, card_id, Action::new(player_id, card_id));

    assert!(!can_play_card(&mut game, card_id, player_id));
}

#[test]
fn test_can_play_instant_if_has_priority() {
    let (mut game, player_id, opponent_id) = Game::new();

    let mut card = Card::new_instant(opponent_id);
    card.cost = Cost::Mana("R");
    card.play_ability = Some(PlayAbility {
        effect: Effect::Damage(3),
        target: Target::AnyOf(vec![Target::Player, Target::Creature]),
    });
    let card_id = game.add_card(card);

    upkeep_step(&mut game);
    pass_priority(&mut game);
    add_mana(&mut game, opponent_id, Mana::from("RRR"));

    let mut action = create_card_action(&mut game, card_id, opponent_id).unwrap();
    action.choices.cost = Choice::Mana(Mana::from("R"));
    action.choices.target = Choice::Player(player_id);

    play_card(&mut game, card_id, action);
    resolve_auto(&mut game);

    let player = game.get_player(player_id).unwrap();
    assert_eq!(player.life, 17);
}

#[test]
fn test_cannot_play_instant_if_no_priority() {
    let (mut game, player_id, opponent_id) = Game::new();

    let mut card = Card::new_instant(player_id);
    card.cost = Cost::Mana("R");
    card.play_ability = Some(PlayAbility {
        effect: Effect::Damage(3),
        target: Target::AnyOf(vec![Target::Player, Target::Creature]),
    });
    let player_card = game.add_card(card.clone());

    card.owner_id = opponent_id;
    let opponent_card = game.add_card(card);

    cleanup_step(&mut game);
    assert!(create_card_action(&mut game, player_card, player_id).is_none());
    assert!(create_card_action(&mut game, opponent_card, opponent_id).is_none());
}

#[test]
fn test_draw_card_spell() {
    let (mut game, player_id, _) = Game::new();

    let mut card = Card::new_instant(player_id);
    card.cost = Cost::Mana("U");
    card.play_ability = Some(PlayAbility {
        effect: Effect::Draw(3),
        target: Target::Player,
    });
    let card_id = game.add_card(card.clone());
    put_in_hand(&mut game, card_id);

    let mut drawn_cards = vec![];
    for _ in 1..=3 {
        let card_id = game.add_card(Card::new_land(player_id));
        put_on_deck_bottom(&mut game, card_id, player_id);
        drawn_cards.push(card_id);
    }

    precombat_step(&mut game);
    add_mana(&mut game, player_id, Mana::from("U"));

    let mut action = create_card_action(&mut game, card_id, player_id).unwrap();
    action.choices.target = Choice::Player(player_id);
    action.choices.cost = Choice::Mana(Mana::from("U"));

    play_card(&mut game, card_id, action);
    resolve_auto(&mut game);

    let player = game.get_player(player_id).unwrap();
    assert_eq!(mtg_engine::storage::id_set_len(&player.hand), 3);
    assert_eq!(mtg_engine::storage::id_set_len(&player.library), 0);

    for card_id in drawn_cards.iter() {
        let card = game.get_card(*card_id).unwrap();
        assert_eq!(card.zone, Zone::Hand);
        let player = game.get_player(player_id).unwrap();
        assert!(mtg_engine::storage::id_set_contains(&player.hand, *card_id));
    }
}

#[test]
fn test_draw_discard() {
    let (mut game, player_id, _) = Game::new();

    let mut card = Card::new_sorcery(player_id);
    card.cost = Cost::Mana("U");
    card.play_ability = Some(PlayAbility {
        effect: Effect::And(vec![Effect::Draw(1), Effect::Discard(1)]),
        target: Target::Owner,
    });
    let card_id = game.add_card(card.clone());
    put_in_hand(&mut game, card_id);

    let drawn_card = game.add_card(Card::new_land(player_id));
    put_on_deck_top(&mut game, drawn_card, player_id);

    precombat_step(&mut game);
    add_mana(&mut game, player_id, Mana::from("U"));

    let mut action = create_card_action(&mut game, card_id, player_id).unwrap();
    action.choices.cost = Choice::Mana(Mana::from("U"));

    play_card(&mut game, card_id, action);
    start_resolve(&mut game);

    let next_choice = get_next_resolve_choice(game.resolve.as_ref().unwrap());
    assert_eq!(next_choice, None);

    let mut next_choice = resolve_choice(&mut game, ResolveChoice::default())
        .unwrap()
        .unwrap();

    assert_eq!(
        next_choice,
        ResolveChoice {
            effect: Effect::Discard(1),
            choice: Choice::Nothing,
            player_id
        }
    );

    let card = game.get_card(drawn_card).unwrap();
    assert_eq!(card.zone, Zone::Hand);

    next_choice.choice = Choice::Card(drawn_card);

    let next_effect = resolve_choice(&mut game, next_choice);
    assert_eq!(next_effect, Ok(None));

    end_resolve(&mut game);

    let resolved_card = game.get_card(card_id).unwrap();
    assert_eq!(resolved_card.zone, Zone::Graveyard);

    let card = game.get_card(drawn_card).unwrap();
    assert_eq!(card.zone, Zone::Graveyard);
}

#[test]
fn test_discard_invalid_card() {
    let (mut game, player_id, opponent_id) = Game::new();

    let mut card = Card::new_sorcery(player_id);
    card.cost = Cost::Mana("B");
    card.play_ability = Some(PlayAbility {
        effect: Effect::Discard(1),
        target: Target::Player,
    });
    let card_id = game.add_card(card.clone());
    put_in_hand(&mut game, card_id);

    let opponent_card = game.add_card(Card::new_land(opponent_id));
    put_on_graveyard(&mut game, opponent_card);

    precombat_step(&mut game);
    add_mana(&mut game, player_id, Mana::from("B"));

    let mut action = create_card_action(&mut game, card_id, player_id).unwrap();
    action.choices.cost = Choice::Mana(Mana::from("B"));
    action.choices.target = Choice::Player(opponent_id);
    play_card(&mut game, card_id, action);

    start_resolve(&mut game);

    let mut next_choice = get_next_resolve_choice(game.resolve.as_ref().unwrap()).unwrap();
    assert_eq!(
        next_choice,
        ResolveChoice {
            player_id: opponent_id,
            effect: Effect::Discard(1),
            choice: Choice::Nothing
        }
    );
    next_choice.choice = Choice::Card(opponent_card);

    let result = resolve_choice(&mut game, next_choice);
    assert_eq!(result, Err(ResolveError::InvalidChoice));
}

#[test]
fn test_activated_ability_with_additional_cost() {
    let (mut game, player_id, opponent_id) = Game::new();

    let mut card = Card::new_creature(player_id, 1, 1);
    card.cost = Cost::Mana("R");
    card.subtypes.insert(CardSubtype::Spirit);
    card.activated_abilities.push(ActivatedAbility {
        cost: Cost::And(vec![Cost::Mana("R"), Cost::Sacrifice(Target::Creature)]),
        effect: Effect::Damage(1),
        target: Target::Player,
    });
    let card_id = game.add_card(card);

    put_on_battlefield(&mut game, card_id);
    add_mana(&mut game, player_id, Mana::from("R"));

    let mut action = create_ability_action(&mut game, player_id, card_id, 0).unwrap();
    action.choices.cost = Choice::And(vec![Choice::Card(card_id), Choice::Mana(Mana::from("R"))]);
    action.choices.target = Choice::Player(opponent_id);

    play_ability(&mut game, card_id, 0, action);
    resolve_auto(&mut game);

    let opponent = game.get_player(opponent_id).unwrap();
    assert_eq!(opponent.life, 19);

    let card = game.get_card(card_id).unwrap();
    assert_eq!(card.zone, Zone::Graveyard);
}

#[test]
fn test_flying() {
    let (mut game, player_id, opponent_id) = Game::new();

    let mut card = Card::new_creature(player_id, 2, 2);
    card.subtypes.insert(CardSubtype::Dragon);
    card.static_abilities.insert(StaticAbility::Flying);
    card.static_abilities.insert(StaticAbility::Haste);
    let attacker_id = game.add_card(card);
    put_on_battlefield(&mut game, attacker_id);

    let mut card = Card::new_creature(opponent_id, 1, 1);
    card.subtypes.insert(CardSubtype::Human);
    let human_id = game.add_card(card);
    put_on_battlefield(&mut game, human_id);

    let mut card = Card::new_creature(opponent_id, 2, 2);
    card.subtypes.insert(CardSubtype::Spider);
    card.static_abilities.insert(StaticAbility::Reach);
    let spider_id = game.add_card(card);
    put_on_battlefield(&mut game, spider_id);

    let mut card = Card::new_creature(opponent_id, 1, 1);
    card.subtypes.insert(CardSubtype::Bird);
    card.static_abilities.insert(StaticAbility::Flying);
    let bird_id = game.add_card(card);
    put_on_battlefield(&mut game, bird_id);

    declare_attackers_step_start(&mut game);
    declare_attacker(&mut game, attacker_id, opponent_id);
    declare_attackers_step_end(&mut game);
    declare_blockers_step_start(&mut game);

    assert!(can_declare_blocker(&mut game, spider_id, attacker_id));
    assert!(can_declare_blocker(&mut game, bird_id, attacker_id));
    assert!(!can_declare_blocker(&mut game, human_id, attacker_id));
}

#[test]
fn test_vigilance() {
    let (mut game, player_id, opponent_id) = Game::new();

    let mut card = Card::new_creature(player_id, 1, 1);
    card.subtypes.insert(CardSubtype::Human);
    card.static_abilities.insert(StaticAbility::Vigilance);
    card.static_abilities.insert(StaticAbility::Haste);
    let attacker_id = game.add_card(card);
    put_on_battlefield(&mut game, attacker_id);

    declare_attackers_step_start(&mut game);
    declare_attacker(&mut game, attacker_id, opponent_id);
    declare_attackers_step_end(&mut game);

    let attacker = game.get_card(attacker_id).unwrap();
    assert!(!attacker.state.tapped.current);
}

#[test]
fn test_defender() {
    let (mut game, player_id, _) = Game::new();

    let mut card = Card::new_creature(player_id, 0, 4);
    card.subtypes.insert(CardSubtype::Spirit);
    card.static_abilities.insert(StaticAbility::Defender);
    card.static_abilities.insert(StaticAbility::Haste);
    let attacker_id = game.add_card(card);
    put_on_battlefield(&mut game, attacker_id);

    assert!(!can_declare_attacker(&mut game, attacker_id));
}

#[test]
fn test_first_strike_attacks_first() {
    let (mut game, player_id, opponent_id) = Game::new();

    let mut card = Card::new_creature(player_id, 2, 1);
    card.static_abilities.insert(StaticAbility::FirstStrike);
    card.static_abilities.insert(StaticAbility::Haste);
    let attacker_id = game.add_card(card);
    put_on_battlefield(&mut game, attacker_id);

    let blocker_id = game.add_card(Card::new_creature(opponent_id, 4, 2));
    put_on_battlefield(&mut game, blocker_id);

    fast_combat(&mut game, attacker_id, &vec![blocker_id]);

    let card = game.get_card(attacker_id).unwrap();
    assert_eq!(card.zone, Zone::Battlefield);
    assert_eq!(card.state.toughness.current, 1);

    let card = game.get_card(blocker_id).unwrap();
    assert_eq!(card.zone, Zone::Graveyard);
}

#[test]
fn test_first_strike_blocks_first() {
    let (mut game, player_id, opponent_id) = Game::new();

    let mut card = Card::new_creature(player_id, 4, 2);
    card.static_abilities.insert(StaticAbility::Haste);
    let attacker_id = game.add_card(card);
    put_on_battlefield(&mut game, attacker_id);

    let mut card = Card::new_creature(opponent_id, 2, 1);
    card.static_abilities.insert(StaticAbility::FirstStrike);
    let blocker_id = game.add_card(card);
    put_on_battlefield(&mut game, blocker_id);

    fast_combat(&mut game, attacker_id, &vec![blocker_id]);

    let card = game.get_card(attacker_id).unwrap();
    assert_eq!(card.zone, Zone::Graveyard);

    let card = game.get_card(blocker_id).unwrap();
    assert_eq!(card.zone, Zone::Battlefield);
    assert_eq!(card.state.toughness.current, 1);
}

#[test]
fn test_first_strike_simultaneous() {
    let (mut game, player_id, opponent_id) = Game::new();

    let mut card = Card::new_creature(player_id, 3, 2);
    card.static_abilities.insert(StaticAbility::FirstStrike);
    card.static_abilities.insert(StaticAbility::Haste);
    let attacker_id = game.add_card(card);
    put_on_battlefield(&mut game, attacker_id);

    let mut card = Card::new_creature(opponent_id, 2, 3);
    card.static_abilities.insert(StaticAbility::FirstStrike);
    let blocker_id = game.add_card(card);
    put_on_battlefield(&mut game, blocker_id);

    fast_combat(&mut game, attacker_id, &vec![blocker_id]);

    let card = game.get_card(attacker_id).unwrap();
    assert_eq!(card.zone, Zone::Graveyard);

    let card = game.get_card(blocker_id).unwrap();
    assert_eq!(card.zone, Zone::Graveyard);
}

#[test]
fn test_first_strike_instant_after_priority() {
    let (mut game, player_id, opponent_id) = Game::new();

    let mut card = Card::new_creature(player_id, 1, 1);
    card.static_abilities.insert(StaticAbility::FirstStrike);
    card.static_abilities.insert(StaticAbility::Haste);
    let attacker_id = game.add_card(card);
    put_on_battlefield(&mut game, attacker_id);

    let blocker_id = game.add_card(Card::new_creature(opponent_id, 2, 3));
    put_on_battlefield(&mut game, blocker_id);

    fast_declare_attacker(&mut game, attacker_id);
    fast_declare_blockers(&mut game, &vec![blocker_id], attacker_id);
    combat_damage_step_start(&mut game);
    combat_damage_step_end(&mut game, AttackType::FirstStrike);

    let mut card = Card::new_instant(player_id);
    card.cost = Cost::Mana("R");
    card.play_ability = Some(PlayAbility {
        effect: Effect::Damage(2),
        target: Target::AnyOf(vec![Target::Player, Target::Creature]),
    });
    let shock = game.add_card(card);
    add_mana(&mut game, player_id, Mana::from("R"));

    let mut action = create_card_action(&mut game, shock, player_id).unwrap();
    action.choices.target = Choice::Card(blocker_id);
    action.choices.cost = Choice::Mana(Mana::from("R"));

    play_card(&mut game, shock, action);
    resolve_auto(&mut game);
    combat_damage_step_end(&mut game, AttackType::Regular);

    let card = game.get_card(attacker_id).unwrap();
    assert_eq!(card.zone, Zone::Battlefield);

    let card = game.get_card(blocker_id).unwrap();
    assert_eq!(card.zone, Zone::Graveyard);
}

#[test]
fn test_double_strike() {
    let (mut game, player_id, opponent_id) = Game::new();

    let mut card = Card::new_creature(player_id, 2, 1);
    card.static_abilities.insert(StaticAbility::DoubleStrike);
    card.static_abilities.insert(StaticAbility::Haste);
    let attacker_id = game.add_card(card);
    put_on_battlefield(&mut game, attacker_id);

    let blocker_id = game.add_card(Card::new_creature(opponent_id, 4, 4));
    put_on_battlefield(&mut game, blocker_id);

    fast_combat(&mut game, attacker_id, &vec![blocker_id]);

    let card = game.get_card(attacker_id).unwrap();
    assert_eq!(card.zone, Zone::Graveyard);

    let card = game.get_card(blocker_id).unwrap();
    assert_eq!(card.zone, Zone::Graveyard);
}

#[test]
fn test_double_strike_attacks_first() {
    let (mut game, player_id, opponent_id) = Game::new();

    let mut card = Card::new_creature(player_id, 4, 3);
    card.static_abilities.insert(StaticAbility::DoubleStrike);
    card.static_abilities.insert(StaticAbility::Haste);
    let attacker_id = game.add_card(card);
    put_on_battlefield(&mut game, attacker_id);

    let blocker_id = game.add_card(Card::new_creature(opponent_id, 1, 1));
    put_on_battlefield(&mut game, blocker_id);

    fast_combat(&mut game, attacker_id, &vec![blocker_id]);

    let card = game.get_card(attacker_id).unwrap();
    assert_eq!(card.zone, Zone::Battlefield);
    assert_eq!(card.state.toughness.current, 3);

    let card = game.get_card(blocker_id).unwrap();
    assert_eq!(card.zone, Zone::Graveyard);
}

#[test]
fn test_double_strike_player_damage() {
    let (mut game, player_id, opponent_id) = Game::new();

    let mut card = Card::new_creature(player_id, 4, 3);
    card.static_abilities.insert(StaticAbility::DoubleStrike);
    card.static_abilities.insert(StaticAbility::Haste);
    let attacker_id = game.add_card(card);
    put_on_battlefield(&mut game, attacker_id);

    fast_combat(&mut game, attacker_id, &vec![]);

    let opponent = game.get_player(opponent_id).unwrap();
    assert_eq!(opponent.life, 12);
}

#[test]
fn test_double_strike_multiple_blockers() {
    let (mut game, player_id, opponent_id) = Game::new();

    let mut card = Card::new_creature(player_id, 2, 2);
    card.static_abilities.insert(StaticAbility::DoubleStrike);
    card.static_abilities.insert(StaticAbility::Haste);
    let attacker_id = game.add_card(card);
    put_on_battlefield(&mut game, attacker_id);

    let blocker_one = game.add_card(Card::new_creature(opponent_id, 1, 4));
    put_on_battlefield(&mut game, blocker_one);

    let blocker_two = game.add_card(Card::new_creature(opponent_id, 1, 4));
    put_on_battlefield(&mut game, blocker_two);

    fast_declare_attacker(&mut game, attacker_id);
    declare_blockers_step_start(&mut game);
    declare_blocker(&mut game, blocker_one, attacker_id);
    declare_blocker(&mut game, blocker_two, attacker_id);
    declare_blockers_step_end(&mut game);
    combat_damage_step_start(&mut game);
    reset_combat_assignments(&mut game, attacker_id);

    assert!(assign_combat_damage(
        &mut game,
        attacker_id,
        blocker_two,
        AttackType::FirstStrike,
        2
    ));
    combat_damage_step_end(&mut game, AttackType::FirstStrike);

    assert!(assign_combat_damage(
        &mut game,
        attacker_id,
        blocker_two,
        AttackType::Regular,
        2
    ));
    combat_damage_step_end(&mut game, AttackType::Regular);

    let card = game.get_card(attacker_id).unwrap();
    assert_eq!(card.zone, Zone::Graveyard);

    let card = game.get_card(blocker_one).unwrap();
    assert_eq!(card.zone, Zone::Battlefield);
    assert_eq!(card.state.toughness.current, 4);

    let card = game.get_card(blocker_two).unwrap();
    assert_eq!(card.zone, Zone::Graveyard);

    let opponent = game.get_player(opponent_id).unwrap();
    assert_eq!(opponent.life, 20);
}

#[test]
fn test_double_strike_multiple_blockers_auto_assign() {
    let (mut game, player_id, opponent_id) = Game::new();

    let mut card = Card::new_creature(player_id, 2, 2);
    card.static_abilities.insert(StaticAbility::DoubleStrike);
    card.static_abilities.insert(StaticAbility::Haste);
    let attacker_id = game.add_card(card);
    put_on_battlefield(&mut game, attacker_id);

    let blocker_one = game.add_card(Card::new_creature(opponent_id, 1, 2));
    put_on_battlefield(&mut game, blocker_one);

    let blocker_two = game.add_card(Card::new_creature(opponent_id, 1, 2));
    put_on_battlefield(&mut game, blocker_two);

    fast_combat(&mut game, attacker_id, &vec![blocker_one, blocker_two]);

    let card = game.get_card(attacker_id).unwrap();
    assert_eq!(card.zone, Zone::Battlefield);
    assert_eq!(card.state.toughness.current, 1);

    let card = game.get_card(blocker_one).unwrap();
    assert_eq!(card.zone, Zone::Graveyard);

    let card = game.get_card(blocker_two).unwrap();
    assert_eq!(card.zone, Zone::Graveyard);

    let opponent = game.get_player(opponent_id).unwrap();
    assert_eq!(opponent.life, 20);
}

#[test]
fn test_double_strike_blocked_by_first_strike_auto_assign() {
    let (mut game, player_id, opponent_id) = Game::new();

    let mut card = Card::new_creature(player_id, 2, 2);
    card.static_abilities.insert(StaticAbility::DoubleStrike);
    card.static_abilities.insert(StaticAbility::Haste);
    let attacker_id = game.add_card(card);
    put_on_battlefield(&mut game, attacker_id);

    let mut card = Card::new_creature(opponent_id, 1, 2);
    card.static_abilities.insert(StaticAbility::FirstStrike);
    let blocker_one = game.add_card(card);
    put_on_battlefield(&mut game, blocker_one);

    let blocker_two = game.add_card(Card::new_creature(opponent_id, 1, 2));
    put_on_battlefield(&mut game, blocker_two);

    fast_combat(&mut game, attacker_id, &vec![blocker_one, blocker_two]);

    let card = game.get_card(attacker_id).unwrap();
    assert_eq!(card.zone, Zone::Graveyard);

    let card = game.get_card(blocker_one).unwrap();
    assert_eq!(card.zone, Zone::Graveyard);

    let card = game.get_card(blocker_two).unwrap();
    assert_eq!(card.zone, Zone::Graveyard);

    let opponent = game.get_player(opponent_id).unwrap();
    assert_eq!(opponent.life, 20);
}

#[test]
fn test_double_strike_blocked_by_first_strike() {
    let (mut game, player_id, opponent_id) = Game::new();

    let mut card = Card::new_creature(player_id, 2, 2);
    card.static_abilities.insert(StaticAbility::DoubleStrike);
    card.static_abilities.insert(StaticAbility::Haste);
    let attacker_id = game.add_card(card);
    put_on_battlefield(&mut game, attacker_id);

    let mut card = Card::new_creature(opponent_id, 1, 2);
    card.static_abilities.insert(StaticAbility::FirstStrike);
    let blocker_one = game.add_card(card);
    put_on_battlefield(&mut game, blocker_one);

    let blocker_two = game.add_card(Card::new_creature(opponent_id, 1, 2));
    put_on_battlefield(&mut game, blocker_two);

    fast_declare_attacker(&mut game, attacker_id);
    fast_declare_blockers(&mut game, &vec![blocker_one, blocker_two], attacker_id);
    combat_damage_step_start(&mut game);
    reset_combat_assignments(&mut game, attacker_id);

    assert!(assign_combat_damage(
        &mut game,
        attacker_id,
        blocker_two,
        AttackType::FirstStrike,
        2,
    ));
    combat_damage_step_end(&mut game, AttackType::FirstStrike);

    assert!(assign_combat_damage(
        &mut game,
        attacker_id,
        blocker_one,
        AttackType::Regular,
        2
    ));
    combat_damage_step_end(&mut game, AttackType::Regular);

    let card = game.get_card(attacker_id).unwrap();
    assert_eq!(card.zone, Zone::Battlefield);
    assert_eq!(card.state.toughness.current, 1);

    let card = game.get_card(blocker_one).unwrap();
    assert_eq!(card.zone, Zone::Graveyard);

    let card = game.get_card(blocker_two).unwrap();
    assert_eq!(card.zone, Zone::Graveyard);
}

#[test]
fn test_trample() {
    let (mut game, player_id, opponent_id) = Game::new();

    let mut card = Card::new_creature(player_id, 4, 3);
    card.static_abilities.insert(StaticAbility::Trample);
    card.static_abilities.insert(StaticAbility::Haste);
    let attacker_id = game.add_card(card);
    put_on_battlefield(&mut game, attacker_id);

    let blocker_id = game.add_card(Card::new_creature(opponent_id, 1, 1));
    put_on_battlefield(&mut game, blocker_id);

    fast_combat(&mut game, attacker_id, &vec![blocker_id]);

    let card = game.get_card(attacker_id).unwrap();
    assert_eq!(card.zone, Zone::Battlefield);
    assert_eq!(card.state.toughness.current, 2);

    let card = game.get_card(blocker_id).unwrap();
    assert_eq!(card.zone, Zone::Graveyard);

    let opponent = game.get_player(opponent_id).unwrap();
    assert_eq!(opponent.life, 17);
}

#[test]
fn test_trample_blocked() {
    let (mut game, player_id, opponent_id) = Game::new();

    let mut card = Card::new_creature(player_id, 3, 3);
    card.static_abilities.insert(StaticAbility::Trample);
    card.static_abilities.insert(StaticAbility::Haste);
    let attacker_id = game.add_card(card);
    put_on_battlefield(&mut game, attacker_id);

    let blocker_id = game.add_card(Card::new_creature(opponent_id, 1, 3));
    put_on_battlefield(&mut game, blocker_id);

    fast_combat(&mut game, attacker_id, &vec![blocker_id]);

    let card = game.get_card(attacker_id).unwrap();
    assert_eq!(card.zone, Zone::Battlefield);
    assert_eq!(card.state.toughness.current, 2);

    let card = game.get_card(blocker_id).unwrap();
    assert_eq!(card.zone, Zone::Graveyard);

    let opponent = game.get_player(opponent_id).unwrap();
    assert_eq!(opponent.life, 20);
}

#[test]
fn test_trample_first_strike() {
    let (mut game, player_id, opponent_id) = Game::new();

    let mut card = Card::new_creature(player_id, 3, 3);
    card.static_abilities.insert(StaticAbility::Trample);
    card.static_abilities.insert(StaticAbility::FirstStrike);
    card.static_abilities.insert(StaticAbility::Haste);
    let attacker_id = game.add_card(card);
    put_on_battlefield(&mut game, attacker_id);

    let blocker_id = game.add_card(Card::new_creature(opponent_id, 1, 1));
    put_on_battlefield(&mut game, blocker_id);

    fast_combat(&mut game, attacker_id, &vec![blocker_id]);

    let card = game.get_card(attacker_id).unwrap();
    assert_eq!(card.zone, Zone::Battlefield);
    assert_eq!(card.state.toughness.current, 3);

    let card = game.get_card(blocker_id).unwrap();
    assert_eq!(card.zone, Zone::Graveyard);

    let opponent = game.get_player(opponent_id).unwrap();
    assert_eq!(opponent.life, 18);
}

#[test]
fn test_trample_double_strike_auto_assign() {
    let (mut game, player_id, opponent_id) = Game::new();

    let mut card = Card::new_creature(player_id, 3, 3);
    card.static_abilities.insert(StaticAbility::Trample);
    card.static_abilities.insert(StaticAbility::DoubleStrike);
    card.static_abilities.insert(StaticAbility::Haste);
    let attacker_id = game.add_card(card);
    put_on_battlefield(&mut game, attacker_id);

    let blocker_id = game.add_card(Card::new_creature(opponent_id, 1, 1));
    put_on_battlefield(&mut game, blocker_id);

    fast_combat(&mut game, attacker_id, &vec![blocker_id]);

    let card = game.get_card(attacker_id).unwrap();
    assert_eq!(card.zone, Zone::Battlefield);
    assert_eq!(card.state.toughness.current, 3);

    let card = game.get_card(blocker_id).unwrap();
    assert_eq!(card.zone, Zone::Graveyard);

    let opponent = game.get_player(opponent_id).unwrap();
    assert_eq!(opponent.life, 15);
}

#[test]
fn test_trample_double_strike() {
    let (mut game, player_id, opponent_id) = Game::new();

    let mut card = Card::new_creature(player_id, 3, 3);
    card.static_abilities.insert(StaticAbility::Trample);
    card.static_abilities.insert(StaticAbility::DoubleStrike);
    card.static_abilities.insert(StaticAbility::Haste);
    let attacker_id = game.add_card(card);
    put_on_battlefield(&mut game, attacker_id);

    let blocker_id = game.add_card(Card::new_creature(opponent_id, 1, 1));
    put_on_battlefield(&mut game, blocker_id);

    fast_declare_attacker(&mut game, attacker_id);
    fast_declare_blockers(&mut game, &vec![blocker_id], attacker_id);
    combat_damage_step_start(&mut game);
    reset_combat_assignments(&mut game, attacker_id);

    assert!(assign_combat_damage(
        &mut game,
        attacker_id,
        blocker_id,
        AttackType::FirstStrike,
        1,
    ));
    combat_damage_step_end(&mut game, AttackType::FirstStrike);

    assert!(!assign_combat_damage(
        &mut game,
        attacker_id,
        blocker_id,
        AttackType::Regular,
        1
    ));
    combat_damage_step_end(&mut game, AttackType::Regular);

    let card = game.get_card(attacker_id).unwrap();
    assert_eq!(card.zone, Zone::Battlefield);
    assert_eq!(card.state.toughness.current, 3);

    let card = game.get_card(blocker_id).unwrap();
    assert_eq!(card.zone, Zone::Graveyard);

    let opponent = game.get_player(opponent_id).unwrap();
    assert_eq!(opponent.life, 15);
}

#[test]
fn test_deathtouch() {
    let (mut game, player_id, opponent_id) = Game::new();

    let mut card = Card::new_creature(player_id, 1, 1);
    card.static_abilities.insert(StaticAbility::Deathtouch);
    card.static_abilities.insert(StaticAbility::Haste);
    let attacker_id = game.add_card(card);
    put_on_battlefield(&mut game, attacker_id);

    let blocker_id = game.add_card(Card::new_creature(opponent_id, 8, 8));
    put_on_battlefield(&mut game, blocker_id);

    fast_combat(&mut game, attacker_id, &vec![blocker_id]);

    let attacker = game.get_card(attacker_id).unwrap();
    assert_eq!(attacker.zone, Zone::Graveyard);

    let blocker = game.get_card(blocker_id).unwrap();
    assert_eq!(blocker.zone, Zone::Graveyard);
}

#[test]
fn test_deathtouch_multiple_blockers() {
    let (mut game, player_id, opponent_id) = Game::new();

    let mut card = Card::new_creature(player_id, 2, 2);
    card.static_abilities.insert(StaticAbility::Deathtouch);
    card.static_abilities.insert(StaticAbility::Haste);
    let attacker_id = game.add_card(card);
    put_on_battlefield(&mut game, attacker_id);

    let blocker_one = game.add_card(Card::new_creature(opponent_id, 4, 6));
    put_on_battlefield(&mut game, blocker_one);

    let blocker_two = game.add_card(Card::new_creature(opponent_id, 3, 8));
    put_on_battlefield(&mut game, blocker_two);

    fast_declare_attacker(&mut game, attacker_id);
    fast_declare_blockers(&mut game, &vec![blocker_one, blocker_two], attacker_id);
    combat_damage_step_start(&mut game);
    reset_combat_assignments(&mut game, attacker_id);
    assign_combat_damage(&mut game, attacker_id, blocker_one, AttackType::Regular, 1);
    assign_combat_damage(&mut game, attacker_id, blocker_two, AttackType::Regular, 1);
    combat_damage_step_end(&mut game, AttackType::Regular);

    let attacker = game.get_card(attacker_id).unwrap();
    assert_eq!(attacker.zone, Zone::Graveyard);

    let blocker = game.get_card(blocker_one).unwrap();
    assert_eq!(blocker.zone, Zone::Graveyard);

    let blocker = game.get_card(blocker_two).unwrap();
    assert_eq!(blocker.zone, Zone::Graveyard);
}

#[test]
fn test_deathtouch_first_strike() {
    let (mut game, player_id, opponent_id) = Game::new();

    let mut card = Card::new_creature(player_id, 1, 1);
    card.static_abilities.insert(StaticAbility::Deathtouch);
    card.static_abilities.insert(StaticAbility::FirstStrike);
    card.static_abilities.insert(StaticAbility::Haste);
    let attacker_id = game.add_card(card);
    put_on_battlefield(&mut game, attacker_id);

    let blocker_id = game.add_card(Card::new_creature(opponent_id, 8, 8));
    put_on_battlefield(&mut game, blocker_id);

    fast_combat(&mut game, attacker_id, &vec![blocker_id]);

    let attacker = game.get_card(attacker_id).unwrap();
    assert_eq!(attacker.zone, Zone::Battlefield);

    let blocker = game.get_card(blocker_id).unwrap();
    assert_eq!(blocker.zone, Zone::Graveyard);
}

#[test]
fn test_resolve_empty_stack_is_rejected() {
    let (mut game, _, _) = Game::new();
    let result = resolve_choice(&mut game, ResolveChoice::default());
    assert_eq!(result, Err(ResolveError::EmptyStack));
}

#[test]
fn test_damage_without_target_is_rejected() {
    let (mut game, player_id, _) = Game::new();
    let action = Action::new(player_id, 0);
    game.stack.push(mtg_engine::abilities::Resolve {
        kind: mtg_engine::abilities::ResolveKind::Ability,
        effect: Effect::Damage(2),
        action,
        player_id,
    });
    start_resolve(&mut game);
    let result = resolve_choice(&mut game, ResolveChoice::default());
    assert_eq!(result, Err(ResolveError::InvalidTarget));
}

#[test]
fn test_unknown_effect_is_rejected() {
    let (mut game, player_id, _) = Game::new();
    let action = Action::new(player_id, 0);
    game.stack.push(mtg_engine::abilities::Resolve {
        kind: mtg_engine::abilities::ResolveKind::Ability,
        effect: Effect::Nothing,
        action,
        player_id,
    });
    start_resolve(&mut game);
    let result = resolve_choice(&mut game, ResolveChoice::default());
    assert_eq!(result, Err(ResolveError::UnknownEffect));
}

#[test]
fn test_unknown_action_owner_is_rejected() {
    let (mut game, player_id, _) = Game::new();
    let action = Action::new(9999, 0);
    game.stack.push(mtg_engine::abilities::Resolve {
        kind: mtg_engine::abilities::ResolveKind::Ability,
        effect: Effect::Damage(1),
        action,
        player_id,
    });
    start_resolve(&mut game);
    let result = resolve_choice(&mut game, ResolveChoice::default());
    assert_eq!(result, Err(ResolveError::UnknownActionOwner));
}

#[test]
fn test_cleanup_demands_discards_over_hand_limit() {
    let (mut game, player_id, _) = Game::new();
    for _ in 0..9 {
        let card_id = game.add_card(Card::new_land(player_id));
        put_in_hand(&mut game, card_id);
    }
    let action = cleanup_step(&mut game).unwrap();
    match action.required.effect {
        Effect::Discard(n) => assert_eq!(n, 2),
        _ => panic!("expected a discard requirement"),
    }
}

#[test]
fn test_double_strike_against_tough_blockers() {
    let (mut game, player_id, opponent_id) = Game::new();

    let mut card = Card::new_creature(player_id, 2, 2);
    card.static_abilities.insert(StaticAbility::DoubleStrike);
    card.static_abilities.insert(StaticAbility::Haste);
    let attacker_id = game.add_card(card);
    put_on_battlefield(&mut game, attacker_id);

    let blocker_one = game.add_card(Card::new_creature(opponent_id, 1, 4));
    put_on_battlefield(&mut game, blocker_one);

    let blocker_two = game.add_card(Card::new_creature(opponent_id, 1, 4));
    put_on_battlefield(&mut game, blocker_two);

    fast_combat(&mut game, attacker_id, &vec![blocker_one, blocker_two]);

    // The first blocker absorbs both passes (two damage each), the second
    // is never assigned any, and the blockers' summed power kills the
    // attacker; the defending player takes nothing.
    let card = game.get_card(attacker_id).unwrap();
    assert_eq!(card.zone, Zone::Graveyard);

    let card = game.get_card(blocker_one).unwrap();
    assert_eq!(card.zone, Zone::Graveyard);

    let card = game.get_card(blocker_two).unwrap();
    assert_eq!(card.zone, Zone::Battlefield);
    assert_eq!(card.state.toughness.current, 4);

    let opponent = game.get_player(opponent_id).unwrap();
    assert_eq!(opponent.life, 20);
}

#[test]
fn test_unpayable_conjunction_leaves_game_unchanged() {
    let (mut game, player_id, _) = Game::new();
    let mut card = Card::new_creature(player_id, 1, 1);
    card.zone = Zone::Battlefield;
    let card_id = game.add_card(card);

    let mut action = Action::new(player_id, card_id);
    action.required.cost = Cost::And(vec![Cost::Tap(Target::Source), Cost::Tap(Target::Source)]);
    action.choices.cost = Choice::Card(card_id);

    let paid = action.pay(&mut game);
    assert!(!paid);
    let card = game.get_card(card_id).unwrap();
    assert!(!card.state.tapped.current);
}

#[test]
fn test_error_in_queue_applies_nothing() {
    let (mut game, player_id, _) = Game::new();
    let action = Action::new(player_id, 0);
    game.stack.push(mtg_engine::abilities::Resolve {
        kind: mtg_engine::abilities::ResolveKind::Ability,
        effect: Effect::And(vec![Effect::Mana(Mana::from("G")), Effect::Nothing]),
        action,
        player_id,
    });
    start_resolve(&mut game);
    let result = resolve_choice(&mut game, ResolveChoice::default());
    assert_eq!(result, Err(ResolveError::UnknownEffect));
    let player = game.get_player(player_id).unwrap();
    assert_eq!(player.mana.green, 0);
}
