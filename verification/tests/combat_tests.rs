use mtg_engine::abilities::StaticAbility;
use mtg_engine::card::{put_on_battlefield, Card, Zone};
use mtg_engine::game::Game;
use mtg_engine::turn::{
    all_passed, assign_combat_damage, combat_damage_step_end, combat_damage_step_start,
    declare_attacker, declare_attackers_step_end, declare_attackers_step_start, declare_blocker,
    declare_blockers_step_end, declare_blockers_step_start, is_combat_damage_assigned, AttackType,
    Priority,
};

#[test]
fn test_priority_pass() {
    let (_, player_id, opponent_id) = Game::new();

    let mut priority = Priority::new(player_id);
    priority.pass(opponent_id);

    assert!(priority.passed(player_id));
    assert_eq!(priority.player_id, opponent_id);
}

#[test]
fn test_priority_all_passed() {
    let (game, player_id, opponent_id) = Game::new();

    let mut priority = Priority::new(player_id);
    priority.pass(opponent_id);
    priority.pass(player_id);

    assert!(all_passed(&game, priority));
}

#[test]
fn test_priority_not_all_passed() {
    let (game, player_id, opponent_id) = Game::new();

    let mut priority = Priority::new(player_id);
    priority.pass(opponent_id);

    assert!(!all_passed(&game, priority));
}

#[test]
fn test_combat_no_blockers() {
    let (mut game, player_id, opponent_id) = Game::new();

    let mut card = Card::new_creature(player_id, 3, 1);
    card.static_abilities.insert(StaticAbility::Haste);

    let attacker_id = game.add_card(card);

    put_on_battlefield(&mut game, attacker_id);
    declare_attackers_step_start(&mut game);
    declare_attacker(&mut game, attacker_id, opponent_id);
    declare_attackers_step_end(&mut game);
    declare_blockers_step_start(&mut game);
    declare_blockers_step_end(&mut game);
    combat_damage_step_end(&mut game, AttackType::FirstStrike);
    combat_damage_step_end(&mut game, AttackType::Regular);

    let card = game.get_card(attacker_id).unwrap();
    assert!(card.state.tapped.current);

    let opponent = game.get_player(opponent_id).unwrap();
    assert_eq!(opponent.life, 17);
}

#[test]
fn test_combat_with_blocker() {
    let (mut game, player_id, opponent_id) = Game::new();

    let mut card = Card::new_creature(player_id, 3, 1);
    card.static_abilities.insert(StaticAbility::Haste);

    let attacker_id = game.add_card(card);
    put_on_battlefield(&mut game, attacker_id);

    let blocker_id = game.add_card(Card::new_creature(opponent_id, 2, 2));
    put_on_battlefield(&mut game, blocker_id);

    declare_attackers_step_start(&mut game);
    declare_attacker(&mut game, attacker_id, opponent_id);
    declare_attackers_step_end(&mut game);
    declare_blockers_step_start(&mut game);
    declare_blocker(&mut game, blocker_id, attacker_id);
    declare_blockers_step_end(&mut game);
    combat_damage_step_start(&mut game);
    combat_damage_step_end(&mut game, AttackType::FirstStrike);
    combat_damage_step_end(&mut game, AttackType::Regular);

    let card = game.get_card(attacker_id).unwrap();
    assert!(card.zone == Zone::Graveyard);

    let card = game.get_card(blocker_id).unwrap();
    assert!(card.zone == Zone::Graveyard);

    let opponent = game.get_player(opponent_id).unwrap();
    assert_eq!(opponent.life, 20);
}

#[test]
fn test_combat_with_multiple_blockers() {
    let (mut game, player_id, opponent_id) = Game::new();

    let mut card = Card::new_creature(player_id, 5, 3);
    card.static_abilities.insert(StaticAbility::Haste);

    let attacker_id = game.add_card(card);
    put_on_battlefield(&mut game, attacker_id);

    let blocker_one = game.add_card(Card::new_creature(opponent_id, 1, 2));
    put_on_battlefield(&mut game, blocker_one);

    let blocker_two = game.add_card(Card::new_creature(opponent_id, 2, 2));
    put_on_battlefield(&mut game, blocker_two);

    declare_attackers_step_start(&mut game);
    declare_attacker(&mut game, attacker_id, opponent_id);
    declare_attackers_step_end(&mut game);
    declare_blockers_step_start(&mut game);
    declare_blocker(&mut game, blocker_one, attacker_id);
    declare_blocker(&mut game, blocker_two, attacker_id);
    declare_blockers_step_end(&mut game);
    combat_damage_step_start(&mut game);
    combat_damage_step_end(&mut game, AttackType::FirstStrike);
    combat_damage_step_end(&mut game, AttackType::Regular);

    let attacker = game.get_card(attacker_id).unwrap();
    assert!(attacker.zone == Zone::Graveyard);

    let blocker = game.get_card(blocker_one).unwrap();
    assert!(blocker.zone == Zone::Graveyard);

    let blocker = game.get_card(blocker_two).unwrap();
    assert!(blocker.zone == Zone::Graveyard);

    let opponent = game.get_player(opponent_id).unwrap();
    assert_eq!(opponent.life, 20);
}

#[test]
fn test_assign_combat_damage() {
    let (mut game, player_id, opponent_id) = Game::new();

    let mut card = Card::new_creature(player_id, 2, 1);
    card.static_abilities.insert(StaticAbility::Haste);
    let attacker_id = game.add_card(card);
    put_on_battlefield(&mut game, attacker_id);

    let blocker_one = game.add_card(Card::new_creature(opponent_id, 1, 3));
    put_on_battlefield(&mut game, blocker_one);

    let blocker_two = game.add_card(Card::new_creature(opponent_id, 1, 1));
    put_on_battlefield(&mut game, blocker_two);

    declare_attackers_step_start(&mut game);
    declare_attacker(&mut game, attacker_id, opponent_id);
    declare_attackers_step_end(&mut game);
    declare_blockers_step_start(&mut game);
    declare_blocker(&mut game, blocker_one, attacker_id);
    declare_blocker(&mut game, blocker_two, attacker_id);
    declare_blockers_step_end(&mut game);
    combat_damage_step_start(&mut game);
    assign_combat_damage(&mut game, attacker_id, blocker_one, AttackType::Regular, 1);
    assign_combat_damage(&mut game, attacker_id, blocker_two, AttackType::Regular, 1);
    combat_damage_step_end(&mut game, AttackType::FirstStrike);
    combat_damage_step_end(&mut game, AttackType::Regular);

    let attacker = game.get_card(attacker_id).unwrap();
    assert!(attacker.zone == Zone::Graveyard);

    let blocker = game.get_card(blocker_one).unwrap();
    assert_eq!(blocker.zone, Zone::Battlefield);
    assert_eq!(blocker.state.toughness.current, 2);

    let blocker = game.get_card(blocker_two).unwrap();
    assert!(blocker.zone == Zone::Graveyard);
}

#[test]
fn test_assign_illegal_combat_damage() {
    let (mut game, player_id, opponent_id) = Game::new();

    let mut card = Card::new_creature(player_id, 2, 2);
    card.static_abilities.insert(StaticAbility::Haste);
    let attacker_id = game.add_card(card);
    put_on_battlefield(&mut game, attacker_id);

    let blocker_id = game.add_card(Card::new_creature(opponent_id, 1, 3));
    put_on_battlefield(&mut game, blocker_id);

    declare_attackers_step_start(&mut game);
    declare_attacker(&mut game, attacker_id, opponent_id);
    declare_attackers_step_end(&mut game);
    declare_blockers_step_start(&mut game);
    declare_blocker(&mut game, blocker_id, attacker_id);
    declare_blockers_step_end(&mut game);

    combat_damage_step_start(&mut game);

    // Assign more damage than the creature can deal
    assert!(!assign_combat_damage(
        &mut game,
        attacker_id,
        blocker_id,
        AttackType::Regular,
        3
    ));

    // Assign negative damage
    assert!(!assign_combat_damage(
        &mut game,
        attacker_id,
        blocker_id,
        AttackType::Regular,
        -2
    ));

    // Assign less damage than the creature can deal
    assert!(assign_combat_damage(
        &mut game,
        attacker_id,
        blocker_id,
        AttackType::Regular,
        0
    ));
    assert!(!is_combat_damage_assigned(&mut game));

    // Assign first strike damage when creature does not have first strike
    assert!(!assign_combat_damage(
        &mut game,
        attacker_id,
        blocker_id,
        AttackType::FirstStrike,
        1
    ));
}

#[test]
fn test_two_power_haste_attacker_hits_for_two() {
    let (mut game, player_id, opponent_id) = Game::new();

    let mut card = Card::new_creature(player_id, 2, 2);
    card.static_abilities.insert(StaticAbility::Haste);
    let attacker_id = game.add_card(card);
    put_on_battlefield(&mut game, attacker_id);

    mtg_engine::turn::fast_combat(&mut game, attacker_id, &vec![]);

    let opponent = game.get_player(opponent_id).unwrap();
    assert_eq!(opponent.life, 18);
}
