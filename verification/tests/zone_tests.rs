use mtg_engine::card::{draw_card, put_on_deck_bottom, put_on_deck_top, shuffle_deck, Card};
use mtg_engine::game::{Game, GameStatus};

#[test]
fn card_test_put_on_deck_top() {
    let (mut game, player_id, _) = Game::new();
    let forest_id = game.add_card(Card::new_land(player_id));
    let mountain_id = game.add_card(Card::new_land(player_id));

    put_on_deck_top(&mut game, forest_id, player_id);
    put_on_deck_top(&mut game, mountain_id, player_id);

    let top = draw_card(&mut game, player_id);
    let bottom = draw_card(&mut game, player_id);
    assert_eq!(top, Some(mountain_id));
    assert_eq!(bottom, Some(forest_id));
}

#[test]
fn card_test_put_on_deck_bottom() {
    let (mut game, player_id, _) = Game::new();
    let forest_id = game.add_card(Card::new_land(player_id));
    let mountain_id = game.add_card(Card::new_land(player_id));

    put_on_deck_bottom(&mut game, forest_id, player_id);
    put_on_deck_bottom(&mut game, mountain_id, player_id);

    let top = draw_card(&mut game, player_id);
    let bottom = draw_card(&mut game, player_id);
    assert_eq!(top, Some(forest_id));
    assert_eq!(bottom, Some(mountain_id));
}

#[test]
fn card_test_draw_card() {
    let (mut game, player_id, _) = Game::new();
    let card_id = game.add_card(Card::new_sorcery(player_id));

    put_on_deck_top(&mut game, card_id, player_id);
    let drawn_card = draw_card(&mut game, player_id);

    assert_eq!(drawn_card, Some(card_id));
}

#[test]
fn card_test_draw_card_lose_game() {
    let (mut game, player_id, _) = Game::new();

    let result = draw_card(&mut game, player_id);
    assert_eq!(result, None);
    assert_eq!(game.status, GameStatus::Lose(player_id));
}

#[test]
fn deck_test_put_on_deck_top() {
    let (mut game, player_id, _) = Game::new();
    let mut card = Card::new_land(player_id);
    card.name = String::from("Forest");
    let forest_id = game.add_card(card);
    let mut card = Card::new_land(player_id);
    card.name = String::from("Mountain");
    let mountain_id = game.add_card(card);

    put_on_deck_top(&mut game, forest_id, player_id);
    put_on_deck_top(&mut game, mountain_id, player_id);

    let top = draw_card(&mut game, player_id);
    let bottom = draw_card(&mut game, player_id);
    assert_eq!(top, Some(mountain_id));
    assert_eq!(bottom, Some(forest_id));
}

#[test]
fn deck_test_put_on_deck_bottom() {
    let (mut game, player_id, _) = Game::new();
    let mut card = Card::new_land(player_id);
    card.name = String::from("Forest");
    let forest_id = game.add_card(card);
    let mut card = Card::new_land(player_id);
    card.name = String::from("Mountain");
    let mountain_id = game.add_card(card);

    put_on_deck_bottom(&mut game, forest_id, player_id);
    put_on_deck_bottom(&mut game, mountain_id, player_id);

    let top = draw_card(&mut game, player_id);
    let bottom = draw_card(&mut game, player_id);
    assert_eq!(top, Some(forest_id));
    assert_eq!(bottom, Some(mountain_id));
}

#[test]
fn deck_test_draw_card() {
    let (mut game, player_id, _) = Game::new();
    let card_id = game.add_card(Card::new_land(player_id));

    put_on_deck_top(&mut game, card_id, player_id);
    let drawn_card = draw_card(&mut game, player_id);

    assert_eq!(drawn_card, Some(card_id));
}

#[test]
fn deck_test_draw_card_lose_game() {
    let (mut game, player_id, _) = Game::new();

    let result = draw_card(&mut game, player_id);
    assert_eq!(result, None);
    assert_eq!(game.status, GameStatus::Lose(player_id));
}

#[test]
fn test_shuffle_keeps_cards() {
    let (mut game, player_id, _) = Game::new();
    let a = game.add_card(Card::new_land(player_id));
    let b = game.add_card(Card::new_land(player_id));
    let c = game.add_card(Card::new_land(player_id));
    put_on_deck_top(&mut game, a, player_id);
    put_on_deck_top(&mut game, b, player_id);
    put_on_deck_top(&mut game, c, player_id);

    shuffle_deck(&mut game, player_id);

    let mut drawn = vec![
        draw_card(&mut game, player_id).unwrap(),
        draw_card(&mut game, player_id).unwrap(),
        draw_card(&mut game, player_id).unwrap(),
    ];
    drawn.sort();
    let mut expected = vec![a, b, c];
    expected.sort();
    assert_eq!(drawn, expected);
}

#[test]
fn test_lethal_damage() {
    let (mut game, _, _) = Game::new();
    let mut player = mtg_engine::game::Player::new();
    player.life = 3;

    let player_id = game.add_player(player);
    mtg_engine::abilities::deal_player_damage(&mut game, player_id, 3);

    let player = game.get_player(player_id).unwrap();
    assert_eq!(player.life, 0);
    assert_eq!(game.status, GameStatus::Lose(player_id));
}
