use card_battle::game_logic::{create_deck, handle_mulligan, init_game, init_game_with, pass_turn, play_card};
use card_battle::game_types::{Card, CardAbility, GamePhase, GameState, Player, Rank, Suit};
use uuid::Uuid;

fn setup_test_game() -> (GameState, String, String) {
    let p1_id = "player1".to_string();
    let p2_id = "player2".to_string();
    let game = init_game("room_test".to_string(), vec![p1_id.clone(), p2_id.clone()]).expect("two players");

    let mut game = game;
    game.phase = GamePhase::Playing;
    game.current_turn = p1_id.clone();

    (game, p1_id, p2_id)
}

fn player<'a>(game: &'a GameState, id: &String) -> &'a Player {
    if &game.players.0.id == id {
        &game.players.0
    } else {
        &game.players.1
    }
}

fn player_mut<'a>(game: &'a mut GameState, id: &String) -> &'a mut Player {
    if &game.players.0.id == id {
        &mut game.players.0
    } else {
        &mut game.players.1
    }
}

fn add_card_to_hand(game: &mut GameState, player_id: &String, rank: Rank, ability: CardAbility, power: u8) -> String {
    let card = Card {
        id: Uuid::new_v4().to_string(),
        suit: Suit::Heart,
        rank,
        base_power: power,
        current_power: power,
        ability,
        owner_id: player_id.clone(),
    };
    let card_id = card.id.clone();
    player_mut(game, player_id).hand.push(card);
    card_id
}

fn plain_card(id: &str, power: u8, ability: CardAbility, owner: &String) -> Card {
    Card {
        id: id.to_string(),
        suit: Suit::Spade,
        rank: Rank::Number(power),
        base_power: power,
        current_power: power,
        ability,
        owner_id: owner.clone(),
    }
}

#[test]
fn test_create_deck_count() {
    let deck = create_deck();
    assert_eq!(deck.len(), 54);
}

#[test]
fn test_iron_guard_bonding() {
    let (mut game, p1, _) = setup_test_game();

    let c1_id = add_card_to_hand(&mut game, &p1, Rank::Number(2), CardAbility::IronGuard, 2);
    let c2_id = add_card_to_hand(&mut game, &p1, Rank::Number(2), CardAbility::IronGuard, 2);

    play_card(&mut game, &p1, &c1_id, None).expect("Should play card 1");

    let p1_board = &player(&game, &p1).board;
    assert_eq!(p1_board[0].current_power, 2);

    game.current_turn = p1.clone();

    play_card(&mut game, &p1, &c2_id, None).expect("Should play card 2");

    let p1_board = &player(&game, &p1).board;
    assert_eq!(p1_board[0].current_power, 6);
    assert_eq!(p1_board[1].current_power, 6);

    assert_eq!(player(&game, &p1).current_score, 12);
}

#[test]
fn test_spy_mechanic() {
    let (mut game, p1, p2) = setup_test_game();

    let spy_id = add_card_to_hand(&mut game, &p1, Rank::Jack, CardAbility::Intel, 10);

    let initial_hand_size = player(&game, &p1).hand.len();

    play_card(&mut game, &p1, &spy_id, None).expect("Should play spy");

    let p2_board = &player(&game, &p2).board;
    assert!(p2_board.iter().any(|c| c.id == spy_id));

    let final_hand_size = player(&game, &p1).hand.len();
    assert_eq!(final_hand_size, initial_hand_size + 1);
}

#[test]
fn test_scorch_destroys_strongest() {
    let (mut game, p1, p2) = setup_test_game();

    let c1 = Card { id: "p1_10".to_string(), suit: Suit::Spade, rank: Rank::Number(10), base_power: 10, current_power: 10, ability: CardAbility::Plain, owner_id: p1.clone() };
    player_mut(&mut game, &p1).board.push(c1);

    let c2 = Card { id: "p2_10".to_string(), suit: Suit::Heart, rank: Rank::Number(10), base_power: 10, current_power: 10, ability: CardAbility::Plain, owner_id: p2.clone() };
    let c3 = Card { id: "p2_5".to_string(), suit: Suit::Heart, rank: Rank::Number(5), base_power: 5, current_power: 5, ability: CardAbility::Plain, owner_id: p2.clone() };
    player_mut(&mut game, &p2).board.push(c2);
    player_mut(&mut game, &p2).board.push(c3);

    let scorch_id = add_card_to_hand(&mut game, &p1, Rank::Ace, CardAbility::Burn, 0);
    play_card(&mut game, &p1, &scorch_id, None).expect("Should play scorch");

    let p1_board = &player(&game, &p1).board;
    let p2_board = &player(&game, &p2).board;

    assert!(!p1_board.iter().any(|c| c.id == "p1_10"));

    assert!(!p2_board.iter().any(|c| c.id == "p2_10"));
    assert!(p2_board.iter().any(|c| c.id == "p2_5"));
}

#[test]
fn test_scorch_does_not_destroy_hero() {
    let (mut game, p1, _) = setup_test_game();

    let hero = Card { id: "hero".to_string(), suit: Suit::Club, rank: Rank::King, base_power: 15, current_power: 15, ability: CardAbility::Hero, owner_id: p1.clone() };
    player_mut(&mut game, &p1).board.push(hero);

    let scorch_id = add_card_to_hand(&mut game, &p1, Rank::Ace, CardAbility::Burn, 0);
    play_card(&mut game, &p1, &scorch_id, None).expect("Should play scorch");

    let p1_board = &player(&game, &p1).board;
    assert!(p1_board.iter().any(|c| c.id == "hero"));
}

#[test]
fn test_medic_revive() {
    let (mut game, p1, _) = setup_test_game();

    let dead_card = Card { id: "dead".to_string(), suit: Suit::Club, rank: Rank::Number(5), base_power: 5, current_power: 5, ability: CardAbility::Plain, owner_id: p1.clone() };
    player_mut(&mut game, &p1).discard_pile.push(dead_card);

    let medic_id = add_card_to_hand(&mut game, &p1, Rank::Queen, CardAbility::Medic, 5);

    play_card(&mut game, &p1, &medic_id, Some("dead".to_string())).expect("Should play medic");

    let p1_state = player(&game, &p1);
    assert_eq!(p1_state.discard_pile.len(), 0);
    assert!(p1_state.board.iter().any(|c| c.id == "dead"));
}

#[test]
fn test_decoy_mechanic() {
    let (mut game, p1, _) = setup_test_game();

    let board_card_id = "target_card";
    let board_card = Card {
        id: board_card_id.to_string(),
        suit: Suit::Spade, rank: Rank::Number(8), base_power: 8, current_power: 8, ability: CardAbility::Plain, owner_id: p1.clone()
    };
    player_mut(&mut game, &p1).board.push(board_card);

    let decoy_id = add_card_to_hand(&mut game, &p1, Rank::Joker, CardAbility::Decoy, 0);

    play_card(&mut game, &p1, &decoy_id, Some(board_card_id.to_string())).expect("Should play decoy");

    let p1_state = player(&game, &p1);

    assert!(p1_state.hand.iter().any(|c| c.id == board_card_id));
    assert!(!p1_state.board.iter().any(|c| c.id == board_card_id));
    assert!(p1_state.board.iter().any(|c| c.id == decoy_id));
}

// ---------------------------------------------------------------------
// Catalog and setup
// ---------------------------------------------------------------------

#[test]
fn catalog_composition() {
    let deck = create_deck();
    assert_eq!(deck.iter().filter(|c| c.suit == Suit::Joker).count(), 2);
    for suit in [Suit::Heart, Suit::Diamond, Suit::Spade, Suit::Club] {
        assert_eq!(deck.iter().filter(|c| c.suit == suit).count(), 13);
    }
    for c in &deck {
        assert_eq!(c.owner_id, "deck");
        assert_eq!(c.base_power, c.current_power);
        match c.rank {
            Rank::Number(n) => {
                assert!((2..=10).contains(&n));
                assert_eq!(c.base_power, n);
                let expected = if n == 2 { CardAbility::IronGuard } else { CardAbility::Plain };
                assert_eq!(c.ability, expected);
            }
            Rank::Jack => assert_eq!((c.base_power, c.ability), (10, CardAbility::Intel)),
            Rank::Queen => assert_eq!((c.base_power, c.ability), (5, CardAbility::Medic)),
            Rank::King => assert_eq!((c.base_power, c.ability), (15, CardAbility::Hero)),
            Rank::Ace => assert_eq!((c.base_power, c.ability), (0, CardAbility::Burn)),
            Rank::Joker => assert_eq!((c.base_power, c.ability), (0, CardAbility::Decoy)),
        }
    }
    assert_eq!(deck[0].rank, Rank::Number(2));
    assert_eq!(deck[12].rank, Rank::Ace);
    assert_eq!(deck[13].suit, Suit::Diamond);
}

#[test]
fn catalog_ids_are_distinct() {
    let deck = create_deck();
    let mut ids: Vec<&String> = deck.iter().map(|c| &c.id).collect();
    ids.sort();
    ids.dedup();
    assert_eq!(ids.len(), 54);
    assert!(deck.iter().all(|c| !c.id.is_empty()));
}

fn all_ids(game: &GameState) -> Vec<String> {
    let mut ids: Vec<String> = Vec::new();
    for zone in [&game.deck, &game.players.0.hand, &game.players.0.board, &game.players.0.discard_pile,
                 &game.players.1.hand, &game.players.1.board, &game.players.1.discard_pile] {
        for c in zone.iter() {
            ids.push(c.id.clone());
        }
    }
    ids.sort();
    ids
}

#[test]
fn init_game_deals_ten_each() {
    let game = init_game("room".to_string(), vec!["a".to_string(), "b".to_string()]).unwrap();
    assert_eq!(game.phase, GamePhase::Mulligan);
    assert_eq!(game.round_count, 1);
    assert_eq!(game.winner, None);
    assert_eq!(game.players.0.hand.len(), 10);
    assert_eq!(game.players.1.hand.len(), 10);
    assert_eq!(game.deck.len(), 34);
    assert!(game.players.0.hand.iter().all(|c| c.owner_id == "a"));
    assert!(game.players.1.hand.iter().all(|c| c.owner_id == "b"));
    assert!(game.current_turn == "a" || game.current_turn == "b");
    assert!(game.last_update > 0);
    let mut ids = all_ids(&game);
    assert_eq!(ids.len(), 54);
    ids.dedup();
    assert_eq!(ids.len(), 54);
}

#[test]
fn init_game_with_fixed_order() {
    let deck = create_deck();
    let order: Vec<String> = deck.iter().map(|c| c.id.clone()).collect();
    let game = init_game_with("room".to_string(), vec!["a".to_string(), "b".to_string()], deck, 1, 77);
    assert_eq!(game.current_turn, "b");
    assert_eq!(game.last_update, 77);
    assert_eq!(game.players.0.hand[0].id, order[0]);
    assert_eq!(game.players.1.hand[0].id, order[10]);
    assert_eq!(game.deck[0].id, order[20]);
    assert_eq!(game.deck.len(), 34);
}

// ---------------------------------------------------------------------
// Mulligan
// ---------------------------------------------------------------------

fn mulligan_game() -> GameState {
    let deck = create_deck();
    init_game_with("room".to_string(), vec!["a".to_string(), "b".to_string()], deck, 0, 1)
}

#[test]
fn mulligan_replaces_named_cards() {
    let mut game = mulligan_game();
    let a = "a".to_string();
    let gone = vec![game.players.0.hand[1].id.clone(), game.players.0.hand[4].id.clone()];
    let front = vec![game.deck[0].id.clone(), game.deck[1].id.clone()];
    let kept: Vec<String> = game.players.0.hand.iter().map(|c| c.id.clone()).filter(|id| !gone.contains(id)).collect();
    handle_mulligan(&mut game, &a, gone.clone()).expect("mulligan");
    let hand: Vec<String> = game.players.0.hand.iter().map(|c| c.id.clone()).collect();
    assert_eq!(hand[..8].to_vec(), kept);
    assert_eq!(hand[8..].to_vec(), front);
    assert_eq!(game.deck.len(), 34);
    assert_eq!(game.deck[32].id, gone[0]);
    assert_eq!(game.deck[33].id, gone[1]);
    assert_eq!(game.deck[33].owner_id, "deck");
    assert_eq!(game.players.0.hand[9].owner_id, "a");
}

#[test]
fn mulligan_with_unknown_id_changes_nothing() {
    let mut game = mulligan_game();
    let a = "a".to_string();
    let before: Vec<String> = game.players.0.hand.iter().map(|c| c.id.clone()).collect();
    let deck_before: Vec<String> = game.deck.iter().map(|c| c.id.clone()).collect();
    let ids = vec![game.players.0.hand[3].id.clone(), "missing".to_string()];
    let r = handle_mulligan(&mut game, &a, ids);
    assert_eq!(r, Err("Invalid card IDs for mulligan".to_string()));
    let after: Vec<String> = game.players.0.hand.iter().map(|c| c.id.clone()).collect();
    let deck_after: Vec<String> = game.deck.iter().map(|c| c.id.clone()).collect();
    assert_eq!(before, after);
    assert_eq!(deck_before, deck_after);
}

#[test]
fn mulligan_errors() {
    let mut game = mulligan_game();
    let a = "a".to_string();
    let three = vec!["x".to_string(), "y".to_string(), "z".to_string()];
    assert_eq!(handle_mulligan(&mut game, &a, three), Err("Cannot replace more than 2 cards".to_string()));
    assert_eq!(handle_mulligan(&mut game, &"c".to_string(), vec![]), Err("Player not found".to_string()));
    assert_eq!(handle_mulligan(&mut game, &a, vec![]), Ok(()));
    game.phase = GamePhase::Playing;
    assert_eq!(handle_mulligan(&mut game, &a, vec![]), Err("Not in Mulligan phase".to_string()));
}

// ---------------------------------------------------------------------
// Playing
// ---------------------------------------------------------------------

#[test]
fn play_card_errors_change_nothing() {
    let (mut game, p1, p2) = setup_test_game();
    let card = game.players.0.hand[0].id.clone();
    assert_eq!(play_card(&mut game, &p2, &card, None), Err("Not your turn".to_string()));
    assert_eq!(play_card(&mut game, &p1, &"nope".to_string(), None), Err("Card not in hand".to_string()));
    game.current_turn = "ghost".to_string();
    assert_eq!(play_card(&mut game, &"ghost".to_string(), &card, None), Err("Player not found".to_string()));
    game.current_turn = p1.clone();
    game.phase = GamePhase::Mulligan;
    assert_eq!(play_card(&mut game, &p1, &card, None), Err("Not in Playing phase".to_string()));
    assert_eq!(game.players.0.hand.len(), 10);
    assert_eq!(game.players.0.hand[0].id, card);
}

#[test]
fn play_passes_turn_unless_opponent_passed() {
    let (mut game, p1, p2) = setup_test_game();
    let c = add_card_to_hand(&mut game, &p1, Rank::Number(7), CardAbility::Plain, 7);
    play_card(&mut game, &p1, &c, None).unwrap();
    assert_eq!(game.current_turn, p2);
    assert_eq!(game.players.0.current_score, 7);
    assert_eq!(game.players.0.board[0].owner_id, p1);

    game.current_turn = p1.clone();
    game.players.1.passed = true;
    let d = add_card_to_hand(&mut game, &p1, Rank::Number(3), CardAbility::Plain, 3);
    play_card(&mut game, &p1, &d, None).unwrap();
    assert_eq!(game.current_turn, p1);
    assert_eq!(game.players.0.current_score, 10);
}

#[test]
fn one_bonding_card_reads_two_and_three_read_six() {
    let (mut game, p1, _) = setup_test_game();
    let mut ids = Vec::new();
    for _ in 0..3 {
        ids.push(add_card_to_hand(&mut game, &p1, Rank::Number(2), CardAbility::IronGuard, 2));
    }
    play_card(&mut game, &p1, &ids[0], None).unwrap();
    assert_eq!(game.players.0.current_score, 2);
    for id in &ids[1..] {
        game.current_turn = p1.clone();
        play_card(&mut game, &p1, id, None).unwrap();
    }
    assert!(game.players.0.board.iter().all(|c| c.current_power == 6));
    assert_eq!(game.players.0.current_score, 18);
}

#[test]
fn spy_with_short_pile_draws_what_is_there() {
    let (mut game, p1, p2) = setup_test_game();
    game.deck.truncate(1);
    let spy = add_card_to_hand(&mut game, &p1, Rank::Jack, CardAbility::Intel, 10);
    let before = game.players.0.hand.len();
    play_card(&mut game, &p1, &spy, None).unwrap();
    assert_eq!(game.players.0.hand.len(), before);
    assert!(game.deck.is_empty());
    assert_eq!(game.players.1.current_score, 10);
    assert_eq!(game.players.0.current_score, 0);
    assert_eq!(game.players.1.board[0].owner_id, p2);
    assert_eq!(game.players.0.hand.last().unwrap().owner_id, p1);
}

#[test]
fn scorch_with_only_immune_cards_removes_nothing_else() {
    let (mut game, p1, p2) = setup_test_game();
    let hero = Card { id: "king".to_string(), suit: Suit::Club, rank: Rank::King, base_power: 15, current_power: 15, ability: CardAbility::Hero, owner_id: p2.clone() };
    game.players.1.board.push(hero);
    let ace = add_card_to_hand(&mut game, &p1, Rank::Ace, CardAbility::Burn, 0);
    play_card(&mut game, &p1, &ace, None).unwrap();
    // The ace itself is the strongest non-immune card at power 0.
    assert!(game.players.0.board.is_empty());
    assert_eq!(game.players.0.discard_pile[0].id, ace);
    assert_eq!(game.players.1.board.len(), 1);
    assert_eq!(game.players.1.current_score, 15);
}

#[test]
fn scorch_scenario_keeps_five_and_immune() {
    let (mut game, p1, p2) = setup_test_game();
    game.players.0.board.push(plain_card("a10", 10, CardAbility::Plain, &p1));
    game.players.1.board.push(plain_card("b10", 10, CardAbility::Plain, &p2));
    game.players.1.board.push(plain_card("b5", 5, CardAbility::Plain, &p2));
    let hero = Card { id: "k15".to_string(), suit: Suit::Club, rank: Rank::King, base_power: 15, current_power: 15, ability: CardAbility::Hero, owner_id: p2.clone() };
    game.players.1.board.push(hero);
    let ace = add_card_to_hand(&mut game, &p1, Rank::Ace, CardAbility::Burn, 0);
    play_card(&mut game, &p1, &ace, None).unwrap();
    assert_eq!(game.players.0.discard_pile.iter().map(|c| c.id.as_str()).collect::<Vec<_>>(), vec!["a10"]);
    assert_eq!(game.players.1.discard_pile.iter().map(|c| c.id.as_str()).collect::<Vec<_>>(), vec!["b10"]);
    assert_eq!(game.players.1.board.iter().map(|c| c.id.as_str()).collect::<Vec<_>>(), vec!["b5", "k15"]);
    assert_eq!(game.players.1.current_score, 20);
    assert_eq!(game.players.0.current_score, 0);
}

#[test]
fn revive_of_immune_card_is_refused_but_queen_stays() {
    let (mut game, p1, _) = setup_test_game();
    let hero = Card { id: "fallen_king".to_string(), suit: Suit::Club, rank: Rank::King, base_power: 15, current_power: 15, ability: CardAbility::Hero, owner_id: p1.clone() };
    game.players.0.discard_pile.push(plain_card("old", 4, CardAbility::Plain, &p1));
    game.players.0.discard_pile.push(hero);
    let queen = add_card_to_hand(&mut game, &p1, Rank::Queen, CardAbility::Medic, 5);
    let r = play_card(&mut game, &p1, &queen, Some("fallen_king".to_string()));
    assert_eq!(r, Err("Cannot revive Hero".to_string()));
    let ids: Vec<&str> = game.players.0.discard_pile.iter().map(|c| c.id.as_str()).collect();
    assert_eq!(ids, vec!["old", "fallen_king"]);
    assert_eq!(game.players.0.board.last().unwrap().id, queen);
    assert!(!game.players.0.hand.iter().any(|c| c.id == queen));
    assert_eq!(game.players.0.current_score, 5);
    assert_eq!(game.current_turn, p1);
}

#[test]
fn revive_of_spy_goes_to_opponent_and_draws() {
    let (mut game, p1, p2) = setup_test_game();
    game.players.0.discard_pile.push(Card { id: "jack".to_string(), suit: Suit::Club, rank: Rank::Jack, base_power: 10, current_power: 10, ability: CardAbility::Intel, owner_id: p1.clone() });
    let queen = add_card_to_hand(&mut game, &p1, Rank::Queen, CardAbility::Medic, 5);
    let before = game.players.0.hand.len();
    play_card(&mut game, &p1, &queen, Some("jack".to_string())).unwrap();
    assert_eq!(game.players.0.hand.len(), before + 1);
    assert_eq!(game.players.1.board[0].id, "jack");
    assert_eq!(game.players.1.board[0].owner_id, p2);
    assert_eq!(game.players.0.current_score, 5);
    assert_eq!(game.players.1.current_score, 10);
}

#[test]
fn revive_without_target_only_places_queen() {
    let (mut game, p1, _) = setup_test_game();
    let queen = add_card_to_hand(&mut game, &p1, Rank::Queen, CardAbility::Medic, 5);
    play_card(&mut game, &p1, &queen, Some("nowhere".to_string())).unwrap();
    assert_eq!(game.players.0.board.len(), 1);
    assert_eq!(game.players.0.current_score, 5);
}

#[test]
fn bounce_failures_change_nothing() {
    let (mut game, p1, _) = setup_test_game();
    let hero = Card { id: "own_king".to_string(), suit: Suit::Club, rank: Rank::King, base_power: 15, current_power: 15, ability: CardAbility::Hero, owner_id: p1.clone() };
    game.players.0.board.push(hero);
    let joker = add_card_to_hand(&mut game, &p1, Rank::Joker, CardAbility::Decoy, 0);
    let hand_before: Vec<String> = game.players.0.hand.iter().map(|c| c.id.clone()).collect();
    assert_eq!(play_card(&mut game, &p1, &joker, None), Err("Decoy requires a target".to_string()));
    assert_eq!(play_card(&mut game, &p1, &joker, Some("absent".to_string())), Err("Decoy target not found".to_string()));
    assert_eq!(play_card(&mut game, &p1, &joker, Some("own_king".to_string())), Err("Cannot Decoy Hero".to_string()));
    let hand_after: Vec<String> = game.players.0.hand.iter().map(|c| c.id.clone()).collect();
    assert_eq!(hand_before, hand_after);
    assert_eq!(game.players.0.board.len(), 1);
    assert_eq!(game.current_turn, p1);
}

// ---------------------------------------------------------------------
// Passing and rounds
// ---------------------------------------------------------------------

#[test]
fn pass_hands_turn_then_resolves_round() {
    let (mut game, p1, p2) = setup_test_game();
    game.players.0.board.push(plain_card("x", 9, CardAbility::Plain, &p1));
    game.players.0.current_score = 9;
    assert_eq!(pass_turn(&mut game, &p2), Err("Not your turn".to_string()));
    pass_turn(&mut game, &p1).unwrap();
    assert!(game.players.0.passed);
    assert_eq!(game.current_turn, p2);
    pass_turn(&mut game, &p2).unwrap();
    assert_eq!(game.players.0.rounds_won, 1);
    assert_eq!(game.players.1.rounds_won, 0);
    assert_eq!(game.round_count, 2);
    assert_eq!(game.phase, GamePhase::Playing);
    assert_eq!(game.current_turn, p1);
    assert!(game.players.0.board.is_empty());
    assert_eq!(game.players.0.discard_pile[0].id, "x");
    assert!(!game.players.0.passed && !game.players.1.passed);
    assert_eq!(game.players.0.current_score, 0);
}

#[test]
fn pass_in_wrong_phase_fails() {
    let (mut game, p1, _) = setup_test_game();
    game.phase = GamePhase::GameEnd;
    assert_eq!(pass_turn(&mut game, &p1), Err("Not in Playing phase".to_string()));
    game.phase = GamePhase::Playing;
    game.current_turn = "ghost".to_string();
    assert_eq!(pass_turn(&mut game, &"ghost".to_string()), Err("Player not found".to_string()));
}

#[test]
fn one_all_then_win_ends_match() {
    let (mut game, p1, p2) = setup_test_game();
    game.players.0.rounds_won = 1;
    game.players.1.rounds_won = 1;
    game.players.1.current_score = 4;
    game.players.1.passed = true;
    pass_turn(&mut game, &p1).unwrap();
    assert_eq!(game.phase, GamePhase::GameEnd);
    assert_eq!(game.winner, Some(p2));
    assert_eq!(game.players.1.rounds_won, 2);
}

#[test]
fn double_round_win_is_a_draw() {
    let (mut game, p1, _) = setup_test_game();
    game.players.0.rounds_won = 1;
    game.players.1.rounds_won = 1;
    game.players.1.passed = true;
    pass_turn(&mut game, &p1).unwrap();
    assert_eq!(game.phase, GamePhase::GameEnd);
    assert_eq!(game.winner, Some("Draw".to_string()));
}

#[test]
fn tied_round_keeps_turn_and_gives_both_a_win() {
    let (mut game, p1, p2) = setup_test_game();
    game.players.0.passed = true;
    game.current_turn = p2.clone();
    pass_turn(&mut game, &p2).unwrap();
    assert_eq!(game.players.0.rounds_won, 1);
    assert_eq!(game.players.1.rounds_won, 1);
    assert_eq!(game.current_turn, p2);
    assert_eq!(game.round_count, 2);
    let _ = p1;
}

#[test]
fn zone_population_is_conserved_over_a_round() {
    let (mut game, p1, p2) = setup_test_game();
    let before = all_ids(&game);
    let spy = game.players.0.hand.iter().find(|c| c.ability != CardAbility::Decoy).unwrap().id.clone();
    play_card(&mut game, &p1, &spy, None).unwrap();
    game.current_turn = p1.clone();
    pass_turn(&mut game, &p1).unwrap();
    pass_turn(&mut game, &p2).unwrap();
    assert_eq!(all_ids(&game), before);
}

#[test]
fn init_game_refuses_a_degenerate_player_list() {
    let msg = Err("A match needs two distinct players".to_string());
    assert_eq!(init_game("r".to_string(), vec![]).map(|_| ()), msg);
    assert_eq!(init_game("r".to_string(), vec!["a".to_string()]).map(|_| ()), msg);
    assert_eq!(init_game("r".to_string(), vec!["a".to_string(), "a".to_string()]).map(|_| ()), msg);
    let three = vec!["a".to_string(), "b".to_string(), "c".to_string()];
    assert_eq!(init_game("r".to_string(), three).map(|_| ()), msg);
}

fn hand_ids(game: &GameState) -> Vec<String> {
    game.players.0.hand.iter().map(|c| c.id.clone()).collect()
}

#[test]
fn mulligan_with_twin_ids_and_an_unknown_id_changes_nothing() {
    let mut game = mulligan_game();
    let a = "a".to_string();
    game.players.0.hand[2].id = "x".to_string();
    game.players.0.hand[5].id = "x".to_string();
    let before = hand_ids(&game);
    let deck_before = game.deck.len();
    let r = handle_mulligan(&mut game, &a, vec!["x".to_string(), "y".to_string()]);
    assert_eq!(r, Err("Invalid card IDs for mulligan".to_string()));
    assert_eq!(hand_ids(&game), before);
    assert_eq!(game.deck.len(), deck_before);
}

#[test]
fn mulligan_of_a_twin_id_is_refused() {
    let mut game = mulligan_game();
    let a = "a".to_string();
    game.players.0.hand[2].id = "x".to_string();
    game.players.0.hand[5].id = "x".to_string();
    let before = hand_ids(&game);
    let r = handle_mulligan(&mut game, &a, vec!["x".to_string()]);
    assert_eq!(r, Err("Invalid card IDs for mulligan".to_string()));
    assert_eq!(hand_ids(&game), before);
    assert_eq!(game.deck.len(), 34);
}

#[test]
fn mulligan_of_a_repeated_id_is_refused() {
    let mut game = mulligan_game();
    let a = "a".to_string();
    let id = game.players.0.hand[3].id.clone();
    let before = hand_ids(&game);
    let r = handle_mulligan(&mut game, &a, vec![id.clone(), id]);
    assert_eq!(r, Err("Invalid card IDs for mulligan".to_string()));
    assert_eq!(hand_ids(&game), before);
}

#[test]
fn mulligan_returns_cards_in_hand_order() {
    let mut game = mulligan_game();
    let a = "a".to_string();
    let first = game.players.0.hand[1].id.clone();
    let second = game.players.0.hand[4].id.clone();
    handle_mulligan(&mut game, &a, vec![second.clone(), first.clone()]).expect("mulligan");
    assert_eq!(game.deck[32].id, first);
    assert_eq!(game.deck[33].id, second);
}
