//! Tests of the library beyond the game's own test-suite: card data, the
//! classic game, records, the lobby and the text helpers.
use yonder::cards::{
    get_region_deck, get_region_deck_with_expansion, get_sanctuary_deck, get_sanctuary_deck_with_expansion, Biome,
    Fame, RegionCard, SanctuaryCard, Wonder, WonderCount,
};
use yonder::faraway;
use yonder::game::{ActionError, ClientAction, ClientPhase, GamePhase, GameState, PlayerState, RoundPhase};
use yonder::records::{
    assign_ranks, biome_label, game_placements, generate_room_code, room_code_from, tally_colours, is_new_best_play, is_personal_best,
    longest_win_streak, placements, room_info, score_history, top_three, total_play_time, group_scores, GameRecord,
    ScoreGroup, TopCard,
};
use yonder::scoring::{score_player, score_player_detailed};
use yonder::text::{join_strings, push_decimal};

fn region(number: u8) -> RegionCard {
    RegionCard {
        number,
        biome: Biome::Red,
        night: false,
        clue: false,
        wonders: WonderCount::zero(),
        quest: WonderCount::zero(),
        fame: Fame::NoFame,
    }
}

fn scoring_region(number: u8, fame: Fame) -> RegionCard {
    RegionCard { fame, ..region(number) }
}

fn sanctuary(tile: u8) -> SanctuaryCard {
    SanctuaryCard {
        tile,
        biome: Biome::Colorless,
        night: false,
        clue: false,
        wonders: WonderCount::zero(),
        fame: Fame::NoFame,
    }
}

fn player(seat: usize, name: &str, tableau: Vec<RegionCard>, sanctuaries: Vec<SanctuaryCard>) -> PlayerState {
    PlayerState { seat, name: name.to_string(), tableau, sanctuaries, hand: vec![], played_this_round: None }
}

// ─── Card data ───────────────────────────────────────────────────────────────

#[test]
fn region_deck_holds_cards_1_to_68() {
    let deck = get_region_deck();
    let mut numbers: Vec<u8> = deck.iter().map(|c| c.number).collect();
    numbers.sort();
    assert_eq!(numbers, (1..=68).collect::<Vec<u8>>());
}

#[test]
fn region_deck_comes_shuffled() {
    let deck = get_region_deck();
    let numbers: Vec<u8> = deck.iter().map(|c| c.number).collect();
    assert_ne!(numbers, (1..=68).collect::<Vec<u8>>());
}

#[test]
fn region_deck_has_17_of_each_colour_21_nights_and_17_clues() {
    let deck = get_region_deck();
    for biome in [Biome::Red, Biome::Green, Biome::Blue, Biome::Yellow] {
        assert_eq!(deck.iter().filter(|c| c.biome == biome).count(), 17);
    }
    assert_eq!(deck.iter().filter(|c| c.night).count(), 21);
    assert_eq!(deck.iter().filter(|c| c.clue).count(), 17);
    assert!(deck.iter().all(|c| c.wonders.stone <= 2 && c.wonders.chimera <= 2 && c.wonders.thistle <= 2));
}

#[test]
fn city_cards_carry_no_wonder_icons() {
    let deck = get_region_deck();
    let city: Vec<&RegionCard> = deck.iter().filter(|c| c.biome == Biome::Yellow).collect();
    assert_eq!(city.len(), 17);
    assert!(city.iter().all(|c| c.wonders.is_zero()));
}

#[test]
fn region_cards_keep_their_printed_faces() {
    let deck = get_region_deck();
    let card = |n: u8| deck.iter().find(|c| c.number == n).unwrap().clone();
    let c3 = card(3);
    assert_eq!(c3.biome, Biome::Green);
    assert!(!c3.night && !c3.clue);
    assert!(matches!(c3.fame, Fame::Flat(4)));
    let c17 = card(17);
    assert_eq!(c17.quest.chimera, 2);
    assert!(matches!(c17.fame, Fame::PerIcon { icon: Wonder::Stone, score_per: 3 }));
    let c20 = card(20);
    assert!(c20.night && c20.clue);
}

#[test]
fn sanctuary_deck_holds_tiles_1_to_45() {
    let deck = get_sanctuary_deck();
    let mut tiles: Vec<u8> = deck.iter().map(|c| c.tile).collect();
    tiles.sort();
    assert_eq!(tiles, (1..=45).collect::<Vec<u8>>());
}

#[test]
fn expansion_decks_add_the_new_cards() {
    let regions = get_region_deck_with_expansion();
    let mut numbers: Vec<u8> = regions.iter().map(|c| c.number).collect();
    numbers.sort();
    assert_eq!(numbers, (0..=76).collect::<Vec<u8>>());
    let sanctuaries = get_sanctuary_deck_with_expansion();
    let mut tiles: Vec<u8> = sanctuaries.iter().map(|c| c.tile).collect();
    tiles.sort();
    assert_eq!(tiles, (1..=53).collect::<Vec<u8>>());
}

#[test]
fn wonder_count_zero_is_zero() {
    assert!(WonderCount::zero().is_zero());
    assert!(!WonderCount { stone: 0, chimera: 1, thistle: 0 }.is_zero());
}

// ─── Scoring explanations ────────────────────────────────────────────────────

#[test]
fn breakdown_explains_each_card() {
    let tableau = vec![
        scoring_region(3, Fame::Flat(4)),
        RegionCard { quest: WonderCount { stone: 2, chimera: 0, thistle: 0 }, ..scoring_region(9, Fame::Flat(5)) },
        RegionCard {
            wonders: WonderCount { stone: 1, chimera: 0, thistle: 0 },
            ..scoring_region(30, Fame::PerIcon { icon: Wonder::Stone, score_per: 2 })
        },
    ];
    let sanctuaries = vec![SanctuaryCard { fame: Fame::PerColour { biome: Biome::Red, score_per: 3 }, ..sanctuary(7) }];
    let p = player(0, "Test", tableau, sanctuaries);
    let detail = score_player_detailed(&p);
    assert_eq!(detail.len(), 4);
    assert_eq!(detail[0].number, 30);
    assert_eq!(detail[0].explanation, "1 Stone × 2");
    assert_eq!(detail[0].points, 2);
    assert_eq!(detail[1].number, 9);
    assert_eq!(detail[1].explanation, "Quest not met: need 2 Stone, have 1");
    assert_eq!(detail[1].points, 0);
    assert_eq!(detail[2].explanation, "+4 fame");
    assert_eq!(detail[3].kind, "sanctuary");
    assert_eq!(detail[3].explanation, "3 Forest × 3");
    assert_eq!(detail[3].points, 9);
    assert_eq!(score_player(&p), 15);
}

#[test]
fn no_condition_is_explained() {
    let p = player(0, "Test", vec![region(1)], vec![]);
    let detail = score_player_detailed(&p);
    assert_eq!(detail[0].explanation, "No scoring condition");
    assert_eq!(detail[0].points, 0);
}

// ─── The yonder game, beyond the rules tests ─────────────────────────────────

fn choosing_game() -> GameState {
    let mut gs = GameState::new_waiting(2);
    gs.join("Alice").unwrap();
    gs.join("Bob").unwrap();
    gs.region_deck.clear();
    gs.players[0].hand = vec![region(10), region(15), region(20)];
    gs.players[1].hand = vec![region(3), region(8), region(25)];
    gs.market = vec![region(1), region(2), region(4)];
    gs.round = 1;
    gs.phase = GamePhase::Playing(RoundPhase::ChoosingCards);
    gs
}

#[test]
fn play_card_errors() {
    let mut waiting = GameState::new_waiting(2);
    waiting.join("Alice").unwrap();
    assert!(matches!(waiting.play_card(0, 0), Err(ActionError::WrongPhase)));
    let mut gs = choosing_game();
    assert!(matches!(gs.play_card(5, 0), Err(ActionError::InvalidSeat)));
}

#[test]
fn start_game_errors() {
    let mut empty = GameState::new_waiting(2);
    assert!(matches!(empty.start_game(0, false, false), Err(ActionError::NotEnoughPlayers)));
    let mut short = GameState::new_waiting(2);
    short.join("Alice").unwrap();
    short.join("Bob").unwrap();
    short.region_deck = vec![region(1), region(2), region(3), region(4)];
    assert!(matches!(short.start_game(0, false, false), Err(ActionError::DeckEmpty)));
    // The refused deal changes nothing.
    assert!(short.players.iter().all(|p| p.hand.is_empty()));
    assert_eq!(short.region_deck.len(), 4);
    assert!(short.market.is_empty());
    assert_eq!(short.round, 0);
    assert!(matches!(short.phase, GamePhase::WaitingForPlayers { .. }));
    // Nine cards are just enough for two players: 3 + 3 + a market of 3.
    short.region_deck = (1..=9).map(region).collect();
    short.start_game(0, false, false).unwrap();
    assert_eq!(short.market.len(), 3);
    assert!(short.region_deck.is_empty());
}

#[test]
fn advanced_start_and_last_choice_refused_on_a_short_deck() {
    let mut gs = GameState::new_waiting(2);
    gs.join("Alice").unwrap();
    gs.join("Bob").unwrap();
    gs.region_deck = (1..=9).map(region).collect();
    assert!(matches!(gs.start_game(0, true, false), Err(ActionError::DeckEmpty)));
    assert_eq!(gs.region_deck.len(), 9);
    assert!(matches!(gs.phase, GamePhase::WaitingForPlayers { .. }));
    // Ten cards: five each, and nothing left over.
    gs.region_deck = (1..=10).map(region).collect();
    gs.start_game(0, true, false).unwrap();
    gs.keep_cards(0, &[0, 1, 2]).unwrap();
    assert_eq!(gs.region_deck.len(), 2);
    // With Bob's two discards the deck holds four: enough for a market of three.
    gs.keep_cards(1, &[0, 1, 2]).unwrap();
    assert_eq!(gs.market.len(), 3);
    assert_eq!(gs.region_deck.len(), 1);
    assert_eq!(gs.round, 1);
}

#[test]
fn last_choice_with_too_few_cards_for_the_market_changes_nothing() {
    let mut gs = GameState::new_waiting(3);
    gs.join("Alice").unwrap();
    gs.join("Bob").unwrap();
    gs.join("Carol").unwrap();
    gs.region_deck = (1..=15).map(region).collect();
    gs.start_game(0, true, false).unwrap();
    gs.keep_cards(0, &[0, 1, 2]).unwrap();
    gs.keep_cards(1, &[0, 1, 2]).unwrap();
    // Carol's hand is cut to three cards, so she discards nothing, and the
    // deck to one card: far from a market of four.
    if let GamePhase::AdvancedSetup { pending } = &mut gs.phase {
        pending.get_mut(&2).unwrap().truncate(3);
    }
    gs.region_deck.truncate(1);
    let before = gs.region_deck.len();
    assert!(matches!(gs.keep_cards(2, &[0, 1, 2]), Err(ActionError::DeckEmpty)));
    assert_eq!(gs.region_deck.len(), before);
    assert!(gs.players[2].hand.is_empty());
    match &gs.phase {
        GamePhase::AdvancedSetup { pending } => assert_eq!(pending[&2].len(), 3),
        _ => panic!("the setup should still wait for Carol"),
    }
}

#[test]
fn start_game_with_expansion_uses_the_bigger_decks() {
    let mut gs = GameState::new_waiting(2);
    gs.join("Alice").unwrap();
    gs.join("Bob").unwrap();
    gs.start_game(0, false, true).unwrap();
    // 77 regions, minus 6 dealt and 3 in the market.
    assert_eq!(gs.region_deck.len(), 77 - 6 - 3);
    assert_eq!(gs.sanctuary_deck.len(), 53);
}

#[test]
fn keep_cards_errors() {
    let mut gs = GameState::new_waiting(2);
    gs.join("Alice").unwrap();
    gs.join("Bob").unwrap();
    assert!(matches!(gs.keep_cards(0, &[0, 1, 2]), Err(ActionError::WrongPhase)));
    gs.start_game(0, true, false).unwrap();
    assert!(matches!(gs.keep_cards(0, &[0, 1, 5]), Err(ActionError::InvalidCardIndex)));
    gs.keep_cards(0, &[4, 0, 2]).unwrap();
    assert!(matches!(gs.keep_cards(0, &[0, 1, 2]), Err(ActionError::NotYourTurn)));
    // The two discarded cards went back into the deck: 68 - 10 + 2.
    assert_eq!(gs.region_deck.len(), 60);
}

#[test]
fn keep_cards_keeps_the_chosen_positions_in_order() {
    let mut gs = GameState::new_waiting(1);
    gs.join("Alice").unwrap();
    gs.start_game(0, true, false).unwrap();
    let dealt = gs.to_client_state(0).advanced_setup_choices.unwrap();
    gs.keep_cards(0, &[4, 0, 2]).unwrap();
    let kept: Vec<u8> = gs.players[0].hand.iter().map(|c| c.number).collect();
    assert_eq!(kept, vec![dealt[4].number, dealt[0].number, dealt[2].number]);
    // Alone at the table: the market is revealed at once (1 + 1 cards).
    assert_eq!(gs.market.len(), 2);
    assert_eq!(gs.round, 1);
}

#[test]
fn rejoining_keeps_the_seat_in_any_phase() {
    let mut gs = choosing_game();
    assert_eq!(gs.join("Bob").unwrap(), 1);
    assert_eq!(gs.seat_of("Alice"), Some(0));
    assert_eq!(gs.seat_of("Carol"), None);
}

#[test]
fn leaving_renumbers_the_seats() {
    let mut gs = GameState::new_waiting(3);
    gs.join("Alice").unwrap();
    gs.join("Bob").unwrap();
    gs.join("Carol").unwrap();
    gs.remove_player("Alice");
    assert_eq!(gs.players.len(), 2);
    assert_eq!(gs.players[0].name, "Bob");
    assert_eq!(gs.players[0].seat, 0);
    assert_eq!(gs.players[1].name, "Carol");
    assert_eq!(gs.players[1].seat, 1);
    gs.remove_player("Nobody");
    assert_eq!(gs.players.len(), 2);
}

#[test]
fn draft_ties_go_to_the_lower_seat() {
    let mut gs = choosing_game();
    gs.players[0].hand = vec![region(8), region(15), region(20)];
    gs.play_card(1, 1).unwrap(); // Bob plays 8
    gs.play_card(0, 0).unwrap(); // Alice plays 8 too
    match &gs.phase {
        GamePhase::Playing(RoundPhase::Drafting { order, .. }) => assert_eq!(order, &vec![0, 1]),
        _ => panic!("expected the draft"),
    }
}

#[test]
fn no_drafting_in_round_8() {
    let mut gs = choosing_game();
    gs.round = 8;
    gs.sanctuary_deck = vec![sanctuary(1), sanctuary(2), sanctuary(3)];
    gs.players[0].tableau.push(RegionCard { clue: true, ..region(5) }); // Alice qualifies, draws 2
    gs.players[1].tableau.push(region(50));
    gs.play_card(0, 0).unwrap();
    gs.play_card(1, 0).unwrap();
    assert!(gs.market.is_empty());
    assert!(matches!(gs.draft_card(0, 0), Err(ActionError::WrongPhase)));
    gs.choose_sanctuary(0, 1).unwrap();
    assert!(matches!(gs.phase, GamePhase::GameOver { .. }));
}

#[test]
fn unchosen_sanctuaries_go_to_the_bottom() {
    let mut gs = choosing_game();
    gs.sanctuary_deck = (1..=6).map(sanctuary).collect();
    gs.players[0].tableau.push(RegionCard { clue: true, ..region(5) }); // Alice draws 2: tiles 6 and 5
    gs.players[1].tableau.push(region(50));
    gs.play_card(0, 0).unwrap();
    gs.play_card(1, 0).unwrap();
    gs.choose_sanctuary(0, 0).unwrap();
    assert_eq!(gs.players[0].sanctuaries[0].tile, 6);
    let tiles: Vec<u8> = gs.sanctuary_deck.iter().map(|c| c.tile).collect();
    assert_eq!(tiles, vec![5, 1, 2, 3, 4]);
}

/// Every sanctuary tile of a yonder game: in the deck, kept, or drawn.
fn all_tiles(gs: &GameState) -> Vec<u8> {
    let mut tiles: Vec<u8> = gs.sanctuary_deck.iter().map(|c| c.tile).collect();
    for p in &gs.players {
        tiles.extend(p.sanctuaries.iter().map(|c| c.tile));
    }
    if let GamePhase::Playing(RoundPhase::Drafting { pending_sanctuaries, .. }) = &gs.phase {
        for draw in pending_sanctuaries.values() {
            tiles.extend(draw.iter().map(|c| c.tile));
        }
    }
    tiles.sort();
    tiles
}

#[test]
fn choosing_a_sanctuary_keeps_every_tile() {
    let mut gs = choosing_game();
    gs.sanctuary_deck = (1..=6).map(sanctuary).collect();
    gs.players[0].tableau.push(RegionCard { clue: true, ..region(5) });
    gs.players[1].tableau.push(RegionCard { clue: true, ..region(1) });
    gs.play_card(0, 0).unwrap(); // 10 > 5
    gs.play_card(1, 0).unwrap(); // 3 > 1
    let before = all_tiles(&gs);
    assert_eq!(before, vec![1, 2, 3, 4, 5, 6]);
    gs.choose_sanctuary(1, 1).unwrap();
    assert_eq!(all_tiles(&gs), before);
    gs.choose_sanctuary(0, 0).unwrap();
    assert_eq!(all_tiles(&gs), before);
}

#[test]
fn snapshot_hides_other_hands() {
    let mut gs = choosing_game();
    gs.play_card(0, 1).unwrap();
    let view = gs.to_client_state(1);
    assert!(matches!(view.phase, ClientPhase::ChoosingCards));
    assert_eq!(view.my_hand.len(), 3);
    assert_eq!(view.players[0].hand_size, 2);
    assert!(view.players[0].played_this_round);
    assert!(view.my_played_card.is_none());
    let mine = gs.to_client_state(0);
    assert_eq!(mine.my_played_card.unwrap().number, 15);
    // The live score counts the card just put down.
    assert_eq!(mine.my_score_detail.unwrap().len(), 1);
    assert!(mine.scores.is_none());
    assert!(mine.all_score_details.is_none());
}

#[test]
fn snapshot_ignores_what_the_player_cannot_see() {
    let mut a = choosing_game();
    a.region_deck = vec![region(30), region(31), region(32)];
    a.play_card(1, 0).unwrap();
    let mut b = choosing_game();
    // Bob's hand and face-down card differ, and the deck is in another order.
    b.region_deck = vec![region(32), region(30), region(31)];
    b.players[1].hand = vec![region(40), region(41), region(42)];
    b.play_card(1, 2).unwrap();
    let va = a.to_client_state(0);
    let vb = b.to_client_state(0);
    assert_eq!(va.my_hand, vb.my_hand);
    assert_eq!(va.deck_size, vb.deck_size);
    assert_eq!(va.market, vb.market);
    for (pa, pb) in va.players.iter().zip(vb.players.iter()) {
        assert_eq!(pa.hand_size, pb.hand_size);
        assert_eq!(pa.played_this_round, pb.played_this_round);
        assert_eq!(pa.tableau, pb.tableau);
    }
    assert!(va.my_played_card.is_none() && vb.my_played_card.is_none());
    // Bob himself sees the difference.
    assert_ne!(a.to_client_state(1).my_hand, b.to_client_state(1).my_hand);
}

#[test]
fn snapshot_check_accepts_game_cards_only() {
    let mut gs = choosing_game();
    assert!(gs.view_fits_check(0));
    gs.players[0].tableau.push(scoring_region(9, Fame::Flat(1000)));
    assert!(!gs.view_fits_check(0));
    // Bob's own snapshot scores only Bob's cards.
    assert!(gs.view_fits_check(1));
    let demo = GameState::new_demo();
    assert!(demo.view_fits_check(0));
}

#[test]
fn room_to_finish_and_score_checks() {
    let mut gs = choosing_game();
    assert!(gs.room_to_finish_check());
    assert!(gs.scores_fit_check());
    // A card of a kind the game does not have, in a hand: an action could
    // end the game with it in a tableau.
    gs.players[1].hand.push(scoring_region(9, Fame::Flat(1000)));
    assert!(!gs.room_to_finish_check());
    assert!(gs.scores_fit_check());
    gs.players[1].tableau.push(scoring_region(9, Fame::Flat(1000)));
    assert!(!gs.scores_fit_check());
    let demo = GameState::new_demo();
    assert!(demo.scores_fit_check());
    let mut classic = classic_game();
    assert!(classic.room_to_finish_check());
    classic.players[0].tableau = (1..=99).map(region).collect();
    assert!(!classic.room_to_finish_check());
}

#[test]
fn seats_stay_through_a_round() {
    let mut gs = choosing_game();
    gs.play_card(0, 0).unwrap();
    gs.play_card(1, 0).unwrap();
    assert_eq!(gs.seat_of("Alice"), Some(0));
    assert_eq!(gs.seat_of("Bob"), Some(1));
    assert_eq!(gs.join("Bob").unwrap(), 1);
    assert_eq!(gs.seat_of("Carol"), None);
}

#[test]
fn snapshot_after_game_over_shows_every_score() {
    let gs = GameState::new_demo();
    let view = gs.to_client_state(0);
    assert!(matches!(view.phase, ClientPhase::GameOver));
    let details = view.all_score_details.unwrap();
    let scores = view.scores.unwrap();
    assert_eq!(details.len(), 2);
    assert_eq!(details[0].entries.len(), 10);
    assert_eq!(details[0].total, scores[0].total);
    assert_eq!(details[1].total, scores[1].total);
}

#[test]
fn demo_game_is_over_and_scored() {
    let gs = GameState::new_demo();
    assert_eq!(gs.round, 8);
    assert_eq!(gs.players[0].name, "Alice");
    assert_eq!(gs.players[1].name, "Bob");
    assert_eq!(gs.players[0].tableau.len(), 8);
    assert_eq!(gs.players[1].sanctuaries.len(), 2);
    match &gs.phase {
        GamePhase::GameOver { scores } => {
            assert_eq!(scores.len(), 2);
            assert_eq!(scores[0].total, score_player(&gs.players[0]));
            let sum: u32 = gs.players[1].tableau.iter().map(|c| c.number as u32).sum();
            assert_eq!(scores[1].card_number_sum, sum);
        },
        _ => panic!("demo game should be over"),
    }
}

#[test]
fn apply_action_dispatches() {
    let mut gs = choosing_game();
    gs.apply_action(0, ClientAction::PlayCard { card_index: 0 }).unwrap();
    assert!(gs.players[0].played_this_round.is_some());
    let err = gs.apply_action(0, ClientAction::DraftCard { market_index: 0 }).unwrap_err();
    assert!(matches!(err, ActionError::WrongPhase));
}

// ─── The classic game ────────────────────────────────────────────────────────

fn classic_game() -> faraway::GameState {
    let mut gs = faraway::GameState::new_waiting(2);
    gs.join("Alice").unwrap();
    gs.join("Bob").unwrap();
    gs.region_deck.clear();
    gs.players[0].hand = vec![region(10), region(15), region(20)];
    gs.players[1].hand = vec![region(3), region(8), region(25)];
    gs.players[0].tableau.push(region(5));
    gs.players[1].tableau.push(region(7));
    gs.sanctuary_deck = (1..=5).map(sanctuary).collect();
    gs.market = vec![region(1), region(2), region(4)];
    gs.round = 2;
    gs.phase = faraway::GamePhase::Playing(faraway::RoundPhase::ChoosingCards);
    gs
}

#[test]
fn classic_join_and_start() {
    let mut gs = faraway::GameState::new_waiting(2);
    assert_eq!(gs.join("Alice").unwrap(), 0);
    assert_eq!(gs.join("Alice").unwrap(), 0);
    assert!(matches!(gs.start_game(0), Err(ActionError::NotEnoughPlayers)));
    assert_eq!(gs.join("Bob").unwrap(), 1);
    assert!(matches!(gs.join("Carol"), Err(ActionError::RoomFull)));
    assert!(matches!(gs.start_game(1), Err(ActionError::NotYourTurn)));
    gs.start_game(0).unwrap();
    assert_eq!(gs.players[0].hand.len(), 3);
    assert_eq!(gs.market.len(), 3);
    assert_eq!(gs.round, 1);
    // Unlike a yonder room, a classic room refuses even a known name once started.
    assert!(matches!(gs.join("Alice"), Err(ActionError::GameAlreadyStarted)));
}

#[test]
fn classic_round_with_a_sanctuary_choice() {
    let mut gs = classic_game();
    gs.play_card(0, 0).unwrap(); // Alice plays 10 > 5: qualifies
    gs.play_card(1, 0).unwrap(); // Bob plays 3 < 7
    match &gs.phase {
        faraway::GamePhase::Playing(faraway::RoundPhase::SanctuaryChoice { pending }) => {
            assert_eq!(pending.len(), 1);
            assert_eq!(pending[&0].len(), 1);
            assert_eq!(pending[&0][0].tile, 5);
        },
        _ => panic!("expected the sanctuary choice"),
    }
    let view = gs.to_client_state(0);
    assert!(matches!(view.phase, faraway::ClientPhase::SanctuaryChoice));
    assert_eq!(view.sanctuary_choices.unwrap().len(), 1);
    assert!(matches!(gs.choose_sanctuary(1, 0), Err(ActionError::NotYourTurn)));
    assert!(matches!(gs.choose_sanctuary(0, 3), Err(ActionError::InvalidCardIndex)));
    gs.choose_sanctuary(0, 0).unwrap();
    assert_eq!(gs.players[0].sanctuaries[0].tile, 5);
    match &gs.phase {
        faraway::GamePhase::Playing(faraway::RoundPhase::Drafting { order, current }) => {
            assert_eq!(order, &vec![1, 0]);
            assert_eq!(*current, 0);
        },
        _ => panic!("expected the draft"),
    }
    assert!(matches!(gs.draft_card(0, 0), Err(ActionError::NotYourTurn)));
    gs.draft_card(1, 0).unwrap();
    gs.draft_card(0, 0).unwrap();
    assert_eq!(gs.round, 3);
    assert!(matches!(gs.phase, faraway::GamePhase::Playing(faraway::RoundPhase::ChoosingCards)));
    // The deck was empty: nothing to refill.
    assert!(gs.market.is_empty());
}

#[test]
fn classic_unchosen_sanctuaries_go_to_the_bottom() {
    let mut gs = classic_game();
    gs.players[0].tableau.push(region(1));
    gs.players[0].tableau[0].clue = true;
    gs.play_card(0, 0).unwrap(); // Alice plays 10 > 1, with one clue: two to choose from
    gs.play_card(1, 0).unwrap(); // Bob plays 3 < 7
    match &gs.phase {
        faraway::GamePhase::Playing(faraway::RoundPhase::SanctuaryChoice { pending }) => {
            let tiles: Vec<u8> = pending[&0].iter().map(|c| c.tile).collect();
            assert_eq!(tiles, vec![5, 4]);
        },
        _ => panic!("expected the sanctuary choice"),
    }
    assert_eq!(gs.sanctuary_deck.len(), 3);
    gs.choose_sanctuary(0, 0).unwrap();
    assert_eq!(gs.players[0].sanctuaries[0].tile, 5);
    // Tile 4 went under the three cards left in the deck.
    let tiles: Vec<u8> = gs.sanctuary_deck.iter().map(|c| c.tile).collect();
    assert_eq!(tiles, vec![4, 1, 2, 3]);
}

#[test]
fn classic_start_on_a_short_deck_changes_nothing() {
    let mut gs = faraway::GameState::new_waiting(2);
    gs.join("Alice").unwrap();
    gs.join("Bob").unwrap();
    gs.region_deck = (1..=8).map(region).collect();
    assert!(matches!(gs.start_game(0), Err(ActionError::DeckEmpty)));
    assert_eq!(gs.region_deck.len(), 8);
    assert!(gs.players.iter().all(|p| p.hand.is_empty()));
    assert!(gs.market.is_empty());
    assert_eq!(gs.round, 0);
    gs.region_deck.push(region(9));
    gs.start_game(0).unwrap();
    assert_eq!(gs.market.len(), 3);
    assert!(gs.region_deck.is_empty());
}

#[test]
fn classic_round_8_tiebreaker_counts_regions_only() {
    let mut gs = classic_game();
    gs.round = 8;
    gs.players[0].sanctuaries.push(sanctuary(9));
    gs.apply_action(0, faraway::ClientAction::PlayCard { card_index: 1 }).unwrap(); // 15 > 5
    gs.apply_action(1, faraway::ClientAction::PlayCard { card_index: 0 }).unwrap(); // 3 < 7
    gs.choose_sanctuary(0, 0).unwrap();
    match &gs.phase {
        faraway::GamePhase::GameOver { scores } => {
            // Alice: regions 5 + 15; her sanctuary tiles do not count.
            assert_eq!(scores[0].card_number_sum, 20);
            assert_eq!(scores[1].card_number_sum, 10);
        },
        _ => panic!("expected the end of the game"),
    }
    assert!(gs.market.is_empty());
}

#[test]
fn classic_nobody_qualifies_goes_straight_to_draft() {
    let mut gs = classic_game();
    gs.players[0].tableau = vec![region(50)];
    gs.play_card(0, 0).unwrap();
    gs.play_card(1, 0).unwrap();
    let view = gs.to_client_state(0);
    assert!(matches!(view.phase, faraway::ClientPhase::Drafting));
    assert_eq!(view.current_drafter, Some(1));
}

// ─── Records ─────────────────────────────────────────────────────────────────

#[test]
fn placements_rank_by_score_then_lower_card_sum() {
    let rs = vec![(10, 5), (12, 3), (10, 5), (10, 4)];
    assert_eq!(placements(&rs), vec![3, 1, 3, 2]);
}

#[test]
fn placements_follow_score_order() {
    // Alice's higher numbers carry more fame: she places first, Bob second.
    let flat = |n: u8| scoring_region(n, Fame::Flat(n as u32));
    let mut gs = GameState::new_demo();
    gs.players[0] = player(0, "Alice", (60..=67).map(flat).collect(), vec![]);
    gs.players[1] = player(1, "Bob", (1..=8).map(flat).collect(), vec![]);
    assert_eq!(game_placements(&gs), vec![1, 2]);
}

#[test]
fn placements_of_a_finished_game() {
    let mut gs = GameState::new_demo();
    gs.players[1] = player(1, "Bob", gs.players[0].tableau.clone(), gs.players[0].sanctuaries.clone());
    // Equal results share first place.
    assert_eq!(game_placements(&gs), vec![1, 1]);
    gs.players[1].tableau.pop();
    let p = game_placements(&gs);
    assert!(p.contains(&1));
}

#[test]
fn leaderboard_ranks_share_ties() {
    let rs = vec![(12, 3), (10, 4), (10, 5), (10, 5), (9, 1)];
    assert_eq!(assign_ranks(&rs), vec![1, 2, 3, 3, 5]);
    // Ranks given to a best-first list agree with the placements.
    assert_eq!(assign_ranks(&rs), placements(&rs));
}

#[test]
fn longest_win_streak_counts_consecutive_firsts() {
    assert_eq!(longest_win_streak(&vec![1, 1, 2, 1, 1, 1, 3]), 3);
    assert_eq!(longest_win_streak(&vec![2, 3]), 0);
    assert_eq!(longest_win_streak(&vec![]), 0);
}

#[test]
fn top_three_most_played_cards() {
    let top = top_three(&vec![5, 3, 5, 7, 3, 5, 9]);
    assert_eq!(
        top,
        vec![
            TopCard { number: 5, times_played: 3 },
            TopCard { number: 3, times_played: 2 },
            TopCard { number: 7, times_played: 1 },
        ]
    );
    assert_eq!(top_three(&vec![4, 4]), vec![TopCard { number: 4, times_played: 2 }]);
    assert!(top_three(&vec![]).is_empty());
}

#[test]
fn colour_tally_counts_each_colour() {
    let bs = vec![Biome::Red, Biome::Blue, Biome::Red, Biome::Colorless, Biome::Yellow, Biome::Red];
    assert_eq!(tally_colours(&bs), vec![3, 0, 1, 1, 1]);
    assert_eq!(tally_colours(&vec![]), vec![0, 0, 0, 0, 0]);
}

#[test]
fn biome_labels_name_the_colour() {
    assert_eq!(biome_label(&Biome::Red), "Red");
    assert_eq!(biome_label(&Biome::Yellow), "Yellow");
    assert_eq!(biome_label(&Biome::Colorless), "Colorless");
}

#[test]
fn personal_best_needs_a_higher_score() {
    assert!(is_personal_best(50, None));
    assert!(is_personal_best(51, Some(50)));
    assert!(!is_personal_best(50, Some(50)));
}

#[test]
fn play_time_ignores_clocks_that_went_backwards() {
    let games = vec![
        GameRecord { game_id: 1, finished_at: 1_000, started_at: 400, player_count: 2, final_score: 50, placement: 1 },
        GameRecord { game_id: 2, finished_at: 2_000, started_at: 2_100, player_count: 3, final_score: 40, placement: 2 },
        GameRecord { game_id: 3, finished_at: 3_000, started_at: 2_900, player_count: 2, final_score: 61, placement: 1 },
    ];
    assert_eq!(total_play_time(&games), 700);
    let history = score_history(&games);
    assert_eq!(history.len(), 3);
    assert_eq!(history[1].score, 40);
    assert_eq!(history[1].placement, 2);
    assert_eq!(history[2].game_id, 3);
}

#[test]
fn scores_grouped_by_key_in_ascending_order() {
    let groups = group_scores(&vec![(4, 50), (2, 30), (4, 70), (3, 10), (2, 41)]);
    assert_eq!(
        groups,
        vec![
            ScoreGroup { key: 2, games: 2, total: 71 },
            ScoreGroup { key: 3, games: 1, total: 10 },
            ScoreGroup { key: 4, games: 2, total: 120 },
        ]
    );
    assert!(group_scores(&vec![]).is_empty());
}

#[test]
fn best_play_needs_points_and_a_strict_improvement() {
    assert!(is_new_best_play(None, 3));
    assert!(!is_new_best_play(None, 0));
    assert!(is_new_best_play(Some(3), 4));
    assert!(!is_new_best_play(Some(4), 4));
}

// ─── The lobby ───────────────────────────────────────────────────────────────

#[test]
fn room_code_spells_the_drawn_letters() {
    assert_eq!(room_code_from(&[0, 1, 2, 23]), "ABCZ");
    // I and O are left out of the alphabet: position 8 is J, 13 is P.
    assert_eq!(room_code_from(&[8, 13, 7, 11]), "JPHM");
}

#[test]
fn room_codes_are_four_unambiguous_capitals() {
    for _ in 0..50 {
        let code = generate_room_code();
        assert_eq!(code.chars().count(), 4);
        assert!(code.chars().all(|c| "ABCDEFGHJKLMNPQRSTUVWXYZ".contains(c)));
    }
}

#[test]
fn lobby_lists_only_waiting_rooms() {
    let mut gs = GameState::new_waiting(2);
    gs.join("Alice").unwrap();
    let info = room_info("ABCD", &gs).unwrap();
    assert_eq!(info.code, "ABCD");
    assert_eq!(info.players, vec!["Alice".to_string()]);
    assert_eq!(info.player_count, 1);
    gs.start_game(0, false, false).unwrap();
    assert!(room_info("ABCD", &gs).is_none());
}

// ─── Text ────────────────────────────────────────────────────────────────────

#[test]
fn decimals_and_joins() {
    let mut s = String::from("n=");
    push_decimal(&mut s, 4072);
    assert_eq!(s, "n=4072");
    let items = vec!["a".to_string(), "b".to_string(), "c".to_string()];
    assert_eq!(join_strings(&items, ", "), "a, b, c");
}
