use linked_hash_set::LinkedHashSet;
use rand::rngs::StdRng;
use rand::seq::SliceRandom;
use rand::SeedableRng;
use std::collections::{HashMap, HashSet};
use std::convert::TryFrom;
use sushi::deck::{deck, shuffle};
use sushi::create::shuffled_deck;
use sushi::{
    score_round, Card, CreateGameError, FaceUpCard, Game, GameEvent, Hand, MakiRolls, Nigiri,
    Player, SelectCardsError, UserId,
};

fn hand_of(cards: &[(usize, Card)]) -> Hand {
    let mut hand = HashMap::new();
    for (id, card) in cards {
        hand.insert(*id, *card);
    }
    hand
}

fn users(n: i64) -> Vec<UserId> {
    (1..=n).map(UserId).collect()
}

fn seeded_deck(seed: u64) -> Vec<(usize, Card)> {
    let mut cards = deck();
    let mut rng = StdRng::seed_from_u64(seed);
    cards.shuffle(&mut rng);
    cards
}

fn copy_of(player: &Player) -> Player {
    Player::from_parts(
        player.id(),
        player.hand().clone(),
        player.selected_cards().clone(),
        player.face_up_cards().clone(),
        player.num_points(),
        player.num_puddings(),
    )
}

fn lowest_card(player: &Player) -> usize {
    *player.hand().keys().min().unwrap()
}

fn count(cards: &[(usize, Card)], card: Card) -> usize {
    cards.iter().filter(|(_, c)| *c == card).count()
}

#[test]
fn deck_holds_the_108_cards() {
    let cards = deck();

    assert_eq!(cards.len(), 108);
    for (place, (id, _)) in cards.iter().enumerate() {
        assert_eq!(*id, place);
    }
    assert_eq!(count(&cards, Card::Tempura), 14);
    assert_eq!(count(&cards, Card::Sashimi), 14);
    assert_eq!(count(&cards, Card::Dumpling), 14);
    assert_eq!(count(&cards, Card::MakiRolls(MakiRolls::Two)), 12);
    assert_eq!(count(&cards, Card::MakiRolls(MakiRolls::Three)), 8);
    assert_eq!(count(&cards, Card::MakiRolls(MakiRolls::One)), 6);
    assert_eq!(count(&cards, Card::Nigiri(Nigiri::Salmon)), 10);
    assert_eq!(count(&cards, Card::Nigiri(Nigiri::Squid)), 5);
    assert_eq!(count(&cards, Card::Nigiri(Nigiri::Egg)), 5);
    assert_eq!(count(&cards, Card::Pudding), 10);
    assert_eq!(count(&cards, Card::Wasabi), 6);
    assert_eq!(count(&cards, Card::Chopsticks), 4);
    assert_eq!(cards[0], (0, Card::Tempura));
    assert_eq!(cards[53], (53, Card::MakiRolls(MakiRolls::Two)));
    assert_eq!(cards[107], (107, Card::Chopsticks));
}

#[test]
fn shuffle_keeps_the_cards_and_changes_their_order() {
    let sorted = deck();
    let mut moved = false;
    for _ in 0..4 {
        let mut cards = deck();
        shuffle(&mut cards);
        if cards != sorted {
            moved = true;
        }
        cards.sort_by_key(|(id, _)| *id);
        assert_eq!(cards, sorted);
    }
    assert!(moved);
}

#[test]
fn shuffled_deck_holds_the_cards_of_the_deck() {
    let mut cards = shuffled_deck();
    cards.sort_by_key(|(id, _)| *id);
    assert_eq!(cards, deck());
}

#[test]
fn deal_partitions_the_cards_into_hands() {
    let sizes = [(2, 5), (3, 9), (4, 8), (5, 7)];
    for (num_players, hand_size) in sizes.iter() {
        let cards = seeded_deck(11);
        let game = Game::deal(users(*num_players), cards.clone()).unwrap();

        let mut hands: Vec<&Hand> = game.hands().iter().collect();
        for player in game.players() {
            hands.push(player.hand());
        }
        assert_eq!(hands.len(), 3 * (*num_players as usize));
        assert_eq!(game.hands().len(), 2 * (*num_players as usize));

        let mut seen = HashSet::new();
        for hand in &hands {
            assert_eq!(hand.len(), *hand_size);
            for (id, card) in hand.iter() {
                assert!(seen.insert(*id));
                assert_eq!(deck()[*id], (*id, *card));
            }
        }

        let dealt = 3 * (*num_players as usize) * hand_size;
        let expected: HashSet<usize> = cards[108 - dealt..].iter().map(|(id, _)| *id).collect();
        assert_eq!(seen, expected);
    }
}

#[test]
fn deal_hands_out_from_the_end_of_the_cards() {
    let game = Game::deal(users(2), deck()).unwrap();

    // Six hands of five cards: the first takes 107 down to 103, the sixth 82
    // down to 78. The players get the last two, the first player the last.
    let first: Hand = (78..83).map(|id| deck()[id]).collect();
    let second: Hand = (83..88).map(|id| deck()[id]).collect();
    assert_eq!(game.players()[0].hand(), &first);
    assert_eq!(game.players()[1].hand(), &second);
    let opening: Hand = (103..108).map(|id| deck()[id]).collect();
    assert_eq!(game.hands()[0], opening);
    assert_eq!(game.round(), 1);
    assert_eq!(game.winner(), None);
    assert_eq!(game.user_ids(), users(2));
    assert!(game.is_valid());
}

#[test]
fn deal_refuses_too_few_players() {
    assert_eq!(Game::deal(users(1), deck()).unwrap_err(), CreateGameError::TooFewPlayers(1));
    assert_eq!(Game::deal(users(0), deck()).unwrap_err(), CreateGameError::TooFewPlayers(0));
}

#[test]
fn deal_refuses_too_many_players() {
    assert_eq!(Game::deal(users(6), deck()).unwrap_err(), CreateGameError::TooManyPlayers(6));
}

#[test]
fn create_error_messages() {
    assert_eq!(
        CreateGameError::TooFewPlayers(1).message(),
        "You must add at least 1 more player to the game."
    );
    assert_eq!(
        CreateGameError::TooManyPlayers(6).message(),
        "Remove at least 1 player from the game."
    );
    assert_eq!(
        CreateGameError::TooManyPlayers(17).message(),
        "Remove at least 12 players from the game."
    );
}

#[test]
fn try_from_seats_the_users_in_the_order_of_the_set() {
    let mut set = LinkedHashSet::new();
    set.insert(UserId(30));
    set.insert(UserId(10));
    set.insert(UserId(20));
    set.insert(UserId(10));

    let game = Game::try_from(set).unwrap();

    assert_eq!(game.user_ids(), vec![UserId(30), UserId(20), UserId(10)]);
    assert_eq!(game.round(), 1);
    assert_eq!(game.hands().len(), 6);
    for player in game.players() {
        assert_eq!(player.hand().len(), 9);
    }
    assert!(game.is_valid());
}

#[test]
fn try_from_refuses_a_single_user() {
    let mut set = LinkedHashSet::new();
    set.insert(UserId(30));

    assert_eq!(Game::try_from(set).unwrap_err(), CreateGameError::TooFewPlayers(1));
}

#[test]
fn try_from_refuses_six_users() {
    let mut set = LinkedHashSet::new();
    for id in 0..6 {
        set.insert(UserId(id));
    }

    assert_eq!(Game::try_from(set).unwrap_err(), CreateGameError::TooManyPlayers(6));
}

#[test]
fn select_cards_goes_to_the_player() {
    let mut game = Game::deal(users(3), deck()).unwrap();
    let card = lowest_card(&game.players()[1]);

    let events = game.select_cards(UserId(2), vec![card]).unwrap();

    assert_eq!(events.len(), 1);
    assert!(matches!(events[0], GameEvent::CardsSelected(UserId(2))));
    assert_eq!(game.players()[1].selected_cards(), &vec![card]);
    assert!(game.players()[0].selected_cards().is_empty());
    assert!(game.players()[2].selected_cards().is_empty());
    assert!(!game.ready_to_end_turn());
    assert!(game.is_valid());
}

#[test]
fn select_cards_reports_the_error_of_the_player() {
    let mut game = Game::deal(users(3), deck()).unwrap();
    let a = lowest_card(&game.players()[0]);
    let b = lowest_card(&game.players()[1]);

    assert_eq!(
        game.select_cards(UserId(1), vec![b]).unwrap_err(),
        SelectCardsError::DoesNotHaveCard
    );
    assert_eq!(
        game.select_cards(UserId(1), vec![a, a + 1]).unwrap_err(),
        SelectCardsError::NoChopsticks
    );
    assert_eq!(
        game.select_cards(UserId(1), vec![a, a + 1, a + 2]).unwrap_err(),
        SelectCardsError::TooManyCards
    );
    assert_eq!(game, Game::deal(users(3), deck()).unwrap());
}

#[test]
fn end_turn_does_nothing_unless_everybody_is_ready() {
    let mut game = Game::deal(users(3), deck()).unwrap();

    assert!(game.end_turn().is_empty());
    assert_eq!(game, Game::deal(users(3), deck()).unwrap());

    let a = lowest_card(&game.players()[0]);
    let b = lowest_card(&game.players()[1]);
    game.select_cards(UserId(1), vec![a]).unwrap();
    game.select_cards(UserId(2), vec![b]).unwrap();
    let before = Game::from_parts(
        game.round(),
        game.hands().clone(),
        game.players().iter().map(copy_of).collect(),
        game.winner(),
    );

    assert!(game.end_turn().is_empty());
    assert_eq!(game, before);
}

#[test]
fn end_turn_resolves_and_passes_the_hands_on() {
    let mut game = Game::deal(users(3), deck()).unwrap();
    let mut expected_hands = Vec::new();
    let mut expected_piles = Vec::new();
    for (seat, id) in users(3).iter().enumerate() {
        let card = lowest_card(&game.players()[seat]);
        game.select_cards(*id, vec![card]).unwrap();
        let mut hand = game.players()[seat].hand().clone();
        let played = hand.remove(&card).unwrap();
        expected_hands.push(hand);
        expected_piles.push(vec![FaceUpCard::Card { id: card, card: played }]);
    }

    let events = game.end_turn();

    assert_eq!(events.len(), 1);
    assert!(matches!(events[0], GameEvent::TurnOver));
    assert_eq!(game.players()[0].hand(), &expected_hands[2]);
    assert_eq!(game.players()[1].hand(), &expected_hands[0]);
    assert_eq!(game.players()[2].hand(), &expected_hands[1]);
    for seat in 0..3 {
        assert_eq!(game.players()[seat].face_up_cards(), &expected_piles[seat]);
        assert!(game.players()[seat].selected_cards().is_empty());
    }
    assert_eq!(game.round(), 1);
    assert_eq!(game.hands().len(), 6);
    assert!(game.is_valid());
}

#[test]
fn one_round_of_three_players() {
    let ids = users(3);
    let mut game = Game::deal(ids.clone(), seeded_deck(2024)).unwrap();
    let second_hands: Vec<Hand> = (0..3).map(|seat| game.hands()[5 - seat].clone()).collect();
    let mut rounds_over = Vec::new();
    let mut piles = HashMap::new();

    for turn in 0..9 {
        for (seat, id) in ids.iter().enumerate() {
            let card = lowest_card(&game.players()[seat]);
            let events = game.select_cards(*id, vec![card]).unwrap();
            assert_eq!(events.len(), 1);
        }
        assert!(game.ready_to_end_turn());
        if turn == 8 {
            for player in game.players() {
                let mut last = copy_of(player);
                last.step();
                piles.insert(player.id().0, last.take_face_up_cards());
            }
        }

        let events = game.end_turn();

        assert!(matches!(events[0], GameEvent::TurnOver));
        assert_eq!(events.len(), if turn == 8 { 2 } else { 1 });
        for event in events {
            if let GameEvent::RoundOver(round_over) = event {
                rounds_over.push(round_over);
            }
        }
        assert!(game.is_valid());
    }

    assert_eq!(rounds_over.len(), 1);
    assert_eq!(rounds_over[0].round, 1);
    for pile in piles.values() {
        assert!(pile.len() <= 9);
        assert!(pile.iter().all(|entry| !matches!(
            entry,
            FaceUpCard::Card { card: Card::Pudding, .. }
        )));
    }
    assert_eq!(rounds_over[0].points, score_round(&piles));
    assert_eq!(game.round(), 2);
    assert_eq!(game.winner(), None);
    assert_eq!(game.hands().len(), 3);
    for (seat, player) in game.players().iter().enumerate() {
        assert_eq!(player.hand(), &second_hands[seat]);
        assert!(player.face_up_cards().is_empty());
        assert_eq!(player.num_points(), rounds_over[0].points[&player.id().0]);
    }
}

#[test]
fn whole_game_names_the_winner() {
    for seed in 0..20 {
        let ids = users(4);
        let mut game = Game::deal(ids.clone(), seeded_deck(seed)).unwrap();
        let mut all_events = Vec::new();

        for _ in 0..(3 * 8) {
            for (seat, id) in ids.iter().enumerate() {
                let card = lowest_card(&game.players()[seat]);
                game.select_cards(*id, vec![card]).unwrap();
            }
            all_events.extend(game.end_turn());
        }

        let rounds: Vec<usize> = all_events
            .iter()
            .filter_map(|event| match event {
                GameEvent::RoundOver(round_over) => Some(round_over.round),
                _ => None,
            })
            .collect();
        assert_eq!(rounds, vec![1, 2, 3]);
        assert!(matches!(all_events[all_events.len() - 2], GameEvent::RoundOver(_)));
        let winner = match all_events[all_events.len() - 1] {
            GameEvent::GameOver(winner) => winner,
            _ => panic!("the last event does not name the winner"),
        };
        assert_eq!(game.winner(), Some(winner));
        assert_eq!(game.round(), 4);
        assert!(game.hands().is_empty());
        assert!(game.is_valid());

        let best = game
            .players()
            .iter()
            .map(|p| (p.num_points(), p.num_puddings()))
            .max()
            .unwrap();
        let first_best = game
            .players()
            .iter()
            .find(|p| (p.num_points(), p.num_puddings()) == best)
            .unwrap();
        assert_eq!(first_best.id(), winner);

        // Nothing moves once the game is over.
        assert!(game.end_turn().is_empty());
        assert!(!game.ready_to_end_turn());
    }
}

fn finished(totals: &[(usize, usize)]) -> Game {
    let players = totals
        .iter()
        .enumerate()
        .map(|(seat, (points, puddings))| {
            Player::from_parts(
                UserId(seat as i64 + 1),
                HashMap::new(),
                vec![],
                vec![],
                *points,
                *puddings,
            )
        })
        .collect();
    Game::from_parts(4, vec![], players, None)
}

#[test]
fn end_game_prefers_points() {
    let mut game = finished(&[(20, 9), (31, 0), (30, 5)]);

    let events = game.end_game();

    assert_eq!(events.len(), 1);
    assert!(matches!(events[0], GameEvent::GameOver(UserId(2))));
    assert_eq!(game.winner(), Some(UserId(2)));
}

#[test]
fn end_game_breaks_a_tie_by_puddings() {
    let mut game = finished(&[(31, 1), (20, 9), (31, 2), (31, 0)]);

    let events = game.end_game();

    assert!(matches!(events[0], GameEvent::GameOver(UserId(3))));
    assert_eq!(game.winner(), Some(UserId(3)));
}

#[test]
fn end_game_takes_the_first_of_equals() {
    let mut game = finished(&[(10, 1), (31, 2), (31, 2)]);

    let events = game.end_game();

    assert!(matches!(events[0], GameEvent::GameOver(UserId(2))));
}

#[test]
fn end_game_without_players_names_nobody() {
    let mut game = Game::from_parts(4, vec![], vec![], Some(UserId(1)));

    let events = game.end_game();

    assert!(events.is_empty());
    assert_eq!(game.winner(), None);
}

#[test]
fn end_round_scores_and_deals_the_next_hands() {
    let pile = |cards: &[(usize, Card)]| {
        cards.iter().map(|(id, card)| FaceUpCard::Card { id: *id, card: *card }).collect()
    };
    let players = vec![
        Player::from_parts(
            UserId(1),
            HashMap::new(),
            vec![],
            pile(&[(0, Card::Tempura), (1, Card::Tempura), (42, Card::MakiRolls(MakiRolls::Two))]),
            3,
            1,
        ),
        Player::from_parts(
            UserId(2),
            HashMap::new(),
            vec![],
            pile(&[(28, Card::Dumpling), (62, Card::MakiRolls(MakiRolls::One))]),
            4,
            0,
        ),
    ];
    let hands = vec![
        hand_of(&[(10, Card::Tempura)]),
        hand_of(&[(11, Card::Tempura)]),
        hand_of(&[(12, Card::Tempura)]),
        hand_of(&[(13, Card::Tempura)]),
    ];
    let mut game = Game::from_parts(2, hands, players, None);
    assert!(game.is_valid());

    let events = game.end_round();

    assert_eq!(events.len(), 1);
    match &events[0] {
        GameEvent::RoundOver(round_over) => {
            assert_eq!(round_over.round, 2);
            assert_eq!(round_over.points.len(), 2);
            assert_eq!(round_over.points[&1], 11);
            assert_eq!(round_over.points[&2], 4);
        }
        _ => panic!("the event does not report the round"),
    }
    assert_eq!(game.round(), 3);
    assert_eq!(game.players()[0].num_points(), 14);
    assert_eq!(game.players()[1].num_points(), 8);
    assert_eq!(game.players()[0].num_puddings(), 1);
    assert!(game.players()[0].face_up_cards().is_empty());
    assert_eq!(game.players()[0].hand(), &hand_of(&[(13, Card::Tempura)]));
    assert_eq!(game.players()[1].hand(), &hand_of(&[(12, Card::Tempura)]));
    assert_eq!(
        game.hands(),
        &vec![hand_of(&[(10, Card::Tempura)]), hand_of(&[(11, Card::Tempura)])]
    );
    assert!(game.is_valid());
}

#[test]
fn games_out_of_order_are_not_valid() {
    let fresh = || Player::new(UserId(1), hand_of(&[(1, Card::Tempura)]));
    let other = || Player::new(UserId(2), hand_of(&[(2, Card::Tempura)]));
    let reserve = || vec![HashMap::new(), HashMap::new(), HashMap::new(), HashMap::new()];

    assert!(Game::from_parts(1, reserve(), vec![fresh(), other()], None).is_valid());
    // one player only
    assert!(!Game::from_parts(1, reserve(), vec![fresh()], None).is_valid());
    // the same user twice
    assert!(!Game::from_parts(1, reserve(), vec![fresh(), fresh()], None).is_valid());
    // no round 0 and no round 5
    assert!(!Game::from_parts(0, reserve(), vec![fresh(), other()], None).is_valid());
    assert!(!Game::from_parts(5, vec![], vec![fresh(), other()], None).is_valid());
    // too few hands for the rounds to come
    assert!(!Game::from_parts(1, vec![HashMap::new()], vec![fresh(), other()], None).is_valid());
    // cards in a hand after the game
    assert!(!Game::from_parts(4, vec![], vec![fresh(), other()], None).is_valid());
    // points that no round has brought
    let rich = Player::from_parts(UserId(2), HashMap::new(), vec![], vec![], 1, 0);
    assert!(!Game::from_parts(1, reserve(), vec![fresh(), rich], None).is_valid());
    // a winner while a round is played
    assert!(!Game::from_parts(1, reserve(), vec![fresh(), other()], Some(UserId(1))).is_valid());
    assert!(!Game::from_parts(3, vec![], vec![fresh(), other()], Some(UserId(2))).is_valid());
}

#[test]
fn end_turn_does_nothing_to_a_game_out_of_order_that_is_not_ready() {
    let lonely = || {
        Game::from_parts(
            7,
            vec![],
            vec![Player::new(UserId(1), hand_of(&[(1, Card::Tempura)]))],
            Some(UserId(9)),
        )
    };
    let mut game = lonely();
    assert!(!game.is_valid());
    assert!(!game.ready_to_end_turn());

    assert!(game.end_turn().is_empty());
    assert_eq!(game, lonely());
}

#[test]
fn view_of_a_game() {
    let mut game = Game::deal(users(3), deck()).unwrap();
    let card = lowest_card(&game.players()[2]);
    game.select_cards(UserId(3), vec![card]).unwrap();
    let own_hand = game.players()[1].hand().clone();

    let view = game.into(UserId(2));

    assert_eq!(view.round, 1);
    assert_eq!(view.winner, None);
    let own = view.player.unwrap();
    assert_eq!(own.hand, own_hand);
    assert!(own.selected_cards.is_empty());
    assert_eq!(view.opponents.len(), 2);
    assert_eq!(view.opponents[0].id, UserId(1));
    assert!(!view.opponents[0].ready);
    assert_eq!(view.opponents[0].num_cards, 9);
    assert_eq!(view.opponents[1].id, UserId(3));
    assert!(view.opponents[1].ready);
}

#[test]
fn view_of_a_game_for_a_stranger() {
    let game = Game::deal(users(2), deck()).unwrap();

    let view = game.into(UserId(99));

    assert!(view.player.is_none());
    assert_eq!(view.opponents.len(), 2);
    assert_eq!(view.opponents[0].id, UserId(1));
    assert_eq!(view.opponents[1].id, UserId(2));
}
