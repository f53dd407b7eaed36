use std::collections::HashMap;
use sushi::{Card, FaceUpCard, GameEvent, Hand, MakiRolls, Nigiri, Player, SelectCardsError, UserId};

fn hand_of(cards: &[(usize, Card)]) -> Hand {
    let mut hand = HashMap::new();
    for (id, card) in cards {
        hand.insert(*id, *card);
    }
    hand
}

fn chopsticks(id: usize) -> FaceUpCard {
    FaceUpCard::Card { id, card: Card::Chopsticks }
}

fn wasabi(id: usize) -> FaceUpCard {
    FaceUpCard::Card { id, card: Card::Wasabi }
}

fn player_with(hand: &[(usize, Card)], pile: Vec<FaceUpCard>) -> Player {
    Player::from_parts(UserId(7), hand_of(hand), vec![], pile, 0, 0)
}

#[test]
fn new_player_has_nothing_but_the_hand() {
    let hand = hand_of(&[(3, Card::Tempura), (40, Card::Dumpling)]);

    let player = Player::new(UserId(9), hand.clone());

    assert_eq!(player.id(), UserId(9));
    assert_eq!(player.hand(), &hand);
    assert!(player.selected_cards().is_empty());
    assert!(player.face_up_cards().is_empty());
    assert_eq!(player.num_points(), 0);
    assert_eq!(player.num_puddings(), 0);
    assert!(!player.is_ready());
    assert!(!player.is_done());
    assert!(player.is_valid());
}

#[test]
fn player_without_cards_is_done() {
    let player = Player::new(UserId(1), HashMap::new());
    assert!(player.is_done());
}

#[test]
fn select_one_card_reports_the_selection() {
    let mut player = player_with(&[(3, Card::Tempura), (40, Card::Dumpling)], vec![]);

    let events = player.select_cards(vec![40]).unwrap();

    assert_eq!(events.len(), 1);
    assert!(matches!(events[0], GameEvent::CardsSelected(UserId(7))));
    assert_eq!(player.selected_cards(), &vec![40]);
    assert!(player.is_ready());
}

#[test]
fn select_same_cards_again_reports_nothing() {
    let mut player = player_with(&[(3, Card::Tempura), (40, Card::Dumpling)], vec![]);

    let first = player.select_cards(vec![3]).unwrap();
    let second = player.select_cards(vec![3]).unwrap();

    assert_eq!(first.len(), 1);
    assert!(second.is_empty());
    assert_eq!(player.selected_cards(), &vec![3]);
}

#[test]
fn select_other_card_replaces_the_selection() {
    let mut player = player_with(&[(3, Card::Tempura), (40, Card::Dumpling)], vec![]);

    player.select_cards(vec![3]).unwrap();
    let events = player.select_cards(vec![40]).unwrap();

    assert_eq!(events.len(), 1);
    assert_eq!(player.selected_cards(), &vec![40]);
}

#[test]
fn select_nothing_clears_the_selection() {
    let mut player = player_with(&[(3, Card::Tempura)], vec![]);

    player.select_cards(vec![3]).unwrap();
    let events = player.select_cards(vec![]).unwrap();

    assert_eq!(events.len(), 1);
    assert!(!player.is_ready());
}

#[test]
fn select_three_cards_fails() {
    let mut player = player_with(
        &[(3, Card::Tempura), (40, Card::Dumpling), (90, Card::Pudding)],
        vec![chopsticks(104)],
    );

    let result = player.select_cards(vec![3, 40, 90]);

    assert_eq!(result.unwrap_err(), SelectCardsError::TooManyCards);
    assert!(player.selected_cards().is_empty());
}

#[test]
fn select_two_cards_without_chopsticks_fails() {
    let mut player = player_with(&[(3, Card::Tempura), (40, Card::Dumpling)], vec![wasabi(98)]);

    let result = player.select_cards(vec![3, 40]);

    assert_eq!(result.unwrap_err(), SelectCardsError::NoChopsticks);
    assert!(player.selected_cards().is_empty());
}

#[test]
fn select_two_cards_with_chopsticks_succeeds() {
    let mut player = player_with(
        &[(3, Card::Tempura), (40, Card::Dumpling)],
        vec![wasabi(98), chopsticks(104)],
    );

    let events = player.select_cards(vec![40, 3]).unwrap();

    assert_eq!(events.len(), 1);
    assert_eq!(player.selected_cards(), &vec![40, 3]);
}

#[test]
fn select_absent_card_fails_and_keeps_the_selection() {
    let mut player = player_with(&[(3, Card::Tempura), (40, Card::Dumpling)], vec![]);
    player.select_cards(vec![3]).unwrap();

    let result = player.select_cards(vec![41]);

    assert_eq!(result.unwrap_err(), SelectCardsError::DoesNotHaveCard);
    assert_eq!(player.selected_cards(), &vec![3]);
}

#[test]
fn select_error_messages() {
    assert_eq!(SelectCardsError::TooManyCards.message(), "Too many cards selected");
    assert_eq!(
        SelectCardsError::NoChopsticks.message(),
        "Only one card can be played without chopsticks"
    );
    assert_eq!(SelectCardsError::DoesNotHaveCard.message(), "Player does not have card");
}

#[test]
fn step_plays_the_selected_card() {
    let mut player = player_with(&[(3, Card::Tempura), (40, Card::Dumpling)], vec![wasabi(98)]);
    player.select_cards(vec![40]).unwrap();

    player.step();

    assert_eq!(player.hand(), &hand_of(&[(3, Card::Tempura)]));
    assert_eq!(
        player.face_up_cards(),
        &vec![wasabi(98), FaceUpCard::Card { id: 40, card: Card::Dumpling }]
    );
    assert!(player.selected_cards().is_empty());
    assert_eq!(player.num_puddings(), 0);
}

#[test]
fn step_without_selection_changes_nothing() {
    let mut player = player_with(&[(3, Card::Tempura)], vec![wasabi(98)]);

    player.step();

    assert_eq!(player, player_with(&[(3, Card::Tempura)], vec![wasabi(98)]));
}

#[test]
fn step_counts_puddings() {
    let mut player = Player::from_parts(
        UserId(7),
        hand_of(&[(88, Card::Pudding), (89, Card::Pudding), (3, Card::Tempura)]),
        vec![88, 89],
        vec![chopsticks(105)],
        4,
        2,
    );

    player.step();

    assert_eq!(player.num_puddings(), 4);
    assert_eq!(player.num_points(), 4);
    assert_eq!(player.hand(), &hand_of(&[(3, Card::Tempura), (105, Card::Chopsticks)]));
    assert!(player.face_up_cards().is_empty());
}

#[test]
fn step_keeps_a_pudding_off_the_pile() {
    let mut player = player_with(&[(88, Card::Pudding), (3, Card::Tempura)], vec![wasabi(98)]);
    player.select_cards(vec![88]).unwrap();

    player.step();

    assert_eq!(player.num_puddings(), 1);
    assert_eq!(player.num_points(), 0);
    assert_eq!(player.id(), UserId(7));
    assert_eq!(player.face_up_cards(), &vec![wasabi(98)]);
    assert_eq!(player.hand(), &hand_of(&[(3, Card::Tempura)]));
}

#[test]
fn step_plays_a_pudding_beside_another_card() {
    let mut player = player_with(
        &[(88, Card::Pudding), (3, Card::Tempura), (40, Card::Dumpling)],
        vec![chopsticks(104)],
    );
    player.select_cards(vec![3, 88]).unwrap();

    player.step();

    assert_eq!(player.num_puddings(), 1);
    assert_eq!(player.face_up_cards(), &vec![FaceUpCard::Card { id: 3, card: Card::Tempura }]);
    assert_eq!(player.hand(), &hand_of(&[(40, Card::Dumpling), (104, Card::Chopsticks)]));
}

#[test]
fn step_puts_nigiri_on_the_first_wasabi() {
    let mut player = player_with(
        &[(80, Card::Nigiri(Nigiri::Squid)), (3, Card::Tempura)],
        vec![
            FaceUpCard::Card { id: 1, card: Card::Tempura },
            wasabi(98),
            FaceUpCard::Card { id: 30, card: Card::Dumpling },
            wasabi(99),
        ],
    );
    player.select_cards(vec![80]).unwrap();

    player.step();

    assert_eq!(
        player.face_up_cards(),
        &vec![
            FaceUpCard::Card { id: 1, card: Card::Tempura },
            FaceUpCard::Card { id: 30, card: Card::Dumpling },
            wasabi(99),
            FaceUpCard::Wasabi { nigiri: Nigiri::Squid },
        ]
    );
}

#[test]
fn step_keeps_nigiri_plain_without_wasabi() {
    let mut player = player_with(
        &[(70, Card::Nigiri(Nigiri::Salmon))],
        vec![FaceUpCard::Wasabi { nigiri: Nigiri::Egg }],
    );
    player.select_cards(vec![70]).unwrap();

    player.step();

    assert_eq!(
        player.face_up_cards(),
        &vec![
            FaceUpCard::Wasabi { nigiri: Nigiri::Egg },
            FaceUpCard::Card { id: 70, card: Card::Nigiri(Nigiri::Salmon) },
        ]
    );
    assert!(player.is_done());
}

#[test]
fn step_with_two_cards_returns_the_first_chopsticks() {
    let mut player = player_with(
        &[
            (70, Card::Nigiri(Nigiri::Salmon)),
            (84, Card::Nigiri(Nigiri::Egg)),
            (50, Card::MakiRolls(MakiRolls::Two)),
        ],
        vec![wasabi(98), chopsticks(104), chopsticks(107)],
    );
    player.select_cards(vec![84, 70]).unwrap();

    player.step();

    assert_eq!(
        player.hand(),
        &hand_of(&[(50, Card::MakiRolls(MakiRolls::Two)), (104, Card::Chopsticks)])
    );
    assert_eq!(
        player.face_up_cards(),
        &vec![
            chopsticks(107),
            FaceUpCard::Wasabi { nigiri: Nigiri::Egg },
            FaceUpCard::Card { id: 70, card: Card::Nigiri(Nigiri::Salmon) },
        ]
    );
}

#[test]
fn take_and_give_hand() {
    let mut player = player_with(&[(3, Card::Tempura)], vec![]);

    let hand = player.take_hand();

    assert_eq!(hand, hand_of(&[(3, Card::Tempura)]));
    assert!(player.is_done());

    player.give_hand(hand_of(&[(5, Card::Tempura), (6, Card::Tempura)]));

    assert_eq!(player.hand(), &hand_of(&[(5, Card::Tempura), (6, Card::Tempura)]));
}

#[test]
fn take_face_up_cards_clears_the_pile() {
    let mut player = player_with(&[], vec![wasabi(98), chopsticks(104)]);

    let pile = player.take_face_up_cards();

    assert_eq!(pile, vec![wasabi(98), chopsticks(104)]);
    assert!(player.face_up_cards().is_empty());
}

#[test]
fn add_points_adds() {
    let mut player = player_with(&[], vec![]);

    player.add_points(5);
    player.add_points(12);

    assert_eq!(player.num_points(), 17);
}

#[test]
fn player_with_twice_the_same_card_selected_is_not_valid() {
    let player = Player::from_parts(
        UserId(1),
        hand_of(&[(3, Card::Tempura)]),
        vec![3, 3],
        vec![chopsticks(104)],
        0,
        0,
    );
    assert!(!player.is_valid());
}

#[test]
fn player_with_absent_card_selected_is_not_valid() {
    let player = Player::from_parts(UserId(1), hand_of(&[(3, Card::Tempura)]), vec![4], vec![], 0, 0);
    assert!(!player.is_valid());
}

#[test]
fn views_of_a_player() {
    let make = || {
        Player::from_parts(
            UserId(5),
            hand_of(&[(3, Card::Tempura), (4, Card::Tempura)]),
            vec![4],
            vec![wasabi(98)],
            11,
            2,
        )
    };

    let own = make().into_player_view();

    assert_eq!(own.face_up_cards, vec![wasabi(98)]);
    assert_eq!(own.hand, hand_of(&[(3, Card::Tempura), (4, Card::Tempura)]));
    assert_eq!(own.num_points, 11);
    assert_eq!(own.num_puddings, 2);
    assert_eq!(own.selected_cards, vec![4]);

    let other = make().into_opponent_view();

    assert_eq!(other.face_up_cards, vec![wasabi(98)]);
    assert_eq!(other.id, UserId(5));
    assert_eq!(other.num_cards, 2);
    assert_eq!(other.num_points, 11);
    assert_eq!(other.num_puddings, 2);
    assert!(other.ready);
}
