use std::collections::HashMap;
use sushi::scoring::{
    score_dumplings, score_face_up_cards, score_maki_rolls, score_nigiri, score_round,
    score_sashimis, score_tempuras,
};
use sushi::{Card, FaceUpCard, MakiRolls, Nigiri};

fn plain(id: usize, card: Card) -> FaceUpCard {
    FaceUpCard::Card { id, card }
}

#[test]
fn score_maki_rolls_0_cannot_be_second_place() {
    // arrange
    let mut rolls = HashMap::new();
    rolls.insert(0, 1);
    rolls.insert(1, 0);

    // act
    let actual = score_maki_rolls(rolls);

    // assert
    assert_eq!(actual.get(&0), Some(&6));
    assert_eq!(actual.get(&1), Some(&0));
}

#[test]
fn score_maki_rolls_first_second_third_places() {
    // arrange
    let mut rolls = HashMap::new();
    rolls.insert(0, 2);
    rolls.insert(1, 1);
    rolls.insert(2, 0);

    // act
    let actual = score_maki_rolls(rolls);

    // assert
    assert_eq!(actual.get(&0), Some(&6));
    assert_eq!(actual.get(&1), Some(&3));
    assert_eq!(actual.get(&2), Some(&0));
}

#[test]
fn score_maki_rolls_first_place_twoway_tie() {
    // arrange
    let mut rolls = HashMap::new();
    rolls.insert(0, 2);
    rolls.insert(1, 2);
    rolls.insert(2, 1);
    rolls.insert(3, 0);

    // act
    let actual = score_maki_rolls(rolls);

    // assert
    assert_eq!(actual.get(&0), Some(&3));
    assert_eq!(actual.get(&1), Some(&3));
    assert_eq!(actual.get(&2), Some(&0));
    assert_eq!(actual.get(&3), Some(&0));
}

#[test]
fn score_maki_rolls_first_place_threeway_tie() {
    // arrange
    let mut rolls = HashMap::new();
    rolls.insert(0, 2);
    rolls.insert(1, 2);
    rolls.insert(2, 2);
    rolls.insert(3, 1);
    rolls.insert(4, 0);

    // act
    let actual = score_maki_rolls(rolls);

    // assert
    assert_eq!(actual.get(&0), Some(&2));
    assert_eq!(actual.get(&1), Some(&2));
    assert_eq!(actual.get(&2), Some(&2));
    assert_eq!(actual.get(&3), Some(&0));
    assert_eq!(actual.get(&4), Some(&0));
}

#[test]
fn score_maki_rolls_first_place_fourway_tie() {
    // arrange
    let mut rolls = HashMap::new();
    rolls.insert(0, 2);
    rolls.insert(1, 2);
    rolls.insert(2, 2);
    rolls.insert(3, 2);
    rolls.insert(4, 1);

    // act
    let actual = score_maki_rolls(rolls);

    // assert
    assert_eq!(actual.get(&0), Some(&1));
    assert_eq!(actual.get(&1), Some(&1));
    assert_eq!(actual.get(&2), Some(&1));
    assert_eq!(actual.get(&3), Some(&1));
    assert_eq!(actual.get(&4), Some(&0));
}

#[test]
fn score_maki_rolls_first_place_fiveway_tie() {
    // arrange
    let mut rolls = HashMap::new();
    rolls.insert(0, 1);
    rolls.insert(1, 1);
    rolls.insert(2, 1);
    rolls.insert(3, 1);
    rolls.insert(4, 1);

    // act
    let actual = score_maki_rolls(rolls);

    // assert
    assert_eq!(actual.get(&0), Some(&1));
    assert_eq!(actual.get(&1), Some(&1));
    assert_eq!(actual.get(&2), Some(&1));
    assert_eq!(actual.get(&3), Some(&1));
    assert_eq!(actual.get(&4), Some(&1));
}

#[test]
fn score_maki_rolls_second_place_twoway_tie() {
    // arrange
    let mut rolls = HashMap::new();
    rolls.insert(0, 2);
    rolls.insert(1, 1);
    rolls.insert(2, 1);
    rolls.insert(3, 0);

    // act
    let actual = score_maki_rolls(rolls);

    // assert
    assert_eq!(actual.get(&0), Some(&6));
    assert_eq!(actual.get(&1), Some(&1));
    assert_eq!(actual.get(&2), Some(&1));
    assert_eq!(actual.get(&3), Some(&0));
}

#[test]
fn score_maki_rolls_second_place_threeway_tie() {
    // arrange
    let mut rolls = HashMap::new();
    rolls.insert(0, 2);
    rolls.insert(1, 1);
    rolls.insert(2, 1);
    rolls.insert(3, 1);
    rolls.insert(4, 0);

    // act
    let actual = score_maki_rolls(rolls);

    // assert
    assert_eq!(actual.get(&0), Some(&6));
    assert_eq!(actual.get(&1), Some(&1));
    assert_eq!(actual.get(&2), Some(&1));
    assert_eq!(actual.get(&3), Some(&1));
    assert_eq!(actual.get(&4), Some(&0));
}

#[test]
fn score_maki_rolls_second_place_fourway_tie() {
    // arrange
    let mut rolls = HashMap::new();
    rolls.insert(0, 2);
    rolls.insert(1, 1);
    rolls.insert(2, 1);
    rolls.insert(3, 1);
    rolls.insert(4, 1);

    // act
    let actual = score_maki_rolls(rolls);

    // assert
    assert_eq!(actual.get(&0), Some(&6));
    assert_eq!(actual.get(&1), Some(&0));
    assert_eq!(actual.get(&2), Some(&0));
    assert_eq!(actual.get(&3), Some(&0));
    assert_eq!(actual.get(&4), Some(&0));
}

#[test]
fn score_maki_rolls_of_nobody_is_empty() {
    let rolls: HashMap<u8, usize> = HashMap::new();
    assert!(score_maki_rolls(rolls).is_empty());
}

#[test]
fn score_maki_rolls_without_rolls_brings_nothing() {
    let mut rolls = HashMap::new();
    rolls.insert(10i64, 0);
    rolls.insert(11i64, 0);
    rolls.insert(12i64, 0);

    let actual = score_maki_rolls(rolls);

    assert_eq!(actual.len(), 3);
    assert_eq!(actual.get(&10), Some(&0));
    assert_eq!(actual.get(&11), Some(&0));
    assert_eq!(actual.get(&12), Some(&0));
}

#[test]
fn score_maki_rolls_alone_takes_first_place() {
    let mut rolls = HashMap::new();
    rolls.insert(3u64, 7);

    let actual = score_maki_rolls(rolls);

    assert_eq!(actual.get(&3), Some(&6));
}

#[test]
fn score_maki_rolls_third_place_brings_nothing() {
    let mut rolls = HashMap::new();
    rolls.insert(0, 9);
    rolls.insert(1, 5);
    rolls.insert(2, 4);
    rolls.insert(3, 4);

    let actual = score_maki_rolls(rolls);

    assert_eq!(actual.get(&0), Some(&6));
    assert_eq!(actual.get(&1), Some(&3));
    assert_eq!(actual.get(&2), Some(&0));
    assert_eq!(actual.get(&3), Some(&0));
}

#[test]
fn score_nigiri_values() {
    assert_eq!(score_nigiri(&Nigiri::Egg), 1);
    assert_eq!(score_nigiri(&Nigiri::Salmon), 2);
    assert_eq!(score_nigiri(&Nigiri::Squid), 3);
}

#[test]
fn maki_rolls_counts() {
    assert_eq!(MakiRolls::One.count(), 1);
    assert_eq!(MakiRolls::Two.count(), 2);
    assert_eq!(MakiRolls::Three.count(), 3);
}

#[test]
fn score_dumplings_table() {
    let expected = [0, 1, 3, 6, 10, 15, 15];
    for (n, points) in expected.iter().enumerate() {
        assert_eq!(score_dumplings(n), *points);
    }
    assert_eq!(score_dumplings(100), 15);
}

#[test]
fn score_sashimis_table() {
    let expected = [0, 0, 0, 10, 10, 10, 20, 20];
    for (n, points) in expected.iter().enumerate() {
        assert_eq!(score_sashimis(n), *points);
    }
}

#[test]
fn score_tempuras_table() {
    let expected = [0, 0, 5, 5, 10];
    for (n, points) in expected.iter().enumerate() {
        assert_eq!(score_tempuras(n), *points);
    }
}

#[test]
fn score_face_up_cards_of_empty_pile() {
    assert_eq!(score_face_up_cards(&[]), (0, 0));
}

#[test]
fn score_face_up_cards_adds_all_kinds() {
    let pile = vec![
        plain(0, Card::Tempura),
        plain(1, Card::Tempura),
        plain(2, Card::Tempura),
        plain(14, Card::Sashimi),
        plain(15, Card::Sashimi),
        plain(16, Card::Sashimi),
        plain(28, Card::Dumpling),
        plain(29, Card::Dumpling),
        plain(42, Card::MakiRolls(MakiRolls::Two)),
        plain(54, Card::MakiRolls(MakiRolls::Three)),
        plain(62, Card::MakiRolls(MakiRolls::One)),
        plain(68, Card::Nigiri(Nigiri::Salmon)),
        FaceUpCard::Wasabi { nigiri: Nigiri::Squid },
        FaceUpCard::Wasabi { nigiri: Nigiri::Egg },
        plain(88, Card::Pudding),
        plain(98, Card::Wasabi),
        plain(104, Card::Chopsticks),
    ];

    // tempura 5, sashimi 10, dumplings 3, nigiri 2 + 9 + 3
    assert_eq!(score_face_up_cards(&pile), (32, 6));
}

#[test]
fn score_round_adds_maki_points_to_pile_points() {
    let mut round = HashMap::new();
    round.insert(
        1i64,
        vec![
            plain(42, Card::MakiRolls(MakiRolls::Two)),
            plain(28, Card::Dumpling),
        ],
    );
    round.insert(
        2i64,
        vec![
            plain(62, Card::MakiRolls(MakiRolls::One)),
            plain(0, Card::Tempura),
            plain(1, Card::Tempura),
        ],
    );
    round.insert(3i64, vec![FaceUpCard::Wasabi { nigiri: Nigiri::Squid }]);

    let scores = score_round(&round);

    assert_eq!(scores.len(), 3);
    assert_eq!(scores.get(&1), Some(&7));
    assert_eq!(scores.get(&2), Some(&8));
    assert_eq!(scores.get(&3), Some(&9));
}

#[test]
fn score_round_of_nobody_is_empty() {
    let round: HashMap<i64, Vec<FaceUpCard>> = HashMap::new();
    assert!(score_round(&round).is_empty());
}
