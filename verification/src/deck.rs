//! The deck of 108 cards, its shuffling, and the hands that are dealt from it.

use crate::types::{Card, Hand, MakiRolls, Nigiri};
use rand::rngs::ThreadRng;
use rand::seq::SliceRandom;
use std::collections::HashMap;
use vstd::prelude::*;

verus! {

broadcast use vstd::std_specs::hash::group_hash_axioms;

/// The card with the identifier `i` in the deck: 14 tempura, 14 sashimi, 14
/// dumplings, 12 maki cards of two rolls, 8 of three and 6 of one, 10 salmon,
/// 5 squid and 5 egg nigiri, 10 puddings, 6 wasabi and 4 chopsticks.
pub open spec fn deck_card(i: int) -> Card {
    if i < 14 {
        Card::Tempura
    } else if i < 28 {
        Card::Sashimi
    } else if i < 42 {
        Card::Dumpling
    } else if i < 54 {
        Card::MakiRolls(MakiRolls::Two)
    } else if i < 62 {
        Card::MakiRolls(MakiRolls::Three)
    } else if i < 68 {
        Card::MakiRolls(MakiRolls::One)
    } else if i < 78 {
        Card::Nigiri(Nigiri::Salmon)
    } else if i < 83 {
        Card::Nigiri(Nigiri::Squid)
    } else if i < 88 {
        Card::Nigiri(Nigiri::Egg)
    } else if i < 98 {
        Card::Pudding
    } else if i < 104 {
        Card::Wasabi
    } else {
        Card::Chopsticks
    }
}

/// The deck: 108 cards, each with its place as its identifier.
pub open spec fn deck_cards() -> Seq<(usize, Card)> {
    Seq::new(108, |i: int| (i as usize, deck_card(i)))
}

/// Appends `count` copies of `card`, each with its place as its identifier.
fn push_copies(cards: &mut Vec<(usize, Card)>, card: Card, count: usize)
    requires
        old(cards)@.len() + count <= 108,
    ensures
        final(cards)@ == old(cards)@ + Seq::new(
            count as nat,
            |k: int| ((old(cards)@.len() + k) as usize, card),
        ),
{
    let mut k: usize = 0;
    while k < count
        invariant
            k <= count,
            old(cards)@.len() + count <= 108,
            cards@ == old(cards)@ + Seq::new(
                k as nat,
                |k: int| ((old(cards)@.len() + k) as usize, card),
            ),
        decreases count - k,
    {
        let id = cards.len();
        cards.push((id, card));
        assert(cards@ =~= old(cards)@ + Seq::new(
            (k + 1) as nat,
            |k: int| ((old(cards)@.len() + k) as usize, card),
        ));
        k += 1;
    }
}

/// Builds the deck.
pub fn deck() -> (cards: Vec<(usize, Card)>)
    ensures
        cards@ == deck_cards(),
{
    let mut cards: Vec<(usize, Card)> = Vec::new();
    push_copies(&mut cards, Card::Tempura, 14);
    push_copies(&mut cards, Card::Sashimi, 14);
    push_copies(&mut cards, Card::Dumpling, 14);
    push_copies(&mut cards, Card::MakiRolls(MakiRolls::Two), 12);
    push_copies(&mut cards, Card::MakiRolls(MakiRolls::Three), 8);
    push_copies(&mut cards, Card::MakiRolls(MakiRolls::One), 6);
    push_copies(&mut cards, Card::Nigiri(Nigiri::Salmon), 10);
    push_copies(&mut cards, Card::Nigiri(Nigiri::Squid), 5);
    push_copies(&mut cards, Card::Nigiri(Nigiri::Egg), 5);
    push_copies(&mut cards, Card::Pudding, 10);
    push_copies(&mut cards, Card::Wasabi, 6);
    push_copies(&mut cards, Card::Chopsticks, 4);
    cards
}

/// The generator of random numbers that rand keeps for each thread.
#[verifier::external_type_specification]
#[verifier::external_body]
pub struct ExThreadRng(ThreadRng);

/// `rand::thread_rng`: the generator of the calling thread. Nothing is
/// claimed of it.
#[verifier::external_body]
fn thread_generator() -> ThreadRng {
    rand::thread_rng()
}

/// `SliceRandom::shuffle` of rand on the cards. It swaps cards in place and
/// does nothing else, so the same cards are there afterwards, each as often
/// as before. In which order they come depends on the generator.
#[verifier::external_body]
fn shuffle_with(cards: &mut Vec<(usize, Card)>, rng: &mut ThreadRng)
    ensures
        final(cards)@.to_multiset() == old(cards)@.to_multiset(),
{
    cards.shuffle(rng);
}

/// Shuffles the cards with the generator of the calling thread.
pub fn shuffle(cards: &mut Vec<(usize, Card)>)
    ensures
        final(cards)@.to_multiset() == old(cards)@.to_multiset(),
{
    let mut rng = thread_generator();
    shuffle_with(cards, &mut rng);
}

/// How many cards a hand holds in a game of `n` players.
pub open spec fn cards_per_player(n: nat) -> nat {
    if n == 2 {
        5
    } else if n == 3 {
        9
    } else if n == 4 {
        8
    } else {
        7
    }
}

/// The hand that holds `cards`, put in first to last: of two cards with one
/// identifier the later one stays.
pub open spec fn hand_of(cards: Seq<(usize, Card)>) -> Map<usize, Card>
    decreases cards.len(),
{
    if cards.len() == 0 {
        Map::empty()
    } else {
        hand_of(cards.drop_last()).insert(cards.last().0, cards.last().1)
    }
}

/// The cards of hand number `k` where hands of `per` cards are dealt from
/// the end of `cards`: the last card of `cards` is the first of hand 0.
pub open spec fn dealt_cards(cards: Seq<(usize, Card)>, k: int, per: int) -> Seq<(usize, Card)> {
    Seq::new(per as nat, |t: int| cards[cards.len() - 1 - (k * per + t)])
}

/// The first `count` hands of `per` cards that are dealt from the end of
/// `cards`.
pub open spec fn dealt_hands(cards: Seq<(usize, Card)>, count: nat, per: int) -> Seq<
    Map<usize, Card>,
> {
    Seq::new(count, |k: int| hand_of(dealt_cards(cards, k, per)))
}

/// A hand holds no more cards than were put in, and each of its cards was
/// put in.
pub proof fn lemma_hand_of(cards: Seq<(usize, Card)>)
    ensures
        hand_of(cards).dom().finite(),
        hand_of(cards).len() <= cards.len(),
        forall|id: usize| #[trigger]
            hand_of(cards).contains_key(id) ==> exists|t: int|
                0 <= t < cards.len() && #[trigger] cards[t] == (id, hand_of(cards)[id]),
    decreases cards.len(),
{
    if cards.len() > 0 {
        let rest = cards.drop_last();
        lemma_hand_of(rest);
        assert forall|id: usize| #[trigger] hand_of(cards).contains_key(id) implies exists|t: int|
            0 <= t < cards.len() && #[trigger] cards[t] == (id, hand_of(cards)[id]) by {
            if id == cards.last().0 {
            } else {
                let t = choose|t: int|
                    0 <= t < rest.len() && #[trigger] rest[t] == (id, hand_of(rest)[id]);
            }
        }
    }
}

/// Where no identifier occurs twice among the cards put in, the hand holds
/// each of them.
pub proof fn lemma_hand_of_distinct(cards: Seq<(usize, Card)>)
    requires
        forall|s: int, t: int|
            0 <= s < t < cards.len() ==> (#[trigger] cards[s]).0 != (#[trigger] cards[t]).0,
    ensures
        hand_of(cards).len() == cards.len(),
        forall|t: int|
            0 <= t < cards.len() ==> hand_of(cards).contains_key((#[trigger] cards[t]).0)
                && hand_of(cards)[cards[t].0] == cards[t].1,
    decreases cards.len(),
{
    if cards.len() > 0 {
        let rest = cards.drop_last();
        lemma_hand_of_distinct(rest);
        lemma_hand_of(rest);
        if hand_of(rest).contains_key(cards.last().0) {
            let t = choose|t: int|
                0 <= t < rest.len() && #[trigger] rest[t] == (
                    cards.last().0,
                    hand_of(rest)[cards.last().0],
                );
        }
        assert forall|t: int| 0 <= t < cards.len() implies hand_of(cards).contains_key(
            (#[trigger] cards[t]).0,
        ) && hand_of(cards)[cards[t].0] == cards[t].1 by {
            if t < cards.len() - 1 {
                assert(rest[t].0 != cards[cards.len() - 1].0);
            }
        }
    }
}

/// Deals `num_hands` hands of `per` cards from the end of `cards`.
pub fn build_hands(cards: &mut Vec<(usize, Card)>, num_hands: usize, per: usize) -> (hands: Vec<
    Hand,
>)
    requires
        num_hands * per <= old(cards)@.len(),
    ensures
        crate::game::hand_maps(hands@) == dealt_hands(old(cards)@, num_hands as nat, per as int),
        final(cards)@ == old(cards)@.take(old(cards)@.len() - num_hands * per),
{
    let mut hands: Vec<Hand> = Vec::with_capacity(num_hands);
    let ghost all = cards@;
    let mut k: usize = 0;
    while k < num_hands
        invariant
            k <= num_hands,
            all == old(cards)@,
            num_hands * per <= all.len(),
            k * per <= num_hands * per,
            cards@ == all.take(all.len() - k * per),
            hands@.len() == k,
            forall|j: int| 0 <= j < k ==> (#[trigger] hands@[j])@ == hand_of(
                dealt_cards(all, j, per as int),
            ),
        decreases num_hands - k,
    {
        let mut hand: Hand = HashMap::with_capacity(per);
        let mut t: usize = 0;
        proof {
            assert((k + 1) * per == k * per + per) by (nonlinear_arith);
            assert((k + 1) * per <= num_hands * per) by (nonlinear_arith)
                requires
                    k + 1 <= num_hands,
            ;
        }
        while t < per
            invariant
                t <= per,
                k < num_hands,
                num_hands * per <= all.len(),
                k * per + per <= num_hands * per,
                cards@ == all.take(all.len() - (k * per + t)),
                hand@ == hand_of(dealt_cards(all, k as int, per as int).take(t as int)),
            decreases per - t,
        {
            let (id, card) = cards.pop().unwrap();
            hand.insert(id, card);
            proof {
                let mine = dealt_cards(all, k as int, per as int);
                assert(mine.take(t + 1).drop_last() == mine.take(t as int));
            }
            t += 1;
        }
        proof {
            let mine = dealt_cards(all, k as int, per as int);
            assert(mine.take(per as int) == mine);
        }
        hands.push(hand);
        k += 1;
    }
    hands
}

} // verus!
