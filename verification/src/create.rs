//! Creating a game: the players take their seats in the order given, the
//! deck is shuffled, and the hands of all three rounds are dealt at once.

use crate::deck::{
    build_hands, cards_per_player, deck, deck_cards, dealt_cards, dealt_hands,
    lemma_hand_of, lemma_hand_of_distinct, shuffle,
};
use crate::game::{
    hand_maps, Game, GameModel, DECK_SIZE, MAX_GAME_SIZE, MIN_GAME_SIZE, NUM_ROUNDS,
};
use crate::player::{Player, PlayerModel};
use crate::types::{Card, UserId};
use linked_hash_set::LinkedHashSet;
use std::convert::TryFrom;
use vstd::prelude::*;
use vstd::std_specs::convert::TryFromSpecImpl;
use vstd::string::StringExecFns;

verus! {

/// Why no game was created: too few or too many players, with their number.
#[derive(Clone, Copy, Debug, PartialEq, Eq, Structural)]
pub enum CreateGameError {
    TooFewPlayers(usize),
    TooManyPlayers(usize),
}

impl CreateGameError {
    /// Whether the error has something to tell the user: one player is too
    /// few, and more than five are too many.
    pub open spec fn has_text(self) -> bool {
        match self {
            CreateGameError::TooFewPlayers(n) => n == 1,
            CreateGameError::TooManyPlayers(n) => n > MAX_GAME_SIZE,
        }
    }

    /// What the error tells the user: to add a player, or how many to remove.
    pub open spec fn text(self) -> Seq<char> {
        match self {
            CreateGameError::TooFewPlayers(_) => "You must add at least 1 more player to the game."@,
            CreateGameError::TooManyPlayers(n) => "Remove at least "@ + crate::wire::numeral(
                (n - MAX_GAME_SIZE) as nat,
            ) + if n - MAX_GAME_SIZE == 1 {
                " player"@
            } else {
                " players"@
            } + " from the game."@,
        }
    }

    /// What the error tells the user.
    pub fn message(&self) -> (message: String)
        requires
            self.has_text(),
        ensures
            message@ == self.text(),
    {
        match self {
            CreateGameError::TooFewPlayers(_) => String::from_str(
                "You must add at least 1 more player to the game.",
            ),
            CreateGameError::TooManyPlayers(n) => {
                let to_remove = *n - MAX_GAME_SIZE;
                let mut message = String::from_str("Remove at least ");
                let number = crate::wire::number_text(to_remove);
                message.append(number.as_str());
                if to_remove == 1 {
                    message.append(" player");
                } else {
                    message.append(" players");
                }
                message.append(" from the game.");
                message
            },
        }
    }
}

/// The set of an outside crate that keeps its items in the order in which
/// they were put in.
#[verifier::external_type_specification]
#[verifier::external_body]
#[verifier::reject_recursive_types(T)]
#[verifier::reject_recursive_types(S)]
pub struct ExLinkedHashSet<T, S>(LinkedHashSet<T, S>);

/// The users of the set, in the order in which they were put in.
pub uninterp spec fn set_order(user_ids: LinkedHashSet<UserId>) -> Seq<UserId>;

/// `LinkedHashSet::into_iter`, collected: the items of the set in the order
/// in which they were put in. The set keeps every item once, so none occurs
/// twice.
#[verifier::external_body]
fn in_order(user_ids: LinkedHashSet<UserId>) -> (ids: Vec<UserId>)
    ensures
        ids@ == set_order(user_ids),
        ids@.no_duplicates(),
{
    user_ids.into_iter().collect()
}

/// Why no game is created for `n` players, if none is.
pub open spec fn create_error(n: nat) -> Option<CreateGameError> {
    if n < MIN_GAME_SIZE {
        Some(CreateGameError::TooFewPlayers(n as usize))
    } else if n > MAX_GAME_SIZE {
        Some(CreateGameError::TooManyPlayers(n as usize))
    } else {
        None
    }
}

/// The game that is dealt to the users `ids` from `cards`. Three hands for
/// each player are dealt from the end of `cards`. The hands that were dealt
/// last go to the players, the very last to the first player; the others are
/// kept for the rounds to come.
pub open spec fn dealt_game(ids: Seq<UserId>, cards: Seq<(usize, Card)>) -> GameModel {
    let n = ids.len();
    let hands = dealt_hands(cards, NUM_ROUNDS as nat * n, cards_per_player(n) as int);
    GameModel {
        round: 1,
        hands: hands.take(hands.len() - n),
        players: Seq::new(
            n,
            |i: int|
                PlayerModel {
                    id: ids[i],
                    hand: hands[hands.len() - 1 - i],
                    selection: Seq::empty(),
                    pile: Seq::empty(),
                    points: 0,
                    puddings: 0,
                },
        ),
        winner: None,
    }
}

/// A game that is dealt to two to five distinct users is in order.
pub proof fn lemma_dealt_game_wf(ids: Seq<UserId>, cards: Seq<(usize, Card)>)
    requires
        MIN_GAME_SIZE <= ids.len() <= MAX_GAME_SIZE,
        ids.no_duplicates(),
    ensures
        dealt_game(ids, cards).wf(),
{
    let g = dealt_game(ids, cards);
    let n = ids.len();
    let per = cards_per_player(n) as int;
    let hands = dealt_hands(cards, NUM_ROUNDS as nat * n, per);
    assert(g.rounds_left() == 2);
    assert forall|k: int| 0 <= k < hands.len() implies (#[trigger] hands[k]).dom().finite()
        && hands[k].len() <= 9 by {
        lemma_hand_of(dealt_cards(cards, k, per));
    }
}

/// All hands of a game are dealt from distinct cards: each hand holds as
/// many cards as a hand has for the number of players, no card is in two
/// hands, every card that was dealt is in the hand of its turn, and a hand
/// holds nothing but cards that were dealt.
pub proof fn lemma_hands_partition(cards: Seq<(usize, Card)>, n: nat)
    requires
        MIN_GAME_SIZE <= n <= MAX_GAME_SIZE,
        NUM_ROUNDS * n * cards_per_player(n) <= cards.len(),
        forall|s: int, t: int|
            0 <= s < t < cards.len() ==> (#[trigger] cards[s]).0 != (#[trigger] cards[t]).0,
    ensures
        ({
            let per = cards_per_player(n);
            let hands = dealt_hands(cards, NUM_ROUNDS as nat * n, per as int);
            let first = cards.len() - NUM_ROUNDS * n * per;
            &&& hands.len() == NUM_ROUNDS * n
            &&& forall|k: int|
                0 <= k < hands.len() ==> (#[trigger] hands[k]).dom().finite() && hands[k].len()
                    == per
            &&& forall|j: int, k: int, id: usize|
                0 <= j < k < hands.len() && #[trigger] hands[j].contains_key(id)
                    ==> !#[trigger] hands[k].contains_key(id)
            &&& forall|q: int|
                #![trigger cards[q]]
                first <= q < cards.len() ==> 0 <= (cards.len() - 1 - q) / (per as int)
                    < hands.len() && hands[(cards.len() - 1 - q) / (per as int)].contains_pair(
                    cards[q].0,
                    cards[q].1,
                )
            &&& forall|k: int, id: usize|
                0 <= k < hands.len() && #[trigger] hands[k].contains_key(id) ==> exists|q: int|
                    first <= q < cards.len() && #[trigger] cards[q] == (id, hands[k][id])
        }),
{
    let per = cards_per_player(n) as int;
    let count = (NUM_ROUNDS as nat * n) as int;
    let hands = dealt_hands(cards, NUM_ROUNDS as nat * n, cards_per_player(n) as int);
    let first = cards.len() - NUM_ROUNDS * n * cards_per_player(n);
    assert(count * per == NUM_ROUNDS * n * cards_per_player(n)) by (nonlinear_arith)
        requires
            count == NUM_ROUNDS as int * n,
            per == cards_per_player(n),
    ;
    assert forall|k: int| 0 <= k < count implies {
        let mine = dealt_cards(cards, k, per);
        &&& (#[trigger] hands[k]).dom().finite()
        &&& hands[k].len() == per
        &&& forall|t: int|
            0 <= t < per ==> hands[k].contains_key((#[trigger] mine[t]).0) && hands[k][mine[t].0]
                == mine[t].1
        &&& forall|id: usize| #[trigger]
            hands[k].contains_key(id) ==> exists|t: int|
                0 <= t < per && #[trigger] mine[t] == (id, hands[k][id])
    } by {
        let mine = dealt_cards(cards, k, per);
        assert forall|s: int, t: int| 0 <= s < t < mine.len() implies (#[trigger] mine[s]).0 != (
        #[trigger] mine[t]).0 by {
            assert(cards[cards.len() - 1 - (k * per + t)].0 != cards[cards.len() - 1 - (k * per
                + s)].0);
        }
        lemma_hand_of_distinct(mine);
        lemma_hand_of(mine);
    }
    assert forall|j: int, k: int, id: usize|
        0 <= j < k < hands.len() && #[trigger] hands[j].contains_key(id) implies !#[trigger] hands[k].contains_key(
        id,
    ) by {
        if hands[k].contains_key(id) {
            let a = dealt_cards(cards, j, per);
            let b = dealt_cards(cards, k, per);
            let s = choose|s: int| 0 <= s < per && #[trigger] a[s] == (id, hands[j][id]);
            let t = choose|t: int| 0 <= t < per && #[trigger] b[t] == (id, hands[k][id]);
            assert(j * per + s < k * per + t) by (nonlinear_arith)
                requires
                    0 <= j < k,
                    0 <= s < per,
                    0 <= t,
            ;
            assert(cards[cards.len() - 1 - (k * per + t)].0 != cards[cards.len() - 1 - (j * per
                + s)].0);
        }
    }
    assert forall|q: int| #![trigger cards[q]] first <= q < cards.len() implies 0 <= (cards.len()
        - 1 - q) / per < hands.len() && hands[(cards.len() - 1 - q) / per].contains_pair(
        cards[q].0,
        cards[q].1,
    ) by {
        let d = cards.len() - 1 - q;
        let k = d / per;
        let t = d % per;
        assert(k < count) by (nonlinear_arith)
            requires
                d == per * k + t,
                0 <= t,
                d < count * per,
                per > 0,
        ;
        assert(per * k == k * per) by (nonlinear_arith);
        let mine = dealt_cards(cards, k, per);
        assert(mine[t] == cards[q]);
    }
}

/// The hands of a game take no more cards than the deck has.
pub proof fn lemma_cards_needed(n: nat)
    ensures
        create_error(n) is None ==> NUM_ROUNDS * n * cards_per_player(n) <= DECK_SIZE,
{
    if n == 2 {
        assert(NUM_ROUNDS * n * cards_per_player(n) == 30) by (nonlinear_arith)
            requires
                n == 2,
                cards_per_player(n) == 5,
                NUM_ROUNDS == 3,
        ;
    } else if n == 3 {
        assert(NUM_ROUNDS * n * cards_per_player(n) == 81) by (nonlinear_arith)
            requires
                n == 3,
                cards_per_player(n) == 9,
                NUM_ROUNDS == 3,
        ;
    } else if n == 4 {
        assert(NUM_ROUNDS * n * cards_per_player(n) == 96) by (nonlinear_arith)
            requires
                n == 4,
                cards_per_player(n) == 8,
                NUM_ROUNDS == 3,
        ;
    } else if n == 5 {
        assert(NUM_ROUNDS * n * cards_per_player(n) == 105) by (nonlinear_arith)
            requires
                n == 5,
                cards_per_player(n) == 7,
                NUM_ROUNDS == 3,
        ;
    }
}

/// The cards of a shuffled deck carry the numbers of the deck, each once.
pub proof fn lemma_shuffled(cards: Seq<(usize, Card)>)
    requires
        cards.to_multiset() == deck_cards().to_multiset(),
    ensures
        cards.len() == DECK_SIZE,
        forall|s: int, t: int|
            0 <= s < t < cards.len() ==> (#[trigger] cards[s]).0 != (#[trigger] cards[t]).0,
{
    broadcast use vstd::seq_lib::to_multiset_contains;

    let deck = deck_cards();
    vstd::seq_lib::to_multiset_len(cards);
    vstd::seq_lib::to_multiset_len(deck);
    deck.lemma_multiset_has_no_duplicates();
    cards.lemma_multiset_has_no_duplicates_conv();
    assert forall|s: int, t: int| 0 <= s < t < cards.len() implies (#[trigger] cards[s]).0 != (
    #[trigger] cards[t]).0 by {
        assert(deck.to_multiset().count(cards[s]) > 0);
        assert(deck.to_multiset().count(cards[t]) > 0);
    }
}

/// The deck, shuffled: the cards of the deck in some order.
pub fn shuffled_deck() -> (cards: Vec<(usize, Card)>)
    ensures
        cards@.to_multiset() == deck_cards().to_multiset(),
{
    let mut cards = deck();
    shuffle(&mut cards);
    cards
}

impl Game {
    /// Creates the game that is dealt to `user_ids` from `cards`, or refuses
    /// because there are fewer than two or more than five users.
    pub fn deal(user_ids: Vec<UserId>, cards: Vec<(usize, Card)>) -> (result: Result<
        Game,
        CreateGameError,
    >)
        requires
            create_error(user_ids@.len()) is None ==> NUM_ROUNDS * user_ids@.len()
                * cards_per_player(user_ids@.len()) <= cards@.len(),
        ensures
            match result {
                Ok(game) => create_error(user_ids@.len()) is None && game@ == dealt_game(
                    user_ids@,
                    cards@,
                ) && (user_ids@.no_duplicates() ==> game@.wf()),
                Err(e) => create_error(user_ids@.len()) == Some(e),
            },
    {
        let num_players = user_ids.len();
        if num_players < MIN_GAME_SIZE {
            return Err(CreateGameError::TooFewPlayers(num_players));
        }
        if num_players > MAX_GAME_SIZE {
            return Err(CreateGameError::TooManyPlayers(num_players));
        }
        let num_cards_per_player: usize = if num_players == 2 {
            5
        } else if num_players == 3 {
            9
        } else if num_players == 4 {
            8
        } else {
            7
        };
        let num_hands = NUM_ROUNDS * num_players;
        let ghost all = dealt_hands(cards@, num_hands as nat, num_cards_per_player as int);
        proof {
            assert(num_hands * num_cards_per_player == NUM_ROUNDS * user_ids@.len()
                * cards_per_player(user_ids@.len())) by (nonlinear_arith)
                requires
                    num_hands == NUM_ROUNDS * user_ids@.len(),
                    num_cards_per_player == cards_per_player(user_ids@.len()),
            ;
        }
        let mut rest = cards;
        let mut hands = build_hands(&mut rest, num_hands, num_cards_per_player);
        let mut players: Vec<Player> = Vec::with_capacity(num_players);
        let mut i: usize = 0;
        while i < num_players
            invariant
                i <= num_players,
                num_players == user_ids@.len(),
                all.len() == num_hands,
                num_hands >= num_players,
                hand_maps(hands@) == all.take(num_hands - i),
                hands@.len() == num_hands - i,
                players@.len() == i,
                forall|j: int|
                    0 <= j < i ==> (#[trigger] players@[j])@ == (PlayerModel {
                        id: user_ids@[j],
                        hand: all[all.len() - 1 - j],
                        selection: Seq::empty(),
                        pile: Seq::empty(),
                        points: 0,
                        puddings: 0,
                    }),
            decreases num_players - i,
        {
            assert(hand_maps(hands@)[num_hands - i - 1] == hands@[num_hands - i - 1]@);
            let hand = hands.pop().unwrap();
            let player = Player::new(user_ids[i], hand);
            players.push(player);
            i += 1;
        }
        let game = Game::from_parts(1, hands, players, None);
        proof {
            assert(game@.players =~= dealt_game(user_ids@, cards@).players);
            if user_ids@.no_duplicates() {
                lemma_dealt_game_wf(user_ids@, cards@);
            }
        }
        Ok(game)
    }
}

impl TryFrom<LinkedHashSet<UserId>> for Game {
    type Error = CreateGameError;

    /// Creates a game for the users of the set, who take their seats in the
    /// order of the set, from a freshly shuffled deck. With fewer than two or
    /// more than five users no game is created.
    fn try_from(user_ids: LinkedHashSet<UserId>) -> (result: Result<Self, CreateGameError>)
        ensures
            match result {
                Ok(game) => {
                    &&& create_error(set_order(user_ids).len()) is None
                    &&& game@.wf()
                    &&& exists|cards: Seq<(usize, Card)>|
                        cards.to_multiset() == deck_cards().to_multiset() && game@ == dealt_game(
                            set_order(user_ids),
                            cards,
                        )
                },
                Err(e) => create_error(set_order(user_ids).len()) == Some(e),
            },
    {
        let ids = in_order(user_ids);
        let cards = shuffled_deck();
        proof {
            lemma_shuffled(cards@);
            lemma_cards_needed(ids@.len());
        }
        Game::deal(ids, cards)
    }
}

impl TryFromSpecImpl<LinkedHashSet<UserId>> for Game {
    open spec fn obeys_try_from_spec() -> bool {
        false
    }

    open spec fn try_from_spec(user_ids: LinkedHashSet<UserId>) -> Result<Self, CreateGameError> {
        arbitrary()
    }
}

} // verus!
