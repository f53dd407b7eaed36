//! The game: the players in turn order, the hands dealt for the rounds to
//! come, the round, and the winner once there is one.

use crate::player::{lemma_stepped, Player, PlayerModel, SelectCardsError};
use crate::scoring::{
    lemma_maki_points_bound, lemma_pile_bounds, rolls_of, round_points, score_round,
    FIRST_PLACE_POINTS,
};
use crate::types::{
    Card, FaceUpCard, GameEvent, GameView, Hand, OpponentView, PlayerView, RoundOver, UserId,
};
use std::collections::HashMap;
use std::collections::VecDeque;
use vstd::prelude::*;

verus! {

broadcast use vstd::std_specs::hash::group_hash_axioms;

/// The fewest players of a game.
pub const MIN_GAME_SIZE: usize = 2;

/// The most players of a game.
pub const MAX_GAME_SIZE: usize = 5;

/// The rounds of a game.
pub const NUM_ROUNDS: usize = 3;

/// The cards of the deck; no hand can hold more.
pub const DECK_SIZE: usize = 108;

/// The most points that one round can bring one player: sixteen for each of
/// as many pile entries as the deck has cards, fifteen more, and the maki
/// points of the first place.
pub open spec fn round_cap() -> nat {
    (16 * DECK_SIZE + 15 + FIRST_PLACE_POINTS) as nat
}

/// The face-up piles of the players, each under the number of its player's
/// identifier. Where two players share an identifier, the later one counts.
pub open spec fn piles_by_id(players: Seq<PlayerModel>) -> Map<i64, Seq<FaceUpCard>>
    decreases players.len(),
{
    if players.len() == 0 {
        Map::empty()
    } else {
        piles_by_id(players.drop_last()).insert(players.last().id.0, players.last().pile)
    }
}

/// The points that the round brings each player, under the number of the
/// player's identifier.
pub open spec fn round_scores(players: Seq<PlayerModel>) -> Map<i64, usize> {
    Map::new(
        |id: i64| piles_by_id(players).contains_key(id),
        |id: i64| round_points(piles_by_id(players), id) as usize,
    )
}

/// The players after the round was scored: the piles are cleared and each
/// player has the round's points added.
pub open spec fn scored(players: Seq<PlayerModel>) -> Seq<PlayerModel> {
    Seq::new(
        players.len(),
        |i: int|
            PlayerModel {
                pile: Seq::empty(),
                points: players[i].points + round_points(piles_by_id(players), players[i].id.0),
                ..players[i]
            },
    )
}

/// The players after each was given a hand from the end of `hands`: the
/// first player the last hand, the second the one before, and so on.
pub open spec fn dealt(players: Seq<PlayerModel>, hands: Seq<Map<usize, Card>>) -> Seq<
    PlayerModel,
> {
    Seq::new(
        players.len(),
        |i: int| PlayerModel { hand: hands[hands.len() - 1 - i], ..players[i] },
    )
}

/// Whether `a` stands above `b` at the end of the game: more points, or as
/// many points and more puddings.
pub open spec fn outranks(a: PlayerModel, b: PlayerModel) -> bool {
    a.points > b.points || (a.points == b.points && a.puddings > b.puddings)
}

/// Whether the player at `w` wins: nobody stands above, and everybody before
/// stands below. So of several players who stand highest, the first wins.
pub open spec fn is_winner(players: Seq<PlayerModel>, w: int) -> bool {
    &&& 0 <= w < players.len()
    &&& forall|j: int| 0 <= j < players.len() ==> !outranks(#[trigger] players[j], players[w])
    &&& forall|j: int| 0 <= j < w ==> outranks(players[w], #[trigger] players[j])
}

/// The winner among `players`, if there are any players.
pub open spec fn winner_of(players: Seq<PlayerModel>) -> Option<UserId> {
    if players.len() == 0 {
        None
    } else {
        Some(players[choose|w: int| is_winner(players, w)].id)
    }
}

/// Whether `i` is the first place among `players` where `id` sits.
pub open spec fn is_seat(players: Seq<PlayerModel>, id: UserId, i: int) -> bool {
    &&& 0 <= i < players.len()
    &&& players[i].id == id
    &&& forall|j: int| 0 <= j < i ==> (#[trigger] players[j]).id != id
}

/// The seats of the user `id` among `players` in turn order, or, where
/// `own` is false, the seats of everybody else.
pub open spec fn seats_of(players: Seq<PlayerModel>, id: UserId, own: bool) -> Seq<PlayerModel>
    decreases players.len(),
{
    if players.len() == 0 {
        Seq::empty()
    } else if (players.last().id == id) == own {
        seats_of(players.drop_last(), id, own).push(players.last())
    } else {
        seats_of(players.drop_last(), id, own)
    }
}

/// Whether `view` shows the seat `p` as its player sees it.
pub open spec fn shows_player(view: PlayerView, p: PlayerModel) -> bool {
    &&& view.face_up_cards@ == p.pile
    &&& view.hand@ == p.hand
    &&& view.num_points == p.points
    &&& view.num_puddings == p.puddings
    &&& view.selected_cards@ == p.selection
}

/// Whether `view` shows the seat `p` as the other players see it.
pub open spec fn shows_opponent(view: OpponentView, p: PlayerModel) -> bool {
    &&& view.face_up_cards@ == p.pile
    &&& view.id == p.id
    &&& view.num_cards == p.hand.len()
    &&& view.num_points == p.points
    &&& view.num_puddings == p.puddings
    &&& view.ready == p.ready()
}

/// What a game is, as plain mathematical values.
pub struct GameModel {
    pub round: nat,
    pub hands: Seq<Map<usize, Card>>,
    pub players: Seq<PlayerModel>,
    pub winner: Option<UserId>,
}

impl GameModel {
    /// The rounds that are still to be dealt.
    pub open spec fn rounds_left(self) -> nat {
        if self.round <= NUM_ROUNDS {
            (NUM_ROUNDS - self.round) as nat
        } else {
            0
        }
    }

    /// Two for each card of a deck, for each round that is still to be dealt.
    pub open spec fn still_to_come(self) -> nat {
        if self.rounds_left() == 0 {
            0
        } else if self.rounds_left() == 1 {
            (2 * DECK_SIZE) as nat
        } else {
            (4 * DECK_SIZE) as nat
        }
    }

    /// Whether the user `id` plays in the game.
    pub open spec fn has_player(self, id: UserId) -> bool {
        exists|i: int| 0 <= i < self.players.len() && (#[trigger] self.players[i]).id == id
    }

    /// The first place where the user `id` sits, if the user plays.
    pub open spec fn seat(self, id: UserId) -> int {
        choose|i: int| is_seat(self.players, id, i)
    }

    /// The game after the user `id` selected `cards`.
    pub open spec fn selected(self, id: UserId, cards: Seq<usize>) -> GameModel {
        GameModel {
            players: self.players.update(
                self.seat(id),
                self.players[self.seat(id)].with_selection(cards),
            ),
            ..self
        }
    }

    /// Whether every player is ready, so that the turn can end.
    pub open spec fn ready(self) -> bool {
        forall|i: int| 0 <= i < self.players.len() ==> (#[trigger] self.players[i]).ready()
    }

    /// Whether every player's hand is empty, so that the round is over.
    pub open spec fn done(self) -> bool {
        forall|i: int| 0 <= i < self.players.len() ==> (#[trigger] self.players[i]).done()
    }

    /// Whether the game is in order.
    ///
    /// Two to five players with distinct identifiers play, each in order. The
    /// round is one of 1 to 3, or 4 once the game is over, and then all hands
    /// are empty. No winner is recorded while a round is played. Enough hands
    /// are left for the rounds to come. The rest
    /// bounds the numbers of the game by the size of the deck: no hand holds
    /// more cards than the deck; a pile and a hand together hold no more
    /// either; the puddings that a player has counted, with two for each card
    /// that may still be played, come to no more than two for each card of
    /// three decks; and no player has more points than the rounds played can
    /// have brought.
    pub open spec fn wf(self) -> bool {
        let n = self.players.len();
        &&& MIN_GAME_SIZE <= n <= MAX_GAME_SIZE
        &&& forall|i: int, j: int|
            0 <= i < j < n ==> (#[trigger] self.players[i]).id != (#[trigger] self.players[j]).id
        &&& 1 <= self.round <= NUM_ROUNDS + 1
        &&& self.hands.len() >= n * self.rounds_left()
        &&& forall|k: int|
            0 <= k < self.hands.len() ==> (#[trigger] self.hands[k]).dom().finite()
                && self.hands[k].len() <= DECK_SIZE
        &&& forall|i: int| 0 <= i < n ==> (#[trigger] self.players[i]).wf()
        &&& forall|i: int, j: int|
            0 <= i < n && 0 <= j < n ==> (#[trigger] self.players[i]).pile.len() + (
            #[trigger] self.players[j]).hand.len() <= DECK_SIZE
        &&& forall|i: int, j: int|
            0 <= i < n && 0 <= j < n ==> (#[trigger] self.players[i]).puddings + 2 * (
            #[trigger] self.players[j]).hand.len() + self.still_to_come() <= 6
                * DECK_SIZE
        &&& forall|i: int|
            0 <= i < n ==> (#[trigger] self.players[i]).points <= (self.round - 1) * round_cap()
        &&& self.round > NUM_ROUNDS ==> self.done()
        &&& self.round <= NUM_ROUNDS ==> self.winner is None
    }

    /// The game after the round was settled. The round is scored and counted.
    /// After the last round the winner is recorded; before, every player gets
    /// the next hand from the end of the hands that were dealt in advance.
    pub open spec fn round_ended(self) -> GameModel {
        let n = self.players.len();
        if self.round + 1 > NUM_ROUNDS {
            GameModel {
                round: self.round + 1,
                hands: self.hands,
                players: scored(self.players),
                winner: winner_of(scored(self.players)),
            }
        } else {
            GameModel {
                round: self.round + 1,
                hands: self.hands.take(self.hands.len() - n),
                players: dealt(scored(self.players), self.hands),
                winner: self.winner,
            }
        }
    }

    /// The game after every player resolved the selection.
    pub open spec fn stepped(self) -> GameModel {
        GameModel { players: all_stepped(self.players), ..self }
    }

    /// The game after `end_turn`. Unless every player is ready, nothing
    /// happens. Else every player resolves the selection. If all hands are
    /// empty then, the round is settled; if not, the hands go round.
    pub open spec fn turn_ended(self) -> GameModel {
        if !self.ready() {
            self
        } else if self.stepped().done() {
            self.stepped().round_ended()
        } else {
            GameModel { players: rotated(self.stepped().players), ..self.stepped() }
        }
    }

    /// Whether `events` are what settling the round reports: the round's
    /// number and points, and after the last round the winner.
    pub open spec fn round_reported(self, events: Seq<GameEvent>) -> bool {
        &&& events.len() == if self.round + 1 > NUM_ROUNDS && self.players.len() > 0 {
            2nat
        } else {
            1nat
        }
        &&& events[0] matches GameEvent::RoundOver(r) && r.round == self.round && r.points@
            == round_scores(self.players)
        &&& events.len() == 2 ==> Some(events[1]->GameOver_0) == winner_of(scored(self.players))
            && events[1] is GameOver
    }

    /// Whether `events` are what `end_turn` reports: nothing unless every
    /// player is ready; else that the turn is over, and what settling the
    /// round reports where the round is over too.
    pub open spec fn turn_reported(self, events: Seq<GameEvent>) -> bool {
        if !self.ready() {
            events.len() == 0
        } else {
            &&& events.len() >= 1
            &&& events[0] == GameEvent::TurnOver
            &&& if self.stepped().done() {
                self.stepped().round_reported(events.skip(1))
            } else {
                events.len() == 1
            }
        }
    }
}

/// With distinct identifiers, every player's pile is found under the
/// player's identifier, and nothing else is there.
pub proof fn lemma_piles_by_id(players: Seq<PlayerModel>)
    requires
        forall|i: int, j: int|
            0 <= i < j < players.len() ==> (#[trigger] players[i]).id != (#[trigger] players[j]).id,
    ensures
        piles_by_id(players).dom().finite(),
        forall|i: int|
            0 <= i < players.len() ==> piles_by_id(players).contains_key(
                (#[trigger] players[i]).id.0,
            ) && piles_by_id(players)[players[i].id.0] == players[i].pile,
        forall|id: i64| #[trigger]
            piles_by_id(players).contains_key(id) ==> exists|i: int|
                0 <= i < players.len() && (#[trigger] players[i]).id.0 == id,
    decreases players.len(),
{
    if players.len() > 0 {
        let rest = players.drop_last();
        lemma_piles_by_id(rest);
        assert forall|i: int| 0 <= i < players.len() implies piles_by_id(players).contains_key(
            (#[trigger] players[i]).id.0,
        ) && piles_by_id(players)[players[i].id.0] == players[i].pile by {
            if i < players.len() - 1 {
                assert(rest[i].id != players[players.len() - 1].id);
            }
        }
    }
}

/// With distinct identifiers, a round brings a player no more than sixteen
/// points for each entry of the pile, fifteen more, and the maki points of
/// the first place.
pub proof fn lemma_round_points_bound(players: Seq<PlayerModel>, i: int)
    requires
        0 <= i < players.len(),
        forall|i: int, j: int|
            0 <= i < j < players.len() ==> (#[trigger] players[i]).id != (#[trigger] players[j]).id,
    ensures
        round_points(piles_by_id(players), players[i].id.0) <= 16 * players[i].pile.len() + 15
            + FIRST_PLACE_POINTS,
{
    lemma_piles_by_id(players);
    lemma_pile_bounds(players[i].pile);
    let piles = piles_by_id(players);
    assert(rolls_of(piles).dom() =~= piles.dom());
    lemma_maki_points_bound(rolls_of(piles), players[i].id.0);
}

/// Where there are players, one of them wins.
pub proof fn lemma_winner_exists(players: Seq<PlayerModel>)
    requires
        players.len() > 0,
    ensures
        is_winner(players, choose|w: int| is_winner(players, w)),
{
    lemma_winner_among(players, players.len() as int);
    assert(players.take(players.len() as int) == players);
}

proof fn lemma_winner_among(players: Seq<PlayerModel>, n: int)
    requires
        0 < n <= players.len(),
    ensures
        exists|w: int| is_winner(players.take(n), w),
    decreases n,
{
    let front = players.take(n);
    if n == 1 {
        assert(is_winner(front, 0));
    } else {
        lemma_winner_among(players, n - 1);
        let before = players.take(n - 1);
        let w = choose|w: int| is_winner(before, w);
        assert forall|j: int| 0 <= j < n - 1 implies front[j] == before[j] by {}
        if outranks(front[n - 1], front[w]) {
            assert(is_winner(front, n - 1));
        } else {
            assert(is_winner(front, w));
        }
    }
}

/// A game in order whose players are all ready is in its first three
/// rounds, and is still in order after every player resolved the selection;
/// nobody has a selection then.
pub proof fn lemma_stepped_wf(g: GameModel)
    requires
        g.wf(),
        g.ready(),
    ensures
        g.round <= NUM_ROUNDS,
        g.stepped().wf(),
        forall|i: int| 0 <= i < g.players.len() ==> !(#[trigger] g.stepped().players[i]).ready(),
{
    let s = g.stepped();
    let n = g.players.len() as int;
    assert(g.players[0].hand.contains_key(g.players[0].selection[0]));
    assert forall|i: int| 0 <= i < n implies {
        &&& (#[trigger] s.players[i]).wf()
        &&& s.players[i].id == g.players[i].id
        &&& s.players[i].points == g.players[i].points
        &&& s.players[i].selection.len() == 0
        &&& s.players[i].hand.len() + 1 <= g.players[i].hand.len()
        &&& s.players[i].pile.len() <= g.players[i].pile.len() + 1
        &&& s.players[i].puddings <= g.players[i].puddings + 2
    } by {
        lemma_stepped(g.players[i]);
    }
}

/// Passing the hands on keeps a game in order where nobody has a selection.
pub proof fn lemma_rotated_wf(g: GameModel)
    requires
        g.wf(),
        g.round <= NUM_ROUNDS,
        forall|i: int| 0 <= i < g.players.len() ==> !(#[trigger] g.players[i]).ready(),
    ensures
        (GameModel { players: rotated(g.players), ..g }).wf(),
{
}

/// Settling the round keeps a game in order where all hands are empty.
pub proof fn lemma_round_ended_wf(g: GameModel)
    requires
        g.wf(),
        g.round <= NUM_ROUNDS,
        g.done(),
    ensures
        g.round_ended().wf(),
{
    let e = g.round_ended();
    let n = g.players.len() as int;
    let sc = scored(g.players);
    assert forall|i: int| 0 <= i < n implies {
        &&& (#[trigger] sc[i]).points <= g.round * round_cap()
        &&& sc[i].selection.len() == 0
        &&& sc[i].hand == g.players[i].hand
        &&& sc[i].hand.len() == 0
        &&& sc[i].puddings + g.still_to_come() <= 6 * DECK_SIZE
    } by {
        lemma_round_points_bound(g.players, i);
        assert((g.round - 1) * round_cap() + round_cap() == g.round * round_cap())
            by (nonlinear_arith);
        if g.players[i].selection.len() > 0 {
            assert(g.players[i].hand.contains_key(g.players[i].selection[0]));
        }
    }
    if g.round + 1 > NUM_ROUNDS {
    } else {
        assert(n * g.rounds_left() == n * e.rounds_left() + n) by (nonlinear_arith)
            requires
                g.rounds_left() == e.rounds_left() + 1,
        ;
    }
}

/// The winner has the most points, and the most puddings of those who have
/// the most points.
pub proof fn lemma_winner_is_best(players: Seq<PlayerModel>, w: int)
    requires
        is_winner(players, w),
    ensures
        forall|j: int| 0 <= j < players.len() ==> (#[trigger] players[j]).points <= players[w].points,
        forall|j: int|
            0 <= j < players.len() && (#[trigger] players[j]).points == players[w].points
                ==> players[j].puddings <= players[w].puddings,
{
}

/// A player who has more points than every other player wins; so does one
/// who has more puddings than every other player with as many points, where
/// nobody has more points.
pub proof fn lemma_best_wins(players: Seq<PlayerModel>, w: int)
    requires
        0 <= w < players.len(),
        forall|j: int|
            0 <= j < players.len() && j != w ==> outranks(players[w], #[trigger] players[j]),
    ensures
        winner_of(players) == Some(players[w].id),
{
    assert(is_winner(players, w));
    lemma_winner_unique(players, w);
}

/// Settling the third round reports the round and then the winner: the
/// player who wins by the points and puddings after the round was scored.
/// The game records the same winner.
pub proof fn lemma_last_round_names_winner(g: GameModel, events: Seq<GameEvent>)
    requires
        g.players.len() > 0,
        g.round == NUM_ROUNDS,
        g.round_reported(events),
    ensures
        events.len() == 2,
        events[0] is RoundOver,
        exists|w: int|
            is_winner(scored(g.players), w) && events[1] == GameEvent::GameOver(
                scored(g.players)[w].id,
            ) && g.round_ended().winner == Some(scored(g.players)[w].id),
{
    lemma_winner_exists(scored(g.players));
}

/// A user who plays has a first place.
pub proof fn lemma_seat(g: GameModel, id: UserId)
    requires
        g.has_player(id),
    ensures
        is_seat(g.players, id, g.seat(id)),
{
    let i = choose|i: int| 0 <= i < g.players.len() && (#[trigger] g.players[i]).id == id;
    lemma_seat_before(g.players, id, i);
}

proof fn lemma_seat_before(players: Seq<PlayerModel>, id: UserId, i: int)
    requires
        0 <= i < players.len(),
        players[i].id == id,
    ensures
        exists|k: int| is_seat(players, id, k),
    decreases i,
{
    if exists|j: int| 0 <= j < i && (#[trigger] players[j]).id == id {
        let j = choose|j: int| 0 <= j < i && (#[trigger] players[j]).id == id;
        lemma_seat_before(players, id, j);
    } else {
        assert(is_seat(players, id, i));
    }
}

/// Only one place is the first place of a user.
pub proof fn lemma_seat_unique(players: Seq<PlayerModel>, id: UserId, i: int)
    requires
        is_seat(players, id, i),
    ensures
        (choose|k: int| is_seat(players, id, k)) == i,
{
}

/// The selections of two users do not depend on their order: whoever selects
/// first, the game is the same afterwards.
pub proof fn lemma_selections_commute(
    g: GameModel,
    a: UserId,
    cards_a: Seq<usize>,
    b: UserId,
    cards_b: Seq<usize>,
)
    requires
        g.has_player(a),
        g.has_player(b),
        a != b,
    ensures
        g.selected(a, cards_a).selected(b, cards_b) == g.selected(b, cards_b).selected(a, cards_a),
{
    lemma_seat(g, a);
    lemma_seat(g, b);
    let at_a = g.seat(a);
    let at_b = g.seat(b);
    let first_a = g.selected(a, cards_a);
    let first_b = g.selected(b, cards_b);
    assert(is_seat(first_a.players, b, at_b));
    assert(is_seat(first_b.players, a, at_a));
    lemma_seat_unique(first_a.players, b, at_b);
    lemma_seat_unique(first_b.players, a, at_a);
    assert(first_a.selected(b, cards_b).players =~= first_b.selected(a, cards_a).players);
}

/// A selection that is accepted and names no card twice keeps a game in
/// order.
pub proof fn lemma_selected_wf(g: GameModel, id: UserId, cards: Seq<usize>)
    requires
        g.wf(),
        g.has_player(id),
        g.players[g.seat(id)].select_error(cards) is None,
        cards.no_duplicates(),
    ensures
        g.selected(id, cards).wf(),
{
    lemma_seat(g, id);
    let s = g.selected(id, cards);
    let n = g.players.len() as int;
    assert forall|i: int, j: int| 0 <= i < n && 0 <= j < n implies (#[trigger] s.players[i]).puddings
        + 2 * (#[trigger] s.players[j]).hand.len() + s.still_to_come() <= 6 * DECK_SIZE by {
        assert(g.players[i].puddings + 2 * g.players[j].hand.len() + g.still_to_come() <= 6
            * DECK_SIZE);
    }
}

/// The turn that ends a round before the last: where every player is ready
/// and all hands are empty once the selections are resolved, the round is
/// counted, every player holds the next hand from the end of the hands dealt
/// in advance, which leave those hands, every pile and selection is empty,
/// and no winner is recorded.
pub proof fn lemma_turn_ends_round(g: GameModel)
    requires
        g.wf(),
        g.ready(),
        g.stepped().done(),
        g.round < NUM_ROUNDS,
    ensures
        g.turn_ended().round == g.round + 1,
        g.turn_ended().players.len() == g.players.len(),
        g.hands.len() >= g.players.len(),
        g.turn_ended().hands == g.hands.take(g.hands.len() - g.players.len()),
        forall|i: int|
            0 <= i < g.players.len() ==> {
                let p = #[trigger] g.turn_ended().players[i];
                &&& p.hand == g.hands[g.hands.len() - 1 - i]
                &&& p.pile.len() == 0
                &&& p.selection.len() == 0
                &&& p.id == g.players[i].id
            },
        g.turn_ended().winner is None,
{
    lemma_stepped_wf(g);
    let n = g.players.len() as int;
    let left = g.rounds_left() as int;
    assert(n * left >= n) by (nonlinear_arith)
        requires
            left >= 1,
            n >= 0,
    ;
    assert forall|i: int| 0 <= i < n implies {
        let p = #[trigger] g.turn_ended().players[i];
        &&& p.hand == g.hands[g.hands.len() - 1 - i]
        &&& p.pile.len() == 0
        &&& p.selection.len() == 0
        &&& p.id == g.players[i].id
    } by {
        assert(g.players[i].wf());
        lemma_stepped(g.players[i]);
        assert(!g.stepped().players[i].ready());
    }
}

/// A game in order is in order after `end_turn`.
pub proof fn lemma_turn_ended_wf(g: GameModel)
    requires
        g.wf(),
    ensures
        g.turn_ended().wf(),
{
    if g.ready() {
        lemma_stepped_wf(g);
        if g.stepped().done() {
            lemma_round_ended_wf(g.stepped());
        } else {
            lemma_rotated_wf(g.stepped());
        }
    }
}

/// The players of a game as plain mathematical values.
pub open spec fn models(players: Seq<Player>) -> Seq<PlayerModel> {
    players.map_values(|p: Player| p@)
}

/// The hands as maps.
pub open spec fn hand_maps(hands: Seq<Hand>) -> Seq<Map<usize, Card>> {
    hands.map_values(|h: Hand| h@)
}

/// The players after each of them resolved the selection.
pub open spec fn all_stepped(players: Seq<PlayerModel>) -> Seq<PlayerModel> {
    players.map_values(|p: PlayerModel| p.stepped())
}

/// The players after the hands went round by one place: each player holds
/// the hand of the player before, the first that of the last.
pub open spec fn rotated(players: Seq<PlayerModel>) -> Seq<PlayerModel> {
    Seq::new(
        players.len(),
        |i: int|
            PlayerModel {
                hand: players[(i + players.len() - 1) % (players.len() as int)].hand,
                ..players[i]
            },
    )
}

/// The place before `j` at a round table of `n` places.
pub proof fn lemma_place_before(j: int, n: int)
    requires
        0 <= j < n,
    ensures
        (j + n - 1) % n == if j == 0 {
            n - 1
        } else {
            j - 1
        },
{
    if j == 0 {
        vstd::arithmetic::div_mod::lemma_small_mod((n - 1) as nat, n as nat);
    } else {
        vstd::arithmetic::div_mod::lemma_mod_add_multiples_vanish(j - 1, n);
        vstd::arithmetic::div_mod::lemma_small_mod((j - 1) as nat, n as nat);
    }
}

/// Resolves every player's selection.
fn step_all(players: &mut Vec<Player>)
    requires
        forall|i: int|
            0 <= i < old(players)@.len() ==> (#[trigger] old(players)@[i])@.can_step()
                && old(players)@[i]@.puddings + crate::player::puddings_in(
                old(players)@[i]@.played(),
            ) <= usize::MAX,
    ensures
        final(players)@.len() == old(players)@.len(),
        models(final(players)@) == all_stepped(models(old(players)@)),
{
    let mut i: usize = 0;
    while i < players.len()
        invariant
            i <= players.len(),
            players@.len() == old(players)@.len(),
            forall|j: int| 0 <= j < i ==> (#[trigger] players@[j])@ == old(players)@[j]@.stepped(),
            forall|j: int| i <= j < players@.len() ==> #[trigger] players@[j] == old(players)@[j],
            forall|i: int|
                0 <= i < old(players)@.len() ==> (#[trigger] old(players)@[i])@.can_step()
                    && old(players)@[i]@.puddings + crate::player::puddings_in(
                    old(players)@[i]@.played(),
                ) <= usize::MAX,
        decreases players.len() - i,
    {
        players[i].step();
        i += 1;
    }
}

/// Whether every player's hand is empty.
fn all_done(players: &Vec<Player>) -> (done: bool)
    ensures
        done <==> forall|i: int| 0 <= i < players@.len() ==> (#[trigger] players@[i])@.done(),
{
    let mut i: usize = 0;
    while i < players.len()
        invariant
            i <= players.len(),
            forall|j: int| 0 <= j < i ==> (#[trigger] players@[j])@.done(),
        decreases players.len() - i,
    {
        if !players[i].is_done() {
            return false;
        }
        i += 1;
    }
    true
}

/// Passes every hand on to the next player.
fn rotate_hands(players: &mut Vec<Player>)
    requires
        old(players)@.len() > 0,
    ensures
        final(players)@.len() == old(players)@.len(),
        models(final(players)@) == rotated(models(old(players)@)),
{
    let num_players = players.len();
    let mut hands: VecDeque<Hand> = VecDeque::with_capacity(num_players);
    let mut i: usize = 0;
    while i < num_players
        invariant
            i <= num_players,
            num_players == players@.len() == old(players)@.len(),
            hands@.len() == i,
            forall|j: int| 0 <= j < i ==> (#[trigger] hands@[j])@ == old(players)@[j]@.hand,
            forall|j: int|
                0 <= j < i ==> (#[trigger] players@[j])@ == (PlayerModel {
                    hand: Map::empty(),
                    ..old(players)@[j]@
                }),
            forall|j: int| i <= j < num_players ==> #[trigger] players@[j] == old(players)@[j],
        decreases num_players - i,
    {
        let hand = players[i].take_hand();
        hands.push_back(hand);
        i += 1;
    }
    let last = hands.pop_back().unwrap();
    hands.push_front(last);
    let ghost turned = hands@;
    proof {
        let n = num_players as int;
        assert forall|j: int| 0 <= j < n implies (#[trigger] turned[j])@ == old(players)@[(j + n
            - 1) % n]@.hand by {
            lemma_place_before(j, n);
        }
    }
    let mut i: usize = 0;
    while i < num_players
        invariant
            i <= num_players,
            num_players == players@.len() == old(players)@.len(),
            turned.len() == num_players,
            hands@ == turned.skip(i as int),
            forall|j: int|
                0 <= j < num_players ==> (#[trigger] turned[j])@ == old(players)@[(j + num_players
                    - 1) % (num_players as int)]@.hand,
            forall|j: int|
                0 <= j < i ==> (#[trigger] players@[j])@ == (PlayerModel {
                    hand: turned[j]@,
                    ..old(players)@[j]@
                }),
            forall|j: int|
                i <= j < num_players ==> (#[trigger] players@[j])@ == (PlayerModel {
                    hand: Map::empty(),
                    ..old(players)@[j]@
                }),
        decreases num_players - i,
    {
        let hand = hands.pop_front().unwrap();
        players[i].give_hand(hand);
        i += 1;
    }
}

/// Whether `a` stands above `b` at the end of the game.
fn stands_above(a: &Player, b: &Player) -> (above: bool)
    ensures
        above == outranks(a@, b@),
{
    a.num_points() > b.num_points() || (a.num_points() == b.num_points() && a.num_puddings()
        > b.num_puddings())
}

/// Only one player wins.
pub proof fn lemma_winner_unique(players: Seq<PlayerModel>, w: int)
    requires
        is_winner(players, w),
    ensures
        winner_of(players) == Some(players[w].id),
{
}

/// The place of the winner among `players`.
fn find_winner(players: &Vec<Player>) -> (best: usize)
    requires
        players@.len() > 0,
    ensures
        is_winner(models(players@), best as int),
{
    let mut best: usize = 0;
    let mut i: usize = 1;
    let ghost all = models(players@);
    while i < players.len()
        invariant
            1 <= i <= players.len(),
            all == models(players@),
            is_winner(all.take(i as int), best as int),
        decreases players.len() - i,
    {
        let ghost front = all.take(i as int);
        let ghost next = all.take(i + 1);
        let above = stands_above(&players[i], &players[best]);
        if above {
            best = i;
        }
        proof {
            assert forall|j: int| 0 <= j < i implies next[j] == front[j] by {}
            if above {
                assert(is_winner(next, i as int));
            } else {
                assert(is_winner(next, best as int));
            }
        }
        i += 1;
    }
    assert(all.take(players@.len() as int) == all);
    best
}

/// Takes the face-up pile of every player and files it under the number of
/// the player's identifier.
fn collect_piles(players: &mut Vec<Player>) -> (round: HashMap<i64, Vec<FaceUpCard>>)
    ensures
        crate::scoring::piles_of(round@) == piles_by_id(models(old(players)@)),
        final(players)@.len() == old(players)@.len(),
        forall|i: int|
            0 <= i < old(players)@.len() ==> (#[trigger] final(players)@[i])@ == (PlayerModel {
                pile: Seq::empty(),
                ..old(players)@[i]@
            }),
{
    let mut round: HashMap<i64, Vec<FaceUpCard>> = HashMap::new();
    let ghost all = models(old(players)@);
    let mut i: usize = 0;
    while i < players.len()
        invariant
            i <= players.len(),
            players@.len() == old(players)@.len(),
            all == models(old(players)@),
            crate::scoring::piles_of(round@) == piles_by_id(all.take(i as int)),
            forall|j: int|
                0 <= j < i ==> (#[trigger] players@[j])@ == (PlayerModel {
                    pile: Seq::empty(),
                    ..old(players)@[j]@
                }),
            forall|j: int| i <= j < players@.len() ==> #[trigger] players@[j] == old(players)@[j],
        decreases players.len() - i,
    {
        let id = players[i].id();
        let pile = players[i].take_face_up_cards();
        let ghost before = round@;
        round.insert(id.0, pile);
        proof {
            assert(all.take(i + 1).drop_last() == all.take(i as int));
            assert(crate::scoring::piles_of(round@) =~= crate::scoring::piles_of(before).insert(
                id.0,
                pile@,
            ));
        }
        i += 1;
    }
    assert(all.take(players@.len() as int) == all);
    round
}

/// Adds to every player's points what `scores` holds under the number of the
/// player's identifier.
fn award_points(players: &mut Vec<Player>, scores: &HashMap<i64, usize>)
    requires
        forall|i: int|
            0 <= i < old(players)@.len() ==> scores@.contains_key(
                (#[trigger] old(players)@[i])@.id.0,
            ) && old(players)@[i]@.points + scores@[old(players)@[i]@.id.0] <= usize::MAX,
    ensures
        final(players)@.len() == old(players)@.len(),
        forall|i: int|
            0 <= i < old(players)@.len() ==> (#[trigger] final(players)@[i])@ == (PlayerModel {
                points: old(players)@[i]@.points + scores@[old(players)@[i]@.id.0] as nat,
                ..old(players)@[i]@
            }),
{
    let mut i: usize = 0;
    while i < players.len()
        invariant
            i <= players.len(),
            players@.len() == old(players)@.len(),
            forall|i: int|
                0 <= i < old(players)@.len() ==> scores@.contains_key(
                    (#[trigger] old(players)@[i])@.id.0,
                ) && old(players)@[i]@.points + scores@[old(players)@[i]@.id.0] <= usize::MAX,
            forall|j: int|
                0 <= j < i ==> (#[trigger] players@[j])@ == (PlayerModel {
                    points: old(players)@[j]@.points + scores@[old(players)@[j]@.id.0] as nat,
                    ..old(players)@[j]@
                }),
            forall|j: int| i <= j < players@.len() ==> #[trigger] players@[j] == old(players)@[j],
        decreases players.len() - i,
    {
        let id = players[i].id();
        if let Some(points) = scores.get(&id.0) {
            players[i].add_points(*points);
        }
        i += 1;
    }
}

/// Gives every player a hand from the end of `hands`.
fn deal_hands(players: &mut Vec<Player>, hands: &mut Vec<Hand>)
    requires
        old(hands)@.len() >= old(players)@.len(),
    ensures
        final(players)@.len() == old(players)@.len(),
        models(final(players)@) == dealt(models(old(players)@), hand_maps(old(hands)@)),
        final(hands)@ == old(hands)@.take(old(hands)@.len() - old(players)@.len()),
{
    let mut i: usize = 0;
    while i < players.len()
        invariant
            i <= players.len(),
            players@.len() == old(players)@.len(),
            old(hands)@.len() >= old(players)@.len(),
            hands@ == old(hands)@.take(old(hands)@.len() - i),
            forall|j: int|
                0 <= j < i ==> (#[trigger] players@[j])@ == (PlayerModel {
                    hand: old(hands)@[old(hands)@.len() - 1 - j]@,
                    ..old(players)@[j]@
                }),
            forall|j: int| i <= j < players@.len() ==> #[trigger] players@[j] == old(players)@[j],
        decreases players.len() - i,
    {
        let hand = hands.pop().unwrap();
        players[i].give_hand(hand);
        i += 1;
    }
}

/// Whether no two players carry the same identifier.
fn distinct_ids(players: &Vec<Player>) -> (distinct: bool)
    ensures
        distinct <==> forall|i: int, j: int|
            0 <= i < j < players@.len() ==> (#[trigger] models(players@)[i]).id != (
            #[trigger] models(players@)[j]).id,
{
    let ghost ms = models(players@);
    let mut j: usize = 0;
    while j < players.len()
        invariant
            j <= players.len(),
            ms == models(players@),
            forall|a: int, b: int|
                0 <= a < b < j ==> (#[trigger] ms[a]).id != (#[trigger] ms[b]).id,
        decreases players.len() - j,
    {
        let mut i: usize = 0;
        while i < j
            invariant
                i <= j < players.len(),
                ms == models(players@),
                forall|a: int| 0 <= a < i ==> (#[trigger] ms[a]).id != ms[j as int].id,
            decreases j - i,
        {
            if players[i].id() == players[j].id() {
                assert(ms[i as int].id == ms[j as int].id);
                return false;
            }
            i += 1;
        }
        j += 1;
    }
    true
}

/// Whether every player is in order, with numbers that the deck allows: no
/// more cards in the hand or on the pile than the deck has, no more puddings
/// than two for each card of three decks, and no more than `most_points`
/// points.
fn players_fit(players: &Vec<Player>, most_points: usize) -> (fit: bool)
    ensures
        fit <==> forall|i: int|
            0 <= i < players@.len() ==> {
                let p = #[trigger] models(players@)[i];
                &&& p.wf()
                &&& p.hand.len() <= DECK_SIZE
                &&& p.pile.len() <= DECK_SIZE
                &&& p.puddings <= 6 * DECK_SIZE
                &&& p.points <= most_points
            },
{
    let ghost ms = models(players@);
    let mut i: usize = 0;
    while i < players.len()
        invariant
            i <= players.len(),
            ms == models(players@),
            forall|a: int|
                0 <= a < i ==> {
                    let p = #[trigger] ms[a];
                    &&& p.wf()
                    &&& p.hand.len() <= DECK_SIZE
                    &&& p.pile.len() <= DECK_SIZE
                    &&& p.puddings <= 6 * DECK_SIZE
                    &&& p.points <= most_points
                },
        decreases players.len() - i,
    {
        let player = &players[i];
        assert(player@ == ms[i as int]);
        if !player.is_valid() || player.hand().len() > DECK_SIZE || player.face_up_cards().len()
            > DECK_SIZE || player.num_puddings() > 6 * DECK_SIZE || player.num_points()
            > most_points {
            return false;
        }
        i += 1;
    }
    true
}

/// Whether the piles, hands and puddings of any two players together are
/// what the deck allows: see [`GameModel::wf`].
fn pairs_fit(players: &Vec<Player>, still_to_come: usize) -> (fit: bool)
    requires
        still_to_come <= 4 * DECK_SIZE,
        forall|i: int|
            0 <= i < players@.len() ==> {
                let p = #[trigger] models(players@)[i];
                &&& p.hand.len() <= DECK_SIZE
                &&& p.pile.len() <= DECK_SIZE
                &&& p.puddings <= 6 * DECK_SIZE
            },
    ensures
        fit <==> forall|i: int, j: int|
            0 <= i < players@.len() && 0 <= j < players@.len() ==> {
                let p = #[trigger] models(players@)[i];
                let q = #[trigger] models(players@)[j];
                &&& p.pile.len() + q.hand.len() <= DECK_SIZE
                &&& p.puddings + 2 * q.hand.len() + still_to_come <= 6 * DECK_SIZE
            },
{
    let ghost ms = models(players@);
    let mut i: usize = 0;
    while i < players.len()
        invariant
            i <= players.len(),
            ms == models(players@),
            still_to_come <= 4 * DECK_SIZE,
            forall|a: int|
                0 <= a < players@.len() ==> {
                    let p = #[trigger] ms[a];
                    &&& p.hand.len() <= DECK_SIZE
                    &&& p.pile.len() <= DECK_SIZE
                    &&& p.puddings <= 6 * DECK_SIZE
                },
            forall|a: int, b: int|
                0 <= a < i && 0 <= b < players@.len() ==> {
                    let p = #[trigger] ms[a];
                    let q = #[trigger] ms[b];
                    &&& p.pile.len() + q.hand.len() <= DECK_SIZE
                    &&& p.puddings + 2 * q.hand.len() + still_to_come <= 6 * DECK_SIZE
                },
        decreases players.len() - i,
    {
        let mut j: usize = 0;
        while j < players.len()
            invariant
                i < players.len(),
                j <= players.len(),
                ms == models(players@),
                still_to_come <= 4 * DECK_SIZE,
                forall|a: int|
                    0 <= a < players@.len() ==> {
                        let p = #[trigger] ms[a];
                        &&& p.hand.len() <= DECK_SIZE
                        &&& p.pile.len() <= DECK_SIZE
                        &&& p.puddings <= 6 * DECK_SIZE
                    },
                forall|b: int|
                    0 <= b < j ==> {
                        let q = #[trigger] ms[b];
                        &&& ms[i as int].pile.len() + q.hand.len() <= DECK_SIZE
                        &&& ms[i as int].puddings + 2 * q.hand.len() + still_to_come <= 6
                            * DECK_SIZE
                    },
            decreases players.len() - j,
        {
            let pile = players[i].face_up_cards().len();
            let puddings = players[i].num_puddings();
            let hand = players[j].hand().len();
            assert(players@[i as int]@ == ms[i as int] && players@[j as int]@ == ms[j as int]);
            if pile + hand > DECK_SIZE || puddings + 2 * hand + still_to_come > 6 * DECK_SIZE {
                return false;
            }
            j += 1;
        }
        i += 1;
    }
    true
}

/// Whether no hand holds more cards than the deck has.
fn hands_fit(hands: &Vec<Hand>) -> (fit: bool)
    ensures
        fit <==> forall|k: int|
            0 <= k < hands@.len() ==> (#[trigger] hand_maps(hands@)[k]).dom().finite() && hand_maps(
                hands@,
            )[k].len() <= DECK_SIZE,
{
    let mut k: usize = 0;
    while k < hands.len()
        invariant
            k <= hands.len(),
            forall|a: int|
                0 <= a < k ==> (#[trigger] hand_maps(hands@)[a]).dom().finite() && hand_maps(
                    hands@,
                )[a].len() <= DECK_SIZE,
        decreases hands.len() - k,
    {
        assert(hand_maps(hands@)[k as int] == hands@[k as int]@);
        if hands[k].len() > DECK_SIZE {
            return false;
        }
        k += 1;
    }
    true
}

/// One game.
#[derive(Debug, PartialEq, Eq)]
pub struct Game {
    round: usize,
    hands: Vec<Hand>,
    players: Vec<Player>,
    winner: Option<UserId>,
}

impl View for Game {
    type V = GameModel;

    closed spec fn view(&self) -> GameModel {
        GameModel {
            round: self.round as nat,
            hands: hand_maps(self.hands@),
            players: models(self.players@),
            winner: self.winner,
        }
    }
}

impl Game {
    /// A game put together from stored parts. Whether it is in order is for
    /// [`Game::is_valid`] to say.
    pub fn from_parts(
        round: usize,
        hands: Vec<Hand>,
        players: Vec<Player>,
        winner: Option<UserId>,
    ) -> (game: Self)
        ensures
            game@ == (GameModel {
                round: round as nat,
                hands: hand_maps(hands@),
                players: models(players@),
                winner,
            }),
    {
        Self { round, hands, players, winner }
    }

    /// Whether the game is in order: see [`GameModel::wf`].
    pub fn is_valid(&self) -> (valid: bool)
        ensures
            valid == self@.wf(),
    {
        let n = self.players.len();
        if n < MIN_GAME_SIZE || n > MAX_GAME_SIZE {
            return false;
        }
        if self.round < 1 || self.round > NUM_ROUNDS + 1 {
            return false;
        }
        let rounds_left = if self.round <= NUM_ROUNDS {
            NUM_ROUNDS - self.round
        } else {
            0
        };
        let still_to_come = if rounds_left == 0 {
            0
        } else if rounds_left == 1 {
            2 * DECK_SIZE
        } else {
            4 * DECK_SIZE
        };
        assert(n * rounds_left <= 10) by (nonlinear_arith)
            requires
                n <= 5,
                rounds_left <= 2,
        ;
        if self.hands.len() < n * rounds_left {
            return false;
        }
        let cap: usize = 16 * DECK_SIZE + 15 + FIRST_PLACE_POINTS;
        let rounds_played = self.round - 1;
        assert(rounds_played * cap <= 3 * cap) by (nonlinear_arith)
            requires
                rounds_played <= 3,
        ;
        let most_points = rounds_played * cap;
        if !distinct_ids(&self.players) {
            return false;
        }
        if !hands_fit(&self.hands) {
            return false;
        }
        if !players_fit(&self.players, most_points) {
            proof {
                if self@.wf() {
                    assert forall|i: int| 0 <= i < self.players@.len() implies {
                        let p = #[trigger] models(self.players@)[i];
                        &&& p.wf()
                        &&& p.hand.len() <= DECK_SIZE
                        &&& p.pile.len() <= DECK_SIZE
                        &&& p.puddings <= 6 * DECK_SIZE
                        &&& p.points <= most_points
                    } by {
                        let p = self@.players[i];
                        assert(p.puddings + 2 * p.hand.len() + self@.still_to_come() <= 6
                            * DECK_SIZE);
                    }
                }
            }
            return false;
        }
        if !pairs_fit(&self.players, still_to_come) {
            return false;
        }
        if self.round <= NUM_ROUNDS && self.winner.is_some() {
            return false;
        }
        if self.round > NUM_ROUNDS && !all_done(&self.players) {
            assert(!self@.done()) by {
                if self@.done() {
                    assert forall|i: int| 0 <= i < self.players@.len() implies (
                    #[trigger] self.players@[i])@.done() by {
                        assert(self@.players[i].done());
                    }
                }
            }
            return false;
        }
        true
    }

    /// The round that is played, or one more than the last round once the
    /// game is over.
    pub fn round(&self) -> (round: usize)
        ensures
            round == self@.round,
    {
        self.round
    }

    /// The winner, once the game is over.
    pub fn winner(&self) -> (winner: Option<UserId>)
        ensures
            winner == self@.winner,
    {
        self.winner
    }

    /// The players in turn order.
    pub fn players(&self) -> (players: &Vec<Player>)
        ensures
            models(players@) == self@.players,
    {
        &self.players
    }

    /// The hands dealt in advance for the rounds to come.
    pub fn hands(&self) -> (hands: &Vec<Hand>)
        ensures
            hand_maps(hands@) == self@.hands,
    {
        &self.hands
    }

    /// What the user `user_id` sees of the game: the round and the winner,
    /// the own seat if the user plays, and the other seats in turn order.
    /// Should several players carry the identifier, the last of them is shown
    /// as the user's seat.
    pub fn into(self, user_id: UserId) -> (view: GameView)
        ensures
            view.round == self@.round,
            view.winner == self@.winner,
            match view.player {
                Some(own) => seats_of(self@.players, user_id, true).len() > 0 && shows_player(
                    own,
                    seats_of(self@.players, user_id, true).last(),
                ),
                None => seats_of(self@.players, user_id, true).len() == 0,
            },
            view.opponents@.len() == seats_of(self@.players, user_id, false).len(),
            forall|k: int|
                0 <= k < view.opponents@.len() ==> shows_opponent(
                    #[trigger] view.opponents@[k],
                    seats_of(self@.players, user_id, false)[k],
                ),
    {
        let mut player_view: Option<PlayerView> = None;
        let mut opponent_views: Vec<OpponentView> = Vec::with_capacity(self.players.len());
        let ghost seats = self@.players;
        let round = self.round;
        let winner = self.winner;
        for player in it: self.players
            invariant
                seats == models(it.seq()),
                match player_view {
                    Some(own) => seats_of(seats.take(it.index()), user_id, true).len() > 0
                        && shows_player(own, seats_of(seats.take(it.index()), user_id, true).last()),
                    None => seats_of(seats.take(it.index()), user_id, true).len() == 0,
                },
                opponent_views@.len() == seats_of(seats.take(it.index()), user_id, false).len(),
                forall|k: int|
                    0 <= k < opponent_views@.len() ==> shows_opponent(
                        #[trigger] opponent_views@[k],
                        seats_of(seats.take(it.index()), user_id, false)[k],
                    ),
        {
            proof {
                assert(seats.take(it.index() + 1).drop_last() == seats.take(it.index()));
            }
            if player.id() == user_id {
                player_view = Some(player.into_player_view());
            } else {
                opponent_views.push(player.into_opponent_view());
            }
        }
        assert(seats.take(seats.len() as int) == seats);
        GameView { round, player: player_view, opponents: opponent_views, winner }
    }

    /// The players' identifiers in turn order.
    pub fn user_ids(&self) -> (ids: Vec<UserId>)
        ensures
            ids@ == self@.players.map_values(|p: PlayerModel| p.id),
    {
        let mut ids: Vec<UserId> = Vec::new();
        let mut i: usize = 0;
        while i < self.players.len()
            invariant
                i <= self.players.len(),
                ids@.len() == i,
                forall|j: int| 0 <= j < i ==> ids@[j] == (#[trigger] self.players@[j])@.id,
            decreases self.players.len() - i,
        {
            ids.push(self.players[i].id());
            i += 1;
        }
        ids
    }

    /// Hands the selection `cards` to the player `user_id`, who stores or
    /// refuses it as [`Player::select_cards`] says. Nobody else is touched.
    pub fn select_cards(&mut self, user_id: UserId, cards: Vec<usize>) -> (result: Result<
        Vec<GameEvent>,
        SelectCardsError,
    >)
        requires
            old(self)@.has_player(user_id),
        ensures
            match result {
                Ok(events) => {
                    &&& old(self)@.players[old(self)@.seat(user_id)].select_error(cards@) is None
                    &&& final(self)@ == old(self)@.selected(user_id, cards@)
                    &&& events@ == if old(self)@.players[old(self)@.seat(user_id)].selection
                        == cards@ {
                        Seq::<GameEvent>::empty()
                    } else {
                        seq![GameEvent::CardsSelected(user_id)]
                    }
                },
                Err(e) => old(self)@.players[old(self)@.seat(user_id)].select_error(cards@) == Some(
                    e,
                ) && final(self)@ == old(self)@,
            },
            old(self)@.wf() && cards@.no_duplicates() ==> final(self)@.wf(),
    {
        proof {
            lemma_seat(self@, user_id);
        }
        let mut at: usize = 0;
        while self.players[at].id() != user_id
            invariant
                self == old(self),
                is_seat(self@.players, user_id, self@.seat(user_id)),
                at <= self@.seat(user_id),
                forall|j: int| 0 <= j < at ==> (#[trigger] self@.players[j]).id != user_id,
            decreases self.players@.len() - at,
        {
            assert(at < self@.seat(user_id) < self.players.len());
            at += 1;
        }
        assert(self@.players[at as int].id == user_id);
        let result = self.players[at].select_cards(cards);
        proof {
            if result is Ok {
                assert(self@.players =~= old(self)@.selected(user_id, cards@).players);
                if old(self)@.wf() && cards@.no_duplicates() {
                    lemma_selected_wf(old(self)@, user_id, cards@);
                }
            } else {
                assert(self@.players =~= old(self)@.players);
            }
        }
        result
    }

    /// Whether every player is ready.
    pub fn ready_to_end_turn(&self) -> (ready: bool)
        ensures
            ready == self@.ready(),
    {
        let mut i: usize = 0;
        while i < self.players.len()
            invariant
                i <= self.players.len(),
                forall|j: int| 0 <= j < i ==> (#[trigger] self.players@[j])@.ready(),
            decreases self.players.len() - i,
        {
            if !self.players[i].is_ready() {
                assert(!self@.players[i as int].ready());
                return false;
            }
            i += 1;
        }
        true
    }

    /// Ends the turn if every player is ready, and does nothing if not: see
    /// [`GameModel::turn_ended`] and [`GameModel::turn_reported`].
    pub fn end_turn(&mut self) -> (events: Vec<GameEvent>)
        requires
            old(self)@.ready() ==> old(self)@.wf(),
        ensures
            final(self)@ == old(self)@.turn_ended(),
            old(self)@.turn_reported(events@),
            old(self)@.wf() ==> final(self)@.wf(),
            !old(self)@.ready() ==> *final(self) == *old(self) && events@.len() == 0,
    {
        let mut events: Vec<GameEvent> = Vec::new();
        if self.ready_to_end_turn() {
            proof {
                lemma_stepped_wf(self@);
                assert forall|i: int| 0 <= i < self.players@.len() implies (
                #[trigger] self.players@[i])@.can_step() && self.players@[i]@.puddings
                    + crate::player::puddings_in(self.players@[i]@.played()) <= usize::MAX by {
                    let p = self@.players[i];
                    crate::player::lemma_play_all_len(p.pile, p.played());
                }
            }
            step_all(&mut self.players);
            events.push(GameEvent::TurnOver);
            if all_done(&self.players) {
                let mut more = self.end_round();
                events.append(&mut more);
            } else {
                assert(!self@.done()) by {
                    if self@.done() {
                        assert forall|i: int| 0 <= i < self.players@.len() implies (
                        #[trigger] self.players@[i])@.done() by {
                            assert(self@.players[i].done());
                        }
                    }
                }
                rotate_hands(&mut self.players);
            }
        }
        proof {
            if old(self)@.wf() {
                lemma_turn_ended_wf(old(self)@);
            }
        }
        events
    }

    /// Settles the round: see [`GameModel::round_ended`] and
    /// [`GameModel::round_reported`].
    pub fn end_round(&mut self) -> (events: Vec<GameEvent>)
        requires
            old(self)@.wf(),
            old(self)@.round <= NUM_ROUNDS,
        ensures
            final(self)@ == old(self)@.round_ended(),
            old(self)@.round_reported(events@),
            old(self)@.done() ==> final(self)@.wf(),
    {
        let mut events: Vec<GameEvent> = Vec::new();
        let ghost olds = models(self.players@);
        let round = collect_piles(&mut self.players);
        let ghost piles = piles_by_id(olds);
        proof {
            lemma_piles_by_id(olds);
            assert forall|k: i64| #[trigger] piles.contains_key(k) implies crate::scoring::pile_points(
                piles[k],
            ) + FIRST_PLACE_POINTS <= usize::MAX && crate::scoring::maki_rolls(piles[k])
                <= usize::MAX by {
                let i = choose|i: int| 0 <= i < olds.len() && (#[trigger] olds[i]).id.0 == k;
                lemma_pile_bounds(olds[i].pile);
            }
        }
        let scores_by_user_id = score_round(&round);
        proof {
            assert forall|i: int| 0 <= i < self.players@.len() implies scores_by_user_id@.contains_key(
                (#[trigger] self.players@[i])@.id.0,
            ) && self.players@[i]@.points + scores_by_user_id@[self.players@[i]@.id.0]
                <= usize::MAX by {
                lemma_round_points_bound(olds, i);
                let r = old(self)@.round as int;
                assert((r - 1) * round_cap() <= 3 * round_cap()) by (nonlinear_arith)
                    requires
                        r <= 4,
                ;
            }
        }
        award_points(&mut self.players, &scores_by_user_id);
        proof {
            assert(models(self.players@) =~= scored(olds));
            assert(scores_by_user_id@ =~= round_scores(olds));
        }
        events.push(
            GameEvent::RoundOver(RoundOver { round: self.round, points: scores_by_user_id }),
        );
        self.round += 1;
        if self.round > NUM_ROUNDS {
            let mut more = self.end_game();
            events.append(&mut more);
        } else {
            proof {
                let n = self.players@.len() as int;
                let left = old(self)@.rounds_left() as int;
                assert(n * left >= n) by (nonlinear_arith)
                    requires
                        left >= 1,
                        n >= 0,
                ;
            }
            deal_hands(&mut self.players, &mut self.hands);
            assert(hand_maps(self.hands@) =~= old(self)@.hands.take(
                old(self)@.hands.len() - self.players@.len(),
            ));
        }
        proof {
            if old(self)@.done() {
                lemma_round_ended_wf(old(self)@);
            }
        }
        events
    }

    /// Ends the game: records the winner and reports it. Without players
    /// there is no winner and nothing to report.
    pub fn end_game(&mut self) -> (events: Vec<GameEvent>)
        ensures
            final(self)@ == (GameModel { winner: winner_of(old(self)@.players), ..old(self)@ }),
            match winner_of(old(self)@.players) {
                Some(winner) => events@ == seq![GameEvent::GameOver(winner)],
                None => events@.len() == 0,
            },
    {
        let mut events: Vec<GameEvent> = Vec::new();
        if self.players.len() == 0 {
            self.winner = None;
        } else {
            let best = find_winner(&self.players);
            proof {
                lemma_winner_unique(models(self.players@), best as int);
            }
            let winner = self.players[best].id();
            self.winner = Some(winner);
            events.push(GameEvent::GameOver(winner));
        }
        events
    }
}

} // verus!
