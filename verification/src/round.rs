//! A round that is played one card a turn: every turn but the last only
//! passes the hands on, and the last one settles the round.

use crate::create::{dealt_game, lemma_dealt_game_wf, lemma_hands_partition};
use crate::deck::{cards_per_player, dealt_hands};
use crate::game::{
    is_seat, lemma_place_before, lemma_seat_unique, lemma_stepped_wf, lemma_turn_ended_wf,
    GameModel, MAX_GAME_SIZE, MIN_GAME_SIZE, NUM_ROUNDS,
};
use crate::player::lemma_stepped;
use crate::types::{Card, GameEvent, UserId};
use vstd::prelude::*;

verus! {

impl GameModel {
    /// Whether `picks` names for every player a card of the player's hand.
    pub open spec fn can_pick(self, picks: Seq<usize>) -> bool {
        &&& picks.len() == self.players.len()
        &&& forall|i: int|
            0 <= i < self.players.len() ==> (#[trigger] self.players[i]).hand.contains_key(picks[i])
    }

    /// The game after every player selected the one card that `picks` names
    /// for the player.
    pub open spec fn picked(self, picks: Seq<usize>) -> GameModel {
        GameModel {
            players: Seq::new(
                self.players.len(),
                |i: int| self.players[i].with_selection(seq![picks[i]]),
            ),
            ..self
        }
    }

    /// The game after the first `k` players selected, one after the other,
    /// the one card that `picks` names for each.
    pub open spec fn selected_so_far(self, picks: Seq<usize>, k: nat) -> GameModel
        decreases k,
    {
        if k == 0 {
            self
        } else {
            self.selected_so_far(picks, (k - 1) as nat).selected(
                self.players[k - 1].id,
                seq![picks[k - 1]],
            )
        }
    }

    /// Whether every player holds `h` cards.
    pub open spec fn hands_hold(self, h: nat) -> bool {
        forall|i: int|
            0 <= i < self.players.len() ==> (#[trigger] self.players[i]).hand.len() == h
    }

    /// The game after the turns `turns`: in each turn every player selects
    /// the card that the turn names for the player, and the turn is ended.
    pub open spec fn after_turns(self, turns: Seq<Seq<usize>>) -> GameModel
        decreases turns.len(),
    {
        if turns.len() == 0 {
            self
        } else {
            self.after_turns(turns.drop_last()).picked(turns.last()).turn_ended()
        }
    }

    /// Whether every turn of `turns` names for every player a card of the
    /// hand that the player holds when the turn begins.
    pub open spec fn can_play(self, turns: Seq<Seq<usize>>) -> bool
        decreases turns.len(),
    {
        turns.len() == 0 || (self.can_play(turns.drop_last()) && self.after_turns(
            turns.drop_last(),
        ).can_pick(turns.last()))
    }

    /// Whether `events` report a turn that only passes the hands on.
    pub open spec fn only_turn_over(events: Seq<GameEvent>) -> bool {
        events.len() == 1 && events[0] == GameEvent::TurnOver
    }

    /// Whether `events` report a turn that settles the round `round`: that
    /// the turn is over, then the round, and nothing more before the last
    /// round.
    pub open spec fn turn_and_round_over(events: Seq<GameEvent>, round: nat) -> bool {
        &&& events.len() >= 2
        &&& events[0] == GameEvent::TurnOver
        &&& events[1] matches GameEvent::RoundOver(r) && r.round == round
        &&& round < NUM_ROUNDS ==> events.len() == 2
    }
}

/// Where the players of a game with distinct users select one card each, one
/// after the other, each selection is accepted, and when all have selected
/// the game is the one in which every player has selected the card.
pub proof fn lemma_picked_by_selecting(g: GameModel, picks: Seq<usize>, k: nat)
    requires
        forall|i: int, j: int|
            0 <= i < j < g.players.len() ==> (#[trigger] g.players[i]).id != (
            #[trigger] g.players[j]).id,
        g.can_pick(picks),
        k <= g.players.len(),
    ensures
        g.selected_so_far(picks, k).players == Seq::new(
            g.players.len(),
            |i: int|
                if i < k {
                    g.players[i].with_selection(seq![picks[i]])
                } else {
                    g.players[i]
                },
        ),
        g.selected_so_far(picks, k).round == g.round,
        g.selected_so_far(picks, k).hands == g.hands,
        g.selected_so_far(picks, k).winner == g.winner,
        k > 0 ==> {
            let before = g.selected_so_far(picks, (k - 1) as nat);
            &&& before.has_player(g.players[k - 1].id)
            &&& before.seat(g.players[k - 1].id) == k - 1
            &&& before.players[k - 1].select_error(seq![picks[k - 1]]) is None
        },
        k == g.players.len() ==> g.selected_so_far(picks, k) == g.picked(picks),
    decreases k,
{
    let n = g.players.len();
    if k > 0 {
        lemma_picked_by_selecting(g, picks, (k - 1) as nat);
        let before = g.selected_so_far(picks, (k - 1) as nat);
        let id = g.players[k - 1].id;
        assert(before.players[k - 1] == g.players[k - 1]);
        assert(is_seat(before.players, id, k - 1)) by {
            assert forall|j: int| 0 <= j < k - 1 implies (#[trigger] before.players[j]).id != id by {
                assert(g.players[j].id != g.players[k - 1].id);
            }
        }
        lemma_seat_unique(before.players, id, k - 1);
        assert(before.has_player(id));
        assert(g.players[k - 1].hand.contains_key(picks[k - 1]));
        let ids = seq![picks[k - 1]];
        assert(before.players[k - 1].select_error(ids) is None) by {
            assert(ids.len() == 1);
            assert(forall|i: int| 0 <= i < ids.len() ==> ids[i] == picks[k - 1]);
        }
        assert(g.selected_so_far(picks, k).players =~= Seq::new(
            n,
            |i: int|
                if i < k {
                    g.players[i].with_selection(seq![picks[i]])
                } else {
                    g.players[i]
                },
        ));
    } else {
        assert(g.players =~= Seq::new(
            n,
            |i: int|
                if i < k {
                    g.players[i].with_selection(seq![picks[i]])
                } else {
                    g.players[i]
                },
        ));
    }
    if k == n {
        assert(g.selected_so_far(picks, k).players =~= g.picked(picks).players);
    }
}

/// Where every player selects one card of the hand, the game stays in order
/// and every player is ready.
pub proof fn lemma_picked_wf(g: GameModel, picks: Seq<usize>)
    requires
        g.wf(),
        g.can_pick(picks),
    ensures
        g.picked(picks).wf(),
        g.picked(picks).ready(),
{
    let p = g.picked(picks);
    let n = g.players.len() as int;
    assert forall|i: int| 0 <= i < n implies {
        &&& (#[trigger] p.players[i]).wf()
        &&& p.players[i].ready()
        &&& p.players[i].id == g.players[i].id
        &&& p.players[i].hand == g.players[i].hand
        &&& p.players[i].pile == g.players[i].pile
        &&& p.players[i].puddings == g.players[i].puddings
        &&& p.players[i].points == g.players[i].points
    } by {
        assert(g.players[i].wf());
        assert(g.players[i].hand.contains_key(picks[i]));
    }
    if p.round > NUM_ROUNDS {
        assert forall|i: int| 0 <= i < n implies (#[trigger] p.players[i]).done() by {
            assert(g.players[i].done());
        }
    }
}

/// One turn of a game in which every player holds `h` cards and selects one
/// of them. While more than one card is held, the turn only passes the hands
/// on: the round stays, and every player holds one card less. With the last
/// card the turn settles the round.
pub proof fn lemma_turn_of_single_cards(g: GameModel, picks: Seq<usize>, h: nat)
    requires
        g.wf(),
        g.hands_hold(h),
        g.can_pick(picks),
    ensures
        h >= 1,
        g.round <= NUM_ROUNDS,
        g.picked(picks).ready(),
        g.picked(picks).turn_ended().wf(),
        h > 1 ==> {
            &&& g.picked(picks).turn_ended().round == g.round
            &&& g.picked(picks).turn_ended().hands == g.hands
            &&& g.picked(picks).turn_ended().hands_hold((h - 1) as nat)
            &&& forall|events: Seq<GameEvent>| #[trigger]
                g.picked(picks).turn_reported(events) ==> GameModel::only_turn_over(events)
        },
        h == 1 ==> {
            &&& g.picked(picks).turn_ended().round == g.round + 1
            &&& forall|events: Seq<GameEvent>| #[trigger]
                g.picked(picks).turn_reported(events) ==> GameModel::turn_and_round_over(
                    events,
                    g.round,
                )
        },
{
    lemma_picked_wf(g, picks);
    let p = g.picked(picks);
    let s = p.stepped();
    let n = g.players.len() as int;
    assert(g.players[0].hand.contains_key(picks[0]));
    lemma_stepped_wf(p);
    lemma_turn_ended_wf(p);
    assert forall|i: int| 0 <= i < n implies {
        &&& (#[trigger] s.players[i]).hand.len() == h - 1
        &&& s.players[i].hand.dom().finite()
    } by {
        assert(p.players[i].wf());
        assert(s.players[i] == p.players[i].stepped());
        assert(g.players[i].hand.len() == h);
        lemma_stepped(p.players[i]);
        assert(s.players[i].wf());
    }
    if h > 1 {
        assert(!s.players[0].done()) by {
            if s.players[0].done() {
                assert(s.players[0].hand.dom() =~= Set::<usize>::empty());
            }
        }
        let e = p.turn_ended();
        assert forall|i: int| 0 <= i < n implies (#[trigger] e.players[i]).hand.len() == h - 1 by {
            lemma_place_before(i, n);
            assert(e.players[i].hand == s.players[(i + n - 1) % n].hand);
        }
        assert forall|events: Seq<GameEvent>| #[trigger] p.turn_reported(events) implies GameModel::only_turn_over(
            events,
        ) by {}
    } else {
        assert forall|i: int| 0 <= i < n implies (#[trigger] s.players[i]).done() by {
            s.players[i].hand.dom().lemma_len0_is_empty();
        }
        assert(s.done());
        assert forall|events: Seq<GameEvent>| #[trigger] p.turn_reported(events) implies GameModel::turn_and_round_over(
            events,
            g.round,
        ) by {
            assert(s.round_reported(events.skip(1)));
            assert(events.skip(1)[0] == events[1]);
        }
    }
}

/// What can be played can be played up to any turn.
pub proof fn lemma_can_play_so_far(g: GameModel, turns: Seq<Seq<usize>>, t: int)
    requires
        g.can_play(turns),
        0 <= t <= turns.len(),
    ensures
        g.can_play(turns.take(t)),
        t < turns.len() ==> g.after_turns(turns.take(t)).can_pick(turns[t]),
    decreases turns.len(),
{
    if t == turns.len() {
        assert(turns.take(t) == turns);
    } else {
        assert(turns.len() > 0);
        if t == turns.len() - 1 {
            assert(turns.take(t) == turns.drop_last());
        } else {
            lemma_can_play_so_far(g, turns.drop_last(), t);
            assert(turns.drop_last().take(t) == turns.take(t));
            assert(turns.drop_last()[t] == turns[t]);
        }
    }
}

/// A round that is played one card a turn, in a game in order in which every
/// player holds `h` cards. Before each turn the game is in order, in the
/// same round, and every player holds one card less than the turn before.
/// Every turn but the last reports only that it is over; the last reports
/// that the turn and the round are over, and the next round begins.
pub proof fn lemma_round_of_single_cards(g: GameModel, turns: Seq<Seq<usize>>, h: nat, t: int)
    requires
        g.wf(),
        g.hands_hold(h),
        turns.len() == h,
        g.can_play(turns),
        0 <= t < h,
    ensures
        g.after_turns(turns.take(t)).wf(),
        g.after_turns(turns.take(t)).round == g.round,
        g.after_turns(turns.take(t)).hands_hold((h - t) as nat),
        g.after_turns(turns.take(t)).can_pick(turns[t]),
        g.after_turns(turns.take(t)).picked(turns[t]).ready(),
        forall|events: Seq<GameEvent>| #[trigger]
            g.after_turns(turns.take(t)).picked(turns[t]).turn_reported(events) ==> if t < h - 1 {
                GameModel::only_turn_over(events)
            } else {
                GameModel::turn_and_round_over(events, g.round)
            },
        t == h - 1 ==> g.after_turns(turns).round == g.round + 1 && g.after_turns(turns).wf(),
    decreases t,
{
    lemma_can_play_so_far(g, turns, t);
    let now = g.after_turns(turns.take(t));
    if t == 0 {
        assert(turns.take(0).len() == 0);
    } else {
        lemma_round_of_single_cards(g, turns, h, t - 1);
        let before = g.after_turns(turns.take(t - 1));
        lemma_turn_of_single_cards(before, turns[t - 1], (h - (t - 1)) as nat);
        assert(turns.take(t).drop_last() == turns.take(t - 1));
        assert(turns.take(t).last() == turns[t - 1]);
        assert(now == before.picked(turns[t - 1]).turn_ended());
    }
    lemma_turn_of_single_cards(now, turns[t], (h - t) as nat);
    if t == h - 1 {
        assert(turns.take(t) == turns.drop_last());
        assert(turns.last() == turns[t]);
    }
}

/// The first round of a game that was dealt to distinct users from distinct
/// cards and is played one card a turn: it takes as many turns as a hand has
/// cards, nine for three players. Every turn but the last reports only that
/// it is over, and the last reports that the turn and round 1 are over.
pub proof fn lemma_first_round(
    ids: Seq<UserId>,
    cards: Seq<(usize, Card)>,
    turns: Seq<Seq<usize>>,
    t: int,
)
    requires
        MIN_GAME_SIZE <= ids.len() <= MAX_GAME_SIZE,
        ids.no_duplicates(),
        NUM_ROUNDS * ids.len() * cards_per_player(ids.len()) <= cards.len(),
        forall|a: int, b: int|
            0 <= a < b < cards.len() ==> (#[trigger] cards[a]).0 != (#[trigger] cards[b]).0,
        turns.len() == cards_per_player(ids.len()),
        dealt_game(ids, cards).can_play(turns),
        0 <= t < turns.len(),
    ensures
        ids.len() == 3 ==> turns.len() == 9,
        forall|events: Seq<GameEvent>| #[trigger]
            dealt_game(ids, cards).after_turns(turns.take(t)).picked(turns[t]).turn_reported(events)
                ==> if t < turns.len() - 1 {
                GameModel::only_turn_over(events)
            } else {
                GameModel::turn_and_round_over(events, 1)
            },
        t == turns.len() - 1 ==> dealt_game(ids, cards).after_turns(turns).round == 2,
{
    let g = dealt_game(ids, cards);
    let n = ids.len();
    let h = cards_per_player(n);
    lemma_dealt_game_wf(ids, cards);
    lemma_hands_partition(cards, n);
    let hands = dealt_hands(cards, NUM_ROUNDS as nat * n, h as int);
    assert forall|i: int| 0 <= i < g.players.len() implies (#[trigger] g.players[i]).hand.len()
        == h by {
        assert(g.players[i].hand == hands[hands.len() - 1 - i]);
    }
    lemma_round_of_single_cards(g, turns, h, t);
}

} // verus!
