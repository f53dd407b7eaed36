//! One player's state: the hand, the current selection, the face-up pile and
//! the running totals, with selection and turn resolution.

use crate::types::{Card, FaceUpCard, GameEvent, Hand, OpponentView, PlayerView, UserId};
use std::collections::HashMap;
use vstd::prelude::*;
use vstd::string::StringExecFns;

verus! {

broadcast use vstd::std_specs::hash::group_hash_axioms;

/// Why a selection was refused.
#[derive(Clone, Copy, Debug, PartialEq, Eq, Structural)]
pub enum SelectCardsError {
    TooManyCards,
    NoChopsticks,
    DoesNotHaveCard,
}

impl SelectCardsError {
    /// What the error tells the user.
    pub open spec fn text(self) -> Seq<char> {
        match self {
            SelectCardsError::TooManyCards => "Too many cards selected"@,
            SelectCardsError::NoChopsticks => "Only one card can be played without chopsticks"@,
            SelectCardsError::DoesNotHaveCard => "Player does not have card"@,
        }
    }

    /// What the error tells the user.
    pub fn message(&self) -> (message: String)
        ensures
            message@ == self.text(),
    {
        match self {
            SelectCardsError::TooManyCards => String::from_str("Too many cards selected"),
            SelectCardsError::NoChopsticks => String::from_str(
                "Only one card can be played without chopsticks",
            ),
            SelectCardsError::DoesNotHaveCard => String::from_str("Player does not have card"),
        }
    }
}

/// Whether `i` is the first position of `pile` that shows the plain card `card`.
pub open spec fn is_first_shown(pile: Seq<FaceUpCard>, card: Card, i: int) -> bool {
    &&& 0 <= i < pile.len()
    &&& pile[i].shows(card)
    &&& forall|j: int| 0 <= j < i ==> !pile[j].shows(card)
}

/// Whether some entry of `pile` shows the plain card `card`.
pub open spec fn holds_face_up(pile: Seq<FaceUpCard>, card: Card) -> bool {
    exists|i: int| 0 <= i < pile.len() && pile[i].shows(card)
}

/// The first position of `pile` that shows `card`, where there is one.
pub open spec fn first_shown(pile: Seq<FaceUpCard>, card: Card) -> int {
    choose|i: int| is_first_shown(pile, card, i)
}

/// The pile after one card was played. A pudding is counted and does not go
/// onto the pile. A nigiri goes onto the first wasabi that lies open, and the
/// two become one entry at the end of the pile; every other card, and a
/// nigiri without wasabi, is appended as it is.
pub open spec fn play(pile: Seq<FaceUpCard>, id: usize, card: Card) -> Seq<FaceUpCard> {
    match card {
        Card::Pudding => pile,
        Card::Nigiri(nigiri) => if holds_face_up(pile, Card::Wasabi) {
            pile.remove(first_shown(pile, Card::Wasabi)).push(FaceUpCard::Wasabi { nigiri })
        } else {
            pile.push(FaceUpCard::Card { id, card })
        },
        _ => pile.push(FaceUpCard::Card { id, card }),
    }
}

/// The pile after the cards `played` were played onto it, first to last.
pub open spec fn play_all(pile: Seq<FaceUpCard>, played: Seq<(usize, Card)>) -> Seq<FaceUpCard>
    decreases played.len(),
{
    if played.len() == 0 {
        pile
    } else {
        play(play_all(pile, played.drop_last()), played.last().0, played.last().1)
    }
}

/// How many of the cards `played` are puddings.
pub open spec fn puddings_in(played: Seq<(usize, Card)>) -> nat
    decreases played.len(),
{
    if played.len() == 0 {
        0
    } else {
        puddings_in(played.drop_last()) + if played.last().1 == Card::Pudding {
            1nat
        } else {
            0nat
        }
    }
}

/// The cards that the identifiers `ids` name in `hand`, in the order of `ids`.
pub open spec fn named_cards(hand: Map<usize, Card>, ids: Seq<usize>) -> Seq<(usize, Card)> {
    Seq::new(ids.len(), |i: int| (ids[i], hand[ids[i]]))
}

/// What a player is, as plain mathematical values.
pub struct PlayerModel {
    pub id: UserId,
    pub hand: Map<usize, Card>,
    pub selection: Seq<usize>,
    pub pile: Seq<FaceUpCard>,
    pub points: nat,
    pub puddings: nat,
}

impl PlayerModel {
    /// A player is ready when the selection is not empty.
    pub open spec fn ready(self) -> bool {
        self.selection.len() > 0
    }

    /// A player is done when the hand is empty.
    pub open spec fn done(self) -> bool {
        self.hand.dom() =~= Set::<usize>::empty()
    }

    /// Why the selection `ids` is refused, if it is: more than two cards;
    /// two cards without chopsticks lying face up; a card that is not in the
    /// hand. The first that applies is the answer.
    pub open spec fn select_error(self, ids: Seq<usize>) -> Option<SelectCardsError> {
        if ids.len() > 2 {
            Some(SelectCardsError::TooManyCards)
        } else if ids.len() > 1 && !holds_face_up(self.pile, Card::Chopsticks) {
            Some(SelectCardsError::NoChopsticks)
        } else if exists|i: int| 0 <= i < ids.len() && !self.hand.contains_key(#[trigger] ids[i]) {
            Some(SelectCardsError::DoesNotHaveCard)
        } else {
            None
        }
    }

    /// The player with the selection `ids` in place of the stored one.
    pub open spec fn with_selection(self, ids: Seq<usize>) -> PlayerModel {
        PlayerModel { selection: ids, ..self }
    }

    /// Whether the selection can be resolved: every selected card is in the
    /// hand, none is selected twice, and chopsticks lie face up where more
    /// than one card is selected.
    pub open spec fn can_step(self) -> bool {
        &&& forall|i: int| 0 <= i < self.selection.len() ==> self.hand.contains_key(#[trigger] self.selection[i])
        &&& self.selection.no_duplicates()
        &&& self.selection.len() > 1 ==> holds_face_up(self.pile, Card::Chopsticks)
    }

    /// Whether the player is in order: the hand is finite, at most two cards
    /// are selected, and the selection can be resolved.
    pub open spec fn wf(self) -> bool {
        &&& self.hand.dom().finite()
        &&& self.selection.len() <= 2
        &&& self.can_step()
    }

    /// The cards that the selection names, in the order of the selection.
    pub open spec fn played(self) -> Seq<(usize, Card)> {
        named_cards(self.hand, self.selection)
    }

    /// The player after the selection was resolved. The selected cards leave
    /// the hand. Where more than one was selected, the first chopsticks of
    /// the pile go back into the hand. Then the selected cards are played in
    /// the order of the selection: a pudding is counted, every other card
    /// goes onto the pile. The selection is cleared.
    pub open spec fn stepped(self) -> PlayerModel {
        let rest = self.hand.remove_keys(self.selection.to_set());
        let at = first_shown(self.pile, Card::Chopsticks);
        PlayerModel {
            id: self.id,
            hand: if self.selection.len() > 1 {
                rest.insert(self.pile[at]->id, Card::Chopsticks)
            } else {
                rest
            },
            selection: Seq::empty(),
            pile: if self.selection.len() > 1 {
                play_all(self.pile.remove(at), self.played())
            } else {
                play_all(self.pile, self.played())
            },
            points: self.points,
            puddings: self.puddings + puddings_in(self.played()),
        }
    }
}

/// Where a card lies face up, it has a first position.
pub proof fn lemma_first_shown(pile: Seq<FaceUpCard>, card: Card)
    requires
        holds_face_up(pile, card),
    ensures
        is_first_shown(pile, card, first_shown(pile, card)),
{
    let i = choose|i: int| 0 <= i < pile.len() && pile[i].shows(card);
    lemma_first_shown_before(pile, card, i);
}

proof fn lemma_first_shown_before(pile: Seq<FaceUpCard>, card: Card, i: int)
    requires
        0 <= i < pile.len(),
        pile[i].shows(card),
    ensures
        exists|k: int| is_first_shown(pile, card, k),
    decreases i,
{
    if exists|j: int| 0 <= j < i && pile[j].shows(card) {
        let j = choose|j: int| 0 <= j < i && pile[j].shows(card);
        lemma_first_shown_before(pile, card, j);
    } else {
        assert(is_first_shown(pile, card, i));
    }
}

/// Playing cards makes the pile longer by one entry for each card at most,
/// and there are no more puddings among the cards than cards.
pub proof fn lemma_play_all_len(pile: Seq<FaceUpCard>, played: Seq<(usize, Card)>)
    ensures
        play_all(pile, played).len() <= pile.len() + played.len(),
        puddings_in(played) <= played.len(),
    decreases played.len(),
{
    if played.len() > 0 {
        lemma_play_all_len(pile, played.drop_last());
        let before = play_all(pile, played.drop_last());
        if holds_face_up(before, Card::Wasabi) {
            lemma_first_shown(before, Card::Wasabi);
        }
    }
}

/// What resolving the selection does to the sizes: the player stays in
/// order with an empty selection; a player who was ready has at least one
/// card less in the hand, at most one entry more on the pile and at most two
/// puddings more; a player who was not is as before.
pub proof fn lemma_stepped(p: PlayerModel)
    requires
        p.wf(),
    ensures
        p.stepped().wf(),
        p.stepped().selection.len() == 0,
        p.stepped().id == p.id,
        p.stepped().points == p.points,
        p.ready() ==> p.stepped().hand.len() + 1 <= p.hand.len(),
        p.selection.len() == 1 ==> p.stepped().hand.len() + 1 == p.hand.len(),
        p.ready() ==> p.stepped().pile.len() <= p.pile.len() + 1,
        p.stepped().puddings <= p.puddings + 2,
        !p.ready() ==> p.stepped() == p,
{
    let rest = p.hand.remove_keys(p.selection.to_set());
    lemma_play_all_len(p.pile, p.played());
    if p.selection.len() == 0 {
        assert(rest =~= p.hand);
        assert(p.selection =~= Seq::<usize>::empty());
    } else if p.selection.len() == 1 {
        assert(rest =~= p.hand.remove(p.selection[0]));
    } else {
        let a = p.selection[0];
        let b = p.selection[1];
        assert(rest =~= p.hand.remove(a).remove(b));
        lemma_first_shown(p.pile, Card::Chopsticks);
        let at = first_shown(p.pile, Card::Chopsticks);
        lemma_play_all_len(p.pile.remove(at), p.played());
    }
}

/// A pudding that is played alone is counted and leaves the pile as it is.
pub proof fn lemma_pudding_is_counted(p: PlayerModel)
    requires
        p.selection.len() == 1,
        p.hand.contains_key(p.selection[0]),
        p.hand[p.selection[0]] == Card::Pudding,
    ensures
        p.stepped().pile == p.pile,
        p.stepped().puddings == p.puddings + 1,
        p.stepped().points == p.points,
        p.stepped().id == p.id,
{
    let played = p.played();
    assert(played.last().1 == Card::Pudding);
    assert(play_all(p.pile, played.drop_last()) == p.pile);
    assert(puddings_in(played.drop_last()) == 0);
}

/// Two cards cannot be selected without chopsticks lying face up.
pub proof fn lemma_two_cards_need_chopsticks(p: PlayerModel, ids: Seq<usize>)
    requires
        ids.len() == 2,
        !holds_face_up(p.pile, Card::Chopsticks),
    ensures
        p.select_error(ids) == Some(SelectCardsError::NoChopsticks),
{
}

/// A selection of up to two cards, with chopsticks lying face up where there
/// are two, is refused for a card that is not in the hand.
pub proof fn lemma_absent_card_refused(p: PlayerModel, ids: Seq<usize>, i: int)
    requires
        ids.len() <= 2,
        ids.len() == 2 ==> holds_face_up(p.pile, Card::Chopsticks),
        0 <= i < ids.len(),
        !p.hand.contains_key(ids[i]),
    ensures
        p.select_error(ids) == Some(SelectCardsError::DoesNotHaveCard),
{
}

/// Whether a selection is accepted does not depend on what was selected
/// before, and a selection that was accepted is the stored one afterwards:
/// so selecting the same cards again is accepted again, and is the stored
/// selection, for which no event is reported.
pub proof fn lemma_same_selection_again(p: PlayerModel, ids: Seq<usize>)
    requires
        p.select_error(ids) is None,
    ensures
        p.with_selection(ids).select_error(ids) is None,
        p.with_selection(ids).selection == ids,
        p.with_selection(ids).with_selection(ids) == p.with_selection(ids),
{
}

/// One player of a game.
#[derive(Debug, PartialEq, Eq)]
pub struct Player {
    face_up_cards: Vec<FaceUpCard>,
    hand: Hand,
    id: UserId,
    num_points: usize,
    num_puddings: usize,
    selected_cards: Vec<usize>,
}

impl View for Player {
    type V = PlayerModel;

    closed spec fn view(&self) -> PlayerModel {
        PlayerModel {
            id: self.id,
            hand: self.hand@,
            selection: self.selected_cards@,
            pile: self.face_up_cards@,
            points: self.num_points as nat,
            puddings: self.num_puddings as nat,
        }
    }
}

/// Whether the pile entry shows the plain card `card`.
fn shows_card(entry: &FaceUpCard, card: Card) -> (b: bool)
    ensures
        b == entry.shows(card),
{
    match entry {
        FaceUpCard::Card { id: _, card: c } => *c == card,
        FaceUpCard::Wasabi { nigiri: _ } => false,
    }
}

/// The first position of `pile` that shows the plain card `card`.
fn position_of(pile: &Vec<FaceUpCard>, card: Card) -> (at: Option<usize>)
    ensures
        at is Some <==> holds_face_up(pile@, card),
        at is Some ==> at->0 == first_shown(pile@, card) && is_first_shown(pile@, card, at->0 as int),
{
    let mut i: usize = 0;
    while i < pile.len()
        invariant
            i <= pile.len(),
            forall|j: int| 0 <= j < i ==> !pile@[j].shows(card),
        decreases pile.len() - i,
    {
        if shows_card(&pile[i], card) {
            proof {
                lemma_first_shown_unique(pile@, card, i as int);
            }
            return Some(i);
        }
        i += 1;
    }
    None
}

/// There is one first position at most.
proof fn lemma_first_shown_unique(pile: Seq<FaceUpCard>, card: Card, i: int)
    requires
        is_first_shown(pile, card, i),
    ensures
        first_shown(pile, card) == i,
        holds_face_up(pile, card),
{
}

/// Whether every identifier of `ids` is in `hand`.
fn holds_all(hand: &Hand, ids: &Vec<usize>) -> (b: bool)
    ensures
        b <==> forall|i: int| 0 <= i < ids@.len() ==> hand@.contains_key(#[trigger] ids@[i]),
{
    let mut i: usize = 0;
    while i < ids.len()
        invariant
            i <= ids.len(),
            forall|j: int| 0 <= j < i ==> hand@.contains_key(#[trigger] ids@[j]),
        decreases ids.len() - i,
    {
        if !hand.contains_key(&ids[i]) {
            return false;
        }
        i += 1;
    }
    true
}

/// Takes the cards `ids` out of `hand` and hands them out in that order.
fn take_cards(hand: &mut Hand, ids: &Vec<usize>) -> (played: Vec<(usize, Card)>)
    requires
        ids@.no_duplicates(),
        forall|i: int| 0 <= i < ids@.len() ==> old(hand)@.contains_key(#[trigger] ids@[i]),
    ensures
        final(hand)@ == old(hand)@.remove_keys(ids@.to_set()),
        played@ == named_cards(old(hand)@, ids@),
{
    let mut played: Vec<(usize, Card)> = Vec::new();
    let mut i: usize = 0;
    while i < ids.len()
        invariant
            i <= ids.len(),
            ids@.no_duplicates(),
            forall|j: int| 0 <= j < ids@.len() ==> old(hand)@.contains_key(#[trigger] ids@[j]),
            hand@ == old(hand)@.remove_keys(ids@.take(i as int).to_set()),
            played@ == named_cards(old(hand)@, ids@.take(i as int)),
        decreases ids.len() - i,
    {
        let id = ids[i];
        assert(!ids@.take(i as int).to_set().contains(id)) by {
            if ids@.take(i as int).contains(id) {
                let j = choose|j: int| 0 <= j < i && ids@.take(i as int)[j] == id;
            }
        }
        let taken = hand.remove(&id);
        let card = taken.unwrap();
        played.push((id, card));
        proof {
            let next = ids@.take(i + 1);
            assert(next.to_set() =~= ids@.take(i as int).to_set().insert(id)) by {
                assert forall|x: usize| next.to_set().contains(x) <==> ids@.take(i as int).to_set().insert(id).contains(x) by {
                    if x == id {
                        assert(next[i as int] == x);
                    }
                }
            }
        }
        i += 1;
    }
    assert(ids@.take(ids@.len() as int) == ids@);
    played
}

/// Plays the cards `played` onto `pile`, first to last, and counts the
/// puddings among them.
fn play_cards(pile: &mut Vec<FaceUpCard>, played: &Vec<(usize, Card)>) -> (puddings: usize)
    ensures
        final(pile)@ == play_all(old(pile)@, played@),
        puddings == puddings_in(played@),
{
    let mut puddings: usize = 0;
    let mut i: usize = 0;
    while i < played.len()
        invariant
            i <= played.len(),
            pile@ == play_all(old(pile)@, played@.take(i as int)),
            puddings == puddings_in(played@.take(i as int)),
            puddings <= i,
        decreases played.len() - i,
    {
        let (id, card) = played[i];
        assert(played@.take(i + 1).drop_last() == played@.take(i as int));
        if let Card::Pudding = card {
            puddings += 1;
        } else if let Card::Nigiri(nigiri) = card {
            match position_of(pile, Card::Wasabi) {
                None => {
                    pile.push(FaceUpCard::Card { id, card });
                },
                Some(at) => {
                    pile.remove(at);
                    pile.push(FaceUpCard::Wasabi { nigiri });
                },
            }
        } else {
            pile.push(FaceUpCard::Card { id, card });
        }
        i += 1;
    }
    assert(played@.take(played@.len() as int) == played@);
    puddings
}

impl Player {
    /// A player who holds `hand` and has neither selected nor played nor
    /// scored anything yet.
    pub fn new(id: UserId, hand: Hand) -> (player: Self)
        ensures
            player@ == (PlayerModel {
                id,
                hand: hand@,
                selection: Seq::empty(),
                pile: Seq::empty(),
                points: 0,
                puddings: 0,
            }),
    {
        Self {
            face_up_cards: Vec::new(),
            hand,
            id,
            num_points: 0,
            num_puddings: 0,
            selected_cards: Vec::new(),
        }
    }

    /// A player put together from stored parts.
    pub fn from_parts(
        id: UserId,
        hand: Hand,
        selected_cards: Vec<usize>,
        face_up_cards: Vec<FaceUpCard>,
        num_points: usize,
        num_puddings: usize,
    ) -> (player: Self)
        ensures
            player@ == (PlayerModel {
                id,
                hand: hand@,
                selection: selected_cards@,
                pile: face_up_cards@,
                points: num_points as nat,
                puddings: num_puddings as nat,
            }),
    {
        Self { face_up_cards, hand, id, num_points, num_puddings, selected_cards }
    }

    /// The hand.
    pub fn hand(&self) -> (hand: &Hand)
        ensures
            hand@ == self@.hand,
    {
        &self.hand
    }

    /// The selected cards.
    pub fn selected_cards(&self) -> (ids: &Vec<usize>)
        ensures
            ids@ == self@.selection,
    {
        &self.selected_cards
    }

    /// The face-up pile.
    pub fn face_up_cards(&self) -> (pile: &Vec<FaceUpCard>)
        ensures
            pile@ == self@.pile,
    {
        &self.face_up_cards
    }

    /// What the player sees of the own seat: all of it but the identifier.
    pub fn into_player_view(self) -> (view: PlayerView)
        ensures
            view.face_up_cards@ == self@.pile,
            view.hand@ == self@.hand,
            view.num_points == self@.points,
            view.num_puddings == self@.puddings,
            view.selected_cards@ == self@.selection,
    {
        PlayerView {
            face_up_cards: self.face_up_cards,
            hand: self.hand,
            num_points: self.num_points,
            num_puddings: self.num_puddings,
            selected_cards: self.selected_cards,
        }
    }

    /// What the other players see of the seat: the pile and the totals, how
    /// many cards the hand holds, and whether the player is ready.
    pub fn into_opponent_view(self) -> (view: OpponentView)
        ensures
            view.face_up_cards@ == self@.pile,
            view.id == self@.id,
            view.num_cards == self@.hand.len(),
            view.num_points == self@.points,
            view.num_puddings == self@.puddings,
            view.ready == self@.ready(),
    {
        let ready = self.is_ready();
        OpponentView {
            face_up_cards: self.face_up_cards,
            id: self.id,
            num_cards: self.hand.len(),
            num_points: self.num_points,
            num_puddings: self.num_puddings,
            ready,
        }
    }

    /// Whether the player is in order: see [`PlayerModel::wf`].
    pub fn is_valid(&self) -> (valid: bool)
        ensures
            valid == self@.wf(),
    {
        let num_cards = self.selected_cards.len();
        if num_cards > 2 {
            return false;
        }
        if !holds_all(&self.hand, &self.selected_cards) {
            return false;
        }
        if num_cards > 1 {
            if self.selected_cards[0] == self.selected_cards[1] {
                return false;
            }
            if position_of(&self.face_up_cards, Card::Chopsticks).is_none() {
                return false;
            }
        }
        true
    }

    /// The user who plays.
    pub fn id(&self) -> (id: UserId)
        ensures
            id == self@.id,
    {
        self.id
    }

    /// Stores `cards` as the player's selection, or refuses it. A refusal
    /// changes nothing. A selection that differs from the stored one is
    /// reported by one `CardsSelected` event, the same selection by none.
    pub fn select_cards(&mut self, cards: Vec<usize>) -> (result: Result<
        Vec<GameEvent>,
        SelectCardsError,
    >)
        ensures
            match result {
                Ok(events) => {
                    &&& old(self)@.select_error(cards@) is None
                    &&& final(self)@ == old(self)@.with_selection(cards@)
                    &&& events@ == if old(self)@.selection == cards@ {
                        Seq::<GameEvent>::empty()
                    } else {
                        seq![GameEvent::CardsSelected(old(self)@.id)]
                    }
                },
                Err(e) => old(self)@.select_error(cards@) == Some(e) && final(self)@ == old(self)@,
            },
    {
        let mut events: Vec<GameEvent> = Vec::new();
        let num_cards = cards.len();
        if num_cards > 2 {
            return Err(SelectCardsError::TooManyCards);
        }
        if num_cards > 1 {
            let has_chopsticks = position_of(&self.face_up_cards, Card::Chopsticks).is_some();
            if !has_chopsticks {
                return Err(SelectCardsError::NoChopsticks);
            }
        }
        if !holds_all(&self.hand, &cards) {
            return Err(SelectCardsError::DoesNotHaveCard);
        }
        let same = self.selected_cards == cards;
        assert(same <==> self.selected_cards@ =~= cards@);
        if !same {
            self.selected_cards = cards;
            events.push(GameEvent::CardsSelected(self.id));
        }
        Ok(events)
    }

    /// The points scored so far.
    pub fn num_points(&self) -> (points: usize)
        ensures
            points == self@.points,
    {
        self.num_points
    }

    /// The puddings counted so far.
    pub fn num_puddings(&self) -> (puddings: usize)
        ensures
            puddings == self@.puddings,
    {
        self.num_puddings
    }

    /// Whether the player has selected anything.
    pub fn is_ready(&self) -> (ready: bool)
        ensures
            ready == self@.ready(),
    {
        !self.selected_cards.is_empty()
    }

    /// Whether the player's hand is empty.
    pub fn is_done(&self) -> (done: bool)
        ensures
            done == self@.done(),
    {
        let done = self.hand.is_empty();
        done
    }

    /// Resolves the selection: see [`PlayerModel::stepped`].
    pub fn step(&mut self)
        requires
            old(self)@.can_step(),
            old(self)@.puddings + puddings_in(old(self)@.played()) <= usize::MAX,
        ensures
            final(self)@ == old(self)@.stepped(),
    {
        let mut selected: Vec<usize> = Vec::new();
        std::mem::swap(&mut self.selected_cards, &mut selected);
        let played = take_cards(&mut self.hand, &selected);
        if played.len() > 1 {
            let at = position_of(&self.face_up_cards, Card::Chopsticks);
            match self.face_up_cards.remove(at.unwrap()) {
                FaceUpCard::Card { id, card } => {
                    self.hand.insert(id, card);
                },
                FaceUpCard::Wasabi { nigiri: _ } => {
                    unreached()
                },
            }
        }
        let puddings = play_cards(&mut self.face_up_cards, &played);
        self.num_puddings += puddings;
    }

    /// Takes the hand away from the player, who is left with an empty one.
    pub fn take_hand(&mut self) -> (hand: Hand)
        ensures
            hand@ == old(self)@.hand,
            final(self)@ == (PlayerModel { hand: Map::empty(), ..old(self)@ }),
    {
        let mut hand: Hand = HashMap::new();
        std::mem::swap(&mut self.hand, &mut hand);
        hand
    }

    /// Gives the player `hand` in place of the one held.
    pub fn give_hand(&mut self, hand: Hand)
        ensures
            final(self)@ == (PlayerModel { hand: hand@, ..old(self)@ }),
    {
        self.hand = hand;
    }

    /// Takes the face-up pile away from the player, who is left with an
    /// empty one.
    pub fn take_face_up_cards(&mut self) -> (pile: Vec<FaceUpCard>)
        ensures
            pile@ == old(self)@.pile,
            final(self)@ == (PlayerModel { pile: Seq::empty(), ..old(self)@ }),
    {
        let mut pile: Vec<FaceUpCard> = Vec::new();
        std::mem::swap(&mut self.face_up_cards, &mut pile);
        pile
    }

    /// Adds `score` to the player's points.
    pub fn add_points(&mut self, score: usize)
        requires
            old(self)@.points + score <= usize::MAX,
        ensures
            final(self)@ == (PlayerModel { points: (old(self)@.points + score) as nat, ..old(self)@ }),
    {
        self.num_points += score;
    }
}

} // verus!
