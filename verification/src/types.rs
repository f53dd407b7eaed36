//! The cards, the face-up pile entries, the identifiers and the events that
//! state transitions produce.

use std::collections::HashMap;
use std::time::Duration;
use vstd::prelude::*;

verus! {

/// How many rolls a maki card shows.
#[derive(Clone, Copy, Debug, PartialEq, Eq, Structural)]
pub enum MakiRolls {
    One,
    Two,
    Three,
}

impl MakiRolls {
    /// The number of rolls on the card, as a mathematical value.
    pub open spec fn rolls(self) -> nat {
        match self {
            MakiRolls::One => 1,
            MakiRolls::Two => 2,
            MakiRolls::Three => 3,
        }
    }

    /// The number of rolls on the card.
    pub fn count(self) -> (n: usize)
        ensures
            n == self.rolls(),
    {
        match self {
            MakiRolls::One => 1,
            MakiRolls::Two => 2,
            MakiRolls::Three => 3,
        }
    }
}

/// The three kinds of nigiri.
#[derive(Clone, Copy, Debug, PartialEq, Eq, Structural)]
pub enum Nigiri {
    Egg,
    Salmon,
    Squid,
}

impl Nigiri {
    /// The base value of the nigiri: egg 1, salmon 2, squid 3.
    pub open spec fn value(self) -> nat {
        match self {
            Nigiri::Egg => 1,
            Nigiri::Salmon => 2,
            Nigiri::Squid => 3,
        }
    }
}

/// A card of the deck.
#[derive(Clone, Copy, Debug, PartialEq, Eq, Structural)]
pub enum Card {
    Chopsticks,
    Dumpling,
    MakiRolls(MakiRolls),
    Nigiri(Nigiri),
    Pudding,
    Sashimi,
    Tempura,
    Wasabi,
}

/// An entry of a player's face-up pile: a played card with its identifier, or
/// a wasabi that a nigiri was put on.
#[derive(Clone, Copy, Debug, PartialEq, Eq, Structural)]
pub enum FaceUpCard {
    Card { id: usize, card: Card },
    Wasabi { nigiri: Nigiri },
}

impl FaceUpCard {
    /// Whether this entry is the plain card `card`, whatever its identifier.
    pub open spec fn shows(self, card: Card) -> bool {
        match self {
            FaceUpCard::Card { id: _, card: c } => c == card,
            FaceUpCard::Wasabi { nigiri: _ } => false,
        }
    }
}

/// A hand: the cards a player holds, each under the identifier it got when
/// the deck was built.
pub type Hand = HashMap<usize, Card>;

/// Identifies a user.
#[derive(Clone, Copy, Debug, PartialEq, Eq, Hash, Structural)]
pub struct UserId(pub i64);

/// Identifies a game.
#[derive(Clone, Copy, Debug, PartialEq, Eq, Hash, Structural)]
pub struct GameId(pub i64);

/// The whole milliseconds that a `Duration` holds.
pub uninterp spec fn duration_millis(d: Duration) -> nat;

/// `Clone::clone` of std's `Duration`, a `Copy` type: the clone equals the
/// duration it was made of.
pub assume_specification[ <Duration as Clone>::clone ](d: &Duration) -> (res: Duration)
    ensures
        res == *d,
;

/// `Duration::from_millis`: the duration of `ms` milliseconds, so that is the
/// number of whole milliseconds it holds.
#[verifier::external_body]
pub(crate) fn duration_from_millis(ms: u64) -> (d: Duration)
    ensures
        duration_millis(d) == ms,
{
    Duration::from_millis(ms)
}

/// `Duration::as_millis`: the whole milliseconds that the duration holds.
#[verifier::external_body]
pub(crate) fn duration_as_millis(d: &Duration) -> (ms: u128)
    ensures
        ms == duration_millis(*d),
{
    d.as_millis()
}

/// What a settled round brought: its number and each player's points for it,
/// keyed by the number of the player's `UserId`.
#[derive(Clone, Debug)]
pub struct RoundOver {
    pub round: usize,
    pub points: HashMap<i64, usize>,
}

/// What a state transition has to tell the subscribers of a game.
#[derive(Clone, Debug)]
pub enum GameEvent {
    CardsSelected(UserId),
    CountdownStarted(Duration),
    CountdownCancelled,
    TurnOver,
    RoundOver(RoundOver),
    GameOver(UserId),
}

/// What a user sees of a game: the own seat in full, if the user plays, and
/// of everybody else what lies open.
#[derive(Debug)]
pub struct GameView {
    pub round: usize,
    pub player: Option<PlayerView>,
    pub opponents: Vec<OpponentView>,
    pub winner: Option<UserId>,
}

/// What a player sees of the own seat.
#[derive(Debug)]
pub struct PlayerView {
    pub face_up_cards: Vec<FaceUpCard>,
    pub hand: HashMap<usize, Card>,
    pub num_points: usize,
    pub num_puddings: usize,
    pub selected_cards: Vec<usize>,
}

/// What a player sees of another player's seat.
#[derive(Debug)]
pub struct OpponentView {
    pub face_up_cards: Vec<FaceUpCard>,
    pub id: UserId,
    pub num_cards: usize,
    pub num_points: usize,
    pub num_puddings: usize,
    pub ready: bool,
}

} // verus!
