//! The countdowns: for each game at most one is pending, and only a pending
//! one may force the turn to end. The keeper decides here; running the timers
//! and sending the events is for the caller.

use crate::game::Game;
use crate::types::{duration_from_millis, duration_millis, GameEvent, GameId};
use std::collections::HashMap;
use std::time::Duration;
use vstd::prelude::*;

verus! {

broadcast use vstd::std_specs::hash::group_hash_axioms;

/// The milliseconds that the players are given once all of them are ready.
pub const COUNTDOWN_MS: u64 = 3000;

/// The events that the channel of a game keeps for a slow subscriber.
pub const CHANNEL_CAPACITY: usize = 100;

/// A command to the keeper of the countdowns.
#[derive(Debug)]
pub enum Countdown {
    Start { game_id: GameId, duration: Duration },
    Cancel { game_id: GameId },
}

/// What the keeper asks of its caller.
#[derive(Debug)]
pub enum CountdownAction {
    /// Run a timer of `duration` for the game, and report with `ticket` when
    /// it has elapsed.
    Spawn { game_id: GameId, duration: Duration, ticket: u64 },
    /// Stop the timer that was started with `ticket`.
    Interrupt { game_id: GameId, ticket: u64 },
    /// Send `event` to the subscribers of the game.
    Send { game_id: GameId, event: GameEvent },
}

/// The countdowns as plain mathematical values: the ticket of the pending
/// countdown of each game that has one, and how many tickets were issued.
pub struct CountdownsModel {
    pub pending: Map<i64, u64>,
    pub issued: nat,
}

impl CountdownsModel {
    /// Whether every pending ticket was issued.
    pub open spec fn wf(self) -> bool {
        forall|game: i64| #[trigger]
            self.pending.contains_key(game) ==> self.pending[game] < self.issued
    }

    /// Whether the countdown of `game` with `ticket` is pending.
    pub open spec fn is_live(self, game: i64, ticket: u64) -> bool {
        self.pending.contains_key(game) && self.pending[game] == ticket
    }

    /// The countdowns after one was started for `game`: it gets the next
    /// ticket and takes the place of the one that was pending for the game.
    pub open spec fn started(self, game: i64) -> CountdownsModel {
        CountdownsModel {
            pending: self.pending.insert(game, self.issued as u64),
            issued: self.issued + 1,
        }
    }

    /// The countdowns after that of `game` was cancelled.
    pub open spec fn cancelled(self, game: i64) -> CountdownsModel {
        CountdownsModel { pending: self.pending.remove(game), ..self }
    }

    /// The countdowns after the timer of `game` with `ticket` has elapsed: it
    /// removes its own countdown and no other.
    pub open spec fn elapsed(self, game: i64, ticket: u64) -> CountdownsModel {
        if self.is_live(game, ticket) {
            self.cancelled(game)
        } else {
            self
        }
    }

    /// The countdowns after the keeper took the step.
    pub open spec fn after(self, step: KeeperStep) -> CountdownsModel {
        match step {
            KeeperStep::Start(game) => self.started(game),
            KeeperStep::Cancel(game) => self.cancelled(game),
            KeeperStep::Elapse(game, ticket) => self.elapsed(game, ticket),
        }
    }
}

/// A step of the keeper: a start or a cancel for a game, or the report that
/// the timer of a game with a ticket has elapsed.
pub enum KeeperStep {
    Start(i64),
    Cancel(i64),
    Elapse(i64, u64),
}

/// Starting a countdown for a game that has one pending leaves one pending
/// countdown for the game, the new one: the timer of the old one may not
/// force the turn to end any more.
pub proof fn lemma_restart_supersedes(c: CountdownsModel, game: i64)
    requires
        c.wf(),
        c.issued < u64::MAX,
        c.pending.contains_key(game),
    ensures
        !c.started(game).is_live(game, c.pending[game]),
        forall|ticket: u64|
            c.started(game).is_live(game, ticket) <==> ticket == c.issued,
{
}

/// A ticket that was issued and is not pending never becomes pending again,
/// whatever the keeper does next. So of the timers of one game only the one
/// started last can ever force the turn to end.
pub proof fn lemma_stale_stays_stale(c: CountdownsModel, step: KeeperStep, game: i64, ticket: u64)
    requires
        c.wf(),
        c.issued < u64::MAX,
        ticket < c.issued,
        !c.is_live(game, ticket),
    ensures
        c.after(step).wf(),
        ticket < c.after(step).issued,
        !c.after(step).is_live(game, ticket),
{
}

/// The keeper of the countdowns.
pub struct Countdowns {
    pending: HashMap<i64, u64>,
    issued: u64,
}

impl View for Countdowns {
    type V = CountdownsModel;

    closed spec fn view(&self) -> CountdownsModel {
        CountdownsModel { pending: self.pending@, issued: self.issued as nat }
    }
}

impl Countdowns {
    /// A keeper without countdowns.
    pub fn new() -> (countdowns: Self)
        ensures
            countdowns@.pending == Map::<i64, u64>::empty(),
            countdowns@.issued == 0,
            countdowns@.wf(),
    {
        Self { pending: HashMap::new(), issued: 0 }
    }

    /// How many tickets were issued.
    pub fn issued(&self) -> (issued: u64)
        ensures
            issued == self@.issued,
    {
        self.issued
    }

    /// Records a new countdown for the game and hands out its ticket, with
    /// the ticket of the countdown whose place it takes, if there was one.
    pub fn insert(&mut self, game_id: GameId) -> (tickets: (u64, Option<u64>))
        requires
            old(self)@.wf(),
            old(self)@.issued < u64::MAX,
        ensures
            final(self)@ == old(self)@.started(game_id.0),
            final(self)@.wf(),
            tickets.0 == old(self)@.issued,
            tickets.1 == if old(self)@.pending.contains_key(game_id.0) {
                Some(old(self)@.pending[game_id.0])
            } else {
                None
            },
    {
        let ticket = self.issued;
        let before = match self.pending.get(&game_id.0) {
            Some(t) => Some(*t),
            None => None,
        };
        self.pending.insert(game_id.0, ticket);
        self.issued = ticket + 1;
        proof {
            assert forall|g: i64| #[trigger] self@.pending.contains_key(g) implies self@.pending[g]
                < self@.issued by {
                if old(self)@.pending.contains_key(g) {
                    assert(old(self)@.pending[g] < old(self)@.issued);
                }
            }
        }
        (ticket, before)
    }

    /// Forgets the countdown of the game and hands out its ticket, if there
    /// was one.
    pub fn remove(&mut self, game_id: GameId) -> (ticket: Option<u64>)
        ensures
            final(self)@ == old(self)@.cancelled(game_id.0),
            old(self)@.wf() ==> final(self)@.wf(),
            ticket == if old(self)@.pending.contains_key(game_id.0) {
                Some(old(self)@.pending[game_id.0])
            } else {
                None
            },
    {
        let ticket = self.pending.remove(&game_id.0);
        proof {
            if old(self)@.wf() {
                assert forall|g: i64| #[trigger] self@.pending.contains_key(g) implies self@.pending[g]
                    < self@.issued by {
                    assert(old(self)@.pending.contains_key(g));
                }
            }
        }
        ticket
    }

    /// Takes a command: what it does to the countdowns, and what the caller
    /// has to do. A start records the countdown, has its timer run, has the
    /// timer stopped whose place it takes, and is announced. A cancel forgets
    /// the countdown, has its timer stopped and is announced; where nothing
    /// is pending for the game, nothing happens.
    pub fn on_message(&mut self, message: Countdown) -> (actions: Vec<CountdownAction>)
        requires
            old(self)@.wf(),
            old(self)@.issued < u64::MAX,
        ensures
            final(self)@.wf(),
            match message {
                Countdown::Start { game_id, duration } => {
                    &&& final(self)@ == old(self)@.started(game_id.0)
                    &&& actions@ == if old(self)@.pending.contains_key(game_id.0) {
                        seq![
                            CountdownAction::Spawn {
                                game_id,
                                duration,
                                ticket: old(self)@.issued as u64,
                            },
                            CountdownAction::Interrupt {
                                game_id,
                                ticket: old(self)@.pending[game_id.0],
                            },
                            CountdownAction::Send {
                                game_id,
                                event: GameEvent::CountdownStarted(duration),
                            },
                        ]
                    } else {
                        seq![
                            CountdownAction::Spawn {
                                game_id,
                                duration,
                                ticket: old(self)@.issued as u64,
                            },
                            CountdownAction::Send {
                                game_id,
                                event: GameEvent::CountdownStarted(duration),
                            },
                        ]
                    }
                },
                Countdown::Cancel { game_id } => {
                    &&& final(self)@ == old(self)@.cancelled(game_id.0)
                    &&& actions@ == if old(self)@.pending.contains_key(game_id.0) {
                        seq![
                            CountdownAction::Interrupt {
                                game_id,
                                ticket: old(self)@.pending[game_id.0],
                            },
                            CountdownAction::Send { game_id, event: GameEvent::CountdownCancelled },
                        ]
                    } else {
                        Seq::<CountdownAction>::empty()
                    }
                },
            },
    {
        let mut actions: Vec<CountdownAction> = Vec::new();
        match message {
            Countdown::Start { game_id, duration } => {
                let (ticket, before) = self.insert(game_id);
                actions.push(CountdownAction::Spawn { game_id, duration, ticket });
                if let Some(old_ticket) = before {
                    actions.push(CountdownAction::Interrupt { game_id, ticket: old_ticket });
                }
                actions.push(
                    CountdownAction::Send { game_id, event: GameEvent::CountdownStarted(duration) },
                );
            },
            Countdown::Cancel { game_id } => {
                if let Some(ticket) = self.remove(game_id) {
                    actions.push(CountdownAction::Interrupt { game_id, ticket });
                    actions.push(
                        CountdownAction::Send { game_id, event: GameEvent::CountdownCancelled },
                    );
                }
            },
        }
        actions
    }

    /// Takes the report that the timer of the game with `ticket` has elapsed.
    /// If its countdown is pending, it is forgotten and the turn is to be
    /// ended; if not, nothing happens.
    pub fn on_elapsed(&mut self, game_id: GameId, ticket: u64) -> (fire: bool)
        ensures
            fire == old(self)@.is_live(game_id.0, ticket),
            final(self)@ == old(self)@.elapsed(game_id.0, ticket),
            old(self)@.wf() ==> final(self)@.wf(),
    {
        let live = match self.pending.get(&game_id.0) {
            Some(t) => *t == ticket,
            None => false,
        };
        if live {
            self.pending.remove(&game_id.0);
        }
        proof {
            if old(self)@.wf() {
                assert forall|g: i64| #[trigger] self@.pending.contains_key(g) implies self@.pending[g]
                    < self@.issued by {
                    assert(old(self)@.pending.contains_key(g));
                }
            }
        }
        live
    }
}

/// The commands that follow a selection: none where the selection changed
/// nothing; else a cancel of the pending countdown, and a start of a new one
/// where every player is ready now.
pub fn after_selection(game_id: GameId, game: &Game, events: &Vec<GameEvent>) -> (commands: Vec<
    Countdown,
>)
    ensures
        commands@.len() == if events@.len() == 0 {
            0nat
        } else if game@.ready() {
            2nat
        } else {
            1nat
        },
        commands@.len() >= 1 ==> commands@[0] == (Countdown::Cancel { game_id }),
        commands@.len() == 2 ==> (commands@[1] matches Countdown::Start { game_id: g, duration: d }
            && g == game_id && duration_millis(d) == COUNTDOWN_MS),
{
    let mut commands: Vec<Countdown> = Vec::new();
    if !events.is_empty() {
        commands.push(Countdown::Cancel { game_id });
        if game.ready_to_end_turn() {
            let duration = duration_from_millis(COUNTDOWN_MS);
            commands.push(Countdown::Start { game_id, duration });
        }
    }
    commands
}

} // verus!
