//! The wire format of the events: each event goes out as a frame of two
//! lines, its name and its payload as JSON, and an empty line.

use crate::scoring::lists;
use crate::types::{duration_as_millis, duration_millis, GameEvent, RoundOver};
use std::collections::HashMap;
use vstd::prelude::*;
use vstd::string::StringExecFns;

verus! {

/// The error of the JSON serializer.
#[verifier::external_type_specification]
#[verifier::external_body]
pub struct ExJsonError(serde_json::Error);

/// Why an event could not be put on the wire.
#[derive(Debug)]
pub enum SerializeError {
    /// The JSON serializer failed on the payload.
    Json(serde_json::Error),
}

/// The ten digits.
pub open spec fn digits() -> Seq<char> {
    seq!['0', '1', '2', '3', '4', '5', '6', '7', '8', '9']
}

/// The decimal numeral of a natural number.
pub open spec fn numeral(n: nat) -> Seq<char>
    decreases n,
{
    if n < 10 {
        seq![digits()[n as int]]
    } else {
        numeral(n / 10).push(digits()[(n % 10) as int])
    }
}

/// The decimal numeral of an integer: a minus sign before that of a
/// negative one.
pub open spec fn decimal(n: int) -> Seq<char> {
    if n < 0 {
        seq!['-'] + numeral((-n) as nat)
    } else {
        numeral(n as nat)
    }
}

/// `ToString::to_string` of a `usize`: its decimal numeral.
#[verifier::external_body]
pub(crate) fn number_text(n: usize) -> (text: String)
    ensures
        text@ == numeral(n as nat),
{
    n.to_string()
}

/// One member of the JSON object of a round's points: the number of the
/// player between quotation marks, a colon, and the player's points.
pub open spec fn member_text(player: i64, points: usize) -> Seq<char> {
    "\""@ + decimal(player as int) + "\":"@ + decimal(points as int)
}

/// The members of the JSON object for `entries`, with commas between them.
pub open spec fn members_text(entries: Seq<(i64, usize)>) -> Seq<char>
    decreases entries.len(),
{
    if entries.len() == 0 {
        Seq::empty()
    } else if entries.len() == 1 {
        member_text(entries[0].0, entries[0].1)
    } else {
        members_text(entries.drop_last()) + ","@ + member_text(entries.last().0, entries.last().1)
    }
}

/// Whether `text` is a JSON object of the points: between braces a member
/// for each player, the players in some order and each once.
pub open spec fn is_points_text(points: Map<i64, usize>, text: Seq<char>) -> bool {
    exists|entries: Seq<(i64, usize)>|
        lists(entries, points) && text == "{"@ + #[trigger] members_text(entries) + "}"@
}

/// `serde_json::to_string` of an `i64`: the decimal numeral of the number.
/// The serializer writes the digits into a vector, so it does not fail.
#[verifier::external_body]
fn json_of_i64(n: i64) -> (result: Result<String, serde_json::Error>)
    ensures
        result is Ok,
        result->Ok_0@ == decimal(n as int),
{
    serde_json::to_string(&n)
}

/// `serde_json::to_string` of a `u128`: the decimal numeral of the number.
/// The serializer writes the digits into a vector, so it does not fail.
#[verifier::external_body]
fn json_of_u128(n: u128) -> (result: Result<String, serde_json::Error>)
    ensures
        result is Ok,
        result->Ok_0@ == decimal(n as int),
{
    serde_json::to_string(&n)
}

/// `serde_json::to_string` of a round's points: a JSON object with a member
/// for each player. The serializer accepts a map with numbers as keys and
/// writes each key between quotation marks; it writes into a vector, so it
/// does not fail. In which order the members come depends on the map.
#[verifier::external_body]
fn json_of_points(points: &HashMap<i64, usize>) -> (result: Result<String, serde_json::Error>)
    ensures
        result is Ok,
        is_points_text(points@, result->Ok_0@),
{
    serde_json::to_string(points)
}

/// The name under which an event goes out.
pub open spec fn event_name(event: GameEvent) -> Seq<char> {
    match event {
        GameEvent::CardsSelected(_) => "cardsselected"@,
        GameEvent::CountdownStarted(_) => "countdownstarted"@,
        GameEvent::CountdownCancelled => "countdowncancelled"@,
        GameEvent::TurnOver => "turnover"@,
        GameEvent::RoundOver(_) => "roundover"@,
        GameEvent::GameOver(_) => "gameover"@,
    }
}

/// The frame of an event with the name `name` and the payload `data`.
pub open spec fn framed(name: Seq<char>, data: Seq<char>) -> Seq<char> {
    "event: "@ + name + "\n"@ + "data: "@ + data + "\n\n"@
}

/// The payload of a settled round, given the JSON of its points.
pub open spec fn round_payload(round: usize, points: Seq<char>) -> Seq<char> {
    "{\"round\":"@ + decimal(round as int) + ",\"points\":"@ + points + "}"@
}

/// Whether `data` is a payload of the event: the number of the user who
/// selected or won, the whole milliseconds of the countdown, an empty object
/// where there is nothing to tell, and for a settled round an object of the
/// round's number and the points.
pub open spec fn is_payload(event: GameEvent, data: Seq<char>) -> bool {
    match event {
        GameEvent::CardsSelected(id) => data == decimal(id.0 as int),
        GameEvent::CountdownStarted(d) => data == decimal(duration_millis(d) as int),
        GameEvent::CountdownCancelled => data == "{}"@,
        GameEvent::TurnOver => data == "{}"@,
        GameEvent::RoundOver(r) => exists|points: Seq<char>|
            is_points_text(r.points@, points) && data == #[trigger] round_payload(r.round, points),
        GameEvent::GameOver(winner) => data == decimal(winner.0 as int),
    }
}

/// The name under which the event goes out.
pub fn name_of(event: &GameEvent) -> (name: &'static str)
    ensures
        name@ == event_name(*event),
{
    match event {
        GameEvent::CardsSelected(_) => "cardsselected",
        GameEvent::CountdownStarted(_) => "countdownstarted",
        GameEvent::CountdownCancelled => "countdowncancelled",
        GameEvent::TurnOver => "turnover",
        GameEvent::RoundOver(_) => "roundover",
        GameEvent::GameOver(_) => "gameover",
    }
}

/// Frames an event with the name `name` and the payload `data`.
pub fn frame(name: &str, data: &str) -> (text: String)
    ensures
        text@ == framed(name@, data@),
{
    let mut text = String::from_str("event: ");
    text.append(name);
    text.append("\n");
    text.append("data: ");
    text.append(data);
    text.append("\n\n");
    text
}

/// Puts the payload of a settled round together from the JSON of its parts.
pub fn round_data(round: &str, points: &str) -> (data: String)
    ensures
        data@ == "{\"round\":"@ + round@ + ",\"points\":"@ + points@ + "}"@,
{
    let mut data = String::from_str("{\"round\":");
    data.append(round);
    data.append(",\"points\":");
    data.append(points);
    data.append("}");
    data
}

/// What becomes of the serializer's answer: its text is the payload, and its
/// error is the reason why there is none.
pub fn from_json(made: Result<String, serde_json::Error>) -> (result: Result<
    String,
    SerializeError,
>)
    ensures
        match made {
            Ok(text) => result matches Ok(data) && data@ == text@,
            Err(e) => result matches Err(SerializeError::Json(reason)) && reason == e,
        },
{
    match made {
        Ok(data) => Ok(data),
        Err(e) => Err(SerializeError::Json(e)),
    }
}

/// The payload of the event as JSON: the empty object where there is
/// nothing to tell, and else what the serializer makes of the number of the
/// user, of the whole milliseconds of the countdown, or of the number and the
/// points of the round.
pub fn payload(event: &GameEvent) -> (result: Result<String, SerializeError>)
    ensures
        result matches Ok(data) && is_payload(*event, data@),
{
    let made = match event {
        GameEvent::CardsSelected(id) => json_of_i64(id.0),
        GameEvent::CountdownStarted(d) => json_of_u128(duration_as_millis(d)),
        GameEvent::CountdownCancelled => Ok(String::from_str("{}")),
        GameEvent::TurnOver => Ok(String::from_str("{}")),
        GameEvent::RoundOver(r) => match json_of_u128(r.round as u128) {
            Err(e) => Err(e),
            Ok(round) => match json_of_points(&r.points) {
                Err(e) => Err(e),
                Ok(points) => {
                    let data = round_data(round.as_str(), points.as_str());
                    assert(data@ == round_payload(r.round, points@));
                    Ok(data)
                },
            },
        },
        GameEvent::GameOver(winner) => json_of_i64(winner.0),
    };
    from_json(made)
}

/// Frames the payload of the event, if there is one: with a payload the
/// result is the frame of the event's name and that payload, and without one
/// it is the reason why there is none.
pub fn frame_payload(event: &GameEvent, payload: Result<String, SerializeError>) -> (result: Result<
    String,
    SerializeError,
>)
    ensures
        match payload {
            Ok(data) => result matches Ok(text) && text@ == framed(event_name(*event), data@),
            Err(e) => result == Err::<String, SerializeError>(e),
        },
{
    match payload {
        Err(e) => Err(e),
        Ok(data) => Ok(frame(name_of(event), data.as_str())),
    }
}

/// Puts an event on the wire: its frame, with its name and its payload as
/// JSON.
pub fn serialize(event: &GameEvent) -> (result: Result<String, SerializeError>)
    ensures
        result matches Ok(text) && exists|data: Seq<char>|
            is_payload(*event, data) && text@ == #[trigger] framed(event_name(*event), data),
{
    let made = payload(event);
    let ghost data = made->Ok_0@;
    let result = frame_payload(event, made);
    assert(is_payload(*event, data) && result->Ok_0@ == framed(event_name(*event), data));
    result
}

} // verus!
