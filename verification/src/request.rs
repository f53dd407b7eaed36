//! What a request has to pass before it reaches a game: the bearer of a
//! token is read from the authorization header, and the users of a new game
//! take their seats one by one, each with a name and none twice.

use crate::create::set_order;
use crate::types::UserId;
use linked_hash_set::LinkedHashSet;
use vstd::prelude::*;
use vstd::string::StringExecFns;

verus! {

/// Why a user was not seated.
#[derive(Clone, Debug, PartialEq, Eq)]
pub enum SeatError {
    /// The name is empty but for whitespace.
    MissingName,
    /// The user of this name has a seat already.
    AlreadySeated(String),
}

impl SeatError {
    /// What the error tells the user.
    pub open spec fn text(self) -> Seq<char> {
        match self {
            SeatError::MissingName => "Missing opponent name"@,
            SeatError::AlreadySeated(name) => "Player '"@ + name@ + "' is already in the game"@,
        }
    }

    /// What the error tells the user.
    pub fn message(&self) -> (message: String)
        ensures
            message@ == self.text(),
    {
        match self {
            SeatError::MissingName => String::from_str("Missing opponent name"),
            SeatError::AlreadySeated(name) => {
                let mut message = String::from_str("Player '");
                message.append(name.as_str());
                message.append("' is already in the game");
                message
            },
        }
    }
}

/// The text without the whitespace at its ends.
pub uninterp spec fn trimmed(text: Seq<char>) -> Seq<char>;

/// `str::trim`: the text without the whitespace at its ends.
#[verifier::external_body]
fn trim(text: &str) -> (rest: &str)
    ensures
        rest@ == trimmed(text@),
{
    text.trim()
}

/// The words of the text: what whitespace separates.
pub uninterp spec fn words_of(text: Seq<char>) -> Seq<Seq<char>>;

/// `str::split_whitespace`, collected: the words of the text in their order.
#[verifier::external_body]
fn split_words(text: &str) -> (words: Vec<&str>)
    ensures
        words@.len() == words_of(text@).len(),
        forall|i: int| 0 <= i < words@.len() ==> (#[trigger] words@[i])@ == words_of(text@)[i],
{
    text.split_whitespace().collect()
}

/// `LinkedHashSet::new`: a set without items.
#[verifier::external_body]
fn no_users() -> (user_ids: LinkedHashSet<UserId>)
    ensures
        set_order(user_ids) == Seq::<UserId>::empty(),
{
    LinkedHashSet::new()
}

/// `LinkedHashSet::insert`: whether the set did not hold the user. Either
/// way the user is the last of the set afterwards, and the others keep their
/// order.
#[verifier::external_body]
fn insert_user(user_ids: &mut LinkedHashSet<UserId>, user_id: UserId) -> (added: bool)
    ensures
        added == !set_order(*old(user_ids)).contains(user_id),
        set_order(*final(user_ids)) == if added {
            set_order(*old(user_ids)).push(user_id)
        } else {
            set_order(*old(user_ids)).remove_value(user_id).push(user_id)
        },
{
    user_ids.insert(user_id)
}

/// The token that the words of an authorization header carry: the second of
/// two words of which the first is `Bearer`.
pub open spec fn bearer(words: Seq<Seq<char>>) -> Option<Seq<char>> {
    if words.len() == 2 && words[0] == "Bearer"@ {
        Some(words[1])
    } else {
        None
    }
}

/// The token that the words of an authorization header carry.
pub fn bearer_of(words: &Vec<&str>) -> (token: Option<String>)
    ensures
        match token {
            Some(t) => bearer(words@.map_values(|w: &str| w@)) == Some(t@),
            None => bearer(words@.map_values(|w: &str| w@)) is None,
        },
{
    if words.len() != 2 {
        return None;
    }
    let scheme = words[0].to_owned();
    let expected = String::from_str("Bearer");
    if scheme == expected {
        Some(words[1].to_owned())
    } else {
        None
    }
}

/// The token that an authorization header carries.
pub fn bearer_token(header: &str) -> (token: Option<String>)
    ensures
        match token {
            Some(t) => bearer(words_of(header@)) == Some(t@),
            None => bearer(words_of(header@)) is None,
        },
{
    let words = split_words(header);
    bearer_of(&words)
}

/// A name as it is after trimming, unless nothing is left of it.
pub fn checked_name(name: &str) -> (result: Result<&str, SeatError>)
    ensures
        match result {
            Ok(checked) => checked@ == name@ && name@.len() > 0,
            Err(e) => e == SeatError::MissingName && name@.len() == 0,
        },
{
    if name.unicode_len() == 0 {
        Err(SeatError::MissingName)
    } else {
        Ok(name)
    }
}

/// The name of an opponent: what was sent without the whitespace at its
/// ends, unless that is nothing.
pub fn opponent_name(raw: &str) -> (result: Result<&str, SeatError>)
    ensures
        match result {
            Ok(name) => name@ == trimmed(raw@) && name@.len() > 0,
            Err(e) => e == SeatError::MissingName && trimmed(raw@).len() == 0,
        },
{
    checked_name(trim(raw))
}

/// The seats of a new game: the user who creates it has the first.
pub fn seats_for(creator: UserId) -> (user_ids: LinkedHashSet<UserId>)
    ensures
        set_order(user_ids) == seq![creator],
{
    let mut user_ids = no_users();
    insert_user(&mut user_ids, creator);
    user_ids
}

/// Seats the opponent `user_id` of the name `name` behind those who sit,
/// unless the user has a seat already.
pub fn seat_opponent(user_ids: &mut LinkedHashSet<UserId>, name: &str, user_id: UserId) -> (result:
    Result<(), SeatError>)
    ensures
        match result {
            Ok(()) => !set_order(*old(user_ids)).contains(user_id) && set_order(*final(user_ids))
                == set_order(*old(user_ids)).push(user_id),
            Err(e) => set_order(*old(user_ids)).contains(user_id) && (e matches SeatError::AlreadySeated(
                n,
            ) && n@ == name@),
        },
{
    if !insert_user(user_ids, user_id) {
        return Err(SeatError::AlreadySeated(name.to_owned()));
    }
    Ok(())
}

} // verus!
