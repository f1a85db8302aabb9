//! The ways in which a request can fail.

use vstd::prelude::*;
use vstd::string::StringExecFns;

verus! {

/// Why a request was not carried out.
#[derive(Clone, Copy, Debug, PartialEq, Eq, Structural)]
pub enum GameError {
    /// The card shares neither suit nor rank with the top of the pile.
    InvalidPlay,
    /// No player of that name sits in the game.
    PlayerNotFound,
    /// No lobby has that id.
    LobbyNotFound,
    /// The lobby's game has already begun.
    LobbyAlreadyStarted,
    /// The deck is too small to deal every hand and seed the pile.
    InsufficientDeck,
    /// The payload could not be decoded into a request.
    MalformedRequest,
    /// The message was not text.
    UnsupportedMessage,
}

/// The sentence that describes an error.
pub open spec fn error_message(error: GameError) -> Seq<char> {
    match error {
        GameError::InvalidPlay => "Invalid card played"@,
        GameError::PlayerNotFound => "Could not find player by given name"@,
        GameError::LobbyNotFound => "Could not find lobby by given id"@,
        GameError::LobbyAlreadyStarted => "Lobby has already started its game"@,
        GameError::InsufficientDeck => "Handsize x number of players exceeds deck size"@,
        GameError::MalformedRequest => "Request could not be decoded"@,
        GameError::UnsupportedMessage => "Non-string messages not supported"@,
    }
}

/// Whether an error ends the connection on which it arose. The others are
/// reported to the requester, whose connection stays open.
pub open spec fn connection_fatal(error: GameError) -> bool {
    error == GameError::MalformedRequest || error == GameError::UnsupportedMessage
}

impl GameError {
    /// The sentence that describes this error.
    pub fn message(&self) -> (text: String)
        ensures
            text@ == error_message(*self),
    {
        match self {
            GameError::InvalidPlay => String::from_str("Invalid card played"),
            GameError::PlayerNotFound => String::from_str("Could not find player by given name"),
            GameError::LobbyNotFound => String::from_str("Could not find lobby by given id"),
            GameError::LobbyAlreadyStarted => String::from_str(
                "Lobby has already started its game",
            ),
            GameError::InsufficientDeck => String::from_str(
                "Handsize x number of players exceeds deck size",
            ),
            GameError::MalformedRequest => String::from_str("Request could not be decoded"),
            GameError::UnsupportedMessage => String::from_str("Non-string messages not supported"),
        }
    }

    /// Whether this error ends the connection on which it arose.
    pub fn is_fatal(&self) -> (fatal: bool)
        ensures
            fatal == connection_fatal(*self),
    {
        match self {
            GameError::MalformedRequest => true,
            GameError::UnsupportedMessage => true,
            _ => false,
        }
    }
}

} // verus!
