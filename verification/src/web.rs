//! What travels between clients and the server, and the lobby in which
//! players gather before a round begins.

use crate::card::Card;
use crate::error::GameError;
use crate::game::{fresh_round, name_views, Game, GameView};
use crate::random::{is_alphanumeric, random_alphanumeric};
use vstd::prelude::*;

verus! {

/// A member of a lobby, known by name.
#[derive(Debug)]
pub struct Player {
    pub name: String,
}

/// A group of players around at most one round.
#[derive(Debug)]
pub struct Lobby {
    pub players: Vec<Player>,
    pub id: String,
    pub current_game: Option<Game>,
    pub hand_size: usize,
}

/// What a client may ask of the server.
pub enum ClientRequest {
    JoinLobby { lobby_id: String, player_name: String },
    CreateLobby { player_name: String, hand_size: usize },
    StartGame { lobby_id: String },
    PlayCard { player_id: String, lobby_id: String, card: Card },
    DrawCard { player_id: String, lobby_id: String },
}

/// What the server answers: the lobby as it stands, and its round once one
/// has begun.
#[derive(Debug)]
pub struct ServerResponse {
    pub game_state: Option<Game>,
    pub lobby: Lobby,
}

/// What a lobby is: its members' names in the order of their arrival, its
/// id, its round if one has begun, and the number of cards dealt to a hand.
pub struct LobbyView {
    pub players: Seq<Seq<char>>,
    pub id: Seq<char>,
    pub current_game: Option<GameView>,
    pub hand_size: nat,
}

/// What a response is.
pub struct ResponseView {
    pub game_state: Option<GameView>,
    pub lobby: LobbyView,
}

/// What a round is, where there is one.
pub open spec fn game_view(game: Option<Game>) -> Option<GameView> {
    match game {
        Some(game) => Some(game@),
        None => None,
    }
}

impl View for Player {
    type V = Seq<char>;

    open spec fn view(&self) -> Seq<char> {
        self.name@
    }
}

impl View for Lobby {
    type V = LobbyView;

    open spec fn view(&self) -> LobbyView {
        LobbyView {
            players: self.players@.map_values(|p: Player| p@),
            id: self.id@,
            current_game: game_view(self.current_game),
            hand_size: self.hand_size as nat,
        }
    }
}

impl View for ServerResponse {
    type V = ResponseView;

    open spec fn view(&self) -> ResponseView {
        ResponseView { game_state: game_view(self.game_state), lobby: self.lobby@ }
    }
}

impl LobbyView {
    /// The lobby as its first member opens it.
    pub open spec fn opened(first_player: Seq<char>, hand_size: nat, id: Seq<char>) -> LobbyView {
        LobbyView { players: seq![first_player], id, current_game: None, hand_size }
    }

    /// The lobby after one more player has joined.
    pub open spec fn joined(self, player: Seq<char>) -> LobbyView {
        LobbyView { players: self.players.push(player), ..self }
    }

    /// The lobby after all of `players` have joined, one after the other.
    pub open spec fn joined_all(self, players: Seq<Seq<char>>) -> LobbyView
        decreases players.len(),
    {
        if players.len() == 0 {
            self
        } else {
            self.joined_all(players.drop_last()).joined(players.last())
        }
    }

    /// The lobby with the given round as its own.
    pub open spec fn started(self, game: GameView) -> LobbyView {
        LobbyView { current_game: Some(game), ..self }
    }

    /// Whether the standard deck cannot serve this lobby's members: the
    /// hands and the first card of the pile need more than fifty-two cards.
    pub open spec fn deck_too_small(self) -> bool {
        self.hand_size * self.players.len() + 1 > 52
    }

    /// Whether the lobby's round, if it has one, is in good order.
    pub open spec fn round_in_order(self) -> bool {
        self.current_game matches Some(game) ==> game.wf()
    }

    /// The answer that shows this lobby.
    pub open spec fn snapshot(self) -> ResponseView {
        ResponseView { game_state: self.current_game, lobby: self }
    }
}

/// Whether a character is an ASCII letter or digit.
pub open spec fn is_alphanumeric_char(c: char) -> bool {
    c as u32 <= 0x7f && is_alphanumeric(c as u8)
}

/// Whether every character is an ASCII letter or digit.
pub open spec fn all_alphanumeric(text: Seq<char>) -> bool {
    forall|i: int| 0 <= i < text.len() ==> is_alphanumeric_char(#[trigger] text[i])
}

/// No join is lost: after a number of players have joined one after the
/// other, the members are those before, followed by every one who joined,
/// and nothing else about the lobby has changed.
pub proof fn lemma_joins_are_kept(lobby: LobbyView, players: Seq<Seq<char>>)
    ensures
        lobby.joined_all(players) == (LobbyView { players: lobby.players + players, ..lobby }),
        lobby.joined_all(players).players.len() == lobby.players.len() + players.len(),
    decreases players.len(),
{
    if players.len() > 0 {
        lemma_joins_are_kept(lobby, players.drop_last());
        assert((lobby.players + players.drop_last()).push(players.last()) == lobby.players
            + players);
    }
}

/// The order in which players join decides the order of the members and
/// nothing else: two orders of the same joins leave the same members.
pub proof fn lemma_join_order(lobby: LobbyView, one: Seq<Seq<char>>, other: Seq<Seq<char>>)
    requires
        one.to_multiset() == other.to_multiset(),
    ensures
        lobby.joined_all(one).players.to_multiset() == lobby.joined_all(
            other,
        ).players.to_multiset(),
        lobby.joined_all(one).players.len() == lobby.joined_all(other).players.len(),
{
    broadcast use vstd::seq_lib::group_to_multiset_ensures;

    lemma_joins_are_kept(lobby, one);
    lemma_joins_are_kept(lobby, other);
    vstd::seq_lib::lemma_multiset_commutative(lobby.players, one);
    vstd::seq_lib::lemma_multiset_commutative(lobby.players, other);
    assert(one.len() == one.to_multiset().len());
}

impl Player {
    pub fn new(name: String) -> (player: Player)
        ensures
            player.name == name,
    {
        Player { name }
    }
}

impl Clone for Player {
    fn clone(&self) -> (copy: Player)
        ensures
            copy@ == self@,
    {
        Player { name: self.name.clone() }
    }
}

impl Lobby {
    /// Opens a lobby with its first member. No round has begun.
    pub fn new(first_player: Player, hand_size: usize, id: String) -> (lobby: Lobby)
        ensures
            lobby@ == LobbyView::opened(first_player@, hand_size as nat, id@),
    {
        let mut players: Vec<Player> = Vec::new();
        players.push(first_player);
        let lobby = Lobby { players, current_game: None, id, hand_size };
        assert(lobby@.players == seq![first_player@]);
        lobby
    }

    /// Adds a member, whether or not the round has begun. Who joins late
    /// gets no cards.
    pub fn join(&mut self, player: Player)
        ensures
            final(self)@ == old(self)@.joined(player@),
            final(self).current_game == old(self).current_game,
            final(self).id == old(self).id,
    {
        self.players.push(player);
        assert(self@.players == old(self)@.players.push(player@));
    }

    /// Begins the lobby's round with its present members. Fails, and leaves
    /// the lobby as it was, where a round has begun before or where the
    /// standard deck is too small for the members' hands.
    pub fn start_game(&mut self) -> (result: Result<(), GameError>)
        ensures
            match result {
                Ok(_) => {
                    &&& old(self)@.current_game is None
                    &&& !old(self)@.deck_too_small()
                    &&& final(self)@.current_game matches Some(game)
                    &&& final(self)@ == old(self)@.started(game)
                    &&& fresh_round(game, old(self)@.hand_size, old(self)@.players)
                    &&& game.wf()
                },
                Err(error) => {
                    &&& *final(self) == *old(self)
                    &&& if old(self)@.current_game is Some {
                        error == GameError::LobbyAlreadyStarted
                    } else {
                        error == GameError::InsufficientDeck && old(self)@.deck_too_small()
                    }
                },
            },
            final(self).id == old(self).id,
    {
        if self.current_game.is_some() {
            return Err(GameError::LobbyAlreadyStarted);
        }
        let mut names: Vec<&str> = Vec::new();
        let mut i: usize = 0;
        while i < self.players.len()
            invariant
                i <= self.players@.len(),
                names@.len() == i,
                forall|k: int| 0 <= k < i ==> (#[trigger] names@[k])@ == self.players@[k]@,
            decreases self.players@.len() - i,
        {
            names.push(self.players[i].name.as_str());
            i += 1;
        }
        assert(name_views(names@) == self@.players);
        match Game::new(self.hand_size, names) {
            Ok(game) => {
                self.current_game = Some(game);
                Ok(())
            },
            Err(error) => Err(error),
        }
    }

    /// A copy of the lobby and of its round, to answer a request with.
    pub fn snapshot(&self) -> (response: ServerResponse)
        ensures
            response@ == self@.snapshot(),
    {
        let game_state = match &self.current_game {
            Some(game) => Some(game.clone()),
            None => None,
        };
        ServerResponse::new(game_state, self.clone())
    }
}

impl Clone for Lobby {
    fn clone(&self) -> (copy: Lobby)
        ensures
            copy@ == self@,
    {
        let mut players: Vec<Player> = Vec::new();
        let mut i: usize = 0;
        while i < self.players.len()
            invariant
                i <= self.players@.len(),
                players@.len() == i,
                forall|k: int| 0 <= k < i ==> (#[trigger] players@[k])@ == self.players@[k]@,
            decreases self.players@.len() - i,
        {
            players.push(self.players[i].clone());
            i += 1;
        }
        let current_game = match &self.current_game {
            Some(game) => Some(game.clone()),
            None => None,
        };
        let copy = Lobby { players, id: self.id.clone(), current_game, hand_size: self.hand_size };
        assert(copy@.players == self@.players);
        copy
    }
}

impl ServerResponse {
    pub fn new(game_state: Option<Game>, lobby: Lobby) -> (response: ServerResponse)
        ensures
            response.game_state == game_state,
            response.lobby == lobby,
    {
        ServerResponse { game_state, lobby }
    }
}

/// Appends one character with `String::push`.
///
/// Trusted: the text afterwards is the text before, followed by the
/// character.
#[verifier::external_body]
fn push_char(text: &mut String, c: char)
    ensures
        final(text)@ == old(text)@.push(c),
{
    text.push(c);
}

/// A random string of `len` ASCII letters and digits.
pub fn random_string(len: usize) -> (text: String)
    ensures
        text@.len() == len,
        all_alphanumeric(text@),
{
    let mut text = String::new();
    let mut i: usize = 0;
    while i < len
        invariant
            i <= len,
            text@.len() == i,
            all_alphanumeric(text@),
        decreases len - i,
    {
        let byte = random_alphanumeric();
        push_char(&mut text, byte as char);
        i += 1;
    }
    text
}

} // verus!
