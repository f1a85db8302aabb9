//! The registry of lobbies and the dispatcher that serves requests against
//! it. A request is served as a whole: it sees the registry as the request
//! before it left it.

use crate::card::{stackable, Card};
use crate::error::GameError;
use crate::game::{draw_outcome, fresh_round, play_outcome, seat_of, GameView};
use crate::web::{
    all_alphanumeric, random_string, ClientRequest, Lobby, LobbyView, Player, ResponseView,
    ServerResponse,
};
use vstd::prelude::*;

verus! {

/// All lobbies of the process, each reached by its id.
pub struct Server {
    lobbies: Vec<Lobby>,
}

/// What arrives on a connection.
pub enum Incoming {
    /// A text message that decoded into a request.
    Request(ClientRequest),
    /// A text message that did not.
    Malformed,
    /// A message that is not text.
    NonText,
}

/// What the dispatcher hands back: a response to send, nothing where the
/// request had nothing to act on, or the reason for which it failed.
pub type Answer = Result<Option<ServerResponse>, GameError>;

/// An answer over what the response is.
pub type AnswerView = Result<Option<ResponseView>, GameError>;

/// What an answer is.
pub open spec fn answer_view(answer: Answer) -> AnswerView {
    match answer {
        Ok(Some(response)) => Ok(Some(response@)),
        Ok(None) => Ok(None),
        Err(error) => Err(error),
    }
}

/// What each of the lobbies is, in the order in which they are kept.
pub open spec fn lobby_views(lobbies: Seq<Lobby>) -> Seq<LobbyView> {
    lobbies.map_values(|l: Lobby| l@)
}

/// The ids of the lobbies, in the order in which they are kept.
pub open spec fn lobby_ids(lobbies: Seq<LobbyView>) -> Seq<Seq<char>> {
    lobbies.map_values(|l: LobbyView| l.id)
}

/// The registry that a list of lobbies stands for: an id leads to the first
/// lobby that bears it.
pub open spec fn registry(lobbies: Seq<LobbyView>) -> Map<Seq<char>, LobbyView> {
    Map::new(
        |id: Seq<char>| lobby_ids(lobbies).contains(id),
        |id: Seq<char>| lobbies[lobby_ids(lobbies).index_of_first(id).unwrap()],
    )
}

/// Whether every round in the registry is in good order.
pub open spec fn rounds_in_order(lobbies: Map<Seq<char>, LobbyView>) -> bool {
    forall|id: Seq<char>| lobbies.contains_key(id) ==> (#[trigger] lobbies[id]).round_in_order()
}

/// What a draw returned, read off the round before and after it.
pub open spec fn drawn(pre: GameView, post: GameView, name: Seq<char>) -> Result<
    Option<Card>,
    GameError,
> {
    if pre.exhausted() {
        Ok(None)
    } else {
        match seat_of(pre.players, name) {
            Some(seat) => Ok(Some(post.players[seat].hand.last())),
            None => Err(GameError::PlayerNotFound),
        }
    }
}

/// How a request to join is served.
pub open spec fn join_served(
    pre: Map<Seq<char>, LobbyView>,
    post: Map<Seq<char>, LobbyView>,
    lobby_id: Seq<char>,
    player_name: Seq<char>,
    answer: AnswerView,
) -> bool {
    if !pre.contains_key(lobby_id) {
        answer == Err::<Option<ResponseView>, GameError>(GameError::LobbyNotFound) && post == pre
    } else {
        let lobby = pre[lobby_id].joined(player_name);
        &&& post == pre.insert(lobby_id, lobby)
        &&& answer == Ok::<Option<ResponseView>, GameError>(Some(lobby.snapshot()))
    }
}

/// How a lobby opened under the given id enters the registry. A lobby that
/// bore the id before gives way to it.
pub open spec fn create_served(
    pre: Map<Seq<char>, LobbyView>,
    post: Map<Seq<char>, LobbyView>,
    player_name: Seq<char>,
    hand_size: nat,
    id: Seq<char>,
    answer: AnswerView,
) -> bool {
    let lobby = LobbyView::opened(player_name, hand_size, id);
    &&& post == pre.insert(id, lobby)
    &&& answer == Ok::<Option<ResponseView>, GameError>(Some(lobby.snapshot()))
}

/// How a request to start a round is served.
pub open spec fn start_served(
    pre: Map<Seq<char>, LobbyView>,
    post: Map<Seq<char>, LobbyView>,
    lobby_id: Seq<char>,
    answer: AnswerView,
) -> bool {
    if !pre.contains_key(lobby_id) {
        answer == Err::<Option<ResponseView>, GameError>(GameError::LobbyNotFound) && post == pre
    } else if pre[lobby_id].current_game is Some {
        &&& answer == Err::<Option<ResponseView>, GameError>(GameError::LobbyAlreadyStarted)
        &&& post == pre
    } else if pre[lobby_id].deck_too_small() {
        &&& answer == Err::<Option<ResponseView>, GameError>(GameError::InsufficientDeck)
        &&& post == pre
    } else {
        let lobby = pre[lobby_id];
        &&& post.contains_key(lobby_id)
        &&& post[lobby_id].current_game matches Some(game)
        &&& fresh_round(game, lobby.hand_size, lobby.players)
        &&& game.wf()
        &&& post == pre.insert(lobby_id, lobby.started(game))
        &&& answer == Ok::<Option<ResponseView>, GameError>(Some(lobby.started(game).snapshot()))
    }
}

/// How a request to play a card is served.
pub open spec fn play_served(
    pre: Map<Seq<char>, LobbyView>,
    post: Map<Seq<char>, LobbyView>,
    lobby_id: Seq<char>,
    player_id: Seq<char>,
    card: Card,
    answer: AnswerView,
) -> bool {
    if !pre.contains_key(lobby_id) {
        answer == Err::<Option<ResponseView>, GameError>(GameError::LobbyNotFound) && post == pre
    } else {
        let lobby = pre[lobby_id];
        match lobby.current_game {
            None => answer == Ok::<Option<ResponseView>, GameError>(None) && post == pre,
            Some(game) => {
                if !stackable(card, game.top()) {
                    &&& answer == Err::<Option<ResponseView>, GameError>(GameError::InvalidPlay)
                    &&& post == pre
                } else {
                    match seat_of(game.players, player_id) {
                        None => {
                            &&& answer == Err::<Option<ResponseView>, GameError>(
                                GameError::PlayerNotFound,
                            )
                            &&& post == pre
                        },
                        Some(seat) => {
                            &&& post.contains_key(lobby_id)
                            &&& post[lobby_id].current_game matches Some(after)
                            &&& play_outcome(game, after, card, seat)
                            &&& post == pre.insert(lobby_id, lobby.started(after))
                            &&& answer == Ok::<Option<ResponseView>, GameError>(
                                Some(lobby.started(after).snapshot()),
                            )
                        },
                    }
                }
            },
        }
    }
}

/// How a request to draw a card is served. Where the round cannot serve the
/// draw, the answer shows the lobby as it stands.
pub open spec fn draw_served(
    pre: Map<Seq<char>, LobbyView>,
    post: Map<Seq<char>, LobbyView>,
    lobby_id: Seq<char>,
    player_id: Seq<char>,
    answer: AnswerView,
) -> bool {
    if !pre.contains_key(lobby_id) {
        answer == Err::<Option<ResponseView>, GameError>(GameError::LobbyNotFound) && post == pre
    } else {
        let lobby = pre[lobby_id];
        match lobby.current_game {
            None => answer == Ok::<Option<ResponseView>, GameError>(None) && post == pre,
            Some(game) => {
                if game.draw_blocked(player_id) {
                    &&& answer == Ok::<Option<ResponseView>, GameError>(Some(lobby.snapshot()))
                    &&& post == pre
                } else {
                    &&& post.contains_key(lobby_id)
                    &&& post[lobby_id].current_game matches Some(after)
                    &&& draw_outcome(game, after, player_id, drawn(game, after, player_id))
                    &&& post == pre.insert(lobby_id, lobby.started(after))
                    &&& answer == match drawn(game, after, player_id) {
                        Ok(_) => Ok::<Option<ResponseView>, GameError>(
                            Some(lobby.started(after).snapshot()),
                        ),
                        Err(error) => Err(error),
                    }
                }
            },
        }
    }
}

/// How a request is served. A new lobby's id is chosen by chance: five
/// ASCII letters and digits.
pub open spec fn served(
    pre: Map<Seq<char>, LobbyView>,
    post: Map<Seq<char>, LobbyView>,
    request: ClientRequest,
    answer: AnswerView,
) -> bool {
    match request {
        ClientRequest::JoinLobby { lobby_id, player_name } => join_served(
            pre,
            post,
            lobby_id@,
            player_name@,
            answer,
        ),
        ClientRequest::CreateLobby { player_name, hand_size } => {
            &&& answer matches Ok(Some(response))
            &&& response.lobby.id.len() == 5
            &&& all_alphanumeric(response.lobby.id)
            &&& create_served(
                pre,
                post,
                player_name@,
                hand_size as nat,
                response.lobby.id,
                answer,
            )
        },
        ClientRequest::StartGame { lobby_id } => start_served(pre, post, lobby_id@, answer),
        ClientRequest::PlayCard { player_id, lobby_id, card } => play_served(
            pre,
            post,
            lobby_id@,
            player_id@,
            card,
            answer,
        ),
        ClientRequest::DrawCard { player_id, lobby_id } => draw_served(
            pre,
            post,
            lobby_id@,
            player_id@,
            answer,
        ),
    }
}

/// How a message is served: what is not a request ends the connection and
/// changes nothing.
pub open spec fn message_served(
    pre: Map<Seq<char>, LobbyView>,
    post: Map<Seq<char>, LobbyView>,
    message: Incoming,
    answer: AnswerView,
) -> bool {
    match message {
        Incoming::Request(request) => served(pre, post, request, answer),
        Incoming::Malformed => {
            &&& answer == Err::<Option<ResponseView>, GameError>(GameError::MalformedRequest)
            &&& post == pre
        },
        Incoming::NonText => {
            &&& answer == Err::<Option<ResponseView>, GameError>(GameError::UnsupportedMessage)
            &&& post == pre
        },
    }
}

/// Putting a lobby in the place of the first lobby that bears its id puts it
/// under that id in the registry.
proof fn lemma_registry_update(lobbies: Seq<LobbyView>, place: int, lobby: LobbyView)
    requires
        lobby_ids(lobbies).index_of_first(lobby.id) == Some(place),
    ensures
        0 <= place < lobbies.len(),
        registry(lobbies.update(place, lobby)) == registry(lobbies).insert(lobby.id, lobby),
{
    let ids = lobby_ids(lobbies);
    let after = lobbies.update(place, lobby);
    ids.index_of_first_ensures(lobby.id);
    assert(lobby_ids(after) == ids);
    assert forall|id: Seq<char>| ids.contains(id) implies #[trigger] registry(after)[id]
        == registry(lobbies).insert(lobby.id, lobby)[id] by {
        ids.index_of_first_ensures(id);
    }
}

/// Adding a lobby whose id no lobby bears puts it under that id in the
/// registry.
proof fn lemma_registry_push(lobbies: Seq<LobbyView>, lobby: LobbyView)
    requires
        !lobby_ids(lobbies).contains(lobby.id),
    ensures
        registry(lobbies.push(lobby)) == registry(lobbies).insert(lobby.id, lobby),
{
    let ids = lobby_ids(lobbies);
    let after = lobbies.push(lobby);
    let ids_after = lobby_ids(after);
    assert(ids_after == ids.push(lobby.id));
    assert(ids_after[ids.len() as int] == lobby.id);
    assert forall|id: Seq<char>| ids_after.contains(id) <==> (ids.contains(id) || id
        == lobby.id) by {
        if ids.contains(id) {
            let k = choose|k: int| 0 <= k < ids.len() && ids[k] == id;
            assert(ids_after[k] == id);
        }
    }
    assert forall|id: Seq<char>| ids_after.contains(id) implies #[trigger] registry(after)[id]
        == registry(lobbies).insert(lobby.id, lobby)[id] by {
        ids_after.index_of_first_ensures(id);
        ids.index_of_first_ensures(id);
        if id != lobby.id {
            let before = ids.index_of_first(id).unwrap();
            assert(ids_after[before] == id);
        }
    }
}

/// Where every lobby's round is in good order, so is every round in the
/// registry.
proof fn lemma_registry_rounds(lobbies: Seq<LobbyView>)
    requires
        forall|i: int| 0 <= i < lobbies.len() ==> (#[trigger] lobbies[i]).round_in_order(),
    ensures
        rounds_in_order(registry(lobbies)),
{
    assert forall|id: Seq<char>| registry(lobbies).contains_key(id) implies (#[trigger] registry(
        lobbies,
    )[id]).round_in_order() by {
        lobby_ids(lobbies).index_of_first_ensures(id);
    }
}

impl View for Server {
    type V = Map<Seq<char>, LobbyView>;

    closed spec fn view(&self) -> Map<Seq<char>, LobbyView> {
        registry(lobby_views(self.lobbies@))
    }
}

impl Server {
    /// A registry in good order: so is the round of every lobby it keeps.
    pub closed spec fn wf(&self) -> bool {
        forall|i: int|
            0 <= i < self.lobbies@.len() ==> (#[trigger] self.lobbies@[i])@.round_in_order()
    }

    /// In a registry in good order every round that an id leads to is in
    /// good order.
    pub proof fn lemma_rounds_in_order(&self)
        requires
            self.wf(),
        ensures
            rounds_in_order(self@),
    {
        lemma_registry_rounds(lobby_views(self.lobbies@));
    }

    /// A registry without lobbies.
    pub fn new() -> (server: Server)
        ensures
            server@ == Map::<Seq<char>, LobbyView>::empty(),
            server.wf(),
    {
        Server { lobbies: Vec::new() }
    }

    /// Where the first lobby that bears the id is kept.
    fn position(&self, lobby_id: &str) -> (place: Option<usize>)
        ensures
            match place {
                Some(i) => {
                    &&& i < self.lobbies@.len()
                    &&& lobby_ids(lobby_views(self.lobbies@)).index_of_first(lobby_id@) == Some(
                        i as int,
                    )
                    &&& self.lobbies@[i as int]@.id == lobby_id@
                    &&& self@.contains_key(lobby_id@)
                    &&& self@[lobby_id@] == self.lobbies@[i as int]@
                },
                None => !self@.contains_key(lobby_id@),
            },
    {
        let ghost ids = lobby_ids(lobby_views(self.lobbies@));
        let wanted = lobby_id.to_owned();
        let mut i: usize = 0;
        while i < self.lobbies.len()
            invariant
                i <= self.lobbies@.len(),
                wanted@ == lobby_id@,
                ids == lobby_ids(lobby_views(self.lobbies@)),
                forall|j: int| 0 <= j < i ==> ids[j] != lobby_id@,
            decreases self.lobbies@.len() - i,
        {
            if self.lobbies[i].id == wanted {
                proof {
                    assert(ids[i as int] == lobby_id@);
                    ids.index_of_first_ensures(lobby_id@);
                }
                return Some(i);
            }
            i += 1;
        }
        None
    }

    /// The lobby that bears the id, if there is one.
    pub fn get(&self, lobby_id: &str) -> (lobby: Option<&Lobby>)
        ensures
            match lobby {
                Some(lobby) => self@.contains_key(lobby_id@) && lobby@ == self@[lobby_id@],
                None => !self@.contains_key(lobby_id@),
            },
    {
        match self.position(lobby_id) {
            Some(i) => Some(&self.lobbies[i]),
            None => None,
        }
    }

    /// Keeps the lobby under its id, in the place of a lobby that bore the
    /// id before, and says where.
    fn put(&mut self, lobby: Lobby) -> (place: usize)
        requires
            old(self).wf(),
            lobby@.round_in_order(),
        ensures
            final(self).wf(),
            final(self)@ == old(self)@.insert(lobby@.id, lobby@),
            place < final(self).lobbies@.len(),
            final(self).lobbies@[place as int]@ == lobby@,
    {
        let ghost before = lobby_views(self.lobbies@);
        match self.position(lobby.id.as_str()) {
            Some(i) => {
                self.lobbies[i] = lobby;
                proof {
                    lemma_registry_update(before, i as int, lobby@);
                    assert(lobby_views(self.lobbies@) == before.update(i as int, lobby@));
                }
                i
            },
            None => {
                let place = self.lobbies.len();
                self.lobbies.push(lobby);
                proof {
                    lemma_registry_push(before, lobby@);
                    assert(lobby_views(self.lobbies@) == before.push(lobby@));
                }
                place
            },
        }
    }

    /// Opens a lobby under the given id, with the named player as its first
    /// member, and answers with it.
    pub fn create_lobby_as(&mut self, player_name: String, hand_size: usize, id: String) -> (answer:
        Answer)
        requires
            old(self).wf(),
        ensures
            create_served(
                old(self)@,
                final(self)@,
                player_name@,
                hand_size as nat,
                id@,
                answer_view(answer),
            ),
            final(self).wf(),
    {
        let lobby = Lobby::new(Player::new(player_name), hand_size, id);
        let place = self.put(lobby);
        Ok(Some(self.lobbies[place].snapshot()))
    }

    /// Opens a lobby under a fresh id of five random letters and digits,
    /// with the named player as its first member, and answers with it.
    pub fn create_lobby(&mut self, player_name: String, hand_size: usize) -> (answer: Answer)
        requires
            old(self).wf(),
        ensures
            answer_view(answer) matches Ok(Some(response)) && response.lobby.id.len() == 5
                && all_alphanumeric(response.lobby.id) && create_served(
                old(self)@,
                final(self)@,
                player_name@,
                hand_size as nat,
                response.lobby.id,
                answer_view(answer),
            ),
            final(self).wf(),
    {
        let id = random_string(5);
        self.create_lobby_as(player_name, hand_size, id)
    }

    /// Adds the named player to the lobby and answers with the lobby.
    pub fn join_lobby(&mut self, lobby_id: &str, player_name: String) -> (answer: Answer)
        requires
            old(self).wf(),
        ensures
            join_served(old(self)@, final(self)@, lobby_id@, player_name@, answer_view(answer)),
            final(self).wf(),
    {
        let ghost before = lobby_views(self.lobbies@);
        match self.position(lobby_id) {
            None => Err(GameError::LobbyNotFound),
            Some(i) => {
                self.lobbies[i].join(Player::new(player_name));
                proof {
                    let lobby = self.lobbies@[i as int]@;
                    assert(lobby_views(self.lobbies@) == before.update(i as int, lobby));
                    lemma_registry_update(before, i as int, lobby);
                }
                Ok(Some(self.lobbies[i].snapshot()))
            },
        }
    }

    /// Begins the lobby's round and answers with lobby and round.
    pub fn start_game(&mut self, lobby_id: &str) -> (answer: Answer)
        requires
            old(self).wf(),
        ensures
            start_served(old(self)@, final(self)@, lobby_id@, answer_view(answer)),
            final(self).wf(),
    {
        let ghost before = lobby_views(self.lobbies@);
        match self.position(lobby_id) {
            None => Err(GameError::LobbyNotFound),
            Some(i) => {
                match self.lobbies[i].start_game() {
                    Err(error) => {
                        assert(self.lobbies@ == old(self).lobbies@);
                        Err(error)
                    },
                    Ok(_) => {
                        proof {
                            let lobby = self.lobbies@[i as int]@;
                            assert(lobby_views(self.lobbies@) == before.update(i as int, lobby));
                            lemma_registry_update(before, i as int, lobby);
                        }
                        Ok(Some(self.lobbies[i].snapshot()))
                    },
                }
            },
        }
    }

    /// Plays the card for the named player in the lobby's round and answers
    /// with lobby and round. A lobby without a round has nothing to act on.
    pub fn play_card(&mut self, lobby_id: &str, player_id: &str, card: Card) -> (answer: Answer)
        requires
            old(self).wf(),
        ensures
            play_served(old(self)@, final(self)@, lobby_id@, player_id@, card, answer_view(answer)),
            final(self).wf(),
    {
        let ghost before = lobby_views(self.lobbies@);
        match self.position(lobby_id) {
            None => Err(GameError::LobbyNotFound),
            Some(i) => {
                if self.lobbies[i].current_game.is_none() {
                    return Ok(None);
                }
                let played = match &mut self.lobbies[i].current_game {
                    Some(game) => game.play_card(card, player_id),
                    None => Ok(()),
                };
                match played {
                    Err(error) => {
                        assert(self.lobbies@ == old(self).lobbies@);
                        Err(error)
                    },
                    Ok(_) => {
                        proof {
                            let lobby = self.lobbies@[i as int]@;
                            assert(lobby_views(self.lobbies@) == before.update(i as int, lobby));
                            lemma_registry_update(before, i as int, lobby);
                        }
                        Ok(Some(self.lobbies[i].snapshot()))
                    },
                }
            },
        }
    }

    /// Draws a card for the named player in the lobby's round and answers
    /// with lobby and round. A lobby without a round has nothing to act on;
    /// a round that cannot serve the draw is left as it stands.
    pub fn draw_card(&mut self, lobby_id: &str, player_id: &str) -> (answer: Answer)
        requires
            old(self).wf(),
        ensures
            draw_served(old(self)@, final(self)@, lobby_id@, player_id@, answer_view(answer)),
            final(self).wf(),
    {
        let ghost before = lobby_views(self.lobbies@);
        match self.position(lobby_id) {
            None => Err(GameError::LobbyNotFound),
            Some(i) => {
                if self.lobbies[i].current_game.is_none() {
                    return Ok(None);
                }
                let taken = match &mut self.lobbies[i].current_game {
                    Some(game) => {
                        if game.can_draw(player_id) {
                            Some(game.draw_card(player_id))
                        } else {
                            None
                        }
                    },
                    None => None,
                };
                proof {
                    let lobby = self.lobbies@[i as int]@;
                    let game = before[i as int].current_game->0;
                    assert(lobby_views(self.lobbies@) == before.update(i as int, lobby));
                    lemma_registry_update(before, i as int, lobby);
                    crate::game::lemma_seat_of(game.players, player_id@);
                    if taken is None {
                        assert(self.lobbies@ == old(self).lobbies@);
                    }
                }
                match taken {
                    Some(Err(error)) => Err(error),
                    _ => Ok(Some(self.lobbies[i].snapshot())),
                }
            },
        }
    }

    /// Serves one request.
    pub fn handle_request(&mut self, request: ClientRequest) -> (answer: Answer)
        requires
            old(self).wf(),
        ensures
            served(old(self)@, final(self)@, request, answer_view(answer)),
            final(self).wf(),
    {
        match request {
            ClientRequest::JoinLobby { lobby_id, player_name } => self.join_lobby(
                lobby_id.as_str(),
                player_name,
            ),
            ClientRequest::CreateLobby { player_name, hand_size } => self.create_lobby(
                player_name,
                hand_size,
            ),
            ClientRequest::StartGame { lobby_id } => self.start_game(lobby_id.as_str()),
            ClientRequest::PlayCard { player_id, lobby_id, card } => self.play_card(
                lobby_id.as_str(),
                player_id.as_str(),
                card,
            ),
            ClientRequest::DrawCard { player_id, lobby_id } => self.draw_card(
                lobby_id.as_str(),
                player_id.as_str(),
            ),
        }
    }

    /// Serves one message of a connection. The answer is an error that ends
    /// the connection exactly where the message was no request.
    pub fn handle_message(&mut self, message: Incoming) -> (answer: Answer)
        requires
            old(self).wf(),
        ensures
            message_served(old(self)@, final(self)@, message, answer_view(answer)),
            final(self).wf(),
    {
        match message {
            Incoming::Request(request) => self.handle_request(request),
            Incoming::Malformed => Err(GameError::MalformedRequest),
            Incoming::NonText => Err(GameError::UnsupportedMessage),
        }
    }
}

/// The connections that a response is passed on to: all but the one that
/// sent the request, in the order given.
pub fn broadcast_targets(connections: &Vec<u64>, sender: u64) -> (targets: Vec<u64>)
    ensures
        targets@ == connections@.filter(|c: u64| c != sender),
{
    let mut targets: Vec<u64> = Vec::new();
    let mut i: usize = 0;
    while i < connections.len()
        invariant
            i <= connections@.len(),
            targets@ == connections@.take(i as int).filter(|c: u64| c != sender),
        decreases connections@.len() - i,
    {
        proof {
            let done = connections@.take(i as int);
            assert(connections@.take(i + 1).drop_last() == done);
            reveal(Seq::filter);
        }
        if connections[i] != sender {
            targets.push(connections[i]);
        }
        i += 1;
    }
    assert(connections@.take(connections@.len() as int) == connections@);
    targets
}

} // verus!
