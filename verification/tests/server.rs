use mao_core::server::{broadcast_targets, Incoming, Server};
use mao_core::web::{ClientRequest, ServerResponse};
use mao_core::{Card, GameError};

fn create(server: &mut Server, player: &str, hand_size: usize) -> ServerResponse {
    server
        .handle_request(ClientRequest::CreateLobby { player_name: player.to_string(), hand_size })
        .unwrap()
        .unwrap()
}

fn join(lobby: &str, player: &str) -> ClientRequest {
    ClientRequest::JoinLobby { lobby_id: lobby.to_string(), player_name: player.to_string() }
}

fn start(lobby: &str) -> ClientRequest {
    ClientRequest::StartGame { lobby_id: lobby.to_string() }
}

fn play(lobby: &str, player: &str, card: Card) -> ClientRequest {
    ClientRequest::PlayCard { player_id: player.to_string(), lobby_id: lobby.to_string(), card }
}

fn draw(lobby: &str, player: &str) -> ClientRequest {
    ClientRequest::DrawCard { player_id: player.to_string(), lobby_id: lobby.to_string() }
}

fn members(response: &ServerResponse) -> Vec<String> {
    response.lobby.players.iter().map(|p| p.name.clone()).collect()
}

fn started(server: &mut Server, hand_size: usize) -> (String, ServerResponse) {
    let id = create(server, "a", hand_size).lobby.id;
    server.handle_request(join(&id, "b")).unwrap();
    let response = server.handle_request(start(&id)).unwrap().unwrap();
    (id, response)
}

#[test]
fn a_new_registry_knows_no_lobby() {
    let server = Server::new();
    assert!(server.get("abcde").is_none());
    assert!(server.get("").is_none());
}

#[test]
fn creating_a_lobby_mints_an_id_of_five_letters_and_digits() {
    let mut server = Server::new();
    let response = create(&mut server, "lucas", 3);
    assert!(response.game_state.is_none());
    assert_eq!(response.lobby.id.len(), 5);
    assert!(response.lobby.id.chars().all(|c| c.is_ascii_alphanumeric()));
    assert_eq!(members(&response), vec!["lucas"]);
    assert_eq!(response.lobby.hand_size, 3);
    let kept = server.get(&response.lobby.id).unwrap();
    assert_eq!(kept.id, response.lobby.id);
    assert_eq!(kept.players.len(), 1);
    assert!(kept.current_game.is_none());
}

#[test]
fn lobbies_are_kept_apart() {
    let mut server = Server::new();
    let one = create(&mut server, "a", 1).lobby.id;
    let two = create(&mut server, "b", 2).lobby.id;
    assert_ne!(one, two);
    server.handle_request(join(&one, "c")).unwrap();
    assert_eq!(server.get(&one).unwrap().players.len(), 2);
    assert_eq!(server.get(&two).unwrap().players.len(), 1);
    assert_eq!(server.get(&two).unwrap().hand_size, 2);
}

#[test]
fn a_lobby_under_a_given_id_replaces_the_one_before() {
    let mut server = Server::new();
    server.create_lobby_as("a".to_string(), 1, "same".to_string()).unwrap();
    server.create_lobby_as("x".to_string(), 4, "other".to_string()).unwrap();
    server.join_lobby("same", "b".to_string()).unwrap();
    let response = server.create_lobby_as("c".to_string(), 2, "same".to_string()).unwrap().unwrap();
    assert_eq!(members(&response), vec!["c"]);
    let kept = server.get("same").unwrap();
    assert_eq!(kept.players.len(), 1);
    assert_eq!(kept.players[0].name, "c");
    assert_eq!(kept.hand_size, 2);
    assert_eq!(server.get("other").unwrap().players[0].name, "x");
}

#[test]
fn joining_answers_with_the_members() {
    let mut server = Server::new();
    let id = create(&mut server, "a", 2).lobby.id;
    let response = server.handle_request(join(&id, "b")).unwrap().unwrap();
    assert_eq!(members(&response), vec!["a", "b"]);
    assert_eq!(response.lobby.id, id);
    assert!(response.game_state.is_none());
}

#[test]
fn joins_from_many_connections_are_all_kept() {
    let mut server = Server::new();
    let id = create(&mut server, "first", 2).lobby.id;
    let count = 16;
    for turn in 0..count {
        let connection = (turn * 7) % count;
        let response = server.handle_request(join(&id, &format!("c{}", connection)));
        assert!(matches!(response, Ok(Some(_))));
    }
    let lobby = server.get(&id).unwrap();
    assert_eq!(lobby.players.len(), count + 1);
    let mut names: Vec<String> = lobby.players.iter().map(|p| p.name.clone()).collect();
    names.sort();
    names.dedup();
    assert_eq!(names.len(), count + 1);
}

#[test]
fn an_unknown_lobby_is_reported() {
    let mut server = Server::new();
    create(&mut server, "a", 2);
    let card = Card::new(mao_core::Suit::Hearts, mao_core::Rank::Ace);
    assert_eq!(server.handle_request(join("nowhere", "b")).err(), Some(GameError::LobbyNotFound));
    assert_eq!(server.handle_request(start("nowhere")).err(), Some(GameError::LobbyNotFound));
    assert_eq!(
        server.handle_request(play("nowhere", "a", card)).err(),
        Some(GameError::LobbyNotFound)
    );
    assert_eq!(server.handle_request(draw("nowhere", "a")).err(), Some(GameError::LobbyNotFound));
}

#[test]
fn starting_answers_with_the_round() {
    let mut server = Server::new();
    let (id, response) = started(&mut server, 2);
    assert_eq!(members(&response), vec!["a", "b"]);
    let game = response.game_state.unwrap();
    assert_eq!(game.players.len(), 2);
    assert!(game.players.iter().all(|p| p.hand.len() == 2));
    assert_eq!(game.play_stack.len(), 1);
    assert_eq!(game.deck.len(), 47);
    assert_eq!(server.get(&id).unwrap().current_game.as_ref().unwrap().deck, game.deck);
}

#[test]
fn starting_again_is_reported() {
    let mut server = Server::new();
    let (id, response) = started(&mut server, 2);
    let deck = response.game_state.unwrap().deck;
    assert_eq!(server.handle_request(start(&id)).err(), Some(GameError::LobbyAlreadyStarted));
    assert_eq!(server.get(&id).unwrap().current_game.as_ref().unwrap().deck, deck);
}

#[test]
fn a_lobby_too_large_for_the_deck_gets_no_round() {
    let mut server = Server::new();
    let id = create(&mut server, "a", 26).lobby.id;
    server.handle_request(join(&id, "b")).unwrap();
    assert_eq!(server.handle_request(start(&id)).err(), Some(GameError::InsufficientDeck));
    let lobby = server.get(&id).unwrap();
    assert!(lobby.current_game.is_none());
    assert_eq!(lobby.players.len(), 2);
}

#[test]
fn turns_before_the_round_have_nothing_to_act_on() {
    let mut server = Server::new();
    let id = create(&mut server, "a", 2).lobby.id;
    let card = Card::new(mao_core::Suit::Hearts, mao_core::Rank::Ace);
    assert!(matches!(server.handle_request(play(&id, "a", card)), Ok(None)));
    assert!(matches!(server.handle_request(draw(&id, "a")), Ok(None)));
    assert!(server.get(&id).unwrap().current_game.is_none());
}

#[test]
fn drawing_answers_with_the_round_after_the_draw() {
    let mut server = Server::new();
    let (id, response) = started(&mut server, 2);
    let before = response.game_state.unwrap();
    let after = server.handle_request(draw(&id, "b")).unwrap().unwrap().game_state.unwrap();
    assert_eq!(after.deck, before.deck[..46].to_vec());
    assert_eq!(after.players[1].hand.len(), 3);
    assert_eq!(after.players[1].hand[2], before.deck[46]);
    assert_eq!(after.players[0].hand, before.players[0].hand);
    assert_eq!(after.play_stack, before.play_stack);
}

#[test]
fn playing_answers_with_the_round_after_the_play() {
    let mut server = Server::new();
    let (id, response) = started(&mut server, 25);
    let before = response.game_state.unwrap();
    let top = before.play_stack[0];
    let holder = before
        .players
        .iter()
        .find(|p| p.hand.iter().any(|c| c.stackable(&top)))
        .unwrap();
    let card = *holder.hand.iter().find(|c| c.stackable(&top)).unwrap();
    let after =
        server.handle_request(play(&id, &holder.name, card)).unwrap().unwrap().game_state.unwrap();
    assert_eq!(after.play_stack, vec![top, card]);
    let seat = after.players.iter().position(|p| p.name == holder.name).unwrap();
    assert_eq!(after.players[seat].hand.len(), 24);
    assert!(!after.players[seat].hand.contains(&card));
    assert_eq!(after.deck, before.deck);
}

#[test]
fn a_card_that_does_not_fit_is_reported_and_changes_nothing() {
    let mut server = Server::new();
    let (id, response) = started(&mut server, 5);
    let before = response.game_state.unwrap();
    let top = before.play_stack[0];
    let misfit = mao_core::std_deck().into_iter().find(|c| !c.stackable(&top)).unwrap();
    assert_eq!(
        server.handle_request(play(&id, "a", misfit)).err(),
        Some(GameError::InvalidPlay)
    );
    let kept = server.get(&id).unwrap().current_game.as_ref().unwrap();
    assert_eq!(kept.deck, before.deck);
    assert_eq!(kept.play_stack, before.play_stack);
    assert_eq!(kept.players[0].hand, before.players[0].hand);
    assert_eq!(kept.players[1].hand, before.players[1].hand);
}

#[test]
fn a_stranger_to_the_round_is_reported() {
    let mut server = Server::new();
    let (id, response) = started(&mut server, 5);
    let top = response.game_state.unwrap().play_stack[0];
    assert_eq!(
        server.handle_request(play(&id, "stranger", top)).err(),
        Some(GameError::PlayerNotFound)
    );
    assert_eq!(server.handle_request(draw(&id, "stranger")).err(), Some(GameError::PlayerNotFound));
}

#[test]
fn a_draw_that_cannot_be_served_leaves_the_round_as_it_stands() {
    let mut server = Server::new();
    let (id, _) = started(&mut server, 25);
    let mut last = server.handle_request(draw(&id, "a")).unwrap().unwrap().game_state.unwrap();
    assert_eq!(last.deck.len(), 0);
    assert_eq!(last.play_stack.len(), 1);
    let same = server.handle_request(draw(&id, "a")).unwrap().unwrap().game_state.unwrap();
    assert_eq!(same.players[0].hand, last.players[0].hand);
    let top = last.play_stack[0];
    let holder = last.players.iter().find(|p| p.hand.iter().any(|c| c.stackable(&top)));
    if let Some(holder) = holder {
        let name = holder.name.clone();
        let card = *holder.hand.iter().find(|c| c.stackable(&top)).unwrap();
        last = server.handle_request(play(&id, &name, card)).unwrap().unwrap().game_state.unwrap();
        assert_eq!(last.play_stack.len(), 2);
        assert!(!server.get(&id).unwrap().current_game.as_ref().unwrap().can_draw("a"));
        let held = server.handle_request(draw(&id, "a")).unwrap().unwrap().game_state.unwrap();
        assert_eq!(held.play_stack, last.play_stack);
        assert!(held.deck.is_empty());
        assert_eq!(held.players[0].hand, last.players[0].hand);
        assert_eq!(held.players[1].hand, last.players[1].hand);
    }
}

#[test]
fn what_is_no_request_ends_the_connection() {
    let mut server = Server::new();
    let id = create(&mut server, "a", 2).lobby.id;
    let malformed = server.handle_message(Incoming::Malformed).err().unwrap();
    assert_eq!(malformed, GameError::MalformedRequest);
    assert!(malformed.is_fatal());
    let unsupported = server.handle_message(Incoming::NonText).err().unwrap();
    assert_eq!(unsupported, GameError::UnsupportedMessage);
    assert!(unsupported.is_fatal());
    assert_eq!(server.get(&id).unwrap().players.len(), 1);
    let joined = server.handle_message(Incoming::Request(join(&id, "b"))).unwrap().unwrap();
    assert_eq!(members(&joined), vec!["a", "b"]);
}

#[test]
fn failures_of_a_request_keep_the_connection() {
    for error in [
        GameError::InvalidPlay,
        GameError::PlayerNotFound,
        GameError::LobbyNotFound,
        GameError::LobbyAlreadyStarted,
        GameError::InsufficientDeck,
    ] {
        assert!(!error.is_fatal());
    }
}

#[test]
fn errors_say_what_went_wrong() {
    assert_eq!(GameError::InvalidPlay.message(), "Invalid card played");
    assert_eq!(GameError::PlayerNotFound.message(), "Could not find player by given name");
    assert_eq!(GameError::LobbyNotFound.message(), "Could not find lobby by given id");
    assert_eq!(GameError::LobbyAlreadyStarted.message(), "Lobby has already started its game");
    assert_eq!(
        GameError::InsufficientDeck.message(),
        "Handsize x number of players exceeds deck size"
    );
    assert_eq!(GameError::MalformedRequest.message(), "Request could not be decoded");
    assert_eq!(GameError::UnsupportedMessage.message(), "Non-string messages not supported");
}

#[test]
fn a_response_goes_to_all_but_its_sender() {
    assert_eq!(broadcast_targets(&vec![1, 2, 3, 4], 3), vec![1, 2, 4]);
    assert_eq!(broadcast_targets(&vec![7], 7), Vec::<u64>::new());
    assert_eq!(broadcast_targets(&vec![7, 8], 9), vec![7, 8]);
    assert_eq!(broadcast_targets(&vec![], 1), Vec::<u64>::new());
    assert_eq!(broadcast_targets(&vec![5, 1, 5, 2], 5), vec![1, 2]);
}
