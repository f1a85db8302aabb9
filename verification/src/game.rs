//! One round of the game: the deck, the pile that cards are played on, and
//! the players' hands. Cards only ever move between the three.

use crate::card::{full_deck, stackable, std_deck, Card};
use crate::error::GameError;
use crate::random::shuffle;
use vstd::multiset::Multiset;
use vstd::prelude::*;

verus! {

/// A player in a round: a name and the cards held.
#[derive(Debug)]
pub struct Player {
    pub name: String,
    pub hand: Vec<Card>,
}

/// One round: the deck to draw from, the pile that cards are played on
/// (its last card is the top), and the players in seating order.
#[derive(Debug)]
pub struct Game {
    pub deck: Vec<Card>,
    pub play_stack: Vec<Card>,
    pub players: Vec<Player>,
}

/// What a player is: the name, and the hand as a sequence of cards.
pub struct PlayerView {
    pub name: Seq<char>,
    pub hand: Seq<Card>,
}

/// What a round is: three sequences.
pub struct GameView {
    pub deck: Seq<Card>,
    pub play_stack: Seq<Card>,
    pub players: Seq<PlayerView>,
}

impl View for Player {
    type V = PlayerView;

    open spec fn view(&self) -> PlayerView {
        PlayerView { name: self.name@, hand: self.hand@ }
    }
}

impl View for Game {
    type V = GameView;

    open spec fn view(&self) -> GameView {
        GameView {
            deck: self.deck@,
            play_stack: self.play_stack@,
            players: player_views(self.players@),
        }
    }
}

/// What each of the players is, in seating order.
pub open spec fn player_views(players: Seq<Player>) -> Seq<PlayerView> {
    players.map_values(|p: Player| p@)
}

/// The names as sequences of characters.
pub open spec fn name_views(names: Seq<&str>) -> Seq<Seq<char>> {
    names.map_values(|name: &str| name@)
}

/// The players' names, in seating order.
pub open spec fn names(players: Seq<PlayerView>) -> Seq<Seq<char>> {
    players.map_values(|p: PlayerView| p.name)
}

/// The seat of the first player who bears `name`, if any does.
pub open spec fn seat_of(players: Seq<PlayerView>, name: Seq<char>) -> Option<int> {
    names(players).index_of_first(name)
}

/// All cards that the players hold, without order.
pub open spec fn hands(players: Seq<PlayerView>) -> Multiset<Card>
    decreases players.len(),
{
    if players.len() == 0 {
        Multiset::empty()
    } else {
        hands(players.drop_last()).add(players.last().hand.to_multiset())
    }
}

impl GameView {
    /// Every card of the round: deck, pile and hands together.
    pub open spec fn cards(self) -> Multiset<Card> {
        self.deck.to_multiset().add(self.play_stack.to_multiset()).add(hands(self.players))
    }

    /// The card that the next play has to match.
    pub open spec fn top(self) -> Card {
        self.play_stack.last()
    }

    /// A round in good order: its cards are exactly the standard deck, each
    /// card once, and the pile holds between one and four of them.
    pub open spec fn wf(self) -> bool {
        &&& self.cards() == full_deck()
        &&& 1 <= self.play_stack.len() <= 4
    }
}

/// The hand that the player at `seat` is dealt from `deck`: cards leave the
/// deck at its end, and the players are served one after the other.
pub open spec fn dealt_hand(deck: Seq<Card>, hand_size: nat, seat: int) -> Seq<Card> {
    Seq::new(hand_size, |j: int| deck[deck.len() - 1 - seat * hand_size - j])
}

/// The round that dealing from `deck` gives: every player holds `hand_size`
/// cards, the next card seeds the pile, and the rest stays in the deck.
pub open spec fn dealt(deck: Seq<Card>, hand_size: nat, names: Seq<Seq<char>>) -> GameView {
    let rest = deck.len() - hand_size * names.len() - 1;
    GameView {
        deck: deck.take(rest),
        play_stack: seq![deck[rest]],
        players: Seq::new(
            names.len(),
            |i: int| PlayerView { name: names[i], hand: dealt_hand(deck, hand_size, i) },
        ),
    }
}

/// Whether the cards are the standard deck in some order.
pub open spec fn is_shuffled_deck(cards: Seq<Card>) -> bool {
    cards.to_multiset() == full_deck()
}

/// A round as it begins: dealt from the standard deck in some order.
pub open spec fn fresh_round(game: GameView, hand_size: nat, names: Seq<Seq<char>>) -> bool {
    exists|shuffled: Seq<Card>|
        #[trigger] is_shuffled_deck(shuffled) && game == dealt(shuffled, hand_size, names)
}

/// How a play changes a round, given that the card fits the pile and that
/// the player sits at `seat`. The card leaves the hand where it first stands
/// and goes on top of the pile. A pile of more than four cards gives its
/// bottom card back to the deck, which is shuffled. A card that the player
/// does not hold changes nothing.
pub open spec fn play_outcome(pre: GameView, post: GameView, card: Card, seat: int) -> bool {
    let player = pre.players[seat];
    let held = player.hand.contains(card);
    let pile = pre.play_stack.push(card);
    &&& post.players == pre.players.update(
        seat,
        PlayerView { name: player.name, hand: player.hand.remove_value(card) },
    )
    &&& if held && pile.len() > 4 {
        &&& post.play_stack == pile.drop_first()
        &&& post.deck.to_multiset() == pre.deck.to_multiset().insert(pile.first())
    } else if held {
        &&& post.play_stack == pile
        &&& post.deck == pre.deck
    } else {
        &&& post.play_stack == pre.play_stack
        &&& post.deck == pre.deck
    }
}

impl GameView {
    /// Nothing is left to draw: the deck is empty and the pile holds only
    /// its top card.
    pub open spec fn exhausted(self) -> bool {
        self.deck.len() == 0 && self.play_stack.len() == 1
    }

    /// A draw first turns the pile over: the deck is empty and the pile
    /// holds more than two cards.
    pub open spec fn recycles(self) -> bool {
        self.deck.len() == 0 && self.play_stack.len() > 2
    }

    /// The named player sits in the round, the deck is empty, and the pile
    /// is neither large enough to be turned over nor down to its top card:
    /// a draw has no card to give.
    pub open spec fn draw_blocked(self, name: Seq<char>) -> bool {
        &&& self.deck.len() == 0
        &&& self.play_stack.len() == 0 || self.play_stack.len() == 2
        &&& seat_of(self.players, name) is Some
    }
}

/// How turning the pile over changes deck and pile: all cards but the top
/// go to the deck, in an order that the shuffle decides.
pub open spec fn recycled(pre: GameView, deck: Seq<Card>, play_stack: Seq<Card>) -> bool {
    &&& play_stack == seq![pre.top()]
    &&& deck.to_multiset() == pre.play_stack.drop_last().to_multiset()
}

/// How a draw changes a round and what it returns.
pub open spec fn draw_outcome(
    pre: GameView,
    post: GameView,
    name: Seq<char>,
    result: Result<Option<Card>, GameError>,
) -> bool {
    if pre.exhausted() {
        result == Ok::<Option<Card>, GameError>(None) && post == pre
    } else {
        match seat_of(pre.players, name) {
            None => {
                &&& result == Err::<Option<Card>, GameError>(GameError::PlayerNotFound)
                &&& post.players == pre.players
                &&& if pre.recycles() {
                    recycled(pre, post.deck, post.play_stack)
                } else {
                    post.deck == pre.deck && post.play_stack == pre.play_stack
                }
            },
            Some(seat) => {
                &&& result matches Ok(Some(card))
                &&& post.players == pre.players.update(
                    seat,
                    PlayerView {
                        name: pre.players[seat].name,
                        hand: pre.players[seat].hand.push(card),
                    },
                )
                &&& if pre.recycles() {
                    recycled(pre, post.deck.push(card), post.play_stack)
                } else {
                    &&& card == pre.deck.last()
                    &&& post.deck == pre.deck.drop_last()
                    &&& post.play_stack == pre.play_stack
                }
            },
        }
    }
}

/// What `seat_of` finds: the first seat whose player bears the name, or
/// nothing where no player does.
pub proof fn lemma_seat_of(players: Seq<PlayerView>, name: Seq<char>)
    ensures
        match seat_of(players, name) {
            Some(seat) => {
                &&& 0 <= seat < players.len()
                &&& players[seat].name == name
                &&& forall|j: int| 0 <= j < seat ==> players[j].name != name
            },
            None => forall|j: int| 0 <= j < players.len() ==> players[j].name != name,
        },
{
    let ns = names(players);
    ns.index_of_first_ensures(name);
    match seat_of(players, name) {
        Some(seat) => {
            assert forall|j: int| 0 <= j < seat implies players[j].name != name by {
                assert(ns[j] == players[j].name);
            }
        },
        None => {
            assert forall|j: int| 0 <= j < players.len() implies players[j].name != name by {
                assert(ns[j] == players[j].name);
            }
        },
    }
}

/// A seat whose player bears the name, with no such player before it, is the
/// seat that `seat_of` finds.
pub proof fn lemma_seat_is(players: Seq<PlayerView>, name: Seq<char>, seat: int)
    requires
        0 <= seat < players.len(),
        players[seat].name == name,
        forall|j: int| 0 <= j < seat ==> players[j].name != name,
    ensures
        seat_of(players, name) == Some(seat),
{
    lemma_seat_of(players, name);
}

/// While the player at seat `i` of `n` is served card `j` of `h`, fewer than
/// `n * h` cards have left the deck.
proof fn lemma_dealing_fits(i: int, j: int, h: int, n: int)
    requires
        0 <= i < n,
        0 <= j <= h,
    ensures
        0 <= i * h,
        i * h + j <= (i + 1) * h <= h * n,
        (i + 1) * h == i * h + h,
{
    assert(0 <= i * h && (i + 1) * h == i * h + h && (i + 1) * h <= h * n) by (nonlinear_arith)
        requires
            0 <= i < n,
            0 <= h,
    ;
}

/// Adding a player adds that player's hand to the cards held.
pub proof fn lemma_hands_push(players: Seq<PlayerView>, player: PlayerView)
    ensures
        hands(players.push(player)) == hands(players).add(player.hand.to_multiset()),
{
    assert(players.push(player).drop_last() == players);
}

/// Replacing one player's hand changes the cards held by just that hand.
pub proof fn lemma_hands_update(players: Seq<PlayerView>, seat: int, player: PlayerView)
    requires
        0 <= seat < players.len(),
    ensures
        hands(players.update(seat, player)).add(players[seat].hand.to_multiset()) == hands(
            players,
        ).add(player.hand.to_multiset()),
    decreases players.len(),
{
    broadcast use vstd::multiset::group_multiset_axioms;

    let after = players.update(seat, player);
    let before_rest = hands(players.drop_last());
    let after_rest = hands(after.drop_last());
    if seat == players.len() - 1 {
        assert(after.drop_last() == players.drop_last());
    } else {
        lemma_hands_update(players.drop_last(), seat, player);
        assert(after.drop_last() == players.drop_last().update(seat, player));
        let given = players[seat].hand.to_multiset();
        let taken = player.hand.to_multiset();
        assert forall|c: Card| after_rest.count(c) + given.count(c) == before_rest.count(c)
            + taken.count(c) by {
            assert(after_rest.add(given).count(c) == before_rest.add(taken).count(c));
        }
    }
    assert(hands(after).add(players[seat].hand.to_multiset()) =~= hands(players).add(
        player.hand.to_multiset(),
    ));
}

/// A player who takes a card adds that card to the cards held.
pub proof fn lemma_hand_gains(players: Seq<PlayerView>, seat: int, card: Card)
    requires
        0 <= seat < players.len(),
    ensures
        hands(
            players.update(
                seat,
                PlayerView { name: players[seat].name, hand: players[seat].hand.push(card) },
            ),
        ) == hands(players).insert(card),
{
    broadcast use vstd::multiset::group_multiset_axioms;
    broadcast use vstd::seq_lib::group_to_multiset_ensures;

    let hand = players[seat].hand;
    let player = PlayerView { name: players[seat].name, hand: hand.push(card) };
    let after = players.update(seat, player);
    lemma_hands_update(players, seat, player);
    let left = hands(after).add(hand.to_multiset());
    let right = hands(players).add(hand.push(card).to_multiset());
    assert forall|c: Card| hands(after).count(c) == hands(players).insert(card).count(c) by {
        assert(left.count(c) == right.count(c));
    }
}

/// A player who gives up the card at `place` takes that card from the cards
/// held.
pub proof fn lemma_hand_loses(players: Seq<PlayerView>, seat: int, place: int)
    requires
        0 <= seat < players.len(),
        0 <= place < players[seat].hand.len(),
    ensures
        hands(players) == hands(
            players.update(
                seat,
                PlayerView { name: players[seat].name, hand: players[seat].hand.remove(place) },
            ),
        ).insert(players[seat].hand[place]),
{
    broadcast use vstd::multiset::group_multiset_axioms;
    broadcast use vstd::seq_lib::group_to_multiset_ensures;

    let hand = players[seat].hand;
    let card = hand[place];
    let player = PlayerView { name: players[seat].name, hand: hand.remove(place) };
    let after = players.update(seat, player);
    lemma_hands_update(players, seat, player);
    let left = hands(after).add(hand.to_multiset());
    let right = hands(players).add(hand.remove(place).to_multiset());
    assert forall|c: Card| hands(players).count(c) == hands(after).insert(card).count(c) by {
        assert(left.count(c) == right.count(c));
    }
}

/// The shape of a round as it begins: the players sit in the order of
/// their names, each holds `hand_size` cards, the pile holds one card, and
/// the deck holds the rest of the fifty-two.
pub proof fn lemma_fresh_round(game: GameView, hand_size: nat, names: Seq<Seq<char>>)
    requires
        fresh_round(game, hand_size, names),
        hand_size * names.len() + 1 <= 52,
    ensures
        game.players.len() == names.len(),
        forall|seat: int|
            0 <= seat < names.len() ==> (#[trigger] game.players[seat]).name == names[seat]
                && game.players[seat].hand.len() == hand_size,
        game.play_stack.len() == 1,
        game.deck.len() == 52 - hand_size * names.len() - 1,
{
    broadcast use vstd::seq_lib::group_to_multiset_ensures;

    let shuffled = choose|shuffled: Seq<Card>|
        #[trigger] is_shuffled_deck(shuffled) && game == dealt(shuffled, hand_size, names);
    crate::card::lemma_full_deck_counts(crate::card::standard_card(0));
    assert(shuffled.len() == 52);
}

/// A hand holds no card more often than all hands together do.
pub proof fn lemma_hand_within_hands(players: Seq<PlayerView>, seat: int, card: Card)
    requires
        0 <= seat < players.len(),
    ensures
        players[seat].hand.to_multiset().count(card) <= hands(players).count(card),
    decreases players.len(),
{
    broadcast use vstd::multiset::group_multiset_axioms;

    if seat < players.len() - 1 {
        lemma_hand_within_hands(players.drop_last(), seat, card);
    }
}

/// A round in good order is a closed system: every card of the standard
/// deck is in exactly one place, be it the deck, the pile or a hand, so the
/// three hold fifty-two cards together and none of them holds a card twice.
pub proof fn lemma_closed_system(game: GameView, card: Card)
    requires
        game.wf(),
    ensures
        game.cards().count(card) == 1,
        game.deck.to_multiset().count(card) + game.play_stack.to_multiset().count(card) + hands(
            game.players,
        ).count(card) == 1,
        game.deck.len() + game.play_stack.len() + hands(game.players).len() == 52,
        game.deck.no_duplicates(),
        game.play_stack.no_duplicates(),
        forall|seat: int|
            0 <= seat < game.players.len() ==> game.players[seat].hand.no_duplicates(),
{
    broadcast use vstd::multiset::group_multiset_axioms;
    broadcast use vstd::seq_lib::group_to_multiset_ensures;

    crate::card::lemma_full_deck_counts(card);
    assert forall|c: Card|
        game.deck.to_multiset().count(c) <= 1 && game.play_stack.to_multiset().count(c) <= 1
            && hands(game.players).count(c) <= 1 by {
        crate::card::lemma_full_deck_counts(c);
    }
    game.deck.lemma_multiset_has_no_duplicates_conv();
    game.play_stack.lemma_multiset_has_no_duplicates_conv();
    assert forall|seat: int| 0 <= seat < game.players.len() implies game.players[seat].hand
        .no_duplicates() by {
        let hand = game.players[seat].hand;
        assert forall|c: Card| hand.to_multiset().contains(c) implies hand.to_multiset().count(c)
            == 1 by {
            lemma_hand_within_hands(game.players, seat, c);
        }
        hand.lemma_multiset_has_no_duplicates_conv();
    }
}

impl Player {
    pub fn new(name: &str) -> (player: Player)
        ensures
            player@ == (PlayerView { name: name@, hand: Seq::empty() }),
    {
        Player { name: name.to_owned(), hand: Vec::new() }
    }

    /// Where in the hand the card first stands, if the player holds it.
    pub fn find_card(&self, card: &Card) -> (place: Option<usize>)
        ensures
            match place {
                Some(i) => self@.hand.index_of_first(*card) == Some(i as int),
                None => self@.hand.index_of_first(*card) is None,
            },
    {
        let mut i: usize = 0;
        while i < self.hand.len()
            invariant
                i <= self.hand@.len(),
                forall|j: int| 0 <= j < i ==> self.hand@[j] != *card,
            decreases self.hand@.len() - i,
        {
            if self.hand[i] == *card {
                proof {
                    self.hand@.index_of_first_ensures(*card);
                }
                return Some(i);
            }
            i += 1;
        }
        proof {
            self.hand@.index_of_first_ensures(*card);
        }
        None
    }
}

impl Clone for Player {
    fn clone(&self) -> (copy: Player)
        ensures
            copy@ == self@,
    {
        Player { name: self.name.clone(), hand: self.hand.clone() }
    }
}

impl Default for Player {
    fn default() -> (player: Player)
        ensures
            player@ == (PlayerView { name: Seq::empty(), hand: Seq::empty() }),
    {
        Player { name: String::new(), hand: Vec::new() }
    }
}

impl Game {
    /// Deals a round from the given deck: `hand_size` cards to each player in
    /// the order listed, taken from the end of the deck, then one more card
    /// to seed the pile. Fails where the deck is too small for that.
    pub fn deal(deck: Vec<Card>, hand_size: usize, player_names: Vec<&str>) -> (result: Result<
        Game,
        GameError,
    >)
        ensures
            match result {
                Ok(game) => {
                    &&& hand_size * player_names@.len() + 1 <= deck@.len()
                    &&& game@ == dealt(deck@, hand_size as nat, name_views(player_names@))
                    &&& game@.cards() == deck@.to_multiset()
                },
                Err(error) => {
                    &&& error == GameError::InsufficientDeck
                    &&& hand_size * player_names@.len() + 1 > deck@.len()
                },
            },
    {
        let count = player_names.len();
        let available = deck.len();
        let needed = match hand_size.checked_mul(count) {
            Some(needed) => needed,
            None => {
                return Err(GameError::InsufficientDeck);
            },
        };
        if needed >= available {
            return Err(GameError::InsufficientDeck);
        }
        let ghost start = deck@;
        let ghost names = name_views(player_names@);
        let mut deck = deck;
        let mut players: Vec<Player> = Vec::new();
        let mut i: usize = 0;
        while i < count
            invariant
                i <= count,
                count == player_names@.len(),
                names == name_views(player_names@),
                needed == hand_size * count,
                needed < start.len(),
                deck@ == start.take(start.len() - i * hand_size),
                players@.len() == i,
                forall|k: int|
                    0 <= k < i ==> (#[trigger] players@[k])@ == (PlayerView {
                        name: names[k],
                        hand: dealt_hand(start, hand_size as nat, k),
                    }),
                deck@.to_multiset().add(hands(player_views(players@))) == start.to_multiset(),
            decreases count - i,
        {
            let mut player = Player::new(player_names[i]);
            let mut j: usize = 0;
            proof {
                broadcast use vstd::multiset::group_multiset_axioms;
                broadcast use vstd::seq_lib::group_to_multiset_ensures;

                lemma_dealing_fits(i as int, 0, hand_size as int, count as int);
                vstd::multiset::lemma_multiset_empty_len(player.hand@.to_multiset());
                assert(deck@.to_multiset().add(player.hand@.to_multiset()).add(
                    hands(player_views(players@)),
                ) =~= start.to_multiset());
            }
            while j < hand_size
                invariant
                    i < count,
                    j <= hand_size,
                    needed == hand_size * count,
                    needed < start.len(),
                    deck@ == start.take(start.len() - i * hand_size - j),
                    player.name@ == names[i as int],
                    player.hand@.len() == j,
                    forall|m: int|
                        0 <= m < j ==> player.hand@[m] == start[start.len() - 1 - i * hand_size
                            - m],
                    deck@.to_multiset().add(player.hand@.to_multiset()).add(
                        hands(player_views(players@)),
                    ) == start.to_multiset(),
                decreases hand_size - j,
            {
                proof {
                    lemma_dealing_fits(i as int, j as int, hand_size as int, count as int);
                }
                let ghost deck_before = deck@;
                let ghost hand_before = player.hand@;
                let card = deck.pop().unwrap();
                player.hand.push(card);
                proof {
                    broadcast use vstd::multiset::group_multiset_axioms;
                    broadcast use vstd::seq_lib::group_to_multiset_ensures;

                    assert(deck_before == deck@.push(card));
                    assert(deck@.to_multiset().add(player.hand@.to_multiset())
                        =~= deck_before.to_multiset().add(hand_before.to_multiset()));
                }
                j += 1;
            }
            proof {
                lemma_dealing_fits(i as int, 0, hand_size as int, count as int);
                assert(player.hand@ == dealt_hand(start, hand_size as nat, i as int));
                assert(player_views(players@.push(player)) == player_views(players@).push(
                    player@,
                ));
                lemma_hands_push(player_views(players@), player@);
                broadcast use vstd::multiset::group_multiset_axioms;

                assert(deck@.to_multiset().add(
                    hands(player_views(players@)).add(player.hand@.to_multiset()),
                ) =~= start.to_multiset());
            }
            players.push(player);
            i += 1;
        }
        let ghost deck_before = deck@;
        proof {
            assert(count * hand_size == hand_size * count) by (nonlinear_arith);
        }
        let first = deck.pop().unwrap();
        let mut play_stack: Vec<Card> = Vec::new();
        play_stack.push(first);
        let game = Game { deck, play_stack, players };
        proof {
            broadcast use vstd::multiset::group_multiset_axioms;
            broadcast use vstd::seq_lib::group_to_multiset_ensures;

            let target = dealt(start, hand_size as nat, names);
            assert(game@.deck == target.deck);
            assert(game@.players == target.players);
            assert(deck_before == game@.deck.push(first));
        }
        Ok(game)
    }

    /// Begins a round: shuffles a standard deck and deals from it. Fails
    /// where fifty-two cards do not suffice for the hands and the pile.
    pub fn new(hand_size: usize, player_names: Vec<&str>) -> (result: Result<Game, GameError>)
        ensures
            match result {
                Ok(game) => {
                    &&& hand_size * player_names@.len() + 1 <= 52
                    &&& fresh_round(game@, hand_size as nat, name_views(player_names@))
                    &&& game@.wf()
                },
                Err(error) => {
                    &&& error == GameError::InsufficientDeck
                    &&& hand_size * player_names@.len() + 1 > 52
                },
            },
    {
        let mut deck = std_deck();
        shuffle(&mut deck);
        proof {
            broadcast use vstd::seq_lib::group_to_multiset_ensures;

            assert(is_shuffled_deck(deck@));
            assert(deck@.len() == deck@.to_multiset().len());
        }
        Game::deal(deck, hand_size, player_names)
    }

    /// The card on top of the pile.
    pub fn top_card(&self) -> (card: &Card)
        requires
            self@.play_stack.len() > 0,
        ensures
            *card == self@.top(),
    {
        &self.play_stack[self.play_stack.len() - 1]
    }

    /// Whether the card may be played on the pile as it stands.
    pub fn valid_play(&self, card: &Card) -> (ok: bool)
        requires
            self@.play_stack.len() > 0,
        ensures
            ok == stackable(*card, self@.top()),
    {
        card.stackable(self.top_card())
    }

    /// Plays a card from the named player's hand onto the pile.
    ///
    /// A card that does not fit the top of the pile is refused, and so is a
    /// name that no player bears; neither changes the round. Otherwise the
    /// round changes as `play_outcome` says.
    pub fn play_card(&mut self, card: Card, player_name: &str) -> (result: Result<(), GameError>)
        requires
            old(self)@.play_stack.len() > 0,
        ensures
            match result {
                Ok(_) => {
                    &&& stackable(card, old(self)@.top())
                    &&& seat_of(old(self)@.players, player_name@) matches Some(seat)
                    &&& play_outcome(old(self)@, final(self)@, card, seat)
                },
                Err(error) => {
                    &&& *final(self) == *old(self)
                    &&& if !stackable(card, old(self)@.top()) {
                        error == GameError::InvalidPlay
                    } else {
                        &&& error == GameError::PlayerNotFound
                        &&& seat_of(old(self)@.players, player_name@) is None
                    }
                },
            },
            final(self)@.cards() == old(self)@.cards(),
            old(self)@.play_stack.len() <= 4 ==> 1 <= final(self)@.play_stack.len() <= 4,
            old(self)@.wf() ==> final(self)@.wf(),
    {
        if !self.valid_play(&card) {
            return Err(GameError::InvalidPlay);
        }
        let seat = match self.find_player(player_name) {
            Some(seat) => seat,
            None => {
                return Err(GameError::PlayerNotFound);
            },
        };
        proof {
            lemma_seat_of(self@.players, player_name@);
            self@.players[seat as int].hand.index_of_first_ensures(card);
        }
        let ghost pre = self@;
        match self.players[seat].find_card(&card) {
            Some(place) => {
                let played = self.players[seat].hand.remove(place);
                self.play_stack.push(played);
                proof {
                    broadcast use vstd::multiset::group_multiset_axioms;
                    broadcast use vstd::seq_lib::group_to_multiset_ensures;

                    let after = PlayerView {
                        name: pre.players[seat as int].name,
                        hand: pre.players[seat as int].hand.remove(place as int),
                    };
                    assert(self@.players == pre.players.update(seat as int, after));
                    lemma_hand_loses(pre.players, seat as int, place as int);
                    assert(self@.cards() =~= pre.cards());
                }
                if self.play_stack.len() > 4 {
                    let bottom = self.play_stack.remove(0);
                    self.deck.push(bottom);
                    shuffle(&mut self.deck);
                    proof {
                        broadcast use vstd::multiset::group_multiset_axioms;
                        broadcast use vstd::seq_lib::group_to_multiset_ensures;

                        assert(self@.cards() =~= pre.cards());
                    }
                }
            },
            None => {
                proof {
                    let same = PlayerView {
                        name: pre.players[seat as int].name,
                        hand: pre.players[seat as int].hand.remove_value(card),
                    };
                    assert(pre.players.update(seat as int, same) == pre.players);
                }
            },
        }
        Ok(())
    }

    /// Whether a draw by the named player can be served: it cannot where the
    /// player sits in the round while the deck is empty and the pile holds
    /// exactly two cards, or none.
    pub fn can_draw(&self, player_name: &str) -> (ok: bool)
        ensures
            ok == !self@.draw_blocked(player_name@),
    {
        if self.deck.len() == 0 && (self.play_stack.len() == 0 || self.play_stack.len() == 2) {
            self.find_player(player_name).is_none()
        } else {
            true
        }
    }

    /// Draws the top card of the deck into the named player's hand.
    ///
    /// An empty deck is first refilled from the pile, if the pile holds more
    /// than two cards: all but its top card go to the deck, which is
    /// shuffled. Where the deck is empty and the pile holds only its top
    /// card, nothing is drawn and nothing changes. A name that no player
    /// bears is an error, raised after the pile was turned over.
    pub fn draw_card(&mut self, player_name: &str) -> (result: Result<Option<Card>, GameError>)
        requires
            !old(self)@.draw_blocked(player_name@),
        ensures
            draw_outcome(old(self)@, final(self)@, player_name@, result),
            result == Ok::<Option<Card>, GameError>(None) <==> old(self)@.exhausted(),
            final(self)@.cards() == old(self)@.cards(),
            final(self)@.play_stack.len() <= old(self)@.play_stack.len(),
            old(self)@.wf() ==> final(self)@.wf(),
    {
        let ghost pre = self@;
        if self.deck.len() == 0 && self.play_stack.len() > 2 {
            let ghost moved: int = 0;
            proof {
                assert(self.deck@ == pre.play_stack.take(0));
            }
            while self.play_stack.len() > 1
                invariant
                    pre.play_stack.len() > 2,
                    0 <= moved < pre.play_stack.len(),
                    self.play_stack@ == pre.play_stack.skip(moved),
                    self.deck@.to_multiset() == pre.play_stack.take(moved).to_multiset(),
                    self.players == old(self).players,
                decreases self.play_stack@.len(),
            {
                let bottom = self.play_stack.remove(0);
                self.deck.push(bottom);
                shuffle(&mut self.deck);
                proof {
                    broadcast use vstd::seq_lib::group_to_multiset_ensures;

                    assert(pre.play_stack.take(moved + 1) == pre.play_stack.take(moved).push(
                        bottom,
                    ));
                    moved = moved + 1;
                }
            }
            proof {
                broadcast use vstd::multiset::group_multiset_axioms;
                broadcast use vstd::seq_lib::group_to_multiset_ensures;

                assert(self.play_stack@ == seq![pre.top()]);
                assert(pre.play_stack == pre.play_stack.drop_last().push(pre.top()));
                vstd::multiset::lemma_multiset_empty_len(pre.deck.to_multiset());
                assert(self@.cards() =~= pre.cards());
                assert(pre.play_stack.drop_last().len()
                    == pre.play_stack.drop_last().to_multiset().len());
            }
        }
        if self.deck.len() == 0 && self.play_stack.len() == 1 {
            return Ok(None);
        }
        proof {
            lemma_seat_of(self@.players, player_name@);
        }
        match self.find_player(player_name) {
            Some(seat) => {
                let ghost mid = self@;
                let top_card = self.deck.pop().unwrap();
                self.players[seat].hand.push(top_card);
                proof {
                    broadcast use vstd::multiset::group_multiset_axioms;
                    broadcast use vstd::seq_lib::group_to_multiset_ensures;

                    let after = PlayerView {
                        name: mid.players[seat as int].name,
                        hand: mid.players[seat as int].hand.push(top_card),
                    };
                    assert(self@.players == mid.players.update(seat as int, after));
                    lemma_hand_gains(mid.players, seat as int, top_card);
                    assert(mid.deck == self@.deck.push(top_card));
                    assert(self@.cards() =~= mid.cards());
                }
                Ok(Some(top_card))
            },
            None => Err(GameError::PlayerNotFound),
        }
    }

    /// The seat of the first player who bears the name.
    pub fn find_player(&self, name: &str) -> (seat: Option<usize>)
        ensures
            match seat {
                Some(i) => seat_of(self@.players, name@) == Some(i as int),
                None => seat_of(self@.players, name@) is None,
            },
    {
        let wanted = name.to_owned();
        let mut i: usize = 0;
        while i < self.players.len()
            invariant
                i <= self.players@.len(),
                wanted@ == name@,
                forall|j: int| 0 <= j < i ==> self@.players[j].name != name@,
            decreases self.players@.len() - i,
        {
            if self.players[i].name == wanted {
                proof {
                    lemma_seat_is(self@.players, name@, i as int);
                }
                return Some(i);
            }
            i += 1;
        }
        proof {
            lemma_seat_of(self@.players, name@);
        }
        None
    }

    /// The first player who bears the name, to read or to change.
    pub fn get_player(&mut self, name: &str) -> (player: Option<&mut Player>)
        ensures
            match seat_of(old(self)@.players, name@) {
                Some(seat) => {
                    &&& player is Some
                    &&& *player->0 == old(self).players@[seat]
                    &&& final(self).players@ == old(self).players@.update(seat, *final(player->0))
                    &&& final(self).deck == old(self).deck
                    &&& final(self).play_stack == old(self).play_stack
                },
                None => player is None && *final(self) == *old(self),
            },
    {
        proof {
            lemma_seat_of(self@.players, name@);
        }
        match self.find_player(name) {
            Some(seat) => Some(&mut self.players[seat]),
            None => None,
        }
    }
}

impl Clone for Game {
    fn clone(&self) -> (copy: Game)
        ensures
            copy@ == self@,
    {
        let mut players: Vec<Player> = Vec::new();
        let mut i: usize = 0;
        while i < self.players.len()
            invariant
                i <= self.players@.len(),
                players@.len() == i,
                forall|k: int| 0 <= k < i ==> (#[trigger] players@[k])@ == self.players@[k]@,
            decreases self.players@.len() - i,
        {
            players.push(self.players[i].clone());
            i += 1;
        }
        let copy = Game { deck: self.deck.clone(), play_stack: self.play_stack.clone(), players };
        assert(copy@.players == self@.players);
        copy
    }
}

} // verus!
