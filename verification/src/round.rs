//! Core logic for a round of Love Letter
//!
//! A round of Love Letter ends when all players except one are eliminated, or
//! when there are no more cards to draw and the final player has played.
//!
//! The winner is either the last player standing, or the player with the
//! highest-valued card.

use vstd::prelude::*;
use crate::action::{Action, Event, Play, PlayError};
use vstd::multiset::Multiset;
use crate::deck::{Card, Deck, deck_cards, is_valid_subdeck, CARDS_IN_DECK};
use crate::player::{Error as PlayerError, Player, PlayerState, state_of, states_of};
use crate::player_id::{PlayerId, has_duplicates, valid_player_count};
use crate::round_state::{
    PlayerOp, Phase, RoundState, Turn, active_count, dealt_round, distinct_ids, is_first_seat,
    play_error, seat_of, busts, survivors_of, winners_of, best_of, lemma_best_by_keys,
    lemma_seat_of_distinct,
};

verus! {

broadcast use crate::round_state::lemma_seat_of;

/// Possible states of a round of Love Letter.
#[derive(Debug, PartialEq, Eq, Clone)]
enum State {
    NotStarted,
    PlayerReady(PlayerId, Card),
    RoundOver(RoundResult),
}

/// Errors that can occur while constructing a Round.
#[derive(Debug, PartialEq, Eq, Clone, Copy)]
pub enum Error {
    /// Specified an invalid number of players.
    InvalidPlayers(usize),
    /// The given cards do not form a valid deck.
    BadDeck,
}

/// What came of a turn.
#[derive(Debug)]
pub enum TurnOutcome {
    /// The player held the Minister with the Wizard, General or Princess, and is out.
    BustedOut(PlayerId),
    /// The player played the card with the play, and these events followed.
    Played(PlayerId, Card, Play, Vec<Event>),
}

/// Represents a single round of Love Letter.
#[derive(Debug, PartialEq, Eq, Clone)]
pub struct Round {
    /// The remaining cards in the deck.
    stack: Vec<Card>,
    /// All of the players of the game. The size does not change once the game is constructed.
    players: Vec<(PlayerId, Player)>,
    /// The current state of the game.
    current: State,
}

/// The result of a finished round of Love Letter.
#[derive(Debug, PartialEq, Eq, Clone)]
pub struct RoundResult {
    players: Vec<(PlayerId, Player)>,
}

/// The states of seated players.
pub open spec fn seats_view(v: Seq<(PlayerId, Player)>) -> Seq<(PlayerId, PlayerState)> {
    v.map_values(|e: (PlayerId, Player)| (e.0, e.1@))
}

impl View for RoundResult {
    type V = Seq<(PlayerId, PlayerState)>;

    closed spec fn view(&self) -> Seq<(PlayerId, PlayerState)> {
        seats_view(self.players@)
    }
}

impl View for Round {
    type V = RoundState;

    closed spec fn view(&self) -> RoundState {
        RoundState {
            stack: self.stack@,
            players: seats_view(self.players@),
            phase: match self.current {
                State::NotStarted => Phase::NotStarted,
                State::PlayerReady(id, c) => Phase::PlayerReady(id, c),
                State::RoundOver(r) => Phase::RoundOver(r@),
            },
        }
    }
}

fn copy_seats(v: &Vec<(PlayerId, Player)>) -> (r: Vec<(PlayerId, Player)>)
    ensures
        seats_view(r@) == seats_view(v@),
{
    let mut r: Vec<(PlayerId, Player)> = Vec::new();
    let mut i: usize = 0;
    while i < v.len()
        invariant
            i <= v.len(),
            r@.len() == i,
            forall|k: int| 0 <= k < i ==> r@[k].0 == v@[k].0 && r@[k].1@ == v@[k].1@,
        decreases v.len() - i,
    {
        let (id, ref p) = v[i];
        r.push((id, p.copy()));
        i = i + 1;
    }
    assert(seats_view(r@) =~= seats_view(v@));
    r
}

/// The first seat of `id`, found by a search from the front.
fn find_seat(players: &Vec<(PlayerId, Player)>, id: PlayerId) -> (r: Option<usize>)
    ensures
        match r {
            Some(i) => seat_of(seats_view(players@), id) == Some(i as int),
            None => seat_of(seats_view(players@), id) is None,
        },
{
    let ghost s = seats_view(players@);
    let mut i: usize = 0;
    while i < players.len()
        invariant
            i <= players.len(),
            s == seats_view(players@),
            forall|k: int| 0 <= k < i ==> s[k].0 != id,
        decreases players.len() - i,
    {
        if players[i].0 == id {
            proof {
                assert(is_first_seat(s, id, i as int));
                let j = choose|j: int| is_first_seat(s, id, j);
                assert(j == i);
            }
            return Some(i);
        }
        i = i + 1;
    }
    None
}

/// The cards held by players set up by hand, in order.
pub open spec fn held_cards(players: Seq<(PlayerId, Option<Card>)>) -> Seq<Card>
    decreases players.len(),
{
    if players.len() == 0 {
        Seq::empty()
    } else {
        match players.last().1 {
            Some(c) => held_cards(players.drop_last()).push(c),
            None => held_cards(players.drop_last()),
        }
    }
}

/// A round set up by hand, as `Round::from_manual` makes it: between 2 and 4 players,
/// with hands and stack that could come from one deck; where there is a current
/// player, the top card of the stack is theirs to play.
pub open spec fn manual_round(
    players: Seq<(PlayerId, Option<Card>)>,
    deck: Seq<Card>,
    current_player: Option<PlayerId>,
) -> Result<RoundState, Error> {
    let seats = players.map_values(|e: (PlayerId, Option<Card>)| (e.0, PlayerState::dealt(e.1)));
    if !crate::player_id::valid_player_count(players.len() as int) {
        Err(Error::InvalidPlayers(players.len() as usize))
    } else if !(deck + held_cards(players)).to_multiset().subset_of(deck_cards()) {
        Err(Error::BadDeck)
    } else {
        match current_player {
            None => Ok(RoundState { stack: deck, players: seats, phase: Phase::NotStarted }),
            Some(i) => if deck.len() == 0 {
                Err(Error::BadDeck)
            } else {
                Ok(
                    RoundState {
                        stack: deck.drop_last(),
                        players: seats,
                        phase: Phase::PlayerReady(i, deck.last()),
                    },
                )
            },
        }
    }
}

/// How a turn came out, against what the rules say of the player's choice.
pub open spec fn played_as(
    r: Result<Option<(Round, TurnOutcome)>, PlayError>,
    turn: Turn,
    card: Card,
    play: Play,
    rules: Result<(RoundState, Seq<Event>), PlayError>,
) -> bool {
    match rules {
        Ok((g, events)) => r matches Ok(Some((x, TurnOutcome::Played(p, c, pl, es)))) && x@ == g
            && p == turn.player && c == card && pl == play && es@ == events,
        Err(e) => r == Err::<Option<(Round, TurnOutcome)>, PlayError>(e),
    }
}

/// Holding the Minister with the Wizard, the General or the Princess busts the player.
/// There is one Minister, so the two cards are never both the Minister.
pub fn minister_bust(a: Card, b: Card) -> (r: bool)
    requires
        !(a == Card::Minister && b == Card::Minister),
    ensures
        r == busts(a, b),
{
    proof {
        crate::deck::lemma_card_eq();
    }
    match crate::util::other((a, b), Card::Minister) {
        Some(Card::Wizard) | Some(Card::General) | Some(Card::Princess) => true,
        Some(Card::Minister) => {
            assert(false);
            false
        },
        _ => false,
    }
}

/// The worth of a survivor's card.
fn card_value(survivor: &(PlayerId, Card)) -> (v: u8)
    ensures
        v == survivor.1.rank(),
{
    survivor.1.value()
}

/// The players of a round set up by hand hold exactly the cards given as their hands.
proof fn lemma_manual_cards(players: Seq<(PlayerId, Option<Card>)>)
    ensures
        crate::round_state::seated_cards(
            players.map_values(|e: (PlayerId, Option<Card>)| (e.0, PlayerState::dealt(e.1))),
        ) == held_cards(players).to_multiset(),
    decreases players.len(),
{
    broadcast use vstd::seq_lib::group_to_multiset_ensures;
    broadcast use vstd::multiset::group_multiset_axioms;

    let seats = players.map_values(|e: (PlayerId, Option<Card>)| (e.0, PlayerState::dealt(e.1)));
    if players.len() == 0 {
        assert(seats =~= Seq::<(PlayerId, PlayerState)>::empty());
        assert(held_cards(players).to_multiset() =~= Multiset::empty());
    } else {
        let init = players.drop_last();
        lemma_manual_cards(init);
        assert(seats.drop_last() =~= init.map_values(
            |e: (PlayerId, Option<Card>)| (e.0, PlayerState::dealt(e.1)),
        ));
        let p = PlayerState::dealt(players.last().1);
        assert(p.discards.to_multiset() =~= Multiset::empty());
        assert(crate::round_state::player_cards(p) =~= crate::round_state::hand_cards(
            players.last().1,
        ));
        match players.last().1 {
            Some(c) => {
                assert(held_cards(players).to_multiset() =~= held_cards(init).to_multiset().insert(c));
            },
            None => {},
        }
        assert(crate::round_state::seated_cards(seats) =~= held_cards(players).to_multiset());
    }
}

impl RoundResult {
    /// The result of a round that ended with these players.
    pub fn new(players: Vec<(PlayerId, Player)>) -> (r: RoundResult)
        ensures
            r@ == seats_view(players@),
    {
        RoundResult { players }
    }

    /// At the end of the game, return players and their hands.
    pub fn survivors(&self) -> (s: Vec<(PlayerId, Card)>)
        ensures
            s@ == survivors_of(self@),
    {
        let ghost ps = self@;
        let mut s: Vec<(PlayerId, Card)> = Vec::new();
        let mut i: usize = 0;
        while i < self.players.len()
            invariant
                i <= self.players.len(),
                ps == self@,
                s@ == survivors_of(ps.take(i as int)),
            decreases self.players.len() - i,
        {
            assert(ps.take(i + 1).drop_last() =~= ps.take(i as int));
            let (id, ref p) = self.players[i];
            match p.get_hand() {
                Some(y) => s.push((id, y)),
                None => {},
            }
            i = i + 1;
        }
        assert(ps.take(ps.len() as int) =~= ps);
        s
    }

    /// At the end of the game, return all winners and their hands: the survivors
    /// holding the highest card.
    pub fn winners(&self) -> (w: Vec<(PlayerId, Card)>)
        ensures
            w@ == winners_of(self@),
    {
        let survivors = self.survivors();
        let best = crate::util::maxima_by(&survivors, card_value);
        let ghost keys = choose|keys: Seq<u8>|
            {
                &&& keys.len() == survivors@.len()
                &&& forall|i: int|
                    0 <= i < survivors@.len() ==> call_ensures(
                        card_value,
                        (&survivors@[i],),
                        #[trigger] keys[i],
                    )
                &&& best@.len() == crate::util::maxima_positions(keys).len()
                &&& forall|k: int|
                    0 <= k < best@.len() ==> *best@[k] == survivors@[#[trigger] crate::util::maxima_positions(keys)[k]]
            };
        proof {
            assert forall|i: int| 0 <= i < survivors@.len() implies keys[i]
                == #[trigger] survivors@[i].1.rank() by {
                assert(call_ensures(card_value, (&survivors@[i],), keys[i]));
            }
            lemma_best_by_keys(survivors@, keys, survivors@.len() as int);
        }
        let mut ws: Vec<(PlayerId, Card)> = Vec::new();
        let mut k: usize = 0;
        while k < best.len()
            invariant
                k <= best@.len(),
                ws@.len() == k,
                forall|j: int| 0 <= j < k ==> ws@[j] == *best@[j],
            decreases best.len() - k,
        {
            let x = *best[k];
            ws.push(x);
            k = k + 1;
        }
        assert(ws@ =~= winners_of(self@));
        ws
    }
}

impl Round {
    /// A copy of this round.
    fn copy(&self) -> (r: Round)
        ensures
            r@ == self@,
    {
        let current = match &self.current {
            State::NotStarted => State::NotStarted,
            State::PlayerReady(id, c) => State::PlayerReady(*id, *c),
            State::RoundOver(res) => State::RoundOver(RoundResult { players: copy_seats(&res.players) }),
        };
        Round {
            stack: vstd::slice::slice_to_vec(self.stack.as_slice()),
            players: copy_seats(&self.players),
            current,
        }
    }

    /// Create a new game with a randomly shuffled deck.
    ///
    /// Will return None if given an invalid number of players. The identifiers are
    /// not checked for repeats: turns are played (`handle_turn`) only in rounds
    /// where each player is seated once, as the players of a `Game` are.
    pub fn new(player_ids: &[PlayerId]) -> (r: Option<Round>)
        ensures
            r is Some <==> valid_player_count(player_ids@.len() as int),
            r matches Some(g) ==> exists|cards: Seq<Card>|
                cards.to_multiset() == deck_cards() && g@ == dealt_round(player_ids@, cards),
            r matches Some(g) ==> g@.cards_held().subset_of(deck_cards()),
            r matches Some(g) ==> (!has_duplicates(player_ids@) ==> g@.well_formed()),
    {
        let deck = Deck::new();
        proof {
            crate::deck::lemma_deck_counts();
            broadcast use vstd::seq_lib::group_to_multiset_ensures;
        }
        Round::from_deck(player_ids, deck)
    }

    /// Create a new game given an already-shuffled deck. The last card is burnt,
    /// then each player in turn is dealt the card now last.
    ///
    /// Will return None if given an invalid number of players. The identifiers are
    /// not checked for repeats: turns are played only in rounds where each player
    /// is seated once.
    pub fn from_deck(player_ids: &[PlayerId], deck: Deck) -> (r: Option<Round>)
        ensures
            r is Some <==> valid_player_count(player_ids@.len() as int),
            r matches Some(g) ==> g@ == dealt_round(player_ids@, deck@),
            r is Some ==> deck@.to_multiset() == deck_cards(),
            r matches Some(g) ==> g@.cards_held().insert(deck@.last()) == deck_cards(),
            r matches Some(g) ==> g@.cards_held().subset_of(deck_cards()),
            r matches Some(g) ==> (!has_duplicates(player_ids@) ==> g@.well_formed()),
    {
        if !(2 <= player_ids.len() && player_ids.len() <= 4) {
            return None;
        }
        Some(Round::deal(player_ids, deck))
    }

    /// The round dealt from `deck` to the players: the last card is burnt, then each
    /// player in turn is dealt the card now last.
    fn deal(player_ids: &[PlayerId], deck: Deck) -> (r: Round)
        requires
            player_ids@.len() < CARDS_IN_DECK,
        ensures
            r@ == dealt_round(player_ids@, deck@),
            deck@.to_multiset() == deck_cards(),
            r@.cards_held().insert(deck@.last()) == deck_cards(),
            r@.cards_held().subset_of(deck_cards()),
            !has_duplicates(player_ids@) ==> r@.well_formed(),
    {
        let all = deck.as_slice();
        let ghost d = all@;
        let mut cards: Vec<Card> = vstd::slice::slice_to_vec(all);
        let mut players: Vec<(PlayerId, Player)> = Vec::new();
        let burnt = cards.pop();
        let mut i: usize = 0;
        while i < player_ids.len()
            invariant
                d.len() == CARDS_IN_DECK,
                player_ids@.len() < CARDS_IN_DECK,
                i <= player_ids@.len(),
                cards@ == d.take(d.len() - 1 - i),
                players@.len() == i,
                forall|k: int|
                    0 <= k < i ==> #[trigger] players@[k].0 == player_ids@[k] && players@[k].1@
                        == PlayerState::dealt(Some(d[d.len() - 2 - k])),
            decreases player_ids.len() - i,
        {
            let card = cards.pop();
            match card {
                Some(c) => {
                    assert(cards@ =~= d.take(d.len() - 1 - (i + 1)));
                    players.push((player_ids[i], Player::new(Some(c))));
                },
                None => {
                    assert(false);
                },
            }
            i = i + 1;
        }
        let r = Round { stack: cards, current: State::NotStarted, players };
        assert(r@.players =~= dealt_round(player_ids@, d).players);
        proof {
            crate::round_state::lemma_dealt_round_keeps_cards(player_ids@, d);
            assert(r@.cards_held().insert(d.last()) =~= deck_cards());
            assert forall|c: Card| r@.cards_held().count(c) <= deck_cards().count(c) by {
                vstd::multiset::lemma_insert_non_decreasing(r@.cards_held(), d.last(), c);
            }
            if !has_duplicates(player_ids@) {
                assert forall|i: int, j: int| 0 <= i < j < r@.players.len() implies r@.players[i].0
                    != r@.players[j].0 by {
                    if player_ids@[i] == player_ids@[j] {
                        assert(has_duplicates(player_ids@));
                    }
                }
            }
        }
        r
    }

    /// Create a new, in-progress game.
    ///
    /// `players` pairs each player with their hand. If the card is None, then that
    /// player is assumed to have been eliminated already. Otherwise, that's
    /// what's in their hand.
    ///
    /// `deck` is a stack of remaining cards in the deck. When players draw
    /// cards, they'll draw from the end.
    ///
    /// If `current_player` is `None`, then assume the game hasn't started.
    /// Otherwise the given player has just drawn the top card, and the next player
    /// to play is the one **after** them.
    ///
    /// The identifiers are not checked for repeats: turns are played only in rounds
    /// where each player is seated once and the current player, if any, is seated.
    pub fn from_manual(
        players: &[(PlayerId, Option<Card>)],
        deck: &[Card],
        current_player: Option<PlayerId>,
    ) -> (r: Result<Round, Error>)
        ensures
            match manual_round(players@, deck@, current_player) {
                Ok(g) => r matches Ok(x) && x@ == g,
                Err(e) => r matches Err(x) && x == e,
            },
            r matches Ok(g) ==> g@.cards_held().subset_of(deck_cards()),
            r matches Ok(g) ==> (g@.well_formed() <==> distinct_ids(g@.players) && (
            current_player matches Some(id) ==> seat_of(g@.players, id) is Some)),
    {
        match crate::config::Config::new(players.len()) {
            Err(..) => return Err(Error::InvalidPlayers(players.len())),
            _ => (),
        };
        let mut stack: Vec<Card> = vstd::slice::slice_to_vec(deck);
        let mut all_cards: Vec<Card> = vstd::slice::slice_to_vec(deck);
        let mut i: usize = 0;
        while i < players.len()
            invariant
                i <= players@.len(),
                all_cards@ == deck@ + held_cards(players@.take(i as int)),
            decreases players.len() - i,
        {
            assert(players@.take(i + 1).drop_last() =~= players@.take(i as int));
            if let Some(x) = players[i].1 {
                all_cards.push(x);
            }
            assert(all_cards@ =~= deck@ + held_cards(players@.take(i + 1)));
            i = i + 1;
        }
        assert(players@.take(players@.len() as int) =~= players@);
        if !is_valid_subdeck(all_cards.as_slice()) {
            return Err(Error::BadDeck);
        }
        let state = match current_player {
            None => State::NotStarted,
            Some(i) => {
                match stack.pop() {
                    Some(card) => State::PlayerReady(i, card),
                    None => {
                        return Err(Error::BadDeck);
                    },
                }
            },
        };
        let mut seats: Vec<(PlayerId, Player)> = Vec::new();
        let mut k: usize = 0;
        while k < players.len()
            invariant
                k <= players@.len(),
                seats@.len() == k,
                forall|j: int|
                    0 <= j < k ==> #[trigger] seats@[j].0 == players@[j].0 && seats@[j].1@
                        == PlayerState::dealt(players@[j].1),
            decreases players.len() - k,
        {
            let (id, x) = players[k];
            seats.push((id, Player::new(x)));
            k = k + 1;
        }
        let r = Round { stack, current: state, players: seats };
        proof {
            let g = manual_round(players@, deck@, current_player)->Ok_0;
            assert(r@.players =~= g.players);
            if current_player is Some {
                assert(r@.stack =~= g.stack);
            }
            lemma_manual_cards(players@);
            broadcast use vstd::seq_lib::lemma_multiset_commutative;
            broadcast use vstd::seq_lib::group_to_multiset_ensures;
            broadcast use vstd::multiset::group_multiset_axioms;

            let all = (deck@ + held_cards(players@)).to_multiset();
            assert(all =~= deck@.to_multiset().add(held_cards(players@).to_multiset()));
            assert forall|c: Card| r@.cards_held().count(c) <= deck_cards().count(c) by {
                assert(r@.cards_held().count(c) <= all.count(c)) by {
                    if current_player is Some {
                        assert(deck@ =~= deck@.drop_last().push(deck@.last()));
                    }
                }
            }
        }
        Ok(r)
    }

    /// The players as the round ends.
    pub fn _game_result(&self) -> (r: RoundResult)
        ensures
            r@ == self@.players,
    {
        RoundResult { players: copy_seats(&self.players) }
    }

    /// The turn under way, if any: the player, their hand and the card they drew.
    pub fn current_turn(&self) -> (t: Option<Turn>)
        requires
            self@.phase matches Phase::PlayerReady(id, _) ==> self@.lookup(id) is Ok,
        ensures
            t == match self@.phase {
                Phase::PlayerReady(id, c) => Some(
                    Turn { player: id, hand: self@.hand_at(self@.lookup(id)->Ok_0), draw: c },
                ),
                _ => None,
            },
    {
        match self.current {
            State::PlayerReady(i, card) => {
                let hand = match self.get_hand(i) {
                    Ok(h) => h,
                    Err(_) => {
                        assert(false);
                        card
                    },
                };
                Some(Turn::new(i, hand, card))
            },
            _ => None,
        }
    }

    /// The next player to play: the next one round the table still in the round,
    /// or none where at most one is left.
    pub fn _next_player(&self) -> (r: Option<PlayerId>)
        requires
            self@.phase matches Phase::PlayerReady(id, _) ==> seat_of(self@.players, id) is Some,
        ensures
            r == match self@.next_seat() {
                Some(s) => Some(self@.players[s].0),
                None => None::<PlayerId>,
            },
    {
        if self.num_players_remaining() <= 1 {
            return None;
        }
        let n = self.num_players();
        assert(self@.next_seat() == self@.active_seat_from(1));
        let cur: Option<usize> = match self.current_player() {
            None => None,
            Some(player) => Some(self._player_index(player)),
        };
        let ghost g = self@;
        let ghost cs = g.current_seat();
        assert(match cur {
            None => cs == -1,
            Some(c) => cs == c && c < n,
        });
        let mut k: usize = 1;
        while k < n
            invariant
                g == self@,
                cs == g.current_seat(),
                n == g.players.len(),
                match cur {
                    None => cs == -1,
                    Some(c) => cs == c && c < n,
                },
                1 <= k <= n,
                g.next_seat() == g.active_seat_from(k as int),
            decreases n - k,
        {
            let idx: usize = match cur {
                None => k - 1,
                Some(c) => if k >= n - c {
                    k - (n - c)
                } else {
                    c + k
                },
            };
            proof {
                let ni = n as int;
                let x = cs + k;
                if x >= ni {
                    assert(x % ni == x - ni) by (nonlinear_arith)
                        requires
                            ni <= x < 2 * ni,
                    ;
                } else {
                    assert(x % ni == x) by (nonlinear_arith)
                        requires
                            0 <= x < ni,
                    ;
                }
                assert(idx == (cs + k) % ni);
                assert(g.players[idx as int].1 == self.players@[idx as int].1@);
                assert(g.players[idx as int].0 == self.players@[idx as int].0);
            }
            if self.players[idx].1.active() {
                assert(g.active_seat_from(k as int) == Some(idx as int));
                return Some(self.players[idx].0);
            }
            k = k + 1;
        }
        None
    }

    /// Starts the next turn: the next player draws the top card and their
    /// protection from the Priestess ends. Where no one is left to play or no card
    /// is left to draw, the round is over and there is no turn.
    pub fn next_player(&self) -> (r: (Round, Option<Turn>))
        requires
            self@.seats_sound(),
        ensures
            r.0@ == self@.next_player().0,
            r.1 == self@.next_player().1,
    {
        let ghost g = self@;
        match (self._next_player(), self.draw()) {
            (Some(new_player_id), (game, Some(c))) => {
                let ghost s = g.next_seat()->0;
                proof {
                    g.lemma_active_seat_from(1);
                    lemma_seat_of_distinct(g.players, s);
                }
                let mut new_game = game;
                new_game.current = State::PlayerReady(new_player_id, c);
                let new_game = match new_game.apply_player_op(new_player_id, PlayerOp::Protect(false)) {
                    Ok(x) => x,
                    Err(_) => {
                        assert(false);
                        new_game
                    },
                };
                proof {
                    assert(new_game@.players =~= g.next_player().0.players);
                    lemma_seat_of_distinct(new_game@.players, s);
                }
                let turn = new_game.current_turn();
                (new_game, turn)
            },
            _ => {
                let mut new_game = self.copy();
                new_game.current = State::RoundOver(self._game_result());
                (new_game, None)
            },
        }
    }

    /// At the end of the game, return all winners and their hands: the survivors
    /// holding the highest card. While the round is not over, there are none.
    pub fn winners(&self) -> (w: Vec<(PlayerId, Card)>)
        requires
            self@.seats_sound(),
        ensures
            w@ == if self@.next_player().1 is Some {
                Seq::empty()
            } else {
                winners_of(self@.players)
            },
    {
        match self.next_player() {
            (_, Some(..)) => Vec::new(),
            (_, None) => self._game_result().winners(),
        }
    }

    /// The round after `updater` changed the two players `p1` and `p2`, who must be
    /// seated and still in the round. `updater` may fail only for an inactive player,
    /// which is reported against `p2`.
    pub fn update_two_players_by<F>(&self, p1_id: PlayerId, p2_id: PlayerId, updater: F) -> (r:
        Result<Round, PlayError>) where
        F: Fn(&Player, &Player) -> Result<(Player, Player), PlayerError>,

        requires
            forall|a: &Player, b: &Player| updater.requires((a, b)),
            forall|a: &Player, b: &Player, res: Result<(Player, Player), PlayerError>|
                updater.ensures((a, b), res) ==> (res is Ok || res == Err::<
                    (Player, Player),
                    PlayerError,
                >(PlayerError::Inactive)),
        ensures
            match self@.lookup(p1_id) {
                Err(e) => r == Err::<Round, PlayError>(e),
                Ok(a) => match self@.lookup(p2_id) {
                    Err(e) => r == Err::<Round, PlayError>(e),
                    Ok(b) => exists|res: Result<(Player, Player), PlayerError>|
                        {
                            &&& updater.ensures((&self.player_at(a), &self.player_at(b)), res)
                            &&& match states_of(res) {
                                Ok((x, y)) => r matches Ok(g) && g@ == self@.set_player(
                                    a,
                                    x,
                                ).set_player(b, y),
                                Err(_) => r == Err::<Round, PlayError>(
                                    PlayError::InactivePlayer(p2_id),
                                ),
                            }
                        },
                },
            },
    {
        let p1 = match self.get_player(p1_id) {
            Ok(p) => p,
            Err(e) => return Err(e),
        };
        let p2 = match self.get_player(p2_id) {
            Ok(p) => p,
            Err(e) => return Err(e),
        };
        match updater(p1, p2) {
            Ok((new_player1, new_player2)) => {
                let g = self.update_player(p1_id, new_player1);
                assert(g@.players[seat_of(self@.players, p2_id)->0].0 == p2_id);
                proof {
                    assert forall|k: int| 0 <= k < g@.players.len() implies g@.players[k].0
                        == self@.players[k].0 by {}
                    assert(seat_of(g@.players, p2_id) == seat_of(self@.players, p2_id)) by {
                        let b = seat_of(self@.players, p2_id)->0;
                        assert(is_first_seat(g@.players, p2_id, b));
                    }
                }
                Ok(g.update_player(p2_id, new_player2))
            },
            Err(PlayerError::Inactive) => Err(PlayError::InactivePlayer(p2_id)),
            Err(_) => {
                assert(false);
                Err(PlayError::InactivePlayer(p2_id))
            },
        }
    }

    /// What an action comes to in this round: nothing where its target is
    /// protected; the Knight puts out whoever holds the lower card; the Soldier puts
    /// out its target if the guess is right.
    pub fn action_to_event(&self, action: Action) -> (r: Result<Event, PlayError>)
        ensures
            r == self@.action_to_event(action),
    {
        match action {
            Action::NoChange => Ok(Event::NoChange),
            Action::Protect(i) => match self.get_player(i) {
                Ok(_) => Ok(Event::Protected(i)),
                Err(e) => Err(e),
            },
            Action::SwapHands(src, tgt) => {
                let target = match self.get_player(tgt) {
                    Ok(p) => p,
                    Err(e) => return Err(e),
                };
                if target.protected() {
                    Ok(Event::NoChange)
                } else {
                    Ok(Event::SwappedHands(src, tgt))
                }
            },
            Action::EliminatePlayer(i) => {
                let target = match self.get_player(i) {
                    Ok(p) => p,
                    Err(e) => return Err(e),
                };
                if target.protected() {
                    Ok(Event::NoChange)
                } else {
                    Ok(Event::PlayerEliminated(i))
                }
            },
            Action::ForceDiscard(i) => {
                let target = match self.get_player(i) {
                    Ok(p) => p,
                    Err(e) => return Err(e),
                };
                if target.protected() {
                    Ok(Event::NoChange)
                } else {
                    Ok(Event::ForcedDiscard(i))
                }
            },
            Action::ForceReveal(src, tgt) => {
                let target = match self.get_player(tgt) {
                    Ok(p) => p,
                    Err(e) => return Err(e),
                };
                if target.protected() {
                    Ok(Event::NoChange)
                } else {
                    Ok(Event::ForcedReveal(src, tgt))
                }
            },
            Action::EliminateWeaker(src, tgt) => {
                let source_hand = match self.get_hand(src) {
                    Ok(h) => h,
                    Err(e) => return Err(e),
                };
                let target = match self.get_player(tgt) {
                    Ok(p) => p,
                    Err(e) => return Err(e),
                };
                if target.protected() {
                    Ok(Event::NoChange)
                } else {
                    let target_hand = match target.get_hand() {
                        Some(h) => h,
                        None => {
                            assert(false);
                            return Ok(Event::NoChange);
                        },
                    };
                    let mine = source_hand.value();
                    let theirs = target_hand.value();
                    if mine < theirs {
                        Ok(Event::PlayerEliminated(src))
                    } else if mine > theirs {
                        Ok(Event::PlayerEliminated(tgt))
                    } else {
                        Ok(Event::NoChange)
                    }
                }
            },
            Action::EliminateOnGuess(tgt, guess) => {
                if guess == Card::Soldier {
                    return Err(PlayError::BadGuess);
                }
                let target = match self.get_player(tgt) {
                    Ok(p) => p,
                    Err(e) => return Err(e),
                };
                if target.protected() {
                    Ok(Event::NoChange)
                } else {
                    let target_hand = match target.get_hand() {
                        Some(h) => h,
                        None => {
                            assert(false);
                            return Ok(Event::NoChange);
                        },
                    };
                    if target_hand == guess {
                        Ok(Event::PlayerEliminated(tgt))
                    } else {
                        Ok(Event::NoChange)
                    }
                }
            },
        }
    }

    /// What an event does to the round, and the event it leads to, if any: forcing
    /// someone to discard the Princess puts them out.
    pub fn apply_event(&self, event: Event) -> (r: Result<(Round, Option<Event>), PlayError>)
        ensures
            match self@.apply_event(event) {
                Ok((g, follow)) => r matches Ok((x, f)) && x@ == g && f == follow,
                Err(e) => r matches Err(x) && x == e,
            },
    {
        match event {
            Event::NoChange => Ok((self.copy(), None)),
            Event::Protected(i) => match self.apply_player_op(i, PlayerOp::Protect(true)) {
                Ok(g) => Ok((g, None)),
                Err(e) => Err(e),
            },
            Event::PlayerEliminated(i) => match self.apply_player_op(i, PlayerOp::Eliminate) {
                Ok(g) => Ok((g, None)),
                Err(e) => Err(e),
            },
            Event::SwappedHands(src, tgt) => {
                let r = self.update_two_players_by(tgt, src, Player::swap_hands);
                match r {
                    Ok(g) => Ok((g, None)),
                    Err(e) => Err(e),
                }
            },
            Event::ForcedDiscard(i) => {
                let player = match self.get_player(i) {
                    Ok(p) => p,
                    Err(e) => return Err(e),
                };
                if player.get_hand() == Some(Card::Princess) {
                    match self.apply_player_op(i, PlayerOp::Eliminate) {
                        Ok(g) => Ok((g, Some(Event::PlayerEliminated(i)))),
                        Err(e) => Err(e),
                    }
                } else {
                    let (game, new_card) = self.draw();
                    match game.apply_player_op(i, PlayerOp::DiscardAndDraw(new_card)) {
                        Ok(g) => Ok((g, None)),
                        Err(e) => Err(e),
                    }
                }
            },
            Event::ForcedReveal(..) => Ok((self.copy(), None)),
        }
    }

    /// The rest of a turn once its player has chosen what to play: the card is
    /// played, it becomes an action and then an event, which is applied. Where the
    /// event makes a player reveal their card, `reveal_card` is told the player and
    /// the card.
    pub fn resolve_play<G>(&self, turn: &Turn, card: Card, play: Play, reveal_card: G) -> (r:
        Result<(Round, TurnOutcome), PlayError>) where G: Fn(PlayerId, Card),

        requires
            forall|p: PlayerId, c: Card| reveal_card.requires((p, c)),
        ensures
            played_as(
                match r {
                    Ok(x) => Ok(Some(x)),
                    Err(e) => Err(e),
                },
                *turn,
                card,
                play,
                self@.resolve_play(*turn, card, play),
            ),
            self@.revealed(*turn, card, play) matches Some((p, c)) ==> reveal_card.ensures(
                (p, c),
                (),
            ),
            self@.force_discarded(*turn, card, play) matches Some((p, c)) ==> (r matches Ok((g, _))
                ==> g@.discarded_back(p, 0) == Some(c)),
    {
        proof {
            self@.lemma_play_force_discards(*turn, card, play);
        }
        let ghost rules = self@.resolve_play(*turn, card, play);
        // Update their hand and the played card.
        let played = match self.apply_player_op(turn.player, PlayerOp::PlayCard(turn.draw, card)) {
            Ok(g) => g,
            Err(e) => {
                assert(rules == Err::<(RoundState, Seq<Event>), PlayError>(e));
                return Err(e);
            },
        };
        assert(self@.apply_op(turn.player, PlayerOp::PlayCard(turn.draw, card)) == Ok::<
            RoundState,
            PlayError,
        >(played@));
        let action = match crate::action::play_to_action(turn.player, card, play) {
            Ok(a) => a,
            Err(e) => {
                assert(rules == Err::<(RoundState, Seq<Event>), PlayError>(e));
                return Err(e);
            },
        };
        let event = match played.action_to_event(action) {
            Ok(e) => e,
            Err(e) => {
                assert(rules == Err::<(RoundState, Seq<Event>), PlayError>(e));
                return Err(e);
            },
        };
        match event {
            Event::ForcedReveal(_, target) => {
                match played.get_hand(target) {
                    Ok(c) => reveal_card(target, c),
                    Err(_) => {
                        assert(false);
                    },
                }
            },
            _ => (),
        }
        let mut events: Vec<Event> = Vec::new();
        events.push(event);
        let (new_game, follow_up) = match played.apply_event(event) {
            Ok(x) => x,
            Err(e) => {
                assert(rules == Err::<(RoundState, Seq<Event>), PlayError>(e));
                return Err(e);
            },
        };
        match follow_up {
            Some(event) => events.push(event),
            None => (),
        };
        proof {
            if follow_up is Some {
                assert(events@ =~= seq![event, follow_up->0]);
            } else {
                assert(events@ =~= seq![event]);
            }
            assert(rules == Ok::<(RoundState, Seq<Event>), PlayError>((new_game@, events@)));
        }
        Ok((new_game, TurnOutcome::Played(turn.player, card, play, events)))
    }

    /// Crank the handle of a loveletter game.
    ///
    /// The next player draws a card. Holding the Minister with the Wizard, the
    /// General or the Princess, they bust out. Otherwise `decide_play` is given the
    /// round and the turn, and must return a card to play and the `Play` associated
    /// with it; `reveal_card` is told the card a Clown makes its target reveal.
    ///
    /// `handle_turn` makes sure everything is valid and returns the new `Round`.
    ///
    /// If the game is now over, will return `Ok(None)`. If not, will return
    /// `Ok(Some(new_game))`.
    pub fn handle_turn<F, G>(&self, decide_play: F, reveal_card: G) -> (r: Result<
        Option<(Round, TurnOutcome)>,
        PlayError,
    >) where F: Fn(&Round, &Turn) -> (Card, Play), G: Fn(PlayerId, Card),

        requires
            self@.seats_sound(),
            self@.ministers_apart(),
            forall|g: &Round, t: &Turn| decide_play.requires((g, t)),
            forall|p: PlayerId, c: Card| reveal_card.requires((p, c)),
        ensures
            ({
                let (begun, next) = self@.next_player();
                match next {
                    None => r matches Ok(None),
                    Some(t) => if busts(t.draw, t.hand) {
                        match begun.apply_op(t.player, PlayerOp::BustOut(t.draw)) {
                            Ok(g) => r matches Ok(Some((x, TurnOutcome::BustedOut(p)))) && x@ == g
                                && p == t.player && g.discarded_back(p, 0) == Some(t.hand)
                                && g.discarded_back(p, 1) == Some(t.draw),
                            Err(e) => r == Err::<Option<(Round, TurnOutcome)>, PlayError>(e),
                        }
                    } else {
                        exists|b: Round, choice: (Card, Play)|
                            {
                                &&& b@ == begun
                                &&& decide_play.ensures((&b, &t), choice)
                                &&& played_as(
                                    r,
                                    t,
                                    choice.0,
                                    choice.1,
                                    begun.resolve_play(t, choice.0, choice.1),
                                )
                                &&& begun.revealed(t, choice.0, choice.1) matches Some((p, c))
                                    ==> reveal_card.ensures((p, c), ())
                                &&& begun.force_discarded(t, choice.0, choice.1) matches Some((p, c))
                                    ==> (r matches Ok(Some((g, _))) ==> g@.discarded_back(p, 0)
                                    == Some(c))
                            }
                    },
                }
            }),
            r matches Ok(Some((g, _))) ==> g@.seats_sound() && g@.cards_held()
                == self@.cards_held() && g@.keeps_out(self@) && g@.same_seats(self@),
            self@.well_formed() ==> (r matches Ok(Some((g, _))) ==> g@.well_formed()),
    {
        let (new_game, turn) = self.next_player();
        let turn = match turn {
            None => return Ok(None),
            Some(turn) => turn,
        };
        proof {
            self@.lemma_bust_keeps_cards();
            self@.lemma_bust_discards();
        }
        if minister_bust(turn.draw, turn.hand) {
            match new_game.apply_player_op(turn.player, PlayerOp::BustOut(turn.draw)) {
                Ok(g) => Ok(Some((g, TurnOutcome::BustedOut(turn.player)))),
                Err(e) => Err(e),
            }
        } else {
            // Find out what they'd like to play.
            let (card, play) = decide_play(&new_game, &turn);
            proof {
                self@.lemma_turn_keeps_cards(card, play);
            }
            match new_game.resolve_play(&turn, card, play, reveal_card) {
                Ok(x) => Ok(Some(x)),
                Err(e) => Err(e),
            }
        }
    }

    /// The player at seat `i`.
    pub closed spec fn player_at(self, i: int) -> Player {
        self.players@[i].1
    }

    /// Number of players in this game.
    pub fn num_players(&self) -> (n: usize)
        ensures
            n == self@.players.len(),
    {
        self.players.len()
    }

    /// Return the player IDs in the order of play.
    pub fn player_ids(&self) -> (ids: Vec<PlayerId>)
        ensures
            ids@.len() == self@.players.len(),
            forall|k: int| 0 <= k < ids@.len() ==> #[trigger] ids@[k] == self@.players[k].0,
    {
        let mut ids: Vec<PlayerId> = Vec::new();
        let mut i: usize = 0;
        while i < self.players.len()
            invariant
                i <= self.players.len(),
                ids@.len() == i,
                forall|k: int| 0 <= k < i ==> #[trigger] ids@[k] == self@.players[k].0,
            decreases self.players.len() - i,
        {
            ids.push(self.players[i].0);
            i = i + 1;
        }
        ids
    }

    /// The discards of every player, in order of play.
    pub fn all_discards(&self) -> (d: Vec<&[Card]>)
        ensures
            d@.len() == self@.players.len(),
            forall|k: int| 0 <= k < d@.len() ==> #[trigger] d@[k]@ == self@.players[k].1.discards,
    {
        let mut discards: Vec<&[Card]> = Vec::new();
        let mut i: usize = 0;
        while i < self.players.len()
            invariant
                i <= self.players.len(),
                discards@.len() == i,
                forall|k: int|
                    0 <= k < i ==> #[trigger] discards@[k]@ == self@.players[k].1.discards,
            decreases self.players.len() - i,
        {
            discards.push(self.players[i].1.discards());
            i = i + 1;
        }
        discards
    }

    /// The number of cards left to draw.
    pub fn num_cards_remaining(&self) -> (n: usize)
        ensures
            n == self@.stack.len(),
    {
        self.stack.len()
    }

    /// Number of active players still playing.
    pub fn num_players_remaining(&self) -> (n: usize)
        ensures
            n == active_count(self@.players),
    {
        let ghost s = self@.players;
        let mut n: usize = 0;
        let mut i: usize = 0;
        while i < self.players.len()
            invariant
                i <= self.players.len(),
                s == self@.players,
                n == active_count(s.take(i as int)),
                n <= i,
            decreases self.players.len() - i,
        {
            assert(s.take(i + 1).drop_last() =~= s.take(i as int));
            if self.players[i].1.active() {
                n = n + 1;
            }
            i = i + 1;
        }
        assert(s.take(s.len() as int) =~= s);
        n
    }

    /// The player whose turn it is, if any.
    pub fn current_player(&self) -> (r: Option<PlayerId>)
        ensures
            r == self@.current_player(),
    {
        match self.current {
            State::PlayerReady(i, _) => Some(i),
            _ => None,
        }
    }

    /// The hands of the players, in order of play.
    pub fn hands(&self) -> (h: Vec<Option<Card>>)
        ensures
            h@.len() == self@.players.len(),
            forall|k: int| 0 <= k < h@.len() ==> #[trigger] h@[k] == self@.players[k].1.hand,
    {
        let mut h: Vec<Option<Card>> = Vec::new();
        let mut i: usize = 0;
        while i < self.players.len()
            invariant
                i <= self.players.len(),
                h@.len() == i,
                forall|k: int| 0 <= k < i ==> #[trigger] h@[k] == self@.players[k].1.hand,
            decreases self.players.len() - i,
        {
            h.push(self.players[i].1.get_hand());
            i = i + 1;
        }
        h
    }

    /// The cards left to draw; the next card drawn is the last.
    pub fn deck(&self) -> (d: &[Card])
        ensures
            d@ == self@.stack,
    {
        self.stack.as_slice()
    }

    /// The seat of the player `id`. The player must be seated.
    pub fn _player_index(&self, player_id: PlayerId) -> (i: usize)
        requires
            seat_of(self@.players, player_id) is Some,
        ensures
            seat_of(self@.players, player_id) == Some(i as int),
    {
        match find_seat(&self.players, player_id) {
            Some(i) => i,
            None => {
                assert(false);
                0
            },
        }
    }

    /// The card that the player `id` discarded `back` discards before their latest,
    /// if they are seated and discarded that many.
    pub(crate) fn discarded_back(&self, player_id: PlayerId, back: usize) -> (r: Option<Card>)
        ensures
            r == self@.discarded_back(player_id, back as int),
    {
        match find_seat(&self.players, player_id) {
            None => None,
            Some(i) => {
                let d = self.players[i].1.discards();
                if back < d.len() {
                    Some(d[d.len() - 1 - back])
                } else {
                    None
                }
            },
        }
    }

    /// The player `id`, who must be seated and still in the round.
    pub fn get_player(&self, player_id: PlayerId) -> (r: Result<&Player, PlayError>)
        ensures
            match self@.lookup(player_id) {
                Ok(i) => r matches Ok(p) && p@ == self@.players[i].1 && *p == self.player_at(i),
                Err(e) => r == Err::<&Player, PlayError>(e),
            },
    {
        match find_seat(&self.players, player_id) {
            None => Err(PlayError::InvalidPlayer(player_id)),
            Some(i) => {
                let player = &self.players[i].1;
                if player.active() {
                    Ok(player)
                } else {
                    Err(PlayError::InactivePlayer(player_id))
                }
            },
        }
    }

    /// The discards of the player `id`, who must be seated and still in the round.
    pub fn get_discards(&self, player_id: PlayerId) -> (r: Result<&[Card], PlayError>)
        ensures
            match self@.lookup(player_id) {
                Ok(i) => r matches Ok(d) && d@ == self@.players[i].1.discards,
                Err(e) => r == Err::<&[Card], PlayError>(e),
            },
    {
        match self.get_player(player_id) {
            Ok(p) => Ok(p.discards()),
            Err(e) => Err(e),
        }
    }

    /// The hand of the player `id`, who must be seated and still in the round.
    pub fn get_hand(&self, player_id: PlayerId) -> (r: Result<Card, PlayError>)
        ensures
            match self@.lookup(player_id) {
                Ok(i) => r == Ok::<Card, PlayError>(self@.hand_at(i)),
                Err(e) => r == Err::<Card, PlayError>(e),
            },
    {
        match self.get_player(player_id) {
            Ok(p) => match p.get_hand() {
                Some(c) => Ok(c),
                None => {
                    assert(false);
                    Err(PlayError::InactivePlayer(player_id))
                },
            },
            Err(e) => Err(e),
        }
    }

    /// The round with the player `id`, who must be seated, replaced by `player`.
    pub fn update_player(&self, player_id: PlayerId, player: Player) -> (r: Round)
        requires
            seat_of(self@.players, player_id) is Some,
        ensures
            r@ == self@.set_player(seat_of(self@.players, player_id)->0, player@),
    {
        let i = self._player_index(player_id);
        let mut new_game = self.copy();
        new_game.players.set(i, (player_id, player));
        proof {
            assert(seats_view(new_game.players@) =~= self@.players.update(
                i as int,
                (self@.players[i as int].0, player@),
            ));
        }
        new_game
    }

    /// The round after `updater` changed the player `id`, who must be seated and
    /// still in the round. An error of the player is reported as the round's.
    pub fn update_player_by<F>(&self, player_id: PlayerId, updater: F) -> (r: Result<Round, PlayError>) where
        F: Fn(&Player) -> Result<Player, PlayerError>,

        requires
            forall|p: &Player| updater.requires((p,)),
        ensures
            match self@.lookup(player_id) {
                Err(e) => r == Err::<Round, PlayError>(e),
                Ok(i) => exists|res: Result<Player, PlayerError>|
                    {
                        &&& updater.ensures((&self.player_at(i),), res)
                        &&& match state_of(res) {
                            Ok(p) => r matches Ok(g) && g@ == self@.set_player(i, p),
                            Err(e) => r == Err::<Round, PlayError>(play_error(player_id, e)),
                        }
                    },
            },
    {
        let player = match self.get_player(player_id) {
            Ok(p) => p,
            Err(e) => return Err(e),
        };
        let res = updater(player);
        match res {
            Ok(new_player) => Ok(self.update_player(player_id, new_player)),
            Err(PlayerError::Inactive) => Err(PlayError::InactivePlayer(player_id)),
            Err(PlayerError::NoSuchCard(c, d)) => Err(PlayError::CardNotFound(c, d)),
            Err(PlayerError::BadGuess) => Err(PlayError::BadGuess),
        }
    }

    /// The round after the change `op` to the player `id`.
    fn apply_player_op(&self, player_id: PlayerId, op: PlayerOp) -> (r: Result<Round, PlayError>)
        ensures
            match self@.apply_op(player_id, op) {
                Ok(g) => r matches Ok(x) && x@ == g,
                Err(e) => r == Err::<Round, PlayError>(e),
            },
    {
        let player = match self.get_player(player_id) {
            Ok(p) => p,
            Err(e) => return Err(e),
        };
        match player.apply(op) {
            Ok(new_player) => Ok(self.update_player(player_id, new_player)),
            Err(PlayerError::Inactive) => Err(PlayError::InactivePlayer(player_id)),
            Err(PlayerError::NoSuchCard(c, d)) => Err(PlayError::CardNotFound(c, d)),
            Err(PlayerError::BadGuess) => Err(PlayError::BadGuess),
        }
    }

    /// The round after drawing the top card of the stack, and that card.
    pub fn draw(&self) -> (r: (Round, Option<Card>))
        ensures
            r.0@ == self@.draw().0,
            r.1 == self@.draw().1,
    {
        let mut g = self.copy();
        let c = g.stack.pop();
        proof {
            if self@.stack.len() > 0 {
                assert(g@.stack =~= self@.stack.drop_last());
            }
        }
        (g, c)
    }
}

} // verus!
