//! A whole game of Love Letter.
//!
//! A game of Love Letter consists of multiple rounds. The winners of each
//! round receive a token of affection from the princess. The first players to
//! receive four tokens of affection are declared to have won her heart, and
//! thus, the game.

use vstd::prelude::*;
use crate::deck::{Card, deck_cards};
use crate::player_id::{PlayerId, Players, make_players, first_ids};
use crate::round::Round;
use crate::round_state::dealt_round;

verus! {

/// The number of tokens of affection that wins the game.
pub const WINNING_SCORE: u32 = 4;

/// A game: the players, in order of play, with their tokens of affection.
#[derive(Debug)]
pub struct Game {
    players: Vec<(PlayerId, u32)>,
}

/// How often `id` occurs in `ids`.
pub open spec fn occurrences(ids: Seq<PlayerId>, id: PlayerId) -> nat
    decreases ids.len(),
{
    if ids.len() == 0 {
        0
    } else {
        occurrences(ids.drop_last(), id) + if ids.last() == id {
            1nat
        } else {
            0nat
        }
    }
}

/// The players who have reached the winning score, in order of play.
pub open spec fn game_winners(players: Seq<(PlayerId, u32)>) -> Seq<PlayerId>
    decreases players.len(),
{
    if players.len() == 0 {
        Seq::empty()
    } else if players.last().1 >= WINNING_SCORE {
        game_winners(players.drop_last()).push(players.last().0)
    } else {
        game_winners(players.drop_last())
    }
}

/// Some player has reached the winning score.
pub open spec fn someone_won(players: Seq<(PlayerId, u32)>) -> bool {
    exists|k: int| 0 <= k < players.len() && #[trigger] players[k].1 >= WINNING_SCORE
}

/// Where no player has reached the winning score there are no winners, and
/// otherwise there are some.
pub proof fn lemma_winners_exist(players: Seq<(PlayerId, u32)>)
    ensures
        game_winners(players).len() == 0 <==> !someone_won(players),
    decreases players.len(),
{
    if players.len() > 0 {
        lemma_winners_exist(players.drop_last());
        if someone_won(players.drop_last()) {
            let k = choose|k: int|
                0 <= k < players.drop_last().len() && #[trigger] players.drop_last()[k].1
                    >= WINNING_SCORE;
            assert(players[k].1 >= WINNING_SCORE);
        }
        if someone_won(players) {
            let k = choose|k: int| 0 <= k < players.len() && #[trigger] players[k].1 >= WINNING_SCORE;
            if k < players.len() - 1 {
                assert(players.drop_last()[k].1 >= WINNING_SCORE);
            }
        }
    }
}

impl View for Game {
    type V = Seq<(PlayerId, u32)>;

    closed spec fn view(&self) -> Seq<(PlayerId, u32)> {
        self.players@
    }
}

/// The identifiers of the players.
pub open spec fn ids_of(players: Seq<(PlayerId, u32)>) -> Seq<PlayerId> {
    players.map_values(|e: (PlayerId, u32)| e.0)
}

impl Game {
    #[verifier::type_invariant]
    spec fn well_formed(self) -> bool {
        &&& crate::player_id::valid_player_count(self.players@.len() as int)
        &&& crate::player_id::strictly_increasing(ids_of(self.players@))
    }

    /// A new game for these players, in increasing order, with no tokens yet.
    pub fn new(players: Players) -> (g: Game)
        ensures
            ids_of(g@) == players@,
            forall|k: int| 0 <= k < g@.len() ==> #[trigger] g@[k].1 == 0,
    {
        let ps = players.as_slice();
        let mut v: Vec<(PlayerId, u32)> = Vec::new();
        let mut i: usize = 0;
        while i < ps.len()
            invariant
                i <= ps@.len(),
                v@.len() == i,
                forall|k: int| 0 <= k < i ==> #[trigger] v@[k] == (ps@[k], 0u32),
            decreases ps.len() - i,
        {
            v.push((ps[i], 0));
            i = i + 1;
        }
        assert(ids_of(v@) =~= ps@);
        Game { players: v }
    }

    /// The number of players.
    pub fn num_players(&self) -> (n: usize)
        ensures
            n == self@.len(),
    {
        self.players.len()
    }

    /// The players, in order of play.
    pub fn players(&self) -> (ids: Vec<PlayerId>)
        ensures
            ids@ == ids_of(self@),
    {
        let mut ids: Vec<PlayerId> = Vec::new();
        let mut i: usize = 0;
        while i < self.players.len()
            invariant
                i <= self.players.len(),
                ids@.len() == i,
                forall|k: int| 0 <= k < i ==> #[trigger] ids@[k] == self@[k].0,
            decreases self.players.len() - i,
        {
            ids.push(self.players[i].0);
            i = i + 1;
        }
        assert(ids@ =~= ids_of(self@));
        ids
    }

    /// The scores of the players, in order of play.
    pub fn scores(&self) -> (s: Vec<u32>)
        ensures
            s@.len() == self@.len(),
            forall|k: int| 0 <= k < s@.len() ==> #[trigger] s@[k] == self@[k].1,
    {
        let mut s: Vec<u32> = Vec::new();
        let mut i: usize = 0;
        while i < self.players.len()
            invariant
                i <= self.players.len(),
                s@.len() == i,
                forall|k: int| 0 <= k < i ==> #[trigger] s@[k] == self@[k].1,
            decreases self.players.len() - i,
        {
            s.push(self.players[i].1);
            i = i + 1;
        }
        s
    }

    /// A new round for the players of this game, with a freshly shuffled deck.
    pub fn new_round(&self) -> (r: Round)
        ensures
            exists|cards: Seq<Card>|
                cards.to_multiset() == deck_cards() && r@ == dealt_round(ids_of(self@), cards),
    {
        proof {
            use_type_invariant(self);
        }
        let players = self.players();
        match Round::new(players.as_slice()) {
            Some(r) => r,
            None => vstd::pervasive::unreached(),
        }
    }

    /// The next round, unless some player has already won the game.
    pub fn next_round(&self) -> (r: Option<Round>)
        ensures
            someone_won(self@) ==> r is None,
            !someone_won(self@) ==> (r matches Some(round) && exists|cards: Seq<Card>|
                cards.to_multiset() == deck_cards() && round@ == dealt_round(ids_of(self@), cards)),
    {
        proof {
            lemma_winners_exist(self@);
        }
        if self.winners().len() == 0 {
            Some(self.new_round())
        } else {
            None
        }
    }

    /// The player `player_id` receives a token of affection.
    pub fn player_won_mut(&mut self, player_id: PlayerId)
        requires
            ids_of(old(self)@).contains(player_id),
            forall|k: int|
                0 <= k < old(self)@.len() && #[trigger] old(self)@[k].0 == player_id ==> old(
                    self,
                )@[k].1 < u32::MAX,
        ensures
            final(self)@.len() == old(self)@.len(),
            forall|k: int|
                0 <= k < final(self)@.len() ==> #[trigger] final(self)@[k] == (
                    old(self)@[k].0,
                    (old(self)@[k].1 + if old(self)@[k].0 == player_id {
                        1int
                    } else {
                        0int
                    }) as u32,
                ),
    {
        proof {
            use_type_invariant(&*self);
        }
        let mut idx: usize = 0;
        while idx < self.players.len() && self.players[idx].0 != player_id
            invariant
                idx <= self.players@.len(),
                forall|k: int| 0 <= k < idx ==> self@[k].0 != player_id,
            decreases self.players.len() - idx,
        {
            idx = idx + 1;
        }
        if idx == self.players.len() {
            assert(false);
            return;
        }
        let (p, score) = self.players[idx];
        proof {
            assert forall|k: int| 0 <= k < self@.len() && k != idx implies #[trigger] self@[k].0
                != player_id by {
                let ids = ids_of(self@);
                if k < idx {
                } else {
                    assert(ids[idx as int].number() < ids[k].number());
                }
            }
        }
        let mut updated = vstd::slice::slice_to_vec(self.players.as_slice());
        updated.set(idx, (p, score + 1));
        proof {
            assert(ids_of(updated@) =~= ids_of(self@));
        }
        self.players = updated;
    }

    /// Each of the players `player_ids` receives a token of affection: a player
    /// named twice receives two.
    pub fn players_won_mut(&mut self, player_ids: &[PlayerId])
        requires
            forall|i: int| 0 <= i < player_ids@.len() ==> ids_of(old(self)@).contains(#[trigger] player_ids@[i]),
            forall|k: int|
                0 <= k < old(self)@.len() ==> #[trigger] old(self)@[k].1 + occurrences(
                    player_ids@,
                    old(self)@[k].0,
                ) <= u32::MAX,
        ensures
            final(self)@.len() == old(self)@.len(),
            forall|k: int|
                0 <= k < final(self)@.len() ==> #[trigger] final(self)@[k] == (
                    old(self)@[k].0,
                    (old(self)@[k].1 + occurrences(player_ids@, old(self)@[k].0)) as u32,
                ),
    {
        let ghost start = self@;
        let mut i: usize = 0;
        while i < player_ids.len()
            invariant
                i <= player_ids@.len(),
                self@.len() == start.len(),
                ids_of(self@) == ids_of(start),
                forall|j: int| 0 <= j < player_ids@.len() ==> ids_of(start).contains(#[trigger] player_ids@[j]),
                forall|k: int|
                    0 <= k < start.len() ==> #[trigger] start[k].1 + occurrences(
                        player_ids@,
                        start[k].0,
                    ) <= u32::MAX,
                forall|k: int|
                    0 <= k < self@.len() ==> #[trigger] self@[k] == (
                        start[k].0,
                        (start[k].1 + occurrences(player_ids@.take(i as int), start[k].0)) as u32,
                    ),
            decreases player_ids.len() - i,
        {
            let id = player_ids[i];
            proof {
                assert(player_ids@.take(i + 1).drop_last() =~= player_ids@.take(i as int));
                assert forall|k: int| 0 <= k < start.len() implies occurrences(
                    player_ids@.take(i + 1),
                    start[k].0,
                ) <= occurrences(player_ids@, start[k].0) by {
                    lemma_occurrences_prefix(player_ids@, i + 1, start[k].0);
                }
                assert forall|k: int|
                    0 <= k < self@.len() && #[trigger] self@[k].0 == id implies self@[k].1
                    < u32::MAX by {
                    assert(start[k].0 == id);
                }
                assert(ids_of(self@) == ids_of(start));
            }
            self.player_won_mut(id);
            proof {
                assert(ids_of(self@) =~= ids_of(start));
            }
            i = i + 1;
        }
        assert(player_ids@.take(player_ids@.len() as int) =~= player_ids@);
    }

    /// The game after each of the players `player_ids` receives a token of
    /// affection; this game is left as it is.
    pub fn players_won(&self, player_ids: &[PlayerId]) -> (g: Game)
        requires
            forall|i: int| 0 <= i < player_ids@.len() ==> ids_of(self@).contains(#[trigger] player_ids@[i]),
            forall|k: int|
                0 <= k < self@.len() ==> #[trigger] self@[k].1 + occurrences(
                    player_ids@,
                    self@[k].0,
                ) <= u32::MAX,
        ensures
            g@.len() == self@.len(),
            forall|k: int|
                0 <= k < g@.len() ==> #[trigger] g@[k] == (
                    self@[k].0,
                    (self@[k].1 + occurrences(player_ids@, self@[k].0)) as u32,
                ),
    {
        proof {
            use_type_invariant(self);
        }
        let mut new_game = Game { players: vstd::slice::slice_to_vec(self.players.as_slice()) };
        new_game.players_won_mut(player_ids);
        new_game
    }

    /// The players who have reached the winning score, in order of play.
    pub fn winners(&self) -> (w: Vec<PlayerId>)
        ensures
            w@ == game_winners(self@),
    {
        let ghost ps = self@;
        let mut w: Vec<PlayerId> = Vec::new();
        let mut i: usize = 0;
        while i < self.players.len()
            invariant
                i <= self.players.len(),
                ps == self@,
                w@ == game_winners(ps.take(i as int)),
            decreases self.players.len() - i,
        {
            assert(ps.take(i + 1).drop_last() =~= ps.take(i as int));
            let (id, n) = self.players[i];
            if n >= WINNING_SCORE {
                w.push(id);
            }
            i = i + 1;
        }
        assert(ps.take(ps.len() as int) =~= ps);
        w
    }
}

/// A prefix of a list names a player no more often than the whole list.
pub proof fn lemma_occurrences_prefix(ids: Seq<PlayerId>, n: int, id: PlayerId)
    requires
        0 <= n <= ids.len(),
    ensures
        occurrences(ids.take(n), id) <= occurrences(ids, id),
    decreases ids.len() - n,
{
    if n < ids.len() {
        assert(ids.take(n + 1).drop_last() =~= ids.take(n));
        lemma_occurrences_prefix(ids, n + 1, id);
    } else {
        assert(ids.take(n) =~= ids);
    }
}

/// Create a new game with the given number of arbitrary players: players
/// numbered from 0, with no tokens yet. `None` for a number of players outside 2 to 4.
pub fn new_game(num_players: usize) -> (g: Option<Game>)
    ensures
        g is Some <==> crate::player_id::valid_player_count(num_players as int),
        g matches Some(game) ==> ids_of(game@) == first_ids(num_players as nat) && forall|k: int|
            0 <= k < game@.len() ==> #[trigger] game@[k].1 == 0,
{
    match make_players(num_players) {
        Some(players) => Some(Game::new(players)),
        None => None,
    }
}

} // verus!
