//! Configuration for a game of Love Letter.
//!
//! Love Letter is a very simple game, so there's very little configuration:
//! just the number of players.

use vstd::prelude::*;

verus! {

/// The configuration of a game: how many play it.
#[derive(Debug, Clone, Copy, PartialEq, Eq, Structural)]
pub struct Config {
    num_players: usize,
}

/// Why a configuration was refused.
#[derive(Debug, Clone, Copy, PartialEq, Eq, Structural)]
pub enum Error {
    /// Specified an invalid number of players.
    InvalidPlayers(usize),
}

impl Config {
    /// The number of players the configuration was made with.
    pub closed spec fn players(self) -> usize {
        self.num_players
    }

    /// A configuration for `num_players` players, who must be between 2 and 4.
    pub fn new(num_players: usize) -> (r: Result<Config, Error>)
        ensures
            crate::player_id::valid_player_count(num_players as int) ==> (r matches Ok(c) && c.players()
                == num_players),
            !crate::player_id::valid_player_count(num_players as int) ==> r == Err::<Config, Error>(
                Error::InvalidPlayers(num_players),
            ),
    {
        if valid_player_count(num_players) {
            Ok(Config { num_players })
        } else {
            Err(Error::InvalidPlayers(num_players))
        }
    }

    /// The number of players.
    pub fn num_players(&self) -> (n: usize)
        ensures
            n == self.players(),
    {
        self.num_players
    }
}

/// Whether the game can be played by `num_players` players: 2 to 4 can.
fn valid_player_count(num_players: usize) -> (r: bool)
    ensures
        r == crate::player_id::valid_player_count(num_players as int),
{
    2 <= num_players && num_players <= 4
}

} // verus!
