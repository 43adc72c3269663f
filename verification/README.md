# loveletter

The card game [Love Letter](http://boardgamegeek.com/boardgame/129622/love-letter),
with its rules written as Verus specifications and its code proved against them.

- `src/` is the verified library:
  - `deck.rs`: the cards, the full deck of sixteen, shuffling;
  - `action.rs`: which plays each card allows, and the action each comes to;
  - `player.rs`, `player_id.rs`: players, their hands, discards and protection;
  - `round_state.rs`: the mathematical model of a round and the laws proved of it
    (cards are neither created nor lost, turn order, when a round ends, the
    Priestess's protection);
  - `round.rs`: a round as it is played, turn by turn;
  - `game.rs`: a game of several rounds, won with four tokens of affection;
  - `text.rs`: what the game tells the players: names of cards and players,
    numbered lists to choose from, the report of a turn, the end of a round;
  - `prompt.rs`, `util.rs`: reading a choice, and small sequence helpers.
- `app/` is the command-line game for two players at one terminal.
- `tests/` runs the library on concrete games.
