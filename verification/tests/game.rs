use loveletter::game::{new_game, Game};
use loveletter::player_id::{player_id_generator, PlayerId, Players};
use loveletter::{Card, Round, RoundError};

fn make_player_ids(num_players: usize) -> Vec<PlayerId> {
    player_id_generator().take(num_players)
}

fn make_game_from_players(players: &[PlayerId]) -> Game {
    Players::new(players).map(|players| Game::new(players)).ok().unwrap()
}

fn make_game(num_players: usize) -> Game {
    new_game(num_players).unwrap()
}

#[test]
fn test_num_players() {
    let game = make_game(4);
    assert_eq!(game.num_players(), 4);
}

#[test]
fn test_make_round() {
    let g = make_game(4);
    let r = g.new_round();
    assert_eq!(r.num_players(), g.num_players());
}

#[test]
fn initial_scores_zero() {
    let game = make_game(4);
    let expected = vec![0, 0, 0, 0];
    assert_eq!(expected, game.scores());
}

#[test]
fn test_one_player_winning() {
    let players = make_player_ids(2);
    let mut game = make_game_from_players(players.as_slice());
    let expected = vec![0, 1];
    game.player_won_mut(players[1]);
    assert_eq!(expected, game.scores());
}

#[test]
fn many_players_winning() {
    let players = make_player_ids(4);
    let mut game = make_game_from_players(players.as_slice());
    let expected = vec![0, 1, 1, 0];
    game.players_won_mut(&[players[1], players[2]]);
    assert_eq!(expected, game.scores());
}

#[test]
fn immutable_players_winning() {
    let players = make_player_ids(4);
    let game = make_game_from_players(players.as_slice());
    let expected = vec![0, 1, 1, 0];
    let new_game = game.players_won(&[players[1], players[2]]);
    let new_scores = new_game.scores();
    assert_eq!(expected, new_scores);
}

#[test]
fn initial_winners() {
    let game = make_game(4);
    assert_eq!(Vec::<PlayerId>::new(), game.winners());
}

#[test]
fn test_new_round_from_game() {
    let game = new_game(4).unwrap();
    let round = game.new_round();
    assert_eq!(round.num_players(), 4);
}

#[test]
fn game_ends_at_four_tokens() {
    let players = make_player_ids(2);
    let mut game = make_game_from_players(&players);
    assert!(game.next_round().is_some());
    game.players_won_mut(&[players[0], players[0], players[0]]);
    assert_eq!(vec![3, 0], game.scores());
    assert!(game.next_round().is_some());
    let game = game.players_won(&[players[0]]);
    assert_eq!(vec![players[0]], game.winners());
    assert!(game.next_round().is_none());
}

#[test]
fn new_game_player_counts() {
    assert!(new_game(1).is_none());
    assert!(new_game(5).is_none());
    let g = new_game(3).unwrap();
    assert_eq!(make_player_ids(3), g.players());
}

#[test]
fn players_are_sorted_and_unique() {
    let ids = make_player_ids(3);
    let p = Players::new(&[ids[2], ids[0], ids[1]]).unwrap();
    assert_eq!(&ids[..], p.as_slice());
    assert_eq!(ids, p.iter().copied().collect::<Vec<PlayerId>>());
    assert!(matches!(Players::new(&[ids[0], ids[0]]), Err(loveletter::player_id::Error::DuplicatePlayers)));
    assert!(matches!(Players::new(&[ids[0]]), Err(loveletter::player_id::Error::InvalidNumPlayers(1))));
}

#[test]
fn make_players_numbers_from_zero() {
    let p = loveletter::player_id::make_players(2).unwrap();
    assert_eq!(vec![0, 1], p.as_slice().iter().map(|id| id.index()).collect::<Vec<u64>>());
    assert!(loveletter::player_id::make_players(0).is_none());
}

#[test]
fn config_counts() {
    assert_eq!(3, loveletter::config::Config::new(3).unwrap().num_players());
    assert_eq!(Err(loveletter::config::Error::InvalidPlayers(7)), loveletter::config::Config::new(7));
}

#[test]
fn manual_round_from_game_players() {
    let game = new_game(4).unwrap();
    let players = game.players();
    let result = Round::from_manual(
        &[
            (players[0], Some(Card::Soldier)),
            (players[1], Some(Card::Clown)),
            (players[2], Some(Card::Soldier)),
            (players[3], Some(Card::Knight)),
        ],
        &[Card::Soldier, Card::Princess, Card::Minister],
        None,
    );
    assert!(result.is_ok());
    assert_eq!(Err(RoundError::InvalidPlayers(0)), Round::from_manual(&[], &[], None));
}
