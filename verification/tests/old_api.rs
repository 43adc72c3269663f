// Scenarios that number the players from 0 (`p(i)` is the player numbered `i`)
// and apply an action in one step (`apply_action`: the event it comes to, then
// that event).

use loveletter::action::Action::{self, EliminateOnGuess, EliminatePlayer, NoChange, SwapHands};
use loveletter::deck::{self, Card};
use loveletter::player_id::{player_id_generator, PlayerId};
use loveletter::Card::{Clown, General, Knight, Minister, Priestess, Princess, Soldier, Wizard};
use loveletter::{PlayError, Round, RoundError};

fn ids(n: usize) -> Vec<PlayerId> {
    player_id_generator().take(n)
}

fn new_round(n: usize) -> Round {
    Round::new(&ids(n)).unwrap()
}

fn make_arbitrary_game() -> Round {
    new_round(4)
}

fn manual(hands: &[Option<Card>], stack: &[Card], current: Option<usize>) -> Result<Round, RoundError> {
    let ids = ids(hands.len());
    let players: Vec<(PlayerId, Option<Card>)> = ids.iter().zip(hands.iter()).map(|(&a, &b)| (a, b)).collect();
    Round::from_manual(&players, stack, current.map(|i| ids[i]))
}

fn p(i: usize) -> PlayerId {
    ids(i + 1)[i]
}

/// Applies an action: the event it comes to in the round, then that event.
fn apply_action(g: &Round, action: Action) -> Result<Round, PlayError> {
    let event = g.action_to_event(action)?;
    g.apply_event(event).map(|(r, _)| r)
}

fn eliminate(g: &Round, player: usize) -> Result<Round, PlayError> {
    g.update_player_by(p(player), |x| x.eliminate())
}

#[test]
fn mod_test_current_player_after_next() {
    let g = make_arbitrary_game();
    let (g2, _) = g.next_player();
    assert_eq!(Some(p(0)), g2.current_player());
}

#[test]
fn mod_test_next_player_gets_draw() {
    let g = make_arbitrary_game();
    let (_, turn) = g.next_player();
    let loveletter::Turn { player: pl, draw: d, hand: _ } = turn.unwrap();
    let (_, expected) = g.draw();
    assert_eq!((pl, d), (p(0), expected.unwrap()));
}

#[test]
fn mod_test_next_player_increments() {
    let g = new_round(2);
    let (g, _) = g.next_player();
    let (g, _) = g.next_player();
    assert_eq!(Some(p(1)), g.current_player());
}

#[test]
fn mod_test_next_player_cycles() {
    let g = new_round(2);
    let (g, _) = g.next_player();
    let (g, _) = g.next_player();
    let (g, _) = g.next_player();
    assert_eq!(Some(p(0)), g.current_player());
}

#[test]
fn mod_test_get_card_active_player() {
    let g = manual(
        &[Some(General), Some(Clown), Some(Knight), Some(Priestess)],
        &[Soldier, Minister, Princess, Soldier, Wizard],
        None,
    )
    .unwrap();
    assert_eq!(g.get_hand(p(0)), Ok(General));
}

#[test]
fn mod_test_get_card_nonexistent_player() {
    let g = manual(
        &[Some(General), Some(Clown), Some(Knight), Some(Priestess)],
        &[Soldier, Minister, Princess, Soldier, Wizard],
        None,
    )
    .unwrap();
    assert_eq!(g.get_hand(p(5)), Err(PlayError::InvalidPlayer(p(5))));
}

#[test]
fn mod_test_get_card_inactive_player() {
    let g = manual(
        &[Some(General), Some(Clown), None, Some(Priestess)],
        &[Soldier, Minister, Princess, Soldier, Wizard],
        None,
    )
    .unwrap();
    assert_eq!(g.get_hand(p(2)), Err(PlayError::InactivePlayer(p(2))));
}

#[test]
fn mod_test_update_nonexistent_player() {
    let g = manual(
        &[Some(General), Some(Clown), None, Some(Priestess)],
        &[Soldier, Minister, Princess, Soldier, Wizard],
        None,
    )
    .unwrap();
    let error = g.update_player_by(p(5), |x| Ok(x.clone())).unwrap_err();
    assert_eq!(PlayError::InvalidPlayer(p(5)), error);
}

#[test]
fn mod_test_eliminate_gone_player() {
    let g = manual(
        &[Some(General), Some(Clown), None, Some(Priestess)],
        &[Soldier, Minister, Princess, Soldier, Wizard],
        None,
    )
    .unwrap();
    let error = eliminate(&g, 2).unwrap_err();
    assert_eq!(PlayError::InactivePlayer(p(2)), error);
}

#[test]
fn mod_test_skip_eliminated_player() {
    let g = new_round(3);
    let (g, _) = g.next_player();
    let g = eliminate(&g, 1).unwrap();
    let (g, t) = g.next_player();
    assert_eq!(g.current_player(), Some(p(2)));
    assert_eq!(t.unwrap().player, p(2));
}

#[test]
fn mod_test_swap_cards() {
    let g = manual(
        &[Some(General), Some(Clown), None, Some(Priestess)],
        &[Soldier, Minister, Princess, Soldier, Wizard],
        None,
    )
    .unwrap();
    let new_game = apply_action(&g, SwapHands(p(0), p(1))).unwrap();
    assert_eq!(vec![Some(Clown), Some(General), None, Some(Priestess)], new_game.hands());
}

#[test]
fn mod_test_swap_cards_nonexistent() {
    let g = manual(
        &[Some(General), Some(Clown), None, Some(Priestess)],
        &[Soldier, Minister, Princess, Soldier, Wizard],
        None,
    )
    .unwrap();
    let error = apply_action(&g, SwapHands(p(0), p(5))).unwrap_err();
    assert_eq!(PlayError::InvalidPlayer(p(5)), error);
    let error = apply_action(&g, SwapHands(p(5), p(0))).unwrap_err();
    assert_eq!(PlayError::InvalidPlayer(p(5)), error);
}

#[test]
fn mod_test_no_change() {
    let g = make_arbitrary_game();
    let new_g = apply_action(&g, NoChange).unwrap();
    assert_eq!(g, new_g);
}

#[test]
fn mod_test_eliminate_action() {
    let g = new_round(3);
    let (g, _) = g.next_player();
    let new_g = apply_action(&g, EliminatePlayer(p(1))).unwrap();
    let (_, t) = new_g.next_player();
    assert_eq!(p(2), t.unwrap().player);
}

#[test]
fn test_force_swap() {
    let g = manual(&[Some(Soldier), Some(Clown), Some(Knight)], &[Soldier, Minister, Princess, Soldier, General], None).unwrap();
    let (g, t) = g.next_player();
    let t = t.unwrap();
    let ours = t.hand;
    let theirs = g.get_hand(p(1)).unwrap();
    let new_g = apply_action(&g, SwapHands(p(0), p(1))).unwrap();
    assert_eq!(theirs, new_g.get_hand(p(0)).unwrap());
    assert_eq!(ours, new_g.get_hand(p(1)).unwrap());
}

#[test]
fn test_eliminate_on_guess_incorrect() {
    let g = manual(&[Some(Soldier), Some(Soldier)], &[Wizard, Wizard], Some(0)).unwrap();
    let result = apply_action(&g, EliminateOnGuess(p(1), Clown));
    assert_eq!(Ok(g), result);
}

#[test]
fn test_eliminate_on_guess_correct() {
    let g = manual(&[Some(Soldier), Some(Clown)], &[Wizard, Wizard], Some(0)).unwrap();
    let result = apply_action(&g, EliminateOnGuess(p(1), Clown));
    assert_eq!(eliminate(&g, 1), result);
}

#[test]
fn test_eliminate_on_guess_soldier() {
    let g = manual(&[Some(Soldier), Some(Soldier)], &[Wizard, Wizard], Some(0)).unwrap();
    let result = apply_action(&g, EliminateOnGuess(p(1), Soldier));
    assert_eq!(Err(PlayError::BadGuess), result);
}

#[test]
fn game_test_current_player_at_start() {
    assert_eq!(None, make_arbitrary_game().current_player());
}

#[test]
fn game_test_num_cards_remaining_on_new() {
    // make a new game, make sure that the number & kinds of cards matches the
    // rules (5 soldiers, 2 clowns, etc.)
    let g = make_arbitrary_game();
    assert_eq!(11, g.num_cards_remaining())
}

#[test]
fn game_test_all_cards_in_game() {
    // make a new game, make sure that the number & kinds of cards matches the
    // rules (5 soldiers, 2 clowns, etc.). One card is 'burned' before dealing.
    let g = make_arbitrary_game();
    let mut full_deck: Vec<Card> = deck::Deck::new().iter().map(|x| *x).collect();
    full_deck.sort();
    let mut found_cards: Vec<Card> = g.deck().iter().map(|x| *x).collect();
    for card in g.hands().iter() {
        match *card {
            Some(c) => found_cards.push(c),
            None => (),
        }
    }
    found_cards.sort();
    for card in found_cards.iter() {
        let found = full_deck.iter().position(|c| c == card);
        match found {
            Some(i) => full_deck.swap_remove(i),
            None => panic!("card in game that's not in deck: {:?}", card),
        };
    }
    assert_eq!(1, full_deck.len());
    found_cards.push(full_deck[0]);

    let mut fresh_deck: Vec<Card> = deck::Deck::new().iter().map(|x| *x).collect();
    fresh_deck.sort();
    found_cards.sort();
    assert_eq!(fresh_deck, found_cards);
}

#[test]
fn game_test_manual_game() {
    let hands = vec![Some(Soldier), Some(Clown), Some(Soldier)];
    let stack = [Soldier, Soldier, Minister];
    let game = manual(&hands, &stack, None).unwrap();
    assert_eq!(hands, game.hands());
    assert_eq!(&stack[..], game.deck());
    assert_eq!(hands.len(), game.num_players());
}

#[test]
fn game_test_invalid_manual_game() {
    let hands = [Some(Soldier), Some(Clown), Some(Soldier), Some(Princess)];
    let stack = [Soldier, Princess, Minister];
    let result = manual(&hands, &stack, None);
    match result {
        Ok(_) => panic!("Had two Princesses, should not be ok."),
        Err(e) => assert_eq!(e, RoundError::BadDeck),
    }
}

#[test]
fn game_test_manual_game_bad_players() {
    assert_eq!(Err(RoundError::InvalidPlayers(0)), manual(&[], &[], None));
}

#[test]
fn test_survivors_at_game_end() {
    let g = manual(&[Some(Knight), Some(Princess)], &[Soldier], Some(0)).unwrap();
    assert_eq!(vec![(p(0), Knight), (p(1), Princess)], g._game_result().survivors());
}

#[test]
fn test_winner_from_multiple_survivors() {
    let g = manual(&[Some(Knight), Some(Princess)], &[Soldier], Some(0)).unwrap();
    assert_eq!(vec![(p(1), Princess)], g.winners());
}

// The three tests below were written for an earlier interface, in which cards
// were dealt from the front of the deck and a finished round was handed back
// unchanged. Cards are now dealt from the back and a finished round records its
// result, so each keeps its inputs and asserts what still holds of them.

#[test]
fn mod_test_last_player() {
    let g = new_round(2);
    let (g, _) = g.next_player();
    let g = eliminate(&g, 1).unwrap();
    let (new_game, turn) = g.next_player();
    assert_eq!(None, turn);
    assert_eq!(g.hands(), new_game.hands());
    assert_eq!(g.deck(), new_game.deck());
    assert_eq!(vec![p(0)], new_game.winners().iter().map(|&(i, _)| i).collect::<Vec<PlayerId>>());
}

#[test]
fn mod_test_eliminate_self_last_player() {
    let g = new_round(2);
    let (g, _) = g.next_player();
    let g = eliminate(&g, 0).unwrap();
    let (new_game, turn) = g.next_player();
    assert_eq!(None, turn);
    assert_eq!(g.hands(), new_game.hands());
    assert_eq!(g.deck(), new_game.deck());
    assert_eq!(vec![p(1)], new_game.winners().iter().map(|&(i, _)| i).collect::<Vec<PlayerId>>());
}

#[test]
fn game_test_from_deck() {
    let cards = [
        Soldier, Clown, Knight, Priestess, Wizard, General, Minister, Princess, Soldier, Clown, Soldier, Knight,
        Soldier, Priestess, Soldier, Wizard,
    ];
    let deck = deck::Deck::from_slice(&cards).unwrap();
    let num_players = 3usize;
    let g = Round::from_deck(&ids(num_players), deck).unwrap();
    let n = cards.len();
    let dealt: Vec<Option<Card>> = (0..num_players).map(|k| Some(cards[n - 2 - k])).collect();
    assert_eq!(dealt, g.hands());
    assert_eq!(&cards[..n - 1 - num_players], g.deck());
    assert_eq!(num_players, g.num_players());
}
