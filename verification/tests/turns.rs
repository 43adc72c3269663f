use loveletter::{Card, Play, PlayError, PlayerId, Round};

fn make_round(hands: &[Option<Card>], deck: &[Card], current_player: Option<usize>) -> (Round, Vec<PlayerId>) {
    let game = loveletter::game::new_game(hands.len()).unwrap();
    let players = game.players();
    assert_eq!(players.len(), hands.len());
    let hands: Vec<(PlayerId, Option<Card>)> = players.iter().zip(hands.iter()).map(|(&a, &b)| (a, b)).collect();
    (Round::from_manual(hands.as_slice(), deck, current_player.map(|i| players[i])).unwrap(), players)
}

fn next_turn_err(g: &Round, c: Card, p: Play) -> PlayError {
    let result = g.handle_turn(|_, _| (c, p), |_, _| ());
    match result {
        Err(e) => e,
        _ => panic!("Unexpectedly successful"),
    }
}

fn next_turn(g: &Round, c: Card, p: Play) -> Round {
    let (g, _) = g.handle_turn(|_, _| (c, p), |_, _| ()).unwrap().unwrap();
    g
}

#[test]
fn test_inactive_player_attack() {
    let (g, players) = make_round(
        &[Some(Card::General), Some(Card::Clown), None],
        &[Card::Soldier, Card::Minister, Card::Princess, Card::Soldier],
        None,
    );
    assert_eq!(PlayError::InactivePlayer(players[2]), next_turn_err(&g, Card::General, Play::Attack(players[2])));
}

#[test]
fn test_inactive_player_guess() {
    let (g, players) = make_round(
        &[Some(Card::General), Some(Card::Clown), None],
        &[Card::Soldier, Card::Minister, Card::Princess, Card::Soldier],
        None,
    );
    assert_eq!(
        PlayError::InactivePlayer(players[2]),
        next_turn_err(&g, Card::Soldier, Play::Guess(players[2], Card::Wizard))
    );
}

#[test]
fn test_bad_guess() {
    let (g, players) = make_round(
        &[Some(Card::General), Some(Card::Clown), None],
        &[Card::Soldier, Card::Minister, Card::Princess, Card::Soldier],
        None,
    );
    assert_eq!(PlayError::BadGuess, next_turn_err(&g, Card::Soldier, Play::Guess(players[1], Card::Soldier)));
}

#[test]
fn test_princess_discard_loses() {
    let (g, players) = make_round(
        &[Some(Card::Princess), Some(Card::Clown), None],
        &[Card::Soldier, Card::Minister, Card::Soldier, Card::Soldier],
        None,
    );
    let new_g = next_turn(&g, Card::Princess, Play::NoEffect);
    assert_eq!(vec![(players[1], Card::Clown)], new_g.winners());
}

#[test]
fn test_princess_forced_discard_loses() {
    let (g, players) = make_round(
        &[Some(Card::Wizard), Some(Card::Princess), None],
        &[Card::Soldier, Card::Minister, Card::Soldier, Card::Soldier],
        None,
    );
    let new_g = next_turn(&g, Card::Wizard, Play::Attack(players[1]));
    assert_eq!(vec![(players[0], Card::Soldier)], new_g.winners());
}

#[test]
fn test_princess_self_forced_discard_loses() {
    let (g, players) = make_round(
        &[Some(Card::Wizard), Some(Card::Soldier), None],
        &[Card::Soldier, Card::Minister, Card::Soldier, Card::Princess],
        None,
    );
    let new_g = next_turn(&g, Card::Wizard, Play::Attack(players[0]));
    assert_eq!(vec![(players[1], Card::Soldier)], new_g.winners());
}

#[test]
fn test_minister_eliminates_player() {
    let (g, players) = make_round(&[Some(Card::General), Some(Card::Soldier)], &[Card::Wizard, Card::Minister], None);
    let new_g = next_turn(&g, Card::General, Play::Attack(players[1]));
    assert_eq!(vec![(players[1], Card::Soldier)], new_g.winners());
}

#[test]
fn test_minister_eliminates_player_2() {
    let (g, players) = make_round(&[Some(Card::Minister), Some(Card::Soldier)], &[Card::Wizard, Card::Wizard], None);
    let new_g = next_turn(&g, Card::General, Play::Attack(players[1]));
    assert_eq!(vec![(players[1], Card::Soldier)], new_g.winners());
}

#[test]
fn test_priestess_immune_to_soldier_guess() {
    let (g, players) = make_round(&[Some(Card::Priestess), Some(Card::Soldier)], &[Card::Clown, Card::Wizard], None);
    let new_g = next_turn(&g, Card::Priestess, Play::NoEffect);
    let new_g = next_turn(&new_g, Card::Soldier, Play::Guess(players[0], Card::Wizard));
    // If player 0 is not protected by the priestess, then at this point,
    // player 1 will have won. If 0 *is* protected, then they win, because
    // they have the Wizard, which is higher than the Clown.
    assert_eq!(vec![(players[0], Card::Wizard)], new_g.winners());
}

#[test]
fn test_priestess_immune_to_clown() {
    let (g, players) = make_round(&[Some(Card::Priestess), Some(Card::Clown)], &[Card::Clown, Card::Wizard], None);
    let new_g = next_turn(&g, Card::Priestess, Play::NoEffect);
    let new_g = next_turn(&new_g, Card::Clown, Play::Attack(players[0]));
    assert_eq!(vec![(players[0], Card::Wizard)], new_g.winners());
}

#[test]
fn test_priestess_immune_to_knight() {
    let (g, players) = make_round(
        &[Some(Card::Priestess), Some(Card::Knight)],
        &[Card::Soldier, Card::Wizard, Card::Minister, Card::Wizard],
        None,
    );
    let new_g = next_turn(&g, Card::Priestess, Play::NoEffect);
    let new_g = next_turn(&new_g, Card::Knight, Play::Attack(players[0]));
    let new_g = next_turn(&new_g, Card::Wizard, Play::Attack(players[1]));
    assert_eq!(vec![(players[0], Card::Wizard)], new_g.winners());
}

#[test]
fn test_priestess_immune_to_wizard() {
    let (g, players) = make_round(&[Some(Card::Priestess), Some(Card::Wizard)], &[Card::Clown, Card::Wizard], None);
    let new_g = next_turn(&g, Card::Priestess, Play::NoEffect);
    let new_g = next_turn(&new_g, Card::Wizard, Play::Attack(players[0]));
    assert_eq!(vec![(players[0], Card::Wizard)], new_g.winners());
}

#[test]
fn test_priestess_immune_to_general() {
    let (g, players) = make_round(&[Some(Card::Priestess), Some(Card::General)], &[Card::Soldier, Card::Princess], None);
    let new_g = next_turn(&g, Card::Priestess, Play::NoEffect);
    let new_g = next_turn(&new_g, Card::General, Play::Attack(players[0]));
    assert_eq!(vec![(players[0], Card::Princess)], new_g.winners());
}

#[test]
fn test_priestess_immunity_expires() {
    let (g, players) = make_round(
        &[Some(Card::Priestess), Some(Card::Soldier)],
        &[Card::Soldier, Card::Wizard, Card::Clown, Card::Clown],
        None,
    );
    let new_g = next_turn(&g, Card::Priestess, Play::NoEffect);
    let new_g = next_turn(&new_g, Card::Soldier, Play::Guess(players[0], Card::Wizard));
    let new_g = next_turn(&new_g, Card::Clown, Play::Attack(players[1]));
    let new_g = next_turn(&new_g, Card::Soldier, Play::Guess(players[0], Card::Wizard));
    assert_eq!(vec![(players[1], Card::Clown)], new_g.winners());
}

#[test]
fn clown_reveals_target_card() {
    let (g, players) = make_round(&[Some(Card::Clown), Some(Card::Knight)], &[Card::Soldier, Card::Wizard], None);
    let seen = std::cell::RefCell::new(Vec::new());
    let (_, outcome) = g
        .handle_turn(|_, _| (Card::Clown, Play::Attack(players[1])), |p, c| seen.borrow_mut().push((p, c)))
        .unwrap()
        .unwrap();
    assert_eq!(vec![(players[1], Card::Knight)], *seen.borrow());
    match outcome {
        loveletter::TurnOutcome::Played(p, c, _, events) => {
            assert_eq!(players[0], p);
            assert_eq!(Card::Clown, c);
            assert_eq!(vec![loveletter::Event::ForcedReveal(players[0], players[1])], events);
        }
        _ => panic!("expected a play"),
    }
}

#[test]
fn wizard_on_princess_gives_two_events() {
    let (g, players) = make_round(
        &[Some(Card::Wizard), Some(Card::Princess), None],
        &[Card::Soldier, Card::Minister, Card::Soldier, Card::Soldier],
        None,
    );
    let (_, outcome) = g.handle_turn(|_, _| (Card::Wizard, Play::Attack(players[1])), |_, _| ()).unwrap().unwrap();
    match outcome {
        loveletter::TurnOutcome::Played(_, _, _, events) => assert_eq!(
            vec![
                loveletter::Event::ForcedDiscard(players[1]),
                loveletter::Event::PlayerEliminated(players[1])
            ],
            events
        ),
        _ => panic!("expected a play"),
    }
}

#[test]
fn busting_out_reports_player() {
    let (g, players) = make_round(&[Some(Card::General), Some(Card::Soldier)], &[Card::Wizard, Card::Minister], None);
    let (after, outcome) = g.handle_turn(|_, _| (Card::General, Play::Attack(players[1])), |_, _| ()).unwrap().unwrap();
    match outcome {
        loveletter::TurnOutcome::BustedOut(p) => assert_eq!(players[0], p),
        _ => panic!("expected a bust"),
    }
    assert_eq!(Err(PlayError::InactivePlayer(players[0])), after.get_hand(players[0]));
}

#[test]
fn playing_a_card_not_held() {
    let (g, _) = make_round(&[Some(Card::General), Some(Card::Soldier)], &[Card::Wizard, Card::Clown], None);
    assert_eq!(
        PlayError::CardNotFound(Card::Knight, (Card::General, Card::Clown)),
        next_turn_err(&g, Card::Knight, Play::NoEffect)
    );
}

#[test]
fn round_ends_when_cards_run_out() {
    let (g, players) = make_round(&[Some(Card::Priestess), Some(Card::Knight)], &[Card::Minister], None);
    let new_g = next_turn(&g, Card::Minister, Play::NoEffect);
    assert!(new_g.handle_turn(|_, _| (Card::Knight, Play::NoEffect), |_, _| ()).unwrap().is_none());
    assert_eq!(vec![(players[0], Card::Priestess)], new_g.winners());
}

#[test]
fn turn_keeps_players_in_their_seats() {
    let (g, players) = make_round(&[Some(Card::Priestess), Some(Card::Clown)], &[Card::Soldier, Card::Soldier, Card::Knight], None);
    assert_eq!(players, g.player_ids());
    let new_g = next_turn(&g, Card::Priestess, Play::NoEffect);
    assert_eq!(players, new_g.player_ids());
    let new_g = next_turn(&new_g, Card::Soldier, Play::Guess(players[0], Card::Wizard));
    assert_eq!(players, new_g.player_ids());
}
