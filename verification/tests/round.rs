use loveletter::deck::{self, Card};
use loveletter::player::Player;
use loveletter::player_id::{player_id_generator, PlayerId};
use loveletter::round::minister_bust;
use loveletter::{Event, PlayError, Round, RoundResult, Turn};

fn make_player_ids(num_players: usize) -> Vec<PlayerId> {
    player_id_generator().take(num_players)
}

fn make_round(num_players: usize) -> Round {
    let players: Vec<PlayerId> = make_player_ids(num_players);
    Round::new(players.as_slice()).unwrap()
}

fn make_arbitrary_game() -> Round {
    make_round(4)
}

fn eliminate(g: &Round, player_id: PlayerId) -> Result<Round, PlayError> {
    g.update_player_by(player_id, |p| p.eliminate())
}

fn assert_winners(game: &Round, expected_winners: Vec<PlayerId>) {
    let observed_winners: Vec<PlayerId> = game.winners().iter().map(|&(i, _)| i).collect();
    assert_eq!(expected_winners, observed_winners);
}

#[test]
fn round_test_current_player_at_start() {
    assert_eq!(None, make_arbitrary_game().current_player());
}

#[test]
fn round_test_num_cards_remaining_on_new() {
    // make a new game, make sure that the number & kinds of cards matches the
    // rules (5 soldiers, 2 clowns, etc.)
    let g = make_arbitrary_game();
    assert_eq!(11, g.num_cards_remaining())
}

#[test]
fn round_test_all_cards_in_game() {
    // make a new game, make sure that the number & kinds of cards matches the
    // rules (5 soldiers, 2 clowns, etc.). One card is 'burned' before dealing.
    let g = make_arbitrary_game();
    let mut full_deck: Vec<Card> = deck::Deck::new().iter().map(|x| *x).collect();
    full_deck.sort();
    let mut found_cards: Vec<Card> = g.deck().iter().map(|x| *x).collect();
    for card in g.hands().iter() {
        match *card {
            Some(c) => found_cards.push(c),
            None => (),
        }
    }
    found_cards.sort();
    for card in found_cards.iter() {
        let found = full_deck.iter().position(|c| c == card);
        match found {
            Some(i) => full_deck.swap_remove(i),
            None => panic!("card in game that's not in deck: {:?}", card),
        };
    }
    assert_eq!(1, full_deck.len());
    found_cards.push(full_deck[0]);

    let mut fresh_deck: Vec<Card> = deck::Deck::new().iter().map(|x| *x).collect();
    fresh_deck.sort();
    found_cards.sort();
    assert_eq!(fresh_deck, found_cards);
}

#[test]
fn round_test_from_deck() {
    let cards = [
        Card::Soldier,
        Card::Clown,
        Card::Knight,
        Card::Priestess,
        Card::Wizard,
        Card::General,
        Card::Minister,
        Card::Princess,
        Card::Soldier,
        Card::Clown,
        Card::Soldier,
        Card::Knight,
        Card::Soldier,
        Card::Priestess,
        Card::Soldier,
        Card::Wizard,
    ];
    let num_cards = cards.len();
    let deck = deck::Deck::from_slice(&cards).unwrap();
    let num_players = 3usize;
    let players = make_player_ids(num_players);
    let g = Round::from_deck(players.as_slice(), deck).unwrap();
    assert_eq!(
        cards[num_cards - num_players - 1..num_cards - 1]
            .iter()
            .map(|&x| Some(x))
            .collect::<Vec<Option<Card>>>(),
        g.hands()
    );
    assert_eq!(&cards[..num_cards - num_players - 1], g.deck());
    assert_eq!(num_players, g.num_players());
}

#[test]
fn round_test_manual_game() {
    let mut id_gen = player_id_generator();
    let hands = vec![
        (id_gen.next().unwrap(), Some(Card::Soldier)),
        (id_gen.next().unwrap(), Some(Card::Clown)),
        (id_gen.next().unwrap(), Some(Card::Soldier)),
    ];
    let stack = [Card::Soldier, Card::Soldier, Card::Minister];
    let round = Round::from_manual(hands.as_slice(), &stack, None).unwrap();
    assert_eq!(vec![Some(Card::Soldier), Some(Card::Clown), Some(Card::Soldier)], round.hands());
    assert_eq!(&stack[..], round.deck());
    assert_eq!(hands.len(), round.num_players());
}

#[test]
fn round_test_current_player_after_next() {
    let g = make_arbitrary_game();
    let (g2, _) = g.next_player();
    let player_ids = g.player_ids();
    assert_eq!(player_ids[0], g2.current_player().unwrap());
}

#[test]
fn round_test_next_player_gets_draw() {
    let g = make_arbitrary_game();
    let (g2, turn) = g.next_player();
    let Turn { player: p, draw: d, hand: _ } = turn.unwrap();
    let expected_player = g2.current_player().unwrap();
    let (_, expected_draw) = g.draw();
    assert_eq!((p, d), (expected_player, expected_draw.unwrap()));
}

#[test]
fn round_test_next_player_increments() {
    let g = make_round(2);
    let player_ids = g.player_ids();
    let (g, _) = g.next_player();
    let (g, _) = g.next_player();
    assert_eq!(player_ids[1], g.current_player().unwrap());
}

#[test]
fn round_test_next_player_cycles() {
    let g = make_round(2);
    let player_ids = g.player_ids();
    let (g, _) = g.next_player();
    let (g, _) = g.next_player();
    let (g, _) = g.next_player();
    assert_eq!(player_ids[0], g.current_player().unwrap());
}

#[test]
fn round_test_get_card_active_player() {
    let player_ids = make_player_ids(4);
    let g = Round::from_manual(
        &[
            (player_ids[0], Some(Card::General)),
            (player_ids[1], Some(Card::Clown)),
            (player_ids[2], Some(Card::Knight)),
            (player_ids[3], Some(Card::Priestess)),
        ],
        &[Card::Soldier, Card::Minister, Card::Princess, Card::Soldier, Card::Wizard],
        None,
    )
    .unwrap();
    assert_eq!(g.get_hand(player_ids[0]), Ok(Card::General));
}

#[test]
fn round_test_get_card_nonexistent_player() {
    let players: Vec<PlayerId> = make_player_ids(5);
    let round = Round::new(&players[..4]).unwrap();
    let bad_id = players[4];
    assert_eq!(round.get_hand(bad_id), Err(PlayError::InvalidPlayer(bad_id)));
}

#[test]
fn round_test_get_card_inactive_player() {
    let player_ids = make_player_ids(4);
    let g = Round::from_manual(
        &[
            (player_ids[0], Some(Card::General)),
            (player_ids[1], Some(Card::Clown)),
            (player_ids[2], None),
            (player_ids[3], Some(Card::Priestess)),
        ],
        &[Card::Soldier, Card::Minister, Card::Princess, Card::Soldier, Card::Wizard],
        None,
    )
    .unwrap();
    assert_eq!(g.get_hand(player_ids[2]), Err(PlayError::InactivePlayer(player_ids[2])));
}

#[test]
fn round_test_update_nonexistent_player() {
    let players: Vec<PlayerId> = make_player_ids(5);
    let round = Round::new(&players[..4]).unwrap();
    let bad_id = players[4];
    let error = round.update_player_by(bad_id, |p| Ok(p.clone())).unwrap_err();
    assert_eq!(PlayError::InvalidPlayer(bad_id), error);
}

#[test]
fn round_test_eliminate_gone_player() {
    let player_ids = make_player_ids(4);
    let g = Round::from_manual(
        &[
            (player_ids[0], Some(Card::General)),
            (player_ids[1], Some(Card::Clown)),
            (player_ids[2], None),
            (player_ids[3], Some(Card::Priestess)),
        ],
        &[Card::Soldier, Card::Minister, Card::Princess, Card::Soldier, Card::Wizard],
        None,
    )
    .unwrap();
    let error = eliminate(&g, player_ids[2]).unwrap_err();
    assert_eq!(PlayError::InactivePlayer(player_ids[2]), error);
}

#[test]
fn round_test_skip_eliminated_player() {
    let round = make_round(3);
    let player_ids = round.player_ids();
    let (round, _) = round.next_player();
    let round = eliminate(&round, player_ids[1]).unwrap();
    let (round, t) = round.next_player();
    assert_eq!(round.current_player(), Some(player_ids[2]));
    assert_eq!(t.unwrap().player, player_ids[2]);
}

#[test]
fn round_test_last_player() {
    let g = make_round(2);
    let players = g.player_ids();
    let (g, _) = g.next_player();
    let g = eliminate(&g, players[1]).unwrap();
    let (new_game, turn) = g.next_player();
    assert_eq!(None, turn);
    assert_winners(&new_game, vec![players[0]]);
}

#[test]
fn round_test_eliminate_self_last_player() {
    let g = make_round(2);
    let players = g.player_ids();
    let (g, _) = g.next_player();
    let g = eliminate(&g, players[0]).unwrap();
    let (new_game, turn) = g.next_player();
    assert_eq!(None, turn);
    assert_winners(&new_game, vec![players[1]]);
}

#[test]
fn round_test_swap_cards() {
    let round = make_round(4);
    let original_hands = round.hands();
    let players = round.player_ids();
    let (new_round, _) = round.apply_event(Event::SwappedHands(players[0], players[1])).unwrap();

    assert_eq!(
        vec![original_hands[1], original_hands[0], original_hands[2], original_hands[3]],
        new_round.hands()
    );
}

#[test]
fn round_test_swap_cards_nonexistent() {
    let players: Vec<PlayerId> = make_player_ids(5);
    let round = Round::new(&players[..4]).unwrap();
    let bad_id = players[4];
    let error = round.apply_event(Event::SwappedHands(players[0], bad_id)).unwrap_err();
    assert_eq!(PlayError::InvalidPlayer(bad_id), error);
    let error = round.apply_event(Event::SwappedHands(bad_id, players[0])).unwrap_err();
    assert_eq!(PlayError::InvalidPlayer(bad_id), error);
}

#[test]
fn round_test_no_change() {
    let g = make_arbitrary_game();
    let (new_g, _) = g.apply_event(Event::NoChange).unwrap();
    assert_eq!(g, new_g);
}

#[test]
fn round_test_eliminate_action() {
    let g = make_round(3);
    let players = g.player_ids();
    let (g, _) = g.next_player();
    let (new_g, _) = g.apply_event(Event::PlayerEliminated(players[1])).unwrap();
    let (_, t) = new_g.next_player();
    assert_eq!(players[2], t.unwrap().player);
}

#[test]
fn test_round_result_survivors() {
    let player_ids = make_player_ids(2);
    let p1 = Player::new(Some(Card::Princess));
    let p2 = Player::new(None);
    let r = RoundResult::new(vec![(player_ids[0], p1), (player_ids[1], p2)]);
    assert_eq!(vec![(player_ids[0], Card::Princess)], r.survivors());
}

#[test]
fn test_round_result_multiple_survivors() {
    let player_ids = make_player_ids(3);
    let p1 = Player::new(Some(Card::Princess));
    let p2 = Player::new(Some(Card::Wizard));
    let p3 = Player::new(None);
    let r = RoundResult::new(vec![(player_ids[0], p1), (player_ids[1], p2), (player_ids[2], p3)]);
    assert_eq!(vec![(player_ids[0], Card::Princess), (player_ids[1], Card::Wizard)], r.survivors());
}

// Winners are the survivors holding the highest card; ties share the win.
#[test]
fn round_result_tied_winners() {
    let ids = make_player_ids(3);
    let r = RoundResult::new(vec![
        (ids[0], Player::new(Some(Card::Knight))),
        (ids[1], Player::new(Some(Card::Clown))),
        (ids[2], Player::new(Some(Card::Knight))),
    ]);
    assert_eq!(vec![(ids[0], Card::Knight), (ids[2], Card::Knight)], r.winners());
}

#[test]
fn no_winners_while_round_goes_on() {
    let g = make_round(2);
    assert_eq!(Vec::<(PlayerId, Card)>::new(), g.winners());
}

#[test]
fn round_over_when_stack_empty() {
    let ids = make_player_ids(2);
    let g = Round::from_manual(
        &[(ids[0], Some(Card::Knight)), (ids[1], Some(Card::Princess))],
        &[],
        None,
    )
    .unwrap();
    let (over, turn) = g.next_player();
    assert_eq!(None, turn);
    assert_eq!(None, over.current_player());
    assert_eq!(vec![(ids[1], Card::Princess)], g.winners());
}

#[test]
fn manual_round_with_current_player_draws() {
    let ids = make_player_ids(2);
    let g = Round::from_manual(
        &[(ids[0], Some(Card::Knight)), (ids[1], Some(Card::Clown))],
        &[Card::Soldier, Card::Wizard],
        Some(ids[0]),
    )
    .unwrap();
    assert_eq!(Some(ids[0]), g.current_player());
    assert_eq!(&[Card::Soldier][..], g.deck());
    assert_eq!(
        Err(loveletter::RoundError::BadDeck),
        Round::from_manual(&[(ids[0], Some(Card::Knight)), (ids[1], None)], &[], Some(ids[0]))
    );
}

#[test]
fn too_many_players_refused() {
    let ids = make_player_ids(5);
    let players: Vec<(PlayerId, Option<Card>)> = ids.iter().map(|&i| (i, None)).collect();
    assert_eq!(
        Err(loveletter::RoundError::InvalidPlayers(5)),
        Round::from_manual(&players, &[], None)
    );
}

#[test]
fn priestess_protects_from_elimination_event() {
    let ids = make_player_ids(2);
    let g = Round::from_manual(
        &[(ids[0], Some(Card::Knight)), (ids[1], Some(Card::Clown))],
        &[Card::Soldier],
        None,
    )
    .unwrap();
    let (g, _) = g.apply_event(Event::Protected(ids[1])).unwrap();
    assert_eq!(
        Ok(Event::NoChange),
        g.action_to_event(loveletter::action::Action::EliminateOnGuess(ids[1], Card::Clown))
    );
}

#[test]
fn forced_discard_draws() {
    let ids = make_player_ids(2);
    let g = Round::from_manual(
        &[(ids[0], Some(Card::Knight)), (ids[1], Some(Card::Clown))],
        &[Card::Soldier, Card::Wizard],
        None,
    )
    .unwrap();
    let (g2, follow) = g.apply_event(Event::ForcedDiscard(ids[1])).unwrap();
    assert_eq!(None, follow);
    assert_eq!(Ok(Card::Wizard), g2.get_hand(ids[1]));
    assert_eq!(Ok(&[Card::Clown][..]), g2.get_discards(ids[1]));
    assert_eq!(&[Card::Soldier][..], g2.deck());
}

#[test]
fn knight_compares_hands() {
    let ids = make_player_ids(2);
    let g = Round::from_manual(
        &[(ids[0], Some(Card::Knight)), (ids[1], Some(Card::Clown))],
        &[Card::Soldier],
        None,
    )
    .unwrap();
    assert_eq!(
        Ok(Event::PlayerEliminated(ids[1])),
        g.action_to_event(loveletter::action::Action::EliminateWeaker(ids[0], ids[1]))
    );
    assert_eq!(
        Ok(Event::PlayerEliminated(ids[1])),
        g.action_to_event(loveletter::action::Action::EliminateWeaker(ids[1], ids[0]))
    );
}

#[test]
fn minister_busts() {
    assert!(minister_bust(Card::Minister, Card::Wizard));
    assert!(minister_bust(Card::General, Card::Minister));
    assert!(minister_bust(Card::Minister, Card::Princess));
    assert!(!minister_bust(Card::Minister, Card::Knight));
    assert!(!minister_bust(Card::Wizard, Card::Princess));
}

#[test]
fn all_discards_and_remaining() {
    let ids = make_player_ids(3);
    let g = Round::from_manual(
        &[(ids[0], Some(Card::Knight)), (ids[1], None), (ids[2], Some(Card::Clown))],
        &[Card::Soldier],
        None,
    )
    .unwrap();
    assert_eq!(2, g.num_players_remaining());
    let empty: &[Card] = &[];
    assert_eq!(vec![empty, empty, empty], g.all_discards());
}

#[test]
fn round_refuses_invalid_number_of_players() {
    for n in [0usize, 1, 5, 6] {
        let players = make_player_ids(n);
        assert!(Round::new(players.as_slice()).is_none());
        let deck = deck::Deck::from_slice(&deck::full_deck()).unwrap();
        assert!(Round::from_deck(players.as_slice(), deck).is_none());
    }
    for n in [2usize, 3, 4] {
        let players = make_player_ids(n);
        assert_eq!(n, Round::new(players.as_slice()).unwrap().num_players());
    }
}
