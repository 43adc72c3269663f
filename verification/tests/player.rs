use loveletter::player::{Error, Player};
use loveletter::Card;

#[test]
fn player_test_eliminate_gone_player() {
    let p = Player::new(None);
    let error = p.eliminate().unwrap_err();
    assert_eq!(Error::Inactive, error);
}

#[test]
fn test_discards_empty() {
    let p = Player::new(Some(Card::Wizard));
    let expected: &[Card] = &[];
    assert_eq!(expected, p.discards());
}

#[test]
fn test_play_hand_updates_hand() {
    let p = Player::new(Some(Card::Wizard));
    let new_p = p.play_card(Card::Priestess, Card::Wizard).unwrap();
    assert_eq!(Some(Card::Priestess), new_p.get_hand());
}

#[test]
fn test_play_hand_discards() {
    let p = Player::new(Some(Card::Wizard));
    let new_p = p.play_card(Card::Priestess, Card::Wizard).unwrap();
    let expected: &[Card] = &[Card::Wizard];
    assert_eq!(expected, new_p.discards());
}

#[test]
fn test_play_dealt_leaves_hand() {
    let p = Player::new(Some(Card::Wizard));
    let new_p = p.play_card(Card::Priestess, Card::Priestess).unwrap();
    assert_eq!(Some(Card::Wizard), new_p.get_hand());
}

#[test]
fn test_play_dealt_discards() {
    let p = Player::new(Some(Card::Wizard));
    let new_p = p.play_card(Card::Priestess, Card::Priestess).unwrap();
    let expected: &[Card] = &[Card::Priestess];
    assert_eq!(expected, new_p.discards());
}

#[test]
fn test_force_discard_updates_discard() {
    let p = Player::new(Some(Card::Knight));
    let new_p = p.discard_and_draw(Some(Card::Clown)).unwrap();
    let expected: &[Card] = &[Card::Knight];
    assert_eq!(expected, new_p.discards());
}

#[test]
fn test_force_discard_princess_updates_discard() {
    let p = Player::new(Some(Card::Princess));
    let new_p = p.discard_and_draw(Some(Card::Clown)).unwrap();
    let expected: &[Card] = &[Card::Princess];
    assert_eq!(expected, new_p.discards());
}

#[test]
fn test_eliminate_discards() {
    let p = Player::new(Some(Card::Princess));
    let new_p = p.eliminate().unwrap();
    let expected: &[Card] = &[Card::Princess];
    assert_eq!(expected, new_p.discards());
}

#[test]
fn play_card_not_held() {
    let p = Player::new(Some(Card::Wizard));
    assert_eq!(
        Error::NoSuchCard(Card::Soldier, (Card::Wizard, Card::Clown)),
        p.play_card(Card::Clown, Card::Soldier).unwrap_err()
    );
}

#[test]
fn guess_soldier_is_refused() {
    let p = Player::new(Some(Card::Soldier));
    assert_eq!(Error::BadGuess, p.eliminate_if_guessed(Card::Soldier).unwrap_err());
}

#[test]
fn right_guess_eliminates() {
    let p = Player::new(Some(Card::Knight));
    let out = p.eliminate_if_guessed(Card::Knight).unwrap();
    assert!(!out.active());
    let stays = p.eliminate_if_guessed(Card::Clown).unwrap();
    assert_eq!(Some(Card::Knight), stays.get_hand());
}

#[test]
fn protected_player_survives() {
    let p = Player::new(Some(Card::Princess)).protect(true).unwrap();
    assert!(p.protected());
    assert_eq!(p, p.eliminate().unwrap());
    assert_eq!(p, p.discard_and_draw(Some(Card::Soldier)).unwrap());
    let other = Player::new(Some(Card::Soldier));
    assert_eq!((p.clone(), other.clone()), p.swap_hands(&other).unwrap());
}

#[test]
fn weaker_hand_is_out() {
    let strong = Player::new(Some(Card::General));
    let weak = Player::new(Some(Card::Clown));
    let (a, b) = weak.eliminate_if_weaker(&strong).unwrap();
    assert_eq!(None, a.get_hand());
    assert_eq!(&[Card::Clown][..], a.discards());
    assert_eq!(strong, b);
    let (a, b) = strong.eliminate_if_weaker(&weak).unwrap();
    assert_eq!(strong, a);
    assert_eq!(None, b.get_hand());
    assert_eq!(&[Card::Clown][..], b.discards());
    let tie = Player::new(Some(Card::Clown));
    assert_eq!((weak.clone(), tie.clone()), weak.eliminate_if_weaker(&tie).unwrap());
}

#[test]
fn swap_exchanges_hands() {
    let a = Player::new(Some(Card::General));
    let b = Player::new(Some(Card::Clown));
    let (a2, b2) = a.swap_hands(&b).unwrap();
    assert_eq!(Some(Card::Clown), a2.get_hand());
    assert_eq!(Some(Card::General), b2.get_hand());
}

#[test]
fn inactive_player_cannot_be_protected() {
    let p = Player::new(None);
    assert_eq!(Error::Inactive, p.protect(true).unwrap_err());
}
