//! The cards of Love Letter and the deck they make up.

use vstd::prelude::*;
use vstd::multiset::Multiset;
use rand::seq::SliceRandom;
use crate::util::{subtract, subtract_vector, lemma_subtract_is_multiset_difference};

verus! {

/// Love Letter has eight different cards, each of different worth. The Soldier is the lowest and
/// the Princess is the highest.
#[derive(Eq, PartialOrd, Ord, Debug, Clone, Copy, Hash)]
pub enum Card {
    Soldier,
    Clown,
    Knight,
    Priestess,
    Wizard,
    General,
    Minister,
    Princess,
}

impl Card {
    /// The worth of the card: 0 for the Soldier up to 7 for the Princess.
    pub open spec fn rank(self) -> nat {
        match self {
            Card::Soldier => 0,
            Card::Clown => 1,
            Card::Knight => 2,
            Card::Priestess => 3,
            Card::Wizard => 4,
            Card::General => 5,
            Card::Minister => 6,
            Card::Princess => 7,
        }
    }

    /// The worth of the card, by which cards are compared.
    pub fn value(&self) -> (v: u8)
        ensures
            v == self.rank(),
    {
        match self {
            Card::Soldier => 0,
            Card::Clown => 1,
            Card::Knight => 2,
            Card::Priestess => 3,
            Card::Wizard => 4,
            Card::General => 5,
            Card::Minister => 6,
            Card::Princess => 7,
        }
    }

    /// How many copies of the card a deck holds.
    pub open spec fn copies(self) -> nat {
        match self {
            Card::Soldier => 5,
            Card::Clown => 2,
            Card::Knight => 2,
            Card::Priestess => 2,
            Card::Wizard => 2,
            Card::General => 1,
            Card::Minister => 1,
            Card::Princess => 1,
        }
    }
}

/// Each card is worth more than the one before it, in the order Soldier, Clown,
/// Knight, Priestess, Wizard, General, Minister, Princess: the Soldier is the lowest
/// and the Princess the highest.
pub proof fn lemma_rank_order()
    ensures
        Card::Soldier.rank() < Card::Clown.rank(),
        Card::Clown.rank() < Card::Knight.rank(),
        Card::Knight.rank() < Card::Priestess.rank(),
        Card::Priestess.rank() < Card::Wizard.rank(),
        Card::Wizard.rank() < Card::General.rank(),
        Card::General.rank() < Card::Minister.rank(),
        Card::Minister.rank() < Card::Princess.rank(),
        forall|c: Card| Card::Soldier.rank() <= #[trigger] c.rank() <= Card::Princess.rank(),
{
}

/// Two cards are equal when they are of the same worth, that is, the same card.
impl PartialEq for Card {
    fn eq(&self, other: &Card) -> (r: bool) {
        self.value() == other.value()
    }
}

impl vstd::std_specs::cmp::PartialEqSpecImpl for Card {
    open spec fn obeys_eq_spec() -> bool {
        true
    }

    open spec fn eq_spec(&self, other: &Card) -> bool {
        self.rank() == other.rank()
    }
}

/// The number of cards in a deck.
pub const CARDS_IN_DECK: usize = 16;

/// The full deck in its standard order: 5 Soldiers, 2 Clowns, 2 Knights,
/// 2 Priestesses, 2 Wizards, a General, a Minister and a Princess.
pub open spec fn standard_deck() -> Seq<Card> {
    seq![
        Card::Soldier,
        Card::Soldier,
        Card::Soldier,
        Card::Soldier,
        Card::Soldier,
        Card::Clown,
        Card::Clown,
        Card::Knight,
        Card::Knight,
        Card::Priestess,
        Card::Priestess,
        Card::Wizard,
        Card::Wizard,
        Card::General,
        Card::Minister,
        Card::Princess,
    ]
}

/// The cards of a full deck, counted with their repetitions.
pub open spec fn deck_cards() -> Multiset<Card> {
    standard_deck().to_multiset()
}

/// A full deck holds each card as often as `copies` says, and 16 cards in all.
pub proof fn lemma_deck_counts()
    ensures
        forall|c: Card| #[trigger] deck_cards().count(c) == c.copies(),
        deck_cards().len() == CARDS_IN_DECK,
{
    broadcast use vstd::seq_lib::group_to_multiset_ensures;
    broadcast use vstd::multiset::group_multiset_properties;

    let s = standard_deck();
    let e = Seq::<Card>::empty();
    assert(e.to_multiset() =~= Multiset::empty());
    assert(s =~= e.push(Card::Soldier).push(Card::Soldier).push(Card::Soldier).push(
        Card::Soldier,
    ).push(Card::Soldier).push(Card::Clown).push(Card::Clown).push(Card::Knight).push(
        Card::Knight,
    ).push(Card::Priestess).push(Card::Priestess).push(Card::Wizard).push(Card::Wizard).push(
        Card::General,
    ).push(Card::Minister).push(Card::Princess));
    assert forall|c: Card| #[trigger] deck_cards().count(c) == c.copies() by {
        match c {
            Card::Soldier => {},
            Card::Clown => {},
            Card::Knight => {},
            Card::Priestess => {},
            Card::Wizard => {},
            Card::General => {},
            Card::Minister => {},
            Card::Princess => {},
        }
    }
}

/// The cards of a full deck, in the standard order.
pub fn full_deck() -> (v: Vec<Card>)
    ensures
        v@ == standard_deck(),
{
    let v = vec![
        Card::Soldier,
        Card::Soldier,
        Card::Soldier,
        Card::Soldier,
        Card::Soldier,
        Card::Clown,
        Card::Clown,
        Card::Knight,
        Card::Knight,
        Card::Priestess,
        Card::Priestess,
        Card::Wizard,
        Card::Wizard,
        Card::General,
        Card::Minister,
        Card::Princess,
    ];
    assert(v@ =~= standard_deck());
    v
}


/// Shuffles the cards in place.
///
/// Calls `rand::seq::SliceRandom::shuffle` with the thread-local generator of
/// `rand`. Its contract states what holds of every outcome: the cards after the
/// call are those before it, in some order. Which order comes out is chance and
/// is not stated.
#[verifier::external_body]
fn shuffle_cards(cards: &mut Vec<Card>)
    ensures
        final(cards)@.to_multiset() == old(cards)@.to_multiset(),
{
    cards.shuffle(&mut rand::thread_rng());
}

/// `==` on cards is equality of cards.
pub proof fn lemma_card_eq()
    ensures
        vstd::laws_eq::obeys_concrete_eq::<Card>(),
{
    reveal(vstd::laws_eq::obeys_concrete_eq);
}

/// A Love Letter deck: the sixteen cards of a full deck, in some order.
#[derive(Debug)]
pub struct Deck {
    cards: Vec<Card>,
}

/// Returned when we try to construct a malformed Love Letter deck.
#[derive(Debug, PartialEq, Eq, Structural, Clone, Copy)]
pub enum DeckError {
    WrongCards,
    WrongNumber(usize),
}

impl View for Deck {
    type V = Seq<Card>;

    closed spec fn view(&self) -> Seq<Card> {
        self.cards@
    }
}

impl Deck {
    #[verifier::type_invariant]
    spec fn is_full(self) -> bool {
        self.cards@.to_multiset() == deck_cards()
    }

    /// Returns a new, shuffled deck.
    pub fn new() -> (d: Deck)
        ensures
            d@.to_multiset() == deck_cards(),
    {
        let mut cards = full_deck();
        shuffle_cards(&mut cards);
        Deck { cards }
    }

    /// Constructs a deck from the given cards, which must make up a full deck.
    pub fn from_slice(cards: &[Card]) -> (r: Result<Deck, DeckError>)
        ensures
            cards@.len() != CARDS_IN_DECK ==> r == Err::<Deck, DeckError>(
                DeckError::WrongNumber(cards@.len() as usize),
            ),
            cards@.len() == CARDS_IN_DECK && cards@.to_multiset() != deck_cards() ==> r == Err::<
                Deck,
                DeckError,
            >(DeckError::WrongCards),
            cards@.len() == CARDS_IN_DECK && cards@.to_multiset() == deck_cards() ==> (
            r matches Ok(d) && d@ == cards@),
    {
        if cards.len() != CARDS_IN_DECK {
            Err(DeckError::WrongNumber(cards.len()))
        } else if is_valid_deck(cards) {
            Ok(Deck { cards: vstd::slice::slice_to_vec(cards) })
        } else {
            Err(DeckError::WrongCards)
        }
    }

    /// Returns a shuffled copy of this deck, leaving this one as it is.
    pub fn shuffled(&self) -> (d: Deck)
        ensures
            d@.to_multiset() == self@.to_multiset(),
    {
        proof {
            use_type_invariant(self);
        }
        let mut cards = vstd::slice::slice_to_vec(self.cards.as_slice());
        shuffle_cards(&mut cards);
        Deck { cards }
    }

    /// The cards of the deck, in order.
    pub fn as_slice(&self) -> (s: &[Card])
        ensures
            s@ == self@,
            s@.to_multiset() == deck_cards(),
            s@.len() == CARDS_IN_DECK,
    {
        proof {
            use_type_invariant(self);
            broadcast use vstd::seq_lib::group_to_multiset_ensures;
            lemma_deck_counts();
        }
        self.cards.as_slice()
    }

    /// Iterates over the cards of the deck, in order.
    pub fn iter(&self) -> (it: std::slice::Iter<'_, Card>)
        ensures
            vstd::std_specs::slice::into_iter_elts(it) == self@,
    {
        self.cards.iter()
    }
}

/// Does the given list of cards make up a full deck: every card present, with no extra cards?
fn is_valid_deck(deck: &[Card]) -> (r: bool)
    ensures
        r == (deck@.to_multiset() == deck_cards()),
{
    proof {
        lemma_card_eq();
        lemma_deck_counts();
        broadcast use vstd::seq_lib::group_to_multiset_ensures;
    }
    let full = full_deck();
    if deck.len() != full.len() {
        return false;
    }
    let rest = subtract_vector(full, deck);
    proof {
        lemma_subtract_is_multiset_difference(standard_deck(), deck@);
        if let Some(ref zs) = rest {
            crate::util::lemma_subtract_len(standard_deck(), deck@);
            assert(zs@.len() == 0);
            assert(zs@.to_multiset().len() == 0);
            assert forall|c: Card| deck@.to_multiset().count(c) == deck_cards().count(c) by {
                assert(zs@.to_multiset().count(c) == 0) by {
                    if zs@.to_multiset().count(c) > 0 {
                        assert(zs@.contains(c));
                    }
                }
            }
            assert(deck@.to_multiset() =~= deck_cards());
        }
    }
    rest.is_some()
}

/// Could we add cards to the given list to make up a full deck?
pub fn is_valid_subdeck(cards: &[Card]) -> (r: bool)
    ensures
        r == cards@.to_multiset().subset_of(deck_cards()),
{
    proof {
        lemma_card_eq();
        lemma_subtract_is_multiset_difference(standard_deck(), cards@);
    }
    subtract_vector(full_deck(), cards).is_some()
}

} // verus!
