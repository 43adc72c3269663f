//! A player of Love Letter: the card in their hand, whether they are protected,
//! and the cards they have discarded.

use vstd::prelude::*;
use crate::deck::Card;

verus! {

/// A player of Love Letter.
#[derive(Debug, PartialEq, Eq, Clone)]
pub struct Player {
    hand: Option<Card>,
    protected: bool,
    discard: Vec<Card>,
}

/// Why a player could not do what was asked of them.
#[derive(Debug, PartialEq, Eq, Clone, Copy)]
pub enum Error {
    Inactive,
    BadGuess,
    NoSuchCard(Card, (Card, Card)),
}

/// What a player is: the card in hand (`None` once out of the round), whether
/// they are protected, and the cards they discarded, the latest last.
pub struct PlayerState {
    pub hand: Option<Card>,
    pub protected: bool,
    pub discards: Seq<Card>,
}

impl PlayerState {
    /// A player holding `hand`, unprotected, who has discarded nothing.
    pub open spec fn dealt(hand: Option<Card>) -> PlayerState {
        PlayerState { hand, protected: false, discards: Seq::empty() }
    }

    /// Still playing: they hold a card.
    pub open spec fn active(self) -> bool {
        self.hand is Some
    }

    pub open spec fn with_hand(self, hand: Option<Card>) -> PlayerState {
        PlayerState { hand, ..self }
    }

    pub open spec fn discarding(self, card: Card) -> PlayerState {
        PlayerState { discards: self.discards.push(card), ..self }
    }

    /// Setting protection is for active players only.
    pub open spec fn protect(self, protected: bool) -> Result<PlayerState, Error> {
        if self.active() {
            Ok(PlayerState { protected, ..self })
        } else {
            Err(Error::Inactive)
        }
    }

    /// An active player is put out of the round and discards their card, unless protected.
    pub open spec fn eliminate(self) -> Result<PlayerState, Error> {
        match self.hand {
            None => Err(Error::Inactive),
            Some(hand) => Ok(
                if self.protected {
                    self
                } else {
                    self.with_hand(None).discarding(hand)
                },
            ),
        }
    }

    /// Eliminated if the guess names their card; guessing Soldier is not allowed.
    pub open spec fn eliminate_if_guessed(self, guess: Card) -> Result<PlayerState, Error> {
        if guess == Card::Soldier {
            Err(Error::BadGuess)
        } else {
            match self.hand {
                None => Err(Error::Inactive),
                Some(card) => if card == guess {
                    self.eliminate()
                } else {
                    Ok(self)
                },
            }
        }
    }

    /// The weaker hand of the two is out of the round, its card discarded; on a tie
    /// nothing happens, and nothing happens when the first is protected.
    pub open spec fn eliminate_if_weaker(self, other: PlayerState) -> Result<
        (PlayerState, PlayerState),
        Error,
    > {
        match (self.hand, other.hand) {
            (Some(mine), Some(theirs)) => Ok(
                if self.protected {
                    (self, other)
                } else if mine.rank() < theirs.rank() {
                    (self.with_hand(None).discarding(mine), other)
                } else if mine.rank() > theirs.rank() {
                    (self, other.with_hand(None).discarding(theirs))
                } else {
                    (self, other)
                },
            ),
            _ => Err(Error::Inactive),
        }
    }

    /// The two players exchange hands, unless the first is protected.
    pub open spec fn swap_hands(self, other: PlayerState) -> Result<
        (PlayerState, PlayerState),
        Error,
    > {
        if !self.active() {
            Err(Error::Inactive)
        } else if self.protected {
            Ok((self, other))
        } else {
            Ok((self.with_hand(other.hand), other.with_hand(self.hand)))
        }
    }

    /// Holding their hand and having been dealt `dealt`, the player plays `chosen`,
    /// which must be one of the two: it is discarded and the other is kept.
    pub open spec fn play_card(self, dealt: Card, chosen: Card) -> Result<PlayerState, Error> {
        match self.hand {
            None => Err(Error::Inactive),
            Some(hand) => if chosen == hand {
                Ok(self.discarding(chosen).with_hand(Some(dealt)))
            } else if chosen == dealt {
                Ok(self.discarding(chosen))
            } else {
                Err(Error::NoSuchCard(chosen, (hand, dealt)))
            },
        }
    }

    /// The player discards their hand and takes `new_card` instead (out of the round
    /// where there is none). Discarding the Princess puts them out. A protected
    /// player is not affected.
    pub open spec fn discard_and_draw(self, new_card: Option<Card>) -> Result<PlayerState, Error> {
        match self.hand {
            None => Err(Error::Inactive),
            Some(hand) => if self.protected {
                Ok(self)
            } else if hand == Card::Princess {
                self.eliminate()
            } else {
                Ok(self.discarding(hand).with_hand(new_card))
            },
        }
    }
}

/// A Soldier's guess against a player eliminates them exactly when it names the card
/// they hold: a wrong guess leaves them as they are; a right one puts them out with
/// that card discarded, unless they are protected. Guessing the Soldier is refused,
/// and so is a guess against a player who is out.
pub proof fn lemma_guess_eliminates_exactly_on_match(p: PlayerState, guess: Card)
    ensures
        guess == Card::Soldier ==> p.eliminate_if_guessed(guess) == Err::<PlayerState, Error>(
            Error::BadGuess,
        ),
        guess != Card::Soldier && p.hand is None ==> p.eliminate_if_guessed(guess) == Err::<
            PlayerState,
            Error,
        >(Error::Inactive),
        guess != Card::Soldier && p.hand is Some && p.hand != Some(guess)
            ==> p.eliminate_if_guessed(guess) == Ok::<PlayerState, Error>(p),
        guess != Card::Soldier && p.hand == Some(guess) && p.protected ==> p.eliminate_if_guessed(
            guess,
        ) == Ok::<PlayerState, Error>(p),
        guess != Card::Soldier && p.hand == Some(guess) && !p.protected ==> p.eliminate_if_guessed(
            guess,
        ) == Ok::<PlayerState, Error>(
            PlayerState { hand: None, protected: false, discards: p.discards.push(guess) },
        ),
{
}

/// Comparing hands puts out whichever of the two holds the lower card, with that card
/// discarded, and leaves the other as they were; equal cards change nothing, and
/// nothing happens when the first is protected.
pub proof fn lemma_weaker_hand_is_out(p: PlayerState, q: PlayerState)
    requires
        p.hand is Some,
        q.hand is Some,
        !p.protected,
    ensures
        p.hand->0.rank() < q.hand->0.rank() ==> p.eliminate_if_weaker(q) == Ok::<
            (PlayerState, PlayerState),
            Error,
        >((PlayerState { hand: None, protected: false, discards: p.discards.push(p.hand->0) }, q)),
        q.hand->0.rank() < p.hand->0.rank() ==> p.eliminate_if_weaker(q) == Ok::<
            (PlayerState, PlayerState),
            Error,
        >((p, PlayerState { hand: None, protected: q.protected, discards: q.discards.push(q.hand->0) })),
        p.hand == q.hand ==> p.eliminate_if_weaker(q) == Ok::<(PlayerState, PlayerState), Error>(
            (p, q),
        ),
{
}

impl View for Player {
    type V = PlayerState;

    closed spec fn view(&self) -> PlayerState {
        PlayerState { hand: self.hand, protected: self.protected, discards: self.discard@ }
    }
}

/// The state of the player that a result holds, with the error unchanged.
pub open spec fn state_of(r: Result<Player, Error>) -> Result<PlayerState, Error> {
    match r {
        Ok(p) => Ok(p@),
        Err(e) => Err(e),
    }
}

/// The states of the two players that a result holds, with the error unchanged.
pub open spec fn states_of(r: Result<(Player, Player), Error>) -> Result<
    (PlayerState, PlayerState),
    Error,
> {
    match r {
        Ok((p, q)) => Ok((p@, q@)),
        Err(e) => Err(e),
    }
}

impl Player {
    /// Create a new player with the given hand.
    pub fn new(hand: Option<Card>) -> (p: Player)
        ensures
            p@ == PlayerState::dealt(hand),
    {
        let p = Player { hand, protected: false, discard: Vec::new() };
        assert(p@.discards =~= Seq::<Card>::empty());
        p
    }

    /// Is this player still playing?
    pub fn active(&self) -> (r: bool)
        ensures
            r == self@.active(),
    {
        self.hand.is_some()
    }

    /// Is this player protected from attacks?
    pub fn protected(&self) -> (r: bool)
        ensures
            r == self@.protected,
    {
        self.protected
    }

    /// What has this player discarded?
    ///
    /// Last item is most-recently discarded.
    pub fn discards(&self) -> (d: &[Card])
        ensures
            d@ == self@.discards,
    {
        self.discard.as_slice()
    }

    /// Get the player's hand. Returns `None` if player is no longer playing.
    pub fn get_hand(&self) -> (h: Option<Card>)
        ensures
            h == self@.hand,
    {
        self.hand
    }

    /// A copy of this player.
    pub fn copy(&self) -> (p: Player)
        ensures
            p@ == self@,
    {
        Player {
            hand: self.hand,
            protected: self.protected,
            discard: vstd::slice::slice_to_vec(self.discard.as_slice()),
        }
    }

    /// Set the protection status of the player.
    ///
    /// While they are 'protected', they are immune to all attacks.
    pub fn protect(&self, protected: bool) -> (r: Result<Player, Error>)
        ensures
            state_of(r) == self@.protect(protected),
    {
        if self.active() {
            Ok(
                Player {
                    hand: self.hand,
                    protected: protected,
                    discard: vstd::slice::slice_to_vec(self.discard.as_slice()),
                },
            )
        } else {
            Err(Error::Inactive)
        }
    }

    /// Eliminate this player, making them no longer active and incapable of
    /// winning the game.
    ///
    /// Any card they had in their hand is immediately discarded.
    pub fn eliminate(&self) -> (r: Result<Player, Error>)
        ensures
            state_of(r) == self@.eliminate(),
    {
        match self.hand {
            None => Err(Error::Inactive),
            Some(hand) => Ok(
                if self.protected {
                    self.copy()
                } else {
                    self.replace(None).discard(hand)
                },
            ),
        }
    }

    /// Eliminate this player if they've got the guessed card in their hand.
    pub fn eliminate_if_guessed(&self, guess: Card) -> (r: Result<Player, Error>)
        ensures
            state_of(r) == self@.eliminate_if_guessed(guess),
    {
        if guess == Card::Soldier {
            return Err(Error::BadGuess);
        }
        match self.hand {
            None => Err(Error::Inactive),
            Some(card) => if card == guess {
                self.eliminate()
            } else {
                Ok(self.copy())
            },
        }
    }

    /// Eliminate this player if their card is weaker than the other player's.
    /// Otherwise, eliminate the other player. If it's a draw, leave them both
    /// as they are.
    ///
    /// Returns a tuple of `(self, other)` where `self` and `other` are the
    /// updated versions. Only one will have changed.
    pub fn eliminate_if_weaker(&self, other: &Player) -> (r: Result<(Player, Player), Error>)
        ensures
            states_of(r) == self@.eliminate_if_weaker(other@),
    {
        match (self.hand, other.hand) {
            (Some(my_card), Some(their_card)) => {
                if self.protected {
                    Ok((self.copy(), other.copy()))
                } else {
                    let mine = my_card.value();
                    let theirs = their_card.value();
                    Ok(
                        if mine < theirs {
                            (self.replace(None).discard(my_card), other.copy())
                        } else if mine > theirs {
                            (self.copy(), other.replace(None).discard(their_card))
                        } else {
                            (self.copy(), other.copy())
                        },
                    )
                }
            },
            _ => Err(Error::Inactive),
        }
    }

    /// Swap hands with the other player.
    pub fn swap_hands(&self, other: &Player) -> (r: Result<(Player, Player), Error>)
        ensures
            states_of(r) == self@.swap_hands(other@),
    {
        if !self.active() {
            Err(Error::Inactive)
        } else if self.protected {
            Ok((self.copy(), other.copy()))
        } else {
            Ok((self.replace(other.hand), other.replace(self.hand)))
        }
    }

    /// Given that we were dealt `dealt` and chose to play `chosen`, discard
    /// `chosen` and put whatever card we didn't play in our hand.
    pub fn play_card(&self, dealt: Card, chosen: Card) -> (r: Result<Player, Error>)
        ensures
            state_of(r) == self@.play_card(dealt, chosen),
    {
        match self.hand {
            None => Err(Error::Inactive),
            Some(hand) => if chosen == hand {
                Ok(self.discard(chosen).replace(Some(dealt)))
            } else if chosen == dealt {
                Ok(self.discard(chosen))
            } else {
                Err(Error::NoSuchCard(chosen, (hand, dealt)))
            },
        }
    }

    /// Discard current card and replace it with `new_card`.
    ///
    /// Different from `play_card` in that there might not be a new card
    /// available for us, in which case we're out of the game. Also, we never
    /// have to do this if we're protected.
    pub fn discard_and_draw(&self, new_card: Option<Card>) -> (r: Result<Player, Error>)
        ensures
            state_of(r) == self@.discard_and_draw(new_card),
    {
        match self.hand {
            None => Err(Error::Inactive),
            Some(hand) => if self.protected {
                Ok(self.copy())
            } else {
                match hand {
                    Card::Princess => self.eliminate(),
                    _ => Ok(self.discard(hand).replace(new_card)),
                }
            },
        }
    }

    /// The player after the change `op`.
    pub fn apply(&self, op: crate::round_state::PlayerOp) -> (r: Result<Player, Error>)
        ensures
            state_of(r) == op.apply(self@),
    {
        match op {
            crate::round_state::PlayerOp::Protect(b) => self.protect(b),
            crate::round_state::PlayerOp::Eliminate => self.eliminate(),
            crate::round_state::PlayerOp::PlayCard(dealt, chosen) => self.play_card(dealt, chosen),
            crate::round_state::PlayerOp::DiscardAndDraw(c) => self.discard_and_draw(c),
            crate::round_state::PlayerOp::BustOut(drawn) => match self.play_card(drawn, drawn) {
                Ok(q) => q.eliminate(),
                Err(e) => Err(e),
            },
        }
    }

    fn discard(&self, card: Card) -> (p: Player)
        ensures
            p@ == self@.discarding(card),
    {
        let mut new_discard = vstd::slice::slice_to_vec(self.discard.as_slice());
        new_discard.push(card);
        Player { hand: self.hand, protected: self.protected, discard: new_discard }
    }

    fn replace(&self, card: Option<Card>) -> (p: Player)
        ensures
            p@ == self@.with_hand(card),
    {
        Player {
            hand: card,
            protected: self.protected,
            discard: vstd::slice::slice_to_vec(self.discard.as_slice()),
        }
    }
}

} // verus!
