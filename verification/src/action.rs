//! What players do with the cards they play, and what comes of it.

use vstd::prelude::*;
use crate::deck::Card;
use crate::player_id::PlayerId;

verus! {

/// The play that accompanies a card.
#[derive(PartialEq, Eq, Debug, Clone, Copy)]
pub enum Play {
    /// This card has no effect.
    NoEffect,
    /// Use this card to attack the specified player.
    Attack(PlayerId),
    /// Use this card to guess that the specified player has a certain card.
    Guess(PlayerId, Card),
}

/// Represents an invalid action in a game, taken by a player.
#[derive(PartialEq, Eq, Debug, Clone, Copy)]
pub enum PlayError {
    /// Targeted a player who has never existed.
    InvalidPlayer(PlayerId),
    /// Tried to play a card that's not in the hand.
    CardNotFound(Card, (Card, Card)),
    /// Targeted a player who is no longer in the game.
    InactivePlayer(PlayerId),
    /// Tried to play a card against yourself.
    SelfTarget(PlayerId, Card),
    /// Tried to play an action for a card that doesn't support it.
    BadActionForCard(Play, Card),
    /// Bad guess. You can't guess soldier.
    BadGuess,
}

/// The result of a play.
#[derive(PartialEq, Eq, Debug, Clone, Copy)]
pub enum Action {
    /// Nothing happens.
    NoChange,
    /// Mark player as protected.
    Protect(PlayerId),
    /// source wants to swap hands with target
    SwapHands(PlayerId, PlayerId),
    /// You have lost
    EliminatePlayer(PlayerId),
    /// Discard your current card and draw a new one
    ForceDiscard(PlayerId),
    /// 2nd player shows their card to 1st.
    ForceReveal(PlayerId, PlayerId),
    /// Eliminate the player with the weaker hand.
    EliminateWeaker(PlayerId, PlayerId),
    /// Eliminate the player if they have the given card.
    EliminateOnGuess(PlayerId, Card),
}

/// What happened to the round as the result of an action.
#[derive(PartialEq, Eq, Debug, Clone, Copy)]
pub enum Event {
    NoChange,
    Protected(PlayerId),
    SwappedHands(PlayerId, PlayerId),
    PlayerEliminated(PlayerId),
    ForcedDiscard(PlayerId),
    ForcedReveal(PlayerId, PlayerId),
}

/// The rules that turn a card and its play into an action:
/// - the Priestess protects the one who plays it, the Minister does nothing, and
///   whoever plays the Princess is out; these three take no target;
/// - the Clown makes its target reveal their card, the Knight compares hands with
///   its target, the Wizard makes its target discard, and the General swaps hands
///   with its target; only the Wizard may be played on oneself;
/// - the Soldier guesses the card of another player, and may not guess Soldier.
pub open spec fn action_for(current_player: PlayerId, played_card: Card, play: Play) -> Result<
    Action,
    PlayError,
> {
    match play {
        Play::NoEffect => match played_card {
            Card::Priestess => Ok(Action::Protect(current_player)),
            Card::Minister => Ok(Action::NoChange),
            Card::Princess => Ok(Action::EliminatePlayer(current_player)),
            _ => Err(PlayError::BadActionForCard(play, played_card)),
        },
        Play::Attack(target) => {
            if target == current_player && played_card != Card::Wizard {
                Err(PlayError::SelfTarget(target, played_card))
            } else {
                match played_card {
                    Card::Clown => Ok(Action::ForceReveal(current_player, target)),
                    Card::Knight => Ok(Action::EliminateWeaker(current_player, target)),
                    Card::Wizard => Ok(Action::ForceDiscard(target)),
                    Card::General => Ok(Action::SwapHands(current_player, target)),
                    _ => Err(PlayError::BadActionForCard(play, played_card)),
                }
            }
        },
        Play::Guess(target, guessed_card) => {
            if target == current_player {
                Err(PlayError::SelfTarget(target, played_card))
            } else {
                match played_card {
                    Card::Soldier => if guessed_card == Card::Soldier {
                        Err(PlayError::BadGuess)
                    } else {
                        Ok(Action::EliminateOnGuess(target, guessed_card))
                    },
                    _ => Err(PlayError::BadActionForCard(play, played_card)),
                }
            }
        },
    }
}

/// Turn a play into an Action.
///
/// Translates a decision by a player to play a particular card in a
/// particular way into an Action that can be applied to the game.
///
/// Returns an error if that particular `(card, play)` combination is not valid.
pub fn play_to_action(current_player: PlayerId, played_card: Card, play: Play) -> (r: Result<
    Action,
    PlayError,
>)
    ensures
        r == action_for(current_player, played_card, play),
{
    match play {
        Play::NoEffect => match played_card {
            Card::Priestess => Ok(Action::Protect(current_player)),
            Card::Minister => Ok(Action::NoChange),
            Card::Princess => Ok(Action::EliminatePlayer(current_player)),
            _ => Err(PlayError::BadActionForCard(play, played_card)),
        },
        Play::Attack(target) => {
            if target == current_player && played_card != Card::Wizard {
                return Err(PlayError::SelfTarget(target, played_card));
            }
            match played_card {
                Card::Clown => Ok(Action::ForceReveal(current_player, target)),
                Card::Knight => Ok(Action::EliminateWeaker(current_player, target)),
                Card::Wizard => Ok(Action::ForceDiscard(target)),
                Card::General => Ok(Action::SwapHands(current_player, target)),
                _ => Err(PlayError::BadActionForCard(play, played_card)),
            }
        },
        Play::Guess(target, guessed_card) => {
            if target == current_player {
                return Err(PlayError::SelfTarget(target, played_card));
            }
            match played_card {
                Card::Soldier => if guessed_card == Card::Soldier {
                    Err(PlayError::BadGuess)
                } else {
                    Ok(Action::EliminateOnGuess(target, guessed_card))
                },
                _ => Err(PlayError::BadActionForCard(play, played_card)),
            }
        },
    }
}

/// Each card goes with exactly one kind of play: the Priestess, Minister and
/// Princess with no target, the Clown, Knight, Wizard and General with an attack,
/// and the Soldier with a guess. Any other combination is refused as a bad action.
pub proof fn lemma_one_kind_of_play_per_card(current_player: PlayerId, card: Card, play: Play)
    ensures
        action_for(current_player, card, play) is Ok ==> match play {
            Play::NoEffect => card == Card::Priestess || card == Card::Minister || card
                == Card::Princess,
            Play::Attack(_) => card == Card::Clown || card == Card::Knight || card == Card::Wizard
                || card == Card::General,
            Play::Guess(_, _) => card == Card::Soldier,
        },
        (match play {
            Play::NoEffect => !(card == Card::Priestess || card == Card::Minister || card
                == Card::Princess),
            Play::Attack(t) => t != current_player && !(card == Card::Clown || card == Card::Knight
                || card == Card::Wizard || card == Card::General),
            Play::Guess(t, _) => t != current_player && card != Card::Soldier,
        }) ==> action_for(current_player, card, play) == Err::<Action, PlayError>(
            PlayError::BadActionForCard(play, card),
        ),
{
}

/// No card can be played on oneself but the Wizard, and a Soldier never guesses Soldier.
pub proof fn lemma_targets(current_player: PlayerId, card: Card, play: Play)
    ensures
        (play matches Play::Attack(t) && t == current_player && action_for(
            current_player,
            card,
            play,
        ) is Ok) ==> card == Card::Wizard,
        (play matches Play::Guess(t, _) && t == current_player) ==> action_for(
            current_player,
            card,
            play,
        ) == Err::<Action, PlayError>(PlayError::SelfTarget(current_player, card)),
        (play matches Play::Guess(_, g) && g == Card::Soldier) ==> action_for(
            current_player,
            card,
            play,
        ) is Err,
{
}

/// What a player must name besides the card to play it: nothing, a target, or a
/// target and a guess.
#[derive(PartialEq, Eq, Debug, Clone, Copy)]
pub enum PlayKind {
    NoEffect,
    Attack,
    Guess,
}

/// The kind of a play.
pub open spec fn kind_of(play: Play) -> PlayKind {
    match play {
        Play::NoEffect => PlayKind::NoEffect,
        Play::Attack(_) => PlayKind::Attack,
        Play::Guess(_, _) => PlayKind::Guess,
    }
}

/// The kind of play each card goes with.
pub open spec fn card_play_kind(card: Card) -> PlayKind {
    match card {
        Card::Priestess | Card::Minister | Card::Princess => PlayKind::NoEffect,
        Card::Soldier => PlayKind::Guess,
        _ => PlayKind::Attack,
    }
}

/// The kind of play that the card goes with: every play of the card that the rules
/// accept is of this kind, and a play of this kind is accepted when it aims at
/// another player and, for a guess, does not guess the Soldier.
pub fn play_kind(card: Card) -> (k: PlayKind)
    ensures
        k == card_play_kind(card),
        forall|p: PlayerId, play: Play|
            #[trigger] action_for(p, card, play) is Ok ==> kind_of(play) == k,
        forall|p: PlayerId|
            k == PlayKind::NoEffect ==> #[trigger] action_for(p, card, Play::NoEffect) is Ok,
        forall|p: PlayerId, target: PlayerId|
            k == PlayKind::Attack && target != p ==> #[trigger] action_for(p, card, Play::Attack(target)) is Ok,
        forall|p: PlayerId, target: PlayerId, guess: Card|
            k == PlayKind::Guess && target != p && guess != Card::Soldier ==> #[trigger] action_for(
                p,
                card,
                Play::Guess(target, guess),
            ) is Ok,
{
    match card {
        Card::Priestess | Card::Minister | Card::Princess => PlayKind::NoEffect,
        Card::Soldier => PlayKind::Guess,
        _ => PlayKind::Attack,
    }
}

} // verus!
