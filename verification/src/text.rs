//! What the game tells the players: numbers written in decimal, the names of
//! cards and players, numbered lists to choose from, and the report of a turn.

use vstd::prelude::*;
use vstd::string::StringExecFns;
use crate::action::{Event, Play};
use crate::deck::Card;
use crate::player_id::PlayerId;
use crate::round::{Round, TurnOutcome};
use crate::round_state::RoundState;

verus! {

/// The decimal digit `d` as a character.
pub open spec fn digit_char(d: nat) -> char {
    (('0' as u32) + d) as char
}

/// The decimal digits of `n`, with no leading zero.
pub open spec fn decimal_digits(n: nat) -> Seq<char>
    decreases n,
{
    if n < 10 {
        seq![digit_char(n)]
    } else {
        decimal_digits(n / 10).push(digit_char(n % 10))
    }
}

/// Writes a number in decimal.
///
/// Calls `ToString::to_string` on the `u128`, whose `Display` writes it in decimal
/// digits with no sign and no leading zero; the contract states exactly that.
#[verifier::external_body]
pub(crate) fn decimal_string(n: u128) -> (s: String)
    ensures
        s@ == decimal_digits(n as nat),
{
    n.to_string()
}

/// The name of a card.
pub open spec fn card_name(c: Card) -> Seq<char> {
    match c {
        Card::Soldier => "Soldier"@,
        Card::Clown => "Clown"@,
        Card::Knight => "Knight"@,
        Card::Priestess => "Priestess"@,
        Card::Wizard => "Wizard"@,
        Card::General => "General"@,
        Card::Minister => "Minister"@,
        Card::Princess => "Princess"@,
    }
}

/// The name of a player: "Player #" and their number counted from 1.
pub open spec fn player_name(id: PlayerId) -> Seq<char> {
    "Player #"@ + decimal_digits((id.number() + 1) as nat)
}

/// The numbered lines of a list: the `k`-th item, counted from 1, on a line of its
/// own after two spaces, its number and a dot.
pub open spec fn numbered_lines(items: Seq<Seq<char>>) -> Seq<char>
    decreases items.len(),
{
    if items.len() == 0 {
        Seq::empty()
    } else {
        numbered_lines(items.drop_last()) + "  "@ + decimal_digits(items.len()) + ". "@
            + items.last() + "\n"@
    }
}

/// The prompt for a choice from a list: the question, the numbered items, and the
/// sign `>>> ` after which the player types.
pub open spec fn list_prompt_text(prompt: Seq<char>, items: Seq<Seq<char>>) -> Seq<char> {
    prompt + "\n"@ + numbered_lines(items) + ">>> "@
}

/// What is said of an event, `after` being the round it led to: a forced discard
/// names the card discarded, the target's latest discard there.
pub open spec fn event_text(e: Event, after: RoundState) -> Seq<char> {
    match e {
        Event::NoChange => "Nothing happened. "@,
        Event::Protected(_) => "Now protected until their next turn. "@,
        Event::SwappedHands(_, b) => "Swapped hands with "@ + player_name(b) + ". "@,
        Event::PlayerEliminated(p) => player_name(p) + " eliminated. "@,
        Event::ForcedReveal(a, b) => player_name(b) + " showed their card to "@ + player_name(a)
            + ". "@,
        Event::ForcedDiscard(p) => match after.discarded_back(p, 0) {
            Some(c) => player_name(p) + " forced to discard "@ + card_name(c) + ". "@,
            None => player_name(p) + " forced to discard. "@,
        },
    }
}

/// What is said of the events of a turn, one after the other.
pub open spec fn events_text(events: Seq<Event>, after: RoundState) -> Seq<char>
    decreases events.len(),
{
    if events.len() == 0 {
        Seq::empty()
    } else {
        events_text(events.drop_last(), after) + event_text(events.last(), after)
    }
}

/// What is said of a play after the card: on whom it was played, and the guess.
pub open spec fn play_text(play: Play) -> Seq<char> {
    match play {
        Play::NoEffect => "."@,
        Play::Attack(i) => " on "@ + player_name(i) + "."@,
        Play::Guess(i, guess) => " on "@ + player_name(i) + ", guessing "@ + card_name(guess) + "."@,
    }
}

/// The report of a turn, `after` being the round it led to. A player who busted out
/// is said to have done so with the two cards they last discarded there, their hand
/// and then the card they drew.
pub open spec fn outcome_text(outcome: TurnOutcome, after: RoundState) -> Seq<char> {
    match outcome {
        TurnOutcome::BustedOut(p) => match (after.discarded_back(p, 0), after.discarded_back(p, 1)) {
            (Some(hand), Some(drawn)) => player_name(p) + " busted out with "@ + card_name(hand)
                + " and "@ + card_name(drawn) + "!"@,
            _ => player_name(p) + " busted out with the Minister!"@,
        },
        TurnOutcome::Played(p, card, play, events) => player_name(p) + " played "@ + card_name(card)
            + play_text(play) + " "@ + events_text(events@, after),
    }
}

/// The lines that name each of the tied winners and their card.
pub open spec fn tie_lines(winners: Seq<(PlayerId, Card)>) -> Seq<char>
    decreases winners.len(),
{
    if winners.len() == 0 {
        Seq::empty()
    } else {
        tie_lines(winners.drop_last()) + "  "@ + player_name(winners.last().0) + " holds a "@
            + card_name(winners.last().1) + "\n"@
    }
}

/// The announcement at the end of a round: its one winner and their card, or the
/// tied winners and their cards, or that something went wrong where there is none;
/// then an empty line.
pub open spec fn round_over_text(winners: Seq<(PlayerId, Card)>) -> Seq<char> {
    "ROUND OVER: "@ + (if winners.len() == 0 {
        "Something went wrong. No winners at all. Is the game over yet?\n"@
    } else if winners.len() == 1 {
        player_name(winners[0].0) + " wins, holding "@ + card_name(winners[0].1) + "\n"@
    } else {
        "Round tied between "@ + decimal_digits(winners.len()) + " players.\n"@ + tie_lines(winners)
    }) + "\n"@
}

impl Card {
    /// The name of the card.
    pub fn name(&self) -> (s: &'static str)
        ensures
            s@ == card_name(*self),
    {
        match self {
            Card::Soldier => "Soldier",
            Card::Clown => "Clown",
            Card::Knight => "Knight",
            Card::Priestess => "Priestess",
            Card::Wizard => "Wizard",
            Card::General => "General",
            Card::Minister => "Minister",
            Card::Princess => "Princess",
        }
    }
}

/// The prompt for a choice among `items`: the question `prompt`, then each item on a
/// line of its own, numbered from 1, then `>>> `.
pub fn list_prompt(prompt: &str, items: &[String]) -> (s: String)
    ensures
        s@ == list_prompt_text(prompt@, items@.map_values(|x: String| x@)),
{
    let ghost views = items@.map_values(|x: String| x@);
    let mut s = String::from_str(prompt);
    s.append("\n");
    let mut i: usize = 0;
    while i < items.len()
        invariant
            i <= items@.len(),
            views == items@.map_values(|x: String| x@),
            s@ == prompt@ + "\n"@ + numbered_lines(views.take(i as int)),
        decreases items.len() - i,
    {
        let number = decimal_string(i as u128 + 1);
        s.append("  ");
        s.append(number.as_str());
        s.append(". ");
        s.append(items[i].as_str());
        s.append("\n");
        proof {
            let t = views.take(i as int + 1);
            assert(t.drop_last() =~= views.take(i as int));
            assert(t.last() == items@[i as int]@);
            assert(s@ =~= prompt@ + "\n"@ + numbered_lines(t));
        }
        i = i + 1;
    }
    assert(views.take(items@.len() as int) =~= views);
    s.append(">>> ");
    s
}

/// The announcement at the end of a round with these winners.
pub fn winner_announcement(winners: &[(PlayerId, Card)]) -> (s: String)
    ensures
        s@ == round_over_text(winners@),
{
    let mut s = String::from_str("ROUND OVER: ");
    if winners.len() == 0 {
        s.append("Something went wrong. No winners at all. Is the game over yet?\n");
    } else if winners.len() == 1 {
        let (i, card) = winners[0];
        s.append(i.to_string().as_str());
        s.append(" wins, holding ");
        s.append(card.name());
        s.append("\n");
    } else {
        s.append("Round tied between ");
        s.append(decimal_string(winners.len() as u128).as_str());
        s.append(" players.\n");
        let ghost head = s@;
        let mut k: usize = 0;
        while k < winners.len()
            invariant
                k <= winners@.len(),
                s@ == head + tie_lines(winners@.take(k as int)),
            decreases winners.len() - k,
        {
            let (i, card) = winners[k];
            s.append("  ");
            s.append(i.to_string().as_str());
            s.append(" holds a ");
            s.append(card.name());
            s.append("\n");
            proof {
                let t = winners@.take(k as int + 1);
                assert(t.drop_last() =~= winners@.take(k as int));
                assert(s@ =~= head + tie_lines(t));
            }
            k = k + 1;
        }
        assert(winners@.take(winners@.len() as int) =~= winners@);
    }
    s.append("\n");
    assert(s@ =~= round_over_text(winners@));
    s
}

/// Writes what is said of an event at the end of `s`, `after` being the round it led to.
fn append_event(s: &mut String, e: Event, after: &Round)
    ensures
        final(s)@ == old(s)@ + event_text(e, after@),
{
    match e {
        Event::NoChange => s.append("Nothing happened. "),
        Event::Protected(_) => s.append("Now protected until their next turn. "),
        Event::SwappedHands(_, b) => {
            s.append("Swapped hands with ");
            s.append(b.to_string().as_str());
            s.append(". ");
        },
        Event::PlayerEliminated(p) => {
            s.append(p.to_string().as_str());
            s.append(" eliminated. ");
        },
        Event::ForcedReveal(a, b) => {
            s.append(b.to_string().as_str());
            s.append(" showed their card to ");
            s.append(a.to_string().as_str());
            s.append(". ");
        },
        Event::ForcedDiscard(p) => {
            s.append(p.to_string().as_str());
            match after.discarded_back(p, 0) {
                Some(c) => {
                    s.append(" forced to discard ");
                    s.append(c.name());
                    s.append(". ");
                },
                None => s.append(" forced to discard. "),
            }
        },
    }
    assert(final(s)@ =~= old(s)@ + event_text(e, after@));
}

/// The report of a turn, `after` being the round it led to: who busted out and with
/// which cards, or who played what on whom, and what followed.
pub fn report_outcome(outcome: &TurnOutcome, after: &Round) -> (s: String)
    ensures
        s@ == outcome_text(*outcome, after@),
{
    match outcome {
        TurnOutcome::BustedOut(p) => {
            let mut s = p.to_string();
            match (after.discarded_back(*p, 0), after.discarded_back(*p, 1)) {
                (Some(hand), Some(drawn)) => {
                    s.append(" busted out with ");
                    s.append(hand.name());
                    s.append(" and ");
                    s.append(drawn.name());
                    s.append("!");
                },
                _ => s.append(" busted out with the Minister!"),
            }
            s
        },
        TurnOutcome::Played(p, card, play, events) => {
            let mut s = p.to_string();
            s.append(" played ");
            s.append(card.name());
            match play {
                Play::NoEffect => s.append("."),
                Play::Attack(i) => {
                    s.append(" on ");
                    s.append(i.to_string().as_str());
                    s.append(".");
                },
                Play::Guess(i, guess) => {
                    s.append(" on ");
                    s.append(i.to_string().as_str());
                    s.append(", guessing ");
                    s.append(guess.name());
                    s.append(".");
                },
            }
            s.append(" ");
            let ghost start = s@;
            let mut k: usize = 0;
            while k < events.len()
                invariant
                    k <= events@.len(),
                    s@ == start + events_text(events@.take(k as int), after@),
                decreases events.len() - k,
            {
                append_event(&mut s, events[k], after);
                proof {
                    let t = events@.take(k as int + 1);
                    assert(t.drop_last() =~= events@.take(k as int));
                }
                k = k + 1;
            }
            assert(events@.take(events@.len() as int) =~= events@);
            s
        },
    }
}

} // verus!
