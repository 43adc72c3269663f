//! The mathematical model of a round of Love Letter: what a round is, and what
//! each of its steps does to it.

use vstd::prelude::*;
use vstd::multiset::Multiset;
use crate::action::{Action, Event, PlayError};
use crate::deck::{Card, deck_cards};
use crate::player::{Error as PlayerError, PlayerState};
use crate::player_id::PlayerId;

verus! {

/// Whose turn it is in a round.
pub enum Phase {
    /// No one has played yet.
    NotStarted,
    /// The player is to play, holding their hand and the card just drawn.
    PlayerReady(PlayerId, Card),
    /// The round is over; the players as they were when it ended.
    RoundOver(Seq<(PlayerId, PlayerState)>),
}

/// A round: the stack of cards still to draw (drawn from the end), the players in
/// order of play, and whose turn it is.
pub struct RoundState {
    pub stack: Seq<Card>,
    pub players: Seq<(PlayerId, PlayerState)>,
    pub phase: Phase,
}

/// A turn: who plays, the card in their hand and the card they drew.
#[derive(Debug, PartialEq, Eq, Clone, Copy)]
pub struct Turn {
    pub player: PlayerId,
    pub hand: Card,
    pub draw: Card,
}

impl Turn {
    /// The turn of `player`, holding `hand`, who drew `draw`.
    pub fn new(player: PlayerId, hand: Card, draw: Card) -> (t: Turn)
        ensures
            t == (Turn { player, hand, draw }),
    {
        Turn { player: player, hand: hand, draw: draw }
    }
}

/// A change made to one player.
#[derive(Clone, Copy)]
pub enum PlayerOp {
    Protect(bool),
    Eliminate,
    PlayCard(Card, Card),
    DiscardAndDraw(Option<Card>),
    /// Busting out with the Minister: the card drawn is discarded, then the player is out.
    BustOut(Card),
}

impl PlayerOp {
    pub open spec fn apply(self, p: PlayerState) -> Result<PlayerState, PlayerError> {
        match self {
            PlayerOp::Protect(b) => p.protect(b),
            PlayerOp::Eliminate => p.eliminate(),
            PlayerOp::PlayCard(dealt, chosen) => p.play_card(dealt, chosen),
            PlayerOp::DiscardAndDraw(c) => p.discard_and_draw(c),
            PlayerOp::BustOut(drawn) => match p.play_card(drawn, drawn) {
                Ok(q) => q.eliminate(),
                Err(e) => Err(e),
            },
        }
    }
}

/// The error a round reports for a player's error.
pub open spec fn play_error(id: PlayerId, e: PlayerError) -> PlayError {
    match e {
        PlayerError::Inactive => PlayError::InactivePlayer(id),
        PlayerError::NoSuchCard(c, d) => PlayError::CardNotFound(c, d),
        PlayerError::BadGuess => PlayError::BadGuess,
    }
}

/// `i` is the first seat of the player `id`.
pub open spec fn is_first_seat(players: Seq<(PlayerId, PlayerState)>, id: PlayerId, i: int) -> bool {
    &&& 0 <= i < players.len()
    &&& players[i].0 == id
    &&& forall|k: int| 0 <= k < i ==> players[k].0 != id
}

/// The seat of the player `id`: the first one that carries their identifier.
pub open spec fn seat_of(players: Seq<(PlayerId, PlayerState)>, id: PlayerId) -> Option<int> {
    if exists|i: int| 0 <= i < players.len() && players[i].0 == id {
        Some(choose|i: int| is_first_seat(players, id, i))
    } else {
        None
    }
}

proof fn lemma_first_seat_exists(players: Seq<(PlayerId, PlayerState)>, id: PlayerId, i: int)
    requires
        0 <= i < players.len(),
        players[i].0 == id,
    ensures
        exists|j: int| is_first_seat(players, id, j),
    decreases i,
{
    if exists|k: int| 0 <= k < i && players[k].0 == id {
        let k = choose|k: int| 0 <= k < i && players[k].0 == id;
        lemma_first_seat_exists(players, id, k);
    } else {
        assert(is_first_seat(players, id, i));
    }
}

/// The seat of a player is the first that carries their identifier, and there is
/// none exactly when no seat carries it.
pub broadcast proof fn lemma_seat_of(players: Seq<(PlayerId, PlayerState)>, id: PlayerId)
    ensures
        #[trigger] seat_of(players, id) matches Some(i) ==> is_first_seat(players, id, i),
        seat_of(players, id) is None <==> forall|k: int|
            0 <= k < players.len() ==> players[k].0 != id,
{
    if exists|i: int| 0 <= i < players.len() && players[i].0 == id {
        let i = choose|i: int| 0 <= i < players.len() && players[i].0 == id;
        lemma_first_seat_exists(players, id, i);
    }
}

/// Where no identifier is seated twice, the seat of the player at seat `i` is `i`.
pub proof fn lemma_seat_of_distinct(players: Seq<(PlayerId, PlayerState)>, i: int)
    requires
        distinct_ids(players),
        0 <= i < players.len(),
    ensures
        seat_of(players, players[i].0) == Some(i),
{
    broadcast use lemma_seat_of;

    let j = seat_of(players, players[i].0)->0;
    assert(is_first_seat(players, players[i].0, j));
    if j < i {
    } else if j > i {
    }
}

/// No identifier is seated twice.
pub open spec fn distinct_ids(players: Seq<(PlayerId, PlayerState)>) -> bool {
    forall|i: int, j: int| 0 <= i < j < players.len() ==> players[i].0 != players[j].0
}

/// The number of players still in the round.
pub open spec fn active_count(players: Seq<(PlayerId, PlayerState)>) -> nat
    decreases players.len(),
{
    if players.len() == 0 {
        0
    } else {
        active_count(players.drop_last()) + if players.last().1.active() {
            1nat
        } else {
            0nat
        }
    }
}

/// The card a player holds, as a multiset of zero or one card.
pub open spec fn hand_cards(hand: Option<Card>) -> Multiset<Card> {
    match hand {
        Some(c) => Multiset::singleton(c),
        None => Multiset::empty(),
    }
}

/// The cards a player holds or has discarded.
pub open spec fn player_cards(p: PlayerState) -> Multiset<Card> {
    hand_cards(p.hand).add(p.discards.to_multiset())
}

/// The cards all players hold or have discarded.
pub open spec fn seated_cards(players: Seq<(PlayerId, PlayerState)>) -> Multiset<Card>
    decreases players.len(),
{
    if players.len() == 0 {
        Multiset::empty()
    } else {
        seated_cards(players.drop_last()).add(player_cards(players.last().1))
    }
}

/// The survivors of the round and their cards, in order of play.
pub open spec fn survivors_of(players: Seq<(PlayerId, PlayerState)>) -> Seq<(PlayerId, Card)>
    decreases players.len(),
{
    if players.len() == 0 {
        Seq::empty()
    } else {
        let rest = survivors_of(players.drop_last());
        match players.last().1.hand {
            Some(c) => rest.push((players.last().0, c)),
            None => rest,
        }
    }
}

/// The survivor at `i` holds a card at least as high as every survivor's.
pub open spec fn holds_best(s: Seq<(PlayerId, Card)>, i: int) -> bool {
    forall|j: int| 0 <= j < s.len() ==> #[trigger] s[j].1.rank() <= s[i].1.rank()
}

/// Those among the first `n` survivors who hold the highest card, in order.
pub open spec fn best_of(s: Seq<(PlayerId, Card)>, n: int) -> Seq<(PlayerId, Card)>
    decreases n,
{
    if n <= 0 {
        Seq::empty()
    } else if holds_best(s, n - 1) {
        best_of(s, n - 1).push(s[n - 1])
    } else {
        best_of(s, n - 1)
    }
}

/// The winners of a round that ended with these players: the survivors holding the
/// highest card, with their cards.
pub open spec fn winners_of(players: Seq<(PlayerId, PlayerState)>) -> Seq<(PlayerId, Card)> {
    let s = survivors_of(players);
    best_of(s, s.len() as int)
}

/// The cards of one player are among the cards of all players.
pub proof fn lemma_seated_contains(players: Seq<(PlayerId, PlayerState)>, s: int)
    requires
        0 <= s < players.len(),
    ensures
        player_cards(players[s].1).subset_of(seated_cards(players)),
    decreases players.len(),
{
    broadcast use vstd::multiset::group_multiset_properties;

    if s < players.len() - 1 {
        lemma_seated_contains(players.drop_last(), s);
    }
}

/// The cards a change adds to those a player holds or has discarded: the card
/// played beside the hand, the card drawn after a forced discard; nothing for the
/// rest.
pub open spec fn op_gain(op: PlayerOp, p: PlayerState) -> Multiset<Card> {
    match op {
        PlayerOp::PlayCard(dealt, _) => Multiset::singleton(dealt),
        PlayerOp::BustOut(drawn) => Multiset::singleton(drawn),
        PlayerOp::DiscardAndDraw(c) => if p.protected || p.hand == Some(Card::Princess) {
            Multiset::empty()
        } else {
            hand_cards(c)
        },
        _ => Multiset::empty(),
    }
}

/// A change to a player moves cards between their hand and their discards, and
/// adds `op_gain`; no card is lost.
pub proof fn lemma_op_gain(op: PlayerOp, p: PlayerState)
    ensures
        op.apply(p) matches Ok(q) ==> player_cards(q) == player_cards(p).add(op_gain(op, p)),
{
    broadcast use vstd::seq_lib::group_to_multiset_ensures;
    broadcast use vstd::multiset::group_multiset_properties;

    match op {
        PlayerOp::BustOut(drawn) => {
            if let Ok(q) = p.play_card(drawn, drawn) {
                assert(player_cards(q) =~= player_cards(p).add(Multiset::singleton(drawn)));
                if let Ok(r) = q.eliminate() {
                    assert(player_cards(r) =~= player_cards(q));
                }
            }
        },
        _ => {},
    }
    if let Ok(q) = op.apply(p) {
        assert(player_cards(q) =~= player_cards(p).add(op_gain(op, p)));
    }
}

/// Replacing one player changes the cards of all players by what that player's
/// cards change by.
pub proof fn lemma_set_player_cards(players: Seq<(PlayerId, PlayerState)>, i: int, x: (PlayerId, PlayerState))
    requires
        0 <= i < players.len(),
    ensures
        seated_cards(players.update(i, x)).add(player_cards(players[i].1)) == seated_cards(
            players,
        ).add(player_cards(x.1)),
    decreases players.len(),
{
    broadcast use vstd::multiset::group_multiset_properties;

    let u = players.update(i, x);
    let lhs = seated_cards(u).add(player_cards(players[i].1));
    let rhs = seated_cards(players).add(player_cards(x.1));
    assert(seated_cards(u) == seated_cards(u.drop_last()).add(player_cards(u.last().1)));
    assert(seated_cards(players) == seated_cards(players.drop_last()).add(
        player_cards(players.last().1),
    ));
    if i == players.len() - 1 {
        assert(u.drop_last() =~= players.drop_last());
        assert(u.last() == x);
        assert forall|v: Card| #[trigger] lhs.count(v) == rhs.count(v) by {}
    } else {
        let ud = u.drop_last();
        let pd = players.drop_last();
        assert(ud =~= pd.update(i, x));
        assert(u.last() == players.last());
        lemma_set_player_cards(pd, i, x);
        assert(pd[i] == players[i]);
        assert forall|v: Card| #[trigger] lhs.count(v) == rhs.count(v) by {
            assert(seated_cards(ud).add(player_cards(pd[i].1)).count(v) == seated_cards(pd).add(
                player_cards(x.1),
            ).count(v));
        }
    }
    assert(lhs =~= rhs);
}

/// Adding the same cards to two collections that become equal shows them equal.
proof fn lemma_add_cancel(a: Multiset<Card>, b: Multiset<Card>, c: Multiset<Card>)
    requires
        a.add(c) == b.add(c),
    ensures
        a == b,
{
    broadcast use vstd::multiset::group_multiset_axioms;

    assert forall|v: Card| a.count(v) == b.count(v) by {
        vstd::multiset::axiom_multiset_add(a, c, v);
        vstd::multiset::axiom_multiset_add(b, c, v);
        assert(a.add(c).count(v) == b.add(c).count(v));
    }
    assert(a =~= b);
}

/// Two replacements that exchange cards between two players leave the total.
proof fn lemma_exchange_cancel(
    s: Multiset<Card>,
    a: Multiset<Card>,
    g: Multiset<Card>,
    p1: Multiset<Card>,
    p2: Multiset<Card>,
    x: Multiset<Card>,
    y: Multiset<Card>,
)
    requires
        a.add(p1) == s.add(x),
        g.add(p2) == a.add(y),
        x.add(y) == p1.add(p2),
    ensures
        g == s,
{
    broadcast use vstd::multiset::group_multiset_axioms;

    assert forall|v: Card| g.count(v) == s.count(v) by {
        vstd::multiset::axiom_multiset_add(a, p1, v);
        vstd::multiset::axiom_multiset_add(s, x, v);
        vstd::multiset::axiom_multiset_add(g, p2, v);
        vstd::multiset::axiom_multiset_add(a, y, v);
        vstd::multiset::axiom_multiset_add(x, y, v);
        vstd::multiset::axiom_multiset_add(p1, p2, v);
        assert(a.add(p1).count(v) == s.add(x).count(v));
        assert(g.add(p2).count(v) == a.add(y).count(v));
        assert(x.add(y).count(v) == p1.add(p2).count(v));
    }
    assert(g =~= s);
}

/// Adding nothing changes nothing.
proof fn lemma_add_empty(a: Multiset<Card>)
    ensures
        a.add(Multiset::empty()) == a,
{
    assert(a.add(Multiset::empty()) =~= a);
}

impl RoundState {
    /// All the cards in the round but the one burnt and, during a turn, the one drawn:
    /// the stack, the hands and the discards.
    pub open spec fn cards_held(self) -> Multiset<Card> {
        self.stack.to_multiset().add(seated_cards(self.players))
    }

    /// The seats are sound: no identifier is seated twice, and the player whose turn
    /// it is has a seat.
    pub open spec fn seats_sound(self) -> bool {
        &&& distinct_ids(self.players)
        &&& (self.phase matches Phase::PlayerReady(id, _) ==> seat_of(self.players, id) is Some)
    }

    /// The round is sound: its seats are, and no cards beyond those of a deck are in play.
    pub open spec fn well_formed(self) -> bool {
        &&& self.seats_sound()
        &&& self.cards_held().subset_of(deck_cards())
    }

    /// The next turn, if there is one, does not have its player hold the Minister
    /// and draw a Minister too.
    pub open spec fn ministers_apart(self) -> bool {
        self.next_player().1 matches Some(t) ==> !(t.draw == Card::Minister && t.hand
            == Card::Minister)
    }

    /// A deck holds one Minister, so in a sound round the card a player draws and
    /// the card they hold are never both the Minister.
    pub proof fn lemma_turn_holds_one_minister(self)
        requires
            self.well_formed(),
        ensures
            self.ministers_apart(),
    {
        broadcast use vstd::seq_lib::group_to_multiset_ensures;
        broadcast use vstd::multiset::group_multiset_properties;

        if let Some(t) = self.next_player().1 {
            let s = self.next_seat()->0;
            self.lemma_active_seat_from(1);
            crate::deck::lemma_deck_counts();
            if t.draw == Card::Minister && t.hand == Card::Minister {
                assert(self.stack =~= self.stack.drop_last().push(self.stack.last()));
                assert(self.stack.to_multiset().count(Card::Minister) >= 1);
                lemma_seated_contains(self.players, s);
                let p = self.players[s].1;
                assert(hand_cards(p.hand).count(Card::Minister) == 1);
                assert(player_cards(p).count(Card::Minister) >= 1);
                assert(seated_cards(self.players).count(Card::Minister) >= 1);
                assert(self.cards_held().count(Card::Minister) >= 2);
                assert(deck_cards().count(Card::Minister) == 1);
            }
        }
    }

    /// The same identifiers sit in the same seats.
    pub open spec fn same_seats(self, other: RoundState) -> bool {
        &&& self.players.len() == other.players.len()
        &&& forall|k: int| 0 <= k < self.players.len() ==> #[trigger] self.players[k].0
            == other.players[k].0
    }

    /// Every player who was out in `before` is still out, exactly as they were.
    pub open spec fn keeps_out(self, before: RoundState) -> bool {
        forall|k: int|
            0 <= k < before.players.len() && !before.players[k].1.active() ==> #[trigger] self.players[k].1
                == before.players[k].1
    }

    /// A change to one player keeps the seats, and adds `op_gain` to the cards in play.
    pub proof fn lemma_apply_op(self, id: PlayerId, op: PlayerOp)
        ensures
            self.apply_op(id, op) matches Ok(g) ==> {
                &&& g.same_seats(self)
                &&& g.keeps_out(self)
                &&& g.stack == self.stack
                &&& g.phase == self.phase
                &&& g.cards_held() == self.cards_held().add(
                    op_gain(op, self.players[self.lookup(id)->Ok_0].1),
                )
            },
    {
        broadcast use vstd::multiset::group_multiset_properties;

        if let Ok(g) = self.apply_op(id, op) {
            let i = self.lookup(id)->Ok_0;
            broadcast use lemma_seat_of;

            let p = self.players[i].1;
            let q = op.apply(p)->Ok_0;
            lemma_op_gain(op, p);
            lemma_set_player_cards(self.players, i, (self.players[i].0, q));
            assert(g.players == self.players.update(i, (self.players[i].0, q)));
            let gain = op_gain(op, p);
            assert forall|v: Card| #[trigger] g.cards_held().count(v) == self.cards_held().add(
                gain,
            ).count(v) by {
                assert(seated_cards(g.players).add(player_cards(p)).count(v) == seated_cards(
                    self.players,
                ).add(player_cards(q)).count(v));
                assert(player_cards(q).count(v) == player_cards(p).add(gain).count(v));
            }
            assert(g.cards_held() =~= self.cards_held().add(gain));
        }
    }

    /// Seats that stay the same give the same seat to each player.
    pub proof fn lemma_same_seats_lookup(self, other: RoundState, id: PlayerId)
        requires
            self.same_seats(other),
        ensures
            seat_of(self.players, id) == seat_of(other.players, id),
    {
        broadcast use lemma_seat_of;

        if let Some(i) = seat_of(self.players, id) {
            assert forall|k: int| 0 <= k < i implies other.players[k].0 != id by {
                assert(self.players[k].0 == other.players[k].0);
            }
            assert(self.players[i].0 == other.players[i].0);
            assert(is_first_seat(other.players, id, i));
        } else {
            assert forall|k: int| 0 <= k < other.players.len() implies other.players[k].0
                != id by {
                assert(self.players[k].0 == other.players[k].0);
            }
        }
    }

    /// An event keeps the seats and the cards in play, where a forced discard is
    /// not aimed at a protected player.
    pub proof fn lemma_apply_event(self, event: Event)
        requires
            event matches Event::ForcedDiscard(i) ==> (self.lookup(i) matches Ok(k) && 0 <= k
                < self.players.len() && !self.players[k].1.protected),
        ensures
            self.apply_event(event) matches Ok((g, _)) ==> {
                &&& g.same_seats(self)
                &&& g.keeps_out(self)
                &&& g.phase == self.phase
                &&& g.cards_held() == self.cards_held()
            },
    {
        broadcast use vstd::multiset::group_multiset_properties;
        broadcast use vstd::seq_lib::group_to_multiset_ensures;
        broadcast use lemma_seat_of;

        if let Ok((g, _)) = self.apply_event(event) {
            match event {
                Event::NoChange => {},
                Event::ForcedReveal(_, _) => {},
                Event::Protected(i) => {
                    self.lemma_apply_op(i, PlayerOp::Protect(true));
                    lemma_add_empty(self.cards_held());
                },
                Event::PlayerEliminated(i) => {
                    self.lemma_apply_op(i, PlayerOp::Eliminate);
                    lemma_add_empty(self.cards_held());
                },
                Event::SwappedHands(src, tgt) => {
                    let a = self.lookup(tgt)->Ok_0;
                    let b = self.lookup(src)->Ok_0;
                    let pa = self.players[a].1;
                    let pb = self.players[b].1;
                    let (x, y) = pa.swap_hands(pb)->Ok_0;
                    let r1 = self.set_player(a, x);
                    lemma_set_player_cards(self.players, a, (self.players[a].0, x));
                    lemma_set_player_cards(r1.players, b, (r1.players[b].0, y));
                    assert(g == r1.set_player(b, y));
                    assert(g.same_seats(self));
                    if a == b {
                        assert(x == pa && y == pa) by {
                            if !pa.protected {
                                assert(x == pa.with_hand(pa.hand));
                                assert(pa.with_hand(pa.hand) == pa);
                            }
                        }
                        assert(g.players =~= self.players);
                    } else {
                        assert(r1.players[b].1 == pb);
                        assert(player_cards(x).add(player_cards(y)) =~= player_cards(pa).add(
                            player_cards(pb),
                        ));
                        lemma_exchange_cancel(
                            seated_cards(self.players),
                            seated_cards(r1.players),
                            seated_cards(g.players),
                            player_cards(pa),
                            player_cards(pb),
                            player_cards(x),
                            player_cards(y),
                        );
                    }
                },
                Event::ForcedDiscard(i) => {
                    let k = self.lookup(i)->Ok_0;
                    if self.hand_at(k) == Card::Princess {
                        self.lemma_apply_op(i, PlayerOp::Eliminate);
                        lemma_add_empty(self.cards_held());
                    } else {
                        let (drawn, c) = self.draw();
                        assert(drawn.same_seats(self));
                        drawn.lemma_same_seats_lookup(self, i);
                        drawn.lemma_apply_op(i, PlayerOp::DiscardAndDraw(c));
                                let gain = op_gain(PlayerOp::DiscardAndDraw(c), drawn.players[k].1);
                        assert(gain == hand_cards(c));
                        if self.stack.len() > 0 {
                            assert(self.stack =~= self.stack.drop_last().push(self.stack.last()));
                            assert(drawn.stack.to_multiset().add(hand_cards(c)) =~= self.stack.to_multiset());
                        } else {
                            assert(hand_cards(c) =~= Multiset::empty());
                        }
                        assert(g.cards_held() =~= self.cards_held());
                    }
                },
            }
        }
    }

    /// Starting a turn moves the top card of the stack to the player about to play:
    /// it leaves the cards in play, and is what they hold with it.
    pub proof fn lemma_next_player_cards(self)
        requires
            self.seats_sound(),
        ensures
            self.next_player().1 matches Some(t) ==> {
                let g = self.next_player().0;
                &&& g.cards_held().insert(t.draw) == self.cards_held()
                &&& g.same_seats(self)
                &&& g.keeps_out(self)
                &&& g.lookup(t.player) matches Ok(s) && g.players[s].1.hand == Some(t.hand)
                    && !g.players[s].1.protected
                &&& g.seats_sound()
                &&& (self.well_formed() ==> g.well_formed())
            },
            self.next_player().1 is None ==> self.next_player().0.cards_held() == self.cards_held()
                && self.next_player().0.same_seats(self),
    {
        broadcast use vstd::multiset::group_multiset_properties;
        broadcast use vstd::seq_lib::group_to_multiset_ensures;

        if let Some(t) = self.next_player().1 {
            let g = self.next_player().0;
            let s = self.next_seat()->0;
            self.lemma_active_seat_from(1);
            let p = self.players[s].1;
            let q = PlayerState { protected: false, ..p };
            lemma_set_player_cards(self.players, s, (self.players[s].0, q));
            assert(player_cards(q) == player_cards(p));
            assert(self.stack =~= self.stack.drop_last().push(self.stack.last()));
            assert(g.players == self.players.update(s, (self.players[s].0, q)));
            lemma_add_cancel(seated_cards(g.players), seated_cards(self.players), player_cards(p));
            assert(g.cards_held().insert(t.draw) =~= self.cards_held());
            assert(g.same_seats(self));
            lemma_seat_of_distinct(self.players, s);
            self.lemma_same_seats_lookup(g, t.player);
            assert(distinct_ids(g.players)) by {
                assert forall|i: int, j: int| 0 <= i < j < g.players.len() implies g.players[i].0
                    != g.players[j].0 by {
                    assert(g.players[i].0 == self.players[i].0);
                    assert(g.players[j].0 == self.players[j].0);
                }
            }
            if self.well_formed() {
                assert(g.cards_held().subset_of(deck_cards())) by {
                    assert forall|c: Card| #[trigger] g.cards_held().count(c) <= deck_cards().count(
                        c,
                    ) by {
                        assert(g.cards_held().insert(t.draw).count(c) == self.cards_held().count(
                            c,
                        ));
                    }
                }
            }
        }
    }

    /// Busting out leaves the round sound and keeps every card in play: the card
    /// drawn and the hand both end up discarded.
    pub proof fn lemma_bust_keeps_cards(self)
        requires
            self.seats_sound(),
        ensures
            self.next_player().1 matches Some(t) ==> (self.next_player().0.apply_op(
                t.player,
                PlayerOp::BustOut(t.draw),
            ) matches Ok(g) ==> g.seats_sound() && g.cards_held() == self.cards_held()
                && g.keeps_out(self) && g.same_seats(self)),
    {
        self.lemma_next_player_cards();
        if let Some(t) = self.next_player().1 {
            let begun = self.next_player().0;
            begun.lemma_apply_op(t.player, PlayerOp::BustOut(t.draw));
            if let Ok(g) = begun.apply_op(t.player, PlayerOp::BustOut(t.draw)) {
                assert(g.cards_held() =~= self.cards_held());
                g.lemma_sound_from(begun);
            }
        }
    }

    /// A turn leaves the round sound and keeps every card in play: the card drawn
    /// ends up with the player, and whatever the play does only moves cards between
    /// the stack, the hands and the discards.
    #[verifier::rlimit(40)]
    pub proof fn lemma_turn_keeps_cards(self, card: Card, play: crate::action::Play)
        requires
            self.seats_sound(),
        ensures
            self.next_player().1 matches Some(t) ==> (self.next_player().0.resolve_play(
                t,
                card,
                play,
            ) matches Ok((g, _)) ==> g.seats_sound() && g.cards_held() == self.cards_held()
                && g.keeps_out(self) && g.same_seats(self)),
    {
        self.lemma_next_player_cards();
        if let Some(t) = self.next_player().1 {
            let begun = self.next_player().0;
            begun.lemma_apply_op(t.player, PlayerOp::PlayCard(t.draw, card));
            if let Ok(played) = begun.apply_op(t.player, PlayerOp::PlayCard(t.draw, card)) {
                assert(played.cards_held() =~= self.cards_held());
                if let Ok(action) = crate::action::action_for(t.player, card, play) {
                    if let Ok(event) = played.action_to_event(action) {
                        played.lemma_forced_discard_unprotected(action);
                        played.lemma_apply_event(event);
                        if let Ok((g, _)) = played.apply_event(event) {
                            g.lemma_sound_from(begun);
                        }
                    }
                }
            }
        }
    }

    /// A forced discard comes only from an action on a player who is not protected.
    pub proof fn lemma_forced_discard_unprotected(self, action: Action)
        ensures
            self.action_to_event(action) matches Ok(Event::ForcedDiscard(i)) ==> (self.lookup(
                i,
            ) matches Ok(k) && 0 <= k < self.players.len() && !self.players[k].1.protected),
    {
        broadcast use lemma_seat_of;

    }

    /// A round with the seats and phase of a round with sound seats has sound seats.
    pub proof fn lemma_sound_from(self, seats: RoundState)
        requires
            seats.seats_sound(),
            self.same_seats(seats),
            self.phase == seats.phase,
        ensures
            self.seats_sound(),
    {
        assert forall|i: int, j: int| 0 <= i < j < self.players.len() implies self.players[i].0
            != self.players[j].0 by {
            assert(self.players[i].0 == seats.players[i].0);
            assert(self.players[j].0 == seats.players[j].0);
        }
        if let Phase::PlayerReady(id, _) = self.phase {
            self.lemma_same_seats_lookup(seats, id);
        }
    }

    /// A protected player is immune to attack: every action aimed at them comes to
    /// nothing (a guess aimed at them must still not name the Soldier, and the
    /// Knight's player must still be in the round).
    pub proof fn lemma_protected_target_unaffected(self, action: Action, target: PlayerId)
        requires
            self.lookup(target) matches Ok(k) && self.players[k].1.protected,
            match action {
                Action::SwapHands(_, t) => t == target,
                Action::EliminatePlayer(t) => t == target,
                Action::ForceDiscard(t) => t == target,
                Action::ForceReveal(_, t) => t == target,
                Action::EliminateWeaker(s, t) => t == target && self.lookup(s) is Ok,
                Action::EliminateOnGuess(t, g) => t == target && g != Card::Soldier,
                _ => false,
            },
        ensures
            self.action_to_event(action) == Ok::<Event, PlayError>(Event::NoChange),
    {
    }

    /// The seat `k` places round the table after the current one.
    pub open spec fn seat_after(self, k: int) -> int {
        (self.current_seat() + k) % (self.players.len() as int)
    }

    /// The search round the table from the `m`th seat after the current one finds the
    /// first active seat there is, passing only over seats that are out.
    pub proof fn lemma_active_seat_from_first(self, m: int)
        requires
            1 <= m,
        ensures
            self.active_seat_from(m) matches Some(s) ==> exists|k: int|
                m <= k < self.players.len() && s == self.seat_after(k) && forall|j: int|
                    m <= j < k ==> !(#[trigger] self.players[self.seat_after(j)].1.active()),
            self.active_seat_from(m) is None ==> forall|j: int|
                m <= j < self.players.len() ==> !(#[trigger] self.players[self.seat_after(
                    j,
                )].1.active()),
        decreases self.players.len() - m,
    {
        if m < self.players.len() {
            self.lemma_active_seat_from_first(m + 1);
            if !self.players[self.seat_after(m)].1.active() {
                if let Some(s) = self.active_seat_from(m + 1) {
                    let k = choose|k: int|
                        m + 1 <= k < self.players.len() && s == self.seat_after(k) && forall|
                            j: int,
                        |
                            m + 1 <= j < k ==> !(#[trigger] self.players[self.seat_after(
                                j,
                            )].1.active());
                    assert forall|j: int| m <= j < k implies !(#[trigger] self.players[self.seat_after(
                        j,
                    )].1.active()) by {
                        if j > m {
                        }
                    }
                }
            } else {
                assert(forall|j: int| m <= j < m ==> !(#[trigger] self.players[self.seat_after(
                    j,
                )].1.active()));
            }
        }
    }

    /// Turn order: the next player is the first player round the table after the
    /// current one who is still in the round; everyone passed over is out.
    pub proof fn lemma_next_seat_is_next_active(self)
        ensures
            self.next_seat() matches Some(s) ==> {
                &&& self.players[s].1.active()
                &&& exists|k: int|
                    1 <= k < self.players.len() && s == self.seat_after(k) && forall|j: int|
                        1 <= j < k ==> !(#[trigger] self.players[self.seat_after(j)].1.active())
            },
    {
        self.lemma_active_seat_from_first(1);
        self.lemma_active_seat_from(1);
    }

    /// At least two players are in the round exactly when two seats hold active players.
    pub proof fn lemma_two_active(players: Seq<(PlayerId, PlayerState)>)
        ensures
            active_count(players) >= 2 ==> exists|i: int, j: int|
                0 <= i < j < players.len() && players[i].1.active() && players[j].1.active(),
        decreases players.len(),
    {
        if players.len() > 0 {
            let init = players.drop_last();
            RoundState::lemma_two_active(init);
            if active_count(players) >= 2 {
                if active_count(init) >= 2 {
                    let (i, j) = choose|i: int, j: int|
                        0 <= i < j < init.len() && init[i].1.active() && init[j].1.active();
                    assert(players[i] == init[i] && players[j] == init[j]);
                } else {
                    assert(players.last().1.active());
                    assert(active_count(init) >= 1);
                    RoundState::lemma_one_active(init);
                    let i = choose|i: int| 0 <= i < init.len() && init[i].1.active();
                    assert(players[i] == init[i]);
                    let j = players.len() - 1;
                    assert(0 <= i < j < players.len() && players[i].1.active() && players[j].1.active());
                }
            }
        }
    }

    /// Some player is in the round exactly when some seat holds an active player.
    pub proof fn lemma_one_active(players: Seq<(PlayerId, PlayerState)>)
        ensures
            active_count(players) >= 1 ==> exists|i: int|
                0 <= i < players.len() && players[i].1.active(),
        decreases players.len(),
    {
        if players.len() > 0 {
            let init = players.drop_last();
            RoundState::lemma_one_active(init);
            if active_count(init) >= 1 {
                let i = choose|i: int| 0 <= i < init.len() && init[i].1.active();
                assert(players[i] == init[i]);
            } else if active_count(players) >= 1 {
                assert(players[players.len() - 1].1.active());
            }
        }
    }

    /// A round ends exactly when at most one player is left in it, or no card is
    /// left to draw.
    pub proof fn lemma_round_over(self)
        requires
            self.seats_sound(),
        ensures
            self.next_player().1 is None <==> (active_count(self.players) <= 1
                || self.stack.len() == 0),
    {
        if active_count(self.players) >= 2 && self.stack.len() > 0 {
            RoundState::lemma_two_active(self.players);
            let (i, j) = choose|i: int, j: int|
                0 <= i < j < self.players.len() && self.players[i].1.active()
                    && self.players[j].1.active();
            let n = self.players.len() as int;
            let cs = self.current_seat();
            broadcast use lemma_seat_of;

            assert(-1 <= cs < n);
            let t = if cs == -1 || i != cs {
                i
            } else {
                j
            };
            let k = if cs == -1 {
                t + 1
            } else if t > cs {
                t - cs
            } else {
                t - cs + n
            };
            assert(1 <= k < n);
            assert(self.seat_after(k) == t) by {
                let x = cs + k;
                if x >= n {
                    assert(x % n == x - n) by (nonlinear_arith)
                        requires
                            n <= x < 2 * n,
                    ;
                } else {
                    assert(x % n == x) by (nonlinear_arith)
                        requires
                            0 <= x < n,
                    ;
                }
            }
            self.lemma_active_seat_from_first(1);
            assert(self.players[self.seat_after(k)].1.active());
        }
    }

    /// The player whose turn it is, if any.
    pub open spec fn current_player(self) -> Option<PlayerId> {
        match self.phase {
            Phase::PlayerReady(id, _) => Some(id),
            _ => None,
        }
    }

    /// The seat whose turn it is; -1 before the first turn and after the last.
    pub open spec fn current_seat(self) -> int {
        match self.phase {
            Phase::PlayerReady(id, _) => match seat_of(self.players, id) {
                Some(i) => i,
                None => -1,
            },
            _ => -1,
        }
    }

    /// The first active seat among the `k`th, `k+1`th, ... seats after the current one,
    /// going round the table but not back to the current seat.
    pub open spec fn active_seat_from(self, k: int) -> Option<int>
        decreases self.players.len() - k,
    {
        if k < 1 || k >= self.players.len() {
            None
        } else {
            let s = (self.current_seat() + k) % (self.players.len() as int);
            if self.players[s].1.active() {
                Some(s)
            } else {
                self.active_seat_from(k + 1)
            }
        }
    }

    /// The seat found round the table is a seat of an active player.
    pub proof fn lemma_active_seat_from(self, k: int)
        ensures
            self.active_seat_from(k) matches Some(s) ==> 0 <= s < self.players.len()
                && self.players[s].1.active(),
        decreases self.players.len() - k,
    {
        if 1 <= k < self.players.len() {
            let n = self.players.len() as int;
            let x = self.current_seat() + k;
            assert(0 <= x % n < n) by (nonlinear_arith)
                requires
                    n > 0,
            ;
            self.lemma_active_seat_from(k + 1);
        }
    }

    /// The seat of the next player to play: the next active one round the table.
    /// None once at most one player is left.
    pub open spec fn next_seat(self) -> Option<int> {
        if active_count(self.players) <= 1 {
            None
        } else {
            self.active_seat_from(1)
        }
    }

    /// Where the player `id` sits, if they are still in the round.
    pub open spec fn lookup(self, id: PlayerId) -> Result<int, PlayError> {
        match seat_of(self.players, id) {
            None => Err(PlayError::InvalidPlayer(id)),
            Some(i) => if self.players[i].1.active() {
                Ok(i)
            } else {
                Err(PlayError::InactivePlayer(id))
            },
        }
    }

    /// The hand held at seat `i`.
    pub open spec fn hand_at(self, i: int) -> Card {
        self.players[i].1.hand->0
    }

    /// The round with the player at seat `i` replaced by `p`.
    pub open spec fn set_player(self, i: int, p: PlayerState) -> RoundState {
        RoundState { players: self.players.update(i, (self.players[i].0, p)), ..self }
    }

    /// The round after the change `op` to the player `id`.
    pub open spec fn apply_op(self, id: PlayerId, op: PlayerOp) -> Result<RoundState, PlayError> {
        match self.lookup(id) {
            Err(e) => Err(e),
            Ok(i) => match op.apply(self.players[i].1) {
                Ok(p) => Ok(self.set_player(i, p)),
                Err(e) => Err(play_error(id, e)),
            },
        }
    }

    /// The round after drawing the top card of the stack, and that card.
    pub open spec fn draw(self) -> (RoundState, Option<Card>) {
        if self.stack.len() == 0 {
            (self, None)
        } else {
            (RoundState { stack: self.stack.drop_last(), ..self }, Some(self.stack.last()))
        }
    }

    /// Starts the next turn: the next player draws the top card, and their
    /// protection ends. Where no one is left to play or no card to draw, the round
    /// is over.
    pub open spec fn next_player(self) -> (RoundState, Option<Turn>) {
        match self.next_seat() {
            Some(s) if self.stack.len() > 0 => {
                let id = self.players[s].0;
                let c = self.stack.last();
                let p = self.players[s].1;
                (
                    RoundState {
                        stack: self.stack.drop_last(),
                        players: self.players.update(s, (id, PlayerState { protected: false, ..p })),
                        phase: Phase::PlayerReady(id, c),
                    },
                    Some(Turn { player: id, hand: p.hand->0, draw: c }),
                )
            },
            _ => (RoundState { phase: Phase::RoundOver(self.players), ..self }, None),
        }
    }

    /// `event` where the target `id` can be attacked; nothing where they are protected.
    pub open spec fn unless_protected(self, id: PlayerId, event: Event) -> Result<Event, PlayError> {
        match self.lookup(id) {
            Err(e) => Err(e),
            Ok(i) => if self.players[i].1.protected {
                Ok(Event::NoChange)
            } else {
                Ok(event)
            },
        }
    }

    /// What an action comes to in this round.
    pub open spec fn action_to_event(self, action: Action) -> Result<Event, PlayError> {
        match action {
            Action::NoChange => Ok(Event::NoChange),
            Action::Protect(i) => match self.lookup(i) {
                Err(e) => Err(e),
                Ok(_) => Ok(Event::Protected(i)),
            },
            Action::SwapHands(src, tgt) => self.unless_protected(tgt, Event::SwappedHands(src, tgt)),
            Action::EliminatePlayer(i) => self.unless_protected(i, Event::PlayerEliminated(i)),
            Action::ForceDiscard(i) => self.unless_protected(i, Event::ForcedDiscard(i)),
            Action::ForceReveal(src, tgt) => self.unless_protected(tgt, Event::ForcedReveal(src, tgt)),
            Action::EliminateWeaker(src, tgt) => match self.lookup(src) {
                Err(e) => Err(e),
                Ok(s) => match self.lookup(tgt) {
                    Err(e) => Err(e),
                    Ok(t) => if self.players[t].1.protected {
                        Ok(Event::NoChange)
                    } else if self.hand_at(s).rank() < self.hand_at(t).rank() {
                        Ok(Event::PlayerEliminated(src))
                    } else if self.hand_at(s).rank() > self.hand_at(t).rank() {
                        Ok(Event::PlayerEliminated(tgt))
                    } else {
                        Ok(Event::NoChange)
                    },
                },
            },
            Action::EliminateOnGuess(tgt, guess) => if guess == Card::Soldier {
                Err(PlayError::BadGuess)
            } else {
                match self.lookup(tgt) {
                    Err(e) => Err(e),
                    Ok(t) => if self.players[t].1.protected {
                        Ok(Event::NoChange)
                    } else if self.hand_at(t) == guess {
                        Ok(Event::PlayerEliminated(tgt))
                    } else {
                        Ok(Event::NoChange)
                    },
                }
            },
        }
    }

    /// A Soldier's guess eliminates its target exactly when it names the card they
    /// hold: against a seated, active target who is not protected, a guess other than
    /// the Soldier comes to the target's elimination if it is their card, and to
    /// nothing otherwise. A protected target is unaffected, and guessing the Soldier is
    /// refused.
    pub proof fn lemma_guess_eliminates_exactly_on_match(self, tgt: PlayerId, guess: Card)
        requires
            seat_of(self.players, tgt) matches Some(k) && self.players[k].1.hand is Some,
        ensures
            ({
                let k = seat_of(self.players, tgt)->0;
                let held = self.players[k].1.hand->0;
                let r = self.action_to_event(Action::EliminateOnGuess(tgt, guess));
                &&& guess == Card::Soldier ==> r == Err::<Event, PlayError>(PlayError::BadGuess)
                &&& guess != Card::Soldier && self.players[k].1.protected ==> r == Ok::<
                    Event,
                    PlayError,
                >(Event::NoChange)
                &&& guess != Card::Soldier && !self.players[k].1.protected && held == guess ==> r
                    == Ok::<Event, PlayError>(Event::PlayerEliminated(tgt))
                &&& guess != Card::Soldier && !self.players[k].1.protected && held != guess ==> r
                    == Ok::<Event, PlayError>(Event::NoChange)
            }),
    {
        broadcast use lemma_seat_of;

    }

    /// The Knight puts out whichever of the two holds the lower card: against a
    /// target who is not protected, the player whose card ranks below the other's is
    /// eliminated, and on equal cards nothing happens. A protected target is
    /// unaffected.
    pub proof fn lemma_weaker_hand_is_eliminated(self, src: PlayerId, tgt: PlayerId)
        requires
            seat_of(self.players, src) matches Some(a) && self.players[a].1.hand is Some,
            seat_of(self.players, tgt) matches Some(b) && self.players[b].1.hand is Some,
        ensures
            ({
                let a = seat_of(self.players, src)->0;
                let b = seat_of(self.players, tgt)->0;
                let mine = self.players[a].1.hand->0;
                let theirs = self.players[b].1.hand->0;
                let r = self.action_to_event(Action::EliminateWeaker(src, tgt));
                &&& self.players[b].1.protected ==> r == Ok::<Event, PlayError>(Event::NoChange)
                &&& !self.players[b].1.protected && mine.rank() < theirs.rank() ==> r == Ok::<
                    Event,
                    PlayError,
                >(Event::PlayerEliminated(src))
                &&& !self.players[b].1.protected && theirs.rank() < mine.rank() ==> r == Ok::<
                    Event,
                    PlayError,
                >(Event::PlayerEliminated(tgt))
                &&& !self.players[b].1.protected && mine == theirs ==> r == Ok::<Event, PlayError>(
                    Event::NoChange,
                )
            }),
    {
        broadcast use lemma_seat_of;

    }

    /// The round after the change `op` to the player `id`, with no follow-up event.
    pub open spec fn op_event(self, id: PlayerId, op: PlayerOp) -> Result<
        (RoundState, Option<Event>),
        PlayError,
    > {
        match self.apply_op(id, op) {
            Ok(r) => Ok((r, None)),
            Err(e) => Err(e),
        }
    }

    /// What an event does to the round, and the event it leads to, if any: forcing
    /// someone to discard the Princess puts them out.
    pub open spec fn apply_event(self, event: Event) -> Result<(RoundState, Option<Event>), PlayError> {
        match event {
            Event::NoChange => Ok((self, None)),
            Event::Protected(i) => self.op_event(i, PlayerOp::Protect(true)),
            Event::PlayerEliminated(i) => self.op_event(i, PlayerOp::Eliminate),
            Event::SwappedHands(src, tgt) => match self.lookup(tgt) {
                Err(e) => Err(e),
                Ok(a) => match self.lookup(src) {
                    Err(e) => Err(e),
                    Ok(b) => match self.players[a].1.swap_hands(self.players[b].1) {
                        Ok((x, y)) => Ok((self.set_player(a, x).set_player(b, y), None)),
                        Err(_) => Err(PlayError::InactivePlayer(src)),
                    },
                },
            },
            Event::ForcedDiscard(i) => match self.lookup(i) {
                Err(e) => Err(e),
                Ok(k) => if self.hand_at(k) == Card::Princess {
                    match self.apply_op(i, PlayerOp::Eliminate) {
                        Ok(r) => Ok((r, Some(Event::PlayerEliminated(i)))),
                        Err(e) => Err(e),
                    }
                } else {
                    let (drawn, c) = self.draw();
                    drawn.op_event(i, PlayerOp::DiscardAndDraw(c))
                },
            },
            Event::ForcedReveal(_, _) => Ok((self, None)),
        }
    }

    /// The rest of a turn once the player has chosen what to play: the card is
    /// played, it becomes an action and then an event, which is applied. Gives the
    /// round after the turn and the events that happened.
    pub open spec fn resolve_play(self, turn: Turn, card: Card, play: crate::action::Play) -> Result<
        (RoundState, Seq<Event>),
        PlayError,
    > {
        match self.apply_op(turn.player, PlayerOp::PlayCard(turn.draw, card)) {
            Err(e) => Err(e),
            Ok(played) => match crate::action::action_for(turn.player, card, play) {
                Err(e) => Err(e),
                Ok(action) => match played.action_to_event(action) {
                    Err(e) => Err(e),
                    Ok(event) => match played.apply_event(event) {
                        Err(e) => Err(e),
                        Ok((after, None)) => Ok((after, seq![event])),
                        Ok((after, Some(follow))) => Ok((after, seq![event, follow])),
                    },
                },
            },
        }
    }

    /// The card that the player `id` discarded `back` discards before their latest
    /// (`back` 0 for the latest), if they are seated and discarded that many.
    pub open spec fn discarded_back(self, id: PlayerId, back: int) -> Option<Card> {
        match seat_of(self.players, id) {
            Some(i) => {
                let d = self.players[i].1.discards;
                if 0 <= back < d.len() {
                    Some(d[d.len() - 1 - back])
                } else {
                    None
                }
            },
            None => None,
        }
    }

    /// A player who busts out discards the card drawn, then the card in hand: after a
    /// bust, their latest discard is their hand and the one before it the card drawn.
    pub proof fn lemma_bust_discards(self)
        requires
            self.seats_sound(),
        ensures
            self.next_player().1 matches Some(t) ==> (self.next_player().0.apply_op(
                t.player,
                PlayerOp::BustOut(t.draw),
            ) matches Ok(g) ==> g.discarded_back(t.player, 0) == Some(t.hand)
                && g.discarded_back(t.player, 1) == Some(t.draw)),
    {
        broadcast use lemma_seat_of;

        self.lemma_next_player_cards();
        if let Some(t) = self.next_player().1 {
            let begun = self.next_player().0;
            begun.lemma_apply_op(t.player, PlayerOp::BustOut(t.draw));
            if let Ok(g) = begun.apply_op(t.player, PlayerOp::BustOut(t.draw)) {
                let i = begun.lookup(t.player)->Ok_0;
                begun.lemma_same_seats_lookup(g, t.player);
                let p = begun.players[i].1;
                let q = PlayerOp::BustOut(t.draw).apply(p)->Ok_0;
                assert(g == begun.set_player(i, q));
                let played = p.play_card(t.draw, t.draw)->Ok_0;
                assert(played.discards == p.discards.push(t.draw));
                assert(q.discards == played.discards.push(t.hand));
            }
        }
    }

    /// A forced discard puts the card the target held on their discards: after it,
    /// their latest discard is that card.
    pub proof fn lemma_forced_discard_discards(self, id: PlayerId)
        requires
            self.lookup(id) matches Ok(k) && !self.players[k].1.protected,
        ensures
            self.apply_event(Event::ForcedDiscard(id)) matches Ok((g, _)) ==> g.discarded_back(id, 0)
                == Some(self.hand_at(self.lookup(id)->Ok_0)),
    {
        broadcast use lemma_seat_of;

        self.lemma_apply_event(Event::ForcedDiscard(id));
        if let Ok((g, _)) = self.apply_event(Event::ForcedDiscard(id)) {
            let k = self.lookup(id)->Ok_0;
            g.lemma_same_seats_lookup(self, id);
            let p = self.players[k].1;
            if self.hand_at(k) == Card::Princess {
                let q = PlayerOp::Eliminate.apply(p)->Ok_0;
                assert(g == self.set_player(k, q));
                assert(q.discards == p.discards.push(self.hand_at(k)));
            } else {
                let (drawn, c) = self.draw();
                let q = PlayerOp::DiscardAndDraw(c).apply(p)->Ok_0;
                assert(g == drawn.set_player(k, q));
                assert(q.discards == p.discards.push(self.hand_at(k)));
            }
        }
    }

    /// What a play makes the target discard: where the card played comes to a forced
    /// discard, the target and the card they hold once the card is played.
    pub open spec fn force_discarded(self, turn: Turn, card: Card, play: crate::action::Play) -> Option<
        (PlayerId, Card),
    > {
        match self.apply_op(turn.player, PlayerOp::PlayCard(turn.draw, card)) {
            Ok(played) => match crate::action::action_for(turn.player, card, play) {
                Ok(action) => match played.action_to_event(action) {
                    Ok(Event::ForcedDiscard(target)) => match played.lookup(target) {
                        Ok(i) => Some((target, played.hand_at(i))),
                        Err(_) => None,
                    },
                    _ => None,
                },
                Err(_) => None,
            },
            Err(_) => None,
        }
    }

    /// A forced discard ends on the target's discards: after the play, their latest
    /// discard is the card they were made to discard.
    pub proof fn lemma_play_force_discards(self, turn: Turn, card: Card, play: crate::action::Play)
        ensures
            self.force_discarded(turn, card, play) matches Some((p, c)) ==> (self.resolve_play(
                turn,
                card,
                play,
            ) matches Ok((g, _)) ==> g.discarded_back(p, 0) == Some(c)),
    {
        if let Some((p, c)) = self.force_discarded(turn, card, play) {
            let played = self.apply_op(turn.player, PlayerOp::PlayCard(turn.draw, card))->Ok_0;
            let action = crate::action::action_for(turn.player, card, play)->Ok_0;
            played.lemma_forced_discard_unprotected(action);
            played.lemma_forced_discard_discards(p);
        }
    }

    /// What a play makes the target reveal: where the card played comes to a forced
    /// reveal, the target and the card they hold once the card is played.
    pub open spec fn revealed(self, turn: Turn, card: Card, play: crate::action::Play) -> Option<
        (PlayerId, Card),
    > {
        match self.apply_op(turn.player, PlayerOp::PlayCard(turn.draw, card)) {
            Ok(played) => match crate::action::action_for(turn.player, card, play) {
                Ok(action) => match played.action_to_event(action) {
                    Ok(Event::ForcedReveal(_, target)) => match played.lookup(target) {
                        Ok(i) => Some((target, played.hand_at(i))),
                        Err(_) => None,
                    },
                    _ => None,
                },
                Err(_) => None,
            },
            Err(_) => None,
        }
    }
}

/// Among survivors ranked by `keys`, the positions of the maximal keys pick out the
/// survivors holding the highest card.
pub proof fn lemma_best_by_keys(s: Seq<(PlayerId, Card)>, keys: Seq<u8>, n: int)
    requires
        keys.len() == s.len(),
        forall|i: int| 0 <= i < s.len() ==> keys[i] == #[trigger] s[i].1.rank(),
        0 <= n <= s.len(),
    ensures
        crate::util::maximal_positions(keys, n).len() == best_of(s, n).len(),
        forall|k: int|
            0 <= k < best_of(s, n).len() ==> s[crate::util::maximal_positions(keys, n)[k]]
                == #[trigger] best_of(s, n)[k],
    decreases n,
{
    if n > 0 {
        lemma_best_by_keys(s, keys, n - 1);
        assert(crate::util::is_maximal(keys, n - 1) == holds_best(s, n - 1)) by {
            if crate::util::is_maximal(keys, n - 1) {
                assert forall|j: int| 0 <= j < s.len() implies #[trigger] s[j].1.rank() <= s[n
                    - 1].1.rank() by {
                    assert(keys[j] == s[j].1.rank());
                }
            }
            if holds_best(s, n - 1) {
                assert forall|j: int| #![trigger keys[j]] 0 <= j < keys.len() implies keys[n
                    - 1] >= keys[j] by {
                    assert(s[j].1.rank() <= s[n - 1].1.rank());
                }
            }
        }
    }
}

/// The round dealt from `cards` to the players `ids`: the last card is burnt, then
/// each player in turn is dealt the card now last, and the rest is the stack.
pub open spec fn dealt_round(ids: Seq<PlayerId>, cards: Seq<Card>) -> RoundState {
    RoundState {
        stack: cards.take(cards.len() - 1 - ids.len()),
        players: Seq::new(
            ids.len(),
            |k: int| (ids[k], PlayerState::dealt(Some(cards[cards.len() - 2 - k]))),
        ),
        phase: Phase::NotStarted,
    }
}

proof fn lemma_dealt_prefix(ids: Seq<PlayerId>, cards: Seq<Card>, m: int)
    requires
        0 <= m <= ids.len(),
        ids.len() + 1 <= cards.len(),
    ensures
        seated_cards(dealt_round(ids, cards).players.take(m)).add(
            cards.take(cards.len() - 1 - m).to_multiset(),
        ) =~= cards.take(cards.len() - 1).to_multiset(),
    decreases m,
{
    broadcast use vstd::seq_lib::group_to_multiset_ensures;
    broadcast use vstd::multiset::group_multiset_properties;

    let players = dealt_round(ids, cards).players;
    let n = cards.len();
    if m == 0 {
        assert(players.take(0) =~= Seq::<(PlayerId, PlayerState)>::empty());
        assert(seated_cards(players.take(0)) =~= Multiset::empty());
    } else {
        lemma_dealt_prefix(ids, cards, m - 1);
        assert(players.take(m).drop_last() =~= players.take(m - 1));
        let c = cards[n - 2 - (m - 1)];
        assert(players.take(m).last().1 == PlayerState::dealt(Some(c)));
        assert(PlayerState::dealt(Some(c)).discards.to_multiset() =~= Multiset::empty());
        assert(player_cards(PlayerState::dealt(Some(c))) =~= Multiset::singleton(c));
        assert(cards.take(n - 1 - (m - 1)) =~= cards.take(n - 1 - m).push(c));
        assert(cards.take(n - 1 - (m - 1)).to_multiset() =~= cards.take(n - 1 - m).to_multiset().insert(c));
    }
}

/// Dealing burns one card and leaves every other card of the deck in the stack
/// or in a player's hand.
pub proof fn lemma_dealt_round_keeps_cards(ids: Seq<PlayerId>, cards: Seq<Card>)
    requires
        ids.len() + 1 <= cards.len(),
    ensures
        dealt_round(ids, cards).cards_held().insert(cards.last()) =~= cards.to_multiset(),
{
    broadcast use vstd::seq_lib::group_to_multiset_ensures;
    broadcast use vstd::multiset::group_multiset_properties;

    let r = dealt_round(ids, cards);
    lemma_dealt_prefix(ids, cards, ids.len() as int);
    assert(r.players.take(ids.len() as int) =~= r.players);
    assert(cards =~= cards.take(cards.len() - 1).push(cards.last()));
}

/// Holding the Minister with the Wizard, the General or the Princess busts the player.
pub open spec fn busts(a: Card, b: Card) -> bool {
    (a == Card::Minister && (b == Card::Wizard || b == Card::General || b == Card::Princess)) || (b
        == Card::Minister && (a == Card::Wizard || a == Card::General || a == Card::Princess))
}

} // verus!
