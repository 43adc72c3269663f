//! Simple opaque type used to identify players.

use vstd::prelude::*;
use vstd::string::StringExecFns;

verus! {

/// Identifies a player. Identifiers are ordered by the number they carry.
#[derive(PartialEq, Eq, Structural, PartialOrd, Ord, Clone, Copy, Debug, Hash)]
pub struct PlayerId(u64);

impl PlayerId {
    /// The number the identifier carries.
    pub closed spec fn number(self) -> u64 {
        self.0
    }

    /// The identifier that carries the number `n`.
    pub closed spec fn with_number(n: u64) -> PlayerId {
        PlayerId(n)
    }

    /// An identifier is fixed by its number, and the identifier made from a number carries it.
    pub broadcast proof fn lemma_number(id: PlayerId, n: u64)
        ensures
            #[trigger] PlayerId::with_number(n).number() == n,
            PlayerId::with_number(#[trigger] id.number()) == id,
    {
    }

    /// The name of the player: "Player #" and their number counted from 1.
    pub fn to_string(&self) -> (s: String)
        ensures
            s@ == crate::text::player_name(*self),
    {
        let mut s = String::from_str("Player #");
        s.append(crate::text::decimal_string(self.0 as u128 + 1).as_str());
        s
    }

    /// The number the identifier carries; the first player issued carries 0.
    pub fn index(&self) -> (n: u64)
        ensures
            n == self.number(),
    {
        self.0
    }
}

/// Issues player identifiers carrying the numbers 0, 1, 2, ... in turn.
pub struct PlayerIdGenerator {
    last: u64,
}

impl PlayerIdGenerator {
    /// The number of the next identifier to be issued.
    pub closed spec fn next_number(self) -> u64 {
        self.last
    }

    fn new() -> (g: PlayerIdGenerator)
        ensures
            g.next_number() == 0,
    {
        PlayerIdGenerator { last: 0 }
    }

    /// One step of the generator: from `self` it gives `r`, the identifier carrying the
    /// next number, and becomes `after`, whose next number is one more.
    pub open spec fn steps_to(self, r: Option<PlayerId>, after: PlayerIdGenerator) -> bool {
        &&& r == Some(PlayerId::with_number(self.next_number()))
        &&& after.next_number() == self.next_number() + 1
    }

    /// Issues the next identifier.
    pub fn next(&mut self) -> (r: Option<PlayerId>)
        requires
            old(self).next_number() < u64::MAX,
        ensures
            old(self).steps_to(r, *final(self)),
    {
        let result = PlayerId(self.last);
        self.last = self.last + 1;
        Some(result)
    }

    /// Issues the next `n` identifiers, in order.
    pub fn take(&mut self, n: usize) -> (ids: Vec<PlayerId>)
        requires
            old(self).next_number() + n <= u64::MAX,
        ensures
            ids@.len() == n,
            forall|k: int|
                0 <= k < n ==> #[trigger] ids@[k] == PlayerId::with_number(
                    (old(self).next_number() + k) as u64,
                ),
            final(self).next_number() == old(self).next_number() + n,
    {
        let mut ids: Vec<PlayerId> = Vec::new();
        let mut i: usize = 0;
        while i < n
            invariant
                i <= n,
                ids@.len() == i,
                self.next_number() == old(self).next_number() + i,
                old(self).next_number() + n <= u64::MAX,
                forall|k: int|
                    0 <= k < i ==> #[trigger] ids@[k] == PlayerId::with_number(
                        (old(self).next_number() + k) as u64,
                    ),
            decreases n - i,
        {
            let id = PlayerId(self.last);
            self.last = self.last + 1;
            ids.push(id);
            i = i + 1;
        }
        ids
    }
}

/// Successive calls of `next` on a fresh generator, the generator passing from
/// `gens[k]` to `gens[k + 1]` as it gives `ids[k]`, give the identifiers carrying the
/// numbers 0, 1, 2, ... in turn: never `None`, and strictly increasing, so no
/// identifier is given twice.
pub proof fn lemma_generator_counts_up(gens: Seq<PlayerIdGenerator>, ids: Seq<Option<PlayerId>>)
    requires
        gens.len() == ids.len() + 1,
        gens[0].next_number() == 0,
        forall|k: int| #![trigger ids[k]] 0 <= k < ids.len() ==> gens[k].steps_to(ids[k], gens[k + 1]),
    ensures
        forall|k: int| 0 <= k < ids.len() ==> #[trigger] ids[k] == Some(PlayerId::with_number(k as u64)),
        forall|i: int, j: int|
            0 <= i < j < ids.len() ==> (#[trigger] ids[i])->0.number() < (#[trigger] ids[j])->0.number(),
{
    lemma_generator_numbers(gens, ids, ids.len() as int);
    assert forall|i: int, j: int| 0 <= i < j < ids.len() implies (#[trigger] ids[i])->0.number() < (
    #[trigger] ids[j])->0.number() by {
        PlayerId::lemma_number(ids[i]->0, i as u64);
        PlayerId::lemma_number(ids[j]->0, j as u64);
    }
}

/// The generator reached after `n` steps from a fresh one hands out the number `n` next.
proof fn lemma_generator_numbers(gens: Seq<PlayerIdGenerator>, ids: Seq<Option<PlayerId>>, n: int)
    requires
        gens.len() == ids.len() + 1,
        gens[0].next_number() == 0,
        forall|k: int| #![trigger ids[k]] 0 <= k < ids.len() ==> gens[k].steps_to(ids[k], gens[k + 1]),
        0 <= n <= ids.len(),
    ensures
        forall|k: int| 0 <= k <= n ==> #[trigger] gens[k].next_number() == k,
    decreases n,
{
    if n > 0 {
        lemma_generator_numbers(gens, ids, n - 1);
        assert(gens[n - 1].steps_to(ids[n - 1], gens[n]));
    }
}

/// A fresh generator, whose first identifier carries the number 0.
pub fn player_id_generator() -> (g: PlayerIdGenerator)
    ensures
        g.next_number() == 0,
{
    PlayerIdGenerator::new()
}

/// The identifiers carrying the numbers `0..n`, in order.
pub open spec fn first_ids(n: nat) -> Seq<PlayerId> {
    Seq::new(n, |k: int| PlayerId::with_number(k as u64))
}

/// Makes `n` players, numbered from 0; `None` where `n` is not a valid number of players.
pub fn make_players(n: usize) -> (r: Option<Players>)
    ensures
        r is Some <==> valid_player_count(n as int),
        r matches Some(p) ==> p@ == first_ids(n as nat),
{
    if !valid_player_count_exec(n) {
        return None;
    }
    let mut gen = player_id_generator();
    let players = gen.take(n);
    assert(players@ =~= first_ids(n as nat));
    proof {
        assert forall|i: int, j: int| 0 <= i < j < players@.len() implies players@[i].number()
            < players@[j].number() by {}
    }
    match Players::new(players.as_slice()) {
        Ok(p) => {
            proof {
                assert(p@ =~= first_ids(n as nat)) by {
                    lemma_sorted_same_elements_equal(p@, players@);
                }
            }
            Some(p)
        },
        Err(_) => None,
    }
}

/// Why a list of players was refused.
#[derive(Debug, PartialEq, Eq, Structural, Clone, Copy)]
pub enum Error {
    InvalidNumPlayers(usize),
    DuplicatePlayers,
}

/// The players of a game: between 2 and 4 distinct identifiers, in increasing order.
#[derive(Debug)]
pub struct Players {
    players: Vec<PlayerId>,
}

/// Whether the game can be played by `n` players.
pub open spec fn valid_player_count(n: int) -> bool {
    2 <= n <= 4
}

/// The identifiers are in strictly increasing order.
pub open spec fn strictly_increasing(s: Seq<PlayerId>) -> bool {
    forall|i: int, j: int| 0 <= i < j < s.len() ==> s[i].number() < s[j].number()
}

/// Some identifier occurs twice.
pub open spec fn has_duplicates(s: Seq<PlayerId>) -> bool {
    exists|i: int, j: int| 0 <= i < j < s.len() && s[i] == s[j]
}

/// Two strictly increasing lists that hold the same identifiers are the same list.
pub proof fn lemma_sorted_same_elements_equal(a: Seq<PlayerId>, b: Seq<PlayerId>)
    requires
        strictly_increasing(a),
        strictly_increasing(b),
        forall|x: PlayerId| a.contains(x) <==> b.contains(x),
    ensures
        a == b,
    decreases a.len(),
{
    if a.len() == 0 {
        if b.len() > 0 {
            assert(b.contains(b[0]));
        }
        assert(a =~= b);
    } else if b.len() == 0 {
        assert(a.contains(a[0]));
    } else {
        // The largest elements agree.
        let la = a.last();
        let lb = b.last();
        assert(a.contains(la));
        assert(b.contains(lb));
        let ia = choose|i: int| 0 <= i < a.len() && a[i] == lb;
        let ib = choose|i: int| 0 <= i < b.len() && b[i] == la;
        assert(la == lb) by {
            if la.number() < lb.number() {
                assert(a[ia].number() <= la.number());
            } else if lb.number() < la.number() {
                assert(b[ib].number() <= lb.number());
            }
        }
        let a2 = a.drop_last();
        let b2 = b.drop_last();
        assert forall|x: PlayerId| a2.contains(x) <==> b2.contains(x) by {
            if a2.contains(x) {
                let i = choose|i: int| 0 <= i < a2.len() && a2[i] == x;
                assert(a.contains(x));
                let j = choose|j: int| 0 <= j < b.len() && b[j] == x;
                assert(j != b.len() - 1);
                assert(b2[j] == x);
            }
            if b2.contains(x) {
                let i = choose|i: int| 0 <= i < b2.len() && b2[i] == x;
                assert(b.contains(x));
                let j = choose|j: int| 0 <= j < a.len() && a[j] == x;
                assert(j != a.len() - 1);
                assert(a2[j] == x);
            }
        }
        lemma_sorted_same_elements_equal(a2, b2);
        assert(a =~= a2.push(la));
        assert(b =~= b2.push(lb));
    }
}

fn valid_player_count_exec(num_players: usize) -> (r: bool)
    ensures
        r == valid_player_count(num_players as int),
{
    2 <= num_players && num_players <= 4
}

impl View for Players {
    type V = Seq<PlayerId>;

    closed spec fn view(&self) -> Seq<PlayerId> {
        self.players@
    }
}

impl Players {
    #[verifier::type_invariant]
    spec fn well_formed(self) -> bool {
        &&& valid_player_count(self.players@.len() as int)
        &&& strictly_increasing(self.players@)
    }

    /// The players are between 2 and 4 distinct identifiers, in increasing order.
    pub fn as_slice(&self) -> (s: &[PlayerId])
        ensures
            s@ == self@,
            valid_player_count(s@.len() as int),
            strictly_increasing(s@),
    {
        proof {
            use_type_invariant(self);
        }
        self.players.as_slice()
    }

    /// Takes the given players in increasing order. Refuses a number of players
    /// outside 2 to 4, then an identifier given twice.
    pub fn new(players: &[PlayerId]) -> (r: Result<Players, Error>)
        ensures
            !valid_player_count(players@.len() as int) ==> r == Err::<Players, Error>(
                Error::InvalidNumPlayers(players@.len() as usize),
            ),
            valid_player_count(players@.len() as int) && has_duplicates(players@) ==> r == Err::<
                Players,
                Error,
            >(Error::DuplicatePlayers),
            valid_player_count(players@.len() as int) && !has_duplicates(players@) ==> (
            r matches Ok(p) && {
                &&& strictly_increasing(p@)
                &&& p@.len() == players@.len()
                &&& forall|x: PlayerId| p@.contains(x) <==> players@.contains(x)
            }),
    {
        if !valid_player_count_exec(players.len()) {
            return Err(Error::InvalidNumPlayers(players.len()));
        }
        let mut ps: Vec<PlayerId> = Vec::new();
        let mut i: usize = 0;
        while i < players.len()
            invariant
                i <= players@.len(),
                valid_player_count(players@.len() as int),
                strictly_increasing(ps@),
                ps@.len() == i,
                forall|x: PlayerId| ps@.contains(x) <==> players@.take(i as int).contains(x),
                !has_duplicates(players@.take(i as int)),
            decreases players.len() - i,
        {
            let p = players[i];
            // Find where `p` goes: the first position holding a number at least as big.
            let mut pos: usize = 0;
            while pos < ps.len() && ps[pos].0 < p.0
                invariant
                    pos <= ps@.len(),
                    forall|k: int| 0 <= k < pos ==> ps@[k].number() < p.number(),
                decreases ps.len() - pos,
            {
                pos = pos + 1;
            }
            if pos < ps.len() && ps[pos].0 == p.0 {
                proof {
                    assert(ps@[pos as int] == p);
                    assert(ps@.contains(p));
                    let k = choose|k: int| 0 <= k < i && players@.take(i as int)[k] == p;
                    assert(players@[k] == players@[i as int]);
                    let nk = k;
                    let ni = i as int;
                    assert(0 <= nk < ni < players@.len() && players@[nk] == players@[ni]);
                    assert(has_duplicates(players@));
                }
                return Err(Error::DuplicatePlayers);
            }
            proof {
                assert(!ps@.contains(p)) by {
                    if ps@.contains(p) {
                        let k = choose|k: int| 0 <= k < ps@.len() && ps@[k] == p;
                        if k < pos {
                        } else {
                            assert(ps@[pos as int].number() <= ps@[k].number());
                        }
                    }
                }
            }
            let ghost old_ps = ps@;
            ps.insert(pos, p);
            proof {
                assert(ps@ =~= old_ps.subrange(0, pos as int).push(p) + old_ps.subrange(
                    pos as int,
                    old_ps.len() as int,
                ));
                assert forall|a: int, b: int| 0 <= a < b < ps@.len() implies ps@[a].number()
                    < ps@[b].number() by {
                    if b == pos {
                    } else if a == pos {
                        assert(ps@[b] == old_ps[b - 1]);
                    } else {
                    }
                }
                let t = players@.take(i as int + 1);
                assert(t =~= players@.take(i as int).push(p));
                assert forall|x: PlayerId| ps@.contains(x) <==> t.contains(x) by {
                    if ps@.contains(x) {
                        let k = choose|k: int| 0 <= k < ps@.len() && ps@[k] == x;
                        if k < pos {
                            assert(old_ps[k] == x);
                            assert(old_ps.contains(x));
                        } else if k > pos {
                            assert(old_ps[k - 1] == x);
                            assert(old_ps.contains(x));
                        }
                        if x != p {
                            assert(players@.take(i as int).contains(x));
                            let m = choose|m: int|
                                0 <= m < i && players@.take(i as int)[m] == x;
                            assert(t[m] == x);
                        } else {
                            assert(t[i as int] == x);
                        }
                    }
                    if t.contains(x) {
                        let m = choose|m: int| 0 <= m < t.len() && t[m] == x;
                        if m < i {
                            assert(players@.take(i as int)[m] == x);
                            assert(old_ps.contains(x));
                            let k = choose|k: int| 0 <= k < old_ps.len() && old_ps[k] == x;
                            if k < pos {
                                assert(ps@[k] == x);
                            } else {
                                assert(ps@[k + 1] == x);
                            }
                        } else {
                            assert(ps@[pos as int] == x);
                        }
                    }
                }
                assert(!has_duplicates(t)) by {
                    if has_duplicates(t) {
                        let (a, b) = choose|a: int, b: int| 0 <= a < b < t.len() && t[a] == t[b];
                        if b == i {
                            assert(players@.take(i as int)[a] == p);
                            assert(players@.take(i as int).contains(p));
                        } else {
                            assert(players@.take(i as int)[a] == players@.take(i as int)[b]);
                        }
                    }
                }
            }
            i = i + 1;
        }
        assert(players@.take(players@.len() as int) =~= players@);
        Ok(Players { players: ps })
    }

    /// Iterates over the players, in increasing order.
    pub fn iter(&self) -> (it: std::slice::Iter<'_, PlayerId>)
        ensures
            vstd::std_specs::slice::into_iter_elts(it) == self@,
    {
        self.players.iter()
    }
}

} // verus!
