use vstd::prelude::*;

use crate::protocol::{LeaderboardEntry, ServerMessage, SnakeData};

verus! {

broadcast use vstd::seq_lib::group_seq_properties;

// ---------------------------------------------------------------------------
// Ordering of crown lists
// ---------------------------------------------------------------------------

/// Where an entry with `key` crowns goes in `s`: before the first entry
/// with fewer crowns, or at the end when there is none.
pub open spec fn insert_pos<A>(s: Seq<(A, u32)>, key: u32) -> int
    decreases s.len(),
{
    if s.len() == 0 {
        0
    } else if s[0].1 < key {
        0
    } else {
        1 + insert_pos(s.drop_first(), key)
    }
}

/// `s` with `e` inserted after every entry that has at least as many crowns.
pub open spec fn insert_desc<A>(s: Seq<(A, u32)>, e: (A, u32)) -> Seq<(A, u32)> {
    s.insert(insert_pos(s, e.1), e)
}

/// `s` ordered by crowns, most first; entries with equal crowns keep their
/// relative order (a stable sort).
pub open spec fn sort_desc<A>(s: Seq<(A, u32)>) -> Seq<(A, u32)>
    decreases s.len(),
{
    if s.len() == 0 {
        s
    } else {
        insert_desc(sort_desc(s.drop_last()), s.last())
    }
}

/// Whether `s` is ordered by crowns, most first.
pub open spec fn sorted_desc<A>(s: Seq<(A, u32)>) -> bool {
    forall|i: int, j: int| 0 <= i < j < s.len() ==> s[i].1 >= s[j].1
}

proof fn lemma_insert_pos<A>(s: Seq<(A, u32)>, key: u32)
    ensures
        0 <= insert_pos(s, key) <= s.len(),
        forall|j: int| 0 <= j < insert_pos(s, key) ==> s[j].1 >= key,
        insert_pos(s, key) < s.len() ==> s[insert_pos(s, key)].1 < key,
    decreases s.len(),
{
    if s.len() > 0 && s[0].1 >= key {
        lemma_insert_pos(s.drop_first(), key);
        assert forall|j: int| 0 <= j < insert_pos(s, key) implies s[j].1 >= key by {
            if j > 0 {
                assert(s[j] == s.drop_first()[j - 1]);
            }
        }
    }
}

proof fn lemma_insert_desc_sorted<A>(s: Seq<(A, u32)>, e: (A, u32))
    requires
        sorted_desc(s),
    ensures
        sorted_desc(insert_desc(s, e)),
        insert_desc(s, e).len() == s.len() + 1,
{
    lemma_insert_pos(s, e.1);
    let p = insert_pos(s, e.1);
    let r = insert_desc(s, e);
    assert forall|j: int| p <= j < s.len() implies s[j].1 < e.1 by {
        assert(s[p].1 >= s[j].1);
    }
    assert forall|i: int, j: int| 0 <= i < j < r.len() implies r[i].1 >= r[j].1 by {
        if i < p {
            if j < p {
            } else if j == p {
            } else {
                assert(r[j] == s[j - 1]);
            }
        } else if i == p {
            assert(r[j] == s[j - 1]);
        } else {
            assert(r[i] == s[i - 1]);
            assert(r[j] == s[j - 1]);
        }
    }
}

/// Sorting yields a list ordered by crowns, most first, of the same length.
pub proof fn lemma_sort_desc_sorted<A>(s: Seq<(A, u32)>)
    ensures
        sorted_desc(sort_desc(s)),
        sort_desc(s).len() == s.len(),
    decreases s.len(),
{
    if s.len() > 0 {
        lemma_sort_desc_sorted(s.drop_last());
        lemma_insert_desc_sorted(sort_desc(s.drop_last()), s.last());
    }
}

/// A list already ordered by crowns, most first, is left exactly as it is
/// by sorting: entries with equal crowns are never swapped.
pub proof fn lemma_sort_desc_keeps_sorted<A>(s: Seq<(A, u32)>)
    requires
        sorted_desc(s),
    ensures
        sort_desc(s) == s,
    decreases s.len(),
{
    if s.len() > 0 {
        let rest = s.drop_last();
        lemma_sort_desc_keeps_sorted(rest);
        lemma_insert_pos(rest, s.last().1);
        let p = insert_pos(rest, s.last().1);
        if p < rest.len() {
            assert(rest[p] == s[p]);
        }
        assert(rest.insert(rest.len() as int, s.last()) =~= s);
    }
}

proof fn lemma_insert_multiset<A>(s: Seq<A>, p: int, e: A)
    requires
        0 <= p <= s.len(),
    ensures
        s.insert(p, e).to_multiset() == s.to_multiset().insert(e),
{
    broadcast use vstd::seq_lib::group_to_multiset_ensures;

    let t = s.insert(p, e);
    assert(t.remove(p) =~= s);
    assert(t[p] == e);
    assert(t.to_multiset().remove(e) == s.to_multiset());
    assert(t.to_multiset().contains(e));
    assert(t.to_multiset() =~= s.to_multiset().insert(e));
}

/// Sorting rearranges the entries: it neither adds nor drops any.
pub proof fn lemma_sort_desc_permutes<A>(s: Seq<(A, u32)>)
    ensures
        sort_desc(s).to_multiset() == s.to_multiset(),
    decreases s.len(),
{
    broadcast use vstd::seq_lib::group_to_multiset_ensures;

    if s.len() > 0 {
        let rest = s.drop_last();
        lemma_sort_desc_permutes(rest);
        lemma_sort_desc_sorted(rest);
        lemma_insert_pos(sort_desc(rest), s.last().1);
        lemma_insert_multiset(sort_desc(rest), insert_pos(sort_desc(rest), s.last().1), s.last());
        assert(rest.push(s.last()) =~= s);
    }
}

/// Where `e` lands in `s`, found by scanning from the front.
fn find_insert_pos(s: &Vec<(String, u32)>, key: u32) -> (pos: usize)
    ensures
        pos == insert_pos(s@, key),
{
    let mut j: usize = 0;
    while j < s.len() && s[j].1 >= key
        invariant
            j <= s@.len(),
            insert_pos(s@, key) == j + insert_pos(s@.skip(j as int), key),
        decreases s@.len() - j,
    {
        assert(s@.skip(j as int).drop_first() =~= s@.skip(j + 1));
        j = j + 1;
    }
    j
}

/// The crown list ordered by crowns, most first, keeping the relative order
/// of players with equal crowns.
fn sort_by_crowns(v: Vec<(String, u32)>) -> (sorted: Vec<(String, u32)>)
    ensures
        sorted@ == sort_desc(v@),
{
    let ghost orig = v@;
    let n = v.len();
    let mut rest = v;
    let mut out: Vec<(String, u32)> = Vec::new();
    let mut i: usize = 0;
    assert(orig.take(0) =~= Seq::<(String, u32)>::empty());
    assert(orig.skip(0) =~= orig);
    while i < n
        invariant
            n == orig.len(),
            i <= n,
            rest@ == orig.skip(i as int),
            out@ == sort_desc(orig.take(i as int)),
        decreases n - i,
    {
        let e = rest.remove(0);
        assert(e == orig[i as int]);
        assert(rest@ =~= orig.skip(i + 1));
        let pos = find_insert_pos(&out, e.1);
        proof {
            lemma_insert_pos(out@, e.1);
        }
        out.insert(pos, e);
        assert(orig.take(i + 1).drop_last() =~= orig.take(i as int));
        i = i + 1;
    }
    assert(orig.take(n as int) =~= orig);
    out
}

// ---------------------------------------------------------------------------
// Crown lists keyed by player name
// ---------------------------------------------------------------------------

/// The first position at or after `i` of an entry for player `name`.
pub open spec fn first_named_from(s: Seq<(String, u32)>, name: Seq<char>, i: int) -> Option<int>
    decreases s.len() - i,
{
    if i < 0 || i >= s.len() {
        None
    } else if s[i].0@ == name {
        Some(i)
    } else {
        first_named_from(s, name, i + 1)
    }
}

/// The first position of an entry for player `name`.
pub open spec fn first_named(s: Seq<(String, u32)>, name: Seq<char>) -> Option<int> {
    first_named_from(s, name, 0)
}

/// `s` with the first entry for the player named `name` set to `crowns`,
/// or with `(name, crowns)` appended when the player has no entry.
pub open spec fn upsert(s: Seq<(String, u32)>, name: String, crowns: u32) -> Seq<(String, u32)> {
    match first_named(s, name@) {
        Some(i) => s.update(i, (s[i].0, crowns)),
        None => s.push((name, crowns)),
    }
}

proof fn lemma_first_named_from(s: Seq<(String, u32)>, name: Seq<char>, i: int)
    requires
        0 <= i,
    ensures
        match first_named_from(s, name, i) {
            Some(j) => {
                &&& i <= j < s.len()
                &&& s[j].0@ == name
                &&& forall|k: int| i <= k < j ==> s[k].0@ != name
            },
            None => forall|k: int| i <= k < s.len() ==> s[k].0@ != name,
        },
    decreases s.len() - i,
{
    if i < s.len() && s[i].0@ != name {
        lemma_first_named_from(s, name, i + 1);
    }
}

/// The first entry for a player is found, or the player has no entry.
pub proof fn lemma_first_named(s: Seq<(String, u32)>, name: Seq<char>)
    ensures
        match first_named(s, name) {
            Some(j) => {
                &&& 0 <= j < s.len()
                &&& s[j].0@ == name
                &&& forall|k: int| 0 <= k < j ==> s[k].0@ != name
            },
            None => forall|k: int| 0 <= k < s.len() ==> s[k].0@ != name,
        },
{
    lemma_first_named_from(s, name, 0);
}

/// The crown list that a leaderboard broadcast carries.
pub open spec fn leaderboard_crowns(players: Seq<LeaderboardEntry>) -> Seq<(String, u32)> {
    players.map_values(|p: LeaderboardEntry| (p.name, p.crowns))
}

/// The crown list with each name taken by its characters.
pub open spec fn crowns_view(s: Seq<(String, u32)>) -> Seq<(Seq<char>, u32)> {
    s.map_values(|e: (String, u32)| (e.0@, e.1))
}

/// Whether no two entries of `s` belong to the same player.
pub open spec fn unique_names(s: Seq<(String, u32)>) -> bool {
    forall|i: int, j: int| 0 <= i < j < s.len() ==> #[trigger] s[i].0@ != #[trigger] s[j].0@
}

/// The crown count of the first entry for player `name`, if any.
pub open spec fn crown_of(s: Seq<(String, u32)>, name: Seq<char>) -> Option<u32> {
    match first_named(s, name) {
        Some(i) => Some(s[i].1),
        None => None,
    }
}

proof fn lemma_crown_of_unique(s: Seq<(String, u32)>, name: Seq<char>)
    requires
        unique_names(s),
    ensures
        forall|i: int|
            0 <= i < s.len() && #[trigger] s[i].0@ == name ==> crown_of(s, name) == Some(s[i].1),
        (forall|i: int| 0 <= i < s.len() ==> #[trigger] s[i].0@ != name) ==> crown_of(s, name)
            is None,
{
    lemma_first_named(s, name);
    assert forall|i: int| 0 <= i < s.len() && #[trigger] s[i].0@ == name implies crown_of(
        s,
        name,
    ) == Some(s[i].1) by {
        let j = first_named(s, name).unwrap();
        if i < j {
        } else if j < i {
            assert(s[j].0@ != s[i].0@);
        }
    }
}

proof fn lemma_crown_of_insert(s: Seq<(String, u32)>, p: int, e: (String, u32))
    requires
        unique_names(s),
        0 <= p <= s.len(),
        crown_of(s, e.0@) is None,
    ensures
        unique_names(s.insert(p, e)),
        forall|m: Seq<char>|
            #[trigger] crown_of(s.insert(p, e), m) == if m == e.0@ {
                Some(e.1)
            } else {
                crown_of(s, m)
            },
{
    let t = s.insert(p, e);
    lemma_first_named(s, e.0@);
    assert forall|i: int, j: int| 0 <= i < j < t.len() implies #[trigger] t[i].0@ != #[trigger] t[j].0@ by {
        if i < p {
            if j == p {
                assert(t[i] == s[i]);
            } else if j > p {
                assert(t[i] == s[i]);
                assert(t[j] == s[j - 1]);
            }
        } else if i == p {
            assert(t[j] == s[j - 1]);
        } else {
            assert(t[i] == s[i - 1]);
            assert(t[j] == s[j - 1]);
        }
    }
    assert forall|m: Seq<char>| #[trigger] crown_of(t, m) == if m == e.0@ {
        Some(e.1)
    } else {
        crown_of(s, m)
    } by {
        lemma_crown_of_unique(t, m);
        lemma_crown_of_unique(s, m);
        if m == e.0@ {
            assert(t[p].0@ == m);
        } else {
            lemma_first_named(s, m);
            match first_named(s, m) {
                Some(i) => {
                    if i < p {
                        assert(t[i] == s[i]);
                    } else {
                        assert(t[i + 1] == s[i]);
                    }
                },
                None => {
                    assert forall|k: int| 0 <= k < t.len() implies #[trigger] t[k].0@ != m by {
                        if k < p {
                            assert(t[k] == s[k]);
                        } else if k > p {
                            assert(t[k] == s[k - 1]);
                        }
                    }
                },
            }
        }
    }
}

proof fn lemma_crown_of_push(s: Seq<(String, u32)>, e: (String, u32))
    requires
        unique_names(s),
        crown_of(s, e.0@) is None,
    ensures
        unique_names(s.push(e)),
        forall|m: Seq<char>|
            #[trigger] crown_of(s.push(e), m) == if m == e.0@ {
                Some(e.1)
            } else {
                crown_of(s, m)
            },
{
    assert(s.insert(s.len() as int, e) =~= s.push(e));
    lemma_crown_of_insert(s, s.len() as int, e);
}

proof fn lemma_sort_keeps_crowns(u: Seq<(String, u32)>)
    requires
        unique_names(u),
    ensures
        unique_names(sort_desc(u)),
        forall|m: Seq<char>| #[trigger] crown_of(sort_desc(u), m) == crown_of(u, m),
    decreases u.len(),
{
    if u.len() > 0 {
        let rest = u.drop_last();
        let e = u.last();
        assert(rest.push(e) =~= u);
        assert(unique_names(rest)) by {
            assert forall|i: int, j: int| 0 <= i < j < rest.len() implies #[trigger] rest[i].0@
                != #[trigger] rest[j].0@ by {
                assert(rest[i] == u[i] && rest[j] == u[j]);
            }
        }
        lemma_crown_of_unique(rest, e.0@);
        assert forall|i: int| 0 <= i < rest.len() implies #[trigger] rest[i].0@ != e.0@ by {
            assert(rest[i] == u[i]);
            assert(u[i].0@ != u[u.len() - 1].0@);
        }
        lemma_sort_keeps_crowns(rest);
        lemma_crown_of_push(rest, e);
        let sr = sort_desc(rest);
        assert(crown_of(sr, e.0@) == crown_of(rest, e.0@));
        lemma_insert_pos(sr, e.1);
        lemma_crown_of_insert(sr, insert_pos(sr, e.1), e);
        assert forall|m: Seq<char>| #[trigger] crown_of(sort_desc(u), m) == crown_of(u, m) by {
            assert(crown_of(sr, m) == crown_of(rest, m));
        }
    }
}

proof fn lemma_upsert_crowns(s: Seq<(String, u32)>, name: String, crowns: u32)
    requires
        unique_names(s),
    ensures
        unique_names(upsert(s, name, crowns)),
        crown_of(upsert(s, name, crowns), name@) == Some(crowns),
        forall|m: Seq<char>|
            m != name@ ==> #[trigger] crown_of(upsert(s, name, crowns), m) == crown_of(s, m),
{
    lemma_first_named(s, name@);
    lemma_crown_of_unique(s, name@);
    match first_named(s, name@) {
        Some(i) => {
            let t = s.update(i, (s[i].0, crowns));
            assert(unique_names(t)) by {
                assert forall|a: int, b: int| 0 <= a < b < t.len() implies #[trigger] t[a].0@
                    != #[trigger] t[b].0@ by {
                    assert(t[a].0 == s[a].0 && t[b].0 == s[b].0);
                }
            }
            lemma_crown_of_unique(t, name@);
            assert(t[i].0@ == name@);
            assert forall|m: Seq<char>| m != name@ implies #[trigger] crown_of(t, m) == crown_of(s, m) by {
                lemma_crown_of_unique(t, m);
                lemma_crown_of_unique(s, m);
                lemma_first_named(s, m);
                match first_named(s, m) {
                    Some(k) => {
                        assert(t[k] == s[k]);
                    },
                    None => {
                        assert forall|k: int| 0 <= k < t.len() implies #[trigger] t[k].0@ != m by {
                            assert(t[k].0 == s[k].0);
                        }
                    },
                }
            }
        },
        None => {
            lemma_crown_of_push(s, (name, crowns));
        },
    }
}

/// Read-back of a crown update: when no two entries share a player, after
/// `apply_crown(name, crowns)` the list still has one entry per player, the
/// player `name` has exactly `crowns`, and every other player keeps the
/// count it had.
pub proof fn lemma_crown_update_read_back(s: Seq<(String, u32)>, name: String, crowns: u32)
    requires
        unique_names(s),
    ensures
        unique_names(sort_desc(upsert(s, name, crowns))),
        crown_of(sort_desc(upsert(s, name, crowns)), name@) == Some(crowns),
        forall|m: Seq<char>|
            m != name@ ==> #[trigger] crown_of(sort_desc(upsert(s, name, crowns)), m) == crown_of(
                s,
                m,
            ),
{
    lemma_upsert_crowns(s, name, crowns);
    lemma_sort_keeps_crowns(upsert(s, name, crowns));
    assert forall|m: Seq<char>| m != name@ implies #[trigger] crown_of(
        sort_desc(upsert(s, name, crowns)),
        m,
    ) == crown_of(s, m) by {
        assert(crown_of(upsert(s, name, crowns), m) == crown_of(s, m));
    }
}

/// A leaderboard broadcast's crown list keeps every player: it has one entry
/// per player of the broadcast, holds each player's (name, crowns) pair
/// whatever the player's length or liveness, is a rearrangement of those
/// pairs, and is ordered by crowns, most first.
pub proof fn lemma_leaderboard_keeps_every_player(players: Seq<LeaderboardEntry>)
    ensures
        sort_desc(leaderboard_crowns(players)).len() == players.len(),
        forall|i: int|
            0 <= i < players.len() ==> sort_desc(leaderboard_crowns(players)).contains(
                (#[trigger] players[i].name, players[i].crowns),
            ),
        sort_desc(leaderboard_crowns(players)).to_multiset() == players.map_values(
            |p: LeaderboardEntry| (p.name, p.crowns),
        ).to_multiset(),
        sorted_desc(sort_desc(leaderboard_crowns(players))),
{
    broadcast use vstd::seq_lib::group_to_multiset_ensures;

    let pairs = leaderboard_crowns(players);
    let direct = players.map_values(|p: LeaderboardEntry| (p.name, p.crowns));
    lemma_sort_desc_sorted(pairs);
    lemma_sort_desc_permutes(pairs);
    assert(pairs.len() == players.len());
    assert forall|i: int| 0 <= i < players.len() implies sort_desc(pairs).contains(
        (#[trigger] players[i].name, players[i].crowns),
    ) by {
        assert(direct[i] == (players[i].name, players[i].crowns));
        assert(pairs[i] == direct[i]);
        assert(pairs.contains(direct[i]));
        assert(pairs.to_multiset().count(direct[i]) > 0);
    }
    assert(pairs =~= direct);
}

/// Position of the first entry for player `name`, found by scanning.
fn find_named(s: &Vec<(String, u32)>, name: &String) -> (found: Option<usize>)
    ensures
        match found {
            Some(i) => first_named(s@, name@) == Some(i as int),
            None => first_named(s@, name@) is None,
        },
{
    let mut i: usize = 0;
    while i < s.len()
        invariant
            i <= s@.len(),
            first_named(s@, name@) == first_named_from(s@, name@, i as int),
        decreases s@.len() - i,
    {
        if s[i].0 == *name {
            return Some(i);
        }
        i = i + 1;
    }
    None
}

// ---------------------------------------------------------------------------
// Shared game state
// ---------------------------------------------------------------------------

/// The game as the server last described it, plus a join message waiting
/// for the socket to open.
pub struct GameState {
    pub food: Option<[u16; 2]>,
    pub snakes: Vec<SnakeData>,
    pub crowns: Vec<(String, u32)>,
    pub leaderboard: Vec<LeaderboardEntry>,
    pub pending_join: Option<Vec<u8>>,
}

impl Default for GameState {
    fn default() -> (state: GameState)
        ensures
            state.food is None,
            state.snakes@.len() == 0,
            state.crowns@.len() == 0,
            state.leaderboard@.len() == 0,
            state.pending_join is None,
    {
        GameState {
            food: None,
            snakes: Vec::new(),
            crowns: Vec::new(),
            leaderboard: Vec::new(),
            pending_join: None,
        }
    }
}

impl GameState {
    /// Records a tick: the food position and every worm.
    pub fn apply_state(&mut self, food: [u16; 2], snakes: Vec<SnakeData>)
        ensures
            final(self).food == Some(food),
            final(self).snakes == snakes,
            final(self).crowns == old(self).crowns,
            final(self).leaderboard == old(self).leaderboard,
            final(self).pending_join == old(self).pending_join,
    {
        self.food = Some(food);
        self.snakes = snakes;
    }

    /// Upsert a single player's crown count and keep the list sorted.
    pub fn apply_crown(&mut self, name: String, crowns: u32)
        ensures
            final(self).crowns@ == sort_desc(upsert(old(self).crowns@, name, crowns)),
            final(self).food == old(self).food,
            final(self).snakes == old(self).snakes,
            final(self).leaderboard == old(self).leaderboard,
            final(self).pending_join == old(self).pending_join,
    {
        let ghost before = self.crowns@;
        proof {
            lemma_first_named(before, name@);
        }
        let found = find_named(&self.crowns, &name);
        match found {
            Some(i) => {
                let mut entry = self.crowns.remove(i);
                entry.1 = crowns;
                self.crowns.insert(i, entry);
                assert(self.crowns@ =~= upsert(before, name, crowns));
            },
            None => {
                self.crowns.push((name, crowns));
            },
        }
        let mut taken: Vec<(String, u32)> = Vec::new();
        std::mem::swap(&mut taken, &mut self.crowns);
        self.crowns = sort_by_crowns(taken);
    }

    /// Replace the full crown list and leaderboard from a leaderboard broadcast.
    pub fn apply_leaderboard(&mut self, players: Vec<LeaderboardEntry>)
        ensures
            final(self).crowns@ == sort_desc(leaderboard_crowns(players@)),
            final(self).crowns@.len() == players@.len(),
            forall|i: int|
                0 <= i < players@.len() ==> final(self).crowns@.contains(
                    (#[trigger] players@[i].name, players@[i].crowns),
                ),
            final(self).crowns@.to_multiset() == players@.map_values(
                |p: LeaderboardEntry| (p.name, p.crowns),
            ).to_multiset(),
            sorted_desc(final(self).crowns@),
            final(self).leaderboard == players,
            final(self).food == old(self).food,
            final(self).snakes == old(self).snakes,
            final(self).pending_join == old(self).pending_join,
    {
        let mut list: Vec<(String, u32)> = Vec::new();
        let mut i: usize = 0;
        while i < players.len()
            invariant
                i <= players@.len(),
                list@ == leaderboard_crowns(players@.take(i as int)),
            decreases players@.len() - i,
        {
            let name = players[i].name.clone();
            list.push((name, players[i].crowns));
            assert(leaderboard_crowns(players@.take(i + 1)) =~= leaderboard_crowns(
                players@.take(i as int),
            ).push((players@[i as int].name, players@[i as int].crowns)));
            i = i + 1;
        }
        assert(players@.take(players@.len() as int) =~= players@);
        proof {
            lemma_leaderboard_keeps_every_player(players@);
        }
        self.crowns = sort_by_crowns(list);
        self.leaderboard = players;
    }

    /// Applies one decoded server message: a tick replaces the food and the
    /// worms, a crown update upserts one player's count, a leaderboard
    /// replaces the crown list and the leaderboard; an error changes nothing.
    pub fn apply_message(&mut self, msg: ServerMessage)
        ensures
            match msg {
                ServerMessage::State { tick, food, snakes } => {
                    &&& final(self).food == Some(food)
                    &&& final(self).snakes == snakes
                    &&& final(self).crowns == old(self).crowns
                    &&& final(self).leaderboard == old(self).leaderboard
                },
                ServerMessage::Crown { name, crowns } => {
                    &&& final(self).crowns@ == sort_desc(upsert(old(self).crowns@, name, crowns))
                    &&& final(self).food == old(self).food
                    &&& final(self).snakes == old(self).snakes
                    &&& final(self).leaderboard == old(self).leaderboard
                },
                ServerMessage::Leaderboard { players } => {
                    &&& final(self).crowns@ == sort_desc(leaderboard_crowns(players@))
                    &&& final(self).crowns@.len() == players@.len()
                    &&& forall|i: int|
                        0 <= i < players@.len() ==> final(self).crowns@.contains(
                            (#[trigger] players@[i].name, players@[i].crowns),
                        )
                    &&& final(self).leaderboard == players
                    &&& final(self).food == old(self).food
                    &&& final(self).snakes == old(self).snakes
                },
                ServerMessage::Error { msg } => {
                    &&& final(self).food == old(self).food
                    &&& final(self).snakes == old(self).snakes
                    &&& final(self).crowns == old(self).crowns
                    &&& final(self).leaderboard == old(self).leaderboard
                },
            },
            final(self).pending_join == old(self).pending_join,
    {
        match msg {
            ServerMessage::State { tick, food, snakes } => self.apply_state(food, snakes),
            ServerMessage::Crown { name, crowns } => self.apply_crown(name, crowns),
            ServerMessage::Leaderboard { players } => self.apply_leaderboard(players),
            ServerMessage::Error { msg } => {},
        }
    }

    /// Hands out the join message queued while the socket was connecting,
    /// leaving nothing queued.
    pub fn take_pending_join(&mut self) -> (bytes: Option<Vec<u8>>)
        ensures
            bytes == old(self).pending_join,
            final(self).pending_join is None,
            final(self).food == old(self).food,
            final(self).snakes == old(self).snakes,
            final(self).crowns == old(self).crowns,
            final(self).leaderboard == old(self).leaderboard,
    {
        self.pending_join.take()
    }
}

} // verus!
