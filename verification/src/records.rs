//! Game records: placements, leaderboard ranks, streaks and favourite cards,
//! and the small rules of the lobby.
use vstd::prelude::*;
use vstd::string::StringExecFns;
use crate::cards::Biome;
use crate::game::{players_view, tableau_number_sum, GameState, PlayerState};
use crate::game_spec::{can_score, number_sum, seats_ok, PlayerModel, PhaseModel};
use crate::scoring::{final_score, score_player};

verus! {

// ─── Saved results ───────────────────────────────────────────────────────────

/// A player's single best card play, with the game it came from.
#[derive(Debug, Clone)]
pub struct BestCard {
    /// "region" or "sanctuary"
    pub kind: String,
    pub number: u8,
    pub points: u32,
    pub explanation: String,
    pub game_id: i64,
    pub finished_at: i64,
}

/// A card and how often a player has had it.
#[derive(Debug, Clone, Copy, PartialEq, Eq, Structural)]
pub struct TopCard {
    pub number: u8,
    pub times_played: u32,
}

/// A player's record against one opponent.
#[derive(Debug, Clone)]
pub struct HeadToHead {
    /// The opponent's display name (most recent casing).
    pub name: String,
    pub games: u32,
    /// Times this player placed strictly better than the opponent.
    pub wins: u32,
    /// Times the opponent placed strictly better.
    pub losses: u32,
    pub ties: u32,
}

/// One game of a player's score history.
#[derive(Debug, Clone, Copy, PartialEq, Eq, Structural)]
pub struct ScorePoint {
    pub game_id: i64,
    pub finished_at: i64,
    pub score: u32,
    pub placement: u32,
}

/// One of a player's recent games.
#[derive(Debug, Clone, Copy, PartialEq, Eq, Structural)]
pub struct RecentEntry {
    pub game_id: i64,
    pub finished_at: i64,
    pub score: u32,
    pub placement: u32,
    pub player_count: u32,
}

/// A finished game and its winner.
#[derive(Debug, Clone)]
pub struct GameSummary {
    pub game_id: i64,
    pub finished_at: i64,
    pub player_count: u32,
    pub winner_name: String,
    pub winner_score: u32,
}

// ─── Placements ──────────────────────────────────────────────────────────────

/// A result beats another with a higher score, or with the same score and a
/// lower card-number sum.
pub open spec fn beats(a: (u32, u32), b: (u32, u32)) -> bool {
    a.0 > b.0 || (a.0 == b.0 && a.1 < b.1)
}

/// How many of the results beat `x`.
pub open spec fn count_beating(rs: Seq<(u32, u32)>, x: (u32, u32)) -> nat
    decreases rs.len(),
{
    if rs.len() == 0 {
        0
    } else {
        count_beating(rs.drop_last(), x) + if beats(rs.last(), x) { 1nat } else { 0nat }
    }
}

/// Standard competition ranking: one more than the number of results that
/// beat this one, so tied results share a placement.
pub open spec fn placement(rs: Seq<(u32, u32)>, i: int) -> nat {
    1 + count_beating(rs, rs[i])
}

proof fn lemma_count_beating_le(rs: Seq<(u32, u32)>, x: (u32, u32))
    ensures
        count_beating(rs, x) <= rs.len(),
    decreases rs.len(),
{
    if rs.len() > 0 {
        lemma_count_beating_le(rs.drop_last(), x);
    }
}

fn count_beaten_by(rs: &Vec<(u32, u32)>, x: (u32, u32)) -> (r: u32)
    requires
        rs.len() < u32::MAX,
    ensures
        r == count_beating(rs@, x),
{
    let mut n: u32 = 0;
    let mut j: usize = 0;
    while j < rs.len()
        invariant
            j <= rs.len(),
            rs.len() < u32::MAX,
            n == count_beating(rs@.take(j as int), x),
        decreases rs.len() - j,
    {
        proof {
            assert(rs@.take(j + 1).drop_last() =~= rs@.take(j as int));
            lemma_count_beating_le(rs@.take(j as int), x);
        }
        let y = rs[j];
        if y.0 > x.0 || (y.0 == x.0 && y.1 < x.1) {
            n = n + 1;
        }
        j = j + 1;
    }
    proof {
        assert(rs@.take(rs.len() as int) =~= rs@);
    }
    n
}

/// The placement of every result (score, card-number sum), by position.
pub fn placements(rs: &Vec<(u32, u32)>) -> (r: Vec<u32>)
    requires
        rs.len() < u32::MAX,
    ensures
        r@.len() == rs@.len(),
        forall|i: int| 0 <= i < rs@.len() ==> r@[i] == placement(rs@, i),
{
    let mut r: Vec<u32> = Vec::new();
    let mut i: usize = 0;
    while i < rs.len()
        invariant
            i <= rs.len(),
            rs.len() < u32::MAX,
            r@.len() == i,
            forall|k: int| 0 <= k < i ==> r@[k] == placement(rs@, k),
        decreases rs.len() - i,
    {
        let beaten = count_beaten_by(rs, rs[i]);
        proof {
            lemma_count_beating_le(rs@, rs@[i as int]);
        }
        r.push(beaten + 1);
        i = i + 1;
    }
    r
}

/// Each player's result: final score and the sum of their region numbers.
pub open spec fn results_of(ps: Seq<PlayerModel>) -> Seq<(u32, u32)> {
    ps.map_values(|p: PlayerModel| (final_score(p.tableau, p.sanctuaries) as u32, number_sum(p.tableau) as u32))
}

/// The placement of every player of a finished game, by seat.
pub fn game_placements(state: &GameState) -> (r: Vec<u32>)
    requires
        can_score(state@.players),
        seats_ok(state@.players),
        state.players.len() < u32::MAX,
    ensures
        r@.len() == state.players.len(),
        forall|i: int| 0 <= i < state.players.len() ==> r@[i] == placement(results_of(state@.players), i),
{
    let ghost ps = state@.players;
    let mut results: Vec<(u32, u32)> = Vec::new();
    let mut i: usize = 0;
    while i < state.players.len()
        invariant
            i <= state.players.len(),
            ps == state@.players,
            can_score(ps),
            results@ == results_of(ps).take(i as int),
        decreases state.players.len() - i,
    {
        let p = &state.players[i];
        proof {
            assert(ps[i as int] == p@);
            assert(player_fits_of(ps, i as int));
        }
        let total = score_player(p);
        let card_sum = tableau_number_sum(&p.tableau);
        results.push((total, card_sum));
        proof {
            assert(results@ =~= results_of(ps).take(i + 1));
        }
        i = i + 1;
    }
    proof {
        assert(results_of(ps).take(state.players.len() as int) =~= results_of(ps));
    }
    placements(&results)
}

spec fn player_fits_of(ps: Seq<PlayerModel>, i: int) -> bool {
    &&& crate::scoring::player_fits(ps[i].tableau, ps[i].sanctuaries)
    &&& final_score(ps[i].tableau, ps[i].sanctuaries) <= u32::MAX
    &&& number_sum(ps[i].tableau) <= u32::MAX
}

// ─── Leaderboard ranks ───────────────────────────────────────────────────────

/// Where the run of equal results holding position `i` starts.
pub open spec fn run_start(rs: Seq<(u32, u32)>, i: int) -> int
    decreases i,
{
    if i <= 0 {
        0
    } else if rs[i - 1] == rs[i] {
        run_start(rs, i - 1)
    } else {
        i
    }
}

proof fn lemma_run_start_range(rs: Seq<(u32, u32)>, i: int)
    requires
        0 <= i,
    ensures
        0 <= run_start(rs, i) <= i,
    decreases i,
{
    if i > 0 && rs[i - 1] == rs[i] {
        lemma_run_start_range(rs, i - 1);
    }
}

/// Ranks for a leaderboard listed best first: equal results share the rank of
/// the first of them, and the next result is ranked by its position.
pub fn assign_ranks(rs: &Vec<(u32, u32)>) -> (r: Vec<u32>)
    requires
        rs.len() < u32::MAX,
    ensures
        r@.len() == rs@.len(),
        forall|i: int| 0 <= i < rs@.len() ==> r@[i] == run_start(rs@, i) + 1,
{
    let mut r: Vec<u32> = Vec::new();
    let mut current_rank: u32 = 0;
    let mut i: usize = 0;
    while i < rs.len()
        invariant
            i <= rs.len(),
            rs.len() < u32::MAX,
            r@.len() == i,
            forall|k: int| 0 <= k < i ==> r@[k] == run_start(rs@, k) + 1,
            i > 0 ==> current_rank == run_start(rs@, i - 1) + 1,
        decreases rs.len() - i,
    {
        proof {
            lemma_run_start_range(rs@, i as int);
        }
        let starts_run = if i == 0 {
            true
        } else {
            let a = rs[i - 1];
            let b = rs[i];
            a.0 != b.0 || a.1 != b.1
        };
        if starts_run {
            current_rank = (i + 1) as u32;
        }
        r.push(current_rank);
        i = i + 1;
    }
    r
}

// ─── Win streaks ─────────────────────────────────────────────────────────────

/// The run of wins (first places) that ends the list.
pub open spec fn streak_at_end(ps: Seq<u32>) -> nat
    decreases ps.len(),
{
    if ps.len() == 0 {
        0
    } else if ps.last() == 1 {
        streak_at_end(ps.drop_last()) + 1
    } else {
        0
    }
}

/// The longest run of consecutive wins.
pub open spec fn longest_streak(ps: Seq<u32>) -> nat
    decreases ps.len(),
{
    if ps.len() == 0 {
        0
    } else {
        let before = longest_streak(ps.drop_last());
        let here = streak_at_end(ps);
        if here > before { here } else { before }
    }
}

proof fn lemma_streaks_le_len(ps: Seq<u32>)
    ensures
        streak_at_end(ps) <= ps.len(),
        longest_streak(ps) <= ps.len(),
    decreases ps.len(),
{
    if ps.len() > 0 {
        lemma_streaks_le_len(ps.drop_last());
    }
}

/// The longest run of consecutive wins in a player's placements, oldest first.
pub fn longest_win_streak(placements: &Vec<u32>) -> (r: u32)
    requires
        placements.len() <= u32::MAX,
    ensures
        r == longest_streak(placements@),
{
    let mut longest: u32 = 0;
    let mut current: u32 = 0;
    let mut i: usize = 0;
    while i < placements.len()
        invariant
            i <= placements.len(),
            placements.len() <= u32::MAX,
            current == streak_at_end(placements@.take(i as int)),
            longest == longest_streak(placements@.take(i as int)),
        decreases placements.len() - i,
    {
        proof {
            assert(placements@.take(i + 1).drop_last() =~= placements@.take(i as int));
            lemma_streaks_le_len(placements@.take(i as int));
        }
        if placements[i] == 1 {
            current = current + 1;
            if current > longest {
                longest = current;
            }
        } else {
            current = 0;
        }
        i = i + 1;
    }
    proof {
        assert(placements@.take(placements.len() as int) =~= placements@);
    }
    longest
}

// ─── Favourite cards ─────────────────────────────────────────────────────────

/// How many times `m` occurs.
pub open spec fn occurrences(ns: Seq<u8>, m: u8) -> nat
    decreases ns.len(),
{
    if ns.len() == 0 {
        0
    } else {
        occurrences(ns.drop_last(), m) + if ns.last() == m { 1nat } else { 0nat }
    }
}

/// Favourites come first by how often they were played, then by the lower number.
pub open spec fn ranks_before(a: u8, ca: nat, b: u8, cb: nat) -> bool {
    ca > cb || (ca == cb && a < b)
}

pub open spec fn listed(r: Seq<TopCard>, m: u8) -> bool {
    exists|i: int| 0 <= i < r.len() && r[i].number == m
}

/// The (at most) three cards played most often, most played first, ties by
/// the lower number; each with its count.
pub open spec fn is_top_three(ns: Seq<u8>, r: Seq<TopCard>) -> bool {
    &&& r.len() <= 3
    &&& forall|i: int| 0 <= i < r.len() ==> #[trigger] r[i].times_played == occurrences(ns, r[i].number) && r[i].times_played > 0
    &&& forall|i: int, j: int|
        0 <= i < j < r.len() ==> ranks_before(r[i].number, r[i].times_played as nat, r[j].number, r[j].times_played as nat)
    &&& forall|m: u8|
        occurrences(ns, m) > 0 && !listed(r, m) ==> r.len() == 3 && forall|i: int|
            0 <= i < r.len() ==> ranks_before(r[i].number, #[trigger] r[i].times_played as nat, m, occurrences(ns, m))
}

proof fn lemma_occurrences_le(ns: Seq<u8>, m: u8)
    ensures
        occurrences(ns, m) <= ns.len(),
    decreases ns.len(),
{
    if ns.len() > 0 {
        lemma_occurrences_le(ns.drop_last(), m);
    }
}

/// How often each value occurs, by value.
fn count_by_number(ns: &Vec<u8>) -> (counts: Vec<u32>)
    requires
        ns.len() <= u32::MAX,
    ensures
        counts@.len() == 256,
        forall|m: u8| #[trigger] counts@[m as int] == occurrences(ns@, m),
{
    let mut counts: Vec<u32> = Vec::new();
    let mut k: usize = 0;
    while k < 256
        invariant
            k <= 256,
            counts@.len() == k,
            forall|m: int| 0 <= m < k ==> counts@[m] == 0,
        decreases 256 - k,
    {
        counts.push(0);
        k = k + 1;
    }
    let mut i: usize = 0;
    while i < ns.len()
        invariant
            i <= ns.len(),
            ns.len() <= u32::MAX,
            counts@.len() == 256,
            forall|m: u8| #[trigger] counts@[m as int] == occurrences(ns@.take(i as int), m),
        decreases ns.len() - i,
    {
        proof {
            assert(ns@.take(i + 1).drop_last() =~= ns@.take(i as int));
            lemma_occurrences_le(ns@.take(i as int), ns@[i as int]);
        }
        let n = ns[i] as usize;
        let c = counts[n];
        counts.set(n, c + 1);
        proof {
            assert forall|m: u8| #[trigger] counts@[m as int] == occurrences(ns@.take(i + 1), m) by {
                if m != ns@[i as int] {
                    assert(counts@[m as int] == occurrences(ns@.take(i as int), m));
                }
            }
        }
        i = i + 1;
    }
    proof {
        assert(ns@.take(ns.len() as int) =~= ns@);
    }
    counts
}

/// The three cards played most often (fewer when fewer were played), most
/// played first, ties going to the lower number.
pub fn top_three(ns: &Vec<u8>) -> (r: Vec<TopCard>)
    requires
        ns.len() <= u32::MAX,
    ensures
        is_top_three(ns@, r@),
{
    let counts = count_by_number(ns);
    let mut r: Vec<TopCard> = Vec::new();
    let mut pass: usize = 0;
    while pass < 3
        invariant
            pass <= 3,
            r@.len() == pass,
            counts@.len() == 256,
            forall|m: u8| #[trigger] counts@[m as int] == occurrences(ns@, m),
            forall|i: int| 0 <= i < r@.len() ==> #[trigger] r@[i].times_played == occurrences(ns@, r@[i].number) && r@[i].times_played > 0,
            forall|i: int, j: int|
                0 <= i < j < r@.len() ==> ranks_before(r@[i].number, r@[i].times_played as nat, r@[j].number, r@[j].times_played as nat),
            forall|m: u8|
                occurrences(ns@, m) > 0 && !listed(r@, m) ==> forall|i: int|
                    0 <= i < r@.len() ==> ranks_before(r@[i].number, #[trigger] r@[i].times_played as nat, m, occurrences(ns@, m)),
        decreases 3 - pass,
    {
        // The best value ranking after every card already listed.
        let mut best: Option<TopCard> = None;
        let mut m: usize = 0;
        while m < 256
            invariant
                m <= 256,
                r@.len() == pass,
                pass < 3,
                counts@.len() == 256,
                forall|v: u8| #[trigger] counts@[v as int] == occurrences(ns@, v),
                forall|i: int| 0 <= i < r@.len() ==> #[trigger] r@[i].times_played == occurrences(ns@, r@[i].number) && r@[i].times_played > 0,
                forall|i: int, j: int|
                    0 <= i < j < r@.len() ==> ranks_before(r@[i].number, r@[i].times_played as nat, r@[j].number, r@[j].times_played as nat),
                forall|v: u8|
                    occurrences(ns@, v) > 0 && !listed(r@, v) ==> forall|i: int|
                        0 <= i < r@.len() ==> ranks_before(r@[i].number, #[trigger] r@[i].times_played as nat, v, occurrences(ns@, v)),
                match best {
                    Some(b) => {
                        &&& b.number < m
                        &&& b.times_played == occurrences(ns@, b.number) && b.times_played > 0
                        &&& !listed(r@, b.number)
                        &&& forall|v: u8| v < m && occurrences(ns@, v) > 0 && !listed(r@, v) && v != b.number ==> ranks_before(
                            b.number,
                            b.times_played as nat,
                            v,
                            occurrences(ns@, v),
                        )
                    },
                    None => forall|v: u8| v < m ==> !(occurrences(ns@, v) > 0 && !listed(r@, v)),
                },
            decreases 256 - m,
        {
            let c = counts[m];
            let fresh = if c == 0 {
                false
            } else if r.len() == 0 {
                true
            } else {
                let last = r[r.len() - 1];
                c < last.times_played || (c == last.times_played && (m as u8) > last.number)
            };
            proof {
                let v = m as u8;
                assert(c == occurrences(ns@, v));
                if c > 0 && r@.len() > 0 {
                    let last = r@[r@.len() - 1];
                    // Ranking after the last listed card means not listed yet, and conversely.
                    if fresh {
                        assert(!listed(r@, v)) by {
                            if listed(r@, v) {
                                let w = choose|w: int| 0 <= w < r@.len() && r@[w].number == v;
                                if w < r@.len() - 1 {
                                    assert(ranks_before(r@[w].number, r@[w].times_played as nat, last.number, last.times_played as nat));
                                }
                            }
                        }
                    } else {
                        assert(listed(r@, v)) by {
                            if !listed(r@, v) {
                                assert(ranks_before(last.number, last.times_played as nat, v, occurrences(ns@, v)));
                            }
                        }
                    }
                }
                if c > 0 && r@.len() == 0 {
                    assert(!listed(r@, v));
                }
                if c == 0 {
                    assert(!(occurrences(ns@, v) > 0));
                }
            }
            if fresh {
                let candidate = TopCard { number: m as u8, times_played: c };
                match best {
                    Some(b) => {
                        if c > b.times_played {
                            best = Some(candidate);
                        }
                    },
                    None => {
                        best = Some(candidate);
                    },
                }
            }
            m = m + 1;
        }
        match best {
            Some(b) => {
                let ghost prev = r@;
                r.push(b);
                proof {
                    assert forall|v: u8| occurrences(ns@, v) > 0 && !listed(r@, v) implies forall|i: int|
                        0 <= i < r@.len() ==> ranks_before(r@[i].number, #[trigger] r@[i].times_played as nat, v, occurrences(ns@, v)) by {
                        assert(!listed(prev, v)) by {
                            if listed(prev, v) {
                                let w = choose|w: int| 0 <= w < prev.len() && prev[w].number == v;
                                assert(r@[w].number == v);
                            }
                        }
                        assert(v != b.number) by {
                            assert(r@[prev.len() as int].number == b.number);
                        }
                        assert forall|i: int| 0 <= i < r@.len() implies ranks_before(r@[i].number, #[trigger] r@[i].times_played as nat, v, occurrences(ns@, v)) by {
                            if i < prev.len() {
                                assert(r@[i] == prev[i]);
                            }
                        }
                    }
                    assert forall|i: int, j: int|
                        0 <= i < j < r@.len() implies ranks_before(r@[i].number, r@[i].times_played as nat, r@[j].number, r@[j].times_played as nat) by {
                        if j == prev.len() {
                            assert(r@[i] == prev[i]);
                        } else {
                            assert(r@[i] == prev[i]);
                            assert(r@[j] == prev[j]);
                        }
                    }
                    assert forall|i: int| 0 <= i < r@.len() implies #[trigger] r@[i].times_played == occurrences(ns@, r@[i].number) && r@[i].times_played > 0 by {
                        if i < prev.len() {
                            assert(r@[i] == prev[i]);
                        }
                    }
                }
            },
            None => {
                // Every card played is listed already.
                proof {
                    assert forall|v: u8| !(occurrences(ns@, v) > 0 && !listed(r@, v)) by {
                        assert(v < 256);
                    }
                }
                return r;
            },
        }
        pass = pass + 1;
    }
    r
}

// ─── Colour tallies ──────────────────────────────────────────────────────────

/// Where a colour stands in a tally: red, green, blue, yellow, colourless.
pub open spec fn colour_slot(b: Biome) -> int {
    match b {
        Biome::Red => 0,
        Biome::Green => 1,
        Biome::Blue => 2,
        Biome::Yellow => 3,
        Biome::Colorless => 4,
    }
}

/// How many of `bs` are of colour `b`.
pub open spec fn colour_count(bs: Seq<Biome>, b: Biome) -> nat
    decreases bs.len(),
{
    if bs.len() == 0 {
        0
    } else {
        colour_count(bs.drop_last(), b) + if bs.last() == b { 1nat } else { 0nat }
    }
}

proof fn lemma_colour_count_le(bs: Seq<Biome>, b: Biome)
    ensures
        colour_count(bs, b) <= bs.len(),
    decreases bs.len(),
{
    if bs.len() > 0 {
        lemma_colour_count_le(bs.drop_last(), b);
    }
}

/// How many cards of each colour were played: red, green, blue, yellow and
/// colourless, in that order.
pub fn tally_colours(bs: &Vec<Biome>) -> (r: Vec<u32>)
    requires
        bs.len() <= u32::MAX,
    ensures
        r@.len() == 5,
        forall|b: Biome| #[trigger] r@[colour_slot(b)] == colour_count(bs@, b),
        r@[0] == colour_count(bs@, Biome::Red),
        r@[1] == colour_count(bs@, Biome::Green),
        r@[2] == colour_count(bs@, Biome::Blue),
        r@[3] == colour_count(bs@, Biome::Yellow),
        r@[4] == colour_count(bs@, Biome::Colorless),
{
    let mut r: Vec<u32> = vec![0, 0, 0, 0, 0];
    let mut i: usize = 0;
    while i < bs.len()
        invariant
            i <= bs.len(),
            bs.len() <= u32::MAX,
            r@.len() == 5,
            forall|b: Biome| #[trigger] r@[colour_slot(b)] == colour_count(bs@.take(i as int), b),
        decreases bs.len() - i,
    {
        proof {
            assert(bs@.take(i + 1).drop_last() =~= bs@.take(i as int));
            lemma_colour_count_le(bs@.take(i as int), bs@[i as int]);
        }
        let slot: usize = match bs[i] {
            Biome::Red => 0,
            Biome::Green => 1,
            Biome::Blue => 2,
            Biome::Yellow => 3,
            Biome::Colorless => 4,
        };
        let ghost prev = r@;
        proof {
            assert(slot == colour_slot(bs@[i as int]));
            assert(r@[slot as int] == colour_count(bs@.take(i as int), bs@[i as int]));
        }
        r.set(slot, r[slot] + 1);
        proof {
            assert forall|b: Biome| #[trigger] r@[colour_slot(b)] == colour_count(bs@.take(i + 1), b) by {
                assert(prev[colour_slot(b)] == colour_count(bs@.take(i as int), b));
                assert(colour_slot(b) == slot <==> b == bs@[i as int]);
            }
        }
        i = i + 1;
    }
    proof {
        assert(bs@.take(bs.len() as int) =~= bs@);
        assert(r@[colour_slot(Biome::Red)] == colour_count(bs@, Biome::Red));
        assert(r@[colour_slot(Biome::Green)] == colour_count(bs@, Biome::Green));
        assert(r@[colour_slot(Biome::Blue)] == colour_count(bs@, Biome::Blue));
        assert(r@[colour_slot(Biome::Yellow)] == colour_count(bs@, Biome::Yellow));
        assert(r@[colour_slot(Biome::Colorless)] == colour_count(bs@, Biome::Colorless));
    }
    r
}

// ─── Small rules ─────────────────────────────────────────────────────────────

/// The display name of a colour in the statistics.
pub fn biome_label(b: &Biome) -> (r: String)
    ensures
        r@ == (match b {
            Biome::Red => "Red"@,
            Biome::Green => "Green"@,
            Biome::Blue => "Blue"@,
            Biome::Yellow => "Yellow"@,
            Biome::Colorless => "Colorless"@,
        }),
{
    match b {
        Biome::Red => String::from_str("Red"),
        Biome::Green => String::from_str("Green"),
        Biome::Blue => String::from_str("Blue"),
        Biome::Yellow => String::from_str("Yellow"),
        Biome::Colorless => String::from_str("Colorless"),
    }
}

/// A new score is a personal best when it beats every earlier one (the first
/// game always is).
pub fn is_personal_best(total: u32, previous: Option<u32>) -> (r: bool)
    ensures
        r == match previous {
            Some(prev) => total > prev,
            None => true,
        },
{
    match previous {
        Some(prev) => total > prev,
        None => true,
    }
}


// ─── The lobby ───────────────────────────────────────────────────────────────

/// A room still open to players, as listed in the lobby.
#[derive(Debug, Clone)]
pub struct RoomInfo {
    pub code: String,
    pub players: Vec<String>,
    pub player_count: usize,
}

/// The lobby lists only rooms that are still waiting for players, with the
/// names of those seated.
pub fn room_info(code: &str, state: &GameState) -> (r: Option<RoomInfo>)
    ensures
        match r {
            Some(info) => {
                &&& state@.phase is Waiting
                &&& info.code@ == code@
                &&& info.player_count == state.players.len()
                &&& info.players@.len() == state.players.len()
                &&& forall|i: int| 0 <= i < state.players.len() ==> #[trigger] info.players@[i]@ == state@.players[i].name
            },
            None => !(state@.phase is Waiting),
        },
{
    match &state.phase {
        crate::game::GamePhase::WaitingForPlayers { .. } => {},
        _ => return None,
    }
    let mut names: Vec<String> = Vec::new();
    let mut i: usize = 0;
    while i < state.players.len()
        invariant
            i <= state.players.len(),
            names@.len() == i,
            forall|k: int| 0 <= k < i ==> #[trigger] names@[k]@ == state@.players[k].name,
        decreases state.players.len() - i,
    {
        names.push(state.players[i].name.clone());
        i = i + 1;
    }
    Some(RoomInfo { code: String::from_str(code), players: names, player_count: state.players.len() })
}

/// The letters of room codes: capitals without I and O, which are easily
/// mistaken for digits.
pub open spec fn room_alphabet() -> Seq<char> {
    "ABCDEFGHJKLMNPQRSTUVWXYZ"@
}

pub open spec fn is_room_code(s: Seq<char>) -> bool {
    &&& s.len() == 4
    &&& forall|k: int| 0 <= k < 4 ==> room_alphabet().contains(#[trigger] s[k])
}

/// A number drawn with `rand::Rng::gen_range` over `0..n` from
/// `rand::thread_rng()`. Claimed: it is below `n` (the range is not empty);
/// which number comes is left open, as it rests on chance.
#[verifier::external_body]
fn random_below(n: usize) -> (r: usize)
    requires
        n > 0,
    ensures
        r < n,
{
    rand::Rng::gen_range(&mut rand::thread_rng(), 0..n)
}

/// The room code spelled by four positions in the alphabet of room letters.
pub open spec fn room_code_of(draws: Seq<usize>) -> Seq<char> {
    seq![
        room_alphabet()[draws[0] as int],
        room_alphabet()[draws[1] as int],
        room_alphabet()[draws[2] as int],
        room_alphabet()[draws[3] as int],
    ]
}

/// The room code whose letters sit at the four given positions of the
/// alphabet of room letters.
pub fn room_code_from(draws: &[usize; 4]) -> (r: String)
    requires
        forall|k: int| 0 <= k < 4 ==> #[trigger] draws@[k] < 24,
    ensures
        r@ == room_code_of(draws@),
        is_room_code(r@),
{
    let letters = "ABCDEFGHJKLMNPQRSTUVWXYZ";
    proof {
        reveal_strlit("ABCDEFGHJKLMNPQRSTUVWXYZ");
    }
    let mut code = String::new();
    let mut k: usize = 0;
    while k < 4
        invariant
            k <= 4,
            letters@ == room_alphabet(),
            room_alphabet().len() == 24,
            forall|j: int| 0 <= j < 4 ==> #[trigger] draws@[j] < 24,
            code@.len() == k,
            forall|j: int| 0 <= j < k ==> #[trigger] code@[j] == room_alphabet()[draws@[j] as int],
        decreases 4 - k,
    {
        let i = draws[k];
        proof {
            assert(i == draws@[k as int]);
        }
        let letter = letters.substring_char(i, i + 1);
        let ghost prev = code@;
        code.append(letter);
        proof {
            assert(code@ == prev + letter@);
            assert(letter@.len() == 1);
            assert forall|j: int| 0 <= j < k + 1 implies #[trigger] code@[j] == room_alphabet()[draws@[j] as int] by {
                if j < k {
                    assert(code@[j] == prev[j]);
                }
            }
        }
        k = k + 1;
    }
    proof {
        assert(code@ =~= room_code_of(draws@));
        assert forall|j: int| 0 <= j < 4 implies room_alphabet().contains(#[trigger] code@[j]) by {
            assert(code@[j] == room_alphabet()[draws@[j] as int]);
        }
    }
    code
}

/// A fresh four-letter room code, each letter drawn at random.
pub fn generate_room_code() -> (r: String)
    ensures
        is_room_code(r@),
        exists|draws: Seq<usize>|
            draws.len() == 4 && (forall|k: int| 0 <= k < 4 ==> #[trigger] draws[k] < 24) && r@ == #[trigger] room_code_of(draws),
{
    let draws: [usize; 4] = [random_below(24), random_below(24), random_below(24), random_below(24)];
    proof {
        assert forall|k: int| 0 <= k < 4 implies #[trigger] draws@[k] < 24 by {
            assert(k == 0 || k == 1 || k == 2 || k == 3);
        }
    }
    room_code_from(&draws)
}


// ─── A player's history ──────────────────────────────────────────────────────

/// One saved game of a player, oldest first when listed.
#[derive(Debug, Clone, Copy, PartialEq, Eq, Structural)]
pub struct GameRecord {
    pub game_id: i64,
    pub finished_at: i64,
    pub started_at: i64,
    pub player_count: u32,
    pub final_score: u32,
    pub placement: u32,
}

/// How long a game lasted, counting a clock that went backwards as no time.
pub open spec fn duration(g: GameRecord) -> int {
    if g.finished_at - g.started_at > 0 { g.finished_at - g.started_at } else { 0 }
}

pub open spec fn total_duration(gs: Seq<GameRecord>) -> int
    decreases gs.len(),
{
    if gs.len() == 0 {
        0
    } else {
        total_duration(gs.drop_last()) + duration(gs.last())
    }
}

proof fn lemma_total_duration_prefix(gs: Seq<GameRecord>, n: int)
    requires
        0 <= n <= gs.len(),
    ensures
        0 <= total_duration(gs.take(n)) <= total_duration(gs),
    decreases gs.len() - n,
{
    if n < gs.len() {
        lemma_total_duration_prefix(gs, n + 1);
        assert(gs.take(n + 1).drop_last() =~= gs.take(n));
        lemma_total_duration_nonneg(gs.take(n));
    } else {
        assert(gs.take(n) =~= gs);
        lemma_total_duration_nonneg(gs);
    }
}

proof fn lemma_total_duration_nonneg(gs: Seq<GameRecord>)
    ensures
        total_duration(gs) >= 0,
    decreases gs.len(),
{
    if gs.len() > 0 {
        lemma_total_duration_nonneg(gs.drop_last());
    }
}

/// The time spent in all the saved games, in seconds.
pub fn total_play_time(games: &Vec<GameRecord>) -> (r: i64)
    requires
        forall|i: int| 0 <= i < games.len() ==> i64::MIN <= #[trigger] games@[i].finished_at - games@[i].started_at <= i64::MAX,
        total_duration(games@) <= i64::MAX,
    ensures
        r == total_duration(games@),
{
    let mut total: i64 = 0;
    let mut i: usize = 0;
    while i < games.len()
        invariant
            i <= games.len(),
            forall|k: int| 0 <= k < games.len() ==> i64::MIN <= #[trigger] games@[k].finished_at - games@[k].started_at <= i64::MAX,
            total_duration(games@) <= i64::MAX,
            total == total_duration(games@.take(i as int)),
        decreases games.len() - i,
    {
        proof {
            assert(games@.take(i + 1).drop_last() =~= games@.take(i as int));
            lemma_total_duration_prefix(games@, i + 1);
        }
        let g = games[i];
        let d = g.finished_at - g.started_at;
        let d = if d > 0 { d } else { 0 };
        total = total + d;
        i = i + 1;
    }
    proof {
        assert(games@.take(games.len() as int) =~= games@);
    }
    total
}

/// The score of every game in order, for the sparkline.
pub fn score_history(games: &Vec<GameRecord>) -> (r: Vec<ScorePoint>)
    ensures
        r@.len() == games@.len(),
        forall|i: int| 0 <= i < games@.len() ==> #[trigger] r@[i] == (ScorePoint {
            game_id: games@[i].game_id,
            finished_at: games@[i].finished_at,
            score: games@[i].final_score,
            placement: games@[i].placement,
        }),
{
    let mut r: Vec<ScorePoint> = Vec::new();
    let mut i: usize = 0;
    while i < games.len()
        invariant
            i <= games.len(),
            r@.len() == i,
            forall|k: int| 0 <= k < i ==> #[trigger] r@[k] == (ScorePoint {
                game_id: games@[k].game_id,
                finished_at: games@[k].finished_at,
                score: games@[k].final_score,
                placement: games@[k].placement,
            }),
        decreases games.len() - i,
    {
        let g = games[i];
        r.push(ScorePoint { game_id: g.game_id, finished_at: g.finished_at, score: g.final_score, placement: g.placement });
        i = i + 1;
    }
    r
}

/// Whether a card's points make it the player's new best play: it must score,
/// and beat the best so far (an earlier play keeps a tie).
pub fn is_new_best_play(best_so_far: Option<u32>, points: u32) -> (r: bool)
    ensures
        r == (points > 0 && match best_so_far {
            Some(b) => points > b,
            None => true,
        }),
{
    let beats_best = match best_so_far {
        Some(b) => points > b,
        None => true,
    };
    beats_best && points > 0
}


// ─── Averages by group ───────────────────────────────────────────────────────

/// The games of one group (such as the player count) and their scores added up.
#[derive(Debug, Clone, Copy, PartialEq, Eq, Structural)]
pub struct ScoreGroup {
    pub key: u32,
    pub games: u32,
    pub total: u64,
}

/// How many of the (key, score) pairs have this key.
pub open spec fn games_with(ps: Seq<(u32, u32)>, k: u32) -> nat
    decreases ps.len(),
{
    if ps.len() == 0 {
        0
    } else {
        games_with(ps.drop_last(), k) + if ps.last().0 == k { 1nat } else { 0nat }
    }
}

/// The scores of the pairs with this key, added up.
pub open spec fn total_with(ps: Seq<(u32, u32)>, k: u32) -> nat
    decreases ps.len(),
{
    if ps.len() == 0 {
        0
    } else {
        total_with(ps.drop_last(), k) + if ps.last().0 == k { ps.last().1 as nat } else { 0nat }
    }
}

/// One group per key that occurs, in ascending order of key, each with its
/// number of games and its total score.
pub open spec fn is_grouping(ps: Seq<(u32, u32)>, r: Seq<ScoreGroup>) -> bool {
    &&& forall|i: int, j: int| 0 <= i < j < r.len() ==> #[trigger] r[i].key < #[trigger] r[j].key
    &&& forall|i: int|
        0 <= i < r.len() ==> #[trigger] r[i].games == games_with(ps, r[i].key) && r[i].games > 0 && r[i].total
            == total_with(ps, r[i].key)
    &&& forall|k: u32| games_with(ps, k) > 0 ==> exists|i: int| 0 <= i < r.len() && #[trigger] r[i].key == k
}

proof fn lemma_with_bounds(ps: Seq<(u32, u32)>, k: u32)
    ensures
        games_with(ps, k) <= ps.len(),
        total_with(ps, k) <= games_with(ps, k) * 0xffff_ffff,
    decreases ps.len(),
{
    if ps.len() > 0 {
        lemma_with_bounds(ps.drop_last(), k);
    }
}

/// Groups (key, score) pairs by key: the games and total score of each key
/// that occurs, ascending by key.
pub fn group_scores(ps: &Vec<(u32, u32)>) -> (r: Vec<ScoreGroup>)
    requires
        ps.len() <= u32::MAX,
    ensures
        is_grouping(ps@, r@),
{
    let mut r: Vec<ScoreGroup> = Vec::new();
    let mut n: usize = 0;
    while n < ps.len()
        invariant
            n <= ps.len(),
            ps.len() <= u32::MAX,
            is_grouping(ps@.take(n as int), r@),
        decreases ps.len() - n,
    {
        let ghost pre = ps@.take(n as int);
        let ghost post = ps@.take(n + 1);
        proof {
            assert(post.drop_last() =~= pre);
        }
        let (key, score) = ps[n];
        // Where the key belongs among the groups so far.
        let mut j: usize = 0;
        while j < r.len() && r[j].key < key
            invariant
                j <= r.len(),
                forall|i: int| 0 <= i < j ==> #[trigger] r@[i].key < key,
            decreases r.len() - j,
        {
            j = j + 1;
        }
        let ghost old_r = r@;
        proof {
            lemma_with_bounds(pre, key);
            lemma_with_bounds(post, key);
            assert(games_with(post, key) <= n + 1);
        }
        if j < r.len() && r[j].key == key {
            let g = r[j];
            proof {
                assert(g.games == games_with(pre, key));
                assert(g.total == total_with(pre, key));
                assert(g.total <= (n as int) * 0xffff_ffff) by (nonlinear_arith)
                    requires g.total <= g.games * 0xffff_ffff, g.games <= n;
                assert((n as int) * 0xffff_ffff + 0xffff_ffff <= u64::MAX) by (nonlinear_arith)
                    requires n <= 0xffff_ffff;
            }
            r.set(j, ScoreGroup { key, games: g.games + 1, total: g.total + score as u64 });
            proof {
                assert forall|i: int| 0 <= i < r@.len() implies #[trigger] r@[i].games == games_with(post, r@[i].key)
                    && r@[i].games > 0 && r@[i].total == total_with(post, r@[i].key) by {
                    if i != j {
                        assert(r@[i] == old_r[i]);
                        assert(r@[i].key != key);
                    }
                }
                assert forall|k: u32| games_with(post, k) > 0 implies exists|i: int| 0 <= i < r@.len() && #[trigger] r@[i].key == k by {
                    if k != key {
                        assert(games_with(post, k) == games_with(pre, k));
                        let i = choose|i: int| 0 <= i < old_r.len() && #[trigger] old_r[i].key == k;
                        assert(i != j);
                        assert(r@[i] == old_r[i]);
                    } else {
                        assert(r@[j as int].key == k);
                    }
                }
                assert forall|a: int, b: int| 0 <= a < b < r@.len() implies #[trigger] r@[a].key < #[trigger] r@[b].key by {
                    assert(r@[a].key == old_r[a].key);
                    assert(r@[b].key == old_r[b].key);
                }
            }
        } else {
            proof {
                assert(games_with(pre, key) == 0) by {
                    if games_with(pre, key) > 0 {
                        let i = choose|i: int| 0 <= i < old_r.len() && #[trigger] old_r[i].key == key;
                        if i < j {
                        } else if i > j {
                            assert(old_r[j as int].key < old_r[i].key);
                        }
                    }
                }
                assert(total_with(pre, key) == 0) by {
                    lemma_with_bounds(pre, key);
                }
            }
            r.insert(j, ScoreGroup { key, games: 1, total: score as u64 });
            proof {
                assert forall|i: int| 0 <= i < r@.len() implies #[trigger] r@[i].games == games_with(post, r@[i].key)
                    && r@[i].games > 0 && r@[i].total == total_with(post, r@[i].key) by {
                    if i < j {
                        assert(r@[i] == old_r[i]);
                    } else if i > j {
                        assert(r@[i] == old_r[i - 1]);
                        if j < old_r.len() {
                            assert(old_r[j as int].key < old_r[i - 1].key || j == i - 1);
                        }
                    }
                }
                assert forall|k: u32| games_with(post, k) > 0 implies exists|i: int| 0 <= i < r@.len() && #[trigger] r@[i].key == k by {
                    if k != key {
                        assert(games_with(post, k) == games_with(pre, k));
                        let i = choose|i: int| 0 <= i < old_r.len() && #[trigger] old_r[i].key == k;
                        if i < j {
                            assert(r@[i].key == k);
                        } else {
                            assert(r@[i + 1].key == k);
                        }
                    } else {
                        assert(r@[j as int].key == k);
                    }
                }
                assert forall|a: int, b: int| 0 <= a < b < r@.len() implies #[trigger] r@[a].key < #[trigger] r@[b].key by {
                    let ka = if a < j { old_r[a].key } else if a == j { key } else { old_r[a - 1].key };
                    let kb = if b < j { old_r[b].key } else if b == j { key } else { old_r[b - 1].key };
                    assert(r@[a].key == ka);
                    assert(r@[b].key == kb);
                    if a < j && b > j {
                        assert(old_r[a].key < key);
                    }
                    if a == j && b > j && j < old_r.len() {
                        assert(key < old_r[j as int].key || old_r[j as int].key == key);
                        assert(old_r[j as int].key <= old_r[b - 1].key);
                    }
                }
            }
        }
        n = n + 1;
    }
    proof {
        assert(ps@.take(ps.len() as int) =~= ps@);
    }
    r
}

} // verus!
