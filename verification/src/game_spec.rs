use vstd::prelude::*;
use crate::cards::{RegionCard, SanctuaryCard};
use crate::game::ActionError;
use crate::scoring::{final_score, kept_faces, player_fits, tableau_faces, tally, Measure};

verus! {

// ─── The model of a game ─────────────────────────────────────────────────────

pub struct PlayerModel {
    pub seat: usize,
    pub name: Seq<char>,
    pub tableau: Seq<RegionCard>,
    pub sanctuaries: Seq<SanctuaryCard>,
    pub hand: Seq<RegionCard>,
    pub played: Option<RegionCard>,
}

pub struct ScoreModel {
    pub seat: usize,
    pub name: Seq<char>,
    pub total: u32,
    pub card_number_sum: u32,
}

pub enum PhaseModel {
    Waiting { needed: usize },
    Setup { hands: Map<usize, Seq<RegionCard>> },
    Choosing,
    Drafting {
        order: Seq<usize>,
        current: usize,
        waiting: Seq<usize>,
        pending: Map<usize, Seq<SanctuaryCard>>,
        drafted: bool,
    },
    Over { scores: Seq<ScoreModel> },
}

pub struct GameModel {
    pub phase: PhaseModel,
    pub round: u8,
    pub players: Seq<PlayerModel>,
    pub region_deck: Seq<RegionCard>,
    pub sanctuary_deck: Seq<SanctuaryCard>,
    pub market: Seq<RegionCard>,
    pub player_count: usize,
}

pub open spec fn new_player(seat: usize, name: Seq<char>) -> PlayerModel {
    PlayerModel {
        seat,
        name,
        tableau: Seq::empty(),
        sanctuaries: Seq::empty(),
        hand: Seq::empty(),
        played: None,
    }
}

// ─── Joining and leaving ─────────────────────────────────────────────────────

/// The seat of the first player with this name, if any.
pub open spec fn seat_named(ps: Seq<PlayerModel>, name: Seq<char>) -> Option<usize> {
    if exists|i: int| 0 <= i < ps.len() && ps[i].name == name {
        Some(choose|i: usize| 0 <= i < ps.len() && ps[i as int].name == name
            && forall|k: int| 0 <= k < i ==> ps[k].name != name)
    } else {
        None
    }
}

pub proof fn lemma_seat_named_found(ps: Seq<PlayerModel>, name: Seq<char>, i: int)
    requires
        0 <= i < ps.len(),
        i <= usize::MAX,
        ps[i].name == name,
        forall|k: int| 0 <= k < i ==> ps[k].name != name,
    ensures
        seat_named(ps, name) == Some(i as usize),
{
    let j = choose|j: usize| 0 <= j < ps.len() && ps[j as int].name == name
        && forall|k: int| 0 <= k < j ==> ps[k].name != name;
    assert(0 <= (i as usize) < ps.len() && ps[(i as usize) as int].name == name);
    if j < i {
    } else if j > i {
    }
}

pub proof fn lemma_seat_named_absent(ps: Seq<PlayerModel>, name: Seq<char>)
    requires
        forall|k: int| 0 <= k < ps.len() ==> ps[k].name != name,
    ensures
        seat_named(ps, name) is None,
{
}

/// Joining: a known name gets its seat back in any phase; a new name takes the
/// next seat while the room waits and has room.
pub open spec fn spec_join(g: GameModel, name: Seq<char>) -> (Result<usize, ActionError>, GameModel) {
    match seat_named(g.players, name) {
        Some(seat) => (Ok(seat), g),
        None => {
            if !(g.phase is Waiting) {
                (Err(ActionError::GameAlreadyStarted), g)
            } else if g.players.len() >= g.player_count {
                (Err(ActionError::RoomFull), g)
            } else {
                let seat = g.players.len() as usize;
                (Ok(seat), GameModel { players: g.players.push(new_player(seat, name)), ..g })
            }
        },
    }
}

pub open spec fn reseat(p: PlayerModel, seat: int) -> PlayerModel {
    PlayerModel { seat: seat as usize, ..p }
}

pub open spec fn reseat_all(ps: Seq<PlayerModel>) -> Seq<PlayerModel> {
    Seq::new(ps.len(), |k: int| reseat(ps[k], k))
}

/// Removing a player: the first one with the name leaves, and every player
/// takes the seat numbered by their new position.
pub open spec fn spec_remove_player(g: GameModel, name: Seq<char>) -> GameModel {
    match seat_named(g.players, name) {
        Some(pos) => GameModel { players: reseat_all(g.players.remove(pos as int)), ..g },
        None => g,
    }
}

// ─── Piles of cards ──────────────────────────────────────────────────────────

pub open spec fn min_int(a: int, b: int) -> int {
    if a <= b { a } else { b }
}

/// The `k` cards that `k` pops take off a pile, in the order they come off
/// (the last element of the vector is the top of the pile).
pub open spec fn top<T>(pile: Seq<T>, k: int) -> Seq<T> {
    Seq::new(k as nat, |i: int| pile[pile.len() - 1 - i])
}

/// What remains of a pile after `k` pops.
pub open spec fn rest<T>(pile: Seq<T>, k: int) -> Seq<T> {
    pile.take(pile.len() - k)
}

/// Every occurrence of `x` taken out.
pub open spec fn remove_all(xs: Seq<usize>, x: usize) -> Seq<usize>
    decreases xs.len(),
{
    if xs.len() == 0 {
        xs
    } else if xs.last() == x {
        remove_all(xs.drop_last(), x)
    } else {
        remove_all(xs.drop_last(), x).push(xs.last())
    }
}

pub proof fn lemma_remove_all_len(xs: Seq<usize>, x: usize)
    ensures
        remove_all(xs, x).len() <= xs.len(),
        xs.contains(x) ==> remove_all(xs, x).len() < xs.len(),
        forall|k: int| 0 <= k < remove_all(xs, x).len() ==> xs.contains(#[trigger] remove_all(xs, x)[k]),
        !remove_all(xs, x).contains(x),
    decreases xs.len(),
{
    if xs.len() > 0 {
        lemma_remove_all_len(xs.drop_last(), x);
        if xs.last() != x {
            let r = remove_all(xs.drop_last(), x);
            assert forall|k: int| 0 <= k < r.push(xs.last()).len() implies xs.contains(#[trigger] r.push(xs.last())[k]) by {
                if k < r.len() {
                    let w = choose|w: int| 0 <= w < xs.drop_last().len() && xs.drop_last()[w] == r[k];
                    assert(xs[w] == r[k]);
                } else {
                    assert(xs[xs.len() - 1] == xs.last());
                }
            }
            if xs.contains(x) {
                let w = choose|w: int| 0 <= w < xs.len() && xs[w] == x;
                assert(xs.drop_last()[w] == x);
            }
        } else {
            let r = remove_all(xs.drop_last(), x);
            assert forall|k: int| 0 <= k < r.len() implies xs.contains(#[trigger] r[k]) by {
                let w = choose|w: int| 0 <= w < xs.drop_last().len() && xs.drop_last()[w] == r[k];
                assert(xs[w] == r[k]);
            }
        }
    }
}

// ─── Players ─────────────────────────────────────────────────────────────────

/// The card played this round joins the tableau.
pub open spec fn commit(p: PlayerModel) -> PlayerModel {
    match p.played {
        Some(c) => PlayerModel { tableau: p.tableau.push(c), played: None, ..p },
        None => p,
    }
}

/// A player finds sanctuaries when the card just played has a higher number
/// than the card played before it.
pub open spec fn eligible(p: PlayerModel) -> bool {
    &&& p.tableau.len() >= 2
    &&& p.tableau[p.tableau.len() - 1].number > p.tableau[p.tableau.len() - 2].number
}

/// The number of the card just played (0 before the first one).
pub open spec fn played_number(p: PlayerModel) -> u8 {
    if p.tableau.len() > 0 {
        p.tableau.last().number
    } else {
        0
    }
}

pub open spec fn clue_count(p: PlayerModel) -> nat {
    tally(tableau_faces(p.tableau), Measure::Clue) + tally(kept_faces(p.sanctuaries), Measure::Clue)
}

/// Sanctuaries a player draws: one plus every clue among their regions and sanctuaries.
pub open spec fn draw_count(p: PlayerModel) -> nat {
    1 + clue_count(p)
}

pub open spec fn all_played(ps: Seq<PlayerModel>) -> bool {
    forall|i: int| 0 <= i < ps.len() ==> #[trigger] ps[i].played is Some
}

pub open spec fn seats_ok(ps: Seq<PlayerModel>) -> bool {
    forall|i: int| 0 <= i < ps.len() ==> #[trigger] ps[i].seat == i
}

pub open spec fn all_below(xs: Seq<usize>, n: int) -> bool {
    forall|k: int| 0 <= k < xs.len() ==> #[trigger] xs[k] < n
}

// ─── Draft order ─────────────────────────────────────────────────────────────

/// Where a (seat, number) pair goes in a list sorted by number: after every
/// pair with a number not above it (the sort is stable).
pub open spec fn pair_pos(o: Seq<(usize, u8)>, x: (usize, u8)) -> int
    decreases o.len(),
{
    if o.len() == 0 {
        0
    } else if o.last().1 > x.1 {
        pair_pos(o.drop_last(), x)
    } else {
        o.len() as int
    }
}

pub open spec fn sort_pairs(ps: Seq<(usize, u8)>) -> Seq<(usize, u8)>
    decreases ps.len(),
{
    if ps.len() == 0 {
        ps
    } else {
        let o = sort_pairs(ps.drop_last());
        o.insert(pair_pos(o, ps.last()), ps.last())
    }
}

pub open spec fn seat_keys(ps: Seq<PlayerModel>) -> Seq<(usize, u8)> {
    ps.map_values(|p: PlayerModel| (p.seat, played_number(p)))
}

/// Seats in ascending order of the number just played (ties keep seat order).
pub open spec fn draft_order(ps: Seq<PlayerModel>) -> Seq<usize> {
    sort_pairs(seat_keys(ps)).map_values(|x: (usize, u8)| x.0)
}

pub open spec fn is_eligible_seat(ps: Seq<PlayerModel>, s: usize) -> bool {
    exists|i: int| 0 <= i < ps.len() && ps[i].seat == s && eligible(ps[i])
}

/// The seats of `order` that qualify for sanctuaries, in draft order.
pub open spec fn keep_eligible(order: Seq<usize>, ps: Seq<PlayerModel>) -> Seq<usize>
    decreases order.len(),
{
    if order.len() == 0 {
        order
    } else if is_eligible_seat(ps, order.last()) {
        keep_eligible(order.drop_last(), ps).push(order.last())
    } else {
        keep_eligible(order.drop_last(), ps)
    }
}

pub proof fn lemma_pair_pos_range(o: Seq<(usize, u8)>, x: (usize, u8))
    ensures
        0 <= pair_pos(o, x) <= o.len(),
    decreases o.len(),
{
    if o.len() > 0 {
        lemma_pair_pos_range(o.drop_last(), x);
    }
}

/// Sorting keeps the length and only moves the pairs around.
pub proof fn lemma_sort_pairs_elements(xs: Seq<(usize, u8)>)
    ensures
        sort_pairs(xs).len() == xs.len(),
        forall|k: int| 0 <= k < xs.len() ==> xs.contains(#[trigger] sort_pairs(xs)[k]),
    decreases xs.len(),
{
    if xs.len() > 0 {
        let o = sort_pairs(xs.drop_last());
        lemma_sort_pairs_elements(xs.drop_last());
        lemma_pair_pos_range(o, xs.last());
        let p = pair_pos(o, xs.last());
        assert forall|k: int| 0 <= k < xs.len() implies xs.contains(#[trigger] sort_pairs(xs)[k]) by {
            if k < p {
                assert(sort_pairs(xs)[k] == o[k]);
                let w = choose|w: int| 0 <= w < xs.drop_last().len() && xs.drop_last()[w] == o[k];
                assert(xs[w] == o[k]);
            } else if k == p {
                assert(xs[xs.len() - 1] == xs.last());
            } else {
                assert(sort_pairs(xs)[k] == o[k - 1]);
                let w = choose|w: int| 0 <= w < xs.drop_last().len() && xs.drop_last()[w] == o[k - 1];
                assert(xs[w] == o[k - 1]);
            }
        }
    }
}

/// The draft order lists one seat per player, each a seat at the table.
pub proof fn lemma_draft_order_seats(ps: Seq<PlayerModel>)
    requires
        seats_ok(ps),
    ensures
        draft_order(ps).len() == ps.len(),
        all_below(draft_order(ps), ps.len() as int),
{
    let xs = seat_keys(ps);
    lemma_sort_pairs_elements(xs);
    assert forall|k: int| 0 <= k < draft_order(ps).len() implies #[trigger] draft_order(ps)[k] < ps.len() by {
        let w = choose|w: int| 0 <= w < xs.len() && xs[w] == sort_pairs(xs)[k];
        assert(xs[w].0 == ps[w].seat);
    }
}

/// The qualifying seats are taken from the order, which keeps them at the table.
pub proof fn lemma_keep_eligible_below(order: Seq<usize>, ps: Seq<PlayerModel>, n: int)
    requires
        all_below(order, n),
    ensures
        all_below(keep_eligible(order, ps), n),
        keep_eligible(order, ps).len() <= order.len(),
    decreases order.len(),
{
    if order.len() > 0 {
        lemma_keep_eligible_below(order.drop_last(), ps, n);
    }
}

// ─── Well-formed games ───────────────────────────────────────────────────────

impl GameModel {
    /// Every seat number is the player's index, the round is at most 8, and
    /// while drafting the order, the waiting list and the pending choices only
    /// name seats at the table (the current drafter is one of them), and no
    /// seat waiting to be dealt already holds a draw.
    pub open spec fn wf(self) -> bool {
        &&& seats_ok(self.players)
        &&& self.round <= 8
        &&& self.phase matches PhaseModel::Drafting { order, current, waiting, pending, .. } ==> {
            &&& current < order.len()
            &&& all_below(order, self.players.len() as int)
            &&& all_below(waiting, self.players.len() as int)
            &&& forall|k: usize| #[trigger] pending.contains_key(k) ==> k < self.players.len()
            &&& forall|k: int| 0 <= k < waiting.len() ==> !pending.contains_key(#[trigger] waiting[k])
        }
    }
}

// ─── Steps of a round ────────────────────────────────────────────────────────

pub open spec fn with_phase(g: GameModel, phase: PhaseModel) -> GameModel {
    GameModel { phase, ..g }
}

/// The sanctuaries a seat draws: `draw_count` cards off the deck, or what is left.
pub open spec fn drawn(g: GameModel, seat: usize) -> Seq<SanctuaryCard> {
    top(g.sanctuary_deck, min_int(draw_count(g.players[seat as int]) as int, g.sanctuary_deck.len() as int))
}

pub open spec fn after_draw(g: GameModel, seat: usize) -> GameModel {
    GameModel {
        sanctuary_deck: rest(
            g.sanctuary_deck,
            min_int(draw_count(g.players[seat as int]) as int, g.sanctuary_deck.len() as int),
        ),
        ..g
    }
}

pub open spec fn give_sanctuary(g: GameModel, seat: usize, c: SanctuaryCard) -> GameModel {
    let p = g.players[seat as int];
    GameModel {
        players: g.players.update(seat as int, PlayerModel { sanctuaries: p.sanctuaries.push(c), ..p }),
        ..g
    }
}

pub open spec fn waiting_len(g: GameModel) -> nat {
    match g.phase {
        PhaseModel::Drafting { waiting, .. } => waiting.len(),
        _ => 0,
    }
}

/// Dealing sanctuaries to the waiting seats, first in draft order first: a
/// full draw when the deck holds enough, or whatever is left for the current
/// drafter; a draw of one card is kept at once, more become a pending choice.
/// Dealing stops at a seat that must wait for discards, and the waiting list
/// is dropped when the deck is empty and no discard can come.
pub open spec fn deal(g: GameModel) -> GameModel
    decreases waiting_len(g),
{
    match g.phase {
        PhaseModel::Drafting { order, current, waiting, pending, drafted } => {
            if waiting.len() == 0 {
                g
            } else {
                let seat = waiting[0];
                let count = draw_count(g.players[seat as int]);
                let is_current = order[current as int] == seat;
                let deck_size = g.sanctuary_deck.len();
                let waiting2 = remove_all(waiting, seat);
                proof {
                    lemma_remove_all_len(waiting, seat);
                    assert(waiting.contains(seat)) by {
                        assert(waiting[0] == seat);
                    }
                }
                if deck_size == 0 && pending.is_empty() {
                    with_phase(g, PhaseModel::Drafting { order, current, waiting: Seq::empty(), pending, drafted })
                } else if deck_size == 0 {
                    g
                } else if deck_size < count && !is_current {
                    g
                } else {
                    let choices = drawn(g, seat);
                    let g2 = after_draw(g, seat);
                    let g3 = if choices.len() == 1 {
                        with_phase(
                            give_sanctuary(g2, seat, choices[0]),
                            PhaseModel::Drafting { order, current, waiting: waiting2, pending, drafted },
                        )
                    } else {
                        with_phase(
                            g2,
                            PhaseModel::Drafting {
                                order,
                                current,
                                waiting: waiting2,
                                pending: pending.insert(seat, choices),
                                drafted,
                            },
                        )
                    };
                    deal(g3)
                }
            }
        },
        _ => g,
    }
}

pub open spec fn number_sum(t: Seq<RegionCard>) -> nat
    decreases t.len(),
{
    if t.len() == 0 {
        0
    } else {
        number_sum(t.drop_last()) + t.last().number as nat
    }
}

pub proof fn lemma_number_sum_prefix(t: Seq<RegionCard>, n: int)
    requires
        0 <= n <= t.len(),
    ensures
        number_sum(t.take(n)) <= number_sum(t),
    decreases t.len() - n,
{
    if n < t.len() {
        lemma_number_sum_prefix(t, n + 1);
        assert(t.take(n + 1).drop_last() =~= t.take(n));
    } else {
        assert(t.take(n) =~= t);
    }
}

pub open spec fn score_of(p: PlayerModel) -> ScoreModel {
    ScoreModel {
        seat: p.seat,
        name: p.name,
        total: final_score(p.tableau, p.sanctuaries) as u32,
        card_number_sum: number_sum(p.tableau) as u32,
    }
}

/// Every player's final score (and tiebreaker sum) can be computed within 32 bits.
pub open spec fn can_score(ps: Seq<PlayerModel>) -> bool {
    forall|i: int|
        0 <= i < ps.len() ==> {
            &&& player_fits(#[trigger] ps[i].tableau, ps[i].sanctuaries)
            &&& final_score(ps[i].tableau, ps[i].sanctuaries) <= u32::MAX
            &&& number_sum(ps[i].tableau) <= u32::MAX
        }
}

/// The game ends: every player's fame and tiebreaker sum is recorded.
pub open spec fn finalize(g: GameModel) -> GameModel {
    with_phase(g, PhaseModel::Over { scores: g.players.map_values(|p: PlayerModel| score_of(p)) })
}

/// The end of a round: the leftover market card is discarded; after round 8
/// the game is scored, otherwise the next round starts with a market of
/// player count + 1 cards (or what the deck still holds).
pub open spec fn end_round(g: GameModel) -> GameModel {
    if g.round == 8 {
        finalize(GameModel { market: Seq::empty(), ..g })
    } else {
        let k = min_int(g.players.len() + 1int, g.region_deck.len() as int);
        GameModel {
            round: (g.round + 1) as u8,
            market: top(g.region_deck, k),
            region_deck: rest(g.region_deck, k),
            phase: PhaseModel::Choosing,
            ..g
        }
    }
}

pub open spec fn skip_measure(g: GameModel) -> int {
    match g.phase {
        PhaseModel::Drafting { order, current, .. } => order.len() - current,
        _ => 0,
    }
}

/// On round 8 (nothing to draft) the turn passes over every drafter with no
/// sanctuary to choose or to wait for; past the last one the game ends.
pub open spec fn skip_idle(g: GameModel) -> GameModel
    decreases skip_measure(g),
{
    match g.phase {
        PhaseModel::Drafting { order, current, waiting, pending, drafted } => {
            if current >= order.len() || current >= usize::MAX {
                g
            } else {
                let seat = order[current as int];
                if pending.contains_key(seat) || waiting.contains(seat) {
                    g
                } else if current + 1 >= order.len() {
                    end_round(g)
                } else {
                    skip_idle(with_phase(g, PhaseModel::Drafting { order, current: (current + 1) as usize, waiting, pending, drafted }))
                }
            }
        },
        _ => g,
    }
}

/// The turn passes to the next drafter (or the round ends after the last one).
pub open spec fn advance_drafter(g: GameModel) -> GameModel {
    match g.phase {
        PhaseModel::Drafting { order, current, waiting, pending, drafted } => {
            if current + 1 >= order.len() {
                end_round(g)
            } else {
                let g1 = with_phase(
                    g,
                    PhaseModel::Drafting { order, current: (current + 1) as usize, waiting, pending, drafted: g.round == 8 },
                );
                let g2 = deal(g1);
                if g.round == 8 {
                    skip_idle(g2)
                } else {
                    g2
                }
            }
        },
        _ => g,
    }
}

/// After a sanctuary choice, the turn passes only once the current drafter has
/// drafted and has no sanctuary left to choose.
pub open spec fn try_advance_drafter(g: GameModel) -> GameModel {
    match g.phase {
        PhaseModel::Drafting { order, current, pending, drafted, .. } => {
            if current < order.len() && drafted && !pending.contains_key(order[current as int]) {
                advance_drafter(g)
            } else {
                g
            }
        },
        _ => g,
    }
}

/// Everyone has played: the cards are revealed into the tableaux, the draft
/// order is fixed, and sanctuaries are dealt to the qualifying players. On
/// round 8 there is no market: the game ends at once when nobody qualifies.
pub open spec fn after_reveal(g: GameModel) -> GameModel {
    let ps = g.players.map_values(|p: PlayerModel| commit(p));
    let order = draft_order(ps);
    let waiting = keep_eligible(order, ps);
    if g.round == 8 {
        let g1 = GameModel { players: ps, market: Seq::empty(), ..g };
        if waiting.len() == 0 {
            finalize(g1)
        } else {
            skip_idle(deal(with_phase(
                g1,
                PhaseModel::Drafting { order, current: 0, waiting, pending: Map::empty(), drafted: true },
            )))
        }
    } else {
        deal(GameModel {
            players: ps,
            phase: PhaseModel::Drafting { order, current: 0, waiting, pending: Map::empty(), drafted: false },
            ..g
        })
    }
}

// ─── Player actions ──────────────────────────────────────────────────────────

/// Playing a card: only while choosing, once per round, from the hand; when the
/// last player has played, every card is revealed.
pub open spec fn spec_play_card(g: GameModel, seat: usize, idx: usize) -> (Result<(), ActionError>, GameModel) {
    if !(g.phase is Choosing) {
        (Err(ActionError::WrongPhase), g)
    } else if seat >= g.players.len() {
        (Err(ActionError::InvalidSeat), g)
    } else if g.players[seat as int].played is Some {
        (Err(ActionError::AlreadyPlayedThisRound), g)
    } else if idx >= g.players[seat as int].hand.len() {
        (Err(ActionError::InvalidCardIndex), g)
    } else {
        let p = g.players[seat as int];
        let p2 = PlayerModel { hand: p.hand.remove(idx as int), played: Some(p.hand[idx as int]), ..p };
        let g1 = GameModel { players: g.players.update(seat as int, p2), ..g };
        if all_played(g1.players) {
            (Ok(()), after_reveal(g1))
        } else {
            (Ok(()), g1)
        }
    }
}

/// The unchosen cards of a draw, each put at the bottom of the deck in turn.
pub open spec fn returned_to_bottom(deck: Seq<SanctuaryCard>, choices: Seq<SanctuaryCard>, k: int) -> Seq<SanctuaryCard> {
    choices.remove(k).reverse() + deck
}

/// Choosing a sanctuary: any player with a pending draw may choose during the
/// drafting phase; the others of the draw go to the bottom of the deck, which
/// may let waiting players be dealt, and the turn passes if the current
/// drafter is done.
pub open spec fn spec_choose_sanctuary(g: GameModel, seat: usize, k: usize) -> (Result<(), ActionError>, GameModel) {
    match g.phase {
        PhaseModel::Drafting { order, current, waiting, pending, drafted } => {
            if !pending.contains_key(seat) {
                (Err(ActionError::NotYourTurn), g)
            } else if k >= pending[seat].len() {
                (Err(ActionError::InvalidCardIndex), g)
            } else {
                let choices = pending[seat];
                let g1 = with_phase(g, PhaseModel::Drafting { order, current, waiting, pending: pending.remove(seat), drafted });
                if seat >= g.players.len() {
                    (Err(ActionError::InvalidSeat), g)
                } else {
                    let g2 = GameModel {
                        sanctuary_deck: returned_to_bottom(g.sanctuary_deck, choices, k as int),
                        ..give_sanctuary(g1, seat, choices[k as int])
                    };
                    (Ok(()), try_advance_drafter(deal(g2)))
                }
            }
        },
        _ => (Err(ActionError::WrongPhase), g),
    }
}

/// Drafting a market card: only the current drafter, once; a drafter with a
/// sanctuary still to choose keeps the turn, otherwise it passes.
pub open spec fn spec_draft_card(g: GameModel, seat: usize, m: usize) -> (Result<(), ActionError>, GameModel) {
    match g.phase {
        PhaseModel::Drafting { order, current, waiting, pending, drafted } => {
            if order[current as int] != seat {
                (Err(ActionError::NotYourTurn), g)
            } else if drafted {
                (Err(ActionError::WrongPhase), g)
            } else if m >= g.market.len() {
                (Err(ActionError::InvalidCardIndex), g)
            } else {
                let card = g.market[m as int];
                let g1 = GameModel { market: g.market.remove(m as int), ..g };
                if seat >= g.players.len() {
                    (Err(ActionError::InvalidSeat), g)
                } else {
                    let p = g.players[seat as int];
                    let g2 = GameModel {
                        players: g.players.update(seat as int, PlayerModel { hand: p.hand.push(card), ..p }),
                        ..g1
                    };
                    if pending.contains_key(seat) {
                        (Ok(()), with_phase(g2, PhaseModel::Drafting { order, current, waiting, pending, drafted: true }))
                    } else {
                        (Ok(()), advance_drafter(g2))
                    }
                }
            }
        },
        _ => (Err(ActionError::WrongPhase), g),
    }
}

/// When a step ends the game, the final scores fit the integer widths used.
pub open spec fn ends_ok(before: GameModel, after: GameModel) -> bool {
    (after.phase is Over && !(before.phase is Over)) ==> can_score(after.players)
}

/// Dealing leaves a drafting phase drafting, with the same order and turn,
/// and never changes who sits where.
pub proof fn lemma_deal_keeps_drafting(g: GameModel)
    requires
        g.phase is Drafting ==> all_below(g.phase->waiting, g.players.len() as int),
    ensures
        deal(g).players.len() == g.players.len(),
        forall|i: int| 0 <= i < g.players.len() ==> #[trigger] deal(g).players[i].seat == g.players[i].seat,
        forall|i: int| 0 <= i < g.players.len() ==> #[trigger] deal(g).players[i].name == g.players[i].name,
        g.phase is Drafting ==> deal(g).phase is Drafting,
        g.phase is Drafting ==> deal(g).phase->order == g.phase->order,
        g.phase is Drafting ==> deal(g).phase->current == g.phase->current,
        g.phase is Drafting ==> deal(g).phase->drafted == g.phase->drafted,
        !(g.phase is Drafting) ==> deal(g) == g,
        deal(g).round == g.round,
        deal(g).market == g.market,
        deal(g).region_deck == g.region_deck,
        g.wf() ==> deal(g).wf(),
    decreases waiting_len(g),
{
    match g.phase {
        PhaseModel::Drafting { order, current, waiting, pending, drafted } => {
            if waiting.len() > 0 {
                let seat = waiting[0];
                lemma_remove_all_len(waiting, seat);
                assert(waiting.contains(seat)) by {
                    assert(waiting[0] == seat);
                }
                let count = draw_count(g.players[seat as int]);
                let is_current = order[current as int] == seat;
                let deck_size = g.sanctuary_deck.len();
                if !(deck_size == 0) && !(deck_size < count && !is_current) {
                    let choices = drawn(g, seat);
                    let g2 = after_draw(g, seat);
                    let waiting2 = remove_all(waiting, seat);
                    let g3 = if choices.len() == 1 {
                        with_phase(
                            give_sanctuary(g2, seat, choices[0]),
                            PhaseModel::Drafting { order, current, waiting: waiting2, pending, drafted },
                        )
                    } else {
                        with_phase(
                            g2,
                            PhaseModel::Drafting { order, current, waiting: waiting2, pending: pending.insert(seat, choices), drafted },
                        )
                    };
                    assert forall|k: int| 0 <= k < waiting2.len() implies #[trigger] waiting2[k] < g.players.len() by {
                        assert(waiting.contains(waiting2[k]));
                    }
                    lemma_deal_keeps_drafting(g3);
                }
            }
        },
        _ => {},
    }
}


// ─── Starting a game ─────────────────────────────────────────────────────────

/// Why a request to start the game is refused before anything is dealt.
pub open spec fn start_refusal(g: GameModel, seat: usize) -> Option<ActionError> {
    if seat != 0 {
        Some(ActionError::NotYourTurn)
    } else if !(g.phase is Waiting) {
        Some(ActionError::GameAlreadyStarted)
    } else if g.players.len() == 0 {
        Some(ActionError::NotEnoughPlayers)
    } else {
        None
    }
}

/// Three cards off the top of the deck into each player's hand, in seat order.
pub open spec fn dealt_hands(ps: Seq<PlayerModel>, deck: Seq<RegionCard>) -> Seq<PlayerModel> {
    Seq::new(ps.len(), |i: int| PlayerModel { hand: ps[i].hand + top(rest(deck, 3 * i), 3), ..ps[i] })
}

/// The five cards dealt to each seat in the advanced variant.
pub open spec fn setup_hands(n: int, deck: Seq<RegionCard>) -> Map<usize, Seq<RegionCard>> {
    Map::new(|s: usize| s < n, |s: usize| top(rest(deck, 5 * s), 5))
}

/// Revealing the first market (player count + 1 cards) and opening round 1;
/// when the deck cannot fill the market nothing changes and the deal is refused.
pub open spec fn spec_round_1(g: GameModel) -> (Result<(), ActionError>, GameModel) {
    let deck = g.region_deck;
    let k = g.player_count + 1int;
    if deck.len() < k {
        (Err(ActionError::DeckEmpty), g)
    } else {
        (Ok(()), GameModel {
            market: g.market + top(deck, k),
            region_deck: rest(deck, k),
            round: 1,
            phase: PhaseModel::Choosing,
            ..g
        })
    }
}

/// Dealing the opening cards from the decks `rd` and `sd`: five per player to
/// choose from in the advanced variant, otherwise three per player and the
/// market. When the region deck cannot cover the whole deal, nothing changes
/// and the deal is refused.
pub open spec fn spec_deal_start(g: GameModel, rd: Seq<RegionCard>, sd: Seq<SanctuaryCard>, advanced: bool) -> (
    Result<(), ActionError>,
    GameModel,
) {
    let n = g.players.len() as int;
    let g0 = GameModel { player_count: n as usize, region_deck: rd, sanctuary_deck: sd, ..g };
    if advanced {
        if rd.len() < 5 * n {
            (Err(ActionError::DeckEmpty), g)
        } else {
            (Ok(()), GameModel { region_deck: rest(rd, 5 * n), phase: PhaseModel::Setup { hands: setup_hands(n, rd) }, ..g0 })
        }
    } else {
        if rd.len() < 4 * n + 1 {
            (Err(ActionError::DeckEmpty), g)
        } else {
            spec_round_1(GameModel { players: dealt_hands(g.players, rd), region_deck: rest(rd, 3 * n), ..g0 })
        }
    }
}

// ─── Keeping three of five ───────────────────────────────────────────────────

/// Three distinct positions among `len` cards.
pub open spec fn indices_ok(ix: Seq<usize>, len: int) -> bool {
    &&& ix[0] < len && ix[1] < len && ix[2] < len
    &&& ix[0] != ix[1] && ix[0] != ix[2] && ix[1] != ix[2]
}

/// The dealt cards at the three positions, in the order the positions were given.
pub open spec fn kept_cards(dealt: Seq<RegionCard>, ix: Seq<usize>) -> Seq<RegionCard> {
    seq![dealt[ix[0] as int], dealt[ix[1] as int], dealt[ix[2] as int]]
}

/// The dealt cards at the other positions, in their dealt order.
pub open spec fn discarded_cards(dealt: Seq<RegionCard>, ix: Seq<usize>) -> Seq<RegionCard>
    decreases dealt.len(),
{
    if dealt.len() == 0 {
        dealt
    } else {
        let i = dealt.len() - 1;
        let before = discarded_cards(dealt.drop_last(), ix);
        if ix.contains(i as usize) {
            before
        } else {
            before.push(dealt.last())
        }
    }
}

/// What a seat discards when keeping the cards at `ix` (nothing when it has no
/// cards waiting for a choice).
pub open spec fn setup_discards(g: GameModel, seat: usize, ix: Seq<usize>) -> Seq<RegionCard> {
    match g.phase {
        PhaseModel::Setup { hands } => {
            if hands.contains_key(seat) && indices_ok(ix, hands[seat].len() as int) {
                discarded_cards(hands[seat], ix)
            } else {
                Seq::empty()
            }
        },
        _ => Seq::empty(),
    }
}

/// Keeping three of the five dealt cards: the others go back into the deck,
/// which is shuffled (into `deck`); when the last seat has chosen, the market is
/// revealed and round 1 starts, or, when the deck cannot fill it, nothing
/// changes and the choice is refused.
pub open spec fn spec_keep_cards(g: GameModel, seat: usize, ix: Seq<usize>, deck: Seq<RegionCard>) -> (
    Result<(), ActionError>,
    GameModel,
) {
    match g.phase {
        PhaseModel::Setup { hands } => {
            if !hands.contains_key(seat) {
                (Err(ActionError::NotYourTurn), g)
            } else if !indices_ok(ix, hands[seat].len() as int) {
                (Err(ActionError::InvalidCardIndex), g)
            } else {
                let g1 = with_phase(g, PhaseModel::Setup { hands: hands.remove(seat) });
                if seat >= g.players.len() {
                    (Err(ActionError::InvalidSeat), g)
                } else {
                    let p = g.players[seat as int];
                    let g2 = GameModel {
                        players: g.players.update(seat as int, PlayerModel { hand: kept_cards(hands[seat], ix), ..p }),
                        region_deck: deck,
                        ..g1
                    };
                    if !hands.remove(seat).is_empty() {
                        (Ok(()), g2)
                    } else if deck.len() < g.player_count + 1 {
                        (Err(ActionError::DeckEmpty), g)
                    } else {
                        spec_round_1(g2)
                    }
                }
            }
        },
        _ => (Err(ActionError::WrongPhase), g),
    }
}


// ─── The demo game ───────────────────────────────────────────────────────────

pub proof fn lemma_number_sum_bound(t: Seq<RegionCard>)
    ensures
        number_sum(t) <= 255 * t.len(),
    decreases t.len(),
{
    if t.len() > 0 {
        lemma_number_sum_bound(t.drop_last());
    }
}

pub open spec fn demo_player(seat: usize, name: Seq<char>, t: Seq<RegionCard>, s: Seq<SanctuaryCard>) -> PlayerModel {
    PlayerModel { tableau: t, sanctuaries: s, ..new_player(seat, name) }
}

/// The finished two-player demo: Alice holds the first 8 regions and 2
/// sanctuaries of the decks, Bob the next ones.
pub open spec fn demo_game(rd: Seq<RegionCard>, sd: Seq<SanctuaryCard>) -> GameModel {
    finalize(GameModel {
        phase: PhaseModel::Waiting { needed: 2 },
        round: 8,
        players: seq![
            demo_player(0, "Alice"@, rd.subrange(0, 8), sd.subrange(0, 2)),
            demo_player(1, "Bob"@, rd.subrange(8, 16), sd.subrange(2, 4)),
        ],
        region_deck: Seq::empty(),
        sanctuary_deck: Seq::empty(),
        market: Seq::empty(),
        player_count: 2,
    })
}

} // verus!
