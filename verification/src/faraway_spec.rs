use vstd::prelude::*;
use crate::cards::{RegionCard, SanctuaryCard};
use crate::game::ActionError;
use crate::game_spec::{
    all_below, all_played, commit, dealt_hands, draft_order, draw_count, eligible, min_int, new_player, number_sum,
    rest, returned_to_bottom, seat_named, seats_ok, top, PlayerModel, ScoreModel,
};
use crate::scoring::{final_score, player_fits};

verus! {

// ─── The model of a classic game ─────────────────────────────────────────────

/// The phases of the classic game: after the reveal, every qualifying player
/// chooses a sanctuary at once, and only then does the draft start.
pub enum FarawayPhase {
    Waiting { needed: usize },
    Choosing,
    Revealing,
    Choice { pending: Map<usize, Seq<SanctuaryCard>> },
    Drafting { order: Seq<usize>, current: usize },
    Over { scores: Seq<ScoreModel> },
}

pub struct FarawayModel {
    pub phase: FarawayPhase,
    pub round: u8,
    pub players: Seq<PlayerModel>,
    pub region_deck: Seq<RegionCard>,
    pub sanctuary_deck: Seq<SanctuaryCard>,
    pub market: Seq<RegionCard>,
    pub player_count: usize,
}

impl FarawayModel {
    /// Seats are numbered by position, the round is at most 8, and while
    /// drafting the turn points into an order of seats at the table.
    pub open spec fn wf(self) -> bool {
        &&& seats_ok(self.players)
        &&& self.round <= 8
        &&& self.phase matches FarawayPhase::Drafting { order, current } ==> {
            &&& current < order.len()
            &&& all_below(order, self.players.len() as int)
        }
    }
}

pub open spec fn with_phase_f(g: FarawayModel, phase: FarawayPhase) -> FarawayModel {
    FarawayModel { phase, ..g }
}

// ─── Joining and starting ────────────────────────────────────────────────────

/// Joining: only while the room waits; a known name gets its seat back, a new
/// name takes the next seat while there is room.
pub open spec fn spec_join_f(g: FarawayModel, name: Seq<char>) -> (Result<usize, ActionError>, FarawayModel) {
    if !(g.phase is Waiting) {
        (Err(ActionError::GameAlreadyStarted), g)
    } else {
        match seat_named(g.players, name) {
            Some(seat) => (Ok(seat), g),
            None => {
                if g.players.len() >= g.player_count {
                    (Err(ActionError::RoomFull), g)
                } else {
                    let seat = g.players.len() as usize;
                    (Ok(seat), FarawayModel { players: g.players.push(new_player(seat, name)), ..g })
                }
            },
        }
    }
}

/// Starting: only seat 0, only while waiting, with at least two players; three
/// cards to each player, then a market of player count + 1 cards. A deck too
/// small for the whole deal leaves the room as it was.
pub open spec fn spec_start_f(g: FarawayModel, seat: usize) -> (Result<(), ActionError>, FarawayModel) {
    if seat != 0 {
        (Err(ActionError::NotYourTurn), g)
    } else if !(g.phase is Waiting) {
        (Err(ActionError::GameAlreadyStarted), g)
    } else if g.players.len() < 2 {
        (Err(ActionError::NotEnoughPlayers), g)
    } else {
        let n = g.players.len() as int;
        let deck = g.region_deck;
        if deck.len() < 4 * n + 1 {
            (Err(ActionError::DeckEmpty), g)
        } else {
            let d1 = rest(deck, 3 * n);
            (Ok(()), FarawayModel {
                player_count: n as usize,
                players: dealt_hands(g.players, deck),
                market: g.market + top(d1, n + 1),
                region_deck: rest(d1, n + 1),
                round: 1,
                phase: FarawayPhase::Choosing,
                ..g
            })
        }
    }
}

// ─── Scores ──────────────────────────────────────────────────────────────────

/// The tiebreaker is the sum of the numbers of the regions explored.
pub open spec fn tiebreak_f(p: PlayerModel) -> nat {
    number_sum(p.tableau)
}

pub open spec fn score_of_f(p: PlayerModel) -> ScoreModel {
    ScoreModel {
        seat: p.seat,
        name: p.name,
        total: final_score(p.tableau, p.sanctuaries) as u32,
        card_number_sum: tiebreak_f(p) as u32,
    }
}

/// Every player's score and tiebreaker can be computed within 32 bits.
pub open spec fn can_score_f(ps: Seq<PlayerModel>) -> bool {
    forall|i: int|
        0 <= i < ps.len() ==> {
            &&& player_fits(#[trigger] ps[i].tableau, ps[i].sanctuaries)
            &&& final_score(ps[i].tableau, ps[i].sanctuaries) <= u32::MAX
            &&& tiebreak_f(ps[i]) <= u32::MAX
        }
}

pub open spec fn finalize_f(g: FarawayModel) -> FarawayModel {
    with_phase_f(g, FarawayPhase::Over { scores: g.players.map_values(|p: PlayerModel| score_of_f(p)) })
}

/// When a step ends the game, the final scores fit the integer widths used.
pub open spec fn ends_ok_f(before: FarawayModel, after: FarawayModel) -> bool {
    (after.phase is Over && !(before.phase is Over)) ==> can_score_f(after.players)
}

// ─── A round ─────────────────────────────────────────────────────────────────

/// The end of a round: the leftover market card is discarded; after round 8
/// the game is scored, otherwise the market is refilled with player count + 1
/// cards (or what the deck still holds) and the next round starts.
pub open spec fn end_round_f(g: FarawayModel) -> FarawayModel {
    if g.round == 8 {
        finalize_f(FarawayModel { market: Seq::empty(), ..g })
    } else {
        let k = min_int(g.players.len() + 1int, g.region_deck.len() as int);
        FarawayModel {
            round: (g.round + 1) as u8,
            market: top(g.region_deck, k),
            region_deck: rest(g.region_deck, k),
            phase: FarawayPhase::Choosing,
            ..g
        }
    }
}

/// The draft starts in ascending order of the numbers just played; after
/// round 8 there is no draft and the game is scored.
pub open spec fn begin_drafting_f(g: FarawayModel) -> FarawayModel {
    if g.round == 8 {
        finalize_f(FarawayModel { market: Seq::empty(), ..g })
    } else {
        with_phase_f(g, FarawayPhase::Drafting { order: draft_order(g.players), current: 0 })
    }
}

/// The seats that qualify for sanctuaries, in seat order.
pub open spec fn eligible_list(ps: Seq<PlayerModel>) -> Seq<usize>
    decreases ps.len(),
{
    if ps.len() == 0 {
        Seq::empty()
    } else {
        let r = eligible_list(ps.drop_last());
        if eligible(ps.last()) {
            r.push(ps.last().seat)
        } else {
            r
        }
    }
}

/// Each listed seat draws its sanctuaries off the deck in turn (what is left
/// once the deck runs short): the deck that remains, and the draws.
pub open spec fn draw_all(ps: Seq<PlayerModel>, deck: Seq<SanctuaryCard>, seats: Seq<usize>) -> (
    Seq<SanctuaryCard>,
    Map<usize, Seq<SanctuaryCard>>,
)
    decreases seats.len(),
{
    if seats.len() == 0 {
        (deck, Map::empty())
    } else {
        let (d, m) = draw_all(ps, deck, seats.drop_last());
        let s = seats.last();
        let k = min_int(draw_count(ps[s as int]) as int, d.len() as int);
        (rest(d, k), m.insert(s, top(d, k)))
    }
}

/// Everyone has played: the cards join the tableaux; qualifying players draw
/// sanctuaries to choose from, or the draft starts at once when nobody qualifies.
pub open spec fn reveal_f(g: FarawayModel) -> FarawayModel {
    let ps = g.players.map_values(|p: PlayerModel| commit(p));
    let g1 = FarawayModel { players: ps, ..g };
    let el = eligible_list(ps);
    if el.len() == 0 {
        begin_drafting_f(g1)
    } else {
        let (d, m) = draw_all(ps, g.sanctuary_deck, el);
        FarawayModel { sanctuary_deck: d, phase: FarawayPhase::Choice { pending: m }, ..g1 }
    }
}

// ─── Player actions ──────────────────────────────────────────────────────────

pub open spec fn spec_play_f(g: FarawayModel, seat: usize, idx: usize) -> (Result<(), ActionError>, FarawayModel) {
    if !(g.phase is Choosing) {
        (Err(ActionError::WrongPhase), g)
    } else if seat >= g.players.len() {
        (Err(ActionError::InvalidSeat), g)
    } else if g.players[seat as int].played is Some {
        (Err(ActionError::AlreadyPlayedThisRound), g)
    } else if idx >= g.players[seat as int].hand.len() {
        (Err(ActionError::InvalidCardIndex), g)
    } else {
        let p = g.players[seat as int];
        let p2 = PlayerModel { hand: p.hand.remove(idx as int), played: Some(p.hand[idx as int]), ..p };
        let g1 = FarawayModel { players: g.players.update(seat as int, p2), ..g };
        if all_played(g1.players) {
            (Ok(()), reveal_f(g1))
        } else {
            (Ok(()), g1)
        }
    }
}

/// Choosing a sanctuary: every qualifying player chooses one of their draw
/// and the others go to the bottom of the sanctuary deck; once all have
/// chosen, the draft starts.
pub open spec fn spec_choose_f(g: FarawayModel, seat: usize, k: usize) -> (Result<(), ActionError>, FarawayModel) {
    match g.phase {
        FarawayPhase::Choice { pending } => {
            if !pending.contains_key(seat) {
                (Err(ActionError::NotYourTurn), g)
            } else if k >= pending[seat].len() {
                (Err(ActionError::InvalidCardIndex), g)
            } else {
                let g1 = with_phase_f(g, FarawayPhase::Choice { pending: pending.remove(seat) });
                if seat >= g.players.len() {
                    (Err(ActionError::InvalidSeat), g)
                } else {
                    let p = g.players[seat as int];
                    let g2 = FarawayModel {
                        players: g.players.update(seat as int, PlayerModel { sanctuaries: p.sanctuaries.push(pending[seat][k as int]), ..p }),
                        sanctuary_deck: returned_to_bottom(g.sanctuary_deck, pending[seat], k as int),
                        ..g1
                    };
                    if pending.remove(seat).is_empty() {
                        (Ok(()), begin_drafting_f(g2))
                    } else {
                        (Ok(()), g2)
                    }
                }
            }
        },
        _ => (Err(ActionError::WrongPhase), g),
    }
}

/// Drafting: the current drafter takes a market card; after the last drafter
/// the round ends.
pub open spec fn spec_draft_f(g: FarawayModel, seat: usize, m: usize) -> (Result<(), ActionError>, FarawayModel) {
    match g.phase {
        FarawayPhase::Drafting { order, current } => {
            if order[current as int] != seat {
                (Err(ActionError::NotYourTurn), g)
            } else if m >= g.market.len() {
                (Err(ActionError::InvalidCardIndex), g)
            } else {
                let card = g.market[m as int];
                let g1 = FarawayModel { market: g.market.remove(m as int), ..g };
                if seat >= g.players.len() {
                    (Err(ActionError::InvalidSeat), g)
                } else {
                    let p = g.players[seat as int];
                    let g2 = FarawayModel {
                        players: g.players.update(seat as int, PlayerModel { hand: p.hand.push(card), ..p }),
                        ..g1
                    };
                    if current + 1 >= order.len() {
                        (Ok(()), end_round_f(g2))
                    } else {
                        (Ok(()), with_phase_f(g2, FarawayPhase::Drafting { order, current: (current + 1) as usize }))
                    }
                }
            }
        },
        _ => (Err(ActionError::WrongPhase), g),
    }
}

} // verus!
