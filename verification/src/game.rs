use std::collections::HashMap;
use vstd::prelude::*;
use vstd::string::StringExecFns;
use crate::cards::{RegionCard, SanctuaryCard};
use crate::cards::{
    shuffled, lemma_shuffled_regions_bounded, lemma_shuffled_sanctuaries_bounded, region_bounded, sanctuary_bounded,
    get_region_deck, get_region_deck_with_expansion, get_sanctuary_deck, get_sanctuary_deck_with_expansion,
    is_base_region_deck, is_base_sanctuary_deck, is_expansion_region_set, is_expansion_sanctuary_set, is_shuffle_of,
};
use crate::game_spec::{
    all_played, returned_to_bottom, spec_choose_sanctuary, spec_draft_card, spec_play_card,
    after_reveal, commit, draft_order, eligible, is_eligible_seat, keep_eligible, lemma_draft_order_seats,
    lemma_keep_eligible_below, lemma_sort_pairs_elements, pair_pos, seat_keys, sort_pairs,
    advance_drafter, can_score, lemma_number_sum_prefix, end_round, ends_ok, finalize, lemma_deal_keeps_drafting, number_sum, score_of,
    skip_idle, skip_measure, try_advance_drafter, all_below, seats_ok,
    after_draw, clue_count, deal, draw_count, drawn, give_sanctuary, lemma_remove_all_len, lemma_seat_named_absent,
    lemma_seat_named_found, min_int, new_player, remove_all, reseat, reseat_all, rest, seat_named, spec_join,
    spec_remove_player, top, waiting_len, with_phase, GameModel, PhaseModel, PlayerModel, ScoreModel,
    dealt_hands, setup_hands, spec_deal_start, spec_round_1, start_refusal,
    discarded_cards, indices_ok, kept_cards, setup_discards, spec_keep_cards,
    demo_game, demo_player, lemma_number_sum_bound,
};
use crate::scoring::{fame_ok, wonders_ok, cards_fit, cards_within, is_breakdown, score_player_detailed, CardScoreEntry, PlayerScoreDetail, cards_bounded, law_game_cards_fit, player_fits, final_score, kept_faces, score_player, tableau_faces, tally, lemma_tally_push, Measure};
use crate::cards::{region_face, sanctuary_face};

verus! {

broadcast use vstd::std_specs::hash::group_hash_axioms;

// ─── Phase ───────────────────────────────────────────────────────────────────

#[derive(Debug, Clone)]
pub enum GamePhase {
    WaitingForPlayers { needed: usize },
    /// Advanced variant: each player has 5 cards and must keep exactly 3.
    AdvancedSetup { pending: HashMap<usize, Vec<RegionCard>> },
    Playing(RoundPhase),
    GameOver { scores: Vec<PlayerScore> },
}

#[derive(Debug, Clone)]
pub enum RoundPhase {
    /// All players are choosing which card to play this round.
    ChoosingCards,
    /// Players draft from the market in `order`; `current` indexes into `order`.
    /// Sanctuary choices happen during this phase: players can choose early,
    /// and must choose on their draft turn before the next player goes.
    Drafting {
        order: Vec<usize>,
        current: usize,
        /// Seats still waiting for sanctuary cards to be dealt (in draft order).
        sanctuary_waiting: Vec<usize>,
        /// Sanctuary cards dealt to players, awaiting their choice.
        pending_sanctuaries: HashMap<usize, Vec<SanctuaryCard>>,
        /// Whether the current drafter has picked their market card
        /// (on round 8, with no market, it starts as true).
        current_has_drafted: bool,
    },
}

// ─── Player state ────────────────────────────────────────────────────────────

#[derive(Debug, Clone)]
pub struct PlayerState {
    pub seat: usize,
    pub name: String,
    /// Cards played into the tableau, in order (index 0 = first played = scored last).
    pub tableau: Vec<RegionCard>,
    /// Sanctuaries kept.
    pub sanctuaries: Vec<SanctuaryCard>,
    /// Current hand (3 cards between rounds; varies during a round).
    pub hand: Vec<RegionCard>,
    /// Card played this round (face-down until the reveal).
    pub played_this_round: Option<RegionCard>,
}

impl PlayerState {
    pub(crate) fn new(seat: usize, name: String) -> (r: Self)
        ensures
            r@ == new_player(seat, name@),
    {
        PlayerState {
            seat,
            name,
            tableau: Vec::new(),
            sanctuaries: Vec::new(),
            hand: Vec::new(),
            played_this_round: None,
        }
    }
}

// ─── Scores ──────────────────────────────────────────────────────────────────

#[derive(Debug, Clone)]
pub struct PlayerScore {
    pub seat: usize,
    pub name: String,
    pub total: u32,
    /// Sum of card numbers (tiebreaker: lower is better).
    pub card_number_sum: u32,
}

// ─── Full game state ─────────────────────────────────────────────────────────

#[derive(Debug, Clone)]
pub struct GameState {
    pub phase: GamePhase,
    pub round: u8,
    pub players: Vec<PlayerState>,
    pub region_deck: Vec<RegionCard>,
    pub sanctuary_deck: Vec<SanctuaryCard>,
    /// Face-up market cards (N+1 where N = player count).
    pub market: Vec<RegionCard>,
    pub player_count: usize,
}

#[derive(Debug, Clone, Copy, PartialEq, Eq, Structural)]
pub enum ActionError {
    GameAlreadyStarted,
    NotEnoughPlayers,
    RoomFull,
    NotYourTurn,
    WrongPhase,
    AlreadyPlayedThisRound,
    InvalidCardIndex,
    InvalidSeat,
    DeckEmpty,
}

// ─── Views ───────────────────────────────────────────────────────────────────

impl View for PlayerState {
    type V = PlayerModel;

    open spec fn view(&self) -> PlayerModel {
        PlayerModel {
            seat: self.seat,
            name: self.name@,
            tableau: self.tableau@,
            sanctuaries: self.sanctuaries@,
            hand: self.hand@,
            played: self.played_this_round,
        }
    }
}

impl View for PlayerScore {
    type V = ScoreModel;

    open spec fn view(&self) -> ScoreModel {
        ScoreModel { seat: self.seat, name: self.name@, total: self.total, card_number_sum: self.card_number_sum }
    }
}

pub open spec fn players_view(ps: Seq<PlayerState>) -> Seq<PlayerModel> {
    ps.map_values(|p: PlayerState| p@)
}

pub open spec fn scores_view(ss: Seq<PlayerScore>) -> Seq<ScoreModel> {
    ss.map_values(|s: PlayerScore| s@)
}

pub open spec fn hands_view(m: Map<usize, Vec<RegionCard>>) -> Map<usize, Seq<RegionCard>> {
    m.map_values(|v: Vec<RegionCard>| v@)
}

pub open spec fn choices_view(m: Map<usize, Vec<SanctuaryCard>>) -> Map<usize, Seq<SanctuaryCard>> {
    m.map_values(|v: Vec<SanctuaryCard>| v@)
}

impl View for GamePhase {
    type V = PhaseModel;

    open spec fn view(&self) -> PhaseModel {
        match self {
            GamePhase::WaitingForPlayers { needed } => PhaseModel::Waiting { needed: *needed },
            GamePhase::AdvancedSetup { pending } => PhaseModel::Setup { hands: hands_view(pending@) },
            GamePhase::Playing(RoundPhase::ChoosingCards) => PhaseModel::Choosing,
            GamePhase::Playing(
                RoundPhase::Drafting { order, current, sanctuary_waiting, pending_sanctuaries, current_has_drafted },
            ) => PhaseModel::Drafting {
                order: order@,
                current: *current,
                waiting: sanctuary_waiting@,
                pending: choices_view(pending_sanctuaries@),
                drafted: *current_has_drafted,
            },
            GamePhase::GameOver { scores } => PhaseModel::Over { scores: scores_view(scores@) },
        }
    }
}

impl View for GameState {
    type V = GameModel;

    open spec fn view(&self) -> GameModel {
        GameModel {
            phase: self.phase@,
            round: self.round,
            players: players_view(self.players@),
            region_deck: self.region_deck@,
            sanctuary_deck: self.sanctuary_deck@,
            market: self.market@,
            player_count: self.player_count,
        }
    }
}

// ─── Joining and leaving ─────────────────────────────────────────────────────

fn same_name(p: &PlayerState, name: &String) -> (r: bool)
    ensures
        r == (p.name@ == name@),
{
    p.name == *name
}

pub(crate) fn position_of(players: &Vec<PlayerState>, name: &String) -> (r: Option<usize>)
    ensures
        r == seat_named(players_view(players@), name@),
        r matches Some(i) ==> i < players.len(),
{
    let ghost ps = players_view(players@);
    let mut i: usize = 0;
    while i < players.len()
        invariant
            i <= players.len(),
            ps == players_view(players@),
            forall|k: int| 0 <= k < i ==> ps[k].name != name@,
        decreases players.len() - i,
    {
        if same_name(&players[i], name) {
            proof {
                lemma_seat_named_found(ps, name@, i as int);
            }
            return Some(i);
        }
        i = i + 1;
    }
    proof {
        lemma_seat_named_absent(ps, name@);
    }
    None
}

impl GameState {
    /// A room waiting for up to `max_players` players, with both decks shuffled.
    pub fn new_waiting(max_players: usize) -> (r: Self)
        ensures
            r@.phase == (PhaseModel::Waiting { needed: max_players }),
            r@.round == 0,
            r@.players.len() == 0,
            r@.market.len() == 0,
            r@.player_count == max_players,
            exists|base: Seq<RegionCard>| is_base_region_deck(base) && #[trigger] is_shuffle_of(r@.region_deck, base),
            exists|base: Seq<SanctuaryCard>| is_base_sanctuary_deck(base) && #[trigger] is_shuffle_of(r@.sanctuary_deck, base),
    {
        let region_deck = get_region_deck();
        let sanctuary_deck = get_sanctuary_deck();
        let r = GameState {
            phase: GamePhase::WaitingForPlayers { needed: max_players },
            round: 0,
            players: Vec::new(),
            region_deck,
            sanctuary_deck,
            market: Vec::new(),
            player_count: max_players,
        };
        proof {
            assert(players_view(r.players@) =~= Seq::empty());
            let rb = choose|base: Seq<RegionCard>| is_base_region_deck(base) && #[trigger] is_shuffle_of(region_deck@, base);
            assert(is_base_region_deck(rb) && is_shuffle_of(r@.region_deck, rb));
            let sb = choose|base: Seq<SanctuaryCard>| is_base_sanctuary_deck(base) && #[trigger] is_shuffle_of(sanctuary_deck@, base);
            assert(is_base_sanctuary_deck(sb) && is_shuffle_of(r@.sanctuary_deck, sb));
        }
        r
    }

    /// Adds a player to the room, or reconnects an existing player; returns their seat.
    pub fn join(&mut self, name: &str) -> (r: Result<usize, ActionError>)
        ensures
            (r, final(self)@) == spec_join(old(self)@, name@),
    {
        let name_s = String::from_str(name);
        // Reconnect: a player with this name keeps their seat, whatever the phase.
        if let Some(pos) = position_of(&self.players, &name_s) {
            return Ok(pos);
        }
        // New player: only while waiting for players.
        match &self.phase {
            GamePhase::WaitingForPlayers { .. } => {},
            _ => return Err(ActionError::GameAlreadyStarted),
        }
        if self.players.len() >= self.player_count {
            return Err(ActionError::RoomFull);
        }
        let seat = self.players.len();
        let ghost before = self.players@;
        self.players.push(PlayerState::new(seat, name_s));
        proof {
            assert(players_view(self.players@) =~= players_view(before).push(new_player(seat, name@)));
        }
        Ok(seat)
    }

    /// A player's seat, found by name.
    pub fn seat_of(&self, name: &str) -> (r: Option<usize>)
        ensures
            r == seat_named(self@.players, name@),
    {
        let name_s = String::from_str(name);
        position_of(&self.players, &name_s)
    }

    /// Removes a player by name and renumbers the seats that follow.
    pub fn remove_player(&mut self, name: &str)
        ensures
            final(self)@ == spec_remove_player(old(self)@, name@),
    {
        let name_s = String::from_str(name);
        if let Some(pos) = position_of(&self.players, &name_s) {
            let ghost before = players_view(self.players@);
            self.players.remove(pos);
            let ghost removed = players_view(self.players@);
            proof {
                assert(removed =~= before.remove(pos as int));
            }
            let mut i: usize = 0;
            while i < self.players.len()
                invariant
                    i <= self.players.len(),
                    removed.len() == self.players.len(),
                    self.phase == old(self).phase,
                    self.round == old(self).round,
                    self.region_deck == old(self).region_deck,
                    self.sanctuary_deck == old(self).sanctuary_deck,
                    self.market == old(self).market,
                    self.player_count == old(self).player_count,
                    forall|k: int| 0 <= k < self.players.len() ==> #[trigger] players_view(self.players@)[k]
                        == (if k < i { reseat(removed[k], k) } else { removed[k] }),
                decreases self.players.len() - i,
            {
                let ghost prev = self.players@;
                let mut p = self.players.remove(i);
                p.seat = i;
                self.players.insert(i, p);
                proof {
                    assert(self.players@ =~= prev.update(i as int, p));
                    assert forall|k: int| 0 <= k < self.players.len() implies #[trigger] players_view(self.players@)[k]
                        == (if k < i + 1 { reseat(removed[k], k) } else { removed[k] }) by {
                        if k != i {
                            assert(players_view(self.players@)[k] == players_view(prev)[k]);
                        } else {
                            assert(players_view(prev)[k] == removed[k]);
                        }
                    }
                }
                i = i + 1;
            }
            proof {
                assert(players_view(self.players@) =~= reseat_all(removed));
            }
        }
    }
}

// ─── Small helpers ───────────────────────────────────────────────────────────

pub(crate) fn count_tableau_clues(t: &Vec<RegionCard>) -> (r: u128)
    ensures
        r == tally(tableau_faces(t@), Measure::Clue),
        r <= t.len(),
{
    let mut n: u128 = 0;
    let mut i: usize = 0;
    while i < t.len()
        invariant
            i <= t.len(),
            n <= i,
            n == tally(tableau_faces(t@.take(i as int)), Measure::Clue),
        decreases t.len() - i,
    {
        proof {
            assert(tableau_faces(t@.take(i + 1)) =~= tableau_faces(t@.take(i as int)).push(region_face(t@[i as int])));
            lemma_tally_push(tableau_faces(t@.take(i as int)), region_face(t@[i as int]), Measure::Clue);
        }
        if t[i].clue {
            n = n + 1;
        }
        i = i + 1;
    }
    proof {
        assert(t@.take(t.len() as int) =~= t@);
    }
    n
}

pub(crate) fn count_kept_clues(s: &Vec<SanctuaryCard>) -> (r: u128)
    ensures
        r == tally(kept_faces(s@), Measure::Clue),
        r <= s.len(),
{
    let mut n: u128 = 0;
    let mut i: usize = 0;
    while i < s.len()
        invariant
            i <= s.len(),
            n <= i,
            n == tally(kept_faces(s@.take(i as int)), Measure::Clue),
        decreases s.len() - i,
    {
        proof {
            assert(kept_faces(s@.take(i + 1)) =~= kept_faces(s@.take(i as int)).push(sanctuary_face(s@[i as int])));
            lemma_tally_push(kept_faces(s@.take(i as int)), sanctuary_face(s@[i as int]), Measure::Clue);
        }
        if s[i].clue {
            n = n + 1;
        }
        i = i + 1;
    }
    proof {
        assert(s@.take(s.len() as int) =~= s@);
    }
    n
}

pub(crate) fn contains_seat(xs: &Vec<usize>, x: usize) -> (r: bool)
    ensures
        r == xs@.contains(x),
{
    let mut i: usize = 0;
    while i < xs.len()
        invariant
            i <= xs.len(),
            forall|k: int| 0 <= k < i ==> xs@[k] != x,
        decreases xs.len() - i,
    {
        if xs[i] == x {
            return true;
        }
        i = i + 1;
    }
    false
}

/// The numbers of the regions explored, added up (the tiebreaker).
pub fn tableau_number_sum(t: &Vec<RegionCard>) -> (r: u32)
    requires
        number_sum(t@) <= u32::MAX,
    ensures
        r == number_sum(t@),
{
    let mut total: u32 = 0;
    let mut i: usize = 0;
    while i < t.len()
        invariant
            i <= t.len(),
            number_sum(t@) <= u32::MAX,
            total == number_sum(t@.take(i as int)),
        decreases t.len() - i,
    {
        proof {
            assert(t@.take(i + 1).drop_last() =~= t@.take(i as int));
            lemma_number_sum_prefix(t@, i + 1);
        }
        total = total + t[i].number as u32;
        i = i + 1;
    }
    proof {
        assert(t@.take(t.len() as int) =~= t@);
    }
    total
}

/// Pairs sorted by their number, stably (insertion sort).
pub(crate) fn sort_by_number(pairs: &Vec<(usize, u8)>) -> (r: Vec<(usize, u8)>)
    ensures
        r@ == sort_pairs(pairs@),
{
    let mut o: Vec<(usize, u8)> = Vec::new();
    let mut i: usize = 0;
    while i < pairs.len()
        invariant
            i <= pairs.len(),
            o@ == sort_pairs(pairs@.take(i as int)),
        decreases pairs.len() - i,
    {
        proof {
            assert(pairs@.take(i + 1).drop_last() =~= pairs@.take(i as int));
            lemma_sort_pairs_elements(pairs@.take(i as int));
        }
        let x = pairs[i];
        let mut j = o.len();
        proof {
            assert(o@.take(o.len() as int) =~= o@);
        }
        while j > 0 && o[j - 1].1 > x.1
            invariant
                j <= o.len(),
                pair_pos(o@.take(j as int), x) == pair_pos(o@, x),
            decreases j,
        {
            proof {
                assert(o@.take(j as int).drop_last() =~= o@.take(j - 1));
            }
            j = j - 1;
        }
        proof {
            if j > 0 {
                assert(o@.take(j as int).last() == o@[j - 1]);
            }
            assert(o@.take(o.len() as int) =~= o@);
        }
        o.insert(j, x);
        i = i + 1;
    }
    proof {
        assert(pairs@.take(pairs.len() as int) =~= pairs@);
    }
    o
}

/// The seats of `order` that `listed` holds, in the order of `order`.
fn keep_listed(order: &Vec<usize>, listed: &Vec<usize>, Ghost(ps): Ghost<Seq<PlayerModel>>) -> (r: Vec<usize>)
    requires
        forall|s: usize| listed@.contains(s) <==> is_eligible_seat(ps, s),
    ensures
        r@ == keep_eligible(order@, ps),
{
    let mut r: Vec<usize> = Vec::new();
    let mut i: usize = 0;
    while i < order.len()
        invariant
            i <= order.len(),
            forall|s: usize| listed@.contains(s) <==> is_eligible_seat(ps, s),
            r@ == keep_eligible(order@.take(i as int), ps),
        decreases order.len() - i,
    {
        proof {
            assert(order@.take(i + 1).drop_last() =~= order@.take(i as int));
        }
        if contains_seat(listed, order[i]) {
            r.push(order[i]);
        }
        i = i + 1;
    }
    proof {
        assert(order@.take(order.len() as int) =~= order@);
    }
    r
}

/// The list without any occurrence of `x`.
fn without(xs: &Vec<usize>, x: usize) -> (r: Vec<usize>)
    ensures
        r@ == remove_all(xs@, x),
{
    let mut r: Vec<usize> = Vec::new();
    let mut i: usize = 0;
    while i < xs.len()
        invariant
            i <= xs.len(),
            r@ == remove_all(xs@.take(i as int), x),
        decreases xs.len() - i,
    {
        proof {
            assert(xs@.take(i + 1).drop_last() =~= xs@.take(i as int));
        }
        if xs[i] != x {
            r.push(xs[i]);
        }
        i = i + 1;
    }
    proof {
        assert(xs@.take(xs.len() as int) =~= xs@);
    }
    r
}

/// Seats in ascending order of the number just played (stable on seat order).
pub(crate) fn draft_order_for(players: &Vec<PlayerState>) -> (r: Vec<usize>)
    ensures
        r@ == draft_order(players_view(players@)),
{
    let ghost ps = players_view(players@);
    let mut pairs: Vec<(usize, u8)> = Vec::new();
    let mut i: usize = 0;
    while i < players.len()
        invariant
            i <= players.len(),
            ps == players_view(players@),
            pairs@ == seat_keys(ps).take(i as int),
        decreases players.len() - i,
    {
        let p = &players[i];
        let played_num = if p.tableau.len() > 0 { p.tableau[p.tableau.len() - 1].number } else { 0 };
        pairs.push((p.seat, played_num));
        proof {
            assert(pairs@ =~= seat_keys(ps).take(i + 1));
        }
        i = i + 1;
    }
    proof {
        assert(seat_keys(ps).take(players.len() as int) =~= seat_keys(ps));
    }
    let sorted = sort_by_number(&pairs);
    let mut r: Vec<usize> = Vec::new();
    let mut j: usize = 0;
    while j < sorted.len()
        invariant
            j <= sorted.len(),
            r@ == sorted@.take(j as int).map_values(|x: (usize, u8)| x.0),
        decreases sorted.len() - j,
    {
        r.push(sorted[j].0);
        proof {
            assert(r@ =~= sorted@.take(j + 1).map_values(|x: (usize, u8)| x.0));
        }
        j = j + 1;
    }
    proof {
        assert(sorted@.take(sorted.len() as int) =~= sorted@);
    }
    r
}

impl GameState {
    /// Clues a player holds among their regions and sanctuaries.
    fn clues_of(&self, seat: usize) -> (r: u128)
        requires
            seat < self.players.len(),
        ensures
            r == clue_count(self@.players[seat as int]),
            r <= self.players[seat as int].tableau.len() + self.players[seat as int].sanctuaries.len(),
    {
        let t = count_tableau_clues(&self.players[seat].tableau);
        let s = count_kept_clues(&self.players[seat].sanctuaries);
        t + s
    }

    /// How many sanctuary cards a player would draw (1 + clue count).
    fn sanctuary_draw_count(&self, seat: usize) -> (r: u128)
        requires
            seat < self.players.len(),
        ensures
            r == draw_count(self@.players[seat as int]),
    {
        1 + self.clues_of(seat)
    }

    /// Draws the player's sanctuary cards off the top of the deck (fewer when it runs out).
    fn draw_sanctuary_choices(&mut self, seat: usize) -> (r: Vec<SanctuaryCard>)
        requires
            seat < old(self).players.len(),
        ensures
            r@ == drawn(old(self)@, seat),
            final(self)@ == after_draw(old(self)@, seat),
    {
        let clues = self.clues_of(seat);
        let ghost deck0 = self.sanctuary_deck@;
        let k: usize = if (self.sanctuary_deck.len() as u128) <= clues {
            self.sanctuary_deck.len()
        } else {
            (clues + 1) as usize
        };
        let mut choices: Vec<SanctuaryCard> = Vec::new();
        let mut i: usize = 0;
        while i < k
            invariant
                k <= deck0.len(),
                i <= k,
                choices@ == top(deck0, i as int),
                self.sanctuary_deck@ == rest(deck0, i as int),
                self.phase == old(self).phase,
                self.round == old(self).round,
                self.players == old(self).players,
                self.region_deck == old(self).region_deck,
                self.market == old(self).market,
                self.player_count == old(self).player_count,
            decreases k - i,
        {
            let card = self.sanctuary_deck.pop().unwrap();
            choices.push(card);
            proof {
                assert(choices@ =~= top(deck0, i + 1));
                assert(self.sanctuary_deck@ =~= rest(deck0, i + 1));
            }
            i = i + 1;
        }
        proof {
            assert(k == min_int(draw_count(old(self)@.players[seat as int]) as int, deck0.len() as int));
        }
        choices
    }

    fn add_sanctuary(&mut self, seat: usize, c: SanctuaryCard)
        requires
            seat < old(self).players.len(),
        ensures
            final(self)@ == give_sanctuary(old(self)@, seat, c),
    {
        let ghost before = self.players@;
        let mut p = self.players.remove(seat);
        p.sanctuaries.push(c);
        self.players.insert(seat, p);
        proof {
            assert(self.players@ =~= before.update(seat as int, p));
            assert(players_view(self.players@) =~= players_view(before).update(seat as int, p@));
        }
    }

    fn finalize_scores(&mut self)
        requires
            can_score(old(self)@.players),
        ensures
            final(self)@ == finalize(old(self)@),
    {
        let mut scores: Vec<PlayerScore> = Vec::new();
        let mut i: usize = 0;
        while i < self.players.len()
            invariant
                i <= self.players.len(),
                can_score(players_view(self.players@)),
                scores@.len() == i,
                scores_view(scores@) == players_view(self.players@).take(i as int).map_values(|p: PlayerModel| score_of(p)),
            decreases self.players.len() - i,
        {
            let p = &self.players[i];
            proof {
                assert(player_fits(players_view(self.players@)[i as int].tableau, players_view(self.players@)[i as int].sanctuaries));
            }
            let total = score_player(p);
            let card_number_sum = tableau_number_sum(&p.tableau);
            let ghost prev = scores@;
            scores.push(PlayerScore { seat: p.seat, name: p.name.clone(), total, card_number_sum });
            proof {
                let pm = players_view(self.players@)[i as int];
                assert(pm == p@);
                assert(final_score(pm.tableau, pm.sanctuaries) <= u32::MAX);
                assert(number_sum(pm.tableau) <= u32::MAX);
                assert(scores@[i as int].seat == pm.seat);
                assert(scores@[i as int].name@ == pm.name);
                assert(scores@[i as int].total == final_score(pm.tableau, pm.sanctuaries) as u32);
                assert(scores@[i as int].card_number_sum == number_sum(pm.tableau) as u32);
                assert(scores@[i as int]@ == score_of(pm));
                let rhs = players_view(self.players@).take(i + 1).map_values(|p: PlayerModel| score_of(p));
                let old_rhs = players_view(self.players@).take(i as int).map_values(|p: PlayerModel| score_of(p));
                assert forall|k: int| 0 <= k < i + 1 implies #[trigger] scores_view(scores@)[k] == rhs[k] by {
                    if k < i {
                        assert(scores@[k] == prev[k]);
                        assert(scores_view(prev)[k] == old_rhs[k]);
                    }
                }
                assert(scores_view(scores@) =~= rhs);
            }
            i = i + 1;
        }
        proof {
            assert(players_view(self.players@).take(self.players.len() as int) =~= players_view(self.players@));
        }
        self.phase = GamePhase::GameOver { scores };
    }

    fn end_round(&mut self) -> (r: Result<(), ActionError>)
        requires
            old(self)@.wf(),
            old(self)@.phase is Drafting,
            ends_ok(old(self)@, end_round(old(self)@)),
        ensures
            r is Ok,
            final(self)@ == end_round(old(self)@),
            final(self)@.wf(),
    {
        // Discard the leftover market card.
        self.market.clear();
        if self.round == 8 {
            self.finalize_scores();
            return Ok(());
        }
        // Refill the market for the next round.
        self.round = self.round + 1;
        let ghost deck0 = self.region_deck@;
        let n = self.players.len();
        let k: usize = if self.region_deck.len() <= n { self.region_deck.len() } else { n + 1 };
        let mut i: usize = 0;
        while i < k
            invariant
                k <= deck0.len(),
                i <= k,
                self.market@ == top(deck0, i as int),
                self.region_deck@ == rest(deck0, i as int),
                self.phase == old(self).phase,
                self.players == old(self).players,
                self.sanctuary_deck == old(self).sanctuary_deck,
                self.player_count == old(self).player_count,
                self.round == old(self).round + 1,
            decreases k - i,
        {
            let card = self.region_deck.pop().unwrap();
            self.market.push(card);
            proof {
                assert(self.market@ =~= top(deck0, i + 1));
                assert(self.region_deck@ =~= rest(deck0, i + 1));
            }
            i = i + 1;
        }
        self.phase = GamePhase::Playing(RoundPhase::ChoosingCards);
        Ok(())
    }

    /// On round 8, skips drafters who have no sanctuary to choose and are not
    /// waiting for one.
    fn skip_non_actionable_drafters(&mut self)
        requires
            old(self)@.wf(),
            ends_ok(old(self)@, skip_idle(old(self)@)),
        ensures
            final(self)@ == skip_idle(old(self)@),
            final(self)@.wf(),
    {
        loop
            invariant
                self@.wf(),
                skip_idle(self@) == skip_idle(old(self)@),
                ends_ok(self@, skip_idle(old(self)@)),
            decreases skip_measure(self@),
        {
            let (order_len, current, has_pending, is_waiting) = match &self.phase {
                GamePhase::Playing(
                    RoundPhase::Drafting { order, current, pending_sanctuaries, sanctuary_waiting, .. },
                ) => {
                    let seat = order[*current];
                    let has_pending = pending_sanctuaries.contains_key(&seat);
                    let is_waiting = contains_seat(sanctuary_waiting, seat);
                    (order.len(), *current, has_pending, is_waiting)
                },
                _ => return,
            };
            if has_pending || is_waiting {
                return;  // This player needs to choose or is waiting for cards.
            }
            let next = current + 1;
            if next >= order_len {
                let _ = self.end_round();
                return;
            }
            if let GamePhase::Playing(RoundPhase::Drafting { current: c, .. }) = &mut self.phase {
                *c = next;
            }
        }
    }

    /// Passes the turn to the next drafter, or ends the round after the last one.
    fn advance_drafter(&mut self)
        requires
            old(self)@.wf(),
            ends_ok(old(self)@, advance_drafter(old(self)@)),
        ensures
            final(self)@ == advance_drafter(old(self)@),
            final(self)@.wf(),
    {
        let (order_len, current) = match &self.phase {
            GamePhase::Playing(RoundPhase::Drafting { order, current, .. }) => (order.len(), *current),
            _ => return,
        };
        let next = current + 1;
        if next >= order_len {
            let _ = self.end_round();
        } else {
            let last_round = self.round == 8;
            if let GamePhase::Playing(RoundPhase::Drafting { current: c, current_has_drafted: drafted, .. }) = &mut self.phase {
                *c = next;
                *drafted = last_round;
            }
            let ghost g1 = self@;
            proof {
                lemma_deal_keeps_drafting(g1);
            }
            // The new current drafter may now get a (partial) draw.
            self.deal_available_sanctuaries();
            if self.round == 8 {
                self.skip_non_actionable_drafters();
            }
        }
    }

    /// After a sanctuary choice, passes the turn if the current drafter has
    /// drafted and has nothing left to choose.
    fn try_advance_drafter(&mut self)
        requires
            old(self)@.wf(),
            ends_ok(old(self)@, try_advance_drafter(old(self)@)),
        ensures
            final(self)@ == try_advance_drafter(old(self)@),
            final(self)@.wf(),
    {
        let should_advance = match &self.phase {
            GamePhase::Playing(
                RoundPhase::Drafting { order, current, current_has_drafted, pending_sanctuaries, .. },
            ) => {
                let seat = order[*current];
                *current_has_drafted && !pending_sanctuaries.contains_key(&seat)
            },
            _ => false,
        };
        if should_advance {
            self.advance_drafter();
        }
    }

    /// Plays a card from hand (choosing phase).
    pub fn play_card(&mut self, seat: usize, card_index: usize) -> (r: Result<(), ActionError>)
        requires
            old(self)@.wf(),
            ends_ok(old(self)@, spec_play_card(old(self)@, seat, card_index).1),
        ensures
            (r, final(self)@) == spec_play_card(old(self)@, seat, card_index),
            final(self)@.wf(),
    {
        self.require_phase_choosing_cards()?;
        if seat >= self.players.len() {
            return Err(ActionError::InvalidSeat);
        }
        if self.players[seat].played_this_round.is_some() {
            return Err(ActionError::AlreadyPlayedThisRound);
        }
        if card_index >= self.players[seat].hand.len() {
            return Err(ActionError::InvalidCardIndex);
        }
        let ghost before = self.players@;
        let mut player = self.players.remove(seat);
        let card = player.hand.remove(card_index);
        player.played_this_round = Some(card);
        self.players.insert(seat, player);
        proof {
            assert(self.players@ =~= before.update(seat as int, player));
            assert(players_view(self.players@) =~= players_view(before).update(seat as int, player@));
        }
        // Once every player has played, the cards are revealed.
        if self.everyone_played() {
            self.advance_to_reveal();
        }
        Ok(())
    }

    /// Chooses a sanctuary to keep. Any player with pending sanctuaries can
    /// choose at any time during the drafting phase. The unchosen cards return
    /// to the bottom of the deck, and waiting players may then be dealt.
    pub fn choose_sanctuary(&mut self, seat: usize, sanctuary_index: usize) -> (r: Result<(), ActionError>)
        requires
            old(self)@.wf(),
            ends_ok(old(self)@, spec_choose_sanctuary(old(self)@, seat, sanctuary_index).1),
        ensures
            (r, final(self)@) == spec_choose_sanctuary(old(self)@, seat, sanctuary_index),
            final(self)@.wf(),
    {
        let ghost g0 = self@;
        // Only a player with pending sanctuaries may choose.
        let has_pending = match &self.phase {
            GamePhase::Playing(RoundPhase::Drafting { pending_sanctuaries, .. }) => pending_sanctuaries.contains_key(&seat),
            _ => return Err(ActionError::WrongPhase),
        };
        if !has_pending {
            return Err(ActionError::NotYourTurn);
        }
        let choices = match &mut self.phase {
            GamePhase::Playing(RoundPhase::Drafting { pending_sanctuaries, .. }) => pending_sanctuaries.remove(&seat).unwrap(),
            _ => return Err(ActionError::WrongPhase),
        };
        if sanctuary_index >= choices.len() {
            // Put the choices back so the player can retry.
            if let GamePhase::Playing(RoundPhase::Drafting { pending_sanctuaries, .. }) = &mut self.phase {
                pending_sanctuaries.insert(seat, choices);
            }
            proof {
                assert(self@.phase->pending =~= g0.phase->pending);
                assert(self@.phase == g0.phase);
            }
            return Err(ActionError::InvalidCardIndex);
        }
        if seat >= self.players.len() {
            if let GamePhase::Playing(RoundPhase::Drafting { pending_sanctuaries, .. }) = &mut self.phase {
                pending_sanctuaries.insert(seat, choices);
            }
            proof {
                assert(self@.phase->pending =~= g0.phase->pending);
                assert(self@.phase == g0.phase);
            }
            return Err(ActionError::InvalidSeat);
        }
        let kept = choices[sanctuary_index];
        self.add_sanctuary(seat, kept);
        // Put the unchosen cards back at the bottom of the deck.
        return_to_bottom(&mut self.sanctuary_deck, &choices, sanctuary_index);
        proof {
            let order = g0.phase->order;
            let current = g0.phase->current;
            let waiting = g0.phase->waiting;
            let pending = g0.phase->pending;
            let drafted = g0.phase->drafted;
            let cs = pending[seat];
            assert(choices@ == cs);
            let g1 = with_phase(g0, PhaseModel::Drafting { order, current, waiting, pending: pending.remove(seat), drafted });
            let g2 = GameModel {
                sanctuary_deck: returned_to_bottom(g0.sanctuary_deck, cs, sanctuary_index as int),
                ..give_sanctuary(g1, seat, cs[sanctuary_index as int])
            };
            assert(self@.phase->pending =~= pending.remove(seat));
            assert(self@.sanctuary_deck =~= g2.sanctuary_deck);
            assert(self@.players =~= g2.players);
            assert(self@.phase == g2.phase);
            assert(self@ == g2);
        }
        // Cards returned to the deck: try to deal to waiting players, then
        // pass the turn if the current drafter is done.
        self.deal_available_sanctuaries();
        self.try_advance_drafter();
        Ok(())
    }

    /// Drafts a card from the market (drafting phase).
    pub fn draft_card(&mut self, seat: usize, market_index: usize) -> (r: Result<(), ActionError>)
        requires
            old(self)@.wf(),
            ends_ok(old(self)@, spec_draft_card(old(self)@, seat, market_index).1),
        ensures
            (r, final(self)@) == spec_draft_card(old(self)@, seat, market_index),
            final(self)@.wf(),
    {
        let (current_seat, current_has_drafted) = match &self.phase {
            GamePhase::Playing(RoundPhase::Drafting { order, current, current_has_drafted, .. }) => {
                (order[*current], *current_has_drafted)
            },
            _ => return Err(ActionError::WrongPhase),
        };
        if current_seat != seat {
            return Err(ActionError::NotYourTurn);
        }
        if current_has_drafted {
            return Err(ActionError::WrongPhase);
        }
        if market_index >= self.market.len() {
            return Err(ActionError::InvalidCardIndex);
        }
        if seat >= self.players.len() {
            return Err(ActionError::InvalidSeat);
        }
        let card = self.market.remove(market_index);
        let ghost before = self.players@;
        let mut player = self.players.remove(seat);
        player.hand.push(card);
        self.players.insert(seat, player);
        proof {
            assert(self.players@ =~= before.update(seat as int, player));
            assert(players_view(self.players@) =~= players_view(before).update(seat as int, player@));
        }
        // A drafter with a pending sanctuary must choose it before the next player goes.
        let has_pending = match &self.phase {
            GamePhase::Playing(RoundPhase::Drafting { pending_sanctuaries, .. }) => pending_sanctuaries.contains_key(&seat),
            _ => false,
        };
        if has_pending {
            if let GamePhase::Playing(RoundPhase::Drafting { current_has_drafted, .. }) = &mut self.phase {
                *current_has_drafted = true;
            }
        } else {
            self.advance_drafter();
        }
        Ok(())
    }

    fn everyone_played(&self) -> (r: bool)
        ensures
            r == all_played(self@.players),
    {
        let mut i: usize = 0;
        while i < self.players.len()
            invariant
                i <= self.players.len(),
                forall|k: int| 0 <= k < i ==> #[trigger] self@.players[k].played is Some,
            decreases self.players.len() - i,
        {
            if self.players[i].played_this_round.is_none() {
                proof {
                    assert(!(self@.players[i as int].played is Some));
                }
                return false;
            }
            i = i + 1;
        }
        true
    }

    fn require_phase_choosing_cards(&self) -> (r: Result<(), ActionError>)
        ensures
            r is Ok <==> self@.phase is Choosing,
            r is Err ==> r == Err::<(), ActionError>(ActionError::WrongPhase),
    {
        match &self.phase {
            GamePhase::Playing(RoundPhase::ChoosingCards) => Ok(()),
            _ => Err(ActionError::WrongPhase),
        }
    }

    /// Commits every played card to its player's tableau.
    fn commit_played(&mut self)
        ensures
            final(self)@ == (GameModel { players: old(self)@.players.map_values(|p: PlayerModel| commit(p)), ..old(self)@ }),
    {
        let ghost ps0 = players_view(self.players@);
        let mut i: usize = 0;
        while i < self.players.len()
            invariant
                i <= self.players.len(),
                ps0.len() == self.players.len(),
                forall|k: int| 0 <= k < self.players.len() ==> #[trigger] players_view(self.players@)[k]
                    == (if k < i { commit(ps0[k]) } else { ps0[k] }),
                self.phase == old(self).phase,
                self.round == old(self).round,
                self.region_deck == old(self).region_deck,
                self.sanctuary_deck == old(self).sanctuary_deck,
                self.market == old(self).market,
                self.player_count == old(self).player_count,
            decreases self.players.len() - i,
        {
            let ghost prev = self.players@;
            let mut p = self.players.remove(i);
            proof {
                assert(players_view(prev)[i as int] == ps0[i as int]);
                assert(p@ == ps0[i as int]);
            }
            if let Some(card) = p.played_this_round.take() {
                p.tableau.push(card);
            }
            self.players.insert(i, p);
            proof {
                assert(self.players@ =~= prev.update(i as int, p));
                assert(p@ == commit(ps0[i as int]));
                assert forall|k: int| 0 <= k < self.players.len() implies #[trigger] players_view(self.players@)[k]
                    == (if k < i + 1 { commit(ps0[k]) } else { ps0[k] }) by {
                    if k != i {
                        assert(players_view(self.players@)[k] == players_view(prev)[k]);
                    }
                }
            }
            i = i + 1;
        }
        proof {
            assert(players_view(self.players@) =~= ps0.map_values(|p: PlayerModel| commit(p)));
        }
    }

    /// Seats whose card just played beats the one before it.
    fn eligible_seats(&self) -> (r: Vec<usize>)
        ensures
            forall|s: usize| r@.contains(s) <==> is_eligible_seat(self@.players, s),
    {
        let ghost ps = self@.players;
        let mut r: Vec<usize> = Vec::new();
        let mut i: usize = 0;
        while i < self.players.len()
            invariant
                i <= self.players.len(),
                ps == self@.players,
                forall|s: usize| r@.contains(s) <==> exists|k: int| 0 <= k < i && ps[k].seat == s && eligible(ps[k]),
            decreases self.players.len() - i,
        {
            let p = &self.players[i];
            let len = p.tableau.len();
            let qualifies = if len < 2 {
                false
            } else {
                p.tableau[len - 1].number > p.tableau[len - 2].number
            };
            proof {
                assert(qualifies == eligible(ps[i as int]));
            }
            let ghost prev = r@;
            if qualifies {
                r.push(p.seat);
            }
            proof {
                assert forall|s: usize| r@.contains(s) <==> exists|k: int| 0 <= k < i + 1 && ps[k].seat == s && eligible(ps[k]) by {
                    if r@.contains(s) {
                        let w = choose|w: int| 0 <= w < r@.len() && r@[w] == s;
                        if w < prev.len() {
                            assert(prev.contains(s));
                        } else {
                            assert(ps[i as int].seat == s);
                        }
                    }
                    if exists|k: int| 0 <= k < i + 1 && ps[k].seat == s && eligible(ps[k]) {
                        let k = choose|k: int| 0 <= k < i + 1 && ps[k].seat == s && eligible(ps[k]);
                        if k < i {
                            assert(prev.contains(s));
                            let w = choose|w: int| 0 <= w < prev.len() && prev[w] == s;
                            assert(r@[w] == s);
                        } else {
                            assert(r@[r@.len() - 1] == s);
                        }
                    }
                }
            }
            i = i + 1;
        }
        r
    }

    /// Seats in ascending order of the number just played (stable on seat order).
    fn draft_order_of(&self) -> (r: Vec<usize>)
        ensures
            r@ == draft_order(self@.players),
    {
        draft_order_for(&self.players)
    }

    /// Everyone has played: reveal the cards into the tableaux, fix the draft
    /// order and deal sanctuaries to the qualifying players.
    fn advance_to_reveal(&mut self)
        requires
            old(self)@.wf(),
            old(self)@.players.len() > 0,
            old(self)@.phase is Choosing,
            ends_ok(old(self)@, after_reveal(old(self)@)),
        ensures
            final(self)@ == after_reveal(old(self)@),
            final(self)@.wf(),
    {
        // Commit played cards to the tableaux.
        self.commit_played();
        let ghost ps = self@.players;
        proof {
            assert(seats_ok(ps));
            lemma_draft_order_seats(ps);
        }
        // Sanctuary eligibility: the card played beats the one before it.
        let eligible_seats = self.eligible_seats();
        // Draft order: ascending number of the cards played.
        let seat_order = self.draft_order_of();
        // The eligible seats, in draft order, so they are dealt in sequence.
        let sanctuary_waiting = keep_listed(&seat_order, &eligible_seats, Ghost(ps));
        proof {
            lemma_keep_eligible_below(seat_order@, ps, ps.len() as int);
        }
        if self.round == 8 {
            self.market.clear();
            if sanctuary_waiting.len() == 0 {
                self.finalize_scores();
                return;
            }
            self.phase = GamePhase::Playing(RoundPhase::Drafting {
                order: seat_order,
                current: 0,
                sanctuary_waiting,
                pending_sanctuaries: HashMap::new(),
                current_has_drafted: true,
            });
            proof {
                assert(choices_view(Map::<usize, Vec<SanctuaryCard>>::empty()) =~= Map::empty());
                lemma_deal_keeps_drafting(self@);
            }
            self.deal_available_sanctuaries();
            self.skip_non_actionable_drafters();
        } else {
            self.phase = GamePhase::Playing(RoundPhase::Drafting {
                order: seat_order,
                current: 0,
                sanctuary_waiting,
                pending_sanctuaries: HashMap::new(),
                current_has_drafted: false,
            });
            proof {
                assert(choices_view(Map::<usize, Vec<SanctuaryCard>>::empty()) =~= Map::empty());
            }
            self.deal_available_sanctuaries();
        }
    }

    /// Deals sanctuary cards to the waiting players, in draft order: full draws
    /// while the deck has enough; only the current drafter takes a partial draw
    /// (whatever is left), since the game cannot move past them; the others wait
    /// for discards.
    fn deal_available_sanctuaries(&mut self)
        requires
            old(self)@.wf(),
        ensures
            final(self)@ == deal(old(self)@),
            final(self)@.wf(),
    {
        loop
            invariant
                self@.wf(),
                deal(self@) == deal(old(self)@),
            decreases waiting_len(self@),
        {
            let ghost g = self@;
            let (seat, clues, is_current) = match &self.phase {
                GamePhase::Playing(RoundPhase::Drafting { order, current, sanctuary_waiting, .. }) => {
                    if sanctuary_waiting.len() > 0 {
                        let seat = sanctuary_waiting[0];
                        (seat, self.clues_of(seat), order[*current] == seat)
                    } else {
                        return;
                    }
                },
                _ => return,
            };
            let deck_size = self.sanctuary_deck.len();
            let anyone_pending = match &self.phase {
                GamePhase::Playing(RoundPhase::Drafting { pending_sanctuaries, .. }) => !pending_sanctuaries.is_empty(),
                _ => false,
            };
            proof {
                lemma_remove_all_len(g.phase->waiting, seat);
            }
            if deck_size == 0 && !anyone_pending {
                // Deck empty and nobody will discard: nobody else can be dealt.
                if let GamePhase::Playing(RoundPhase::Drafting { sanctuary_waiting, .. }) = &mut self.phase {
                    sanctuary_waiting.clear();
                }
                proof {
                    assert(self@.phase->waiting =~= Seq::<usize>::empty());
                }
                return;
            }
            if deck_size == 0 {
                // Deck empty but discards are coming: wait.
                return;
            }
            if (deck_size as u128) <= clues && !is_current {
                // Not enough for a full draw: wait for discards.
                return;
            }
            if let GamePhase::Playing(RoundPhase::Drafting { sanctuary_waiting, .. }) = &mut self.phase {
                let w = without(sanctuary_waiting, seat);
                *sanctuary_waiting = w;
            }
            let choices = self.draw_sanctuary_choices(seat);
            if choices.len() == 1 {
                self.add_sanctuary(seat, choices[0]);
            } else if !choices.is_empty() {
                if let GamePhase::Playing(RoundPhase::Drafting { pending_sanctuaries, .. }) = &mut self.phase {
                    pending_sanctuaries.insert(seat, choices);
                }
            }
            proof {
                let order = g.phase->order;
                let current = g.phase->current;
                let waiting = g.phase->waiting;
                let pending = g.phase->pending;
                let drafted = g.phase->drafted;
                let waiting2 = remove_all(waiting, seat);
                let cs = drawn(g, seat);
                let g2 = after_draw(g, seat);
                assert(cs.len() >= 1);
                let g3 = if cs.len() == 1 {
                    with_phase(
                        give_sanctuary(g2, seat, cs[0]),
                        PhaseModel::Drafting { order, current, waiting: waiting2, pending, drafted },
                    )
                } else {
                    with_phase(
                        g2,
                        PhaseModel::Drafting { order, current, waiting: waiting2, pending: pending.insert(seat, cs), drafted },
                    )
                };
                assert(deal(g) == deal(g3));
                if cs.len() != 1 {
                    assert(self@.phase->pending =~= pending.insert(seat, cs));
                }
                assert(self@.players =~= g3.players);
                assert(self@.phase == g3.phase);
                assert(self@ == g3);
                assert forall|k: int| 0 <= k < waiting2.len() implies #[trigger] waiting2[k] < self@.players.len() by {
                    assert(waiting.contains(waiting2[k]));
                }
            }
        }
    }
}


// ─── Starting a game ─────────────────────────────────────────────────────────

/// The decks that a game with the expansion is played with: the base cards and
/// the expansion cards, each deck shuffled.
pub open spec fn expansion_decks(rd: Seq<RegionCard>, sd: Seq<SanctuaryCard>) -> bool {
    &&& exists|base: Seq<RegionCard>, extra: Seq<RegionCard>|
        is_base_region_deck(base) && is_expansion_region_set(extra) && #[trigger] is_shuffle_of(rd, base + extra)
    &&& exists|base: Seq<SanctuaryCard>, extra: Seq<SanctuaryCard>|
        is_base_sanctuary_deck(base) && is_expansion_sanctuary_set(extra) && #[trigger] is_shuffle_of(sd, base + extra)
}

/// The decks a game starts with: fresh expansion decks when asked for, the
/// room's own decks otherwise.
pub open spec fn decks_in_use(g: GameModel, expansion: bool, rd: Seq<RegionCard>, sd: Seq<SanctuaryCard>) -> bool {
    if expansion {
        expansion_decks(rd, sd)
    } else {
        rd == g.region_deck && sd == g.sanctuary_deck
    }
}

impl GameState {
    /// Starts the game: deals 3 cards to each player (5 to choose from in the
    /// advanced variant) and reveals the market. A deck too small for the
    /// whole deal leaves the room as it was.
    pub fn start_game(&mut self, seat: usize, advanced: bool, expansion: bool) -> (r: Result<(), ActionError>)
        requires
            old(self)@.wf(),
        ensures
            start_refusal(old(self)@, seat) matches Some(e) ==> r == Err::<(), ActionError>(e) && final(self)@ == old(self)@,
            start_refusal(old(self)@, seat) is None ==> exists|rd: Seq<RegionCard>, sd: Seq<SanctuaryCard>|
                #[trigger] decks_in_use(old(self)@, expansion, rd, sd)
                && (r, final(self)@) == spec_deal_start(old(self)@, rd, sd, advanced),
            final(self)@.wf(),
    {
        let ghost g0 = self@;
        if seat != 0 {
            return Err(ActionError::NotYourTurn);
        }
        match &self.phase {
            GamePhase::WaitingForPlayers { .. } => {},
            _ => return Err(ActionError::GameAlreadyStarted),
        }
        if self.players.len() == 0 {
            return Err(ActionError::NotEnoughPlayers);
        }
        let n = self.players.len();
        let (fresh_rd, fresh_sd): (Option<Vec<RegionCard>>, Option<Vec<SanctuaryCard>>) = if expansion {
            (Some(get_region_deck_with_expansion()), Some(get_sanctuary_deck_with_expansion()))
        } else {
            (None, None)
        };
        let ghost rd = if fresh_rd is Some { fresh_rd->0@ } else { g0.region_deck };
        let ghost sd = if fresh_sd is Some { fresh_sd->0@ } else { g0.sanctuary_deck };
        let deck_len = match &fresh_rd {
            Some(d) => d.len(),
            None => self.region_deck.len(),
        };
        let needed: u128 = if advanced { 5 * (n as u128) } else { 4 * (n as u128) + 1 };
        proof {
            assert(decks_in_use(g0, expansion, rd, sd));
            assert(deck_len == rd.len());
        }
        if (deck_len as u128) < needed {
            return Err(ActionError::DeckEmpty);
        }
        // The player count is locked in to however many joined.
        self.player_count = n;
        if let Some(d) = fresh_rd {
            self.region_deck = d;
        }
        if let Some(d) = fresh_sd {
            self.sanctuary_deck = d;
        }
        proof {
            assert(self@ == GameModel { player_count: n, region_deck: rd, sanctuary_deck: sd, ..g0 });
        }
        if advanced {
            self.deal_setup_hands();
        } else {
            self.begin_normal_start();
        }
        Ok(())
    }

    /// Advanced variant: five cards to each player, who must keep three.
    fn deal_setup_hands(&mut self)
        requires
            old(self)@.wf(),
            old(self)@.phase is Waiting,
            old(self)@.player_count == old(self)@.players.len(),
            old(self)@.region_deck.len() >= 5 * old(self)@.players.len(),
        ensures
            final(self)@ == spec_deal_start(old(self)@, old(self)@.region_deck, old(self)@.sanctuary_deck, true).1,
            final(self)@.wf(),
    {
        let ghost deck0 = self.region_deck@;
        let n = self.players.len();
        let mut pending: HashMap<usize, Vec<RegionCard>> = HashMap::new();
        let mut i: usize = 0;
        while i < n
            invariant
                old(self)@.wf(),
                old(self)@.player_count == old(self)@.players.len(),
                deck0 == old(self)@.region_deck,
                n == self.players.len(),
                i <= n,
                5 * i <= deck0.len(),
                5 * n <= deck0.len(),
                self.region_deck@ == rest(deck0, 5 * i),
                hands_view(pending@) == setup_hands(i as int, deck0),
                seats_ok(self@.players),
                self.phase == old(self).phase,
                self.round == old(self).round,
                self.players == old(self).players,
                self.sanctuary_deck == old(self).sanctuary_deck,
                self.market == old(self).market,
                self.player_count == old(self).player_count,
            decreases n - i,
        {
            let mut dealt: Vec<RegionCard> = Vec::new();
            let mut j: usize = 0;
            while j < 5
                invariant
                    old(self)@.wf(),
                    old(self)@.player_count == old(self)@.players.len(),
                    deck0 == old(self)@.region_deck,
                    n == self.players.len(),
                    i < n,
                    j <= 5,
                    5 * i + j <= deck0.len(),
                    5 * n <= deck0.len(),
                    self.region_deck@ == rest(deck0, 5 * i + j),
                    dealt@ == top(rest(deck0, 5 * i), j as int),
                    self.phase == old(self).phase,
                    self.round == old(self).round,
                    self.players == old(self).players,
                    self.sanctuary_deck == old(self).sanctuary_deck,
                    self.market == old(self).market,
                    self.player_count == old(self).player_count,
                decreases 5 - j,
            {
                let card = self.region_deck.pop().unwrap();
                dealt.push(card);
                proof {
                    assert(dealt@ =~= top(rest(deck0, 5 * i), j + 1));
                    assert(self.region_deck@ =~= rest(deck0, 5 * i + j + 1));
                }
                j = j + 1;
            }
            let seat = self.players[i].seat;
            proof {
                assert(self@.players[i as int].seat == i);
            }
            let ghost before = pending@;
            pending.insert(seat, dealt);
            proof {
                assert(pending@ == before.insert(i, dealt));
                assert forall|s: usize| #[trigger] hands_view(pending@).contains_key(s) == setup_hands(i + 1, deck0).contains_key(s) by {
                    assert(hands_view(before).contains_key(s) == setup_hands(i as int, deck0).contains_key(s));
                }
                assert forall|s: usize| #[trigger] setup_hands(i + 1, deck0).contains_key(s)
                    implies hands_view(pending@)[s] == setup_hands(i + 1, deck0)[s] by {
                    if s != i {
                        assert(hands_view(before).contains_key(s));
                        assert(hands_view(before)[s] == setup_hands(i as int, deck0)[s]);
                    }
                }
                assert(hands_view(pending@) =~= setup_hands(i + 1, deck0));
            }
            i = i + 1;
        }
        self.phase = GamePhase::AdvancedSetup { pending };
        proof {
            assert(self@.phase == (PhaseModel::Setup { hands: setup_hands(n as int, deck0) }));
        }
    }

    /// Deals 3 cards per player, then reveals the market and starts round 1.
    fn begin_normal_start(&mut self)
        requires
            old(self)@.wf(),
            old(self)@.phase is Waiting,
            old(self)@.player_count == old(self)@.players.len(),
            old(self)@.region_deck.len() >= 4 * old(self)@.players.len() + 1,
        ensures
            final(self)@ == spec_deal_start(old(self)@, old(self)@.region_deck, old(self)@.sanctuary_deck, false).1,
            final(self)@.wf(),
    {
        let ghost deck0 = self.region_deck@;
        let ghost ps0 = self@.players;
        let ghost dealt = dealt_hands(ps0, deck0);
        let n = self.players.len();
        let mut i: usize = 0;
        while i < n
            invariant
                old(self)@.wf(),
                old(self)@.player_count == old(self)@.players.len(),
                ps0 == old(self)@.players,
                deck0 == old(self)@.region_deck,
                n == self.players.len(),
                n == ps0.len(),
                dealt == dealt_hands(ps0, deck0),
                i <= n,
                4 * n + 1 <= deck0.len(),
                self.region_deck@ == rest(deck0, 3 * i),
                forall|k: int| 0 <= k < n ==> #[trigger] self@.players[k] == (if k < i { dealt[k] } else { ps0[k] }),
                self.phase == old(self).phase,
                self.round == old(self).round,
                self.sanctuary_deck == old(self).sanctuary_deck,
                self.market == old(self).market,
                self.player_count == old(self).player_count,
            decreases n - i,
        {
            let ghost prev = self.players@;
            proof {
                assert(self@.players[i as int] == ps0[i as int]);
            }
            let mut p = self.players.remove(i);
            proof {
                assert(p@ == ps0[i as int]);
            }
            let mut j: usize = 0;
            while j < 3
                invariant
                    old(self)@.wf(),
                    old(self)@.player_count == old(self)@.players.len(),
                    ps0 == old(self)@.players,
                    deck0 == old(self)@.region_deck,
                    forall|k: int| 0 <= k < n ==> #[trigger] players_view(prev)[k] == (if k < i { dealt[k] } else { ps0[k] }),
                    dealt == dealt_hands(ps0, deck0),
                    n == ps0.len(),
                    prev.len() == n,
                    i < n,
                    j <= 3,
                    4 * n + 1 <= deck0.len(),
                    self.region_deck@ == rest(deck0, 3 * i + j),
                    p@ == (PlayerModel { hand: ps0[i as int].hand + top(rest(deck0, 3 * i), j as int), ..ps0[i as int] }),
                    self.players@ == prev.remove(i as int),
                    self.phase == old(self).phase,
                    self.round == old(self).round,
                    self.sanctuary_deck == old(self).sanctuary_deck,
                    self.market == old(self).market,
                    self.player_count == old(self).player_count,
                decreases 3 - j,
            {
                let card = self.region_deck.pop().unwrap();
                p.hand.push(card);
                proof {
                    assert(p.hand@ =~= ps0[i as int].hand + top(rest(deck0, 3 * i), j + 1));
                    assert(self.region_deck@ =~= rest(deck0, 3 * i + j + 1));
                }
                j = j + 1;
            }
            self.players.insert(i, p);
            proof {
                assert(self.players@ =~= prev.update(i as int, p));
                assert(p@ == dealt[i as int]);
                assert forall|k: int| 0 <= k < n implies #[trigger] self@.players[k] == (if k < i + 1 { dealt[k] } else { ps0[k] }) by {
                    if k != i {
                        assert(self@.players[k] == players_view(prev)[k]);
                    }
                }
            }
            i = i + 1;
        }
        proof {
            assert(self@.players =~= dealt);
            assert(seats_ok(dealt));
        }
        self.begin_round_1();
    }

    /// Reveals the market (player count + 1 cards) and starts round 1.
    fn begin_round_1(&mut self)
        requires
            old(self)@.wf(),
            old(self)@.region_deck.len() >= old(self)@.player_count + 1,
        ensures
            final(self)@ == spec_round_1(old(self)@).1,
            final(self)@.wf(),
    {
        let ghost deck0 = self.region_deck@;
        let ghost market0 = self.market@;
        assert(self.player_count < self.region_deck.len());
        let k: usize = self.player_count + 1;
        let mut i: usize = 0;
        while i < k
            invariant
                k <= deck0.len(),
                i <= k,
                self.market@ == market0 + top(deck0, i as int),
                self.region_deck@ == rest(deck0, i as int),
                self.phase == old(self).phase,
                self.players == old(self).players,
                self.sanctuary_deck == old(self).sanctuary_deck,
                self.player_count == old(self).player_count,
                self.round == old(self).round,
            decreases k - i,
        {
            let card = self.region_deck.pop().unwrap();
            self.market.push(card);
            proof {
                assert(self.market@ =~= market0 + top(deck0, i + 1));
                assert(self.region_deck@ =~= rest(deck0, i + 1));
            }
            i = i + 1;
        }
        self.round = 1;
        self.phase = GamePhase::Playing(RoundPhase::ChoosingCards);
    }
}


impl GameState {
    /// Advanced variant: a player keeps exactly 3 of their 5 dealt cards, by
    /// position. The other two are shuffled back into the region deck; once
    /// every player has chosen, the market is revealed and round 1 starts.
    pub fn keep_cards(&mut self, seat: usize, indices: &[usize; 3]) -> (r: Result<(), ActionError>)
        requires
            old(self)@.wf(),
        ensures
            exists|deck: Seq<RegionCard>|
                #[trigger] is_shuffle_of(deck, setup_discards(old(self)@, seat, indices@) + old(self)@.region_deck)
                && (r, final(self)@) == spec_keep_cards(old(self)@, seat, indices@, deck),
            final(self)@.wf(),
    {
        let ghost g0 = self@;
        let ghost ix = indices@;
        let ghost same = setup_discards(g0, seat, ix) + g0.region_deck;
        proof {
            assert(is_shuffle_of(same, same));
        }
        let present = match &self.phase {
            GamePhase::AdvancedSetup { pending } => pending.contains_key(&seat),
            _ => return Err(ActionError::WrongPhase),
        };
        if !present {
            return Err(ActionError::NotYourTurn);
        }
        let dealt = match &mut self.phase {
            GamePhase::AdvancedSetup { pending } => pending.remove(&seat).unwrap(),
            _ => return Err(ActionError::WrongPhase),
        };
        let a = indices[0];
        let b = indices[1];
        let c = indices[2];
        let n = dealt.len();
        if a >= n || b >= n || c >= n || a == b || a == c || b == c {
            // Put the cards back so the player can retry.
            if let GamePhase::AdvancedSetup { pending } = &mut self.phase {
                pending.insert(seat, dealt);
            }
            proof {
                assert(self@.phase->hands =~= g0.phase->hands);
                assert(self@.phase == g0.phase);
            }
            return Err(ActionError::InvalidCardIndex);
        }
        proof {
            assert(indices_ok(ix, n as int));
            assert(self@.phase->hands =~= g0.phase->hands.remove(seat));
        }
        if seat >= self.players.len() {
            if let GamePhase::AdvancedSetup { pending } = &mut self.phase {
                pending.insert(seat, dealt);
            }
            proof {
                assert(self@.phase->hands =~= g0.phase->hands);
                assert(self@.phase == g0.phase);
            }
            return Err(ActionError::InvalidSeat);
        }
        // Separate the kept cards from the discarded ones.
        let kept = vec![dealt[a], dealt[b], dealt[c]];
        let mut discarded: Vec<RegionCard> = Vec::new();
        let mut k: usize = 0;
        while k < n
            invariant
                n == dealt.len(),
                k <= n,
                ix == indices@,
                ix.len() == 3,
                a == ix[0] && b == ix[1] && c == ix[2],
                discarded@ == discarded_cards(dealt@.take(k as int), ix),
            decreases n - k,
        {
            proof {
                assert(dealt@.take(k + 1).drop_last() =~= dealt@.take(k as int));
                assert(ix.contains(k as usize) <==> (k == a || k == b || k == c)) by {
                    if k == a {
                        assert(ix[0] == k);
                    }
                    if k == b {
                        assert(ix[1] == k);
                    }
                    if k == c {
                        assert(ix[2] == k);
                    }
                }
            }
            if k != a && k != b && k != c {
                discarded.push(dealt[k]);
            }
            k = k + 1;
        }
        proof {
            assert(dealt@.take(n as int) =~= dealt@);
        }
        // The last choice reveals the market: refuse it, changing nothing,
        // when the deck cannot fill the market.
        let last = match &self.phase {
            GamePhase::AdvancedSetup { pending } => pending.is_empty(),
            _ => false,
        };
        if last && (discarded.len() as u128) + (self.region_deck.len() as u128) < (self.player_count as u128) + 1 {
            if let GamePhase::AdvancedSetup { pending } = &mut self.phase {
                pending.insert(seat, dealt);
            }
            proof {
                assert(self@.phase->hands =~= g0.phase->hands);
                assert(self@.phase == g0.phase);
                assert(setup_discards(g0, seat, ix) == discarded_cards(dealt@, ix));
            }
            return Err(ActionError::DeckEmpty);
        }
        // The player takes their three kept cards.
        let ghost before = self.players@;
        let mut p = self.players.remove(seat);
        p.hand = kept;
        self.players.insert(seat, p);
        proof {
            assert(self.players@ =~= before.update(seat as int, p));
            assert(players_view(self.players@) =~= players_view(before).update(seat as int, p@));
        }
        // The discards go back into the deck, which is shuffled.
        let mut deck_with_discards = discarded;
        deck_with_discards.append(&mut self.region_deck);
        let ghost joined = deck_with_discards@;
        self.region_deck = shuffled(deck_with_discards);
        let ghost deck = self.region_deck@;
        let all_done = match &self.phase {
            GamePhase::AdvancedSetup { pending } => pending.is_empty(),
            _ => false,
        };
        proof {
            let hands = g0.phase->hands;
            assert(hands[seat] == dealt@);
            assert(kept@ =~= kept_cards(dealt@, ix));
            assert(setup_discards(g0, seat, ix) == discarded_cards(dealt@, ix));
            assert(joined == same);
            assert(is_shuffle_of(deck, same));
            let p0 = g0.players[seat as int];
            let g2 = GameModel {
                players: g0.players.update(seat as int, PlayerModel { hand: kept_cards(hands[seat], ix), ..p0 }),
                region_deck: deck,
                ..with_phase(g0, PhaseModel::Setup { hands: hands.remove(seat) })
            };
            assert(self@.players =~= g2.players);
            assert(self@ == g2);
            assert(all_done == hands.remove(seat).is_empty());
        }
        if all_done {
            proof {
                deck.to_multiset_ensures();
                same.to_multiset_ensures();
                assert(deck.len() == same.len());
            }
            self.begin_round_1();
        }
        Ok(())
    }
}


/// Puts every card of a draw but the chosen one at the bottom of the deck, one
/// after the other.
pub(crate) fn return_to_bottom(deck: &mut Vec<SanctuaryCard>, choices: &Vec<SanctuaryCard>, k: usize)
    requires
        k < choices.len(),
    ensures
        final(deck)@ == returned_to_bottom(old(deck)@, choices@, k as int),
{
    let ghost deck0 = deck@;
    let mut i: usize = 0;
    while i < choices.len()
        invariant
            i <= choices.len(),
            k < choices.len(),
            deck@ == (if k < i { choices@.take(i as int).remove(k as int) } else { choices@.take(i as int) }).reverse()
                + deck0,
        decreases choices.len() - i,
    {
        if i != k {
            deck.insert(0, choices[i]);
        }
        proof {
            let pre = if k < i { choices@.take(i as int).remove(k as int) } else { choices@.take(i as int) };
            let post = if k < i + 1 { choices@.take(i + 1).remove(k as int) } else { choices@.take(i + 1) };
            if i != k {
                assert(post =~= pre.push(choices@[i as int]));
                assert(post.reverse() =~= seq![choices@[i as int]] + pre.reverse());
                assert(deck@ =~= post.reverse() + deck0);
            } else {
                assert(post =~= pre);
            }
        }
        i = i + 1;
    }
    proof {
        assert(choices@.take(choices.len() as int) =~= choices@);
    }
}

/// The cards of `v` from position `from` up to `to`, copied.
pub(crate) fn copy_range<T: Copy>(v: &Vec<T>, from: usize, to: usize) -> (r: Vec<T>)
    requires
        from <= to <= v.len(),
    ensures
        r@ == v@.subrange(from as int, to as int),
{
    let mut r: Vec<T> = Vec::new();
    let mut i = from;
    while i < to
        invariant
            from <= i <= to,
            to <= v.len(),
            r@ == v@.subrange(from as int, i as int),
        decreases to - i,
    {
        r.push(v[i]);
        proof {
            assert(r@ =~= v@.subrange(from as int, i + 1));
        }
        i = i + 1;
    }
    r
}

impl GameState {
    /// A finished two-player demo game, scored, built from freshly shuffled decks.
    pub fn new_demo() -> (r: Self)
        ensures
            exists|rd: Seq<RegionCard>, sd: Seq<SanctuaryCard>|
                #[trigger] demo_game(rd, sd) == r@
                && (exists|base: Seq<RegionCard>| is_base_region_deck(base) && #[trigger] is_shuffle_of(rd, base))
                && (exists|base: Seq<SanctuaryCard>| is_base_sanctuary_deck(base) && #[trigger] is_shuffle_of(sd, base)),
            r@.wf(),
    {
        let region_deck = get_region_deck();
        let sanctuary_deck = get_sanctuary_deck();
        let ghost rd = region_deck@;
        let ghost sd = sanctuary_deck@;
        proof {
            let rb = choose|base: Seq<RegionCard>| is_base_region_deck(base) && #[trigger] is_shuffle_of(rd, base);
            lemma_shuffled_regions_bounded(rd, rb);
            let sb = choose|base: Seq<SanctuaryCard>| is_base_sanctuary_deck(base) && #[trigger] is_shuffle_of(sd, base);
            lemma_shuffled_sanctuaries_bounded(sd, sb);
        }
        // Alice gets the first 8 region cards, Bob the next 8; two sanctuaries each.
        let mut alice = PlayerState::new(0, String::from_str("Alice"));
        alice.tableau = copy_range(&region_deck, 0, 8);
        alice.sanctuaries = copy_range(&sanctuary_deck, 0, 2);
        let mut bob = PlayerState::new(1, String::from_str("Bob"));
        bob.tableau = copy_range(&region_deck, 8, 16);
        bob.sanctuaries = copy_range(&sanctuary_deck, 2, 4);
        let mut gs = GameState {
            phase: GamePhase::WaitingForPlayers { needed: 2 },
            round: 8,
            players: vec![alice, bob],
            region_deck: Vec::new(),
            sanctuary_deck: Vec::new(),
            market: Vec::new(),
            player_count: 2,
        };
        proof {
            let ps = gs@.players;
            assert(ps[0] == demo_player(0, "Alice"@, rd.subrange(0, 8), sd.subrange(0, 2)));
            assert(ps[1] == demo_player(1, "Bob"@, rd.subrange(8, 16), sd.subrange(2, 4)));
            assert forall|i: int| 0 <= i < ps.len() implies {
                &&& player_fits(#[trigger] ps[i].tableau, ps[i].sanctuaries)
                &&& final_score(ps[i].tableau, ps[i].sanctuaries) <= u32::MAX
                &&& number_sum(ps[i].tableau) <= u32::MAX
            } by {
                assert(cards_bounded(ps[i].tableau, ps[i].sanctuaries)) by {
                    if i == 0 {
                        assert forall|k: int| 0 <= k < 8 implies region_bounded(#[trigger] rd.subrange(0, 8)[k]) by {
                            assert(rd.subrange(0, 8)[k] == rd[k]);
                        }
                        assert forall|k: int| 0 <= k < 2 implies sanctuary_bounded(#[trigger] sd.subrange(0, 2)[k]) by {
                            assert(sd.subrange(0, 2)[k] == sd[k]);
                        }
                    } else {
                        assert forall|k: int| 0 <= k < 8 implies region_bounded(#[trigger] rd.subrange(8, 16)[k]) by {
                            assert(rd.subrange(8, 16)[k] == rd[k + 8]);
                        }
                        assert forall|k: int| 0 <= k < 2 implies sanctuary_bounded(#[trigger] sd.subrange(2, 4)[k]) by {
                            assert(sd.subrange(2, 4)[k] == sd[k + 2]);
                        }
                    }
                }
                law_game_cards_fit(ps[i].tableau, ps[i].sanctuaries);
                lemma_number_sum_bound(ps[i].tableau);
            }
            assert(can_score(ps));
            assert(ps =~= seq![
                demo_player(0, "Alice"@, rd.subrange(0, 8), sd.subrange(0, 2)),
                demo_player(1, "Bob"@, rd.subrange(8, 16), sd.subrange(2, 4)),
            ]);
            assert(gs@.region_deck =~= Seq::<RegionCard>::empty());
            assert(gs@.sanctuary_deck =~= Seq::<SanctuaryCard>::empty());
            assert(gs@.market =~= Seq::<RegionCard>::empty());
        }
        gs.finalize_scores();
        proof {
            assert(demo_game(rd, sd) == gs@);
            let rb = choose|base: Seq<RegionCard>| is_base_region_deck(base) && #[trigger] is_shuffle_of(rd, base);
            let sb = choose|base: Seq<SanctuaryCard>| is_base_sanctuary_deck(base) && #[trigger] is_shuffle_of(sd, base);
            assert(is_base_region_deck(rb) && is_shuffle_of(rd, rb));
            assert(is_base_sanctuary_deck(sb) && is_shuffle_of(sd, sb));
        }
        gs
    }
}


// ─── Client-facing snapshot ──────────────────────────────────────────────────

/// What one player is sent of the game.
#[derive(Debug, Clone)]
pub struct ClientGameState {
    pub phase: ClientPhase,
    pub round: u8,
    pub my_seat: usize,
    pub my_hand: Vec<RegionCard>,
    pub players: Vec<ClientPlayerState>,
    pub market: Vec<RegionCard>,
    pub deck_size: usize,
    pub sanctuary_deck_size: usize,
    pub draft_order: Vec<usize>,
    pub current_drafter: Option<usize>,
    /// True when the current drafter has drafted and must choose a sanctuary.
    pub drafter_choosing_sanctuary: bool,
    /// Present only during the advanced setup, for this player (the 5 dealt cards).
    pub advanced_setup_choices: Option<Vec<RegionCard>>,
    /// Present when this player has sanctuaries to choose from (any time while drafting).
    pub sanctuary_choices: Option<Vec<SanctuaryCard>>,
    pub scores: Option<Vec<PlayerScore>>,
    /// Per-card score breakdown for this player only, once they have a card down.
    pub my_score_detail: Option<Vec<CardScoreEntry>>,
    /// Per-card score breakdown for every player, once the game is over.
    pub all_score_details: Option<Vec<PlayerScoreDetail>>,
    /// The card this player played this round (face up to them only, before the reveal).
    pub my_played_card: Option<RegionCard>,
    pub player_count: usize,
}

/// What everyone sees of a player.
#[derive(Debug, Clone)]
pub struct ClientPlayerState {
    pub seat: usize,
    pub name: String,
    pub hand_size: usize,
    pub tableau: Vec<RegionCard>,
    pub sanctuaries: Vec<SanctuaryCard>,
    pub played_this_round: bool,
}

#[derive(Debug, Clone, Copy, PartialEq, Eq, Structural)]
pub enum ClientPhase {
    WaitingForPlayers,
    AdvancedSetup,
    ChoosingCards,
    Drafting,
    GameOver,
}

pub open spec fn client_phase(p: PhaseModel) -> ClientPhase {
    match p {
        PhaseModel::Waiting { .. } => ClientPhase::WaitingForPlayers,
        PhaseModel::Setup { .. } => ClientPhase::AdvancedSetup,
        PhaseModel::Choosing => ClientPhase::ChoosingCards,
        PhaseModel::Drafting { .. } => ClientPhase::Drafting,
        PhaseModel::Over { .. } => ClientPhase::GameOver,
    }
}

pub open spec fn opt_view<T>(o: Option<Vec<T>>) -> Option<Seq<T>> {
    match o {
        Some(v) => Some(v@),
        None => None,
    }
}

/// The public face of a player: everything but the cards in hand and the card
/// played face down.
pub open spec fn shows_player(c: ClientPlayerState, p: PlayerModel) -> bool {
    &&& c.seat == p.seat
    &&& c.name@ == p.name
    &&& c.hand_size == p.hand.len()
    &&& c.tableau@ == p.tableau
    &&& c.sanctuaries@ == p.sanctuaries
    &&& c.played_this_round == p.played is Some
}

/// A player's line of the final scoring table.
pub open spec fn shows_detail(d: PlayerScoreDetail, p: PlayerModel) -> bool {
    &&& d.seat == p.seat
    &&& d.name@ == p.name
    &&& is_breakdown(d.entries@, p.tableau, p.sanctuaries)
    &&& d.total == final_score(p.tableau, p.sanctuaries)
}

/// A player shows a live score once they have a card down (played or revealed).
pub open spec fn has_card_down(p: PlayerModel) -> bool {
    p.tableau.len() > 0 || p.played is Some
}

/// The scores shown stay within 32 bits: the player's own live breakdown, and
/// everyone's when the game is over.
pub open spec fn view_fits(g: GameModel, my_seat: usize) -> bool {
    &&& my_seat < g.players.len() ==> player_fits(commit(g.players[my_seat as int]).tableau, g.players[my_seat as int].sanctuaries)
    &&& g.phase is Over ==> forall|i: int|
        0 <= i < g.players.len() ==> {
            &&& player_fits(#[trigger] g.players[i].tableau, g.players[i].sanctuaries)
            &&& final_score(g.players[i].tableau, g.players[i].sanctuaries) <= u32::MAX
        }
}

/// The draft order shown: the order of the draft while drafting.
pub open spec fn shown_order(p: PhaseModel) -> Seq<usize> {
    match p {
        PhaseModel::Drafting { order, .. } => order,
        _ => Seq::empty(),
    }
}

/// The drafter shown: whose turn it is while drafting.
pub open spec fn shown_drafter(p: PhaseModel) -> Option<usize> {
    match p {
        PhaseModel::Drafting { order, current, .. } => if current < order.len() {
            Some(order[current as int])
        } else {
            None
        },
        _ => None,
    }
}

/// The five cards a seat is shown to choose from during the advanced setup.
pub open spec fn shown_setup(p: PhaseModel, seat: usize) -> Option<Seq<RegionCard>> {
    match p {
        PhaseModel::Setup { hands } => if hands.contains_key(seat) { Some(hands[seat]) } else { None },
        _ => None,
    }
}

/// The sanctuaries a seat is shown to choose from while drafting.
pub open spec fn shown_choices(p: PhaseModel, seat: usize) -> Option<Seq<SanctuaryCard>> {
    match p {
        PhaseModel::Drafting { pending, .. } => if pending.contains_key(seat) { Some(pending[seat]) } else { None },
        _ => None,
    }
}

/// What `to_client_state` shows seat `my_seat` of the game `g`: the public
/// face of every player, the market and the sizes of the decks, and only this
/// player's own hand, played card, choices and live score.
pub open spec fn is_client_view(r: ClientGameState, g: GameModel, my_seat: usize) -> bool {
    &&& r.phase == client_phase(g.phase)
    &&& r.round == g.round
    &&& r.my_seat == my_seat
    &&& r.my_hand@ == (if my_seat < g.players.len() { g.players[my_seat as int].hand } else { Seq::empty() })
    &&& r.players@.len() == g.players.len()
    &&& forall|i: int| 0 <= i < g.players.len() ==> shows_player(#[trigger] r.players@[i], g.players[i])
    &&& r.market@ == g.market
    &&& r.deck_size == g.region_deck.len()
    &&& r.sanctuary_deck_size == g.sanctuary_deck.len()
    &&& r.draft_order@ == shown_order(g.phase)
    &&& r.current_drafter == shown_drafter(g.phase)
    &&& r.drafter_choosing_sanctuary == (g.phase matches PhaseModel::Drafting { drafted, .. } && drafted)
    &&& opt_view(r.advanced_setup_choices) == shown_setup(g.phase, my_seat)
    &&& opt_view(r.sanctuary_choices) == shown_choices(g.phase, my_seat)
    &&& match r.scores {
        Some(v) => g.phase matches PhaseModel::Over { scores } && scores_view(v@) == scores,
        None => !(g.phase is Over),
    }
    &&& match r.my_score_detail {
        Some(es) => my_seat < g.players.len() && has_card_down(g.players[my_seat as int]) && is_breakdown(
            es@,
            commit(g.players[my_seat as int]).tableau,
            g.players[my_seat as int].sanctuaries,
        ),
        None => !(my_seat < g.players.len() && has_card_down(g.players[my_seat as int])),
    }
    &&& match r.all_score_details {
        Some(ds) => g.phase is Over && ds@.len() == g.players.len() && forall|i: int|
            0 <= i < g.players.len() ==> shows_detail(#[trigger] ds@[i], g.players[i]),
        None => !(g.phase is Over),
    }
    &&& r.my_played_card == (if my_seat < g.players.len() { g.players[my_seat as int].played } else { None })
    &&& r.player_count == g.player_count
}

/// The cards a snapshot scores are of the game's kind, at most 100 per player:
/// this player's (with the card played face down), and everyone's once the
/// game is over.
pub open spec fn view_cards_within(g: GameModel, my_seat: usize) -> bool {
    &&& my_seat < g.players.len() ==> cards_within(
        commit(g.players[my_seat as int]).tableau,
        g.players[my_seat as int].sanctuaries,
    )
    &&& g.phase is Over ==> forall|i: int|
        0 <= i < g.players.len() ==> cards_within(#[trigger] g.players[i].tableau, g.players[i].sanctuaries)
}

impl GameState {
    /// Whether the snapshot for `my_seat` can be made: the cards it scores are
    /// of the game's kind and few enough to be scored within 32 bits.
    pub fn view_fits_check(&self, my_seat: usize) -> (r: bool)
        ensures
            r == view_cards_within(self@, my_seat),
            r ==> view_fits(self@, my_seat),
    {
        if my_seat < self.players.len() {
            let p = &self.players[my_seat];
            let ok = cards_fit(&p.tableau, p.played_this_round, &p.sanctuaries);
            proof {
                assert(p@ == self@.players[my_seat as int]);
            }
            if !ok {
                return false;
            }
        }
        let over = match &self.phase {
            GamePhase::GameOver { .. } => true,
            _ => false,
        };
        if over {
            let mut i: usize = 0;
            while i < self.players.len()
                invariant
                    i <= self.players.len(),
                    self@.phase is Over,
                    forall|k: int| 0 <= k < i ==> {
                        &&& cards_within(#[trigger] self@.players[k].tableau, self@.players[k].sanctuaries)
                        &&& player_fits(self@.players[k].tableau, self@.players[k].sanctuaries)
                        &&& final_score(self@.players[k].tableau, self@.players[k].sanctuaries) <= u32::MAX
                    },
                decreases self.players.len() - i,
            {
                let p = &self.players[i];
                let ok = cards_fit(&p.tableau, None, &p.sanctuaries);
                proof {
                    assert(p@ == self@.players[i as int]);
                }
                if !ok {
                    proof {
                        assert(!cards_within(self@.players[i as int].tableau, self@.players[i as int].sanctuaries));
                    }
                    return false;
                }
                i = i + 1;
            }
        }
        true
    }
}

/// Every player's cards are of the game's kind, at most 100 of them.
pub open spec fn players_within(ps: Seq<PlayerModel>) -> bool {
    forall|i: int| 0 <= i < ps.len() ==> cards_within(#[trigger] ps[i].tableau, ps[i].sanctuaries)
}

impl GameState {
    /// Whether every player's final score and tiebreaker can be computed: the
    /// cards in front of each player are of the game's kind, at most 100.
    pub fn scores_fit_check(&self) -> (r: bool)
        ensures
            r == players_within(self@.players),
            r ==> can_score(self@.players),
    {
        let mut i: usize = 0;
        while i < self.players.len()
            invariant
                i <= self.players.len(),
                forall|k: int| 0 <= k < i ==> cards_within(#[trigger] self@.players[k].tableau, self@.players[k].sanctuaries),
            decreases self.players.len() - i,
        {
            let p = &self.players[i];
            let ok = cards_fit(&p.tableau, None, &p.sanctuaries);
            proof {
                assert(p@ == self@.players[i as int]);
            }
            if !ok {
                proof {
                    assert(!cards_within(self@.players[i as int].tableau, self@.players[i as int].sanctuaries));
                }
                return false;
            }
            i = i + 1;
        }
        proof {
            crate::laws::law_game_cards_can_score(self@.players);
        }
        true
    }
}

pub(crate) fn region_cards_ok(v: &Vec<RegionCard>) -> (r: bool)
    ensures
        r == crate::laws::regions_bounded(v@),
{
    let mut i: usize = 0;
    while i < v.len()
        invariant
            i <= v.len(),
            forall|k: int| 0 <= k < i ==> region_bounded(#[trigger] v@[k]),
        decreases v.len() - i,
    {
        if !(wonders_ok(&v[i].wonders) && fame_ok(&v[i].fame)) {
            return false;
        }
        i = i + 1;
    }
    true
}

pub(crate) fn sanctuary_cards_ok(v: &Vec<SanctuaryCard>) -> (r: bool)
    ensures
        r == crate::laws::sanctuaries_bounded(v@),
{
    let mut i: usize = 0;
    while i < v.len()
        invariant
            i <= v.len(),
            forall|k: int| 0 <= k < i ==> sanctuary_bounded(#[trigger] v@[k]),
        decreases v.len() - i,
    {
        if !(wonders_ok(&v[i].wonders) && fame_ok(&v[i].fame)) {
            return false;
        }
        i = i + 1;
    }
    true
}

impl GameState {
    /// Whether every action can be taken now: each player's cards are of the
    /// game's kind with room for one more region and one more sanctuary within
    /// 100 cards, and so are the sanctuary deck and the draws waiting for a
    /// choice. When it holds, `apply_action` may be called with any action.
    pub fn room_to_finish_check(&self) -> (r: bool)
        requires
            self@.wf(),
        ensures
            r == crate::laws::room_to_finish(self@),
            r ==> forall|seat: usize, a: ClientAction| #[trigger] action_fits(self@, seat, a),
    {
        let mut i: usize = 0;
        while i < self.players.len()
            invariant
                i <= self.players.len(),
                forall|k: int| 0 <= k < i ==> crate::laws::player_room(#[trigger] self@.players[k]),
            decreases self.players.len() - i,
        {
            let p = &self.players[i];
            proof {
                assert(p@ == self@.players[i as int]);
            }
            let played_ok = match &p.played_this_round {
                Some(c) => wonders_ok(&c.wonders) && fame_ok(&c.fame),
                None => true,
            };
            let ok = region_cards_ok(&p.tableau) && region_cards_ok(&p.hand) && sanctuary_cards_ok(&p.sanctuaries)
                && played_ok && p.tableau.len() <= 98 && p.sanctuaries.len() <= 98 - p.tableau.len();
            if !ok {
                proof {
                    assert(!crate::laws::player_room(self@.players[i as int]));
                }
                return false;
            }
            i = i + 1;
        }
        if !sanctuary_cards_ok(&self.sanctuary_deck) {
            return false;
        }
        if let GamePhase::Playing(RoundPhase::Drafting { pending_sanctuaries, .. }) = &self.phase {
            let mut s: usize = 0;
            while s < self.players.len()
                invariant
                    s <= self.players.len(),
                    self@.wf(),
                    self@.phase is Drafting,
                    self@.phase->pending == choices_view(pending_sanctuaries@),
                    forall|t: usize| t < s && #[trigger] self@.phase->pending.contains_key(t)
                        ==> crate::laws::sanctuaries_bounded(self@.phase->pending[t]),
                decreases self.players.len() - s,
            {
                match pending_sanctuaries.get(&s) {
                    Some(v) => {
                        if !sanctuary_cards_ok(v) {
                            proof {
                                assert(self@.phase->pending.contains_key(s));
                                assert(self@.phase->pending[s] == v@);
                            }
                            return false;
                        }
                    },
                    None => {},
                }
                s = s + 1;
            }
        }
        proof {
            assert(crate::laws::room_to_finish(self@));
            assert forall|seat: usize, a: ClientAction| #[trigger] action_fits(self@, seat, a) by {
                crate::laws::law_room_to_finish_fits(self@, seat, a);
            }
        }
        true
    }
}

/// A copy of every card of `v`.
pub(crate) fn copy_all<T: Copy>(v: &Vec<T>) -> (r: Vec<T>)
    ensures
        r@ == v@,
{
    let r = copy_range(v, 0, v.len());
    proof {
        assert(v@.subrange(0, v@.len() as int) =~= v@);
    }
    r
}

pub(crate) fn copy_scores(v: &Vec<PlayerScore>) -> (r: Vec<PlayerScore>)
    ensures
        scores_view(r@) == scores_view(v@),
{
    let mut r: Vec<PlayerScore> = Vec::new();
    let mut i: usize = 0;
    while i < v.len()
        invariant
            i <= v.len(),
            r@.len() == i,
            scores_view(r@) == scores_view(v@.take(i as int)),
        decreases v.len() - i,
    {
        let s = &v[i];
        let ghost prev = r@;
        r.push(PlayerScore { seat: s.seat, name: s.name.clone(), total: s.total, card_number_sum: s.card_number_sum });
        proof {
            assert(scores_view(r@) =~= scores_view(v@.take(i + 1))) by {
                assert forall|k: int| 0 <= k < i implies scores_view(r@)[k] == scores_view(v@.take(i + 1))[k] by {
                    assert(r@[k] == prev[k]);
                    assert(scores_view(prev)[k] == scores_view(v@.take(i as int))[k]);
                }
            }
        }
        i = i + 1;
    }
    proof {
        assert(v@.take(v.len() as int) =~= v@);
    }
    r
}

impl GameState {
    /// The snapshot sent to the player at `my_seat`.
    pub fn to_client_state(&self, my_seat: usize) -> (r: ClientGameState)
        requires
            view_fits(self@, my_seat),
        ensures
            is_client_view(r, self@, my_seat),
    {
        let (phase, draft_order, current_drafter, drafter_choosing_sanctuary, sanctuary_choices, advanced_setup_choices) =
            match &self.phase {
            GamePhase::WaitingForPlayers { .. } => (ClientPhase::WaitingForPlayers, Vec::new(), None, false, None, None),
            GamePhase::AdvancedSetup { pending } => {
                let my_choices = match pending.get(&my_seat) {
                    Some(v) => Some(copy_all(v)),
                    None => None,
                };
                (ClientPhase::AdvancedSetup, Vec::new(), None, false, None, my_choices)
            },
            GamePhase::Playing(RoundPhase::ChoosingCards) => (ClientPhase::ChoosingCards, Vec::new(), None, false, None, None),
            GamePhase::Playing(
                RoundPhase::Drafting { order, current, pending_sanctuaries, current_has_drafted, .. },
            ) => {
                let drafter = if *current < order.len() { Some(order[*current]) } else { None };
                let my_choices = match pending_sanctuaries.get(&my_seat) {
                    Some(v) => Some(copy_all(v)),
                    None => None,
                };
                (ClientPhase::Drafting, copy_all(order), drafter, *current_has_drafted, my_choices, None)
            },
            GamePhase::GameOver { .. } => (ClientPhase::GameOver, Vec::new(), None, false, None, None),
        };
        let scores = match &self.phase {
            GamePhase::GameOver { scores } => Some(copy_scores(scores)),
            _ => None,
        };
        // The card this player played this round (visible only to them).
        let my_played_card = if my_seat < self.players.len() { self.players[my_seat].played_this_round } else { None };
        // Live score detail: the played (not yet revealed) card counts, so the
        // score updates as soon as the player puts a card down.
        let my_score_detail = if my_seat < self.players.len() {
            let p = &self.players[my_seat];
            if p.tableau.len() > 0 || p.played_this_round.is_some() {
                let mut tableau = copy_all(&p.tableau);
                if let Some(card) = p.played_this_round {
                    tableau.push(card);
                }
                let shown = PlayerState {
                    seat: p.seat,
                    name: p.name.clone(),
                    tableau,
                    sanctuaries: copy_all(&p.sanctuaries),
                    hand: Vec::new(),
                    played_this_round: None,
                };
                proof {
                    assert(self@.players[my_seat as int] == p@);
                    assert(shown.tableau@ =~= commit(p@).tableau);
                    assert(shown.sanctuaries@ == p@.sanctuaries);
                }
                Some(score_player_detailed(&shown))
            } else {
                None
            }
        } else {
            None
        };
        let all_score_details = match &self.phase {
            GamePhase::GameOver { .. } => {
                let mut details: Vec<PlayerScoreDetail> = Vec::new();
                let mut i: usize = 0;
                while i < self.players.len()
                    invariant
                        i <= self.players.len(),
                        self@.phase is Over,
                        view_fits(self@, my_seat),
                        details@.len() == i,
                        forall|k: int| 0 <= k < i ==> shows_detail(#[trigger] details@[k], self@.players[k]),
                    decreases self.players.len() - i,
                {
                    let p = &self.players[i];
                    proof {
                        assert(player_fits(self@.players[i as int].tableau, self@.players[i as int].sanctuaries));
                    }
                    let entries = score_player_detailed(p);
                    let total = score_player(p);
                    details.push(PlayerScoreDetail { seat: p.seat, name: p.name.clone(), entries, total });
                    i = i + 1;
                }
                Some(details)
            },
            _ => None,
        };
        let mut players: Vec<ClientPlayerState> = Vec::new();
        let mut i: usize = 0;
        while i < self.players.len()
            invariant
                i <= self.players.len(),
                players@.len() == i,
                forall|k: int| 0 <= k < i ==> shows_player(#[trigger] players@[k], self@.players[k]),
            decreases self.players.len() - i,
        {
            let p = &self.players[i];
            players.push(ClientPlayerState {
                seat: p.seat,
                name: p.name.clone(),
                hand_size: p.hand.len(),
                tableau: copy_all(&p.tableau),
                sanctuaries: copy_all(&p.sanctuaries),
                played_this_round: p.played_this_round.is_some(),
            });
            i = i + 1;
        }
        let my_hand = if my_seat < self.players.len() {
            copy_all(&self.players[my_seat].hand)
        } else {
            Vec::new()
        };
        ClientGameState {
            phase,
            round: self.round,
            my_seat,
            my_hand,
            players,
            market: copy_all(&self.market),
            deck_size: self.region_deck.len(),
            sanctuary_deck_size: self.sanctuary_deck.len(),
            draft_order,
            current_drafter,
            drafter_choosing_sanctuary,
            advanced_setup_choices,
            sanctuary_choices,
            scores,
            my_score_detail,
            all_score_details,
            my_played_card,
            player_count: self.player_count,
        }
    }
}


// ─── Actions ─────────────────────────────────────────────────────────────────

/// A request from a player.
#[derive(Debug, Clone, Copy)]
pub enum ClientAction {
    StartGame { advanced: bool, expansion: bool },
    KeepCards { indices: [usize; 3] },
    PlayCard { card_index: usize },
    ChooseSanctuary { sanctuary_index: usize },
    DraftCard { market_index: usize },
}

/// A request that ends the game can be scored within 32 bits.
pub open spec fn action_fits(g: GameModel, seat: usize, a: ClientAction) -> bool {
    match a {
        ClientAction::PlayCard { card_index } => ends_ok(g, spec_play_card(g, seat, card_index).1),
        ClientAction::ChooseSanctuary { sanctuary_index } => ends_ok(g, spec_choose_sanctuary(g, seat, sanctuary_index).1),
        ClientAction::DraftCard { market_index } => ends_ok(g, spec_draft_card(g, seat, market_index).1),
        _ => true,
    }
}

impl GameState {
    /// Carries out a player's request.
    pub fn apply_action(&mut self, seat: usize, action: ClientAction) -> (r: Result<(), ActionError>)
        requires
            old(self)@.wf(),
            action_fits(old(self)@, seat, action),
        ensures
            final(self)@.wf(),
            match action {
                ClientAction::StartGame { advanced, expansion } => {
                    &&& start_refusal(old(self)@, seat) matches Some(e) ==> r == Err::<(), ActionError>(e) && final(self)@ == old(self)@
                    &&& start_refusal(old(self)@, seat) is None ==> exists|rd: Seq<RegionCard>, sd: Seq<SanctuaryCard>|
                        #[trigger] decks_in_use(old(self)@, expansion, rd, sd)
                        && (r, final(self)@) == spec_deal_start(old(self)@, rd, sd, advanced)
                },
                ClientAction::KeepCards { indices } => exists|deck: Seq<RegionCard>|
                    #[trigger] is_shuffle_of(deck, setup_discards(old(self)@, seat, indices@) + old(self)@.region_deck)
                    && (r, final(self)@) == spec_keep_cards(old(self)@, seat, indices@, deck),
                ClientAction::PlayCard { card_index } => (r, final(self)@) == spec_play_card(old(self)@, seat, card_index),
                ClientAction::ChooseSanctuary { sanctuary_index } =>
                    (r, final(self)@) == spec_choose_sanctuary(old(self)@, seat, sanctuary_index),
                ClientAction::DraftCard { market_index } => (r, final(self)@) == spec_draft_card(old(self)@, seat, market_index),
            },
    {
        match action {
            ClientAction::StartGame { advanced, expansion } => self.start_game(seat, advanced, expansion),
            ClientAction::KeepCards { indices } => self.keep_cards(seat, &indices),
            ClientAction::PlayCard { card_index } => self.play_card(seat, card_index),
            ClientAction::ChooseSanctuary { sanctuary_index } => self.choose_sanctuary(seat, sanctuary_index),
            ClientAction::DraftCard { market_index } => self.draft_card(seat, market_index),
        }
    }
}

} // verus!
