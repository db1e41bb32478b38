//! The classic server's game: every qualifying player chooses a sanctuary at
//! the same time, before the draft.
use std::collections::HashMap;
use vstd::prelude::*;
use vstd::string::StringExecFns;
use crate::cards::{get_region_deck, get_sanctuary_deck, is_base_region_deck, is_base_sanctuary_deck, is_shuffle_of};
use crate::cards::{RegionCard, SanctuaryCard};
use crate::faraway_spec::{
    begin_drafting_f, can_score_f, draw_all, eligible_list, end_round_f, ends_ok_f, finalize_f, 
    reveal_f, score_of_f, spec_choose_f, spec_draft_f, spec_join_f, spec_play_f, spec_start_f, tiebreak_f,
    with_phase_f, FarawayModel, FarawayPhase,
};
use crate::game::{
    choices_view, copy_all, copy_scores, count_kept_clues, count_tableau_clues, draft_order_for, players_view,
    position_of, region_cards_ok, return_to_bottom, sanctuary_cards_ok, scores_view, tableau_number_sum, ActionError, PlayerScore, PlayerState,
    opt_view, shows_player,
};
pub use crate::game::ClientPlayerState;
use crate::game_spec::{
    all_below, all_played, clue_count, commit, dealt_hands, draft_order, draw_count, eligible,
    lemma_draft_order_seats, lemma_number_sum_prefix, min_int, new_player, number_sum, rest, seat_named, seats_ok,
    top, PlayerModel, ScoreModel,
};
use crate::scoring::{fame_ok, final_score, player_fits, score_player, wonders_ok};

verus! {

broadcast use vstd::std_specs::hash::group_hash_axioms;

// ─── Phase ───────────────────────────────────────────────────────────────────

#[derive(Debug, Clone)]
pub enum GamePhase {
    WaitingForPlayers { needed: usize },
    Playing(RoundPhase),
    GameOver { scores: Vec<PlayerScore> },
}

#[derive(Debug, Clone)]
pub enum RoundPhase {
    /// All players are choosing which card to play this round.
    ChoosingCards,
    /// Cards have been played; sanctuaries are being sorted out.
    RevealingAndSanctuaries,
    /// All qualifying players choose a sanctuary at the same time.
    SanctuaryChoice {
        /// Each qualifying seat's drawn choices (removed once they pick).
        pending: HashMap<usize, Vec<SanctuaryCard>>,
    },
    /// Players draft from the market in `order`; `current` indexes into `order`.
    Drafting { order: Vec<usize>, current: usize },
}

// ─── Full game state ─────────────────────────────────────────────────────────

#[derive(Debug, Clone)]
pub struct GameState {
    pub phase: GamePhase,
    pub round: u8,
    pub players: Vec<PlayerState>,
    pub region_deck: Vec<RegionCard>,
    pub sanctuary_deck: Vec<SanctuaryCard>,
    /// Face-up market cards (N+1 where N = player count).
    pub market: Vec<RegionCard>,
    pub player_count: usize,
}

impl View for GamePhase {
    type V = FarawayPhase;

    open spec fn view(&self) -> FarawayPhase {
        match self {
            GamePhase::WaitingForPlayers { needed } => FarawayPhase::Waiting { needed: *needed },
            GamePhase::Playing(RoundPhase::ChoosingCards) => FarawayPhase::Choosing,
            GamePhase::Playing(RoundPhase::RevealingAndSanctuaries) => FarawayPhase::Revealing,
            GamePhase::Playing(RoundPhase::SanctuaryChoice { pending }) => FarawayPhase::Choice { pending: choices_view(pending@) },
            GamePhase::Playing(RoundPhase::Drafting { order, current }) => FarawayPhase::Drafting { order: order@, current: *current },
            GamePhase::GameOver { scores } => FarawayPhase::Over { scores: scores_view(scores@) },
        }
    }
}

impl View for GameState {
    type V = FarawayModel;

    open spec fn view(&self) -> FarawayModel {
        FarawayModel {
            phase: self.phase@,
            round: self.round,
            players: players_view(self.players@),
            region_deck: self.region_deck@,
            sanctuary_deck: self.sanctuary_deck@,
            market: self.market@,
            player_count: self.player_count,
        }
    }
}

// ─── Helpers on the piles ────────────────────────────────────────────────────

/// Three cards off the top of the deck into each hand, in seat order.
fn deal_three_each(players: &mut Vec<PlayerState>, deck: &mut Vec<RegionCard>)
    requires
        old(deck)@.len() >= 3 * old(players)@.len(),
    ensures
        players_view(final(players)@) == dealt_hands(players_view(old(players)@), old(deck)@),
        final(deck)@ == rest(old(deck)@, 3 * old(players)@.len() as int),
{
    let ghost deck0 = deck@;
    let ghost ps0 = players_view(players@);
    let ghost dealt = dealt_hands(ps0, deck0);
    let n = players.len();
    let mut i: usize = 0;
    while i < n
        invariant
            deck0 == old(deck)@,
            ps0 == players_view(old(players)@),
            dealt == dealt_hands(ps0, deck0),
            n == players.len(),
            n == ps0.len(),
            i <= n,
            3 * n <= deck0.len(),
            deck@ == rest(deck0, 3 * i),
            forall|k: int| 0 <= k < n ==> #[trigger] players_view(players@)[k] == (if k < i { dealt[k] } else { ps0[k] }),
        decreases n - i,
    {
        let ghost prev = players@;
        proof {
            assert(players_view(prev)[i as int] == ps0[i as int]);
        }
        let mut p = players.remove(i);
        let mut j: usize = 0;
        while j < 3
            invariant
                deck0 == old(deck)@,
                ps0 == players_view(old(players)@),
                dealt == dealt_hands(ps0, deck0),
                forall|k: int| 0 <= k < n ==> #[trigger] players_view(prev)[k] == (if k < i { dealt[k] } else { ps0[k] }),
                n == ps0.len(),
                prev.len() == n,
                i < n,
                j <= 3,
                3 * n <= deck0.len(),
                deck@ == rest(deck0, 3 * i + j),
                p@ == (PlayerModel { hand: ps0[i as int].hand + top(rest(deck0, 3 * i), j as int), ..ps0[i as int] }),
                players@ == prev.remove(i as int),
            decreases 3 - j,
        {
            let card = deck.pop().unwrap();
            p.hand.push(card);
            proof {
                assert(p.hand@ =~= ps0[i as int].hand + top(rest(deck0, 3 * i), j + 1));
                assert(deck@ =~= rest(deck0, 3 * i + j + 1));
            }
            j = j + 1;
        }
        players.insert(i, p);
        proof {
            assert(players@ =~= prev.update(i as int, p));
            assert(p@ == dealt[i as int]);
            assert forall|k: int| 0 <= k < n implies #[trigger] players_view(players@)[k] == (if k < i + 1 { dealt[k] } else { ps0[k] }) by {
                if k != i {
                    assert(players_view(players@)[k] == players_view(prev)[k]);
                }
            }
        }
        i = i + 1;
    }
    proof {
        assert(players_view(players@) =~= dealt);
    }
}

/// Moves `n + 1` cards (or what is left) from the top of the deck to the
/// market; true when the deck had them all.
fn fill_market(market: &mut Vec<RegionCard>, deck: &mut Vec<RegionCard>, n: usize) -> (ok: bool)
    ensures
        ok == (old(deck)@.len() > n),
        final(market)@ == old(market)@ + top(old(deck)@, min_int(n + 1int, old(deck)@.len() as int)),
        final(deck)@ == rest(old(deck)@, min_int(n + 1int, old(deck)@.len() as int)),
{
    let ghost deck0 = deck@;
    let ghost market0 = market@;
    let short = deck.len() <= n;
    let k: usize = if short { deck.len() } else { n + 1 };
    let mut i: usize = 0;
    while i < k
        invariant
            deck0 == old(deck)@,
            market0 == old(market)@,
            k <= deck0.len(),
            i <= k,
            market@ == market0 + top(deck0, i as int),
            deck@ == rest(deck0, i as int),
        decreases k - i,
    {
        let card = deck.pop().unwrap();
        market.push(card);
        proof {
            assert(market@ =~= market0 + top(deck0, i + 1));
            assert(deck@ =~= rest(deck0, i + 1));
        }
        i = i + 1;
    }
    !short
}

/// Every played card joins its player's tableau.
fn commit_all(players: &mut Vec<PlayerState>)
    ensures
        players_view(final(players)@) == players_view(old(players)@).map_values(|p: PlayerModel| commit(p)),
{
    let ghost ps0 = players_view(players@);
    let mut i: usize = 0;
    while i < players.len()
        invariant
            ps0 == players_view(old(players)@),
            i <= players.len(),
            ps0.len() == players.len(),
            forall|k: int| 0 <= k < players.len() ==> #[trigger] players_view(players@)[k]
                == (if k < i { commit(ps0[k]) } else { ps0[k] }),
        decreases players.len() - i,
    {
        let ghost prev = players@;
        proof {
            assert(players_view(prev)[i as int] == ps0[i as int]);
        }
        let mut p = players.remove(i);
        if let Some(card) = p.played_this_round {
            p.tableau.push(card);
            p.played_this_round = None;
        }
        players.insert(i, p);
        proof {
            assert(players@ =~= prev.update(i as int, p));
            assert(p@ == commit(ps0[i as int]));
            assert forall|k: int| 0 <= k < players.len() implies #[trigger] players_view(players@)[k]
                == (if k < i + 1 { commit(ps0[k]) } else { ps0[k] }) by {
                if k != i {
                    assert(players_view(players@)[k] == players_view(prev)[k]);
                }
            }
        }
        i = i + 1;
    }
    proof {
        assert(players_view(players@) =~= ps0.map_values(|p: PlayerModel| commit(p)));
    }
}

/// The seats that qualify for sanctuaries, in seat order.
fn eligible_list_of(players: &Vec<PlayerState>) -> (r: Vec<usize>)
    ensures
        r@ == eligible_list(players_view(players@)),
{
    let ghost ps = players_view(players@);
    let mut r: Vec<usize> = Vec::new();
    let mut i: usize = 0;
    while i < players.len()
        invariant
            i <= players.len(),
            ps == players_view(players@),
            r@ == eligible_list(ps.take(i as int)),
        decreases players.len() - i,
    {
        let p = &players[i];
        let len = p.tableau.len();
        // "Previous" is the card just before the one played this round.
        let qualifies = if len < 2 { false } else { p.tableau[len - 1].number > p.tableau[len - 2].number };
        proof {
            assert(ps.take(i + 1).drop_last() =~= ps.take(i as int));
            assert(ps.take(i + 1).last() == p@);
            assert(qualifies == eligible(p@));
        }
        if qualifies {
            r.push(p.seat);
        }
        i = i + 1;
    }
    proof {
        assert(ps.take(players.len() as int) =~= ps);
    }
    r
}

/// A player's clues among their regions and sanctuaries.
fn clues_in(p: &PlayerState) -> (r: u128)
    ensures
        r == clue_count(p@),
        r <= p.tableau.len() + p.sanctuaries.len(),
{
    count_tableau_clues(&p.tableau) + count_kept_clues(&p.sanctuaries)
}

/// Up to `count` sanctuaries off the top of the deck (what is left when it runs short).
fn draw_from(deck: &mut Vec<SanctuaryCard>, count: u128) -> (r: Vec<SanctuaryCard>)
    ensures
        r@ == top(old(deck)@, min_int(count as int, old(deck)@.len() as int)),
        final(deck)@ == rest(old(deck)@, min_int(count as int, old(deck)@.len() as int)),
{
    let ghost deck0 = deck@;
    let k: usize = if (deck.len() as u128) <= count { deck.len() } else { count as usize };
    let mut choices: Vec<SanctuaryCard> = Vec::new();
    let mut i: usize = 0;
    while i < k
        invariant
            deck0 == old(deck)@,
            k <= deck0.len(),
            i <= k,
            choices@ == top(deck0, i as int),
            deck@ == rest(deck0, i as int),
        decreases k - i,
    {
        let card = deck.pop().unwrap();
        choices.push(card);
        proof {
            assert(choices@ =~= top(deck0, i + 1));
            assert(deck@ =~= rest(deck0, i + 1));
        }
        i = i + 1;
    }
    choices
}



impl GameState {
    /// A room waiting for up to `max_players` players, with both decks shuffled.
    pub fn new_waiting(max_players: usize) -> (r: Self)
        ensures
            r@.phase == (FarawayPhase::Waiting { needed: max_players }),
            r@.round == 0,
            r@.players.len() == 0,
            r@.market.len() == 0,
            r@.player_count == max_players,
            exists|base: Seq<RegionCard>| is_base_region_deck(base) && #[trigger] is_shuffle_of(r@.region_deck, base),
            exists|base: Seq<SanctuaryCard>| is_base_sanctuary_deck(base) && #[trigger] is_shuffle_of(r@.sanctuary_deck, base),
    {
        let region_deck = get_region_deck();
        let sanctuary_deck = get_sanctuary_deck();
        let r = GameState {
            phase: GamePhase::WaitingForPlayers { needed: max_players },
            round: 0,
            players: Vec::new(),
            region_deck,
            sanctuary_deck,
            market: Vec::new(),
            player_count: max_players,
        };
        proof {
            assert(players_view(r.players@) =~= Seq::empty());
            let rb = choose|base: Seq<RegionCard>| is_base_region_deck(base) && #[trigger] is_shuffle_of(region_deck@, base);
            assert(is_base_region_deck(rb) && is_shuffle_of(r@.region_deck, rb));
            let sb = choose|base: Seq<SanctuaryCard>| is_base_sanctuary_deck(base) && #[trigger] is_shuffle_of(sanctuary_deck@, base);
            assert(is_base_sanctuary_deck(sb) && is_shuffle_of(r@.sanctuary_deck, sb));
        }
        r
    }

    /// Adds a player to the waiting room and returns their seat; a player who
    /// joins again gets their seat back.
    pub fn join(&mut self, name: &str) -> (r: Result<usize, ActionError>)
        ensures
            (r, final(self)@) == spec_join_f(old(self)@, name@),
    {
        match &self.phase {
            GamePhase::WaitingForPlayers { .. } => {},
            _ => return Err(ActionError::GameAlreadyStarted),
        }
        let name_s = String::from_str(name);
        // Re-joining is fine: the player keeps their seat.
        if let Some(pos) = position_of(&self.players, &name_s) {
            return Ok(pos);
        }
        if self.players.len() >= self.player_count {
            return Err(ActionError::RoomFull);
        }
        let seat = self.players.len();
        let ghost before = self.players@;
        self.players.push(PlayerState::new(seat, name_s));
        proof {
            assert(players_view(self.players@) =~= players_view(before).push(new_player(seat, name@)));
        }
        Ok(seat)
    }

    /// Starts the game: three cards to each player, then the market.
    pub fn start_game(&mut self, seat: usize) -> (r: Result<(), ActionError>)
        requires
            old(self)@.wf(),
        ensures
            (r, final(self)@) == spec_start_f(old(self)@, seat),
            final(self)@.wf(),
    {
        if seat != 0 {
            return Err(ActionError::NotYourTurn);
        }
        match &self.phase {
            GamePhase::WaitingForPlayers { .. } => {},
            _ => return Err(ActionError::GameAlreadyStarted),
        }
        if self.players.len() < 2 {
            return Err(ActionError::NotEnoughPlayers);
        }
        let ghost g0 = self@;
        let n = self.players.len();
        // The whole deal must be covered, or nothing changes.
        if (self.region_deck.len() as u128) < 4 * (n as u128) + 1 {
            return Err(ActionError::DeckEmpty);
        }
        // The player count is locked in to however many joined.
        self.player_count = n;
        deal_three_each(&mut self.players, &mut self.region_deck);
        proof {
            assert(seats_ok(self@.players)) by {
                assert forall|i: int| 0 <= i < self@.players.len() implies #[trigger] self@.players[i].seat == i by {
                    assert(self@.players[i] == dealt_hands(g0.players, g0.region_deck)[i]);
                }
            }
        }
        // The market: player count + 1 cards.
        let _ = fill_market(&mut self.market, &mut self.region_deck, n);
        proof {
            let d1 = rest(g0.region_deck, 3 * n);
            assert(min_int(n + 1int, d1.len() as int) == n + 1);
        }
        self.round = 1;
        self.phase = GamePhase::Playing(RoundPhase::ChoosingCards);
        Ok(())
    }

    /// Plays a card from hand (choosing phase).
    pub fn play_card(&mut self, seat: usize, card_index: usize) -> (r: Result<(), ActionError>)
        requires
            old(self)@.wf(),
            ends_ok_f(old(self)@, spec_play_f(old(self)@, seat, card_index).1),
        ensures
            (r, final(self)@) == spec_play_f(old(self)@, seat, card_index),
            final(self)@.wf(),
    {
        self.require_phase_choosing_cards()?;
        if seat >= self.players.len() {
            return Err(ActionError::InvalidSeat);
        }
        if self.players[seat].played_this_round.is_some() {
            return Err(ActionError::AlreadyPlayedThisRound);
        }
        if card_index >= self.players[seat].hand.len() {
            return Err(ActionError::InvalidCardIndex);
        }
        let ghost before = self.players@;
        let mut player = self.players.remove(seat);
        let card = player.hand.remove(card_index);
        player.played_this_round = Some(card);
        self.players.insert(seat, player);
        proof {
            assert(self.players@ =~= before.update(seat as int, player));
            assert(players_view(self.players@) =~= players_view(before).update(seat as int, player@));
        }
        // Once every player has played, the cards are revealed.
        if self.everyone_played() {
            self.advance_to_reveal();
        }
        Ok(())
    }

    /// Chooses a sanctuary to keep. All qualifying players choose at the same
    /// time; once everyone has chosen, the draft starts.
    pub fn choose_sanctuary(&mut self, seat: usize, sanctuary_index: usize) -> (r: Result<(), ActionError>)
        requires
            old(self)@.wf(),
            ends_ok_f(old(self)@, spec_choose_f(old(self)@, seat, sanctuary_index).1),
        ensures
            (r, final(self)@) == spec_choose_f(old(self)@, seat, sanctuary_index),
            final(self)@.wf(),
    {
        let ghost g0 = self@;
        let present = match &self.phase {
            GamePhase::Playing(RoundPhase::SanctuaryChoice { pending }) => pending.contains_key(&seat),
            _ => return Err(ActionError::WrongPhase),
        };
        if !present {
            return Err(ActionError::NotYourTurn);
        }
        let choices = match &mut self.phase {
            GamePhase::Playing(RoundPhase::SanctuaryChoice { pending }) => pending.remove(&seat).unwrap(),
            _ => return Err(ActionError::WrongPhase),
        };
        if sanctuary_index >= choices.len() {
            // Put the choices back so the player can retry.
            if let GamePhase::Playing(RoundPhase::SanctuaryChoice { pending }) = &mut self.phase {
                pending.insert(seat, choices);
            }
            proof {
                assert(self@.phase->pending =~= g0.phase->pending);
                assert(self@.phase == g0.phase);
            }
            return Err(ActionError::InvalidCardIndex);
        }
        if seat >= self.players.len() {
            if let GamePhase::Playing(RoundPhase::SanctuaryChoice { pending }) = &mut self.phase {
                pending.insert(seat, choices);
            }
            proof {
                assert(self@.phase->pending =~= g0.phase->pending);
                assert(self@.phase == g0.phase);
            }
            return Err(ActionError::InvalidSeat);
        }
        proof {
            assert(self@.phase->pending =~= g0.phase->pending.remove(seat));
        }
        let kept = choices[sanctuary_index];
        let ghost before = self.players@;
        let mut p = self.players.remove(seat);
        p.sanctuaries.push(kept);
        self.players.insert(seat, p);
        proof {
            assert(self.players@ =~= before.update(seat as int, p));
            assert(players_view(self.players@) =~= players_view(before).update(seat as int, p@));
        }
        // The unchosen cards go to the bottom of the sanctuary deck.
        return_to_bottom(&mut self.sanctuary_deck, &choices, sanctuary_index);
        // Once everyone has chosen, the draft starts.
        let all_done = match &self.phase {
            GamePhase::Playing(RoundPhase::SanctuaryChoice { pending }) => pending.is_empty(),
            _ => false,
        };
        if all_done {
            self.begin_drafting();
        }
        Ok(())
    }

    /// Drafts a card from the market (drafting phase).
    pub fn draft_card(&mut self, seat: usize, market_index: usize) -> (r: Result<(), ActionError>)
        requires
            old(self)@.wf(),
            ends_ok_f(old(self)@, spec_draft_f(old(self)@, seat, market_index).1),
        ensures
            (r, final(self)@) == spec_draft_f(old(self)@, seat, market_index),
            final(self)@.wf(),
    {
        let (order_len, current, drafter) = match &self.phase {
            GamePhase::Playing(RoundPhase::Drafting { order, current }) => (order.len(), *current, order[*current]),
            _ => return Err(ActionError::WrongPhase),
        };
        if drafter != seat {
            return Err(ActionError::NotYourTurn);
        }
        if market_index >= self.market.len() {
            return Err(ActionError::InvalidCardIndex);
        }
        if seat >= self.players.len() {
            return Err(ActionError::InvalidSeat);
        }
        let card = self.market.remove(market_index);
        let ghost before = self.players@;
        let mut p = self.players.remove(seat);
        p.hand.push(card);
        self.players.insert(seat, p);
        proof {
            assert(self.players@ =~= before.update(seat as int, p));
            assert(players_view(self.players@) =~= players_view(before).update(seat as int, p@));
        }
        let next = current + 1;
        if next >= order_len {
            // The last drafter: end of the round.
            let _ = self.end_round();
        } else if let GamePhase::Playing(RoundPhase::Drafting { current: c, .. }) = &mut self.phase {
            *c = next;
        }
        Ok(())
    }

    fn everyone_played(&self) -> (r: bool)
        ensures
            r == all_played(self@.players),
    {
        let mut i: usize = 0;
        while i < self.players.len()
            invariant
                i <= self.players.len(),
                forall|k: int| 0 <= k < i ==> #[trigger] self@.players[k].played is Some,
            decreases self.players.len() - i,
        {
            if self.players[i].played_this_round.is_none() {
                proof {
                    assert(!(self@.players[i as int].played is Some));
                }
                return false;
            }
            i = i + 1;
        }
        true
    }

    fn require_phase_choosing_cards(&self) -> (r: Result<(), ActionError>)
        ensures
            r is Ok <==> self@.phase is Choosing,
            r is Err ==> r == Err::<(), ActionError>(ActionError::WrongPhase),
    {
        match &self.phase {
            GamePhase::Playing(RoundPhase::ChoosingCards) => Ok(()),
            _ => Err(ActionError::WrongPhase),
        }
    }

    /// Everyone has played: the cards join the tableaux, and the qualifying
    /// players (the card just played beats the one before it) draw sanctuaries.
    fn advance_to_reveal(&mut self)
        requires
            old(self)@.wf(),
            old(self)@.phase is Choosing,
            old(self)@.players.len() > 0,
            ends_ok_f(old(self)@, reveal_f(old(self)@)),
        ensures
            final(self)@ == reveal_f(old(self)@),
            final(self)@.wf(),
    {
        let ghost g0 = self@;
        commit_all(&mut self.players);
        let ghost ps = self@.players;
        proof {
            assert(seats_ok(ps)) by {
                assert forall|i: int| 0 <= i < ps.len() implies #[trigger] ps[i].seat == i by {
                    assert(ps[i] == commit(g0.players[i]));
                }
            }
            lemma_eligible_list_seats(ps);
        }
        let eligible_seats = eligible_list_of(&self.players);
        if eligible_seats.len() == 0 {
            self.begin_drafting();
            return;
        }
        let mut pending: HashMap<usize, Vec<SanctuaryCard>> = HashMap::new();
        proof {
            assert(choices_view(pending@) =~= Map::<usize, Seq<SanctuaryCard>>::empty());
            assert(eligible_seats@.take(0) =~= Seq::<usize>::empty());
        }
        let mut k: usize = 0;
        while k < eligible_seats.len()
            invariant
                k <= eligible_seats.len(),
                eligible_seats@ == eligible_list(ps),
                all_below(eligible_seats@, ps.len() as int),
                ps == self@.players,
                ps.len() == self.players.len(),
                self.round == g0.round,
                self.market@ == g0.market,
                self.region_deck@ == g0.region_deck,
                self.player_count == g0.player_count,
                (self.sanctuary_deck@, choices_view(pending@)) == draw_all(ps, g0.sanctuary_deck, eligible_seats@.take(k as int)),
            decreases eligible_seats.len() - k,
        {
            let seat = eligible_seats[k];
            proof {
                assert(eligible_seats@.take(k + 1).drop_last() =~= eligible_seats@.take(k as int));
            }
            let count = 1 + clues_in(&self.players[seat]);
            let ghost before = pending@;
            let choices = draw_from(&mut self.sanctuary_deck, count);
            pending.insert(seat, choices);
            proof {
                assert(choices_view(pending@) =~= choices_view(before).insert(seat, choices@));
            }
            k = k + 1;
        }
        self.phase = GamePhase::Playing(RoundPhase::SanctuaryChoice { pending });
        proof {
            assert(eligible_seats@.take(eligible_seats.len() as int) =~= eligible_seats@);
        }
    }

    /// The draft starts in ascending order of the cards just played; after
    /// round 8 there is no draft and the game is scored.
    fn begin_drafting(&mut self)
        requires
            old(self)@.wf(),
            !(old(self)@.phase is Over),
            old(self)@.players.len() > 0,
            ends_ok_f(old(self)@, begin_drafting_f(old(self)@)),
        ensures
            final(self)@ == begin_drafting_f(old(self)@),
            final(self)@.wf(),
    {
        if self.round == 8 {
            self.market.clear();
            self.finalize_scores();
            return;
        }
        let order = draft_order_for(&self.players);
        proof {
            lemma_draft_order_seats(self@.players);
        }
        self.phase = GamePhase::Playing(RoundPhase::Drafting { order, current: 0 });
    }

    fn end_round(&mut self) -> (r: Result<(), ActionError>)
        requires
            old(self)@.wf(),
            !(old(self)@.phase is Over),
            ends_ok_f(old(self)@, end_round_f(old(self)@)),
        ensures
            r is Ok,
            final(self)@ == end_round_f(old(self)@),
            final(self)@.wf(),
    {
        // Discard the leftover market card.
        self.market.clear();
        if self.round == 8 {
            self.finalize_scores();
            return Ok(());
        }
        // Refill the market for the next round.
        self.round = self.round + 1;
        let n = self.players.len();
        let _ = fill_market(&mut self.market, &mut self.region_deck, n);
        self.phase = GamePhase::Playing(RoundPhase::ChoosingCards);
        Ok(())
    }

    fn finalize_scores(&mut self)
        requires
            can_score_f(old(self)@.players),
        ensures
            final(self)@ == finalize_f(old(self)@),
    {
        let mut scores: Vec<PlayerScore> = Vec::new();
        let mut i: usize = 0;
        while i < self.players.len()
            invariant
                i <= self.players.len(),
                can_score_f(players_view(self.players@)),
                scores@.len() == i,
                scores_view(scores@) == players_view(self.players@).take(i as int).map_values(|p: PlayerModel| score_of_f(p)),
            decreases self.players.len() - i,
        {
            let p = &self.players[i];
            let ghost pm = players_view(self.players@)[i as int];
            proof {
                assert(player_fits(pm.tableau, pm.sanctuaries));
                assert(pm == p@);
            }
            let total = score_player(p);
            let card_number_sum = tableau_number_sum(&p.tableau);
            let ghost prev = scores@;
            scores.push(PlayerScore { seat: p.seat, name: p.name.clone(), total, card_number_sum });
            proof {
                assert(scores@[i as int]@ == score_of_f(pm));
                let rhs = players_view(self.players@).take(i + 1).map_values(|p: PlayerModel| score_of_f(p));
                let old_rhs = players_view(self.players@).take(i as int).map_values(|p: PlayerModel| score_of_f(p));
                assert forall|k: int| 0 <= k < i + 1 implies #[trigger] scores_view(scores@)[k] == rhs[k] by {
                    if k < i {
                        assert(scores@[k] == prev[k]);
                        assert(scores_view(prev)[k] == old_rhs[k]);
                    }
                }
                assert(scores_view(scores@) =~= rhs);
            }
            i = i + 1;
        }
        proof {
            assert(players_view(self.players@).take(self.players.len() as int) =~= players_view(self.players@));
        }
        self.phase = GamePhase::GameOver { scores };
    }
}

/// The qualifying seats are seats at the table.
proof fn lemma_eligible_list_seats(ps: Seq<PlayerModel>)
    requires
        seats_ok(ps),
    ensures
        all_below(eligible_list(ps), ps.len() as int),
    decreases ps.len(),
{
    if ps.len() > 0 {
        assert(seats_ok(ps.drop_last())) by {
            assert forall|i: int| 0 <= i < ps.drop_last().len() implies #[trigger] ps.drop_last()[i].seat == i by {
                assert(ps.drop_last()[i] == ps[i]);
            }
        }
        lemma_eligible_list_seats(ps.drop_last());
        assert(ps[ps.len() - 1].seat == ps.len() - 1);
    }
}



// ─── Client-facing snapshot ──────────────────────────────────────────────────

/// What one player is sent of the game.
#[derive(Debug, Clone)]
pub struct ClientGameState {
    pub phase: ClientPhase,
    pub round: u8,
    pub my_seat: usize,
    pub my_hand: Vec<RegionCard>,
    pub players: Vec<ClientPlayerState>,
    pub market: Vec<RegionCard>,
    pub deck_size: usize,
    pub sanctuary_deck_size: usize,
    pub draft_order: Vec<usize>,
    pub current_drafter: Option<usize>,
    /// Present only when this player has a sanctuary to choose.
    pub sanctuary_choices: Option<Vec<SanctuaryCard>>,
    pub scores: Option<Vec<PlayerScore>>,
    pub player_count: usize,
}

#[derive(Debug, Clone, Copy, PartialEq, Eq, Structural)]
pub enum ClientPhase {
    WaitingForPlayers,
    ChoosingCards,
    SanctuaryChoice,
    Drafting,
    GameOver,
}

/// A request from a player.
#[derive(Debug, Clone, Copy, PartialEq, Eq, Structural)]
pub enum ClientAction {
    StartGame,
    PlayCard { card_index: usize },
    ChooseSanctuary { sanctuary_index: usize },
    DraftCard { market_index: usize },
}

/// While the cards are being revealed the players still see the choosing phase.
pub open spec fn client_phase_f(p: FarawayPhase) -> ClientPhase {
    match p {
        FarawayPhase::Waiting { .. } => ClientPhase::WaitingForPlayers,
        FarawayPhase::Choosing => ClientPhase::ChoosingCards,
        FarawayPhase::Revealing => ClientPhase::ChoosingCards,
        FarawayPhase::Choice { .. } => ClientPhase::SanctuaryChoice,
        FarawayPhase::Drafting { .. } => ClientPhase::Drafting,
        FarawayPhase::Over { .. } => ClientPhase::GameOver,
    }
}

/// The draft order shown: the order of the draft while drafting.
pub open spec fn shown_order_f(p: FarawayPhase) -> Seq<usize> {
    match p {
        FarawayPhase::Drafting { order, .. } => order,
        _ => Seq::empty(),
    }
}

/// The drafter shown: whose turn it is while drafting.
pub open spec fn shown_drafter_f(p: FarawayPhase) -> Option<usize> {
    match p {
        FarawayPhase::Drafting { order, current } => if current < order.len() {
            Some(order[current as int])
        } else {
            None
        },
        _ => None,
    }
}

/// The sanctuaries a seat is shown to choose from.
pub open spec fn shown_choices_f(p: FarawayPhase, seat: usize) -> Option<Seq<SanctuaryCard>> {
    match p {
        FarawayPhase::Choice { pending } => if pending.contains_key(seat) { Some(pending[seat]) } else { None },
        _ => None,
    }
}

/// The final scores, once the game is over.
pub open spec fn shown_scores_f(p: FarawayPhase) -> Option<Seq<ScoreModel>> {
    match p {
        FarawayPhase::Over { scores } => Some(scores),
        _ => None,
    }
}

/// What `to_client_state` shows seat `my_seat` of the classic game `g`: the
/// public face of every player, the market and the sizes of the decks, and
/// only this player's own hand and sanctuary choices.
pub open spec fn is_client_view_f(r: ClientGameState, g: FarawayModel, my_seat: usize) -> bool {
    &&& r.phase == client_phase_f(g.phase)
    &&& r.round == g.round
    &&& r.my_seat == my_seat
    &&& r.my_hand@ == (if my_seat < g.players.len() { g.players[my_seat as int].hand } else { Seq::empty() })
    &&& r.players@.len() == g.players.len()
    &&& forall|i: int| 0 <= i < g.players.len() ==> shows_player(#[trigger] r.players@[i], g.players[i])
    &&& r.market@ == g.market
    &&& r.deck_size == g.region_deck.len()
    &&& r.sanctuary_deck_size == g.sanctuary_deck.len()
    &&& r.draft_order@ == shown_order_f(g.phase)
    &&& r.current_drafter == shown_drafter_f(g.phase)
    &&& opt_view(r.sanctuary_choices) == shown_choices_f(g.phase, my_seat)
    &&& match r.scores {
        Some(v) => shown_scores_f(g.phase) == Some(scores_view(v@)),
        None => shown_scores_f(g.phase) is None,
    }
    &&& r.player_count == g.player_count
}


/// What a request does to the game.
pub open spec fn spec_apply_f(g: FarawayModel, seat: usize, a: ClientAction) -> (Result<(), ActionError>, FarawayModel) {
    match a {
        ClientAction::StartGame => spec_start_f(g, seat),
        ClientAction::PlayCard { card_index } => spec_play_f(g, seat, card_index),
        ClientAction::ChooseSanctuary { sanctuary_index } => spec_choose_f(g, seat, sanctuary_index),
        ClientAction::DraftCard { market_index } => spec_draft_f(g, seat, market_index),
    }
}

impl GameState {
    /// Carries out a player's request.
    pub fn apply_action(&mut self, seat: usize, action: ClientAction) -> (r: Result<(), ActionError>)
        requires
            old(self)@.wf(),
            ends_ok_f(old(self)@, spec_apply_f(old(self)@, seat, action).1),
        ensures
            (r, final(self)@) == spec_apply_f(old(self)@, seat, action),
            final(self)@.wf(),
    {
        match action {
            ClientAction::StartGame => self.start_game(seat),
            ClientAction::PlayCard { card_index } => self.play_card(seat, card_index),
            ClientAction::ChooseSanctuary { sanctuary_index } => self.choose_sanctuary(seat, sanctuary_index),
            ClientAction::DraftCard { market_index } => self.draft_card(seat, market_index),
        }
    }

    /// The snapshot sent to the player at `my_seat`.
    pub fn to_client_state(&self, my_seat: usize) -> (r: ClientGameState)
        ensures
            is_client_view_f(r, self@, my_seat),
    {
        let (phase, draft_order, current_drafter, sanctuary_choices) = match &self.phase {
            GamePhase::WaitingForPlayers { .. } => (ClientPhase::WaitingForPlayers, Vec::new(), None, None),
            GamePhase::Playing(RoundPhase::ChoosingCards) => (ClientPhase::ChoosingCards, Vec::new(), None, None),
            GamePhase::Playing(RoundPhase::RevealingAndSanctuaries) => (ClientPhase::ChoosingCards, Vec::new(), None, None),
            GamePhase::Playing(RoundPhase::SanctuaryChoice { pending }) => {
                let my_choices = match pending.get(&my_seat) {
                    Some(v) => Some(copy_all(v)),
                    None => None,
                };
                (ClientPhase::SanctuaryChoice, Vec::new(), None, my_choices)
            },
            GamePhase::Playing(RoundPhase::Drafting { order, current }) => {
                let drafter = if *current < order.len() { Some(order[*current]) } else { None };
                (ClientPhase::Drafting, copy_all(order), drafter, None)
            },
            GamePhase::GameOver { .. } => (ClientPhase::GameOver, Vec::new(), None, None),
        };
        let scores = match &self.phase {
            GamePhase::GameOver { scores } => Some(copy_scores(scores)),
            _ => None,
        };
        let mut players: Vec<ClientPlayerState> = Vec::new();
        let mut i: usize = 0;
        while i < self.players.len()
            invariant
                i <= self.players.len(),
                players@.len() == i,
                forall|k: int| 0 <= k < i ==> shows_player(#[trigger] players@[k], self@.players[k]),
            decreases self.players.len() - i,
        {
            let p = &self.players[i];
            players.push(ClientPlayerState {
                seat: p.seat,
                name: p.name.clone(),
                hand_size: p.hand.len(),
                tableau: copy_all(&p.tableau),
                sanctuaries: copy_all(&p.sanctuaries),
                played_this_round: p.played_this_round.is_some(),
            });
            i = i + 1;
        }
        let my_hand = if my_seat < self.players.len() { copy_all(&self.players[my_seat].hand) } else { Vec::new() };
        ClientGameState {
            phase,
            round: self.round,
            my_seat,
            my_hand,
            players,
            market: copy_all(&self.market),
            deck_size: self.region_deck.len(),
            sanctuary_deck_size: self.sanctuary_deck.len(),
            draft_order,
            current_drafter,
            sanctuary_choices,
            scores,
            player_count: self.player_count,
        }
    }
}


impl GameState {
    /// Whether every action can be taken now: each player's cards are of the
    /// game's kind with room for one more region and one more sanctuary within
    /// 100 cards, and so are the sanctuaries waiting for a choice. When it
    /// holds, `apply_action` may be called with any action.
    pub fn room_to_finish_check(&self) -> (r: bool)
        requires
            self@.wf(),
        ensures
            r == crate::laws::room_to_finish_f(self@),
            r ==> forall|seat: usize, a: ClientAction| #[trigger] ends_ok_f(self@, spec_apply_f(self@, seat, a).1),
    {
        let mut i: usize = 0;
        while i < self.players.len()
            invariant
                i <= self.players.len(),
                forall|k: int| 0 <= k < i ==> crate::laws::player_room(#[trigger] self@.players[k]),
            decreases self.players.len() - i,
        {
            let p = &self.players[i];
            proof {
                assert(p@ == self@.players[i as int]);
            }
            let played_ok = match &p.played_this_round {
                Some(c) => wonders_ok(&c.wonders) && fame_ok(&c.fame),
                None => true,
            };
            let ok = region_cards_ok(&p.tableau) && region_cards_ok(&p.hand) && sanctuary_cards_ok(&p.sanctuaries)
                && played_ok && p.tableau.len() <= 98 && p.sanctuaries.len() <= 98 - p.tableau.len();
            if !ok {
                proof {
                    assert(!crate::laws::player_room(self@.players[i as int]));
                }
                return false;
            }
            i = i + 1;
        }
        if let GamePhase::Playing(RoundPhase::SanctuaryChoice { pending }) = &self.phase {
            let mut s: usize = 0;
            while s < self.players.len()
                invariant
                    s <= self.players.len(),
                    self@.phase->Choice_pending == choices_view(pending@),
                    self@.phase is Choice,
                    forall|t: usize| t < s && #[trigger] self@.phase->Choice_pending.contains_key(t)
                        ==> crate::laws::sanctuaries_bounded(self@.phase->Choice_pending[t]),
                decreases self.players.len() - s,
            {
                match pending.get(&s) {
                    Some(v) => {
                        if !sanctuary_cards_ok(v) {
                            proof {
                                assert(self@.phase->Choice_pending.contains_key(s));
                                assert(self@.phase->Choice_pending[s] == v@);
                            }
                            return false;
                        }
                    },
                    None => {},
                }
                s = s + 1;
            }
        }
        proof {
            assert(crate::laws::room_to_finish_f(self@));
            assert forall|seat: usize, a: ClientAction| #[trigger] ends_ok_f(self@, spec_apply_f(self@, seat, a).1) by {
                crate::laws::law_classic_room_to_finish_fits(self@, seat, a);
            }
        }
        true
    }
}

} // verus!
