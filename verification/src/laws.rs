//! Laws of the game that relate several steps or hold of every state.
use vstd::prelude::*;
use vstd::multiset::Multiset;
use crate::cards::{region_bounded, sanctuary_bounded, Biome, Face, Fame, RegionCard, SanctuaryCard, Wonder};
use crate::faraway::{
    spec_apply_f, client_phase_f, is_client_view_f, shown_choices_f, shown_drafter_f, shown_order_f, shown_scores_f,
};
use crate::faraway_spec::{
    begin_drafting_f, can_score_f, draw_all, eligible_list, ends_ok_f, finalize_f, reveal_f, FarawayPhase, spec_choose_f, spec_draft_f, spec_join_f, spec_play_f, spec_start_f, tiebreak_f,
    FarawayModel,
};
use crate::game_spec::{
    advance_drafter, after_reveal, all_played, lemma_remove_all_len, min_int, can_score, deal, discarded_cards, draft_order, eligible, end_round, indices_ok,
    is_eligible_seat, keep_eligible, kept_cards, lemma_deal_keeps_drafting, lemma_number_sum_bound,
    lemma_pair_pos_range, lemma_seat_named_found, lemma_sort_pairs_elements, new_player, pair_pos, played_number,
    reseat_all, rest, returned_to_bottom, seat_keys, seat_named, seats_ok, skip_idle, skip_measure, sort_pairs,
    spec_choose_sanctuary, spec_deal_start, spec_draft_card, spec_join, spec_keep_cards, spec_play_card, spec_remove_player,
    start_refusal, top, with_phase, GameModel, PhaseModel, PlayerModel, ScoreModel,
};
use crate::records::{
    beats, colour_count, count_beating, games_with, longest_streak, occurrences, placement, run_start, streak_at_end,
    total_duration, total_with, is_top_three, GameRecord, TopCard,
};
use crate::game::{
    action_fits, ClientAction, client_phase, is_client_view, opt_view, scores_view, shown_choices, shown_drafter, shown_order, shown_setup,
    ClientGameState, ClientPlayerState,
};
use crate::scoring::{
    fame_value, kept_faces, quest_met, region_score, tableau_faces, tally, Measure,
    cards_bounded, entry_is, fame_text, is_breakdown, law_game_cards_fit, region_context, region_points, region_text,
    sanctuary_context, sanctuary_points, CardScoreEntry, PlayerScoreDetail,
};

verus! {

broadcast use vstd::seq_lib::group_to_multiset_ensures;

// ─── Sorting by number ───────────────────────────────────────────────────────

pub open spec fn sorted_by_number(o: Seq<(usize, u8)>) -> bool {
    forall|i: int, j: int| 0 <= i < j < o.len() ==> #[trigger] o[i].1 <= #[trigger] o[j].1
}

proof fn lemma_pair_pos_split(o: Seq<(usize, u8)>, x: (usize, u8))
    requires
        sorted_by_number(o),
    ensures
        forall|k: int| 0 <= k < pair_pos(o, x) ==> #[trigger] o[k].1 <= x.1,
        forall|k: int| pair_pos(o, x) <= k < o.len() ==> #[trigger] o[k].1 > x.1,
    decreases o.len(),
{
    lemma_pair_pos_range(o, x);
    if o.len() > 0 {
        let d = o.drop_last();
        assert(sorted_by_number(d)) by {
            assert forall|i: int, j: int| 0 <= i < j < d.len() implies #[trigger] d[i].1 <= #[trigger] d[j].1 by {
                assert(o[i].1 <= o[j].1);
            }
        }
        if o.last().1 > x.1 {
            lemma_pair_pos_split(d, x);
            lemma_pair_pos_range(d, x);
            assert forall|k: int| pair_pos(o, x) <= k < o.len() implies #[trigger] o[k].1 > x.1 by {
                if k < o.len() - 1 {
                    assert(o[k] == d[k]);
                }
            }
            assert forall|k: int| 0 <= k < pair_pos(o, x) implies #[trigger] o[k].1 <= x.1 by {
                assert(o[k] == d[k]);
            }
        } else {
            assert forall|k: int| 0 <= k < pair_pos(o, x) implies #[trigger] o[k].1 <= x.1 by {
                if k < o.len() - 1 {
                    assert(o[k].1 <= o[o.len() - 1].1);
                }
            }
        }
    }
}

proof fn lemma_sort_pairs_sorted(xs: Seq<(usize, u8)>)
    ensures
        sorted_by_number(sort_pairs(xs)),
    decreases xs.len(),
{
    if xs.len() > 0 {
        let x = xs.last();
        let o = sort_pairs(xs.drop_last());
        lemma_sort_pairs_sorted(xs.drop_last());
        lemma_pair_pos_split(o, x);
        lemma_pair_pos_range(o, x);
        let p = pair_pos(o, x);
        let s = o.insert(p, x);
        assert(s == sort_pairs(xs));
        assert forall|i: int, j: int| 0 <= i < j < s.len() implies #[trigger] s[i].1 <= #[trigger] s[j].1 by {
            let si = if i < p { o[i] } else if i == p { x } else { o[i - 1] };
            let sj = if j < p { o[j] } else if j == p { x } else { o[j - 1] };
            assert(s[i] == si);
            assert(s[j] == sj);
            if i < p && j > p {
                assert(o[i].1 <= x.1);
                assert(o[j - 1].1 > x.1);
            }
        }
    }
}

proof fn lemma_sort_pairs_multiset(xs: Seq<(usize, u8)>)
    ensures
        sort_pairs(xs).to_multiset() == xs.to_multiset(),
    decreases xs.len(),
{
    if xs.len() > 0 {
        let x = xs.last();
        let d = xs.drop_last();
        let o = sort_pairs(d);
        lemma_sort_pairs_multiset(d);
        lemma_sort_pairs_elements(d);
        lemma_pair_pos_range(o, x);
        assert(xs == d.push(x));
        assert(o.insert(pair_pos(o, x), x).to_multiset() == o.to_multiset().insert(x));
        assert(d.push(x).to_multiset() == d.to_multiset().insert(x));
    }
}

/// Among pairs with equal numbers, the lower seat comes first.
pub open spec fn ties_by_seat(o: Seq<(usize, u8)>) -> bool {
    forall|i: int, j: int| 0 <= i < j < o.len() && #[trigger] o[i].1 == #[trigger] o[j].1 ==> o[i].0 < o[j].0
}

/// Sorting is stable: pairs listed by seat keep that order among equal numbers.
proof fn lemma_sort_pairs_stable(xs: Seq<(usize, u8)>)
    requires
        forall|k: int| 0 <= k < xs.len() ==> #[trigger] xs[k].0 == k,
    ensures
        ties_by_seat(sort_pairs(xs)),
    decreases xs.len(),
{
    if xs.len() > 0 {
        let d = xs.drop_last();
        let x = xs.last();
        let o = sort_pairs(d);
        assert forall|k: int| 0 <= k < d.len() implies #[trigger] d[k].0 == k by {
            assert(d[k] == xs[k]);
        }
        lemma_sort_pairs_stable(d);
        lemma_sort_pairs_sorted(d);
        lemma_sort_pairs_elements(d);
        lemma_pair_pos_split(o, x);
        lemma_pair_pos_range(o, x);
        assert(x.0 == xs.len() - 1);
        let p = pair_pos(o, x);
        let s = o.insert(p, x);
        assert forall|k: int| 0 <= k < o.len() implies #[trigger] o[k].0 < x.0 by {
            let w = choose|w: int| 0 <= w < d.len() && d[w] == o[k];
            assert(d[w].0 == w);
        }
        assert forall|i: int, j: int| 0 <= i < j < s.len() && #[trigger] s[i].1 == #[trigger] s[j].1 implies s[i].0 < s[j].0 by {
            let si = if i < p { o[i] } else if i == p { x } else { o[i - 1] };
            let sj = if j < p { o[j] } else if j == p { x } else { o[j - 1] };
            assert(s[i] == si);
            assert(s[j] == sj);
            if i == p {
                assert(o[j - 1].1 > x.1);
            } else if j == p {
                assert(o[i].0 < x.0);
            } else if i < p && j > p {
                assert(o[i].1 <= x.1);
                assert(o[j - 1].1 > x.1);
            } else if i < p {
                assert(o[i].1 == o[j].1);
            } else {
                assert(o[i - 1].1 == o[j - 1].1);
            }
        }
    }
}

// ─── The draft ───────────────────────────────────────────────────────────────

/// The draft goes in ascending order of the numbers just played (lowest picks
/// first, the lower seat first among equal numbers), and every player at the
/// table drafts exactly once.
pub proof fn law_draft_order(ps: Seq<PlayerModel>)
    requires
        seats_ok(ps),
    ensures
        draft_order(ps).len() == ps.len(),
        forall|s: usize| s < ps.len() ==> #[trigger] draft_order(ps).contains(s),
        forall|i: int, j: int|
            0 <= i < j < ps.len() ==> played_number(ps[#[trigger] draft_order(ps)[i] as int]) <= played_number(
                ps[#[trigger] draft_order(ps)[j] as int],
            ),
        forall|i: int, j: int|
            0 <= i < j < ps.len() && played_number(ps[#[trigger] draft_order(ps)[i] as int]) == played_number(
                ps[#[trigger] draft_order(ps)[j] as int],
            ) ==> draft_order(ps)[i] < draft_order(ps)[j],
{
    let xs = seat_keys(ps);
    let srt = sort_pairs(xs);
    lemma_sort_pairs_elements(xs);
    lemma_sort_pairs_sorted(xs);
    lemma_sort_pairs_multiset(xs);
    assert forall|k: int| 0 <= k < xs.len() implies #[trigger] xs[k].0 == k by {
        assert(xs[k].0 == ps[k].seat);
    }
    lemma_sort_pairs_stable(xs);
    let order = draft_order(ps);
    assert forall|i: int| 0 <= i < srt.len() implies #[trigger] srt[i].1 == played_number(ps[srt[i].0 as int])
        && srt[i].0 < ps.len() by {
        let k = choose|k: int| 0 <= k < xs.len() && xs[k] == srt[i];
        assert(xs[k] == (ps[k].seat, played_number(ps[k])));
    }
    assert forall|i: int, j: int| 0 <= i < j < ps.len() implies played_number(ps[#[trigger] order[i] as int])
        <= played_number(ps[#[trigger] order[j] as int]) by {
        assert(order[i] == srt[i].0);
        assert(order[j] == srt[j].0);
        assert(srt[i].1 == played_number(ps[srt[i].0 as int]));
        assert(srt[j].1 == played_number(ps[srt[j].0 as int]));
        assert(srt[i].1 <= srt[j].1);
    }
    assert forall|i: int, j: int|
        0 <= i < j < ps.len() && played_number(ps[#[trigger] order[i] as int]) == played_number(ps[#[trigger] order[j] as int])
        implies order[i] < order[j] by {
        assert(order[i] == srt[i].0);
        assert(order[j] == srt[j].0);
        assert(srt[i].1 == played_number(ps[srt[i].0 as int]));
        assert(srt[j].1 == played_number(ps[srt[j].0 as int]));
    }
    assert forall|s: usize| s < ps.len() implies #[trigger] order.contains(s) by {
        let e = (s, played_number(ps[s as int]));
        assert(xs[s as int] == e);
        assert(xs.contains(e));
        assert(srt.to_multiset().count(e) > 0);
        assert(srt.contains(e));
        let w = choose|w: int| 0 <= w < srt.len() && srt[w] == e;
        assert(order[w] == s);
    }
}

proof fn lemma_push_contains(d: Seq<usize>, x: usize, s: usize)
    ensures
        d.push(x).contains(s) <==> d.contains(s) || x == s,
{
    if d.contains(s) {
        let w = choose|w: int| 0 <= w < d.len() && d[w] == s;
        assert(d.push(x)[w] == s);
    }
    if x == s {
        assert(d.push(x)[d.len() as int] == s);
    }
    if d.push(x).contains(s) {
        let w = choose|w: int| 0 <= w < d.push(x).len() && d.push(x)[w] == s;
        if w < d.len() {
            assert(d[w] == s);
        }
    }
}

proof fn lemma_keep_eligible_contains(order: Seq<usize>, ps: Seq<PlayerModel>, s: usize)
    ensures
        keep_eligible(order, ps).contains(s) <==> order.contains(s) && is_eligible_seat(ps, s),
    decreases order.len(),
{
    if order.len() > 0 {
        let d = order.drop_last();
        let x = order.last();
        lemma_keep_eligible_contains(d, ps, s);
        assert(order == d.push(x));
        lemma_push_contains(d, x, s);
        if is_eligible_seat(ps, x) {
            lemma_push_contains(keep_eligible(d, ps), x, s);
        }
    } else {
        assert(!order.contains(s));
    }
}

/// Exactly the players whose card just played beats the card before it wait
/// for sanctuaries after the reveal; they are dealt in draft order.
pub proof fn law_waiting_are_eligible(ps: Seq<PlayerModel>)
    requires
        seats_ok(ps),
    ensures
        forall|s: usize| #[trigger] keep_eligible(draft_order(ps), ps).contains(s) <==> s < ps.len() && eligible(ps[s as int]),
{
    law_draft_order(ps);
    assert forall|s: usize| #[trigger] keep_eligible(draft_order(ps), ps).contains(s) <==> s < ps.len() && eligible(ps[s as int]) by {
        lemma_keep_eligible_contains(draft_order(ps), ps, s);
        if is_eligible_seat(ps, s) {
            let i = choose|i: int| 0 <= i < ps.len() && ps[i].seat == s && eligible(ps[i]);
            assert(ps[i].seat == i);
        }
        if s < ps.len() && eligible(ps[s as int]) {
            assert(ps[s as int].seat == s);
            assert(is_eligible_seat(ps, s));
            assert(draft_order(ps).contains(s));
        }
    }
}


// ─── Ends of rounds ──────────────────────────────────────────────────────────

/// After a round before the last, the leftover market card is discarded and
/// the market is refilled with player count + 1 cards off the deck (while it
/// lasts); the next round starts with everyone choosing a card.
pub proof fn law_market_refilled(g: GameModel)
    requires
        g.round < 8,
        g.region_deck.len() >= g.players.len() + 1,
    ensures
        end_round(g).market == top(g.region_deck, g.players.len() + 1int),
        end_round(g).market.len() == g.players.len() + 1,
        forall|i: int| 0 <= i < g.players.len() + 1 ==> #[trigger] end_round(g).market[i]
            == g.region_deck[g.region_deck.len() - 1 - i],
        end_round(g).region_deck == rest(g.region_deck, g.players.len() + 1int),
        end_round(g).region_deck == g.region_deck.take(g.region_deck.len() - (g.players.len() + 1)),
        end_round(g).round == g.round + 1,
        end_round(g).phase is Choosing,
{
}

/// The same in the classic game: after a round before the last, the market is
/// refilled with player count + 1 cards off the top of the deck (its last
/// cards, the top one first), and the next round starts.
pub proof fn law_classic_market_refilled(g: FarawayModel)
    requires
        g.round < 8,
        g.region_deck.len() >= g.players.len() + 1,
    ensures
        crate::faraway_spec::end_round_f(g).market.len() == g.players.len() + 1,
        forall|i: int| 0 <= i < g.players.len() + 1 ==> #[trigger] crate::faraway_spec::end_round_f(g).market[i]
            == g.region_deck[g.region_deck.len() - 1 - i],
        crate::faraway_spec::end_round_f(g).region_deck == g.region_deck.take(g.region_deck.len() - (g.players.len() + 1)),
        crate::faraway_spec::end_round_f(g).round == g.round + 1,
        crate::faraway_spec::end_round_f(g).phase is Choosing,
{
}

/// The eighth round ends the game: nothing is refilled and the scores are final.
pub proof fn law_round_eight_ends(g: GameModel)
    requires
        g.round == 8,
    ensures
        end_round(g).phase is Over,
        end_round(g).market.len() == 0,
        end_round(g).players == g.players,
{
}

proof fn lemma_skip_idle_last_round(g: GameModel)
    requires
        g.round == 8,
        g.market.len() == 0,
        g.phase matches PhaseModel::Drafting { drafted, .. } && drafted,
    ensures
        skip_idle(g).market.len() == 0,
        skip_idle(g).phase is Over || (skip_idle(g).phase matches PhaseModel::Drafting { drafted, .. } && drafted),
    decreases skip_measure(g),
{
    match g.phase {
        PhaseModel::Drafting { order, current, waiting, pending, drafted } => {
            if current >= order.len() || current >= usize::MAX {
            } else {
                let seat = order[current as int];
                if pending.contains_key(seat) || waiting.contains(seat) {
                } else if current + 1 >= order.len() {
                } else {
                    lemma_skip_idle_last_round(
                        with_phase(g, PhaseModel::Drafting { order, current: (current + 1) as usize, waiting, pending, drafted }),
                    );
                }
            }
        },
        _ => {},
    }
}

/// In the eighth round there is no market to draft from: once the cards are
/// revealed the market is empty, and every request to draft is refused.
pub proof fn law_no_draft_in_round_eight(g: GameModel, seat: usize, m: usize)
    requires
        g.round == 8,
        seats_ok(g.players),
    ensures
        after_reveal(g).market.len() == 0,
        spec_draft_card(after_reveal(g), seat, m).0 is Err,
{
    let ps = g.players.map_values(|p: PlayerModel| crate::game_spec::commit(p));
    let order = draft_order(ps);
    let waiting = keep_eligible(order, ps);
    let g1 = GameModel { players: ps, market: Seq::empty(), ..g };
    if waiting.len() > 0 {
        let d0 = with_phase(g1, PhaseModel::Drafting { order, current: 0, waiting, pending: Map::empty(), drafted: true });
        assert(seats_ok(ps)) by {
            assert forall|i: int| 0 <= i < ps.len() implies #[trigger] ps[i].seat == i by {
                assert(ps[i].seat == g.players[i].seat);
            }
        }
        crate::game_spec::lemma_draft_order_seats(ps);
        crate::game_spec::lemma_keep_eligible_below(order, ps, ps.len() as int);
        lemma_deal_keeps_drafting(d0);
        lemma_skip_idle_last_round(deal(d0));
    }
}

// ─── Joining and leaving ─────────────────────────────────────────────────────

/// Joining again under the same name (a reconnect) gives back the same seat
/// and changes nothing.
pub proof fn law_join_twice(g: GameModel, name: Seq<char>)
    requires
        spec_join(g, name).0 is Ok,
    ensures
        spec_join(spec_join(g, name).1, name) == spec_join(g, name),
{
    let (r, g1) = spec_join(g, name);
    if seat_named(g.players, name) is None {
        let n = g.players.len() as int;
        assert(g1.players == g.players.push(new_player(n as usize, name)));
        assert forall|k: int| 0 <= k < n implies g1.players[k].name != name by {
            assert(g1.players[k] == g.players[k]);
        }
        lemma_seat_named_found(g1.players, name, n);
    }
}

proof fn lemma_seat_named_some(ps: Seq<PlayerModel>, name: Seq<char>, i: int)
    requires
        0 <= i < ps.len(),
        i <= usize::MAX,
        ps[i].name == name,
    ensures
        seat_named(ps, name) matches Some(p) && p < ps.len() && ps[p as int].name == name,
    decreases i,
{
    if exists|k: int| 0 <= k < i && ps[k].name == name {
        let k = choose|k: int| 0 <= k < i && ps[k].name == name;
        lemma_seat_named_some(ps, name, k);
    } else {
        lemma_seat_named_found(ps, name, i);
    }
}

/// Leaving renumbers the seats: the remaining players keep their order and sit
/// at seats 0, 1, 2, … again.
pub proof fn law_leave_renumbers(g: GameModel, name: Seq<char>)
    requires
        seats_ok(g.players),
    ensures
        seats_ok(spec_remove_player(g, name).players),
        seat_named(g.players, name) is Some ==> spec_remove_player(g, name).players.len() == g.players.len() - 1,
        seat_named(g.players, name) is None ==> spec_remove_player(g, name) == g,
{
    if g.players.len() > 0 {
        assert(g.players[g.players.len() - 1].seat == g.players.len() - 1);
    }
    if exists|j: int| 0 <= j < g.players.len() && g.players[j].name == name {
        let j = choose|j: int| 0 <= j < g.players.len() && g.players[j].name == name;
        assert(g.players[j].seat == j);
        lemma_seat_named_some(g.players, name, j);
        let p = seat_named(g.players, name)->0;
        let rs = reseat_all(g.players.remove(p as int));
        assert forall|i: int| 0 <= i < rs.len() implies #[trigger] rs[i].seat == i by {
            assert(i < g.players.len() - 1);
        }
    }
}

// ─── Keeping three of five ───────────────────────────────────────────────────

/// The cards kept so far: those at the three positions that come before `n`.
pub open spec fn kept_before(dealt: Seq<RegionCard>, ix: Seq<usize>, n: int) -> Multiset<RegionCard> {
    let one = |j: int| if ix[j] < n { Multiset::singleton(dealt[ix[j] as int]) } else { Multiset::empty() };
    one(0).add(one(1)).add(one(2))
}

proof fn lemma_keep_prefix(dealt: Seq<RegionCard>, ix: Seq<usize>, n: int)
    requires
        0 <= n <= dealt.len(),
        dealt.len() <= usize::MAX,
        ix.len() == 3,
        indices_ok(ix, dealt.len() as int),
    ensures
        dealt.take(n).to_multiset() == discarded_cards(dealt.take(n), ix).to_multiset().add(kept_before(dealt, ix, n)),
        discarded_cards(dealt.take(n), ix).len() + kept_before(dealt, ix, n).len() == n,
    decreases n,
{
    broadcast use vstd::multiset::group_multiset_axioms;
    if n == 0 {
        assert(dealt.take(0) =~= Seq::<RegionCard>::empty());
        assert(kept_before(dealt, ix, 0) =~= Multiset::empty());
    } else {
        let m = n - 1;
        lemma_keep_prefix(dealt, ix, m);
        let e = dealt[m];
        let t1 = dealt.take(n);
        assert(t1.drop_last() =~= dealt.take(m));
        assert(t1 == dealt.take(m).push(e));
        let in_ix = ix[0] == m || ix[1] == m || ix[2] == m;
        assert(ix.contains(m as usize) == in_ix) by {
            if ix[0] == m {
                assert(ix[0] == m as usize);
            }
            if ix[1] == m {
                assert(ix[1] == m as usize);
            }
            if ix[2] == m {
                assert(ix[2] == m as usize);
            }
        }
        if in_ix {
            assert(kept_before(dealt, ix, n) =~= kept_before(dealt, ix, m).insert(e));
        } else {
            assert(kept_before(dealt, ix, n) =~= kept_before(dealt, ix, m));
        }
        assert(t1.to_multiset() =~= discarded_cards(t1, ix).to_multiset().add(kept_before(dealt, ix, n)));
    }
}

/// Keeping three of the dealt cards loses none: the kept and the discarded
/// cards together are exactly the dealt ones, and two of five go back.
pub proof fn law_keep_three_of_five(dealt: Seq<RegionCard>, ix: Seq<usize>)
    requires
        dealt.len() <= usize::MAX,
        ix.len() == 3,
        indices_ok(ix, dealt.len() as int),
    ensures
        (kept_cards(dealt, ix) + discarded_cards(dealt, ix)).to_multiset() == dealt.to_multiset(),
        discarded_cards(dealt, ix).len() == dealt.len() - 3,
{
    lemma_keep_prefix(dealt, ix, dealt.len() as int);
    assert(dealt.take(dealt.len() as int) =~= dealt);
    let k = kept_cards(dealt, ix);
    let a = dealt[ix[0] as int];
    let b = dealt[ix[1] as int];
    let c = dealt[ix[2] as int];
    let e = Seq::<RegionCard>::empty();
    assert(k == e.push(a).push(b).push(c));
    assert(e.to_multiset() =~= Multiset::empty()) by {
        broadcast use vstd::multiset::group_multiset_axioms;
    }
    assert(k.to_multiset() =~= kept_before(dealt, ix, dealt.len() as int)) by {
        broadcast use vstd::multiset::group_multiset_axioms;
        assert(e.push(a).to_multiset() == e.to_multiset().insert(a));
        assert(e.push(a).push(b).to_multiset() == e.push(a).to_multiset().insert(b));
        assert(k.to_multiset() == e.push(a).push(b).to_multiset().insert(c));
    }
    vstd::seq_lib::lemma_multiset_commutative(k, discarded_cards(dealt, ix));
}

// ─── Placements and ranks ────────────────────────────────────────────────────

proof fn lemma_beating_monotone(rs: Seq<(u32, u32)>, x: (u32, u32), y: (u32, u32))
    requires
        beats(x, y),
    ensures
        count_beating(rs, x) <= count_beating(rs, y),
        rs.contains(x) ==> count_beating(rs, x) + 1 <= count_beating(rs, y),
    decreases rs.len(),
{
    if rs.len() > 0 {
        let d = rs.drop_last();
        lemma_beating_monotone(d, x, y);
        if d.contains(x) {
        } else if rs.contains(x) {
            let w = choose|w: int| 0 <= w < rs.len() && rs[w] == x;
            if w < d.len() {
                assert(d[w] == x);
            }
        }
    }
}

proof fn lemma_none_beating(rs: Seq<(u32, u32)>, x: (u32, u32))
    requires
        forall|k: int| 0 <= k < rs.len() ==> !beats(#[trigger] rs[k], x),
    ensures
        count_beating(rs, x) == 0,
    decreases rs.len(),
{
    if rs.len() > 0 {
        let d = rs.drop_last();
        assert forall|k: int| 0 <= k < d.len() implies !beats(#[trigger] d[k], x) by {
            assert(d[k] == rs[k]);
        }
        lemma_none_beating(d, x);
    }
}

/// Placements follow the results: a higher score, or the same score with a
/// lower card-number sum, always places strictly better; equal results share
/// their placement; and a result nobody beats is placed first.
pub proof fn law_placements_follow_results(rs: Seq<(u32, u32)>, i: int, j: int)
    requires
        0 <= i < rs.len(),
        0 <= j < rs.len(),
    ensures
        beats(rs[i], rs[j]) ==> placement(rs, i) < placement(rs, j),
        rs[i] == rs[j] ==> placement(rs, i) == placement(rs, j),
        (forall|k: int| 0 <= k < rs.len() ==> !beats(#[trigger] rs[k], rs[i])) ==> placement(rs, i) == 1,
{
    if beats(rs[i], rs[j]) {
        assert(rs.contains(rs[i]));
        lemma_beating_monotone(rs, rs[i], rs[j]);
    }
    if forall|k: int| 0 <= k < rs.len() ==> !beats(#[trigger] rs[k], rs[i]) {
        lemma_none_beating(rs, rs[i]);
    }
}

/// Results listed best first: no later result beats an earlier one.
pub open spec fn best_first(rs: Seq<(u32, u32)>) -> bool {
    forall|a: int, b: int| 0 <= a < b < rs.len() ==> !beats(#[trigger] rs[b], #[trigger] rs[a])
}

proof fn lemma_run_start_props(rs: Seq<(u32, u32)>, i: int)
    requires
        0 <= i < rs.len(),
    ensures
        0 <= run_start(rs, i) <= i,
        forall|k: int| run_start(rs, i) <= k <= i ==> #[trigger] rs[k] == rs[i],
        run_start(rs, i) > 0 ==> rs[run_start(rs, i) - 1] != rs[i],
    decreases i,
{
    if i > 0 && rs[i - 1] == rs[i] {
        lemma_run_start_props(rs, i - 1);
    }
}

proof fn lemma_count_prefix(rs: Seq<(u32, u32)>, x: (u32, u32), s: int)
    requires
        0 <= s <= rs.len(),
        forall|k: int| 0 <= k < rs.len() ==> (beats(#[trigger] rs[k], x) <==> k < s),
    ensures
        count_beating(rs, x) == s,
    decreases rs.len(),
{
    if rs.len() > 0 {
        let d = rs.drop_last();
        if s == rs.len() {
            assert forall|k: int| 0 <= k < d.len() implies (beats(#[trigger] d[k], x) <==> k < s - 1) by {
                assert(d[k] == rs[k]);
            }
            lemma_count_prefix(d, x, s - 1);
            assert(beats(rs[rs.len() - 1], x));
        } else {
            assert forall|k: int| 0 <= k < d.len() implies (beats(#[trigger] d[k], x) <==> k < s) by {
                assert(d[k] == rs[k]);
            }
            lemma_count_prefix(d, x, s);
            assert(!beats(rs[rs.len() - 1], x));
        }
    }
}

/// On a leaderboard listed best first, the rank given to each entry (the
/// position of the first of its equals) is its competition placement: one more
/// than the number of entries that beat it.
pub proof fn law_ranks_are_placements(rs: Seq<(u32, u32)>, i: int)
    requires
        best_first(rs),
        0 <= i < rs.len(),
    ensures
        run_start(rs, i) + 1 == placement(rs, i),
{
    lemma_run_start_props(rs, i);
    let s = run_start(rs, i);
    assert forall|k: int| 0 <= k < rs.len() implies (beats(#[trigger] rs[k], rs[i]) <==> k < s) by {
        if k < s {
            // The entry just before the run differs from it and is not beaten by it.
            let q = rs[s - 1];
            assert(q != rs[i]);
            assert(!beats(rs[i], q)) by {
                if s - 1 < i {
                    assert(!beats(rs[i], rs[s - 1]));
                }
            }
            assert(beats(q, rs[i]));
            if k < s - 1 {
                assert(!beats(rs[s - 1], rs[k]));
            }
        } else if k <= i {
            assert(rs[k] == rs[i]);
        } else {
            assert(!beats(rs[k], rs[i]));
        }
    }
    lemma_count_prefix(rs, rs[i], s);
}


// ─── What a player is shown ──────────────────────────────────────────────────

/// What everyone sees of a player: seat, name, how many cards in hand, the
/// cards laid down, and whether a card is played face down.
pub open spec fn same_face(p: PlayerModel, q: PlayerModel) -> bool {
    &&& p.seat == q.seat
    &&& p.name == q.name
    &&& p.hand.len() == q.hand.len()
    &&& p.tableau == q.tableau
    &&& p.sanctuaries == q.sanctuaries
    &&& (p.played is Some) == (q.played is Some)
}

/// The final scores, once the game is over.
pub open spec fn shown_scores(p: PhaseModel) -> Option<Seq<ScoreModel>> {
    match p {
        PhaseModel::Over { scores } => Some(scores),
        _ => None,
    }
}

/// Two games that seat `m` cannot tell apart: they agree on everything
/// public (phase, round, market, the sizes of the decks, every player's
/// face, the draft, the final scores) and on what is `m`'s own (hand, played
/// card, cards to choose from). Other hands, other played cards, other
/// players' choices and the order of the decks may differ.
pub open spec fn look_alike(g1: GameModel, g2: GameModel, m: usize) -> bool {
    &&& client_phase(g1.phase) == client_phase(g2.phase)
    &&& g1.round == g2.round
    &&& g1.player_count == g2.player_count
    &&& g1.market == g2.market
    &&& g1.region_deck.len() == g2.region_deck.len()
    &&& g1.sanctuary_deck.len() == g2.sanctuary_deck.len()
    &&& g1.players.len() == g2.players.len()
    &&& forall|i: int| 0 <= i < g1.players.len() ==> same_face(#[trigger] g1.players[i], g2.players[i])
    &&& m < g1.players.len() ==> g1.players[m as int].hand == g2.players[m as int].hand
        && g1.players[m as int].played == g2.players[m as int].played
    &&& shown_order(g1.phase) == shown_order(g2.phase)
    &&& shown_drafter(g1.phase) == shown_drafter(g2.phase)
    &&& (g1.phase matches PhaseModel::Drafting { drafted, .. } && drafted)
        == (g2.phase matches PhaseModel::Drafting { drafted, .. } && drafted)
    &&& shown_setup(g1.phase, m) == shown_setup(g2.phase, m)
    &&& shown_choices(g1.phase, m) == shown_choices(g2.phase, m)
    &&& shown_scores(g1.phase) == shown_scores(g2.phase)
}

pub open spec fn same_entries(a: Seq<CardScoreEntry>, b: Seq<CardScoreEntry>) -> bool {
    &&& a.len() == b.len()
    &&& forall|k: int|
        0 <= k < a.len() ==> {
            &&& (#[trigger] a[k]).kind@ == b[k].kind@
            &&& a[k].number == b[k].number
            &&& a[k].points == b[k].points
            &&& a[k].explanation@ == b[k].explanation@
        }
}

pub open spec fn same_detail(a: PlayerScoreDetail, b: PlayerScoreDetail) -> bool {
    a.seat == b.seat && a.name@ == b.name@ && same_entries(a.entries@, b.entries@) && a.total == b.total
}

pub open spec fn same_shown_player(a: ClientPlayerState, b: ClientPlayerState) -> bool {
    &&& a.seat == b.seat
    &&& a.name@ == b.name@
    &&& a.hand_size == b.hand_size
    &&& a.tableau@ == b.tableau@
    &&& a.sanctuaries@ == b.sanctuaries@
    &&& a.played_this_round == b.played_this_round
}

/// Two snapshots that carry the same information, field by field.
pub open spec fn same_client_view(a: ClientGameState, b: ClientGameState) -> bool {
    &&& a.phase == b.phase
    &&& a.round == b.round
    &&& a.my_seat == b.my_seat
    &&& a.my_hand@ == b.my_hand@
    &&& a.players@.len() == b.players@.len()
    &&& forall|i: int| 0 <= i < a.players@.len() ==> same_shown_player(#[trigger] a.players@[i], b.players@[i])
    &&& a.market@ == b.market@
    &&& a.deck_size == b.deck_size
    &&& a.sanctuary_deck_size == b.sanctuary_deck_size
    &&& a.draft_order@ == b.draft_order@
    &&& a.current_drafter == b.current_drafter
    &&& a.drafter_choosing_sanctuary == b.drafter_choosing_sanctuary
    &&& opt_view(a.advanced_setup_choices) == opt_view(b.advanced_setup_choices)
    &&& opt_view(a.sanctuary_choices) == opt_view(b.sanctuary_choices)
    &&& match (a.scores, b.scores) {
        (Some(x), Some(y)) => scores_view(x@) == scores_view(y@),
        (None, None) => true,
        _ => false,
    }
    &&& match (a.my_score_detail, b.my_score_detail) {
        (Some(x), Some(y)) => same_entries(x@, y@),
        (None, None) => true,
        _ => false,
    }
    &&& match (a.all_score_details, b.all_score_details) {
        (Some(x), Some(y)) => x@.len() == y@.len() && forall|i: int| 0 <= i < x@.len() ==> same_detail(#[trigger] x@[i], y@[i]),
        (None, None) => true,
        _ => false,
    }
    &&& a.my_played_card == b.my_played_card
    &&& a.player_count == b.player_count
}

/// Two breakdowns of the same cards agree entry by entry.
proof fn lemma_breakdowns_agree(a: Seq<CardScoreEntry>, b: Seq<CardScoreEntry>, t: Seq<RegionCard>, s: Seq<SanctuaryCard>)
    requires
        is_breakdown(a, t, s),
        is_breakdown(b, t, s),
    ensures
        same_entries(a, b),
{
    assert forall|k: int| 0 <= k < a.len() implies {
        &&& (#[trigger] a[k]).kind@ == b[k].kind@
        &&& a[k].number == b[k].number
        &&& a[k].points == b[k].points
        &&& a[k].explanation@ == b[k].explanation@
    } by {
        if k < t.len() {
            let i = t.len() - 1 - k;
            let pts = region_points(t, s, i);
            let txt = region_text(t[i], region_context(t, s, i));
            assert(entry_is(a[k], "region"@, t[i].number, pts, txt));
            assert(entry_is(b[k], "region"@, t[i].number, pts, txt));
        } else {
            let j = k - t.len();
            let pts = sanctuary_points(t, s, j);
            let txt = fame_text(s[j].fame, sanctuary_context(t, s, j));
            assert(a[t.len() + j] == a[k]);
            assert(entry_is(a[t.len() + j], "sanctuary"@, s[j].tile, pts, txt));
            assert(entry_is(b[t.len() + j], "sanctuary"@, s[j].tile, pts, txt));
        }
    }
}

/// Per-player snapshots: what a player is sent depends only on what that
/// player may see. Two games that look alike from seat `m` (they may differ
/// in other players' hands and played cards, in other players' sanctuary
/// choices and in the order of the decks) give seat `m` the same snapshot.
pub proof fn law_snapshot_shows_only_what_is_visible(
    g1: GameModel,
    g2: GameModel,
    m: usize,
    r1: ClientGameState,
    r2: ClientGameState,
)
    requires
        look_alike(g1, g2, m),
        is_client_view(r1, g1, m),
        is_client_view(r2, g2, m),
    ensures
        same_client_view(r1, r2),
{
    assert forall|i: int| 0 <= i < r1.players@.len() implies same_shown_player(#[trigger] r1.players@[i], r2.players@[i]) by {
        assert(same_face(g1.players[i], g2.players[i]));
    }
    if r1.my_score_detail is Some {
        let p1 = g1.players[m as int];
        let p2 = g2.players[m as int];
        assert(same_face(p1, p2));
        assert(crate::game_spec::commit(p1).tableau == crate::game_spec::commit(p2).tableau);
        lemma_breakdowns_agree(r1.my_score_detail->0@, r2.my_score_detail->0@, crate::game_spec::commit(p1).tableau, p1.sanctuaries);
    }
    if r1.all_score_details is Some {
        let x = r1.all_score_details->0@;
        let y = r2.all_score_details->0@;
        assert forall|i: int| 0 <= i < x.len() implies same_detail(#[trigger] x[i], y[i]) by {
            assert(same_face(g1.players[i], g2.players[i]));
            lemma_breakdowns_agree(x[i].entries@, y[i].entries@, g1.players[i].tableau, g1.players[i].sanctuaries);
        }
    }
}

/// Two classic games that seat `m` cannot tell apart: they agree on
/// everything public and on `m`'s own hand and sanctuary choices.
pub open spec fn look_alike_f(g1: FarawayModel, g2: FarawayModel, m: usize) -> bool {
    &&& client_phase_f(g1.phase) == client_phase_f(g2.phase)
    &&& g1.round == g2.round
    &&& g1.player_count == g2.player_count
    &&& g1.market == g2.market
    &&& g1.region_deck.len() == g2.region_deck.len()
    &&& g1.sanctuary_deck.len() == g2.sanctuary_deck.len()
    &&& g1.players.len() == g2.players.len()
    &&& forall|i: int| 0 <= i < g1.players.len() ==> same_face(#[trigger] g1.players[i], g2.players[i])
    &&& m < g1.players.len() ==> g1.players[m as int].hand == g2.players[m as int].hand
    &&& shown_order_f(g1.phase) == shown_order_f(g2.phase)
    &&& shown_drafter_f(g1.phase) == shown_drafter_f(g2.phase)
    &&& shown_choices_f(g1.phase, m) == shown_choices_f(g2.phase, m)
    &&& shown_scores_f(g1.phase) == shown_scores_f(g2.phase)
}

/// Two classic snapshots that carry the same information, field by field.
pub open spec fn same_client_view_f(a: crate::faraway::ClientGameState, b: crate::faraway::ClientGameState) -> bool {
    &&& a.phase == b.phase
    &&& a.round == b.round
    &&& a.my_seat == b.my_seat
    &&& a.my_hand@ == b.my_hand@
    &&& a.players@.len() == b.players@.len()
    &&& forall|i: int| 0 <= i < a.players@.len() ==> same_shown_player(#[trigger] a.players@[i], b.players@[i])
    &&& a.market@ == b.market@
    &&& a.deck_size == b.deck_size
    &&& a.sanctuary_deck_size == b.sanctuary_deck_size
    &&& a.draft_order@ == b.draft_order@
    &&& a.current_drafter == b.current_drafter
    &&& opt_view(a.sanctuary_choices) == opt_view(b.sanctuary_choices)
    &&& match (a.scores, b.scores) {
        (Some(x), Some(y)) => scores_view(x@) == scores_view(y@),
        (None, None) => true,
        _ => false,
    }
    &&& a.player_count == b.player_count
}

/// The same for the classic game: two classic games that look alike from
/// seat `m` give seat `m` the same snapshot.
pub proof fn law_classic_snapshot_shows_only_what_is_visible(
    g1: FarawayModel,
    g2: FarawayModel,
    m: usize,
    r1: crate::faraway::ClientGameState,
    r2: crate::faraway::ClientGameState,
)
    requires
        look_alike_f(g1, g2, m),
        is_client_view_f(r1, g1, m),
        is_client_view_f(r2, g2, m),
    ensures
        same_client_view_f(r1, r2),
{
    assert forall|i: int| 0 <= i < r1.players@.len() implies same_shown_player(#[trigger] r1.players@[i], r2.players@[i]) by {
        assert(same_face(g1.players[i], g2.players[i]));
    }
}

// ─── Accounting for sanctuary cards ──────────────────────────────────────────

/// The sanctuaries kept by the players, all together.
pub open spec fn kept_all(ps: Seq<PlayerModel>) -> Multiset<SanctuaryCard>
    decreases ps.len(),
{
    if ps.len() == 0 {
        Multiset::empty()
    } else {
        kept_all(ps.drop_last()).add(ps.last().sanctuaries.to_multiset())
    }
}

/// The draws waiting for a choice, of the seats below `n`, all together.
pub open spec fn pending_all(pending: Map<usize, Seq<SanctuaryCard>>, n: int) -> Multiset<SanctuaryCard>
    decreases n,
{
    if n <= 0 {
        Multiset::empty()
    } else {
        let here = if n - 1 <= usize::MAX && pending.contains_key((n - 1) as usize) {
            pending[(n - 1) as usize].to_multiset()
        } else {
            Multiset::empty()
        };
        pending_all(pending, n - 1).add(here)
    }
}

/// Every sanctuary card of a game: in the deck, kept, or drawn and waiting
/// for a choice.
pub open spec fn sanctuary_cards(g: GameModel) -> Multiset<SanctuaryCard> {
    let drawn = match g.phase {
        PhaseModel::Drafting { pending, .. } => pending_all(pending, g.players.len() as int),
        _ => Multiset::empty(),
    };
    g.sanctuary_deck.to_multiset().add(kept_all(g.players)).add(drawn)
}

proof fn lemma_kept_give(ps: Seq<PlayerModel>, s: int, c: SanctuaryCard)
    requires
        0 <= s < ps.len(),
    ensures
        kept_all(ps.update(s, PlayerModel { sanctuaries: ps[s].sanctuaries.push(c), ..ps[s] })) == kept_all(ps).insert(c),
    decreases ps.len(),
{
    broadcast use vstd::multiset::group_multiset_axioms;
    let q = ps.update(s, PlayerModel { sanctuaries: ps[s].sanctuaries.push(c), ..ps[s] });
    if s == ps.len() - 1 {
        assert(q.drop_last() =~= ps.drop_last());
        assert(q.last().sanctuaries.to_multiset() == ps.last().sanctuaries.to_multiset().insert(c));
        assert(kept_all(q) =~= kept_all(ps).insert(c));
    } else {
        lemma_kept_give(ps.drop_last(), s, c);
        assert(q.drop_last() =~= ps.drop_last().update(s, PlayerModel { sanctuaries: ps[s].sanctuaries.push(c), ..ps[s] }));
        assert(q.last() == ps.last());
        assert(kept_all(q) =~= kept_all(ps).insert(c));
    }
}

proof fn lemma_pending_insert(pending: Map<usize, Seq<SanctuaryCard>>, n: int, s: usize, cs: Seq<SanctuaryCard>)
    requires
        s < n,
        !pending.contains_key(s),
    ensures
        pending_all(pending.insert(s, cs), n) == pending_all(pending, n).add(cs.to_multiset()),
    decreases n,
{
    broadcast use vstd::multiset::group_multiset_axioms;
    if n - 1 == s {
        assert(pending_all(pending.insert(s, cs), n - 1) == pending_all(pending, n - 1)) by {
            lemma_pending_same(pending.insert(s, cs), pending, n - 1);
        }
        assert(pending_all(pending.insert(s, cs), n) =~= pending_all(pending, n).add(cs.to_multiset()));
    } else {
        lemma_pending_insert(pending, n - 1, s, cs);
        if n - 1 <= usize::MAX {
            let t = (n - 1) as usize;
            assert(t != s);
            assert(pending.insert(s, cs).contains_key(t) == pending.contains_key(t));
            if pending.contains_key(t) {
                assert(pending.insert(s, cs)[t] == pending[t]);
            }
        }
        assert(pending_all(pending.insert(s, cs), n) =~= pending_all(pending, n).add(cs.to_multiset()));
    }
}

proof fn lemma_pending_same(a: Map<usize, Seq<SanctuaryCard>>, b: Map<usize, Seq<SanctuaryCard>>, n: int)
    requires
        forall|k: usize| k < n ==> (#[trigger] a.contains_key(k) <==> b.contains_key(k)) && (a.contains_key(k) ==> a[k] == b[k]),
    ensures
        pending_all(a, n) == pending_all(b, n),
    decreases n,
{
    if n > 0 {
        lemma_pending_same(a, b, n - 1);
        if n - 1 <= usize::MAX {
            let t = (n - 1) as usize;
            assert(a.contains_key(t) <==> b.contains_key(t));
        }
    }
}

proof fn lemma_pending_remove(pending: Map<usize, Seq<SanctuaryCard>>, n: int, s: usize)
    requires
        s < n,
        pending.contains_key(s),
    ensures
        pending_all(pending.remove(s), n).add(pending[s].to_multiset()) == pending_all(pending, n),
    decreases n,
{
    broadcast use vstd::multiset::group_multiset_axioms;
    if n - 1 == s {
        lemma_pending_same(pending.remove(s), pending, n - 1);
        assert(pending_all(pending.remove(s), n).add(pending[s].to_multiset()) =~= pending_all(pending, n));
    } else {
        lemma_pending_remove(pending, n - 1, s);
        if n - 1 <= usize::MAX {
            let t = (n - 1) as usize;
            assert(t != s);
            assert(pending.remove(s).contains_key(t) == pending.contains_key(t));
            if pending.contains_key(t) {
                assert(pending.remove(s)[t] == pending[t]);
            }
        }
        assert(pending_all(pending.remove(s), n).add(pending[s].to_multiset()) =~= pending_all(pending, n));
    }
}

proof fn lemma_deck_split(d: Seq<SanctuaryCard>, k: int)
    requires
        0 <= k <= d.len(),
    ensures
        rest(d, k).to_multiset().add(top(d, k).to_multiset()) == d.to_multiset(),
{
    let n = d.len() as int;
    let low = d.subrange(0, n - k);
    let high = d.subrange(n - k, n);
    assert(top(d, k) =~= high.reverse());
    assert(rest(d, k) =~= low);
    assert(low + high =~= d);
    high.lemma_reverse_to_multiset();
    vstd::seq_lib::lemma_multiset_commutative(low, high);
}

/// Dealing moves sanctuaries from the deck to the players and their draws:
/// none is created, duplicated or lost, and waiting seats stay apart from
/// the draws.
proof fn lemma_deal_conserves(g: GameModel)
    requires
        g.wf(),
        g.phase is Drafting,
    ensures
        sanctuary_cards(deal(g)) == sanctuary_cards(g),
        deal(g).wf(),
    decreases crate::game_spec::waiting_len(g),
{
    broadcast use vstd::multiset::group_multiset_axioms;
    lemma_deal_keeps_drafting(g);
    match g.phase {
        PhaseModel::Drafting { order, current, waiting, pending, drafted } => {
            if waiting.len() > 0 {
                let seat = waiting[0];
                lemma_remove_all_len(waiting, seat);
                assert(waiting.contains(seat)) by {
                    assert(waiting[0] == seat);
                }
                let count = crate::game_spec::draw_count(g.players[seat as int]);
                let is_current = order[current as int] == seat;
                let deck_size = g.sanctuary_deck.len();
                let waiting2 = crate::game_spec::remove_all(waiting, seat);
                let n = g.players.len() as int;
                if deck_size == 0 && pending.is_empty() {
                    let h = with_phase(g, PhaseModel::Drafting { order, current, waiting: Seq::empty(), pending, drafted });
                    assert(deal(g) == h);
                    assert(sanctuary_cards(h) == sanctuary_cards(g));
                } else if !(deck_size == 0) && !(deck_size < count && !is_current) {
                    let k = min_int(count as int, deck_size as int);
                    let choices = crate::game_spec::drawn(g, seat);
                    let g2 = crate::game_spec::after_draw(g, seat);
                    assert(seat < n);
                    assert(!pending.contains_key(seat)) by {
                        assert(waiting[0] == seat);
                    }
                    lemma_deck_split(g.sanctuary_deck, k);
                    assert(choices == top(g.sanctuary_deck, k));
                    assert(g2.sanctuary_deck == rest(g.sanctuary_deck, k));
                    let g3 = if choices.len() == 1 {
                        with_phase(
                            crate::game_spec::give_sanctuary(g2, seat, choices[0]),
                            PhaseModel::Drafting { order, current, waiting: waiting2, pending, drafted },
                        )
                    } else {
                        with_phase(
                            g2,
                            PhaseModel::Drafting { order, current, waiting: waiting2, pending: pending.insert(seat, choices), drafted },
                        )
                    };
                    assert(deal(g) == deal(g3));
                    if choices.len() == 1 {
                        lemma_kept_give(g.players, seat as int, choices[0]);
                        assert(choices =~= seq![choices[0]]);
                        assert(choices.to_multiset() == Multiset::<SanctuaryCard>::empty().insert(choices[0]));
                        assert(sanctuary_cards(g3) =~= sanctuary_cards(g));
                    } else {
                        lemma_pending_insert(pending, n, seat, choices);
                        assert(sanctuary_cards(g3) =~= sanctuary_cards(g));
                    }
                    // The seats still waiting hold no draw.
                    assert forall|j: int| 0 <= j < waiting2.len() implies !g3.phase->pending.contains_key(#[trigger] waiting2[j]) by {
                        assert(waiting.contains(waiting2[j]));
                        let w = choose|w: int| 0 <= w < waiting.len() && waiting[w] == waiting2[j];
                        assert(!pending.contains_key(waiting[w]));
                        assert(waiting2[j] != seat) by {
                            assert(!waiting2.contains(seat));
                        }
                    }
                    assert(g3.wf()) by {
                        assert(seats_ok(g3.players)) by {
                            assert forall|i: int| 0 <= i < g3.players.len() implies #[trigger] g3.players[i].seat == i by {
                                assert(g3.players[i].seat == g.players[i].seat);
                            }
                        }
                        assert forall|j: int| 0 <= j < waiting2.len() implies #[trigger] waiting2[j] < g3.players.len() by {
                            assert(waiting.contains(waiting2[j]));
                        }
                    }
                    lemma_deal_conserves(g3);
                } else {
                    assert(deal(g) == g);
                }
            }
        },
        _ => {},
    }
}

/// The draws waiting for a choice, all together.
pub open spec fn draws_of(g: GameModel) -> Multiset<SanctuaryCard> {
    match g.phase {
        PhaseModel::Drafting { pending, .. } => pending_all(pending, g.players.len() as int),
        _ => Multiset::empty(),
    }
}

/// The end of a round (or of the game) keeps the sanctuary deck and every
/// kept sanctuary, and drops exactly the draws still waiting for a choice.
pub proof fn law_round_end_drops_only_draws(g: GameModel)
    ensures
        !(end_round(g).phase is Drafting),
        sanctuary_cards(g) == sanctuary_cards(end_round(g)).add(draws_of(g)),
{
    broadcast use vstd::multiset::group_multiset_axioms;
    let h = end_round(g);
    assert(h.sanctuary_deck == g.sanctuary_deck);
    assert(h.players == g.players);
    assert(sanctuary_cards(h) =~= g.sanctuary_deck.to_multiset().add(kept_all(g.players)));
    assert(sanctuary_cards(g) =~= sanctuary_cards(h).add(draws_of(g)));
}

/// The account of a step's sanctuary cards: either it keeps every one, or it
/// ends a round from a drafting state that kept every one (whose draws still
/// waiting are then dropped, as `law_round_end_drops_only_draws` states).
pub open spec fn cards_accounted(before: GameModel, after: GameModel) -> bool {
    ||| sanctuary_cards(after) == sanctuary_cards(before)
    ||| exists|e: GameModel|
        #[trigger] end_round(e) == after && e.phase is Drafting && sanctuary_cards(e) == sanctuary_cards(before)
}

proof fn lemma_accounted_subset(before: GameModel, after: GameModel)
    requires
        cards_accounted(before, after),
    ensures
        sanctuary_cards(after).subset_of(sanctuary_cards(before)),
{
    broadcast use vstd::multiset::group_multiset_axioms;
    if sanctuary_cards(after) != sanctuary_cards(before) {
        let e = choose|e: GameModel|
            #[trigger] end_round(e) == after && e.phase is Drafting && sanctuary_cards(e) == sanctuary_cards(before);
        law_round_end_drops_only_draws(e);
    }
}

/// Passing over idle drafters changes no card while the draft goes on.
proof fn lemma_skip_idle_cards(g: GameModel)
    requires
        g.phase is Drafting,
    ensures
        skip_idle(g).phase is Drafting ==> sanctuary_cards(skip_idle(g)) == sanctuary_cards(g),
        cards_accounted(g, skip_idle(g)),
    decreases skip_measure(g),
{
    broadcast use vstd::multiset::group_multiset_axioms;
    match g.phase {
        PhaseModel::Drafting { order, current, waiting, pending, drafted } => {
            if current >= order.len() || current >= usize::MAX {
            } else {
                let seat = order[current as int];
                if pending.contains_key(seat) || waiting.contains(seat) {
                } else if current + 1 >= order.len() {
                    law_round_end_drops_only_draws(g);
                    assert(end_round(g) == skip_idle(g));
                } else {
                    let g1 = with_phase(g, PhaseModel::Drafting { order, current: (current + 1) as usize, waiting, pending, drafted });
                    assert(sanctuary_cards(g1) == sanctuary_cards(g));
                    lemma_skip_idle_cards(g1);
                    if sanctuary_cards(skip_idle(g1)) != sanctuary_cards(g1) {
                        let e = choose|e: GameModel|
                            #[trigger] end_round(e) == skip_idle(g1) && e.phase is Drafting && sanctuary_cards(e) == sanctuary_cards(g1);
                        assert(end_round(e) == skip_idle(g));
                    }
                }
            }
        },
        _ => {},
    }
}

/// The turn passes: while the draft goes on no card is created, duplicated or
/// lost; when the round ends, only the draws still waiting are dropped.
proof fn lemma_advance_cards(g: GameModel)
    requires
        g.wf(),
        g.phase is Drafting,
    ensures
        advance_drafter(g).phase is Drafting ==> sanctuary_cards(advance_drafter(g)) == sanctuary_cards(g),
        cards_accounted(g, advance_drafter(g)),
{
    broadcast use vstd::multiset::group_multiset_axioms;
    match g.phase {
        PhaseModel::Drafting { order, current, waiting, pending, drafted } => {
            if current + 1 >= order.len() {
                law_round_end_drops_only_draws(g);
                assert(end_round(g) == advance_drafter(g));
            } else {
                let g1 = with_phase(
                    g,
                    PhaseModel::Drafting { order, current: (current + 1) as usize, waiting, pending, drafted: g.round == 8 },
                );
                assert(sanctuary_cards(g1) == sanctuary_cards(g));
                assert(g1.wf());
                lemma_deal_conserves(g1);
                lemma_deal_keeps_drafting(g1);
                let g2 = deal(g1);
                if g.round == 8 {
                    lemma_skip_idle_cards(g2);
                    if sanctuary_cards(skip_idle(g2)) != sanctuary_cards(g2) {
                        let e = choose|e: GameModel|
                            #[trigger] end_round(e) == skip_idle(g2) && e.phase is Drafting && sanctuary_cards(e) == sanctuary_cards(g2);
                        assert(end_round(e) == advance_drafter(g));
                    }
                }
            }
        },
        _ => {},
    }
}

/// Passing the turn after a choice, when the current drafter is done.
proof fn lemma_turn_cards(g: GameModel)
    requires
        g.wf(),
        g.phase is Drafting,
    ensures
        crate::game_spec::try_advance_drafter(g).phase is Drafting
            ==> sanctuary_cards(crate::game_spec::try_advance_drafter(g)) == sanctuary_cards(g),
        cards_accounted(g, crate::game_spec::try_advance_drafter(g)),
{
    let h = crate::game_spec::try_advance_drafter(g);
    match g.phase {
        PhaseModel::Drafting { order, current, waiting, pending, drafted } => {
            if current < order.len() && drafted && !pending.contains_key(order[current as int]) {
                lemma_advance_cards(g);
            }
        },
        _ => {},
    }
}

proof fn lemma_accounted_trans(a: GameModel, b: GameModel, c: GameModel)
    requires
        sanctuary_cards(b) == sanctuary_cards(a),
        cards_accounted(b, c),
    ensures
        cards_accounted(a, c),
{
    if sanctuary_cards(c) != sanctuary_cards(b) {
        let e = choose|e: GameModel|
            #[trigger] end_round(e) == c && e.phase is Drafting && sanctuary_cards(e) == sanctuary_cards(b);
        assert(end_round(e) == c);
    }
}

/// Choosing a sanctuary creates, duplicates and loses no sanctuary card while
/// the draft goes on: the chosen card goes to the player, the others to the
/// bottom of the deck, and dealing moves cards from the deck to the players
/// and their draws. When the choice lets the round end, exactly the draws
/// still waiting then are dropped (`cards_accounted`); no card is created.
pub proof fn law_choice_conserves_sanctuaries(g: GameModel, seat: usize, k: usize)
    requires
        g.wf(),
    ensures
        spec_choose_sanctuary(g, seat, k).1.phase is Drafting
            ==> sanctuary_cards(spec_choose_sanctuary(g, seat, k).1) == sanctuary_cards(g),
        cards_accounted(g, spec_choose_sanctuary(g, seat, k).1),
        sanctuary_cards(spec_choose_sanctuary(g, seat, k).1).subset_of(sanctuary_cards(g)),
{
    broadcast use vstd::multiset::group_multiset_axioms;
    if spec_choose_sanctuary(g, seat, k).0 is Ok {
        match g.phase {
            PhaseModel::Drafting { order, current, waiting, pending, drafted } => {
                let choices = pending[seat];
                let c = choices[k as int];
                let n = g.players.len() as int;
                let g1 = with_phase(g, PhaseModel::Drafting { order, current, waiting, pending: pending.remove(seat), drafted });
                let g2 = GameModel {
                    sanctuary_deck: returned_to_bottom(g.sanctuary_deck, choices, k as int),
                    ..crate::game_spec::give_sanctuary(g1, seat, c)
                };
                law_choice_keeps_every_card(g.sanctuary_deck, choices, k as int);
                lemma_kept_give(g.players, seat as int, c);
                lemma_pending_remove(pending, n, seat);
                let dm = g.sanctuary_deck.to_multiset();
                let rm = returned_to_bottom(g.sanctuary_deck, choices, k as int).to_multiset();
                let cm = choices.to_multiset();
                let km = kept_all(g.players);
                let pm = pending_all(pending, n);
                let pm2 = pending_all(pending.remove(seat), n);
                assert(g2.sanctuary_deck.to_multiset() == rm);
                assert(g2.players == g.players.update(seat as int, PlayerModel { sanctuaries: g.players[seat as int].sanctuaries.push(c), ..g.players[seat as int] }));
                assert(kept_all(g2.players) == km.insert(c));
                assert(g2.phase->pending == pending.remove(seat));
                assert(sanctuary_cards(g2) == rm.add(km.insert(c)).add(pm2));
                assert(sanctuary_cards(g) == dm.add(km).add(pm));
                assert(rm.insert(c) == dm.add(cm));
                assert(pm2.add(pending[seat].to_multiset()) == pm);
                assert forall|x: SanctuaryCard| #[trigger] sanctuary_cards(g2).count(x) == sanctuary_cards(g).count(x) by {
                    assert(rm.insert(c).count(x) == dm.add(cm).count(x));
                    assert(pm2.add(cm).count(x) == pm.count(x));
                }
                assert(sanctuary_cards(g2) =~= sanctuary_cards(g));
                assert(g2.wf()) by {
                    assert(seats_ok(g2.players)) by {
                        assert forall|i: int| 0 <= i < g2.players.len() implies #[trigger] g2.players[i].seat == i by {
                            assert(g2.players[i].seat == g.players[i].seat);
                        }
                    }
                }
                lemma_deal_conserves(g2);
                lemma_deal_keeps_drafting(g2);
                lemma_turn_cards(deal(g2));
                lemma_accounted_trans(g, deal(g2), spec_choose_sanctuary(g, seat, k).1);
            },
            _ => {},
        }
    }
    lemma_accounted_subset(g, spec_choose_sanctuary(g, seat, k).1);
}

/// Drafting a market card moves no sanctuary card; when the turn passes and
/// the round ends, exactly the draws still waiting are dropped.
pub proof fn law_draft_accounts_sanctuaries(g: GameModel, seat: usize, m: usize)
    requires
        g.wf(),
    ensures
        spec_draft_card(g, seat, m).1.phase is Drafting
            ==> sanctuary_cards(spec_draft_card(g, seat, m).1) == sanctuary_cards(g),
        cards_accounted(g, spec_draft_card(g, seat, m).1),
        sanctuary_cards(spec_draft_card(g, seat, m).1).subset_of(sanctuary_cards(g)),
{
    broadcast use vstd::multiset::group_multiset_axioms;
    let h = spec_draft_card(g, seat, m).1;
    if spec_draft_card(g, seat, m).0 is Ok {
        match g.phase {
            PhaseModel::Drafting { order, current, waiting, pending, drafted } => {
                let card = g.market[m as int];
                let p = g.players[seat as int];
                let g2 = GameModel {
                    players: g.players.update(seat as int, PlayerModel { hand: p.hand.push(card), ..p }),
                    market: g.market.remove(m as int),
                    ..g
                };
                assert(kept_all(g2.players) == kept_all(g.players)) by {
                    lemma_kept_same(g2.players, g.players);
                }
                assert(sanctuary_cards(g2) == sanctuary_cards(g));
                if !pending.contains_key(seat) {
                    assert(g2.wf()) by {
                        assert(seats_ok(g2.players)) by {
                            assert forall|j: int| 0 <= j < g2.players.len() implies #[trigger] g2.players[j].seat == j by {
                                assert(g2.players[j].seat == g.players[j].seat);
                            }
                        }
                    }
                    lemma_advance_cards(g2);
                    lemma_accounted_trans(g, g2, h);
                } else {
                    assert(sanctuary_cards(h) == sanctuary_cards(g2));
                }
            },
            _ => {},
        }
    }
    lemma_accounted_subset(g, h);
}

/// Playing a card moves no sanctuary card; when the last card is revealed,
/// dealing moves cards from the deck to the players and their draws only,
/// and on round 8 the game's end drops exactly the draws still waiting.
pub proof fn law_play_accounts_sanctuaries(g: GameModel, seat: usize, i: usize)
    requires
        g.wf(),
    ensures
        spec_play_card(g, seat, i).1.phase is Drafting
            ==> sanctuary_cards(spec_play_card(g, seat, i).1) == sanctuary_cards(g),
        cards_accounted(g, spec_play_card(g, seat, i).1),
        sanctuary_cards(spec_play_card(g, seat, i).1).subset_of(sanctuary_cards(g)),
{
    broadcast use vstd::multiset::group_multiset_axioms;
    let h = spec_play_card(g, seat, i).1;
    if spec_play_card(g, seat, i).0 is Ok {
        let p = g.players[seat as int];
        let g1 = GameModel {
            players: g.players.update(seat as int, PlayerModel { hand: p.hand.remove(i as int), played: Some(p.hand[i as int]), ..p }),
            ..g
        };
        lemma_kept_same(g1.players, g.players);
        assert(sanctuary_cards(g1) == sanctuary_cards(g));
        if all_played(g1.players) {
            let ps = g1.players.map_values(|q: PlayerModel| crate::game_spec::commit(q));
            lemma_kept_same(ps, g1.players);
            assert(seats_ok(ps)) by {
                assert forall|k: int| 0 <= k < ps.len() implies #[trigger] ps[k].seat == k by {
                    assert(ps[k].seat == g1.players[k].seat);
                    assert(g1.players[k].seat == g.players[k].seat);
                }
            }
            let order = draft_order(ps);
            let waiting = keep_eligible(order, ps);
            crate::game_spec::lemma_draft_order_seats(ps);
            crate::game_spec::lemma_keep_eligible_below(order, ps, ps.len() as int);
            if g.round == 8 {
                let q1 = GameModel { players: ps, market: Seq::empty(), ..g1 };
                if waiting.len() > 0 {
                    let q2 = with_phase(q1, PhaseModel::Drafting { order, current: 0, waiting, pending: Map::empty(), drafted: true });
                    assert(q2.wf());
                    assert(pending_all(Map::<usize, Seq<SanctuaryCard>>::empty(), ps.len() as int) =~= Multiset::empty()) by {
                        lemma_pending_empty(ps.len() as int);
                    }
                    assert(sanctuary_cards(q2) == sanctuary_cards(g));
                    lemma_deal_conserves(q2);
                    lemma_deal_keeps_drafting(q2);
                    lemma_skip_idle_cards(deal(q2));
                    lemma_accounted_trans(g, deal(q2), h);
                } else {
                    assert(sanctuary_cards(h) == sanctuary_cards(g));
                }
            } else {
                let q2 = GameModel {
                    players: ps,
                    phase: PhaseModel::Drafting { order, current: 0, waiting, pending: Map::empty(), drafted: false },
                    ..g1
                };
                assert(q2.wf());
                lemma_pending_empty(ps.len() as int);
                assert(sanctuary_cards(q2) == sanctuary_cards(g));
                lemma_deal_conserves(q2);
            }
        }
    }
    lemma_accounted_subset(g, h);
}

proof fn lemma_pending_empty(n: int)
    ensures
        pending_all(Map::<usize, Seq<SanctuaryCard>>::empty(), n) == Multiset::<SanctuaryCard>::empty(),
    decreases n,
{
    broadcast use vstd::multiset::group_multiset_axioms;
    if n > 0 {
        lemma_pending_empty(n - 1);
        assert(pending_all(Map::<usize, Seq<SanctuaryCard>>::empty(), n) =~= Multiset::<SanctuaryCard>::empty());
    }
}

/// Players whose sanctuaries are the same keep the same sanctuaries overall.
proof fn lemma_kept_same(a: Seq<PlayerModel>, b: Seq<PlayerModel>)
    requires
        a.len() == b.len(),
        forall|i: int| 0 <= i < a.len() ==> #[trigger] a[i].sanctuaries == b[i].sanctuaries,
    ensures
        kept_all(a) == kept_all(b),
    decreases a.len(),
{
    if a.len() > 0 {
        lemma_kept_same(a.drop_last(), b.drop_last());
        assert(a.last().sanctuaries == b[b.len() - 1].sanctuaries);
    }
}

// ─── Seats stay put ──────────────────────────────────────────────────────────

/// The same players by name, in the same order.
pub open spec fn same_names(a: Seq<PlayerModel>, b: Seq<PlayerModel>) -> bool {
    a.len() == b.len() && forall|i: int| 0 <= i < a.len() ==> #[trigger] a[i].name == b[i].name
}

/// A name that occurs has a first occurrence.
proof fn lemma_first_named(ps: Seq<PlayerModel>, name: Seq<char>, i: int) -> (j: int)
    requires
        0 <= i < ps.len(),
        ps[i].name == name,
    ensures
        0 <= j <= i,
        ps[j].name == name,
        forall|k: int| 0 <= k < j ==> ps[k].name != name,
    decreases i,
{
    if exists|k: int| 0 <= k < i && ps[k].name == name {
        let k = choose|k: int| 0 <= k < i && ps[k].name == name;
        lemma_first_named(ps, name, k)
    } else {
        i
    }
}

proof fn lemma_seat_named_same(a: Seq<PlayerModel>, b: Seq<PlayerModel>, name: Seq<char>)
    requires
        same_names(a, b),
        seats_ok(a),
    ensures
        seat_named(a, name) == seat_named(b, name),
{
    if exists|i: int| 0 <= i < a.len() && a[i].name == name {
        let i = choose|i: int| 0 <= i < a.len() && a[i].name == name;
        let j = lemma_first_named(a, name, i);
        assert(a[j].seat == j);
        crate::game_spec::lemma_seat_named_found(a, name, j);
        assert(b[j].name == name);
        assert forall|k: int| 0 <= k < j implies b[k].name != name by {
            assert(a[k].name == b[k].name);
        }
        crate::game_spec::lemma_seat_named_found(b, name, j);
    } else {
        assert forall|k: int| 0 <= k < b.len() implies b[k].name != name by {
            assert(a[k].name == b[k].name);
        }
        crate::game_spec::lemma_seat_named_absent(b, name);
    }
}

proof fn lemma_end_round_names(g: GameModel)
    ensures
        end_round(g).players == g.players,
{
}

proof fn lemma_skip_idle_names(g: GameModel)
    ensures
        skip_idle(g).players == g.players,
    decreases skip_measure(g),
{
    match g.phase {
        PhaseModel::Drafting { order, current, waiting, pending, drafted } => {
            if current >= order.len() || current >= usize::MAX {
            } else {
                let seat = order[current as int];
                if pending.contains_key(seat) || waiting.contains(seat) {
                } else if current + 1 >= order.len() {
                } else {
                    lemma_skip_idle_names(
                        with_phase(g, PhaseModel::Drafting { order, current: (current + 1) as usize, waiting, pending, drafted }),
                    );
                }
            }
        },
        _ => {},
    }
}

proof fn lemma_deal_names(g: GameModel)
    requires
        g.wf(),
    ensures
        same_names(deal(g).players, g.players),
        deal(g).wf(),
{
    lemma_deal_keeps_drafting(g);
}

proof fn lemma_advance_names(g: GameModel)
    requires
        g.wf(),
        g.phase is Drafting,
    ensures
        same_names(advance_drafter(g).players, g.players),
{
    match g.phase {
        PhaseModel::Drafting { order, current, waiting, pending, drafted } => {
            if current + 1 >= order.len() {
            } else {
                let g1 = with_phase(
                    g,
                    PhaseModel::Drafting { order, current: (current + 1) as usize, waiting, pending, drafted: g.round == 8 },
                );
                lemma_deal_names(g1);
                lemma_skip_idle_names(deal(g1));
            }
        },
        _ => {},
    }
}

proof fn lemma_play_names(g: GameModel, seat: usize, i: usize)
    requires
        g.wf(),
    ensures
        same_names(g.players, spec_play_card(g, seat, i).1.players),
{
    let (r1, h1) = spec_play_card(g, seat, i);
    if r1 is Ok {
        let p = g.players[seat as int];
        let g1 = GameModel {
            players: g.players.update(seat as int, PlayerModel { hand: p.hand.remove(i as int), played: Some(p.hand[i as int]), ..p }),
            ..g
        };
        assert(same_names(g1.players, g.players));
        if all_played(g1.players) {
            let ps = g1.players.map_values(|q: PlayerModel| crate::game_spec::commit(q));
            assert(same_names(ps, g.players));
            assert(seats_ok(ps)) by {
                assert forall|k: int| 0 <= k < ps.len() implies #[trigger] ps[k].seat == k by {
                    assert(ps[k].seat == g1.players[k].seat);
                    assert(g1.players[k].seat == g.players[k].seat);
                }
            }
            let order = draft_order(ps);
            let waiting = keep_eligible(order, ps);
            crate::game_spec::lemma_draft_order_seats(ps);
            crate::game_spec::lemma_keep_eligible_below(order, ps, ps.len() as int);
            if g.round == 8 {
                let q1 = GameModel { players: ps, market: Seq::empty(), ..g1 };
                if waiting.len() > 0 {
                    let q2 = with_phase(q1, PhaseModel::Drafting { order, current: 0, waiting, pending: Map::empty(), drafted: true });
                    assert(q2.wf());
                    lemma_deal_names(q2);
                    lemma_skip_idle_names(deal(q2));
                }
            } else {
                let q2 = GameModel {
                    players: ps,
                    phase: PhaseModel::Drafting { order, current: 0, waiting, pending: Map::empty(), drafted: false },
                    ..g1
                };
                assert(q2.wf());
                lemma_deal_names(q2);
            }
        }
    }
}

proof fn lemma_choose_names(g: GameModel, seat: usize, k: usize)
    requires
        g.wf(),
    ensures
        same_names(g.players, spec_choose_sanctuary(g, seat, k).1.players),
{
    if spec_choose_sanctuary(g, seat, k).0 is Ok {
        match g.phase {
            PhaseModel::Drafting { order, current, waiting, pending, drafted } => {
                let choices = pending[seat];
                let g1 = with_phase(g, PhaseModel::Drafting { order, current, waiting, pending: pending.remove(seat), drafted });
                let g2 = GameModel {
                    sanctuary_deck: returned_to_bottom(g.sanctuary_deck, choices, k as int),
                    ..crate::game_spec::give_sanctuary(g1, seat, choices[k as int])
                };
                assert(same_names(g2.players, g.players));
                assert(g2.wf()) by {
                    assert(seats_ok(g2.players)) by {
                        assert forall|j: int| 0 <= j < g2.players.len() implies #[trigger] g2.players[j].seat == j by {
                            assert(g2.players[j].seat == g.players[j].seat);
                        }
                    }
                }
                lemma_deal_names(g2);
                let g3 = deal(g2);
                lemma_deal_keeps_drafting(g2);
                let h = crate::game_spec::try_advance_drafter(g3);
                if h != g3 {
                    lemma_advance_names(g3);
                }
            },
            _ => {},
        }
    }
}

proof fn lemma_draft_names(g: GameModel, seat: usize, m: usize)
    requires
        g.wf(),
    ensures
        same_names(g.players, spec_draft_card(g, seat, m).1.players),
{
    if spec_draft_card(g, seat, m).0 is Ok {
        match g.phase {
            PhaseModel::Drafting { order, current, waiting, pending, drafted } => {
                let card = g.market[m as int];
                let p = g.players[seat as int];
                let g2 = GameModel {
                    players: g.players.update(seat as int, PlayerModel { hand: p.hand.push(card), ..p }),
                    market: g.market.remove(m as int),
                    ..g
                };
                assert(same_names(g2.players, g.players));
                if !pending.contains_key(seat) {
                    assert(g2.wf()) by {
                        assert(seats_ok(g2.players)) by {
                            assert forall|j: int| 0 <= j < g2.players.len() implies #[trigger] g2.players[j].seat == j by {
                                assert(g2.players[j].seat == g.players[j].seat);
                            }
                        }
                    }
                    lemma_advance_names(g2);
                }
            },
            _ => {},
        }
    }
}

proof fn lemma_keep_names(g: GameModel, seat: usize, ix: Seq<usize>, deck: Seq<RegionCard>)
    ensures
        same_names(g.players, spec_keep_cards(g, seat, ix, deck).1.players),
{
}

proof fn lemma_deal_start_names(g: GameModel, rd: Seq<RegionCard>, sd: Seq<SanctuaryCard>, advanced: bool)
    ensures
        same_names(g.players, spec_deal_start(g, rd, sd, advanced).1.players),
{
    let n = g.players.len() as int;
    let ps = crate::game_spec::dealt_hands(g.players, rd);
    assert(same_names(g.players, ps));
}

proof fn law_join_twice_keeps(g: GameModel, name: Seq<char>, other: Seq<char>)
    requires
        g.wf(),
    ensures
        seat_named(g.players, name) is Some ==> seat_named(spec_join(g, other).1.players, name) == seat_named(g.players, name),
        spec_join(g, name).0 matches Ok(s) ==> seat_named(spec_join(g, name).1.players, name) == Some(s),
{
    let n = g.players.len() as int;
    if seat_named(g.players, name) is Some {
        let (r, h) = spec_join(g, other);
        if seat_named(g.players, other) is None && r is Ok {
            let i = choose|i: int| 0 <= i < g.players.len() && g.players[i].name == name;
            let j = lemma_first_named(g.players, name, i);
            assert(g.players[j].seat == j);
            crate::game_spec::lemma_seat_named_found(g.players, name, j);
            assert(h.players == g.players.push(new_player(n as usize, other)));
            assert forall|k: int| 0 <= k < j implies h.players[k].name != name by {
                assert(h.players[k] == g.players[k]);
            }
            assert(h.players[j] == g.players[j]);
            crate::game_spec::lemma_seat_named_found(h.players, name, j);
        }
    }
    if spec_join(g, name).0 is Ok && seat_named(g.players, name) is None {
        law_join_twice(g, name);
        let g1 = spec_join(g, name).1;
        assert forall|k: int| 0 <= k < n implies g1.players[k].name != name by {
            assert(g1.players[k] == g.players[k]);
        }
        crate::game_spec::lemma_seat_named_found(g1.players, name, n);
    }
}

/// No action but joining and leaving changes who sits where: the players keep
/// their names and their order, so a name keeps its seat. Joining never moves
/// a seated name, and gives a name the seat it then keeps.
pub proof fn law_seats_stay(
    g: GameModel,
    name: Seq<char>,
    other: Seq<char>,
    seat: usize,
    i: usize,
    ix: Seq<usize>,
    deck: Seq<RegionCard>,
    rd: Seq<RegionCard>,
    sd: Seq<SanctuaryCard>,
    advanced: bool,
)
    requires
        g.wf(),
    ensures
        seat_named(spec_play_card(g, seat, i).1.players, name) == seat_named(g.players, name),
        seat_named(spec_choose_sanctuary(g, seat, i).1.players, name) == seat_named(g.players, name),
        seat_named(spec_draft_card(g, seat, i).1.players, name) == seat_named(g.players, name),
        seat_named(spec_keep_cards(g, seat, ix, deck).1.players, name) == seat_named(g.players, name),
        seat_named(spec_deal_start(g, rd, sd, advanced).1.players, name) == seat_named(g.players, name),
        seat_named(g.players, name) is Some ==> seat_named(spec_join(g, other).1.players, name) == seat_named(g.players, name),
        spec_join(g, name).0 matches Ok(s) ==> seat_named(spec_join(g, name).1.players, name) == Some(s),
{
    lemma_play_names(g, seat, i);
    lemma_seat_named_same(g.players, spec_play_card(g, seat, i).1.players, name);
    lemma_choose_names(g, seat, i);
    lemma_seat_named_same(g.players, spec_choose_sanctuary(g, seat, i).1.players, name);
    lemma_draft_names(g, seat, i);
    lemma_seat_named_same(g.players, spec_draft_card(g, seat, i).1.players, name);
    lemma_keep_names(g, seat, ix, deck);
    lemma_seat_named_same(g.players, spec_keep_cards(g, seat, ix, deck).1.players, name);
    lemma_deal_start_names(g, rd, sd, advanced);
    lemma_seat_named_same(g.players, spec_deal_start(g, rd, sd, advanced).1.players, name);
    law_join_twice_keeps(g, name, other);
}

// ─── Room to finish the game ─────────────────────────────────────────────────

pub open spec fn regions_bounded(s: Seq<RegionCard>) -> bool {
    forall|i: int| 0 <= i < s.len() ==> region_bounded(#[trigger] s[i])
}

pub open spec fn sanctuaries_bounded(s: Seq<SanctuaryCard>) -> bool {
    forall|i: int| 0 <= i < s.len() ==> sanctuary_bounded(#[trigger] s[i])
}

/// A player's cards are of the game's kind and leave room for one more region
/// and one more sanctuary within 100 cards.
pub open spec fn player_room(p: PlayerModel) -> bool {
    &&& regions_bounded(p.tableau)
    &&& regions_bounded(p.hand)
    &&& sanctuaries_bounded(p.sanctuaries)
    &&& (p.played matches Some(c) ==> region_bounded(c))
    &&& p.tableau.len() + p.sanctuaries.len() + 2 <= 100
}

/// Every card a step can give a player is of the game's kind, and every
/// player has room for it: whatever action comes next, a game it ends can be
/// scored.
pub open spec fn room_to_finish(g: GameModel) -> bool {
    &&& forall|j: int| 0 <= j < g.players.len() ==> player_room(#[trigger] g.players[j])
    &&& sanctuaries_bounded(g.sanctuary_deck)
    &&& g.phase matches PhaseModel::Drafting { pending, .. } ==> forall|s: usize|
        #[trigger] pending.contains_key(s) ==> sanctuaries_bounded(pending[s])
}

/// A player gained at most one region and at most one sanctuary, each of the
/// game's kind.
pub open spec fn grew_little(a: PlayerModel, b: PlayerModel) -> bool {
    &&& (b.tableau == a.tableau || exists|x: RegionCard| region_bounded(x) && b.tableau == a.tableau.push(x))
    &&& (b.sanctuaries == a.sanctuaries || exists|y: SanctuaryCard|
        sanctuary_bounded(y) && b.sanctuaries == a.sanctuaries.push(y))
}

proof fn lemma_grew_little_fits(a: PlayerModel, b: PlayerModel)
    requires
        player_room(a),
        grew_little(a, b),
    ensures
        crate::scoring::cards_within(b.tableau, b.sanctuaries),
{
    if b.tableau != a.tableau {
        let x = choose|x: RegionCard| region_bounded(x) && b.tableau == a.tableau.push(x);
        assert forall|i: int| 0 <= i < b.tableau.len() implies region_bounded(#[trigger] b.tableau[i]) by {
            if i < a.tableau.len() {
                assert(b.tableau[i] == a.tableau[i]);
            }
        }
    }
    if b.sanctuaries != a.sanctuaries {
        let y = choose|y: SanctuaryCard| sanctuary_bounded(y) && b.sanctuaries == a.sanctuaries.push(y);
        assert forall|i: int| 0 <= i < b.sanctuaries.len() implies sanctuary_bounded(#[trigger] b.sanctuaries[i]) by {
            if i < a.sanctuaries.len() {
                assert(b.sanctuaries[i] == a.sanctuaries[i]);
            }
        }
    }
}

/// Dealing changes no tableau and gives each waiting seat at most one
/// sanctuary, off a deck of the game's cards.
proof fn lemma_deal_growth(g: GameModel)
    requires
        g.wf(),
        g.phase is Drafting,
        sanctuaries_bounded(g.sanctuary_deck),
    ensures
        forall|j: int| 0 <= j < g.players.len() ==> {
            &&& (#[trigger] deal(g).players[j]).tableau == g.players[j].tableau
            &&& (deal(g).players[j].sanctuaries == g.players[j].sanctuaries || (g.phase->waiting.contains(j as usize)
                && exists|y: SanctuaryCard|
                sanctuary_bounded(y) && deal(g).players[j].sanctuaries == g.players[j].sanctuaries.push(y)))
            &&& deal(g).players[j].sanctuaries != g.players[j].sanctuaries ==> !deal(g).phase->waiting.contains(j as usize)
        },
        forall|s: usize| #[trigger] deal(g).phase->waiting.contains(s) ==> g.phase->waiting.contains(s),
        sanctuaries_bounded(deal(g).sanctuary_deck),
    decreases crate::game_spec::waiting_len(g),
{
    lemma_deal_keeps_drafting(g);
    match g.phase {
        PhaseModel::Drafting { order, current, waiting, pending, drafted } => {
            if waiting.len() > 0 {
                let seat = waiting[0];
                lemma_remove_all_len(waiting, seat);
                assert(waiting.contains(seat)) by {
                    assert(waiting[0] == seat);
                }
                let count = crate::game_spec::draw_count(g.players[seat as int]);
                let is_current = order[current as int] == seat;
                let deck_size = g.sanctuary_deck.len();
                let waiting2 = crate::game_spec::remove_all(waiting, seat);
                if !(deck_size == 0) && !(deck_size < count && !is_current) {
                    let k = min_int(count as int, deck_size as int);
                    let choices = crate::game_spec::drawn(g, seat);
                    let g2 = crate::game_spec::after_draw(g, seat);
                    assert(seat < g.players.len());
                    let g3 = if choices.len() == 1 {
                        with_phase(
                            crate::game_spec::give_sanctuary(g2, seat, choices[0]),
                            PhaseModel::Drafting { order, current, waiting: waiting2, pending, drafted },
                        )
                    } else {
                        with_phase(
                            g2,
                            PhaseModel::Drafting { order, current, waiting: waiting2, pending: pending.insert(seat, choices), drafted },
                        )
                    };
                    assert(deal(g) == deal(g3));
                    assert(sanctuaries_bounded(g3.sanctuary_deck)) by {
                        assert forall|i: int| 0 <= i < g3.sanctuary_deck.len() implies sanctuary_bounded(#[trigger] g3.sanctuary_deck[i]) by {
                            assert(g3.sanctuary_deck[i] == g.sanctuary_deck[i]);
                        }
                    }
                    if choices.len() == 1 {
                        assert(choices[0] == g.sanctuary_deck[g.sanctuary_deck.len() - 1]);
                        assert(sanctuary_bounded(choices[0]));
                    }
                    assert forall|j: int| 0 <= j < waiting2.len() implies !g3.phase->pending.contains_key(#[trigger] waiting2[j]) by {
                        assert(waiting.contains(waiting2[j]));
                        let w = choose|w: int| 0 <= w < waiting.len() && waiting[w] == waiting2[j];
                        assert(!pending.contains_key(waiting[w]));
                        assert(waiting2[j] != seat) by {
                            assert(!waiting2.contains(seat));
                        }
                    }
                    assert(g3.wf()) by {
                        assert(seats_ok(g3.players)) by {
                            assert forall|i: int| 0 <= i < g3.players.len() implies #[trigger] g3.players[i].seat == i by {
                                assert(g3.players[i].seat == g.players[i].seat);
                            }
                        }
                        assert forall|j: int| 0 <= j < waiting2.len() implies #[trigger] waiting2[j] < g3.players.len() by {
                            assert(waiting.contains(waiting2[j]));
                        }
                    }
                    lemma_deal_growth(g3);
                    assert forall|t: usize| #[trigger] deal(g).phase->waiting.contains(t) implies waiting.contains(t) by {
                        assert(waiting2.contains(t));
                        let w = choose|w: int| 0 <= w < waiting2.len() && waiting2[w] == t;
                        assert(waiting.contains(waiting2[w]));
                    }
                    assert forall|j: int| 0 <= j < g.players.len() implies {
                        &&& (#[trigger] deal(g).players[j]).tableau == g.players[j].tableau
                        &&& (deal(g).players[j].sanctuaries == g.players[j].sanctuaries || (waiting.contains(j as usize)
                            && exists|y: SanctuaryCard|
                            sanctuary_bounded(y) && deal(g).players[j].sanctuaries == g.players[j].sanctuaries.push(y)))
                        &&& deal(g).players[j].sanctuaries != g.players[j].sanctuaries ==> !deal(g).phase->waiting.contains(j as usize)
                    } by {
                        assert(deal(g3).players[j] == deal(g).players[j]);
                        if j == seat as int {
                            assert(!waiting2.contains(seat));
                            if deal(g).phase->waiting.contains(seat) {
                                assert(waiting2.contains(seat));
                            }
                            if choices.len() == 1 {
                                assert(g3.players[j].sanctuaries == g.players[j].sanctuaries.push(choices[0]));
                            }
                        } else {
                            assert(g3.players[j] == g.players[j]);
                            if deal(g3).players[j].sanctuaries != g3.players[j].sanctuaries {
                                assert(waiting2.contains(j as usize));
                                let w = choose|w: int| 0 <= w < waiting2.len() && waiting2[w] == j as usize;
                                assert(waiting.contains(waiting2[w]));
                            }
                        }
                    }
                }
            }
        },
        _ => {},
    }
}

/// Since the state `o`, every player gained at most one region and one
/// sanctuary of the game's kind, and a seat that gained a sanctuary waits for
/// no other; the sanctuary deck holds cards of the game's kind.
pub open spec fn within_budget(o: GameModel, g: GameModel) -> bool {
    &&& g.players.len() == o.players.len()
    &&& forall|j: int| 0 <= j < o.players.len() ==> grew_little(o.players[j], #[trigger] g.players[j])
    &&& g.phase is Drafting ==> forall|j: int|
        0 <= j < o.players.len() && (#[trigger] g.players[j]).sanctuaries != o.players[j].sanctuaries
            ==> !g.phase->waiting.contains(j as usize)
    &&& sanctuaries_bounded(g.sanctuary_deck)
}

proof fn lemma_deal_budget(o: GameModel, g: GameModel)
    requires
        g.wf(),
        g.phase is Drafting,
        within_budget(o, g),
    ensures
        within_budget(o, deal(g)),
        deal(g).wf(),
        deal(g).phase is Drafting,
{
    lemma_deal_growth(g);
    lemma_deal_keeps_drafting(g);
    let h = deal(g);
    assert forall|j: int| 0 <= j < o.players.len() implies grew_little(o.players[j], #[trigger] h.players[j]) by {
        assert(h.players[j].tableau == g.players[j].tableau);
        assert(grew_little(o.players[j], g.players[j]));
        if h.players[j].sanctuaries != g.players[j].sanctuaries {
            assert(g.phase->waiting.contains(j as usize));
            assert(g.players[j].sanctuaries == o.players[j].sanctuaries);
        }
    }
    assert forall|j: int|
        0 <= j < o.players.len() && (#[trigger] h.players[j]).sanctuaries != o.players[j].sanctuaries
            implies !h.phase->waiting.contains(j as usize) by {
        if h.players[j].sanctuaries == g.players[j].sanctuaries {
            assert(g.players[j].sanctuaries != o.players[j].sanctuaries);
            assert(!g.phase->waiting.contains(j as usize));
        }
    }
}

proof fn lemma_skip_idle_budget(o: GameModel, g: GameModel)
    requires
        g.phase is Drafting,
        within_budget(o, g),
    ensures
        within_budget(o, skip_idle(g)),
    decreases skip_measure(g),
{
    match g.phase {
        PhaseModel::Drafting { order, current, waiting, pending, drafted } => {
            if current >= order.len() || current >= usize::MAX {
            } else {
                let seat = order[current as int];
                if pending.contains_key(seat) || waiting.contains(seat) {
                } else if current + 1 >= order.len() {
                    lemma_end_round_names(g);
                    assert(end_round(g).sanctuary_deck == g.sanctuary_deck);
                    assert(!(end_round(g).phase is Drafting));
                } else {
                    let g1 = with_phase(g, PhaseModel::Drafting { order, current: (current + 1) as usize, waiting, pending, drafted });
                    assert(within_budget(o, g1));
                    lemma_skip_idle_budget(o, g1);
                }
            }
        },
        _ => {},
    }
}

proof fn lemma_advance_budget(o: GameModel, g: GameModel)
    requires
        g.wf(),
        g.phase is Drafting,
        within_budget(o, g),
    ensures
        within_budget(o, advance_drafter(g)),
{
    match g.phase {
        PhaseModel::Drafting { order, current, waiting, pending, drafted } => {
            if current + 1 >= order.len() {
                lemma_end_round_names(g);
                assert(end_round(g).sanctuary_deck == g.sanctuary_deck);
                assert(!(end_round(g).phase is Drafting));
            } else {
                let g1 = with_phase(
                    g,
                    PhaseModel::Drafting { order, current: (current + 1) as usize, waiting, pending, drafted: g.round == 8 },
                );
                assert(g1.wf());
                assert(within_budget(o, g1));
                lemma_deal_budget(o, g1);
                if g.round == 8 {
                    lemma_skip_idle_budget(o, deal(g1));
                }
            }
        },
        _ => {},
    }
}

/// A game a step ends within its budget can be scored.
proof fn lemma_budget_scores(o: GameModel, h: GameModel)
    requires
        room_to_finish(o),
        within_budget(o, h),
    ensures
        can_score(h.players),
{
    assert forall|j: int| 0 <= j < h.players.len() implies crate::scoring::cards_within(
        #[trigger] h.players[j].tableau,
        h.players[j].sanctuaries,
    ) && h.players[j].tableau.len() + h.players[j].sanctuaries.len() <= 100 by {
        assert(player_room(o.players[j]));
        assert(grew_little(o.players[j], h.players[j]));
        lemma_grew_little_fits(o.players[j], h.players[j]);
    }
    law_game_cards_can_score(h.players);
}

proof fn lemma_play_fits(g: GameModel, seat: usize, i: usize)
    requires
        g.wf(),
        room_to_finish(g),
    ensures
        crate::game_spec::ends_ok(g, spec_play_card(g, seat, i).1),
{
    let h = spec_play_card(g, seat, i).1;
    if spec_play_card(g, seat, i).0 is Ok {
        let p = g.players[seat as int];
        let g1 = GameModel {
            players: g.players.update(seat as int, PlayerModel { hand: p.hand.remove(i as int), played: Some(p.hand[i as int]), ..p }),
            ..g
        };
        assert(player_room(p));
        assert(region_bounded(p.hand[i as int]));
        if all_played(g1.players) {
            let ps = g1.players.map_values(|q: PlayerModel| crate::game_spec::commit(q));
            assert(seats_ok(ps)) by {
                assert forall|k: int| 0 <= k < ps.len() implies #[trigger] ps[k].seat == k by {
                    assert(ps[k].seat == g1.players[k].seat);
                    assert(g1.players[k].seat == g.players[k].seat);
                }
            }
            assert forall|j: int| 0 <= j < g.players.len() implies grew_little(g.players[j], #[trigger] ps[j]) by {
                assert(g1.players[j].played is Some);
                let c = g1.players[j].played->0;
                if j == seat as int {
                    assert(c == p.hand[i as int]);
                } else {
                    assert(g1.players[j] == g.players[j]);
                    assert(player_room(g.players[j]));
                }
                assert(ps[j].tableau == g.players[j].tableau.push(c));
                assert(ps[j].sanctuaries == g.players[j].sanctuaries);
            }
            let order = draft_order(ps);
            let waiting = keep_eligible(order, ps);
            crate::game_spec::lemma_draft_order_seats(ps);
            crate::game_spec::lemma_keep_eligible_below(order, ps, ps.len() as int);
            if g.round == 8 {
                let q1 = GameModel { players: ps, market: Seq::empty(), ..g1 };
                if waiting.len() > 0 {
                    let q2 = with_phase(q1, PhaseModel::Drafting { order, current: 0, waiting, pending: Map::empty(), drafted: true });
                    assert(q2.wf());
                    assert(within_budget(g, q2));
                    lemma_deal_budget(g, q2);
                    lemma_skip_idle_budget(g, deal(q2));
                    lemma_budget_scores(g, h);
                } else {
                    assert(within_budget(g, h));
                    lemma_budget_scores(g, h);
                }
            } else {
                let q2 = GameModel {
                    players: ps,
                    phase: PhaseModel::Drafting { order, current: 0, waiting, pending: Map::empty(), drafted: false },
                    ..g1
                };
                lemma_deal_keeps_drafting(q2);
            }
        }
    }
}

proof fn lemma_choose_fits(g: GameModel, seat: usize, k: usize)
    requires
        g.wf(),
        room_to_finish(g),
    ensures
        crate::game_spec::ends_ok(g, spec_choose_sanctuary(g, seat, k).1),
{
    let h = spec_choose_sanctuary(g, seat, k).1;
    if spec_choose_sanctuary(g, seat, k).0 is Ok {
        match g.phase {
            PhaseModel::Drafting { order, current, waiting, pending, drafted } => {
                let choices = pending[seat];
                let c = choices[k as int];
                let g1 = with_phase(g, PhaseModel::Drafting { order, current, waiting, pending: pending.remove(seat), drafted });
                let g2 = GameModel {
                    sanctuary_deck: returned_to_bottom(g.sanctuary_deck, choices, k as int),
                    ..crate::game_spec::give_sanctuary(g1, seat, c)
                };
                assert(sanctuaries_bounded(choices));
                assert(sanctuary_bounded(c));
                assert(sanctuaries_bounded(g2.sanctuary_deck)) by {
                    let back = choices.remove(k as int).reverse();
                    assert forall|t: int| 0 <= t < g2.sanctuary_deck.len() implies sanctuary_bounded(#[trigger] g2.sanctuary_deck[t]) by {
                        if t < back.len() {
                            assert(g2.sanctuary_deck[t] == back[t]);
                            let u = back.len() - 1 - t;
                            assert(back[t] == choices.remove(k as int)[u]);
                            if u < k {
                                assert(choices.remove(k as int)[u] == choices[u]);
                            } else {
                                assert(choices.remove(k as int)[u] == choices[u + 1]);
                            }
                        } else {
                            assert(g2.sanctuary_deck[t] == g.sanctuary_deck[t - back.len()]);
                        }
                    }
                }
                assert forall|j: int| 0 <= j < g.players.len() implies grew_little(g.players[j], #[trigger] g2.players[j]) by {
                    if j == seat as int {
                        assert(g2.players[j].sanctuaries == g.players[j].sanctuaries.push(c));
                    } else {
                        assert(g2.players[j] == g.players[j]);
                    }
                }
                assert(!waiting.contains(seat)) by {
                    if waiting.contains(seat) {
                        let w = choose|w: int| 0 <= w < waiting.len() && waiting[w] == seat;
                        assert(!pending.contains_key(waiting[w]));
                    }
                }
                assert(within_budget(g, g2));
                assert(g2.wf()) by {
                    assert(seats_ok(g2.players)) by {
                        assert forall|j: int| 0 <= j < g2.players.len() implies #[trigger] g2.players[j].seat == j by {
                            assert(g2.players[j].seat == g.players[j].seat);
                        }
                    }
                }
                lemma_deal_budget(g, g2);
                let g3 = deal(g2);
                if crate::game_spec::try_advance_drafter(g3) != g3 {
                    lemma_advance_budget(g, g3);
                }
                lemma_budget_scores(g, h);
            },
            _ => {},
        }
    }
}

proof fn lemma_draft_fits(g: GameModel, seat: usize, m: usize)
    requires
        g.wf(),
        room_to_finish(g),
    ensures
        crate::game_spec::ends_ok(g, spec_draft_card(g, seat, m).1),
{
    let h = spec_draft_card(g, seat, m).1;
    if spec_draft_card(g, seat, m).0 is Ok {
        match g.phase {
            PhaseModel::Drafting { order, current, waiting, pending, drafted } => {
                let card = g.market[m as int];
                let p = g.players[seat as int];
                let g2 = GameModel {
                    players: g.players.update(seat as int, PlayerModel { hand: p.hand.push(card), ..p }),
                    market: g.market.remove(m as int),
                    ..g
                };
                assert forall|j: int| 0 <= j < g.players.len() implies grew_little(g.players[j], #[trigger] g2.players[j]) by {
                    if j != seat as int {
                        assert(g2.players[j] == g.players[j]);
                    }
                }
                assert(within_budget(g, g2));
                if !pending.contains_key(seat) {
                    assert(g2.wf()) by {
                        assert(seats_ok(g2.players)) by {
                            assert forall|j: int| 0 <= j < g2.players.len() implies #[trigger] g2.players[j].seat == j by {
                                assert(g2.players[j].seat == g.players[j].seat);
                            }
                        }
                    }
                    lemma_advance_budget(g, g2);
                    lemma_budget_scores(g, h);
                }
            },
            _ => {},
        }
    }
}

/// With room to finish, every action can be taken: whichever step ends the
/// game, every final score and tiebreaker fits in 32 bits.
pub proof fn law_room_to_finish_fits(g: GameModel, seat: usize, a: ClientAction)
    requires
        g.wf(),
        room_to_finish(g),
    ensures
        action_fits(g, seat, a),
{
    match a {
        ClientAction::PlayCard { card_index } => lemma_play_fits(g, seat, card_index),
        ClientAction::ChooseSanctuary { sanctuary_index } => lemma_choose_fits(g, seat, sanctuary_index),
        ClientAction::DraftCard { market_index } => lemma_draft_fits(g, seat, market_index),
        _ => {},
    }
}

/// Every card a classic step can give a player is of the game's kind, and
/// every player has room for it.
pub open spec fn room_to_finish_f(g: FarawayModel) -> bool {
    &&& forall|j: int| 0 <= j < g.players.len() ==> player_room(#[trigger] g.players[j])
    &&& g.phase matches FarawayPhase::Choice { pending } ==> forall|s: usize|
        s < g.players.len() && #[trigger] pending.contains_key(s) ==> sanctuaries_bounded(pending[s])
}

proof fn lemma_grew_scores(gp: Seq<PlayerModel>, hp: Seq<PlayerModel>)
    requires
        gp.len() == hp.len(),
        forall|j: int| 0 <= j < gp.len() ==> player_room(#[trigger] gp[j]),
        forall|j: int| 0 <= j < gp.len() ==> grew_little(gp[j], #[trigger] hp[j]),
    ensures
        can_score(hp),
        can_score_f(hp),
{
    assert forall|j: int| 0 <= j < hp.len() implies crate::scoring::cards_within(
        #[trigger] hp[j].tableau,
        hp[j].sanctuaries,
    ) && hp[j].tableau.len() + hp[j].sanctuaries.len() <= 100 by {
        assert(player_room(gp[j]));
        assert(grew_little(gp[j], hp[j]));
        lemma_grew_little_fits(gp[j], hp[j]);
    }
    law_game_cards_can_score(hp);
}

/// With room to finish, every classic action can be taken: whichever step
/// ends the game, every final score and tiebreaker fits in 32 bits.
pub proof fn law_classic_room_to_finish_fits(g: FarawayModel, seat: usize, a: crate::faraway::ClientAction)
    requires
        g.wf(),
        room_to_finish_f(g),
    ensures
        ends_ok_f(g, spec_apply_f(g, seat, a).1),
{
    let (r, h) = spec_apply_f(g, seat, a);
    if r is Ok && h.phase is Over && !(g.phase is Over) {
        match a {
            crate::faraway::ClientAction::StartGame => {},
            crate::faraway::ClientAction::PlayCard { card_index } => {
                let i = card_index;
                let p = g.players[seat as int];
                let g1 = FarawayModel {
                    players: g.players.update(seat as int, PlayerModel { hand: p.hand.remove(i as int), played: Some(p.hand[i as int]), ..p }),
                    ..g
                };
                assert(player_room(p));
                assert(region_bounded(p.hand[i as int]));
                let ps = g1.players.map_values(|q: PlayerModel| crate::game_spec::commit(q));
                assert forall|j: int| 0 <= j < g.players.len() implies grew_little(g.players[j], #[trigger] ps[j]) by {
                    assert(g1.players[j].played is Some);
                    let c = g1.players[j].played->0;
                    if j == seat as int {
                        assert(c == p.hand[i as int]);
                    } else {
                        assert(g1.players[j] == g.players[j]);
                        assert(player_room(g.players[j]));
                    }
                    assert(ps[j].tableau == g.players[j].tableau.push(c));
                    assert(ps[j].sanctuaries == g.players[j].sanctuaries);
                }
                assert(h.players == ps);
                lemma_grew_scores(g.players, ps);
            },
            crate::faraway::ClientAction::ChooseSanctuary { sanctuary_index } => {
                let pending = g.phase->Choice_pending;
                let c = pending[seat][sanctuary_index as int];
                assert(sanctuaries_bounded(pending[seat]));
                assert(sanctuary_bounded(c));
                assert forall|j: int| 0 <= j < g.players.len() implies grew_little(g.players[j], #[trigger] h.players[j]) by {
                    if j == seat as int {
                        assert(h.players[j].sanctuaries == g.players[j].sanctuaries.push(c));
                    } else {
                        assert(h.players[j] == g.players[j]);
                    }
                }
                lemma_grew_scores(g.players, h.players);
            },
            crate::faraway::ClientAction::DraftCard { market_index } => {
                assert forall|j: int| 0 <= j < g.players.len() implies grew_little(g.players[j], #[trigger] h.players[j]) by {
                    if j != seat as int {
                        assert(h.players[j] == g.players[j]);
                    }
                }
                lemma_grew_scores(g.players, h.players);
            },
        }
    }
}

// ─── Quests and sanctuary draws, card by card ───────────────────────────────

/// The icons of one kind on the faces `ctx`, added up card by card.
pub open spec fn visible_icons(ctx: Seq<Face>, w: Wonder) -> nat
    decreases ctx.len(),
{
    if ctx.len() == 0 {
        0
    } else {
        let f = ctx.last();
        let here: nat = match w {
            Wonder::Stone => f.wonders.stone as nat,
            Wonder::Chimera => f.wonders.chimera as nat,
            Wonder::Thistle => f.wonders.thistle as nat,
        };
        visible_icons(ctx.drop_last(), w) + here
    }
}

proof fn lemma_visible_icons(ctx: Seq<Face>, w: Wonder)
    ensures
        tally(ctx, Measure::Icon(w)) == visible_icons(ctx, w),
    decreases ctx.len(),
{
    if ctx.len() > 0 {
        lemma_visible_icons(ctx.drop_last(), w);
    }
}

/// A region card scores nothing unless every wonder icon its quest asks for
/// is visible: as many stones, chimeras and thistles as the quest names. When
/// they all are, it scores its fame.
pub proof fn law_quest_gates_the_score(card: RegionCard, ctx: Seq<Face>)
    ensures
        visible_icons(ctx, Wonder::Stone) < card.quest.stone ==> region_score(card, ctx) == 0,
        visible_icons(ctx, Wonder::Chimera) < card.quest.chimera ==> region_score(card, ctx) == 0,
        visible_icons(ctx, Wonder::Thistle) < card.quest.thistle ==> region_score(card, ctx) == 0,
        visible_icons(ctx, Wonder::Stone) >= card.quest.stone && visible_icons(ctx, Wonder::Chimera) >= card.quest.chimera
            && visible_icons(ctx, Wonder::Thistle) >= card.quest.thistle
            ==> region_score(card, ctx) == fame_value(card.fame, ctx),
        quest_met(card.quest, ctx) <==> (visible_icons(ctx, Wonder::Stone) >= card.quest.stone
            && visible_icons(ctx, Wonder::Chimera) >= card.quest.chimera
            && visible_icons(ctx, Wonder::Thistle) >= card.quest.thistle),
{
    lemma_visible_icons(ctx, Wonder::Stone);
    lemma_visible_icons(ctx, Wonder::Chimera);
    lemma_visible_icons(ctx, Wonder::Thistle);
}

/// How many region cards of `t` carry a clue.
pub open spec fn clue_regions(t: Seq<RegionCard>) -> nat
    decreases t.len(),
{
    if t.len() == 0 {
        0
    } else {
        clue_regions(t.drop_last()) + if t.last().clue { 1nat } else { 0nat }
    }
}

/// How many sanctuaries of `s` carry a clue.
pub open spec fn clue_sanctuaries(s: Seq<SanctuaryCard>) -> nat
    decreases s.len(),
{
    if s.len() == 0 {
        0
    } else {
        clue_sanctuaries(s.drop_last()) + if s.last().clue { 1nat } else { 0nat }
    }
}

proof fn lemma_clue_regions(t: Seq<RegionCard>)
    ensures
        tally(tableau_faces(t), Measure::Clue) == clue_regions(t),
    decreases t.len(),
{
    if t.len() > 0 {
        lemma_clue_regions(t.drop_last());
        assert(tableau_faces(t).drop_last() =~= tableau_faces(t.drop_last()));
    }
}

proof fn lemma_clue_sanctuaries(s: Seq<SanctuaryCard>)
    ensures
        tally(kept_faces(s), Measure::Clue) == clue_sanctuaries(s),
    decreases s.len(),
{
    if s.len() > 0 {
        lemma_clue_sanctuaries(s.drop_last());
        assert(kept_faces(s).drop_last() =~= kept_faces(s.drop_last()));
    }
}

/// A player draws one sanctuary plus one for every clue in front of them:
/// on every region of the tableau, the card just revealed included, and on
/// every sanctuary kept. Revealing a card with a clue adds one to the draw.
pub proof fn law_draw_counts_every_clue(p: PlayerModel)
    ensures
        crate::game_spec::draw_count(p) == 1 + clue_regions(p.tableau) + clue_sanctuaries(p.sanctuaries),
        p.played matches Some(c) ==> crate::game_spec::draw_count(crate::game_spec::commit(p))
            == crate::game_spec::draw_count(p) + if c.clue { 1nat } else { 0nat },
{
    lemma_clue_regions(p.tableau);
    lemma_clue_sanctuaries(p.sanctuaries);
    if p.played is Some {
        let q = crate::game_spec::commit(p);
        lemma_clue_regions(q.tableau);
        assert(q.tableau.drop_last() =~= p.tableau);
    }
}

/// The run of wins that ends a list covers its last `streak_at_end` games.
proof fn lemma_streak_at_end_run(ps: Seq<u32>)
    ensures
        streak_at_end(ps) <= ps.len(),
        forall|k: int| ps.len() - streak_at_end(ps) <= k < ps.len() ==> ps[k] == 1,
    decreases ps.len(),
{
    if ps.len() > 0 {
        lemma_streak_at_end_run(ps.drop_last());
        if ps.last() == 1 {
            assert forall|k: int| ps.len() - streak_at_end(ps) <= k < ps.len() implies ps[k] == 1 by {
                if k < ps.len() - 1 {
                    assert(ps.drop_last()[k] == ps[k]);
                }
            }
        }
    }
}

/// Wins from position `i` to the end make a run at the end at least that long.
proof fn lemma_run_to_end(ps: Seq<u32>, i: int)
    requires
        0 <= i <= ps.len(),
        forall|k: int| i <= k < ps.len() ==> ps[k] == 1,
    ensures
        streak_at_end(ps) >= ps.len() - i,
    decreases ps.len(),
{
    if i < ps.len() {
        assert(ps.last() == 1);
        assert forall|k: int| i <= k < ps.drop_last().len() implies ps.drop_last()[k] == 1 by {
            assert(ps.drop_last()[k] == ps[k]);
        }
        lemma_run_to_end(ps.drop_last(), i);
    }
}

/// Every game from position `i` up to (not including) `j` was won.
pub open spec fn all_wins(ps: Seq<u32>, i: int, j: int) -> bool {
    forall|k: int| i <= k < j ==> ps[k] == 1
}

/// The longest win streak is the longest run of consecutive wins in the list:
/// every run of wins, the one still going at the end included, is at most
/// that long, and some run is exactly that long.
pub proof fn law_longest_streak_is_the_longest_run(ps: Seq<u32>)
    ensures
        forall|i: int, j: int| 0 <= i <= j <= ps.len() && #[trigger] all_wins(ps, i, j) ==> longest_streak(ps) >= j - i,
        exists|i: int| 0 <= i && i + longest_streak(ps) <= ps.len() && #[trigger] all_wins(ps, i, i + longest_streak(ps)),
        longest_streak(ps) >= streak_at_end(ps),
    decreases ps.len(),
{
    if ps.len() == 0 {
        assert(all_wins(ps, 0int, 0int + longest_streak(ps)));
    } else {
        let d = ps.drop_last();
        law_longest_streak_is_the_longest_run(d);
        lemma_streak_at_end_run(ps);
        assert forall|i: int, j: int| 0 <= i <= j <= ps.len() && #[trigger] all_wins(ps, i, j) implies longest_streak(ps) >= j - i by {
            if j < ps.len() {
                assert forall|k: int| i <= k < j implies d[k] == 1 by {
                    assert(d[k] == ps[k]);
                    assert(ps[k] == 1);
                }
                assert(all_wins(d, i, j));
                assert(longest_streak(d) >= j - i);
            } else {
                assert forall|k: int| i <= k < ps.len() implies ps[k] == 1 by {
                    assert(ps[k] == 1);
                }
                lemma_run_to_end(ps, i);
            }
        }
        if streak_at_end(ps) > longest_streak(d) {
            let i = ps.len() - streak_at_end(ps);
            assert(all_wins(ps, i, i + longest_streak(ps)));
        } else {
            let i = choose|i: int| 0 <= i && i + longest_streak(d) <= d.len() && #[trigger] all_wins(d, i, i + longest_streak(d));
            assert forall|k: int| i <= k < i + longest_streak(ps) implies ps[k] == 1 by {
                assert(d[k] == ps[k]);
                assert(d[k] == 1);
            }
            assert(all_wins(ps, i, i + longest_streak(ps)));
        }
    }
}

/// The faces of colour `b` among `ctx`.
pub open spec fn faces_of_colour(ctx: Seq<Face>, b: Biome) -> nat
    decreases ctx.len(),
{
    if ctx.len() == 0 {
        0
    } else {
        faces_of_colour(ctx.drop_last(), b) + if ctx.last().biome == b { 1nat } else { 0nat }
    }
}

/// The night faces among `ctx`.
pub open spec fn night_faces(ctx: Seq<Face>) -> nat
    decreases ctx.len(),
{
    if ctx.len() == 0 {
        0
    } else {
        night_faces(ctx.drop_last()) + if ctx.last().night { 1nat } else { 0nat }
    }
}

/// The clue faces among `ctx`.
pub open spec fn clue_faces(ctx: Seq<Face>) -> nat
    decreases ctx.len(),
{
    if ctx.len() == 0 {
        0
    } else {
        clue_faces(ctx.drop_last()) + if ctx.last().clue { 1nat } else { 0nat }
    }
}

proof fn lemma_face_counts(ctx: Seq<Face>, b: Biome)
    ensures
        tally(ctx, Measure::Colour(b)) == faces_of_colour(ctx, b),
        tally(ctx, Measure::Night) == night_faces(ctx),
        tally(ctx, Measure::Clue) == clue_faces(ctx),
    decreases ctx.len(),
{
    if ctx.len() > 0 {
        lemma_face_counts(ctx.drop_last(), b);
    }
}

/// What each kind of fame is worth, counted over the faces a card sees: a
/// flat amount; so much per icon of a kind, per card of a colour, per card of
/// either of two colours, per night card or per clue; so much per complete
/// set of the three wonders or of the four colours.
pub proof fn law_fame_by_kind(f: Fame, ctx: Seq<Face>)
    ensures
        f is NoFame ==> crate::scoring::fame_value(f, ctx) == 0,
        f matches Fame::Flat(v) ==> crate::scoring::fame_value(f, ctx) == v,
        f matches Fame::PerIcon { icon, score_per } ==> crate::scoring::fame_value(f, ctx)
            == visible_icons(ctx, icon) * score_per,
        f matches Fame::PerColour { biome, score_per } ==> crate::scoring::fame_value(f, ctx)
            == faces_of_colour(ctx, biome) * score_per,
        f matches Fame::PerColourPair { biome1, biome2, score_per } ==> crate::scoring::fame_value(f, ctx)
            == (faces_of_colour(ctx, biome1) + faces_of_colour(ctx, biome2)) * score_per,
        f matches Fame::PerNight { score_per } ==> crate::scoring::fame_value(f, ctx) == night_faces(ctx) * score_per,
        f matches Fame::PerClue { score_per } ==> crate::scoring::fame_value(f, ctx) == clue_faces(ctx) * score_per,
        f matches Fame::PerWonderSet { score_per } ==> {
            let sets = crate::scoring::fame_value(f, ctx) / (score_per as int);
            &&& score_per > 0 ==> crate::scoring::fame_value(f, ctx) % (score_per as int) == 0
            &&& score_per > 0 ==> sets <= visible_icons(ctx, Wonder::Stone) && sets <= visible_icons(ctx, Wonder::Chimera)
                && sets <= visible_icons(ctx, Wonder::Thistle)
            &&& score_per > 0 ==> (sets == visible_icons(ctx, Wonder::Stone) || sets == visible_icons(ctx, Wonder::Chimera)
                || sets == visible_icons(ctx, Wonder::Thistle))
            &&& score_per == 0 ==> crate::scoring::fame_value(f, ctx) == 0
        },
        f matches Fame::PerColourSet { score_per } ==> {
            let sets = crate::scoring::fame_value(f, ctx) / (score_per as int);
            &&& score_per > 0 ==> crate::scoring::fame_value(f, ctx) % (score_per as int) == 0
            &&& score_per > 0 ==> sets <= faces_of_colour(ctx, Biome::Red) && sets <= faces_of_colour(ctx, Biome::Green)
                && sets <= faces_of_colour(ctx, Biome::Blue) && sets <= faces_of_colour(ctx, Biome::Yellow)
            &&& score_per > 0 ==> (sets == faces_of_colour(ctx, Biome::Red) || sets == faces_of_colour(ctx, Biome::Green)
                || sets == faces_of_colour(ctx, Biome::Blue) || sets == faces_of_colour(ctx, Biome::Yellow))
            &&& score_per == 0 ==> crate::scoring::fame_value(f, ctx) == 0
        },
{
    lemma_visible_icons(ctx, Wonder::Stone);
    lemma_visible_icons(ctx, Wonder::Chimera);
    lemma_visible_icons(ctx, Wonder::Thistle);
    lemma_face_counts(ctx, Biome::Red);
    lemma_face_counts(ctx, Biome::Green);
    lemma_face_counts(ctx, Biome::Blue);
    lemma_face_counts(ctx, Biome::Yellow);
    match f {
        Fame::PerIcon { icon, .. } => {
            lemma_visible_icons(ctx, icon);
        },
        Fame::PerColour { biome, .. } => {
            lemma_face_counts(ctx, biome);
        },
        Fame::PerColourPair { biome1, biome2, .. } => {
            lemma_face_counts(ctx, biome1);
            lemma_face_counts(ctx, biome2);
        },
        Fame::PerWonderSet { score_per } => {
            let w = crate::scoring::wonder_sets(ctx);
            if score_per > 0 {
                assert(w * score_per / (score_per as int) == w) by (nonlinear_arith)
                    requires score_per > 0, w >= 0;
                assert((w * score_per) % (score_per as int) == 0) by (nonlinear_arith)
                    requires score_per > 0, w >= 0;
            }
        },
        Fame::PerColourSet { score_per } => {
            let w = crate::scoring::colour_sets(ctx);
            if score_per > 0 {
                assert(w * score_per / (score_per as int) == w) by (nonlinear_arith)
                    requires score_per > 0, w >= 0;
                assert((w * score_per) % (score_per as int) == 0) by (nonlinear_arith)
                    requires score_per > 0, w >= 0;
            }
        },
        _ => {},
    }
}

/// At the reveal, the card a player put face down decides both things it is
/// for: its number places the player in the draft, and the player finds
/// sanctuaries exactly when it is higher than the card played the round
/// before (never on the first card).
pub proof fn law_reveal_reads_the_played_card(p: PlayerModel, c: RegionCard)
    requires
        p.played == Some(c),
    ensures
        played_number(crate::game_spec::commit(p)) == c.number,
        eligible(crate::game_spec::commit(p)) <==> (p.tableau.len() >= 1 && c.number > p.tableau.last().number),
        crate::game_spec::commit(p).tableau == p.tableau.push(c),
        crate::game_spec::commit(p).played is None,
{
}

/// The numbers of the regions in `t`, added up front to back.
pub open spec fn numbers_total(t: Seq<RegionCard>) -> nat
    decreases t.len(),
{
    if t.len() == 0 {
        0
    } else {
        t[0].number as nat + numbers_total(t.subrange(1, t.len() as int))
    }
}

proof fn lemma_numbers_total(t: Seq<RegionCard>)
    ensures
        crate::game_spec::number_sum(t) == numbers_total(t),
    decreases t.len(),
{
    if t.len() > 0 {
        let tail = t.subrange(1, t.len() as int);
        lemma_numbers_total(tail);
        lemma_numbers_total(t.drop_last());
        if t.len() > 1 {
            lemma_numbers_total(tail.drop_last());
            assert(t.drop_last().subrange(1, t.len() - 1) =~= tail.drop_last());
            assert(tail.last() == t.last());
        } else {
            assert(tail.len() == 0);
            assert(t.drop_last().len() == 0);
        }
    }
}

/// The end of a game, in both variants: every player gets a line of the
/// final table, in seat order, with their seat, name, final fame and the sum
/// of the numbers of the regions they explored (the tiebreaker).
pub proof fn law_final_scores(g: GameModel, f: FarawayModel)
    ensures
        crate::game_spec::finalize(g).phase matches PhaseModel::Over { scores } && scores.len() == g.players.len()
            && forall|i: int| 0 <= i < g.players.len() ==> {
            &&& (#[trigger] scores[i]).seat == g.players[i].seat
            &&& scores[i].name == g.players[i].name
            &&& scores[i].total == crate::scoring::final_score(g.players[i].tableau, g.players[i].sanctuaries) as u32
            &&& scores[i].card_number_sum == numbers_total(g.players[i].tableau) as u32
        },
        crate::game_spec::finalize(g).players == g.players,
        finalize_f(f).phase matches FarawayPhase::Over { scores } && scores.len() == f.players.len()
            && forall|i: int| 0 <= i < f.players.len() ==> {
            &&& (#[trigger] scores[i]).seat == f.players[i].seat
            &&& scores[i].name == f.players[i].name
            &&& scores[i].total == crate::scoring::final_score(f.players[i].tableau, f.players[i].sanctuaries) as u32
            &&& scores[i].card_number_sum == numbers_total(f.players[i].tableau) as u32
        },
        finalize_f(f).players == f.players,
{
    assert forall|i: int| 0 <= i < g.players.len() implies numbers_total(g.players[i].tableau)
        == crate::game_spec::number_sum(g.players[i].tableau) by {
        lemma_numbers_total(g.players[i].tableau);
    }
    assert forall|i: int| 0 <= i < f.players.len() implies numbers_total(f.players[i].tableau)
        == crate::game_spec::number_sum(f.players[i].tableau) by {
        lemma_numbers_total(f.players[i].tableau);
    }
}

proof fn lemma_eligible_list_contains(ps: Seq<PlayerModel>, s: usize)
    requires
        seats_ok(ps),
    ensures
        eligible_list(ps).contains(s) <==> (s < ps.len() && eligible(ps[s as int])),
    decreases ps.len(),
{
    if ps.len() > 0 {
        let d = ps.drop_last();
        assert(seats_ok(d)) by {
            assert forall|i: int| 0 <= i < d.len() implies #[trigger] d[i].seat == i by {
                assert(d[i] == ps[i]);
            }
        }
        lemma_eligible_list_contains(d, s);
        let r = eligible_list(d);
        assert(ps.last().seat == ps.len() - 1);
        if eligible(ps.last()) {
            assert(r.push(ps.last().seat).contains(s) <==> (r.contains(s) || s == ps.len() - 1)) by {
                if r.push(ps.last().seat).contains(s) {
                    let k = choose|k: int| 0 <= k < r.push(ps.last().seat).len() && r.push(ps.last().seat)[k] == s;
                    if k < r.len() {
                        assert(r[k] == s);
                    }
                }
                if r.contains(s) {
                    let k = choose|k: int| 0 <= k < r.len() && r[k] == s;
                    assert(r.push(ps.last().seat)[k] == s);
                }
                if s == ps.len() - 1 {
                    assert(r.push(ps.last().seat)[r.len() as int] == s);
                }
            }
        }
        if s < d.len() {
            assert(d[s as int] == ps[s as int]);
        }
    }
}

/// Every draw is the seat's full count unless the deck has run out, and the
/// seats that draw are exactly the ones listed.
proof fn lemma_draw_all(ps: Seq<PlayerModel>, deck: Seq<SanctuaryCard>, seats: Seq<usize>)
    ensures
        draw_all(ps, deck, seats).0.len() <= deck.len(),
        forall|s: usize| #[trigger] draw_all(ps, deck, seats).1.contains_key(s) <==> seats.contains(s),
        forall|s: usize| #[trigger] draw_all(ps, deck, seats).1.contains_key(s) ==> {
            ||| draw_all(ps, deck, seats).1[s].len() == crate::game_spec::draw_count(ps[s as int])
            ||| draw_all(ps, deck, seats).0.len() == 0
        },
        forall|s: usize| #[trigger] draw_all(ps, deck, seats).1.contains_key(s) ==> draw_all(ps, deck, seats).1[s].len()
            <= crate::game_spec::draw_count(ps[s as int]),
    decreases seats.len(),
{
    if seats.len() > 0 {
        let pre = seats.drop_last();
        lemma_draw_all(ps, deck, pre);
        let (d, m) = draw_all(ps, deck, pre);
        let last = seats.last();
        assert forall|s: usize| #[trigger] draw_all(ps, deck, seats).1.contains_key(s) <==> seats.contains(s) by {
            if seats.contains(s) && s != last {
                let k = choose|k: int| 0 <= k < seats.len() && seats[k] == s;
                assert(pre[k] == s);
            }
            if pre.contains(s) {
                let k = choose|k: int| 0 <= k < pre.len() && pre[k] == s;
                assert(seats[k] == s);
            }
            assert(seats[seats.len() - 1] == last);
        }
    }
}

/// The reveal in the classic game: the played cards join the tableaux; the
/// players whose card beats their previous one, and only they, each draw one
/// sanctuary plus one per clue to choose from (fewer only once the deck has
/// run out); when nobody qualifies, the draft starts at once.
pub proof fn law_classic_reveal(g: FarawayModel)
    requires
        g.wf(),
    ensures
        reveal_f(g).players == g.players.map_values(|p: PlayerModel| crate::game_spec::commit(p)),
        ({
            let ps = g.players.map_values(|p: PlayerModel| crate::game_spec::commit(p));
            (exists|s: int| 0 <= s < ps.len() && #[trigger] eligible(ps[s])) ==> (reveal_f(g).phase matches FarawayPhase::Choice { pending }
                && (forall|s: usize| #[trigger] pending.contains_key(s) <==> (s < ps.len() && eligible(ps[s as int])))
                && (forall|s: usize| #[trigger] pending.contains_key(s) ==> pending[s].len() <= crate::game_spec::draw_count(ps[s as int])
                    && (pending[s].len() == crate::game_spec::draw_count(ps[s as int]) || reveal_f(g).sanctuary_deck.len() == 0)))
        }),
        ({
            let ps = g.players.map_values(|p: PlayerModel| crate::game_spec::commit(p));
            !(exists|s: int| 0 <= s < ps.len() && #[trigger] eligible(ps[s]))
                ==> reveal_f(g) == begin_drafting_f(FarawayModel { players: ps, ..g })
        }),
{
    let ps = g.players.map_values(|p: PlayerModel| crate::game_spec::commit(p));
    assert(seats_ok(ps)) by {
        assert forall|k: int| 0 <= k < ps.len() implies #[trigger] ps[k].seat == k by {
            assert(ps[k].seat == g.players[k].seat);
        }
    }
    let el = eligible_list(ps);
    assert forall|s: usize| el.contains(s) <==> (s < ps.len() && eligible(ps[s as int])) by {
        lemma_eligible_list_contains(ps, s);
    }
    if exists|s: int| 0 <= s < ps.len() && #[trigger] eligible(ps[s]) {
        let s = choose|s: int| 0 <= s < ps.len() && #[trigger] eligible(ps[s]);
        assert(ps[s].seat == s);
        assert(el.contains(s as usize));
        assert(el.len() > 0);
        lemma_draw_all(ps, g.sanctuary_deck, el);
    } else {
        if el.len() > 0 {
            assert(el.contains(el[0]));
        }
    }
}

// ─── How the statistics count ────────────────────────────────────────────────

/// How often a card number occurs: once for each time it is in the list, over any split of the list.
pub proof fn law_occurrences_counts(a: Seq<u8>, b: Seq<u8>, x: u8, m: u8)
    ensures
        occurrences(Seq::<u8>::empty(), m) == 0,
        occurrences(seq![x], m) == (if x == m { 1nat } else { 0nat }),
        occurrences(a + b, m) == occurrences(a, m) + occurrences(b, m),
    decreases b.len(),
{
    reveal_with_fuel(occurrences, 2);
    if b.len() > 0 {
        law_occurrences_counts(a, b.drop_last(), x, m);
        assert((a + b).drop_last() =~= a + b.drop_last());
    } else {
        assert(a + b =~= a);
    }
    assert(seq![x].drop_last() =~= Seq::<u8>::empty());
    assert(seq![x].last() == x);
    assert(seq![x].len() == 1);
}

/// How many cards of a colour were played: once for each card of that colour, over any split of the list.
pub proof fn law_colour_counts(a: Seq<Biome>, b: Seq<Biome>, x: Biome, c: Biome)
    ensures
        colour_count(Seq::<Biome>::empty(), c) == 0,
        colour_count(seq![x], c) == (if x == c { 1nat } else { 0nat }),
        colour_count(a + b, c) == colour_count(a, c) + colour_count(b, c),
    decreases b.len(),
{
    reveal_with_fuel(colour_count, 2);
    if b.len() > 0 {
        law_colour_counts(a, b.drop_last(), x, c);
        assert((a + b).drop_last() =~= a + b.drop_last());
    } else {
        assert(a + b =~= a);
    }
    assert(seq![x].drop_last() =~= Seq::<Biome>::empty());
    assert(seq![x].last() == x);
    assert(seq![x].len() == 1);
}

/// How many games have a key: once for each pair with that key, over any split of the list.
pub proof fn law_games_with_counts(a: Seq<(u32, u32)>, b: Seq<(u32, u32)>, x: (u32, u32), k: u32)
    ensures
        games_with(Seq::<(u32, u32)>::empty(), k) == 0,
        games_with(seq![x], k) == (if x.0 == k { 1nat } else { 0nat }),
        games_with(a + b, k) == games_with(a, k) + games_with(b, k),
    decreases b.len(),
{
    reveal_with_fuel(games_with, 2);
    if b.len() > 0 {
        law_games_with_counts(a, b.drop_last(), x, k);
        assert((a + b).drop_last() =~= a + b.drop_last());
    } else {
        assert(a + b =~= a);
    }
    assert(seq![x].drop_last() =~= Seq::<(u32, u32)>::empty());
    assert(seq![x].last() == x);
    assert(seq![x].len() == 1);
}

/// The scores of the games with a key: each such pair adds its score, over any split of the list.
pub proof fn law_total_with_counts(a: Seq<(u32, u32)>, b: Seq<(u32, u32)>, x: (u32, u32), k: u32)
    ensures
        total_with(Seq::<(u32, u32)>::empty(), k) == 0,
        total_with(seq![x], k) == (if x.0 == k { x.1 as nat } else { 0nat }),
        total_with(a + b, k) == total_with(a, k) + total_with(b, k),
    decreases b.len(),
{
    reveal_with_fuel(total_with, 2);
    if b.len() > 0 {
        law_total_with_counts(a, b.drop_last(), x, k);
        assert((a + b).drop_last() =~= a + b.drop_last());
    } else {
        assert(a + b =~= a);
    }
    assert(seq![x].drop_last() =~= Seq::<(u32, u32)>::empty());
    assert(seq![x].last() == x);
    assert(seq![x].len() == 1);
}

/// The time played: each game adds the time from its start to its end (none when the clock went backwards), over any split of the list.
pub proof fn law_total_duration_counts(a: Seq<GameRecord>, b: Seq<GameRecord>, x: GameRecord)
    ensures
        total_duration(Seq::<GameRecord>::empty()) == 0,
        total_duration(seq![x]) == (if x.finished_at - x.started_at > 0 { x.finished_at - x.started_at } else { 0int }),
        total_duration(a + b) == total_duration(a) + total_duration(b),
    decreases b.len(),
{
    reveal_with_fuel(total_duration, 2);
    if b.len() > 0 {
        law_total_duration_counts(a, b.drop_last(), x);
        assert((a + b).drop_last() =~= a + b.drop_last());
    } else {
        assert(a + b =~= a);
    }
    assert(seq![x].drop_last() =~= Seq::<GameRecord>::empty());
    assert(seq![x].last() == x);
    assert(seq![x].len() == 1);
}

/// The most played cards come most played first, ties to the lower number,
/// and any card played but not listed was played no more often than each
/// listed one (and, if as often, has a higher number); three are listed then.
pub proof fn law_top_three_order(ns: Seq<u8>, r: Seq<TopCard>)
    requires
        is_top_three(ns, r),
    ensures
        forall|i: int, j: int| 0 <= i < j < r.len() ==> #[trigger] r[i].times_played > #[trigger] r[j].times_played
            || (r[i].times_played == r[j].times_played && r[i].number < r[j].number),
        forall|m: u8, i: int| #![trigger r[i], occurrences(ns, m)]
            0 <= i < r.len() && occurrences(ns, m) > 0 && !crate::records::listed(r, m)
            ==> r.len() == 3 && (r[i].times_played > occurrences(ns, m)
            || (r[i].times_played == occurrences(ns, m) && r[i].number < m)),
{
    assert forall|i: int, j: int| 0 <= i < j < r.len() implies #[trigger] r[i].times_played > #[trigger] r[j].times_played
        || (r[i].times_played == r[j].times_played && r[i].number < r[j].number) by {
        assert(crate::records::ranks_before(r[i].number, r[i].times_played as nat, r[j].number, r[j].times_played as nat));
    }
}

/// Placements by the results themselves: a higher score, or the same score
/// with a lower card-number sum, places strictly better; the same score and
/// sum place the same; and a placement is one more than the number of results
/// that are better in that sense.
pub proof fn law_placements_by_score(rs: Seq<(u32, u32)>, i: int, j: int)
    requires
        0 <= i < rs.len(),
        0 <= j < rs.len(),
    ensures
        rs[i].0 > rs[j].0 ==> placement(rs, i) < placement(rs, j),
        rs[i].0 == rs[j].0 && rs[i].1 < rs[j].1 ==> placement(rs, i) < placement(rs, j),
        rs[i].0 == rs[j].0 && rs[i].1 == rs[j].1 ==> placement(rs, i) == placement(rs, j),
        placement(rs, i) == 1 + rs.filter(|x: (u32, u32)| x.0 > rs[i].0 || (x.0 == rs[i].0 && x.1 < rs[i].1)).len(),
{
    law_placements_follow_results(rs, i, j);
    assert(rs[i].0 == rs[j].0 && rs[i].1 == rs[j].1 ==> rs[i] == rs[j]);
    lemma_count_beating_filter(rs, rs[i]);
}

proof fn lemma_count_beating_filter(rs: Seq<(u32, u32)>, x: (u32, u32))
    ensures
        count_beating(rs, x) == rs.filter(|y: (u32, u32)| y.0 > x.0 || (y.0 == x.0 && y.1 < x.1)).len(),
    decreases rs.len(),
{
    reveal(Seq::filter);
    if rs.len() > 0 {
        lemma_count_beating_filter(rs.drop_last(), x);
    }
}

/// Dealing leaves the draws of seats that are not waiting as they were.
proof fn lemma_deal_keeps_other_draws(g: GameModel)
    requires
        g.wf(),
        g.phase is Drafting,
    ensures
        deal(g).phase is Drafting,
        forall|t: usize| !g.phase->waiting.contains(t) ==> (#[trigger] deal(g).phase->pending.contains_key(t)
            == g.phase->pending.contains_key(t)) && (g.phase->pending.contains_key(t) ==> deal(g).phase->pending[t]
            == g.phase->pending[t]),
        forall|j: int| 0 <= j < g.players.len() && !g.phase->waiting.contains(j as usize) ==> #[trigger] deal(g).players[j]
            == g.players[j],
        forall|t: usize| #[trigger] deal(g).phase->waiting.contains(t) ==> g.phase->waiting.contains(t),
    decreases crate::game_spec::waiting_len(g),
{
    lemma_deal_keeps_drafting(g);
    match g.phase {
        PhaseModel::Drafting { order, current, waiting, pending, drafted } => {
            if waiting.len() > 0 {
                let seat = waiting[0];
                lemma_remove_all_len(waiting, seat);
                assert(waiting.contains(seat)) by {
                    assert(waiting[0] == seat);
                }
                let count = crate::game_spec::draw_count(g.players[seat as int]);
                let is_current = order[current as int] == seat;
                let deck_size = g.sanctuary_deck.len();
                let waiting2 = crate::game_spec::remove_all(waiting, seat);
                if !(deck_size == 0) && !(deck_size < count && !is_current) {
                    let choices = crate::game_spec::drawn(g, seat);
                    let g2 = crate::game_spec::after_draw(g, seat);
                    let g3 = if choices.len() == 1 {
                        with_phase(
                            crate::game_spec::give_sanctuary(g2, seat, choices[0]),
                            PhaseModel::Drafting { order, current, waiting: waiting2, pending, drafted },
                        )
                    } else {
                        with_phase(
                            g2,
                            PhaseModel::Drafting { order, current, waiting: waiting2, pending: pending.insert(seat, choices), drafted },
                        )
                    };
                    assert(deal(g) == deal(g3));
                    assert forall|j: int| 0 <= j < waiting2.len() implies !g3.phase->pending.contains_key(#[trigger] waiting2[j]) by {
                        assert(waiting.contains(waiting2[j]));
                        let w = choose|w: int| 0 <= w < waiting.len() && waiting[w] == waiting2[j];
                        assert(!pending.contains_key(waiting[w]));
                        assert(waiting2[j] != seat) by {
                            assert(!waiting2.contains(seat));
                        }
                    }
                    assert(g3.wf()) by {
                        assert(seats_ok(g3.players)) by {
                            assert forall|i: int| 0 <= i < g3.players.len() implies #[trigger] g3.players[i].seat == i by {
                                assert(g3.players[i].seat == g.players[i].seat);
                            }
                        }
                        assert forall|j: int| 0 <= j < waiting2.len() implies #[trigger] waiting2[j] < g3.players.len() by {
                            assert(waiting.contains(waiting2[j]));
                        }
                    }
                    lemma_deal_keeps_other_draws(g3);
                    assert forall|j: int| 0 <= j < g.players.len() && !waiting.contains(j as usize) implies #[trigger] deal(g).players[j]
                        == g.players[j] by {
                        assert(j as usize != seat);
                        assert(g3.players[j] == g.players[j]);
                        if waiting2.contains(j as usize) {
                            let w = choose|w: int| 0 <= w < waiting2.len() && waiting2[w] == j as usize;
                            assert(waiting.contains(waiting2[w]));
                        }
                    }
                    assert forall|t: usize| #[trigger] deal(g).phase->waiting.contains(t) implies waiting.contains(t) by {
                        assert(waiting2.contains(t));
                        let w = choose|w: int| 0 <= w < waiting2.len() && waiting2[w] == t;
                        assert(waiting.contains(waiting2[w]));
                    }
                    assert forall|t: usize| !waiting.contains(t) implies (#[trigger] deal(g).phase->pending.contains_key(t)
                        == pending.contains_key(t)) && (pending.contains_key(t) ==> deal(g).phase->pending[t] == pending[t]) by {
                        assert(t != seat);
                        if waiting2.contains(t) {
                            let w = choose|w: int| 0 <= w < waiting2.len() && waiting2[w] == t;
                            assert(waiting.contains(waiting2[w]));
                        }
                        assert(!g3.phase->waiting.contains(t));
                        assert(g3.phase->pending.contains_key(t) == pending.contains_key(t));
                        if pending.contains_key(t) {
                            assert(g3.phase->pending[t] == pending[t]);
                        }
                        assert(deal(g3).phase->pending.contains_key(t) == g3.phase->pending.contains_key(t));
                    }
                }
            }
        },
        _ => {},
    }
}

/// Dealing to the first waiting seat: when the deck holds its whole draw (or
/// it is that seat's turn and the deck is not empty), it draws one sanctuary
/// plus one per clue off the top of the deck, as far as the deck goes: a
/// single card is kept at once, more wait for the player's choice.
pub proof fn law_first_waiting_seat_draws(g: GameModel)
    requires
        g.wf(),
        g.phase matches PhaseModel::Drafting { waiting, .. } && waiting.len() > 0,
        g.sanctuary_deck.len() > 0,
        g.sanctuary_deck.len() >= crate::game_spec::draw_count(g.players[g.phase->waiting[0] as int])
            || g.phase->order[g.phase->current as int] == g.phase->waiting[0],
    ensures
        ({
            let w = g.phase->waiting[0];
            let d = g.sanctuary_deck;
            let n = crate::game_spec::draw_count(g.players[w as int]);
            let k = if d.len() < n { d.len() as int } else { n as int };
            &&& k >= 2 ==> deal(g).phase->pending.contains_key(w) && deal(g).phase->pending[w].len() == k
                && forall|i: int| 0 <= i < k ==> #[trigger] deal(g).phase->pending[w][i] == d[d.len() - 1 - i]
            &&& k == 1 ==> !deal(g).phase->pending.contains_key(w)
                && deal(g).players[w as int].sanctuaries == g.players[w as int].sanctuaries.push(d[d.len() - 1])
            &&& !deal(g).phase->waiting.contains(w)
        }),
{
    lemma_deal_keeps_drafting(g);
    match g.phase {
        PhaseModel::Drafting { order, current, waiting, pending, drafted } => {
            let seat = waiting[0];
            lemma_remove_all_len(waiting, seat);
            assert(waiting.contains(seat)) by {
                assert(waiting[0] == seat);
            }
            assert(!pending.contains_key(seat));
            let waiting2 = crate::game_spec::remove_all(waiting, seat);
            let choices = crate::game_spec::drawn(g, seat);
            let g2 = crate::game_spec::after_draw(g, seat);
            let g3 = if choices.len() == 1 {
                with_phase(
                    crate::game_spec::give_sanctuary(g2, seat, choices[0]),
                    PhaseModel::Drafting { order, current, waiting: waiting2, pending, drafted },
                )
            } else {
                with_phase(
                    g2,
                    PhaseModel::Drafting { order, current, waiting: waiting2, pending: pending.insert(seat, choices), drafted },
                )
            };
            assert(deal(g) == deal(g3));
            assert forall|j: int| 0 <= j < waiting2.len() implies !g3.phase->pending.contains_key(#[trigger] waiting2[j]) by {
                assert(waiting.contains(waiting2[j]));
                let w = choose|w: int| 0 <= w < waiting.len() && waiting[w] == waiting2[j];
                assert(!pending.contains_key(waiting[w]));
                assert(waiting2[j] != seat) by {
                    assert(!waiting2.contains(seat));
                }
            }
            assert(g3.wf()) by {
                assert(seats_ok(g3.players)) by {
                    assert forall|i: int| 0 <= i < g3.players.len() implies #[trigger] g3.players[i].seat == i by {
                        assert(g3.players[i].seat == g.players[i].seat);
                    }
                }
                assert forall|j: int| 0 <= j < waiting2.len() implies #[trigger] waiting2[j] < g3.players.len() by {
                    assert(waiting.contains(waiting2[j]));
                }
            }
            lemma_deal_keeps_other_draws(g3);
            lemma_deal_keeps_drafting(g3);
            assert(seat < g.players.len());
            assert(g3.players.len() == g.players.len());
            assert(!g3.phase->waiting.contains(seat));
            assert(!g3.phase->waiting.contains((seat as int) as usize));
            assert(deal(g3).players[seat as int] == g3.players[seat as int]);
            if deal(g).phase->waiting.contains(seat) {
                assert(waiting2.contains(seat));
            }
            let d = g.sanctuary_deck;
            let n = crate::game_spec::draw_count(g.players[seat as int]);
            let k = if d.len() < n { d.len() as int } else { n as int };
            assert(k == min_int(n as int, d.len() as int));
            assert(choices.len() == k);
            assert(k >= 1);
            assert forall|i: int| 0 <= i < k implies #[trigger] choices[i] == d[d.len() - 1 - i] by {}
            assert(deal(g3).phase->pending.contains_key(seat) == g3.phase->pending.contains_key(seat));
            if k >= 2 {
                assert(g3.phase->pending.contains_key(seat));
                assert(g3.phase->pending[seat] == choices);
                assert(deal(g3).phase->pending[seat] == choices);
            } else {
                assert(!g3.phase->pending.contains_key(seat));
                assert(g3.players[seat as int].sanctuaries == g.players[seat as int].sanctuaries.push(choices[0]));
            }
        },
        _ => {},
    }
}

// ─── Refusals ────────────────────────────────────────────────────────────────

/// A refused action changes nothing: whenever joining, dealing, keeping,
/// playing, choosing or drafting is answered with an error, in either
/// variant, the game is exactly as it was.
pub proof fn law_refusal_changes_nothing(
    g: GameModel,
    f: FarawayModel,
    seat: usize,
    i: usize,
    name: Seq<char>,
    ix: Seq<usize>,
    deck: Seq<RegionCard>,
    rd: Seq<RegionCard>,
    sd: Seq<SanctuaryCard>,
    advanced: bool,
)
    ensures
        spec_join(g, name).0 is Err ==> spec_join(g, name).1 == g,
        spec_deal_start(g, rd, sd, advanced).0 is Err ==> spec_deal_start(g, rd, sd, advanced).1 == g,
        spec_keep_cards(g, seat, ix, deck).0 is Err ==> spec_keep_cards(g, seat, ix, deck).1 == g,
        spec_play_card(g, seat, i).0 is Err ==> spec_play_card(g, seat, i).1 == g,
        spec_choose_sanctuary(g, seat, i).0 is Err ==> spec_choose_sanctuary(g, seat, i).1 == g,
        spec_draft_card(g, seat, i).0 is Err ==> spec_draft_card(g, seat, i).1 == g,
        spec_join_f(f, name).0 is Err ==> spec_join_f(f, name).1 == f,
        spec_start_f(f, seat).0 is Err ==> spec_start_f(f, seat).1 == f,
        spec_play_f(f, seat, i).0 is Err ==> spec_play_f(f, seat, i).1 == f,
        spec_choose_f(f, seat, i).0 is Err ==> spec_choose_f(f, seat, i).1 == f,
        spec_draft_f(f, seat, i).0 is Err ==> spec_draft_f(f, seat, i).1 == f,
{
}

// ─── Opening deal ────────────────────────────────────────────────────────────

/// The opening deal: with enough cards, every player gets three cards, the
/// market gets player count + 1, and round 1 starts with everyone choosing;
/// in the advanced variant every seat gets five cards to choose from.
pub proof fn law_opening_deal(g: GameModel)
    requires
        start_refusal(g, 0) is None,
        g.players.len() <= usize::MAX,
    ensures
        g.region_deck.len() >= 4 * g.players.len() + 1 ==> {
            let (r, h) = spec_deal_start(g, g.region_deck, g.sanctuary_deck, false);
            &&& r is Ok
            &&& h.players.len() == g.players.len()
            &&& forall|i: int| 0 <= i < g.players.len() ==> #[trigger] h.players[i].hand.len() == g.players[i].hand.len() + 3
            &&& h.market.len() == g.market.len() + g.players.len() + 1
            &&& h.region_deck.len() == g.region_deck.len() - (4 * g.players.len() + 1)
            &&& h.round == 1
            &&& h.phase is Choosing
            &&& h.player_count == g.players.len()
        },
        g.region_deck.len() >= 5 * g.players.len() ==> {
            let (r, h) = spec_deal_start(g, g.region_deck, g.sanctuary_deck, true);
            &&& r is Ok
            &&& h.phase matches PhaseModel::Setup { hands } && forall|s: usize|
                s < g.players.len() ==> #[trigger] hands.contains_key(s) && hands[s].len() == 5
            &&& h.region_deck.len() == g.region_deck.len() - 5 * g.players.len()
        },
{
    let n = g.players.len() as int;
    let deck = g.region_deck;
    if deck.len() >= 4 * n + 1 {
        let (r, h) = spec_deal_start(g, deck, g.sanctuary_deck, false);
        let ps = crate::game_spec::dealt_hands(g.players, deck);
        let d1 = rest(deck, 3 * n);
        assert(d1.len() == deck.len() - 3 * n);
        let g1 = GameModel { players: ps, region_deck: d1, player_count: n as usize, ..g };
        assert(spec_deal_start(g, deck, g.sanctuary_deck, false) == crate::game_spec::spec_round_1(g1));
        assert(!(d1.len() < n + 1));
        assert(h.market == g.market + top(d1, n + 1));
        assert(h.region_deck == rest(d1, n + 1));

    }
}

// ─── Sanctuary choices ───────────────────────────────────────────────────────

/// Choosing a sanctuary loses no card: the chosen one is kept and the others of
/// the draw go to the bottom of the deck.
pub proof fn law_choice_keeps_every_card(deck: Seq<SanctuaryCard>, choices: Seq<SanctuaryCard>, k: int)
    requires
        0 <= k < choices.len(),
    ensures
        returned_to_bottom(deck, choices, k).to_multiset().insert(choices[k]) == deck.to_multiset().add(choices.to_multiset()),
        returned_to_bottom(deck, choices, k).len() == deck.len() + choices.len() - 1,
        returned_to_bottom(deck, choices, k).subrange(choices.len() - 1, deck.len() + choices.len() - 1) == deck,
{
    broadcast use vstd::multiset::group_multiset_axioms;
    let rest_of = choices.remove(k);
    rest_of.lemma_reverse_to_multiset();
    vstd::seq_lib::lemma_multiset_commutative(rest_of.reverse(), deck);
    assert(rest_of.to_multiset() == choices.to_multiset().remove(choices[k]));
    assert(returned_to_bottom(deck, choices, k).subrange(choices.len() - 1, deck.len() + choices.len() - 1) =~= deck);
}

// ─── Classic rules ───────────────────────────────────────────────────────────

/// In the classic game the eighth round ends with the scores: no draft starts.
pub proof fn law_classic_round_eight_ends(g: FarawayModel)
    requires
        g.round == 8,
    ensures
        begin_drafting_f(g).phase is Over,
        begin_drafting_f(g).market.len() == 0,
{
}

// ─── Win streaks ─────────────────────────────────────────────────────────────

/// How many of the placements are wins.
pub open spec fn wins(ps: Seq<u32>) -> nat
    decreases ps.len(),
{
    if ps.len() == 0 {
        0
    } else {
        wins(ps.drop_last()) + if ps.last() == 1 { 1nat } else { 0nat }
    }
}

/// A win streak is never longer than the number of wins.
pub proof fn law_streak_at_most_wins(ps: Seq<u32>)
    ensures
        streak_at_end(ps) <= wins(ps),
        longest_streak(ps) <= wins(ps),
    decreases ps.len(),
{
    if ps.len() > 0 {
        law_streak_at_most_wins(ps.drop_last());
    }
}


// ─── Turns in the draft ──────────────────────────────────────────────────────

/// The drafter whose turn it is can do something: draft from the market, or
/// choose one of their pending sanctuaries.
pub open spec fn drafter_can_act(g: GameModel) -> bool {
    g.phase matches PhaseModel::Drafting { order, current, pending, drafted, .. } ==> !drafted
        || pending.contains_key(order[current as int])
}

proof fn lemma_advance_before_last_round(g: GameModel)
    requires
        g.wf(),
        g.round < 8,
        g.phase is Drafting,
    ensures
        drafter_can_act(advance_drafter(g)),
{
    match g.phase {
        PhaseModel::Drafting { order, current, waiting, pending, drafted } => {
            if current + 1 < order.len() {
                let g1 = with_phase(
                    g,
                    PhaseModel::Drafting { order, current: (current + 1) as usize, waiting, pending, drafted: false },
                );
                lemma_deal_keeps_drafting(g1);
            }
        },
        _ => {},
    }
}

/// Before the last round the draft never stalls: after any request, whoever's
/// turn it is can still draft, or has a sanctuary to choose.
pub proof fn law_draft_never_stalls(g: GameModel, seat: usize, k: usize)
    requires
        g.wf(),
        g.round < 8,
        drafter_can_act(g),
    ensures
        drafter_can_act(spec_play_card(g, seat, k).1),
        drafter_can_act(spec_draft_card(g, seat, k).1),
        drafter_can_act(spec_choose_sanctuary(g, seat, k).1),
{
    // Playing: the reveal opens a draft where nobody has drafted yet.
    if g.phase is Choosing && seat < g.players.len() && !(g.players[seat as int].played is Some)
        && k < g.players[seat as int].hand.len() {
        let p = g.players[seat as int];
        let p2 = PlayerModel { hand: p.hand.remove(k as int), played: Some(p.hand[k as int]), ..p };
        let g1 = GameModel { players: g.players.update(seat as int, p2), ..g };
        let ps = g1.players.map_values(|q: PlayerModel| crate::game_spec::commit(q));
        assert(seats_ok(ps)) by {
            assert forall|i: int| 0 <= i < ps.len() implies #[trigger] ps[i].seat == i by {
                assert(ps[i].seat == g1.players[i].seat);
                if i == seat {
                    assert(g1.players[i].seat == g.players[i].seat);
                }
            }
        }
        let order = draft_order(ps);
        crate::game_spec::lemma_draft_order_seats(ps);
        crate::game_spec::lemma_keep_eligible_below(order, ps, ps.len() as int);
        let g2 = GameModel {
            players: ps,
            phase: PhaseModel::Drafting {
                order,
                current: 0,
                waiting: keep_eligible(order, ps),
                pending: Map::empty(),
                drafted: false,
            },
            ..g1
        };
        lemma_deal_keeps_drafting(g2);
    }
    match g.phase {
        PhaseModel::Drafting { order, current, waiting, pending, drafted } => {
            // Drafting: a drafter with a sanctuary pending keeps the turn, or the turn passes.
            if order[current as int] == seat && !drafted && k < g.market.len() && seat < g.players.len() {
                let card = g.market[k as int];
                let g1 = GameModel { market: g.market.remove(k as int), ..g };
                let p = g.players[seat as int];
                let g2 = GameModel {
                    players: g.players.update(seat as int, PlayerModel { hand: p.hand.push(card), ..p }),
                    ..g1
                };
                if !pending.contains_key(seat) {
                    lemma_advance_before_last_round(g2);
                }
            }
            // Choosing: dealing keeps the turn; the turn passes only once the drafter is done.
            if pending.contains_key(seat) && k < pending[seat].len() && seat < g.players.len() {
                let choices = pending[seat];
                let g1 = with_phase(g, PhaseModel::Drafting { order, current, waiting, pending: pending.remove(seat), drafted });
                let g2 = GameModel {
                    sanctuary_deck: returned_to_bottom(g.sanctuary_deck, choices, k as int),
                    ..crate::game_spec::give_sanctuary(g1, seat, choices[k as int])
                };
                lemma_deal_keeps_drafting(g2);
                let g3 = deal(g2);
                assert(g2.wf()) by {
                    assert(seats_ok(g2.players)) by {
                        assert forall|i: int| 0 <= i < g2.players.len() implies #[trigger] g2.players[i].seat == i by {
                            assert(g2.players[i].seat == g.players[i].seat);
                        }
                    }
                }
                if g3.phase->current < g3.phase->order.len() && g3.phase->drafted
                    && !g3.phase->pending.contains_key(g3.phase->order[g3.phase->current as int]) {
                    lemma_advance_before_last_round(g3);
                }
            }
        },
        _ => {},
    }
}


// ─── Scores fit ──────────────────────────────────────────────────────────────

/// With the game's own cards and at most 100 cards in front of each player,
/// every final score and tiebreaker fits in 32 bits, in both variants: the
/// end of a game can always be scored.
pub proof fn law_game_cards_can_score(ps: Seq<PlayerModel>)
    requires
        forall|i: int|
            0 <= i < ps.len() ==> cards_bounded(#[trigger] ps[i].tableau, ps[i].sanctuaries)
                && ps[i].tableau.len() + ps[i].sanctuaries.len() <= 100,
    ensures
        can_score(ps),
        can_score_f(ps),
{
    assert forall|i: int| 0 <= i < ps.len() implies {
        &&& crate::scoring::player_fits(#[trigger] ps[i].tableau, ps[i].sanctuaries)
        &&& crate::scoring::final_score(ps[i].tableau, ps[i].sanctuaries) <= u32::MAX
        &&& crate::game_spec::number_sum(ps[i].tableau) <= u32::MAX
        &&& tiebreak_f(ps[i]) <= u32::MAX
    } by {
        law_game_cards_fit(ps[i].tableau, ps[i].sanctuaries);
        lemma_number_sum_bound(ps[i].tableau);
    }
}

} // verus!
