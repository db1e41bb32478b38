use vstd::prelude::*;
use vstd::string::StringExecFns;
use crate::cards::{
    fame_bounded, region_bounded, sanctuary_bounded, wonders_bounded,
    region_face, sanctuary_face, Biome, Face, Fame, RegionCard, SanctuaryCard, Wonder, WonderCount,
};
use crate::game::PlayerState;
use crate::text::{decimal, join, join_strings, push_decimal};

verus! {

/// Per-player score detail (for the scoring table visible to all).
#[derive(Debug, Clone)]
pub struct PlayerScoreDetail {
    pub seat: usize,
    pub name: String,
    pub entries: Vec<CardScoreEntry>,
    pub total: u32,
}

/// Per-card score breakdown entry.
#[derive(Debug, Clone)]
pub struct CardScoreEntry {
    /// "region" or "sanctuary"
    pub kind: String,
    /// Card number (region) or tile number (sanctuary)
    pub number: u8,
    /// Points scored by this card (0 if its quest failed)
    pub points: u32,
    /// Human-readable explanation, e.g. "3 Stone × 4"
    pub explanation: String,
}

// ─── The visible context ─────────────────────────────────────────────────────

/// Something that can be counted among the visible cards.
#[derive(Clone, Copy, Debug, PartialEq, Eq, Structural)]
pub enum Measure {
    Icon(Wonder),
    Colour(Biome),
    Night,
    Clue,
}

/// How much one face-up card adds to a count.
pub open spec fn measure(f: Face, m: Measure) -> nat {
    match m {
        Measure::Icon(w) => f.wonders.of(w),
        Measure::Colour(b) => if f.biome == b { 1 } else { 0 },
        Measure::Night => if f.night { 1 } else { 0 },
        Measure::Clue => if f.clue { 1 } else { 0 },
    }
}

/// A count over all the visible cards.
pub open spec fn tally(fs: Seq<Face>, m: Measure) -> nat
    decreases fs.len(),
{
    if fs.len() == 0 {
        0
    } else {
        tally(fs.drop_last(), m) + measure(fs.last(), m)
    }
}

pub open spec fn region_ref_faces(rs: Seq<&RegionCard>) -> Seq<Face> {
    rs.map_values(|c: &RegionCard| region_face(*c))
}

pub open spec fn sanctuary_ref_faces(ss: Seq<&SanctuaryCard>) -> Seq<Face> {
    ss.map_values(|c: &SanctuaryCard| sanctuary_face(*c))
}

/// The cards visible when a card is scored: the given regions, then the given sanctuaries.
pub open spec fn context(rs: Seq<&RegionCard>, ss: Seq<&SanctuaryCard>) -> Seq<Face> {
    region_ref_faces(rs) + sanctuary_ref_faces(ss)
}

pub open spec fn tableau_faces(t: Seq<RegionCard>) -> Seq<Face> {
    t.map_values(|c: RegionCard| region_face(c))
}

pub open spec fn kept_faces(s: Seq<SanctuaryCard>) -> Seq<Face> {
    s.map_values(|c: SanctuaryCard| sanctuary_face(c))
}

// ─── What a card is worth ────────────────────────────────────────────────────

pub open spec fn min2(a: int, b: int) -> int {
    if a <= b { a } else { b }
}

/// Complete sets of the three wonders.
pub open spec fn wonder_sets(ctx: Seq<Face>) -> int {
    min2(
        min2(tally(ctx, Measure::Icon(Wonder::Stone)) as int, tally(ctx, Measure::Icon(Wonder::Chimera)) as int),
        tally(ctx, Measure::Icon(Wonder::Thistle)) as int,
    )
}

/// Complete sets of the four colours.
pub open spec fn colour_sets(ctx: Seq<Face>) -> int {
    min2(
        min2(
            min2(tally(ctx, Measure::Colour(Biome::Red)) as int, tally(ctx, Measure::Colour(Biome::Green)) as int),
            tally(ctx, Measure::Colour(Biome::Blue)) as int,
        ),
        tally(ctx, Measure::Colour(Biome::Yellow)) as int,
    )
}

/// The fame a scoring condition awards given the visible cards.
pub open spec fn fame_value(f: Fame, ctx: Seq<Face>) -> int {
    match f {
        Fame::NoFame => 0,
        Fame::Flat(v) => v as int,
        Fame::PerIcon { icon, score_per } => tally(ctx, Measure::Icon(icon)) * score_per,
        Fame::PerColour { biome, score_per } => tally(ctx, Measure::Colour(biome)) * score_per,
        Fame::PerColourPair { biome1, biome2, score_per } =>
            (tally(ctx, Measure::Colour(biome1)) + tally(ctx, Measure::Colour(biome2))) * score_per,
        Fame::PerNight { score_per } => tally(ctx, Measure::Night) * score_per,
        Fame::PerClue { score_per } => tally(ctx, Measure::Clue) * score_per,
        Fame::PerWonderSet { score_per } => wonder_sets(ctx) * score_per,
        Fame::PerColourSet { score_per } => colour_sets(ctx) * score_per,
    }
}

/// Every wonder icon the quest asks for is visible (icons are not spent).
pub open spec fn quest_met(q: WonderCount, ctx: Seq<Face>) -> bool {
    &&& tally(ctx, Measure::Icon(Wonder::Stone)) >= q.stone
    &&& tally(ctx, Measure::Icon(Wonder::Chimera)) >= q.chimera
    &&& tally(ctx, Measure::Icon(Wonder::Thistle)) >= q.thistle
}

/// A region card scores its fame when its quest is met, and 0 otherwise.
pub open spec fn region_score(card: RegionCard, ctx: Seq<Face>) -> int {
    if quest_met(card.quest, ctx) {
        fame_value(card.fame, ctx)
    } else {
        0
    }
}

// ─── Machine limits ──────────────────────────────────────────────────────────

/// The icon counts fit the byte-sized counters they are tallied in.
pub open spec fn wonders_fit(ctx: Seq<Face>) -> bool {
    &&& tally(ctx, Measure::Icon(Wonder::Stone)) <= 255
    &&& tally(ctx, Measure::Icon(Wonder::Chimera)) <= 255
    &&& tally(ctx, Measure::Icon(Wonder::Thistle)) <= 255
}

pub open spec fn fame_uses_wonders(f: Fame) -> bool {
    f is PerIcon || f is PerWonderSet
}

/// Computing the fame stays within 32 bits (and within bytes for icon counts).
pub open spec fn fame_fits(f: Fame, ctx: Seq<Face>) -> bool {
    &&& fame_uses_wonders(f) ==> wonders_fit(ctx)
    &&& fame_value(f, ctx) <= u32::MAX
    &&& f matches Fame::PerColourPair { biome1, biome2, .. } ==>
        tally(ctx, Measure::Colour(biome1)) + tally(ctx, Measure::Colour(biome2)) <= u32::MAX
}

/// Scoring a region card stays within the integer widths used.
pub open spec fn region_fits(card: RegionCard, ctx: Seq<Face>) -> bool {
    &&& !card.quest.spec_is_zero() ==> wonders_fit(ctx)
    &&& quest_met(card.quest, ctx) ==> fame_fits(card.fame, ctx)
}

// ─── Explanations ────────────────────────────────────────────────────────────

pub open spec fn wonder_label(w: Wonder) -> Seq<char> {
    match w {
        Wonder::Stone => "Stone"@,
        Wonder::Chimera => "Chimera"@,
        Wonder::Thistle => "Thistle"@,
    }
}

pub open spec fn biome_label(b: Biome) -> Seq<char> {
    match b {
        Biome::Red => "Forest"@,
        Biome::Green => "River"@,
        Biome::Blue => "Desert"@,
        Biome::Yellow => "City"@,
        Biome::Colorless => "Colorless"@,
    }
}

/// "<count> <what> × <per>"
pub open spec fn per_text(count: int, what: Seq<char>, per: u32) -> Seq<char> {
    decimal(count as nat) + " "@ + what + " × "@ + decimal(per as nat)
}

pub open spec fn fame_text(f: Fame, ctx: Seq<Face>) -> Seq<char> {
    match f {
        Fame::NoFame => "No scoring condition"@,
        Fame::Flat(v) => "+"@ + decimal(v as nat) + " fame"@,
        Fame::PerIcon { icon, score_per } =>
            per_text(tally(ctx, Measure::Icon(icon)) as int, wonder_label(icon), score_per),
        Fame::PerColour { biome, score_per } =>
            per_text(tally(ctx, Measure::Colour(biome)) as int, biome_label(biome), score_per),
        Fame::PerColourPair { biome1, biome2, score_per } => per_text(
            (tally(ctx, Measure::Colour(biome1)) + tally(ctx, Measure::Colour(biome2))) as int,
            biome_label(biome1) + "/"@ + biome_label(biome2),
            score_per,
        ),
        Fame::PerNight { score_per } => per_text(tally(ctx, Measure::Night) as int, "Night"@, score_per),
        Fame::PerClue { score_per } => per_text(tally(ctx, Measure::Clue) as int, "Clue"@, score_per),
        Fame::PerWonderSet { score_per } => per_text(wonder_sets(ctx), "Wonder sets"@, score_per),
        Fame::PerColourSet { score_per } => per_text(colour_sets(ctx), "Colour sets"@, score_per),
    }
}

/// "need <n> <Icon>, have <m>"
pub open spec fn need_text(need: u8, w: Wonder, have: nat) -> Seq<char> {
    "need "@ + decimal(need as nat) + " "@ + wonder_label(w) + ", have "@ + decimal(have)
}

pub open spec fn missing_item(q: WonderCount, w: Wonder, ctx: Seq<Face>) -> Seq<Seq<char>> {
    if tally(ctx, Measure::Icon(w)) < q.of(w) {
        seq![need_text(q.of(w) as u8, w, tally(ctx, Measure::Icon(w)))]
    } else {
        Seq::empty()
    }
}

/// Every icon the quest lacks, in the order stone, chimera, thistle.
pub open spec fn missing_items(q: WonderCount, ctx: Seq<Face>) -> Seq<Seq<char>> {
    missing_item(q, Wonder::Stone, ctx) + missing_item(q, Wonder::Chimera, ctx)
        + missing_item(q, Wonder::Thistle, ctx)
}

pub open spec fn quest_text(q: WonderCount, ctx: Seq<Face>) -> Seq<char> {
    "Quest not met: "@ + join(missing_items(q, ctx), ", "@)
}

pub open spec fn region_text(card: RegionCard, ctx: Seq<Face>) -> Seq<char> {
    if quest_met(card.quest, ctx) {
        fame_text(card.fame, ctx)
    } else {
        quest_text(card.quest, ctx)
    }
}

// ─── A player's whole tableau ────────────────────────────────────────────────

/// Cards visible when the region at index `i` is revealed: itself, every card
/// played after it (already revealed), and all sanctuaries.
pub open spec fn region_context(t: Seq<RegionCard>, s: Seq<SanctuaryCard>, i: int) -> Seq<Face> {
    tableau_faces(t.subrange(i, t.len() as int)) + kept_faces(s)
}

/// Cards visible when sanctuary `j` is scored: the full tableau and the other sanctuaries.
pub open spec fn sanctuary_context(t: Seq<RegionCard>, s: Seq<SanctuaryCard>, j: int) -> Seq<Face> {
    tableau_faces(t) + kept_faces(s.remove(j))
}

pub open spec fn region_points(t: Seq<RegionCard>, s: Seq<SanctuaryCard>, i: int) -> int {
    region_score(t[i], region_context(t, s, i))
}

pub open spec fn sanctuary_points(t: Seq<RegionCard>, s: Seq<SanctuaryCard>, j: int) -> int {
    fame_value(s[j].fame, sanctuary_context(t, s, j))
}

/// Points of the breakdown, in scoring order: the regions right to left
/// (last played first), then the sanctuaries in the order they were kept.
pub open spec fn entry_points(t: Seq<RegionCard>, s: Seq<SanctuaryCard>) -> Seq<int> {
    Seq::new(
        (t.len() + s.len()) as nat,
        |k: int|
            if k < t.len() {
                region_points(t, s, t.len() - 1 - k)
            } else {
                sanctuary_points(t, s, k - t.len())
            },
    )
}

pub open spec fn sum_ints(xs: Seq<int>) -> int
    decreases xs.len(),
{
    if xs.len() == 0 {
        0
    } else {
        sum_ints(xs.drop_last()) + xs.last()
    }
}

/// A player's final fame: every region and every sanctuary, added up.
pub open spec fn final_score(t: Seq<RegionCard>, s: Seq<SanctuaryCard>) -> int {
    sum_ints(entry_points(t, s))
}

/// Scoring the player stays within the integer widths used, card by card.
pub open spec fn player_fits(t: Seq<RegionCard>, s: Seq<SanctuaryCard>) -> bool {
    &&& t.len() + s.len() <= u32::MAX
    &&& forall|i: int| 0 <= i < t.len() ==> #[trigger] region_fits(t[i], region_context(t, s, i))
    &&& forall|j: int| 0 <= j < s.len() ==> #[trigger] fame_fits(s[j].fame, sanctuary_context(t, s, j))
}

/// One line of the breakdown.
pub open spec fn entry_is(
    e: CardScoreEntry,
    kind: Seq<char>,
    number: u8,
    points: int,
    text: Seq<char>,
) -> bool {
    &&& e.kind@ == kind
    &&& e.number == number
    &&& e.points == points
    &&& e.explanation@ == text
}

/// The breakdown of a tableau and its sanctuaries, line by line.
pub open spec fn is_breakdown(
    entries: Seq<CardScoreEntry>,
    t: Seq<RegionCard>,
    s: Seq<SanctuaryCard>,
) -> bool {
    &&& entries.len() == t.len() + s.len()
    &&& forall|k: int|
        0 <= k < t.len() ==> #[trigger] entry_is(
            entries[k],
            "region"@,
            t[t.len() - 1 - k].number,
            region_points(t, s, t.len() - 1 - k),
            region_text(t[t.len() - 1 - k], region_context(t, s, t.len() - 1 - k)),
        )
    &&& forall|j: int|
        0 <= j < s.len() ==> #[trigger] entry_is(
            entries[t.len() + j],
            "sanctuary"@,
            s[j].tile,
            sanctuary_points(t, s, j),
            fame_text(s[j].fame, sanctuary_context(t, s, j)),
        )
}

// ─── Lemmas on counts ────────────────────────────────────────────────────────

pub proof fn lemma_tally_append(a: Seq<Face>, b: Seq<Face>, m: Measure)
    ensures
        tally(a + b, m) == tally(a, m) + tally(b, m),
    decreases b.len(),
{
    if b.len() == 0 {
        assert(a + b =~= a);
    } else {
        lemma_tally_append(a, b.drop_last(), m);
        assert((a + b).drop_last() =~= a + b.drop_last());
    }
}

pub proof fn lemma_tally_push(fs: Seq<Face>, f: Face, m: Measure)
    ensures
        tally(fs.push(f), m) == tally(fs, m) + measure(f, m),
{
    assert(fs.push(f).drop_last() =~= fs);
}

pub proof fn lemma_tally_prefix(fs: Seq<Face>, n: int, m: Measure)
    requires
        0 <= n <= fs.len(),
    ensures
        tally(fs.take(n), m) <= tally(fs, m),
{
    lemma_tally_append(fs.take(n), fs.skip(n), m);
    assert(fs.take(n) + fs.skip(n) =~= fs);
}

/// Counting colours, nights or clues adds at most one per card.
pub proof fn lemma_tally_le_len(fs: Seq<Face>, m: Measure)
    requires
        !(m is Icon),
    ensures
        tally(fs, m) <= fs.len(),
    decreases fs.len(),
{
    if fs.len() > 0 {
        lemma_tally_le_len(fs.drop_last(), m);
    }
}

proof fn lemma_region_faces_step(rs: Seq<&RegionCard>, i: int)
    requires
        0 <= i < rs.len(),
    ensures
        region_ref_faces(rs.take(i + 1)) == region_ref_faces(rs.take(i)).push(region_face(*rs[i])),
        region_ref_faces(rs.take(i)) == region_ref_faces(rs).take(i),
{
    assert(region_ref_faces(rs.take(i + 1)) =~= region_ref_faces(rs.take(i)).push(region_face(*rs[i])));
    assert(region_ref_faces(rs.take(i)) =~= region_ref_faces(rs).take(i));
}

proof fn lemma_sanctuary_faces_step(ss: Seq<&SanctuaryCard>, i: int)
    requires
        0 <= i < ss.len(),
    ensures
        sanctuary_ref_faces(ss.take(i + 1)) == sanctuary_ref_faces(ss.take(i)).push(sanctuary_face(*ss[i])),
        sanctuary_ref_faces(ss.take(i)) == sanctuary_ref_faces(ss).take(i),
{
    assert(sanctuary_ref_faces(ss.take(i + 1)) =~= sanctuary_ref_faces(ss.take(i)).push(sanctuary_face(*ss[i])));
    assert(sanctuary_ref_faces(ss.take(i)) =~= sanctuary_ref_faces(ss).take(i));
}

// ─── Counting ────────────────────────────────────────────────────────────────

fn region_matches(c: &RegionCard, m: Measure) -> (r: bool)
    requires
        !(m is Icon),
    ensures
        r <==> measure(region_face(*c), m) == 1,
{
    match m {
        Measure::Colour(b) => c.biome == b,
        Measure::Night => c.night,
        Measure::Clue => c.clue,
        Measure::Icon(_) => false,
    }
}

fn sanctuary_matches(c: &SanctuaryCard, m: Measure) -> (r: bool)
    requires
        !(m is Icon),
    ensures
        r <==> measure(sanctuary_face(*c), m) == 1,
{
    match m {
        Measure::Colour(b) => c.biome == b,
        Measure::Night => c.night,
        Measure::Clue => c.clue,
        Measure::Icon(_) => false,
    }
}

fn count_regions(regions: &[&RegionCard], m: Measure) -> (r: usize)
    requires
        !(m is Icon),
    ensures
        r == tally(region_ref_faces(regions@), m),
{
    let mut n: usize = 0;
    let mut i: usize = 0;
    while i < regions.len()
        invariant
            !(m is Icon),
            i <= regions.len(),
            n <= i,
            n == tally(region_ref_faces(regions@.take(i as int)), m),
        decreases regions.len() - i,
    {
        proof {
            lemma_region_faces_step(regions@, i as int);
            lemma_tally_push(region_ref_faces(regions@.take(i as int)), region_face(*regions@[i as int]), m);
        }
        if region_matches(regions[i], m) {
            n = n + 1;
        }
        i = i + 1;
    }
    proof {
        assert(regions@.take(regions.len() as int) =~= regions@);
    }
    n
}

fn count_sanctuaries(sanctuaries: &[&SanctuaryCard], m: Measure) -> (r: usize)
    requires
        !(m is Icon),
    ensures
        r == tally(sanctuary_ref_faces(sanctuaries@), m),
{
    let mut n: usize = 0;
    let mut i: usize = 0;
    while i < sanctuaries.len()
        invariant
            !(m is Icon),
            i <= sanctuaries.len(),
            n <= i,
            n == tally(sanctuary_ref_faces(sanctuaries@.take(i as int)), m),
        decreases sanctuaries.len() - i,
    {
        proof {
            lemma_sanctuary_faces_step(sanctuaries@, i as int);
            lemma_tally_push(sanctuary_ref_faces(sanctuaries@.take(i as int)), sanctuary_face(*sanctuaries@[i as int]), m);
        }
        if sanctuary_matches(sanctuaries[i], m) {
            n = n + 1;
        }
        i = i + 1;
    }
    proof {
        assert(sanctuaries@.take(sanctuaries.len() as int) =~= sanctuaries@);
    }
    n
}

fn count_measure(regions: &[&RegionCard], sanctuaries: &[&SanctuaryCard], m: Measure) -> (r: u32)
    requires
        !(m is Icon),
        regions.len() + sanctuaries.len() <= u32::MAX,
    ensures
        r == tally(context(regions@, sanctuaries@), m),
{
    let r = count_regions(regions, m);
    let s = count_sanctuaries(sanctuaries, m);
    proof {
        lemma_tally_le_len(region_ref_faces(regions@), m);
        lemma_tally_le_len(sanctuary_ref_faces(sanctuaries@), m);
        lemma_tally_append(region_ref_faces(regions@), sanctuary_ref_faces(sanctuaries@), m);
    }
    r as u32 + s as u32
}

fn count_wonders_in_context(
    visible_regions: &[&RegionCard],
    sanctuaries: &[&SanctuaryCard],
) -> (r: WonderCount)
    requires
        wonders_fit(context(visible_regions@, sanctuaries@)),
    ensures
        r.stone == tally(context(visible_regions@, sanctuaries@), Measure::Icon(Wonder::Stone)),
        r.chimera == tally(context(visible_regions@, sanctuaries@), Measure::Icon(Wonder::Chimera)),
        r.thistle == tally(context(visible_regions@, sanctuaries@), Measure::Icon(Wonder::Thistle)),
{
    let ghost rf = region_ref_faces(visible_regions@);
    let ghost sf = sanctuary_ref_faces(sanctuaries@);
    let ghost st = Measure::Icon(Wonder::Stone);
    let ghost ch = Measure::Icon(Wonder::Chimera);
    let ghost th = Measure::Icon(Wonder::Thistle);
    proof {
        lemma_tally_append(rf, sf, st);
        lemma_tally_append(rf, sf, ch);
        lemma_tally_append(rf, sf, th);
    }
    let mut stone: u8 = 0;
    let mut chimera: u8 = 0;
    let mut thistle: u8 = 0;
    let mut i: usize = 0;
    while i < visible_regions.len()
        invariant
            i <= visible_regions.len(),
            rf == region_ref_faces(visible_regions@),
            tally(rf, st) <= 255,
            tally(rf, ch) <= 255,
            tally(rf, th) <= 255,
            st == Measure::Icon(Wonder::Stone),
            ch == Measure::Icon(Wonder::Chimera),
            th == Measure::Icon(Wonder::Thistle),
            stone == tally(region_ref_faces(visible_regions@.take(i as int)), st),
            chimera == tally(region_ref_faces(visible_regions@.take(i as int)), ch),
            thistle == tally(region_ref_faces(visible_regions@.take(i as int)), th),
        decreases visible_regions.len() - i,
    {
        proof {
            lemma_region_faces_step(visible_regions@, i as int);
            let pre = region_ref_faces(visible_regions@.take(i as int));
            let f = region_face(*visible_regions@[i as int]);
            lemma_tally_push(pre, f, st);
            lemma_tally_push(pre, f, ch);
            lemma_tally_push(pre, f, th);
            lemma_tally_prefix(rf, i + 1, st);
            lemma_tally_prefix(rf, i + 1, ch);
            lemma_tally_prefix(rf, i + 1, th);
            assert(rf.take(i + 1) == region_ref_faces(visible_regions@.take(i + 1))) by {
                assert(rf.take(i + 1) =~= region_ref_faces(visible_regions@.take(i + 1)));
            }
        }
        let c = visible_regions[i];
        stone = stone + c.wonders.stone;
        chimera = chimera + c.wonders.chimera;
        thistle = thistle + c.wonders.thistle;
        i = i + 1;
    }
    proof {
        assert(visible_regions@.take(visible_regions.len() as int) =~= visible_regions@);
    }
    let mut j: usize = 0;
    while j < sanctuaries.len()
        invariant
            j <= sanctuaries.len(),
            rf == region_ref_faces(visible_regions@),
            sf == sanctuary_ref_faces(sanctuaries@),
            tally(rf, st) + tally(sf, st) <= 255,
            tally(rf, ch) + tally(sf, ch) <= 255,
            tally(rf, th) + tally(sf, th) <= 255,
            st == Measure::Icon(Wonder::Stone),
            ch == Measure::Icon(Wonder::Chimera),
            th == Measure::Icon(Wonder::Thistle),
            stone == tally(rf, st) + tally(sanctuary_ref_faces(sanctuaries@.take(j as int)), st),
            chimera == tally(rf, ch) + tally(sanctuary_ref_faces(sanctuaries@.take(j as int)), ch),
            thistle == tally(rf, th) + tally(sanctuary_ref_faces(sanctuaries@.take(j as int)), th),
        decreases sanctuaries.len() - j,
    {
        proof {
            lemma_sanctuary_faces_step(sanctuaries@, j as int);
            let pre = sanctuary_ref_faces(sanctuaries@.take(j as int));
            let f = sanctuary_face(*sanctuaries@[j as int]);
            lemma_tally_push(pre, f, st);
            lemma_tally_push(pre, f, ch);
            lemma_tally_push(pre, f, th);
            lemma_tally_prefix(sf, j + 1, st);
            lemma_tally_prefix(sf, j + 1, ch);
            lemma_tally_prefix(sf, j + 1, th);
            assert(sf.take(j + 1) == sanctuary_ref_faces(sanctuaries@.take(j + 1))) by {
                assert(sf.take(j + 1) =~= sanctuary_ref_faces(sanctuaries@.take(j + 1)));
            }
        }
        let c = sanctuaries[j];
        stone = stone + c.wonders.stone;
        chimera = chimera + c.wonders.chimera;
        thistle = thistle + c.wonders.thistle;
        j = j + 1;
    }
    proof {
        assert(sanctuaries@.take(sanctuaries.len() as int) =~= sanctuaries@);
    }
    WonderCount { stone, chimera, thistle }
}

fn count_biome(biome: &Biome, regions: &[&RegionCard], sanctuaries: &[&SanctuaryCard]) -> (r: u32)
    requires
        regions.len() + sanctuaries.len() <= u32::MAX,
    ensures
        r == tally(context(regions@, sanctuaries@), Measure::Colour(*biome)),
{
    count_measure(regions, sanctuaries, Measure::Colour(*biome))
}

fn count_nights(regions: &[&RegionCard], sanctuaries: &[&SanctuaryCard]) -> (r: u32)
    requires
        regions.len() + sanctuaries.len() <= u32::MAX,
    ensures
        r == tally(context(regions@, sanctuaries@), Measure::Night),
{
    count_measure(regions, sanctuaries, Measure::Night)
}

fn count_clues(regions: &[&RegionCard], sanctuaries: &[&SanctuaryCard]) -> (r: u32)
    requires
        regions.len() + sanctuaries.len() <= u32::MAX,
    ensures
        r == tally(context(regions@, sanctuaries@), Measure::Clue),
{
    count_measure(regions, sanctuaries, Measure::Clue)
}

fn count_icon(icon: &Wonder, regions: &[&RegionCard], sanctuaries: &[&SanctuaryCard]) -> (r: u32)
    requires
        wonders_fit(context(regions@, sanctuaries@)),
    ensures
        r == tally(context(regions@, sanctuaries@), Measure::Icon(*icon)),
{
    let wonders = count_wonders_in_context(regions, sanctuaries);
    match icon {
        Wonder::Stone => wonders.stone as u32,
        Wonder::Chimera => wonders.chimera as u32,
        Wonder::Thistle => wonders.thistle as u32,
    }
}

fn min_u32(a: u32, b: u32) -> (r: u32)
    ensures
        r == min2(a as int, b as int),
{
    if a <= b { a } else { b }
}

fn prerequisites_met(
    quest: &WonderCount,
    visible_regions: &[&RegionCard],
    sanctuaries: &[&SanctuaryCard],
) -> (r: bool)
    requires
        !quest.spec_is_zero() ==> wonders_fit(context(visible_regions@, sanctuaries@)),
    ensures
        r == quest_met(*quest, context(visible_regions@, sanctuaries@)),
{
    if quest.is_zero() {
        return true;
    }
    let ctx_wonders = count_wonders_in_context(visible_regions, sanctuaries);
    ctx_wonders.stone >= quest.stone && ctx_wonders.chimera >= quest.chimera
        && ctx_wonders.thistle >= quest.thistle
}

fn compute_fame(
    fame: &Fame,
    visible_regions: &[&RegionCard],
    sanctuaries: &[&SanctuaryCard],
) -> (r: u32)
    requires
        fame_fits(*fame, context(visible_regions@, sanctuaries@)),
        visible_regions.len() + sanctuaries.len() <= u32::MAX,
    ensures
        r == fame_value(*fame, context(visible_regions@, sanctuaries@)),
{
    match fame {
        Fame::NoFame => 0,
        Fame::Flat(v) => *v,
        Fame::PerIcon { icon, score_per } => {
            count_icon(icon, visible_regions, sanctuaries) * score_per
        },
        Fame::PerColour { biome, score_per } => {
            count_biome(biome, visible_regions, sanctuaries) * score_per
        },
        Fame::PerColourPair { biome1, biome2, score_per } => {
            let n = count_biome(biome1, visible_regions, sanctuaries) + count_biome(
                biome2,
                visible_regions,
                sanctuaries,
            );
            n * score_per
        },
        Fame::PerNight { score_per } => {
            count_nights(visible_regions, sanctuaries) * score_per
        },
        Fame::PerClue { score_per } => {
            count_clues(visible_regions, sanctuaries) * score_per
        },
        Fame::PerWonderSet { score_per } => {
            let w = count_wonders_in_context(visible_regions, sanctuaries);
            let sets = min_u32(min_u32(w.stone as u32, w.chimera as u32), w.thistle as u32);
            sets * score_per
        },
        Fame::PerColourSet { score_per } => {
            let red = count_biome(&Biome::Red, visible_regions, sanctuaries);
            let green = count_biome(&Biome::Green, visible_regions, sanctuaries);
            let blue = count_biome(&Biome::Blue, visible_regions, sanctuaries);
            let yellow = count_biome(&Biome::Yellow, visible_regions, sanctuaries);
            let sets = min_u32(min_u32(min_u32(red, green), blue), yellow);
            sets * score_per
        },
    }
}

/// Scores one region card: its fame if the quest is met by the visible cards, 0 otherwise.
pub fn score_region_card(
    card: &RegionCard,
    visible_regions: &[&RegionCard],
    sanctuaries: &[&SanctuaryCard],
) -> (r: u32)
    requires
        region_fits(*card, context(visible_regions@, sanctuaries@)),
        visible_regions.len() + sanctuaries.len() <= u32::MAX,
    ensures
        r == region_score(*card, context(visible_regions@, sanctuaries@)),
{
    if !prerequisites_met(&card.quest, visible_regions, sanctuaries) {
        return 0;
    }
    compute_fame(&card.fame, visible_regions, sanctuaries)
}

/// Scores a sanctuary's own condition against the given regions and the other sanctuaries.
pub fn score_sanctuary(
    card: &SanctuaryCard,
    visible_regions: &[&RegionCard],
    other_sanctuaries: &[&SanctuaryCard],
) -> (r: u32)
    requires
        fame_fits(card.fame, context(visible_regions@, other_sanctuaries@)),
        visible_regions.len() + other_sanctuaries.len() <= u32::MAX,
    ensures
        r == fame_value(card.fame, context(visible_regions@, other_sanctuaries@)),
{
    compute_fame(&card.fame, visible_regions, other_sanctuaries)
}

fn wonder_name(w: &Wonder) -> (r: &'static str)
    ensures
        r@ == wonder_label(*w),
{
    match w {
        Wonder::Stone => "Stone",
        Wonder::Chimera => "Chimera",
        Wonder::Thistle => "Thistle",
    }
}

fn biome_name(biome: &Biome) -> (r: &'static str)
    ensures
        r@ == biome_label(*biome),
{
    match biome {
        Biome::Red => "Forest",
        Biome::Green => "River",
        Biome::Blue => "Desert",
        Biome::Yellow => "City",
        Biome::Colorless => "Colorless",
    }
}

fn per_string(count: u32, what: &str, per: u32) -> (r: String)
    ensures
        r@ == per_text(count as int, what@, per),
{
    let mut r = String::new();
    push_decimal(&mut r, count);
    r.append(" ");
    r.append(what);
    r.append(" × ");
    push_decimal(&mut r, per);
    r
}

fn need_string(need: u8, w: &Wonder, have: u8) -> (r: String)
    ensures
        r@ == need_text(need, *w, have as nat),
{
    let mut r = String::from_str("need ");
    push_decimal(&mut r, need as u32);
    r.append(" ");
    r.append(wonder_name(w));
    r.append(", have ");
    push_decimal(&mut r, have as u32);
    r
}

fn quest_not_met_explanation(
    quest: &WonderCount,
    visible_regions: &[&RegionCard],
    sanctuaries: &[&SanctuaryCard],
) -> (r: String)
    requires
        wonders_fit(context(visible_regions@, sanctuaries@)),
    ensures
        r@ == quest_text(*quest, context(visible_regions@, sanctuaries@)),
{
    let ghost ctx = context(visible_regions@, sanctuaries@);
    let have = count_wonders_in_context(visible_regions, sanctuaries);
    let mut missing: Vec<String> = Vec::new();
    if have.stone < quest.stone {
        missing.push(need_string(quest.stone, &Wonder::Stone, have.stone));
    }
    let ghost m1 = missing@.map_values(|x: String| x@);
    proof {
        assert(m1 =~= missing_item(*quest, Wonder::Stone, ctx));
    }
    if have.chimera < quest.chimera {
        missing.push(need_string(quest.chimera, &Wonder::Chimera, have.chimera));
    }
    let ghost m2 = missing@.map_values(|x: String| x@);
    proof {
        assert(m2 =~= m1 + missing_item(*quest, Wonder::Chimera, ctx));
    }
    if have.thistle < quest.thistle {
        missing.push(need_string(quest.thistle, &Wonder::Thistle, have.thistle));
    }
    proof {
        assert(missing@.map_values(|x: String| x@) =~= m2 + missing_item(*quest, Wonder::Thistle, ctx));
    }
    let mut r = String::from_str("Quest not met: ");
    let joined = join_strings(&missing, ", ");
    r.append(joined.as_str());
    r
}

fn fame_explanation(
    fame: &Fame,
    visible_regions: &[&RegionCard],
    sanctuaries: &[&SanctuaryCard],
) -> (r: String)
    requires
        fame_fits(*fame, context(visible_regions@, sanctuaries@)),
        visible_regions.len() + sanctuaries.len() <= u32::MAX,
    ensures
        r@ == fame_text(*fame, context(visible_regions@, sanctuaries@)),
{
    match fame {
        Fame::NoFame => String::from_str("No scoring condition"),
        Fame::Flat(v) => {
            let mut r = String::from_str("+");
            push_decimal(&mut r, *v);
            r.append(" fame");
            r
        },
        Fame::PerIcon { icon, score_per } => {
            let count = count_icon(icon, visible_regions, sanctuaries);
            per_string(count, wonder_name(icon), *score_per)
        },
        Fame::PerColour { biome, score_per } => {
            let count = count_biome(biome, visible_regions, sanctuaries);
            per_string(count, biome_name(biome), *score_per)
        },
        Fame::PerColourPair { biome1, biome2, score_per } => {
            let n = count_biome(biome1, visible_regions, sanctuaries) + count_biome(
                biome2,
                visible_regions,
                sanctuaries,
            );
            let mut pair = String::from_str(biome_name(biome1));
            pair.append("/");
            pair.append(biome_name(biome2));
            per_string(n, pair.as_str(), *score_per)
        },
        Fame::PerNight { score_per } => {
            let count = count_nights(visible_regions, sanctuaries);
            per_string(count, "Night", *score_per)
        },
        Fame::PerClue { score_per } => {
            let count = count_clues(visible_regions, sanctuaries);
            per_string(count, "Clue", *score_per)
        },
        Fame::PerWonderSet { score_per } => {
            let w = count_wonders_in_context(visible_regions, sanctuaries);
            let sets = min_u32(min_u32(w.stone as u32, w.chimera as u32), w.thistle as u32);
            per_string(sets, "Wonder sets", *score_per)
        },
        Fame::PerColourSet { score_per } => {
            let red = count_biome(&Biome::Red, visible_regions, sanctuaries);
            let green = count_biome(&Biome::Green, visible_regions, sanctuaries);
            let blue = count_biome(&Biome::Blue, visible_regions, sanctuaries);
            let yellow = count_biome(&Biome::Yellow, visible_regions, sanctuaries);
            let sets = min_u32(min_u32(min_u32(red, green), blue), yellow);
            per_string(sets, "Colour sets", *score_per)
        },
    }
}

fn region_refs<'a>(tableau: &'a Vec<RegionCard>, from: usize) -> (r: Vec<&'a RegionCard>)
    requires
        from <= tableau.len(),
    ensures
        region_ref_faces(r@) == tableau_faces(tableau@.subrange(from as int, tableau@.len() as int)),
        r@.len() == tableau.len() - from,
{
    let mut r: Vec<&RegionCard> = Vec::new();
    let mut j = from;
    while j < tableau.len()
        invariant
            from <= j <= tableau.len(),
            r@.len() == j - from,
            forall|x: int| 0 <= x < r@.len() ==> *r@[x] == tableau@[from + x],
        decreases tableau.len() - j,
    {
        r.push(&tableau[j]);
        j = j + 1;
    }
    proof {
        assert(region_ref_faces(r@) =~= tableau_faces(tableau@.subrange(from as int, tableau@.len() as int)));
    }
    r
}

/// References to every sanctuary except the one at `skip` (none skipped when `skip` is out of range).
fn sanctuary_refs_except<'a>(sanctuaries: &'a Vec<SanctuaryCard>, skip: usize) -> (r: Vec<&'a SanctuaryCard>)
    ensures
        skip < sanctuaries.len() ==> sanctuary_ref_faces(r@) == kept_faces(sanctuaries@.remove(skip as int)),
        skip >= sanctuaries.len() ==> sanctuary_ref_faces(r@) == kept_faces(sanctuaries@),
        r@.len() <= sanctuaries.len(),
{
    let ghost s = sanctuaries@;
    let ghost target = if skip < s.len() { s.remove(skip as int) } else { s };
    let mut r: Vec<&SanctuaryCard> = Vec::new();
    let mut q: usize = 0;
    while q < sanctuaries.len()
        invariant
            q <= sanctuaries.len(),
            s == sanctuaries@,
            target == (if skip < s.len() { s.remove(skip as int) } else { s }),
            r@.len() == (if skip < q { q - 1 } else { q as int }),
            forall|x: int| 0 <= x < r@.len() ==> *r@[x] == target[x],
        decreases sanctuaries.len() - q,
    {
        if q != skip {
            r.push(&sanctuaries[q]);
        }
        q = q + 1;
    }
    proof {
        assert(sanctuary_ref_faces(r@) =~= kept_faces(target));
    }
    r
}

/// The per-card breakdown shown on the scoring screen: the region cards right
/// to left (the last one played first), then the sanctuaries.
pub fn score_player_detailed(player: &PlayerState) -> (entries: Vec<CardScoreEntry>)
    requires
        player_fits(player.tableau@, player.sanctuaries@),
    ensures
        is_breakdown(entries@, player.tableau@, player.sanctuaries@),
{
    let tableau = &player.tableau;
    let sanctuaries = &player.sanctuaries;
    let ghost t = tableau@;
    let ghost s = sanctuaries@;
    let mut entries: Vec<CardScoreEntry> = Vec::new();
    let len = tableau.len();
    let visible_sanctuaries = sanctuary_refs_except(sanctuaries, sanctuaries.len());
    let mut k: usize = 0;
    while k < len
        invariant
            len == t.len(),
            t == tableau@,
            s == sanctuaries@,
            player_fits(t, s),
            k <= len,
            sanctuary_ref_faces(visible_sanctuaries@) == kept_faces(s),
            visible_sanctuaries@.len() <= s.len(),
            entries@.len() == k,
            forall|kk: int|
                0 <= kk < k ==> #[trigger] entry_is(
                    entries@[kk],
                    "region"@,
                    t[t.len() - 1 - kk].number,
                    region_points(t, s, t.len() - 1 - kk),
                    region_text(t[t.len() - 1 - kk], region_context(t, s, t.len() - 1 - kk)),
                ),
        decreases len - k,
    {
        let i = len - 1 - k;
        let visible_regions = region_refs(tableau, i);
        let ghost ctx = context(visible_regions@, visible_sanctuaries@);
        proof {
            assert(ctx == region_context(t, s, i as int));
            assert(region_fits(t[i as int], region_context(t, s, i as int)));
        }
        let card = &tableau[i];
        let quest_met = prerequisites_met(&card.quest, visible_regions.as_slice(), visible_sanctuaries.as_slice());
        let points = if quest_met {
            compute_fame(&card.fame, visible_regions.as_slice(), visible_sanctuaries.as_slice())
        } else {
            0
        };
        let explanation = if !quest_met {
            quest_not_met_explanation(&card.quest, visible_regions.as_slice(), visible_sanctuaries.as_slice())
        } else {
            fame_explanation(&card.fame, visible_regions.as_slice(), visible_sanctuaries.as_slice())
        };
        entries.push(CardScoreEntry {
            kind: String::from_str("region"),
            number: card.number,
            points,
            explanation,
        });
        proof {
            assert(entry_is(entries@[k as int], "region"@, t[t.len() - 1 - k].number,
                region_points(t, s, t.len() - 1 - k),
                region_text(t[t.len() - 1 - k], region_context(t, s, t.len() - 1 - k))));
        }
        k = k + 1;
    }
    let full_regions = region_refs(tableau, 0);
    proof {
        assert(t.subrange(0, t.len() as int) =~= t);
    }
    let mut j: usize = 0;
    while j < sanctuaries.len()
        invariant
            len == t.len(),
            t == tableau@,
            s == sanctuaries@,
            player_fits(t, s),
            j <= s.len(),
            region_ref_faces(full_regions@) == tableau_faces(t),
            full_regions@.len() == t.len(),
            entries@.len() == t.len() + j,
            forall|kk: int|
                0 <= kk < t.len() ==> #[trigger] entry_is(
                    entries@[kk],
                    "region"@,
                    t[t.len() - 1 - kk].number,
                    region_points(t, s, t.len() - 1 - kk),
                    region_text(t[t.len() - 1 - kk], region_context(t, s, t.len() - 1 - kk)),
                ),
            forall|jj: int|
                0 <= jj < j ==> #[trigger] entry_is(
                    entries@[t.len() + jj],
                    "sanctuary"@,
                    s[jj].tile,
                    sanctuary_points(t, s, jj),
                    fame_text(s[jj].fame, sanctuary_context(t, s, jj)),
                ),
        decreases s.len() - j,
    {
        let sanc = &sanctuaries[j];
        let other_sanctuaries = sanctuary_refs_except(sanctuaries, j);
        proof {
            assert(context(full_regions@, other_sanctuaries@) == sanctuary_context(t, s, j as int));
            assert(fame_fits(s[j as int].fame, sanctuary_context(t, s, j as int)));
        }
        let points = score_sanctuary(sanc, full_regions.as_slice(), other_sanctuaries.as_slice());
        let explanation = fame_explanation(&sanc.fame, full_regions.as_slice(), other_sanctuaries.as_slice());
        entries.push(CardScoreEntry {
            kind: String::from_str("sanctuary"),
            number: sanc.tile,
            points,
            explanation,
        });
        proof {
            assert(entry_is(entries@[t.len() + j], "sanctuary"@, s[j as int].tile,
                sanctuary_points(t, s, j as int), fame_text(s[j as int].fame, sanctuary_context(t, s, j as int))));
        }
        j = j + 1;
    }
    entries
}

pub proof fn lemma_fame_value_nonneg(f: Fame, ctx: Seq<Face>)
    ensures
        fame_value(f, ctx) >= 0,
{
    match f {
        Fame::PerIcon { icon, score_per } => {
            let a = tally(ctx, Measure::Icon(icon)) as int;
            assert(a * score_per >= 0) by (nonlinear_arith) requires a >= 0;
        },
        Fame::PerColour { biome, score_per } => {
            let a = tally(ctx, Measure::Colour(biome)) as int;
            assert(a * score_per >= 0) by (nonlinear_arith) requires a >= 0;
        },
        Fame::PerColourPair { biome1, biome2, score_per } => {
            let a = (tally(ctx, Measure::Colour(biome1)) + tally(ctx, Measure::Colour(biome2))) as int;
            assert(a * score_per >= 0) by (nonlinear_arith) requires a >= 0;
        },
        Fame::PerNight { score_per } => {
            let a = tally(ctx, Measure::Night) as int;
            assert(a * score_per >= 0) by (nonlinear_arith) requires a >= 0;
        },
        Fame::PerClue { score_per } => {
            let a = tally(ctx, Measure::Clue) as int;
            assert(a * score_per >= 0) by (nonlinear_arith) requires a >= 0;
        },
        Fame::PerWonderSet { score_per } => {
            let a = wonder_sets(ctx);
            assert(a * score_per >= 0) by (nonlinear_arith) requires a >= 0;
        },
        Fame::PerColourSet { score_per } => {
            let a = colour_sets(ctx);
            assert(a * score_per >= 0) by (nonlinear_arith) requires a >= 0;
        },
        _ => {},
    }
}

pub proof fn lemma_entry_points_nonneg(t: Seq<RegionCard>, s: Seq<SanctuaryCard>, k: int)
    requires
        0 <= k < t.len() + s.len(),
    ensures
        entry_points(t, s)[k] >= 0,
{
    if k < t.len() {
        lemma_fame_value_nonneg(t[t.len() - 1 - k].fame, region_context(t, s, t.len() - 1 - k));
    } else {
        lemma_fame_value_nonneg(s[k - t.len()].fame, sanctuary_context(t, s, k - t.len()));
    }
}

pub proof fn lemma_sum_append(a: Seq<int>, b: Seq<int>)
    ensures
        sum_ints(a + b) == sum_ints(a) + sum_ints(b),
    decreases b.len(),
{
    if b.len() == 0 {
        assert(a + b =~= a);
    } else {
        lemma_sum_append(a, b.drop_last());
        assert((a + b).drop_last() =~= a + b.drop_last());
    }
}

pub proof fn lemma_sum_nonneg(xs: Seq<int>)
    requires
        forall|i: int| 0 <= i < xs.len() ==> xs[i] >= 0,
    ensures
        sum_ints(xs) >= 0,
    decreases xs.len(),
{
    if xs.len() > 0 {
        lemma_sum_nonneg(xs.drop_last());
    }
}

/// Score all region cards and sanctuaries of one player.
pub fn score_player(player: &PlayerState) -> (r: u32)
    requires
        player_fits(player.tableau@, player.sanctuaries@),
        final_score(player.tableau@, player.sanctuaries@) <= u32::MAX,
    ensures
        r == final_score(player.tableau@, player.sanctuaries@),
{
    let ghost t = player.tableau@;
    let ghost s = player.sanctuaries@;
    let ghost pts = entry_points(t, s);
    let entries = score_player_detailed(player);
    let mut total: u32 = 0;
    let mut k: usize = 0;
    while k < entries.len()
        invariant
            pts == entry_points(t, s),
            is_breakdown(entries@, t, s),
            sum_ints(pts) <= u32::MAX,
            k <= entries.len(),
            total == sum_ints(pts.take(k as int)),
        decreases entries.len() - k,
    {
        proof {
            if k < t.len() {
                assert(entry_is(entries@[k as int], "region"@, t[t.len() - 1 - k].number,
                    region_points(t, s, t.len() - 1 - k),
                    region_text(t[t.len() - 1 - k], region_context(t, s, t.len() - 1 - k))));
            } else {
                let j = k - t.len();
                assert(entry_is(entries@[t.len() + j], "sanctuary"@, s[j].tile,
                    sanctuary_points(t, s, j), fame_text(s[j].fame, sanctuary_context(t, s, j))));
            }
            assert(entries@[k as int].points == pts[k as int]);
            assert(pts.take(k + 1).drop_last() =~= pts.take(k as int));
            lemma_sum_append(pts.take(k + 1), pts.skip(k + 1));
            assert(pts.take(k + 1) + pts.skip(k + 1) =~= pts);
            assert forall|i: int| 0 <= i < pts.skip(k + 1).len() implies #[trigger] pts.skip(k + 1)[i] >= 0 by {
                lemma_entry_points_nonneg(t, s, k + 1 + i);
            }
            lemma_sum_nonneg(pts.skip(k + 1));
        }
        total = total + entries[k].points;
        k = k + 1;
    }
    proof {
        assert(pts.take(entries.len() as int) =~= pts);
    }
    total
}

// ─── Laws of scoring ─────────────────────────────────────────────────────────

/// Icons are never spent: a quest met by some visible cards stays met when more
/// cards become visible.
pub proof fn law_quest_stays_met(q: WonderCount, seen: Seq<Face>, more: Seq<Face>)
    requires
        quest_met(q, seen),
    ensures
        quest_met(q, seen + more),
{
    lemma_tally_append(seen, more, Measure::Icon(Wonder::Stone));
    lemma_tally_append(seen, more, Measure::Icon(Wonder::Chimera));
    lemma_tally_append(seen, more, Measure::Icon(Wonder::Thistle));
}

/// Right-to-left reveal: a region card played earlier is scored later and sees
/// at least every count that a card played after it saw.
pub proof fn law_earlier_cards_see_more(
    t: Seq<RegionCard>,
    s: Seq<SanctuaryCard>,
    i: int,
    j: int,
    m: Measure,
)
    requires
        0 <= i <= j < t.len(),
    ensures
        tally(region_context(t, s, j), m) <= tally(region_context(t, s, i), m),
{
    let n = t.len() as int;
    assert(tableau_faces(t.subrange(i, n)) =~= tableau_faces(t.subrange(i, j)) + tableau_faces(t.subrange(j, n)));
    lemma_tally_append(tableau_faces(t.subrange(i, j)), tableau_faces(t.subrange(j, n)), m);
    lemma_tally_append(tableau_faces(t.subrange(i, n)), kept_faces(s), m);
    lemma_tally_append(tableau_faces(t.subrange(j, n)), kept_faces(s), m);
}

/// The last card played is scored first, with only itself and the sanctuaries
/// visible; the first card played is scored with the whole tableau visible, as
/// is every sanctuary (which also sees the other sanctuaries).
pub proof fn law_reveal_contexts(t: Seq<RegionCard>, s: Seq<SanctuaryCard>)
    requires
        t.len() > 0,
    ensures
        region_context(t, s, t.len() - 1) == seq![region_face(t.last())] + kept_faces(s),
        region_context(t, s, 0) == tableau_faces(t) + kept_faces(s),
        forall|j: int| 0 <= j < s.len() ==> #[trigger] sanctuary_context(t, s, j) == tableau_faces(t) + kept_faces(s.remove(j)),
{
    assert(tableau_faces(t.subrange(t.len() - 1, t.len() as int)) =~= seq![region_face(t.last())]);
    assert(t.subrange(0, t.len() as int) =~= t);
}

/// The lines of a breakdown add up to the player's final score.
pub proof fn law_breakdown_adds_up(entries: Seq<CardScoreEntry>, t: Seq<RegionCard>, s: Seq<SanctuaryCard>)
    requires
        is_breakdown(entries, t, s),
    ensures
        sum_ints(entries.map_values(|e: CardScoreEntry| e.points as int)) == final_score(t, s),
{
    let pts = entries.map_values(|e: CardScoreEntry| e.points as int);
    assert forall|k: int| 0 <= k < pts.len() implies #[trigger] pts[k] == entry_points(t, s)[k] by {
        if k < t.len() {
            assert(entry_is(entries[k], "region"@, t[t.len() - 1 - k].number,
                region_points(t, s, t.len() - 1 - k),
                region_text(t[t.len() - 1 - k], region_context(t, s, t.len() - 1 - k))));
        } else {
            let j = k - t.len();
            assert(entry_is(entries[t.len() + j], "sanctuary"@, s[j].tile,
                sanctuary_points(t, s, j), fame_text(s[j].fame, sanctuary_context(t, s, j))));
        }
    }
    assert(pts =~= entry_points(t, s));
}


// ─── The game's cards never overflow scoring ─────────────────────────────────

/// Every visible card carries at most two icons of a kind.
pub open spec fn faces_bounded(fs: Seq<Face>) -> bool {
    forall|k: int| 0 <= k < fs.len() ==> wonders_bounded(#[trigger] fs[k].wonders)
}

/// Every card in front of a player is one of the game's cards (small icon
/// counts and fame).
pub open spec fn cards_bounded(t: Seq<RegionCard>, s: Seq<SanctuaryCard>) -> bool {
    &&& forall|i: int| 0 <= i < t.len() ==> region_bounded(#[trigger] t[i])
    &&& forall|j: int| 0 <= j < s.len() ==> sanctuary_bounded(#[trigger] s[j])
}

proof fn lemma_tally_at_most_twice(fs: Seq<Face>, m: Measure)
    requires
        faces_bounded(fs),
    ensures
        tally(fs, m) <= 2 * fs.len(),
    decreases fs.len(),
{
    if fs.len() > 0 {
        assert(faces_bounded(fs.drop_last())) by {
            assert forall|k: int| 0 <= k < fs.drop_last().len() implies wonders_bounded(#[trigger] fs.drop_last()[k].wonders) by {
                assert(fs.drop_last()[k] == fs[k]);
            }
        }
        lemma_tally_at_most_twice(fs.drop_last(), m);
        assert(wonders_bounded(fs[fs.len() - 1].wonders));
    }
}

proof fn lemma_fame_value_at_most(f: Fame, ctx: Seq<Face>)
    requires
        fame_bounded(f),
        faces_bounded(ctx),
        ctx.len() <= 100,
    ensures
        0 <= fame_value(f, ctx) <= 6000,
        fame_fits(f, ctx),
        wonders_fit(ctx),
{
    lemma_fame_value_nonneg(f, ctx);
    lemma_tally_at_most_twice(ctx, Measure::Icon(Wonder::Stone));
    lemma_tally_at_most_twice(ctx, Measure::Icon(Wonder::Chimera));
    lemma_tally_at_most_twice(ctx, Measure::Icon(Wonder::Thistle));
    match f {
        Fame::PerIcon { icon, score_per } => {
            lemma_tally_at_most_twice(ctx, Measure::Icon(icon));
            let a = tally(ctx, Measure::Icon(icon)) as int;
            assert(a * score_per <= 6000) by (nonlinear_arith) requires 0 <= a <= 200, score_per <= 30;
        },
        Fame::PerColour { biome, score_per } => {
            lemma_tally_le_len(ctx, Measure::Colour(biome));
            let a = tally(ctx, Measure::Colour(biome)) as int;
            assert(a * score_per <= 6000) by (nonlinear_arith) requires 0 <= a <= 100, score_per <= 30;
        },
        Fame::PerColourPair { biome1, biome2, score_per } => {
            lemma_tally_le_len(ctx, Measure::Colour(biome1));
            lemma_tally_le_len(ctx, Measure::Colour(biome2));
            let a = (tally(ctx, Measure::Colour(biome1)) + tally(ctx, Measure::Colour(biome2))) as int;
            assert(a * score_per <= 6000) by (nonlinear_arith) requires 0 <= a <= 200, score_per <= 30;
        },
        Fame::PerNight { score_per } => {
            lemma_tally_le_len(ctx, Measure::Night);
            let a = tally(ctx, Measure::Night) as int;
            assert(a * score_per <= 6000) by (nonlinear_arith) requires 0 <= a <= 100, score_per <= 30;
        },
        Fame::PerClue { score_per } => {
            lemma_tally_le_len(ctx, Measure::Clue);
            let a = tally(ctx, Measure::Clue) as int;
            assert(a * score_per <= 6000) by (nonlinear_arith) requires 0 <= a <= 100, score_per <= 30;
        },
        Fame::PerWonderSet { score_per } => {
            let a = wonder_sets(ctx);
            assert(a * score_per <= 6000) by (nonlinear_arith) requires 0 <= a <= 200, score_per <= 30;
        },
        Fame::PerColourSet { score_per } => {
            lemma_tally_le_len(ctx, Measure::Colour(Biome::Red));
            let a = colour_sets(ctx);
            assert(a * score_per <= 6000) by (nonlinear_arith) requires a <= 100, score_per <= 30;
        },
        _ => {},
    }
}

proof fn lemma_sum_at_most(xs: Seq<int>)
    requires
        forall|i: int| 0 <= i < xs.len() ==> #[trigger] xs[i] <= 6000,
    ensures
        sum_ints(xs) <= 6000 * xs.len(),
    decreases xs.len(),
{
    if xs.len() > 0 {
        lemma_sum_at_most(xs.drop_last());
    }
}

/// The game's cards never overflow scoring: with at most 100 cards in front
/// of a player, every icon count fits a byte and every score fits 32 bits.
pub proof fn law_game_cards_fit(t: Seq<RegionCard>, s: Seq<SanctuaryCard>)
    requires
        cards_bounded(t, s),
        t.len() + s.len() <= 100,
    ensures
        player_fits(t, s),
        0 <= final_score(t, s) <= 600000,
{
    let n = t.len() as int;
    assert forall|i: int| 0 <= i < t.len() implies #[trigger] region_fits(t[i], region_context(t, s, i))
        && 0 <= region_points(t, s, i) <= 6000 by {
        let ctx = region_context(t, s, i);
        assert(faces_bounded(ctx)) by {
            assert forall|k: int| 0 <= k < ctx.len() implies wonders_bounded(#[trigger] ctx[k].wonders) by {
                if k < n - i {
                    assert(ctx[k] == region_face(t[i + k]));
                    assert(region_bounded(t[i + k]));
                } else {
                    assert(ctx[k] == sanctuary_face(s[k - (n - i)]));
                    assert(sanctuary_bounded(s[k - (n - i)]));
                }
            }
        }
        assert(region_bounded(t[i]));
        lemma_fame_value_at_most(t[i].fame, ctx);
    }
    assert forall|j: int| 0 <= j < s.len() implies #[trigger] fame_fits(s[j].fame, sanctuary_context(t, s, j))
        && 0 <= sanctuary_points(t, s, j) <= 6000 by {
        let ctx = sanctuary_context(t, s, j);
        let rest = s.remove(j);
        assert(faces_bounded(ctx)) by {
            assert forall|k: int| 0 <= k < ctx.len() implies wonders_bounded(#[trigger] ctx[k].wonders) by {
                if k < n {
                    assert(ctx[k] == region_face(t[k]));
                    assert(region_bounded(t[k]));
                } else {
                    let q = k - n;
                    assert(ctx[k] == sanctuary_face(rest[q]));
                    if q < j {
                        assert(rest[q] == s[q]);
                        assert(sanctuary_bounded(s[q]));
                    } else {
                        assert(rest[q] == s[q + 1]);
                        assert(sanctuary_bounded(s[q + 1]));
                    }
                }
            }
        }
        assert(sanctuary_bounded(s[j]));
        lemma_fame_value_at_most(s[j].fame, ctx);
    }
    let pts = entry_points(t, s);
    assert forall|k: int| 0 <= k < pts.len() implies #[trigger] pts[k] <= 6000 by {
        if k < n {
            assert(region_fits(t[n - 1 - k], region_context(t, s, n - 1 - k)));
            assert(0 <= region_points(t, s, n - 1 - k) <= 6000);
        } else {
            assert(fame_fits(s[k - n].fame, sanctuary_context(t, s, k - n)));
            assert(0 <= sanctuary_points(t, s, k - n) <= 6000);
        }
    }
    lemma_sum_at_most(pts);
    assert forall|k: int| 0 <= k < pts.len() implies pts[k] >= 0 by {
        lemma_entry_points_nonneg(t, s, k);
    }
    lemma_sum_nonneg(pts);
}

// ─── Checking that a player's cards can be scored ───────────────────────────

pub(crate) fn fame_ok(f: &Fame) -> (r: bool)
    ensures
        r == fame_bounded(*f),
{
    match f {
        Fame::NoFame => true,
        Fame::Flat(v) => *v <= 30,
        Fame::PerIcon { score_per, .. } => *score_per <= 30,
        Fame::PerColour { score_per, .. } => *score_per <= 30,
        Fame::PerColourPair { score_per, .. } => *score_per <= 30,
        Fame::PerNight { score_per } => *score_per <= 30,
        Fame::PerClue { score_per } => *score_per <= 30,
        Fame::PerWonderSet { score_per } => *score_per <= 30,
        Fame::PerColourSet { score_per } => *score_per <= 30,
    }
}

pub(crate) fn wonders_ok(w: &WonderCount) -> (r: bool)
    ensures
        r == wonders_bounded(*w),
{
    w.stone <= 2 && w.chimera <= 2 && w.thistle <= 2
}

/// Cards of the game's kind, at most 100 of them: such cards can always be
/// scored within 32 bits.
pub open spec fn cards_within(t: Seq<RegionCard>, s: Seq<SanctuaryCard>) -> bool {
    cards_bounded(t, s) && t.len() + s.len() <= 100
}

/// Whether a player's cards (the tableau, then the card played face down if
/// any, and the sanctuaries) are cards of the game's kind and at most 100.
pub fn cards_fit(t: &Vec<RegionCard>, played: Option<RegionCard>, s: &Vec<SanctuaryCard>) -> (r: bool)
    ensures
        ({
            let all = match played {
                Some(c) => t@.push(c),
                None => t@,
            };
            &&& r == cards_within(all, s@)
            &&& r ==> player_fits(all, s@) && final_score(all, s@) <= u32::MAX
        }),
{
    let extra: usize = if played.is_some() { 1 } else { 0 };
    if t.len() > 100 || s.len() > 100 || t.len() + s.len() + extra > 100 {
        return false;
    }
    let mut i: usize = 0;
    while i < t.len()
        invariant
            i <= t.len(),
            forall|k: int| 0 <= k < i ==> region_bounded(#[trigger] t@[k]),
        decreases t.len() - i,
    {
        if !(wonders_ok(&t[i].wonders) && fame_ok(&t[i].fame)) {
            proof {
                let all = match played {
                    Some(c) => t@.push(c),
                    None => t@,
                };
                assert(all[i as int] == t@[i as int]);
            }
            return false;
        }
        i = i + 1;
    }
    let mut j: usize = 0;
    while j < s.len()
        invariant
            j <= s.len(),
            forall|k: int| 0 <= k < j ==> sanctuary_bounded(#[trigger] s@[k]),
        decreases s.len() - j,
    {
        if !(wonders_ok(&s[j].wonders) && fame_ok(&s[j].fame)) {
            proof {
                assert(!sanctuary_bounded(s@[j as int]));
            }
            return false;
        }
        j = j + 1;
    }
    match played {
        Some(c) => {
            if !(wonders_ok(&c.wonders) && fame_ok(&c.fame)) {
                proof {
                    assert(t@.push(c)[t@.len() as int] == c);
                }
                return false;
            }
            proof {
                let all = t@.push(c);
                assert forall|k: int| 0 <= k < all.len() implies region_bounded(#[trigger] all[k]) by {
                    if k < t@.len() {
                        assert(all[k] == t@[k]);
                    }
                }
                law_game_cards_fit(all, s@);
            }
        },
        None => {
            proof {
                law_game_cards_fit(t@, s@);
            }
        },
    }
    true
}

} // verus!
