use vstd::prelude::*;
use rand::seq::SliceRandom;

verus! {

/// Border colour of a card; sanctuaries may be colourless.
#[derive(Clone, Copy, Debug, PartialEq, Eq, Structural)]
pub enum Biome {
    Red,
    Green,
    Blue,
    Yellow,
    Colorless,
}

/// The three wonder icons.
#[derive(Clone, Copy, Debug, PartialEq, Eq, Structural)]
pub enum Wonder {
    Stone,
    Chimera,
    Thistle,
}

/// A number of each wonder icon: either printed on a card or required by a quest.
#[derive(Clone, Copy, Debug, PartialEq, Eq, Structural)]
pub struct WonderCount {
    pub stone: u8,
    pub chimera: u8,
    pub thistle: u8,
}

impl WonderCount {
    /// How many icons of the given kind the count holds.
    pub open spec fn of(self, w: Wonder) -> nat {
        match w {
            Wonder::Stone => self.stone as nat,
            Wonder::Chimera => self.chimera as nat,
            Wonder::Thistle => self.thistle as nat,
        }
    }

    pub open spec fn spec_is_zero(self) -> bool {
        self.stone == 0 && self.chimera == 0 && self.thistle == 0
    }

    pub fn zero() -> (r: Self)
        ensures
            r.stone == 0 && r.chimera == 0 && r.thistle == 0,
    {
        WonderCount { stone: 0, chimera: 0, thistle: 0 }
    }

    pub fn is_zero(&self) -> (r: bool)
        ensures
            r == self.spec_is_zero(),
    {
        self.stone == 0 && self.chimera == 0 && self.thistle == 0
    }
}

/// The scoring condition printed at the bottom of a card.
#[derive(Clone, Copy, Debug, PartialEq, Eq, Structural)]
pub enum Fame {
    NoFame,
    Flat(u32),
    PerIcon { icon: Wonder, score_per: u32 },
    PerColour { biome: Biome, score_per: u32 },
    PerColourPair { biome1: Biome, biome2: Biome, score_per: u32 },
    PerNight { score_per: u32 },
    PerClue { score_per: u32 },
    PerWonderSet { score_per: u32 },
    PerColourSet { score_per: u32 },
}

#[derive(Clone, Copy, Debug, PartialEq, Eq, Structural)]
pub struct RegionCard {
    pub number: u8,
    pub biome: Biome,
    pub night: bool,
    pub clue: bool,
    pub wonders: WonderCount,
    pub quest: WonderCount,
    pub fame: Fame,
}

#[derive(Clone, Copy, Debug, PartialEq, Eq, Structural)]
pub struct SanctuaryCard {
    pub tile: u8,
    pub biome: Biome,
    pub night: bool,
    pub clue: bool,
    pub wonders: WonderCount,
    pub fame: Fame,
}

/// What a face-up card shows towards scoring, whether it is a region or a sanctuary.
#[derive(Clone, Copy, Debug, PartialEq, Eq, Structural)]
pub struct Face {
    pub biome: Biome,
    pub night: bool,
    pub clue: bool,
    pub wonders: WonderCount,
}

pub open spec fn region_face(c: RegionCard) -> Face {
    Face { biome: c.biome, night: c.night, clue: c.clue, wonders: c.wonders }
}

pub open spec fn sanctuary_face(c: SanctuaryCard) -> Face {
    Face { biome: c.biome, night: c.night, clue: c.clue, wonders: c.wonders }
}

/// The numbers printed on the cards of the game stay small: at most two icons
/// of a kind on a card and at most 30 fame per unit.
pub open spec fn fame_bounded(f: Fame) -> bool {
    match f {
        Fame::NoFame => true,
        Fame::Flat(v) => v <= 30,
        Fame::PerIcon { score_per, .. } => score_per <= 30,
        Fame::PerColour { score_per, .. } => score_per <= 30,
        Fame::PerColourPair { score_per, .. } => score_per <= 30,
        Fame::PerNight { score_per } => score_per <= 30,
        Fame::PerClue { score_per } => score_per <= 30,
        Fame::PerWonderSet { score_per } => score_per <= 30,
        Fame::PerColourSet { score_per } => score_per <= 30,
    }
}

pub open spec fn wonders_bounded(w: WonderCount) -> bool {
    w.stone <= 2 && w.chimera <= 2 && w.thistle <= 2
}

pub open spec fn region_bounded(c: RegionCard) -> bool {
    wonders_bounded(c.wonders) && fame_bounded(c.fame)
}

pub open spec fn sanctuary_bounded(c: SanctuaryCard) -> bool {
    wonders_bounded(c.wonders) && fame_bounded(c.fame)
}

/// The base region deck: exactly the 68 cards of `base_regions`, which are
/// numbered 1 to 68, each with a colour, and bounded.
pub open spec fn is_base_region_deck(s: Seq<RegionCard>) -> bool {
    &&& s == base_regions()
    &&& s.len() == 68
    &&& forall|i: int| 0 <= i < 68 ==> #[trigger] s[i].number == i + 1
    &&& forall|i: int| 0 <= i < 68 ==> #[trigger] s[i].biome != Biome::Colorless
    &&& forall|i: int| 0 <= i < 68 ==> region_bounded(#[trigger] s[i])
}

/// The base sanctuary deck: exactly the 45 tiles of `base_sanctuaries`,
/// numbered 1 to 45 and bounded.
pub open spec fn is_base_sanctuary_deck(s: Seq<SanctuaryCard>) -> bool {
    &&& s == base_sanctuaries()
    &&& s.len() == 45
    &&& forall|i: int| 0 <= i < 45 ==> #[trigger] s[i].tile == i + 1
    &&& forall|i: int| 0 <= i < 45 ==> sanctuary_bounded(#[trigger] s[i])
}

/// The expansion regions: exactly the nine cards of `expansion_region_cards`,
/// number 0, then 69 to 76, all bounded.
pub open spec fn is_expansion_region_set(s: Seq<RegionCard>) -> bool {
    &&& s == expansion_region_cards()
    &&& s.len() == 9
    &&& s[0].number == 0
    &&& forall|i: int| 1 <= i < 9 ==> #[trigger] s[i].number == 68 + i
    &&& forall|i: int| 0 <= i < 9 ==> region_bounded(#[trigger] s[i])
}

/// The expansion sanctuaries: exactly the eight tiles of
/// `expansion_sanctuary_cards`, numbered 46 to 53, all bounded.
pub open spec fn is_expansion_sanctuary_set(s: Seq<SanctuaryCard>) -> bool {
    &&& s == expansion_sanctuary_cards()
    &&& s.len() == 8
    &&& forall|i: int| 0 <= i < 8 ==> #[trigger] s[i].tile == 46 + i
    &&& forall|i: int| 0 <= i < 8 ==> sanctuary_bounded(#[trigger] s[i])
}

/// A shuffled deck: some arrangement of exactly the cards of `base`.
pub open spec fn is_shuffle_of<T>(deck: Seq<T>, base: Seq<T>) -> bool {
    deck.to_multiset() == base.to_multiset()
}

/// Shuffles a deck with `rand`'s `SliceRandom::shuffle`, driven by `rand::thread_rng()`.
/// Claimed: the result holds exactly the cards it was given, as a multiset;
/// which order comes out is left open, as it rests on chance.
#[verifier::external_body]
pub(crate) fn shuffled<T>(deck: Vec<T>) -> (r: Vec<T>)
    ensures
        is_shuffle_of(r@, deck@),
{
    let mut deck = deck;
    deck.shuffle(&mut rand::thread_rng());
    deck
}

/// The base region deck, shuffled.
pub fn get_region_deck() -> (r: Vec<RegionCard>)
    ensures
        exists|base: Seq<RegionCard>| is_base_region_deck(base) && #[trigger] is_shuffle_of(r@, base),
{
    let deck = regions();
    let r = shuffled(deck);
    proof {
        assert(is_base_region_deck(deck@) && is_shuffle_of(r@, deck@));
    }
    r
}

/// The base region deck together with the expansion regions, shuffled.
pub fn get_region_deck_with_expansion() -> (r: Vec<RegionCard>)
    ensures
        exists|base: Seq<RegionCard>, extra: Seq<RegionCard>|
            is_base_region_deck(base) && is_expansion_region_set(extra) && #[trigger] is_shuffle_of(r@, base + extra),
{
    let mut deck = regions();
    let ghost base = deck@;
    let mut extra = expansion_regions();
    let ghost ex = extra@;
    deck.append(&mut extra);
    let r = shuffled(deck);
    proof {
        assert(is_shuffle_of(r@, base + ex));
    }
    r
}

/// The base sanctuary deck, shuffled.
pub fn get_sanctuary_deck() -> (r: Vec<SanctuaryCard>)
    ensures
        exists|base: Seq<SanctuaryCard>| is_base_sanctuary_deck(base) && #[trigger] is_shuffle_of(r@, base),
{
    let deck = sanctuaries();
    let r = shuffled(deck);
    proof {
        assert(is_base_sanctuary_deck(deck@) && is_shuffle_of(r@, deck@));
    }
    r
}

/// The base sanctuary deck together with the expansion sanctuaries, shuffled.
pub fn get_sanctuary_deck_with_expansion() -> (r: Vec<SanctuaryCard>)
    ensures
        exists|base: Seq<SanctuaryCard>, extra: Seq<SanctuaryCard>|
            is_base_sanctuary_deck(base) && is_expansion_sanctuary_set(extra) && #[trigger] is_shuffle_of(r@, base + extra),
{
    let mut deck = sanctuaries();
    let ghost base = deck@;
    let mut extra = expansion_sanctuaries();
    let ghost ex = extra@;
    deck.append(&mut extra);
    let r = shuffled(deck);
    proof {
        assert(is_shuffle_of(r@, base + ex));
    }
    r
}

// ─── The cards, card by card ─────────────────────────────────────────────────

/// A count of wonder icons.
pub open spec fn ws(stone: u8, chimera: u8, thistle: u8) -> WonderCount {
    WonderCount { stone, chimera, thistle }
}

/// The 68 region cards of the base game, in number order.
pub open spec fn base_regions() -> Seq<RegionCard> {
    seq![
        RegionCard { number: 1, biome: Biome::Red, night: false, clue: false, wonders: ws(1, 1, 0), quest: ws(0, 0, 0), fame: Fame::NoFame },
        RegionCard { number: 2, biome: Biome::Blue, night: false, clue: false, wonders: ws(2, 0, 0), quest: ws(0, 0, 0), fame: Fame::NoFame },
        RegionCard { number: 3, biome: Biome::Green, night: false, clue: false, wonders: ws(0, 0, 0), quest: ws(0, 0, 0), fame: Fame::Flat(4) },
        RegionCard { number: 4, biome: Biome::Red, night: false, clue: false, wonders: ws(1, 0, 1), quest: ws(0, 0, 0), fame: Fame::NoFame },
        RegionCard { number: 5, biome: Biome::Green, night: false, clue: false, wonders: ws(0, 1, 0), quest: ws(0, 0, 0), fame: Fame::Flat(2) },
        RegionCard { number: 6, biome: Biome::Blue, night: false, clue: true, wonders: ws(1, 0, 0), quest: ws(0, 0, 0), fame: Fame::NoFame },
        RegionCard { number: 7, biome: Biome::Red, night: false, clue: false, wonders: ws(0, 1, 1), quest: ws(0, 0, 0), fame: Fame::NoFame },
        RegionCard { number: 8, biome: Biome::Green, night: false, clue: true, wonders: ws(0, 1, 0), quest: ws(0, 0, 0), fame: Fame::NoFame },
        RegionCard { number: 9, biome: Biome::Blue, night: false, clue: false, wonders: ws(0, 0, 0), quest: ws(0, 0, 0), fame: Fame::Flat(5) },
        RegionCard { number: 10, biome: Biome::Red, night: false, clue: false, wonders: ws(0, 0, 0), quest: ws(0, 0, 0), fame: Fame::PerNight { score_per: 3 } },
        RegionCard { number: 11, biome: Biome::Green, night: false, clue: false, wonders: ws(0, 0, 0), quest: ws(0, 0, 0), fame: Fame::PerClue { score_per: 2 } },
        RegionCard { number: 12, biome: Biome::Yellow, night: false, clue: true, wonders: ws(0, 0, 0), quest: ws(0, 0, 0), fame: Fame::NoFame },
        RegionCard { number: 13, biome: Biome::Blue, night: false, clue: false, wonders: ws(0, 0, 0), quest: ws(0, 0, 0), fame: Fame::PerIcon { icon: Wonder::Stone, score_per: 2 } },
        RegionCard { number: 14, biome: Biome::Red, night: false, clue: false, wonders: ws(0, 0, 1), quest: ws(0, 0, 0), fame: Fame::PerNight { score_per: 2 } },
        RegionCard { number: 15, biome: Biome::Green, night: false, clue: true, wonders: ws(0, 0, 0), quest: ws(0, 0, 0), fame: Fame::PerIcon { icon: Wonder::Chimera, score_per: 2 } },
        RegionCard { number: 16, biome: Biome::Red, night: false, clue: false, wonders: ws(0, 1, 0), quest: ws(0, 0, 0), fame: Fame::PerIcon { icon: Wonder::Chimera, score_per: 2 } },
        RegionCard { number: 17, biome: Biome::Blue, night: false, clue: false, wonders: ws(1, 0, 0), quest: ws(0, 2, 0), fame: Fame::PerIcon { icon: Wonder::Stone, score_per: 3 } },
        RegionCard { number: 18, biome: Biome::Green, night: false, clue: false, wonders: ws(0, 1, 0), quest: ws(0, 0, 0), fame: Fame::PerColourSet { score_per: 10 } },
        RegionCard { number: 19, biome: Biome::Red, night: false, clue: false, wonders: ws(0, 0, 1), quest: ws(0, 0, 0), fame: Fame::PerIcon { icon: Wonder::Thistle, score_per: 2 } },
        RegionCard { number: 20, biome: Biome::Green, night: true, clue: true, wonders: ws(0, 0, 0), quest: ws(1, 0, 0), fame: Fame::PerNight { score_per: 2 } },
        RegionCard { number: 21, biome: Biome::Blue, night: true, clue: false, wonders: ws(0, 0, 0), quest: ws(2, 0, 0), fame: Fame::Flat(8) },
        RegionCard { number: 22, biome: Biome::Green, night: true, clue: true, wonders: ws(0, 0, 0), quest: ws(0, 0, 0), fame: Fame::PerClue { score_per: 1 } },
        RegionCard { number: 23, biome: Biome::Red, night: true, clue: false, wonders: ws(1, 1, 0), quest: ws(0, 0, 0), fame: Fame::PerColourSet { score_per: 10 } },
        RegionCard { number: 24, biome: Biome::Blue, night: true, clue: false, wonders: ws(1, 0, 0), quest: ws(0, 1, 0), fame: Fame::PerNight { score_per: 2 } },
        RegionCard { number: 25, biome: Biome::Yellow, night: true, clue: false, wonders: ws(0, 0, 0), quest: ws(0, 0, 0), fame: Fame::PerColourPair { biome1: Biome::Yellow, biome2: Biome::Green, score_per: 1 } },
        RegionCard { number: 26, biome: Biome::Red, night: true, clue: false, wonders: ws(0, 1, 0), quest: ws(0, 0, 0), fame: Fame::PerIcon { icon: Wonder::Thistle, score_per: 3 } },
        RegionCard { number: 27, biome: Biome::Yellow, night: true, clue: false, wonders: ws(0, 0, 0), quest: ws(0, 0, 0), fame: Fame::PerColourPair { biome1: Biome::Yellow, biome2: Biome::Blue, score_per: 1 } },
        RegionCard { number: 28, biome: Biome::Red, night: true, clue: false, wonders: ws(1, 0, 0), quest: ws(0, 0, 0), fame: Fame::PerIcon { icon: Wonder::Chimera, score_per: 3 } },
        RegionCard { number: 29, biome: Biome::Yellow, night: true, clue: false, wonders: ws(0, 0, 0), quest: ws(0, 0, 0), fame: Fame::PerIcon { icon: Wonder::Thistle, score_per: 2 } },
        RegionCard { number: 30, biome: Biome::Red, night: true, clue: false, wonders: ws(1, 0, 0), quest: ws(0, 0, 0), fame: Fame::PerIcon { icon: Wonder::Stone, score_per: 2 } },
        RegionCard { number: 31, biome: Biome::Yellow, night: true, clue: false, wonders: ws(0, 0, 0), quest: ws(0, 0, 0), fame: Fame::PerColourPair { biome1: Biome::Yellow, biome2: Biome::Red, score_per: 1 } },
        RegionCard { number: 32, biome: Biome::Red, night: true, clue: false, wonders: ws(1, 1, 0), quest: ws(3, 0, 0), fame: Fame::Flat(7) },
        RegionCard { number: 33, biome: Biome::Yellow, night: true, clue: true, wonders: ws(0, 0, 0), quest: ws(0, 0, 0), fame: Fame::PerIcon { icon: Wonder::Thistle, score_per: 3 } },
        RegionCard { number: 34, biome: Biome::Green, night: true, clue: false, wonders: ws(0, 1, 0), quest: ws(2, 0, 0), fame: Fame::PerIcon { icon: Wonder::Chimera, score_per: 3 } },
        RegionCard { number: 35, biome: Biome::Yellow, night: true, clue: false, wonders: ws(0, 0, 0), quest: ws(0, 0, 0), fame: Fame::PerColourSet { score_per: 10 } },
        RegionCard { number: 36, biome: Biome::Red, night: true, clue: false, wonders: ws(0, 0, 0), quest: ws(0, 2, 0), fame: Fame::PerIcon { icon: Wonder::Thistle, score_per: 4 } },
        RegionCard { number: 37, biome: Biome::Yellow, night: true, clue: false, wonders: ws(0, 0, 0), quest: ws(0, 0, 1), fame: Fame::PerNight { score_per: 3 } },
        RegionCard { number: 38, biome: Biome::Green, night: true, clue: false, wonders: ws(0, 0, 0), quest: ws(0, 1, 1), fame: Fame::PerClue { score_per: 3 } },
        RegionCard { number: 39, biome: Biome::Red, night: true, clue: false, wonders: ws(1, 0, 1), quest: ws(0, 2, 0), fame: Fame::Flat(9) },
        RegionCard { number: 40, biome: Biome::Blue, night: true, clue: false, wonders: ws(0, 0, 0), quest: ws(1, 1, 1), fame: Fame::PerNight { score_per: 3 } },
        RegionCard { number: 41, biome: Biome::Green, night: false, clue: false, wonders: ws(0, 0, 1), quest: ws(2, 1, 0), fame: Fame::PerNight { score_per: 4 } },
        RegionCard { number: 42, biome: Biome::Yellow, night: false, clue: false, wonders: ws(0, 0, 0), quest: ws(1, 1, 0), fame: Fame::PerColourPair { biome1: Biome::Yellow, biome2: Biome::Green, score_per: 2 } },
        RegionCard { number: 43, biome: Biome::Blue, night: false, clue: false, wonders: ws(1, 0, 0), quest: ws(0, 0, 0), fame: Fame::PerColourSet { score_per: 10 } },
        RegionCard { number: 44, biome: Biome::Yellow, night: false, clue: false, wonders: ws(0, 0, 0), quest: ws(1, 0, 1), fame: Fame::PerColourPair { biome1: Biome::Yellow, biome2: Biome::Blue, score_per: 2 } },
        RegionCard { number: 45, biome: Biome::Green, night: false, clue: false, wonders: ws(1, 0, 0), quest: ws(0, 3, 0), fame: Fame::Flat(13) },
        RegionCard { number: 46, biome: Biome::Blue, night: false, clue: true, wonders: ws(0, 0, 0), quest: ws(2, 1, 0), fame: Fame::Flat(10) },
        RegionCard { number: 47, biome: Biome::Yellow, night: false, clue: false, wonders: ws(0, 0, 0), quest: ws(0, 1, 1), fame: Fame::PerColourPair { biome1: Biome::Yellow, biome2: Biome::Red, score_per: 2 } },
        RegionCard { number: 48, biome: Biome::Red, night: false, clue: false, wonders: ws(0, 1, 0), quest: ws(0, 0, 0), fame: Fame::PerIcon { icon: Wonder::Stone, score_per: 3 } },
        RegionCard { number: 49, biome: Biome::Blue, night: false, clue: true, wonders: ws(0, 0, 0), quest: ws(2, 0, 1), fame: Fame::Flat(12) },
        RegionCard { number: 50, biome: Biome::Yellow, night: false, clue: false, wonders: ws(0, 0, 0), quest: ws(0, 0, 2), fame: Fame::PerColour { biome: Biome::Green, score_per: 4 } },
        RegionCard { number: 51, biome: Biome::Blue, night: false, clue: false, wonders: ws(1, 0, 0), quest: ws(4, 0, 0), fame: Fame::Flat(14) },
        RegionCard { number: 52, biome: Biome::Red, night: false, clue: false, wonders: ws(0, 0, 0), quest: ws(3, 0, 0), fame: Fame::PerIcon { icon: Wonder::Chimera, score_per: 4 } },
        RegionCard { number: 53, biome: Biome::Yellow, night: false, clue: false, wonders: ws(0, 0, 0), quest: ws(0, 0, 2), fame: Fame::PerColour { biome: Biome::Red, score_per: 4 } },
        RegionCard { number: 54, biome: Biome::Green, night: false, clue: false, wonders: ws(0, 1, 0), quest: ws(0, 0, 2), fame: Fame::PerClue { score_per: 4 } },
        RegionCard { number: 55, biome: Biome::Blue, night: false, clue: true, wonders: ws(1, 0, 0), quest: ws(0, 1, 2), fame: Fame::PerIcon { icon: Wonder::Thistle, score_per: 3 } },
        RegionCard { number: 56, biome: Biome::Yellow, night: false, clue: false, wonders: ws(0, 0, 0), quest: ws(1, 2, 0), fame: Fame::PerColour { biome: Biome::Blue, score_per: 4 } },
        RegionCard { number: 57, biome: Biome::Red, night: false, clue: false, wonders: ws(0, 0, 0), quest: ws(0, 0, 3), fame: Fame::PerIcon { icon: Wonder::Stone, score_per: 4 } },
        RegionCard { number: 58, biome: Biome::Green, night: false, clue: true, wonders: ws(0, 0, 0), quest: ws(0, 3, 0), fame: Fame::PerClue { score_per: 3 } },
        RegionCard { number: 59, biome: Biome::Yellow, night: false, clue: true, wonders: ws(0, 0, 0), quest: ws(1, 3, 0), fame: Fame::PerColourPair { biome1: Biome::Yellow, biome2: Biome::Red, score_per: 3 } },
        RegionCard { number: 60, biome: Biome::Blue, night: false, clue: true, wonders: ws(0, 0, 0), quest: ws(2, 2, 0), fame: Fame::Flat(16) },
        RegionCard { number: 61, biome: Biome::Green, night: false, clue: false, wonders: ws(0, 0, 1), quest: ws(0, 4, 0), fame: Fame::Flat(17) },
        RegionCard { number: 62, biome: Biome::Yellow, night: false, clue: true, wonders: ws(0, 0, 0), quest: ws(0, 0, 3), fame: Fame::PerColourPair { biome1: Biome::Yellow, biome2: Biome::Blue, score_per: 3 } },
        RegionCard { number: 63, biome: Biome::Green, night: false, clue: true, wonders: ws(0, 0, 0), quest: ws(0, 2, 1), fame: Fame::Flat(15) },
        RegionCard { number: 64, biome: Biome::Blue, night: false, clue: true, wonders: ws(0, 0, 0), quest: ws(2, 0, 2), fame: Fame::Flat(18) },
        RegionCard { number: 65, biome: Biome::Yellow, night: false, clue: true, wonders: ws(0, 0, 0), quest: ws(0, 0, 3), fame: Fame::PerColourPair { biome1: Biome::Yellow, biome2: Biome::Green, score_per: 3 } },
        RegionCard { number: 66, biome: Biome::Blue, night: false, clue: false, wonders: ws(0, 0, 0), quest: ws(4, 0, 0), fame: Fame::Flat(20) },
        RegionCard { number: 67, biome: Biome::Green, night: false, clue: false, wonders: ws(0, 0, 0), quest: ws(0, 2, 2), fame: Fame::Flat(19) },
        RegionCard { number: 68, biome: Biome::Blue, night: false, clue: false, wonders: ws(0, 0, 0), quest: ws(5, 0, 0), fame: Fame::Flat(24) },
    ]
}

/// The nine region cards of the expansion: number 0, then 69 to 76.
pub open spec fn expansion_region_cards() -> Seq<RegionCard> {
    seq![
        RegionCard { number: 0, biome: Biome::Colorless, night: false, clue: false, wonders: ws(1, 1, 1), quest: ws(0, 0, 0), fame: Fame::NoFame },
        RegionCard { number: 69, biome: Biome::Red, night: false, clue: true, wonders: ws(0, 0, 0), quest: ws(0, 0, 0), fame: Fame::PerWonderSet { score_per: 7 } },
        RegionCard { number: 70, biome: Biome::Colorless, night: false, clue: true, wonders: ws(0, 0, 0), quest: ws(0, 0, 0), fame: Fame::NoFame },
        RegionCard { number: 71, biome: Biome::Green, night: true, clue: false, wonders: ws(1, 0, 0), quest: ws(0, 0, 0), fame: Fame::PerWonderSet { score_per: 7 } },
        RegionCard { number: 72, biome: Biome::Colorless, night: true, clue: true, wonders: ws(0, 0, 0), quest: ws(0, 5, 0), fame: Fame::Flat(26) },
        RegionCard { number: 73, biome: Biome::Yellow, night: true, clue: false, wonders: ws(0, 1, 0), quest: ws(0, 0, 4), fame: Fame::PerColour { biome: Biome::Colorless, score_per: 5 } },
        RegionCard { number: 74, biome: Biome::Colorless, night: true, clue: false, wonders: ws(0, 0, 1), quest: ws(0, 0, 0), fame: Fame::PerColour { biome: Biome::Colorless, score_per: 7 } },
        RegionCard { number: 75, biome: Biome::Blue, night: true, clue: true, wonders: ws(0, 0, 0), quest: ws(6, 0, 0), fame: Fame::Flat(28) },
        RegionCard { number: 76, biome: Biome::Colorless, night: true, clue: false, wonders: ws(0, 0, 0), quest: ws(2, 2, 2), fame: Fame::PerColour { biome: Biome::Colorless, score_per: 4 } },
    ]
}

/// The 45 sanctuary tiles of the base game, in tile order.
pub open spec fn base_sanctuaries() -> Seq<SanctuaryCard> {
    seq![
        SanctuaryCard { tile: 1, biome: Biome::Green, night: false, clue: false, wonders: ws(0, 0, 0), fame: Fame::PerColour { biome: Biome::Green, score_per: 1 } },
        SanctuaryCard { tile: 2, biome: Biome::Red, night: false, clue: false, wonders: ws(0, 0, 0), fame: Fame::PerColour { biome: Biome::Red, score_per: 1 } },
        SanctuaryCard { tile: 3, biome: Biome::Blue, night: false, clue: false, wonders: ws(0, 0, 0), fame: Fame::PerColour { biome: Biome::Blue, score_per: 1 } },
        SanctuaryCard { tile: 4, biome: Biome::Yellow, night: false, clue: false, wonders: ws(0, 0, 0), fame: Fame::PerColour { biome: Biome::Yellow, score_per: 1 } },
        SanctuaryCard { tile: 5, biome: Biome::Colorless, night: false, clue: false, wonders: ws(0, 0, 0), fame: Fame::PerColourPair { biome1: Biome::Blue, biome2: Biome::Yellow, score_per: 1 } },
        SanctuaryCard { tile: 6, biome: Biome::Colorless, night: false, clue: false, wonders: ws(0, 0, 0), fame: Fame::PerColourPair { biome1: Biome::Green, biome2: Biome::Red, score_per: 1 } },
        SanctuaryCard { tile: 7, biome: Biome::Colorless, night: false, clue: false, wonders: ws(0, 0, 0), fame: Fame::PerColourPair { biome1: Biome::Red, biome2: Biome::Yellow, score_per: 1 } },
        SanctuaryCard { tile: 8, biome: Biome::Colorless, night: false, clue: false, wonders: ws(0, 0, 0), fame: Fame::PerColourPair { biome1: Biome::Yellow, biome2: Biome::Green, score_per: 1 } },
        SanctuaryCard { tile: 9, biome: Biome::Colorless, night: false, clue: false, wonders: ws(0, 0, 0), fame: Fame::PerColourPair { biome1: Biome::Green, biome2: Biome::Blue, score_per: 1 } },
        SanctuaryCard { tile: 10, biome: Biome::Colorless, night: false, clue: false, wonders: ws(0, 0, 0), fame: Fame::PerColourPair { biome1: Biome::Red, biome2: Biome::Blue, score_per: 1 } },
        SanctuaryCard { tile: 11, biome: Biome::Blue, night: false, clue: false, wonders: ws(0, 1, 0), fame: Fame::NoFame },
        SanctuaryCard { tile: 12, biome: Biome::Blue, night: false, clue: false, wonders: ws(1, 0, 0), fame: Fame::NoFame },
        SanctuaryCard { tile: 13, biome: Biome::Blue, night: false, clue: false, wonders: ws(0, 0, 1), fame: Fame::NoFame },
        SanctuaryCard { tile: 14, biome: Biome::Green, night: false, clue: false, wonders: ws(0, 1, 0), fame: Fame::NoFame },
        SanctuaryCard { tile: 15, biome: Biome::Green, night: false, clue: false, wonders: ws(1, 0, 0), fame: Fame::NoFame },
        SanctuaryCard { tile: 16, biome: Biome::Green, night: false, clue: true, wonders: ws(0, 0, 0), fame: Fame::NoFame },
        SanctuaryCard { tile: 17, biome: Biome::Red, night: false, clue: false, wonders: ws(0, 1, 0), fame: Fame::NoFame },
        SanctuaryCard { tile: 18, biome: Biome::Red, night: false, clue: false, wonders: ws(0, 0, 1), fame: Fame::NoFame },
        SanctuaryCard { tile: 19, biome: Biome::Red, night: false, clue: false, wonders: ws(1, 0, 0), fame: Fame::NoFame },
        SanctuaryCard { tile: 20, biome: Biome::Yellow, night: false, clue: false, wonders: ws(1, 0, 0), fame: Fame::NoFame },
        SanctuaryCard { tile: 21, biome: Biome::Yellow, night: false, clue: true, wonders: ws(0, 0, 0), fame: Fame::NoFame },
        SanctuaryCard { tile: 22, biome: Biome::Yellow, night: false, clue: false, wonders: ws(0, 0, 0), fame: Fame::PerColourSet { score_per: 4 } },
        SanctuaryCard { tile: 23, biome: Biome::Yellow, night: false, clue: false, wonders: ws(0, 0, 0), fame: Fame::PerClue { score_per: 1 } },
        SanctuaryCard { tile: 24, biome: Biome::Colorless, night: false, clue: false, wonders: ws(0, 0, 0), fame: Fame::Flat(5) },
        SanctuaryCard { tile: 25, biome: Biome::Blue, night: false, clue: true, wonders: ws(0, 0, 0), fame: Fame::NoFame },
        SanctuaryCard { tile: 26, biome: Biome::Colorless, night: false, clue: true, wonders: ws(1, 0, 0), fame: Fame::NoFame },
        SanctuaryCard { tile: 27, biome: Biome::Colorless, night: false, clue: true, wonders: ws(0, 1, 0), fame: Fame::NoFame },
        SanctuaryCard { tile: 28, biome: Biome::Colorless, night: false, clue: true, wonders: ws(0, 0, 1), fame: Fame::NoFame },
        SanctuaryCard { tile: 29, biome: Biome::Colorless, night: false, clue: false, wonders: ws(0, 0, 0), fame: Fame::PerIcon { icon: Wonder::Thistle, score_per: 2 } },
        SanctuaryCard { tile: 30, biome: Biome::Colorless, night: false, clue: false, wonders: ws(0, 0, 0), fame: Fame::PerIcon { icon: Wonder::Stone, score_per: 2 } },
        SanctuaryCard { tile: 31, biome: Biome::Colorless, night: false, clue: false, wonders: ws(0, 0, 0), fame: Fame::PerIcon { icon: Wonder::Chimera, score_per: 2 } },
        SanctuaryCard { tile: 32, biome: Biome::Colorless, night: false, clue: false, wonders: ws(0, 0, 0), fame: Fame::PerClue { score_per: 2 } },
        SanctuaryCard { tile: 33, biome: Biome::Colorless, night: false, clue: true, wonders: ws(0, 0, 0), fame: Fame::PerColourSet { score_per: 4 } },
        SanctuaryCard { tile: 34, biome: Biome::Green, night: false, clue: false, wonders: ws(0, 0, 0), fame: Fame::PerNight { score_per: 1 } },
        SanctuaryCard { tile: 35, biome: Biome::Colorless, night: false, clue: false, wonders: ws(1, 0, 0), fame: Fame::PerNight { score_per: 1 } },
        SanctuaryCard { tile: 36, biome: Biome::Colorless, night: false, clue: false, wonders: ws(0, 1, 0), fame: Fame::PerClue { score_per: 1 } },
        SanctuaryCard { tile: 37, biome: Biome::Colorless, night: false, clue: false, wonders: ws(1, 0, 0), fame: Fame::PerClue { score_per: 1 } },
        SanctuaryCard { tile: 38, biome: Biome::Colorless, night: false, clue: true, wonders: ws(0, 0, 0), fame: Fame::PerClue { score_per: 1 } },
        SanctuaryCard { tile: 39, biome: Biome::Colorless, night: false, clue: false, wonders: ws(1, 0, 0), fame: Fame::PerIcon { icon: Wonder::Stone, score_per: 1 } },
        SanctuaryCard { tile: 40, biome: Biome::Colorless, night: false, clue: false, wonders: ws(0, 1, 0), fame: Fame::PerIcon { icon: Wonder::Chimera, score_per: 1 } },
        SanctuaryCard { tile: 41, biome: Biome::Colorless, night: false, clue: false, wonders: ws(0, 0, 1), fame: Fame::PerIcon { icon: Wonder::Thistle, score_per: 1 } },
        SanctuaryCard { tile: 42, biome: Biome::Red, night: true, clue: false, wonders: ws(0, 0, 0), fame: Fame::NoFame },
        SanctuaryCard { tile: 43, biome: Biome::Colorless, night: true, clue: false, wonders: ws(1, 0, 0), fame: Fame::NoFame },
        SanctuaryCard { tile: 44, biome: Biome::Colorless, night: true, clue: false, wonders: ws(0, 1, 0), fame: Fame::NoFame },
        SanctuaryCard { tile: 45, biome: Biome::Colorless, night: true, clue: false, wonders: ws(0, 0, 1), fame: Fame::NoFame },
    ]
}

/// The eight sanctuary tiles of the expansion, numbered 46 to 53.
pub open spec fn expansion_sanctuary_cards() -> Seq<SanctuaryCard> {
    seq![
        SanctuaryCard { tile: 46, biome: Biome::Colorless, night: false, clue: false, wonders: ws(2, 0, 0), fame: Fame::NoFame },
        SanctuaryCard { tile: 47, biome: Biome::Colorless, night: false, clue: true, wonders: ws(0, 0, 0), fame: Fame::PerWonderSet { score_per: 3 } },
        SanctuaryCard { tile: 48, biome: Biome::Colorless, night: false, clue: false, wonders: ws(0, 1, 0), fame: Fame::PerColour { biome: Biome::Colorless, score_per: 1 } },
        SanctuaryCard { tile: 49, biome: Biome::Colorless, night: false, clue: false, wonders: ws(0, 0, 1), fame: Fame::PerColour { biome: Biome::Colorless, score_per: 1 } },
        SanctuaryCard { tile: 50, biome: Biome::Green, night: false, clue: false, wonders: ws(0, 0, 0), fame: Fame::PerWonderSet { score_per: 3 } },
        SanctuaryCard { tile: 51, biome: Biome::Blue, night: false, clue: false, wonders: ws(0, 0, 0), fame: Fame::PerColour { biome: Biome::Colorless, score_per: 2 } },
        SanctuaryCard { tile: 52, biome: Biome::Yellow, night: true, clue: false, wonders: ws(0, 0, 0), fame: Fame::PerColour { biome: Biome::Colorless, score_per: 1 } },
        SanctuaryCard { tile: 53, biome: Biome::Red, night: false, clue: false, wonders: ws(0, 0, 0), fame: Fame::PerWonderSet { score_per: 3 } },
    ]
}

fn w(stone: u8, chimera: u8, thistle: u8) -> (r: WonderCount)
    ensures
        r == (WonderCount { stone, chimera, thistle }),
{
    WonderCount { stone, chimera, thistle }
}

#[verifier::rlimit(100)]
fn regions() -> (r: Vec<RegionCard>)
    ensures
        is_base_region_deck(r@),
{
    let r = vec![
        RegionCard { number: 1, biome: Biome::Red, night: false, clue: false, wonders: w(1,1,0), quest: WonderCount::zero(), fame: Fame::NoFame },
        RegionCard { number: 2, biome: Biome::Blue, night: false, clue: false, wonders: w(2,0,0), quest: WonderCount::zero(), fame: Fame::NoFame },
        RegionCard { number: 3, biome: Biome::Green, night: false, clue: false, wonders: WonderCount::zero(), quest: WonderCount::zero(), fame: Fame::Flat(4) },
        RegionCard { number: 4, biome: Biome::Red, night: false, clue: false, wonders: w(1,0,1), quest: WonderCount::zero(), fame: Fame::NoFame },
        RegionCard { number: 5, biome: Biome::Green, night: false, clue: false, wonders: w(0,1,0), quest: WonderCount::zero(), fame: Fame::Flat(2) },
        RegionCard { number: 6, biome: Biome::Blue, night: false, clue: true, wonders: w(1,0,0), quest: WonderCount::zero(), fame: Fame::NoFame },
        RegionCard { number: 7, biome: Biome::Red, night: false, clue: false, wonders: w(0,1,1), quest: WonderCount::zero(), fame: Fame::NoFame },
        RegionCard { number: 8, biome: Biome::Green, night: false, clue: true, wonders: w(0,1,0), quest: WonderCount::zero(), fame: Fame::NoFame },
        RegionCard { number: 9, biome: Biome::Blue, night: false, clue: false, wonders: WonderCount::zero(), quest: WonderCount::zero(), fame: Fame::Flat(5) },
        RegionCard { number: 10, biome: Biome::Red, night: false, clue: false, wonders: WonderCount::zero(), quest: WonderCount::zero(), fame: Fame::PerNight { score_per: 3 } },
        RegionCard { number: 11, biome: Biome::Green, night: false, clue: false, wonders: WonderCount::zero(), quest: WonderCount::zero(), fame: Fame::PerClue { score_per: 2 } },
        RegionCard { number: 12, biome: Biome::Yellow, night: false, clue: true, wonders: WonderCount::zero(), quest: WonderCount::zero(), fame: Fame::NoFame },
        RegionCard { number: 13, biome: Biome::Blue, night: false, clue: false, wonders: WonderCount::zero(), quest: WonderCount::zero(), fame: Fame::PerIcon { icon: Wonder::Stone, score_per: 2 } },
        RegionCard { number: 14, biome: Biome::Red, night: false, clue: false, wonders: w(0,0,1), quest: WonderCount::zero(), fame: Fame::PerNight { score_per: 2 } },
        RegionCard { number: 15, biome: Biome::Green, night: false, clue: true, wonders: WonderCount::zero(), quest: WonderCount::zero(), fame: Fame::PerIcon { icon: Wonder::Chimera, score_per: 2 } },
        RegionCard { number: 16, biome: Biome::Red, night: false, clue: false, wonders: w(0,1,0), quest: WonderCount::zero(), fame: Fame::PerIcon { icon: Wonder::Chimera, score_per: 2 } },
        RegionCard { number: 17, biome: Biome::Blue, night: false, clue: false, wonders: w(1,0,0), quest: w(0,2,0), fame: Fame::PerIcon { icon: Wonder::Stone, score_per: 3 } },
        RegionCard { number: 18, biome: Biome::Green, night: false, clue: false, wonders: w(0,1,0), quest: WonderCount::zero(), fame: Fame::PerColourSet { score_per: 10 } },
        RegionCard { number: 19, biome: Biome::Red, night: false, clue: false, wonders: w(0,0,1), quest: WonderCount::zero(), fame: Fame::PerIcon { icon: Wonder::Thistle, score_per: 2 } },
        RegionCard { number: 20, biome: Biome::Green, night: true, clue: true, wonders: WonderCount::zero(), quest: w(1,0,0), fame: Fame::PerNight { score_per: 2 } },
        RegionCard { number: 21, biome: Biome::Blue, night: true, clue: false, wonders: WonderCount::zero(), quest: w(2,0,0), fame: Fame::Flat(8) },
        RegionCard { number: 22, biome: Biome::Green, night: true, clue: true, wonders: WonderCount::zero(), quest: WonderCount::zero(), fame: Fame::PerClue { score_per: 1 } },
        RegionCard { number: 23, biome: Biome::Red, night: true, clue: false, wonders: w(1,1,0), quest: WonderCount::zero(), fame: Fame::PerColourSet { score_per: 10 } },
        RegionCard { number: 24, biome: Biome::Blue, night: true, clue: false, wonders: w(1,0,0), quest: w(0,1,0), fame: Fame::PerNight { score_per: 2 } },
        RegionCard { number: 25, biome: Biome::Yellow, night: true, clue: false, wonders: WonderCount::zero(), quest: WonderCount::zero(), fame: Fame::PerColourPair { biome1: Biome::Yellow, biome2: Biome::Green, score_per: 1 } },
        RegionCard { number: 26, biome: Biome::Red, night: true, clue: false, wonders: w(0,1,0), quest: WonderCount::zero(), fame: Fame::PerIcon { icon: Wonder::Thistle, score_per: 3 } },
        RegionCard { number: 27, biome: Biome::Yellow, night: true, clue: false, wonders: WonderCount::zero(), quest: WonderCount::zero(), fame: Fame::PerColourPair { biome1: Biome::Yellow, biome2: Biome::Blue, score_per: 1 } },
        RegionCard { number: 28, biome: Biome::Red, night: true, clue: false, wonders: w(1,0,0), quest: WonderCount::zero(), fame: Fame::PerIcon { icon: Wonder::Chimera, score_per: 3 } },
        RegionCard { number: 29, biome: Biome::Yellow, night: true, clue: false, wonders: WonderCount::zero(), quest: WonderCount::zero(), fame: Fame::PerIcon { icon: Wonder::Thistle, score_per: 2 } },
        RegionCard { number: 30, biome: Biome::Red, night: true, clue: false, wonders: w(1,0,0), quest: WonderCount::zero(), fame: Fame::PerIcon { icon: Wonder::Stone, score_per: 2 } },
        RegionCard { number: 31, biome: Biome::Yellow, night: true, clue: false, wonders: WonderCount::zero(), quest: WonderCount::zero(), fame: Fame::PerColourPair { biome1: Biome::Yellow, biome2: Biome::Red, score_per: 1 } },
        RegionCard { number: 32, biome: Biome::Red, night: true, clue: false, wonders: w(1,1,0), quest: w(3,0,0), fame: Fame::Flat(7) },
        RegionCard { number: 33, biome: Biome::Yellow, night: true, clue: true, wonders: WonderCount::zero(), quest: WonderCount::zero(), fame: Fame::PerIcon { icon: Wonder::Thistle, score_per: 3 } },
        RegionCard { number: 34, biome: Biome::Green, night: true, clue: false, wonders: w(0,1,0), quest: w(2,0,0), fame: Fame::PerIcon { icon: Wonder::Chimera, score_per: 3 } },
        RegionCard { number: 35, biome: Biome::Yellow, night: true, clue: false, wonders: WonderCount::zero(), quest: WonderCount::zero(), fame: Fame::PerColourSet { score_per: 10 } },
        RegionCard { number: 36, biome: Biome::Red, night: true, clue: false, wonders: WonderCount::zero(), quest: w(0,2,0), fame: Fame::PerIcon { icon: Wonder::Thistle, score_per: 4 } },
        RegionCard { number: 37, biome: Biome::Yellow, night: true, clue: false, wonders: WonderCount::zero(), quest: w(0,0,1), fame: Fame::PerNight { score_per: 3 } },
        RegionCard { number: 38, biome: Biome::Green, night: true, clue: false, wonders: WonderCount::zero(), quest: w(0,1,1), fame: Fame::PerClue { score_per: 3 } },
        RegionCard { number: 39, biome: Biome::Red, night: true, clue: false, wonders: w(1,0,1), quest: w(0,2,0), fame: Fame::Flat(9) },
        RegionCard { number: 40, biome: Biome::Blue, night: true, clue: false, wonders: WonderCount::zero(), quest: w(1,1,1), fame: Fame::PerNight { score_per: 3 } },
        RegionCard { number: 41, biome: Biome::Green, night: false, clue: false, wonders: w(0,0,1), quest: w(2,1,0), fame: Fame::PerNight { score_per: 4 } },
        RegionCard { number: 42, biome: Biome::Yellow, night: false, clue: false, wonders: WonderCount::zero(), quest: w(1,1,0), fame: Fame::PerColourPair { biome1: Biome::Yellow, biome2: Biome::Green, score_per: 2 } },
        RegionCard { number: 43, biome: Biome::Blue, night: false, clue: false, wonders: w(1,0,0), quest: WonderCount::zero(), fame: Fame::PerColourSet { score_per: 10 } },
        RegionCard { number: 44, biome: Biome::Yellow, night: false, clue: false, wonders: WonderCount::zero(), quest: w(1,0,1), fame: Fame::PerColourPair { biome1: Biome::Yellow, biome2: Biome::Blue, score_per: 2 } },
        RegionCard { number: 45, biome: Biome::Green, night: false, clue: false, wonders: w(1,0,0), quest: w(0,3,0), fame: Fame::Flat(13) },
        RegionCard { number: 46, biome: Biome::Blue, night: false, clue: true, wonders: WonderCount::zero(), quest: w(2,1,0), fame: Fame::Flat(10) },
        RegionCard { number: 47, biome: Biome::Yellow, night: false, clue: false, wonders: WonderCount::zero(), quest: w(0,1,1), fame: Fame::PerColourPair { biome1: Biome::Yellow, biome2: Biome::Red, score_per: 2 } },
        RegionCard { number: 48, biome: Biome::Red, night: false, clue: false, wonders: w(0,1,0), quest: WonderCount::zero(), fame: Fame::PerIcon { icon: Wonder::Stone, score_per: 3 } },
        RegionCard { number: 49, biome: Biome::Blue, night: false, clue: true, wonders: WonderCount::zero(), quest: w(2,0,1), fame: Fame::Flat(12) },
        RegionCard { number: 50, biome: Biome::Yellow, night: false, clue: false, wonders: WonderCount::zero(), quest: w(0,0,2), fame: Fame::PerColour { biome: Biome::Green, score_per: 4 } },
        RegionCard { number: 51, biome: Biome::Blue, night: false, clue: false, wonders: w(1,0,0), quest: w(4,0,0), fame: Fame::Flat(14) },
        RegionCard { number: 52, biome: Biome::Red, night: false, clue: false, wonders: WonderCount::zero(), quest: w(3,0,0), fame: Fame::PerIcon { icon: Wonder::Chimera, score_per: 4 } },
        RegionCard { number: 53, biome: Biome::Yellow, night: false, clue: false, wonders: WonderCount::zero(), quest: w(0,0,2), fame: Fame::PerColour { biome: Biome::Red, score_per: 4 } },
        RegionCard { number: 54, biome: Biome::Green, night: false, clue: false, wonders: w(0,1,0), quest: w(0,0,2), fame: Fame::PerClue { score_per: 4 } },
        RegionCard { number: 55, biome: Biome::Blue, night: false, clue: true, wonders: w(1,0,0), quest: w(0,1,2), fame: Fame::PerIcon { icon: Wonder::Thistle, score_per: 3 } },
        RegionCard { number: 56, biome: Biome::Yellow, night: false, clue: false, wonders: WonderCount::zero(), quest: w(1,2,0), fame: Fame::PerColour { biome: Biome::Blue, score_per: 4 } },
        RegionCard { number: 57, biome: Biome::Red, night: false, clue: false, wonders: WonderCount::zero(), quest: w(0,0,3), fame: Fame::PerIcon { icon: Wonder::Stone, score_per: 4 } },
        RegionCard { number: 58, biome: Biome::Green, night: false, clue: true, wonders: WonderCount::zero(), quest: w(0,3,0), fame: Fame::PerClue { score_per: 3 } },
        RegionCard { number: 59, biome: Biome::Yellow, night: false, clue: true, wonders: WonderCount::zero(), quest: w(1,3,0), fame: Fame::PerColourPair { biome1: Biome::Yellow, biome2: Biome::Red, score_per: 3 } },
        RegionCard { number: 60, biome: Biome::Blue, night: false, clue: true, wonders: WonderCount::zero(), quest: w(2,2,0), fame: Fame::Flat(16) },
        RegionCard { number: 61, biome: Biome::Green, night: false, clue: false, wonders: w(0,0,1), quest: w(0,4,0), fame: Fame::Flat(17) },
        RegionCard { number: 62, biome: Biome::Yellow, night: false, clue: true, wonders: WonderCount::zero(), quest: w(0,0,3), fame: Fame::PerColourPair { biome1: Biome::Yellow, biome2: Biome::Blue, score_per: 3 } },
        RegionCard { number: 63, biome: Biome::Green, night: false, clue: true, wonders: WonderCount::zero(), quest: w(0,2,1), fame: Fame::Flat(15) },
        RegionCard { number: 64, biome: Biome::Blue, night: false, clue: true, wonders: WonderCount::zero(), quest: w(2,0,2), fame: Fame::Flat(18) },
        RegionCard { number: 65, biome: Biome::Yellow, night: false, clue: true, wonders: WonderCount::zero(), quest: w(0,0,3), fame: Fame::PerColourPair { biome1: Biome::Yellow, biome2: Biome::Green, score_per: 3 } },
        RegionCard { number: 66, biome: Biome::Blue, night: false, clue: false, wonders: WonderCount::zero(), quest: w(4,0,0), fame: Fame::Flat(20) },
        RegionCard { number: 67, biome: Biome::Green, night: false, clue: false, wonders: WonderCount::zero(), quest: w(0,2,2), fame: Fame::Flat(19) },
        RegionCard { number: 68, biome: Biome::Blue, night: false, clue: false, wonders: WonderCount::zero(), quest: w(5,0,0), fame: Fame::Flat(24) },
    ];
    proof {
        assert(r@ =~= base_regions());
    }
    r
}

#[verifier::rlimit(100)]
fn expansion_regions() -> (r: Vec<RegionCard>)
    ensures
        is_expansion_region_set(r@),
{
    let r = vec![
        RegionCard { number: 0, biome: Biome::Colorless, night: false, clue: false, wonders: w(1,1,1), quest: WonderCount::zero(), fame: Fame::NoFame },
        RegionCard { number: 69, biome: Biome::Red, night: false, clue: true, wonders: WonderCount::zero(), quest: WonderCount::zero(), fame: Fame::PerWonderSet { score_per: 7 } },
        RegionCard { number: 70, biome: Biome::Colorless, night: false, clue: true, wonders: WonderCount::zero(), quest: WonderCount::zero(), fame: Fame::NoFame },
        RegionCard { number: 71, biome: Biome::Green, night: true, clue: false, wonders: w(1,0,0), quest: WonderCount::zero(), fame: Fame::PerWonderSet { score_per: 7 } },
        RegionCard { number: 72, biome: Biome::Colorless, night: true, clue: true, wonders: WonderCount::zero(), quest: w(0,5,0), fame: Fame::Flat(26) },
        RegionCard { number: 73, biome: Biome::Yellow, night: true, clue: false, wonders: w(0,1,0), quest: w(0,0,4), fame: Fame::PerColour { biome: Biome::Colorless, score_per: 5 } },
        RegionCard { number: 74, biome: Biome::Colorless, night: true, clue: false, wonders: w(0,0,1), quest: WonderCount::zero(), fame: Fame::PerColour { biome: Biome::Colorless, score_per: 7 } },
        RegionCard { number: 75, biome: Biome::Blue, night: true, clue: true, wonders: WonderCount::zero(), quest: w(6,0,0), fame: Fame::Flat(28) },
        RegionCard { number: 76, biome: Biome::Colorless, night: true, clue: false, wonders: WonderCount::zero(), quest: w(2,2,2), fame: Fame::PerColour { biome: Biome::Colorless, score_per: 4 } },
    ];
    proof {
        assert(r@ =~= expansion_region_cards());
    }
    r
}

#[verifier::rlimit(100)]
fn sanctuaries() -> (r: Vec<SanctuaryCard>)
    ensures
        is_base_sanctuary_deck(r@),
{
    let r = vec![
        SanctuaryCard { tile: 1, biome: Biome::Green, night: false, clue: false, wonders: WonderCount::zero(), fame: Fame::PerColour { biome: Biome::Green, score_per: 1 } },
        SanctuaryCard { tile: 2, biome: Biome::Red, night: false, clue: false, wonders: WonderCount::zero(), fame: Fame::PerColour { biome: Biome::Red, score_per: 1 } },
        SanctuaryCard { tile: 3, biome: Biome::Blue, night: false, clue: false, wonders: WonderCount::zero(), fame: Fame::PerColour { biome: Biome::Blue, score_per: 1 } },
        SanctuaryCard { tile: 4, biome: Biome::Yellow, night: false, clue: false, wonders: WonderCount::zero(), fame: Fame::PerColour { biome: Biome::Yellow, score_per: 1 } },
        SanctuaryCard { tile: 5, biome: Biome::Colorless, night: false, clue: false, wonders: WonderCount::zero(), fame: Fame::PerColourPair { biome1: Biome::Blue, biome2: Biome::Yellow, score_per: 1 } },
        SanctuaryCard { tile: 6, biome: Biome::Colorless, night: false, clue: false, wonders: WonderCount::zero(), fame: Fame::PerColourPair { biome1: Biome::Green, biome2: Biome::Red, score_per: 1 } },
        SanctuaryCard { tile: 7, biome: Biome::Colorless, night: false, clue: false, wonders: WonderCount::zero(), fame: Fame::PerColourPair { biome1: Biome::Red, biome2: Biome::Yellow, score_per: 1 } },
        SanctuaryCard { tile: 8, biome: Biome::Colorless, night: false, clue: false, wonders: WonderCount::zero(), fame: Fame::PerColourPair { biome1: Biome::Yellow, biome2: Biome::Green, score_per: 1 } },
        SanctuaryCard { tile: 9, biome: Biome::Colorless, night: false, clue: false, wonders: WonderCount::zero(), fame: Fame::PerColourPair { biome1: Biome::Green, biome2: Biome::Blue, score_per: 1 } },
        SanctuaryCard { tile: 10, biome: Biome::Colorless, night: false, clue: false, wonders: WonderCount::zero(), fame: Fame::PerColourPair { biome1: Biome::Red, biome2: Biome::Blue, score_per: 1 } },
        SanctuaryCard { tile: 11, biome: Biome::Blue, night: false, clue: false, wonders: w(0,1,0), fame: Fame::NoFame },
        SanctuaryCard { tile: 12, biome: Biome::Blue, night: false, clue: false, wonders: w(1,0,0), fame: Fame::NoFame },
        SanctuaryCard { tile: 13, biome: Biome::Blue, night: false, clue: false, wonders: w(0,0,1), fame: Fame::NoFame },
        SanctuaryCard { tile: 14, biome: Biome::Green, night: false, clue: false, wonders: w(0,1,0), fame: Fame::NoFame },
        SanctuaryCard { tile: 15, biome: Biome::Green, night: false, clue: false, wonders: w(1,0,0), fame: Fame::NoFame },
        SanctuaryCard { tile: 16, biome: Biome::Green, night: false, clue: true, wonders: WonderCount::zero(), fame: Fame::NoFame },
        SanctuaryCard { tile: 17, biome: Biome::Red, night: false, clue: false, wonders: w(0,1,0), fame: Fame::NoFame },
        SanctuaryCard { tile: 18, biome: Biome::Red, night: false, clue: false, wonders: w(0,0,1), fame: Fame::NoFame },
        SanctuaryCard { tile: 19, biome: Biome::Red, night: false, clue: false, wonders: w(1,0,0), fame: Fame::NoFame },
        SanctuaryCard { tile: 20, biome: Biome::Yellow, night: false, clue: false, wonders: w(1,0,0), fame: Fame::NoFame },
        SanctuaryCard { tile: 21, biome: Biome::Yellow, night: false, clue: true, wonders: WonderCount::zero(), fame: Fame::NoFame },
        SanctuaryCard { tile: 22, biome: Biome::Yellow, night: false, clue: false, wonders: WonderCount::zero(), fame: Fame::PerColourSet { score_per: 4 } },
        SanctuaryCard { tile: 23, biome: Biome::Yellow, night: false, clue: false, wonders: WonderCount::zero(), fame: Fame::PerClue { score_per: 1 } },
        SanctuaryCard { tile: 24, biome: Biome::Colorless, night: false, clue: false, wonders: WonderCount::zero(), fame: Fame::Flat(5) },
        SanctuaryCard { tile: 25, biome: Biome::Blue, night: false, clue: true, wonders: WonderCount::zero(), fame: Fame::NoFame },
        SanctuaryCard { tile: 26, biome: Biome::Colorless, night: false, clue: true, wonders: w(1,0,0), fame: Fame::NoFame },
        SanctuaryCard { tile: 27, biome: Biome::Colorless, night: false, clue: true, wonders: w(0,1,0), fame: Fame::NoFame },
        SanctuaryCard { tile: 28, biome: Biome::Colorless, night: false, clue: true, wonders: w(0,0,1), fame: Fame::NoFame },
        SanctuaryCard { tile: 29, biome: Biome::Colorless, night: false, clue: false, wonders: WonderCount::zero(), fame: Fame::PerIcon { icon: Wonder::Thistle, score_per: 2 } },
        SanctuaryCard { tile: 30, biome: Biome::Colorless, night: false, clue: false, wonders: WonderCount::zero(), fame: Fame::PerIcon { icon: Wonder::Stone, score_per: 2 } },
        SanctuaryCard { tile: 31, biome: Biome::Colorless, night: false, clue: false, wonders: WonderCount::zero(), fame: Fame::PerIcon { icon: Wonder::Chimera, score_per: 2 } },
        SanctuaryCard { tile: 32, biome: Biome::Colorless, night: false, clue: false, wonders: WonderCount::zero(), fame: Fame::PerClue { score_per: 2 } },
        SanctuaryCard { tile: 33, biome: Biome::Colorless, night: false, clue: true, wonders: WonderCount::zero(), fame: Fame::PerColourSet { score_per: 4 } },
        SanctuaryCard { tile: 34, biome: Biome::Green, night: false, clue: false, wonders: WonderCount::zero(), fame: Fame::PerNight { score_per: 1 } },
        SanctuaryCard { tile: 35, biome: Biome::Colorless, night: false, clue: false, wonders: w(1,0,0), fame: Fame::PerNight { score_per: 1 } },
        SanctuaryCard { tile: 36, biome: Biome::Colorless, night: false, clue: false, wonders: w(0,1,0), fame: Fame::PerClue { score_per: 1 } },
        SanctuaryCard { tile: 37, biome: Biome::Colorless, night: false, clue: false, wonders: w(1,0,0), fame: Fame::PerClue { score_per: 1 } },
        SanctuaryCard { tile: 38, biome: Biome::Colorless, night: false, clue: true, wonders: WonderCount::zero(), fame: Fame::PerClue { score_per: 1 } },
        SanctuaryCard { tile: 39, biome: Biome::Colorless, night: false, clue: false, wonders: w(1,0,0), fame: Fame::PerIcon { icon: Wonder::Stone, score_per: 1 } },
        SanctuaryCard { tile: 40, biome: Biome::Colorless, night: false, clue: false, wonders: w(0,1,0), fame: Fame::PerIcon { icon: Wonder::Chimera, score_per: 1 } },
        SanctuaryCard { tile: 41, biome: Biome::Colorless, night: false, clue: false, wonders: w(0,0,1), fame: Fame::PerIcon { icon: Wonder::Thistle, score_per: 1 } },
        SanctuaryCard { tile: 42, biome: Biome::Red, night: true, clue: false, wonders: WonderCount::zero(), fame: Fame::NoFame },
        SanctuaryCard { tile: 43, biome: Biome::Colorless, night: true, clue: false, wonders: w(1,0,0), fame: Fame::NoFame },
        SanctuaryCard { tile: 44, biome: Biome::Colorless, night: true, clue: false, wonders: w(0,1,0), fame: Fame::NoFame },
        SanctuaryCard { tile: 45, biome: Biome::Colorless, night: true, clue: false, wonders: w(0,0,1), fame: Fame::NoFame },
    ];
    proof {
        assert(r@ =~= base_sanctuaries());
    }
    r
}

#[verifier::rlimit(100)]
fn expansion_sanctuaries() -> (r: Vec<SanctuaryCard>)
    ensures
        is_expansion_sanctuary_set(r@),
{
    let r = vec![
        SanctuaryCard { tile: 46, biome: Biome::Colorless, night: false, clue: false, wonders: w(2,0,0), fame: Fame::NoFame },
        SanctuaryCard { tile: 47, biome: Biome::Colorless, night: false, clue: true, wonders: WonderCount::zero(), fame: Fame::PerWonderSet { score_per: 3 } },
        SanctuaryCard { tile: 48, biome: Biome::Colorless, night: false, clue: false, wonders: w(0,1,0), fame: Fame::PerColour { biome: Biome::Colorless, score_per: 1 } },
        SanctuaryCard { tile: 49, biome: Biome::Colorless, night: false, clue: false, wonders: w(0,0,1), fame: Fame::PerColour { biome: Biome::Colorless, score_per: 1 } },
        SanctuaryCard { tile: 50, biome: Biome::Green, night: false, clue: false, wonders: WonderCount::zero(), fame: Fame::PerWonderSet { score_per: 3 } },
        SanctuaryCard { tile: 51, biome: Biome::Blue, night: false, clue: false, wonders: WonderCount::zero(), fame: Fame::PerColour { biome: Biome::Colorless, score_per: 2 } },
        SanctuaryCard { tile: 52, biome: Biome::Yellow, night: true, clue: false, wonders: WonderCount::zero(), fame: Fame::PerColour { biome: Biome::Colorless, score_per: 1 } },
        SanctuaryCard { tile: 53, biome: Biome::Red, night: false, clue: false, wonders: WonderCount::zero(), fame: Fame::PerWonderSet { score_per: 3 } },
    ];
    proof {
        assert(r@ =~= expansion_sanctuary_cards());
    }
    r
}


/// The printed cards, one by one: every base and expansion region card and
/// every sanctuary tile, with its colour, night and clue marks, wonder icons,
/// quest and fame. (City cards carry no wonder icons and the base deck has 17
/// clue cards, as the rules give them.)
#[verifier::rlimit(100)]
pub proof fn law_printed_cards()
    ensures
        base_regions().len() == 68,
        expansion_region_cards().len() == 9,
        base_sanctuaries().len() == 45,
        expansion_sanctuary_cards().len() == 8,
        base_regions()[0] == (RegionCard { number: 1, biome: Biome::Red, night: false, clue: false, wonders: WonderCount { stone: 1, chimera: 1, thistle: 0 }, quest: WonderCount { stone: 0, chimera: 0, thistle: 0 }, fame: Fame::NoFame }),
        base_regions()[1] == (RegionCard { number: 2, biome: Biome::Blue, night: false, clue: false, wonders: WonderCount { stone: 2, chimera: 0, thistle: 0 }, quest: WonderCount { stone: 0, chimera: 0, thistle: 0 }, fame: Fame::NoFame }),
        base_regions()[2] == (RegionCard { number: 3, biome: Biome::Green, night: false, clue: false, wonders: WonderCount { stone: 0, chimera: 0, thistle: 0 }, quest: WonderCount { stone: 0, chimera: 0, thistle: 0 }, fame: Fame::Flat(4) }),
        base_regions()[3] == (RegionCard { number: 4, biome: Biome::Red, night: false, clue: false, wonders: WonderCount { stone: 1, chimera: 0, thistle: 1 }, quest: WonderCount { stone: 0, chimera: 0, thistle: 0 }, fame: Fame::NoFame }),
        base_regions()[4] == (RegionCard { number: 5, biome: Biome::Green, night: false, clue: false, wonders: WonderCount { stone: 0, chimera: 1, thistle: 0 }, quest: WonderCount { stone: 0, chimera: 0, thistle: 0 }, fame: Fame::Flat(2) }),
        base_regions()[5] == (RegionCard { number: 6, biome: Biome::Blue, night: false, clue: true, wonders: WonderCount { stone: 1, chimera: 0, thistle: 0 }, quest: WonderCount { stone: 0, chimera: 0, thistle: 0 }, fame: Fame::NoFame }),
        base_regions()[6] == (RegionCard { number: 7, biome: Biome::Red, night: false, clue: false, wonders: WonderCount { stone: 0, chimera: 1, thistle: 1 }, quest: WonderCount { stone: 0, chimera: 0, thistle: 0 }, fame: Fame::NoFame }),
        base_regions()[7] == (RegionCard { number: 8, biome: Biome::Green, night: false, clue: true, wonders: WonderCount { stone: 0, chimera: 1, thistle: 0 }, quest: WonderCount { stone: 0, chimera: 0, thistle: 0 }, fame: Fame::NoFame }),
        base_regions()[8] == (RegionCard { number: 9, biome: Biome::Blue, night: false, clue: false, wonders: WonderCount { stone: 0, chimera: 0, thistle: 0 }, quest: WonderCount { stone: 0, chimera: 0, thistle: 0 }, fame: Fame::Flat(5) }),
        base_regions()[9] == (RegionCard { number: 10, biome: Biome::Red, night: false, clue: false, wonders: WonderCount { stone: 0, chimera: 0, thistle: 0 }, quest: WonderCount { stone: 0, chimera: 0, thistle: 0 }, fame: Fame::PerNight { score_per: 3 } }),
        base_regions()[10] == (RegionCard { number: 11, biome: Biome::Green, night: false, clue: false, wonders: WonderCount { stone: 0, chimera: 0, thistle: 0 }, quest: WonderCount { stone: 0, chimera: 0, thistle: 0 }, fame: Fame::PerClue { score_per: 2 } }),
        base_regions()[11] == (RegionCard { number: 12, biome: Biome::Yellow, night: false, clue: true, wonders: WonderCount { stone: 0, chimera: 0, thistle: 0 }, quest: WonderCount { stone: 0, chimera: 0, thistle: 0 }, fame: Fame::NoFame }),
        base_regions()[12] == (RegionCard { number: 13, biome: Biome::Blue, night: false, clue: false, wonders: WonderCount { stone: 0, chimera: 0, thistle: 0 }, quest: WonderCount { stone: 0, chimera: 0, thistle: 0 }, fame: Fame::PerIcon { icon: Wonder::Stone, score_per: 2 } }),
        base_regions()[13] == (RegionCard { number: 14, biome: Biome::Red, night: false, clue: false, wonders: WonderCount { stone: 0, chimera: 0, thistle: 1 }, quest: WonderCount { stone: 0, chimera: 0, thistle: 0 }, fame: Fame::PerNight { score_per: 2 } }),
        base_regions()[14] == (RegionCard { number: 15, biome: Biome::Green, night: false, clue: true, wonders: WonderCount { stone: 0, chimera: 0, thistle: 0 }, quest: WonderCount { stone: 0, chimera: 0, thistle: 0 }, fame: Fame::PerIcon { icon: Wonder::Chimera, score_per: 2 } }),
        base_regions()[15] == (RegionCard { number: 16, biome: Biome::Red, night: false, clue: false, wonders: WonderCount { stone: 0, chimera: 1, thistle: 0 }, quest: WonderCount { stone: 0, chimera: 0, thistle: 0 }, fame: Fame::PerIcon { icon: Wonder::Chimera, score_per: 2 } }),
        base_regions()[16] == (RegionCard { number: 17, biome: Biome::Blue, night: false, clue: false, wonders: WonderCount { stone: 1, chimera: 0, thistle: 0 }, quest: WonderCount { stone: 0, chimera: 2, thistle: 0 }, fame: Fame::PerIcon { icon: Wonder::Stone, score_per: 3 } }),
        base_regions()[17] == (RegionCard { number: 18, biome: Biome::Green, night: false, clue: false, wonders: WonderCount { stone: 0, chimera: 1, thistle: 0 }, quest: WonderCount { stone: 0, chimera: 0, thistle: 0 }, fame: Fame::PerColourSet { score_per: 10 } }),
        base_regions()[18] == (RegionCard { number: 19, biome: Biome::Red, night: false, clue: false, wonders: WonderCount { stone: 0, chimera: 0, thistle: 1 }, quest: WonderCount { stone: 0, chimera: 0, thistle: 0 }, fame: Fame::PerIcon { icon: Wonder::Thistle, score_per: 2 } }),
        base_regions()[19] == (RegionCard { number: 20, biome: Biome::Green, night: true, clue: true, wonders: WonderCount { stone: 0, chimera: 0, thistle: 0 }, quest: WonderCount { stone: 1, chimera: 0, thistle: 0 }, fame: Fame::PerNight { score_per: 2 } }),
        base_regions()[20] == (RegionCard { number: 21, biome: Biome::Blue, night: true, clue: false, wonders: WonderCount { stone: 0, chimera: 0, thistle: 0 }, quest: WonderCount { stone: 2, chimera: 0, thistle: 0 }, fame: Fame::Flat(8) }),
        base_regions()[21] == (RegionCard { number: 22, biome: Biome::Green, night: true, clue: true, wonders: WonderCount { stone: 0, chimera: 0, thistle: 0 }, quest: WonderCount { stone: 0, chimera: 0, thistle: 0 }, fame: Fame::PerClue { score_per: 1 } }),
        base_regions()[22] == (RegionCard { number: 23, biome: Biome::Red, night: true, clue: false, wonders: WonderCount { stone: 1, chimera: 1, thistle: 0 }, quest: WonderCount { stone: 0, chimera: 0, thistle: 0 }, fame: Fame::PerColourSet { score_per: 10 } }),
        base_regions()[23] == (RegionCard { number: 24, biome: Biome::Blue, night: true, clue: false, wonders: WonderCount { stone: 1, chimera: 0, thistle: 0 }, quest: WonderCount { stone: 0, chimera: 1, thistle: 0 }, fame: Fame::PerNight { score_per: 2 } }),
        base_regions()[24] == (RegionCard { number: 25, biome: Biome::Yellow, night: true, clue: false, wonders: WonderCount { stone: 0, chimera: 0, thistle: 0 }, quest: WonderCount { stone: 0, chimera: 0, thistle: 0 }, fame: Fame::PerColourPair { biome1: Biome::Yellow, biome2: Biome::Green, score_per: 1 } }),
        base_regions()[25] == (RegionCard { number: 26, biome: Biome::Red, night: true, clue: false, wonders: WonderCount { stone: 0, chimera: 1, thistle: 0 }, quest: WonderCount { stone: 0, chimera: 0, thistle: 0 }, fame: Fame::PerIcon { icon: Wonder::Thistle, score_per: 3 } }),
        base_regions()[26] == (RegionCard { number: 27, biome: Biome::Yellow, night: true, clue: false, wonders: WonderCount { stone: 0, chimera: 0, thistle: 0 }, quest: WonderCount { stone: 0, chimera: 0, thistle: 0 }, fame: Fame::PerColourPair { biome1: Biome::Yellow, biome2: Biome::Blue, score_per: 1 } }),
        base_regions()[27] == (RegionCard { number: 28, biome: Biome::Red, night: true, clue: false, wonders: WonderCount { stone: 1, chimera: 0, thistle: 0 }, quest: WonderCount { stone: 0, chimera: 0, thistle: 0 }, fame: Fame::PerIcon { icon: Wonder::Chimera, score_per: 3 } }),
        base_regions()[28] == (RegionCard { number: 29, biome: Biome::Yellow, night: true, clue: false, wonders: WonderCount { stone: 0, chimera: 0, thistle: 0 }, quest: WonderCount { stone: 0, chimera: 0, thistle: 0 }, fame: Fame::PerIcon { icon: Wonder::Thistle, score_per: 2 } }),
        base_regions()[29] == (RegionCard { number: 30, biome: Biome::Red, night: true, clue: false, wonders: WonderCount { stone: 1, chimera: 0, thistle: 0 }, quest: WonderCount { stone: 0, chimera: 0, thistle: 0 }, fame: Fame::PerIcon { icon: Wonder::Stone, score_per: 2 } }),
        base_regions()[30] == (RegionCard { number: 31, biome: Biome::Yellow, night: true, clue: false, wonders: WonderCount { stone: 0, chimera: 0, thistle: 0 }, quest: WonderCount { stone: 0, chimera: 0, thistle: 0 }, fame: Fame::PerColourPair { biome1: Biome::Yellow, biome2: Biome::Red, score_per: 1 } }),
        base_regions()[31] == (RegionCard { number: 32, biome: Biome::Red, night: true, clue: false, wonders: WonderCount { stone: 1, chimera: 1, thistle: 0 }, quest: WonderCount { stone: 3, chimera: 0, thistle: 0 }, fame: Fame::Flat(7) }),
        base_regions()[32] == (RegionCard { number: 33, biome: Biome::Yellow, night: true, clue: true, wonders: WonderCount { stone: 0, chimera: 0, thistle: 0 }, quest: WonderCount { stone: 0, chimera: 0, thistle: 0 }, fame: Fame::PerIcon { icon: Wonder::Thistle, score_per: 3 } }),
        base_regions()[33] == (RegionCard { number: 34, biome: Biome::Green, night: true, clue: false, wonders: WonderCount { stone: 0, chimera: 1, thistle: 0 }, quest: WonderCount { stone: 2, chimera: 0, thistle: 0 }, fame: Fame::PerIcon { icon: Wonder::Chimera, score_per: 3 } }),
        base_regions()[34] == (RegionCard { number: 35, biome: Biome::Yellow, night: true, clue: false, wonders: WonderCount { stone: 0, chimera: 0, thistle: 0 }, quest: WonderCount { stone: 0, chimera: 0, thistle: 0 }, fame: Fame::PerColourSet { score_per: 10 } }),
        base_regions()[35] == (RegionCard { number: 36, biome: Biome::Red, night: true, clue: false, wonders: WonderCount { stone: 0, chimera: 0, thistle: 0 }, quest: WonderCount { stone: 0, chimera: 2, thistle: 0 }, fame: Fame::PerIcon { icon: Wonder::Thistle, score_per: 4 } }),
        base_regions()[36] == (RegionCard { number: 37, biome: Biome::Yellow, night: true, clue: false, wonders: WonderCount { stone: 0, chimera: 0, thistle: 0 }, quest: WonderCount { stone: 0, chimera: 0, thistle: 1 }, fame: Fame::PerNight { score_per: 3 } }),
        base_regions()[37] == (RegionCard { number: 38, biome: Biome::Green, night: true, clue: false, wonders: WonderCount { stone: 0, chimera: 0, thistle: 0 }, quest: WonderCount { stone: 0, chimera: 1, thistle: 1 }, fame: Fame::PerClue { score_per: 3 } }),
        base_regions()[38] == (RegionCard { number: 39, biome: Biome::Red, night: true, clue: false, wonders: WonderCount { stone: 1, chimera: 0, thistle: 1 }, quest: WonderCount { stone: 0, chimera: 2, thistle: 0 }, fame: Fame::Flat(9) }),
        base_regions()[39] == (RegionCard { number: 40, biome: Biome::Blue, night: true, clue: false, wonders: WonderCount { stone: 0, chimera: 0, thistle: 0 }, quest: WonderCount { stone: 1, chimera: 1, thistle: 1 }, fame: Fame::PerNight { score_per: 3 } }),
        base_regions()[40] == (RegionCard { number: 41, biome: Biome::Green, night: false, clue: false, wonders: WonderCount { stone: 0, chimera: 0, thistle: 1 }, quest: WonderCount { stone: 2, chimera: 1, thistle: 0 }, fame: Fame::PerNight { score_per: 4 } }),
        base_regions()[41] == (RegionCard { number: 42, biome: Biome::Yellow, night: false, clue: false, wonders: WonderCount { stone: 0, chimera: 0, thistle: 0 }, quest: WonderCount { stone: 1, chimera: 1, thistle: 0 }, fame: Fame::PerColourPair { biome1: Biome::Yellow, biome2: Biome::Green, score_per: 2 } }),
        base_regions()[42] == (RegionCard { number: 43, biome: Biome::Blue, night: false, clue: false, wonders: WonderCount { stone: 1, chimera: 0, thistle: 0 }, quest: WonderCount { stone: 0, chimera: 0, thistle: 0 }, fame: Fame::PerColourSet { score_per: 10 } }),
        base_regions()[43] == (RegionCard { number: 44, biome: Biome::Yellow, night: false, clue: false, wonders: WonderCount { stone: 0, chimera: 0, thistle: 0 }, quest: WonderCount { stone: 1, chimera: 0, thistle: 1 }, fame: Fame::PerColourPair { biome1: Biome::Yellow, biome2: Biome::Blue, score_per: 2 } }),
        base_regions()[44] == (RegionCard { number: 45, biome: Biome::Green, night: false, clue: false, wonders: WonderCount { stone: 1, chimera: 0, thistle: 0 }, quest: WonderCount { stone: 0, chimera: 3, thistle: 0 }, fame: Fame::Flat(13) }),
        base_regions()[45] == (RegionCard { number: 46, biome: Biome::Blue, night: false, clue: true, wonders: WonderCount { stone: 0, chimera: 0, thistle: 0 }, quest: WonderCount { stone: 2, chimera: 1, thistle: 0 }, fame: Fame::Flat(10) }),
        base_regions()[46] == (RegionCard { number: 47, biome: Biome::Yellow, night: false, clue: false, wonders: WonderCount { stone: 0, chimera: 0, thistle: 0 }, quest: WonderCount { stone: 0, chimera: 1, thistle: 1 }, fame: Fame::PerColourPair { biome1: Biome::Yellow, biome2: Biome::Red, score_per: 2 } }),
        base_regions()[47] == (RegionCard { number: 48, biome: Biome::Red, night: false, clue: false, wonders: WonderCount { stone: 0, chimera: 1, thistle: 0 }, quest: WonderCount { stone: 0, chimera: 0, thistle: 0 }, fame: Fame::PerIcon { icon: Wonder::Stone, score_per: 3 } }),
        base_regions()[48] == (RegionCard { number: 49, biome: Biome::Blue, night: false, clue: true, wonders: WonderCount { stone: 0, chimera: 0, thistle: 0 }, quest: WonderCount { stone: 2, chimera: 0, thistle: 1 }, fame: Fame::Flat(12) }),
        base_regions()[49] == (RegionCard { number: 50, biome: Biome::Yellow, night: false, clue: false, wonders: WonderCount { stone: 0, chimera: 0, thistle: 0 }, quest: WonderCount { stone: 0, chimera: 0, thistle: 2 }, fame: Fame::PerColour { biome: Biome::Green, score_per: 4 } }),
        base_regions()[50] == (RegionCard { number: 51, biome: Biome::Blue, night: false, clue: false, wonders: WonderCount { stone: 1, chimera: 0, thistle: 0 }, quest: WonderCount { stone: 4, chimera: 0, thistle: 0 }, fame: Fame::Flat(14) }),
        base_regions()[51] == (RegionCard { number: 52, biome: Biome::Red, night: false, clue: false, wonders: WonderCount { stone: 0, chimera: 0, thistle: 0 }, quest: WonderCount { stone: 3, chimera: 0, thistle: 0 }, fame: Fame::PerIcon { icon: Wonder::Chimera, score_per: 4 } }),
        base_regions()[52] == (RegionCard { number: 53, biome: Biome::Yellow, night: false, clue: false, wonders: WonderCount { stone: 0, chimera: 0, thistle: 0 }, quest: WonderCount { stone: 0, chimera: 0, thistle: 2 }, fame: Fame::PerColour { biome: Biome::Red, score_per: 4 } }),
        base_regions()[53] == (RegionCard { number: 54, biome: Biome::Green, night: false, clue: false, wonders: WonderCount { stone: 0, chimera: 1, thistle: 0 }, quest: WonderCount { stone: 0, chimera: 0, thistle: 2 }, fame: Fame::PerClue { score_per: 4 } }),
        base_regions()[54] == (RegionCard { number: 55, biome: Biome::Blue, night: false, clue: true, wonders: WonderCount { stone: 1, chimera: 0, thistle: 0 }, quest: WonderCount { stone: 0, chimera: 1, thistle: 2 }, fame: Fame::PerIcon { icon: Wonder::Thistle, score_per: 3 } }),
        base_regions()[55] == (RegionCard { number: 56, biome: Biome::Yellow, night: false, clue: false, wonders: WonderCount { stone: 0, chimera: 0, thistle: 0 }, quest: WonderCount { stone: 1, chimera: 2, thistle: 0 }, fame: Fame::PerColour { biome: Biome::Blue, score_per: 4 } }),
        base_regions()[56] == (RegionCard { number: 57, biome: Biome::Red, night: false, clue: false, wonders: WonderCount { stone: 0, chimera: 0, thistle: 0 }, quest: WonderCount { stone: 0, chimera: 0, thistle: 3 }, fame: Fame::PerIcon { icon: Wonder::Stone, score_per: 4 } }),
        base_regions()[57] == (RegionCard { number: 58, biome: Biome::Green, night: false, clue: true, wonders: WonderCount { stone: 0, chimera: 0, thistle: 0 }, quest: WonderCount { stone: 0, chimera: 3, thistle: 0 }, fame: Fame::PerClue { score_per: 3 } }),
        base_regions()[58] == (RegionCard { number: 59, biome: Biome::Yellow, night: false, clue: true, wonders: WonderCount { stone: 0, chimera: 0, thistle: 0 }, quest: WonderCount { stone: 1, chimera: 3, thistle: 0 }, fame: Fame::PerColourPair { biome1: Biome::Yellow, biome2: Biome::Red, score_per: 3 } }),
        base_regions()[59] == (RegionCard { number: 60, biome: Biome::Blue, night: false, clue: true, wonders: WonderCount { stone: 0, chimera: 0, thistle: 0 }, quest: WonderCount { stone: 2, chimera: 2, thistle: 0 }, fame: Fame::Flat(16) }),
        base_regions()[60] == (RegionCard { number: 61, biome: Biome::Green, night: false, clue: false, wonders: WonderCount { stone: 0, chimera: 0, thistle: 1 }, quest: WonderCount { stone: 0, chimera: 4, thistle: 0 }, fame: Fame::Flat(17) }),
        base_regions()[61] == (RegionCard { number: 62, biome: Biome::Yellow, night: false, clue: true, wonders: WonderCount { stone: 0, chimera: 0, thistle: 0 }, quest: WonderCount { stone: 0, chimera: 0, thistle: 3 }, fame: Fame::PerColourPair { biome1: Biome::Yellow, biome2: Biome::Blue, score_per: 3 } }),
        base_regions()[62] == (RegionCard { number: 63, biome: Biome::Green, night: false, clue: true, wonders: WonderCount { stone: 0, chimera: 0, thistle: 0 }, quest: WonderCount { stone: 0, chimera: 2, thistle: 1 }, fame: Fame::Flat(15) }),
        base_regions()[63] == (RegionCard { number: 64, biome: Biome::Blue, night: false, clue: true, wonders: WonderCount { stone: 0, chimera: 0, thistle: 0 }, quest: WonderCount { stone: 2, chimera: 0, thistle: 2 }, fame: Fame::Flat(18) }),
        base_regions()[64] == (RegionCard { number: 65, biome: Biome::Yellow, night: false, clue: true, wonders: WonderCount { stone: 0, chimera: 0, thistle: 0 }, quest: WonderCount { stone: 0, chimera: 0, thistle: 3 }, fame: Fame::PerColourPair { biome1: Biome::Yellow, biome2: Biome::Green, score_per: 3 } }),
        base_regions()[65] == (RegionCard { number: 66, biome: Biome::Blue, night: false, clue: false, wonders: WonderCount { stone: 0, chimera: 0, thistle: 0 }, quest: WonderCount { stone: 4, chimera: 0, thistle: 0 }, fame: Fame::Flat(20) }),
        base_regions()[66] == (RegionCard { number: 67, biome: Biome::Green, night: false, clue: false, wonders: WonderCount { stone: 0, chimera: 0, thistle: 0 }, quest: WonderCount { stone: 0, chimera: 2, thistle: 2 }, fame: Fame::Flat(19) }),
        base_regions()[67] == (RegionCard { number: 68, biome: Biome::Blue, night: false, clue: false, wonders: WonderCount { stone: 0, chimera: 0, thistle: 0 }, quest: WonderCount { stone: 5, chimera: 0, thistle: 0 }, fame: Fame::Flat(24) }),
        expansion_region_cards()[0] == (RegionCard { number: 0, biome: Biome::Colorless, night: false, clue: false, wonders: WonderCount { stone: 1, chimera: 1, thistle: 1 }, quest: WonderCount { stone: 0, chimera: 0, thistle: 0 }, fame: Fame::NoFame }),
        expansion_region_cards()[1] == (RegionCard { number: 69, biome: Biome::Red, night: false, clue: true, wonders: WonderCount { stone: 0, chimera: 0, thistle: 0 }, quest: WonderCount { stone: 0, chimera: 0, thistle: 0 }, fame: Fame::PerWonderSet { score_per: 7 } }),
        expansion_region_cards()[2] == (RegionCard { number: 70, biome: Biome::Colorless, night: false, clue: true, wonders: WonderCount { stone: 0, chimera: 0, thistle: 0 }, quest: WonderCount { stone: 0, chimera: 0, thistle: 0 }, fame: Fame::NoFame }),
        expansion_region_cards()[3] == (RegionCard { number: 71, biome: Biome::Green, night: true, clue: false, wonders: WonderCount { stone: 1, chimera: 0, thistle: 0 }, quest: WonderCount { stone: 0, chimera: 0, thistle: 0 }, fame: Fame::PerWonderSet { score_per: 7 } }),
        expansion_region_cards()[4] == (RegionCard { number: 72, biome: Biome::Colorless, night: true, clue: true, wonders: WonderCount { stone: 0, chimera: 0, thistle: 0 }, quest: WonderCount { stone: 0, chimera: 5, thistle: 0 }, fame: Fame::Flat(26) }),
        expansion_region_cards()[5] == (RegionCard { number: 73, biome: Biome::Yellow, night: true, clue: false, wonders: WonderCount { stone: 0, chimera: 1, thistle: 0 }, quest: WonderCount { stone: 0, chimera: 0, thistle: 4 }, fame: Fame::PerColour { biome: Biome::Colorless, score_per: 5 } }),
        expansion_region_cards()[6] == (RegionCard { number: 74, biome: Biome::Colorless, night: true, clue: false, wonders: WonderCount { stone: 0, chimera: 0, thistle: 1 }, quest: WonderCount { stone: 0, chimera: 0, thistle: 0 }, fame: Fame::PerColour { biome: Biome::Colorless, score_per: 7 } }),
        expansion_region_cards()[7] == (RegionCard { number: 75, biome: Biome::Blue, night: true, clue: true, wonders: WonderCount { stone: 0, chimera: 0, thistle: 0 }, quest: WonderCount { stone: 6, chimera: 0, thistle: 0 }, fame: Fame::Flat(28) }),
        expansion_region_cards()[8] == (RegionCard { number: 76, biome: Biome::Colorless, night: true, clue: false, wonders: WonderCount { stone: 0, chimera: 0, thistle: 0 }, quest: WonderCount { stone: 2, chimera: 2, thistle: 2 }, fame: Fame::PerColour { biome: Biome::Colorless, score_per: 4 } }),
        base_sanctuaries()[0] == (SanctuaryCard { tile: 1, biome: Biome::Green, night: false, clue: false, wonders: WonderCount { stone: 0, chimera: 0, thistle: 0 }, fame: Fame::PerColour { biome: Biome::Green, score_per: 1 } }),
        base_sanctuaries()[1] == (SanctuaryCard { tile: 2, biome: Biome::Red, night: false, clue: false, wonders: WonderCount { stone: 0, chimera: 0, thistle: 0 }, fame: Fame::PerColour { biome: Biome::Red, score_per: 1 } }),
        base_sanctuaries()[2] == (SanctuaryCard { tile: 3, biome: Biome::Blue, night: false, clue: false, wonders: WonderCount { stone: 0, chimera: 0, thistle: 0 }, fame: Fame::PerColour { biome: Biome::Blue, score_per: 1 } }),
        base_sanctuaries()[3] == (SanctuaryCard { tile: 4, biome: Biome::Yellow, night: false, clue: false, wonders: WonderCount { stone: 0, chimera: 0, thistle: 0 }, fame: Fame::PerColour { biome: Biome::Yellow, score_per: 1 } }),
        base_sanctuaries()[4] == (SanctuaryCard { tile: 5, biome: Biome::Colorless, night: false, clue: false, wonders: WonderCount { stone: 0, chimera: 0, thistle: 0 }, fame: Fame::PerColourPair { biome1: Biome::Blue, biome2: Biome::Yellow, score_per: 1 } }),
        base_sanctuaries()[5] == (SanctuaryCard { tile: 6, biome: Biome::Colorless, night: false, clue: false, wonders: WonderCount { stone: 0, chimera: 0, thistle: 0 }, fame: Fame::PerColourPair { biome1: Biome::Green, biome2: Biome::Red, score_per: 1 } }),
        base_sanctuaries()[6] == (SanctuaryCard { tile: 7, biome: Biome::Colorless, night: false, clue: false, wonders: WonderCount { stone: 0, chimera: 0, thistle: 0 }, fame: Fame::PerColourPair { biome1: Biome::Red, biome2: Biome::Yellow, score_per: 1 } }),
        base_sanctuaries()[7] == (SanctuaryCard { tile: 8, biome: Biome::Colorless, night: false, clue: false, wonders: WonderCount { stone: 0, chimera: 0, thistle: 0 }, fame: Fame::PerColourPair { biome1: Biome::Yellow, biome2: Biome::Green, score_per: 1 } }),
        base_sanctuaries()[8] == (SanctuaryCard { tile: 9, biome: Biome::Colorless, night: false, clue: false, wonders: WonderCount { stone: 0, chimera: 0, thistle: 0 }, fame: Fame::PerColourPair { biome1: Biome::Green, biome2: Biome::Blue, score_per: 1 } }),
        base_sanctuaries()[9] == (SanctuaryCard { tile: 10, biome: Biome::Colorless, night: false, clue: false, wonders: WonderCount { stone: 0, chimera: 0, thistle: 0 }, fame: Fame::PerColourPair { biome1: Biome::Red, biome2: Biome::Blue, score_per: 1 } }),
        base_sanctuaries()[10] == (SanctuaryCard { tile: 11, biome: Biome::Blue, night: false, clue: false, wonders: WonderCount { stone: 0, chimera: 1, thistle: 0 }, fame: Fame::NoFame }),
        base_sanctuaries()[11] == (SanctuaryCard { tile: 12, biome: Biome::Blue, night: false, clue: false, wonders: WonderCount { stone: 1, chimera: 0, thistle: 0 }, fame: Fame::NoFame }),
        base_sanctuaries()[12] == (SanctuaryCard { tile: 13, biome: Biome::Blue, night: false, clue: false, wonders: WonderCount { stone: 0, chimera: 0, thistle: 1 }, fame: Fame::NoFame }),
        base_sanctuaries()[13] == (SanctuaryCard { tile: 14, biome: Biome::Green, night: false, clue: false, wonders: WonderCount { stone: 0, chimera: 1, thistle: 0 }, fame: Fame::NoFame }),
        base_sanctuaries()[14] == (SanctuaryCard { tile: 15, biome: Biome::Green, night: false, clue: false, wonders: WonderCount { stone: 1, chimera: 0, thistle: 0 }, fame: Fame::NoFame }),
        base_sanctuaries()[15] == (SanctuaryCard { tile: 16, biome: Biome::Green, night: false, clue: true, wonders: WonderCount { stone: 0, chimera: 0, thistle: 0 }, fame: Fame::NoFame }),
        base_sanctuaries()[16] == (SanctuaryCard { tile: 17, biome: Biome::Red, night: false, clue: false, wonders: WonderCount { stone: 0, chimera: 1, thistle: 0 }, fame: Fame::NoFame }),
        base_sanctuaries()[17] == (SanctuaryCard { tile: 18, biome: Biome::Red, night: false, clue: false, wonders: WonderCount { stone: 0, chimera: 0, thistle: 1 }, fame: Fame::NoFame }),
        base_sanctuaries()[18] == (SanctuaryCard { tile: 19, biome: Biome::Red, night: false, clue: false, wonders: WonderCount { stone: 1, chimera: 0, thistle: 0 }, fame: Fame::NoFame }),
        base_sanctuaries()[19] == (SanctuaryCard { tile: 20, biome: Biome::Yellow, night: false, clue: false, wonders: WonderCount { stone: 1, chimera: 0, thistle: 0 }, fame: Fame::NoFame }),
        base_sanctuaries()[20] == (SanctuaryCard { tile: 21, biome: Biome::Yellow, night: false, clue: true, wonders: WonderCount { stone: 0, chimera: 0, thistle: 0 }, fame: Fame::NoFame }),
        base_sanctuaries()[21] == (SanctuaryCard { tile: 22, biome: Biome::Yellow, night: false, clue: false, wonders: WonderCount { stone: 0, chimera: 0, thistle: 0 }, fame: Fame::PerColourSet { score_per: 4 } }),
        base_sanctuaries()[22] == (SanctuaryCard { tile: 23, biome: Biome::Yellow, night: false, clue: false, wonders: WonderCount { stone: 0, chimera: 0, thistle: 0 }, fame: Fame::PerClue { score_per: 1 } }),
        base_sanctuaries()[23] == (SanctuaryCard { tile: 24, biome: Biome::Colorless, night: false, clue: false, wonders: WonderCount { stone: 0, chimera: 0, thistle: 0 }, fame: Fame::Flat(5) }),
        base_sanctuaries()[24] == (SanctuaryCard { tile: 25, biome: Biome::Blue, night: false, clue: true, wonders: WonderCount { stone: 0, chimera: 0, thistle: 0 }, fame: Fame::NoFame }),
        base_sanctuaries()[25] == (SanctuaryCard { tile: 26, biome: Biome::Colorless, night: false, clue: true, wonders: WonderCount { stone: 1, chimera: 0, thistle: 0 }, fame: Fame::NoFame }),
        base_sanctuaries()[26] == (SanctuaryCard { tile: 27, biome: Biome::Colorless, night: false, clue: true, wonders: WonderCount { stone: 0, chimera: 1, thistle: 0 }, fame: Fame::NoFame }),
        base_sanctuaries()[27] == (SanctuaryCard { tile: 28, biome: Biome::Colorless, night: false, clue: true, wonders: WonderCount { stone: 0, chimera: 0, thistle: 1 }, fame: Fame::NoFame }),
        base_sanctuaries()[28] == (SanctuaryCard { tile: 29, biome: Biome::Colorless, night: false, clue: false, wonders: WonderCount { stone: 0, chimera: 0, thistle: 0 }, fame: Fame::PerIcon { icon: Wonder::Thistle, score_per: 2 } }),
        base_sanctuaries()[29] == (SanctuaryCard { tile: 30, biome: Biome::Colorless, night: false, clue: false, wonders: WonderCount { stone: 0, chimera: 0, thistle: 0 }, fame: Fame::PerIcon { icon: Wonder::Stone, score_per: 2 } }),
        base_sanctuaries()[30] == (SanctuaryCard { tile: 31, biome: Biome::Colorless, night: false, clue: false, wonders: WonderCount { stone: 0, chimera: 0, thistle: 0 }, fame: Fame::PerIcon { icon: Wonder::Chimera, score_per: 2 } }),
        base_sanctuaries()[31] == (SanctuaryCard { tile: 32, biome: Biome::Colorless, night: false, clue: false, wonders: WonderCount { stone: 0, chimera: 0, thistle: 0 }, fame: Fame::PerClue { score_per: 2 } }),
        base_sanctuaries()[32] == (SanctuaryCard { tile: 33, biome: Biome::Colorless, night: false, clue: true, wonders: WonderCount { stone: 0, chimera: 0, thistle: 0 }, fame: Fame::PerColourSet { score_per: 4 } }),
        base_sanctuaries()[33] == (SanctuaryCard { tile: 34, biome: Biome::Green, night: false, clue: false, wonders: WonderCount { stone: 0, chimera: 0, thistle: 0 }, fame: Fame::PerNight { score_per: 1 } }),
        base_sanctuaries()[34] == (SanctuaryCard { tile: 35, biome: Biome::Colorless, night: false, clue: false, wonders: WonderCount { stone: 1, chimera: 0, thistle: 0 }, fame: Fame::PerNight { score_per: 1 } }),
        base_sanctuaries()[35] == (SanctuaryCard { tile: 36, biome: Biome::Colorless, night: false, clue: false, wonders: WonderCount { stone: 0, chimera: 1, thistle: 0 }, fame: Fame::PerClue { score_per: 1 } }),
        base_sanctuaries()[36] == (SanctuaryCard { tile: 37, biome: Biome::Colorless, night: false, clue: false, wonders: WonderCount { stone: 1, chimera: 0, thistle: 0 }, fame: Fame::PerClue { score_per: 1 } }),
        base_sanctuaries()[37] == (SanctuaryCard { tile: 38, biome: Biome::Colorless, night: false, clue: true, wonders: WonderCount { stone: 0, chimera: 0, thistle: 0 }, fame: Fame::PerClue { score_per: 1 } }),
        base_sanctuaries()[38] == (SanctuaryCard { tile: 39, biome: Biome::Colorless, night: false, clue: false, wonders: WonderCount { stone: 1, chimera: 0, thistle: 0 }, fame: Fame::PerIcon { icon: Wonder::Stone, score_per: 1 } }),
        base_sanctuaries()[39] == (SanctuaryCard { tile: 40, biome: Biome::Colorless, night: false, clue: false, wonders: WonderCount { stone: 0, chimera: 1, thistle: 0 }, fame: Fame::PerIcon { icon: Wonder::Chimera, score_per: 1 } }),
        base_sanctuaries()[40] == (SanctuaryCard { tile: 41, biome: Biome::Colorless, night: false, clue: false, wonders: WonderCount { stone: 0, chimera: 0, thistle: 1 }, fame: Fame::PerIcon { icon: Wonder::Thistle, score_per: 1 } }),
        base_sanctuaries()[41] == (SanctuaryCard { tile: 42, biome: Biome::Red, night: true, clue: false, wonders: WonderCount { stone: 0, chimera: 0, thistle: 0 }, fame: Fame::NoFame }),
        base_sanctuaries()[42] == (SanctuaryCard { tile: 43, biome: Biome::Colorless, night: true, clue: false, wonders: WonderCount { stone: 1, chimera: 0, thistle: 0 }, fame: Fame::NoFame }),
        base_sanctuaries()[43] == (SanctuaryCard { tile: 44, biome: Biome::Colorless, night: true, clue: false, wonders: WonderCount { stone: 0, chimera: 1, thistle: 0 }, fame: Fame::NoFame }),
        base_sanctuaries()[44] == (SanctuaryCard { tile: 45, biome: Biome::Colorless, night: true, clue: false, wonders: WonderCount { stone: 0, chimera: 0, thistle: 1 }, fame: Fame::NoFame }),
        expansion_sanctuary_cards()[0] == (SanctuaryCard { tile: 46, biome: Biome::Colorless, night: false, clue: false, wonders: WonderCount { stone: 2, chimera: 0, thistle: 0 }, fame: Fame::NoFame }),
        expansion_sanctuary_cards()[1] == (SanctuaryCard { tile: 47, biome: Biome::Colorless, night: false, clue: true, wonders: WonderCount { stone: 0, chimera: 0, thistle: 0 }, fame: Fame::PerWonderSet { score_per: 3 } }),
        expansion_sanctuary_cards()[2] == (SanctuaryCard { tile: 48, biome: Biome::Colorless, night: false, clue: false, wonders: WonderCount { stone: 0, chimera: 1, thistle: 0 }, fame: Fame::PerColour { biome: Biome::Colorless, score_per: 1 } }),
        expansion_sanctuary_cards()[3] == (SanctuaryCard { tile: 49, biome: Biome::Colorless, night: false, clue: false, wonders: WonderCount { stone: 0, chimera: 0, thistle: 1 }, fame: Fame::PerColour { biome: Biome::Colorless, score_per: 1 } }),
        expansion_sanctuary_cards()[4] == (SanctuaryCard { tile: 50, biome: Biome::Green, night: false, clue: false, wonders: WonderCount { stone: 0, chimera: 0, thistle: 0 }, fame: Fame::PerWonderSet { score_per: 3 } }),
        expansion_sanctuary_cards()[5] == (SanctuaryCard { tile: 51, biome: Biome::Blue, night: false, clue: false, wonders: WonderCount { stone: 0, chimera: 0, thistle: 0 }, fame: Fame::PerColour { biome: Biome::Colorless, score_per: 2 } }),
        expansion_sanctuary_cards()[6] == (SanctuaryCard { tile: 52, biome: Biome::Yellow, night: true, clue: false, wonders: WonderCount { stone: 0, chimera: 0, thistle: 0 }, fame: Fame::PerColour { biome: Biome::Colorless, score_per: 1 } }),
        expansion_sanctuary_cards()[7] == (SanctuaryCard { tile: 53, biome: Biome::Red, night: false, clue: false, wonders: WonderCount { stone: 0, chimera: 0, thistle: 0 }, fame: Fame::PerWonderSet { score_per: 3 } }),
{
}

/// How many of the first `n` cards of `s` have the property `p`.
pub open spec fn count_cards(s: Seq<RegionCard>, p: spec_fn(RegionCard) -> bool, n: int) -> nat
    decreases n,
{
    if n <= 0 {
        0
    } else {
        count_cards(s, p, n - 1) + if p(s[n - 1]) { 1nat } else { 0nat }
    }
}

/// The base region cards are spread as the rules give them: 17 of each
/// colour, 21 night cards and 17 cards with a clue.
#[verifier::rlimit(100)]
pub proof fn law_base_region_distribution()
    ensures
        count_cards(base_regions(), |c: RegionCard| c.biome == Biome::Red, 68) == 17,
        count_cards(base_regions(), |c: RegionCard| c.biome == Biome::Green, 68) == 17,
        count_cards(base_regions(), |c: RegionCard| c.biome == Biome::Blue, 68) == 17,
        count_cards(base_regions(), |c: RegionCard| c.biome == Biome::Yellow, 68) == 17,
        count_cards(base_regions(), |c: RegionCard| c.night, 68) == 21,
        count_cards(base_regions(), |c: RegionCard| c.clue, 68) == 17,
{
    reveal_with_fuel(count_cards, 69);
}

/// City (yellow) region cards carry no wonder icons.
#[verifier::rlimit(100)]
pub proof fn law_city_cards_have_no_wonders()
    ensures
        forall|i: int|
            0 <= i < base_regions().len() && (#[trigger] base_regions()[i]).biome == Biome::Yellow
                ==> base_regions()[i].wonders == ws(0, 0, 0),
{
    assert forall|i: int|
        0 <= i < base_regions().len() && (#[trigger] base_regions()[i]).biome == Biome::Yellow
            implies base_regions()[i].wonders == ws(0, 0, 0) by {
        // The 68 positions, one by one.
        assert(
            i == 0 || i == 1 || i == 2 || i == 3 || i == 4 || i == 5 || i == 6 || i == 7 || i == 8 || i == 9 || i == 10 || i == 11
            || i == 12 || i == 13 || i == 14 || i == 15 || i == 16 || i == 17 || i == 18 || i == 19 || i == 20 || i == 21 || i == 22 || i == 23
            || i == 24 || i == 25 || i == 26 || i == 27 || i == 28 || i == 29 || i == 30 || i == 31 || i == 32 || i == 33 || i == 34 || i == 35
            || i == 36 || i == 37 || i == 38 || i == 39 || i == 40 || i == 41 || i == 42 || i == 43 || i == 44 || i == 45 || i == 46 || i == 47
            || i == 48 || i == 49 || i == 50 || i == 51 || i == 52 || i == 53 || i == 54 || i == 55 || i == 56 || i == 57 || i == 58 || i == 59
            || i == 60 || i == 61 || i == 62 || i == 63 || i == 64 || i == 65 || i == 66 || i == 67
        );
    }
}

/// A shuffled base region deck holds 68 of the game's cards.
pub proof fn lemma_shuffled_regions_bounded(rd: Seq<RegionCard>, base: Seq<RegionCard>)
    requires
        is_base_region_deck(base),
        is_shuffle_of(rd, base),
    ensures
        rd.len() == 68,
        forall|i: int| 0 <= i < rd.len() ==> region_bounded(#[trigger] rd[i]),
{
    rd.to_multiset_ensures();
    base.to_multiset_ensures();
    assert forall|i: int| 0 <= i < rd.len() implies region_bounded(#[trigger] rd[i]) by {
        assert(rd.contains(rd[i]));
        assert(base.to_multiset().count(rd[i]) > 0);
        let k = choose|k: int| 0 <= k < base.len() && base[k] == rd[i];
        assert(region_bounded(base[k]));
    }
}

/// A shuffled base sanctuary deck holds 45 of the game's sanctuaries.
pub proof fn lemma_shuffled_sanctuaries_bounded(sd: Seq<SanctuaryCard>, base: Seq<SanctuaryCard>)
    requires
        is_base_sanctuary_deck(base),
        is_shuffle_of(sd, base),
    ensures
        sd.len() == 45,
        forall|i: int| 0 <= i < sd.len() ==> sanctuary_bounded(#[trigger] sd[i]),
{
    sd.to_multiset_ensures();
    base.to_multiset_ensures();
    assert forall|i: int| 0 <= i < sd.len() implies sanctuary_bounded(#[trigger] sd[i]) by {
        assert(sd.contains(sd[i]));
        assert(base.to_multiset().count(sd[i]) > 0);
        let k = choose|k: int| 0 <= k < base.len() && base[k] == sd[i];
        assert(sanctuary_bounded(base[k]));
    }
}

} // verus!
