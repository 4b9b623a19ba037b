//! Cards and hands as words of 32 bits, their point values and the rule
//! that decides a trick.
use crate::bits::{
    is_card, lemma_lowest, lemma_sum_card, lemma_sum_empty, lemma_sum_remove, lemma_sum_split,
    lemma_sum_subset, lowest, lowest_card, sum_upto,
};
use crate::bits::{leading_bit, top_position};
use vstd::prelude::*;

verus! {

/// The four jacks.
pub const GRAND_MASK: u32 = 0xF000_0000;

/// The seven cards of clubs below the jack.
pub const KREUZ_MASK: u32 = 0x0FE0_0000;

/// The seven cards of spades below the jack.
pub const PIQUS_MASK: u32 = 0x001F_C000;

/// The seven cards of hearts below the jack.
pub const HEARTS_MASK: u32 = 0x0000_3F80;

/// The seven cards of diamonds below the jack.
pub const KARO_MASK: u32 = 0x0000_007F;

pub const KREUZ_TRUMPF_MASK: u32 = 0xFFE0_0000;

pub const PIQUS_TRUMPF_MASK: u32 = 0xF01F_C000;

pub const HEARTS_TRUMPF_MASK: u32 = 0xF000_3F80;

pub const KARO_TRUMPF_MASK: u32 = 0xF000_007F;

pub const SEVEN_MASK: u32 = 0x0020_4081;

pub const EIGHT_MASK: u32 = 0x0040_8102;

pub const NINE_MASK: u32 = 0x0081_0204;

pub const SEVEN_OR_EIGHT_OR_NINE: u32 = 0x00E1_C387;

pub const QUEEN_MASK: u32 = 0x0102_0408;

pub const KING_MASK: u32 = 0x0204_0810;

pub const TEN_MASK: u32 = 0x0408_1020;

pub const ACE_MASK: u32 = 0x0810_2040;

pub const EMPTY_CARD: u32 = 0;

pub const KREUZ_JACK: u32 = 0x8000_0000;

pub const PIQUS_JACK: u32 = 0x4000_0000;

pub const HEARTS_JACK: u32 = 0x2000_0000;

pub const KARO_JACK: u32 = 0x1000_0000;

pub const KREUZ_ASS: u32 = 0x0800_0000;

pub const KREUZ_TEN: u32 = 0x0400_0000;

pub const KREUZ_KING: u32 = 0x0200_0000;

pub const KREUZ_QUEEN: u32 = 0x0100_0000;

pub const KREUZ_NINE: u32 = 0x0080_0000;

pub const KREUZ_EIGHT: u32 = 0x0040_0000;

pub const KREUZ_SEVEN: u32 = 0x0020_0000;

pub const PIQUS_ASS: u32 = 0x0010_0000;

pub const PIQUS_TEN: u32 = 0x0008_0000;

pub const PIQUS_KING: u32 = 0x0004_0000;

pub const PIQUS_QUEEN: u32 = 0x0002_0000;

pub const PIQUS_NINE: u32 = 0x0001_0000;

pub const PIQUS_EIGHT: u32 = 0x0000_8000;

pub const PIQUS_SEVEN: u32 = 0x0000_4000;

pub const HEARTS_ASS: u32 = 0x0000_2000;

pub const HEARTS_TEN: u32 = 0x0000_1000;

pub const HEARTS_KING: u32 = 0x0000_0800;

pub const HEARTS_QUEEN: u32 = 0x0000_0400;

pub const HEARTS_NINE: u32 = 0x0000_0200;

pub const HEARTS_EIGHT: u32 = 0x0000_0100;

pub const HEARTS_SEVEN: u32 = 0x0000_0080;

pub const KARO_ASS: u32 = 0x0000_0040;

pub const KARO_TEN: u32 = 0x0000_0020;

pub const KARO_KING: u32 = 0x0000_0010;

pub const KARO_QUEEN: u32 = 0x0000_0008;

pub const KARO_NINE: u32 = 0x0000_0004;

pub const KARO_EIGHT: u32 = 0x0000_0002;

pub const KARO_SEVEN: u32 = 0x0000_0001;

/// The four cards of one rank below the jack; rank 1 is the seven, then
/// eight, nine, queen, king, ten, and rank 7 the ace.
pub open spec fn rank_mask(rank: u32) -> u32 {
    (1u32 << ((20 + rank) as u32)) | (1u32 << ((13 + rank) as u32)) | (1u32 << ((6 + rank) as u32))
        | (1u32 << ((rank - 1) as u32))
}

/// The cards at the positions from `lower` up to, but without, `upper`.
pub open spec fn range_mask(lower: u32, upper: u32) -> u32 {
    ((((1u32 << ((upper - lower) as u32)) - 1) as u32) << lower)
}

/// The four cards of a rank below the jack; see `rank_mask`.
pub fn get_binary_mask_for_rank(rank: u32) -> (mask: u32)
    requires
        1 <= rank <= 7,
    ensures
        mask == rank_mask(rank),
{
    (1u32 << (21 + (rank - 1))) | (1u32 << (14 + (rank - 1))) | (1u32 << (7 + (rank - 1))) | (1u32 << (rank - 1))
}

/// The cards at the positions of a range; see `range_mask`.
pub fn get_binary_mask_for_colors(lower: u32, upper: u32) -> (mask: u32)
    requires
        lower < upper <= 32,
        upper - lower < 32,
    ensures
        mask == range_mask(lower, upper),
{
    let width: u32 = upper - lower;
    let ones: u32 = 1u32 << width;
    assert(ones >= 1) by (bit_vector)
        requires
            ones == 1u32 << width,
            width < 32,
    ;
    (ones - 1) << lower
}

/// The kinds of game. Only Grand and the four suit games are played by
/// the solver; the Null games have no trump and no solver.
#[derive(Clone, Copy, Debug, PartialEq, Eq, Structural)]
pub enum Variant {
    Grand,
    Clubs,
    Spades,
    Hearts,
    Diamonds,
    Null,
    NullHand,
    NullOuvert,
    NullOuvertHand,
}

/// The trump cards of a game: the jacks, and in a suit game the suit.
/// A Null game has none.
pub open spec fn trump_mask(variant: Variant) -> u32 {
    match variant {
        Variant::Grand => GRAND_MASK,
        Variant::Clubs => KREUZ_MASK | GRAND_MASK,
        Variant::Spades => PIQUS_MASK | GRAND_MASK,
        Variant::Hearts => HEARTS_MASK | GRAND_MASK,
        Variant::Diamonds => KARO_MASK | GRAND_MASK,
        _ => 0,
    }
}

impl Variant {
    /// Grand or a suit game.
    pub open spec fn has_trump(self) -> bool {
        self == Variant::Grand || self == Variant::Clubs || self == Variant::Spades || self
            == Variant::Hearts || self == Variant::Diamonds
    }

    pub fn is_trump_game(&self) -> (b: bool)
        ensures
            b == self.has_trump(),
    {
        match self {
            Variant::Grand | Variant::Clubs | Variant::Spades | Variant::Hearts | Variant::Diamonds => true,
            _ => false,
        }
    }

    pub fn get_binary_mask(&self) -> (mask: u32)
        requires
            self.has_trump(),
        ensures
            mask == trump_mask(*self),
            mask & GRAND_MASK == GRAND_MASK,
    {
        proof {
            lemma_trump_masks();
        }
        match self {
            Variant::Grand => GRAND_MASK,
            Variant::Diamonds => KARO_MASK | GRAND_MASK,
            Variant::Hearts => HEARTS_MASK | GRAND_MASK,
            Variant::Spades => PIQUS_MASK | GRAND_MASK,
            _ => KREUZ_MASK | GRAND_MASK,
        }
    }

    /// The game with the given code: 0 Grand, 1 Clubs, 2 Spades, 3 Hearts,
    /// 4 Diamonds.
    pub fn from_code(value: u8) -> (r: Option<Variant>)
        ensures
            r == (match value {
                0 => Some(Variant::Grand),
                1 => Some(Variant::Clubs),
                2 => Some(Variant::Spades),
                3 => Some(Variant::Hearts),
                4 => Some(Variant::Diamonds),
                _ => None::<Variant>,
            }),
    {
        match value {
            0 => Some(Variant::Grand),
            1 => Some(Variant::Clubs),
            2 => Some(Variant::Spades),
            3 => Some(Variant::Hearts),
            4 => Some(Variant::Diamonds),
            _ => None,
        }
    }

    /// The code of a game that has trumps: 0 Grand, 1 Clubs, 2 Spades,
    /// 3 Hearts, 4 Diamonds.
    pub fn code(&self) -> (value: u8)
        requires
            self.has_trump(),
        ensures
            value <= 4,
            Some(*self) == (match value {
                0 => Some(Variant::Grand),
                1 => Some(Variant::Clubs),
                2 => Some(Variant::Spades),
                3 => Some(Variant::Hearts),
                _ => Some(Variant::Diamonds),
            }),
    {
        match self {
            Variant::Grand => 0,
            Variant::Clubs => 1,
            Variant::Spades => 2,
            Variant::Hearts => 3,
            _ => 4,
        }
    }

    /// The base value of the game in the auction.
    pub fn value(&self) -> (v: u32)
        ensures
            v == (match *self {
                Variant::Grand => 24u32,
                Variant::NullHand => 35u32,
                Variant::NullOuvert => 35u32,
                Variant::NullOuvertHand => 46u32,
                Variant::Null => 23u32,
                Variant::Diamonds => 9u32,
                Variant::Hearts => 10u32,
                Variant::Spades => 11u32,
                Variant::Clubs => 12u32,
            }),
    {
        match self {
            Variant::Grand => 24,
            Variant::NullHand => 35,
            Variant::NullOuvert => 35,
            Variant::NullOuvertHand => 46,
            Variant::Null => 23,
            Variant::Diamonds => 9,
            Variant::Hearts => 10,
            Variant::Spades => 11,
            Variant::Clubs => 12,
        }
    }
}

/// The trumps of each game hold the jacks, and the masks that are
/// written out are the unions they stand for.
pub proof fn lemma_trump_masks()
    by (bit_vector)
    ensures
        GRAND_MASK & GRAND_MASK == GRAND_MASK,
        (KREUZ_MASK | GRAND_MASK) & GRAND_MASK == GRAND_MASK,
        (PIQUS_MASK | GRAND_MASK) & GRAND_MASK == GRAND_MASK,
        (HEARTS_MASK | GRAND_MASK) & GRAND_MASK == GRAND_MASK,
        (KARO_MASK | GRAND_MASK) & GRAND_MASK == GRAND_MASK,
        KREUZ_MASK | GRAND_MASK == KREUZ_TRUMPF_MASK,
        PIQUS_MASK | GRAND_MASK == PIQUS_TRUMPF_MASK,
        HEARTS_MASK | GRAND_MASK == HEARTS_TRUMPF_MASK,
        KARO_MASK | GRAND_MASK == KARO_TRUMPF_MASK,
        SEVEN_MASK | EIGHT_MASK | NINE_MASK == SEVEN_OR_EIGHT_OR_NINE,
{
}

/// The points of a card: jack 2, ace 11, ten 10, king 4, queen 3, and
/// nothing for nine, eight and seven. A word of several cards has the
/// points of the first rank in this order that it holds.
pub open spec fn card_value(c: u32) -> nat {
    if c & GRAND_MASK != 0 {
        2
    } else if c & SEVEN_OR_EIGHT_OR_NINE != 0 {
        0
    } else if c & TEN_MASK != 0 {
        10
    } else if c & QUEEN_MASK != 0 {
        3
    } else if c & KING_MASK != 0 {
        4
    } else if c & ACE_MASK != 0 {
        11
    } else {
        0
    }
}

/// The weight that gives each card its points.
pub open spec fn point_weight() -> spec_fn(u32) -> nat {
    |c: u32| card_value(c)
}

/// The points of all cards of a set together.
pub open spec fn points(w: u32) -> nat {
    sum_upto(w, 32, point_weight())
}

/// The suit of a card that is no jack; a jack counts as diamonds here.
pub open spec fn color_mask(c: u32) -> u32 {
    if c & KREUZ_MASK != 0 {
        KREUZ_MASK
    } else if c & PIQUS_MASK != 0 {
        PIQUS_MASK
    } else if c & HEARTS_MASK != 0 {
        HEARTS_MASK
    } else {
        KARO_MASK
    }
}

/// Whether card `a`, already on the table, stays ahead of card `b`: with a
/// trump among the two the higher trump is ahead, otherwise `b` must follow
/// the suit of `a` with a higher card to pass it.
pub open spec fn stronger(a: u32, b: u32, trump: u32) -> bool {
    if a & trump != 0 || b & trump != 0 {
        a & trump > b & trump
    } else {
        a > b & color_mask(a)
    }
}

/// The greatest of three words.
pub open spec fn max3(a: u32, b: u32, c: u32) -> u32 {
    if a >= b && a >= c {
        a
    } else if b >= c {
        b
    } else {
        c
    }
}

/// The card that takes the trick in which `first` was led: the highest
/// trump if there is one, otherwise the highest card of the suit led.
pub open spec fn trick_winner(first: u32, second: u32, third: u32, trump: u32) -> u32 {
    if (first | second | third) & trump == 0 {
        max3(first, second & color_mask(first), third & color_mask(first))
    } else {
        max3(first & trump, second & trump, third & trump)
    }
}

/// The points that lie in a trick.
pub open spec fn trick_points(first: u32, second: u32, third: u32) -> nat {
    card_value(first) + card_value(second) + card_value(third)
}



/// The empty word has no rank, so no points.
pub proof fn lemma_value_of_none()
    by (bit_vector)
    ensures
        0u32 & GRAND_MASK == 0,
        0u32 & SEVEN_OR_EIGHT_OR_NINE == 0,
        0u32 & TEN_MASK == 0,
        0u32 & QUEEN_MASK == 0,
        0u32 & KING_MASK == 0,
        0u32 & ACE_MASK == 0,
{
}

/// Every card has one of the values 0, 2, 3, 4, 10 and 11, and no card
/// has none of the ranks.
pub proof fn lemma_card_ranks(c: u32)
    by (bit_vector)
    requires
        c != 0,
    ensures
        c & GRAND_MASK != 0 || c & SEVEN_OR_EIGHT_OR_NINE != 0 || c & TEN_MASK != 0 || c
            & QUEEN_MASK != 0 || c & KING_MASK != 0 || c & ACE_MASK != 0,
{
}

proof fn lemma_deck_cards()
    by (bit_vector)
    ensures
        0xFFFF_FFFFu32 & (1u32 << 0u32) == KARO_SEVEN,
        0xFFFF_FFFFu32 & (1u32 << 1u32) == KARO_EIGHT,
        0xFFFF_FFFFu32 & (1u32 << 2u32) == KARO_NINE,
        0xFFFF_FFFFu32 & (1u32 << 3u32) == KARO_QUEEN,
        0xFFFF_FFFFu32 & (1u32 << 4u32) == KARO_KING,
        0xFFFF_FFFFu32 & (1u32 << 5u32) == KARO_TEN,
        0xFFFF_FFFFu32 & (1u32 << 6u32) == KARO_ASS,
        0xFFFF_FFFFu32 & (1u32 << 7u32) == HEARTS_SEVEN,
        0xFFFF_FFFFu32 & (1u32 << 8u32) == HEARTS_EIGHT,
        0xFFFF_FFFFu32 & (1u32 << 9u32) == HEARTS_NINE,
        0xFFFF_FFFFu32 & (1u32 << 10u32) == HEARTS_QUEEN,
        0xFFFF_FFFFu32 & (1u32 << 11u32) == HEARTS_KING,
        0xFFFF_FFFFu32 & (1u32 << 12u32) == HEARTS_TEN,
        0xFFFF_FFFFu32 & (1u32 << 13u32) == HEARTS_ASS,
        0xFFFF_FFFFu32 & (1u32 << 14u32) == PIQUS_SEVEN,
        0xFFFF_FFFFu32 & (1u32 << 15u32) == PIQUS_EIGHT,
        0xFFFF_FFFFu32 & (1u32 << 16u32) == PIQUS_NINE,
        0xFFFF_FFFFu32 & (1u32 << 17u32) == PIQUS_QUEEN,
        0xFFFF_FFFFu32 & (1u32 << 18u32) == PIQUS_KING,
        0xFFFF_FFFFu32 & (1u32 << 19u32) == PIQUS_TEN,
        0xFFFF_FFFFu32 & (1u32 << 20u32) == PIQUS_ASS,
        0xFFFF_FFFFu32 & (1u32 << 21u32) == KREUZ_SEVEN,
        0xFFFF_FFFFu32 & (1u32 << 22u32) == KREUZ_EIGHT,
        0xFFFF_FFFFu32 & (1u32 << 23u32) == KREUZ_NINE,
        0xFFFF_FFFFu32 & (1u32 << 24u32) == KREUZ_QUEEN,
        0xFFFF_FFFFu32 & (1u32 << 25u32) == KREUZ_KING,
        0xFFFF_FFFFu32 & (1u32 << 26u32) == KREUZ_TEN,
        0xFFFF_FFFFu32 & (1u32 << 27u32) == KREUZ_ASS,
        0xFFFF_FFFFu32 & (1u32 << 28u32) == KARO_JACK,
        0xFFFF_FFFFu32 & (1u32 << 29u32) == HEARTS_JACK,
        0xFFFF_FFFFu32 & (1u32 << 30u32) == PIQUS_JACK,
        0xFFFF_FFFFu32 & (1u32 << 31u32) == KREUZ_JACK,
{
}

proof fn lemma_named_values()
    by (bit_vector)
    ensures
        KARO_SEVEN & GRAND_MASK == 0 && KARO_SEVEN & SEVEN_OR_EIGHT_OR_NINE != 0,
        KARO_EIGHT & GRAND_MASK == 0 && KARO_EIGHT & SEVEN_OR_EIGHT_OR_NINE != 0,
        KARO_NINE & GRAND_MASK == 0 && KARO_NINE & SEVEN_OR_EIGHT_OR_NINE != 0,
        HEARTS_SEVEN & GRAND_MASK == 0 && HEARTS_SEVEN & SEVEN_OR_EIGHT_OR_NINE != 0,
        HEARTS_EIGHT & GRAND_MASK == 0 && HEARTS_EIGHT & SEVEN_OR_EIGHT_OR_NINE != 0,
        HEARTS_NINE & GRAND_MASK == 0 && HEARTS_NINE & SEVEN_OR_EIGHT_OR_NINE != 0,
        PIQUS_SEVEN & GRAND_MASK == 0 && PIQUS_SEVEN & SEVEN_OR_EIGHT_OR_NINE != 0,
        PIQUS_EIGHT & GRAND_MASK == 0 && PIQUS_EIGHT & SEVEN_OR_EIGHT_OR_NINE != 0,
        PIQUS_NINE & GRAND_MASK == 0 && PIQUS_NINE & SEVEN_OR_EIGHT_OR_NINE != 0,
        KREUZ_SEVEN & GRAND_MASK == 0 && KREUZ_SEVEN & SEVEN_OR_EIGHT_OR_NINE != 0,
        KREUZ_EIGHT & GRAND_MASK == 0 && KREUZ_EIGHT & SEVEN_OR_EIGHT_OR_NINE != 0,
        KREUZ_NINE & GRAND_MASK == 0 && KREUZ_NINE & SEVEN_OR_EIGHT_OR_NINE != 0,
        KARO_QUEEN & (GRAND_MASK | SEVEN_OR_EIGHT_OR_NINE | TEN_MASK) == 0 && KARO_QUEEN
            & QUEEN_MASK != 0,
        HEARTS_QUEEN & (GRAND_MASK | SEVEN_OR_EIGHT_OR_NINE | TEN_MASK) == 0 && HEARTS_QUEEN
            & QUEEN_MASK != 0,
        PIQUS_QUEEN & (GRAND_MASK | SEVEN_OR_EIGHT_OR_NINE | TEN_MASK) == 0 && PIQUS_QUEEN
            & QUEEN_MASK != 0,
        KREUZ_QUEEN & (GRAND_MASK | SEVEN_OR_EIGHT_OR_NINE | TEN_MASK) == 0 && KREUZ_QUEEN
            & QUEEN_MASK != 0,
        KARO_KING & (GRAND_MASK | SEVEN_OR_EIGHT_OR_NINE | TEN_MASK | QUEEN_MASK) == 0 && KARO_KING
            & KING_MASK != 0,
        HEARTS_KING & (GRAND_MASK | SEVEN_OR_EIGHT_OR_NINE | TEN_MASK | QUEEN_MASK) == 0
            && HEARTS_KING & KING_MASK != 0,
        PIQUS_KING & (GRAND_MASK | SEVEN_OR_EIGHT_OR_NINE | TEN_MASK | QUEEN_MASK) == 0
            && PIQUS_KING & KING_MASK != 0,
        KREUZ_KING & (GRAND_MASK | SEVEN_OR_EIGHT_OR_NINE | TEN_MASK | QUEEN_MASK) == 0
            && KREUZ_KING & KING_MASK != 0,
        KARO_TEN & (GRAND_MASK | SEVEN_OR_EIGHT_OR_NINE) == 0 && KARO_TEN & TEN_MASK != 0,
        HEARTS_TEN & (GRAND_MASK | SEVEN_OR_EIGHT_OR_NINE) == 0 && HEARTS_TEN & TEN_MASK != 0,
        PIQUS_TEN & (GRAND_MASK | SEVEN_OR_EIGHT_OR_NINE) == 0 && PIQUS_TEN & TEN_MASK != 0,
        KREUZ_TEN & (GRAND_MASK | SEVEN_OR_EIGHT_OR_NINE) == 0 && KREUZ_TEN & TEN_MASK != 0,
        KARO_ASS & (GRAND_MASK | SEVEN_OR_EIGHT_OR_NINE | TEN_MASK | QUEEN_MASK | KING_MASK) == 0
            && KARO_ASS & ACE_MASK != 0,
        HEARTS_ASS & (GRAND_MASK | SEVEN_OR_EIGHT_OR_NINE | TEN_MASK | QUEEN_MASK | KING_MASK) == 0
            && HEARTS_ASS & ACE_MASK != 0,
        PIQUS_ASS & (GRAND_MASK | SEVEN_OR_EIGHT_OR_NINE | TEN_MASK | QUEEN_MASK | KING_MASK) == 0
            && PIQUS_ASS & ACE_MASK != 0,
        KREUZ_ASS & (GRAND_MASK | SEVEN_OR_EIGHT_OR_NINE | TEN_MASK | QUEEN_MASK | KING_MASK) == 0
            && KREUZ_ASS & ACE_MASK != 0,
        KARO_JACK & GRAND_MASK != 0,
        HEARTS_JACK & GRAND_MASK != 0,
        PIQUS_JACK & GRAND_MASK != 0,
        KREUZ_JACK & GRAND_MASK != 0,
        forall|c: u32, a: u32, b: u32| #![auto] c & (a | b) == 0 ==> c & a == 0 && c & b == 0,
{
}

/// The points of each card of the deck.
pub proof fn lemma_values_of_deck()
    ensures
        card_value(KARO_SEVEN) == 0 && card_value(KARO_EIGHT) == 0 && card_value(KARO_NINE) == 0,
        card_value(HEARTS_SEVEN) == 0 && card_value(HEARTS_EIGHT) == 0 && card_value(HEARTS_NINE)
            == 0,
        card_value(PIQUS_SEVEN) == 0 && card_value(PIQUS_EIGHT) == 0 && card_value(PIQUS_NINE)
            == 0,
        card_value(KREUZ_SEVEN) == 0 && card_value(KREUZ_EIGHT) == 0 && card_value(KREUZ_NINE)
            == 0,
        card_value(KARO_QUEEN) == 3 && card_value(HEARTS_QUEEN) == 3 && card_value(PIQUS_QUEEN)
            == 3 && card_value(KREUZ_QUEEN) == 3,
        card_value(KARO_KING) == 4 && card_value(HEARTS_KING) == 4 && card_value(PIQUS_KING) == 4
            && card_value(KREUZ_KING) == 4,
        card_value(KARO_TEN) == 10 && card_value(HEARTS_TEN) == 10 && card_value(PIQUS_TEN) == 10
            && card_value(KREUZ_TEN) == 10,
        card_value(KARO_ASS) == 11 && card_value(HEARTS_ASS) == 11 && card_value(PIQUS_ASS) == 11
            && card_value(KREUZ_ASS) == 11,
        card_value(KARO_JACK) == 2 && card_value(HEARTS_JACK) == 2 && card_value(PIQUS_JACK) == 2
            && card_value(KREUZ_JACK) == 2,
{
    lemma_named_values();
}

/// The 32 cards of the deck hold 120 points.
pub proof fn lemma_deck_points()
    ensures
        points(0xFFFF_FFFF) == 120,
{
    lemma_deck_cards();
    lemma_values_of_deck();
    reveal_with_fuel(sum_upto, 33);
}

/// No set of cards holds more than 120 points, and the empty set holds none.
pub proof fn lemma_points_bound(w: u32)
    ensures
        points(w) <= 120,
        points(0) == 0,
{
    lemma_value_of_none();
    lemma_deck_points();
    crate::bits::lemma_word(w);
    lemma_sum_subset(w, 0xFFFF_FFFF, point_weight());
    lemma_sum_empty(32, point_weight());
}

/// The points of two sets without a common card add up.
pub proof fn lemma_points_split(a: u32, b: u32)
    requires
        a & b == 0,
    ensures
        points(a | b) == points(a) + points(b),
{
    lemma_value_of_none();
    lemma_sum_split(a, b, 32, point_weight());
}

/// Taking a card out of a set takes its points out.
pub proof fn lemma_points_remove(w: u32, c: u32)
    requires
        is_card(c),
        c & w == c,
    ensures
        points(w) == points(w & !c) + card_value(c),
{
    lemma_value_of_none();
    lemma_sum_remove(w, c, point_weight());
}

/// The points of a set of one card are the points of the card.
pub proof fn lemma_points_card(c: u32)
    requires
        is_card(c),
    ensures
        points(c) == card_value(c),
{
    lemma_value_of_none();
    lemma_sum_card(c, point_weight());
}

/// A single card, or the empty word where no card has been played.
#[derive(Clone, Copy, PartialEq, Eq, Hash, Debug, Structural)]
pub struct BitCard(pub u32);

/// A set of cards.
#[derive(Clone, Copy, PartialEq, Eq, Hash, Debug, Structural)]
pub struct BitCards(pub u32);

impl core::ops::BitOr for BitCards {
    type Output = BitCards;

    fn bitor(self, rhs: BitCards) -> (ret: BitCards) {
        BitCards(self.0 | rhs.0)
    }
}

impl vstd::std_specs::ops::BitOrSpecImpl for BitCards {
    open spec fn obeys_bitor_spec() -> bool {
        true
    }

    open spec fn bitor_req(self, rhs: BitCards) -> bool {
        true
    }

    open spec fn bitor_spec(self, rhs: BitCards) -> BitCards {
        BitCards(self.0 | rhs.0)
    }
}

impl core::ops::BitOr<BitCard> for BitCards {
    type Output = BitCards;

    fn bitor(self, rhs: BitCard) -> (ret: BitCards) {
        BitCards(self.0 | rhs.0)
    }
}

impl vstd::std_specs::ops::BitOrSpecImpl<BitCard> for BitCards {
    open spec fn obeys_bitor_spec() -> bool {
        true
    }

    open spec fn bitor_req(self, rhs: BitCard) -> bool {
        true
    }

    open spec fn bitor_spec(self, rhs: BitCard) -> BitCards {
        BitCards(self.0 | rhs.0)
    }
}

impl core::ops::BitAnd for BitCards {
    type Output = BitCards;

    fn bitand(self, rhs: BitCards) -> (ret: BitCards) {
        BitCards(self.0 & rhs.0)
    }
}

impl vstd::std_specs::ops::BitAndSpecImpl for BitCards {
    open spec fn obeys_bitand_spec() -> bool {
        true
    }

    open spec fn bitand_req(self, rhs: BitCards) -> bool {
        true
    }

    open spec fn bitand_spec(self, rhs: BitCards) -> BitCards {
        BitCards(self.0 & rhs.0)
    }
}

impl core::ops::BitOr for BitCard {
    type Output = BitCards;

    fn bitor(self, rhs: BitCard) -> (ret: BitCards) {
        BitCards(self.0 | rhs.0)
    }
}

impl vstd::std_specs::ops::BitOrSpecImpl for BitCard {
    open spec fn obeys_bitor_spec() -> bool {
        true
    }

    open spec fn bitor_req(self, rhs: BitCard) -> bool {
        true
    }

    open spec fn bitor_spec(self, rhs: BitCard) -> BitCards {
        BitCards(self.0 | rhs.0)
    }
}

impl BitCards {
    /// The lowest card of the set, the empty card for the empty set.
    pub fn get_next_card_in_binary(&self) -> (card: BitCard)
        ensures
            card.0 == lowest(self.0),
            self.0 != 0 ==> is_card(card.0) && card.0 & self.0 == card.0,
    {
        BitCard(lowest_card(self.0))
    }

    /// Takes the lowest card out of the set and returns it; `None` once
    /// the set is empty.
    pub fn next(&mut self) -> (card: Option<BitCard>)
        ensures
            old(self).0 == 0 ==> card.is_none() && final(self).0 == 0,
            old(self).0 != 0 ==> card == Some(BitCard(lowest(old(self).0))) && final(self).0
                == old(self).0 & !lowest(old(self).0),
    {
        if self.0 == 0 {
            return None;
        }
        let next_card = self.get_next_card_in_binary();
        self.0 = self.0 & !next_card.0;
        Some(next_card)
    }

    /// The points of all cards of the set.
    pub fn get_cards_points(&self) -> (total: u8)
        ensures
            total == points(self.0),
            total <= 120,
    {
        let mut rest: u32 = self.0;
        let mut total: u8 = 0;
        proof {
            lemma_points_bound(self.0);
        }
        while rest != 0
            invariant
                total + points(rest) == points(self.0),
                points(self.0) <= 120,
            decreases rest,
        {
            let card = BitCard(lowest_card(rest));
            proof {
                lemma_lowest(rest);
                lemma_points_remove(rest, card.0);
            }
            total = total + card.get_point();
            rest = rest & !card.0;
        }
        proof {
            lemma_points_bound(0);
        }
        total
    }
}

impl BitCard {
    /// The suit of the card; see `color_mask`.
    pub fn get_color_mask(&self) -> (mask: u32)
        ensures
            mask == color_mask(self.0),
    {
        if self.0 & KREUZ_MASK != 0 {
            return KREUZ_MASK;
        } else if self.0 & PIQUS_MASK != 0 {
            return PIQUS_MASK;
        } else if self.0 & HEARTS_MASK != 0 {
            return HEARTS_MASK;
        }
        KARO_MASK
    }

    /// The points of the card.
    pub fn get_point(&self) -> (value: u8)
        requires
            self.0 != 0,
        ensures
            value == card_value(self.0),
            value <= 11,
    {
        if self.0 & GRAND_MASK != 0 {
            return 2;
        }
        if self.0 & SEVEN_OR_EIGHT_OR_NINE != 0 {
            return 0;
        }
        if self.0 & TEN_MASK != 0 {
            return 10;
        }
        if self.0 & QUEEN_MASK != 0 {
            return 3;
        }
        if self.0 & KING_MASK != 0 {
            return 4;
        }
        proof {
            lemma_card_ranks(self.0);
        }
        11
    }

    /// Whether this card, on the table, stays ahead of `other`.
    pub fn greater_than(&self, other: BitCard, variant: &Variant) -> (ahead: bool)
        requires
            variant.has_trump(),
        ensures
            ahead == stronger(self.0, other.0, trump_mask(*variant)),
    {
        let mask = variant.get_binary_mask();
        let card1 = self.0 & mask;
        let card2 = other.0 & mask;
        if card1 != 0 || card2 != 0 {
            return card1 > card2;
        }
        let other = other.0 & self.get_color_mask();
        self.0 > other
    }
}

/// The card that takes the trick and the points that lie in it.
pub fn calculate_who_won_better(
    first: BitCard,
    second: BitCard,
    third: BitCard,
    variant: &Variant,
) -> (result: (BitCard, u8))
    requires
        variant.has_trump(),
        first.0 != 0,
        second.0 != 0,
        third.0 != 0,
    ensures
        result.0.0 == trick_winner(first.0, second.0, third.0, trump_mask(*variant)),
        result.1 == trick_points(first.0, second.0, third.0),
{
    let points = first.get_point() + second.get_point() + third.get_point();
    let mask = variant.get_binary_mask();
    let first_tr = first.0 & mask;
    let second_tr = second.0 & mask;
    let third_tr = third.0 & mask;
    proof {
        lemma_masked_union(first.0, second.0, third.0, mask);
    }
    if (first_tr | second_tr | third_tr) == 0 {
        let second_col = second.0 & first.get_color_mask();
        let third_col = third.0 & first.get_color_mask();
        return (BitCard(largest(first.0, second_col, third_col)), points);
    }
    (BitCard(largest(first_tr, second_tr, third_tr)), points)
}

proof fn lemma_masked_union(a: u32, b: u32, c: u32, mask: u32)
    by (bit_vector)
    ensures
        (a | b | c) & mask == 0 <==> (a & mask) | (b & mask) | (c & mask) == 0,
{
}

fn largest(a: u32, b: u32, c: u32) -> (m: u32)
    ensures
        m == max3(a, b, c),
{
    if a >= b && a >= c {
        a
    } else if b >= c {
        b
    } else {
        c
    }
}


proof fn lemma_low_ranks(w: u32, b: u32)
    by (bit_vector)
    requires
        w & !SEVEN_OR_EIGHT_OR_NINE == 0,
    ensures
        (w & b) & GRAND_MASK == 0,
        (w & b) & SEVEN_OR_EIGHT_OR_NINE != 0 || ((w & b) & TEN_MASK == 0 && (w & b) & QUEEN_MASK
            == 0 && (w & b) & KING_MASK == 0 && (w & b) & ACE_MASK == 0),
{
}

/// Sevens, eights and nines hold no points.
pub proof fn lemma_no_points(w: u32)
    requires
        w & !SEVEN_OR_EIGHT_OR_NINE == 0,
    ensures
        points(w) == 0,
{
    assert forall|i: nat| i < 32 implies point_weight()(w & #[trigger] crate::bits::bit(i)) == 0 by {
        lemma_low_ranks(w, crate::bits::bit(i));
    }
    crate::bits::lemma_sum_zero(w, 32, point_weight());
}


/// The name of a rank below the jack by its place in a suit, from the
/// seven (0) up to the ace (6).
pub open spec fn rank_name(rank: int) -> Seq<char> {
    if rank == 0 {
        "7"@
    } else if rank == 1 {
        "8"@
    } else if rank == 2 {
        "9"@
    } else if rank == 3 {
        "Dame"@
    } else if rank == 4 {
        "König"@
    } else if rank == 5 {
        "10"@
    } else {
        "Ass"@
    }
}

/// The name of the suit of a jack by its place among the jacks, from
/// diamonds (0) up to clubs (3).
pub open spec fn jack_suit_name(jack: int) -> Seq<char> {
    if jack == 0 {
        "Karo"@
    } else if jack == 1 {
        "Hearts"@
    } else if jack == 2 {
        "Piqus"@
    } else {
        "Kreuz"@
    }
}

/// The name of the card at a position, and "No card" for the empty card.
pub open spec fn human_name(c: u32) -> Seq<char> {
    let position = top_position(c);
    if c == 0 {
        "No card"@
    } else if position >= 28 {
        "Jack"@ + " of "@ + jack_suit_name(position - 28)
    } else if position >= 21 {
        rank_name(position - 21) + " of "@ + "Kreuz"@
    } else if position >= 14 {
        rank_name(position - 14) + " of "@ + "Piqus"@
    } else if position >= 7 {
        rank_name(position - 7) + " of "@ + "Hearts"@
    } else {
        rank_name(position) + " of "@ + "Karo"@
    }
}

/// `format!` with two names and " of " between them.
#[verifier::external_body]
fn join_names(first: &str, second: &str) -> (name: String)
    ensures
        name@ == first@ + " of "@ + second@,
{
    format!("{} of {}", first, second)
}

impl BitCard {
    /// The position of the card, from 0 for the seven of diamonds up to 31
    /// for the jack of clubs.
    pub fn get_numerical_representation(&self) -> (position: u32)
        requires
            self.0 != 0,
        ensures
            position == top_position(self.0),
            position < 32,
    {
        leading_bit(self.0)
    }

    /// The name of the card.
    pub fn get_human_representation(&self) -> (name: String)
        ensures
            name@ == human_name(self.0),
    {
        if self.0 == 0 {
            return "No card".to_owned();
        }
        let numerical_representation = self.get_numerical_representation();
        if numerical_representation >= 28 {
            join_names("Jack", Self::calculate_which_suit_jack(numerical_representation - 28))
        } else if numerical_representation >= 21 {
            join_names(Self::calculate_which_rank(numerical_representation - 21), "Kreuz")
        } else if numerical_representation >= 14 {
            join_names(Self::calculate_which_rank(numerical_representation - 14), "Piqus")
        } else if numerical_representation >= 7 {
            join_names(Self::calculate_which_rank(numerical_representation - 7), "Hearts")
        } else {
            join_names(Self::calculate_which_rank(numerical_representation), "Karo")
        }
    }

    pub fn calculate_which_rank(rank: u32) -> (name: &'static str)
        requires
            rank <= 6,
        ensures
            name@ == rank_name(rank as int),
    {
        match rank {
            0 => "7",
            1 => "8",
            2 => "9",
            3 => "Dame",
            4 => "König",
            5 => "10",
            _ => "Ass",
        }
    }

    pub fn calculate_which_suit_jack(jack: u32) -> (name: &'static str)
        requires
            jack <= 3,
        ensures
            name@ == jack_suit_name(jack as int),
    {
        match jack {
            0 => "Karo",
            1 => "Hearts",
            2 => "Piqus",
            _ => "Kreuz",
        }
    }
}

/// The set of the cards at the given positions.
pub open spec fn cards_at(positions: Seq<u32>) -> u32
    decreases positions.len(),
{
    if positions.len() == 0 {
        0
    } else {
        cards_at(positions.drop_last()) | (1u32 << positions.last())
    }
}

/// The set of the cards at the given positions, each below 32.
pub fn create_cards(cards: &[u32]) -> (set: BitCards)
    requires
        forall|i: int| 0 <= i < cards@.len() ==> cards@[i] < 32,
    ensures
        set.0 == cards_at(cards@),
{
    let mut empty = BitCards(0);
    let mut i: usize = 0;
    while i < cards.len()
        invariant
            i <= cards@.len(),
            forall|k: int| 0 <= k < cards@.len() ==> cards@[k] < 32,
            empty.0 == cards_at(cards@.take(i as int)),
        decreases cards@.len() - i,
    {
        proof {
            assert(cards@.take(i + 1).drop_last() =~= cards@.take(i as int));
        }
        empty = empty | BitCard(1u32 << cards[i]);
        i = i + 1;
    }
    proof {
        assert(cards@.take(i as int) =~= cards@);
    }
    empty
}

} // verus!
