//! The facts of one game that never change while it is played, and the
//! small rules that the search is built from.
use crate::bitboard::{
    BitCard, BitCards, color_mask, lemma_points_bound, points, stronger, trick_points, trump_mask,
};
use crate::bits::{
    count, count_cards, lemma_count_card, lemma_count_complement, lemma_count_remove,
    lemma_count_split, lemma_count_zero, lemma_lowest, lemma_remove, lowest, lowest_card,
};
use vstd::prelude::*;

pub use crate::bitboard::Variant;

pub mod bitstates;
pub mod buffer;
pub mod concurrent;
pub mod fx_table;
pub mod laws;
pub mod rules;
pub mod synchronus;

verus! {

/// One of the three players; after the third it is the first one's turn.
#[derive(PartialEq, Eq, Clone, Copy, Debug, Hash, Structural)]
pub enum Player {
    One,
    Two,
    Three,
}

impl Player {
    /// The player who acts after this one.
    pub open spec fn next(self) -> Player {
        match self {
            Player::One => Player::Two,
            Player::Two => Player::Three,
            Player::Three => Player::One,
        }
    }

    pub fn get_next_player(&self) -> (next: Player)
        ensures
            next == self.next(),
    {
        match self {
            Player::One => Player::Two,
            Player::Two => Player::Three,
            Player::Three => Player::One,
        }
    }

    /// The player with the given code: 0, 1 or 2.
    pub fn from_code(value: u8) -> (r: Option<Player>)
        ensures
            r == (match value {
                0 => Some(Player::One),
                1 => Some(Player::Two),
                2 => Some(Player::Three),
                _ => None::<Player>,
            }),
    {
        match value {
            0 => Some(Player::One),
            1 => Some(Player::Two),
            2 => Some(Player::Three),
            _ => None,
        }
    }

    /// The code of the player: 0, 1 or 2.
    pub fn code(&self) -> (value: u8)
        ensures
            Some(*self) == (match value {
                0 => Some(Player::One),
                1 => Some(Player::Two),
                2 => Some(Player::Three),
                _ => None::<Player>,
            }),
    {
        match self {
            Player::One => 0,
            Player::Two => 1,
            Player::Three => 2,
        }
    }
}

/// Why a deal is refused.
#[derive(PartialEq, Eq, Clone, Copy, Debug, Structural)]
pub enum DealError {
    /// The game is one of the Null games.
    NotImplemented,
    /// Two hands share a card.
    OverlappingHands,
    /// The skat shares a card with a hand, or holds neither two cards nor none.
    InvalidSkat,
    /// With a skat the hands do not hold the other 30 cards, or without
    /// one they leave fewer than two cards free.
    CardCount,
}

/// What is fixed for one game: the hands as dealt, the skat, the player
/// who plays alone and the kind of game.
///
/// A deal that is a part of a game comes without a skat: `skat` is then
/// empty. A solver that marks the player to move in its keys by cards of
/// the skat puts the two lowest cards that are in no hand in its place
/// (`with_marks`); `skat_points` stays 0.
#[derive(Clone, Copy, Debug)]
pub struct GlobalState {
    pub player_cards: (BitCards, BitCards, BitCards),
    pub skat: BitCards,
    pub alone_player: Player,
    pub variant: Variant,
    pub skat_points: u8,
}

/// The two lowest cards outside `hands`.
pub open spec fn spare_cards(hands: u32) -> u32 {
    lowest(!hands) | lowest(!hands & !lowest(!hands))
}

/// The reason for which a deal is refused, if there is one.
pub open spec fn deal_error(player_cards: (BitCards, BitCards, BitCards), skat: BitCards, variant: Variant) -> Option<DealError> {
    let a = player_cards.0.0;
    let b = player_cards.1.0;
    let c = player_cards.2.0;
    if !variant.has_trump() {
        Some(DealError::NotImplemented)
    } else if a & b != 0 || a & c != 0 || b & c != 0 {
        Some(DealError::OverlappingHands)
    } else if skat.0 & (a | b | c) != 0 || (count(skat.0) != 0 && count(skat.0) != 2) {
        Some(DealError::InvalidSkat)
    } else if (skat.0 != 0 && count(a | b | c) != 30) || (skat.0 == 0 && count(a | b | c) > 30) {
        Some(DealError::CardCount)
    } else {
        None
    }
}

impl GlobalState {
    /// The cards of all three hands.
    pub open spec fn hands(self) -> u32 {
        self.player_cards.0.0 | self.player_cards.1.0 | self.player_cards.2.0
    }

    /// The hand that was dealt to a player.
    pub open spec fn hand(self, player: Player) -> u32 {
        match player {
            Player::One => self.player_cards.0.0,
            Player::Two => self.player_cards.1.0,
            Player::Three => self.player_cards.2.0,
        }
    }

    /// No card lies in two places, the game has trumps, the skat has two
    /// cards or is empty with two cards outside the hands, and the points of
    /// the skat are those of its cards or none.
    pub open spec fn wf(self) -> bool {
        &&& self.variant.has_trump()
        &&& self.player_cards.0.0 & self.player_cards.1.0 == 0
        &&& self.player_cards.0.0 & self.player_cards.2.0 == 0
        &&& self.player_cards.1.0 & self.player_cards.2.0 == 0
        &&& self.skat.0 & self.hands() == 0
        &&& (count(self.skat.0) == 2 || (self.skat.0 == 0 && count(self.hands()) <= 30))
        &&& (self.skat_points == points(self.skat.0) || self.skat_points == 0)
    }

    /// The skat has two cards, which can mark the players in keys.
    pub open spec fn has_marks(self) -> bool {
        count(self.skat.0) == 2
    }

    /// The game with two cards in the skat: its own, or in place of an
    /// empty skat the two lowest cards outside the hands.
    pub open spec fn with_marks(self) -> GlobalState {
        GlobalState {
            player_cards: self.player_cards,
            skat: if self.skat.0 != 0 {
                self.skat
            } else {
                BitCards(spare_cards(self.hands()))
            },
            alone_player: self.alone_player,
            variant: self.variant,
            skat_points: self.skat_points,
        }
    }

    /// Checks a deal and keeps it. The hands must not overlap each other
    /// or the skat. A skat has two cards, and then the hands hold the other
    /// 30; a deal without a skat is a part of a game, and leaves at least
    /// two cards free.
    pub fn new(
        player_cards: (BitCards, BitCards, BitCards),
        skat: BitCards,
        alone_player: Player,
        variant: Variant,
    ) -> (r: Result<GlobalState, DealError>)
        ensures
            match r {
                Ok(g) => {
                    &&& deal_error(player_cards, skat, variant).is_none()
                    &&& g.wf()
                    &&& g.player_cards == player_cards
                    &&& g.alone_player == alone_player
                    &&& g.variant == variant
                    &&& g.skat == skat
                    &&& g.skat_points == points(skat.0)
                },
                Err(e) => deal_error(player_cards, skat, variant) == Some(e),
            },
    {
        let a = player_cards.0.0;
        let b = player_cards.1.0;
        let c = player_cards.2.0;
        if !variant.is_trump_game() {
            return Err(DealError::NotImplemented);
        }
        if a & b != 0 || a & c != 0 || b & c != 0 {
            return Err(DealError::OverlappingHands);
        }
        let hands: u32 = a | b | c;
        let in_skat = count_cards(skat.0);
        if skat.0 & hands != 0 || (in_skat != 0 && in_skat != 2) {
            return Err(DealError::InvalidSkat);
        }
        let dealt = count_cards(hands);
        proof {
            lemma_count_zero(skat.0);
            lemma_count_complement(hands);
        }
        if (skat.0 != 0 && dealt != 30) || (skat.0 == 0 && dealt > 30) {
            return Err(DealError::CardCount);
        }
        proof {
            lemma_points_bound(skat.0);
        }
        Ok(
            GlobalState {
                player_cards,
                skat,
                alone_player,
                variant,
                skat_points: skat.get_cards_points(),
            },
        )
    }

    /// The game with two cards in the skat, to mark the players in keys:
    /// in place of an empty skat the two lowest cards outside the hands.
    pub fn mark_players(self) -> (g: GlobalState)
        requires
            self.wf(),
        ensures
            g == self.with_marks(),
            g.wf(),
            g.has_marks(),
    {
        if self.skat.0 != 0 {
            proof {
                lemma_count_zero(self.skat.0);
            }
            return self;
        }
        let hands: u32 = self.player_cards.0.0 | self.player_cards.1.0 | self.player_cards.2.0;
        let free: u32 = !hands;
        proof {
            lemma_count_complement(hands);
            lemma_count_zero(free);
            lemma_points_bound(0);
        }
        let first = lowest_card(free);
        proof {
            lemma_lowest(free);
            lemma_count_remove(free, first);
            lemma_count_zero(free & !first);
            lemma_remove(free, first);
        }
        let second = lowest_card(free & !first);
        proof {
            lemma_lowest(free & !first);
            lemma_spare(hands, first, second);
            lemma_count_split(first, second);
            lemma_count_card(first);
            lemma_count_card(second);
        }
        GlobalState {
            player_cards: self.player_cards,
            skat: BitCards(first | second),
            alone_player: self.alone_player,
            variant: self.variant,
            skat_points: self.skat_points,
        }
    }

    /// Whether the facts of the game fit together.
    pub fn is_valid(&self) -> (b: bool)
        ensures
            b == self.wf(),
    {
        let a = self.player_cards.0.0;
        let b = self.player_cards.1.0;
        let c = self.player_cards.2.0;
        self.variant.is_trump_game() && a & b == 0 && a & c == 0 && b & c == 0 && self.skat.0 & (a
            | b | c) == 0 && (count_cards(self.skat.0) == 2 || (self.skat.0 == 0 && count_cards(
            a | b | c,
        ) <= 30)) && (self.skat_points == 0 || self.skat_points
            == self.skat.get_cards_points())
    }

    /// The points of the cards of a skat.
    pub fn get_skat_points(skat: BitCards) -> (total: u8)
        ensures
            total == points(skat.0),
    {
        skat.get_cards_points()
    }
}

/// Two cards outside the hands, the second outside the first, are
/// different and meet no hand.
pub proof fn lemma_spare(hands: u32, first: u32, second: u32)
    by (bit_vector)
    requires
        first & !hands == first,
        second & (!hands & !first) == second,
    ensures
        first & second == 0,
        (first | second) & hands == 0,
{
}

/// The cards that may follow when `first_card` is led: all trumps if it is
/// a trump, otherwise the cards of its suit.
pub open spec fn led_suit(first_card: u32, trump: u32) -> u32 {
    if first_card & trump != 0 {
        trump
    } else {
        color_mask(first_card)
    }
}

/// The cards that may follow a card led; see `led_suit`.
pub fn calculate_current_suit_mask(first_card: BitCard, variant: &Variant) -> (mask: BitCards)
    requires
        variant.has_trump(),
    ensures
        mask.0 == led_suit(first_card.0, trump_mask(*variant)),
{
    if first_card.0 & variant.get_binary_mask() != 0 {
        return BitCards(variant.get_binary_mask());
    }
    BitCards(first_card.get_color_mask())
}

/// The player in whose hand a card was dealt; the third player for a
/// card that the first two do not hold.
pub open spec fn owner(g: GlobalState, card: u32) -> Player {
    if card & g.player_cards.0.0 != 0 {
        Player::One
    } else if card & g.player_cards.1.0 != 0 {
        Player::Two
    } else {
        Player::Three
    }
}

/// The player who holds a card; see `owner`.
pub fn calculate_winner(winning_card: BitCard, global_state: &GlobalState) -> (winner: Player)
    ensures
        winner == owner(*global_state, winning_card.0),
{
    if winning_card.0 & global_state.player_cards.0.0 != 0 {
        Player::One
    } else if winning_card.0 & global_state.player_cards.1.0 != 0 {
        Player::Two
    } else {
        Player::Three
    }
}

/// The cards that a player may play from `cards`: those that follow the
/// suit led, and any card where none follows or nothing was led.
pub open spec fn playable(cards: u32, suit_mask: Option<BitCards>) -> u32 {
    match suit_mask {
        None => cards,
        Some(mask) => if mask.0 & cards != 0 {
            mask.0 & cards
        } else {
            cards
        },
    }
}

/// The cards of a hand that may be played; see `playable`.
pub fn calculate_next_moves(
    current_cards: BitCards,
    suit_mask: Option<BitCards>,
) -> (moves: BitCards)
    ensures
        moves.0 == playable(current_cards.0, suit_mask),
{
    match suit_mask {
        None => current_cards,
        Some(mask) => {
            let available = mask.0 & current_cards.0;
            if available != 0 {
                return BitCards(available);
            }
            current_cards
        },
    }
}

/// The card ahead after three cards, found by comparing them in turn.
pub open spec fn ahead_of_three(first: u32, second: u32, third: u32, trump: u32) -> u32 {
    if stronger(first, second, trump) {
        if stronger(first, third, trump) {
            first
        } else {
            third
        }
    } else if stronger(second, third, trump) {
        second
    } else {
        third
    }
}

/// The card that takes the trick, found by comparing the cards in turn,
/// and the points that lie in the trick.
pub fn calculate_who_won(
    current_played_cards: (BitCard, BitCard),
    last_card: BitCard,
    variant: &Variant,
) -> (result: (BitCard, u8))
    requires
        variant.has_trump(),
        current_played_cards.0.0 != 0,
        current_played_cards.1.0 != 0,
        last_card.0 != 0,
    ensures
        result.0.0 == ahead_of_three(
            current_played_cards.0.0,
            current_played_cards.1.0,
            last_card.0,
            trump_mask(*variant),
        ),
        result.1 == trick_points(current_played_cards.0.0, current_played_cards.1.0, last_card.0),
{
    let winning_card = if current_played_cards.0.greater_than(current_played_cards.1, variant) {
        if current_played_cards.0.greater_than(last_card, variant) {
            current_played_cards.0
        } else {
            last_card
        }
    } else if current_played_cards.1.greater_than(last_card, variant) {
        current_played_cards.1
    } else {
        last_card
    };
    (
        winning_card,
        current_played_cards.0.get_point() + current_played_cards.1.get_point()
            + last_card.get_point(),
    )
}

} // verus!
