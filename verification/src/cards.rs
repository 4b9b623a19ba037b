//! Cards by suit and rank, the order of the cards in each kind of game,
//! and the two rules of a trick: which cards may follow, and who takes it.
use crate::bitboard::Variant;
use std::cmp::Ordering;
use vstd::prelude::*;

verus! {

#[derive(Debug, Copy, Clone, PartialEq, Eq, Structural)]
pub enum Rank {
    Seven,
    Eight,
    Nine,
    Ten,
    Jack,
    Queen,
    King,
    Ace,
}

#[derive(Debug, Copy, Clone, PartialEq, Eq, Structural)]
pub enum Suit {
    Kreuz,
    Piqus,
    Heart,
    Karo,
}

#[derive(Debug, Copy, Clone, PartialEq, Eq, Structural)]
pub struct Card {
    pub suit: Suit,
    pub rank: Rank,
}

/// The points of a rank.
pub open spec fn rank_points(rank: Rank) -> int {
    match rank {
        Rank::Seven => 0,
        Rank::Eight => 0,
        Rank::Nine => 0,
        Rank::Ten => 10,
        Rank::Jack => 2,
        Rank::Queen => 3,
        Rank::King => 4,
        Rank::Ace => 11,
    }
}

/// The place of a rank in a Null game, from the seven up to the ace.
pub open spec fn null_height(rank: Rank) -> int {
    match rank {
        Rank::Seven => 0,
        Rank::Eight => 1,
        Rank::Nine => 2,
        Rank::Ten => 3,
        Rank::Jack => 4,
        Rank::Queen => 5,
        Rank::King => 6,
        Rank::Ace => 7,
    }
}

/// The place of a rank within a suit in Grand and the suit games: the ten
/// stands between king and ace. The jack belongs to no suit there; a card
/// that is compared with one counts as lower up to the queen and as higher
/// from the king on.
pub open spec fn grand_height(rank: Rank) -> int {
    match rank {
        Rank::Seven => 0,
        Rank::Eight => 1,
        Rank::Nine => 2,
        Rank::Queen => 3,
        Rank::Jack => 4,
        Rank::King => 5,
        Rank::Ten => 6,
        Rank::Ace => 7,
    }
}

/// The place of a suit among the jacks, from diamonds up to clubs.
pub open spec fn jack_height(suit: Suit) -> int {
    match suit {
        Suit::Karo => 0,
        Suit::Heart => 1,
        Suit::Piqus => 2,
        Suit::Kreuz => 3,
    }
}

/// How two heights compare.
pub open spec fn order_of(a: int, b: int) -> Ordering {
    if a < b {
        Ordering::Less
    } else if a == b {
        Ordering::Equal
    } else {
        Ordering::Greater
    }
}

/// How the jack of one suit compares with that of another. A jack put
/// against itself counts as greater for clubs and spades, as less for
/// hearts and diamonds.
pub open spec fn jack_order(a: Suit, b: Suit) -> Ordering {
    if jack_height(a) > jack_height(b) || (a == b && jack_height(a) >= 2) {
        Ordering::Greater
    } else {
        Ordering::Less
    }
}

/// How two cards compare where one of them is a jack: a jack is above
/// every other card.
pub open spec fn jacks_order(a: Card, b: Card) -> Option<Ordering> {
    if a.rank == Rank::Jack || b.rank == Rank::Jack {
        if b.rank != Rank::Jack {
            Some(Ordering::Greater)
        } else if a.rank != Rank::Jack {
            Some(Ordering::Less)
        } else {
            Some(jack_order(a.suit, b.suit))
        }
    } else {
        None
    }
}

/// How the card `a`, which lies on the table, compares with the card `b`
/// played after it in a Null game: a card of another suit cannot pass it.
pub open spec fn null_order(a: Card, b: Card) -> Ordering {
    if a.suit != b.suit {
        Ordering::Greater
    } else {
        order_of(null_height(a.rank), null_height(b.rank))
    }
}

/// The same in Grand: jacks are trumps.
pub open spec fn grand_order(a: Card, b: Card) -> Ordering {
    match jacks_order(a, b) {
        Some(order) => order,
        None => if a.suit != b.suit {
            Ordering::Greater
        } else {
            order_of(grand_height(a.rank), grand_height(b.rank))
        },
    }
}

/// The same in a suit game: jacks and the cards of `trumpf` are trumps.
pub open spec fn color_order(a: Card, b: Card, trumpf: Suit) -> Ordering {
    match jacks_order(a, b) {
        Some(order) => order,
        None => if a.suit == trumpf && b.suit != trumpf {
            Ordering::Greater
        } else if a.suit != trumpf && b.suit == trumpf {
            Ordering::Less
        } else if a.suit != b.suit {
            Ordering::Greater
        } else {
            order_of(grand_height(a.rank), grand_height(b.rank))
        },
    }
}

/// The suit that is trump in a suit game.
pub open spec fn trump_suit(game: Variant) -> Option<Suit> {
    match game {
        Variant::Diamonds => Some(Suit::Karo),
        Variant::Hearts => Some(Suit::Heart),
        Variant::Spades => Some(Suit::Piqus),
        Variant::Clubs => Some(Suit::Kreuz),
        _ => None,
    }
}

/// How the card `a` on the table compares with the card `b` played after
/// it, in the game `game`.
pub open spec fn card_order(a: Card, b: Card, game: Variant) -> Ordering {
    match game {
        Variant::Grand => grand_order(a, b),
        Variant::Diamonds => color_order(a, b, Suit::Karo),
        Variant::Hearts => color_order(a, b, Suit::Heart),
        Variant::Spades => color_order(a, b, Suit::Piqus),
        Variant::Clubs => color_order(a, b, Suit::Kreuz),
        _ => null_order(a, b),
    }
}

/// The place in the trick, 0, 1 or 2, of the card that takes it.
pub open spec fn round_winner(card1: Card, card2: Card, card3: Card, game: Variant) -> int {
    if card_order(card1, card2, game) == Ordering::Greater {
        if card_order(card1, card3, game) == Ordering::Greater {
            0
        } else {
            2
        }
    } else if card_order(card2, card3, game) == Ordering::Greater {
        1
    } else {
        2
    }
}

/// Whether `card` follows the card `first` that was led: a trump follows
/// a trump, and a card that is no trump follows one of its suit. In Grand
/// and the suit games every jack is a trump, so a jack follows no suit but
/// the trumps; in a Null game there are no trumps.
pub open spec fn follows(first: Card, card: Card, game: Variant) -> bool {
    match game {
        Variant::Grand => if first.rank == Rank::Jack {
            card.rank == Rank::Jack
        } else {
            card.suit == first.suit && card.rank != Rank::Jack
        },
        Variant::Diamonds | Variant::Hearts | Variant::Spades | Variant::Clubs => {
            let trumpf = trump_suit(game).unwrap();
            if first.rank == Rank::Jack || first.suit == trumpf {
                card.rank == Rank::Jack || card.suit == trumpf
            } else {
                card.suit == first.suit && card.rank != Rank::Jack
            }
        },
        _ => card.suit == first.suit,
    }
}

impl Rank {
    /// The points of the rank.
    pub fn value(&self) -> (points: u32)
        ensures
            points == rank_points(*self),
    {
        match self {
            Rank::Seven => 0,
            Rank::Eight => 0,
            Rank::Nine => 0,
            Rank::Ten => 10,
            Rank::Jack => 2,
            Rank::Queen => 3,
            Rank::King => 4,
            Rank::Ace => 11,
        }
    }

    /// How this rank compares with another in a Null game.
    pub fn null_ordering(&self, other: &Rank) -> (o: Ordering)
        ensures
            o == order_of(null_height(*self), null_height(*other)),
    {
        match self {
            Rank::Seven => {
                match other {
                    Rank::Seven => Ordering::Equal,
                    _ => Ordering::Less,
                }
            },
            Rank::Eight => {
                match other {
                    Rank::Eight => Ordering::Equal,
                    Rank::Seven => Ordering::Greater,
                    _ => Ordering::Less,
                }
            },
            Rank::Nine => {
                match other {
                    Rank::Nine => Ordering::Equal,
                    Rank::Seven | Rank::Eight => Ordering::Greater,
                    _ => Ordering::Less,
                }
            },
            Rank::Ten => {
                match other {
                    Rank::Ten => Ordering::Equal,
                    Rank::Seven | Rank::Eight | Rank::Nine => Ordering::Greater,
                    _ => Ordering::Less,
                }
            },
            Rank::Jack => {
                match other {
                    Rank::Jack => Ordering::Equal,
                    Rank::Ace | Rank::King | Rank::Queen => Ordering::Less,
                    _ => Ordering::Greater,
                }
            },
            Rank::Queen => {
                match other {
                    Rank::Queen => Ordering::Equal,
                    Rank::Ace | Rank::King => Ordering::Less,
                    _ => Ordering::Greater,
                }
            },
            Rank::King => {
                match other {
                    Rank::King => Ordering::Equal,
                    Rank::Ace => Ordering::Less,
                    _ => Ordering::Greater,
                }
            },
            Rank::Ace => {
                match other {
                    Rank::Ace => Ordering::Equal,
                    _ => Ordering::Greater,
                }
            },
        }
    }

    /// How this rank, which is no jack, compares with another within a
    /// suit in Grand and the suit games.
    pub fn grand_ordering(&self, other: &Rank) -> (o: Ordering)
        requires
            *self != Rank::Jack,
        ensures
            o == order_of(grand_height(*self), grand_height(*other)),
    {
        match self {
            Rank::Seven => {
                match other {
                    Rank::Seven => Ordering::Equal,
                    _ => Ordering::Less,
                }
            },
            Rank::Eight => {
                match other {
                    Rank::Eight => Ordering::Equal,
                    Rank::Seven => Ordering::Greater,
                    _ => Ordering::Less,
                }
            },
            Rank::Nine => {
                match other {
                    Rank::Nine => Ordering::Equal,
                    Rank::Seven | Rank::Eight => Ordering::Greater,
                    _ => Ordering::Less,
                }
            },
            Rank::Queen => {
                match other {
                    Rank::Queen => Ordering::Equal,
                    Rank::Seven | Rank::Eight | Rank::Nine => Ordering::Greater,
                    _ => Ordering::Less,
                }
            },
            Rank::King => {
                match other {
                    Rank::King => Ordering::Equal,
                    Rank::Ace | Rank::Ten => Ordering::Less,
                    _ => Ordering::Greater,
                }
            },
            Rank::Ten => {
                match other {
                    Rank::Ten => Ordering::Equal,
                    Rank::Ace => Ordering::Less,
                    _ => Ordering::Greater,
                }
            },
            _ => {
                match other {
                    Rank::Ace => Ordering::Equal,
                    _ => Ordering::Greater,
                }
            },
        }
    }
}

impl Suit {
    /// How the jack of this suit compares with the jack of another.
    pub fn order_jacks(&self, other: &Suit) -> (o: Ordering)
        ensures
            o == jack_order(*self, *other),
    {
        match self {
            Suit::Kreuz => Ordering::Greater,
            Suit::Piqus => {
                match other {
                    Suit::Kreuz => Ordering::Less,
                    _ => Ordering::Greater,
                }
            },
            Suit::Heart => {
                match other {
                    Suit::Karo => Ordering::Greater,
                    _ => Ordering::Less,
                }
            },
            Suit::Karo => Ordering::Less,
        }
    }
}

impl Card {
    pub fn null_comparison(&self, other: &Card) -> (o: Ordering)
        ensures
            o == null_order(*self, *other),
    {
        if self.suit != other.suit {
            return Ordering::Greater;
        }
        self.rank.null_ordering(&other.rank)
    }

    pub fn compare_jacks(&self, other: &Card) -> (o: Option<Ordering>)
        ensures
            o == jacks_order(*self, *other),
    {
        if self.rank == Rank::Jack || other.rank == Rank::Jack {
            if other.rank != Rank::Jack {
                return Some(Ordering::Greater);
            }
            if self.rank != Rank::Jack {
                return Some(Ordering::Less);
            }
            return Some(self.suit.order_jacks(&other.suit));
        }
        None
    }

    pub fn grand_comparison(&self, other: &Card) -> (o: Ordering)
        ensures
            o == grand_order(*self, *other),
    {
        match self.compare_jacks(other) {
            Some(order) => {
                return order;
            },
            None => {},
        }
        if self.suit != other.suit {
            return Ordering::Greater;
        }
        self.rank.grand_ordering(&other.rank)
    }

    pub fn color_comparison(&self, other: &Card, trumpf: &Suit) -> (o: Ordering)
        ensures
            o == color_order(*self, *other, *trumpf),
    {
        match self.compare_jacks(other) {
            Some(order) => {
                return order;
            },
            None => {},
        }
        if self.suit == *trumpf && other.suit != *trumpf {
            return Ordering::Greater;
        }
        if self.suit != *trumpf && other.suit == *trumpf {
            return Ordering::Less;
        }
        if self.suit != other.suit {
            return Ordering::Greater;
        }
        self.rank.grand_ordering(&other.rank)
    }
}

/// The suit that is trump in a suit game, none in the other games.
pub fn suit_of(game: &Variant) -> (suit: Option<Suit>)
    ensures
        suit == trump_suit(*game),
{
    match game {
        Variant::Diamonds => Some(Suit::Karo),
        Variant::Hearts => Some(Suit::Heart),
        Variant::Spades => Some(Suit::Piqus),
        Variant::Clubs => Some(Suit::Kreuz),
        _ => None,
    }
}

fn compare_in(a: &Card, b: &Card, game: &Variant) -> (o: Ordering)
    ensures
        o == card_order(*a, *b, *game),
{
    match game {
        Variant::Grand => a.grand_comparison(b),
        Variant::Diamonds => a.color_comparison(b, &Suit::Karo),
        Variant::Hearts => a.color_comparison(b, &Suit::Heart),
        Variant::Spades => a.color_comparison(b, &Suit::Piqus),
        Variant::Clubs => a.color_comparison(b, &Suit::Kreuz),
        _ => a.null_comparison(b),
    }
}

/// Two different cards never compare as equal.
pub proof fn lemma_never_equal(a: Card, b: Card, game: Variant)
    requires
        a != b,
    ensures
        card_order(a, b, game) != Ordering::Equal,
{
}

/// Who takes the trick of three different cards, the first of which was
/// led, and the points that lie in it. The winner is given by the place of
/// the card: 0, 1 or 2.
pub fn determine_who_won_round(
    card1: &Card,
    card2: &Card,
    card3: &Card,
    game: &Variant,
) -> (result: (
    u32,
    u32,
))
    requires
        *card1 != *card2,
        *card1 != *card3,
        *card2 != *card3,
    ensures
        result.0 == round_winner(*card1, *card2, *card3, *game),
        result.1 == rank_points(card1.rank) + rank_points(card2.rank) + rank_points(card3.rank),
{
    let value = card1.rank.value() + card2.rank.value() + card3.rank.value();
    proof {
        lemma_never_equal(*card1, *card2, *game);
        lemma_never_equal(*card1, *card3, *game);
        lemma_never_equal(*card2, *card3, *game);
    }
    let first: u32 = match compare_in(card1, card2, game) {
        Ordering::Greater => {
            match compare_in(card1, card3, game) {
                Ordering::Greater => 0,
                _ => 2,
            }
        },
        _ => {
            match compare_in(card2, card3, game) {
                Ordering::Greater => 1,
                _ => 2,
            }
        },
    };
    (first, value)
}

fn may_follow(first_card: &Card, card: &Card, game: &Variant) -> (b: bool)
    ensures
        b == follows(*first_card, *card, *game),
{
    match game {
        Variant::Grand => {
            if first_card.rank == Rank::Jack {
                card.rank == Rank::Jack
            } else {
                card.suit == first_card.suit && card.rank != Rank::Jack
            }
        },
        Variant::Diamonds | Variant::Hearts | Variant::Spades | Variant::Clubs => {
            let trumpf = suit_of(game).unwrap();
            if first_card.rank == Rank::Jack || first_card.suit == trumpf {
                card.rank == Rank::Jack || card.suit == trumpf
            } else {
                card.suit == first_card.suit && card.rank != Rank::Jack
            }
        },
        _ => card.suit == first_card.suit,
    }
}

/// The cards of `cards` that follow `first`, in their order.
pub open spec fn following(first: Card, cards: Seq<Card>, game: Variant) -> Seq<Card> {
    cards.filter(|card: Card| follows(first, card, game))
}

/// The cards of a hand that may be played after `first_card` was led:
/// those that follow it, and the whole hand where none does.
pub fn can_be_placed<'a>(
    first_card: &Card,
    remaining_cards: &'a [Card],
    game: &Variant,
) -> (playable: Vec<&'a Card>)
    ensures
        playable@.len() == (if following(*first_card, remaining_cards@, *game).len() > 0 {
            following(*first_card, remaining_cards@, *game).len()
        } else {
            remaining_cards@.len()
        }),
        forall|i: int|
            0 <= i < playable@.len() ==> *#[trigger] playable@[i] == (if following(
                *first_card,
                remaining_cards@,
                *game,
            ).len() > 0 {
                following(*first_card, remaining_cards@, *game)[i]
            } else {
                remaining_cards@[i]
            }),
{
    let mut playable_cards: Vec<&'a Card> = Vec::new();
    let mut all_cards: Vec<&'a Card> = Vec::new();
    let ghost pred = |card: Card| follows(*first_card, card, *game);
    let mut i: usize = 0;
    while i < remaining_cards.len()
        invariant
            i <= remaining_cards@.len(),
            pred == (|card: Card| follows(*first_card, card, *game)),
            all_cards@.len() == i,
            forall|k: int| 0 <= k < i ==> *#[trigger] all_cards@[k] == remaining_cards@[k],
            playable_cards@.len() == remaining_cards@.take(i as int).filter(pred).len(),
            forall|k: int|
                0 <= k < playable_cards@.len() ==> *#[trigger] playable_cards@[k]
                    == remaining_cards@.take(i as int).filter(pred)[k],
        decreases remaining_cards@.len() - i,
    {
        let card = &remaining_cards[i];
        proof {
            let before = remaining_cards@.take(i as int);
            let now = remaining_cards@.take(i + 1);
            assert(now.drop_last() =~= before);
            assert(now.last() == *card);
            reveal(Seq::filter);
        }
        if may_follow(first_card, card, game) {
            playable_cards.push(card);
        }
        all_cards.push(card);
        i = i + 1;
    }
    proof {
        assert(remaining_cards@.take(i as int) =~= remaining_cards@);
    }
    if playable_cards.len() == 0 {
        all_cards
    } else {
        playable_cards
    }
}

} // verus!
