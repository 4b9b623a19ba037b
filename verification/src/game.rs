//! The deck of 32 cards, shuffled.
use crate::cards::{Card, Rank, Suit};
use rand::rngs::StdRng;
use rand::seq::SliceRandom;
use rand::SeedableRng;
use vstd::prelude::*;

verus! {

/// The suits in the order of a new deck.
pub open spec fn suit_at(i: int) -> Suit {
    if i == 0 {
        Suit::Kreuz
    } else if i == 1 {
        Suit::Piqus
    } else if i == 2 {
        Suit::Heart
    } else {
        Suit::Karo
    }
}

/// The ranks in the order of a new deck.
pub open spec fn rank_at(i: int) -> Rank {
    if i == 0 {
        Rank::Seven
    } else if i == 1 {
        Rank::Eight
    } else if i == 2 {
        Rank::Nine
    } else if i == 3 {
        Rank::Ten
    } else if i == 4 {
        Rank::Jack
    } else if i == 5 {
        Rank::Queen
    } else if i == 6 {
        Rank::King
    } else {
        Rank::Ace
    }
}

/// The 32 cards of a new deck: suit by suit, each from the seven up.
pub open spec fn new_deck() -> Seq<Card> {
    Seq::new(32, |i: int| Card { suit: suit_at(i / 8), rank: rank_at(i % 8) })
}

fn suit_number(i: usize) -> (suit: Suit)
    requires
        i < 4,
    ensures
        suit == suit_at(i as int),
{
    match i {
        0 => Suit::Kreuz,
        1 => Suit::Piqus,
        2 => Suit::Heart,
        _ => Suit::Karo,
    }
}

fn rank_number(i: usize) -> (rank: Rank)
    requires
        i < 8,
    ensures
        rank == rank_at(i as int),
{
    match i {
        0 => Rank::Seven,
        1 => Rank::Eight,
        2 => Rank::Nine,
        3 => Rank::Ten,
        4 => Rank::Jack,
        5 => Rank::Queen,
        6 => Rank::King,
        _ => Rank::Ace,
    }
}

/// `SliceRandom::shuffle` with a `StdRng` made by `seed_from_u64`: the
/// cards are the same afterwards, in some order.
#[verifier::external_body]
fn shuffle_seeded(deck: &mut Vec<Card>, seed: u64)
    ensures
        final(deck)@.to_multiset() == old(deck)@.to_multiset(),
{
    let mut rng = StdRng::seed_from_u64(seed);
    deck.shuffle(&mut rng);
}

/// A deck of the 32 cards, each once, in an order that the seed decides.
pub fn generate_card_deck(seed: u64) -> (deck: Vec<Card>)
    ensures
        deck@.to_multiset() == new_deck().to_multiset(),
        deck@.len() == 32,
{
    let mut deck: Vec<Card> = Vec::with_capacity(32);
    let mut s: usize = 0;
    while s < 4
        invariant
            s <= 4,
            deck@ == new_deck().take(8 * s as int),
        decreases 4 - s,
    {
        let suit = suit_number(s);
        let mut r: usize = 0;
        while r < 8
            invariant
                s < 4,
                r <= 8,
                suit == suit_at(s as int),
                deck@ == new_deck().take(8 * s + r),
            decreases 8 - r,
        {
            let rank = rank_number(r);
            proof {
                let i = 8 * s + r;
                assert(i / 8 == s as int && i % 8 == r as int);
                assert(new_deck().take(i + 1) =~= new_deck().take(i as int).push(
                    Card { suit, rank },
                ));
            }
            deck.push(Card { suit, rank });
            r = r + 1;
        }
        s = s + 1;
    }
    proof {
        assert(new_deck().take(32) =~= new_deck());
        new_deck().to_multiset_ensures();
    }
    shuffle_seeded(&mut deck, seed);
    proof {
        deck@.to_multiset_ensures();
    }
    deck
}

} // verus!
