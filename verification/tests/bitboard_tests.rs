#![allow(dead_code, unused_variables)]
use skat_solver::bitboard;
use skat_solver::bitboard::{calculate_who_won_better, BitCard, BitCards, Variant};
const KREUZ_ASS: BitCard = BitCard(bitboard::KREUZ_ASS);
const KREUZ_TEN: BitCard = BitCard(bitboard::KREUZ_TEN);
const KREUZ_KING: BitCard = BitCard(bitboard::KREUZ_KING);
const KREUZ_EIGHT: BitCard = BitCard(bitboard::KREUZ_EIGHT);
const PIQUS_ASS: BitCard = BitCard(bitboard::PIQUS_ASS);
const PIQUS_TEN: BitCard = BitCard(bitboard::PIQUS_TEN);
const PIQUS_KING: BitCard = BitCard(bitboard::PIQUS_KING);
const HEARTS_TEN: BitCard = BitCard(bitboard::HEARTS_TEN);
const HEARTS_QUEEN: BitCard = BitCard(bitboard::HEARTS_QUEEN);
const HEARTS_EIGHT: BitCard = BitCard(bitboard::HEARTS_EIGHT);
const KARO_NINE: BitCard = BitCard(bitboard::KARO_NINE);
const KARO_EIGHT: BitCard = BitCard(bitboard::KARO_EIGHT);
const KARO_SEVEN: BitCard = BitCard(bitboard::KARO_SEVEN);


#[test]
fn test_mask() {
    let mut sum: u8 = 0;
    let mut cards = BitCards(u32::MAX);
    while let Some(card) = cards.next() {
        sum += card.get_point();
    }
    assert_eq!(sum, 120);
}

#[test]
fn cards_with_same_suit() {
    //calculates who won
    let winner = HEARTS_TEN;
    let loser_one = HEARTS_QUEEN;
    let loser_two = HEARTS_EIGHT;
    for variant in &[Variant::Clubs, Variant::Grand, Variant::Spades, Variant::Hearts, Variant::Diamonds] {
        let result = calculate_who_won_better(winner, loser_one, loser_two, variant);
        assert_eq!(result.0, winner);
        assert_eq!(result.1, 13);
    }

    let winner = KREUZ_ASS;
    let loser_one = KREUZ_KING;
    let loser_two = KREUZ_EIGHT;
    for variant in &[Variant::Clubs, Variant::Grand, Variant::Spades, Variant::Hearts, Variant::Diamonds] {
        let result = calculate_who_won_better(winner, loser_one, loser_two, variant);
        assert_eq!(result.0, winner);
        assert_eq!(result.1, 15);
    }
    let winner = PIQUS_ASS;
    let loser_one = PIQUS_TEN;
    let loser_two = PIQUS_KING;
    for variant in &[Variant::Clubs, Variant::Grand, Variant::Spades, Variant::Hearts, Variant::Diamonds] {
        let result = calculate_who_won_better(loser_two, loser_one, winner, variant);
        assert_eq!(result.0, winner);
        assert_eq!(result.1, 25);
    }

    let winner = KARO_NINE;
    let loser_one = KARO_SEVEN;
    let loser_two = KARO_EIGHT;
    for variant in &[Variant::Clubs, Variant::Grand, Variant::Spades, Variant::Hearts, Variant::Diamonds] {
        let result = calculate_who_won_better(loser_two, loser_one, winner, variant);
        assert_eq!(result.0, winner);
        assert_eq!(result.1, 0);
    }
}

#[test]
fn cards_with_one_trumpf() {
    let winner = KREUZ_TEN;
    let loser_one = PIQUS_ASS;
    let loser_two = PIQUS_KING;
    let result = calculate_who_won_better(loser_two, loser_one, winner, &Variant::Clubs);
    assert_eq!(result.0, winner);
    assert_eq!(result.1, 25);
}
