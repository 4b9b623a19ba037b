#![allow(dead_code, unused_variables)]
use skat_solver::bitboard;
use skat_solver::bitboard::{BitCard, BitCards, Variant};
use skat_solver::solver::{GlobalState, Player};
use skat_solver::solver::synchronus::local_state::LState;
use skat_solver::bitboard::{create_cards, get_binary_mask_for_colors, get_binary_mask_for_rank};
use skat_solver::bits::{count_cards, lowest_card, leading_bit};
use skat_solver::solver::bitstates::{generate_color_mask, get_msb_mask, BitGlobal, BitLocal};
use skat_solver::solver::synchronus::ab_tt::{pack_key, Bounds};
use skat_solver::solver::synchronus::ab_tt_optimized::EnhancedSolver;
use skat_solver::solver::synchronus::local_state::{single_card, MoveSorter};
use skat_solver::solver::synchronus::trans_table::{TranspositionTable, SIZE};
use skat_solver::solver::{calculate_current_suit_mask, calculate_next_moves, calculate_who_won, calculate_winner, DealError};

const KREUZ_JACK: BitCard = BitCard(bitboard::KREUZ_JACK);
const PIQUS_JACK: BitCard = BitCard(bitboard::PIQUS_JACK);
const HEARTS_JACK: BitCard = BitCard(bitboard::HEARTS_JACK);
const KARO_JACK: BitCard = BitCard(bitboard::KARO_JACK);
const KREUZ_ASS: BitCard = BitCard(bitboard::KREUZ_ASS);
const KREUZ_TEN: BitCard = BitCard(bitboard::KREUZ_TEN);
const KREUZ_KING: BitCard = BitCard(bitboard::KREUZ_KING);
const KREUZ_QUEEN: BitCard = BitCard(bitboard::KREUZ_QUEEN);
const KREUZ_NINE: BitCard = BitCard(bitboard::KREUZ_NINE);
const KREUZ_EIGHT: BitCard = BitCard(bitboard::KREUZ_EIGHT);
const KREUZ_SEVEN: BitCard = BitCard(bitboard::KREUZ_SEVEN);
const PIQUS_ASS: BitCard = BitCard(bitboard::PIQUS_ASS);
const PIQUS_TEN: BitCard = BitCard(bitboard::PIQUS_TEN);
const PIQUS_KING: BitCard = BitCard(bitboard::PIQUS_KING);
const PIQUS_QUEEN: BitCard = BitCard(bitboard::PIQUS_QUEEN);
const PIQUS_NINE: BitCard = BitCard(bitboard::PIQUS_NINE);
const PIQUS_EIGHT: BitCard = BitCard(bitboard::PIQUS_EIGHT);
const PIQUS_SEVEN: BitCard = BitCard(bitboard::PIQUS_SEVEN);
const HEARTS_ASS: BitCard = BitCard(bitboard::HEARTS_ASS);
const HEARTS_TEN: BitCard = BitCard(bitboard::HEARTS_TEN);
const HEARTS_KING: BitCard = BitCard(bitboard::HEARTS_KING);
const HEARTS_QUEEN: BitCard = BitCard(bitboard::HEARTS_QUEEN);
const HEARTS_NINE: BitCard = BitCard(bitboard::HEARTS_NINE);
const HEARTS_EIGHT: BitCard = BitCard(bitboard::HEARTS_EIGHT);
const HEARTS_SEVEN: BitCard = BitCard(bitboard::HEARTS_SEVEN);
const KARO_ASS: BitCard = BitCard(bitboard::KARO_ASS);
const KARO_TEN: BitCard = BitCard(bitboard::KARO_TEN);
const KARO_KING: BitCard = BitCard(bitboard::KARO_KING);
const KARO_QUEEN: BitCard = BitCard(bitboard::KARO_QUEEN);
const KARO_NINE: BitCard = BitCard(bitboard::KARO_NINE);
const KARO_EIGHT: BitCard = BitCard(bitboard::KARO_EIGHT);
const KARO_SEVEN: BitCard = BitCard(bitboard::KARO_SEVEN);

fn small_hands() -> (BitCards, BitCards, BitCards) {
    (KREUZ_JACK | KREUZ_TEN, PIQUS_JACK | HEARTS_JACK, KREUZ_QUEEN | KREUZ_SEVEN)
}

#[test]
fn points_of_each_rank() {
    assert_eq!(KREUZ_JACK.get_point(), 2);
    assert_eq!(KARO_JACK.get_point(), 2);
    assert_eq!(PIQUS_ASS.get_point(), 11);
    assert_eq!(HEARTS_TEN.get_point(), 10);
    assert_eq!(KARO_KING.get_point(), 4);
    assert_eq!(KREUZ_QUEEN.get_point(), 3);
    assert_eq!(PIQUS_NINE.get_point(), 0);
    assert_eq!(HEARTS_EIGHT.get_point(), 0);
    assert_eq!(KARO_SEVEN.get_point(), 0);
    assert_eq!((KREUZ_ASS | KREUZ_TEN | KARO_SEVEN).get_cards_points(), 21);
    assert_eq!(BitCards(0).get_cards_points(), 0);
    assert_eq!(BitCards(bitboard::GRAND_MASK).get_cards_points(), 8);
    assert_eq!(BitCards(bitboard::KREUZ_MASK).get_cards_points(), 28);
}

#[test]
fn masks_of_ranks_and_suits() {
    assert_eq!(get_binary_mask_for_rank(1), bitboard::SEVEN_MASK);
    assert_eq!(get_binary_mask_for_rank(4), bitboard::QUEEN_MASK);
    assert_eq!(get_binary_mask_for_rank(7), bitboard::ACE_MASK);
    assert_eq!(get_binary_mask_for_colors(21, 28), bitboard::KREUZ_MASK);
    assert_eq!(get_binary_mask_for_colors(14, 21), bitboard::PIQUS_MASK);
    assert_eq!(get_binary_mask_for_colors(7, 14), bitboard::HEARTS_MASK);
    assert_eq!(get_binary_mask_for_colors(0, 7), bitboard::KARO_MASK);
    assert_eq!(Variant::Grand.get_binary_mask(), 0xF000_0000);
    assert_eq!(Variant::Clubs.get_binary_mask(), bitboard::KREUZ_TRUMPF_MASK);
    assert_eq!(Variant::Spades.get_binary_mask(), bitboard::PIQUS_TRUMPF_MASK);
    assert_eq!(Variant::Hearts.get_binary_mask(), bitboard::HEARTS_TRUMPF_MASK);
    assert_eq!(Variant::Diamonds.get_binary_mask(), bitboard::KARO_TRUMPF_MASK);
    assert!(!Variant::Null.is_trump_game());
    assert_eq!(KREUZ_NINE.get_color_mask(), bitboard::KREUZ_MASK);
    assert_eq!(KARO_SEVEN.get_color_mask(), bitboard::KARO_MASK);
    assert_eq!(generate_color_mask(Variant::Grand), [0xF000_0000, bitboard::KREUZ_MASK, bitboard::PIQUS_MASK, bitboard::HEARTS_MASK, bitboard::KARO_MASK]);
    assert_eq!(generate_color_mask(Variant::Hearts), [bitboard::KREUZ_MASK, bitboard::PIQUS_MASK, bitboard::HEARTS_TRUMPF_MASK, bitboard::KARO_MASK, 0]);
}

#[test]
fn codes_and_values_of_games_and_players() {
    assert_eq!(Variant::from_code(0), Some(Variant::Grand));
    assert_eq!(Variant::from_code(1), Some(Variant::Clubs));
    assert_eq!(Variant::from_code(2), Some(Variant::Spades));
    assert_eq!(Variant::from_code(3), Some(Variant::Hearts));
    assert_eq!(Variant::from_code(4), Some(Variant::Diamonds));
    assert_eq!(Variant::from_code(5), None);
    assert_eq!(Player::from_code(0), Some(Player::One));
    assert_eq!(Player::from_code(2), Some(Player::Three));
    assert_eq!(Player::from_code(3), None);
    assert_eq!(Player::Two.code(), 1);
    for code in 0..5 {
        assert_eq!(Variant::from_code(code).unwrap().code(), code);
    }
    for code in 0..3 {
        assert_eq!(Player::from_code(code).unwrap().code(), code);
    }
    assert_eq!(Player::Three.get_next_player(), Player::One);
    assert_eq!(Variant::Grand.value(), 24);
    assert_eq!(Variant::Null.value(), 23);
    assert_eq!(Variant::NullOuvertHand.value(), 46);
    assert_eq!(Variant::Clubs.value(), 12);
    assert_eq!(Variant::Diamonds.value(), 9);
}

#[test]
fn sets_of_cards() {
    assert_eq!(lowest_card(0), 0);
    assert_eq!(lowest_card(0b1011000), 0b1000);
    assert_eq!(count_cards(0), 0);
    assert_eq!(count_cards(u32::MAX), 32);
    assert_eq!(count_cards(0b1011000), 3);
    assert_eq!(leading_bit(1), 0);
    assert_eq!(leading_bit(0b1011000), 6);
    assert_eq!(get_msb_mask(0b1011000), 0b1000000);
    assert_eq!(get_msb_mask(u32::MAX), 1 << 31);
    assert!(single_card(1 << 17));
    assert!(!single_card(0));
    assert!(!single_card(3));
    assert_eq!(create_cards(&[0, 31, 5]), KARO_SEVEN | KREUZ_JACK | KARO_TEN);
    assert_eq!(create_cards(&[]), BitCards(0));
    let mut cards = KARO_ASS | KREUZ_JACK | HEARTS_SEVEN;
    assert_eq!(cards.get_next_card_in_binary(), KARO_ASS);
    assert_eq!(cards.next(), Some(KARO_ASS));
    assert_eq!(cards.next(), Some(HEARTS_SEVEN));
    assert_eq!(cards.next(), Some(KREUZ_JACK));
    assert_eq!(cards.next(), None);
    assert_eq!(cards.next(), None);
    assert_eq!(BitCards(0).get_next_card_in_binary(), BitCard(0));
}

#[test]
fn names_of_cards() {
    assert_eq!(BitCard(0).get_human_representation(), "No card");
    assert_eq!(KREUZ_JACK.get_human_representation(), "Jack of Kreuz");
    assert_eq!(KARO_JACK.get_human_representation(), "Jack of Karo");
    assert_eq!(HEARTS_KING.get_human_representation(), "König of Hearts");
    assert_eq!(PIQUS_TEN.get_human_representation(), "10 of Piqus");
    assert_eq!(KARO_SEVEN.get_human_representation(), "7 of Karo");
    assert_eq!(KREUZ_ASS.get_human_representation(), "Ass of Kreuz");
    assert_eq!(HEARTS_QUEEN.get_human_representation(), "Dame of Hearts");
    assert_eq!(KREUZ_JACK.get_numerical_representation(), 31);
    assert_eq!(KARO_SEVEN.get_numerical_representation(), 0);
    assert_eq!(BitCard::calculate_which_rank(2), "9");
    assert_eq!(BitCard::calculate_which_suit_jack(1), "Hearts");
}

#[test]
fn who_is_ahead() {
    let grand = Variant::Grand;
    // a jack is ahead of every card in every game
    assert!(KARO_JACK.greater_than(KREUZ_ASS, &grand));
    assert!(!KREUZ_ASS.greater_than(KARO_JACK, &grand));
    assert!(KREUZ_JACK.greater_than(PIQUS_JACK, &Variant::Hearts));
    // within a suit the ten is above the king
    assert!(HEARTS_TEN.greater_than(HEARTS_KING, &grand));
    assert!(!HEARTS_KING.greater_than(HEARTS_TEN, &grand));
    // no card is ahead of itself
    assert!(!HEARTS_TEN.greater_than(HEARTS_TEN, &grand));
    assert!(!KREUZ_JACK.greater_than(KREUZ_JACK, &Variant::Clubs));
    // a card of another suit that is no trump does not pass the card on the table
    assert!(HEARTS_SEVEN.greater_than(PIQUS_ASS, &grand));
    assert!(PIQUS_ASS.greater_than(HEARTS_SEVEN, &grand));
    // in a suit game the suit is trump
    assert!(HEARTS_SEVEN.greater_than(PIQUS_ASS, &Variant::Hearts));
    assert!(!PIQUS_ASS.greater_than(HEARTS_SEVEN, &Variant::Hearts));
    assert_eq!(calculate_who_won((PIQUS_KING, PIQUS_ASS), KREUZ_TEN, &Variant::Clubs), (KREUZ_TEN, 25));
    assert_eq!(calculate_who_won((HEARTS_TEN, HEARTS_QUEEN), HEARTS_EIGHT, &grand), (HEARTS_TEN, 13));
    assert_eq!(calculate_who_won((HEARTS_SEVEN, PIQUS_ASS), KARO_ASS, &grand), (HEARTS_SEVEN, 22));
}

#[test]
fn suit_led_and_cards_that_follow() {
    assert_eq!(calculate_current_suit_mask(PIQUS_KING, &Variant::Clubs), BitCards(bitboard::PIQUS_MASK));
    assert_eq!(calculate_current_suit_mask(KREUZ_SEVEN, &Variant::Clubs), BitCards(bitboard::KREUZ_TRUMPF_MASK));
    assert_eq!(calculate_current_suit_mask(HEARTS_JACK, &Variant::Clubs), BitCards(bitboard::KREUZ_TRUMPF_MASK));
    assert_eq!(calculate_current_suit_mask(HEARTS_JACK, &Variant::Grand), BitCards(bitboard::GRAND_MASK));
    assert_eq!(calculate_current_suit_mask(KREUZ_SEVEN, &Variant::Grand), BitCards(bitboard::KREUZ_MASK));
    let hand = KREUZ_JACK | HEARTS_SEVEN | HEARTS_ASS | KARO_KING;
    assert_eq!(calculate_next_moves(hand, None), hand);
    assert_eq!(calculate_next_moves(hand, Some(BitCards(bitboard::HEARTS_MASK))), HEARTS_SEVEN | HEARTS_ASS);
    // a jack led in Grand asks for a jack
    assert_eq!(calculate_next_moves(hand, Some(BitCards(bitboard::GRAND_MASK))), BitCards(KREUZ_JACK.0));
    // who cannot follow may play any card
    assert_eq!(calculate_next_moves(hand, Some(BitCards(bitboard::PIQUS_MASK))), hand);
}

#[test]
fn deals_that_are_refused() {
    let (a, b, c) = small_hands();
    assert_eq!(GlobalState::new((a, b, c), BitCards(0), Player::One, Variant::Null).unwrap_err(), DealError::NotImplemented);
    assert_eq!(GlobalState::new((a, b, c), BitCards(0), Player::One, Variant::NullOuvert).unwrap_err(), DealError::NotImplemented);
    assert_eq!(GlobalState::new((a, a, c), BitCards(0), Player::One, Variant::Grand).unwrap_err(), DealError::OverlappingHands);
    assert_eq!(GlobalState::new((a, b, c), BitCards(KARO_SEVEN.0), Player::One, Variant::Grand).unwrap_err(), DealError::InvalidSkat);
    assert_eq!(GlobalState::new((a, b, c), KREUZ_JACK | KARO_SEVEN, Player::One, Variant::Grand).unwrap_err(), DealError::InvalidSkat);
    assert_eq!(GlobalState::new((a, b, c), KARO_EIGHT | KARO_SEVEN | KARO_NINE, Player::One, Variant::Grand).unwrap_err(), DealError::InvalidSkat);
    // a skat with hands that do not hold the other 30 cards
    assert_eq!(GlobalState::new((a, b, c), KARO_EIGHT | KARO_SEVEN, Player::One, Variant::Grand).unwrap_err(), DealError::CardCount);
    // no skat and fewer than two cards free
    let nearly_all = BitCards(u32::MAX & !a.0 & !b.0 & !1);
    assert_eq!(GlobalState::new((a, b, nearly_all), BitCards(0), Player::One, Variant::Grand).unwrap_err(), DealError::CardCount);
    assert_eq!(BitGlobal::new(a, b, c, Variant::NullHand).unwrap_err(), DealError::NotImplemented);
    assert_eq!(BitGlobal::new(a, a, c, Variant::Grand).unwrap_err(), DealError::OverlappingHands);
    assert_eq!(BitGlobal::new(a, b, nearly_all, Variant::Grand).unwrap_err(), DealError::CardCount);
}

#[test]
fn deal_without_a_skat_keeps_the_skat_empty() {
    let (a, b, c) = small_hands();
    let global_state = GlobalState::new((a, b, c), BitCards(0), Player::Three, Variant::Hearts).unwrap();
    assert_eq!(global_state.skat, BitCards(0));
    assert_eq!(global_state.skat_points, 0);
    assert_eq!(global_state.player_cards, (a, b, c));
    assert_eq!(global_state.alone_player, Player::Three);
    assert!(global_state.is_valid());
    // the two lowest free cards mark the players
    let marked = global_state.mark_players();
    assert_eq!(marked.skat, KARO_SEVEN | KARO_EIGHT);
    assert_eq!(marked.skat_points, 0);
    assert_eq!(marked.player_cards, (a, b, c));
    assert!(marked.is_valid());
    let solver = EnhancedSolver::new(global_state);
    assert_eq!(solver.global_state.skat, KARO_SEVEN | KARO_EIGHT);
    assert_eq!(solver.global_state.skat_points, 0);
    // a skat of two cards is kept as it is
    let (p, q, r, skat) = (
        BitCards(0x0000_03FF),
        BitCards(0x000F_FC00),
        BitCards(0x3FF0_0000),
        BitCards(0xC000_0000),
    );
    let full = GlobalState::new((p, q, r), skat, Player::One, Variant::Grand).unwrap();
    assert_eq!(full.skat, skat);
    assert_eq!(full.skat_points, 4);
    assert_eq!(full.mark_players().skat, skat);
    assert_eq!(EnhancedSolver::new(full).global_state.skat, skat);
    assert_eq!(GlobalState::get_skat_points(KREUZ_ASS | KARO_TEN), 21);
    let packed = BitGlobal::new(a, b, c, Variant::Hearts).unwrap();
    assert_eq!(packed.skat, KARO_SEVEN | KARO_EIGHT);
    assert_eq!(packed.first_card_skat, KARO_SEVEN.0);
    assert_eq!(packed.second_card_skat, KARO_EIGHT.0);
    assert_eq!(packed.skat_points, 0);
    assert!(packed.is_valid());
    assert_eq!(calculate_winner(KREUZ_TEN, &global_state), Player::One);
    assert_eq!(calculate_winner(HEARTS_JACK, &global_state), Player::Two);
    assert_eq!(calculate_winner(KREUZ_SEVEN, &global_state), Player::Three);
}

#[test]
fn keys_tell_the_players_apart() {
    let (a, b, c) = small_hands();
    let global_state = GlobalState::new((a, b, c), BitCards(0), Player::One, Variant::Clubs)
        .unwrap()
        .mark_players();
    let all = a | b | c;
    let one = LState::new(all, Player::One);
    let two = LState::new(all, Player::Two);
    let three = LState::new(all, Player::Three);
    assert_eq!(one.get_hash_better(&global_state), all.0);
    assert_eq!(two.get_hash_better(&global_state), all.0 | KARO_SEVEN.0);
    assert_eq!(three.get_hash_better(&global_state), all.0 | KARO_EIGHT.0);
    assert_eq!(one.get_hash(), (all.0, Player::One));
    assert_eq!(pack_key((5, Player::One)), 5);
    assert_eq!(pack_key((5, Player::Two)), 5 + (1 << 32));
    assert_eq!(pack_key((u32::MAX, Player::Three)), u32::MAX as u64 + (2 << 32));
    assert!(one.is_full_node());
    assert!(!one.is_terminal());
    assert!(one.is_max_node(&global_state));
    assert!(!two.is_max_node(&global_state));
    assert!(LState::new(BitCards(0), Player::One).is_terminal());
    assert_eq!(one.get_available(Player::Two, &global_state), b);
    let packed = BitGlobal::new(a, b, c, Variant::Clubs).unwrap();
    let packed_one = BitLocal::new(all.0, Player::One, packed.skat);
    let packed_two = BitLocal::new(all.0, Player::Two, packed.skat);
    let packed_three = BitLocal::new(all.0, Player::Three, packed.skat);
    assert_eq!(packed_one.get_hash(), all.0);
    assert_eq!(packed_two.get_hash(), all.0 | KARO_SEVEN.0);
    assert_eq!(packed_three.get_hash(), all.0 | KARO_SEVEN.0 | KARO_EIGHT.0);
    assert!(packed_one.is_max_node(&packed));
    assert!(!packed_two.is_max_node(&packed));
    assert!(!packed_three.is_max_node(&packed));
    assert_eq!(packed_one.to_state(&packed), one);
    assert_eq!(packed_two.to_state(&packed), two);
    assert_eq!(packed_three.to_state(&packed), three);
    assert_eq!(packed_one.get_next_player_full_state(&packed), packed_two.state);
    assert_eq!(packed_two.get_next_player_full_state(&packed), packed_three.state);
    assert_eq!(packed_three.get_next_player_full_state(&packed), packed_one.state);
    assert_eq!(packed_two.get_current_cards(&packed), b);
    assert_eq!(packed_three.get_all_cards(&packed), (c.0, a.0, b.0));
    assert_eq!(packed_one.get_remaining_points(&packed), 19);
    assert!(packed_one.is_full_node());
    assert!(!packed_one.is_terminal(packed.skat));
    let low = BitLocal::new((KARO_NINE | HEARTS_EIGHT | PIQUS_SEVEN).0, Player::One, packed.skat);
    assert!(low.is_terminal(packed.skat));
    assert_eq!(packed.calculate_winner_state(HEARTS_JACK, 10, packed_three.state), (packed_two.state, 0));
    assert_eq!(packed.calculate_winner_state(KREUZ_JACK, 10, packed_three.state), (packed_one.state, 10));
    assert_eq!(packed.calculate_winner_state(KREUZ_SEVEN, 10, packed_one.state), (packed_three.state, 0));
}

#[test]
fn states_that_cannot_occur() {
    let (a, b, c) = small_hands();
    let global_state = GlobalState::new((a, b, c), BitCards(0), Player::One, Variant::Clubs).unwrap();
    let all = a | b | c;
    assert!(LState::new(all, Player::Two).is_valid(&global_state));
    // a card that was not dealt
    assert!(!LState::new(all | PIQUS_ASS, Player::One).is_valid(&global_state));
    // one player holds fewer cards than the others
    assert!(!LState::new(BitCards(all.0 & !KREUZ_JACK.0), Player::One).is_valid(&global_state));
    // after the first card of a trick
    let mid = LState {
        remaining_cards: BitCards(all.0 & !KREUZ_JACK.0),
        current_player: Player::Two,
        current_played_cards: (KREUZ_JACK, BitCard(0)),
        current_suit: Some(BitCards(bitboard::KREUZ_TRUMPF_MASK)),
    };
    assert!(mid.is_valid(&global_state));
    let wrong_suit = LState { current_suit: Some(BitCards(bitboard::PIQUS_MASK)), ..mid };
    assert!(!wrong_suit.is_valid(&global_state));
    let wrong_player = LState { current_player: Player::Three, ..mid };
    assert!(!wrong_player.is_valid(&global_state));
    let packed = BitGlobal::new(a, b, c, Variant::Clubs).unwrap();
    // the mark of the higher card alone names no player
    let bad = BitLocal { state: all.0 | KARO_EIGHT.0, current_played_cards: (BitCard(0), BitCard(0)), current_suit: 0 };
    assert!(!bad.is_valid(&packed));
}

#[test]
fn moves_come_in_order_of_points() {
    let (a, b, c) = (KREUZ_JACK | KREUZ_TEN | HEARTS_ASS | KARO_SEVEN, PIQUS_JACK | HEARTS_JACK | HEARTS_TEN | KARO_EIGHT, KREUZ_QUEEN | KREUZ_SEVEN | KARO_ASS | KARO_NINE);
    let global_state = GlobalState::new((a, b, c), BitCards(0), Player::One, Variant::Grand).unwrap();
    let state = LState::new(a | b | c, Player::One);
    let unsorted = state.list_moves(&global_state);
    let cards: Vec<BitCard> = unsorted.iter().map(|e| e.0.current_played_cards.0).collect();
    assert_eq!(cards, vec![KARO_SEVEN, HEARTS_ASS, KREUZ_TEN, KREUZ_JACK]);
    let sorted = state.get_next_states(&global_state);
    let cards: Vec<BitCard> = sorted.iter().map(|e| e.0.current_played_cards.0).collect();
    assert_eq!(cards, vec![HEARTS_ASS, KREUZ_TEN, KREUZ_JACK, KARO_SEVEN]);
    let keys: Vec<u8> = sorted.iter().map(|e| e.1).collect();
    assert_eq!(keys, vec![11, 10, 2, 0]);
    for entry in sorted.iter() {
        assert_eq!(entry.2, 0);
        assert_eq!(entry.0.current_player, Player::Two);
        assert!(entry.0.is_valid(&global_state));
    }
    // the one move that ends a trick
    let last = LState {
        remaining_cards: BitCards((a | b | c).0 & !KREUZ_JACK.0 & !PIQUS_JACK.0),
        current_player: Player::Three,
        current_played_cards: (KREUZ_JACK, PIQUS_JACK),
        current_suit: Some(BitCards(bitboard::GRAND_MASK)),
    };
    assert!(last.is_valid(&global_state));
    let moves = last.get_next_states(&global_state);
    assert_eq!(moves.len(), 4);
    assert_eq!(moves[0].0.current_player, Player::One);
    assert_eq!(moves[0].0.current_played_cards, (BitCard(0), BitCard(0)));
    assert_eq!(moves[0].0.current_played_cards.0, BitCard(0));
    // the ace of diamonds gives the most
    assert_eq!(moves[0].2, 15);
    assert_eq!(moves[0].0.remaining_cards, BitCards(last.remaining_cards.0 & !KARO_ASS.0));
    assert_eq!(moves[3].2, 4);
    let entry = last.get_next_state(KREUZ_QUEEN, &global_state);
    assert_eq!(entry.2, 7);
    assert_eq!(entry.1, 7);
    // equal points keep the order of the cards
    let mut sorter = MoveSorter::new();
    sorter.add(LState::new(BitCards(1), Player::One), 0, 3);
    sorter.add(LState::new(BitCards(2), Player::One), 0, 5);
    sorter.add(LState::new(BitCards(4), Player::One), 0, 3);
    sorter.add(LState::new(BitCards(8), Player::One), 0, 5);
    sorter.sort();
    let order: Vec<u32> = sorter.entries.iter().map(|e| e.0.remaining_cards.0).collect();
    assert_eq!(order, vec![2, 8, 1, 4]);
}

#[test]
fn packed_moves_cover_the_hand() {
    let (a, b, c) = (KREUZ_JACK | KREUZ_TEN | HEARTS_ASS | KARO_SEVEN, PIQUS_JACK | HEARTS_JACK | HEARTS_TEN | KARO_EIGHT, KREUZ_QUEEN | KREUZ_SEVEN | KARO_ASS | KARO_NINE);
    let packed = BitGlobal::new(a, b, c, Variant::Grand).unwrap();
    let state = BitLocal::new((a | b | c).0, Player::One, packed.skat);
    assert!(state.is_valid(&packed));
    let moves = state.get_next_states(&packed);
    assert_eq!(moves.len(), 4);
    let mut played = 0u32;
    for entry in moves.iter() {
        assert!(entry.0.is_valid(&packed));
        assert_eq!(entry.1, 0);
        played |= entry.0.current_played_cards.0.0;
        assert_eq!(entry.0.current_suit, calculate_current_suit_mask(entry.0.current_played_cards.0, &Variant::Grand).0);
    }
    assert_eq!(played, a.0);
    // diamonds first, where the others have one and two answers, then
    // hearts with one and four
    assert_eq!(moves[0].0.current_played_cards.0, KARO_SEVEN);
    assert_eq!(moves[1].0.current_played_cards.0, HEARTS_ASS);
    // after two cards
    let last = BitLocal {
        state: ((a | b | c).0 & !KREUZ_JACK.0 & !PIQUS_JACK.0) | packed.skat.0,
        current_played_cards: (KREUZ_JACK, PIQUS_JACK),
        current_suit: bitboard::GRAND_MASK,
    };
    assert!(last.is_valid(&packed));
    let moves = last.get_next_states(&packed);
    assert_eq!(moves.len(), 4);
    let gains: Vec<u8> = moves.iter().map(|e| e.1).collect();
    assert_eq!(gains, vec![4, 15, 4, 7]);
    for entry in moves.iter() {
        assert!(entry.0.is_max_node(&packed));
        assert!(entry.0.is_full_node());
    }
}

#[test]
fn packed_moves_of_a_suit_come_from_the_highest_down() {
    let a = HEARTS_ASS | HEARTS_KING | HEARTS_SEVEN;
    let b = KREUZ_ASS | KREUZ_KING | HEARTS_EIGHT;
    let c = PIQUS_ASS | PIQUS_KING | PIQUS_SEVEN;
    let packed = BitGlobal::new(a, b, c, Variant::Grand).unwrap();
    let state = BitLocal::new((a | b | c).0, Player::One, packed.skat);
    assert!(state.is_valid(&packed));
    let moves = state.get_next_states(&packed);
    let cards: Vec<BitCard> = moves.iter().map(|e| e.0.current_played_cards.0).collect();
    assert_eq!(cards, vec![HEARTS_ASS, HEARTS_KING, HEARTS_SEVEN]);
    // within a trick the cards come from the lowest up
    let second = moves[0].0;
    assert!(second.is_valid(&packed));
    let answers = second.get_next_states(&packed);
    assert_eq!(answers.len(), 1);
    assert_eq!(answers[0].0.current_played_cards, (HEARTS_ASS, HEARTS_EIGHT));
    let third = answers[0].0;
    let last = third.get_next_states(&packed);
    let cards: Vec<u32> = last.iter().map(|e| third.state & !e.0.state & !packed.skat.0).collect();
    assert_eq!(cards, vec![PIQUS_SEVEN.0, PIQUS_KING.0, PIQUS_ASS.0]);
    let gains: Vec<u8> = last.iter().map(|e| e.1).collect();
    assert_eq!(gains, vec![11, 15, 22]);
}

#[test]
fn table_with_one_place_per_residue() {
    let mut table = TranspositionTable::new();
    assert_eq!(table.get(17), None);
    // a new table holds nothing, also not for the key 0
    assert_eq!(table.get(0), None);
    assert_eq!(table.get(SIZE as u32), None);
    table.put(17, 42, Bounds::Valid);
    assert_eq!(table.get(17), Some((42, Bounds::Valid)));
    table.put(17, -3, Bounds::LowerBound);
    assert_eq!(table.get(17), Some((-3, Bounds::LowerBound)));
    let same_place = 17 + SIZE as u32;
    assert_eq!(table.index(same_place), 17);
    assert_eq!(table.get(same_place), None);
    table.put(same_place, 9, Bounds::UpperBound);
    assert_eq!(table.get(same_place), Some((9, Bounds::UpperBound)));
    assert_eq!(table.get(17), None);
    assert_eq!(table.get(18), None);
    table.put(0, 0, Bounds::Valid);
    assert_eq!(table.get(0), Some((0, Bounds::Valid)));
    assert_eq!(table.get(SIZE as u32), None);
    assert_eq!(table.get(same_place), Some((9, Bounds::UpperBound)));
}
