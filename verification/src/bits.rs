//! Words of 32 bits read as sets of cards: membership, single cards and
//! sums taken over the members of a set.
use vstd::prelude::*;

verus! {

/// The word that holds only the card at position `i` (for `i < 32`).
pub open spec fn bit(i: nat) -> u32 {
    1u32 << (i as u32)
}

/// A word that holds exactly one card.
pub open spec fn is_card(c: u32) -> bool {
    c != 0 && c & ((c - 1) as u32) == 0
}

/// The lowest card of a set, the empty word for the empty set.
pub open spec fn lowest(w: u32) -> u32 {
    if w == 0 {
        0
    } else {
        w & !((w - 1) as u32)
    }
}

/// `c` is the highest card of the set `w`.
pub open spec fn is_highest(w: u32, c: u32) -> bool {
    is_card(c) && c & w == c && w & !c < c
}

/// `a` is a subset of `w`.
pub open spec fn subset(a: u32, w: u32) -> bool {
    a & w == a
}

/// The sum of `f` over the cards of `w` at positions below `n`. A weight
/// gives the empty word the value 0.
pub open spec fn sum_upto(w: u32, n: nat, f: spec_fn(u32) -> nat) -> nat
    decreases n,
{
    if n == 0 {
        0
    } else {
        sum_upto(w, (n - 1) as nat, f) + f(w & bit((n - 1) as nat))
    }
}

/// The weight that counts cards.
pub open spec fn unit_weight() -> spec_fn(u32) -> nat {
    |c: u32|
        if c == 0 {
            0nat
        } else {
            1nat
        }
}

/// The number of cards in a set.
pub open spec fn count(w: u32) -> nat {
    sum_upto(w, 32, unit_weight())
}

/// The lowest card of a set that is not empty is a card of the set, no
/// card of the set is lower, and without it the set is smaller.
pub proof fn lemma_lowest(w: u32)
    by (bit_vector)
    requires
        w != 0,
    ensures
        lowest(w) != 0,
        is_card(lowest(w)),
        lowest(w) & w == lowest(w),
        w & !lowest(w) < w,
        w & !lowest(w) == w & ((w - 1) as u32),
        lowest(w) == (w & ((w - 1) as u32)) ^ w,
        forall|c: u32| is_card(c) && c & w == c ==> lowest(w) <= c,
{
}

/// A set without some of its cards is smaller, and the two parts make
/// up the set.
pub proof fn lemma_remove(w: u32, c: u32)
    by (bit_vector)
    requires
        c != 0,
        c & w == c,
    ensures
        w & !c < w,
        (w & !c) & c == 0,
        (w & !c) | c == w,
        (w & !c) & w == w & !c,
{
}

/// A position is taken in the union of two sets without a common card
/// as it is in one of them.
pub proof fn lemma_disjoint_parts(a: u32, b: u32, i: u32)
    by (bit_vector)
    requires
        a & b == 0,
        i < 32,
    ensures
        (a & (1u32 << i) == 0 && (a | b) & (1u32 << i) == b & (1u32 << i)) || (b & (1u32 << i)
            == 0 && (a | b) & (1u32 << i) == a & (1u32 << i)),
{
}

/// A card meets a position only at its own, and lies below every higher
/// one.
pub proof fn lemma_card_at(c: u32, i: u32)
    by (bit_vector)
    requires
        is_card(c),
        i < 32,
    ensures
        c & (1u32 << i) == 0 || c & (1u32 << i) == c,
        c & (1u32 << i) == c <==> c == 1u32 << i,
        i < 31 ==> (c < 1u32 << ((i + 1) as u32) <==> c <= 1u32 << i),
        i == 31 ==> c <= 1u32 << i,
{
}

/// A subset and the rest of the set have no common card and make up the
/// set.
pub proof fn lemma_subset_parts(a: u32, w: u32)
    by (bit_vector)
    requires
        a & w == a,
    ensures
        a & (w & !a) == 0,
        a | (w & !a) == w,
{
}

/// Plain facts of one word.
pub proof fn lemma_word(w: u32)
    by (bit_vector)
    ensures
        w & w == w,
        w | 0 == w,
        w & 0 == 0,
        0u32 & w == 0,
        w & !0u32 == w,
        w & !w == 0,
        w | !w == 0xFFFF_FFFFu32,
        w & 0xFFFF_FFFFu32 == w,
        !0u32 == 0xFFFF_FFFFu32,
        1u32 << 0u32 == 1,
{
}

/// The sum over the union of two disjoint sets is the sum of their sums.
pub proof fn lemma_sum_split(a: u32, b: u32, n: nat, f: spec_fn(u32) -> nat)
    requires
        a & b == 0,
        n <= 32,
        f(0) == 0,
    ensures
        sum_upto(a | b, n, f) == sum_upto(a, n, f) + sum_upto(b, n, f),
    decreases n,
{
    if n > 0 {
        lemma_sum_split(a, b, (n - 1) as nat, f);
        lemma_disjoint_parts(a, b, (n - 1) as u32);
    }
}

/// The sum over a single card is the weight of that card.
pub proof fn lemma_sum_card_upto(c: u32, n: nat, f: spec_fn(u32) -> nat)
    requires
        is_card(c),
        n <= 32,
        f(0) == 0,
    ensures
        sum_upto(c, n, f) == (if n == 32 || c < bit(n) {
            f(c)
        } else {
            0
        }),
    decreases n,
{
    if n == 0 {
        lemma_word(c);
    } else {
        let i = (n - 1) as nat;
        lemma_sum_card_upto(c, i, f);
        lemma_card_at(c, i as u32);
    }
}

/// The sum over a single card is the weight of that card.
pub proof fn lemma_sum_card(c: u32, f: spec_fn(u32) -> nat)
    requires
        is_card(c),
        f(0) == 0,
    ensures
        sum_upto(c, 32, f) == f(c),
{
    lemma_sum_card_upto(c, 32, f);
}

/// Taking one card out of a set lowers the sum by the weight of the card.
pub proof fn lemma_sum_remove(w: u32, c: u32, f: spec_fn(u32) -> nat)
    requires
        is_card(c),
        c & w == c,
        f(0) == 0,
    ensures
        sum_upto(w, 32, f) == sum_upto(w & !c, 32, f) + f(c),
{
    lemma_remove(w, c);
    lemma_sum_split(w & !c, c, 32, f);
    lemma_sum_card(c, f);
}

/// A subset sums to no more than the set.
pub proof fn lemma_sum_subset(a: u32, w: u32, f: spec_fn(u32) -> nat)
    requires
        a & w == a,
        f(0) == 0,
    ensures
        sum_upto(a, 32, f) <= sum_upto(w, 32, f),
{
    lemma_subset_parts(a, w);
    lemma_sum_split(a, w & !a, 32, f);
}

/// The empty set sums to nothing.
pub proof fn lemma_sum_empty(n: nat, f: spec_fn(u32) -> nat)
    requires
        f(0) == 0,
    ensures
        sum_upto(0, n, f) == 0,
    decreases n,
{
    if n > 0 {
        lemma_sum_empty((n - 1) as nat, f);
        lemma_word(bit((n - 1) as nat));
    }
}

/// A set none of whose cards has a weight sums to nothing.
pub proof fn lemma_sum_zero(w: u32, n: nat, f: spec_fn(u32) -> nat)
    requires
        forall|i: nat| i < n ==> f(w & #[trigger] bit(i)) == 0,
    ensures
        sum_upto(w, n, f) == 0,
    decreases n,
{
    if n > 0 {
        lemma_sum_zero(w, (n - 1) as nat, f);
        assert(f(w & bit((n - 1) as nat)) == 0);
    }
}

/// There are no more cards below a position than positions.
pub proof fn lemma_count_upto_bound(w: u32, n: nat)
    ensures
        sum_upto(w, n, unit_weight()) <= n,
    decreases n,
{
    if n > 0 {
        lemma_count_upto_bound(w, (n - 1) as nat);
    }
}

/// A set has no card exactly when it is the empty word, and never more than 32.
pub proof fn lemma_count_zero(w: u32)
    ensures
        count(w) == 0 <==> w == 0,
        count(w) <= 32,
{
    lemma_count_upto_bound(w, 32);
    if w == 0 {
        lemma_sum_empty(32, unit_weight());
    } else {
        lemma_lowest(w);
        lemma_sum_remove(w, lowest(w), unit_weight());
    }
}

/// The full deck holds the card at every position.
pub proof fn lemma_full_at(i: u32)
    by (bit_vector)
    requires
        i < 32,
    ensures
        0xFFFF_FFFFu32 & (1u32 << i) != 0,
{
}

/// The full deck holds as many cards below a position as there are
/// positions.
pub proof fn lemma_count_full_upto(n: nat)
    requires
        n <= 32,
    ensures
        sum_upto(0xFFFF_FFFF, n, unit_weight()) == n,
    decreases n,
{
    if n > 0 {
        lemma_count_full_upto((n - 1) as nat);
        lemma_full_at((n - 1) as u32);
    }
}

/// A set and the cards outside it are 32 cards together.
pub proof fn lemma_count_complement(w: u32)
    ensures
        count(w) + count(!w) == 32,
{
    lemma_word(w);
    lemma_sum_split(w, !w, 32, unit_weight());
    lemma_count_full_upto(32);
}

/// The cards of two sets without a common card add up.
pub proof fn lemma_count_split(a: u32, b: u32)
    requires
        a & b == 0,
    ensures
        count(a | b) == count(a) + count(b),
{
    lemma_sum_split(a, b, 32, unit_weight());
}

/// A subset has no more cards than the set.
pub proof fn lemma_count_subset(a: u32, w: u32)
    requires
        a & w == a,
    ensures
        count(a) <= count(w),
{
    lemma_sum_subset(a, w, unit_weight());
}

/// A single card counts one.
pub proof fn lemma_count_card(c: u32)
    requires
        is_card(c),
    ensures
        count(c) == 1,
{
    lemma_sum_card(c, unit_weight());
}

/// Taking a card out of a set leaves one card less.
pub proof fn lemma_count_remove(w: u32, c: u32)
    requires
        is_card(c),
        c & w == c,
    ensures
        count(w) == count(w & !c) + 1,
{
    lemma_sum_remove(w, c, unit_weight());
}

/// The lowest card of a set.
pub fn lowest_card(w: u32) -> (c: u32)
    ensures
        c == lowest(w),
        w != 0 ==> is_card(c) && c & w == c,
{
    if w == 0 {
        0
    } else {
        proof {
            lemma_lowest(w);
        }
        (w & (w - 1)) ^ w
    }
}

/// The number of cards in a set.
pub fn count_cards(w: u32) -> (n: u32)
    ensures
        n == count(w),
        n <= 32,
{
    let mut rest: u32 = w;
    let mut n: u32 = 0;
    proof {
        lemma_count_zero(w);
    }
    while rest != 0
        invariant
            n + count(rest) == count(w),
            count(w) <= 32,
        decreases rest,
    {
        let c = lowest_card(rest);
        proof {
            lemma_lowest(rest);
            lemma_count_remove(rest, c);
        }
        rest = rest & !c;
        n = n + 1;
    }
    proof {
        lemma_count_zero(0);
    }
    n
}


/// The card above which a set has only empty positions is its highest
/// card.
proof fn lemma_leading(num: u32, zeros: u32)
    by (bit_vector)
    requires
        zeros < 32,
        (num >> ((31 - zeros) as u32)) & 1u32 != 0u32,
        num >> ((32 - zeros) as u32) == 0,
    ensures
        is_highest(num, 1u32 << ((31 - zeros) as u32)),
{
}

/// The position of the highest card of a set that is not empty.
pub open spec fn top_position(w: u32) -> int {
    31 - vstd::std_specs::bits::u32_leading_zeros(w)
}

/// The position of the highest card of a set that is not empty.
pub fn leading_bit(num: u32) -> (position: u32)
    requires
        num != 0,
    ensures
        position == top_position(num),
        position < 32,
        is_highest(num, 1u32 << position),
{
    proof {
        vstd::std_specs::bits::axiom_u32_leading_zeros(num);
        lemma_leading(num, vstd::std_specs::bits::u32_leading_zeros(num));
    }
    31 - num.leading_zeros()
}

} // verus!
