//! Poker hand evaluation: the best five-card hand out of seven cards.

use vstd::prelude::*;
use vstd::std_specs::cmp::PartialOrdSpecImpl;
use core::cmp::Ordering;

use crate::error::{ErrorView, PokerError};
use crate::models::card::{rank_at, Card, Rank};
use crate::text::{decimal, int_to_string};

verus! {

/// The ten categories of poker hands, from weakest to strongest.
///
/// The declaration order is the strength order, so the derived `Ord` orders
/// categories by strength.
#[derive(Debug, Clone, Copy, PartialEq, Eq, PartialOrd, Ord, Structural)]
pub enum HandRank {
    HighCard,
    Pair,
    TwoPair,
    ThreeOfAKind,
    Straight,
    Flush,
    FullHouse,
    FourOfAKind,
    StraightFlush,
    RoyalFlush,
}

impl HandRank {
    /// The strength of a category: 1 for HighCard up to 10 for RoyalFlush.
    pub open spec fn spec_strength(&self) -> int {
        match self {
            HandRank::HighCard => 1,
            HandRank::Pair => 2,
            HandRank::TwoPair => 3,
            HandRank::ThreeOfAKind => 4,
            HandRank::Straight => 5,
            HandRank::Flush => 6,
            HandRank::FullHouse => 7,
            HandRank::FourOfAKind => 8,
            HandRank::StraightFlush => 9,
            HandRank::RoyalFlush => 10,
        }
    }

    /// Returns the strength of the category (1..=10).
    pub fn strength(&self) -> (v: u8)
        ensures
            v == self.spec_strength(),
    {
        match self {
            HandRank::HighCard => 1,
            HandRank::Pair => 2,
            HandRank::TwoPair => 3,
            HandRank::ThreeOfAKind => 4,
            HandRank::Straight => 5,
            HandRank::Flush => 6,
            HandRank::FullHouse => 7,
            HandRank::FourOfAKind => 8,
            HandRank::StraightFlush => 9,
            HandRank::RoyalFlush => 10,
        }
    }
}

/// An evaluated five-card hand: its category, the rank values that break
/// ties within the category (most significant first), and a description.
#[derive(Debug, Clone, PartialEq, Eq)]
pub struct EvaluatedHand {
    pub hand_rank: HandRank,
    pub rank_values: Vec<u8>,
    pub description: String,
}

/// The mathematical content of an `EvaluatedHand`.
pub struct HandValue {
    pub hand_rank: HandRank,
    pub rank_values: Seq<u8>,
    pub description: Seq<char>,
}

impl View for EvaluatedHand {
    type V = HandValue;

    open spec fn view(&self) -> HandValue {
        HandValue {
            hand_rank: self.hand_rank,
            rank_values: self.rank_values@,
            description: self.description@,
        }
    }
}

/// Lexicographic order of two value sequences: -1, 0 or 1 as `a` is below,
/// equal to or above `b`; a proper prefix is below the longer sequence.
pub open spec fn lex_order(a: Seq<u8>, b: Seq<u8>) -> int
    decreases a.len(),
{
    if a.len() == 0 {
        if b.len() == 0 {
            0
        } else {
            -1
        }
    } else if b.len() == 0 {
        1
    } else if a[0] < b[0] {
        -1
    } else if a[0] > b[0] {
        1
    } else {
        lex_order(a.drop_first(), b.drop_first())
    }
}

/// The order of hands: first by category strength, then by the tie-break
/// values in lexicographic order. -1, 0 or 1.
pub open spec fn hand_order(a: HandValue, b: HandValue) -> int {
    if a.hand_rank.spec_strength() < b.hand_rank.spec_strength() {
        -1
    } else if a.hand_rank.spec_strength() > b.hand_rank.spec_strength() {
        1
    } else {
        lex_order(a.rank_values, b.rank_values)
    }
}

/// Compares two value sequences lexicographically.
fn compare_values(a: &Vec<u8>, b: &Vec<u8>) -> (r: i8)
    ensures
        r == lex_order(a@, b@),
{
    let mut i: usize = 0;
    assert(a@.skip(0) =~= a@);
    assert(b@.skip(0) =~= b@);
    while i < a.len() && i < b.len()
        invariant
            i <= a@.len(),
            i <= b@.len(),
            lex_order(a@, b@) == lex_order(a@.skip(i as int), b@.skip(i as int)),
        decreases a@.len() - i,
    {
        if a[i] < b[i] {
            return -1;
        }
        if a[i] > b[i] {
            return 1;
        }
        assert(a@.skip(i as int).drop_first() =~= a@.skip(i + 1));
        assert(b@.skip(i as int).drop_first() =~= b@.skip(i + 1));
        i = i + 1;
    }
    if i < a.len() {
        1
    } else if i < b.len() {
        -1
    } else {
        0
    }
}

/// Compares two evaluated hands by category strength, then tie-break values.
pub fn compare_hands(a: &EvaluatedHand, b: &EvaluatedHand) -> (r: i8)
    ensures
        r == hand_order(a@, b@),
{
    let sa = a.hand_rank.strength();
    let sb = b.hand_rank.strength();
    if sa < sb {
        -1
    } else if sa > sb {
        1
    } else {
        compare_values(&a.rank_values, &b.rank_values)
    }
}

impl PartialOrd for EvaluatedHand {
    fn partial_cmp(&self, other: &Self) -> (r: Option<Ordering>) {
        let o = compare_hands(self, other);
        if o < 0 {
            Some(Ordering::Less)
        } else if o > 0 {
            Some(Ordering::Greater)
        } else {
            Some(Ordering::Equal)
        }
    }
}

impl PartialOrdSpecImpl for EvaluatedHand {
    open spec fn obeys_partial_cmp_spec() -> bool {
        true
    }

    open spec fn partial_cmp_spec(&self, other: &Self) -> Option<Ordering> {
        if hand_order(self@, other@) < 0 {
            Some(Ordering::Less)
        } else if hand_order(self@, other@) > 0 {
            Some(Ordering::Greater)
        } else {
            Some(Ordering::Equal)
        }
    }
}


/// The human-readable name of a rank ("Two" .. "Ace").
pub open spec fn rank_name_spec(r: Rank) -> Seq<char> {
    match r {
        Rank::Two => "Two"@,
        Rank::Three => "Three"@,
        Rank::Four => "Four"@,
        Rank::Five => "Five"@,
        Rank::Six => "Six"@,
        Rank::Seven => "Seven"@,
        Rank::Eight => "Eight"@,
        Rank::Nine => "Nine"@,
        Rank::Ten => "Ten"@,
        Rank::Jack => "Jack"@,
        Rank::Queen => "Queen"@,
        Rank::King => "King"@,
        Rank::Ace => "Ace"@,
    }
}

/// Returns the human-readable name of a rank.
fn rank_name(r: Rank) -> (s: &'static str)
    ensures
        s@ == rank_name_spec(r),
{
    match r {
        Rank::Two => "Two",
        Rank::Three => "Three",
        Rank::Four => "Four",
        Rank::Five => "Five",
        Rank::Six => "Six",
        Rank::Seven => "Seven",
        Rank::Eight => "Eight",
        Rank::Nine => "Nine",
        Rank::Ten => "Ten",
        Rank::Jack => "Jack",
        Rank::Queen => "Queen",
        Rank::King => "King",
        Rank::Ace => "Ace",
    }
}

/// The rank values of a sequence of cards, in order.
pub open spec fn card_values(s: Seq<Card>) -> Seq<u8> {
    s.map_values(|c: Card| c.rank.spec_value())
}

/// The cards are in non-increasing rank order.
pub open spec fn sorted_desc(s: Seq<Card>) -> bool {
    forall|i: int, j: int|
        0 <= i <= j < s.len() ==> s[i].rank.spec_value() >= s[j].rank.spec_value()
}

/// All cards share the suit of the first card.
pub open spec fn is_flush(s: Seq<Card>) -> bool {
    forall|i: int| 0 <= i < s.len() ==> #[trigger] s[i].suit == s[0].suit
}

/// Each value is one more than the next one.
pub open spec fn values_consecutive(v: Seq<u8>) -> bool {
    forall|m: int| 0 <= m < v.len() - 1 ==> #[trigger] v[m] == v[m + 1] + 1
}

/// The rank values of the wheel, A-5-4-3-2, in the order the sorted cards have them.
pub open spec fn wheel_values() -> Seq<u8> {
    seq![14u8, 5u8, 4u8, 3u8, 2u8]
}

/// The (descending) cards form a straight: consecutive values, or the wheel A-5-4-3-2.
pub open spec fn is_straight(s: Seq<Card>) -> bool {
    values_consecutive(card_values(s)) || card_values(s) == wheel_values()
}

/// The number of cards of rank `r`.
pub open spec fn count_rank(s: Seq<Card>, r: Rank) -> nat
    decreases s.len(),
{
    if s.len() == 0 {
        0
    } else {
        count_rank(s.drop_last(), r) + if s.last().rank == r {
            1nat
        } else {
            0nat
        }
    }
}

/// The groups of equal ranks with multiplicity `c` (for ranks at positions
/// `j` down to 0, i.e. from `rank_at(j)` down to Two), followed by all groups
/// of every smaller multiplicity down to 1, each group as (multiplicity, rank).
pub open spec fn groups_from(s: Seq<Card>, c: int, j: int) -> Seq<(usize, Rank)>
    decreases c, j + 1,
{
    if c <= 0 {
        seq![]
    } else if j < 0 {
        groups_from(s, c - 1, 12)
    } else {
        let rest = groups_from(s, c, j - 1);
        if count_rank(s, rank_at(j)) == c {
            seq![(c as usize, rank_at(j))] + rest
        } else {
            rest
        }
    }
}

/// The rank groups of a five-card hand: each rank that occurs, with its
/// multiplicity, ordered by multiplicity and then by rank, both descending.
pub open spec fn rank_groups_spec(s: Seq<Card>) -> Seq<(usize, Rank)> {
    groups_from(s, 5, 12)
}

/// The multiplicity of group `k` (0 when there is no such group).
pub open spec fn group_count(g: Seq<(usize, Rank)>, k: int) -> int {
    if 0 <= k < g.len() {
        g[k].0 as int
    } else {
        0
    }
}

/// The rank of group `k` (Two when there is no such group).
pub open spec fn group_rank(g: Seq<(usize, Rank)>, k: int) -> Rank {
    if 0 <= k < g.len() {
        g[k].1
    } else {
        Rank::Two
    }
}

/// The high card of a straight of five cards sorted by descending rank: the
/// first card, except in the wheel A-5-4-3-2, where the Ace plays low and
/// the Five is high.
pub open spec fn straight_high(s: Seq<Card>) -> Rank {
    if s[0].rank == Rank::Ace && s[1].rank == Rank::Five {
        Rank::Five
    } else {
        s[0].rank
    }
}

/// The value of five cards sorted by descending rank, by the standard poker
/// hand rankings (the wheel A-5-4-3-2 is the lowest straight, Five-high).
#[verifier::opaque]
pub open spec fn eval_five_spec(s: Seq<Card>) -> HandValue {
    let g = rank_groups_spec(s);
    let flush = is_flush(s);
    let straight = is_straight(s);
    let top = s[0].rank;
    let high = straight_high(s);
    if straight && flush && s[0].rank == Rank::Ace && s[4].rank == Rank::Ten {
        HandValue {
            hand_rank: HandRank::RoyalFlush,
            rank_values: seq![14u8],
            description: "Royal Flush"@,
        }
    } else if straight && flush {
        HandValue {
            hand_rank: HandRank::StraightFlush,
            rank_values: seq![high.spec_value()],
            description: rank_name_spec(high) + "-high Straight Flush"@,
        }
    } else if group_count(g, 0) == 4 {
        HandValue {
            hand_rank: HandRank::FourOfAKind,
            rank_values: seq![group_rank(g, 0).spec_value(), group_rank(g, 1).spec_value()],
            description: "Four "@ + rank_name_spec(group_rank(g, 0)) + "s"@,
        }
    } else if group_count(g, 0) == 3 && group_count(g, 1) == 2 {
        HandValue {
            hand_rank: HandRank::FullHouse,
            rank_values: seq![group_rank(g, 0).spec_value(), group_rank(g, 1).spec_value()],
            description: rank_name_spec(group_rank(g, 0)) + "s full of "@ + rank_name_spec(
                group_rank(g, 1),
            ) + "s"@,
        }
    } else if flush {
        HandValue {
            hand_rank: HandRank::Flush,
            rank_values: card_values(s),
            description: rank_name_spec(top) + "-high Flush"@,
        }
    } else if straight {
        HandValue {
            hand_rank: HandRank::Straight,
            rank_values: seq![high.spec_value()],
            description: rank_name_spec(high) + "-high Straight"@,
        }
    } else if group_count(g, 0) == 3 {
        HandValue {
            hand_rank: HandRank::ThreeOfAKind,
            rank_values: seq![
                group_rank(g, 0).spec_value(),
                group_rank(g, 1).spec_value(),
                group_rank(g, 2).spec_value(),
            ],
            description: "Three "@ + rank_name_spec(group_rank(g, 0)) + "s"@,
        }
    } else if group_count(g, 0) == 2 && group_count(g, 1) == 2 {
        HandValue {
            hand_rank: HandRank::TwoPair,
            rank_values: seq![
                group_rank(g, 0).spec_value(),
                group_rank(g, 1).spec_value(),
                group_rank(g, 2).spec_value(),
            ],
            description: "Two Pair, "@ + rank_name_spec(group_rank(g, 0)) + "s and "@
                + rank_name_spec(group_rank(g, 1)) + "s"@,
        }
    } else if group_count(g, 0) == 2 {
        HandValue {
            hand_rank: HandRank::Pair,
            rank_values: seq![
                group_rank(g, 0).spec_value(),
                group_rank(g, 1).spec_value(),
                group_rank(g, 2).spec_value(),
                group_rank(g, 3).spec_value(),
            ],
            description: "Pair of "@ + rank_name_spec(group_rank(g, 0)) + "s"@,
        }
    } else {
        HandValue {
            hand_rank: HandRank::HighCard,
            rank_values: card_values(s),
            description: rank_name_spec(top) + "-high"@,
        }
    }
}

/// Checks that all cards share the suit of the first one.
fn check_flush(cards: &Vec<Card>) -> (b: bool)
    requires
        cards@.len() > 0,
    ensures
        b == is_flush(cards@),
{
    let suit = cards[0].suit;
    let mut i: usize = 1;
    while i < cards.len()
        invariant
            1 <= i <= cards@.len(),
            suit == cards@[0].suit,
            forall|k: int| 0 <= k < i ==> #[trigger] cards@[k].suit == suit,
        decreases cards@.len() - i,
    {
        if cards[i].suit != suit {
            return false;
        }
        i = i + 1;
    }
    true
}

/// The rank values of the cards, in order.
fn values_of(cards: &Vec<Card>) -> (values: Vec<u8>)
    ensures
        values@ == card_values(cards@),
{
    let mut values: Vec<u8> = Vec::new();
    let mut k: usize = 0;
    while k < cards.len()
        invariant
            k <= cards@.len(),
            values@ == card_values(cards@.take(k as int)),
        decreases cards@.len() - k,
    {
        values.push(cards[k].rank.value());
        assert(card_values(cards@.take(k + 1)) =~= card_values(cards@.take(k as int)).push(
            cards@[k as int].rank.spec_value(),
        ));
        k = k + 1;
    }
    assert(cards@.take(cards@.len() as int) =~= cards@);
    values
}

/// Checks whether cards sorted in descending order form a straight: regular
/// (each value one above the next) or the wheel A-5-4-3-2.
fn check_straight(cards: &Vec<Card>) -> (b: bool)
    ensures
        b == is_straight(cards@),
{
    let values = values_of(cards);
    assert forall|k: int| 0 <= k < values@.len() implies values@[k] <= 14 by {
        assert(values@[k] == cards@[k].rank.spec_value());
    }
    straight_values(&values)
}

fn straight_values(values: &Vec<u8>) -> (b: bool)
    requires
        forall|k: int| 0 <= k < values@.len() ==> values@[k] <= 14,
    ensures
        b == (values_consecutive(values@) || values@ == wheel_values()),
{
    let mut consecutive = true;
    let mut i: usize = 1;
    while i < values.len()
        invariant
            1 <= i,
            i <= values@.len() || (values@.len() == 0 && i == 1),
            forall|k: int| 0 <= k < values@.len() ==> values@[k] <= 14,
            consecutive == (forall|m: int|
                0 <= m < i - 1 ==> #[trigger] values@[m] == values@[m + 1] + 1),
        decreases values@.len() - i,
    {
        if values[i - 1] != values[i] + 1 {
            consecutive = false;
        }
        i = i + 1;
    }
    assert(values@.len() > 0 ==> i == values@.len());
    assert(consecutive == values_consecutive(values@)) by {
        if values@.len() > 0 {
            assert(i - 1 == values@.len() - 1);
        } else {
            assert(i == 1);
        }
    }
    if consecutive {
        return true;
    }
    let is_wheel = values.len() == 5 && values[0] == 14 && values[1] == 5 && values[2] == 4
        && values[3] == 3 && values[4] == 2;
    assert(is_wheel ==> values@ =~= wheel_values());
    assert(wheel_values().len() == 5 && wheel_values()[0] == 14 && wheel_values()[1] == 5
        && wheel_values()[2] == 4 && wheel_values()[3] == 3 && wheel_values()[4] == 2);
    is_wheel
}

/// Counts the cards of rank `r`.
fn count_of(cards: &Vec<Card>, r: Rank) -> (n: usize)
    ensures
        n == count_rank(cards@, r),
{
    let mut n: usize = 0;
    let mut i: usize = 0;
    while i < cards.len()
        invariant
            i <= cards@.len(),
            n == count_rank(cards@.take(i as int), r),
            n <= i,
        decreases cards@.len() - i,
    {
        assert(cards@.take(i + 1).drop_last() =~= cards@.take(i as int));
        if cards[i].rank == r {
            n = n + 1;
        }
        i = i + 1;
    }
    assert(cards@.take(cards@.len() as int) =~= cards@);
    n
}

fn rank_of_position(j: usize) -> (r: Rank)
    requires
        j < 13,
    ensures
        r == rank_at(j as int),
{
    if j == 0 {
        Rank::Two
    } else if j == 1 {
        Rank::Three
    } else if j == 2 {
        Rank::Four
    } else if j == 3 {
        Rank::Five
    } else if j == 4 {
        Rank::Six
    } else if j == 5 {
        Rank::Seven
    } else if j == 6 {
        Rank::Eight
    } else if j == 7 {
        Rank::Nine
    } else if j == 8 {
        Rank::Ten
    } else if j == 9 {
        Rank::Jack
    } else if j == 10 {
        Rank::Queen
    } else if j == 11 {
        Rank::King
    } else {
        Rank::Ace
    }
}

/// Groups equal ranks: (multiplicity, rank) pairs ordered by multiplicity,
/// then rank, both descending.
fn rank_groups(cards: &Vec<Card>) -> (g: Vec<(usize, Rank)>)
    ensures
        g@ == rank_groups_spec(cards@),
{
    let ghost s = cards@;
    let mut groups: Vec<(usize, Rank)> = Vec::new();
    let mut c: usize = 5;
    while c > 0
        invariant
            c <= 5,
            s == cards@,
            groups@ + groups_from(s, c as int, 12) == groups_from(s, 5, 12),
        decreases c,
    {
        let mut j: usize = 13;
        while j > 0
            invariant
                0 < c <= 5,
                j <= 13,
                s == cards@,
                groups@ + groups_from(s, c as int, j - 1) == groups_from(s, 5, 12),
            decreases j,
        {
            let r = rank_of_position(j - 1);
            let n = count_of(cards, r);
            let ghost before = groups@;
            if n == c {
                groups.push((c, r));
                assert(before + groups_from(s, c as int, j - 1) =~= groups@ + groups_from(
                    s,
                    c as int,
                    j - 2,
                ));
            }
            j = j - 1;
        }
        c = c - 1;
    }
    assert(groups@ =~= groups@ + groups_from(s, 0, 12));
    groups
}

fn group_count_at(g: &Vec<(usize, Rank)>, k: usize) -> (n: usize)
    ensures
        n == group_count(g@, k as int),
{
    if k < g.len() {
        g[k].0
    } else {
        0
    }
}

fn group_rank_at(g: &Vec<(usize, Rank)>, k: usize) -> (r: Rank)
    ensures
        r == group_rank(g@, k as int),
{
    if k < g.len() {
        g[k].1
    } else {
        Rank::Two
    }
}

/// "<name of r><suffix>".
fn suffixed(r: Rank, suffix: &str) -> (s: String)
    ensures
        s@ == rank_name_spec(r) + suffix@,
{
    let mut s = String::from_str(rank_name(r));
    s.append(suffix);
    s
}

/// "<prefix><name of r><suffix>".
fn named(prefix: &str, r: Rank, suffix: &str) -> (s: String)
    ensures
        s@ == prefix@ + rank_name_spec(r) + suffix@,
{
    let mut s = String::from_str(prefix);
    s.append(rank_name(r));
    s.append(suffix);
    s
}

/// Evaluates five cards sorted by descending rank.
#[verifier::rlimit(40)]
fn evaluate_five_cards(cards: &Vec<Card>) -> (h: EvaluatedHand)
    requires
        cards@.len() == 5,
    ensures
        h@ == eval_five_spec(cards@),
{
    reveal(eval_five_spec);
    let is_flush = check_flush(cards);
    let is_straight = check_straight(cards);
    let groups = rank_groups(cards);
    let ghost g = groups@;
    let top = cards[0].rank;
    let high = if cards[0].rank == Rank::Ace && cards[1].rank == Rank::Five {
        Rank::Five
    } else {
        top
    };

    if is_straight && is_flush && cards[0].rank == Rank::Ace && cards[4].rank == Rank::Ten {
        let v = vec![Rank::Ace.value()];
        assert(v@ =~= seq![14u8]);
        return EvaluatedHand {
            hand_rank: HandRank::RoyalFlush,
            rank_values: v,
            description: String::from_str("Royal Flush"),
        };
    }
    if is_straight && is_flush {
        let v = vec![high.value()];
        assert(v@ =~= seq![high.spec_value()]);
        return EvaluatedHand {
            hand_rank: HandRank::StraightFlush,
            rank_values: v,
            description: suffixed(high, "-high Straight Flush"),
        };
    }
    let c0 = group_count_at(&groups, 0);
    let c1 = group_count_at(&groups, 1);
    let r0 = group_rank_at(&groups, 0);
    let r1 = group_rank_at(&groups, 1);
    let r2 = group_rank_at(&groups, 2);
    let r3 = group_rank_at(&groups, 3);
    if c0 == 4 {
        let v = vec![r0.value(), r1.value()];
        assert(v@ =~= seq![r0.spec_value(), r1.spec_value()]);
        return EvaluatedHand {
            hand_rank: HandRank::FourOfAKind,
            rank_values: v,
            description: named("Four ", r0, "s"),
        };
    }
    if c0 == 3 && c1 == 2 {
        let v = vec![r0.value(), r1.value()];
        assert(v@ =~= seq![r0.spec_value(), r1.spec_value()]);
        let mut d = suffixed(r0, "s full of ");
        d.append(rank_name(r1));
        d.append("s");
        return EvaluatedHand { hand_rank: HandRank::FullHouse, rank_values: v, description: d };
    }
    if is_flush {
        let v = values_of(cards);
        return EvaluatedHand {
            hand_rank: HandRank::Flush,
            rank_values: v,
            description: suffixed(top, "-high Flush"),
        };
    }
    if is_straight {
        let v = vec![high.value()];
        assert(v@ =~= seq![high.spec_value()]);
        return EvaluatedHand {
            hand_rank: HandRank::Straight,
            rank_values: v,
            description: suffixed(high, "-high Straight"),
        };
    }
    if c0 == 3 {
        let v = vec![r0.value(), r1.value(), r2.value()];
        assert(v@ =~= seq![r0.spec_value(), r1.spec_value(), r2.spec_value()]);
        return EvaluatedHand {
            hand_rank: HandRank::ThreeOfAKind,
            rank_values: v,
            description: named("Three ", r0, "s"),
        };
    }
    if c0 == 2 && c1 == 2 {
        let v = vec![r0.value(), r1.value(), r2.value()];
        assert(v@ =~= seq![r0.spec_value(), r1.spec_value(), r2.spec_value()]);
        let mut d = named("Two Pair, ", r0, "s and ");
        d.append(rank_name(r1));
        d.append("s");
        return EvaluatedHand { hand_rank: HandRank::TwoPair, rank_values: v, description: d };
    }
    if c0 == 2 {
        let v = vec![r0.value(), r1.value(), r2.value(), r3.value()];
        assert(v@ =~= seq![r0.spec_value(), r1.spec_value(), r2.spec_value(), r3.spec_value()]);
        return EvaluatedHand {
            hand_rank: HandRank::Pair,
            rank_values: v,
            description: named("Pair of ", r0, "s"),
        };
    }
    let v = values_of(cards);
    EvaluatedHand { hand_rank: HandRank::HighCard, rank_values: v, description: suffixed(top, "-high") }
}


/// All strictly increasing sequences of `need` indices drawn from
/// `start..n`, in lexicographic order.
#[verifier::opaque]
pub open spec fn index_combinations(n: int, need: nat, start: int) -> Seq<Seq<usize>>
    decreases need, n - start,
{
    if need == 0 {
        seq![Seq::empty()]
    } else if start >= n {
        Seq::empty()
    } else {
        index_combinations(n, (need - 1) as nat, start + 1).map_values(
            |t: Seq<usize>| seq![start as usize] + t,
        ) + index_combinations(n, need, start + 1)
    }
}

/// The contents of a vector of index vectors.
pub open spec fn index_vecs_view(v: Seq<Vec<usize>>) -> Seq<Seq<usize>> {
    v.map_values(|x: Vec<usize>| x@)
}

/// Every combination drawn from `start..n` has `need` indices, strictly
/// increasing, each in `start..n`.
pub proof fn lemma_index_combinations_well_formed(n: int, need: nat, start: int)
    requires
        0 <= start,
        n <= usize::MAX,
    ensures
        forall|j: int|
            0 <= j < index_combinations(n, need, start).len() ==> {
                let t = #[trigger] index_combinations(n, need, start)[j];
                &&& t.len() == need
                &&& forall|a: int| 0 <= a < t.len() ==> start <= #[trigger] t[a] < n
                &&& forall|a: int, b: int| 0 <= a < b < t.len() ==> t[a] < t[b]
            },
    decreases need, n - start,
{
    reveal(index_combinations);
    if need == 0 {
    } else if start >= n {
    } else {
        assert(start as usize == start);
        lemma_index_combinations_well_formed(n, (need - 1) as nat, start + 1);
        lemma_index_combinations_well_formed(n, need, start + 1);
        let a_part = index_combinations(n, (need - 1) as nat, start + 1).map_values(
            |t: Seq<usize>| seq![start as usize] + t,
        );
        let b_part = index_combinations(n, need, start + 1);
        assert forall|j: int| 0 <= j < index_combinations(n, need, start).len() implies {
            let t = #[trigger] index_combinations(n, need, start)[j];
            &&& t.len() == need
            &&& forall|a: int| 0 <= a < t.len() ==> start <= #[trigger] t[a] < n
            &&& forall|a: int, b: int| 0 <= a < b < t.len() ==> t[a] < t[b]
        } by {
            if j < a_part.len() {
                let u = index_combinations(n, (need - 1) as nat, start + 1)[j];
                let t = index_combinations(n, need, start)[j];
                assert(t == seq![start as usize] + u);
                assert forall|a: int| 0 <= a < t.len() implies start <= #[trigger] t[a] < n by {
                    if a > 0 {
                        assert(t[a] == u[a - 1]);
                    }
                }
                assert forall|a: int, b: int| 0 <= a < b < t.len() implies t[a] < t[b] by {
                    assert(t[b] == u[b - 1]);
                    if a > 0 {
                        assert(t[a] == u[a - 1]);
                    }
                }
            } else {
                assert(index_combinations(n, need, start)[j] == b_part[j - a_part.len()]);
            }
        }
    }
}

proof fn lemma_index_combinations_step(n: int, need: nat, i: int, c0: Seq<usize>)
    requires
        0 <= i < n,
        need > 0,
        i < usize::MAX,
    ensures
        index_combinations(n, need, i).map_values(|t: Seq<usize>| c0 + t) =~= index_combinations(
            n,
            (need - 1) as nat,
            i + 1,
        ).map_values(|t: Seq<usize>| c0.push(i as usize) + t) + index_combinations(
            n,
            need,
            i + 1,
        ).map_values(|t: Seq<usize>| c0 + t),
{
    reveal(index_combinations);
    let a = index_combinations(n, (need - 1) as nat, i + 1);
    let b = index_combinations(n, need, i + 1);
    let whole = index_combinations(n, need, i);
    assert(whole == a.map_values(|t: Seq<usize>| seq![i as usize] + t) + b);
    let lhs = whole.map_values(|t: Seq<usize>| c0 + t);
    let rhs = a.map_values(|t: Seq<usize>| c0.push(i as usize) + t) + b.map_values(
        |t: Seq<usize>| c0 + t,
    );
    assert(lhs.len() == rhs.len());
    assert forall|j: int| 0 <= j < lhs.len() implies lhs[j] == rhs[j] by {
        if j < a.len() {
            assert(whole[j] == seq![i as usize] + a[j]);
            assert(c0 + (seq![i as usize] + a[j]) =~= c0.push(i as usize) + a[j]);
        } else {
            assert(whole[j] == b[j - a.len()]);
        }
    }
}

/// Appends to `result` every completion of the prefix `combo` by indices from
/// `start..n` up to `k` indices, in lexicographic order.
fn combine_indices_helper(
    n: usize,
    k: usize,
    start: usize,
    combo: &mut Vec<usize>,
    result: &mut Vec<Vec<usize>>,
)
    requires
        old(combo)@.len() <= k,
    ensures
        final(combo)@ == old(combo)@,
        index_vecs_view(final(result)@) == index_vecs_view(old(result)@) + index_combinations(
            n as int,
            (k - old(combo)@.len()) as nat,
            start as int,
        ).map_values(|t: Seq<usize>| old(combo)@ + t),
    decreases k - combo@.len(),
{
    proof {
        reveal(index_combinations);
    }
    let ghost c0 = combo@;
    let ghost r0 = index_vecs_view(result@);
    let ghost need = (k - c0.len()) as nat;
    if combo.len() == k {
        let copy = combo.clone();
        assert(copy@ =~= c0);
        result.push(copy);
        assert(index_combinations(n as int, 0, start as int).map_values(|t: Seq<usize>| c0 + t)
            =~= seq![c0]);
        assert(index_vecs_view(result@) =~= r0 + seq![c0]);
        return ;
    }
    let mut i: usize = start;
    while i < n
        invariant
            start <= i || n <= start,
            combo@ == c0,
            old(combo)@ == c0,
            c0.len() < k,
            need == (k - c0.len()) as nat,
            index_vecs_view(result@) + index_combinations(n as int, need, i as int).map_values(
                |t: Seq<usize>| c0 + t,
            ) == r0 + index_combinations(n as int, need, start as int).map_values(
                |t: Seq<usize>| c0 + t,
            ),
        decreases n - i,
    {
        let ghost before = index_vecs_view(result@);
        combo.push(i);
        combine_indices_helper(n, k, i + 1, combo, result);
        proof {
            lemma_index_combinations_step(n as int, need, i as int, c0);
            assert(index_vecs_view(result@) =~= before + index_combinations(
                n as int,
                (need - 1) as nat,
                i + 1,
            ).map_values(|t: Seq<usize>| c0.push(i) + t));
        }
        combo.pop();
        i = i + 1;
    }
    assert(index_combinations(n as int, need, i as int) =~= Seq::<Seq<usize>>::empty());
    assert(index_combinations(n as int, need, i as int).map_values(|t: Seq<usize>| c0 + t)
        =~= Seq::<Seq<usize>>::empty());
    assert(index_vecs_view(result@) =~= r0 + index_combinations(
        n as int,
        need,
        start as int,
    ).map_values(|t: Seq<usize>| c0 + t));
}

/// All combinations of `k` indices out of `0..n`, each in increasing order,
/// listed in lexicographic order (none when `k > n`).
fn combinations_indices(n: usize, k: usize) -> (r: Vec<Vec<usize>>)
    ensures
        k > n ==> r@.len() == 0,
        k <= n ==> index_vecs_view(r@) == index_combinations(n as int, k as nat, 0),
{
    proof {
        reveal(index_combinations);
    }
    if k > n {
        return Vec::new();
    }
    let mut result: Vec<Vec<usize>> = Vec::new();
    let mut combo: Vec<usize> = Vec::new();
    combine_indices_helper(n, k, 0, &mut combo, &mut result);
    assert(index_vecs_view(Seq::<Vec<usize>>::empty()) =~= Seq::<Seq<usize>>::empty());
    assert(index_combinations(n as int, k as nat, 0).map_values(
        |t: Seq<usize>| Seq::<usize>::empty() + t,
    ) =~= index_combinations(n as int, k as nat, 0));
    assert(index_vecs_view(result@) =~= index_combinations(n as int, k as nat, 0));
    result
}


/// A strictly increasing sequence of `need` indices in `start..n`.
pub open spec fn is_index_choice(t: Seq<usize>, n: int, need: nat, start: int) -> bool {
    &&& t.len() == need
    &&& forall|a: int| 0 <= a < t.len() ==> start <= #[trigger] t[a] < n
    &&& forall|a: int, b: int| 0 <= a < b < t.len() ==> t[a] < t[b]
}

/// The combinations are complete: every strictly increasing choice of
/// `need` indices out of `start..n` is among them.
pub proof fn lemma_index_combinations_complete(n: int, need: nat, start: int, t: Seq<usize>)
    requires
        is_index_choice(t, n, need, start),
    ensures
        index_combinations(n, need, start).contains(t),
    decreases need, n - start,
{
    reveal(index_combinations);
    if need == 0 {
        assert(t =~= Seq::<usize>::empty());
        assert(index_combinations(n, need, start)[0] == t);
    } else if start >= n {
        assert(start <= t[0] < n);
    } else {
        let a_part = index_combinations(n, (need - 1) as nat, start + 1).map_values(
            |u: Seq<usize>| seq![start as usize] + u,
        );
        let b_part = index_combinations(n, need, start + 1);
        assert(index_combinations(n, need, start) == a_part + b_part);
        if t[0] == start {
            let rest = t.drop_first();
            assert forall|a: int| 0 <= a < rest.len() implies start + 1 <= #[trigger] rest[a] < n by {
                assert(rest[a] == t[a + 1]);
                assert(t[0] < t[a + 1]);
            }
            assert forall|a: int, b: int| 0 <= a < b < rest.len() implies rest[a] < rest[b] by {
                assert(rest[a] == t[a + 1] && rest[b] == t[b + 1]);
            }
            lemma_index_combinations_complete(n, (need - 1) as nat, start + 1, rest);
            let inner = index_combinations(n, (need - 1) as nat, start + 1);
            let j = choose|j: int| 0 <= j < inner.len() && inner[j] == rest;
            assert(seq![start as usize] + rest =~= t);
            assert(a_part[j] == t);
            assert((a_part + b_part)[j] == t);
        } else {
            assert forall|a: int| 0 <= a < t.len() implies start + 1 <= #[trigger] t[a] < n by {
                if a > 0 {
                    assert(t[0] < t[a]);
                }
            }
            lemma_index_combinations_complete(n, need, start + 1, t);
            let j = choose|j: int| 0 <= j < b_part.len() && b_part[j] == t;
            assert((a_part + b_part)[a_part.len() + j] == t);
        }
    }
}

/// The hand that `evaluate_hand` reports beats or ties every hand made of
/// five of the seven sorted cards, whichever five are taken.
pub proof fn lemma_best_hand_beats_every_five(s: Seq<Card>, h: HandValue, c: Seq<usize>)
    requires
        is_best_five(s, index_combinations(7, 5, 0), h),
        is_index_choice(c, 7, 5, 0),
    ensures
        hand_order(eval_five_spec(pick(s, c)), h) <= 0,
{
    lemma_index_combinations_complete(7, 5, 0, c);
    let cs = index_combinations(7, 5, 0);
    let j = choose|j: int| 0 <= j < cs.len() && cs[j] == c;
    assert(hand_order(eval_five_spec(pick(s, cs[j])), h) <= 0);
}

/// Every index combination of `need` indices out of `start..n` exists when
/// there are enough indices.
pub(crate) proof fn lemma_index_combinations_nonempty(n: int, need: nat, start: int)
    requires
        need <= n - start,
    ensures
        index_combinations(n, need, start).len() > 0,
    decreases need, n - start,
{
    reveal(index_combinations);
    if need > 0 {
        lemma_index_combinations_nonempty(n, (need - 1) as nat, start + 1);
    }
}

/// `lex_order` is antisymmetric and reflexive.
pub proof fn lemma_lex_order_antisymmetric(a: Seq<u8>, b: Seq<u8>)
    ensures
        lex_order(a, b) == -lex_order(b, a),
        lex_order(a, a) == 0,
        -1 <= lex_order(a, b) <= 1,
    decreases a.len(),
{
    if a.len() > 0 && b.len() > 0 {
        lemma_lex_order_antisymmetric(a.drop_first(), b.drop_first());
    }
    if a.len() > 0 {
        lemma_lex_order_antisymmetric(a.drop_first(), a.drop_first());
    }
}

/// `lex_order` is transitive.
pub proof fn lemma_lex_order_transitive(a: Seq<u8>, b: Seq<u8>, c: Seq<u8>)
    requires
        lex_order(a, b) <= 0,
        lex_order(b, c) <= 0,
    ensures
        lex_order(a, c) <= 0,
    decreases a.len(),
{
    if a.len() > 0 && b.len() > 0 && c.len() > 0 && a[0] == b[0] && b[0] == c[0] {
        lemma_lex_order_transitive(a.drop_first(), b.drop_first(), c.drop_first());
    }
}

/// The order of hands is antisymmetric, reflexive and transitive: a total preorder.
pub proof fn lemma_hand_order_total_preorder(a: HandValue, b: HandValue, c: HandValue)
    ensures
        hand_order(a, b) == -hand_order(b, a),
        hand_order(a, a) == 0,
        hand_order(a, b) <= 0 && hand_order(b, c) <= 0 ==> hand_order(a, c) <= 0,
{
    lemma_lex_order_antisymmetric(a.rank_values, b.rank_values);
    lemma_lex_order_antisymmetric(a.rank_values, a.rank_values);
    if hand_order(a, b) <= 0 && hand_order(b, c) <= 0 {
        if a.hand_rank.spec_strength() == b.hand_rank.spec_strength()
            && b.hand_rank.spec_strength() == c.hand_rank.spec_strength() {
            lemma_lex_order_transitive(a.rank_values, b.rank_values, c.rank_values);
        }
    }
}

/// The hand categories in the standard order, weakest first.
pub open spec fn standard_category_order() -> Seq<HandRank> {
    seq![
        HandRank::HighCard,
        HandRank::Pair,
        HandRank::TwoPair,
        HandRank::ThreeOfAKind,
        HandRank::Straight,
        HandRank::Flush,
        HandRank::FullHouse,
        HandRank::FourOfAKind,
        HandRank::StraightFlush,
        HandRank::RoyalFlush,
    ]
}

/// A hand of a higher category beats any hand of a lower one, whatever
/// their tie-break values, in the standard order of categories.
pub proof fn lemma_higher_category_wins(a: HandValue, b: HandValue, i: int, j: int)
    requires
        0 <= i < j < 10,
        b.hand_rank == standard_category_order()[i],
        a.hand_rank == standard_category_order()[j],
    ensures
        hand_order(a, b) == 1,
        hand_order(b, a) == -1,
{
}

/// The cards chosen by a combination of indices.
pub open spec fn pick(s: Seq<Card>, c: Seq<usize>) -> Seq<Card> {
    c.map_values(|i: usize| s[i as int])
}

/// The hand every real hand beats: no category above HighCard and no values.
pub open spec fn empty_hand() -> HandValue {
    HandValue { hand_rank: HandRank::HighCard, rank_values: Seq::empty(), description: Seq::empty() }
}

/// The best hand over the combinations, scanning them in order and keeping
/// the first of equally strong hands.
pub open spec fn best_of(s: Seq<Card>, cs: Seq<Seq<usize>>) -> HandValue
    decreases cs.len(),
{
    if cs.len() == 0 {
        empty_hand()
    } else {
        let b = best_of(s, cs.drop_last());
        let e = eval_five_spec(pick(s, cs.last()));
        if hand_order(e, b) > 0 {
            e
        } else {
            b
        }
    }
}

/// The best five-card hand out of seven cards sorted by descending rank.
pub open spec fn best_hand_of_sorted(s: Seq<Card>) -> HandValue {
    best_of(s, index_combinations(7, 5, 0))
}

/// `h` is a maximum over the five-card hands that the combinations pick from `s`.
pub open spec fn is_best_five(s: Seq<Card>, cs: Seq<Seq<usize>>, h: HandValue) -> bool {
    &&& forall|j: int| 0 <= j < cs.len() ==> hand_order(#[trigger] eval_five_spec(pick(s, cs[j])), h) <= 0
    &&& exists|j: int| 0 <= j < cs.len() && h == #[trigger] eval_five_spec(pick(s, cs[j]))
}

proof fn lemma_real_hand_beats_empty(x: Seq<Card>)
    requires
        x.len() == 5,
    ensures
        hand_order(eval_five_spec(x), empty_hand()) > 0,
{
    reveal(eval_five_spec);
    assert(card_values(x).len() == 5);
}

/// Scanning the combinations keeps a hand that no picked hand beats, and that
/// is one of the picked hands.
pub proof fn lemma_best_of_is_maximum(s: Seq<Card>, cs: Seq<Seq<usize>>)
    requires
        cs.len() > 0,
        forall|j: int| 0 <= j < cs.len() ==> (#[trigger] cs[j]).len() == 5,
    ensures
        is_best_five(s, cs, best_of(s, cs)),
    decreases cs.len(),
{
    let b = best_of(s, cs.drop_last());
    let e = eval_five_spec(pick(s, cs.last()));
    let best = best_of(s, cs);
    assert(pick(s, cs.last()).len() == 5);
    lemma_hand_order_total_preorder(e, b, e);
    lemma_hand_order_total_preorder(best, best, best);
    if cs.len() == 1 {
        lemma_real_hand_beats_empty(pick(s, cs.last()));
        assert(best == eval_five_spec(pick(s, cs[0])));
    } else {
        let prev = cs.drop_last();
        assert forall|j: int| 0 <= j < prev.len() implies (#[trigger] prev[j]).len() == 5 by {
            assert(prev[j] == cs[j]);
        }
        lemma_best_of_is_maximum(s, prev);
        assert forall|j: int| 0 <= j < cs.len() implies hand_order(
            #[trigger] eval_five_spec(pick(s, cs[j])),
            best,
        ) <= 0 by {
            if j < cs.len() - 1 {
                assert(cs[j] == prev[j]);
                let ej = eval_five_spec(pick(s, cs[j]));
                lemma_hand_order_total_preorder(ej, b, best);
            }
        }
        if hand_order(e, b) > 0 {
            assert(best == eval_five_spec(pick(s, cs[cs.len() - 1])));
        } else {
            let j = choose|j: int| 0 <= j < prev.len() && b == #[trigger] eval_five_spec(pick(s, prev[j]));
            assert(cs[j] == prev[j]);
            assert(best == eval_five_spec(pick(s, cs[j])));
        }
    }
}

/// `x` inserted into `s` after the leading cards of rank at least its own.
pub open spec fn insert_by_rank(s: Seq<Card>, x: Card) -> Seq<Card>
    decreases s.len(),
{
    if s.len() == 0 {
        seq![x]
    } else if s[0].rank.spec_value() >= x.rank.spec_value() {
        seq![s[0]] + insert_by_rank(s.drop_first(), x)
    } else {
        seq![x] + s
    }
}

/// The cards sorted by descending rank, stably: cards of equal rank keep
/// their relative order (each card is inserted after the equal ones before it).
#[verifier::opaque]
pub open spec fn sort_by_rank_spec(s: Seq<Card>) -> Seq<Card>
    decreases s.len(),
{
    if s.len() == 0 {
        s
    } else {
        insert_by_rank(sort_by_rank_spec(s.drop_last()), s.last())
    }
}

/// Inserting into a rank-sorted sequence keeps it sorted and adds `x` to its cards.
proof fn lemma_insert_by_rank_sorted(s: Seq<Card>, x: Card)
    requires
        sorted_desc(s),
    ensures
        sorted_desc(insert_by_rank(s, x)),
        insert_by_rank(s, x).to_multiset() == s.to_multiset().insert(x),
        insert_by_rank(s, x).len() == s.len() + 1,
    decreases s.len(),
{
    broadcast use vstd::seq_lib::group_to_multiset_ensures;
    broadcast use vstd::multiset::group_multiset_axioms;
    if s.len() == 0 {
        assert(insert_by_rank(s, x) =~= seq![x]);
        assert(seq![x] =~= Seq::<Card>::empty().push(x));
    } else if s[0].rank.spec_value() >= x.rank.spec_value() {
        let t = s.drop_first();
        assert(sorted_desc(t)) by {
            assert forall|a: int, b: int| 0 <= a <= b < t.len() implies t[a].rank.spec_value()
                >= t[b].rank.spec_value() by {
                assert(t[a] == s[a + 1] && t[b] == s[b + 1]);
            }
        }
        lemma_insert_by_rank_sorted(t, x);
        let it = insert_by_rank(t, x);
        let r = seq![s[0]] + it;
        assert forall|a: int, b: int| 0 <= a <= b < r.len() implies r[a].rank.spec_value()
            >= r[b].rank.spec_value() by {
            if a == 0 && b > 0 {
                assert(r[b] == it[b - 1]);
                assert(it.to_multiset().count(it[b - 1]) > 0);
                assert(it.to_multiset().count(it[b - 1]) == t.to_multiset().insert(x).count(it[b - 1]));
                if it[b - 1] != x {
                    assert(t.to_multiset().count(it[b - 1]) > 0);
                    assert(t.contains(it[b - 1]));
                    let k = choose|k: int| 0 <= k < t.len() && t[k] == it[b - 1];
                    assert(t[k] == s[k + 1]);
                }
            }
        }
        vstd::seq_lib::lemma_multiset_commutative(seq![s[0]], it);
        vstd::seq_lib::lemma_multiset_commutative(seq![s[0]], t);
        assert(seq![s[0]] + t =~= s);
    } else {
        let r = seq![x] + s;
        assert forall|a: int, b: int| 0 <= a <= b < r.len() implies r[a].rank.spec_value()
            >= r[b].rank.spec_value() by {
            if a == 0 && b > 0 {
                assert(r[b] == s[b - 1]);
            } else if a > 0 {
                assert(r[a] == s[a - 1] && r[b] == s[b - 1]);
            }
        }
        vstd::seq_lib::lemma_multiset_commutative(seq![x], s);
    }
}

/// The rank sort gives a rank-sorted rearrangement of the cards.
pub proof fn lemma_rank_sort_is_sorted_permutation(s: Seq<Card>)
    ensures
        sorted_desc(sort_by_rank_spec(s)),
        sort_by_rank_spec(s).to_multiset() == s.to_multiset(),
        sort_by_rank_spec(s).len() == s.len(),
    decreases s.len(),
{
    broadcast use vstd::seq_lib::group_to_multiset_ensures;
    reveal(sort_by_rank_spec);
    if s.len() > 0 {
        lemma_rank_sort_is_sorted_permutation(s.drop_last());
        lemma_insert_by_rank_sorted(sort_by_rank_spec(s.drop_last()), s.last());
        assert(s.drop_last().push(s.last()) =~= s);
    }
}

/// Inserting at the first position whose card ranks below `x` is `insert_by_rank`.
proof fn lemma_insert_by_rank_at(s: Seq<Card>, x: Card, p: int)
    requires
        0 <= p <= s.len(),
        forall|q: int| 0 <= q < p ==> s[q].rank.spec_value() >= x.rank.spec_value(),
        p < s.len() ==> s[p].rank.spec_value() < x.rank.spec_value(),
    ensures
        insert_by_rank(s, x) == s.insert(p, x),
    decreases p,
{
    if p == 0 {
        if s.len() == 0 {
            assert(s.insert(0, x) =~= seq![x]);
        } else {
            assert(seq![x] + s =~= s.insert(0, x));
        }
    } else {
        let t = s.drop_first();
        assert forall|q: int| 0 <= q < p - 1 implies t[q].rank.spec_value() >= x.rank.spec_value() by {
            assert(t[q] == s[q + 1]);
        }
        lemma_insert_by_rank_at(t, x, p - 1);
        assert(seq![s[0]] + t.insert(p - 1, x) =~= s.insert(p, x));
    }
}

/// Sorts the cards by descending rank value (stable: equal ranks keep their order).
fn sort_by_rank_desc(cards: &mut Vec<Card>)
    ensures
        final(cards)@ == sort_by_rank_spec(old(cards)@),
        final(cards)@.to_multiset() == old(cards)@.to_multiset(),
        final(cards)@.len() == old(cards)@.len(),
        sorted_desc(final(cards)@),
{
    let ghost orig = cards@;
    proof {
        lemma_rank_sort_is_sorted_permutation(orig);
    }
    let n = cards.len();
    if n == 0 {
        proof {
            reveal(sort_by_rank_spec);
        }
        return ;
    }
    proof {
        reveal(sort_by_rank_spec);
        let one = orig.subrange(0, 1);
        assert(one.drop_last() =~= Seq::<Card>::empty());
        assert(sort_by_rank_spec(one.drop_last()) =~= Seq::<Card>::empty());
        assert(cards@.subrange(0, 1) =~= sort_by_rank_spec(one));
    }
    let mut i: usize = 1;
    while i < n
        invariant
            1 <= i <= n,
            n == cards@.len(),
            n == orig.len(),
            cards@.subrange(0, i as int) == sort_by_rank_spec(orig.subrange(0, i as int)),
            cards@.subrange(i as int, n as int) == orig.subrange(i as int, n as int),
        decreases n - i,
    {
        let ghost before = cards@;
        proof {
            assert(before[i as int] == before.subrange(i as int, n as int)[0]);
            assert(orig[i as int] == orig.subrange(i as int, n as int)[0]);
        }
        let x = cards.remove(i);
        let ghost removed = cards@;
        assert(removed == before.remove(i as int));
        let mut p: usize = 0;
        while p < i && cards[p].rank.value() >= x.rank.value()
            invariant
                p <= i,
                i < n,
                cards@ == removed,
                removed.len() == n - 1,
                forall|q: int| 0 <= q < p ==> cards@[q].rank.spec_value() >= x.rank.spec_value(),
            decreases i - p,
        {
            p = p + 1;
        }
        cards.insert(p, x);
        proof {
            let t = cards@;
            assert(t == removed.insert(p as int, x));
            let prefix = before.subrange(0, i as int);
            assert(removed.subrange(0, i as int) =~= prefix);
            assert forall|q: int| 0 <= q < p implies prefix[q].rank.spec_value()
                >= x.rank.spec_value() by {
                assert(prefix[q] == removed[q]);
            }
            if p < i {
                assert(prefix[p as int] == removed[p as int]);
            }
            lemma_insert_by_rank_at(prefix, x, p as int);
            reveal(sort_by_rank_spec);
            assert(t.subrange(0, i + 1) =~= prefix.insert(p as int, x));
            assert(orig.subrange(0, i + 1).drop_last() =~= orig.subrange(0, i as int));
            assert(orig.subrange(0, i + 1).last() == x);
            assert(t.subrange(i + 1, n as int) =~= orig.subrange(i + 1, n as int)) by {
                assert forall|q: int| 0 <= q < n - (i + 1) implies #[trigger] t.subrange(
                    i + 1,
                    n as int,
                )[q] == orig.subrange(i + 1, n as int)[q] by {
                    assert(t[i + 1 + q] == removed[i + q]);
                    assert(removed[i + q] == before[i + 1 + q]);
                    assert(before[i + 1 + q] == before.subrange(i as int, n as int)[q + 1]);
                    assert(orig[i + 1 + q] == orig.subrange(i as int, n as int)[q + 1]);
                }
            }
        }
        i = i + 1;
    }
    assert(cards@.subrange(0, n as int) =~= cards@);
    assert(orig.subrange(0, n as int) =~= orig);
}

/// The cards at the given positions, in the order of the positions.
fn pick_cards(cards: &Vec<Card>, indices: &Vec<usize>) -> (hand: Vec<Card>)
    requires
        forall|a: int| 0 <= a < indices@.len() ==> 0 <= #[trigger] indices@[a] < cards@.len(),
    ensures
        hand@ == pick(cards@, indices@),
{
    let mut hand: Vec<Card> = Vec::new();
    let mut k: usize = 0;
    while k < indices.len()
        invariant
            k <= indices@.len(),
            forall|a: int| 0 <= a < indices@.len() ==> 0 <= #[trigger] indices@[a] < cards@.len(),
            hand@ == pick(cards@, indices@.take(k as int)),
        decreases indices@.len() - k,
    {
        hand.push(cards[indices[k]]);
        assert(pick(cards@, indices@.take(k + 1)) =~= pick(cards@, indices@.take(k as int)).push(
            cards@[indices@[k as int] as int],
        ));
        k = k + 1;
    }
    assert(indices@.take(indices@.len() as int) =~= indices@);
    hand
}

/// The error text for a hand of the wrong size.
pub open spec fn seven_card_message(n: int) -> Seq<char> {
    "Must have exactly 7 cards (2 hole + 5 community), got "@ + decimal(n)
}

/// Evaluates a 7-card poker hand (2 hole cards + 5 community cards) and
/// returns the best 5-card hand.
///
/// The cards are sorted by descending rank and all 21 five-card combinations
/// are evaluated; the strongest (the first of equally strong ones) is kept.
/// Any other number of cards is an error.
pub fn evaluate_hand(cards: Vec<Card>) -> (r: Result<EvaluatedHand, PokerError>)
    ensures
        cards@.len() != 7 ==> (r matches Err(e) && e@ == ErrorView::Game(
            seven_card_message(cards@.len() as int),
        )),
        cards@.len() == 7 ==> (r matches Ok(h) && h@ == best_hand_of_sorted(
            sort_by_rank_spec(cards@),
        ) && is_best_five(sort_by_rank_spec(cards@), index_combinations(7, 5, 0), h@)),
        sort_by_rank_spec(cards@).to_multiset() == cards@.to_multiset(),
        sorted_desc(sort_by_rank_spec(cards@)),
{
    let ghost input = cards@;
    proof {
        lemma_rank_sort_is_sorted_permutation(input);
    }
    if cards.len() != 7 {
        let mut message = String::from_str("Must have exactly 7 cards (2 hole + 5 community), got ");
        let count = int_to_string(cards.len() as i128);
        message.append(count.as_str());
        return Err(PokerError::Game { message });
    }
    let mut cards = cards;
    sort_by_rank_desc(&mut cards);
    let ghost s = cards@;
    let combos = combinations_indices(7, 5);
    let ghost cs = index_vecs_view(combos@);
    proof {
        lemma_index_combinations_well_formed(7, 5, 0);
        lemma_index_combinations_nonempty(7, 5, 0);
    }
    let mut best = EvaluatedHand {
        hand_rank: HandRank::HighCard,
        rank_values: Vec::new(),
        description: String::new(),
    };
    assert(best@ == best_of(s, cs.take(0)));
    let mut ci: usize = 0;
    while ci < combos.len()
        invariant
            ci <= combos@.len(),
            cs == index_vecs_view(combos@),
            cs == index_combinations(7, 5, 0),
            s == cards@,
            s.len() == 7,
            forall|j: int|
                0 <= j < cs.len() ==> {
                    let t = #[trigger] cs[j];
                    &&& t.len() == 5
                    &&& forall|a: int| 0 <= a < t.len() ==> 0 <= #[trigger] t[a] < 7
                },
            best@ == best_of(s, cs.take(ci as int)),
        decreases combos@.len() - ci,
    {
        let indices = &combos[ci];
        assert(indices@ == cs[ci as int]);
        let hand = pick_cards(&cards, indices);
        let eval = evaluate_five_cards(&hand);
        assert(cs.take(ci + 1).drop_last() =~= cs.take(ci as int));
        assert(cs.take(ci + 1).last() == cs[ci as int]);
        if compare_hands(&eval, &best) > 0 {
            best = eval;
        }
        ci = ci + 1;
    }
    assert(cs.take(cs.len() as int) =~= cs);
    proof {
        lemma_best_of_is_maximum(s, cs);
        assert(best_hand_of_sorted(s) == best@);
    }
    Ok(best)
}

} // verus!
