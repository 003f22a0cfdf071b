//! What the tie-break values of an evaluated hand are, stated from the cards
//! themselves.

use vstd::prelude::*;

use crate::game_logic::hand_evaluator::{
    is_flush,
    is_straight,
    sorted_desc,
    card_values,
    count_rank,
    eval_five_spec,
    groups_from,
    HandRank,
};
use crate::models::card::{rank_at, Card, Rank};

verus! {

/// The position of a rank in `rank_at`.
proof fn lemma_rank_position(r: Rank)
    ensures
        rank_at(r.spec_value() - 2) == r,
        0 <= r.spec_value() - 2 < 13,
{
}

/// Every group is a rank of the hand with its multiplicity, and groups come
/// by multiplicity, then rank, both descending.
proof fn lemma_groups_sound(s: Seq<Card>, c: int, j: int)
    requires
        -1 <= j <= 12,
        c <= 5,
    ensures
        forall|k: int|
            0 <= k < groups_from(s, c, j).len() ==> {
                let (n, r) = #[trigger] groups_from(s, c, j)[k];
                &&& count_rank(s, r) == n
                &&& 1 <= n <= c
                &&& n < c || r.spec_value() <= j + 2
            },
        forall|k: int, l: int|
            0 <= k < l < groups_from(s, c, j).len() ==> {
                let (n1, r1) = #[trigger] groups_from(s, c, j)[k];
                let (n2, r2) = #[trigger] groups_from(s, c, j)[l];
                n1 > n2 || (n1 == n2 && r1.spec_value() > r2.spec_value())
            },
    decreases c, j + 1,
{
    if c <= 0 {
    } else if j < 0 {
        lemma_groups_sound(s, c - 1, 12);
    } else {
        lemma_groups_sound(s, c, j - 1);
        let rest = groups_from(s, c, j - 1);
        let g = groups_from(s, c, j);
        if count_rank(s, rank_at(j)) == c {
            let head = (c as usize, rank_at(j));
            assert(g == seq![head] + rest);
            assert(rank_at(j).spec_value() == j + 2);
            assert forall|k: int| 0 <= k < g.len() implies {
                let (n, r) = #[trigger] g[k];
                &&& count_rank(s, r) == n
                &&& 1 <= n <= c
                &&& n < c || r.spec_value() <= j + 2
            } by {
                if k > 0 {
                    assert(g[k] == rest[k - 1]);
                }
            }
            assert forall|k: int, l: int| 0 <= k < l < g.len() implies {
                let (n1, r1) = #[trigger] g[k];
                let (n2, r2) = #[trigger] g[l];
                n1 > n2 || (n1 == n2 && r1.spec_value() > r2.spec_value())
            } by {
                assert(g[l] == rest[l - 1]);
                if k > 0 {
                    assert(g[k] == rest[k - 1]);
                }
            }
        }
    }
}

/// Every rank of the hand whose multiplicity is below `c`, or equal to `c`
/// at a rank up to `rank_at(j)`, has its group.
proof fn lemma_groups_complete(s: Seq<Card>, c: int, j: int, r: Rank)
    requires
        -1 <= j <= 12,
        c <= 5,
        1 <= count_rank(s, r),
        count_rank(s, r) < c || (count_rank(s, r) == c && r.spec_value() <= j + 2),
    ensures
        groups_from(s, c, j).contains((count_rank(s, r) as usize, r)),
    decreases c, j + 1,
{
    lemma_rank_position(r);
    let item = (count_rank(s, r) as usize, r);
    if c <= 0 {
    } else if j < 0 {
        lemma_groups_complete(s, c - 1, 12, r);
        assert(groups_from(s, c, j) == groups_from(s, c - 1, 12));
    } else {
        let rest = groups_from(s, c, j - 1);
        let g = groups_from(s, c, j);
        if count_rank(s, r) == c && r.spec_value() == j + 2 {
            assert(rank_at(j) == r);
            assert(g == seq![(c as usize, rank_at(j))] + rest);
            assert(g[0] == item);
            assert(g.contains(item));
        } else {
            lemma_groups_complete(s, c, j - 1, r);
            let k = choose|k: int| 0 <= k < rest.len() && rest[k] == item;
            if count_rank(s, rank_at(j)) == c {
                assert(g == seq![(c as usize, rank_at(j))] + rest);
                assert(g[k + 1] == item);
                assert(g.contains(item));
            } else {
                assert(g == rest);
                assert(g[k] == item);
                assert(g.contains(item));
            }
        }
    }
}

/// A card's rank occurs at least once.
proof fn lemma_count_of_present(s: Seq<Card>, i: int)
    requires
        0 <= i < s.len(),
    ensures
        count_rank(s, s[i].rank) >= 1,
    decreases s.len(),
{
    if i < s.len() - 1 {
        assert(s.drop_last()[i] == s[i]);
        lemma_count_of_present(s.drop_last(), i);
    }
}

/// Two different ranks together occur at most as often as there are cards.
proof fn lemma_two_ranks_bound(s: Seq<Card>, a: Rank, b: Rank)
    requires
        a != b,
    ensures
        count_rank(s, a) + count_rank(s, b) <= s.len(),
    decreases s.len(),
{
    if s.len() > 0 {
        lemma_two_ranks_bound(s.drop_last(), a, b);
    }
}

/// Where two ranks do not fill the hand, a card of a third rank is there.
proof fn lemma_third_rank(s: Seq<Card>, a: Rank, b: Rank)
    requires
        count_rank(s, a) + count_rank(s, b) < s.len(),
    ensures
        exists|i: int| 0 <= i < s.len() && s[i].rank != a && #[trigger] s[i].rank != b,
    decreases s.len(),
{
    if s.last().rank != a && s.last().rank != b {
        assert(s[s.len() - 1].rank != b);
    } else {
        lemma_third_rank(s.drop_last(), a, b);
        let i = choose|i: int| 0 <= i < s.drop_last().len() && s.drop_last()[i].rank != a
            && #[trigger] s.drop_last()[i].rank != b;
        assert(s[i] == s.drop_last()[i]);
    }
}

/// Where one rank does not fill the hand, a card of another rank is there.
proof fn lemma_other_rank(s: Seq<Card>, a: Rank)
    requires
        count_rank(s, a) < s.len(),
    ensures
        exists|i: int| 0 <= i < s.len() && #[trigger] s[i].rank != a,
    decreases s.len(),
{
    if s.last().rank != a {
        assert(s[s.len() - 1].rank != a);
    } else {
        lemma_other_rank(s.drop_last(), a);
        let i = choose|i: int| 0 <= i < s.drop_last().len() && #[trigger] s.drop_last()[i].rank != a;
        assert(s[i] == s.drop_last()[i]);
    }
}

/// Three different ranks together occur at most as often as there are cards.
proof fn lemma_three_ranks_bound(s: Seq<Card>, a: Rank, b: Rank, c: Rank)
    requires
        a != b,
        a != c,
        b != c,
    ensures
        count_rank(s, a) + count_rank(s, b) + count_rank(s, c) <= s.len(),
    decreases s.len(),
{
    if s.len() > 0 {
        lemma_three_ranks_bound(s.drop_last(), a, b, c);
    }
}

/// Where three ranks do not fill the hand, a card of a fourth rank is there.
proof fn lemma_fourth_rank(s: Seq<Card>, a: Rank, b: Rank, c: Rank)
    requires
        count_rank(s, a) + count_rank(s, b) + count_rank(s, c) < s.len(),
    ensures
        exists|i: int|
            0 <= i < s.len() && s[i].rank != a && s[i].rank != b && #[trigger] s[i].rank != c,
    decreases s.len(),
{
    if s.last().rank != a && s.last().rank != b && s.last().rank != c {
        assert(s[s.len() - 1].rank != c);
    } else {
        lemma_fourth_rank(s.drop_last(), a, b, c);
        let i = choose|i: int|
            0 <= i < s.drop_last().len() && s.drop_last()[i].rank != a && s.drop_last()[i].rank
                != b && #[trigger] s.drop_last()[i].rank != c;
        assert(s[i] == s.drop_last()[i]);
    }
}

/// The group of the rank of card `i` stands in the groups of a five-card hand.
proof fn lemma_card_has_group(x: Seq<Card>, i: int) -> (k: int)
    requires
        x.len() == 5,
        0 <= i < 5,
    ensures
        0 <= k < groups_from(x, 5, 12).len(),
        groups_from(x, 5, 12)[k] == (count_rank(x, x[i].rank) as usize, x[i].rank),
{
    lemma_count_of_present(x, i);
    lemma_two_ranks_bound(x, x[i].rank, if x[i].rank == Rank::Two {
        Rank::Three
    } else {
        Rank::Two
    });
    lemma_rank_position(x[i].rank);
    lemma_groups_complete(x, 5, 12, x[i].rank);
    let g = groups_from(x, 5, 12);
    choose|k: int| 0 <= k < g.len() && g[k] == (count_rank(x, x[i].rank) as usize, x[i].rank)
}

/// How many cards of a rank there are is how often its value occurs among
/// the card values.
proof fn lemma_count_rank_is_value_count(s: Seq<Card>, r: Rank)
    ensures
        count_rank(s, r) == card_values(s).to_multiset().count(r.spec_value()),
    decreases s.len(),
{
    broadcast use vstd::seq_lib::group_to_multiset_ensures;
    broadcast use vstd::multiset::group_multiset_axioms;
    if s.len() == 0 {
        assert(card_values(s) =~= Seq::<u8>::empty());
    } else {
        lemma_count_rank_is_value_count(s.drop_last(), r);
        assert(card_values(s) =~= card_values(s.drop_last()).push(s.last().rank.spec_value()));
        crate::models::card::lemma_rank_value_injective(s.last().rank, r);
    }
}

/// Three of a kind is broken by the trips' rank, then by the two other
/// cards, higher first: the tie-break values are the value held three times
/// followed by the two values held once, in descending order.
pub proof fn lemma_three_of_a_kind_tie_break(x: Seq<Card>)
    requires
        x.len() == 5,
        eval_five_spec(x).hand_rank == HandRank::ThreeOfAKind,
    ensures
        ({
            let v = eval_five_spec(x).rank_values;
            let counts = card_values(x).to_multiset();
            &&& v.len() == 3
            &&& counts.count(v[0]) == 3
            &&& counts.count(v[1]) == 1
            &&& counts.count(v[2]) == 1
            &&& v[1] > v[2]
        }),
{
    reveal(eval_five_spec);
    let g = groups_from(x, 5, 12);
    lemma_groups_sound(x, 5, 12);
    let h = eval_five_spec(x);
    // The first group is the trips.
    assert(g.len() > 0 && g[0].0 == 3);
    let t = g[0].1;
    assert(count_rank(x, t) == 3);
    // A second rank is there, in a later group.
    lemma_other_rank(x, t);
    let i1 = choose|i: int| 0 <= i < x.len() && #[trigger] x[i].rank != t;
    lemma_count_of_present(x, i1);
    lemma_two_ranks_bound(x, t, x[i1].rank);
    lemma_groups_complete(x, 5, 12, x[i1].rank);
    let k1 = choose|k: int| 0 <= k < g.len() && g[k] == (count_rank(x, x[i1].rank) as usize, x[i1].rank);
    assert(k1 != 0);
    assert(g.len() > 1);
    let a = g[1].1;
    assert(count_rank(x, a) == g[1].0);
    assert(a != t);
    lemma_two_ranks_bound(x, t, a);
    assert(g[1].0 == 1);
    // A third rank is there, in a group after the second.
    lemma_third_rank(x, t, a);
    let i2 = choose|i: int| 0 <= i < x.len() && x[i].rank != t && #[trigger] x[i].rank != a;
    lemma_count_of_present(x, i2);
    lemma_two_ranks_bound(x, t, x[i2].rank);
    lemma_groups_complete(x, 5, 12, x[i2].rank);
    let k2 = choose|k: int| 0 <= k < g.len() && g[k] == (count_rank(x, x[i2].rank) as usize, x[i2].rank);
    assert(k2 != 0 && k2 != 1);
    assert(g.len() > 2);
    let b = g[2].1;
    assert(g[2].0 == 1);
    assert(h.rank_values == seq![t.spec_value(), a.spec_value(), b.spec_value()]);
    lemma_count_rank_is_value_count(x, t);
    lemma_count_rank_is_value_count(x, a);
    lemma_count_rank_is_value_count(x, b);
}

/// Four of a kind is broken by the quads' rank, then by the fifth card: the
/// tie-break values are the value held four times, then the value held once.
pub proof fn lemma_four_of_a_kind_tie_break(x: Seq<Card>)
    requires
        x.len() == 5,
        eval_five_spec(x).hand_rank == HandRank::FourOfAKind,
    ensures
        ({
            let v = eval_five_spec(x).rank_values;
            let counts = card_values(x).to_multiset();
            &&& v.len() == 2
            &&& counts.count(v[0]) == 4
            &&& counts.count(v[1]) == 1
        }),
{
    reveal(eval_five_spec);
    let g = groups_from(x, 5, 12);
    lemma_groups_sound(x, 5, 12);
    assert(g.len() > 0 && g[0].0 == 4);
    let q = g[0].1;
    lemma_other_rank(x, q);
    let i1 = choose|i: int| 0 <= i < x.len() && #[trigger] x[i].rank != q;
    let k1 = lemma_card_has_group(x, i1);
    assert(k1 != 0);
    let a = g[1].1;
    lemma_two_ranks_bound(x, q, a);
    assert(g[1].0 == 1);
    lemma_count_rank_is_value_count(x, q);
    lemma_count_rank_is_value_count(x, a);
}

/// A full house is broken by the trips' rank, then by the pair's: the
/// tie-break values are the value held three times, then the value held
/// twice.
pub proof fn lemma_full_house_tie_break(x: Seq<Card>)
    requires
        x.len() == 5,
        eval_five_spec(x).hand_rank == HandRank::FullHouse,
    ensures
        ({
            let v = eval_five_spec(x).rank_values;
            let counts = card_values(x).to_multiset();
            &&& v.len() == 2
            &&& counts.count(v[0]) == 3
            &&& counts.count(v[1]) == 2
        }),
{
    reveal(eval_five_spec);
    let g = groups_from(x, 5, 12);
    lemma_groups_sound(x, 5, 12);
    assert(g.len() > 1 && g[0].0 == 3 && g[1].0 == 2);
    lemma_count_rank_is_value_count(x, g[0].1);
    lemma_count_rank_is_value_count(x, g[1].1);
}

/// Two pair is broken by the higher pair, then the lower pair, then the
/// fifth card: the tie-break values are the two values held twice, higher
/// first, then the value held once.
pub proof fn lemma_two_pair_tie_break(x: Seq<Card>)
    requires
        x.len() == 5,
        eval_five_spec(x).hand_rank == HandRank::TwoPair,
    ensures
        ({
            let v = eval_five_spec(x).rank_values;
            let counts = card_values(x).to_multiset();
            &&& v.len() == 3
            &&& counts.count(v[0]) == 2
            &&& counts.count(v[1]) == 2
            &&& counts.count(v[2]) == 1
            &&& v[0] > v[1]
        }),
{
    reveal(eval_five_spec);
    let g = groups_from(x, 5, 12);
    lemma_groups_sound(x, 5, 12);
    assert(g.len() > 1 && g[0].0 == 2 && g[1].0 == 2);
    let p1 = g[0].1;
    let p2 = g[1].1;
    assert(p1 != p2);
    lemma_third_rank(x, p1, p2);
    let i2 = choose|i: int| 0 <= i < x.len() && x[i].rank != p1 && #[trigger] x[i].rank != p2;
    let k2 = lemma_card_has_group(x, i2);
    assert(k2 != 0 && k2 != 1);
    let b = g[2].1;
    lemma_three_ranks_bound(x, p1, p2, b);
    assert(g[2].0 == 1);
    lemma_count_rank_is_value_count(x, p1);
    lemma_count_rank_is_value_count(x, p2);
    lemma_count_rank_is_value_count(x, b);
}

/// One pair is broken by the pair's rank, then by the three other cards,
/// highest first: the tie-break values are the value held twice, then the
/// three values held once, in descending order.
pub proof fn lemma_pair_tie_break(x: Seq<Card>)
    requires
        x.len() == 5,
        eval_five_spec(x).hand_rank == HandRank::Pair,
    ensures
        ({
            let v = eval_five_spec(x).rank_values;
            let counts = card_values(x).to_multiset();
            &&& v.len() == 4
            &&& counts.count(v[0]) == 2
            &&& counts.count(v[1]) == 1
            &&& counts.count(v[2]) == 1
            &&& counts.count(v[3]) == 1
            &&& v[1] > v[2] > v[3]
        }),
{
    reveal(eval_five_spec);
    let g = groups_from(x, 5, 12);
    lemma_groups_sound(x, 5, 12);
    assert(g.len() > 0 && g[0].0 == 2);
    let p = g[0].1;
    lemma_other_rank(x, p);
    let i1 = choose|i: int| 0 <= i < x.len() && #[trigger] x[i].rank != p;
    let k1 = lemma_card_has_group(x, i1);
    assert(k1 != 0);
    let a = g[1].1;
    assert(g[1].0 == 1);
    lemma_third_rank(x, p, a);
    let i2 = choose|i: int| 0 <= i < x.len() && x[i].rank != p && #[trigger] x[i].rank != a;
    let k2 = lemma_card_has_group(x, i2);
    assert(k2 != 0 && k2 != 1);
    let b = g[2].1;
    assert(g[2].0 == 1);
    lemma_fourth_rank(x, p, a, b);
    let i3 = choose|i: int|
        0 <= i < x.len() && x[i].rank != p && x[i].rank != a && #[trigger] x[i].rank != b;
    let k3 = lemma_card_has_group(x, i3);
    assert(k3 != 0 && k3 != 1 && k3 != 2);
    let c = g[3].1;
    assert(g[3].0 == 1);
    lemma_count_rank_is_value_count(x, p);
    lemma_count_rank_is_value_count(x, a);
    lemma_count_rank_is_value_count(x, b);
    lemma_count_rank_is_value_count(x, c);
}

/// A flush, and a hand of no category, is broken by all five cards, highest
/// first: the tie-break values are the five card values in descending order.
pub proof fn lemma_five_value_tie_break(x: Seq<Card>)
    requires
        x.len() == 5,
        sorted_desc(x),
        eval_five_spec(x).hand_rank == HandRank::Flush || eval_five_spec(x).hand_rank
            == HandRank::HighCard,
    ensures
        ({
            let v = eval_five_spec(x).rank_values;
            &&& v.len() == 5
            &&& v.to_multiset() == card_values(x).to_multiset()
            &&& forall|i: int, j: int| 0 <= i < j < 5 ==> v[i] >= v[j]
        }),
{
    reveal(eval_five_spec);
    let v = eval_five_spec(x).rank_values;
    assert(v == card_values(x));
    assert forall|i: int, j: int| 0 <= i < j < 5 implies v[i] >= v[j] by {
        assert(v[i] == x[i].rank.spec_value() && v[j] == x[j].rank.spec_value());
    }
}

/// A straight, or straight flush, is broken by its high card: the highest
/// card, except in the wheel A-5-4-3-2, where the Ace plays low and the
/// Five is high.
pub proof fn lemma_straight_tie_break(x: Seq<Card>)
    requires
        x.len() == 5,
        sorted_desc(x),
        eval_five_spec(x).hand_rank == HandRank::Straight || eval_five_spec(x).hand_rank
            == HandRank::StraightFlush,
    ensures
        ({
            let v = eval_five_spec(x).rank_values;
            &&& v.len() == 1
            &&& x[0].rank == Rank::Ace && x[1].rank == Rank::Five ==> v[0] == 5
            &&& !(x[0].rank == Rank::Ace && x[1].rank == Rank::Five) ==> {
                &&& v[0] == x[0].rank.spec_value()
                &&& forall|i: int| 0 <= i < 5 ==> #[trigger] x[i].rank.spec_value() <= v[0]
            }
        }),
{
    reveal(eval_five_spec);
}

/// Some rank is held exactly `n` times.
pub open spec fn some_rank_held(x: Seq<Card>, n: nat) -> bool {
    exists|r: Rank| #[trigger] count_rank(x, r) == n
}

/// Two different ranks are held exactly twice each.
pub open spec fn two_ranks_paired(x: Seq<Card>) -> bool {
    exists|a: Rank, b: Rank| a != b && #[trigger] count_rank(x, a) == 2 && #[trigger] count_rank(x, b) == 2
}

/// The group of a rank held `count_rank(x, r) >= 1` times stands at some
/// position of the groups, no earlier group is smaller, and the first group
/// is at least as large.
proof fn lemma_group_of_rank(x: Seq<Card>, r: Rank) -> (k: int)
    requires
        x.len() == 5,
        1 <= count_rank(x, r),
    ensures
        0 <= k < groups_from(x, 5, 12).len(),
        groups_from(x, 5, 12)[k] == (count_rank(x, r) as usize, r),
        groups_from(x, 5, 12)[0].0 >= count_rank(x, r),
{
    lemma_groups_sound(x, 5, 12);
    lemma_two_ranks_bound(x, r, if r == Rank::Two {
        Rank::Three
    } else {
        Rank::Two
    });
    lemma_rank_position(r);
    lemma_groups_complete(x, 5, 12, r);
    let g = groups_from(x, 5, 12);
    let k = choose|k: int| 0 <= k < g.len() && g[k] == (count_rank(x, r) as usize, r);
    k
}

/// The category of five cards follows the poker rules from the cards
/// themselves: a straight flush first; then four of a kind; a full house
/// (three of one rank and two of another); a flush; a straight; three of a
/// kind; two pair; one pair; and otherwise no category. Five cards of one
/// rank, which no deck deals, are left out.
pub proof fn lemma_category_from_cards(x: Seq<Card>)
    requires
        x.len() == 5,
        forall|r: Rank| #[trigger] count_rank(x, r) <= 4,
    ensures
        ({
            let h = eval_five_spec(x).hand_rank;
            let fl = is_flush(x);
            let st = is_straight(x);
            let sf = fl && st;
            &&& sf ==> h == HandRank::StraightFlush || h == HandRank::RoyalFlush
            &&& !sf && some_rank_held(x, 4) ==> h == HandRank::FourOfAKind
            &&& !sf && some_rank_held(x, 3) && some_rank_held(x, 2) ==> h == HandRank::FullHouse
            &&& !sf && !some_rank_held(x, 4) && !(some_rank_held(x, 3) && some_rank_held(x, 2))
                && fl ==> h == HandRank::Flush
            &&& !fl && st && !some_rank_held(x, 4) && !(some_rank_held(x, 3) && some_rank_held(
                x,
                2,
            )) ==> h == HandRank::Straight
            &&& !fl && !st && some_rank_held(x, 3) && !some_rank_held(x, 2)
                ==> h == HandRank::ThreeOfAKind
            &&& !fl && !st && two_ranks_paired(x) ==> h == HandRank::TwoPair
            &&& !fl && !st && some_rank_held(x, 2) && !some_rank_held(x, 3) && !two_ranks_paired(x)
                ==> h == HandRank::Pair
            &&& !fl && !st && (forall|r: Rank| #[trigger] count_rank(x, r) <= 1)
                ==> h == HandRank::HighCard
        }),
{
    reveal(eval_five_spec);
    let g = groups_from(x, 5, 12);
    lemma_groups_sound(x, 5, 12);
    lemma_count_of_present(x, 0);
    let k0 = lemma_group_of_rank(x, x[0].rank);
    assert(g.len() > 0);
    let top = g[0].1;
    let c0 = g[0].0 as nat;
    assert(count_rank(x, top) == c0);
    assert(c0 <= 4);
    if some_rank_held(x, 4) {
        let r = choose|r: Rank| #[trigger] count_rank(x, r) == 4;
        lemma_group_of_rank(x, r);
    }
    if some_rank_held(x, 3) {
        let r3 = choose|r: Rank| #[trigger] count_rank(x, r) == 3;
        lemma_group_of_rank(x, r3);
        if c0 == 4 {
            lemma_two_ranks_bound(x, top, r3);
        }
        assert(c0 == 3);
        if some_rank_held(x, 2) {
            let r2 = choose|r: Rank| #[trigger] count_rank(x, r) == 2;
            let k2 = lemma_group_of_rank(x, r2);
            assert(k2 != 0);
            assert(g.len() > 1);
            let second = g[1].1;
            if g[1].0 == 3 {
                lemma_two_ranks_bound(x, top, second);
            }
            assert(g[1].0 == 2);
        }
        if g.len() > 1 && g[1].0 == 2 {
            assert(count_rank(x, g[1].1) == 2);
        }
    }
    if c0 == 3 {
        assert(count_rank(x, top) == 3);
        if g.len() > 1 && g[1].0 == 2 {
            assert(count_rank(x, g[1].1) == 2);
        }
    }
    if c0 == 4 {
        assert(count_rank(x, top) == 4);
    }
    if two_ranks_paired(x) {
        let (a, b) = choose|a: Rank, b: Rank|
            a != b && #[trigger] count_rank(x, a) == 2 && #[trigger] count_rank(x, b) == 2;
        let ka = lemma_group_of_rank(x, a);
        let kb = lemma_group_of_rank(x, b);
        if c0 >= 3 {
            if top == a || top == b {
            } else {
                lemma_three_ranks_bound(x, top, a, b);
            }
        }
        assert(c0 == 2);
        assert(ka != kb);
        assert(g.len() > 1);
        assert(g[1].0 == 2);
    }
    if c0 == 2 && g.len() > 1 && g[1].0 == 2 {
        assert(count_rank(x, top) == 2 && count_rank(x, g[1].1) == 2 && top != g[1].1);
        assert(two_ranks_paired(x));
    }
    if some_rank_held(x, 2) {
        let r2 = choose|r: Rank| #[trigger] count_rank(x, r) == 2;
        lemma_group_of_rank(x, r2);
        if c0 == 4 {
            lemma_two_ranks_bound(x, top, r2);
        }
    }
    if c0 == 2 {
        assert(count_rank(x, top) == 2);
    }
    if forall|r: Rank| #[trigger] count_rank(x, r) <= 1 {
        assert(count_rank(x, top) <= 1);
    }
}

} // verus!
