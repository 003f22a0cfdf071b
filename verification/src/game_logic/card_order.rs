//! The value of a hand depends on which cards it holds, not on the order in
//! which they are given.

use vstd::prelude::*;
use vstd::multiset::Multiset;
use vstd::relations::{sorted_by, total_ordering};

use crate::game_logic::hand_evaluator::{
    best_hand_of_sorted,
    hand_order,
    index_combinations,
    is_best_five,
    lemma_best_of_is_maximum,
    lemma_hand_order_total_preorder,
    lemma_index_combinations_complete,
    lemma_index_combinations_well_formed,
    lemma_rank_sort_is_sorted_permutation,
    lex_order,
    sort_by_rank_spec,
    is_index_choice,
    pick,
    card_values,
    count_rank,
    eval_five_spec,
    groups_from,
    is_flush,
    rank_groups_spec,
    sorted_desc,
};
use crate::models::card::{lemma_rank_value_injective, Card, Rank};

verus! {

/// Mapping two sequences with the same elements gives sequences with the
/// same elements.
proof fn lemma_map_values_to_multiset<A, B>(x: Seq<A>, y: Seq<A>, f: spec_fn(A) -> B)
    requires
        x.to_multiset() == y.to_multiset(),
    ensures
        x.map_values(f).to_multiset() == y.map_values(f).to_multiset(),
    decreases x.len(),
{
    broadcast use vstd::seq_lib::group_to_multiset_ensures;
    broadcast use vstd::multiset::group_multiset_axioms;
    vstd::seq_lib::to_multiset_len(x);
    vstd::seq_lib::to_multiset_len(y);
    if x.len() == 0 {
        assert(y.len() == 0);
        assert(x.map_values(f) =~= Seq::<B>::empty());
        assert(y.map_values(f) =~= Seq::<B>::empty());
    } else {
        let c = x.last();
        let xs = x.drop_last();
        assert(xs.push(c) =~= x);
        assert(y.to_multiset().count(c) > 0);
        assert(y.contains(c));
        let i = choose|i: int| 0 <= i < y.len() && y[i] == c;
        let ys = y.remove(i);
        vstd::seq_lib::to_multiset_remove(y, i);
        assert(xs.to_multiset() =~= ys.to_multiset());
        lemma_map_values_to_multiset(xs, ys, f);
        assert(x.map_values(f) =~= xs.map_values(f).push(f(c)));
        assert(y.map_values(f) =~= ys.map_values(f).insert(i, f(c)));
        vstd::seq_lib::to_multiset_insert(ys.map_values(f), i, f(c));
    }
}

/// Rank values ordered from high to low.
spec fn value_at_least(a: u8, b: u8) -> bool {
    a >= b
}

/// Two rank-sorted arrangements of the same cards have the same rank values
/// in the same places.
pub proof fn lemma_sorted_values_determined(x: Seq<Card>, y: Seq<Card>)
    requires
        sorted_desc(x),
        sorted_desc(y),
        x.to_multiset() == y.to_multiset(),
    ensures
        card_values(x) == card_values(y),
{
    let leq = |a: u8, b: u8| value_at_least(a, b);
    lemma_map_values_to_multiset(x, y, |c: Card| c.rank.spec_value());
    assert(total_ordering(leq));
    assert(sorted_by(card_values(x), leq)) by {
        assert forall|i: int, j: int| 0 <= i < j < card_values(x).len() implies #[trigger] leq(
            card_values(x)[i],
            card_values(x)[j],
        ) by {
            assert(x[i].rank.spec_value() >= x[j].rank.spec_value());
        }
    }
    assert(sorted_by(card_values(y), leq)) by {
        assert forall|i: int, j: int| 0 <= i < j < card_values(y).len() implies #[trigger] leq(
            card_values(y)[i],
            card_values(y)[j],
        ) by {
            assert(y[i].rank.spec_value() >= y[j].rank.spec_value());
        }
    }
    vstd::seq_lib::lemma_sorted_unique(card_values(x), card_values(y), leq);
}

/// A flush stays a flush when its cards are rearranged.
proof fn lemma_flush_by_multiset(x: Seq<Card>, y: Seq<Card>)
    requires
        x.to_multiset() == y.to_multiset(),
        is_flush(x),
    ensures
        is_flush(y),
{
    broadcast use vstd::seq_lib::group_to_multiset_ensures;
    assert forall|j: int| 0 <= j < y.len() implies #[trigger] y[j].suit == y[0].suit by {
        assert(x.to_multiset().count(y[j]) > 0);
        assert(x.to_multiset().count(y[0]) > 0);
        assert(x.contains(y[j]));
        assert(x.contains(y[0]));
        let a = choose|a: int| 0 <= a < x.len() && x[a] == y[j];
        let b = choose|b: int| 0 <= b < x.len() && x[b] == y[0];
        assert(x[a].suit == x[0].suit);
        assert(x[b].suit == x[0].suit);
    }
}

/// The number of cards of each rank depends only on the rank values.
proof fn lemma_count_rank_by_values(x: Seq<Card>, y: Seq<Card>, r: Rank)
    requires
        card_values(x) == card_values(y),
    ensures
        count_rank(x, r) == count_rank(y, r),
    decreases x.len(),
{
    assert(x.len() == card_values(x).len());
    assert(y.len() == card_values(y).len());
    if x.len() > 0 {
        assert(card_values(x)[x.len() - 1] == x.last().rank.spec_value());
        assert(card_values(y)[y.len() - 1] == y.last().rank.spec_value());
        assert(card_values(x.drop_last()) =~= card_values(x).drop_last());
        assert(card_values(y.drop_last()) =~= card_values(y).drop_last());
        lemma_count_rank_by_values(x.drop_last(), y.drop_last(), r);
        assert(card_values(x)[x.len() - 1] == card_values(y)[x.len() - 1]);
        lemma_rank_value_injective(x.last().rank, y.last().rank);
    }
}

/// The rank groups depend only on how many cards there are of each rank.
proof fn lemma_groups_by_counts(x: Seq<Card>, y: Seq<Card>, c: int, j: int)
    requires
        forall|r: Rank| #[trigger] count_rank(x, r) == count_rank(y, r),
    ensures
        groups_from(x, c, j) == groups_from(y, c, j),
    decreases c, j + 1,
{
    if c <= 0 {
    } else if j < 0 {
        lemma_groups_by_counts(x, y, c - 1, 12);
    } else {
        lemma_groups_by_counts(x, y, c, j - 1);
    }
}

/// Two rank-sorted arrangements of the same five cards are worth the same hand.
pub proof fn lemma_five_card_value_by_multiset(x: Seq<Card>, y: Seq<Card>)
    requires
        x.len() == 5,
        sorted_desc(x),
        sorted_desc(y),
        x.to_multiset() == y.to_multiset(),
    ensures
        eval_five_spec(x) == eval_five_spec(y),
{
    broadcast use vstd::seq_lib::group_to_multiset_ensures;
    vstd::seq_lib::to_multiset_len(x);
    vstd::seq_lib::to_multiset_len(y);
    lemma_sorted_values_determined(x, y);
    let v = card_values(x);
    assert(v[0] == card_values(y)[0] && v[1] == card_values(y)[1] && v[4] == card_values(y)[4]);
    lemma_rank_value_injective(x[0].rank, y[0].rank);
    lemma_rank_value_injective(x[1].rank, y[1].rank);
    lemma_rank_value_injective(x[4].rank, y[4].rank);
    if is_flush(x) {
        lemma_flush_by_multiset(x, y);
    }
    if is_flush(y) {
        lemma_flush_by_multiset(y, x);
    }
    assert forall|r: Rank| #[trigger] count_rank(x, r) == count_rank(y, r) by {
        lemma_count_rank_by_values(x, y, r);
    }
    lemma_groups_by_counts(x, y, 5, 12);
    assert(rank_groups_spec(x) == rank_groups_spec(y));
    reveal(eval_five_spec);
}

/// Cards picked at increasing positions of a rank-sorted sequence are
/// rank-sorted.
proof fn lemma_pick_sorted(s: Seq<Card>, c: Seq<usize>, k: nat)
    requires
        sorted_desc(s),
        is_index_choice(c, s.len() as int, k, 0),
    ensures
        sorted_desc(pick(s, c)),
        pick(s, c).len() == k,
{
    let p = pick(s, c);
    assert forall|i: int, j: int| 0 <= i <= j < p.len() implies p[i].rank.spec_value()
        >= p[j].rank.spec_value() by {
        assert(p[i] == s[c[i] as int] && p[j] == s[c[j] as int]);
        if i < j {
            assert(c[i] < c[j]);
        }
    }
}

/// Cards picked at increasing positions below `m` are among the first `m` cards.
proof fn lemma_pick_within(s: Seq<Card>, c: Seq<usize>, m: int)
    requires
        0 <= m <= s.len(),
        forall|a: int| 0 <= a < c.len() ==> #[trigger] c[a] < m,
        forall|a: int, b: int| 0 <= a < b < c.len() ==> c[a] < c[b],
    ensures
        pick(s, c).to_multiset().subset_of(s.take(m).to_multiset()),
    decreases c.len(),
{
    broadcast use vstd::seq_lib::group_to_multiset_ensures;
    broadcast use vstd::multiset::group_multiset_axioms;
    if c.len() == 0 {
        assert(pick(s, c) =~= Seq::<Card>::empty());
    } else {
        let last = c.last() as int;
        let init = c.drop_last();
        assert forall|a: int| 0 <= a < init.len() implies #[trigger] init[a] < last by {
            assert(init[a] == c[a]);
        }
        assert forall|a: int, b: int| 0 <= a < b < init.len() implies init[a] < init[b] by {
            assert(init[a] == c[a] && init[b] == c[b]);
        }
        lemma_pick_within(s, init, last);
        assert(pick(s, c) =~= pick(s, init).push(s[last]));
        assert(s.take(last + 1) =~= s.take(last).push(s[last]));
        assert(s.take(m) =~= s.take(last + 1) + s.subrange(last + 1, m));
        vstd::seq_lib::lemma_multiset_commutative(s.take(last + 1), s.subrange(last + 1, m));
        assert forall|v: Card| #[trigger] pick(s, c).to_multiset().count(v) <= s.take(m).to_multiset().count(v) by {
            assert(pick(s, init).to_multiset().count(v) <= s.take(last).to_multiset().count(v));
        }
    }
}

/// Positions, from `start` on, at which the cards of `n` stand in `s`: each
/// card of `s` that `n` still holds is taken, in order.
spec fn realize(s: Seq<Card>, n: Multiset<Card>, start: int) -> Seq<usize>
    decreases s.len() - start,
{
    if start >= s.len() {
        Seq::empty()
    } else if n.count(s[start]) > 0 {
        seq![start as usize] + realize(s, n.remove(s[start]), start + 1)
    } else {
        realize(s, n, start + 1)
    }
}

/// Any collection of cards drawn from `s` (from `start` on) stands at some
/// increasing positions of `s`.
proof fn lemma_realize(s: Seq<Card>, n: Multiset<Card>, start: int)
    requires
        0 <= start <= s.len(),
        s.len() <= usize::MAX,
        n.subset_of(s.subrange(start, s.len() as int).to_multiset()),
    ensures
        is_index_choice(realize(s, n, start), s.len() as int, n.len(), start),
        pick(s, realize(s, n, start)).to_multiset() == n,
    decreases s.len() - start,
{
    broadcast use vstd::seq_lib::group_to_multiset_ensures;
    broadcast use vstd::multiset::group_multiset_axioms;
    let r = realize(s, n, start);
    if start >= s.len() {
        assert(s.subrange(start, s.len() as int) =~= Seq::<Card>::empty());
        assert(n =~= Multiset::<Card>::empty());
        assert(pick(s, r) =~= Seq::<Card>::empty());
    } else {
        let rest = s.subrange(start + 1, s.len() as int);
        assert(s.subrange(start, s.len() as int) =~= seq![s[start]] + rest);
        vstd::seq_lib::lemma_multiset_commutative(seq![s[start]], rest);
        assert(seq![s[start]].to_multiset() =~= Multiset::<Card>::empty().insert(s[start])) by {
            assert(seq![s[start]] =~= Seq::<Card>::empty().push(s[start]));
        }
        if n.count(s[start]) > 0 {
            let n1 = n.remove(s[start]);
            assert(n1.subset_of(rest.to_multiset()));
            lemma_realize(s, n1, start + 1);
            let r1 = realize(s, n1, start + 1);
            assert(r =~= seq![start as usize] + r1);
            assert forall|a: int| 0 <= a < r.len() implies start <= #[trigger] r[a] < s.len() by {
                if a > 0 {
                    assert(r[a] == r1[a - 1]);
                }
            }
            assert forall|a: int, b: int| 0 <= a < b < r.len() implies r[a] < r[b] by {
                assert(r[b] == r1[b - 1]);
                if a > 0 {
                    assert(r[a] == r1[a - 1]);
                }
            }
            assert(pick(s, r) =~= seq![s[start]] + pick(s, r1));
            vstd::seq_lib::lemma_multiset_commutative(seq![s[start]], pick(s, r1));
            assert(n1.insert(s[start]) =~= n);
        } else {
            assert(n.subset_of(rest.to_multiset()));
            lemma_realize(s, n, start + 1);
        }
    }
}

/// Value sequences that compare equal are equal.
proof fn lemma_lex_order_zero(a: Seq<u8>, b: Seq<u8>)
    requires
        lex_order(a, b) == 0,
    ensures
        a == b,
    decreases a.len(),
{
    if a.len() > 0 && b.len() > 0 {
        lemma_lex_order_zero(a.drop_first(), b.drop_first());
        assert(a =~= seq![a[0]] + a.drop_first());
        assert(b =~= seq![b[0]] + b.drop_first());
    } else {
        assert(a =~= b);
    }
}

/// Five-card hands that compare equal are the same hand, description
/// included: the description is made from the category and the ranks that
/// the tie-break values carry.
proof fn lemma_equal_hands_are_same(x: Seq<Card>, y: Seq<Card>)
    requires
        x.len() == 5,
        y.len() == 5,
        hand_order(eval_five_spec(x), eval_five_spec(y)) == 0,
    ensures
        eval_five_spec(x) == eval_five_spec(y),
{
    let hx = eval_five_spec(x);
    let hy = eval_five_spec(y);
    lemma_lex_order_zero(hx.rank_values, hy.rank_values);
    assert forall|a: Rank, b: Rank| a.spec_value() == b.spec_value() implies a == b by {
        lemma_rank_value_injective(a, b);
    }
    assert(card_values(x)[0] == x[0].rank.spec_value());
    assert(card_values(y)[0] == y[0].rank.spec_value());
    reveal(eval_five_spec);
    assert(hx.rank_values.len() > 0 ==> hx.rank_values[0] == hy.rank_values[0]);
    assert(hx.rank_values.len() > 1 ==> hx.rank_values[1] == hy.rank_values[1]);
}

/// A five-card hand made from one arrangement of seven cards is also made
/// from any other rank-sorted arrangement of the same seven cards.
proof fn lemma_hand_transfers(s1: Seq<Card>, s2: Seq<Card>, c1: Seq<usize>)
    requires
        s1.len() == 7,
        sorted_desc(s1),
        sorted_desc(s2),
        s1.to_multiset() == s2.to_multiset(),
        is_index_choice(c1, 7, 5, 0),
    ensures
        exists|c2: Seq<usize>|
            index_combinations(7, 5, 0).contains(c2) && eval_five_spec(#[trigger] pick(s2, c2))
                == eval_five_spec(pick(s1, c1)),
{
    broadcast use vstd::seq_lib::group_to_multiset_ensures;
    vstd::seq_lib::to_multiset_len(s1);
    vstd::seq_lib::to_multiset_len(s2);
    let n = pick(s1, c1).to_multiset();
    lemma_pick_within(s1, c1, 7);
    assert(s1.take(7) =~= s1);
    assert(s2.subrange(0, 7) =~= s2);
    lemma_realize(s2, n, 0);
    let c2 = realize(s2, n, 0);
    lemma_pick_sorted(s1, c1, 5);
    vstd::seq_lib::to_multiset_len(pick(s1, c1));
    assert(n.len() == 5);
    lemma_pick_sorted(s2, c2, 5);
    lemma_index_combinations_complete(7, 5, 0, c2);
    lemma_five_card_value_by_multiset(pick(s1, c1), pick(s2, c2));
}

/// Every combination is a choice of five of the seven positions.
proof fn lemma_combination_is_choice(j: int)
    requires
        0 <= j < index_combinations(7, 5, 0).len(),
    ensures
        is_index_choice(index_combinations(7, 5, 0)[j], 7, 5, 0),
{
    lemma_index_combinations_well_formed(7, 5, 0);
    let t = index_combinations(7, 5, 0)[j];
    assert(t.len() == 5);
}

/// One rank-sorted arrangement's best hand is at least as good as the
/// other's.
proof fn lemma_best_dominates(s1: Seq<Card>, s2: Seq<Card>)
    requires
        s1.len() == 7,
        sorted_desc(s1),
        sorted_desc(s2),
        s1.to_multiset() == s2.to_multiset(),
        is_best_five(s1, index_combinations(7, 5, 0), best_hand_of_sorted(s1)),
        is_best_five(s2, index_combinations(7, 5, 0), best_hand_of_sorted(s2)),
    ensures
        hand_order(best_hand_of_sorted(s2), best_hand_of_sorted(s1)) <= 0,
        exists|j: int|
            0 <= j < index_combinations(7, 5, 0).len() && best_hand_of_sorted(s2)
                == #[trigger] eval_five_spec(pick(s1, index_combinations(7, 5, 0)[j])),
{
    let cs = index_combinations(7, 5, 0);
    let h2 = best_hand_of_sorted(s2);
    let j2 = choose|j: int| 0 <= j < cs.len() && h2 == #[trigger] eval_five_spec(pick(s2, cs[j]));
    lemma_combination_is_choice(j2);
    vstd::seq_lib::to_multiset_len(s1);
    vstd::seq_lib::to_multiset_len(s2);
    lemma_hand_transfers(s2, s1, cs[j2]);
    let c1 = choose|c1: Seq<usize>| cs.contains(c1) && eval_five_spec(#[trigger] pick(s1, c1))
        == eval_five_spec(pick(s2, cs[j2]));
    let j1 = choose|j: int| 0 <= j < cs.len() && cs[j] == c1;
    assert(eval_five_spec(pick(s1, cs[j1])) == h2);
}

/// The best hand of seven cards depends only on which cards they are, not
/// on the order they are given in: `evaluate_hand` gives the same hand for
/// every arrangement of the same seven cards.
pub proof fn lemma_best_hand_ignores_order(a: Seq<Card>, b: Seq<Card>)
    requires
        a.len() == 7,
        a.to_multiset() == b.to_multiset(),
    ensures
        best_hand_of_sorted(sort_by_rank_spec(a)) == best_hand_of_sorted(sort_by_rank_spec(b)),
{
    let s1 = sort_by_rank_spec(a);
    let s2 = sort_by_rank_spec(b);
    vstd::seq_lib::to_multiset_len(a);
    vstd::seq_lib::to_multiset_len(b);
    lemma_rank_sort_is_sorted_permutation(a);
    lemma_rank_sort_is_sorted_permutation(b);
    let cs = index_combinations(7, 5, 0);
    lemma_index_combinations_well_formed(7, 5, 0);
    crate::game_logic::hand_evaluator::lemma_index_combinations_nonempty(7, 5, 0);
    lemma_best_of_is_maximum(s1, cs);
    lemma_best_of_is_maximum(s2, cs);
    lemma_best_dominates(s1, s2);
    lemma_best_dominates(s2, s1);
    let h1 = best_hand_of_sorted(s1);
    let h2 = best_hand_of_sorted(s2);
    lemma_hand_order_total_preorder(h1, h2, h1);
    assert(hand_order(h1, h2) == 0);
    let j1 = choose|j: int| 0 <= j < cs.len() && h1 == #[trigger] eval_five_spec(pick(s1, cs[j]));
    let j2 = choose|j: int| 0 <= j < cs.len() && h2 == #[trigger] eval_five_spec(pick(s2, cs[j]));
    lemma_combination_is_choice(j1);
    lemma_combination_is_choice(j2);
    lemma_pick_sorted(s1, cs[j1], 5);
    lemma_pick_sorted(s2, cs[j2], 5);
    lemma_equal_hands_are_same(pick(s1, cs[j1]), pick(s2, cs[j2]));
}

/// The hand `evaluate_hand` reports for seven cards is the best hand of
/// five of them: every five of the cards, in rank order, make a hand that is
/// no better, and some five of them make exactly that hand.
pub proof fn lemma_best_hand_is_best_of_any_five(cards: Seq<Card>, x: Seq<Card>)
    requires
        cards.len() == 7,
        x.len() == 5,
        sorted_desc(x),
        x.to_multiset().subset_of(cards.to_multiset()),
    ensures
        hand_order(eval_five_spec(x), best_hand_of_sorted(sort_by_rank_spec(cards))) <= 0,
        exists|y: Seq<Card>|
            y.len() == 5 && sorted_desc(y) && y.to_multiset().subset_of(cards.to_multiset())
                && #[trigger] eval_five_spec(y) == best_hand_of_sorted(sort_by_rank_spec(cards)),
{
    broadcast use vstd::seq_lib::group_to_multiset_ensures;
    let s = sort_by_rank_spec(cards);
    lemma_rank_sort_is_sorted_permutation(cards);
    let cs = index_combinations(7, 5, 0);
    lemma_index_combinations_well_formed(7, 5, 0);
    crate::game_logic::hand_evaluator::lemma_index_combinations_nonempty(7, 5, 0);
    lemma_best_of_is_maximum(s, cs);
    let h = best_hand_of_sorted(s);
    // Every five cards are picked by some combination.
    let n = x.to_multiset();
    assert(s.subrange(0, 7) =~= s);
    lemma_realize(s, n, 0);
    let c = realize(s, n, 0);
    vstd::seq_lib::to_multiset_len(x);
    lemma_pick_sorted(s, c, 5);
    lemma_index_combinations_complete(7, 5, 0, c);
    lemma_five_card_value_by_multiset(pick(s, c), x);
    let j = choose|j: int| 0 <= j < cs.len() && cs[j] == c;
    assert(hand_order(eval_five_spec(pick(s, cs[j])), h) <= 0);
    // The best hand is made by the picked combination.
    let jb = choose|j: int| 0 <= j < cs.len() && h == #[trigger] eval_five_spec(pick(s, cs[j]));
    lemma_combination_is_choice(jb);
    let y = pick(s, cs[jb]);
    lemma_pick_sorted(s, cs[jb], 5);
    lemma_pick_within(s, cs[jb], 7);
    assert(s.take(7) =~= s);
    assert(y.to_multiset().subset_of(cards.to_multiset()));
    assert(eval_five_spec(y) == h);
}

} // verus!
