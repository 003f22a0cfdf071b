//! The dealer: starting hands, posting blinds and dealing cards.

use vstd::prelude::*;
use vstd::multiset::Multiset;

use crate::error::{game_error, result_view, ErrorView, PokerError};
use crate::game_logic::betting::{chips_in_play, fits_i64, lemma_sums_update, sum_chips, with_player};
use crate::models::card::{standard_deck, Card, Deck};
use crate::models::game::{
    reset_for_new_hand_spec,
    GameStage,
    GameState,
    GameView,
    PlayerView,
    HOLE_CARDS,
};

verus! {

/// The seat after the dealer's: the big blind, and heads-up the first to act
/// after the flop.
pub open spec fn seat_after_dealer(g: GameView) -> int {
    (g.dealer_index + 1) % (g.players.len() as int)
}

/// The players reset for a new hand; the player at `dealer` holds the button.
pub open spec fn reset_players(ps: Seq<PlayerView>, dealer: int) -> Seq<PlayerView> {
    Seq::new(ps.len(), |k: int| reset_for_new_hand_spec(ps[k], k == dealer))
}

/// The game at the start of a new hand, before blinds, with the fresh deck `d`.
pub open spec fn reset_hand(g: GameView, d: Seq<Card>) -> GameView {
    GameView {
        hand_number: (g.hand_number + 1) as u64,
        deck: d,
        community_cards: Seq::empty(),
        pot: 0,
        current_bet: 0,
        last_raise_amount: g.big_blind,
        stage: GameStage::PreFlop,
        side_pots: Seq::empty(),
        players: reset_players(g.players, g.dealer_index as int),
        ..g
    }
}

/// The smaller of two amounts.
pub open spec fn min_i64(a: i64, b: i64) -> i64 {
    if a <= b {
        a
    } else {
        b
    }
}

/// The larger of two amounts.
pub open spec fn max_i64(a: i64, b: i64) -> i64 {
    if a >= b {
        a
    } else {
        b
    }
}

/// Player `i` posts a blind of `blind`, or all their chips if they have less.
pub open spec fn post_blind_effect(g: GameView, i: int, blind: i64) -> (GameView, Result<
    (),
    ErrorView,
>) {
    let p = g.players[i];
    let actual = min_i64(blind, p.chips);
    if !fits_i64(p.chips - actual) {
        (g, Err(ErrorView::Game("Chip underflow posting blind"@)))
    } else {
        let p1 = PlayerView {
            chips: (p.chips - actual) as i64,
            bet_this_round: actual,
            total_bet: actual,
            ..p
        };
        if !fits_i64(g.pot + actual) {
            (with_player(g, i, p1), Err(ErrorView::Game("Pot overflow posting blind"@)))
        } else {
            let p2 = PlayerView { is_all_in: p1.is_all_in || p1.chips == 0, ..p1 };
            (GameView { pot: (g.pot + actual) as i64, ..with_player(g, i, p2) }, Ok(()))
        }
    }
}

/// Heads-up blinds: the dealer posts the small blind, the next seat the big
/// blind; the current bet is the larger amount actually posted.
pub open spec fn post_blinds_effect(g: GameView) -> (GameView, Result<(), ErrorView>) {
    if g.players.len() < 2 {
        (g, Err(ErrorView::Game("Need at least 2 players to post blinds"@)))
    } else {
        let sb = g.dealer_index as int;
        let bb = seat_after_dealer(g);
        let sb_actual = min_i64(g.small_blind, g.players[sb].chips);
        let bb_actual = min_i64(g.big_blind, g.players[bb].chips);
        let (g1, r1) = post_blind_effect(g, sb, g.small_blind);
        if r1 is Err {
            (g1, r1)
        } else {
            let (g2, r2) = post_blind_effect(g1, bb, g.big_blind);
            if r2 is Err {
                (g2, r2)
            } else {
                (GameView { current_bet: max_i64(bb_actual, sb_actual), ..g2 }, Ok(()))
            }
        }
    }
}

/// The hole cards player `k` of `n` has received once `j` cards have been
/// dealt from deck `d` (the last card is the top), one card per player per
/// round: the cards dealt as the k-th and (n+k)-th, as long as the deck lasts.
pub open spec fn dealt_upto(d: Seq<Card>, n: int, k: int, j: int) -> Seq<Card> {
    let l = d.len() as int;
    let first = if k < j && k < l {
        seq![d[l - 1 - k]]
    } else {
        Seq::<Card>::empty()
    };
    let second = if n + k < j && n + k < l {
        seq![d[l - 1 - n - k]]
    } else {
        Seq::<Card>::empty()
    };
    first + second
}

/// The deck once `j` cards have been dealt from its top.
pub open spec fn deck_after(d: Seq<Card>, j: int) -> Seq<Card> {
    if j < d.len() {
        d.take(d.len() - j)
    } else {
        Seq::empty()
    }
}

/// Two hole cards to each player in turn, one round at a time, from the top
/// of the deck (players whose cards run out get fewer).
pub open spec fn hole_deal_effect(g: GameView) -> GameView {
    let n = g.players.len() as int;
    GameView {
        players: Seq::new(
            g.players.len(),
            |k: int|
                PlayerView {
                    hole_cards: g.players[k].hole_cards + dealt_upto(g.deck, n, k, 2 * n),
                    ..g.players[k]
                },
        ),
        deck: deck_after(g.deck, 2 * n),
        ..g
    }
}

/// A new hand with the shuffled deck `d`: reset, blinds, hole cards, and the
/// small blind to act first pre-flop: heads-up, that is the dealer's seat.
pub open spec fn start_hand_effect(g: GameView, d: Seq<Card>) -> (GameView, Result<(), ErrorView>) {
    let g0 = reset_hand(g, d);
    let (g1, r1) = post_blinds_effect(g0);
    if r1 is Err {
        (g1, r1)
    } else {
        let g2 = hole_deal_effect(g1);
        (
            GameView { current_player_index: Some(g2.dealer_index), ..g2 },
            Ok(()),
        )
    }
}

/// The game once `j` hole cards have been dealt from the deck of `g`.
pub open spec fn holes_dealt(g: GameView, j: int) -> GameView {
    let n = g.players.len() as int;
    GameView {
        players: Seq::new(
            g.players.len(),
            |k: int|
                PlayerView {
                    hole_cards: g.players[k].hole_cards + dealt_upto(g.deck, n, k, j),
                    ..g.players[k]
                },
        ),
        deck: deck_after(g.deck, j),
        ..g
    }
}

/// The top `k` cards of `d`, in the order they are dealt.
pub open spec fn top_cards(d: Seq<Card>, k: int) -> Seq<Card> {
    Seq::new(k as nat, |j: int| d[d.len() - 1 - j])
}

/// A betting street: burn one card, deal `num` community cards (as far as
/// the deck lasts), clear the round's bets and let the seat after the dealer act.
pub open spec fn community_effect(g: GameView, stage: GameStage, num: int) -> GameView {
    let d1 = if g.deck.len() > 0 {
        g.deck.drop_last()
    } else {
        g.deck
    };
    let k = if num <= d1.len() {
        num
    } else {
        d1.len() as int
    };
    GameView {
        stage: stage,
        current_bet: 0,
        last_raise_amount: g.big_blind,
        deck: d1.take(d1.len() - k),
        community_cards: g.community_cards + top_cards(d1, k),
        players: g.players.map_values(|p: PlayerView| PlayerView { bet_this_round: 0, ..p }),
        current_player_index: Some(seat_after_dealer(g) as usize),
        ..g
    }
}

/// What dealing a street needs: a seated player and a dealer index that can
/// move one seat on.
pub open spec fn deal_requires(g: GameView) -> bool {
    g.players.len() > 0 && g.dealer_index < usize::MAX
}

/// The hole cards held by the players, as a multiset.
pub open spec fn hole_cards_multiset(ps: Seq<PlayerView>) -> Multiset<Card>
    decreases ps.len(),
{
    if ps.len() == 0 {
        Multiset::empty()
    } else {
        hole_cards_multiset(ps.drop_last()).add(ps.last().hole_cards.to_multiset())
    }
}

/// Every card in play: the deck, the board and the players' hole cards.
pub open spec fn cards_in_play(g: GameView) -> Multiset<Card> {
    g.deck.to_multiset().add(g.community_cards.to_multiset()).add(hole_cards_multiset(g.players))
}

/// The multiset of hole cards depends on the hole cards alone.
pub proof fn lemma_hole_cards_multiset_congruent(a: Seq<PlayerView>, b: Seq<PlayerView>)
    requires
        a.len() == b.len(),
        forall|k: int| 0 <= k < a.len() ==> #[trigger] a[k].hole_cards == b[k].hole_cards,
    ensures
        hole_cards_multiset(a) == hole_cards_multiset(b),
    decreases a.len(),
{
    if a.len() > 0 {
        assert forall|k: int| 0 <= k < a.len() - 1 implies #[trigger] a.drop_last()[k].hole_cards
            == b.drop_last()[k].hole_cards by {
            assert(a[k].hole_cards == b[k].hole_cards);
        }
        lemma_hole_cards_multiset_congruent(a.drop_last(), b.drop_last());
        assert(a.last().hole_cards == b.last().hole_cards);
    }
}

/// The stacks' sum depends on the stacks alone.
pub proof fn lemma_sum_chips_congruent(a: Seq<PlayerView>, b: Seq<PlayerView>)
    requires
        a.len() == b.len(),
        forall|k: int| 0 <= k < a.len() ==> #[trigger] a[k].chips == b[k].chips,
    ensures
        sum_chips(a) == sum_chips(b),
    decreases a.len(),
{
    if a.len() > 0 {
        assert forall|k: int| 0 <= k < a.len() - 1 implies #[trigger] a.drop_last()[k].chips
            == b.drop_last()[k].chips by {
            assert(a[k].chips == b[k].chips);
        }
        lemma_sum_chips_congruent(a.drop_last(), b.drop_last());
        assert(a.last().chips == b.last().chips);
    }
}

/// Replacing a player's hole cards `h` by `h` plus `extra` adds `extra` to the multiset.
proof fn lemma_hole_cards_multiset_update(ps: Seq<PlayerView>, i: int, extra: Seq<Card>)
    requires
        0 <= i < ps.len(),
    ensures
        hole_cards_multiset(
            ps.update(i, PlayerView { hole_cards: ps[i].hole_cards + extra, ..ps[i] }),
        ) == hole_cards_multiset(ps).add(extra.to_multiset()),
    decreases ps.len(),
{
    broadcast use vstd::multiset::group_multiset_axioms;
    let u = ps.update(i, PlayerView { hole_cards: ps[i].hole_cards + extra, ..ps[i] });
    vstd::seq_lib::lemma_multiset_commutative(ps[i].hole_cards, extra);
    if i == ps.len() - 1 {
        assert(u.drop_last() =~= ps.drop_last());
        assert(hole_cards_multiset(u) =~= hole_cards_multiset(ps).add(extra.to_multiset()));
    } else {
        lemma_hole_cards_multiset_update(ps.drop_last(), i, extra);
        assert(u.drop_last() =~= ps.drop_last().update(
            i,
            PlayerView { hole_cards: ps[i].hole_cards + extra, ..ps[i] },
        ));
        assert(hole_cards_multiset(u) =~= hole_cards_multiset(ps).add(extra.to_multiset()));
    }
}

proof fn lemma_holes_dealt_step(g: GameView, j: int)
    requires
        0 <= j < 2 * g.players.len(),
    ensures
        cards_in_play(holes_dealt(g, j + 1)) == cards_in_play(holes_dealt(g, j)),
{
    broadcast use vstd::multiset::group_multiset_axioms;
    broadcast use vstd::seq_lib::group_to_multiset_ensures;
    let n = g.players.len() as int;
    let d = g.deck;
    let l = d.len() as int;
    let q = if j < n {
        j
    } else {
        j - n
    };
    let a = holes_dealt(g, j);
    let b = holes_dealt(g, j + 1);
    let extra = if j < l {
        seq![d[l - 1 - j]]
    } else {
        Seq::<Card>::empty()
    };
    assert forall|k: int| 0 <= k < n implies #[trigger] b.players[k] == a.players.update(
        q,
        PlayerView { hole_cards: a.players[q].hole_cards + extra, ..a.players[q] },
    )[k] by {
        if k == q {
            assert(g.players[k].hole_cards + dealt_upto(d, n, k, j + 1) =~= (g.players[k].hole_cards
                + dealt_upto(d, n, k, j)) + extra);
        } else {
            assert(dealt_upto(d, n, k, j + 1) == dealt_upto(d, n, k, j));
        }
    }
    assert(b.players =~= a.players.update(
        q,
        PlayerView { hole_cards: a.players[q].hole_cards + extra, ..a.players[q] },
    ));
    lemma_hole_cards_multiset_update(a.players, q, extra);
    if j < l {
        assert(a.deck.drop_last() =~= b.deck);
        assert(a.deck =~= b.deck.push(d[l - 1 - j]));
        assert(extra.to_multiset() =~= Multiset::empty().insert(d[l - 1 - j]));
        assert(cards_in_play(b) =~= cards_in_play(a));
    } else {
        assert(b.deck =~= a.deck);
        assert(extra.to_multiset() =~= Multiset::<Card>::empty());
        assert(cards_in_play(b) =~= cards_in_play(a));
    }
}

proof fn lemma_holes_dealt_upto(g: GameView, j: int)
    requires
        0 <= j <= 2 * g.players.len(),
    ensures
        cards_in_play(holes_dealt(g, j)) == cards_in_play(g),
    decreases j,
{
    let n = g.players.len() as int;
    if j == 0 {
        assert(holes_dealt(g, 0) =~= g) by {
            assert forall|q: int| 0 <= q < n implies #[trigger] holes_dealt(g, 0).players[q]
                == g.players[q] by {
                assert(dealt_upto(g.deck, n, q, 0) =~= Seq::<Card>::empty());
                assert(g.players[q].hole_cards + Seq::<Card>::empty() =~= g.players[q].hole_cards);
            }
            assert(holes_dealt(g, 0).players =~= g.players);
            assert(deck_after(g.deck, 0) =~= g.deck);
        }
    } else {
        lemma_holes_dealt_upto(g, j - 1);
        lemma_holes_dealt_step(g, j - 1);
    }
}

/// Dealing hole cards moves cards from the deck to the players' hands: no
/// card is lost or created.
pub proof fn lemma_hole_deal_conserves_cards(g: GameView)
    ensures
        cards_in_play(hole_deal_effect(g)) == cards_in_play(g),
        sum_chips(hole_deal_effect(g).players) == sum_chips(g.players),
        hole_deal_effect(g).pot == g.pot,
{
    let n = g.players.len() as int;
    lemma_holes_dealt_upto(g, 2 * n);
    assert(holes_dealt(g, 2 * n) =~= hole_deal_effect(g));
    lemma_sum_chips_congruent(hole_deal_effect(g).players, g.players);
}

/// Posting a blind moves the posted amount from the player's stack to the pot
/// and touches no card.
pub proof fn lemma_post_blind_conserves(g: GameView, i: int, blind: i64)
    requires
        0 <= i < g.players.len(),
        post_blind_effect(g, i, blind).1 is Ok,
    ensures
        chips_in_play(post_blind_effect(g, i, blind).0) == chips_in_play(g),
        cards_in_play(post_blind_effect(g, i, blind).0) == cards_in_play(g),
        post_blind_effect(g, i, blind).0.players.len() == g.players.len(),
        post_blind_effect(g, i, blind).0.dealer_index == g.dealer_index,
{
    let after = post_blind_effect(g, i, blind).0;
    lemma_sums_update(g.players, i, after.players[i]);
    assert(after.players =~= g.players.update(i, after.players[i]));
    assert forall|k: int| 0 <= k < g.players.len() implies #[trigger] after.players[k].hole_cards
        == g.players[k].hole_cards by {}
    lemma_hole_cards_multiset_congruent(after.players, g.players);
}

/// A hand that starts successfully deals from a complete deck and keeps
/// every chip: the deck plus the hole cards are exactly the 52 cards of a
/// standard deck, the board is empty, and the blinds in the pot are what
/// left the players' stacks.
pub proof fn lemma_start_hand_conserves(g: GameView, d: Seq<Card>)
    requires
        d.to_multiset() == standard_deck().to_multiset(),
        g.players.len() >= 2 ==> g.dealer_index < g.players.len(),
        start_hand_effect(g, d).1 is Ok,
    ensures
        cards_in_play(start_hand_effect(g, d).0) == standard_deck().to_multiset(),
        start_hand_effect(g, d).0.community_cards.len() == 0,
        chips_in_play(start_hand_effect(g, d).0) == sum_chips(g.players),
{
    broadcast use vstd::multiset::group_multiset_axioms;
    broadcast use vstd::seq_lib::group_to_multiset_ensures;
    let g0 = reset_hand(g, d);
    let empties = Seq::new(g.players.len(), |k: int| PlayerView { hole_cards: Seq::<Card>::empty(), ..g.players[k] });
    assert(hole_cards_multiset(empties) == Multiset::<Card>::empty()) by {
        lemma_all_empty_hole_cards(empties);
    }
    lemma_hole_cards_multiset_congruent(g0.players, empties);
    lemma_empty_seq_multiset();
    assert(cards_in_play(g0) =~= standard_deck().to_multiset());
    lemma_sum_chips_congruent(g0.players, g.players);
    assert(chips_in_play(g0) == sum_chips(g.players));
    let sb = g0.dealer_index as int;
    let bb = seat_after_dealer(g0);
    let (g1, r1) = post_blind_effect(g0, sb, g0.small_blind);
    lemma_post_blind_conserves(g0, sb, g0.small_blind);
    let (g2, r2) = post_blind_effect(g1, bb, g0.big_blind);
    lemma_post_blind_conserves(g1, bb, g0.big_blind);
    let g3 = post_blinds_effect(g0).0;
    assert(g3.players == g2.players && g3.deck == g2.deck && g3.pot == g2.pot
        && g3.community_cards == g2.community_cards);
    lemma_hole_deal_conserves_cards(g3);
}

/// A hand that starts successfully with a deck of at least two cards per
/// player gives every player exactly two hole cards, leaves the board empty
/// in the pre-flop stage, and has both blinds in the pot: the small blind
/// from the dealer's seat and the big blind from the next, each capped by
/// the poster's stack; the dealer, who posted the small blind, acts first.
pub proof fn lemma_start_hand_deals_two_each(g: GameView, d: Seq<Card>)
    requires
        g.players.len() >= 2,
        g.dealer_index < g.players.len(),
        d.len() >= 2 * g.players.len(),
        g.hand_number < u64::MAX,
        start_hand_effect(g, d).1 is Ok,
    ensures
        forall|k: int|
            0 <= k < g.players.len() ==> (#[trigger] start_hand_effect(g, d).0.players[k]).hole_cards.len()
                == HOLE_CARDS,
        start_hand_effect(g, d).0.players.len() == g.players.len(),
        start_hand_effect(g, d).0.community_cards.len() == 0,
        start_hand_effect(g, d).0.stage == GameStage::PreFlop,
        start_hand_effect(g, d).0.hand_number == g.hand_number + 1,
        start_hand_effect(g, d).0.current_player_index == Some(g.dealer_index),
        start_hand_effect(g, d).0.pot == min_i64(g.small_blind, g.players[g.dealer_index as int].chips)
            + min_i64(g.big_blind, g.players[seat_after_dealer(g)].chips),
{
    let n = g.players.len() as int;
    let g0 = reset_hand(g, d);
    let sb = g0.dealer_index as int;
    let bb = seat_after_dealer(g0);
    assert(sb != bb) by {
        let x = g.dealer_index as int;
        if x + 1 < n {
            assert((x + 1) % n == x + 1) by (nonlinear_arith)
                requires
                    0 <= x + 1 < n,
            ;
        } else {
            assert((x + 1) % n == 0) by (nonlinear_arith)
                requires
                    x + 1 == n,
                    n >= 2,
            ;
        }
    }
    let (g1, r1) = post_blind_effect(g0, sb, g0.small_blind);
    let (g2, r2) = post_blind_effect(g1, bb, g0.big_blind);
    let g3 = post_blinds_effect(g0).0;
    assert(g3.deck == d);
    assert forall|k: int| 0 <= k < n implies #[trigger] g3.players[k].hole_cards.len() == 0 by {
        assert(g0.players[k].hole_cards.len() == 0);
        assert(g1.players[k].hole_cards == g0.players[k].hole_cards);
        assert(g2.players[k].hole_cards == g1.players[k].hole_cards);
    }
    assert forall|k: int| 0 <= k < n implies (#[trigger] start_hand_effect(g, d).0.players[k]).hole_cards.len()
        == HOLE_CARDS by {
        assert(dealt_upto(d, n, k, 2 * n).len() == 2);
    }
}

/// A heads-up hand dealt from a full deck through the flop, turn and river
/// ends with a board of five cards and forty cards left in the deck: four
/// hole cards, three burned cards and the five on the board have left it.
pub proof fn lemma_full_board(g: GameView, d: Seq<Card>)
    requires
        g.players.len() == 2,
        g.dealer_index < 2,
        d.len() == 52,
        g.hand_number < u64::MAX,
        start_hand_effect(g, d).1 is Ok,
    ensures
        ({
            let started = start_hand_effect(g, d).0;
            let flop = community_effect(started, GameStage::Flop, 3);
            let turn = community_effect(flop, GameStage::Turn, 1);
            let river = community_effect(turn, GameStage::River, 1);
            &&& started.deck.len() == 48
            &&& flop.community_cards.len() == 3 && flop.deck.len() == 44
            &&& turn.community_cards.len() == 4 && turn.deck.len() == 42
            &&& river.community_cards.len() == 5 && river.deck.len() == 40
        }),
{
    lemma_start_hand_deals_two_each(g, d);
    let g0 = reset_hand(g, d);
    let g3 = post_blinds_effect(g0).0;
    assert(g3.deck == d);
    assert(deck_after(d, 4).len() == 48);
}

/// Dealing a street starts a new betting round: every player's bet for the
/// round is back to zero and nothing is owed, while stacks, hand totals and
/// hole cards stay as they were.
pub proof fn lemma_street_starts_new_round(g: GameView, stage: GameStage, num: int)
    ensures
        community_effect(g, stage, num).players.len() == g.players.len(),
        community_effect(g, stage, num).current_bet == 0,
        community_effect(g, stage, num).stage == stage,
        forall|k: int|
            0 <= k < g.players.len() ==> {
                let p = #[trigger] community_effect(g, stage, num).players[k];
                &&& p.bet_this_round == 0
                &&& p.chips == g.players[k].chips
                &&& p.total_bet == g.players[k].total_bet
                &&& p.hole_cards == g.players[k].hole_cards
                &&& p.is_folded == g.players[k].is_folded
                &&& p.is_all_in == g.players[k].is_all_in
            },
{
}

proof fn lemma_empty_seq_multiset()
    ensures
        Seq::<Card>::empty().to_multiset() == Multiset::<Card>::empty(),
{
    broadcast use vstd::seq_lib::group_to_multiset_ensures;
    assert(Seq::<Card>::empty().to_multiset().len() == 0);
    vstd::multiset::lemma_multiset_empty_len(Seq::<Card>::empty().to_multiset());
}

proof fn lemma_all_empty_hole_cards(ps: Seq<PlayerView>)
    requires
        forall|k: int| 0 <= k < ps.len() ==> (#[trigger] ps[k]).hole_cards == Seq::<Card>::empty(),
    ensures
        hole_cards_multiset(ps) == Multiset::<Card>::empty(),
    decreases ps.len(),
{
    broadcast use vstd::multiset::group_multiset_axioms;
    if ps.len() > 0 {
        assert forall|k: int| 0 <= k < ps.len() - 1 implies (#[trigger] ps.drop_last()[k]).hole_cards
            == Seq::<Card>::empty() by {
            assert(ps[k].hole_cards == Seq::<Card>::empty());
        }
        lemma_all_empty_hole_cards(ps.drop_last());
        assert(ps.last().hole_cards == Seq::<Card>::empty());
        lemma_empty_seq_multiset();
        assert(hole_cards_multiset(ps) =~= Multiset::<Card>::empty());
    }
}

/// Dealing a street moves cards from the deck to the board, except the
/// burned card, which leaves play; chips and hole cards are untouched.
pub proof fn lemma_street_conserves_cards(g: GameView, stage: GameStage, num: int)
    requires
        0 <= num,
    ensures
        g.deck.len() > 0 ==> cards_in_play(community_effect(g, stage, num)).insert(g.deck.last())
            == cards_in_play(g),
        g.deck.len() == 0 ==> cards_in_play(community_effect(g, stage, num)) == cards_in_play(g),
        sum_chips(community_effect(g, stage, num).players) == sum_chips(g.players),
        community_effect(g, stage, num).pot == g.pot,
{
    broadcast use vstd::multiset::group_multiset_axioms;
    broadcast use vstd::seq_lib::group_to_multiset_ensures;
    let after = community_effect(g, stage, num);
    let d1 = if g.deck.len() > 0 {
        g.deck.drop_last()
    } else {
        g.deck
    };
    let k = if num <= d1.len() {
        num
    } else {
        d1.len() as int
    };
    let kept = d1.take(d1.len() - k);
    let dealt = top_cards(d1, k);
    assert(d1 =~= kept + dealt.reverse());
    vstd::seq_lib::lemma_multiset_commutative(kept, dealt.reverse());
    dealt.lemma_reverse_to_multiset();
    vstd::seq_lib::lemma_multiset_commutative(g.community_cards, dealt);
    assert forall|q: int| 0 <= q < g.players.len() implies #[trigger] after.players[q].hole_cards
        == g.players[q].hole_cards by {}
    lemma_hole_cards_multiset_congruent(after.players, g.players);
    assert forall|q: int| 0 <= q < g.players.len() implies #[trigger] after.players[q].chips
        == g.players[q].chips by {}
    lemma_sum_chips_congruent(after.players, g.players);
    if g.deck.len() > 0 {
        assert(g.deck =~= d1.push(g.deck.last()));
        assert(cards_in_play(after).insert(g.deck.last()) =~= cards_in_play(g));
    } else {
        assert(cards_in_play(after) =~= cards_in_play(g));
    }
}

/// Card dealing, blinds and street progression.
pub struct Dealer;

impl Dealer {
    /// Starts a new hand: a fresh shuffled deck, cleared board and pot,
    /// players reset, blinds posted and two hole cards dealt to each player;
    /// the small blind (heads-up, the dealer) acts first pre-flop.
    ///
    /// Errors: fewer than two players (after the reset), or an overflow while
    /// posting a blind.
    pub fn start_new_hand(game: &mut GameState) -> (r: Result<(), PokerError>)
        requires
            old(game)@.hand_number < u64::MAX,
            old(game)@.players.len() >= 2 ==> old(game)@.dealer_index < old(game)@.players.len(),
        ensures
            exists|d: Seq<Card>|
                {
                    &&& d.to_multiset() == standard_deck().to_multiset()
                    &&& d.len() == 52
                    &&& d.no_duplicates()
                    &&& (final(game)@, result_view(r)) == #[trigger] start_hand_effect(old(game)@, d)
                },
    {
        let ghost g = game@;
        game.hand_number = game.hand_number + 1;
        game.deck = Deck::new();
        game.deck.shuffle();
        let ghost d = game.deck@;
        proof {
            broadcast use vstd::seq_lib::group_to_multiset_ensures;
            crate::models::card::lemma_standard_deck_complete_and_unique();
            assert forall|x: Card| d.to_multiset().contains(x) implies d.to_multiset().count(x) == 1 by {
            }
            d.lemma_multiset_has_no_duplicates_conv();
            assert(d.to_multiset().len() == d.len());
        }
        game.community_cards.clear();
        game.pot = 0;
        game.current_bet = 0;
        game.last_raise_amount = game.big_blind;
        game.stage = GameStage::PreFlop;
        game.side_pots.clear();
        let n = game.players.len();
        let mut i: usize = 0;
        while i < n
            invariant
                n == game@.players.len(),
                n == game.players@.len(),
                i <= n,
                g.players.len() == n,
                game@.dealer_index == g.dealer_index,
                forall|k: int| 0 <= k < i ==> #[trigger] game@.players[k] == reset_for_new_hand_spec(
                    g.players[k],
                    k == g.dealer_index,
                ),
                forall|k: int| i <= k < n ==> #[trigger] game@.players[k] == g.players[k],
                game@ == (GameView { players: game@.players, ..reset_hand(g, d) }),
            decreases n - i,
        {
            let is_dealer = i == game.dealer_index;
            let ghost before = game@;
            let ghost before_players = game.players@;
            assert(before_players[i as int]@ == before.players[i as int]);
            assert(before.players[i as int] == g.players[i as int]);
            game.players[i].reset_for_new_hand(is_dealer);
            assert(game.players@[i as int]@ == reset_for_new_hand_spec(before_players[i as int]@, is_dealer));
            proof {
                assert forall|k: int| 0 <= k < n && k != i implies #[trigger] game@.players[k]
                    == before.players[k] by {
                    assert(game.players@[k] == before_players[k]);
                    assert(game@.players[k] == game.players@[k]@);
                    assert(before.players[k] == before_players[k]@);
                }
                assert(game@.players[i as int] == game.players@[i as int]@);
                assert(game@.players[i as int] == reset_for_new_hand_spec(g.players[i as int], i == g.dealer_index));
            }
            i = i + 1;
        }
        assert(game@.players =~= reset_hand(g, d).players);
        assert(game@ =~= reset_hand(g, d));
        let posted = Self::post_blinds(game);
        if posted.is_err() {
            assert((game@, result_view(posted)) == start_hand_effect(g, d));
            return posted;
        }
        Self::deal_hole_cards(game);
        assert(game.players@.len() == game@.players.len());
        game.current_player_index = Some(game.dealer_index);
        assert((game@, result_view(Ok::<(), PokerError>(()))) == start_hand_effect(g, d));
        Ok(())
    }

    /// Deals a street: burns one card, deals `num_cards` community cards,
    /// clears the round's bets and gives the turn to the seat after the dealer.
    fn deal_community_cards(game: &mut GameState, stage: GameStage, num_cards: usize)
        requires
            deal_requires(old(game)@),
        ensures
            final(game)@ == community_effect(old(game)@, stage, num_cards as int),
    {
        let ghost g = game@;
        game.stage = stage;
        game.current_bet = 0;
        game.last_raise_amount = game.big_blind;
        let _burned = game.deck.deal();
        let ghost d1 = game.deck@;
        assert(d1 == (if g.deck.len() > 0 {
            g.deck.drop_last()
        } else {
            g.deck
        }));
        let mut c: usize = 0;
        while c < num_cards
            invariant
                c <= num_cards,
                d1.len() <= g.deck.len(),
                game.deck@ == d1.take(d1.len() - (if c <= d1.len() {
                    c as int
                } else {
                    d1.len() as int
                })),
                game.community_cards@ == g.community_cards + top_cards(
                    d1,
                    if c <= d1.len() {
                        c as int
                    } else {
                        d1.len() as int
                    },
                ),
                game.players@ == old(game).players@,
                game.dealer_index == g.dealer_index,
                game@ == (GameView {
                    deck: game@.deck,
                    community_cards: game@.community_cards,
                    stage,
                    current_bet: 0,
                    last_raise_amount: g.big_blind,
                    ..g
                }),
            decreases num_cards - c,
        {
            let ghost taken = if c <= d1.len() {
                c as int
            } else {
                d1.len() as int
            };
            match game.deck.deal() {
                Some(card) => {
                    game.community_cards.push(card);
                    assert(card == d1[d1.len() - 1 - taken]);
                    assert(top_cards(d1, taken + 1) =~= top_cards(d1, taken).push(card));
                    assert(d1.take(d1.len() - taken).drop_last() =~= d1.take(d1.len() - taken - 1));
                },
                None => {},
            }
            c = c + 1;
        }
        let n = game.players.len();
        let ghost before_round = game@;
        let mut i: usize = 0;
        while i < n
            invariant
                i <= n,
                n == game.players@.len(),
                n == before_round.players.len(),
                forall|k: int| 0 <= k < i ==> #[trigger] game@.players[k] == (PlayerView {
                    bet_this_round: 0,
                    ..before_round.players[k]
                }),
                forall|k: int| i <= k < n ==> #[trigger] game@.players[k] == before_round.players[k],
                game@ == (GameView { players: game@.players, ..before_round }),
            decreases n - i,
        {
            let ghost before = game@;
            let ghost before_players = game.players@;
            assert(before_players[i as int]@ == before.players[i as int]);
            game.players[i].reset_round_bet();
            proof {
                assert forall|k: int| 0 <= k < n && k != i implies #[trigger] game@.players[k]
                    == before.players[k] by {
                    assert(game.players@[k] == before_players[k]);
                    assert(game@.players[k] == game.players@[k]@);
                    assert(before.players[k] == before_players[k]@);
                }
                assert(game@.players[i as int] == game.players@[i as int]@);
            }
            i = i + 1;
        }
        game.current_player_index = Some((game.dealer_index + 1) % game.players.len());
        proof {
            let want = community_effect(g, stage, num_cards as int);
            assert(game@.players =~= want.players);
            assert(game@.deck =~= want.deck);
            assert(game@.community_cards =~= want.community_cards);
            assert(game@ =~= want);
        }
    }

    /// Deals the flop: burn one card, then three community cards.
    pub fn deal_flop(game: &mut GameState) -> (r: Result<(), PokerError>)
        requires
            deal_requires(old(game)@),
        ensures
            r is Ok,
            final(game)@ == community_effect(old(game)@, GameStage::Flop, 3),
    {
        Self::deal_community_cards(game, GameStage::Flop, 3);
        Ok(())
    }

    /// Deals the turn: burn one card, then one community card.
    pub fn deal_turn(game: &mut GameState) -> (r: Result<(), PokerError>)
        requires
            deal_requires(old(game)@),
        ensures
            r is Ok,
            final(game)@ == community_effect(old(game)@, GameStage::Turn, 1),
    {
        Self::deal_community_cards(game, GameStage::Turn, 1);
        Ok(())
    }

    /// Deals the river: burn one card, then one community card.
    pub fn deal_river(game: &mut GameState) -> (r: Result<(), PokerError>)
        requires
            deal_requires(old(game)@),
        ensures
            r is Ok,
            final(game)@ == community_effect(old(game)@, GameStage::River, 1),
    {
        Self::deal_community_cards(game, GameStage::River, 1);
        Ok(())
    }

    /// Moves to the showdown: nobody is left to act.
    pub fn advance_to_showdown(game: &mut GameState)
        ensures
            final(game)@ == (GameView {
                stage: GameStage::Showdown,
                current_player_index: None,
                ..old(game)@
            }),
    {
        game.stage = GameStage::Showdown;
        game.current_player_index = None;
        assert(game@ =~= (GameView {
            stage: GameStage::Showdown,
            current_player_index: None,
            ..old(game)@
        }));
    }

    fn deal_hole_cards(game: &mut GameState)
        ensures
            final(game)@ == hole_deal_effect(old(game)@),
    {
        let ghost g = game@;
        let ghost d = g.deck;
        let ghost n = g.players.len() as int;
        let ghost mut j: int = 0;
        let n_players = game.players.len();
        assert(holes_dealt(g, 0) =~= g) by {
            assert forall|q: int| 0 <= q < n implies #[trigger] holes_dealt(g, 0).players[q] == g.players[q] by {
                assert(dealt_upto(d, n, q, 0) =~= Seq::<Card>::empty());
                assert(g.players[q].hole_cards + Seq::<Card>::empty() =~= g.players[q].hole_cards);
            }
            assert(holes_dealt(g, 0).players =~= g.players);
            assert(deck_after(d, 0) =~= d);
        }
        let mut round: usize = 0;
        while round < HOLE_CARDS
            invariant
                round <= 2,
                d == g.deck,
                n == g.players.len(),
                n_players == n,
                game.players@.len() == n,
                j == (if round == 0 {
                    0
                } else if round == 1 {
                    n
                } else {
                    2 * n
                }),
                game@ == holes_dealt(g, j),
            decreases 2 - round,
        {
            let mut k: usize = 0;
            while k < n_players
                invariant
                    round < 2,
                    d == g.deck,
                    n == g.players.len(),
                    k <= n_players,
                    n_players == n,
                    game.players@.len() == n,
                    j == (if round == 0 {
                        0
                    } else {
                        n
                    }) + k,
                    game@ == holes_dealt(g, j),
                decreases n_players - k,
            {
                let ghost before = game@;
                let ghost before_players = game.players@;
                proof {
                    let l = d.len() as int;
                    if j < l {
                        assert(deck_after(d, j).len() == l - j);
                        assert(deck_after(d, j).last() == d[l - 1 - j]);
                    } else {
                        assert(deck_after(d, j).len() == 0);
                    }
                }
                let dealt = game.deck.deal();
                proof {
                    let l = d.len() as int;
                    assert(before == holes_dealt(g, j));
                    assert(holes_dealt(g, j).deck == deck_after(g.deck, j));
                    assert(before.deck == deck_after(d, j));
                    if j < l {
                        assert(dealt == Some(d[l - 1 - j]));
                    } else {
                        assert(dealt is None);
                    }
                }
                match dealt {
                    Some(card) => {
                        game.players[k].hole_cards.push(card);
                        assert(game.players@[k as int]@ == PlayerView {
                            hole_cards: before_players[k as int]@.hole_cards.push(card),
                            ..before_players[k as int]@
                        });
                    },
                    None => {},
                }
                proof {
                    let l = d.len() as int;
                    let next = holes_dealt(g, j + 1);
                    assert forall|q: int| 0 <= q < n && q != k implies #[trigger] game@.players[q]
                        == before.players[q] by {
                        assert(game.players@[q] == before_players[q]);
                        assert(game@.players[q] == game.players@[q]@);
                        assert(before.players[q] == before_players[q]@);
                    }
                    assert(game@.players[k as int] == game.players@[k as int]@);
                    assert(before.players[k as int] == before_players[k as int]@);
                    assert forall|q: int| 0 <= q < n implies #[trigger] game@.players[q] == next.players[q] by {
                        if q == k {
                            assert(g.players[q].hole_cards + dealt_upto(d, n, q, j + 1) =~= (
                            g.players[q].hole_cards + dealt_upto(d, n, q, j)) + (if j < l {
                                seq![d[l - 1 - j]]
                            } else {
                                Seq::<Card>::empty()
                            }));
                        } else {
                            assert(dealt_upto(d, n, q, j + 1) == dealt_upto(d, n, q, j));
                        }
                    }
                    assert(game@.players =~= next.players);
                    assert(deck_after(d, j).len() > 0 ==> deck_after(d, j).drop_last() =~= deck_after(d, j + 1));
                    assert(deck_after(d, j).len() == 0 ==> deck_after(d, j + 1) =~= deck_after(d, j));
                    j = j + 1;
                }
                k = k + 1;
            }
            round = round + 1;
        }
        assert(holes_dealt(g, 2 * n) =~= hole_deal_effect(g));
    }

    fn post_blinds(game: &mut GameState) -> (r: Result<(), PokerError>)
        requires
            old(game)@.players.len() >= 2 ==> old(game)@.dealer_index < old(game)@.players.len(),
        ensures
            (final(game)@, result_view(r)) == post_blinds_effect(old(game)@),
    {
        if game.players.len() < 2 {
            return Err(game_error("Need at least 2 players to post blinds"));
        }
        let ghost g = game@;
        let sb_player_idx = game.dealer_index;
        let bb_player_idx = (game.dealer_index + 1) % game.players.len();
        let sb_chips = game.players[sb_player_idx].chips;
        let bb_chips = game.players[bb_player_idx].chips;
        let sb_actual = if game.small_blind <= sb_chips {
            game.small_blind
        } else {
            sb_chips
        };
        let bb_actual = if game.big_blind <= bb_chips {
            game.big_blind
        } else {
            bb_chips
        };
        let small_blind = game.small_blind;
        let big_blind = game.big_blind;
        match Self::post_blind(game, sb_player_idx, small_blind) {
            Ok(()) => {},
            Err(e) => {
                return Err(e);
            },
        }
        match Self::post_blind(game, bb_player_idx, big_blind) {
            Ok(()) => {},
            Err(e) => {
                return Err(e);
            },
        }
        game.current_bet = if bb_actual >= sb_actual {
            bb_actual
        } else {
            sb_actual
        };
        Ok(())
    }

    fn post_blind(game: &mut GameState, player_idx: usize, blind_amount: i64) -> (r: Result<
        (),
        PokerError,
    >)
        requires
            player_idx < old(game)@.players.len(),
        ensures
            (final(game)@, result_view(r)) == post_blind_effect(
                old(game)@,
                player_idx as int,
                blind_amount,
            ),
    {
        let ghost g = game@;
        let ghost i = player_idx as int;
        assert(game.players@[i]@ == g.players[i]);
        let chips = game.players[player_idx].chips;
        let actual_amount = if blind_amount <= chips {
            blind_amount
        } else {
            chips
        };
        match chips.checked_sub(actual_amount) {
            Some(c) => {
                game.players[player_idx].chips = c;
            },
            None => {
                return Err(game_error("Chip underflow posting blind"));
            },
        }
        game.players[player_idx].bet_this_round = actual_amount;
        game.players[player_idx].total_bet = actual_amount;
        match game.pot.checked_add(actual_amount) {
            Some(p) => {
                game.pot = p;
            },
            None => {
                assert(game@ =~= post_blind_effect(g, i, blind_amount).0);
                return Err(game_error("Pot overflow posting blind"));
            },
        }
        if game.players[player_idx].chips == 0 {
            game.players[player_idx].is_all_in = true;
        }
        assert(game@ =~= post_blind_effect(g, i, blind_amount).0);
        Ok(())
    }
}

} // verus!
