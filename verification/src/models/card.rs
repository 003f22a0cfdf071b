//! Cards, ranks, suits and the deck.

use vstd::prelude::*;

verus! {

/// The four suits of a standard deck.
#[derive(Debug, Clone, Copy, PartialEq, Eq, Hash, Structural)]
pub enum Suit {
    Hearts,
    Diamonds,
    Clubs,
    Spades,
}

/// The thirteen ranks, from Two (value 2) up to Ace (value 14).
///
/// The declaration order is the rank order, so the derived `Ord` orders
/// ranks by value.
#[derive(Debug, Clone, Copy, PartialEq, Eq, PartialOrd, Ord, Hash, Structural)]
pub enum Rank {
    Two,
    Three,
    Four,
    Five,
    Six,
    Seven,
    Eight,
    Nine,
    Ten,
    Jack,
    Queen,
    King,
    Ace,
}

impl Rank {
    /// The numeric value of a rank: 2 for Two up to 14 for Ace.
    pub open spec fn spec_value(&self) -> u8 {
        match self {
            Rank::Two => 2,
            Rank::Three => 3,
            Rank::Four => 4,
            Rank::Five => 5,
            Rank::Six => 6,
            Rank::Seven => 7,
            Rank::Eight => 8,
            Rank::Nine => 9,
            Rank::Ten => 10,
            Rank::Jack => 11,
            Rank::Queen => 12,
            Rank::King => 13,
            Rank::Ace => 14,
        }
    }

    /// Returns the numeric value of the rank (2..=14).
    #[verifier::when_used_as_spec(spec_value)]
    pub fn value(&self) -> (v: u8)
        ensures
            v == self.spec_value(),
            2 <= v <= 14,
    {
        match self {
            Rank::Two => 2,
            Rank::Three => 3,
            Rank::Four => 4,
            Rank::Five => 5,
            Rank::Six => 6,
            Rank::Seven => 7,
            Rank::Eight => 8,
            Rank::Nine => 9,
            Rank::Ten => 10,
            Rank::Jack => 11,
            Rank::Queen => 12,
            Rank::King => 13,
            Rank::Ace => 14,
        }
    }
}

/// Two ranks with the same value are the same rank.
pub proof fn lemma_rank_value_injective(a: Rank, b: Rank)
    ensures
        a.spec_value() == b.spec_value() <==> a == b,
{
}

/// A playing card.
#[derive(Debug, Clone, Copy, PartialEq, Eq, Hash, Structural)]
pub struct Card {
    pub suit: Suit,
    pub rank: Rank,
}

/// The symbol printed for a rank: "2".."9", "T", "J", "Q", "K", "A".
pub open spec fn rank_symbol(r: Rank) -> Seq<char> {
    match r {
        Rank::Two => "2"@,
        Rank::Three => "3"@,
        Rank::Four => "4"@,
        Rank::Five => "5"@,
        Rank::Six => "6"@,
        Rank::Seven => "7"@,
        Rank::Eight => "8"@,
        Rank::Nine => "9"@,
        Rank::Ten => "T"@,
        Rank::Jack => "J"@,
        Rank::Queen => "Q"@,
        Rank::King => "K"@,
        Rank::Ace => "A"@,
    }
}

/// The symbol printed for a suit.
pub open spec fn suit_symbol(s: Suit) -> Seq<char> {
    match s {
        Suit::Hearts => "\u{2665}"@,
        Suit::Diamonds => "\u{2666}"@,
        Suit::Clubs => "\u{2663}"@,
        Suit::Spades => "\u{2660}"@,
    }
}

fn rank_str(r: Rank) -> (s: &'static str)
    ensures
        s@ == rank_symbol(r),
{
    match r {
        Rank::Two => "2",
        Rank::Three => "3",
        Rank::Four => "4",
        Rank::Five => "5",
        Rank::Six => "6",
        Rank::Seven => "7",
        Rank::Eight => "8",
        Rank::Nine => "9",
        Rank::Ten => "T",
        Rank::Jack => "J",
        Rank::Queen => "Q",
        Rank::King => "K",
        Rank::Ace => "A",
    }
}

fn suit_str(s: Suit) -> (r: &'static str)
    ensures
        r@ == suit_symbol(s),
{
    match s {
        Suit::Hearts => "\u{2665}",
        Suit::Diamonds => "\u{2666}",
        Suit::Clubs => "\u{2663}",
        Suit::Spades => "\u{2660}",
    }
}

impl Card {
    /// Creates a card of the given suit and rank.
    pub fn new(suit: Suit, rank: Rank) -> (c: Self)
        ensures
            c.suit == suit,
            c.rank == rank,
    {
        Card { suit, rank }
    }

    /// The text of a card: its rank symbol followed by its suit symbol, e.g. "A♥".
    pub fn to_string(&self) -> (s: String)
        ensures
            s@ == rank_symbol(self.rank) + suit_symbol(self.suit),
    {
        let mut s = String::from_str(rank_str(self.rank));
        s.append(suit_str(self.suit));
        s
    }
}


/// The suit in position `i` of the deck-building order: Hearts, Diamonds, Clubs, Spades.
pub open spec fn suit_at(i: int) -> Suit {
    if i == 0 {
        Suit::Hearts
    } else if i == 1 {
        Suit::Diamonds
    } else if i == 2 {
        Suit::Clubs
    } else {
        Suit::Spades
    }
}

/// The position of a suit in the deck-building order.
pub open spec fn suit_index(s: Suit) -> int {
    match s {
        Suit::Hearts => 0,
        Suit::Diamonds => 1,
        Suit::Clubs => 2,
        Suit::Spades => 3,
    }
}

/// The rank in position `j` (0 for Two up to 12 for Ace).
pub open spec fn rank_at(j: int) -> Rank {
    if j == 0 {
        Rank::Two
    } else if j == 1 {
        Rank::Three
    } else if j == 2 {
        Rank::Four
    } else if j == 3 {
        Rank::Five
    } else if j == 4 {
        Rank::Six
    } else if j == 5 {
        Rank::Seven
    } else if j == 6 {
        Rank::Eight
    } else if j == 7 {
        Rank::Nine
    } else if j == 8 {
        Rank::Ten
    } else if j == 9 {
        Rank::Jack
    } else if j == 10 {
        Rank::Queen
    } else if j == 11 {
        Rank::King
    } else {
        Rank::Ace
    }
}

/// The number of cards in a standard deck.
pub const CARDS_PER_DECK: usize = 52;

/// The standard 52-card deck in building order: for each suit (Hearts,
/// Diamonds, Clubs, Spades) the ranks from Two to Ace.
pub open spec fn standard_deck() -> Seq<Card> {
    Seq::new(52, |k: int| Card { suit: suit_at(k / 13), rank: rank_at(k % 13) })
}

/// The card that the deck-building order places at position `k`.
pub open spec fn deck_position(c: Card) -> int {
    suit_index(c.suit) * 13 + (c.rank.spec_value() - 2)
}

fn suit_for(i: usize) -> (s: Suit)
    requires
        i < 4,
    ensures
        s == suit_at(i as int),
{
    if i == 0 {
        Suit::Hearts
    } else if i == 1 {
        Suit::Diamonds
    } else if i == 2 {
        Suit::Clubs
    } else {
        Suit::Spades
    }
}

fn rank_for(j: usize) -> (r: Rank)
    requires
        j < 13,
    ensures
        r == rank_at(j as int),
{
    if j == 0 {
        Rank::Two
    } else if j == 1 {
        Rank::Three
    } else if j == 2 {
        Rank::Four
    } else if j == 3 {
        Rank::Five
    } else if j == 4 {
        Rank::Six
    } else if j == 5 {
        Rank::Seven
    } else if j == 6 {
        Rank::Eight
    } else if j == 7 {
        Rank::Nine
    } else if j == 8 {
        Rank::Ten
    } else if j == 9 {
        Rank::Jack
    } else if j == 10 {
        Rank::Queen
    } else if j == 11 {
        Rank::King
    } else {
        Rank::Ace
    }
}

/// Every card stands at exactly one position of the standard deck: the deck
/// holds each of the 52 suit/rank combinations once and only once.
pub proof fn lemma_standard_deck_complete_and_unique()
    ensures
        standard_deck().len() == 52,
        standard_deck().no_duplicates(),
        forall|c: Card| #![trigger standard_deck().contains(c)]
            standard_deck().contains(c),
        forall|c: Card| 0 <= #[trigger] deck_position(c) < 52 && standard_deck()[deck_position(c)] == c,
        forall|c: Card| #[trigger] standard_deck().to_multiset().count(c) == 1,
{
    let d = standard_deck();
    assert forall|k: int| 0 <= k < 52 implies #[trigger] deck_position(d[k]) == k by {
        let q = k / 13;
        let r = k % 13;
        assert(k == q * 13 + r && 0 <= r < 13 && 0 <= q < 4) by (nonlinear_arith)
            requires
                0 <= k < 52,
                q == k / 13,
                r == k % 13,
        ;
    }
    assert forall|c: Card| 0 <= #[trigger] deck_position(c) < 52 && d[deck_position(c)] == c by {
        let k = deck_position(c);
        let si = suit_index(c.suit);
        let ri = c.rank.spec_value() - 2;
        assert(0 <= ri < 13);
        assert(k / 13 == si && k % 13 == ri) by (nonlinear_arith)
            requires
                k == si * 13 + ri,
                0 <= ri < 13,
                0 <= si < 4,
        ;
    }
    assert forall|c: Card| #![trigger d.contains(c)] d.contains(c) by {
        assert(d[deck_position(c)] == c);
    }
    assert(d.no_duplicates()) by {
        assert forall|i: int, j: int| 0 <= i < d.len() && 0 <= j < d.len() && i != j
            implies d[i] != d[j] by {
            assert(deck_position(d[i]) == i);
            assert(deck_position(d[j]) == j);
        }
    }
    d.lemma_multiset_has_no_duplicates();
    assert forall|c: Card| #[trigger] d.to_multiset().count(c) == 1 by {
        broadcast use vstd::seq_lib::group_to_multiset_ensures;
        assert(d.contains(c));
    }
}

/// Shuffles the cards in place with the thread-local random generator
/// (`rand::seq::SliceRandom::shuffle`, a Fisher-Yates shuffle made of swaps).
/// The contract claims only that the result is a rearrangement of the input:
/// which rearrangement comes out is left to chance.
#[verifier::external_body]
fn shuffle_cards(cards: &mut Vec<Card>)
    ensures
        final(cards)@.to_multiset() == old(cards)@.to_multiset(),
{
    rand::seq::SliceRandom::shuffle(cards.as_mut_slice(), &mut rand::thread_rng());
}

/// A deck of cards; the last card of the sequence is the top of the deck.
#[derive(Debug, Clone)]
pub struct Deck {
    pub(crate) cards: Vec<Card>,
}

impl View for Deck {
    type V = Seq<Card>;

    closed spec fn view(&self) -> Seq<Card> {
        self.cards@
    }
}

impl Deck {
    /// Builds the 52 cards of a standard deck and shuffles them: the new
    /// deck is a rearrangement of `standard_deck()`.
    pub fn new() -> (d: Self)
        ensures
            d@.to_multiset() == standard_deck().to_multiset(),
            d@.len() == 52,
            d@.no_duplicates(),
    {
        let mut cards: Vec<Card> = Vec::with_capacity(CARDS_PER_DECK);
        let mut i: usize = 0;
        while i < 4
            invariant
                i <= 4,
                cards@ == standard_deck().subrange(0, 13 * i as int),
            decreases 4 - i,
        {
            let suit = suit_for(i);
            let mut j: usize = 0;
            while j < 13
                invariant
                    i < 4,
                    j <= 13,
                    suit == suit_at(i as int),
                    cards@ == standard_deck().subrange(0, 13 * i + j),
                decreases 13 - j,
            {
                let ghost before = cards@;
                cards.push(Card::new(suit, rank_for(j)));
                proof {
                    let k = 13 * i + j;
                    assert(k / 13 == i && k % 13 == j) by (nonlinear_arith)
                        requires
                            k == 13 * i + j,
                            j < 13,
                    ;
                    assert(cards@ =~= standard_deck().subrange(0, k + 1));
                }
                j = j + 1;
            }
            i = i + 1;
        }
        assert(cards@ =~= standard_deck());
        let mut deck = Deck { cards };
        deck.shuffle();
        proof {
            lemma_standard_deck_complete_and_unique();
            broadcast use vstd::seq_lib::group_to_multiset_ensures;
            assert forall|x: Card| deck@.to_multiset().contains(x) implies deck@.to_multiset().count(x) == 1 by {
            }
            deck@.lemma_multiset_has_no_duplicates_conv();
        }
        deck
    }

    /// Shuffles the deck: afterwards it holds the same cards in an order left to chance.
    pub fn shuffle(&mut self)
        ensures
            final(self)@.to_multiset() == old(self)@.to_multiset(),
            final(self)@.len() == old(self)@.len(),
    {
        let ghost before = self.cards@;
        shuffle_cards(&mut self.cards);
        proof {
            broadcast use vstd::seq_lib::group_to_multiset_ensures;
            assert(before.to_multiset().len() == before.len());
            assert(self.cards@.to_multiset().len() == self.cards@.len());
        }
    }

    /// Deals the top card (the last of the sequence), if there is one.
    pub fn deal(&mut self) -> (c: Option<Card>)
        ensures
            old(self)@.len() == 0 ==> c is None && final(self)@ == old(self)@,
            old(self)@.len() > 0 ==> c == Some(old(self)@.last()) && final(self)@
                == old(self)@.drop_last(),
    {
        self.cards.pop()
    }

    /// The number of cards left in the deck.
    pub fn remaining(&self) -> (n: usize)
        ensures
            n == self@.len(),
    {
        self.cards.len()
    }
}

impl Default for Deck {
    /// A new shuffled standard deck, as `Deck::new` builds it.
    fn default() -> (d: Self)
        ensures
            d@.to_multiset() == standard_deck().to_multiset(),
            d@.len() == 52,
            d@.no_duplicates(),
    {
        Deck::new()
    }
}

} // verus!
