use vstd::prelude::*;
use vstd::string::*;
use rand::rngs::ThreadRng;
use rand::seq::SliceRandom;

verus! {

/// The four suits of a standard deck.
#[derive(Debug, Clone, Copy, PartialEq, Eq, Structural)]
pub enum Suit {
    Clubs,
    Diamonds,
    Hearts,
    Spades,
}

/// Card ranks, from two up to ace; the joker ranks above the ace.
#[derive(Copy, Clone, PartialEq, Eq, PartialOrd, Ord, Hash, Debug, Structural)]
pub enum Rank {
    Two,
    Three,
    Four,
    Five,
    Six,
    Seven,
    Eight,
    Nine,
    Ten,
    Jack,
    Queen,
    King,
    Ace,
    Joker,
}

/// A card: a rank, and a suit for every card but a joker.
#[derive(Copy, Clone, Debug, PartialEq, Eq, Structural)]
pub struct Card {
    pub rank: Rank,
    pub suit: Option<Suit>,
}

/// The numeric value of a rank: 2 to 10 for the pip cards, 11 to 13 for the
/// court cards, 14 for the ace and 15 for the joker.
pub open spec fn rank_value(r: Rank) -> u8 {
    match r {
        Rank::Two => 2,
        Rank::Three => 3,
        Rank::Four => 4,
        Rank::Five => 5,
        Rank::Six => 6,
        Rank::Seven => 7,
        Rank::Eight => 8,
        Rank::Nine => 9,
        Rank::Ten => 10,
        Rank::Jack => 11,
        Rank::Queen => 12,
        Rank::King => 13,
        Rank::Ace => 14,
        Rank::Joker => 15,
    }
}

/// The rank with the given value, for values 2 to 15.
pub open spec fn rank_of_value(v: int) -> Rank
    recommends
        2 <= v <= 15,
{
    if v <= 2 {
        Rank::Two
    } else if v == 3 {
        Rank::Three
    } else if v == 4 {
        Rank::Four
    } else if v == 5 {
        Rank::Five
    } else if v == 6 {
        Rank::Six
    } else if v == 7 {
        Rank::Seven
    } else if v == 8 {
        Rank::Eight
    } else if v == 9 {
        Rank::Nine
    } else if v == 10 {
        Rank::Ten
    } else if v == 11 {
        Rank::Jack
    } else if v == 12 {
        Rank::Queen
    } else if v == 13 {
        Rank::King
    } else if v == 14 {
        Rank::Ace
    } else {
        Rank::Joker
    }
}

/// The suit at position `i` (0 to 3) of the order clubs, diamonds, hearts, spades.
pub open spec fn suit_at(i: int) -> Suit {
    if i <= 0 {
        Suit::Clubs
    } else if i == 1 {
        Suit::Diamonds
    } else if i == 2 {
        Suit::Hearts
    } else {
        Suit::Spades
    }
}

/// The standard deck in the order it is built: for each suit in turn
/// (clubs, diamonds, hearts, spades), the ranks from two to ace.
pub open spec fn standard_deck() -> Seq<Card> {
    Seq::new(52, |i: int| Card { rank: rank_of_value(i % 13 + 2), suit: Some(suit_at(i / 13)) })
}

/// A joker card: rank joker, no suit.
pub open spec fn joker() -> Card {
    Card { rank: Rank::Joker, suit: None }
}

/// The text of a rank: its number for two to ten, its name otherwise.
pub open spec fn rank_text(r: Rank) -> Seq<char> {
    match r {
        Rank::Two => "2"@,
        Rank::Three => "3"@,
        Rank::Four => "4"@,
        Rank::Five => "5"@,
        Rank::Six => "6"@,
        Rank::Seven => "7"@,
        Rank::Eight => "8"@,
        Rank::Nine => "9"@,
        Rank::Ten => "10"@,
        Rank::Jack => "Jack"@,
        Rank::Queen => "Queen"@,
        Rank::King => "King"@,
        Rank::Ace => "Ace"@,
        Rank::Joker => "Joker"@,
    }
}

/// The name of a suit, as its variant is written.
pub open spec fn suit_text(s: Suit) -> Seq<char> {
    match s {
        Suit::Clubs => "Clubs"@,
        Suit::Diamonds => "Diamonds"@,
        Suit::Hearts => "Hearts"@,
        Suit::Spades => "Spades"@,
    }
}

/// How a card is shown: `<rank>_of_<Suit>`, or the rank alone for a card
/// without suit.
pub open spec fn card_text(c: Card) -> Seq<char> {
    match c.suit {
        Some(s) => rank_text(c.rank) + "_of_"@ + suit_text(s),
        None => rank_text(c.rank),
    }
}

/// The lower-case text of a rank.
pub open spec fn rank_text_lower(r: Rank) -> Seq<char> {
    match r {
        Rank::Jack => "jack"@,
        Rank::Queen => "queen"@,
        Rank::King => "king"@,
        Rank::Ace => "ace"@,
        Rank::Joker => "joker"@,
        _ => rank_text(r),
    }
}

/// The lower-case name of a suit.
pub open spec fn suit_text_lower(s: Suit) -> Seq<char> {
    match s {
        Suit::Clubs => "clubs"@,
        Suit::Diamonds => "diamonds"@,
        Suit::Hearts => "hearts"@,
        Suit::Spades => "spades"@,
    }
}

/// The lower-case form of `card_text`, which names the card's picture.
pub open spec fn card_text_lower(c: Card) -> Seq<char> {
    match c.suit {
        Some(s) => rank_text_lower(c.rank) + "_of_"@ + suit_text_lower(s),
        None => rank_text_lower(c.rank),
    }
}

impl Rank {
    /// The numeric value of the rank (2 to 15).
    pub fn value(&self) -> (v: u8)
        ensures
            v == rank_value(*self),
            2 <= v <= 15,
    {
        match self {
            Rank::Two => 2,
            Rank::Three => 3,
            Rank::Four => 4,
            Rank::Five => 5,
            Rank::Six => 6,
            Rank::Seven => 7,
            Rank::Eight => 8,
            Rank::Nine => 9,
            Rank::Ten => 10,
            Rank::Jack => 11,
            Rank::Queen => 12,
            Rank::King => 13,
            Rank::Ace => 14,
            Rank::Joker => 15,
        }
    }

    /// The rank with value `v`, for `v` from 2 to 15.
    pub fn from_value(v: u8) -> (r: Rank)
        requires
            2 <= v <= 15,
        ensures
            r == rank_of_value(v as int),
            rank_value(r) == v,
    {
        if v <= 2 {
            Rank::Two
        } else if v == 3 {
            Rank::Three
        } else if v == 4 {
            Rank::Four
        } else if v == 5 {
            Rank::Five
        } else if v == 6 {
            Rank::Six
        } else if v == 7 {
            Rank::Seven
        } else if v == 8 {
            Rank::Eight
        } else if v == 9 {
            Rank::Nine
        } else if v == 10 {
            Rank::Ten
        } else if v == 11 {
            Rank::Jack
        } else if v == 12 {
            Rank::Queen
        } else if v == 13 {
            Rank::King
        } else if v == 14 {
            Rank::Ace
        } else {
            Rank::Joker
        }
    }

    fn text(&self) -> (s: &'static str)
        ensures
            s@ == rank_text(*self),
    {
        match self {
            Rank::Two => "2",
            Rank::Three => "3",
            Rank::Four => "4",
            Rank::Five => "5",
            Rank::Six => "6",
            Rank::Seven => "7",
            Rank::Eight => "8",
            Rank::Nine => "9",
            Rank::Ten => "10",
            Rank::Jack => "Jack",
            Rank::Queen => "Queen",
            Rank::King => "King",
            Rank::Ace => "Ace",
            Rank::Joker => "Joker",
        }
    }

    fn text_lower(&self) -> (s: &'static str)
        ensures
            s@ == rank_text_lower(*self),
    {
        match self {
            Rank::Jack => "jack",
            Rank::Queen => "queen",
            Rank::King => "king",
            Rank::Ace => "ace",
            Rank::Joker => "joker",
            _ => self.text(),
        }
    }
}

impl Suit {
    fn at(i: usize) -> (s: Suit)
        ensures
            s == suit_at(i as int),
    {
        if i == 0 {
            Suit::Clubs
        } else if i == 1 {
            Suit::Diamonds
        } else if i == 2 {
            Suit::Hearts
        } else {
            Suit::Spades
        }
    }

    fn text(&self) -> (t: &'static str)
        ensures
            t@ == suit_text(*self),
    {
        match self {
            Suit::Clubs => "Clubs",
            Suit::Diamonds => "Diamonds",
            Suit::Hearts => "Hearts",
            Suit::Spades => "Spades",
        }
    }

    fn text_lower(&self) -> (t: &'static str)
        ensures
            t@ == suit_text_lower(*self),
    {
        match self {
            Suit::Clubs => "clubs",
            Suit::Diamonds => "diamonds",
            Suit::Hearts => "hearts",
            Suit::Spades => "spades",
        }
    }
}

impl Card {
    /// How the card is shown: `<rank>_of_<Suit>` (such as `10_of_Hearts` or
    /// `Queen_of_Spades`), or the rank alone (`Joker`) for a card without suit.
    pub fn display_text(&self) -> (s: String)
        ensures
            s@ == card_text(*self),
    {
        let mut s = String::from_str(self.rank.text());
        match self.suit {
            Some(suit) => {
                s.append("_of_");
                s.append(suit.text());
            },
            None => {},
        }
        s
    }

    /// The shown text in lower case (such as `queen_of_spades`), which is how
    /// cards are named in game state updates.
    pub fn display_text_lower(&self) -> (s: String)
        ensures
            s@ == card_text_lower(*self),
    {
        let mut s = String::from_str(self.rank.text_lower());
        match self.suit {
            Some(suit) => {
                s.append("_of_");
                s.append(suit.text_lower());
            },
            None => {},
        }
        s
    }
}

/// The rand crate's handle on the thread-local random number generator.
#[verifier::external_type_specification]
#[verifier::external_body]
pub struct ExThreadRng(ThreadRng);

/// Calls `rand::thread_rng`, which hands out the thread's random number
/// generator; nothing is claimed of it. (Its source panics when the
/// operating system's random source cannot be read the first time; no
/// precondition can rule that out.)
#[verifier::external_body]
fn thread_rng_handle() -> ThreadRng {
    rand::thread_rng()
}

/// Calls `SliceRandom::shuffle` on the vector's items. The rand source
/// shuffles by swapping items in place (Fisher-Yates), so the claim is that
/// the result holds the same items as before, each as often; which order
/// comes out depends on chance and is left unsaid.
#[verifier::external_body]
fn shuffle_items<T>(items: &mut Vec<T>, rng: &mut ThreadRng)
    ensures
        final(items)@.to_multiset() == old(items)@.to_multiset(),
{
    items.as_mut_slice().shuffle(rng);
}

/// A deck of cards; the last card of `cards` is the top of the deck.
#[derive(Clone, Debug)]
pub struct Deck {
    pub cards: Vec<Card>,
}

impl Deck {
    /// A standard deck of 52 cards: for each suit in turn (clubs, diamonds,
    /// hearts, spades) the thirteen ranks from two to ace.
    pub fn new_standard() -> (d: Self)
        ensures
            d.cards@ == standard_deck(),
    {
        let mut cards: Vec<Card> = Vec::new();
        let mut s: usize = 0;
        while s < 4
            invariant
                s <= 4,
                cards@ == standard_deck().take(13 * s as int),
            decreases 4 - s,
        {
            let suit = Suit::at(s);
            let mut r: usize = 0;
            while r < 13
                invariant
                    s < 4,
                    r <= 13,
                    suit == suit_at(s as int),
                    cards@ == standard_deck().take(13 * s + r as int),
                decreases 13 - r,
            {
                let rank = Rank::from_value((r + 2) as u8);
                proof {
                    let k = 13 * s + r as int;
                    assert(k / 13 == s as int && k % 13 == r as int) by (nonlinear_arith)
                        requires
                            k == 13 * s + r,
                            r < 13,
                    ;
                }
                cards.push(Card { rank, suit: Some(suit) });
                assert(cards@ =~= standard_deck().take(13 * s + r + 1 as int));
                r = r + 1;
            }
            s = s + 1;
        }
        assert(cards@ =~= standard_deck());
        Deck { cards }
    }

    /// A standard deck with two jokers put on top.
    pub fn new_with_jokers() -> (d: Self)
        ensures
            d.cards@ == standard_deck() + seq![joker(), joker()],
    {
        let mut deck = Self::new_standard();
        deck.cards.push(Card { rank: Rank::Joker, suit: None });
        deck.cards.push(Card { rank: Rank::Joker, suit: None });
        assert(deck.cards@ =~= standard_deck() + seq![joker(), joker()]);
        deck
    }

    /// Puts the cards in a random order; the deck keeps the same cards.
    pub fn shuffle(&mut self)
        ensures
            final(self).cards@.to_multiset() == old(self).cards@.to_multiset(),
            final(self).cards@.len() == old(self).cards@.len(),
    {
        let ghost before = self.cards@;
        let mut rng = thread_rng_handle();
        shuffle_items(&mut self.cards, &mut rng);
        proof {
            before.to_multiset_ensures();
            self.cards@.to_multiset_ensures();
        }
    }

    /// Takes the top card off the deck, or gives `None` when it is empty.
    pub fn pop_one_card(&mut self) -> (c: Option<Card>)
        ensures
            old(self).cards@.len() > 0 ==> c == Some(old(self).cards@.last())
                && final(self).cards@ == old(self).cards@.drop_last(),
            old(self).cards@.len() == 0 ==> c is None && final(self).cards@ == old(self).cards@,
    {
        self.cards.pop()
    }

    /// The number of cards left in the deck.
    pub fn remaining_cards(&self) -> (n: usize)
        ensures
            n == self.cards@.len(),
    {
        self.cards.len()
    }
}

/// The position of a suit in the order clubs, diamonds, hearts, spades.
pub open spec fn suit_index(s: Suit) -> int {
    match s {
        Suit::Clubs => 0,
        Suit::Diamonds => 1,
        Suit::Hearts => 2,
        Suit::Spades => 3,
    }
}

/// The standard deck holds every card but the joker exactly once: each of
/// its 52 cards has a suit and a rank below the joker, no two are the same,
/// and every rank from two to ace comes in every suit.
pub proof fn lemma_standard_deck_complete()
    ensures
        standard_deck().len() == 52,
        forall|i: int|
            0 <= i < 52 ==> (#[trigger] standard_deck()[i]).suit is Some && standard_deck()[i].rank != Rank::Joker,
        forall|i: int, j: int| 0 <= i < j < 52 ==> #[trigger] standard_deck()[i] != #[trigger] standard_deck()[j],
        forall|r: Rank, s: Suit|
            r != Rank::Joker ==> #[trigger] standard_deck().contains(Card { rank: r, suit: Some(s) }),
{
    let d = standard_deck();
    assert forall|i: int| 0 <= i < 52 implies (#[trigger] d[i]).suit is Some && d[i].rank != Rank::Joker by {
        assert(0 <= i % 13 < 13);
    }
    assert forall|i: int, j: int| 0 <= i < j < 52 implies #[trigger] d[i] != #[trigger] d[j] by {
        if i / 13 == j / 13 {
            assert(i % 13 != j % 13);
            assert(rank_value(d[i].rank) == i % 13 + 2);
            assert(rank_value(d[j].rank) == j % 13 + 2);
        } else {
            assert(0 <= i / 13 < 4 && 0 <= j / 13 < 4);
            assert(suit_index(d[i].suit->0) == i / 13);
            assert(suit_index(d[j].suit->0) == j / 13);
        }
    }
    assert forall|r: Rank, s: Suit| r != Rank::Joker implies #[trigger] d.contains(Card { rank: r, suit: Some(s) }) by {
        let k = 13 * suit_index(s) + rank_value(r) - 2;
        assert(k / 13 == suit_index(s) && k % 13 == rank_value(r) - 2);
        assert(d[k] == Card { rank: r, suit: Some(s) });
    }
}

} // verus!
