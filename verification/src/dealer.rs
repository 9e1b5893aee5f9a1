use vstd::prelude::*;
use crate::card::{Card, Deck, standard_deck};

verus! {

/// How many cards a deal of `num_cards` takes from a deck of `len` cards:
/// all it asks for, or what is left.
pub open spec fn dealt_count(len: nat, num_cards: nat) -> nat {
    if num_cards <= len {
        num_cards
    } else {
        len
    }
}

/// The cards a deal of `num_cards` hands out, in the order they come off the
/// top of the deck (the end of the sequence).
pub open spec fn dealt_cards(deck: Seq<Card>, num_cards: nat) -> Seq<Card> {
    deck.subrange(deck.len() - dealt_count(deck.len(), num_cards), deck.len() as int).reverse()
}

/// The deck left after a deal of `num_cards`.
pub open spec fn deck_after_deal(deck: Seq<Card>, num_cards: nat) -> Seq<Card> {
    deck.subrange(0, deck.len() - dealt_count(deck.len(), num_cards))
}

/// The dealer: the deck, and the community cards on the table.
pub struct Dealer {
    pub deck: Deck,
    pub community_cards: Vec<Card>,
}

impl Dealer {
    /// A dealer with a fresh standard deck and no community cards.
    pub fn new() -> (d: Self)
        ensures
            d.deck.cards@ == standard_deck(),
            d.community_cards@.len() == 0,
    {
        Self { deck: Deck::new_standard(), community_cards: Vec::new() }
    }

    /// Deals up to `num_cards` cards off the top of the deck; when the deck
    /// runs out, fewer are dealt.
    pub fn deal_cards(&mut self, num_cards: usize) -> (dealt: Vec<Card>)
        ensures
            dealt@ == dealt_cards(old(self).deck.cards@, num_cards as nat),
            final(self).deck.cards@ == deck_after_deal(old(self).deck.cards@, num_cards as nat),
            final(self).community_cards@ == old(self).community_cards@,
    {
        let ghost start = self.deck.cards@;
        let mut dealt_cards_vec: Vec<Card> = Vec::new();
        let mut k: usize = 0;
        while k < num_cards
            invariant
                0 <= k <= num_cards,
                self.community_cards@ == old(self).community_cards@,
                start == old(self).deck.cards@,
                self.deck.cards@ == deck_after_deal(start, k as nat),
                dealt_cards_vec@ == dealt_cards(start, k as nat),
            decreases num_cards - k,
        {
            let ghost before = self.deck.cards@;
            if let Some(card) = self.deck.pop_one_card() {
                dealt_cards_vec.push(card);
                proof {
                    let c = dealt_count(start.len(), k as nat);
                    assert(c < start.len());
                    assert(dealt_count(start.len(), (k + 1) as nat) == c + 1);
                    assert(self.deck.cards@ =~= deck_after_deal(start, (k + 1) as nat));
                    assert(dealt_cards_vec@ =~= dealt_cards(start, (k + 1) as nat));
                }
            } else {
                proof {
                    assert(self.deck.cards@ =~= deck_after_deal(start, (k + 1) as nat));
                    assert(dealt_cards_vec@ =~= dealt_cards(start, (k + 1) as nat));
                }
            }
            k = k + 1;
        }
        dealt_cards_vec
    }

    /// Replaces the community cards.
    pub fn set_community_cards(&mut self, cards: Vec<Card>)
        ensures
            final(self).community_cards@ == cards@,
            final(self).deck.cards@ == old(self).deck.cards@,
    {
        self.community_cards = cards;
    }

    /// Moves the top card of the deck to the community cards; does nothing
    /// when the deck is empty.
    pub fn deal_community_card(&mut self)
        ensures
            old(self).deck.cards@.len() > 0 ==> final(self).community_cards@
                == old(self).community_cards@.push(old(self).deck.cards@.last())
                && final(self).deck.cards@ == old(self).deck.cards@.drop_last(),
            old(self).deck.cards@.len() == 0 ==> final(self).community_cards@
                == old(self).community_cards@ && final(self).deck.cards@ == old(self).deck.cards@,
    {
        if let Some(card) = self.deck.pop_one_card() {
            self.community_cards.push(card);
        }
    }

    /// The community cards.
    pub fn get_community_cards(&self) -> (c: &Vec<Card>)
        ensures
            c@ == self.community_cards@,
    {
        &self.community_cards
    }

    /// Shuffles the deck; it keeps the same cards.
    pub fn shuffle_deck(&mut self)
        ensures
            final(self).deck.cards@.to_multiset() == old(self).deck.cards@.to_multiset(),
            final(self).deck.cards@.len() == old(self).deck.cards@.len(),
            final(self).community_cards@ == old(self).community_cards@,
    {
        self.deck.shuffle();
    }
}

/// Dealing one card takes the top card, if there is one.
pub proof fn lemma_deal_one(deck: Seq<Card>)
    ensures
        deck.len() > 0 ==> dealt_cards(deck, 1) == seq![deck.last()] && deck_after_deal(deck, 1)
            == deck.drop_last(),
        deck.len() == 0 ==> dealt_cards(deck, 1) == Seq::<Card>::empty() && deck_after_deal(deck, 1)
            == deck,
{
    if deck.len() > 0 {
        assert(dealt_cards(deck, 1) =~= seq![deck.last()]);
        assert(deck_after_deal(deck, 1) =~= deck.drop_last());
    } else {
        assert(dealt_cards(deck, 1) =~= Seq::<Card>::empty());
        assert(deck_after_deal(deck, 1) =~= deck);
    }
}

/// Dealing neither creates nor loses cards: the deck before a deal holds
/// exactly the cards left in the deck and the cards dealt.
pub proof fn lemma_deal_conserves_cards(deck: Seq<Card>, num_cards: nat)
    ensures
        deck.to_multiset() == deck_after_deal(deck, num_cards).to_multiset().add(
            dealt_cards(deck, num_cards).to_multiset(),
        ),
        deck_after_deal(deck, num_cards).len() + dealt_cards(deck, num_cards).len() == deck.len(),
{
    let c = dealt_count(deck.len(), num_cards);
    let rest = deck_after_deal(deck, num_cards);
    let top = deck.subrange(deck.len() - c, deck.len() as int);
    assert(deck =~= rest + top);
    vstd::seq_lib::lemma_multiset_commutative(rest, top);
    top.lemma_reverse_to_multiset();
}

/// Dealing one card at a time, `n` times, gives the same cards and leaves
/// the same deck as dealing `n` cards at once: a deal of `a + b` cards is a
/// deal of `a` followed by a deal of `b`.
pub proof fn lemma_deal_splits(deck: Seq<Card>, a: nat, b: nat)
    ensures
        deck_after_deal(deck_after_deal(deck, a), b) == deck_after_deal(deck, a + b),
        dealt_cards(deck, a) + dealt_cards(deck_after_deal(deck, a), b) == dealt_cards(deck, a + b),
{
    let n = deck.len();
    let ca = dealt_count(n, a);
    let rest = deck_after_deal(deck, a);
    let cb = dealt_count(rest.len(), b);
    assert(dealt_count(n, a + b) == ca + cb);
    assert(deck_after_deal(rest, b) =~= deck_after_deal(deck, a + b));
    assert(dealt_cards(deck, a) + dealt_cards(rest, b) =~= dealt_cards(deck, a + b));
}

} // verus!
