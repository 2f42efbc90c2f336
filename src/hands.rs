use vstd::prelude::*;

use rand::rngs::StdRng;

use crate::cards::{deck_spec, lemma_deck, Card, Rank};
use crate::error::{SechsUndSechzigError, SusResult};
use crate::playered::Player;
use crate::variant::{Variant, DECK_SIZE};

verus! {

/// Which part of a hand a seat may look at.
#[derive(Debug, Copy, Clone, PartialEq, Eq, Structural)]
pub enum HandType {
    First,
    Full,
}

/// The cards a seat holds, in the order they were dealt.
#[derive(Debug)]
pub struct Hand(Vec<Card>);

impl Clone for Hand {
    fn clone(&self) -> (r: Hand)
        ensures
            r@ == self@,
    {
        let r = Hand(self.0.clone());
        assert(r.0@ =~= self.0@);
        r
    }
}

/// Number of cards dealt first, before the first bidding stage.
pub const FIRST_HAND_LEN: usize = 4;

/// `s` without the first occurrence of `x` (unchanged if `x` is absent).
pub open spec fn remove_first(s: Seq<Card>, x: Card) -> Seq<Card>
    decreases s.len(),
{
    if s.len() == 0 {
        s
    } else if s[0] == x {
        s.drop_first()
    } else {
        seq![s[0]] + remove_first(s.drop_first(), x)
    }
}

/// Removing the first occurrence of `x`, found at `i`.
pub proof fn lemma_remove_first(s: Seq<Card>, x: Card, i: int)
    requires
        0 <= i < s.len(),
        s[i] == x,
        forall|j: int| 0 <= j < i ==> s[j] != x,
    ensures
        remove_first(s, x) == s.remove(i),
    decreases i,
{
    if i == 0 {
        assert(s.drop_first() =~= s.remove(0));
    } else {
        lemma_remove_first(s.drop_first(), x, i - 1);
        assert(seq![s[0]] + s.drop_first().remove(i - 1) =~= s.remove(i));
    }
}

/// A hand holding `x` loses one copy of it.
pub proof fn lemma_remove_first_multiset(s: Seq<Card>, x: Card)
    requires
        s.contains(x),
    ensures
        remove_first(s, x).to_multiset() == s.to_multiset().remove(x),
        remove_first(s, x).len() == s.len() - 1,
{
    let i = choose|i: int| 0 <= i < s.len() && s[i] == x;
    let k = first_index_below(s, x, i);
    lemma_remove_first(s, x, k);
    broadcast use vstd::seq_lib::group_to_multiset_ensures;
}

/// The first index at which `x` occurs, given one occurrence at or after it.
proof fn first_index_below(s: Seq<Card>, x: Card, i: int) -> (k: int)
    requires
        0 <= i < s.len(),
        s[i] == x,
    ensures
        0 <= k <= i,
        s[k] == x,
        forall|j: int| 0 <= j < k ==> s[j] != x,
    decreases i,
{
    if exists|j: int| 0 <= j < i && s[j] == x {
        let j = choose|j: int| 0 <= j < i && s[j] == x;
        first_index_below(s, x, j)
    } else {
        i
    }
}

impl View for Hand {
    type V = Seq<Card>;

    closed spec fn view(&self) -> Seq<Card> {
        self.0@
    }
}

impl Hand {
    /// Whether playing `card` from hand `h` declares a marriage: a Queen,
    /// with the King of its suit still in the hand.
    pub open spec fn spec_can_declare(h: Seq<Card>, card: Card) -> bool {
        card.rank == Rank::Queen && h.contains(Card { rank: Rank::King, suit: card.suit })
    }

    pub fn new(cards: Vec<Card>) -> (r: Hand)
        ensures
            r@ == cards@,
    {
        Hand(cards)
    }

    /// All the cards of the hand.
    pub fn full(&self) -> (r: &Vec<Card>)
        ensures
            r@ == self@,
    {
        &self.0
    }

    /// The cards dealt first: at most four.
    pub fn first(&self) -> (r: Vec<Card>)
        ensures
            r@ == self@.take(if self@.len() < FIRST_HAND_LEN { self@.len() as int } else { FIRST_HAND_LEN as int }),
    {
        let n = if self.0.len() < FIRST_HAND_LEN {
            self.0.len()
        } else {
            FIRST_HAND_LEN
        };
        let mut r: Vec<Card> = Vec::new();
        let mut i: usize = 0;
        while i < n
            invariant
                n <= self@.len(),
                i <= n,
                r@ =~= self@.take(i as int),
            decreases n - i,
        {
            r.push(self.0[i]);
            i += 1;
        }
        r
    }

    pub fn is_empty(&self) -> (r: bool)
        ensures
            r == (self@.len() == 0),
    {
        self.0.len() == 0
    }

    pub fn contains(&self, card: &Card) -> (r: bool)
        ensures
            r == self@.contains(*card),
    {
        let mut i: usize = 0;
        while i < self.0.len()
            invariant
                i <= self@.len(),
                forall|j: int| 0 <= j < i ==> self@[j] != *card,
            decreases self@.len() - i,
        {
            if self.0[i] == *card {
                return true;
            }
            i += 1;
        }
        false
    }

    /// Whether playing `card` from this hand declares a marriage.
    pub fn can_declare(&self, card: Card) -> (r: bool)
        ensures
            r == Hand::spec_can_declare(self@, card),
    {
        match card.rank {
            Rank::Queen => self.contains(&Card { rank: Rank::King, suit: card.suit }),
            _ => false,
        }
    }

    /// Takes `card` out of the hand.
    pub fn deal(&mut self, card: Card) -> (r: SusResult<()>)
        ensures
            r is Ok <==> old(self)@.contains(card),
            r is Err ==> r == Err::<(), SechsUndSechzigError>(SechsUndSechzigError::CardNotInHand),
            final(self)@ == remove_first(old(self)@, card),
    {
        let mut i: usize = 0;
        while i < self.0.len()
            invariant
                i <= self@.len(),
                self@ == old(self)@,
                forall|j: int| 0 <= j < i ==> self@[j] != card,
            decreases self@.len() - i,
        {
            if self.0[i] == card {
                proof {
                    lemma_remove_first(self@, card, i as int);
                }
                self.0.remove(i);
                return Ok(());
            }
            i += 1;
        }
        proof {
            lemma_remove_first_absent(self@, card);
        }
        Err(SechsUndSechzigError::CardNotInHand)
    }
}

/// Without `x` in `s`, nothing is removed.
pub proof fn lemma_remove_first_absent(s: Seq<Card>, x: Card)
    requires
        !s.contains(x),
    ensures
        remove_first(s, x) == s,
    decreases s.len(),
{
    if s.len() > 0 {
        assert(s[0] != x);
        assert(!s.drop_first().contains(x)) by {
            if s.drop_first().contains(x) {
                let j = choose|j: int| 0 <= j < s.len() - 1 && s.drop_first()[j] == x;
                assert(s[j + 1] == x);
            }
        }
        lemma_remove_first_absent(s.drop_first(), x);
        assert(seq![s[0]] + s.drop_first() =~= s);
    }
}

/// The hands of all seats, indexed by seat.
#[derive(Debug)]
pub struct Hands(Vec<Hand>);

impl Clone for Hands {
    fn clone(&self) -> (r: Hands)
        ensures
            r@ == self@,
    {
        let mut hands: Vec<Hand> = Vec::new();
        let mut i: usize = 0;
        while i < self.0.len()
            invariant
                i <= self.0@.len(),
                hands@.len() == i,
                forall|k: int| 0 <= k < i ==> (#[trigger] hands@[k])@ == self.0@[k]@,
            decreases self.0@.len() - i,
        {
            hands.push(self.0[i].clone());
            i += 1;
        }
        assert(views_of(hands@) =~= views_of(self.0@));
        Hands(hands)
    }
}

/// All cards of `hands`, seat after seat.
pub open spec fn all_cards(hands: Seq<Seq<Card>>) -> Seq<Card>
    decreases hands.len(),
{
    if hands.len() == 0 {
        Seq::empty()
    } else {
        all_cards(hands.drop_last()) + hands.last()
    }
}

/// `hands` is a deal of the whole deck for `variant`: one hand per seat, each
/// of the variant's hand size, together holding exactly the cards of the deck.
pub open spec fn is_deal(hands: Seq<Seq<Card>>, variant: Variant) -> bool {
    &&& hands.len() == variant.seats()
    &&& forall|p: int| 0 <= p < hands.len() ==> (#[trigger] hands[p]).len() == variant.hand_size()
    &&& all_cards(hands).to_multiset() == deck_spec().to_multiset()
}

/// The contents of each hand.
pub closed spec fn views_of(hands: Seq<Hand>) -> Seq<Seq<Card>> {
    hands.map_values(|h: Hand| h@)
}

proof fn lemma_views_update(hands: Seq<Hand>, i: int, h: Hand)
    requires
        0 <= i < hands.len(),
    ensures
        views_of(hands.update(i, h)) == views_of(hands).update(i, h@),
{
    assert(views_of(hands.update(i, h)) =~= views_of(hands).update(i, h@));
}

impl View for Hands {
    type V = Seq<Seq<Card>>;

    closed spec fn view(&self) -> Seq<Seq<Card>> {
        views_of(self.0@)
    }
}

/// The cards of `hands` count at least as often as in each hand, and in two hands together.
proof fn lemma_all_cards_count(hands: Seq<Seq<Card>>, c: Card, p: int, q: int)
    requires
        0 <= p < hands.len(),
        0 <= q < hands.len(),
    ensures
        all_cards(hands).to_multiset().count(c) >= hands[p].to_multiset().count(c),
        p != q ==> all_cards(hands).to_multiset().count(c) >= hands[p].to_multiset().count(c)
            + hands[q].to_multiset().count(c),
    decreases hands.len(),
{
    broadcast use vstd::seq_lib::lemma_multiset_commutative;
    broadcast use vstd::multiset::group_multiset_axioms;

    let init = hands.drop_last();
    let n = hands.len() - 1;
    assert(all_cards(hands) == all_cards(init) + hands[n]);
    if p < n && q < n {
        lemma_all_cards_count(init, c, p, q);
        assert(init[p] == hands[p] && init[q] == hands[q]);
    } else if p < n {
        lemma_all_cards_count(init, c, p, p);
        assert(init[p] == hands[p]);
    } else if q < n {
        lemma_all_cards_count(init, c, q, q);
        assert(init[q] == hands[q]);
    }
}

/// A card of `hands` is in one of the hands.
proof fn lemma_all_cards_member(hands: Seq<Seq<Card>>, c: Card)
    requires
        all_cards(hands).contains(c),
    ensures
        exists|p: int| 0 <= p < hands.len() && (#[trigger] hands[p]).contains(c),
    decreases hands.len(),
{
    let init = hands.drop_last();
    let n = hands.len() - 1;
    let k = choose|k: int| 0 <= k < all_cards(hands).len() && all_cards(hands)[k] == c;
    if k < all_cards(init).len() {
        assert(all_cards(init)[k] == c);
        lemma_all_cards_member(init, c);
        let p = choose|p: int| 0 <= p < init.len() && (#[trigger] init[p]).contains(c);
        assert(hands[p] == init[p]);
    } else {
        assert(hands[n][k - all_cards(init).len()] == c);
    }
}

/// A deal splits the deck: no card is in two hands, and the cards of the
/// deck are exactly the cards of the hands.
pub proof fn lemma_deal_partitions(hands: Seq<Seq<Card>>, variant: Variant)
    requires
        is_deal(hands, variant),
    ensures
        forall|p: int, q: int, c: Card|
            0 <= p < hands.len() && 0 <= q < hands.len() && p != q && #[trigger] hands[p].contains(c)
                ==> !#[trigger] hands[q].contains(c),
        forall|c: Card|
            deck_spec().contains(c) <==> exists|p: int|
                0 <= p < hands.len() && (#[trigger] hands[p]).contains(c),
        forall|p: int| 0 <= p < hands.len() ==> (#[trigger] hands[p]).len() == variant.hand_size(),
{
    broadcast use vstd::seq_lib::group_to_multiset_ensures;

    lemma_deck();
    deck_spec().lemma_multiset_has_no_duplicates();
    assert forall|p: int, q: int, c: Card|
        0 <= p < hands.len() && 0 <= q < hands.len() && p != q && #[trigger] hands[p].contains(c)
            implies !#[trigger] hands[q].contains(c) by {
        if hands[q].contains(c) {
            lemma_all_cards_count(hands, c, p, q);
            assert(deck_spec().to_multiset().contains(c));
        }
    }
    assert forall|c: Card|
        deck_spec().contains(c) <==> exists|p: int|
            0 <= p < hands.len() && (#[trigger] hands[p]).contains(c) by {
        if deck_spec().contains(c) {
            assert(all_cards(hands).to_multiset().count(c) > 0);
            lemma_all_cards_member(hands, c);
        }
        if exists|p: int| 0 <= p < hands.len() && (#[trigger] hands[p]).contains(c) {
            let p = choose|p: int| 0 <= p < hands.len() && (#[trigger] hands[p]).contains(c);
            lemma_all_cards_count(hands, c, p, p);
        }
    }
}

impl Hands {
    /// Splits a 24-card deck into consecutive hands, one per seat.
    pub fn from_deck(deck: &Vec<Card>, variant: &Variant) -> (r: Hands)
        requires
            deck@.len() == DECK_SIZE,
        ensures
            r@.len() == variant.seats(),
            forall|p: int|
                0 <= p < variant.seats() ==> #[trigger] r@[p] == deck@.subrange(
                    p * variant.hand_size(),
                    (p + 1) * variant.hand_size(),
                ),
            all_cards(r@) == deck@,
    {
        let n = variant.number_of_players() as usize;
        let k = variant.cards_per_player();
        let mut hands: Vec<Hand> = Vec::new();
        let mut p: usize = 0;
        while p < n
            invariant
                n == variant.seats(),
                k == variant.hand_size(),
                k * n == DECK_SIZE,
                deck@.len() == DECK_SIZE,
                p <= n,
                hands@.len() == p,
                forall|q: int|
                    0 <= q < p ==> #[trigger] hands@[q]@ == deck@.subrange(q * k, (q + 1) * k),
                all_cards(views_of(hands@)) == deck@.take(p * k),
            decreases n - p,
        {
            assert((p + 1) * k <= n * k) by (nonlinear_arith)
                requires
                    p + 1 <= n,
            ;
            assert((p + 1) * k == p * k + k) by (nonlinear_arith);
            let mut cards: Vec<Card> = Vec::new();
            let start = p * k;
            let mut i: usize = 0;
            while i < k
                invariant
                    k * n == DECK_SIZE,
                    deck@.len() == DECK_SIZE,
                    start + k <= DECK_SIZE,
                    i <= k,
                    cards@ == deck@.subrange(start as int, start + i),
                decreases k - i,
            {
                cards.push(deck[start + i]);
                proof {
                    assert(deck@.subrange(start as int, start + i + 1) =~= deck@.subrange(
                        start as int,
                        start + i,
                    ).push(deck@[start + i]));
                }
                i += 1;
            }
            let ghost before = views_of(hands@);
            hands.push(Hand(cards));
            proof {
                let after = views_of(hands@);
                assert(after.drop_last() =~= before);
                assert(after.last() == deck@.subrange(start as int, start + k));
                assert(deck@.take(start + k) =~= deck@.take(start as int) + deck@.subrange(
                    start as int,
                    start + k,
                ));
            }
            p += 1;
        }
        proof {
            assert(deck@.take(n * k) =~= deck@);
            assert(views_of(hands@).len() == n);
            assert forall|q: int| 0 <= q < n implies #[trigger] views_of(hands@)[q]
                == deck@.subrange(q * k, (q + 1) * k) by {
                assert(hands@[q]@ == deck@.subrange(q * k, (q + 1) * k));
            }
        }
        Hands(hands)
    }

    /// A fresh deal of the shuffled deck.
    pub fn deal(rng: &mut StdRng, variant: &Variant) -> (r: Hands)
        ensures
            is_deal(r@, *variant),
    {
        let deck = crate::cards::Card::shuffled_deck(rng);
        proof {
            lemma_deck();
            vstd::seq_lib::to_multiset_len(deck@);
            vstd::seq_lib::to_multiset_len(deck_spec());
        }
        let hands = Hands::from_deck(&deck, variant);
        proof {
            let k = variant.hand_size();
            assert forall|p: int| 0 <= p < hands@.len() implies (#[trigger] hands@[p]).len() == k by {
                assert(hands@[p] == deck@.subrange(p * k, (p + 1) * k));
                assert((p + 1) * k == p * k + k) by (nonlinear_arith);
                assert((p + 1) * k <= variant.seats() * k) by (nonlinear_arith)
                    requires
                        p + 1 <= variant.seats(),
                ;
            }
        }
        hands
    }

    /// The hand of `player`.
    pub fn hand(&self, player: &Player) -> (r: SusResult<&Hand>)
        ensures
            (*player as int) < self@.len() ==> (r matches Ok(h) && h@ == self@[*player as int]),
            (*player as int) >= self@.len() ==> r == Err::<&Hand, SechsUndSechzigError>(
                SechsUndSechzigError::InvaildPlayer,
            ),
    {
        if (*player as usize) < self.0.len() {
            Ok(&self.0[*player as usize])
        } else {
            Err(SechsUndSechzigError::InvaildPlayer)
        }
    }

    /// Whether every hand has been played out.
    pub fn are_empty(&self) -> (r: bool)
        ensures
            r == forall|p: int| 0 <= p < self@.len() ==> (#[trigger] self@[p]).len() == 0,
    {
        let mut i: usize = 0;
        while i < self.0.len()
            invariant
                i <= self@.len(),
                self@.len() == self.0@.len(),
                forall|p: int| 0 <= p < i ==> (#[trigger] self@[p]).len() == 0,
            decreases self@.len() - i,
        {
            assert(self@[i as int] == self.0@[i as int]@);
            if !self.0[i].is_empty() {
                return false;
            }
            i += 1;
        }
        true
    }

    /// Mutable access to the hand of `player`, a seat of the deal.
    pub fn hand_mut(&mut self, player: &Player) -> (r: &mut Hand)
        requires
            (*player as int) < old(self)@.len(),
        ensures
            r@ == old(self)@[*player as int],
            final(self)@ == old(self)@.update(*player as int, final(r)@),
    {
        let ghost hands = self.0@;
        let r = &mut self.0[*player as usize];
        proof {
            lemma_views_update(hands, *player as int, *final(r));
        }
        r
    }
}

} // verus!
