use vstd::prelude::*;

use crate::cards::{rank_order, Card, Suit};
use crate::contract::{Contract, GameType};
use crate::error::{SechsUndSechzigError, SusResult};
use crate::hands::{remove_first, Hand};
use crate::ordering::{greatest_card_in_suit, greatest_in_suit};
use crate::playered::Player;
use crate::variant::Variant;

verus! {

/// One trick in progress: who has played which card, in order.
#[derive(Debug)]
pub struct Table {
    variant: Variant,
    contract: Contract,
    initial_player: Player,
    deals: Vec<(Player, Card)>,
}

/// What a table holds, as plain values.
pub struct TableView {
    pub variant: Variant,
    pub contract: Contract,
    pub initial_player: Player,
    pub deals: Seq<(Player, Card)>,
}

/// The card of a play.
pub open spec fn card_of(d: (Player, Card)) -> Card {
    d.1
}

/// The cards of a sequence of plays.
pub open spec fn cards_of(deals: Seq<(Player, Card)>) -> Seq<Card> {
    deals.map_values(|d: (Player, Card)| card_of(d))
}

/// The seat of the first play of `card`, if any.
pub open spec fn first_holder(deals: Seq<(Player, Card)>, card: Card) -> Option<Player>
    decreases deals.len(),
{
    if deals.len() == 0 {
        None
    } else if deals[0].1 == card {
        Some(deals[0].0)
    } else {
        first_holder(deals.drop_first(), card)
    }
}

/// `c` follows the suit of the lead card (any card does when nothing was led).
pub open spec fn follows_lead(lead: Option<Card>, c: Card) -> bool {
    match lead {
        None => true,
        Some(f) => c.suit == f.suit,
    }
}

/// `c` beats the lead card: a trump on a non-trump lead, or a higher card of
/// the lead suit (any card does when nothing was led).
pub open spec fn beats_lead(lead: Option<Card>, triumph: Option<Suit>, c: Card) -> bool {
    match lead {
        None => true,
        Some(f) => {
            ||| (triumph matches Some(t) && f.suit != t && c.suit == t)
            ||| (f.suit == c.suit && rank_order(f.rank) < rank_order(c.rank))
        },
    }
}

pub open spec fn follows_pred(lead: Option<Card>) -> spec_fn(Card) -> bool {
    |c: Card| follows_lead(lead, c)
}

pub open spec fn beats_pred(lead: Option<Card>, triumph: Option<Suit>) -> spec_fn(Card) -> bool {
    |c: Card| beats_lead(lead, triumph, c)
}

/// `narrowed`, or `all` when `narrowed` is empty.
pub open spec fn or_all(narrowed: Seq<Card>, all: Seq<Card>) -> Seq<Card> {
    if narrowed.len() == 0 {
        all
    } else {
        narrowed
    }
}

/// The cards of `hand` that follow the lead suit, or the whole hand if none does.
pub open spec fn following_cards(lead: Option<Card>, hand: Seq<Card>) -> Seq<Card> {
    or_all(hand.filter(follows_pred(lead)), hand)
}

/// The cards of `hand` that may be played on a trick led by `lead`.
pub open spec fn legal_cards(lead: Option<Card>, triumph: Option<Suit>, hand: Seq<Card>) -> Seq<
    Card,
> {
    let following = following_cards(lead, hand);
    or_all(following.filter(beats_pred(lead, triumph)), following)
}

impl TableView {
    /// Number of plays that complete the trick.
    pub open spec fn size(self) -> nat {
        match self.contract.game_type {
            GameType::Misery | GameType::Shower => 3,
            _ => self.variant.seats() as nat,
        }
    }

    /// Whether `p` is the dealer's teammate sitting this game out.
    pub open spec fn sits_out(self, p: Player) -> bool {
        self.contract.spec_dealers_teammate(self.variant) == Some(p)
            && !self.contract.spec_dealers_teammate_plays()
    }

    /// At most a full trick has been played, every seat involved is a seat of
    /// the variant, and a teammate who sits out neither leads nor plays.
    pub open spec fn wf(self) -> bool {
        &&& self.deals.len() <= self.size()
        &&& self.initial_player < self.variant.seats()
        &&& !self.sits_out(self.initial_player)
        &&& forall|i: int|
            0 <= i < self.deals.len() ==> (#[trigger] self.deals[i]).0 < self.variant.seats()
                && !self.sits_out(self.deals[i].0)
    }

    pub open spec fn cards(self) -> Seq<Card> {
        cards_of(self.deals)
    }

    pub open spec fn first_card(self) -> Option<Card> {
        if self.deals.len() == 0 {
            None
        } else {
            Some(self.deals[0].1)
        }
    }

    /// `p`, unless `p` is the dealer's teammate who sits this game out.
    pub open spec fn skip_absent(self, p: Player) -> Player {
        if self.contract.spec_dealers_teammate(self.variant) == Some(p)
            && !self.contract.spec_dealers_teammate_plays() {
            self.variant.next_seat(p as int) as Player
        } else {
            p
        }
    }

    pub open spec fn spec_current_player(self) -> Option<Player> {
        if self.deals.len() == self.size() {
            None
        } else {
            let candidate = if self.deals.len() == 0 {
                self.initial_player
            } else {
                self.variant.next_seat(self.deals.last().0 as int) as Player
            };
            Some(self.skip_absent(candidate))
        }
    }

    /// The highest trump played, else the highest card of the lead suit.
    pub open spec fn greatest_card(self) -> Option<Card> {
        let by_trump = match self.contract.game_type.spec_triumph() {
            Some(t) => greatest_in_suit(self.cards(), t),
            None => None,
        };
        match by_trump {
            Some(g) => Some(g),
            None => match self.first_card() {
                Some(f) => greatest_in_suit(self.cards(), f.suit),
                None => None,
            },
        }
    }

    /// The seat that takes the trick, once it is complete.
    pub open spec fn spec_drawer(self) -> Option<Player> {
        if self.spec_current_player() is Some {
            None
        } else {
            match self.greatest_card() {
                Some(g) => first_holder(self.deals, g),
                None => None,
            }
        }
    }

    pub open spec fn legal(self, hand: Seq<Card>) -> Seq<Card> {
        legal_cards(self.first_card(), self.contract.game_type.spec_triumph(), hand)
    }
}

impl View for Table {
    type V = TableView;

    closed spec fn view(&self) -> TableView {
        TableView {
            variant: self.variant,
            contract: self.contract,
            initial_player: self.initial_player,
            deals: self.deals@,
        }
    }
}

/// The cards of `cards` that follow the lead suit.
fn satisfying_lead_suit(cards: &Vec<Card>, lead: Option<Card>) -> (r: Vec<Card>)
    ensures
        r@ == cards@.filter(follows_pred(lead)),
{
    let mut r: Vec<Card> = Vec::new();
    let mut i: usize = 0;
    while i < cards.len()
        invariant
            i <= cards@.len(),
            r@ == cards@.take(i as int).filter(follows_pred(lead)),
        decreases cards@.len() - i,
    {
        let c = cards[i];
        let keep = match lead {
            None => true,
            Some(f) => c.suit == f.suit,
        };
        if keep {
            r.push(c);
        }
        proof {
            assert(cards@.take(i + 1) =~= cards@.take(i as int).push(c));
            cards@.take(i as int).lemma_filter_push(c, follows_pred(lead));
        }
        i += 1;
    }
    assert(cards@.take(cards@.len() as int) =~= cards@);
    r
}

/// The cards of `cards` that beat the lead card.
fn satisfying_overbidding(cards: &Vec<Card>, lead: Option<Card>, triumph: Option<Suit>) -> (r: Vec<
    Card,
>)
    ensures
        r@ == cards@.filter(beats_pred(lead, triumph)),
{
    let mut r: Vec<Card> = Vec::new();
    let mut i: usize = 0;
    while i < cards.len()
        invariant
            i <= cards@.len(),
            r@ == cards@.take(i as int).filter(beats_pred(lead, triumph)),
        decreases cards@.len() - i,
    {
        let c = cards[i];
        let keep = match lead {
            None => true,
            Some(f) => {
                let trump_on_plain = match triumph {
                    Some(t) => f.suit != t && c.suit == t,
                    None => false,
                };
                let stronger_in_suit = f.suit == c.suit && f.rank.strength() < c.rank.strength();
                trump_on_plain || stronger_in_suit
            },
        };
        if keep {
            r.push(c);
        }
        proof {
            assert(cards@.take(i + 1) =~= cards@.take(i as int).push(c));
            cards@.take(i as int).lemma_filter_push(c, beats_pred(lead, triumph));
        }
        i += 1;
    }
    assert(cards@.take(cards@.len() as int) =~= cards@);
    r
}

/// `narrowed` unless it is empty, then `all`.
fn or_all_cards(narrowed: Vec<Card>, all: Vec<Card>) -> (r: Vec<Card>)
    ensures
        r@ == or_all(narrowed@, all@),
{
    if narrowed.len() == 0 {
        all
    } else {
        narrowed
    }
}

impl Clone for Table {
    fn clone(&self) -> (r: Table)
        ensures
            r@ == self@,
    {
        self.copy()
    }
}

impl Table {
    pub fn empty(variant: Variant, contract: Contract, initial_player: Player) -> (r: Table)
        ensures
            r@ == (TableView { variant, contract, initial_player, deals: Seq::empty() }),
    {
        Table { variant, contract, initial_player, deals: Vec::new() }
    }

    /// A table in the same state.
    fn copy(&self) -> (r: Table)
        ensures
            r@ == self@,
    {
        let mut deals: Vec<(Player, Card)> = Vec::new();
        let mut i: usize = 0;
        while i < self.deals.len()
            invariant
                i <= self@.deals.len(),
                deals@ =~= self@.deals.take(i as int),
            decreases self@.deals.len() - i,
        {
            deals.push(self.deals[i]);
            i += 1;
        }
        assert(deals@ =~= self@.deals);
        Table {
            variant: self.variant,
            contract: self.contract,
            initial_player: self.initial_player,
            deals,
        }
    }

    /// The plays made so far.
    pub fn deals(&self) -> (r: &Vec<(Player, Card)>)
        ensures
            r@ == self@.deals,
    {
        &self.deals
    }

    fn size(&self) -> (r: usize)
        ensures
            r == self@.size(),
    {
        match self.contract.game_type {
            GameType::Misery | GameType::Shower => 3,
            _ => self.variant.number_of_players() as usize,
        }
    }

    /// The seat to play next; `None` once the trick is complete.
    pub fn current_player(&self) -> (r: Option<Player>)
        ensures
            r == self@.spec_current_player(),
    {
        if self.size() == self.deals.len() {
            None
        } else {
            let candidate = if self.deals.len() == 0 {
                self.initial_player
            } else {
                self.variant.next_player(self.deals[self.deals.len() - 1].0)
            };
            if self.contract.dealers_teammate(&self.variant) == Some(candidate)
                && !self.contract.dealers_teammate_plays() {
                Some(self.variant.next_player(candidate))
            } else {
                Some(candidate)
            }
        }
    }

    /// Plays `card` for the seat to play, without looking at any hand.
    pub fn play_card(&mut self, card: Card) -> (r: SusResult<()>)
        ensures
            match old(self)@.spec_current_player() {
                Some(p) => r is Ok && final(self)@ == (TableView {
                    deals: old(self)@.deals.push((p, card)),
                    ..old(self)@
                }),
                None => r == Err::<(), SechsUndSechzigError>(SechsUndSechzigError::FullTable)
                    && final(self)@ == old(self)@,
            },
    {
        match self.current_player() {
            Some(player) => {
                self.deals.push((player, card));
                Ok(())
            },
            None => Err(SechsUndSechzigError::FullTable),
        }
    }

    /// The cards played so far, in order.
    pub fn cards(&self) -> (r: Vec<Card>)
        ensures
            r@ == self@.cards(),
    {
        let mut r: Vec<Card> = Vec::new();
        let mut i: usize = 0;
        while i < self.deals.len()
            invariant
                i <= self@.deals.len(),
                r@ =~= cards_of(self@.deals.take(i as int)),
            decreases self@.deals.len() - i,
        {
            r.push(self.deals[i].1);
            i += 1;
        }
        assert(self@.deals.take(self@.deals.len() as int) =~= self@.deals);
        r
    }

    fn first_card(&self) -> (r: Option<Card>)
        ensures
            r == self@.first_card(),
    {
        if self.deals.len() == 0 {
            None
        } else {
            Some(self.deals[0].1)
        }
    }

    /// The cards of `hand` that may be played now, in the order of the hand.
    pub fn filter_hand(&self, hand: &Hand) -> (r: Vec<Card>)
        ensures
            r@ == self@.legal(hand@),
    {
        let lead = self.first_card();
        let triumph = self.contract.game_type.triumph();
        let all = hand.full();
        let following = or_all_cards(satisfying_lead_suit(all, lead), all.clone());
        let beating = satisfying_overbidding(&following, lead, triumph);
        or_all_cards(beating, following)
    }

    /// Refuses `card` unless it may be played from `hand` now.
    pub fn check_card(&self, hand: &Hand, card: &Card) -> (r: SusResult<()>)
        ensures
            r is Ok <==> self@.legal(hand@).contains(*card),
            r is Err ==> r == Err::<(), SechsUndSechzigError>(
                SechsUndSechzigError::CardCannotBePlayed,
            ),
    {
        let legal = self.filter_hand(hand);
        let mut i: usize = 0;
        while i < legal.len()
            invariant
                i <= legal@.len(),
                legal@ == self@.legal(hand@),
                forall|j: int| 0 <= j < i ==> legal@[j] != *card,
            decreases legal@.len() - i,
        {
            if legal[i] == *card {
                assert(legal@[i as int] == *card);
                return Ok(());
            }
            i += 1;
        }
        Err(SechsUndSechzigError::CardCannotBePlayed)
    }

    /// Plays `card` from `hand` for the seat to play, if the rules allow it.
    /// Nothing changes when the card is refused.
    pub fn try_play_card(&mut self, hand: &mut Hand, card: Card) -> (r: SusResult<()>)
        ensures
            !old(self)@.legal(old(hand)@).contains(card) ==> r == Err::<(), SechsUndSechzigError>(
                SechsUndSechzigError::CardCannotBePlayed,
            ),
            old(self)@.legal(old(hand)@).contains(card) && old(self)@.spec_current_player() is None
                ==> r == Err::<(), SechsUndSechzigError>(SechsUndSechzigError::FullTable),
            r is Err ==> final(self)@ == old(self)@ && final(hand)@ == old(hand)@,
            r is Ok <==> old(self)@.legal(old(hand)@).contains(card)
                && old(self)@.spec_current_player() is Some,
            r is Ok ==> final(hand)@ == remove_first(old(hand)@, card) && final(self)@ == (
            TableView {
                deals: old(self)@.deals.push((old(self)@.spec_current_player()->0, card)),
                ..old(self)@
            }),
    {
        self.check_card(hand, &card)?;
        if self.current_player().is_none() {
            return Err(SechsUndSechzigError::FullTable);
        }
        proof {
            lemma_legal_in_hand(self@.first_card(), self@.contract.game_type.spec_triumph(), hand@, card);
        }
        let dealt = hand.deal(card);
        assert(dealt is Ok);
        self.play_card(card)
    }

    /// The highest trump played, else the highest card of the lead suit.
    fn greatest_card(&self) -> (r: Option<Card>)
        ensures
            r == self@.greatest_card(),
    {
        let cards = self.cards();
        let by_trump = match self.contract.game_type.triumph() {
            Some(t) => greatest_card_in_suit(&cards, &t),
            None => None,
        };
        match by_trump {
            Some(g) => Some(g),
            None => match self.first_card() {
                Some(f) => greatest_card_in_suit(&cards, &f.suit),
                None => None,
            },
        }
    }

    /// The seat that takes the trick; `None` until the trick is complete.
    pub fn drawer(&self) -> (r: Option<Player>)
        ensures
            r == self@.spec_drawer(),
    {
        if self.current_player().is_some() {
            return None;
        }
        match self.greatest_card() {
            None => None,
            Some(g) => {
                let mut i: usize = 0;
                assert(self@.deals.skip(0) =~= self@.deals);
                while i < self.deals.len()
                    invariant
                        i <= self@.deals.len(),
                        self@.spec_drawer() == first_holder(self@.deals, g),
                        first_holder(self@.deals, g) == first_holder(self@.deals.skip(i as int), g),
                    decreases self@.deals.len() - i,
                {
                    let ghost rest = self@.deals.skip(i as int);
                    assert(rest.drop_first() =~= self@.deals.skip(i + 1));
                    if self.deals[i].1 == g {
                        return Some(self.deals[i].0);
                    }
                    i += 1;
                }
                None
            },
        }
    }
}

/// A legal card is a card of the hand.
pub proof fn lemma_legal_in_hand(lead: Option<Card>, triumph: Option<Suit>, hand: Seq<Card>, c: Card)
    requires
        legal_cards(lead, triumph, hand).contains(c),
    ensures
        hand.contains(c),
        following_cards(lead, hand).contains(c),
{
    let following = following_cards(lead, hand);
    if following.filter(beats_pred(lead, triumph)).len() != 0 {
        following.lemma_filter_contains_rev(beats_pred(lead, triumph), c);
    }
    if hand.filter(follows_pred(lead)).len() != 0 {
        hand.lemma_filter_contains_rev(follows_pred(lead), c);
    }
}


/// Whether `c` is a trump.
pub open spec fn is_trump(c: Card, triumph: Option<Suit>) -> bool {
    triumph == Some(c.suit)
}

/// In a trick led in suit `lead`, card `a` beats card `b`: a trump beats any
/// other card, a card of the lead suit beats any card of another plain suit,
/// and within the trump or the lead suit the higher rank wins.
pub open spec fn trick_beats(a: Card, b: Card, lead: Suit, triumph: Option<Suit>) -> bool {
    ||| (is_trump(a, triumph) && !is_trump(b, triumph))
    ||| (!is_trump(a, triumph) && !is_trump(b, triumph) && a.suit == lead && b.suit != lead)
    ||| (a.suit == b.suit && (is_trump(a, triumph) || a.suit == lead) && rank_order(a.rank)
        > rank_order(b.rank))
}

/// A seat that holds a card of the lead suit may only play the lead suit; if
/// it holds one that beats the lead card, it must play such a card. A seat with
/// no card of the lead suit may play any card, unless it holds a trump on a
/// plain lead: then it must trump.
pub proof fn lemma_legal_play(lead: Card, triumph: Option<Suit>, hand: Seq<Card>)
    ensures
        (exists|i: int| 0 <= i < hand.len() && hand[i].suit == lead.suit) ==> forall|c: Card|
            #[trigger] legal_cards(Some(lead), triumph, hand).contains(c) ==> c.suit == lead.suit,
        (exists|i: int|
            0 <= i < hand.len() && hand[i].suit == lead.suit && beats_lead(Some(lead), triumph, hand[i]))
            ==> forall|c: Card|
            #[trigger] legal_cards(Some(lead), triumph, hand).contains(c) ==> c.suit == lead.suit
                && rank_order(c.rank) > rank_order(lead.rank),
        (forall|i: int| 0 <= i < hand.len() ==> hand[i].suit != lead.suit) && (forall|i: int|
            0 <= i < hand.len() ==> !is_trump(hand[i], triumph)) ==> legal_cards(
            Some(lead),
            triumph,
            hand,
        ) == hand,
{
    broadcast use vstd::seq_lib::group_filter_ensures;

    let l = Some(lead);
    let following = following_cards(l, hand);
    let legal = legal_cards(l, triumph, hand);
    if exists|i: int| 0 <= i < hand.len() && hand[i].suit == lead.suit {
        let i = choose|i: int| 0 <= i < hand.len() && hand[i].suit == lead.suit;
        assert(follows_pred(l)(hand[i]));
        assert(hand.filter(follows_pred(l)).contains(hand[i]));
        assert(hand.filter(follows_pred(l)).len() != 0);
        assert forall|c: Card| #[trigger] legal.contains(c) implies c.suit == lead.suit by {
            lemma_legal_in_hand(l, triumph, hand, c);
            hand.lemma_filter_contains_rev(follows_pred(l), c);
            let k = choose|k: int| 0 <= k < following.len() && following[k] == c;
        }
        if exists|i: int|
            0 <= i < hand.len() && hand[i].suit == lead.suit && beats_lead(l, triumph, hand[i]) {
            let j = choose|j: int|
                0 <= j < hand.len() && hand[j].suit == lead.suit && beats_lead(l, triumph, hand[j]);
            assert(follows_pred(l)(hand[j]));
            assert(following.contains(hand[j]));
            let k = choose|k: int| 0 <= k < following.len() && following[k] == hand[j];
            assert(beats_pred(l, triumph)(following[k]));
            assert(following.filter(beats_pred(l, triumph)).contains(following[k]));
            assert(following.filter(beats_pred(l, triumph)).len() != 0);
            assert forall|c: Card| #[trigger] legal.contains(c) implies c.suit == lead.suit
                && rank_order(c.rank) > rank_order(lead.rank) by {
                lemma_legal_in_hand(l, triumph, hand, c);
                hand.lemma_filter_contains_rev(follows_pred(l), c);
                following.lemma_filter_contains_rev(beats_pred(l, triumph), c);
                let m = choose|m: int|
                    0 <= m < following.filter(beats_pred(l, triumph)).len() && following.filter(
                        beats_pred(l, triumph),
                    )[m] == c;
                assert(beats_pred(l, triumph)(following.filter(beats_pred(l, triumph))[m]));
                let n = choose|n: int| 0 <= n < following.len() && following[n] == c;
            }
        }
    }
    if (forall|i: int| 0 <= i < hand.len() ==> hand[i].suit != lead.suit) && (forall|i: int|
        0 <= i < hand.len() ==> !is_trump(hand[i], triumph)) {
        if hand.filter(follows_pred(l)).len() != 0 {
            let c = hand.filter(follows_pred(l))[0];
            assert(follows_pred(l)(c));
            assert(hand.filter(follows_pred(l)).contains(c));
            hand.lemma_filter_contains_rev(follows_pred(l), c);
        }
        assert(following == hand);
        if hand.filter(beats_pred(l, triumph)).len() != 0 {
            let c = hand.filter(beats_pred(l, triumph))[0];
            assert(beats_pred(l, triumph)(c));
            assert(hand.filter(beats_pred(l, triumph)).contains(c));
            hand.lemma_filter_contains_rev(beats_pred(l, triumph), c);
        }
    }
}

/// Some play of `deals` is of `card`: then the first such play names a seat.
proof fn lemma_first_holder(deals: Seq<(Player, Card)>, card: Card)
    requires
        cards_of(deals).contains(card),
    ensures
        first_holder(deals, card) matches Some(p) && exists|i: int|
            0 <= i < deals.len() && deals[i] == (p, card),
    decreases deals.len(),
{
    let k = choose|k: int| 0 <= k < deals.len() && cards_of(deals)[k] == card;
    if deals[0].1 != card {
        assert(k > 0);
        assert(cards_of(deals.drop_first())[k - 1] == card);
        lemma_first_holder(deals.drop_first(), card);
        let p = first_holder(deals, card)->0;
        let i = choose|i: int| 0 <= i < deals.len() - 1 && deals.drop_first()[i] == (p, card);
        assert(deals[i + 1] == (p, card));
    } else {
        assert(deals[0] == (deals[0].0, card));
    }
}

/// A complete trick has exactly one taker, and the card that seat played is
/// beaten by no other card of the trick.
pub proof fn lemma_drawer_dominates(t: TableView)
    requires
        t.deals.len() == t.size(),
    ensures
        t.spec_drawer() matches Some(p) && exists|i: int|
            0 <= i < t.deals.len() && t.deals[i].0 == p && forall|j: int|
                0 <= j < t.deals.len() ==> !trick_beats(
                    #[trigger] t.deals[j].1,
                    t.deals[i].1,
                    t.deals[0].1.suit,
                    t.contract.game_type.spec_triumph(),
                ),
{
    let triumph = t.contract.game_type.spec_triumph();
    let cards = t.cards();
    let lead = t.deals[0].1;
    assert(cards[0] == lead);
    let by_trump = match triumph {
        Some(tr) => greatest_in_suit(cards, tr),
        None => None,
    };
    let g = t.greatest_card()->0;
    match by_trump {
        Some(h) => {
            let tr = triumph->0;
            let w = choose|w: Card| crate::ordering::is_greatest_in_suit(cards, tr, w);
            assert(g == w);
        },
        None => {
            assert(exists|w: Card| crate::ordering::is_greatest_in_suit(cards, lead.suit, w)) by {
                crate::ordering::lemma_greatest_exists(cards, lead.suit, 0);
            }
            let w = choose|w: Card| crate::ordering::is_greatest_in_suit(cards, lead.suit, w);
            assert(g == w);
            assert forall|j: int| 0 <= j < cards.len() implies !is_trump(cards[j], triumph) by {
                if let Some(tr) = triumph {
                    if cards[j].suit == tr {
                        crate::ordering::lemma_greatest_exists(cards, tr, j);
                    }
                }
            }
        },
    }
    lemma_first_holder(t.deals, g);
    let p = first_holder(t.deals, g)->0;
    let i = choose|i: int| 0 <= i < t.deals.len() && t.deals[i] == (p, g);
    assert forall|j: int| 0 <= j < t.deals.len() implies !trick_beats(
        #[trigger] t.deals[j].1,
        t.deals[i].1,
        lead.suit,
        triumph,
    ) by {
        assert(cards[j] == t.deals[j].1);
    }
}

/// The seat to play is a seat of the variant.
pub proof fn lemma_current_player_seat(t: TableView)
    requires
        t.initial_player < t.variant.seats(),
        t.spec_current_player() is Some,
    ensures
        t.spec_current_player()->0 < t.variant.seats(),
{
}

/// Playing for the seat to play keeps a table well formed.
pub proof fn lemma_play_keeps_wf(t: TableView, card: Card)
    requires
        t.wf(),
        t.spec_current_player() is Some,
    ensures
        (TableView { deals: t.deals.push((t.spec_current_player()->0, card)), ..t }).wf(),
        (TableView { deals: t.deals.push((t.spec_current_player()->0, card)), ..t }).cards()
            == t.cards().push(card),
{
    let t2 = TableView { deals: t.deals.push((t.spec_current_player()->0, card)), ..t };
    assert(t2.cards() =~= t.cards().push(card));
    assert forall|i: int| 0 <= i < t2.deals.len() implies (#[trigger] t2.deals[i]).0 < t.variant.seats() by {
        if i < t.deals.len() {
            assert(t2.deals[i] == t.deals[i]);
        }
    }
}

/// The taker of a complete trick is one of the seats that played in it.
pub proof fn lemma_drawer_seat(t: TableView)
    requires
        t.wf(),
        t.spec_drawer() is Some,
    ensures
        t.spec_drawer()->0 < t.variant.seats(),
        !t.sits_out(t.spec_drawer()->0),
{
    let g = t.greatest_card()->0;
    lemma_first_holder_seat(t, t.deals, g);
}

proof fn lemma_first_holder_seat(t: TableView, deals: Seq<(Player, Card)>, card: Card)
    requires
        forall|i: int|
            0 <= i < deals.len() ==> (#[trigger] deals[i]).0 < t.variant.seats() && !t.sits_out(
                deals[i].0,
            ),
    ensures
        first_holder(deals, card) matches Some(p) ==> p < t.variant.seats() && !t.sits_out(p),
    decreases deals.len(),
{
    if deals.len() > 0 {
        assert forall|i: int| 0 <= i < deals.len() - 1 implies (#[trigger] deals.drop_first()[i]).0
            < t.variant.seats() && !t.sits_out(deals.drop_first()[i].0) by {
            assert(deals.drop_first()[i] == deals[i + 1]);
        }
        lemma_first_holder_seat(t, deals.drop_first(), card);
    }
}

} // verus!
