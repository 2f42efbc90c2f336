use vstd::prelude::*;

use rand::rngs::StdRng;

use crate::bidding::{bidding, bidding_spec, BidResult};
use crate::cards::{deck_spec, Card, Suit};
use crate::contract::{Contract, GameType, Party};
use crate::error::{SechsUndSechzigError, SusResult};
use crate::hands::{all_cards, is_deal, remove_first, Hand, Hands};
use crate::playered::Player;
use crate::random::random_below;
use crate::stash::{awarded, party_index, StashView, Stashes};
use crate::sus_move::SusMove;
use crate::table::{Table, TableView};
use crate::variant::Variant;

verus! {

/// Points a party needs to win an asking-about game at once.
pub const MAX_POINTS: i32 = 66;

#[derive(Debug)]
enum Stage {
    Bidding(Player),
    Play { table: Table, stashes: Stashes },
}

impl Clone for Stage {
    fn clone(&self) -> (r: Stage)
        ensures
            r@ == self@,
    {
        match self {
            Stage::Bidding(p) => Stage::Bidding(*p),
            Stage::Play { table, stashes } => Stage::Play { table: table.clone(), stashes: stashes.clone() },
        }
    }
}

pub enum StageView {
    Bidding(Player),
    Play { table: TableView, stashes: Seq<(Party, StashView)> },
}

/// What a move did to the round: it goes on, or it ended with the seats of
/// the winning party, the points they earn, and the dealer of the round.
#[derive(Debug, Clone, PartialEq, Eq)]
pub enum RoundResult {
    Contiune,
    Finished(Vec<Player>, i32, Player),
}

pub enum RoundResultView {
    Continue,
    Finished(Seq<Player>, i32, Player),
}

impl View for RoundResult {
    type V = RoundResultView;

    open spec fn view(&self) -> RoundResultView {
        match self {
            RoundResult::Contiune => RoundResultView::Continue,
            RoundResult::Finished(players, points, dealer) => RoundResultView::Finished(
                players@,
                *points,
                *dealer,
            ),
        }
    }
}

/// One round: the deal, the negotiated contract and the stage of play.
#[derive(Debug)]
pub struct Round {
    variant: Variant,
    initial_dealer: Player,
    hands: Hands,
    contract: Contract,
    stage: Stage,
}

impl Clone for Round {
    fn clone(&self) -> (r: Round)
        ensures
            r@ == self@,
    {
        Round {
            variant: self.variant,
            initial_dealer: self.initial_dealer,
            hands: self.hands.clone(),
            contract: self.contract,
            stage: self.stage.clone(),
        }
    }
}

pub struct RoundView {
    pub variant: Variant,
    pub initial_dealer: Player,
    pub hands: Seq<Seq<Card>>,
    pub contract: Contract,
    pub stage: StageView,
}

impl View for Stage {
    type V = StageView;

    closed spec fn view(&self) -> StageView {
        match self {
            Stage::Bidding(p) => StageView::Bidding(*p),
            Stage::Play { table, stashes } => StageView::Play { table: table@, stashes: stashes@ },
        }
    }
}

impl View for Round {
    type V = RoundView;

    closed spec fn view(&self) -> RoundView {
        RoundView {
            variant: self.variant,
            initial_dealer: self.initial_dealer,
            hands: self.hands@,
            contract: self.contract,
            stage: self.stage@,
        }
    }
}

/// The cards of all stashes, one stash after another.
pub open spec fn stash_cards(stashes: Seq<(Party, StashView)>) -> Seq<Card>
    decreases stashes.len(),
{
    if stashes.len() == 0 {
        Seq::empty()
    } else {
        stash_cards(stashes.drop_last()) + stashes.last().1.cards
    }
}

/// The parties of a sequence of stashes.
pub open spec fn parties_of(stashes: Seq<(Party, StashView)>) -> Seq<Party> {
    stashes.map_values(|e: (Party, StashView)| e.0)
}

/// Each party's points.
pub open spec fn points_view(stashes: Seq<(Party, StashView)>, triumph: Option<Suit>) -> Seq<
    (Party, int),
> {
    stashes.map_values(|e: (Party, StashView)| (e.0, e.1.spec_points(triumph)))
}

pub open spec fn int_points(points: Seq<(Party, i32)>) -> Seq<(Party, int)> {
    points.map_values(|e: (Party, i32)| (e.0, e.1 as int))
}

/// The points of the first entry of `party` (zero if it has none).
pub open spec fn party_points(points: Seq<(Party, int)>, party: Party) -> int
    decreases points.len(),
{
    if points.len() == 0 {
        0
    } else if points[0].0 == party {
        points[0].1
    } else {
        party_points(points.drop_first(), party)
    }
}

/// The first party with at least `bound` points.
pub open spec fn first_reaching(points: Seq<(Party, int)>, bound: int) -> Option<Party>
    decreases points.len(),
{
    if points.len() == 0 {
        None
    } else if points[0].1 >= bound {
        Some(points[0].0)
    } else {
        first_reaching(points.drop_first(), bound)
    }
}

/// The index of the first entry with the fewest points.
pub open spec fn least_index(points: Seq<(Party, int)>) -> int
    decreases points.len(),
{
    if points.len() <= 1 {
        0
    } else {
        let i = least_index(points.drop_last());
        if points.last().1 < points[i].1 {
            points.len() - 1
        } else {
            i
        }
    }
}

/// The other side of a two-party round.
pub open spec fn opponent(party: Party) -> Party {
    match party {
        Party::Dealers => Party::NonDealers,
        Party::NonDealers => Party::Dealers,
        Party::SinglePlayer(p) => Party::SinglePlayer(p),
    }
}

/// Points for winning an asking-about game, by the points of the losers.
pub open spec fn asking_about_award(loser_points: int) -> i32 {
    if loser_points == 0 {
        3
    } else if 1 <= loser_points <= 32 {
        2
    } else {
        1
    }
}

/// The party that wins right after a trick, and its points, if the game type
/// ends the round there.
pub open spec fn spec_immediate_winner(
    points: Seq<(Party, int)>,
    last_drawer: Player,
    contract: Contract,
) -> Option<(Party, i32)> {
    match contract.game_type {
        GameType::NonTriumph => None,
        GameType::AskingAbout(_) => match first_reaching(points, MAX_POINTS as int) {
            Some(party) => Some(
                (party, asking_about_award(party_points(points, opponent(party)))),
            ),
            None => None,
        },
        GameType::LookingFor(_) => if last_drawer != contract.dealer {
            Some((Party::NonDealers, 5))
        } else if party_points(points, Party::Dealers) > MAX_POINTS {
            Some((Party::Dealers, 5))
        } else {
            None
        },
        GameType::Misery => if party_points(points, Party::Dealers) > 0 {
            Some((Party::NonDealers, 7))
        } else {
            None
        },
        GameType::Shower => if party_points(points, Party::NonDealers) > 0 {
            Some((Party::NonDealers, 10))
        } else {
            None
        },
    }
}

/// The winning party, and its points, once every card has been played.
pub open spec fn spec_winner(
    points: Seq<(Party, int)>,
    last_drawer: Player,
    contract: Contract,
    variant: Variant,
) -> (Party, i32) {
    match contract.game_type {
        GameType::NonTriumph => (points[least_index(points)].0, 1),
        GameType::AskingAbout(_) => (contract.spec_players_party(variant, last_drawer), 1),
        GameType::LookingFor(_) => (Party::Dealers, 5),
        GameType::Misery => (Party::Dealers, 7),
        GameType::Shower => (Party::Dealers, 10),
    }
}

fn party_points_of(points: &Vec<(Party, i32)>, party: Party) -> (r: i32)
    ensures
        r == party_points(int_points(points@), party),
{
    let mut i: usize = 0;
    assert(int_points(points@).skip(0) =~= int_points(points@));
    while i < points.len()
        invariant
            i <= points@.len(),
            party_points(int_points(points@), party) == party_points(
                int_points(points@).skip(i as int),
                party,
            ),
        decreases points@.len() - i,
    {
        assert(int_points(points@).skip(i as int).drop_first() =~= int_points(points@).skip(i + 1));
        if points[i].0 == party {
            return points[i].1;
        }
        i += 1;
    }
    0
}

fn first_reaching_of(points: &Vec<(Party, i32)>, bound: i32) -> (r: Option<Party>)
    ensures
        r == first_reaching(int_points(points@), bound as int),
{
    let mut i: usize = 0;
    assert(int_points(points@).skip(0) =~= int_points(points@));
    while i < points.len()
        invariant
            i <= points@.len(),
            first_reaching(int_points(points@), bound as int) == first_reaching(
                int_points(points@).skip(i as int),
                bound as int,
            ),
        decreases points@.len() - i,
    {
        assert(int_points(points@).skip(i as int).drop_first() =~= int_points(points@).skip(i + 1));
        if points[i].1 >= bound {
            return Some(points[i].0);
        }
        i += 1;
    }
    None
}

fn least_points_of(points: &Vec<(Party, i32)>) -> (r: Party)
    requires
        points@.len() > 0,
    ensures
        r == int_points(points@)[least_index(int_points(points@))].0,
{
    let mut best: usize = 0;
    let mut i: usize = 1;
    while i < points.len()
        invariant
            1 <= i <= points@.len(),
            best < i,
            best == least_index(int_points(points@).take(i as int)),
        decreases points@.len() - i,
    {
        let ghost prefix = int_points(points@).take(i + 1);
        assert(prefix.drop_last() =~= int_points(points@).take(i as int));
        if points[i].1 < points[best].1 {
            best = i;
        }
        i += 1;
    }
    assert(int_points(points@).take(points@.len() as int) =~= int_points(points@));
    points[best].0
}

pub open spec fn result_view(r: SusResult<RoundResult>) -> SusResult<RoundResultView> {
    match r {
        Ok(res) => Ok(res@),
        Err(e) => Err(e),
    }
}

/// An empty stash for each party.
pub open spec fn fresh_stashes(parties: Seq<Party>) -> Seq<(Party, StashView)> {
    parties.map_values(|p: Party| (p, StashView { cards: Seq::empty(), declarations: Seq::empty() }))
}

impl RoundView {
    /// How many seats have bid before `p` in the first stage.
    pub open spec fn turn(self, p: Player) -> int {
        (p + self.variant.seats() - self.initial_dealer) % (self.variant.seats() as int)
    }

    /// Well-formed round: seats are seats of the variant; the multiplier is a
    /// power of two, doubled at most once per seat that bid; during play the trick is not
    /// complete, there is one stash per party, and the hands, the trick and
    /// the stashes together hold exactly the deck.
    pub open spec fn wf(self) -> bool {
        let n = self.variant.seats();
        &&& self.initial_dealer < n
        &&& self.hands.len() == n
        &&& self.contract.dealer < n
        &&& 1 <= self.contract.multiplier <= 16
        &&& exists|k: nat| k <= 4 && self.contract.multiplier == vstd::arithmetic::power2::pow2(k)
        &&& match self.stage {
            StageView::Bidding(p) => {
                &&& p < n
                &&& all_cards(self.hands).to_multiset() == deck_spec().to_multiset()
                &&& self.contract.game_type is NonTriumph ==> self.contract.multiplier
                    <= vstd::arithmetic::power2::pow2(self.turn(p) as nat)
            },
            StageView::Play { table, stashes } => {
                &&& table.variant == self.variant
                &&& table.contract == self.contract
                &&& table.wf()
                &&& table.deals.len() < table.size()
                &&& parties_of(stashes) == self.contract.spec_parties(self.variant)
                &&& forall|i: int|
                    0 <= i < stashes.len() ==> (#[trigger] stashes[i]).1.declarations.len()
                        <= stashes[i].1.cards.len()
                &&& (all_cards(self.hands) + table.cards() + stash_cards(stashes)).to_multiset()
                    == deck_spec().to_multiset()
            },
        }
    }

    /// The seat to act.
    pub open spec fn spec_current_player(self) -> Player {
        match self.stage {
            StageView::Bidding(p) => p,
            StageView::Play { table, .. } => table.spec_current_player()->0,
        }
    }

    /// What a bid does to the round.
    pub open spec fn spec_bid(self, player: Player, bid: crate::bidding::Bid) -> (SusResult<RoundResultView>, RoundView) {
        match bidding_spec(self.contract, bid, player, self.variant, self.initial_dealer) {
            Err(e) => (Err(e), self),
            Ok(BidResult::Continue(c, next)) => (
                Ok(RoundResultView::Continue),
                RoundView { contract: c, stage: StageView::Bidding(next), ..self },
            ),
            Ok(BidResult::Finish(c)) => (
                Ok(RoundResultView::Continue),
                RoundView {
                    contract: c,
                    stage: StageView::Play {
                        table: TableView {
                            variant: self.variant,
                            contract: c,
                            initial_player: c.dealer,
                            deals: Seq::empty(),
                        },
                        stashes: fresh_stashes(c.spec_parties(self.variant)),
                    },
                    ..self
                },
            ),
        }
    }

    /// What playing `card` does to the round, with the trick `table` and the
    /// stashes `stashes` in play.
    pub open spec fn spec_play(
        self,
        table: TableView,
        stashes: Seq<(Party, StashView)>,
        card: Card,
    ) -> (SusResult<RoundResultView>, RoundView) {
        let player = table.spec_current_player()->0;
        let hand = self.hands[player as int];
        let declaration = if Hand::spec_can_declare(hand, card) && self.contract.spec_can_declare() {
            Some(card.suit)
        } else {
            None
        };
        if !table.legal(hand).contains(card) {
            (Err(SechsUndSechzigError::CardCannotBePlayed), self)
        } else {
            let hands = self.hands.update(player as int, remove_first(hand, card));
            let played = TableView { deals: table.deals.push((player, card)), ..table };
            match played.spec_drawer() {
                None => (
                    Ok(RoundResultView::Continue),
                    RoundView { hands, stage: StageView::Play { table: played, stashes }, ..self },
                ),
                Some(drawer) => {
                    let party = self.contract.spec_players_party(self.variant, drawer);
                    let i = party_index(stashes, party);
                    let won = stashes.update(
                        i,
                        (party, awarded(stashes[i].1, played.cards(), declaration)),
                    );
                    let next = RoundView {
                        hands,
                        stage: StageView::Play {
                            table: TableView { initial_player: drawer, deals: Seq::empty(), ..table },
                            stashes: won,
                        },
                        ..self
                    };
                    let points = points_view(won, self.contract.game_type.spec_triumph());
                    let finished = |party: Party, pts: i32| RoundResultView::Finished(
                        self.contract.spec_players_in_party(self.variant, party),
                        pts,
                        self.contract.dealer,
                    );
                    match spec_immediate_winner(points, drawer, self.contract) {
                        Some((winner, pts)) => (Ok(finished(winner, pts)), next),
                        None => if forall|p: int| 0 <= p < hands.len() ==> (#[trigger] hands[p]).len() == 0 {
                            let (winner, pts) = spec_winner(points, drawer, self.contract, self.variant);
                            (Ok(finished(winner, pts)), next)
                        } else {
                            (Ok(RoundResultView::Continue), next)
                        },
                    }
                },
            }
        }
    }

    /// What move `mv` does to the round: a bid while bidding, a card during
    /// play; any other move is refused as made in the wrong stage.
    pub open spec fn spec_handle_move(self, mv: SusMove) -> (SusResult<RoundResultView>, RoundView) {
        match (self.stage, mv) {
            (StageView::Bidding(p), SusMove::BiddingMove(bid)) => self.spec_bid(p, bid),
            (StageView::Play { table, stashes }, SusMove::PlayMove(card)) => self.spec_play(
                table,
                stashes,
                card,
            ),
            _ => (Err(SechsUndSechzigError::WrongStage), self),
        }
    }
}

/// Replacing one hand changes the cards of all hands by the difference.
proof fn lemma_all_cards_update(hands: Seq<Seq<Card>>, p: int, h: Seq<Card>)
    requires
        0 <= p < hands.len(),
    ensures
        all_cards(hands.update(p, h)).to_multiset().add(hands[p].to_multiset()) == all_cards(
            hands,
        ).to_multiset().add(h.to_multiset()),
    decreases hands.len(),
{
    broadcast use vstd::seq_lib::lemma_multiset_commutative;
    broadcast use vstd::multiset::group_multiset_axioms;

    let n = hands.len() - 1;
    let updated = hands.update(p, h);
    assert(updated.drop_last() =~= if p < n {
        hands.drop_last().update(p, h)
    } else {
        hands.drop_last()
    });
    assert(all_cards(updated) == all_cards(updated.drop_last()) + updated.last());
    assert(all_cards(hands) == all_cards(hands.drop_last()) + hands.last());
    let a = all_cards(hands.drop_last()).to_multiset();
    if p < n {
        lemma_all_cards_update(hands.drop_last(), p, h);
        assert(updated.last() == hands.last());
        let b = all_cards(hands.drop_last().update(p, h)).to_multiset();
        assert(b.add(hands[p].to_multiset()) == a.add(h.to_multiset()));
        assert(all_cards(updated).to_multiset() == b.add(hands.last().to_multiset()));
        assert(all_cards(hands).to_multiset() == a.add(hands.last().to_multiset()));
        assert(hands.drop_last()[p] == hands[p]);
        assert forall|x: Card| #[trigger] all_cards(updated).to_multiset().add(hands[p].to_multiset()).count(x)
            == all_cards(hands).to_multiset().add(h.to_multiset()).count(x) by {
            assert(b.add(hands[p].to_multiset()).count(x) == a.add(h.to_multiset()).count(x));
        }
    } else {
        assert(updated.last() == h);
        assert(all_cards(updated).to_multiset() == a.add(h.to_multiset()));
        assert(all_cards(hands).to_multiset() == a.add(hands[p].to_multiset()));
    }
    assert(all_cards(updated).to_multiset().add(hands[p].to_multiset()) =~= all_cards(
        hands,
    ).to_multiset().add(h.to_multiset()));
}

/// Replacing one stash changes the cards of all stashes by the difference.
proof fn lemma_stash_cards_update(stashes: Seq<(Party, StashView)>, i: int, e: (Party, StashView))
    requires
        0 <= i < stashes.len(),
    ensures
        stash_cards(stashes.update(i, e)).to_multiset().add(stashes[i].1.cards.to_multiset())
            == stash_cards(stashes).to_multiset().add(e.1.cards.to_multiset()),
    decreases stashes.len(),
{
    broadcast use vstd::seq_lib::lemma_multiset_commutative;
    broadcast use vstd::multiset::group_multiset_axioms;

    let n = stashes.len() - 1;
    let updated = stashes.update(i, e);
    assert(updated.drop_last() =~= if i < n {
        stashes.drop_last().update(i, e)
    } else {
        stashes.drop_last()
    });
    assert(stash_cards(updated) == stash_cards(updated.drop_last()) + updated.last().1.cards);
    assert(stash_cards(stashes) == stash_cards(stashes.drop_last()) + stashes.last().1.cards);
    let a = stash_cards(stashes.drop_last()).to_multiset();
    if i < n {
        lemma_stash_cards_update(stashes.drop_last(), i, e);
        assert(updated.last() == stashes.last());
        let b = stash_cards(stashes.drop_last().update(i, e)).to_multiset();
        assert(b.add(stashes[i].1.cards.to_multiset()) == a.add(e.1.cards.to_multiset()));
        assert(stash_cards(updated).to_multiset() == b.add(stashes.last().1.cards.to_multiset()));
        assert(stash_cards(stashes).to_multiset() == a.add(stashes.last().1.cards.to_multiset()));
        assert(stashes.drop_last()[i] == stashes[i]);
        assert forall|x: Card| #[trigger] stash_cards(updated).to_multiset().add(stashes[i].1.cards.to_multiset()).count(x)
            == stash_cards(stashes).to_multiset().add(e.1.cards.to_multiset()).count(x) by {
            assert(b.add(stashes[i].1.cards.to_multiset()).count(x) == a.add(e.1.cards.to_multiset()).count(x));
        }
    } else {
        assert(updated.last() == e);
        assert(stash_cards(updated).to_multiset() == a.add(e.1.cards.to_multiset()));
        assert(stash_cards(stashes).to_multiset() == a.add(stashes[i].1.cards.to_multiset()));
    }
    assert(stash_cards(updated).to_multiset().add(stashes[i].1.cards.to_multiset()) =~= stash_cards(
        stashes,
    ).to_multiset().add(e.1.cards.to_multiset()));
}

/// A stash holds no more cards than all stashes together.
proof fn lemma_stash_cards_len(stashes: Seq<(Party, StashView)>, i: int)
    requires
        0 <= i < stashes.len(),
    ensures
        stashes[i].1.cards.len() <= stash_cards(stashes).len(),
    decreases stashes.len(),
{
    if i < stashes.len() - 1 {
        lemma_stash_cards_len(stashes.drop_last(), i);
        assert(stashes.drop_last()[i] == stashes[i]);
    }
}

/// Fresh stashes hold no cards.
proof fn lemma_fresh_stashes(parties: Seq<Party>)
    ensures
        stash_cards(fresh_stashes(parties)) == Seq::<Card>::empty(),
        parties_of(fresh_stashes(parties)) == parties,
    decreases parties.len(),
{
    if parties.len() > 0 {
        lemma_fresh_stashes(parties.drop_last());
        assert(fresh_stashes(parties).drop_last() =~= fresh_stashes(parties.drop_last()));
    }
    assert(parties_of(fresh_stashes(parties)) =~= parties);
    assert(stash_cards(fresh_stashes(parties)) =~= Seq::<Card>::empty());
}

/// `party` is a party of `stashes`, so a stash for it is found.
proof fn lemma_party_found(stashes: Seq<(Party, StashView)>, party: Party)
    requires
        parties_of(stashes).contains(party),
    ensures
        0 <= party_index(stashes, party) < stashes.len(),
        stashes[party_index(stashes, party)].0 == party,
{
    crate::stash::lemma_party_index(stashes, party);
    let k = choose|k: int| 0 <= k < parties_of(stashes).len() && parties_of(stashes)[k] == party;
    assert(stashes[k].0 == party);
}

/// The points of every stash fit in `i32` while the stashes hold at most the deck.
proof fn lemma_points_bounded(stashes: Seq<(Party, StashView)>, triumph: Option<Suit>)
    requires
        stash_cards(stashes).len() <= 24,
        forall|i: int|
            0 <= i < stashes.len() ==> (#[trigger] stashes[i]).1.declarations.len()
                <= stashes[i].1.cards.len(),
    ensures
        forall|i: int| 0 <= i < stashes.len() ==> (#[trigger] stashes[i]).1.spec_points(triumph) <= 24 * 51,
{
    assert forall|i: int| 0 <= i < stashes.len() implies (#[trigger] stashes[i]).1.spec_points(triumph) <= 24 * 51 by {
        let st = stashes[i].1;
        lemma_stash_cards_len(stashes, i);
        crate::stash::lemma_cards_points_prefix(st.cards, 0);
        crate::stash::lemma_declarations_points_prefix(st.declarations, triumph, 0);
    }
}

/// The points view of stashes made of `i32` points.
proof fn lemma_points_view(points: Seq<(Party, i32)>, stashes: Seq<(Party, StashView)>, triumph: Option<Suit>)
    requires
        points.len() == stashes.len(),
        forall|i: int|
            0 <= i < stashes.len() ==> (#[trigger] points[i]).0 == stashes[i].0 && points[i].1
                == stashes[i].1.spec_points(triumph),
    ensures
        int_points(points) == points_view(stashes, triumph),
{
    assert(int_points(points) =~= points_view(stashes, triumph));
}

/// A bid keeps a round well formed.
proof fn lemma_bid_keeps_wf(s: RoundView, player: Player, bid: crate::bidding::Bid)
    requires
        s.wf(),
        s.stage == StageView::Bidding(player),
    ensures
        s.spec_bid(player, bid).1.wf(),
{
    vstd::arithmetic::power2::lemma2_to64();
    let n = s.variant.seats();
    let next = s.variant.next_seat(player as int);
    assert(0 <= next < n);
    if s.contract.game_type is NonTriumph && next != s.initial_dealer as int {
        assert(s.turn(next as Player) == s.turn(player) + 1);
    }
    if s.contract.game_type is NonTriumph && next == s.initial_dealer as int {
        assert(s.turn(player) == n - 1);
    }
    let k = choose|k: nat| k <= 4 && s.contract.multiplier == vstd::arithmetic::power2::pow2(k);
    if bid == crate::bidding::Bid::Raise && k < 4 {
        assert(vstd::arithmetic::power2::pow2(k + 1) == 2 * s.contract.multiplier);
    }
    assert(vstd::arithmetic::power2::pow2(0) == 1);
    match bidding_spec(s.contract, bid, player, s.variant, s.initial_dealer) {
        Ok(BidResult::Finish(c)) => {
            lemma_fresh_stashes(c.spec_parties(s.variant));
            let t = TableView { variant: s.variant, contract: c, initial_player: c.dealer, deals: Seq::empty() };
            assert(t.cards() =~= Seq::<Card>::empty());
            assert(all_cards(s.hands) + t.cards() + Seq::<Card>::empty() =~= all_cards(s.hands));
        },
        _ => {},
    }
}

/// Playing a legal card keeps a round well formed.
proof fn lemma_play_keeps_wf(
    s: RoundView,
    table: TableView,
    stashes: Seq<(Party, StashView)>,
    card: Card,
)
    requires
        s.wf(),
        s.stage == (StageView::Play { table, stashes }),
        table.legal(s.hands[table.spec_current_player()->0 as int]).contains(card),
    ensures
        s.spec_play(table, stashes, card).1.wf(),
        (TableView {
            deals: table.deals.push((table.spec_current_player()->0, card)),
            ..table
        }).spec_drawer() matches Some(d) ==> 0 <= party_index(
            stashes,
            s.contract.spec_players_party(s.variant, d),
        ) < stashes.len(),
{
    broadcast use vstd::seq_lib::lemma_multiset_commutative;
    broadcast use vstd::seq_lib::group_to_multiset_ensures;
    broadcast use vstd::multiset::group_multiset_axioms;

    let player = table.spec_current_player()->0;
    crate::table::lemma_current_player_seat(table);
    let hand = s.hands[player as int];
    crate::table::lemma_legal_in_hand(table.first_card(), table.contract.game_type.spec_triumph(), hand, card);
    crate::hands::lemma_remove_first_multiset(hand, card);
    let left = remove_first(hand, card);
    let hands = s.hands.update(player as int, left);
    lemma_all_cards_update(s.hands, player as int, left);
    crate::table::lemma_play_keeps_wf(table, card);
    let played = TableView { deals: table.deals.push((player, card)), ..table };
    let a = all_cards(s.hands).to_multiset();
    let a2 = all_cards(hands).to_multiset();
    let t = table.cards().to_multiset();
    let t2 = played.cards().to_multiset();
    let st = stash_cards(stashes).to_multiset();
    let d = deck_spec().to_multiset();
    assert(a.add(t).add(st) == d);
    assert(a2.add(hand.to_multiset()) == a.add(left.to_multiset()));
    assert(t2 == t.insert(card));
    assert forall|x: Card| #[trigger] a2.add(t2).add(st).count(x) == d.count(x) by {
        assert(a2.add(hand.to_multiset()).count(x) == a.add(left.to_multiset()).count(x));
        assert(hand.to_multiset().count(x) == left.to_multiset().count(x) + if x == card { 1nat } else { 0nat });
    }
    assert(a2.add(t2).add(st) =~= d);
    assert((all_cards(hands) + played.cards() + stash_cards(stashes)).to_multiset() == a2.add(t2).add(st));
    if played.deals.len() == played.size() {
        crate::table::lemma_drawer_dominates(played);
    }
    match played.spec_drawer() {
        None => {},
        Some(drawer) => {
            crate::table::lemma_drawer_seat(played);
            let party = s.contract.spec_players_party(s.variant, drawer);
            assert(parties_of(stashes).contains(party)) by {
                if s.contract.game_type is NonTriumph && s.variant is ThreePlayers {
                    assert(parties_of(stashes)[drawer as int] == party);
                } else if party == Party::Dealers {
                    assert(parties_of(stashes)[0] == party);
                } else {
                    assert(parties_of(stashes)[1] == party);
                }
            }
            lemma_party_found(stashes, party);
            let i = party_index(stashes, party);
            let declaration = if Hand::spec_can_declare(hand, card) && s.contract.spec_can_declare() {
                Some(card.suit)
            } else {
                None
            };
            let entry = (party, awarded(stashes[i].1, played.cards(), declaration));
            let won = stashes.update(i, entry);
            assert(0 <= i < stashes.len());
            assert(won.len() == stashes.len());
            assert forall|j: int| 0 <= j < won.len() implies #[trigger] parties_of(won)[j] == parties_of(stashes)[j] by {
                assert(parties_of(won)[j] == won[j].0);
                assert(parties_of(stashes)[j] == stashes[j].0);
                if j == i {
                    assert(won[j].0 == stashes[j].0);
                } else {
                    assert(won[j] == stashes[j]);
                }
            }
            assert(parties_of(won) =~= parties_of(stashes));
            assert forall|j: int| 0 <= j < won.len() implies (#[trigger] won[j]).1.declarations.len()
                <= won[j].1.cards.len() by {
                if j == i {
                    assert(played.cards().len() >= 1);
                }
            }
            lemma_stash_cards_update(stashes, i, entry);
            let w = stash_cards(won).to_multiset();
            assert forall|x: Card| #[trigger] a2.add(w).count(x) == d.count(x) by {
                assert(w.add(stashes[i].1.cards.to_multiset()).count(x) == st.add(entry.1.cards.to_multiset()).count(x));
                assert(entry.1.cards == stashes[i].1.cards + played.cards());
            }
            assert(a2.add(w) =~= d);
            let t3 = TableView { initial_player: drawer, deals: Seq::empty(), ..table };
            assert(t3.cards() =~= Seq::<Card>::empty());
            assert(all_cards(hands) + t3.cards() + stash_cards(won) =~= all_cards(hands) + stash_cards(won));
        },
    }
}

impl Round {
    /// A round with a fresh deal, bidding from `dealer`.
    pub fn new(rng: &mut StdRng, variant: &Variant, dealer: Player) -> (r: Round)
        requires
            dealer < variant.seats(),
        ensures
            r@.wf(),
            r@.variant == *variant,
            r@.initial_dealer == dealer,
            is_deal(r@.hands, *variant),
            r@.contract == Contract::initial_spec(dealer),
            r@.stage == StageView::Bidding(dealer),
    {
        Round::dealt(variant, dealer, Hands::deal(rng, variant))
    }

    /// A round on the deal `hands`, bidding from `dealer`.
    pub fn dealt(variant: &Variant, dealer: Player, hands: Hands) -> (r: Round)
        requires
            dealer < variant.seats(),
            is_deal(hands@, *variant),
        ensures
            r@.wf(),
            r@ == (RoundView {
                variant: *variant,
                initial_dealer: dealer,
                hands: hands@,
                contract: Contract::initial_spec(dealer),
                stage: StageView::Bidding(dealer),
            }),
    {
        let r = Round {
            variant: *variant,
            initial_dealer: dealer,
            hands,
            contract: Contract::initial(dealer),
            stage: Stage::Bidding(dealer),
        };
        proof {
            vstd::arithmetic::power2::lemma2_to64();
            vstd::arithmetic::div_mod::lemma_mod_self_0(variant.seats() as int);
            assert(dealer + variant.seats() - dealer == variant.seats());
            assert(r@.turn(dealer) == 0);
            assert(r@.contract.multiplier == vstd::arithmetic::power2::pow2(0));
        }
        r
    }

    /// The first round of a game, with a dealer drawn at random.
    pub fn first(rng: &mut StdRng, variant: &Variant) -> (r: Round)
        ensures
            r@.wf(),
            r@.variant == *variant,
            r@.stage == StageView::Bidding(r@.initial_dealer),
            r@.contract == Contract::initial_spec(r@.initial_dealer),
            is_deal(r@.hands, *variant),
    {
        let random_dealer = random_below(rng, variant.number_of_players());
        Round::new(rng, variant, random_dealer)
    }

    pub fn hands(&self) -> (r: &Hands)
        ensures
            r@ == self@.hands,
    {
        &self.hands
    }

    pub fn contract(&self) -> (r: &Contract)
        ensures
            *r == self@.contract,
    {
        &self.contract
    }

    /// The seat to act.
    pub fn current_player(&self) -> (r: Player)
        requires
            self@.wf(),
        ensures
            r == self@.spec_current_player(),
            r < self@.variant.seats(),
    {
        match &self.stage {
            Stage::Bidding(p) => *p,
            Stage::Play { table, .. } => {
                proof {
                    crate::table::lemma_current_player_seat(table@);
                }
                match table.current_player() {
                    Some(p) => p,
                    None => self.initial_dealer,
                }
            },
        }
    }

    /// Whether the seats may see their whole hands: not while bidding on the
    /// first four cards.
    pub fn display_full_hand(&self) -> (r: bool)
        ensures
            r == !(self@.stage is Bidding && self@.contract.game_type is NonTriumph),
    {
        match self.stage {
            Stage::Bidding(_) => self.contract.game_type != GameType::NonTriumph,
            _ => true,
        }
    }

    /// A copy of the trick in progress, during play.
    pub fn get_table(&self) -> (r: Option<Table>)
        ensures
            match self@.stage {
                StageView::Play { table, .. } => r matches Some(t) && t@ == table,
                StageView::Bidding(_) => r is None,
            },
    {
        match &self.stage {
            Stage::Play { table, .. } => Some(table.clone()),
            _ => None,
        }
    }

    /// Applies the move of the seat to act. A refused move changes nothing.
    pub fn handle_move(&mut self, mv: SusMove) -> (r: SusResult<RoundResult>)
        requires
            old(self)@.wf(),
        ensures
            final(self)@.wf(),
            (result_view(r), final(self)@) == old(self)@.spec_handle_move(mv),
    {
        match (&self.stage, mv) {
            (Stage::Bidding(player), SusMove::BiddingMove(bid)) => {
                let player = *player;
                self.handle_bid(player, bid)
            },
            (Stage::Play { .. }, SusMove::PlayMove(card)) => self.handle_play(card),
            _ => Err(SechsUndSechzigError::WrongStage),
        }
    }

    fn handle_bid(&mut self, player: Player, bid: crate::bidding::Bid) -> (r: SusResult<RoundResult>)
        requires
            old(self)@.wf(),
            old(self)@.stage == StageView::Bidding(player),
        ensures
            final(self)@.wf(),
            (result_view(r), final(self)@) == old(self)@.spec_bid(player, bid),
    {
        proof {
            lemma_bid_keeps_wf(self@, player, bid);
        }
        match bidding(&self.contract, &bid, player, &self.variant, self.initial_dealer) {
            Err(e) => Err(e),
            Ok(BidResult::Continue(new_contract, new_player)) => {
                self.contract = new_contract;
                self.stage = Stage::Bidding(new_player);
                Ok(RoundResult::Contiune)
            },
            Ok(BidResult::Finish(final_contract)) => {
                let parties = final_contract.parties(&self.variant);
                let table = Table::empty(self.variant, final_contract, final_contract.dealer);
                let stashes = Stashes::empty(&parties);
                assert(stashes@ =~= fresh_stashes(parties@));
                self.contract = final_contract;
                self.stage = Stage::Play { table, stashes };
                Ok(RoundResult::Contiune)
            },
        }
    }

    fn handle_play(&mut self, card: Card) -> (r: SusResult<RoundResult>)
        requires
            old(self)@.wf(),
            old(self)@.stage is Play,
        ensures
            final(self)@.wf(),
            (result_view(r), final(self)@) == old(self)@.spec_handle_move(SusMove::PlayMove(card)),
    {
        let ghost s = self@;
        let mut stage = Stage::Bidding(0);
        core::mem::swap(&mut self.stage, &mut stage);
        let (mut table, mut stashes) = match stage {
            Stage::Play { table, stashes } => (table, stashes),
            Stage::Bidding(p) => {
                self.stage = Stage::Bidding(p);
                return Err(SechsUndSechzigError::WrongStage);
            },
        };
        let ghost table0 = table@;
        let ghost stashes0 = stashes@;
        assert(s.stage == (StageView::Play { table: table0, stashes: stashes0 }));
        let player = match table.current_player() {
            Some(p) => p,
            None => {
                self.stage = Stage::Play { table, stashes };
                return Err(SechsUndSechzigError::FullTable);
            },
        };
        proof {
            crate::table::lemma_current_player_seat(table@);
        }
        let ghost hands0 = self.hands@;
        let hand = self.hands.hand_mut(&player);
        let is_declaration = hand.can_declare(card) && self.contract.can_declare();
        let played = table.try_play_card(hand, card);
        if let Err(e) = played {
            self.stage = Stage::Play { table, stashes };
            assert(self.hands@ =~= hands0);
            assert(self@ == s);
            return Err(e);
        }
        proof {
            lemma_play_keeps_wf(s, table0, stashes0, card);
        }
        match table.drawer() {
            None => {
                self.stage = Stage::Play { table, stashes };
                Ok(RoundResult::Contiune)
            },
            Some(drawer) => {
                let party = self.contract.players_party(self.variant, drawer);
                let cards = table.cards();
                let declaration = if is_declaration {
                    Some(card.suit)
                } else {
                    None
                };
                let awarded = stashes.award(&party, &cards, declaration);
                let ghost next = s.spec_play(table0, stashes0, card).1;
                proof {
                    let triumph = self.contract.game_type.spec_triumph();
                    if let StageView::Play { table: t, stashes: st } = next.stage {
                        assert(st == stashes@);
                        assert(parties_of(st).len() >= 2);
                        vstd::seq_lib::lemma_multiset_commutative(all_cards(next.hands) + t.cards(), stash_cards(st));
                        vstd::seq_lib::lemma_multiset_commutative(all_cards(next.hands), t.cards());
                        vstd::seq_lib::to_multiset_len(all_cards(next.hands) + t.cards() + stash_cards(st));
                        vstd::seq_lib::to_multiset_len(stash_cards(st));
                        vstd::seq_lib::to_multiset_len(deck_spec());
                        crate::cards::lemma_deck();
                        assert(stash_cards(st).len() <= 24);
                        lemma_points_bounded(st, triumph);
                    }
                }
                let immediate = Round::immediate_winner(&stashes, drawer, &self.contract);
                let exhausted = self.hands.are_empty();
                let result = match immediate {
                    Some((winning_party, points)) => RoundResult::Finished(
                        self.contract.players_in_party(&self.variant, &winning_party),
                        points,
                        self.contract.dealer,
                    ),
                    None => {
                        if exhausted {
                            let (winning_party, points) = Round::winner(
                                &stashes,
                                drawer,
                                &self.contract,
                                self.variant,
                            );
                            RoundResult::Finished(
                                self.contract.players_in_party(&self.variant, &winning_party),
                                points,
                                self.contract.dealer,
                            )
                        } else {
                            RoundResult::Contiune
                        }
                    },
                };
                self.stage = Stage::Play {
                    table: Table::empty(self.variant, self.contract, drawer),
                    stashes,
                };
                Ok(result)
            },
        }
    }

    /// The party that wins as soon as a trick is taken, if the game type ends
    /// the round there.
    pub fn immediate_winner(stashes: &Stashes, last_drawer: Player, contract: &Contract) -> (r: Option<(Party, i32)>)
        requires
            forall|i: int| 0 <= i < stashes@.len() ==> (#[trigger] stashes@[i]).1.spec_points(
                contract.game_type.spec_triumph(),
            ) <= i32::MAX,
        ensures
            r == spec_immediate_winner(
                points_view(stashes@, contract.game_type.spec_triumph()),
                last_drawer,
                *contract,
            ),
    {
        let points = stashes.points(contract.game_type.triumph());
        proof {
            lemma_points_view(points@, stashes@, contract.game_type.spec_triumph());
        }
        match contract.game_type {
            GameType::NonTriumph => None,
            GameType::AskingAbout(_) => match first_reaching_of(&points, MAX_POINTS) {
                Some(party) => {
                    let other = match party {
                        Party::Dealers => Party::NonDealers,
                        Party::NonDealers => Party::Dealers,
                        Party::SinglePlayer(p) => Party::SinglePlayer(p),
                    };
                    let loser_points = party_points_of(&points, other);
                    let award = if loser_points == 0 {
                        3
                    } else if 1 <= loser_points && loser_points <= 32 {
                        2
                    } else {
                        1
                    };
                    Some((party, award))
                },
                None => None,
            },
            GameType::LookingFor(_) => {
                if last_drawer != contract.dealer {
                    Some((Party::NonDealers, 5))
                } else if party_points_of(&points, Party::Dealers) > MAX_POINTS {
                    Some((Party::Dealers, 5))
                } else {
                    None
                }
            },
            GameType::Misery => {
                if party_points_of(&points, Party::Dealers) > 0 {
                    Some((Party::NonDealers, 7))
                } else {
                    None
                }
            },
            GameType::Shower => {
                if party_points_of(&points, Party::NonDealers) > 0 {
                    Some((Party::NonDealers, 10))
                } else {
                    None
                }
            },
        }
    }

    /// The winning party once every card has been played.
    pub fn winner(stashes: &Stashes, last_drawer: Player, contract: &Contract, variant: Variant) -> (r: (
        Party,
        i32,
    ))
        requires
            stashes@.len() > 0,
            forall|i: int| 0 <= i < stashes@.len() ==> (#[trigger] stashes@[i]).1.spec_points(
                contract.game_type.spec_triumph(),
            ) <= i32::MAX,
        ensures
            r == spec_winner(
                points_view(stashes@, contract.game_type.spec_triumph()),
                last_drawer,
                *contract,
                variant,
            ),
    {
        match contract.game_type {
            GameType::NonTriumph => {
                let points = stashes.points(contract.game_type.triumph());
                proof {
                    lemma_points_view(points@, stashes@, contract.game_type.spec_triumph());
                }
                (least_points_of(&points), 1)
            },
            GameType::AskingAbout(_) => (contract.players_party(variant, last_drawer), 1),
            GameType::LookingFor(_) => (Party::Dealers, 5),
            GameType::Misery => (Party::Dealers, 7),
            GameType::Shower => (Party::Dealers, 10),
        }
    }
}

/// A round that ends names one or two seats as winners, earns from one to
/// ten points, and keeps its dealer, a seat of the variant.
pub proof fn lemma_finished(s: RoundView, mv: SusMove)
    requires
        s.wf(),
    ensures
        s.spec_handle_move(mv).0 matches Ok(RoundResultView::Finished(players, points, dealer))
            ==> 1 <= points <= 10 && dealer == s.contract.dealer && dealer < s.variant.seats() && 1
            <= players.len() <= 2,
        s.spec_handle_move(mv).1.variant == s.variant,
{
}

} // verus!
