//! The rules: dealing, passing, legal plays, tricks and scoring.
use vstd::prelude::*;
use crate::cards::{
    Card, Rng, PlayerId, Suit, Rank, CLUBS, SPADES, DIAMONDS, HEARTS, deck_card, make_deck,
    shuffle, shuffled, sort_hand, is_sorted_hand, suits_valid, is_queen_of_spades,
    is_jack_of_diamonds, is_two_of_clubs, is_heart, is_penalty, holds_id, find_card,
    without_cards, spec_is_heart, spec_is_queen_of_spades, spec_is_jack_of_diamonds,
    spec_is_two_of_clubs, spec_is_penalty, contains_id, fresh_deck, lemma_suits_valid_by_multiset,
    lemma_fresh_deck_valid, lemma_shuffle_from_keeps_cards,
};

verus! {

broadcast use vstd::seq_lib::group_to_multiset_ensures;

#[derive(Debug, Clone, Copy, PartialEq, Eq, Structural)]
pub enum VariantId {
    Spardame,
    Hjerter,
}

#[derive(Debug, Clone, Copy, PartialEq, Eq, Structural)]
pub enum Difficulty {
    Easy,
    Normal,
    Hard,
}

#[derive(Debug, Clone, Copy, PartialEq, Eq, Structural)]
pub enum PassDir {
    Left,
    Right,
    Across,
    Hold,
}

#[derive(Debug, Clone, Copy, PartialEq, Eq, Structural)]
pub enum Phase {
    Passing,
    Playing,
    TrickEnd,
    HandEnd,
    GameOver,
}

#[derive(Debug, Clone, Copy, PartialEq, Eq, Structural)]
pub enum CardBackTint {
    Red,
    Blue,
}

#[derive(Debug, Clone, Copy, PartialEq, Eq, Structural)]
pub enum Locale {
    En,
    Nb,
}

/// One card put on the table by one seat.
#[derive(Debug, Clone, Copy, PartialEq, Eq, Structural)]
pub struct Play {
    pub player: PlayerId,
    pub card: Card,
}

/// A finished trick and who took it.
#[derive(Debug)]
pub struct TrickRecord {
    pub plays: Vec<Play>,
    pub winner: PlayerId,
}

impl View for TrickRecord {
    type V = (Seq<Play>, PlayerId);

    open spec fn view(&self) -> (Seq<Play>, PlayerId) {
        (self.plays@, self.winner)
    }
}

impl Clone for TrickRecord {
    fn clone(&self) -> (copy: Self)
        ensures
            copy@ == self@,
    {
        let plays = self.plays.clone();
        assert(plays@ =~= self.plays@);
        TrickRecord { plays, winner: self.winner }
    }
}

/// The points of one hand: `raw` as taken, `applied` after a shot moon.
#[derive(Debug, Clone, Copy)]
pub struct HandScore {
    pub raw: [i32; 4],
    pub applied: [i32; 4],
    pub moon: Option<PlayerId>,
    pub jack_holder: Option<PlayerId>,
}

#[verifier::ext_equal]
pub struct HandScoreView {
    pub raw: Seq<i32>,
    pub applied: Seq<i32>,
    pub moon: Option<PlayerId>,
    pub jack_holder: Option<PlayerId>,
}

impl View for HandScore {
    type V = HandScoreView;

    open spec fn view(&self) -> HandScoreView {
        HandScoreView {
            raw: self.raw@,
            applied: self.applied@,
            moon: self.moon,
            jack_holder: self.jack_holder,
        }
    }
}

/// The scoring rules of one game.
#[derive(Debug, Clone, Copy, PartialEq, Eq, Structural)]
pub struct Variant {
    pub id: VariantId,
    pub queen_spades: i32,
    pub ace_hearts: i32,
    pub other_hearts: i32,
    pub jack_diamonds: i32,
    pub pass_count: usize,
    pub game_limit: i32,
    pub can_pass_queen: bool,
    pub moon_others: i32,
}

pub open spec fn spec_variant(id: VariantId) -> Variant {
    match id {
        VariantId::Spardame => Variant {
            id,
            queen_spades: 100,
            ace_hearts: 20,
            other_hearts: 10,
            jack_diamonds: -100i32,
            pass_count: 3,
            game_limit: 500,
            can_pass_queen: false,
            moon_others: 100,
        },
        VariantId::Hjerter => Variant {
            id,
            queen_spades: 13,
            ace_hearts: 1,
            other_hearts: 1,
            jack_diamonds: 0,
            pass_count: 3,
            game_limit: 100,
            can_pass_queen: true,
            moon_others: 26,
        },
    }
}

#[verifier::when_used_as_spec(spec_variant)]
pub fn get_variant(id: VariantId) -> (v: Variant)
    ensures
        v == spec_variant(id),
{
    match id {
        VariantId::Spardame => Variant {
            id,
            queen_spades: 100,
            ace_hearts: 20,
            other_hearts: 10,
            jack_diamonds: -100,
            pass_count: 3,
            game_limit: 500,
            can_pass_queen: false,
            moon_others: 100,
        },
        VariantId::Hjerter => Variant {
            id,
            queen_spades: 13,
            ace_hearts: 1,
            other_hearts: 1,
            jack_diamonds: 0,
            pass_count: 3,
            game_limit: 100,
            can_pass_queen: true,
            moon_others: 26,
        },
    }
}

/// Hands 0, 1, 2, 3 pass left, right, across, then keep their cards.
pub const PASS_CYCLE: [PassDir; 4] = [PassDir::Left, PassDir::Right, PassDir::Across, PassDir::Hold];

pub open spec fn pass_dir_of_hand(hand_number: int) -> PassDir {
    let k = hand_number % 4;
    if k == 0 {
        PassDir::Left
    } else if k == 1 {
        PassDir::Right
    } else if k == 2 {
        PassDir::Across
    } else {
        PassDir::Hold
    }
}

pub open spec fn spec_pass_offset(dir: PassDir) -> usize {
    match dir {
        PassDir::Left => 1,
        PassDir::Right => 3,
        PassDir::Across => 2,
        PassDir::Hold => 0,
    }
}

/// How many seats further the cards go.
#[verifier::when_used_as_spec(spec_pass_offset)]
pub fn pass_offset(dir: PassDir) -> (offset: usize)
    ensures
        offset == spec_pass_offset(dir),
{
    match dir {
        PassDir::Left => 1,
        PassDir::Right => 3,
        PassDir::Across => 2,
        PassDir::Hold => 0,
    }
}

/// The whole game at one moment.
#[derive(Debug)]
pub struct GameState {
    pub variant: VariantId,
    pub phase: Phase,
    pub hands: Vec<Vec<Card>>,
    pub taken: Vec<Vec<Card>>,
    pub trick: Vec<Play>,
    pub turn: PlayerId,
    pub hearts_broken: bool,
    pub trick_number: usize,
    pub hand_number: usize,
    pub scores: [i32; 4],
    pub hand_score: Option<HandScore>,
    pub pass_dir: PassDir,
    pub pass_selections: Vec<Option<Vec<Card>>>,
    pub received_pass: Vec<Card>,
    pub history: Vec<TrickRecord>,
    pub winner: Option<PlayerId>,
    pub tied: Vec<PlayerId>,
}

/// The mathematical value of a [`GameState`].
#[verifier::ext_equal]
pub struct GameView {
    pub variant: VariantId,
    pub phase: Phase,
    pub hands: Seq<Seq<Card>>,
    pub taken: Seq<Seq<Card>>,
    pub trick: Seq<Play>,
    pub turn: PlayerId,
    pub hearts_broken: bool,
    pub trick_number: usize,
    pub hand_number: usize,
    pub scores: Seq<i32>,
    pub hand_score: Option<HandScoreView>,
    pub pass_dir: PassDir,
    pub pass_selections: Seq<Option<Seq<Card>>>,
    pub received_pass: Seq<Card>,
    pub history: Seq<(Seq<Play>, PlayerId)>,
    pub winner: Option<PlayerId>,
    pub tied: Seq<PlayerId>,
}

pub open spec fn piles_view(piles: Seq<Vec<Card>>) -> Seq<Seq<Card>> {
    piles.map_values(|h: Vec<Card>| h@)
}

pub open spec fn selections_view(sel: Seq<Option<Vec<Card>>>) -> Seq<Option<Seq<Card>>> {
    sel.map_values(
        |o: Option<Vec<Card>>|
            match o {
                Some(v) => Some(v@),
                None => None,
            },
    )
}

pub open spec fn history_view(h: Seq<TrickRecord>) -> Seq<(Seq<Play>, PlayerId)> {
    h.map_values(|t: TrickRecord| t@)
}

pub open spec fn score_view(h: Option<HandScore>) -> Option<HandScoreView> {
    match h {
        Some(s) => Some(s@),
        None => None,
    }
}

impl View for GameState {
    type V = GameView;

    open spec fn view(&self) -> GameView {
        GameView {
            variant: self.variant,
            phase: self.phase,
            hands: piles_view(self.hands@),
            taken: piles_view(self.taken@),
            trick: self.trick@,
            turn: self.turn,
            hearts_broken: self.hearts_broken,
            trick_number: self.trick_number,
            hand_number: self.hand_number,
            scores: self.scores@,
            hand_score: score_view(self.hand_score),
            pass_dir: self.pass_dir,
            pass_selections: selections_view(self.pass_selections@),
            received_pass: self.received_pass@,
            history: history_view(self.history@),
            winner: self.winner,
            tied: self.tied@,
        }
    }
}

impl GameView {
    /// Four seats, each holding cards of the four suits, the seat to play
    /// and the seats in the current trick among them.
    pub open spec fn wf(self) -> bool {
        &&& self.hands.len() == 4
        &&& self.taken.len() == 4
        &&& self.pass_selections.len() == 4
        &&& self.scores.len() == 4
        &&& self.turn < 4
        &&& forall|p: int| 0 <= p < 4 ==> suits_valid(#[trigger] self.hands[p])
        &&& forall|p: int|
            0 <= p < 4 ==> match #[trigger] self.pass_selections[p] {
                Some(cards) => suits_valid(cards),
                None => true,
            }
        &&& forall|i: int| 0 <= i < self.trick.len() ==> (#[trigger] self.trick[i]).player < 4
    }
}

/// A copy of the cards.
pub fn copy_cards(cards: &Vec<Card>) -> (copy: Vec<Card>)
    ensures
        copy@ == cards@,
{
    let copy = cards.clone();
    assert(copy@ =~= cards@);
    copy
}

fn copy_piles(piles: &Vec<Vec<Card>>) -> (copy: Vec<Vec<Card>>)
    ensures
        piles_view(copy@) == piles_view(piles@),
{
    let mut copy: Vec<Vec<Card>> = Vec::new();
    let mut i: usize = 0;
    while i < piles.len()
        invariant
            i <= piles@.len(),
            copy@.len() == i,
            forall|k: int| 0 <= k < i ==> (#[trigger] copy@[k])@ == piles@[k]@,
        decreases piles@.len() - i,
    {
        copy.push(copy_cards(&piles[i]));
        i += 1;
    }
    assert(piles_view(copy@) =~= piles_view(piles@));
    copy
}

fn copy_selections(sel: &Vec<Option<Vec<Card>>>) -> (copy: Vec<Option<Vec<Card>>>)
    ensures
        selections_view(copy@) == selections_view(sel@),
{
    let mut copy: Vec<Option<Vec<Card>>> = Vec::new();
    let mut i: usize = 0;
    while i < sel.len()
        invariant
            i <= sel@.len(),
            copy@.len() == i,
            forall|k: int|
                0 <= k < i ==> selections_view(copy@)[k] == #[trigger] selections_view(sel@)[k],
        decreases sel@.len() - i,
    {
        let item = match &sel[i] {
            Some(cards) => Some(copy_cards(cards)),
            None => None,
        };
        let ghost before = copy@;
        copy.push(item);
        assert forall|k: int| 0 <= k < i + 1 implies selections_view(copy@)[k]
            == #[trigger] selections_view(sel@)[k] by {
            if k < i {
                assert(copy@[k] == before[k]);
                assert(selections_view(before)[k] == selections_view(sel@)[k]);
            }
        }
        i += 1;
    }
    assert(selections_view(copy@) =~= selections_view(sel@));
    copy
}

fn copy_history(history: &Vec<TrickRecord>) -> (copy: Vec<TrickRecord>)
    ensures
        history_view(copy@) == history_view(history@),
{
    let mut copy: Vec<TrickRecord> = Vec::new();
    let mut i: usize = 0;
    while i < history.len()
        invariant
            i <= history@.len(),
            copy@.len() == i,
            forall|k: int| 0 <= k < i ==> (#[trigger] copy@[k])@ == history@[k]@,
        decreases history@.len() - i,
    {
        copy.push(history[i].clone());
        i += 1;
    }
    assert(history_view(copy@) =~= history_view(history@));
    copy
}

impl Clone for GameState {
    fn clone(&self) -> (copy: Self)
        ensures
            copy@ == self@,
    {
        let trick = self.trick.clone();
        assert(trick@ =~= self.trick@);
        let received_pass = copy_cards(&self.received_pass);
        let tied = self.tied.clone();
        assert(tied@ =~= self.tied@);
        GameState {
            variant: self.variant,
            phase: self.phase,
            hands: copy_piles(&self.hands),
            taken: copy_piles(&self.taken),
            trick,
            turn: self.turn,
            hearts_broken: self.hearts_broken,
            trick_number: self.trick_number,
            hand_number: self.hand_number,
            scores: self.scores,
            hand_score: self.hand_score,
            pass_dir: self.pass_dir,
            pass_selections: copy_selections(&self.pass_selections),
            received_pass,
            history: copy_history(&self.history),
            winner: self.winner,
            tied,
        }
    }
}

pub open spec fn spec_card_points(card: Card, variant_id: VariantId) -> i32 {
    let v = spec_variant(variant_id);
    if is_queen_of_spades(card) {
        v.queen_spades
    } else if is_jack_of_diamonds(card) {
        v.jack_diamonds
    } else if is_heart(card) {
        if card.rank() == 14 {
            v.ace_hearts
        } else {
            v.other_hearts
        }
    } else {
        0
    }
}

/// The points a card counts when taken.
#[verifier::when_used_as_spec(spec_card_points)]
pub fn card_points(card: Card, variant_id: VariantId) -> (points: i32)
    ensures
        points == spec_card_points(card, variant_id),
{
    let v = get_variant(variant_id);
    if is_queen_of_spades(card) {
        return v.queen_spades;
    }
    if is_jack_of_diamonds(card) {
        return v.jack_diamonds;
    }
    if is_heart(card) {
        return if card.rank() == 14 {
            v.ace_hearts
        } else {
            v.other_hearts
        };
    }
    0
}

/// The cards that go to seat `p` when `deck` is dealt round the table:
/// `deck[p]`, `deck[p + 4]`, ...
pub open spec fn dealt(deck: Seq<Card>, p: int) -> Seq<Card> {
    Seq::new(((deck.len() + 3 - p) / 4) as nat, |k: int| deck[4 * k + p])
}

/// Four sorted hands holding, seat by seat, what was dealt from `deck`.
pub open spec fn dealt_from(hands: Seq<Seq<Card>>, deck: Seq<Card>) -> bool {
    &&& hands.len() == 4
    &&& forall|p: int|
        0 <= p < 4 ==> is_sorted_hand(#[trigger] hands[p]) && hands[p].to_multiset()
            == dealt(deck, p).to_multiset()
}

/// The deck order that dealing from a generator at `state` uses.
pub open spec fn dealing_deck(state: u32) -> Seq<Card> {
    shuffled(fresh_deck(), state).0
}

/// Shuffles a fresh deck and deals four sorted hands of 13.
pub fn deal_hands(rng: &mut Rng) -> (hands: Vec<Vec<Card>>)
    ensures
        dealt_from(piles_view(hands@), dealing_deck(old(rng)@)),
        final(rng)@ == shuffled(fresh_deck(), old(rng)@).1,
        hands@.len() == 4,
        forall|p: int| 0 <= p < 4 ==> (#[trigger] hands@[p])@.len() == 13,
        forall|p: int| 0 <= p < 4 ==> suits_valid(#[trigger] hands@[p]@),
{
    let mut deck = make_deck();
    shuffle(&mut deck, rng);
    proof {
        lemma_fresh_deck_valid();
        lemma_suits_valid_by_multiset(deck@, fresh_deck());
        assert(deck@.to_multiset().len() == fresh_deck().to_multiset().len());
    }
    let ghost d = deck@;
    let mut h0: Vec<Card> = Vec::new();
    let mut h1: Vec<Card> = Vec::new();
    let mut h2: Vec<Card> = Vec::new();
    let mut h3: Vec<Card> = Vec::new();
    let mut i: usize = 0;
    while i < deck.len()
        invariant
            deck@ == d,
            d.len() == 52,
            i <= 52,
            suits_valid(d),
            h0@ == dealt(d.take(i as int), 0),
            h1@ == dealt(d.take(i as int), 1),
            h2@ == dealt(d.take(i as int), 2),
            h3@ == dealt(d.take(i as int), 3),
        decreases 52 - i,
    {
        let card = deck[i];
        let ghost t = d.take(i + 1);
        match i % 4 {
            0 => h0.push(card),
            1 => h1.push(card),
            2 => h2.push(card),
            _ => h3.push(card),
        }
        assert(h0@ =~= dealt(t, 0));
        assert(h1@ =~= dealt(t, 1));
        assert(h2@ =~= dealt(t, 2));
        assert(h3@ =~= dealt(t, 3));
        i += 1;
    }
    assert(d.take(52) =~= d);
    assert forall|p: int| 0 <= p < 4 implies suits_valid(#[trigger] dealt(d, p)) by {
        assert forall|k: int| 0 <= k < dealt(d, p).len() implies (#[trigger] dealt(d, p)[k]).suit()
            < 4 by {
            assert(dealt(d, p)[k] == d[4 * k + p]);
        }
    }
    assert(suits_valid(dealt(d, 0)));
    assert(suits_valid(dealt(d, 1)));
    assert(suits_valid(dealt(d, 2)));
    assert(suits_valid(dealt(d, 3)));
    sort_hand(&mut h0);
    sort_hand(&mut h1);
    sort_hand(&mut h2);
    sort_hand(&mut h3);
    let mut hands: Vec<Vec<Card>> = Vec::new();
    hands.push(h0);
    hands.push(h1);
    hands.push(h2);
    hands.push(h3);
    assert(h0@.to_multiset().len() == dealt(d, 0).to_multiset().len());
    assert(h1@.to_multiset().len() == dealt(d, 1).to_multiset().len());
    assert(h2@.to_multiset().len() == dealt(d, 2).to_multiset().len());
    assert(h3@.to_multiset().len() == dealt(d, 3).to_multiset().len());
    assert(dealt_from(piles_view(hands@), d)) by {
        assert(piles_view(hands@)[0] == hands@[0]@);
        assert(piles_view(hands@)[1] == hands@[1]@);
        assert(piles_view(hands@)[2] == hands@[2]@);
        assert(piles_view(hands@)[3] == hands@[3]@);
    }
    hands
}

pub open spec fn has_card(hand: Seq<Card>, suit: Suit, rank: Rank) -> bool {
    exists|i: int| 0 <= i < hand.len() && (#[trigger] hand[i]).suit() == suit && hand[i].rank() == rank
}

/// The first seat from `p` on whose hand has the card, or 0 when none has.
pub open spec fn first_holder(hands: Seq<Seq<Card>>, suit: Suit, rank: Rank, p: int) -> PlayerId
    decreases hands.len() - p,
{
    if p < 0 || p >= hands.len() {
        0
    } else if has_card(hands[p], suit, rank) {
        p as PlayerId
    } else {
        first_holder(hands, suit, rank, p + 1)
    }
}

pub open spec fn spec_holder_of(hands: Seq<Seq<Card>>, suit: Suit, rank: Rank) -> PlayerId {
    first_holder(hands, suit, rank, 0)
}

fn holds_card(hand: &[Card], suit: Suit, rank: Rank) -> (found: bool)
    ensures
        found == has_card(hand@, suit, rank),
{
    let mut i: usize = 0;
    while i < hand.len()
        invariant
            i <= hand@.len(),
            forall|k: int|
                0 <= k < i ==> !((#[trigger] hand@[k]).suit() == suit && hand@[k].rank() == rank),
        decreases hand@.len() - i,
    {
        if hand[i].suit() == suit && hand[i].rank() == rank {
            return true;
        }
        i += 1;
    }
    false
}

/// The first seat holding the card, or seat 0 when nobody does.
pub fn holder_of(hands: &[Vec<Card>], target_suit: Suit, target_rank: Rank) -> (p: PlayerId)
    ensures
        p == spec_holder_of(piles_view(hands@), target_suit, target_rank),
        p == 0 || p < hands@.len(),
{
    let ghost hv = piles_view(hands@);
    let mut p: usize = 0;
    while p < hands.len()
        invariant
            p <= hands@.len(),
            hv == piles_view(hands@),
            hv.len() == hands@.len(),
            spec_holder_of(hv, target_suit, target_rank) == first_holder(
                hv,
                target_suit,
                target_rank,
                p as int,
            ),
        decreases hands@.len() - p,
    {
        assert(hv[p as int] == hands@[p as int]@);
        if holds_card(hands[p].as_slice(), target_suit, target_rank) {
            return p;
        }
        p += 1;
    }
    0
}

pub fn next_player(p: PlayerId) -> (q: PlayerId)
    requires
        p < usize::MAX,
    ensures
        q == (p + 1) % 4,
{
    (p + 1) % 4
}

pub open spec fn no_passes() -> Seq<Option<Seq<Card>>> {
    Seq::new(4, |i: int| None::<Seq<Card>>)
}

pub open spec fn empty_piles() -> Seq<Seq<Card>> {
    Seq::new(4, |i: int| Seq::<Card>::empty())
}

/// No seat has chosen cards to pass yet.
pub fn empty_pass() -> (sel: Vec<Option<Vec<Card>>>)
    ensures
        selections_view(sel@) == no_passes(),
        sel@.len() == 4,
{
    let mut sel: Vec<Option<Vec<Card>>> = Vec::new();
    sel.push(None);
    sel.push(None);
    sel.push(None);
    sel.push(None);
    assert(selections_view(sel@) =~= no_passes());
    sel
}

fn new_piles() -> (piles: Vec<Vec<Card>>)
    ensures
        piles_view(piles@) == empty_piles(),
        piles@.len() == 4,
{
    let mut piles: Vec<Vec<Card>> = Vec::new();
    piles.push(Vec::new());
    piles.push(Vec::new());
    piles.push(Vec::new());
    piles.push(Vec::new());
    assert(piles_view(piles@) =~= empty_piles());
    piles
}

/// The state at the start of a hand dealt as `hands`.
pub open spec fn new_hand_view(
    variant: VariantId,
    hand_number: usize,
    scores: Seq<i32>,
    hands: Seq<Seq<Card>>,
) -> GameView {
    let dir = pass_dir_of_hand(hand_number as int);
    GameView {
        variant,
        phase: if dir != PassDir::Hold {
            Phase::Passing
        } else {
            Phase::Playing
        },
        hands,
        taken: empty_piles(),
        trick: Seq::empty(),
        turn: spec_holder_of(hands, CLUBS, 2),
        hearts_broken: false,
        trick_number: 0,
        hand_number,
        scores,
        hand_score: None,
        pass_dir: dir,
        pass_selections: no_passes(),
        received_pass: Seq::empty(),
        history: Seq::empty(),
        winner: None,
        tied: Seq::empty(),
    }
}

/// Deals a new hand, keeping the running scores.
pub fn start_hand(variant: VariantId, hand_number: usize, scores: &[i32; 4], rng: &mut Rng) -> (state:
    GameState)
    ensures
        state@ == new_hand_view(variant, hand_number, scores@, state@.hands),
        dealt_from(state@.hands, dealing_deck(old(rng)@)),
        final(rng)@ == shuffled(fresh_deck(), old(rng)@).1,
        state@.wf(),
{
    let hands = deal_hands(rng);
    let pass_dir = PASS_CYCLE[hand_number % 4];
    assert(pass_dir == pass_dir_of_hand(hand_number as int));
    let lead = holder_of(hands.as_slice(), CLUBS, 2);
    let passing = pass_dir != PassDir::Hold;
    let state = GameState {
        variant,
        phase: if passing {
            Phase::Passing
        } else {
            Phase::Playing
        },
        hands,
        taken: new_piles(),
        trick: Vec::new(),
        turn: lead,
        hearts_broken: false,
        trick_number: 0,
        hand_number,
        scores: *scores,
        hand_score: None,
        pass_dir,
        pass_selections: empty_pass(),
        received_pass: Vec::new(),
        history: Vec::new(),
        winner: None,
        tied: Vec::new(),
    };
    assert(state@ =~= new_hand_view(variant, hand_number, scores@, state@.hands));
    assert forall|p: int| 0 <= p < 4 implies suits_valid(#[trigger] state@.hands[p]) by {
        assert(state@.hands[p] == state.hands@[p]@);
    }
    state
}

/// A new game: hand 0, everyone at zero.
pub fn create_game(variant: VariantId, rng: &mut Rng) -> (state: GameState)
    ensures
        state@ == new_hand_view(variant, 0, seq![0i32, 0, 0, 0], state@.hands),
        dealt_from(state@.hands, dealing_deck(old(rng)@)),
        final(rng)@ == shuffled(fresh_deck(), old(rng)@).1,
        state@.wf(),
{
    let zero: [i32; 4] = [0, 0, 0, 0];
    assert(zero@ =~= seq![0i32, 0, 0, 0]);
    start_hand(variant, 0, &zero, rng)
}

pub open spec fn spec_passable(s: GameView, player: int) -> Seq<Card> {
    if spec_variant(s.variant).can_pass_queen {
        s.hands[player]
    } else {
        s.hands[player].filter(|c: Card| !spec_is_queen_of_spades(c))
    }
}

/// The cards of the seat that may be passed: all of them, or all but the
/// queen of spades where the variant keeps her.
pub fn passable_cards(state: &GameState, player: PlayerId) -> (cards: Vec<Card>)
    requires
        player < state.hands@.len(),
    ensures
        cards@ == spec_passable(state@, player as int),
{
    let v = get_variant(state.variant);
    let hand = &state.hands[player];
    assert(state@.hands[player as int] == hand@);
    if v.can_pass_queen {
        return copy_cards(hand);
    }
    let mut kept: Vec<Card> = Vec::new();
    let mut i: usize = 0;
    while i < hand.len()
        invariant
            i <= hand@.len(),
            kept@ == hand@.take(i as int).filter(|c: Card| !spec_is_queen_of_spades(c)),
        decreases hand@.len() - i,
    {
        proof {
            assert(hand@.take(i + 1) =~= hand@.take(i as int).push(hand@[i as int]));
            hand@.take(i as int).lemma_filter_push(
                hand@[i as int],
                |c: Card| !spec_is_queen_of_spades(c),
            );
        }
        if !is_queen_of_spades(hand[i]) {
            kept.push(hand[i]);
        }
        i += 1;
    }
    assert(hand@.take(hand@.len() as int) =~= hand@);
    kept
}

/// A result with the game state and the error message taken by value.
pub open spec fn result_view(r: Result<GameState, String>) -> Result<GameView, Seq<char>> {
    match r {
        Ok(state) => Ok(state@),
        Err(message) => Err(message@),
    }
}

pub open spec fn ids_of(cards: Seq<Card>) -> Seq<u8> {
    cards.map_values(|c: Card| c.id)
}

pub open spec fn distinct_ids(cards: Seq<Card>) -> bool {
    forall|i: int, j: int| 0 <= i < j < cards.len() ==> (#[trigger] cards[i]).id != (#[trigger] cards[j]).id
}

/// A card that may not go in a pass: not on the hand, or the queen of
/// spades where she must stay.
pub open spec fn unpassable(hand: Seq<Card>, c: Card, can_pass_queen: bool) -> bool {
    !holds_id(hand, c.id) || (!can_pass_queen && spec_is_queen_of_spades(c))
}

/// The first index from `i` on of a card that may not go in the pass.
pub open spec fn first_unpassable(hand: Seq<Card>, cards: Seq<Card>, can_pass_queen: bool, i: int) -> Option<int>
    decreases cards.len() - i,
{
    if i < 0 || i >= cards.len() {
        None
    } else if unpassable(hand, cards[i], can_pass_queen) {
        Some(i)
    } else {
        first_unpassable(hand, cards, can_pass_queen, i + 1)
    }
}

/// The message `set_pass_selection` answers with, if any.
pub open spec fn pass_selection_error(s: GameView, player: int, cards: Seq<Card>) -> Option<Seq<char>> {
    let v = spec_variant(s.variant);
    if s.phase != Phase::Passing {
        Some("Ikke i byttefase"@)
    } else if cards.len() != v.pass_count {
        Some("Velg 3 kort"@)
    } else {
        match first_unpassable(s.hands[player], cards, v.can_pass_queen, 0) {
            Some(k) => if !holds_id(s.hands[player], cards[k].id) {
                Some("Kortet er ikke på hånden"@)
            } else {
                Some("Spar dame kan ikke byttes bort"@)
            },
            None => if !distinct_ids(cards) {
                Some("Duplikat i byttet"@)
            } else {
                None
            },
        }
    }
}

proof fn lemma_first_unpassable_none(hand: Seq<Card>, cards: Seq<Card>, can_pass_queen: bool, i: int)
    requires
        0 <= i,
        first_unpassable(hand, cards, can_pass_queen, i) is None,
    ensures
        forall|k: int| i <= k < cards.len() ==> !unpassable(hand, #[trigger] cards[k], can_pass_queen),
    decreases cards.len() - i,
{
    if i < cards.len() {
        lemma_first_unpassable_none(hand, cards, can_pass_queen, i + 1);
    }
}

/// Cards accepted for a pass are cards of the hand.
pub proof fn lemma_accepted_pass_held(s: GameView, player: int, cards: Seq<Card>)
    requires
        s.wf(),
        0 <= player < 4,
        pass_selection_error(s, player, cards) is None,
    ensures
        forall|k: int| 0 <= k < cards.len() ==> s.hands[player].contains(#[trigger] cards[k]),
        suits_valid(cards),
{
    let v = spec_variant(s.variant);
    lemma_first_unpassable_none(s.hands[player], cards, v.can_pass_queen, 0);
    assert forall|k: int| 0 <= k < cards.len() implies s.hands[player].contains(#[trigger] cards[k]) by {
        assert(!unpassable(s.hands[player], cards[k], v.can_pass_queen));
        let j = choose|j: int| 0 <= j < s.hands[player].len() && (#[trigger] s.hands[player][j]).id == cards[k].id;
        assert(s.hands[player][j] == cards[k]);
    }
    assert forall|k: int| 0 <= k < cards.len() implies (#[trigger] cards[k]).suit() < 4 by {
        let j = choose|j: int| 0 <= j < s.hands[player].len() && s.hands[player][j] == cards[k];
        assert(suits_valid(s.hands[player]));
    }
}

pub open spec fn spec_set_pass_selection(s: GameView, player: int, cards: Seq<Card>) -> Result<GameView, Seq<char>> {
    match pass_selection_error(s, player, cards) {
        Some(message) => Err(message),
        None => Ok(GameView { pass_selections: s.pass_selections.update(player, Some(cards)), ..s }),
    }
}

fn has_duplicate_id(cards: &[Card]) -> (dup: bool)
    ensures
        dup == !distinct_ids(cards@),
{
    let mut i: usize = 0;
    while i < cards.len()
        invariant
            i <= cards@.len(),
            forall|a: int, b: int| 0 <= a < b < cards@.len() && a < i ==> (#[trigger] cards@[a]).id
                != (#[trigger] cards@[b]).id,
        decreases cards@.len() - i,
    {
        let mut j: usize = i + 1;
        while j < cards.len()
            invariant
                i < cards@.len(),
                i + 1 <= j <= cards@.len(),
                forall|a: int, b: int| 0 <= a < b < cards@.len() && a < i ==> (#[trigger] cards@[a]).id
                    != (#[trigger] cards@[b]).id,
                forall|b: int| i < b < j ==> cards@[i as int].id != (#[trigger] cards@[b]).id,
            decreases cards@.len() - j,
        {
            if cards[i].id == cards[j].id {
                return true;
            }
            j += 1;
        }
        i += 1;
    }
    false
}

/// Records the cards a seat will pass, after checking them.
pub fn set_pass_selection(state: &GameState, player: PlayerId, cards: &[Card]) -> (result: Result<
    GameState,
    String,
>)
    requires
        state@.wf(),
        player < 4,
    ensures
        result_view(result) == spec_set_pass_selection(state@, player as int, cards@),
        match result {
            Ok(next) => next@.wf(),
            Err(_) => true,
        },
{
    let v = get_variant(state.variant);
    if state.phase != Phase::Passing {
        return Err("Ikke i byttefase".to_owned());
    }
    if cards.len() != v.pass_count {
        // Both variants pass three cards.
        return Err("Velg 3 kort".to_owned());
    }
    let hand = &state.hands[player];
    assert(state@.hands[player as int] == hand@);
    let mut i: usize = 0;
    while i < cards.len()
        invariant
            i <= cards@.len(),
            state@.wf(),
            player < 4,
            state@.hands[player as int] == hand@,
            v == spec_variant(state.variant),
            state.phase == Phase::Passing,
            cards@.len() == v.pass_count,
            first_unpassable(hand@, cards@, v.can_pass_queen, 0) == first_unpassable(
                hand@,
                cards@,
                v.can_pass_queen,
                i as int,
            ),
        decreases cards@.len() - i,
    {
        let card = cards[i];
        let held = find_card(hand.as_slice(), card.id);
        if held.is_none() {
            return Err("Kortet er ikke på hånden".to_owned());
        }
        if !v.can_pass_queen && is_queen_of_spades(card) {
            return Err("Spar dame kan ikke byttes bort".to_owned());
        }
        i += 1;
    }
    if has_duplicate_id(cards) {
        return Err("Duplikat i byttet".to_owned());
    }
    proof {
        lemma_accepted_pass_held(state@, player as int, cards@);
    }
    let mut next = state.clone();
    let chosen = vstd::slice::slice_to_vec(cards);
    assert(chosen@ =~= cards@);
    let ghost before = next.pass_selections@;
    next.pass_selections.set(player, Some(chosen));
    assert(selections_view(next.pass_selections@) =~= selections_view(before).update(
        player as int,
        Some(cards@),
    ));
    assert(next@ =~= GameView {
        pass_selections: state@.pass_selections.update(player as int, Some(cards@)),
        ..state@
    });
    Ok(next)
}

pub open spec fn chosen(sel: Option<Seq<Card>>) -> Seq<Card> {
    match sel {
        Some(cards) => cards,
        None => Seq::empty(),
    }
}

/// Every seat has chosen as many cards as the variant passes.
pub open spec fn all_chosen(s: GameView) -> bool {
    forall|p: int|
        0 <= p < s.pass_selections.len() ==> match #[trigger] s.pass_selections[p] {
            Some(cards) => cards.len() == spec_variant(s.variant).pass_count,
            None => false,
        }
}

/// What a hand keeps of itself in a pass: every card whose id was not given.
pub open spec fn kept_after_pass(hand: Seq<Card>, giving: Seq<Card>) -> Seq<Card> {
    hand.filter(|c: Card| !ids_of(giving).contains(c.id))
}

/// The seat whose cards seat `q` receives.
pub open spec fn pass_source(q: int, dir: PassDir) -> int {
    (q + 4 - spec_pass_offset(dir)) % 4
}

/// The hand seat `q` holds after the pass, before sorting.
pub open spec fn hand_after_pass(s: GameView, q: int) -> Seq<Card> {
    kept_after_pass(s.hands[q], chosen(s.pass_selections[q])) + chosen(
        s.pass_selections[pass_source(q, s.pass_dir)],
    )
}

/// Each new hand is the sorted [`hand_after_pass`].
pub open spec fn hands_after_pass(new_hands: Seq<Seq<Card>>, s: GameView) -> bool {
    &&& new_hands.len() == 4
    &&& forall|q: int|
        0 <= q < 4 ==> is_sorted_hand(#[trigger] new_hands[q]) && new_hands[q].to_multiset()
            == hand_after_pass(s, q).to_multiset()
}

/// What `commit_pass` leaves, given the hands it sorted.
pub open spec fn commit_pass_view(s: GameView, new_hands: Seq<Seq<Card>>) -> GameView {
    GameView {
        hands: new_hands,
        received_pass: chosen(s.pass_selections[pass_source(0, s.pass_dir)]),
        pass_selections: no_passes(),
        phase: Phase::Playing,
        turn: spec_holder_of(new_hands, CLUBS, 2),
        ..s
    }
}

fn card_ids(cards: &[Card]) -> (ids: Vec<u8>)
    ensures
        ids@ == ids_of(cards@),
{
    let mut ids: Vec<u8> = Vec::new();
    let mut i: usize = 0;
    while i < cards.len()
        invariant
            i <= cards@.len(),
            ids@ == ids_of(cards@.take(i as int)),
        decreases cards@.len() - i,
    {
        ids.push(cards[i].id);
        i += 1;
        assert(ids@ =~= ids_of(cards@.take(i as int)));
    }
    assert(cards@.take(i as int) =~= cards@);
    ids
}

proof fn lemma_filter_keeps_suits(s: Seq<Card>, pred: spec_fn(Card) -> bool)
    requires
        suits_valid(s),
    ensures
        suits_valid(s.filter(pred)),
{
    assert forall|i: int| 0 <= i < s.filter(pred).len() implies (#[trigger] s.filter(pred)[i]).suit()
        < 4 by {
        s.lemma_filter_contains_rev(pred, s.filter(pred)[i]);
        assert(s.filter(pred).contains(s.filter(pred)[i]));
    }
}

/// What [`commit_pass`] answers: the state unchanged outside the passing
/// phase; play starting at once when the hand keeps its cards; a refusal
/// until every seat has chosen; else the exchanged, sorted hands.
pub open spec fn commit_outcome(s: GameView, r: Result<GameView, Seq<char>>) -> bool {
    &&& (r is Err <==> (s.phase == Phase::Passing && s.pass_dir != PassDir::Hold && !all_chosen(s)))
    &&& match r {
        Err(message) => message == "Alle spillere må velge kort før byttet"@,
        Ok(next) => if s.phase != Phase::Passing {
            next == s
        } else if s.pass_dir == PassDir::Hold {
            next == (GameView {
                phase: Phase::Playing,
                turn: spec_holder_of(s.hands, CLUBS, 2),
                ..s
            })
        } else {
            &&& hands_after_pass(next.hands, s)
            &&& next == commit_pass_view(s, next.hands)
        },
    }
}

/// A copy of the chosen cards, or no cards.
fn selection_cards(sel: &Option<Vec<Card>>) -> (cards: Vec<Card>)
    ensures
        cards@ == chosen(
            match sel {
                Some(v) => Some(v@),
                None => None,
            },
        ),
{
    match sel {
        Some(v) => copy_cards(v),
        None => Vec::new(),
    }
}

/// Exchanges the chosen cards once every seat has chosen.
pub fn commit_pass(state: &GameState) -> (result: Result<GameState, String>)
    requires
        state@.wf(),
    ensures
        commit_outcome(state@, result_view(result)),
        match result {
            Ok(next) => next@.wf(),
            Err(_) => true,
        },
{
    let v = get_variant(state.variant);
    if state.phase != Phase::Passing {
        return Ok(state.clone());
    }
    if state.pass_dir == PassDir::Hold {
        let mut next = state.clone();
        next.phase = Phase::Playing;
        next.turn = holder_of(state.hands.as_slice(), CLUBS, 2);
        assert(next@ =~= GameView {
            phase: Phase::Playing,
            turn: spec_holder_of(state@.hands, CLUBS, 2),
            ..state@
        });
        return Ok(next);
    }
    let mut p: usize = 0;
    while p < state.pass_selections.len()
        invariant
            p <= state.pass_selections@.len(),
            v == spec_variant(state.variant),
            state@.wf(),
            state.phase == Phase::Passing,
            state.pass_dir != PassDir::Hold,
            forall|k: int|
                0 <= k < p ==> match #[trigger] state@.pass_selections[k] {
                    Some(cards) => cards.len() == v.pass_count,
                    None => false,
                },
        decreases state.pass_selections@.len() - p,
    {
        assert(state@.pass_selections[p as int] == match state.pass_selections@[p as int] {
            Some(c) => Some(c@),
            None => None,
        });
        let complete = match &state.pass_selections[p] {
            Some(cards) => cards.len() == v.pass_count,
            None => false,
        };
        if !complete {
            assert(!match state@.pass_selections[p as int] {
                Some(cards) => cards.len() == spec_variant(state@.variant).pass_count,
                None => false,
            });
            return Err("Alle spillere må velge kort før byttet".to_owned());
        }
        p += 1;
    }
    let offset = pass_offset(state.pass_dir);
    let mut next_hands: Vec<Vec<Card>> = Vec::new();
    let mut q: usize = 0;
    while q < 4
        invariant
            q <= 4,
            state@.wf(),
            state.phase == Phase::Passing,
            state.pass_dir != PassDir::Hold,
            offset == spec_pass_offset(state.pass_dir),
            all_chosen(state@),
            next_hands@.len() == q,
            forall|k: int|
                0 <= k < q ==> is_sorted_hand(#[trigger] next_hands@[k]@) && next_hands@[k]@.to_multiset()
                    == hand_after_pass(state@, k).to_multiset() && suits_valid(next_hands@[k]@),
        decreases 4 - q,
    {
        let src = (q + 4 - offset) % 4;
        assert(src as int == pass_source(q as int, state.pass_dir));
        let giving = selection_cards(&state.pass_selections[q]);
        let ids = card_ids(giving.as_slice());
        let mut merged = without_cards(state.hands[q].as_slice(), ids.as_slice());
        let mut incoming = selection_cards(&state.pass_selections[src]);
        proof {
            assert(giving@ == chosen(state@.pass_selections[q as int]));
            assert(incoming@ == chosen(state@.pass_selections[src as int]));
            assert(state@.hands[q as int] == state.hands@[q as int]@);
            lemma_filter_keeps_suits(
                state@.hands[q as int],
                |c: Card| !ids_of(chosen(state@.pass_selections[q as int])).contains(c.id),
            );
        }
        merged.append(&mut incoming);
        assert(merged@ =~= hand_after_pass(state@, q as int));
        assert(suits_valid(merged@));
        sort_hand(&mut merged);
        next_hands.push(merged);
        q += 1;
    }
    let received = selection_cards(&state.pass_selections[(4 - offset) % 4]);
    let mut next = state.clone();
    next.hands = next_hands;
    next.received_pass = received;
    next.pass_selections = empty_pass();
    next.phase = Phase::Playing;
    next.turn = holder_of(next.hands.as_slice(), CLUBS, 2);
    proof {
        assert forall|k: int| 0 <= k < 4 implies next@.hands[k] == next.hands@[k]@ by {}
        assert(hands_after_pass(next@.hands, state@));
        assert(next@ =~= commit_pass_view(state@, next@.hands));
    }
    Ok(next)
}

/// Which cards a filter keeps.
#[derive(Debug, Clone, Copy, PartialEq, Eq, Structural)]
pub enum CardRule {
    NotHeart,
    OfSuit(Suit),
    NotPenalty,
    NotId(u8),
    Scoring(VariantId),
    SuitAtLeast(Suit, Rank),
    SuitBelow(Suit, Rank),
    SuitAbove(Suit, Rank),
}

pub open spec fn keeps(rule: CardRule, c: Card) -> bool {
    match rule {
        CardRule::NotHeart => !spec_is_heart(c),
        CardRule::OfSuit(suit) => c.suit() == suit,
        CardRule::NotPenalty => !spec_is_penalty(c),
        CardRule::NotId(id) => c.id != id,
        CardRule::Scoring(variant) => spec_card_points(c, variant) != 0,
        CardRule::SuitAtLeast(suit, rank) => c.suit() == suit && c.rank() >= rank,
        CardRule::SuitBelow(suit, rank) => c.suit() == suit && c.rank() < rank,
        CardRule::SuitAbove(suit, rank) => c.suit() == suit && c.rank() > rank,
    }
}

/// The cards of `cards` that the rule keeps, in order.
pub open spec fn kept(cards: Seq<Card>, rule: CardRule) -> Seq<Card> {
    cards.filter(|c: Card| keeps(rule, c))
}

fn rule_keeps(rule: CardRule, c: Card) -> (keep: bool)
    ensures
        keep == keeps(rule, c),
{
    match rule {
        CardRule::NotHeart => !is_heart(c),
        CardRule::OfSuit(suit) => c.suit() == suit,
        CardRule::NotPenalty => !is_penalty(c),
        CardRule::NotId(id) => c.id != id,
        CardRule::Scoring(variant) => card_points(c, variant) != 0,
        CardRule::SuitAtLeast(suit, rank) => c.suit() == suit && c.rank() >= rank,
        CardRule::SuitBelow(suit, rank) => c.suit() == suit && c.rank() < rank,
        CardRule::SuitAbove(suit, rank) => c.suit() == suit && c.rank() > rank,
    }
}

/// The cards that the rule keeps, in order.
pub fn filter_cards(cards: &[Card], rule: CardRule) -> (out: Vec<Card>)
    ensures
        out@ == kept(cards@, rule),
{
    let mut out: Vec<Card> = Vec::new();
    let mut i: usize = 0;
    while i < cards.len()
        invariant
            i <= cards@.len(),
            out@ == kept(cards@.take(i as int), rule),
        decreases cards@.len() - i,
    {
        proof {
            assert(cards@.take(i + 1) =~= cards@.take(i as int).push(cards@[i as int]));
            cards@.take(i as int).lemma_filter_push(cards@[i as int], |c: Card| keeps(rule, c));
        }
        if rule_keeps(rule, cards[i]) {
            out.push(cards[i]);
        }
        i += 1;
    }
    assert(cards@.take(cards@.len() as int) =~= cards@);
    out
}

/// A kept card is a card of the sequence.
pub proof fn lemma_kept_contains(cards: Seq<Card>, rule: CardRule, i: int)
    requires
        0 <= i < kept(cards, rule).len(),
    ensures
        cards.contains(kept(cards, rule)[i]),
        keeps(rule, kept(cards, rule)[i]),
{
    cards.lemma_filter_contains_rev(|c: Card| keeps(rule, c), kept(cards, rule)[i]);
    assert(kept(cards, rule).contains(kept(cards, rule)[i]));
    broadcast use vstd::seq_lib::group_filter_ensures;

}

/// The cards the seat may play now.
pub open spec fn spec_legal_moves(s: GameView, player: int) -> Seq<Card> {
    if s.phase != Phase::Playing || s.turn != player {
        Seq::empty()
    } else {
        let hand = s.hands[player];
        if hand.len() == 0 {
            Seq::empty()
        } else if s.trick.len() == 0 {
            if s.trick_number == 0 && has_card(hand, CLUBS, 2) {
                seq![Card { id: 2 }]
            } else if !s.hearts_broken && kept(hand, CardRule::NotHeart).len() > 0 {
                kept(hand, CardRule::NotHeart)
            } else {
                hand
            }
        } else {
            let following = kept(hand, CardRule::OfSuit(s.trick[0].card.suit()));
            if following.len() > 0 {
                following
            } else if s.trick_number == 0 && kept(hand, CardRule::NotPenalty).len() > 0 {
                kept(hand, CardRule::NotPenalty)
            } else {
                hand
            }
        }
    }
}

/// The two of clubs leads the first trick; hearts are not led before they
/// are broken unless nothing else is held; suit must be followed; no
/// penalty card falls on the first trick unless nothing else is held.
pub fn legal_moves(state: &GameState, player: PlayerId) -> (moves: Vec<Card>)
    requires
        state@.wf(),
    ensures
        moves@ == spec_legal_moves(state@, player as int),
{
    if state.phase != Phase::Playing {
        return Vec::new();
    }
    if state.turn != player {
        return Vec::new();
    }
    let hand = &state.hands[player];
    assert(state@.hands[player as int] == hand@);
    if hand.len() == 0 {
        return Vec::new();
    }
    if state.trick.len() == 0 {
        if state.trick_number == 0 {
            if holds_card(hand.as_slice(), CLUBS, 2) {
                let two = Card::new(CLUBS, 2);
                let mut only = Vec::new();
                only.push(two);
                assert(only@ =~= seq![Card { id: 2 }]);
                return only;
            }
        }
        if !state.hearts_broken {
            let non_hearts = filter_cards(hand.as_slice(), CardRule::NotHeart);
            if non_hearts.len() > 0 {
                return non_hearts;
            }
        }
        return copy_cards(hand);
    }
    let lead_suit = state.trick[0].card.suit();
    let matching = filter_cards(hand.as_slice(), CardRule::OfSuit(lead_suit));
    if matching.len() > 0 {
        return matching;
    }
    if state.trick_number == 0 {
        let safe = filter_cards(hand.as_slice(), CardRule::NotPenalty);
        if safe.len() > 0 {
            return safe;
        }
    }
    copy_cards(hand)
}

/// Every legal move is a card of the seat's hand.
pub proof fn lemma_legal_moves_held(s: GameView, player: int, i: int)
    requires
        s.wf(),
        0 <= i < spec_legal_moves(s, player).len(),
    ensures
        s.hands[player].contains(spec_legal_moves(s, player)[i]),
{
    let hand = s.hands[player];
    let c = spec_legal_moves(s, player)[i];
    if s.trick.len() == 0 {
        if s.trick_number == 0 && has_card(hand, CLUBS, 2) {
            let k = choose|k: int| 0 <= k < hand.len() && (#[trigger] hand[k]).suit() == CLUBS && hand[k].rank() == 2;
            assert(hand[k].id == 2);
            assert(hand[k] == c);
        } else if !s.hearts_broken && kept(hand, CardRule::NotHeart).len() > 0 {
            lemma_kept_contains(hand, CardRule::NotHeart, i);
        } else {
            assert(hand[i] == c);
        }
    } else {
        let lead = s.trick[0].card.suit();
        if kept(hand, CardRule::OfSuit(lead)).len() > 0 {
            lemma_kept_contains(hand, CardRule::OfSuit(lead), i);
        } else if s.trick_number == 0 && kept(hand, CardRule::NotPenalty).len() > 0 {
            lemma_kept_contains(hand, CardRule::NotPenalty, i);
        } else {
            assert(hand[i] == c);
        }
    }
}

/// A seat on turn in the playing phase with cards has a legal move.
pub proof fn lemma_legal_moves_nonempty(s: GameView, player: int)
    requires
        s.wf(),
    ensures
        s.phase == Phase::Playing && s.turn == player && s.hands[player].len() > 0 ==> spec_legal_moves(
            s,
            player,
        ).len() > 0,
{
}

pub open spec fn legal_id(s: GameView, player: int, card_id: u8) -> bool {
    holds_id(spec_legal_moves(s, player), card_id)
}

pub fn is_legal_play(state: &GameState, player: PlayerId, card_id: u8) -> (legal: bool)
    requires
        state@.wf(),
    ensures
        legal == legal_id(state@, player as int, card_id),
{
    let moves = legal_moves(state, player);
    find_card(moves.as_slice(), card_id).is_some()
}

/// The index of the highest card of the led suit among the first `k` plays.
pub open spec fn best_play_index(plays: Seq<Play>, k: int) -> int
    decreases k,
{
    if k <= 1 {
        0
    } else {
        let b = best_play_index(plays, k - 1);
        let p = plays[k - 1];
        if p.card.suit() == plays[0].card.suit() && p.card.rank() > plays[b].card.rank() {
            k - 1
        } else {
            b
        }
    }
}

pub open spec fn spec_trick_winner(plays: Seq<Play>) -> PlayerId {
    plays[best_play_index(plays, plays.len() as int)].player
}

proof fn lemma_best_play_index_bounds(plays: Seq<Play>, k: int)
    requires
        1 <= k <= plays.len(),
    ensures
        0 <= best_play_index(plays, k) < k,
    decreases k,
{
    if k > 1 {
        lemma_best_play_index_bounds(plays, k - 1);
    }
}

/// The seat that played the highest card of the suit led.
pub fn trick_winner(plays: &[Play]) -> (winner: PlayerId)
    requires
        plays@.len() > 0,
    ensures
        winner == spec_trick_winner(plays@),
        exists|i: int| 0 <= i < plays@.len() && (#[trigger] plays@[i]).player == winner,
{
    let lead_suit = plays[0].card.suit();
    let mut best: usize = 0;
    let mut i: usize = 1;
    while i < plays.len()
        invariant
            1 <= i <= plays@.len(),
            lead_suit == plays@[0].card.suit(),
            best as int == best_play_index(plays@, i as int),
            best < i,
        decreases plays@.len() - i,
    {
        if plays[i].card.suit() == lead_suit && plays[i].card.rank() > plays[best].card.rank() {
            best = i;
        }
        i += 1;
    }
    plays[best].player
}

pub open spec fn spec_play_card(s: GameView, player: int, card_id: u8) -> Result<GameView, Seq<char>> {
    if !legal_id(s, player, card_id) {
        Err("Ulovlig trekk"@)
    } else if !holds_id(s.hands[player], card_id) {
        Err("Kortet er ikke på hånden"@)
    } else {
        let card = Card { id: card_id };
        let trick = s.trick.push(Play { player: player as PlayerId, card });
        let base = GameView {
            hands: s.hands.update(player, kept(s.hands[player], CardRule::NotId(card_id))),
            trick,
            hearts_broken: s.hearts_broken || spec_is_heart(card),
            ..s
        };
        if trick.len() < 4 {
            Ok(GameView { turn: ((player + 1) % 4) as PlayerId, ..base })
        } else {
            Ok(GameView { phase: Phase::TrickEnd, ..base })
        }
    }
}

proof fn lemma_kept_keeps_suits(cards: Seq<Card>, rule: CardRule)
    requires
        suits_valid(cards),
    ensures
        suits_valid(kept(cards, rule)),
{
    assert forall|i: int| 0 <= i < kept(cards, rule).len() implies (#[trigger] kept(
        cards,
        rule,
    )[i]).suit() < 4 by {
        lemma_kept_contains(cards, rule, i);
    }
}

/// Plays a card for the seat: accepted exactly when it is a legal move.
pub fn play_card(state: &GameState, player: PlayerId, card_id: u8) -> (result: Result<GameState, String>)
    requires
        state@.wf(),
    ensures
        result_view(result) == spec_play_card(state@, player as int, card_id),
        result is Ok <==> legal_id(state@, player as int, card_id),
        match result {
            Ok(next) => next@.wf(),
            Err(_) => true,
        },
{
    if !is_legal_play(state, player, card_id) {
        return Err("Ulovlig trekk".to_owned());
    }
    proof {
        let moves = spec_legal_moves(state@, player as int);
        let k = choose|k: int| 0 <= k < moves.len() && (#[trigger] moves[k]).id == card_id;
        lemma_legal_moves_held(state@, player as int, k);
        let hand = state@.hands[player as int];
        let j = choose|j: int| 0 <= j < hand.len() && hand[j] == moves[k];
        assert(hand[j].id == card_id);
    }
    let card = match find_card(state.hands[player].as_slice(), card_id) {
        Some(c) => c,
        None => {
            return Err("Kortet er ikke på hånden".to_owned());
        },
    };
    let mut hands: Vec<Vec<Card>> = Vec::new();
    let mut i: usize = 0;
    while i < state.hands.len()
        invariant
            i <= state.hands@.len(),
            player < 4,
            state@.wf(),
            hands@.len() == i,
            forall|k: int|
                0 <= k < i ==> (#[trigger] hands@[k])@ == if k == player {
                    kept(state@.hands[k], CardRule::NotId(card_id))
                } else {
                    state@.hands[k]
                },
        decreases state.hands@.len() - i,
    {
        assert(state@.hands[i as int] == state.hands@[i as int]@);
        if i == player {
            hands.push(filter_cards(state.hands[i].as_slice(), CardRule::NotId(card_id)));
        } else {
            hands.push(copy_cards(&state.hands[i]));
        }
        i += 1;
    }
    let mut trick = state.trick.clone();
    assert(trick@ =~= state.trick@);
    trick.push(Play { player, card });
    let broken = state.hearts_broken || is_heart(card);
    let mut next = state.clone();
    let ghost new_hands = state@.hands.update(
        player as int,
        kept(state@.hands[player as int], CardRule::NotId(card_id)),
    );
    assert(piles_view(hands@) =~= new_hands);
    proof {
        lemma_kept_keeps_suits(state@.hands[player as int], CardRule::NotId(card_id));
    }
    if trick.len() < 4 {
        next.hands = hands;
        next.trick = trick;
        next.turn = next_player(player);
        next.hearts_broken = broken;
        return Ok(next);
    }
    next.hands = hands;
    next.trick = trick;
    next.hearts_broken = broken;
    next.phase = Phase::TrickEnd;
    Ok(next)
}

/// The most cards a pile may hold for its points to fit an `i32`.
pub open spec fn pile_limit() -> int {
    21_474_836
}

/// The points of the cards, as an unbounded integer.
pub open spec fn points_sum(cards: Seq<Card>, variant_id: VariantId) -> int
    decreases cards.len(),
{
    if cards.len() == 0 {
        0
    } else {
        points_sum(cards.drop_last(), variant_id) + spec_card_points(cards.last(), variant_id)
    }
}

proof fn lemma_points_sum_bounds(cards: Seq<Card>, variant_id: VariantId)
    ensures
        -100 * cards.len() <= points_sum(cards, variant_id) <= 100 * cards.len(),
    decreases cards.len(),
{
    if cards.len() > 0 {
        lemma_points_sum_bounds(cards.drop_last(), variant_id);
    }
}

/// The points of a pile of taken cards.
pub fn taken_points(taken: &[Card], variant_id: VariantId) -> (points: i32)
    requires
        taken@.len() <= pile_limit(),
    ensures
        points == points_sum(taken@, variant_id),
{
    let mut sum: i32 = 0;
    let mut i: usize = 0;
    while i < taken.len()
        invariant
            i <= taken@.len(),
            taken@.len() <= pile_limit(),
            sum == points_sum(taken@.take(i as int), variant_id),
        decreases taken@.len() - i,
    {
        proof {
            assert(taken@.take(i + 1).drop_last() =~= taken@.take(i as int));
            lemma_points_sum_bounds(taken@.take(i + 1), variant_id);
        }
        sum = sum + card_points(taken[i], variant_id);
        i += 1;
    }
    assert(taken@.take(taken@.len() as int) =~= taken@);
    sum
}

pub open spec fn holds_queen(cards: Seq<Card>) -> bool {
    exists|i: int| 0 <= i < cards.len() && spec_is_queen_of_spades(#[trigger] cards[i])
}

pub open spec fn holds_jack(cards: Seq<Card>) -> bool {
    exists|i: int| 0 <= i < cards.len() && spec_is_jack_of_diamonds(#[trigger] cards[i])
}

/// Thirteen hearts and the queen of spades.
pub open spec fn spec_has_shot_the_moon(taken: Seq<Card>) -> bool {
    kept(taken, CardRule::OfSuit(HEARTS)).len() == 13 && holds_queen(taken)
}

pub fn holds_queen_exec(cards: &[Card]) -> (found: bool)
    ensures
        found == holds_queen(cards@),
{
    let mut i: usize = 0;
    while i < cards.len()
        invariant
            i <= cards@.len(),
            forall|k: int| 0 <= k < i ==> !spec_is_queen_of_spades(#[trigger] cards@[k]),
        decreases cards@.len() - i,
    {
        if is_queen_of_spades(cards[i]) {
            return true;
        }
        i += 1;
    }
    false
}

pub fn holds_jack_exec(cards: &[Card]) -> (found: bool)
    ensures
        found == holds_jack(cards@),
{
    let mut i: usize = 0;
    while i < cards.len()
        invariant
            i <= cards@.len(),
            forall|k: int| 0 <= k < i ==> !spec_is_jack_of_diamonds(#[trigger] cards@[k]),
        decreases cards@.len() - i,
    {
        if is_jack_of_diamonds(cards[i]) {
            return true;
        }
        i += 1;
    }
    false
}

/// Whether the pile holds every heart and the queen of spades.
pub fn has_shot_the_moon(taken: &[Card]) -> (moon: bool)
    ensures
        moon == spec_has_shot_the_moon(taken@),
{
    let hearts = filter_cards(taken, CardRule::OfSuit(HEARTS)).len();
    let queen = holds_queen_exec(taken);
    hearts == 13 && queen
}

/// The first of the four seats whose pile shot the moon.
pub open spec fn moon_seat(piles: Seq<Seq<Card>>) -> Option<PlayerId> {
    if spec_has_shot_the_moon(piles[0]) {
        Some(0)
    } else if spec_has_shot_the_moon(piles[1]) {
        Some(1)
    } else if spec_has_shot_the_moon(piles[2]) {
        Some(2)
    } else if spec_has_shot_the_moon(piles[3]) {
        Some(3)
    } else {
        None
    }
}

/// The first of the four seats whose pile holds the jack of diamonds.
pub open spec fn jack_seat(piles: Seq<Seq<Card>>) -> Option<PlayerId> {
    if holds_jack(piles[0]) {
        Some(0)
    } else if holds_jack(piles[1]) {
        Some(1)
    } else if holds_jack(piles[2]) {
        Some(2)
    } else if holds_jack(piles[3]) {
        Some(3)
    } else {
        None
    }
}

/// Points after a shot moon: the shooter keeps only the jack of diamonds
/// (where it counts and the shooter took it), the others score the variant's
/// moon penalty.
pub open spec fn moon_points(v: Variant, moon: PlayerId, jack: Option<PlayerId>, p: int) -> i32 {
    if p == moon {
        if v.jack_diamonds != 0 && jack == Some(moon) {
            v.jack_diamonds
        } else {
            0
        }
    } else {
        v.moon_others
    }
}

/// The score of a hand from the four piles taken.
pub open spec fn spec_score_from_taken(piles: Seq<Seq<Card>>, variant_id: VariantId) -> HandScoreView {
    let raw = Seq::new(4, |p: int| points_sum(piles[p], variant_id) as i32);
    let moon = moon_seat(piles);
    let jack = jack_seat(piles);
    HandScoreView {
        raw,
        applied: match moon {
            None => raw,
            Some(m) => Seq::new(4, |p: int| moon_points(spec_variant(variant_id), m, jack, p)),
        },
        moon,
        jack_holder: jack,
    }
}

pub open spec fn piles_fit(piles: Seq<Seq<Card>>) -> bool {
    forall|p: int| 0 <= p < 4 ==> (#[trigger] piles[p]).len() <= pile_limit()
}

/// Scores a hand from the four piles of taken cards.
pub fn score_from_taken(taken: &[Vec<Card>], variant_id: VariantId) -> (score: HandScore)
    requires
        taken@.len() >= 4,
        piles_fit(piles_view(taken@)),
    ensures
        score@ == spec_score_from_taken(piles_view(taken@), variant_id),
{
    let ghost piles = piles_view(taken@);
    assert(piles[0] == taken@[0]@ && piles[1] == taken@[1]@ && piles[2] == taken@[2]@ && piles[3]
        == taken@[3]@);
    assert(taken@[0]@.len() <= pile_limit() && taken@[1]@.len() <= pile_limit() && taken@[2]@.len()
        <= pile_limit() && taken@[3]@.len() <= pile_limit());
    let raw: [i32; 4] = [
        taken_points(taken[0].as_slice(), variant_id),
        taken_points(taken[1].as_slice(), variant_id),
        taken_points(taken[2].as_slice(), variant_id),
        taken_points(taken[3].as_slice(), variant_id),
    ];
    let moon = if has_shot_the_moon(taken[0].as_slice()) {
        Some(0usize)
    } else if has_shot_the_moon(taken[1].as_slice()) {
        Some(1usize)
    } else if has_shot_the_moon(taken[2].as_slice()) {
        Some(2usize)
    } else if has_shot_the_moon(taken[3].as_slice()) {
        Some(3usize)
    } else {
        None
    };
    let jack_holder = if holds_jack_exec(taken[0].as_slice()) {
        Some(0usize)
    } else if holds_jack_exec(taken[1].as_slice()) {
        Some(1usize)
    } else if holds_jack_exec(taken[2].as_slice()) {
        Some(2usize)
    } else if holds_jack_exec(taken[3].as_slice()) {
        Some(3usize)
    } else {
        None
    };
    let mut applied = raw;
    if let Some(m) = moon {
        let v = get_variant(variant_id);
        let mut p: usize = 0;
        while p < 4
            invariant
                p <= 4,
                m < 4,
                v == spec_variant(variant_id),
                applied@.len() == 4,
                forall|k: int| 0 <= k < p ==> applied@[k] == moon_points(v, m, jack_holder, k),
            decreases 4 - p,
        {
            if p == m {
                let jack = if v.jack_diamonds != 0 && jack_holder == Some(m) {
                    v.jack_diamonds
                } else {
                    0
                };
                applied[p] = jack;
            } else {
                applied[p] = v.moon_others;
            }
            p += 1;
        }
    }
    let score = HandScore { raw, applied, moon, jack_holder };
    assert(score@ =~= spec_score_from_taken(piles, variant_id));
    score
}

/// The piles once the trick's cards go to its winner.
pub open spec fn taken_after_trick(s: GameView) -> Seq<Seq<Card>> {
    let w = spec_trick_winner(s.trick);
    s.taken.update(w as int, s.taken[w as int] + s.trick.map_values(|p: Play| p.card))
}

/// The running scores after adding the hand's applied points.
pub open spec fn scores_after_hand(scores: Seq<i32>, hand: HandScoreView) -> Seq<i32> {
    Seq::new(4, |i: int| (scores[i] + hand.applied[i]) as i32)
}

pub open spec fn min_of_four(s: Seq<i32>) -> i32 {
    let a = if s[0] <= s[1] {
        s[0]
    } else {
        s[1]
    };
    let b = if a <= s[2] {
        a
    } else {
        s[2]
    };
    if b <= s[3] {
        b
    } else {
        s[3]
    }
}

/// The seats, in order, whose score is lowest.
pub open spec fn lowest_seats(s: Seq<i32>) -> Seq<PlayerId> {
    Seq::new(4, |i: int| i as PlayerId).filter(|p: PlayerId| s[p as int] == min_of_four(s))
}

/// No arithmetic of [`resolve_trick`] leaves its type.
pub open spec fn resolve_fits(s: GameView) -> bool {
    s.phase == Phase::TrickEnd && s.trick.len() == 4 ==> {
        &&& s.trick_number < usize::MAX
        &&& forall|p: int| 0 <= p < 4 ==> (#[trigger] s.taken[p]).len() + 4 <= pile_limit()
        &&& s.trick_number >= 12 ==> forall|i: int|
            0 <= i < 4 ==> i32::MIN <= s.scores[i] + (#[trigger] spec_score_from_taken(
                taken_after_trick(s),
                s.variant,
            ).applied[i]) <= i32::MAX
    }
}

/// The state after a full trick is gathered: the winner takes the cards and
/// leads next; after the thirteenth trick the hand is scored and the game
/// ends once someone reaches the limit, the lowest total winning.
pub open spec fn spec_resolve_trick(s: GameView) -> GameView {
    if s.phase != Phase::TrickEnd || s.trick.len() != 4 {
        s
    } else {
        let w = spec_trick_winner(s.trick);
        let base = GameView {
            taken: taken_after_trick(s),
            history: s.history.push((s.trick, w)),
            trick: Seq::empty(),
            trick_number: (s.trick_number + 1) as usize,
            ..s
        };
        if s.trick_number < 12 {
            GameView { phase: Phase::Playing, turn: w, ..base }
        } else {
            let hand = spec_score_from_taken(taken_after_trick(s), s.variant);
            let scores = scores_after_hand(s.scores, hand);
            let scored = GameView { scores, hand_score: Some(hand), ..base };
            if !(exists|i: int| 0 <= i < 4 && #[trigger] scores[i] >= spec_variant(s.variant).game_limit) {
                GameView { phase: Phase::HandEnd, ..scored }
            } else {
                let tied = lowest_seats(scores);
                GameView { phase: Phase::GameOver, winner: Some(tied[0]), tied, ..scored }
            }
        }
    }
}

/// Whether [`resolve_trick`] may gather the trick: the trick count, the
/// winner's pile and, after the last trick, every total stay within their
/// types.
pub fn can_resolve(state: &GameState) -> (fits: bool)
    requires
        state@.wf(),
    ensures
        fits == resolve_fits(state@),
{
    if state.phase != Phase::TrickEnd || state.trick.len() != 4 {
        return true;
    }
    if state.trick_number == usize::MAX {
        return false;
    }
    let mut p: usize = 0;
    while p < 4
        invariant
            p <= 4,
            state@.wf(),
            state.phase == Phase::TrickEnd,
            state.trick@.len() == 4,
            forall|q: int| 0 <= q < p ==> (#[trigger] state@.taken[q]).len() + 4 <= pile_limit(),
        decreases 4 - p,
    {
        assert(state@.taken[p as int] == state.taken@[p as int]@);
        if state.taken[p].len() > 21_474_832 {
            assert(!(state@.taken[p as int].len() + 4 <= pile_limit()));
            return false;
        }
        p += 1;
    }
    if state.trick_number < 12 {
        return true;
    }
    let winner = trick_winner(state.trick.as_slice());
    proof {
        lemma_trick_winner_highest(state@.trick, 4);
    }
    let taken = gather_trick(state, winner);
    proof {
        assert forall|q: int| 0 <= q < 4 implies (#[trigger] piles_view(taken@)[q]).len() <= pile_limit() by {
            assert(piles_view(taken@)[q] == taken_after_trick(state@)[q]);
        }
    }
    let hand = score_from_taken(taken.as_slice(), state.variant);
    let mut k: usize = 0;
    while k < 4
        invariant
            k <= 4,
            hand@ == spec_score_from_taken(taken_after_trick(state@), state.variant),
            hand@.applied == hand.applied@,
            state@.scores == state.scores@,
            state.phase == Phase::TrickEnd,
            state.trick@.len() == 4,
            state.trick_number >= 12,
            forall|j: int|
                0 <= j < k ==> i32::MIN <= state@.scores[j] + (#[trigger] spec_score_from_taken(
                    taken_after_trick(state@),
                    state.variant,
                ).applied[j]) <= i32::MAX,
        decreases 4 - k,
    {
        let total = state.scores[k] as i64 + hand.applied[k] as i64;
        if total < -2147483648i64 || total > 2147483647i64 {
            assert(!(i32::MIN <= state@.scores[k as int] + spec_score_from_taken(
                taken_after_trick(state@),
                state.variant,
            ).applied[k as int] <= i32::MAX));
            return false;
        }
        k += 1;
    }
    true
}

/// The piles once the full trick on the table goes to its winner.
fn gather_trick(state: &GameState, winner: PlayerId) -> (taken: Vec<Vec<Card>>)
    requires
        state@.wf(),
        state.trick@.len() == 4,
        winner == spec_trick_winner(state@.trick),
        winner < 4,
    ensures
        piles_view(taken@) == taken_after_trick(state@),
        taken@.len() == 4,
{
    let ghost taken_spec = taken_after_trick(state@);
    let mut taken: Vec<Vec<Card>> = Vec::new();
    let mut i: usize = 0;
    while i < state.taken.len()
        invariant
            i <= state.taken@.len(),
            state@.wf(),
            winner == spec_trick_winner(state@.trick),
            winner < 4,
            state.trick@.len() == 4,
            taken_spec == taken_after_trick(state@),
            taken@.len() == i,
            forall|k: int| 0 <= k < i ==> (#[trigger] taken@[k])@ == taken_spec[k],
        decreases state.taken@.len() - i,
    {
        assert(state@.taken[i as int] == state.taken@[i as int]@);
        let mut pile = copy_cards(&state.taken[i]);
        if i == winner {
            let mut j: usize = 0;
            let ghost start = pile@;
            while j < 4
                invariant
                    j <= 4,
                    state.trick@.len() == 4,
                    pile@ == start + state.trick@.take(j as int).map_values(|p: Play| p.card),
                decreases 4 - j,
            {
                pile.push(state.trick[j].card);
                j += 1;
                assert(pile@ =~= start + state.trick@.take(j as int).map_values(|p: Play| p.card));
            }
            assert(state.trick@.take(4) =~= state.trick@);
        }
        taken.push(pile);
        i += 1;
    }
    assert(piles_view(taken@) =~= taken_spec);
    taken
}

pub fn resolve_trick(state: &GameState) -> (next: GameState)
    requires
        state@.wf(),
        resolve_fits(state@),
    ensures
        next@ == spec_resolve_trick(state@),
        next@.wf(),
{
    if state.phase != Phase::TrickEnd || state.trick.len() != 4 {
        return state.clone();
    }
    let winner = trick_winner(state.trick.as_slice());
    proof {
        lemma_trick_winner_highest(state@.trick, 4);
    }
    let taken = gather_trick(state, winner);
    let ghost taken_spec = taken_after_trick(state@);
    let mut history = copy_history(&state.history);
    let plays = state.trick.clone();
    assert(plays@ =~= state.trick@);
    history.push(TrickRecord { plays, winner });
    assert(history_view(history@) =~= state@.history.push((state@.trick, winner)));
    let last_trick = state.trick_number >= 12;
    let mut next = state.clone();
    next.taken = taken;
    next.history = history;
    next.trick = Vec::new();
    next.trick_number = state.trick_number + 1;
    if !last_trick {
        next.phase = Phase::Playing;
        next.turn = winner;
        return next;
    }
    assert forall|p: int| 0 <= p < 4 implies (#[trigger] next@.taken[p]).len() <= pile_limit() by {
        assert(next@.taken[p] == taken_spec[p]);
        assert(state@.taken[p].len() + 4 <= pile_limit());
    }
    let hand_score = score_from_taken(next.taken.as_slice(), state.variant);
    let mut scores = state.scores;
    let mut k: usize = 0;
    while k < 4
        invariant
            k <= 4,
            scores@.len() == 4,
            state@.wf(),
            resolve_fits(state@),
            state.phase == Phase::TrickEnd,
            state.trick@.len() == 4,
            state.trick_number >= 12,
            hand_score@ == spec_score_from_taken(taken_after_trick(state@), state.variant),
            forall|j: int| 0 <= j < k ==> scores@[j] == state.scores@[j] + hand_score@.applied[j],
            forall|j: int| k <= j < 4 ==> scores@[j] == state.scores@[j],
        decreases 4 - k,
    {
        assert(i32::MIN <= state@.scores[k as int] + spec_score_from_taken(
            taken_after_trick(state@),
            state.variant,
        ).applied[k as int] <= i32::MAX);
        scores[k] = scores[k] + hand_score.applied[k];
        k += 1;
    }
    assert(scores@ =~= scores_after_hand(state@.scores, hand_score@));
    next.scores = scores;
    next.hand_score = Some(hand_score);
    let v = get_variant(state.variant);
    let mut over = false;
    let mut k: usize = 0;
    while k < 4
        invariant
            k <= 4,
            over == exists|j: int| 0 <= j < k && #[trigger] scores@[j] >= v.game_limit,
        decreases 4 - k,
    {
        if scores[k] >= v.game_limit {
            over = true;
        }
        k += 1;
    }
    if !over {
        next.phase = Phase::HandEnd;
        return next;
    }
    let mut min = scores[0];
    if scores[1] < min {
        min = scores[1];
    }
    if scores[2] < min {
        min = scores[2];
    }
    if scores[3] < min {
        min = scores[3];
    }
    assert(min == min_of_four(scores@));
    let mut tied: Vec<PlayerId> = Vec::new();
    let mut p: usize = 0;
    let ghost seats = Seq::new(4, |i: int| i as PlayerId);
    while p < 4
        invariant
            p <= 4,
            min == min_of_four(scores@),
            scores@.len() == 4,
            seats == Seq::new(4, |i: int| i as PlayerId),
            tied@ == seats.take(p as int).filter(|q: PlayerId| scores@[q as int] == min_of_four(scores@)),
        decreases 4 - p,
    {
        proof {
            assert(seats.take(p + 1) =~= seats.take(p as int).push(p));
            seats.take(p as int).lemma_filter_push(p, |q: PlayerId| scores@[q as int] == min_of_four(scores@));
        }
        if scores[p] == min {
            tied.push(p);
        }
        p += 1;
    }
    assert(seats.take(4) =~= seats);
    assert(tied@.len() > 0) by {
        let low = if scores@[0] == min { 0int } else if scores@[1] == min { 1int } else if scores@[2] == min { 2int } else { 3int };
        assert(seats[low] == low);
        broadcast use vstd::seq_lib::group_filter_ensures;

        assert(seats.filter(|q: PlayerId| scores@[q as int] == min_of_four(scores@)).contains(low as PlayerId)) by {
            seats.lemma_filter_contains(|q: PlayerId| scores@[q as int] == min_of_four(scores@), low);
        }
    }
    next.phase = Phase::GameOver;
    next.winner = Some(tied[0]);
    next.tied = tied;
    next
}

/// Deals the next hand once a hand is over; any other state is kept.
pub fn continue_game(state: &GameState, rng: &mut Rng) -> (next: GameState)
    requires
        state.phase == Phase::HandEnd ==> state.hand_number < usize::MAX,
        state@.scores.len() == 4,
    ensures
        state.phase != Phase::HandEnd ==> next@ == state@ && final(rng)@ == old(rng)@,
        state.phase == Phase::HandEnd ==> {
            &&& next@ == new_hand_view(
                state.variant,
                (state.hand_number + 1) as usize,
                state@.scores,
                next@.hands,
            )
            &&& dealt_from(next@.hands, dealing_deck(old(rng)@))
            &&& final(rng)@ == shuffled(fresh_deck(), old(rng)@).1
            &&& next@.wf()
        },
{
    if state.phase != Phase::HandEnd {
        return state.clone();
    }
    start_hand(state.variant, state.hand_number + 1, &state.scores, rng)
}

pub open spec fn spec_current_winner(trick: Seq<Play>) -> Option<PlayerId> {
    if trick.len() == 0 {
        None
    } else {
        Some(spec_trick_winner(trick))
    }
}

/// Who would take the trick as it stands.
pub fn current_winner_of_trick(trick: &[Play]) -> (winner: Option<PlayerId>)
    ensures
        winner == spec_current_winner(trick@),
{
    if trick.len() == 0 {
        None
    } else {
        Some(trick_winner(trick))
    }
}

/// The suit of the first card of the trick.
pub fn suit_led(state: &GameState) -> (suit: Option<Suit>)
    ensures
        suit == if state@.trick.len() == 0 {
            None
        } else {
            Some(state@.trick[0].card.suit())
        },
{
    if state.trick.len() == 0 {
        None
    } else {
        Some(state.trick[0].card.suit())
    }
}

pub open spec fn trick_has(trick: Seq<Play>, pred: spec_fn(Card) -> bool) -> bool {
    exists|i: int| 0 <= i < trick.len() && pred(#[trigger] trick[i].card)
}

/// The queen of spades is neither on the table nor among taken cards.
pub open spec fn spec_queen_still_out(s: GameView) -> bool {
    !(exists|i: int| 0 <= i < s.trick.len() && spec_is_queen_of_spades(#[trigger] s.trick[i].card))
        && !(exists|p: int| 0 <= p < s.taken.len() && holds_queen(#[trigger] s.taken[p]))
}

/// The jack of diamonds is neither on the table nor among taken cards.
pub open spec fn spec_jack_still_out(s: GameView) -> bool {
    !(exists|i: int| 0 <= i < s.trick.len() && spec_is_jack_of_diamonds(#[trigger] s.trick[i].card))
        && !(exists|p: int| 0 <= p < s.taken.len() && holds_jack(#[trigger] s.taken[p]))
}

pub fn queen_still_out(state: &GameState) -> (out: bool)
    ensures
        out == spec_queen_still_out(state@),
{
    let mut i: usize = 0;
    while i < state.trick.len()
        invariant
            i <= state.trick@.len(),
            forall|k: int| 0 <= k < i ==> !spec_is_queen_of_spades(#[trigger] state.trick@[k].card),
        decreases state.trick@.len() - i,
    {
        if is_queen_of_spades(state.trick[i].card) {
            assert(spec_is_queen_of_spades(state@.trick[i as int].card));
            return false;
        }
        i += 1;
    }
    let mut p: usize = 0;
    while p < state.taken.len()
        invariant
            p <= state.taken@.len(),
            !(exists|i: int| 0 <= i < state@.trick.len() && spec_is_queen_of_spades(#[trigger] state@.trick[i].card)),
            forall|k: int| 0 <= k < p ==> !holds_queen(#[trigger] state@.taken[k]),
        decreases state.taken@.len() - p,
    {
        assert(state@.taken[p as int] == state.taken@[p as int]@);
        if holds_queen_exec(state.taken[p].as_slice()) {
            return false;
        }
        p += 1;
    }
    true
}

pub fn jack_still_out(state: &GameState) -> (out: bool)
    ensures
        out == spec_jack_still_out(state@),
{
    let mut i: usize = 0;
    while i < state.trick.len()
        invariant
            i <= state.trick@.len(),
            forall|k: int| 0 <= k < i ==> !spec_is_jack_of_diamonds(#[trigger] state.trick@[k].card),
        decreases state.trick@.len() - i,
    {
        if is_jack_of_diamonds(state.trick[i].card) {
            assert(spec_is_jack_of_diamonds(state@.trick[i as int].card));
            return false;
        }
        i += 1;
    }
    let mut p: usize = 0;
    while p < state.taken.len()
        invariant
            p <= state.taken@.len(),
            !(exists|i: int| 0 <= i < state@.trick.len() && spec_is_jack_of_diamonds(#[trigger] state@.trick[i].card)),
            forall|k: int| 0 <= k < p ==> !holds_jack(#[trigger] state@.taken[k]),
        decreases state.taken@.len() - p,
    {
        assert(state@.taken[p as int] == state.taken@[p as int]@);
        if holds_jack_exec(state.taken[p].as_slice()) {
            return false;
        }
        p += 1;
    }
    true
}

/// The cards of the pile that count points.
pub fn point_cards_taken(pile: &[Card], variant_id: VariantId) -> (cards: Vec<Card>)
    ensures
        cards@ == kept(pile@, CardRule::Scoring(variant_id)),
{
    filter_cards(pile, CardRule::Scoring(variant_id))
}

/// An id the seat has seen: in its hand, in a taken pile or on the table.
pub open spec fn seen_by(s: GameView, viewer: int, id: u8) -> bool {
    ||| holds_id(s.hands[viewer], id)
    ||| exists|p: int| 0 <= p < s.taken.len() && holds_id(#[trigger] s.taken[p], id)
    ||| exists|i: int| 0 <= i < s.trick.len() && (#[trigger] s.trick[i]).card.id == id
}

/// The cards of the deck the seat has not seen, in deck order.
pub open spec fn spec_remaining_cards(s: GameView, viewer: int) -> Seq<Card> {
    fresh_deck().filter(|c: Card| !seen_by(s, viewer, c.id))
}

fn push_ids(seen: &mut Vec<u8>, cards: &[Card])
    ensures
        final(seen)@ == old(seen)@ + ids_of(cards@),
{
    let mut j: usize = 0;
    while j < cards.len()
        invariant
            j <= cards@.len(),
            seen@ == old(seen)@ + ids_of(cards@.take(j as int)),
        decreases cards@.len() - j,
    {
        seen.push(cards[j].id);
        j += 1;
        assert(seen@ =~= old(seen)@ + ids_of(cards@.take(j as int)));
    }
    assert(cards@.take(j as int) =~= cards@);
}

proof fn lemma_contains_ids(a: Seq<u8>, cards: Seq<Card>, id: u8)
    ensures
        (a + ids_of(cards)).contains(id) <==> a.contains(id) || holds_id(cards, id),
{
    let b = a + ids_of(cards);
    if b.contains(id) {
        let k = choose|k: int| 0 <= k < b.len() && b[k] == id;
        if k >= a.len() {
            assert(cards[k - a.len()].id == id);
        }
    }
    if a.contains(id) {
        let k = choose|k: int| 0 <= k < a.len() && a[k] == id;
        assert(b[k] == id);
    }
    if holds_id(cards, id) {
        let k = choose|k: int| 0 <= k < cards.len() && (#[trigger] cards[k]).id == id;
        assert(b[a.len() + k] == id);
    }
}

pub fn remaining_cards(state: &GameState, viewer: PlayerId) -> (cards: Vec<Card>)
    requires
        viewer < state.hands@.len(),
    ensures
        cards@ == spec_remaining_cards(state@, viewer as int),
{
    let mut seen: Vec<u8> = Vec::new();
    let hand = &state.hands[viewer];
    assert(state@.hands[viewer as int] == hand@);
    push_ids(&mut seen, hand.as_slice());
    assert forall|id: u8| #[trigger] seen@.contains(id) <==> holds_id(hand@, id) by {
        lemma_contains_ids(Seq::empty(), hand@, id);
    }
    let mut p: usize = 0;
    while p < state.taken.len()
        invariant
            p <= state.taken@.len(),
            viewer < state.hands@.len(),
            hand@ == state@.hands[viewer as int],
            forall|id: u8| #[trigger] seen@.contains(id) <==> (holds_id(hand@, id) || exists|q: int|
                0 <= q < p && holds_id(#[trigger] state@.taken[q], id)),
        decreases state.taken@.len() - p,
    {
        let pile = &state.taken[p];
        assert(state@.taken[p as int] == pile@);
        let ghost before = seen@;
        push_ids(&mut seen, pile.as_slice());
        p += 1;
        assert forall|id: u8| #[trigger] seen@.contains(id) <==> (holds_id(hand@, id) || exists|q: int|
            0 <= q < p && holds_id(#[trigger] state@.taken[q], id)) by {
            lemma_contains_ids(before, pile@, id);
            if exists|q: int| 0 <= q < p && holds_id(#[trigger] state@.taken[q], id) {
                let q = choose|q: int| 0 <= q < p && holds_id(#[trigger] state@.taken[q], id);
                if q < p - 1 {
                    assert(before.contains(id));
                }
            }
        }
    }
    let ghost before = seen@;
    let mut t: usize = 0;
    while t < state.trick.len()
        invariant
            t <= state.trick@.len(),
            seen@.len() == before.len() + t,
            forall|k: int| 0 <= k < before.len() ==> seen@[k] == before[k],
            forall|k: int| 0 <= k < t ==> seen@[before.len() + k] == state@.trick[k].card.id,
        decreases state.trick@.len() - t,
    {
        seen.push(state.trick[t].card.id);
        t += 1;
    }
    assert forall|id: u8| #[trigger] seen@.contains(id) <==> seen_by(state@, viewer as int, id) by {
        if seen@.contains(id) {
            let k = choose|k: int| 0 <= k < seen@.len() && seen@[k] == id;
            if k < before.len() {
                assert(before[k] == id);
                assert(before.contains(id));
            } else {
                assert(state@.trick[k - before.len()].card.id == id);
            }
        }
        if exists|i: int| 0 <= i < state@.trick.len() && (#[trigger] state@.trick[i]).card.id == id {
            let i = choose|i: int| 0 <= i < state@.trick.len() && (#[trigger] state@.trick[i]).card.id == id;
            assert(seen@[before.len() + i] == id);
        }
        if before.contains(id) {
            let k = choose|k: int| 0 <= k < before.len() && before[k] == id;
            assert(seen@[k] == id);
        }
    }
    let deck = make_deck();
    let mut out: Vec<Card> = Vec::new();
    let mut d: usize = 0;
    while d < deck.len()
        invariant
            d <= deck@.len(),
            deck@ == fresh_deck(),
            forall|id: u8| #[trigger] seen@.contains(id) <==> seen_by(state@, viewer as int, id),
            out@ == deck@.take(d as int).filter(|c: Card| !seen_by(state@, viewer as int, c.id)),
        decreases deck@.len() - d,
    {
        proof {
            assert(deck@.take(d + 1) =~= deck@.take(d as int).push(deck@[d as int]));
            deck@.take(d as int).lemma_filter_push(
                deck@[d as int],
                |c: Card| !seen_by(state@, viewer as int, c.id),
            );
        }
        if !contains_id(seen.as_slice(), deck[d].id) {
            out.push(deck[d]);
        }
        d += 1;
    }
    assert(deck@.take(52) =~= deck@);
    out
}

/// The seat that receives the seat's pass.
pub fn pass_recipient(from: PlayerId, dir: PassDir) -> (to: PlayerId)
    requires
        from + spec_pass_offset(dir) <= usize::MAX,
    ensures
        to == (from + spec_pass_offset(dir)) % 4,
{
    (from + pass_offset(dir)) % 4
}

/// The trick goes to the highest card of the suit led: the winning card
/// follows the lead, and no card of the led suit ranks above it.
pub proof fn lemma_trick_winner_highest(plays: Seq<Play>, k: int)
    requires
        1 <= k <= plays.len(),
    ensures
        0 <= best_play_index(plays, k) < k,
        plays[best_play_index(plays, k)].card.suit() == plays[0].card.suit(),
        forall|i: int|
            0 <= i < k && (#[trigger] plays[i]).card.suit() == plays[0].card.suit() ==> plays[i].card.rank()
                <= plays[best_play_index(plays, k)].card.rank(),
    decreases k,
{
    if k > 1 {
        lemma_trick_winner_highest(plays, k - 1);
    }
}

/// A game ends after a scored hand in which some total reaches the
/// variant's limit; the winner then has the lowest total, as has every
/// tied seat.
pub proof fn lemma_game_over_lowest_wins(s: GameView)
    requires
        s.wf(),
        s.phase == Phase::TrickEnd,
        s.trick.len() == 4,
    ensures
        ({
            let next = spec_resolve_trick(s);
            &&& next.phase == Phase::GameOver <==> (s.trick_number >= 12 && exists|i: int|
                0 <= i < 4 && #[trigger] next.scores[i] >= spec_variant(s.variant).game_limit)
            &&& next.phase == Phase::GameOver ==> {
                &&& next.tied.len() > 0
                &&& next.winner == Some(next.tied[0])
                &&& forall|j: int|
                    0 <= j < next.tied.len() ==> forall|i: int|
                        0 <= i < 4 ==> next.scores[#[trigger] next.tied[j] as int] <= #[trigger] next.scores[i]
            }
        }),
{
    broadcast use vstd::seq_lib::group_filter_ensures;

    let next = spec_resolve_trick(s);
    if next.phase == Phase::GameOver {
        let scores = next.scores;
        let seats = Seq::new(4, |i: int| i as PlayerId);
        let pred = |q: PlayerId| scores[q as int] == min_of_four(scores);
        let low = if scores[0] == min_of_four(scores) {
            0int
        } else if scores[1] == min_of_four(scores) {
            1int
        } else if scores[2] == min_of_four(scores) {
            2int
        } else {
            3int
        };
        assert(seats[low] == low);
        seats.lemma_filter_contains(pred, low);
        assert forall|j: int|
            0 <= j < next.tied.len() implies forall|i: int|
                0 <= i < 4 ==> next.scores[#[trigger] next.tied[j] as int] <= #[trigger] next.scores[i] by {
            seats.lemma_filter_pred(pred, j);
            assert(next.tied.contains(next.tied[j]));
            seats.lemma_filter_contains_rev(pred, next.tied[j]);
        }
    }
}

/// The fresh deck holds 52 distinct cards.
pub proof fn lemma_fresh_deck_distinct()
    ensures
        distinct_ids(fresh_deck()),
        fresh_deck().len() == 52,
{
    assert forall|i: int, j: int| 0 <= i < j < 52 implies (#[trigger] fresh_deck()[i]).id != (#[trigger] fresh_deck()[j]).id by {
        assert(fresh_deck()[i] == deck_card(i));
        assert(fresh_deck()[j] == deck_card(j));
    }
}

/// The four seats' shares of a deal hold together exactly the cards dealt.
pub proof fn lemma_dealt_partition(d: Seq<Card>)
    ensures
        (dealt(d, 0) + dealt(d, 1) + dealt(d, 2) + dealt(d, 3)).to_multiset() == d.to_multiset(),
    decreases d.len(),
{
    broadcast use vstd::seq_lib::lemma_multiset_commutative;

    if d.len() == 0 {
        assert(dealt(d, 0) + dealt(d, 1) + dealt(d, 2) + dealt(d, 3) =~= Seq::<Card>::empty());
    } else {
        let t = d.drop_last();
        let x = d.last();
        lemma_dealt_partition(t);
        let q = t.len() % 4;
        assert forall|p: int| 0 <= p < 4 implies #[trigger] dealt(d, p) == if p == q {
            dealt(t, p).push(x)
        } else {
            dealt(t, p)
        } by {
            if p == q {
                assert(dealt(d, p) =~= dealt(t, p).push(x));
            } else {
                assert(dealt(d, p) =~= dealt(t, p));
            }
        }
        assert(d =~= t.push(x));
        let a = dealt(t, 0).to_multiset();
        let b = dealt(t, 1).to_multiset();
        let c = dealt(t, 2).to_multiset();
        let e = dealt(t, 3).to_multiset();
        assert((dealt(d, 0) + dealt(d, 1) + dealt(d, 2) + dealt(d, 3)).to_multiset() =~= dealt(d, 0).to_multiset().add(
            dealt(d, 1).to_multiset(),
        ).add(dealt(d, 2).to_multiset()).add(dealt(d, 3).to_multiset()));
        assert((dealt(t, 0) + dealt(t, 1) + dealt(t, 2) + dealt(t, 3)).to_multiset() =~= a.add(b).add(c).add(e));
        assert(d.to_multiset() =~= t.to_multiset().insert(x));
    }
}

/// The four hands of a deal hold together exactly the 52 cards of the deck,
/// 13 each.
pub proof fn lemma_deal_holds_deck(hands: Seq<Seq<Card>>, state: u32)
    requires
        dealt_from(hands, dealing_deck(state)),
    ensures
        (hands[0] + hands[1] + hands[2] + hands[3]).to_multiset() == fresh_deck().to_multiset(),
{
    broadcast use vstd::seq_lib::lemma_multiset_commutative;

    let d = dealing_deck(state);
    lemma_shuffle_from_keeps_cards(fresh_deck(), state, 51);
    lemma_dealt_partition(d);
    assert(is_sorted_hand(hands[0]) && is_sorted_hand(hands[1]) && is_sorted_hand(hands[2]) && is_sorted_hand(hands[3]));
    assert((hands[0] + hands[1] + hands[2] + hands[3]).to_multiset() =~= hands[0].to_multiset().add(
        hands[1].to_multiset(),
    ).add(hands[2].to_multiset()).add(hands[3].to_multiset()));
    assert((dealt(d, 0) + dealt(d, 1) + dealt(d, 2) + dealt(d, 3)).to_multiset() =~= dealt(d, 0).to_multiset().add(
        dealt(d, 1).to_multiset(),
    ).add(dealt(d, 2).to_multiset()).add(dealt(d, 3).to_multiset()));
}

/// The points of two piles together are the points of each added up.
pub proof fn lemma_points_sum_append(a: Seq<Card>, b: Seq<Card>, variant_id: VariantId)
    ensures
        points_sum(a + b, variant_id) == points_sum(a, variant_id) + points_sum(b, variant_id),
    decreases b.len(),
{
    if b.len() == 0 {
        assert(a + b =~= a);
    } else {
        assert((a + b).drop_last() =~= a + b.drop_last());
        lemma_points_sum_append(a, b.drop_last(), variant_id);
    }
}

proof fn lemma_points_sum_remove(b: Seq<Card>, i: int, variant_id: VariantId)
    requires
        0 <= i < b.len(),
    ensures
        points_sum(b, variant_id) == points_sum(b.remove(i), variant_id) + spec_card_points(b[i], variant_id),
{
    let left = b.subrange(0, i);
    let right = b.subrange(i + 1, b.len() as int);
    assert(b =~= (left + seq![b[i]]) + right);
    assert(b.remove(i) =~= left + right);
    lemma_points_sum_append(left + seq![b[i]], right, variant_id);
    lemma_points_sum_append(left, seq![b[i]], variant_id);
    lemma_points_sum_append(left, right, variant_id);
    assert(seq![b[i]].drop_last() =~= Seq::<Card>::empty());
    assert(seq![b[i]].last() == b[i]);
    assert(points_sum(Seq::<Card>::empty(), variant_id) == 0);
    assert(points_sum(seq![b[i]], variant_id) == spec_card_points(b[i], variant_id));
}

/// The points of cards do not depend on their order.
pub proof fn lemma_points_sum_reorder(a: Seq<Card>, b: Seq<Card>, variant_id: VariantId)
    requires
        a.to_multiset() == b.to_multiset(),
    ensures
        points_sum(a, variant_id) == points_sum(b, variant_id),
    decreases a.len(),
{
    if a.len() == 0 {
        assert(b.to_multiset().len() == 0);
        assert(b =~= Seq::<Card>::empty());
    } else {
        let x = a.last();
        assert(a.contains(x)) by {
            assert(a[a.len() - 1] == x);
        }
        assert(b.to_multiset().count(x) > 0);
        assert(b.contains(x));
        let i = choose|i: int| 0 <= i < b.len() && b[i] == x;
        assert(a.drop_last() =~= a.remove(a.len() - 1));
        assert(a.drop_last().to_multiset() =~= a.to_multiset().remove(x));
        assert(b.remove(i).to_multiset() =~= b.to_multiset().remove(x));
        lemma_points_sum_reorder(a.drop_last(), b.remove(i), variant_id);
        lemma_points_sum_remove(b, i, variant_id);
    }
}

/// The cards of one suit, two to ace.
pub open spec fn suit_run(suit: int) -> Seq<Card> {
    Seq::new(13, |r: int| Card { id: (suit * 16 + r + 2) as u8 })
}

/// All the points of the deck: 26 in Hearts; 140 in Spardame, where the
/// jack of diamonds counts -100.
pub open spec fn deck_points(variant_id: VariantId) -> int {
    match variant_id {
        VariantId::Spardame => 140,
        VariantId::Hjerter => 26,
    }
}

/// The points of the first `k` cards of a suit.
pub open spec fn run_prefix_points(suit: int, k: int, variant_id: VariantId) -> int {
    if suit == 3 {
        if variant_id == VariantId::Spardame {
            10 * k + if k == 13 {
                10int
            } else {
                0int
            }
        } else {
            k
        }
    } else if suit == 2 {
        if k > 10 {
            spec_variant(variant_id).queen_spades as int
        } else {
            0int
        }
    } else if suit == 1 {
        if k > 9 {
            spec_variant(variant_id).jack_diamonds as int
        } else {
            0int
        }
    } else {
        0int
    }
}

proof fn lemma_run_points(suit: int, k: int, variant_id: VariantId)
    requires
        0 <= suit < 4,
        0 <= k <= 13,
    ensures
        points_sum(suit_run(suit).take(k), variant_id) == run_prefix_points(suit, k, variant_id),
    decreases k,
{
    let run = suit_run(suit);
    if k > 0 {
        lemma_run_points(suit, k - 1, variant_id);
        assert(run.take(k).drop_last() =~= run.take(k - 1));
        assert(run.take(k).last() == run[k - 1]);
        assert(run[k - 1] == Card { id: (suit * 16 + k + 1) as u8 });
        assert(run[k - 1].id / 16 == suit && run[k - 1].id % 16 == k + 1);
    } else {
        assert(run.take(0) =~= Seq::<Card>::empty());
    }
}

/// The deck's points.
pub proof fn lemma_deck_points(variant_id: VariantId)
    ensures
        points_sum(fresh_deck(), variant_id) == deck_points(variant_id),
{
    assert(fresh_deck() =~= suit_run(0) + suit_run(1) + suit_run(2) + suit_run(3));
    lemma_points_sum_append(suit_run(0) + suit_run(1) + suit_run(2), suit_run(3), variant_id);
    lemma_points_sum_append(suit_run(0) + suit_run(1), suit_run(2), variant_id);
    lemma_points_sum_append(suit_run(0), suit_run(1), variant_id);
    lemma_run_points(0, 13, variant_id);
    lemma_run_points(1, 13, variant_id);
    lemma_run_points(2, 13, variant_id);
    lemma_run_points(3, 13, variant_id);
    assert(suit_run(0).take(13) =~= suit_run(0));
    assert(suit_run(1).take(13) =~= suit_run(1));
    assert(suit_run(2).take(13) =~= suit_run(2));
    assert(suit_run(3).take(13) =~= suit_run(3));
}

/// The points of a hand whose four piles hold exactly the deck: the raw
/// points total the deck's points (26 in Hearts); after a shot moon the
/// three other seats score the moon penalty each (78 in all in Hearts).
pub proof fn lemma_hand_totals(piles: Seq<Seq<Card>>, variant_id: VariantId)
    requires
        piles.len() == 4,
        (piles[0] + piles[1] + piles[2] + piles[3]).to_multiset() == fresh_deck().to_multiset(),
    ensures
        ({
            let h = spec_score_from_taken(piles, variant_id);
            let v = spec_variant(variant_id);
            &&& h.raw[0] + h.raw[1] + h.raw[2] + h.raw[3] == deck_points(variant_id)
            &&& h.applied[0] + h.applied[1] + h.applied[2] + h.applied[3] == match h.moon {
                None => deck_points(variant_id),
                Some(m) => 3 * v.moon_others + moon_points(v, m, h.jack_holder, m as int),
            }
        }),
{
    broadcast use vstd::seq_lib::lemma_multiset_commutative;

    let all = piles[0] + piles[1] + piles[2] + piles[3];
    assert(all.to_multiset().len() == fresh_deck().to_multiset().len());
    assert(all.len() == 52);
    lemma_points_sum_reorder(all, fresh_deck(), variant_id);
    lemma_deck_points(variant_id);
    lemma_points_sum_append(piles[0] + piles[1] + piles[2], piles[3], variant_id);
    lemma_points_sum_append(piles[0] + piles[1], piles[2], variant_id);
    lemma_points_sum_append(piles[0], piles[1], variant_id);
    lemma_points_sum_bounds(piles[0], variant_id);
    lemma_points_sum_bounds(piles[1], variant_id);
    lemma_points_sum_bounds(piles[2], variant_id);
    lemma_points_sum_bounds(piles[3], variant_id);
    let h = spec_score_from_taken(piles, variant_id);
    assert(h.raw[0] == points_sum(piles[0], variant_id));
    assert(h.raw[1] == points_sum(piles[1], variant_id));
    assert(h.raw[2] == points_sum(piles[2], variant_id));
    assert(h.raw[3] == points_sum(piles[3], variant_id));
}

proof fn lemma_filter_count(s: Seq<Card>, pred: spec_fn(Card) -> bool, x: Card)
    ensures
        s.filter(pred).to_multiset().count(x) == if pred(x) {
            s.to_multiset().count(x)
        } else {
            0
        },
    decreases s.len(),
{
    if s.len() > 0 {
        let rest = s.drop_last();
        assert(rest.push(s.last()) =~= s);
        rest.lemma_filter_push(s.last(), pred);
        lemma_filter_count(rest, pred, x);
    } else {
        assert(s.filter(pred).len() == 0) by {
            broadcast use vstd::seq_lib::group_filter_ensures;
        }
    }
}

proof fn lemma_distinct_count(s: Seq<Card>, x: Card)
    requires
        distinct_ids(s),
    ensures
        s.to_multiset().count(x) <= 1,
        s.contains(x) ==> s.to_multiset().count(x) == 1,
    decreases s.len(),
{
    if s.len() > 0 {
        let rest = s.drop_last();
        assert(rest.push(s.last()) =~= s);
        lemma_distinct_count(rest, x);
        if s.last() == x {
            assert(!rest.contains(x)) by {
                if rest.contains(x) {
                    let k = choose|k: int| 0 <= k < rest.len() && rest[k] == x;
                    assert(s[k] == rest[k]);
                    assert(s[s.len() - 1] == x);
                }
            }
        } else if s.contains(x) {
            let k = choose|k: int| 0 <= k < s.len() && s[k] == x;
            assert(rest[k] == x);
        }
    }
}

/// Giving away some distinct cards of a hand of distinct cards leaves the
/// rest: kept and given together make up the hand.
proof fn lemma_kept_and_given(hand: Seq<Card>, giving: Seq<Card>)
    requires
        distinct_ids(hand),
        distinct_ids(giving),
        forall|k: int| 0 <= k < giving.len() ==> hand.contains(#[trigger] giving[k]),
    ensures
        kept_after_pass(hand, giving).to_multiset().add(giving.to_multiset()) =~= hand.to_multiset(),
{
    assert forall|x: Card| #[trigger] kept_after_pass(hand, giving).to_multiset().add(
        giving.to_multiset(),
    ).count(x) == hand.to_multiset().count(x) by {
        let pred = |c: Card| !ids_of(giving).contains(c.id);
        lemma_filter_count(hand, pred, x);
        lemma_distinct_count(hand, x);
        lemma_distinct_count(giving, x);
        if giving.contains(x) {
            let k = choose|k: int| 0 <= k < giving.len() && giving[k] == x;
            assert(ids_of(giving)[k] == x.id);
            assert(hand.contains(giving[k]));
        } else {
            if ids_of(giving).contains(x.id) {
                let k = choose|k: int| 0 <= k < ids_of(giving).len() && ids_of(giving)[k] == x.id;
                assert(giving[k] == x);
            }
            assert(giving.to_multiset().count(x) == 0);
        }
    }
}

/// A seat's pass is made of distinct cards of its hand.
pub open spec fn selection_held(s: GameView, p: int) -> bool {
    match s.pass_selections[p] {
        Some(cards) => distinct_ids(cards) && forall|k: int|
            0 <= k < cards.len() ==> s.hands[p].contains(#[trigger] cards[k]),
        None => false,
    }
}

/// Passing keeps every card at the table and every hand's size, when each
/// seat holds distinct cards and passes distinct cards of its own.
pub proof fn lemma_pass_keeps_cards(s: GameView, new_hands: Seq<Seq<Card>>)
    requires
        s.wf(),
        s.pass_dir != PassDir::Hold,
        all_chosen(s),
        hands_after_pass(new_hands, s),
        forall|p: int| 0 <= p < 4 ==> distinct_ids(#[trigger] s.hands[p]) && selection_held(s, p),
    ensures
        forall|q: int| 0 <= q < 4 ==> (#[trigger] new_hands[q]).len() == s.hands[q].len(),
        (new_hands[0] + new_hands[1] + new_hands[2] + new_hands[3]).to_multiset() == (s.hands[0]
            + s.hands[1] + s.hands[2] + s.hands[3]).to_multiset(),
{
    broadcast use vstd::seq_lib::lemma_multiset_commutative;

    let g0 = chosen(s.pass_selections[0]);
    let g1 = chosen(s.pass_selections[1]);
    let g2 = chosen(s.pass_selections[2]);
    let g3 = chosen(s.pass_selections[3]);
    assert(distinct_ids(s.hands[0]) && distinct_ids(s.hands[1]) && distinct_ids(s.hands[2]) && distinct_ids(s.hands[3]));
    assert(selection_held(s, 0) && selection_held(s, 1) && selection_held(s, 2) && selection_held(s, 3));
    lemma_kept_and_given(s.hands[0], g0);
    lemma_kept_and_given(s.hands[1], g1);
    lemma_kept_and_given(s.hands[2], g2);
    lemma_kept_and_given(s.hands[3], g3);
    assert(match s.pass_selections[0] { Some(c) => c.len() == spec_variant(s.variant).pass_count, None => false });
    assert(match s.pass_selections[1] { Some(c) => c.len() == spec_variant(s.variant).pass_count, None => false });
    assert(match s.pass_selections[2] { Some(c) => c.len() == spec_variant(s.variant).pass_count, None => false });
    assert(match s.pass_selections[3] { Some(c) => c.len() == spec_variant(s.variant).pass_count, None => false });
    assert forall|q: int| 0 <= q < 4 implies (#[trigger] new_hands[q]).len() == s.hands[q].len() by {
        let src = pass_source(q, s.pass_dir);
        assert(0 <= src < 4);
        assert(new_hands[q].to_multiset().len() == hand_after_pass(s, q).to_multiset().len());
        assert(hand_after_pass(s, q).to_multiset() =~= kept_after_pass(s.hands[q], chosen(
            s.pass_selections[q],
        )).to_multiset().add(chosen(s.pass_selections[src]).to_multiset()));
        let kq = kept_after_pass(s.hands[q], chosen(s.pass_selections[q]));
        assert(kq.to_multiset().add(chosen(s.pass_selections[q]).to_multiset()).len() == s.hands[q].to_multiset().len());
    }
    let k0 = kept_after_pass(s.hands[0], g0);
    let k1 = kept_after_pass(s.hands[1], g1);
    let k2 = kept_after_pass(s.hands[2], g2);
    let k3 = kept_after_pass(s.hands[3], g3);
    let new_all = new_hands[0] + new_hands[1] + new_hands[2] + new_hands[3];
    let old_all = s.hands[0] + s.hands[1] + s.hands[2] + s.hands[3];
    assert(new_hands[0].to_multiset() =~= k0.to_multiset().add(chosen(s.pass_selections[pass_source(0, s.pass_dir)]).to_multiset()));
    assert(new_hands[1].to_multiset() =~= k1.to_multiset().add(chosen(s.pass_selections[pass_source(1, s.pass_dir)]).to_multiset()));
    assert(new_hands[2].to_multiset() =~= k2.to_multiset().add(chosen(s.pass_selections[pass_source(2, s.pass_dir)]).to_multiset()));
    assert(new_hands[3].to_multiset() =~= k3.to_multiset().add(chosen(s.pass_selections[pass_source(3, s.pass_dir)]).to_multiset()));
    assert(new_all.to_multiset() =~= new_hands[0].to_multiset().add(new_hands[1].to_multiset()).add(
        new_hands[2].to_multiset(),
    ).add(new_hands[3].to_multiset()));
    assert(old_all.to_multiset() =~= s.hands[0].to_multiset().add(s.hands[1].to_multiset()).add(
        s.hands[2].to_multiset(),
    ).add(s.hands[3].to_multiset()));
    assert(new_all.to_multiset() =~= old_all.to_multiset());
}

/// The cards of the trick on the table.
pub open spec fn trick_cards(trick: Seq<Play>) -> Seq<Card> {
    trick.map_values(|p: Play| p.card)
}

/// Every card at the table: in the hands, on the table and in the piles.
pub open spec fn table_cards(s: GameView) -> vstd::multiset::Multiset<Card> {
    s.hands[0].to_multiset().add(s.hands[1].to_multiset()).add(s.hands[2].to_multiset()).add(
        s.hands[3].to_multiset(),
    ).add(trick_cards(s.trick).to_multiset()).add(s.taken[0].to_multiset()).add(
        s.taken[1].to_multiset(),
    ).add(s.taken[2].to_multiset()).add(s.taken[3].to_multiset())
}

/// Playing a card moves it from the hand to the table: no card appears or
/// disappears, when the seat's cards are distinct.
pub proof fn lemma_play_keeps_cards(s: GameView, player: int, card_id: u8)
    requires
        s.wf(),
        0 <= player < 4,
        distinct_ids(s.hands[player]),
        spec_play_card(s, player, card_id) is Ok,
    ensures
        table_cards(spec_play_card(s, player, card_id)->Ok_0) =~= table_cards(s),
        (spec_play_card(s, player, card_id)->Ok_0).hands[player].len() + 1 == s.hands[player].len(),
{
    broadcast use vstd::seq_lib::lemma_multiset_commutative;

    let next = spec_play_card(s, player, card_id)->Ok_0;
    let hand = s.hands[player];
    let card = Card { id: card_id };
    let rest = kept(hand, CardRule::NotId(card_id));
    assert(holds_id(hand, card_id));
    let j = choose|j: int| 0 <= j < hand.len() && (#[trigger] hand[j]).id == card_id;
    assert(hand[j] == card);
    assert(hand.contains(card));
    assert forall|x: Card| #[trigger] rest.to_multiset().insert(card).count(x) == hand.to_multiset().count(x) by {
        lemma_filter_count(hand, |c: Card| keeps(CardRule::NotId(card_id), c), x);
        lemma_distinct_count(hand, x);
    }
    assert(rest.to_multiset().insert(card) =~= hand.to_multiset());
    assert(rest.to_multiset().len() + 1 == hand.to_multiset().len());
    assert(trick_cards(next.trick) =~= trick_cards(s.trick).push(card));
    assert(next.hands[player] == rest);
    assert forall|p: int| 0 <= p < 4 && p != player implies next.hands[p] == s.hands[p] by {}
    assert(next.taken == s.taken);
    if player == 0 {
        assert(next.hands[0] == rest);
    } else if player == 1 {
        assert(next.hands[1] == rest);
    } else if player == 2 {
        assert(next.hands[2] == rest);
    } else {
        assert(next.hands[3] == rest);
    }
}

/// Gathering a trick moves its cards to the winner's pile: no card appears
/// or disappears.
pub proof fn lemma_resolve_keeps_cards(s: GameView)
    requires
        s.wf(),
    ensures
        table_cards(spec_resolve_trick(s)) =~= table_cards(s),
{
    broadcast use vstd::seq_lib::lemma_multiset_commutative;

    if s.phase == Phase::TrickEnd && s.trick.len() == 4 {
        let next = spec_resolve_trick(s);
        let w = spec_trick_winner(s.trick);
        lemma_best_play_index_bounds(s.trick, 4);
        assert(w < 4);
        assert(trick_cards(s.trick) =~= s.trick.map_values(|p: Play| p.card));
        assert(trick_cards(next.trick) =~= Seq::<Card>::empty());
        assert(next.taken[w as int] == s.taken[w as int] + trick_cards(s.trick));
        assert(next.hands == s.hands);
        assert forall|p: int| 0 <= p < 4 && p != w implies next.taken[p] == s.taken[p] by {}
    }
}


/// The cards at the table are exactly the 52 cards of the deck.
pub open spec fn holds_deck(s: GameView) -> bool {
    table_cards(s) == fresh_deck().to_multiset()
}

/// A hand in play: the deck is at the table and, while passing, every
/// chosen pass is made of distinct cards of the seat's own hand.
pub open spec fn deck_in_play(s: GameView) -> bool {
    &&& holds_deck(s)
    &&& s.phase == Phase::Passing ==> forall|p: int|
        0 <= p < 4 && (#[trigger] s.pass_selections[p]) is Some ==> selection_held(s, p)
    &&& hand_shape(s)
}

/// Whether the seat has put a card on the current trick: the seats play in
/// turn from the one who led.
pub open spec fn seat_played(s: GameView, p: int) -> bool {
    s.trick.len() > 0 && (p - s.trick[0].player) % 4 < s.trick.len()
}

/// The shape of a hand under way: 13 cards each while passing; during play
/// the seats follow each other round the trick, the trick is complete
/// exactly when it is to be gathered, and every seat holds one card fewer
/// for each trick gathered and one fewer again once it has played to the
/// current trick.
pub open spec fn hand_shape(s: GameView) -> bool {
    &&& s.phase == Phase::Passing ==> {
        &&& s.trick.len() == 0
        &&& s.trick_number == 0
        &&& forall|p: int| 0 <= p < 4 ==> (#[trigger] s.hands[p]).len() == 13
    }
    &&& (s.phase == Phase::Playing || s.phase == Phase::TrickEnd) ==> {
        &&& s.trick_number <= 12
        &&& s.trick.len() <= 4
        &&& (s.phase == Phase::TrickEnd <==> s.trick.len() == 4)
        &&& forall|i: int| 0 <= i < s.trick.len() ==> (#[trigger] s.trick[i]).player == (s.trick[0].player + i) % 4
        &&& s.phase == Phase::Playing && s.trick.len() > 0 ==> s.turn == (s.trick[0].player + s.trick.len()) % 4
        &&& forall|p: int|
            0 <= p < 4 ==> (#[trigger] s.hands[p]).len() + (if seat_played(s, p) {
                1int
            } else {
                0int
            }) == 13 - s.trick_number
    }
}

proof fn lemma_deck_once(x: Card)
    ensures
        fresh_deck().to_multiset().count(x) <= 1,
{
    lemma_fresh_deck_distinct();
    let d = fresh_deck();
    assert(d.no_duplicates()) by {
        assert forall|i: int, j: int| 0 <= i < d.len() && 0 <= j < d.len() && i != j implies d[i] != d[j] by {
            if i < j {
                assert(d[i].id != d[j].id);
            } else {
                assert(d[j].id != d[i].id);
            }
        }
    }
    d.lemma_multiset_has_no_duplicates();
}

/// With the deck at the table, no seat holds two cards with one id.
pub proof fn lemma_in_play_hands_distinct(s: GameView)
    requires
        s.wf(),
        holds_deck(s),
    ensures
        forall|p: int| 0 <= p < 4 ==> distinct_ids(#[trigger] s.hands[p]),
{
    broadcast use vstd::multiset::group_multiset_axioms;

    assert forall|p: int| 0 <= p < 4 implies distinct_ids(#[trigger] s.hands[p]) by {
        let h = s.hands[p];
        assert forall|x: Card| h.to_multiset().contains(x) implies h.to_multiset().count(x) == 1 by {
            lemma_deck_once(x);
            assert(table_cards(s).count(x) >= h.to_multiset().count(x));
        }
        h.lemma_multiset_has_no_duplicates_conv();
        assert forall|i: int, j: int| 0 <= i < j < h.len() implies (#[trigger] h[i]).id != (#[trigger] h[j]).id by {
            if h[i].id == h[j].id {
                assert(h[i] == h[j]);
            }
        }
    }
}

/// A freshly dealt hand is in play.
pub proof fn lemma_new_hand_in_play(
    variant: VariantId,
    hand_number: usize,
    scores: Seq<i32>,
    hands: Seq<Seq<Card>>,
    state: u32,
)
    requires
        dealt_from(hands, dealing_deck(state)),
    ensures
        deck_in_play(new_hand_view(variant, hand_number, scores, hands)),
{
    broadcast use vstd::seq_lib::lemma_multiset_commutative;

    let s = new_hand_view(variant, hand_number, scores, hands);
    lemma_deal_holds_deck(hands, state);
    assert(trick_cards(s.trick) =~= Seq::<Card>::empty());
    assert(s.taken[0] =~= Seq::<Card>::empty());
    assert(s.taken[1] =~= Seq::<Card>::empty());
    assert(s.taken[2] =~= Seq::<Card>::empty());
    assert(s.taken[3] =~= Seq::<Card>::empty());
    assert((hands[0] + hands[1] + hands[2] + hands[3]).to_multiset() =~= hands[0].to_multiset().add(
        hands[1].to_multiset(),
    ).add(hands[2].to_multiset()).add(hands[3].to_multiset()));
    assert(table_cards(s) =~= fresh_deck().to_multiset());
    assert forall|p: int| 0 <= p < 4 && (#[trigger] s.pass_selections[p]) is Some implies selection_held(s, p) by {
        assert(s.pass_selections[p] == no_passes()[p]);
    }
    lemma_shuffle_from_keeps_cards(fresh_deck(), state, 51);
    assert forall|p: int| 0 <= p < 4 implies (#[trigger] hands[p]).len() == 13 by {
        assert(hands[p].to_multiset().len() == dealt(dealing_deck(state), p).to_multiset().len());
    }
}

/// An accepted pass keeps the hand in play.
pub proof fn lemma_set_pass_in_play(s: GameView, player: int, cards: Seq<Card>)
    requires
        s.wf(),
        deck_in_play(s),
        0 <= player < 4,
        spec_set_pass_selection(s, player, cards) is Ok,
    ensures
        deck_in_play(spec_set_pass_selection(s, player, cards)->Ok_0),
{
    let next = spec_set_pass_selection(s, player, cards)->Ok_0;
    lemma_accepted_pass_held(s, player, cards);
    assert(table_cards(next) == table_cards(s));
    assert forall|p: int| 0 <= p < 4 && (#[trigger] next.pass_selections[p]) is Some implies selection_held(next, p) by {
        if p != player {
            assert(next.pass_selections[p] == s.pass_selections[p]);
            assert(selection_held(s, p));
        } else {
            assert(distinct_ids(cards));
        }
    }
}

/// Committing the passes keeps the hand in play.
pub proof fn lemma_commit_in_play(s: GameView, next: GameView)
    requires
        s.wf(),
        deck_in_play(s),
        commit_outcome(s, Ok(next)),
    ensures
        deck_in_play(next),
{
    broadcast use vstd::seq_lib::lemma_multiset_commutative;

    if s.phase == Phase::Passing && s.pass_dir != PassDir::Hold {
        lemma_in_play_hands_distinct(s);
        assert forall|p: int| 0 <= p < 4 implies distinct_ids(#[trigger] s.hands[p]) && selection_held(s, p) by {
            assert(s.pass_selections[p] is Some);
        }
        lemma_pass_keeps_cards(s, next.hands);
        let h = next.hands;
        let g = s.hands;
        assert((h[0] + h[1] + h[2] + h[3]).to_multiset() =~= h[0].to_multiset().add(h[1].to_multiset()).add(
            h[2].to_multiset(),
        ).add(h[3].to_multiset()));
        assert((g[0] + g[1] + g[2] + g[3]).to_multiset() =~= g[0].to_multiset().add(g[1].to_multiset()).add(
            g[2].to_multiset(),
        ).add(g[3].to_multiset()));
        assert(table_cards(next) =~= table_cards(s));
    } else if s.phase == Phase::Passing {
        assert(table_cards(next) == table_cards(s));
    }
}

/// Playing a card keeps the hand in play.
pub proof fn lemma_play_in_play(s: GameView, player: int, card_id: u8)
    requires
        s.wf(),
        deck_in_play(s),
        0 <= player < 4,
        spec_play_card(s, player, card_id) is Ok,
    ensures
        deck_in_play(spec_play_card(s, player, card_id)->Ok_0),
{
    lemma_in_play_hands_distinct(s);
    lemma_play_keeps_cards(s, player, card_id);
    let next = spec_play_card(s, player, card_id)->Ok_0;
    let k = s.trick.len();
    assert(s.phase == Phase::Playing && s.turn == player);
    assert(k < 4);
    assert(next.trick == s.trick.push(Play { player: player as PlayerId, card: Card { id: card_id } }));
    let lead = next.trick[0].player;
    assert(k > 0 ==> lead == s.trick[0].player);
    assert(k > 0 ==> player == (lead + k) % 4);
    assert forall|i: int| 0 <= i < next.trick.len() implies (#[trigger] next.trick[i]).player == (lead + i) % 4 by {
        if i < k {
            assert(next.trick[i] == s.trick[i]);
        }
    }
    assert forall|p: int| 0 <= p < 4 implies (#[trigger] next.hands[p]).len() + (if seat_played(next, p) {
        1int
    } else {
        0int
    }) == 13 - next.trick_number by {
        if k == 0 {
            assert(seat_played(next, p) <==> p == player);
        } else {
            assert((player - lead) % 4 == k);
            assert(seat_played(next, p) <==> (seat_played(s, p) || p == player));
            assert(p == player ==> !seat_played(s, p));
        }
        if p != player {
            assert(next.hands[p] == s.hands[p]);
        }
    }
}

/// Gathering a trick keeps the hand in play.
pub proof fn lemma_resolve_in_play(s: GameView)
    requires
        s.wf(),
        deck_in_play(s),
    ensures
        deck_in_play(spec_resolve_trick(s)),
{
    lemma_resolve_keeps_cards(s);
    let next = spec_resolve_trick(s);
    if s.phase == Phase::TrickEnd && s.trick.len() == 4 && s.trick_number < 12 {
        assert forall|p: int| 0 <= p < 4 implies (#[trigger] next.hands[p]).len() + (if seat_played(next, p) {
            1int
        } else {
            0int
        }) == 13 - next.trick_number by {
            assert(seat_played(s, p));
            assert(!seat_played(next, p));
        }
    }
}

/// At the gathering of a hand's last trick, in a hand in play, every seat
/// has played out its cards, and the hand hands out the deck's points (26
/// in Hearts), or the moon penalty to each of the three other seats after a
/// shot moon (78 in all in Hearts).
pub proof fn lemma_last_trick_totals(s: GameView)
    requires
        s.wf(),
        deck_in_play(s),
        s.phase == Phase::TrickEnd,
        s.trick_number >= 12,
    ensures
        s.trick_number == 12,
        forall|p: int| 0 <= p < 4 ==> (#[trigger] s.hands[p]).len() == 0,
        ({
            let next = spec_resolve_trick(s);
            let h = spec_score_from_taken(next.taken, s.variant);
            let v = spec_variant(s.variant);
            &&& next.hand_score == Some(h)
            &&& h.applied[0] + h.applied[1] + h.applied[2] + h.applied[3] == match h.moon {
                None => deck_points(s.variant),
                Some(m) => 3 * v.moon_others + moon_points(v, m, h.jack_holder, m as int),
            }
        }),
{
    assert forall|p: int| 0 <= p < 4 implies (#[trigger] s.hands[p]).len() == 0 by {
        assert(seat_played(s, p));
    }
    lemma_hand_end_totals(s);
}

/// When the last trick of a hand in play is gathered, with every hand
/// played out, the piles hold exactly the deck: the hand hands out the
/// deck's points (26 in Hearts), or the moon penalty to each of the three
/// other seats after a shot moon (78 in all in Hearts).
pub proof fn lemma_hand_end_totals(s: GameView)
    requires
        s.wf(),
        holds_deck(s),
        s.phase == Phase::TrickEnd,
        s.trick.len() == 4,
        s.trick_number >= 12,
        forall|p: int| 0 <= p < 4 ==> (#[trigger] s.hands[p]).len() == 0,
    ensures
        ({
            let next = spec_resolve_trick(s);
            let h = spec_score_from_taken(next.taken, s.variant);
            let v = spec_variant(s.variant);
            &&& next.hand_score == Some(h)
            &&& h.applied[0] + h.applied[1] + h.applied[2] + h.applied[3] == match h.moon {
                None => deck_points(s.variant),
                Some(m) => 3 * v.moon_others + moon_points(v, m, h.jack_holder, m as int),
            }
        }),
{
    broadcast use vstd::seq_lib::lemma_multiset_commutative;

    let next = spec_resolve_trick(s);
    lemma_resolve_keeps_cards(s);
    let t = next.taken;
    lemma_trick_winner_highest(s.trick, 4);
    assert(s.trick[best_play_index(s.trick, 4)].player < 4);
    assert(next.taken == taken_after_trick(s));
    assert(t.len() == 4);
    assert(next.trick.len() == 0);
    assert(trick_cards(next.trick) =~= Seq::<Card>::empty());
    assert forall|p: int| 0 <= p < 4 implies (#[trigger] next.hands[p]) =~= Seq::<Card>::empty() by {}
    assert((t[0] + t[1] + t[2] + t[3]).to_multiset() =~= t[0].to_multiset().add(t[1].to_multiset()).add(
        t[2].to_multiset(),
    ).add(t[3].to_multiset()));
    assert(table_cards(next) =~= t[0].to_multiset().add(t[1].to_multiset()).add(t[2].to_multiset()).add(
        t[3].to_multiset(),
    ));
    lemma_hand_totals(t, s.variant);
}


/// A card is among those a rule keeps exactly when it is among the cards
/// and the rule keeps it.
proof fn lemma_kept_members(cards: Seq<Card>, rule: CardRule)
    ensures
        forall|c: Card| #[trigger] kept(cards, rule).contains(c) <==> (cards.contains(c) && keeps(rule, c)),
        kept(cards, rule).len() > 0 <==> exists|i: int| 0 <= i < cards.len() && keeps(rule, #[trigger] cards[i]),
{
    broadcast use vstd::seq_lib::group_filter_ensures;

    let pred = |c: Card| keeps(rule, c);
    assert forall|c: Card| #[trigger] kept(cards, rule).contains(c) <==> (cards.contains(c) && keeps(rule, c)) by {
        if kept(cards, rule).contains(c) {
            cards.lemma_filter_contains_rev(pred, c);
        }
        if cards.contains(c) && keeps(rule, c) {
            let i = choose|i: int| 0 <= i < cards.len() && cards[i] == c;
            cards.lemma_filter_contains(pred, i);
        }
    }
    if exists|i: int| 0 <= i < cards.len() && keeps(rule, #[trigger] cards[i]) {
        let i = choose|i: int| 0 <= i < cards.len() && keeps(rule, #[trigger] cards[i]);
        cards.lemma_filter_contains(pred, i);
    }
    if kept(cards, rule).len() > 0 {
        lemma_kept_contains(cards, rule, 0);
        let c = kept(cards, rule)[0];
        let i = choose|i: int| 0 <= i < cards.len() && cards[i] == c;
        assert(keeps(rule, cards[i]));
    }
}

/// The rules of play. Only the seat on turn in the playing phase may play.
/// Leading, the first trick is opened with the two of clubs by its holder;
/// otherwise hearts may not be led before they are broken unless the hand
/// holds nothing else, and once hearts are broken any card may be led.
/// Following, a card of the suit led must be played when one is held;
/// otherwise, on the first trick, no penalty card may be played unless the
/// hand holds nothing else; otherwise any card may be played.
pub proof fn lemma_rules_of_play(s: GameView, player: int)
    requires
        s.wf(),
        0 <= player < 4,
    ensures
        ({
            let hand = s.hands[player];
            let moves = spec_legal_moves(s, player);
            let on_turn = s.phase == Phase::Playing && s.turn == player;
            let led = s.trick[0].card.suit();
            &&& !on_turn ==> moves.len() == 0
            &&& on_turn && s.trick.len() == 0 && s.trick_number == 0 && has_card(hand, CLUBS, 2) ==> moves.len()
                == 1 && moves[0].suit() == CLUBS && moves[0].rank() == 2
            &&& on_turn && s.trick.len() == 0 && !(s.trick_number == 0 && has_card(hand, CLUBS, 2))
                && s.hearts_broken ==> moves == hand
            &&& on_turn && s.trick.len() == 0 && !(s.trick_number == 0 && has_card(hand, CLUBS, 2))
                && !s.hearts_broken ==> if exists|i: int| 0 <= i < hand.len() && !spec_is_heart(#[trigger] hand[i]) {
                forall|c: Card| #[trigger] moves.contains(c) <==> hand.contains(c) && !spec_is_heart(c)
            } else {
                moves == hand
            }
            &&& on_turn && s.trick.len() > 0 ==> if exists|i: int|
                0 <= i < hand.len() && (#[trigger] hand[i]).suit() == led {
                forall|c: Card| #[trigger] moves.contains(c) <==> hand.contains(c) && c.suit() == led
            } else if s.trick_number == 0 && exists|i: int| 0 <= i < hand.len() && !spec_is_penalty(#[trigger] hand[i]) {
                forall|c: Card| #[trigger] moves.contains(c) <==> hand.contains(c) && !spec_is_penalty(c)
            } else {
                moves == hand
            }
        }),
{
    let hand = s.hands[player];
    lemma_kept_members(hand, CardRule::NotHeart);
    lemma_kept_members(hand, CardRule::NotPenalty);
    if s.trick.len() > 0 {
        lemma_kept_members(hand, CardRule::OfSuit(s.trick[0].card.suit()));
    }
    if has_card(hand, CLUBS, 2) {
        let i = choose|i: int| 0 <= i < hand.len() && (#[trigger] hand[i]).suit() == CLUBS && hand[i].rank() == 2;
        assert(hand[i].id == 2) by {
            assert(hand[i].id / 16 == 0 && hand[i].id % 16 == 2);
        }
    }
    if hand.len() == 0 {
        assert(!has_card(hand, CLUBS, 2));
        assert(hand =~= Seq::<Card>::empty());
    }
}

/// After a full trick that is not the hand's last is gathered, the seat on
/// turn is the one whose card follows the suit led and ranks highest of
/// that suit; that seat's pile gains the four cards, the others keep
/// theirs, and play goes on with the next trick.
pub proof fn lemma_winner_leads_next(s: GameView)
    requires
        s.wf(),
        s.phase == Phase::TrickEnd,
        s.trick.len() == 4,
        s.trick_number < 12,
    ensures
        ({
            let next = spec_resolve_trick(s);
            &&& next.phase == Phase::Playing
            &&& next.trick.len() == 0
            &&& next.trick_number == s.trick_number + 1
            &&& exists|k: int|
                0 <= k < 4 && (#[trigger] s.trick[k]).player == next.turn && s.trick[k].card.suit()
                    == s.trick[0].card.suit() && forall|i: int|
                    0 <= i < 4 && (#[trigger] s.trick[i]).card.suit() == s.trick[0].card.suit()
                        ==> s.trick[i].card.rank() <= s.trick[k].card.rank()
            &&& next.taken[next.turn as int] == s.taken[next.turn as int] + seq![
                s.trick[0].card,
                s.trick[1].card,
                s.trick[2].card,
                s.trick[3].card,
            ]
            &&& forall|p: int| 0 <= p < 4 && p != next.turn ==> #[trigger] next.taken[p] == s.taken[p]
        }),
{
    lemma_trick_winner_highest(s.trick, 4);
    let k = best_play_index(s.trick, 4);
    let next = spec_resolve_trick(s);
    assert(s.trick[k].player == next.turn);
    assert(s.trick.map_values(|p: Play| p.card) =~= seq![
        s.trick[0].card,
        s.trick[1].card,
        s.trick[2].card,
        s.trick[3].card,
    ]);
}

/// After the hand's last trick is gathered, the hand is scored from the
/// four piles and each seat's total grows by the points applied to it.
pub proof fn lemma_last_trick_scores(s: GameView)
    requires
        s.wf(),
        s.phase == Phase::TrickEnd,
        s.trick.len() == 4,
        s.trick_number >= 12,
        resolve_fits(s),
    ensures
        ({
            let next = spec_resolve_trick(s);
            let h = spec_score_from_taken(next.taken, s.variant);
            &&& next.hand_score == Some(h)
            &&& next.trick.len() == 0
            &&& next.phase == Phase::HandEnd || next.phase == Phase::GameOver
            &&& forall|i: int| 0 <= i < 4 ==> #[trigger] next.scores[i] == s.scores[i] + h.applied[i]
        }),
{
    let next = spec_resolve_trick(s);
    lemma_trick_winner_highest(s.trick, 4);
    assert(next.taken == taken_after_trick(s));
    let h = spec_score_from_taken(taken_after_trick(s), s.variant);
    assert forall|i: int| 0 <= i < 4 implies #[trigger] next.scores[i] == s.scores[i] + h.applied[i] by {
        assert(i32::MIN <= s.scores[i] + h.applied[i] <= i32::MAX);
    }
}

/// The passing directions: holding keeps the cards; left goes to the next
/// seat in the order of play, across to the seat opposite and right to the
/// seat before; the three send to three different seats, passing right
/// undoes passing left, and passing across twice comes back. Seat `q`
/// receives from the seat that sends to it.
pub proof fn lemma_pass_directions(p: int)
    requires
        0 <= p < 4,
    ensures
        (p + spec_pass_offset(PassDir::Hold)) % 4 == p,
        (p + spec_pass_offset(PassDir::Left)) % 4 == (p + 1) % 4,
        (p + spec_pass_offset(PassDir::Left)) % 4 != p,
        (p + spec_pass_offset(PassDir::Right)) % 4 != p,
        (p + spec_pass_offset(PassDir::Across)) % 4 != p,
        (p + spec_pass_offset(PassDir::Left)) % 4 != (p + spec_pass_offset(PassDir::Right)) % 4,
        (p + spec_pass_offset(PassDir::Left)) % 4 != (p + spec_pass_offset(PassDir::Across)) % 4,
        (p + spec_pass_offset(PassDir::Right)) % 4 != (p + spec_pass_offset(PassDir::Across)) % 4,
        ((p + spec_pass_offset(PassDir::Left)) % 4 + spec_pass_offset(PassDir::Right)) % 4 == p,
        ((p + spec_pass_offset(PassDir::Across)) % 4 + spec_pass_offset(PassDir::Across)) % 4 == p,
        forall|d: PassDir| (#[trigger] pass_source(p, d) + spec_pass_offset(d)) % 4 == p,
        forall|d: PassDir| 0 <= #[trigger] pass_source(p, d) < 4,
{
    assert forall|d: PassDir| (#[trigger] pass_source(p, d) + spec_pass_offset(d)) % 4 == p by {}
}

/// The hands pass left, right and across in turn, and every fourth hand
/// keeps its cards.
pub proof fn lemma_pass_cycle(n: int)
    requires
        0 <= n,
    ensures
        pass_dir_of_hand(n + 4) == pass_dir_of_hand(n),
        pass_dir_of_hand(4 * n) == PassDir::Left,
        pass_dir_of_hand(4 * n + 1) == PassDir::Right,
        pass_dir_of_hand(4 * n + 2) == PassDir::Across,
        pass_dir_of_hand(4 * n + 3) == PassDir::Hold,
{
}

proof fn lemma_first_holder_holds(hands: Seq<Seq<Card>>, suit: Suit, rank: Rank, p: int, q: int)
    requires
        0 <= p <= q < hands.len(),
        hands.len() <= 4,
        has_card(hands[q], suit, rank),
    ensures
        has_card(hands[first_holder(hands, suit, rank, p) as int], suit, rank),
        p <= first_holder(hands, suit, rank, p) <= q,
    decreases q - p,
{
    if !has_card(hands[p], suit, rank) {
        lemma_first_holder_holds(hands, suit, rank, p + 1, q);
    }
}

/// A freshly dealt hand puts on turn the seat that holds the two of clubs.
/// Every seat holds thirteen cards, no trick has been played, hearts are
/// not broken, the totals are carried over, and the hand starts with the
/// passing unless it is a hand that keeps its cards, when play starts at
/// once.
pub proof fn lemma_two_of_clubs_leads(
    variant: VariantId,
    hand_number: usize,
    scores: Seq<i32>,
    hands: Seq<Seq<Card>>,
    state: u32,
)
    requires
        dealt_from(hands, dealing_deck(state)),
    ensures
        ({
            let s = new_hand_view(variant, hand_number, scores, hands);
            &&& 0 <= s.turn < 4 && has_card(s.hands[s.turn as int], CLUBS, 2)
            &&& forall|p: int| 0 <= p < 4 ==> (#[trigger] s.hands[p]).len() == 13
            &&& s.trick.len() == 0 && s.trick_number == 0 && !s.hearts_broken
            &&& forall|p: int| 0 <= p < 4 ==> (#[trigger] s.taken[p]).len() == 0
            &&& s.scores == scores && s.hand_number == hand_number && s.variant == variant
            &&& s.pass_dir == pass_dir_of_hand(hand_number as int)
            &&& s.phase == if pass_dir_of_hand(hand_number as int) == PassDir::Hold {
                Phase::Playing
            } else {
                Phase::Passing
            }
            &&& forall|p: int| 0 <= p < 4 ==> (#[trigger] s.pass_selections[p]) is None
        }),
{
    lemma_new_hand_in_play(variant, hand_number, scores, hands, state);
    broadcast use vstd::seq_lib::lemma_multiset_commutative;

    lemma_deal_holds_deck(hands, state);
    let two = Card { id: 2 };
    assert(fresh_deck()[0] == two);
    assert(fresh_deck().contains(two));
    let all = hands[0] + hands[1] + hands[2] + hands[3];
    assert(all.to_multiset().count(two) > 0);
    assert(all.to_multiset() =~= hands[0].to_multiset().add(hands[1].to_multiset()).add(
        hands[2].to_multiset(),
    ).add(hands[3].to_multiset()));
    let q: int = if hands[0].contains(two) {
        0
    } else if hands[1].contains(two) {
        1
    } else if hands[2].contains(two) {
        2
    } else {
        3
    };
    assert(hands[q].contains(two));
    let i = choose|i: int| 0 <= i < hands[q].len() && hands[q][i] == two;
    assert(hands[q][i].suit() == CLUBS && hands[q][i].rank() == 2);
    lemma_first_holder_holds(hands, CLUBS, 2, 0, q);
}


/// What cards count. Spardame: the queen of spades 100, the ace of hearts
/// 20, every other heart 10, the jack of diamonds −100, played to 500 with
/// a shot moon costing each other seat 100. Hearts: every heart 1 and the
/// queen of spades 13, played to 100 with a shot moon costing each other
/// seat 26. Both pass three cards; only Hearts lets the queen be passed.
/// The deck is worth 140 and 26.
pub proof fn lemma_card_values(c: Card)
    ensures
        spec_card_points(c, VariantId::Spardame) == if c.suit() == SPADES && c.rank() == 12 {
            100int
        } else if c.suit() == DIAMONDS && c.rank() == 11 {
            -100int
        } else if c.suit() == HEARTS && c.rank() == 14 {
            20int
        } else if c.suit() == HEARTS {
            10int
        } else {
            0int
        },
        spec_card_points(c, VariantId::Hjerter) == if c.suit() == SPADES && c.rank() == 12 {
            13int
        } else if c.suit() == HEARTS {
            1int
        } else {
            0int
        },
        spec_variant(VariantId::Spardame).game_limit == 500,
        spec_variant(VariantId::Hjerter).game_limit == 100,
        spec_variant(VariantId::Spardame).moon_others == 100,
        spec_variant(VariantId::Hjerter).moon_others == 26,
        spec_variant(VariantId::Spardame).pass_count == 3,
        spec_variant(VariantId::Hjerter).pass_count == 3,
        !spec_variant(VariantId::Spardame).can_pass_queen,
        spec_variant(VariantId::Hjerter).can_pass_queen,
        points_sum(fresh_deck(), VariantId::Spardame) == 140,
        points_sum(fresh_deck(), VariantId::Hjerter) == 26,
{
    lemma_deck_points(VariantId::Spardame);
    lemma_deck_points(VariantId::Hjerter);
}

/// Playing a legal card: the card leaves the seat's hand and goes on the
/// trick after the cards already there; a heart breaks hearts; the next seat
/// is on turn, or, with the fourth card, the trick is to be gathered. Other
/// hands, the piles and the totals stay as they were.
pub proof fn lemma_play_effect(s: GameView, player: int, card_id: u8)
    requires
        s.wf(),
        0 <= player < 4,
        spec_play_card(s, player, card_id) is Ok,
    ensures
        ({
            let next = spec_play_card(s, player, card_id)->Ok_0;
            let card = Card { id: card_id };
            &&& s.phase == Phase::Playing && s.turn == player
            &&& s.hands[player].contains(card)
            &&& !next.hands[player].contains(card)
            &&& forall|c: Card| c != card ==> (#[trigger] next.hands[player].contains(c) <==> s.hands[player].contains(c))
            &&& forall|q: int| 0 <= q < 4 && q != player ==> #[trigger] next.hands[q] == s.hands[q]
            &&& next.trick == s.trick.push(Play { player: player as PlayerId, card })
            &&& next.hearts_broken == (s.hearts_broken || card.suit() == HEARTS)
            &&& if next.trick.len() < 4 {
                next.phase == Phase::Playing && next.turn == (player + 1) % 4
            } else {
                next.phase == Phase::TrickEnd
            }
            &&& next.taken == s.taken
            &&& next.scores == s.scores
            &&& next.trick_number == s.trick_number
        }),
{
    let card = Card { id: card_id };
    let hand = s.hands[player];
    let next = spec_play_card(s, player, card_id)->Ok_0;
    lemma_kept_members(hand, CardRule::NotId(card_id));
    assert(legal_id(s, player, card_id));
    assert(spec_legal_moves(s, player).len() > 0);
    assert(s.phase == Phase::Playing && s.turn == player);
    assert(holds_id(hand, card_id));
    assert(next.hands[player] == kept(hand, CardRule::NotId(card_id)));
    assert forall|c: Card| c != card implies (#[trigger] next.hands[player].contains(c) <==> s.hands[player].contains(c)) by {
        if c.id == card_id {
            assert(c == card);
        }
    }
    let j = choose|j: int| 0 <= j < hand.len() && (#[trigger] hand[j]).id == card_id;
    assert(hand[j] == card);
    assert(hand.contains(card));
}

/// A seat's pass is accepted exactly in the passing phase, for three
/// distinct cards of its own hand, none of them the queen of spades in
/// Spardame.
pub proof fn lemma_pass_acceptance(s: GameView, player: int, cards: Seq<Card>)
    requires
        s.wf(),
        0 <= player < 4,
    ensures
        spec_set_pass_selection(s, player, cards) is Ok <==> {
            &&& s.phase == Phase::Passing
            &&& cards.len() == 3
            &&& distinct_ids(cards)
            &&& forall|k: int| 0 <= k < cards.len() ==> s.hands[player].contains(#[trigger] cards[k])
            &&& s.variant == VariantId::Spardame ==> forall|k: int|
                0 <= k < cards.len() ==> !(#[trigger] cards[k].suit() == SPADES && cards[k].rank() == 12)
        },
        spec_set_pass_selection(s, player, cards) is Ok ==> spec_set_pass_selection(s, player, cards)->Ok_0
            == (GameView { pass_selections: s.pass_selections.update(player, Some(cards)), ..s }),
{
    let v = spec_variant(s.variant);
    let hand = s.hands[player];
    if pass_selection_error(s, player, cards) is None {
        lemma_accepted_pass_held(s, player, cards);
        lemma_first_unpassable_none(hand, cards, v.can_pass_queen, 0);
        assert forall|k: int| 0 <= k < cards.len() implies !(#[trigger] cards[k].suit() == SPADES && cards[k].rank()
            == 12) || v.can_pass_queen by {
            assert(!unpassable(hand, cards[k], v.can_pass_queen));
        }
    } else if s.phase == Phase::Passing && cards.len() == 3 && distinct_ids(cards) && (forall|k: int|
        0 <= k < cards.len() ==> s.hands[player].contains(#[trigger] cards[k])) && (s.variant
        == VariantId::Spardame ==> forall|k: int|
        0 <= k < cards.len() ==> !(#[trigger] cards[k].suit() == SPADES && cards[k].rank() == 12)) {
        assert forall|k: int| 0 <= k < cards.len() implies !unpassable(hand, #[trigger] cards[k], v.can_pass_queen) by {
            let i = choose|i: int| 0 <= i < hand.len() && hand[i] == cards[k];
            assert(hand[i].id == cards[k].id);
        }
        lemma_no_unpassable_here(hand, cards, v.can_pass_queen, 0);
        assert(false);
    }
}

proof fn lemma_no_unpassable_here(hand: Seq<Card>, cards: Seq<Card>, can_pass_queen: bool, i: int)
    requires
        0 <= i,
        forall|k: int| 0 <= k < cards.len() ==> !unpassable(hand, #[trigger] cards[k], can_pass_queen),
    ensures
        first_unpassable(hand, cards, can_pass_queen, i) is None,
    decreases cards.len() - i,
{
    if i < cards.len() {
        lemma_no_unpassable_here(hand, cards, can_pass_queen, i + 1);
    }
}


/// All thirteen hearts and the queen of spades among the cards.
pub open spec fn took_all_points(pile: Seq<Card>) -> bool {
    kept(pile, CardRule::OfSuit(HEARTS)).len() == 13 && holds_queen(pile)
}

/// Scoring a hand from the four piles. A seat that took all thirteen hearts
/// and the queen of spades has shot the moon: each other seat then scores
/// 26 in Hearts and 100 in Spardame, and the shooter scores nothing but,
/// in Spardame, the jack of diamonds (−100) when it is the seat that took
/// the jack. With no moon shot every seat scores the points of the cards it
/// took.
pub proof fn lemma_hand_scoring(piles: Seq<Seq<Card>>, variant: VariantId)
    requires
        piles.len() == 4,
        piles_fit(piles),
    ensures
        ({
            let h = spec_score_from_taken(piles, variant);
            &&& forall|p: int| 0 <= p < 4 ==> #[trigger] h.raw[p] == points_sum(piles[p], variant)
            &&& h.jack_holder matches Some(j) ==> j < 4 && holds_jack(piles[j as int])
            &&& h.jack_holder is None ==> forall|p: int| 0 <= p < 4 ==> !holds_jack(#[trigger] piles[p])
            &&& (forall|p: int| 0 <= p < 4 ==> !took_all_points(#[trigger] piles[p])) ==> h.moon is None && forall|p: int|
                0 <= p < 4 ==> #[trigger] h.applied[p] == points_sum(piles[p], variant)
            &&& (exists|m: int| 0 <= m < 4 && took_all_points(#[trigger] piles[m])) ==> {
                &&& h.moon is Some
                &&& 0 <= h.moon->0 < 4 && took_all_points(piles[h.moon->0 as int])
                &&& forall|p: int|
                    0 <= p < 4 && p != h.moon->0 ==> #[trigger] h.applied[p] == if variant == VariantId::Hjerter {
                        26int
                    } else {
                        100int
                    }
                &&& h.applied[h.moon->0 as int] == if variant == VariantId::Spardame && h.jack_holder == Some(
                    h.moon->0,
                ) {
                    -100int
                } else {
                    0int
                }
            }
        }),
{
    let h = spec_score_from_taken(piles, variant);
    assert forall|p: int| 0 <= p < 4 implies #[trigger] h.raw[p] == points_sum(piles[p], variant) by {
        lemma_points_sum_bounds(piles[p], variant);
        assert(piles[p].len() <= pile_limit());
    }
    assert(took_all_points(piles[0]) == spec_has_shot_the_moon(piles[0]));
    assert(took_all_points(piles[1]) == spec_has_shot_the_moon(piles[1]));
    assert(took_all_points(piles[2]) == spec_has_shot_the_moon(piles[2]));
    assert(took_all_points(piles[3]) == spec_has_shot_the_moon(piles[3]));
    if h.jack_holder is None {
        assert forall|p: int| 0 <= p < 4 implies !holds_jack(#[trigger] piles[p]) by {
            assert(p == 0 || p == 1 || p == 2 || p == 3);
        }
    }
    if forall|p: int| 0 <= p < 4 ==> !took_all_points(#[trigger] piles[p]) {
        assert(!took_all_points(piles[0]) && !took_all_points(piles[1]) && !took_all_points(piles[2])
            && !took_all_points(piles[3]));
        assert(h.moon is None);
        assert(h.applied == h.raw);
    }
    if exists|m: int| 0 <= m < 4 && took_all_points(#[trigger] piles[m]) {
        let m = choose|m: int| 0 <= m < 4 && took_all_points(#[trigger] piles[m]);
        assert(m == 0 || m == 1 || m == 2 || m == 3);
        assert(h.moon is Some);
    }
}


/// When the four hands hold thirteen cards each and the deck is at the
/// table, every card is in a hand, and the seat [`spec_holder_of`] names
/// holds the two of clubs.
proof fn lemma_two_of_clubs_held(s: GameView)
    requires
        s.hands.len() == 4,
        s.taken.len() == 4,
        holds_deck(s),
        forall|p: int| 0 <= p < 4 ==> (#[trigger] s.hands[p]).len() == 13,
    ensures
        0 <= spec_holder_of(s.hands, CLUBS, 2) < 4,
        has_card(s.hands[spec_holder_of(s.hands, CLUBS, 2) as int], CLUBS, 2),
{
    broadcast use vstd::multiset::group_multiset_axioms;

    let two = Card { id: 2 };
    lemma_fresh_deck_distinct();
    assert(fresh_deck().to_multiset().len() == 52);
    assert(fresh_deck()[0] == two);
    assert(fresh_deck().contains(two));
    assert(table_cards(s).count(two) > 0);
    assert(table_cards(s).len() == 52);
    assert(s.hands[0].to_multiset().len() + s.hands[1].to_multiset().len() + s.hands[2].to_multiset().len()
        + s.hands[3].to_multiset().len() == 52);
    assert(trick_cards(s.trick).to_multiset().len() == 0);
    assert(s.taken[0].to_multiset().len() == 0 && s.taken[1].to_multiset().len() == 0 && s.taken[2].to_multiset().len()
        == 0 && s.taken[3].to_multiset().len() == 0);
    assert(trick_cards(s.trick).to_multiset().count(two) == 0);
    assert(s.taken[0].to_multiset().count(two) == 0);
    assert(s.taken[1].to_multiset().count(two) == 0);
    assert(s.taken[2].to_multiset().count(two) == 0);
    assert(s.taken[3].to_multiset().count(two) == 0);
    let q: int = if s.hands[0].contains(two) {
        0
    } else if s.hands[1].contains(two) {
        1
    } else if s.hands[2].contains(two) {
        2
    } else {
        3
    };
    assert(s.hands[q].contains(two));
    let i = choose|i: int| 0 <= i < s.hands[q].len() && s.hands[q][i] == two;
    assert(s.hands[q][i].suit() == CLUBS && s.hands[q][i].rank() == 2);
    lemma_first_holder_holds(s.hands, CLUBS, 2, 0, q);
}

/// Exchanging the passes: each seat keeps its cards but the ones it chose
/// and gains the ones chosen by the seat that passes to it; every hand still
/// holds thirteen cards; seat 0 is shown what it received; and play starts
/// with the seat holding the two of clubs on turn.
pub proof fn lemma_pass_exchange(s: GameView, next: GameView)
    requires
        s.wf(),
        deck_in_play(s),
        s.phase == Phase::Passing,
        s.pass_dir != PassDir::Hold,
        commit_outcome(s, Ok(next)),
    ensures
        next.phase == Phase::Playing,
        next.trick_number == 0,
        next.trick.len() == 0,
        forall|q: int, c: Card|
            0 <= q < 4 ==> (#[trigger] next.hands[q].contains(c) <==> ((s.hands[q].contains(c) && !chosen(
                s.pass_selections[q],
            ).contains(c)) || chosen(s.pass_selections[pass_source(q, s.pass_dir)]).contains(c))),
        forall|q: int| 0 <= q < 4 ==> (#[trigger] next.hands[q]).len() == 13,
        next.received_pass == chosen(s.pass_selections[pass_source(0, s.pass_dir)]),
        0 <= next.turn < 4,
        has_card(next.hands[next.turn as int], CLUBS, 2),
{
    broadcast use vstd::seq_lib::group_filter_ensures;

    lemma_commit_in_play(s, next);
    lemma_in_play_hands_distinct(s);
    assert forall|p: int| 0 <= p < 4 implies distinct_ids(#[trigger] s.hands[p]) && selection_held(s, p) by {
        assert(s.pass_selections[p] is Some);
    }
    lemma_pass_keeps_cards(s, next.hands);
    assert forall|q: int, c: Card| 0 <= q < 4 implies (#[trigger] next.hands[q].contains(c) <==> ((
    s.hands[q].contains(c) && !chosen(s.pass_selections[q]).contains(c)) || chosen(
        s.pass_selections[pass_source(q, s.pass_dir)],
    ).contains(c))) by {
        let giving = chosen(s.pass_selections[q]);
        let h = s.hands[q];
        let pred = |x: Card| !ids_of(giving).contains(x.id);
        let after = hand_after_pass(s, q);
        assert(next.hands[q].to_multiset() == after.to_multiset());
        assert(next.hands[q].contains(c) <==> after.contains(c)) by {
            assert(next.hands[q].contains(c) <==> next.hands[q].to_multiset().count(c) > 0);
            assert(after.contains(c) <==> after.to_multiset().count(c) > 0);
        }
        let kept_part = kept_after_pass(h, giving);
        let got = chosen(s.pass_selections[pass_source(q, s.pass_dir)]);
        assert(after == kept_part + got);
        assert(after.contains(c) <==> kept_part.contains(c) || got.contains(c)) by {
            if after.contains(c) {
                let i = choose|i: int| 0 <= i < after.len() && after[i] == c;
                if i < kept_part.len() {
                    assert(kept_part[i] == c);
                } else {
                    assert(got[i - kept_part.len()] == c);
                }
            }
            if kept_part.contains(c) {
                let i = choose|i: int| 0 <= i < kept_part.len() && kept_part[i] == c;
                assert(after[i] == c);
            }
            if got.contains(c) {
                let i = choose|i: int| 0 <= i < got.len() && got[i] == c;
                assert(after[kept_part.len() + i] == c);
            }
        }
        assert(ids_of(giving).contains(c.id) <==> giving.contains(c)) by {
            if ids_of(giving).contains(c.id) {
                let i = choose|i: int| 0 <= i < ids_of(giving).len() && ids_of(giving)[i] == c.id;
                assert(giving[i].id == c.id);
                assert(giving[i] == c);
            }
            if giving.contains(c) {
                let i = choose|i: int| 0 <= i < giving.len() && giving[i] == c;
                assert(ids_of(giving)[i] == c.id);
            }
        }
        assert(kept_part.contains(c) <==> h.contains(c) && pred(c)) by {
            if kept_part.contains(c) {
                h.lemma_filter_contains_rev(pred, c);
            }
            if h.contains(c) && pred(c) {
                let i = choose|i: int| 0 <= i < h.len() && h[i] == c;
                h.lemma_filter_contains(pred, i);
            }
        }
    }
    assert forall|q: int| 0 <= q < 4 implies (#[trigger] next.hands[q]).len() == 13 by {
        assert(next.hands[q].len() == s.hands[q].len());
    }
    lemma_two_of_clubs_held(next);
}


/// The trick goes to the seat of a card that follows the suit led and
/// ranks highest among the cards of that suit.
pub proof fn lemma_trick_taker(plays: Seq<Play>)
    requires
        plays.len() > 0,
    ensures
        exists|k: int|
            0 <= k < plays.len() && (#[trigger] plays[k]).player == spec_trick_winner(plays) && plays[k].card.suit()
                == plays[0].card.suit() && forall|i: int|
                0 <= i < plays.len() && (#[trigger] plays[i]).card.suit() == plays[0].card.suit()
                    ==> plays[i].card.rank() <= plays[k].card.rank(),
{
    lemma_trick_winner_highest(plays, plays.len() as int);
    let k = best_play_index(plays, plays.len() as int);
    assert(plays[k].player == spec_trick_winner(plays));
}

} // verus!
