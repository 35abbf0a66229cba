//! Cards, the deck, the shuffling generator and hand order.
use vstd::prelude::*;
use crate::seqs::{swapped, lemma_swap_to_multiset, lemma_insert_to_multiset};

verus! {

broadcast use vstd::seq_lib::group_to_multiset_ensures;

/// 0 clubs, 1 diamonds, 2 spades, 3 hearts.
pub type Suit = u8;

/// 2 to 14, the ace being 14.
pub type Rank = u8;

/// A seat at the table, 0 to 3; seat 0 is the human player.
pub type PlayerId = usize;

pub const CLUBS: Suit = 0;

pub const DIAMONDS: Suit = 1;

pub const SPADES: Suit = 2;

pub const HEARTS: Suit = 3;

pub const SUITS: [Suit; 4] = [0, 1, 2, 3];

pub const RANKS: [Rank; 13] = [2, 3, 4, 5, 6, 7, 8, 9, 10, 11, 12, 13, 14];

pub const SUIT_ORDER: [u8; 4] = [0, 1, 2, 3];

/// A playing card, packed as `suit * 16 + rank`.
#[derive(Debug, Clone, Copy, PartialEq, Eq, Hash, Structural)]
pub struct Card {
    pub id: u8,
}

impl Card {
    pub open spec fn spec_suit(self) -> Suit {
        self.id / 16
    }

    pub open spec fn spec_rank(self) -> Rank {
        self.id % 16
    }

    /// The card of the given suit and rank.
    pub fn new(suit: Suit, rank: Rank) -> (c: Card)
        requires
            suit * 16 + rank <= 255,
        ensures
            c.id == suit * 16 + rank,
    {
        Card { id: suit * 16 + rank }
    }

    #[verifier::when_used_as_spec(spec_suit)]
    pub fn suit(self) -> (s: Suit)
        ensures
            s == self.id / 16,
    {
        self.id / 16
    }

    #[verifier::when_used_as_spec(spec_rank)]
    pub fn rank(self) -> (r: Rank)
        ensures
            r == self.id % 16,
    {
        self.id % 16
    }
}

/// The short code of a rank: "2" to "10", then "J", "Q", "K", "A".
pub open spec fn spec_rank_code(rank: Rank) -> Seq<char> {
    if rank == 11 {
        "J"@
    } else if rank == 12 {
        "Q"@
    } else if rank == 13 {
        "K"@
    } else if rank == 14 {
        "A"@
    } else if rank == 2 {
        "2"@
    } else if rank == 3 {
        "3"@
    } else if rank == 4 {
        "4"@
    } else if rank == 5 {
        "5"@
    } else if rank == 6 {
        "6"@
    } else if rank == 7 {
        "7"@
    } else if rank == 8 {
        "8"@
    } else if rank == 9 {
        "9"@
    } else if rank == 10 {
        "10"@
    } else {
        ""@
    }
}

pub fn rank_code(rank: Rank) -> (code: &'static str)
    ensures
        code@ == spec_rank_code(rank),
{
    match rank {
        11 => "J",
        12 => "Q",
        13 => "K",
        14 => "A",
        r => match r {
            2 => "2",
            3 => "3",
            4 => "4",
            5 => "5",
            6 => "6",
            7 => "7",
            8 => "8",
            9 => "9",
            10 => "10",
            _ => "",
        },
    }
}

/// The `i`-th card of a fresh deck: clubs, diamonds, spades, hearts, each
/// from the two up to the ace.
pub open spec fn deck_card(i: int) -> Card {
    Card { id: ((i / 13) * 16 + i % 13 + 2) as u8 }
}

/// The 52 cards in the order [`make_deck`] gives them.
pub open spec fn fresh_deck() -> Seq<Card> {
    Seq::new(52, |i: int| deck_card(i))
}

pub fn make_deck() -> (deck: Vec<Card>)
    ensures
        deck@ == fresh_deck(),
        deck@.len() == 52,
        forall|i: int| 0 <= i < 52 ==> #[trigger] deck@[i] == deck_card(i),
{
    let mut deck: Vec<Card> = Vec::with_capacity(52);
    let mut s: usize = 0;
    while s < 4
        invariant
            s <= 4,
            deck@.len() == 13 * s,
            forall|i: int| 0 <= i < 13 * s ==> #[trigger] deck@[i] == deck_card(i),
        decreases 4 - s,
    {
        let suit = SUITS[s];
        let mut r: usize = 0;
        while r < 13
            invariant
                s < 4,
                r <= 13,
                suit == s,
                deck@.len() == 13 * s + r,
                forall|i: int| 0 <= i < 13 * s + r ==> #[trigger] deck@[i] == deck_card(i),
            decreases 13 - r,
        {
            let rank = RANKS[r];
            assert(rank == r + 2);
            let ghost k = 13 * s + r;
            assert(k / 13 == s && k % 13 == r) by (nonlinear_arith)
                requires
                    k == 13 * s + r,
                    r < 13,
            ;
            deck.push(Card::new(suit, rank));
            r += 1;
        }
        s += 1;
    }
    assert(deck@ =~= fresh_deck());
    deck
}

/// One step of the linear congruential generator behind [`Rng`].
pub open spec fn lcg_step(state: u32) -> u32 {
    vstd::wrapping::u32_specs::wrapping_add(
        vstd::wrapping::u32_specs::wrapping_mul(state, 1664525),
        1013904223,
    )
}

/// A small deterministic pseudo-random generator.
pub struct Rng {
    state: u32,
}

impl View for Rng {
    type V = u32;

    closed spec fn view(&self) -> u32 {
        self.state
    }
}

#[verifier::external_type_specification]
#[verifier::external_body]
pub struct ExSystemTime(std::time::SystemTime);

/// `std::time::SystemTime::now`: the current time of the system clock.
/// Nothing is promised of it: it depends on when it is called.
#[verifier::external_body]
fn system_now() -> (now: std::time::SystemTime) {
    std::time::SystemTime::now()
}

/// `SystemTime::duration_since` from the Unix epoch: the time elapsed since
/// then, or `None` in place of its error when the time lies before the
/// epoch. Nothing is promised of which: it depends on the time given.
#[verifier::external_body]
fn since_epoch(time: std::time::SystemTime) -> (elapsed: Option<std::time::Duration>) {
    match time.duration_since(std::time::UNIX_EPOCH) {
        Ok(d) => Some(d),
        Err(_) => None,
    }
}

/// `Duration::as_nanos`: the whole number of nanoseconds of the duration.
/// Nothing is promised of it here: a duration is opaque to the library.
#[verifier::external_body]
fn duration_nanos(d: std::time::Duration) -> (nanos: u128) {
    d.as_nanos()
}

/// The nanoseconds since the Unix epoch, cut to their low 32 bits; `None`
/// when the clock reads before the epoch.
fn clock_nanos() -> (nanos: Option<u32>) {
    match since_epoch(system_now()) {
        Some(d) => Some(duration_nanos(d) as u32),
        None => None,
    }
}

/// The generator's seed for a clock reading: the reading (0xdead_beef
/// without one) times 2654435761, wrapping, with the low bit set.
pub open spec fn spec_seed_from_clock(nanos: Option<u32>) -> u32 {
    (vstd::wrapping::u32_specs::wrapping_mul(
        match nanos {
            Some(n) => n,
            None => 0xdead_beefu32,
        },
        2654435761u32,
    ) | 1u32) as u32
}

pub fn seed_from_clock(nanos: Option<u32>) -> (seed: u32)
    ensures
        seed == spec_seed_from_clock(nanos),
        seed % 2 == 1,
{
    let n = match nanos {
        Some(n) => n,
        None => 0xdead_beef,
    };
    let seed = n.wrapping_mul(2654435761) | 1;
    assert(seed % 2 == 1) by (bit_vector)
        requires
            seed == n.wrapping_mul(2654435761) | 1,
    ;
    seed
}

impl Default for Rng {
    fn default() -> (rng: Self)
        ensures
            exists|nanos: Option<u32>| rng@ == spec_seed_from_clock(nanos),
            rng@ % 2 == 1,
    {
        Self::new()
    }
}

impl Rng {
    /// A generator seeded from the clock: its state is the seed
    /// [`seed_from_clock`] makes of some reading of the clock.
    pub fn new() -> (rng: Rng)
        ensures
            exists|nanos: Option<u32>| rng@ == spec_seed_from_clock(nanos),
            rng@ % 2 == 1,
    {
        let nanos = clock_nanos();
        let rng = Rng::from_seed(seed_from_clock(nanos));
        assert(rng@ == spec_seed_from_clock(nanos));
        rng
    }

    pub fn from_seed(seed: u32) -> (rng: Rng)
        ensures
            rng@ == seed,
    {
        Rng { state: seed }
    }

    /// Advances the generator and returns its new state.
    pub fn next_u32(&mut self) -> (value: u32)
        ensures
            final(self)@ == lcg_step(old(self)@),
            value == final(self)@,
    {
        self.state = self.state.wrapping_mul(1664525).wrapping_add(1013904223);
        self.state
    }
}

/// The index, at most `i`, that a generator output picks in the shuffle:
/// `floor(value / 2^32 * (i + 1))`.
pub open spec fn pick_index(value: u32, i: int) -> int {
    (value as int * (i + 1)) / 0x1_0000_0000
}

/// The Fisher-Yates steps for positions `i` down to 1, with the sequence and
/// the generator state they leave.
pub open spec fn shuffle_from(s: Seq<Card>, state: u32, i: int) -> (Seq<Card>, u32)
    decreases i,
{
    if i < 1 {
        (s, state)
    } else {
        let value = lcg_step(state);
        shuffle_from(swapped(s, i, pick_index(value, i)), value, i - 1)
    }
}

/// The order that [`shuffle`] gives `s` with the generator at `state`, and the
/// state the generator ends in.
pub open spec fn shuffled(s: Seq<Card>, state: u32) -> (Seq<Card>, u32) {
    shuffle_from(s, state, s.len() - 1)
}

proof fn lemma_pick_index_bounds(value: u32, i: int)
    requires
        i >= 0,
    ensures
        0 <= pick_index(value, i) <= i,
{
    assert(0 <= (value as int * (i + 1)) / 0x1_0000_0000 < i + 1) by (nonlinear_arith)
        requires
            0 <= value < 0x1_0000_0000,
            i >= 0,
    ;
}

/// Shuffling only reorders: every card keeps its number of copies.
pub proof fn lemma_shuffle_from_keeps_cards(s: Seq<Card>, state: u32, i: int)
    requires
        i < s.len(),
    ensures
        shuffle_from(s, state, i).0.to_multiset() =~= s.to_multiset(),
        shuffle_from(s, state, i).0.len() == s.len(),
    decreases i,
{
    if i >= 1 {
        let value = lcg_step(state);
        lemma_pick_index_bounds(value, i);
        lemma_swap_to_multiset(s, i, pick_index(value, i));
        lemma_shuffle_from_keeps_cards(swapped(s, i, pick_index(value, i)), value, i - 1);
    }
}

fn pick(value: u32, i: usize) -> (j: usize)
    ensures
        j as int == pick_index(value, i as int),
        j <= i,
{
    proof {
        lemma_pick_index_bounds(value, i as int);
    }
    ((value as u128 * (i as u128 + 1)) / 0x1_0000_0000u128) as usize
}

/// Fisher-Yates shuffle driven by `rng`.
pub fn shuffle(items: &mut Vec<Card>, rng: &mut Rng)
    ensures
        (final(items)@, final(rng)@) == shuffled(old(items)@, old(rng)@),
        final(items)@.to_multiset() == old(items)@.to_multiset(),
{
    let n = items.len();
    let ghost s0 = items@;
    let ghost st0 = rng@;
    let mut k: usize = n;
    while k > 1
        invariant
            1 <= k <= n || (k == n && n == 0),
            n == items@.len(),
            shuffle_from(items@, rng@, k - 1) == shuffled(s0, st0),
            s0.len() == n,
        decreases k,
    {
        let i = k - 1;
        let ghost before = items@;
        let ghost st = rng@;
        let value = rng.next_u32();
        let j = pick(value, i);
        assert(shuffle_from(before, st, i as int) == shuffle_from(
            swapped(before, i as int, j as int),
            value,
            i - 1,
        ));
        let a = items[i];
        let b = items[j];
        items.set(i, b);
        items.set(j, a);
        assert(items@ =~= swapped(before, i as int, j as int));
        k = i;
    }
    proof {
        lemma_shuffle_from_keeps_cards(s0, st0, n - 1);
    }
}

/// Hand order: by suit (clubs, diamonds, spades, hearts), then by rank.
pub open spec fn hand_order(a: Card, b: Card) -> bool {
    a.suit() < b.suit() || (a.suit() == b.suit() && a.rank() <= b.rank())
}

pub open spec fn is_sorted_hand(s: Seq<Card>) -> bool {
    forall|i: int, j: int| 0 <= i < j < s.len() ==> hand_order(#[trigger] s[i], #[trigger] s[j])
}

/// Every card is of one of the four suits.
pub open spec fn suits_valid(s: Seq<Card>) -> bool {
    forall|i: int| 0 <= i < s.len() ==> (#[trigger] s[i]).suit() < 4
}

/// A reordering of cards of the four suits holds only such cards.
pub proof fn lemma_suits_valid_by_multiset(a: Seq<Card>, b: Seq<Card>)
    requires
        a.to_multiset() == b.to_multiset(),
        suits_valid(b),
    ensures
        suits_valid(a),
{
    assert forall|i: int| 0 <= i < a.len() implies (#[trigger] a[i]).suit() < 4 by {
        assert(a.contains(a[i]));
        assert(b.to_multiset().count(a[i]) > 0);
        assert(b.contains(a[i]));
    }
}

/// Every card of the fresh deck is of one of the four suits.
pub proof fn lemma_fresh_deck_valid()
    ensures
        suits_valid(fresh_deck()),
{
    assert forall|i: int| 0 <= i < 52 implies (#[trigger] fresh_deck()[i]).suit() < 4 by {
        assert(fresh_deck()[i] == deck_card(i));
    }
}

/// Whether `a` sorts strictly before `b`.
fn sorts_before(a: Card, b: Card) -> (before: bool)
    requires
        a.suit() < 4,
        b.suit() < 4,
    ensures
        before == !hand_order(b, a),
{
    let sa = SUIT_ORDER[a.suit() as usize];
    let sb = SUIT_ORDER[b.suit() as usize];
    assert(sa == a.suit() && sb == b.suit());
    sa < sb || (sa == sb && a.rank() < b.rank())
}

/// Sorts a hand by suit, then rank.
pub fn sort_hand(hand: &mut Vec<Card>)
    requires
        suits_valid(old(hand)@),
    ensures
        is_sorted_hand(final(hand)@),
        final(hand)@.to_multiset() == old(hand)@.to_multiset(),
        suits_valid(final(hand)@),
{
    let n = hand.len();
    let mut sorted: Vec<Card> = Vec::new();
    let mut i: usize = 0;
    while i < n
        invariant
            n == hand@.len(),
            i <= n,
            suits_valid(hand@),
            suits_valid(sorted@),
            is_sorted_hand(sorted@),
            sorted@.to_multiset() == hand@.take(i as int).to_multiset(),
        decreases n - i,
    {
        let c = hand[i];
        let mut pos: usize = 0;
        while pos < sorted.len() && !sorts_before(c, sorted[pos])
            invariant
                pos <= sorted@.len(),
                c.suit() < 4,
                suits_valid(sorted@),
                forall|k: int| 0 <= k < pos ==> hand_order(#[trigger] sorted@[k], c),
            decreases sorted@.len() - pos,
        {
            pos += 1;
        }
        let ghost before = sorted@;
        proof {
            lemma_insert_to_multiset(before, pos as int, c);
            assert(hand@.take(i + 1) =~= hand@.take(i as int).push(c));
            before.insert_ensures(pos as int, c);
        }
        sorted.insert(pos, c);
        assert(sorted@ =~= before.insert(pos as int, c));
        assert(is_sorted_hand(sorted@)) by {
            assert forall|a: int, b: int| 0 <= a < b < sorted@.len() implies hand_order(
                #[trigger] sorted@[a],
                #[trigger] sorted@[b],
            ) by {
                if a < pos && b > pos {
                    assert(hand_order(before[a], c));
                    if pos < before.len() {
                        assert(hand_order(before[pos as int], before[b - 1]));
                    }
                } else if a == pos && b > pos {
                    assert(hand_order(before[pos as int], before[b - 1]));
                } else if a > pos {
                    assert(hand_order(before[a - 1], before[b - 1]));
                }
            }
        }
        i += 1;
    }
    assert(hand@.take(n as int) =~= hand@);
    *hand = sorted;
}

pub open spec fn spec_is_queen_of_spades(c: Card) -> bool {
    c.suit() == SPADES && c.rank() == 12
}

pub open spec fn spec_is_jack_of_diamonds(c: Card) -> bool {
    c.suit() == DIAMONDS && c.rank() == 11
}

pub open spec fn spec_is_two_of_clubs(c: Card) -> bool {
    c.suit() == CLUBS && c.rank() == 2
}

pub open spec fn spec_is_heart(c: Card) -> bool {
    c.suit() == HEARTS
}

pub open spec fn spec_is_penalty(c: Card) -> bool {
    spec_is_heart(c) || spec_is_queen_of_spades(c)
}

#[verifier::when_used_as_spec(spec_is_queen_of_spades)]
pub fn is_queen_of_spades(c: Card) -> (b: bool)
    ensures
        b == spec_is_queen_of_spades(c),
{
    c.suit() == SPADES && c.rank() == 12
}

#[verifier::when_used_as_spec(spec_is_jack_of_diamonds)]
pub fn is_jack_of_diamonds(c: Card) -> (b: bool)
    ensures
        b == spec_is_jack_of_diamonds(c),
{
    c.suit() == DIAMONDS && c.rank() == 11
}

#[verifier::when_used_as_spec(spec_is_two_of_clubs)]
pub fn is_two_of_clubs(c: Card) -> (b: bool)
    ensures
        b == spec_is_two_of_clubs(c),
{
    c.suit() == CLUBS && c.rank() == 2
}

#[verifier::when_used_as_spec(spec_is_heart)]
pub fn is_heart(c: Card) -> (b: bool)
    ensures
        b == spec_is_heart(c),
{
    c.suit() == HEARTS
}

/// Hearts and the queen of spades.
#[verifier::when_used_as_spec(spec_is_penalty)]
pub fn is_penalty(c: Card) -> (b: bool)
    ensures
        b == spec_is_penalty(c),
{
    is_heart(c) || is_queen_of_spades(c)
}

/// Whether some card of `hand` has the id.
pub open spec fn holds_id(hand: Seq<Card>, id: u8) -> bool {
    exists|i: int| 0 <= i < hand.len() && (#[trigger] hand[i]).id == id
}

/// The first card of the hand with the id.
pub fn find_card(hand: &[Card], id: u8) -> (found: Option<Card>)
    ensures
        found == if holds_id(hand@, id) {
            Some(Card { id })
        } else {
            None::<Card>
        },
{
    let mut i: usize = 0;
    while i < hand.len()
        invariant
            i <= hand@.len(),
            forall|k: int| 0 <= k < i ==> (#[trigger] hand@[k]).id != id,
        decreases hand@.len() - i,
    {
        if hand[i].id == id {
            return Some(hand[i]);
        }
        i += 1;
    }
    None
}

/// Whether the id occurs in `ids`.
pub fn contains_id(ids: &[u8], id: u8) -> (found: bool)
    ensures
        found == ids@.contains(id),
{
    let mut i: usize = 0;
    while i < ids.len()
        invariant
            i <= ids@.len(),
            forall|k: int| 0 <= k < i ==> ids@[k] != id,
        decreases ids@.len() - i,
    {
        if ids[i] == id {
            return true;
        }
        i += 1;
    }
    false
}

/// The cards of the hand whose ids are not listed, in hand order.
pub fn without_cards(hand: &[Card], ids: &[u8]) -> (rest: Vec<Card>)
    ensures
        rest@ == hand@.filter(|c: Card| !ids@.contains(c.id)),
{
    let mut rest: Vec<Card> = Vec::new();
    let mut i: usize = 0;
    while i < hand.len()
        invariant
            i <= hand@.len(),
            rest@ == hand@.take(i as int).filter(|c: Card| !ids@.contains(c.id)),
        decreases hand@.len() - i,
    {
        proof {
            assert(hand@.take(i + 1) =~= hand@.take(i as int).push(hand@[i as int]));
            hand@.take(i as int).lemma_filter_push(hand@[i as int], |c: Card| !ids@.contains(c.id));
        }
        if !contains_id(ids, hand[i].id) {
            rest.push(hand[i]);
        }
        i += 1;
    }
    assert(hand@.take(hand@.len() as int) =~= hand@);
    rest
}

} // verus!
