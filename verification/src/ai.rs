//! The computer opponents: what they pass, how they rate each play, and the
//! pause before they play. Scores are in tenths of a point; the random
//! jitter that separates equal ratings is drawn by the caller.
use vstd::prelude::*;
use crate::cards::{
    Card, PlayerId, Rank, Suit, CLUBS, DIAMONDS, HEARTS, SPADES, is_queen_of_spades,
    is_jack_of_diamonds, is_heart, spec_is_queen_of_spades, spec_is_jack_of_diamonds,
    spec_is_heart, spec_is_penalty, holds_id, find_card,
};
use crate::engine::{
    GameState, GameView, Difficulty, Play, CardRule, kept, filter_cards, get_variant,
    spec_variant, spec_passable, passable_cards, legal_moves, spec_legal_moves, spec_trick_winner,
    trick_winner, current_winner_of_trick, spec_current_winner, queen_still_out,
    spec_queen_still_out, jack_still_out, spec_jack_still_out, remaining_cards,
    spec_remaining_cards, copy_cards, holds_queen, holds_queen_exec, distinct_ids,
    pass_selection_error, lemma_kept_contains, ids_of, Phase, best_play_index,
    lemma_trick_winner_highest,
};

verus! {

pub open spec fn think_base(difficulty: Difficulty) -> u32 {
    match difficulty {
        Difficulty::Easy => 520,
        Difficulty::Normal => 680,
        Difficulty::Hard => 860,
    }
}

pub open spec fn think_spread(legal_count: usize) -> u32 {
    if legal_count > 6 {
        180
    } else {
        90
    }
}

/// The pause before a computer seat plays, in milliseconds: a base by
/// difficulty plus `floor(u * spread)`, where `u = (roll >> 8) / 2^24` is the
/// uniform draw taken from the generator value `roll`.
pub fn think_delay_ms(difficulty: Difficulty, legal_count: usize, roll: u32) -> (ms: u32)
    ensures
        ms == think_base(difficulty) + (roll / 256) * think_spread(legal_count) / 16777216,
        think_base(difficulty) <= ms < think_base(difficulty) + think_spread(legal_count),
{
    let base: u32 = match difficulty {
        Difficulty::Easy => 520,
        Difficulty::Normal => 680,
        Difficulty::Hard => 860,
    };
    let extra: u32 = if legal_count > 6 {
        180
    } else {
        90
    };
    let draw: u64 = (roll >> 8) as u64;
    assert(roll >> 8 == roll / 256) by (bit_vector);
    assert(draw * extra / 16777216 < extra) by (nonlinear_arith)
        requires
            draw < 16777216,
            extra > 0,
    ;
    base + (draw * extra as u64 / 16777216) as u32
}

pub open spec fn spec_suit_count(hand: Seq<Card>, suit: Suit) -> nat {
    kept(hand, CardRule::OfSuit(suit)).len()
}

/// How many cards of the suit the hand holds.
pub fn suit_count(hand: &[Card], suit: Suit) -> (n: usize)
    ensures
        n == spec_suit_count(hand@, suit),
{
    filter_cards(hand, CardRule::OfSuit(suit)).len()
}

pub open spec fn spec_pass_score(card: Card, hand: Seq<Card>, can_pass_queen: bool) -> int {
    let r = card.rank() as int;
    if spec_is_jack_of_diamonds(card) {
        -800
    } else if spec_is_queen_of_spades(card) {
        if can_pass_queen && spec_suit_count(hand, SPADES) <= 4 {
            1000
        } else {
            -200
        }
    } else if card.suit() == HEARTS && card.rank() >= 12 {
        700 + 10 * r
    } else if card.suit() == SPADES && card.rank() >= 13 {
        if spec_suit_count(hand, SPADES) <= 3 {
            900
        } else {
            400
        }
    } else if card.rank() >= 13 {
        350 + 10 * r
    } else if card.rank() == 12 {
        200
    } else {
        3 * r
    }
}

/// How much a seat wants to pass the card, in tenths: the jack of diamonds
/// is kept, high hearts and high spades go first.
pub fn pass_score(card: Card, hand: &[Card], can_pass_queen: bool) -> (score: i32)
    ensures
        score == spec_pass_score(card, hand@, can_pass_queen),
{
    let r = card.rank() as i32;
    if is_jack_of_diamonds(card) {
        return -800;
    }
    if is_queen_of_spades(card) {
        return if can_pass_queen && suit_count(hand, SPADES) <= 4 {
            1000
        } else {
            -200
        };
    }
    if card.suit() == HEARTS && card.rank() >= 12 {
        return 700 + 10 * r;
    }
    if card.suit() == SPADES && card.rank() >= 13 {
        return if suit_count(hand, SPADES) <= 3 {
            900
        } else {
            400
        };
    }
    if card.rank() >= 13 {
        return 350 + 10 * r;
    }
    if card.rank() == 12 {
        return 200;
    }
    3 * r
}

/// One step of the search for the shortest short suit that can be passed
/// away whole.
pub open spec fn void_step(best: Seq<Card>, pool: Seq<Card>, hand: Seq<Card>, suit: Suit) -> Seq<Card> {
    let cards = kept(pool, CardRule::OfSuit(suit));
    let total = spec_suit_count(hand, suit);
    if total > 0 && total <= 3 && cards.len() == total && (best.len() == 0 || cards.len() < best.len()) {
        cards
    } else {
        best
    }
}

/// The cards of the shortest of clubs, diamonds and hearts that holds one to
/// three cards, all passable; none when there is no such suit.
pub open spec fn spec_best_void(pool: Seq<Card>, hand: Seq<Card>) -> Seq<Card> {
    void_step(
        void_step(void_step(Seq::empty(), pool, hand, CLUBS), pool, hand, DIAMONDS),
        pool,
        hand,
        HEARTS,
    )
}

pub fn best_void_candidates(pool: &[Card], hand: &[Card]) -> (best: Vec<Card>)
    ensures
        best@ == spec_best_void(pool@, hand@),
{
    let suits: [Suit; 3] = [CLUBS, DIAMONDS, HEARTS];
    let mut best: Vec<Card> = Vec::new();
    let mut k: usize = 0;
    while k < 3
        invariant
            k <= 3,
            suits@ == seq![CLUBS, DIAMONDS, HEARTS],
            best@ == if k == 0 {
                Seq::empty()
            } else if k == 1 {
                void_step(Seq::empty(), pool@, hand@, CLUBS)
            } else if k == 2 {
                void_step(void_step(Seq::empty(), pool@, hand@, CLUBS), pool@, hand@, DIAMONDS)
            } else {
                spec_best_void(pool@, hand@)
            },
        decreases 3 - k,
    {
        let suit = suits[k];
        let cards = filter_cards(pool, CardRule::OfSuit(suit));
        let total = suit_count(hand, suit);
        if total > 0 && total <= 3 && cards.len() == total && (best.len() == 0 || cards.len()
            < best.len()) {
            best = cards;
        }
        k += 1;
    }
    best
}

/// Keeps candidates in order, skipping repeated ids, until `need` are kept.
pub open spec fn greedy_pick(cands: Seq<Card>, need: nat) -> Seq<Card>
    decreases cands.len(),
{
    if cands.len() == 0 {
        Seq::empty()
    } else {
        let picked = greedy_pick(cands.drop_last(), need);
        let c = cands.last();
        if picked.len() < need && !holds_id(picked, c.id) {
            picked.push(c)
        } else {
            picked
        }
    }
}

proof fn lemma_greedy_pick_len(cands: Seq<Card>, need: nat)
    ensures
        greedy_pick(cands, need).len() <= need,
    decreases cands.len(),
{
    if cands.len() > 0 {
        lemma_greedy_pick_len(cands.drop_last(), need);
    }
}

/// Once `need` cards are kept, later candidates change nothing.
proof fn lemma_greedy_pick_full(a: Seq<Card>, b: Seq<Card>, need: nat)
    requires
        greedy_pick(a, need).len() >= need,
    ensures
        greedy_pick(a + b, need) == greedy_pick(a, need),
    decreases b.len(),
{
    if b.len() > 0 {
        assert((a + b).drop_last() =~= a + b.drop_last());
        lemma_greedy_pick_full(a, b.drop_last(), need);
    } else {
        assert(a + b =~= a);
    }
}

/// The void candidates that may be passed.
pub open spec fn passable_void(pool: Seq<Card>, hand: Seq<Card>, can_pass_queen: bool) -> Seq<Card> {
    spec_best_void(pool, hand).filter(|c: Card| can_pass_queen || !spec_is_queen_of_spades(c))
}

/// The cards a pass is drawn from, in order: the preferred cards that may
/// be passed, in the order of preference, then every passable card.
pub open spec fn pass_order(pool: Seq<Card>, ranked: Seq<Card>) -> Seq<Card> {
    ranked.filter(|c: Card| pool.contains(c)) + pool
}

/// The pass drawn from `order`: first a short suit to void, then the cards
/// of `order`, each id once, up to the number the variant passes.
pub open spec fn pick_in_order(s: GameView, player: int, order: Seq<Card>) -> Seq<Card> {
    let v = spec_variant(s.variant);
    let pool = spec_passable(s, player);
    greedy_pick(passable_void(pool, s.hands[player], v.can_pass_queen) + order, v.pass_count as nat)
}

/// The pass a computer seat makes, given an order of preference `ranked`:
/// first a short suit to void, then the preferred cards that may be passed,
/// then any other passable card, each id once, up to the number the variant
/// passes.
pub open spec fn spec_choose_pass_cards(s: GameView, player: int, ranked: Seq<Card>) -> Seq<Card> {
    pick_in_order(s, player, pass_order(spec_passable(s, player), ranked))
}

/// Whether the card is among the cards.
fn has_card(cards: &[Card], c: Card) -> (found: bool)
    ensures
        found == cards@.contains(c),
{
    let mut i: usize = 0;
    while i < cards.len()
        invariant
            i <= cards@.len(),
            forall|k: int| 0 <= k < i ==> cards@[k] != c,
        decreases cards@.len() - i,
    {
        if cards[i] == c {
            return true;
        }
        i += 1;
    }
    false
}

/// The preferred cards that may be passed, then every passable card.
fn order_of_pass(pool: &[Card], ranked: &[Card]) -> (order: Vec<Card>)
    ensures
        order@ == pass_order(pool@, ranked@),
{
    let ghost pred = |c: Card| pool@.contains(c);
    let mut order: Vec<Card> = Vec::new();
    let mut j: usize = 0;
    while j < ranked.len()
        invariant
            j <= ranked@.len(),
            pred == (|c: Card| pool@.contains(c)),
            order@ == ranked@.take(j as int).filter(pred),
        decreases ranked@.len() - j,
    {
        proof {
            assert(ranked@.take(j + 1) =~= ranked@.take(j as int).push(ranked@[j as int]));
            ranked@.take(j as int).lemma_filter_push(ranked@[j as int], pred);
        }
        if has_card(pool, ranked[j]) {
            order.push(ranked[j]);
        }
        j += 1;
    }
    assert(ranked@.take(ranked@.len() as int) =~= ranked@);
    let ghost front = order@;
    let mut k: usize = 0;
    while k < pool.len()
        invariant
            k <= pool@.len(),
            order@ == front + pool@.take(k as int),
        decreases pool@.len() - k,
    {
        order.push(pool[k]);
        assert(front + pool@.take(k + 1) =~= (front + pool@.take(k as int)).push(pool@[k as int]));
        k += 1;
    }
    assert(pool@.take(pool@.len() as int) =~= pool@);
    order
}

pub fn choose_pass_cards(state: &GameState, player: PlayerId, ranked: &[Card]) -> (chosen: Vec<Card>)
    requires
        player < state.hands@.len(),
    ensures
        chosen@ == spec_choose_pass_cards(state@, player as int, ranked@),
{
    let v = get_variant(state.variant);
    let hand = &state.hands[player];
    assert(state@.hands[player as int] == hand@);
    let pool = passable_cards(state, player);
    let need = v.pass_count;
    let ghost pred = |c: Card| v.can_pass_queen || !spec_is_queen_of_spades(c);
    let mut chosen: Vec<Card> = Vec::new();
    let try_void = best_void_candidates(pool.as_slice(), hand.as_slice());
    let ghost void_ok = passable_void(pool@, hand@, v.can_pass_queen);
    assert(void_ok == try_void@.filter(pred));
    assert(try_void@.take(try_void@.len() as int) =~= try_void@);
    let mut i: usize = 0;
    while i < try_void.len()
        invariant
            i <= try_void@.len(),
            need == v.pass_count,
            chosen@ == greedy_pick(try_void@.take(i as int).filter(pred), need as nat),
            pred == (|c: Card| v.can_pass_queen || !spec_is_queen_of_spades(c)),
            try_void@.take(try_void@.len() as int) == try_void@,
        ensures
            chosen@ == greedy_pick(try_void@.filter(pred), need as nat),
        decreases try_void@.len() - i,
    {
        proof {
            assert(try_void@.take(i + 1) =~= try_void@.take(i as int).push(try_void@[i as int]));
            try_void@.take(i as int).lemma_filter_push(try_void@[i as int], pred);
            lemma_greedy_pick_len(try_void@.take(i as int).filter(pred), need as nat);
            let f = try_void@.take(i as int).filter(pred);
            assert(f.push(try_void@[i as int]).drop_last() =~= f);
        }
        if chosen.len() >= need {
            proof {
                let a = try_void@.take(i as int).filter(pred);
                let rest = try_void@.subrange(i as int, try_void@.len() as int).filter(pred);
                assert(try_void@ =~= try_void@.take(i as int) + try_void@.subrange(
                    i as int,
                    try_void@.len() as int,
                ));
                Seq::filter_distributes_over_add(
                    try_void@.take(i as int),
                    try_void@.subrange(i as int, try_void@.len() as int),
                    pred,
                );
                lemma_greedy_pick_full(a, rest, need as nat);
            }
            break;
        }
        let card = try_void[i];
        let used = find_card(chosen.as_slice(), card.id).is_some();
        if used {
            i += 1;
            continue;
        }
        if !v.can_pass_queen && is_queen_of_spades(card) {
            i += 1;
            continue;
        }
        chosen.push(card);
        i += 1;
    }
    proof {
        assert(try_void@.take(try_void@.len() as int) =~= try_void@);
    }
    let order = order_of_pass(pool.as_slice(), ranked);
    assert(order@.take(order@.len() as int) =~= order@);
    let mut j: usize = 0;
    while j < order.len()
        invariant
            j <= order@.len(),
            need == v.pass_count,
            chosen@ == greedy_pick(void_ok + order@.take(j as int), need as nat),
            order@.take(order@.len() as int) == order@,
        ensures
            chosen@ == greedy_pick(void_ok + order@, need as nat),
        decreases order@.len() - j,
    {
        proof {
            assert((void_ok + order@.take(j + 1)).drop_last() =~= void_ok + order@.take(j as int));
            assert((void_ok + order@.take(j + 1)).last() == order@[j as int]);
            lemma_greedy_pick_len(void_ok + order@.take(j as int), need as nat);
        }
        if chosen.len() >= need {
            proof {
                let rest = order@.subrange(j as int, order@.len() as int);
                assert(void_ok + order@ =~= (void_ok + order@.take(j as int)) + rest);
                lemma_greedy_pick_full(void_ok + order@.take(j as int), rest, need as nat);
            }
            break;
        }
        let card = order[j];
        let used = find_card(chosen.as_slice(), card.id).is_some();
        if used {
            j += 1;
            continue;
        }
        chosen.push(card);
        j += 1;
    }
    proof {
        assert(order@.take(order@.len() as int) =~= order@);
    }
    chosen.truncate(need);
    proof {
        lemma_greedy_pick_len(void_ok + order@, need as nat);
    }
    chosen
}

/// How many cards of the trick are hearts.
pub open spec fn trick_hearts(trick: Seq<Play>) -> nat {
    trick.filter(|p: Play| spec_is_heart(p.card)).len()
}

fn count_trick_hearts(trick: &[Play]) -> (n: usize)
    ensures
        n == trick_hearts(trick@),
{
    let mut n: usize = 0;
    let mut i: usize = 0;
    while i < trick.len()
        invariant
            i <= trick@.len(),
            n == trick@.take(i as int).filter(|p: Play| spec_is_heart(p.card)).len(),
            n <= i,
        decreases trick@.len() - i,
    {
        proof {
            assert(trick@.take(i + 1) =~= trick@.take(i as int).push(trick@[i as int]));
            trick@.take(i as int).lemma_filter_push(trick@[i as int], |p: Play| spec_is_heart(p.card));
        }
        if is_heart(trick[i].card) {
            n += 1;
        }
        i += 1;
    }
    assert(trick@.take(trick@.len() as int) =~= trick@);
    n
}

pub open spec fn taken_hearts(s: GameView, player: int) -> nat {
    kept(s.taken[player], CardRule::OfSuit(HEARTS)).len()
}

pub open spec fn points_held(s: GameView, player: int) -> nat {
    taken_hearts(s, player) + if holds_queen(s.taken[player]) {
        5nat
    } else {
        0nat
    }
}

/// No more hearts are counted than the deck holds, where [`moon_urge`]
/// counts the ones still out.
pub open spec fn moon_urge_fits(s: GameView, player: int) -> bool {
    points_held(s, player) >= 6 ==> taken_hearts(s, player) + trick_hearts(s.trick) <= 13
}

/// How strongly the seat goes for all the points: 2 with the queen and
/// eight hearts, 1 with most of the points, a high heart and few hearts out.
pub open spec fn spec_moon_urge(s: GameView, player: int) -> u8 {
    let hearts = taken_hearts(s, player);
    let held = points_held(s, player);
    if held < 6 {
        0
    } else {
        let high_hearts = kept(s.hands[player], CardRule::SuitAtLeast(HEARTS, 12)).len();
        let remaining_hearts = 13 - hearts - trick_hearts(s.trick);
        if holds_queen(s.taken[player]) && hearts >= 8 {
            2
        } else if held >= 9 && high_hearts >= 1 && remaining_hearts <= 6 {
            1
        } else {
            0
        }
    }
}

pub fn moon_urge(state: &GameState, player: PlayerId) -> (urge: u8)
    requires
        state@.wf(),
        player < 4,
        moon_urge_fits(state@, player as int),
    ensures
        urge == spec_moon_urge(state@, player as int),
{
    let taken = &state.taken[player];
    assert(state@.taken[player as int] == taken@);
    assert(state@.hands[player as int] == state.hands@[player as int]@);
    let hearts = filter_cards(taken.as_slice(), CardRule::OfSuit(HEARTS)).len();
    let has_q = holds_queen_exec(taken.as_slice());
    assert(hearts <= taken@.len()) by {
        broadcast use vstd::seq_lib::group_filter_ensures;
    }
    let points_held = hearts + if has_q {
        5
    } else {
        0
    };
    if points_held < 6 {
        return 0;
    }
    let hand = &state.hands[player];
    let high_hearts = filter_cards(hand.as_slice(), CardRule::SuitAtLeast(HEARTS, 12)).len();
    let remaining_hearts = 13 - hearts - count_trick_hearts(state.trick.as_slice());
    if has_q && hearts >= 8 {
        return 2;
    }
    if points_held >= 9 && high_hearts >= 1 && remaining_hearts <= 6 {
        return 1;
    }
    0
}

pub open spec fn spec_choose_play(s: GameView, player: int, pick: usize) -> Card {
    let legal = spec_legal_moves(s, player);
    if legal.len() == 0 {
        if 0 <= player < s.hands.len() && s.hands[player].len() > 0 {
            s.hands[player][0]
        } else {
            Card { id: 2 }
        }
    } else if legal.len() == 1 {
        legal[0]
    } else if pick < legal.len() {
        legal[pick as int]
    } else {
        legal[legal.len() - 1]
    }
}

/// The card a computer seat plays: the only legal move, or the legal move
/// at index `pick` (clamped to the last), which the caller draws at random
/// or takes as the best rated. With no legal move it answers the seat's
/// first card, or the two of clubs.
pub fn choose_play(state: &GameState, player: PlayerId, pick: usize) -> (card: Card)
    requires
        state@.wf(),
    ensures
        card == spec_choose_play(state@, player as int, pick),
        spec_legal_moves(state@, player as int).len() > 0 ==> spec_legal_moves(
            state@,
            player as int,
        ).contains(card),
{
    let legal = legal_moves(state, player);
    if legal.len() == 0 {
        if player < state.hands.len() && state.hands[player].len() > 0 {
            assert(state@.hands[player as int] == state.hands@[player as int]@);
            return state.hands[player][0];
        }
        return Card::new(CLUBS, 2);
    }
    if legal.len() == 1 {
        return legal[0];
    }
    let idx = if pick < legal.len() - 1 {
        pick
    } else {
        legal.len() - 1
    };
    legal[idx]
}

/// Whether the seat would take the trick by adding the card.
pub open spec fn spec_would_take(trick: Seq<Play>, card: Card, player: PlayerId) -> bool {
    spec_trick_winner(trick.push(Play { player, card })) == player
}

pub fn would_take(trick: &[Play], card: Card, player: PlayerId) -> (take: bool)
    ensures
        take == spec_would_take(trick@, card, player),
{
    let mut plays: Vec<Play> = vstd::slice::slice_to_vec(trick);
    plays.push(Play { player, card });
    trick_winner(plays.as_slice()) == player
}

/// Hearts and the queen of spades: the cards that cost points.
pub fn is_penalty_card_value(card: Card) -> (penalty: bool)
    ensures
        penalty == spec_is_penalty(card),
{
    is_heart(card) || is_queen_of_spades(card)
}

/// At least two unseen cards of the suit rank above the card.
pub open spec fn spec_difficulty_safe(unseen: Seq<Card>, card: Card) -> bool {
    kept(unseen, CardRule::SuitAbove(card.suit(), card.rank())).len() >= 2
}

pub fn difficulty_safe(unseen: &[Card], card: Card) -> (safe: bool)
    ensures
        safe == spec_difficulty_safe(unseen@, card),
{
    filter_cards(unseen, CardRule::SuitAbove(card.suit(), card.rank())).len() >= 2
}

/// The rating, in tenths, of leading the card.
pub open spec fn spec_eval_lead(
    s: GameView,
    player: int,
    card: Card,
    moon: u8,
    queen_out: bool,
    jack_out: bool,
    unseen: Seq<Card>,
) -> int {
    let v = spec_variant(s.variant);
    let hand = s.hands[player];
    let r = card.rank() as int;
    if moon > 0 {
        if spec_is_heart(card) || spec_is_queen_of_spades(card) {
            600 + 10 * r
        } else {
            200 + 10 * r
        }
    } else if spec_is_queen_of_spades(card) {
        -1000
    } else if spec_is_heart(card) {
        -400 - 10 * r
    } else if card.suit() == SPADES && queen_out && card.rank() >= 13 {
        -800
    } else if card.suit() == SPADES && queen_out {
        if kept(hand, CardRule::SuitBelow(SPADES, 12)).len() >= 3 && card.rank() <= 6 {
            180
        } else {
            -150
        }
    } else if spec_is_jack_of_diamonds(card) {
        if jack_out {
            100
        } else {
            -200
        }
    } else {
        200 - 10 * r + (if spec_suit_count(hand, card.suit()) >= 4 {
            60int
        } else {
            0int
        }) + (if card.suit() == CLUBS || card.suit() == DIAMONDS {
            80int
        } else {
            0int
        }) + (if unseen.len() > 0 && spec_difficulty_safe(unseen, card) {
            40int
        } else {
            0int
        }) + (if v.jack_diamonds != 0 && card.suit() == DIAMONDS && card.rank() < 11 && jack_out {
            120int
        } else {
            0int
        })
    }
}

/// Rates leading the card, in tenths: low clubs and diamonds are safe
/// leads, hearts and the queen are not, and high spades are not while the
/// queen is out.
pub fn eval_lead(
    state: &GameState,
    player: PlayerId,
    card: Card,
    moon: u8,
    queen_out: bool,
    jack_out: bool,
    unseen: &[Card],
    difficulty: Difficulty,
) -> (score: i32)
    requires
        player < state.hands@.len(),
    ensures
        score == spec_eval_lead(state@, player as int, card, moon, queen_out, jack_out, unseen@),
{
    let v = get_variant(state.variant);
    let hand = &state.hands[player];
    assert(state@.hands[player as int] == hand@);
    let r = card.rank() as i32;
    if moon > 0 {
        if is_heart(card) || is_queen_of_spades(card) {
            return 600 + 10 * r;
        }
        return 200 + 10 * r;
    }
    if is_queen_of_spades(card) {
        return -1000;
    }
    if is_heart(card) {
        return -400 - 10 * r;
    }
    if card.suit() == SPADES && queen_out && card.rank() >= 13 {
        return -800;
    }
    if card.suit() == SPADES && queen_out {
        let my_spades = filter_cards(hand.as_slice(), CardRule::SuitBelow(SPADES, 12));
        if my_spades.len() >= 3 && card.rank() <= 6 {
            return 180;
        }
        return -150;
    }
    if is_jack_of_diamonds(card) {
        return if jack_out {
            100
        } else {
            -200
        };
    }
    let count = suit_count(hand.as_slice(), card.suit());
    let mut score: i32 = 200 - 10 * r + if count >= 4 {
        60
    } else {
        0
    };
    if card.suit() == CLUBS || card.suit() == DIAMONDS {
        score += 80;
    }
    if unseen.len() > 0 && difficulty_safe(unseen, card) {
        score += 40;
    }
    if v.jack_diamonds != 0 && card.suit() == DIAMONDS && card.rank() < 11 && jack_out {
        score += 120;
    }
    score
}

/// The highest spade on the table, or 0.
pub open spec fn max_spade(trick: Seq<Play>) -> Rank
    decreases trick.len(),
{
    if trick.len() == 0 {
        0
    } else {
        let rest = max_spade(trick.drop_last());
        let c = trick.last().card;
        if c.suit() == SPADES && c.rank() > rest {
            c.rank()
        } else {
            rest
        }
    }
}

fn max_spade_exec(trick: &[Play]) -> (m: Rank)
    ensures
        m == max_spade(trick@),
{
    let mut m: Rank = 0;
    let mut i: usize = 0;
    while i < trick.len()
        invariant
            i <= trick@.len(),
            m == max_spade(trick@.take(i as int)),
        decreases trick@.len() - i,
    {
        assert(trick@.take(i + 1).drop_last() =~= trick@.take(i as int));
        let c = trick[i].card;
        if c.suit() == SPADES && c.rank() > m {
            m = c.rank();
        }
        i += 1;
    }
    assert(trick@.take(trick@.len() as int) =~= trick@);
    m
}

/// Some card of the trick costs points.
pub open spec fn trick_has_points(trick: Seq<Play>) -> bool {
    trick.filter(|p: Play| spec_is_penalty(p.card)).len() > 0
}

fn count_trick_points(trick: &[Play]) -> (n: i32)
    requires
        trick@.len() <= i32::MAX,
    ensures
        n == trick@.filter(|p: Play| spec_is_penalty(p.card)).len(),
{
    let mut n: i32 = 0;
    let mut i: usize = 0;
    while i < trick.len()
        invariant
            i <= trick@.len(),
            trick@.len() <= i32::MAX,
            n == trick@.take(i as int).filter(|p: Play| spec_is_penalty(p.card)).len(),
            n <= i,
        decreases trick@.len() - i,
    {
        proof {
            assert(trick@.take(i + 1) =~= trick@.take(i as int).push(trick@[i as int]));
            trick@.take(i as int).lemma_filter_push(trick@[i as int], |p: Play| spec_is_penalty(p.card));
        }
        n = n + if is_penalty_card_value(trick[i].card) {
            1
        } else {
            0
        };
        i += 1;
    }
    assert(trick@.take(trick@.len() as int) =~= trick@);
    n
}

/// The rating, in tenths, of following or discarding onto the trick.
pub open spec fn spec_rate_follow(
    s: GameView,
    player: int,
    card: Card,
    moon: u8,
    queen_out: bool,
    jack_out: bool,
) -> int {
    let v = spec_variant(s.variant);
    let trick = s.trick;
    let lead_suit = trick[0].card.suit();
    let r = card.rank() as int;
    let would_win = spec_would_take(trick, card, player as PlayerId);
    let last_to_play = trick.len() == 3;
    if moon > 0 {
        if would_win {
            500 + 10 * r + (if spec_is_heart(card) {
                80int
            } else {
                0int
            }) + (if spec_is_queen_of_spades(card) {
                200int
            } else {
                0int
            })
        } else {
            100 - 10 * r
        }
    } else if card.suit() == lead_suit {
        if lead_suit == SPADES {
            if spec_is_queen_of_spades(card) {
                if max_spade(trick) > 12 {
                    950
                } else if last_to_play && spec_current_winner(trick) != Some(player as PlayerId) {
                    400
                } else {
                    -900
                }
            } else if would_win && queen_out && card.rank() >= 13 {
                -700
            } else if !would_win {
                300 + 10 * r
            } else {
                50 - 10 * r
            }
        } else if lead_suit == DIAMONDS && v.jack_diamonds != 0 && spec_is_jack_of_diamonds(card) {
            if would_win {
                800
            } else {
                -600
            }
        } else if lead_suit == DIAMONDS && v.jack_diamonds != 0 && would_win && jack_out && card.rank()
            > 11 {
            550
        } else if lead_suit == DIAMONDS && v.jack_diamonds != 0 && would_win && !jack_out {
            80 - 10 * r
        } else if lead_suit == HEARTS {
            if !would_win {
                400 + 10 * r
            } else {
                -200 - 10 * r
            }
        } else if !would_win {
            250 + 4 * r
        } else if trick_has_points(trick) {
            -300 - 10 * r
        } else if last_to_play {
            80 - 2 * r
        } else {
            50 - 5 * r
        }
    } else if spec_is_queen_of_spades(card) {
        1200
    } else if spec_is_jack_of_diamonds(card) {
        -1000
    } else if spec_is_heart(card) && card.rank() >= 12 {
        700 + 10 * r
    } else if spec_is_heart(card) {
        400 + 10 * r
    } else if card.suit() == SPADES && card.rank() >= 13 && queen_out {
        850
    } else if card.rank() >= 13 {
        450 + 10 * r
    } else if card.rank() >= 11 {
        200 + 10 * r
    } else {
        10 * r
    }
}

/// The cards the seat has not seen, where the difficulty counts them.
pub open spec fn unseen_for(s: GameView, player: int, difficulty: Difficulty) -> Seq<Card> {
    if difficulty == Difficulty::Hard {
        spec_remaining_cards(s, player)
    } else {
        Seq::empty()
    }
}

pub open spec fn spec_evaluate_play(
    s: GameView,
    player: int,
    card: Card,
    moon: u8,
    difficulty: Difficulty,
) -> int {
    let v = spec_variant(s.variant);
    let queen_out = spec_queen_still_out(s);
    let jack_out = v.jack_diamonds != 0 && spec_jack_still_out(s);
    if s.trick.len() == 0 {
        spec_eval_lead(s, player, card, moon, queen_out, jack_out, unseen_for(s, player, difficulty))
    } else {
        spec_rate_follow(s, player, card, moon, queen_out, jack_out)
    }
}

/// Rates playing the card, in tenths: ducking under the trick, dumping the
/// queen and high hearts when void, taking the jack of diamonds where it
/// counts, and taking everything when going for the moon.
pub fn evaluate_play(
    state: &GameState,
    player: PlayerId,
    card: Card,
    moon: u8,
    difficulty: Difficulty,
) -> (score: i32)
    requires
        player < 4,
        state@.wf(),
        state@.trick.len() <= i32::MAX,
    ensures
        score == spec_evaluate_play(state@, player as int, card, moon, difficulty),
{
    let trick = &state.trick;
    let v = get_variant(state.variant);
    let queen_out = queen_still_out(state);
    let jack_out = v.jack_diamonds != 0 && jack_still_out(state);
    let unseen: Vec<Card> = if difficulty == Difficulty::Hard {
        remaining_cards(state, player)
    } else {
        Vec::new()
    };
    assert(unseen@ == unseen_for(state@, player as int, difficulty));
    if trick.len() == 0 {
        return eval_lead(state, player, card, moon, queen_out, jack_out, unseen.as_slice(), difficulty);
    }
    let r = card.rank() as i32;
    let lead_suit = trick[0].card.suit();
    let following = card.suit() == lead_suit;
    let current = current_winner_of_trick(trick.as_slice());
    let would_win = would_take(trick.as_slice(), card, player);
    let points_on_trick = count_trick_points(trick.as_slice());
    let last_to_play = trick.len() == 3;
    if moon > 0 {
        if would_win {
            return 500 + 10 * r + (if is_heart(card) {
                80
            } else {
                0
            }) + (if is_queen_of_spades(card) {
                200
            } else {
                0
            });
        }
        return 100 - 10 * r;
    }
    if following {
        if lead_suit == SPADES {
            if is_queen_of_spades(card) {
                let max_spade = max_spade_exec(trick.as_slice());
                if max_spade > 12 {
                    return 950;
                }
                if last_to_play && current != Some(player) {
                    return 400;
                }
                return -900;
            }
            if would_win && queen_out && card.rank() >= 13 {
                return -700;
            }
            if !would_win {
                return 300 + 10 * r;
            }
            return 50 - 10 * r;
        }
        if lead_suit == DIAMONDS && v.jack_diamonds != 0 {
            if is_jack_of_diamonds(card) {
                return if would_win {
                    800
                } else {
                    -600
                };
            }
            if would_win && jack_out && card.rank() > 11 {
                return 550;
            }
            if would_win && !jack_out {
                return 80 - 10 * r;
            }
        }
        if lead_suit == HEARTS {
            return if !would_win {
                400 + 10 * r
            } else {
                -200 - 10 * r
            };
        }
        if !would_win {
            return 250 + 4 * r;
        }
        if points_on_trick > 0 {
            return -300 - 10 * r;
        }
        if last_to_play {
            return 80 - 2 * r;
        }
        return 50 - 5 * r;
    }
    if is_queen_of_spades(card) {
        return 1200;
    }
    if is_jack_of_diamonds(card) {
        return -1000;
    }
    if is_heart(card) && card.rank() >= 12 {
        return 700 + 10 * r;
    }
    if is_heart(card) {
        return 400 + 10 * r;
    }
    if card.suit() == SPADES && card.rank() >= 13 && queen_out {
        return 850;
    }
    if card.rank() >= 13 {
        return 450 + 10 * r;
    }
    if card.rank() >= 11 {
        return 200 + 10 * r;
    }
    10 * r
}

proof fn lemma_greedy_pick_sound(cands: Seq<Card>, need: nat)
    ensures
        distinct_ids(greedy_pick(cands, need)),
        forall|k: int|
            0 <= k < greedy_pick(cands, need).len() ==> cands.contains(#[trigger] greedy_pick(cands, need)[k]),
    decreases cands.len(),
{
    if cands.len() > 0 {
        let rest = cands.drop_last();
        lemma_greedy_pick_sound(rest, need);
        let r = greedy_pick(rest, need);
        let g = greedy_pick(cands, need);
        assert forall|k: int| 0 <= k < g.len() implies cands.contains(#[trigger] g[k]) by {
            if k < r.len() {
                assert(g[k] == r[k]);
                let j = choose|j: int| 0 <= j < rest.len() && rest[j] == r[k];
                assert(cands[j] == rest[j]);
            } else {
                assert(g[k] == cands.last());
                assert(cands[cands.len() - 1] == cands.last());
            }
        }
        assert forall|i: int, j: int| 0 <= i < j < g.len() implies (#[trigger] g[i]).id != (#[trigger] g[j]).id by {
            if j >= r.len() {
                assert(!holds_id(r, cands.last().id));
                assert(g[i] == r[i]);
            } else {
                assert(g[i] == r[i] && g[j] == r[j]);
            }
        }
    }
}

proof fn lemma_greedy_pick_covers(cands: Seq<Card>, need: nat)
    ensures
        greedy_pick(cands, need).len() < need ==> forall|k: int|
            0 <= k < cands.len() ==> holds_id(greedy_pick(cands, need), #[trigger] cands[k].id),
    decreases cands.len(),
{
    if cands.len() > 0 {
        let rest = cands.drop_last();
        lemma_greedy_pick_covers(rest, need);
        let r = greedy_pick(rest, need);
        let g = greedy_pick(cands, need);
        if g.len() < need {
            assert forall|k: int| 0 <= k < cands.len() implies holds_id(g, #[trigger] cands[k].id) by {
                if k < rest.len() {
                    assert(cands[k] == rest[k]);
                    assert(holds_id(r, rest[k].id));
                    let j = choose|j: int| 0 <= j < r.len() && (#[trigger] r[j]).id == rest[k].id;
                    assert(g[j] == r[j]);
                } else {
                    assert(cands[k] == cands.last());
                    if !holds_id(r, cands.last().id) {
                        assert(g[r.len() as int] == cands.last());
                    } else {
                        let j = choose|j: int| 0 <= j < r.len() && (#[trigger] r[j]).id == cands.last().id;
                        assert(g[j] == r[j]);
                    }
                }
            }
        }
    }
}

/// Filtering keeps ids distinct.
pub proof fn lemma_filter_distinct_ids(s: Seq<Card>, pred: spec_fn(Card) -> bool)
    requires
        distinct_ids(s),
    ensures
        distinct_ids(s.filter(pred)),
    decreases s.len(),
{
    broadcast use vstd::seq_lib::group_filter_ensures;

    if s.len() > 0 {
        let rest = s.drop_last();
        assert(rest.push(s.last()) =~= s);
        rest.lemma_filter_push(s.last(), pred);
        lemma_filter_distinct_ids(rest, pred);
        let f = rest.filter(pred);
        if pred(s.last()) {
            assert forall|i: int, j: int| 0 <= i < j < f.len() + 1 implies (#[trigger] s.filter(pred)[i]).id
                != (#[trigger] s.filter(pred)[j]).id by {
                if j == f.len() {
                    assert(f.contains(f[i]));
                    rest.lemma_filter_contains_rev(pred, f[i]);
                    assert(rest.contains(f[i]));
                    let k = choose|k: int| 0 <= k < rest.len() && rest[k] == f[i];
                    assert(s[k] == rest[k]);
                    assert(s[s.len() - 1] == s.last());
                }
            }
        }
    }
}

proof fn lemma_ids_set_len(s: Seq<Card>)
    requires
        distinct_ids(s),
    ensures
        ids_of(s).to_set().len() == s.len(),
{
    assert(ids_of(s).no_duplicates()) by {
        assert forall|i: int, j: int|
            0 <= i < ids_of(s).len() && 0 <= j < ids_of(s).len() && i != j implies ids_of(s)[i] != ids_of(s)[j] by {
            if i < j {
                assert(s[i].id != s[j].id);
            } else {
                assert(s[j].id != s[i].id);
            }
        }
    }
    ids_of(s).unique_seq_to_set();
}

/// A pass drawn from an order that lists only passable cards, and all of
/// them, is accepted when the seat's cards have distinct ids and at least
/// as many can be passed as the variant passes.
proof fn lemma_order_pass_accepted(s: GameView, player: int, ranked: Seq<Card>)
    requires
        s.wf(),
        0 <= player < 4,
        s.phase == Phase::Passing,
        distinct_ids(s.hands[player]),
        spec_passable(s, player).len() >= spec_variant(s.variant).pass_count,
        forall|k: int| 0 <= k < ranked.len() ==> spec_passable(s, player).contains(#[trigger] ranked[k]),
        forall|k: int| 0 <= k < spec_passable(s, player).len() ==> ranked.contains(#[trigger] spec_passable(s, player)[k]),
    ensures
        pass_selection_error(s, player, pick_in_order(s, player, ranked)) is None,
        pick_in_order(s, player, ranked).len() == spec_variant(s.variant).pass_count,
{
    broadcast use vstd::seq_lib::group_filter_ensures;

    let v = spec_variant(s.variant);
    let hand = s.hands[player];
    let pool = spec_passable(s, player);
    let need = v.pass_count as nat;
    let void_ok = passable_void(pool, hand, v.can_pass_queen);
    let cands = void_ok + ranked;
    let chosen = pick_in_order(s, player, ranked);
    assert(chosen == greedy_pick(cands, need));
    lemma_greedy_pick_sound(cands, need);
    lemma_greedy_pick_covers(cands, need);
    lemma_greedy_pick_len(cands, need);
    // Every pool card is a card of the hand, and not a kept queen.
    assert forall|k: int| 0 <= k < pool.len() implies hand.contains(#[trigger] pool[k]) && (v.can_pass_queen
        || !spec_is_queen_of_spades(pool[k])) by {
        if !v.can_pass_queen {
            assert(pool.contains(pool[k]));
            hand.lemma_filter_contains_rev(|c: Card| !spec_is_queen_of_spades(c), pool[k]);
            hand.lemma_filter_pred(|c: Card| !spec_is_queen_of_spades(c), k);
        } else {
            assert(hand[k] == pool[k]);
        }
    }
    // Every candidate is a pool card.
    let best = spec_best_void(pool, hand);
    assert forall|k: int| 0 <= k < best.len() implies pool.contains(#[trigger] best[k]) by {
        let b1 = void_step(Seq::empty(), pool, hand, CLUBS);
        let b2 = void_step(b1, pool, hand, DIAMONDS);
        if best == kept(pool, CardRule::OfSuit(HEARTS)) {
            lemma_kept_contains(pool, CardRule::OfSuit(HEARTS), k);
        } else if best == kept(pool, CardRule::OfSuit(DIAMONDS)) {
            lemma_kept_contains(pool, CardRule::OfSuit(DIAMONDS), k);
        } else {
            assert(best == kept(pool, CardRule::OfSuit(CLUBS)));
            lemma_kept_contains(pool, CardRule::OfSuit(CLUBS), k);
        }
    }
    assert forall|k: int| 0 <= k < cands.len() implies pool.contains(#[trigger] cands[k]) by {
        if k < void_ok.len() {
            assert(void_ok.contains(void_ok[k]));
            best.lemma_filter_contains_rev(|c: Card| v.can_pass_queen || !spec_is_queen_of_spades(c), void_ok[k]);
            let j = choose|j: int| 0 <= j < best.len() && best[j] == void_ok[k];
            assert(cands[k] == void_ok[k]);
        } else {
            assert(cands[k] == ranked[k - void_ok.len()]);
        }
    }
    // The chosen cards may all be passed.
    assert forall|k: int| 0 <= k < chosen.len() implies !crate::engine::unpassable(hand, #[trigger] chosen[k], v.can_pass_queen) by {
        let j = choose|j: int| 0 <= j < cands.len() && cands[j] == chosen[k];
        let i = choose|i: int| 0 <= i < pool.len() && pool[i] == cands[j];
        let h = choose|h: int| 0 <= h < hand.len() && hand[h] == pool[i];
        assert(hand[h].id == chosen[k].id);
    }
    lemma_no_unpassable(hand, chosen, v.can_pass_queen, 0);
    // As many are chosen as are passed.
    if chosen.len() < need {
        let pool_ids = ids_of(pool).to_set();
        let chosen_ids = ids_of(chosen).to_set();
        if v.can_pass_queen {
            assert(pool == hand);
        } else {
            lemma_filter_distinct_ids(hand, |c: Card| !spec_is_queen_of_spades(c));
        }
        lemma_ids_set_len(pool);
        ids_of(chosen).lemma_cardinality_of_set();
        assert forall|id: u8| pool_ids.contains(id) implies chosen_ids.contains(id) by {
            let k = choose|k: int| 0 <= k < ids_of(pool).len() && ids_of(pool)[k] == id;
            let j = choose|j: int| 0 <= j < ranked.len() && ranked[j] == pool[k];
            assert(cands[void_ok.len() + j] == ranked[j]);
            assert(holds_id(chosen, cands[void_ok.len() + j].id));
            let m = choose|m: int| 0 <= m < chosen.len() && (#[trigger] chosen[m]).id == pool[k].id;
            assert(ids_of(chosen)[m] == id);
        }
        vstd::set_lib::lemma_len_subset(pool_ids, chosen_ids);
        assert(false);
    }
}

/// A computer seat's pass is accepted, whatever the order of preference,
/// when the seat's cards have distinct ids and at least as many can be
/// passed as the variant passes; it holds exactly that many cards.
pub proof fn lemma_ai_pass_accepted(s: GameView, player: int, ranked: Seq<Card>)
    requires
        s.wf(),
        0 <= player < 4,
        s.phase == Phase::Passing,
        distinct_ids(s.hands[player]),
        spec_passable(s, player).len() >= spec_variant(s.variant).pass_count,
    ensures
        pass_selection_error(s, player, spec_choose_pass_cards(s, player, ranked)) is None,
        spec_choose_pass_cards(s, player, ranked).len() == spec_variant(s.variant).pass_count,
{
    broadcast use vstd::seq_lib::group_filter_ensures;

    let pool = spec_passable(s, player);
    let pred = |c: Card| pool.contains(c);
    let front = ranked.filter(pred);
    let order = pass_order(pool, ranked);
    assert forall|k: int| 0 <= k < order.len() implies pool.contains(#[trigger] order[k]) by {
        if k < front.len() {
            assert(pred(front[k]));
        } else {
            assert(order[k] == pool[k - front.len()]);
        }
    }
    assert forall|k: int| 0 <= k < pool.len() implies order.contains(#[trigger] pool[k]) by {
        assert(order[front.len() + k] == pool[k]);
    }
    lemma_order_pass_accepted(s, player, order);
}

/// When the order of preference lists exactly the passable cards, the pass
/// is drawn from that order alone: the passable cards added after it are
/// never reached.
pub proof fn lemma_pass_from_ranking(s: GameView, player: int, ranked: Seq<Card>)
    requires
        s.wf(),
        0 <= player < 4,
        s.phase == Phase::Passing,
        distinct_ids(s.hands[player]),
        spec_passable(s, player).len() >= spec_variant(s.variant).pass_count,
        forall|k: int| 0 <= k < ranked.len() ==> spec_passable(s, player).contains(#[trigger] ranked[k]),
        forall|k: int| 0 <= k < spec_passable(s, player).len() ==> ranked.contains(#[trigger] spec_passable(s, player)[k]),
    ensures
        spec_choose_pass_cards(s, player, ranked) == pick_in_order(s, player, ranked),
{
    broadcast use vstd::seq_lib::group_filter_ensures;

    let v = spec_variant(s.variant);
    let pool = spec_passable(s, player);
    let pred = |c: Card| pool.contains(c);
    lemma_filter_all(ranked, pred);
    let void_ok = passable_void(pool, s.hands[player], v.can_pass_queen);
    lemma_order_pass_accepted(s, player, ranked);
    assert(void_ok + pass_order(pool, ranked) =~= (void_ok + ranked) + pool);
    lemma_greedy_pick_full(void_ok + ranked, pool, v.pass_count as nat);
}

/// Filtering by a test that every element passes keeps the sequence.
proof fn lemma_filter_all(s: Seq<Card>, pred: spec_fn(Card) -> bool)
    requires
        forall|k: int| 0 <= k < s.len() ==> pred(#[trigger] s[k]),
    ensures
        s.filter(pred) == s,
    decreases s.len(),
{
    if s.len() > 0 {
        let rest = s.drop_last();
        assert(rest.push(s.last()) =~= s);
        rest.lemma_filter_push(s.last(), pred);
        lemma_filter_all(rest, pred);
    } else {
        assert(s.filter(pred) =~= s);
    }
}

proof fn lemma_no_unpassable(hand: Seq<Card>, cards: Seq<Card>, can_pass_queen: bool, i: int)
    requires
        0 <= i,
        forall|k: int| 0 <= k < cards.len() ==> !crate::engine::unpassable(hand, #[trigger] cards[k], can_pass_queen),
    ensures
        crate::engine::first_unpassable(hand, cards, can_pass_queen, i) is None,
    decreases cards.len() - i,
{
    if i < cards.len() {
        lemma_no_unpassable(hand, cards, can_pass_queen, i + 1);
    }
}


/// Following a heart lead, not going for the moon, a heart that stays under
/// a heart already on the trick is rated at least 400, and a heart that
/// beats every heart on the trick is rated below zero: the seat ducks when
/// it can rather than take the hearts.
pub proof fn lemma_duck_under_hearts(s: GameView, player: int, card: Card, difficulty: Difficulty)
    requires
        0 < s.trick.len() < 4,
        0 <= player < 4,
        s.trick[0].card.suit() == HEARTS,
        card.suit() == HEARTS,
        forall|i: int| 0 <= i < s.trick.len() ==> (#[trigger] s.trick[i]).player != player,
    ensures
        (exists|i: int|
            0 <= i < s.trick.len() && (#[trigger] s.trick[i]).card.suit() == HEARTS && s.trick[i].card.rank()
                > card.rank()) ==> spec_evaluate_play(s, player, card, 0, difficulty) >= 400,
        (forall|i: int|
            0 <= i < s.trick.len() && (#[trigger] s.trick[i]).card.suit() == HEARTS ==> s.trick[i].card.rank()
                < card.rank()) ==> spec_evaluate_play(s, player, card, 0, difficulty) < 0,
{
    let t = s.trick.push(Play { player: player as PlayerId, card });
    let n = s.trick.len() as int;
    lemma_trick_winner_highest(t, n + 1);
    let b = best_play_index(t, n + 1);
    assert(t[0] == s.trick[0]);
    assert(t[n] == Play { player: player as PlayerId, card });
    if exists|i: int|
        0 <= i < s.trick.len() && (#[trigger] s.trick[i]).card.suit() == HEARTS && s.trick[i].card.rank()
            > card.rank() {
        let i = choose|i: int|
            0 <= i < s.trick.len() && (#[trigger] s.trick[i]).card.suit() == HEARTS && s.trick[i].card.rank()
                > card.rank();
        assert(t[i] == s.trick[i]);
        assert(b != n);
        assert(t[b] == s.trick[b]);
        assert(!spec_would_take(s.trick, card, player as PlayerId));
    }
    if forall|i: int|
        0 <= i < s.trick.len() && (#[trigger] s.trick[i]).card.suit() == HEARTS ==> s.trick[i].card.rank()
            < card.rank() {
        if b != n {
            assert(t[b] == s.trick[b]);
            assert(s.trick[b].card.suit() == HEARTS);
        }
        assert(spec_would_take(s.trick, card, player as PlayerId));
    }
}


/// Discarding on a trick of another suit, not going for the moon: the
/// queen of spades is rated above every other discard and the jack of
/// diamonds below every other.
pub proof fn lemma_discards(s: GameView, player: int, card: Card, difficulty: Difficulty)
    requires
        s.trick.len() > 0,
        card.suit() != s.trick[0].card.suit(),
    ensures
        spec_is_queen_of_spades(card) ==> spec_evaluate_play(s, player, card, 0, difficulty) == 1200,
        spec_is_jack_of_diamonds(card) ==> spec_evaluate_play(s, player, card, 0, difficulty) == -1000,
        !spec_is_queen_of_spades(card) && !spec_is_jack_of_diamonds(card) ==> -1000 < spec_evaluate_play(
            s,
            player,
            card,
            0,
            difficulty,
        ) < 1200,
{
}

/// Following while going for the moon: a card that takes the trick, one of
/// the suit led ranking above every card of that suit on the trick, is
/// rated at least 500; a card that does not, off the suit or under a card
/// of the suit, at most 100.
pub proof fn lemma_moon_follow(s: GameView, player: int, card: Card, moon: u8, difficulty: Difficulty)
    requires
        0 < s.trick.len() < 4,
        0 <= player < 4,
        moon > 0,
        forall|i: int| 0 <= i < s.trick.len() ==> (#[trigger] s.trick[i]).player != player,
    ensures
        card.suit() == s.trick[0].card.suit() && (forall|i: int|
            0 <= i < s.trick.len() && (#[trigger] s.trick[i]).card.suit() == s.trick[0].card.suit()
                ==> s.trick[i].card.rank() < card.rank()) ==> spec_evaluate_play(s, player, card, moon, difficulty)
            >= 500,
        (card.suit() != s.trick[0].card.suit() || exists|i: int|
            0 <= i < s.trick.len() && (#[trigger] s.trick[i]).card.suit() == s.trick[0].card.suit()
                && s.trick[i].card.rank() > card.rank()) ==> spec_evaluate_play(s, player, card, moon, difficulty)
            <= 100,
{
    let t = s.trick.push(Play { player: player as PlayerId, card });
    let n = s.trick.len() as int;
    let led = s.trick[0].card.suit();
    lemma_trick_winner_highest(t, n + 1);
    let b = best_play_index(t, n + 1);
    assert(t[0] == s.trick[0]);
    assert(t[n] == Play { player: player as PlayerId, card });
    if card.suit() == led && (forall|i: int|
        0 <= i < s.trick.len() && (#[trigger] s.trick[i]).card.suit() == led ==> s.trick[i].card.rank()
            < card.rank()) {
        if b != n {
            assert(t[b] == s.trick[b]);
        }
        assert(spec_would_take(s.trick, card, player as PlayerId));
    }
    if card.suit() != led {
        assert(b != n);
        assert(t[b] == s.trick[b]);
        assert(!spec_would_take(s.trick, card, player as PlayerId));
    }
    if exists|i: int|
        0 <= i < s.trick.len() && (#[trigger] s.trick[i]).card.suit() == led && s.trick[i].card.rank()
            > card.rank() {
        let i = choose|i: int|
            0 <= i < s.trick.len() && (#[trigger] s.trick[i]).card.suit() == led && s.trick[i].card.rank()
                > card.rank();
        assert(t[i] == s.trick[i]);
        assert(b != n);
        assert(t[b] == s.trick[b]);
        assert(!spec_would_take(s.trick, card, player as PlayerId));
    }
}

/// Leading: not going for the moon, the queen of spades is rated below
/// every other lead; going for the moon, a heart or the queen of spades is
/// rated above every other lead.
pub proof fn lemma_leads(s: GameView, player: int, card: Card, other: Card, difficulty: Difficulty, moon: u8)
    requires
        s.trick.len() == 0,
    ensures
        spec_is_queen_of_spades(card) && !spec_is_queen_of_spades(other) ==> spec_evaluate_play(
            s,
            player,
            card,
            0,
            difficulty,
        ) < spec_evaluate_play(s, player, other, 0, difficulty),
        moon > 0 && (spec_is_heart(card) || spec_is_queen_of_spades(card)) && !(spec_is_heart(other)
            || spec_is_queen_of_spades(other)) ==> spec_evaluate_play(s, player, card, moon, difficulty)
            > spec_evaluate_play(s, player, other, moon, difficulty),
{
}


/// The computer's pause: 520 ms on easy, 680 on medium and 860 on hard,
/// plus up to 90 ms more, or up to 180 with more than six legal moves; a
/// larger draw never gives a shorter pause.
pub proof fn lemma_think_delays(difficulty: Difficulty, legal_count: usize, roll: u32, roll2: u32)
    ensures
        think_base(Difficulty::Easy) == 520,
        think_base(Difficulty::Normal) == 680,
        think_base(Difficulty::Hard) == 860,
        think_spread(legal_count) == if legal_count > 6 {
            180u32
        } else {
            90u32
        },
        roll <= roll2 ==> (roll / 256) * think_spread(legal_count) / 16777216 <= (roll2 / 256) * think_spread(
            legal_count,
        ) / 16777216,
{
    let sp = think_spread(legal_count) as int;
    if roll <= roll2 {
        assert((roll / 256) * sp <= (roll2 / 256) * sp) by (nonlinear_arith)
            requires
                roll / 256 <= roll2 / 256,
                sp >= 0,
        ;
        assert(((roll / 256) * sp) / 16777216 <= ((roll2 / 256) * sp) / 16777216) by (nonlinear_arith)
            requires
                (roll / 256) * sp <= (roll2 / 256) * sp,
        ;
    }
}

} // verus!
