use spardame::ai::{
    best_void_candidates, choose_pass_cards, choose_play, difficulty_safe, evaluate_play,
    moon_urge, pass_score, suit_count, think_delay_ms, would_take,
};
use spardame::cards::{is_queen_of_spades, Card, Rng, CLUBS, DIAMONDS, HEARTS, SPADES};
use spardame::engine::{
    get_variant, legal_moves, passable_cards, play_card, resolve_trick, start_hand, Difficulty,
    GameState, Phase, Play, VariantId,
};

const DIFFICULTIES: [Difficulty; 3] = [Difficulty::Easy, Difficulty::Normal, Difficulty::Hard];

struct Jitter(u32);

impl Jitter {
    fn unit(&mut self) -> f64 {
        self.0 = self.0.wrapping_mul(1664525).wrapping_add(1013904223);
        (self.0 >> 8) as f64 / 16777216.0
    }
    fn noise(&mut self, difficulty: Difficulty) -> f64 {
        (self.unit() - 0.5)
            * match difficulty {
                Difficulty::Easy => 80.0,
                Difficulty::Normal => 12.0,
                Difficulty::Hard => 2.0,
            }
    }
}

fn ranked_pool(state: &GameState, player: usize, difficulty: Difficulty, jitter: &mut Jitter) -> Vec<Card> {
    let v = get_variant(state.variant);
    let hand = &state.hands[player];
    let pool = passable_cards(state, player);
    let mut scored: Vec<(Card, f64)> = pool
        .iter()
        .map(|&card| (card, pass_score(card, hand, v.can_pass_queen) as f64 / 10.0 + jitter.noise(difficulty)))
        .collect();
    scored.sort_by(|a, b| b.1.partial_cmp(&a.1).unwrap_or(std::cmp::Ordering::Equal));
    scored.into_iter().map(|(card, _)| card).collect()
}

fn pick_play(state: &GameState, player: usize, difficulty: Difficulty, jitter: &mut Jitter) -> usize {
    let legal = legal_moves(state, player);
    if legal.len() <= 1 {
        return 0;
    }
    if matches!(difficulty, Difficulty::Easy) && jitter.unit() < 0.45 {
        return (jitter.unit() * legal.len() as f64) as usize;
    }
    let moon = moon_urge(state, player);
    let mut best = 0;
    let mut best_score = f64::MIN;
    for (i, &card) in legal.iter().enumerate() {
        let score = evaluate_play(state, player, card, moon, difficulty) as f64 / 10.0 + jitter.noise(difficulty);
        if score > best_score {
            best = i;
            best_score = score;
        }
    }
    best
}

#[test]
fn choose_pass_cards_returns_a_valid_selection() {
    let mut jitter = Jitter(0x1234_5678);
    for seed in 0..20u32 {
        let mut rng = Rng::from_seed(seed);
        // hand_number 0 -> PassDir::Left -> Phase::Passing
        let state = start_hand(VariantId::Spardame, 0, &[0, 0, 0, 0], &mut rng);
        let v = get_variant(state.variant);
        for player in 0..4 {
            for &difficulty in &DIFFICULTIES {
                let ranked = ranked_pool(&state, player, difficulty, &mut jitter);
                let chosen = choose_pass_cards(&state, player, &ranked);
                assert_eq!(chosen.len(), v.pass_count);
                let ids: std::collections::HashSet<u8> = chosen.iter().map(|c| c.id).collect();
                assert_eq!(ids.len(), v.pass_count, "no duplicate cards in the pass");
                for card in &chosen {
                    assert!(
                        state.hands[player].iter().any(|c| c.id == card.id),
                        "AI tried to pass a card it doesn't hold"
                    );
                    assert!(
                        v.can_pass_queen || !is_queen_of_spades(*card),
                        "Spardame's queen of spades can't be passed"
                    );
                }
            }
        }
    }
}

#[test]
fn choose_play_always_returns_a_legal_move() {
    let mut jitter = Jitter(0x1234_5678);
    for seed in 0..20u32 {
        for variant in [VariantId::Spardame, VariantId::Hjerter] {
            let mut rng = Rng::from_seed(seed);
            // hand_number 3 -> PassDir::Hold -> straight to Phase::Playing
            let mut state = start_hand(variant, 3, &[0, 0, 0, 0], &mut rng);
            let mut guard = 0;
            while state.phase == Phase::Playing && guard < 60 {
                guard += 1;
                let player = state.turn;
                let legal = legal_moves(&state, player);
                for &difficulty in &DIFFICULTIES {
                    let pick = pick_play(&state, player, difficulty, &mut jitter);
                    let played = choose_play(&state, player, pick);
                    assert!(
                        legal.iter().any(|c| c.id == played.id),
                        "AI chose a card not among the legal moves"
                    );
                }
                let pick = pick_play(&state, player, Difficulty::Normal, &mut jitter);
                let card = choose_play(&state, player, pick);
                state = play_card(&state, player, card.id).expect("AI move must be accepted");
                if state.phase == Phase::TrickEnd {
                    state = resolve_trick(&state);
                }
            }
            assert_ne!(state.phase, Phase::Playing, "hand never finished within 60 plays");
        }
    }
}

fn card(suit: u8, rank: u8) -> Card {
    Card::new(suit, rank)
}

#[test]
fn think_delay_depends_on_difficulty_and_choice() {
    assert_eq!(think_delay_ms(Difficulty::Easy, 3, 0), 520);
    assert_eq!(think_delay_ms(Difficulty::Normal, 3, 0), 680);
    assert_eq!(think_delay_ms(Difficulty::Hard, 7, 0), 860);
    // The largest draw stays below base + spread.
    assert_eq!(think_delay_ms(Difficulty::Easy, 3, u32::MAX), 520 + 89);
    assert_eq!(think_delay_ms(Difficulty::Hard, 7, u32::MAX), 860 + 179);
    // Half way: (2^31 >> 8) * 180 / 2^24 = 90.
    assert_eq!(think_delay_ms(Difficulty::Normal, 9, 1 << 31), 680 + 90);
}

#[test]
fn pass_score_prefers_dangerous_cards() {
    let hand = vec![card(SPADES, 12), card(SPADES, 13), card(HEARTS, 14), card(CLUBS, 5)];
    assert_eq!(pass_score(card(DIAMONDS, 11), &hand, true), -800);
    assert_eq!(pass_score(card(SPADES, 12), &hand, true), 1000);
    assert_eq!(pass_score(card(SPADES, 12), &hand, false), -200);
    assert_eq!(pass_score(card(HEARTS, 14), &hand, true), 840);
    assert_eq!(pass_score(card(SPADES, 13), &hand, true), 900);
    assert_eq!(pass_score(card(CLUBS, 13), &hand, true), 480);
    assert_eq!(pass_score(card(CLUBS, 12), &hand, true), 200);
    assert_eq!(pass_score(card(CLUBS, 5), &hand, true), 15);
    assert_eq!(suit_count(&hand, SPADES), 2);
}

#[test]
fn best_void_picks_the_shortest_passable_suit() {
    let hand = vec![card(CLUBS, 3), card(CLUBS, 9), card(DIAMONDS, 4), card(HEARTS, 7), card(HEARTS, 8), card(HEARTS, 9), card(SPADES, 2)];
    let void = best_void_candidates(&hand, &hand);
    assert_eq!(void, vec![card(DIAMONDS, 4)]);
    let none = best_void_candidates(&[], &hand);
    assert!(none.is_empty());
}

#[test]
fn would_take_compares_with_the_led_suit() {
    let trick = vec![Play { player: 1, card: card(CLUBS, 9) }];
    assert!(would_take(&trick, card(CLUBS, 10), 2));
    assert!(!would_take(&trick, card(CLUBS, 8), 2));
    assert!(!would_take(&trick, card(HEARTS, 14), 2));
}

#[test]
fn difficulty_safe_needs_two_higher_unseen() {
    let unseen = vec![card(CLUBS, 10), card(CLUBS, 12), card(HEARTS, 14)];
    assert!(difficulty_safe(&unseen, card(CLUBS, 9)));
    assert!(!difficulty_safe(&unseen, card(CLUBS, 11)));
}

#[test]
fn choose_play_clamps_the_pick_and_answers_without_moves() {
    let mut state = start_hand(VariantId::Hjerter, 3, &[0, 0, 0, 0], &mut Rng::from_seed(5));
    state.hands = vec![
        vec![card(CLUBS, 3), card(CLUBS, 9), card(SPADES, 4)],
        vec![card(CLUBS, 4)],
        vec![card(CLUBS, 5)],
        vec![card(CLUBS, 6)],
    ];
    state.trick = vec![Play { player: 3, card: card(CLUBS, 2) }];
    state.trick_number = 1;
    state.turn = 0;
    state.phase = Phase::Playing;
    assert_eq!(choose_play(&state, 0, 0), card(CLUBS, 3));
    assert_eq!(choose_play(&state, 0, 1), card(CLUBS, 9));
    assert_eq!(choose_play(&state, 0, 99), card(CLUBS, 9));
    // Seat 1 is not on turn: its first card.
    assert_eq!(choose_play(&state, 1, 0), card(CLUBS, 4));
}

#[test]
fn moon_urge_needs_points_held() {
    let mut state = start_hand(VariantId::Hjerter, 3, &[0, 0, 0, 0], &mut Rng::from_seed(5));
    assert_eq!(moon_urge(&state, 0), 0);
    state.taken[0] = (2..=9).map(|r| card(HEARTS, r)).collect();
    state.taken[0].push(card(SPADES, 12));
    assert_eq!(moon_urge(&state, 0), 2);
}

#[test]
fn evaluate_play_dumps_the_queen_when_void() {
    let mut state = start_hand(VariantId::Spardame, 3, &[0, 0, 0, 0], &mut Rng::from_seed(5));
    state.hands = vec![
        vec![card(SPADES, 12), card(HEARTS, 5)],
        vec![card(CLUBS, 4)],
        vec![card(CLUBS, 5)],
        vec![card(CLUBS, 6)],
    ];
    state.taken = vec![vec![], vec![], vec![], vec![]];
    state.trick = vec![Play { player: 3, card: card(CLUBS, 9) }];
    state.turn = 0;
    state.phase = Phase::Playing;
    assert_eq!(evaluate_play(&state, 0, card(SPADES, 12), 0, Difficulty::Normal), 1200);
    assert_eq!(evaluate_play(&state, 0, card(HEARTS, 5), 0, Difficulty::Normal), 450);
    // Leading: a low club is a safe lead.
    state.trick.clear();
    assert_eq!(evaluate_play(&state, 0, card(CLUBS, 3), 0, Difficulty::Normal), 200 - 30 + 80);
}


#[test]
fn any_ranking_gives_a_valid_pass() {
    let mut rng = Rng::from_seed(9);
    let state = start_hand(VariantId::Spardame, 0, &[0, 0, 0, 0], &mut rng);
    let v = get_variant(state.variant);
    let queen = Card::new(SPADES, 12);
    let stranger = state.hands[1][0];
    let rankings: Vec<Vec<Card>> = vec![Vec::new(), vec![queen, queen, stranger], state.hands[2].clone()];
    for ranked in &rankings {
        let chosen = choose_pass_cards(&state, 2, ranked);
        assert_eq!(chosen.len(), v.pass_count);
        let ids: std::collections::HashSet<u8> = chosen.iter().map(|c| c.id).collect();
        assert_eq!(ids.len(), v.pass_count);
        for card in &chosen {
            assert!(state.hands[2].contains(card));
            assert!(!is_queen_of_spades(*card));
        }
    }
    let pool = passable_cards(&state, 2);
    let mut reversed = pool.clone();
    reversed.reverse();
    assert_eq!(choose_pass_cards(&state, 2, &reversed).len(), 3);
}
