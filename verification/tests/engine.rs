use spardame::cards::{
    is_heart, is_queen_of_spades, is_two_of_clubs, make_deck, shuffle, sort_hand, Card, Rng,
    CLUBS, DIAMONDS, HEARTS, SPADES,
};
use spardame::engine::{
    can_resolve, card_points, commit_pass, create_game, has_shot_the_moon, holder_of, legal_moves, play_card,
    resolve_trick, score_from_taken, set_pass_selection, start_hand, trick_winner, GameState,
    PassDir, Phase, Play, VariantId,
};

fn c(s: &str) -> Card {
    let suit = match s.as_bytes()[0] {
        b'C' => CLUBS,
        b'D' => DIAMONDS,
        b'S' => SPADES,
        b'H' => HEARTS,
        other => panic!("bad suit {other}"),
    };
    let rank = match &s[1..] {
        "2" => 2,
        "3" => 3,
        "4" => 4,
        "5" => 5,
        "6" => 6,
        "7" => 7,
        "8" => 8,
        "9" => 9,
        "10" => 10,
        "J" => 11,
        "Q" => 12,
        "K" => 13,
        "A" => 14,
        other => panic!("bad rank {other}"),
    };
    Card::new(suit, rank)
}

fn with_hands(hands: [&[Card]; 4], extra: impl Fn(&mut GameState)) -> GameState {
    let mut state = start_hand(VariantId::Hjerter, 0, &[0, 0, 0, 0], &mut Rng::from_seed(1));
    state.hands = hands.iter().map(|h| h.to_vec()).collect();
    for h in &mut state.hands {
        sort_hand(h);
    }
    state.phase = Phase::Playing;
    state.pass_dir = PassDir::Hold;
    state.trick.clear();
    state.trick_number = 1;
    state.turn = 0;
    state.hearts_broken = false;
    extra(&mut state);
    state
}

#[test]
fn deck_has_52_unique() {
    let deck = make_deck();
    assert_eq!(deck.len(), 52);
    let mut ids: Vec<u8> = deck.iter().map(|card| card.id).collect();
    ids.sort();
    ids.dedup();
    assert_eq!(ids.len(), 52);
}

#[test]
fn shuffle_preserves_cards() {
    let mut deck = make_deck();
    let mut before: Vec<u8> = deck.iter().map(|card| card.id).collect();
    before.sort();
    shuffle(&mut deck, &mut Rng::from_seed(42));
    let mut after: Vec<u8> = deck.iter().map(|card| card.id).collect();
    let fresh_order: Vec<u8> = make_deck().iter().map(|card| card.id).collect();
    after.sort();
    assert_eq!(after, before);
    assert_ne!(deck.iter().map(|card| card.id).collect::<Vec<_>>(), fresh_order);
}

#[test]
fn spardame_points() {
    assert_eq!(card_points(c("SQ"), VariantId::Spardame), 100);
    assert_eq!(card_points(c("HA"), VariantId::Spardame), 20);
    assert_eq!(card_points(c("H2"), VariantId::Spardame), 10);
    assert_eq!(card_points(c("DJ"), VariantId::Spardame), -100);
    assert_eq!(card_points(c("SA"), VariantId::Spardame), 0);
}

#[test]
fn hjerter_points() {
    assert_eq!(card_points(c("SQ"), VariantId::Hjerter), 13);
    assert_eq!(card_points(c("HA"), VariantId::Hjerter), 1);
    assert_eq!(card_points(c("H10"), VariantId::Hjerter), 1);
    assert_eq!(card_points(c("DJ"), VariantId::Hjerter), 0);
}

#[test]
fn moon_requires_all_hearts_and_queen() {
    let taken: Vec<Card> = make_deck()
        .into_iter()
        .filter(|card| is_heart(*card) || is_queen_of_spades(*card))
        .collect();
    assert_eq!(taken.len(), 14);
    assert!(has_shot_the_moon(&taken));
    let no_queen: Vec<Card> = taken.into_iter().filter(|card| !is_queen_of_spades(*card)).collect();
    assert!(!has_shot_the_moon(&no_queen));
}

#[test]
fn deal_thirteen_and_two_of_clubs() {
    let state = create_game(VariantId::Spardame, &mut Rng::from_seed(7));
    for p in 0..4 {
        assert_eq!(state.hands[p].len(), 13);
    }
    let lead = holder_of(&state.hands, CLUBS, 2);
    assert!(state.hands[lead].iter().any(|card| is_two_of_clubs(*card)));
    assert_eq!(state.pass_dir, PassDir::Left);
    assert_eq!(state.phase, Phase::Passing);
}

#[test]
fn fourth_hand_is_hold() {
    let state = start_hand(VariantId::Hjerter, 3, &[0, 0, 0, 0], &mut Rng::from_seed(3));
    assert_eq!(state.pass_dir, PassDir::Hold);
    assert_eq!(state.phase, Phase::Playing);
}

#[test]
fn cannot_pass_queen_in_spardame() {
    let state = create_game(VariantId::Spardame, &mut Rng::from_seed(9));
    let queen_holder = holder_of(&state.hands, SPADES, 12);
    let hand = &state.hands[queen_holder];
    let others: Vec<Card> = hand
        .iter()
        .copied()
        .filter(|card| !is_queen_of_spades(*card))
        .take(2)
        .collect();
    let mut attempt = vec![c("SQ")];
    attempt.extend(others);
    assert!(set_pass_selection(&state, queen_holder, &attempt).is_err());
}

#[test]
fn pass_three_left() {
    let mut state = start_hand(VariantId::Hjerter, 0, &[0, 0, 0, 0], &mut Rng::from_seed(11));
    let given: Vec<Vec<Card>> = (0..4).map(|p| state.hands[p][..3].to_vec()).collect();
    for p in 0..4 {
        state = set_pass_selection(&state, p, &given[p]).unwrap();
    }
    state = commit_pass(&state).unwrap();
    assert_eq!(state.phase, Phase::Playing);
    assert_eq!(state.hands[0].len(), 13);
    for card in &given[3] {
        assert!(state.hands[0].iter().any(|h| h.id == card.id));
    }
}

#[test]
fn first_lead_must_be_two_of_clubs() {
    let two = c("C2");
    let state = with_hands(
        [&[two, c("C9"), c("SA")], &[c("C3")], &[c("C4")], &[c("C5")]],
        |s| {
            s.trick_number = 0;
            s.turn = 0;
            s.hearts_broken = false;
        },
    );
    let legal: Vec<u8> = legal_moves(&state, 0).iter().map(|card| card.id).collect();
    assert_eq!(legal, vec![two.id]);
}

#[test]
fn must_follow_suit() {
    let state = with_hands(
        [&[c("C9"), c("H3"), c("SA")], &[c("C3")], &[c("C4")], &[c("C5")]],
        |s| {
            s.trick = vec![Play { player: 1, card: c("C8") }];
            s.turn = 0;
            s.trick_number = 1;
        },
    );
    let legal: Vec<u8> = legal_moves(&state, 0).iter().map(|card| card.id).collect();
    assert_eq!(legal, vec![c("C9").id]);
}

#[test]
fn cannot_lead_hearts_before_broken() {
    let state = with_hands(
        [&[c("H3"), c("SA"), c("C9")], &[c("C3")], &[c("C4")], &[c("C5")]],
        |s| {
            s.trick.clear();
            s.turn = 0;
            s.hearts_broken = false;
            s.trick_number = 2;
        },
    );
    let legal: Vec<u8> = legal_moves(&state, 0).iter().map(|card| card.id).collect();
    assert!(legal.contains(&c("SA").id));
    assert!(legal.contains(&c("C9").id));
    assert!(!legal.contains(&c("H3").id));
}

#[test]
fn may_lead_hearts_if_only_hearts() {
    let state = with_hands(
        [&[c("H3"), c("HA")], &[c("C3")], &[c("C4")], &[c("C5")]],
        |s| {
            s.trick.clear();
            s.turn = 0;
            s.hearts_broken = false;
            s.trick_number = 4;
        },
    );
    let legal: Vec<u8> = legal_moves(&state, 0).iter().map(|card| card.id).collect();
    assert!(legal.contains(&c("H3").id));
    assert!(legal.contains(&c("HA").id));
}

#[test]
fn no_penalty_on_first_trick_when_void() {
    let state = with_hands(
        [&[c("H3"), c("SQ"), c("D4")], &[c("C3")], &[c("C4")], &[c("C5")]],
        |s| {
            s.trick = vec![Play { player: 1, card: c("C8") }];
            s.turn = 0;
            s.trick_number = 0;
            s.hearts_broken = false;
        },
    );
    let legal: Vec<u8> = legal_moves(&state, 0).iter().map(|card| card.id).collect();
    assert_eq!(legal, vec![c("D4").id]);
}

#[test]
fn highest_of_led_suit_wins() {
    let winner = trick_winner(&[
        Play { player: 0, card: c("C9") },
        Play { player: 1, card: c("CA") },
        Play { player: 2, card: c("HA") },
        Play { player: 3, card: c("C3") },
    ]);
    assert_eq!(winner, 1);
}

#[test]
fn full_hand_of_hearts_scores_26_or_moon() {
    let mut state = start_hand(VariantId::Hjerter, 3, &[0, 0, 0, 0], &mut Rng::from_seed(21));
    assert_eq!(state.phase, Phase::Playing);
    let mut guard = 0;
    while state.phase != Phase::HandEnd && state.phase != Phase::GameOver {
        guard += 1;
        assert!(guard <= 80, "hand ran too long");
        if state.phase == Phase::Playing {
            let legal = legal_moves(&state, state.turn);
            state = play_card(&state, state.turn, legal[0].id).unwrap();
        } else if state.phase == Phase::TrickEnd {
            state = resolve_trick(&state);
        }
    }
    let hs = state.hand_score.expect("hand score");
    let sum: i32 = hs.applied.iter().sum();
    if hs.moon.is_none() {
        assert_eq!(sum, 26);
    } else {
        assert_eq!(sum, 78);
    }
}

#[test]
fn spardame_moon_gives_100_to_others() {
    let hearts: Vec<Card> = make_deck().into_iter().filter(|card| is_heart(*card)).collect();
    let mut moon = hearts;
    moon.push(c("SQ"));
    moon.push(c("C3"));
    let taken = vec![moon, vec![c("DJ")], vec![c("SA")], vec![c("CA")]];
    assert!(has_shot_the_moon(&taken[0]));
    let hs = score_from_taken(&taken, VariantId::Spardame);
    assert_eq!(hs.moon, Some(0));
    assert_eq!(hs.applied[0], 0);
    assert_eq!(hs.applied[1], 100);
    assert_eq!(hs.applied[2], 100);
    assert_eq!(hs.applied[3], 100);
}

#[test]
fn spardame_moon_keeps_jack_for_shooter() {
    let hearts: Vec<Card> = make_deck().into_iter().filter(|card| is_heart(*card)).collect();
    let mut moon = hearts;
    moon.push(c("SQ"));
    moon.push(c("DJ"));
    let taken = vec![moon, vec![c("C3")], vec![c("SA")], vec![c("CA")]];
    let hs = score_from_taken(&taken, VariantId::Spardame);
    assert_eq!(hs.moon, Some(0));
    assert_eq!(hs.applied[0], -100);
    assert_eq!(hs.applied[1], 100);
}

#[test]
fn play_card_rejects_wrong_suit() {
    let state = with_hands(
        [&[c("C9"), c("H3")], &[c("C3")], &[c("C4")], &[c("C5")]],
        |s| {
            s.trick = vec![Play { player: 1, card: c("C8") }];
            s.turn = 0;
            s.trick_number = 2;
        },
    );
    assert!(play_card(&state, 0, c("H3").id).is_err());
}

#[test]
fn play_card_rejects_out_of_turn() {
    let state = with_hands(
        [&[c("C9")], &[c("C3")], &[c("C4")], &[c("C5")]],
        |s| s.turn = 1,
    );
    assert!(play_card(&state, 0, c("C9").id).is_err());
}

#[test]
fn last_trick_fits_unless_a_total_would_overflow() {
    let mut rng = Rng::from_seed(21);
    let mut state = start_hand(VariantId::Hjerter, 3, &[0, 0, 0, 0], &mut rng);
    let mut guard = 0;
    loop {
        guard += 1;
        assert!(guard < 80);
        if state.phase == Phase::TrickEnd {
            assert!(can_resolve(&state));
            if state.trick_number == 12 {
                break;
            }
            state = resolve_trick(&state);
            continue;
        }
        let p = state.turn;
        let card = legal_moves(&state, p)[0];
        state = play_card(&state, p, card.id).unwrap();
    }
    assert!(state.hands.iter().all(|h| h.is_empty()));
    let mut high = state.clone();
    high.scores = [i32::MAX; 4];
    assert!(!can_resolve(&high));
    let done = resolve_trick(&state);
    let total: i32 = done.hand_score.as_ref().unwrap().applied.iter().sum();
    assert!(total == 26 || total == 78);
}
