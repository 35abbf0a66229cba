use spardame::app::Flash;
use spardame::cards::{Card, Rng, CLUBS, DIAMONDS, HEARTS, SPADES};
use spardame::engine::{start_hand, Locale, Phase, Play, VariantId};
use spardame::i18n::strings;
use spardame::status::{
    flash_text, is_red, label_for, round_text, score_title, status_glyph, status_text, suit_glyph,
    total_text,
};

fn names() -> [String; 4] {
    ["Ola".to_string(), "Kari".to_string(), "Per".to_string(), "Liv".to_string()]
}

#[test]
fn glyphs_and_colours() {
    assert_eq!(suit_glyph(CLUBS), "♣");
    assert_eq!(suit_glyph(DIAMONDS), "♦");
    assert_eq!(suit_glyph(SPADES), "♠");
    assert_eq!(suit_glyph(HEARTS), "♥");
    assert_eq!(suit_glyph(7), "");
    assert!(is_red(HEARTS) && is_red(DIAMONDS));
    assert!(!is_red(SPADES) && !is_red(CLUBS));
}

#[test]
fn tooltips_name_face_cards_and_number_cards() {
    assert_eq!(label_for(Card::new(SPADES, 12)), "Queen of Spades");
    assert_eq!(label_for(Card::new(DIAMONDS, 11)), "Jack of Diamonds");
    assert_eq!(label_for(Card::new(HEARTS, 14)), "Ace of Hearts");
    assert_eq!(label_for(Card::new(CLUBS, 13)), "King of Clubs");
    assert_eq!(label_for(Card::new(HEARTS, 7)), "Hearts 7");
    assert_eq!(label_for(Card::new(CLUBS, 10)), "Clubs 10");
}

#[test]
fn score_sheet_numbers() {
    let en = strings(Locale::En);
    assert_eq!(round_text(26), "+26");
    assert_eq!(round_text(0), "0");
    assert_eq!(round_text(-100), "-100");
    assert_eq!(total_text(120, 100, &en), "120 · out");
    assert_eq!(total_text(99, 100, &en), "99");
    assert_eq!(total_text(-5, 500, &en), "-5");
}

#[test]
fn status_while_passing_and_leading() {
    let en = strings(Locale::En);
    let mut rng = Rng::from_seed(5);
    let mut state = start_hand(VariantId::Spardame, 0, &[0, 0, 0, 0], &mut rng);
    assert_eq!(state.phase, Phase::Passing);
    assert_eq!(status_text(&state, &names(), &en), "Choose 3 cards to the left.");
    assert_eq!(status_glyph(&state, None, &en), "Passing");
    state.phase = Phase::Playing;
    state.turn = 0;
    assert_eq!(status_text(&state, &names(), &en), "Your lead — play the 2 of clubs.");
    assert_eq!(status_glyph(&state, None, &en), "Queen out · Jack out");
    state.hearts_broken = true;
    assert_eq!(status_glyph(&state, None, &en), "Hearts broken · Queen out · Jack out");
    state.variant = VariantId::Hjerter;
    assert_eq!(status_glyph(&state, None, &en), "Hearts broken · Queen out");
    assert_eq!(status_glyph(&state, Some(HEARTS), &en), "♥ · Hearts");
    state.turn = 2;
    assert_eq!(status_text(&state, &names(), &en), "Per  is playing…");
}

#[test]
fn status_when_following_and_after_a_trick() {
    let en = strings(Locale::En);
    let mut rng = Rng::from_seed(5);
    let mut state = start_hand(VariantId::Hjerter, 3, &[0, 0, 0, 0], &mut rng);
    state.phase = Phase::Playing;
    state.turn = 0;
    state.trick_number = 1;
    state.hands[0] = vec![Card::new(CLUBS, 5), Card::new(HEARTS, 9)];
    state.trick = vec![Play { player: 3, card: Card::new(CLUBS, 9) }];
    assert_eq!(status_text(&state, &names(), &en), "Your turn — follow clubs");
    state.trick = vec![Play { player: 3, card: Card::new(SPADES, 9) }];
    assert_eq!(status_text(&state, &names(), &en), "Your turn — you have no spades");
    state.trick = vec![
        Play { player: 1, card: Card::new(SPADES, 9) },
        Play { player: 2, card: Card::new(SPADES, 13) },
        Play { player: 3, card: Card::new(HEARTS, 14) },
        Play { player: 0, card: Card::new(SPADES, 2) },
    ];
    state.phase = Phase::TrickEnd;
    assert_eq!(status_text(&state, &names(), &en), "Per takes the trick.");
    state.trick[0].card = Card::new(SPADES, 14);
    state.trick[0].player = 0;
    state.trick[3].player = 1;
    assert_eq!(status_text(&state, &names(), &en), "You take the trick.");
    state.phase = Phase::HandEnd;
    assert_eq!(status_text(&state, &names(), &en), "Hand complete.");
}

#[test]
fn notices() {
    let en = strings(Locale::En);
    assert_eq!(flash_text(&en, &Flash::CannotPassQueen), "The queen of spades cannot be passed.");
    assert_eq!(flash_text(&en, &Flash::PickCards(3)), "Choose 3 cards.");
    assert_eq!(flash_text(&en, &Flash::GotCards(3, "Liv".to_string())), "You received 3 cards Liv.");
    assert_eq!(flash_text(&en, &Flash::Illegal), "You cannot play that card now.");
    assert_eq!(flash_text(&en, &Flash::PassFailed), "Could not pass those cards.");
}

#[test]
fn score_sheet_titles() {
    let en = strings(Locale::En);
    let mut rng = Rng::from_seed(5);
    let mut state = start_hand(VariantId::Hjerter, 3, &[0, 0, 0, 0], &mut rng);
    state.phase = Phase::HandEnd;
    assert_eq!(score_title(&state, &names(), &en), "Hand complete");
    state.phase = Phase::GameOver;
    state.tied = vec![2];
    state.winner = Some(2);
    assert_eq!(score_title(&state, &names(), &en), "Per won");
    state.tied = vec![0];
    state.winner = Some(0);
    assert_eq!(score_title(&state, &names(), &en), "You won");
    state.tied = vec![0, 3];
    assert_eq!(score_title(&state, &names(), &en), "Draw");
}
