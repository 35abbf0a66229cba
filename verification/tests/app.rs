use spardame::ai::{choose_play, pass_score};
use spardame::app::{fill_ai_passes, App, Flash, Screen, SettingsPatch};
use spardame::cards::{is_queen_of_spades, Card, PlayerId, Rng};
use spardame::engine::{
    get_variant, legal_moves, passable_cards, start_hand, Difficulty, GameState, Locale, Phase,
    VariantId,
};
use spardame::storage::{default_settings, default_stats, Stats};

fn rank_pass(state: &GameState, player: PlayerId) -> Vec<Card> {
    let v = get_variant(state.variant);
    let hand = &state.hands[player];
    let mut pool = passable_cards(state, player);
    pool.sort_by_key(|c| -pass_score(*c, hand, v.can_pass_queen));
    pool
}

fn first_legal(_state: &GameState, _player: PlayerId) -> usize {
    0
}

fn app_with(variant: VariantId) -> App {
    let mut app = App::new(default_settings(), default_stats(), None);
    app.new_game(Some(variant), &rank_pass);
    app
}

#[test]
fn starts_at_the_menu_without_a_game() {
    let app = App::new(default_settings(), default_stats(), None);
    assert_eq!(app.screen, Screen::Menu);
    assert!(app.state.is_none());
    assert!(app.selected.is_empty());
    assert!(app.flash.is_none());
    let mut rng = Rng::from_seed(2);
    let saved = start_hand(VariantId::Hjerter, 0, &[0, 0, 0, 0], &mut rng);
    let app = App::new(default_settings(), default_stats(), Some(saved));
    assert_eq!(app.screen, Screen::Table);
}

#[test]
fn seat_names_trim_and_fall_back() {
    let mut settings = default_settings();
    settings.player_name = "  Ola \t".to_string();
    let app = App::new(settings, default_stats(), None);
    assert_eq!(app.seat_name(0), "Ola");
    assert_eq!(app.seat_name(1), "Kari");
    assert_eq!(app.seat_name(3), "Liv");
    assert_eq!(app.seat_name(4), "Opponents");
    let names = app.names();
    assert_eq!(names, ["Ola".to_string(), "Kari".to_string(), "Per".to_string(), "Liv".to_string()]);
    let mut blank = default_settings();
    blank.player_name = "   ".to_string();
    blank.locale = Locale::Nb;
    let app = App::new(blank, default_stats(), None);
    assert_eq!(app.seat_name(0), "Du");
}

#[test]
fn new_game_deals_and_computer_seats_choose_passes() {
    let app = app_with(VariantId::Spardame);
    assert_eq!(app.screen, Screen::Table);
    assert_eq!(app.settings.variant, VariantId::Spardame);
    let state = app.state.as_ref().unwrap();
    assert_eq!(state.phase, Phase::Passing);
    assert!(state.pass_selections[0].is_none());
    for p in 1..4 {
        let sel = state.pass_selections[p].as_ref().expect("computer pass");
        assert_eq!(sel.len(), 3);
        assert!(sel.iter().all(|c| !is_queen_of_spades(*c)));
    }
}

#[test]
fn fill_ai_passes_leaves_other_phases() {
    let mut rng = Rng::from_seed(4);
    let state = start_hand(VariantId::Hjerter, 3, &[0, 0, 0, 0], &mut rng);
    let filled = fill_ai_passes(state.clone(), &rank_pass);
    assert!(filled.pass_selections.iter().all(|s| s.is_none()));
}

#[test]
fn selecting_cards_for_the_pass() {
    let mut app = app_with(VariantId::Spardame);
    let hand: Vec<Card> = app.state.as_ref().unwrap().hands[0].clone();
    let free: Vec<Card> = hand.iter().copied().filter(|c| !is_queen_of_spades(*c)).collect();
    app.toggle_card(free[0].id);
    assert_eq!(app.selected, vec![free[0].id]);
    app.toggle_card(free[0].id);
    assert!(app.selected.is_empty());
    if let Some(q) = hand.iter().find(|c| is_queen_of_spades(**c)) {
        app.toggle_card(q.id);
        assert_eq!(app.flash, Some(Flash::CannotPassQueen));
        assert!(app.selected.is_empty());
    }
    app.toggle_card(200);
    assert!(app.selected.is_empty());
    app.confirm_pass();
    assert_eq!(app.flash, Some(Flash::PickCards(3)));
    for c in free.iter().take(4) {
        app.toggle_card(c.id);
    }
    assert_eq!(app.selected.len(), 3);
    app.confirm_pass();
    let state = app.state.as_ref().unwrap();
    assert_eq!(state.phase, Phase::Playing);
    assert_eq!(state.hands[0].len(), 13);
    assert_eq!(app.flash, Some(Flash::GotCards(3, "Liv".to_string())));
    assert!(app.selected.is_empty());
    assert_eq!(state.received_pass.len(), 3);
}

#[test]
fn a_whole_hand_by_the_computer_and_the_player() {
    let mut app = app_with(VariantId::Hjerter);
    let hand: Vec<u8> = app.state.as_ref().unwrap().hands[0].iter().take(3).map(|c| c.id).collect();
    for id in hand {
        app.toggle_card(id);
    }
    app.confirm_pass();
    let mut guard = 0;
    loop {
        guard += 1;
        assert!(guard < 200);
        let phase = app.state.as_ref().unwrap().phase;
        match phase {
            Phase::Playing => {
                let state = app.state.clone().unwrap();
                if state.turn == 0 {
                    assert!(!app.play_ai(&first_legal));
                    let legal = legal_moves(&state, 0);
                    let illegal = state.hands[0].iter().find(|c| !legal.iter().any(|l| l.id == c.id));
                    if let Some(bad) = illegal {
                        assert!(!app.play(bad.id));
                        assert_eq!(app.flash, Some(Flash::Illegal));
                    }
                    let card = choose_play(&state, 0, 0);
                    assert!(app.play(card.id));
                } else {
                    if let Some(mine) = state.hands[0].first() {
                        assert!(!app.play(mine.id));
                    }
                    assert!(app.play_ai(&first_legal));
                }
            }
            Phase::TrickEnd => app.settle_trick(),
            _ => break,
        }
    }
    let state = app.state.as_ref().unwrap();
    assert!(state.phase == Phase::HandEnd || state.phase == Phase::GameOver);
    assert!(app.score_open);
    let total: i32 = state.hand_score.as_ref().unwrap().applied.iter().sum();
    assert!(total == 26 || total == 78);
    if state.phase == Phase::HandEnd {
        app.next_hand(&rank_pass);
        let next = app.state.as_ref().unwrap();
        assert_eq!(next.hand_number, 1);
        assert!(!app.score_open);
    }
}

#[test]
fn settings_patch_and_screens() {
    let mut app = App::new(default_settings(), Stats { games_played: 2, games_won: 1 }, None);
    app.set_settings(SettingsPatch {
        difficulty: Some(Difficulty::Hard),
        player_name: Some("Eva".to_string()),
        locale: Some(Locale::Nb),
        ..Default::default()
    });
    assert_eq!(app.settings.difficulty, Difficulty::Hard);
    assert_eq!(app.settings.player_name, "Eva");
    assert_eq!(app.settings.locale, Locale::Nb);
    assert_eq!(app.settings.variant, VariantId::Spardame);
    assert_eq!(app.copy().you, "Du");
    assert_eq!(app.think_delay(3, 0), 860);
    app.set_rules_open(true);
    assert!(app.rules_open);
    app.set_score_open(true);
    assert!(app.score_open);
    app.continue_game();
    assert_eq!(app.screen, Screen::Menu);
    app.new_game(None, &rank_pass);
    app.abandon();
    assert_eq!(app.screen, Screen::Menu);
    assert!(!app.score_open);
    let blob = app.persist();
    assert!(blob.game.is_some());
    assert_eq!(blob.stats.games_played, 2);
    app.continue_game();
    assert_eq!(app.screen, Screen::Table);
    app.flash = Some(Flash::Illegal);
    app.clear_flash();
    assert!(app.flash.is_none());
}

#[test]
fn a_finished_game_is_not_saved_from_the_menu() {
    let mut app = app_with(VariantId::Hjerter);
    app.state.as_mut().unwrap().phase = Phase::GameOver;
    assert!(app.persist().game.is_some());
    app.abandon();
    assert!(app.persist().game.is_none());
}
