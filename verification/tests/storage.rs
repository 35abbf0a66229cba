use spardame::cards::{Card, Rng, CLUBS};
use spardame::engine::{start_hand, CardBackTint, Difficulty, Locale, VariantId, Phase};
use spardame::storage::{
    default_settings, default_stats, deserialize_state, load_save, serialize_state, write_save,
    SaveBlob, Stats,
};

#[test]
fn state_round_trips_through_serialization() {
    let mut rng = Rng::from_seed(7);
    let state = start_hand(VariantId::Spardame, 3, &[10, 20, 30, 40], &mut rng);
    let serialized = serialize_state(&state);
    assert_eq!(serialized.hands[0].len(), 13);
    assert_eq!(serialized.hands[0][0], state.hands[0][0].id);
    let restored = deserialize_state(&serialized);
    assert_eq!(restored.variant, state.variant);
    assert_eq!(restored.phase, state.phase);
    assert_eq!(restored.hands, state.hands);
    assert_eq!(restored.turn, state.turn);
    assert_eq!(restored.scores, state.scores);
}

#[test]
fn ids_read_back_as_cards() {
    let mut rng = Rng::from_seed(7);
    let mut serialized = serialize_state(&start_hand(VariantId::Hjerter, 0, &[0, 0, 0, 0], &mut rng));
    serialized.trick = vec![(2, Card::new(CLUBS, 9).id)];
    serialized.received_pass = vec![Card::new(CLUBS, 4).id];
    let restored = deserialize_state(&serialized);
    assert_eq!(restored.trick[0].player, 2);
    assert_eq!(restored.trick[0].card, Card::new(CLUBS, 9));
    assert_eq!(restored.received_pass, vec![Card::new(CLUBS, 4)]);
}

#[test]
fn defaults() {
    let s = default_settings();
    assert_eq!(s.variant, VariantId::Spardame);
    assert_eq!(s.difficulty, Difficulty::Normal);
    assert_eq!(s.player_name, "");
    assert_eq!(s.ai_names, ["Kari".to_string(), "Per".to_string(), "Liv".to_string()]);
    assert!(!s.muted);
    assert_eq!(s.locale, Locale::En);
    assert_eq!(s.card_back, CardBackTint::Red);
    assert_eq!(default_stats(), Stats { games_played: 0, games_won: 0 });
}

#[test]
fn unreadable_save_gives_defaults() {
    let (settings, stats, game) = load_save(None);
    assert_eq!(settings.ai_names[0], "Kari");
    assert_eq!(stats, Stats { games_played: 0, games_won: 0 });
    assert!(game.is_none());
}

#[test]
fn loading_what_was_written() {
    let mut rng = Rng::from_seed(3);
    let state = start_hand(VariantId::Hjerter, 1, &[5, 6, 7, 8], &mut rng);
    let mut settings = default_settings();
    settings.player_name = "Ola".to_string();
    let stats = Stats { games_played: 4, games_won: 1 };
    let blob: SaveBlob = write_save(&settings, &stats, Some(&state));
    assert_eq!(blob.version, 1);
    let (s2, st2, g2) = load_save(Some(blob));
    assert_eq!(s2.player_name, "Ola");
    assert_eq!(st2, stats);
    let g2 = g2.expect("game");
    assert_eq!(g2.hands, state.hands);
    assert_eq!(g2.phase, Phase::Passing);
    assert_eq!(g2.scores, [5, 6, 7, 8]);
}

#[test]
fn old_english_default_name_is_cleared() {
    let mut settings = default_settings();
    settings.player_name = "Du".to_string();
    let blob = write_save(&settings, &default_stats(), None);
    let (s2, _, g2) = load_save(Some(blob));
    assert_eq!(s2.player_name, "");
    assert!(g2.is_none());
    let mut nb = default_settings();
    nb.player_name = "Du".to_string();
    nb.locale = Locale::Nb;
    let (s3, _, _) = load_save(Some(write_save(&nb, &default_stats(), None)));
    assert_eq!(s3.player_name, "Du");
}
