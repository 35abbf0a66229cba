use spardame::face::pip_positions;

#[test]
fn ace_has_one_pip_in_the_middle() {
    assert_eq!(pip_positions(true, 14), vec![(50, 50, false)]);
}

#[test]
fn seven_pips() {
    assert_eq!(
        pip_positions(false, 7),
        vec![
            (32, 20, false),
            (68, 20, false),
            (50, 36, false),
            (32, 50, false),
            (68, 50, false),
            (32, 80, true),
            (68, 80, true),
        ]
    );
}

#[test]
fn face_cards_have_no_pips() {
    assert!(pip_positions(false, 11).is_empty());
    assert!(pip_positions(false, 12).is_empty());
    assert!(pip_positions(false, 13).is_empty());
}

#[test]
fn number_cards_show_their_rank_mirrored_and_turned_below_the_middle() {
    for rank in 2..=10u8 {
        let pips = pip_positions(false, rank);
        assert_eq!(pips.len(), rank as usize);
        for &(x, y, turned) in &pips {
            assert_eq!(turned, y > 50);
            assert!(pips.contains(&(100 - x, y, turned)));
        }
    }
}
