use spardame::cards::{
    find_card, is_heart, is_jack_of_diamonds, is_penalty, is_queen_of_spades, is_two_of_clubs,
    make_deck, rank_code, seed_from_clock, shuffle, sort_hand, without_cards, Card, Rng, CLUBS,
    DIAMONDS, HEARTS,
    SPADES,
};

#[test]
fn card_packs_suit_and_rank() {
    let c = Card::new(HEARTS, 14);
    assert_eq!(c.id, 3 * 16 + 14);
    assert_eq!(c.suit(), HEARTS);
    assert_eq!(c.rank(), 14);
}

#[test]
fn rank_codes() {
    assert_eq!(rank_code(2), "2");
    assert_eq!(rank_code(10), "10");
    assert_eq!(rank_code(11), "J");
    assert_eq!(rank_code(12), "Q");
    assert_eq!(rank_code(13), "K");
    assert_eq!(rank_code(14), "A");
    assert_eq!(rank_code(1), "");
}

#[test]
fn deck_order_is_suit_then_rank() {
    let deck = make_deck();
    assert_eq!(deck[0], Card::new(CLUBS, 2));
    assert_eq!(deck[12], Card::new(CLUBS, 14));
    assert_eq!(deck[13], Card::new(DIAMONDS, 2));
    assert_eq!(deck[51], Card::new(HEARTS, 14));
}

#[test]
fn generator_steps_and_shuffle_is_repeatable() {
    let mut rng = Rng::from_seed(1);
    assert_eq!(rng.next_u32(), 1u32.wrapping_mul(1664525).wrapping_add(1013904223));
    let mut a = make_deck();
    let mut b = make_deck();
    shuffle(&mut a, &mut Rng::from_seed(99));
    shuffle(&mut b, &mut Rng::from_seed(99));
    assert_eq!(a, b);
    let mut one = vec![Card::new(SPADES, 3)];
    shuffle(&mut one, &mut Rng::from_seed(5));
    assert_eq!(one, vec![Card::new(SPADES, 3)]);
}

#[test]
fn clock_seed_is_odd() {
    for _ in 0..5 {
        let mut rng = Rng::new();
        // An odd state moves on to an even one: 1664525 and 1013904223 are odd.
        assert_eq!(rng.next_u32() % 2, 0);
    }
}

#[test]
fn sort_hand_orders_by_suit_then_rank() {
    let mut hand = vec![
        Card::new(HEARTS, 2),
        Card::new(CLUBS, 14),
        Card::new(SPADES, 12),
        Card::new(CLUBS, 3),
        Card::new(DIAMONDS, 11),
    ];
    sort_hand(&mut hand);
    assert_eq!(
        hand,
        vec![
            Card::new(CLUBS, 3),
            Card::new(CLUBS, 14),
            Card::new(DIAMONDS, 11),
            Card::new(SPADES, 12),
            Card::new(HEARTS, 2),
        ]
    );
}

#[test]
fn special_cards() {
    assert!(is_queen_of_spades(Card::new(SPADES, 12)));
    assert!(!is_queen_of_spades(Card::new(HEARTS, 12)));
    assert!(is_jack_of_diamonds(Card::new(DIAMONDS, 11)));
    assert!(is_two_of_clubs(Card::new(CLUBS, 2)));
    assert!(is_heart(Card::new(HEARTS, 5)));
    assert!(is_penalty(Card::new(HEARTS, 5)));
    assert!(is_penalty(Card::new(SPADES, 12)));
    assert!(!is_penalty(Card::new(SPADES, 13)));
}

#[test]
fn find_and_remove_by_id() {
    let hand = vec![Card::new(CLUBS, 3), Card::new(HEARTS, 9), Card::new(SPADES, 4)];
    assert_eq!(find_card(&hand, Card::new(HEARTS, 9).id), Some(Card::new(HEARTS, 9)));
    assert_eq!(find_card(&hand, Card::new(HEARTS, 10).id), None);
    let rest = without_cards(&hand, &[Card::new(CLUBS, 3).id, Card::new(SPADES, 4).id, 200]);
    assert_eq!(rest, vec![Card::new(HEARTS, 9)]);
}

#[test]
fn clock_seeds_are_odd_products() {
    assert_eq!(seed_from_clock(Some(1)), 2654435761);
    assert_eq!(seed_from_clock(Some(2)), 2654435761u32.wrapping_mul(2) | 1);
    assert_eq!(seed_from_clock(None), 0xdead_beefu32.wrapping_mul(2654435761) | 1);
    assert_eq!(seed_from_clock(Some(0)), 1);
    assert_eq!(Rng::new().next_u32() % 2, Rng::from_seed(1).next_u32() % 2);
}
