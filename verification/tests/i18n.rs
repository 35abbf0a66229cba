use spardame::cards::{Card, CLUBS, DIAMONDS, HEARTS, SPADES};
use spardame::engine::{Locale, PassDir, VariantId};
use spardame::i18n::{html_lang, strings};

#[test]
fn english_sentences() {
    let en = strings(Locale::En);
    assert_eq!(en.to_limit(500), "to 500");
    assert_eq!(en.to_limit(-7), "to -7");
    assert_eq!(en.games_won(3, 12), "Games won: 3 of 12");
    assert_eq!(en.send_cards(2, 3, en.pass_dir(PassDir::Left)), "Pass 2/3 cards to the left");
    assert_eq!(en.pick_cards(3, "across"), "Choose 3 cards across.");
    assert_eq!(en.pick_cards_short(3), "Choose 3 cards.");
    assert_eq!(en.got_cards(3, "Liv"), "You received 3 cards Liv.");
    assert_eq!(en.takes_trick("Per", false), "Per takes the trick.");
    assert_eq!(en.takes_trick("Per", true), "You take the trick.");
    assert_eq!(en.thinking("Kari"), "Kari  is playing…");
    assert_eq!(en.follow_suit("hearts"), "Your turn — follow hearts");
    assert_eq!(en.void_in("clubs"), "Your turn — you have no clubs");
    assert_eq!(en.won("Liv"), "Liv won");
    assert_eq!(en.score_hint(100), "First to 100 loses the game. Lowest total wins.");
}

#[test]
fn norwegian_sentences() {
    let nb = strings(Locale::Nb);
    assert_eq!(nb.to_limit(100), "til 100");
    assert_eq!(nb.games_won(0, 0), "Partier vunnet: 0 av 0");
    assert_eq!(nb.moon("Per"), "Per tok slem — alle hjerter og spar dame.");
    assert_eq!(nb.you, "Du");
}

#[test]
fn names_of_suits_ranks_and_variants() {
    let en = strings(Locale::En);
    assert_eq!(en.suit_name(CLUBS), "clubs");
    assert_eq!(en.suit_name(9), "");
    assert_eq!(en.suit_cap(HEARTS), "Hearts");
    assert_eq!(en.rank_face(11), "J");
    assert_eq!(en.rank_face(7), "");
    assert_eq!(en.variant_name(VariantId::Spardame), "Queen of Spades");
    assert_eq!(en.variant_short(VariantId::Hjerter), "Windows");
    assert!(en.variant_blurb(VariantId::Hjerter).contains("26"));
    assert_eq!(en.pass_dir(PassDir::Hold), "no pass");
    let nb = strings(Locale::Nb);
    assert_eq!(nb.rank_face(11), "Kn");
    assert_eq!(html_lang(Locale::En), "en");
    assert_eq!(html_lang(Locale::Nb), "nb");
}

#[test]
fn card_labels() {
    let en = strings(Locale::En);
    assert_eq!(en.card_label(Card::new(SPADES, 12)), "Queen of spades");
    assert_eq!(en.card_label(Card::new(DIAMONDS, 11)), "Jack of diamonds");
    assert_eq!(en.card_label(Card::new(HEARTS, 14)), "Hearts A");
    assert_eq!(en.card_label(Card::new(CLUBS, 10)), "Clubs 10");
    let nb = strings(Locale::Nb);
    assert_eq!(nb.card_label(Card::new(CLUBS, 11)), "Kløver Kn");
    assert_eq!(nb.face_letter(Card::new(CLUBS, 12)), "D");
    assert_eq!(en.face_letter(Card::new(CLUBS, 9)), "9");
}
