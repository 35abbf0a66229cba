//! The interface text in English and Norwegian, and the sentences built
//! from it.
use vstd::prelude::*;
use crate::cards::{Card, Suit, Rank, CLUBS, DIAMONDS, SPADES, HEARTS, is_queen_of_spades, is_jack_of_diamonds, spec_is_queen_of_spades, spec_is_jack_of_diamonds};
use crate::engine::{Locale, PassDir, VariantId};

verus! {

/// The interface text of one language.
pub struct Copy {
    pub lang_name: &'static str,
    pub card_game: &'static str,
    pub app_name: &'static str,
    pub tagline: &'static str,
    pub your_name: &'static str,
    pub you: &'static str,
    pub opponents: &'static str,
    pub easy: &'static str,
    pub normal: &'static str,
    pub hard: &'static str,
    pub new_game: &'static str,
    pub continue_: &'static str,
    pub rules: &'static str,
    pub sound_on: &'static str,
    pub sound_off: &'static str,
    pub card_back: &'static str,
    pub card_back_tint_red: &'static str,
    pub card_back_tint_blue: &'static str,
    pub to_menu: &'static str,
    pub close: &'static str,
    pub language: &'static str,
    pub passing: &'static str,
    pub lead: &'static str,
    pub hearts_broken: &'static str,
    pub queen_out: &'static str,
    pub jack_out: &'static str,
    pub trick: &'static str,
    pub hand_over: &'static str,
    pub game_over: &'static str,
    pub your_lead_two: &'static str,
    pub your_lead: &'static str,
    pub playing: &'static str,
    pub queen_of_spades: &'static str,
    pub jack_of_diamonds: &'static str,
    pub score_hand: &'static str,
    pub you_won: &'static str,
    pub draw: &'static str,
    pub scores: &'static str,
    pub player: &'static str,
    pub round: &'static str,
    pub total: &'static str,
    pub out: &'static str,
    pub menu: &'static str,
    pub quit: &'static str,
    pub next_hand: &'static str,
    pub rules_title: &'static str,
    pub rules_spardame_title: &'static str,
    pub rules_spardame_body: &'static str,
    pub rules_spardame_points: [&'static str; 4],
    pub rules_spardame_extra: &'static str,
    pub rules_hearts_title: &'static str,
    pub rules_hearts_body: &'static str,
    pub rules_play_title: &'static str,
    pub rules_play: [&'static str; 6],
    pub pass_left: &'static str,
    pub pass_right: &'static str,
    pub pass_across: &'static str,
    pub pass_hold: &'static str,
    pub cannot_pass_queen: &'static str,
    pub illegal: &'static str,
    pub pass_failed: &'static str,
    // Fragments of the sentences below.
    pub to: &'static str,
    pub games_won_pfx: &'static str,
    pub of: &'static str,
    pub send_pfx: &'static str,
    pub cards: &'static str,
    pub pick_pfx: &'static str,
    pub got_pfx: &'static str,
    pub you_take: &'static str,
    pub takes_trick: &'static str,
    pub thinking: &'static str,
    pub follow_pfx: &'static str,
    pub void_pfx: &'static str,
    pub won_sfx: &'static str,
    pub moon_sfx: &'static str,
    pub score_hint_pfx: &'static str,
    pub score_hint_sfx: &'static str,
    pub s_clubs: &'static str,
    pub s_diamonds: &'static str,
    pub s_spades: &'static str,
    pub s_hearts: &'static str,
    pub s_clubs_c: &'static str,
    pub s_diamonds_c: &'static str,
    pub s_spades_c: &'static str,
    pub s_hearts_c: &'static str,
    pub face_jack: &'static str,
    pub face_queen: &'static str,
    pub face_king: &'static str,
    pub face_ace: &'static str,
    pub var_spardame_name: &'static str,
    pub var_spardame_short: &'static str,
    pub var_spardame_blurb: &'static str,
    pub var_hjerter_name: &'static str,
    pub var_hjerter_short: &'static str,
    pub var_hjerter_blurb: &'static str,
}

/// The text of a decimal digit.
pub open spec fn digit_text(d: int) -> Seq<char> {
    if d == 0 {
        "0"@
    } else if d == 1 {
        "1"@
    } else if d == 2 {
        "2"@
    } else if d == 3 {
        "3"@
    } else if d == 4 {
        "4"@
    } else if d == 5 {
        "5"@
    } else if d == 6 {
        "6"@
    } else if d == 7 {
        "7"@
    } else if d == 8 {
        "8"@
    } else {
        "9"@
    }
}

/// The decimal numeral of a natural number.
pub open spec fn decimal(n: nat) -> Seq<char>
    decreases n,
{
    if n < 10 {
        digit_text(n as int)
    } else {
        decimal(n / 10) + digit_text((n % 10) as int)
    }
}

/// The decimal numeral of an integer, with a leading minus when negative.
pub open spec fn signed_decimal(n: int) -> Seq<char> {
    if n < 0 {
        "-"@ + decimal((-n) as nat)
    } else {
        decimal(n as nat)
    }
}

fn digit_str(d: u64) -> (text: &'static str)
    requires
        d < 10,
    ensures
        text@ == digit_text(d as int),
{
    match d {
        0 => "0",
        1 => "1",
        2 => "2",
        3 => "3",
        4 => "4",
        5 => "5",
        6 => "6",
        7 => "7",
        8 => "8",
        _ => "9",
    }
}

pub(crate) fn push_decimal(out: &mut String, n: u64)
    ensures
        final(out)@ == old(out)@ + decimal(n as nat),
    decreases n,
{
    if n >= 10 {
        push_decimal(out, n / 10);
    }
    out.append(digit_str(n % 10));
    assert(final(out)@ =~= old(out)@ + decimal(n as nat));
}

pub(crate) fn push_signed(out: &mut String, n: i64)
    ensures
        final(out)@ == old(out)@ + signed_decimal(n as int),
{
    if n < 0 {
        out.append("-");
        let m: u64 = if n == i64::MIN {
            9223372036854775808u64
        } else {
            (-n) as u64
        };
        push_decimal(out, m);
        assert(final(out)@ =~= old(out)@ + signed_decimal(n as int));
    } else {
        push_decimal(out, n as u64);
    }
}

/// The text of each language.
pub open spec fn spec_strings(locale: Locale) -> Copy {
    match locale {
        Locale::En => Copy {
            lang_name: "English",
            card_game: "Card game",
            app_name: "Hearts",
            tagline:
                "Avoid hearts and the queen of spades. Take the jack of diamonds. Four players, three opponents, official rules.",
            your_name: "Your name",
            you: "You",
            opponents: "Opponents",
            easy: "Easy",
            normal: "Medium",
            hard: "Hard",
            new_game: "New game",
            continue_: "Continue",
            rules: "Rules",
            sound_on: "Sound on",
            sound_off: "Sound off",
            card_back: "Card back",
            card_back_tint_red: "Red",
            card_back_tint_blue: "Blue",
            to_menu: "Back to menu",
            close: "Close",
            language: "Language",
            passing: "Passing",
            lead: "Lead",
            hearts_broken: "Hearts broken",
            queen_out: "Queen out",
            jack_out: "Jack out",
            trick: "Trick",
            hand_over: "Hand complete.",
            game_over: "Game over.",
            your_lead_two: "Your lead — play the 2 of clubs.",
            your_lead: "Your lead — play a card.",
            playing: "Playing",
            queen_of_spades: "Queen of spades",
            jack_of_diamonds: "Jack of diamonds",
            score_hand: "Hand complete",
            you_won: "You won",
            draw: "Draw",
            scores: "Scores",
            player: "Player",
            round: "Hand",
            total: "Total",
            out: "out",
            menu: "Menu",
            quit: "Quit",
            next_hand: "Next hand",
            rules_title: "Rules",
            rules_spardame_title: "Queen of Spades",
            rules_spardame_body:
                "Four players, 52 cards, 13 each. Score as few points as possible. When someone reaches 500 the game ends — lowest total wins.",
            rules_spardame_points: [
                "Queen of spades = 100 points",
                "Ace of hearts = 20 points",
                "Every other heart = 10 points",
                "Jack of diamonds = −100 points",
            ],
            rules_spardame_extra:
                "The queen of spades can never be passed. Take every heart and the queen (a slam) and the other three each score 100. The jack of diamonds still counts for whoever took it.",
            rules_hearts_title: "Hearts (Windows)",
            rules_hearts_body:
                "Same flow as Hearts on Windows. Each heart is 1 point, the queen of spades is 13. Play to 100. The queen may be passed. Shoot the moon (all 13 hearts and the queen) and everyone else scores 26.",
            rules_play_title: "Play",
            rules_play: [
                "Pass 3 cards before each hand: left, right, across, then hold.",
                "Whoever holds the 2 of clubs leads it on the first trick.",
                "Follow suit if you can. Highest card of the suit led wins the trick.",
                "No penalty cards on the first trick (hearts or the queen of spades).",
                "Hearts cannot be led until they are broken — discarded because a player could not follow suit. The queen of spades may be led at any time.",
                "Play clockwise. No trump.",
            ],
            pass_left: "to the left",
            pass_right: "to the right",
            pass_across: "across",
            pass_hold: "no pass",
            cannot_pass_queen: "The queen of spades cannot be passed.",
            illegal: "You cannot play that card now.",
            pass_failed: "Could not pass those cards.",
            to: "to",
            games_won_pfx: "Games won",
            of: "of",
            send_pfx: "Pass",
            cards: "cards",
            pick_pfx: "Choose",
            got_pfx: "You received",
            you_take: "You take the trick.",
            takes_trick: "takes the trick",
            thinking: " is playing",
            follow_pfx: "Your turn — follow",
            void_pfx: "Your turn — you have no",
            won_sfx: "won",
            moon_sfx: "shot the moon — all hearts and the queen of spades.",
            score_hint_pfx: "First to",
            score_hint_sfx: "loses the game. Lowest total wins.",
            s_clubs: "clubs",
            s_diamonds: "diamonds",
            s_spades: "spades",
            s_hearts: "hearts",
            s_clubs_c: "Clubs",
            s_diamonds_c: "Diamonds",
            s_spades_c: "Spades",
            s_hearts_c: "Hearts",
            face_jack: "J",
            face_queen: "Q",
            face_king: "K",
            face_ace: "A",
            var_spardame_name: "Queen of Spades",
            var_spardame_short: "Standard",
            var_spardame_blurb:
                "Queen of spades 100, ace of hearts 20, other hearts 10, jack of diamonds −100. First to 500.",
            var_hjerter_name: "Hearts",
            var_hjerter_short: "Windows",
            var_hjerter_blurb:
                "Hearts 1, queen of spades 13. Shoot the moon gives 26 to the others. First to 100.",
        },
        Locale::Nb => Copy {
            lang_name: "Norsk",
            card_game: "Kortspill",
            app_name: "Spardame",
            tagline:
                "Unngå hjerter og spar dame. Ta ruter knekt. Fire spillere, tre motstandere, offisielle regler.",
            your_name: "Ditt navn",
            you: "Du",
            opponents: "Motstandere",
            easy: "Lett",
            normal: "Middels",
            hard: "Vanskelig",
            new_game: "Nytt parti",
            continue_: "Fortsett",
            rules: "Regler",
            sound_on: "Lyd på",
            sound_off: "Lyd av",
            card_back: "Kortbakside",
            card_back_tint_red: "Rød",
            card_back_tint_blue: "Blå",
            to_menu: "Til meny",
            close: "Lukk",
            language: "Språk",
            passing: "Bytte",
            lead: "Utspill",
            hearts_broken: "Hjerter brutt",
            queen_out: "Dame ude",
            jack_out: "Knekt ude",
            trick: "Stikk",
            hand_over: "Runden er ferdig.",
            game_over: "Partiet er over.",
            your_lead_two: "Din tur — spill ut kløver 2.",
            your_lead: "Din tur — spill ut.",
            playing: "Spill",
            queen_of_spades: "Spar dame",
            jack_of_diamonds: "Ruter knekt",
            score_hand: "Runden er ferdig",
            you_won: "Du vant",
            draw: "Uavgjort",
            scores: "Poeng",
            player: "Spiller",
            round: "Runde",
            total: "Sum",
            out: "ute",
            menu: "Meny",
            quit: "Avslutt",
            next_hand: "Neste runde",
            rules_title: "Regler",
            rules_spardame_title: "Spardame (norsk)",
            rules_spardame_body:
                "Fire spillere, 52 kort, 13 hver. Målet er å få færrest poeng. Første spiller til 500 avslutter partiet — lavest sum vinner.",
            rules_spardame_points: [
                "Spar dame = 100 poeng",
                "Hjerter ess = 20 poeng",
                "Øvrige hjerter = 10 poeng hver",
                "Ruter knekt = −100 poeng",
            ],
            rules_spardame_extra:
                "Spar dame kan aldri byttes bort. Tar du alle hjerter og spar dame (slem), får de tre andre 100 poeng hver. Ruter knekt telles likevel hos den som tok den.",
            rules_hearts_title: "Hjerter (Windows)",
            rules_hearts_body:
                "Samme spillgang som i Hearts på Windows. Hvert hjerterkort gir 1 poeng, spar dame gir 13. Partiet går til 100. Spar dame kan byttes bort. Skyter du månen (alle 13 hjerter og spar dame), får de andre 26 poeng hver.",
            rules_play_title: "Spillgang",
            rules_play: [
                "Bytt 3 kort før hver runde: venstre, høyre, over bordet, deretter hold.",
                "Den som har kløver 2 spiller den ut i første stikk.",
                "Følg farge hvis du kan. Høyeste kort i utspillfargen tar stikket.",
                "Ingen straffekort i første stikk (hjerter eller spar dame).",
                "Hjerter kan ikke spilles ut før de er brutt — kastet fordi noen ikke kunne følge farge. Spar dame kan spilles ut når som helst.",
                "Spill med klokken. Ingen trumf.",
            ],
            pass_left: "til venstre",
            pass_right: "til høyre",
            pass_across: "over bordet",
            pass_hold: "ingen bytte",
            cannot_pass_queen: "Spar dame kan ikke byttes bort.",
            illegal: "Det kortet kan du ikke spille nå.",
            pass_failed: "Kunne ikke bytte.",
            to: "til",
            games_won_pfx: "Partier vunnet",
            of: "av",
            send_pfx: "Send",
            cards: "kort",
            pick_pfx: "Velg",
            got_pfx: "Du fikk",
            you_take: "Du tar stikket.",
            takes_trick: "tar stikket",
            thinking: " spiller",
            follow_pfx: "Din tur — følg",
            void_pfx: "Din tur — du er blank i",
            won_sfx: "vant",
            moon_sfx: "tok slem — alle hjerter og spar dame.",
            score_hint_pfx: "Først til",
            score_hint_sfx: "poeng taper partiet. Lavest sum vinner.",
            s_clubs: "kløver",
            s_diamonds: "ruter",
            s_spades: "spar",
            s_hearts: "hjerter",
            s_clubs_c: "Kløver",
            s_diamonds_c: "Ruter",
            s_spades_c: "Spar",
            s_hearts_c: "Hjerter",
            face_jack: "Kn",
            face_queen: "D",
            face_king: "K",
            face_ace: "A",
            var_spardame_name: "Spardame",
            var_spardame_short: "Norsk",
            var_spardame_blurb:
                "Spar dame 100, hjerter ess 20, øvrige hjerter 10, ruter knekt −100. Til 500 poeng.",
            var_hjerter_name: "Hjerter",
            var_hjerter_short: "Windows",
            var_hjerter_blurb:
                "Hjerter 1, spar dame 13. Skyte månen gir 26 til de andre. Til 100 poeng.",
        },
    }
}

fn english() -> (copy: Copy)
    ensures
        copy == spec_strings(Locale::En),
{
    Copy {
        lang_name: "English",
        card_game: "Card game",
        app_name: "Hearts",
        tagline:
            "Avoid hearts and the queen of spades. Take the jack of diamonds. Four players, three opponents, official rules.",
        your_name: "Your name",
        you: "You",
        opponents: "Opponents",
        easy: "Easy",
        normal: "Medium",
        hard: "Hard",
        new_game: "New game",
        continue_: "Continue",
        rules: "Rules",
        sound_on: "Sound on",
        sound_off: "Sound off",
        card_back: "Card back",
        card_back_tint_red: "Red",
        card_back_tint_blue: "Blue",
        to_menu: "Back to menu",
        close: "Close",
        language: "Language",
        passing: "Passing",
        lead: "Lead",
        hearts_broken: "Hearts broken",
        queen_out: "Queen out",
        jack_out: "Jack out",
        trick: "Trick",
        hand_over: "Hand complete.",
        game_over: "Game over.",
        your_lead_two: "Your lead — play the 2 of clubs.",
        your_lead: "Your lead — play a card.",
        playing: "Playing",
        queen_of_spades: "Queen of spades",
        jack_of_diamonds: "Jack of diamonds",
        score_hand: "Hand complete",
        you_won: "You won",
        draw: "Draw",
        scores: "Scores",
        player: "Player",
        round: "Hand",
        total: "Total",
        out: "out",
        menu: "Menu",
        quit: "Quit",
        next_hand: "Next hand",
        rules_title: "Rules",
        rules_spardame_title: "Queen of Spades",
        rules_spardame_body:
            "Four players, 52 cards, 13 each. Score as few points as possible. When someone reaches 500 the game ends — lowest total wins.",
        rules_spardame_points: [
            "Queen of spades = 100 points",
            "Ace of hearts = 20 points",
            "Every other heart = 10 points",
            "Jack of diamonds = −100 points",
        ],
        rules_spardame_extra:
            "The queen of spades can never be passed. Take every heart and the queen (a slam) and the other three each score 100. The jack of diamonds still counts for whoever took it.",
        rules_hearts_title: "Hearts (Windows)",
        rules_hearts_body:
            "Same flow as Hearts on Windows. Each heart is 1 point, the queen of spades is 13. Play to 100. The queen may be passed. Shoot the moon (all 13 hearts and the queen) and everyone else scores 26.",
        rules_play_title: "Play",
        rules_play: [
            "Pass 3 cards before each hand: left, right, across, then hold.",
            "Whoever holds the 2 of clubs leads it on the first trick.",
            "Follow suit if you can. Highest card of the suit led wins the trick.",
            "No penalty cards on the first trick (hearts or the queen of spades).",
            "Hearts cannot be led until they are broken — discarded because a player could not follow suit. The queen of spades may be led at any time.",
            "Play clockwise. No trump.",
        ],
        pass_left: "to the left",
        pass_right: "to the right",
        pass_across: "across",
        pass_hold: "no pass",
        cannot_pass_queen: "The queen of spades cannot be passed.",
        illegal: "You cannot play that card now.",
        pass_failed: "Could not pass those cards.",
        to: "to",
        games_won_pfx: "Games won",
        of: "of",
        send_pfx: "Pass",
        cards: "cards",
        pick_pfx: "Choose",
        got_pfx: "You received",
        you_take: "You take the trick.",
        takes_trick: "takes the trick",
        thinking: " is playing",
        follow_pfx: "Your turn — follow",
        void_pfx: "Your turn — you have no",
        won_sfx: "won",
        moon_sfx: "shot the moon — all hearts and the queen of spades.",
        score_hint_pfx: "First to",
        score_hint_sfx: "loses the game. Lowest total wins.",
        s_clubs: "clubs",
        s_diamonds: "diamonds",
        s_spades: "spades",
        s_hearts: "hearts",
        s_clubs_c: "Clubs",
        s_diamonds_c: "Diamonds",
        s_spades_c: "Spades",
        s_hearts_c: "Hearts",
        face_jack: "J",
        face_queen: "Q",
        face_king: "K",
        face_ace: "A",
        var_spardame_name: "Queen of Spades",
        var_spardame_short: "Standard",
        var_spardame_blurb:
            "Queen of spades 100, ace of hearts 20, other hearts 10, jack of diamonds −100. First to 500.",
        var_hjerter_name: "Hearts",
        var_hjerter_short: "Windows",
        var_hjerter_blurb:
            "Hearts 1, queen of spades 13. Shoot the moon gives 26 to the others. First to 100.",
    }
}

fn norwegian() -> (copy: Copy)
    ensures
        copy == spec_strings(Locale::Nb),
{
    Copy {
        lang_name: "Norsk",
        card_game: "Kortspill",
        app_name: "Spardame",
        tagline:
            "Unngå hjerter og spar dame. Ta ruter knekt. Fire spillere, tre motstandere, offisielle regler.",
        your_name: "Ditt navn",
        you: "Du",
        opponents: "Motstandere",
        easy: "Lett",
        normal: "Middels",
        hard: "Vanskelig",
        new_game: "Nytt parti",
        continue_: "Fortsett",
        rules: "Regler",
        sound_on: "Lyd på",
        sound_off: "Lyd av",
        card_back: "Kortbakside",
        card_back_tint_red: "Rød",
        card_back_tint_blue: "Blå",
        to_menu: "Til meny",
        close: "Lukk",
        language: "Språk",
        passing: "Bytte",
        lead: "Utspill",
        hearts_broken: "Hjerter brutt",
        queen_out: "Dame ude",
        jack_out: "Knekt ude",
        trick: "Stikk",
        hand_over: "Runden er ferdig.",
        game_over: "Partiet er over.",
        your_lead_two: "Din tur — spill ut kløver 2.",
        your_lead: "Din tur — spill ut.",
        playing: "Spill",
        queen_of_spades: "Spar dame",
        jack_of_diamonds: "Ruter knekt",
        score_hand: "Runden er ferdig",
        you_won: "Du vant",
        draw: "Uavgjort",
        scores: "Poeng",
        player: "Spiller",
        round: "Runde",
        total: "Sum",
        out: "ute",
        menu: "Meny",
        quit: "Avslutt",
        next_hand: "Neste runde",
        rules_title: "Regler",
        rules_spardame_title: "Spardame (norsk)",
        rules_spardame_body:
            "Fire spillere, 52 kort, 13 hver. Målet er å få færrest poeng. Første spiller til 500 avslutter partiet — lavest sum vinner.",
        rules_spardame_points: [
            "Spar dame = 100 poeng",
            "Hjerter ess = 20 poeng",
            "Øvrige hjerter = 10 poeng hver",
            "Ruter knekt = −100 poeng",
        ],
        rules_spardame_extra:
            "Spar dame kan aldri byttes bort. Tar du alle hjerter og spar dame (slem), får de tre andre 100 poeng hver. Ruter knekt telles likevel hos den som tok den.",
        rules_hearts_title: "Hjerter (Windows)",
        rules_hearts_body:
            "Samme spillgang som i Hearts på Windows. Hvert hjerterkort gir 1 poeng, spar dame gir 13. Partiet går til 100. Spar dame kan byttes bort. Skyter du månen (alle 13 hjerter og spar dame), får de andre 26 poeng hver.",
        rules_play_title: "Spillgang",
        rules_play: [
            "Bytt 3 kort før hver runde: venstre, høyre, over bordet, deretter hold.",
            "Den som har kløver 2 spiller den ut i første stikk.",
            "Følg farge hvis du kan. Høyeste kort i utspillfargen tar stikket.",
            "Ingen straffekort i første stikk (hjerter eller spar dame).",
            "Hjerter kan ikke spilles ut før de er brutt — kastet fordi noen ikke kunne følge farge. Spar dame kan spilles ut når som helst.",
            "Spill med klokken. Ingen trumf.",
        ],
        pass_left: "til venstre",
        pass_right: "til høyre",
        pass_across: "over bordet",
        pass_hold: "ingen bytte",
        cannot_pass_queen: "Spar dame kan ikke byttes bort.",
        illegal: "Det kortet kan du ikke spille nå.",
        pass_failed: "Kunne ikke bytte.",
        to: "til",
        games_won_pfx: "Partier vunnet",
        of: "av",
        send_pfx: "Send",
        cards: "kort",
        pick_pfx: "Velg",
        got_pfx: "Du fikk",
        you_take: "Du tar stikket.",
        takes_trick: "tar stikket",
        thinking: " spiller",
        follow_pfx: "Din tur — følg",
        void_pfx: "Din tur — du er blank i",
        won_sfx: "vant",
        moon_sfx: "tok slem — alle hjerter og spar dame.",
        score_hint_pfx: "Først til",
        score_hint_sfx: "poeng taper partiet. Lavest sum vinner.",
        s_clubs: "kløver",
        s_diamonds: "ruter",
        s_spades: "spar",
        s_hearts: "hjerter",
        s_clubs_c: "Kløver",
        s_diamonds_c: "Ruter",
        s_spades_c: "Spar",
        s_hearts_c: "Hjerter",
        face_jack: "Kn",
        face_queen: "D",
        face_king: "K",
        face_ace: "A",
        var_spardame_name: "Spardame",
        var_spardame_short: "Norsk",
        var_spardame_blurb:
            "Spar dame 100, hjerter ess 20, øvrige hjerter 10, ruter knekt −100. Til 500 poeng.",
        var_hjerter_name: "Hjerter",
        var_hjerter_short: "Windows",
        var_hjerter_blurb:
            "Hjerter 1, spar dame 13. Skyte månen gir 26 til de andre. Til 100 poeng.",
    }
}

/// The text of the language.
pub fn strings(locale: Locale) -> (copy: Copy)
    ensures
        copy == spec_strings(locale),
{
    match locale {
        Locale::En => english(),
        Locale::Nb => norwegian(),
    }
}

impl Copy {
    /// "to 500".
    pub fn to_limit(&self, n: i32) -> (text: String)
        ensures
            text@ == self.to@ + " "@ + signed_decimal(n as int),
    {
        let mut text = self.to.to_owned();
        text.append(" ");
        push_signed(&mut text, n as i64);
        text
    }

    /// "Games won: 3 of 7".
    pub fn games_won(&self, won: u32, played: u32) -> (text: String)
        ensures
            text@ == self.games_won_pfx@ + ": "@ + decimal(won as nat) + " "@ + self.of@ + " "@
                + decimal(played as nat),
    {
        let mut text = self.games_won_pfx.to_owned();
        text.append(": ");
        push_decimal(&mut text, won as u64);
        text.append(" ");
        text.append(self.of);
        text.append(" ");
        push_decimal(&mut text, played as u64);
        text
    }

    /// "Pass 2/3 cards to the left".
    pub fn send_cards(&self, n: usize, of: usize, dir: &str) -> (text: String)
        ensures
            text@ == self.send_pfx@ + " "@ + decimal(n as nat) + "/"@ + decimal(of as nat) + " "@
                + self.cards@ + " "@ + dir@,
    {
        let mut text = self.send_pfx.to_owned();
        text.append(" ");
        push_decimal(&mut text, n as u64);
        text.append("/");
        push_decimal(&mut text, of as u64);
        text.append(" ");
        text.append(self.cards);
        text.append(" ");
        text.append(dir);
        text
    }

    pub open spec fn spec_pick_cards(&self, n: nat, dir: Seq<char>) -> Seq<char> {
        self.pick_pfx@ + " "@ + decimal(n) + " "@ + self.cards@ + " "@ + dir + "."@
    }

    /// "Choose 3 cards to the left."
    pub fn pick_cards(&self, n: usize, dir: &str) -> (text: String)
        ensures
            text@ == self.spec_pick_cards(n as nat, dir@),
    {
        let mut text = self.pick_pfx.to_owned();
        text.append(" ");
        push_decimal(&mut text, n as u64);
        text.append(" ");
        text.append(self.cards);
        text.append(" ");
        text.append(dir);
        text.append(".");
        text
    }

    pub open spec fn spec_pick_cards_short(&self, n: nat) -> Seq<char> {
        self.pick_pfx@ + " "@ + decimal(n) + " "@ + self.cards@ + "."@
    }

    /// "Choose 3 cards."
    pub fn pick_cards_short(&self, n: usize) -> (text: String)
        ensures
            text@ == self.spec_pick_cards_short(n as nat),
    {
        let mut text = self.pick_pfx.to_owned();
        text.append(" ");
        push_decimal(&mut text, n as u64);
        text.append(" ");
        text.append(self.cards);
        text.append(".");
        text
    }

    pub open spec fn spec_got_cards(&self, n: nat, from: Seq<char>) -> Seq<char> {
        self.got_pfx@ + " "@ + decimal(n) + " "@ + self.cards@ + " "@ + from + "."@
    }

    /// "You received 3 cards from Liv."
    pub fn got_cards(&self, n: usize, from: &str) -> (text: String)
        ensures
            text@ == self.spec_got_cards(n as nat, from@),
    {
        let mut text = self.got_pfx.to_owned();
        text.append(" ");
        push_decimal(&mut text, n as u64);
        text.append(" ");
        text.append(self.cards);
        text.append(" ");
        text.append(from);
        text.append(".");
        text
    }

    pub open spec fn spec_takes_trick(&self, name: Seq<char>, is_you: bool) -> Seq<char> {
        if is_you {
            self.you_take@
        } else {
            name + " "@ + self.takes_trick@ + "."@
        }
    }

    /// "You take the trick." or "Per takes the trick."
    pub fn takes_trick(&self, name: &str, is_you: bool) -> (text: String)
        ensures
            text@ == self.spec_takes_trick(name@, is_you),
    {
        if is_you {
            self.you_take.to_owned()
        } else {
            let mut text = name.to_owned();
            text.append(" ");
            text.append(self.takes_trick);
            text.append(".");
            text
        }
    }

    pub open spec fn spec_thinking(&self, name: Seq<char>) -> Seq<char> {
        name + " "@ + self.thinking@ + "…"@
    }

    /// "Per  is playing…" (the fragment starts with its own space).
    pub fn thinking(&self, name: &str) -> (text: String)
        ensures
            text@ == self.spec_thinking(name@),
    {
        let mut text = name.to_owned();
        text.append(" ");
        text.append(self.thinking);
        text.append("…");
        text
    }

    pub open spec fn spec_follow_suit(&self, suit: Seq<char>) -> Seq<char> {
        self.follow_pfx@ + " "@ + suit
    }

    pub fn follow_suit(&self, suit: &str) -> (text: String)
        ensures
            text@ == self.spec_follow_suit(suit@),
    {
        let mut text = self.follow_pfx.to_owned();
        text.append(" ");
        text.append(suit);
        text
    }

    pub open spec fn spec_void_in(&self, suit: Seq<char>) -> Seq<char> {
        self.void_pfx@ + " "@ + suit
    }

    pub fn void_in(&self, suit: &str) -> (text: String)
        ensures
            text@ == self.spec_void_in(suit@),
    {
        let mut text = self.void_pfx.to_owned();
        text.append(" ");
        text.append(suit);
        text
    }

    pub open spec fn spec_won(&self, name: Seq<char>) -> Seq<char> {
        name + " "@ + self.won_sfx@
    }

    pub fn won(&self, name: &str) -> (text: String)
        ensures
            text@ == self.spec_won(name@),
    {
        let mut text = name.to_owned();
        text.append(" ");
        text.append(self.won_sfx);
        text
    }

    pub fn moon(&self, name: &str) -> (text: String)
        ensures
            text@ == name@ + " "@ + self.moon_sfx@,
    {
        let mut text = name.to_owned();
        text.append(" ");
        text.append(self.moon_sfx);
        text
    }

    /// "First to 100 loses the game. Lowest total wins."
    pub fn score_hint(&self, limit: i32) -> (text: String)
        ensures
            text@ == self.score_hint_pfx@ + " "@ + signed_decimal(limit as int) + " "@
                + self.score_hint_sfx@,
    {
        let mut text = self.score_hint_pfx.to_owned();
        text.append(" ");
        push_signed(&mut text, limit as i64);
        text.append(" ");
        text.append(self.score_hint_sfx);
        text
    }

    pub open spec fn spec_suit_name(&self, suit: Suit) -> &'static str {
        if suit == CLUBS {
            self.s_clubs
        } else if suit == DIAMONDS {
            self.s_diamonds
        } else if suit == SPADES {
            self.s_spades
        } else if suit == HEARTS {
            self.s_hearts
        } else {
            ""
        }
    }

    /// The suit's name in lower case, "" for no suit.
    pub fn suit_name(&self, suit: Suit) -> (name: &'static str)
        ensures
            name == self.spec_suit_name(suit),
    {
        match suit {
            CLUBS => self.s_clubs,
            DIAMONDS => self.s_diamonds,
            SPADES => self.s_spades,
            HEARTS => self.s_hearts,
            _ => "",
        }
    }

    pub open spec fn spec_suit_cap(&self, suit: Suit) -> &'static str {
        if suit == CLUBS {
            self.s_clubs_c
        } else if suit == DIAMONDS {
            self.s_diamonds_c
        } else if suit == SPADES {
            self.s_spades_c
        } else if suit == HEARTS {
            self.s_hearts_c
        } else {
            ""
        }
    }

    /// The suit's name capitalised, "" for no suit.
    pub fn suit_cap(&self, suit: Suit) -> (name: &'static str)
        ensures
            name == self.spec_suit_cap(suit),
    {
        match suit {
            CLUBS => self.s_clubs_c,
            DIAMONDS => self.s_diamonds_c,
            SPADES => self.s_spades_c,
            HEARTS => self.s_hearts_c,
            _ => "",
        }
    }

    pub open spec fn spec_rank_face(&self, rank: Rank) -> &'static str {
        if rank == 11 {
            self.face_jack
        } else if rank == 12 {
            self.face_queen
        } else if rank == 13 {
            self.face_king
        } else if rank == 14 {
            self.face_ace
        } else {
            ""
        }
    }

    /// The letter of a face card or ace, "" for other ranks.
    pub fn rank_face(&self, rank: Rank) -> (face: &'static str)
        ensures
            face == self.spec_rank_face(rank),
    {
        match rank {
            11 => self.face_jack,
            12 => self.face_queen,
            13 => self.face_king,
            14 => self.face_ace,
            _ => "",
        }
    }

    pub open spec fn spec_variant_name(&self, id: VariantId) -> &'static str {
        match id {
            VariantId::Spardame => self.var_spardame_name,
            VariantId::Hjerter => self.var_hjerter_name,
        }
    }

    pub fn variant_name(&self, id: VariantId) -> (name: &'static str)
        ensures
            name == self.spec_variant_name(id),
    {
        match id {
            VariantId::Spardame => self.var_spardame_name,
            VariantId::Hjerter => self.var_hjerter_name,
        }
    }

    pub open spec fn spec_variant_short(&self, id: VariantId) -> &'static str {
        match id {
            VariantId::Spardame => self.var_spardame_short,
            VariantId::Hjerter => self.var_hjerter_short,
        }
    }

    pub fn variant_short(&self, id: VariantId) -> (name: &'static str)
        ensures
            name == self.spec_variant_short(id),
    {
        match id {
            VariantId::Spardame => self.var_spardame_short,
            VariantId::Hjerter => self.var_hjerter_short,
        }
    }

    pub open spec fn spec_variant_blurb(&self, id: VariantId) -> &'static str {
        match id {
            VariantId::Spardame => self.var_spardame_blurb,
            VariantId::Hjerter => self.var_hjerter_blurb,
        }
    }

    pub fn variant_blurb(&self, id: VariantId) -> (blurb: &'static str)
        ensures
            blurb == self.spec_variant_blurb(id),
    {
        match id {
            VariantId::Spardame => self.var_spardame_blurb,
            VariantId::Hjerter => self.var_hjerter_blurb,
        }
    }

    pub open spec fn spec_pass_dir(&self, dir: PassDir) -> &'static str {
        match dir {
            PassDir::Left => self.pass_left,
            PassDir::Right => self.pass_right,
            PassDir::Across => self.pass_across,
            PassDir::Hold => self.pass_hold,
        }
    }

    /// Where the cards go: "to the left", ...
    pub fn pass_dir(&self, dir: PassDir) -> (text: &'static str)
        ensures
            text == self.spec_pass_dir(dir),
    {
        match dir {
            PassDir::Left => self.pass_left,
            PassDir::Right => self.pass_right,
            PassDir::Across => self.pass_across,
            PassDir::Hold => self.pass_hold,
        }
    }

    /// The rank as a card shows it: "2" to "10", then the face letters.
    pub open spec fn spec_face_letter(&self, rank: Rank) -> &'static str {
        if rank == 14 {
            self.face_ace
        } else if rank == 13 {
            self.face_king
        } else if rank == 12 {
            self.face_queen
        } else if rank == 11 {
            self.face_jack
        } else if rank == 2 {
            "2"
        } else if rank == 3 {
            "3"
        } else if rank == 4 {
            "4"
        } else if rank == 5 {
            "5"
        } else if rank == 6 {
            "6"
        } else if rank == 7 {
            "7"
        } else if rank == 8 {
            "8"
        } else if rank == 9 {
            "9"
        } else if rank == 10 {
            "10"
        } else {
            ""
        }
    }

    pub fn face_letter(&self, card: Card) -> (text: &'static str)
        ensures
            text == self.spec_face_letter(card.rank()),
    {
        match card.rank() {
            11 => self.face_jack,
            12 => self.face_queen,
            13 => self.face_king,
            14 => self.face_ace,
            r => match r {
                2 => "2",
                3 => "3",
                4 => "4",
                5 => "5",
                6 => "6",
                7 => "7",
                8 => "8",
                9 => "9",
                10 => "10",
                _ => "",
            },
        }
    }

    /// "Queen of spades", "Jack of diamonds", or suit and rank: "Hearts A".
    pub fn card_label(&self, card: Card) -> (label: String)
        ensures
            label@ == if spec_is_queen_of_spades(card) {
                self.queen_of_spades@
            } else if spec_is_jack_of_diamonds(card) {
                self.jack_of_diamonds@
            } else {
                self.spec_suit_cap(card.suit())@ + " "@ + self.spec_face_letter(card.rank())@
            },
    {
        if is_queen_of_spades(card) {
            return self.queen_of_spades.to_owned();
        }
        if is_jack_of_diamonds(card) {
            return self.jack_of_diamonds.to_owned();
        }
        let rank = self.face_letter(card);
        let mut label = self.suit_cap(card.suit()).to_owned();
        label.append(" ");
        label.append(rank);
        label
    }
}

/// The language code of the locale.
pub fn html_lang(locale: Locale) -> (code: &'static str)
    ensures
        code@ == match locale {
            Locale::En => "en"@,
            Locale::Nb => "nb"@,
        },
{
    match locale {
        Locale::En => "en",
        Locale::Nb => "nb",
    }
}

} // verus!
