//! What the table says: the status line, the suit and trick hints, the
//! message for each notice, card tooltips and the lines of the score sheet.
use vstd::prelude::*;
use crate::cards::{Card, Suit, CLUBS, DIAMONDS, SPADES, HEARTS};
use crate::engine::{
    GameState, GameView, Phase, VariantId, get_variant, spec_variant, current_winner_of_trick,
    spec_current_winner, queen_still_out, spec_queen_still_out, jack_still_out, spec_jack_still_out,
    lemma_trick_winner_highest, best_play_index,
};
use crate::app::Flash;
use crate::i18n::{decimal, signed_decimal, push_decimal, push_signed};

verus! {

/// The suit's symbol: ♣ ♦ ♠ ♥, or nothing for no suit.
pub open spec fn spec_suit_glyph(suit: Suit) -> Seq<char> {
    if suit == CLUBS {
        "♣"@
    } else if suit == DIAMONDS {
        "♦"@
    } else if suit == SPADES {
        "♠"@
    } else if suit == HEARTS {
        "♥"@
    } else {
        ""@
    }
}

pub fn suit_glyph(suit: Suit) -> (glyph: &'static str)
    ensures
        glyph@ == spec_suit_glyph(suit),
{
    match suit {
        CLUBS => "♣",
        DIAMONDS => "♦",
        SPADES => "♠",
        HEARTS => "♥",
        _ => "",
    }
}

/// Hearts and diamonds are printed in red.
pub fn is_red(suit: Suit) -> (red: bool)
    ensures
        red == (suit == HEARTS || suit == DIAMONDS),
{
    suit == HEARTS || suit == DIAMONDS
}

/// The suit's English name in the plural, for tooltips.
pub open spec fn suit_word(suit: Suit) -> Seq<char> {
    if suit == CLUBS {
        "Clubs"@
    } else if suit == DIAMONDS {
        "Diamonds"@
    } else if suit == SPADES {
        "Spades"@
    } else if suit == HEARTS {
        "Hearts"@
    } else {
        ""@
    }
}

/// "Queen of Spades" for a face card or ace, "Hearts 7" for a number card.
pub open spec fn spec_label_for(card: Card) -> Seq<char> {
    let suit = suit_word(card.suit());
    if card.rank() == 11 {
        "Jack of "@ + suit
    } else if card.rank() == 12 {
        "Queen of "@ + suit
    } else if card.rank() == 13 {
        "King of "@ + suit
    } else if card.rank() == 14 {
        "Ace of "@ + suit
    } else {
        suit + " "@ + decimal(card.rank() as nat)
    }
}

/// The tooltip of a card.
pub fn label_for(card: Card) -> (label: String)
    ensures
        label@ == spec_label_for(card),
{
    let suit = match card.suit() {
        CLUBS => "Clubs",
        DIAMONDS => "Diamonds",
        SPADES => "Spades",
        HEARTS => "Hearts",
        _ => "",
    };
    let face = match card.rank() {
        11 => "Jack of ",
        12 => "Queen of ",
        13 => "King of ",
        14 => "Ace of ",
        _ => "",
    };
    if card.rank() >= 11 && card.rank() <= 14 {
        let mut label = face.to_owned();
        label.append(suit);
        label
    } else {
        let mut label = suit.to_owned();
        label.append(" ");
        push_decimal(&mut label, card.rank() as u64);
        label
    }
}

/// The parts joined with the separator between each two of them.
pub open spec fn joined(parts: Seq<Seq<char>>, sep: Seq<char>) -> Seq<char>
    decreases parts.len(),
{
    if parts.len() == 0 {
        Seq::empty()
    } else if parts.len() == 1 {
        parts[0]
    } else {
        joined(parts.drop_last(), sep) + sep + parts.last()
    }
}

/// What is known between tricks: hearts broken, the queen still out, and in
/// Spardame the jack still out.
pub open spec fn status_bits(s: GameView, c: crate::i18n::Copy) -> Seq<Seq<char>> {
    (if s.hearts_broken {
        seq![c.hearts_broken@]
    } else {
        Seq::empty()
    }) + (if spec_queen_still_out(s) {
        seq![c.queen_out@]
    } else {
        Seq::empty()
    }) + (if s.variant == VariantId::Spardame && spec_jack_still_out(s) {
        seq![c.jack_out@]
    } else {
        Seq::empty()
    })
}

/// The hint in the middle of the table: "Passing" while passing; the led
/// suit's symbol and name during a trick; else what is known, or "Lead".
pub open spec fn spec_status_glyph(s: GameView, lead: Option<u8>, c: crate::i18n::Copy) -> Seq<char> {
    if s.phase == Phase::Passing {
        c.passing@
    } else {
        match lead {
            Some(suit) => spec_suit_glyph(suit) + " · "@ + c.spec_suit_cap(suit)@,
            None => if status_bits(s, c).len() == 0 {
                c.lead@
            } else {
                joined(status_bits(s, c), " · "@)
            },
        }
    }
}

pub fn status_glyph(s: &GameState, lead: Option<u8>, copy: &crate::i18n::Copy) -> (text: String)
    ensures
        text@ == spec_status_glyph(s@, lead, *copy),
{
    if s.phase == Phase::Passing {
        return copy.passing.to_owned();
    }
    if let Some(suit) = lead {
        let mut text = suit_glyph(suit).to_owned();
        text.append(" · ");
        text.append(copy.suit_cap(suit));
        return text;
    }
    let hb = s.hearts_broken;
    let q = queen_still_out(s);
    let j = s.variant == VariantId::Spardame && jack_still_out(s);
    let ghost bits = status_bits(s@, *copy);
    let ghost sep = " · "@;
    if !hb && !q && !j {
        assert(bits =~= Seq::<Seq<char>>::empty());
        return copy.lead.to_owned();
    }
    let mut text = String::new();
    let mut any = false;
    let ghost mut done: Seq<Seq<char>> = Seq::empty();
    if hb {
        text.append(copy.hearts_broken);
        any = true;
        proof {
            done = seq![copy.hearts_broken@];
            assert(text@ =~= joined(done, sep));
        }
    }
    if q {
        if any {
            text.append(" · ");
        }
        text.append(copy.queen_out);
        proof {
            let before = done;
            done = done.push(copy.queen_out@);
            assert(done.drop_last() =~= before);
            assert(text@ =~= joined(done, sep));
        }
        any = true;
    }
    if j {
        if any {
            text.append(" · ");
        }
        text.append(copy.jack_out);
        proof {
            let before = done;
            done = done.push(copy.jack_out@);
            assert(done.drop_last() =~= before);
            assert(text@ =~= joined(done, sep));
        }
    }
    assert(done =~= bits);
    text
}

/// The status line under the table.
pub open spec fn spec_status_text(s: GameView, names: Seq<Seq<char>>, c: crate::i18n::Copy) -> Seq<char> {
    if s.phase == Phase::Passing {
        c.spec_pick_cards(spec_variant(s.variant).pass_count as nat, c.spec_pass_dir(s.pass_dir)@)
    } else if s.phase == Phase::TrickEnd {
        match spec_current_winner(s.trick) {
            None => c.trick@,
            Some(w) => c.spec_takes_trick(names[w as int], w == 0),
        }
    } else if s.phase == Phase::HandEnd {
        c.hand_over@
    } else if s.phase == Phase::GameOver {
        c.game_over@
    } else if s.turn != 0 {
        c.spec_thinking(names[s.turn as int])
    } else if s.trick.len() == 0 {
        if s.trick_number == 0 {
            c.your_lead_two@
        } else {
            c.your_lead@
        }
    } else {
        let suit = s.trick[0].card.suit();
        if exists|i: int| 0 <= i < s.hands[0].len() && (#[trigger] s.hands[0][i]).suit() == suit {
            c.spec_follow_suit(c.spec_suit_name(suit)@)
        } else {
            c.spec_void_in(c.spec_suit_name(suit)@)
        }
    }
}

/// The names of the four seats as text.
pub open spec fn names_view(names: [String; 4]) -> Seq<Seq<char>> {
    names@.map_values(|n: String| n@)
}

pub fn status_text(s: &GameState, names: &[String; 4], copy: &crate::i18n::Copy) -> (text: String)
    requires
        s@.wf(),
    ensures
        text@ == spec_status_text(s@, names_view(*names), *copy),
{
    if s.phase == Phase::Passing {
        return copy.pick_cards(get_variant(s.variant).pass_count, copy.pass_dir(s.pass_dir));
    }
    if s.phase == Phase::TrickEnd {
        return match current_winner_of_trick(s.trick.as_slice()) {
            None => copy.trick.to_owned(),
            Some(w) => {
                proof {
                    lemma_trick_winner_highest(s@.trick, s@.trick.len() as int);
                    assert(s@.trick[best_play_index(s@.trick, s@.trick.len() as int)].player < 4);
                }
                copy.takes_trick(names[w].as_str(), w == 0)
            },
        };
    }
    if s.phase == Phase::HandEnd {
        return copy.hand_over.to_owned();
    }
    if s.phase == Phase::GameOver {
        return copy.game_over.to_owned();
    }
    if s.turn != 0 {
        return copy.thinking(names[s.turn].as_str());
    }
    if s.trick.len() == 0 {
        if s.trick_number == 0 {
            return copy.your_lead_two.to_owned();
        }
        return copy.your_lead.to_owned();
    }
    let suit = s.trick[0].card.suit();
    let hand = &s.hands[0];
    assert(s@.hands[0] == hand@);
    let mut can_follow = false;
    let mut i: usize = 0;
    while i < hand.len()
        invariant
            i <= hand@.len(),
            can_follow <==> exists|k: int| 0 <= k < i && (#[trigger] hand@[k]).suit() == suit,
        decreases hand@.len() - i,
    {
        if hand[i].suit() == suit {
            can_follow = true;
        }
        i += 1;
    }
    if can_follow {
        copy.follow_suit(copy.suit_name(suit))
    } else {
        copy.void_in(copy.suit_name(suit))
    }
}

/// The line a notice shows.
pub open spec fn spec_flash_text(c: crate::i18n::Copy, f: Flash) -> Seq<char> {
    match f {
        Flash::CannotPassQueen => c.cannot_pass_queen@,
        Flash::PickCards(n) => c.spec_pick_cards_short(n as nat),
        Flash::GotCards(n, from) => c.spec_got_cards(n as nat, from@),
        Flash::Illegal => c.illegal@,
        Flash::PassFailed => c.pass_failed@,
    }
}

pub fn flash_text(copy: &crate::i18n::Copy, f: &Flash) -> (text: String)
    ensures
        text@ == spec_flash_text(*copy, *f),
{
    match f {
        Flash::CannotPassQueen => copy.cannot_pass_queen.to_owned(),
        Flash::PickCards(n) => copy.pick_cards_short(*n),
        Flash::GotCards(n, from) => copy.got_cards(*n, from.as_str()),
        Flash::Illegal => copy.illegal.to_owned(),
        Flash::PassFailed => copy.pass_failed.to_owned(),
    }
}

/// The title of the score sheet: a draw, "You won", who won, or the end of
/// a hand.
pub open spec fn spec_score_title(s: GameView, names: Seq<Seq<char>>, c: crate::i18n::Copy) -> Seq<char> {
    if s.phase == Phase::GameOver {
        if s.tied.len() > 1 {
            c.draw@
        } else if s.winner == Some(0usize) {
            c.you_won@
        } else {
            c.spec_won(
                names[match s.winner {
                    Some(w) => w as int,
                    None => 0,
                }],
            )
        }
    } else {
        c.score_hand@
    }
}

pub fn score_title(s: &GameState, names: &[String; 4], copy: &crate::i18n::Copy) -> (title: String)
    requires
        s.winner matches Some(w) ==> w < 4,
    ensures
        title@ == spec_score_title(s@, names_view(*names), *copy),
{
    if s.phase == Phase::GameOver {
        if s.tied.len() > 1 {
            copy.draw.to_owned()
        } else if s.winner == Some(0usize) {
            copy.you_won.to_owned()
        } else {
            let w = match s.winner {
                Some(w) => w,
                None => 0,
            };
            copy.won(names[w].as_str())
        }
    } else {
        copy.score_hand.to_owned()
    }
}

/// A hand's points on the score sheet, with a plus sign when positive.
pub open spec fn spec_round_text(applied: i32) -> Seq<char> {
    if applied > 0 {
        "+"@ + decimal(applied as nat)
    } else {
        signed_decimal(applied as int)
    }
}

pub fn round_text(applied: i32) -> (text: String)
    ensures
        text@ == spec_round_text(applied),
{
    let mut text = String::new();
    if applied > 0 {
        text.append("+");
        push_decimal(&mut text, applied as u64);
    } else {
        push_signed(&mut text, applied as i64);
    }
    text
}

/// A seat's total on the score sheet, marked "out" once it reaches the
/// game's limit.
pub open spec fn spec_total_text(score: i32, limit: i32, c: crate::i18n::Copy) -> Seq<char> {
    if score >= limit {
        signed_decimal(score as int) + " · "@ + c.out@
    } else {
        signed_decimal(score as int)
    }
}

pub fn total_text(score: i32, limit: i32, copy: &crate::i18n::Copy) -> (text: String)
    ensures
        text@ == spec_total_text(score, limit, *copy),
{
    let mut text = String::new();
    push_signed(&mut text, score as i64);
    if score >= limit {
        text.append(" · ");
        text.append(copy.out);
    }
    text
}

} // verus!
