//! What a save holds: settings, statistics and the game in progress, in the
//! plain form that is written to disk; and how a loaded save is read back.
use vstd::prelude::*;
use crate::cards::{Card, PlayerId};
use crate::engine::{
    GameState, GameView, HandScore, HandScoreView, Play, TrickRecord, VariantId, Difficulty,
    Phase, PassDir, Locale, CardBackTint, score_view,
};

verus! {

pub const SAVE_VERSION: u32 = 1;

/// The player's choices.
#[derive(Debug)]
pub struct Settings {
    pub variant: VariantId,
    pub difficulty: Difficulty,
    pub player_name: String,
    pub ai_names: [String; 3],
    pub muted: bool,
    pub locale: Locale,
    pub card_back: CardBackTint,
}

#[verifier::ext_equal]
pub struct SettingsView {
    pub variant: VariantId,
    pub difficulty: Difficulty,
    pub player_name: Seq<char>,
    pub ai_names: Seq<Seq<char>>,
    pub muted: bool,
    pub locale: Locale,
    pub card_back: CardBackTint,
}

impl View for Settings {
    type V = SettingsView;

    open spec fn view(&self) -> SettingsView {
        SettingsView {
            variant: self.variant,
            difficulty: self.difficulty,
            player_name: self.player_name@,
            ai_names: self.ai_names@.map_values(|n: String| n@),
            muted: self.muted,
            locale: self.locale,
            card_back: self.card_back,
        }
    }
}

impl Clone for Settings {
    fn clone(&self) -> (copy: Self)
        ensures
            copy@ == self@,
    {
        let ai_names: [String; 3] = [
            self.ai_names[0].clone(),
            self.ai_names[1].clone(),
            self.ai_names[2].clone(),
        ];
        let copy = Settings {
            variant: self.variant,
            difficulty: self.difficulty,
            player_name: self.player_name.clone(),
            ai_names,
            muted: self.muted,
            locale: self.locale,
            card_back: self.card_back,
        };
        assert(copy@.ai_names =~= self@.ai_names);
        copy
    }
}

/// Games played and won.
#[derive(Debug, Clone, Copy, PartialEq, Eq, Structural)]
pub struct Stats {
    pub games_played: u32,
    pub games_won: u32,
}

impl Default for Stats {
    fn default() -> (stats: Self)
        ensures
            stats == (Stats { games_played: 0, games_won: 0 }),
    {
        Stats { games_played: 0, games_won: 0 }
    }
}

pub open spec fn spec_default_settings() -> SettingsView {
    SettingsView {
        variant: VariantId::Spardame,
        difficulty: Difficulty::Normal,
        player_name: Seq::empty(),
        ai_names: seq!["Kari"@, "Per"@, "Liv"@],
        muted: false,
        locale: Locale::En,
        card_back: CardBackTint::Red,
    }
}

/// Spardame at medium difficulty, in English with red backs, against Kari,
/// Per and Liv.
pub fn default_settings() -> (settings: Settings)
    ensures
        settings@ == spec_default_settings(),
{
    let settings = Settings {
        variant: VariantId::Spardame,
        difficulty: Difficulty::Normal,
        player_name: String::new(),
        ai_names: ["Kari".to_owned(), "Per".to_owned(), "Liv".to_owned()],
        muted: false,
        locale: Locale::En,
        card_back: CardBackTint::Red,
    };
    assert(settings@ =~= spec_default_settings());
    settings
}

pub fn default_stats() -> (stats: Stats)
    ensures
        stats == (Stats { games_played: 0, games_won: 0 }),
{
    Stats::default()
}

/// The plain form of a [`HandScore`].
#[derive(Debug, Clone, Copy)]
pub struct SerializedHandScore {
    pub raw: [i32; 4],
    pub applied: [i32; 4],
    pub moon: Option<usize>,
    pub jack_holder: Option<usize>,
}

impl View for SerializedHandScore {
    type V = HandScoreView;

    open spec fn view(&self) -> HandScoreView {
        HandScoreView {
            raw: self.raw@,
            applied: self.applied@,
            moon: self.moon,
            jack_holder: self.jack_holder,
        }
    }
}

/// The plain form of a [`GameState`]: cards by id, plays as pairs.
#[derive(Debug)]
pub struct SerializedState {
    pub variant: VariantId,
    pub phase: Phase,
    pub hands: Vec<Vec<u8>>,
    pub taken: Vec<Vec<u8>>,
    pub trick: Vec<(usize, u8)>,
    pub turn: usize,
    pub hearts_broken: bool,
    pub trick_number: usize,
    pub hand_number: usize,
    pub scores: [i32; 4],
    pub hand_score: Option<SerializedHandScore>,
    pub pass_dir: PassDir,
    pub pass_selections: Vec<Option<Vec<u8>>>,
    pub received_pass: Vec<u8>,
    pub history: Vec<(Vec<(usize, u8)>, usize)>,
    pub winner: Option<usize>,
    pub tied: Vec<usize>,
}

#[verifier::ext_equal]
pub struct SerializedView {
    pub variant: VariantId,
    pub phase: Phase,
    pub hands: Seq<Seq<u8>>,
    pub taken: Seq<Seq<u8>>,
    pub trick: Seq<(usize, u8)>,
    pub turn: usize,
    pub hearts_broken: bool,
    pub trick_number: usize,
    pub hand_number: usize,
    pub scores: Seq<i32>,
    pub hand_score: Option<HandScoreView>,
    pub pass_dir: PassDir,
    pub pass_selections: Seq<Option<Seq<u8>>>,
    pub received_pass: Seq<u8>,
    pub history: Seq<(Seq<(usize, u8)>, usize)>,
    pub winner: Option<usize>,
    pub tied: Seq<usize>,
}

pub open spec fn id_rows_view(rows: Seq<Vec<u8>>) -> Seq<Seq<u8>> {
    rows.map_values(|r: Vec<u8>| r@)
}

pub open spec fn id_selections_view(sel: Seq<Option<Vec<u8>>>) -> Seq<Option<Seq<u8>>> {
    sel.map_values(
        |o: Option<Vec<u8>>|
            match o {
                Some(v) => Some(v@),
                None => None,
            },
    )
}

pub open spec fn pair_history_view(h: Seq<(Vec<(usize, u8)>, usize)>) -> Seq<(Seq<(usize, u8)>, usize)> {
    h.map_values(|t: (Vec<(usize, u8)>, usize)| (t.0@, t.1))
}

pub open spec fn serialized_score_view(h: Option<SerializedHandScore>) -> Option<HandScoreView> {
    match h {
        Some(s) => Some(s@),
        None => None,
    }
}

impl View for SerializedState {
    type V = SerializedView;

    open spec fn view(&self) -> SerializedView {
        SerializedView {
            variant: self.variant,
            phase: self.phase,
            hands: id_rows_view(self.hands@),
            taken: id_rows_view(self.taken@),
            trick: self.trick@,
            turn: self.turn,
            hearts_broken: self.hearts_broken,
            trick_number: self.trick_number,
            hand_number: self.hand_number,
            scores: self.scores@,
            hand_score: serialized_score_view(self.hand_score),
            pass_dir: self.pass_dir,
            pass_selections: id_selections_view(self.pass_selections@),
            received_pass: self.received_pass@,
            history: pair_history_view(self.history@),
            winner: self.winner,
            tied: self.tied@,
        }
    }
}

pub open spec fn card_ids_of(cards: Seq<Card>) -> Seq<u8> {
    cards.map_values(|c: Card| c.id)
}

pub open spec fn cards_of_ids(ids: Seq<u8>) -> Seq<Card> {
    ids.map_values(|id: u8| Card { id })
}

pub open spec fn play_pairs(plays: Seq<Play>) -> Seq<(usize, u8)> {
    plays.map_values(|p: Play| (p.player, p.card.id))
}

pub open spec fn pair_plays(pairs: Seq<(usize, u8)>) -> Seq<Play> {
    pairs.map_values(|t: (usize, u8)| Play { player: t.0, card: Card { id: t.1 } })
}

/// A game in plain form.
pub open spec fn spec_serialize(g: GameView) -> SerializedView {
    SerializedView {
        variant: g.variant,
        phase: g.phase,
        hands: g.hands.map_values(|h: Seq<Card>| card_ids_of(h)),
        taken: g.taken.map_values(|h: Seq<Card>| card_ids_of(h)),
        trick: play_pairs(g.trick),
        turn: g.turn,
        hearts_broken: g.hearts_broken,
        trick_number: g.trick_number,
        hand_number: g.hand_number,
        scores: g.scores,
        hand_score: g.hand_score,
        pass_dir: g.pass_dir,
        pass_selections: g.pass_selections.map_values(
            |o: Option<Seq<Card>>|
                match o {
                    Some(c) => Some(card_ids_of(c)),
                    None => None,
                },
        ),
        received_pass: card_ids_of(g.received_pass),
        history: g.history.map_values(|t: (Seq<Play>, PlayerId)| (play_pairs(t.0), t.1)),
        winner: g.winner,
        tied: g.tied,
    }
}

/// A plain-form game read back.
pub open spec fn spec_deserialize(s: SerializedView) -> GameView {
    GameView {
        variant: s.variant,
        phase: s.phase,
        hands: s.hands.map_values(|h: Seq<u8>| cards_of_ids(h)),
        taken: s.taken.map_values(|h: Seq<u8>| cards_of_ids(h)),
        trick: pair_plays(s.trick),
        turn: s.turn,
        hearts_broken: s.hearts_broken,
        trick_number: s.trick_number,
        hand_number: s.hand_number,
        scores: s.scores,
        hand_score: s.hand_score,
        pass_dir: s.pass_dir,
        pass_selections: s.pass_selections.map_values(
            |o: Option<Seq<u8>>|
                match o {
                    Some(c) => Some(cards_of_ids(c)),
                    None => None,
                },
        ),
        received_pass: cards_of_ids(s.received_pass),
        history: s.history.map_values(|t: (Seq<(usize, u8)>, usize)| (pair_plays(t.0), t.1)),
        winner: s.winner,
        tied: s.tied,
    }
}

fn ids_from_cards(cards: &Vec<Card>) -> (ids: Vec<u8>)
    ensures
        ids@ == card_ids_of(cards@),
{
    let mut ids: Vec<u8> = Vec::new();
    let mut i: usize = 0;
    while i < cards.len()
        invariant
            i <= cards@.len(),
            ids@.len() == i,
            forall|k: int| 0 <= k < i ==> ids@[k] == cards@[k].id,
        decreases cards@.len() - i,
    {
        ids.push(cards[i].id);
        i += 1;
    }
    assert(ids@ =~= card_ids_of(cards@));
    ids
}

fn card_from_id(id: u8) -> (c: Card)
    ensures
        c == (Card { id }),
{
    Card::new(id / 16, id % 16)
}

fn cards_from_ids(ids: &Vec<u8>) -> (cards: Vec<Card>)
    ensures
        cards@ == cards_of_ids(ids@),
{
    let mut cards: Vec<Card> = Vec::new();
    let mut i: usize = 0;
    while i < ids.len()
        invariant
            i <= ids@.len(),
            cards@.len() == i,
            forall|k: int| 0 <= k < i ==> cards@[k] == (Card { id: ids@[k] }),
        decreases ids@.len() - i,
    {
        cards.push(card_from_id(ids[i]));
        i += 1;
    }
    assert(cards@ =~= cards_of_ids(ids@));
    cards
}

fn pairs_from_plays(plays: &Vec<Play>) -> (pairs: Vec<(usize, u8)>)
    ensures
        pairs@ == play_pairs(plays@),
{
    let mut pairs: Vec<(usize, u8)> = Vec::new();
    let mut i: usize = 0;
    while i < plays.len()
        invariant
            i <= plays@.len(),
            pairs@.len() == i,
            forall|k: int| 0 <= k < i ==> pairs@[k] == (plays@[k].player, plays@[k].card.id),
        decreases plays@.len() - i,
    {
        pairs.push((plays[i].player, plays[i].card.id));
        i += 1;
    }
    assert(pairs@ =~= play_pairs(plays@));
    pairs
}

fn plays_from_pairs(pairs: &Vec<(usize, u8)>) -> (plays: Vec<Play>)
    ensures
        plays@ == pair_plays(pairs@),
{
    let mut plays: Vec<Play> = Vec::new();
    let mut i: usize = 0;
    while i < pairs.len()
        invariant
            i <= pairs@.len(),
            plays@.len() == i,
            forall|k: int|
                0 <= k < i ==> plays@[k] == (Play { player: pairs@[k].0, card: Card { id: pairs@[k].1 } }),
        decreases pairs@.len() - i,
    {
        let (p, id) = pairs[i];
        plays.push(Play { player: p, card: card_from_id(id) });
        i += 1;
    }
    assert(plays@ =~= pair_plays(pairs@));
    plays
}

/// The game in plain form.
pub fn serialize_state(s: &GameState) -> (out: SerializedState)
    ensures
        out@ == spec_serialize(s@),
{
    let mut hands: Vec<Vec<u8>> = Vec::new();
    let mut i: usize = 0;
    while i < s.hands.len()
        invariant
            i <= s.hands@.len(),
            hands@.len() == i,
            forall|k: int| 0 <= k < i ==> (#[trigger] hands@[k])@ == card_ids_of(s.hands@[k]@),
        decreases s.hands@.len() - i,
    {
        hands.push(ids_from_cards(&s.hands[i]));
        i += 1;
    }
    let mut taken: Vec<Vec<u8>> = Vec::new();
    let mut i: usize = 0;
    while i < s.taken.len()
        invariant
            i <= s.taken@.len(),
            taken@.len() == i,
            forall|k: int| 0 <= k < i ==> (#[trigger] taken@[k])@ == card_ids_of(s.taken@[k]@),
        decreases s.taken@.len() - i,
    {
        taken.push(ids_from_cards(&s.taken[i]));
        i += 1;
    }
    let mut selections: Vec<Option<Vec<u8>>> = Vec::new();
    let mut i: usize = 0;
    while i < s.pass_selections.len()
        invariant
            i <= s.pass_selections@.len(),
            selections@.len() == i,
            forall|k: int|
                0 <= k < i ==> id_selections_view(selections@)[k] == match s@.pass_selections[k] {
                    Some(c) => Some(card_ids_of(c)),
                    None => None,
                },
        decreases s.pass_selections@.len() - i,
    {
        let item = match &s.pass_selections[i] {
            Some(cards) => Some(ids_from_cards(cards)),
            None => None,
        };
        let ghost before = selections@;
        selections.push(item);
        assert forall|k: int| 0 <= k < i + 1 implies id_selections_view(selections@)[k]
            == match s@.pass_selections[k] {
            Some(c) => Some(card_ids_of(c)),
            None => None,
        } by {
            if k < i {
                assert(selections@[k] == before[k]);
                assert(id_selections_view(before)[k] == id_selections_view(selections@)[k]);
            }
        }
        i += 1;
    }
    let mut history: Vec<(Vec<(usize, u8)>, usize)> = Vec::new();
    let mut i: usize = 0;
    while i < s.history.len()
        invariant
            i <= s.history@.len(),
            history@.len() == i,
            forall|k: int|
                0 <= k < i ==> (#[trigger] history@[k]).0@ == play_pairs(s.history@[k].plays@)
                    && history@[k].1 == s.history@[k].winner,
        decreases s.history@.len() - i,
    {
        history.push((pairs_from_plays(&s.history[i].plays), s.history[i].winner));
        i += 1;
    }
    let hand_score = match &s.hand_score {
        Some(h) => Some(
            SerializedHandScore {
                raw: h.raw,
                applied: h.applied,
                moon: h.moon,
                jack_holder: h.jack_holder,
            },
        ),
        None => None,
    };
    let tied = s.tied.clone();
    assert(tied@ =~= s.tied@);
    let out = SerializedState {
        variant: s.variant,
        phase: s.phase,
        hands,
        taken,
        trick: pairs_from_plays(&s.trick),
        turn: s.turn,
        hearts_broken: s.hearts_broken,
        trick_number: s.trick_number,
        hand_number: s.hand_number,
        scores: s.scores,
        hand_score,
        pass_dir: s.pass_dir,
        pass_selections: selections,
        received_pass: ids_from_cards(&s.received_pass),
        history,
        winner: s.winner,
        tied,
    };
    assert(out@ =~= spec_serialize(s@));
    out
}

/// The game read back from plain form.
pub fn deserialize_state(s: &SerializedState) -> (out: GameState)
    ensures
        out@ == spec_deserialize(s@),
{
    let mut hands: Vec<Vec<Card>> = Vec::new();
    let mut i: usize = 0;
    while i < s.hands.len()
        invariant
            i <= s.hands@.len(),
            hands@.len() == i,
            forall|k: int| 0 <= k < i ==> (#[trigger] hands@[k])@ == cards_of_ids(s.hands@[k]@),
        decreases s.hands@.len() - i,
    {
        hands.push(cards_from_ids(&s.hands[i]));
        i += 1;
    }
    let mut taken: Vec<Vec<Card>> = Vec::new();
    let mut i: usize = 0;
    while i < s.taken.len()
        invariant
            i <= s.taken@.len(),
            taken@.len() == i,
            forall|k: int| 0 <= k < i ==> (#[trigger] taken@[k])@ == cards_of_ids(s.taken@[k]@),
        decreases s.taken@.len() - i,
    {
        taken.push(cards_from_ids(&s.taken[i]));
        i += 1;
    }
    let mut selections: Vec<Option<Vec<Card>>> = Vec::new();
    let mut i: usize = 0;
    while i < s.pass_selections.len()
        invariant
            i <= s.pass_selections@.len(),
            selections@.len() == i,
            forall|k: int|
                0 <= k < i ==> crate::engine::selections_view(selections@)[k] == match s@.pass_selections[k] {
                    Some(c) => Some(cards_of_ids(c)),
                    None => None,
                },
        decreases s.pass_selections@.len() - i,
    {
        let item = match &s.pass_selections[i] {
            Some(ids) => Some(cards_from_ids(ids)),
            None => None,
        };
        let ghost before = selections@;
        selections.push(item);
        assert forall|k: int| 0 <= k < i + 1 implies crate::engine::selections_view(selections@)[k]
            == match s@.pass_selections[k] {
            Some(c) => Some(cards_of_ids(c)),
            None => None,
        } by {
            if k < i {
                assert(selections@[k] == before[k]);
                assert(crate::engine::selections_view(before)[k] == crate::engine::selections_view(
                    selections@,
                )[k]);
            }
        }
        i += 1;
    }
    let mut history: Vec<TrickRecord> = Vec::new();
    let mut i: usize = 0;
    while i < s.history.len()
        invariant
            i <= s.history@.len(),
            history@.len() == i,
            forall|k: int|
                0 <= k < i ==> (#[trigger] history@[k]).plays@ == pair_plays(s.history@[k].0@)
                    && history@[k].winner == s.history@[k].1,
        decreases s.history@.len() - i,
    {
        let plays = plays_from_pairs(&s.history[i].0);
        history.push(TrickRecord { plays, winner: s.history[i].1 });
        i += 1;
    }
    let hand_score = match &s.hand_score {
        Some(h) => Some(
            HandScore { raw: h.raw, applied: h.applied, moon: h.moon, jack_holder: h.jack_holder },
        ),
        None => None,
    };
    let tied = s.tied.clone();
    assert(tied@ =~= s.tied@);
    let out = GameState {
        variant: s.variant,
        phase: s.phase,
        hands,
        taken,
        trick: plays_from_pairs(&s.trick),
        turn: s.turn,
        hearts_broken: s.hearts_broken,
        trick_number: s.trick_number,
        hand_number: s.hand_number,
        scores: s.scores,
        hand_score,
        pass_dir: s.pass_dir,
        pass_selections: selections,
        received_pass: cards_from_ids(&s.received_pass),
        history,
        winner: s.winner,
        tied,
    };
    assert(out@ =~= spec_deserialize(s@));
    out
}

/// Reading a game back gives the game that was written.
pub proof fn lemma_deserialize_serialize(g: GameView)
    ensures
        spec_deserialize(spec_serialize(g)) == g,
{
    let back = spec_deserialize(spec_serialize(g));
    assert forall|p: int| 0 <= p < g.hands.len() implies back.hands[p] == g.hands[p] by {
        assert(back.hands[p] =~= g.hands[p]);
    }
    assert(back.hands =~= g.hands);
    assert forall|p: int| 0 <= p < g.taken.len() implies back.taken[p] == g.taken[p] by {
        assert(back.taken[p] =~= g.taken[p]);
    }
    assert(back.taken =~= g.taken);
    assert(back.trick =~= g.trick);
    assert forall|p: int| 0 <= p < g.pass_selections.len() implies back.pass_selections[p]
        == g.pass_selections[p] by {
        match g.pass_selections[p] {
            Some(c) => {
                assert(cards_of_ids(card_ids_of(c)) =~= c);
            },
            None => {},
        }
    }
    assert(back.pass_selections =~= g.pass_selections);
    assert(back.received_pass =~= g.received_pass);
    assert forall|k: int| 0 <= k < g.history.len() implies back.history[k] == g.history[k] by {
        assert(pair_plays(play_pairs(g.history[k].0)) =~= g.history[k].0);
    }
    assert(back.history =~= g.history);
    assert(back =~= g);
}

/// Writing a read-back game gives the plain form that was read.
pub proof fn lemma_serialize_deserialize(s: SerializedView)
    ensures
        spec_serialize(spec_deserialize(s)) == s,
{
    let back = spec_serialize(spec_deserialize(s));
    assert forall|p: int| 0 <= p < s.hands.len() implies back.hands[p] == s.hands[p] by {
        assert(back.hands[p] =~= s.hands[p]);
    }
    assert(back.hands =~= s.hands);
    assert forall|p: int| 0 <= p < s.taken.len() implies back.taken[p] == s.taken[p] by {
        assert(back.taken[p] =~= s.taken[p]);
    }
    assert(back.taken =~= s.taken);
    assert(back.trick =~= s.trick);
    assert forall|p: int| 0 <= p < s.pass_selections.len() implies back.pass_selections[p]
        == s.pass_selections[p] by {
        match s.pass_selections[p] {
            Some(c) => {
                assert(card_ids_of(cards_of_ids(c)) =~= c);
            },
            None => {},
        }
    }
    assert(back.pass_selections =~= s.pass_selections);
    assert(back.received_pass =~= s.received_pass);
    assert forall|k: int| 0 <= k < s.history.len() implies back.history[k] == s.history[k] by {
        assert(play_pairs(pair_plays(s.history[k].0)) =~= s.history[k].0);
    }
    assert(back.history =~= s.history);
    assert(back =~= s);
}

/// Everything a save file holds.
#[derive(Debug)]
pub struct SaveBlob {
    pub version: u32,
    pub settings: Settings,
    pub stats: Stats,
    pub game: Option<SerializedState>,
}

pub struct SaveView {
    pub version: u32,
    pub settings: SettingsView,
    pub stats: Stats,
    pub game: Option<SerializedView>,
}

impl View for SaveBlob {
    type V = SaveView;

    open spec fn view(&self) -> SaveView {
        SaveView {
            version: self.version,
            settings: self.settings@,
            stats: self.stats,
            game: match self.game {
                Some(g) => Some(g@),
                None => None,
            },
        }
    }
}

/// The settings as loaded: a version-1 English save that names the player
/// "Du" (the Norwegian default) gets the name cleared.
pub open spec fn loaded_settings(version: u32, settings: SettingsView) -> SettingsView {
    if settings.player_name == "Du"@ && version == 1 && settings.locale == Locale::En {
        SettingsView { player_name: Seq::empty(), ..settings }
    } else {
        settings
    }
}

pub open spec fn game_view(game: Option<GameState>) -> Option<GameView> {
    match game {
        Some(g) => Some(g@),
        None => None,
    }
}

/// What a save that could not be read or parsed gives: the defaults, no game.
pub open spec fn load_defaults(out: (Settings, Stats, Option<GameState>)) -> bool {
    &&& out.0@ == spec_default_settings()
    &&& out.1 == (Stats { games_played: 0, games_won: 0 })
    &&& out.2 is None
}

/// What a parsed save gives.
pub open spec fn load_from(blob: SaveView, out: (Settings, Stats, Option<GameState>)) -> bool {
    &&& out.0@ == loaded_settings(blob.version, blob.settings)
    &&& out.1 == blob.stats
    &&& game_view(out.2) == match blob.game {
        Some(g) => Some(spec_deserialize(g)),
        None => None,
    }
}

/// The settings, statistics and game of a parsed save; `None` (a save that
/// could not be read or parsed) gives the defaults and no game.
pub fn load_save(parsed: Option<SaveBlob>) -> (out: (Settings, Stats, Option<GameState>))
    ensures
        match parsed {
            None => load_defaults(out),
            Some(blob) => load_from(blob@, out),
        },
{
    let blob = match parsed {
        Some(b) => b,
        None => {
            return (default_settings(), default_stats(), None);
        },
    };
    let ghost blob_view = blob@;
    let SaveBlob { version, settings, stats, game } = blob;
    let mut settings = settings;
    let du = "Du".to_owned();
    if settings.player_name == du && version == 1 && settings.locale == Locale::En {
        settings.player_name = String::new();
    }
    let known_back = match settings.card_back {
        CardBackTint::Red | CardBackTint::Blue => true,
    };
    if !known_back {
        settings.card_back = CardBackTint::Red;
    }
    assert(settings@ =~= loaded_settings(blob_view.version, blob_view.settings));
    let game = match &game {
        Some(g) => Some(deserialize_state(g)),
        None => None,
    };
    (settings, stats, game)
}

pub open spec fn spec_write_save(settings: SettingsView, stats: Stats, game: Option<GameView>) -> SaveView {
    SaveView {
        version: SAVE_VERSION,
        settings,
        stats,
        game: match game {
            Some(g) => Some(spec_serialize(g)),
            None => None,
        },
    }
}

/// The save to write for the settings, statistics and game.
pub fn write_save(settings: &Settings, stats: &Stats, game: Option<&GameState>) -> (blob: SaveBlob)
    ensures
        blob@ == spec_write_save(
            settings@,
            *stats,
            match game {
                Some(g) => Some(g@),
                None => None,
            },
        ),
{
    let serialized = match game {
        Some(g) => Some(serialize_state(g)),
        None => None,
    };
    SaveBlob { version: SAVE_VERSION, settings: settings.clone(), stats: *stats, game: serialized }
}

/// Loading what was written gives back the statistics, the game, and the
/// settings (but for the name "Du" in English, which is cleared).
pub proof fn lemma_load_after_write(settings: SettingsView, stats: Stats, game: Option<GameView>, out: (
    Settings,
    Stats,
    Option<GameState>,
))
    requires
        load_from(spec_write_save(settings, stats, game), out),
    ensures
        out.0@ == loaded_settings(SAVE_VERSION, settings),
        out.1 == stats,
        game_view(out.2) == game,
{
    match game {
        Some(g) => {
            lemma_deserialize_serialize(g);
        },
        None => {},
    }
}


/// The plain form lists every card by its id, in order: each seat's hand
/// and pile, the trick as seat and card pairs, and each chosen pass; the
/// other fields are kept as they are.
pub proof fn lemma_serialized_form(g: GameView)
    ensures
        ({
            let f = spec_serialize(g);
            &&& f.hands.len() == g.hands.len()
            &&& forall|p: int, i: int|
                0 <= p < g.hands.len() && 0 <= i < g.hands[p].len() ==> f.hands[p].len() == g.hands[p].len()
                    && #[trigger] f.hands[p][i] == g.hands[p][i].id
            &&& f.taken.len() == g.taken.len()
            &&& forall|p: int, i: int|
                0 <= p < g.taken.len() && 0 <= i < g.taken[p].len() ==> f.taken[p].len() == g.taken[p].len()
                    && #[trigger] f.taken[p][i] == g.taken[p][i].id
            &&& f.trick.len() == g.trick.len()
            &&& forall|i: int|
                0 <= i < g.trick.len() ==> #[trigger] f.trick[i] == (g.trick[i].player, g.trick[i].card.id)
            &&& f.received_pass.len() == g.received_pass.len()
            &&& forall|i: int| 0 <= i < g.received_pass.len() ==> #[trigger] f.received_pass[i] == g.received_pass[i].id
            &&& f.variant == g.variant && f.phase == g.phase && f.turn == g.turn && f.scores == g.scores
            &&& f.hearts_broken == g.hearts_broken && f.trick_number == g.trick_number
            &&& f.hand_number == g.hand_number && f.pass_dir == g.pass_dir && f.winner == g.winner && f.tied == g.tied
        }),
{
}

} // verus!
