//! The application's state between screens: settings, statistics, the game
//! in progress, the human player's selection and the message shown.
use vstd::prelude::*;
use crate::cards::{Card, PlayerId, Rng, fresh_deck, shuffled, spec_seed_from_clock, is_queen_of_spades, spec_is_queen_of_spades, holds_id, find_card};
use crate::engine::{
    GameState, GameView, Phase, PassDir, VariantId, Difficulty, Locale, CardBackTint, Play,
    set_pass_selection, pass_selection_error, spec_set_pass_selection, commit_pass, create_game,
    continue_game, play_card, spec_play_card, resolve_trick, spec_resolve_trick, resolve_fits,
    get_variant, spec_variant, new_hand_view, dealt_from, dealing_deck, result_view,
};
use crate::ai::{choose_pass_cards, spec_choose_pass_cards, choose_play, spec_choose_play, think_delay_ms};
use crate::i18n::{strings, spec_strings};
use crate::storage::{Settings, SettingsView, Stats, SaveBlob, SaveView, write_save, spec_write_save, game_view};

verus! {

/// A computer seat's selection after [`fill_ai_passes`]: the cards
/// [`choose_pass_cards`] picks from some order of preference, recorded when
/// [`set_pass_selection`] accepts them and dropped otherwise.
pub open spec fn ai_selection(before: GameView, p: int, after: Option<Seq<Card>>) -> bool {
    exists|ranked: Seq<Card>|
        {
            let pick = #[trigger] spec_choose_pass_cards(before, p, ranked);
            if pass_selection_error(before, p, pick) is None {
                after == Some(pick)
            } else {
                after == before.pass_selections[p]
            }
        }
}

/// `next` is `before` with the computer seats' passes filled in.
pub open spec fn filled_from(before: GameView, next: GameView) -> bool {
    &&& before.phase != Phase::Passing ==> next == before
    &&& next == (GameView { pass_selections: next.pass_selections, ..before })
    &&& next.pass_selections[0] == before.pass_selections[0]
    &&& forall|p: int| 1 <= p < 4 ==> ai_selection(before, p, #[trigger] next.pass_selections[p])
}

/// Each computer seat holds distinct cards, enough of them passable.
pub open spec fn passes_possible(s: GameView) -> bool {
    forall|p: int|
        1 <= p < 4 ==> crate::engine::distinct_ids(#[trigger] s.hands[p]) && crate::engine::spec_passable(s, p).len()
            >= spec_variant(s.variant).pass_count
}

/// Computer seats pass their chosen cards: for seats 1 to 3 in turn, the
/// cards [`choose_pass_cards`] picks from `rank_pass`'s order are recorded
/// when [`set_pass_selection`] accepts them. Other phases are left alone.
pub fn fill_ai_passes<F: Fn(&GameState, PlayerId) -> Vec<Card>>(state: GameState, rank_pass: &F) -> (next: GameState)
    requires
        state@.wf(),
        forall|s: &GameState, p: PlayerId| rank_pass.requires((s, p)),
    ensures
        next@.wf(),
        filled_from(state@, next@),
        state.phase == Phase::Passing && passes_possible(state@) ==> forall|p: int|
            1 <= p < 4 ==> #[trigger] next@.pass_selections[p] is Some,
{
    if state.phase != Phase::Passing {
        proof {
            assert forall|p: int| 1 <= p < 4 implies ai_selection(state@, p, #[trigger] state@.pass_selections[p]) by {
                let pick = spec_choose_pass_cards(state@, p, Seq::empty());
                assert(pass_selection_error(state@, p, pick) is Some);
            }
        }
        return state;
    }
    let mut current = state.clone();
    let mut p: usize = 1;
    while p < 4
        invariant
            1 <= p <= 4,
            state@.wf(),
            current@.wf(),
            state.phase == Phase::Passing,
            forall|s: &GameState, q: PlayerId| rank_pass.requires((s, q)),
            current@ == (GameView { pass_selections: current@.pass_selections, ..state@ }),
            current@.pass_selections[0] == state@.pass_selections[0],
            forall|q: int|
                p <= q < 4 ==> #[trigger] current@.pass_selections[q] == state@.pass_selections[q],
            forall|q: int| 1 <= q < p ==> ai_selection(state@, q, #[trigger] current@.pass_selections[q]),
            passes_possible(state@) ==> forall|q: int|
                1 <= q < p ==> #[trigger] current@.pass_selections[q] is Some,
        decreases 4 - p,
    {
        let ranked = rank_pass(&current, p);
        let cards = choose_pass_cards(&current, p, ranked.as_slice());
        proof {
            if passes_possible(state@) {
                assert(crate::engine::spec_passable(current@, p as int) == crate::engine::spec_passable(
                    state@,
                    p as int,
                ));
                crate::ai::lemma_ai_pass_accepted(current@, p as int, ranked@);
            }
        }
        let result = set_pass_selection(&current, p, cards.as_slice());
        assert(spec_choose_pass_cards(current@, p as int, ranked@) == spec_choose_pass_cards(
            state@,
            p as int,
            ranked@,
        ));
        assert(pass_selection_error(current@, p as int, cards@) == pass_selection_error(
            state@,
            p as int,
            cards@,
        ));
        match result {
            Ok(s) => {
                current = s;
            },
            Err(_) => {},
        }
        p += 1;
    }
    current
}

#[derive(Debug, Clone, Copy, PartialEq, Eq, Structural)]
pub enum Screen {
    Menu,
    Table,
}

/// A short message to the player.
#[derive(Debug, Clone, PartialEq, Eq)]
pub enum Flash {
    CannotPassQueen,
    PickCards(usize),
    GotCards(usize, String),
    Illegal,
    PassFailed,
}

/// Settings to change; `None` keeps the current value.
#[derive(Debug, Default)]
pub struct SettingsPatch {
    pub variant: Option<VariantId>,
    pub difficulty: Option<Difficulty>,
    pub player_name: Option<String>,
    pub ai_names: Option<[String; 3]>,
    pub muted: Option<bool>,
    pub locale: Option<Locale>,
    pub card_back: Option<CardBackTint>,
}

/// The whole application state.
pub struct App {
    pub screen: Screen,
    pub settings: Settings,
    pub stats: Stats,
    pub state: Option<GameState>,
    pub selected: Vec<u8>,
    pub flash: Option<Flash>,
    pub rules_open: bool,
    pub score_open: bool,
    pub rng: Rng,
}

pub enum FlashView {
    CannotPassQueen,
    PickCards(usize),
    GotCards(usize, Seq<char>),
    Illegal,
    PassFailed,
}

pub open spec fn flash_view(f: Option<Flash>) -> Option<FlashView> {
    match f {
        Some(Flash::CannotPassQueen) => Some(FlashView::CannotPassQueen),
        Some(Flash::PickCards(n)) => Some(FlashView::PickCards(n)),
        Some(Flash::GotCards(n, from)) => Some(FlashView::GotCards(n, from@)),
        Some(Flash::Illegal) => Some(FlashView::Illegal),
        Some(Flash::PassFailed) => Some(FlashView::PassFailed),
        None => None,
    }
}

#[verifier::ext_equal]
pub struct AppView {
    pub screen: Screen,
    pub settings: SettingsView,
    pub stats: Stats,
    pub state: Option<GameView>,
    pub selected: Seq<u8>,
    pub flash: Option<FlashView>,
    pub rules_open: bool,
    pub score_open: bool,
    pub rng: u32,
}

impl View for App {
    type V = AppView;

    open spec fn view(&self) -> AppView {
        AppView {
            screen: self.screen,
            settings: self.settings@,
            stats: self.stats,
            state: game_view(self.state),
            selected: self.selected@,
            flash: flash_view(self.flash),
            rules_open: self.rules_open,
            score_open: self.score_open,
            rng: self.rng@,
        }
    }
}

/// The settings with what the patch names changed.
pub open spec fn patched(s: SettingsView, p: SettingsPatch) -> SettingsView {
    SettingsView {
        variant: match p.variant {
            Some(v) => v,
            None => s.variant,
        },
        difficulty: match p.difficulty {
            Some(d) => d,
            None => s.difficulty,
        },
        player_name: match p.player_name {
            Some(n) => n@,
            None => s.player_name,
        },
        ai_names: match p.ai_names {
            Some(a) => a@.map_values(|n: String| n@),
            None => s.ai_names,
        },
        muted: match p.muted {
            Some(m) => m,
            None => s.muted,
        },
        locale: match p.locale {
            Some(l) => l,
            None => s.locale,
        },
        card_back: match p.card_back {
            Some(c) => c,
            None => s.card_back,
        },
    }
}

fn apply_patch(settings: &mut Settings, patch: SettingsPatch)
    ensures
        final(settings)@ == patched(old(settings)@, patch),
{
    let SettingsPatch { variant, difficulty, player_name, ai_names, muted, locale, card_back } =
        patch;
    if let Some(v) = variant {
        settings.variant = v;
    }
    if let Some(d) = difficulty {
        settings.difficulty = d;
    }
    if let Some(l) = locale {
        settings.locale = l;
    }
    if let Some(c) = card_back {
        settings.card_back = c;
    }
    if let Some(m) = muted {
        settings.muted = m;
    }
    if let Some(n) = player_name {
        settings.player_name = n;
    }
    if let Some(a) = ai_names {
        settings.ai_names = a;
    }
    assert(final(settings)@.ai_names =~= patched(old(settings)@, patch).ai_names);
    assert(final(settings)@ =~= patched(old(settings)@, patch));
}

/// What selecting or unselecting a card does: outside the passing phase
/// nothing; a selected card is unselected; past the pass size, or for a card
/// not on the hand, nothing; the queen of spades where she stays is refused
/// with a message; else the card is selected.
pub open spec fn spec_toggle(a: AppView, id: u8) -> AppView {
    match a.state {
        None => a,
        Some(s) => {
            let v = spec_variant(s.variant);
            if s.phase != Phase::Passing {
                a
            } else if a.selected.contains(id) {
                AppView { selected: without_id(a.selected, id), flash: None, ..a }
            } else if a.selected.len() >= v.pass_count {
                a
            } else if !holds_id(s.hands[0], id) {
                a
            } else if !v.can_pass_queen && spec_is_queen_of_spades(Card { id }) {
                AppView { flash: Some(FlashView::CannotPassQueen), ..a }
            } else {
                AppView { selected: a.selected.push(id), flash: None, ..a }
            }
        },
    }
}

/// The ids but `x`.
pub open spec fn without_id(items: Seq<u8>, x: u8) -> Seq<u8> {
    items.filter(|y: u8| other_id(y, x))
}

pub open spec fn other_id(y: u8, x: u8) -> bool {
    y != x
}

fn contains_u8(items: &[u8], x: u8) -> (found: bool)
    ensures
        found == items@.contains(x),
{
    let mut i: usize = 0;
    while i < items.len()
        invariant
            i <= items@.len(),
            forall|k: int| 0 <= k < i ==> items@[k] != x,
        decreases items@.len() - i,
    {
        if items[i] == x {
            return true;
        }
        i += 1;
    }
    false
}

fn without_u8(items: &[u8], x: u8) -> (rest: Vec<u8>)
    ensures
        rest@ == without_id(items@, x),
{
    let mut rest: Vec<u8> = Vec::new();
    let mut i: usize = 0;
    while i < items.len()
        invariant
            i <= items@.len(),
            rest@ == without_id(items@.take(i as int), x),
        decreases items@.len() - i,
    {
        proof {
            assert(items@.take(i + 1) =~= items@.take(i as int).push(items@[i as int]));
            items@.take(i as int).lemma_filter_push(items@[i as int], |y: u8| other_id(y, x));
        }
        if items[i] != x {
            rest.push(items[i]);
        }
        i += 1;
    }
    assert(items@.take(items@.len() as int) =~= items@);
    rest
}

/// Unicode White_Space, the characters `char::is_whitespace` accepts.
pub open spec fn is_white_space(c: char) -> bool {
    let n = c as u32;
    (0x9 <= n <= 0xd) || n == 0x20 || n == 0x85 || n == 0xa0 || n == 0x1680 || (0x2000 <= n <= 0x200a)
        || n == 0x2028 || n == 0x2029 || n == 0x202f || n == 0x205f || n == 0x3000
}

pub open spec fn trim_start(s: Seq<char>) -> Seq<char>
    decreases s.len(),
{
    if s.len() > 0 && is_white_space(s[0]) {
        trim_start(s.drop_first())
    } else {
        s
    }
}

pub open spec fn trim_end(s: Seq<char>) -> Seq<char>
    decreases s.len(),
{
    if s.len() > 0 && is_white_space(s.last()) {
        trim_end(s.drop_last())
    } else {
        s
    }
}

/// The text without leading and trailing white space.
pub open spec fn trimmed(s: Seq<char>) -> Seq<char> {
    trim_end(trim_start(s))
}

/// `str::trim`: the text without its leading and trailing characters for
/// which `char::is_whitespace` holds, that is Unicode White_Space.
#[verifier::external_body]
fn trim_text(s: &str) -> (t: &str)
    ensures
        t@ == trimmed(s@),
{
    s.trim()
}

pub open spec fn spec_seat_name(settings: SettingsView, id: PlayerId) -> Seq<char> {
    if id == 0 {
        if trimmed(settings.player_name).len() == 0 {
            spec_strings(settings.locale).you@
        } else {
            trimmed(settings.player_name)
        }
    } else if id - 1 < 3 {
        settings.ai_names[id - 1]
    } else {
        spec_strings(settings.locale).opponents@
    }
}

/// Enough room in the statistics for a game that ends.
pub open spec fn stats_fit(stats: Stats, next: GameView) -> bool {
    next.phase == Phase::GameOver ==> stats.games_played < u32::MAX && stats.games_won < u32::MAX
}

/// The statistics after a trick: a finished game is counted, and won when
/// seat 0 is among the lowest.
pub open spec fn stats_after(stats: Stats, next: GameView) -> Stats {
    if next.phase == Phase::GameOver {
        Stats {
            games_played: (stats.games_played + 1) as u32,
            games_won: (stats.games_won + if next.tied.contains(0) {
                1int
            } else {
                0int
            }) as u32,
        }
    } else {
        stats
    }
}

fn contains_seat(seats: &[PlayerId], p: PlayerId) -> (found: bool)
    ensures
        found == seats@.contains(p),
{
    let mut i: usize = 0;
    while i < seats.len()
        invariant
            i <= seats@.len(),
            forall|k: int| 0 <= k < i ==> seats@[k] != p,
        decreases seats@.len() - i,
    {
        if seats[i] == p {
            return true;
        }
        i += 1;
    }
    false
}

/// The cards of the selected ids.
pub open spec fn selected_cards(ids: Seq<u8>) -> Seq<Card> {
    ids.map_values(|id: u8| Card { id })
}

/// The message after a pass: whose cards arrived.
pub open spec fn got_cards_flash(dir: PassDir, settings: SettingsView) -> Option<FlashView> {
    match dir {
        PassDir::Hold => None,
        PassDir::Left => Some(FlashView::GotCards(3, settings.ai_names[2])),
        PassDir::Right => Some(FlashView::GotCards(3, settings.ai_names[0])),
        PassDir::Across => Some(FlashView::GotCards(3, settings.ai_names[1])),
    }
}

/// `commit_pass` refuses the state.
pub open spec fn commit_refused(s: GameView) -> bool {
    s.phase == Phase::Passing && s.pass_dir != PassDir::Hold && !crate::engine::all_chosen(s)
}

/// What confirming the pass does (see [`App::confirm_pass`]).
pub open spec fn confirm_outcome(a: AppView, b: AppView) -> bool {
    match a.state {
        None => b == a,
        Some(s) => if s.phase != Phase::Passing {
            b == a
        } else if a.selected.len() != spec_variant(s.variant).pass_count {
            b == (AppView { flash: Some(FlashView::PickCards(3)), ..a })
        } else {
            match spec_set_pass_selection(s, 0, selected_cards(a.selected)) {
                Err(_) => b == (AppView { flash: Some(FlashView::PassFailed), ..a }),
                Ok(chosen) => if commit_refused(chosen) {
                    b == (AppView { flash: Some(FlashView::PassFailed), ..a })
                } else {
                    exists|next: GameView|
                        crate::engine::commit_outcome(chosen, Ok(next)) && b == (AppView {
                            state: Some(next),
                            selected: Seq::empty(),
                            flash: got_cards_flash(next.pass_dir, a.settings),
                            ..a
                        })
                },
            }
        },
    }
}

/// The name of the seat whose cards arrive in the pass.
pub fn pass_from_name(state: &GameState, settings: &Settings) -> (name: Option<String>)
    ensures
        match name {
            Some(n) => got_cards_flash(state.pass_dir, settings@) == Some(FlashView::GotCards(3, n@)),
            None => got_cards_flash(state.pass_dir, settings@) is None,
        },
{
    match state.pass_dir {
        PassDir::Hold => None,
        PassDir::Left => Some(settings.ai_names[2].clone()),
        PassDir::Right => Some(settings.ai_names[0].clone()),
        PassDir::Across => Some(settings.ai_names[1].clone()),
    }
}

/// The computer seat on turn plays the card.
pub open spec fn ai_move(a: AppView, b: AppView, played: bool, card: Card) -> bool {
    let s = a.state.unwrap();
    match spec_play_card(s, s.turn as int, card.id) {
        Ok(next) => played && b == (AppView { state: Some(next), flash: None, ..a }),
        Err(_) => !played && b == a,
    }
}

/// The game a save keeps: the one in progress, but not a finished one left
/// from the menu.
pub open spec fn saved_game(a: AppView) -> Option<GameView> {
    match a.screen {
        Screen::Table => a.state,
        Screen::Menu => match a.state {
            Some(s) => if s.phase == Phase::GameOver {
                None
            } else {
                Some(s)
            },
            None => None,
        },
    }
}

impl App {
    /// The application as loaded: at the table when a game was saved.
    pub fn new(settings: Settings, stats: Stats, game: Option<GameState>) -> (app: App)
        ensures
            app@.screen == if game is Some {
                Screen::Table
            } else {
                Screen::Menu
            },
            app@.settings == settings@,
            app@.stats == stats,
            app@.state == game_view(game),
            app@.selected.len() == 0,
            app@.flash is None,
            !app@.rules_open,
            !app@.score_open,
            exists|nanos: Option<u32>| app@.rng == spec_seed_from_clock(nanos),
            app@.rng % 2 == 1,
    {
        let screen = if game.is_some() {
            Screen::Table
        } else {
            Screen::Menu
        };
        App {
            screen,
            settings,
            stats,
            state: game,
            selected: Vec::new(),
            flash: None,
            rules_open: false,
            score_open: false,
            rng: Rng::new(),
        }
    }

    /// The interface text of the chosen language.
    pub fn copy(&self) -> (copy: crate::i18n::Copy)
        ensures
            copy == spec_strings(self@.settings.locale),
    {
        strings(self.settings.locale)
    }

    /// Changes the settings the patch names.
    pub fn set_settings(&mut self, patch: SettingsPatch)
        ensures
            final(self)@ == (AppView { settings: patched(old(self)@.settings, patch), ..old(self)@ }),
    {
        let ghost before = self@;
        apply_patch(&mut self.settings, patch);
        assert(self@ =~= AppView { settings: patched(before.settings, patch), ..before });
    }

    /// Deals a new game (in the given variant, which becomes the setting)
    /// and lets the computer seats choose their passes, ordering each seat's
    /// passable cards with `rank_pass`.
    pub fn new_game<F: Fn(&GameState, PlayerId) -> Vec<Card>>(
        &mut self,
        variant: Option<VariantId>,
        rank_pass: &F,
    )
        requires
            forall|s: &GameState, p: PlayerId| rank_pass.requires((s, p)),
        ensures
            ({
                let v = match variant {
                    Some(vd) => vd,
                    None => old(self)@.settings.variant,
                };
                &&& final(self)@.settings == (SettingsView { variant: v, ..old(self)@.settings })
                &&& final(self)@.state matches Some(g) && exists|raw: GameView|
                    raw == new_hand_view(v, 0, seq![0i32, 0, 0, 0], raw.hands) && dealt_from(
                        raw.hands,
                        dealing_deck(old(self)@.rng),
                    ) && raw.wf() && filled_from(raw, g)
                &&& final(self)@.rng == shuffled(fresh_deck(), old(self)@.rng).1
                &&& final(self)@ == (AppView {
                    screen: Screen::Table,
                    settings: final(self)@.settings,
                    state: final(self)@.state,
                    selected: Seq::empty(),
                    flash: None,
                    score_open: false,
                    rng: final(self)@.rng,
                    ..old(self)@
                })
            }),
    {
        let v = match variant {
            Some(vd) => vd,
            None => self.settings.variant,
        };
        if let Some(vd) = variant {
            if vd != self.settings.variant {
                self.settings.variant = vd;
            }
        }
        let raw = create_game(v, &mut self.rng);
        let ghost raw_view = raw@;
        let state = fill_ai_passes(raw, rank_pass);
        self.screen = Screen::Table;
        self.state = Some(state);
        self.selected.clear();
        self.flash = None;
        self.score_open = false;
        assert(self@.selected =~= Seq::<u8>::empty());
    }

    /// Back to the table; the score sheet opens when the hand or game is over.
    pub fn continue_game(&mut self)
        ensures
            match old(self)@.state {
                None => final(self)@ == old(self)@,
                Some(s) => final(self)@ == (AppView {
                    screen: Screen::Table,
                    score_open: s.phase == Phase::HandEnd || s.phase == Phase::GameOver,
                    ..old(self)@
                }),
            },
    {
        if self.state.is_none() {
            return;
        }
        let open = match &self.state {
            Some(s) => s.phase == Phase::HandEnd || s.phase == Phase::GameOver,
            None => false,
        };
        self.screen = Screen::Table;
        self.score_open = open;
    }

    /// Back to the menu, keeping the game.
    pub fn abandon(&mut self)
        ensures
            final(self)@ == (AppView {
                screen: Screen::Menu,
                selected: Seq::empty(),
                flash: None,
                score_open: false,
                ..old(self)@
            }),
    {
        self.screen = Screen::Menu;
        self.selected.clear();
        self.flash = None;
        self.score_open = false;
        assert(self@.selected =~= Seq::<u8>::empty());
    }

    /// Selects or unselects a card of the human player's hand for the pass.
    pub fn toggle_card(&mut self, id: u8)
        requires
            old(self)@.state matches Some(s) ==> s.wf(),
        ensures
            final(self)@ == spec_toggle(old(self)@, id),
    {
        let ghost before = self@;
        let (phase_ok, can_pass_queen, pass_count) = match &self.state {
            Some(state) => {
                let v = get_variant(state.variant);
                (state.phase == Phase::Passing, v.can_pass_queen, v.pass_count)
            },
            None => (false, true, 0),
        };
        if !phase_ok {
            return;
        }
        if contains_u8(self.selected.as_slice(), id) {
            self.selected = without_u8(self.selected.as_slice(), id);
            self.flash = None;
            assert(self@ =~= spec_toggle(before, id));
            return;
        }
        if self.selected.len() >= pass_count {
            return;
        }
        let found = match &self.state {
            Some(state) => {
                assert(before.state.unwrap().hands[0] == state.hands@[0]@);
                find_card(state.hands[0].as_slice(), id)
            },
            None => None,
        };
        let card = match found {
            Some(c) => c,
            None => {
                return;
            },
        };
        if !can_pass_queen && is_queen_of_spades(card) {
            self.flash = Some(Flash::CannotPassQueen);
            assert(self@ =~= spec_toggle(before, id));
            return;
        }
        self.selected.push(id);
        self.flash = None;
        assert(self@ =~= spec_toggle(before, id));
    }

    /// Passes the selected cards: refused with a message unless exactly the
    /// pass size is selected; else recorded for seat 0 and exchanged.
    pub fn confirm_pass(&mut self)
        requires
            old(self)@.state matches Some(s) ==> s.wf() && (s.phase == Phase::Passing
                && old(self)@.selected.len() == spec_variant(s.variant).pass_count ==> forall|k: int|
                0 <= k < old(self)@.selected.len() ==> holds_id(s.hands[0], #[trigger] old(self)@.selected[k])),
        ensures
            confirm_outcome(old(self)@, final(self)@),
    {
        let ghost before = self@;
        let state = match &self.state {
            Some(s) => s.clone(),
            None => {
                return;
            },
        };
        if state.phase != Phase::Passing {
            return;
        }
        let v = get_variant(state.variant);
        if self.selected.len() != v.pass_count {
            self.flash = Some(Flash::PickCards(v.pass_count));
            assert(self@ =~= AppView { flash: Some(FlashView::PickCards(3)), ..before });
            return;
        }
        let mut cards: Vec<Card> = Vec::new();
        let mut i: usize = 0;
        while i < self.selected.len()
            invariant
                i <= self.selected@.len(),
                self@ == before,
                state@ == before.state.unwrap(),
                state@.wf(),
                state.phase == Phase::Passing,
                self.selected@.len() == spec_variant(state.variant).pass_count,
                forall|k: int|
                    0 <= k < self.selected@.len() ==> holds_id(state@.hands[0], #[trigger] self.selected@[k]),
                cards@ == selected_cards(self.selected@.take(i as int)),
            decreases self.selected@.len() - i,
        {
            assert(state@.hands[0] == state.hands@[0]@);
            assert(holds_id(state@.hands[0], self.selected@[i as int]));
            let card = find_card(state.hands[0].as_slice(), self.selected[i]).unwrap();
            cards.push(card);
            i += 1;
            assert(cards@ =~= selected_cards(self.selected@.take(i as int)));
        }
        assert(self.selected@.take(i as int) =~= self.selected@);
        match set_pass_selection(&state, 0, cards.as_slice()) {
            Ok(chosen) => match commit_pass(&chosen) {
                Ok(next) => {
                    let from = pass_from_name(&next, &self.settings);
                    self.state = Some(next);
                    self.selected.clear();
                    self.flash = match from {
                        Some(f) => Some(Flash::GotCards(v.pass_count, f)),
                        None => None,
                    };
                    assert(self@.selected =~= Seq::<u8>::empty());
                },
                Err(_) => {
                    self.flash = Some(Flash::PassFailed);
                },
            },
            Err(_) => {
                self.flash = Some(Flash::PassFailed);
            },
        }
    }

    /// The human player plays a card: on seat 0's turn, when legal.
    pub fn play(&mut self, id: u8) -> (played: bool)
        requires
            old(self)@.state matches Some(s) ==> s.wf(),
        ensures
            match old(self)@.state {
                None => !played && final(self)@ == old(self)@,
                Some(s) => if s.phase != Phase::Playing || s.turn != 0 {
                    !played && final(self)@ == old(self)@
                } else {
                    match spec_play_card(s, 0, id) {
                        Ok(next) => played && final(self)@ == (AppView {
                            state: Some(next),
                            selected: Seq::empty(),
                            flash: None,
                            ..old(self)@
                        }),
                        Err(_) => !played && final(self)@ == (AppView {
                            flash: Some(FlashView::Illegal),
                            ..old(self)@
                        }),
                    }
                },
            },
    {
        let ghost before = self@;
        let state = match &self.state {
            Some(s) => s.clone(),
            None => {
                return false;
            },
        };
        if state.phase != Phase::Playing || state.turn != 0 {
            return false;
        }
        match play_card(&state, 0, id) {
            Ok(next) => {
                self.state = Some(next);
                self.selected.clear();
                self.flash = None;
                assert(self@.selected =~= Seq::<u8>::empty());
                true
            },
            Err(_) => {
                self.flash = Some(Flash::Illegal);
                false
            },
        }
    }

    /// A computer seat plays: the card [`choose_play`] picks at the index
    /// `pick_play` draws.
    pub fn play_ai<F: Fn(&GameState, PlayerId) -> usize>(&mut self, pick_play: &F) -> (played: bool)
        requires
            old(self)@.state matches Some(s) ==> s.wf(),
            forall|s: &GameState, p: PlayerId| pick_play.requires((s, p)),
        ensures
            match old(self)@.state {
                None => !played && final(self)@ == old(self)@,
                Some(s) => if s.phase != Phase::Playing || s.turn == 0 {
                    !played && final(self)@ == old(self)@
                } else {
                    exists|pick: usize|
                        ai_move(old(self)@, final(self)@, played, #[trigger] spec_choose_play(s, s.turn as int, pick))
                },
            },
            old(self)@.state matches Some(s) && s.phase == Phase::Playing && s.turn != 0
                && s.hands[s.turn as int].len() > 0 ==> played,
    {
        let state = match &self.state {
            Some(s) => s.clone(),
            None => {
                return false;
            },
        };
        if state.phase != Phase::Playing || state.turn == 0 {
            return false;
        }
        let pick = pick_play(&state, state.turn);
        let card = choose_play(&state, state.turn, pick);
        proof {
            crate::engine::lemma_legal_moves_nonempty(state@, state.turn as int);
            let moves = crate::engine::spec_legal_moves(state@, state.turn as int);
            if moves.len() > 0 {
                let k = choose|k: int| 0 <= k < moves.len() && moves[k] == card;
                assert(moves[k].id == card.id);
            }
        }
        match play_card(&state, state.turn, card.id) {
            Ok(next) => {
                self.state = Some(next);
                self.flash = None;
                true
            },
            Err(_) => false,
        }
    }

    /// The trick on the table is gathered; a finished game counts in the
    /// statistics, and the score sheet opens after a hand.
    pub fn settle_trick(&mut self)
        requires
            old(self)@.state matches Some(s) ==> s.wf() && resolve_fits(s) && (s.phase == Phase::TrickEnd
                ==> stats_fit(old(self)@.stats, spec_resolve_trick(s))),
        ensures
            match old(self)@.state {
                None => final(self)@ == old(self)@,
                Some(s) => if s.phase != Phase::TrickEnd {
                    final(self)@ == old(self)@
                } else {
                    let next = spec_resolve_trick(s);
                    final(self)@ == (AppView {
                        state: Some(next),
                        stats: stats_after(old(self)@.stats, next),
                        score_open: next.phase == Phase::HandEnd || next.phase == Phase::GameOver,
                        ..old(self)@
                    })
                },
            },
    {
        let state = match &self.state {
            Some(s) => s.clone(),
            None => {
                return;
            },
        };
        if state.phase != Phase::TrickEnd {
            return;
        }
        let next = resolve_trick(&state);
        let mut next_stats = self.stats;
        if next.phase == Phase::GameOver {
            let won = contains_seat(next.tied.as_slice(), 0);
            next_stats.games_played = self.stats.games_played + 1;
            next_stats.games_won = self.stats.games_won + if won {
                1
            } else {
                0
            };
        }
        let open = next.phase == Phase::HandEnd || next.phase == Phase::GameOver;
        self.state = Some(next);
        self.stats = next_stats;
        self.score_open = open;
    }

    /// Deals the next hand once the score sheet of a hand is done.
    pub fn next_hand<F: Fn(&GameState, PlayerId) -> Vec<Card>>(&mut self, rank_pass: &F)
        requires
            old(self)@.state matches Some(s) ==> s.wf() && (s.phase == Phase::HandEnd ==> s.hand_number
                < usize::MAX),
            forall|s: &GameState, p: PlayerId| rank_pass.requires((s, p)),
        ensures
            match old(self)@.state {
                None => final(self)@ == old(self)@,
                Some(s) => if s.phase != Phase::HandEnd {
                    final(self)@ == old(self)@
                } else {
                    &&& final(self)@.state matches Some(g) && exists|raw: GameView|
                        raw == new_hand_view(
                            s.variant,
                            (s.hand_number + 1) as usize,
                            s.scores,
                            raw.hands,
                        ) && dealt_from(raw.hands, dealing_deck(old(self)@.rng)) && raw.wf()
                            && filled_from(raw, g)
                    &&& final(self)@.rng == shuffled(fresh_deck(), old(self)@.rng).1
                    &&& final(self)@ == (AppView {
                        state: final(self)@.state,
                        selected: Seq::empty(),
                        flash: None,
                        score_open: false,
                        rng: final(self)@.rng,
                        ..old(self)@
                    })
                },
            },
    {
        let state = match &self.state {
            Some(s) => s.clone(),
            None => {
                return;
            },
        };
        if state.phase != Phase::HandEnd {
            return;
        }
        let raw = continue_game(&state, &mut self.rng);
        let filled = fill_ai_passes(raw, rank_pass);
        self.state = Some(filled);
        self.selected.clear();
        self.flash = None;
        self.score_open = false;
        assert(self@.selected =~= Seq::<u8>::empty());
    }

    pub fn set_rules_open(&mut self, open: bool)
        ensures
            final(self)@ == (AppView { rules_open: open, ..old(self)@ }),
    {
        self.rules_open = open;
    }

    pub fn set_score_open(&mut self, open: bool)
        ensures
            final(self)@ == (AppView { score_open: open, ..old(self)@ }),
    {
        self.score_open = open;
    }

    pub fn clear_flash(&mut self)
        ensures
            final(self)@ == (AppView { flash: None, ..old(self)@ }),
    {
        self.flash = None;
    }

    /// The pause before a computer seat plays (see [`think_delay_ms`]).
    pub fn think_delay(&self, legal_count: usize, roll: u32) -> (ms: u32)
        ensures
            ms == crate::ai::think_base(self@.settings.difficulty) + (roll / 256)
                * crate::ai::think_spread(legal_count) / 16777216,
    {
        think_delay_ms(self.settings.difficulty, legal_count, roll)
    }

    /// The name shown for a seat: the player's trimmed name or "You", the
    /// computer seat's name, or "Opponents" past the named seats.
    pub fn seat_name(&self, id: PlayerId) -> (name: String)
        ensures
            name@ == spec_seat_name(self@.settings, id),
    {
        if id == 0 {
            let n = trim_text(self.settings.player_name.as_str());
            if n.is_empty() {
                return self.copy().you.to_owned();
            }
            return n.to_owned();
        }
        if id - 1 < 3 {
            let name = self.settings.ai_names[id - 1].clone();
            assert(self@.settings.ai_names[id - 1] == self.settings.ai_names@[id - 1]@);
            return name;
        }
        self.copy().opponents.to_owned()
    }

    /// The names of the four seats.
    pub fn names(&self) -> (names: [String; 4])
        ensures
            forall|i: int| 0 <= i < 4 ==> (#[trigger] names@[i])@ == spec_seat_name(self@.settings, i as PlayerId),
    {
        [self.seat_name(0), self.seat_name(1), self.seat_name(2), self.seat_name(3)]
    }

    /// The save to write now.
    pub fn persist(&self) -> (blob: SaveBlob)
        ensures
            blob@ == spec_write_save(self@.settings, self@.stats, saved_game(self@)),
    {
        let game = match self.screen {
            Screen::Table => self.state.as_ref(),
            Screen::Menu => match &self.state {
                Some(s) => if s.phase == Phase::GameOver {
                    None
                } else {
                    Some(s)
                },
                None => None,
            },
        };
        write_save(&self.settings, &self.stats, game)
    }
}

} // verus!
