//! The tabs: one for each terminal, and one for the settings.

use vstd::prelude::*;
use vstd::string::*;
use crate::renderer::decoration::DecorationTheme;
use crate::terminal::frame::{FramePatch, FrameView};
use crate::terminal::palette::{RgbColor, RgbaColor, TerminalTheme};
use crate::text;

verus! {

/// The terminal of a tab, as the user interface knows it.
#[derive(Debug, PartialEq, Eq)]
pub struct TerminalSession {
    /// Stands for the terminal, wherever its tab is.
    pub id: i32,
    pub title: String,
    /// The program has not ended.
    pub terminal_active: bool,
    pub exit_message: String,
    pub scroll_offset: i32,
    pub scroll_history_lines: i32,
    pub cursor_column: i32,
    pub cursor_row: i32,
}

/// What a `TerminalSession` holds.
#[verifier::ext_equal]
pub struct SessionView {
    pub id: i32,
    pub title: Seq<char>,
    pub terminal_active: bool,
    pub exit_message: Seq<char>,
    pub scroll_offset: i32,
    pub scroll_history_lines: i32,
    pub cursor_column: i32,
    pub cursor_row: i32,
}

impl View for TerminalSession {
    type V = SessionView;

    open spec fn view(&self) -> SessionView {
        SessionView {
            id: self.id,
            title: self.title@,
            terminal_active: self.terminal_active,
            exit_message: self.exit_message@,
            scroll_offset: self.scroll_offset,
            scroll_history_lines: self.scroll_history_lines,
            cursor_column: self.cursor_column,
            cursor_row: self.cursor_row,
        }
    }
}

/// What a list of sessions holds.
pub open spec fn session_views(sessions: Seq<TerminalSession>) -> Seq<SessionView> {
    sessions.map_values(|session: TerminalSession| session@)
}

/// The title of a terminal whose program has not set one.
pub open spec fn default_title_of(id: i32) -> Seq<char> {
    "Terminal "@ + text::signed_decimal(id as int)
}

/// A terminal that has just started.
pub open spec fn new_session(id: i32) -> SessionView {
    SessionView {
        id,
        title: default_title_of(id),
        terminal_active: true,
        exit_message: Seq::empty(),
        scroll_offset: 0,
        scroll_history_lines: 0,
        cursor_column: 0,
        cursor_row: 0,
    }
}

pub fn default_title(id: i32) -> (title: String)
    ensures
        title@ == default_title_of(id),
{
    let number = text::signed_decimal_text(id);
    text::concat("Terminal ", number.as_str())
}

impl TerminalSession {
    /// A terminal that has just started.
    pub fn new(id: i32) -> (session: TerminalSession)
        ensures
            session@ == new_session(id),
    {
        let session = TerminalSession {
            id,
            title: default_title(id),
            terminal_active: true,
            exit_message: String::new(),
            scroll_offset: 0,
            scroll_history_lines: 0,
            cursor_column: 0,
            cursor_row: 0,
        };
        assert(session@ =~= new_session(id));
        session
    }
}

/// All tabs, and which one is shown.
#[derive(Debug)]
pub struct TabManager {
    pub sessions: Vec<TerminalSession>,
    pub active: usize,
    pub next_id: i32,
    pub settings_open: bool,
    pub settings_active: bool,
}

/// What a `TabManager` holds.
#[verifier::ext_equal]
pub struct TabsView {
    pub sessions: Seq<SessionView>,
    /// The terminal that is shown, or that the settings cover.
    pub active: int,
    /// The id of the next terminal.
    pub next_id: int,
    pub settings_open: bool,
    /// The settings are shown.
    pub settings_active: bool,
}

impl View for TabManager {
    type V = TabsView;

    open spec fn view(&self) -> TabsView {
        TabsView {
            sessions: session_views(self.sessions@),
            active: self.active as int,
            next_id: self.next_id as int,
            settings_open: self.settings_open,
            settings_active: self.settings_active,
        }
    }
}

impl TabsView {
    /// Whether the ids are distinct and given out already, and the shown tab is
    /// there.
    pub open spec fn valid(self) -> bool {
        &&& forall|i: int, j: int|
            0 <= i < j < self.sessions.len() ==> (#[trigger] self.sessions[i]).id != (
            #[trigger] self.sessions[j]).id
        &&& forall|i: int|
            0 <= i < self.sessions.len() ==> (#[trigger] self.sessions[i]).id < self.next_id
        &&& self.sessions.len() > 0 ==> 0 <= self.active < self.sessions.len()
        &&& self.settings_active ==> self.settings_open
    }

    /// The terminal that is shown, or that the settings cover.
    pub open spec fn selected(self) -> Option<SessionView> {
        if 0 <= self.active < self.sessions.len() {
            Some(self.sessions[self.active])
        } else {
            None
        }
    }

    /// The terminal that is shown.
    pub open spec fn shown(self) -> Option<SessionView> {
        if self.settings_active {
            None
        } else {
            self.selected()
        }
    }

    /// The id of the terminal that is shown.
    pub open spec fn shown_id(self) -> Option<i32> {
        match self.shown() {
            Some(session) => Some(session.id),
            None => None,
        }
    }
}

/// Where the terminal with an id stands, or the number of terminals.
pub open spec fn place_of_id(sessions: Seq<SessionView>, id: i32) -> int
    decreases sessions.len(),
{
    if sessions.len() == 0 || sessions.first().id == id {
        0
    } else {
        1 + place_of_id(sessions.drop_first(), id)
    }
}

proof fn lemma_place_of_id(sessions: Seq<SessionView>, id: i32)
    ensures
        0 <= place_of_id(sessions, id) <= sessions.len(),
        place_of_id(sessions, id) < sessions.len() ==> sessions[place_of_id(sessions, id)].id
            == id,
        forall|i: int|
            0 <= i < place_of_id(sessions, id) ==> (#[trigger] sessions[i]).id != id,
    decreases sessions.len(),
{
    if sessions.len() > 0 && sessions.first().id != id {
        lemma_place_of_id(sessions.drop_first(), id);
        assert forall|i: int| 0 <= i < place_of_id(sessions, id) implies (
        #[trigger] sessions[i]).id != id by {
            if i > 0 {
                assert(sessions.drop_first()[i - 1] == sessions[i]);
            }
        }
    }
}

/// The tabs with a new terminal, which is shown.
pub open spec fn with_session(tabs: TabsView, id: i32) -> TabsView {
    TabsView {
        sessions: tabs.sessions.push(new_session(id)),
        active: tabs.sessions.len() as int,
        settings_active: false,
        ..tabs
    }
}

/// What closing a tab comes to.
#[derive(Clone, Copy, Debug, PartialEq, Eq, Structural)]
pub enum CloseOutcome {
    /// There is no such tab.
    Nothing,
    /// It was the last one.
    Quit,
    /// Another tab is shown: the terminal with the id, else the settings.
    Show(Option<i32>),
}

/// The tabs without a terminal.
pub open spec fn without_session(tabs: TabsView, id: i32) -> TabsView {
    let place = place_of_id(tabs.sessions, id);
    if place >= tabs.sessions.len() {
        tabs
    } else {
        let rest = tabs.sessions.remove(place);
        if rest.len() == 0 && !tabs.settings_open {
            TabsView { sessions: rest, ..tabs }
        } else {
            TabsView {
                sessions: rest,
                active: if rest.len() > 0 && (place < tabs.active || tabs.active >= rest.len())
                    && tabs.active > 0 {
                    tabs.active - 1
                } else {
                    tabs.active
                },
                settings_active: tabs.settings_active || rest.len() == 0,
                ..tabs
            }
        }
    }
}

/// What closing the tab of a terminal comes to.
pub open spec fn close_outcome(tabs: TabsView, id: i32) -> CloseOutcome {
    if place_of_id(tabs.sessions, id) >= tabs.sessions.len() {
        CloseOutcome::Nothing
    } else if tabs.sessions.len() == 1 && !tabs.settings_open {
        CloseOutcome::Quit
    } else {
        CloseOutcome::Show(without_session(tabs, id).shown_id())
    }
}

/// The tabs without the settings.
pub open spec fn without_settings(tabs: TabsView) -> TabsView {
    TabsView { settings_open: false, settings_active: false, ..tabs }
}

/// What selecting a tab comes to.
#[derive(Clone, Copy, Debug, PartialEq, Eq, Structural)]
pub enum SelectOutcome {
    Nothing,
    /// The settings are shown; a search ends.
    Settings,
    /// The terminal with the id is shown.
    Terminal(i32),
}

/// The id of the tab of the settings.
pub const SETTINGS_TAB_ID: i32 = -1;

/// What selecting a tab comes to.
pub open spec fn select_outcome(tabs: TabsView, id: i32) -> SelectOutcome {
    let place = place_of_id(tabs.sessions, id);
    if id == SETTINGS_TAB_ID && tabs.settings_open {
        SelectOutcome::Settings
    } else if place >= tabs.sessions.len() || (place == tabs.active && !tabs.settings_active) {
        SelectOutcome::Nothing
    } else {
        SelectOutcome::Terminal(id)
    }
}

/// The tabs after a tab was selected.
pub open spec fn with_selection(tabs: TabsView, id: i32) -> TabsView {
    match select_outcome(tabs, id) {
        SelectOutcome::Nothing => tabs,
        SelectOutcome::Settings => TabsView { settings_active: true, ..tabs },
        SelectOutcome::Terminal(_) => TabsView {
            active: place_of_id(tabs.sessions, id),
            settings_active: false,
            ..tabs
        },
    }
}

/// A number as far as the user interface can hold it.
pub open spec fn ui_number(value: int) -> i32 {
    if value > i32::MAX {
        i32::MAX
    } else {
        value as i32
    }
}

pub fn to_ui_number(value: usize) -> (number: i32)
    ensures
        number == ui_number(value as int),
{
    if value > 0x7fff_ffff {
        0x7fff_ffff
    } else {
        value as i32
    }
}

/// A terminal with what a frame says of it.
pub open spec fn with_metadata(session: SessionView, patch: FrameView) -> SessionView {
    let moved = if patch.metadata_only {
        session
    } else {
        SessionView {
            scroll_offset: ui_number(patch.scroll_offset),
            scroll_history_lines: ui_number(patch.scroll_history_lines),
            cursor_column: ui_number(patch.cursor.column as int),
            cursor_row: ui_number(patch.cursor.row as int),
            ..session
        }
    };
    let titled = match patch.title {
        Some(title) => SessionView { title, ..moved },
        None => moved,
    };
    match patch.exit_message {
        Some(message) => SessionView { terminal_active: false, exit_message: message, ..titled },
        None => titled,
    }
}

/// What the user interface shows anew after a frame.
#[derive(Clone, Copy, Debug, PartialEq, Eq, Structural)]
pub struct MetadataOutcome {
    /// The scroll position, the cursor and the count of search results.
    pub position: bool,
    /// The tabs.
    pub tabs: bool,
}

/// What the user interface shows anew after a frame.
pub open spec fn metadata_outcome(tabs: TabsView, id: i32, patch: FrameView) -> MetadataOutcome {
    let known = place_of_id(tabs.sessions, id) < tabs.sessions.len();
    MetadataOutcome {
        position: known && tabs.shown_id() == Some(id) && !patch.metadata_only,
        tabs: known && (patch.title is Some || patch.exit_message is Some),
    }
}

/// The tabs after a frame of a terminal.
pub open spec fn after_frame(tabs: TabsView, id: i32, patch: FrameView) -> TabsView {
    let place = place_of_id(tabs.sessions, id);
    if place < tabs.sessions.len() {
        TabsView {
            sessions: tabs.sessions.update(place, with_metadata(tabs.sessions[place], patch)),
            ..tabs
        }
    } else {
        tabs
    }
}

/// A tab as the user interface shows it.
#[derive(Debug, PartialEq, Eq)]
pub struct TabData {
    pub id: i32,
    pub title: String,
    pub terminal_active: bool,
    pub is_settings: bool,
}

/// What a `TabData` holds.
#[verifier::ext_equal]
pub struct TabView {
    pub id: i32,
    pub title: Seq<char>,
    pub terminal_active: bool,
    pub is_settings: bool,
}

impl View for TabData {
    type V = TabView;

    open spec fn view(&self) -> TabView {
        TabView {
            id: self.id,
            title: self.title@,
            terminal_active: self.terminal_active,
            is_settings: self.is_settings,
        }
    }
}

/// What a list of tabs holds.
pub open spec fn tab_views(tabs: Seq<TabData>) -> Seq<TabView> {
    tabs.map_values(|tab: TabData| tab@)
}

/// The tab of a terminal.
pub open spec fn tab_of(session: SessionView) -> TabView {
    TabView {
        id: session.id,
        title: session.title,
        terminal_active: session.terminal_active,
        is_settings: false,
    }
}

/// The tab of the settings.
pub open spec fn settings_tab() -> TabView {
    TabView {
        id: SETTINGS_TAB_ID,
        title: "设置"@,
        terminal_active: false,
        is_settings: true,
    }
}

/// The tabs from left to right; the settings come last.
pub open spec fn tab_list(tabs: TabsView) -> Seq<TabView> {
    let terminals = tabs.sessions.map_values(|session: SessionView| tab_of(session));
    if tabs.settings_open {
        terminals.push(settings_tab())
    } else {
        terminals
    }
}

/// Which tab is marked, and the title of the window; where no tab is shown,
/// both stay as they are.
#[derive(Debug, PartialEq, Eq)]
pub struct ShownTab {
    pub id: i32,
    pub index: i32,
    pub title: String,
}

impl TabManager {
    /// One terminal, which is shown.
    pub fn new() -> (tabs: TabManager)
        ensures
            tabs@ == (TabsView {
                sessions: seq![new_session(1)],
                active: 0,
                next_id: 2,
                settings_open: false,
                settings_active: false,
            }),
            tabs@.valid(),
    {
        let mut sessions: Vec<TerminalSession> = Vec::new();
        sessions.push(TerminalSession::new(1));
        assert(session_views(sessions@) =~= seq![new_session(1)]);
        TabManager {
            sessions,
            active: 0,
            next_id: 2,
            settings_open: false,
            settings_active: false,
        }
    }

    /// The terminal that is shown, or that the settings cover.
    pub fn selected_session(&self) -> (session: Option<&TerminalSession>)
        ensures
            match session {
                Some(session) => self@.selected() == Some(session@),
                None => self@.selected() is None,
            },
    {
        if self.active < self.sessions.len() {
            assert(self@.sessions[self.active as int] == self.sessions@[self.active as int]@);
            Some(&self.sessions[self.active])
        } else {
            None
        }
    }

    /// The terminal that is shown.
    pub fn active_session(&self) -> (session: Option<&TerminalSession>)
        ensures
            match session {
                Some(session) => self@.shown() == Some(session@),
                None => self@.shown() is None,
            },
    {
        if self.settings_active {
            None
        } else {
            self.selected_session()
        }
    }

    /// The id of the terminal that is shown.
    pub fn active_id(&self) -> (id: Option<i32>)
        ensures
            id == self@.shown_id(),
    {
        match self.active_session() {
            Some(session) => Some(session.id),
            None => None,
        }
    }

    fn find(&self, id: i32) -> (place: usize)
        ensures
            place == place_of_id(self@.sessions, id),
            place <= self@.sessions.len(),
    {
        let ghost all = self@.sessions;
        let mut index: usize = 0;
        assert(all.skip(0) == all);
        while index < self.sessions.len() && self.sessions[index].id != id
            invariant
                index <= self.sessions@.len(),
                all == session_views(self.sessions@),
                place_of_id(all, id) == index + place_of_id(all.skip(index as int), id),
            decreases self.sessions.len() - index,
        {
            assert(all.skip(index as int).drop_first() == all.skip(index + 1));
            assert(all.skip(index as int).first() == self.sessions@[index as int]@);
            index += 1;
        }
        assert(index < self.sessions@.len() ==> all.skip(index as int).first()
            == self.sessions@[index as int]@);
        index
    }

    /// Gives out the id of a new terminal. Ids must not have run out.
    pub fn allocate_id(&mut self) -> (id: i32)
        requires
            old(self)@.valid(),
            old(self).next_id < i32::MAX,
        ensures
            id == old(self)@.next_id,
            final(self)@ == (TabsView { next_id: id + 1, ..old(self)@ }),
            final(self)@.valid(),
    {
        let id: i32 = self.next_id;
        self.next_id = id + 1;
        id
    }

    /// Adds a terminal that was started, and shows it.
    pub fn add_tab(&mut self, id: i32)
        requires
            old(self)@.valid(),
            id < old(self)@.next_id,
            place_of_id(old(self)@.sessions, id) == old(self)@.sessions.len(),
        ensures
            final(self)@ == with_session(old(self)@, id),
            final(self)@.valid(),
    {
        let ghost before = self@;
        proof {
            lemma_place_of_id(before.sessions, id);
        }
        let session = TerminalSession::new(id);
        let ghost view = session@;
        self.sessions.push(session);
        self.active = self.sessions.len() - 1;
        self.settings_active = false;
        assert(session_views(self.sessions@) =~= before.sessions.push(view));
        assert(self@ =~= with_session(before, id));
    }

    /// Closes the tab of a terminal.
    pub fn close_tab(&mut self, id: i32) -> (outcome: CloseOutcome)
        requires
            old(self)@.valid(),
        ensures
            outcome == close_outcome(old(self)@, id),
            final(self)@ == without_session(old(self)@, id),
            final(self)@.valid(),
    {
        let ghost before = self@;
        let place = self.find(id);
        if place >= self.sessions.len() {
            return CloseOutcome::Nothing;
        }
        proof {
            lemma_closing_keeps_valid(before, id);
        }
        self.sessions.remove(place);
        assert(session_views(self.sessions@) =~= before.sessions.remove(place as int));
        if self.sessions.len() == 0 && !self.settings_open {
            assert(self@ =~= without_session(before, id));
            return CloseOutcome::Quit;
        }
        if self.sessions.len() > 0 && (place < self.active || self.active >= self.sessions.len())
            && self.active > 0 {
            self.active = self.active - 1;
        }
        if self.sessions.len() == 0 {
            self.settings_active = true;
        }
        assert(self@ =~= without_session(before, id));
        CloseOutcome::Show(self.active_id())
    }

    /// Opens the settings and shows them.
    pub fn open_settings(&mut self)
        requires
            old(self)@.valid(),
        ensures
            final(self)@ == (TabsView {
                settings_open: true,
                settings_active: true,
                ..old(self)@
            }),
            final(self)@.valid(),
    {
        self.settings_open = true;
        self.settings_active = true;
    }

    /// Closes the settings.
    pub fn close_settings(&mut self) -> (outcome: CloseOutcome)
        requires
            old(self)@.valid(),
        ensures
            final(self)@ == without_settings(old(self)@),
            final(self)@.valid(),
            outcome == (if old(self)@.sessions.len() == 0 {
                CloseOutcome::Quit
            } else {
                CloseOutcome::Show(without_settings(old(self)@).shown_id())
            }),
    {
        self.settings_open = false;
        self.settings_active = false;
        assert(self@ =~= without_settings(old(self)@));
        if self.sessions.len() == 0 {
            return CloseOutcome::Quit;
        }
        CloseOutcome::Show(self.active_id())
    }

    /// Closes a tab: the settings or a terminal.
    pub fn close(&mut self, id: i32) -> (outcome: CloseOutcome)
        requires
            old(self)@.valid(),
        ensures
            final(self)@.valid(),
            id == SETTINGS_TAB_ID ==> final(self)@ == without_settings(old(self)@) && outcome == (
            if old(self)@.sessions.len() == 0 {
                CloseOutcome::Quit
            } else {
                CloseOutcome::Show(without_settings(old(self)@).shown_id())
            }),
            id != SETTINGS_TAB_ID ==> final(self)@ == without_session(old(self)@, id) && outcome
                == close_outcome(old(self)@, id),
    {
        if id == SETTINGS_TAB_ID {
            self.close_settings()
        } else {
            self.close_tab(id)
        }
    }

    /// Selects a tab.
    pub fn select_tab(&mut self, id: i32) -> (outcome: SelectOutcome)
        requires
            old(self)@.valid(),
        ensures
            outcome == select_outcome(old(self)@, id),
            final(self)@ == with_selection(old(self)@, id),
            final(self)@.valid(),
    {
        if id == SETTINGS_TAB_ID && self.settings_open {
            self.settings_active = true;
            return SelectOutcome::Settings;
        }
        let place = self.find(id);
        if place >= self.sessions.len() {
            return SelectOutcome::Nothing;
        }
        if place == self.active && !self.settings_active {
            return SelectOutcome::Nothing;
        }
        self.active = place;
        self.settings_active = false;
        SelectOutcome::Terminal(id)
    }

    /// Takes over what a frame says of its terminal.
    pub fn apply_frame_metadata(&mut self, id: i32, patch: &FramePatch) -> (outcome: MetadataOutcome)
        requires
            old(self)@.valid(),
        ensures
            outcome == metadata_outcome(old(self)@, id, patch@),
            final(self)@ == after_frame(old(self)@, id, patch@),
            final(self)@.valid(),
    {
        let ghost before = self@;
        let ghost list = self.sessions@;
        let is_shown = match self.active_id() {
            Some(shown) => shown == id,
            None => false,
        };
        let place = self.find(id);
        if place >= self.sessions.len() {
            return MetadataOutcome { position: false, tabs: false };
        }
        proof {
            lemma_place_of_id(before.sessions, id);
            assert(before.sessions[place as int] == list[place as int]@);
        }
        let known: &TerminalSession = &self.sessions[place];
        let moved = !patch.metadata_only;
        let title = match &patch.title {
            Some(title) => title.clone(),
            None => known.title.clone(),
        };
        let (terminal_active, exit_message) = match &patch.exit_message {
            Some(message) => (false, message.clone()),
            None => (known.terminal_active, known.exit_message.clone()),
        };
        let session = TerminalSession {
            id: known.id,
            title,
            terminal_active,
            exit_message,
            scroll_offset: if moved {
                to_ui_number(patch.scroll_offset)
            } else {
                known.scroll_offset
            },
            scroll_history_lines: if moved {
                to_ui_number(patch.scroll_history_lines)
            } else {
                known.scroll_history_lines
            },
            cursor_column: if moved {
                to_ui_number(patch.cursor.column)
            } else {
                known.cursor_column
            },
            cursor_row: if moved {
                to_ui_number(patch.cursor.row)
            } else {
                known.cursor_row
            },
        };
        let ghost view = session@;
        assert(view =~= with_metadata(before.sessions[place as int], patch@));
        self.sessions.set(place, session);
        assert(session_views(self.sessions@) =~= before.sessions.update(place as int, view));
        assert(self@ =~= after_frame(before, id, patch@));
        proof {
            let after = self@;
            assert forall|i: int, j: int| 0 <= i < j < after.sessions.len() implies (
            #[trigger] after.sessions[i]).id != (#[trigger] after.sessions[j]).id by {
                assert(before.sessions[i].id != before.sessions[j].id);
            }
            assert forall|i: int| 0 <= i < after.sessions.len() implies (
            #[trigger] after.sessions[i]).id < after.next_id by {
                assert(before.sessions[i].id < before.next_id);
            }
        }
        MetadataOutcome {
            position: is_shown && moved,
            tabs: patch.title.is_some() || patch.exit_message.is_some(),
        }
    }

    /// The tabs from left to right.
    pub fn tab_data(&self) -> (tabs: Vec<TabData>)
        ensures
            tab_views(tabs@) == tab_list(self@),
    {
        let ghost terminals = self@.sessions.map_values(|session: SessionView| tab_of(session));
        let mut tabs: Vec<TabData> = Vec::new();
        let mut index: usize = 0;
        assert(tab_views(tabs@) == terminals.take(0));
        while index < self.sessions.len()
            invariant
                index <= self.sessions@.len(),
                terminals == self@.sessions.map_values(|session: SessionView| tab_of(session)),
                tab_views(tabs@) == terminals.take(index as int),
            decreases self.sessions.len() - index,
        {
            let ghost before = tab_views(tabs@);
            let session: &TerminalSession = &self.sessions[index];
            let tab = TabData {
                id: session.id,
                title: session.title.clone(),
                terminal_active: session.terminal_active,
                is_settings: false,
            };
            let ghost view = tab@;
            assert(view =~= tab_of(session@));
            assert(self@.sessions[index as int] == session@);
            assert(terminals[index as int] == view);
            tabs.push(tab);
            assert(tab_views(tabs@) == before.push(view));
            assert(terminals.take(index + 1) == terminals.take(index as int).push(
                terminals[index as int],
            ));
            index += 1;
        }
        assert(terminals.take(index as int) == terminals);
        if self.settings_open {
            let tab = TabData {
                id: SETTINGS_TAB_ID,
                title: "设置".to_owned(),
                terminal_active: false,
                is_settings: true,
            };
            let ghost view = tab@;
            assert(view =~= settings_tab());
            tabs.push(tab);
            assert(tab_views(tabs@) == terminals.push(view));
        }
        tabs
    }

    /// Which tab is marked, and the title of the window.
    pub fn shown_tab(&self) -> (shown: Option<ShownTab>)
        ensures
            match shown {
                Some(shown) => if self@.settings_active {
                    shown.id == SETTINGS_TAB_ID && shown.index == ui_number(
                        self@.sessions.len() as int,
                    ) && shown.title@ == "设置"@
                } else {
                    self@.shown() matches Some(session) && shown.id == session.id && shown.index
                        == ui_number(self@.active) && shown.title@ == session.title
                },
                None => !self@.settings_active && self@.shown() is None,
            },
    {
        if self.settings_active {
            return Some(
                ShownTab {
                    id: SETTINGS_TAB_ID,
                    index: to_ui_number(self.sessions.len()),
                    title: "设置".to_owned(),
                },
            );
        }
        match self.active_session() {
            Some(session) => Some(
                ShownTab {
                    id: session.id,
                    index: to_ui_number(self.active),
                    title: session.title.clone(),
                },
            ),
            None => None,
        }
    }
}

proof fn lemma_closing_keeps_valid(tabs: TabsView, id: i32)
    requires
        tabs.valid(),
    ensures
        without_session(tabs, id).valid(),
{
    let after = without_session(tabs, id);
    let place = place_of_id(tabs.sessions, id);
    lemma_place_of_id(tabs.sessions, id);
    if place < tabs.sessions.len() {
        assert forall|i: int, j: int| 0 <= i < j < after.sessions.len() implies (
        #[trigger] after.sessions[i]).id != (#[trigger] after.sessions[j]).id by {
            let one = if i < place {
                i
            } else {
                i + 1
            };
            let other = if j < place {
                j
            } else {
                j + 1
            };
            assert(tabs.sessions[one].id != tabs.sessions[other].id);
        }
        assert forall|i: int| 0 <= i < after.sessions.len() implies (
        #[trigger] after.sessions[i]).id < after.next_id by {
            let one = if i < place {
                i
            } else {
                i + 1
            };
            assert(tabs.sessions[one].id < tabs.next_id);
        }
    }
}

/// Closing one terminal leaves another one selected; where the selected one is
/// closed, its neighbour is selected.
pub proof fn closing_keeps_the_selection(tabs: TabsView, id: i32)
    requires
        tabs.valid(),
        place_of_id(tabs.sessions, id) < tabs.sessions.len(),
        tabs.sessions.len() > 1,
    ensures
        ({
            let after = without_session(tabs, id);
            let chosen = tabs.selected()->0;
            &&& after.selected() is Some
            &&& chosen.id != id ==> after.selected() == Some(chosen)
            &&& chosen.id == id && tabs.active + 1 < tabs.sessions.len() ==> after.selected()
                == Some(tabs.sessions[tabs.active + 1])
            &&& chosen.id == id && tabs.active + 1 == tabs.sessions.len() ==> after.selected()
                == Some(tabs.sessions[tabs.active - 1])
        }),
{
    let place = place_of_id(tabs.sessions, id);
    lemma_place_of_id(tabs.sessions, id);
    if tabs.sessions[tabs.active].id == id && place != tabs.active {
        if place < tabs.active {
            assert(tabs.sessions[place].id != tabs.sessions[tabs.active].id);
        } else {
            assert(tabs.sessions[tabs.active].id != tabs.sessions[place].id);
        }
    }
}

/// The id of a new terminal is one that no tab has, and that no tab gets again.
pub proof fn terminal_ids_are_new(tabs: TabsView)
    requires
        tabs.valid(),
        0 <= tabs.next_id < i32::MAX,
    ensures
        ({
            let id = tabs.next_id as i32;
            let after = TabsView { next_id: tabs.next_id + 1, ..tabs };
            &&& place_of_id(tabs.sessions, id) == tabs.sessions.len()
            &&& with_session(after, id).valid()
            &&& with_session(after, id).next_id > id
            &&& with_session(after, id).shown_id() == Some(id)
        }),
{
    let id = tabs.next_id as i32;
    lemma_place_of_id(tabs.sessions, id);
    let place = place_of_id(tabs.sessions, id);
    if place < tabs.sessions.len() {
        assert(tabs.sessions[place].id < tabs.next_id);
    }
    let after = with_session(TabsView { next_id: tabs.next_id + 1, ..tabs }, id);
    assert forall|i: int, j: int| 0 <= i < j < after.sessions.len() implies (
    #[trigger] after.sessions[i]).id != (#[trigger] after.sessions[j]).id by {
        assert(tabs.sessions[i].id < tabs.next_id);
        if j < tabs.sessions.len() {
            assert(tabs.sessions[i].id != tabs.sessions[j].id);
        }
    }
    assert forall|i: int| 0 <= i < after.sessions.len() implies (#[trigger] after.sessions[i]).id
        < after.next_id by {
        if i < tabs.sessions.len() {
            assert(tabs.sessions[i].id < tabs.next_id);
        }
    }
}

/// The columns and rows of the view, as far as a terminal can use them.
pub fn viewport_grid(columns: i32, rows: i32) -> (grid: (usize, usize))
    ensures
        grid.0 == (if columns < 2 {
            2
        } else {
            columns as int
        }),
        grid.1 == (if rows < 1 {
            1
        } else {
            rows as int
        }),
{
    let columns: i32 = if columns < 2 {
        2
    } else {
        columns
    };
    let rows: i32 = if rows < 1 {
        1
    } else {
        rows
    };
    (columns as usize, rows as usize)
}

/// The size of a cell in pixels, which is never empty.
pub fn physical_cell_size(width: i32, height: i32) -> (size: (i32, i32))
    ensures
        size.0 == (if width < 1 {
            1
        } else {
            width as int
        }),
        size.1 == (if height < 1 {
            1
        } else {
            height as int
        }),
{
    let width: i32 = if width < 1 {
        1
    } else {
        width
    };
    let height: i32 = if height < 1 {
        1
    } else {
        height
    };
    (width, height)
}

/// The colours of the user interface that terminals use.
#[derive(Clone, Copy, Debug, PartialEq, Eq, Structural)]
pub struct ThemeTokens {
    pub background: RgbaColor,
    pub foreground: RgbaColor,
    pub selection: RgbaColor,
    pub search_match: RgbaColor,
    pub search_current: RgbaColor,
}

/// A colour without its opacity.
pub open spec fn opaque_color(color: RgbaColor) -> RgbColor {
    RgbColor { red: color.red, green: color.green, blue: color.blue }
}

fn rgb(color: RgbaColor) -> (opaque: RgbColor)
    ensures
        opaque == opaque_color(color),
{
    RgbColor { red: color.red, green: color.green, blue: color.blue }
}

/// The colours of a terminal; selected text keeps the colour of other text.
pub fn terminal_theme(tokens: ThemeTokens) -> (theme: TerminalTheme)
    ensures
        theme == (TerminalTheme {
            foreground: opaque_color(tokens.foreground),
            background: opaque_color(tokens.background),
            selection_foreground: opaque_color(tokens.foreground),
            selection_background: opaque_color(tokens.selection),
            search_match_background: opaque_color(tokens.search_match),
            search_current_background: opaque_color(tokens.search_current),
        }),
{
    TerminalTheme {
        foreground: rgb(tokens.foreground),
        background: rgb(tokens.background),
        selection_foreground: rgb(tokens.foreground),
        selection_background: rgb(tokens.selection),
        search_match_background: rgb(tokens.search_match),
        search_current_background: rgb(tokens.search_current),
    }
}

/// The colours of the decorations, which keep their opacity so that they can lie
/// over other colours.
pub fn decoration_theme(tokens: ThemeTokens) -> (theme: DecorationTheme)
    ensures
        theme == (DecorationTheme {
            selection_background: tokens.selection,
            search_match_background: tokens.search_match,
            search_current_background: tokens.search_current,
        }),
{
    DecorationTheme {
        selection_background: tokens.selection,
        search_match_background: tokens.search_match,
        search_current_background: tokens.search_current,
    }
}

/// The query of a terminal that comes to be shown: that of the search bar where
/// it is open.
pub fn query_for(search_open: bool, query: &str) -> (shown: String)
    ensures
        shown@ == (if search_open {
            query@
        } else {
            Seq::empty()
        }),
{
    if search_open {
        query.to_owned()
    } else {
        String::new()
    }
}

proof fn lemma_other_sessions(sessions: Seq<SessionView>, id: i32)
    ensures
        place_of_id(sessions, id) == sessions.len() <==> forall|i: int|
            0 <= i < sessions.len() ==> (#[trigger] sessions[i]).id != id,
{
    lemma_place_of_id(sessions, id);
}

/// Closing the tab of a terminal takes away that terminal and no other, and the rest
/// keeps its order. It ends the application if nothing else is open, and shows the
/// settings if only they are; an id that no terminal has closes nothing.
pub proof fn closing_takes_away_one_terminal(tabs: TabsView, id: i32, place: int)
    requires
        tabs.valid(),
        0 <= place < tabs.sessions.len(),
        tabs.sessions[place].id == id,
    ensures
        ({
            let after = without_session(tabs, id);
            &&& after.sessions.len() == tabs.sessions.len() - 1
            &&& forall|i: int|
                0 <= i < after.sessions.len() ==> #[trigger] after.sessions[i] == tabs.sessions[if i
                    < place {
                    i
                } else {
                    i + 1
                }]
            &&& after.next_id == tabs.next_id
            &&& after.settings_open == tabs.settings_open
            &&& tabs.sessions.len() == 1 && !tabs.settings_open <==> close_outcome(tabs, id) is Quit
            &&& tabs.sessions.len() == 1 && tabs.settings_open ==> after.settings_active
                && close_outcome(tabs, id) == CloseOutcome::Show(None)
            &&& tabs.sessions.len() > 1 ==> after.settings_active == tabs.settings_active
            &&& tabs.sessions.len() > 1 ==> close_outcome(tabs, id) == CloseOutcome::Show(
                after.shown_id(),
            )
        }),
        forall|other: i32|
            (forall|i: int| 0 <= i < tabs.sessions.len() ==> (#[trigger] tabs.sessions[i]).id
                != other) ==> #[trigger] close_outcome(tabs, other) is Nothing && without_session(
                tabs,
                other,
            ) == tabs,
{
    lemma_place_of_id(tabs.sessions, id);
    let found = place_of_id(tabs.sessions, id);
    if found < place {
        assert(tabs.sessions[found].id != tabs.sessions[place].id);
    }
    assert(found == place);
    assert forall|other: i32|
        (forall|i: int| 0 <= i < tabs.sessions.len() ==> (#[trigger] tabs.sessions[i]).id
            != other) implies #[trigger] close_outcome(tabs, other) is Nothing && without_session(
        tabs,
        other,
    ) == tabs by {
        lemma_other_sessions(tabs.sessions, other);
    }
}

/// A terminal that is selected is shown, and the settings are where they are
/// selected while they are open. Neither adds, removes or moves a tab, and an id
/// that no tab has changes nothing.
pub proof fn selected_tabs_are_shown(tabs: TabsView, id: i32)
    requires
        tabs.valid(),
        forall|i: int| 0 <= i < tabs.sessions.len() ==> (#[trigger] tabs.sessions[i]).id >= 0,
    ensures
        ({
            let after = with_selection(tabs, id);
            let known = exists|i: int|
                0 <= i < tabs.sessions.len() && (#[trigger] tabs.sessions[i]).id == id;
            &&& after.sessions == tabs.sessions
            &&& after.settings_open == tabs.settings_open
            &&& after.next_id == tabs.next_id
            &&& known ==> after.shown_id() == Some(id)
            &&& id == -1 && tabs.settings_open ==> after.settings_active && after.shown_id()
                is None && after.selected() == tabs.selected() && select_outcome(tabs, id)
                is Settings
            &&& !known && !(id == -1 && tabs.settings_open) ==> after == tabs && select_outcome(
                tabs,
                id,
            ) is Nothing
            &&& known ==> (select_outcome(tabs, id) is Nothing <==> tabs.shown_id() == Some(id))
            &&& known && tabs.shown_id() != Some(id) ==> select_outcome(tabs, id)
                == SelectOutcome::Terminal(id)
        }),
{
    lemma_place_of_id(tabs.sessions, id);
    lemma_other_sessions(tabs.sessions, id);
    let place = place_of_id(tabs.sessions, id);
    if place < tabs.sessions.len() && 0 <= tabs.active < tabs.sessions.len() {
        if tabs.sessions[tabs.active].id == id && place < tabs.active {
            assert(tabs.sessions[place].id != tabs.sessions[tabs.active].id);
        }
        if tabs.sessions[tabs.active].id == id && tabs.active < place {
            assert(tabs.sessions[tabs.active].id != id);
        }
    }
}

/// Opening the settings covers a terminal, and closing them shows it again.
pub proof fn settings_give_the_view_back(tabs: TabsView)
    ensures
        ({
            let covered = TabsView { settings_open: true, settings_active: true, ..tabs };
            let back = without_settings(covered);
            &&& covered.shown() is None
            &&& back.shown() == tabs.selected()
            &&& back.sessions == tabs.sessions
            &&& !back.settings_open && !back.settings_active
            &&& back.active == tabs.active
        }),
{
}

/// A new terminal comes behind all others and is shown; it has the title of its
/// number, runs, and stands at the start.
pub proof fn new_terminals_are_shown(tabs: TabsView, id: i32)
    ensures
        ({
            let after = with_session(tabs, id);
            &&& after.sessions.len() == tabs.sessions.len() + 1
            &&& after.sessions.drop_last() == tabs.sessions
            &&& after.shown() == Some(after.sessions.last())
            &&& after.sessions.last().id == id
            &&& after.sessions.last().terminal_active
            &&& after.sessions.last().exit_message.len() == 0
            &&& after.sessions.last().scroll_offset == 0
            &&& after.sessions.last().scroll_history_lines == 0
            &&& after.sessions.last().cursor_column == 0
            &&& after.sessions.last().cursor_row == 0
            &&& id >= 0 ==> after.sessions.last().title == "Terminal "@ + text::decimal(id as nat)
            &&& after.settings_open == tabs.settings_open
        }),
{
    assert(with_session(tabs, id).sessions.drop_last() =~= tabs.sessions);
}

/// What a frame says reaches the tab of its own terminal and no other: the title and
/// the end where it has any, and the position of a view, each number as far as the
/// user interface goes. A terminal whose program has ended stays in its tab.
pub proof fn frames_reach_their_own_tab(tabs: TabsView, id: i32, patch: FrameView, place: int)
    requires
        tabs.valid(),
        0 <= place < tabs.sessions.len(),
        tabs.sessions[place].id == id,
        0 <= patch.scroll_offset,
        0 <= patch.scroll_history_lines,
    ensures
        ({
            let before = tabs.sessions[place];
            let after = after_frame(tabs, id, patch);
            let session = after.sessions[place];
            &&& after.sessions.len() == tabs.sessions.len()
            &&& forall|i: int|
                0 <= i < tabs.sessions.len() && i != place ==> #[trigger] after.sessions[i]
                    == tabs.sessions[i]
            &&& after.active == tabs.active
            &&& after.settings_active == tabs.settings_active
            &&& session.id == id
            &&& patch.title matches Some(title) ==> session.title == title
            &&& patch.title is None ==> session.title == before.title
            &&& patch.exit_message matches Some(shown) ==> !session.terminal_active
                && session.exit_message == shown
            &&& patch.exit_message is None ==> session.terminal_active == before.terminal_active
                && session.exit_message == before.exit_message
            &&& patch.metadata_only ==> session.scroll_offset == before.scroll_offset
                && session.scroll_history_lines == before.scroll_history_lines
                && session.cursor_column == before.cursor_column && session.cursor_row
                == before.cursor_row
            &&& !patch.metadata_only && patch.scroll_offset <= i32::MAX ==> session.scroll_offset
                == patch.scroll_offset
            &&& !patch.metadata_only && patch.scroll_offset > i32::MAX ==> session.scroll_offset
                == i32::MAX
            &&& !patch.metadata_only && patch.scroll_history_lines <= i32::MAX
                ==> session.scroll_history_lines == patch.scroll_history_lines
            &&& !patch.metadata_only && patch.cursor.column <= i32::MAX ==> session.cursor_column
                == patch.cursor.column
            &&& !patch.metadata_only && patch.cursor.row <= i32::MAX ==> session.cursor_row
                == patch.cursor.row
            &&& metadata_outcome(tabs, id, patch).position <==> tabs.shown_id() == Some(id)
                && !patch.metadata_only
            &&& metadata_outcome(tabs, id, patch).tabs <==> patch.title is Some
                || patch.exit_message is Some
        }),
{
    lemma_place_of_id(tabs.sessions, id);
    let found = place_of_id(tabs.sessions, id);
    if found < place {
        assert(tabs.sessions[found].id != tabs.sessions[place].id);
    }
    assert(found == place);
}

/// The tabs show the terminals in their order, each with its title and whether it
/// runs, and behind them the settings where they are open.
pub proof fn tabs_show_the_terminals(tabs: TabsView, place: int)
    requires
        0 <= place < tabs.sessions.len(),
    ensures
        tab_list(tabs)[place].id == tabs.sessions[place].id,
        tab_list(tabs)[place].title == tabs.sessions[place].title,
        tab_list(tabs)[place].terminal_active == tabs.sessions[place].terminal_active,
        !tab_list(tabs)[place].is_settings,
        tabs.settings_open ==> tab_list(tabs).len() == tabs.sessions.len() + 1 && tab_list(
            tabs,
        ).last().is_settings && tab_list(tabs).last().id == -1,
        !tabs.settings_open ==> tab_list(tabs).len() == tabs.sessions.len(),
{
}

} // verus!
