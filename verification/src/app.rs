//! The tabbed application: its tabs, its insert and normal modes, tab
//! renaming, and how each key press and mouse event changes it.
use vstd::prelude::*;
use vstd::string::*;
use vstd::utf8::*;

use crate::clock::{is_clock_time, is_local_date_time, lemma_midnight_is_clock_time, midnight};
use crate::session::{
    background_effect, backspaced, command_step, cursor_end, cursor_home, cursor_left,
    cursor_right, decodes, deleted, dir_changed, fresh_session, green_rgb,
    cursor_index, history_down, history_up, pastable, scrolled_down, scrolled_up, selected_text,
    selection_cleared, selection_started, session_wf, shown_dir_name, shows_lines, typed, typed_all, view_end,
    view_start, visual_down, visual_up, yellow_rgb, ActionView, BackgroundResult, Rgb,
    SessionAction, SessionView, TerminalSession, ViewLine,
};
use crate::offsets::{
    lemma_byte_offset_increasing, lemma_char_index_inverse, lemma_ends_on_boundary,
};
use crate::text::{is_blank, pop_char, push_char, trim_ws, utf8_len};

verus! {

/// A key, as far as the application tells keys apart.
#[derive(Clone, Copy, PartialEq, Eq, Structural, Debug)]
pub enum Key {
    Char(char),
    Enter,
    Esc,
    Backspace,
    Delete,
    Left,
    Right,
    Up,
    Down,
    Home,
    End,
    Tab,
    BackTab,
    Other,
}

/// A key event: the key, whether Control and Shift were held, and whether it
/// is a press (as opposed to a release or a repeat).
#[derive(Clone, Copy, PartialEq, Eq, Structural, Debug)]
pub struct KeyInput {
    pub key: Key,
    pub ctrl: bool,
    pub shift: bool,
    pub press: bool,
}

/// A mouse event, as far as the application tells them apart.
#[derive(Clone, Copy, PartialEq, Eq, Structural, Debug)]
pub enum MouseInput {
    LeftDown { row: u16, column: u16 },
    ScrollUp,
    ScrollDown,
    Other,
}

/// What the surroundings must do after a key press.
pub enum KeyOutcome {
    /// Nothing more.
    Handled,
    /// Leave the application.
    Quit,
    /// Read the clipboard and hand its text to `paste_text`.
    Paste,
    /// Put the text on the clipboard.
    Copy(String),
    /// Carry out what the entered command left to do.
    Command(SessionAction),
}

/// What the surroundings must do after a key press.
pub enum OutcomeView {
    Handled,
    Quit,
    Paste,
    Copy(Seq<char>),
    Command(ActionView),
}

impl View for KeyOutcome {
    type V = OutcomeView;

    open spec fn view(&self) -> OutcomeView {
        match self {
            KeyOutcome::Handled => OutcomeView::Handled,
            KeyOutcome::Quit => OutcomeView::Quit,
            KeyOutcome::Paste => OutcomeView::Paste,
            KeyOutcome::Copy(t) => OutcomeView::Copy(t@),
            KeyOutcome::Command(a) => OutcomeView::Command(a@),
        }
    }
}

/// The state of the application as mathematical values.
pub struct AppView {
    pub terminals: Seq<SessionView>,
    pub current: usize,
    pub username: Seq<char>,
    pub insert_mode: bool,
    pub editing: Option<usize>,
    pub rename_buffer: Seq<char>,
    pub ids: Seq<u64>,
    pub next_id: u64,
}

/// The invariant of the application: at least one tab, the current tab
/// exists, every tab has an identifier, and every tab is well formed.
pub open spec fn app_wf(a: AppView) -> bool {
    &&& 1 <= a.terminals.len() <= usize::MAX
    &&& a.current < a.terminals.len()
    &&& a.ids.len() == a.terminals.len()
    &&& forall|i: int| 0 <= i < a.terminals.len() ==> session_wf(#[trigger] a.terminals[i])
}

/// The current tab.
pub open spec fn current_session(a: AppView) -> SessionView {
    a.terminals[a.current as int]
}

/// `a` with the current tab replaced by `s`.
pub open spec fn with_current(a: AppView, s: SessionView) -> AppView {
    AppView { terminals: a.terminals.update(a.current as int, s), ..a }
}

/// The identifier given to the next tab.
pub open spec fn next_id_after(n: u64) -> u64 {
    if n == u64::MAX {
        0
    } else {
        (n + 1) as u64
    }
}

/// A new tab, numbered one past the count of tabs, appended and selected.
pub open spec fn tab_added(a: AppView) -> AppView {
    AppView {
        terminals: a.terminals.push(fresh_session(a.terminals.len() + 1)),
        current: a.terminals.len() as usize,
        ids: a.ids.push(a.next_id),
        next_id: next_id_after(a.next_id),
        ..a
    }
}

/// The current tab closed, unless it is the last one; the selection stays
/// at the same position or moves to the new last tab.
pub open spec fn tab_closed(a: AppView) -> AppView {
    if a.terminals.len() <= 1 {
        a
    } else {
        let ts = a.terminals.remove(a.current as int);
        AppView {
            terminals: ts,
            ids: a.ids.remove(a.current as int),
            current: if a.current >= ts.len() {
                (ts.len() - 1) as usize
            } else {
                a.current
            },
            ..a
        }
    }
}

/// The next tab selected, wrapping around.
pub open spec fn tab_next(a: AppView) -> AppView {
    if a.terminals.len() == 0 {
        a
    } else {
        AppView { current: ((a.current + 1) % (a.terminals.len() as int)) as usize, ..a }
    }
}

/// The previous tab selected, wrapping around.
pub open spec fn tab_previous(a: AppView) -> AppView {
    if a.terminals.len() == 0 {
        a
    } else if a.current == 0 {
        AppView { current: (a.terminals.len() - 1) as usize, ..a }
    } else {
        AppView { current: (a.current - 1) as usize, ..a }
    }
}

/// The application: its tabs and its modes.
pub struct App {
    pub terminals: Vec<TerminalSession>,
    pub current_tab_index: usize,
    pub username: String,
    pub insert_mode: bool,
    pub editing_tab_index: Option<usize>,
    pub tab_rename_buffer: String,
    session_ids: Vec<u64>,
    next_session_id: u64,
}

/// The views of a sequence of sessions.
pub open spec fn sessions_view(v: Seq<TerminalSession>) -> Seq<SessionView> {
    v.map_values(|t: TerminalSession| t@)
}

impl View for App {
    type V = AppView;

    closed spec fn view(&self) -> AppView {
        AppView {
            terminals: sessions_view(self.terminals@),
            current: self.current_tab_index,
            username: self.username@,
            insert_mode: self.insert_mode,
            editing: self.editing_tab_index,
            rename_buffer: self.tab_rename_buffer@,
            ids: self.session_ids@,
            next_id: self.next_session_id,
        }
    }
}

/// Replacing one session replaces its view.
pub broadcast proof fn lemma_sessions_view_update(s: Seq<TerminalSession>, i: int, t: TerminalSession)
    requires
        0 <= i < s.len(),
    ensures
        #[trigger] sessions_view(s.update(i, t)) == sessions_view(s).update(i, t@),
{
    assert(sessions_view(s.update(i, t)) =~= sessions_view(s).update(i, t@));
}

proof fn lemma_with_current_same(a: AppView)
    requires
        app_wf(a),
    ensures
        with_current(a, current_session(a)) == a,
{
    assert(a.terminals.update(a.current as int, current_session(a)) =~= a.terminals);
}

proof fn lemma_with_current_wf(a: AppView, s: SessionView)
    requires
        app_wf(a),
        session_wf(s),
    ensures
        app_wf(with_current(a, s)),
{
    let b = with_current(a, s);
    assert forall|i: int| 0 <= i < b.terminals.len() implies session_wf(#[trigger] b.terminals[i]) by {
        if i != a.current {
            assert(b.terminals[i] == a.terminals[i]);
        }
    }
}

impl App {
    /// The invariant of the application.
    pub open spec fn wf(&self) -> bool {
        app_wf(self@)
    }

    /// An application for `username` with one tab, in insert mode.
    pub fn new(username: String) -> (app: App)
        ensures
            app.wf(),
            app@ == (AppView {
                terminals: seq![fresh_session(1)],
                current: 0,
                username: username@,
                insert_mode: true,
                editing: None,
                rename_buffer: Seq::empty(),
                ids: seq![0u64],
                next_id: 1,
            }),
    {
        let mut app = App {
            terminals: Vec::new(),
            current_tab_index: 0,
            username,
            insert_mode: true,
            editing_tab_index: None,
            tab_rename_buffer: String::new(),
            session_ids: Vec::new(),
            next_session_id: 0,
        };
        assert(app@.terminals =~= Seq::<SessionView>::empty());
        app.push_tab();
        assert(app@.terminals =~= seq![fresh_session(1)]);
        assert(app@.ids =~= seq![0u64]);
        app
    }

    /// Appends and selects a fresh tab.
    fn push_tab(&mut self)
        requires
            old(self).terminals@.len() < usize::MAX,
            old(self).session_ids@.len() == old(self).terminals@.len(),
            forall|i: int|
                0 <= i < old(self)@.terminals.len() ==> session_wf(#[trigger] old(self)@.terminals[i]),
        ensures
            final(self)@ == tab_added(old(self)@),
            app_wf(final(self)@),
    {
        let session = TerminalSession::new(self.terminals.len() + 1);
        self.terminals.push(session);
        self.session_ids.push(self.next_session_id);
        self.next_session_id = if self.next_session_id == u64::MAX {
            0
        } else {
            self.next_session_id + 1
        };
        self.current_tab_index = self.terminals.len() - 1;
        proof {
            let t = tab_added(old(self)@);
            assert(self@.terminals =~= t.terminals);
            assert forall|i: int| 0 <= i < self@.terminals.len() implies session_wf(
                #[trigger] self@.terminals[i],
            ) by {
                if i < old(self)@.terminals.len() {
                    assert(self@.terminals[i] == old(self)@.terminals[i]);
                }
            }
        }
    }

    /// Opens a new tab and selects it. The directory argument is unused.
    pub fn add_new_tab(&mut self, _dir: Option<String>)
        requires
            old(self).wf(),
            old(self)@.terminals.len() < usize::MAX,
        ensures
            final(self).wf(),
            final(self)@ == tab_added(old(self)@),
    {
        self.push_tab();
    }

    /// Closes the current tab unless it is the only one.
    pub fn close_current_tab(&mut self)
        requires
            old(self).wf(),
        ensures
            final(self).wf(),
            final(self)@ == tab_closed(old(self)@),
    {
        if self.terminals.len() <= 1 {
            return;
        }
        self.terminals.remove(self.current_tab_index);
        self.session_ids.remove(self.current_tab_index);
        if self.current_tab_index >= self.terminals.len() && self.terminals.len() > 0 {
            self.current_tab_index = self.terminals.len() - 1;
        }
        proof {
            let t = tab_closed(old(self)@);
            assert(self@.terminals =~= t.terminals);
            assert forall|i: int| 0 <= i < self@.terminals.len() implies session_wf(
                #[trigger] self@.terminals[i],
            ) by {
                if i < old(self)@.current {
                    assert(self@.terminals[i] == old(self)@.terminals[i]);
                } else {
                    assert(self@.terminals[i] == old(self)@.terminals[i + 1]);
                }
            }
        }
    }

    /// Selects the next tab, wrapping around.
    pub fn next_tab(&mut self)
        requires
            old(self).wf(),
        ensures
            final(self).wf(),
            final(self)@ == tab_next(old(self)@),
    {
        if self.terminals.len() == 0 {
            return;
        }
        self.current_tab_index = (self.current_tab_index + 1) % self.terminals.len();
    }

    /// Selects the previous tab, wrapping around.
    pub fn previous_tab(&mut self)
        requires
            old(self).wf(),
        ensures
            final(self).wf(),
            final(self)@ == tab_previous(old(self)@),
    {
        if self.terminals.len() == 0 {
            return;
        }
        if self.current_tab_index == 0 {
            self.current_tab_index = self.terminals.len() - 1;
        } else {
            self.current_tab_index -= 1;
        }
    }

    /// The current tab, to change in place.
    pub fn get_current_terminal(&mut self) -> (term: Option<&mut TerminalSession>)
        requires
            old(self).wf(),
        ensures
            term is Some,
            (*term->0)@ == current_session(old(self)@),
            final(self)@ == with_current(old(self)@, (*final(term->0))@),
    {
        broadcast use lemma_sessions_view_update;

        let i = self.current_tab_index;
        let r = &mut self.terminals[i];
        Some(r)
    }
}


/// `k` is Control held with the character key `c`.
pub open spec fn ctrl_char(k: KeyInput, c: char) -> bool {
    k.ctrl && k.key == Key::Char(c)
}

/// A key while a tab title is being edited: Enter renames the tab unless the
/// text is blank, Escape abandons, characters and Backspace edit the text.
pub open spec fn rename_step(a: AppView, k: KeyInput) -> AppView {
    let idx = a.editing->0;
    match k.key {
        Key::Enter => {
            let renamed = if trim_ws(a.rename_buffer).len() > 0 && idx < a.terminals.len() {
                AppView {
                    terminals: a.terminals.update(
                        idx as int,
                        SessionView { title: a.rename_buffer, ..a.terminals[idx as int] },
                    ),
                    ..a
                }
            } else {
                a
            };
            AppView { editing: None, rename_buffer: Seq::empty(), ..renamed }
        },
        Key::Esc => AppView { editing: None, rename_buffer: Seq::empty(), ..a },
        Key::Char(c) => AppView { rename_buffer: a.rename_buffer.push(c), ..a },
        Key::Backspace => AppView {
            rename_buffer: if a.rename_buffer.len() > 0 {
                a.rename_buffer.drop_last()
            } else {
                a.rename_buffer
            },
            ..a
        },
        _ => a,
    }
}

/// A key in insert mode, where keys edit and enter the input line.
pub open spec fn insert_step(a: AppView, k: KeyInput, time: Seq<char>, date: Seq<char>) -> (
    AppView,
    OutcomeView,
) {
    let s = current_session(a);
    if ctrl_char(k, 'v') {
        (a, OutcomeView::Paste)
    } else {
        match k.key {
            Key::Esc => (AppView { insert_mode: false, ..a }, OutcomeView::Handled),
            Key::Char(c) => (
                if k.ctrl {
                    a
                } else {
                    with_current(a, typed(s, c))
                },
                OutcomeView::Handled,
            ),
            Key::Backspace => (with_current(a, backspaced(s)), OutcomeView::Handled),
            Key::Delete => (with_current(a, deleted(s)), OutcomeView::Handled),
            Key::Enter => (
                with_current(a, command_step(s, time, date).0),
                OutcomeView::Command(command_step(s, time, date).1),
            ),
            Key::Left => (with_current(a, cursor_left(s)), OutcomeView::Handled),
            Key::Right => (with_current(a, cursor_right(s)), OutcomeView::Handled),
            Key::Up => (with_current(a, history_up(s)), OutcomeView::Handled),
            Key::Down => (with_current(a, history_down(s)), OutcomeView::Handled),
            Key::Home => (with_current(a, cursor_home(s)), OutcomeView::Handled),
            Key::End => (with_current(a, cursor_end(s)), OutcomeView::Handled),
            _ => (a, OutcomeView::Handled),
        }
    }
}

/// A key in normal mode: the arrows and `k`/`j` scroll the output (moving the
/// visual cursor with it), and the other keys select and copy.
pub open spec fn normal_step(a: AppView, k: KeyInput) -> (AppView, OutcomeView) {
    let s = current_session(a);
    if k.key == Key::Char('y') || ctrl_char(k, 'c') {
        match selected_text(s) {
            Some(t) => (with_current(a, selection_cleared(s)), OutcomeView::Copy(t)),
            None => (a, OutcomeView::Handled),
        }
    } else {
        (
            match k.key {
                Key::Char('i') => AppView { insert_mode: true, ..a },
                Key::Esc => with_current(a, selection_cleared(s)),
                Key::Char('v') => with_current(a, selection_started(s)),
                Key::Up => with_current(a, scrolled_up(visual_up(s))),
                Key::Char('k') => with_current(a, scrolled_up(visual_up(s))),
                Key::Down => with_current(a, scrolled_down(visual_down(s))),
                Key::Char('j') => with_current(a, scrolled_down(visual_down(s))),
                _ => a,
            },
            OutcomeView::Handled,
        )
    }
}

/// The effect of a key event, given the clock time (and the date) that an
/// entered command would read.
pub open spec fn key_step(a: AppView, k: KeyInput, time: Seq<char>, date: Seq<char>) -> (
    AppView,
    OutcomeView,
) {
    if !k.press {
        (a, OutcomeView::Handled)
    } else if a.editing is Some {
        (rename_step(a, k), OutcomeView::Handled)
    } else if ctrl_char(k, 'q') {
        (a, OutcomeView::Quit)
    } else if ctrl_char(k, 't') {
        (tab_added(a), OutcomeView::Handled)
    } else if ctrl_char(k, 'w') {
        (tab_closed(a), OutcomeView::Handled)
    } else if ctrl_char(k, 'l') {
        (with_current(a, crate::session::cleared(current_session(a))), OutcomeView::Handled)
    } else if k.key == Key::Tab && k.ctrl {
        (
            if k.shift {
                tab_previous(a)
            } else {
                tab_next(a)
            },
            OutcomeView::Handled,
        )
    } else if k.key == Key::BackTab && k.ctrl {
        (tab_previous(a), OutcomeView::Handled)
    } else if a.insert_mode {
        insert_step(a, k, time, date)
    } else {
        normal_step(a, k)
    }
}

/// The key events that can be handled without a panic: opening a tab needs
/// room for one more, and typing a character needs room for it in the input
/// line.
pub open spec fn key_safe(a: AppView, k: KeyInput) -> bool {
    let s = current_session(a);
    if !k.press || a.editing is Some {
        true
    } else if ctrl_char(k, 'q') {
        true
    } else if ctrl_char(k, 't') {
        a.terminals.len() < usize::MAX
    } else if ctrl_char(k, 'w') || ctrl_char(k, 'l') || (k.key == Key::Tab && k.ctrl) || (k.key
        == Key::BackTab && k.ctrl) {
        true
    } else if a.insert_mode && !ctrl_char(k, 'v') {
        match k.key {
            Key::Char(c) => k.ctrl || utf8_len(s.input) + 4 <= isize::MAX,
            _ => true,
        }
    } else {
        true
    }
}

impl App {
    /// The current tab, to change in place.
    fn current_mut(&mut self) -> (term: &mut TerminalSession)
        requires
            old(self).wf(),
        ensures
            (*term)@ == current_session(old(self)@),
            final(self)@ == with_current(old(self)@, (*final(term))@),
    {
        broadcast use lemma_sessions_view_update;

        let i = self.current_tab_index;
        &mut self.terminals[i]
    }

    /// A key while a tab title is being edited.
    fn rename_key(&mut self, key: KeyInput)
        requires
            old(self).wf(),
            old(self)@.editing is Some,
        ensures
            final(self).wf(),
            final(self)@ == rename_step(old(self)@, key),
    {
        broadcast use lemma_sessions_view_update;

        let idx = match self.editing_tab_index {
            Some(i) => i,
            None => 0,
        };
        match key.key {
            Key::Enter => {
                if !is_blank(self.tab_rename_buffer.as_str()) {
                    if idx < self.terminals.len() {
                        let title = self.tab_rename_buffer.clone();
                        self.terminals[idx].set_title(title);
                        proof {
                            let a = old(self)@;
                            assert(self@.terminals == a.terminals.update(
                                idx as int,
                                SessionView { title: a.rename_buffer, ..a.terminals[idx as int] },
                            ));
                            assert forall|i: int| 0 <= i < self@.terminals.len() implies session_wf(
                                #[trigger] self@.terminals[i],
                            ) by {
                                if i != idx {
                                    assert(self@.terminals[i] == a.terminals[i]);
                                }
                            }
                        }
                    }
                }
                self.editing_tab_index = None;
                self.tab_rename_buffer = String::new();
                assert(self@.rename_buffer =~= Seq::<char>::empty());
            },
            Key::Esc => {
                self.editing_tab_index = None;
                self.tab_rename_buffer = String::new();
                assert(self@.rename_buffer =~= Seq::<char>::empty());
            },
            Key::Char(c) => {
                push_char(&mut self.tab_rename_buffer, c);
            },
            Key::Backspace => {
                let _ = pop_char(&mut self.tab_rename_buffer);
            },
            _ => {},
        }
    }

    /// Handles one key event and says what is left to do outside. Entering a
    /// command reads the clock; its reading has the shape `HH:MM:SS`.
    pub fn handle_key(&mut self, key: KeyInput) -> (outcome: KeyOutcome)
        requires
            old(self).wf(),
            key_safe(old(self)@, key),
        ensures
            final(self).wf(),
            exists|time: Seq<char>, date: Seq<char>|
                {
                    &&& is_clock_time(time)
                    &&& (outcome@ matches OutcomeView::Command(ActionView::Export(_))
                        ==> is_local_date_time(date))
                    &&& #[trigger] key_step(old(self)@, key, time, date) == (final(self)@, outcome@)
                },
    {
        proof {
            lemma_midnight_is_clock_time();
        }
        let ghost a = self@;
        if !key.press {
            assert(key_step(a, key, midnight(), Seq::empty()) == (self@, KeyOutcome::Handled@));
            return KeyOutcome::Handled;
        }
        if self.editing_tab_index.is_some() {
            self.rename_key(key);
            assert(key_step(a, key, midnight(), Seq::empty()) == (self@, KeyOutcome::Handled@));
            return KeyOutcome::Handled;
        }
        if key.ctrl && key.key == Key::Char('q') {
            assert(key_step(a, key, midnight(), Seq::empty()) == (self@, KeyOutcome::Quit@));
            return KeyOutcome::Quit;
        }
        if key.ctrl && key.key == Key::Char('t') {
            self.add_new_tab(None);
            assert(key_step(a, key, midnight(), Seq::empty()) == (self@, KeyOutcome::Handled@));
            return KeyOutcome::Handled;
        }
        if key.ctrl && key.key == Key::Char('w') {
            self.close_current_tab();
            assert(key_step(a, key, midnight(), Seq::empty()) == (self@, KeyOutcome::Handled@));
            return KeyOutcome::Handled;
        }
        if key.ctrl && key.key == Key::Char('l') {
            let term = self.current_mut();
            term.clear_output();
            proof {
                lemma_with_current_wf(a, self@.terminals[a.current as int]);
            }
            assert(key_step(a, key, midnight(), Seq::empty()) == (self@, KeyOutcome::Handled@));
            return KeyOutcome::Handled;
        }
        if key.key == Key::Tab && key.ctrl {
            if key.shift {
                self.previous_tab();
            } else {
                self.next_tab();
            }
            assert(key_step(a, key, midnight(), Seq::empty()) == (self@, KeyOutcome::Handled@));
            return KeyOutcome::Handled;
        }
        if key.key == Key::BackTab && key.ctrl {
            self.previous_tab();
            assert(key_step(a, key, midnight(), Seq::empty()) == (self@, KeyOutcome::Handled@));
            return KeyOutcome::Handled;
        }
        if self.insert_mode {
            self.insert_key(key)
        } else {
            let outcome = self.normal_key(key);
            assert(key_step(a, key, midnight(), Seq::empty()) == (self@, outcome@));
            outcome
        }
    }

    /// A key in insert mode.
    fn insert_key(&mut self, key: KeyInput) -> (outcome: KeyOutcome)
        requires
            old(self).wf(),
            old(self)@.insert_mode,
            old(self)@.editing is None,
            key.press,
            !ctrl_char(key, 'q') && !ctrl_char(key, 't') && !ctrl_char(key, 'w') && !ctrl_char(key, 'l'),
            !(key.key == Key::Tab && key.ctrl) && !(key.key == Key::BackTab && key.ctrl),
            key_safe(old(self)@, key),
        ensures
            final(self).wf(),
            exists|time: Seq<char>, date: Seq<char>|
                {
                    &&& is_clock_time(time)
                    &&& (outcome@ matches OutcomeView::Command(ActionView::Export(_))
                        ==> is_local_date_time(date))
                    &&& #[trigger] key_step(old(self)@, key, time, date) == (final(self)@, outcome@)
                },
    {
        proof {
            lemma_midnight_is_clock_time();
        }
        let ghost a = self@;
        if key.ctrl && key.key == Key::Char('v') {
            assert(key_step(a, key, midnight(), Seq::empty()) == (self@, KeyOutcome::Paste@));
            return KeyOutcome::Paste;
        }
        if key.key == Key::Esc {
            self.insert_mode = false;
            assert(key_step(a, key, midnight(), Seq::empty()) == (self@, KeyOutcome::Handled@));
            return KeyOutcome::Handled;
        }
        if key.key == Key::Enter {
            let term = self.current_mut();
            let action = term.execute_command();
            proof {
                let s = a.terminals[a.current as int];
                let (t, d) = choose|t: Seq<char>, d: Seq<char>|
                    {
                        &&& is_clock_time(t)
                        &&& (action@ is Export ==> is_local_date_time(d))
                        &&& #[trigger] command_step(s, t, d) == (
                            self@.terminals[a.current as int],
                            action@,
                        )
                    };
                lemma_with_current_wf(a, self@.terminals[a.current as int]);
                assert(key_step(a, key, t, d) == (self@, KeyOutcome::Command(action)@));
            }
            return KeyOutcome::Command(action);
        }
        let term = self.current_mut();
        match key.key {
            Key::Char(c) => {
                if !key.ctrl {
                    term.handle_char(c);
                }
            },
            Key::Backspace => term.handle_backspace(),
            Key::Delete => term.handle_delete(),
            Key::Left => term.handle_left(),
            Key::Right => term.handle_right(),
            Key::Up => term.handle_up(),
            Key::Down => term.handle_down(),
            Key::Home => term.move_home(),
            Key::End => term.move_end(),
            _ => {},
        }
        proof {
            lemma_with_current_wf(a, self@.terminals[a.current as int]);
            lemma_with_current_same(a);
        }
        assert(key_step(a, key, midnight(), Seq::empty()) == (self@, KeyOutcome::Handled@));
        KeyOutcome::Handled
    }

    /// A key in normal mode.
    fn normal_key(&mut self, key: KeyInput) -> (outcome: KeyOutcome)
        requires
            old(self).wf(),
            !old(self)@.insert_mode,
        ensures
            final(self).wf(),
            (final(self)@, outcome@) == normal_step(old(self)@, key),
    {
        let ghost a = self@;
        if key.key == Key::Char('y') || (key.key == Key::Char('c') && key.ctrl) {
            let term = self.current_mut();
            let text = term.get_selected_text();
            match text {
                Some(t) => {
                    term.clear_selection();
                    proof {
                        lemma_with_current_wf(a, self@.terminals[a.current as int]);
                    }
                    return KeyOutcome::Copy(t);
                },
                None => {
                    proof {
                        lemma_with_current_same(a);
                    }
                    return KeyOutcome::Handled;
                },
            }
        }
        if key.key == Key::Char('i') {
            self.insert_mode = true;
            return KeyOutcome::Handled;
        }
        let term = self.current_mut();
        match key.key {
            Key::Esc => term.clear_selection(),
            Key::Char('v') => term.start_selection(),
            Key::Up | Key::Char('k') => {
                term.move_visual_up();
                term.scroll_up();
            },
            Key::Down | Key::Char('j') => {
                term.move_visual_down();
                term.scroll_down();
            },
            _ => {},
        }
        proof {
            lemma_with_current_wf(a, self@.terminals[a.current as int]);
            lemma_with_current_same(a);
        }
        KeyOutcome::Handled
    }
}


/// The titles of the tabs.
pub open spec fn tab_titles_of(a: AppView) -> Seq<Seq<char>> {
    a.terminals.map_values(|s: SessionView| s.title)
}

/// The width a tab title takes in the tab bar: its byte length cut to 16
/// bits, plus two columns of padding.
pub open spec fn tab_width(title: Seq<char>) -> int {
    (utf8_len(title) % 65536) as int + 2
}

/// The tab whose title covers column `col`, looking from tab `i`, whose
/// title starts at column `x`; one separator column follows each title.
pub open spec fn tab_hit(titles: Seq<Seq<char>>, i: int, x: int, col: int) -> Option<usize>
    decreases titles.len() - i,
{
    if 0 <= i < titles.len() {
        if x <= col < x + tab_width(titles[i]) {
            Some(i as usize)
        } else {
            tab_hit(titles, i + 1, x + tab_width(titles[i]) + 1, col)
        }
    } else {
        None
    }
}

proof fn lemma_tab_hit_past(titles: Seq<Seq<char>>, i: int, x: int, col: int)
    requires
        x > col,
    ensures
        tab_hit(titles, i, x, col) is None,
    decreases titles.len() - i,
{
    if 0 <= i < titles.len() {
        lemma_tab_hit_past(titles, i + 1, x + tab_width(titles[i]) + 1, col);
    }
}

/// The effect of a mouse event: a left click on the tab bar (rows 1 to 3)
/// selects the tab under it and starts renaming it; the wheel scrolls the
/// current tab.
pub open spec fn mouse_step(a: AppView, m: MouseInput) -> AppView {
    match m {
        MouseInput::LeftDown { row, column } => if 1 <= row <= 3 {
            match tab_hit(tab_titles_of(a), 0, 1, column as int) {
                Some(i) => AppView {
                    current: i,
                    editing: Some(i),
                    rename_buffer: a.terminals[i as int].title,
                    ..a
                },
                None => a,
            }
        } else {
            a
        },
        MouseInput::ScrollDown => with_current(a, scrolled_down(current_session(a))),
        MouseInput::ScrollUp => with_current(a, scrolled_up(current_session(a))),
        MouseInput::Other => a,
    }
}

/// The label of tab `i` in the tab bar: the title padded by a space on each
/// side, or the rename text and an underscore while it is being renamed.
pub open spec fn tab_label(a: AppView, i: int) -> Seq<char> {
    if a.editing == Some(i as usize) {
        " "@ + a.rename_buffer + "_ "@
    } else {
        " "@ + a.terminals[i].title + " "@
    }
}

/// The mode line text.
pub open spec fn mode_text(insert_mode: bool) -> Seq<char> {
    if insert_mode {
        " -- INSERT -- "@
    } else {
        " -- NORMAL -- "@
    }
}

/// The mode line colour.
pub open spec fn mode_color(insert_mode: bool) -> Rgb {
    if insert_mode {
        green_rgb()
    } else {
        yellow_rgb()
    }
}

/// The prompt shown under the output in insert mode.
pub struct PromptView {
    /// The user name followed by `@`.
    pub user_label: String,
    /// The directory name followed by a space.
    pub dir_label: String,
    /// The input before the cursor.
    pub before_cursor: String,
    /// The input from the cursor on, when the cursor is not at the end.
    pub after_cursor: Option<String>,
}

/// What the terminal area shows.
pub struct TerminalView {
    pub lines: Vec<ViewLine>,
    pub prompt: Option<PromptView>,
}

/// The number of output rows in a terminal area of `height` rows.
pub open spec fn output_rows(height: u16) -> usize {
    if height >= 2 {
        (height - 2) as usize
    } else {
        0
    }
}

impl App {
    /// Handles one mouse event.
    pub fn handle_mouse(&mut self, m: MouseInput)
        requires
            old(self).wf(),
        ensures
            final(self).wf(),
            final(self)@ == mouse_step(old(self)@, m),
    {
        let ghost a = self@;
        match m {
            MouseInput::LeftDown { row, column } => {
                if row >= 1 && row <= 3 {
                    let hit = self.tab_at(column);
                    if let Some(i) = hit {
                        let title = self.terminals[i].title_text();
                        self.current_tab_index = i;
                        self.editing_tab_index = Some(i);
                        self.tab_rename_buffer = title;
                    }
                }
            },
            MouseInput::ScrollDown => {
                let term = self.current_mut();
                term.scroll_down();
                proof {
                    lemma_with_current_wf(a, self@.terminals[a.current as int]);
                }
            },
            MouseInput::ScrollUp => {
                let term = self.current_mut();
                term.scroll_up();
                proof {
                    lemma_with_current_wf(a, self@.terminals[a.current as int]);
                }
            },
            MouseInput::Other => {},
        }
    }

    /// The tab whose title lies under `column` in the tab bar.
    fn tab_at(&self, column: u16) -> (hit: Option<usize>)
        requires
            self.wf(),
        ensures
            hit == tab_hit(tab_titles_of(self@), 0, 1, column as int),
            hit matches Some(i) ==> i < self@.terminals.len(),
    {
        let ghost titles = tab_titles_of(self@);
        let col = column as u64;
        let mut x: u64 = 1;
        let mut i: usize = 0;
        while i < self.terminals.len()
            invariant
                i <= self.terminals@.len() == titles.len(),
                titles == tab_titles_of(self@),
                col == column as u64,
                x <= 131073,
                tab_hit(titles, 0, 1, col as int) == tab_hit(titles, i as int, x as int, col as int),
            decreases self.terminals.len() - i,
        {
            if x > col {
                proof {
                    lemma_tab_hit_past(titles, i as int, x as int, col as int);
                }
                return None;
            }
            let n = self.terminals[i].title_byte_len();
            let w = (n % 65536) as u64 + 2;
            proof {
                assert(titles[i as int] == self@.terminals[i as int].title);
            }
            if x <= col && col < x + w {
                return Some(i);
            }
            x = x + w + 1;
            i += 1;
        }
        None
    }

    /// The labels of the tab bar.
    pub fn tab_titles(&self) -> (labels: Vec<String>)
        requires
            self.wf(),
        ensures
            labels@.len() == self@.terminals.len(),
            forall|i: int| 0 <= i < labels@.len() ==> (#[trigger] labels@[i])@ == tab_label(self@, i),
    {
        let mut labels: Vec<String> = Vec::new();
        let mut i: usize = 0;
        while i < self.terminals.len()
            invariant
                i <= self.terminals@.len(),
                labels@.len() == i,
                forall|k: int| 0 <= k < i ==> (#[trigger] labels@[k])@ == tab_label(self@, k),
            decreases self.terminals.len() - i,
        {
            let mut label = String::from_str(" ");
            if self.editing_tab_index == Some(i) {
                label.append(self.tab_rename_buffer.as_str());
                label.append("_ ");
            } else {
                let title = self.terminals[i].title_text();
                label.append(title.as_str());
                label.append(" ");
            }
            labels.push(label);
            i += 1;
        }
        labels
    }

    /// The mode line: its text and colour.
    pub fn mode_indicator(&self) -> (m: (String, Rgb))
        ensures
            m.0@ == mode_text(self@.insert_mode),
            m.1 == mode_color(self@.insert_mode),
    {
        if self.insert_mode {
            (String::from_str(" -- INSERT -- "), Rgb::green())
        } else {
            (String::from_str(" -- NORMAL -- "), Rgb::yellow())
        }
    }

    /// What the terminal area of `height` rows shows for the current tab: the
    /// output lines in view, and in insert mode the prompt with the input line
    /// cut at the cursor. The directory name follows the platform's path rules.
    pub fn terminal_view(&self, height: u16) -> (v: TerminalView)
        requires
            self.wf(),
        ensures
            ({
                let s = current_session(self@);
                &&& shows_lines(
                    s,
                    v.lines@,
                    view_start(s, output_rows(height)),
                    view_end(s),
                    self@.insert_mode,
                )
                &&& (v.prompt is Some <==> self@.insert_mode)
                &&& (v.prompt matches Some(p) ==> {
                    &&& p.user_label@ == self@.username + "@"@
                    &&& p.dir_label@.len() > 0 && p.dir_label@.last() == ' '
                    &&& shown_dir_name(p.dir_label@.drop_last(), s.current_dir)
                    &&& p.before_cursor@ == s.input.take(cursor_index(s))
                    &&& (p.after_cursor is Some <==> cursor_index(s) < s.input.len())
                    &&& (p.after_cursor matches Some(t) ==> t@ == s.input.skip(cursor_index(s)))
                })
            }),
    {
        let term = &self.terminals[self.current_tab_index];
        let rows: usize = if height >= 2 {
            (height - 2) as usize
        } else {
            0
        };
        let lines = term.view_lines(rows, self.insert_mode);
        if !self.insert_mode {
            return TerminalView { lines, prompt: None };
        }
        let mut user_label = self.username.clone();
        user_label.append("@");
        let mut dir_label = term.get_current_dir_name();
        let ghost name = dir_label@;
        dir_label.append(" ");
        proof {
            reveal_strlit(" ");
            assert(dir_label@.drop_last() =~= name);
        }
        let (before, after) = term.input_split();
        proof {
            let s = current_session(self@);
            lemma_char_index_inverse(s.input, s.cursor as int);
            lemma_ends_on_boundary(s.input);
            if cursor_index(s) < s.input.len() {
                lemma_byte_offset_increasing(s.input, cursor_index(s), s.input.len() as int);
            }
        }
        let after_cursor = if term.cursor_position() < term.input_byte_len() {
            Some(after)
        } else {
            None
        };
        TerminalView {
            lines,
            prompt: Some(PromptView { user_label, dir_label, before_cursor: before, after_cursor }),
        }
    }
}


/// The position of the first tab with identifier `id`, or -1.
pub open spec fn first_index_of(ids: Seq<u64>, id: u64) -> int
    decreases ids.len(),
{
    if ids.len() == 0 {
        -1
    } else {
        let f = first_index_of(ids.drop_last(), id);
        if f >= 0 {
            f
        } else if ids.last() == id {
            ids.len() - 1
        } else {
            -1
        }
    }
}

proof fn lemma_first_index_bounds(ids: Seq<u64>, id: u64)
    ensures
        -1 <= first_index_of(ids, id) < ids.len(),
        first_index_of(ids, id) >= 0 ==> ids[first_index_of(ids, id)] == id,
    decreases ids.len(),
{
    if ids.len() > 0 {
        lemma_first_index_bounds(ids.drop_last(), id);
    }
}

impl App {
    /// Types `text` into the current tab's input line, as a paste does.
    pub fn paste_text(&mut self, text: &str)
        requires
            old(self).wf(),
            pastable(current_session(old(self)@), text@),
        ensures
            final(self).wf(),
            final(self)@ == with_current(old(self)@, typed_all(current_session(old(self)@), text@)),
    {
        let ghost a = self@;
        let term = self.current_mut();
        term.type_text(text);
        proof {
            lemma_with_current_wf(a, self@.terminals[a.current as int]);
        }
    }

    /// Whether pasting `text` would panic (see `pastable`).
    pub fn paste_would_panic(&self, text: &str) -> (b: bool)
        requires
            self.wf(),
        ensures
            b == !pastable(current_session(self@), text@),
    {
        let term = &self.terminals[self.current_tab_index];
        let chars = crate::text::chars_of(text);
        let n = chars.len();
        if n == 0 {
            return false;
        }
        let len = term.input_byte_len() as u128;
        let limit = isize::MAX as u128;
        !(len + 4 * (n as u128) + 4 <= limit)
    }

    /// Whether handling `key` would panic (see `key_safe`).
    pub fn key_would_panic(&self, key: KeyInput) -> (b: bool)
        requires
            self.wf(),
        ensures
            b == !key_safe(self@, key),
    {
        if !key.press || self.editing_tab_index.is_some() {
            return false;
        }
        if key.ctrl && key.key == Key::Char('q') {
            return false;
        }
        if key.ctrl && key.key == Key::Char('t') {
            return !(self.terminals.len() < usize::MAX);
        }
        if (key.ctrl && key.key == Key::Char('w')) || (key.ctrl && key.key == Key::Char('l')) || (
        key.key == Key::Tab && key.ctrl) || (key.key == Key::BackTab && key.ctrl) {
            return false;
        }
        if self.insert_mode && !(key.ctrl && key.key == Key::Char('v')) {
            let term = &self.terminals[self.current_tab_index];
            match key.key {
                Key::Char(_) => {
                    if key.ctrl {
                        false
                    } else {
                        !(term.input_byte_len() <= (isize::MAX as usize) - 4)
                    }
                },
                _ => false,
            }
        } else {
            false
        }
    }

    /// Reports the outcome of a change of directory to the current tab.
    pub fn finish_change_dir(&mut self, outcome: Result<Option<String>, String>)
        requires
            old(self).wf(),
        ensures
            final(self).wf(),
            final(self)@ == with_current(old(self)@, dir_changed(current_session(old(self)@), outcome)),
    {
        let ghost a = self@;
        let term = self.current_mut();
        term.finish_change_dir(outcome);
        proof {
            lemma_with_current_wf(a, self@.terminals[a.current as int]);
        }
    }

    /// The identifier of the current tab, which background work reports to.
    pub fn current_session_id(&self) -> (id: u64)
        requires
            self.wf(),
        ensures
            id == self@.ids[self@.current as int],
    {
        self.session_ids[self.current_tab_index]
    }

    /// Applies a background result to the first tab with identifier `id`, if
    /// any is left.
    pub fn apply_background(&mut self, id: u64, result: BackgroundResult)
        requires
            old(self).wf(),
        ensures
            final(self).wf(),
            first_index_of(old(self)@.ids, id) < 0 ==> final(self)@ == old(self)@,
            first_index_of(old(self)@.ids, id) >= 0 ==> final(self)@ == (AppView {
                terminals: old(self)@.terminals.update(
                    first_index_of(old(self)@.ids, id),
                    background_effect(
                        old(self)@.terminals[first_index_of(old(self)@.ids, id)],
                        result,
                    ),
                ),
                ..old(self)@
            }),
            first_index_of(old(self)@.ids, id) >= 0 ==> decodes(result),
    {
        broadcast use lemma_sessions_view_update;

        let ghost a = self@;
        let ghost r = result;
        proof {
            lemma_first_index_bounds(a.ids, id);
        }
        let mut i: usize = 0;
        while i < self.session_ids.len()
            invariant
                self@ == a,
                app_wf(a),
                i <= a.ids.len(),
                forall|k: int| 0 <= k < i ==> a.ids[k] != id,
            ensures
                self@ == a,
                i <= a.ids.len(),
                forall|k: int| 0 <= k < i ==> a.ids[k] != id,
                i < a.ids.len() ==> a.ids[i as int] == id,
            decreases self.session_ids.len() - i,
        {
            if self.session_ids[i] == id {
                break;
            }
            i += 1;
        }
        if i == self.session_ids.len() {
            proof {
                lemma_first_index_absent(a.ids, id);
            }
            return;
        }
        proof {
            lemma_first_index_is_first(a.ids, id, i as int);
        }
        let term = self.tab_mut(i);
        term.apply_background(result);
        proof {
            assert(self@.terminals =~= a.terminals.update(
                i as int,
                background_effect(a.terminals[i as int], r),
            ));
            assert forall|k: int| 0 <= k < self@.terminals.len() implies session_wf(
                #[trigger] self@.terminals[k],
            ) by {
                if k != i {
                    assert(self@.terminals[k] == a.terminals[k]);
                }
            }
        }
    }

    /// Tab `i`, to change in place.
    fn tab_mut(&mut self, i: usize) -> (term: &mut TerminalSession)
        requires
            old(self).wf(),
            i < old(self)@.terminals.len(),
        ensures
            (*term)@ == old(self)@.terminals[i as int],
            final(self)@ == (AppView {
                terminals: old(self)@.terminals.update(i as int, (*final(term))@),
                ..old(self)@
            }),
    {
        broadcast use lemma_sessions_view_update;

        &mut self.terminals[i]
    }
}

proof fn lemma_first_index_is_first(ids: Seq<u64>, id: u64, i: int)
    requires
        0 <= i < ids.len(),
        ids[i] == id,
        forall|k: int| 0 <= k < i ==> ids[k] != id,
    ensures
        first_index_of(ids, id) == i,
    decreases ids.len(),
{
    if i < ids.len() - 1 {
        lemma_first_index_is_first(ids.drop_last(), id, i);
    } else {
        lemma_first_index_absent(ids.drop_last(), id);
    }
}

proof fn lemma_first_index_absent(ids: Seq<u64>, id: u64)
    requires
        forall|k: int| 0 <= k < ids.len() ==> ids[k] != id,
    ensures
        first_index_of(ids, id) == -1,
    decreases ids.len(),
{
    if ids.len() > 0 {
        lemma_first_index_absent(ids.drop_last(), id);
    }
}

/// Going to the next tab and back to the previous one (or the other way
/// round) returns to the same tab.
pub proof fn lemma_next_previous_inverse(a: AppView)
    requires
        app_wf(a),
    ensures
        tab_previous(tab_next(a)) == a,
        tab_next(tab_previous(a)) == a,
{
    let n = a.terminals.len() as int;
    let c = a.current as int;
    if c + 1 < n {
        assert((c + 1) % n == c + 1) by (nonlinear_arith)
            requires
                0 <= c + 1 < n,
        ;
    } else {
        assert((c + 1) % n == 0) by (nonlinear_arith)
            requires
                c + 1 == n,
                n > 0,
        ;
    }
    if c == 0 {
        assert((n - 1 + 1) % n == 0) by (nonlinear_arith)
            requires
                n > 0,
        ;
    } else {
        assert((c - 1 + 1) % n == c) by (nonlinear_arith)
            requires
                0 <= c < n,
        ;
    }
}

/// Closing the tab just opened gives back the tabs as they were.
pub proof fn lemma_close_undoes_add(a: AppView)
    requires
        app_wf(a),
    ensures
        tab_closed(tab_added(a)).terminals == a.terminals,
        tab_closed(tab_added(a)).ids == a.ids,
{
    let b = tab_added(a);
    assert(b.terminals.remove(a.terminals.len() as int) =~= a.terminals);
    assert(b.ids.remove(a.terminals.len() as int) =~= a.ids);
}

/// Closing a tab, when there is more than one, removes exactly the current
/// tab (and its identifier): the tabs before it stay where they are, the
/// tabs after it move down by one, and the selection stays at the same
/// position or moves to the new last tab. The last remaining tab is never
/// closed.
pub proof fn lemma_close_removes_current(a: AppView)
    requires
        app_wf(a),
    ensures
        a.terminals.len() == 1 ==> tab_closed(a) == a,
        a.terminals.len() > 1 ==> {
            let b = tab_closed(a);
            &&& app_wf(b)
            &&& b.terminals.len() == a.terminals.len() - 1
            &&& b.ids.len() == a.ids.len() - 1
            &&& forall|i: int| 0 <= i < a.current ==> #[trigger] b.terminals[i] == a.terminals[i]
                && b.ids[i] == a.ids[i]
            &&& forall|i: int|
                a.current <= i < b.terminals.len() ==> #[trigger] b.terminals[i] == a.terminals[i
                    + 1] && b.ids[i] == a.ids[i + 1]
            &&& b.current == if a.current < b.terminals.len() {
                a.current as int
            } else {
                b.terminals.len() - 1
            }
            &&& b.insert_mode == a.insert_mode && b.editing == a.editing
        },
{
}

/// Escape in insert mode followed by `i` in normal mode returns to the same
/// state.
pub proof fn lemma_escape_then_insert(a: AppView, time: Seq<char>, date: Seq<char>)
    requires
        app_wf(a),
        a.insert_mode,
        a.editing is None,
    ensures
        ({
            let esc = KeyInput { key: Key::Esc, ctrl: false, shift: false, press: true };
            let ins = KeyInput { key: Key::Char('i'), ctrl: false, shift: false, press: true };
            key_step(key_step(a, esc, time, date).0, ins, time, date).0 == a
        }),
{
}

/// A released key changes nothing.
pub proof fn lemma_release_changes_nothing(a: AppView, k: KeyInput, time: Seq<char>, date: Seq<char>)
    requires
        !k.press,
    ensures
        key_step(a, k, time, date) == (a, OutcomeView::Handled),
{
}

} // verus!
