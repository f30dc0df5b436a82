//! The selection engine: a modal state machine over a host table.
//!
//! It takes one key at a time and updates the mode, the search input, the
//! selected host and the scroll offset. It does no I/O. When it needs the
//! terminal's size it says so through [`Effect::MeasureTerminal`], and the
//! caller answers with [`TUI::resize`].

use crate::fuzzy::{fuzzy_hit, highlight, host_matches, lemma_hit_drop_last, marks};
use crate::host_table::{host_entries, host_map_get_index, host_map_len, names, Entry, HostMap};
use crate::text::{chars_of, pop_char, push_char};
use vstd::prelude::*;

verus! {

/// A key press, or the resize notice (`F(5)`).
#[derive(Debug, Clone, Copy, PartialEq, Eq, Structural)]
pub enum Key {
    Char(char),
    Ctrl(char),
    F(u8),
    Up,
    Down,
    PageUp,
    PageDown,
    Backspace,
    Esc,
    Other,
}

/// UI mode.
#[derive(Debug, Clone)]
pub enum Mode {
    Search,
    Nav,
    Quit,
    /// Connect to this host.
    Launch(String),
}

/// A mode, with the host to connect to as a character sequence.
pub enum ModeView {
    Search,
    Nav,
    Quit,
    Launch(Seq<char>),
}

pub open spec fn mode_view(m: Mode) -> ModeView {
    match m {
        Mode::Search => ModeView::Search,
        Mode::Nav => ModeView::Nav,
        Mode::Quit => ModeView::Quit,
        Mode::Launch(h) => ModeView::Launch(h@),
    }
}

impl PartialEq for Mode {
    fn eq(&self, other: &Mode) -> (r: bool) {
        match self {
            Mode::Search => match other {
                Mode::Search => true,
                _ => false,
            },
            Mode::Nav => match other {
                Mode::Nav => true,
                _ => false,
            },
            Mode::Quit => match other {
                Mode::Quit => true,
                _ => false,
            },
            Mode::Launch(a) => match other {
                Mode::Launch(b) => *a == *b,
                _ => false,
            },
        }
    }
}

impl vstd::std_specs::cmp::PartialEqSpecImpl for Mode {
    open spec fn obeys_eq_spec() -> bool {
        true
    }

    open spec fn eq_spec(&self, other: &Mode) -> bool {
        mode_view(*self) == mode_view(*other)
    }
}

/// Was the input search successful?
#[derive(Debug, Clone, Copy, PartialEq, Eq, Structural)]
pub enum SearchStatus {
    Blank,
    Found,
    Missed,
}

/// What the caller has to do after a key was handled.
#[derive(Debug, Clone, Copy, PartialEq, Eq, Structural)]
pub enum Effect {
    /// Nothing; draw and wait for the next key.
    Continue,
    /// Read the terminal's size and hand it to [`TUI::resize`].
    MeasureTerminal,
}

/// The engine found no host where one had to be.
#[derive(Debug, Clone, Copy, PartialEq, Eq, Structural)]
pub enum SelectionError {
    /// The selected index has no host.
    NoHostAtIndex(usize),
}

/// The engine's state, the host table aside.
pub struct EngineView {
    pub mode: ModeView,
    pub status: SearchStatus,
    pub input: Seq<char>,
    pub selected: int,
    pub offset: int,
    pub cols: int,
    pub rows: int,
}

// ---------------------------------------------------------------------------
// The viewport

/// Is row `i` on screen? One terminal row is kept for the prompt.
pub open spec fn visible(offset: int, rows: int, i: int) -> bool {
    offset <= i < offset + rows - 1
}

/// The offset after selecting `i`: the top row when `i` is the first host,
/// `i` at the top when it lies above the window, `i` at the bottom when it
/// lies below, and otherwise unchanged.
pub open spec fn scrolled(offset: int, rows: int, i: int) -> int {
    if i == 0 {
        0
    } else if i < offset {
        i
    } else if i - offset > rows - 2 {
        if rows >= 2 {
            i - rows + 2
        } else {
            i
        }
    } else {
        offset
    }
}

// ---------------------------------------------------------------------------
// Transitions

/// Select `i` as a search result.
pub open spec fn select_at(s: EngineView, i: int) -> EngineView {
    EngineView { selected: i, status: SearchStatus::Found, offset: scrolled(s.offset, s.rows, i), ..s }
}

/// Move the selection to `i`, status unchanged.
pub open spec fn move_to(s: EngineView, i: int) -> EngineView {
    EngineView { selected: i, offset: scrolled(s.offset, s.rows, i), ..s }
}

/// Does a step move between search results only?
pub open spec fn filtering(s: EngineView) -> bool {
    s.mode == ModeView::Search && s.input.len() > 0
}

/// The last name before position `from` that matches `q`; `-1` if none.
pub open spec fn prev_hit(ns: Seq<Seq<char>>, q: Seq<char>, from: int) -> int
    decreases from,
{
    if from <= 0 || from > ns.len() {
        -1
    } else if fuzzy_hit(ns[from - 1], q) {
        from - 1
    } else {
        prev_hit(ns, q, from - 1)
    }
}

/// The first name after position `from` that matches `q`; `-1` if none.
pub open spec fn next_hit(ns: Seq<Seq<char>>, q: Seq<char>, from: int) -> int
    decreases ns.len() - from,
{
    if from + 1 >= ns.len() || from < -1 {
        -1
    } else if fuzzy_hit(ns[from + 1], q) {
        from + 1
    } else {
        next_hit(ns, q, from + 1)
    }
}

/// One step up: to the previous match while filtering, else to the previous
/// host, from the first host round to the last.
pub open spec fn step_up(s: EngineView, ns: Seq<Seq<char>>) -> EngineView {
    if filtering(s) {
        let j = prev_hit(ns, s.input, s.selected);
        if j >= 0 {
            select_at(s, j)
        } else {
            s
        }
    } else if ns.len() == 0 {
        s
    } else if s.selected == 0 {
        move_to(s, ns.len() - 1)
    } else {
        move_to(s, s.selected - 1)
    }
}

/// One step down: to the next match while filtering, else to the next host,
/// from the last host round to the first.
pub open spec fn step_down(s: EngineView, ns: Seq<Seq<char>>) -> EngineView {
    if filtering(s) {
        let j = next_hit(ns, s.input, s.selected);
        if j >= 0 {
            select_at(s, j)
        } else {
            s
        }
    } else if ns.len() == 0 {
        s
    } else if s.selected >= ns.len() - 1 {
        move_to(s, 0)
    } else {
        move_to(s, s.selected + 1)
    }
}

/// Five hosts down, stopping at the last.
pub open spec fn page_down(s: EngineView, n: int) -> EngineView {
    if n == 0 {
        s
    } else if s.selected + 5 > n - 1 {
        select_at(s, n - 1)
    } else {
        select_at(s, s.selected + 5)
    }
}

/// Five hosts up, stopping at the first.
pub open spec fn page_up(s: EngineView, n: int) -> EngineView {
    if n == 0 {
        s
    } else if s.selected > 5 {
        select_at(s, s.selected - 5)
    } else {
        select_at(s, 0)
    }
}

/// Select the first host that matches the input, or record the miss.
pub open spec fn search_select(s: EngineView, ns: Seq<Seq<char>>) -> EngineView {
    let j = next_hit(ns, s.input, -1);
    if j >= 0 {
        select_at(s, j)
    } else {
        EngineView { status: SearchStatus::Missed, ..s }
    }
}

/// A key that edits the search input.
pub open spec fn input_step(s: EngineView, ns: Seq<Seq<char>>, k: Key) -> EngineView {
    match k {
        Key::Ctrl('c') | Key::Esc => if s.input.len() == 0 {
            EngineView { mode: ModeView::Nav, status: SearchStatus::Blank, ..s }
        } else {
            EngineView { input: Seq::empty(), status: SearchStatus::Blank, ..s }
        },
        Key::Backspace => if s.input.len() == 0 {
            EngineView { status: SearchStatus::Blank, ..s }
        } else if s.input.len() == 1 {
            EngineView { input: Seq::empty(), status: SearchStatus::Blank, ..s }
        } else {
            search_select(EngineView { input: s.input.drop_last(), ..s }, ns)
        },
        Key::Char(c) => search_select(EngineView { input: s.input.push(c), ..s }, ns),
        _ => s,
    }
}

/// Does `k` open search from navigation?
pub open spec fn opens_search(k: Key) -> bool {
    k == Key::Char('i') || k == Key::Char('s') || k == Key::Char('/') || k == Key::Char('f')
}

/// The engine's answer to key `k`, with host table `e`: the next state and
/// what the caller must do, or the error.
pub open spec fn key_step(s: EngineView, e: Seq<Entry>, k: Key) -> Result<
    (EngineView, Effect),
    SelectionError,
> {
    let ns = names(e);
    let n = e.len() as int;
    let nav = s.mode == ModeView::Nav;
    if nav && (k == Key::Ctrl('c') || k == Key::Esc) {
        Ok((EngineView { mode: ModeView::Quit, ..s }, Effect::Continue))
    } else if k == Key::F(5) || (nav && k == Key::Char('r')) {
        Ok((s, Effect::MeasureTerminal))
    } else if k == Key::PageDown || (nav && k == Key::Char(' ')) {
        Ok((page_down(s, n), Effect::Continue))
    } else if k == Key::PageUp || (nav && k == Key::Char('-')) {
        Ok((page_up(s, n), Effect::Continue))
    } else if k == Key::Up || k == Key::Ctrl('p') {
        Ok((step_up(s, ns), Effect::Continue))
    } else if k == Key::Down || k == Key::Ctrl('n') {
        Ok((step_down(s, ns), Effect::Continue))
    } else if k == Key::Char('\n') {
        if s.mode == ModeView::Search && s.status == SearchStatus::Missed {
            Ok((s, Effect::Continue))
        } else if 0 <= s.selected < n {
            Ok((EngineView { mode: ModeView::Launch(e[s.selected].1), ..s }, Effect::Continue))
        } else {
            Err(SelectionError::NoHostAtIndex(s.selected as usize))
        }
    } else if nav {
        if k == Key::Char('q') {
            Ok((EngineView { mode: ModeView::Quit, ..s }, Effect::Continue))
        } else if opens_search(k) {
            Ok((EngineView { mode: ModeView::Search, status: SearchStatus::Blank, ..s }, Effect::Continue))
        } else {
            Ok((s, Effect::Continue))
        }
    } else if s.mode == ModeView::Search {
        Ok((input_step(s, ns, k), Effect::Continue))
    } else {
        Ok((s, Effect::Continue))
    }
}

/// The state after the terminal was measured at `cols` x `rows`: the offset
/// goes back to the top when every host fits, else the selection is
/// scrolled into view.
pub open spec fn resized(s: EngineView, n: int, cols: int, rows: int) -> EngineView {
    EngineView {
        cols,
        rows,
        offset: if n <= rows - 1 {
            0
        } else {
            scrolled(s.offset, rows, s.selected)
        },
        ..s
    }
}

// ---------------------------------------------------------------------------
// Laws

/// After the viewport rule places row `i`, that row is on screen, on any
/// terminal of two rows or more.
pub proof fn lemma_scrolled_visible(offset: int, rows: int, i: int)
    requires
        rows >= 2,
        0 <= offset,
        0 <= i,
    ensures
        visible(scrolled(offset, rows, i), rows, i),
{
}

proof fn lemma_next_hit(ns: Seq<Seq<char>>, q: Seq<char>, from: int)
    requires
        -1 <= from,
    ensures
        next_hit(ns, q, from) == -1 || from < next_hit(ns, q, from) < ns.len(),
        next_hit(ns, q, from) >= 0 ==> fuzzy_hit(ns[next_hit(ns, q, from)], q),
        forall|k: int|
            from < k < ns.len() && (next_hit(ns, q, from) < 0 || k < next_hit(ns, q, from))
                ==> !fuzzy_hit(#[trigger] ns[k], q),
    decreases ns.len() - from,
{
    if from + 1 < ns.len() && !fuzzy_hit(ns[from + 1], q) {
        lemma_next_hit(ns, q, from + 1);
    }
}

/// In navigation, a step up from the first host goes to the last, and a
/// step down from the last host goes to the first.
pub proof fn lemma_navigation_wraps(s: EngineView, e: Seq<Entry>)
    requires
        s.mode == ModeView::Nav,
        e.len() > 0,
    ensures
        s.selected == 0 ==> key_step(s, e, Key::Up) == Ok::<(EngineView, Effect), SelectionError>(
            (move_to(s, e.len() - 1), Effect::Continue),
        ),
        s.selected == e.len() - 1 ==> key_step(s, e, Key::Down) == Ok::<
            (EngineView, Effect),
            SelectionError,
        >((move_to(s, 0), Effect::Continue)),
{
}

/// Typing a character in search mode adds it to the input and selects the
/// first host, in table order, whose name matches the new input. When no
/// name matches, the miss is recorded and the selection and scroll stay. A
/// host selected as the first match that still matches stays selected.
pub proof fn lemma_search_typing(s: EngineView, e: Seq<Entry>, c: char)
    requires
        s.mode == ModeView::Search,
        c != '\n',
    ensures
        key_step(s, e, Key::Char(c)) is Ok,
        ({
            let v = key_step(s, e, Key::Char(c))->Ok_0.0;
            let q = s.input.push(c);
            let ns = names(e);
            &&& v.input == q
            &&& v.mode == ModeView::Search
            &&& (exists|j: int| 0 <= j < e.len() && fuzzy_hit(#[trigger] ns[j], q)) ==> {
                &&& v.status == SearchStatus::Found
                &&& 0 <= v.selected < e.len()
                &&& fuzzy_hit(ns[v.selected], q)
                &&& forall|j: int| 0 <= j < v.selected ==> !fuzzy_hit(#[trigger] ns[j], q)
            }
            &&& (forall|j: int| 0 <= j < e.len() ==> !fuzzy_hit(#[trigger] ns[j], q)) ==> {
                &&& v.status == SearchStatus::Missed
                &&& v.selected == s.selected
                &&& v.offset == s.offset
            }
            &&& (0 <= s.selected < e.len() && s.selected == next_hit(ns, s.input, -1) && fuzzy_hit(
                ns[s.selected],
                q,
            )) ==> v.selected == s.selected
        }),
{
    let ns = names(e);
    let q = s.input.push(c);
    lemma_next_hit(ns, q, -1);
    lemma_next_hit(ns, s.input, -1);
    if 0 <= s.selected < e.len() && s.selected == next_hit(ns, s.input, -1) && fuzzy_hit(
        ns[s.selected],
        q,
    ) {
        assert forall|k: int| 0 <= k < s.selected implies !fuzzy_hit(#[trigger] ns[k], q) by {
            lemma_hit_drop_last(ns[k], s.input, c);
        }
    }
}

// ---------------------------------------------------------------------------
// The engine

/// App state.
pub struct TUI {
    pub mode: Mode,
    status: SearchStatus,
    input: String,
    selected: usize,
    offset: usize,
    size: (u16, u16),
    hosts: HostMap,
}

impl View for TUI {
    type V = EngineView;

    closed spec fn view(&self) -> EngineView {
        EngineView {
            mode: mode_view(self.mode),
            status: self.status,
            input: self.input@,
            selected: self.selected as int,
            offset: self.offset as int,
            cols: self.size.0 as int,
            rows: self.size.1 as int,
        }
    }
}

impl TUI {
    /// The host table.
    pub closed spec fn entries(&self) -> Seq<Entry> {
        host_entries(self.hosts)
    }

    /// The selection lies in the table (or is 0 on an empty table), and the
    /// window starts at or above it.
    pub closed spec fn wf(&self) -> bool {
        &&& if self.entries().len() == 0 {
            self.selected == 0
        } else {
            self.selected < self.entries().len()
        }
        &&& self.offset <= self.selected
    }

    /// The ranges of the view's numbers, and what the invariant says of
    /// them.
    pub proof fn lemma_view(&self)
        ensures
            0 <= self@.selected,
            0 <= self@.offset,
            0 <= self@.cols <= u16::MAX,
            0 <= self@.rows <= u16::MAX,
            self.wf() <==> {
                &&& if self.entries().len() == 0 {
                    self@.selected == 0
                } else {
                    self@.selected < self.entries().len()
                }
                &&& self@.offset <= self@.selected
            },
    {
    }

    /// The current mode.
    pub fn mode(&self) -> (r: &Mode)
        ensures
            mode_view(*r) == self@.mode,
    {
        &self.mode
    }

    /// A new engine over `hosts` for a terminal of `size` (columns, rows):
    /// navigation mode, first host selected, empty search input.
    pub fn new(hosts: HostMap, size: (u16, u16)) -> (r: TUI)
        ensures
            r.wf(),
            r.entries() == host_entries(hosts),
            r@ == (EngineView {
                mode: ModeView::Nav,
                status: SearchStatus::Blank,
                input: Seq::empty(),
                selected: 0,
                offset: 0,
                cols: size.0 as int,
                rows: size.1 as int,
            }),
    {
        TUI {
            mode: Mode::Nav,
            status: SearchStatus::Blank,
            input: String::new(),
            selected: 0,
            offset: 0,
            size,
            hosts,
        }
    }

    /// Select a host by index, scrolling it into view.
    pub fn select(&mut self, i: usize)
        requires
            old(self).wf(),
            i < old(self).entries().len(),
        ensures
            final(self).wf(),
            final(self).entries() == old(self).entries(),
            final(self)@ == select_at(old(self)@, i as int),
            old(self)@.rows >= 2 ==> visible(final(self)@.offset, old(self)@.rows, i as int),
    {
        self.status = SearchStatus::Found;
        self.scroll_to(i);
    }

    /// Move the selection to `i` and adjust the offset by the viewport rule.
    fn scroll_to(&mut self, i: usize)
        requires
            old(self).wf(),
            i < old(self).entries().len(),
        ensures
            final(self).wf(),
            final(self).entries() == old(self).entries(),
            final(self)@ == move_to(old(self)@, i as int),
    {
        let rows = self.size.1 as usize;
        if i == 0 {
            self.offset = 0;
        } else if i < self.offset {
            self.offset = i;
        } else if rows < 2 {
            self.offset = i;
        } else if i - self.offset > rows - 2 {
            self.offset = i - (rows - 2);
        }
        self.selected = i;
    }

    /// Is the host at index `i` on screen?
    pub fn is_visible(&self, i: usize) -> (r: bool)
        ensures
            r == visible(self@.offset, self@.rows, i as int),
    {
        let rows = self.size.1 as usize;
        i >= self.offset && rows >= 1 && i - self.offset < rows - 1
    }

    /// Select the previous host (up). In search mode with some input, only a
    /// matching host is selected.
    fn select_prev(&mut self)
        requires
            old(self).wf(),
        ensures
            final(self).wf(),
            final(self).entries() == old(self).entries(),
            final(self)@ == step_up(old(self)@, names(old(self).entries())),
    {
        let ghost ns = names(self.entries());
        let n = host_map_len(&self.hosts);
        let searching = match self.mode {
            Mode::Search => true,
            _ => false,
        };
        if searching && !self.input.as_str().is_empty() {
            let mut i = self.selected;
            while i > 0
                invariant
                    self.wf(),
                    ns == names(self.entries()),
                    n == ns.len(),
                    i <= self.selected,
                    filtering(self@),
                    self@ == old(self)@,
                    self.entries() == old(self).entries(),
                    prev_hit(ns, self@.input, self@.selected) == prev_hit(ns, self@.input, i as int),
                decreases i,
            {
                i = i - 1;
                let hit = match host_map_get_index(&self.hosts, i) {
                    Some((name, _)) => host_matches(name.as_str(), self.input.as_str()),
                    None => false,
                };
                if hit {
                    self.select(i);
                    return;
                }
            }
        } else if n > 0 {
            if self.selected == 0 {
                self.scroll_to(n - 1);
            } else {
                self.scroll_to(self.selected - 1);
            }
        }
    }

    /// Select the next host (down). In search mode with some input, only a
    /// matching host is selected.
    fn select_next(&mut self)
        requires
            old(self).wf(),
        ensures
            final(self).wf(),
            final(self).entries() == old(self).entries(),
            final(self)@ == step_down(old(self)@, names(old(self).entries())),
    {
        let ghost ns = names(self.entries());
        let n = host_map_len(&self.hosts);
        let searching = match self.mode {
            Mode::Search => true,
            _ => false,
        };
        if searching && !self.input.as_str().is_empty() {
            if n == 0 {
                return;
            }
            let mut i = self.selected;
            while i + 1 < n
                invariant
                    self.wf(),
                    ns == names(self.entries()),
                    n == ns.len(),
                    n > 0,
                    self.selected <= i < n,
                    filtering(self@),
                    self@ == old(self)@,
                    self.entries() == old(self).entries(),
                    next_hit(ns, self@.input, self@.selected as int) == next_hit(ns, self@.input, i as int),
                decreases n - i,
            {
                i = i + 1;
                let hit = match host_map_get_index(&self.hosts, i) {
                    Some((name, _)) => host_matches(name.as_str(), self.input.as_str()),
                    None => false,
                };
                if hit {
                    self.select(i);
                    return;
                }
            }
        } else if n > 0 {
            if self.selected >= n - 1 {
                self.scroll_to(0);
            } else {
                self.scroll_to(self.selected + 1);
            }
        }
    }

    /// Check the search input against the host names and select the first
    /// match; record a miss when there is none.
    fn select_search_host(&mut self)
        requires
            old(self).wf(),
        ensures
            final(self).wf(),
            final(self).entries() == old(self).entries(),
            final(self)@ == search_select(old(self)@, names(old(self).entries())),
    {
        let ghost ns = names(self.entries());
        let n = host_map_len(&self.hosts);
        let mut i: usize = 0;
        while i < n
            invariant
                self.wf(),
                ns == names(self.entries()),
                n == ns.len(),
                i <= n,
                self@ == old(self)@,
                self.entries() == old(self).entries(),
                next_hit(ns, self@.input, -1) == next_hit(ns, self@.input, i - 1),
            decreases n - i,
        {
            let hit = match host_map_get_index(&self.hosts, i) {
                Some((name, _)) => host_matches(name.as_str(), self.input.as_str()),
                None => false,
            };
            if hit {
                self.select(i);
                return;
            }
            i = i + 1;
        }
        self.status = SearchStatus::Missed;
    }

    /// Search mode keys: edit the input and search again.
    fn update_input(&mut self, event: Key)
        requires
            old(self).wf(),
        ensures
            final(self).wf(),
            final(self).entries() == old(self).entries(),
            final(self)@ == input_step(old(self)@, names(old(self).entries()), event),
    {
        match event {
            Key::Ctrl('c') | Key::Esc => {
                self.status = SearchStatus::Blank;
                if self.input.as_str().is_empty() {
                    self.mode = Mode::Nav;
                } else {
                    self.input = String::new();
                }
            },
            Key::Backspace => {
                if !self.input.as_str().is_empty() {
                    pop_char(&mut self.input);
                    if !self.input.as_str().is_empty() {
                        self.select_search_host();
                    }
                }
                if self.input.as_str().is_empty() {
                    self.status = SearchStatus::Blank;
                    assert(self.input@ =~= Seq::<char>::empty());
                }
            },
            Key::Char(c) => {
                push_char(&mut self.input, c);
                self.select_search_host();
            },
            _ => {},
        }
    }

    /// Handle one key, or nothing for `None`.
    pub fn update(&mut self, event: Option<Key>) -> (r: Result<Effect, SelectionError>)
        requires
            old(self).wf(),
        ensures
            final(self).wf(),
            final(self).entries() == old(self).entries(),
            event is None ==> r == Ok::<Effect, SelectionError>(Effect::Continue) && final(self)@
                == old(self)@,
            event matches Some(k) ==> match key_step(old(self)@, old(self).entries(), k) {
                Ok((v, eff)) => r == Ok::<Effect, SelectionError>(eff) && final(self)@ == v,
                Err(e) => r == Err::<Effect, SelectionError>(e) && final(self)@ == old(self)@,
            },
    {
        let k = match event {
            None => {
                return Ok(Effect::Continue);
            },
            Some(k) => k,
        };
        let nav = match self.mode {
            Mode::Nav => true,
            _ => false,
        };
        let searching = match self.mode {
            Mode::Search => true,
            _ => false,
        };
        let n = host_map_len(&self.hosts);
        if nav && (k == Key::Ctrl('c') || k == Key::Esc) {
            self.mode = Mode::Quit;
        } else if k == Key::F(5) || (nav && k == Key::Char('r')) {
            return Ok(Effect::MeasureTerminal);
        } else if k == Key::PageDown || (nav && k == Key::Char(' ')) {
            if n > 0 {
                if n - 1 - self.selected < 5 {
                    self.select(n - 1);
                } else {
                    self.select(self.selected + 5);
                }
            }
        } else if k == Key::PageUp || (nav && k == Key::Char('-')) {
            if n > 0 {
                if self.selected > 5 {
                    self.select(self.selected - 5);
                } else {
                    self.select(0);
                }
            }
        } else if k == Key::Up || k == Key::Ctrl('p') {
            self.select_prev();
        } else if k == Key::Down || k == Key::Ctrl('n') {
            self.select_next();
        } else if k == Key::Char('\n') {
            if searching && self.status == SearchStatus::Missed {
            } else {
                let target = match host_map_get_index(&self.hosts, self.selected) {
                    Some((_, hostname)) => hostname.clone(),
                    None => {
                        return Err(SelectionError::NoHostAtIndex(self.selected));
                    },
                };
                self.mode = Mode::Launch(target);
            }
        } else if nav {
            if k == Key::Char('q') {
                self.mode = Mode::Quit;
            } else if k == Key::Char('i') || k == Key::Char('s') || k == Key::Char('/') || k
                == Key::Char('f') {
                self.status = SearchStatus::Blank;
                self.mode = Mode::Search;
            }
        } else if searching {
            self.update_input(k);
        }
        Ok(Effect::Continue)
    }

    /// The alias of the selected host, or `"shy"` when the table is empty.
    pub fn selected_name(&self) -> (r: &str)
        requires
            self.wf(),
        ensures
            self@.selected < self.entries().len() ==> r@ == self.entries()[self@.selected].0,
            self@.selected >= self.entries().len() ==> r@ == "shy"@,
    {
        match host_map_get_index(&self.hosts, self.selected) {
            Some((name, _)) => name.as_str(),
            None => "shy",
        }
    }

    /// The connection target of the selected host, or `"shy"` when the
    /// table is empty.
    pub fn selected_hostname(&self) -> (r: &str)
        requires
            self.wf(),
        ensures
            self@.selected < self.entries().len() ==> r@ == self.entries()[self@.selected].1,
            self@.selected >= self.entries().len() ==> r@ == "shy"@,
    {
        match host_map_get_index(&self.hosts, self.selected) {
            Some((_, hostname)) => hostname.as_str(),
            None => "shy",
        }
    }

    /// The search prompt's characters, each with whether it is emphasized:
    /// nothing for an empty input, the input as typed after a miss, and
    /// otherwise the selected alias with the letters the input picked out.
    pub fn highlight_matches(&self) -> (r: Vec<(char, bool)>)
        requires
            self.wf(),
        ensures
            self@.input.len() == 0 ==> r@.len() == 0,
            self@.input.len() > 0 && self@.status == SearchStatus::Missed ==> {
                &&& r@.len() == self@.input.len()
                &&& forall|i: int| 0 <= i < r@.len() ==> #[trigger] r@[i] == (self@.input[i], false)
            },
            self@.input.len() > 0 && self@.status != SearchStatus::Missed ==> {
                let name = if self@.selected < self.entries().len() {
                    self.entries()[self@.selected].0
                } else {
                    "shy"@
                };
                &&& r@.len() == name.len()
                &&& forall|i: int|
                    0 <= i < r@.len() ==> #[trigger] r@[i] == (name[i], marks(name, self@.input)[i])
            },
    {
        if self.input.as_str().is_empty() {
            return Vec::new();
        }
        if self.status == SearchStatus::Missed {
            let cs = chars_of(self.input.as_str());
            let mut r: Vec<(char, bool)> = Vec::new();
            let mut i: usize = 0;
            while i < cs.len()
                invariant
                    cs@ == self@.input,
                    i <= cs@.len(),
                    r@.len() == i,
                    forall|j: int| 0 <= j < i ==> #[trigger] r@[j] == (cs@[j], false),
                decreases cs@.len() - i,
            {
                r.push((cs[i], false));
                i = i + 1;
            }
            return r;
        }
        highlight(self.selected_name(), self.input.as_str())
    }

    /// The rows on screen: hosts `r.0` up to, not including, `r.1`.
    pub fn visible_range(&self) -> (r: (usize, usize))
        requires
            self.wf(),
        ensures
            r.0 == self@.offset,
            r.1 == if self@.offset + self@.rows - 1 < self.entries().len() {
                if self@.rows >= 1 {
                    self@.offset + self@.rows - 1
                } else {
                    self@.offset
                }
            } else {
                self.entries().len() as int
            },
            forall|i: int| r.0 <= i < r.1 ==> visible(self@.offset, self@.rows, i),
    {
        let n = host_map_len(&self.hosts);
        let rows = self.size.1 as usize;
        let window: usize = if rows >= 1 {
            rows - 1
        } else {
            0
        };
        let end = if window < n - self.offset {
            self.offset + window
        } else {
            n
        };
        (self.offset, end)
    }

    /// Whether the last search found a host.
    pub fn status(&self) -> (r: SearchStatus)
        ensures
            r == self@.status,
    {
        self.status
    }

    /// The search input.
    pub fn input(&self) -> (r: &str)
        ensures
            r@ == self@.input,
    {
        self.input.as_str()
    }

    /// Index of the selected host.
    pub fn selected(&self) -> (r: usize)
        ensures
            r == self@.selected,
    {
        self.selected
    }

    /// Index of the first host on screen.
    pub fn offset(&self) -> (r: usize)
        ensures
            r == self@.offset,
    {
        self.offset
    }

    /// The terminal size the engine works with: (columns, rows).
    pub fn size(&self) -> (r: (u16, u16))
        ensures
            r.0 == self@.cols,
            r.1 == self@.rows,
    {
        self.size
    }

    /// The host table.
    pub fn hosts(&self) -> (r: &HostMap)
        ensures
            host_entries(*r) == self.entries(),
    {
        &self.hosts
    }

    /// Take the terminal's new size. When every host fits, the list goes
    /// back to the top; otherwise the selection is kept in view.
    pub fn resize(&mut self, size: (u16, u16))
        requires
            old(self).wf(),
        ensures
            final(self).wf(),
            final(self).entries() == old(self).entries(),
            final(self)@ == resized(
                old(self)@,
                old(self).entries().len() as int,
                size.0 as int,
                size.1 as int,
            ),
            size.1 >= 2 ==> visible(final(self)@.offset, size.1 as int, old(self)@.selected),
    {
        self.size = size;
        let n = host_map_len(&self.hosts);
        if n < size.1 as usize {
            self.offset = 0;
        } else {
            let rows = size.1 as usize;
            let i = self.selected;
            if i == 0 {
                self.offset = 0;
            } else if i < self.offset {
                self.offset = i;
            } else if rows < 2 {
                self.offset = i;
            } else if i - self.offset > rows - 2 {
                self.offset = i - (rows - 2);
            }
        }
    }
}

} // verus!
