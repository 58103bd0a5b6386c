//! State of the terminal dashboard: the active tab, the process table's
//! ordering and scroll position, and what each key does to them.
use crate::metrics::{NazarConfig, ProcessInfo, ServiceState, ServiceStatus};
use crate::ranking::{sort_processes, stable_sorted};
use vstd::prelude::*;

verus! {

/// The panels of the terminal dashboard, in the order the tab bar shows them.
#[derive(Debug, Clone, Copy, PartialEq, Eq, Structural)]
pub enum Tab {
    Processes,
    Alerts,
    Predictions,
    Agents,
    Services,
    Insights,
}

/// Number of tabs.
pub const TAB_COUNT: usize = 6;

/// The tab at position `i` of the tab bar.
pub open spec fn tab_at(i: int) -> Tab {
    if i == 0 {
        Tab::Processes
    } else if i == 1 {
        Tab::Alerts
    } else if i == 2 {
        Tab::Predictions
    } else if i == 3 {
        Tab::Agents
    } else if i == 4 {
        Tab::Services
    } else {
        Tab::Insights
    }
}

impl Tab {
    /// Position of the tab in the tab bar.
    pub open spec fn position(self) -> int {
        match self {
            Tab::Processes => 0,
            Tab::Alerts => 1,
            Tab::Predictions => 2,
            Tab::Agents => 3,
            Tab::Services => 4,
            Tab::Insights => 5,
        }
    }

    /// The tab after this one, wrapping from the last to the first.
    pub open spec fn spec_next(self) -> Tab {
        tab_at((self.position() + 1) % 6)
    }

    /// The tab before this one, wrapping from the first to the last.
    pub open spec fn spec_prev(self) -> Tab {
        tab_at((self.position() + 5) % 6)
    }

    pub open spec fn spec_label(self) -> Seq<char> {
        match self {
            Tab::Processes => "Processes"@,
            Tab::Alerts => "Alerts"@,
            Tab::Predictions => "Predictions"@,
            Tab::Agents => "Agents"@,
            Tab::Services => "Services"@,
            Tab::Insights => "AI Insights"@,
        }
    }

    /// All tabs in tab-bar order.
    pub fn all() -> (v: Vec<Tab>)
        ensures
            v@.len() == TAB_COUNT,
            forall|i: int| 0 <= i < TAB_COUNT ==> v@[i] == tab_at(i),
    {
        vec![Tab::Processes, Tab::Alerts, Tab::Predictions, Tab::Agents, Tab::Services, Tab::Insights]
    }

    /// The tab's title in the tab bar.
    pub fn label(self) -> (s: &'static str)
        ensures
            s@ == self.spec_label(),
    {
        match self {
            Tab::Processes => "Processes",
            Tab::Alerts => "Alerts",
            Tab::Predictions => "Predictions",
            Tab::Agents => "Agents",
            Tab::Services => "Services",
            Tab::Insights => "AI Insights",
        }
    }

    /// The digit key that selects the tab: '1' for the first, up to '6'.
    pub fn key(self) -> (c: char)
        ensures
            c as int == '1' as int + self.position(),
    {
        match self {
            Tab::Processes => '1',
            Tab::Alerts => '2',
            Tab::Predictions => '3',
            Tab::Agents => '4',
            Tab::Services => '5',
            Tab::Insights => '6',
        }
    }

    /// Position of the tab in the tab bar.
    pub fn index(self) -> (i: usize)
        ensures
            i == self.position(),
    {
        match self {
            Tab::Processes => 0,
            Tab::Alerts => 1,
            Tab::Predictions => 2,
            Tab::Agents => 3,
            Tab::Services => 4,
            Tab::Insights => 5,
        }
    }

    /// The tab at position `i` of the tab bar.
    pub fn from_index(i: usize) -> (t: Tab)
        requires
            i < TAB_COUNT,
        ensures
            t == tab_at(i as int),
            t.position() == i,
    {
        if i == 0 {
            Tab::Processes
        } else if i == 1 {
            Tab::Alerts
        } else if i == 2 {
            Tab::Predictions
        } else if i == 3 {
            Tab::Agents
        } else if i == 4 {
            Tab::Services
        } else {
            Tab::Insights
        }
    }

    /// The tab selected by a digit key, if any.
    pub fn from_key(c: char) -> (t: Option<Tab>)
        ensures
            match t {
                Some(tab) => c as int == '1' as int + tab.position(),
                None => (c as int) < ('1' as int) || (c as int) > ('6' as int),
            },
    {
        if c == '1' {
            Some(Tab::Processes)
        } else if c == '2' {
            Some(Tab::Alerts)
        } else if c == '3' {
            Some(Tab::Predictions)
        } else if c == '4' {
            Some(Tab::Agents)
        } else if c == '5' {
            Some(Tab::Services)
        } else if c == '6' {
            Some(Tab::Insights)
        } else {
            None
        }
    }
}

/// The column the process table is ordered by.
#[derive(Debug, Clone, Copy, PartialEq, Eq, Structural)]
pub enum ProcessSort {
    Cpu,
    Memory,
    Pid,
    Name,
}

impl ProcessSort {
    pub open spec fn spec_next(self) -> ProcessSort {
        match self {
            ProcessSort::Cpu => ProcessSort::Memory,
            ProcessSort::Memory => ProcessSort::Pid,
            ProcessSort::Pid => ProcessSort::Name,
            ProcessSort::Name => ProcessSort::Cpu,
        }
    }

    pub open spec fn spec_label(self) -> Seq<char> {
        match self {
            ProcessSort::Cpu => "CPU%"@,
            ProcessSort::Memory => "MEM"@,
            ProcessSort::Pid => "PID"@,
            ProcessSort::Name => "NAME"@,
        }
    }

    /// The next column in the cycle CPU, memory, PID, name.
    pub fn next(self) -> (s: ProcessSort)
        ensures
            s == self.spec_next(),
    {
        match self {
            ProcessSort::Cpu => ProcessSort::Memory,
            ProcessSort::Memory => ProcessSort::Pid,
            ProcessSort::Pid => ProcessSort::Name,
            ProcessSort::Name => ProcessSort::Cpu,
        }
    }

    /// The column's heading.
    pub fn label(self) -> (s: &'static str)
        ensures
            s@ == self.spec_label(),
    {
        match self {
            ProcessSort::Cpu => "CPU%",
            ProcessSort::Memory => "MEM",
            ProcessSort::Pid => "PID",
            ProcessSort::Name => "NAME",
        }
    }
}

/// A key press, as far as the dashboard tells keys apart.
#[derive(Debug, Clone, Copy, PartialEq, Eq, Structural)]
pub enum KeyInput {
    Char(char),
    Esc,
    /// Tab, with or without Shift held.
    Tab { shift: bool },
    BackTab,
    Up,
    Down,
    Other,
}

/// The terminal dashboard's view state.
pub struct TuiApp {
    pub active_tab: Tab,
    pub scroll_offset: u16,
    pub process_sort: ProcessSort,
    pub sort_reverse: bool,
    pub show_help: bool,
    pub refresh_ms: u64,
}

impl TuiApp {
    /// The dashboard as it opens: on the process tab, unscrolled, sorted by
    /// CPU descending, help hidden, refreshing at the configured rate.
    pub fn new(config: &NazarConfig) -> (app: TuiApp)
        ensures
            app.active_tab == Tab::Processes,
            app.scroll_offset == 0,
            app.process_sort == ProcessSort::Cpu,
            app.sort_reverse,
            !app.show_help,
            app.refresh_ms == config.ui_refresh_ms,
    {
        TuiApp {
            active_tab: Tab::Processes,
            scroll_offset: 0,
            process_sort: ProcessSort::Cpu,
            sort_reverse: true,
            show_help: false,
            refresh_ms: config.ui_refresh_ms,
        }
    }

    /// Moves to the next tab (wrapping) and resets the scroll position.
    pub fn next_tab(&mut self)
        ensures
            final(self).active_tab == old(self).active_tab.spec_next(),
            final(self).scroll_offset == 0,
            final(self).process_sort == old(self).process_sort,
            final(self).sort_reverse == old(self).sort_reverse,
            final(self).show_help == old(self).show_help,
            final(self).refresh_ms == old(self).refresh_ms,
    {
        let idx = self.active_tab.index();
        self.active_tab = Tab::from_index((idx + 1) % TAB_COUNT);
        self.scroll_offset = 0;
    }

    /// Moves to the previous tab (wrapping) and resets the scroll position.
    pub fn prev_tab(&mut self)
        ensures
            final(self).active_tab == old(self).active_tab.spec_prev(),
            final(self).scroll_offset == 0,
            final(self).process_sort == old(self).process_sort,
            final(self).sort_reverse == old(self).sort_reverse,
            final(self).show_help == old(self).show_help,
            final(self).refresh_ms == old(self).refresh_ms,
    {
        let idx = self.active_tab.index();
        self.active_tab = Tab::from_index((idx + TAB_COUNT - 1) % TAB_COUNT);
        self.scroll_offset = 0;
    }

    /// Selects a tab directly and resets the scroll position.
    pub fn select_tab(&mut self, tab: Tab)
        ensures
            final(self).active_tab == tab,
            final(self).scroll_offset == 0,
            final(self).process_sort == old(self).process_sort,
            final(self).sort_reverse == old(self).sort_reverse,
            final(self).show_help == old(self).show_help,
            final(self).refresh_ms == old(self).refresh_ms,
    {
        self.active_tab = tab;
        self.scroll_offset = 0;
    }

    /// Scrolls up one row, stopping at the top.
    pub fn scroll_up(&mut self)
        ensures
            final(self).scroll_offset == (if old(self).scroll_offset > 0 {
                old(self).scroll_offset - 1
            } else {
                0
            }),
            final(self).active_tab == old(self).active_tab,
            final(self).process_sort == old(self).process_sort,
            final(self).sort_reverse == old(self).sort_reverse,
            final(self).show_help == old(self).show_help,
            final(self).refresh_ms == old(self).refresh_ms,
    {
        self.scroll_offset = if self.scroll_offset > 0 {
            self.scroll_offset - 1
        } else {
            0
        };
    }

    /// Scrolls down one row, stopping at the largest offset.
    pub fn scroll_down(&mut self)
        ensures
            final(self).scroll_offset == (if old(self).scroll_offset < u16::MAX {
                old(self).scroll_offset + 1
            } else {
                u16::MAX as int
            }),
            final(self).active_tab == old(self).active_tab,
            final(self).process_sort == old(self).process_sort,
            final(self).sort_reverse == old(self).sort_reverse,
            final(self).show_help == old(self).show_help,
            final(self).refresh_ms == old(self).refresh_ms,
    {
        self.scroll_offset = if self.scroll_offset < 65535 {
            self.scroll_offset + 1
        } else {
            65535
        };
    }

    /// Orders the process table by the next column.
    pub fn cycle_sort(&mut self)
        ensures
            final(self).process_sort == old(self).process_sort.spec_next(),
            final(self).active_tab == old(self).active_tab,
            final(self).scroll_offset == old(self).scroll_offset,
            final(self).sort_reverse == old(self).sort_reverse,
            final(self).show_help == old(self).show_help,
            final(self).refresh_ms == old(self).refresh_ms,
    {
        self.process_sort = self.process_sort.next();
    }

    /// Switches between ascending and descending order.
    pub fn toggle_sort_order(&mut self)
        ensures
            final(self).sort_reverse == !old(self).sort_reverse,
            final(self).active_tab == old(self).active_tab,
            final(self).scroll_offset == old(self).scroll_offset,
            final(self).process_sort == old(self).process_sort,
            final(self).show_help == old(self).show_help,
            final(self).refresh_ms == old(self).refresh_ms,
    {
        self.sort_reverse = !self.sort_reverse;
    }

    /// The processes in the table's order: stably sorted by the chosen
    /// column, descending when the order is reversed.
    pub fn sorted_processes(&self, procs: &[ProcessInfo]) -> (r: Vec<ProcessInfo>)
        ensures
            stable_sorted(r@, procs@, self.process_sort, self.sort_reverse),
    {
        sort_processes(procs, self.process_sort, self.sort_reverse)
    }

    /// Applies a key press: `q` or Esc quits (the result is `true`); `?`
    /// toggles help; Tab and Shift+Tab (or BackTab) move between tabs; the
    /// digits 1 to 6 select a tab; Up and Down scroll; `s` cycles the sort
    /// column and `r` reverses the order. Other keys change nothing.
    pub fn handle_key(&mut self, key: KeyInput) -> (quit: bool)
        ensures
            quit == (key == KeyInput::Char('q') || key == KeyInput::Esc),
            final(self).active_tab == (match key {
                KeyInput::Tab { shift } => if shift {
                    old(self).active_tab.spec_prev()
                } else {
                    old(self).active_tab.spec_next()
                },
                KeyInput::BackTab => old(self).active_tab.spec_prev(),
                KeyInput::Char(c) => if '1' as int <= c as int <= '6' as int {
                    tab_at(c as int - '1' as int)
                } else {
                    old(self).active_tab
                },
                _ => old(self).active_tab,
            }),
            final(self).scroll_offset == (match key {
                KeyInput::Tab { .. } => 0,
                KeyInput::BackTab => 0,
                KeyInput::Char(c) => if '1' as int <= c as int <= '6' as int {
                    0
                } else {
                    old(self).scroll_offset as int
                },
                KeyInput::Up => if old(self).scroll_offset > 0 {
                    old(self).scroll_offset - 1
                } else {
                    0
                },
                KeyInput::Down => if old(self).scroll_offset < u16::MAX {
                    old(self).scroll_offset + 1
                } else {
                    u16::MAX as int
                },
                _ => old(self).scroll_offset as int,
            }),
            final(self).show_help == (if key == KeyInput::Char('?') {
                !old(self).show_help
            } else {
                old(self).show_help
            }),
            final(self).process_sort == (if key == KeyInput::Char('s') {
                old(self).process_sort.spec_next()
            } else {
                old(self).process_sort
            }),
            final(self).sort_reverse == (if key == KeyInput::Char('r') {
                !old(self).sort_reverse
            } else {
                old(self).sort_reverse
            }),
            final(self).refresh_ms == old(self).refresh_ms,
    {
        match key {
            KeyInput::Char(c) => {
                if c == 'q' {
                    return true;
                } else if c == '?' {
                    self.show_help = !self.show_help;
                } else if c == 's' {
                    self.cycle_sort();
                } else if c == 'r' {
                    self.toggle_sort_order();
                } else {
                    match Tab::from_key(c) {
                        Some(tab) => self.select_tab(tab),
                        None => {},
                    }
                }
                false
            },
            KeyInput::Esc => true,
            KeyInput::Tab { shift } => {
                if shift {
                    self.prev_tab();
                } else {
                    self.next_tab();
                }
                false
            },
            KeyInput::BackTab => {
                self.prev_tab();
                false
            },
            KeyInput::Up => {
                self.scroll_up();
                false
            },
            KeyInput::Down => {
                self.scroll_down();
                false
            },
            KeyInput::Other => false,
        }
    }
}

/// Whether the host runs AGNOS: some agent is known, or the `daimon`
/// service is running.
pub open spec fn spec_is_agnos(agents_total: usize, services: Seq<ServiceStatus>) -> bool {
    agents_total > 0 || exists|i: int|
        0 <= i < services.len() && (#[trigger] services[i]).name@ == "daimon"@ && services[i].state
            == ServiceState::Running
}

/// Whether the host runs AGNOS: some agent is known, or the `daimon`
/// service is running.
pub fn is_agnos(agents_total: usize, services: &[ServiceStatus]) -> (b: bool)
    ensures
        b == spec_is_agnos(agents_total, services@),
{
    if agents_total > 0 {
        return true;
    }
    let mut i: usize = 0;
    while i < services.len()
        invariant
            i <= services.len(),
            forall|k: int|
                0 <= k < i ==> !((#[trigger] services@[k]).name@ == "daimon"@ && services@[k].state
                    == ServiceState::Running),
        decreases services.len() - i,
    {
        let s = &services[i];
        let name = crate::text::chars_of(s.name.as_str());
        if crate::text::chars_eq_str(name.as_slice(), "daimon") && s.state == ServiceState::Running {
            return true;
        }
        i = i + 1;
    }
    false
}

// ---------------------------------------------------------------------------
// Laws
// ---------------------------------------------------------------------------

/// Going to the next tab and back returns to the same tab, and so does
/// going back and then forward.
pub proof fn lemma_tab_next_prev(t: Tab)
    ensures
        t.spec_next().spec_prev() == t,
        t.spec_prev().spec_next() == t,
{
}

/// Six steps forward visit every tab and return to the start.
pub proof fn lemma_tab_cycle(t: Tab)
    ensures
        t.spec_next().spec_next().spec_next().spec_next().spec_next().spec_next() == t,
{
}

/// The digit keys of the tabs are '1' to '6' in tab-bar order, so no two
/// tabs share a key.
pub proof fn lemma_tab_keys_distinct(a: Tab, b: Tab)
    ensures
        a.position() == b.position() ==> a == b,
        0 <= a.position() < TAB_COUNT,
{
}

/// Four steps through the sort columns return to the start.
pub proof fn lemma_sort_cycle(s: ProcessSort)
    ensures
        s.spec_next().spec_next().spec_next().spec_next() == s,
        s.spec_next() != s,
{
}

} // verus!
