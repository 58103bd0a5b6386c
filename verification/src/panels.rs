//! The integer decisions of the terminal dashboard: which layout a frame
//! gets, where the help popup and the per-core gauges go, how many network
//! interfaces are listed, and the short labels the panels print.
use crate::alerts::AlertSeverity;
use crate::text::{decimal, decimal_string};
use crate::tui::ProcessSort;
use vstd::prelude::*;
use vstd::string::*;

verus! {

/// A rectangle of terminal cells.
#[derive(Debug, Clone, Copy, PartialEq, Eq, Structural)]
pub struct PanelRect {
    pub x: u16,
    pub y: u16,
    pub width: u16,
    pub height: u16,
}

impl PanelRect {
    /// The rectangle lies within the terminal's coordinate range.
    pub open spec fn fits(self) -> bool {
        self.x + self.width <= u16::MAX && self.y + self.height <= u16::MAX
    }
}

/// How a frame's main area is laid out.
#[derive(Debug, Clone, Copy, PartialEq, Eq, Structural)]
pub enum FrameLayout {
    /// No snapshot yet: a waiting message.
    Waiting,
    /// Fewer than ten rows: CPU and memory side by side.
    Minimal,
    /// An AGNOS host: services and agents beside disk and network.
    Agnos,
    /// Any other host: disk and network, and GPU and temperatures when
    /// there are any.
    Standard,
}

/// The layout of a frame whose main area is `main_height` rows high.
pub open spec fn frame_layout_spec(has_snapshot: bool, main_height: u16, is_agnos: bool) -> FrameLayout {
    if !has_snapshot {
        FrameLayout::Waiting
    } else if main_height < 10 {
        FrameLayout::Minimal
    } else if is_agnos {
        FrameLayout::Agnos
    } else {
        FrameLayout::Standard
    }
}

/// The layout of a frame whose main area is `main_height` rows high.
pub fn choose_layout(has_snapshot: bool, main_height: u16, is_agnos: bool) -> (l: FrameLayout)
    ensures
        l == frame_layout_spec(has_snapshot, main_height, is_agnos),
{
    if !has_snapshot {
        FrameLayout::Waiting
    } else if main_height < 10 {
        FrameLayout::Minimal
    } else if is_agnos {
        FrameLayout::Agnos
    } else {
        FrameLayout::Standard
    }
}

/// Rows of the standard layout's GPU and temperature band: six when there
/// is anything to show in it, none otherwise.
pub fn gpu_band_height(has_gpu: bool, has_temps: bool) -> (h: u16)
    ensures
        h == (if has_gpu || has_temps {
            6u16
        } else {
            0u16
        }),
{
    if has_gpu || has_temps {
        6
    } else {
        0
    }
}

/// The key bindings listed in the help popup.
pub open spec fn help_entries_spec() -> Seq<(Seq<char>, Seq<char>)> {
    seq![
        ("q / Esc"@, "Quit"@),
        ("Tab"@, "Next tab"@),
        ("Shift+Tab"@, "Previous tab"@),
        ("1-6"@, "Jump to tab"@),
        ("Up/Down"@, "Scroll active panel"@),
        ("s"@, "Cycle process sort (CPU/Mem/PID/Name)"@),
        ("r"@, "Reverse sort order"@),
        ("?"@, "Toggle this help"@),
    ]
}

/// The key bindings listed in the help popup.
pub fn help_entries() -> (v: Vec<(&'static str, &'static str)>)
    ensures
        v@.map_values(|e: (&str, &str)| (e.0@, e.1@)) == help_entries_spec(),
{
    let v = vec![
        ("q / Esc", "Quit"),
        ("Tab", "Next tab"),
        ("Shift+Tab", "Previous tab"),
        ("1-6", "Jump to tab"),
        ("Up/Down", "Scroll active panel"),
        ("s", "Cycle process sort (CPU/Mem/PID/Name)"),
        ("r", "Reverse sort order"),
        ("?", "Toggle this help"),
    ];
    assert(v@.map_values(|e: (&str, &str)| (e.0@, e.1@)) =~= help_entries_spec());
    v
}

/// `a - b`, or 0 when `b` is larger.
pub open spec fn sat_sub16(a: u16, b: u16) -> u16 {
    if a >= b {
        (a - b) as u16
    } else {
        0
    }
}

/// Where the help popup goes in `area`: at most 50 columns wide and two
/// rows taller than its entries plus borders, leaving a margin of 4 columns
/// and 2 rows, centred.
pub open spec fn help_popup_spec(area: PanelRect) -> PanelRect {
    let width = if 50 <= sat_sub16(area.width, 4) {
        50u16
    } else {
        sat_sub16(area.width, 4)
    };
    let height = if 12 <= sat_sub16(area.height, 2) {
        12u16
    } else {
        sat_sub16(area.height, 2)
    };
    PanelRect {
        x: (area.x + (area.width - width) / 2) as u16,
        y: (area.y + (area.height - height) / 2) as u16,
        width,
        height,
    }
}

/// Where the help popup goes in `area`.
pub fn help_popup(area: PanelRect) -> (r: PanelRect)
    requires
        area.fits(),
    ensures
        r == help_popup_spec(area),
        r.fits(),
        r.x >= area.x && r.x + r.width <= area.x + area.width,
        r.y >= area.y && r.y + r.height <= area.y + area.height,
{
    let entries = help_entries();
    let n = entries.len() as u16;
    assert(n == 8) by {
        assert(entries@.map_values(|e: (&str, &str)| (e.0@, e.1@)).len() == 8);
    }
    let width = if 50 <= area.width.saturating_sub(4) {
        50
    } else {
        area.width.saturating_sub(4)
    };
    let height = if n + 4 <= area.height.saturating_sub(2) {
        n + 4
    } else {
        area.height.saturating_sub(2)
    };
    let x = area.x + (area.width - width) / 2;
    let y = area.y + (area.height - height) / 2;
    PanelRect { x, y, width, height }
}

/// Rows of per-core gauges for `n` cores: one per eight cores, at most
/// three, none without cores.
pub open spec fn core_rows_spec(n: nat) -> u16 {
    if n == 0 {
        0
    } else if (n + 7) / 8 >= 3 {
        3
    } else {
        ((n + 7) / 8) as u16
    }
}

/// Rows of per-core gauges for `n` cores.
pub fn core_rows(n: usize) -> (r: u16)
    ensures
        r == core_rows_spec(n as nat),
{
    if n == 0 {
        0
    } else {
        let rows = n / 8 + (if n % 8 == 0 {
            0
        } else {
            1
        });
        assert(rows == (n as nat + 7) / 8);
        if rows >= 3 {
            3
        } else {
            rows as u16
        }
    }
}

/// Whether the CPU panel has room for the core gauges below its gauge and
/// sparkline.
pub fn cpu_panel_shows_cores(inner_height: u16, core_rows: u16) -> (b: bool)
    ensures
        b == (inner_height > 3 + core_rows),
{
    (inner_height as u32) > 3 + (core_rows as u32)
}

/// Where core `i`'s gauge goes in `area`: eight to a row, each an eighth of
/// the width and one row high; `None` once the rows run out.
pub open spec fn core_cell_spec(area: PanelRect, i: nat) -> Option<PanelRect> {
    let row = i / 8;
    let col = i % 8;
    let w = area.width / 8;
    if row >= area.height {
        None
    } else {
        Some(
            PanelRect {
                x: (area.x + col * w) as u16,
                y: (area.y + row) as u16,
                width: w as u16,
                height: 1,
            },
        )
    }
}

/// Where core `i`'s gauge goes in `area`.
pub fn core_cell(area: PanelRect, i: usize) -> (r: Option<PanelRect>)
    requires
        area.fits(),
    ensures
        r == core_cell_spec(area, i as nat),
{
    let row = i / 8;
    let col = i % 8;
    let w = area.width / 8;
    if row >= area.height as usize {
        None
    } else {
        assert(col * w <= 7 * w) by (nonlinear_arith)
            requires
                col <= 7,
        ;
        assert(7 * w <= area.width);
        let x = area.x + (col as u16) * w;
        let y = area.y + row as u16;
        Some(PanelRect { x, y, width: w, height: 1 })
    }
}

/// How many of the names are not `lo`.
pub open spec fn count_non_loopback(names: Seq<Seq<char>>) -> nat
    decreases names.len(),
{
    if names.len() == 0 {
        0
    } else {
        count_non_loopback(names.drop_last()) + (if names.last() != "lo"@ {
            1nat
        } else {
            0nat
        })
    }
}

/// How many network interfaces other than `lo` are listed: at most four.
pub open spec fn shown_interfaces_spec(names: Seq<Seq<char>>) -> nat {
    let n = count_non_loopback(names);
    if n > 4 {
        4
    } else {
        n
    }
}

/// How many network interfaces other than `lo` are listed.
pub fn shown_interface_count(names: &Vec<String>) -> (n: u16)
    ensures
        n == shown_interfaces_spec(names@.map_values(|s: String| s@)),
{
    let ghost views = names@.map_values(|s: String| s@);
    let mut count: usize = 0;
    let mut i: usize = 0;
    while i < names.len()
        invariant
            i <= names@.len(),
            views == names@.map_values(|s: String| s@),
            count == count_non_loopback(views.take(i as int)),
            count <= i,
        decreases names@.len() - i,
    {
        proof {
            assert(views.take(i + 1).drop_last() =~= views.take(i as int));
            assert(views[i as int] == names@[i as int]@);
        }
        if !crate::text::str_eq(names[i].as_str(), "lo") {
            count = count + 1;
        }
        i = i + 1;
    }
    assert(views.take(names@.len() as int) =~= views);
    if count > 4 {
        4
    } else {
        count as u16
    }
}

/// The state of an interface as the network panel prints it.
pub fn interface_status(is_up: bool) -> (s: &'static str)
    ensures
        s@ == (if is_up {
            "UP"@
        } else {
            "DN"@
        }),
{
    if is_up {
        "UP"
    } else {
        "DN"
    }
}

/// The error counts the network panel appends for an interface: nothing
/// when there are none.
pub fn interface_error_suffix(rx_errors: u64, tx_errors: u64) -> (s: String)
    ensures
        s@ == (if rx_errors > 0 || tx_errors > 0 {
            " err:rx="@ + decimal(rx_errors as nat) + " tx="@ + decimal(tx_errors as nat)
        } else {
            seq![]
        }),
{
    if rx_errors > 0 || tx_errors > 0 {
        let mut s = String::from_str(" err:rx=");
        let r = decimal_string(rx_errors);
        s.append(r.as_str());
        s.append(" tx=");
        let t = decimal_string(tx_errors);
        s.append(t.as_str());
        s
    } else {
        String::new()
    }
}

/// An uptime in whole hours and the minutes beyond them.
pub fn uptime_hours_minutes(secs: u64) -> (hm: (u64, u64))
    ensures
        hm.0 == secs / 3600,
        hm.1 == (secs % 3600) / 60,
        hm.1 < 60,
        hm.0 * 3600 + hm.1 * 60 <= secs < hm.0 * 3600 + hm.1 * 60 + 60,
{
    (secs / 3600, (secs % 3600) / 60)
}

/// `n` divided by `d`, rounded toward zero (Rust's `/` on signed numbers).
pub open spec fn div_trunc(n: int, d: int) -> int {
    if n >= 0 {
        n / d
    } else {
        -((-n) / d)
    }
}

/// A signed number in decimal notation.
pub open spec fn signed_decimal(n: int) -> Seq<char> {
    if n >= 0 {
        decimal(n as nat)
    } else {
        seq!['-'] + decimal((-n) as nat)
    }
}

/// How long ago an alert was raised, from its age in seconds: whole hours
/// when there is at least one, else whole minutes when there is at least
/// one, else seconds.
pub open spec fn age_label_spec(secs: int) -> Seq<char> {
    if div_trunc(secs, 3600) > 0 {
        signed_decimal(div_trunc(secs, 3600)) + "h ago"@
    } else if div_trunc(secs, 60) > 0 {
        signed_decimal(div_trunc(secs, 60)) + "m ago"@
    } else {
        signed_decimal(secs) + "s ago"@
    }
}

fn signed_decimal_string(n: i64) -> (s: String)
    ensures
        s@ == signed_decimal(n as int),
{
    if n >= 0 {
        decimal_string(n as u64)
    } else {
        let m: u64 = if n == i64::MIN {
            9223372036854775808u64
        } else {
            (-n) as u64
        };
        let mut s = String::from_str("-");
        let d = decimal_string(m);
        s.append(d.as_str());
        proof {
            reveal_strlit("-");
            assert(m as int == -(n as int));
            assert(s@ =~= seq!['-'] + decimal((-(n as int)) as nat));
        }
        s
    }
}

/// How long ago an alert was raised.
pub fn age_label(secs: i64) -> (s: String)
    ensures
        s@ == age_label_spec(secs as int),
{
    if secs >= 3600 {
        let mut s = signed_decimal_string(secs / 3600);
        s.append("h ago");
        s
    } else if secs >= 60 {
        assert(div_trunc(secs as int, 3600) <= 0);
        let mut s = signed_decimal_string(secs / 60);
        s.append("m ago");
        s
    } else {
        assert(div_trunc(secs as int, 3600) <= 0);
        assert(div_trunc(secs as int, 60) <= 0);
        let mut s = signed_decimal_string(secs);
        s.append("s ago");
        s
    }
}

/// The tag the alerts panel prints for a severity.
pub fn severity_tag(sev: AlertSeverity) -> (s: &'static str)
    ensures
        s@ == (match sev {
            AlertSeverity::Critical => "CRIT"@,
            AlertSeverity::Warning => "WARN"@,
            AlertSeverity::Info => "INFO"@,
        }),
{
    match sev {
        AlertSeverity::Critical => "CRIT",
        AlertSeverity::Warning => "WARN",
        AlertSeverity::Info => "INFO",
    }
}

/// The column headers of the process table.
pub open spec fn process_columns() -> Seq<Seq<char>> {
    seq!["PID"@, "Name"@, "CPU%"@, "Memory"@, "Mem%"@, "St"@, "Thr"@]
}

/// The column a sort order orders by.
pub open spec fn sort_column(sort: ProcessSort) -> int {
    match sort {
        ProcessSort::Pid => 0,
        ProcessSort::Name => 1,
        ProcessSort::Cpu => 2,
        ProcessSort::Memory => 3,
    }
}

/// Header `i` of the process table: the sorted column carries `v` when
/// the order is reversed and `^` otherwise.
pub open spec fn process_header_spec(i: int, sort: ProcessSort, reverse: bool) -> Seq<char> {
    if i == sort_column(sort) {
        process_columns()[i] + (if reverse {
            "v"@
        } else {
            "^"@
        })
    } else {
        process_columns()[i]
    }
}

/// Header `i` of the process table.
pub fn process_header(i: usize, sort: ProcessSort, reverse: bool) -> (s: String)
    requires
        i < 7,
    ensures
        s@ == process_header_spec(i as int, sort, reverse),
{
    let names = ["PID", "Name", "CPU%", "Memory", "Mem%", "St", "Thr"];
    let col: usize = match sort {
        ProcessSort::Pid => 0,
        ProcessSort::Name => 1,
        ProcessSort::Cpu => 2,
        ProcessSort::Memory => 3,
    };
    let mut s = String::from_str(names[i]);
    assert(names@.map_values(|n: &str| n@) =~= process_columns());
    assert(names@[i as int]@ == process_columns()[i as int]);
    if i == col {
        if reverse {
            s.append("v");
        } else {
            s.append("^");
        }
    }
    s
}

} // verus!
