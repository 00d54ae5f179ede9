//! The dashboard's state: which tab shows, whether sampling is paused, the
//! selected process, the Wi-Fi polling schedule, the interface counters of the
//! last sample, and the network and process tables.

use vstd::prelude::*;

use crate::netsh::{get_interface_drops_windows, WifiStats};
use crate::order::{
    f32_key, f32_order_key, is_nan_bits, lemma_sort_by_rank_descending, lemma_sort_by_rank_permutes,
    lemma_sort_by_rank_stable, sort_by_rank, sort_by_rank_desc, Ranked,
};

verus! {

/// Number of tabs.
pub const TAB_COUNT: usize = 6;

/// Number of samples a history keeps.
pub const HISTORY_LEN: usize = 120;

/// Number of rows the process table keeps.
pub const TOP_PROCESS_COUNT: usize = 25;

/// Time between Wi-Fi polls once figures have been read, in nanoseconds.
pub const WIFI_POLL_INTERVAL_NANOS: u64 = 15_000_000_000;

/// Time between Wi-Fi polls while no figures have been read, in nanoseconds.
pub const WIFI_WARMUP_INTERVAL_NANOS: u64 = 2_000_000_000;

/// The last `HISTORY_LEN` samples of a series, oldest first.
pub struct History<T> {
    samples: Vec<T>,
}

/// A series after one more sample: the sample is appended, and the oldest
/// sample is dropped where that makes the series longer than `HISTORY_LEN`.
pub open spec fn history_push<T>(s: Seq<T>, x: T) -> Seq<T> {
    if s.push(x).len() > HISTORY_LEN {
        s.push(x).drop_first()
    } else {
        s.push(x)
    }
}

/// A series after the samples `xs`, one after the other.
pub open spec fn history_push_all<T>(s: Seq<T>, xs: Seq<T>) -> Seq<T>
    decreases xs.len(),
{
    if xs.len() == 0 {
        s
    } else {
        history_push(history_push_all(s, xs.drop_last()), xs.last())
    }
}

impl<T> View for History<T> {
    type V = Seq<T>;

    closed spec fn view(&self) -> Seq<T> {
        self.samples@
    }
}

impl<T> History<T> {
    #[verifier::type_invariant]
    spec fn bounded(&self) -> bool {
        self.samples.len() <= HISTORY_LEN
    }

    /// An empty series.
    pub fn new() -> (h: Self)
        ensures
            h@ == Seq::<T>::empty(),
    {
        History { samples: Vec::new() }
    }

    /// Appends a sample, dropping the oldest one where the series would grow
    /// beyond `HISTORY_LEN`.
    pub fn push(&mut self, x: T)
        ensures
            final(self)@ == history_push(old(self)@, x),
            final(self)@.len() <= HISTORY_LEN,
    {
        proof {
            use_type_invariant(&*self);
        }
        let ghost s = self.samples@;
        let mut v: Vec<T> = Vec::new();
        std::mem::swap(&mut v, &mut self.samples);
        if v.len() >= HISTORY_LEN {
            v.remove(0);
        }
        v.push(x);
        assert(v@ =~= history_push(s, x));
        self.samples = v;
    }

    /// The samples, oldest first.
    pub fn samples(&self) -> (s: &[T])
        ensures
            s@ == self@,
            s@.len() <= HISTORY_LEN,
    {
        proof {
            use_type_invariant(self);
        }
        self.samples.as_slice()
    }
}

/// A history never holds more than `HISTORY_LEN` samples, and after the
/// samples `xs` it holds the last `HISTORY_LEN` of what it held and `xs`, in
/// order.
pub proof fn lemma_history_keeps_latest<T>(s: Seq<T>, xs: Seq<T>)
    requires
        s.len() <= HISTORY_LEN,
    ensures
        history_push_all(s, xs).len() <= HISTORY_LEN,
        history_push_all(s, xs) == (s + xs).skip(
            if (s + xs).len() > HISTORY_LEN {
                (s + xs).len() - HISTORY_LEN
            } else {
                0
            },
        ),
    decreases xs.len(),
{
    if xs.len() > 0 {
        lemma_history_keeps_latest(s, xs.drop_last());
        assert((s + xs).drop_last() =~= s + xs.drop_last());
        let a = s + xs.drop_last();
        let k: int = if a.len() > HISTORY_LEN {
            a.len() - HISTORY_LEN
        } else {
            0
        };
        let t = a.skip(k);
        assert(s + xs =~= a.push(xs.last()));
        if t.push(xs.last()).len() > HISTORY_LEN {
            assert(t.push(xs.last()).drop_first() =~= (s + xs).skip(k + 1));
        } else {
            assert(t.push(xs.last()) =~= (s + xs).skip(k));
        }
    }
}

/// Traffic counters of one network interface in one sample.
#[derive(Debug)]
pub struct InterfaceSample {
    pub name: String,
    pub total_in: u64,
    pub total_out: u64,
    pub errors_in: u64,
    pub errors_out: u64,
}

/// A row of the network table.
#[derive(Debug)]
pub struct NetworkRow {
    pub iface: String,
    pub down_rate: u64,
    pub up_rate: u64,
    pub total_in: u64,
    pub total_out: u64,
    pub errors_in: u64,
    pub errors_out: u64,
    pub drops: u64,
}

impl Ranked for NetworkRow {
    /// Total throughput.
    open spec fn rank_of(&self) -> int {
        self.down_rate + self.up_rate
    }

    fn rank(&self) -> (r: u128) {
        self.down_rate as u128 + self.up_rate as u128
    }
}

/// A row of the process table; the CPU usage is given by the bits of its
/// 32-bit float.
#[derive(Debug)]
pub struct ProcessRow {
    pub pid: u32,
    pub name: String,
    pub cpu_bits: u32,
    pub memory: u64,
}

impl Ranked for ProcessRow {
    /// Place of the CPU usage in the order of floats.
    open spec fn rank_of(&self) -> int {
        f32_order_key(self.cpu_bits)
    }

    fn rank(&self) -> (r: u128) {
        f32_key(self.cpu_bits) as u128
    }
}

/// Counters of an interface as last sampled, with the sampling time.
struct Counters {
    name: String,
    total_in: u64,
    total_out: u64,
    at: u64,
}

spec fn counters_map(s: Seq<Counters>) -> Map<Seq<char>, (u64, u64, u64)>
    decreases s.len(),
{
    if s.len() == 0 {
        Map::empty()
    } else {
        counters_map(s.drop_last()).insert(
            s.last().name@,
            (s.last().total_in, s.last().total_out, s.last().at),
        )
    }
}

spec fn distinct_names(s: Seq<Counters>) -> bool {
    forall|i: int, j: int| 0 <= i < j < s.len() ==> s[i].name@ != s[j].name@
}

proof fn lemma_counters_map_index(s: Seq<Counters>, i: int)
    requires
        distinct_names(s),
        0 <= i < s.len(),
    ensures
        counters_map(s).dom().contains(s[i].name@),
        counters_map(s)[s[i].name@] == (s[i].total_in, s[i].total_out, s[i].at),
    decreases s.len(),
{
    if i < s.len() - 1 {
        lemma_counters_map_index(s.drop_last(), i);
    }
}

proof fn lemma_counters_map_absent(s: Seq<Counters>, k: Seq<char>)
    requires
        forall|i: int| 0 <= i < s.len() ==> s[i].name@ != k,
    ensures
        !counters_map(s).dom().contains(k),
    decreases s.len(),
{
    if s.len() > 0 {
        lemma_counters_map_absent(s.drop_last(), k);
    }
}

proof fn lemma_counters_map_update(s: Seq<Counters>, i: int, c: Counters)
    requires
        distinct_names(s),
        0 <= i < s.len(),
        s[i].name@ == c.name@,
    ensures
        counters_map(s.update(i, c)) == counters_map(s).insert(
            c.name@,
            (c.total_in, c.total_out, c.at),
        ),
    decreases s.len(),
{
    let u = s.update(i, c);
    if i == s.len() - 1 {
        assert(u.drop_last() =~= s.drop_last());
        lemma_counters_map_absent(s.drop_last(), c.name@);
        assert(counters_map(u) =~= counters_map(s).insert(c.name@, (c.total_in, c.total_out, c.at)));
    } else {
        lemma_counters_map_update(s.drop_last(), i, c);
        assert(u.drop_last() =~= s.drop_last().update(i, c));
        assert(counters_map(u) =~= counters_map(s).insert(c.name@, (c.total_in, c.total_out, c.at)));
    }
}

/// What a rate needs: how much each counter grew, and over how long.
#[derive(Debug, Clone, Copy)]
pub struct RateInput {
    pub delta_in: u64,
    pub delta_out: u64,
    pub elapsed_nanos: u64,
}

/// Whether an interface gets rates: it was sampled before, and time has
/// passed since.
pub open spec fn rate_applies(prev: Map<Seq<char>, (u64, u64, u64)>, now: u64, name: Seq<char>) -> bool {
    prev.dom().contains(name) && now > prev[name].2
}

/// Whether the counters of a sample that gets rates have not gone down.
pub open spec fn counters_not_decreasing(
    prev: Map<Seq<char>, (u64, u64, u64)>,
    now: u64,
    sample: InterfaceSample,
) -> bool {
    rate_applies(prev, now, sample.name@) ==> sample.total_in >= prev[sample.name@].0
        && sample.total_out >= prev[sample.name@].1
}

/// Whether Wi-Fi figures are to be read again at time `now` (in nanoseconds):
/// always before the first poll, otherwise once the time since the last poll
/// (0 where the clock went back) reaches the poll interval, which is the short
/// warm-up interval while no figures have been read.
pub open spec fn wifi_poll_due_at(last: Option<u64>, have_stats: bool, now: u64) -> bool {
    match last {
        None => true,
        Some(l) => (if now > l {
            now - l
        } else {
            0
        }) >= (if have_stats {
            WIFI_POLL_INTERVAL_NANOS
        } else {
            WIFI_WARMUP_INTERVAL_NANOS
        }),
    }
}

/// A request to end a process: with a terminate signal, or killed where `force`.
#[derive(Debug, Clone, Copy, PartialEq, Eq, Structural)]
pub struct KillRequest {
    pub pid: u32,
    pub force: bool,
}

/// A key press the dashboard reacts to.
#[derive(Debug, Clone, Copy, PartialEq, Eq, Structural)]
pub enum Key {
    Char(char),
    Esc,
    Left,
    Right,
    Up,
    Down,
    Other,
}

/// What the event loop does after a key press.
#[derive(Debug, Clone, Copy, PartialEq, Eq, Structural)]
pub enum Action {
    Quit,
    Refresh,
    Kill(KillRequest),
    Nothing,
}

/// The interactive state of the dashboard and its tables.
pub struct AppState {
    active_tab: usize,
    paused: bool,
    selected: Option<usize>,
    wifi_stats: Option<WifiStats>,
    last_wifi_poll: Option<u64>,
    counters: Vec<Counters>,
    network_rows: Vec<NetworkRow>,
    process_rows: Vec<ProcessRow>,
}

/// The tab after `tab`, wrapping around.
pub open spec fn next_tab_of(tab: int) -> int {
    (tab + 1) % (TAB_COUNT as int)
}

/// The tab before `tab`, wrapping around.
pub open spec fn prev_tab_of(tab: int) -> int {
    if tab == 0 {
        TAB_COUNT - 1
    } else {
        tab - 1
    }
}

/// The selection after moving down a table of `len` rows, wrapping around.
pub open spec fn select_next_of(selected: Option<usize>, len: int) -> Option<usize> {
    if len == 0 {
        selected
    } else {
        Some(
            match selected {
                Some(i) => if i >= len - 1 {
                    0
                } else {
                    (i + 1) as usize
                },
                None => 0,
            },
        )
    }
}

/// The selection after moving up a table of `len` rows, wrapping around.
pub open spec fn select_prev_of(selected: Option<usize>, len: int) -> Option<usize> {
    if len == 0 {
        selected
    } else {
        Some(
            match selected {
                Some(i) => if i == 0 {
                    (len - 1) as usize
                } else {
                    (i - 1) as usize
                },
                None => 0,
            },
        )
    }
}

impl AppState {
    #[verifier::type_invariant]
    spec fn well_formed(&self) -> bool {
        &&& self.active_tab < TAB_COUNT
        &&& distinct_names(self.counters@)
    }

    /// The tab shown.
    pub closed spec fn tab(&self) -> int {
        self.active_tab as int
    }

    /// Whether sampling is paused.
    pub closed spec fn is_paused(&self) -> bool {
        self.paused
    }

    /// The selected row of the process table.
    pub closed spec fn selection(&self) -> Option<usize> {
        self.selected
    }

    /// The Wi-Fi figures of the last poll.
    pub closed spec fn wifi(&self) -> Option<WifiStats> {
        self.wifi_stats
    }

    /// When Wi-Fi figures were last polled.
    pub closed spec fn last_poll(&self) -> Option<u64> {
        self.last_wifi_poll
    }

    /// The counters and sampling time of each interface, by name.
    pub closed spec fn counters(&self) -> Map<Seq<char>, (u64, u64, u64)> {
        counters_map(self.counters@)
    }

    /// The network table.
    pub closed spec fn network_table(&self) -> Seq<NetworkRow> {
        self.network_rows@
    }

    /// The process table.
    pub closed spec fn process_table(&self) -> Seq<ProcessRow> {
        self.process_rows@
    }

    /// The process in the selected row, where a row is selected that the
    /// table has.
    pub open spec fn kill_target(&self, force: bool) -> Option<KillRequest> {
        match self.selection() {
            Some(i) => if i < self.process_table().len() {
                Some(KillRequest { pid: self.process_table()[i as int].pid, force })
            } else {
                None
            },
            None => None,
        }
    }

    /// Whether everything is as in `other`.
    pub open spec fn same_state(&self, other: &AppState) -> bool {
        &&& self.tab() == other.tab()
        &&& self.is_paused() == other.is_paused()
        &&& self.selection() == other.selection()
        &&& self.same_data(other)
    }

    /// Whether everything but the tab, pause flag and selection is as in `other`.
    pub open spec fn same_data(&self, other: &AppState) -> bool {
        &&& self.wifi() == other.wifi()
        &&& self.last_poll() == other.last_poll()
        &&& self.counters() == other.counters()
        &&& self.network_table() == other.network_table()
        &&& self.process_table() == other.process_table()
    }

    /// The state at start-up: first tab, sampling on, first process row
    /// selected, nothing sampled or polled yet.
    pub fn new() -> (s: Self)
        ensures
            s.tab() == 0,
            !s.is_paused(),
            s.selection() == Some(0usize),
            s.wifi().is_none(),
            s.last_poll().is_none(),
            s.counters() == Map::<Seq<char>, (u64, u64, u64)>::empty(),
            s.network_table().len() == 0,
            s.process_table().len() == 0,
    {
        AppState {
            active_tab: 0,
            paused: false,
            selected: Some(0),
            wifi_stats: None,
            last_wifi_poll: None,
            counters: Vec::new(),
            network_rows: Vec::new(),
            process_rows: Vec::new(),
        }
    }

    /// The tab shown.
    pub fn active_tab(&self) -> (t: usize)
        ensures
            t == self.tab(),
            t < TAB_COUNT,
    {
        proof {
            use_type_invariant(self);
        }
        self.active_tab
    }

    /// Whether sampling is paused.
    pub fn paused(&self) -> (p: bool)
        ensures
            p == self.is_paused(),
    {
        self.paused
    }

    /// The selected row of the process table.
    pub fn selected(&self) -> (s: Option<usize>)
        ensures
            s == self.selection(),
    {
        self.selected
    }

    /// The Wi-Fi figures of the last poll.
    pub fn wifi_stats(&self) -> (w: &Option<WifiStats>)
        ensures
            *w == self.wifi(),
    {
        &self.wifi_stats
    }

    /// The network table, highest throughput first.
    pub fn network_rows(&self) -> (rows: &Vec<NetworkRow>)
        ensures
            rows@ == self.network_table(),
    {
        &self.network_rows
    }

    /// The process table, highest CPU usage first.
    pub fn process_rows(&self) -> (rows: &Vec<ProcessRow>)
        ensures
            rows@ == self.process_table(),
    {
        &self.process_rows
    }

    /// Shows the next tab, after the last the first.
    pub fn next_tab(&mut self)
        ensures
            final(self).tab() == next_tab_of(old(self).tab()),
            final(self).is_paused() == old(self).is_paused(),
            final(self).selection() == old(self).selection(),
            final(self).same_data(&*old(self)),
    {
        proof {
            use_type_invariant(&*self);
        }
        self.active_tab = (self.active_tab + 1) % TAB_COUNT;
    }

    /// Shows the previous tab, before the first the last.
    pub fn prev_tab(&mut self)
        ensures
            final(self).tab() == prev_tab_of(old(self).tab()),
            final(self).is_paused() == old(self).is_paused(),
            final(self).selection() == old(self).selection(),
            final(self).same_data(&*old(self)),
    {
        proof {
            use_type_invariant(&*self);
        }
        self.active_tab = if self.active_tab == 0 {
            TAB_COUNT - 1
        } else {
            self.active_tab - 1
        };
    }

    /// Moves the selection one process row down, from the last row to the
    /// first; nothing changes while the table is empty.
    pub fn select_next_process(&mut self)
        ensures
            final(self).selection() == select_next_of(
                old(self).selection(),
                old(self).process_table().len() as int,
            ),
            final(self).tab() == old(self).tab(),
            final(self).is_paused() == old(self).is_paused(),
            final(self).same_data(&*old(self)),
    {
        proof {
            use_type_invariant(&*self);
        }
        if self.process_rows.len() == 0 {
            return ;
        }
        let i: usize = match self.selected {
            Some(i) => if i >= self.process_rows.len() - 1 {
                0
            } else {
                i + 1
            },
            None => 0,
        };
        self.selected = Some(i);
    }

    /// Moves the selection one process row up, from the first row to the
    /// last; nothing changes while the table is empty.
    pub fn select_prev_process(&mut self)
        ensures
            final(self).selection() == select_prev_of(
                old(self).selection(),
                old(self).process_table().len() as int,
            ),
            final(self).tab() == old(self).tab(),
            final(self).is_paused() == old(self).is_paused(),
            final(self).same_data(&*old(self)),
    {
        proof {
            use_type_invariant(&*self);
        }
        if self.process_rows.len() == 0 {
            return ;
        }
        let i: usize = match self.selected {
            Some(i) => if i == 0 {
                self.process_rows.len() - 1
            } else {
                i - 1
            },
            None => 0,
        };
        self.selected = Some(i);
    }

    /// Takes the selection that the process table was drawn with, which the
    /// drawing may have moved onto the table's last row.
    pub fn set_selection(&mut self, selected: Option<usize>)
        ensures
            final(self).selection() == selected,
            final(self).tab() == old(self).tab(),
            final(self).is_paused() == old(self).is_paused(),
            final(self).same_data(&*old(self)),
    {
        proof {
            use_type_invariant(&*self);
        }
        self.selected = selected;
    }

    /// The process to end: the one in the selected row, where a row is
    /// selected that the table has.
    pub fn kill_selected_process(&self, force: bool) -> (k: Option<KillRequest>)
        ensures
            k == self.kill_target(force),
    {
        match self.selected {
            Some(i) => {
                if i < self.process_rows.len() {
                    Some(KillRequest { pid: self.process_rows[i].pid, force })
                } else {
                    None
                }
            },
            None => None,
        }
    }
}

impl AppState {
    /// Turns sampling off when on, and on when off.
    pub fn toggle_pause(&mut self)
        ensures
            final(self).is_paused() == !old(self).is_paused(),
            final(self).tab() == old(self).tab(),
            final(self).selection() == old(self).selection(),
            final(self).same_data(&*old(self)),
    {
        proof {
            use_type_invariant(&*self);
        }
        self.paused = !self.paused;
    }

    /// Whether a timer tick samples again: unless sampling is paused.
    pub fn tick_refreshes(&self) -> (r: bool)
        ensures
            r == !self.is_paused(),
    {
        !self.paused
    }

    /// Reacts to a key press: `q` or Esc quits; space pauses or resumes
    /// sampling; `r` asks for a sample unless paused; `k` asks to terminate
    /// and `K` to kill the selected process; left and right switch tabs; up
    /// and down move the process selection. Other keys do nothing.
    pub fn handle_key(&mut self, key: Key) -> (a: Action)
        ensures
            (key == Key::Char('q') || key == Key::Esc) ==> a == Action::Quit && final(self).same_state(&*old(self)),
            key == Key::Char(' ') ==> a == Action::Nothing && final(self).is_paused()
                == !old(self).is_paused() && final(self).tab() == old(self).tab() && final(self).selection() == old(self).selection() && final(self).same_data(&*old(self)),
            key == Key::Char('r') ==> a == (if old(self).is_paused() {
                Action::Nothing
            } else {
                Action::Refresh
            }) && final(self).same_state(&*old(self)),
            key == Key::Char('k') ==> a == (match old(self).kill_target(false) {
                Some(k) => Action::Kill(k),
                None => Action::Nothing,
            }) && final(self).same_state(&*old(self)),
            key == Key::Char('K') ==> a == (match old(self).kill_target(true) {
                Some(k) => Action::Kill(k),
                None => Action::Nothing,
            }) && final(self).same_state(&*old(self)),
            key == Key::Left ==> a == Action::Nothing && final(self).tab() == prev_tab_of(
                old(self).tab(),
            ) && final(self).is_paused() == old(self).is_paused() && final(self).selection()
                == old(self).selection() && final(self).same_data(&*old(self)),
            key == Key::Right ==> a == Action::Nothing && final(self).tab() == next_tab_of(
                old(self).tab(),
            ) && final(self).is_paused() == old(self).is_paused() && final(self).selection()
                == old(self).selection() && final(self).same_data(&*old(self)),
            key == Key::Up ==> a == Action::Nothing && final(self).selection() == select_prev_of(
                old(self).selection(),
                old(self).process_table().len() as int,
            ) && final(self).tab() == old(self).tab() && final(self).is_paused() == old(self).is_paused() && final(self).same_data(&*old(self)),
            key == Key::Down ==> a == Action::Nothing && final(self).selection()
                == select_next_of(old(self).selection(), old(self).process_table().len() as int)
                && final(self).tab() == old(self).tab() && final(self).is_paused() == old(self).is_paused() && final(self).same_data(&*old(self)),
            (key == Key::Other || (key matches Key::Char(c) && c != 'q' && c != ' ' && c != 'r'
                && c != 'k' && c != 'K')) ==> a == Action::Nothing && final(self).same_state(
                &*old(self),
            ),
    {
        match key {
            Key::Char('q') | Key::Esc => Action::Quit,
            Key::Char(' ') => {
                self.toggle_pause();
                Action::Nothing
            },
            Key::Char('r') => {
                if self.paused {
                    Action::Nothing
                } else {
                    Action::Refresh
                }
            },
            Key::Char('k') => match self.kill_selected_process(false) {
                Some(k) => Action::Kill(k),
                None => Action::Nothing,
            },
            Key::Char('K') => match self.kill_selected_process(true) {
                Some(k) => Action::Kill(k),
                None => Action::Nothing,
            },
            Key::Left => {
                self.prev_tab();
                Action::Nothing
            },
            Key::Right => {
                self.next_tab();
                Action::Nothing
            },
            Key::Up => {
                self.select_prev_process();
                Action::Nothing
            },
            Key::Down => {
                self.select_next_process();
                Action::Nothing
            },
            _ => Action::Nothing,
        }
    }

    /// Whether Wi-Fi figures are to be read at time `now`, in nanoseconds on
    /// the clock that `record_wifi_poll` was given.
    pub fn wifi_poll_due(&self, now: u64) -> (due: bool)
        ensures
            due == wifi_poll_due_at(self.last_poll(), self.wifi().is_some(), now),
    {
        match self.last_wifi_poll {
            None => true,
            Some(last) => {
                let interval: u64 = if self.wifi_stats.is_none() {
                    WIFI_WARMUP_INTERVAL_NANOS
                } else {
                    WIFI_POLL_INTERVAL_NANOS
                };
                let elapsed: u64 = if now > last {
                    now - last
                } else {
                    0
                };
                elapsed >= interval
            },
        }
    }

    /// Keeps the figures of a Wi-Fi poll made at time `now`.
    pub fn record_wifi_poll(&mut self, now: u64, stats: Option<WifiStats>)
        ensures
            final(self).wifi() == stats,
            final(self).last_poll() == Some(now),
            final(self).tab() == old(self).tab(),
            final(self).is_paused() == old(self).is_paused(),
            final(self).selection() == old(self).selection(),
            final(self).counters() == old(self).counters(),
            final(self).network_table() == old(self).network_table(),
            final(self).process_table() == old(self).process_table(),
    {
        proof {
            use_type_invariant(&*self);
        }
        self.wifi_stats = stats;
        self.last_wifi_poll = Some(now);
    }

    /// The counters and sampling time last kept for the interface `name`.
    pub fn previous_counters(&self, name: &String) -> (r: Option<(u64, u64, u64)>)
        ensures
            r == (if self.counters().dom().contains(name@) {
                Some(self.counters()[name@])
            } else {
                None
            }),
    {
        proof {
            use_type_invariant(self);
        }
        let mut i: usize = 0;
        while i < self.counters.len()
            invariant
                i <= self.counters.len(),
                distinct_names(self.counters@),
                forall|j: int| 0 <= j < i ==> self.counters@[j].name@ != name@,
            decreases self.counters.len() - i,
        {
            if self.counters[i].name == *name {
                proof {
                    lemma_counters_map_index(self.counters@, i as int);
                }
                let c = &self.counters[i];
                return Some((c.total_in, c.total_out, c.at));
            }
            i = i + 1;
        }
        proof {
            lemma_counters_map_absent(self.counters@, name@);
        }
        None
    }

    /// What the rates of an interface sampled at time `now` are computed
    /// from: how much its counters grew since they were last kept, and the
    /// time that passed; none where it was not sampled before or no time
    /// passed.
    pub fn rate_input(&self, now: u64, sample: &InterfaceSample) -> (r: Option<RateInput>)
        requires
            counters_not_decreasing(self.counters(), now, *sample),
        ensures
            r == (if rate_applies(self.counters(), now, sample.name@) {
                let p = self.counters()[sample.name@];
                Some(
                    RateInput {
                        delta_in: (sample.total_in - p.0) as u64,
                        delta_out: (sample.total_out - p.1) as u64,
                        elapsed_nanos: (now - p.2) as u64,
                    },
                )
            } else {
                None
            }),
    {
        match self.previous_counters(&sample.name) {
            Some((prev_in, prev_out, prev_at)) => {
                if now > prev_at {
                    Some(
                        RateInput {
                            delta_in: sample.total_in - prev_in,
                            delta_out: sample.total_out - prev_out,
                            elapsed_nanos: now - prev_at,
                        },
                    )
                } else {
                    None
                }
            },
            None => None,
        }
    }

    /// Takes in the sample of an interface made at time `now`, with the rates
    /// computed from its [`rate_input`](AppState::rate_input): keeps its
    /// counters for the next sample and gives its table row, whose rates are
    /// 0 where the interface gets none.
    pub fn observe_interface(&mut self, now: u64, sample: InterfaceSample, rates: (u64, u64)) -> (row: NetworkRow)
        ensures
            final(self).counters() == old(self).counters().insert(
                sample.name@,
                (sample.total_in, sample.total_out, now),
            ),
            row.iface@ == sample.name@,
            row.down_rate == (if rate_applies(old(self).counters(), now, sample.name@) {
                rates.0
            } else {
                0
            }),
            row.up_rate == (if rate_applies(old(self).counters(), now, sample.name@) {
                rates.1
            } else {
                0
            }),
            row.total_in == sample.total_in,
            row.total_out == sample.total_out,
            row.errors_in == sample.errors_in,
            row.errors_out == sample.errors_out,
            row.drops == 0,
            final(self).tab() == old(self).tab(),
            final(self).is_paused() == old(self).is_paused(),
            final(self).selection() == old(self).selection(),
            final(self).wifi() == old(self).wifi(),
            final(self).last_poll() == old(self).last_poll(),
            final(self).network_table() == old(self).network_table(),
            final(self).process_table() == old(self).process_table(),
    {
        proof {
            use_type_invariant(&*self);
        }
        let applies: bool = match self.previous_counters(&sample.name) {
            Some((_, _, prev_at)) => now > prev_at,
            None => false,
        };
        let (down_rate, up_rate) = if applies {
            rates
        } else {
            (0, 0)
        };
        let drops = get_interface_drops_windows(sample.name.as_str());
        let kept = Counters {
            name: sample.name.clone(),
            total_in: sample.total_in,
            total_out: sample.total_out,
            at: now,
        };
        let ghost old_counters = self.counters@;
        let mut counters: Vec<Counters> = Vec::new();
        std::mem::swap(&mut counters, &mut self.counters);
        let mut i: usize = 0;
        while i < counters.len() && !(counters[i].name == sample.name)
            invariant
                i <= counters.len(),
                counters@ == old_counters,
                forall|j: int| 0 <= j < i ==> counters@[j].name@ != sample.name@,
            decreases counters.len() - i,
        {
            i = i + 1;
        }
        if i < counters.len() {
            assert(counters@[i as int].name@ == sample.name@);
            proof {
                lemma_counters_map_update(old_counters, i as int, kept);
            }
            counters.set(i, kept);
        } else {
            counters.push(kept);
            assert(counters@.drop_last() =~= old_counters);
        }
        self.counters = counters;
        NetworkRow {
            iface: sample.name,
            down_rate,
            up_rate,
            total_in: sample.total_in,
            total_out: sample.total_out,
            errors_in: sample.errors_in,
            errors_out: sample.errors_out,
            drops,
        }
    }

    /// Replaces the network table by `rows`, highest total throughput first,
    /// rows of equal throughput in the order given.
    pub fn update_network_rows(&mut self, rows: Vec<NetworkRow>)
        requires
            rows.len() <= 1 || forall|i: int|
                0 <= i < rows.len() ==> #[trigger] rows@[i].down_rate + rows@[i].up_rate
                    <= u64::MAX,
        ensures
            final(self).network_table() == sort_by_rank(rows@),
            is_throughput_order(rows@, final(self).network_table()),
            final(self).tab() == old(self).tab(),
            final(self).is_paused() == old(self).is_paused(),
            final(self).selection() == old(self).selection(),
            final(self).wifi() == old(self).wifi(),
            final(self).last_poll() == old(self).last_poll(),
            final(self).counters() == old(self).counters(),
            final(self).process_table() == old(self).process_table(),
    {
        proof {
            use_type_invariant(&*self);
            lemma_network_table_ordered(rows@);
        }
        self.network_rows = sort_by_rank_desc(rows);
    }

    /// Replaces the process table by the `TOP_PROCESS_COUNT` rows of `rows`
    /// with the highest CPU usage, highest first, rows of equal usage in the
    /// order given.
    pub fn update_processes(&mut self, rows: Vec<ProcessRow>)
        requires
            rows.len() <= 1 || forall|i: int|
                0 <= i < rows.len() ==> !is_nan_bits(#[trigger] rows@[i].cpu_bits),
        ensures
            final(self).process_table() == sort_by_rank(rows@).take(
                if rows.len() < TOP_PROCESS_COUNT {
                    rows.len() as int
                } else {
                    TOP_PROCESS_COUNT as int
                },
            ),
            is_top_cpu_table(rows@, final(self).process_table()),
            final(self).tab() == old(self).tab(),
            final(self).is_paused() == old(self).is_paused(),
            final(self).selection() == old(self).selection(),
            final(self).wifi() == old(self).wifi(),
            final(self).last_poll() == old(self).last_poll(),
            final(self).counters() == old(self).counters(),
            final(self).network_table() == old(self).network_table(),
    {
        proof {
            use_type_invariant(&*self);
            crate::order::lemma_sort_by_rank_descending(rows@);
            lemma_process_table_is_top(rows@);
        }
        let mut sorted = sort_by_rank_desc(rows);
        sorted.truncate(TOP_PROCESS_COUNT);
        proof {
            if sort_by_rank(rows@).len() <= TOP_PROCESS_COUNT {
                assert(sort_by_rank(rows@).take(sort_by_rank(rows@).len() as int) =~= sort_by_rank(rows@));
            }
        }
        self.process_rows = sorted;
    }
}

/// Moving one tab on shows the next tab, after the last the first; moving
/// back shows the previous one, before the first the last; so one move on
/// and one back (or back, then on) shows the tab shown before.
pub proof fn lemma_tab_moves_undo(tab: int)
    requires
        0 <= tab < TAB_COUNT,
    ensures
        0 <= next_tab_of(tab) < TAB_COUNT,
        0 <= prev_tab_of(tab) < TAB_COUNT,
        prev_tab_of(next_tab_of(tab)) == tab,
        next_tab_of(prev_tab_of(tab)) == tab,
        tab + 1 < TAB_COUNT ==> next_tab_of(tab) == tab + 1,
        tab == TAB_COUNT - 1 ==> next_tab_of(tab) == 0,
        tab > 0 ==> prev_tab_of(tab) == tab - 1,
        tab == 0 ==> prev_tab_of(tab) == TAB_COUNT - 1,
{
}

/// Moving the selection down a table that has rows always selects one of its
/// rows, and so does moving it up from a row of the table or from no
/// selection; from a selected row, moving down and then up (or up, then down)
/// comes back to it. Moving down selects the next row, after the last the
/// first; moving up the previous row, before the first the last.
pub proof fn lemma_selection_moves(selected: Option<usize>, len: int)
    requires
        0 < len <= usize::MAX,
    ensures
        select_next_of(selected, len) matches Some(i) && i < len,
        (selected matches Some(i) ==> i < len) ==> (select_prev_of(selected, len) matches Some(i)
            && i < len),
        (selected matches Some(i) && i < len) ==> select_prev_of(select_next_of(selected, len), len)
            == selected,
        (selected matches Some(i) && i < len) ==> select_next_of(select_prev_of(selected, len), len)
            == selected,
        (selected matches Some(i) && i + 1 < len) ==> select_next_of(selected, len) == Some(
            (selected->0 + 1) as usize,
        ),
        (selected matches Some(i) && i + 1 >= len) ==> select_next_of(selected, len) == Some(
            0usize,
        ),
        (selected matches Some(i) && 0 < i < len) ==> select_prev_of(selected, len) == Some(
            (selected->0 - 1) as usize,
        ),
        selected == Some(0usize) ==> select_prev_of(selected, len) == Some((len - 1) as usize),
        selected is None ==> select_next_of(selected, len) == Some(0usize) && select_prev_of(
            selected,
            len,
        ) == Some(0usize),
{
}

/// After a Wi-Fi poll at time `now`, the next one is due exactly once the
/// poll interval has passed: the long one where figures were read, the
/// warm-up one where none were.
pub proof fn lemma_wifi_poll_schedule(now: u64, have_stats: bool, t: u64)
    requires
        t >= now,
    ensures
        wifi_poll_due_at(Some(now), have_stats, t) <==> t - now >= (if have_stats {
            WIFI_POLL_INTERVAL_NANOS
        } else {
            WIFI_WARMUP_INTERVAL_NANOS
        }),
        wifi_poll_due_at(None, have_stats, t),
{
}

/// The counters kept for an interface are the ones it was last sampled with,
/// and the next sample of it gets rates exactly when it comes later.
pub proof fn lemma_counters_read_back(
    prev: Map<Seq<char>, (u64, u64, u64)>,
    name: Seq<char>,
    total_in: u64,
    total_out: u64,
    at: u64,
    later: u64,
)
    ensures
        prev.insert(name, (total_in, total_out, at))[name] == (total_in, total_out, at),
        rate_applies(prev.insert(name, (total_in, total_out, at)), later, name) <==> later > at,
{
}

/// The rows of `rows` whose total throughput (download plus upload rate)
/// is `t`, in their order.
pub open spec fn with_throughput(rows: Seq<NetworkRow>, t: int) -> Seq<NetworkRow> {
    rows.filter(|r: NetworkRow| r.down_rate + r.up_rate == t)
}

/// Whether `table` holds the rows of `rows`, from highest to lowest total
/// throughput, rows of equal throughput in the order `rows` gives them.
pub open spec fn is_throughput_order(rows: Seq<NetworkRow>, table: Seq<NetworkRow>) -> bool {
    &&& table.to_multiset() == rows.to_multiset()
    &&& forall|i: int, j: int|
        0 <= i < j < table.len() ==> table[i].down_rate + table[i].up_rate >= table[j].down_rate
            + table[j].up_rate
    &&& forall|t: int| #[trigger] with_throughput(table, t) == with_throughput(rows, t)
}

/// The rows of `rows` whose CPU usage has order key `t`, in their order.
pub open spec fn with_cpu_key(rows: Seq<ProcessRow>, t: int) -> Seq<ProcessRow> {
    rows.filter(|r: ProcessRow| f32_order_key(r.cpu_bits) == t)
}

/// Whether `table` holds the `TOP_PROCESS_COUNT` rows of `rows` (all of
/// them, where there are fewer) with the highest CPU usage, highest first:
/// its rows come from `rows`, no row left out uses more CPU than a row shown,
/// and rows of equal usage keep the order `rows` gives them.
pub open spec fn is_top_cpu_table(rows: Seq<ProcessRow>, table: Seq<ProcessRow>) -> bool {
    &&& table.len() == if rows.len() < TOP_PROCESS_COUNT {
        rows.len() as int
    } else {
        TOP_PROCESS_COUNT as int
    }
    &&& forall|i: int, j: int|
        0 <= i < j < table.len() ==> f32_order_key(table[i].cpu_bits) >= f32_order_key(
            table[j].cpu_bits,
        )
    &&& table.to_multiset().subset_of(rows.to_multiset())
    &&& forall|x: ProcessRow, i: int|
        0 <= i < table.len() && #[trigger] rows.to_multiset().count(x) > table.to_multiset().count(
            x,
        ) ==> f32_order_key(x.cpu_bits) <= f32_order_key(#[trigger] table[i].cpu_bits)
    &&& forall|t: int| #[trigger] with_cpu_key(table, t).is_prefix_of(with_cpu_key(rows, t))
}

/// The network table is every row given, from highest to lowest total
/// throughput (download plus upload rate), rows of equal throughput in the
/// order given.
pub proof fn lemma_network_table_ordered(rows: Seq<NetworkRow>)
    ensures
        is_throughput_order(rows, sort_by_rank(rows)),
{
    lemma_sort_by_rank_descending(rows);
    lemma_sort_by_rank_permutes(rows);
    assert forall|t: int| #[trigger] with_throughput(sort_by_rank(rows), t) == with_throughput(
        rows,
        t,
    ) by {
        lemma_sort_by_rank_stable(rows, t, |r: NetworkRow| r.down_rate + r.up_rate == t);
    }
}

/// The process table is the `TOP_PROCESS_COUNT` rows with the highest CPU
/// usage, highest first, rows of equal usage in the order given.
pub proof fn lemma_process_table_is_top(rows: Seq<ProcessRow>)
    ensures
        is_top_cpu_table(
            rows,
            sort_by_rank(rows).take(
                if rows.len() < TOP_PROCESS_COUNT {
                    rows.len() as int
                } else {
                    TOP_PROCESS_COUNT as int
                },
            ),
        ),
{
    broadcast use vstd::multiset::group_multiset_axioms;
    broadcast use vstd::seq_lib::group_to_multiset_ensures;

    let k: int = if rows.len() < TOP_PROCESS_COUNT {
        rows.len() as int
    } else {
        TOP_PROCESS_COUNT as int
    };
    let sorted = sort_by_rank(rows);
    lemma_sort_by_rank_descending(rows);
    lemma_sort_by_rank_permutes(rows);
    let shown = sorted.take(k);
    let rest = sorted.skip(k);
    assert(sorted =~= shown + rest);
    vstd::seq_lib::lemma_multiset_commutative(shown, rest);
    assert(shown.to_multiset().subset_of(rows.to_multiset()));
    assert forall|x: ProcessRow, i: int|
        0 <= i < shown.len() && #[trigger] rows.to_multiset().count(x) > shown.to_multiset().count(
            x,
        ) implies f32_order_key(x.cpu_bits) <= f32_order_key(#[trigger] shown[i].cpu_bits) by {
        assert(rest.to_multiset().count(x) > 0);
        assert(rest.contains(x));
        let j = choose|j: int| 0 <= j < rest.len() && rest[j] == x;
        assert(sorted[k + j] == x);
        assert(sorted[i] == shown[i]);
    }
    assert forall|t: int| #[trigger] with_cpu_key(shown, t).is_prefix_of(with_cpu_key(rows, t)) by {
        let p = |r: ProcessRow| f32_order_key(r.cpu_bits) == t;
        lemma_sort_by_rank_stable(rows, t, p);
        Seq::filter_distributes_over_add(shown, rest, p);
        assert(sorted.filter(p) == shown.filter(p) + rest.filter(p));
        assert((shown.filter(p) + rest.filter(p)).subrange(0, shown.filter(p).len() as int)
            =~= shown.filter(p));
    }
}

} // verus!
