//! The text the dashboard's panels show.

use vstd::prelude::*;

use crate::netsh::WifiStats;
use crate::order::f32_greater;
use crate::order::f32_bits_greater;
use crate::state::{NetworkRow, ProcessRow, TAB_COUNT};
use crate::text::{
    dec, decimal_string, push_decimal, push_signed_decimal, push_str, signed_dec,
    string_from_chars, string_views,
};
use crate::units::{bytes_per_sec_text, bytes_text, duration_text, format_bytes, format_bytes_per_sec, format_duration};

verus! {

/// The title bar: a pause marker, the host, the operating system and the uptime.
pub open spec fn title_text_of(paused: bool, host: Seq<char>, os: Seq<char>, uptime: nat) -> Seq<char> {
    (if paused {
        " [PAUSED] "@
    } else {
        ""@
    }) + " "@ + host + " | "@ + os + " | Uptime: "@ + duration_text(uptime)
}

/// The title bar text.
pub fn title_text(paused: bool, host: &str, os: &str, uptime: u64) -> (s: String)
    ensures
        s@ == title_text_of(paused, host@, os@, uptime as nat),
{
    let mut buf: Vec<char> = Vec::new();
    if paused {
        push_str(&mut buf, " [PAUSED] ");
    } else {
        push_str(&mut buf, "");
    }
    push_str(&mut buf, " ");
    push_str(&mut buf, host);
    push_str(&mut buf, " | ");
    push_str(&mut buf, os);
    push_str(&mut buf, " | Uptime: ");
    let up = format_duration(uptime);
    push_str(&mut buf, up.as_str());
    assert(buf@ =~= title_text_of(paused, host@, os@, uptime as nat));
    string_from_chars(buf)
}

/// The key help of the status bar.
pub fn status_bar_text() -> (s: &'static str)
    ensures
        s@ == " q/Esc: Quit | Space: Pause | r: Refresh | \u{2190}/\u{2192}: Tab | \u{2191}/\u{2193}: Select | k: Term | K: Kill "@,
{
    " q/Esc: Quit | Space: Pause | r: Refresh | \u{2190}/\u{2192}: Tab | \u{2191}/\u{2193}: Select | k: Term | K: Kill "
}

/// The titles of the tabs, in order.
pub fn tab_titles() -> (t: Vec<&'static str>)
    ensures
        t@.len() == TAB_COUNT,
        t@[0]@ == "Overview"@,
        t@[1]@ == "Simple"@,
        t@[2]@ == "System"@,
        t@[3]@ == "Disks"@,
        t@[4]@ == "Network"@,
        t@[5]@ == "Processes"@,
{
    let mut t: Vec<&'static str> = Vec::new();
    t.push("Overview");
    t.push("Simple");
    t.push("System");
    t.push("Disks");
    t.push("Network");
    t.push("Processes");
    t
}

/// A string's characters, or `default` where there is none.
pub open spec fn text_or(o: Option<String>, default: Seq<char>) -> Seq<char> {
    match o {
        Some(s) => s@,
        None => default,
    }
}

/// The host name, `"Unknown"` where the system gives none.
pub fn host_name_text(host: Option<String>) -> (s: String)
    ensures
        s@ == text_or(host, "Unknown"@),
{
    match host {
        Some(h) => h,
        None => String::from_str("Unknown"),
    }
}

/// The operating system: its name (`"Unknown"` where the system gives none),
/// a space, and its version (nothing where the system gives none).
pub fn os_text(name: Option<String>, version: Option<String>) -> (s: String)
    ensures
        s@ == text_or(name, "Unknown"@) + " "@ + text_or(version, ""@),
{
    let mut buf: Vec<char> = Vec::new();
    match &name {
        Some(n) => push_str(&mut buf, n.as_str()),
        None => push_str(&mut buf, "Unknown"),
    }
    push_str(&mut buf, " ");
    match &version {
        Some(v) => push_str(&mut buf, v.as_str()),
        None => push_str(&mut buf, ""),
    }
    assert(buf@ =~= text_or(name, "Unknown"@) + " "@ + text_or(version, ""@));
    string_from_chars(buf)
}

/// A used amount against a total, both in byte units.
pub open spec fn usage_text_of(used: nat, total: nat) -> Seq<char> {
    bytes_text(used) + " / "@ + bytes_text(total)
}

/// `"<used> / <total>"` in byte units.
pub fn usage_text(used: u64, total: u64) -> (s: String)
    ensures
        s@ == usage_text_of(used as nat, total as nat),
        s@ == bytes_text(used as nat) + " / "@ + bytes_text(total as nat),
{
    let mut buf: Vec<char> = Vec::new();
    let u = format_bytes(used);
    let t = format_bytes(total);
    push_str(&mut buf, u.as_str());
    push_str(&mut buf, " / ");
    push_str(&mut buf, t.as_str());
    assert(buf@ =~= usage_text_of(used as nat, total as nat));
    string_from_chars(buf)
}

/// A whole percentage, `"<p>%"`.
pub fn percent_text(p: u64) -> (s: String)
    ensures
        s@ == dec(p as nat) + "%"@,
{
    let mut buf: Vec<char> = Vec::new();
    push_decimal(&mut buf, p as u128);
    push_str(&mut buf, "%");
    string_from_chars(buf)
}

/// Bytes used on a disk: its size less the space still available.
pub fn disk_used(total: u64, available: u64) -> (used: u64)
    requires
        available <= total,
    ensures
        used == total - available,
{
    total - available
}

/// The cells of a disk in the overview's disk panel: mount point, used
/// percentage, free space.
pub fn disk_panel_cells(mount: String, used_pct: u64, available: u64) -> (cells: Vec<String>)
    ensures
        string_views(cells@) == seq![mount@, dec(used_pct as nat) + "%"@, bytes_text(available as nat)],
{
    let mut cells: Vec<String> = Vec::new();
    cells.push(mount);
    cells.push(percent_text(used_pct));
    cells.push(format_bytes(available));
    assert(string_views(cells@) =~= seq![mount@, dec(used_pct as nat) + "%"@, bytes_text(available as nat)]);
    cells
}

/// The cells of a disk in the disks tab: name, mount point, file system,
/// kind, size, used and free space, and the read and write rates, which are
/// not tracked.
pub fn disk_tab_cells(
    name: String,
    mount: String,
    fs: String,
    kind: String,
    total: u64,
    available: u64,
) -> (cells: Vec<String>)
    requires
        available <= total,
    ensures
        string_views(cells@) == seq![
            name@,
            mount@,
            fs@,
            kind@,
            bytes_text(total as nat),
            bytes_text((total - available) as nat),
            bytes_text(available as nat),
            "N/A"@,
            "N/A"@,
        ],
{
    let mut cells: Vec<String> = Vec::new();
    let ghost nv = name@;
    let ghost mv = mount@;
    let ghost fv = fs@;
    let ghost kv = kind@;
    cells.push(name);
    cells.push(mount);
    cells.push(fs);
    cells.push(kind);
    cells.push(format_bytes(total));
    cells.push(format_bytes(disk_used(total, available)));
    cells.push(format_bytes(available));
    cells.push(String::from_str("N/A"));
    cells.push(String::from_str("N/A"));
    assert(string_views(cells@) =~= seq![
        nv,
        mv,
        fv,
        kv,
        bytes_text(total as nat),
        bytes_text((total - available) as nat),
        bytes_text(available as nat),
        "N/A"@,
        "N/A"@,
    ]);
    cells
}

/// Storage of a disk as `"<used> / <size>"`.
pub fn storage_text(total: u64, available: u64) -> (s: String)
    requires
        available <= total,
    ensures
        s@ == usage_text_of((total - available) as nat, total as nat),
{
    usage_text(disk_used(total, available), total)
}

/// A reading with its unit, or `"N/A"` where there is none.
pub open spec fn reading_text(v: Option<i32>, unit: Seq<char>) -> Seq<char> {
    match v {
        Some(x) => signed_dec(x as int) + " "@ + unit,
        None => "N/A"@,
    }
}

fn push_reading(buf: &mut Vec<char>, v: Option<i32>, unit: &str)
    ensures
        final(buf)@ == old(buf)@ + reading_text(v, unit@),
{
    match v {
        Some(x) => {
            push_signed_decimal(buf, x as i64);
            push_str(buf, " ");
            push_str(buf, unit);
        },
        None => push_str(buf, "N/A"),
    }
}

/// The Wi-Fi line of the summary: `"<interface> (<RSSI> dBm)"`.
pub fn wifi_line_text(w: &WifiStats) -> (s: String)
    ensures
        s@ == w.iface@ + " ("@ + reading_text(w.rssi_dbm, "dBm"@) + ")"@,
{
    let mut buf: Vec<char> = Vec::new();
    push_str(&mut buf, w.iface.as_str());
    push_str(&mut buf, " (");
    push_reading(&mut buf, w.rssi_dbm, "dBm");
    push_str(&mut buf, ")");
    assert(buf@ =~= w.iface@ + " ("@ + reading_text(w.rssi_dbm, "dBm"@) + ")"@);
    string_from_chars(buf)
}

/// The Wi-Fi panel of the network tab.
pub open spec fn wifi_summary_of(wifi: Option<WifiStats>) -> Seq<char> {
    match wifi {
        Some(w) => "Interface: "@ + w.iface@ + " | RSSI: "@ + reading_text(w.rssi_dbm, "dBm"@)
            + " | SNR: "@ + reading_text(w.snr_db, "dB"@) + " | Drops: 0"@,
        None => "Wi-Fi stats unavailable"@,
    }
}

/// The Wi-Fi panel text of the network tab.
pub fn wifi_summary_text(wifi: &Option<WifiStats>) -> (s: String)
    ensures
        s@ == wifi_summary_of(*wifi),
{
    let mut buf: Vec<char> = Vec::new();
    match wifi {
        Some(w) => {
            push_str(&mut buf, "Interface: ");
            push_str(&mut buf, w.iface.as_str());
            push_str(&mut buf, " | RSSI: ");
            push_reading(&mut buf, w.rssi_dbm, "dBm");
            push_str(&mut buf, " | SNR: ");
            push_reading(&mut buf, w.snr_db, "dB");
            push_str(&mut buf, " | Drops: 0");
        },
        None => push_str(&mut buf, "Wi-Fi stats unavailable"),
    }
    assert(buf@ =~= wifi_summary_of(*wifi));
    string_from_chars(buf)
}

/// A Wi-Fi reading shown in the row of interface `iface`: the bare number
/// where the polled interface is `iface` and has the reading, else `"-"`.
pub open spec fn wifi_cell_of(wifi: Option<WifiStats>, iface: Seq<char>, snr: bool) -> Seq<char> {
    match wifi {
        Some(w) => if w.iface@ == iface {
            match (if snr {
                w.snr_db
            } else {
                w.rssi_dbm
            }) {
                Some(x) => signed_dec(x as int),
                None => "-"@,
            }
        } else {
            "-"@
        },
        None => "-"@,
    }
}

fn wifi_cell(wifi: &Option<WifiStats>, iface: &String, snr: bool) -> (s: String)
    ensures
        s@ == wifi_cell_of(*wifi, iface@, snr),
{
    let mut buf: Vec<char> = Vec::new();
    let reading: Option<i32> = match wifi {
        Some(w) => if w.iface == *iface {
            if snr {
                w.snr_db
            } else {
                w.rssi_dbm
            }
        } else {
            None
        },
        None => None,
    };
    match reading {
        Some(x) => push_signed_decimal(&mut buf, x as i64),
        None => push_str(&mut buf, "-"),
    }
    assert(buf@ =~= wifi_cell_of(*wifi, iface@, snr));
    string_from_chars(buf)
}

/// Number of interfaces the overview's network panel lists.
pub const NETWORK_PANEL_ROWS: usize = 10;

/// The cells of an interface in the overview's network panel: name and the
/// download and upload rates.
pub open spec fn network_panel_cells_of(row: NetworkRow) -> Seq<Seq<char>> {
    seq![
        row.iface@,
        bytes_per_sec_text(row.down_rate as nat),
        bytes_per_sec_text(row.up_rate as nat),
    ]
}

/// The cells of the overview's network panel: the first
/// `NETWORK_PANEL_ROWS` rows of the network table.
pub fn network_panel_rows(rows: &Vec<NetworkRow>) -> (cells: Vec<Vec<String>>)
    ensures
        cells@.len() == if rows.len() < NETWORK_PANEL_ROWS {
            rows.len() as int
        } else {
            NETWORK_PANEL_ROWS as int
        },
        forall|i: int|
            0 <= i < cells@.len() ==> string_views(#[trigger] cells@[i]@) == network_panel_cells_of(
                rows@[i],
            ),
{
    let n: usize = if rows.len() < NETWORK_PANEL_ROWS {
        rows.len()
    } else {
        NETWORK_PANEL_ROWS
    };
    let mut cells: Vec<Vec<String>> = Vec::new();
    let mut i: usize = 0;
    while i < n
        invariant
            i <= n <= rows.len(),
            cells@.len() == i,
            forall|j: int|
                0 <= j < i ==> string_views(#[trigger] cells@[j]@) == network_panel_cells_of(
                    rows@[j],
                ),
        decreases n - i,
    {
        let row = &rows[i];
        let mut c: Vec<String> = Vec::new();
        c.push(row.iface.clone());
        c.push(format_bytes_per_sec(row.down_rate));
        c.push(format_bytes_per_sec(row.up_rate));
        assert(string_views(c@) =~= network_panel_cells_of(rows@[i as int]));
        cells.push(c);
        i = i + 1;
    }
    cells
}

/// The cells of an interface in the network tab.
pub open spec fn network_tab_cells_of(row: NetworkRow, wifi: Option<WifiStats>) -> Seq<Seq<char>> {
    seq![
        row.iface@,
        bytes_per_sec_text(row.down_rate as nat),
        bytes_per_sec_text(row.up_rate as nat),
        bytes_text(row.total_in as nat),
        bytes_text(row.total_out as nat),
        dec(row.errors_in as nat),
        dec(row.errors_out as nat),
        wifi_cell_of(wifi, row.iface@, false),
        wifi_cell_of(wifi, row.iface@, true),
        dec(row.drops as nat),
    ]
}

/// The cells of an interface in the network tab: name, rates, totals,
/// error counts, the Wi-Fi RSSI and SNR where the polled interface is this
/// one, and dropped packets.
pub fn network_tab_cells(row: &NetworkRow, wifi: &Option<WifiStats>) -> (cells: Vec<String>)
    ensures
        string_views(cells@) == network_tab_cells_of(*row, *wifi),
{
    let mut c: Vec<String> = Vec::new();
    c.push(row.iface.clone());
    c.push(format_bytes_per_sec(row.down_rate));
    c.push(format_bytes_per_sec(row.up_rate));
    c.push(format_bytes(row.total_in));
    c.push(format_bytes(row.total_out));
    c.push(decimal_string(row.errors_in));
    c.push(decimal_string(row.errors_out));
    c.push(wifi_cell(wifi, &row.iface, false));
    c.push(wifi_cell(wifi, &row.iface, true));
    c.push(decimal_string(row.drops));
    assert(string_views(c@) =~= network_tab_cells_of(*row, *wifi));
    c
}

/// Sum of the download rates of `rows`.
pub open spec fn total_down(rows: Seq<NetworkRow>) -> nat
    decreases rows.len(),
{
    if rows.len() == 0 {
        0
    } else {
        total_down(rows.drop_last()) + rows.last().down_rate as nat
    }
}

/// Sum of the upload rates of `rows`.
pub open spec fn total_up(rows: Seq<NetworkRow>) -> nat
    decreases rows.len(),
{
    if rows.len() == 0 {
        0
    } else {
        total_up(rows.drop_last()) + rows.last().up_rate as nat
    }
}

proof fn lemma_totals_grow(rows: Seq<NetworkRow>, i: int)
    requires
        0 <= i <= rows.len(),
    ensures
        total_down(rows.take(i)) <= total_down(rows),
        total_up(rows.take(i)) <= total_up(rows),
    decreases rows.len() - i,
{
    if i < rows.len() {
        lemma_totals_grow(rows, i + 1);
        assert(rows.take(i + 1).drop_last() =~= rows.take(i));
    } else {
        assert(rows.take(i) =~= rows);
    }
}

/// The summed rates of a sequence of rows are the sums over its parts: every
/// row counts, once, wherever it stands.
pub proof fn lemma_network_totals_add(a: Seq<NetworkRow>, b: Seq<NetworkRow>)
    ensures
        total_down(a + b) == total_down(a) + total_down(b),
        total_up(a + b) == total_up(a) + total_up(b),
    decreases b.len(),
{
    if b.len() == 0 {
        assert(a + b =~= a);
    } else {
        lemma_network_totals_add(a, b.drop_last());
        assert((a + b).drop_last() =~= a + b.drop_last());
        assert((a + b).last() == b.last());
    }
}

/// One more row adds its download and upload rates to the totals, however
/// many rows there are; no rows total nothing.
pub proof fn lemma_network_totals_push(rows: Seq<NetworkRow>, r: NetworkRow)
    ensures
        total_down(rows.push(r)) == total_down(rows) + r.down_rate,
        total_up(rows.push(r)) == total_up(rows) + r.up_rate,
        total_down(Seq::<NetworkRow>::empty()) == 0,
        total_up(Seq::<NetworkRow>::empty()) == 0,
{
    assert(rows.push(r).drop_last() =~= rows);
}

/// The summed download and upload rates of all interfaces.
pub fn network_totals(rows: &Vec<NetworkRow>) -> (t: (u64, u64))
    requires
        total_down(rows@) <= u64::MAX,
        total_up(rows@) <= u64::MAX,
    ensures
        t.0 == total_down(rows@),
        t.1 == total_up(rows@),
{
    let mut down: u64 = 0;
    let mut up: u64 = 0;
    let mut i: usize = 0;
    assert(rows@.take(0) =~= Seq::<NetworkRow>::empty());
    while i < rows.len()
        invariant
            i <= rows.len(),
            total_down(rows@) <= u64::MAX,
            total_up(rows@) <= u64::MAX,
            down == total_down(rows@.take(i as int)),
            up == total_up(rows@.take(i as int)),
        decreases rows.len() - i,
    {
        proof {
            lemma_totals_grow(rows@, i + 1);
            assert(rows@.take(i + 1).drop_last() =~= rows@.take(i as int));
        }
        down = down + rows[i].down_rate;
        up = up + rows[i].up_rate;
        i = i + 1;
    }
    assert(rows@.take(rows.len() as int) =~= rows@);
    (down, up)
}

/// The network line of the summary: total download and upload rates.
pub fn network_summary_text(down: u64, up: u64) -> (s: String)
    ensures
        s@ == "\u{2193} "@ + bytes_per_sec_text(down as nat) + " \u{2191} "@ + bytes_per_sec_text(
            up as nat,
        ),
{
    let mut buf: Vec<char> = Vec::new();
    let d = format_bytes_per_sec(down);
    let u = format_bytes_per_sec(up);
    push_str(&mut buf, "\u{2193} ");
    push_str(&mut buf, d.as_str());
    push_str(&mut buf, " \u{2191} ");
    push_str(&mut buf, u.as_str());
    assert(buf@ =~= "\u{2193} "@ + bytes_per_sec_text(down as nat) + " \u{2191} "@
        + bytes_per_sec_text(up as nat));
    string_from_chars(buf)
}

/// Bits of the 32-bit float 80.0.
pub const F32_EIGHTY_BITS: u32 = 0x42A0_0000;

/// Bits of the 32-bit float 50.0.
pub const F32_FIFTY_BITS: u32 = 0x4248_0000;

/// How loaded the system is, from the CPU usage (the bits of its 32-bit
/// float) and the memory percentage.
pub open spec fn status_tier_of(cpu_bits: u32, mem_pct: u16) -> Seq<char> {
    if f32_greater(cpu_bits, F32_EIGHTY_BITS) || mem_pct > 80 {
        "Busy"@
    } else if f32_greater(cpu_bits, F32_FIFTY_BITS) || mem_pct > 60 {
        "Moderate"@
    } else {
        "Light"@
    }
}

/// The load tier of the summary: `"Busy"` above 80 % CPU or memory,
/// `"Moderate"` above 50 % CPU or 60 % memory, else `"Light"`.
pub fn status_tier(cpu_bits: u32, mem_pct: u16) -> (s: &'static str)
    ensures
        s@ == status_tier_of(cpu_bits, mem_pct),
{
    if f32_bits_greater(cpu_bits, F32_EIGHTY_BITS) || mem_pct > 80 {
        "Busy"
    } else if f32_bits_greater(cpu_bits, F32_FIFTY_BITS) || mem_pct > 60 {
        "Moderate"
    } else {
        "Light"
    }
}

/// The cells of a process: PID, name, CPU usage as the caller formats it,
/// and memory.
pub fn process_cells(row: &ProcessRow, cpu_text: String) -> (cells: Vec<String>)
    ensures
        string_views(cells@) == seq![
            dec(row.pid as nat),
            row.name@,
            cpu_text@,
            bytes_text(row.memory as nat),
        ],
{
    let mut c: Vec<String> = Vec::new();
    let ghost cv = cpu_text@;
    c.push(decimal_string(row.pid as u64));
    c.push(row.name.clone());
    c.push(cpu_text);
    c.push(format_bytes(row.memory));
    assert(string_views(c@) =~= seq![
        dec(row.pid as nat),
        row.name@,
        cv,
        bytes_text(row.memory as nat),
    ]);
    c
}

/// Number of cores the per-core chart shows at most.
pub const MAX_CORE_BARS: usize = 16;

/// How many cores the per-core chart shows.
pub fn core_bar_count(cores: usize) -> (n: usize)
    ensures
        n == if cores < MAX_CORE_BARS {
            cores
        } else {
            MAX_CORE_BARS
        },
{
    if cores < MAX_CORE_BARS {
        cores
    } else {
        MAX_CORE_BARS
    }
}

/// The character sequences of label and value pairs.
pub open spec fn pair_views(v: Seq<(String, String)>) -> Seq<(Seq<char>, Seq<char>)> {
    v.map_values(|p: (String, String)| (p.0@, p.1@))
}

/// What the summary of the simple tab is made from.
pub struct SummaryFacts {
    /// Bits of the 32-bit float CPU usage in percent.
    pub cpu_bits: u32,
    /// The CPU usage as shown, with one decimal.
    pub cpu_text: String,
    pub mem_pct: u16,
    pub mem_used: u64,
    pub mem_total: u64,
    /// Size and available space of the first disk, where there is one.
    pub first_disk: Option<(u64, u64)>,
    pub network_down: u64,
    pub network_up: u64,
    pub wifi: Option<WifiStats>,
}

/// The lines of the summary, as label and value.
pub open spec fn summary_of(f: SummaryFacts) -> Seq<(Seq<char>, Seq<char>)> {
    let base = seq![
        ("Status: "@, status_tier_of(f.cpu_bits, f.mem_pct)),
        ("CPU Usage: "@, f.cpu_text@),
        ("Memory Usage: "@, usage_text_of(f.mem_used as nat, f.mem_total as nat)),
    ];
    let with_disk = match f.first_disk {
        Some((total, available)) => base.push(
            ("Storage: "@, usage_text_of((total - available) as nat, total as nat)),
        ),
        None => base,
    };
    let with_net = with_disk.push(
        (
            "Network: "@,
            "\u{2193} "@ + bytes_per_sec_text(f.network_down as nat) + " \u{2191} "@
                + bytes_per_sec_text(f.network_up as nat),
        ),
    );
    match f.wifi {
        Some(w) => with_net.push(
            ("Wi-Fi: "@, w.iface@ + " ("@ + reading_text(w.rssi_dbm, "dBm"@) + ")"@),
        ),
        None => with_net,
    }
}

/// The summary of the simple tab: load tier, CPU and memory usage, the
/// storage of the first disk, network rates, and the Wi-Fi interface.
pub fn summary_lines(f: &SummaryFacts) -> (lines: Vec<(String, String)>)
    requires
        f.first_disk matches Some((total, available)) ==> available <= total,
    ensures
        pair_views(lines@) == summary_of(*f),
        pair_views(lines@)[2] == ("Memory Usage: "@, bytes_text(f.mem_used as nat) + " / "@
            + bytes_text(f.mem_total as nat)),
        f.first_disk matches Some((total, available)) ==> pair_views(lines@)[3] == (
            "Storage: "@,
            bytes_text((total - available) as nat) + " / "@ + bytes_text(total as nat),
        ),
{
    let mut lines: Vec<(String, String)> = Vec::new();
    let tier = status_tier(f.cpu_bits, f.mem_pct);
    lines.push((String::from_str("Status: "), String::from_str(tier)));
    lines.push((String::from_str("CPU Usage: "), f.cpu_text.clone()));
    lines.push((String::from_str("Memory Usage: "), usage_text(f.mem_used, f.mem_total)));
    match f.first_disk {
        Some((total, available)) => {
            lines.push((String::from_str("Storage: "), storage_text(total, available)));
        },
        None => {},
    }
    lines.push((String::from_str("Network: "), network_summary_text(f.network_down, f.network_up)));
    match &f.wifi {
        Some(w) => {
            lines.push((String::from_str("Wi-Fi: "), wifi_line_text(w)));
        },
        None => {},
    }
    assert(pair_views(lines@) =~= summary_of(*f));
    lines
}

/// What the system tab shows.
pub struct SystemFacts {
    pub hostname: String,
    pub os: String,
    pub uptime: u64,
    /// The 1, 5 and 15 minute load averages as shown.
    pub load_text: String,
    /// Brand of the first CPU, where there is one.
    pub cpu_brand: Option<String>,
    /// Frequency of the first CPU in MHz, where there is one.
    pub cpu_mhz: Option<u64>,
    pub logical_cores: usize,
    /// The average CPU usage as shown, with one decimal.
    pub cpu_avg_text: String,
    pub mem_used: u64,
    pub mem_total: u64,
    pub mem_free: u64,
    pub mem_avail: u64,
    pub swap_used: u64,
    pub swap_total: u64,
    pub process_count: usize,
}

/// The CPU frequency, or `"N/A"` where there is none.
pub open spec fn mhz_text_of(mhz: Option<u64>) -> Seq<char> {
    match mhz {
        Some(m) => dec(m as nat) + " MHz"@,
        None => "N/A"@,
    }
}

/// The rows of the system tab, as label and value.
pub open spec fn system_rows_of(f: SystemFacts) -> Seq<(Seq<char>, Seq<char>)> {
    seq![
        ("Host"@, f.hostname@),
        ("OS"@, f.os@),
        ("Uptime"@, duration_text(f.uptime as nat)),
        ("Load Avg 1/5/15"@, f.load_text@),
        ("CPU"@, text_or(f.cpu_brand, "Unknown"@)),
        ("CPU Freq"@, mhz_text_of(f.cpu_mhz)),
        ("Logical Cores"@, dec(f.logical_cores as nat)),
        ("CPU Avg"@, f.cpu_avg_text@),
        ("Memory Used"@, usage_text_of(f.mem_used as nat, f.mem_total as nat)),
        ("Memory Free"@, bytes_text(f.mem_free as nat)),
        ("Memory Avail"@, bytes_text(f.mem_avail as nat)),
        ("Swap"@, usage_text_of(f.swap_used as nat, f.swap_total as nat)),
        ("Process Count"@, dec(f.process_count as nat)),
    ]
}

/// The rows of the system tab: host, OS, uptime, load averages, CPU brand
/// and frequency, core count, CPU average, memory, swap and process count.
pub fn system_rows(f: &SystemFacts) -> (rows: Vec<(String, String)>)
    ensures
        pair_views(rows@) == system_rows_of(*f),
        rows@.len() == 13,
        pair_views(rows@)[8] == ("Memory Used"@, bytes_text(f.mem_used as nat) + " / "@ + bytes_text(
            f.mem_total as nat,
        )),
        pair_views(rows@)[11] == ("Swap"@, bytes_text(f.swap_used as nat) + " / "@ + bytes_text(
            f.swap_total as nat,
        )),
{
    let mut rows: Vec<(String, String)> = Vec::new();
    rows.push((String::from_str("Host"), f.hostname.clone()));
    rows.push((String::from_str("OS"), f.os.clone()));
    rows.push((String::from_str("Uptime"), format_duration(f.uptime)));
    rows.push((String::from_str("Load Avg 1/5/15"), f.load_text.clone()));
    let brand = match &f.cpu_brand {
        Some(b) => b.clone(),
        None => String::from_str("Unknown"),
    };
    rows.push((String::from_str("CPU"), brand));
    let mhz = match f.cpu_mhz {
        Some(m) => {
            let mut buf: Vec<char> = Vec::new();
            push_decimal(&mut buf, m as u128);
            push_str(&mut buf, " MHz");
            string_from_chars(buf)
        },
        None => String::from_str("N/A"),
    };
    rows.push((String::from_str("CPU Freq"), mhz));
    rows.push((String::from_str("Logical Cores"), decimal_string(f.logical_cores as u64)));
    rows.push((String::from_str("CPU Avg"), f.cpu_avg_text.clone()));
    rows.push((String::from_str("Memory Used"), usage_text(f.mem_used, f.mem_total)));
    rows.push((String::from_str("Memory Free"), format_bytes(f.mem_free)));
    rows.push((String::from_str("Memory Avail"), format_bytes(f.mem_avail)));
    rows.push((String::from_str("Swap"), usage_text(f.swap_used, f.swap_total)));
    rows.push((String::from_str("Process Count"), decimal_string(f.process_count as u64)));
    assert(pair_views(rows@) =~= system_rows_of(*f));
    proof {
        lemma_system_rows_used_before_total(*f);
    }
    rows
}

/// The memory and swap rows of the system tab show the amount used, then
/// the total: `"<used> / <total>"`.
pub proof fn lemma_system_rows_used_before_total(f: SystemFacts)
    ensures
        system_rows_of(f).len() == 13,
        system_rows_of(f)[8] == ("Memory Used"@, bytes_text(f.mem_used as nat) + " / "@ + bytes_text(
            f.mem_total as nat,
        )),
        system_rows_of(f)[11] == ("Swap"@, bytes_text(f.swap_used as nat) + " / "@ + bytes_text(
            f.swap_total as nat,
        )),
{
}

} // verus!
