use activity_monitor::netsh::WifiStats;
use activity_monitor::state::NetworkRow;
use activity_monitor::theme::{Rgb, Theme};
use activity_monitor::view::{
    core_bar_count, disk_panel_cells, disk_tab_cells, disk_used, host_name_text,
    network_panel_rows, network_summary_text, network_tab_cells, network_totals, os_text,
    percent_text, process_cells, status_bar_text, status_tier, storage_text, summary_lines,
    system_rows, tab_titles, title_text, usage_text, wifi_line_text, wifi_summary_text,
    SummaryFacts, SystemFacts,
};
use activity_monitor::state::ProcessRow;

fn net(name: &str, down: u64, up: u64) -> NetworkRow {
    NetworkRow {
        iface: name.to_string(),
        down_rate: down,
        up_rate: up,
        total_in: 2048,
        total_out: 100,
        errors_in: 3,
        errors_out: 4,
        drops: 0,
    }
}

fn wifi(name: &str) -> Option<WifiStats> {
    Some(WifiStats { iface: name.to_string(), rssi_dbm: Some(-52), snr_db: None })
}

#[test]
fn title_shows_pause_host_os_uptime() {
    assert_eq!(title_text(false, "box", "Linux 6.1", 3661), " box | Linux 6.1 | Uptime: 1h 1m 1s");
    assert_eq!(
        title_text(true, "box", "Windows 11", 5),
        " [PAUSED]  box | Windows 11 | Uptime: 5s"
    );
}

#[test]
fn fixed_texts() {
    assert_eq!(
        status_bar_text(),
        " q/Esc: Quit | Space: Pause | r: Refresh | \u{2190}/\u{2192}: Tab | \u{2191}/\u{2193}: Select | k: Term | K: Kill "
    );
    assert_eq!(tab_titles(), vec!["Overview", "Simple", "System", "Disks", "Network", "Processes"]);
}

#[test]
fn host_and_os_defaults() {
    assert_eq!(host_name_text(None), "Unknown");
    assert_eq!(host_name_text(Some("pc".to_string())), "pc");
    assert_eq!(os_text(None, None), "Unknown ");
    assert_eq!(os_text(Some("Ubuntu".to_string()), Some("24.04".to_string())), "Ubuntu 24.04");
}

#[test]
fn usage_and_percent() {
    assert_eq!(usage_text(1024, 4096), "1.00 KB / 4.00 KB");
    assert_eq!(percent_text(42), "42%");
    // An integer ignores a precision: a memory percentage shows whole.
    for p in [0u16, 7, 42, 100] {
        assert_eq!(percent_text(p as u64), format!("{:.1}%", p));
    }
    assert_eq!(disk_used(100, 30), 70);
    assert_eq!(storage_text(2048, 1024), "1.00 KB / 2.00 KB");
}

#[test]
fn disk_cells() {
    assert_eq!(disk_panel_cells("/".to_string(), 57, 1536), vec!["/", "57%", "1.50 KB"]);
    assert_eq!(
        disk_tab_cells("sda1".into(), "/".into(), "ext4".into(), "SSD".into(), 4096, 1024),
        vec!["sda1", "/", "ext4", "SSD", "4.00 KB", "3.00 KB", "1.00 KB", "N/A", "N/A"]
    );
}

#[test]
fn wifi_texts() {
    let w = wifi("wlan0");
    assert_eq!(wifi_line_text(w.as_ref().unwrap()), "wlan0 (-52 dBm)");
    let no_rssi = WifiStats { iface: "w".into(), rssi_dbm: None, snr_db: None };
    assert_eq!(wifi_line_text(&no_rssi), "w (N/A)");
    assert_eq!(wifi_summary_text(&w), "Interface: wlan0 | RSSI: -52 dBm | SNR: N/A | Drops: 0");
    assert_eq!(wifi_summary_text(&None), "Wi-Fi stats unavailable");
    let both = Some(WifiStats { iface: "x".into(), rssi_dbm: Some(-70), snr_db: Some(25) });
    assert_eq!(wifi_summary_text(&both), "Interface: x | RSSI: -70 dBm | SNR: 25 dB | Drops: 0");
}

#[test]
fn network_cells() {
    let row = net("wlan0", 1536, 0);
    assert_eq!(
        network_tab_cells(&row, &wifi("wlan0")),
        vec!["wlan0", "1.50 KB/s", "0 B/s", "2.00 KB", "100 B", "3", "4", "-52", "-", "0"]
    );
    assert_eq!(
        network_tab_cells(&row, &wifi("eth0")),
        vec!["wlan0", "1.50 KB/s", "0 B/s", "2.00 KB", "100 B", "3", "4", "-", "-", "0"]
    );
    let rows: Vec<NetworkRow> = (0..12).map(|i| net(&format!("if{}", i), i, i * 2)).collect();
    let panel = network_panel_rows(&rows);
    assert_eq!(panel.len(), 10);
    assert_eq!(panel[3], vec!["if3", "3 B/s", "6 B/s"]);
    assert_eq!(network_panel_rows(&rows[..2].iter().map(|r| net(&r.iface, 1, 1)).collect()).len(), 2);
}

#[test]
fn network_totals_sum_rates() {
    let rows = vec![net("a", 100, 1), net("b", 924, 2047)];
    assert_eq!(network_totals(&rows), (1024, 2048));
    assert_eq!(network_totals(&Vec::new()), (0, 0));
    assert_eq!(network_summary_text(1024, 2048), "\u{2193} 1.00 KB/s \u{2191} 2.00 KB/s");
}

#[test]
fn load_tiers() {
    assert_eq!(status_tier(10.0f32.to_bits(), 10), "Light");
    assert_eq!(status_tier(50.0f32.to_bits(), 60), "Light");
    assert_eq!(status_tier(50.5f32.to_bits(), 0), "Moderate");
    assert_eq!(status_tier(0.0f32.to_bits(), 61), "Moderate");
    assert_eq!(status_tier(80.0f32.to_bits(), 80), "Moderate");
    assert_eq!(status_tier(80.01f32.to_bits(), 0), "Busy");
    assert_eq!(status_tier(0.0f32.to_bits(), 81), "Busy");
    assert_eq!(status_tier(f32::NAN.to_bits(), 0), "Light");
}

#[test]
fn process_row_cells() {
    let p = ProcessRow { pid: 4242, name: "cargo".into(), cpu_bits: 12.5f32.to_bits(), memory: 3 * 1024 * 1024 };
    assert_eq!(process_cells(&p, format!("{:.1}%", f32::from_bits(p.cpu_bits))), vec!["4242", "cargo", "12.5%", "3.00 MB"]);
}

#[test]
fn core_bars_capped() {
    assert_eq!(core_bar_count(4), 4);
    assert_eq!(core_bar_count(16), 16);
    assert_eq!(core_bar_count(64), 16);
}

#[test]
fn summary_lines_list_what_is_known() {
    let f = SummaryFacts {
        cpu_bits: 85.0f32.to_bits(),
        cpu_text: "85.0%".into(),
        mem_pct: 30,
        mem_used: 1024,
        mem_total: 2048,
        first_disk: Some((4096, 1024)),
        network_down: 10,
        network_up: 20,
        wifi: wifi("wlan0"),
    };
    let lines = summary_lines(&f);
    let expect = vec![
        ("Status: ", "Busy"),
        ("CPU Usage: ", "85.0%"),
        ("Memory Usage: ", "1.00 KB / 2.00 KB"),
        ("Storage: ", "3.00 KB / 4.00 KB"),
        ("Network: ", "\u{2193} 10 B/s \u{2191} 20 B/s"),
        ("Wi-Fi: ", "wlan0 (-52 dBm)"),
    ];
    assert_eq!(lines.len(), expect.len());
    for (got, want) in lines.iter().zip(expect.iter()) {
        assert_eq!((got.0.as_str(), got.1.as_str()), *want);
    }
    let f2 = SummaryFacts { first_disk: None, wifi: None, ..f };
    assert_eq!(summary_lines(&f2).len(), 4);
}

#[test]
fn system_rows_in_order() {
    let f = SystemFacts {
        hostname: "box".into(),
        os: "Linux 6".into(),
        uptime: 90,
        load_text: "0.50/0.40/0.30".into(),
        cpu_brand: None,
        cpu_mhz: Some(3200),
        logical_cores: 8,
        cpu_avg_text: "12.3%".into(),
        mem_used: 1024,
        mem_total: 4096,
        mem_free: 512,
        mem_avail: 2048,
        swap_used: 0,
        swap_total: 0,
        process_count: 321,
    };
    let rows = system_rows(&f);
    let got: Vec<(String, String)> = rows;
    let want = vec![
        ("Host", "box"),
        ("OS", "Linux 6"),
        ("Uptime", "1m 30s"),
        ("Load Avg 1/5/15", "0.50/0.40/0.30"),
        ("CPU", "Unknown"),
        ("CPU Freq", "3200 MHz"),
        ("Logical Cores", "8"),
        ("CPU Avg", "12.3%"),
        ("Memory Used", "1.00 KB / 4.00 KB"),
        ("Memory Free", "512 B"),
        ("Memory Avail", "2.00 KB"),
        ("Swap", "0 B / 0 B"),
        ("Process Count", "321"),
    ];
    assert_eq!(got.len(), want.len());
    for (g, w) in got.iter().zip(want.iter()) {
        assert_eq!((g.0.as_str(), g.1.as_str()), *w);
    }
}

#[test]
fn dark_theme_colours() {
    let t = Theme::dark();
    assert_eq!(t.bg, Rgb { r: 15, g: 23, b: 42 });
    assert_eq!(t.fg, Rgb { r: 226, g: 232, b: 240 });
    assert_eq!(t.accent, Rgb { r: 34, g: 211, b: 238 });
    assert_eq!(t.good, Rgb { r: 52, g: 211, b: 153 });
    assert_eq!(t.warn, Rgb { r: 251, g: 191, b: 36 });
    assert_eq!(t.muted, Rgb { r: 148, g: 163, b: 184 });
}
