use activity_monitor::netsh::{
    get_interface_drops_windows, get_wifi_stats_windows, parse_i32_chars, scan_wlan_report,
    signal_to_rssi_dbm, CommandOutput,
};
use activity_monitor::text::{chars_of, trim_chars, white_space};

const REPORT: &str = "\r\nThere is 1 interface on the system:\r\n\r\n    Name                   : Wi-Fi\r\n    Description            : Intel(R) Wi-Fi 6 AX201 160MHz\r\n    State                  : connected\r\n    SSID                   : home\r\n    Radio type             : 802.11ax\r\n    Receive rate (Mbps)    : 573.5\r\n    Signal                 : 88% \r\n    Profile                : home\r\n";

#[test]
fn report_gives_interface_and_signal() {
    let r = scan_wlan_report(REPORT);
    assert_eq!(r.iface.as_deref(), Some("Wi-Fi"));
    assert_eq!(r.signal_pct, Some(88));
}

#[test]
fn wifi_stats_from_successful_report() {
    let out = CommandOutput { success: true, stdout: REPORT.to_string() };
    let w = get_wifi_stats_windows(Some(out)).unwrap();
    assert_eq!(w.iface, "Wi-Fi");
    assert_eq!(w.rssi_dbm, Some(-90 + 88 * 60 / 100));
    assert_eq!(w.rssi_dbm, Some(-38));
    assert_eq!(w.snr_db, None);
}

#[test]
fn wifi_stats_absent_without_output_or_on_failure() {
    assert!(get_wifi_stats_windows(None).is_none());
    let out = CommandOutput { success: false, stdout: REPORT.to_string() };
    assert!(get_wifi_stats_windows(Some(out)).is_none());
}

#[test]
fn wifi_stats_need_both_fields() {
    let only_name = CommandOutput { success: true, stdout: "Name : eth\n".to_string() };
    assert!(get_wifi_stats_windows(Some(only_name)).is_none());
    let only_signal = CommandOutput { success: true, stdout: "Signal : 40%\n".to_string() };
    assert!(get_wifi_stats_windows(Some(only_signal)).is_none());
    let empty = CommandOutput { success: true, stdout: String::new() };
    assert!(get_wifi_stats_windows(Some(empty)).is_none());
}

#[test]
fn last_lines_win_and_bad_signal_is_skipped() {
    let text = "Name: a\nSignal: 10%\nName: b:c\nSignal: lots\nNameless line\n";
    let r = scan_wlan_report(text);
    // "Nameless line" starts with "Name" but has no ':'; "b:c" keeps the
    // text up to the second ':'.
    assert_eq!(r.iface.as_deref(), Some("b"));
    assert_eq!(r.signal_pct, Some(10));
    let r = scan_wlan_report("Name:\nSignal: %%-5%%\n");
    assert_eq!(r.iface.as_deref(), Some(""));
    assert_eq!(r.signal_pct, Some(-5));
}

#[test]
fn lines_are_trimmed_before_matching() {
    let r = scan_wlan_report("\t  Name   :   wlan0  \r\n  Signal:+100%\n");
    assert_eq!(r.iface.as_deref(), Some("wlan0"));
    assert_eq!(r.signal_pct, Some(100));
    // The space left before the removed '%' stops the number from parsing.
    let r = scan_wlan_report("Signal: 100 %\n");
    assert_eq!(r.signal_pct, None);
    let r = scan_wlan_report("SSID name: x\n");
    assert_eq!(r.iface, None);
}

/// What `str` methods read from a report.
fn std_scan(text: &str) -> (Option<String>, Option<i32>) {
    let mut iface = None;
    let mut signal_pct = None;
    for line in text.lines() {
        let line = line.trim();
        if line.starts_with("Name") {
            if let Some(val) = line.split(':').nth(1) {
                iface = Some(val.trim().to_string());
            }
        } else if line.starts_with("Signal") {
            if let Some(val) = line.split(':').nth(1) {
                let val = val.trim().replace('%', "");
                if let Ok(pct) = val.parse::<i32>() {
                    signal_pct = Some(pct);
                }
            }
        }
    }
    (iface, signal_pct)
}

#[test]
fn scan_matches_std_string_methods() {
    let texts = [
        REPORT,
        "",
        "\n",
        "Name",
        "Name:",
        "Name::",
        "Signal: 2147483647%",
        "Signal: 2147483648",
        "Signal: -2147483648",
        "Signal: -",
        "Signal: +",
        "Signal: 1 2",
        "Signal:\u{a0}42\u{3000}",
        "Name: x\rSignal: 5\r",
        "Name: x\r\nSignal: 5\r\n\r\n",
        "  Name : \u{2003}caf\u{e9}\u{2003}\n Signal : 0%",
    ];
    for t in texts {
        let r = scan_wlan_report(t);
        assert_eq!((r.iface, r.signal_pct), std_scan(t), "report {:?}", t);
    }
}

#[test]
fn parse_matches_std() {
    let cases = [
        "", "0", "-0", "+0", "7", "-7", "+7", "00012", "2147483647", "2147483648", "-2147483648",
        "-2147483649", "99999999999999999999", "12a", "a12", " 1", "1 ", "-", "+", "--1", "+-1",
        "\u{661}",
    ];
    for c in cases {
        let v = chars_of(c);
        assert_eq!(parse_i32_chars(&v), c.parse::<i32>().ok(), "text {:?}", c);
    }
}

#[test]
fn white_space_matches_std() {
    for u in 0u32..0x11_0000 {
        if let Some(c) = char::from_u32(u) {
            assert_eq!(white_space(c), c.is_whitespace(), "char {:x}", u);
        }
    }
}

#[test]
fn trim_matches_std() {
    for s in ["", "  ", " a ", "\u{85}x\u{2028}", "a b", "\t\r\n"] {
        let t = trim_chars(&chars_of(s));
        assert_eq!(t.iter().collect::<String>(), s.trim());
    }
}

#[test]
fn rssi_scale_ends() {
    assert_eq!(signal_to_rssi_dbm(0), -90);
    assert_eq!(signal_to_rssi_dbm(100), -30);
    assert_eq!(signal_to_rssi_dbm(50), -60);
    assert_eq!(signal_to_rssi_dbm(1), -90);
    assert_eq!(signal_to_rssi_dbm(-5), -93);
    assert_eq!(signal_to_rssi_dbm(35791394), -90 + 35791394 * 60 / 100);
    let mut last = signal_to_rssi_dbm(0);
    for p in 1..=100 {
        let r = signal_to_rssi_dbm(p);
        assert!(r >= last);
        last = r;
    }
}

#[test]
fn drops_are_zero() {
    assert_eq!(get_interface_drops_windows("eth0"), 0);
    assert_eq!(get_interface_drops_windows(""), 0);
}

#[test]
fn written_report_reads_back() {
    for (name, pct) in [("Wi-Fi", 0u32), ("wlan0", 73), ("Wireless Network Connection 2", 100), ("x", 2147483647)] {
        let r = scan_wlan_report(&format!("Name: {}\nSignal: {}%\n", name, pct));
        assert_eq!(r.iface.as_deref(), Some(name));
        assert_eq!(r.signal_pct, Some(pct as i32));
    }
}
