use activity_monitor::netsh::WifiStats;
use activity_monitor::state::{
    Action, AppState, History, InterfaceSample, Key, KillRequest, ProcessRow, HISTORY_LEN,
    TAB_COUNT, TOP_PROCESS_COUNT,
};

fn proc_row(pid: u32, cpu: f32) -> ProcessRow {
    ProcessRow { pid, name: format!("proc{}", pid), cpu_bits: cpu.to_bits(), memory: pid as u64 * 1000 }
}

fn sample(name: &str, total_in: u64, total_out: u64) -> InterfaceSample {
    InterfaceSample { name: name.to_string(), total_in, total_out, errors_in: 1, errors_out: 2 }
}

#[test]
fn starts_on_first_tab_with_first_row_selected() {
    let s = AppState::new();
    assert_eq!(s.active_tab(), 0);
    assert!(!s.paused());
    assert_eq!(s.selected(), Some(0));
    assert!(s.wifi_stats().is_none());
    assert!(s.network_rows().is_empty());
    assert!(s.process_rows().is_empty());
}

#[test]
fn tabs_wrap_around() {
    let mut s = AppState::new();
    s.prev_tab();
    assert_eq!(s.active_tab(), TAB_COUNT - 1);
    s.next_tab();
    assert_eq!(s.active_tab(), 0);
    for i in 1..=TAB_COUNT {
        s.next_tab();
        assert_eq!(s.active_tab(), i % TAB_COUNT);
    }
}

#[test]
fn tab_moves_undo_each_other() {
    let mut s = AppState::new();
    for _ in 0..TAB_COUNT {
        let t = s.active_tab();
        s.next_tab();
        s.prev_tab();
        assert_eq!(s.active_tab(), t);
        s.prev_tab();
        s.next_tab();
        assert_eq!(s.active_tab(), t);
        s.next_tab();
    }
}

#[test]
fn selection_needs_rows_and_wraps() {
    let mut s = AppState::new();
    s.select_next_process();
    assert_eq!(s.selected(), Some(0));
    s.select_prev_process();
    assert_eq!(s.selected(), Some(0));
    s.update_processes(vec![proc_row(1, 1.0), proc_row(2, 2.0), proc_row(3, 3.0)]);
    s.select_prev_process();
    assert_eq!(s.selected(), Some(2));
    s.select_next_process();
    assert_eq!(s.selected(), Some(0));
    s.select_next_process();
    assert_eq!(s.selected(), Some(1));
    s.select_prev_process();
    assert_eq!(s.selected(), Some(0));
}

#[test]
fn process_table_keeps_top_by_cpu() {
    let mut s = AppState::new();
    let mut rows = Vec::new();
    for pid in 0..40u32 {
        rows.push(proc_row(pid, (pid % 13) as f32 * 1.5));
    }
    s.update_processes(rows);
    let table = s.process_rows();
    assert_eq!(table.len(), TOP_PROCESS_COUNT);
    let cpus: Vec<f32> = table.iter().map(|r| f32::from_bits(r.cpu_bits)).collect();
    for w in cpus.windows(2) {
        assert!(w[0] >= w[1]);
    }
    // pids 12, 25, 38 have the top usage (18.0), in the order given.
    let pids: Vec<u32> = table.iter().take(3).map(|r| r.pid).collect();
    assert_eq!(pids, vec![12, 25, 38]);
    // Every row left out uses no more CPU than the last row shown.
    assert!(cpus[TOP_PROCESS_COUNT - 1] >= 6.0);
}

#[test]
fn short_process_list_is_kept_whole() {
    let mut s = AppState::new();
    s.update_processes(vec![proc_row(7, 0.5), proc_row(8, 9.0)]);
    let pids: Vec<u32> = s.process_rows().iter().map(|r| r.pid).collect();
    assert_eq!(pids, vec![8, 7]);
}

#[test]
fn kill_targets_selected_row() {
    let mut s = AppState::new();
    assert_eq!(s.kill_selected_process(true), None);
    s.update_processes(vec![proc_row(10, 1.0), proc_row(20, 5.0)]);
    assert_eq!(s.kill_selected_process(false), Some(KillRequest { pid: 20, force: false }));
    s.select_next_process();
    assert_eq!(s.kill_selected_process(true), Some(KillRequest { pid: 10, force: true }));
    // A selection beyond the table asks for nothing.
    s.update_processes(vec![proc_row(30, 1.0)]);
    assert_eq!(s.kill_selected_process(true), None);
}

#[test]
fn keys_drive_the_dashboard() {
    let mut s = AppState::new();
    s.update_processes(vec![proc_row(1, 3.0), proc_row(2, 2.0)]);
    assert_eq!(s.handle_key(Key::Char('q')), Action::Quit);
    assert_eq!(s.handle_key(Key::Esc), Action::Quit);
    assert_eq!(s.handle_key(Key::Char('r')), Action::Refresh);
    assert_eq!(s.handle_key(Key::Char(' ')), Action::Nothing);
    assert!(s.paused());
    assert!(!s.tick_refreshes());
    assert_eq!(s.handle_key(Key::Char('r')), Action::Nothing);
    assert_eq!(s.handle_key(Key::Char(' ')), Action::Nothing);
    assert!(!s.paused());
    assert!(s.tick_refreshes());
    assert_eq!(s.handle_key(Key::Right), Action::Nothing);
    assert_eq!(s.active_tab(), 1);
    assert_eq!(s.handle_key(Key::Left), Action::Nothing);
    assert_eq!(s.active_tab(), 0);
    assert_eq!(s.handle_key(Key::Down), Action::Nothing);
    assert_eq!(s.selected(), Some(1));
    assert_eq!(s.handle_key(Key::Char('k')), Action::Kill(KillRequest { pid: 2, force: false }));
    assert_eq!(s.handle_key(Key::Up), Action::Nothing);
    assert_eq!(s.handle_key(Key::Char('K')), Action::Kill(KillRequest { pid: 1, force: true }));
    assert_eq!(s.handle_key(Key::Char('x')), Action::Nothing);
    assert_eq!(s.handle_key(Key::Other), Action::Nothing);
    assert_eq!(s.selected(), Some(0));
    assert_eq!(s.active_tab(), 0);
}

#[test]
fn wifi_polls_follow_schedule() {
    let sec: u64 = 1_000_000_000;
    let mut s = AppState::new();
    assert!(s.wifi_poll_due(0));
    s.record_wifi_poll(10 * sec, None);
    assert!(!s.wifi_poll_due(11 * sec));
    assert!(s.wifi_poll_due(12 * sec));
    let w = WifiStats { iface: "wlan0".to_string(), rssi_dbm: Some(-40), snr_db: None };
    s.record_wifi_poll(12 * sec, Some(w));
    assert_eq!(s.wifi_stats().as_ref().unwrap().iface, "wlan0");
    assert!(!s.wifi_poll_due(14 * sec));
    assert!(!s.wifi_poll_due(27 * sec - 1));
    assert!(s.wifi_poll_due(27 * sec));
    // A clock that went back counts as no time passed.
    assert!(!s.wifi_poll_due(5 * sec));
}

#[test]
fn interface_rates_need_an_earlier_sample() {
    let mut s = AppState::new();
    let a = sample("eth0", 1000, 500);
    assert!(s.rate_input(100, &a).is_none());
    let row = s.observe_interface(100, a, (77, 77));
    assert_eq!((row.down_rate, row.up_rate), (0, 0));
    assert_eq!(row.total_in, 1000);
    assert_eq!(row.errors_out, 2);
    assert_eq!(row.drops, 0);
    assert_eq!(s.previous_counters(&"eth0".to_string()), Some((1000, 500, 100)));

    let b = sample("eth0", 3000, 900);
    let input = s.rate_input(1_000_000_100, &b).unwrap();
    assert_eq!((input.delta_in, input.delta_out, input.elapsed_nanos), (2000, 400, 1_000_000_000));
    let row = s.observe_interface(1_000_000_100, b, (2000, 400));
    assert_eq!((row.down_rate, row.up_rate), (2000, 400));
    assert_eq!(s.previous_counters(&"eth0".to_string()), Some((3000, 900, 1_000_000_100)));

    // No time passed: no rates.
    let c = sample("eth0", 4000, 900);
    assert!(s.rate_input(1_000_000_100, &c).is_none());
    let row = s.observe_interface(1_000_000_100, c, (5, 5));
    assert_eq!((row.down_rate, row.up_rate), (0, 0));
    assert!(s.previous_counters(&"wlan0".to_string()).is_none());
}

#[test]
fn network_table_sorted_by_throughput() {
    let mut s = AppState::new();
    let mut rows = Vec::new();
    for (name, d, u) in [("lo", 10, 10), ("eth0", 500, 1), ("wlan0", 100, 100), ("docker0", 20, 0)] {
        let mut r = s.observe_interface(0, sample(name, 0, 0), (0, 0));
        r.down_rate = d;
        r.up_rate = u;
        rows.push(r);
    }
    s.update_network_rows(rows);
    let names: Vec<&str> = s.network_rows().iter().map(|r| r.iface.as_str()).collect();
    assert_eq!(names, vec!["eth0", "wlan0", "lo", "docker0"]);
}

#[test]
fn history_keeps_latest_samples() {
    let mut h: History<u32> = History::new();
    assert!(h.samples().is_empty());
    for i in 0..(HISTORY_LEN as u32 + 30) {
        h.push(i);
        assert!(h.samples().len() <= HISTORY_LEN);
    }
    let s = h.samples();
    assert_eq!(s.len(), HISTORY_LEN);
    assert_eq!(s[0], 30);
    assert_eq!(s[HISTORY_LEN - 1], HISTORY_LEN as u32 + 29);
    let mut g: History<f32> = History::new();
    g.push(1.5);
    g.push(2.5);
    assert_eq!(g.samples(), &[1.5, 2.5]);
}

#[test]
fn drawn_selection_is_taken_over() {
    let mut s = AppState::new();
    s.update_processes(vec![proc_row(1, 1.0), proc_row(2, 2.0)]);
    s.set_selection(Some(1));
    assert_eq!(s.selected(), Some(1));
    assert_eq!(s.kill_selected_process(false), Some(KillRequest { pid: 1, force: false }));
    s.set_selection(None);
    assert_eq!(s.kill_selected_process(false), None);
    s.select_next_process();
    assert_eq!(s.selected(), Some(0));
}
