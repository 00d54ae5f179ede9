use activity_monitor::order::{f32_bits_are_nan, f32_bits_greater, f32_key, sort_by_rank_desc};
use activity_monitor::state::{NetworkRow, ProcessRow};

fn net(name: &str, down: u64, up: u64) -> NetworkRow {
    NetworkRow {
        iface: name.to_string(),
        down_rate: down,
        up_rate: up,
        total_in: 0,
        total_out: 0,
        errors_in: 0,
        errors_out: 0,
        drops: 0,
    }
}

fn sample_floats() -> Vec<f32> {
    let mut v = vec![
        0.0, -0.0, 1.0, -1.0, 0.5, 80.0, 50.0, 79.99999, 80.00001, 100.0, 1e-45, -1e-45,
        f32::MIN_POSITIVE, f32::MAX, f32::MIN, f32::INFINITY, f32::NEG_INFINITY, 3.25, 1e30,
        -1e30, 12.5,
    ];
    for i in 0..200 {
        v.push(i as f32 * 0.37 - 20.0);
    }
    v
}

#[test]
fn key_orders_as_floats_compare() {
    let fs = sample_floats();
    for &a in &fs {
        for &b in &fs {
            let (ka, kb) = (f32_key(a.to_bits()), f32_key(b.to_bits()));
            assert_eq!(ka.cmp(&kb), a.partial_cmp(&b).unwrap(), "{} {}", a, b);
            assert_eq!(f32_bits_greater(a.to_bits(), b.to_bits()), a > b);
        }
    }
}

#[test]
fn nan_bits_are_recognised() {
    assert!(f32_bits_are_nan(f32::NAN.to_bits()));
    assert!(f32_bits_are_nan((-f32::NAN).to_bits()));
    assert!(f32_bits_are_nan(0x7F80_0001));
    assert!(!f32_bits_are_nan(f32::INFINITY.to_bits()));
    assert!(!f32_bits_are_nan(f32::NEG_INFINITY.to_bits()));
    assert!(!f32_bits_are_nan(1.5f32.to_bits()));
    assert!(!f32_bits_greater(f32::NAN.to_bits(), 0.0f32.to_bits()));
    assert!(!f32_bits_greater(0.0f32.to_bits(), f32::NAN.to_bits()));
}

#[test]
fn sort_is_descending_and_stable() {
    let rows = vec![net("a", 1, 1), net("b", 5, 0), net("c", 0, 2), net("d", 2, 3), net("e", 0, 0)];
    let sorted = sort_by_rank_desc(rows);
    let names: Vec<&str> = sorted.iter().map(|r| r.iface.as_str()).collect();
    assert_eq!(names, vec!["b", "d", "a", "c", "e"]);
}

#[test]
fn sort_matches_std_stable_sort() {
    let mut seed: u64 = 12345;
    for round in 0..50 {
        let mut rows = Vec::new();
        for i in 0..(round % 17) {
            seed = seed.wrapping_mul(6364136223846793005).wrapping_add(1442695040888963407);
            let cpu = ((seed >> 33) % 7) as f32 * 0.5;
            rows.push(ProcessRow { pid: i as u32, name: format!("p{}", i), cpu_bits: cpu.to_bits(), memory: 0 });
        }
        let mut expected: Vec<u32> = rows.iter().map(|r| r.pid).collect();
        let cpus: Vec<f32> = rows.iter().map(|r| f32::from_bits(r.cpu_bits)).collect();
        expected.sort_by(|a, b| cpus[*b as usize].partial_cmp(&cpus[*a as usize]).unwrap());
        let got: Vec<u32> = sort_by_rank_desc(rows).iter().map(|r| r.pid).collect();
        assert_eq!(got, expected);
    }
}

#[test]
fn sorting_a_sorted_table_keeps_it() {
    let rows = vec![net("x", 9, 0), net("y", 4, 4), net("z", 8, 0), net("w", 1, 0)];
    let once = sort_by_rank_desc(rows);
    let names1: Vec<String> = once.iter().map(|r| r.iface.clone()).collect();
    let twice = sort_by_rank_desc(once);
    let names2: Vec<String> = twice.iter().map(|r| r.iface.clone()).collect();
    assert_eq!(names1, names2);
    assert_eq!(names1, vec!["x", "y", "z", "w"]);
}
