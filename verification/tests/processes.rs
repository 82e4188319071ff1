use tmez::processes::{collect_top, short_process_name, ProcessRow};

fn row(pid: u32, cpu: f32) -> ProcessRow {
    ProcessRow { pid, name: format!("p{}", pid), cpu_bits: cpu.to_bits(), memory_bytes: 0 }
}

#[test]
fn top_processes_sorted_and_stable() {
    let rows = vec![row(1, 0.5), row(2, 3.0), row(3, 0.5), row(4, 0.0), row(5, 3.0), row(6, 12.5)];
    let top = collect_top(rows, 4);
    let pids: Vec<u32> = top.iter().map(|r| r.pid).collect();
    assert_eq!(pids, vec![6, 2, 5, 1]);
    assert_eq!(top[0].name, "p6");
}

#[test]
fn top_processes_limits() {
    let top = collect_top(vec![row(1, 1.0), row(2, 2.0)], 50);
    let pids: Vec<u32> = top.iter().map(|r| r.pid).collect();
    assert_eq!(pids, vec![2, 1]);
    assert!(collect_top(vec![row(1, 1.0)], 0).is_empty());
    assert!(collect_top(vec![], 3).is_empty());
}

#[test]
fn top_processes_agree_with_stable_float_sort() {
    let mut x: u32 = 7;
    let mut rows = Vec::new();
    let mut floats = Vec::new();
    for pid in 0..300u32 {
        x = x.wrapping_mul(1664525).wrapping_add(1013904223);
        let cpu = ((x >> 20) % 50) as f32 / 4.0;
        rows.push(row(pid, cpu));
        floats.push((pid, cpu));
    }
    floats.sort_by(|a, b| b.1.partial_cmp(&a.1).unwrap_or(std::cmp::Ordering::Equal));
    floats.truncate(50);
    let top = collect_top(rows, 50);
    let got: Vec<u32> = top.iter().map(|r| r.pid).collect();
    let want: Vec<u32> = floats.iter().map(|p| p.0).collect();
    assert_eq!(got, want);
}

#[test]
fn process_names_are_shortened() {
    assert_eq!(short_process_name("short.exe"), "short.exe");
    assert_eq!(short_process_name("exactly_twenty_bytes"), "exactly_twenty_bytes");
    assert_eq!(short_process_name("a_much_longer_process_name.exe"), "a_much_longer_proce…");
    // 9 two-byte letters and one ASCII byte: the cut falls on a boundary.
    assert_eq!(short_process_name("xпроцессорыабв"), "xпроцессор…");
}

#[test]
fn odd_cpu_values_rank_as_zero() {
    let rows = vec![row(1, 0.0), row(2, f32::NAN), row(3, -0.0), row(4, 0.25), row(5, f32::INFINITY)];
    let top = collect_top(rows, 5);
    let pids: Vec<u32> = top.iter().map(|r| r.pid).collect();
    assert_eq!(pids, vec![5, 4, 1, 2, 3]);
    assert!(f32::from_bits(top[3].cpu_bits).is_nan());
}
