use roofpi::proc_stat::parse_cpu_stats;
use roofpi::system_resources::{usage_level, CpuStat, SystemResources};

const IDLE: &str = "cpu  0 0 0 0 0 0 0 0 0 0\ncpu0 0 0 0 0 0 0 0 0 0 0\ncpu1 0 0 0 0 0 0 0 0 0 0\n";

#[test]
fn busiest_core_drives_the_level() {
    let after = "cpu  90 0 0 110 0 0 0 0 0 0\ncpu0 80 0 0 20 0 0 0 0 0 0\ncpu1 10 0 0 90 0 0 0 0 0 0\n";
    let cpu = SystemResources::new();
    assert_eq!(cpu.get_cpu_stats(IDLE, after), 8);
    assert_eq!(cpu.get_line(IDLE, after), "CPU: ########  ");
}

#[test]
fn no_tick_movement_gives_level_zero() {
    let cpu = SystemResources::new();
    assert_eq!(cpu.get_cpu_stats(IDLE, IDLE), 0);
    let busy = "cpu0 500 3 4 100 2 1 1 0 0 0\n";
    assert_eq!(cpu.get_cpu_stats(busy, busy), 0);
    assert_eq!(cpu.get_line(busy, busy), "CPU:           ");
}

#[test]
fn unreadable_source_gives_level_zero() {
    let cpu = SystemResources::new();
    assert_eq!(cpu.get_cpu_stats("", ""), 0);
    assert_eq!(cpu.get_cpu_stats("", "cpu0 5 0 0 0 0 0 0 0 0 0\n"), 0);
}

#[test]
fn short_line_is_skipped() {
    let text = "cpu0 1 2 3 4 5\ncpu1 1 2 3 4 5 6 7 8 9 10\n";
    let rows = parse_cpu_stats(text);
    assert_eq!(rows.len(), 1);
    assert_eq!(rows[0].label, b"cpu1".to_vec());
    let cpu = SystemResources::new();
    let before = "cpu0 0 0 0 0 0 0 0 0 0 0\n";
    let after = "cpu0 100 0 0 0 0\n";
    assert_eq!(cpu.get_cpu_stats(before, after), 0);
}

#[test]
fn fields_parse_in_kernel_order() {
    let rows = parse_cpu_stats("cpu3 1 2 3 4 5 6 7 8 9 10 11 12\n");
    assert_eq!(rows.len(), 1);
    assert_eq!(
        rows[0].stat,
        CpuStat {
            user: 1,
            nice: 2,
            system: 3,
            idle: 4,
            iowait: 5,
            irq: 6,
            softirq: 7,
            steal: 8,
            guest: 9,
            guest_nice: 10,
        }
    );
    assert_eq!(rows[0].stat.total(), 55);
}

#[test]
fn other_lines_and_bad_fields() {
    let text = "intr 1 2 3 4 5 6 7 8 9 10 11\n cpu0 1 2 3 4 5 6 7 8 9 10\r\ncpu\t+7 x 18446744073709551616 18446744073709551615 -1 0 0 0 0 0\r\nctxt 12";
    let rows = parse_cpu_stats(text);
    assert_eq!(rows.len(), 1);
    assert_eq!(rows[0].label, b"cpu".to_vec());
    assert_eq!(rows[0].stat.user, 7);
    assert_eq!(rows[0].stat.nice, 0);
    assert_eq!(rows[0].stat.system, 0);
    assert_eq!(rows[0].stat.idle, u64::MAX);
    assert_eq!(rows[0].stat.iowait, 0);
}

#[test]
fn last_line_without_newline_counts() {
    let rows = parse_cpu_stats("cpu0 1 1 1 1 1 1 1 1 1 1\ncpu1 2 2 2 2 2 2 2 2 2 2");
    assert_eq!(rows.len(), 2);
    assert_eq!(rows[1].label, b"cpu1".to_vec());
    assert_eq!(rows[1].stat.total(), 20);
}

#[test]
fn regressing_idle_counter_stays_in_range() {
    let cpu = SystemResources::new();
    let before = "cpu0 0 0 0 1000 0 0 0 0 0 0\n";
    let after = "cpu0 100 0 0 990 0 0 0 0 0 0\n";
    assert_eq!(cpu.get_cpu_stats(before, after), 10);
    let shrunk = "cpu0 10 0 0 950 0 0 0 0 0 0\n";
    assert_eq!(cpu.get_cpu_stats(before, shrunk), 0);
    let huge = "cpu0 18446744073709551615 18446744073709551615 0 0 0 0 0 0 0 0\n";
    assert_eq!(cpu.get_cpu_stats(IDLE, huge), 10);
    assert_eq!(cpu.get_cpu_stats(huge, IDLE), 0);
}

#[test]
fn level_rounds_half_up() {
    let cpu = SystemResources::new();
    let before = "cpu0 0 0 0 0 0 0 0 0 0 0\n";
    assert_eq!(cpu.get_cpu_stats(before, "cpu0 85 0 0 15 0 0 0 0 0 0\n"), 9);
    assert_eq!(cpu.get_cpu_stats(before, "cpu0 84 0 0 16 0 0 0 0 0 0\n"), 8);
    assert_eq!(cpu.get_cpu_stats(before, "cpu0 1 0 0 2 0 0 0 0 0 0\n"), 3);
    assert_eq!(cpu.get_cpu_stats(before, "cpu0 0 0 0 0 10 0 0 0 0 0\n"), 0);
}

#[test]
fn rows_match_by_label_not_position() {
    let before = parse_cpu_stats("cpu0 0 0 0 0 0 0 0 0 0 0\ncpu1 0 0 0 0 0 0 0 0 0 0\n");
    let after = parse_cpu_stats("cpu1 30 0 0 70 0 0 0 0 0 0\ncpu0 60 0 0 40 0 0 0 0 0 0\ncpu9 9 0 0 0 0 0 0 0 0 0\n");
    assert_eq!(usage_level(&before, &after), 6);
}

#[test]
fn line_length_is_fixed() {
    let cpu = SystemResources::new();
    let before = "cpu0 0 0 0 0 0 0 0 0 0 0\n";
    for busy in 0..=10u64 {
        let after = format!("cpu0 {} 0 0 {} 0 0 0 0 0 0\n", busy, 10 - busy);
        let line = cpu.get_line(before, &after);
        assert_eq!(line.chars().count(), 15);
        assert_eq!(line.matches('#').count() as u64, busy);
    }
}

#[test]
fn unicode_white_space_separates_fields() {
    let text = "cpu\u{A0}0 0 0 0 0 0 0 0 0 0\n";
    let rows = parse_cpu_stats(text);
    assert_eq!(rows.len(), 1);
    assert_eq!(rows[0].label, b"cpu".to_vec());
    assert_eq!(rows[0].stat.total(), 0);

    let text = "cpu1\u{3000}1\u{2028}2\u{85}3\u{2003}4\u{205F}5\u{1680}6\u{202F}7\u{200A}8\u{2029}9\u{0B}10\n";
    let rows = parse_cpu_stats(text);
    assert_eq!(rows.len(), 1);
    assert_eq!(rows[0].label, b"cpu1".to_vec());
    assert_eq!(rows[0].stat.user, 1);
    assert_eq!(rows[0].stat.guest_nice, 10);
    assert_eq!(rows[0].stat.total(), 55);
}

#[test]
fn other_characters_do_not_separate_fields() {
    // U+00A9 and U+200B are not white space: the line has too few fields
    let rows = parse_cpu_stats("cpu0 1\u{A9}2 3 4 5 6 7 8 9 10\ncpu1 1\u{200B}2 3 4 5 6 7 8 9 10\n");
    assert_eq!(rows.len(), 0);
    let rows = parse_cpu_stats("cpu0 1\u{A9} 2 3 4 5 6 7 8 9 10\n");
    assert_eq!(rows.len(), 1);
    assert_eq!(rows[0].stat.user, 0);
    assert_eq!(rows[0].stat.nice, 2);
}
