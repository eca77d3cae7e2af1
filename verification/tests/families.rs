use bar_module::Snapshot;
use bar_module::Stat;
use bar_module::cpu::output_difference;
use bar_module::diff;
use bar_module::inet::Connections;
use bar_module::inet::get_connections;
use bar_module::inet::get_symbol;
use bar_module::inet::is_ula;
use bar_module::reconcile;

fn snapshot_of(entries: &[(&str, u64, u64)]) -> Snapshot {
    let mut s = Snapshot::new();
    for (k, rx, tx) in entries {
        s.insert(k.to_string(), Stat { rx: *rx, tx: *tx });
    }
    s
}

#[test]
fn diff_keeps_only_shared_keys() {
    let prev = snapshot_of(&[("sda", 10, 20), ("gone", 1, 1)]);
    let cur = snapshot_of(&[("sda", 15, 26), ("fresh", 9, 9)]);
    let d = diff(&prev, &cur);
    assert_eq!(d.get(&"sda".to_string()), Some(Stat { rx: 5, tx: 6 }));
    assert_eq!(d.get(&"gone".to_string()), None);
    assert_eq!(d.get(&"fresh".to_string()), None);
}

#[test]
fn diff_clamps_backward_counters() {
    let prev = snapshot_of(&[("sda", 100, 7)]);
    let cur = snapshot_of(&[("sda", 40, 9)]);
    let d = diff(&prev, &cur);
    assert_eq!(d.get(&"sda".to_string()), Some(Stat { rx: 0, tx: 2 }));
}

#[test]
fn reconcile_suppresses_children_and_aliases() {
    let keys = vec![
        "sda".to_string(),
        "sda1".to_string(),
        "sdb".to_string(),
        "dm-0".to_string(),
    ];
    let r = reconcile(&keys);
    assert_eq!(r, vec!["sda".to_string(), "sdb".to_string()]);
}

#[test]
fn reconcile_sorts_lexicographically() {
    let keys = vec!["sdc".to_string(), "sda".to_string(), "sdb".to_string()];
    let r = reconcile(&keys);
    assert_eq!(
        r,
        vec!["sda".to_string(), "sdb".to_string(), "sdc".to_string()]
    );
}

#[test]
fn reconcile_lone_alias_is_suppressed() {
    let keys = vec!["dm-0".to_string()];
    let r = reconcile(&keys);
    assert!(r.is_empty());
}

#[test]
fn cpu_mid_utilization_is_yellow() {
    // previous idle 100 / total 200, current idle 150 / total 300:
    // delta idle 50, delta total 100, utilization 1 - 50/100 = 0.5.
    let old = (vec![100i64], vec![200i64]);
    let recent = (vec![150i64], vec![300i64]);
    let line = output_difference(Some(old), Some(recent)).unwrap();
    assert_eq!(line, "\u{f4bc} <span foreground='#FFFF00'>\u{25cf}</span>");
}

#[test]
fn cpu_cold_start_emits_nothing() {
    assert_eq!(output_difference(None, Some((vec![1], vec![2]))), None);
    assert_eq!(output_difference(Some((vec![1], vec![2])), None), None);
    assert_eq!(output_difference(None, None), None);
}

#[test]
fn cpu_zero_elapsed_core_is_omitted() {
    let old = (vec![5i64, 100i64], vec![9i64, 200i64]);
    let recent = (vec![5i64, 150i64], vec![9i64, 300i64]);
    let line = output_difference(Some(old), Some(recent)).unwrap();
    assert_eq!(line, "\u{f4bc} <span foreground='#FFFF00'>\u{25cf}</span>");
}

#[test]
fn symbols_follow_name_prefixes() {
    assert_eq!(get_symbol(&"wlan0".to_string()), '\u{f1eb}');
    assert_eq!(get_symbol(&"wlp3s0".to_string()), '\u{f1eb}');
    assert_eq!(get_symbol(&"eth0".to_string()), '\u{f0201}');
    assert_eq!(get_symbol(&"enp4s0".to_string()), '\u{f0201}');
    assert_eq!(get_symbol(&"tun0".to_string()), '\u{f023}');
    assert_eq!(get_symbol(&"wg0".to_string()), '\u{f510}');
    assert_eq!(get_symbol(&"wwan0".to_string()), '\u{f08bf}');
    assert_eq!(get_symbol(&"br-abc".to_string()), '\u{f0618}');
    assert_eq!(get_symbol(&"docker0".to_string()), '\u{f0618}');
    assert_eq!(get_symbol(&"veth12".to_string()), '\u{e734}');
    assert_eq!(get_symbol(&"lo".to_string()), ' ');
}

#[test]
fn connection_counts_skip_the_header() {
    let c = get_connections("hdr\na\nb\n", "", "hdr", "hdr\nx");
    assert_eq!(
        c,
        Connections { tcp4: 2, tcp6: 0, udp4: 0, udp6: 1 }
    );
}

#[test]
fn ula_detection_checks_the_prefix_bits() {
    assert!(is_ula(0xfc00));
    assert!(is_ula(0xfd12));
    assert!(!is_ula(0xfe00));
    assert!(!is_ula(0x2001));
    assert!(!is_ula(0x0000));
}
