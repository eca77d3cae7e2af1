use bar_module::Snapshot;
use bar_module::Stat;
use bar_module::disk;
use bar_module::inet;
use bar_module::inet::Connections;

fn one_key(key: &str, rx: u64, tx: u64) -> Snapshot {
    let mut s = Snapshot::new();
    s.insert(key.to_string(), Stat { rx, tx });
    s
}

#[test]
fn disk_format_text_renders_idle_device() {
    let d = one_key("sda", 0, 0);
    let t = disk::format_text(&"sda".to_string(), &d).unwrap();
    assert_eq!(
        t,
        "<span foreground='#00FF00'>\u{f0d8}</span> <span foreground='#00FF00'>\u{f0d7}</span>"
    );
    assert_eq!(disk::format_text(&"sdb".to_string(), &d), None);
}

#[test]
fn disk_format_tooltip_renders_magnitudes() {
    let d = one_key("sda", 1u64 << 30, 0);
    let t = disk::format_tooltip(&"sda".to_string(), &d).unwrap();
    assert!(t.starts_with("sda: <span foreground='#"));
    assert!(t.contains("  1.0G\u{f0d8}</span>"));
    assert!(t.contains("    0B\u{f0d7}</span>"));
    assert_eq!(disk::format_tooltip(&"sdc".to_string(), &d), None);
}

#[test]
fn disk_line_reconciles_and_wraps() {
    let prev = one_key("sda", 0, 0);
    let cur = one_key("sda", 0, 0);
    let line = disk::get_diff(&prev, &cur);
    let expected = "{\"text\": \"\u{f0a0} <span foreground='#00FF00'>\u{f0d8}</span> <span foreground='#00FF00'>\u{f0d7}</span>\", \"tooltip\": \"sda: <span foreground='#00FF00'>    0B\u{f0d8}</span><span foreground='#00FF00'>    0B\u{f0d7}</span>\"}";
    assert_eq!(line, expected);
}

#[test]
fn disk_line_drops_partitions() {
    let mut prev = Snapshot::new();
    prev.insert("sda".to_string(), Stat { rx: 0, tx: 0 });
    prev.insert("sda1".to_string(), Stat { rx: 0, tx: 0 });
    let mut cur = Snapshot::new();
    cur.insert("sda".to_string(), Stat { rx: 0, tx: 0 });
    cur.insert("sda1".to_string(), Stat { rx: 0, tx: 0 });
    let line = disk::get_diff(&prev, &cur);
    assert!(line.contains("sda: "));
    assert!(!line.contains("sda1: "));
}

#[test]
fn inet_line_carries_addresses_and_counts() {
    let prev = one_key("eth0", 0, 0);
    let cur = one_key("eth0", 0, 0);
    let conn = Connections { tcp4: 1, tcp6: 2, udp4: 3, udp6: 4 };
    let line = inet::get_diff(
        &prev,
        &cur,
        &"203.0.113.9".to_string(),
        &"".to_string(),
        &conn,
    );
    let expected = "{\"text\": \"\u{f0201}<span foreground='#00FF00'>\u{f063}</span><span foreground='#00FF00'>\u{f062}</span>\", \"tooltip\": \"\u{f0201} eth0: <span foreground='#00FF00'>    0B\u{f063}</span> <span foreground='#00FF00'>    0B\u{f062}</span>\r\rIPv4: 203.0.113.9\rIPv6: \r\rTCP: 1\rTCP6: 2\r\rUDP: 3\rUDP6: 4\"}";
    assert_eq!(line, expected);
}

#[test]
fn inet_line_keeps_stale_address_after_failed_lookup() {
    // The resolver's side-activity failed this period: the caller retains
    // the previous value (or an empty string) and the record still carries
    // it verbatim, unchanged in shape.
    let prev = one_key("eth0", 0, 0);
    let cur = one_key("eth0", 0, 0);
    let conn = Connections { tcp4: 0, tcp6: 0, udp4: 0, udp6: 0 };
    let stale = inet::get_diff(
        &prev,
        &cur,
        &"198.51.100.7".to_string(),
        &"2001:db8::1".to_string(),
        &conn,
    );
    assert!(stale.contains("IPv4: 198.51.100.7\r"));
    assert!(stale.contains("IPv6: 2001:db8::1\r"));
    let empty = inet::get_diff(&prev, &cur, &"".to_string(), &"".to_string(), &conn);
    assert!(empty.contains("IPv4: \r"));
    assert!(empty.contains("IPv6: \r"));
}

#[test]
fn inet_line_sorts_interfaces() {
    let mut prev = Snapshot::new();
    prev.insert("wlan0".to_string(), Stat { rx: 0, tx: 0 });
    prev.insert("eth0".to_string(), Stat { rx: 0, tx: 0 });
    let mut cur = Snapshot::new();
    cur.insert("wlan0".to_string(), Stat { rx: 0, tx: 0 });
    cur.insert("eth0".to_string(), Stat { rx: 0, tx: 0 });
    let conn = Connections { tcp4: 0, tcp6: 0, udp4: 0, udp6: 0 };
    let line = inet::get_diff(&prev, &cur, &"".to_string(), &"".to_string(), &conn);
    let eth = line.find("eth0: ").unwrap();
    let wlan = line.find("wlan0: ").unwrap();
    assert!(eth < wlan);
}

#[test]
fn disk_cold_tick_emits_empty_fields() {
    // First tick: no previous snapshot, so the delta is empty and the
    // record carries empty fields rather than failing.
    let line = disk::get_diff(&Snapshot::new(), &Snapshot::new());
    assert_eq!(line, "{\"text\": \"\u{f0a0} \", \"tooltip\": \"\"}");
}

#[test]
fn inet_format_text_needs_the_key() {
    let d = one_key("eth0", 0, 0);
    assert!(inet::format_text(&"eth0".to_string(), &d).is_some());
    assert_eq!(inet::format_text(&"wlan0".to_string(), &d), None);
    assert!(inet::format_tooltip(&"eth0".to_string(), &d).is_some());
    assert_eq!(inet::format_tooltip(&"wlan0".to_string(), &d), None);
}
