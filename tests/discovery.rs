use wizard_rs::bulb::Bulb;
use wizard_rs::wizard::{accept_reply, collect_replies, merge_names, refresh_registry, Reply};

fn reply(ip: &str, mac: &str) -> Reply {
    let body = format!(
        "{{\"method\":\"getDevInfo\",\"env\":\"pro\",\"result\":{{\"mac\":\"{}\"}}}}",
        mac
    );
    let mut data = body.into_bytes();
    data.resize(1024, 0);
    Reply { ip: ip.to_string(), data }
}

fn bulb(ip: &str, name: &str, mac: &str) -> Bulb {
    Bulb::new(ip.to_string(), name.to_string(), mac.to_string())
}

#[test]
fn own_echo_is_dropped() {
    assert!(accept_reply("192.168.1.2", &reply("192.168.1.2", "aaaaaaaaaaaa")).is_none());
    let b = accept_reply("192.168.1.2", &reply("192.168.1.3", "aaaaaaaaaaaa")).unwrap();
    assert_eq!(b, bulb("192.168.1.3", "aaaaaaaaaaaa", "aaaaaaaaaaaa"));
}

#[test]
fn malformed_reply_does_not_stop_the_scan() {
    let replies = vec![
        reply("192.168.1.3", "aaaaaaaaaaaa"),
        Reply { ip: "192.168.1.4".to_string(), data: b"{\"method\":\"getDev".to_vec() },
        reply("192.168.1.2", "cccccccccccc"),
        reply("192.168.1.5", "bbbbbbbbbbbb"),
    ];
    let found = collect_replies("192.168.1.2", &replies);
    assert_eq!(
        found,
        vec![bulb("192.168.1.3", "aaaaaaaaaaaa", "aaaaaaaaaaaa"), bulb("192.168.1.5", "bbbbbbbbbbbb", "bbbbbbbbbbbb")]
    );
}

#[test]
fn empty_scan_gives_empty_registry() {
    let previous = vec![bulb("192.168.1.3", "desk", "aaaaaaaaaaaa")];
    assert!(refresh_registry(&previous, "192.168.1.2", &Vec::new()).is_empty());
}

#[test]
fn merge_keeps_user_names_and_drops_absent() {
    let previous = vec![bulb("10.0.0.3", "desk", "aaaaaaaaaaaa"), bulb("10.0.0.4", "hall", "dddddddddddd")];
    let found = vec![bulb("10.0.0.9", "aaaaaaaaaaaa", "aaaaaaaaaaaa"), bulb("10.0.0.5", "bbbbbbbbbbbb", "bbbbbbbbbbbb")];
    let merged = merge_names(&previous, found);
    assert_eq!(
        merged,
        vec![bulb("10.0.0.9", "desk", "aaaaaaaaaaaa"), bulb("10.0.0.5", "bbbbbbbbbbbb", "bbbbbbbbbbbb")]
    );
}

#[test]
fn latest_entry_for_a_mac_names_it() {
    let previous = vec![bulb("10.0.0.3", "old", "aaaaaaaaaaaa"), bulb("10.0.0.3", "new", "aaaaaaaaaaaa")];
    let merged = merge_names(&previous, vec![bulb("10.0.0.3", "aaaaaaaaaaaa", "aaaaaaaaaaaa")]);
    assert_eq!(merged[0].name, "new");
}

#[test]
fn rename_survives_rescans_with_new_ips() {
    let mut registry = refresh_registry(&Vec::new(), "10.0.0.2", &vec![reply("10.0.0.3", "aaaaaaaaaaaa")]);
    registry[0].name = "kitchen".to_string();
    for last in 10..15 {
        let ip = format!("10.0.0.{}", last);
        registry = refresh_registry(&registry, "10.0.0.2", &vec![reply("10.0.0.2", "ffffffffffff"), reply(&ip, "aaaaaaaaaaaa")]);
        assert_eq!(registry, vec![bulb(&ip, "kitchen", "aaaaaaaaaaaa")]);
    }
}

#[test]
fn repeated_answer_keeps_one_entry_per_mac() {
    let replies = vec![
        reply("192.168.1.3", "aaaaaaaaaaaa"),
        reply("192.168.1.5", "bbbbbbbbbbbb"),
        reply("192.168.1.9", "aaaaaaaaaaaa"),
    ];
    let found = collect_replies("192.168.1.2", &replies);
    assert_eq!(
        found,
        vec![bulb("192.168.1.9", "aaaaaaaaaaaa", "aaaaaaaaaaaa"), bulb("192.168.1.5", "bbbbbbbbbbbb", "bbbbbbbbbbbb")]
    );
}

#[test]
fn repeated_answer_after_rename() {
    let previous = vec![bulb("192.168.1.3", "porch", "aaaaaaaaaaaa")];
    let replies = vec![reply("192.168.1.4", "aaaaaaaaaaaa"), reply("192.168.1.6", "aaaaaaaaaaaa")];
    let registry = refresh_registry(&previous, "192.168.1.2", &replies);
    assert_eq!(registry, vec![bulb("192.168.1.6", "porch", "aaaaaaaaaaaa")]);
}
