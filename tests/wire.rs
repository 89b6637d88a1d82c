use wizard_rs::bulb::{parse_dev_info, trim_padding, Bulb, ParseError};
use wizard_rs::pilot::{push_decimal, Method, Pilot};
use wizard_rs::wizard::{bulb_address, WIZARD_PORT};

fn on_at(brightness: u8) -> Pilot {
    let mut p = Pilot::new(Method::SetPilot);
    p.set_brightness(brightness);
    p
}

#[test]
fn method_names() {
    assert_eq!(Method::SetPilot.to_string(), "setPilot");
    assert_eq!(Method::GetDevInfo.to_string(), "getDevInfo");
}

#[test]
fn probe_has_no_params() {
    let p = Pilot::new(Method::GetDevInfo);
    assert_eq!(p.build(), r#"{"method":"getDevInfo"}"#);
}

#[test]
fn full_brightness_on() {
    assert_eq!(on_at(100).build(), r#"{"method":"setPilot","params":{"state":true,"dimming":100}}"#);
}

#[test]
fn off_has_no_dimming() {
    let mut p = on_at(50);
    p.set_state(false);
    assert_eq!(p.build(), r#"{"method":"setPilot","params":{"state":false}}"#);
}

#[test]
fn dimming_is_clamped() {
    assert_eq!(on_at(0).build(), r#"{"method":"setPilot","params":{"state":true,"dimming":1}}"#);
    assert_eq!(on_at(250).build(), r#"{"method":"setPilot","params":{"state":true,"dimming":100}}"#);
    assert_eq!(on_at(37).build(), r#"{"method":"setPilot","params":{"state":true,"dimming":37}}"#);
}

#[test]
fn colour_and_scene_members() {
    let mut p = on_at(80);
    p.set_rgb(255, 0, 9);
    p.set_scene(1000);
    assert_eq!(
        p.build(),
        r#"{"method":"setPilot","params":{"state":true,"dimming":80,"r":255,"g":0,"b":9,"sceneId":1000}}"#
    );
}

#[test]
fn colour_while_off() {
    let mut p = Pilot::new(Method::SetPilot);
    p.set_state(false);
    p.set_rgb(1, 2, 3);
    assert_eq!(p.build(), r#"{"method":"setPilot","params":{"state":false,"r":1,"g":2,"b":3}}"#);
}

#[test]
fn round_trip_through_a_json_reader() {
    let mut p = on_at(42);
    p.set_rgb(10, 20, 30);
    let v: serde_json::Value = serde_json::from_str(&p.build()).unwrap();
    assert_eq!(v["method"], "setPilot");
    assert_eq!(v["params"]["state"], true);
    assert_eq!(v["params"]["dimming"], 42);
    assert_eq!(v["params"]["r"], 10);
    assert_eq!(v["params"]["g"], 20);
    assert_eq!(v["params"]["b"], 30);
    assert!(v["params"].get("sceneId").is_none());
}

#[test]
fn default_pilot() {
    let p = Pilot::default();
    assert_eq!(p.method, Method::SetPilot);
    assert!(p.state);
    assert_eq!(p.brightness, 100);
    assert!(p.rgb.is_none() && p.scene.is_none());
}

#[test]
fn setters() {
    let mut p = Pilot::new(Method::SetPilot);
    p.set_method(Method::GetDevInfo);
    assert_eq!(p.method, Method::GetDevInfo);
    p.set_scene(4);
    assert_eq!(p.scene, Some(4));
}

#[test]
fn decimal_text() {
    let mut s = String::from("n=");
    push_decimal(&mut s, 0);
    push_decimal(&mut s, 4294967295);
    assert_eq!(s, "n=04294967295");
}

#[test]
fn address_of_bulb() {
    assert_eq!(WIZARD_PORT, 38899);
    assert_eq!(bulb_address("10.0.0.5"), "10.0.0.5:38899");
}

#[test]
fn new_bulb() {
    let b = Bulb::new("1.2.3.4".to_string(), "desk".to_string(), "a8bb50ec140e".to_string());
    assert_eq!(b.ip, "1.2.3.4");
    assert_eq!(b.name, "desk");
    assert_eq!(b.mac, "a8bb50ec140e");
}

#[test]
fn parse_padded_reply() {
    let reply = "\0\0{\"method\":\"getDevInfo\",\"env\":\"pro\",\"result\":{\"mac\":\"a8bb50ec140e\",\"devMac\":\"a8bb50ec140e\",\"moduleName\":\"ESP03_SHRGB1C_01\"}}\0\0\0";
    let b = Bulb::parse("192.168.1.7".to_string(), reply).unwrap();
    assert_eq!(b.ip, "192.168.1.7");
    assert_eq!(b.mac, "a8bb50ec140e");
    assert_eq!(b.name, "a8bb50ec140e");
}

#[test]
fn parse_rejects_truncated_json() {
    let r = Bulb::parse("1.1.1.1".to_string(), "{\"result\":{\"mac\":\"a8bb");
    assert_eq!(r, Err(ParseError));
}

#[test]
fn parse_rejects_missing_mac() {
    let r = Bulb::parse("1.1.1.1".to_string(), "{\"result\":{\"devMac\":\"a8bb50ec140e\"}}");
    assert_eq!(r, Err(ParseError));
    let r = Bulb::parse("1.1.1.1".to_string(), "{\"result\":{\"mac\":12}}");
    assert_eq!(r, Err(ParseError));
}

#[test]
fn parse_rejects_non_utf8() {
    let raw: Vec<u8> = vec![b'{', b'"', 0xff, 0xfe, b'"', b'}'];
    assert_eq!(parse_dev_info("1.1.1.1".to_string(), &raw), Err(ParseError));
}

#[test]
fn parse_rejects_empty() {
    assert_eq!(parse_dev_info("1.1.1.1".to_string(), &[0u8; 16]), Err(ParseError));
}

#[test]
fn padding_trimmed_both_sides() {
    assert_eq!(trim_padding(&[0, 0, 1, 0, 2, 0]), &[1, 0, 2]);
    assert_eq!(trim_padding(&[0, 0]), &[] as &[u8]);
    assert_eq!(trim_padding(&[5]), &[5]);
}
