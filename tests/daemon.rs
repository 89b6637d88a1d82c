use wizard_rs::daemon::{control_route, Effect, Msg, Route, Scheduler, DAEMONNAME};
use wizard_rs::pilot::{Method, Pilot};
use wizard_rs::program::Action;

fn on_full() -> Pilot {
    Pilot::new(Method::SetPilot)
}

fn dimmed(brightness: u8) -> Action {
    let mut p = Pilot::new(Method::SetPilot);
    p.set_brightness(brightness);
    Action::SetPilot(p)
}

fn send_to(ip: &str, brightness: u8) -> Effect {
    Effect::Send(
        format!("{}:38899", ip),
        format!("{{\"method\":\"setPilot\",\"params\":{{\"state\":true,\"dimming\":{}}}}}", brightness),
    )
}

#[test]
fn endpoint_name() {
    assert_eq!(DAEMONNAME, "wizarddaemon");
}

#[test]
fn idle_waits() {
    let mut s = Scheduler::new();
    assert_eq!(s.tick(None), Effect::Wait);
    assert_eq!(s.tick(Some(Msg::Ignore)), Effect::Wait);
    assert!(!s.is_terminated());
}

#[test]
fn sleep_then_set_pilot_repeats() {
    let mut s = Scheduler::new();
    let program = vec![Action::Sleep(1), Action::SetPilot(on_full())];
    let expected_send = Effect::Send(
        "10.0.0.5:38899".to_string(),
        r#"{"method":"setPilot","params":{"state":true,"dimming":100}}"#.to_string(),
    );
    assert_eq!(s.tick(Some(Msg::Run(program, "10.0.0.5".to_string()))), Effect::Pause(1));
    assert_eq!(s.tick(None), expected_send);
    assert_eq!(s.tick(None), Effect::Pause(1));
    assert_eq!(s.tick(None), expected_send);
    assert_eq!(s.tick(Some(Msg::Stop)), Effect::Halt);
    assert!(s.is_terminated());
}

#[test]
fn cyclic_replay_over_ticks() {
    let mut s = Scheduler::new();
    let program = vec![dimmed(10), dimmed(20), dimmed(30)];
    let mut sent = Vec::new();
    sent.push(s.tick(Some(Msg::Run(program, "1.2.3.4".to_string()))));
    for _ in 1..7 {
        sent.push(s.tick(None));
    }
    let want: Vec<Effect> = [10, 20, 30, 10, 20, 30, 10].iter().map(|b| send_to("1.2.3.4", *b)).collect();
    assert_eq!(sent, want);
}

#[test]
fn stop_is_final_mid_program() {
    let mut s = Scheduler::new();
    s.tick(Some(Msg::Run(vec![dimmed(10), dimmed(20), dimmed(30)], "1.2.3.4".to_string())));
    s.tick(None);
    assert_eq!(s.tick(Some(Msg::Stop)), Effect::Halt);
    assert_eq!(s.tick(None), Effect::Halt);
    assert_eq!(s.tick(Some(Msg::Run(vec![dimmed(50)], "5.6.7.8".to_string()))), Effect::Halt);
    assert!(s.is_terminated());
}

#[test]
fn stop_when_idle() {
    let mut s = Scheduler::new();
    assert_eq!(s.tick(Some(Msg::Stop)), Effect::Halt);
    assert!(s.is_terminated());
}

#[test]
fn run_replaces_running_program() {
    let mut s = Scheduler::new();
    s.tick(Some(Msg::Run(vec![dimmed(10), dimmed(20), dimmed(30)], "1.1.1.1".to_string())));
    s.tick(None);
    assert_eq!(
        s.tick(Some(Msg::Run(vec![dimmed(60), dimmed(70)], "2.2.2.2".to_string()))),
        send_to("2.2.2.2", 60)
    );
    assert_eq!(s.tick(None), send_to("2.2.2.2", 70));
    assert_eq!(s.tick(None), send_to("2.2.2.2", 60));
}

#[test]
fn ignore_is_like_no_message() {
    let program = vec![dimmed(10), Action::Sleep(3)];
    let mut a = Scheduler::new();
    let mut b = Scheduler::new();
    a.tick(Some(Msg::Run(program.clone(), "9.9.9.9".to_string())));
    b.tick(Some(Msg::Run(program, "9.9.9.9".to_string())));
    for _ in 0..4 {
        assert_eq!(a.tick(Some(Msg::Ignore)), b.tick(None));
    }
}

#[test]
fn empty_program_waits() {
    let mut s = Scheduler::new();
    assert_eq!(s.tick(Some(Msg::Run(Vec::new(), "1.1.1.1".to_string()))), Effect::Wait);
    assert_eq!(s.tick(None), Effect::Wait);
}

#[test]
fn routes_of_control_messages() {
    assert_eq!(control_route(&Msg::Stop), Route::ForwardAndClose);
    assert_eq!(control_route(&Msg::Run(Vec::new(), "1.1.1.1".to_string())), Route::Forward);
    assert_eq!(control_route(&Msg::Ignore), Route::Drop);
}
