use solo_pc::platform::{UserInterface, PRESENCE_RETRY_PAUSE_MS};
use solo_pc::up_control::{
    apply_up_command, approve, approve_sticky, deny, handle_control_byte, reset, take,
    ConsentLevel, UpControl, APPROVE_ONCE, APPROVE_STICKY, AUTO_APPROVE, DENY_STICKY,
};

#[test]
fn auto_approves_by_default() {
    let mut c = UpControl::new();
    for _ in 0..3 {
        assert_eq!(take(&mut c), ConsentLevel::Normal);
    }
    assert_eq!(c.current(), AUTO_APPROVE);
}

#[test]
fn approve_is_consumed_by_one_check() {
    let mut c = UpControl::new();
    approve(&mut c);
    assert_eq!(c.current(), APPROVE_ONCE);
    assert_eq!(take(&mut c), ConsentLevel::Normal);
    assert_eq!(c.current(), AUTO_APPROVE);
}

#[test]
fn deny_and_sticky_approve_persist_until_reset() {
    let mut c = UpControl::new();
    deny(&mut c);
    for _ in 0..5 {
        assert_eq!(take(&mut c), ConsentLevel::NotGiven);
    }
    assert_eq!(c.current(), DENY_STICKY);
    reset(&mut c);
    assert_eq!(take(&mut c), ConsentLevel::Normal);
    approve_sticky(&mut c);
    for _ in 0..5 {
        assert_eq!(take(&mut c), ConsentLevel::Normal);
    }
    assert_eq!(c.current(), APPROVE_STICKY);
}

#[test]
fn user_presence_scenario() {
    // approve, deny, reset, sticky approve, deny, reset: as a test session drives it
    let mut c = UpControl::new();
    approve(&mut c);
    assert_eq!(take(&mut c), ConsentLevel::Normal);
    deny(&mut c);
    assert_eq!(take(&mut c), ConsentLevel::NotGiven);
    reset(&mut c);
    approve_sticky(&mut c);
    assert_eq!(take(&mut c), ConsentLevel::Normal);
    assert_eq!(take(&mut c), ConsentLevel::Normal);
    deny(&mut c);
    assert_eq!(take(&mut c), ConsentLevel::NotGiven);
    reset(&mut c);
    assert_eq!(c.current(), AUTO_APPROVE);
}

#[test]
fn unknown_one_shot_values_deny_once() {
    let mut c = UpControl::new();
    assert!(!apply_up_command(&mut c, 5));
    assert_eq!(c.current(), AUTO_APPROVE);
}

#[test]
fn control_commands_set_the_decision() {
    let mut c = UpControl::new();
    for v in [APPROVE_ONCE, DENY_STICKY, APPROVE_STICKY, AUTO_APPROVE] {
        assert!(apply_up_command(&mut c, v));
        assert_eq!(c.current(), v);
    }
    deny(&mut c);
    assert!(!apply_up_command(&mut c, 7));
    assert!(!apply_up_command(&mut c, 200));
    assert_eq!(c.current(), DENY_STICKY);
}

#[test]
fn control_channel_replies() {
    let mut c = UpControl::new();
    let r = handle_control_byte(&mut c, 0xfe);
    assert_eq!((r.ack, r.ignored), (0xaa, false));
    assert_eq!(c.current(), AUTO_APPROVE);
    let r = handle_control_byte(&mut c, 128);
    assert_eq!((r.ack, r.ignored), (0x00, false));
    assert_eq!(c.current(), DENY_STICKY);
    let r = handle_control_byte(&mut c, 42);
    assert_eq!((r.ack, r.ignored), (0x00, true));
    assert_eq!(c.current(), DENY_STICKY);
}

#[test]
fn presence_check_pauses_only_without_consent() {
    let mut ui = UserInterface::default();
    let mut c = UpControl::new();
    let check = ui.check_user_presence(&mut c);
    assert_eq!((check.level, check.pause_ms), (ConsentLevel::Normal, 0));
    deny(&mut c);
    let check = ui.check_user_presence(&mut c);
    assert_eq!((check.level, check.pause_ms), (ConsentLevel::NotGiven, PRESENCE_RETRY_PAUSE_MS));
    assert_eq!(ui.uptime_ms(), 1000);
}
