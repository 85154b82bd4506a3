use natsume::errors::error_body;
use natsume::monitor::{monitor_report_request, monitor_step, MonitorAction, REPORT_INTERVAL_SECS};
use natsume::proxy::format_caddyfile;
use natsume::session::{
    autologin_directives, enable_autologin_commands, first_failed_step, reset_user_commands,
    session_transition, strip_autologin_config, terminate_commands, SessionError, SessionOp,
    SessionState,
};

#[test]
fn caddyfile_rendering() {
    let rendered = format_caddyfile("u1", "p1", "https://judge.example");
    assert!(rendered.starts_with("\n{\n\tadmin localhost:20190\n\tauto_https off\n}"));
    assert!(rendered.contains("reverse_proxy https://judge.example {"));
    assert!(rendered.contains("header_up X-DOMjudge-Login \"u1\""));
    // The password travels base64-encoded.
    assert!(rendered.contains("header_up X-DOMjudge-Pass \"cDE=\""));
    assert!(!rendered.contains("\"p1\""));
    assert!(rendered.contains("handle {\n\t\treverse_proxy https://judge.example\n\t}"));
}

#[test]
fn strip_autologin_removes_only_the_directives() {
    let contents = "[daemon]\nWaylandEnable=false\nAutomaticLoginEnable=true\n  AutomaticLogin=player  \nAutomaticLogin=other\n";
    let out = strip_autologin_config(contents, "player");
    assert_eq!(out, "[daemon]\nWaylandEnable=false\nAutomaticLogin=other\n");
}

#[test]
fn strip_autologin_keeps_untouched_config() {
    let contents = "[daemon]\nWaylandEnable=false\n";
    let out = strip_autologin_config(contents, "player");
    assert_eq!(out, "[daemon]\nWaylandEnable=false\n");
}

#[test]
fn autologin_directives_rendering() {
    assert_eq!(
        autologin_directives("player"),
        "[daemon]\nAutomaticLoginEnable=true\nAutomaticLogin=player\n"
    );
}

#[test]
fn session_lifecycle() {
    assert_eq!(
        session_transition(SessionState::Locked, SessionOp::EnableAutologin),
        Ok(SessionState::ReadyForContestant)
    );
    assert_eq!(
        session_transition(SessionState::ReadyForContestant, SessionOp::SessionOpened),
        Ok(SessionState::Active)
    );
    assert_eq!(
        session_transition(SessionState::Active, SessionOp::Terminate),
        Ok(SessionState::Locked)
    );
    assert_eq!(
        session_transition(SessionState::ReadyForContestant, SessionOp::Terminate),
        Ok(SessionState::Locked)
    );
    assert_eq!(
        session_transition(SessionState::Locked, SessionOp::Reset),
        Ok(SessionState::Locked)
    );
    // The destructive reset is confined to the locked state.
    assert_eq!(
        session_transition(SessionState::Active, SessionOp::Reset),
        Err(SessionError::InvalidTransition)
    );
    assert_eq!(
        session_transition(SessionState::Locked, SessionOp::SessionOpened),
        Err(SessionError::InvalidTransition)
    );
}

#[test]
fn command_plans() {
    let t = terminate_commands("player");
    assert_eq!(t.len(), 2);
    assert_eq!(t[0].program, "loginctl");
    assert_eq!(t[0].args, vec!["terminate-user".to_string(), "player".to_string()]);
    assert_eq!(t[1].program, "systemctl");
    assert_eq!(t[1].args, vec!["restart".to_string(), "gdm".to_string()]);

    let e = enable_autologin_commands();
    assert_eq!(e.len(), 1);
    assert_eq!(e[0].program, "systemctl");

    let r = reset_user_commands("player", "pw");
    assert_eq!(r.len(), 3);
    assert_eq!(r[0].program, "userdel");
    assert_eq!(r[0].args, vec!["-r".to_string(), "player".to_string()]);
    assert_eq!(r[1].program, "useradd");
    assert_eq!(r[1].args, vec!["-m".to_string(), "player".to_string()]);
    assert_eq!(r[2].program, "sh");
    assert_eq!(r[2].args[1], "echo 'player:pw' | sudo chpasswd");
}

#[test]
fn first_failure_aborts_the_sequence() {
    assert_eq!(first_failed_step(&vec![true, true, true]), None);
    assert_eq!(first_failed_step(&vec![true, false, true]), Some(1));
    assert_eq!(first_failed_step(&vec![false, false, false]), Some(0));
    assert_eq!(first_failed_step(&vec![]), None);
}

#[test]
fn monitor_decisions() {
    assert_eq!(REPORT_INTERVAL_SECS, 60);
    assert_eq!(monitor_step(false), MonitorAction::SendReport);
    assert_eq!(monitor_step(true), MonitorAction::Shutdown);
    let req = monitor_report_request(String::from("aa:bb"));
    assert_eq!(req.mac, "aa:bb");
    assert!(!req.synced);
}

#[test]
fn error_body_escaping() {
    assert_eq!(
        error_body("Not Found", "plain detail"),
        "{\"msg\":\"Not Found\",\"error\":\"plain detail\"}"
    );
    assert_eq!(
        error_body("Bad Request", "a\"b\\c\nd"),
        "{\"msg\":\"Bad Request\",\"error\":\"a\\\"b\\\\c\\u000ad\"}"
    );
}
