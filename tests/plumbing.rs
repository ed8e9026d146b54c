use desired_state::args::{parse_args, resolve_state_path, ArgError};
use desired_state::document::{read_step, FileRead, ReadStep};
use desired_state::events::StateEvent;
use desired_state::report::{decimal_text, drain_state_events, log_state_event};
use desired_state::service::Service;
use desired_state::store::{DesiredState, ReadOutcome};
use desired_state::template::{comment_out, ensure_exists, template_services, template_text};
use desired_state::watch::{event_affects_target, is_state_change, next_action, FsEventKind, WatchAction, WatchInput};

fn strings(v: &[&str]) -> Vec<String> {
    v.iter().map(|s| s.to_string()).collect()
}

#[test]
fn args_default_and_env_and_flag() {
    assert_eq!(parse_args(&vec![], None).ok().unwrap(), "desired_state.yml");
    assert_eq!(parse_args(&vec![], Some("env.yml".to_string())).ok().unwrap(), "env.yml");
    let args = strings(&["--file", "a.yml", "--file", "b.yml"]);
    assert_eq!(parse_args(&args, Some("env.yml".to_string())).ok().unwrap(), "b.yml");
}

#[test]
fn args_errors() {
    match parse_args(&strings(&["--file"]), None) {
        Err(e) => {
            assert!(matches!(e, ArgError::MissingFilePath));
            assert_eq!(e.message(), "--file requires a path");
        }
        Ok(_) => panic!("expected an error"),
    }
    match parse_args(&strings(&["--verbose"]), None) {
        Err(e) => assert_eq!(e.message(), "unknown argument: --verbose"),
        Ok(_) => panic!("expected an error"),
    }
}

#[test]
fn lenient_args_skip_unknown() {
    let args = strings(&["--verbose", "--file", "x.yml", "extra"]);
    assert_eq!(resolve_state_path(&args, None).ok().unwrap(), "x.yml");
    assert!(resolve_state_path(&strings(&["--file"]), None).is_err());
}

#[test]
fn only_content_kinds_change_state() {
    assert!(is_state_change(&FsEventKind::Modify));
    assert!(is_state_change(&FsEventKind::Create));
    assert!(is_state_change(&FsEventKind::Remove));
    assert!(is_state_change(&FsEventKind::Any));
    assert!(!is_state_change(&FsEventKind::Access));
    assert!(!is_state_change(&FsEventKind::Other));
}

#[test]
fn target_filter() {
    let target = "/srv/desired_state.yml".to_string();
    assert!(event_affects_target(&vec![], &target));
    assert!(event_affects_target(&strings(&["/srv/other", "/srv/desired_state.yml"]), &target));
    assert!(!event_affects_target(&strings(&["/srv/other"]), &target));
}

#[test]
fn loop_decisions() {
    let target = "/srv/d.yml".to_string();
    let modify = WatchInput::Notification { kind: FsEventKind::Modify, paths: strings(&["/srv/d.yml"]) };
    assert!(matches!(next_action(&modify, &target), WatchAction::Reload));
    let touch = WatchInput::Notification { kind: FsEventKind::Access, paths: strings(&["/srv/d.yml"]) };
    assert!(matches!(next_action(&touch, &target), WatchAction::Wait));
    let other = WatchInput::Notification { kind: FsEventKind::Modify, paths: strings(&["/srv/x"]) };
    assert!(matches!(next_action(&other, &target), WatchAction::Wait));
    assert!(matches!(next_action(&WatchInput::Tick, &target), WatchAction::Wait));
    assert!(matches!(next_action(&WatchInput::WatchError, &target), WatchAction::Wait));
    assert!(matches!(next_action(&WatchInput::Disconnected, &target), WatchAction::Fail));
    assert!(matches!(next_action(&WatchInput::StopRequested, &target), WatchAction::Stop));
}

#[test]
fn comment_out_lines() {
    assert_eq!(comment_out(""), "");
    assert_eq!(comment_out("a: 1\nb:\n"), "# a: 1\n# b:\n");
    assert_eq!(comment_out("x\n\ny"), "# x\n# \n# y\n");
}

#[test]
fn template_only_when_missing() {
    assert!(ensure_exists(true, "version: 0.1.0\n").is_none());
    let t = ensure_exists(false, "version: 0.1.0\n").unwrap();
    assert_eq!(t, "# This is an automatically generated desired state template\n# version: 0.1.0\n");
    assert_eq!(template_text("a\n"), "# This is an automatically generated desired state template\n# a\n");
    let names: Vec<String> = template_services().into_iter().map(|s| s.name).collect();
    assert_eq!(names, vec!["example-service", "second-example-service"]);
}

#[test]
fn read_steps() {
    assert!(matches!(read_step(&FileRead::Missing), ReadStep::EmptyWithTemplate));
    assert!(matches!(read_step(&FileRead::Unreadable), ReadStep::EmptyWithTemplate));
    assert!(matches!(read_step(&FileRead::Text(" \n\t".to_string())), ReadStep::EmptyWithTemplate));
    assert!(matches!(read_step(&FileRead::Text(String::new())), ReadStep::EmptyWithTemplate));
    assert!(matches!(read_step(&FileRead::Text("version: 0.1.0".to_string())), ReadStep::Decode));
}

#[test]
fn decimal_numbers() {
    assert_eq!(decimal_text(0), "0");
    assert_eq!(decimal_text(7), "7");
    assert_eq!(decimal_text(10), "10");
    assert_eq!(decimal_text(1203), "1203");
}

#[test]
fn event_report_lines() {
    let event = StateEvent::StateUpdated {
        version: "0.1.0".to_string(),
        services: vec![Service::new("api".to_string(), "^1.2.3".to_string())],
    };
    assert_eq!(
        log_state_event(&event),
        vec![
            "State updated to version '0.1.0' with 1 service(s)".to_string(),
            "    - api ^1.2.3".to_string()
        ]
    );
}

#[test]
fn drain_reports_all_pending_events() {
    let mut state = DesiredState::load(ReadOutcome::Empty);
    let id = state.subscribe().unwrap();
    let change = state.set_service("api", "^1").ok().unwrap();
    state.commit(change);
    state.emit_current_state();
    let lines = drain_state_events(&mut state, id);
    assert_eq!(lines.len(), 4);
    assert_eq!(lines[0], "State updated to version '0.1.0' with 1 service(s)");
    assert_eq!(lines[1], "    - api ^1");
    assert!(drain_state_events(&mut state, id).is_empty());
}
