use desired_state::events::StateEvent;
use desired_state::service::Service;
use desired_state::store::{DesiredState, ReadOutcome};

fn svc(name: &str, req: &str) -> Service {
    Service::new(name.to_string(), req.to_string())
}

fn pairs(list: &[Service]) -> Vec<(String, String)> {
    list.iter().map(|s| (s.name.clone(), s.version_req.clone())).collect()
}

fn event_pairs(event: &StateEvent) -> (String, Vec<(String, String)>) {
    match event {
        StateEvent::StateUpdated { version, services } => (version.clone(), pairs(services)),
    }
}

fn empty_state() -> DesiredState {
    DesiredState::load(ReadOutcome::Empty)
}

fn set(state: &mut DesiredState, name: &str, expr: &str) {
    let change = state.set_service(name, expr).ok().expect("valid requirement");
    state.commit(change);
}

#[test]
fn set_then_list_holds_one_canonical_entry() {
    let mut state = empty_state();
    set(&mut state, "api", ">=1.2.3,<2");
    let listed = pairs(&state.list());
    assert_eq!(listed, vec![("api".to_string(), ">=1.2.3, <2".to_string())]);
}

#[test]
fn set_rejects_malformed_requirement() {
    let state = empty_state();
    let err = state.set_service("api", "not a version").err().expect("must fail");
    assert_eq!(err.expression, "not a version");
    assert!(state.list().is_empty());
}

#[test]
fn set_twice_keeps_last_requirement() {
    let mut state = empty_state();
    set(&mut state, "api", "^1.2.3");
    set(&mut state, "api", ">2.0.0");
    assert_eq!(pairs(&state.list()), vec![("api".to_string(), ">2.0.0".to_string())]);
}

#[test]
fn set_same_value_twice_emits_each_time() {
    let mut state = empty_state();
    let id = state.subscribe().unwrap();
    set(&mut state, "api", "^1.2.3");
    set(&mut state, "api", "^1.2.3");
    assert_eq!(state.take_events(id).len(), 2);
    assert_eq!(pairs(&state.list()), vec![("api".to_string(), "^1.2.3".to_string())]);
}

#[test]
fn list_is_sorted_whatever_the_insertion_order() {
    let mut state = empty_state();
    set(&mut state, "zeta", "*");
    set(&mut state, "alpha", "=1.0.0");
    set(&mut state, "mid", "~0.3");
    let names: Vec<String> = state.list().into_iter().map(|s| s.name).collect();
    assert_eq!(names, vec!["alpha", "mid", "zeta"]);
}

#[test]
fn remove_absent_stages_nothing_and_emits_nothing() {
    let mut state = empty_state();
    let id = state.subscribe().unwrap();
    set(&mut state, "api", "^1");
    state.take_events(id);
    assert!(state.remove_service("web").is_none());
    assert!(state.take_events(id).is_empty());
    assert_eq!(state.list().len(), 1);
}

#[test]
fn remove_present_emits_one_event_without_it() {
    let mut state = empty_state();
    set(&mut state, "api", "^1");
    set(&mut state, "web", "^2");
    let id = state.subscribe().unwrap();
    let change = state.remove_service("api").expect("present");
    state.commit(change);
    let events = state.take_events(id);
    assert_eq!(events.len(), 1);
    let (_, services) = event_pairs(&events[0]);
    assert_eq!(services, vec![("web".to_string(), "^2".to_string())]);
    assert_eq!(pairs(&state.list()), services);
}

#[test]
fn uncommitted_change_leaves_state_alone() {
    let mut state = empty_state();
    let id = state.subscribe().unwrap();
    let change = state.set_service("api", "^1").ok().unwrap();
    assert_eq!(pairs(&change.services()), vec![("api".to_string(), "^1".to_string())]);
    drop(change);
    assert!(state.list().is_empty());
    assert!(state.take_events(id).is_empty());
}

#[test]
fn persist_then_reload_gives_same_entries() {
    let mut state = empty_state();
    set(&mut state, "b", "^1.0.0");
    set(&mut state, "a", ">=0.5");
    set(&mut state, "c", "<3");
    let change = state.remove_service("c").unwrap();
    let version = change.version();
    let services = change.services();
    let written = pairs(&services);
    let reloaded = DesiredState::load(ReadOutcome::Parsed { version: version.clone(), services });
    assert_eq!(pairs(&reloaded.list()), written);
    assert_eq!(reloaded.file_version(), version);
}

#[test]
fn later_record_of_a_name_wins() {
    let outcome = ReadOutcome::Parsed {
        version: "0.2.0".to_string(),
        services: vec![svc("web", "^1"), svc("api", "^1"), svc("web", "^2")],
    };
    let state = DesiredState::load(outcome);
    assert_eq!(
        pairs(&state.list()),
        vec![("api".to_string(), "^1".to_string()), ("web".to_string(), "^2".to_string())]
    );
    assert_eq!(state.file_version(), "0.2.0");
}

#[test]
fn reload_with_new_content_emits_one_event() {
    let mut state = empty_state();
    let id = state.subscribe().unwrap();
    let outcome = ReadOutcome::Parsed { version: "0.1.0".to_string(), services: vec![svc("api", "^1")] };
    assert!(state.reload_from_disk(outcome));
    let events = state.take_events(id);
    assert_eq!(events.len(), 1);
    assert_eq!(
        event_pairs(&events[0]),
        ("0.1.0".to_string(), vec![("api".to_string(), "^1".to_string())])
    );
}

#[test]
fn reload_with_same_content_is_silent() {
    let mut state = empty_state();
    set(&mut state, "api", "^1");
    let id = state.subscribe().unwrap();
    let outcome = ReadOutcome::Parsed { version: "0.1.0".to_string(), services: vec![svc("api", "^1")] };
    assert!(!state.reload_from_disk(outcome));
    assert!(state.take_events(id).is_empty());
}

#[test]
fn reload_of_new_version_alone_emits() {
    let mut state = empty_state();
    let id = state.subscribe().unwrap();
    let outcome = ReadOutcome::Parsed { version: "1.0.0".to_string(), services: vec![] };
    assert!(state.reload_from_disk(outcome));
    assert_eq!(state.take_events(id).len(), 1);
    assert_eq!(state.file_version(), "1.0.0");
}

#[test]
fn malformed_reload_keeps_previous_state() {
    let mut state = empty_state();
    set(&mut state, "api", "^1");
    let id = state.subscribe().unwrap();
    assert!(!state.reload_from_disk(ReadOutcome::Malformed));
    assert_eq!(pairs(&state.list()), vec![("api".to_string(), "^1".to_string())]);
    assert!(state.take_events(id).is_empty());
}

#[test]
fn empty_reload_clears_state() {
    let mut state = empty_state();
    set(&mut state, "api", "^1");
    assert!(state.reload_from_disk(ReadOutcome::Empty));
    assert!(state.list().is_empty());
    assert_eq!(state.file_version(), "0.1.0");
}

#[test]
fn missing_document_starts_empty() {
    let state = DesiredState::load(ReadOutcome::Empty);
    assert!(state.list().is_empty());
    assert_eq!(state.file_version(), "0.1.0");
    let malformed = DesiredState::load(ReadOutcome::Malformed);
    assert!(malformed.list().is_empty());
}

#[test]
fn two_subscribers_get_the_same_event() {
    let mut state = empty_state();
    let first = state.subscribe().unwrap();
    let second = state.subscribe().unwrap();
    assert_ne!(first, second);
    set(&mut state, "api", "^1.2.3");
    let a = state.take_events(first);
    let b = state.take_events(second);
    assert_eq!(a.len(), 1);
    assert_eq!(b.len(), 1);
    assert_eq!(event_pairs(&a[0]), event_pairs(&b[0]));
}

#[test]
fn external_removal_emits_snapshot_without_it() {
    let mut state = empty_state();
    set(&mut state, "api", "^1");
    set(&mut state, "web", "^2");
    let id = state.subscribe().unwrap();
    let outcome = ReadOutcome::Parsed { version: "0.1.0".to_string(), services: vec![svc("web", "^2")] };
    assert!(state.reload_from_disk(outcome));
    let events = state.take_events(id);
    assert_eq!(events.len(), 1);
    let (_, services) = event_pairs(&events[0]);
    assert!(services.iter().all(|(name, _)| name != "api"));
    assert_eq!(services, vec![("web".to_string(), "^2".to_string())]);
}

#[test]
fn unsubscribed_receives_nothing() {
    let mut state = empty_state();
    let id = state.subscribe().unwrap();
    assert!(state.unsubscribe(id));
    assert!(!state.unsubscribe(id));
    set(&mut state, "api", "^1");
    assert!(state.take_events(id).is_empty());
}

#[test]
fn current_state_is_emitted_on_request() {
    let mut state = empty_state();
    set(&mut state, "api", "^1");
    let id = state.subscribe().unwrap();
    state.emit_current_state();
    let events = state.take_events(id);
    assert_eq!(events.len(), 1);
    assert_eq!(event_pairs(&events[0]).1, vec![("api".to_string(), "^1".to_string())]);
}

#[test]
fn placeholder_accepts_any_version() {
    let p = Service::placeholder("api");
    assert_eq!(p.name, "api");
    assert_eq!(p.version_req, "*");
}
