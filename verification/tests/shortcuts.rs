use replay_rs::shortcuts::{find_trigger, Action, Asked, Binding, Event, ShortcutState, SHORTCUT_ID};

fn binding(id: &str, trigger: &str) -> Binding {
    Binding { id: id.to_string(), trigger: trigger.to_string() }
}

#[test]
fn summary_distinguishes_unbound_from_unavailable() {
    let unbound = ShortcutState { registered: true, ..Default::default() };
    assert_eq!(unbound.summary(), "не назначена");

    let pending = ShortcutState::default();
    assert_eq!(pending.summary(), "регистрируется…");

    let broken = ShortcutState { error: Some("нет портала".into()), ..Default::default() };
    assert!(broken.summary().contains("нет портала"));

    let ok = ShortcutState {
        registered: true,
        trigger: Some("Ctrl+Alt+S".into()),
        ..Default::default()
    };
    assert_eq!(ok.summary(), "Ctrl+Alt+S");
}

#[test]
fn empty_trigger_is_treated_as_unbound() {
    let s = ShortcutState {
        registered: true,
        trigger: Some(String::new()).filter(|t| !t.is_empty()),
        ..Default::default()
    };
    assert_eq!(s.summary(), "не назначена");
    let mut reported = ShortcutState::default();
    reported.bound(&vec![binding(SHORTCUT_ID, "")]);
    assert_eq!(reported.summary(), "не назначена");
}

#[test]
fn first_binding_of_the_action_counts() {
    let list = vec![
        binding("other", "F1"),
        binding(SHORTCUT_ID, "F2"),
        binding(SHORTCUT_ID, "F3"),
    ];
    assert_eq!(find_trigger(&list).as_deref(), Some("F2"));
    let shadowed = vec![binding(SHORTCUT_ID, ""), binding(SHORTCUT_ID, "F3")];
    assert_eq!(find_trigger(&shadowed), None);
    assert_eq!(find_trigger(&vec![binding("other", "F1")]), None);
}

#[test]
fn listener_follows_the_events() {
    let mut state = ShortcutState::default();
    state.bound(&vec![binding(SHORTCUT_ID, "F2")]);
    assert!(matches!(state.handle(Event::Activated), Action::Save));
    assert!(matches!(
        state.handle(Event::Changed(vec![binding(SHORTCUT_ID, "F5")])),
        Action::Wait
    ));
    assert_eq!(state.summary(), "F5");
    assert!(matches!(state.handle(Event::Tick(Asked::Nothing)), Action::Wait));
    assert!(matches!(state.handle(Event::Tick(Asked::Configure)), Action::OpenEditor));
    assert!(matches!(state.handle(Event::Tick(Asked::Disconnected)), Action::Finish));
    match state.handle(Event::Closed) {
        Action::Fail(error) => {
            assert_eq!(error, "сеанс хоткеев закрыт порталом");
            state.failed(error);
        }
        other => panic!("{other:?}"),
    }
    assert_eq!(state.summary(), "портал недоступен: сеанс хоткеев закрыт порталом");
}
