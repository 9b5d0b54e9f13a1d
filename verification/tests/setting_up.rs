use kasm::config::MasterCfg;
use kasm::setup::{setup_step, SetupAction, SetupEvent, SetupState};

fn run(saved: Option<&str>, events: Vec<SetupEvent>) -> (Vec<String>, SetupState, MasterCfg) {
    let mut master = MasterCfg { moodle_course_id: saved.map(|s| s.to_string()), ..MasterCfg::default() };
    let mut state = SetupState::Start;
    let mut actions = Vec::new();
    for event in events {
        let (next, action) = setup_step(state, event, &mut master);
        state = next;
        actions.push(format!("{:?}", action));
    }
    (actions, state, master)
}

#[test]
fn fresh_setup_asks_for_course_and_token() {
    let (actions, state, master) = run(
        None,
        vec![
            SetupEvent::Begin,
            SetupEvent::Entered("4711".to_string()),
            SetupEvent::TokenMissing,
            SetupEvent::Entered("secret".to_string()),
            SetupEvent::TokenStored,
        ],
    );
    assert_eq!(
        actions,
        vec!["AskCourseId", "LookUpToken", "AskToken", "StoreToken(\"secret\")", "WriteConfig"]
    );
    assert_eq!(state, SetupState::Finished);
    assert_eq!(master.moodle_course_id.as_deref(), Some("4711"));
}

#[test]
fn saved_course_and_kept_token_stay_unless_overwritten() {
    let (actions, state, master) = run(
        Some("1"),
        vec![SetupEvent::Begin, SetupEvent::Confirmed(None), SetupEvent::TokenFound, SetupEvent::Confirmed(Some(false))],
    );
    assert_eq!(
        actions,
        vec!["ConfirmCourseOverwrite", "LookUpToken", "ConfirmTokenOverwrite", "WriteConfig"]
    );
    assert_eq!(state, SetupState::Finished);
    assert_eq!(master.moodle_course_id.as_deref(), Some("1"));

    let (actions, state, master) = run(
        Some("1"),
        vec![
            SetupEvent::Begin,
            SetupEvent::Confirmed(Some(true)),
            SetupEvent::Entered("2".to_string()),
            SetupEvent::TokenFound,
            SetupEvent::Confirmed(Some(true)),
            SetupEvent::Entered("new".to_string()),
            SetupEvent::TokenStored,
        ],
    );
    assert_eq!(
        actions,
        vec![
            "ConfirmCourseOverwrite",
            "AskCourseId",
            "LookUpToken",
            "ConfirmTokenOverwrite",
            "AskToken",
            "StoreToken(\"new\")",
            "WriteConfig",
        ]
    );
    assert_eq!(state, SetupState::Finished);
    assert_eq!(master.moodle_course_id.as_deref(), Some("2"));
}

#[test]
fn failed_lookup_and_unexpected_events_give_up() {
    for lookup in [SetupEvent::TokenAmbiguous, SetupEvent::TokenUnreadable] {
        let (actions, state, _) =
            run(Some("1"), vec![SetupEvent::Begin, SetupEvent::Confirmed(Some(false)), lookup]);
        assert_eq!(actions[2], "Fail");
        assert_eq!(state, SetupState::Failed);
    }
    let (actions, state, master) = run(None, vec![SetupEvent::TokenStored, SetupEvent::Begin]);
    assert_eq!(actions, vec!["Fail", "Fail"]);
    assert_eq!(state, SetupState::Failed);
    assert_eq!(master.moodle_course_id, None);
    let (actions, _, _) = run(
        None,
        vec![
            SetupEvent::Begin,
            SetupEvent::Entered("1".to_string()),
            SetupEvent::TokenMissing,
            SetupEvent::Entered("t".to_string()),
            SetupEvent::TokenStored,
            SetupEvent::Begin,
        ],
    );
    assert_eq!(actions[5], "Fail");
}
