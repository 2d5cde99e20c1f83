use leaf::errors::LeafError;
use leaf::lifecycle::{command_outcome, post_stop_command, runnable_command, start_with_lifecycle, LifecycleCommands};
use leaf::text::decimal_chars;

#[test]
fn plan_trims_and_drops_blank_commands() {
    let lc = LifecycleCommands {
        post_start: Some("  printf start >> marker \n".to_string()),
        post_stop: Some("   ".to_string()),
    };
    let plan = start_with_lifecycle(Ok(lc)).unwrap();
    assert_eq!(plan.post_start.as_deref(), Some("printf start >> marker"));
    assert_eq!(plan.post_stop, None);
    let plan = start_with_lifecycle(Ok(LifecycleCommands { post_start: None, post_stop: Some("printf stop".to_string()) })).unwrap();
    assert_eq!(plan.post_start, None);
    assert_eq!(plan.post_stop.as_deref(), Some("printf stop"));
}

#[test]
fn plan_passes_config_errors_through() {
    let r = start_with_lifecycle(Err(LeafError::Config("bad json".to_string())));
    assert!(matches!(r, Err(LeafError::Config(ref m)) if m == "bad json"));
}

#[test]
fn post_stop_runs_only_after_success() {
    let plan = start_with_lifecycle(Ok(LifecycleCommands {
        post_start: Some("printf start".to_string()),
        post_stop: Some("printf stop".to_string()),
    }))
    .unwrap();
    assert_eq!(post_stop_command(&plan, &Ok(())).as_deref(), Some("printf stop"));
    assert_eq!(post_stop_command(&plan, &Err(LeafError::RuntimeManager)), None);
}

#[test]
fn runnable_commands() {
    assert_eq!(runnable_command(" ls -l ").as_deref(), Some("ls -l"));
    assert_eq!(runnable_command("\t\n"), None);
    assert_eq!(runnable_command(""), None);
}

#[test]
fn failed_command_messages() {
    assert!(command_outcome("post-stop", "true", true, Some(0)).is_ok());
    match command_outcome("post-stop", "false", false, Some(1)) {
        Err(LeafError::Io(m)) => assert_eq!(m, "lifecycle post-stop command failed with status 1: false"),
        other => panic!("unexpected {:?}", other),
    }
    match command_outcome("post-start", "sleep 9", false, None) {
        Err(LeafError::Io(m)) => {
            assert_eq!(m, "lifecycle post-start command failed with status terminated by signal: sleep 9")
        }
        other => panic!("unexpected {:?}", other),
    }
}

#[test]
fn decimal_text_of_i32() {
    let s = |n: i32| decimal_chars(n).into_iter().collect::<String>();
    for n in [0, 7, 10, 255, -1, -40, 1234567890, i32::MAX, i32::MIN] {
        assert_eq!(s(n), n.to_string());
    }
}
