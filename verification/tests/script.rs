use keystone_cc::script_engine::{
    command_enabled, command_limit_token, invalid_dig_token, invalid_move_token,
    map_engine_error, map_engine_failure, map_runtime_message, preflight_result,
    preflight_verdict, resolve_direction, CommandRecorder, EngineFailure, RhaiScriptExecutor,
    MAX_COMMANDS,
};
use keystone_cc::script_types::{
    is_empty_key, MoveDirection, ScriptExecutionError, ScriptState, ScriptStateValue,
    SharedScriptState, PLAYER_TOUCHED_STATE_KEY,
};

#[test]
fn directions_are_read_ignoring_case() {
    assert_eq!(MoveDirection::from_str("LEFT"), Some(MoveDirection::Left));
    assert_eq!(MoveDirection::from_str("up"), Some(MoveDirection::Top));
    assert_eq!(MoveDirection::from_str("Top"), Some(MoveDirection::Top));
    assert_eq!(MoveDirection::from_str("riGht"), Some(MoveDirection::Right));
    assert_eq!(MoveDirection::from_str("down"), Some(MoveDirection::Down));
    assert_eq!(MoveDirection::from_str("north"), None);
    assert_eq!(MoveDirection::from_str(""), None);
    for d in [MoveDirection::Left, MoveDirection::Top, MoveDirection::Right, MoveDirection::Down] {
        assert_eq!(MoveDirection::from_str(d.as_str()), Some(d));
    }
}

#[test]
fn errors_have_their_messages() {
    let e = ScriptExecutionError::InvalidMoveDirection { direction: "north".to_string() };
    assert_eq!(e.message(), "Invalid move direction: north");
    assert_eq!(ScriptExecutionError::EmptyScript.message(), "Script is empty.");
    assert_eq!(
        ScriptExecutionError::InvalidSleepDuration.message(),
        "sleep duration must be zero or greater."
    );
    assert_eq!(ScriptExecutionError::Engine("boom".to_string()).message(), "Script runtime error: boom");
    assert_eq!(
        ScriptExecutionError::UnsupportedLanguage("x".to_string()).message(),
        "Unsupported script language: x"
    );
    assert_eq!(ScriptExecutionError::InvalidCommand("y".to_string()).message(), "Invalid command: y");
}

#[test]
fn tokens_are_reported_as_their_errors() {
    match map_runtime_message(&invalid_move_token("north")) {
        ScriptExecutionError::InvalidMoveDirection { direction } => assert_eq!(direction, "north"),
        other => panic!("unexpected {:?}", other),
    }
    match map_runtime_message(&invalid_dig_token("west-ish")) {
        ScriptExecutionError::InvalidMoveDirection { direction } => assert_eq!(direction, "west-ish"),
        other => panic!("unexpected {:?}", other),
    }
    assert!(matches!(
        map_runtime_message("__invalid_sleep__:-1"),
        ScriptExecutionError::InvalidSleepDuration
    ));
    match map_runtime_message(&command_limit_token(512)) {
        ScriptExecutionError::Engine(m) => assert_eq!(
            m,
            "Too many commands emitted (>512). Add yields/sleeps or reduce loop counts."
        ),
        other => panic!("unexpected {:?}", other),
    }
    match map_runtime_message("__command_limit__:lots") {
        ScriptExecutionError::Engine(m) => assert_eq!(
            m,
            format!("Too many commands emitted (>{}). Add yields/sleeps or reduce loop counts.", MAX_COMMANDS)
        ),
        other => panic!("unexpected {:?}", other),
    }
    match map_runtime_message("plain failure") {
        ScriptExecutionError::Engine(m) => assert_eq!(m, "plain failure"),
        other => panic!("unexpected {:?}", other),
    }
}

#[test]
fn command_limit_token_spells_out_the_limit() {
    assert_eq!(command_limit_token(5000), "__command_limit__:5000");
    assert_eq!(command_limit_token(0), "__command_limit__:0");
}

#[test]
fn named_directions_resolve_or_report() {
    assert_eq!(resolve_direction("Left", false), Ok(MoveDirection::Left));
    assert_eq!(resolve_direction("sideways", false), Err("__invalid_move__:sideways".to_string()));
    assert_eq!(resolve_direction("sideways", true), Err("__invalid_dig__:sideways".to_string()));
}

#[test]
fn recorder_stops_at_its_limit() {
    let mut r: CommandRecorder<u32> = CommandRecorder::with_limit(2);
    assert!(r.push(1).is_ok());
    assert!(r.push(2).is_ok());
    assert_eq!(r.push(3), Err("__command_limit__:2".to_string()));
    assert_eq!(r.into_commands(), vec![1, 2]);
}

#[test]
fn allowed_commands_gate_the_api() {
    let list = vec!["move".to_string(), "sleep".to_string()];
    assert!(command_enabled(None, "dig"));
    assert!(command_enabled(Some(&list), "move"));
    assert!(!command_enabled(Some(&list), "dig"));
    assert!(!command_enabled(Some(&Vec::new()), "move"));
}

#[test]
fn preflight_lets_long_scripts_through() {
    assert!(preflight_verdict(EngineFailure::TooManyOperations("Too many operations".to_string())).is_ok());
    assert!(preflight_verdict(EngineFailure::Runtime(command_limit_token(512))).is_ok());
    match preflight_verdict(EngineFailure::Runtime(invalid_move_token("x"))) {
        Err(ScriptExecutionError::InvalidMoveDirection { direction }) => assert_eq!(direction, "x"),
        other => panic!("unexpected {:?}", other),
    }
    match preflight_verdict(EngineFailure::Other("Syntax error".to_string())) {
        Err(ScriptExecutionError::Engine(m)) => assert_eq!(m, "Syntax error"),
        other => panic!("unexpected {:?}", other),
    }
    match map_engine_failure(EngineFailure::TooManyOperations("ops".to_string())) {
        ScriptExecutionError::Engine(m) => assert_eq!(m, "ops"),
        other => panic!("unexpected {:?}", other),
    }
}

#[test]
fn real_engine_errors_are_classified() {
    let err = rhai::EvalAltResult::ErrorRuntime(
        invalid_move_token("north").into(),
        rhai::Position::NONE,
    );
    match map_engine_error(err) {
        ScriptExecutionError::InvalidMoveDirection { direction } => assert_eq!(direction, "north"),
        other => panic!("unexpected {:?}", other),
    }
    let err = rhai::EvalAltResult::ErrorRuntime(command_limit_token(512).into(), rhai::Position::NONE);
    assert!(preflight_result(err).is_ok());
    let err = rhai::EvalAltResult::ErrorTooManyOperations(rhai::Position::NONE);
    assert!(preflight_result(err).is_ok());
    let engine = rhai::Engine::new();
    let err = *engine.eval::<rhai::Dynamic>("let x = ;").unwrap_err();
    match map_engine_error(err) {
        ScriptExecutionError::Engine(m) => assert!(!m.is_empty()),
        other => panic!("unexpected {:?}", other),
    }
    let _ = RhaiScriptExecutor::new();
}

#[test]
fn state_reads_back_what_was_stored() {
    let mut state = ScriptState::new();
    assert!(state.get("rand").is_none());
    state.insert("rand".to_string(), ScriptStateValue::Float(7));
    state.insert(PLAYER_TOUCHED_STATE_KEY.to_string(), ScriptStateValue::Bool(false));
    state.insert(PLAYER_TOUCHED_STATE_KEY.to_string(), ScriptStateValue::Bool(true));
    assert_eq!(state.get(PLAYER_TOUCHED_STATE_KEY), Some(ScriptStateValue::Bool(true)));
    assert_eq!(state.get("rand"), Some(ScriptStateValue::Float(7)));
    assert_eq!(ScriptStateValue::Float(7).as_bool(), None);
}

#[test]
fn shared_state_reflects_latest_write() {
    let mut shared = SharedScriptState::new();
    assert!(!shared.touched());
    let mut touched = ScriptState::new();
    touched.insert(PLAYER_TOUCHED_STATE_KEY.to_string(), ScriptStateValue::Bool(true));
    shared.write(&touched);
    assert!(shared.touched());
    let mut untouched = ScriptState::new();
    untouched.insert(PLAYER_TOUCHED_STATE_KEY.to_string(), ScriptStateValue::Bool(false));
    untouched.insert(is_empty_key("UP"), ScriptStateValue::Bool(true));
    shared.write(&untouched);
    assert!(!shared.touched());
    assert!(shared.flag("is-empty-up"));
    assert!(!shared.flag("is-empty-down"));
}
