use keystone_cc::editor::{
    backtick_segments, command_help_args, command_help_for_stage, stage_name_key, tick_decision,
    tick_state, tutorial_dialog_for_stage, EditorFlags, EditorMenuAction, TickAction,
    TutorialOverlayPanel, COMMAND_HELP_TITLE_KEY,
};
use keystone_cc::messages::{
    locale_order, localized_stage_name, message_request, script_error_message, script_error_text, tr,
    tr_or, tr_with_args, ErrorText,
};
use keystone_cc::script_engine::Language;
use keystone_cc::script_types::{ScriptExecutionError, ScriptStateValue};
use keystone_cc::stage::StageId;
use keystone_cc::tutorial_text::chunk_tutorial_text;

#[test]
fn stage_dialog_keys() {
    let d = tutorial_dialog_for_stage(StageId(3)).unwrap();
    assert_eq!(d.title_key, "stage3-name");
    assert_eq!(d.body_key, "stage3-text");
    let h = command_help_for_stage(StageId(12)).unwrap();
    assert_eq!(h.title_key, COMMAND_HELP_TITLE_KEY);
    assert_eq!(h.title_key, "stage-ui-command-help-title");
    assert_eq!(h.entry, "stage12-description");
    assert!(!h.is_open);
    assert_eq!(stage_name_key(StageId(0)), "stage-name-0");
}

#[test]
fn command_help_examples_per_language() {
    let rhai = command_help_args(Language::Rhai);
    assert_eq!(rhai.len(), 9);
    assert_eq!(rhai[0], ("move-up", "move(\"up\");"));
    assert_eq!(rhai[5], ("sleep-2x5", "sleep(2<<dot>>5);"));
    let ks = command_help_args(Language::Keystone);
    assert_eq!(ks.len(), 6);
    assert_eq!(ks[4], ("sleep-1", "sleep 1"));
}

#[test]
fn menu_entries_and_their_keys() {
    let all = EditorMenuAction::all();
    assert_eq!(
        all,
        vec![
            EditorMenuAction::DecreaseFont,
            EditorMenuAction::IncreaseFont,
            EditorMenuAction::RunScript,
            EditorMenuAction::ToggleCommandHelp
        ]
    );
    assert_eq!(EditorMenuAction::RunScript.label_key(false), "stage-ui-menu-run");
    assert_eq!(EditorMenuAction::RunScript.label_key(true), "stage-ui-menu-stop");
    assert_eq!(EditorMenuAction::DecreaseFont.label_key(true), "stage-ui-menu-font-decrease");
    assert_eq!(EditorMenuAction::ToggleCommandHelp.key_text(), Some("F4"));
    assert_eq!(EditorMenuAction::IncreaseFont.key_text(), Some("F2"));
}

#[test]
fn tutorial_overlay_walks_through_parts() {
    let mut panel = TutorialOverlayPanel::new(vec!["one".to_string(), "two".to_string()]);
    assert_eq!(panel.current_text(), "one");
    assert!(panel.has_next());
    assert!(!panel.next_is_last());
    assert_eq!(panel.overlay_text(), "one\n\n");
    assert!(panel.advance());
    assert_eq!(panel.current_text(), "two");
    assert_eq!(panel.overlay_text(), "two");
    assert!(!panel.advance());
    assert_eq!(panel.current_text(), "two");
    let empty = TutorialOverlayPanel::new(Vec::new());
    assert_eq!(empty.current_text(), "");
    assert_eq!(empty.overlay_text(), "");
}

#[test]
fn backticks_mark_code() {
    let s = backtick_segments("use `move(\"up\")` now");
    assert_eq!(
        s,
        vec![
            ("use ".to_string(), false),
            ("move(\"up\")".to_string(), true),
            (" now".to_string(), false)
        ]
    );
    assert_eq!(backtick_segments(""), vec![(String::new(), false)]);
    assert_eq!(backtick_segments("``").len(), 3);
}

#[test]
fn tutorial_text_is_cut_into_parts() {
    let parts = chunk_tutorial_text("  Hello  \nworld\n\n\nNext\n____\nend \n");
    assert_eq!(parts, vec!["Hello\nworld".to_string(), "Next\n\nend".to_string()]);
    assert!(chunk_tutorial_text("").is_empty());
    assert!(chunk_tutorial_text(" \n\t\n").is_empty());
    assert_eq!(chunk_tutorial_text("a\r\nb"), vec!["a\nb".to_string()]);
    assert_eq!(chunk_tutorial_text("\u{3000}x\u{a0}"), vec!["x".to_string()]);
}

#[test]
fn frame_decisions_for_a_stepping_script() {
    assert_eq!(tick_decision(false, true, false), TickAction::DropProgram);
    assert_eq!(tick_decision(true, false, false), TickAction::Wait);
    assert_eq!(tick_decision(true, true, true), TickAction::Wait);
    assert_eq!(tick_decision(true, true, false), TickAction::Step);
}

#[test]
fn tick_state_describes_the_stone() {
    let s = tick_state(true, 42, true, false, true, false);
    assert_eq!(s.get("player-touched"), Some(ScriptStateValue::Bool(true)));
    assert_eq!(s.get("rand"), Some(ScriptStateValue::Float(42)));
    assert_eq!(s.get("is-empty-up"), Some(ScriptStateValue::Bool(true)));
    assert_eq!(s.get("is-empty-down"), Some(ScriptStateValue::Bool(false)));
    assert_eq!(s.get("is-empty-left"), Some(ScriptStateValue::Bool(true)));
    assert_eq!(s.get("is-empty-right"), Some(ScriptStateValue::Bool(false)));
    assert_eq!(s.get("is-empty-top"), None);
}

#[test]
fn goal_is_reported_once() {
    let mut flags = EditorFlags::new();
    assert!(!flags.watches_goal(false));
    flags.controls_enabled = true;
    assert!(flags.watches_goal(false));
    assert!(!flags.watches_goal(true));
    flags.reach_goal();
    assert!(flags.stage_cleared);
    assert!(!flags.watches_goal(false));
    flags.settle_clear();
    assert!(!flags.stage_cleared && !flags.controls_enabled);
    flags.stage_reloaded();
    assert!(!flags.pending_player_reset);
}

#[test]
fn catalog_requests_carry_arguments() {
    assert_eq!(message_request("stage-ui-feedback-goal", &[]), "stage-ui-feedback-goal");
    assert_eq!(
        message_request("stage-ui-feedback-advance", &[("stage", "Stage 2")]),
        "stage-ui-feedback-advance?stage=Stage 2"
    );
    assert_eq!(message_request("k", &[("a", "1"), ("b", "2")]), "k?a=1&b=2");
}

#[test]
fn errors_are_shown_through_the_catalog() {
    match script_error_text(&ScriptExecutionError::Engine("bad".to_string())) {
        ErrorText::Localized { key, arg } => {
            assert_eq!(key, "stage-ui-error.engine");
            assert_eq!(arg, Some(("message", "bad".to_string())));
        }
        ErrorText::Literal(_) => panic!("expected a catalog key"),
    }
    match script_error_text(&ScriptExecutionError::EmptyScript) {
        ErrorText::Localized { key, arg } => {
            assert_eq!(key, "stage-ui-error-empty-script");
            assert!(arg.is_none());
        }
        ErrorText::Literal(_) => panic!("expected a catalog key"),
    }
    match script_error_text(&ScriptExecutionError::InvalidCommand("as is".to_string())) {
        ErrorText::Literal(m) => assert_eq!(m, "as is"),
        ErrorText::Localized { .. } => panic!("expected the text itself"),
    }
}

#[test]
fn locale_order_keeps_requested_locale_before_en_us_fallback() {
    // The fallback chain of a `ja-JP` locale with `en-US` as its default.
    let chain = vec!["ja-JP".to_string(), "en-US".to_string()];
    let available = vec!["en-US".to_string(), "ja-JP".to_string(), "zh-Hans".to_string()];

    assert_eq!(locale_order(&chain, &available), vec![1, 0]);
}

fn catalog(request: &str) -> Option<String> {
    match request {
        "stage-name-2" => Some("Stone Steps".to_string()),
        "stage-ui-menu-run" => Some("Run".to_string()),
        "stage-ui-error-empty-script" => Some("The script is empty.".to_string()),
        "stage-ui-error.engine?message=bad" => Some("Engine error: bad".to_string()),
        _ => None,
    }
}

#[test]
fn lookups_fall_back_to_key_or_given_text() {
    assert_eq!(tr(&catalog, "stage-ui-menu-run"), "Run");
    assert_eq!(tr(&catalog, "stage-ui-menu-stop"), "stage-ui-menu-stop");
    assert_eq!(tr_or(&catalog, "stage-ui-menu-run", "fallback"), "Run");
    assert_eq!(tr_or(&catalog, "missing", "fallback"), "fallback");
    assert_eq!(tr_with_args(&catalog, "stage-ui-error.engine", &[("message", "bad")]), "Engine error: bad");
    assert_eq!(tr_with_args(&catalog, "stage-ui-error.engine", &[("message", "other")]), "stage-ui-error.engine");
    assert_eq!(tr_with_args(&catalog, "stage-ui-menu-run", &[]), "Run");
}

#[test]
fn stage_names_come_from_the_catalog() {
    assert_eq!(localized_stage_name(&catalog, StageId(2), "Stage 3"), "Stone Steps");
    assert_eq!(localized_stage_name(&catalog, StageId(7), "Stage 8"), "Stage 8");
}

#[test]
fn error_messages_read_the_catalog() {
    assert_eq!(script_error_message(&catalog, &ScriptExecutionError::EmptyScript), "The script is empty.");
    assert_eq!(
        script_error_message(&catalog, &ScriptExecutionError::Engine("bad".to_string())),
        "Engine error: bad"
    );
    assert_eq!(
        script_error_message(&catalog, &ScriptExecutionError::InvalidSleepDuration),
        "stage-ui-error-invalid-sleep-duration"
    );
    assert_eq!(
        script_error_message(&catalog, &ScriptExecutionError::InvalidCommand("no dig here".to_string())),
        "no dig here"
    );
}
