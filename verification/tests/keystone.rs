use keystone_cc::keystone::{
    dir_to_str, map_direction, map_error, map_event, op_to_str, type_to_str, uop_to_str,
    KsDirection, KsError, KsEvent, KsOp, KsType, KsUnaryOp,
};
use keystone_cc::script_types::{MoveDirection, ScriptCommand, ScriptExecutionError};

fn engine_text(e: ScriptExecutionError) -> String {
    match e {
        ScriptExecutionError::Engine(m) => m,
        other => panic!("unexpected {:?}", other),
    }
}

#[test]
fn keystone_errors_read_as_sentences() {
    assert_eq!(
        engine_text(map_error(KsError::InvalidOperandType { op: KsOp::Add, typ: KsType::Boolean })),
        "Cannot use type Boolean with operator '+'"
    );
    assert_eq!(
        engine_text(map_error(KsError::InvalidUnaryOperandType { op: KsUnaryOp::Not, typ: KsType::Uint })),
        "Cannot use type Uint with operator 'not'"
    );
    assert_eq!(
        engine_text(map_error(KsError::MismatchedTypes {
            op: KsOp::Le,
            left: KsType::String,
            right: KsType::Float
        })),
        "String and Float cannot be used together with operator '<='"
    );
    assert_eq!(
        engine_text(map_error(KsError::NameError { name: "foo".to_string() })),
        "Name 'foo' is not defined."
    );
    assert_eq!(
        engine_text(map_error(KsError::SyntaxError {
            messages: vec!["line 1".to_string(), "line 2".to_string()]
        })),
        "Syntax error occurred. line 1"
    );
    assert_eq!(engine_text(map_error(KsError::TooLargeNumber)), "Too large Number used.");
    assert_eq!(
        engine_text(map_error(KsError::UnexpectedType {
            statement: "if".to_string(),
            found_type: KsType::Side
        })),
        "Unexpected type 'Side' in statement 'if'"
    );
    assert_eq!(engine_text(map_error(KsError::ZeroDivisionError)), "Cannot divide by zero.");
    assert_eq!(
        engine_text(map_error(KsError::ArgError { called: "move".to_string(), expected: 1, got: 3 })),
        "move expected 1 args, but got 3"
    );
}

#[test]
fn keystone_names_and_events() {
    assert_eq!(type_to_str(KsType::Direction), "Direction");
    assert_eq!(op_to_str(KsOp::Neq), "!=");
    assert_eq!(op_to_str(KsOp::And), "and");
    assert_eq!(uop_to_str(KsUnaryOp::Not), "not");
    assert_eq!(dir_to_str(KsDirection::Up), "top");
    assert_eq!(dir_to_str(KsDirection::Other), "unknown");
    assert_eq!(map_direction(KsDirection::Up), Some(MoveDirection::Top));
    assert_eq!(map_direction(KsDirection::Other), None);
    assert_eq!(map_event(KsEvent::Move(KsDirection::Left)), Some(ScriptCommand::Move(MoveDirection::Left)));
    assert_eq!(map_event(KsEvent::Dig(KsDirection::Other)), None);
    assert_eq!(map_event(KsEvent::Sleep(5)), Some(ScriptCommand::Sleep(5)));
    assert_eq!(map_event(KsEvent::Other), None);
}
