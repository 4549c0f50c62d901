use vstd::prelude::*;

use crate::script_types::{spec_direction_text, MoveDirection, ScriptCommand, ScriptExecutionError};
use crate::text::{concat_str, decimal_digits, format_usize};

verus! {

/// The value types of the Keystone language.
#[derive(Debug, Clone, Copy, PartialEq, Eq, Structural)]
pub enum KsType {
    Uint,
    Float,
    String,
    Boolean,
    Direction,
    Side,
}

/// The binary operators of the Keystone language.
#[derive(Debug, Clone, Copy, PartialEq, Eq, Structural)]
pub enum KsOp {
    Add,
    Sub,
    Mul,
    Div,
    And,
    Or,
    Eq,
    Ge,
    Gt,
    Le,
    Lt,
    Neq,
}

/// The unary operators of the Keystone language.
#[derive(Debug, Clone, Copy, PartialEq, Eq, Structural)]
pub enum KsUnaryOp {
    Not,
}

/// The directions a Keystone program can name; `Other` stands for any the
/// stone cannot go in.
#[derive(Debug, Clone, Copy, PartialEq, Eq, Structural)]
pub enum KsDirection {
    Up,
    Down,
    Left,
    Right,
    Other,
}

/// What a running Keystone program reports; `Other` stands for reports the
/// stone does not act on. A sleep's length in seconds is held as the bit
/// pattern of its `f32`.
#[derive(Debug, Clone, Copy, PartialEq, Eq, Structural)]
pub enum KsEvent {
    Move(KsDirection),
    Sleep(u32),
    Dig(KsDirection),
    Other,
}

/// The errors a Keystone program can fail with.
pub enum KsError {
    InvalidOperandType { op: KsOp, typ: KsType },
    InvalidUnaryOperandType { op: KsUnaryOp, typ: KsType },
    MismatchedTypes { op: KsOp, left: KsType, right: KsType },
    NameError { name: String },
    SyntaxError { messages: Vec<String> },
    TooLargeNumber,
    UnexpectedType { statement: String, found_type: KsType },
    ZeroDivisionError,
    ArgError { called: String, expected: usize, got: usize },
}

pub open spec fn spec_type_name(t: KsType) -> Seq<char> {
    match t {
        KsType::Uint => "Uint"@,
        KsType::Float => "Float"@,
        KsType::String => "String"@,
        KsType::Boolean => "Boolean"@,
        KsType::Direction => "Direction"@,
        KsType::Side => "Side"@,
    }
}

/// The name a type is shown with.
pub fn type_to_str(typ: KsType) -> (r: String)
    ensures
        r@ == spec_type_name(typ),
{
    match typ {
        KsType::Uint => "Uint".to_owned(),
        KsType::Float => "Float".to_owned(),
        KsType::String => "String".to_owned(),
        KsType::Boolean => "Boolean".to_owned(),
        KsType::Direction => "Direction".to_owned(),
        KsType::Side => "Side".to_owned(),
    }
}

pub open spec fn spec_op_name(op: KsOp) -> Seq<char> {
    match op {
        KsOp::Add => "+"@,
        KsOp::Sub => "-"@,
        KsOp::Mul => "*"@,
        KsOp::Div => "/"@,
        KsOp::And => "and"@,
        KsOp::Or => "or"@,
        KsOp::Eq => "=="@,
        KsOp::Ge => ">="@,
        KsOp::Gt => ">"@,
        KsOp::Le => "<="@,
        KsOp::Lt => "<"@,
        KsOp::Neq => "!="@,
    }
}

/// The symbol a binary operator is written with.
pub fn op_to_str(op: KsOp) -> (r: String)
    ensures
        r@ == spec_op_name(op),
{
    match op {
        KsOp::Add => "+".to_owned(),
        KsOp::Sub => "-".to_owned(),
        KsOp::Mul => "*".to_owned(),
        KsOp::Div => "/".to_owned(),
        KsOp::And => "and".to_owned(),
        KsOp::Or => "or".to_owned(),
        KsOp::Eq => "==".to_owned(),
        KsOp::Ge => ">=".to_owned(),
        KsOp::Gt => ">".to_owned(),
        KsOp::Le => "<=".to_owned(),
        KsOp::Lt => "<".to_owned(),
        KsOp::Neq => "!=".to_owned(),
    }
}

/// The word a unary operator is written with.
pub fn uop_to_str(op: KsUnaryOp) -> (r: String)
    ensures
        r@ == "not"@,
{
    match op {
        KsUnaryOp::Not => "not".to_owned(),
    }
}

/// The direction name the game's state uses for a Keystone direction.
pub open spec fn spec_dir_name(d: KsDirection) -> Seq<char> {
    match d {
        KsDirection::Up => "top"@,
        KsDirection::Down => "down"@,
        KsDirection::Left => "left"@,
        KsDirection::Right => "right"@,
        KsDirection::Other => "unknown"@,
    }
}

/// The direction name the game's state uses for a Keystone direction.
pub fn dir_to_str(dir: KsDirection) -> (r: String)
    ensures
        r@ == spec_dir_name(dir),
{
    match dir {
        KsDirection::Up => "top".to_owned(),
        KsDirection::Down => "down".to_owned(),
        KsDirection::Left => "left".to_owned(),
        KsDirection::Right => "right".to_owned(),
        KsDirection::Other => "unknown".to_owned(),
    }
}

pub open spec fn spec_map_direction(d: KsDirection) -> Option<MoveDirection> {
    match d {
        KsDirection::Up => Some(MoveDirection::Top),
        KsDirection::Down => Some(MoveDirection::Down),
        KsDirection::Left => Some(MoveDirection::Left),
        KsDirection::Right => Some(MoveDirection::Right),
        KsDirection::Other => None,
    }
}

/// The direction the stone goes in for a Keystone direction, if any.
pub fn map_direction(dir: KsDirection) -> (r: Option<MoveDirection>)
    ensures
        r == spec_map_direction(dir),
{
    match dir {
        KsDirection::Up => Some(MoveDirection::Top),
        KsDirection::Down => Some(MoveDirection::Down),
        KsDirection::Left => Some(MoveDirection::Left),
        KsDirection::Right => Some(MoveDirection::Right),
        KsDirection::Other => None,
    }
}

/// The command a Keystone report turns into, if any.
pub open spec fn spec_map_event(event: KsEvent) -> Option<ScriptCommand> {
    match event {
        KsEvent::Move(d) => match spec_map_direction(d) {
            Some(m) => Some(ScriptCommand::Move(m)),
            None => None,
        },
        KsEvent::Sleep(bits) => Some(ScriptCommand::Sleep(bits)),
        KsEvent::Dig(d) => match spec_map_direction(d) {
            Some(m) => Some(ScriptCommand::Dig(m)),
            None => None,
        },
        KsEvent::Other => None,
    }
}

/// The command a Keystone report turns into, if any.
pub fn map_event(event: KsEvent) -> (r: Option<ScriptCommand>)
    ensures
        r == spec_map_event(event),
{
    match event {
        KsEvent::Move(d) => match map_direction(d) {
            Some(m) => Some(ScriptCommand::Move(m)),
            None => None,
        },
        KsEvent::Sleep(bits) => Some(ScriptCommand::Sleep(bits)),
        KsEvent::Dig(d) => match map_direction(d) {
            Some(m) => Some(ScriptCommand::Dig(m)),
            None => None,
        },
        KsEvent::Other => None,
    }
}

/// The message shown for a Keystone error.
pub open spec fn spec_ks_message(err: KsError) -> Seq<char> {
    match err {
        KsError::InvalidOperandType { op, typ } => "Cannot use type "@ + spec_type_name(typ)
            + " with operator '"@ + spec_op_name(op) + "'"@,
        KsError::InvalidUnaryOperandType { op, typ } => "Cannot use type "@ + spec_type_name(typ)
            + " with operator '"@ + "not"@ + "'"@,
        KsError::MismatchedTypes { op, left, right } => spec_type_name(left) + " and "@
            + spec_type_name(right) + " cannot be used together with operator '"@ + spec_op_name(op)
            + "'"@,
        KsError::NameError { name } => "Name '"@ + name@ + "' is not defined."@,
        KsError::SyntaxError { messages } => "Syntax error occurred. "@ + messages@[0]@,
        KsError::TooLargeNumber => "Too large Number used."@,
        KsError::UnexpectedType { statement, found_type } => "Unexpected type '"@ + spec_type_name(
            found_type,
        ) + "' in statement '"@ + statement@ + "'"@,
        KsError::ZeroDivisionError => "Cannot divide by zero."@,
        KsError::ArgError { called, expected, got } => called@ + " expected "@ + decimal_digits(
            expected as nat,
        ) + " args, but got "@ + decimal_digits(got as nat),
    }
}

fn join3(a: &str, b: &str, c: &str) -> (r: String)
    ensures
        r@ == a@ + b@ + c@,
{
    let ab = concat_str(a, b);
    concat_str(ab.as_str(), c)
}

/// The error reported for a failed Keystone program: always an engine
/// error carrying the message shown for it. A syntax error reports its first
/// message.
pub fn map_error(err: KsError) -> (r: ScriptExecutionError)
    requires
        err matches KsError::SyntaxError { messages } ==> messages@.len() > 0,
    ensures
        r matches ScriptExecutionError::Engine(m) && m@ == spec_ks_message(err),
{
    let text = match &err {
        KsError::InvalidOperandType { op, typ } => {
            let t = type_to_str(*typ);
            let o = op_to_str(*op);
            let head = join3("Cannot use type ", t.as_str(), " with operator '");
            join3(head.as_str(), o.as_str(), "'")
        },
        KsError::InvalidUnaryOperandType { op, typ } => {
            let t = type_to_str(*typ);
            let o = uop_to_str(*op);
            let head = join3("Cannot use type ", t.as_str(), " with operator '");
            join3(head.as_str(), o.as_str(), "'")
        },
        KsError::MismatchedTypes { op, left, right } => {
            let l = type_to_str(*left);
            let r = type_to_str(*right);
            let o = op_to_str(*op);
            let head = join3(l.as_str(), " and ", r.as_str());
            let mid = join3(head.as_str(), " cannot be used together with operator '", o.as_str());
            concat_str(mid.as_str(), "'")
        },
        KsError::NameError { name } => join3("Name '", name.as_str(), "' is not defined."),
        KsError::SyntaxError { messages } => concat_str("Syntax error occurred. ", messages[0].as_str()),
        KsError::TooLargeNumber => "Too large Number used.".to_owned(),
        KsError::UnexpectedType { statement, found_type } => {
            let t = type_to_str(*found_type);
            let head = join3("Unexpected type '", t.as_str(), "' in statement '");
            join3(head.as_str(), statement.as_str(), "'")
        },
        KsError::ZeroDivisionError => "Cannot divide by zero.".to_owned(),
        KsError::ArgError { called, expected, got } => {
            let e = format_usize(*expected);
            let g = format_usize(*got);
            let head = join3(called.as_str(), " expected ", e.as_str());
            join3(head.as_str(), " args, but got ", g.as_str())
        },
    };
    ScriptExecutionError::Engine(text)
}

/// Every Keystone direction but `Other` turns into the stone direction
/// that goes by the same name, and different Keystone directions turn into
/// different stone directions; `Other` turns into none.
pub proof fn lemma_direction_mapping_keeps_names(d: KsDirection, e: KsDirection)
    ensures
        d != KsDirection::Other ==> spec_map_direction(d) is Some
            && spec_direction_text(spec_map_direction(d)->0) == spec_dir_name(d),
        d == KsDirection::Other ==> spec_map_direction(d) is None,
        d != e && d != KsDirection::Other && e != KsDirection::Other ==> spec_map_direction(d)
            != spec_map_direction(e),
{
}

/// What a Keystone report turns into, in terms of what the report says: a
/// move or a dig toward a direction becomes a move or a dig toward the stone
/// direction of the same name, a sleep keeps its length, and nothing else
/// becomes a command.
pub proof fn lemma_events_keep_their_meaning(d: KsDirection, bits: u32)
    ensures
        d != KsDirection::Other ==> match (spec_map_event(KsEvent::Move(d)), spec_map_event(KsEvent::Dig(d))) {
            (Some(ScriptCommand::Move(m)), Some(ScriptCommand::Dig(n))) => m == n && spec_direction_text(m)
                == spec_dir_name(d),
            _ => false,
        },
        d == KsDirection::Other ==> spec_map_event(KsEvent::Move(d)) is None && spec_map_event(KsEvent::Dig(d)) is None,
        spec_map_event(KsEvent::Sleep(bits)) == Some(ScriptCommand::Sleep(bits)),
        spec_map_event(KsEvent::Other) is None,
{
}

} // verus!
