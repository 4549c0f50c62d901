use rhai::EvalAltResult;
use vstd::prelude::*;
use vstd::string::*;

use crate::script_types::{spec_direction_named, MoveDirection, ScriptExecutionError};
use crate::text::{
    ascii_lower_seq, concat_str, decimal_digits, format_usize, parse_usize, spec_parse_usize,
    spec_strip_prefix, starts_with, str_eq, strip_prefix, lemma_parse_format_round_trip,
};

verus! {

/// Languages a player can write a stone's program in.
#[derive(Debug, Clone, Copy, PartialEq, Eq, Structural)]
pub enum Language {
    Rhai,
    Keystone,
}

/// Runs player scripts written in Rhai.
pub struct RhaiScriptExecutor;

impl RhaiScriptExecutor {
    /// A new executor; it holds no state of its own.
    pub fn new() -> (r: RhaiScriptExecutor)
        ensures
            r == RhaiScriptExecutor,
    {
        RhaiScriptExecutor
    }
}

/// Marks a runtime error raised by `move` with a direction it does not know.
pub const INVALID_MOVE_PREFIX: &'static str = "__invalid_move__:";

/// Marks a runtime error raised by `dig` with a direction it does not know.
pub const INVALID_DIG_PREFIX: &'static str = "__invalid_dig__:";

/// Marks a runtime error raised by `sleep` with a negative duration.
pub const INVALID_SLEEP_PREFIX: &'static str = "__invalid_sleep__:";

/// Marks a runtime error raised when a script emits too many commands.
pub const COMMAND_LIMIT_PREFIX: &'static str = "__command_limit__:";

/// Raised inside a running script when the game asks it to stop.
pub const STOP_REQUEST_TOKEN: &'static str = "__stop_requested__";

/// Engine operations allowed for one buffered evaluation.
pub const MAX_OPS: u64 = 100_000;

/// Engine operations allowed for the quick check before stepping a script.
pub const PREFLIGHT_MAX_OPS: u64 = 100_000;

/// Commands recorded by the quick check before it stops the script.
pub const PREFLIGHT_MAX_COMMANDS: usize = 512;

/// Deepest expression the engine accepts.
pub const MAX_EXPR_DEPTH: usize = 64;

/// Deepest call stack the engine accepts.
pub const MAX_CALL_LEVELS: usize = 32;

/// Commands recorded by a buffered evaluation before it stops the script.
pub const MAX_COMMANDS: usize = 5_000;

/// Commands a stepping script may hand over before it waits for the game.
pub const STREAM_CHANNEL_SIZE: usize = 1;

// ---------------------------------------------------------------------------
// Which commands a stone accepts.
// ---------------------------------------------------------------------------

/// Whether `name` is one of the names in `list`.
pub open spec fn spec_listed(list: Seq<String>, name: Seq<char>) -> bool {
    exists|i: int| 0 <= i < list.len() && (#[trigger] list[i])@ == name
}

/// Whether the command `name` is active under the list `allowed`: with no
/// list every command is, else only the listed ones.
pub fn command_enabled(allowed: Option<&Vec<String>>, name: &str) -> (r: bool)
    ensures
        allowed is None ==> r,
        allowed matches Some(v) ==> (r <==> spec_listed(v@, name@)),
{
    match allowed {
        None => true,
        Some(list) => {
            let mut i: usize = 0;
            while i < list.len()
                invariant
                    allowed == Some(list),
                    i <= list.len(),
                    forall|k: int| 0 <= k < i ==> (#[trigger] list@[k])@ != name@,
                decreases list.len() - i,
            {
                if str_eq(list[i].as_str(), name) {
                    proof {
                        assert(list@[i as int]@ == name@);
                    }
                    return true;
                }
                i += 1;
            }
            false
        },
    }
}

// ---------------------------------------------------------------------------
// Error tokens raised from inside the engine.
// ---------------------------------------------------------------------------

/// The runtime error `move` raises for a direction it cannot read.
pub fn invalid_move_token(direction: &str) -> (r: String)
    ensures
        r@ == INVALID_MOVE_PREFIX@ + direction@,
{
    concat_str(INVALID_MOVE_PREFIX, direction)
}

/// The runtime error `dig` raises for a direction it cannot read.
pub fn invalid_dig_token(direction: &str) -> (r: String)
    ensures
        r@ == INVALID_DIG_PREFIX@ + direction@,
{
    concat_str(INVALID_DIG_PREFIX, direction)
}

/// The runtime error raised once `max` commands have been recorded.
pub fn command_limit_token(max: usize) -> (r: String)
    ensures
        r@ == COMMAND_LIMIT_PREFIX@ + decimal_digits(max as nat),
{
    let digits = format_usize(max);
    concat_str(COMMAND_LIMIT_PREFIX, digits.as_str())
}

/// What a named move or dig resolves to: the direction, or the runtime error
/// text that reports the name.
pub fn resolve_direction(direction: &str, dig: bool) -> (r: Result<MoveDirection, String>)
    ensures
        match spec_direction_named(ascii_lower_seq(direction@)) {
            Some(d) => r == Ok::<MoveDirection, String>(d),
            None => r matches Err(token) && token@ == (if dig {
                INVALID_DIG_PREFIX@
            } else {
                INVALID_MOVE_PREFIX@
            }) + direction@,
        },
{
    match MoveDirection::from_str(direction) {
        Some(d) => Ok(d),
        None => {
            if dig {
                Err(invalid_dig_token(direction))
            } else {
                Err(invalid_move_token(direction))
            }
        },
    }
}

// ---------------------------------------------------------------------------
// Commands recorded during one evaluation.
// ---------------------------------------------------------------------------

/// Commands a script emitted, up to a limit.
pub struct CommandRecorder<T> {
    commands: Vec<T>,
    max: usize,
}

impl<T> CommandRecorder<T> {
    /// The commands recorded so far, oldest first.
    pub closed spec fn recorded(&self) -> Seq<T> {
        self.commands@
    }

    /// How many commands the recorder accepts.
    pub closed spec fn limit(&self) -> nat {
        self.max as nat
    }

    /// An empty recorder accepting at most `max` commands.
    pub fn with_limit(max: usize) -> (r: CommandRecorder<T>)
        ensures
            r.recorded() == Seq::<T>::empty(),
            r.limit() == max,
    {
        CommandRecorder { commands: Vec::new(), max }
    }

    /// Records `command`; once the limit is reached, records nothing and
    /// returns the runtime error that reports the limit.
    pub fn push(&mut self, command: T) -> (r: Result<(), String>)
        ensures
            final(self).limit() == old(self).limit(),
            old(self).recorded().len() >= old(self).limit() ==> {
                &&& final(self).recorded() == old(self).recorded()
                &&& r matches Err(token) && token@ == COMMAND_LIMIT_PREFIX@ + decimal_digits(
                    old(self).limit(),
                )
            },
            old(self).recorded().len() < old(self).limit() ==> {
                &&& final(self).recorded() == old(self).recorded().push(command)
                &&& r is Ok
            },
    {
        if self.commands.len() >= self.max {
            return Err(command_limit_token(self.max));
        }
        self.commands.push(command);
        Ok(())
    }

    /// The recorded commands, oldest first.
    pub fn into_commands(self) -> (r: Vec<T>)
        ensures
            r@ == self.recorded(),
    {
        self.commands
    }
}

// ---------------------------------------------------------------------------
// Errors coming out of the engine.
// ---------------------------------------------------------------------------

/// Tells Verus of the error type the Rhai engine returns.
#[verifier::external_type_specification]
#[verifier::external_body]
pub struct ExEvalAltResult(EvalAltResult);

/// How an evaluation failed, as far as the game tells failures apart.
pub enum EngineFailure {
    /// The operation budget ran out; the engine's own text of the error.
    TooManyOperations(String),
    /// A runtime error raised with a value; that value's text.
    Runtime(String),
    /// Any other error; the engine's own text of it.
    Other(String),
}

/// What the engine's error `err` is to the game: which kind of failure, and
/// the text that goes with it. It depends on the error alone.
pub uninterp spec fn engine_failure_of(err: EvalAltResult) -> EngineFailure;

/// Tells the variants of Rhai's `EvalAltResult` apart: `ErrorTooManyOperations`
/// and any other error become their display text, `ErrorRuntime` the display
/// text of the value it carries. The contract names the outcome
/// (`engine_failure_of`) and claims nothing of the texts beyond that they
/// depend on the error alone.
#[verifier::external_body]
fn classify_engine_error(err: EvalAltResult) -> (r: EngineFailure)
    ensures
        r == engine_failure_of(err),
{
    match err {
        EvalAltResult::ErrorRuntime(value, _) => EngineFailure::Runtime(value.to_string()),
        EvalAltResult::ErrorTooManyOperations(..) => EngineFailure::TooManyOperations(err.to_string()),
        other => EngineFailure::Other(other.to_string()),
    }
}

/// The text reporting that more than `limit` commands were emitted.
pub open spec fn spec_too_many_commands(limit: nat) -> Seq<char> {
    "Too many commands emitted (>"@ + decimal_digits(limit)
        + "). Add yields/sleeps or reduce loop counts."@
}

/// The limit a command-limit token reports; an unreadable number counts as
/// the buffered limit.
pub open spec fn spec_reported_limit(rest: Seq<char>) -> nat {
    match spec_parse_usize(rest) {
        Some(n) => n as nat,
        None => MAX_COMMANDS as nat,
    }
}

/// Whether `e` is the error the game reports for a runtime error with text
/// `message`.
pub open spec fn spec_runtime_error_is(message: Seq<char>, e: ScriptExecutionError) -> bool {
    if spec_strip_prefix(message, INVALID_MOVE_PREFIX@) is Some {
        e matches ScriptExecutionError::InvalidMoveDirection { direction } && direction@
            == spec_strip_prefix(message, INVALID_MOVE_PREFIX@)->0
    } else if spec_strip_prefix(message, INVALID_DIG_PREFIX@) is Some {
        e matches ScriptExecutionError::InvalidMoveDirection { direction } && direction@
            == spec_strip_prefix(message, INVALID_DIG_PREFIX@)->0
    } else if spec_strip_prefix(message, INVALID_SLEEP_PREFIX@) is Some {
        e is InvalidSleepDuration
    } else if spec_strip_prefix(message, COMMAND_LIMIT_PREFIX@) is Some {
        e matches ScriptExecutionError::Engine(text) && text@ == spec_too_many_commands(
            spec_reported_limit(spec_strip_prefix(message, COMMAND_LIMIT_PREFIX@)->0),
        )
    } else {
        e matches ScriptExecutionError::Engine(text) && text@ == message
    }
}

/// Whether `e` is the error the game reports for the engine failure `f`.
pub open spec fn spec_failure_error_is(f: EngineFailure, e: ScriptExecutionError) -> bool {
    match f {
        EngineFailure::Runtime(message) => spec_runtime_error_is(message@, e),
        EngineFailure::TooManyOperations(text) => e matches ScriptExecutionError::Engine(t) && t@
            == text@,
        EngineFailure::Other(text) => e matches ScriptExecutionError::Engine(t) && t@ == text@,
    }
}

/// The error reported for a runtime error whose value reads `message`.
pub fn map_runtime_message(message: &str) -> (r: ScriptExecutionError)
    ensures
        spec_runtime_error_is(message@, r),
{
    if let Some(direction) = strip_prefix(message, INVALID_MOVE_PREFIX) {
        ScriptExecutionError::InvalidMoveDirection { direction }
    } else if let Some(direction) = strip_prefix(message, INVALID_DIG_PREFIX) {
        ScriptExecutionError::InvalidMoveDirection { direction }
    } else if starts_with(message, INVALID_SLEEP_PREFIX) {
        ScriptExecutionError::InvalidSleepDuration
    } else if let Some(limit_text) = strip_prefix(message, COMMAND_LIMIT_PREFIX) {
        let limit = match parse_usize(limit_text.as_str()) {
            Some(n) => n,
            None => MAX_COMMANDS,
        };
        let digits = format_usize(limit);
        let head = concat_str("Too many commands emitted (>", digits.as_str());
        let text = concat_str(head.as_str(), "). Add yields/sleeps or reduce loop counts.");
        ScriptExecutionError::Engine(text)
    } else {
        ScriptExecutionError::Engine(message.to_owned())
    }
}

/// The error reported for an engine failure.
pub fn map_engine_failure(failure: EngineFailure) -> (r: ScriptExecutionError)
    ensures
        spec_failure_error_is(failure, r),
{
    match failure {
        EngineFailure::Runtime(message) => map_runtime_message(message.as_str()),
        EngineFailure::TooManyOperations(text) => ScriptExecutionError::Engine(text),
        EngineFailure::Other(text) => ScriptExecutionError::Engine(text),
    }
}

/// The error reported for an error the engine returned.
pub fn map_engine_error(error: EvalAltResult) -> (r: ScriptExecutionError)
    ensures
        spec_failure_error_is(engine_failure_of(error), r),
{
    let failure = classify_engine_error(error);
    let ghost f = failure;
    let r = map_engine_failure(failure);
    proof {
        assert(spec_failure_error_is(f, r));
    }
    r
}

/// What the quick check before stepping makes of `failure`: running out of
/// operations or commands passes, any other failure is reported.
pub open spec fn spec_preflight_is(failure: EngineFailure, r: Result<(), ScriptExecutionError>) -> bool {
    match failure {
        EngineFailure::TooManyOperations(_) => r is Ok,
        EngineFailure::Runtime(message) => if spec_strip_prefix(message@, COMMAND_LIMIT_PREFIX@) is Some {
            r is Ok
        } else {
            r matches Err(e) && spec_runtime_error_is(message@, e)
        },
        EngineFailure::Other(text) => r matches Err(e) && e matches ScriptExecutionError::Engine(t) && t@ == text@,
    }
}

/// What the quick check before stepping makes of a failure: running out of
/// operations or commands only means the script runs long, and passes; any
/// other failure is reported.
pub fn preflight_verdict(failure: EngineFailure) -> (r: Result<(), ScriptExecutionError>)
    ensures
        spec_preflight_is(failure, r),
{
    match failure {
        EngineFailure::TooManyOperations(_) => Ok(()),
        EngineFailure::Runtime(message) => {
            if starts_with(message.as_str(), COMMAND_LIMIT_PREFIX) {
                Ok(())
            } else {
                Err(map_runtime_message(message.as_str()))
            }
        },
        EngineFailure::Other(text) => Err(ScriptExecutionError::Engine(text)),
    }
}

/// The outcome of the quick check, given the error the engine returned.
pub fn preflight_result(error: EvalAltResult) -> (r: Result<(), ScriptExecutionError>)
    ensures
        spec_preflight_is(engine_failure_of(error), r),
{
    let failure = classify_engine_error(error);
    let ghost f = failure;
    let r = preflight_verdict(failure);
    proof {
        assert(spec_preflight_is(f, r));
    }
    r
}

// ---------------------------------------------------------------------------
// What each token is reported as.
// ---------------------------------------------------------------------------

proof fn lemma_strip_own_prefix(prefix: Seq<char>, rest: Seq<char>)
    ensures
        spec_strip_prefix(prefix + rest, prefix) == Some(rest),
{
    assert((prefix + rest).take(prefix.len() as int) =~= prefix);
    assert((prefix + rest).skip(prefix.len() as int) =~= rest);
}

proof fn lemma_no_strip_at(message: Seq<char>, prefix: Seq<char>, i: int)
    requires
        0 <= i < prefix.len(),
        i < message.len(),
        message[i] != prefix[i],
    ensures
        spec_strip_prefix(message, prefix) is None,
{
    if prefix.len() <= message.len() {
        assert(message.take(prefix.len() as int)[i] != prefix[i]);
    }
}

proof fn lemma_reveal_tokens()
    ensures
        INVALID_MOVE_PREFIX@.len() == 17,
        INVALID_DIG_PREFIX@.len() == 16,
        INVALID_SLEEP_PREFIX@.len() == 18,
        COMMAND_LIMIT_PREFIX@.len() == 18,
        INVALID_MOVE_PREFIX@[2] == 'i' && INVALID_MOVE_PREFIX@[10] == 'm',
        INVALID_DIG_PREFIX@[2] == 'i' && INVALID_DIG_PREFIX@[10] == 'd',
        INVALID_SLEEP_PREFIX@[2] == 'i' && INVALID_SLEEP_PREFIX@[10] == 's',
        COMMAND_LIMIT_PREFIX@[2] == 'c',
{
    reveal_strlit("__invalid_move__:");
    reveal_strlit("__invalid_dig__:");
    reveal_strlit("__invalid_sleep__:");
    reveal_strlit("__command_limit__:");
}

/// A move towards a name that is no direction is reported as an invalid
/// direction carrying that name.
pub proof fn lemma_invalid_move_reported(direction: Seq<char>, e: ScriptExecutionError)
    ensures
        spec_runtime_error_is(INVALID_MOVE_PREFIX@ + direction, e) <==> (
        e matches ScriptExecutionError::InvalidMoveDirection { direction: d } && d@ == direction),
{
    lemma_strip_own_prefix(INVALID_MOVE_PREFIX@, direction);
}

/// A dig towards a name that is no direction is reported as an invalid
/// direction carrying that name.
pub proof fn lemma_invalid_dig_reported(direction: Seq<char>, e: ScriptExecutionError)
    ensures
        spec_runtime_error_is(INVALID_DIG_PREFIX@ + direction, e) <==> (
        e matches ScriptExecutionError::InvalidMoveDirection { direction: d } && d@ == direction),
{
    lemma_reveal_tokens();
    let m = INVALID_DIG_PREFIX@ + direction;
    assert(m[10] == INVALID_DIG_PREFIX@[10]);
    lemma_no_strip_at(m, INVALID_MOVE_PREFIX@, 10);
    lemma_strip_own_prefix(INVALID_DIG_PREFIX@, direction);
}

/// Running into the command limit is reported with the limit that was hit.
pub proof fn lemma_command_limit_reported(max: usize, e: ScriptExecutionError)
    ensures
        spec_runtime_error_is(COMMAND_LIMIT_PREFIX@ + decimal_digits(max as nat), e) <==> (
        e matches ScriptExecutionError::Engine(t) && t@ == spec_too_many_commands(max as nat)),
{
    lemma_reveal_tokens();
    let m = COMMAND_LIMIT_PREFIX@ + decimal_digits(max as nat);
    assert(m[2] == COMMAND_LIMIT_PREFIX@[2]);
    lemma_no_strip_at(m, INVALID_MOVE_PREFIX@, 2);
    lemma_no_strip_at(m, INVALID_DIG_PREFIX@, 2);
    lemma_no_strip_at(m, INVALID_SLEEP_PREFIX@, 2);
    lemma_strip_own_prefix(COMMAND_LIMIT_PREFIX@, decimal_digits(max as nat));
    lemma_parse_format_round_trip(max);
}

} // verus!
