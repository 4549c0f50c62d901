use vstd::prelude::*;

use crate::editor::stage_name_key;
use crate::script_types::ScriptExecutionError;
use crate::stage::StageId;
use crate::text::{concat_str, decimal_digits};

verus! {

/// `name=value` pairs joined with `&`.
pub open spec fn spec_query(args: Seq<(Seq<char>, Seq<char>)>) -> Seq<char>
    decreases args.len(),
{
    if args.len() == 0 {
        Seq::<char>::empty()
    } else if args.len() == 1 {
        args[0].0 + "="@ + args[0].1
    } else {
        spec_query(args.drop_last()) + "&"@ + args.last().0 + "="@ + args.last().1
    }
}

pub open spec fn arg_views(args: Seq<(&str, &str)>) -> Seq<(Seq<char>, Seq<char>)> {
    args.map_values(|p: (&str, &str)| (p.0@, p.1@))
}

/// What is looked up in the message catalog for `key` with `args`: the key
/// alone when there are no arguments, else the key, `?`, and the arguments
/// as `name=value` pairs joined with `&`.
pub open spec fn spec_request(key: Seq<char>, args: Seq<(Seq<char>, Seq<char>)>) -> Seq<char> {
    if args.len() == 0 {
        key
    } else {
        key + "?"@ + spec_query(args)
    }
}

/// The text looked up in the message catalog for `key` with `args`.
pub fn message_request(key: &str, args: &[(&str, &str)]) -> (r: String)
    ensures
        r@ == spec_request(key@, arg_views(args@)),
{
    if args.len() == 0 {
        return key.to_owned();
    }
    let mut request = concat_str(key, "?");
    let ghost views = arg_views(args@);
    let mut i: usize = 0;
    while i < args.len()
        invariant
            views == arg_views(args@),
            0 < args@.len(),
            i <= args@.len(),
            request@ == key@ + "?"@ + spec_query(views.take(i as int)),
        decreases args@.len() - i,
    {
        let (name, value) = args[i];
        proof {
            assert(views.take(i + 1).drop_last() =~= views.take(i as int));
            assert(views.take(i + 1).last() == (name@, value@));
        }
        if i > 0 {
            request = concat_str(request.as_str(), "&");
        }
        request = concat_str(request.as_str(), name);
        request = concat_str(request.as_str(), "=");
        request = concat_str(request.as_str(), value);
        proof {
            if i == 0 {
                assert(views.take(1).len() == 1);
                assert(key@ + "?"@ + Seq::<char>::empty() =~= key@ + "?"@);
                assert(key@ + "?"@ + name@ + "="@ + value@ =~= key@ + "?"@ + (name@ + "="@ + value@));
            } else {
                assert(key@ + "?"@ + spec_query(views.take(i as int)) + "&"@ + name@ + "="@ + value@
                    =~= key@ + "?"@ + (spec_query(views.take(i as int)) + "&"@ + name@ + "="@ + value@));
            }
        }
        i += 1;
    }
    proof {
        assert(views.take(args@.len() as int) =~= views);
    }
    request
}

/// How an error is shown: looked up in the message catalog under a key,
/// with at most one argument, or shown as it is.
pub enum ErrorText {
    Localized { key: &'static str, arg: Option<(&'static str, String)> },
    Literal(String),
}

/// Whether `t` looks up `k` with no argument.
pub open spec fn localized_plain(t: ErrorText, k: Seq<char>) -> bool {
    match t {
        ErrorText::Localized { key, arg } => key@ == k && arg is None,
        ErrorText::Literal(_) => false,
    }
}

/// Whether `t` looks up `k` with the one argument `name` set to `value`.
pub open spec fn localized_with(t: ErrorText, k: Seq<char>, name: Seq<char>, value: Seq<char>) -> bool {
    match t {
        ErrorText::Localized { key, arg } => key@ == k && match arg {
            Some(a) => a.0@ == name && a.1@ == value,
            None => false,
        },
        ErrorText::Literal(_) => false,
    }
}

/// How the error `e` is shown to the player.
pub open spec fn spec_error_text_is(e: ScriptExecutionError, t: ErrorText) -> bool {
    match e {
        ScriptExecutionError::EmptyScript => localized_plain(t, "stage-ui-error-empty-script"@),
        ScriptExecutionError::InvalidMoveDirection { direction } => localized_with(
            t,
            "stage-ui-error.invalid-move-direction"@,
            "direction"@,
            direction@,
        ),
        ScriptExecutionError::InvalidSleepDuration => localized_plain(t, "stage-ui-error-invalid-sleep-duration"@),
        ScriptExecutionError::Engine(message) => localized_with(t, "stage-ui-error.engine"@, "message"@, message@),
        ScriptExecutionError::UnsupportedLanguage(language) => localized_with(
            t,
            "stage-ui-error.unsupported-language"@,
            "language"@,
            language@,
        ),
        ScriptExecutionError::InvalidCommand(message) => match t {
            ErrorText::Literal(m) => m@ == message@,
            ErrorText::Localized { .. } => false,
        },
    }
}

/// How the error `e` is shown to the player.
pub fn script_error_text(e: &ScriptExecutionError) -> (r: ErrorText)
    ensures
        spec_error_text_is(*e, r),
{
    match e {
        ScriptExecutionError::EmptyScript => ErrorText::Localized { key: "stage-ui-error-empty-script", arg: None },
        ScriptExecutionError::InvalidMoveDirection { direction } => ErrorText::Localized {
            key: "stage-ui-error.invalid-move-direction",
            arg: Some(("direction", direction.clone())),
        },
        ScriptExecutionError::InvalidSleepDuration => ErrorText::Localized {
            key: "stage-ui-error-invalid-sleep-duration",
            arg: None,
        },
        ScriptExecutionError::Engine(message) => ErrorText::Localized {
            key: "stage-ui-error.engine",
            arg: Some(("message", message.clone())),
        },
        ScriptExecutionError::UnsupportedLanguage(language) => ErrorText::Localized {
            key: "stage-ui-error.unsupported-language",
            arg: Some(("language", language.clone())),
        },
        ScriptExecutionError::InvalidCommand(message) => ErrorText::Literal(message.clone()),
    }
}

/// The first position of `x` in `list`.
pub open spec fn first_position(list: Seq<String>, x: Seq<char>) -> Option<int>
    decreases list.len(),
{
    if list.len() == 0 {
        None
    } else {
        match first_position(list.drop_last(), x) {
            Some(i) => Some(i),
            None => if list.last()@ == x {
                Some(list.len() - 1)
            } else {
                None
            },
        }
    }
}

/// The positions in `available` of the locales of `chain` that are
/// available, in the order of the chain.
pub open spec fn spec_locale_positions(chain: Seq<String>, available: Seq<String>) -> Seq<usize>
    decreases chain.len(),
{
    if chain.len() == 0 {
        Seq::<usize>::empty()
    } else {
        let init = spec_locale_positions(chain.drop_last(), available);
        match first_position(available, chain.last()@) {
            Some(i) => init.push(i as usize),
            None => init,
        }
    }
}

fn position_in(list: &Vec<String>, x: &str) -> (r: Option<usize>)
    ensures
        match first_position(list@, x@) {
            Some(i) => r == Some(i as usize),
            None => r is None,
        },
{
    let mut i: usize = 0;
    while i < list.len()
        invariant
            i <= list@.len(),
            first_position(list@.take(i as int), x@) is None,
        decreases list@.len() - i,
    {
        proof {
            assert(list@.take(i + 1).drop_last() =~= list@.take(i as int));
        }
        if crate::text::str_eq(list[i].as_str(), x) {
            proof {
                lemma_first_position_prefix(list@, (i + 1) as int, x@);
            }
            return Some(i);
        }
        i += 1;
    }
    proof {
        assert(list@.take(list@.len() as int) =~= list@);
    }
    None
}

proof fn lemma_first_position_prefix(list: Seq<String>, n: int, x: Seq<char>)
    requires
        0 <= n <= list.len(),
        first_position(list.take(n), x) is Some,
    ensures
        first_position(list, x) == first_position(list.take(n), x),
    decreases list.len() - n,
{
    if n < list.len() {
        assert(list.take(n + 1).drop_last() =~= list.take(n));
        lemma_first_position_prefix(list, n + 1, x);
    } else {
        assert(list.take(n) =~= list);
    }
}

/// The order in which the message bundles are consulted: for each locale of
/// the fallback chain that is available, its position among the available
/// bundles.
pub fn locale_order(chain: &Vec<String>, available: &Vec<String>) -> (r: Vec<usize>)
    ensures
        r@ == spec_locale_positions(chain@, available@),
{
    let mut out: Vec<usize> = Vec::new();
    let mut i: usize = 0;
    while i < chain.len()
        invariant
            i <= chain@.len(),
            out@ == spec_locale_positions(chain@.take(i as int), available@),
        decreases chain@.len() - i,
    {
        proof {
            assert(chain@.take(i + 1).drop_last() =~= chain@.take(i as int));
        }
        match position_in(available, chain[i].as_str()) {
            Some(p) => out.push(p),
            None => {},
        }
        i += 1;
    }
    proof {
        assert(chain@.take(chain@.len() as int) =~= chain@);
    }
    out
}

/// A message found in the catalog, or `fallback` when none was found.
pub open spec fn found_or(found: Option<String>, fallback: Seq<char>) -> Seq<char> {
    match found {
        Some(s) => s@,
        None => fallback,
    }
}

/// Whether `r` is what the catalog `lookup` gives for a request that reads
/// `request`, or `fallback` when it gives nothing.
pub open spec fn looked_up<F: Fn(&str) -> Option<String>>(
    lookup: F,
    request: Seq<char>,
    fallback: Seq<char>,
    r: Seq<char>,
) -> bool {
    exists|k: &str, found: Option<String>|
        k@ == request && #[trigger] call_ensures(lookup, (k,), found) && r == found_or(found, fallback)
}

/// The message stored under `key`; the key itself when there is none.
pub fn tr<F: Fn(&str) -> Option<String>>(lookup: &F, key: &str) -> (r: String)
    requires
        forall|k: &str| call_requires(*lookup, (k,)),
    ensures
        looked_up(*lookup, key@, key@, r@),
{
    let found = lookup(key);
    let ghost witness = found;
    let r = match found {
        Some(s) => s,
        None => key.to_owned(),
    };
    assert(call_ensures(*lookup, (key,), witness) && r@ == found_or(witness, key@));
    r
}

/// The message stored under `key`; `fallback` when there is none.
pub fn tr_or<F: Fn(&str) -> Option<String>>(lookup: &F, key: &str, fallback: &str) -> (r: String)
    requires
        forall|k: &str| call_requires(*lookup, (k,)),
    ensures
        looked_up(*lookup, key@, fallback@, r@),
{
    let found = lookup(key);
    let ghost witness = found;
    let r = match found {
        Some(s) => s,
        None => fallback.to_owned(),
    };
    assert(call_ensures(*lookup, (key,), witness) && r@ == found_or(witness, fallback@));
    r
}

/// The message stored under `key`, filled in with `args`; the key itself
/// when there is none.
pub fn tr_with_args<F: Fn(&str) -> Option<String>>(lookup: &F, key: &str, args: &[(&str, &str)]) -> (r: String)
    requires
        forall|k: &str| call_requires(*lookup, (k,)),
    ensures
        looked_up(*lookup, spec_request(key@, arg_views(args@)), key@, r@),
{
    if args.len() == 0 {
        return tr(lookup, key);
    }
    let request = message_request(key, args);
    let asked: &str = request.as_str();
    let found = lookup(asked);
    let ghost witness = found;
    let r = match found {
        Some(s) => s,
        None => key.to_owned(),
    };
    assert(call_ensures(*lookup, (asked,), witness) && r@ == found_or(witness, key@));
    r
}

/// The localized name of a stage; `fallback` when the catalog has none.
pub fn localized_stage_name<F: Fn(&str) -> Option<String>>(lookup: &F, stage_id: StageId, fallback: &str) -> (r: String)
    requires
        forall|k: &str| call_requires(*lookup, (k,)),
    ensures
        looked_up(*lookup, "stage-name-"@ + decimal_digits(stage_id.0 as nat), fallback@, r@),
{
    let key = stage_name_key(stage_id);
    tr_or(lookup, key.as_str(), fallback)
}

/// What is looked up in the catalog to show the error `e`, and what stands in
/// when nothing is found; `None` when the error is shown as it is.
pub open spec fn spec_error_lookup(e: ScriptExecutionError) -> Option<(Seq<char>, Seq<char>)> {
    match e {
        ScriptExecutionError::EmptyScript => Some(("stage-ui-error-empty-script"@, "stage-ui-error-empty-script"@)),
        ScriptExecutionError::InvalidMoveDirection { direction } => Some((
            spec_request("stage-ui-error.invalid-move-direction"@, seq![("direction"@, direction@)]),
            "stage-ui-error.invalid-move-direction"@,
        )),
        ScriptExecutionError::InvalidSleepDuration => Some((
            "stage-ui-error-invalid-sleep-duration"@,
            "stage-ui-error-invalid-sleep-duration"@,
        )),
        ScriptExecutionError::Engine(message) => Some((
            spec_request("stage-ui-error.engine"@, seq![("message"@, message@)]),
            "stage-ui-error.engine"@,
        )),
        ScriptExecutionError::UnsupportedLanguage(language) => Some((
            spec_request("stage-ui-error.unsupported-language"@, seq![("language"@, language@)]),
            "stage-ui-error.unsupported-language"@,
        )),
        ScriptExecutionError::InvalidCommand(_) => None,
    }
}

/// The text shown to the player for the error `e`.
pub fn script_error_message<F: Fn(&str) -> Option<String>>(lookup: &F, e: &ScriptExecutionError) -> (r: String)
    requires
        forall|k: &str| call_requires(*lookup, (k,)),
    ensures
        match spec_error_lookup(*e) {
            Some((request, fallback)) => looked_up(*lookup, request, fallback, r@),
            None => *e matches ScriptExecutionError::InvalidCommand(m) && r@ == m@,
        },
{
    match script_error_text(e) {
        ErrorText::Localized { key, arg } => match arg {
            None => tr(lookup, key),
            Some((name, value)) => {
                let args: [(&str, &str); 1] = [(name, value.as_str())];
                let r = tr_with_args(lookup, key, &args);
                proof {
                    assert(arg_views(args@) =~= seq![(name@, value@)]);
                }
                r
            },
        },
        ErrorText::Literal(m) => m,
    }
}

} // verus!
