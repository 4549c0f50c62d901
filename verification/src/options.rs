use vstd::prelude::*;

use crate::script_engine::Language;
use crate::text::{push_char, str_eq};

verus! {

/// Whether the options overlay is open.
pub struct OptionsOverlayState {
    pub open: bool,
}

impl OptionsOverlayState {
    /// A closed overlay.
    pub fn new() -> (r: OptionsOverlayState)
        ensures
            !r.open,
    {
        OptionsOverlayState { open: false }
    }

    /// Escape closes an open overlay.
    pub fn handle_escape(&mut self, escape_pressed: bool)
        ensures
            final(self).open == (old(self).open && !escape_pressed),
    {
        if self.open && escape_pressed {
            self.open = false;
        }
    }
}

/// The script languages offered, each with the key of its label.
pub fn language_options() -> (r: Vec<(Language, &'static str)>)
    ensures
        r@.len() == 2,
        r@[0].0 == Language::Rhai && r@[0].1@ == "options-language-rhai"@,
        r@[1].0 == Language::Keystone && r@[1].1@ == "options-language-keystone"@,
{
    let mut v: Vec<(Language, &'static str)> = Vec::new();
    v.push((Language::Rhai, "options-language-rhai"));
    v.push((Language::Keystone, "options-language-keystone"));
    v
}

/// The locales offered, each with the key of its label.
pub fn locale_options() -> (r: Vec<(&'static str, &'static str)>)
    ensures
        r@.len() == 3,
        r@[0].0@ == "en-US"@ && r@[0].1@ == "options-locale-en"@,
        r@[1].0@ == "ja-JP"@ && r@[1].1@ == "options-locale-ja"@,
        r@[2].0@ == "zh-Hans"@ && r@[2].1@ == "options-locale-zh"@,
{
    let mut v: Vec<(&'static str, &'static str)> = Vec::new();
    v.push(("en-US", "options-locale-en"));
    v.push(("ja-JP", "options-locale-ja"));
    v.push(("zh-Hans", "options-locale-zh"));
    v
}

/// The key of the fullscreen switch's label for its current setting.
pub fn fullscreen_label_key(fullscreen: bool) -> (r: &'static str)
    ensures
        r@ == if fullscreen {
            "options-fullscreen-on"@
        } else {
            "options-fullscreen-off"@
        },
{
    if fullscreen {
        "options-fullscreen-on"
    } else {
        "options-fullscreen-off"
    }
}

/// Where the first `.` of `v` stands, or its length when there is none.
pub open spec fn dot_index(v: Seq<char>) -> int
    decreases v.len(),
{
    if v.len() == 0 {
        0
    } else if v[0] == '.' {
        0
    } else {
        1 + dot_index(v.drop_first())
    }
}

/// A locale setting read as a locale name: what comes before an encoding
/// suffix such as `.UTF-8`, with `_` read as `-` (`ja_JP.UTF-8` is `ja-JP`).
pub open spec fn locale_name(v: Seq<char>) -> Seq<char> {
    v.take(dot_index(v)).map_values(|c: char| if c == '_' { '-' } else { c })
}

/// Whether the game ships the locale `n`.
pub open spec fn is_shipped_locale(n: Seq<char>) -> bool {
    n == "en-US"@ || n == "ja-JP"@ || n == "zh-Hans"@
}

/// The shipped locale a setting names, if it names one.
pub open spec fn shipped_locale_of(v: Option<Seq<char>>) -> Option<Seq<char>> {
    match v {
        Some(s) => if is_shipped_locale(locale_name(s)) {
            Some(locale_name(s))
        } else {
            None
        },
        None => None,
    }
}

/// The locale the game starts in: the player's saved choice, else the
/// locale the store sets (`ITCHIO_OFFICIAL_LOCALE`), else the system's
/// (`LANG`), each only when it names a shipped locale; else `en-US`.
pub open spec fn spec_initial_locale(
    saved: Option<Seq<char>>,
    store: Option<Seq<char>>,
    system: Option<Seq<char>>,
) -> Seq<char> {
    match shipped_locale_of(saved) {
        Some(n) => n,
        None => match shipped_locale_of(store) {
            Some(n) => n,
            None => match shipped_locale_of(system) {
                Some(n) => n,
                None => "en-US"@,
            },
        },
    }
}

proof fn lemma_dot_index_bounds(v: Seq<char>)
    ensures
        0 <= dot_index(v) <= v.len(),
        dot_index(v) < v.len() ==> v[dot_index(v)] == '.',
        forall|k: int| 0 <= k < dot_index(v) ==> v[k] != '.',
    decreases v.len(),
{
    if v.len() > 0 && v[0] != '.' {
        lemma_dot_index_bounds(v.drop_first());
        assert forall|k: int| 0 <= k < dot_index(v) implies v[k] != '.' by {
            if k > 0 {
                assert(v[k] == v.drop_first()[k - 1]);
            }
        }
    }
}

/// The locale name a setting gives.
fn read_locale_name(v: &str) -> (r: String)
    ensures
        r@ == locale_name(v@),
{
    proof {
        lemma_dot_index_bounds(v@);
    }
    let n = v.unicode_len();
    let ghost stop = dot_index(v@);
    let mut out = String::new();
    let mut i: usize = 0;
    while i < n
        invariant
            n == v@.len(),
            i <= stop,
            0 <= stop <= n,
            stop < n ==> v@[stop] == '.',
            forall|k: int| 0 <= k < stop ==> v@[k] != '.',
            out@ == v@.take(i as int).map_values(|c: char| if c == '_' { '-' } else { c }),
        ensures
            i == stop,
            out@ == v@.take(i as int).map_values(|c: char| if c == '_' { '-' } else { c }),
        decreases n - i,
    {
        let c = v.get_char(i);
        if c == '.' {
            break;
        }
        let d = if c == '_' { '-' } else { c };
        push_char(&mut out, d);
        proof {
            assert(v@.take(i + 1) =~= v@.take(i as int).push(c));
            assert(out@ =~= v@.take(i + 1).map_values(|c: char| if c == '_' { '-' } else { c }));
        }
        i += 1;
    }
    out
}

/// The shipped locale a setting names, if it names one.
fn shipped_locale(v: Option<&str>) -> (r: Option<String>)
    ensures
        match v {
            Some(s) => match r {
                Some(n) => shipped_locale_of(Some(s@)) == Some(n@),
                None => shipped_locale_of(Some(s@)) is None,
            },
            None => r is None,
        },
{
    match v {
        None => None,
        Some(s) => {
            let n = read_locale_name(s);
            if str_eq(n.as_str(), "en-US") || str_eq(n.as_str(), "ja-JP") || str_eq(n.as_str(), "zh-Hans") {
                Some(n)
            } else {
                None
            }
        },
    }
}

pub open spec fn opt_view(v: Option<&str>) -> Option<Seq<char>> {
    match v {
        Some(s) => Some(s@),
        None => None,
    }
}

/// The locale the game starts in, from the saved choice, the store's
/// locale setting and the system's, in that order; `en-US` when none of
/// them names a shipped locale.
pub fn initial_locale(saved: Option<&str>, store: Option<&str>, system: Option<&str>) -> (r: String)
    ensures
        r@ == spec_initial_locale(opt_view(saved), opt_view(store), opt_view(system)),
{
    if let Some(n) = shipped_locale(saved) {
        return n;
    }
    if let Some(n) = shipped_locale(store) {
        return n;
    }
    if let Some(n) = shipped_locale(system) {
        return n;
    }
    "en-US".to_owned()
}

} // verus!
