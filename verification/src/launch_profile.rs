use vstd::prelude::*;

use crate::stage::StageId;
use crate::text::{parse_usize, spec_parse_usize, spec_strip_prefix, str_eq, strip_prefix};

verus! {

/// What the game starts into.
#[derive(Debug, Clone, Copy, PartialEq, Eq, Structural)]
pub enum LaunchType {
    Normal,
    ShowChunkGrammarAsciiMap,
    SteamAppInfo,
}

impl Default for LaunchType {
    /// An ordinary start.
    fn default() -> (r: LaunchType)
        ensures
            r == LaunchType::Normal,
    {
        LaunchType::Normal
    }
}

/// How the game was asked to start, read from its command line.
#[derive(Debug)]
pub struct LaunchProfile {
    pub changed: bool,
    pub launch_type: LaunchType,
    pub skip_boot: bool,
    pub skip_title: bool,
    pub render_physics: bool,
    pub stage_id: Option<StageId>,
    pub ci_smoke_requested: bool,
    /// Where an opt-in, machine-readable launch check for CI writes its
    /// report. It never turns itself on for ordinary starts.
    pub ci_smoke_report: Option<String>,
}

/// A launch profile as plain values.
pub struct ProfileModel {
    pub changed: bool,
    pub launch_type: LaunchType,
    pub skip_boot: bool,
    pub skip_title: bool,
    pub render_physics: bool,
    pub stage_id: Option<usize>,
    pub ci_smoke_requested: bool,
    pub ci_smoke_report: Option<Seq<char>>,
}

pub open spec fn profile_model(p: LaunchProfile) -> ProfileModel {
    ProfileModel {
        changed: p.changed,
        launch_type: p.launch_type,
        skip_boot: p.skip_boot,
        skip_title: p.skip_title,
        render_physics: p.render_physics,
        stage_id: match p.stage_id {
            Some(id) => Some(id.0),
            None => None,
        },
        ci_smoke_requested: p.ci_smoke_requested,
        ci_smoke_report: match p.ci_smoke_report {
            Some(s) => Some(s@),
            None => None,
        },
    }
}

/// The profile of an ordinary start.
pub open spec fn default_model() -> ProfileModel {
    ProfileModel {
        changed: false,
        launch_type: LaunchType::Normal,
        skip_boot: false,
        skip_title: false,
        render_physics: false,
        stage_id: None,
        ci_smoke_requested: false,
        ci_smoke_report: None,
    }
}

/// What the argument at `index` does to the profile `m`, and where reading
/// goes on. A flag that takes a value takes the next argument with it.
pub open spec fn launch_step(args: Seq<Seq<char>>, index: int, m: ProfileModel) -> (ProfileModel, int) {
    let arg = args[index];
    if arg == "--show-chunk-grammar-ascii-map"@ {
        (ProfileModel { launch_type: LaunchType::ShowChunkGrammarAsciiMap, changed: true, ..m }, index + 1)
    } else if arg == "--steam-app-info"@ {
        (ProfileModel { launch_type: LaunchType::SteamAppInfo, changed: true, ..m }, index + 1)
    } else if arg == "--skip-boot"@ {
        (ProfileModel { skip_boot: true, changed: true, ..m }, index + 1)
    } else if arg == "--skip-title"@ {
        (ProfileModel { skip_title: true, changed: true, ..m }, index + 1)
    } else if arg == "--render-physics"@ {
        (ProfileModel { render_physics: true, changed: true, ..m }, index + 1)
    } else if arg == "--ci-smoke"@ {
        (ProfileModel { ci_smoke_requested: true, changed: true, ..m }, index + 1)
    } else if arg == "--ci-smoke-report"@ {
        if index + 1 < args.len() {
            (ProfileModel { ci_smoke_report: Some(args[index + 1]), changed: true, ..m }, index + 2)
        } else {
            (m, index + 1)
        }
    } else if spec_strip_prefix(arg, "--ci-smoke-report="@) is Some {
        let path = spec_strip_prefix(arg, "--ci-smoke-report="@)->0;
        if path.len() == 0 {
            (m, index + 1)
        } else {
            (ProfileModel { ci_smoke_report: Some(path), changed: true, ..m }, index + 1)
        }
    } else if arg == "--debug"@ {
        (
            ProfileModel {
                skip_boot: true,
                skip_title: true,
                render_physics: true,
                changed: true,
                ..m
            },
            index + 1,
        )
    } else if spec_strip_prefix(arg, "--stage-id="@) is Some {
        match spec_parse_usize(spec_strip_prefix(arg, "--stage-id="@)->0) {
            Some(id) => (ProfileModel { stage_id: Some(id as usize), changed: true, ..m }, index + 1),
            None => (m, index + 1),
        }
    } else if arg == "--stage-id"@ {
        if index + 1 < args.len() {
            match spec_parse_usize(args[index + 1]) {
                Some(id) => (ProfileModel { stage_id: Some(id as usize), changed: true, ..m }, index + 2),
                None => (m, index + 2),
            }
        } else {
            (m, index + 1)
        }
    } else {
        (m, index + 1)
    }
}

/// The profile after reading the arguments from `index` on.
pub open spec fn launch_run(args: Seq<Seq<char>>, index: int, m: ProfileModel) -> ProfileModel
    decreases args.len() - index,
{
    if index < 0 || index >= args.len() {
        m
    } else {
        let (next, at) = launch_step(args, index, m);
        if at <= index {
            next
        } else {
            launch_run(args, at, next)
        }
    }
}

pub open spec fn arg_views(args: Seq<String>) -> Seq<Seq<char>> {
    args.map_values(|s: String| s@)
}

/// The profile a command line asks for; the first argument names the program.
pub open spec fn spec_from_args(args: Seq<Seq<char>>) -> ProfileModel {
    if args.len() <= 1 {
        default_model()
    } else {
        launch_run(args, 1, default_model())
    }
}

/// How many arguments the one at `i` takes up: a flag that takes a value
/// takes the next argument with it, when there is one.
pub open spec fn arg_width(args: Seq<Seq<char>>, i: int) -> int {
    if (args[i] == "--ci-smoke-report"@ || args[i] == "--stage-id"@) && i + 1 < args.len() {
        2
    } else {
        1
    }
}

/// Whether reading the arguments from `from` on comes to the argument at
/// `i` as an argument of its own (not as the value of a flag before it).
pub open spec fn reached_from(args: Seq<Seq<char>>, from: int, i: int) -> bool
    decreases args.len() - from,
{
    if from < 0 || from >= args.len() {
        false
    } else if from == i {
        true
    } else {
        reached_from(args, from + arg_width(args, from), i)
    }
}

/// The on-off switches of a profile: 0 skips the boot scene, 1 the title,
/// 2 draws the physics shapes, 3 asks for the CI launch check.
pub open spec fn switch_of(m: ProfileModel, which: int) -> bool {
    if which == 0 {
        m.skip_boot
    } else if which == 1 {
        m.skip_title
    } else if which == 2 {
        m.render_physics
    } else {
        m.ci_smoke_requested
    }
}

/// The argument that turns each switch on.
pub open spec fn switch_arg(which: int) -> Seq<char> {
    if which == 0 {
        "--skip-boot"@
    } else if which == 1 {
        "--skip-title"@
    } else if which == 2 {
        "--render-physics"@
    } else {
        "--ci-smoke"@
    }
}

/// Reading one argument moves on by as many arguments as it takes up.
proof fn lemma_step_width(args: Seq<Seq<char>>, i: int, m: ProfileModel)
    requires
        0 <= i < args.len(),
    ensures
        launch_step(args, i, m).1 == i + arg_width(args, i),
{
    reveal_strlit("--show-chunk-grammar-ascii-map");
    reveal_strlit("--steam-app-info");
    reveal_strlit("--skip-boot");
    reveal_strlit("--skip-title");
    reveal_strlit("--render-physics");
    reveal_strlit("--ci-smoke");
    reveal_strlit("--ci-smoke-report");
    reveal_strlit("--ci-smoke-report=");
    reveal_strlit("--debug");
    reveal_strlit("--stage-id=");
    reveal_strlit("--stage-id");
    let a = args[i];
    if a == "--stage-id"@ {
        assert("--stage-id"@[2] != "--ci-smoke"@[2]);
        assert(spec_strip_prefix(a, "--ci-smoke-report="@) is None);
        assert(spec_strip_prefix(a, "--stage-id="@) is None);
    }
    if a == "--ci-smoke-report"@ {
        assert(spec_strip_prefix(a, "--ci-smoke-report="@) is None);
    }
}

/// Once a switch is on, reading more arguments leaves it on.
proof fn lemma_switch_stays_on(args: Seq<Seq<char>>, from: int, m: ProfileModel, which: int)
    requires
        switch_of(m, which),
    ensures
        switch_of(launch_run(args, from, m), which),
    decreases args.len() - from,
{
    if 0 <= from < args.len() {
        let (next, at) = launch_step(args, from, m);
        assert(switch_of(next, which));
        if at > from {
            lemma_switch_stays_on(args, at, next, which);
        }
    }
}

proof fn lemma_switch_read(args: Seq<Seq<char>>, from: int, i: int, m: ProfileModel, which: int)
    requires
        reached_from(args, from, i),
        0 <= which <= 3,
        args[i] == switch_arg(which) || (which <= 2 && args[i] == "--debug"@),
    ensures
        switch_of(launch_run(args, from, m), which),
    decreases args.len() - from,
{
    reveal_strlit("--show-chunk-grammar-ascii-map");
    reveal_strlit("--steam-app-info");
    reveal_strlit("--skip-boot");
    reveal_strlit("--skip-title");
    reveal_strlit("--render-physics");
    reveal_strlit("--ci-smoke");
    reveal_strlit("--ci-smoke-report");
    reveal_strlit("--ci-smoke-report=");
    reveal_strlit("--debug");
    lemma_step_width(args, from, m);
    let (next, at) = launch_step(args, from, m);
    if from == i {
        let a = args[i];
        assert("--render-physics"@[2] != "--steam-app-info"@[2]);
        assert(spec_strip_prefix(a, "--ci-smoke-report="@) is None);
        if which == 0 {
            assert(switch_of(next, which));
        } else if which == 1 {
            assert(switch_of(next, which));
        } else if which == 2 {
            assert(switch_of(next, which));
        } else {
            assert(switch_of(next, which));
        }
        lemma_switch_stays_on(args, at, next, which);
    } else {
        lemma_switch_read(args, at, i, next, which);
    }
}

/// Every switch given on the command line is on in the profile: when
/// reading the arguments after the program name comes to `--skip-boot`,
/// `--skip-title`, `--render-physics` or `--ci-smoke` as an argument of its
/// own, that switch is on, whatever else the command line holds; `--debug`
/// turns the first three on.
pub proof fn lemma_switches_given_are_on(args: Seq<Seq<char>>, i: int, which: int)
    requires
        reached_from(args, 1, i),
        0 <= which <= 3,
        args[i] == switch_arg(which) || (which <= 2 && args[i] == "--debug"@),
    ensures
        switch_of(spec_from_args(args), which),
{
    lemma_switch_read(args, 1, i, default_model(), which);
}

impl Default for LaunchProfile {
    /// An ordinary start.
    fn default() -> (r: LaunchProfile)
        ensures
            profile_model(r) == default_model(),
    {
        LaunchProfile {
            changed: false,
            launch_type: LaunchType::Normal,
            skip_boot: false,
            skip_title: false,
            render_physics: false,
            stage_id: None,
            ci_smoke_requested: false,
            ci_smoke_report: None,
        }
    }
}

impl LaunchProfile {
    /// Reads the command line; the first argument names the program.
    pub fn from_args(args: &[String]) -> (r: LaunchProfile)
        ensures
            profile_model(r) == spec_from_args(arg_views(args@)),
    {
        let ghost views = arg_views(args@);
        if args.len() <= 1 {
            return LaunchProfile::default();
        }
        let mut p = LaunchProfile::default();
        let mut index: usize = 1;
        while index < args.len()
            invariant
                views == arg_views(args@),
                1 <= index <= args@.len() + 1,
                launch_run(views, index as int, profile_model(p)) == launch_run(views, 1, default_model()),
            decreases args@.len() - index,
        {
            let ghost before = profile_model(p);
            let ghost at = index as int;
            let arg = args[index].as_str();
            assert(arg@ == views[at]);
            if str_eq(arg, "--show-chunk-grammar-ascii-map") {
                p.launch_type = LaunchType::ShowChunkGrammarAsciiMap;
                p.changed = true;
            } else if str_eq(arg, "--steam-app-info") {
                p.launch_type = LaunchType::SteamAppInfo;
                p.changed = true;
            } else if str_eq(arg, "--skip-boot") {
                p.skip_boot = true;
                p.changed = true;
            } else if str_eq(arg, "--skip-title") {
                p.skip_title = true;
                p.changed = true;
            } else if str_eq(arg, "--render-physics") {
                p.render_physics = true;
                p.changed = true;
            } else if str_eq(arg, "--ci-smoke") {
                p.ci_smoke_requested = true;
                p.changed = true;
            } else if str_eq(arg, "--ci-smoke-report") {
                if index + 1 < args.len() {
                    let path = args[index + 1].clone();
                    assert(path@ == views[at + 1]);
                    p.ci_smoke_report = Some(path);
                    p.changed = true;
                    index += 1;
                }
            } else if let Some(path) = strip_prefix(arg, "--ci-smoke-report=") {
                if path.unicode_len() > 0 {
                    p.ci_smoke_report = Some(path);
                    p.changed = true;
                }
            } else if str_eq(arg, "--debug") {
                p.skip_boot = true;
                p.skip_title = true;
                p.render_physics = true;
                p.changed = true;
            } else if let Some(value) = strip_prefix(arg, "--stage-id=") {
                match parse_usize(value.as_str()) {
                    Some(id) => {
                        p.stage_id = Some(StageId(id));
                        p.changed = true;
                    },
                    None => {},
                }
            } else if str_eq(arg, "--stage-id") {
                if index + 1 < args.len() {
                    let value = args[index + 1].as_str();
                    assert(value@ == views[at + 1]);
                    match parse_usize(value) {
                        Some(id) => {
                            p.stage_id = Some(StageId(id));
                            p.changed = true;
                        },
                        None => {},
                    }
                    index += 1;
                }
            }
            index += 1;
            proof {
                let (next, nat_at) = launch_step(views, at, before);
                assert(profile_model(p) == next);
                assert(index as int == nat_at);
            }
        }
        p
    }

    /// Whether the CI launch check runs: it must be asked for and have a
    /// report path.
    pub fn ci_smoke_enabled(&self) -> (r: bool)
        ensures
            r == (self.ci_smoke_requested && self.ci_smoke_report is Some),
    {
        self.ci_smoke_requested && self.ci_smoke_report.is_some()
    }
}

} // verus!
