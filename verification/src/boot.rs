use vstd::prelude::*;

use crate::assets::GameState;
use crate::launch_profile::LaunchProfile;
use crate::stage::{first_stage_at, has_stage, meta_view, StageCatalog, StageId, StageProgressionState};
use crate::text::str_eq;

verus! {

/// How long the boot screen shows the logo, in milliseconds.
pub const BOOT_LOGO_MILLIS: u64 = 2400;

/// How long the boot screen stays: the logo is shown for an ordinary start
/// of a native build, and skipped when asked to, when a stage was named on
/// the command line, or in a web build.
pub fn boot_delay_millis(profile: &LaunchProfile, web_build: bool) -> (r: u64)
    ensures
        r == if !profile.skip_boot && profile.stage_id is None && !web_build {
            BOOT_LOGO_MILLIS
        } else {
            0
        },
{
    if !profile.skip_boot && profile.stage_id.is_none() && !web_build {
        BOOT_LOGO_MILLIS
    } else {
        0
    }
}

/// Whether boot is over: the logo's time is up, the assets have loaded and
/// the messages can be shown.
pub fn boot_ready(timer_finished: bool, assets_loaded: bool, localization_ready: bool) -> (r: bool)
    ensures
        r == (timer_finished && assets_loaded && localization_ready),
{
    timer_finished && assets_loaded && localization_ready
}

/// Where the game goes after boot: straight into the stage named on the
/// command line when the catalog has it, else to the stage select screen.
pub fn finish_boot(
    progression: &mut StageProgressionState,
    stage_id: Option<StageId>,
    stage_catalog: &StageCatalog,
) -> (r: GameState)
    ensures
        match stage_id {
            Some(id) => if has_stage(stage_catalog.stages@, id.0) {
                &&& r == GameState::Stage
                &&& final(progression).reload_pending()
                &&& exists|i: int|
                    first_stage_at(stage_catalog.stages@, id.0, i) && final(progression).current()
                        == Some(meta_view(stage_catalog.stages@[i]))
            } else {
                &&& r == GameState::SelectStage
                &&& final(progression).current() == old(progression).current()
                &&& final(progression).reload_pending() == old(progression).reload_pending()
            },
            None => {
                &&& r == GameState::SelectStage
                &&& final(progression).current() == old(progression).current()
                &&& final(progression).reload_pending() == old(progression).reload_pending()
            },
        },
{
    match stage_id {
        Some(id) => match stage_catalog.stage_by_id(id) {
            Some(stage) => {
                progression.select_stage(stage);
                GameState::Stage
            },
            None => GameState::SelectStage,
        },
        None => GameState::SelectStage,
    }
}

/// Whether the editor's fonts can be set up for `locale`: the default font
/// must have loaded, and for simplified Chinese the Chinese font too.
pub fn font_setup_ready(locale: &str, has_chinese_font: bool, has_default_font: bool) -> (r: bool)
    ensures
        r == (!(locale@ == "zh-Hans"@ && !has_chinese_font) && has_default_font),
{
    if str_eq(locale, "zh-Hans") && !has_chinese_font {
        return false;
    }
    has_default_font
}

} // verus!
