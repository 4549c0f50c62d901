use keystone_cc::assets::{
    default_group, player_idle_keys, player_run_keys, shows_window_on, AudioKey, FontKey,
    GameState, ImageKey, VisibilityState,
};
use keystone_cc::boot::{boot_delay_millis, boot_ready, finish_boot, font_setup_ready};
use keystone_cc::character::{
    animation_active, desired_animation, obstacle_loop_frames, obstacle_vanish_frames, should_jump,
    walk_direction, ObstacleFrame, ObstacleState, PlayerAnimationState, PlayerAnimator,
};
use keystone_cc::launch_profile::LaunchProfile;
use keystone_cc::script_types::{MoveDirection, ScriptCommand};
use keystone_cc::stage::{StageCatalog, StageId, StageMeta, StageProgressionState};
use keystone_cc::stone_control::{
    needs_probe, plan_action, PauseLength, RayProbe, StoneActionKind, StoneActionPlan,
    StoneCommandState, MOVE_SETTLE_SLEEP_BITS,
};
use keystone_cc::stone_type::{StoneCapabilities, StoneType};
use keystone_cc::tiles::background_tile_id;

#[test]
fn asset_numbers() {
    assert_eq!(u32::from(ImageKey::Logo), 0);
    assert_eq!(u32::from(ImageKey::PlayerIdle1), 2);
    assert_eq!(u32::from(ImageKey::PlayerRun10), 15);
    assert_eq!(u32::from(FontKey::Title), 1);
    assert_eq!(u32::from(AudioKey::Bgm), 1);
    assert_eq!(player_idle_keys().len(), 4);
    assert_eq!(player_run_keys()[9], ImageKey::PlayerRun10);
    let group = default_group();
    assert_eq!(group.group, "default");
    assert_eq!(group.images.len(), 15);
    assert_eq!(group.images[1], (2, "images/SPA/Player/Iddle/1.png"));
    assert_eq!(group.fonts[1], (1, "fonts/Quicky Story.ttf"));
    assert_eq!(VisibilityState::default(), VisibilityState::Hidden);
    assert_eq!(GameState::default(), GameState::Boot);
    assert!(shows_window_on(3) && !shows_window_on(2));
}

#[test]
fn stone_capabilities_per_kind() {
    let caps = StoneCapabilities::new();
    assert_eq!(caps.get_capabilities(StoneType::Type1).unwrap(), &vec!["move".to_string(), "sleep".to_string()]);
    assert!(caps.get_capabilities(StoneType::Type3).unwrap().contains(&"dig".to_string()));
    assert!(!caps.get_capabilities(StoneType::Type2).unwrap().contains(&"sleep".to_string()));
    assert!(caps.get_capabilities(StoneType::Type4).is_none());
    assert_eq!(StoneType::default(), StoneType::Type1);
}

#[test]
fn boot_decisions() {
    let args = vec!["keystone-cc".to_string()];
    let normal = LaunchProfile::from_args(&args);
    assert_eq!(boot_delay_millis(&normal, false), 2400);
    assert_eq!(boot_delay_millis(&normal, true), 0);
    let skip = LaunchProfile::from_args(&vec!["keystone-cc".to_string(), "--stage-id=2".to_string()]);
    assert_eq!(boot_delay_millis(&skip, false), 0);
    assert!(boot_ready(true, true, true) && !boot_ready(true, false, true));
    let catalog = StageCatalog::new(vec![StageMeta { id: StageId(2), title: "Stage 2".to_string(), unlocked: true }]);
    let mut progression = StageProgressionState::new();
    assert_eq!(finish_boot(&mut progression, Some(StageId(9)), &catalog), GameState::SelectStage);
    assert_eq!(finish_boot(&mut progression, None, &catalog), GameState::SelectStage);
    assert_eq!(finish_boot(&mut progression, Some(StageId(2)), &catalog), GameState::Stage);
    assert_eq!(progression.current_stage_id(), StageId(2));
    assert!(!font_setup_ready("zh-Hans", false, true));
    assert!(font_setup_ready("ja-JP", false, true));
    assert!(!font_setup_ready("en-US", true, false));
}

#[test]
fn stone_runs_commands_in_order() {
    let mut stone = StoneCommandState::new();
    assert!(!stone.is_busy());
    stone.append_command(ScriptCommand::Move(MoveDirection::Left));
    stone.append_command(ScriptCommand::Dig(MoveDirection::Down));
    assert!(stone.is_busy());
    let first = stone.take_next_command().unwrap();
    assert_eq!(first, ScriptCommand::Move(MoveDirection::Left));
    stone.start_action(plan_action(first, RayProbe::Nothing));
    assert!(stone.is_moving());
    assert_eq!(stone.take_next_command(), None);
    stone.finish_action();
    assert_eq!(stone.take_next_command(), None);
    stone.set_cooldown_finished(true);
    assert_eq!(stone.take_next_command(), Some(ScriptCommand::Sleep(MOVE_SETTLE_SLEEP_BITS)));
    assert_eq!(stone.take_next_command(), Some(ScriptCommand::Dig(MoveDirection::Down)));
    assert_eq!(stone.take_next_command(), None);
    stone.replace_commands(vec![ScriptCommand::Sleep(1)]);
    stone.halt();
    assert!(!stone.is_busy());
}

#[test]
fn stone_plans_follow_the_probe() {
    let up = MoveDirection::Top;
    assert_eq!(plan_action(ScriptCommand::Move(up), RayProbe::Tile), StoneActionPlan::Pause(PauseLength::BlockedMove));
    assert_eq!(plan_action(ScriptCommand::Move(up), RayProbe::Other), StoneActionPlan::Move(up));
    assert_eq!(plan_action(ScriptCommand::Dig(up), RayProbe::Tile), StoneActionPlan::Dig(up, true));
    assert_eq!(plan_action(ScriptCommand::Dig(up), RayProbe::Nothing), StoneActionPlan::Dig(up, false));
    assert_eq!(plan_action(ScriptCommand::Place(up), RayProbe::Nothing), StoneActionPlan::Place(up));
    assert_eq!(plan_action(ScriptCommand::Place(up), RayProbe::Other), StoneActionPlan::Pause(PauseLength::BlockedPlace));
    assert_eq!(plan_action(ScriptCommand::Sleep(9), RayProbe::Tile), StoneActionPlan::Pause(PauseLength::Requested(9)));
    assert!(!needs_probe(ScriptCommand::Sleep(9)));
    assert!(needs_probe(ScriptCommand::Place(up)));
    let mut stone = StoneCommandState::new();
    stone.start_action(StoneActionPlan::Pause(PauseLength::BlockedMove));
    assert!(!stone.is_moving());
    let _ = StoneActionKind::Sleep;
    assert_eq!(MOVE_SETTLE_SLEEP_BITS, 0.0001f32.to_bits());
}

#[test]
fn player_animation_and_input() {
    assert_eq!(desired_animation(true, true), (PlayerAnimationState::Run, 2));
    assert_eq!(desired_animation(false, true), (PlayerAnimationState::Climb, 1));
    assert_eq!(desired_animation(false, false), (PlayerAnimationState::Idle, 1));
    assert!(animation_active(true, false));
    assert!(animation_active(false, true));
    assert!(!animation_active(false, false));
    let mut a = PlayerAnimator::new();
    assert!(a.switch_to(PlayerAnimationState::Run));
    assert!(!a.switch_to(PlayerAnimationState::Run));
    assert_eq!(a.next_frame(3), 1);
    assert_eq!(a.next_frame(3), 2);
    assert_eq!(a.next_frame(3), 0);
    a.reset();
    assert_eq!(a.state, PlayerAnimationState::Idle);
    assert_eq!(walk_direction(true, false), 1);
    assert_eq!(walk_direction(true, true), 0);
    assert_eq!(walk_direction(false, true), -1);
    assert!(should_jump(true, true) && !should_jump(true, false));
}

#[test]
fn obstacle_vanishes_then_comes_back() {
    let loop_len = obstacle_loop_frames().len();
    let vanish_len = obstacle_vanish_frames().len();
    assert_eq!((loop_len, vanish_len), (6, 4));
    let mut o = ObstacleState::new();
    let u = o.play_frame(true, false, loop_len, vanish_len);
    assert_eq!(u.frame, Some(ObstacleFrame::Loop(1)));
    let u = o.play_frame(false, true, loop_len, vanish_len);
    assert!(u.remove_collider);
    assert_eq!(u.frame, Some(ObstacleFrame::Vanish(0)));
    for step in 1..4 {
        let u = o.play_frame(true, true, loop_len, vanish_len);
        assert_eq!(u.frame, Some(ObstacleFrame::Vanish(step)));
    }
    let u = o.play_frame(true, true, loop_len, vanish_len);
    assert!(u.remove_collider && o.hidden);
    let u = o.play_frame(true, true, loop_len, vanish_len);
    assert_eq!(u.frame, None);
    let u = o.edit_frame(false, loop_len);
    assert!(u.restart && !o.hidden && !o.is_vanishing);
    assert_eq!(o.current_step, 0);
}

#[test]
fn background_ids_come_from_the_list() {
    let mut rng = rand::rng();
    for _ in 0..50 {
        let id = background_tile_id(&mut rng);
        assert!((251..=254).contains(&id) || (268..=271).contains(&id) || (285..=288).contains(&id) || (302..=305).contains(&id));
    }
}
