use keystone_cc::script_engine::Language;
use keystone_cc::stage::{
    build_stage_meta, StageCatalog, StageEntryRecord, StageId, StageMeta, StageProgress,
    StageProgressionState, StageScripts, StoredScript,
};

fn meta(id: usize, unlocked: bool) -> StageMeta {
    StageMeta { id: StageId(id), title: format!("Stage {}", id), unlocked }
}

#[test]
fn default_has_first_stage() {
    let p = StageProgress::default();
    assert!(p.is_unlocked(StageId(0)));
}

#[test]
fn unlocking_advances_range() {
    let mut p = StageProgress::default();
    assert!(p.unlock_until(StageId(2)));
    assert!(p.is_unlocked(StageId(2)));
    // unlocking same or lower doesn't change
    assert!(!p.unlock_until(StageId(1)));
}

#[test]
fn unlocking_never_closes_a_stage() {
    let mut p = StageProgress::from_unlocked_until(StageId(5));
    assert!(!p.unlock_until(StageId(3)));
    assert!(p.is_unlocked(StageId(5)));
    assert!(!p.is_unlocked(StageId(6)));
    assert_eq!(p.unlocked_until_id(), StageId(5));
}

#[test]
fn loaded_progress_is_raised_to_the_catalog() {
    let catalog = StageCatalog::new(vec![meta(1, true), meta(2, true), meta(3, false)]);
    let p = StageProgress::from_loaded(None, &catalog);
    assert_eq!(p.unlocked_until_id(), StageId(2));
    let p = StageProgress::from_loaded(Some(StageProgress::from_unlocked_until(StageId(4))), &catalog);
    assert_eq!(p.unlocked_until_id(), StageId(4));
}

#[test]
fn catalog_finds_stages_by_number_and_position() {
    let catalog = StageCatalog::new(vec![meta(1, true), meta(2, false), meta(4, true)]);
    assert_eq!(catalog.stage_by_index(1).unwrap().id, StageId(2));
    assert!(catalog.stage_by_index(3).is_none());
    assert_eq!(catalog.stage_by_id(StageId(4)).unwrap().id, StageId(4));
    assert!(catalog.stage_by_id(StageId(3)).is_none());
    assert_eq!(catalog.next_stage(StageId(1)).unwrap().id, StageId(2));
    assert!(catalog.next_stage(StageId(2)).is_none());
    assert_eq!(catalog.max_unlocked_stage_id(), StageId(4));
    assert_eq!(StageCatalog::new(vec![meta(3, false)]).max_unlocked_stage_id(), StageId(0));
}

#[test]
fn stage_list_entries_get_titles() {
    let built = build_stage_meta(vec![
        StageEntryRecord { id: 1, unlocked: true },
        StageEntryRecord { id: 18, unlocked: false },
    ]);
    assert_eq!(built.len(), 2);
    assert_eq!(built[0].title, "Stage 1");
    assert_eq!(built[1].title, "Stage 18");
    assert_eq!(built[1].id, StageId(18));
    assert!(built[0].unlocked && !built[1].unlocked);
}

#[test]
fn saved_scripts_read_back_what_was_written() {
    let mut scripts = StageScripts::new();
    assert!(scripts.stage_codes(Language::Rhai, StageId(1)).is_none());
    scripts.set_stage_codes(Language::Rhai, StageId(1), vec!["move(\"up\");".to_string()]);
    scripts.set_stage_codes(Language::Keystone, StageId(1), vec!["move up".to_string()]);
    scripts.set_stage_codes(Language::Rhai, StageId(1), vec!["a".to_string(), "b".to_string()]);
    assert_eq!(
        scripts.stage_codes(Language::Rhai, StageId(1)).unwrap(),
        &vec!["a".to_string(), "b".to_string()]
    );
    assert_eq!(
        scripts.stage_codes(Language::Keystone, StageId(1)).unwrap(),
        &vec!["move up".to_string()]
    );
    assert!(scripts.stage_codes(Language::Keystone, StageId(2)).is_none());
    assert_eq!(scripts.saved_keys().len(), 2);
}

#[test]
fn older_single_text_scripts_become_lists() {
    assert_eq!(StoredScript::Single("x".to_string()).into_codes(), vec!["x".to_string()]);
    assert_eq!(
        StoredScript::Multiple(vec!["a".to_string(), "b".to_string()]).into_codes(),
        vec!["a".to_string(), "b".to_string()]
    );
}

#[test]
fn progression_moves_on_and_reports_reload_once() {
    let catalog = StageCatalog::new(vec![meta(1, true), meta(2, false)]);
    let mut state = StageProgressionState::new();
    assert_eq!(state.current_stage_id(), StageId(0));
    assert!(!state.advance(&catalog));
    state.select_stage(catalog.stage_by_index(0).unwrap());
    assert_eq!(state.current_stage_id(), StageId(1));
    assert!(state.take_pending_reload());
    assert!(!state.take_pending_reload());
    assert!(state.advance(&catalog));
    assert_eq!(state.current_stage_id(), StageId(2));
    assert_eq!(state.current_stage().unwrap().title, "Stage 2");
    state.clear_reload();
    assert!(!state.take_pending_reload());
    assert!(!state.advance(&catalog));
    assert_eq!(state.current_stage_id(), StageId(2));
}

#[test]
fn clearing_a_stage_opens_the_next_one() {
    let catalog = StageCatalog::new(vec![meta(1, true), meta(2, false)]);
    let mut state = StageProgressionState::new();
    let mut progress = StageProgress::from_unlocked_until(StageId(1));
    state.select_stage(catalog.stage_by_index(0).unwrap());
    assert!(state.advance_after_clear(&mut progress, &catalog));
    assert!(progress.is_unlocked(StageId(2)));
    assert_eq!(state.current_stage_id(), StageId(2));
    assert!(!state.advance_after_clear(&mut progress, &catalog));
    assert!(progress.is_unlocked(StageId(3)));
}
