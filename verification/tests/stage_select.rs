use keystone_cc::stage::{StageId, StageMeta, StageProgress};
use keystone_cc::stage_select::{
    button_look, ButtonLook, PointerInteraction, StageEntry, StageSelectState, StageSummary,
    CARDS_PER_PAGE,
};

#[test]
fn pages_cover_every_card() {
    let state = StageSelectState::new(7, CARDS_PER_PAGE);
    assert_eq!(state.total_pages(), 3);
    assert_eq!(state.visible_range(), (0, 3));
    assert_eq!(state.page_indicator(), "1/3");
    let empty = StageSelectState::new(0, 0);
    assert_eq!(empty.total_pages(), 1);
    assert_eq!(empty.visible_range(), (0, 1));
}

#[test]
fn moving_pages_stops_at_the_ends() {
    let mut state = StageSelectState::new(7, 3);
    assert!(!state.move_page(-1));
    assert!(state.move_page(1));
    assert_eq!(state.current_page(), 1);
    assert_eq!(state.visible_range(), (3, 6));
    assert!(state.move_page(5));
    assert_eq!(state.current_page(), 2);
    assert_eq!(state.visible_range(), (6, 7));
    assert!(!state.move_page(1));
    assert_eq!(state.page_indicator(), "3/3");
    assert!(state.move_page(-9));
    assert_eq!(state.current_page(), 0);
    assert!(!state.move_page(0));
}

#[test]
fn cards_and_summary() {
    let progress = StageProgress::from_unlocked_until(StageId(2));
    let metas = [1, 2, 3, 4].map(|i| StageMeta {
        id: StageId(i),
        title: format!("Stage {}", i),
        unlocked: false,
    });
    let entries: Vec<StageEntry> = metas.iter().map(|m| StageEntry::from(&progress, m)).collect();
    assert!(entries[0].playable && entries[1].playable);
    assert!(!entries[2].playable && !entries[3].playable);
    assert_eq!(entries[3].meta.title, "Stage 4");
    let summary = StageSummary::from_entries(&entries);
    assert_eq!((summary.total, summary.unlocked, summary.locked), (4, 2, 2));
}

#[test]
fn button_looks() {
    assert_eq!(button_look(false, PointerInteraction::Pressed), ButtonLook::Disabled);
    assert_eq!(button_look(true, PointerInteraction::Pressed), ButtonLook::Pressed);
    assert_eq!(button_look(true, PointerInteraction::Hovered), ButtonLook::Hovered);
    assert_eq!(button_look(true, PointerInteraction::Idle), ButtonLook::Normal);
}

#[test]
fn screen_opens_on_the_page_of_a_card() {
    let mut state = StageSelectState::new(7, 3);
    state.show_card(6);
    assert_eq!(state.current_page(), 2);
    state.show_card(2);
    assert_eq!(state.current_page(), 0);
    assert_eq!(state.page_indicator(), "1/3");
}

#[test]
fn entries_follow_the_catalog() {
    let catalog = keystone_cc::stage::StageCatalog::new(vec![
        StageMeta { id: StageId(1), title: "Stage 1".to_string(), unlocked: true },
        StageMeta { id: StageId(5), title: "Stage 5".to_string(), unlocked: false },
    ]);
    let entries = keystone_cc::stage_select::build_stage_entries(&StageProgress::from_unlocked_until(StageId(1)), &catalog);
    assert_eq!(entries.len(), 2);
    assert!(entries[0].playable);
    assert!(!entries[1].playable);
    assert_eq!(entries[1].meta.id, StageId(5));
}
