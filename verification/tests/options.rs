use keystone_cc::stage_audio::{should_start_bgm, StageAudioState};
use keystone_cc::options::{
    fullscreen_label_key, initial_locale, language_options, locale_options, OptionsOverlayState,
};
use keystone_cc::script_engine::Language;

#[test]
fn escape_closes_the_options() {
    let mut o = OptionsOverlayState::new();
    o.handle_escape(true);
    assert!(!o.open);
    o.open = true;
    o.handle_escape(false);
    assert!(o.open);
    o.handle_escape(true);
    assert!(!o.open);
}

#[test]
fn option_lists() {
    assert_eq!(language_options(), vec![(Language::Rhai, "options-language-rhai"), (Language::Keystone, "options-language-keystone")]);
    assert_eq!(locale_options()[2], ("zh-Hans", "options-locale-zh"));
    assert_eq!(fullscreen_label_key(true), "options-fullscreen-on");
    assert_eq!(fullscreen_label_key(false), "options-fullscreen-off");
}

#[test]
fn stage_sounds_play_once() {
    let mut a = StageAudioState::new();
    assert!(a.play_clear_once());
    assert!(!a.play_clear_once());
    assert!(a.ensure_push_loop());
    assert!(!a.ensure_push_loop());
    assert!(a.stop_push_loop());
    assert!(!a.stop_push_loop());
    a.ensure_push_loop();
    assert!(a.reset());
    assert!(a.play_clear_once());
    assert!(should_start_bgm(false) && !should_start_bgm(true));
}

#[test]
fn starting_locale_follows_saved_then_store_then_system() {
    assert_eq!(initial_locale(None, None, None), "en-US");
    assert_eq!(initial_locale(None, None, Some("ja_JP.UTF-8")), "ja-JP");
    assert_eq!(initial_locale(None, Some("zh-Hans"), Some("ja_JP.UTF-8")), "zh-Hans");
    assert_eq!(initial_locale(Some("ja-JP"), Some("zh-Hans"), Some("en_US.UTF-8")), "ja-JP");
    assert_eq!(initial_locale(None, Some("fr-FR"), Some("C.UTF-8")), "en-US");
    assert_eq!(initial_locale(Some("de-DE"), None, Some("en_US")), "en-US");
    assert_eq!(initial_locale(None, Some("fr_FR"), Some("zh_Hans.UTF-8")), "zh-Hans");
}
