use vstd::prelude::*;

verus! {

/// The images the game loads, each with its number in the asset store.
#[derive(Clone, Copy, Debug, PartialEq, Eq, Structural)]
pub enum ImageKey {
    Logo,
    Spa,
    PlayerIdle1,
    PlayerIdle2,
    PlayerIdle3,
    PlayerIdle4,
    PlayerRun1,
    PlayerRun2,
    PlayerRun3,
    PlayerRun4,
    PlayerRun5,
    PlayerRun6,
    PlayerRun7,
    PlayerRun8,
    PlayerRun9,
    PlayerRun10,
}

/// An image's number in the asset store: its place in the list, from zero.
pub open spec fn spec_image_number(k: ImageKey) -> u32 {
    match k {
        ImageKey::Logo => 0,
        ImageKey::Spa => 1,
        ImageKey::PlayerIdle1 => 2,
        ImageKey::PlayerIdle2 => 3,
        ImageKey::PlayerIdle3 => 4,
        ImageKey::PlayerIdle4 => 5,
        ImageKey::PlayerRun1 => 6,
        ImageKey::PlayerRun2 => 7,
        ImageKey::PlayerRun3 => 8,
        ImageKey::PlayerRun4 => 9,
        ImageKey::PlayerRun5 => 10,
        ImageKey::PlayerRun6 => 11,
        ImageKey::PlayerRun7 => 12,
        ImageKey::PlayerRun8 => 13,
        ImageKey::PlayerRun9 => 14,
        ImageKey::PlayerRun10 => 15,
    }
}

impl From<ImageKey> for u32 {
    fn from(v: ImageKey) -> (r: u32) {
        match v {
            ImageKey::Logo => 0,
            ImageKey::Spa => 1,
            ImageKey::PlayerIdle1 => 2,
            ImageKey::PlayerIdle2 => 3,
            ImageKey::PlayerIdle3 => 4,
            ImageKey::PlayerIdle4 => 5,
            ImageKey::PlayerRun1 => 6,
            ImageKey::PlayerRun2 => 7,
            ImageKey::PlayerRun3 => 8,
            ImageKey::PlayerRun4 => 9,
            ImageKey::PlayerRun5 => 10,
            ImageKey::PlayerRun6 => 11,
            ImageKey::PlayerRun7 => 12,
            ImageKey::PlayerRun8 => 13,
            ImageKey::PlayerRun9 => 14,
            ImageKey::PlayerRun10 => 15,
        }
    }
}

impl vstd::std_specs::convert::FromSpecImpl<ImageKey> for u32 {
    open spec fn obeys_from_spec() -> bool {
        true
    }

    open spec fn from_spec(v: ImageKey) -> u32 {
        spec_image_number(v)
    }
}

/// Different images have different numbers.
pub proof fn lemma_image_numbers_distinct(a: ImageKey, b: ImageKey)
    ensures
        spec_image_number(a) == spec_image_number(b) ==> a == b,
{
}

/// The fonts the game loads.
#[derive(Clone, Copy, Debug, PartialEq, Eq, Structural)]
pub enum FontKey {
    Default,
    Title,
}

pub open spec fn spec_font_number(k: FontKey) -> u32 {
    match k {
        FontKey::Default => 0,
        FontKey::Title => 1,
    }
}

impl From<FontKey> for u32 {
    fn from(v: FontKey) -> (r: u32) {
        match v {
            FontKey::Default => 0,
            FontKey::Title => 1,
        }
    }
}

impl vstd::std_specs::convert::FromSpecImpl<FontKey> for u32 {
    open spec fn obeys_from_spec() -> bool {
        true
    }

    open spec fn from_spec(v: FontKey) -> u32 {
        spec_font_number(v)
    }
}

/// The sounds the game loads.
#[derive(Clone, Copy, Debug, PartialEq, Eq, Structural)]
pub enum AudioKey {
    UiClick,
    Bgm,
}

pub open spec fn spec_audio_number(k: AudioKey) -> u32 {
    match k {
        AudioKey::UiClick => 0,
        AudioKey::Bgm => 1,
    }
}

impl From<AudioKey> for u32 {
    fn from(v: AudioKey) -> (r: u32) {
        match v {
            AudioKey::UiClick => 0,
            AudioKey::Bgm => 1,
        }
    }
}

impl vstd::std_specs::convert::FromSpecImpl<AudioKey> for u32 {
    open spec fn obeys_from_spec() -> bool {
        true
    }

    open spec fn from_spec(v: AudioKey) -> u32 {
        spec_audio_number(v)
    }
}

/// The player's idle frames, in order.
pub fn player_idle_keys() -> (r: Vec<ImageKey>)
    ensures
        r@ == seq![ImageKey::PlayerIdle1, ImageKey::PlayerIdle2, ImageKey::PlayerIdle3, ImageKey::PlayerIdle4],
{
    let mut v: Vec<ImageKey> = Vec::new();
    v.push(ImageKey::PlayerIdle1);
    v.push(ImageKey::PlayerIdle2);
    v.push(ImageKey::PlayerIdle3);
    v.push(ImageKey::PlayerIdle4);
    proof {
        assert(v@ =~= seq![ImageKey::PlayerIdle1, ImageKey::PlayerIdle2, ImageKey::PlayerIdle3, ImageKey::PlayerIdle4]);
    }
    v
}

/// The player's running frames, in order.
pub fn player_run_keys() -> (r: Vec<ImageKey>)
    ensures
        r@ == seq![
            ImageKey::PlayerRun1,
            ImageKey::PlayerRun2,
            ImageKey::PlayerRun3,
            ImageKey::PlayerRun4,
            ImageKey::PlayerRun5,
            ImageKey::PlayerRun6,
            ImageKey::PlayerRun7,
            ImageKey::PlayerRun8,
            ImageKey::PlayerRun9,
            ImageKey::PlayerRun10,
        ],
{
    let mut v: Vec<ImageKey> = Vec::new();
    v.push(ImageKey::PlayerRun1);
    v.push(ImageKey::PlayerRun2);
    v.push(ImageKey::PlayerRun3);
    v.push(ImageKey::PlayerRun4);
    v.push(ImageKey::PlayerRun5);
    v.push(ImageKey::PlayerRun6);
    v.push(ImageKey::PlayerRun7);
    v.push(ImageKey::PlayerRun8);
    v.push(ImageKey::PlayerRun9);
    v.push(ImageKey::PlayerRun10);
    proof {
        assert(v@ =~= seq![
            ImageKey::PlayerRun1,
            ImageKey::PlayerRun2,
            ImageKey::PlayerRun3,
            ImageKey::PlayerRun4,
            ImageKey::PlayerRun5,
            ImageKey::PlayerRun6,
            ImageKey::PlayerRun7,
            ImageKey::PlayerRun8,
            ImageKey::PlayerRun9,
            ImageKey::PlayerRun10,
        ]);
    }
    v
}

/// A request to load a group of assets: each asset's number and path.
pub struct LoadAssetGroup {
    pub group: &'static str,
    pub images: Vec<(u32, &'static str)>,
    pub fonts: Vec<(u32, &'static str)>,
    pub audio: Vec<(u32, &'static str)>,
}

/// Sent once every asset of a group has loaded.
#[derive(Clone, Copy, Debug, PartialEq, Eq, Structural)]
pub struct AssetGroupLoaded;

/// The assets the game loads at start: its images and fonts.
pub fn default_group() -> (r: LoadAssetGroup)
    ensures
        r.group@ == "default"@,
        r.images@.len() == 15,
        r.images@[0].0 == spec_image_number(ImageKey::Logo),
        forall|i: int| 1 <= i <= 4 ==> (#[trigger] r.images@[i]).0 == i + 1,
        forall|i: int| 5 <= i < 15 ==> (#[trigger] r.images@[i]).0 == i + 1,
        r.fonts@.len() == 2,
        r.fonts@[0].0 == spec_font_number(FontKey::Default),
        r.fonts@[1].0 == spec_font_number(FontKey::Title),
        r.audio@.len() == 0,
{
    let mut images: Vec<(u32, &'static str)> = Vec::new();
    images.push((u32::from(ImageKey::Logo), "images/logo_with_black.png"));
    images.push((u32::from(ImageKey::PlayerIdle1), "images/SPA/Player/Iddle/1.png"));
    images.push((u32::from(ImageKey::PlayerIdle2), "images/SPA/Player/Iddle/2.png"));
    images.push((u32::from(ImageKey::PlayerIdle3), "images/SPA/Player/Iddle/3.png"));
    images.push((u32::from(ImageKey::PlayerIdle4), "images/SPA/Player/Iddle/4.png"));
    images.push((u32::from(ImageKey::PlayerRun1), "images/SPA/Player/Run/1.png"));
    images.push((u32::from(ImageKey::PlayerRun2), "images/SPA/Player/Run/2.png"));
    images.push((u32::from(ImageKey::PlayerRun3), "images/SPA/Player/Run/3.png"));
    images.push((u32::from(ImageKey::PlayerRun4), "images/SPA/Player/Run/4.png"));
    images.push((u32::from(ImageKey::PlayerRun5), "images/SPA/Player/Run/5.png"));
    images.push((u32::from(ImageKey::PlayerRun6), "images/SPA/Player/Run/6.png"));
    images.push((u32::from(ImageKey::PlayerRun7), "images/SPA/Player/Run/7.png"));
    images.push((u32::from(ImageKey::PlayerRun8), "images/SPA/Player/Run/8.png"));
    images.push((u32::from(ImageKey::PlayerRun9), "images/SPA/Player/Run/9.png"));
    images.push((u32::from(ImageKey::PlayerRun10), "images/SPA/Player/Run/10.png"));
    let mut fonts: Vec<(u32, &'static str)> = Vec::new();
    fonts.push((u32::from(FontKey::Default), "fonts/PixelMplus12-Regular.ttf"));
    fonts.push((u32::from(FontKey::Title), "fonts/Quicky Story.ttf"));
    proof {
        reveal_strlit("default");
    }
    LoadAssetGroup { group: "default", images, fonts, audio: Vec::new() }
}

/// Whether the main window has been shown yet.
#[derive(Clone, Copy, Debug, PartialEq, Eq, Hash, Structural)]
pub enum VisibilityState {
    Hidden,
    Shown,
}

impl Default for VisibilityState {
    /// Hidden until shown.
    fn default() -> (r: VisibilityState)
        ensures
            r == VisibilityState::Hidden,
    {
        VisibilityState::Hidden
    }
}

/// The frame on which the main window is shown.
pub const SHOW_WINDOW_FRAME: u32 = 3;

/// Whether the main window is shown on frame `frame`.
pub fn shows_window_on(frame: u32) -> (r: bool)
    ensures
        r == (frame == SHOW_WINDOW_FRAME),
{
    frame == SHOW_WINDOW_FRAME
}

/// The screens of the game.
#[derive(Clone, Copy, Debug, PartialEq, Eq, Hash, Structural)]
pub enum GameState {
    Boot,
    SelectStage,
    Stage,
}

impl Default for GameState {
    /// The game starts on the boot screen.
    fn default() -> (r: GameState)
        ensures
            r == GameState::Boot,
    {
        GameState::Boot
    }
}

/// Stage slots the game has room for.
pub const TOTAL_STAGE_SLOTS: usize = 20;

} // verus!
