//! Verified core of the Keystone stage generator, script plumbing and
//! progression rules.

pub mod assets;
pub mod boot;
pub mod character;
pub mod chunk_grammar;
pub mod editor;
pub mod file_storage;
pub mod keystone;
pub mod generator;
pub mod goal_layout;
pub mod layout_search;
pub mod placement;
pub mod rng;
pub mod script_engine;
pub mod stage;
pub mod stage_audio;
pub mod stage_select;
pub mod script_types;
pub mod stage_map;
pub mod stone_control;
pub mod stone_type;
pub mod text;
pub mod tiles;
pub mod tutorial_text;
pub mod launch_profile;
pub mod messages;
pub mod options;
