pub mod text;
pub mod paths;
pub mod facts;
pub mod order;
pub mod path_order;
pub mod errors;
pub mod contracts;
pub mod operations;
pub mod app_update;
pub mod game_files;
pub mod layout;
pub mod steam;
pub mod android_geode;
pub mod geode_user_data;
pub mod sync;
pub mod discovery;
pub mod sheet_lookup;
pub mod hashing;
pub mod legacy_icons;
pub mod glow_names;
pub mod image_alpha;
pub mod glow_alpha;
pub mod pixel_rules;
pub mod ink_finish;
pub mod outline_aa;
pub mod regions;
pub mod contours;
pub mod holes;
pub mod preview_pick;
pub mod button_families;
pub mod plist_tree;
pub mod merge_sheet;
pub mod fallback_pairs;
pub mod sheet_edits;
pub mod frame_crop;
pub mod leftover_sheet;
pub mod convert_atlas;
pub mod merger;
pub mod geode_buttons;
pub mod icon_editor;
pub mod data_url;
pub mod report;
pub mod run_plan;
pub mod button_targets;
pub mod convert_plan;
pub mod laws;
