//! Planning and compiling the pages of LED destination boards: the E233 board's
//! page plan, TOML-defined page patterns, BDF fonts, and RGB frames.
use vstd::prelude::*;

pub mod e233;
pub mod font;
pub mod frame;
pub mod patterns;
pub mod profile;
pub mod script;
pub mod text;

pub use e233::{
    asset_requests as e233_asset_requests, compile as compile_e233, plan as plan_e233,
    Content as E233Content, DisplayPlan as E233DisplayPlan,
    DisplaySelection as E233DisplaySelection, FieldName, FieldSelection, Layout as E233Layout,
    Page as E233Page, PageDuration as E233PageDuration,
};
pub use font::{BdfError, BdfFont, MissingGlyph};
pub use frame::{FrameError, Region, RgbFrame};
pub use patterns::{compile_pattern, Layer, Pattern, PatternPage, Scroll};
pub use profile::{
    AssetGroup, E233Config, LoadedAsset, LoadedAssets, Profile, ProfileInfo, RgbImage,
    ScrollDefaults, Slot, SlotDirectories, Speed,
};
pub use script::{Interval, ScriptAction, ScriptRunner, ScrollSpec};

verus! {
} // verus!
