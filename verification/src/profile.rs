//! What a vehicle profile says that page compilation reads, and the assets that
//! were loaded for it.
use vstd::prelude::*;

use crate::e233::FieldName;
use crate::frame::Region;
use crate::script::Interval;

verus! {

/// The board: its identity and its size in pixels.
#[derive(Clone, Debug)]
pub struct ProfileInfo {
    pub id: String,
    pub name: String,
    pub canvas_width: usize,
    pub canvas_height: usize,
}

/// A speed in pixels per second, held as the bits of the `f64` it is; the
/// library only passes it on to the runner.
#[derive(Clone, Copy, Debug, PartialEq, Eq, Structural)]
pub struct Speed {
    pub bits: u64,
}

/// How scroll text is drawn unless a page says otherwise.
#[derive(Clone, Debug)]
pub struct ScrollDefaults {
    /// The directory, under the font root, of the font pair.
    pub font: String,
    /// The colour, written `#RRGGBB`.
    pub color: String,
    pub speed_px_per_second: Speed,
    pub start_padding: usize,
    pub end_padding: usize,
}

pub struct ScrollDefaultsModel {
    pub font: Seq<char>,
    pub color: Seq<u8>,
    pub speed_px_per_second: Speed,
    pub start_padding: usize,
    pub end_padding: usize,
}

impl View for ScrollDefaults {
    type V = ScrollDefaultsModel;

    open spec fn view(&self) -> ScrollDefaultsModel {
        ScrollDefaultsModel {
            font: self.font@,
            color: vstd::utf8::encode_utf8(self.color@),
            speed_px_per_second: self.speed_px_per_second,
            start_padding: self.start_padding,
            end_padding: self.end_padding,
        }
    }
}

/// The places on the E233 board where an asset can go.
#[derive(Clone, Copy, Debug, PartialEq, Eq, Structural)]
pub enum Slot {
    /// 128x32, the whole board.
    Full,
    /// 48x32, the service field.
    Left,
    /// 80x32, right of the service field.
    Right,
    /// 80x16, the upper half of the right part.
    RightTop,
    /// 80x16, the lower half of the right part.
    RightBottom,
    /// 128x16, the upper half of the board.
    FullTop,
    /// 128x16, the lower half of the board.
    FullBottom,
}

impl Slot {
    /// The name under which the slot is configured.
    pub fn as_str(&self) -> (s: &'static str)
        ensures
            s@ == slot_name(*self),
    {
        match self {
            Slot::Full => "full",
            Slot::Left => "left",
            Slot::Right => "right",
            Slot::RightTop => "right-top",
            Slot::RightBottom => "right-bottom",
            Slot::FullTop => "full-top",
            Slot::FullBottom => "full-bottom",
        }
    }
}

/// Where each slot lies on the 128x32 board.
pub open spec fn slot_region(s: Slot) -> Region {
    match s {
        Slot::Full => Region { x: 0, y: 0, width: 128, height: 32 },
        Slot::Left => Region { x: 0, y: 0, width: 48, height: 32 },
        Slot::Right => Region { x: 48, y: 0, width: 80, height: 32 },
        Slot::RightTop => Region { x: 48, y: 0, width: 80, height: 16 },
        Slot::RightBottom => Region { x: 48, y: 16, width: 80, height: 16 },
        Slot::FullTop => Region { x: 0, y: 0, width: 128, height: 16 },
        Slot::FullBottom => Region { x: 0, y: 16, width: 128, height: 16 },
    }
}

impl Slot {
    /// Where the slot lies on the board.
    pub fn region(&self) -> (r: Region)
        ensures
            r == slot_region(*self),
    {
        match self {
            Slot::Full => Region { x: 0, y: 0, width: 128, height: 32 },
            Slot::Left => Region { x: 0, y: 0, width: 48, height: 32 },
            Slot::Right => Region { x: 48, y: 0, width: 80, height: 32 },
            Slot::RightTop => Region { x: 48, y: 0, width: 80, height: 16 },
            Slot::RightBottom => Region { x: 48, y: 16, width: 80, height: 16 },
            Slot::FullTop => Region { x: 0, y: 0, width: 128, height: 16 },
            Slot::FullBottom => Region { x: 0, y: 16, width: 128, height: 16 },
        }
    }
}

pub open spec fn slot_name(s: Slot) -> Seq<char> {
    match s {
        Slot::Full => "full"@,
        Slot::Left => "left"@,
        Slot::Right => "right"@,
        Slot::RightTop => "right-top"@,
        Slot::RightBottom => "right-bottom"@,
        Slot::FullTop => "full-top"@,
        Slot::FullBottom => "full-bottom"@,
    }
}

/// The asset directories to try, in order, for one slot.
#[derive(Clone, Debug)]
pub struct SlotDirectories {
    pub slot: Slot,
    pub directories: Vec<String>,
}

/// The asset directories of one field, by slot.
#[derive(Clone, Debug)]
pub struct AssetGroup {
    pub field: FieldName,
    pub slots: Vec<SlotDirectories>,
}

/// The E233 part of a profile.
#[derive(Clone, Debug)]
pub struct E233Config {
    pub assets: Vec<AssetGroup>,
    /// How long a static page stays.
    pub page_time: Interval,
}

/// A vehicle profile.
#[derive(Clone, Debug)]
pub struct Profile {
    pub profile: ProfileInfo,
    pub e233: Option<E233Config>,
    pub scroll_defaults: Option<ScrollDefaults>,
}

/// A decoded image: its size and its pixels as RGB bytes, row by row.
#[derive(Clone, Debug)]
pub struct RgbImage {
    pub width: usize,
    pub height: usize,
    pub pixels: Vec<u8>,
}

pub struct ImageModel {
    pub width: usize,
    pub height: usize,
    pub pixels: Seq<u8>,
}

impl View for RgbImage {
    type V = ImageModel;

    open spec fn view(&self) -> ImageModel {
        ImageModel { width: self.width, height: self.height, pixels: self.pixels@ }
    }
}

/// What loading one asset gave: the image, or why it could not be loaded.
#[derive(Debug)]
pub struct LoadedAsset {
    pub directory: String,
    pub id: String,
    pub image: Result<RgbImage, String>,
}

/// The assets loaded for one compilation, each under its directory and ID.
#[derive(Debug)]
pub struct LoadedAssets {
    pub entries: Vec<LoadedAsset>,
}

pub open spec fn load_view(r: Result<RgbImage, String>) -> Result<ImageModel, Seq<char>> {
    match r {
        Ok(img) => Ok(img@),
        Err(e) => Err(e@),
    }
}

/// The first entry for `(directory, id)` from position `from` on.
pub open spec fn lookup_from(
    entries: Seq<LoadedAsset>,
    directory: Seq<char>,
    id: Seq<char>,
    from: int,
) -> Option<Result<ImageModel, Seq<char>>>
    decreases entries.len() - from,
{
    if from < 0 || from >= entries.len() {
        None
    } else if entries[from].directory@ == directory && entries[from].id@ == id {
        Some(load_view(entries[from].image))
    } else {
        lookup_from(entries, directory, id, from + 1)
    }
}

/// What loading `(directory, id)` gave, if it was loaded.
pub open spec fn lookup(assets: LoadedAssets, directory: Seq<char>, id: Seq<char>) -> Option<
    Result<ImageModel, Seq<char>>,
> {
    lookup_from(assets.entries@, directory, id, 0)
}

impl LoadedAssets {
    /// What loading `(directory, id)` gave, if it was loaded.
    pub fn get(&self, directory: &String, id: &String) -> (r: Option<&Result<RgbImage, String>>)
        ensures
            match lookup(*self, directory@, id@) {
                Some(v) => r matches Some(x) && load_view(*x) == v,
                None => r is None,
            },
    {
        let mut i: usize = 0;
        while i < self.entries.len()
            invariant
                i <= self.entries@.len(),
                lookup(*self, directory@, id@) == lookup_from(self.entries@, directory@, id@, i as int),
            decreases self.entries@.len() - i,
        {
            let e = &self.entries[i];
            if e.directory == *directory && e.id == *id {
                return Some(&e.image);
            }
            i += 1;
        }
        None
    }
}

} // verus!
