//! The E233 destination board: which fields are shown on which pages.
use vstd::prelude::*;

use std::sync::Arc;

use crate::font::{BdfFont, FontModel};
use crate::frame::{black_frame, blit_result, frame_error_text, FrameError, FrameModel, Region, RgbFrame};
use crate::profile::{
    lookup, slot_name, slot_region, AssetGroup, E233Config, ImageModel, LoadedAssets, Profile,
    ScrollDefaultsModel, Slot, SlotDirectories,
};
use crate::script::{
    actions_view, scroll_view, share_font, ActionModel, Interval, RunnerModel, ScriptAction,
    ScriptRunner, ScrollModel, ScrollSpec,
};
use crate::text::{
    chars_of, digit_value, digits_fold, parse_number, parse_number_in, string_of, trim, trim_bounds,
    NumberError,
};

verus! {

/// What the operator picked for one field of the board.
#[derive(Clone, Debug, PartialEq, Eq)]
pub enum FieldSelection {
    /// The field takes no part in the display.
    Off,
    /// The field is shown black.
    Blank,
    /// The field shows the asset with this ID.
    Asset(String),
}

/// A [`FieldSelection`] with the asset ID as a sequence of characters.
pub enum FieldModel {
    Off,
    Blank,
    Asset(Seq<char>),
}

impl View for FieldSelection {
    type V = FieldModel;

    open spec fn view(&self) -> FieldModel {
        match self {
            FieldSelection::Off => FieldModel::Off,
            FieldSelection::Blank => FieldModel::Blank,
            FieldSelection::Asset(id) => FieldModel::Asset(id@),
        }
    }
}

impl FieldSelection {
    /// Whether the field is shown at all (black counts as shown).
    pub fn participates(&self) -> (b: bool)
        ensures
            b == !(self@ is Off),
    {
        match self {
            FieldSelection::Off => false,
            _ => true,
        }
    }

    /// A copy with the same contents.
    pub fn duplicate(&self) -> (r: FieldSelection)
        ensures
            r@ == self@,
    {
        match self {
            FieldSelection::Off => FieldSelection::Off,
            FieldSelection::Blank => FieldSelection::Blank,
            FieldSelection::Asset(id) => FieldSelection::Asset(id.clone()),
        }
    }
}

/// The fields of the board, each of which has its own group of assets.
#[derive(Clone, Copy, Debug, PartialEq, Eq, Structural)]
pub enum FieldName {
    Service,
    Route,
    ServiceChange,
    ThroughRoute,
    Destination,
}

impl FieldName {
    /// The name under which the field's assets are configured.
    pub fn as_str(&self) -> (s: &'static str)
        ensures
            s@ == field_name(*self),
    {
        match self {
            FieldName::Service => "service",
            FieldName::Route => "route",
            FieldName::ServiceChange => "service_change",
            FieldName::ThroughRoute => "through_route",
            FieldName::Destination => "destination",
        }
    }
}

pub open spec fn field_name(f: FieldName) -> Seq<char> {
    match f {
        FieldName::Service => "service"@,
        FieldName::Route => "route"@,
        FieldName::ServiceChange => "service_change"@,
        FieldName::ThroughRoute => "through_route"@,
        FieldName::Destination => "destination"@,
    }
}

/// Everything the operator chose for the board.
#[derive(Clone, Debug)]
pub struct DisplaySelection {
    pub service: FieldSelection,
    pub route: FieldSelection,
    pub service_change: FieldSelection,
    pub through_route: FieldSelection,
    pub destination: FieldSelection,
    pub scroll_text: String,
    pub brightness: u8,
}

/// A [`DisplaySelection`] seen through the models of its parts.
pub struct SelectionModel {
    pub service: FieldModel,
    pub route: FieldModel,
    pub service_change: FieldModel,
    pub through_route: FieldModel,
    pub destination: FieldModel,
    pub scroll_text: Seq<char>,
    pub brightness: u8,
}

impl View for DisplaySelection {
    type V = SelectionModel;

    open spec fn view(&self) -> SelectionModel {
        SelectionModel {
            service: self.service@,
            route: self.route@,
            service_change: self.service_change@,
            through_route: self.through_route@,
            destination: self.destination@,
            scroll_text: self.scroll_text@,
            brightness: self.brightness,
        }
    }
}

/// What one area of a page shows.
#[derive(Clone, Debug, PartialEq, Eq)]
pub enum Content {
    Blank,
    Field(FieldName, FieldSelection),
    Scroll(String),
}

pub enum ContentModel {
    Blank,
    Field(FieldName, FieldModel),
    Scroll(Seq<char>),
}

impl View for Content {
    type V = ContentModel;

    open spec fn view(&self) -> ContentModel {
        match self {
            Content::Blank => ContentModel::Blank,
            Content::Field(name, value) => ContentModel::Field(*name, value@),
            Content::Scroll(text) => ContentModel::Scroll(text@),
        }
    }
}

/// How a page divides the 128x32 board.
#[derive(Clone, Debug, PartialEq, Eq)]
pub enum Layout {
    /// One content over the whole board.
    Full(Content),
    /// The service field on the left 48x32, one content on the right 80x32.
    ServiceAndRight(Content, Content),
    /// The service field on the left, the right half split into a top and a bottom 80x16.
    ServiceAndRightSplit(Content, Content, Content),
    /// A top and a bottom 128x16.
    FullWidthSplit(Content, Content),
}

pub enum LayoutModel {
    Full(ContentModel),
    ServiceAndRight(ContentModel, ContentModel),
    ServiceAndRightSplit(ContentModel, ContentModel, ContentModel),
    FullWidthSplit(ContentModel, ContentModel),
}

impl View for Layout {
    type V = LayoutModel;

    open spec fn view(&self) -> LayoutModel {
        match self {
            Layout::Full(a) => LayoutModel::Full(a@),
            Layout::ServiceAndRight(a, b) => LayoutModel::ServiceAndRight(a@, b@),
            Layout::ServiceAndRightSplit(a, b, c) => LayoutModel::ServiceAndRightSplit(
                a@,
                b@,
                c@,
            ),
            Layout::FullWidthSplit(a, b) => LayoutModel::FullWidthSplit(a@, b@),
        }
    }
}

/// How long a page stays.
#[derive(Clone, Copy, Debug, PartialEq, Eq, Structural)]
pub enum PageDuration {
    Fixed(Interval),
    UntilScrollEnd,
}

#[derive(Clone, Debug, PartialEq, Eq)]
pub struct Page {
    pub layout: Layout,
    pub duration: PageDuration,
}

pub struct PageModel {
    pub layout: LayoutModel,
    pub duration: PageDuration,
}

impl View for Page {
    type V = PageModel;

    open spec fn view(&self) -> PageModel {
        PageModel { layout: self.layout@, duration: self.duration }
    }
}

/// The pages of the board, shown in this order.
#[derive(Clone, Debug, PartialEq, Eq)]
pub struct DisplayPlan {
    pub pages: Vec<Page>,
}

impl View for DisplayPlan {
    type V = Seq<PageModel>;

    open spec fn view(&self) -> Seq<PageModel> {
        self.pages@.map_values(|p: Page| p@)
    }
}

/// Whether a field takes part in the display.
pub open spec fn shown(f: FieldModel) -> bool {
    !(f is Off)
}

/// The selection's value for a field.
pub open spec fn field_of(sel: SelectionModel, name: FieldName) -> FieldModel {
    match name {
        FieldName::Service => sel.service,
        FieldName::Route => sel.route,
        FieldName::ServiceChange => sel.service_change,
        FieldName::ThroughRoute => sel.through_route,
        FieldName::Destination => sel.destination,
    }
}

/// Whether the selection has scroll text (anything but white space).
pub open spec fn has_scroll(sel: SelectionModel) -> bool {
    trim(sel.scroll_text).len() > 0
}

/// The time a static page stays.
pub open spec fn static_time() -> Interval {
    Interval { secs: 3, nanos: 0 }
}

/// The content that shows a field.
pub open spec fn field_content(sel: SelectionModel, name: FieldName) -> ContentModel {
    ContentModel::Field(name, field_of(sel, name))
}

/// The page that shows one of the non-service fields.
pub open spec fn static_page(sel: SelectionModel, name: FieldName) -> PageModel {
    let content = field_content(sel, name);
    let service = field_content(sel, FieldName::Service);
    PageModel {
        layout: if shown(sel.service) {
            if name == FieldName::Route {
                LayoutModel::ServiceAndRightSplit(service, content, ContentModel::Blank)
            } else {
                LayoutModel::ServiceAndRight(service, content)
            }
        } else {
            LayoutModel::Full(content)
        },
        duration: PageDuration::Fixed(static_time()),
    }
}

/// The page for a field if the field is shown, else nothing.
pub open spec fn page_if_shown(sel: SelectionModel, name: FieldName) -> Seq<PageModel> {
    if shown(field_of(sel, name)) {
        seq![static_page(sel, name)]
    } else {
        seq![]
    }
}

/// The static pages: destination, route, through route and service change, each if shown.
pub open spec fn static_pages(sel: SelectionModel) -> Seq<PageModel> {
    page_if_shown(sel, FieldName::Destination) + page_if_shown(sel, FieldName::Route)
        + page_if_shown(sel, FieldName::ThroughRoute) + page_if_shown(
        sel,
        FieldName::ServiceChange,
    )
}

/// The static pages, or the service alone where no other field is shown.
pub open spec fn leading_pages(sel: SelectionModel) -> Seq<PageModel> {
    if static_pages(sel).len() == 0 && shown(sel.service) {
        seq![
            PageModel {
                layout: LayoutModel::Full(field_content(sel, FieldName::Service)),
                duration: PageDuration::Fixed(static_time()),
            },
        ]
    } else {
        static_pages(sel)
    }
}

/// The page that scrolls the text under the destination (or else the route).
pub open spec fn scroll_page(sel: SelectionModel) -> PageModel {
    let top = if shown(sel.destination) {
        field_content(sel, FieldName::Destination)
    } else {
        field_content(sel, FieldName::Route)
    };
    let scroll = ContentModel::Scroll(trim(sel.scroll_text));
    PageModel {
        layout: if shown(sel.service) {
            LayoutModel::ServiceAndRightSplit(field_content(sel, FieldName::Service), top, scroll)
        } else {
            LayoutModel::FullWidthSplit(top, scroll)
        },
        duration: PageDuration::UntilScrollEnd,
    }
}

/// All pages of a valid selection.
pub open spec fn plan_pages(sel: SelectionModel) -> Seq<PageModel> {
    if has_scroll(sel) {
        leading_pages(sel).push(scroll_page(sel))
    } else {
        leading_pages(sel)
    }
}

/// The first rule that the selection breaks, if any, as its message.
pub open spec fn plan_error(sel: SelectionModel) -> Option<Seq<char>> {
    let s = shown(sel.service);
    let r = shown(sel.route);
    let c = shown(sel.service_change);
    let t = shown(sel.through_route);
    let d = shown(sel.destination);
    let m = has_scroll(sel);
    if t && m {
        Some("直通先路線名とスクロール文字は同時に使用できません。"@)
    } else if d && c {
        Some("行先と種別変更は同時に使用できません。"@)
    } else if m && !d && !r {
        Some("スクロール文字を表示する場合は、行先または路線名を選択してください。"@)
    } else if c && !s {
        Some("種別変更を表示する場合は、種別または種別欄の「無表示」を選択してください。"@)
    } else if plan_pages(sel).len() == 0 {
        Some("表示する項目を選択してください。"@)
    } else {
        None
    }
}

fn push_static_page(
    pages: &mut Vec<Page>,
    selection: &DisplaySelection,
    name: FieldName,
    value: &FieldSelection,
)
    requires
        value@ == field_of(selection@, name),
        name != FieldName::Service,
    ensures
        final(pages)@.map_values(|p: Page| p@) == old(pages)@.map_values(|p: Page| p@) + page_if_shown(
            selection@,
            name,
        ),
{
    let ghost before = pages@.map_values(|p: Page| p@);
    if value.participates() {
        let content = Content::Field(name, value.duplicate());
        let layout = if selection.service.participates() {
            match name {
                FieldName::Route => Layout::ServiceAndRightSplit(
                    Content::Field(FieldName::Service, selection.service.duplicate()),
                    content,
                    Content::Blank,
                ),
                _ => Layout::ServiceAndRight(
                    Content::Field(FieldName::Service, selection.service.duplicate()),
                    content,
                ),
            }
        } else {
            Layout::Full(content)
        };
        let page = Page { layout, duration: PageDuration::Fixed(Interval::from_secs(3)) };
        assert(page@ == static_page(selection@, name));
        pages.push(page);
        assert(pages@.map_values(|p: Page| p@) =~= before + seq![static_page(selection@, name)]);
    } else {
        assert(before + page_if_shown(selection@, name) =~= before);
    }
}

/// Lays the selection out in pages, or says which rule it breaks.
///
/// Each shown field among destination, route, through route and service change
/// gets a page of its own, in that order, beside the service where the service is
/// shown; the service alone gets a page where nothing else is shown; scroll text
/// gets a last page under the destination (or else the route).
pub fn plan(selection: &DisplaySelection) -> (r: Result<DisplayPlan, String>)
    ensures
        match plan_error(selection@) {
            Some(msg) => r matches Err(e) && e@ == msg,
            None => r matches Ok(p) && p@ == plan_pages(selection@),
        },
{
    let ghost sel = selection@;
    let s = selection.service.participates();
    let r = selection.route.participates();
    let c = selection.service_change.participates();
    let t = selection.through_route.participates();
    let d = selection.destination.participates();
    let chars = chars_of(selection.scroll_text.as_str());
    let (from, to) = trim_bounds(chars.as_slice());
    let m = from < to;
    assert(m == has_scroll(sel));
    if t && m {
        return Err("直通先路線名とスクロール文字は同時に使用できません。".to_string());
    }
    if d && c {
        return Err("行先と種別変更は同時に使用できません。".to_string());
    }
    if m && !d && !r {
        return Err(
            "スクロール文字を表示する場合は、行先または路線名を選択してください。".to_string(),
        );
    }
    if c && !s {
        return Err(
            "種別変更を表示する場合は、種別または種別欄の「無表示」を選択してください。".to_string(),
        );
    }
    let mut pages: Vec<Page> = Vec::new();
    assert(pages@.map_values(|p: Page| p@) =~= Seq::<PageModel>::empty());
    push_static_page(&mut pages, selection, FieldName::Destination, &selection.destination);
    push_static_page(&mut pages, selection, FieldName::Route, &selection.route);
    push_static_page(&mut pages, selection, FieldName::ThroughRoute, &selection.through_route);
    push_static_page(&mut pages, selection, FieldName::ServiceChange, &selection.service_change);
    assert(pages@.map_values(|p: Page| p@) =~= static_pages(sel));
    if pages.len() == 0 && s {
        pages.push(
            Page {
                layout: Layout::Full(
                    Content::Field(FieldName::Service, selection.service.duplicate()),
                ),
                duration: PageDuration::Fixed(Interval::from_secs(3)),
            },
        );
    }
    assert(pages@.map_values(|p: Page| p@) =~= leading_pages(sel));
    if m {
        let top = if d {
            Content::Field(FieldName::Destination, selection.destination.duplicate())
        } else {
            Content::Field(FieldName::Route, selection.route.duplicate())
        };
        let scroll = Content::Scroll(string_of(chars.as_slice(), from, to));
        let layout = if s {
            Layout::ServiceAndRightSplit(
                Content::Field(FieldName::Service, selection.service.duplicate()),
                top,
                scroll,
            )
        } else {
            Layout::FullWidthSplit(top, scroll)
        };
        let page = Page { layout, duration: PageDuration::UntilScrollEnd };
        assert(page@ == scroll_page(sel));
        let ghost before = pages@.map_values(|p: Page| p@);
        pages.push(page);
        assert(pages@.map_values(|p: Page| p@) =~= before.push(scroll_page(sel)));
    }
    assert(pages@.map_values(|p: Page| p@) =~= plan_pages(sel));
    if pages.len() == 0 {
        return Err("表示する項目を選択してください。".to_string());
    }
    Ok(DisplayPlan { pages })
}

/// The number that two bytes write in hexadecimal, as `u8::from_str_radix` reads
/// them (an optional `'+'`, then hexadecimal digits).
pub open spec fn hex_pair(bytes: Seq<u8>) -> Option<nat> {
    match parse_number(bytes.map_values(|b: u8| b as char), 16, 255) {
        Ok(v) => Some(v),
        Err(_) => None,
    }
}

/// Whether byte `i` of `bytes` starts a character (or is the end).
pub open spec fn at_char_start(bytes: Seq<u8>, i: int) -> bool {
    i == bytes.len() || !(0x80 <= bytes[i] < 0xc0)
}

/// Reading a colour written `#` and six more bytes cuts those six bytes at 2
/// and 4, the second cut only once the first pair has been read as a number;
/// this holds where a cut would fall inside a character, which the reader does
/// not survive.
pub open spec fn color_cut_splits_char(color: Seq<u8>) -> bool {
    let rest = color.drop_first();
    &&& color.len() == 7
    &&& color[0] == 35
    &&& (!at_char_start(rest, 2) || (!at_char_start(rest, 4) && hex_pair(rest.subrange(0, 2)) is Some))
}

/// Building a scroll reads the colour of the scroll defaults once a font is at
/// hand; this holds where that read would split a character.
pub open spec fn scroll_splits_char(defaults: Option<ScrollDefaultsModel>, font: Option<FontModel>) -> bool {
    match defaults {
        Some(d) => font is Some && color_cut_splits_char(d.color),
        None => false,
    }
}

pub open spec fn defaults_of(profile: Profile) -> Option<ScrollDefaultsModel> {
    match profile.scroll_defaults {
        Some(d) => Some(d@),
        None => None,
    }
}

/// The scroll of `text` in `region` with the profile's scroll defaults and `font`,
/// or the first thing that stands in its way.
pub open spec fn scroll_result(
    defaults: Option<ScrollDefaultsModel>,
    font: Option<FontModel>,
    text: Seq<char>,
    region: Region,
) -> Result<ScrollModel, Seq<char>> {
    match defaults {
        None => Err("scroll_defaultsがありません"@),
        Some(d) => {
            let c = d.color;
            if !(c.len() >= 1 && c[0] == 35) || c.len() - 1 != 6 {
                Err("色は#RRGGBBで指定してください"@)
            } else {
                let rest = c.drop_first();
                match font {
                    None => Err("スクロールフォントを読み込めません"@),
                    Some(f) => match (
                        hex_pair(rest.subrange(0, 2)),
                        hex_pair(rest.subrange(2, 4)),
                        hex_pair(rest.subrange(4, 6)),
                    ) {
                        (Some(r), Some(g), Some(b)) => Ok(
                            ScrollModel {
                                region,
                                text,
                                font: f,
                                color: [r as u8, g as u8, b as u8],
                                speed_px_per_second: d.speed_px_per_second,
                                start_padding: d.start_padding,
                                end_padding: d.end_padding,
                                repeat: false,
                            },
                        ),
                        _ => Err("色が不正です"@),
                    },
                }
            }
        },
    }
}

pub open spec fn owned_font_view(font: Option<Arc<BdfFont>>) -> Option<FontModel> {
    match font {
        Some(f) => Some((*f)@),
        None => None,
    }
}

pub open spec fn font_view(font: Option<&Arc<BdfFont>>) -> Option<FontModel> {
    match font {
        Some(f) => Some((**f)@),
        None => None,
    }
}

/// Reads the byte pair `bytes[at..at + 2]` as hexadecimal.
fn hex_byte(bytes: &[u8], at: usize) -> (r: Option<u8>)
    requires
        at + 2 <= bytes@.len(),
    ensures
        match hex_pair(bytes@.subrange(at as int, at + 2)) {
            Some(v) => r == Some(v as u8),
            None => r is None,
        },
{
    let mut cs: Vec<char> = Vec::new();
    cs.push(bytes[at] as char);
    cs.push(bytes[at + 1] as char);
    assert(cs@ =~= bytes@.subrange(at as int, at + 2).map_values(|b: u8| b as char));
    assert(cs@.subrange(0, 2) =~= cs@);
    match parse_number_in(cs.as_slice(), 0, 2, 16, 255) {
        Ok(v) => Some(v as u8),
        Err(_) => None,
    }
}

/// The scroll of `text` in `region`, coloured and paced by the profile's scroll
/// defaults and drawn in `font`.
pub(crate) fn scroll_spec(
    profile: &Profile,
    font: Option<&Arc<BdfFont>>,
    text: String,
    region: Region,
) -> (r: Result<ScrollSpec, String>)
    requires
        !scroll_splits_char(defaults_of(*profile), font_view(font)),
    ensures
        match scroll_result(defaults_of(*profile), font_view(font), text@, region) {
            Ok(m) => r matches Ok(s) && s@ == m,
            Err(e) => r matches Err(x) && x@ == e,
        },
{
    let defaults = match &profile.scroll_defaults {
        Some(d) => d,
        None => {
            return Err("scroll_defaultsがありません".to_string());
        },
    };
    let bytes = defaults.color.as_str().as_bytes();
    if bytes.len() < 1 || bytes[0] != 35 || bytes.len() - 1 != 6 {
        return Err("色は#RRGGBBで指定してください".to_string());
    }
    let ghost rest = bytes@.drop_first();
    assert(rest.subrange(0, 2) =~= bytes@.subrange(1, 3));
    assert(rest.subrange(2, 4) =~= bytes@.subrange(3, 5));
    assert(rest.subrange(4, 6) =~= bytes@.subrange(5, 7));
    let font = match font {
        Some(f) => f,
        None => {
            return Err("スクロールフォントを読み込めません".to_string());
        },
    };
    let red = hex_byte(bytes, 1);
    let green = hex_byte(bytes, 3);
    let blue = hex_byte(bytes, 5);
    match (red, green, blue) {
        (Some(r), Some(g), Some(b)) => Ok(
            ScrollSpec {
                region,
                text,
                font: share_font(font),
                color: [r, g, b],
                speed_px_per_second: defaults.speed_px_per_second,
                start_padding: defaults.start_padding,
                end_padding: defaults.end_padding,
                repeat: false,
            },
        ),
        _ => Err("色が不正です".to_string()),
    }
}

/// The first asset group of `field` from position `from` on.
pub open spec fn find_group(groups: Seq<AssetGroup>, field: FieldName, from: int) -> Option<
    AssetGroup,
>
    decreases groups.len() - from,
{
    if from < 0 || from >= groups.len() {
        None
    } else if groups[from].field == field {
        Some(groups[from])
    } else {
        find_group(groups, field, from + 1)
    }
}

/// The first directory list of `slot` from position `from` on.
pub open spec fn find_slot(slots: Seq<SlotDirectories>, slot: Slot, from: int) -> Option<
    SlotDirectories,
>
    decreases slots.len() - from,
{
    if from < 0 || from >= slots.len() {
        None
    } else if slots[from].slot == slot {
        Some(slots[from])
    } else {
        find_slot(slots, slot, from + 1)
    }
}

/// The image of `id` in the first of `dirs[from..]` where it loaded with the
/// size of `region`.
pub open spec fn first_fit(
    dirs: Seq<String>,
    assets: LoadedAssets,
    id: Seq<char>,
    region: Region,
    from: int,
) -> Option<ImageModel>
    decreases dirs.len() - from,
{
    if from < 0 || from >= dirs.len() {
        None
    } else {
        match lookup(assets, dirs[from]@, id) {
            Some(Ok(img)) => if img.width == region.width && img.height == region.height {
                Some(img)
            } else {
                first_fit(dirs, assets, id, region, from + 1)
            },
            _ => first_fit(dirs, assets, id, region, from + 1),
        }
    }
}

pub open spec fn missing_group_text(group: FieldName) -> Seq<char> {
    field_name(group) + " の素材設定がありません"@
}

pub open spec fn missing_slot_text(group: FieldName, slot: Slot) -> Seq<char> {
    field_name(group) + " に "@ + slot_name(slot) + " 用素材設定がありません"@
}

pub open spec fn undrawable_text(group: FieldName) -> Seq<char> {
    field_name(group) + " の素材を表示できません"@
}

/// Copying the asset of a field into its slot: the asset is looked up in the
/// directories configured for the field and slot, in order, and the first image
/// that loaded with the slot's size is copied. `Ok(false)` where the field is no
/// asset or no directory has a fitting image.
pub open spec fn blit_field(
    config: E233Config,
    assets: LoadedAssets,
    group: FieldName,
    value: FieldModel,
    slot: Slot,
    frame: FrameModel,
) -> Result<(bool, FrameModel), Seq<char>> {
    let region = slot_region(slot);
    match value {
        FieldModel::Asset(id) => match find_group(config.assets@, group, 0) {
            None => Err(missing_group_text(group)),
            Some(g) => match find_slot(g.slots@, slot, 0) {
                None => Err(missing_slot_text(group, slot)),
                Some(sd) => match first_fit(sd.directories@, assets, id, region, 0) {
                    None => Ok((false, frame)),
                    Some(img) => match blit_result(
                        frame,
                        region.x as int,
                        region.y as int,
                        img.width as int,
                        img.height as int,
                        img.pixels,
                    ) {
                        Ok(f) => Ok((true, f)),
                        Err(e) => Err(frame_error_text(e)),
                    },
                },
            },
        },
        _ => Ok((false, frame)),
    }
}

/// Drawing a content into a slot: a shown field must be copied in, anything
/// else leaves the frame as it is.
pub open spec fn draw_content_result(
    config: E233Config,
    assets: LoadedAssets,
    content: ContentModel,
    slot: Slot,
    frame: FrameModel,
) -> Result<FrameModel, Seq<char>> {
    match content {
        ContentModel::Field(group, value) => if shown(value) {
            match blit_field(config, assets, group, value, slot, frame) {
                Err(e) => Err(e),
                Ok((done, f)) => if done {
                    Ok(f)
                } else {
                    Err(undrawable_text(group))
                },
            }
        } else {
            Ok(frame)
        },
        _ => Ok(frame),
    }
}

/// The lower content of a split page: a scroll, or content drawn into `slot`.
pub open spec fn bottom_result(
    profile: Profile,
    config: E233Config,
    assets: LoadedAssets,
    font: Option<FontModel>,
    content: ContentModel,
    slot: Slot,
    frame: FrameModel,
) -> Result<(FrameModel, Option<ScrollModel>), Seq<char>> {
    match content {
        ContentModel::Scroll(text) => match scroll_result(
            defaults_of(profile),
            font,
            text,
            slot_region(slot),
        ) {
            Ok(sc) => Ok((frame, Some(sc))),
            Err(e) => Err(e),
        },
        other => match draw_content_result(config, assets, other, slot, frame) {
            Ok(f) => Ok((f, None)),
            Err(e) => Err(e),
        },
    }
}

/// The frame (and scroll) of one page, drawn on a black frame the size of the canvas.
pub open spec fn render_result(
    profile: Profile,
    config: E233Config,
    assets: LoadedAssets,
    font: Option<FontModel>,
    layout: LayoutModel,
) -> Result<(FrameModel, Option<ScrollModel>), Seq<char>> {
    let f0 = black_frame(profile.profile.canvas_width, profile.profile.canvas_height);
    match layout {
        LayoutModel::Full(content) => match content {
            ContentModel::Field(FieldName::Service, value) => match blit_field(
                config,
                assets,
                FieldName::Service,
                value,
                Slot::Full,
                f0,
            ) {
                Err(e) => Err(e),
                Ok((done, f)) => if done {
                    Ok((f, None))
                } else {
                    match blit_field(config, assets, FieldName::Service, value, Slot::Left, f0) {
                        Err(e) => Err(e),
                        Ok((done2, f2)) => if done2 {
                            Ok((f2, None))
                        } else {
                            Err("種別素材は128x32または48x32で配置してください。"@)
                        },
                    }
                },
            },
            other => match draw_content_result(config, assets, other, Slot::Full, f0) {
                Ok(f) => Ok((f, None)),
                Err(e) => Err(e),
            },
        },
        LayoutModel::ServiceAndRight(service, right) => match draw_content_result(
            config,
            assets,
            service,
            Slot::Left,
            f0,
        ) {
            Err(e) => Err(e),
            Ok(f1) => match draw_content_result(config, assets, right, Slot::Right, f1) {
                Err(e) => Err(e),
                Ok(f2) => Ok((f2, None)),
            },
        },
        LayoutModel::ServiceAndRightSplit(service, top, bottom) => match draw_content_result(
            config,
            assets,
            service,
            Slot::Left,
            f0,
        ) {
            Err(e) => Err(e),
            Ok(f1) => match draw_content_result(config, assets, top, Slot::RightTop, f1) {
                Err(e) => Err(e),
                Ok(f2) => bottom_result(profile, config, assets, font, bottom, Slot::RightBottom, f2),
            },
        },
        LayoutModel::FullWidthSplit(top, bottom) => match draw_content_result(
            config,
            assets,
            top,
            Slot::FullTop,
            f0,
        ) {
            Err(e) => Err(e),
            Ok(f1) => bottom_result(profile, config, assets, font, bottom, Slot::FullBottom, f1),
        },
    }
}

/// The two actions of a page: show it, then wait.
pub open spec fn page_actions(
    config: E233Config,
    frame: FrameModel,
    scroll: Option<ScrollModel>,
    duration: PageDuration,
) -> Seq<ActionModel> {
    seq![
        ActionModel::Present { frame, scroll },
        match duration {
            PageDuration::Fixed(_) => ActionModel::Wait(config.page_time),
            PageDuration::UntilScrollEnd => ActionModel::WaitScrollEnd,
        },
    ]
}

/// The actions of all pages, or the error of the first page that fails.
pub open spec fn render_all(
    profile: Profile,
    config: E233Config,
    assets: LoadedAssets,
    font: Option<FontModel>,
    pages: Seq<PageModel>,
) -> Result<Seq<ActionModel>, Seq<char>>
    decreases pages.len(),
{
    if pages.len() == 0 {
        Ok(seq![])
    } else {
        match render_all(profile, config, assets, font, pages.drop_last()) {
            Err(e) => Err(e),
            Ok(acts) => match render_result(profile, config, assets, font, pages.last().layout) {
                Err(e) => Err(e),
                Ok((f, sc)) => Ok(acts + page_actions(config, f, sc, pages.last().duration)),
            },
        }
    }
}

pub open spec fn font_result_view(font: Option<Result<Arc<BdfFont>, String>>) -> Option<
    Result<FontModel, Seq<char>>,
> {
    match font {
        Some(Ok(f)) => Some(Ok((*f)@)),
        Some(Err(e)) => Some(Err(e@)),
        None => None,
    }
}

/// What compiling a selection gives: the plan's error, a missing E233 section,
/// the font's error where there is scroll text, the first page that cannot be
/// drawn, or the script that shows the pages over and over.
pub open spec fn compile_result(
    profile: Profile,
    assets: LoadedAssets,
    sel: SelectionModel,
    font: Option<Result<FontModel, Seq<char>>>,
) -> Result<RunnerModel, Seq<char>> {
    match plan_error(sel) {
        Some(e) => Err(e),
        None => match profile.e233 {
            None => Err("E233設定がありません"@),
            Some(config) => {
                let used: Result<Option<FontModel>, Seq<char>> = if !has_scroll(sel) {
                    Ok(None)
                } else {
                    match font {
                        Some(Ok(f)) => Ok(Some(f)),
                        Some(Err(e)) => Err(e),
                        None => Ok(None),
                    }
                };
                match used {
                    Err(e) => Err(e),
                    Ok(fo) => match render_all(profile, config, assets, fo, plan_pages(sel)) {
                        Err(e) => Err(e),
                        Ok(acts) => Ok(
                            RunnerModel {
                                width: profile.profile.canvas_width,
                                height: profile.profile.canvas_height,
                                first: seq![],
                                cycle: Some(acts),
                            },
                        ),
                    },
                }
            },
        },
    }
}

pub proof fn lemma_render_error_stays(
    profile: Profile,
    config: E233Config,
    assets: LoadedAssets,
    font: Option<FontModel>,
    pages: Seq<PageModel>,
    k: int,
)
    requires
        0 <= k <= pages.len(),
        render_all(profile, config, assets, font, pages.take(k)) is Err,
    ensures
        render_all(profile, config, assets, font, pages) == render_all(
            profile,
            config,
            assets,
            font,
            pages.take(k),
        ),
    decreases pages.len(),
{
    if k == pages.len() {
        assert(pages.take(k) =~= pages);
    } else {
        assert(pages.drop_last().take(k) =~= pages.take(k));
        lemma_render_error_stays(profile, config, assets, font, pages.drop_last(), k);
    }
}

/// Drawing a page builds its scroll, and the scroll's colour would split a
/// character (see [`scroll_splits_char`]): the page is split, its scroll is
/// the lower half, and what is drawn before it could be drawn.
pub open spec fn render_splits_char(
    profile: Profile,
    config: E233Config,
    assets: LoadedAssets,
    font: Option<FontModel>,
    layout: LayoutModel,
) -> bool {
    let f0 = black_frame(profile.profile.canvas_width, profile.profile.canvas_height);
    let splits = scroll_splits_char(defaults_of(profile), font);
    match layout {
        LayoutModel::ServiceAndRightSplit(service, top, bottom) => {
            &&& bottom is Scroll
            &&& splits
            &&& draw_content_result(config, assets, service, Slot::Left, f0) matches Ok(f1)
                && draw_content_result(config, assets, top, Slot::RightTop, f1) is Ok
        },
        LayoutModel::FullWidthSplit(top, bottom) => {
            &&& bottom is Scroll
            &&& splits
            &&& draw_content_result(config, assets, top, Slot::FullTop, f0) is Ok
        },
        _ => false,
    }
}

/// Some page, reached after all pages before it were drawn, would split a
/// character when its scroll is built.
pub open spec fn pages_split_char(
    profile: Profile,
    config: E233Config,
    assets: LoadedAssets,
    font: Option<FontModel>,
    pages: Seq<PageModel>,
) -> bool
    decreases pages.len(),
{
    if pages.len() == 0 {
        false
    } else {
        pages_split_char(profile, config, assets, font, pages.drop_last()) || (render_all(
            profile,
            config,
            assets,
            font,
            pages.drop_last(),
        ) is Ok && render_splits_char(profile, config, assets, font, pages.last().layout))
    }
}

/// Compiling the selection would reach a scroll whose colour splits a character.
pub open spec fn compile_splits_char(
    profile: Profile,
    assets: LoadedAssets,
    sel: SelectionModel,
    font: Option<Result<FontModel, Seq<char>>>,
) -> bool {
    &&& plan_error(sel) is None
    &&& has_scroll(sel)
    &&& profile.e233 matches Some(config)
    &&& font matches Some(Ok(f))
    &&& pages_split_char(profile, config, assets, Some(f), plan_pages(sel))
}

proof fn lemma_no_font_no_split(
    profile: Profile,
    config: E233Config,
    assets: LoadedAssets,
    pages: Seq<PageModel>,
)
    ensures
        !pages_split_char(profile, config, assets, None, pages),
    decreases pages.len(),
{
    if pages.len() > 0 {
        lemma_no_font_no_split(profile, config, assets, pages.drop_last());
    }
}

proof fn lemma_split_prefix(
    profile: Profile,
    config: E233Config,
    assets: LoadedAssets,
    font: Option<FontModel>,
    pages: Seq<PageModel>,
    k: int,
)
    requires
        0 <= k <= pages.len(),
        pages_split_char(profile, config, assets, font, pages.take(k)),
    ensures
        pages_split_char(profile, config, assets, font, pages),
    decreases pages.len(),
{
    if k == pages.len() {
        assert(pages.take(k) =~= pages);
    } else {
        assert(pages.drop_last().take(k) =~= pages.take(k));
        lemma_split_prefix(profile, config, assets, font, pages.drop_last(), k);
    }
}

fn group_for<'a>(config: &'a E233Config, field: FieldName) -> (r: Option<&'a AssetGroup>)
    ensures
        match find_group(config.assets@, field, 0) {
            Some(g) => r == Some(&g),
            None => r is None,
        },
{
    let mut i: usize = 0;
    while i < config.assets.len()
        invariant
            i <= config.assets@.len(),
            find_group(config.assets@, field, 0) == find_group(config.assets@, field, i as int),
        decreases config.assets@.len() - i,
    {
        if config.assets[i].field == field {
            return Some(&config.assets[i]);
        }
        i += 1;
    }
    None
}

fn slot_for<'a>(group: &'a AssetGroup, slot: Slot) -> (r: Option<&'a SlotDirectories>)
    ensures
        match find_slot(group.slots@, slot, 0) {
            Some(s) => r == Some(&s),
            None => r is None,
        },
{
    let mut i: usize = 0;
    while i < group.slots.len()
        invariant
            i <= group.slots@.len(),
            find_slot(group.slots@, slot, 0) == find_slot(group.slots@, slot, i as int),
        decreases group.slots@.len() - i,
    {
        if group.slots[i].slot == slot {
            return Some(&group.slots[i]);
        }
        i += 1;
    }
    None
}

/// Copies the asset of a field into its slot (see [`blit_field`]).
fn blit(
    config: &E233Config,
    assets: &LoadedAssets,
    group: FieldName,
    value: &FieldSelection,
    slot: Slot,
    frame: &mut RgbFrame,
) -> (r: Result<bool, String>)
    requires
        old(frame).well_formed(),
    ensures
        final(frame).well_formed(),
        match blit_field(*config, *assets, group, value@, slot, old(frame)@) {
            Ok((done, f)) => r == Ok::<bool, String>(done) && final(frame)@ == f,
            Err(e) => r matches Err(x) && x@ == e,
        },
{
    let id = match value {
        FieldSelection::Asset(id) => id,
        _ => {
            return Ok(false);
        },
    };
    let group_config = match group_for(config, group) {
        Some(g) => g,
        None => {
            let mut msg = String::from_str(group.as_str());
            msg.append(" の素材設定がありません");
            return Err(msg);
        },
    };
    let directories = match slot_for(group_config, slot) {
        Some(d) => d,
        None => {
            let mut msg = String::from_str(group.as_str());
            msg.append(" に ");
            msg.append(slot.as_str());
            msg.append(" 用素材設定がありません");
            return Err(msg);
        },
    };
    let region = slot.region();
    let dirs = &directories.directories;
    let mut i: usize = 0;
    while i < dirs.len()
        invariant
            i <= dirs@.len(),
            region == slot_region(slot),
            first_fit(dirs@, *assets, id@, region, 0) == first_fit(dirs@, *assets, id@, region, i as int),
            frame@ == old(frame)@,
            frame.well_formed(),
            value@ == FieldModel::Asset(id@),
            find_group(config.assets@, group, 0) == Some(*group_config),
            find_slot(group_config.slots@, slot, 0) == Some(*directories),
            dirs == &directories.directories,
        decreases dirs@.len() - i,
    {
        match assets.get(&dirs[i], id) {
            Some(Ok(img)) => {
                if img.width == region.width && img.height == region.height {
                    assert(first_fit(dirs@, *assets, id@, region, i as int) == Some(img@));
                    assert(region.x <= 48 && region.y <= 16);
                    assert((region.x as isize) as int == region.x as int);
                    assert((region.y as isize) as int == region.y as int);
                    let done = frame.blit_rgb(
                        region.x as isize,
                        region.y as isize,
                        img.width,
                        img.height,
                        img.pixels.as_slice(),
                    );
                    match done {
                        Ok(()) => {
                            return Ok(true);
                        },
                        Err(e) => {
                            return Err(e.message());
                        },
                    }
                }
            },
            _ => {},
        }
        i += 1;
    }
    Ok(false)
}

/// Draws a content into a slot (see [`draw_content_result`]).
fn draw_content(
    config: &E233Config,
    assets: &LoadedAssets,
    content: &Content,
    slot: Slot,
    frame: &mut RgbFrame,
) -> (r: Result<(), String>)
    requires
        old(frame).well_formed(),
    ensures
        final(frame).well_formed(),
        match draw_content_result(*config, *assets, content@, slot, old(frame)@) {
            Ok(f) => r is Ok && final(frame)@ == f,
            Err(e) => r matches Err(x) && x@ == e,
        },
{
    if let Content::Field(group, value) = content {
        if value.participates() {
            let done = blit(config, assets, *group, value, slot, frame)?;
            if !done {
                let mut msg = String::from_str(group.as_str());
                msg.append(" の素材を表示できません");
                return Err(msg);
            }
        }
    }
    Ok(())
}

/// The lower content of a split page (see [`bottom_result`]).
fn draw_bottom(
    profile: &Profile,
    config: &E233Config,
    assets: &LoadedAssets,
    font: Option<&Arc<BdfFont>>,
    content: &Content,
    slot: Slot,
    frame: &mut RgbFrame,
) -> (r: Result<Option<ScrollSpec>, String>)
    requires
        old(frame).well_formed(),
        content@ is Scroll ==> !scroll_splits_char(defaults_of(*profile), font_view(font)),
    ensures
        final(frame).well_formed(),
        match bottom_result(*profile, *config, *assets, font_view(font), content@, slot, old(frame)@) {
            Ok((f, sc)) => r matches Ok(x) && final(frame)@ == f && scroll_view(x) == sc,
            Err(e) => r matches Err(x) && x@ == e,
        },
{
    match content {
        Content::Scroll(text) => {
            let sc = scroll_spec(profile, font, text.clone(), slot.region())?;
            Ok(Some(sc))
        },
        other => {
            draw_content(config, assets, other, slot, frame)?;
            Ok(None)
        },
    }
}

/// Draws one page (see [`render_result`]).
fn render(
    profile: &Profile,
    config: &E233Config,
    assets: &LoadedAssets,
    font: Option<&Arc<BdfFont>>,
    layout: &Layout,
) -> (r: Result<(RgbFrame, Option<ScrollSpec>), String>)
    requires
        !render_splits_char(*profile, *config, *assets, font_view(font), layout@),
    ensures
        match render_result(*profile, *config, *assets, font_view(font), layout@) {
            Ok((f, sc)) => r matches Ok(x) && x.0@ == f && scroll_view(x.1) == sc,
            Err(e) => r matches Err(x) && x@ == e,
        },
{
    let mut frame = RgbFrame::black(profile.profile.canvas_width, profile.profile.canvas_height);
    let mut scroll: Option<ScrollSpec> = None;
    match layout {
        Layout::Full(content) => {
            match content {
                Content::Field(FieldName::Service, value) => {
                    if !blit(config, assets, FieldName::Service, value, Slot::Full, &mut frame)? {
                        if !blit(config, assets, FieldName::Service, value, Slot::Left, &mut frame)? {
                            return Err(
                                "種別素材は128x32または48x32で配置してください。".to_string(),
                            );
                        }
                    }
                },
                _ => {
                    draw_content(config, assets, content, Slot::Full, &mut frame)?;
                },
            }
        },
        Layout::ServiceAndRight(service, right) => {
            draw_content(config, assets, service, Slot::Left, &mut frame)?;
            draw_content(config, assets, right, Slot::Right, &mut frame)?;
        },
        Layout::ServiceAndRightSplit(service, top, bottom) => {
            draw_content(config, assets, service, Slot::Left, &mut frame)?;
            draw_content(config, assets, top, Slot::RightTop, &mut frame)?;
            scroll = draw_bottom(profile, config, assets, font, bottom, Slot::RightBottom, &mut frame)?;
        },
        Layout::FullWidthSplit(top, bottom) => {
            draw_content(config, assets, top, Slot::FullTop, &mut frame)?;
            scroll = draw_bottom(profile, config, assets, font, bottom, Slot::FullBottom, &mut frame)?;
        },
    }
    Ok((frame, scroll))
}

/// The actions of all pages (see [`render_all`]).
fn compile_pages(
    profile: &Profile,
    config: &E233Config,
    assets: &LoadedAssets,
    font: Option<&Arc<BdfFont>>,
    pages: &Vec<Page>,
) -> (r: Result<Vec<ScriptAction>, String>)
    requires
        profile.e233 == Some(*config),
        !pages_split_char(*profile, *config, *assets, font_view(font), pages@.map_values(|p: Page| p@)),
    ensures
        match render_all(*profile, *config, *assets, font_view(font), pages@.map_values(|p: Page| p@)) {
            Ok(acts) => r matches Ok(x) && actions_view(x@) == acts,
            Err(e) => r matches Err(x) && x@ == e,
        },
{
    let ghost all = pages@.map_values(|p: Page| p@);
    let ghost fo = font_view(font);
    let mut actions: Vec<ScriptAction> = Vec::new();
    assert(all.take(0) =~= Seq::<PageModel>::empty());
    assert(actions_view(actions@) =~= Seq::<ActionModel>::empty());
    let mut i: usize = 0;
    while i < pages.len()
        invariant
            i <= pages@.len(),
            all == pages@.map_values(|p: Page| p@),
            fo == font_view(font),
            !pages_split_char(*profile, *config, *assets, fo, all),
            render_all(*profile, *config, *assets, fo, all.take(i as int)) == Ok::<
                Seq<ActionModel>,
                Seq<char>,
            >(actions_view(actions@)),
        decreases pages@.len() - i,
    {
        let page = &pages[i];
        let ghost before = actions_view(actions@);
        assert(all.take(i + 1).drop_last() =~= all.take(i as int));
        assert(all.take(i + 1).last() == page@);
        proof {
            if render_splits_char(*profile, *config, *assets, fo, page.layout@) {
                lemma_split_prefix(*profile, *config, *assets, fo, all, i + 1);
            }
        }
        match render(profile, config, assets, font, &page.layout) {
            Ok((frame, scroll)) => {
                let ghost fm = frame@;
                let ghost sm = scroll_view(scroll);
                actions.push(ScriptAction::Present { frame, scroll });
                match page.duration {
                    PageDuration::Fixed(_) => actions.push(ScriptAction::Wait(config.page_time)),
                    PageDuration::UntilScrollEnd => actions.push(ScriptAction::WaitScrollEnd),
                }
                assert(actions_view(actions@) =~= before + page_actions(*config, fm, sm, page.duration));
            },
            Err(e) => {
                proof {
                    lemma_render_error_stays(*profile, *config, *assets, fo, all, i + 1);
                }
                return Err(e);
            },
        }
        i += 1;
    }
    assert(all.take(all.len() as int) =~= all);
    Ok(actions)
}

/// Turns a selection into the script that plays its pages.
///
/// The selection is planned first; then each page is drawn on a black frame the
/// size of the canvas, its assets chosen by ID from the directories the profile
/// declares for the field and slot, in the declared order, and the first image
/// that loaded with the slot's size is used. Static pages wait the profile's
/// page time; a scroll page waits for its scroll. The script repeats.
///
/// `assets` holds what loading each asset the compilation may need gave (see
/// [`asset_requests`]); an asset not there counts as one that did not load.
/// `font` is what loading the profile's scroll font gave, where it was loaded;
/// it is only used where the selection has scroll text.
pub fn compile(
    profile: &Profile,
    assets: &LoadedAssets,
    selection: &DisplaySelection,
    font: Option<Result<Arc<BdfFont>, String>>,
) -> (r: Result<ScriptRunner, String>)
    requires
        !compile_splits_char(*profile, *assets, selection@, font_result_view(font)),
    ensures
        match compile_result(*profile, *assets, selection@, font_result_view(font)) {
            Ok(m) => r matches Ok(x) && x@ == m,
            Err(e) => r matches Err(x) && x@ == e,
        },
{
    let plan = plan(selection)?;
    let config = match &profile.e233 {
        Some(c) => c,
        None => {
            return Err("E233設定がありません".to_string());
        },
    };
    let chars = chars_of(selection.scroll_text.as_str());
    let (from, to) = trim_bounds(chars.as_slice());
    let ghost font_arg = font;
    let font: Option<Arc<BdfFont>> = if from >= to {
        None
    } else {
        match font {
            Some(Ok(f)) => Some(f),
            Some(Err(e)) => {
                return Err(e);
            },
            None => None,
        }
    };
    let ghost fo = owned_font_view(font);
    let font_ref = font.as_ref();
    assert(font_view(font_ref) == fo);
    assert(plan@ == plan_pages(selection@));
    proof {
        if fo is None {
            lemma_no_font_no_split(*profile, *config, *assets, plan@);
        }
    }
    let actions = compile_pages(profile, config, assets, font_ref, &plan.pages)?;
    let first: Vec<ScriptAction> = Vec::new();
    assert(actions_view(first@) =~= Seq::<ActionModel>::empty());
    assert(fo == match font_result_view(font_arg) {
        Some(Ok(f)) => if has_scroll(selection@) { Some(f) } else { None },
        _ => None::<FontModel>,
    });
    Ok(
        ScriptRunner::new(
            profile.profile.canvas_width,
            profile.profile.canvas_height,
            first,
            Some(actions),
        ),
    )
}

/// The areas a page draws, in drawing order: each content with its slot. The
/// service alone over the whole board is tried in the full slot, then in the
/// left one.
pub open spec fn layout_draws(layout: LayoutModel) -> Seq<(ContentModel, Slot)> {
    match layout {
        LayoutModel::Full(c) => match c {
            ContentModel::Field(FieldName::Service, _) => seq![(c, Slot::Full), (c, Slot::Left)],
            _ => seq![(c, Slot::Full)],
        },
        LayoutModel::ServiceAndRight(sv, r) => seq![(sv, Slot::Left), (r, Slot::Right)],
        LayoutModel::ServiceAndRightSplit(sv, t, bt) => seq![
            (sv, Slot::Left),
            (t, Slot::RightTop),
            (bt, Slot::RightBottom),
        ],
        LayoutModel::FullWidthSplit(t, bt) => seq![(t, Slot::FullTop), (bt, Slot::FullBottom)],
    }
}

/// The (directory, ID) pairs that drawing a content into a slot may look up:
/// for a field showing an asset, the asset ID in each directory configured for
/// the field's group and the slot, in order.
pub open spec fn slot_requests(config: E233Config, content: ContentModel, slot: Slot) -> Seq<
    (Seq<char>, Seq<char>),
> {
    match content {
        ContentModel::Field(f, FieldModel::Asset(id)) => match find_group(config.assets@, f, 0) {
            Some(g) => match find_slot(g.slots@, slot, 0) {
                Some(sd) => sd.directories@.map_values(|d: String| (d@, id)),
                None => seq![],
            },
            None => seq![],
        },
        _ => seq![],
    }
}

/// The requests of some areas, in order.
pub open spec fn draws_requests(config: E233Config, draws: Seq<(ContentModel, Slot)>) -> Seq<
    (Seq<char>, Seq<char>),
>
    decreases draws.len(),
{
    if draws.len() == 0 {
        seq![]
    } else {
        draws_requests(config, draws.drop_last()) + slot_requests(
            config,
            draws.last().0,
            draws.last().1,
        )
    }
}

/// The requests of some pages, in order.
pub open spec fn pages_requests(config: E233Config, pages: Seq<PageModel>) -> Seq<
    (Seq<char>, Seq<char>),
>
    decreases pages.len(),
{
    if pages.len() == 0 {
        seq![]
    } else {
        pages_requests(config, pages.drop_last()) + draws_requests(
            config,
            layout_draws(pages.last().layout),
        )
    }
}

/// The (directory, ID) pairs to load before compiling a selection: those of the
/// areas its planned pages draw, page after page; none for a selection that
/// cannot be planned.
pub open spec fn requests(config: E233Config, sel: SelectionModel) -> Seq<(Seq<char>, Seq<char>)> {
    if plan_error(sel) is None {
        pages_requests(config, plan_pages(sel))
    } else {
        seq![]
    }
}

pub open spec fn pair_views(v: Seq<(String, String)>) -> Seq<(Seq<char>, Seq<char>)> {
    v.map_values(|p: (String, String)| (p.0@, p.1@))
}

/// Appends the requests of drawing `content` into `slot` (see [`slot_requests`]).
fn push_slot_requests(
    config: &E233Config,
    content: &Content,
    slot: Slot,
    out: &mut Vec<(String, String)>,
)
    ensures
        pair_views(final(out)@) == pair_views(old(out)@) + slot_requests(*config, content@, slot),
{
    let ghost start = pair_views(out@);
    let id = match content {
        Content::Field(f, FieldSelection::Asset(id)) => {
            match group_for(config, *f) {
                Some(g) => match slot_for(g, slot) {
                    Some(sd) => {
                        let dirs = &sd.directories;
                        let ghost want = slot_requests(*config, content@, slot);
                        assert(want == dirs@.map_values(|d: String| (d@, id@)));
                        let mut k: usize = 0;
                        assert(start =~= start + dirs@.take(0).map_values(|d: String| (d@, id@)));
                        while k < dirs.len()
                            invariant
                                k <= dirs@.len(),
                                pair_views(out@) == start + dirs@.take(k as int).map_values(
                                    |d: String| (d@, id@),
                                ),
                            decreases dirs@.len() - k,
                        {
                            let ghost before = pair_views(out@);
                            out.push((dirs[k].clone(), id.clone()));
                            assert(dirs@.take(k + 1) =~= dirs@.take(k as int).push(dirs@[k as int]));
                            assert(pair_views(out@) =~= before.push((dirs@[k as int]@, id@)));
                            assert(pair_views(out@) =~= start + dirs@.take(k + 1).map_values(
                                |d: String| (d@, id@),
                            ));
                            k += 1;
                        }
                        assert(dirs@.take(dirs@.len() as int) =~= dirs@);
                        return;
                    },
                    None => {},
                },
                None => {},
            }
        },
        _ => {},
    };
    assert(start + slot_requests(*config, content@, slot) =~= start);
}

/// Appends the requests of the areas a page layout draws (see [`layout_draws`]).
fn push_layout_requests(config: &E233Config, layout: &Layout, out: &mut Vec<(String, String)>)
    ensures
        pair_views(final(out)@) == pair_views(old(out)@) + draws_requests(
            *config,
            layout_draws(layout@),
        ),
{
    let ghost start = pair_views(out@);
    let ghost draws = layout_draws(layout@);
    match layout {
        Layout::Full(c) => {
            match c {
                Content::Field(FieldName::Service, _) => {
                    push_slot_requests(config, c, Slot::Full, out);
                    push_slot_requests(config, c, Slot::Left, out);
                    assert(draws.drop_last().drop_last() =~= Seq::<(ContentModel, Slot)>::empty());
                },
                _ => {
                    push_slot_requests(config, c, Slot::Full, out);
                    assert(draws.drop_last() =~= Seq::<(ContentModel, Slot)>::empty());
                },
            }
        },
        Layout::ServiceAndRight(sv, r) => {
            push_slot_requests(config, sv, Slot::Left, out);
            push_slot_requests(config, r, Slot::Right, out);
            assert(draws.drop_last().drop_last() =~= Seq::<(ContentModel, Slot)>::empty());
        },
        Layout::ServiceAndRightSplit(sv, t, bt) => {
            push_slot_requests(config, sv, Slot::Left, out);
            push_slot_requests(config, t, Slot::RightTop, out);
            push_slot_requests(config, bt, Slot::RightBottom, out);
            assert(draws.drop_last().drop_last().drop_last() =~= Seq::<(ContentModel, Slot)>::empty());
        },
        Layout::FullWidthSplit(t, bt) => {
            push_slot_requests(config, t, Slot::FullTop, out);
            push_slot_requests(config, bt, Slot::FullBottom, out);
            assert(draws.drop_last().drop_last() =~= Seq::<(ContentModel, Slot)>::empty());
        },
    }
    proof {
        reveal_with_fuel(draws_requests, 4);
    }
    assert(pair_views(out@) =~= start + draws_requests(*config, draws));
}

/// The (directory, ID) pairs whose images [`compile`] may look up for this
/// selection (see [`requests`]): for each area its planned pages draw, in
/// order, the field's asset ID in each directory configured for the field and
/// the area's slot. A selection that cannot be planned needs none.
pub fn asset_requests(config: &E233Config, selection: &DisplaySelection) -> (r: Vec<(String, String)>)
    ensures
        pair_views(r@) == requests(*config, selection@),
{
    let mut out: Vec<(String, String)> = Vec::new();
    assert(pair_views(out@) =~= Seq::<(Seq<char>, Seq<char>)>::empty());
    let plan = match plan(selection) {
        Ok(p) => p,
        Err(_) => {
            return out;
        },
    };
    let ghost pages = plan@;
    assert(pages.take(0) =~= Seq::<PageModel>::empty());
    let mut i: usize = 0;
    while i < plan.pages.len()
        invariant
            i <= pages.len(),
            pages == plan@,
            pages == plan.pages@.map_values(|p: Page| p@),
            pair_views(out@) == pages_requests(*config, pages.take(i as int)),
        decreases pages.len() - i,
    {
        assert(pages.take(i + 1).drop_last() =~= pages.take(i as int));
        assert(pages.take(i + 1).last() == plan.pages@[i as int]@);
        push_layout_requests(config, &plan.pages[i].layout, &mut out);
        i += 1;
    }
    assert(pages.take(pages.len() as int) =~= pages);
    out
}

/// A selection is accepted exactly when it breaks none of the board's rules:
/// no through-route name together with scroll text, no destination together with
/// a service change, scroll text only under a destination or a route name, a
/// service change only beside a service field (black counts), and something to show.
pub proof fn law_plan_accepts(sel: SelectionModel)
    ensures
        plan_error(sel) is None <==> {
            let s = shown(sel.service);
            let r = shown(sel.route);
            let c = shown(sel.service_change);
            let t = shown(sel.through_route);
            let d = shown(sel.destination);
            let m = has_scroll(sel);
            &&& !(t && m)
            &&& !(d && c)
            &&& !(m && !d && !r)
            &&& !(c && !s)
            &&& (s || r || c || t || d || m)
        },
{
}

/// The number of non-service fields that are shown.
pub open spec fn shown_count(sel: SelectionModel) -> nat {
    (if shown(sel.destination) { 1nat } else { 0nat }) + (if shown(sel.route) { 1nat } else { 0nat })
        + (if shown(sel.through_route) { 1nat } else { 0nat }) + (if shown(sel.service_change) {
        1nat
    } else {
        0nat
    })
}

/// A valid plan has one page per shown field besides the service (or one page
/// for the service alone where there is none), plus one scroll page where there
/// is scroll text; every page but a scroll page stays for three seconds, and the
/// scroll page comes last.
pub proof fn law_plan_pages(sel: SelectionModel)
    requires
        plan_error(sel) is None,
    ensures
        ({
            let ps = plan_pages(sel);
            let base: nat = if shown_count(sel) == 0 {
                1
            } else {
                shown_count(sel)
            };
            &&& ps.len() == base + if has_scroll(sel) {
                1nat
            } else {
                0nat
            }
            &&& forall|i: int|
                0 <= i < base ==> #[trigger] ps[i].duration == PageDuration::Fixed(static_time())
            &&& has_scroll(sel) ==> ps.last() == scroll_page(sel)
        }),
{
    let st = static_pages(sel);
    assert(st.len() == shown_count(sel));
    assert(forall|i: int| 0 <= i < st.len() ==> #[trigger] st[i].duration == PageDuration::Fixed(static_time()));
}

/// How a page of the given duration waits.
pub open spec fn wait_for(config: E233Config, duration: PageDuration) -> ActionModel {
    match duration {
        PageDuration::Fixed(_) => ActionModel::Wait(config.page_time),
        PageDuration::UntilScrollEnd => ActionModel::WaitScrollEnd,
    }
}

proof fn lemma_render_all_shape(
    profile: Profile,
    config: E233Config,
    assets: LoadedAssets,
    font: Option<FontModel>,
    pages: Seq<PageModel>,
)
    ensures
        render_all(profile, config, assets, font, pages) matches Ok(acts) ==> {
            &&& acts.len() == 2 * pages.len()
            &&& forall|i: int|
                0 <= i < pages.len() ==> {
                    &&& #[trigger] acts[2 * i] is Present
                    &&& acts[2 * i + 1] == wait_for(config, pages[i].duration)
                    &&& render_result(profile, config, assets, font, pages[i].layout) == Ok::<
                        (FrameModel, Option<ScrollModel>),
                        Seq<char>,
                    >((acts[2 * i]->frame, acts[2 * i]->scroll))
                }
        },
    decreases pages.len(),
{
    if pages.len() > 0 {
        lemma_render_all_shape(profile, config, assets, font, pages.drop_last());
        if let Ok(acts) = render_all(profile, config, assets, font, pages) {
            let prev = render_all(profile, config, assets, font, pages.drop_last())->Ok_0;
            assert forall|i: int| 0 <= i < pages.len() implies {
                &&& #[trigger] acts[2 * i] is Present
                &&& acts[2 * i + 1] == wait_for(config, pages[i].duration)
                &&& render_result(profile, config, assets, font, pages[i].layout) == Ok::<
                    (FrameModel, Option<ScrollModel>),
                    Seq<char>,
                >((acts[2 * i]->frame, acts[2 * i]->scroll))
            } by {
                if i < pages.len() - 1 {
                    assert(acts[2 * i] == prev[2 * i]);
                    assert(acts[2 * i + 1] == prev[2 * i + 1]);
                    assert(pages.drop_last()[i] == pages[i]);
                }
            }
        }
    }
}

/// A compiled selection plays its pages over and over, nothing before: each
/// page shows its frame, then waits the profile's page time, or for the scroll
/// on the scroll page; the frames are the size of the canvas.
pub proof fn law_compile_shape(
    profile: Profile,
    assets: LoadedAssets,
    sel: SelectionModel,
    font: Option<Result<FontModel, Seq<char>>>,
)
    requires
        compile_result(profile, assets, sel, font) is Ok,
    ensures
        ({
            let m = compile_result(profile, assets, sel, font)->Ok_0;
            let ps = plan_pages(sel);
            let config = profile.e233->Some_0;
            &&& plan_error(sel) is None
            &&& m.first.len() == 0
            &&& m.cycle is Some
            &&& m.cycle->Some_0.len() == 2 * ps.len()
            &&& forall|i: int|
                0 <= i < ps.len() ==> #[trigger] m.cycle->Some_0[2 * i] is Present
                    && m.cycle->Some_0[2 * i + 1] == wait_for(config, ps[i].duration)
        }),
{
    let config = profile.e233->Some_0;
    let used: Result<Option<FontModel>, Seq<char>> = if !has_scroll(sel) {
        Ok(None)
    } else {
        match font {
            Some(Ok(f)) => Ok(Some(f)),
            Some(Err(e)) => Err(e),
            None => Ok(None),
        }
    };
    lemma_render_all_shape(profile, config, assets, used->Ok_0, plan_pages(sel));
}

/// Drawing a shown field into a slot is copying its asset there: the copy's
/// error is the drawing's error, a field with no fitting image (or a black one)
/// cannot be drawn, and otherwise the frame gets the image.
pub proof fn law_draw_content_copies(
    config: E233Config,
    assets: LoadedAssets,
    group: FieldName,
    value: FieldModel,
    slot: Slot,
    frame: FrameModel,
)
    requires
        shown(value),
    ensures
        draw_content_result(config, assets, ContentModel::Field(group, value), slot, frame) == match blit_field(
            config,
            assets,
            group,
            value,
            slot,
            frame,
        ) {
            Ok((done, f)) => if done {
                Ok::<FrameModel, Seq<char>>(f)
            } else {
                Err(undrawable_text(group))
            },
            Err(e) => Err(e),
        },
        value is Blank ==> draw_content_result(config, assets, ContentModel::Field(group, value), slot, frame)
            == Err::<FrameModel, Seq<char>>(undrawable_text(group)),
{
}

/// Whether a page layout has no scroll area.
pub open spec fn static_layout(layout: LayoutModel) -> bool {
    match layout {
        LayoutModel::Full(_) => true,
        LayoutModel::ServiceAndRight(_, _) => true,
        LayoutModel::ServiceAndRightSplit(_, _, bottom) => bottom is Blank,
        LayoutModel::FullWidthSplit(_, _) => false,
    }
}

proof fn lemma_leading_static(sel: SelectionModel)
    ensures
        forall|i: int|
            0 <= i < leading_pages(sel).len() ==> static_layout(#[trigger] leading_pages(sel)[i].layout)
                && leading_pages(sel)[i].duration == PageDuration::Fixed(static_time()),
{
    let a = page_if_shown(sel, FieldName::Destination);
    let b = page_if_shown(sel, FieldName::Route);
    let c = page_if_shown(sel, FieldName::ThroughRoute);
    let d = page_if_shown(sel, FieldName::ServiceChange);
    let st = static_pages(sel);
    assert(st == a + b + c + d);
    assert forall|i: int| 0 <= i < st.len() implies static_layout(#[trigger] st[i].layout)
        && st[i].duration == PageDuration::Fixed(static_time()) by {
        if i < a.len() {
            assert(st[i] == a[i]);
        } else if i < a.len() + b.len() {
            assert(st[i] == b[i - a.len()]);
        } else if i < a.len() + b.len() + c.len() {
            assert(st[i] == c[i - a.len() - b.len()]);
        } else {
            assert(st[i] == d[i - a.len() - b.len() - c.len()]);
        }
    }
}

/// Where a compiled selection scrolls: exactly its last page, the scroll page,
/// which is there only for scroll text, carries a scroll, and that scroll is the
/// trimmed scroll text built with the profile's scroll defaults and the loaded
/// font in the lower right 80x16 beside a shown service, else in the lower
/// 128x16. Every other page shows no scroll.
pub proof fn law_compile_scrolls(
    profile: Profile,
    assets: LoadedAssets,
    sel: SelectionModel,
    font: Option<Result<FontModel, Seq<char>>>,
)
    requires
        compile_result(profile, assets, sel, font) is Ok,
    ensures
        ({
            let acts = compile_result(profile, assets, sel, font)->Ok_0.cycle->Some_0;
            let ps = plan_pages(sel);
            let fo = if has_scroll(sel) && font is Some {
                Some(font->Some_0->Ok_0)
            } else {
                None::<FontModel>
            };
            let slot = if shown(sel.service) {
                Slot::RightBottom
            } else {
                Slot::FullBottom
            };
            let sc = scroll_result(defaults_of(profile), fo, trim(sel.scroll_text), slot_region(slot));
            forall|i: int|
                0 <= i < ps.len() ==> {
                    &&& #[trigger] acts[2 * i] is Present
                    &&& (ps[i].duration == PageDuration::UntilScrollEnd <==> has_scroll(sel) && i
                        == ps.len() - 1)
                    &&& (acts[2 * i]->scroll is Some <==> ps[i].duration
                        == PageDuration::UntilScrollEnd)
                    &&& ps[i].duration == PageDuration::UntilScrollEnd ==> sc is Ok && acts[2
                        * i]->scroll == Some(sc->Ok_0)
                }
        }),
{
    let config = profile.e233->Some_0;
    let fo = if has_scroll(sel) && font is Some {
        Some(font->Some_0->Ok_0)
    } else {
        None::<FontModel>
    };
    let ps = plan_pages(sel);
    let lead = leading_pages(sel);
    assert(render_all(profile, config, assets, fo, ps) is Ok);
    lemma_render_all_shape(profile, config, assets, fo, ps);
    lemma_leading_static(sel);
    let acts = compile_result(profile, assets, sel, font)->Ok_0.cycle->Some_0;
    assert forall|i: int| 0 <= i < ps.len() implies (ps[i].duration == PageDuration::UntilScrollEnd
        <==> has_scroll(sel) && i == ps.len() - 1) && (acts[2 * i]->scroll is Some <==> ps[i].duration
        == PageDuration::UntilScrollEnd) by {
        assert(acts[2 * i] is Present);
        if i < lead.len() {
            assert(ps[i] == lead[i]);
            assert(static_layout(lead[i].layout));
        } else {
            assert(ps[i] == scroll_page(sel));
        }
    }
}

/// Every (directory, ID) that drawing an area of a planned page may look up
/// is among [`requests`]: the field's asset ID in each directory configured
/// for the field's group and the area's slot.
pub proof fn law_requests_cover(config: E233Config, sel: SelectionModel, i: int, k: int, j: int)
    requires
        plan_error(sel) is None,
        0 <= i < plan_pages(sel).len(),
        0 <= k < layout_draws(plan_pages(sel)[i].layout).len(),
        0 <= j < slot_requests(
            config,
            layout_draws(plan_pages(sel)[i].layout)[k].0,
            layout_draws(plan_pages(sel)[i].layout)[k].1,
        ).len(),
    ensures
        requests(config, sel).contains(
            slot_requests(
                config,
                layout_draws(plan_pages(sel)[i].layout)[k].0,
                layout_draws(plan_pages(sel)[i].layout)[k].1,
            )[j],
        ),
{
    let pages = plan_pages(sel);
    let draws = layout_draws(pages[i].layout);
    lemma_draws_contains(config, draws, k, j);
    let x = slot_requests(config, draws[k].0, draws[k].1)[j];
    let dr = draws_requests(config, draws);
    let t = choose|t: int| 0 <= t < dr.len() && dr[t] == x;
    lemma_pages_contains(config, pages, i, t);
}

proof fn lemma_draws_contains(config: E233Config, draws: Seq<(ContentModel, Slot)>, k: int, j: int)
    requires
        0 <= k < draws.len(),
        0 <= j < slot_requests(config, draws[k].0, draws[k].1).len(),
    ensures
        draws_requests(config, draws).contains(slot_requests(config, draws[k].0, draws[k].1)[j]),
    decreases draws.len(),
{
    let x = slot_requests(config, draws[k].0, draws[k].1)[j];
    let a = draws_requests(config, draws.drop_last());
    let b = slot_requests(config, draws.last().0, draws.last().1);
    assert(draws_requests(config, draws) == a + b);
    if k == draws.len() - 1 {
        assert((a + b)[a.len() + j] == x);
    } else {
        assert(draws.drop_last()[k] == draws[k]);
        lemma_draws_contains(config, draws.drop_last(), k, j);
        let t = choose|t: int| 0 <= t < a.len() && a[t] == x;
        assert((a + b)[t] == x);
    }
}

proof fn lemma_pages_contains(config: E233Config, pages: Seq<PageModel>, i: int, t: int)
    requires
        0 <= i < pages.len(),
        0 <= t < draws_requests(config, layout_draws(pages[i].layout)).len(),
    ensures
        pages_requests(config, pages).contains(draws_requests(config, layout_draws(pages[i].layout))[t]),
    decreases pages.len(),
{
    let x = draws_requests(config, layout_draws(pages[i].layout))[t];
    let a = pages_requests(config, pages.drop_last());
    let b = draws_requests(config, layout_draws(pages.last().layout));
    assert(pages_requests(config, pages) == a + b);
    if i == pages.len() - 1 {
        assert((a + b)[a.len() + t] == x);
    } else {
        assert(pages.drop_last()[i] == pages[i]);
        lemma_pages_contains(config, pages.drop_last(), i, t);
        let u = choose|u: int| 0 <= u < a.len() && a[u] == x;
        assert((a + b)[u] == x);
    }
}

/// The scroll page, last in a plan with scroll text, shows the trimmed scroll
/// text under the destination whenever the destination is shown, and under the
/// route name only where the destination is not shown (the route is shown
/// then); beside the service where the service is shown.
pub proof fn law_scroll_under_destination(sel: SelectionModel)
    requires
        plan_error(sel) is None,
        has_scroll(sel),
    ensures
        ({
            let last = plan_pages(sel).last();
            let scroll = ContentModel::Scroll(trim(sel.scroll_text));
            &&& last.duration == PageDuration::UntilScrollEnd
            &&& !shown(sel.destination) ==> shown(sel.route)
            &&& match last.layout {
                LayoutModel::ServiceAndRightSplit(sv, top, bottom) => {
                    &&& shown(sel.service)
                    &&& sv == ContentModel::Field(FieldName::Service, sel.service)
                    &&& bottom == scroll
                    &&& shown(sel.destination) ==> top == ContentModel::Field(
                        FieldName::Destination,
                        sel.destination,
                    )
                    &&& !shown(sel.destination) ==> top == ContentModel::Field(FieldName::Route, sel.route)
                },
                LayoutModel::FullWidthSplit(top, bottom) => {
                    &&& !shown(sel.service)
                    &&& bottom == scroll
                    &&& shown(sel.destination) ==> top == ContentModel::Field(
                        FieldName::Destination,
                        sel.destination,
                    )
                    &&& !shown(sel.destination) ==> top == ContentModel::Field(FieldName::Route, sel.route)
                },
                _ => false,
            }
        }),
{
}

/// The selection that shows the service field alone, with the asset `id`.
pub open spec fn service_alone(sel: SelectionModel, id: Seq<char>) -> bool {
    &&& sel.service == FieldModel::Asset(id)
    &&& sel.route is Off
    &&& sel.service_change is Off
    &&& sel.through_route is Off
    &&& sel.destination is Off
    &&& !has_scroll(sel)
}

proof fn lemma_service_alone_plan(sel: SelectionModel, id: Seq<char>)
    requires
        service_alone(sel, id),
    ensures
        plan_error(sel) is None,
        plan_pages(sel) == seq![
            PageModel {
                layout: LayoutModel::Full(ContentModel::Field(FieldName::Service, sel.service)),
                duration: PageDuration::Fixed(static_time()),
            },
        ],
{
    assert(static_pages(sel) =~= Seq::<PageModel>::empty());
}

/// A page showing the service alone uses the service's art for the whole
/// board where there is one: if the directories configured for the service's
/// full slot hold an image of the asset that is 128x32, the page's frame is the
/// black canvas with that image copied in at (0, 0), and the script plays that
/// page over and over, waiting the profile's page time.
pub proof fn law_service_alone_full_first(
    profile: Profile,
    assets: LoadedAssets,
    sel: SelectionModel,
    id: Seq<char>,
    font: Option<Result<FontModel, Seq<char>>>,
    g: AssetGroup,
    sd: SlotDirectories,
    img: ImageModel,
    frame: FrameModel,
)
    requires
        service_alone(sel, id),
        profile.e233 matches Some(config) && find_group(config.assets@, FieldName::Service, 0)
            == Some(g),
        find_slot(g.slots@, Slot::Full, 0) == Some(sd),
        first_fit(sd.directories@, assets, id, Region { x: 0, y: 0, width: 128, height: 32 }, 0)
            == Some(img),
        blit_result(
            black_frame(profile.profile.canvas_width, profile.profile.canvas_height),
            0,
            0,
            128,
            32,
            img.pixels,
        ) == Ok::<FrameModel, FrameError>(frame),
    ensures
        compile_result(profile, assets, sel, font) == Ok::<RunnerModel, Seq<char>>(
            RunnerModel {
                width: profile.profile.canvas_width,
                height: profile.profile.canvas_height,
                first: seq![],
                cycle: Some(
                    seq![
                        ActionModel::Present { frame, scroll: None },
                        ActionModel::Wait(profile.e233->Some_0.page_time),
                    ],
                ),
            },
        ),
{
    lemma_service_alone_plan(sel, id);
    lemma_first_fit_size(sd.directories@, assets, id, Region { x: 0, y: 0, width: 128, height: 32 }, 0);
    let config = profile.e233->Some_0;
    let f0 = black_frame(profile.profile.canvas_width, profile.profile.canvas_height);
    assert(slot_region(Slot::Full) == Region { x: 0, y: 0, width: 128, height: 32 });
    assert(blit_field(config, assets, FieldName::Service, sel.service, Slot::Full, f0) == Ok::<
        (bool, FrameModel),
        Seq<char>,
    >((true, frame)));
    let ps = plan_pages(sel);
    assert(render_result(profile, config, assets, None, ps[0].layout) == Ok::<
        (FrameModel, Option<ScrollModel>),
        Seq<char>,
    >((frame, None)));
    assert(ps.drop_last() =~= Seq::<PageModel>::empty());
    assert(render_all(profile, config, assets, None, ps.drop_last()) == Ok::<Seq<ActionModel>, Seq<char>>(seq![]));
    let acts = seq![
        ActionModel::Present { frame, scroll: None },
        ActionModel::Wait(profile.e233->Some_0.page_time),
    ];
    assert(Seq::<ActionModel>::empty() + acts =~= acts);
}

/// Where the service's full slot has no 128x32 image of the asset, a page
/// showing the service alone tries the left slot: if its directories hold a
/// 48x32 image of the asset, the frame is the black canvas with that image
/// copied in at (0, 0).
pub proof fn law_service_alone_left_fallback(
    profile: Profile,
    assets: LoadedAssets,
    sel: SelectionModel,
    id: Seq<char>,
    font: Option<Result<FontModel, Seq<char>>>,
    g: AssetGroup,
    full: SlotDirectories,
    left: SlotDirectories,
    img: ImageModel,
    frame: FrameModel,
)
    requires
        service_alone(sel, id),
        profile.e233 matches Some(config) && find_group(config.assets@, FieldName::Service, 0)
            == Some(g),
        find_slot(g.slots@, Slot::Full, 0) == Some(full),
        first_fit(full.directories@, assets, id, Region { x: 0, y: 0, width: 128, height: 32 }, 0) is None,
        find_slot(g.slots@, Slot::Left, 0) == Some(left),
        first_fit(left.directories@, assets, id, Region { x: 0, y: 0, width: 48, height: 32 }, 0)
            == Some(img),
        blit_result(
            black_frame(profile.profile.canvas_width, profile.profile.canvas_height),
            0,
            0,
            48,
            32,
            img.pixels,
        ) == Ok::<FrameModel, FrameError>(frame),
    ensures
        compile_result(profile, assets, sel, font) == Ok::<RunnerModel, Seq<char>>(
            RunnerModel {
                width: profile.profile.canvas_width,
                height: profile.profile.canvas_height,
                first: seq![],
                cycle: Some(
                    seq![
                        ActionModel::Present { frame, scroll: None },
                        ActionModel::Wait(profile.e233->Some_0.page_time),
                    ],
                ),
            },
        ),
{
    lemma_service_alone_plan(sel, id);
    lemma_first_fit_size(left.directories@, assets, id, Region { x: 0, y: 0, width: 48, height: 32 }, 0);
    let config = profile.e233->Some_0;
    let f0 = black_frame(profile.profile.canvas_width, profile.profile.canvas_height);
    assert(slot_region(Slot::Full) == Region { x: 0, y: 0, width: 128, height: 32 });
    assert(slot_region(Slot::Left) == Region { x: 0, y: 0, width: 48, height: 32 });
    assert(blit_field(config, assets, FieldName::Service, sel.service, Slot::Full, f0) == Ok::<
        (bool, FrameModel),
        Seq<char>,
    >((false, f0)));
    assert(blit_field(config, assets, FieldName::Service, sel.service, Slot::Left, f0) == Ok::<
        (bool, FrameModel),
        Seq<char>,
    >((true, frame)));
    let ps = plan_pages(sel);
    assert(render_result(profile, config, assets, None, ps[0].layout) == Ok::<
        (FrameModel, Option<ScrollModel>),
        Seq<char>,
    >((frame, None)));
    assert(ps.drop_last() =~= Seq::<PageModel>::empty());
    assert(render_all(profile, config, assets, None, ps.drop_last()) == Ok::<Seq<ActionModel>, Seq<char>>(seq![]));
    let acts = seq![
        ActionModel::Present { frame, scroll: None },
        ActionModel::Wait(profile.e233->Some_0.page_time),
    ];
    assert(Seq::<ActionModel>::empty() + acts =~= acts);
}

proof fn lemma_first_fit_size(
    dirs: Seq<String>,
    assets: LoadedAssets,
    id: Seq<char>,
    region: Region,
    from: int,
)
    ensures
        first_fit(dirs, assets, id, region, from) matches Some(img) ==> img.width == region.width
            && img.height == region.height,
    decreases dirs.len() - from,
{
    if 0 <= from < dirs.len() {
        lemma_first_fit_size(dirs, assets, id, region, from + 1);
    }
}

/// The non-service fields that are shown, in page order: destination, route,
/// through route, service change.
pub open spec fn shown_in_order(sel: SelectionModel) -> Seq<FieldName> {
    (if shown(sel.destination) { seq![FieldName::Destination] } else { seq![] }) + (if shown(sel.route) {
        seq![FieldName::Route]
    } else {
        seq![]
    }) + (if shown(sel.through_route) { seq![FieldName::ThroughRoute] } else { seq![] }) + (if shown(
        sel.service_change,
    ) {
        seq![FieldName::ServiceChange]
    } else {
        seq![]
    })
}

/// In a valid plan, the pages before any scroll page show the shown
/// non-service fields one each, in the order destination, route, through
/// route, service change: over the whole board without a shown service, else
/// on the right beside the service, the route in the upper right with the
/// lower right black. Where no such field is shown, the one page shows the
/// service over the whole board.
pub proof fn law_static_page_order(sel: SelectionModel)
    requires
        plan_error(sel) is None,
    ensures
        ({
            let ps = plan_pages(sel);
            let names = shown_in_order(sel);
            let service = ContentModel::Field(FieldName::Service, sel.service);
            &&& names.len() == 0 ==> ps[0] == PageModel {
                layout: LayoutModel::Full(service),
                duration: PageDuration::Fixed(Interval { secs: 3, nanos: 0 }),
            }
            &&& forall|k: int|
                0 <= k < names.len() ==> {
                    let content = ContentModel::Field(names[k], field_of(sel, names[k]));
                    &&& k < ps.len()
                    &&& #[trigger] ps[k].duration == PageDuration::Fixed(Interval { secs: 3, nanos: 0 })
                    &&& ps[k].layout == if !shown(sel.service) {
                        LayoutModel::Full(content)
                    } else if names[k] == FieldName::Route {
                        LayoutModel::ServiceAndRightSplit(service, content, ContentModel::Blank)
                    } else {
                        LayoutModel::ServiceAndRight(service, content)
                    }
                }
        }),
{
    let a = page_if_shown(sel, FieldName::Destination);
    let b = page_if_shown(sel, FieldName::Route);
    let c = page_if_shown(sel, FieldName::ThroughRoute);
    let d = page_if_shown(sel, FieldName::ServiceChange);
    let st = static_pages(sel);
    let names = shown_in_order(sel);
    let na = if shown(sel.destination) { seq![FieldName::Destination] } else { Seq::<FieldName>::empty() };
    let nb = if shown(sel.route) { seq![FieldName::Route] } else { Seq::<FieldName>::empty() };
    let nc = if shown(sel.through_route) { seq![FieldName::ThroughRoute] } else { Seq::<FieldName>::empty() };
    let nd = if shown(sel.service_change) { seq![FieldName::ServiceChange] } else { Seq::<FieldName>::empty() };
    assert(names == na + nb + nc + nd);
    assert(st == a + b + c + d);
    assert(st.len() == names.len());
    assert forall|k: int| 0 <= k < names.len() implies #[trigger] st[k] == static_page(sel, names[k]) by {
        if k < a.len() {
            assert(st[k] == a[k] && names[k] == na[k]);
        } else if k < a.len() + b.len() {
            assert(st[k] == b[k - a.len()] && names[k] == nb[k - na.len()]);
        } else if k < a.len() + b.len() + c.len() {
            assert(st[k] == c[k - a.len() - b.len()] && names[k] == nc[k - na.len() - nb.len()]);
        } else {
            assert(st[k] == d[k - a.len() - b.len() - c.len()] && names[k] == nd[k - na.len() - nb.len() - nc.len()]);
        }
    }
    let ps = plan_pages(sel);
    assert forall|k: int| 0 <= k < names.len() implies #[trigger] ps[k] == st[k] by {}
}

/// The value of an ASCII hexadecimal digit.
pub open spec fn hex_digit(b: u8) -> Option<nat> {
    if 48 <= b <= 57 {
        Some((b - 48) as nat)
    } else if 97 <= b <= 102 {
        Some((b - 87) as nat)
    } else if 65 <= b <= 70 {
        Some((b - 55) as nat)
    } else {
        None
    }
}

proof fn lemma_hex_pair(b0: u8, b1: u8)
    requires
        hex_digit(b0) is Some,
        hex_digit(b1) is Some,
    ensures
        hex_pair(seq![b0, b1]) == Some(16 * hex_digit(b0)->Some_0 + hex_digit(b1)->Some_0),
{
    let cs = seq![b0, b1].map_values(|b: u8| b as char);
    assert(cs =~= seq![b0 as char, b1 as char]);
    assert(cs.drop_last() =~= seq![b0 as char]);
    assert(cs.drop_last().drop_last() =~= Seq::<char>::empty());
    assert(digit_value(b0 as char, 16) == hex_digit(b0));
    assert(digit_value(b1 as char, 16) == hex_digit(b1));
    assert(digits_fold(cs.drop_last().drop_last(), 16, 255) == Ok::<nat, NumberError>(0));
    assert(cs.drop_last().last() == b0 as char);
    assert(cs.last() == b1 as char);
    assert(digits_fold(cs.drop_last(), 16, 255) == Ok::<nat, NumberError>(hex_digit(b0)->Some_0));
    assert(digits_fold(cs, 16, 255) == Ok::<nat, NumberError>(16 * hex_digit(b0)->Some_0 + hex_digit(b1)->Some_0));
}

/// A colour `#RRGGBB` of hexadecimal digits gives the scroll the three bytes
/// those pairs write, high digit first; the scroll takes its text and region as
/// given, its speed and paddings from the scroll defaults, and does not repeat.
pub proof fn law_scroll_colour(d: ScrollDefaultsModel, font: FontModel, text: Seq<char>, region: Region)
    requires
        d.color.len() == 7,
        d.color[0] == 35,
        forall|k: int| 1 <= k < 7 ==> #[trigger] hex_digit(d.color[k]) is Some,
    ensures
        ({
            let h = |k: int| hex_digit(d.color[k])->Some_0;
            scroll_result(Some(d), Some(font), text, region) == Ok::<ScrollModel, Seq<char>>(
                ScrollModel {
                    region,
                    text,
                    font,
                    color: [
                        (16 * h(1) + h(2)) as u8,
                        (16 * h(3) + h(4)) as u8,
                        (16 * h(5) + h(6)) as u8,
                    ],
                    speed_px_per_second: d.speed_px_per_second,
                    start_padding: d.start_padding,
                    end_padding: d.end_padding,
                    repeat: false,
                },
            )
        }),
{
    let c = d.color;
    let rest = c.drop_first();
    assert(hex_digit(c[1]) is Some && hex_digit(c[2]) is Some && hex_digit(c[3]) is Some);
    assert(hex_digit(c[4]) is Some && hex_digit(c[5]) is Some && hex_digit(c[6]) is Some);
    assert(rest.subrange(0, 2) =~= seq![c[1], c[2]]);
    assert(rest.subrange(2, 4) =~= seq![c[3], c[4]]);
    assert(rest.subrange(4, 6) =~= seq![c[5], c[6]]);
    lemma_hex_pair(c[1], c[2]);
    lemma_hex_pair(c[3], c[4]);
    lemma_hex_pair(c[5], c[6]);
}

/// Whether the asset `id` loaded from `dir` as an image of the region's size.
pub open spec fn fits(assets: LoadedAssets, dir: Seq<char>, id: Seq<char>, region: Region) -> bool {
    lookup(assets, dir, id) matches Some(Ok(img)) && img.width == region.width && img.height
        == region.height
}

/// The image chosen for a slot comes from the first configured directory, in
/// order, where the asset loaded with the slot's size; none is chosen only
/// where no directory has one.
pub proof fn law_first_fit_order(
    dirs: Seq<String>,
    assets: LoadedAssets,
    id: Seq<char>,
    region: Region,
    from: int,
)
    requires
        0 <= from,
    ensures
        first_fit(dirs, assets, id, region, from) matches Some(img) ==> exists|i: int|
            #![trigger dirs[i]]
            from <= i < dirs.len() && lookup(assets, dirs[i]@, id) == Some(
                Ok::<ImageModel, Seq<char>>(img),
            ) && fits(assets, dirs[i]@, id, region) && forall|j: int|
                from <= j < i ==> !fits(assets, #[trigger] dirs[j]@, id, region),
        first_fit(dirs, assets, id, region, from) is None ==> forall|j: int|
            from <= j < dirs.len() ==> !fits(assets, #[trigger] dirs[j]@, id, region),
    decreases dirs.len() - from,
{
    if from < dirs.len() {
        law_first_fit_order(dirs, assets, id, region, from + 1);
        if fits(assets, dirs[from]@, id, region) {
            assert(dirs[from] == dirs[from]);
        } else {
            if first_fit(dirs, assets, id, region, from) is Some {
                let img = first_fit(dirs, assets, id, region, from)->Some_0;
                let i = choose|i: int|
                    #![trigger dirs[i]]
                    from + 1 <= i < dirs.len() && lookup(assets, dirs[i]@, id) == Some(
                        Ok::<ImageModel, Seq<char>>(img),
                    ) && fits(assets, dirs[i]@, id, region) && forall|j: int|
                        from + 1 <= j < i ==> !fits(assets, #[trigger] dirs[j]@, id, region);
                assert forall|j: int| from <= j < i implies !fits(assets, #[trigger] dirs[j]@, id, region) by {
                    if j == from {
                    }
                }
            }
        }
    }
}

} // verus!
