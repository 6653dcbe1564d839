//! Page patterns for boards other than the E233: pages of images at given
//! places, each with an optional scroll.
use vstd::prelude::*;

use std::sync::Arc;

use crate::e233::{defaults_of, font_view, scroll_result, scroll_spec, scroll_splits_char};
use crate::font::{BdfFont, FontModel};
use crate::frame::{black_frame, blit_result, frame_error_text, FrameModel, Region, RgbFrame};
use crate::profile::{lookup, ImageModel, LoadedAssets, Profile};
use crate::script::{
    actions_view, scroll_view, ActionModel, Interval, RunnerModel, ScriptAction, ScriptRunner,
    ScrollModel, ScrollSpec,
};
use crate::text::{decimal, decimal_string};

verus! {

/// An image to place on a page: the asset `asset` of `directory`, which must be
/// `width` x `height`, at `(x, y)`.
#[derive(Clone, Debug)]
pub struct Layer {
    pub directory: String,
    pub asset: String,
    pub x: usize,
    pub y: usize,
    pub width: usize,
    pub height: usize,
}

/// Text that scrolls through the region at `(x, y)` of `width` x `height`.
#[derive(Clone, Debug)]
pub struct Scroll {
    pub text: String,
    pub x: usize,
    pub y: usize,
    pub width: usize,
    pub height: usize,
}

/// One page: its images, its scroll, and how long it stays.
#[derive(Clone, Debug)]
pub struct PatternPage {
    /// How long the page stays, unless it waits for its scroll.
    pub seconds: Interval,
    pub until_scroll_end: bool,
    pub layer: Vec<Layer>,
    pub scroll: Option<Scroll>,
}

/// The pages of a pattern, and whether they repeat.
#[derive(Clone, Debug)]
pub struct Pattern {
    pub repeat: bool,
    pub page: Vec<PatternPage>,
}

/// `a + b`, or `usize::MAX` where that is larger.
pub open spec fn saturating_sum(a: usize, b: usize) -> int {
    if a + b > usize::MAX {
        usize::MAX as int
    } else {
        a + b
    }
}

pub open spec fn wrong_size_text(layer: Layer) -> Seq<char> {
    layer.directory@ + ":"@ + layer.asset@ + " は"@ + decimal(layer.width as nat) + "x"@ + decimal(
        layer.height as nat,
    ) + "である必要があります"@
}

pub open spec fn not_loaded_text(layer: Layer) -> Seq<char> {
    layer.directory@ + ":"@ + layer.asset@ + " は読み込まれていません"@
}

/// The frame after placing one layer on it, or why the layer cannot be placed.
pub open spec fn layer_result(
    profile: Profile,
    assets: LoadedAssets,
    layer: Layer,
    frame: FrameModel,
) -> Result<FrameModel, Seq<char>> {
    if saturating_sum(layer.x, layer.width) > profile.profile.canvas_width || saturating_sum(
        layer.y,
        layer.height,
    ) > profile.profile.canvas_height {
        Err("patternsの画像領域がキャンバス外です"@)
    } else {
        match lookup(assets, layer.directory@, layer.asset@) {
            None => Err(not_loaded_text(layer)),
            Some(Err(e)) => Err(e),
            Some(Ok(img)) => if img.width != layer.width || img.height != layer.height {
                Err(wrong_size_text(layer))
            } else {
                match blit_result(
                    frame,
                    (layer.x as isize) as int,
                    (layer.y as isize) as int,
                    img.width as int,
                    img.height as int,
                    img.pixels,
                ) {
                    Ok(f) => Ok(f),
                    Err(e) => Err(frame_error_text(e)),
                }
            },
        }
    }
}

/// The frame after placing `layers` in order, or the first that cannot be placed.
pub open spec fn layers_result(
    profile: Profile,
    assets: LoadedAssets,
    layers: Seq<Layer>,
    frame: FrameModel,
) -> Result<FrameModel, Seq<char>>
    decreases layers.len(),
{
    if layers.len() == 0 {
        Ok(frame)
    } else {
        match layers_result(profile, assets, layers.drop_last(), frame) {
            Err(e) => Err(e),
            Ok(f) => layer_result(profile, assets, layers.last(), f),
        }
    }
}

/// The scroll of a page, or why it cannot be made.
pub open spec fn page_scroll_result(profile: Profile, font: Option<FontModel>, scroll: Option<Scroll>) -> Result<
    Option<ScrollModel>,
    Seq<char>,
> {
    match scroll {
        None => Ok(None),
        Some(s) => if saturating_sum(s.x, s.width) > profile.profile.canvas_width || saturating_sum(
            s.y,
            s.height,
        ) > profile.profile.canvas_height {
            Err("patternsのスクロール領域がキャンバス外です"@)
        } else {
            match scroll_result(
                defaults_of(profile),
                font,
                s.text@,
                Region { x: s.x, y: s.y, width: s.width, height: s.height },
            ) {
                Ok(m) => Ok(Some(m)),
                Err(e) => Err(e),
            }
        },
    }
}

/// The two actions of a page, or why the page cannot be made.
pub open spec fn pattern_page_result(
    profile: Profile,
    assets: LoadedAssets,
    font: Option<FontModel>,
    page: PatternPage,
) -> Result<Seq<ActionModel>, Seq<char>> {
    let f0 = black_frame(profile.profile.canvas_width, profile.profile.canvas_height);
    match layers_result(profile, assets, page.layer@, f0) {
        Err(e) => Err(e),
        Ok(f) => match page_scroll_result(profile, font, page.scroll) {
            Err(e) => Err(e),
            Ok(sc) => if page.until_scroll_end && sc is None {
                Err("until_scroll_endにはscrollが必要です"@)
            } else {
                Ok(
                    seq![
                        ActionModel::Present { frame: f, scroll: sc },
                        if page.until_scroll_end {
                            ActionModel::WaitScrollEnd
                        } else {
                            ActionModel::Wait(page.seconds)
                        },
                    ],
                )
            },
        },
    }
}

/// The actions of `pages` in order, or the error of the first that fails.
pub open spec fn pattern_pages_result(
    profile: Profile,
    assets: LoadedAssets,
    font: Option<FontModel>,
    pages: Seq<PatternPage>,
) -> Result<Seq<ActionModel>, Seq<char>>
    decreases pages.len(),
{
    if pages.len() == 0 {
        Ok(seq![])
    } else {
        match pattern_pages_result(profile, assets, font, pages.drop_last()) {
            Err(e) => Err(e),
            Ok(acts) => match pattern_page_result(profile, assets, font, pages.last()) {
                Err(e) => Err(e),
                Ok(more) => Ok(acts + more),
            },
        }
    }
}

pub open spec fn font_outcome_view(font: Result<Option<Arc<BdfFont>>, String>) -> Result<
    Option<FontModel>,
    Seq<char>,
> {
    match font {
        Ok(Some(f)) => Ok(Some((*f)@)),
        Ok(None) => Ok(None),
        Err(e) => Err(e@),
    }
}

/// What compiling a pattern gives.
pub open spec fn pattern_result(
    profile: Profile,
    assets: LoadedAssets,
    pattern: Pattern,
    font: Result<Option<FontModel>, Seq<char>>,
) -> Result<RunnerModel, Seq<char>> {
    if pattern.page@.len() == 0 {
        Err("patterns TOMLにpageがありません"@)
    } else {
        match font {
            Err(e) => Err(e),
            Ok(fo) => match pattern_pages_result(profile, assets, fo, pattern.page@) {
                Err(e) => Err(e),
                Ok(acts) => Ok(
                    RunnerModel {
                        width: profile.profile.canvas_width,
                        height: profile.profile.canvas_height,
                        first: if pattern.repeat {
                            seq![]
                        } else {
                            acts
                        },
                        cycle: if pattern.repeat {
                            Some(acts)
                        } else {
                            None
                        },
                    },
                ),
            },
        }
    }
}

/// Making the page builds its scroll, and the scroll's colour would split a
/// character (see [`scroll_splits_char`]): the layers were placed and the
/// scroll lies inside the canvas.
pub open spec fn pattern_page_splits_char(
    profile: Profile,
    assets: LoadedAssets,
    font: Option<FontModel>,
    page: PatternPage,
) -> bool {
    let f0 = black_frame(profile.profile.canvas_width, profile.profile.canvas_height);
    &&& layers_result(profile, assets, page.layer@, f0) is Ok
    &&& page.scroll matches Some(s)
    &&& saturating_sum(s.x, s.width) <= profile.profile.canvas_width
    &&& saturating_sum(s.y, s.height) <= profile.profile.canvas_height
    &&& scroll_splits_char(defaults_of(profile), font)
}

/// Some page, reached after all pages before it were made, would split a
/// character when its scroll is built.
pub open spec fn pattern_pages_split_char(
    profile: Profile,
    assets: LoadedAssets,
    font: Option<FontModel>,
    pages: Seq<PatternPage>,
) -> bool
    decreases pages.len(),
{
    if pages.len() == 0 {
        false
    } else {
        pattern_pages_split_char(profile, assets, font, pages.drop_last()) || (pattern_pages_result(
            profile,
            assets,
            font,
            pages.drop_last(),
        ) is Ok && pattern_page_splits_char(profile, assets, font, pages.last()))
    }
}

/// Compiling the pattern would reach a scroll whose colour splits a character.
pub open spec fn pattern_splits_char(
    profile: Profile,
    assets: LoadedAssets,
    pattern: Pattern,
    font: Result<Option<FontModel>, Seq<char>>,
) -> bool {
    &&& pattern.page@.len() > 0
    &&& font matches Ok(fo)
    &&& pattern_pages_split_char(profile, assets, fo, pattern.page@)
}

proof fn lemma_split_prefix(
    profile: Profile,
    assets: LoadedAssets,
    font: Option<FontModel>,
    pages: Seq<PatternPage>,
    k: int,
)
    requires
        0 <= k <= pages.len(),
        pattern_pages_split_char(profile, assets, font, pages.take(k)),
    ensures
        pattern_pages_split_char(profile, assets, font, pages),
    decreases pages.len(),
{
    if k == pages.len() {
        assert(pages.take(k) =~= pages);
    } else {
        assert(pages.drop_last().take(k) =~= pages.take(k));
        lemma_split_prefix(profile, assets, font, pages.drop_last(), k);
    }
}

/// A pattern page's scroll that lies inside the canvas is the scroll built for
/// its region from its text, as for a board's scroll page: the same error from
/// the same failing check, or a scroll with that region and text that does not
/// repeat.
pub proof fn law_pattern_scroll(profile: Profile, font: Option<FontModel>, s: Scroll)
    requires
        saturating_sum(s.x, s.width) <= profile.profile.canvas_width,
        saturating_sum(s.y, s.height) <= profile.profile.canvas_height,
    ensures
        ({
            let region = Region { x: s.x, y: s.y, width: s.width, height: s.height };
            let r = scroll_result(defaults_of(profile), font, s.text@, region);
            &&& page_scroll_result(profile, font, Some(s)) == match r {
                Ok(m) => Ok::<Option<ScrollModel>, Seq<char>>(Some(m)),
                Err(e) => Err(e),
            }
            &&& r matches Ok(m) ==> m.region == region && m.text == s.text@ && !m.repeat
        }),
{
}

proof fn lemma_layers_error_stays(
    profile: Profile,
    assets: LoadedAssets,
    layers: Seq<Layer>,
    frame: FrameModel,
    k: int,
)
    requires
        0 <= k <= layers.len(),
        layers_result(profile, assets, layers.take(k), frame) is Err,
    ensures
        layers_result(profile, assets, layers, frame) == layers_result(
            profile,
            assets,
            layers.take(k),
            frame,
        ),
    decreases layers.len(),
{
    if k == layers.len() {
        assert(layers.take(k) =~= layers);
    } else {
        assert(layers.drop_last().take(k) =~= layers.take(k));
        lemma_layers_error_stays(profile, assets, layers.drop_last(), frame, k);
    }
}

proof fn lemma_pages_error_stays(
    profile: Profile,
    assets: LoadedAssets,
    font: Option<FontModel>,
    pages: Seq<PatternPage>,
    k: int,
)
    requires
        0 <= k <= pages.len(),
        pattern_pages_result(profile, assets, font, pages.take(k)) is Err,
    ensures
        pattern_pages_result(profile, assets, font, pages) == pattern_pages_result(
            profile,
            assets,
            font,
            pages.take(k),
        ),
    decreases pages.len(),
{
    if k == pages.len() {
        assert(pages.take(k) =~= pages);
    } else {
        assert(pages.drop_last().take(k) =~= pages.take(k));
        lemma_pages_error_stays(profile, assets, font, pages.drop_last(), k);
    }
}

/// Places one layer (see [`layer_result`]).
fn place_layer(profile: &Profile, assets: &LoadedAssets, layer: &Layer, frame: &mut RgbFrame) -> (r:
    Result<(), String>)
    requires
        old(frame).well_formed(),
    ensures
        final(frame).well_formed(),
        match layer_result(*profile, *assets, *layer, old(frame)@) {
            Ok(f) => r is Ok && final(frame)@ == f,
            Err(e) => r matches Err(x) && x@ == e,
        },
{
    if layer.x.saturating_add(layer.width) > profile.profile.canvas_width || layer.y.saturating_add(
        layer.height,
    ) > profile.profile.canvas_height {
        return Err("patternsの画像領域がキャンバス外です".to_string());
    }
    let img = match assets.get(&layer.directory, &layer.asset) {
        None => {
            let mut msg = layer.directory.clone();
            msg.append(":");
            msg.append(layer.asset.as_str());
            msg.append(" は読み込まれていません");
            return Err(msg);
        },
        Some(Err(e)) => {
            return Err(e.clone());
        },
        Some(Ok(img)) => img,
    };
    if img.width != layer.width || img.height != layer.height {
        let mut msg = layer.directory.clone();
        msg.append(":");
        msg.append(layer.asset.as_str());
        msg.append(" は");
        msg.append(decimal_string(layer.width).as_str());
        msg.append("x");
        msg.append(decimal_string(layer.height).as_str());
        msg.append("である必要があります");
        return Err(msg);
    }
    match frame.blit_rgb(layer.x as isize, layer.y as isize, img.width, img.height, img.pixels.as_slice()) {
        Ok(()) => Ok(()),
        Err(e) => Err(e.message()),
    }
}

/// The scroll of a pattern page (see [`scroll_result`]).
fn make_scroll(profile: &Profile, font: Option<&Arc<BdfFont>>, scroll: &Scroll) -> (r: Result<
    ScrollSpec,
    String,
>)
    requires
        !scroll_splits_char(defaults_of(*profile), font_view(font)),
    ensures
        match scroll_result(
            defaults_of(*profile),
            font_view(font),
            scroll.text@,
            Region { x: scroll.x, y: scroll.y, width: scroll.width, height: scroll.height },
        ) {
            Ok(m) => r matches Ok(s) && s@ == m,
            Err(e) => r matches Err(x) && x@ == e,
        },
{
    scroll_spec(
        profile,
        font,
        scroll.text.clone(),
        Region { x: scroll.x, y: scroll.y, width: scroll.width, height: scroll.height },
    )
}

/// The two actions of one page (see [`pattern_page_result`]).
fn compile_page(
    profile: &Profile,
    assets: &LoadedAssets,
    font: Option<&Arc<BdfFont>>,
    page: &PatternPage,
    actions: &mut Vec<ScriptAction>,
) -> (r: Result<(), String>)
    requires
        !pattern_page_splits_char(*profile, *assets, font_view(font), *page),
    ensures
        match pattern_page_result(*profile, *assets, font_view(font), *page) {
            Ok(more) => r is Ok && actions_view(final(actions)@) == actions_view(old(actions)@) + more,
            Err(e) => r matches Err(x) && x@ == e,
        },
{
    let mut frame = RgbFrame::black(profile.profile.canvas_width, profile.profile.canvas_height);
    let ghost f0 = frame@;
    let ghost layers = page.layer@;
    assert(layers.take(0) =~= Seq::<Layer>::empty());
    let mut i: usize = 0;
    while i < page.layer.len()
        invariant
            i <= layers.len(),
            layers == page.layer@,
            f0 == black_frame(profile.profile.canvas_width, profile.profile.canvas_height),
            frame.well_formed(),
            layers_result(*profile, *assets, layers.take(i as int), f0) == Ok::<FrameModel, Seq<char>>(frame@),
        decreases layers.len() - i,
    {
        assert(layers.take(i + 1).drop_last() =~= layers.take(i as int));
        assert(layers.take(i + 1).last() == page.layer@[i as int]);
        match place_layer(profile, assets, &page.layer[i], &mut frame) {
            Ok(()) => {},
            Err(e) => {
                proof {
                    lemma_layers_error_stays(*profile, *assets, layers, f0, i + 1);
                }
                return Err(e);
            },
        }
        i += 1;
    }
    assert(layers.take(layers.len() as int) =~= layers);
    let scroll: Option<ScrollSpec> = match &page.scroll {
        None => None,
        Some(s) => {
            if s.x.saturating_add(s.width) > profile.profile.canvas_width || s.y.saturating_add(
                s.height,
            ) > profile.profile.canvas_height {
                return Err("patternsのスクロール領域がキャンバス外です".to_string());
            }
            Some(make_scroll(profile, font, s)?)
        },
    };
    if page.until_scroll_end && scroll.is_none() {
        return Err("until_scroll_endにはscrollが必要です".to_string());
    }
    let ghost before = actions_view(actions@);
    let ghost fm = frame@;
    let ghost sm = scroll_view(scroll);
    actions.push(ScriptAction::Present { frame, scroll });
    if page.until_scroll_end {
        actions.push(ScriptAction::WaitScrollEnd);
    } else {
        actions.push(ScriptAction::Wait(page.seconds));
    }
    assert(actions_view(actions@) =~= before + seq![
        ActionModel::Present { frame: fm, scroll: sm },
        if page.until_scroll_end {
            ActionModel::WaitScrollEnd
        } else {
            ActionModel::Wait(page.seconds)
        },
    ]);
    Ok(())
}

/// Turns a pattern into the script that plays its pages.
///
/// Each page is drawn on a black frame the size of the canvas: its layers are
/// placed in order, each inside the canvas and with an image of the declared
/// size; its scroll, if any, must lie inside the canvas too. A page that waits
/// for its scroll must have one. A repeating pattern plays over and over, any
/// other once.
///
/// `assets` holds what loading each layer's asset gave; `font` is what loading
/// the profile's scroll font gave (`Ok(None)` for a profile without scroll
/// defaults).
pub fn compile_pattern(
    profile: &Profile,
    assets: &LoadedAssets,
    pattern: &Pattern,
    font: Result<Option<Arc<BdfFont>>, String>,
) -> (r: Result<ScriptRunner, String>)
    requires
        !pattern_splits_char(*profile, *assets, *pattern, font_outcome_view(font)),
    ensures
        match pattern_result(*profile, *assets, *pattern, font_outcome_view(font)) {
            Ok(m) => r matches Ok(x) && x@ == m,
            Err(e) => r matches Err(x) && x@ == e,
        },
{
    if pattern.page.len() == 0 {
        return Err("patterns TOMLにpageがありません".to_string());
    }
    let font_ref = match &font {
        Ok(f) => f.as_ref(),
        Err(e) => {
            return Err(e.clone());
        },
    };
    let ghost fo = font_view(font_ref);
    assert(font_outcome_view(font) == Ok::<Option<FontModel>, Seq<char>>(fo));
    let ghost pages = pattern.page@;
    let mut actions: Vec<ScriptAction> = Vec::new();
    assert(pages.take(0) =~= Seq::<PatternPage>::empty());
    assert(actions_view(actions@) =~= Seq::<ActionModel>::empty());
    let mut i: usize = 0;
    while i < pattern.page.len()
        invariant
            i <= pages.len(),
            pages == pattern.page@,
            pages.len() > 0,
            fo == font_view(font_ref),
            font_outcome_view(font) == Ok::<Option<FontModel>, Seq<char>>(fo),
            !pattern_pages_split_char(*profile, *assets, fo, pages),
            pattern_pages_result(*profile, *assets, fo, pages.take(i as int)) == Ok::<
                Seq<ActionModel>,
                Seq<char>,
            >(actions_view(actions@)),
        decreases pages.len() - i,
    {
        assert(pages.take(i + 1).drop_last() =~= pages.take(i as int));
        assert(pages.take(i + 1).last() == pattern.page@[i as int]);
        proof {
            if pattern_page_splits_char(*profile, *assets, fo, pattern.page@[i as int]) {
                lemma_split_prefix(*profile, *assets, fo, pages, i + 1);
            }
        }
        match compile_page(profile, assets, font_ref, &pattern.page[i], &mut actions) {
            Ok(()) => {},
            Err(e) => {
                proof {
                    lemma_pages_error_stays(*profile, *assets, fo, pages, i + 1);
                }
                return Err(e);
            },
        }
        i += 1;
    }
    assert(pages.take(pages.len() as int) =~= pages);
    let ghost acts = actions_view(actions@);
    if pattern.repeat {
        let first: Vec<ScriptAction> = Vec::new();
        assert(actions_view(first@) =~= Seq::<ActionModel>::empty());
        Ok(
            ScriptRunner::new(
                profile.profile.canvas_width,
                profile.profile.canvas_height,
                first,
                Some(actions),
            ),
        )
    } else {
        Ok(
            ScriptRunner::new(
                profile.profile.canvas_width,
                profile.profile.canvas_height,
                actions,
                None,
            ),
        )
    }
}

/// How a pattern page waits.
pub open spec fn pattern_wait(page: PatternPage) -> ActionModel {
    if page.until_scroll_end {
        ActionModel::WaitScrollEnd
    } else {
        ActionModel::Wait(page.seconds)
    }
}

proof fn lemma_pages_shape(
    profile: Profile,
    assets: LoadedAssets,
    font: Option<FontModel>,
    pages: Seq<PatternPage>,
)
    ensures
        pattern_pages_result(profile, assets, font, pages) matches Ok(acts) ==> {
            &&& acts.len() == 2 * pages.len()
            &&& forall|i: int|
                0 <= i < pages.len() ==> {
                    &&& #[trigger] acts[2 * i] is Present
                    &&& acts[2 * i + 1] == pattern_wait(pages[i])
                    &&& pages[i].until_scroll_end ==> acts[2 * i]->scroll is Some
                }
        },
    decreases pages.len(),
{
    if pages.len() > 0 {
        lemma_pages_shape(profile, assets, font, pages.drop_last());
        if let Ok(acts) = pattern_pages_result(profile, assets, font, pages) {
            let prev = pattern_pages_result(profile, assets, font, pages.drop_last())->Ok_0;
            assert forall|i: int| 0 <= i < pages.len() implies {
                &&& #[trigger] acts[2 * i] is Present
                &&& acts[2 * i + 1] == pattern_wait(pages[i])
                &&& pages[i].until_scroll_end ==> acts[2 * i]->scroll is Some
            } by {
                if i < pages.len() - 1 {
                    assert(acts[2 * i] == prev[2 * i]);
                    assert(acts[2 * i + 1] == prev[2 * i + 1]);
                    assert(pages.drop_last()[i] == pages[i]);
                }
            }
        }
    }
}

/// A compiled pattern shows each page and then waits its time, or for its
/// scroll where it says so (and then it has one); a repeating pattern plays
/// over and over, any other once.
pub proof fn law_pattern_shape(
    profile: Profile,
    assets: LoadedAssets,
    pattern: Pattern,
    font: Result<Option<FontModel>, Seq<char>>,
)
    requires
        pattern_result(profile, assets, pattern, font) is Ok,
    ensures
        ({
            let m = pattern_result(profile, assets, pattern, font)->Ok_0;
            let pages = pattern.page@;
            &&& pages.len() > 0
            &&& pattern.repeat ==> {
                &&& m.first.len() == 0
                &&& m.cycle is Some
                &&& m.cycle->Some_0.len() == 2 * pages.len()
                &&& forall|i: int|
                    0 <= i < pages.len() ==> {
                        &&& #[trigger] m.cycle->Some_0[2 * i] is Present
                        &&& m.cycle->Some_0[2 * i + 1] == pattern_wait(pages[i])
                        &&& pages[i].until_scroll_end ==> m.cycle->Some_0[2 * i]->scroll is Some
                    }
            }
            &&& !pattern.repeat ==> {
                &&& m.cycle is None
                &&& m.first.len() == 2 * pages.len()
                &&& forall|i: int|
                    0 <= i < pages.len() ==> {
                        &&& #[trigger] m.first[2 * i] is Present
                        &&& m.first[2 * i + 1] == pattern_wait(pages[i])
                        &&& pages[i].until_scroll_end ==> m.first[2 * i]->scroll is Some
                    }
            }
        }),
{
    lemma_pages_shape(profile, assets, font->Ok_0, pattern.page@);
}

/// Placing layers succeeds only if every layer lies inside the canvas (its
/// right and bottom edges, added without overflow, are within it) and its
/// asset loaded as an image of exactly the layer's declared width and height.
pub proof fn law_layers_fit(profile: Profile, assets: LoadedAssets, layers: Seq<Layer>, frame: FrameModel)
    requires
        layers_result(profile, assets, layers, frame) is Ok,
    ensures
        forall|l: int|
            0 <= l < layers.len() ==> {
                &&& lookup(assets, #[trigger] layers[l].directory@, layers[l].asset@) matches Some(Ok(img))
                    && img.width == layers[l].width && img.height == layers[l].height
                &&& saturating_sum(layers[l].x, layers[l].width) <= profile.profile.canvas_width
                &&& saturating_sum(layers[l].y, layers[l].height) <= profile.profile.canvas_height
            },
    decreases layers.len(),
{
    if layers.len() > 0 {
        let p = layers.drop_last();
        law_layers_fit(profile, assets, p, frame);
        assert forall|l: int| 0 <= l < layers.len() implies {
            &&& lookup(assets, #[trigger] layers[l].directory@, layers[l].asset@) matches Some(Ok(img))
                && img.width == layers[l].width && img.height == layers[l].height
            &&& saturating_sum(layers[l].x, layers[l].width) <= profile.profile.canvas_width
            &&& saturating_sum(layers[l].y, layers[l].height) <= profile.profile.canvas_height
        } by {
            if l < layers.len() - 1 {
                assert(p[l] == layers[l]);
            } else {
                let f = layers_result(profile, assets, p, frame)->Ok_0;
                assert(layer_result(profile, assets, layers.last(), f) is Ok);
                assert(layers[l] == layers.last());
            }
        }
    }
}

/// A pattern compiles only if every layer of every page lies inside the canvas
/// and its asset loaded as an image of exactly the layer's declared width and
/// height; an image of another size makes the compilation fail.
pub proof fn law_pattern_layers_fit(
    profile: Profile,
    assets: LoadedAssets,
    pattern: Pattern,
    font: Result<Option<FontModel>, Seq<char>>,
    p: int,
    l: int,
)
    requires
        pattern_result(profile, assets, pattern, font) is Ok,
        0 <= p < pattern.page@.len(),
        0 <= l < pattern.page@[p].layer@.len(),
    ensures
        ({
            let layer = pattern.page@[p].layer@[l];
            &&& lookup(assets, layer.directory@, layer.asset@) matches Some(Ok(img)) && img.width
                == layer.width && img.height == layer.height
            &&& saturating_sum(layer.x, layer.width) <= profile.profile.canvas_width
            &&& saturating_sum(layer.y, layer.height) <= profile.profile.canvas_height
        }),
{
    let fo = font->Ok_0;
    lemma_page_ok(profile, assets, fo, pattern.page@, p);
    let page = pattern.page@[p];
    let f0 = black_frame(profile.profile.canvas_width, profile.profile.canvas_height);
    law_layers_fit(profile, assets, page.layer@, f0);
    assert(page.layer@[l] == pattern.page@[p].layer@[l]);
}

proof fn lemma_page_ok(
    profile: Profile,
    assets: LoadedAssets,
    font: Option<FontModel>,
    pages: Seq<PatternPage>,
    p: int,
)
    requires
        pattern_pages_result(profile, assets, font, pages) is Ok,
        0 <= p < pages.len(),
    ensures
        layers_result(
            profile,
            assets,
            pages[p].layer@,
            black_frame(profile.profile.canvas_width, profile.profile.canvas_height),
        ) is Ok,
    decreases pages.len(),
{
    if p < pages.len() - 1 {
        assert(pages.drop_last()[p] == pages[p]);
        lemma_page_ok(profile, assets, font, pages.drop_last(), p);
    }
}

} // verus!
