use std::sync::Arc;

use ledist_pi::{
    compile_pattern, BdfFont, Interval, Layer, LoadedAsset, LoadedAssets, Pattern, PatternPage,
    Profile, ProfileInfo, Region, RgbImage, Scroll, ScriptAction, ScrollDefaults, Speed,
};

fn profile(w: usize, h: usize) -> Profile {
    Profile {
        profile: ProfileInfo { id: "future".into(), name: "Future".into(), canvas_width: w, canvas_height: h },
        e233: None,
        scroll_defaults: None,
    }
}

fn layer(dir: &str, asset: &str, x: usize, y: usize, w: usize, h: usize) -> Layer {
    Layer { directory: dir.into(), asset: asset.into(), x, y, width: w, height: h }
}

fn page(layers: Vec<Layer>) -> PatternPage {
    PatternPage { seconds: Interval { secs: 1, nanos: 0 }, until_scroll_end: false, layer: layers, scroll: None }
}

fn icon_assets(w: usize, h: usize) -> LoadedAssets {
    LoadedAssets {
        entries: vec![LoadedAsset {
            directory: "assets/icon".into(),
            id: "a".into(),
            image: Ok(RgbImage { width: w, height: h, pixels: vec![3; w * h * 3] }),
        }],
    }
}

#[test]
fn toml_pattern_compiles_a_static_page_without_code_changes() {
    let pattern = Pattern { repeat: false, page: vec![page(vec![layer("assets/icon", "a", 0, 0, 1, 1)])] };
    assert!(compile_pattern(&profile(1, 1), &icon_assets(1, 1), &pattern, Ok(None)).is_ok());
}

#[test]
fn pattern_runs_once_unless_it_repeats() {
    let once = Pattern { repeat: false, page: vec![page(vec![layer("assets/icon", "a", 1, 0, 1, 1)])] };
    let runner = compile_pattern(&profile(2, 1), &icon_assets(1, 1), &once, Ok(None)).unwrap();
    assert!(runner.cycle.is_none());
    assert_eq!(runner.first.len(), 2);
    match &runner.first[0] {
        ScriptAction::Present { frame, scroll } => {
            assert!(scroll.is_none());
            assert_eq!(frame.pixel(0, 0), [0, 0, 0]);
            assert_eq!(frame.pixel(1, 0), [3, 3, 3]);
        }
        other => panic!("unexpected {:?}", other),
    }
    assert!(matches!(runner.first[1], ScriptAction::Wait(Interval { secs: 1, nanos: 0 })));
    let repeat = Pattern { repeat: true, page: once.page.clone() };
    let runner = compile_pattern(&profile(2, 1), &icon_assets(1, 1), &repeat, Ok(None)).unwrap();
    assert!(runner.first.is_empty());
    assert_eq!(runner.cycle.unwrap().len(), 2);
}

#[test]
fn pattern_errors() {
    let empty = Pattern { repeat: true, page: vec![] };
    assert_eq!(
        compile_pattern(&profile(1, 1), &icon_assets(1, 1), &empty, Ok(None)).unwrap_err(),
        "patterns TOMLにpageがありません"
    );
    let outside = Pattern { repeat: true, page: vec![page(vec![layer("assets/icon", "a", 1, 0, 1, 1)])] };
    assert_eq!(
        compile_pattern(&profile(1, 1), &icon_assets(1, 1), &outside, Ok(None)).unwrap_err(),
        "patternsの画像領域がキャンバス外です"
    );
    let wrong = Pattern { repeat: true, page: vec![page(vec![layer("assets/icon", "a", 0, 0, 2, 2)])] };
    assert_eq!(
        compile_pattern(&profile(4, 4), &icon_assets(1, 1), &wrong, Ok(None)).unwrap_err(),
        "assets/icon:a は2x2である必要があります"
    );
    let failed = LoadedAssets {
        entries: vec![LoadedAsset { directory: "assets/icon".into(), id: "a".into(), image: Err("broken png".into()) }],
    };
    let ok_pattern = Pattern { repeat: true, page: vec![page(vec![layer("assets/icon", "a", 0, 0, 1, 1)])] };
    assert_eq!(
        compile_pattern(&profile(1, 1), &failed, &ok_pattern, Ok(None)).unwrap_err(),
        "broken png"
    );
    let mut waits = page(vec![]);
    waits.until_scroll_end = true;
    let waiting = Pattern { repeat: true, page: vec![waits] };
    assert_eq!(
        compile_pattern(&profile(1, 1), &icon_assets(1, 1), &waiting, Ok(None)).unwrap_err(),
        "until_scroll_endにはscrollが必要です"
    );
    assert_eq!(
        compile_pattern(&profile(1, 1), &icon_assets(1, 1), &ok_pattern, Err("font".into())).unwrap_err(),
        "font"
    );
    let mut scrolling = page(vec![]);
    scrolling.scroll = Some(Scroll { text: "hi".into(), x: 0, y: 0, width: 2, height: 1 });
    let scroll_pattern = Pattern { repeat: true, page: vec![scrolling] };
    assert_eq!(
        compile_pattern(&profile(1, 1), &icon_assets(1, 1), &scroll_pattern, Ok(None)).unwrap_err(),
        "patternsのスクロール領域がキャンバス外です"
    );
    assert_eq!(
        compile_pattern(&profile(2, 1), &icon_assets(1, 1), &scroll_pattern, Ok(None)).unwrap_err(),
        "scroll_defaultsがありません"
    );
}

#[test]
fn pattern_scroll_page_waits_for_its_scroll() {
    let mut p = profile(8, 4);
    p.scroll_defaults = Some(ScrollDefaults {
        font: "shinonome".into(),
        color: "#0a0B0c".into(),
        speed_px_per_second: Speed { bits: 25f64.to_bits() },
        start_padding: 1,
        end_padding: 5,
    });
    let font = Arc::new(
        BdfFont::parse_bdf("STARTCHAR A\nENCODING 65\nBBX 1 1 0 0\nBITMAP\n1\nENDCHAR\n").unwrap(),
    );
    let mut scrolling = page(vec![layer("assets/icon", "a", 0, 0, 1, 1)]);
    scrolling.until_scroll_end = true;
    scrolling.scroll = Some(Scroll { text: " A ".into(), x: 0, y: 2, width: 8, height: 2 });
    let pattern = Pattern { repeat: true, page: vec![page(vec![]), scrolling] };
    let runner = compile_pattern(&p, &icon_assets(1, 1), &pattern, Ok(Some(font))).unwrap();
    assert!(runner.first.is_empty());
    let cycle = runner.cycle.unwrap();
    assert_eq!(cycle.len(), 4);
    assert!(matches!(cycle[1], ScriptAction::Wait(Interval { secs: 1, nanos: 0 })));
    match &cycle[2] {
        ScriptAction::Present { frame, scroll } => {
            assert_eq!(frame.pixel(0, 0), [3, 3, 3]);
            let scroll = scroll.as_ref().unwrap();
            assert_eq!(scroll.text, " A ");
            assert_eq!(scroll.color, [10, 11, 12]);
            assert_eq!(scroll.region, Region { x: 0, y: 2, width: 8, height: 2 });
            assert_eq!(scroll.start_padding, 1);
            assert_eq!(scroll.end_padding, 5);
            assert!(!scroll.repeat);
        }
        other => panic!("unexpected {:?}", other),
    }
    assert!(matches!(cycle[3], ScriptAction::WaitScrollEnd));
    // The scroll text is kept as written, and a colour that is not
    // hexadecimal is refused.
    p.scroll_defaults.as_mut().unwrap().color = "#zz0000".into();
    let font = Arc::new(BdfFont::parse_bdf("").unwrap());
    assert_eq!(
        compile_pattern(&p, &icon_assets(1, 1), &pattern, Ok(Some(font))).unwrap_err(),
        "色が不正です"
    );
}
