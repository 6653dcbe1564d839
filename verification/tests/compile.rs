use std::sync::Arc;

use ledist_pi::{
    compile_e233, e233_asset_requests, AssetGroup, BdfFont, E233Config, E233DisplaySelection,
    FieldName, FieldSelection, Interval, LoadedAsset, LoadedAssets, Profile, ProfileInfo, Region,
    RgbImage, ScriptAction, ScrollDefaults, Slot, SlotDirectories, Speed,
};

const ASCII_FONT: &str = "STARTCHAR A\nENCODING 65\nBBX 4 2 0 0\nBITMAP\n9\n6\nENDCHAR\n";

fn slots(entries: &[(Slot, &[&str])]) -> Vec<SlotDirectories> {
    entries
        .iter()
        .map(|(slot, dirs)| SlotDirectories {
            slot: *slot,
            directories: dirs.iter().map(|d| d.to_string()).collect(),
        })
        .collect()
}

fn profile(color: &str) -> Profile {
    Profile {
        profile: ProfileInfo {
            id: "e233".into(),
            name: "E233".into(),
            canvas_width: 128,
            canvas_height: 32,
        },
        e233: Some(E233Config {
            assets: vec![
                AssetGroup {
                    field: FieldName::Service,
                    slots: slots(&[(Slot::Full, &["service/full"]), (Slot::Left, &["service/left"])]),
                },
                AssetGroup {
                    field: FieldName::Destination,
                    slots: slots(&[
                        (Slot::Full, &["dest/full"]),
                        (Slot::Right, &["dest/small", "dest/right"]),
                        (Slot::FullTop, &["dest/top"]),
                    ]),
                },
            ],
            page_time: Interval { secs: 4, nanos: 500 },
        }),
        scroll_defaults: Some(ScrollDefaults {
            font: "shinonome".into(),
            color: color.into(),
            speed_px_per_second: Speed { bits: 40f64.to_bits() },
            start_padding: 2,
            end_padding: 3,
        }),
    }
}

fn image(w: usize, h: usize, v: u8) -> RgbImage {
    RgbImage { width: w, height: h, pixels: vec![v; w * h * 3] }
}

fn entry(dir: &str, id: &str, image: Result<RgbImage, String>) -> LoadedAsset {
    LoadedAsset { directory: dir.into(), id: id.into(), image }
}

fn assets() -> LoadedAssets {
    LoadedAssets {
        entries: vec![
            entry("service/left", "local", Ok(image(48, 32, 7))),
            entry("service/full", "local", Err("no such file".into())),
            entry("dest/small", "tokyo", Ok(image(40, 32, 1))),
            entry("dest/right", "tokyo", Ok(image(80, 32, 9))),
            entry("dest/full", "tokyo", Ok(image(128, 32, 5))),
            entry("dest/top", "tokyo", Ok(image(128, 16, 6))),
        ],
    }
}

fn selection() -> E233DisplaySelection {
    E233DisplaySelection {
        service: FieldSelection::Off,
        route: FieldSelection::Off,
        service_change: FieldSelection::Off,
        through_route: FieldSelection::Off,
        destination: FieldSelection::Off,
        scroll_text: String::new(),
        brightness: 40,
    }
}

fn font() -> Arc<BdfFont> {
    Arc::new(BdfFont::parse_bdf(ASCII_FONT).unwrap())
}

#[test]
fn service_and_destination_page_uses_first_fitting_directory() {
    let mut s = selection();
    s.service = FieldSelection::Asset("local".into());
    s.destination = FieldSelection::Asset("tokyo".into());
    let runner = compile_e233(&profile("#FF8000"), &assets(), &s, None).unwrap();
    assert!(runner.first.is_empty());
    let cycle = runner.cycle.unwrap();
    assert_eq!(cycle.len(), 2);
    match &cycle[0] {
        ScriptAction::Present { frame, scroll } => {
            assert!(scroll.is_none());
            assert_eq!(frame.pixel(0, 0), [7, 7, 7]);
            assert_eq!(frame.pixel(47, 31), [7, 7, 7]);
            assert_eq!(frame.pixel(48, 0), [9, 9, 9]);
            assert_eq!(frame.pixel(127, 31), [9, 9, 9]);
        }
        other => panic!("unexpected {:?}", other),
    }
    assert!(matches!(cycle[1], ScriptAction::Wait(Interval { secs: 4, nanos: 500 })));
}

#[test]
fn service_alone_falls_back_from_full_to_left() {
    let mut s = selection();
    s.service = FieldSelection::Asset("local".into());
    let runner = compile_e233(&profile("#FF8000"), &assets(), &s, None).unwrap();
    let cycle = runner.cycle.unwrap();
    match &cycle[0] {
        ScriptAction::Present { frame, .. } => {
            assert_eq!(frame.pixel(0, 0), [7, 7, 7]);
            assert_eq!(frame.pixel(48, 0), [0, 0, 0]);
        }
        other => panic!("unexpected {:?}", other),
    }
}

#[test]
fn service_without_fitting_art_is_an_error() {
    let mut s = selection();
    s.service = FieldSelection::Asset("express".into());
    assert_eq!(
        compile_e233(&profile("#FF8000"), &assets(), &s, None).unwrap_err(),
        "種別素材は128x32または48x32で配置してください。"
    );
}

#[test]
fn scroll_page_carries_the_scroll() {
    let mut s = selection();
    s.destination = FieldSelection::Asset("tokyo".into());
    s.scroll_text = "  next ".into();
    let runner = compile_e233(&profile("#FF8000"), &assets(), &s, Some(Ok(font()))).unwrap();
    let cycle = runner.cycle.unwrap();
    assert_eq!(cycle.len(), 4);
    match &cycle[0] {
        ScriptAction::Present { frame, scroll } => {
            assert!(scroll.is_none());
            assert_eq!(frame.pixel(0, 0), [5, 5, 5]);
        }
        other => panic!("unexpected {:?}", other),
    }
    match &cycle[2] {
        ScriptAction::Present { frame, scroll } => {
            assert_eq!(frame.pixel(0, 0), [6, 6, 6]);
            assert_eq!(frame.pixel(0, 16), [0, 0, 0]);
            let scroll = scroll.as_ref().unwrap();
            assert_eq!(scroll.text, "next");
            assert_eq!(scroll.color, [255, 128, 0]);
            assert_eq!(scroll.region, Region { x: 0, y: 16, width: 128, height: 16 });
            assert_eq!(scroll.start_padding, 2);
            assert_eq!(scroll.end_padding, 3);
            assert!(!scroll.repeat);
            assert_eq!(f64::from_bits(scroll.speed_px_per_second.bits), 40.0);
        }
        other => panic!("unexpected {:?}", other),
    }
    assert!(matches!(cycle[3], ScriptAction::WaitScrollEnd));
}

#[test]
fn scroll_colour_and_font_errors() {
    let mut s = selection();
    s.destination = FieldSelection::Asset("tokyo".into());
    s.scroll_text = "next".into();
    assert_eq!(
        compile_e233(&profile("#12345"), &assets(), &s, Some(Ok(font()))).unwrap_err(),
        "色は#RRGGBBで指定してください"
    );
    assert_eq!(
        compile_e233(&profile("123456"), &assets(), &s, Some(Ok(font()))).unwrap_err(),
        "色は#RRGGBBで指定してください"
    );
    assert_eq!(
        compile_e233(&profile("#GG0000"), &assets(), &s, Some(Ok(font()))).unwrap_err(),
        "色が不正です"
    );
    assert_eq!(
        compile_e233(&profile("#FF8000"), &assets(), &s, None).unwrap_err(),
        "スクロールフォントを読み込めません"
    );
    assert_eq!(
        compile_e233(&profile("#FF8000"), &assets(), &s, Some(Err("font file missing".into())))
            .unwrap_err(),
        "font file missing"
    );
    let mut p = profile("#FF8000");
    p.scroll_defaults = None;
    assert_eq!(
        compile_e233(&p, &assets(), &s, Some(Ok(font()))).unwrap_err(),
        "scroll_defaultsがありません"
    );
}

#[test]
fn non_ascii_colours_that_are_cut_whole() {
    let mut s = selection();
    s.destination = FieldSelection::Asset("tokyo".into());
    s.scroll_text = "next".into();
    // The first pair is not hexadecimal, so the cut inside "あ" is never made.
    assert_eq!(
        compile_e233(&profile("#zzcあ"), &assets(), &s, Some(Ok(font()))).unwrap_err(),
        "色が不正です"
    );
    // Three two-byte characters are cut at their own boundaries.
    assert_eq!(
        compile_e233(&profile("#ééé"), &assets(), &s, Some(Ok(font()))).unwrap_err(),
        "色が不正です"
    );
    // Without scroll text the colour is never read.
    s.scroll_text = String::new();
    assert!(compile_e233(&profile("#aあbc"), &assets(), &s, None).is_ok());
}

#[test]
fn font_error_is_ignored_without_scroll_text() {
    let mut s = selection();
    s.destination = FieldSelection::Asset("tokyo".into());
    assert!(compile_e233(&profile("#FF8000"), &assets(), &s, Some(Err("x".into()))).is_ok());
}

#[test]
fn configuration_errors() {
    let mut s = selection();
    s.destination = FieldSelection::Asset("tokyo".into());
    let mut p = profile("#FF8000");
    p.e233 = None;
    assert_eq!(compile_e233(&p, &assets(), &s, None).unwrap_err(), "E233設定がありません");

    let mut s2 = selection();
    s2.route = FieldSelection::Asset("saikyo".into());
    assert_eq!(
        compile_e233(&profile("#FF8000"), &assets(), &s2, None).unwrap_err(),
        "route の素材設定がありません"
    );

    let mut s3 = selection();
    s3.service = FieldSelection::Asset("local".into());
    s3.destination = FieldSelection::Asset("osaka".into());
    assert_eq!(
        compile_e233(&profile("#FF8000"), &assets(), &s3, None).unwrap_err(),
        "destination の素材を表示できません"
    );

    let mut p4 = profile("#FF8000");
    p4.e233.as_mut().unwrap().assets[0].slots.clear();
    let mut s4 = selection();
    s4.service = FieldSelection::Asset("local".into());
    s4.destination = FieldSelection::Asset("tokyo".into());
    assert_eq!(
        compile_e233(&p4, &assets(), &s4, None).unwrap_err(),
        "service に left 用素材設定がありません"
    );
}

#[test]
fn blank_field_cannot_be_drawn() {
    let mut s = selection();
    s.service = FieldSelection::Blank;
    s.destination = FieldSelection::Asset("tokyo".into());
    assert_eq!(
        compile_e233(&profile("#FF8000"), &assets(), &s, None).unwrap_err(),
        "service の素材を表示できません"
    );
}

#[test]
fn plan_errors_come_first() {
    let s = selection();
    let mut p = profile("#FF8000");
    p.e233 = None;
    assert_eq!(
        compile_e233(&p, &assets(), &s, None).unwrap_err(),
        "表示する項目を選択してください。"
    );
}

fn pairs(v: &[(&str, &str)]) -> Vec<(String, String)> {
    v.iter().map(|(a, b)| (a.to_string(), b.to_string())).collect()
}

#[test]
fn asset_requests_list_the_directories_of_drawn_slots() {
    let p = profile("#FF8000");
    let config = p.e233.as_ref().unwrap();
    let mut s = selection();
    s.service = FieldSelection::Asset("local".into());
    s.destination = FieldSelection::Asset("tokyo".into());
    assert_eq!(
        e233_asset_requests(config, &s),
        pairs(&[("service/left", "local"), ("dest/small", "tokyo"), ("dest/right", "tokyo")])
    );
    s.destination = FieldSelection::Off;
    assert_eq!(
        e233_asset_requests(config, &s),
        pairs(&[("service/full", "local"), ("service/left", "local")])
    );
    s.service = FieldSelection::Off;
    s.destination = FieldSelection::Asset("tokyo".into());
    s.scroll_text = "next".into();
    assert_eq!(
        e233_asset_requests(config, &s),
        pairs(&[("dest/full", "tokyo"), ("dest/top", "tokyo")])
    );
    s.service_change = FieldSelection::Asset("c".into());
    assert!(e233_asset_requests(config, &s).is_empty());
}

#[test]
fn colour_pairs_read_like_unsigned_numbers() {
    let mut s = selection();
    s.destination = FieldSelection::Asset("tokyo".into());
    s.scroll_text = "next".into();
    let runner = compile_e233(&profile("#+F+F+F"), &assets(), &s, Some(Ok(font()))).unwrap();
    let cycle = runner.cycle.unwrap();
    match &cycle[2] {
        ScriptAction::Present { scroll: Some(scroll), .. } => assert_eq!(scroll.color, [15, 15, 15]),
        other => panic!("unexpected {:?}", other),
    }
}
