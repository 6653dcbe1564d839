use ledist_pi::text::NumberError;
use ledist_pi::{BdfError, BdfFont, MissingGlyph, RgbFrame};

const ASCII_FONT: &str = "STARTFONT 2.1\nCHARSET_REGISTRY \"ISO8859\"\nSTARTCHAR A\nENCODING 65\nBBX 4 2 0 0\nBITMAP\n9\n6\nENDCHAR\nSTARTCHAR B\nENCODING 66\nBBX 3 3 0 0\nBITMAP\n7\n5\n7\nENDCHAR\nENDFONT\n";

const JIS_FONT: &str = "CHARSET_REGISTRY \"JISX0208.1983\"\r\nSTARTCHAR 2422\r\nENCODING 9250\r\nBBX 16 1 0 0\r\nBITMAP\r\nFFFF\r\nENDCHAR\r\n";

fn text_number(e: BdfError) -> NumberError {
    match e {
        BdfError::InvalidNumber(n) => n,
        other => panic!("unexpected {:?}", other),
    }
}

#[test]
fn parses_glyphs_and_measures() {
    let font = BdfFont::parse_bdf(ASCII_FONT).unwrap();
    assert_eq!(font.measure("AB"), 7);
    assert_eq!(font.measure("AxB"), 7);
    assert_eq!(font.measure(""), 0);
    assert_eq!(font.height(), 3);
}

#[test]
fn measure_checked_reports_the_first_missing_character() {
    let font = BdfFont::parse_bdf(ASCII_FONT).unwrap();
    assert_eq!(font.measure_checked("ABA"), Ok(11));
    assert_eq!(font.measure_checked("AxyB"), Err(MissingGlyph('x')));
}

#[test]
fn empty_font_has_no_height() {
    let font = BdfFont::parse_bdf("STARTFONT 2.1\nENDFONT\n").unwrap();
    assert_eq!(font.height(), 0);
    assert_eq!(font.measure("A"), 0);
}

#[test]
fn jis_font_finds_kana_through_euc_jp() {
    let font = BdfFont::parse_bdf(JIS_FONT).unwrap();
    assert_eq!(font.measure_checked("あ"), Ok(16));
    assert_eq!(font.measure_checked("a"), Err(MissingGlyph('a')));
}

#[test]
fn merge_fallback_adds_and_replaces_glyphs() {
    let mut font = BdfFont::parse_bdf(JIS_FONT).unwrap();
    font.merge_fallback(BdfFont::parse_bdf(ASCII_FONT).unwrap());
    assert_eq!(font.measure_checked("あAB"), Ok(23));
    let mut ascii = BdfFont::parse_bdf(ASCII_FONT).unwrap();
    let wide = "STARTCHAR A\nENCODING 65\nBBX 8 1 0 0\nBITMAP\nFF\nENDCHAR\n";
    ascii.merge_fallback(BdfFont::parse_bdf(wide).unwrap());
    assert_eq!(ascii.measure("AB"), 11);
    assert_eq!(ascii.height(), 3);
}

#[test]
fn glyph_without_numeric_encoding_is_skipped() {
    let src = "STARTCHAR x\nENCODING -1\nBBX 2 1 0 0\nBITMAP\n3\nENDCHAR\n";
    let font = BdfFont::parse_bdf(src).unwrap();
    assert_eq!(font.height(), 0);
}

#[test]
fn bad_numbers_are_errors() {
    let bbx = "STARTCHAR A\nENCODING 65\nBBX x 2 0 0\nENDCHAR\n";
    assert_eq!(
        text_number(BdfFont::parse_bdf(bbx).unwrap_err()),
        NumberError::InvalidDigit
    );
    let row = "STARTCHAR A\nENCODING 65\nBBX 4 1 0 0\nBITMAP\nZZ\nENDCHAR\n";
    assert_eq!(
        text_number(BdfFont::parse_bdf(row).unwrap_err()),
        NumberError::InvalidDigit
    );
    let empty_row = "STARTCHAR A\nENCODING 65\nBBX 4 1 0 0\nBITMAP\n\nENDCHAR\n";
    assert_eq!(
        text_number(BdfFont::parse_bdf(empty_row).unwrap_err()),
        NumberError::Empty
    );
    let big_row = "STARTCHAR A\nENCODING 65\nBBX 4 1 0 0\nBITMAP\n1FFFFFFFF\nENDCHAR\n";
    assert_eq!(
        text_number(BdfFont::parse_bdf(big_row).unwrap_err()),
        NumberError::TooLarge
    );
    let plus_row = "STARTCHAR A\nENCODING 65\nBBX 4 1 0 0\nBITMAP\n+f\nENDCHAR\n";
    assert!(BdfFont::parse_bdf(plus_row).is_ok());
}

#[test]
fn bitmap_height_must_match_bbx() {
    let src = "STARTCHAR A\nENCODING 65\nBBX 4 2 0 0\nBITMAP\nF\nENDCHAR\n";
    let e = BdfFont::parse_bdf(src).unwrap_err();
    assert_eq!(e, BdfError::InvalidBitmapHeight(65));
    assert_eq!(e.message(), "glyph 65 has invalid bitmap height");
    assert_eq!(
        BdfError::InvalidNumber(NumberError::InvalidDigit).message(),
        "invalid digit found in string"
    );
}

#[test]
fn draw_inks_set_bits_and_clips() {
    let font = BdfFont::parse_bdf(ASCII_FONT).unwrap();
    let mut frame = RgbFrame::black(6, 3);
    font.draw("A", &mut frame, 1, 0, [255, 0, 0]).unwrap();
    let red = [255, 0, 0];
    let black = [0, 0, 0];
    assert_eq!(frame.pixel(1, 0), red);
    assert_eq!(frame.pixel(4, 0), red);
    assert_eq!(frame.pixel(2, 0), black);
    assert_eq!(frame.pixel(2, 1), red);
    assert_eq!(frame.pixel(3, 1), red);
    assert_eq!(frame.pixel(1, 1), black);
    let mut clipped = RgbFrame::black(2, 2);
    font.draw("A", &mut clipped, -2, -1, red).unwrap();
    assert_eq!(clipped.pixel(0, 0), red);
    assert_eq!(clipped.pixel(1, 0), black);
}

#[test]
fn draw_twice_is_the_same_as_once() {
    let font = BdfFont::parse_bdf(ASCII_FONT).unwrap();
    let mut once = RgbFrame::black(8, 3);
    font.draw("AB", &mut once, 0, 0, [1, 2, 3]).unwrap();
    let mut twice = once.clone();
    font.draw("AB", &mut twice, 0, 0, [1, 2, 3]).unwrap();
    assert_eq!(once, twice);
}

#[test]
fn draw_with_a_missing_glyph_draws_nothing() {
    let font = BdfFont::parse_bdf(ASCII_FONT).unwrap();
    let mut frame = RgbFrame::black(8, 3);
    assert_eq!(
        font.draw("Az", &mut frame, 0, 0, [9, 9, 9]),
        Err(MissingGlyph('z'))
    );
    assert_eq!(frame, RgbFrame::black(8, 3));
}

#[test]
fn width_of_joined_text_is_the_sum() {
    let font = BdfFont::parse_bdf(ASCII_FONT).unwrap();
    assert_eq!(
        font.measure("ABxA"),
        font.measure("AB") + font.measure("xA")
    );
}

#[test]
fn missing_glyph_error_names_the_character() {
    let f = BdfFont::parse_bdf("STARTCHAR A\nENCODING 65\nBBX 8 2 0 0\nBITMAP\nFF\n81\nENDCHAR\n").unwrap();
    assert_eq!(f.measure_checked(""), Ok(0));
    assert_eq!(f.measure_checked("AA"), Ok(16));
    let e = f.measure_checked("AB").unwrap_err();
    assert_eq!(e, MissingGlyph('B'));
    assert_eq!(e.message(), "font has no glyph for B");
    assert_eq!(MissingGlyph('あ').message(), "font has no glyph for あ");
}

#[test]
fn measure_checked_agrees_with_measure_when_all_glyphs_exist() {
    let font = BdfFont::parse_bdf(ASCII_FONT).unwrap();
    for text in ["", "A", "AB", "BBA"] {
        assert_eq!(font.measure_checked(text), Ok(font.measure(text)));
    }
    assert!(font.measure_checked("A B").is_err());
}

#[test]
fn draw_only_places_rows_with_ink() {
    // The lower row has no ink, so it is never placed below `y`.
    let font = BdfFont::parse_bdf("STARTCHAR A\nENCODING 65\nBBX 2 2 0 0\nBITMAP\n3\n0\nENDCHAR\n").unwrap();
    let mut frame = RgbFrame::black(4, 2);
    assert_eq!(font.draw("A", &mut frame, 0, isize::MAX, [5, 5, 5]), Ok(()));
    assert_eq!(frame, RgbFrame::black(4, 2));
    font.draw("AA", &mut frame, -1, 1, [5, 5, 5]).unwrap();
    assert_eq!(frame.pixel(0, 1), [5, 5, 5]);
    assert_eq!(frame.pixel(2, 1), [5, 5, 5]);
    assert_eq!(frame.pixel(3, 1), [0, 0, 0]);
    assert_eq!(frame.pixel(0, 0), [0, 0, 0]);
}

#[test]
fn draw_moves_the_pen_by_a_wide_empty_glyph() {
    let wide = format!("STARTCHAR W\nENCODING 87\nBBX {} 0 0 0\nBITMAP\nENDCHAR\n", usize::MAX);
    let font = BdfFont::parse_bdf(&wide).unwrap();
    let mut frame = RgbFrame::black(2, 1);
    assert_eq!(font.draw("W", &mut frame, 0, 0, [1, 1, 1]), Ok(()));
    assert_eq!(frame, RgbFrame::black(2, 1));
}
