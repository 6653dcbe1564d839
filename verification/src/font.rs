//! Bitmap fonts in the BDF format: reading them, and measuring and drawing text.
use vstd::prelude::*;

use encoding_rs::EUC_JP;
use vstd::std_specs::iter::IteratorSpec;
use std::collections::BTreeMap;

use crate::frame::{FrameModel, RgbFrame};
use crate::text::{
    chars_of, lines, parse_number, parse_number_in, same_chars, split_lines, split_words,
    trim, trim_bounds, views_of, words, NumberError, number_error_text, decimal, decimal_string,
    push_char,
};

verus! {

broadcast use vstd::std_specs::btree::group_btree_axioms;

/// One character's bitmap: `rows[i]` holds row `i`, its leftmost pixel in bit `width - 1`.
#[derive(Clone, Debug)]
pub struct Glyph {
    width: usize,
    height: usize,
    rows: Vec<u32>,
}

pub struct GlyphModel {
    pub width: usize,
    pub height: usize,
    pub rows: Seq<u32>,
}

impl View for Glyph {
    type V = GlyphModel;

    closed spec fn view(&self) -> GlyphModel {
        GlyphModel { width: self.width, height: self.height, rows: self.rows@ }
    }
}

/// A font read from BDF: its glyphs by code, and whether the codes are JIS X 0208.
#[derive(Clone, Debug)]
pub struct BdfFont {
    glyphs: BTreeMap<u32, Glyph>,
    jis_x0208: bool,
}

pub struct FontModel {
    pub glyphs: Map<u32, GlyphModel>,
    pub jis_x0208: bool,
}

pub open spec fn glyph_views(m: Map<u32, Glyph>) -> Map<u32, GlyphModel> {
    m.map_values(|g: Glyph| g@)
}

impl BdfFont {
    /// Every glyph has as many bitmap rows as its height.
    pub closed spec fn well_formed(&self) -> bool {
        glyphs_well_formed(glyph_views(self.glyphs@))
    }
}

impl View for BdfFont {
    type V = FontModel;

    closed spec fn view(&self) -> FontModel {
        FontModel { glyphs: glyph_views(self.glyphs@), jis_x0208: self.jis_x0208 }
    }
}

/// Why a BDF source could not be read.
#[derive(Clone, Copy, Debug, PartialEq, Eq, Structural)]
pub enum BdfError {
    /// A `BBX` width or height, or a bitmap row, that is not a number.
    InvalidNumber(NumberError),
    /// The glyph with this encoding has another number of bitmap rows than its
    /// `BBX` height.
    InvalidBitmapHeight(u32),
}

impl BdfError {
    /// The error as text.
    pub fn message(&self) -> (s: String)
        ensures
            s@ == bdf_error_text(*self),
    {
        match self {
            BdfError::InvalidNumber(e) => e.message(),
            BdfError::InvalidBitmapHeight(code) => {
                let mut s = String::from_str("glyph ");
                s.append(decimal_string(*code as usize).as_str());
                s.append(" has invalid bitmap height");
                s
            },
        }
    }
}

pub open spec fn bdf_error_text(e: BdfError) -> Seq<char> {
    match e {
        BdfError::InvalidNumber(n) => number_error_text(n),
        BdfError::InvalidBitmapHeight(code) => "glyph "@ + decimal(code as nat)
            + " has invalid bitmap height"@,
    }
}

/// Where reading a BDF source stands after some of its lines.
pub struct BdfReader {
    pub glyphs: Map<u32, GlyphModel>,
    pub jis_x0208: bool,
    pub encoding: Option<u32>,
    pub width: usize,
    pub height: usize,
    pub rows: Seq<u32>,
    pub bitmap: bool,
}

pub open spec fn bdf_start() -> BdfReader {
    BdfReader {
        glyphs: Map::empty(),
        jis_x0208: false,
        encoding: None,
        width: 0,
        height: 0,
        rows: seq![],
        bitmap: false,
    }
}

/// `s` without leading `'"'`.
pub open spec fn strip_quotes_start(s: Seq<char>) -> Seq<char>
    decreases s.len(),
{
    if s.len() > 0 && s[0] == '"' {
        strip_quotes_start(s.drop_first())
    } else {
        s
    }
}

/// `s` without trailing `'"'`.
pub open spec fn strip_quotes_end(s: Seq<char>) -> Seq<char>
    decreases s.len(),
{
    if s.len() > 0 && s.last() == '"' {
        strip_quotes_end(s.drop_last())
    } else {
        s
    }
}

/// Whether a `CHARSET_REGISTRY` value, without its quotes, starts with `JISX0208`.
pub open spec fn is_jis_registry(value: Seq<char>) -> bool {
    let v = strip_quotes_end(strip_quotes_start(value));
    v.len() >= 8 && v.subrange(0, 8) == "JISX0208"@
}

/// The reader after one more line of the source.
pub open spec fn bdf_step(st: BdfReader, line: Seq<char>) -> Result<BdfReader, BdfError> {
    let w = words(line);
    if w.len() == 2 && w[0] == "CHARSET_REGISTRY"@ {
        Ok(BdfReader { jis_x0208: is_jis_registry(w[1]), ..st })
    } else if w.len() >= 1 && w[0] == "STARTCHAR"@ {
        Ok(BdfReader { encoding: None, width: 0, height: 0, rows: seq![], bitmap: false, ..st })
    } else if w.len() == 2 && w[0] == "ENCODING"@ {
        Ok(
            BdfReader {
                encoding: match parse_number(w[1], 10, u32::MAX as nat) {
                    Ok(v) => Some(v as u32),
                    Err(_) => None,
                },
                ..st
            },
        )
    } else if w.len() >= 3 && w[0] == "BBX"@ {
        match parse_number(w[1], 10, usize::MAX as nat) {
            Err(e) => Err(BdfError::InvalidNumber(e)),
            Ok(wd) => match parse_number(w[2], 10, usize::MAX as nat) {
                Err(e) => Err(BdfError::InvalidNumber(e)),
                Ok(ht) => Ok(BdfReader { width: wd as usize, height: ht as usize, ..st }),
            },
        }
    } else if w.len() == 1 && w[0] == "BITMAP"@ {
        Ok(BdfReader { bitmap: true, ..st })
    } else if w.len() == 1 && w[0] == "ENDCHAR"@ {
        match st.encoding {
            Some(code) => if st.rows.len() != st.height {
                Err(BdfError::InvalidBitmapHeight(code))
            } else {
                Ok(
                    BdfReader {
                        glyphs: st.glyphs.insert(
                            code,
                            GlyphModel { width: st.width, height: st.height, rows: st.rows },
                        ),
                        bitmap: false,
                        ..st
                    },
                )
            },
            None => Ok(BdfReader { bitmap: false, ..st }),
        }
    } else if st.bitmap {
        match parse_number(trim(line), 16, u32::MAX as nat) {
            Ok(v) => Ok(BdfReader { rows: st.rows.push(v as u32), ..st }),
            Err(e) => Err(BdfError::InvalidNumber(e)),
        }
    } else {
        Ok(st)
    }
}

/// The reader after the lines `ls`, stopping at the first error.
pub open spec fn bdf_fold(ls: Seq<Seq<char>>) -> Result<BdfReader, BdfError>
    decreases ls.len(),
{
    if ls.len() == 0 {
        Ok(bdf_start())
    } else {
        match bdf_fold(ls.drop_last()) {
            Ok(st) => bdf_step(st, ls.last()),
            Err(e) => Err(e),
        }
    }
}

/// The font that a BDF source describes, or the first error in it.
pub open spec fn bdf_parse(source: Seq<char>) -> Result<FontModel, BdfError> {
    match bdf_fold(lines(source)) {
        Ok(st) => Ok(FontModel { glyphs: st.glyphs, jis_x0208: st.jis_x0208 }),
        Err(e) => Err(e),
    }
}

/// Every glyph has as many rows as its height says.
pub open spec fn glyphs_well_formed(glyphs: Map<u32, GlyphModel>) -> bool {
    forall|k: u32| #[trigger] glyphs.contains_key(k) ==> glyphs[k].rows.len() == glyphs[k].height
}

pub proof fn lemma_fold_error_stays(ls: Seq<Seq<char>>, k: int)
    requires
        0 <= k <= ls.len(),
        bdf_fold(ls.take(k)) is Err,
    ensures
        bdf_fold(ls) == bdf_fold(ls.take(k)),
    decreases ls.len(),
{
    if k == ls.len() {
        assert(ls.take(k) =~= ls);
    } else {
        assert(ls.drop_last().take(k) =~= ls.take(k));
        lemma_fold_error_stays(ls.drop_last(), k);
    }
}

pub proof fn lemma_fold_well_formed(ls: Seq<Seq<char>>)
    ensures
        bdf_fold(ls) matches Ok(st) ==> glyphs_well_formed(st.glyphs),
    decreases ls.len(),
{
    if ls.len() > 0 {
        lemma_fold_well_formed(ls.drop_last());
    }
}

/// The reader's state while it runs.
struct Reader {
    glyphs: BTreeMap<u32, Glyph>,
    jis_x0208: bool,
    encoding: Option<u32>,
    width: usize,
    height: usize,
    rows: Vec<u32>,
    bitmap: bool,
}

impl Reader {
    closed spec fn model(&self) -> BdfReader {
        BdfReader {
            glyphs: glyph_views(self.glyphs@),
            jis_x0208: self.jis_x0208,
            encoding: self.encoding,
            width: self.width,
            height: self.height,
            rows: self.rows@,
            bitmap: self.bitmap,
        }
    }
}

/// The keywords of the format, as characters.
struct Keywords {
    charset_registry: Vec<char>,
    startchar: Vec<char>,
    encoding: Vec<char>,
    bbx: Vec<char>,
    bitmap: Vec<char>,
    endchar: Vec<char>,
    jisx0208: Vec<char>,
}

impl Keywords {
    closed spec fn ok(&self) -> bool {
        &&& self.charset_registry@ == "CHARSET_REGISTRY"@
        &&& self.startchar@ == "STARTCHAR"@
        &&& self.encoding@ == "ENCODING"@
        &&& self.bbx@ == "BBX"@
        &&& self.bitmap@ == "BITMAP"@
        &&& self.endchar@ == "ENDCHAR"@
        &&& self.jisx0208@ == "JISX0208"@
    }

    fn new() -> (k: Keywords)
        ensures
            k.ok(),
    {
        Keywords {
            charset_registry: chars_of("CHARSET_REGISTRY"),
            startchar: chars_of("STARTCHAR"),
            encoding: chars_of("ENCODING"),
            bbx: chars_of("BBX"),
            bitmap: chars_of("BITMAP"),
            endchar: chars_of("ENDCHAR"),
            jisx0208: chars_of("JISX0208"),
        }
    }
}

proof fn lemma_strip_start_skip(s: Seq<char>, i: int)
    requires
        0 <= i <= s.len(),
        forall|k: int| 0 <= k < i ==> #[trigger] s[k] == '"',
    ensures
        strip_quotes_start(s) == strip_quotes_start(s.subrange(i, s.len() as int)),
    decreases i,
{
    if i > 0 {
        lemma_strip_start_skip(s.drop_first(), i - 1);
        assert(s.drop_first().subrange(i - 1, s.drop_first().len() as int) =~= s.subrange(
            i,
            s.len() as int,
        ));
    } else {
        assert(s =~= s.subrange(0, s.len() as int));
    }
}

proof fn lemma_strip_end_skip(s: Seq<char>, j: int)
    requires
        0 <= j <= s.len(),
        forall|k: int| j <= k < s.len() ==> #[trigger] s[k] == '"',
    ensures
        strip_quotes_end(s) == strip_quotes_end(s.subrange(0, j)),
    decreases s.len() - j,
{
    if j < s.len() {
        lemma_strip_end_skip(s.drop_last(), j);
        assert(s.drop_last().subrange(0, j) =~= s.subrange(0, j));
    } else {
        assert(s =~= s.subrange(0, j));
    }
}

/// Whether a `CHARSET_REGISTRY` value names JIS X 0208 (see [`is_jis_registry`]).
fn jis_registry(value: &[char], jis: &[char]) -> (r: bool)
    requires
        jis@ == "JISX0208"@,
    ensures
        r == is_jis_registry(value@),
{
    proof {
        reveal_strlit("JISX0208");
    }
    let n = value.len();
    let mut i: usize = 0;
    while i < n && value[i] == '"'
        invariant
            i <= n == value@.len(),
            forall|k: int| 0 <= k < i ==> #[trigger] value@[k] == '"',
        decreases n - i,
    {
        i += 1;
    }
    proof {
        lemma_strip_start_skip(value@, i as int);
        let rest = value@.subrange(i as int, n as int);
        if rest.len() > 0 {
            assert(rest[0] == value@[i as int]);
        }
        assert(strip_quotes_start(value@) == rest);
    }
    let mut j: usize = n;
    while j > i && value[j - 1] == '"'
        invariant
            i <= j <= n == value@.len(),
            forall|k: int| j <= k < n ==> #[trigger] value@[k] == '"',
        decreases j - i,
    {
        j -= 1;
    }
    proof {
        let rest = value@.subrange(i as int, n as int);
        lemma_strip_end_skip(rest, j - i);
        assert(rest.subrange(0, j - i) =~= value@.subrange(i as int, j as int));
        let core = value@.subrange(i as int, j as int);
        if core.len() > 0 {
            assert(core.last() == value@[j - 1]);
        }
        assert(strip_quotes_end(core) == core);
    }
    if j - i < 8 {
        return false;
    }
    let ghost core = value@.subrange(i as int, j as int);
    assert(strip_quotes_end(strip_quotes_start(value@)) == core);
    let mut k: usize = 0;
    while k < 8
        invariant
            k <= 8,
            i + 8 <= j <= value@.len(),
            jis@.len() == 8,
            core == value@.subrange(i as int, j as int),
            strip_quotes_end(strip_quotes_start(value@)) == core,
            jis@ == "JISX0208"@,
            forall|t: int| 0 <= t < k ==> value@[i + t] == jis@[t],
        decreases 8 - k,
    {
        if value[i + k] != jis[k] {
            assert(core.subrange(0, 8)[k as int] != jis@[k as int]);
            return false;
        }
        k += 1;
    }
    assert(core.subrange(0, 8) =~= jis@);
    true
}

impl Reader {
    /// Reads one line (see [`bdf_step`]).
    fn step(&mut self, line: &[char], kw: &Keywords) -> (r: Result<(), BdfError>)
        requires
            kw.ok(),
        ensures
            match bdf_step(old(self).model(), line@) {
                Ok(st) => r is Ok && final(self).model() == st,
                Err(e) => r == Err::<(), BdfError>(e),
            },
    {
        let w = split_words(line);
        let ghost ws = words(line@);
        assert(views_of(w@) == ws);
        assert(forall|i: int| 0 <= i < w@.len() ==> w@[i]@ == #[trigger] ws[i]);
        if w.len() == 2 && same_chars(w[0].as_slice(), kw.charset_registry.as_slice()) {
            self.jis_x0208 = jis_registry(w[1].as_slice(), kw.jisx0208.as_slice());
            return Ok(());
        }
        if w.len() >= 1 && same_chars(w[0].as_slice(), kw.startchar.as_slice()) {
            self.encoding = None;
            self.width = 0;
            self.height = 0;
            self.rows = Vec::new();
            self.bitmap = false;
            assert(self.rows@ =~= Seq::<u32>::empty());
            return Ok(());
        }
        if w.len() == 2 && same_chars(w[0].as_slice(), kw.encoding.as_slice()) {
            let code = &w[1];
            assert(code@.subrange(0, code@.len() as int) =~= code@);
            self.encoding = match parse_number_in(code.as_slice(), 0, code.len(), 10, 0xffff_ffff) {
                Ok(v) => Some(v as u32),
                Err(_) => None,
            };
            return Ok(());
        }
        if w.len() >= 3 && same_chars(w[0].as_slice(), kw.bbx.as_slice()) {
            let a = &w[1];
            let b = &w[2];
            assert(a@.subrange(0, a@.len() as int) =~= a@);
            assert(b@.subrange(0, b@.len() as int) =~= b@);
            let wd = match parse_number_in(a.as_slice(), 0, a.len(), 10, usize::MAX as u64) {
                Ok(v) => v,
                Err(e) => {
                    return Err(BdfError::InvalidNumber(e));
                },
            };
            let ht = match parse_number_in(b.as_slice(), 0, b.len(), 10, usize::MAX as u64) {
                Ok(v) => v,
                Err(e) => {
                    return Err(BdfError::InvalidNumber(e));
                },
            };
            self.width = wd as usize;
            self.height = ht as usize;
            return Ok(());
        }
        if w.len() == 1 && same_chars(w[0].as_slice(), kw.bitmap.as_slice()) {
            self.bitmap = true;
            return Ok(());
        }
        if w.len() == 1 && same_chars(w[0].as_slice(), kw.endchar.as_slice()) {
            match self.encoding {
                Some(code) => {
                    if self.rows.len() != self.height {
                        return Err(BdfError::InvalidBitmapHeight(code));
                    }
                    let ghost before = self.glyphs@;
                    let glyph = Glyph { width: self.width, height: self.height, rows: self.rows.clone() };
                    assert(glyph.rows@ =~= self.rows@);
                    self.glyphs.insert(code, glyph);
                    assert(glyph_views(self.glyphs@) =~= glyph_views(before).insert(
                        code,
                        GlyphModel { width: self.width, height: self.height, rows: self.rows@ },
                    ));
                },
                None => {},
            }
            self.bitmap = false;
            return Ok(());
        }
        if self.bitmap {
            let (a, b) = trim_bounds(line);
            match parse_number_in(line, a, b, 16, 0xffff_ffff) {
                Ok(v) => {
                    self.rows.push(v as u32);
                    return Ok(());
                },
                Err(e) => {
                    return Err(BdfError::InvalidNumber(e));
                },
            }
        }
        Ok(())
    }
}

impl BdfFont {
    /// Reads a font from BDF source text.
    ///
    /// Only what drawing needs is read: `CHARSET_REGISTRY`, and for each glyph its
    /// `ENCODING`, `BBX` width and height, and `BITMAP` rows. A glyph whose
    /// encoding is not a number is skipped.
    pub fn parse_bdf(source: &str) -> (r: Result<BdfFont, BdfError>)
        ensures
            match bdf_parse(source@) {
                Ok(m) => r matches Ok(f) && f@ == m,
                Err(e) => r == Err::<BdfFont, BdfError>(e),
            },
            r matches Ok(f) ==> f.well_formed(),
    {
        let cs = chars_of(source);
        let ls = split_lines(cs.as_slice());
        let ghost all = lines(source@);
        assert(views_of(ls@) == all);
        let kw = Keywords::new();
        let mut rd = Reader {
            glyphs: BTreeMap::new(),
            jis_x0208: false,
            encoding: None,
            width: 0,
            height: 0,
            rows: Vec::new(),
            bitmap: false,
        };
        assert(glyph_views(rd.glyphs@) =~= Map::<u32, GlyphModel>::empty());
        assert(rd.model() =~= bdf_start());
        let mut i: usize = 0;
        while i < ls.len()
            invariant
                i <= ls@.len() == all.len(),
                views_of(ls@) == all,
                all == lines(source@),
                kw.ok(),
                bdf_fold(all.take(i as int)) == Ok::<BdfReader, BdfError>(rd.model()),
            decreases ls@.len() - i,
        {
            let ghost before = rd.model();
            assert(all.take(i + 1).drop_last() =~= all.take(i as int));
            assert(all.take(i + 1).last() == ls@[i as int]@);
            match rd.step(ls[i].as_slice(), &kw) {
                Ok(()) => {},
                Err(e) => {
                    proof {
                        assert(bdf_fold(all.take(i + 1)) == bdf_step(before, ls@[i as int]@));
                        lemma_fold_error_stays(all, i + 1);
                    }
                    return Err(e);
                },
            }
            i += 1;
        }
        assert(all.take(all.len() as int) =~= all);
        proof {
            lemma_fold_well_formed(all);
        }
        Ok(BdfFont { glyphs: rd.glyphs, jis_x0208: rd.jis_x0208 })
    }
}


/// The bytes that the EUC-JP encoder of `encoding_rs` writes for `ch`.
pub uninterp spec fn euc_jp_bytes(ch: char) -> Seq<u8>;

/// Encodes one character as EUC-JP with `encoding_rs::EUC_JP.encode`. Trusted:
/// the bytes are `euc_jp_bytes(ch)`, and an ASCII character is its own byte (the
/// encoder copies the ASCII prefix of its input unchanged).
#[verifier::external_body]
fn encode_euc_jp(ch: char) -> (bytes: Vec<u8>)
    ensures
        bytes@ == euc_jp_bytes(ch),
        (ch as u32) < 0x80 ==> bytes@ == seq![ch as u8],
{
    let text = ch.to_string();
    EUC_JP.encode(&text).0.into_owned()
}

/// The JIS X 0208 code of a character from its EUC-JP bytes: a two-byte encoding
/// with both bytes at least `0xa1` gives the two bytes less `0x80`, high byte first;
/// any other encoding leaves the character's own code point.
pub open spec fn code_from_encoding(ch: char, bytes: Seq<u8>) -> u32 {
    if bytes.len() == 2 && bytes[0] >= 0xa1 && bytes[1] >= 0xa1 {
        ((bytes[0] - 0x80) * 256 + (bytes[1] - 0x80)) as u32
    } else {
        ch as u32
    }
}

/// The code under which a font looks up `ch`.
pub open spec fn glyph_code(jis_x0208: bool, ch: char) -> u32 {
    if jis_x0208 {
        code_from_encoding(ch, euc_jp_bytes(ch))
    } else {
        ch as u32
    }
}

/// The JIS X 0208 code of `ch`, given its EUC-JP encoding (see [`code_from_encoding`]).
pub fn jis_code(ch: char, encoded: &[u8]) -> (code: u32)
    ensures
        code == code_from_encoding(ch, encoded@),
{
    if encoded.len() == 2 && encoded[0] >= 0xa1 && encoded[1] >= 0xa1 {
        let hi: u8 = encoded[0] - 0x80;
        let lo: u8 = encoded[1] - 0x80;
        let code = (hi as u32) << 8 | (lo as u32);
        assert(((hi as u32) << 8 | (lo as u32)) == (hi as u32) * 256 + (lo as u32)) by (bit_vector);
        code
    } else {
        ch as u32
    }
}

/// Whether the font has a glyph for `ch`.
pub open spec fn has_glyph(font: FontModel, ch: char) -> bool {
    font.glyphs.contains_key(glyph_code(font.jis_x0208, ch))
}

/// The glyph of `ch`; meaningful where [`has_glyph`] holds.
pub open spec fn glyph_of(font: FontModel, ch: char) -> GlyphModel {
    font.glyphs[glyph_code(font.jis_x0208, ch)]
}

/// The width of `text`, counting only the characters that have a glyph.
pub open spec fn text_width(font: FontModel, text: Seq<char>) -> nat
    decreases text.len(),
{
    if text.len() == 0 {
        0
    } else {
        text_width(font, text.drop_last()) + if has_glyph(font, text.last()) {
            glyph_of(font, text.last()).width as nat
        } else {
            0
        }
    }
}

/// The first character of `text` that has no glyph, if any.
pub open spec fn first_missing(font: FontModel, text: Seq<char>) -> Option<char>
    decreases text.len(),
{
    if text.len() == 0 {
        None
    } else {
        match first_missing(font, text.drop_last()) {
            Some(c) => Some(c),
            None => if has_glyph(font, text.last()) {
                None
            } else {
                Some(text.last())
            },
        }
    }
}

/// How many characters of `text` come before the first that has no glyph.
pub open spec fn covered_len(font: FontModel, text: Seq<char>) -> nat
    decreases text.len(),
{
    if text.len() == 0 {
        0
    } else if first_missing(font, text.drop_last()) is Some {
        covered_len(font, text.drop_last())
    } else {
        text.len()
    }
}

pub proof fn lemma_text_width_prefix(font: FontModel, text: Seq<char>, i: int)
    requires
        0 <= i <= text.len(),
    ensures
        text_width(font, text.take(i)) <= text_width(font, text),
    decreases text.len(),
{
    if i < text.len() {
        assert(text.drop_last().take(i) =~= text.take(i));
        lemma_text_width_prefix(font, text.drop_last(), i);
    } else {
        assert(text.take(i) =~= text);
    }
}

pub proof fn lemma_covered(font: FontModel, text: Seq<char>, i: int)
    requires
        0 <= i <= text.len(),
        first_missing(font, text.take(i)) is None,
    ensures
        i <= covered_len(font, text),
        covered_len(font, text) <= text.len(),
    decreases text.len(),
{
    if text.len() > 0 {
        if i < text.len() {
            assert(text.drop_last().take(i) =~= text.take(i));
            lemma_covered(font, text.drop_last(), i);
        } else {
            assert(text.take(i) =~= text);
        }
    }
}

/// The font has no glyph for this character.
#[derive(Clone, Copy, Debug, PartialEq, Eq, Structural)]
pub struct MissingGlyph(pub char);

impl MissingGlyph {
    /// The error as text.
    pub fn message(&self) -> (s: String)
        ensures
            s@ == missing_glyph_text(*self),
    {
        let mut s = String::from_str("font has no glyph for ");
        push_char(&mut s, self.0);
        s
    }
}

pub open spec fn missing_glyph_text(e: MissingGlyph) -> Seq<char> {
    "font has no glyph for "@.push(e.0)
}

impl BdfFont {
    /// The glyph of `ch`, if the font has one.
    fn glyph(&self, ch: char) -> (r: Option<&Glyph>)
        ensures
            match r {
                Some(g) => has_glyph(self@, ch) && g@ == glyph_of(self@, ch),
                None => !has_glyph(self@, ch),
            },
    {
        let code = if self.jis_x0208 {
            let encoded = encode_euc_jp(ch);
            jis_code(ch, encoded.as_slice())
        } else {
            ch as u32
        };
        self.glyphs.get(&code)
    }

    /// The width of `text` in pixels; characters without a glyph count nothing.
    pub fn measure(&self, text: &str) -> (w: usize)
        requires
            text_width(self@, text@) <= usize::MAX,
        ensures
            w == text_width(self@, text@),
    {
        let mut total: usize = 0;
        for ch in it: text.chars()
            invariant
                it.seq() == text@,
                text_width(self@, text@) <= usize::MAX,
                total == text_width(self@, text@.take(it.index() as int)),
        {
            let ghost i = it.index() as int;
            proof {
                assert(text@.take(i + 1).drop_last() =~= text@.take(i));
                lemma_text_width_prefix(self@, text@, i + 1);
            }
            match self.glyph(ch) {
                Some(g) => {
                    total = total + g.width;
                },
                None => {},
            }
        }
        assert(text@.take(text@.len() as int) =~= text@);
        total
    }

    /// The width of `text` in pixels, or the first character that has no glyph.
    pub fn measure_checked(&self, text: &str) -> (r: Result<usize, MissingGlyph>)
        requires
            text_width(self@, text@.take(covered_len(self@, text@) as int)) <= usize::MAX,
        ensures
            match first_missing(self@, text@) {
                Some(c) => r == Err::<usize, MissingGlyph>(MissingGlyph(c)),
                None => r == Ok::<usize, MissingGlyph>(text_width(self@, text@) as usize),
            },
    {
        let mut total: usize = 0;
        for ch in it: text.chars()
            invariant
                it.seq() == text@,
                text_width(self@, text@.take(covered_len(self@, text@) as int)) <= usize::MAX,
                first_missing(self@, text@.take(it.index() as int)) is None,
                total == text_width(self@, text@.take(it.index() as int)),
        {
            let ghost i = it.index() as int;
            proof {
                assert(text@.take(i + 1).drop_last() =~= text@.take(i));
            }
            match self.glyph(ch) {
                Some(g) => {
                    proof {
                        lemma_covered(self@, text@, i + 1);
                        let c = covered_len(self@, text@) as int;
                        assert(text@.take(c).take(i + 1) =~= text@.take(i + 1));
                        lemma_text_width_prefix(self@, text@.take(c), i + 1);
                    }
                    total = total + g.width;
                },
                None => {
                    proof {
                        lemma_missing_stays(self@, text@, i + 1);
                    }
                    return Err(MissingGlyph(ch));
                },
            }
        }
        assert(text@.take(text@.len() as int) =~= text@);
        Ok(total)
    }

    /// The tallest glyph's height, or 0 for a font without glyphs.
    pub fn height(&self) -> (h: usize)
        ensures
            forall|k: u32| #[trigger] self@.glyphs.contains_key(k) ==> self@.glyphs[k].height <= h,
            h == 0 || exists|k: u32| #[trigger] self@.glyphs.contains_key(k) && self@.glyphs[k].height == h,
    {
        let mut best: usize = 0;
        for entry in it: self.glyphs.iter()
            invariant
                forall|k: u32| #[trigger] self.glyphs@.contains_key(k) ==> it.seq().contains((&k, &self.glyphs@[k])),
                forall|j: int| #![trigger it.seq()[j]] 0 <= j < it.seq().len() ==> self.glyphs@.contains_key(*it.seq()[j].0) && self.glyphs@[*it.seq()[j].0] == *it.seq()[j].1,
                forall|j: int| #![trigger it.seq()[j]] 0 <= j < it.index() ==> (*it.seq()[j].1).height <= best,
                best == 0 || exists|k: u32| #[trigger] self.glyphs@.contains_key(k) && self.glyphs@[k].height == best,
                it.index() == it.seq().len() ==> forall|k: u32| #[trigger] self.glyphs@.contains_key(k) ==> self.glyphs@[k].height <= best,
        {
            let (key, g) = entry;
            let ghost i = it.index() as int;
            assert(it.seq()[i] == (key, g));
            if g.height > best {
                best = g.height;
                assert(self.glyphs@.contains_key(*key) && self.glyphs@[*key].height == best);
            }
        }
        proof {
            assert forall|k: u32| #[trigger] self@.glyphs.contains_key(k) implies self@.glyphs[k].height <= best by {
                assert(self.glyphs@.contains_key(k));
            }
            if best != 0 {
                let k = choose|k: u32| #[trigger] self.glyphs@.contains_key(k) && self.glyphs@[k].height == best;
                assert(self@.glyphs.contains_key(k));
            }
        }
        best
    }
}

pub proof fn lemma_missing_stays(font: FontModel, text: Seq<char>, i: int)
    requires
        0 <= i <= text.len(),
        first_missing(font, text.take(i)) is Some,
    ensures
        first_missing(font, text) == first_missing(font, text.take(i)),
    decreases text.len(),
{
    if i < text.len() {
        assert(text.drop_last().take(i) =~= text.take(i));
        lemma_missing_stays(font, text.drop_last(), i);
    } else {
        assert(text.take(i) =~= text);
    }
}

impl Glyph {
    /// A copy of the glyph.
    fn copy(&self) -> (r: Glyph)
        ensures
            r@ == self@,
    {
        let rows = self.rows.clone();
        assert(rows@ =~= self.rows@);
        Glyph { width: self.width, height: self.height, rows }
    }
}

impl BdfFont {
    /// Adds the glyphs of `fallback`; where both fonts have a code, the glyph of
    /// `fallback` replaces this font's.
    pub fn merge_fallback(&mut self, fallback: BdfFont)
        ensures
            final(self)@.glyphs == old(self)@.glyphs.union_prefer_right(fallback@.glyphs),
            final(self)@.jis_x0208 == old(self)@.jis_x0208,
            old(self).well_formed() && fallback.well_formed() ==> final(self).well_formed(),
    {
        let ghost orig = glyph_views(self.glyphs@);
        let ghost fb = glyph_views(fallback.glyphs@);
        let ghost mut added: Set<u32> = Set::empty();
        for entry in it: fallback.glyphs.iter()
            invariant
                forall|k: u32| #[trigger] fallback.glyphs@.contains_key(k) ==> it.seq().contains((&k, &fallback.glyphs@[k])),
                forall|j: int| #![trigger it.seq()[j]] 0 <= j < it.seq().len() ==> fallback.glyphs@.contains_key(*it.seq()[j].0) && fallback.glyphs@[*it.seq()[j].0] == *it.seq()[j].1,
                forall|j: int| #![trigger it.seq()[j]] 0 <= j < it.index() ==> added.contains(*it.seq()[j].0),
                added.subset_of(fb.dom()),
                orig == glyph_views(old(self).glyphs@),
                fb == glyph_views(fallback.glyphs@),
                glyph_views(self.glyphs@) == orig.union_prefer_right(fb.restrict(added)),
                self.jis_x0208 == old(self).jis_x0208,
                it.index() == it.seq().len() ==> added == fb.dom(),
        {
            let (key, g) = entry;
            let ghost i = it.index() as int;
            assert(it.seq()[i] == (key, g));
            let ghost before = self.glyphs@;
            let copy = g.copy();
            self.glyphs.insert(*key, copy);
            proof {
                assert(glyph_views(self.glyphs@) =~= glyph_views(before).insert(*key, copy@));
                assert(fallback.glyphs@.contains_key(*key));
                assert(copy@ == fb[*key]);
                let old_added = added;
                added = added.insert(*key);
                assert(glyph_views(before) == orig.union_prefer_right(fb.restrict(old_added)));
                assert(orig.union_prefer_right(fb.restrict(added)) =~= orig.union_prefer_right(fb.restrict(old_added)).insert(*key, fb[*key]));
                assert(glyph_views(self.glyphs@) =~= orig.union_prefer_right(fb.restrict(added)));
            }
        }
        proof {
            assert(fb.restrict(added) =~= fb);
            if old(self).well_formed() && fallback.well_formed() {
                assert(glyphs_well_formed(glyph_views(self.glyphs@)));
            }
        }
    }
}

/// Whether pixel `gx` from the left of a glyph row `width` pixels wide is set.
pub open spec fn row_bit(row: u32, width: usize, gx: int) -> bool {
    row & (1u32 << ((width - 1 - gx) as u32)) != 0
}

/// How far drawing `text` moves the pen: the sum of its glyphs' widths, each
/// taken as an `isize` (a width beyond `isize::MAX` wraps round, as the
/// conversion does).
pub open spec fn pen_advance(font: FontModel, text: Seq<char>) -> int
    decreases text.len(),
{
    if text.len() == 0 {
        0
    } else {
        pen_advance(font, text.drop_last()) + if has_glyph(font, text.last()) {
            (glyph_of(font, text.last()).width as isize) as int
        } else {
            0
        }
    }
}

/// Whether pixel `(gx, gy)` of the glyph of `text[i]` is set and lands on `(px, py)`
/// when `text` is drawn with its top-left corner at `(x, y)`.
pub open spec fn ink_at(
    font: FontModel,
    text: Seq<char>,
    x: int,
    y: int,
    i: int,
    gy: int,
    gx: int,
    px: int,
    py: int,
) -> bool {
    &&& 0 <= i < text.len()
    &&& has_glyph(font, text[i])
    &&& 0 <= gy < glyph_of(font, text[i]).rows.len()
    &&& 0 <= gx < glyph_of(font, text[i]).width
    &&& row_bit(glyph_of(font, text[i]).rows[gy], glyph_of(font, text[i]).width, gx)
    &&& px == x + pen_advance(font, text.take(i)) + gx
    &&& py == y + gy
}

/// Whether drawing `text` at `(x, y)` inks pixel `(px, py)`.
pub open spec fn inked(font: FontModel, text: Seq<char>, x: int, y: int, px: int, py: int) -> bool {
    exists|i: int, gy: int, gx: int| #[trigger] ink_at(font, text, x, y, i, gy, gx, px, py)
}

/// Whether a glyph pixel that comes before `(i, gy, gx)` (glyph, then row, then
/// column) inks `(px, py)`.
pub open spec fn inked_before(
    font: FontModel,
    text: Seq<char>,
    x: int,
    y: int,
    i: int,
    gy: int,
    gx: int,
    px: int,
    py: int,
) -> bool {
    exists|a: int, b: int, c: int|
        #[trigger] ink_at(font, text, x, y, a, b, c, px, py) && (a < i || (a == i && (b < gy || (
        b == gy && c < gx))))
}

/// The frame `f` with every pixel that `text` inks set to `color`.
pub open spec fn painted(
    f: FrameModel,
    font: FontModel,
    text: Seq<char>,
    x: int,
    y: int,
    color: [u8; 3],
) -> FrameModel {
    FrameModel {
        pixels: Seq::new(
            f.height as nat,
            |py: int|
                Seq::new(
                    f.width as nat,
                    |px: int|
                        if inked(font, text, x, y, px, py) {
                            color
                        } else {
                            f.pixels[py][px]
                        },
                ),
        ),
        ..f
    }
}

/// Whether pixel `(gx, gy)` of the glyph of `text[i]` is set.
pub open spec fn glyph_bit(font: FontModel, text: Seq<char>, i: int, gy: int, gx: int) -> bool {
    &&& 0 <= i < text.len()
    &&& 0 <= gy < glyph_of(font, text[i]).rows.len()
    &&& 0 <= gx < glyph_of(font, text[i]).width
    &&& row_bit(glyph_of(font, text[i]).rows[gy], glyph_of(font, text[i]).width, gx)
}

/// What drawing needs of the glyphs of `text` so that no step overflows: the
/// pen, moved on by each glyph's width, stays within `isize`; every set pixel's
/// row fits in `isize` below `y`; a glyph with rows is at most 32 pixels wide
/// (its rows are `u32`); a glyph's rows can be counted in `isize`.
pub open spec fn drawable(font: FontModel, text: Seq<char>, x: int, y: int) -> bool {
    &&& forall|k: int|
        0 < k <= text.len() ==> isize::MIN <= x + #[trigger] pen_advance(font, text.take(k))
            <= isize::MAX
    &&& forall|i: int|
        0 <= i < text.len() ==> {
            let g = #[trigger] glyph_of(font, text[i]);
            &&& g.rows.len() > 0 ==> g.width <= 32
            &&& g.rows.len() <= isize::MAX
        }
    &&& forall|i: int, gy: int, gx: int| #[trigger] glyph_bit(font, text, i, gy, gx) ==> y + gy <= isize::MAX
}

proof fn lemma_pen_step(font: FontModel, text: Seq<char>, i: int)
    requires
        0 <= i < text.len(),
        has_glyph(font, text[i]),
    ensures
        pen_advance(font, text.take(i + 1)) == pen_advance(font, text.take(i)) + (glyph_of(
            font,
            text[i],
        ).width as isize) as int,
{
    assert(text.take(i + 1).drop_last() =~= text.take(i));
}

impl BdfFont {
    /// Draws `text` with its top-left corner at `(x, y)` in `color`, glyph after
    /// glyph from left to right; pixels outside the frame are left out. Fails,
    /// drawing nothing, if a character has no glyph.
    pub fn draw(&self, text: &str, frame: &mut RgbFrame, x: isize, y: isize, color: [u8; 3]) -> (r:
        Result<(), MissingGlyph>)
        requires
            old(frame).well_formed(),
            text_width(self@, text@.take(covered_len(self@, text@) as int)) <= usize::MAX,
            first_missing(self@, text@) is None ==> drawable(self@, text@, x as int, y as int),
        ensures
            final(frame).well_formed(),
            match first_missing(self@, text@) {
                Some(c) => r == Err::<(), MissingGlyph>(MissingGlyph(c)) && final(frame)@ == old(frame)@,
                None => r is Ok && final(frame)@ == painted(
                    old(frame)@,
                    self@,
                    text@,
                    x as int,
                    y as int,
                    color,
                ),
            },
    {
        let ghost font = self@;
        let ghost start = frame@;
        match self.measure_checked(text) {
            Ok(_) => {},
            Err(e) => {
                return Err(e);
            },
        }
        let cs = chars_of(text);
        let ghost t = text@;
        let mut pen: isize = x;
        let mut i: usize = 0;
        while i < cs.len()
            invariant
                cs@ == t,
                font == self@,
                i <= t.len(),
                first_missing(font, t) is None,
                drawable(font, t, x as int, y as int),
                pen == x + pen_advance(font, t.take(i as int)),
                frame.well_formed(),
                frame@.width == start.width,
                frame@.height == start.height,
                forall|py: int, px: int|
                    0 <= py < start.height && 0 <= px < start.width ==> #[trigger] frame@.pixels[py][px]
                        == if inked_before(font, t, x as int, y as int, i as int, 0, 0, px, py) {
                        color
                    } else {
                        start.pixels[py][px]
                    },
            decreases t.len() - i,
        {
            proof {
                lemma_no_missing_has(font, t, i as int);
                lemma_pen_step(font, t, i as int);
                assert(isize::MIN <= x + pen_advance(font, t.take(i + 1)) <= isize::MAX);
            }
            let glyph = match self.glyph(cs[i]) {
                Some(g) => g,
                None => {
                    return Ok(());
                },
            };
            let ghost g = glyph_of(font, t[i as int]);
            assert(glyph@ == g);
            let mut gy: usize = 0;
            while gy < glyph.rows.len()
                invariant
                    cs@ == t,
                    font == self@,
                    i < t.len(),
                    has_glyph(font, t[i as int]),
                    g == glyph_of(font, t[i as int]),
                    glyph@ == g,
                    gy <= g.rows.len(),
                    drawable(font, t, x as int, y as int),
                    pen == x + pen_advance(font, t.take(i as int)),
                    g.rows.len() > 0 ==> pen + g.width <= isize::MAX,
                    frame.well_formed(),
                    frame@.width == start.width,
                    frame@.height == start.height,
                    forall|py: int, px: int|
                        0 <= py < start.height && 0 <= px < start.width ==> #[trigger] frame@.pixels[py][px]
                            == if inked_before(font, t, x as int, y as int, i as int, gy as int, 0, px, py) {
                            color
                        } else {
                            start.pixels[py][px]
                        },
                decreases g.rows.len() - gy,
            {
                let row = glyph.rows[gy];
                let mut gx: usize = 0;
                while gx < glyph.width
                    invariant
                        cs@ == t,
                        font == self@,
                        i < t.len(),
                        has_glyph(font, t[i as int]),
                        g == glyph_of(font, t[i as int]),
                        glyph@ == g,
                        gy < g.rows.len(),
                        row == g.rows[gy as int],
                        gx <= g.width,
                        drawable(font, t, x as int, y as int),
                        pen == x + pen_advance(font, t.take(i as int)),
                        g.rows.len() > 0 ==> pen + g.width <= isize::MAX,
                        frame.well_formed(),
                        frame@.width == start.width,
                        frame@.height == start.height,
                        forall|py: int, px: int|
                            0 <= py < start.height && 0 <= px < start.width ==> #[trigger] frame@.pixels[py][px]
                                == if inked_before(font, t, x as int, y as int, i as int, gy as int, gx as int, px, py) {
                                color
                            } else {
                                start.pixels[py][px]
                            },
                    decreases g.width - gx,
                {
                    assert(g.width <= 32);
                    let shift: usize = glyph.width - 1 - gx;
                    let bit = row & (1u32 << (shift as u32));
                    let ghost before = frame@;
                    assert(bit == row & (1u32 << ((g.width - 1 - gx) as u32)));
                    let mut hit = false;
                    let mut dx: isize = 0;
                    let mut dy: isize = 0;
                    if bit != 0 {
                        assert(glyph_bit(font, t, i as int, gy as int, gx as int));
                        dx = pen + gx as isize;
                        dy = y + gy as isize;
                        hit = dx >= 0 && dy >= 0 && (dx as usize) < frame.width() && (dy as usize) < frame.height();
                        if hit {
                            frame.set_pixel(dx as usize, dy as usize, color);
                        }
                    }
                    proof {
                        assert(bit != 0 ==> pen + gx == x + pen_advance(font, t.take(i as int)) + gx);
                        lemma_inked_step(font, t, x as int, y as int, i as int, gy as int, gx as int);
                        assert forall|py: int, px: int|
                            0 <= py < start.height && 0 <= px < start.width implies #[trigger] frame@.pixels[py][px]
                                == if inked_before(font, t, x as int, y as int, i as int, gy as int, gx + 1, px, py) {
                                color
                            } else {
                                start.pixels[py][px]
                            } by {
                            assert(ink_at(font, t, x as int, y as int, i as int, gy as int, gx as int, px, py)
                                <==> (row_bit(row, g.width, gx as int) && px == x + pen_advance(font, t.take(i as int)) + gx && py == y + gy));
                            assert(bit != 0 ==> px == dx && py == dy ==> (px == x + pen_advance(font, t.take(i as int)) + gx && py == y + gy));
                            assert(before.pixels[py][px] == if inked_before(font, t, x as int, y as int, i as int, gy as int, gx as int, px, py) {
                                color
                            } else {
                                start.pixels[py][px]
                            });
                            if hit && px == dx && py == dy {
                                assert(frame@.pixels[py][px] == color);
                            } else {
                                assert(frame@.pixels[py][px] == before.pixels[py][px]);
                            }
                        }
                    }
                    gx += 1;
                }
                proof {
                    lemma_inked_row_end(font, t, x as int, y as int, i as int, gy as int);
                }
                gy += 1;
            }
            proof {
                lemma_inked_glyph_end(font, t, x as int, y as int, i as int);
            }
            pen = pen + glyph.width as isize;
            i += 1;
        }
        proof {
            assert(frame@.pixels =~= painted(start, font, t, x as int, y as int, color).pixels) by {
                assert forall|py: int| 0 <= py < start.height implies #[trigger] frame@.pixels[py]
                    =~= painted(start, font, t, x as int, y as int, color).pixels[py] by {
                    assert forall|px: int| 0 <= px < start.width implies frame@.pixels[py][px]
                        == painted(start, font, t, x as int, y as int, color).pixels[py][px] by {
                        lemma_inked_all(font, t, x as int, y as int, px, py);
                    }
                }
            }
        }
        Ok(())
    }
}

proof fn lemma_no_missing_has(font: FontModel, text: Seq<char>, i: int)
    requires
        first_missing(font, text) is None,
        0 <= i < text.len(),
    ensures
        has_glyph(font, text[i]),
    decreases text.len(),
{
    if i < text.len() - 1 {
        assert(text.drop_last()[i] == text[i]);
        lemma_no_missing_has(font, text.drop_last(), i);
    }
}

proof fn lemma_inked_step(font: FontModel, text: Seq<char>, x: int, y: int, i: int, gy: int, gx: int)
    ensures
        forall|px: int, py: int|
            #[trigger] inked_before(font, text, x, y, i, gy, gx + 1, px, py) <==> (inked_before(
                font,
                text,
                x,
                y,
                i,
                gy,
                gx,
                px,
                py,
            ) || ink_at(font, text, x, y, i, gy, gx, px, py)),
{
    assert forall|px: int, py: int|
        #[trigger] inked_before(font, text, x, y, i, gy, gx + 1, px, py) implies (inked_before(
            font,
            text,
            x,
            y,
            i,
            gy,
            gx,
            px,
            py,
        ) || ink_at(font, text, x, y, i, gy, gx, px, py)) by {
        let (a, b, c) = choose|a: int, b: int, c: int|
            #[trigger] ink_at(font, text, x, y, a, b, c, px, py) && (a < i || (a == i && (b < gy || (
            b == gy && c < gx + 1))));
        if !(a == i && b == gy && c == gx) {
            assert(ink_at(font, text, x, y, a, b, c, px, py));
        }
    }
}

proof fn lemma_inked_row_end(font: FontModel, text: Seq<char>, x: int, y: int, i: int, gy: int)
    requires
        0 <= i < text.len(),
        has_glyph(font, text[i]),
    ensures
        forall|px: int, py: int|
            #[trigger] inked_before(font, text, x, y, i, gy + 1, 0, px, py) <==> inked_before(
                font,
                text,
                x,
                y,
                i,
                gy,
                glyph_of(font, text[i]).width as int,
                px,
                py,
            ),
{
    let w = glyph_of(font, text[i]).width as int;
    assert forall|px: int, py: int| #[trigger]
        inked_before(font, text, x, y, i, gy + 1, 0, px, py) implies inked_before(
            font,
            text,
            x,
            y,
            i,
            gy,
            w,
            px,
            py,
        ) by {
        let (a, b, c) = choose|a: int, b: int, c: int|
            #[trigger] ink_at(font, text, x, y, a, b, c, px, py) && (a < i || (a == i && (b < gy + 1 || (
            b == gy + 1 && c < 0))));
        assert(ink_at(font, text, x, y, a, b, c, px, py));
    }
    assert forall|px: int, py: int|
        inked_before(font, text, x, y, i, gy, w, px, py) implies #[trigger] inked_before(
            font,
            text,
            x,
            y,
            i,
            gy + 1,
            0,
            px,
            py,
        ) by {
        let (a, b, c) = choose|a: int, b: int, c: int|
            #[trigger] ink_at(font, text, x, y, a, b, c, px, py) && (a < i || (a == i && (b < gy || (
            b == gy && c < w))));
        assert(ink_at(font, text, x, y, a, b, c, px, py));
    }
}

proof fn lemma_inked_glyph_end(font: FontModel, text: Seq<char>, x: int, y: int, i: int)
    requires
        0 <= i < text.len(),
        has_glyph(font, text[i]),
    ensures
        forall|px: int, py: int|
            #[trigger] inked_before(font, text, x, y, i + 1, 0, 0, px, py) <==> inked_before(
                font,
                text,
                x,
                y,
                i,
                glyph_of(font, text[i]).rows.len() as int,
                0,
                px,
                py,
            ),
{
    let n = glyph_of(font, text[i]).rows.len() as int;
    assert forall|px: int, py: int| #[trigger]
        inked_before(font, text, x, y, i + 1, 0, 0, px, py) implies inked_before(
            font,
            text,
            x,
            y,
            i,
            n,
            0,
            px,
            py,
        ) by {
        let (a, b, c) = choose|a: int, b: int, c: int|
            #[trigger] ink_at(font, text, x, y, a, b, c, px, py) && (a < i + 1 || (a == i + 1 && (b < 0 || (
            b == 0 && c < 0))));
        assert(ink_at(font, text, x, y, a, b, c, px, py));
    }
    assert forall|px: int, py: int|
        inked_before(font, text, x, y, i, n, 0, px, py) implies #[trigger] inked_before(
            font,
            text,
            x,
            y,
            i + 1,
            0,
            0,
            px,
            py,
        ) by {
        let (a, b, c) = choose|a: int, b: int, c: int|
            #[trigger] ink_at(font, text, x, y, a, b, c, px, py) && (a < i || (a == i && (b < n || (
            b == n && c < 0))));
        assert(ink_at(font, text, x, y, a, b, c, px, py));
    }
}

proof fn lemma_inked_all(font: FontModel, text: Seq<char>, x: int, y: int, px: int, py: int)
    ensures
        inked_before(font, text, x, y, text.len() as int, 0, 0, px, py) <==> inked(font, text, x, y, px, py),
{
    if inked(font, text, x, y, px, py) {
        let (a, b, c) = choose|a: int, b: int, c: int| #[trigger] ink_at(font, text, x, y, a, b, c, px, py);
        assert(ink_at(font, text, x, y, a, b, c, px, py));
    }
    if inked_before(font, text, x, y, text.len() as int, 0, 0, px, py) {
        let (a, b, c) = choose|a: int, b: int, c: int|
            #[trigger] ink_at(font, text, x, y, a, b, c, px, py) && (a < text.len() || (a == text.len() && (b < 0 || (
            b == 0 && c < 0))));
        assert(ink_at(font, text, x, y, a, b, c, px, py));
    }
}

/// Measuring is additive: the width of two texts one after the other is the
/// sum of their widths, and the empty text is 0 wide; a character adds the
/// width of the glyph stored under its code, or nothing where it has no glyph.
pub proof fn law_text_width_concat(font: FontModel, a: Seq<char>, b: Seq<char>)
    ensures
        text_width(font, a + b) == text_width(font, a) + text_width(font, b),
        text_width(font, seq![]) == 0,
        forall|c: char| !has_glyph(font, c) ==> #[trigger] text_width(font, a.push(c)) == text_width(font, a),
        forall|c: char| has_glyph(font, c) ==> #[trigger] text_width(font, a.push(c)) == text_width(font, a)
            + font.glyphs[glyph_code(font.jis_x0208, c)].width,
    decreases b.len(),
{
    assert forall|c: char| has_glyph(font, c) implies #[trigger] text_width(font, a.push(c)) == text_width(font, a)
        + font.glyphs[glyph_code(font.jis_x0208, c)].width by {
        assert(a.push(c).drop_last() =~= a);
    }
    assert forall|c: char| !has_glyph(font, c) implies #[trigger] text_width(font, a.push(c)) == text_width(font, a) by {
        assert(a.push(c).drop_last() =~= a);
    }
    if b.len() == 0 {
        assert(a + b =~= a);
    } else {
        law_text_width_concat(font, a, b.drop_last());
        assert((a + b).drop_last() =~= a + b.drop_last());
        assert((a + b).last() == b.last());
    }
}

/// Checked measuring succeeds exactly when every character of the text has a
/// glyph, and then gives what unchecked measuring gives; otherwise it names the
/// first character without one.
pub proof fn law_measure_checked_ok(font: FontModel, text: Seq<char>)
    ensures
        first_missing(font, text) is None <==> forall|i: int|
            0 <= i < text.len() ==> #[trigger] has_glyph(font, text[i]),
        first_missing(font, text) matches Some(c) ==> !has_glyph(font, c) && text.contains(c),
        first_missing(font, text) matches Some(c) ==> exists|i: int|
            0 <= i < text.len() && text[i] == c && forall|j: int|
                0 <= j < i ==> #[trigger] has_glyph(font, text[j]),
    decreases text.len(),
{
    if text.len() > 0 {
        law_measure_checked_ok(font, text.drop_last());
        let p = text.drop_last();
        assert forall|i: int| 0 <= i < p.len() implies #[trigger] p[i] == text[i] by {}
        if first_missing(font, p) is None && has_glyph(font, text.last()) {
            assert forall|i: int| 0 <= i < text.len() implies #[trigger] has_glyph(font, text[i]) by {
                if i < p.len() {
                    assert(has_glyph(font, p[i]));
                }
            }
        }
        if first_missing(font, p) is Some {
            let c = first_missing(font, p)->Some_0;
            let k = choose|k: int| 0 <= k < p.len() && p[k] == c;
            assert(text[k] == c);
            assert(!has_glyph(font, text[k]));
            let i = choose|i: int|
                0 <= i < p.len() && p[i] == c && forall|j: int| 0 <= j < i ==> #[trigger] has_glyph(font, p[j]);
            assert(text[i] == c);
            assert forall|j: int| 0 <= j < i implies #[trigger] has_glyph(font, text[j]) by {
                assert(has_glyph(font, p[j]));
            }
        }
        if first_missing(font, p) is None && !has_glyph(font, text.last()) {
            let i = text.len() - 1;
            assert(text[i] == text.last());
            assert forall|j: int| 0 <= j < i implies #[trigger] has_glyph(font, text[j]) by {
                assert(has_glyph(font, p[j]));
            }
        }
    }
}

/// After merging a fallback into a font, a character has a glyph exactly when
/// the font had one for it or the fallback has one under the font's code for it;
/// where both have one, the fallback's is used.
pub proof fn law_merge_glyphs(primary: FontModel, fallback: FontModel, ch: char)
    ensures
        ({
            let merged = FontModel {
                glyphs: primary.glyphs.union_prefer_right(fallback.glyphs),
                jis_x0208: primary.jis_x0208,
            };
            let code = glyph_code(primary.jis_x0208, ch);
            &&& has_glyph(merged, ch) <==> (has_glyph(primary, ch) || fallback.glyphs.contains_key(
                code,
            ))
            &&& fallback.glyphs.contains_key(code) ==> glyph_of(merged, ch) == fallback.glyphs[code]
            &&& !fallback.glyphs.contains_key(code) && has_glyph(primary, ch) ==> glyph_of(merged, ch)
                == glyph_of(primary, ch)
        }),
{
}

/// Drawing the same text twice in the same place and colour gives the same
/// frame as drawing it once.
pub proof fn law_draw_idempotent(
    f: FrameModel,
    font: FontModel,
    text: Seq<char>,
    x: int,
    y: int,
    color: [u8; 3],
)
    ensures
        painted(painted(f, font, text, x, y, color), font, text, x, y, color) == painted(
            f,
            font,
            text,
            x,
            y,
            color,
        ),
{
    let once = painted(f, font, text, x, y, color);
    let twice = painted(once, font, text, x, y, color);
    assert(twice.pixels =~= once.pixels) by {
        assert forall|py: int| 0 <= py < f.height implies #[trigger] twice.pixels[py] =~= once.pixels[py] by {
        }
    }
}

} // verus!

verus! {

/// Each set bit of a glyph row inks its pixel, and the bits are read from the
/// left: column `gx` of a glyph `width` pixels wide is bit `width - 1 - gx` of
/// the row, so the row's most significant bit is its leftmost pixel. Pixel
/// `(gx, gy)` of the `i`-th glyph lands `gx` to the right of the pen and `gy`
/// below `y`. For a single glyph, a clear bit leaves its pixel as it was.
pub proof fn law_draw_bits_from_the_left(
    f: FrameModel,
    font: FontModel,
    text: Seq<char>,
    x: int,
    y: int,
    color: [u8; 3],
    i: int,
    gy: int,
    gx: int,
)
    requires
        0 <= i < text.len(),
        has_glyph(font, text[i]),
        0 <= gy < glyph_of(font, text[i]).rows.len(),
        0 <= gx < glyph_of(font, text[i]).width <= 32,
        0 <= x + pen_advance(font, text.take(i)) + gx < f.width,
        0 <= y + gy < f.height,
    ensures
        ({
            let g = glyph_of(font, text[i]);
            let bit = (g.rows[gy] >> ((g.width - 1 - gx) as u32)) & 1u32;
            let px = x + pen_advance(font, text.take(i)) + gx;
            let py = y + gy;
            let out = painted(f, font, text, x, y, color).pixels[py][px];
            &&& bit == 1 ==> out == color
            &&& text.len() == 1 && bit == 0 ==> out == f.pixels[py][px]
        }),
{
    let g = glyph_of(font, text[i]);
    let row = g.rows[gy];
    let s = (g.width - 1 - gx) as u32;
    assert(s < 32);
    assert((row & (1u32 << s) != 0) <==> ((row >> s) & 1u32) == 1u32) by (bit_vector)
        requires
            s < 32,
    ;
    let px = x + pen_advance(font, text.take(i)) + gx;
    let py = y + gy;
    if (row >> s) & 1u32 == 1u32 {
        assert(ink_at(font, text, x, y, i, gy, gx, px, py));
    }
    if text.len() == 1 && (row >> s) & 1u32 == 0u32 {
        if inked(font, text, x, y, px, py) {
            let (a, b, c) = choose|a: int, b: int, c: int| #[trigger] ink_at(font, text, x, y, a, b, c, px, py);
            assert(a == 0 && i == 0);
            assert(b == gy && c == gx);
            assert(false);
        }
    }
}

/// A JIS X 0208 font looks a character up by its EUC-JP encoding: where that is
/// two bytes `b0`, `b1`, both at least `0xa1`, under `(b0 - 0x80) * 256 +
/// (b1 - 0x80)`; under the character's own code point for any other encoding,
/// and always in a font of another charset.
pub proof fn law_jis_lookup(font: FontModel, ch: char)
    ensures
        ({
            let e = euc_jp_bytes(ch);
            let code = if font.jis_x0208 && e.len() == 2 && e[0] >= 0xa1 && e[1] >= 0xa1 {
                (e[0] - 0x80) * 256 + (e[1] - 0x80)
            } else {
                ch as int
            };
            &&& glyph_code(font.jis_x0208, ch) as int == code
            &&& has_glyph(font, ch) <==> font.glyphs.contains_key(code as u32)
            &&& has_glyph(font, ch) ==> glyph_of(font, ch) == font.glyphs[code as u32]
        }),
{
}

/// The code a two-byte EUC-JP encoding gives, for every pair of bytes from
/// `0xa1` up: the first byte less `0x80` is the high byte, the second less
/// `0x80` the low one.
pub proof fn law_jis_code_of_pair(ch: char, b0: u8, b1: u8)
    requires
        b0 >= 0xa1,
        b1 >= 0xa1,
    ensures
        code_from_encoding(ch, seq![b0, b1]) == ((b0 - 0x80) * 256 + (b1 - 0x80)) as u32,
        ((b0 - 0x80) * 256 + (b1 - 0x80)) as u32 as int == (b0 - 0x80) * 256 + (b1 - 0x80),
{
}

} // verus!
