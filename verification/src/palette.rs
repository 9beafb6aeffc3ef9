//! Colour schemes: the sixteen ANSI colours and the rest of a palette, read
//! from a TOML document.
//!
//! A scheme only says what it changes. A colour that it leaves out is the
//! built-in one, which the renderer knows. Numbers for the glow are held to
//! the range of their setting.

use crate::text::{chars_of, spells};
use vstd::prelude::*;

verus! {

/// How many colours a scheme allows. Colours past the cap are snapped onto the
/// nearest one that is allowed.
#[derive(Copy, Clone, Debug, PartialEq, Eq, Structural)]
pub enum ColorCap {
    /// Foreground and background only.
    Mono,
    /// The normal ANSI colours.
    Ansi8,
    /// The normal and bright ANSI colours.
    Ansi16,
    /// The ANSI colours, the colour cube and the grays.
    Xterm256,
    /// Every colour.
    Truecolor,
}

/// A colour in sRGB bytes.
#[derive(Copy, Clone, Debug, PartialEq, Eq, Structural)]
pub struct Rgb {
    pub r: u8,
    pub g: u8,
    pub b: u8,
}

/// A number of a scheme; a fraction by the bits of its double precision form.
#[derive(Copy, Clone, Debug, PartialEq, Eq, Structural)]
pub enum Number {
    Integer(i64),
    Float(u64),
}

/// What numbers a setting of the glow takes.
#[derive(Copy, Clone, Debug, PartialEq, Eq, Structural)]
pub enum Range {
    /// From zero to one.
    Unit,
    /// From zero to half a turn, in degrees.
    HalfTurn,
    /// From zero to the distance between black and white, the root of three in
    /// single precision.
    ColorDistance,
    /// Zero and above.
    FromZero,
    /// One and above.
    FromOne,
}

/// An end of a range: its integer part, and the bits of its double precision
/// form.
#[derive(Copy, Clone, Debug, PartialEq, Eq, Structural)]
pub struct Limit {
    pub whole: i64,
    pub bits: u64,
}

/// The lower end of a range.
pub open spec fn least_of(range: Range) -> Limit {
    match range {
        Range::FromOne => Limit { whole: 1, bits: 0x3ff0_0000_0000_0000 },
        _ => Limit { whole: 0, bits: 0 },
    }
}

/// The upper end of a range.
pub open spec fn most_of(range: Range) -> Option<Limit> {
    match range {
        Range::Unit => Some(Limit { whole: 1, bits: 0x3ff0_0000_0000_0000 }),
        Range::HalfTurn => Some(Limit { whole: 180, bits: 0x4066_8000_0000_0000 }),
        Range::ColorDistance => Some(Limit { whole: 1, bits: 0x3ffb_b67a_e000_0000 }),
        Range::FromZero => None,
        Range::FromOne => None,
    }
}

/// The bits of a double without its sign.
pub open spec fn magnitude(bits: u64) -> int {
    if bits < 0x8000_0000_0000_0000 {
        bits as int
    } else {
        bits - 0x8000_0000_0000_0000
    }
}

/// The place of a double in the order of all of them: doubles of one sign
/// are ordered as their magnitudes are.
pub open spec fn position(bits: u64) -> int {
    if bits < 0x8000_0000_0000_0000 {
        magnitude(bits)
    } else {
        -magnitude(bits)
    }
}

/// Whether a double is not a number, which has no place in the order.
pub open spec fn is_nan(bits: u64) -> bool {
    magnitude(bits) > 0x7ff0_0000_0000_0000
}

/// Whether a number has no place in the order.
pub open spec fn without_place(n: Number) -> bool {
    match n {
        Number::Integer(_) => false,
        Number::Float(bits) => is_nan(bits),
    }
}

/// Whether a number lies below a limit.
pub open spec fn below(n: Number, limit: Limit) -> bool {
    match n {
        Number::Integer(i) => i < limit.whole,
        Number::Float(bits) => !is_nan(bits) && position(bits) < position(limit.bits),
    }
}

/// Whether a number lies above a limit.
pub open spec fn above(n: Number, limit: Limit) -> bool {
    match n {
        Number::Integer(i) => i > limit.whole,
        Number::Float(bits) => !is_nan(bits) && position(bits) > position(limit.bits),
    }
}

/// A number held to a range: one outside becomes the end that it is beyond.
/// What is not a number stays so in a range with two ends, and becomes the end
/// of a range with one.
pub open spec fn held(n: Number, range: Range) -> Number {
    match most_of(range) {
        Some(most) => if below(n, least_of(range)) {
            Number::Float(least_of(range).bits)
        } else if above(n, most) {
            Number::Float(most.bits)
        } else {
            n
        },
        None => if below(n, least_of(range)) || without_place(n) {
            Number::Float(least_of(range).bits)
        } else {
            n
        },
    }
}

/// A number held to a range is not outside of it, and holding it once more
/// changes nothing.
pub proof fn held_number_is_in_range(n: Number, range: Range)
    ensures
        !below(held(n, range), least_of(range)),
        most_of(range) matches Some(most) ==> !above(held(n, range), most),
        held(held(n, range), range) == held(n, range),
{
}

/// A number within a range is kept as it is.
pub proof fn number_in_range_is_kept(n: Number, range: Range)
    requires
        !below(n, least_of(range)),
        most_of(range) matches Some(most) ==> !above(n, most),
        !without_place(n),
    ensures
        held(n, range) == n,
{
}

/// The place of a double in the order of all of them.
fn position_of(bits: u64) -> (at: i128)
    ensures
        at == position(bits),
{
    if bits < 0x8000_0000_0000_0000 {
        bits as i128
    } else {
        0x8000_0000_0000_0000i128 - bits as i128
    }
}

/// Whether a double is not a number.
fn lacks_place(bits: u64) -> (b: bool)
    ensures
        b == is_nan(bits),
{
    let at: i128 = position_of(bits);
    at > 0x7ff0_0000_0000_0000 || at < -0x7ff0_0000_0000_0000
}

/// The place of a number against a limit: below it, at it or without a place,
/// or above it.
fn side(n: Number, limit: Limit) -> (s: i8)
    ensures
        (s < 0) == below(n, limit),
        (s > 0) == above(n, limit),
{
    match n {
        Number::Integer(i) => {
            if i < limit.whole {
                -1
            } else if i > limit.whole {
                1
            } else {
                0
            }
        },
        Number::Float(bits) => {
            let at: i128 = position_of(bits);
            let end: i128 = position_of(limit.bits);
            if lacks_place(bits) {
                0
            } else if at < end {
                -1
            } else if at > end {
                1
            } else {
                0
            }
        },
    }
}

/// Holds a number to a range.
pub fn hold(n: Number, range: Range) -> (out: Number)
    ensures
        out == held(n, range),
{
    let least: Limit = match range {
        Range::FromOne => Limit { whole: 1, bits: 0x3ff0_0000_0000_0000 },
        _ => Limit { whole: 0, bits: 0 },
    };
    let most: Option<Limit> = match range {
        Range::Unit => Some(Limit { whole: 1, bits: 0x3ff0_0000_0000_0000 }),
        Range::HalfTurn => Some(Limit { whole: 180, bits: 0x4066_8000_0000_0000 }),
        Range::ColorDistance => Some(Limit { whole: 1, bits: 0x3ffb_b67a_e000_0000 }),
        Range::FromZero => None,
        Range::FromOne => None,
    };
    if side(n, least) < 0 {
        return Number::Float(least.bits);
    }
    match most {
        Some(most) => {
            if side(n, most) > 0 {
                Number::Float(most.bits)
            } else {
                n
            }
        },
        None => match n {
            Number::Float(bits) => {
                if lacks_place(bits) {
                    Number::Float(least.bits)
                } else {
                    n
                }
            },
            Number::Integer(_) => n,
        },
    }
}

/// What a scheme sets of the glow and the scanlines.
#[derive(Copy, Clone, Debug, PartialEq, Eq, Structural)]
pub struct GlowOverrides {
    pub match_brightness: Option<bool>,
    pub match_bright_ansi: Option<bool>,
    pub match_foreground: Option<bool>,
    pub threshold: Option<Number>,
    pub intensity: Option<Number>,
    pub softness: Option<Number>,
    pub hue_tolerance_deg: Option<Number>,
    pub fg_tolerance: Option<Number>,
    pub iterations: Option<usize>,
    pub scanlines: Option<bool>,
    pub scanline_strength: Option<Number>,
    pub scanline_period: Option<Number>,
    pub scanlines_content: Option<bool>,
    pub scanlines_content_strength: Option<Number>,
    pub scanline_color_bright: Option<Rgb>,
    pub scanline_color_dark: Option<Rgb>,
    pub scanlines_skip_primary_bg: Option<bool>,
    pub scanlines_content_attenuation: Option<Number>,
}

/// A scheme that leaves the glow alone.
pub open spec fn no_glow() -> GlowOverrides {
    GlowOverrides {
        match_brightness: None,
        match_bright_ansi: None,
        match_foreground: None,
        threshold: None,
        intensity: None,
        softness: None,
        hue_tolerance_deg: None,
        fg_tolerance: None,
        iterations: None,
        scanlines: None,
        scanline_strength: None,
        scanline_period: None,
        scanlines_content: None,
        scanlines_content_strength: None,
        scanline_color_bright: None,
        scanline_color_dark: None,
        scanlines_skip_primary_bg: None,
        scanlines_content_attenuation: None,
    }
}

impl Default for GlowOverrides {
    /// No override.
    fn default() -> (glow: Self)
        ensures
            glow == no_glow(),
    {
        GlowOverrides {
            match_brightness: None,
            match_bright_ansi: None,
            match_foreground: None,
            threshold: None,
            intensity: None,
            softness: None,
            hue_tolerance_deg: None,
            fg_tolerance: None,
            iterations: None,
            scanlines: None,
            scanline_strength: None,
            scanline_period: None,
            scanlines_content: None,
            scanlines_content_strength: None,
            scanline_color_bright: None,
            scanline_color_dark: None,
            scanlines_skip_primary_bg: None,
            scanlines_content_attenuation: None,
        }
    }
}

/// A colour scheme. `None` stands for the built-in colour, and for
/// `selection_fg` for the colour of the text itself.
#[derive(Clone, Debug, PartialEq)]
pub struct Palette {
    pub background: Option<Rgb>,
    pub foreground: Option<Rgb>,
    pub cursor: Option<Rgb>,
    pub selection: Option<Rgb>,
    pub selection_fg: Option<Rgb>,
    /// The normal ANSI colours and then the bright ones.
    pub ansi: Vec<Option<Rgb>>,
    pub max_colors: ColorCap,
    pub glow: GlowOverrides,
}

/// What a [`Palette`] holds.
#[verifier::ext_equal]
pub struct PaletteView {
    pub background: Option<Rgb>,
    pub foreground: Option<Rgb>,
    pub cursor: Option<Rgb>,
    pub selection: Option<Rgb>,
    pub selection_fg: Option<Rgb>,
    pub ansi: Seq<Option<Rgb>>,
    pub max_colors: ColorCap,
    pub glow: GlowOverrides,
}

impl View for Palette {
    type V = PaletteView;

    open spec fn view(&self) -> PaletteView {
        PaletteView {
            background: self.background,
            foreground: self.foreground,
            cursor: self.cursor,
            selection: self.selection,
            selection_fg: self.selection_fg,
            ansi: self.ansi@,
            max_colors: self.max_colors,
            glow: self.glow,
        }
    }
}

/// The scheme that changes nothing.
pub open spec fn default_palette() -> PaletteView {
    PaletteView {
        background: None,
        foreground: None,
        cursor: None,
        selection: None,
        selection_fg: None,
        ansi: Seq::new(16, |i: int| None),
        max_colors: ColorCap::Truecolor,
        glow: no_glow(),
    }
}

/// A value of a scheme document.
#[derive(Debug)]
pub enum Value {
    Integer(i64),
    /// A fraction, by the bits of its double precision form.
    Float(u64),
    Boolean(bool),
    Text(String),
    /// An array; of its items only integers matter.
    Array(Vec<Option<i64>>),
    /// A date or a table.
    Other,
}

/// What a [`Value`] holds.
#[verifier::ext_equal]
pub enum ValueView {
    Integer(i64),
    Float(u64),
    Boolean(bool),
    Text(Seq<char>),
    Array(Seq<Option<i64>>),
    Other,
}

impl View for Value {
    type V = ValueView;

    open spec fn view(&self) -> ValueView {
        match self {
            Value::Integer(i) => ValueView::Integer(*i),
            Value::Float(bits) => ValueView::Float(*bits),
            Value::Boolean(b) => ValueView::Boolean(*b),
            Value::Text(s) => ValueView::Text(s@),
            Value::Array(items) => ValueView::Array(items@),
            Value::Other => ValueView::Other,
        }
    }
}

/// Why an entry of a scheme is not used.
#[derive(Copy, Clone, Debug, PartialEq, Eq, Structural)]
pub enum SchemeError {
    UnknownKey,
    WrongType,
    WrongLength,
    OutOfRange,
}

/// The colour `0xRRGGBB`.
pub open spec fn rgb_of(n: i64) -> Result<Rgb, SchemeError> {
    if 0 <= n <= 0xff_ffff {
        Ok(
            Rgb {
                r: (n as int / 0x1_0000) as u8,
                g: (n as int / 0x100 % 0x100) as u8,
                b: (n as int % 0x100) as u8,
            },
        )
    } else {
        Err(SchemeError::OutOfRange)
    }
}

/// A colour.
pub open spec fn rgb_in(value: ValueView) -> Result<Rgb, SchemeError> {
    match value {
        ValueView::Integer(n) => rgb_of(n),
        _ => Err(SchemeError::WrongType),
    }
}

/// A truth value.
pub open spec fn bool_in(value: ValueView) -> Result<bool, SchemeError> {
    match value {
        ValueView::Boolean(b) => Ok(b),
        _ => Err(SchemeError::WrongType),
    }
}

/// A number, be it written with a fraction or without, held to a range.
pub open spec fn number_in(value: ValueView, range: Range) -> Result<Number, SchemeError> {
    match value {
        ValueView::Integer(n) => Ok(held(Number::Integer(n), range)),
        ValueView::Float(bits) => Ok(held(Number::Float(bits), range)),
        _ => Err(SchemeError::WrongType),
    }
}

/// A count.
pub open spec fn count_in(value: ValueView) -> Result<usize, SchemeError> {
    match value {
        ValueView::Integer(n) => if 0 <= n <= usize::MAX {
            Ok(n as usize)
        } else {
            Err(SchemeError::OutOfRange)
        },
        _ => Err(SchemeError::WrongType),
    }
}

/// A colour of an array item.
pub open spec fn item_rgb(item: Option<i64>) -> Result<Rgb, SchemeError> {
    match item {
        Some(n) => rgb_of(n),
        None => Err(SchemeError::WrongType),
    }
}

/// The normal and the bright colour of a hue.
pub open spec fn pair_in(value: ValueView) -> Result<(Rgb, Rgb), SchemeError> {
    match value {
        ValueView::Array(items) => if items.len() != 2 {
            Err(SchemeError::WrongLength)
        } else {
            match (item_rgb(items[0]), item_rgb(items[1])) {
                (Err(e), _) => Err(e),
                (Ok(_), Err(e)) => Err(e),
                (Ok(normal), Ok(bright)) => Ok((normal, bright)),
            }
        },
        _ => Err(SchemeError::WrongType),
    }
}

/// A cap, by number or by name.
pub open spec fn cap_in(value: ValueView) -> Result<ColorCap, SchemeError> {
    match value {
        ValueView::Integer(n) => if n == 8 {
            Ok(ColorCap::Ansi8)
        } else if n == 16 {
            Ok(ColorCap::Ansi16)
        } else if n == 256 {
            Ok(ColorCap::Xterm256)
        } else if n == 16_777_216 {
            Ok(ColorCap::Truecolor)
        } else {
            Err(SchemeError::OutOfRange)
        },
        ValueView::Text(s) => if s == "mono"@ || s == "monochrome"@ {
            Ok(ColorCap::Mono)
        } else if s == "8"@ {
            Ok(ColorCap::Ansi8)
        } else if s == "16"@ {
            Ok(ColorCap::Ansi16)
        } else if s == "256"@ {
            Ok(ColorCap::Xterm256)
        } else if s == "truecolor"@ || s == "16m"@ || s == "16777216"@ {
            Ok(ColorCap::Truecolor)
        } else {
            Err(SchemeError::OutOfRange)
        },
        _ => Err(SchemeError::WrongType),
    }
}

/// A result with its value put to use.
pub open spec fn mapped<T>(
    value: Result<T, SchemeError>,
    f: spec_fn(T) -> PaletteView,
) -> Result<PaletteView, SchemeError> {
    match value {
        Ok(v) => Ok(f(v)),
        Err(e) => Err(e),
    }
}

/// The place of a hue among the ANSI colours.
pub open spec fn hue_of(key: Seq<char>) -> Option<int> {
    if key == "black"@ {
        Some(0)
    } else if key == "red"@ {
        Some(1)
    } else if key == "green"@ {
        Some(2)
    } else if key == "yellow"@ {
        Some(3)
    } else if key == "blue"@ {
        Some(4)
    } else if key == "magenta"@ {
        Some(5)
    } else if key == "cyan"@ {
        Some(6)
    } else if key == "white"@ {
        Some(7)
    } else {
        None
    }
}

/// A scheme with one entry of the glow applied.
pub open spec fn glow_applied(glow: GlowOverrides, key: Seq<char>, value: ValueView) -> Result<
    GlowOverrides,
    SchemeError,
> {
    if key == "glow_match_brightness"@ {
        match bool_in(value) {
            Ok(v) => Ok(GlowOverrides { match_brightness: Some(v), ..glow }),
            Err(e) => Err(e),
        }
    } else if key == "glow_match_bright_ansi"@ {
        match bool_in(value) {
            Ok(v) => Ok(GlowOverrides { match_bright_ansi: Some(v), ..glow }),
            Err(e) => Err(e),
        }
    } else if key == "glow_match_foreground"@ {
        match bool_in(value) {
            Ok(v) => Ok(GlowOverrides { match_foreground: Some(v), ..glow }),
            Err(e) => Err(e),
        }
    } else if key == "glow_threshold"@ {
        match number_in(value, Range::Unit) {
            Ok(v) => Ok(GlowOverrides { threshold: Some(v), ..glow }),
            Err(e) => Err(e),
        }
    } else if key == "glow_intensity"@ {
        match number_in(value, Range::FromZero) {
            Ok(v) => Ok(GlowOverrides { intensity: Some(v), ..glow }),
            Err(e) => Err(e),
        }
    } else if key == "glow_softness"@ {
        match number_in(value, Range::Unit) {
            Ok(v) => Ok(GlowOverrides { softness: Some(v), ..glow }),
            Err(e) => Err(e),
        }
    } else if key == "glow_hue_tolerance_deg"@ {
        match number_in(value, Range::HalfTurn) {
            Ok(v) => Ok(GlowOverrides { hue_tolerance_deg: Some(v), ..glow }),
            Err(e) => Err(e),
        }
    } else if key == "glow_fg_tolerance"@ {
        match number_in(value, Range::ColorDistance) {
            Ok(v) => Ok(GlowOverrides { fg_tolerance: Some(v), ..glow }),
            Err(e) => Err(e),
        }
    } else if key == "glow_iterations"@ {
        match count_in(value) {
            Ok(v) => Ok(GlowOverrides { iterations: Some(v), ..glow }),
            Err(e) => Err(e),
        }
    } else if key == "glow_scanlines"@ {
        match bool_in(value) {
            Ok(v) => Ok(GlowOverrides { scanlines: Some(v), ..glow }),
            Err(e) => Err(e),
        }
    } else if key == "glow_scanline_strength"@ {
        match number_in(value, Range::Unit) {
            Ok(v) => Ok(GlowOverrides { scanline_strength: Some(v), ..glow }),
            Err(e) => Err(e),
        }
    } else if key == "glow_scanline_period"@ {
        match number_in(value, Range::FromOne) {
            Ok(v) => Ok(GlowOverrides { scanline_period: Some(v), ..glow }),
            Err(e) => Err(e),
        }
    } else if key == "glow_scanlines_content"@ {
        match bool_in(value) {
            Ok(v) => Ok(GlowOverrides { scanlines_content: Some(v), ..glow }),
            Err(e) => Err(e),
        }
    } else if key == "glow_scanlines_content_strength"@ {
        match number_in(value, Range::Unit) {
            Ok(v) => Ok(GlowOverrides { scanlines_content_strength: Some(v), ..glow }),
            Err(e) => Err(e),
        }
    } else if key == "glow_scanline_color_bright"@ {
        match rgb_in(value) {
            Ok(v) => Ok(GlowOverrides { scanline_color_bright: Some(v), ..glow }),
            Err(e) => Err(e),
        }
    } else if key == "glow_scanline_color_dark"@ {
        match rgb_in(value) {
            Ok(v) => Ok(GlowOverrides { scanline_color_dark: Some(v), ..glow }),
            Err(e) => Err(e),
        }
    } else if key == "glow_scanlines_skip_primary_bg"@ {
        match bool_in(value) {
            Ok(v) => Ok(GlowOverrides { scanlines_skip_primary_bg: Some(v), ..glow }),
            Err(e) => Err(e),
        }
    } else if key == "glow_scanlines_content_attenuation"@ {
        match number_in(value, Range::Unit) {
            Ok(v) => Ok(GlowOverrides { scanlines_content_attenuation: Some(v), ..glow }),
            Err(e) => Err(e),
        }
    } else {
        Err(SchemeError::UnknownKey)
    }
}

/// A scheme with one entry applied. An entry with an unknown key or a value
/// that does not fit is refused as a whole.
pub open spec fn applied(p: PaletteView, key: Seq<char>, value: ValueView) -> Result<
    PaletteView,
    SchemeError,
> {
    if key == "background"@ {
        mapped(rgb_in(value), |c: Rgb| PaletteView { background: Some(c), ..p })
    } else if key == "foreground"@ {
        mapped(rgb_in(value), |c: Rgb| PaletteView { foreground: Some(c), ..p })
    } else if key == "cursor"@ {
        mapped(rgb_in(value), |c: Rgb| PaletteView { cursor: Some(c), ..p })
    } else if key == "selection"@ {
        mapped(rgb_in(value), |c: Rgb| PaletteView { selection: Some(c), ..p })
    } else if key == "selection_fg"@ || key == "selection_foreground"@ {
        mapped(rgb_in(value), |c: Rgb| PaletteView { selection_fg: Some(c), ..p })
    } else if hue_of(key) is Some {
        let hue = hue_of(key)->0;
        mapped(
            pair_in(value),
            |pair: (Rgb, Rgb)|
                PaletteView {
                    ansi: p.ansi.update(hue, Some(pair.0)).update(hue + 8, Some(pair.1)),
                    ..p
                },
        )
    } else if key == "max_colors"@ {
        mapped(cap_in(value), |cap: ColorCap| PaletteView { max_colors: cap, ..p })
    } else {
        match glow_applied(p.glow, key, value) {
            Ok(glow) => Ok(PaletteView { glow, ..p }),
            Err(e) => Err(e),
        }
    }
}

/// A scheme with entries applied one after the other; entries that do not fit
/// are skipped.
pub open spec fn applied_all(p: PaletteView, entries: Seq<(Seq<char>, ValueView)>) -> PaletteView
    decreases entries.len(),
{
    if entries.len() == 0 {
        p
    } else {
        let before = applied_all(p, entries.drop_last());
        match applied(before, entries.last().0, entries.last().1) {
            Ok(after) => after,
            Err(_) => before,
        }
    }
}

/// The entries of a TOML document in the order of its table; `None` where the
/// text is no TOML.
pub uninterp spec fn toml_entries(src: Seq<char>) -> Option<Seq<(Seq<char>, ValueView)>>;

/// What a run of entries holds.
pub open spec fn entry_views(entries: Seq<(String, Value)>) -> Seq<(Seq<char>, ValueView)> {
    Seq::new(entries.len(), |i: int| (entries[i].0@, entries[i].1@))
}

/// Parses a document with `str::parse::<toml::Table>` and hands out the
/// table's entries in its own order. The result is named by [`toml_entries`];
/// it depends on the text alone.
#[verifier::external_body]
fn read_table(src: &str) -> (entries: Option<Vec<(String, Value)>>)
    ensures
        match entries {
            Some(list) => toml_entries(src@) == Some(entry_views(list@)),
            None => toml_entries(src@) is None,
        },
{
    let plain = |value: toml::Value| match value {
        toml::Value::Integer(i) => Value::Integer(i),
        toml::Value::Float(f) => Value::Float(f.to_bits()),
        toml::Value::Boolean(b) => Value::Boolean(b),
        toml::Value::String(s) => Value::Text(s),
        toml::Value::Array(a) => Value::Array(a.iter().map(toml::Value::as_integer).collect()),
        toml::Value::Datetime(_) => Value::Other,
        toml::Value::Table(_) => Value::Other,
    };
    let table: toml::Table = src.parse().ok()?;
    Some(table.into_iter().map(|(key, value)| (key, plain(value))).collect())
}

fn rgb_from_integer(n: i64) -> (color: Result<Rgb, SchemeError>)
    ensures
        color == rgb_of(n),
{
    if n < 0 || n > 0xff_ffff {
        return Err(SchemeError::OutOfRange);
    }
    let rgb: u32 = n as u32;
    Ok(Rgb { r: (rgb / 0x1_0000) as u8, g: (rgb / 0x100 % 0x100) as u8, b: (rgb % 0x100) as u8 })
}

/// Reads a colour, which is written as an integer `0xRRGGBB`.
pub fn rgb_from_value(value: &Value) -> (color: Result<Rgb, SchemeError>)
    ensures
        color == rgb_in(value@),
{
    match value {
        Value::Integer(n) => rgb_from_integer(*n),
        _ => Err(SchemeError::WrongType),
    }
}

fn want_bool(value: &Value) -> (b: Result<bool, SchemeError>)
    ensures
        b == bool_in(value@),
{
    match value {
        Value::Boolean(b) => Ok(*b),
        _ => Err(SchemeError::WrongType),
    }
}

fn want_number(value: &Value, range: Range) -> (n: Result<Number, SchemeError>)
    ensures
        n == number_in(value@, range),
{
    match value {
        Value::Integer(n) => Ok(hold(Number::Integer(*n), range)),
        Value::Float(bits) => Ok(hold(Number::Float(*bits), range)),
        _ => Err(SchemeError::WrongType),
    }
}

fn want_usize(value: &Value) -> (n: Result<usize, SchemeError>)
    ensures
        n == count_in(value@),
{
    match value {
        Value::Integer(n) => if *n >= 0 && *n as u64 <= usize::MAX as u64 {
            Ok(*n as usize)
        } else {
            Err(SchemeError::OutOfRange)
        },
        _ => Err(SchemeError::WrongType),
    }
}

/// Reads a colour cap, by number or by name.
pub fn parse_color_cap(value: &Value) -> (cap: Result<ColorCap, SchemeError>)
    ensures
        cap == cap_in(value@),
{
    match value {
        Value::Integer(n) => {
            let n: i64 = *n;
            if n == 8 {
                Ok(ColorCap::Ansi8)
            } else if n == 16 {
                Ok(ColorCap::Ansi16)
            } else if n == 256 {
                Ok(ColorCap::Xterm256)
            } else if n == 16_777_216 {
                Ok(ColorCap::Truecolor)
            } else {
                Err(SchemeError::OutOfRange)
            }
        },
        Value::Text(s) => {
            let s: Vec<char> = chars_of(s.as_str());
            if spells(&s, "mono") || spells(&s, "monochrome") {
                Ok(ColorCap::Mono)
            } else if spells(&s, "8") {
                Ok(ColorCap::Ansi8)
            } else if spells(&s, "16") {
                Ok(ColorCap::Ansi16)
            } else if spells(&s, "256") {
                Ok(ColorCap::Xterm256)
            } else if spells(&s, "truecolor") || spells(&s, "16m") || spells(&s, "16777216") {
                Ok(ColorCap::Truecolor)
            } else {
                Err(SchemeError::OutOfRange)
            }
        },
        _ => Err(SchemeError::WrongType),
    }
}

fn want_pair(value: &Value) -> (pair: Result<(Rgb, Rgb), SchemeError>)
    ensures
        pair == pair_in(value@),
{
    match value {
        Value::Array(items) => {
            if items.len() != 2 {
                return Err(SchemeError::WrongLength);
            }
            let normal: Rgb = match items[0] {
                Some(n) => match rgb_from_integer(n) {
                    Ok(c) => c,
                    Err(e) => {
                        return Err(e);
                    },
                },
                None => {
                    return Err(SchemeError::WrongType);
                },
            };
            let bright: Rgb = match items[1] {
                Some(n) => match rgb_from_integer(n) {
                    Ok(c) => c,
                    Err(e) => {
                        return Err(e);
                    },
                },
                None => {
                    return Err(SchemeError::WrongType);
                },
            };
            Ok((normal, bright))
        },
        _ => Err(SchemeError::WrongType),
    }
}

/// The place of a hue by its name.
fn hue_index(key: &Vec<char>) -> (hue: Option<usize>)
    ensures
        match hue {
            Some(h) => hue_of(key@) == Some(h as int) && h < 8,
            None => hue_of(key@) is None,
        },
{
    if spells(key, "black") {
        Some(0)
    } else if spells(key, "red") {
        Some(1)
    } else if spells(key, "green") {
        Some(2)
    } else if spells(key, "yellow") {
        Some(3)
    } else if spells(key, "blue") {
        Some(4)
    } else if spells(key, "magenta") {
        Some(5)
    } else if spells(key, "cyan") {
        Some(6)
    } else if spells(key, "white") {
        Some(7)
    } else {
        None
    }
}

#[verifier::rlimit(60)]
#[verifier::spinoff_prover]
fn apply_glow(glow: &mut GlowOverrides, key: &Vec<char>, value: &Value) -> (done: Result<
    (),
    SchemeError,
>)
    ensures
        match (done, glow_applied(*old(glow), key@, value@)) {
            (Ok(_), Ok(after)) => *final(glow) == after,
            (Err(e), Err(want)) => e == want && *final(glow) == *old(glow),
            _ => false,
        },
{
    if spells(key, "glow_match_brightness") {
        match want_bool(value) {
            Ok(v) => {
                glow.match_brightness = Some(v);
            },
            Err(e) => {
                return Err(e);
            },
        }
    } else if spells(key, "glow_match_bright_ansi") {
        match want_bool(value) {
            Ok(v) => {
                glow.match_bright_ansi = Some(v);
            },
            Err(e) => {
                return Err(e);
            },
        }
    } else if spells(key, "glow_match_foreground") {
        match want_bool(value) {
            Ok(v) => {
                glow.match_foreground = Some(v);
            },
            Err(e) => {
                return Err(e);
            },
        }
    } else if spells(key, "glow_threshold") {
        match want_number(value, Range::Unit) {
            Ok(v) => {
                glow.threshold = Some(v);
            },
            Err(e) => {
                return Err(e);
            },
        }
    } else if spells(key, "glow_intensity") {
        match want_number(value, Range::FromZero) {
            Ok(v) => {
                glow.intensity = Some(v);
            },
            Err(e) => {
                return Err(e);
            },
        }
    } else if spells(key, "glow_softness") {
        match want_number(value, Range::Unit) {
            Ok(v) => {
                glow.softness = Some(v);
            },
            Err(e) => {
                return Err(e);
            },
        }
    } else if spells(key, "glow_hue_tolerance_deg") {
        match want_number(value, Range::HalfTurn) {
            Ok(v) => {
                glow.hue_tolerance_deg = Some(v);
            },
            Err(e) => {
                return Err(e);
            },
        }
    } else if spells(key, "glow_fg_tolerance") {
        match want_number(value, Range::ColorDistance) {
            Ok(v) => {
                glow.fg_tolerance = Some(v);
            },
            Err(e) => {
                return Err(e);
            },
        }
    } else if spells(key, "glow_iterations") {
        match want_usize(value) {
            Ok(v) => {
                glow.iterations = Some(v);
            },
            Err(e) => {
                return Err(e);
            },
        }
    } else if spells(key, "glow_scanlines") {
        match want_bool(value) {
            Ok(v) => {
                glow.scanlines = Some(v);
            },
            Err(e) => {
                return Err(e);
            },
        }
    } else if spells(key, "glow_scanline_strength") {
        match want_number(value, Range::Unit) {
            Ok(v) => {
                glow.scanline_strength = Some(v);
            },
            Err(e) => {
                return Err(e);
            },
        }
    } else if spells(key, "glow_scanline_period") {
        match want_number(value, Range::FromOne) {
            Ok(v) => {
                glow.scanline_period = Some(v);
            },
            Err(e) => {
                return Err(e);
            },
        }
    } else if spells(key, "glow_scanlines_content") {
        match want_bool(value) {
            Ok(v) => {
                glow.scanlines_content = Some(v);
            },
            Err(e) => {
                return Err(e);
            },
        }
    } else if spells(key, "glow_scanlines_content_strength") {
        match want_number(value, Range::Unit) {
            Ok(v) => {
                glow.scanlines_content_strength = Some(v);
            },
            Err(e) => {
                return Err(e);
            },
        }
    } else if spells(key, "glow_scanline_color_bright") {
        match rgb_from_value(value) {
            Ok(v) => {
                glow.scanline_color_bright = Some(v);
            },
            Err(e) => {
                return Err(e);
            },
        }
    } else if spells(key, "glow_scanline_color_dark") {
        match rgb_from_value(value) {
            Ok(v) => {
                glow.scanline_color_dark = Some(v);
            },
            Err(e) => {
                return Err(e);
            },
        }
    } else if spells(key, "glow_scanlines_skip_primary_bg") {
        match want_bool(value) {
            Ok(v) => {
                glow.scanlines_skip_primary_bg = Some(v);
            },
            Err(e) => {
                return Err(e);
            },
        }
    } else if spells(key, "glow_scanlines_content_attenuation") {
        match want_number(value, Range::Unit) {
            Ok(v) => {
                glow.scanlines_content_attenuation = Some(v);
            },
            Err(e) => {
                return Err(e);
            },
        }
    } else {
        return Err(SchemeError::UnknownKey);
    }
    Ok(())
}

impl Palette {
    /// A scheme has sixteen ANSI colours.
    pub open spec fn wf(&self) -> bool {
        self.ansi@.len() == 16
    }

    /// The scheme that changes nothing.
    pub fn defaults() -> (p: Self)
        ensures
            p.wf(),
            p@ == default_palette(),
    {
        let p = Palette {
            background: None,
            foreground: None,
            cursor: None,
            selection: None,
            selection_fg: None,
            ansi: vec![None; 16],
            max_colors: ColorCap::Truecolor,
            glow: GlowOverrides::default(),
        };
        assert(p.ansi@ =~= default_palette().ansi);
        p
    }

    /// Applies one entry of a scheme. An entry that does not fit changes
    /// nothing.
    pub fn apply(&mut self, key: &str, value: &Value) -> (done: Result<(), SchemeError>)
        requires
            old(self).wf(),
        ensures
            final(self).wf(),
            match (done, applied(old(self)@, key@, value@)) {
                (Ok(_), Ok(after)) => final(self)@ == after,
                (Err(e), Err(want)) => e == want && final(self)@ == old(self)@,
                _ => false,
            },
    {
        let ghost before = self@;
        let key: Vec<char> = chars_of(key);
        if spells(&key, "background") {
            match rgb_from_value(value) {
                Ok(c) => {
                    self.background = Some(c);
                },
                Err(e) => {
                    return Err(e);
                },
            }
        } else if spells(&key, "foreground") {
            match rgb_from_value(value) {
                Ok(c) => {
                    self.foreground = Some(c);
                },
                Err(e) => {
                    return Err(e);
                },
            }
        } else if spells(&key, "cursor") {
            match rgb_from_value(value) {
                Ok(c) => {
                    self.cursor = Some(c);
                },
                Err(e) => {
                    return Err(e);
                },
            }
        } else if spells(&key, "selection") {
            match rgb_from_value(value) {
                Ok(c) => {
                    self.selection = Some(c);
                },
                Err(e) => {
                    return Err(e);
                },
            }
        } else if spells(&key, "selection_fg") || spells(&key, "selection_foreground") {
            match rgb_from_value(value) {
                Ok(c) => {
                    self.selection_fg = Some(c);
                },
                Err(e) => {
                    return Err(e);
                },
            }
        } else {
            match hue_index(&key) {
                Some(hue) => match want_pair(value) {
                    Ok((normal, bright)) => {
                        self.ansi[hue] = Some(normal);
                        self.ansi[hue + 8] = Some(bright);
                    },
                    Err(e) => {
                        return Err(e);
                    },
                },
                None => {
                    if spells(&key, "max_colors") {
                        match parse_color_cap(value) {
                            Ok(cap) => {
                                self.max_colors = cap;
                            },
                            Err(e) => {
                                return Err(e);
                            },
                        }
                    } else {
                        match apply_glow(&mut self.glow, &key, value) {
                            Ok(_) => {},
                            Err(e) => {
                                return Err(e);
                            },
                        }
                    }
                },
            }
        }
        assert(self@ =~= applied(before, key@, value@)->Ok_0);
        Ok(())
    }
}

/// A colour of the 256: one of the ANSI colours, or a fixed one.
#[derive(Copy, Clone, Debug, PartialEq, Eq, Structural)]
pub enum Swatch {
    Ansi(usize),
    Fixed(Rgb),
}

/// The level of one axis of the colour cube.
pub open spec fn cube_level(step: int) -> int {
    if step == 0 {
        0
    } else {
        55 + step * 40
    }
}

/// Colour `n` of the 256: sixteen ANSI colours, a cube of six levels on each
/// axis, and 24 grays.
pub open spec fn swatch_of(n: u8) -> Swatch {
    if n < 16 {
        Swatch::Ansi(n as usize)
    } else if n < 232 {
        let k = n - 16;
        Swatch::Fixed(
            Rgb {
                r: cube_level(k / 36) as u8,
                g: cube_level(k % 36 / 6) as u8,
                b: cube_level(k % 6) as u8,
            },
        )
    } else {
        let gray = (8 + (n - 232) * 10) as u8;
        Swatch::Fixed(Rgb { r: gray, g: gray, b: gray })
    }
}

fn cube_byte(step: u8) -> (level: u8)
    requires
        step < 6,
    ensures
        level == cube_level(step as int),
{
    if step == 0 {
        0
    } else {
        55 + step * 40
    }
}

/// Colour `n` of the 256.
pub fn swatch(n: u8) -> (s: Swatch)
    ensures
        s == swatch_of(n),
{
    if n < 16 {
        Swatch::Ansi(n as usize)
    } else if n < 232 {
        let k: u8 = n - 16;
        Swatch::Fixed(
            Rgb { r: cube_byte(k / 36), g: cube_byte(k % 36 / 6), b: cube_byte(k % 6) },
        )
    } else {
        let gray: u8 = 8 + (n - 232) * 10;
        Swatch::Fixed(Rgb { r: gray, g: gray, b: gray })
    }
}

/// The colours that a cap allows.
#[derive(Copy, Clone, Debug, PartialEq, Eq, Structural)]
pub enum Allowed {
    /// Every colour.
    All,
    /// Foreground and background.
    TwoTone,
    /// This many of the ANSI colours.
    Ansi(usize),
    /// The 256 colours.
    Xterm,
}

/// The place of the first of the smallest keys.
pub open spec fn is_first_smallest(keys: Seq<u32>, at: int) -> bool {
    &&& 0 <= at < keys.len()
    &&& forall|i: int| 0 <= i < keys.len() ==> keys[at] <= #[trigger] keys[i]
    &&& forall|i: int| 0 <= i < at ==> keys[at] < #[trigger] keys[i]
}

/// The entry that stands for ANSI colour `i` where only the first `n` are
/// allowed: a bright colour folds onto its normal one.
pub fn folded(i: usize, n: usize) -> (at: usize)
    requires
        i < 16,
        n == 8 || n == 16,
    ensures
        at < n,
        at == if i < n {
            i as int
        } else {
            i - 8
        },
{
    if i < n {
        i
    } else {
        i - 8
    }
}

/// The nearest of some colours, by the keys of their distances: a distance
/// that is not negative is ordered as the bits of its single precision form.
/// Of equally near ones the first is taken.
pub fn nearest(keys: &Vec<u32>) -> (at: usize)
    requires
        keys@.len() > 0,
    ensures
        is_first_smallest(keys@, at as int),
{
    let mut at: usize = 0;
    let mut i: usize = 1;
    while i < keys.len()
        invariant
            1 <= i <= keys@.len(),
            at < i,
            forall|k: int| 0 <= k < i ==> keys@[at as int] <= #[trigger] keys@[k],
            forall|k: int| 0 <= k < at ==> keys@[at as int] < #[trigger] keys@[k],
        decreases keys@.len() - i,
    {
        if keys[i] < keys[at] {
            at = i;
        }
        i = i + 1;
    }
    at
}

impl ColorCap {
    /// The colours that this cap allows.
    pub fn allowed(self) -> (a: Allowed)
        ensures
            a == match self {
                ColorCap::Mono => Allowed::TwoTone,
                ColorCap::Ansi8 => Allowed::Ansi(8),
                ColorCap::Ansi16 => Allowed::Ansi(16),
                ColorCap::Xterm256 => Allowed::Xterm,
                ColorCap::Truecolor => Allowed::All,
            },
    {
        match self {
            ColorCap::Mono => Allowed::TwoTone,
            ColorCap::Ansi8 => Allowed::Ansi(8),
            ColorCap::Ansi16 => Allowed::Ansi(16),
            ColorCap::Xterm256 => Allowed::Xterm,
            ColorCap::Truecolor => Allowed::All,
        }
    }
}

impl Palette {
    /// The ANSI colour `n`, of which the low three bits count.
    pub fn ansi(&self, n: u8, bright: bool) -> (color: Option<Rgb>)
        requires
            self.wf(),
        ensures
            color == self@.ansi[n as int % 8 + if bright {
                8int
            } else {
                0int
            }],
    {
        let i: usize = (n % 8) as usize + if bright {
            8usize
        } else {
            0usize
        };
        self.ansi[i]
    }

    /// Colour `n` of the 256 under this scheme. `None` for an ANSI colour that
    /// the scheme leaves to the built-in one.
    pub fn xterm_256(&self, n: u8) -> (color: Option<Rgb>)
        requires
            self.wf(),
        ensures
            color == match swatch_of(n) {
                Swatch::Ansi(i) => self@.ansi[i as int],
                Swatch::Fixed(rgb) => Some(rgb),
            },
    {
        match swatch(n) {
            Swatch::Ansi(i) => self.ansi[i],
            Swatch::Fixed(rgb) => Some(rgb),
        }
    }
}

/// The entries that a scheme refuses, by their keys, each with its error.
pub open spec fn refusals(p: PaletteView, entries: Seq<(Seq<char>, ValueView)>) -> Seq<
    (Seq<char>, SchemeError),
>
    decreases entries.len(),
{
    if entries.len() == 0 {
        Seq::empty()
    } else {
        let before = refusals(p, entries.drop_last());
        match applied(
            applied_all(p, entries.drop_last()),
            entries.last().0,
            entries.last().1,
        ) {
            Ok(_) => before,
            Err(e) => before.push((entries.last().0, e)),
        }
    }
}

/// What a list of refused keys holds.
pub open spec fn refusal_views(list: Seq<(String, SchemeError)>) -> Seq<(Seq<char>, SchemeError)> {
    Seq::new(list.len(), |i: int| (list[i].0@, list[i].1))
}

/// The scheme that the entries of a document make, and the entries that it
/// refuses.
pub fn scheme_from_entries(entries: &Vec<(String, Value)>) -> (scheme: (
    Palette,
    Vec<(String, SchemeError)>,
))
    ensures
        scheme.0.wf(),
        scheme.0@ == applied_all(default_palette(), entry_views(entries@)),
        refusal_views(scheme.1@) == refusals(default_palette(), entry_views(entries@)),
{
    let ghost all = entry_views(entries@);
    let mut p: Palette = Palette::defaults();
    let mut refused: Vec<(String, SchemeError)> = Vec::new();
    let mut i: usize = 0;
    assert(all.take(0) =~= Seq::<(Seq<char>, ValueView)>::empty());
    assert(refusal_views(refused@) =~= Seq::<(Seq<char>, SchemeError)>::empty());
    while i < entries.len()
        invariant
            i <= entries@.len(),
            all == entry_views(entries@),
            p.wf(),
            p@ == applied_all(default_palette(), all.take(i as int)),
            refusal_views(refused@) == refusals(default_palette(), all.take(i as int)),
        decreases entries@.len() - i,
    {
        let entry: &(String, Value) = &entries[i];
        proof {
            assert(all.take(i + 1).drop_last() =~= all.take(i as int));
            assert(all.take(i + 1).last() == (entry.0@, entry.1@));
        }
        match p.apply(entry.0.as_str(), &entry.1) {
            Ok(_) => {},
            Err(e) => {
                let ghost before = refusal_views(refused@);
                refused.push((entry.0.as_str().to_owned(), e));
                assert(refusal_views(refused@) =~= before.push((entry.0@, e)));
            },
        }
        i = i + 1;
    }
    assert(all.take(all.len() as int) =~= all);
    (p, refused)
}

/// The scheme that the entries of a document make.
pub fn palette_from_entries(entries: &Vec<(String, Value)>) -> (p: Palette)
    ensures
        p.wf(),
        p@ == applied_all(default_palette(), entry_views(entries@)),
{
    scheme_from_entries(entries).0
}

/// Reads a scheme. Keys that are missing keep their defaults, and so do keys
/// whose value does not fit; a text that is no TOML at all is the default
/// scheme.
pub fn parse_toml(src: &str) -> (p: Palette)
    ensures
        p.wf(),
        p@ == match toml_entries(src@) {
            Some(entries) => applied_all(default_palette(), entries),
            None => default_palette(),
        },
{
    read_scheme(src).0
}

/// Reads a scheme as [`parse_toml`] does, and says what is to be reported: the
/// keys that it refuses, each with its error, or `None` for a text that is no
/// TOML.
pub fn read_scheme(src: &str) -> (scheme: (Palette, Option<Vec<(String, SchemeError)>>))
    ensures
        scheme.0.wf(),
        match toml_entries(src@) {
            Some(entries) => scheme.0@ == applied_all(default_palette(), entries) && (scheme.1 matches Some(
                list,
            ) && refusal_views(list@) == refusals(default_palette(), entries)),
            None => scheme.0@ == default_palette() && scheme.1 is None,
        },
{
    match read_table(src) {
        Some(entries) => {
            let scheme: (Palette, Vec<(String, SchemeError)>) = scheme_from_entries(&entries);
            (scheme.0, Some(scheme.1))
        },
        None => (Palette::defaults(), None),
    }
}

/// An entry that does not fit is reported with its error, wherever it stands.
pub proof fn misfit_is_reported(
    p: PaletteView,
    entries: Seq<(Seq<char>, ValueView)>,
    i: int,
)
    requires
        0 <= i < entries.len(),
        applied(applied_all(p, entries.take(i)), entries[i].0, entries[i].1) is Err,
    ensures
        refusals(p, entries).contains(
            (
                entries[i].0,
                applied(applied_all(p, entries.take(i)), entries[i].0, entries[i].1)->Err_0,
            ),
        ),
    decreases entries.len(),
{
    let e = applied(applied_all(p, entries.take(i)), entries[i].0, entries[i].1)->Err_0;
    let head = entries.drop_last();
    if i == entries.len() - 1 {
        assert(entries.take(i) =~= head);
        assert(refusals(p, entries).last() == (entries[i].0, e));
    } else {
        assert(head.take(i) =~= entries.take(i));
        misfit_is_reported(p, head, i);
        let before = refusals(p, head);
        let k = choose|k: int| 0 <= k < before.len() && before[k] == (entries[i].0, e);
        assert(refusals(p, entries)[k] == before[k]);
    }
}

/// One bad entry does not spoil the others: a scheme is the same with it and
/// without it.
pub proof fn bad_entry_is_skipped(
    p: PaletteView,
    before: Seq<(Seq<char>, ValueView)>,
    bad: (Seq<char>, ValueView),
    after: Seq<(Seq<char>, ValueView)>,
)
    requires
        applied(applied_all(p, before), bad.0, bad.1) is Err,
    ensures
        applied_all(p, before.push(bad) + after) == applied_all(p, before + after),
    decreases after.len(),
{
    let with = before.push(bad) + after;
    let without = before + after;
    if after.len() == 0 {
        assert(with =~= before.push(bad));
        assert(with.drop_last() =~= before);
        assert(without =~= before);
    } else {
        bad_entry_is_skipped(p, before, bad, after.drop_last());
        assert(with.drop_last() =~= before.push(bad) + after.drop_last());
        assert(without.drop_last() =~= before + after.drop_last());
        assert(with.last() == after.last() && without.last() == after.last());
    }
}

/// Whether an entry is refused does not depend on the scheme so far.
pub proof fn refusal_is_the_entrys_own(
    p: PaletteView,
    q: PaletteView,
    key: Seq<char>,
    value: ValueView,
)
    ensures
        applied(p, key, value) is Err <==> applied(q, key, value) is Err,
{
}

/// Applying an entry twice is applying it once.
pub proof fn applying_twice_changes_nothing(p: PaletteView, key: Seq<char>, value: ValueView)
    requires
        p.ansi.len() == 16,
    ensures
        applied(p, key, value) matches Ok(q) ==> applied(q, key, value) == Ok::<
            PaletteView,
            SchemeError,
        >(q),
{
    if let Ok(q) = applied(p, key, value) {
        if hue_of(key) is Some {
            let again = applied(q, key, value)->Ok_0;
            assert(again =~= q);
        }
    }
}

/// A colour names itself: its bytes come back out of `0xRRGGBB`.
pub proof fn hex_colour_round_trips(r: u8, g: u8, b: u8)
    ensures
        rgb_of((r * 0x1_0000 + g * 0x100 + b) as i64) == Ok::<Rgb, SchemeError>(Rgb { r, g, b }),
{
    let n = r * 0x1_0000 + g * 0x100 + b;
    let low = g * 0x100 + b;
    vstd::arithmetic::div_mod::lemma_fundamental_div_mod_converse(n, 0x1_0000, r as int, low);
    let high = r * 0x100 + g;
    vstd::arithmetic::div_mod::lemma_fundamental_div_mod_converse(n, 0x100, high, b as int);
    vstd::arithmetic::div_mod::lemma_fundamental_div_mod_converse(
        high,
        0x100,
        r as int,
        g as int,
    );
}

/// The cube and the grays stay within bytes.
pub proof fn swatches_fit_bytes(n: u8)
    ensures
        16 <= n < 232 ==> 0 <= cube_level((n - 16) / 36) <= 255 && 0 <= cube_level(
            (n - 16) % 36 / 6,
        ) <= 255 && 0 <= cube_level((n - 16) % 6) <= 255,
        232 <= n ==> 0 <= 8 + (n - 232) * 10 <= 238,
{
}

/// Colour `16 + 36 r + 6 g + b` of the 256 has the `r`-th level of red, the `g`-th
/// of green and the `b`-th of blue, where the levels are 0, 95, 135, 175, 215 and
/// 255; the 24 grays after them rise from 8 in steps of ten; and the sixteen before
/// them are the scheme's own.
pub proof fn colour_cube_is_by_red_green_and_blue(
    p: &Palette,
    n: u8,
    r: int,
    g: int,
    b: int,
    color: Option<Rgb>,
)
    requires
        call_ensures(Palette::xterm_256, (p, n), color),
        0 <= r < 6,
        0 <= g < 6,
        0 <= b < 6,
    ensures
        ({
            let level = seq![0u8, 95, 135, 175, 215, 255];
            &&& n == 16 + 36 * r + 6 * g + b ==> color == Some(
                Rgb { r: level[r], g: level[g], b: level[b] },
            )
            &&& n < 16 ==> color == p.ansi@[n as int]
            &&& n >= 232 ==> color is Some && (color->0).r == 8 + 10 * (n - 232) && (color->0).g == (
            color->0).r && (color->0).b == (color->0).r
        }),
{
    if n == 16 + 36 * r + 6 * g + b {
        let k = n - 16;
        vstd::arithmetic::div_mod::lemma_fundamental_div_mod_converse(k, 36, r, 6 * g + b);
        vstd::arithmetic::div_mod::lemma_fundamental_div_mod_converse(6 * g + b, 6, g, b);
        vstd::arithmetic::div_mod::lemma_fundamental_div_mod_converse(k, 6, 6 * r + g, b);
    }
}

/// An ANSI colour is found by its low three bits, the bright ones eight places
/// after the normal ones.
pub proof fn ansi_colours_are_in_their_places(
    p: &Palette,
    n: u8,
    bright: bool,
    color: Option<Rgb>,
    k: int,
    low: int,
)
    requires
        call_ensures(Palette::ansi, (p, n, bright), color),
        n == 8 * k + low,
        0 <= low < 8,
    ensures
        !bright ==> color == p.ansi@[low],
        bright ==> color == p.ansi@[low + 8],
{
}

/// A colour is written as one number, red first: 65536 for each step of red, 256
/// for each of green and one for each of blue. A number that no colour has is out
/// of range, and no other value is a colour.
pub proof fn colour_is_read_red_first(
    value: &Value,
    color: Result<Rgb, SchemeError>,
    r: u8,
    g: u8,
    b: u8,
)
    requires
        call_ensures(rgb_from_value, (value,), color),
    ensures
        value@ matches ValueView::Integer(n) ==> n == 65536 * r + 256 * g + b ==> color == Ok::<
            Rgb,
            SchemeError,
        >(Rgb { r, g, b }),
        value@ matches ValueView::Integer(n) ==> n < 0 || n > 16_777_215 ==> color == Err::<
            Rgb,
            SchemeError,
        >(SchemeError::OutOfRange),
        !(value@ is Integer) ==> color == Err::<Rgb, SchemeError>(SchemeError::WrongType),
{
    hex_colour_round_trips(r, g, b);
}

/// The names and numbers of the colour caps.
pub proof fn caps_have_their_names_and_numbers(value: &Value, cap: Result<ColorCap, SchemeError>)
    requires
        call_ensures(parse_color_cap, (value,), cap),
    ensures
        value@ == ValueView::Integer(8) || value@ == ValueView::Text("8"@) ==> cap == Ok::<
            ColorCap,
            SchemeError,
        >(ColorCap::Ansi8),
        value@ == ValueView::Integer(16) || value@ == ValueView::Text("16"@) ==> cap == Ok::<
            ColorCap,
            SchemeError,
        >(ColorCap::Ansi16),
        value@ == ValueView::Integer(256) || value@ == ValueView::Text("256"@) ==> cap == Ok::<
            ColorCap,
            SchemeError,
        >(ColorCap::Xterm256),
        value@ == ValueView::Integer(16_777_216) || value@ == ValueView::Text("16777216"@) || value@
            == ValueView::Text("truecolor"@) || value@ == ValueView::Text("16m"@) ==> cap == Ok::<
            ColorCap,
            SchemeError,
        >(ColorCap::Truecolor),
        value@ == ValueView::Text("mono"@) || value@ == ValueView::Text("monochrome"@) ==> cap
            == Ok::<ColorCap, SchemeError>(ColorCap::Mono),
        value@ is Integer && value@->Integer_0 != 8 && value@->Integer_0 != 16 && value@->Integer_0
            != 256 && value@->Integer_0 != 16_777_216 ==> cap == Err::<ColorCap, SchemeError>(
            SchemeError::OutOfRange,
        ),
        !(value@ is Integer) && !(value@ is Text) ==> cap == Err::<ColorCap, SchemeError>(
            SchemeError::WrongType,
        ),
{
    cap_names_differ();
}

/// How many colours a cap leaves.
pub proof fn caps_allow_as_many_colours_as_they_say(cap: ColorCap, allowed: Allowed)
    requires
        call_ensures(ColorCap::allowed, (cap,), allowed),
    ensures
        allowed == Allowed::TwoTone <==> cap == ColorCap::Mono,
        allowed == Allowed::Ansi(8) <==> cap == ColorCap::Ansi8,
        allowed == Allowed::Ansi(16) <==> cap == ColorCap::Ansi16,
        allowed == Allowed::Xterm <==> cap == ColorCap::Xterm256,
        allowed == Allowed::All <==> cap == ColorCap::Truecolor,
{
}

/// Of the colours that are equally near the first is taken, and none is nearer.
pub proof fn nearest_colour_is_nearest(keys: &Vec<u32>, at: usize, i: int)
    requires
        call_ensures(nearest, (keys,), at),
        0 <= i < keys@.len(),
    ensures
        at < keys@.len(),
        keys@[at as int] <= keys@[i],
        i < at ==> keys@[at as int] < keys@[i],
{
}

/// An integer is held to the range of its setting: below it becomes the least
/// value that the setting takes, above it the largest, and within it stays.
pub proof fn integers_are_held_to_their_range(i: i64, range: Range, out: Number)
    requires
        call_ensures(hold, (Number::Integer(i), range), out),
    ensures
        ({
            let zero = Number::Float(0u64);
            let one = Number::Float(0x3ff0_0000_0000_0000u64);
            &&& range != Range::FromOne && i < 0 ==> out == zero
            &&& range == Range::FromOne && i < 1 ==> out == one
            &&& range == Range::Unit && i > 1 ==> out == one
            &&& range == Range::HalfTurn && i > 180 ==> out == Number::Float(
                0x4066_8000_0000_0000u64,
            )
            &&& range == Range::ColorDistance && i > 1 ==> out == Number::Float(
                0x3ffb_b67a_e000_0000u64,
            )
            &&& range == Range::HalfTurn && 0 <= i <= 180 ==> out == Number::Integer(i)
            &&& (range == Range::Unit || range == Range::ColorDistance) && 0 <= i <= 1 ==> out
                == Number::Integer(i)
            &&& range == Range::FromZero && i >= 0 ==> out == Number::Integer(i)
            &&& range == Range::FromOne && i >= 1 ==> out == Number::Integer(i)
        }),
{
}

/// A fraction is held to the range of its setting. Doubles from zero up to
/// infinity are ordered as their bits are; one with its highest bit set is below
/// zero, or zero itself; and what is past infinity is not a number.
pub proof fn fractions_are_held_to_their_range(bits: u64, range: Range, out: Number)
    requires
        call_ensures(hold, (Number::Float(bits), range), out),
    ensures
        ({
            let infinity = 0x7ff0_0000_0000_0000u64;
            let sign = 0x8000_0000_0000_0000u64;
            let least = if range == Range::FromOne {
                0x3ff0_0000_0000_0000u64
            } else {
                0u64
            };
            let most = match range {
                Range::Unit => 0x3ff0_0000_0000_0000u64,
                Range::HalfTurn => 0x4066_8000_0000_0000u64,
                Range::ColorDistance => 0x3ffb_b67a_e000_0000u64,
                _ => infinity,
            };
            &&& bits <= infinity ==> out == Number::Float(
                if bits < least {
                    least
                } else if bits > most {
                    most
                } else {
                    bits
                },
            )
            &&& sign < bits <= sign + infinity ==> out == Number::Float(least)
            &&& infinity < bits < sign || bits > sign + infinity ==> out == if range
                == Range::FromZero || range == Range::FromOne {
                Number::Float(least)
            } else {
                Number::Float(bits)
            }
        }),
{
}

/// A key for one colour sets that colour and nothing else. A value that is no
/// colour changes nothing and is refused for what is wrong with it.
pub proof fn colour_keys_set_their_colour(
    p: &mut Palette,
    key: &str,
    value: &Value,
    done: Result<(), SchemeError>,
    color: Result<Rgb, SchemeError>,
)
    requires
        call_ensures(Palette::apply, (p, key, value), done),
        call_ensures(rgb_from_value, (value,), color),
        key@ == "background"@ || key@ == "foreground"@ || key@ == "cursor"@ || key@ == "selection"@
            || key@ == "selection_fg"@ || key@ == "selection_foreground"@,
    ensures
        color matches Err(e) ==> done == Err::<(), SchemeError>(e) && final(p)@ == old(p)@,
        color matches Ok(c) ==> done is Ok && final(p)@ == if key@ == "background"@ {
            PaletteView { background: Some(c), ..old(p)@ }
        } else if key@ == "foreground"@ {
            PaletteView { foreground: Some(c), ..old(p)@ }
        } else if key@ == "cursor"@ {
            PaletteView { cursor: Some(c), ..old(p)@ }
        } else if key@ == "selection"@ {
            PaletteView { selection: Some(c), ..old(p)@ }
        } else {
            PaletteView { selection_fg: Some(c), ..old(p)@ }
        },
{
    colour_keys_differ();
}

/// A key for a hue takes two colours, the normal one and then the bright one, and
/// sets those two of the ANSI colours and nothing else.
pub proof fn hue_keys_set_their_pair(
    p: &mut Palette,
    key: &str,
    value: &Value,
    done: Result<(), SchemeError>,
    hue: int,
    normal: Rgb,
    bright: Rgb,
)
    requires
        call_ensures(Palette::apply, (p, key, value), done),
        old(p).wf(),
        ({
            ||| key@ == "black"@ && hue == 0
            ||| key@ == "red"@ && hue == 1
            ||| key@ == "green"@ && hue == 2
            ||| key@ == "yellow"@ && hue == 3
            ||| key@ == "blue"@ && hue == 4
            ||| key@ == "magenta"@ && hue == 5
            ||| key@ == "cyan"@ && hue == 6
            ||| key@ == "white"@ && hue == 7
        }),
        value@ == ValueView::Array(
            seq![
                Some((65536 * normal.r + 256 * normal.g + normal.b) as i64),
                Some((65536 * bright.r + 256 * bright.g + bright.b) as i64),
            ],
        ),
    ensures
        done is Ok,
        final(p).ansi@[hue] == Some(normal),
        final(p).ansi@[hue + 8] == Some(bright),
        final(p).ansi@.len() == old(p).ansi@.len(),
        forall|i: int|
            0 <= i < 16 && i != hue && i != hue + 8 ==> #[trigger] final(p).ansi@[i]
                == old(p).ansi@[i],
        final(p)@ == (PaletteView { ansi: final(p).ansi@, ..old(p)@ }),
{
    hues_are_no_other_keys(key@);
    hex_colour_round_trips(normal.r, normal.g, normal.b);
    hex_colour_round_trips(bright.r, bright.g, bright.b);
}

/// The keys for hues are none of the keys for single colours, and differ.
proof fn hues_are_no_other_keys(key: Seq<char>)
    requires
        key == "black"@ || key == "red"@ || key == "green"@ || key == "yellow"@ || key == "blue"@
            || key == "magenta"@ || key == "cyan"@ || key == "white"@,
    ensures
        key != "background"@,
        key != "foreground"@,
        key != "cursor"@,
        key != "selection"@,
        key != "selection_fg"@,
        key != "selection_foreground"@,
        key == "red"@ ==> key != "black"@,
        key == "green"@ ==> key != "black"@ && key != "red"@,
        key == "yellow"@ ==> key != "black"@ && key != "red"@ && key != "green"@,
        key == "blue"@ ==> key != "black"@ && key != "red"@ && key != "green"@ && key != "yellow"@,
        key == "magenta"@ ==> key != "black"@ && key != "red"@ && key != "green"@ && key
            != "yellow"@ && key != "blue"@,
        key == "cyan"@ ==> key != "black"@ && key != "red"@ && key != "green"@ && key != "yellow"@
            && key != "blue"@ && key != "magenta"@,
        key == "white"@ ==> key != "black"@ && key != "red"@ && key != "green"@ && key != "yellow"@
            && key != "blue"@ && key != "magenta"@ && key != "cyan"@,
{
    colour_keys_differ();
}

/// The key for the cap sets the cap and nothing else.
pub proof fn cap_key_sets_the_cap(
    p: &mut Palette,
    key: &str,
    value: &Value,
    done: Result<(), SchemeError>,
    cap: Result<ColorCap, SchemeError>,
)
    requires
        call_ensures(Palette::apply, (p, key, value), done),
        call_ensures(parse_color_cap, (value,), cap),
        key@ == "max_colors"@,
    ensures
        cap matches Err(e) ==> done == Err::<(), SchemeError>(e) && final(p)@ == old(p)@,
        cap matches Ok(c) ==> done is Ok && final(p)@ == (PaletteView {
            max_colors: c,
            ..old(p)@
        }),
{
    other_keys_are_no_colours(key@);
}

/// The keys for the cap and the glow are none of the keys for colours.
proof fn other_keys_are_no_colours(key: Seq<char>)
    requires
        key == "max_colors"@ || starts_with_glow(key),
    ensures
        key != "background"@,
        key != "foreground"@,
        key != "cursor"@,
        key != "selection"@,
        key != "selection_fg"@,
        key != "selection_foreground"@,
        hue_of(key) is None,
        key.len() > 0 && key[0] == 'g' ==> key != "max_colors"@,
{
    colour_keys_differ();
    assert(key != "green"@) by {
        assert("green"@[1] == 'r');
    }
}

/// The switches of the glow: each key sets its own, and takes a truth value only.
pub proof fn glow_switches_are_set_by_their_keys(
    p: &mut Palette,
    key: &str,
    value: &Value,
    done: Result<(), SchemeError>,
)
    requires
        call_ensures(Palette::apply, (p, key, value), done),
        key@ == "glow_match_brightness"@ || key@ == "glow_match_bright_ansi"@ || key@
            == "glow_match_foreground"@ || key@ == "glow_scanlines"@ || key@
            == "glow_scanlines_content"@ || key@ == "glow_scanlines_skip_primary_bg"@,
    ensures
        !(value@ is Boolean) ==> done == Err::<(), SchemeError>(SchemeError::WrongType),
        !(value@ is Boolean) ==> final(p)@ == old(p)@,
        value@ matches ValueView::Boolean(b) ==> done is Ok && ({
            let glow = old(p).glow;
            final(p)@ == (PaletteView {
                glow: if key@ == "glow_match_brightness"@ {
                    GlowOverrides { match_brightness: Some(b), ..glow }
                } else if key@ == "glow_match_bright_ansi"@ {
                    GlowOverrides { match_bright_ansi: Some(b), ..glow }
                } else if key@ == "glow_match_foreground"@ {
                    GlowOverrides { match_foreground: Some(b), ..glow }
                } else if key@ == "glow_scanlines"@ {
                    GlowOverrides { scanlines: Some(b), ..glow }
                } else if key@ == "glow_scanlines_content"@ {
                    GlowOverrides { scanlines_content: Some(b), ..glow }
                } else {
                    GlowOverrides { scanlines_skip_primary_bg: Some(b), ..glow }
                },
                ..old(p)@
            })
        }),
{
    reveal_glow_keys();
    glow_keys_are_known();
    other_keys_are_no_colours(key@);
}

/// The numbers of the glow: each key sets its own, held to its range: fractions
/// of one for threshold, softness and the strengths, degrees up to half a turn for
/// the hue, the distance of two colours for the foreground, any from zero for the
/// intensity and any from one for the period.
pub proof fn glow_numbers_are_set_by_their_keys(
    p: &mut Palette,
    key: &str,
    value: &Value,
    done: Result<(), SchemeError>,
    n: Number,
    range: Range,
    held_n: Number,
)
    requires
        call_ensures(Palette::apply, (p, key, value), done),
        call_ensures(hold, (n, range), held_n),
        ({
            ||| value@ is Integer && n == Number::Integer(value@->Integer_0)
            ||| value@ is Float && n == Number::Float(value@->Float_0)
        }),
        ({
            ||| range == Range::Unit && (key@ == "glow_threshold"@ || key@ == "glow_softness"@
                || key@ == "glow_scanline_strength"@ || key@ == "glow_scanlines_content_strength"@
                || key@ == "glow_scanlines_content_attenuation"@)
            ||| range == Range::HalfTurn && key@ == "glow_hue_tolerance_deg"@
            ||| range == Range::ColorDistance && key@ == "glow_fg_tolerance"@
            ||| range == Range::FromZero && key@ == "glow_intensity"@
            ||| range == Range::FromOne && key@ == "glow_scanline_period"@
        }),
    ensures
        done is Ok,
        ({
            let glow = old(p).glow;
            final(p)@ == (PaletteView {
                glow: if key@ == "glow_threshold"@ {
                    GlowOverrides { threshold: Some(held_n), ..glow }
                } else if key@ == "glow_softness"@ {
                    GlowOverrides { softness: Some(held_n), ..glow }
                } else if key@ == "glow_scanline_strength"@ {
                    GlowOverrides { scanline_strength: Some(held_n), ..glow }
                } else if key@ == "glow_scanlines_content_strength"@ {
                    GlowOverrides { scanlines_content_strength: Some(held_n), ..glow }
                } else if key@ == "glow_scanlines_content_attenuation"@ {
                    GlowOverrides { scanlines_content_attenuation: Some(held_n), ..glow }
                } else if key@ == "glow_hue_tolerance_deg"@ {
                    GlowOverrides { hue_tolerance_deg: Some(held_n), ..glow }
                } else if key@ == "glow_fg_tolerance"@ {
                    GlowOverrides { fg_tolerance: Some(held_n), ..glow }
                } else if key@ == "glow_intensity"@ {
                    GlowOverrides { intensity: Some(held_n), ..glow }
                } else {
                    GlowOverrides { scanline_period: Some(held_n), ..glow }
                },
                ..old(p)@
            })
        }),
{
    reveal_glow_keys();
    glow_keys_are_known();
    other_keys_are_no_colours(key@);
}

/// The passes and the colours of the scanlines: each key sets its own.
pub proof fn scanline_colours_and_passes_are_set_by_their_keys(
    p: &mut Palette,
    key: &str,
    value: &Value,
    done: Result<(), SchemeError>,
    color: Result<Rgb, SchemeError>,
)
    requires
        call_ensures(Palette::apply, (p, key, value), done),
        call_ensures(rgb_from_value, (value,), color),
    ensures
        key@ == "glow_scanline_color_bright"@ ==> match color {
            Ok(c) => done is Ok && final(p)@ == (PaletteView {
                glow: GlowOverrides { scanline_color_bright: Some(c), ..old(p).glow },
                ..old(p)@
            }),
            Err(e) => done == Err::<(), SchemeError>(e) && final(p)@ == old(p)@,
        },
        key@ == "glow_scanline_color_dark"@ ==> match color {
            Ok(c) => done is Ok && final(p)@ == (PaletteView {
                glow: GlowOverrides { scanline_color_dark: Some(c), ..old(p).glow },
                ..old(p)@
            }),
            Err(e) => done == Err::<(), SchemeError>(e) && final(p)@ == old(p)@,
        },
        key@ == "glow_iterations"@ ==> match value@ {
            ValueView::Integer(n) => if 0 <= n <= usize::MAX {
                done is Ok && final(p)@ == (PaletteView {
                    glow: GlowOverrides { iterations: Some(n as usize), ..old(p).glow },
                    ..old(p)@
                })
            } else {
                done == Err::<(), SchemeError>(SchemeError::OutOfRange) && final(p)@ == old(p)@
            },
            _ => done == Err::<(), SchemeError>(SchemeError::WrongType) && final(p)@ == old(p)@,
        },
{
    reveal_glow_keys();
    glow_keys_are_known();
    if key@ == "glow_scanline_color_bright"@ || key@ == "glow_scanline_color_dark"@ || key@
        == "glow_iterations"@ {
        other_keys_are_no_colours(key@);
    }
}

/// An entry that is refused changes nothing, and one that is taken has a key that
/// schemes know.
pub proof fn refused_entry_changes_nothing(
    p: &mut Palette,
    key: &str,
    value: &Value,
    done: Result<(), SchemeError>,
)
    requires
        call_ensures(Palette::apply, (p, key, value), done),
    ensures
        done is Err ==> final(p)@ == old(p)@,
        done == Err::<(), SchemeError>(SchemeError::UnknownKey) || done is Ok || done == Err::<
            (),
            SchemeError,
        >(SchemeError::WrongType) || done == Err::<(), SchemeError>(SchemeError::OutOfRange) || (
        done == Err::<(), SchemeError>(SchemeError::WrongLength) && value@ is Array
            && value@->Array_0.len() != 2),
        value@ is Other ==> done is Err,
{
}

/// A scheme grows entry by entry: with one more entry it is what applying that
/// entry makes of it, and the key is reported if it was refused. Without entries
/// it is the default one.
pub proof fn scheme_grows_entry_by_entry(
    head: &Vec<(String, Value)>,
    all: &Vec<(String, Value)>,
    scheme_head: (Palette, Vec<(String, SchemeError)>),
    scheme_all: (Palette, Vec<(String, SchemeError)>),
    p: &mut Palette,
    key: &str,
    value: &Value,
    done: Result<(), SchemeError>,
    default: Palette,
)
    requires
        call_ensures(scheme_from_entries, (head,), scheme_head),
        call_ensures(scheme_from_entries, (all,), scheme_all),
        call_ensures(Palette::apply, (p, key, value), done),
        call_ensures(Palette::defaults, (), default),
        all@.len() == head@.len() + 1,
        all@.drop_last() == head@,
        all@.last().0@ == key@,
        all@.last().1@ == value@,
        old(p)@ == scheme_head.0@,
    ensures
        scheme_all.0@ == final(p)@,
        scheme_all.1@.len() == scheme_head.1@.len() + if done is Err {
            1int
        } else {
            0
        },
        forall|i: int|
            0 <= i < scheme_head.1@.len() ==> (#[trigger] scheme_all.1@[i]).0@
                == scheme_head.1@[i].0@ && scheme_all.1@[i].1 == scheme_head.1@[i].1,
        done matches Err(e) ==> scheme_all.1@.last().0@ == key@ && scheme_all.1@.last().1 == e,
        head@.len() == 0 ==> scheme_head.0@ == default@ && scheme_head.1@.len() == 0,
{
    let (a, b) = (entry_views(head@), entry_views(all@));
    assert(b.drop_last() =~= a);
    assert(b.last() == (key@, value@));
    let (x, y) = (refusal_views(scheme_head.1@), refusal_views(scheme_all.1@));
    assert(x.len() == scheme_head.1@.len() && y.len() == scheme_all.1@.len());
    assert forall|i: int| 0 <= i < scheme_head.1@.len() implies (#[trigger] scheme_all.1@[i]).0@
        == scheme_head.1@[i].0@ && scheme_all.1@[i].1 == scheme_head.1@[i].1 by {
        assert(x[i] == (scheme_head.1@[i].0@, scheme_head.1@[i].1));
        assert(y[i] == (scheme_all.1@[i].0@, scheme_all.1@[i].1));
    }
    if done is Err {
        let k = scheme_all.1@.len() - 1;
        assert(y[k] == (scheme_all.1@[k].0@, scheme_all.1@[k].1));
    }
    if head@.len() == 0 {
        assert(a =~= Seq::<(Seq<char>, ValueView)>::empty());
    }
}

/// A scheme text is what its entries are; one that is no TOML is the default
/// scheme, with nothing refused.
pub proof fn scheme_text_is_its_entries(
    src: &str,
    entries: &Vec<(String, Value)>,
    p: Palette,
    read: (Palette, Option<Vec<(String, SchemeError)>>),
    scheme: (Palette, Vec<(String, SchemeError)>),
    plain: Palette,
    default: Palette,
)
    requires
        call_ensures(parse_toml, (src,), p),
        call_ensures(read_scheme, (src,), read),
        call_ensures(scheme_from_entries, (entries,), scheme),
        call_ensures(palette_from_entries, (entries,), plain),
        call_ensures(Palette::defaults, (), default),
    ensures
        plain@ == scheme.0@,
        read.0@ == p@,
        toml_entries(src@) == Some(entry_views(entries@)) ==> p@ == scheme.0@ && read.1 is Some
            && read.1->0@.len() == scheme.1@.len(),
        toml_entries(src@) == Some(entry_views(entries@)) ==> forall|i: int|
            0 <= i < scheme.1@.len() ==> (#[trigger] read.1->0@[i]).0@ == scheme.1@[i].0@
                && read.1->0@[i].1 == scheme.1@[i].1,
        toml_entries(src@) is None ==> p@ == default@ && read.1 is None,
{
    if read.1 is Some {
        assert(refusal_views(read.1->0@).len() == read.1->0@.len());
    }
    assert(refusal_views(scheme.1@).len() == scheme.1@.len());
    if toml_entries(src@) == Some(entry_views(entries@)) {
        assert forall|i: int| 0 <= i < scheme.1@.len() implies (#[trigger] read.1->0@[i]).0@
            == scheme.1@[i].0@ && read.1->0@[i].1 == scheme.1@[i].1 by {
            assert(refusal_views(read.1->0@)[i] == refusal_views(scheme.1@)[i]);
        }
    }
}

/// The default scheme leaves every colour to the built-in one, allows all colours,
/// and leaves the glow alone.
pub proof fn default_scheme_changes_nothing(p: Palette)
    requires
        call_ensures(Palette::defaults, (), p),
    ensures
        p.background is None && p.foreground is None && p.cursor is None,
        p.selection is None && p.selection_fg is None,
        p.ansi@.len() == 16,
        forall|i: int| 0 <= i < 16 ==> #[trigger] p.ansi@[i] is None,
        p.max_colors == ColorCap::Truecolor,
        p.glow.match_brightness is None && p.glow.match_bright_ansi is None
            && p.glow.match_foreground is None && p.glow.threshold is None && p.glow.intensity is None
            && p.glow.softness is None && p.glow.hue_tolerance_deg is None
            && p.glow.fg_tolerance is None && p.glow.iterations is None,
        p.glow.scanlines is None && p.glow.scanline_strength is None
            && p.glow.scanline_period is None && p.glow.scanlines_content is None
            && p.glow.scanlines_content_strength is None && p.glow.scanline_color_bright is None
            && p.glow.scanline_color_dark is None && p.glow.scanlines_skip_primary_bg is None
            && p.glow.scanlines_content_attenuation is None,
{
    assert(p@.ansi == p.ansi@);
}

/// What tells the keys of the glow apart: their lengths, and a character where
/// these are the same.
proof fn reveal_glow_keys()
    ensures
        "glow_match_brightness"@.len() == 21,
        "glow_match_bright_ansi"@.len() == 22,
        "glow_match_foreground"@.len() == 21,
        "glow_threshold"@.len() == 14,
        "glow_intensity"@.len() == 14,
        "glow_softness"@.len() == 13,
        "glow_hue_tolerance_deg"@.len() == 22,
        "glow_fg_tolerance"@.len() == 17,
        "glow_iterations"@.len() == 15,
        "glow_scanlines"@.len() == 14,
        "glow_scanline_strength"@.len() == 22,
        "glow_scanline_period"@.len() == 20,
        "glow_scanlines_content"@.len() == 22,
        "glow_scanlines_content_strength"@.len() == 31,
        "glow_scanline_color_bright"@.len() == 26,
        "glow_scanline_color_dark"@.len() == 24,
        "glow_scanlines_skip_primary_bg"@.len() == 30,
        "glow_scanlines_content_attenuation"@.len() == 34,
        "glow_match_brightness"@[11] == 'b',
        "glow_match_bright_ansi"@[5] == 'm',
        "glow_match_foreground"@[11] == 'f',
        "glow_threshold"@[5] == 't',
        "glow_intensity"@[5] == 'i',
        "glow_hue_tolerance_deg"@[5] == 'h',
        "glow_scanlines"@[5] == 's',
        "glow_scanline_strength"@[5] == 's',
        "glow_scanline_strength"@[13] == '_',
        "glow_scanlines_content"@[5] == 's',
        "glow_scanlines_content"@[13] == 's',
{
    reveal_strlit("glow_match_brightness");
    reveal_strlit("glow_match_bright_ansi");
    reveal_strlit("glow_match_foreground");
    reveal_strlit("glow_threshold");
    reveal_strlit("glow_intensity");
    reveal_strlit("glow_softness");
    reveal_strlit("glow_hue_tolerance_deg");
    reveal_strlit("glow_fg_tolerance");
    reveal_strlit("glow_iterations");
    reveal_strlit("glow_scanlines");
    reveal_strlit("glow_scanline_strength");
    reveal_strlit("glow_scanline_period");
    reveal_strlit("glow_scanlines_content");
    reveal_strlit("glow_scanlines_content_strength");
    reveal_strlit("glow_scanline_color_bright");
    reveal_strlit("glow_scanline_color_dark");
    reveal_strlit("glow_scanlines_skip_primary_bg");
    reveal_strlit("glow_scanlines_content_attenuation");
}

/// The keys of the glow start alike.
proof fn glow_keys_are_known()
    ensures
        starts_with_glow("glow_match_brightness"@),
        starts_with_glow("glow_match_bright_ansi"@),
        starts_with_glow("glow_match_foreground"@),
        starts_with_glow("glow_threshold"@),
        starts_with_glow("glow_intensity"@),
        starts_with_glow("glow_softness"@),
        starts_with_glow("glow_hue_tolerance_deg"@),
        starts_with_glow("glow_fg_tolerance"@),
        starts_with_glow("glow_iterations"@),
        starts_with_glow("glow_scanlines"@),
        starts_with_glow("glow_scanline_strength"@),
        starts_with_glow("glow_scanline_period"@),
        starts_with_glow("glow_scanlines_content"@),
        starts_with_glow("glow_scanlines_content_strength"@),
        starts_with_glow("glow_scanline_color_bright"@),
        starts_with_glow("glow_scanline_color_dark"@),
        starts_with_glow("glow_scanlines_skip_primary_bg"@),
        starts_with_glow("glow_scanlines_content_attenuation"@),
{
    reveal_strlit("glow_match_brightness");
    reveal_strlit("glow_match_bright_ansi");
    reveal_strlit("glow_match_foreground");
    reveal_strlit("glow_threshold");
    reveal_strlit("glow_intensity");
    reveal_strlit("glow_softness");
    reveal_strlit("glow_hue_tolerance_deg");
    reveal_strlit("glow_fg_tolerance");
    reveal_strlit("glow_iterations");
    reveal_strlit("glow_scanlines");
    reveal_strlit("glow_scanline_strength");
    reveal_strlit("glow_scanline_period");
    reveal_strlit("glow_scanlines_content");
    reveal_strlit("glow_scanlines_content_strength");
    reveal_strlit("glow_scanline_color_bright");
    reveal_strlit("glow_scanline_color_dark");
    reveal_strlit("glow_scanlines_skip_primary_bg");
    reveal_strlit("glow_scanlines_content_attenuation");
}

/// Whether a key starts as those of the glow do.
pub open spec fn starts_with_glow(key: Seq<char>) -> bool {
    key.len() > 5 && key[0] == 'g' && key[1] == 'l' && key[2] == 'o' && key[3] == 'w' && key[4]
        == '_'
}

/// What tells the names of the caps apart.
proof fn cap_names_differ()
    ensures
        "8"@.len() == 1,
        "16"@.len() == 2,
        "256"@.len() == 3,
        "16777216"@.len() == 8,
        "truecolor"@.len() == 9,
        "16m"@.len() == 3,
        "mono"@.len() == 4,
        "monochrome"@.len() == 10,
        "256"@[0] == '2',
        "16m"@[0] == '1',
{
    reveal_strlit("8");
    reveal_strlit("16");
    reveal_strlit("256");
    reveal_strlit("16777216");
    reveal_strlit("truecolor");
    reveal_strlit("16m");
    reveal_strlit("mono");
    reveal_strlit("monochrome");
}

/// What tells the keys for colours and the cap apart.
proof fn colour_keys_differ()
    ensures
        "background"@.len() == 10,
        "foreground"@.len() == 10,
        "cursor"@.len() == 6,
        "selection"@.len() == 9,
        "selection_fg"@.len() == 12,
        "selection_foreground"@.len() == 20,
        "black"@.len() == 5,
        "red"@.len() == 3,
        "green"@.len() == 5,
        "yellow"@.len() == 6,
        "blue"@.len() == 4,
        "magenta"@.len() == 7,
        "cyan"@.len() == 4,
        "white"@.len() == 5,
        "max_colors"@.len() == 10,
        "background"@[0] == 'b',
        "foreground"@[0] == 'f',
        "cursor"@[0] == 'c',
        "selection"@[0] == 's',
        "selection_fg"@[0] == 's',
        "selection_foreground"@[0] == 's',
        "black"@[0] == 'b',
        "red"@[0] == 'r',
        "green"@[0] == 'g',
        "green"@[1] == 'r',
        "yellow"@[0] == 'y',
        "blue"@[0] == 'b',
        "magenta"@[0] == 'm',
        "cyan"@[0] == 'c',
        "white"@[0] == 'w',
        "max_colors"@[0] == 'm',
{
    reveal_strlit("background");
    reveal_strlit("foreground");
    reveal_strlit("cursor");
    reveal_strlit("selection");
    reveal_strlit("selection_fg");
    reveal_strlit("selection_foreground");
    reveal_strlit("black");
    reveal_strlit("red");
    reveal_strlit("green");
    reveal_strlit("yellow");
    reveal_strlit("blue");
    reveal_strlit("magenta");
    reveal_strlit("cyan");
    reveal_strlit("white");
    reveal_strlit("max_colors");
}

/// A text that names no colour cap is out of range.
pub proof fn unknown_cap_is_out_of_range(value: &Value, cap: Result<ColorCap, SchemeError>)
    requires
        call_ensures(parse_color_cap, (value,), cap),
        value@ is Text,
    ensures
        ({
            let name = value@->Text_0;
            let known = name == "mono"@ || name == "monochrome"@ || name == "8"@ || name == "16"@
                || name == "256"@ || name == "truecolor"@ || name == "16m"@ || name == "16777216"@;
            &&& known <==> cap is Ok
            &&& !known ==> cap == Err::<ColorCap, SchemeError>(SchemeError::OutOfRange)
        }),
{
    cap_names_differ();
}

/// Where only eight ANSI colours are allowed, a bright colour stands in the place of
/// the normal one; where sixteen are, every colour in its own.
pub proof fn bright_colours_fold_onto_normal_ones(i: usize, eight: usize, sixteen: usize)
    requires
        call_ensures(folded, (i, 8), eight),
        call_ensures(folded, (i, 16), sixteen),
        i < 16,
    ensures
        eight < 8,
        eight == i || eight + 8 == i,
        sixteen == i,
{
}

/// The 256 colours start with the sixteen of the scheme, and the others are fixed:
/// those that every scheme shows.
pub proof fn fixed_colours_are_the_same_in_every_scheme(
    n: u8,
    s: Swatch,
    p: &Palette,
    color: Option<Rgb>,
)
    requires
        call_ensures(swatch, (n,), s),
        call_ensures(Palette::xterm_256, (p, n), color),
    ensures
        n < 16 <==> s is Ansi,
        n < 16 ==> s == Swatch::Ansi(n as usize) && color == p.ansi@[n as int],
        n >= 16 ==> s is Fixed && color == Some(s->Fixed_0),
{
}

/// A hue is refused for the wrong type if it is no array or one of its two items is no
/// integer, for its length if it has not two items, and for its range if an item is
/// no colour; of two wrong items the first counts. A refused hue changes nothing.
pub proof fn hue_is_refused_for_its_first_mistake(
    p: &mut Palette,
    key: &str,
    value: &Value,
    done: Result<(), SchemeError>,
    normal: Option<i64>,
    bright: Option<i64>,
)
    requires
        call_ensures(Palette::apply, (p, key, value), done),
        key@ == "black"@ || key@ == "red"@ || key@ == "green"@ || key@ == "yellow"@ || key@
            == "blue"@ || key@ == "magenta"@ || key@ == "cyan"@ || key@ == "white"@,
    ensures
        done is Err ==> final(p)@ == old(p)@,
        !(value@ is Array) ==> done == Err::<(), SchemeError>(SchemeError::WrongType),
        value@ is Array && value@->Array_0.len() != 2 ==> done == Err::<(), SchemeError>(
            SchemeError::WrongLength,
        ),
        value@ == ValueView::Array(seq![normal, bright]) ==> {
            &&& normal is None ==> done == Err::<(), SchemeError>(SchemeError::WrongType)
            &&& normal is Some && !(0 <= normal->0 <= 16_777_215) ==> done == Err::<
                (),
                SchemeError,
            >(SchemeError::OutOfRange)
            &&& normal is Some && 0 <= normal->0 <= 16_777_215 && bright is None ==> done == Err::<
                (),
                SchemeError,
            >(SchemeError::WrongType)
            &&& normal is Some && 0 <= normal->0 <= 16_777_215 && bright is Some && !(0 <= bright->0
                <= 16_777_215) ==> done == Err::<(), SchemeError>(SchemeError::OutOfRange)
            &&& normal is Some && 0 <= normal->0 <= 16_777_215 && bright is Some && 0 <= bright->0
                <= 16_777_215 ==> done is Ok
        },
{
    hues_are_no_other_keys(key@);
    if value@ == ValueView::Array(seq![normal, bright]) {
        assert(value@->Array_0[0] == normal && value@->Array_0[1] == bright);
    }
}

/// A number of the glow is refused for the wrong type if its value is no number.
pub proof fn glow_number_is_a_number(
    p: &mut Palette,
    key: &str,
    value: &Value,
    done: Result<(), SchemeError>,
)
    requires
        call_ensures(Palette::apply, (p, key, value), done),
        key@ == "glow_threshold"@ || key@ == "glow_softness"@ || key@ == "glow_scanline_strength"@
            || key@ == "glow_scanlines_content_strength"@ || key@
            == "glow_scanlines_content_attenuation"@ || key@ == "glow_hue_tolerance_deg"@ || key@
            == "glow_fg_tolerance"@ || key@ == "glow_intensity"@ || key@ == "glow_scanline_period"@,
    ensures
        !(value@ is Integer) && !(value@ is Float) ==> done == Err::<(), SchemeError>(
            SchemeError::WrongType,
        ) && final(p)@ == old(p)@,
        value@ is Integer || value@ is Float ==> done is Ok,
{
    reveal_glow_keys();
    glow_keys_are_known();
    other_keys_are_no_colours(key@);
}

/// The keys that schemes know.
pub open spec fn known_key(key: Seq<char>) -> bool {
    ||| key == "background"@ || key == "foreground"@ || key == "cursor"@ || key == "selection"@
    ||| key == "selection_fg"@ || key == "selection_foreground"@ || key == "max_colors"@
    ||| key == "black"@ || key == "red"@ || key == "green"@ || key == "yellow"@ || key == "blue"@
    ||| key == "magenta"@ || key == "cyan"@ || key == "white"@
    ||| key == "glow_match_brightness"@ || key == "glow_match_bright_ansi"@
    ||| key == "glow_match_foreground"@ || key == "glow_threshold"@ || key == "glow_intensity"@
    ||| key == "glow_softness"@ || key == "glow_hue_tolerance_deg"@ || key == "glow_fg_tolerance"@
    ||| key == "glow_iterations"@ || key == "glow_scanlines"@ || key == "glow_scanline_strength"@
    ||| key == "glow_scanline_period"@ || key == "glow_scanlines_content"@
    ||| key == "glow_scanlines_content_strength"@ || key == "glow_scanline_color_bright"@
    ||| key == "glow_scanline_color_dark"@ || key == "glow_scanlines_skip_primary_bg"@
    ||| key == "glow_scanlines_content_attenuation"@
}

/// An entry is refused for its key exactly when schemes do not know it.
pub proof fn unknown_key_is_refused(
    p: &mut Palette,
    key: &str,
    value: &Value,
    done: Result<(), SchemeError>,
)
    requires
        call_ensures(Palette::apply, (p, key, value), done),
    ensures
        done == Err::<(), SchemeError>(SchemeError::UnknownKey) <==> !known_key(key@),
{
}

/// A zero with a sign is a zero: it stays where zero is in the range, and becomes one
/// where the range starts at one.
pub proof fn negative_zero_is_zero(range: Range, out: Number)
    requires
        call_ensures(hold, (Number::Float(0x8000_0000_0000_0000u64), range), out),
    ensures
        range == Range::FromOne ==> out == Number::Float(0x3ff0_0000_0000_0000u64),
        range != Range::FromOne ==> out == Number::Float(0x8000_0000_0000_0000u64),
{
}

} // verus!
