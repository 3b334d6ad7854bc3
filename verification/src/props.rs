//! The document property model: colors, text and paragraph properties,
//! section properties, and their attribute-string forms.

use vstd::prelude::*;
use vstd::string::{StrSliceExecFns, StringExecFns};

use crate::strutil::str_eq;

verus! {

/// An RGBA color with 8-bit channels.
#[derive(Clone, Copy, Debug, PartialEq, Eq, Structural)]
pub struct Color {
    pub r: u8,
    pub g: u8,
    pub b: u8,
    pub a: u8,
}

/// The character is a hexadecimal digit.
pub open spec fn is_hex_digit(c: char) -> bool {
    ('0' as u32 <= c as u32 && c as u32 <= '9' as u32) || ('a' as u32 <= c as u32 && c as u32
        <= 'f' as u32) || ('A' as u32 <= c as u32 && c as u32 <= 'F' as u32)
}

/// Numeric value of a hexadecimal digit.
pub open spec fn hex_digit_val(c: char) -> nat {
    if '0' as u32 <= c as u32 && c as u32 <= '9' as u32 {
        (c as u32 - '0' as u32) as nat
    } else if 'a' as u32 <= c as u32 && c as u32 <= 'f' as u32 {
        (c as u32 - 'a' as u32 + 10) as nat
    } else {
        (c as u32 - 'A' as u32 + 10) as nat
    }
}

/// Every character is a hexadecimal digit.
pub open spec fn all_hex_digits(s: Seq<char>) -> bool {
    forall|i: int| 0 <= i < s.len() ==> is_hex_digit(s[i])
}

/// Value of a digit sequence read as a hexadecimal number.
pub open spec fn hex_val(s: Seq<char>) -> nat
    decreases s.len(),
{
    if s.len() == 0 {
        0
    } else {
        hex_val(s.drop_last()) * 16 + hex_digit_val(s.last())
    }
}

/// The uppercase digit character for a value below sixteen.
pub open spec fn hex_digit_char(v: nat) -> char {
    if v < 10 {
        crate::strutil::digit_char(v)
    } else if v == 10 {
        'A'
    } else if v == 11 {
        'B'
    } else if v == 12 {
        'C'
    } else if v == 13 {
        'D'
    } else if v == 14 {
        'E'
    } else {
        'F'
    }
}

/// Two uppercase hex digits for a byte.
pub open spec fn hex2(v: nat) -> Seq<char> {
    seq![hex_digit_char(v / 16), hex_digit_char(v % 16)]
}

/// A hex-digit prefix's value never exceeds the whole string's value.
proof fn lemma_hex_val_prefix(s: Seq<char>, i: int)
    requires
        0 <= i <= s.len(),
    ensures
        hex_val(s.take(i)) <= hex_val(s),
    decreases s.len() - i,
{
    if i < s.len() {
        lemma_hex_val_prefix(s, i + 1);
        assert(s.take(i + 1).drop_last() =~= s.take(i));
        assert(hex_val(s.take(i + 1)) == hex_val(s.take(i)) * 16 + hex_digit_val(
            s.take(i + 1).last(),
        ));
        assert(hex_val(s.take(i)) * 16 >= hex_val(s.take(i))) by (nonlinear_arith);
    } else {
        assert(s.take(i) =~= s);
    }
}

/// Parse a hexadecimal `u32`.  Returns the value exactly when the string is
/// a nonempty run of hex digits whose value fits in a `u32`.
pub fn parse_hex_u32(s: &str) -> (r: Option<u32>)
    ensures
        match r {
            Some(v) => all_hex_digits(s@) && s@.len() > 0 && v as nat == hex_val(s@),
            None => !(all_hex_digits(s@) && s@.len() > 0 && hex_val(s@) <= u32::MAX as nat),
        },
{
    let n = s.unicode_len();
    if n == 0 {
        return None;
    }
    let mut acc: u32 = 0;
    let mut i: usize = 0;
    while i < n
        invariant
            i <= n,
            n == s@.len(),
            all_hex_digits(s@.take(i as int)),
            acc as nat == hex_val(s@.take(i as int)),
        decreases n - i,
    {
        let c = s.get_char(i);
        let cv = c as u32;
        let d: u32 = if cv >= '0' as u32 && cv <= '9' as u32 {
            cv - '0' as u32
        } else if cv >= 'a' as u32 && cv <= 'f' as u32 {
            cv - 'a' as u32 + 10
        } else if cv >= 'A' as u32 && cv <= 'F' as u32 {
            cv - 'A' as u32 + 10
        } else {
            proof {
                assert(!is_hex_digit(s@[i as int]));
            }
            return None;
        };
        proof {
            assert(s@.take(i as int + 1).drop_last() =~= s@.take(i as int));
            assert(s@.take(i as int + 1).last() == s@[i as int]);
        }
        if acc > (u32::MAX - d) / 16 {
            proof {
                assert(acc as nat * 16 + d as nat > u32::MAX as nat) by (nonlinear_arith)
                    requires
                        acc as nat > ((u32::MAX - d) / 16) as nat,
                        d as nat <= 15,
                ;
                assert(hex_val(s@.take(i as int + 1)) > u32::MAX as nat);
                lemma_hex_val_prefix(s@, i as int + 1);
            }
            return None;
        }
        proof {
            assert(acc * 16 + d <= u32::MAX) by (nonlinear_arith)
                requires
                    acc as nat <= ((u32::MAX - d) / 16) as nat,
                    d as nat <= 15,
            ;
        }
        acc = acc * 16 + d;
        i += 1;
    }
    proof {
        assert(s@.take(n as int) =~= s@);
    }
    Some(acc)
}

/// The uppercase hex-digit string for a value below sixteen.
fn hex_digit_string(v: u8) -> (r: String)
    requires
        v < 16,
    ensures
        r@ =~= seq![hex_digit_char(v as nat)],
{
    if v < 10 {
        crate::strutil::u64_to_string(v as u64)
    } else {
        proof {
            reveal_strlit("A");
            reveal_strlit("B");
            reveal_strlit("C");
            reveal_strlit("D");
            reveal_strlit("E");
            reveal_strlit("F");
        }
        if v == 10 {
            String::from_str("A")
        } else if v == 11 {
            String::from_str("B")
        } else if v == 12 {
            String::from_str("C")
        } else if v == 13 {
            String::from_str("D")
        } else if v == 14 {
            String::from_str("E")
        } else {
            String::from_str("F")
        }
    }
}

/// Two uppercase hex digits for a byte.
fn byte_hex_string(v: u8) -> (r: String)
    ensures
        r@ =~= hex2(v as nat),
{
    let high = hex_digit_string(v / 16);
    let low = hex_digit_string(v % 16);
    high.concat(low.as_str())
}

/// The shifted-and-masked bytes of a 32-bit value are its base-256 digits.
proof fn lemma_u32_bytes(v: u32)
    ensures
        (v >> 24) == v / 0x100_0000,
        ((v >> 16) & 0xff) == (v / 0x1_0000) % 0x100,
        ((v >> 8) & 0xff) == (v / 0x100) % 0x100,
        (v & 0xff) == v % 0x100,
        (v >> 24) < 0x100,
        ((v >> 16) & 0xff) < 0x100,
        ((v >> 8) & 0xff) < 0x100,
        (v & 0xff) < 0x100,
{
    assert((v >> 24) == v / 0x100_0000 && ((v >> 16) & 0xff) == (v / 0x1_0000) % 0x100 && ((v >> 8)
        & 0xff) == (v / 0x100) % 0x100 && (v & 0xff) == v % 0x100 && (v >> 24) < 0x100 && ((v >> 16)
        & 0xff) < 0x100 && ((v >> 8) & 0xff) < 0x100 && (v & 0xff) < 0x100) by (bit_vector);
}

impl Color {
    /// Opaque black.
    pub fn black() -> (r: Color)
        ensures
            r == (Color { r: 0, g: 0, b: 0, a: 255 }),
    {
        Color { r: 0, g: 0, b: 0, a: 255 }
    }

    /// The color encoded by a 32-bit `0xRRGGBBAA` value.
    pub fn from_hex(hex: u32) -> (r: Color)
        ensures
            r.r == hex / 0x100_0000,
            r.g == (hex / 0x1_0000) % 0x100,
            r.b == (hex / 0x100) % 0x100,
            r.a == hex % 0x100,
    {
        proof {
            lemma_u32_bytes(hex);
        }
        Color {
            r: (hex >> 24) as u8,
            g: ((hex >> 16) & 0xff) as u8,
            b: ((hex >> 8) & 0xff) as u8,
            a: (hex & 0xff) as u8,
        }
    }

    /// What `from_str` yields: the low three bytes of the hex value as an
    /// opaque color, when the string is a hex number that fits in a `u32`.
    pub open spec fn spec_from_str(s: Seq<char>) -> Option<Color> {
        if all_hex_digits(s) && s.len() > 0 && hex_val(s) <= u32::MAX as nat {
            let v = hex_val(s);
            Some(
                Color {
                    r: ((v / 0x1_0000) % 0x100) as u8,
                    g: ((v / 0x100) % 0x100) as u8,
                    b: (v % 0x100) as u8,
                    a: 255,
                },
            )
        } else {
            None
        }
    }

    /// Parse a `RRGGBB` attribute value.
    pub fn from_str(s: &str) -> (r: Option<Color>)
        ensures
            r == Self::spec_from_str(s@),
    {
        match parse_hex_u32(s) {
            Some(v) => {
                proof {
                    lemma_u32_bytes(v);
                }
                Some(
                Color {
                    r: ((v >> 16) & 0xff) as u8,
                    g: ((v >> 8) & 0xff) as u8,
                    b: (v & 0xff) as u8,
                    a: 255,
                },
            )
            },
            None => None,
        }
    }

    /// The `RRGGBB` attribute form of the color.
    pub fn to_xml_val(&self) -> (r: String)
        ensures
            r@ == hex2(self.r as nat) + hex2(self.g as nat) + hex2(self.b as nat),
    {
        let rr = byte_hex_string(self.r);
        let gg = byte_hex_string(self.g);
        let bb = byte_hex_string(self.b);
        let out = rr.concat(gg.as_str()).concat(bb.as_str());
        proof {
            assert(out@ =~= hex2(self.r as nat) + hex2(self.g as nat) + hex2(self.b as nat));
        }
        out
    }
}

/// Font weight of a run.
#[derive(Clone, Copy, Debug, PartialEq, Eq, Structural, Default)]
pub enum TextWeight {
    #[default]
    Regular,
    Bold,
}

/// A font size, in half-points as stored in the document format.
#[derive(Clone, Copy, Debug, PartialEq, Eq, Structural)]
pub struct TextSize(pub u32);

impl Default for TextSize {
    /// Twelve points.
    fn default() -> (r: TextSize)
        ensures
            r == (TextSize(24u32)),
    {
        TextSize(24)
    }
}

impl TextSize {
    /// The size in whole points.
    pub fn points(self) -> (r: u32)
        ensures
            r == self.0 / 2,
    {
        self.0 / 2
    }
}

/// Horizontal distribution policy for a line.
#[derive(Clone, Copy, Debug, PartialEq, Eq, Structural, Default)]
pub enum Justification {
    #[default]
    Start,
    End,
    Center,
    Width,
}

impl Justification {
    pub open spec fn spec_from_str(s: Seq<char>) -> Option<Justification> {
        if s == "start"@ {
            Some(Justification::Start)
        } else if s == "end"@ {
            Some(Justification::End)
        } else if s == "width"@ {
            Some(Justification::Width)
        } else if s == "center"@ {
            Some(Justification::Center)
        } else {
            None
        }
    }

    pub fn from_str(s: &str) -> (r: Option<Justification>)
        ensures
            r == Self::spec_from_str(s@),
    {
        if str_eq(s, "start") {
            Some(Justification::Start)
        } else if str_eq(s, "end") {
            Some(Justification::End)
        } else if str_eq(s, "width") {
            Some(Justification::Width)
        } else if str_eq(s, "center") {
            Some(Justification::Center)
        } else {
            None
        }
    }

    /// The attribute form of the justification.
    pub fn xml_name(self) -> (r: String)
        ensures
            match self {
                Justification::Start => r@ == "start"@,
                Justification::End => r@ == "end"@,
                Justification::Center => r@ == "center"@,
                Justification::Width => r@ == "width"@,
            },
    {
        match self {
            Justification::Start => String::from_str("start"),
            Justification::End => String::from_str("end"),
            Justification::Center => String::from_str("center"),
            Justification::Width => String::from_str("width"),
        }
    }
}

/// Flow direction of the text on a page.
#[derive(Clone, Copy, Debug, PartialEq, Eq, Structural, Default)]
pub enum TextDirection {
    #[default]
    LeftToRightTopToBottom,
    LeftToRightBottomToTop,
    RightToLeftTopToBottom,
    RightToLeftBottomToTop,
}

impl TextDirection {
    /// The attribute mapping accepted on read; note that it is not the
    /// inverse of `xml_name`, which follows the emitting side.
    pub open spec fn spec_from_str(s: Seq<char>) -> Option<TextDirection> {
        if s == "lrTb"@ {
            Some(TextDirection::LeftToRightBottomToTop)
        } else if s == "lrBt"@ {
            Some(TextDirection::LeftToRightTopToBottom)
        } else if s == "rlTb"@ {
            Some(TextDirection::RightToLeftBottomToTop)
        } else if s == "rlBt"@ {
            Some(TextDirection::RightToLeftTopToBottom)
        } else {
            None
        }
    }

    pub fn from_str(s: &str) -> (r: Option<TextDirection>)
        ensures
            r == Self::spec_from_str(s@),
    {
        if str_eq(s, "lrTb") {
            Some(TextDirection::LeftToRightBottomToTop)
        } else if str_eq(s, "lrBt") {
            Some(TextDirection::LeftToRightTopToBottom)
        } else if str_eq(s, "rlTb") {
            Some(TextDirection::RightToLeftBottomToTop)
        } else if str_eq(s, "rlBt") {
            Some(TextDirection::RightToLeftTopToBottom)
        } else {
            None
        }
    }

    /// The attribute form of the direction.
    pub fn xml_name(self) -> (r: String)
        ensures
            match self {
                TextDirection::LeftToRightTopToBottom => r@ == "lrTb"@,
                TextDirection::LeftToRightBottomToTop => r@ == "lrBt"@,
                TextDirection::RightToLeftTopToBottom => r@ == "rlTb"@,
                TextDirection::RightToLeftBottomToTop => r@ == "rlBt"@,
            },
    {
        match self {
            TextDirection::LeftToRightTopToBottom => String::from_str("lrTb"),
            TextDirection::LeftToRightBottomToTop => String::from_str("lrBt"),
            TextDirection::RightToLeftTopToBottom => String::from_str("rlTb"),
            TextDirection::RightToLeftBottomToTop => String::from_str("rlBt"),
        }
    }
}

/// Layout grid kind of a section.
#[derive(Clone, Copy, Debug, PartialEq, Eq, Structural, Default)]
pub enum GridType {
    #[default]
    Default,
}

impl GridType {
    pub open spec fn spec_from_str(s: Seq<char>) -> Option<GridType> {
        if s == "default"@ {
            Some(GridType::Default)
        } else {
            None
        }
    }

    pub fn from_str(s: &str) -> (r: Option<GridType>)
        ensures
            r == Self::spec_from_str(s@),
    {
        if str_eq(s, "default") {
            Some(GridType::Default)
        } else {
            None
        }
    }
}

/// Page numbering format of a section.
#[derive(Clone, Copy, Debug, PartialEq, Eq, Structural)]
pub enum NumType {
    Decimal,
}

impl NumType {
    pub open spec fn spec_from_str(s: Seq<char>) -> Option<NumType> {
        if s == "decimal"@ {
            Some(NumType::Decimal)
        } else {
            None
        }
    }

    pub fn from_str(s: &str) -> (r: Option<NumType>)
        ensures
            r == Self::spec_from_str(s@),
    {
        if str_eq(s, "decimal") {
            Some(NumType::Decimal)
        } else {
            None
        }
    }

    pub fn xml_name(self) -> (r: String)
        ensures
            r@ == "decimal"@,
    {
        String::from_str("decimal")
    }
}

/// Section break kind.
#[derive(Clone, Copy, Debug, PartialEq, Eq, Structural)]
pub enum PageType {
    NextPage,
}

impl PageType {
    pub open spec fn spec_from_str(s: Seq<char>) -> Option<PageType> {
        if s == "nextPage"@ {
            Some(PageType::NextPage)
        } else {
            None
        }
    }

    pub fn from_str(s: &str) -> (r: Option<PageType>)
        ensures
            r == Self::spec_from_str(s@),
    {
        if str_eq(s, "nextPage") {
            Some(PageType::NextPage)
        } else {
            None
        }
    }

    pub fn xml_name(self) -> (r: String)
        ensures
            r@ == "nextPage"@,
    {
        String::from_str("nextPage")
    }
}

/// Line spacing rule of a paragraph.
#[derive(Clone, Copy, Debug, PartialEq, Eq, Structural, Default)]
pub enum LineRule {
    #[default]
    Auto,
}

impl LineRule {
    pub open spec fn spec_from_str(s: Seq<char>) -> Option<LineRule> {
        if s == "auto"@ {
            Some(LineRule::Auto)
        } else {
            None
        }
    }

    pub fn from_str(s: &str) -> (r: Option<LineRule>)
        ensures
            r == Self::spec_from_str(s@),
    {
        if str_eq(s, "auto") {
            Some(LineRule::Auto)
        } else {
            None
        }
    }

    pub fn xml_name(self) -> (r: String)
        ensures
            r@ == "auto"@,
    {
        String::from_str("auto")
    }
}

/// Whether the section's forms are protected.
#[derive(Clone, Copy, Debug, PartialEq, Eq, Structural)]
pub struct FormProt {
    pub val: bool,
}

impl FormProt {
    pub open spec fn spec_from_str(s: Seq<char>) -> Option<FormProt> {
        if s == "false"@ {
            Some(FormProt { val: false })
        } else if s == "true"@ {
            Some(FormProt { val: true })
        } else {
            None
        }
    }

    pub fn from_str(s: &str) -> (r: Option<FormProt>)
        ensures
            r == Self::spec_from_str(s@),
    {
        if str_eq(s, "false") {
            Some(FormProt { val: false })
        } else if str_eq(s, "true") {
            Some(FormProt { val: true })
        } else {
            None
        }
    }

    pub fn xml_name(self) -> (r: String)
        ensures
            self.val ==> r@ == "true"@,
            !self.val ==> r@ == "false"@,
    {
        if self.val {
            String::from_str("true")
        } else {
            String::from_str("false")
        }
    }
}

/// Character layout grid of a section.
#[derive(Clone, Copy, Debug, PartialEq, Eq, Structural)]
pub struct DocumentGrid {
    pub char_space: u64,
    pub line_pitch: u64,
    pub grid_type: GridType,
}

/// Page extent of a section, in layout units.
#[derive(Clone, Copy, Debug, PartialEq, Eq, Structural)]
pub struct PageSize {
    pub width: i64,
    pub height: i64,
}

/// Page margins of a section, in layout units.
#[derive(Clone, Copy, Debug, PartialEq, Eq, Structural)]
pub struct PageMargin {
    pub footer: i64,
    pub gutter: i64,
    pub header: i64,
    pub bottom: i64,
    pub left: i64,
    pub right: i64,
    pub top: i64,
}

impl PageMargin {
    pub open spec fn wf(self) -> bool {
        &&& 0 <= self.footer as int <= crate::num::MAX_COORD as int
        &&& 0 <= self.gutter as int <= crate::num::MAX_COORD as int
        &&& 0 <= self.header as int <= crate::num::MAX_COORD as int
        &&& 0 <= self.bottom as int <= crate::num::MAX_COORD as int
        &&& 0 <= self.left as int <= crate::num::MAX_COORD as int
        &&& 0 <= self.right as int <= crate::num::MAX_COORD as int
        &&& 0 <= self.top as int <= crate::num::MAX_COORD as int
    }
}

impl PageSize {
    pub open spec fn wf(self) -> bool {
        &&& 0 <= self.width as int <= crate::num::MAX_COORD as int
        &&& 0 <= self.height as int <= crate::num::MAX_COORD as int
    }
}

/// Identifies a font by family name and style mode
/// (`Regular`, `Bold`, `Italic` or `BoldItalic`).
#[derive(Clone, Debug)]
pub struct FontIdx {
    pub name: String,
    pub mode: String,
}

impl FontIdx {
    pub fn new(name: String, mode: String) -> (r: FontIdx)
        ensures
            r.name@ == name@,
            r.mode@ == mode@,
    {
        FontIdx { name, mode }
    }
}

/// The style mode name derived from weight and italic flags.
pub open spec fn spec_font_mode(weight: TextWeight, italic: bool) -> Seq<char> {
    match (weight, italic) {
        (TextWeight::Bold, false) => "Bold"@,
        (TextWeight::Regular, false) => "Regular"@,
        (TextWeight::Regular, true) => "Italic"@,
        (TextWeight::Bold, true) => "BoldItalic"@,
    }
}

/// Visual properties of a run of text.
#[derive(Debug)]
pub struct TextProperties {
    pub font_handle: usize,
    pub font_name: Option<String>,
    pub size: Option<TextSize>,
    pub size_cs: Option<TextSize>,
    pub weight: TextWeight,
    pub color: Option<Color>,
    pub underline: bool,
    pub italic: bool,
}

/// View of an optional owned string.
pub open spec fn opt_str_view(o: Option<String>) -> Option<Seq<char>> {
    match o {
        Some(s) => Some(s@),
        None => None,
    }
}

/// Logical equality of two runs' properties: every field agrees
/// (string fields by contents).
pub closed spec fn props_eq_spec(a: TextProperties, b: TextProperties) -> bool {
    &&& a.font_handle == b.font_handle
    &&& opt_str_view(a.font_name) == opt_str_view(b.font_name)
    &&& a.size == b.size
    &&& a.size_cs == b.size_cs
    &&& a.weight == b.weight
    &&& a.color == b.color
    &&& a.underline == b.underline
    &&& a.italic == b.italic
}

impl TextProperties {
    /// Decide logical equality of two runs' properties.
    pub fn props_eq(&self, other: &TextProperties) -> (r: bool)
        ensures
            r == props_eq_spec(*self, *other),
    {
        let names_eq = match (&self.font_name, &other.font_name) {
            (Option::None, Option::None) => true,
            (Option::Some(a), Option::Some(b)) => str_eq(a.as_str(), b.as_str()),
            _ => false,
        };
        let size_eq = match (&self.size, &other.size) {
            (Option::None, Option::None) => true,
            (Option::Some(a), Option::Some(b)) => a.0 == b.0,
            _ => false,
        };
        let size_cs_eq = match (&self.size_cs, &other.size_cs) {
            (Option::None, Option::None) => true,
            (Option::Some(a), Option::Some(b)) => a.0 == b.0,
            _ => false,
        };
        let weight_eq = match (self.weight, other.weight) {
            (TextWeight::Regular, TextWeight::Regular) => true,
            (TextWeight::Bold, TextWeight::Bold) => true,
            _ => false,
        };
        let color_eq = match (&self.color, &other.color) {
            (Option::None, Option::None) => true,
            (Option::Some(a), Option::Some(b)) => a.r == b.r && a.g == b.g && a.b == b.b && a.a
                == b.a,
            _ => false,
        };
        names_eq && size_eq && size_cs_eq && weight_eq && color_eq && self.font_handle
            == other.font_handle && self.underline == other.underline && self.italic == other.italic
    }

    /// The font lookup key of these properties: family name (or the default
    /// family) and style mode derived from weight and italic.
    pub fn get_font_idx(&self) -> (r: FontIdx)
        ensures
            r.mode@ == spec_font_mode(self.weight, self.italic),
            r.name@ == match opt_str_view(self.font_name) {
                Some(n) => n,
                None => "Default Font"@,
            },
    {
        let mode = match (self.weight, self.italic) {
            (TextWeight::Bold, false) => String::from_str("Bold"),
            (TextWeight::Regular, false) => String::from_str("Regular"),
            (TextWeight::Regular, true) => String::from_str("Italic"),
            (TextWeight::Bold, true) => String::from_str("BoldItalic"),
        };
        let name = match &self.font_name {
            Option::Some(n) => n.clone(),
            Option::None => String::from_str("Default Font"),
        };
        FontIdx { name, mode }
    }
}

impl Clone for TextProperties {
    fn clone(&self) -> (r: Self)
        ensures
            r == *self,
    {
        TextProperties {
            font_handle: self.font_handle,
            font_name: match &self.font_name {
                Option::Some(s) => Some(s.clone()),
                Option::None => None,
            },
            size: self.size,
            size_cs: self.size_cs,
            weight: self.weight,
            color: self.color,
            underline: self.underline,
            italic: self.italic,
        }
    }
}

impl Default for TextProperties {
    fn default() -> (r: TextProperties)
        ensures
            r.font_handle == 0,
            r.font_name is None,
            r.size is None,
            r.size_cs is None,
            r.weight == TextWeight::Regular,
            r.color is None,
            !r.underline,
            !r.italic,
    {
        TextProperties {
            font_handle: 0,
            font_name: None,
            size: None,
            size_cs: None,
            weight: TextWeight::Regular,
            color: None,
            underline: false,
            italic: false,
        }
    }
}

/// Vertical spacing of a paragraph, in layout units.
#[derive(Clone, Copy, Debug, PartialEq, Eq, Structural)]
pub struct SpacingProperties {
    pub line: Option<i64>,
    pub line_rule: Option<LineRule>,
    pub after: Option<i64>,
    pub before: Option<i64>,
}

impl SpacingProperties {
    pub open spec fn wf(self) -> bool {
        &&& match self.line {
            Some(v) => 0 <= v as int <= crate::num::MAX_COORD as int,
            None => true,
        }
        &&& match self.after {
            Some(v) => 0 <= v as int <= crate::num::MAX_COORD as int,
            None => true,
        }
        &&& match self.before {
            Some(v) => 0 <= v as int <= crate::num::MAX_COORD as int,
            None => true,
        }
    }
}

impl Default for SpacingProperties {
    fn default() -> (r: SpacingProperties)
        ensures
            r == (SpacingProperties { line: None, line_rule: None, after: None, before: None }),
    {
        SpacingProperties { line: None, line_rule: None, after: None, before: None }
    }
}

/// Paragraph-level properties: justification, default run properties
/// and vertical spacing.
#[derive(Debug)]
pub struct ParagraphProperties {
    pub justify: Option<Justification>,
    pub text_properties: Option<TextProperties>,
    pub spacing: SpacingProperties,
}

impl Clone for ParagraphProperties {
    fn clone(&self) -> (r: Self)
        ensures
            r == *self,
    {
        ParagraphProperties {
            justify: self.justify,
            text_properties: match &self.text_properties {
                Option::Some(tp) => Option::Some(tp.clone()),
                Option::None => Option::None,
            },
            spacing: self.spacing,
        }
    }
}

impl ParagraphProperties {
    pub open spec fn wf(self) -> bool {
        self.spacing.wf()
    }
}

impl Default for ParagraphProperties {
    fn default() -> (r: ParagraphProperties)
        ensures
            r.justify is None,
            r.text_properties is None,
            r.spacing == (SpacingProperties {
                line: None,
                line_rule: None,
                after: None,
                before: None,
            }),
    {
        ParagraphProperties {
            justify: None,
            text_properties: None,
            spacing: SpacingProperties { line: None, line_rule: None, after: None, before: None },
        }
    }
}

/// One styled run of document text.
#[derive(Clone, Debug)]
pub struct TextNode {
    pub properties: TextProperties,
    pub content: String,
}

/// Section properties: page geometry and page-level flags.
#[derive(Clone, Debug)]
pub struct SectrOfProperties {
    pub page_type: Option<PageType>,
    pub page_size: PageSize,
    pub page_margin: PageMargin,
    pub page_num_type: Option<NumType>,
    pub form_prot: Option<FormProt>,
    pub text_direction: TextDirection,
    pub document_grid: Option<DocumentGrid>,
}

impl SectrOfProperties {
    pub open spec fn wf(self) -> bool {
        self.page_size.wf() && self.page_margin.wf()
    }

    pub fn get_size(&self) -> (r: (i64, i64))
        ensures
            r.0 == self.page_size.width,
            r.1 == self.page_size.height,
    {
        (self.page_size.width, self.page_size.height)
    }

    /// The page paddings induced by the margins: header and footer extend
    /// the top and bottom margins.
    pub fn get_margins(&self) -> (r: (i64, i64, i64, i64))
        requires
            self.wf(),
        ensures
            r.0 as int == crate::num::clip(self.page_margin.header + self.page_margin.top),
            r.1 == self.page_margin.right,
            r.2 as int == crate::num::clip(self.page_margin.bottom + self.page_margin.footer),
            r.3 == self.page_margin.left,
    {
        (
            crate::num::cadd(self.page_margin.header, self.page_margin.top),
            self.page_margin.right,
            crate::num::cadd(self.page_margin.bottom, self.page_margin.footer),
            self.page_margin.left,
        )
    }
}

impl Default for SectrOfProperties {
    fn default() -> (r: SectrOfProperties)
        ensures
            r.page_type == Some(PageType::NextPage),
            r.page_size == (PageSize { width: 1000, height: 1000 }),
            r.page_margin == (PageMargin {
                footer: 100,
                gutter: 100,
                header: 100,
                bottom: 100,
                left: 100,
                right: 100,
                top: 100,
            }),
            r.page_num_type == Some(NumType::Decimal),
            r.form_prot == Some(FormProt { val: true }),
            r.text_direction == TextDirection::LeftToRightTopToBottom,
            r.document_grid == Some(
                DocumentGrid { char_space: 10, line_pitch: 20, grid_type: GridType::Default },
            ),
            r.wf(),
    {
        SectrOfProperties {
            page_type: Some(PageType::NextPage),
            page_size: PageSize { width: 1000, height: 1000 },
            page_margin: PageMargin {
                footer: 100,
                gutter: 100,
                header: 100,
                bottom: 100,
                left: 100,
                right: 100,
                top: 100,
            },
            page_num_type: Some(NumType::Decimal),
            form_prot: Some(FormProt { val: true }),
            text_direction: TextDirection::LeftToRightTopToBottom,
            document_grid: Some(
                DocumentGrid { char_space: 10, line_pitch: 20, grid_type: GridType::Default },
            ),
        }
    }
}

} // verus!
