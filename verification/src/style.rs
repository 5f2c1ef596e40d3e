use vstd::prelude::*;

use crate::error::Errors;

verus! {

/// An RGB color, held as plain channel values.
#[derive(Clone, Copy, PartialEq, Eq, Structural, Debug)]
pub struct Color {
    pub r: u8,
    pub g: u8,
    pub b: u8,
}

/// How one span of text is painted.
#[derive(Clone, Copy, PartialEq, Eq, Structural, Debug)]
pub struct Style {
    pub fg: Color,
    pub bg: Color,
    pub bold: bool,
    pub underlined: bool,
}

/// One styled run of text within a display line.
pub struct Span {
    pub content: String,
    pub style: Style,
}

/// The mathematical image of a [`Span`].
pub struct SpanView {
    pub content: Seq<char>,
    pub style: Style,
}

impl View for Span {
    type V = SpanView;

    open spec fn view(&self) -> SpanView {
        SpanView { content: self.content@, style: self.style }
    }
}

/// The images of a sequence of spans, in order.
pub open spec fn spans_view(s: Seq<Span>) -> Seq<SpanView> {
    s.map_values(|x: Span| x@)
}

/// One display line: an ordered run of styled spans.
pub struct Line {
    pub spans: Vec<Span>,
}

impl View for Line {
    type V = Seq<SpanView>;

    open spec fn view(&self) -> Seq<SpanView> {
        spans_view(self.spans@)
    }
}

/// The images of a sequence of lines, in order.
pub open spec fn lines_view(s: Seq<Line>) -> Seq<Seq<SpanView>> {
    s.map_values(|l: Line| l@)
}

/// The three hex color strings a host hands the renderer.
pub struct ColorPalette {
    pub primary_hex: String,
    pub secondary_hex: String,
    pub background_hex: String,
}

/// Whether `c` is an ASCII hexadecimal digit.
pub open spec fn is_hex_digit(c: char) -> bool {
    (48 <= c as u32 && c as u32 <= 57) || (97 <= c as u32 && c as u32 <= 102) || (65 <= c as u32
        && c as u32 <= 70)
}

/// The numeric value of one hex digit.
pub open spec fn hex_digit_value(c: char) -> nat {
    if 48 <= c as u32 && c as u32 <= 57 {
        (c as u32 - 48) as nat
    } else if 97 <= c as u32 && c as u32 <= 102 {
        (c as u32 - 97 + 10) as nat
    } else {
        (c as u32 - 65 + 10) as nat
    }
}

/// A non-empty string of hex digits.
pub open spec fn valid_hex(s: Seq<char>) -> bool {
    s.len() > 0 && forall|i: int| 0 <= i < s.len() ==> is_hex_digit(#[trigger] s[i])
}

/// The number a hex digit string denotes, most significant digit first.
pub open spec fn hex_value(s: Seq<char>) -> nat
    decreases s,
{
    if s.len() == 0 {
        0
    } else {
        hex_value(s.drop_last()) * 16 + hex_digit_value(s.last())
    }
}

/// The color encoded in the low 24 bits of `v`.
pub open spec fn color_of_u32(v: u32) -> Color {
    Color { r: ((v >> 16) & 0xFF) as u8, g: ((v >> 8) & 0xFF) as u8, b: (v & 0xFF) as u8 }
}

/// The digits of `hex`, with one optional leading `#` stripped.
pub open spec fn hex_body(s: Seq<char>) -> Seq<char> {
    if s.len() > 0 && s[0] == '#' {
        s.subrange(1, s.len() as int)
    } else {
        s
    }
}

/// Growing a digit string never shrinks its value.
proof fn lemma_hex_value_prefix_le(s: Seq<char>, j: int)
    requires
        0 <= j <= s.len(),
    ensures
        hex_value(s.subrange(0, j)) <= hex_value(s),
    decreases s,
{
    if s.len() > 0 {
        if j == s.len() {
            assert(s.subrange(0, j) =~= s);
        } else {
            assert(s.subrange(0, j) =~= s.drop_last().subrange(0, j));
            lemma_hex_value_prefix_le(s.drop_last(), j);
        }
    } else {
        assert(s.subrange(0, j) =~= s);
    }
}

/// Parse a `#RRGGBB`-style hex color string (the `#` is optional) into its
/// channels. Fails on an empty digit string, a non-hex character, or a
/// value over 32 bits.
#[verifier::loop_isolation(false)]
pub fn parse_hex_color(hex: &str) -> (r: Result<Color, Errors>)
    ensures
        match r {
            Ok(c) => {
                &&& valid_hex(hex_body(hex@))
                &&& hex_value(hex_body(hex@)) <= u32::MAX
                &&& c == color_of_u32(hex_value(hex_body(hex@)) as u32)
            },
            Err(e) => {
                &&& !(valid_hex(hex_body(hex@)) && hex_value(hex_body(hex@)) <= u32::MAX)
                &&& e == Errors::UnexpectedError
            },
        },
{
    let n = hex.unicode_len();
    let start: usize = if n > 0 && hex.get_char(0) == '#' {
        1
    } else {
        0
    };
    let ghost body = hex_body(hex@);
    assert(body =~= hex@.subrange(start as int, n as int));
    if n == start {
        return Err(Errors::UnexpectedError);
    }
    let mut acc: u64 = 0;
    let mut i: usize = start;
    while i < n
        invariant
            start <= i <= n,
            acc as nat == hex_value(body.subrange(0, i - start)),
            acc <= u32::MAX,
            forall|j: int| 0 <= j < i - start ==> is_hex_digit(#[trigger] body[j]),
        decreases n - i,
    {
        let c = hex.get_char(i);
        let u = c as u32;
        let dv: u32 = if u >= 48 && u <= 57 {
            u - 48
        } else if u >= 97 && u <= 102 {
            u - 97 + 10
        } else if u >= 65 && u <= 70 {
            u - 65 + 10
        } else {
            return Err(Errors::UnexpectedError);
        };
        proof {
            assert(is_hex_digit(body[i - start]));
            assert(dv as nat == hex_digit_value(body[i - start]));
            assert(body.subrange(0, i + 1 - start).drop_last() =~= body.subrange(0, i - start));
            assert(body.subrange(0, i + 1 - start).last() == body[i - start]);
        }
        acc = acc * 16 + dv as u64;
        if acc > u32::MAX as u64 {
            proof {
                lemma_hex_value_prefix_le(body, i + 1 - start);
            }
            return Err(Errors::UnexpectedError);
        }
        i += 1;
    }
    proof {
        assert(body.subrange(0, n - start) =~= body);
    }
    let v = acc as u32;
    Ok(Color { r: ((v >> 16u32) & 0xFFu32) as u8, g: ((v >> 8u32) & 0xFFu32) as u8, b: (
    v & 0xFFu32) as u8 })
}

} // verus!
