//! Stroke font for silkscreen text.
//!
//! Every glyph is a list of polylines on a design grid whose cap height is
//! 32 units, and every glyph advances by 24 units.

use vstd::prelude::*;
use vstd::string::StrSliceExecFns;

use crate::board::SilkAnchor;
use crate::geometry::Point;
use crate::rotation;
use crate::rotation::{COORD_MAX, Rotation, UNIT, round_div};
use crate::text::to_chars;
use crate::units::Length;

verus! {

/// Cap height of every glyph in design units.
pub const CAP_HEIGHT_UNITS: i64 = 32;

/// Horizontal advance of every glyph in design units.
pub const ADVANCE_UNITS: i32 = 24;

/// The longest text that is laid out, in characters.
pub const TEXT_MAX: usize = 0x40_0000;

/// One glyph: polylines of (x, y) pairs, with y pointing up.
pub struct Glyph {
    pub strokes: Vec<Vec<(i8, i8)>>,
}

/// The coded strokes of a character: two characters per point, each the
/// coordinate plus 48, and two spaces behind every stroke. Characters
/// outside the printable ASCII range have the strokes of a rectangle of 12
/// by 24 units.
#[verifier::opaque]
pub open spec fn code_of(c: char) -> Seq<char> {
    if c == ' ' {
        ""@
    } else if c == '!' {
        "<L<8  <4<0  "@
    } else if c == '"' {
        "8L8F  @L@F  "@
    } else if c == '#' {
        "8L80  @L@0  4DDD  48D8  "@
    } else if c == '$' {
        "DH4H4@D<D444  <N<.  "@
    } else if c == '%' {
        "40DL  6L:L:H6H6L  >4B4B0>0>4  "@
    } else if c == '&' {
        "D04@4H<L@H@B484480@0D4  "@
    } else if c == '\'' {
        "<L<F  "@
    } else if c == '(' {
        "@P8H84@,  "@
    } else if c == ')' {
        "8P@H@48,  "@
    } else if c == '*' {
        "<H<8  4DD<  DD4<  "@
    } else if c == '+' {
        "<F<6  4>D>  "@
    } else if c == ',' {
        "<4<08,  "@
    } else if c == '-' {
        "4>D>  "@
    } else if c == '.' {
        "<4<0  "@
    } else if c == '/' {
        "40DL  "@
    } else if c == '0' {
        "80444H8L@LDHD4@080  44DH  "@
    } else if c == '1' {
        "8F<L<0  60B0  "@
    } else if c == '2' {
        "4H8L@LDHDB40D0  "@
    } else if c == '3' {
        "4H8L@LDHDB@>8>  @>D:D4@08044  "@
    } else if c == '4' {
        "@0@L4:D:  "@
    } else if c == '5' {
        "DL4L4@@@D<D4@08044  "@
    } else if c == '6' {
        "DH@L8L4H4480@0D4D<@@4@  "@
    } else if c == '7' {
        "4LDL80  "@
    } else if c == '8' {
        "8L4H4B8>@>DBDH@L8L  8>4:4480@0D4D:@>  "@
    } else if c == '9' {
        "4480@0D4DH@L8L4H4@8<D<  "@
    } else if c == ':' {
        "<B<>  <4<0  "@
    } else if c == ';' {
        "<B<>  <4<08,  "@
    } else if c == '<' {
        "DF4>D6  "@
    } else if c == '=' {
        "4BDB  4:D:  "@
    } else if c == '>' {
        "4FD>46  "@
    } else if c == '?' {
        "4H8L@LDHDB<<<8  <4<0  "@
    } else if c == '@' {
        "D8@484484D8H@HDDD8@8><>B<D:B:<<:@:  "@
    } else if c == 'A' {
        "404F<LDFD0  4<D<  "@
    } else if c == 'B' {
        "404L@LDHDB@>4>  @>D:D4@040  "@
    } else if c == 'C' {
        "DH@L8L4H4480@0D4  "@
    } else if c == 'D' {
        "404L>LDFD6>040  "@
    } else if c == 'E' {
        "DL4L40D0  4>@>  "@
    } else if c == 'F' {
        "DL4L40  4>@>  "@
    } else if c == 'G' {
        "DH@L8L4H4480@0D4D<<<  "@
    } else if c == 'H' {
        "404L  D0DL  4>D>  "@
    } else if c == 'I' {
        "80@0  <0<L  8L@L  "@
    } else if c == 'J' {
        "DLD4@08044  "@
    } else if c == 'K' {
        "404L  DL4>D0  "@
    } else if c == 'L' {
        "4L40D0  "@
    } else if c == 'M' {
        "404L<>DLD0  "@
    } else if c == 'N' {
        "404LD0DL  "@
    } else if c == 'O' {
        "80444H8L@LDHD4@080  "@
    } else if c == 'P' {
        "404L@LDHDB@>4>  "@
    } else if c == 'Q' {
        "80444H8L@LDHD4@080  >6F.  "@
    } else if c == 'R' {
        "404L@LDHDB@>4>  <>D0  "@
    } else if c == 'S' {
        "DH@L8L4H4B8>@>D:D4@08044  "@
    } else if c == 'T' {
        "4LDL  <L<0  "@
    } else if c == 'U' {
        "4L4480@0D4DL  "@
    } else if c == 'V' {
        "4L<0DL  "@
    } else if c == 'W' {
        "4L80<>@0DL  "@
    } else if c == 'X' {
        "4LD0  40DL  "@
    } else if c == 'Y' {
        "4L<>DL  <><0  "@
    } else if c == 'Z' {
        "4LDL40D0  "@
    } else if c == '[' {
        "@P8P8,@,  "@
    } else if c == '\\' {
        "4LD0  "@
    } else if c == ']' {
        "8P@P@,8,  "@
    } else if c == '^' {
        "4F<NDF  "@
    } else if c == '_' {
        "0.H.  "@
    } else if c == '`' {
        "8N>H  "@
    } else if c == 'a' {
        "444>8B@BD>D0  D848  "@
    } else if c == 'b' {
        "4L40@0D4D>@B8B4>  "@
    } else if c == 'c' {
        "D>@B8B4>4480@0D4  "@
    } else if c == 'd' {
        "DLD080444>8B@BD>  "@
    } else if c == 'e' {
        "48D8D>@B8B4>4480@0D4  "@
    } else if c == 'f' {
        "DL<L8H80  4>@>  "@
    } else if c == 'g' {
        "DB4B48D8  DBD,@(8(4,  "@
    } else if c == 'h' {
        "4L40  4>8B@BD>D0  "@
    } else if c == 'i' {
        "<H<F  <B<0  "@
    } else if c == 'j' {
        "@H@F  @B@,<(4(  "@
    } else if c == 'k' {
        "4L40  DB48D0  "@
    } else if c == 'l' {
        "8L<L<0@0  "@
    } else if c == 'm' {
        "404B:B<><0  <>>BDBD0  "@
    } else if c == 'n' {
        "404B8BD4D0  "@
    } else if c == 'o' {
        "80444>8B@BD>D4@080  "@
    } else if c == 'p' {
        "4(4B@BD>D4@08044  "@
    } else if c == 'q' {
        "D(DB8B4>4480@0D4  "@
    } else if c == 'r' {
        "404B  4>8BDB  "@
    } else if c == 's' {
        "D>@B8B4>88@8D4@08044  "@
    } else if c == 't' {
        "8L84<0D0  4B@B  "@
    } else if c == 'u' {
        "4B4480@0D4DB  D4D0  "@
    } else if c == 'v' {
        "4B<0DB  "@
    } else if c == 'w' {
        "4B80<:@0DB  "@
    } else if c == 'x' {
        "4BD0  40DB  "@
    } else if c == 'y' {
        "4B<4  DB8(4(  "@
    } else if c == 'z' {
        "4BDB40D0  "@
    } else if c == '{' {
        "DP@L@B<>@:@0D,  "@
    } else if c == '|' {
        "<P<,  "@
    } else if c == '}' {
        "4P8L8B<>8:804,  "@
    } else if c == '~' {
        "4>8B@:D>  "@
    } else {
        "60B0BH6H60  "@
    }
}

fn code_for(c: char) -> (r: &'static str)
    ensures
        r@ == code_of(c),
{
    reveal(code_of);
    if c == ' ' {
        ""
    } else if c == '!' {
        "<L<8  <4<0  "
    } else if c == '"' {
        "8L8F  @L@F  "
    } else if c == '#' {
        "8L80  @L@0  4DDD  48D8  "
    } else if c == '$' {
        "DH4H4@D<D444  <N<.  "
    } else if c == '%' {
        "40DL  6L:L:H6H6L  >4B4B0>0>4  "
    } else if c == '&' {
        "D04@4H<L@H@B484480@0D4  "
    } else if c == '\'' {
        "<L<F  "
    } else if c == '(' {
        "@P8H84@,  "
    } else if c == ')' {
        "8P@H@48,  "
    } else if c == '*' {
        "<H<8  4DD<  DD4<  "
    } else if c == '+' {
        "<F<6  4>D>  "
    } else if c == ',' {
        "<4<08,  "
    } else if c == '-' {
        "4>D>  "
    } else if c == '.' {
        "<4<0  "
    } else if c == '/' {
        "40DL  "
    } else if c == '0' {
        "80444H8L@LDHD4@080  44DH  "
    } else if c == '1' {
        "8F<L<0  60B0  "
    } else if c == '2' {
        "4H8L@LDHDB40D0  "
    } else if c == '3' {
        "4H8L@LDHDB@>8>  @>D:D4@08044  "
    } else if c == '4' {
        "@0@L4:D:  "
    } else if c == '5' {
        "DL4L4@@@D<D4@08044  "
    } else if c == '6' {
        "DH@L8L4H4480@0D4D<@@4@  "
    } else if c == '7' {
        "4LDL80  "
    } else if c == '8' {
        "8L4H4B8>@>DBDH@L8L  8>4:4480@0D4D:@>  "
    } else if c == '9' {
        "4480@0D4DH@L8L4H4@8<D<  "
    } else if c == ':' {
        "<B<>  <4<0  "
    } else if c == ';' {
        "<B<>  <4<08,  "
    } else if c == '<' {
        "DF4>D6  "
    } else if c == '=' {
        "4BDB  4:D:  "
    } else if c == '>' {
        "4FD>46  "
    } else if c == '?' {
        "4H8L@LDHDB<<<8  <4<0  "
    } else if c == '@' {
        "D8@484484D8H@HDDD8@8><>B<D:B:<<:@:  "
    } else if c == 'A' {
        "404F<LDFD0  4<D<  "
    } else if c == 'B' {
        "404L@LDHDB@>4>  @>D:D4@040  "
    } else if c == 'C' {
        "DH@L8L4H4480@0D4  "
    } else if c == 'D' {
        "404L>LDFD6>040  "
    } else if c == 'E' {
        "DL4L40D0  4>@>  "
    } else if c == 'F' {
        "DL4L40  4>@>  "
    } else if c == 'G' {
        "DH@L8L4H4480@0D4D<<<  "
    } else if c == 'H' {
        "404L  D0DL  4>D>  "
    } else if c == 'I' {
        "80@0  <0<L  8L@L  "
    } else if c == 'J' {
        "DLD4@08044  "
    } else if c == 'K' {
        "404L  DL4>D0  "
    } else if c == 'L' {
        "4L40D0  "
    } else if c == 'M' {
        "404L<>DLD0  "
    } else if c == 'N' {
        "404LD0DL  "
    } else if c == 'O' {
        "80444H8L@LDHD4@080  "
    } else if c == 'P' {
        "404L@LDHDB@>4>  "
    } else if c == 'Q' {
        "80444H8L@LDHD4@080  >6F.  "
    } else if c == 'R' {
        "404L@LDHDB@>4>  <>D0  "
    } else if c == 'S' {
        "DH@L8L4H4B8>@>D:D4@08044  "
    } else if c == 'T' {
        "4LDL  <L<0  "
    } else if c == 'U' {
        "4L4480@0D4DL  "
    } else if c == 'V' {
        "4L<0DL  "
    } else if c == 'W' {
        "4L80<>@0DL  "
    } else if c == 'X' {
        "4LD0  40DL  "
    } else if c == 'Y' {
        "4L<>DL  <><0  "
    } else if c == 'Z' {
        "4LDL40D0  "
    } else if c == '[' {
        "@P8P8,@,  "
    } else if c == '\\' {
        "4LD0  "
    } else if c == ']' {
        "8P@P@,8,  "
    } else if c == '^' {
        "4F<NDF  "
    } else if c == '_' {
        "0.H.  "
    } else if c == '`' {
        "8N>H  "
    } else if c == 'a' {
        "444>8B@BD>D0  D848  "
    } else if c == 'b' {
        "4L40@0D4D>@B8B4>  "
    } else if c == 'c' {
        "D>@B8B4>4480@0D4  "
    } else if c == 'd' {
        "DLD080444>8B@BD>  "
    } else if c == 'e' {
        "48D8D>@B8B4>4480@0D4  "
    } else if c == 'f' {
        "DL<L8H80  4>@>  "
    } else if c == 'g' {
        "DB4B48D8  DBD,@(8(4,  "
    } else if c == 'h' {
        "4L40  4>8B@BD>D0  "
    } else if c == 'i' {
        "<H<F  <B<0  "
    } else if c == 'j' {
        "@H@F  @B@,<(4(  "
    } else if c == 'k' {
        "4L40  DB48D0  "
    } else if c == 'l' {
        "8L<L<0@0  "
    } else if c == 'm' {
        "404B:B<><0  <>>BDBD0  "
    } else if c == 'n' {
        "404B8BD4D0  "
    } else if c == 'o' {
        "80444>8B@BD>D4@080  "
    } else if c == 'p' {
        "4(4B@BD>D4@08044  "
    } else if c == 'q' {
        "D(DB8B4>4480@0D4  "
    } else if c == 'r' {
        "404B  4>8BDB  "
    } else if c == 's' {
        "D>@B8B4>88@8D4@08044  "
    } else if c == 't' {
        "8L84<0D0  4B@B  "
    } else if c == 'u' {
        "4B4480@0D4DB  D4D0  "
    } else if c == 'v' {
        "4B<0DB  "
    } else if c == 'w' {
        "4B80<:@0DB  "
    } else if c == 'x' {
        "4BD0  40DB  "
    } else if c == 'y' {
        "4B<4  DB8(4(  "
    } else if c == 'z' {
        "4BDB40D0  "
    } else if c == '{' {
        "DP@L@B<>@:@0D,  "
    } else if c == '|' {
        "<P<,  "
    } else if c == '}' {
        "4P8L8B<>8:804,  "
    } else if c == '~' {
        "4>8B@:D>  "
    } else {
        "60B0BH6H60  "
    }
}

/// The coordinate that a character stands for.
pub open spec fn unit_of(c: char) -> i8 {
    (c as int - 48) as i8
}

fn unit_for(c: char) -> (r: i8)
    ensures
        r == unit_of(c),
{
    (c as u32 as i64 - 48) as i8
}

/// The finished strokes, and the points of the open one, after `k` pairs
/// of characters.
pub open spec fn decoded(code: Seq<char>, k: int) -> (Seq<Seq<(i8, i8)>>, Seq<(i8, i8)>)
    decreases k,
{
    if k <= 0 {
        (Seq::empty(), Seq::empty())
    } else {
        let (done, open) = decoded(code, k - 1);
        if code[2 * k - 2] == ' ' {
            (done.push(open), Seq::empty())
        } else {
            (done, open.push((unit_of(code[2 * k - 2]), unit_of(code[2 * k - 1]))))
        }
    }
}

/// The strokes of a character.
pub open spec fn strokes_of(c: char) -> Seq<Seq<(i8, i8)>> {
    decoded(code_of(c), code_of(c).len() as int / 2).0
}

/// The strokes as sequences.
pub open spec fn stroke_views(v: Seq<Vec<(i8, i8)>>) -> Seq<Seq<(i8, i8)>> {
    Seq::new(v.len(), |i: int| v[i]@)
}

/// The strokes of a character.
pub fn glyph(c: char) -> (r: Glyph)
    ensures
        stroke_views(r.strokes@) == strokes_of(c),
{
    let code = to_chars(code_for(c));
    let pairs: usize = code.len() / 2;
    let mut strokes: Vec<Vec<(i8, i8)>> = Vec::new();
    let mut open: Vec<(i8, i8)> = Vec::new();
    let mut k: usize = 0;
    assert(stroke_views(strokes@) =~= Seq::empty());
    while k < pairs
        invariant
            k <= pairs,
            2 * pairs <= code@.len(),
            2 * pairs <= usize::MAX,
            stroke_views(strokes@) == decoded(code@, k as int).0,
            open@ == decoded(code@, k as int).1,
        decreases pairs - k,
    {
        let x: char = code[2 * k];
        let y: char = code[2 * k + 1];
        if x == ' ' {
            let ghost before = strokes@;
            strokes.push(open);
            assert(stroke_views(strokes@) =~= stroke_views(before).push(
                decoded(code@, k as int).1,
            ));
            open = Vec::new();
        } else {
            open.push((unit_for(x), unit_for(y)));
        }
        k += 1;
    }
    Glyph { strokes }
}

/// Sum of the advances of the characters of `s`.
pub fn text_advance_units(s: &str) -> (r: i32)
    requires
        s@.len() * ADVANCE_UNITS <= i32::MAX || s@.len() > i32::MAX,
    ensures
        r == if s@.len() > i32::MAX { 0 } else { s@.len() * ADVANCE_UNITS },
{
    let n: usize = s.unicode_len();
    if n > i32::MAX as usize {
        0
    } else {
        n as i32 * ADVANCE_UNITS
    }
}

/// Width of a text in design units.
pub fn text_width_units(s: &str) -> (r: i32)
    requires
        s@.len() * ADVANCE_UNITS <= i32::MAX || s@.len() > i32::MAX,
    ensures
        r == if s@.len() > i32::MAX { 0 } else { s@.len() * ADVANCE_UNITS },
{
    text_advance_units(s)
}

/// A longer text is wider.
pub proof fn longer_text_is_wider(a: Seq<char>, b: Seq<char>)
    requires
        a.len() < b.len(),
    ensures
        a.len() * ADVANCE_UNITS < b.len() * ADVANCE_UNITS,
{
}

/// How a text is laid out.
pub struct Layout {
    /// Number of characters.
    pub len: int,
    pub origin: Point,
    /// Cap height.
    pub size: Length,
    pub rotation: Rotation,
    pub anchor: SilkAnchor,
}

impl Layout {
    /// How far the text starts left of the origin, in half units.
    pub open spec fn lead(self) -> int {
        match self.anchor {
            SilkAnchor::Start => 0,
            SilkAnchor::Middle => self.len * ADVANCE_UNITS,
            SilkAnchor::End => 2 * (self.len * ADVANCE_UNITS),
        }
    }

    /// The board position of the design-grid point (`x`, `y`), where one
    /// unit is a 32nd of the cap height.
    pub open spec fn place(self, x: int, y: int) -> Point {
        let lx = self.size.0 * (2 * x - self.lead());
        let ly = self.size.0 * (2 * y);
        Point {
            x: Length(
                rotation::rounded(
                    self.origin.x.0 * (64 * UNIT) + (lx * self.rotation.cos - ly
                        * self.rotation.sin),
                    64 * UNIT,
                ) as i64,
            ),
            y: Length(
                rotation::rounded(
                    self.origin.y.0 * (64 * UNIT) + (lx * self.rotation.sin + ly
                        * self.rotation.cos),
                    64 * UNIT,
                ) as i64,
            ),
        }
    }

    /// A stroke of the glyph whose pen position is `pen`, on the board.
    pub open spec fn polyline(self, stroke: Seq<(i8, i8)>, pen: int) -> Seq<Point> {
        Seq::new(stroke.len(), |k: int| self.place(pen + stroke[k].0, stroke[k].1 as int))
    }

    /// The first `n` strokes of a glyph, without those of a single point.
    pub open spec fn glyph_lines(self, strokes: Seq<Seq<(i8, i8)>>, pen: int, n: int) -> Seq<
        Seq<Point>,
    >
        decreases n,
    {
        if n <= 0 {
            Seq::empty()
        } else {
            let rest = self.glyph_lines(strokes, pen, n - 1);
            if strokes[n - 1].len() < 2 {
                rest
            } else {
                rest.push(self.polyline(strokes[n - 1], pen))
            }
        }
    }

    /// The polylines of the first `n` characters.
    pub open spec fn lines(self, text: Seq<char>, n: int) -> Seq<Seq<Point>>
        decreases n,
    {
        if n <= 0 {
            Seq::empty()
        } else {
            let strokes = strokes_of(text[n - 1]);
            self.lines(text, n - 1) + self.glyph_lines(
                strokes,
                (n - 1) * ADVANCE_UNITS,
                strokes.len() as int,
            )
        }
    }
}

/// The layout of a text.
pub open spec fn layout(
    text: Seq<char>,
    origin: Point,
    size: Length,
    rotation: Rotation,
    anchor: SilkAnchor,
) -> Layout {
    Layout { len: text.len() as int, origin, size, rotation, anchor }
}

/// The polylines of a whole text.
pub open spec fn lettering(
    text: Seq<char>,
    origin: Point,
    size: Length,
    rotation: Rotation,
    anchor: SilkAnchor,
) -> Seq<Seq<Point>> {
    layout(text, origin, size, rotation, anchor).lines(text, text.len() as int)
}

pub open spec fn poly_views(v: Seq<Vec<Point>>) -> Seq<Seq<Point>> {
    Seq::new(v.len(), |i: int| v[i]@)
}

/// The coordinates of lettering stay within this many nanometres.
pub const LETTER_MAX: i64 = 0x400_0000_0000_0000;

fn place_point(
    n: usize,
    origin: Point,
    size: Length,
    rotation: Rotation,
    anchor: SilkAnchor,
    x: i64,
    y: i8,
    Ghost(l): Ghost<Layout>,
) -> (r: Point)
    requires
        n <= TEXT_MAX,
        l == (Layout { len: n as int, origin, size, rotation, anchor }),
        origin.within(16 * COORD_MAX),
        -COORD_MAX <= size.0 <= COORD_MAX,
        rotation.trig_ok(),
        -128 <= x <= 24 * TEXT_MAX + 128,
    ensures
        r == l.place(x as int, y as int),
        r.within(LETTER_MAX as int),
{
    let lead: i128 = match anchor {
        SilkAnchor::Start => 0,
        SilkAnchor::Middle => n as i128 * 24,
        SilkAnchor::End => 2 * (n as i128 * 24),
    };
    let u: i128 = 2 * (x as i128) - lead;
    let v: i128 = 2 * (y as i128);
    let s: i128 = size.0 as i128;
    let c: i128 = rotation.cos as i128;
    let d: i128 = rotation.sin as i128;
    let k: i128 = 64 * (UNIT as i128);
    let ox: i128 = origin.x.0 as i128;
    let oy: i128 = origin.y.0 as i128;
    proof {
        let ku: int = 0x1000_0000;
        let kl: int = COORD_MAX * ku;
        rotation::product_bound(s as int, COORD_MAX as int, u as int, ku);
        rotation::product_bound(s as int, COORD_MAX as int, v as int, ku);
        rotation::product_bound(s * u, kl, c as int, UNIT as int);
        rotation::product_bound(s * v, kl, d as int, UNIT as int);
        rotation::product_bound(s * u, kl, d as int, UNIT as int);
        rotation::product_bound(s * v, kl, c as int, UNIT as int);
        assert(LETTER_MAX * (64 * UNIT) >= 2 * (kl * UNIT) + 16 * COORD_MAX * (64 * UNIT));
        rotation::rounded_bound(
            ox * k + ((s * u) * c - (s * v) * d),
            64 * UNIT,
            LETTER_MAX as int,
        );
        rotation::rounded_bound(
            oy * k + ((s * u) * d + (s * v) * c),
            64 * UNIT,
            LETTER_MAX as int,
        );
    }
    let lx: i128 = s * u;
    let ly: i128 = s * v;
    let wx: i128 = round_div(ox * k + (lx * c - ly * d), k);
    let wy: i128 = round_div(oy * k + (lx * d + ly * c), k);
    Point { x: Length(wx as i64), y: Length(wy as i64) }
}

/// Converts a text into polylines in board coordinates, one per stroke.
pub fn text_polylines(
    text: &str,
    origin: Point,
    size: Length,
    rotation: Rotation,
    anchor: SilkAnchor,
) -> (r: Vec<Vec<Point>>)
    requires
        text@.len() <= TEXT_MAX,
        origin.within(16 * COORD_MAX),
        -COORD_MAX <= size.0 <= COORD_MAX,
        rotation.trig_ok(),
    ensures
        poly_views(r@) == lettering(text@, origin, size, rotation, anchor),
        forall|i: int, k: int|
            0 <= i < r@.len() && 0 <= k < r@[i]@.len() ==> (#[trigger] r@[i]@[k]).within(
                LETTER_MAX as int,
            ),
{
    let chars = to_chars(text);
    let n: usize = chars.len();
    let ghost l = layout(text@, origin, size, rotation, anchor);
    let mut out: Vec<Vec<Point>> = Vec::new();
    assert(poly_views(out@) =~= Seq::empty());
    let mut i: usize = 0;
    while i < n
        invariant
            i <= n,
            n == chars@.len(),
            chars@ == text@,
            n <= TEXT_MAX,
            l == layout(text@, origin, size, rotation, anchor),
            origin.within(16 * COORD_MAX),
            -COORD_MAX <= size.0 <= COORD_MAX,
            rotation.trig_ok(),
            poly_views(out@) == l.lines(text@, i as int),
            forall|a: int, k: int|
                0 <= a < out@.len() && 0 <= k < out@[a]@.len() ==> (#[trigger] out@[a]@[k]).within(
                    LETTER_MAX as int,
                ),
        decreases n - i,
    {
        let g = glyph(chars[i]);
        let pen: i64 = i as i64 * 24;
        let ghost strokes = strokes_of(text@[i as int]);
        let mut j: usize = 0;
        assert(poly_views(out@) =~= l.lines(text@, i as int) + l.glyph_lines(
            strokes,
            pen as int,
            0,
        ));
        while j < g.strokes.len()
            invariant
                j <= g.strokes@.len(),
                i < n,
                n == text@.len(),
                n <= TEXT_MAX,
                pen == i * ADVANCE_UNITS,
                stroke_views(g.strokes@) == strokes,
                l == layout(text@, origin, size, rotation, anchor),
                origin.within(16 * COORD_MAX),
                -COORD_MAX <= size.0 <= COORD_MAX,
                rotation.trig_ok(),
                poly_views(out@) == l.lines(text@, i as int) + l.glyph_lines(
                    strokes,
                    pen as int,
                    j as int,
                ),
                forall|a: int, k: int|
                    0 <= a < out@.len() && 0 <= k < out@[a]@.len() ==> (
                    #[trigger] out@[a]@[k]).within(LETTER_MAX as int),
            decreases g.strokes@.len() - j,
        {
            let stroke = &g.strokes[j];
            assert(strokes[j as int] == stroke@);
            if stroke.len() >= 2 {
                let mut poly: Vec<Point> = Vec::new();
                let mut k: usize = 0;
                while k < stroke.len()
                    invariant
                        k <= stroke@.len(),
                        i < n,
                        n == text@.len(),
                        n <= TEXT_MAX,
                        pen == i * ADVANCE_UNITS,
                        l == layout(text@, origin, size, rotation, anchor),
                        origin.within(16 * COORD_MAX),
                        -COORD_MAX <= size.0 <= COORD_MAX,
                        rotation.trig_ok(),
                        poly@.len() == k,
                        forall|m: int|
                            0 <= m < k ==> #[trigger] poly@[m] == l.place(
                                pen + stroke@[m].0,
                                stroke@[m].1 as int,
                            ),
                        forall|m: int|
                            0 <= m < k ==> (#[trigger] poly@[m]).within(LETTER_MAX as int),
                    decreases stroke@.len() - k,
                {
                    let (x, y): (i8, i8) = stroke[k];
                    poly.push(
                        place_point(
                            n,
                            origin,
                            size,
                            rotation,
                            anchor,
                            pen + x as i64,
                            y,
                            Ghost(l),
                        ),
                    );
                    k += 1;
                }
                assert(poly@ =~= l.polyline(stroke@, pen as int));
                let ghost before = out@;
                out.push(poly);
                assert(poly_views(out@) =~= poly_views(before).push(
                    l.polyline(stroke@, pen as int),
                ));
            }
            assert(poly_views(out@) =~= l.lines(text@, i as int) + l.glyph_lines(
                strokes,
                pen as int,
                j + 1,
            ));
            j += 1;
        }
        i += 1;
    }
    out
}

/// The segments of a polyline up to its point `n`.
pub open spec fn pieces(poly: Seq<Point>, n: int) -> Seq<(Point, Point)>
    decreases n,
{
    if n <= 1 {
        Seq::empty()
    } else {
        pieces(poly, n - 1).push((poly[n - 2], poly[n - 1]))
    }
}

/// The segments of the first `n` polylines.
pub open spec fn all_pieces(polys: Seq<Seq<Point>>, n: int) -> Seq<(Point, Point)>
    decreases n,
{
    if n <= 0 {
        Seq::empty()
    } else {
        all_pieces(polys, n - 1) + pieces(polys[n - 1], polys[n - 1].len() as int)
    }
}

/// Converts a text into segments in board coordinates: those of its
/// polylines, in order.
pub fn text_segments(
    text: &str,
    origin: Point,
    size: Length,
    rotation: Rotation,
    anchor: SilkAnchor,
) -> (r: Vec<(Point, Point)>)
    requires
        text@.len() <= TEXT_MAX,
        origin.within(16 * COORD_MAX),
        -COORD_MAX <= size.0 <= COORD_MAX,
        rotation.trig_ok(),
    ensures
        r@ == all_pieces(
            lettering(text@, origin, size, rotation, anchor),
            lettering(text@, origin, size, rotation, anchor).len() as int,
        ),
{
    let polys = text_polylines(text, origin, size, rotation, anchor);
    let ghost views = poly_views(polys@);
    let mut out: Vec<(Point, Point)> = Vec::new();
    let mut i: usize = 0;
    while i < polys.len()
        invariant
            i <= polys@.len(),
            views == poly_views(polys@),
            out@ == all_pieces(views, i as int),
        decreases polys@.len() - i,
    {
        let poly = &polys[i];
        let mut k: usize = 1;
        assert(out@ =~= all_pieces(views, i as int) + pieces(poly@, 1));
        while k < poly.len()
            invariant
                1 <= k,
                poly@.len() >= 1 ==> k <= poly@.len(),
                poly@.len() == 0 ==> k == 1,
                out@ == all_pieces(views, i as int) + pieces(poly@, k as int),
            decreases poly@.len() - k,
        {
            out.push((poly[k - 1], poly[k]));
            k += 1;
            assert(out@ =~= all_pieces(views, i as int) + pieces(poly@, k as int));
        }
        assert(pieces(poly@, poly@.len() as int) =~= pieces(poly@, k as int));
        i += 1;
    }
    out
}

} // verus!
