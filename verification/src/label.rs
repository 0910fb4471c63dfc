//! Text on the page.

use vstd::prelude::*;

use embedded_graphics::framebuffer::Framebuffer;
use embedded_graphics::geometry::Point;
use embedded_graphics::mono_font::iso_8859_1::{FONT_10X20, FONT_9X15_BOLD};
use embedded_graphics::mono_font::MonoTextStyle;
use embedded_graphics::pixelcolor::raw::{BigEndian, RawU1};
use embedded_graphics::pixelcolor::BinaryColor;
use embedded_graphics::text::{Alignment, Text};
use embedded_graphics::Drawable;

use crate::page;
use crate::page::{Page, Picture, PLANE_BYTES};

verus! {

/// The two fonts of the page.
#[derive(Debug, Clone, Copy, PartialEq, Eq, Structural)]
pub enum Font {
    /// Ten by twenty points.
    Large,
    /// Nine by fifteen points, bold.
    Medium,
}

/// Which end of a text stands at its position.
#[derive(Debug, Clone, Copy, PartialEq, Eq, Structural)]
pub enum Align {
    Left,
    Center,
    Right,
}

/// A number for each alignment: left, centre, right.
pub open spec fn align_code(a: Align) -> int {
    match a {
        Align::Left => 0,
        Align::Center => 1,
        Align::Right => 2,
    }
}

/// The plane of the page's size in which the `embedded-graphics` crate draws a text with
/// its baseline at `y`, in the large or the medium font, aligned at `x` by
/// [`align_code`].
pub uninterp spec fn text_bitmap(
    text: Seq<char>,
    x: int,
    y: int,
    large: bool,
    align: int,
) -> Seq<u8>;

/// Calls `Text::with_alignment` and `draw` of `embedded-graphics` on a blank
/// `Framebuffer` of the page's size. Believed of it: what is drawn depends on the text,
/// its position, its font and its alignment alone, and the frame buffer has one bit for
/// each point of the page.
#[verifier::external_body]
fn render_text(text: &str, x: i32, y: i32, font: Font, align: Align) -> (b: Vec<u8>)
    requires
        -0x2000_0000 <= x <= 0x2000_0000,
        -0x2000_0000 <= y <= 0x2000_0000,
        text@.len() <= 1000,
    ensures
        b@.len() == PLANE_BYTES,
        b@ == text_bitmap(text@, x as int, y as int, font == Font::Large, align_code(align)),
{
    let mut target = Framebuffer::<BinaryColor, RawU1, BigEndian, 480, 800, 48_000>::new();
    let font = match font {
        Font::Large => &FONT_10X20,
        Font::Medium => &FONT_9X15_BOLD,
    };
    let alignment = match align {
        Align::Left => Alignment::Left,
        Align::Center => Alignment::Center,
        Align::Right => Alignment::Right,
    };
    let style = MonoTextStyle::new(font, BinaryColor::On);
    let _ = Text::with_alignment(text, Point::new(x, y), style, alignment).draw(&mut target);
    target.data().to_vec()
}

impl Picture {
    /// With a text in black.
    pub open spec fn labelled(
        self,
        text: Seq<char>,
        x: int,
        y: int,
        font: Font,
        align: Align,
    ) -> Self {
        self.painted(
            page::plane_points(text_bitmap(text, x, y, font == Font::Large, align_code(align))),
            true,
        )
    }
}

/// Draws a text in black.
pub fn draw_label(page: &mut Page, text: &str, x: i32, y: i32, font: Font, align: Align)
    requires
        -0x2000_0000 <= x <= 0x2000_0000,
        -0x2000_0000 <= y <= 0x2000_0000,
        text@.len() <= 1000,
    ensures
        final(page)@ == old(page)@.labelled(text@, x as int, y as int, font, align),
{
    let bitmap: Vec<u8> = render_text(text, x, y, font, align);
    page.stamp(bitmap.as_slice());
}

} // verus!
