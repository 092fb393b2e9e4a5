//! Rendering a text as a scannable code drawn in Unicode half-block
//! characters, for a dark or a light terminal.
use vstd::prelude::*;
use qrcode::render::unicode::Dense1x2;
use crate::layout::{block_height, block_width, rectangular};
use crate::text::no_cr;

verus! {

/// Terminal theme for rendering.
#[derive(Debug, Clone, Copy, PartialEq, Eq, Structural)]
pub enum Theme {
    /// Dark terminal background (the default).
    Dark,
    /// Light terminal background.
    Light,
}

impl Default for Theme {
    fn default() -> (r: Theme)
        ensures
            r == Theme::Dark,
    {
        Theme::Dark
    }
}

/// A text that could not be encoded, for example because it is too long.
#[derive(Debug, Clone)]
pub struct RenderError {
    /// The text that was to be encoded.
    pub data: String,
}

impl RenderError {
    /// A message for the user.
    pub fn to_string(&self) -> (r: String)
        ensures
            r@ == "Failed to encode QR code for: "@ + self.data@,
    {
        let mut s = String::from_str("Failed to encode QR code for: ");
        s.append(self.data.as_str());
        s
    }
}

/// Whether the UTF-8 bytes of a text fit in a code at medium error correction.
pub uninterp spec fn fits_in_code(data: Seq<char>) -> bool;

/// The code for a text drawn in half-block characters, with dark modules shown
/// dark (`light` true, for a light terminal) or shown light (`light` false).
pub uninterp spec fn code_image(data: Seq<char>, light: bool) -> Seq<char>;

/// Relies on qrcode's `QrCode::new` (medium error correction, smallest version
/// that holds the bytes, an error when none does) and its unicode renderer
/// (`render::<Dense1x2>`, `dark_color`, `light_color`, `build`). The renderer
/// draws a square of modules with its quiet zone, `W` pixels a side, as
/// `(W + 1) / 2` lines of `W` one-character glyphs joined by newlines; the size
/// depends on the code alone, not on the colours. Here dark modules are shown
/// light, for a dark terminal.
#[verifier::external_body]
fn draw_for_dark_terminal(data: &str) -> (r: Option<String>)
    ensures
        r is Some == fits_in_code(data@),
        r matches Some(s) ==> {
            &&& s@ == code_image(data@, false)
            &&& block_width(s@) > 0
            &&& rectangular(s@)
            &&& block_height(s@) == (block_width(s@) + 1) / 2
            &&& no_cr(s@)
            &&& s@.last() != '\n'
            &&& block_width(s@) == block_width(code_image(data@, true))
            &&& block_height(s@) == block_height(code_image(data@, true))
        },
{
    match qrcode::QrCode::new(data.as_bytes()) {
        Ok(code) => Some(
            code.render::<Dense1x2>().dark_color(Dense1x2::Light).light_color(Dense1x2::Dark).build(),
        ),
        Err(_) => None,
    }
}

/// Relies on qrcode's `QrCode::new` and its unicode renderer, as
/// `draw_for_dark_terminal` does; here dark modules are shown dark, for a
/// light terminal.
#[verifier::external_body]
fn draw_for_light_terminal(data: &str) -> (r: Option<String>)
    ensures
        r is Some == fits_in_code(data@),
        r matches Some(s) ==> {
            &&& s@ == code_image(data@, true)
            &&& block_width(s@) > 0
            &&& rectangular(s@)
            &&& block_height(s@) == (block_width(s@) + 1) / 2
            &&& no_cr(s@)
            &&& s@.last() != '\n'
            &&& block_width(s@) == block_width(code_image(data@, false))
            &&& block_height(s@) == block_height(code_image(data@, false))
        },
{
    match qrcode::QrCode::new(data.as_bytes()) {
        Ok(code) => Some(
            code.render::<Dense1x2>().dark_color(Dense1x2::Dark).light_color(Dense1x2::Light).build(),
        ),
        Err(_) => None,
    }
}

/// Renders `data` as a code for a terminal of the given theme; fails exactly
/// when the text does not fit in a code, and the error then names the text.
/// The image is a rectangular block, not empty, and of the same size for
/// both themes.
pub fn render_qr(data: &str, theme: Theme) -> (r: Result<String, RenderError>)
    ensures
        r is Ok == fits_in_code(data@),
        r matches Ok(s) ==> {
            &&& s@ == code_image(data@, theme == Theme::Light)
            &&& block_width(s@) > 0
            &&& rectangular(s@)
            &&& block_height(s@) == (block_width(s@) + 1) / 2
            &&& no_cr(s@)
            &&& s@.last() != '\n'
            &&& block_width(s@) == block_width(code_image(data@, theme != Theme::Light))
            &&& block_height(s@) == block_height(code_image(data@, theme != Theme::Light))
        },
        r matches Err(e) ==> e.data@ == data@,
{
    let drawn = match theme {
        Theme::Dark => draw_for_dark_terminal(data),
        Theme::Light => draw_for_light_terminal(data),
    };
    match drawn {
        Some(image) => Ok(image),
        None => Err(RenderError { data: String::from_str(data) }),
    }
}

} // verus!
