//! QR code generation — an SVG image of a URL, for pairing a phone with the
//! server.

use vstd::prelude::*;

verus! {

/// Error-correction level of a QR code, from the lowest to the highest.
#[derive(Debug, Clone, Copy)]
pub enum ErrorCorrection {
    L,
    M,
    Q,
    H,
}

/// The SVG that `qrcode` renders for `data` encoded at `level`, with at least
/// `min_width`×`min_height` pixels and with or without a quiet zone; `None`
/// when `data` does not fit in any QR code at that level.
pub uninterp spec fn qr_svg(
    data: Seq<char>,
    level: ErrorCorrection,
    min_width: u32,
    min_height: u32,
    quiet_zone: bool,
) -> Option<Seq<char>>;

/// Calls `qrcode::QrCode::with_error_correction_level` at `level` and, when
/// the data fits, renders the code with `render::<svg::Color>()`,
/// `min_dimensions(min_width, min_height)`, `quiet_zone(quiet_zone)` and
/// `build()`.
///
/// The contract names the result `qr_svg(..)`: it depends on the arguments
/// alone. Nothing is claimed of the SVG text itself. The sizes are bounded so
/// that the renderer's pixel arithmetic cannot overflow.
#[verifier::external_body]
fn render_qr_svg(
    data: &str,
    level: ErrorCorrection,
    min_width: u32,
    min_height: u32,
    quiet_zone: bool,
) -> (r: Option<String>)
    requires
        min_width <= 1_000_000,
        min_height <= 1_000_000,
    ensures
        match r {
            Some(s) => qr_svg(data@, level, min_width, min_height, quiet_zone) == Some(s@),
            None => qr_svg(data@, level, min_width, min_height, quiet_zone) is None,
        },
{
    let ec = match level {
        ErrorCorrection::L => qrcode::EcLevel::L,
        ErrorCorrection::M => qrcode::EcLevel::M,
        ErrorCorrection::Q => qrcode::EcLevel::Q,
        ErrorCorrection::H => qrcode::EcLevel::H,
    };
    match qrcode::QrCode::with_error_correction_level(data, ec) {
        Ok(code) => Some(
            code.render::<qrcode::render::svg::Color>().min_dimensions(min_width, min_height)
                .quiet_zone(quiet_zone).build(),
        ),
        Err(_) => None,
    }
}

/// The SVG of the QR code of `url`: medium error correction, at least
/// 200×200 pixels, with a quiet zone.
pub open spec fn url_qr_svg(url: Seq<char>) -> Option<Seq<char>> {
    qr_svg(url, ErrorCorrection::M, 200, 200, true)
}

/// The QR code of `url` as an SVG string, for a URL that fits in a QR code.
pub fn svg_for_url(url: &str) -> (r: String)
    requires
        url_qr_svg(url@) is Some,
    ensures
        url_qr_svg(url@) == Some(r@),
{
    match render_qr_svg(url, ErrorCorrection::M, 200, 200, true) {
        Some(s) => s,
        None => String::new(),
    }
}

/// The QR code of `url` as an SVG string, or `None` when `url` is too long
/// for a QR code.
pub fn try_svg_for_url(url: &str) -> (r: Option<String>)
    ensures
        match r {
            Some(s) => url_qr_svg(url@) == Some(s@),
            None => url_qr_svg(url@) is None,
        },
{
    match render_qr_svg(url, ErrorCorrection::M, 200, 200, true) {
        Some(_) => Some(svg_for_url(url)),
        None => None,
    }
}

} // verus!
