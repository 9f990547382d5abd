//! The site's QR code, rendered as a self-contained inline SVG.

use vstd::prelude::*;

verus! {

#[verifier::external_type_specification]
#[verifier::external_body]
pub struct ExQrError(qrcode::types::QrError);

/// Failure to encode a QR code.
#[derive(Debug)]
pub enum QrSvgError {
    Encode(qrcode::types::QrError),
}

/// The SVG rendering (at least 96×96, with a quiet zone) of the QR code for
/// `text`'s UTF-8 bytes, or `None` when the text cannot be encoded.
pub uninterp spec fn qr_svg_rendering(text: Seq<char>) -> Option<Seq<char>>;

/// `qrcode::QrCode::new` on the text's bytes, then rendered to SVG with
/// `min_dimensions(96, 96)` and a quiet zone. The outcome is a function of the
/// text alone.
#[verifier::external_body]
fn render_qr_svg(text: &str) -> (r: Result<String, qrcode::types::QrError>)
    ensures
        r is Ok <==> qr_svg_rendering(text@) is Some,
        r matches Ok(svg) ==> Some(svg@) == qr_svg_rendering(text@),
{
    let code = qrcode::QrCode::new(text.as_bytes())?;
    Ok(code.render::<qrcode::render::svg::Color>().min_dimensions(96, 96).quiet_zone(true).build())
}

/// Render `url` as an inline SVG QR code with no external references, so it
/// can be embedded directly in a page.
pub fn qr_svg(url: &str) -> (r: Result<String, QrSvgError>)
    ensures
        r is Ok <==> qr_svg_rendering(url@) is Some,
        r matches Ok(svg) ==> Some(svg@) == qr_svg_rendering(url@),
{
    match render_qr_svg(url) {
        Ok(svg) => Ok(svg),
        Err(e) => Err(QrSvgError::Encode(e)),
    }
}

} // verus!
