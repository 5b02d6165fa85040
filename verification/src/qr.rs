//! QR codes for pairing a phone: the code of a pairing URL as an RGB image
//! (each module four pixels square) and as terminal text.

use vstd::prelude::*;

use vstd::string::StringSliceAdditionalSpecFns;

use qrcode::render::Renderer;
use qrcode::{Color, QrCode};

verus! {

/// Name for what `QrCode::new` makes of `data`, read as plain values: the
/// number of modules per side and the modules row by row (`true` for dark),
/// or the message of the error when it refuses the data.
pub uninterp spec fn qr_encoding(data: Seq<u8>) -> Result<(nat, Seq<bool>), Seq<char>>;

/// Calls `QrCode::new(data)` and reads the code through `QrCode::width` and
/// `QrCode::to_colors`, or the error through its `Display`. The contract
/// claims that the result is what `qr_encoding` names, and what the crate's
/// source shows of every code it makes: its version is one of 1 to 40, so
/// it is 21 to 177 modules wide (17 plus 4 per version), and it has one
/// module per cell of the square.
#[verifier::external_body]
fn qr_encode(data: &[u8]) -> (r: Result<(usize, Vec<bool>), String>)
    ensures
        match r {
            Ok((w, m)) => {
                &&& qr_encoding(data@) == Ok::<(nat, Seq<bool>), Seq<char>>((w as nat, m@))
                &&& 21 <= w <= 177
                &&& m@.len() == w * w
            },
            Err(e) => qr_encoding(data@) == Err::<(nat, Seq<bool>), Seq<char>>(e@),
        },
{
    match QrCode::new(data) {
        Ok(code) => Ok((code.width(), code.to_colors().into_iter().map(|c| match c {
            Color::Dark => true,
            Color::Light => false,
        }).collect())),
        Err(e) => Err(e.to_string()),
    }
}

/// The glyph of a module in terminal text: a full block when dark, a space
/// when light.
pub open spec fn module_glyph(dark: bool) -> char {
    if dark { '\u{2588}' } else { ' ' }
}

/// The terminal text of a code `w` modules wide with modules `dark` (row by
/// row): one line per row of modules, each module two glyphs wide, lines
/// separated by a newline, no quiet zone around the code.
pub open spec fn terminal_text(w: nat, dark: Seq<bool>) -> Seq<char> {
    let line = 2 * (w as int) + 1;
    Seq::new(
        (w * line - 1) as nat,
        |i: int|
            if i % line == 2 * w {
                '\n'
            } else {
                module_glyph(dark[(i / line) * w + (i % line) / 2])
            },
    )
}

/// Calls the string renderer of `qrcode` (`Renderer::<char>::new`) on the
/// modules, with no quiet zone and each module two characters wide and one
/// high, as `QrCode::render` sets it up. The contract states the text as
/// the renderer's source builds it: rows of glyphs joined by newlines.
#[verifier::external_body]
fn qr_render_terminal(width: usize, dark: &Vec<bool>) -> (s: String)
    requires
        1 <= width <= 177,
        dark@.len() == width * width,
    ensures
        s@ == terminal_text(width as nat, dark@),
{
    let colors: Vec<Color> = dark.iter().map(|d| if *d { Color::Dark } else { Color::Light }).collect();
    Renderer::<char>::new(&colors, width, 4).quiet_zone(false).module_dimensions(2, 1).build()
}

/// Pixels per module side in the RGB image of a code.
pub const MODULE_PIXELS: usize = 4;

/// The value of byte `i` of the RGB image of a code `w` modules wide whose
/// modules are `dark`: 0 in a dark module's square, 255 elsewhere.
pub open spec fn qr_pixel(w: nat, dark: Seq<bool>, i: int) -> u8 {
    let size = w * 4;
    let p = i / 3;
    let row = p / size as int;
    let col = p % size as int;
    if dark[(row / 4) * w + col / 4] { 0 } else { 255 }
}

proof fn lemma_module_index(w: int, p: int)
    requires
        w > 0,
        0 <= p < (w * 4) * (w * 4),
    ensures
        0 <= (p / (w * 4)) / 4 < w,
        0 <= (p % (w * 4)) / 4 < w,
        0 <= ((p / (w * 4)) / 4) * w + (p % (w * 4)) / 4 < w * w,
{
    let size = w * 4;
    assert(0 <= p / size < size) by (nonlinear_arith)
        requires size > 0, 0 <= p < size * size;
    assert(0 <= p % size < size) by (nonlinear_arith)
        requires size > 0;
    let r = (p / size) / 4;
    let c = (p % size) / 4;
    assert(0 <= r < w && 0 <= c < w) by (nonlinear_arith)
        requires size == w * 4, 0 <= p / size < size, 0 <= p % size < size, r == (p / size) / 4, c == (p % size) / 4;
    assert(0 <= r * w + c < w * w) by (nonlinear_arith)
        requires 0 <= r < w, 0 <= c < w;
}

/// The RGB bytes of the image of a code `width` modules wide with modules
/// `dark` (row by row): each module a 4×4 square, black when dark and white
/// when light, rows of pixels from top to bottom.
pub fn qr_pixels(width: usize, dark: &Vec<bool>) -> (px: Vec<u8>)
    requires
        dark@.len() == width * width,
        width <= 1000,
    ensures
        px@.len() == (width * 4) * (width * 4) * 3,
        forall|i: int| 0 <= i < px@.len() ==> #[trigger] px@[i] == qr_pixel(width as nat, dark@, i),
        forall|p: int|
            0 <= p < (width * 4) * (width * 4) ==> {
                let x = p % (width * 4) as int;
                let y = p / (width * 4) as int;
                &&& #[trigger] px@[3 * p] == px@[3 * p + 1]
                &&& px@[3 * p + 1] == px@[3 * p + 2]
                &&& px@[3 * p] == (if dark@[(y / 4) * width + x / 4] { 0u8 } else { 255u8 })
            },
{
    let size = width * MODULE_PIXELS;
    assert(size * size <= 16_000_000 && width * width <= 1_000_000) by (nonlinear_arith)
        requires size == width * 4, width <= 1000;
    let total = size * size;
    let mut px: Vec<u8> = Vec::new();
    let mut p: usize = 0;
    while p < total
        invariant
            size == width * 4,
            total == size * size,
            dark@.len() == width * width,
            width <= 1000,
            width * width <= 1_000_000,
            total <= 16_000_000,
            p <= total,
            px@.len() == 3 * p,
            forall|i: int| 0 <= i < px@.len() ==> #[trigger] px@[i] == qr_pixel(width as nat, dark@, i),
        decreases total - p,
    {
        proof {
            lemma_module_index(width as int, p as int);
        }
        let row = p / size;
        let col = p % size;
        let m = (row / MODULE_PIXELS) * width + col / MODULE_PIXELS;
        let v: u8 = if dark[m] { 0 } else { 255 };
        let ghost old_px = px@;
        px.push(v);
        px.push(v);
        px.push(v);
        proof {
            assert forall|i: int| 0 <= i < px@.len() implies #[trigger] px@[i] == qr_pixel(width as nat, dark@, i) by {
                if i >= 3 * p {
                    assert(i / 3 == p) by (nonlinear_arith)
                        requires 3 * p <= i < 3 * p + 3;
                } else {
                    assert(px@[i] == old_px[i]);
                }
            }
        }
        p = p + 1;
    }
    proof {
        assert forall|q: int| 0 <= q < (width * 4) * (width * 4) implies {
            let x = q % (width * 4) as int;
            let y = q / (width * 4) as int;
            &&& #[trigger] px@[3 * q] == px@[3 * q + 1]
            &&& px@[3 * q + 1] == px@[3 * q + 2]
            &&& px@[3 * q] == (if dark@[(y / 4) * width + x / 4] { 0u8 } else { 255u8 })
        } by {
            lemma_qr_pixel_gray(width as nat, dark@, q);
        }
    }
    px
}

/// Every pixel of a QR image is gray: its three channels hold the same
/// byte, 0 (black) when the module it lies in is dark and 255 (white)
/// when it is light. Pixel `p` lies at column `p % side`, row `p / side`,
/// in the module four pixels to a side that covers it.
pub proof fn lemma_qr_pixel_gray(w: nat, dark: Seq<bool>, p: int)
    requires
        w > 0,
        0 <= p < (w * 4) * (w * 4),
    ensures
        ({
            let x = p % (w * 4) as int;
            let y = p / (w * 4) as int;
            &&& qr_pixel(w, dark, 3 * p) == qr_pixel(w, dark, 3 * p + 1)
            &&& qr_pixel(w, dark, 3 * p + 1) == qr_pixel(w, dark, 3 * p + 2)
            &&& qr_pixel(w, dark, 3 * p) == (if dark[(y / 4) * w + x / 4] { 0u8 } else { 255u8 })
        }),
{
    assert((3 * p) / 3 == p && (3 * p + 1) / 3 == p && (3 * p + 2) / 3 == p) by (nonlinear_arith);
}

/// The image of the QR code of `uri`: its side in pixels and its RGB bytes
/// (as `qr_pixels` lays them out); none when the text cannot be encoded.
pub fn qr_image(uri: &str) -> (r: Option<(usize, Vec<u8>)>)
    ensures
        match qr_encoding(uri.spec_bytes()) {
            Ok((w, dark)) => r matches Some((side, px)) && {
                &&& side == w * 4
                &&& px@.len() == side * side * 3
                &&& forall|i: int| 0 <= i < px@.len() ==> #[trigger] px@[i] == qr_pixel(w, dark, i)
            },
            Err(_) => r is None,
        },
{
    match qr_encode(uri.as_bytes()) {
        Ok((w, dark)) => {
            let px = qr_pixels(w, &dark);
            Some((w * MODULE_PIXELS, px))
        },
        Err(_) => None,
    }
}

/// The QR code of `data` as terminal text, or the message of the error
/// that kept it from being encoded.
pub fn qr_terminal(data: &[u8]) -> (r: Result<String, String>)
    ensures
        match qr_encoding(data@) {
            Ok((w, dark)) => r is Ok && r->Ok_0@ == terminal_text(w, dark),
            Err(e) => r is Err && r->Err_0@ == e,
        },
{
    match qr_encode(data) {
        Ok((w, dark)) => Ok(qr_render_terminal(w, &dark)),
        Err(e) => Err(e),
    }
}

} // verus!
